//! Conversion of native method results into the strings the protocol
//! carries: numbers render in decimal, a unit result becomes the reserved
//! void sentinel, an absent value becomes `null`, and collections become
//! the array marker around their joined elements.

use vstd::prelude::*;

use crate::decimal::{spec_digits, u64_digits};
use crate::server::ExecuteMethodError;
use crate::strutil::push_char;
use crate::utils::{join, spec_join};

verus! {

/// The decimal rendering of a signed number.
pub open spec fn spec_int_string(n: int) -> Seq<char> {
    if n >= 0 {
        spec_digits(n as nat)
    } else {
        seq!['-'] + spec_digits((-n) as nat)
    }
}

/// Render a signed number in decimal.
pub fn i64_to_string(n: i64) -> (r: String)
    ensures
        r@ == spec_int_string(n as int),
{
    if n >= 0 {
        u64_digits(n as u64)
    } else {
        let mut out = String::new();
        push_char(&mut out, '-');
        let magnitude = (-(n as i128)) as u64;
        let digits = u64_digits(magnitude);
        out.append(digits.as_str());
        proof {
            assert(out@ =~= seq!['-'] + spec_digits((-(n as int)) as nat));
        }
        out
    }
}

/// Conversion of one method result into the protocol's string form.
pub trait ToSlimResultString {
    /// The string the value travels as, or the text of the failure it
    /// reports.
    spec fn spec_slim_result(&self) -> Result<Seq<char>, Seq<char>>;

    /// Convert the value.
    fn to_slim_result_string(self) -> (r: Result<String, ExecuteMethodError>)
        ensures
            match self.spec_slim_result() {
                Ok(s) => r is Ok && r->Ok_0@ == s,
                Err(e) => (r matches Err(ExecuteMethodError::ExecutionError(m)) && m@ == e),
            },
    ;
}

impl ToSlimResultString for u64 {
    open spec fn spec_slim_result(&self) -> Result<Seq<char>, Seq<char>> {
        Ok(spec_digits(*self as nat))
    }

    fn to_slim_result_string(self) -> (r: Result<String, ExecuteMethodError>) {
        Ok(u64_digits(self))
    }
}

impl ToSlimResultString for u8 {
    open spec fn spec_slim_result(&self) -> Result<Seq<char>, Seq<char>> {
        Ok(spec_digits(*self as nat))
    }

    fn to_slim_result_string(self) -> (r: Result<String, ExecuteMethodError>) {
        Ok(u64_digits(self as u64))
    }
}

impl ToSlimResultString for u16 {
    open spec fn spec_slim_result(&self) -> Result<Seq<char>, Seq<char>> {
        Ok(spec_digits(*self as nat))
    }

    fn to_slim_result_string(self) -> (r: Result<String, ExecuteMethodError>) {
        Ok(u64_digits(self as u64))
    }
}

impl ToSlimResultString for u32 {
    open spec fn spec_slim_result(&self) -> Result<Seq<char>, Seq<char>> {
        Ok(spec_digits(*self as nat))
    }

    fn to_slim_result_string(self) -> (r: Result<String, ExecuteMethodError>) {
        Ok(u64_digits(self as u64))
    }
}

impl ToSlimResultString for usize {
    open spec fn spec_slim_result(&self) -> Result<Seq<char>, Seq<char>> {
        Ok(spec_digits(*self as nat))
    }

    fn to_slim_result_string(self) -> (r: Result<String, ExecuteMethodError>) {
        Ok(u64_digits(self as u64))
    }
}

impl ToSlimResultString for i64 {
    open spec fn spec_slim_result(&self) -> Result<Seq<char>, Seq<char>> {
        Ok(spec_int_string(*self as int))
    }

    fn to_slim_result_string(self) -> (r: Result<String, ExecuteMethodError>) {
        Ok(i64_to_string(self))
    }
}

impl ToSlimResultString for i8 {
    open spec fn spec_slim_result(&self) -> Result<Seq<char>, Seq<char>> {
        Ok(spec_int_string(*self as int))
    }

    fn to_slim_result_string(self) -> (r: Result<String, ExecuteMethodError>) {
        Ok(i64_to_string(self as i64))
    }
}

impl ToSlimResultString for i16 {
    open spec fn spec_slim_result(&self) -> Result<Seq<char>, Seq<char>> {
        Ok(spec_int_string(*self as int))
    }

    fn to_slim_result_string(self) -> (r: Result<String, ExecuteMethodError>) {
        Ok(i64_to_string(self as i64))
    }
}

impl ToSlimResultString for i32 {
    open spec fn spec_slim_result(&self) -> Result<Seq<char>, Seq<char>> {
        Ok(spec_int_string(*self as int))
    }

    fn to_slim_result_string(self) -> (r: Result<String, ExecuteMethodError>) {
        Ok(i64_to_string(self as i64))
    }
}

impl ToSlimResultString for isize {
    open spec fn spec_slim_result(&self) -> Result<Seq<char>, Seq<char>> {
        Ok(spec_int_string(*self as int))
    }

    fn to_slim_result_string(self) -> (r: Result<String, ExecuteMethodError>) {
        Ok(i64_to_string(self as i64))
    }
}

impl ToSlimResultString for bool {
    open spec fn spec_slim_result(&self) -> Result<Seq<char>, Seq<char>> {
        if *self {
            Ok("true"@)
        } else {
            Ok("false"@)
        }
    }

    fn to_slim_result_string(self) -> (r: Result<String, ExecuteMethodError>) {
        let mut out = String::new();
        if self {
            out.append("true");
            proof {
                assert(out@ =~= "true"@);
            }
        } else {
            out.append("false");
            proof {
                assert(out@ =~= "false"@);
            }
        }
        Ok(out)
    }
}

impl ToSlimResultString for String {
    open spec fn spec_slim_result(&self) -> Result<Seq<char>, Seq<char>> {
        Ok(self@)
    }

    fn to_slim_result_string(self) -> (r: Result<String, ExecuteMethodError>) {
        Ok(self)
    }
}

impl ToSlimResultString for () {
    open spec fn spec_slim_result(&self) -> Result<Seq<char>, Seq<char>> {
        Ok("/__VOID__/"@)
    }

    fn to_slim_result_string(self) -> (r: Result<String, ExecuteMethodError>) {
        let mut out = String::new();
        out.append("/__VOID__/");
        proof {
            assert(out@ =~= "/__VOID__/"@);
        }
        Ok(out)
    }
}

impl ToSlimResultString for Option<String> {
    open spec fn spec_slim_result(&self) -> Result<Seq<char>, Seq<char>> {
        match self {
            None => Ok("null"@),
            Some(value) => Ok(value@),
        }
    }

    fn to_slim_result_string(self) -> (r: Result<String, ExecuteMethodError>) {
        match self {
            None => {
                let mut out = String::new();
                out.append("null");
                proof {
                    assert(out@ =~= "null"@);
                }
                Ok(out)
            },
            Some(value) => Ok(value),
        }
    }
}

impl ToSlimResultString for Result<String, String> {
    open spec fn spec_slim_result(&self) -> Result<Seq<char>, Seq<char>> {
        match self {
            Ok(value) => Ok(value@),
            Err(error) => Err(error@),
        }
    }

    fn to_slim_result_string(self) -> (r: Result<String, ExecuteMethodError>) {
        match self {
            Ok(value) => Ok(value),
            Err(error) => Err(ExecuteMethodError::ExecutionError(error)),
        }
    }
}

/// The array marker around the elements joined with the field separator.
pub open spec fn spec_array_string(parts: Seq<Seq<char>>) -> Seq<char> {
    "/__ARRAY["@ + spec_join(parts, "__|__"@) + "]__/"@
}

/// Join converted elements into the protocol's array marker form.
pub fn iterator_to_slim_result_string(parts: &Vec<String>) -> (r: Result<
    String,
    ExecuteMethodError,
>)
    ensures
        r is Ok && r->Ok_0@ == spec_array_string(parts.deep_view()),
{
    let mut out = String::new();
    out.append("/__ARRAY[");
    let joined = join(parts, "__|__");
    out.append(joined.as_str());
    out.append("]__/");
    proof {
        assert(out@ =~= spec_array_string(parts.deep_view()));
    }
    Ok(out)
}

impl ToSlimResultString for Vec<String> {
    open spec fn spec_slim_result(&self) -> Result<Seq<char>, Seq<char>> {
        Ok(spec_array_string(self.deep_view()))
    }

    fn to_slim_result_string(self) -> (r: Result<String, ExecuteMethodError>) {
        iterator_to_slim_result_string(&self)
    }
}

} // verus!
