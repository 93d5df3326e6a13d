//! Reading values back out of their wire form.
//!
//! Every reader takes the whole received text and a cursor position, and
//! returns the decoded value together with the position just past it.  Each
//! reader is proved against a specification decoder over the view of the
//! input; a reader returns `Ok` exactly when its specification decoder
//! accepts the input.

use vstd::prelude::*;
use vstd::seq_lib::lemma_seq_skip_of_skip;

use crate::decimal::{all_digits, digits_val};
use crate::decimal::parse_digits;
use crate::strutil::{find_char, lemma_find_char_props, lemma_find_char_skip, push_char,
    spec_find_char, substring};

verus! {

/// Why decoding a frame failed.
#[derive(Debug)]
pub enum FromSlimReaderError {
    /// The input ended before the declared content was complete.
    UnexpectedEof,
    /// A structural token or a length field was malformed.
    Other(String),
}

impl FromSlimReaderError {
    /// The failure rendered as text.
    pub fn message(&self) -> (r: String)
        ensures
            match self {
                FromSlimReaderError::UnexpectedEof => r@ == "Unexpected end of stream"@,
                FromSlimReaderError::Other(m) => r@ == m@,
            },
    {
        match self {
            FromSlimReaderError::UnexpectedEof => {
                let mut s = String::new();
                s.append("Unexpected end of stream");
                proof {
                    assert(s@ =~= "Unexpected end of stream"@);
                }
                s
            },
            FromSlimReaderError::Other(m) => m.clone(),
        }
    }
}

/// A length field: at least six digits, then `:`.  Yields the value and the
/// position just past the separator.
pub open spec fn spec_read_len(s: Seq<char>) -> Option<(nat, int)> {
    match spec_find_char(s, ':', 0) {
        None => None,
        Some(i) => if i >= 6 && all_digits(s.take(i)) && digits_val(s.take(i)) <= usize::MAX {
            Some((digits_val(s.take(i)), i + 1))
        } else {
            None
        },
    }
}

/// A scalar: a length field followed by exactly that many characters.
pub open spec fn spec_read_string(s: Seq<char>) -> Option<(Seq<char>, int)> {
    match spec_read_len(s) {
        None => None,
        Some((n, p)) => if p + n <= s.len() {
            Some((s.subrange(p, p + n), p + n))
        } else {
            None
        },
    }
}

/// `n` scalars, each followed by a `:` separator.
pub open spec fn spec_read_strings(s: Seq<char>, n: nat) -> Option<(Seq<Seq<char>>, int)>
    decreases n,
{
    if n == 0 {
        Some((Seq::empty(), 0))
    } else {
        match spec_read_string(s) {
            None => None,
            Some((v, p)) => if p < s.len() && s[p] == ':' {
                match spec_read_strings(s.skip(p + 1), (n - 1) as nat) {
                    None => None,
                    Some((vs, q)) => Some((seq![v] + vs, p + 1 + q)),
                }
            } else {
                None
            },
        }
    }
}

/// A list of scalars: an outer length field (used for framing only), then
/// `[`, an element count, the elements, and `]`.
pub open spec fn spec_read_string_list(s: Seq<char>) -> Option<(Seq<Seq<char>>, int)> {
    match spec_read_len(s) {
        None => None,
        Some((_outer, p)) => if p < s.len() && s[p] == '[' {
            match spec_read_len(s.skip(p + 1)) {
                None => None,
                Some((n, q)) => match spec_read_strings(s.skip(p + 1 + q), n) {
                    None => None,
                    Some((vs, r)) => {
                        let end = p + 1 + q + r;
                        if end < s.len() && s[end] == ']' {
                            Some((vs, end + 1))
                        } else {
                            None
                        }
                    },
                },
            }
        } else {
            None
        },
    }
}

/// A successful length field consumes at least seven characters and stays
/// inside the input.
pub proof fn lemma_read_len_bounds(s: Seq<char>)
    ensures
        match spec_read_len(s) {
            Some(v) => 7 <= v.1 <= s.len(),
            None => true,
        },
{
    lemma_find_char_props(s, ':', 0);
}

/// A successful scalar read stays inside the input.
pub proof fn lemma_read_string_bounds(s: Seq<char>)
    ensures
        match spec_read_string(s) {
            Some(v) => 7 <= v.1 <= s.len(),
            None => true,
        },
{
    lemma_read_len_bounds(s);
}

/// A successful element-sequence read stays inside the input.
pub proof fn lemma_read_strings_bounds(s: Seq<char>, n: nat)
    ensures
        match spec_read_strings(s, n) {
            Some(v) => 0 <= v.1 <= s.len(),
            None => true,
        },
    decreases n,
{
    if n > 0 {
        lemma_read_string_bounds(s);
        if spec_read_string(s) is Some {
            let (v, p) = spec_read_string(s)->0;
            if p < s.len() && s[p] == ':' {
                lemma_read_strings_bounds(s.skip(p + 1), (n - 1) as nat);
            }
        }
    }
}

/// Check that every character in `s[from..to]` is a decimal digit.
pub(crate) fn check_digits(s: &str, from: usize, to: usize) -> (r: bool)
    requires
        from <= to <= s@.len(),
    ensures
        r == all_digits(s@.subrange(from as int, to as int)),
{
    let mut i: usize = from;
    while i < to
        invariant
            from <= i <= to <= s@.len(),
            forall|j: int| from <= j < i ==> crate::decimal::is_digit(#[trigger] s@[j]),
        decreases to - i,
    {
        let c = s.get_char(i);
        let v = c as u32;
        if !(48 <= v && v <= 57) {
            proof {
                assert(!crate::decimal::is_digit(s@.subrange(from as int, to as int)[i - from]));
            }
            return false;
        }
        i += 1;
    }
    proof {
        assert forall|j: int| 0 <= j < to - from implies crate::decimal::is_digit(
            #[trigger] s@.subrange(from as int, to as int)[j],
        ) by {
            assert(s@.subrange(from as int, to as int)[j] == s@[j + from]);
        }
    }
    true
}

/// Read one length field starting at `pos`.
pub fn read_len(s: &str, pos: usize) -> (r: Result<(usize, usize), FromSlimReaderError>)
    requires
        pos <= s@.len(),
    ensures
        match spec_read_len(s@.skip(pos as int)) {
            Some(v) => r is Ok && r->Ok_0.0 == v.0 && r->Ok_0.1 == pos + v.1,
            None => r is Err,
        },
{
    let len = s.unicode_len();
    proof {
        lemma_find_char_skip(s@, ':', pos as int);
        lemma_find_char_props(s@, ':', pos as int);
    }
    let colon = match find_char(s, ':', pos) {
        Some(i) => i,
        None => {
            let mut m = String::new();
            m.append("Failure reading from Slim Server");
            return Err(FromSlimReaderError::Other(m));
        },
    };
    proof {
        assert(pos <= colon < s@.len());
        assert(s@.skip(pos as int).take(colon - pos) =~= s@.subrange(pos as int, colon as int));
    }
    if colon - pos < 6 {
        let mut m = String::new();
        m.append("Failure reading from Slim Server");
        return Err(FromSlimReaderError::Other(m));
    }
    if !check_digits(s, pos, colon) {
        let mut m = String::new();
        m.append("Failure converting read data to a number");
        return Err(FromSlimReaderError::Other(m));
    }
    match parse_digits(s, pos, colon) {
        Some(v) => Ok((v, colon + 1)),
        None => {
            let mut m = String::new();
            m.append("Failure converting read data to a number");
            Err(FromSlimReaderError::Other(m))
        },
    }
}

/// The exact text of a mismatch report for a structural token.
pub open spec fn spec_expected_message(expected: char, got: char) -> Seq<char> {
    "Expected "@ + seq![expected] + " but got "@ + seq![got]
}

/// Demand the character `expected` at `pos`.
pub fn read_expected_char(s: &str, pos: usize, expected: char) -> (r: Result<
    usize,
    FromSlimReaderError,
>)
    requires
        pos <= s@.len(),
    ensures
        pos < s@.len() && s@[pos as int] == expected ==> r == Ok::<usize, FromSlimReaderError>(
            (pos + 1) as usize,
        ),
        pos < s@.len() && s@[pos as int] != expected ==> (r is Err && (r->Err_0 matches
            FromSlimReaderError::Other(m) && m@ == spec_expected_message(expected, s@[pos as int]))),
        pos == s@.len() ==> r == Err::<usize, FromSlimReaderError>(
            FromSlimReaderError::UnexpectedEof,
        ),
{
    if pos >= s.unicode_len() {
        return Err(FromSlimReaderError::UnexpectedEof);
    }
    let c = s.get_char(pos);
    if c == expected {
        Ok(pos + 1)
    } else {
        let mut m = String::new();
        m.append("Expected ");
        push_char(&mut m, expected);
        m.append(" but got ");
        push_char(&mut m, c);
        proof {
            assert(m@ =~= spec_expected_message(expected, c));
        }
        Err(FromSlimReaderError::Other(m))
    }
}

/// Read one scalar starting at `pos`.
pub fn read_string(s: &str, pos: usize) -> (r: Result<(String, usize), FromSlimReaderError>)
    requires
        pos <= s@.len(),
    ensures
        match spec_read_string(s@.skip(pos as int)) {
            Some(v) => r is Ok && r->Ok_0.0@ == v.0 && r->Ok_0.1 == pos + v.1,
            None => r is Err,
        },
{
    proof {
        lemma_read_len_bounds(s@.skip(pos as int));
    }
    let (n, p) = read_len(s, pos)?;
    let len = s.unicode_len();
    if n > len - p {
        return Err(FromSlimReaderError::UnexpectedEof);
    }
    let value = substring(s, p, p + n);
    proof {
        let t = s@.skip(pos as int);
        let q = p - pos;
        assert(t.subrange(q, q + n) =~= s@.subrange(p as int, (p + n) as int));
    }
    Ok((value, p + n))
}

/// Read `n` scalars, each followed by `:`, starting at `pos`.
fn read_strings(s: &str, pos: usize, n: usize) -> (r: Result<
    (Vec<String>, usize),
    FromSlimReaderError,
>)
    requires
        pos <= s@.len(),
    ensures
        match spec_read_strings(s@.skip(pos as int), n as nat) {
            Some(v) => r is Ok && r->Ok_0.0.deep_view() == v.0 && r->Ok_0.1 == pos + v.1,
            None => r is Err,
        },
{
    let slen = s.unicode_len();
    let mut values: Vec<String> = Vec::new();
    let mut cur: usize = pos;
    let mut k: usize = 0;
    while k < n
        invariant
            slen == s@.len(),
            pos <= cur <= s@.len(),
            k <= n,
            values.len() == k,
            match spec_read_strings(s@.skip(cur as int), (n - k) as nat) {
                Some(v) => spec_read_strings(s@.skip(pos as int), n as nat) == Some(
                    (values.deep_view() + v.0, cur - pos + v.1),
                ),
                None => spec_read_strings(s@.skip(pos as int), n as nat) is None,
            },
        decreases n - k,
    {
        let ghost pre = s@.skip(cur as int);
        let ghost rest_count = (n - k) as nat;
        proof {
            lemma_read_string_bounds(pre);
        }
        let (value, p) = match read_string(s, cur) {
            Ok(v) => v,
            Err(e) => {
                proof {
                    assert(spec_read_strings(pre, rest_count) is None);
                }
                return Err(e);
            },
        };
        let p2 = match read_expected_char(s, p, ':') {
            Ok(q) => q,
            Err(e) => {
                proof {
                    let sp = spec_read_string(pre).unwrap();
                    assert(pre[sp.1] == s@[p as int] || sp.1 == pre.len());
                    assert(spec_read_strings(pre, rest_count) is None);
                }
                return Err(e);
            },
        };
        proof {
            let sp = spec_read_string(pre).unwrap();
            assert(pre[sp.1] == ':');
            lemma_seq_skip_of_skip(s@, cur as int, sp.1 + 1);
            assert(pre.skip(sp.1 + 1) =~= s@.skip(p2 as int));
        }
        let ghost old_values = values.deep_view();
        values.push(value);
        proof {
            assert(values.deep_view() =~= old_values.push(value@));
            let sp = spec_read_string(pre).unwrap();
            match spec_read_strings(s@.skip(p2 as int), (rest_count - 1) as nat) {
                Some(v) => {
                    assert(spec_read_strings(pre, rest_count) == Some(
                        (seq![value@] + v.0, sp.1 + 1 + v.1),
                    ));
                    assert(old_values + (seq![value@] + v.0) =~= values.deep_view() + v.0);
                },
                None => {
                    assert(spec_read_strings(pre, rest_count) is None);
                },
            }
        }
        cur = p2;
        k += 1;
    }
    proof {
        assert(spec_read_strings(s@.skip(cur as int), 0) == Some(
            (Seq::<Seq<char>>::empty(), 0int),
        ));
        assert(values.deep_view() + Seq::<Seq<char>>::empty() =~= values.deep_view());
    }
    Ok((values, cur))
}

/// Read a list of scalars starting at `pos`.
pub fn read_string_list(s: &str, pos: usize) -> (r: Result<
    (Vec<String>, usize),
    FromSlimReaderError,
>)
    requires
        pos <= s@.len(),
    ensures
        match spec_read_string_list(s@.skip(pos as int)) {
            Some(v) => r is Ok && r->Ok_0.0.deep_view() == v.0 && r->Ok_0.1 == pos + v.1,
            None => r is Err,
        },
{
    let slen = s.unicode_len();
    let ghost t = s@.skip(pos as int);
    proof {
        lemma_read_len_bounds(t);
    }
    let (_outer, p) = read_len(s, pos)?;
    let p1 = match read_expected_char(s, p, '[') {
        Ok(q) => q,
        Err(e) => {
            return Err(e);
        },
    };
    proof {
        assert(t[p - pos] == '[');
        lemma_seq_skip_of_skip(s@, pos as int, p + 1 - pos);
        assert(t.skip(p + 1 - pos) =~= s@.skip(p1 as int));
    }
    proof {
        lemma_read_len_bounds(s@.skip(p1 as int));
    }
    let (n, p2) = match read_len(s, p1) {
        Ok(v) => v,
        Err(e) => {
            return Err(e);
        },
    };
    proof {
        let q = spec_read_len(s@.skip(p1 as int)).unwrap().1;
        lemma_read_len_bounds(s@.skip(p1 as int));
        lemma_seq_skip_of_skip(s@, pos as int, (p - pos) + 1 + q);
        assert(t.skip((p - pos) + 1 + q) =~= s@.skip(p2 as int));
        lemma_read_strings_bounds(s@.skip(p2 as int), n as nat);
    }
    let (values, p3) = match read_strings(s, p2, n) {
        Ok(v) => v,
        Err(e) => {
            return Err(e);
        },
    };
    let p4 = match read_expected_char(s, p3, ']') {
        Ok(q) => q,
        Err(e) => {
            proof {
                let sl = spec_read_strings(s@.skip(p2 as int), n as nat).unwrap();
                assert(p3 == p2 + sl.1);
            }
            return Err(e);
        },
    };
    proof {
        let sl = spec_read_strings(s@.skip(p2 as int), n as nat).unwrap();
        assert(t[p3 - pos] == ']');
    }
    Ok((values, p4))
}

/// One instruction, decoded from a list of scalar fields: the token, the
/// operation word, the operation's operands, and (for `make`, `call` and
/// `callAndAssign`) the remaining fields as arguments.  Fields beyond the
/// ones an operation uses are ignored for `import` and `assign`.
pub open spec fn spec_read_instruction(s: Seq<char>) -> Option<(crate::SpecInstruction, int)> {
    match spec_read_string_list(s) {
        None => None,
        Some((fields, p)) => {
            if fields.len() < 2 {
                None
            } else {
                let id = fields[0];
                let op = fields[1];
                if op == "import"@ {
                    if fields.len() >= 3 {
                        Some((crate::SpecInstruction::Import { id, path: fields[2] }, p))
                    } else {
                        None
                    }
                } else if op == "make"@ {
                    if fields.len() >= 4 {
                        Some(
                            (
                                crate::SpecInstruction::Make {
                                    id,
                                    instance: fields[2],
                                    class: fields[3],
                                    args: fields.skip(4),
                                },
                                p,
                            ),
                        )
                    } else {
                        None
                    }
                } else if op == "call"@ {
                    if fields.len() >= 4 {
                        Some(
                            (
                                crate::SpecInstruction::Call {
                                    id,
                                    instance: fields[2],
                                    function: fields[3],
                                    args: fields.skip(4),
                                },
                                p,
                            ),
                        )
                    } else {
                        None
                    }
                } else if op == "callAndAssign"@ {
                    if fields.len() >= 5 {
                        Some(
                            (
                                crate::SpecInstruction::CallAndAssign {
                                    id,
                                    symbol: fields[2],
                                    instance: fields[3],
                                    function: fields[4],
                                    args: fields.skip(5),
                                },
                                p,
                            ),
                        )
                    } else {
                        None
                    }
                } else if op == "assign"@ {
                    if fields.len() >= 4 {
                        Some(
                            (
                                crate::SpecInstruction::Assign {
                                    id,
                                    symbol: fields[2],
                                    value: fields[3],
                                },
                                p,
                            ),
                        )
                    } else {
                        None
                    }
                } else {
                    None
                }
            }
        },
    }
}

/// Read one instruction starting at `pos`.
pub fn read_instruction(s: &str, pos: usize) -> (r: Result<
    (crate::Instruction, usize),
    FromSlimReaderError,
>)
    requires
        pos <= s@.len(),
    ensures
        match spec_read_instruction(s@.skip(pos as int)) {
            Some(v) => r is Ok && r->Ok_0.0@ == v.0 && r->Ok_0.1 == pos + v.1,
            None => r is Err,
        },
{
    let (fields, p) = read_string_list(s, pos)?;
    let ghost all = fields.deep_view();
    if fields.len() < 2 {
        let mut m = String::new();
        m.append("Expected data");
        return Err(FromSlimReaderError::Other(m));
    }
    let mut rest = fields;
    let first = rest.remove(0);
    let id = crate::Id::from(first.as_str());
    let op = rest.remove(0);
    proof {
        assert(id@ == all[0]);
        assert(op@ == all[1]);
        assert(rest.deep_view() =~= all.skip(2));
    }
    if crate::strutil::str_eq_str(op.as_str(), "import") {
        if rest.len() < 1 {
            let mut m = String::new();
            m.append("Expected path");
            return Err(FromSlimReaderError::Other(m));
        }
        let path = rest.remove(0);
        proof {
            assert(path@ == all[2]);
        }
        Ok((crate::Instruction::Import { id, path }, p))
    } else if crate::strutil::str_eq_str(op.as_str(), "make") {
        if rest.len() < 2 {
            let mut m = String::new();
            m.append("Expected instance");
            return Err(FromSlimReaderError::Other(m));
        }
        let instance = rest.remove(0);
        let class = rest.remove(0);
        proof {
            assert(instance@ == all[2]);
            assert(class@ == all[3]);
            assert(rest.deep_view() =~= all.skip(4));
        }
        Ok((crate::Instruction::Make { id, instance, class, args: rest }, p))
    } else if crate::strutil::str_eq_str(op.as_str(), "call") {
        if rest.len() < 2 {
            let mut m = String::new();
            m.append("Expected instance");
            return Err(FromSlimReaderError::Other(m));
        }
        let instance = rest.remove(0);
        let function = rest.remove(0);
        proof {
            assert(instance@ == all[2]);
            assert(function@ == all[3]);
            assert(rest.deep_view() =~= all.skip(4));
        }
        Ok((crate::Instruction::Call { id, instance, function, args: rest }, p))
    } else if crate::strutil::str_eq_str(op.as_str(), "callAndAssign") {
        if rest.len() < 3 {
            let mut m = String::new();
            m.append("Expected symbol");
            return Err(FromSlimReaderError::Other(m));
        }
        let symbol = rest.remove(0);
        let instance = rest.remove(0);
        let function = rest.remove(0);
        proof {
            assert(symbol@ == all[2]);
            assert(instance@ == all[3]);
            assert(function@ == all[4]);
            assert(rest.deep_view() =~= all.skip(5));
        }
        Ok((crate::Instruction::CallAndAssign { id, symbol, instance, function, args: rest }, p))
    } else if crate::strutil::str_eq_str(op.as_str(), "assign") {
        if rest.len() < 2 {
            let mut m = String::new();
            m.append("Expected symbol");
            return Err(FromSlimReaderError::Other(m));
        }
        let symbol = rest.remove(0);
        let value = rest.remove(0);
        proof {
            assert(symbol@ == all[2]);
            assert(value@ == all[3]);
        }
        Ok((crate::Instruction::Assign { id, symbol, value }, p))
    } else {
        let mut m = String::new();
        m.append("Not implemented ");
        m.append(op.as_str());
        Err(FromSlimReaderError::Other(m))
    }
}

/// `n` instructions, each followed by a `:` separator.
pub open spec fn spec_read_instructions(s: Seq<char>, n: nat) -> Option<
    (Seq<crate::SpecInstruction>, int),
>
    decreases n,
{
    if n == 0 {
        Some((Seq::empty(), 0))
    } else {
        match spec_read_instruction(s) {
            None => None,
            Some((v, p)) => if 0 <= p < s.len() && s[p] == ':' {
                match spec_read_instructions(s.skip(p + 1), (n - 1) as nat) {
                    None => None,
                    Some((vs, q)) => Some((seq![v] + vs, p + 1 + q)),
                }
            } else {
                None
            },
        }
    }
}

/// A successful instruction read stays inside the input.
pub proof fn lemma_read_instruction_bounds(s: Seq<char>)
    ensures
        match spec_read_instruction(s) {
            Some(v) => 0 <= v.1 <= s.len(),
            None => true,
        },
{
    lemma_read_len_bounds(s);
    if spec_read_len(s) is Some {
        let (_outer, p) = spec_read_len(s).unwrap();
        if p < s.len() && s[p] == '[' {
            lemma_read_len_bounds(s.skip(p + 1));
            if spec_read_len(s.skip(p + 1)) is Some {
                let (n, q) = spec_read_len(s.skip(p + 1)).unwrap();
                lemma_read_strings_bounds(s.skip(p + 1 + q), n);
            }
        }
    }
}

/// Read `n` instructions, each followed by `:`, starting at `pos`.
fn read_instructions(s: &str, pos: usize, n: usize) -> (r: Result<
    (Vec<crate::Instruction>, usize),
    FromSlimReaderError,
>)
    requires
        pos <= s@.len(),
    ensures
        match spec_read_instructions(s@.skip(pos as int), n as nat) {
            Some(v) => r is Ok && r->Ok_0.0.deep_view() == v.0 && r->Ok_0.1 == pos + v.1,
            None => r is Err,
        },
{
    let slen = s.unicode_len();
    let mut values: Vec<crate::Instruction> = Vec::new();
    let mut cur: usize = pos;
    let mut k: usize = 0;
    while k < n
        invariant
            slen == s@.len(),
            pos <= cur <= s@.len(),
            k <= n,
            values.len() == k,
            match spec_read_instructions(s@.skip(cur as int), (n - k) as nat) {
                Some(v) => spec_read_instructions(s@.skip(pos as int), n as nat) == Some(
                    (values.deep_view() + v.0, cur - pos + v.1),
                ),
                None => spec_read_instructions(s@.skip(pos as int), n as nat) is None,
            },
        decreases n - k,
    {
        let ghost pre = s@.skip(cur as int);
        let ghost rest_count = (n - k) as nat;
        proof {
            lemma_read_instruction_bounds(pre);
        }
        let (value, p) = match read_instruction(s, cur) {
            Ok(v) => v,
            Err(e) => {
                proof {
                    assert(spec_read_instructions(pre, rest_count) is None);
                }
                return Err(e);
            },
        };
        let p2 = match read_expected_char(s, p, ':') {
            Ok(q) => q,
            Err(e) => {
                proof {
                    let sp = spec_read_instruction(pre).unwrap();
                    assert(pre[sp.1] == s@[p as int] || sp.1 == pre.len());
                    assert(spec_read_instructions(pre, rest_count) is None);
                }
                return Err(e);
            },
        };
        proof {
            let sp = spec_read_instruction(pre).unwrap();
            assert(pre[sp.1] == ':');
            lemma_seq_skip_of_skip(s@, cur as int, sp.1 + 1);
            assert(pre.skip(sp.1 + 1) =~= s@.skip(p2 as int));
        }
        let ghost old_values = values.deep_view();
        values.push(value);
        proof {
            assert(values.deep_view() =~= old_values.push(value@));
            let sp = spec_read_instruction(pre).unwrap();
            match spec_read_instructions(s@.skip(p2 as int), (rest_count - 1) as nat) {
                Some(v) => {
                    assert(spec_read_instructions(pre, rest_count) == Some(
                        (seq![value@] + v.0, sp.1 + 1 + v.1),
                    ));
                    assert(old_values + (seq![value@] + v.0) =~= values.deep_view() + v.0);
                },
                None => {
                    assert(spec_read_instructions(pre, rest_count) is None);
                },
            }
        }
        cur = p2;
        k += 1;
    }
    proof {
        assert(spec_read_instructions(s@.skip(cur as int), 0) == Some(
            (Seq::<crate::SpecInstruction>::empty(), 0int),
        ));
        assert(values.deep_view() + Seq::<crate::SpecInstruction>::empty()
            =~= values.deep_view());
    }
    Ok((values, cur))
}

/// The top-level read of each round trip: after the frame's length field the
/// first payload character decides; `[` begins an instruction batch and `b`
/// must begin the literal `bye`, which ends the session.
pub open spec fn spec_read_bye_or_instructions(s: Seq<char>) -> Option<
    (crate::SpecByeOrInstructions, int),
> {
    match spec_read_len(s) {
        None => None,
        Some((_outer, p)) => if p < s.len() && s[p] == '[' {
            match spec_read_len(s.skip(p + 1)) {
                None => None,
                Some((n, q)) => match spec_read_instructions(s.skip(p + 1 + q), n) {
                    None => None,
                    Some((is, r)) => {
                        let end = p + 1 + q + r;
                        if end < s.len() && s[end] == ']' {
                            Some((crate::SpecByeOrInstructions::Instructions(is), end + 1))
                        } else {
                            None
                        }
                    },
                },
            }
        } else if p + 3 <= s.len() && s[p] == 'b' && s[p + 1] == 'y' && s[p + 2] == 'e' {
            Some((crate::SpecByeOrInstructions::Bye, p + 3))
        } else {
            None
        },
    }
}

/// Read one top-level frame starting at `pos`.
pub fn read_bye_or_instructions(s: &str, pos: usize) -> (r: Result<
    (crate::ByeOrSlimInstructions, usize),
    FromSlimReaderError,
>)
    requires
        pos <= s@.len(),
    ensures
        match spec_read_bye_or_instructions(s@.skip(pos as int)) {
            Some(v) => r is Ok && r->Ok_0.0@ == v.0 && r->Ok_0.1 == pos + v.1,
            None => r is Err,
        },
{
    let slen = s.unicode_len();
    let ghost t = s@.skip(pos as int);
    proof {
        lemma_read_len_bounds(t);
    }
    let (_outer, p) = read_len(s, pos)?;
    if p >= slen {
        return Err(FromSlimReaderError::UnexpectedEof);
    }
    let c = s.get_char(p);
    proof {
        assert(t[p - pos] == c);
    }
    if c == '[' {
        let p1 = p + 1;
        proof {
            lemma_seq_skip_of_skip(s@, pos as int, (p - pos) + 1);
            assert(t.skip((p - pos) + 1) =~= s@.skip(p1 as int));
            lemma_read_len_bounds(s@.skip(p1 as int));
        }
        let (n, p2) = match read_len(s, p1) {
            Ok(v) => v,
            Err(e) => {
                return Err(e);
            },
        };
        proof {
            let q = spec_read_len(s@.skip(p1 as int)).unwrap().1;
            lemma_seq_skip_of_skip(s@, pos as int, (p - pos) + 1 + q);
            assert(t.skip((p - pos) + 1 + q) =~= s@.skip(p2 as int));
            lemma_read_instructions_bounds(s@.skip(p2 as int), n as nat);
        }
        let (values, p3) = match read_instructions(s, p2, n) {
            Ok(v) => v,
            Err(e) => {
                return Err(e);
            },
        };
        let p4 = match read_expected_char(s, p3, ']') {
            Ok(q) => q,
            Err(e) => {
                proof {
                    let sl = spec_read_instructions(s@.skip(p2 as int), n as nat).unwrap();
                    assert(p3 == p2 + sl.1);
                }
                return Err(e);
            },
        };
        proof {
            let sl = spec_read_instructions(s@.skip(p2 as int), n as nat).unwrap();
            assert(t[p3 - pos] == ']');
        }
        Ok((crate::ByeOrSlimInstructions::Instructions(values), p4))
    } else if c == 'b' {
        let p1 = match read_expected_char(s, p + 1, 'y') {
            Ok(q) => q,
            Err(e) => {
                return Err(e);
            },
        };
        let p2 = match read_expected_char(s, p1, 'e') {
            Ok(q) => q,
            Err(e) => {
                return Err(e);
            },
        };
        proof {
            assert(t[p + 1 - pos] == 'y');
            assert(t[p + 2 - pos] == 'e');
        }
        Ok((crate::ByeOrSlimInstructions::Bye, p2))
    } else {
        let mut m = String::new();
        m.append("Non expected byte ");
        push_char(&mut m, c);
        Err(FromSlimReaderError::Other(m))
    }
}

/// A successful element-sequence read of instructions stays inside the
/// input.
pub proof fn lemma_read_instructions_bounds(s: Seq<char>, n: nat)
    ensures
        match spec_read_instructions(s, n) {
            Some(v) => 0 <= v.1 <= s.len(),
            None => true,
        },
    decreases n,
{
    if n > 0 {
        lemma_read_instruction_bounds(s);
        if spec_read_instruction(s) is Some {
            let (v, p) = spec_read_instruction(s)->0;
            if 0 <= p < s.len() && s[p] == ':' {
                lemma_read_instructions_bounds(s.skip(p + 1), (n - 1) as nat);
            }
        }
    }
}

/// Classify the string a result value travelled as: the reserved markers
/// first, then a bracketed nested list, then the exception prefix; anything
/// else is a plain value.
pub open spec fn spec_classify_value(v: Seq<char>) -> Option<crate::SpecInstructionResultValue>
    decreases v.len(), 1nat,
{
    if v == "OK"@ {
        Some(crate::SpecInstructionResultValue::Okay)
    } else if v == "/__VOID__/"@ {
        Some(crate::SpecInstructionResultValue::Void)
    } else if v.len() > 0 && v[0] == '[' {
        match spec_read_len(v.skip(1)) {
            None => None,
            Some((n, q)) => if 1 + q <= v.len() {
                match spec_classify_values(v.skip(1 + q), n) {
                    None => None,
                    Some((vs, r)) => if 1 + q + r < v.len() && v[1 + q + r] == ']' {
                        Some(crate::SpecInstructionResultValue::List(vs))
                    } else {
                        None
                    },
                }
            } else {
                None
            },
        }
    } else if "__EXCEPTION__:"@.is_prefix_of(v) {
        Some(crate::SpecInstructionResultValue::Exception(v.skip(14)))
    } else {
        Some(crate::SpecInstructionResultValue::Text(v))
    }
}

/// `n` encoded result values, each followed by `:`.
pub open spec fn spec_classify_values(s: Seq<char>, n: nat) -> Option<
    (Seq<crate::SpecInstructionResultValue>, int),
>
    decreases s.len(), 0nat, n,
{
    if n == 0 {
        Some((Seq::empty(), 0))
    } else {
        match spec_read_string(s) {
            None => None,
            Some((elem, p)) => if elem.len() < s.len() {
                match spec_classify_value(elem) {
                    None => None,
                    Some(val) => if 0 <= p < s.len() && s[p] == ':' {
                        match spec_classify_values(s.skip(p + 1), (n - 1) as nat) {
                            None => None,
                            Some((vs, q)) => Some((seq![val] + vs, p + 1 + q)),
                        }
                    } else {
                        None
                    },
                }
            } else {
                None
            },
        }
    }
}

/// One result read back from the wire: a two-scalar list holding the echoed
/// token and the outcome's text, which is then classified.
pub open spec fn spec_read_instruction_result(s: Seq<char>) -> Option<
    (crate::SpecInstructionResult, int),
> {
    match spec_read_string_list(s) {
        None => None,
        Some((fields, p)) => if fields.len() == 2 {
            let id = fields[0];
            match spec_classify_value(fields[1]) {
                None => None,
                Some(val) => Some(
                    (
                        match val {
                            crate::SpecInstructionResultValue::Okay => crate::SpecInstructionResult::Okay { id },
                            crate::SpecInstructionResultValue::Void => crate::SpecInstructionResult::Void { id },
                            crate::SpecInstructionResultValue::Text(t) => crate::SpecInstructionResult::Text { id, value: t },
                            crate::SpecInstructionResultValue::List(vs) => crate::SpecInstructionResult::List { id, values: vs },
                            crate::SpecInstructionResultValue::Exception(m) => crate::SpecInstructionResult::Exception { id, message: m },
                        },
                        p,
                    ),
                ),
            }
        } else {
            None
        },
    }
}

/// Classify one received value string.
pub fn classify_value(v: &str) -> (r: Result<crate::InstructionResultValue, FromSlimReaderError>)
    ensures
        match spec_classify_value(v@) {
            Some(val) => r is Ok && r->Ok_0@ == val,
            None => r is Err,
        },
    decreases v@.len(), 1nat,
{
    let len = v.unicode_len();
    proof {
        reveal_strlit("OK");
        reveal_strlit("/__VOID__/");
        reveal_strlit("__EXCEPTION__:");
    }
    if crate::strutil::str_eq_str(v, "OK") {
        return Ok(crate::InstructionResultValue::Okay);
    }
    if crate::strutil::str_eq_str(v, "/__VOID__/") {
        return Ok(crate::InstructionResultValue::Void);
    }
    if len > 0 && v.get_char(0) == '[' {
        proof {
            lemma_read_len_bounds(v@.skip(1));
        }
        let (n, p) = match read_len(v, 1) {
            Ok(x) => x,
            Err(e) => {
                return Err(e);
            },
        };
        let inner = substring(v, p, len);
        proof {
            assert(inner@ =~= v@.skip(p as int));
            lemma_classify_values_bounds(v@.skip(p as int), n as nat);
        }
        let (values, consumed) = match classify_values(inner.as_str(), n) {
            Ok(x) => x,
            Err(e) => {
                return Err(e);
            },
        };
        match read_expected_char(inner.as_str(), consumed, ']') {
            Ok(_) => {
                proof {
                    let sl = spec_classify_values(v@.skip(p as int), n as nat).unwrap();
                    assert(v@[p + sl.1] == inner@[sl.1]);
                }
                Ok(crate::InstructionResultValue::List(values))
            },
            Err(e) => {
                proof {
                    let sl = spec_classify_values(v@.skip(p as int), n as nat).unwrap();
                    if consumed < inner@.len() {
                        assert(v@[p + sl.1] == inner@[sl.1]);
                    }
                }
                Err(e)
            },
        }
    } else if crate::strutil::str_starts_with(v, "__EXCEPTION__:") {
        let message = substring(v, 14, len);
        proof {
            assert(message@ =~= v@.skip(14));
        }
        Ok(crate::InstructionResultValue::Exception(crate::ExceptionMessage::new(message)))
    } else {
        let text = substring(v, 0, len);
        proof {
            assert(text@ =~= v@);
        }
        Ok(crate::InstructionResultValue::Text(text))
    }
}

/// A successful element-sequence read of result values stays inside the
/// input.
proof fn lemma_classify_values_bounds(s: Seq<char>, n: nat)
    ensures
        match spec_classify_values(s, n) {
            Some(v) => 0 <= v.1 <= s.len(),
            None => true,
        },
    decreases n,
{
    if n > 0 {
        lemma_read_string_bounds(s);
        if spec_read_string(s) is Some {
            let (elem, p) = spec_read_string(s)->0;
            if elem.len() < s.len() && spec_classify_value(elem) is Some && 0 <= p < s.len()
                && s[p] == ':' {
                lemma_classify_values_bounds(s.skip(p + 1), (n - 1) as nat);
            }
        }
    }
}

/// Read `n` encoded result values, each followed by `:`, from the start of
/// `s`.
fn classify_values(s: &str, n: usize) -> (r: Result<
    (Vec<crate::InstructionResultValue>, usize),
    FromSlimReaderError,
>)
    ensures
        match spec_classify_values(s@, n as nat) {
            Some(v) => r is Ok && crate::spec_rv_list_view(r->Ok_0.0@) == v.0 && r->Ok_0.1 == v.1,
            None => r is Err,
        },
    decreases s@.len(), 0nat,
{
    let slen = s.unicode_len();
    let mut values: Vec<crate::InstructionResultValue> = Vec::new();
    let mut cur: usize = 0;
    let mut k: usize = 0;
    proof {
        crate::slim_serialize::lemma_rv_list_view_at(values@);
        assert(s@.skip(0) =~= s@);
    }
    while k < n
        invariant
            slen == s@.len(),
            cur <= s@.len(),
            k <= n,
            values.len() == k,
            match spec_classify_values(s@.skip(cur as int), (n - k) as nat) {
                Some(v) => spec_classify_values(s@, n as nat) == Some(
                    (crate::spec_rv_list_view(values@) + v.0, cur + v.1),
                ),
                None => spec_classify_values(s@, n as nat) is None,
            },
        decreases n - k,
    {
        let ghost pre = s@.skip(cur as int);
        let ghost rest_count = (n - k) as nat;
        proof {
            lemma_read_string_bounds(pre);
        }
        let (elem, p) = match read_string(s, cur) {
            Ok(v) => v,
            Err(e) => {
                proof {
                    assert(spec_classify_values(pre, rest_count) is None);
                }
                return Err(e);
            },
        };
        proof {
            let sp = spec_read_string(pre).unwrap();
            assert(elem@.len() <= pre.len() - 7);
            assert(elem@.len() < s@.len());
        }
        let value = match classify_value(elem.as_str()) {
            Ok(v) => v,
            Err(e) => {
                proof {
                    assert(spec_classify_values(pre, rest_count) is None);
                }
                return Err(e);
            },
        };
        let p2 = match read_expected_char(s, p, ':') {
            Ok(q) => q,
            Err(e) => {
                proof {
                    let sp = spec_read_string(pre).unwrap();
                    assert(pre[sp.1] == s@[p as int] || sp.1 == pre.len());
                    assert(spec_classify_values(pre, rest_count) is None);
                }
                return Err(e);
            },
        };
        proof {
            let sp = spec_read_string(pre).unwrap();
            assert(pre[sp.1] == ':');
            lemma_seq_skip_of_skip(s@, cur as int, sp.1 + 1);
            assert(pre.skip(sp.1 + 1) =~= s@.skip(p2 as int));
        }
        let ghost old_values = values@;
        values.push(value);
        proof {
            crate::slim_serialize::lemma_rv_list_view_at(values@);
            crate::slim_serialize::lemma_rv_list_view_at(old_values);
            assert(values@.drop_last() =~= old_values);
            assert(crate::spec_rv_list_view(values@) =~= crate::spec_rv_list_view(
                old_values,
            ).push(value@));
            let sp = spec_read_string(pre).unwrap();
            match spec_classify_values(s@.skip(p2 as int), (rest_count - 1) as nat) {
                Some(v) => {
                    assert(spec_classify_values(pre, rest_count) == Some(
                        (seq![value@] + v.0, sp.1 + 1 + v.1),
                    ));
                    assert(crate::spec_rv_list_view(old_values) + (seq![value@] + v.0)
                        =~= crate::spec_rv_list_view(values@) + v.0);
                },
                None => {
                    assert(spec_classify_values(pre, rest_count) is None);
                },
            }
        }
        cur = p2;
        k += 1;
    }
    proof {
        assert(spec_classify_values(s@.skip(cur as int), 0) == Some(
            (Seq::<crate::SpecInstructionResultValue>::empty(), 0int),
        ));
        assert(crate::spec_rv_list_view(values@) + Seq::<
            crate::SpecInstructionResultValue,
        >::empty() =~= crate::spec_rv_list_view(values@));
    }
    Ok((values, cur))
}

/// Read one result starting at `pos`.
pub fn read_instruction_result(s: &str, pos: usize) -> (r: Result<
    (crate::InstructionResult, usize),
    FromSlimReaderError,
>)
    requires
        pos <= s@.len(),
    ensures
        match spec_read_instruction_result(s@.skip(pos as int)) {
            Some(v) => r is Ok && r->Ok_0.0@ == v.0 && r->Ok_0.1 == pos + v.1,
            None => r is Err,
        },
{
    let (fields, p) = read_string_list(s, pos)?;
    let ghost all = fields.deep_view();
    if fields.len() != 2 {
        let mut m = String::new();
        m.append("Missing elements from array");
        return Err(FromSlimReaderError::Other(m));
    }
    let mut rest = fields;
    let first = rest.remove(0);
    let id = crate::Id::from(first.as_str());
    let value = rest.remove(0);
    proof {
        assert(id@ == all[0]);
        assert(value@ == all[1]);
    }
    let classified = match classify_value(value.as_str()) {
        Ok(v) => v,
        Err(e) => {
            return Err(e);
        },
    };
    let result = match classified {
        crate::InstructionResultValue::Okay => crate::InstructionResult::Okay { id },
        crate::InstructionResultValue::Void => crate::InstructionResult::Void { id },
        crate::InstructionResultValue::Text(t) => crate::InstructionResult::Text {
            id,
            value: t,
        },
        crate::InstructionResultValue::List(vs) => crate::InstructionResult::List {
            id,
            values: vs,
        },
        crate::InstructionResultValue::Exception(m) => crate::InstructionResult::Exception {
            id,
            message: m,
        },
    };
    Ok((result, p))
}

/// `n` results, each followed by a `:` separator.
pub open spec fn spec_read_results(s: Seq<char>, n: nat) -> Option<
    (Seq<crate::SpecInstructionResult>, int),
>
    decreases n,
{
    if n == 0 {
        Some((Seq::empty(), 0))
    } else {
        match spec_read_instruction_result(s) {
            None => None,
            Some((v, p)) => if 0 <= p < s.len() && s[p] == ':' {
                match spec_read_results(s.skip(p + 1), (n - 1) as nat) {
                    None => None,
                    Some((vs, q)) => Some((seq![v] + vs, p + 1 + q)),
                }
            } else {
                None
            },
        }
    }
}

/// A result batch: an outer length field, then `[`, a count, the results,
/// and `]`.
pub open spec fn spec_read_result_list(s: Seq<char>) -> Option<
    (Seq<crate::SpecInstructionResult>, int),
> {
    match spec_read_len(s) {
        None => None,
        Some((_outer, p)) => if p < s.len() && s[p] == '[' {
            match spec_read_len(s.skip(p + 1)) {
                None => None,
                Some((n, q)) => match spec_read_results(s.skip(p + 1 + q), n) {
                    None => None,
                    Some((vs, r)) => {
                        let end = p + 1 + q + r;
                        if end < s.len() && s[end] == ']' {
                            Some((vs, end + 1))
                        } else {
                            None
                        }
                    },
                },
            }
        } else {
            None
        },
    }
}

/// A successful result read stays inside the input.
pub proof fn lemma_read_instruction_result_bounds(s: Seq<char>)
    ensures
        match spec_read_instruction_result(s) {
            Some(v) => 0 <= v.1 <= s.len(),
            None => true,
        },
{
    lemma_read_len_bounds(s);
    if spec_read_len(s) is Some {
        let (_outer, p) = spec_read_len(s).unwrap();
        if p < s.len() && s[p] == '[' {
            lemma_read_len_bounds(s.skip(p + 1));
            if spec_read_len(s.skip(p + 1)) is Some {
                let (n, q) = spec_read_len(s.skip(p + 1)).unwrap();
                lemma_read_strings_bounds(s.skip(p + 1 + q), n);
            }
        }
    }
}

/// A successful element-sequence read of results stays inside the input.
pub proof fn lemma_read_results_bounds(s: Seq<char>, n: nat)
    ensures
        match spec_read_results(s, n) {
            Some(v) => 0 <= v.1 <= s.len(),
            None => true,
        },
    decreases n,
{
    if n > 0 {
        lemma_read_instruction_result_bounds(s);
        if spec_read_instruction_result(s) is Some {
            let (v, p) = spec_read_instruction_result(s)->0;
            if 0 <= p < s.len() && s[p] == ':' {
                lemma_read_results_bounds(s.skip(p + 1), (n - 1) as nat);
            }
        }
    }
}

/// Read `n` results, each followed by `:`, starting at `pos`.
fn read_results(s: &str, pos: usize, n: usize) -> (r: Result<
    (Vec<crate::InstructionResult>, usize),
    FromSlimReaderError,
>)
    requires
        pos <= s@.len(),
    ensures
        match spec_read_results(s@.skip(pos as int), n as nat) {
            Some(v) => r is Ok && r->Ok_0.0.deep_view() == v.0 && r->Ok_0.1 == pos + v.1,
            None => r is Err,
        },
{
    let slen = s.unicode_len();
    let mut values: Vec<crate::InstructionResult> = Vec::new();
    let mut cur: usize = pos;
    let mut k: usize = 0;
    while k < n
        invariant
            slen == s@.len(),
            pos <= cur <= s@.len(),
            k <= n,
            values.len() == k,
            match spec_read_results(s@.skip(cur as int), (n - k) as nat) {
                Some(v) => spec_read_results(s@.skip(pos as int), n as nat) == Some(
                    (values.deep_view() + v.0, cur - pos + v.1),
                ),
                None => spec_read_results(s@.skip(pos as int), n as nat) is None,
            },
        decreases n - k,
    {
        let ghost pre = s@.skip(cur as int);
        let ghost rest_count = (n - k) as nat;
        proof {
            lemma_read_instruction_result_bounds(pre);
        }
        let (value, p) = match read_instruction_result(s, cur) {
            Ok(v) => v,
            Err(e) => {
                proof {
                    assert(spec_read_results(pre, rest_count) is None);
                }
                return Err(e);
            },
        };
        let p2 = match read_expected_char(s, p, ':') {
            Ok(q) => q,
            Err(e) => {
                proof {
                    let sp = spec_read_instruction_result(pre).unwrap();
                    assert(pre[sp.1] == s@[p as int] || sp.1 == pre.len());
                    assert(spec_read_results(pre, rest_count) is None);
                }
                return Err(e);
            },
        };
        proof {
            let sp = spec_read_instruction_result(pre).unwrap();
            assert(pre[sp.1] == ':');
            lemma_seq_skip_of_skip(s@, cur as int, sp.1 + 1);
            assert(pre.skip(sp.1 + 1) =~= s@.skip(p2 as int));
        }
        let ghost old_values = values.deep_view();
        values.push(value);
        proof {
            assert(values.deep_view() =~= old_values.push(value@));
            let sp = spec_read_instruction_result(pre).unwrap();
            match spec_read_results(s@.skip(p2 as int), (rest_count - 1) as nat) {
                Some(v) => {
                    assert(spec_read_results(pre, rest_count) == Some(
                        (seq![value@] + v.0, sp.1 + 1 + v.1),
                    ));
                    assert(old_values + (seq![value@] + v.0) =~= values.deep_view() + v.0);
                },
                None => {
                    assert(spec_read_results(pre, rest_count) is None);
                },
            }
        }
        cur = p2;
        k += 1;
    }
    proof {
        assert(spec_read_results(s@.skip(cur as int), 0) == Some(
            (Seq::<crate::SpecInstructionResult>::empty(), 0int),
        ));
        assert(values.deep_view() + Seq::<crate::SpecInstructionResult>::empty()
            =~= values.deep_view());
    }
    Ok((values, cur))
}

/// Read one result batch starting at `pos`.
pub fn read_result_list(s: &str, pos: usize) -> (r: Result<
    (Vec<crate::InstructionResult>, usize),
    FromSlimReaderError,
>)
    requires
        pos <= s@.len(),
    ensures
        match spec_read_result_list(s@.skip(pos as int)) {
            Some(v) => r is Ok && r->Ok_0.0.deep_view() == v.0 && r->Ok_0.1 == pos + v.1,
            None => r is Err,
        },
{
    let slen = s.unicode_len();
    let ghost t = s@.skip(pos as int);
    proof {
        lemma_read_len_bounds(t);
    }
    let (_outer, p) = read_len(s, pos)?;
    let p1 = match read_expected_char(s, p, '[') {
        Ok(q) => q,
        Err(e) => {
            return Err(e);
        },
    };
    proof {
        assert(t[p - pos] == '[');
        lemma_seq_skip_of_skip(s@, pos as int, p + 1 - pos);
        assert(t.skip(p + 1 - pos) =~= s@.skip(p1 as int));
        lemma_read_len_bounds(s@.skip(p1 as int));
    }
    let (n, p2) = match read_len(s, p1) {
        Ok(v) => v,
        Err(e) => {
            return Err(e);
        },
    };
    proof {
        let q = spec_read_len(s@.skip(p1 as int)).unwrap().1;
        lemma_read_len_bounds(s@.skip(p1 as int));
        lemma_seq_skip_of_skip(s@, pos as int, (p - pos) + 1 + q);
        assert(t.skip((p - pos) + 1 + q) =~= s@.skip(p2 as int));
        lemma_read_results_bounds(s@.skip(p2 as int), n as nat);
    }
    let (values, p3) = match read_results(s, p2, n) {
        Ok(v) => v,
        Err(e) => {
            return Err(e);
        },
    };
    let p4 = match read_expected_char(s, p3, ']') {
        Ok(q) => q,
        Err(e) => {
            proof {
                let sl = spec_read_results(s@.skip(p2 as int), n as nat).unwrap();
                assert(p3 == p2 + sl.1);
            }
            return Err(e);
        },
    };
    proof {
        let sl = spec_read_results(s@.skip(p2 as int), n as nat).unwrap();
        assert(t[p3 - pos] == ']');
    }
    Ok((values, p4))
}

/// Decoding from received text at a cursor, for every value the protocol
/// carries.
pub trait FromSlimReader: View + Sized {
    /// The value's specification decoder.
    spec fn spec_read(s: Seq<char>) -> Option<(Self::V, int)>;

    /// Read one value starting at `pos`.
    fn from_reader(s: &str, pos: usize) -> (r: Result<(Self, usize), FromSlimReaderError>)
        requires
            pos <= s@.len(),
        ensures
            match Self::spec_read(s@.skip(pos as int)) {
                Some(v) => r is Ok && r->Ok_0.0@ == v.0 && r->Ok_0.1 == pos + v.1,
                None => r is Err,
            },
    ;
}

impl FromSlimReader for String {
    open spec fn spec_read(s: Seq<char>) -> Option<(Seq<char>, int)> {
        spec_read_string(s)
    }

    fn from_reader(s: &str, pos: usize) -> (r: Result<(String, usize), FromSlimReaderError>) {
        read_string(s, pos)
    }
}

impl FromSlimReader for crate::Instruction {
    open spec fn spec_read(s: Seq<char>) -> Option<(crate::SpecInstruction, int)> {
        spec_read_instruction(s)
    }

    fn from_reader(s: &str, pos: usize) -> (r: Result<
        (crate::Instruction, usize),
        FromSlimReaderError,
    >) {
        read_instruction(s, pos)
    }
}

impl FromSlimReader for crate::InstructionResult {
    open spec fn spec_read(s: Seq<char>) -> Option<(crate::SpecInstructionResult, int)> {
        spec_read_instruction_result(s)
    }

    fn from_reader(s: &str, pos: usize) -> (r: Result<
        (crate::InstructionResult, usize),
        FromSlimReaderError,
    >) {
        read_instruction_result(s, pos)
    }
}

impl FromSlimReader for crate::ByeOrSlimInstructions {
    open spec fn spec_read(s: Seq<char>) -> Option<(crate::SpecByeOrInstructions, int)> {
        spec_read_bye_or_instructions(s)
    }

    fn from_reader(s: &str, pos: usize) -> (r: Result<
        (crate::ByeOrSlimInstructions, usize),
        FromSlimReaderError,
    >) {
        read_bye_or_instructions(s, pos)
    }
}

} // verus!
