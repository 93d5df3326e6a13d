//! Decimal digit strings: the length fields of the wire grammar are written
//! as base-10 digits, zero-padded on the left to at least six characters.

use vstd::prelude::*;

verus! {

pub open spec fn is_digit(c: char) -> bool {
    '0' <= c && c <= '9'
}

pub open spec fn all_digits(s: Seq<char>) -> bool {
    forall|i: int| 0 <= i < s.len() ==> is_digit(#[trigger] s[i])
}

pub open spec fn digit_val(c: char) -> nat {
    (c as u32 - 48) as nat
}

pub open spec fn spec_digit_char(d: nat) -> char {
    if d == 0 {
        '0'
    } else if d == 1 {
        '1'
    } else if d == 2 {
        '2'
    } else if d == 3 {
        '3'
    } else if d == 4 {
        '4'
    } else if d == 5 {
        '5'
    } else if d == 6 {
        '6'
    } else if d == 7 {
        '7'
    } else if d == 8 {
        '8'
    } else {
        '9'
    }
}

/// The decimal digits of `n`, most significant first, with no leading zeros
/// (a single zero for `n == 0`).
pub open spec fn spec_digits(n: nat) -> Seq<char>
    decreases n,
{
    if n < 10 {
        seq![spec_digit_char(n)]
    } else {
        spec_digits(n / 10).push(spec_digit_char(n % 10))
    }
}

pub open spec fn spec_zeros(k: nat) -> Seq<char>
    decreases k,
{
    if k == 0 {
        Seq::empty()
    } else {
        spec_zeros((k - 1) as nat).push('0')
    }
}

/// The digits of `n`, zero-padded on the left to at least six characters.
pub open spec fn spec_len_prefix(n: nat) -> Seq<char> {
    if spec_digits(n).len() >= 6 {
        spec_digits(n)
    } else {
        spec_zeros((6 - spec_digits(n).len()) as nat) + spec_digits(n)
    }
}

/// The numeric value of a digit string, most significant digit first.
pub open spec fn digits_val(s: Seq<char>) -> nat
    decreases s.len(),
{
    if s.len() == 0 {
        0
    } else {
        digits_val(s.drop_last()) * 10 + digit_val(s.last())
    }
}

pub proof fn lemma_digit_char_val(d: nat)
    requires
        d < 10,
    ensures
        is_digit(spec_digit_char(d)),
        digit_val(spec_digit_char(d)) == d,
{
}

pub proof fn lemma_digits_props(n: nat)
    ensures
        spec_digits(n).len() >= 1,
        all_digits(spec_digits(n)),
        digits_val(spec_digits(n)) == n,
    decreases n,
{
    if n < 10 {
        lemma_digit_char_val(n);
        assert(spec_digits(n) =~= seq![spec_digit_char(n)]);
        assert(spec_digits(n).drop_last() =~= Seq::<char>::empty());
        assert(spec_digits(n).last() == spec_digit_char(n));
        assert(digits_val(spec_digits(n)) == digits_val(Seq::<char>::empty()) * 10 + digit_val(
            spec_digit_char(n),
        ));
    } else {
        lemma_digits_props(n / 10);
        lemma_digit_char_val(n % 10);
        assert(spec_digits(n).drop_last() =~= spec_digits(n / 10));
        assert(digits_val(spec_digits(n)) == (n / 10) * 10 + n % 10);
        assert((n / 10) * 10 + n % 10 == n) by (nonlinear_arith);
    }
}

pub proof fn lemma_zeros_props(k: nat)
    ensures
        spec_zeros(k).len() == k,
        all_digits(spec_zeros(k)),
        forall|i: int| 0 <= i < k ==> spec_zeros(k)[i] == '0',
    decreases k,
{
    if k > 0 {
        lemma_zeros_props((k - 1) as nat);
    }
}

/// Leading zeros do not change the value of a digit string.
pub proof fn lemma_digits_val_leading_zeros(zs: Seq<char>, s: Seq<char>)
    requires
        forall|i: int| 0 <= i < zs.len() ==> zs[i] == '0',
    ensures
        digits_val(zs + s) == digits_val(s),
    decreases s.len(), zs.len(),
{
    if s.len() == 0 {
        if zs.len() == 0 {
            assert(zs + s =~= Seq::<char>::empty());
        } else {
            assert((zs + s).drop_last() =~= zs.drop_last());
            lemma_digits_val_leading_zeros(zs.drop_last(), s);
            assert(digits_val(zs.drop_last() + s) == 0);
            assert((zs + s).last() == '0');
        }
    } else {
        assert((zs + s).drop_last() =~= zs + s.drop_last());
        lemma_digits_val_leading_zeros(zs, s.drop_last());
        assert((zs + s).last() == s.last());
    }
}

pub proof fn lemma_len_prefix_props(n: nat)
    ensures
        spec_len_prefix(n).len() >= 6,
        all_digits(spec_len_prefix(n)),
        digits_val(spec_len_prefix(n)) == n,
{
    lemma_digits_props(n);
    if spec_digits(n).len() < 6 {
        lemma_zeros_props((6 - spec_digits(n).len()) as nat);
        lemma_digits_val_leading_zeros(
            spec_zeros((6 - spec_digits(n).len()) as nat),
            spec_digits(n),
        );
    }
}

/// A digit string never contains a separator or a structural token.
pub proof fn lemma_len_prefix_no_colon(n: nat)
    ensures
        forall|i: int|
            0 <= i < spec_len_prefix(n).len() ==> #[trigger] spec_len_prefix(n)[i] != ':',
{
    lemma_len_prefix_props(n);
    assert forall|i: int|
        0 <= i < spec_len_prefix(n).len() implies #[trigger] spec_len_prefix(n)[i] != ':' by {
        assert(is_digit(spec_len_prefix(n)[i]));
    }
}

fn digit_char(d: u8) -> (c: char)
    requires
        d < 10,
    ensures
        c == spec_digit_char(d as nat),
{
    match d {
        0 => '0',
        1 => '1',
        2 => '2',
        3 => '3',
        4 => '4',
        5 => '5',
        6 => '6',
        7 => '7',
        8 => '8',
        _ => '9',
    }
}

pub fn u64_digits(n: u64) -> (r: String)
    ensures
        r@ == spec_digits(n as nat),
    decreases n,
{
    if n < 10 {
        let mut s = String::new();
        crate::strutil::push_char(&mut s, digit_char(n as u8));
        proof {
            assert(s@ =~= spec_digits(n as nat));
        }
        s
    } else {
        let mut s = u64_digits(n / 10);
        crate::strutil::push_char(&mut s, digit_char((n % 10) as u8));
        s
    }
}

/// The length field for `n`: its decimal digits, zero-padded to six characters.
pub fn encode_len(n: u64) -> (r: String)
    ensures
        r@ == spec_len_prefix(n as nat),
{
    let digits = u64_digits(n);
    let dlen = digits.as_str().unicode_len();
    proof {
        lemma_digits_props(n as nat);
    }
    if dlen >= 6 {
        digits
    } else {
        let mut r = String::new();
        let mut k: usize = 0;
        let pad = 6 - dlen;
        while k < pad
            invariant
                k <= pad,
                pad == 6 - digits@.len(),
                digits@.len() < 6,
                r@ =~= spec_zeros(k as nat),
            decreases pad - k,
        {
            crate::strutil::push_char(&mut r, '0');
            k += 1;
        }
        r.append(digits.as_str());
        r
    }
}

/// Accumulating one more digit multiplies the value by ten.
pub proof fn lemma_digits_val_step(s: Seq<char>, i: int)
    requires
        0 <= i < s.len(),
    ensures
        digits_val(s.subrange(0, i + 1)) == digits_val(s.subrange(0, i)) * 10 + digit_val(s[i]),
{
    assert(s.subrange(0, i + 1).drop_last() =~= s.subrange(0, i));
    assert(s.subrange(0, i + 1).last() == s[i]);
}

/// Appending digits never decreases the value of a digit string.
pub proof fn lemma_digits_val_monotonic(s: Seq<char>, i: int, j: int)
    requires
        0 <= i <= j <= s.len(),
    ensures
        digits_val(s.subrange(0, i)) <= digits_val(s.subrange(0, j)),
    decreases j - i,
{
    if i < j {
        lemma_digits_val_step(s, j - 1);
        lemma_digits_val_monotonic(s, i, j - 1);
        assert(digits_val(s.subrange(0, j - 1)) <= digits_val(s.subrange(0, j - 1)) * 10) by (nonlinear_arith);
    }
}

/// Parse a digit string into a machine word.  The result is `Some` exactly
/// when the value fits in `usize`.
pub fn parse_digits(s: &str, from: usize, to: usize) -> (r: Option<usize>)
    requires
        from <= to <= s@.len(),
        all_digits(s@.subrange(from as int, to as int)),
    ensures
        match r {
            Some(v) => v == digits_val(s@.subrange(from as int, to as int)),
            None => digits_val(s@.subrange(from as int, to as int)) > usize::MAX,
        },
{
    let ghost digits = s@.subrange(from as int, to as int);
    let mut v: usize = 0;
    let mut i: usize = from;
    proof {
        assert(digits.subrange(0, 0) =~= Seq::<char>::empty());
    }
    while i < to
        invariant
            from <= i <= to <= s@.len(),
            digits == s@.subrange(from as int, to as int),
            all_digits(digits),
            v == digits_val(digits.subrange(0, i - from)),
        decreases to - i,
    {
        let c = s.get_char(i);
        proof {
            assert(c == digits[i - from]);
            assert(is_digit(c));
        }
        let d = (c as u32 - 48) as usize;
        let limit = usize::MAX;
        if v > (limit - d) / 10 {
            proof {
                let k = i - from;
                lemma_digits_val_step(digits, k);
                assert(digits_val(digits.subrange(0, k + 1)) == v * 10 + d);
                assert(v >= (limit - d) / 10 + 1);
                assert(((limit - d) / 10 + 1) * 10 >= limit - d + 1) by (nonlinear_arith)
                    requires
                        0 <= d <= limit,
                ;
                assert(v * 10 >= ((limit - d) / 10 + 1) * 10) by (nonlinear_arith)
                    requires
                        v >= (limit - d) / 10 + 1,
                ;
                assert(v * 10 + d > limit);
                lemma_digits_val_monotonic(digits, k + 1, digits.len() as int);
                assert(digits.subrange(0, digits.len() as int) =~= digits);
            }
            return None;
        }
        proof {
            let k = i - from;
            lemma_digits_val_step(digits, k);
            assert(v <= (limit - d) / 10);
            assert(v * 10 <= ((limit - d) / 10) * 10) by (nonlinear_arith)
                requires
                    v <= (limit - d) / 10,
            ;
            assert(((limit - d) / 10) * 10 <= limit - d) by (nonlinear_arith)
                requires
                    0 <= d <= limit,
            ;
        }
        v = v * 10 + d;
        i += 1;
    }
    proof {
        assert(digits.subrange(0, to - from) =~= digits);
    }
    Some(v)
}

} // verus!
