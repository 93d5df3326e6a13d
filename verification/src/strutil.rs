//! Small executable helpers over `String` and `&str`, proved against their
//! `Seq<char>` views.

use vstd::prelude::*;

verus! {

/// Relies on String::push: appends the given character to the end of the string.
#[verifier::external_body]
pub fn push_char(s: &mut String, c: char)
    ensures
        final(s)@ == old(s)@.push(c),
{
    s.push(c);
}

/// Character-by-character equality of two string slices.
pub fn str_eq_str(a: &str, b: &str) -> (r: bool)
    ensures
        r == (a@ == b@),
{
    let la = a.unicode_len();
    let lb = b.unicode_len();
    if la != lb {
        return false;
    }
    let mut i: usize = 0;
    while i < la
        invariant
            la == a@.len(),
            la == b@.len(),
            i <= la,
            forall|j: int| 0 <= j < i ==> a@[j] == b@[j],
        decreases la - i,
    {
        if a.get_char(i) != b.get_char(i) {
            return false;
        }
        i += 1;
    }
    proof {
        assert(a@ =~= b@);
    }
    true
}

/// Whether `s` begins with `prefix`, as sequences of characters.
pub fn str_starts_with(s: &str, prefix: &str) -> (r: bool)
    ensures
        r == (prefix@.is_prefix_of(s@)),
{
    let ls = s.unicode_len();
    let lp = prefix.unicode_len();
    if lp > ls {
        return false;
    }
    let mut i: usize = 0;
    while i < lp
        invariant
            ls == s@.len(),
            lp == prefix@.len(),
            lp <= ls,
            i <= lp,
            forall|j: int| 0 <= j < i ==> s@[j] == prefix@[j],
        decreases lp - i,
    {
        if s.get_char(i) != prefix.get_char(i) {
            return false;
        }
        i += 1;
    }
    proof {
        assert(prefix@ =~= s@.subrange(0, lp as int));
    }
    true
}

/// First occurrence of `c` in `s` at an index of at least `from`.
pub open spec fn spec_find_char(s: Seq<char>, c: char, from: int) -> Option<int>
    decreases s.len() - from,
{
    if from < 0 || from >= s.len() {
        None
    } else if s[from] == c {
        Some(from)
    } else {
        spec_find_char(s, c, from + 1)
    }
}

pub proof fn lemma_find_char_props(s: Seq<char>, c: char, from: int)
    requires
        0 <= from <= s.len(),
    ensures
        match spec_find_char(s, c, from) {
            Some(i) => from <= i < s.len() && s[i] == c && forall|j: int|
                from <= j < i ==> s[j] != c,
            None => forall|j: int| from <= j < s.len() ==> s[j] != c,
        },
    decreases s.len() - from,
{
    if from < s.len() && s[from] != c {
        lemma_find_char_props(s, c, from + 1);
    }
}

/// Finding a character is not affected by anything before `from`.
pub proof fn lemma_find_char_skip(s: Seq<char>, c: char, from: int)
    requires
        0 <= from <= s.len(),
    ensures
        match spec_find_char(s.skip(from), c, 0) {
            Some(i) => spec_find_char(s, c, from) == Some(i + from),
            None => spec_find_char(s, c, from) is None,
        },
{
    lemma_find_char_props(s, c, from);
    lemma_find_char_props(s.skip(from), c, 0);
    match spec_find_char(s.skip(from), c, 0) {
        Some(i) => {
            assert(s[i + from] == c);
            match spec_find_char(s, c, from) {
                Some(k) => {
                    assert(s.skip(from)[k - from] == c);
                },
                None => {
                    assert(s[i + from] != c);
                },
            }
        },
        None => {
            match spec_find_char(s, c, from) {
                Some(k) => {
                    assert(s.skip(from)[k - from] == c);
                },
                None => {},
            }
        },
    }
}

/// Scan for a character starting at `from`.
pub fn find_char(s: &str, c: char, from: usize) -> (r: Option<usize>)
    requires
        from <= s@.len(),
    ensures
        match spec_find_char(s@, c, from as int) {
            Some(i) => r == Some(i as usize),
            None => r is None,
        },
{
    let len = s.unicode_len();
    let mut i: usize = from;
    while i < len
        invariant
            from <= i <= len,
            len == s@.len(),
            spec_find_char(s@, c, from as int) == spec_find_char(s@, c, i as int),
        decreases len - i,
    {
        if s.get_char(i) == c {
            return Some(i);
        }
        i += 1;
    }
    None
}

/// Copy of the characters of `s` from `from` (inclusive) to `to` (exclusive).
pub fn substring(s: &str, from: usize, to: usize) -> (r: String)
    requires
        from <= to <= s@.len(),
    ensures
        r@ == s@.subrange(from as int, to as int),
{
    let sub = s.substring_char(from, to);
    let mut r = String::new();
    r.append(sub);
    r
}

/// Whether `pat` occurs in `s` starting at index `at`.
pub open spec fn spec_match_at(s: Seq<char>, pat: Seq<char>, at: int) -> bool {
    0 <= at && at + pat.len() <= s.len() && s.subrange(at, at + pat.len()) == pat
}

/// First index at which `pat` occurs in `s`, at `from` or later.
pub open spec fn spec_find_sub(s: Seq<char>, pat: Seq<char>, from: int) -> Option<int>
    decreases s.len() - from,
{
    if from < 0 || pat.len() == 0 || from + pat.len() > s.len() {
        None
    } else if spec_match_at(s, pat, from) {
        Some(from)
    } else {
        spec_find_sub(s, pat, from + 1)
    }
}

pub proof fn lemma_find_sub_props(s: Seq<char>, pat: Seq<char>, from: int)
    requires
        0 <= from,
        1 <= pat.len(),
    ensures
        match spec_find_sub(s, pat, from) {
            Some(i) => from <= i && spec_match_at(s, pat, i) && forall|j: int|
                from <= j < i ==> !spec_match_at(s, pat, j),
            None => forall|j: int| from <= j ==> !spec_match_at(s, pat, j),
        },
    decreases s.len() - from,
{
    if from + pat.len() > s.len() {
        assert forall|j: int| from <= j implies !spec_match_at(s, pat, j) by {}
    } else if !spec_match_at(s, pat, from) {
        lemma_find_sub_props(s, pat, from + 1);
    }
}

/// Scan for the first occurrence of `pat` in `s`.
pub fn find_sub(s: &str, pat: &str) -> (r: Option<usize>)
    requires
        1 <= pat@.len(),
    ensures
        match spec_find_sub(s@, pat@, 0) {
            Some(i) => r == Some(i as usize),
            None => r is None,
        },
{
    let len = s.unicode_len();
    let plen = pat.unicode_len();
    if plen > len {
        return None;
    }
    let mut i: usize = 0;
    while i <= len - plen
        invariant
            0 <= i <= len - plen + 1,
            1 <= plen <= len,
            len == s@.len(),
            plen == pat@.len(),
            spec_find_sub(s@, pat@, 0) == spec_find_sub(s@, pat@, i as int),
        decreases len - i,
    {
        let piece = s.substring_char(i, i + plen);
        if str_eq_str(piece, pat) {
            return Some(i);
        }
        proof {
            assert(!spec_match_at(s@, pat@, i as int));
        }
        i += 1;
    }
    None
}

} // verus!
