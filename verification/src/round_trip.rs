//! Round-trip laws of the wire codec: whatever is encoded is decoded back
//! unchanged, for scalars and for lists, with any trailing input left
//! untouched.

use vstd::prelude::*;
use vstd::seq_lib::lemma_seq_skip_of_skip;

use crate::decimal::{lemma_len_prefix_no_colon, lemma_len_prefix_props, spec_len_prefix};
use crate::slim_deserialize::{spec_read_instruction, spec_read_len, spec_read_string,
    spec_read_string_list, spec_read_strings};
use crate::slim_serialize::{spec_enc_elems, spec_enc_instruction, spec_enc_str,
    spec_enc_str_list, spec_instruction_fields, spec_list_payload};
use crate::strutil::{lemma_find_char_props, spec_find_char};
use crate::tokenizer::{TokenView, spec_parse_token, spec_parse_tokens};

verus! {

/// Every string in the batch is small enough to carry a machine-sized
/// length field.
pub open spec fn all_fit(vs: Seq<Seq<char>>) -> bool {
    forall|i: int| 0 <= i < vs.len() ==> #[trigger] vs[i].len() <= usize::MAX
}

/// A list whose wire form stays within machine-sized length fields.
pub open spec fn list_fits(vs: Seq<Seq<char>>) -> bool {
    &&& vs.len() <= usize::MAX
    &&& all_fit(vs)
    &&& spec_list_payload(vs).len() <= usize::MAX
}

/// If `c` first appears at index `k`, the scan finds exactly `k`.
proof fn lemma_find_char_is(s: Seq<char>, c: char, k: int)
    requires
        0 <= k < s.len(),
        s[k] == c,
        forall|j: int| 0 <= j < k ==> s[j] != c,
    ensures
        spec_find_char(s, c, 0) == Some(k),
{
    lemma_find_char_props(s, c, 0);
    match spec_find_char(s, c, 0) {
        Some(i) => {
            if i < k {
                assert(s[i] != c);
            } else if i > k {
                assert(s[k] != c);
            }
        },
        None => {
            assert(s[k] != c);
        },
    }
}

/// Reading a length field back from its encoding yields the encoded number.
pub proof fn lemma_read_len_round_trip(n: nat, rest: Seq<char>)
    requires
        n <= usize::MAX,
    ensures
        spec_read_len(spec_len_prefix(n) + seq![':'] + rest) == Some(
            (n, spec_len_prefix(n).len() as int + 1),
        ),
{
    let prefix = spec_len_prefix(n);
    let s = prefix + seq![':'] + rest;
    lemma_len_prefix_props(n);
    lemma_len_prefix_no_colon(n);
    assert(s[prefix.len() as int] == ':');
    assert forall|j: int| 0 <= j < prefix.len() implies s[j] != ':' by {
        assert(s[j] == prefix[j]);
    }
    lemma_find_char_is(s, ':', prefix.len() as int);
    assert(s.take(prefix.len() as int) =~= prefix);
}

/// Decoding the encoding of a scalar gives the scalar back and consumes
/// exactly the encoding, whatever follows it.
pub proof fn lemma_string_round_trip(v: Seq<char>, rest: Seq<char>)
    requires
        v.len() <= usize::MAX,
    ensures
        spec_read_string(spec_enc_str(v) + rest) == Some((v, spec_enc_str(v).len() as int)),
{
    let prefix = spec_len_prefix(v.len());
    let s = spec_enc_str(v) + rest;
    assert(s =~= prefix + seq![':'] + (v + rest));
    lemma_read_len_round_trip(v.len(), v + rest);
    let p = prefix.len() as int + 1;
    assert(spec_read_len(s) == Some((v.len(), p)));
    assert(s.subrange(p, p + v.len()) =~= v);
}

/// Decoding `n` encoded elements gives them back in order.
pub proof fn lemma_strings_round_trip(vs: Seq<Seq<char>>, rest: Seq<char>)
    requires
        all_fit(vs),
    ensures
        spec_read_strings(spec_enc_elems(vs) + rest, vs.len()) == Some(
            (vs, spec_enc_elems(vs).len() as int),
        ),
    decreases vs.len(),
{
    let s = spec_enc_elems(vs) + rest;
    if vs.len() == 0 {
        assert(spec_read_strings(s, 0) == Some((Seq::<Seq<char>>::empty(), 0int)));
        assert(vs =~= Seq::<Seq<char>>::empty());
    } else {
        let head = vs[0];
        let tail = vs.skip(1);
        let e0 = spec_enc_str(head);
        assert(spec_enc_elems(vs) == e0 + seq![':'] + spec_enc_elems(tail));
        assert(s =~= e0 + (seq![':'] + spec_enc_elems(tail) + rest));
        lemma_string_round_trip(head, seq![':'] + spec_enc_elems(tail) + rest);
        let p = e0.len() as int;
        assert(spec_read_string(s) == Some((head, p)));
        assert(s[p] == ':');
        assert(s.skip(p + 1) =~= spec_enc_elems(tail) + rest);
        assert(all_fit(tail)) by {
            assert(forall|i: int|
                0 <= i < tail.len() ==> tail[i] == vs[i + 1] && #[trigger] tail[i].len()
                    <= usize::MAX);
        }
        lemma_strings_round_trip(tail, rest);
        assert(spec_read_strings(s.skip(p + 1), (vs.len() - 1) as nat) == Some(
            (tail, spec_enc_elems(tail).len() as int),
        ));
        assert(seq![head] + tail =~= vs);
        assert(spec_read_strings(s, vs.len()) == Some(
            (vs, p + 1 + spec_enc_elems(tail).len()),
        ));
    }
}

/// Decoding the encoding of a list of strings gives the list back and
/// consumes exactly the encoding, whatever follows it.
pub proof fn lemma_string_list_round_trip(vs: Seq<Seq<char>>, rest: Seq<char>)
    requires
        list_fits(vs),
    ensures
        spec_read_string_list(spec_enc_str_list(vs) + rest) == Some(
            (vs, spec_enc_str_list(vs).len() as int),
        ),
{
    let payload = spec_list_payload(vs);
    let s = spec_enc_str_list(vs) + rest;
    let prefix = spec_len_prefix(payload.len());
    assert(s =~= prefix + seq![':'] + (payload + rest));
    lemma_read_len_round_trip(payload.len(), payload + rest);
    let p = prefix.len() as int + 1;
    assert(spec_read_len(s) == Some((payload.len(), p)));
    assert(s[p] == '[');
    let cprefix = spec_len_prefix(vs.len());
    assert(s.skip(p + 1) =~= cprefix + seq![':'] + (spec_enc_elems(vs) + seq![']'] + rest));
    lemma_read_len_round_trip(vs.len(), spec_enc_elems(vs) + seq![']'] + rest);
    let q = cprefix.len() as int + 1;
    assert(spec_read_len(s.skip(p + 1)) == Some((vs.len(), q)));
    lemma_seq_skip_of_skip(s, p + 1, q);
    assert(s.skip(p + 1 + q) =~= spec_enc_elems(vs) + (seq![']'] + rest));
    lemma_strings_round_trip(vs, seq![']'] + rest);
    let r = spec_enc_elems(vs).len() as int;
    assert(spec_read_strings(s.skip(p + 1 + q), vs.len()) == Some((vs, r)));
    let end = p + 1 + q + r;
    assert(s[end] == ']');
    assert(end + 1 == spec_enc_str_list(vs).len());
}

/// The size of one token, counting nested tokens.
pub open spec fn spec_tv_size(t: TokenView) -> nat
    decreases t,
{
    match t {
        TokenView::Text(_) => 1,
        TokenView::List(ts) => 1 + spec_tvs_size(ts),
    }
}

/// The combined size of a sequence of tokens.
pub open spec fn spec_tvs_size(ts: Seq<TokenView>) -> nat
    decreases ts,
{
    if ts.len() == 0 {
        0
    } else {
        spec_tv_size(ts[0]) + spec_tvs_size(ts.skip(1))
    }
}

/// The canonical wire form of a token.
pub open spec fn spec_token_enc(t: TokenView) -> Seq<char>
    decreases spec_tv_size(t), 1nat,
{
    match t {
        TokenView::Text(s) => spec_enc_str(s),
        TokenView::List(ts) => spec_enc_str(spec_token_list_payload(ts)),
    }
}

/// The bracketed payload of an encoded token list.
pub open spec fn spec_token_list_payload(ts: Seq<TokenView>) -> Seq<char>
    decreases spec_tvs_size(ts) + 1, 0nat,
{
    seq!['['] + spec_len_prefix(ts.len()) + seq![':'] + spec_token_encs_cat(ts) + seq![']']
}

/// The encoded elements of a token list, each followed by `:`.
pub open spec fn spec_token_encs_cat(ts: Seq<TokenView>) -> Seq<char>
    decreases spec_tvs_size(ts) + 1, 0nat, ts.len(),
{
    if ts.len() == 0 {
        Seq::empty()
    } else {
        spec_token_enc(ts[0]) + seq![':'] + spec_token_encs_cat(ts.skip(1))
    }
}

/// A token whose wire form stays within machine-sized length fields, and
/// whose scalars do not imitate a list by opening with a bracket.
pub open spec fn spec_token_fits(t: TokenView) -> bool
    decreases spec_tv_size(t), 1nat,
{
    match t {
        TokenView::Text(s) => s.len() <= usize::MAX && (s.len() == 0 || s[0] != '['),
        TokenView::List(ts) => ts.len() <= usize::MAX && spec_token_list_payload(ts).len()
            <= usize::MAX && spec_tokens_fit(ts),
    }
}

/// Every token of a sequence fits.
pub open spec fn spec_tokens_fit(ts: Seq<TokenView>) -> bool
    decreases spec_tvs_size(ts) + 1, 0nat, ts.len(),
{
    if ts.len() == 0 {
        true
    } else {
        spec_token_fits(ts[0]) && spec_tokens_fit(ts.skip(1))
    }
}

/// Decoding the encoding of a token gives the token back and consumes
/// exactly the encoding, whatever follows it: the round trip holds for
/// scalars and for arbitrarily nested lists, the empty list included.  An
/// empty scalar at the very end is only safe when what follows cannot be
/// mistaken for a list opening.
pub proof fn lemma_token_round_trip(t: TokenView, rest: Seq<char>)
    requires
        spec_token_fits(t),
        t matches TokenView::Text(s) && s.len() == 0 ==> rest.len() == 0 || rest[0] != '[',
    ensures
        spec_parse_token(spec_token_enc(t) + rest) == Some(
            (t, spec_token_enc(t).len() as int),
        ),
    decreases spec_tv_size(t), 1nat,
{
    match t {
        TokenView::Text(v) => {
            let prefix = spec_len_prefix(v.len());
            let s = spec_token_enc(t) + rest;
            assert(s =~= prefix + seq![':'] + (v + rest));
            lemma_len_prefix_props(v.len());
            lemma_len_prefix_no_colon(v.len());
            assert(s[prefix.len() as int] == ':');
            assert forall|j: int| 0 <= j < prefix.len() implies s[j] != ':' by {
                assert(s[j] == prefix[j]);
            }
            lemma_find_char_is(s, ':', prefix.len() as int);
            assert(s.take(prefix.len() as int) =~= prefix);
            let p = prefix.len() as int + 1;
            if v.len() > 0 {
                assert(s[p] == v[0]);
                assert(s[p] != '[');
            } else {
                if p < s.len() {
                    assert(s[p] == rest[0]);
                    assert(s[p] != '[');
                }
            }
            assert(s.subrange(p, p + v.len()) =~= v);
        },
        TokenView::List(ts) => {
            let payload = spec_token_list_payload(ts);
            let prefix = spec_len_prefix(payload.len());
            let s = spec_token_enc(t) + rest;
            assert(s =~= prefix + seq![':'] + (payload + rest));
            lemma_len_prefix_props(payload.len());
            lemma_len_prefix_no_colon(payload.len());
            assert(s[prefix.len() as int] == ':');
            assert forall|j: int| 0 <= j < prefix.len() implies s[j] != ':' by {
                assert(s[j] == prefix[j]);
            }
            lemma_find_char_is(s, ':', prefix.len() as int);
            assert(s.take(prefix.len() as int) =~= prefix);
            let p = prefix.len() as int + 1;
            let n = payload.len() as int;
            assert(s[p] == payload[0]);
            assert(payload[0] == '[');
            assert(n >= 1 && p + n <= s.len());
            let part = s.subrange(p + 1, p + n);
            let cprefix = spec_len_prefix(ts.len());
            assert(part =~= cprefix + seq![':'] + (spec_token_encs_cat(ts) + seq![']']));
            lemma_len_prefix_props(ts.len());
            lemma_len_prefix_no_colon(ts.len());
            assert(part[cprefix.len() as int] == ':');
            assert forall|j: int| 0 <= j < cprefix.len() implies part[j] != ':' by {
                assert(part[j] == cprefix[j]);
            }
            lemma_find_char_is(part, ':', cprefix.len() as int);
            assert(part.take(cprefix.len() as int) =~= cprefix);
            let j = cprefix.len() as int;
            assert(part.skip(j + 1) =~= spec_token_encs_cat(ts) + seq![']']);
            lemma_tokens_round_trip(ts, seq![']']);
            let q = spec_token_encs_cat(ts).len() as int;
            assert(spec_parse_tokens(part.skip(j + 1), ts.len()) == Some((ts, q)));
            assert(j + 1 + q < part.len() && part[j + 1 + q] == ']');
            assert(spec_token_enc(t).len() == p + n);
        },
    }
}

/// Decoding a run of encoded tokens gives them back in order.
pub proof fn lemma_tokens_round_trip(ts: Seq<TokenView>, rest: Seq<char>)
    requires
        spec_tokens_fit(ts),
    ensures
        spec_parse_tokens(spec_token_encs_cat(ts) + rest, ts.len()) == Some(
            (ts, spec_token_encs_cat(ts).len() as int),
        ),
    decreases spec_tvs_size(ts) + 1, 0nat, ts.len(),
{
    let s = spec_token_encs_cat(ts) + rest;
    if ts.len() == 0 {
        assert(spec_parse_tokens(s, 0) == Some((Seq::<TokenView>::empty(), 0int)));
        assert(ts =~= Seq::<TokenView>::empty());
    } else {
        let head = ts[0];
        let tail = ts.skip(1);
        let e0 = spec_token_enc(head);
        assert(spec_token_encs_cat(ts) == e0 + seq![':'] + spec_token_encs_cat(tail));
        assert(s =~= e0 + (seq![':'] + spec_token_encs_cat(tail) + rest));
        assert(spec_tv_size(head) <= spec_tvs_size(ts));
        lemma_token_round_trip(head, seq![':'] + spec_token_encs_cat(tail) + rest);
        let p = e0.len() as int;
        assert(spec_parse_token(s) == Some((head, p)));
        assert(s[p] == ':');
        assert(s.skip(p + 1) =~= spec_token_encs_cat(tail) + rest);
        lemma_tokens_round_trip(tail, rest);
        assert(spec_parse_tokens(s.skip(p + 1), (ts.len() - 1) as nat) == Some(
            (tail, spec_token_encs_cat(tail).len() as int),
        ));
        assert(seq![head] + tail =~= ts);
        assert(spec_parse_tokens(s, ts.len()) == Some(
            (ts, p + 1 + spec_token_encs_cat(tail).len()),
        ));
    }
}

/// An instruction whose wire fields stay within machine-sized length
/// fields.
pub open spec fn spec_instruction_fits(i: crate::SpecInstruction) -> bool {
    list_fits(spec_instruction_fields(i))
}

/// Decoding the encoding of an instruction gives the instruction back and
/// consumes exactly the encoding, whatever follows it.
pub proof fn lemma_instruction_round_trip(i: crate::SpecInstruction, rest: Seq<char>)
    requires
        spec_instruction_fits(i),
    ensures
        spec_read_instruction(spec_enc_instruction(i) + rest) == Some(
            (i, spec_enc_instruction(i).len() as int),
        ),
{
    let fields = spec_instruction_fields(i);
    let s = spec_enc_instruction(i) + rest;
    lemma_string_list_round_trip(fields, rest);
    assert(spec_read_string_list(s) == Some((fields, spec_enc_instruction(i).len() as int)));
    reveal_strlit("import");
    reveal_strlit("make");
    reveal_strlit("call");
    reveal_strlit("callAndAssign");
    reveal_strlit("assign");
    match i {
        crate::SpecInstruction::Import { id, path } => {
            assert(fields[0] == id && fields[1] == "import"@ && fields[2] == path);
        },
        crate::SpecInstruction::Make { id, instance, class, args } => {
            assert(fields[1] == "make"@);
            assert("make"@ != "import"@);
            assert(fields.skip(4) =~= args);
        },
        crate::SpecInstruction::Call { id, instance, function, args } => {
            assert(fields[1] == "call"@);
            assert("call"@[0] == 'c' && "make"@[0] == 'm');
            assert("call"@ != "import"@ && "call"@ != "make"@);
            assert(fields.skip(4) =~= args);
        },
        crate::SpecInstruction::CallAndAssign { id, symbol, instance, function, args } => {
            assert(fields[1] == "callAndAssign"@);
            assert("callAndAssign"@[0] == 'c' && "import"@[0] == 'i' && "make"@[0] == 'm');
            assert("callAndAssign"@ != "import"@ && "callAndAssign"@ != "make"@
                && "callAndAssign"@ != "call"@);
            assert(fields.skip(5) =~= args);
        },
        crate::SpecInstruction::Assign { id, symbol, value } => {
            assert(fields[1] == "assign"@);
            assert("assign"@[0] == 'a' && "import"@[0] == 'i' && "make"@[0] == 'm' && "call"@[0]
                == 'c');
            assert("assign"@ != "import"@ && "assign"@ != "make"@ && "assign"@ != "call"@
                && "assign"@ != "callAndAssign"@);
        },
    }
}

} // verus!
