//! Casing conversions and class-path helpers.
//!
//! The SLIM wire format carries method names in lowerCamelCase while fixture
//! code uses snake_case, and module paths become dot-separated PascalCase
//! class paths.  The casing transforms themselves come from the
//! `convert_case` crate; each is a pure function of its input characters, so
//! each gets a name that contracts can speak of.

use convert_case::Casing;
use vstd::prelude::*;

use crate::strutil::{find_sub, lemma_find_sub_props, substring};

verus! {

/// The snake_case form of a string, as convert_case computes it.
pub uninterp spec fn spec_snake_case(s: Seq<char>) -> Seq<char>;

/// The PascalCase form of a string, as convert_case computes it.
pub uninterp spec fn spec_pascal_case(s: Seq<char>) -> Seq<char>;

/// Relies on convert_case's `Casing::to_case` with `Case::Snake`: the result
/// depends on the input characters alone.
#[verifier::external_body]
pub fn to_snake_case(s: &str) -> (r: String)
    ensures
        r@ == spec_snake_case(s@),
{
    s.to_case(convert_case::Case::Snake)
}

/// Relies on convert_case's `Casing::to_case` with `Case::Pascal`: the result
/// depends on the input characters alone.
#[verifier::external_body]
pub fn to_pascal_case(s: &str) -> (r: String)
    ensures
        r@ == spec_pascal_case(s@),
{
    s.to_case(convert_case::Case::Pascal)
}

/// The pieces of `s` between occurrences of `sep`, in order.
pub open spec fn spec_split(s: Seq<char>, sep: Seq<char>) -> Seq<Seq<char>>
    decreases s.len(),
{
    if sep.len() == 0 {
        seq![s]
    } else {
        match crate::strutil::spec_find_sub(s, sep, 0) {
            None => seq![s],
            Some(i) => if 0 <= i && i + sep.len() <= s.len() {
                seq![s.take(i)] + spec_split(s.skip(i + sep.len()), sep)
            } else {
                seq![s]
            },
        }
    }
}

/// The elements of `parts` with `sep` between each pair.
pub open spec fn spec_join(parts: Seq<Seq<char>>, sep: Seq<char>) -> Seq<char>
    decreases parts.len(),
{
    if parts.len() == 0 {
        Seq::empty()
    } else if parts.len() == 1 {
        parts[0]
    } else {
        parts[0] + sep + spec_join(parts.skip(1), sep)
    }
}

/// Concatenate strings with a separator between each pair.
pub fn join(parts: &Vec<String>, separator: &str) -> (r: String)
    ensures
        r@ == spec_join(parts.deep_view(), separator@),
{
    let mut result = String::new();
    let n = parts.len();
    if n == 0 {
        return result;
    }
    result.append(parts[0].as_str());
    proof {
        assert(result@ =~= spec_join(parts.deep_view().take(1), separator@));
    }
    let mut i: usize = 1;
    while i < n
        invariant
            1 <= i <= n,
            n == parts.deep_view().len(),
            n == parts@.len(),
            result@ == spec_join(parts.deep_view().take(i as int), separator@),
        decreases n - i,
    {
        result.append(separator);
        result.append(parts[i].as_str());
        proof {
            let vs = parts.deep_view();
            lemma_join_snoc(vs.take(i as int), vs[i as int], separator@);
            assert(vs.take(i + 1) =~= vs.take(i as int).push(vs[i as int]));
            assert(parts@[i as int]@ == vs[i as int]);
            assert(result@ =~= spec_join(vs.take(i + 1), separator@));
        }
        i += 1;
    }
    proof {
        assert(parts.deep_view().take(n as int) =~= parts.deep_view());
    }
    result
}

/// Joining one more part appends one separator and the part.
proof fn lemma_join_snoc(parts: Seq<Seq<char>>, part: Seq<char>, sep: Seq<char>)
    requires
        parts.len() >= 1,
    ensures
        spec_join(parts.push(part), sep) == spec_join(parts, sep) + sep + part,
    decreases parts.len(),
{
    if parts.len() == 1 {
        assert(parts.push(part)[0] == parts[0]);
        assert(parts.push(part).skip(1) =~= seq![part]);
        assert(spec_join(parts.push(part), sep) == parts[0] + sep + spec_join(seq![part], sep));
        assert(spec_join(parts.push(part), sep) =~= spec_join(parts, sep) + sep + part);
    } else {
        assert(parts.push(part)[0] == parts[0]);
        assert(parts.push(part).skip(1) =~= parts.skip(1).push(part));
        lemma_join_snoc(parts.skip(1), part, sep);
        assert(spec_join(parts.push(part), sep) == parts[0] + sep + (spec_join(parts.skip(1), sep)
            + sep + part));
        assert(parts[0] + sep + (spec_join(parts.skip(1), sep) + sep + part) =~= spec_join(
            parts,
            sep,
        ) + sep + part);
    }
}

/// Split a string at every occurrence of a separator.
pub fn split(s: &str, separator: &str) -> (r: Vec<String>)
    requires
        separator@.len() >= 1,
    ensures
        r.deep_view() == spec_split(s@, separator@),
{
    let mut rest = substring(s, 0, s.unicode_len());
    let mut out: Vec<String> = Vec::new();
    let ghost whole = s@;
    proof {
        assert(rest@ == whole);
        assert(out.deep_view() =~= Seq::<Seq<char>>::empty());
    }
    loop
        invariant
            separator@.len() >= 1,
            whole == s@,
            out.deep_view() + spec_split(rest@, separator@) =~= spec_split(whole, separator@),
        decreases rest@.len(),
    {
        proof {
            lemma_find_sub_props(rest@, separator@, 0);
        }
        let ghost pre = rest@;
        let ghost pre_out = out.deep_view();
        match find_sub(rest.as_str(), separator) {
            None => {
                out.push(rest);
                proof {
                    assert(out.deep_view() =~= pre_out.push(pre));
                    assert(spec_split(pre, separator@) =~= seq![pre]);
                    assert(pre_out.push(pre) =~= pre_out + seq![pre]);
                    assert(out.deep_view() == pre_out + spec_split(pre, separator@));
                    assert(out.deep_view() == spec_split(whole, separator@));
                }
                return out;
            },
            Some(i) => {
                let piece = substring(rest.as_str(), 0, i);
                let len = rest.as_str().unicode_len();
                let next = substring(rest.as_str(), i + separator.unicode_len(), len);
                out.push(piece);
                rest = next;
                proof {
                    assert(piece@ =~= pre.take(i as int));
                    assert(rest@ =~= pre.skip(i + separator@.len()));
                    assert(out.deep_view() =~= pre_out.push(pre.take(i as int)));
                    assert(pre_out.push(pre.take(i as int)) + spec_split(rest@, separator@)
                        =~= pre_out + (seq![pre.take(i as int)] + spec_split(rest@, separator@)));
                }
            },
        }
    }
}

/// Turn a Rust module path such as `examples::calculator` into the
/// dot-separated PascalCase class path fixtures are registered under.
pub fn from_rust_module_path_to_class_path(rust_module_path: &str) -> (r: String)
    ensures
        r@ == spec_join(
            spec_split(rust_module_path@, "::"@).map_values(|p: Seq<char>| spec_pascal_case(p)),
            "."@,
        ),
{
    proof {
        reveal_strlit("::");
    }
    let parts = split(rust_module_path, "::");
    let mut converted: Vec<String> = Vec::new();
    let n = parts.len();
    let mut i: usize = 0;
    while i < n
        invariant
            i <= n,
            n == parts@.len(),
            n == parts.deep_view().len(),
            converted.deep_view() =~= parts.deep_view().take(i as int).map_values(
                |p: Seq<char>| spec_pascal_case(p),
            ),
        decreases n - i,
    {
        let ghost pre_conv = converted.deep_view();
        converted.push(to_pascal_case(parts[i].as_str()));
        proof {
            let vs = parts.deep_view();
            assert(vs.take(i + 1) =~= vs.take(i as int).push(vs[i as int]));
            assert(parts@[i as int]@ == vs[i as int]);
            assert(converted.deep_view() =~= pre_conv.push(spec_pascal_case(vs[i as int])));
            assert(vs.take(i as int).push(vs[i as int]).map_values(
                |p: Seq<char>| spec_pascal_case(p),
            ) =~= pre_conv.push(spec_pascal_case(vs[i as int])));
            assert(converted.deep_view() =~= vs.take(i + 1).map_values(
                |p: Seq<char>| spec_pascal_case(p),
            ));
        }
        i += 1;
    }
    proof {
        assert(parts.deep_view().take(n as int) =~= parts.deep_view());
    }
    let mut dot = String::new();
    dot.append(".");
    proof {
        assert(dot@ =~= "."@);
    }
    join(&converted, dot.as_str())
}

} // verus!
