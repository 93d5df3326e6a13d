//! Writing values into their wire form.
//!
//! Every value travels as `length ":" payload`, where the length is the
//! number of characters of the payload written as at least six decimal
//! digits.  A list's payload is `[` count `:` element `:` ... `]`, where each
//! element is itself a complete length-prefixed value.

use vstd::prelude::*;

use crate::decimal::encode_len;
use crate::decimal::spec_len_prefix;
use crate::strutil::push_char;

verus! {

/// The wire form of a scalar.
pub open spec fn spec_enc_str(s: Seq<char>) -> Seq<char> {
    spec_len_prefix(s.len()) + seq![':'] + s
}

/// The wire forms of the elements of a list, each followed by `:`.
pub open spec fn spec_enc_elems(vs: Seq<Seq<char>>) -> Seq<char>
    decreases vs.len(),
{
    if vs.len() == 0 {
        Seq::empty()
    } else {
        spec_enc_str(vs[0]) + seq![':'] + spec_enc_elems(vs.skip(1))
    }
}

/// The bracketed, count-prefixed payload of a list.
pub open spec fn spec_list_payload(vs: Seq<Seq<char>>) -> Seq<char> {
    seq!['['] + spec_len_prefix(vs.len()) + seq![':'] + spec_enc_elems(vs) + seq![']']
}

/// The wire form of a list of scalars: its payload, itself length-prefixed.
pub open spec fn spec_enc_str_list(vs: Seq<Seq<char>>) -> Seq<char> {
    spec_enc_str(spec_list_payload(vs))
}

/// A value in its wire form.
#[derive(Debug)]
pub struct SlimString(pub String);

impl View for SlimString {
    type V = Seq<char>;

    open spec fn view(&self) -> Seq<char> {
        self.0@
    }
}

impl SlimString {
    /// The encoded bytes, ready to be written to a transport.
    pub fn as_bytes(&self) -> (r: &[u8])
        ensures
            r@ == vstd::utf8::encode_utf8(self@),
    {
        self.0.as_str().as_bytes()
    }

    /// The encoded text.
    pub fn as_str(&self) -> (r: &str)
        ensures
            r@ == self@,
    {
        self.0.as_str()
    }
}

impl PartialEq for SlimString {
    fn eq(&self, other: &SlimString) -> (r: bool) {
        crate::strutil::str_eq_str(self.0.as_str(), other.0.as_str())
    }
}

impl Eq for SlimString {

}

impl vstd::std_specs::cmp::PartialEqSpecImpl for SlimString {
    open spec fn obeys_eq_spec() -> bool {
        true
    }

    open spec fn eq_spec(&self, other: &SlimString) -> bool {
        self.0@ == other.0@
    }
}

/// Conversion into the self-delimiting wire form.
pub trait ToSlimString {
    /// The wire form, as a sequence of characters.
    spec fn spec_slim(&self) -> Seq<char>;

    /// Encode the value.
    fn to_slim_string(&self) -> (r: SlimString)
        ensures
            r@ == self.spec_slim(),
    ;
}

/// Encode one scalar.
pub fn enc_str(s: &str) -> (r: String)
    ensures
        r@ == spec_enc_str(s@),
{
    let len = s.unicode_len();
    let mut out = encode_len(len as u64);
    push_char(&mut out, ':');
    out.append(s);
    proof {
        assert(out@ =~= spec_enc_str(s@));
    }
    out
}

/// Extending a list extends its encoded elements on the right.
pub proof fn lemma_enc_elems_snoc(vs: Seq<Seq<char>>, v: Seq<char>)
    ensures
        spec_enc_elems(vs.push(v)) == spec_enc_elems(vs) + spec_enc_str(v) + seq![':'],
    decreases vs.len(),
{
    if vs.len() == 0 {
        assert(vs.push(v)[0] == v);
        assert(vs.push(v).skip(1) =~= Seq::<Seq<char>>::empty());
        assert(spec_enc_elems(vs.push(v)) == spec_enc_str(v) + seq![':'] + spec_enc_elems(
            vs.push(v).skip(1),
        ));
        assert(spec_enc_elems(vs.push(v).skip(1)) == Seq::<char>::empty());
        assert(spec_enc_elems(vs) == Seq::<char>::empty());
        assert(spec_enc_elems(vs.push(v)) =~= spec_enc_elems(vs) + spec_enc_str(v) + seq![':']);
    } else {
        assert(vs.push(v).skip(1) =~= vs.skip(1).push(v));
        assert(vs.push(v)[0] == vs[0]);
        lemma_enc_elems_snoc(vs.skip(1), v);
        assert(spec_enc_elems(vs.push(v)) == spec_enc_str(vs[0]) + seq![':'] + (spec_enc_elems(
            vs.skip(1),
        ) + spec_enc_str(v) + seq![':']));
        assert(spec_enc_str(vs[0]) + seq![':'] + (spec_enc_elems(vs.skip(1)) + spec_enc_str(v)
            + seq![':']) =~= spec_enc_elems(vs) + spec_enc_str(v) + seq![':']);
    }
}

/// Encode a borrowed slice of scalars as a list.
pub fn slice_to_slim_string(values: &[String]) -> (r: SlimString)
    ensures
        r@ == spec_enc_str_list(values.deep_view()),
{
    let count = values.len();
    let mut payload = String::new();
    push_char(&mut payload, '[');
    let count_digits = encode_len(count as u64);
    payload.append(count_digits.as_str());
    push_char(&mut payload, ':');
    proof {
        assert(values.deep_view().len() == count);
        assert(payload@ =~= seq!['['] + spec_len_prefix(count as nat) + seq![':']
            + spec_enc_elems(values.deep_view().take(0)));
        assert(values.deep_view().take(0) =~= Seq::<Seq<char>>::empty());
    }
    let mut i: usize = 0;
    while i < count
        invariant
            i <= count,
            count == values.deep_view().len(),
            count == values@.len(),
            payload@ == seq!['['] + spec_len_prefix(count as nat) + seq![':'] + spec_enc_elems(
                values.deep_view().take(i as int),
            ),
        decreases count - i,
    {
        let element = enc_str(values[i].as_str());
        payload.append(element.as_str());
        push_char(&mut payload, ':');
        proof {
            let vs = values.deep_view();
            assert(vs.take(i + 1) =~= vs.take(i as int).push(vs[i as int]));
            lemma_enc_elems_snoc(vs.take(i as int), vs[i as int]);
            assert(values@[i as int]@ == vs[i as int]);
            assert(payload@ =~= seq!['['] + spec_len_prefix(count as nat) + seq![':']
                + spec_enc_elems(vs.take(i + 1)));
        }
        i += 1;
    }
    proof {
        assert(values.deep_view().take(count as int) =~= values.deep_view());
    }
    push_char(&mut payload, ']');
    proof {
        assert(payload@ =~= spec_list_payload(values.deep_view()));
    }
    let out = enc_str(payload.as_str());
    SlimString(out)
}

impl ToSlimString for str {
    open spec fn spec_slim(&self) -> Seq<char> {
        spec_enc_str(self@)
    }

    fn to_slim_string(&self) -> (r: SlimString) {
        SlimString(enc_str(self))
    }
}

impl ToSlimString for String {
    open spec fn spec_slim(&self) -> Seq<char> {
        spec_enc_str(self@)
    }

    fn to_slim_string(&self) -> (r: SlimString) {
        SlimString(enc_str(self.as_str()))
    }
}

impl ToSlimString for Vec<String> {
    open spec fn spec_slim(&self) -> Seq<char> {
        spec_enc_str_list(self.deep_view())
    }

    fn to_slim_string(&self) -> (r: SlimString) {
        slice_to_slim_string(self.as_slice())
    }
}

/// The complete encodings of the elements of a list, each followed by `:`.
pub open spec fn spec_cat_encs(encs: Seq<Seq<char>>) -> Seq<char>
    decreases encs.len(),
{
    if encs.len() == 0 {
        Seq::empty()
    } else {
        encs[0] + seq![':'] + spec_cat_encs(encs.skip(1))
    }
}

/// A frame holding already-encoded elements: the bracketed, count-prefixed
/// concatenation, itself length-prefixed.
pub open spec fn spec_enc_frame(encs: Seq<Seq<char>>) -> Seq<char> {
    spec_enc_str(seq!['['] + spec_len_prefix(encs.len()) + seq![':'] + spec_cat_encs(encs) + seq![']'])
}

/// Extending a list of encodings extends their concatenation on the right.
pub proof fn lemma_cat_encs_snoc(encs: Seq<Seq<char>>, e: Seq<char>)
    ensures
        spec_cat_encs(encs.push(e)) == spec_cat_encs(encs) + e + seq![':'],
    decreases encs.len(),
{
    if encs.len() == 0 {
        assert(encs.push(e)[0] == e);
        assert(encs.push(e).skip(1) =~= Seq::<Seq<char>>::empty());
        assert(spec_cat_encs(encs.push(e)) == e + seq![':'] + spec_cat_encs(encs.push(e).skip(1)));
        assert(spec_cat_encs(encs.push(e).skip(1)) == Seq::<char>::empty());
        assert(spec_cat_encs(encs) == Seq::<char>::empty());
        assert(spec_cat_encs(encs.push(e)) =~= spec_cat_encs(encs) + e + seq![':']);
    } else {
        assert(encs.push(e).skip(1) =~= encs.skip(1).push(e));
        assert(encs.push(e)[0] == encs[0]);
        lemma_cat_encs_snoc(encs.skip(1), e);
        assert(spec_cat_encs(encs.push(e)) == encs[0] + seq![':'] + (spec_cat_encs(encs.skip(1))
            + e + seq![':']));
        assert(encs[0] + seq![':'] + (spec_cat_encs(encs.skip(1)) + e + seq![':'])
            =~= spec_cat_encs(encs) + e + seq![':']);
    }
}

/// The wire fields of one instruction: its token, its operation word, and
/// the operation's operands, with the call arguments at the end.
pub open spec fn spec_instruction_fields(i: crate::SpecInstruction) -> Seq<Seq<char>> {
    match i {
        crate::SpecInstruction::Import { id, path } => seq![id, "import"@, path],
        crate::SpecInstruction::Make { id, instance, class, args } => seq![id, "make"@, instance, class] + args,
        crate::SpecInstruction::Call { id, instance, function, args } => seq![id, "call"@, instance, function] + args,
        crate::SpecInstruction::CallAndAssign { id, symbol, instance, function, args } => seq![id, "callAndAssign"@, symbol, instance, function] + args,
        crate::SpecInstruction::Assign { id, symbol, value } => seq![id, "assign"@, symbol, value],
    }
}

/// The wire form of one instruction: its fields as a list of scalars.
pub open spec fn spec_enc_instruction(i: crate::SpecInstruction) -> Seq<char> {
    spec_enc_str_list(spec_instruction_fields(i))
}

/// The wire form of an instruction batch.
pub open spec fn spec_enc_instruction_list(is: Seq<crate::SpecInstruction>) -> Seq<char> {
    spec_enc_frame(is.map_values(|i: crate::SpecInstruction| spec_enc_instruction(i)))
}

/// Copy the call arguments onto the end of a field list.
fn push_args(fields: &mut Vec<String>, args: &Vec<String>)
    ensures
        final(fields).deep_view() == old(fields).deep_view() + args.deep_view(),
{
    let ghost base = fields.deep_view();
    let n = args.len();
    let mut i: usize = 0;
    proof {
        assert(base + args.deep_view().take(0) =~= base);
    }
    while i < n
        invariant
            i <= n,
            n == args@.len(),
            n == args.deep_view().len(),
            fields.deep_view() =~= base + args.deep_view().take(i as int),
        decreases n - i,
    {
        let ghost pre = fields.deep_view();
        fields.push(args[i].clone());
        proof {
            assert(fields.deep_view() =~= pre.push(args.deep_view()[i as int]));
            assert(args.deep_view().take(i + 1) =~= args.deep_view().take(i as int).push(
                args.deep_view()[i as int],
            ));
            assert(pre.push(args.deep_view()[i as int]) =~= base + args.deep_view().take(i + 1));
        }
        i += 1;
    }
    proof {
        assert(args.deep_view().take(n as int) =~= args.deep_view());
    }
}

impl ToSlimString for crate::Instruction {
    open spec fn spec_slim(&self) -> Seq<char> {
        spec_enc_instruction(self@)
    }

    fn to_slim_string(&self) -> (r: SlimString) {
        let mut fields: Vec<String> = Vec::new();
        match self {
            crate::Instruction::Import { id, path } => {
                fields.push(String::from_str(id.as_str()));
                fields.push(String::from_str("import"));
                fields.push(path.clone());
                proof {
                    assert(fields.deep_view() =~= spec_instruction_fields(self@));
                }
            },
            crate::Instruction::Make { id, instance, class, args } => {
                fields.push(String::from_str(id.as_str()));
                fields.push(String::from_str("make"));
                fields.push(instance.clone());
                fields.push(class.clone());
                proof {
                    assert(fields.deep_view() =~= seq![id@, "make"@, instance@, class@]);
                }
                push_args(&mut fields, args);
                proof {
                    assert(fields.deep_view() =~= spec_instruction_fields(self@));
                }
            },
            crate::Instruction::Call { id, instance, function, args } => {
                fields.push(String::from_str(id.as_str()));
                fields.push(String::from_str("call"));
                fields.push(instance.clone());
                fields.push(function.clone());
                proof {
                    assert(fields.deep_view() =~= seq![id@, "call"@, instance@, function@]);
                }
                push_args(&mut fields, args);
                proof {
                    assert(fields.deep_view() =~= spec_instruction_fields(self@));
                }
            },
            crate::Instruction::CallAndAssign { id, symbol, instance, function, args } => {
                fields.push(String::from_str(id.as_str()));
                fields.push(String::from_str("callAndAssign"));
                fields.push(symbol.clone());
                fields.push(instance.clone());
                fields.push(function.clone());
                proof {
                    assert(fields.deep_view() =~= seq![
                        id@,
                        "callAndAssign"@,
                        symbol@,
                        instance@,
                        function@,
                    ]);
                }
                push_args(&mut fields, args);
                proof {
                    assert(fields.deep_view() =~= spec_instruction_fields(self@));
                }
            },
            crate::Instruction::Assign { id, symbol, value } => {
                fields.push(String::from_str(id.as_str()));
                fields.push(String::from_str("assign"));
                fields.push(symbol.clone());
                fields.push(value.clone());
                proof {
                    assert(fields.deep_view() =~= spec_instruction_fields(self@));
                }
            },
        }
        slice_to_slim_string(fields.as_slice())
    }
}

/// Encode a batch of already-encodable items as a frame.  The closure-free
/// loop appends each element's own complete encoding and a separator.
pub fn instructions_to_slim_string(instructions: &Vec<crate::Instruction>) -> (r: SlimString)
    ensures
        r@ == spec_enc_instruction_list(instructions.deep_view()),
{
    let count = instructions.len();
    let ghost encs = instructions.deep_view().map_values(
        |i: crate::SpecInstruction| spec_enc_instruction(i),
    );
    let mut payload = String::new();
    push_char(&mut payload, '[');
    let count_digits = encode_len(count as u64);
    payload.append(count_digits.as_str());
    push_char(&mut payload, ':');
    proof {
        assert(encs.len() == count);
        assert(payload@ =~= seq!['['] + spec_len_prefix(count as nat) + seq![':'] + spec_cat_encs(
            encs.take(0),
        ));
        assert(encs.take(0) =~= Seq::<Seq<char>>::empty());
    }
    let mut i: usize = 0;
    while i < count
        invariant
            i <= count,
            count == instructions@.len(),
            encs == instructions.deep_view().map_values(
                |ins: crate::SpecInstruction| spec_enc_instruction(ins),
            ),
            count == encs.len(),
            payload@ == seq!['['] + spec_len_prefix(count as nat) + seq![':'] + spec_cat_encs(
                encs.take(i as int),
            ),
        decreases count - i,
    {
        let element = instructions[i].to_slim_string();
        payload.append(element.as_str());
        push_char(&mut payload, ':');
        proof {
            assert(element@ == encs[i as int]);
            lemma_cat_encs_snoc(encs.take(i as int), encs[i as int]);
            assert(encs.take(i + 1) =~= encs.take(i as int).push(encs[i as int]));
            assert(payload@ =~= seq!['['] + spec_len_prefix(count as nat) + seq![':']
                + spec_cat_encs(encs.take(i + 1)));
        }
        i += 1;
    }
    proof {
        assert(encs.take(count as int) =~= encs);
    }
    push_char(&mut payload, ']');
    let out = enc_str(payload.as_str());
    proof {
        assert(payload@ =~= seq!['['] + spec_len_prefix(count as nat) + seq![':'] + spec_cat_encs(
            encs,
        ) + seq![']']);
    }
    SlimString(out)
}

impl ToSlimString for Vec<crate::Instruction> {
    open spec fn spec_slim(&self) -> Seq<char> {
        spec_enc_instruction_list(self.deep_view())
    }

    fn to_slim_string(&self) -> (r: SlimString) {
        instructions_to_slim_string(self)
    }
}

/// The size of one result value, counting nested values.
pub open spec fn spec_rv_size(v: crate::SpecInstructionResultValue) -> nat
    decreases v,
{
    match v {
        crate::SpecInstructionResultValue::List(vs) => 1 + spec_rvs_size(vs),
        _ => 1,
    }
}

/// The combined size of a sequence of result values.
pub open spec fn spec_rvs_size(vs: Seq<crate::SpecInstructionResultValue>) -> nat
    decreases vs,
{
    if vs.len() == 0 {
        0
    } else {
        spec_rv_size(vs[0]) + spec_rvs_size(vs.skip(1))
    }
}

/// An element never outweighs the whole sequence.
pub proof fn lemma_rvs_size_at(vs: Seq<crate::SpecInstructionResultValue>, i: int)
    requires
        0 <= i < vs.len(),
    ensures
        spec_rv_size(vs[i]) <= spec_rvs_size(vs),
    decreases vs.len(),
{
    if i > 0 {
        lemma_rvs_size_at(vs.skip(1), i - 1);
        assert(vs.skip(1)[i - 1] == vs[i]);
    }
}

/// The shapes of a vector of result values, element by element.
pub proof fn lemma_rv_list_view_at(vs: Seq<crate::InstructionResultValue>)
    ensures
        crate::spec_rv_list_view(vs).len() == vs.len(),
        forall|i: int|
            0 <= i < vs.len() ==> #[trigger] crate::spec_rv_list_view(vs)[i]
                == crate::spec_rv_view(vs[i]),
    decreases vs,
{
    if vs.len() > 0 {
        lemma_rv_list_view_at(vs.skip(1));
        assert forall|i: int| 0 <= i < vs.len() implies #[trigger] crate::spec_rv_list_view(vs)[i]
            == crate::spec_rv_view(vs[i]) by {
            if i > 0 {
                assert(vs.skip(1)[i - 1] == vs[i]);
                assert(crate::spec_rv_list_view(vs)[i] == crate::spec_rv_list_view(vs.skip(1))[i
                    - 1]);
            }
        }
    }
}

/// The string a result value travels as.  A scalar travels as itself; a
/// nested list travels as its bracketed, count-prefixed payload in which
/// every element is itself length-prefixed.
pub open spec fn spec_result_value_string(v: crate::SpecInstructionResultValue) -> Seq<char>
    decreases spec_rv_size(v), 1nat,
{
    match v {
        crate::SpecInstructionResultValue::Okay => "OK"@,
        crate::SpecInstructionResultValue::Void => "/__VOID__/"@,
        crate::SpecInstructionResultValue::Text(s) => s,
        crate::SpecInstructionResultValue::Exception(m) => "__EXCEPTION__:"@ + m,
        crate::SpecInstructionResultValue::List(vs) => spec_result_values_payload(vs),
    }
}

/// The bracketed payload of a nested list of result values.
pub open spec fn spec_result_values_payload(vs: Seq<crate::SpecInstructionResultValue>) -> Seq<
    char,
>
    decreases spec_rvs_size(vs) + 1, 0nat,
{
    seq!['['] + spec_len_prefix(vs.len()) + seq![':'] + spec_result_values_cat(vs) + seq![']']
}

/// The encoded elements of a nested list, each followed by `:`.
pub open spec fn spec_result_values_cat(vs: Seq<crate::SpecInstructionResultValue>) -> Seq<char>
    decreases spec_rvs_size(vs) + 1, 0nat, vs.len(),
{
    if vs.len() == 0 {
        Seq::empty()
    } else {
        spec_enc_str(spec_result_value_string(vs[0])) + seq![':'] + spec_result_values_cat(
            vs.skip(1),
        )
    }
}

/// The wire fields of one result: the echoed token and the outcome's text.
pub open spec fn spec_result_fields(r: crate::SpecInstructionResult) -> Seq<Seq<char>> {
    match r {
        crate::SpecInstructionResult::Okay { id } => seq![id, "OK"@],
        crate::SpecInstructionResult::Void { id } => seq![id, "/__VOID__/"@],
        crate::SpecInstructionResult::Text { id, value } => seq![id, value],
        crate::SpecInstructionResult::List { id, values } => seq![
            id,
            spec_result_values_payload(values),
        ],
        crate::SpecInstructionResult::Exception { id, message } => seq![
            id,
            "__EXCEPTION__:"@ + message,
        ],
    }
}

/// The wire form of one result.
pub open spec fn spec_enc_result(r: crate::SpecInstructionResult) -> Seq<char> {
    spec_enc_str_list(spec_result_fields(r))
}

/// The wire form of a result batch.
pub open spec fn spec_enc_result_list(rs: Seq<crate::SpecInstructionResult>) -> Seq<char> {
    spec_enc_frame(rs.map_values(|r: crate::SpecInstructionResult| spec_enc_result(r)))
}

/// Appending an encoded element to a nested list's elements.
proof fn lemma_result_values_cat_snoc(
    vs: Seq<crate::SpecInstructionResultValue>,
    v: crate::SpecInstructionResultValue,
)
    ensures
        spec_result_values_cat(vs.push(v)) == spec_result_values_cat(vs) + spec_enc_str(
            spec_result_value_string(v),
        ) + seq![':'],
    decreases vs.len(),
{
    if vs.len() == 0 {
        assert(vs.push(v)[0] == v);
        assert(vs.push(v).skip(1) =~= Seq::<crate::SpecInstructionResultValue>::empty());
        assert(spec_rvs_size(vs.push(v)) == spec_rv_size(v) + spec_rvs_size(vs.push(v).skip(1)));
        assert(spec_result_values_cat(vs.push(v)) == spec_enc_str(spec_result_value_string(v))
            + seq![':'] + spec_result_values_cat(vs.push(v).skip(1)));
        assert(spec_result_values_cat(vs.push(v).skip(1)) == Seq::<char>::empty());
        assert(spec_result_values_cat(vs) == Seq::<char>::empty());
        assert(spec_result_values_cat(vs.push(v)) =~= spec_result_values_cat(vs) + spec_enc_str(
            spec_result_value_string(v),
        ) + seq![':']);
    } else {
        assert(vs.push(v).skip(1) =~= vs.skip(1).push(v));
        assert(vs.push(v)[0] == vs[0]);
        lemma_result_values_cat_snoc(vs.skip(1), v);
        assert(spec_result_values_cat(vs.push(v)) == spec_enc_str(spec_result_value_string(vs[0]))
            + seq![':'] + (spec_result_values_cat(vs.skip(1)) + spec_enc_str(
            spec_result_value_string(v),
        ) + seq![':']));
        assert(spec_enc_str(spec_result_value_string(vs[0])) + seq![':'] + (
        spec_result_values_cat(vs.skip(1)) + spec_enc_str(spec_result_value_string(v)) + seq![
            ':',
        ]) =~= spec_result_values_cat(vs) + spec_enc_str(spec_result_value_string(v)) + seq![
            ':',
        ]);
    }
}

/// The string one result value travels as.
pub fn result_value_string(v: &crate::InstructionResultValue) -> (r: String)
    ensures
        r@ == spec_result_value_string(v@),
    decreases spec_rv_size(v@), 1nat,
{
    match v {
        crate::InstructionResultValue::Okay => {
            let mut out = String::new();
            out.append("OK");
            proof {
                assert(out@ =~= "OK"@);
            }
            out
        },
        crate::InstructionResultValue::Void => {
            let mut out = String::new();
            out.append("/__VOID__/");
            proof {
                assert(out@ =~= "/__VOID__/"@);
            }
            out
        },
        crate::InstructionResultValue::Text(s) => s.clone(),
        crate::InstructionResultValue::Exception(m) => {
            let mut out = String::new();
            out.append("__EXCEPTION__:");
            out.append(m.raw_message());
            proof {
                assert(out@ =~= "__EXCEPTION__:"@ + m@);
            }
            out
        },
        crate::InstructionResultValue::List(values) => result_values_payload(values),
    }
}

/// The bracketed payload of a nested list of result values.
pub fn result_values_payload(values: &Vec<crate::InstructionResultValue>) -> (r: String)
    ensures
        r@ == spec_result_values_payload(crate::spec_rv_list_view(values@)),
    decreases spec_rvs_size(crate::spec_rv_list_view(values@)) + 1, 0nat,
{
    proof {
        lemma_rv_list_view_at(values@);
    }
    let ghost vvs = crate::spec_rv_list_view(values@);
    let count = values.len();
    let mut payload = String::new();
    push_char(&mut payload, '[');
    let count_digits = encode_len(count as u64);
    payload.append(count_digits.as_str());
    push_char(&mut payload, ':');
    proof {
        assert(vvs.len() == count);
        assert(payload@ =~= seq!['['] + spec_len_prefix(count as nat) + seq![':']
            + spec_result_values_cat(vvs.take(0)));
        assert(vvs.take(0) =~= Seq::<crate::SpecInstructionResultValue>::empty());
    }
    let mut i: usize = 0;
    while i < count
        invariant
            i <= count,
            count == values@.len(),
            vvs == crate::spec_rv_list_view(values@),
            count == vvs.len(),
            spec_rvs_size(vvs) == spec_rvs_size(crate::spec_rv_list_view(values@)),
            payload@ == seq!['['] + spec_len_prefix(count as nat) + seq![':']
                + spec_result_values_cat(vvs.take(i as int)),
        decreases count - i,
    {
        proof {
            lemma_rv_list_view_at(values@);
            lemma_rvs_size_at(vvs, i as int);
            assert(spec_rv_size(values@[i as int]@) <= spec_rvs_size(vvs));
        }
        let element_string = result_value_string(&values[i]);
        let element = enc_str(element_string.as_str());
        payload.append(element.as_str());
        push_char(&mut payload, ':');
        proof {
            assert(vvs[i as int] == values@[i as int]@);
            lemma_result_values_cat_snoc(vvs.take(i as int), vvs[i as int]);
            assert(vvs.take(i + 1) =~= vvs.take(i as int).push(vvs[i as int]));
            assert(payload@ =~= seq!['['] + spec_len_prefix(count as nat) + seq![':']
                + spec_result_values_cat(vvs.take(i + 1)));
        }
        i += 1;
    }
    proof {
        assert(vvs.take(count as int) =~= vvs);
    }
    push_char(&mut payload, ']');
    proof {
        assert(payload@ =~= spec_result_values_payload(vvs));
    }
    payload
}

impl ToSlimString for crate::InstructionResult {
    open spec fn spec_slim(&self) -> Seq<char> {
        spec_enc_result(self@)
    }

    fn to_slim_string(&self) -> (r: SlimString) {
        let mut fields: Vec<String> = Vec::new();
        match self {
            crate::InstructionResult::Okay { id } => {
                fields.push(String::from_str(id.as_str()));
                fields.push(String::from_str("OK"));
            },
            crate::InstructionResult::Void { id } => {
                fields.push(String::from_str(id.as_str()));
                fields.push(String::from_str("/__VOID__/"));
            },
            crate::InstructionResult::Text { id, value } => {
                fields.push(String::from_str(id.as_str()));
                fields.push(value.clone());
            },
            crate::InstructionResult::List { id, values } => {
                fields.push(String::from_str(id.as_str()));
                fields.push(result_values_payload(values));
            },
            crate::InstructionResult::Exception { id, message } => {
                fields.push(String::from_str(id.as_str()));
                let mut m = String::new();
                m.append("__EXCEPTION__:");
                m.append(message.raw_message());
                proof {
                    assert(m@ =~= "__EXCEPTION__:"@ + message@);
                }
                fields.push(m);
            },
        }
        proof {
            assert(fields.deep_view() =~= spec_result_fields(self@));
        }
        slice_to_slim_string(fields.as_slice())
    }
}

/// Encode a result batch as one frame.
pub fn results_to_slim_string(results: &Vec<crate::InstructionResult>) -> (r: SlimString)
    ensures
        r@ == spec_enc_result_list(results.deep_view()),
{
    let count = results.len();
    let ghost encs = results.deep_view().map_values(
        |rr: crate::SpecInstructionResult| spec_enc_result(rr),
    );
    let mut payload = String::new();
    push_char(&mut payload, '[');
    let count_digits = encode_len(count as u64);
    payload.append(count_digits.as_str());
    push_char(&mut payload, ':');
    proof {
        assert(encs.len() == count);
        assert(payload@ =~= seq!['['] + spec_len_prefix(count as nat) + seq![':'] + spec_cat_encs(
            encs.take(0),
        ));
        assert(encs.take(0) =~= Seq::<Seq<char>>::empty());
    }
    let mut i: usize = 0;
    while i < count
        invariant
            i <= count,
            count == results@.len(),
            encs == results.deep_view().map_values(
                |rr: crate::SpecInstructionResult| spec_enc_result(rr),
            ),
            count == encs.len(),
            payload@ == seq!['['] + spec_len_prefix(count as nat) + seq![':'] + spec_cat_encs(
                encs.take(i as int),
            ),
        decreases count - i,
    {
        let element = results[i].to_slim_string();
        payload.append(element.as_str());
        push_char(&mut payload, ':');
        proof {
            assert(element@ == encs[i as int]);
            lemma_cat_encs_snoc(encs.take(i as int), encs[i as int]);
            assert(encs.take(i + 1) =~= encs.take(i as int).push(encs[i as int]));
            assert(payload@ =~= seq!['['] + spec_len_prefix(count as nat) + seq![':']
                + spec_cat_encs(encs.take(i + 1)));
        }
        i += 1;
    }
    proof {
        assert(encs.take(count as int) =~= encs);
    }
    push_char(&mut payload, ']');
    let out = enc_str(payload.as_str());
    proof {
        assert(payload@ =~= seq!['['] + spec_len_prefix(count as nat) + seq![':'] + spec_cat_encs(
            encs,
        ) + seq![']']);
    }
    SlimString(out)
}

impl ToSlimString for Vec<crate::InstructionResult> {
    open spec fn spec_slim(&self) -> Seq<char> {
        spec_enc_result_list(self.deep_view())
    }

    fn to_slim_string(&self) -> (r: SlimString) {
        results_to_slim_string(self)
    }
}

} // verus!
