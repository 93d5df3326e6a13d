//! A verified engine for the SLIM protocol: the line-oriented RPC protocol
//! that acceptance-testing tools use to drive test fixtures in another
//! process.  The crate holds the self-delimiting wire codec, the protocol
//! model, the server-side instruction interpreter with its registry, symbol
//! table and namespaces, and the client-side connection bookkeeping.

use vstd::prelude::*;

pub mod connection;
pub mod decimal;
pub mod round_trip;
pub mod slim_deserialize;
pub mod slim_serialize;
pub mod server;
pub mod strmap;
pub mod port;
pub mod strutil;
pub mod to_slim_result_string;
pub mod tokenizer;
pub mod utils;

use crate::strutil::{find_sub, lemma_find_sub_props, str_eq_str, substring};

verus! {

/// A correlation token: generated by whoever issues an instruction and
/// echoed verbatim in the matching result.  Only equality matters.
#[derive(Debug)]
pub struct Id(String);

impl View for Id {
    type V = Seq<char>;

    closed spec fn view(&self) -> Seq<char> {
        self.0@
    }
}

impl Id {
    /// A fresh token.  Relies on ulid::Ulid::generate and Ulid::to_string: a
    /// ULID renders as exactly 26 Crockford base-32 characters.
    #[verifier::external_body]
    pub fn new() -> (r: Id)
        ensures
            r@.len() == 26,
    {
        Id(ulid::Ulid::generate().to_string())
    }

    /// The token's text.
    pub fn as_str(&self) -> (r: &str)
        ensures
            r@ == self@,
    {
        self.0.as_str()
    }
}

impl Default for Id {
    /// A fresh token, like `Id::new`.
    fn default() -> (r: Id)
        ensures
            r@.len() == 26,
    {
        Id::new()
    }
}

impl Clone for Id {
    fn clone(&self) -> (r: Id)
        ensures
            r@ == self@,
    {
        Id(self.0.clone())
    }
}

impl PartialEq for Id {
    fn eq(&self, other: &Id) -> (r: bool) {
        str_eq_str(self.0.as_str(), other.0.as_str())
    }
}

impl Eq for Id {

}

impl vstd::std_specs::cmp::PartialEqSpecImpl for Id {
    open spec fn obeys_eq_spec() -> bool {
        true
    }

    open spec fn eq_spec(&self, other: &Id) -> bool {
        self@ == other@
    }
}

impl From<String> for Id {
    fn from(value: String) -> (r: Id)
        ensures
            r@ == value@,
    {
        Id(value)
    }
}

impl vstd::std_specs::convert::FromSpecImpl<String> for Id {
    open spec fn obeys_from_spec() -> bool {
        true
    }

    closed spec fn from_spec(value: String) -> Id {
        Id(value)
    }
}

impl From<&str> for Id {
    fn from(value: &str) -> (r: Id)
        ensures
            r@ == value@,
    {
        Id(String::from_str(value))
    }
}

impl vstd::std_specs::convert::FromSpecImpl<&str> for Id {
    open spec fn obeys_from_spec() -> bool {
        false
    }

    open spec fn from_spec(value: &str) -> Id {
        arbitrary()
    }
}

/// The protocol versions a connection accepts at the handshake.
#[derive(Debug, Clone, Copy, PartialEq, Eq, Structural)]
pub enum SlimVersion {
    V0_3,
    V0_4,
    V0_5,
}

/// Why a greeting line did not yield a version.
#[derive(Debug)]
pub enum SlimVersionReadError {
    /// The greeting holds no ` -- ` separator.
    Invalid,
    /// The token after the separator is not a known version.
    NotRecognized(String),
}

/// Whitespace characters stripped around the version token.
pub open spec fn spec_is_ws(c: char) -> bool {
    c == ' ' || c == '\n' || c == '\t' || c == '\r'
}

/// The input without leading whitespace.
pub open spec fn spec_trim_start(s: Seq<char>) -> Seq<char>
    decreases s.len(),
{
    if s.len() > 0 && spec_is_ws(s[0]) {
        spec_trim_start(s.skip(1))
    } else {
        s
    }
}

/// The input without trailing whitespace.
pub open spec fn spec_trim_end(s: Seq<char>) -> Seq<char>
    decreases s.len(),
{
    if s.len() > 0 && spec_is_ws(s.last()) {
        spec_trim_end(s.drop_last())
    } else {
        s
    }
}

/// The input without surrounding whitespace.
pub open spec fn spec_trim(s: Seq<char>) -> Seq<char> {
    spec_trim_end(spec_trim_start(s))
}

/// Strip the whitespace around `s`.
fn trim(s: &str) -> (r: String)
    ensures
        r@ == spec_trim(s@),
{
    let len = s.unicode_len();
    let mut start: usize = 0;
    proof {
        assert(s@.skip(0) =~= s@);
    }
    while start < len && is_ws(s.get_char(start))
        invariant
            start <= len,
            len == s@.len(),
            spec_trim_start(s@) == spec_trim_start(s@.skip(start as int)),
        decreases len - start,
    {
        proof {
            assert(s@.skip(start as int).skip(1) =~= s@.skip(start + 1));
        }
        start += 1;
    }
    proof {
        assert(spec_trim_start(s@.skip(start as int)) == s@.skip(start as int));
    }
    let mut end: usize = len;
    while end > start && is_ws(s.get_char(end - 1))
        invariant
            start <= end <= len,
            len == s@.len(),
            spec_trim_start(s@) == s@.skip(start as int),
            spec_trim_end(s@.skip(start as int)) == spec_trim_end(
                s@.subrange(start as int, end as int),
            ),
        decreases end,
    {
        proof {
            assert(s@.subrange(start as int, end as int).last() == s@[end - 1]);
            assert(s@.subrange(start as int, end as int).drop_last() =~= s@.subrange(
                start as int,
                end - 1,
            ));
        }
        end -= 1;
    }
    proof {
        if end > start {
            assert(s@.subrange(start as int, end as int).last() == s@[end - 1]);
        }
        assert(spec_trim_end(s@.subrange(start as int, end as int)) == s@.subrange(
            start as int,
            end as int,
        ));
        assert(s@.skip(start as int) =~= s@.subrange(start as int, len as int));
    }
    substring(s, start, end)
}

fn is_ws(c: char) -> (r: bool)
    ensures
        r == spec_is_ws(c),
{
    c == ' ' || c == '\n' || c == '\t' || c == '\r'
}

impl SlimVersion {
    /// Parse the version token out of a greeting line such as
    /// `Slim -- V0.5\n`: the text after the first ` -- `, stripped of
    /// surrounding whitespace, must name a known version.
    pub fn from_str(string: &str) -> (r: Result<SlimVersion, SlimVersionReadError>)
        ensures
            match crate::strutil::spec_find_sub(string@, " -- "@, 0) {
                None => r matches Err(SlimVersionReadError::Invalid),
                Some(i) => {
                    let token = spec_trim(string@.skip(i + 4));
                    if token == "V0.3"@ {
                        r == Ok::<SlimVersion, SlimVersionReadError>(SlimVersion::V0_3)
                    } else if token == "V0.4"@ {
                        r == Ok::<SlimVersion, SlimVersionReadError>(SlimVersion::V0_4)
                    } else if token == "V0.5"@ {
                        r == Ok::<SlimVersion, SlimVersionReadError>(SlimVersion::V0_5)
                    } else {
                        (r matches Err(SlimVersionReadError::NotRecognized(m)) && m@ == token)
                    }
                },
            },
    {
        proof {
            reveal_strlit(" -- ");
            lemma_find_sub_props(string@, " -- "@, 0);
        }
        let i = match find_sub(string, " -- ") {
            Some(i) => i,
            None => {
                return Err(SlimVersionReadError::Invalid);
            },
        };
        let len = string.unicode_len();
        proof {
            assert(crate::strutil::spec_match_at(string@, " -- "@, i as int));
        }
        let after = substring(string, i + 4, len);
        proof {
            assert(after@ =~= string@.skip(i + 4));
        }
        let token = trim(after.as_str());
        if str_eq_str(token.as_str(), "V0.3") {
            Ok(SlimVersion::V0_3)
        } else if str_eq_str(token.as_str(), "V0.4") {
            Ok(SlimVersion::V0_4)
        } else if str_eq_str(token.as_str(), "V0.5") {
            Ok(SlimVersion::V0_5)
        } else {
            Err(SlimVersionReadError::NotRecognized(token))
        }
    }
}

/// The raw text of a failure reported for one instruction.
#[derive(Debug)]
pub struct ExceptionMessage(String);

/// The raw text held a `message:<<` opening with no closing `>>`.
#[derive(Debug)]
pub struct ExceptionPrettyMessageError(String);

impl View for ExceptionPrettyMessageError {
    type V = Seq<char>;

    closed spec fn view(&self) -> Seq<char> {
        self.0@
    }
}

/// The pretty view of a raw exception text: the span inside
/// `message:<<`...`>>` when such a span is present, the raw text otherwise;
/// an opening marker without a closing one is a failure.
pub open spec fn spec_pretty_message(raw: Seq<char>) -> Result<Seq<char>, Seq<char>> {
    match crate::strutil::spec_find_sub(raw, "message:<<"@, 0) {
        None => Ok(raw),
        Some(i) => {
            let rest = raw.skip(i + 10);
            match crate::strutil::spec_find_sub(rest, ">>"@, 0) {
                None => Err(raw),
                Some(j) => Ok(rest.take(j)),
            }
        },
    }
}

impl ExceptionMessage {
    /// Wrap a raw failure text.
    pub fn new(message: String) -> (r: ExceptionMessage)
        ensures
            r@ == message@,
    {
        ExceptionMessage(message)
    }

    /// The raw text, exactly as received.
    pub fn raw_message(&self) -> (r: &str)
        ensures
            r@ == self@,
    {
        self.0.as_str()
    }

    /// The pretty view of the raw text.
    pub fn pretty_message(&self) -> (r: Result<String, ExceptionPrettyMessageError>)
        ensures
            match spec_pretty_message(self@) {
                Ok(m) => r is Ok && r->Ok_0@ == m,
                Err(raw) => r is Err && r->Err_0@ == raw,
            },
    {
        proof {
            reveal_strlit("message:<<");
            reveal_strlit(">>");
            lemma_find_sub_props(self.0@, "message:<<"@, 0);
        }
        let i = match find_sub(self.0.as_str(), "message:<<") {
            Some(i) => i,
            None => {
                return Ok(self.0.clone());
            },
        };
        let len = self.0.as_str().unicode_len();
        proof {
            assert(crate::strutil::spec_match_at(self.0@, "message:<<"@, i as int));
        }
        let rest = substring(self.0.as_str(), i + 10, len);
        proof {
            assert(rest@ =~= self.0@.skip(i + 10));
            lemma_find_sub_props(rest@, ">>"@, 0);
        }
        let j = match find_sub(rest.as_str(), ">>") {
            Some(j) => j,
            None => {
                return Err(ExceptionPrettyMessageError(self.0.clone()));
            },
        };
        let message = substring(rest.as_str(), 0, j);
        proof {
            assert(message@ =~= rest@.take(j as int));
        }
        Ok(message)
    }
}

impl Clone for ExceptionMessage {
    fn clone(&self) -> (r: ExceptionMessage)
        ensures
            r@ == self@,
    {
        ExceptionMessage(self.0.clone())
    }
}

impl View for ExceptionMessage {
    type V = Seq<char>;

    closed spec fn view(&self) -> Seq<char> {
        self.0@
    }
}

impl PartialEq for ExceptionMessage {
    fn eq(&self, other: &ExceptionMessage) -> (r: bool) {
        str_eq_str(self.0.as_str(), other.0.as_str())
    }
}

impl Eq for ExceptionMessage {

}

impl vstd::std_specs::cmp::PartialEqSpecImpl for ExceptionMessage {
    open spec fn obeys_eq_spec() -> bool {
        true
    }

    open spec fn eq_spec(&self, other: &ExceptionMessage) -> bool {
        self@ == other@
    }
}

} // verus!

verus! {

/// One step of a batch, as carried on the wire.
#[derive(Debug)]
pub enum Instruction {
    /// Record a namespace prefix for class resolution.
    Import { id: Id, path: String },
    /// Construct a fixture instance under a name.
    Make { id: Id, instance: String, class: String, args: Vec<String> },
    /// Call a method on a named instance.
    Call { id: Id, instance: String, function: String, args: Vec<String> },
    /// Call a method and store its result under a symbol.
    CallAndAssign { id: Id, symbol: String, instance: String, function: String, args: Vec<String> },
    /// Store a value under a symbol.
    Assign { id: Id, symbol: String, value: String },
}

/// The mathematical shape of an instruction.
pub enum SpecInstruction {
    Import { id: Seq<char>, path: Seq<char> },
    Make { id: Seq<char>, instance: Seq<char>, class: Seq<char>, args: Seq<Seq<char>> },
    Call { id: Seq<char>, instance: Seq<char>, function: Seq<char>, args: Seq<Seq<char>> },
    CallAndAssign {
        id: Seq<char>,
        symbol: Seq<char>,
        instance: Seq<char>,
        function: Seq<char>,
        args: Seq<Seq<char>>,
    },
    Assign { id: Seq<char>, symbol: Seq<char>, value: Seq<char> },
}

impl View for Instruction {
    type V = SpecInstruction;

    open spec fn view(&self) -> SpecInstruction {
        match self {
            Instruction::Import { id, path } => SpecInstruction::Import {
                id: id@,
                path: path@,
            },
            Instruction::Make { id, instance, class, args } => SpecInstruction::Make {
                id: id@,
                instance: instance@,
                class: class@,
                args: args.deep_view(),
            },
            Instruction::Call { id, instance, function, args } => SpecInstruction::Call {
                id: id@,
                instance: instance@,
                function: function@,
                args: args.deep_view(),
            },
            Instruction::CallAndAssign {
                id,
                symbol,
                instance,
                function,
                args,
            } => SpecInstruction::CallAndAssign {
                id: id@,
                symbol: symbol@,
                instance: instance@,
                function: function@,
                args: args.deep_view(),
            },
            Instruction::Assign { id, symbol, value } => SpecInstruction::Assign {
                id: id@,
                symbol: symbol@,
                value: value@,
            },
        }
    }
}

impl DeepView for Instruction {
    type V = SpecInstruction;

    open spec fn deep_view(&self) -> SpecInstruction {
        self.view()
    }
}

/// The correlation token an instruction carries.
pub open spec fn spec_instruction_id(i: SpecInstruction) -> Seq<char> {
    match i {
        SpecInstruction::Import { id, .. } => id,
        SpecInstruction::Make { id, .. } => id,
        SpecInstruction::Call { id, .. } => id,
        SpecInstruction::CallAndAssign { id, .. } => id,
        SpecInstruction::Assign { id, .. } => id,
    }
}

/// One value inside a list result; lists nest.
#[derive(Debug)]
pub enum InstructionResultValue {
    Okay,
    Void,
    Text(String),
    List(Vec<InstructionResultValue>),
    Exception(ExceptionMessage),
}

/// The mathematical shape of a value inside a list result.
pub enum SpecInstructionResultValue {
    Okay,
    Void,
    Text(Seq<char>),
    List(Seq<SpecInstructionResultValue>),
    Exception(Seq<char>),
}

/// The shape of a result value.
pub open spec fn spec_rv_view(v: InstructionResultValue) -> SpecInstructionResultValue
    decreases v,
{
    match v {
        InstructionResultValue::Okay => SpecInstructionResultValue::Okay,
        InstructionResultValue::Void => SpecInstructionResultValue::Void,
        InstructionResultValue::Text(s) => SpecInstructionResultValue::Text(s@),
        InstructionResultValue::List(vs) => SpecInstructionResultValue::List(
            spec_rv_list_view(vs@),
        ),
        InstructionResultValue::Exception(m) => SpecInstructionResultValue::Exception(m@),
    }
}

/// The shapes of the values of a list result.
pub open spec fn spec_rv_list_view(vs: Seq<InstructionResultValue>) -> Seq<
    SpecInstructionResultValue,
>
    decreases vs,
{
    if vs.len() == 0 {
        Seq::empty()
    } else {
        seq![spec_rv_view(vs[0])] + spec_rv_list_view(vs.skip(1))
    }
}

impl View for InstructionResultValue {
    type V = SpecInstructionResultValue;

    open spec fn view(&self) -> SpecInstructionResultValue {
        spec_rv_view(*self)
    }
}

/// The outcome reported for one instruction.  Every variant echoes the
/// instruction's own correlation token.
#[derive(Debug)]
pub enum InstructionResult {
    /// Success with no value.
    Okay { id: Id },
    /// The reserved marker for a method that returned nothing.
    Void { id: Id },
    /// A plain value.
    Text { id: Id, value: String },
    /// A list of values, possibly nested.
    List { id: Id, values: Vec<InstructionResultValue> },
    /// An instruction-scoped failure.
    Exception { id: Id, message: ExceptionMessage },
}

/// The mathematical shape of a result.
pub enum SpecInstructionResult {
    Okay { id: Seq<char> },
    Void { id: Seq<char> },
    Text { id: Seq<char>, value: Seq<char> },
    List { id: Seq<char>, values: Seq<SpecInstructionResultValue> },
    Exception { id: Seq<char>, message: Seq<char> },
}

impl View for InstructionResult {
    type V = SpecInstructionResult;

    open spec fn view(&self) -> SpecInstructionResult {
        match self {
            InstructionResult::Okay { id } => SpecInstructionResult::Okay { id: id@ },
            InstructionResult::Void { id } => SpecInstructionResult::Void { id: id@ },
            InstructionResult::Text { id, value } => SpecInstructionResult::Text {
                id: id@,
                value: value@,
            },
            InstructionResult::List { id, values } => SpecInstructionResult::List {
                id: id@,
                values: spec_rv_list_view(values@),
            },
            InstructionResult::Exception { id, message } => SpecInstructionResult::Exception {
                id: id@,
                message: message@,
            },
        }
    }
}

impl DeepView for InstructionResult {
    type V = SpecInstructionResult;

    open spec fn deep_view(&self) -> SpecInstructionResult {
        self.view()
    }
}

/// The correlation token a result carries.
pub open spec fn spec_result_id(r: SpecInstructionResult) -> Seq<char> {
    match r {
        SpecInstructionResult::Okay { id } => id,
        SpecInstructionResult::Void { id } => id,
        SpecInstructionResult::Text { id, .. } => id,
        SpecInstructionResult::List { id, .. } => id,
        SpecInstructionResult::Exception { id, .. } => id,
    }
}

/// What the serving side reads at the top of each round trip: either one
/// instruction batch, or the teardown marker.
#[derive(Debug)]
pub enum ByeOrSlimInstructions {
    Bye,
    Instructions(Vec<Instruction>),
}

/// The mathematical shape of a top-level read.
pub enum SpecByeOrInstructions {
    Bye,
    Instructions(Seq<SpecInstruction>),
}

impl View for ByeOrSlimInstructions {
    type V = SpecByeOrInstructions;

    open spec fn view(&self) -> SpecByeOrInstructions {
        match self {
            ByeOrSlimInstructions::Bye => SpecByeOrInstructions::Bye,
            ByeOrSlimInstructions::Instructions(is) => SpecByeOrInstructions::Instructions(
                is.deep_view(),
            ),
        }
    }
}

} // verus!
