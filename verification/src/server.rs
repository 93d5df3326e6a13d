//! The server-side interpreter: a registry of fixture constructors, two
//! instance namespaces, an import list and a symbol table, driven one
//! instruction batch at a time.

use vstd::prelude::*;

use crate::strmap::StrMap;
use crate::strutil::{spec_find_char, str_starts_with, substring};
use crate::utils::{spec_snake_case, to_snake_case};
use crate::{ExceptionMessage, Id, Instruction, InstructionResult, SpecInstruction,
    SpecInstructionResult, spec_instruction_id, spec_result_id};

verus! {

/// The capability a fixture exposes: dispatch of one method call.  The
/// method name arrives already case-converted and the arguments already
/// symbol-substituted; the returned string is either the reserved void
/// sentinel or an ordinary value.  Implementations live outside this crate,
/// so nothing is assumed about the outcome.
pub trait SlimFixture {
    /// Execute a method if the fixture has it.
    fn execute_method(&mut self, method: &str, args: Vec<String>) -> Result<
        String,
        ExecuteMethodError,
    >;
}

/// The class path a fixture type is registered under, in dot-separated
/// PascalCase, such as `Fixtures.Calculator`.
pub trait ClassPath {
    /// The class path of this fixture type.
    fn class_path() -> String;
}

/// A registry entry: builds one fixture from the `Make` arguments.
pub trait Constructor<F> {
    /// Construct a fixture instance.
    fn construct(&self, args: Vec<String>) -> F;
}

/// Why a fixture could not execute a method.
#[derive(Debug, Clone, PartialEq, Eq)]
pub enum ExecuteMethodError {
    /// The fixture has no such method.
    MethodNotFound { method: String, class: String },
    /// An argument could not be parsed into the parameter's type.
    ArgumentParsingError(String),
    /// The method itself failed.
    ExecutionError(String),
}

/// The wire text of a dispatch failure.
pub open spec fn spec_execute_method_error_message(e: ExecuteMethodError) -> Seq<char> {
    match e {
        ExecuteMethodError::MethodNotFound { method, class } => "NO_METHOD_IN_CLASS "@ + method@
            + " "@ + class@,
        ExecuteMethodError::ArgumentParsingError(argument) => "NO_CONVERTER_FOR_ARGUMENT_NUMBER "@
            + argument@,
        ExecuteMethodError::ExecutionError(error) => error@,
    }
}

impl ExecuteMethodError {
    /// Render the failure as the wire text carried by an exception result.
    pub fn message(&self) -> (r: String)
        ensures
            r@ == spec_execute_method_error_message(*self),
    {
        match self {
            ExecuteMethodError::MethodNotFound { method, class } => {
                let mut m = String::new();
                m.append("NO_METHOD_IN_CLASS ");
                m.append(method.as_str());
                m.append(" ");
                m.append(class.as_str());
                proof {
                    assert(m@ =~= spec_execute_method_error_message(*self));
                }
                m
            },
            ExecuteMethodError::ArgumentParsingError(argument) => {
                let mut m = String::new();
                m.append("NO_CONVERTER_FOR_ARGUMENT_NUMBER ");
                m.append(argument.as_str());
                proof {
                    assert(m@ =~= spec_execute_method_error_message(*self));
                }
                m
            },
            ExecuteMethodError::ExecutionError(error) => error.clone(),
        }
    }
}

/// Why a whole session failed: the stream could not be decoded.
#[derive(Debug)]
pub enum SlimServerError {
    FromSlimReaderError(crate::slim_deserialize::FromSlimReaderError),
}

/// A symbol table as a mathematical map from names to values.
pub open spec fn spec_symbols_map(m: Map<Seq<char>, String>) -> Map<Seq<char>, Seq<char>> {
    Map::new(|k: Seq<char>| m.contains_key(k), |k: Seq<char>| m[k]@)
}

/// The value a symbol resolves to: its stored value, or the empty string
/// for an unknown symbol.
pub open spec fn spec_symbol_lookup(symbols: Map<Seq<char>, Seq<char>>, name: Seq<char>) -> Seq<
    char,
> {
    if symbols.contains_key(name) {
        symbols[name]
    } else {
        Seq::empty()
    }
}

/// One pass of symbol substitution: replace the first `$name` (ended by a
/// space or the end of the string) by the symbol's value.
pub open spec fn spec_subst_once(symbols: Map<Seq<char>, Seq<char>>, v: Seq<char>) -> Seq<char> {
    match spec_find_char(v, '$', 0) {
        None => v,
        Some(d) => {
            let before = v.take(d);
            let after = v.skip(d + 1);
            match spec_find_char(after, ' ', 0) {
                Some(sp) => before + spec_symbol_lookup(symbols, after.take(sp)) + after.skip(sp),
                None => before + spec_symbol_lookup(symbols, after),
            }
        },
    }
}

/// Substitution passes repeated until no `$` remains or the fuel runs out.
/// The rebuilt string is rescanned in full after each pass, so a symbol
/// value may itself introduce another `$name`.
pub open spec fn spec_subst(symbols: Map<Seq<char>, Seq<char>>, v: Seq<char>, fuel: nat) -> Seq<
    char,
>
    decreases fuel,
{
    if fuel == 0 || spec_find_char(v, '$', 0) is None {
        v
    } else {
        spec_subst(symbols, spec_subst_once(symbols, v), (fuel - 1) as nat)
    }
}

/// Each argument substituted independently.
pub open spec fn spec_subst_all(
    symbols: Map<Seq<char>, Seq<char>>,
    args: Seq<Seq<char>>,
    fuel: nat,
) -> Seq<Seq<char>> {
    args.map_values(|a: Seq<char>| spec_subst(symbols, a, fuel))
}

/// The most substitution passes applied to one string.  The protocol
/// itself puts no bound on rescanning, so a self-referential symbol would
/// rewrite forever; this engine stops after this many passes and uses the
/// string as it then stands.
pub const SYMBOL_SUBSTITUTION_PASSES: usize = 1000;

/// The symbol name of an `Assign` with any leading `$` stripped.
pub open spec fn spec_strip_dollar(s: Seq<char>) -> Seq<char> {
    if s.len() > 0 && s[0] == '$' {
        s.skip(1)
    } else {
        s
    }
}

/// The class path a `Make` resolves to: the registry is tried with the name
/// itself first, then with each recorded import prefix in the order the
/// imports were processed; the first hit wins.
pub open spec fn spec_resolve_class(
    registry: Set<Seq<char>>,
    imports: Seq<Seq<char>>,
    class: Seq<char>,
) -> Option<Seq<char>> {
    if registry.contains(class) {
        Some(class)
    } else {
        spec_resolve_imports(registry, imports, class, 0)
    }
}

/// Resolution through the import list from position `i` on.
pub open spec fn spec_resolve_imports(
    registry: Set<Seq<char>>,
    imports: Seq<Seq<char>>,
    class: Seq<char>,
    i: int,
) -> Option<Seq<char>>
    decreases imports.len() - i,
{
    if i < 0 || i >= imports.len() {
        None
    } else if registry.contains(imports[i] + "."@ + class) {
        Some(imports[i] + "."@ + class)
    } else {
        spec_resolve_imports(registry, imports, class, i + 1)
    }
}

/// Whether an instance name selects the library namespace rather than the
/// ordinary instance namespace.  This naming convention is part of the wire
/// contract.
pub open spec fn spec_is_library(instance: Seq<char>) -> bool {
    "library"@.is_prefix_of(instance)
}

/// The SLIM server: executes instruction batches against registered
/// fixtures, keeping per-session state.
pub struct SlimServer<C, F> {
    fixtures: StrMap<C>,
    instances: StrMap<F>,
    libraries: StrMap<F>,
    symbols: StrMap<String>,
    imports: Vec<String>,
}

impl<C, F> SlimServer<C, F> where C: Constructor<F>, F: SlimFixture {
    /// All four tables keep their keys distinct, and the two fixture
    /// namespaces never share a name: a name with the library prefix lives
    /// only in the library namespace, any other name only in the ordinary
    /// one.
    pub closed spec fn wf(&self) -> bool {
        &&& self.fixtures.wf()
        &&& self.instances.wf()
        &&& self.libraries.wf()
        &&& self.symbols.wf()
        &&& forall|k: Seq<char>|
            #[trigger] self.instances@.contains_key(k) ==> !spec_is_library(k)
        &&& forall|k: Seq<char>| #[trigger] self.libraries@.contains_key(k) ==> spec_is_library(k)
    }

    /// The registry: class paths to constructors.
    pub closed spec fn fixtures_view(&self) -> Map<Seq<char>, C> {
        self.fixtures@
    }

    /// The ordinary instance namespace.
    pub closed spec fn instances_view(&self) -> Map<Seq<char>, F> {
        self.instances@
    }

    /// The library namespace.
    pub closed spec fn libraries_view(&self) -> Map<Seq<char>, F> {
        self.libraries@
    }

    /// The symbol table.
    pub closed spec fn symbols_view(&self) -> Map<Seq<char>, Seq<char>> {
        spec_symbols_map(self.symbols@)
    }

    /// The recorded import prefixes, in order.
    pub closed spec fn imports_view(&self) -> Seq<Seq<char>> {
        self.imports.deep_view()
    }

    /// A fresh session: nothing registered, nothing stored.
    pub fn new() -> (r: SlimServer<C, F>)
        ensures
            r.wf(),
            r.fixtures_view() == Map::<Seq<char>, C>::empty(),
            r.instances_view() == Map::<Seq<char>, F>::empty(),
            r.libraries_view() == Map::<Seq<char>, F>::empty(),
            r.symbols_view() =~= Map::<Seq<char>, Seq<char>>::empty(),
            r.imports_view() =~= Seq::<Seq<char>>::empty(),
    {
        SlimServer {
            fixtures: StrMap::new(),
            instances: StrMap::new(),
            libraries: StrMap::new(),
            symbols: StrMap::new(),
            imports: Vec::new(),
        }
    }

    /// Register a constructor under a class path.
    pub fn add_fixture(&mut self, class_path: String, constructor: C)
        requires
            old(self).wf(),
        ensures
            final(self).wf(),
            final(self).fixtures_view() == old(self).fixtures_view().insert(
                class_path@,
                constructor,
            ),
            final(self).instances_view() == old(self).instances_view(),
            final(self).libraries_view() == old(self).libraries_view(),
            final(self).symbols_view() == old(self).symbols_view(),
            final(self).imports_view() == old(self).imports_view(),
    {
        self.fixtures.insert(class_path, constructor);
    }

    /// The recorded import prefixes.
    pub fn imports(&self) -> (r: &Vec<String>)
        ensures
            r.deep_view() == self.imports_view(),
    {
        &self.imports
    }

    /// Whether the ordinary namespace holds an instance under `name`.
    pub fn has_instance(&self, name: &str) -> (r: bool)
        requires
            self.wf(),
        ensures
            r == self.instances_view().contains_key(name@),
    {
        self.instances.contains_key(name)
    }

    /// Whether the library namespace holds an instance under `name`.
    pub fn has_library(&self, name: &str) -> (r: bool)
        requires
            self.wf(),
        ensures
            r == self.libraries_view().contains_key(name@),
    {
        self.libraries.contains_key(name)
    }

    /// How many instances the ordinary namespace holds.
    pub fn instance_count(&self) -> (r: usize)
        requires
            self.wf(),
        ensures
            r == self.instances_view().dom().len(),
    {
        self.instances.len()
    }

    /// How many instances the library namespace holds.
    pub fn library_count(&self) -> (r: usize)
        requires
            self.wf(),
        ensures
            r == self.libraries_view().dom().len(),
    {
        self.libraries.len()
    }

    /// Resolve a class name against the registry: the name itself first,
    /// then each import prefix in recorded order.
    pub fn find_fixture(&self, class: &str) -> (r: Option<&C>)
        requires
            self.wf(),
        ensures
            match spec_resolve_class(self.fixtures_view().dom(), self.imports_view(), class@) {
                Some(k) => r is Some && *r->0 == self.fixtures_view()[k],
                None => r is None,
            },
    {
        if let Some(constructor) = self.fixtures.get(class) {
            return Some(constructor);
        }
        let n = self.imports.len();
        let mut i: usize = 0;
        while i < n
            invariant
                i <= n,
                n == self.imports@.len(),
                self.wf(),
                !self.fixtures_view().contains_key(class@),
                spec_resolve_imports(self.fixtures_view().dom(), self.imports_view(), class@, 0)
                    == spec_resolve_imports(
                    self.fixtures_view().dom(),
                    self.imports_view(),
                    class@,
                    i as int,
                ),
            decreases n - i,
        {
            let mut full = self.imports[i].clone();
            full.append(".");
            full.append(class);
            proof {
                assert(self.imports_view()[i as int] == self.imports@[i as int]@);
                assert(full@ =~= self.imports_view()[i as int] + "."@ + class@);
            }
            if let Some(constructor) = self.fixtures.get(full.as_str()) {
                proof {
                    assert(spec_resolve_imports(
                        self.fixtures_view().dom(),
                        self.imports_view(),
                        class@,
                        i as int,
                    ) == Some(full@));
                }
                return Some(constructor);
            }
            i += 1;
        }
        None
    }

    /// Substitute symbols into one string, §4.3.1 style: find the next
    /// `$`, take the name up to the next space or the end, splice in the
    /// symbol's value (empty for an unknown symbol) and rescan, up to
    /// `SYMBOL_SUBSTITUTION_PASSES` times.
    pub fn parse_symbol(&self, value: String) -> (r: String)
        requires
            self.wf(),
        ensures
            r@ == spec_subst(self.symbols_view(), value@, SYMBOL_SUBSTITUTION_PASSES as nat),
    {
        let ghost symbols = self.symbols_view();
        let ghost orig = value@;
        let mut value = value;
        let mut passes: usize = 0;
        loop
            invariant
                self.wf(),
                symbols == self.symbols_view(),
                passes <= SYMBOL_SUBSTITUTION_PASSES,
                spec_subst(symbols, orig, SYMBOL_SUBSTITUTION_PASSES as nat) == spec_subst(
                    symbols,
                    value@,
                    (SYMBOL_SUBSTITUTION_PASSES - passes) as nat,
                ),
            ensures
                value@ == spec_subst(symbols, orig, SYMBOL_SUBSTITUTION_PASSES as nat),
            decreases SYMBOL_SUBSTITUTION_PASSES - passes,
        {
            if passes >= SYMBOL_SUBSTITUTION_PASSES {
                proof {
                    assert(spec_subst(symbols, value@, 0) == value@);
                }
                break ;
            }
            let ghost pre = value@;
            let len = value.as_str().unicode_len();
            let dollar = match crate::strutil::find_char(value.as_str(), '$', 0) {
                Some(d) => d,
                None => {
                    proof {
                        assert(spec_subst(
                            symbols,
                            value@,
                            (SYMBOL_SUBSTITUTION_PASSES - passes) as nat,
                        ) == value@);
                    }
                    break ;
                },
            };
            proof {
                crate::strutil::lemma_find_char_props(pre, '$', 0);
                crate::strutil::lemma_find_char_props(pre, ' ', dollar + 1);
                crate::strutil::lemma_find_char_skip(pre, ' ', dollar + 1);
            }
            let mut rebuilt = substring(value.as_str(), 0, dollar);
            match crate::strutil::find_char(value.as_str(), ' ', dollar + 1) {
                Some(space) => {
                    let name = substring(value.as_str(), dollar + 1, space);
                    if let Some(v) = self.symbols.get(name.as_str()) {
                        rebuilt.append(v.as_str());
                    }
                    let rest = substring(value.as_str(), space, len);
                    rebuilt.append(rest.as_str());
                    proof {
                        let after = pre.skip(dollar + 1);
                        assert(spec_find_char(after, ' ', 0) == Some(space - dollar - 1));
                        assert(name@ =~= after.take(space - dollar - 1));
                        assert(rest@ =~= after.skip(space - dollar - 1));
                        assert(rebuilt@ =~= spec_subst_once(symbols, pre));
                    }
                },
                None => {
                    let name = substring(value.as_str(), dollar + 1, len);
                    if let Some(v) = self.symbols.get(name.as_str()) {
                        rebuilt.append(v.as_str());
                    }
                    proof {
                        let after = pre.skip(dollar + 1);
                        assert(spec_find_char(after, ' ', 0) is None);
                        assert(name@ =~= after);
                        assert(rebuilt@ =~= spec_subst_once(symbols, pre));
                    }
                },
            }
            value = rebuilt;
            passes += 1;
        }
        value
    }

    /// Substitute symbols into every argument.
    pub fn parse_symbols(&self, args: Vec<String>) -> (r: Vec<String>)
        requires
            self.wf(),
        ensures
            r.deep_view() == spec_subst_all(
                self.symbols_view(),
                args.deep_view(),
                SYMBOL_SUBSTITUTION_PASSES as nat,
            ),
    {
        let ghost symbols = self.symbols_view();
        let ghost all = args.deep_view();
        let mut out: Vec<String> = Vec::new();
        let n = args.len();
        let mut i: usize = 0;
        proof {
            assert(out.deep_view() =~= Seq::<Seq<char>>::empty());
        }
        while i < n
            invariant
                i <= n,
                self.wf(),
                symbols == self.symbols_view(),
                all == args.deep_view(),
                n == all.len(),
                n == args@.len(),
                out.deep_view() =~= all.take(i as int).map_values(
                    |a: Seq<char>| spec_subst(symbols, a, SYMBOL_SUBSTITUTION_PASSES as nat),
                ),
            decreases n - i,
        {
            let ghost pre_out = out.deep_view();
            let arg = args[i].clone();
            let substituted = self.parse_symbol(arg);
            out.push(substituted);
            proof {
                assert(arg@ == all[i as int]);
                assert(out.deep_view() =~= pre_out.push(
                    spec_subst(symbols, all[i as int], SYMBOL_SUBSTITUTION_PASSES as nat),
                ));
                assert(all.take(i + 1) =~= all.take(i as int).push(all[i as int]));
                assert(out.deep_view() =~= all.take(i + 1).map_values(
                    |a: Seq<char>| spec_subst(symbols, a, SYMBOL_SUBSTITUTION_PASSES as nat),
                ));
            }
            i += 1;
        }
        proof {
            assert(all.take(n as int) =~= all);
        }
        out
    }
}

/// Strip one leading `$` from a symbol name.
pub fn strip_dollar(s: String) -> (r: String)
    ensures
        r@ == spec_strip_dollar(s@),
{
    let len = s.as_str().unicode_len();
    if len > 0 && s.as_str().get_char(0) == '$' {
        substring(s.as_str(), 1, len)
    } else {
        s
    }
}

/// The result reported for one fixture-call outcome: the reserved void
/// sentinel becomes `Void`, any other returned string becomes `Text`, and a
/// dispatch failure becomes an `Exception` carrying the failure's wire text.
pub open spec fn spec_call_result(id: Seq<char>, outcome: Result<String, ExecuteMethodError>) -> SpecInstructionResult {
    match outcome {
        Ok(value) => if value@ == "/__VOID__/"@ {
            SpecInstructionResult::Void { id }
        } else {
            SpecInstructionResult::Text { id, value: value@ }
        },
        Err(error) => SpecInstructionResult::Exception {
            id,
            message: spec_execute_method_error_message(error),
        },
    }
}

/// Map one fixture outcome to the result reported at the instruction's
/// position in the batch.
pub fn call_result(id: Id, outcome: Result<String, ExecuteMethodError>) -> (r: InstructionResult)
    ensures
        r@ == spec_call_result(id@, outcome),
{
    match outcome {
        Ok(value) => {
            if crate::strutil::str_eq_str(value.as_str(), "/__VOID__/") {
                InstructionResult::Void { id }
            } else {
                InstructionResult::Text { id, value }
            }
        },
        Err(error) => {
            let message = error.message();
            InstructionResult::Exception { id, message: ExceptionMessage::new(message) }
        },
    }
}

impl<C, F> SlimServer<C, F> where C: Constructor<F>, F: SlimFixture {
    /// Look the instance up in the namespace its name selects, dispatch the
    /// call, store the fixture back, and (for `CallAndAssign`) record the
    /// outcome under the symbol.
    fn do_call(
        &mut self,
        id: Id,
        instance: String,
        function: String,
        args: Vec<String>,
        symbol: Option<String>,
    ) -> (r: InstructionResult)
        requires
            old(self).wf(),
        ensures
            final(self).wf(),
            final(self).fixtures_view() == old(self).fixtures_view(),
            final(self).imports_view() == old(self).imports_view(),
            spec_result_id(r@) == id@,
            ({
                let lib = spec_is_library(instance@);
                let table = if lib {
                    old(self).libraries_view()
                } else {
                    old(self).instances_view()
                };
                if !table.contains_key(instance@) {
                    &&& r@ == SpecInstructionResult::Exception {
                        id: id@,
                        message: "NO_INSTANCE: "@ + instance@,
                    }
                    &&& final(self).instances_view() == old(self).instances_view()
                    &&& final(self).libraries_view() == old(self).libraries_view()
                    &&& final(self).symbols_view() == old(self).symbols_view()
                } else {
                    &&& (exists|o: Result<String, ExecuteMethodError>|
                        r@ == spec_call_result(id@, o))
                    &&& (if lib {
                        &&& (exists|f: F|
                            final(self).libraries_view() == old(self).libraries_view().insert(
                                instance@,
                                f,
                            ))
                        &&& final(self).instances_view() == old(self).instances_view()
                    } else {
                        &&& (exists|f: F|
                            final(self).instances_view() == old(self).instances_view().insert(
                                instance@,
                                f,
                            ))
                        &&& final(self).libraries_view() == old(self).libraries_view()
                    })
                    &&& (match symbol {
                        None => final(self).symbols_view() == old(self).symbols_view(),
                        Some(sym) => match r@ {
                            SpecInstructionResult::Void { .. } => final(self).symbols_view()
                                == old(self).symbols_view().insert(
                                spec_strip_dollar(sym@),
                                Seq::empty(),
                            ),
                            SpecInstructionResult::Text { value, .. } => final(self).symbols_view() == old(self).symbols_view().insert(
                                spec_strip_dollar(sym@),
                                value,
                            ),
                            _ => final(self).symbols_view() == old(self).symbols_view(),
                        },
                    })
                }
            }),
    {
        let args2 = self.parse_symbols(args);
        let function2 = to_snake_case(function.as_str());
        let lib = str_starts_with(instance.as_str(), "library");
        let fixture_opt = if lib {
            self.libraries.remove(instance.as_str())
        } else {
            self.instances.remove(instance.as_str())
        };
        let mut fixture = match fixture_opt {
            None => {
                proof {
                    assert(final(self).instances_view() =~= old(self).instances_view());
                    assert(final(self).libraries_view() =~= old(self).libraries_view());
                }
                let mut m = String::new();
                m.append("NO_INSTANCE: ");
                m.append(instance.as_str());
                proof {
                    assert(m@ =~= "NO_INSTANCE: "@ + instance@);
                }
                return InstructionResult::Exception { id, message: ExceptionMessage::new(m) };
            },
            Some(fixture) => fixture,
        };
        let outcome = fixture.execute_method(function2.as_str(), args2);
        let ghost o = outcome;
        let ghost fx2 = fixture;
        let ghost instancev = instance@;
        if lib {
            self.libraries.insert(instance, fixture);
            proof {
                assert(self.libraries_view() =~= old(self).libraries_view().insert(
                    instancev,
                    fx2,
                ));
                assert(exists|f: F|
                    self.libraries_view() == old(self).libraries_view().insert(instancev, f));
            }
        } else {
            self.instances.insert(instance, fixture);
            proof {
                assert(self.instances_view() =~= old(self).instances_view().insert(
                    instancev,
                    fx2,
                ));
                assert(exists|f: F|
                    self.instances_view() == old(self).instances_view().insert(instancev, f));
            }
        }
        let ghost mid_symbols = self.symbols_view();
        proof {
            assert(mid_symbols == old(self).symbols_view());
        }
        if let Some(sym) = symbol {
            if let Ok(value) = &outcome {
                let is_void = crate::strutil::str_eq_str(value.as_str(), "/__VOID__/");
                let name = strip_dollar(sym);
                let ghost namev = name@;
                let stored = if is_void {
                    String::new()
                } else {
                    value.clone()
                };
                let ghost storedv = stored@;
                self.symbols.insert(name, stored);
                proof {
                    assert(self.symbols_view() =~= mid_symbols.insert(namev, storedv));
                }
            }
        }
        let r = call_result(id, outcome);
        proof {
            assert(r@ == spec_call_result(id@, o));
            assert(exists|oo: Result<String, ExecuteMethodError>|
                r@ == spec_call_result(id@, oo));
        }
        r
    }

    /// Execute one instruction against the session state, yielding exactly
    /// one result that echoes the instruction's correlation token.
    pub fn execute_instruction(&mut self, instruction: Instruction) -> (r: InstructionResult)
        requires
            old(self).wf(),
        ensures
            final(self).wf(),
            final(self).fixtures_view() == old(self).fixtures_view(),
            spec_result_id(r@) == spec_instruction_id(instruction@),
            old(self).imports_view().is_prefix_of(final(self).imports_view()),
            old(self).symbols_view().dom() <= final(self).symbols_view().dom(),
            match instruction@ {
                SpecInstruction::Import { id, path } => {
                    &&& r@ == SpecInstructionResult::Okay { id }
                    &&& final(self).imports_view() == old(self).imports_view().push(path)
                    &&& final(self).instances_view() == old(self).instances_view()
                    &&& final(self).libraries_view() == old(self).libraries_view()
                    &&& final(self).symbols_view() == old(self).symbols_view()
                },
                SpecInstruction::Assign { id, symbol, value } => {
                    &&& r@ == SpecInstructionResult::Okay { id }
                    &&& final(self).symbols_view() == old(self).symbols_view().insert(
                        spec_strip_dollar(symbol),
                        value,
                    )
                    &&& final(self).imports_view() == old(self).imports_view()
                    &&& final(self).instances_view() == old(self).instances_view()
                    &&& final(self).libraries_view() == old(self).libraries_view()
                },
                SpecInstruction::Make { id, instance, class, args } => {
                    let class2 = spec_subst(
                        old(self).symbols_view(),
                        class,
                        SYMBOL_SUBSTITUTION_PASSES as nat,
                    );
                    &&& final(self).imports_view() == old(self).imports_view()
                    &&& final(self).symbols_view() == old(self).symbols_view()
                    &&& match spec_resolve_class(
                        old(self).fixtures_view().dom(),
                        old(self).imports_view(),
                        class2,
                    ) {
                        None => {
                            &&& r@ == SpecInstructionResult::Exception {
                                id,
                                message: "NO CLASS: "@ + class2,
                            }
                            &&& final(self).instances_view() == old(self).instances_view()
                            &&& final(self).libraries_view() == old(self).libraries_view()
                        },
                        Some(_) => {
                            &&& r@ == SpecInstructionResult::Okay { id }
                            &&& (if spec_is_library(instance) {
                                &&& (exists|f: F|
                                    final(self).libraries_view() == old(self).libraries_view().insert(instance, f))
                                &&& final(self).instances_view() == old(self).instances_view()
                            } else {
                                &&& (exists|f: F|
                                    final(self).instances_view() == old(self).instances_view().insert(instance, f))
                                &&& final(self).libraries_view() == old(self).libraries_view()
                            })
                        },
                    }
                },
                SpecInstruction::Call { id, instance, .. } => {
                    let lib = spec_is_library(instance);
                    let table = if lib {
                        old(self).libraries_view()
                    } else {
                        old(self).instances_view()
                    };
                    &&& final(self).imports_view() == old(self).imports_view()
                    &&& final(self).symbols_view() == old(self).symbols_view()
                    &&& if !table.contains_key(instance) {
                        &&& r@ == SpecInstructionResult::Exception {
                            id,
                            message: "NO_INSTANCE: "@ + instance,
                        }
                        &&& final(self).instances_view() == old(self).instances_view()
                        &&& final(self).libraries_view() == old(self).libraries_view()
                    } else {
                        &&& (exists|o: Result<String, ExecuteMethodError>|
                            r@ == spec_call_result(id, o))
                        &&& (if lib {
                            &&& (exists|f: F|
                                final(self).libraries_view() == old(self).libraries_view().insert(instance, f))
                            &&& final(self).instances_view() == old(self).instances_view()
                        } else {
                            &&& (exists|f: F|
                                final(self).instances_view() == old(self).instances_view().insert(instance, f))
                            &&& final(self).libraries_view() == old(self).libraries_view()
                        })
                    }
                },
                SpecInstruction::CallAndAssign { id, symbol, instance, .. } => {
                    let lib = spec_is_library(instance);
                    let table = if lib {
                        old(self).libraries_view()
                    } else {
                        old(self).instances_view()
                    };
                    &&& final(self).imports_view() == old(self).imports_view()
                    &&& if !table.contains_key(instance) {
                        &&& r@ == SpecInstructionResult::Exception {
                            id,
                            message: "NO_INSTANCE: "@ + instance,
                        }
                        &&& final(self).instances_view() == old(self).instances_view()
                        &&& final(self).libraries_view() == old(self).libraries_view()
                        &&& final(self).symbols_view() == old(self).symbols_view()
                    } else {
                        &&& (exists|o: Result<String, ExecuteMethodError>|
                            r@ == spec_call_result(id, o))
                        &&& (if lib {
                            &&& (exists|f: F|
                                final(self).libraries_view() == old(self).libraries_view().insert(instance, f))
                            &&& final(self).instances_view() == old(self).instances_view()
                        } else {
                            &&& (exists|f: F|
                                final(self).instances_view() == old(self).instances_view().insert(instance, f))
                            &&& final(self).libraries_view() == old(self).libraries_view()
                        })
                        &&& (match r@ {
                            SpecInstructionResult::Void { .. } => final(self).symbols_view()
                                == old(self).symbols_view().insert(
                                spec_strip_dollar(symbol),
                                Seq::empty(),
                            ),
                            SpecInstructionResult::Text { value, .. } => final(self).symbols_view() == old(self).symbols_view().insert(
                                spec_strip_dollar(symbol),
                                value,
                            ),
                            _ => final(self).symbols_view() == old(self).symbols_view(),
                        })
                    }
                },
            },
    {
        match instruction {
            Instruction::Import { id, path } => {
                let ghost pre = self.imports.deep_view();
                self.imports.push(path);
                proof {
                    assert(self.imports_view() =~= pre.push(self.imports@.last()@));
                }
                InstructionResult::Okay { id }
            },
            Instruction::Assign { id, symbol, value } => {
                let ghost pre = self.symbols_view();
                let name = strip_dollar(symbol);
                let ghost namev = name@;
                let ghost valuev = value@;
                self.symbols.insert(name, value);
                proof {
                    assert(self.symbols_view() =~= pre.insert(namev, valuev));
                }
                InstructionResult::Okay { id }
            },
            Instruction::Make { id, instance, class, args } => {
                let class2 = self.parse_symbol(class);
                let args2 = self.parse_symbols(args);
                let made = match self.find_fixture(class2.as_str()) {
                    None => None,
                    Some(constructor) => Some(constructor.construct(args2)),
                };
                match made {
                    None => {
                        let mut m = String::new();
                        m.append("NO CLASS: ");
                        m.append(class2.as_str());
                        proof {
                            assert(m@ =~= "NO CLASS: "@ + class2@);
                        }
                        InstructionResult::Exception { id, message: ExceptionMessage::new(m) }
                    },
                    Some(fixture) => {
                        let ghost pre_instances = self.instances_view();
                        let ghost pre_libraries = self.libraries_view();
                        let ghost fx = fixture;
                        let ghost instancev = instance@;
                        if str_starts_with(instance.as_str(), "library") {
                            self.libraries.insert(instance, fixture);
                            proof {
                                assert(self.libraries_view() == pre_libraries.insert(
                                    instancev,
                                    fx,
                                ));
                            }
                        } else {
                            self.instances.insert(instance, fixture);
                            proof {
                                assert(self.instances_view() == pre_instances.insert(
                                    instancev,
                                    fx,
                                ));
                            }
                        }
                        InstructionResult::Okay { id }
                    },
                }
            },
            Instruction::Call { id, instance, function, args } => {
                self.do_call(id, instance, function, args, None)
            },
            Instruction::CallAndAssign { id, symbol, instance, function, args } => {
                self.do_call(id, instance, function, args, Some(symbol))
            },
        }
    }

    /// Execute a whole batch in order: exactly one result per instruction,
    /// at the same position, each echoing its instruction's token; later
    /// instructions observe the state changes of earlier ones.
    pub fn execute_instructions(&mut self, instructions: Vec<Instruction>) -> (results: Vec<
        InstructionResult,
    >)
        requires
            old(self).wf(),
        ensures
            final(self).wf(),
            final(self).fixtures_view() == old(self).fixtures_view(),
            results@.len() == instructions@.len(),
            forall|i: int|
                0 <= i < results@.len() ==> spec_result_id(#[trigger] results@[i]@)
                    == spec_instruction_id(instructions@[i]@),
            old(self).imports_view().is_prefix_of(final(self).imports_view()),
            old(self).symbols_view().dom() <= final(self).symbols_view().dom(),
    {
        let ghost all = instructions@;
        let mut rest = instructions;
        let mut results: Vec<InstructionResult> = Vec::new();
        let mut i: usize = 0;
        let n = rest.len();
        while i < n
            invariant
                i <= n,
                self.wf(),
                self.fixtures_view() == old(self).fixtures_view(),
                old(self).imports_view().is_prefix_of(self.imports_view()),
                old(self).symbols_view().dom() <= self.symbols_view().dom(),
                n == all.len(),
                rest@ =~= all.skip(i as int),
                results@.len() == i,
                forall|j: int|
                    0 <= j < i ==> spec_result_id(#[trigger] results@[j]@) == spec_instruction_id(
                        all[j]@,
                    ),
            decreases n - i,
        {
            let instruction = rest.remove(0);
            proof {
                assert(instruction == all[i as int]);
                assert(rest@ =~= all.skip(i + 1));
            }
            let result = self.execute_instruction(instruction);
            results.push(result);
            i += 1;
        }
        results
    }
}

/// A complete top-level frame consumes at least seven characters.
proof fn lemma_read_bye_bounds(s: Seq<char>)
    ensures
        match crate::slim_deserialize::spec_read_bye_or_instructions(s) {
            Some(v) => 7 <= v.1 <= s.len(),
            None => true,
        },
{
    crate::slim_deserialize::lemma_read_len_bounds(s);
    if crate::slim_deserialize::spec_read_len(s) is Some {
        let (_outer, p) = crate::slim_deserialize::spec_read_len(s).unwrap();
        if p < s.len() && s[p] == '[' {
            crate::slim_deserialize::lemma_read_len_bounds(s.skip(p + 1));
            if crate::slim_deserialize::spec_read_len(s.skip(p + 1)) is Some {
                let (n, q) = crate::slim_deserialize::spec_read_len(s.skip(p + 1)).unwrap();
                crate::slim_deserialize::lemma_read_instructions_bounds(s.skip(p + 1 + q), n);
            }
        }
    }
}

/// The instruction batches of a whole session: one batch per frame, in
/// order, up to the bye frame.  A session whose text holds a malformed
/// frame, or that never reaches a bye frame, has no batch list.
pub open spec fn spec_session(s: Seq<char>) -> Option<Seq<Seq<SpecInstruction>>>
    decreases s.len(),
{
    match crate::slim_deserialize::spec_read_bye_or_instructions(s) {
        None => None,
        Some((frame, p)) => match frame {
            crate::SpecByeOrInstructions::Bye => Some(Seq::empty()),
            crate::SpecByeOrInstructions::Instructions(batch) => {
                if 1 <= p <= s.len() {
                    match spec_session(s.skip(p)) {
                        None => None,
                        Some(batches) => Some(seq![batch] + batches),
                    }
                } else {
                    None
                }
            },
        },
    }
}

/// The concatenated wire frames of a sequence of result batches.
pub open spec fn spec_cat_result_frames(rss: Seq<Seq<SpecInstructionResult>>) -> Seq<char>
    decreases rss.len(),
{
    if rss.len() == 0 {
        Seq::empty()
    } else {
        crate::slim_serialize::spec_enc_result_list(rss[0]) + spec_cat_result_frames(rss.skip(1))
    }
}

/// Appending one more frame appends its encoding.
proof fn lemma_cat_result_frames_snoc(
    rss: Seq<Seq<SpecInstructionResult>>,
    rs: Seq<SpecInstructionResult>,
)
    ensures
        spec_cat_result_frames(rss.push(rs)) == spec_cat_result_frames(rss)
            + crate::slim_serialize::spec_enc_result_list(rs),
    decreases rss.len(),
{
    if rss.len() == 0 {
        assert(rss.push(rs)[0] == rs);
        assert(rss.push(rs).skip(1) =~= Seq::<Seq<SpecInstructionResult>>::empty());
        assert(spec_cat_result_frames(rss.push(rs))
            == crate::slim_serialize::spec_enc_result_list(rs) + spec_cat_result_frames(
            rss.push(rs).skip(1),
        ));
        assert(spec_cat_result_frames(rss.push(rs)) =~= spec_cat_result_frames(rss)
            + crate::slim_serialize::spec_enc_result_list(rs));
    } else {
        assert(rss.push(rs).skip(1) =~= rss.skip(1).push(rs));
        assert(rss.push(rs)[0] == rss[0]);
        lemma_cat_result_frames_snoc(rss.skip(1), rs);
        assert(spec_cat_result_frames(rss.push(rs))
            == crate::slim_serialize::spec_enc_result_list(rss[0]) + (spec_cat_result_frames(
            rss.skip(1),
        ) + crate::slim_serialize::spec_enc_result_list(rs)));
        assert(crate::slim_serialize::spec_enc_result_list(rss[0]) + (spec_cat_result_frames(
            rss.skip(1),
        ) + crate::slim_serialize::spec_enc_result_list(rs)) =~= spec_cat_result_frames(rss)
            + crate::slim_serialize::spec_enc_result_list(rs));
    }
}

/// One result batch answers one instruction batch: same length, and the
/// result at each position echoes the token of the instruction there.
pub open spec fn spec_batch_answers(
    results: Seq<SpecInstructionResult>,
    batch: Seq<SpecInstruction>,
) -> bool {
    &&& results.len() == batch.len()
    &&& forall|j: int|
        0 <= j < results.len() ==> spec_result_id(#[trigger] results[j]) == spec_instruction_id(
            batch[j],
        )
}

impl<C, F> SlimServer<C, F> where C: Constructor<F>, F: SlimFixture {
    /// Serve one whole session held in `input`: write the greeting, then
    /// decode one frame at a time, executing each instruction batch and
    /// appending its encoded result batch, until the `bye` frame ends the
    /// session cleanly.  The session succeeds exactly when every frame
    /// decodes and a bye frame ends it; the output is then the greeting
    /// followed by one encoded result batch per instruction batch, in
    /// order, each answering its batch position by position.
    pub fn run(&mut self, input: &str) -> (r: Result<String, SlimServerError>)
        requires
            old(self).wf(),
        ensures
            final(self).wf(),
            final(self).fixtures_view() == old(self).fixtures_view(),
            match spec_session(input@) {
                None => r is Err,
                Some(batches) => r is Ok && exists|rss: Seq<Seq<SpecInstructionResult>>|
                    {
                        &&& rss.len() == batches.len()
                        &&& (forall|i: int|
                            0 <= i < rss.len() ==> spec_batch_answers(
                                #[trigger] rss[i],
                                batches[i],
                            ))
                        &&& r->Ok_0@ == "Slim -- V0.5\n"@ + spec_cat_result_frames(rss)
                    },
            },
    {
        let mut output = String::new();
        output.append("Slim -- V0.5\n");
        let ghost greeting = output@;
        let ghost mut done: Seq<Seq<SpecInstruction>> = Seq::empty();
        let ghost mut frames: Seq<Seq<SpecInstructionResult>> = Seq::empty();
        let len = input.unicode_len();
        let mut pos: usize = 0;
        proof {
            assert(input@.skip(0) =~= input@);
            assert(greeting + spec_cat_result_frames(frames) =~= greeting);
        }
        loop
            invariant
                self.wf(),
                self.fixtures_view() == old(self).fixtures_view(),
                pos <= len,
                len == input@.len(),
                greeting == "Slim -- V0.5\n"@,
                output@ == greeting + spec_cat_result_frames(frames),
                done.len() == frames.len(),
                forall|i: int|
                    0 <= i < frames.len() ==> spec_batch_answers(#[trigger] frames[i], done[i]),
                match spec_session(input@.skip(pos as int)) {
                    Some(bs) => spec_session(input@) == Some(done + bs),
                    None => spec_session(input@) is None,
                },
            decreases len - pos,
        {
            let ghost pre = input@.skip(pos as int);
            proof {
                lemma_read_bye_bounds(pre);
            }
            match crate::slim_deserialize::read_bye_or_instructions(input, pos) {
                Err(e) => {
                    proof {
                        assert(spec_session(pre) is None);
                    }
                    return Err(SlimServerError::FromSlimReaderError(e));
                },
                Ok((crate::ByeOrSlimInstructions::Bye, _end)) => {
                    proof {
                        assert(spec_session(pre) == Some(Seq::<Seq<SpecInstruction>>::empty()));
                        assert(done + Seq::<Seq<SpecInstruction>>::empty() =~= done);
                        assert(spec_session(input@) == Some(done));
                    }
                    return Ok(output);
                },
                Ok((crate::ByeOrSlimInstructions::Instructions(instructions), end)) => {
                    let ghost sp = crate::slim_deserialize::spec_read_bye_or_instructions(
                        pre,
                    ).unwrap();
                    let ghost batch = instructions.deep_view();
                    let results = self.execute_instructions(instructions);
                    let frame = crate::slim_serialize::results_to_slim_string(&results);
                    output.append(frame.as_str());
                    proof {
                        lemma_cat_result_frames_snoc(frames, results.deep_view());
                        frames = frames.push(results.deep_view());
                        done = done.push(batch);
                        assert(output@ =~= greeting + spec_cat_result_frames(frames));
                        assert(spec_batch_answers(results.deep_view(), batch)) by {
                            assert(forall|j: int|
                                0 <= j < results@.len() ==> results.deep_view()[j]
                                    == #[trigger] results@[j]@);
                            assert(forall|j: int|
                                0 <= j < instructions@.len() ==> batch[j]
                                    == #[trigger] instructions@[j]@);
                        }
                        vstd::seq_lib::lemma_seq_skip_of_skip(input@, pos as int, sp.1);
                        assert(pre.skip(sp.1) =~= input@.skip(pos + sp.1));
                        match spec_session(input@.skip(end as int)) {
                            Some(bs) => {
                                assert(spec_session(pre) == Some(seq![batch] + bs));
                                assert(done.drop_last() + (seq![batch] + bs) =~= done + bs);
                            },
                            None => {
                                assert(spec_session(pre) is None);
                            },
                        }
                    }
                    pos = end;
                },
            }
        }
    }
}

} // verus!
