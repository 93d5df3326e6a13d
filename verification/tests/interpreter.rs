//! The instruction interpreter driven through whole batches, with small
//! fixtures implemented here.

use slim_protocol::server::{Constructor, ExecuteMethodError, SlimFixture, SlimServer};
use slim_protocol::{Id, Instruction, InstructionResult};

struct TestFixture {
    return_value: Result<String, ExecuteMethodError>,
}

impl SlimFixture for TestFixture {
    fn execute_method(
        &mut self,
        method: &str,
        args: Vec<String>,
    ) -> Result<String, ExecuteMethodError> {
        match method {
            "echo" => Ok(args.join(",")),
            _ => self.return_value.clone(),
        }
    }
}

struct TestConstructor {
    return_value: Result<String, ExecuteMethodError>,
}

impl Constructor<TestFixture> for TestConstructor {
    fn construct(&self, _args: Vec<String>) -> TestFixture {
        TestFixture { return_value: self.return_value.clone() }
    }
}

fn test_server() -> SlimServer<TestConstructor, TestFixture> {
    let mut server: SlimServer<TestConstructor, TestFixture> = SlimServer::new();
    server.add_fixture(
        "Test.TestFixture".to_string(),
        TestConstructor { return_value: Ok("Value".to_string()) },
    );
    server
}

fn assert_okay(result: &InstructionResult, id: &str) {
    match result {
        InstructionResult::Okay { id: got } => assert_eq!(&Id::from(id), got),
        other => panic!("expected OK, got {:?}", other),
    }
}

fn assert_text(result: &InstructionResult, id: &str, value: &str) {
    match result {
        InstructionResult::Text { id: got, value: got_value } => {
            assert_eq!(&Id::from(id), got);
            assert_eq!(value, got_value);
        },
        other => panic!("expected a value, got {:?}", other),
    }
}

fn assert_void(result: &InstructionResult, id: &str) {
    match result {
        InstructionResult::Void { id: got } => assert_eq!(&Id::from(id), got),
        other => panic!("expected VOID, got {:?}", other),
    }
}

fn assert_exception(result: &InstructionResult, id: &str, message: &str) {
    match result {
        InstructionResult::Exception { id: got, message: got_message } => {
            assert_eq!(&Id::from(id), got);
            assert_eq!(message, got_message.raw_message());
        },
        other => panic!("expected an exception, got {:?}", other),
    }
}

#[test]
fn execute_import() {
    let mut slim_server = test_server();
    let result = slim_server.execute_instructions(vec![
        Instruction::Import { id: Id::from("id_1"), path: "ExamplePath1".into() },
        Instruction::Import { id: Id::from("id_2"), path: "ExamplePath2".into() },
    ]);
    assert_eq!(
        &vec!["ExamplePath1".to_string(), "ExamplePath2".to_string()],
        slim_server.imports()
    );
    assert_eq!(2, result.len());
    assert_okay(&result[0], "id_1");
    assert_okay(&result[1], "id_2");
}

#[test]
fn execute_make() {
    let mut slim_server = test_server();
    let result = slim_server.execute_instructions(vec![
        Instruction::Make {
            id: Id::from("m_1"),
            instance: "Instance1".into(),
            class: "Test.TestFixture".into(),
            args: Vec::new(),
        },
        Instruction::Make {
            id: Id::from("m_2"),
            instance: "Instance2".into(),
            class: "Test.TestFixture".into(),
            args: Vec::new(),
        },
        Instruction::Make {
            id: Id::from("m_3"),
            instance: "libraryInstance".into(),
            class: "Test.TestFixture".into(),
            args: Vec::new(),
        },
    ]);
    assert_eq!(2, slim_server.instance_count());
    assert!(slim_server.has_instance("Instance1"));
    assert!(slim_server.has_instance("Instance2"));
    assert_eq!(1, slim_server.library_count());
    assert!(slim_server.has_library("libraryInstance"));
    assert_eq!(3, result.len());
    assert_okay(&result[0], "m_1");
    assert_okay(&result[1], "m_2");
    assert_okay(&result[2], "m_3");
}

#[test]
fn execute_call() {
    let mut slim_server = test_server();
    let result = slim_server.execute_instructions(vec![
        Instruction::Make {
            id: Id::from("m_1"),
            instance: "Instance".into(),
            class: "Test.TestFixture".into(),
            args: Vec::new(),
        },
        Instruction::Make {
            id: Id::from("m_2"),
            instance: "libraryInstance".into(),
            class: "Test.TestFixture".into(),
            args: Vec::new(),
        },
        Instruction::Call {
            id: Id::from("c_1"),
            instance: "Instance".into(),
            function: "echo".into(),
            args: vec!["Arg".into()],
        },
        Instruction::Call {
            id: Id::from("c_2"),
            instance: "libraryInstance".into(),
            function: "echo".into(),
            args: vec!["Arg1".into(), "Arg2".into()],
        },
    ]);
    assert_eq!(4, result.len());
    assert_okay(&result[0], "m_1");
    assert_okay(&result[1], "m_2");
    assert_text(&result[2], "c_1", "Arg");
    assert_text(&result[3], "c_2", "Arg1,Arg2");
}

#[test]
fn execute_call_and_assign() {
    let mut slim_server = test_server();
    let result = slim_server.execute_instructions(vec![
        Instruction::Make {
            id: Id::from("m_1"),
            instance: "Instance".into(),
            class: "Test.TestFixture".into(),
            args: Vec::new(),
        },
        Instruction::Make {
            id: Id::from("m_2"),
            instance: "libraryInstance".into(),
            class: "Test.TestFixture".into(),
            args: Vec::new(),
        },
        Instruction::CallAndAssign {
            id: Id::from("ca_1"),
            symbol: "$Symbol1".into(),
            instance: "Instance".into(),
            function: "echo".into(),
            args: vec!["Arg".into()],
        },
        Instruction::Call {
            id: Id::from("c_1"),
            instance: "Instance".into(),
            function: "echo".into(),
            args: vec!["$Symbol1 in symbol".into()],
        },
        Instruction::CallAndAssign {
            id: Id::from("ca_2"),
            symbol: "$Symbol2".into(),
            instance: "libraryInstance".into(),
            function: "echo".into(),
            args: vec!["LibraryArg".into()],
        },
        Instruction::Call {
            id: Id::from("c_2"),
            instance: "libraryInstance".into(),
            function: "echo".into(),
            args: vec!["$Symbol2".into(), "Arg2".into()],
        },
    ]);
    assert_eq!(6, result.len());
    assert_okay(&result[0], "m_1");
    assert_okay(&result[1], "m_2");
    assert_text(&result[2], "ca_1", "Arg");
    assert_text(&result[3], "c_1", "Arg in symbol");
    assert_text(&result[4], "ca_2", "LibraryArg");
    assert_text(&result[5], "c_2", "LibraryArg,Arg2");
}

#[test]
fn execute_assign() {
    let mut slim_server = test_server();
    let result = slim_server.execute_instructions(vec![
        Instruction::Make {
            id: Id::from("m_1"),
            instance: "Instance".into(),
            class: "Test.TestFixture".into(),
            args: Vec::new(),
        },
        Instruction::Assign {
            id: Id::from("a_1"),
            symbol: "$Symbol".into(),
            value: "Value".into(),
        },
        Instruction::Call {
            id: Id::from("c_1"),
            instance: "Instance".into(),
            function: "echo".into(),
            args: vec!["$Symbol in symbol".into()],
        },
    ]);
    assert_eq!(3, result.len());
    assert_okay(&result[0], "m_1");
    assert_okay(&result[1], "a_1");
    assert_text(&result[2], "c_1", "Value in symbol");
}

#[test]
fn integration() {
    let mut slim_server = test_server();
    let output = slim_server
        .run("000068:[000001:000051:[000003:000004:id_1:000006:import:000008:TestPath:]:]000003:bye")
        .expect("a clean session");
    assert_eq!("Slim -- V0.5\n000048:[000001:000031:[000002:000004:id_1:000002:OK:]:]", output);
}

#[test]
fn parse_symbol_with_no_symbol() {
    let slim_server = test_server();
    assert_eq!("No symbol", slim_server.parse_symbol(String::from("No symbol")));
    assert_eq!("", slim_server.parse_symbol(String::from("")));
}

#[test]
fn parse_symbol_with_symbol_not_in_symbol_list() {
    let slim_server = test_server();
    assert_eq!("", slim_server.parse_symbol(String::from("$symbol")));
    assert_eq!("Test ", slim_server.parse_symbol(String::from("Test $symbol")));
}

#[test]
fn parse_symbol() {
    let mut slim_server = test_server();
    slim_server.execute_instructions(vec![
        Instruction::Assign {
            id: Id::from("a_1"),
            symbol: "symbol".into(),
            value: "Symbol Value".into(),
        },
        Instruction::Assign {
            id: Id::from("a_2"),
            symbol: "symbol2".into(),
            value: "Symbol Value 2".into(),
        },
    ]);
    assert_eq!("Symbol Value", slim_server.parse_symbol(String::from("$symbol")));
    assert_eq!("Test Symbol Value", slim_server.parse_symbol(String::from("Test $symbol")));
    assert_eq!(
        "Test Symbol Value and another Symbol Value 2",
        slim_server.parse_symbol(String::from("Test $symbol and another $symbol2"))
    );
}

#[test]
fn find_fixture_should_prioritize_an_exact_match() {
    let mut slim_server: SlimServer<TestConstructor, TestFixture> = SlimServer::new();
    slim_server.add_fixture(
        "ExamplePathFixutre".to_string(),
        TestConstructor { return_value: Ok("First".to_string()) },
    );
    slim_server.add_fixture(
        "Namespace.ExamplePathFixutre".to_string(),
        TestConstructor { return_value: Ok("Second".to_string()) },
    );
    slim_server.execute_instructions(vec![Instruction::Import {
        id: Id::from("i_1"),
        path: "Namespace".into(),
    }]);
    let mut result = slim_server
        .find_fixture("ExamplePathFixutre")
        .expect("a registered fixture")
        .construct(Vec::new());
    assert_eq!(Ok("First".to_string()), result.execute_method("", Vec::new()));
}

#[test]
fn find_fixture_should_use_the_imports() {
    let mut slim_server: SlimServer<TestConstructor, TestFixture> = SlimServer::new();
    slim_server.add_fixture(
        "Namespace1.ExamplePathFixutre".to_string(),
        TestConstructor { return_value: Ok("First".to_string()) },
    );
    slim_server.add_fixture(
        "Namespace2.ExamplePathFixutre".to_string(),
        TestConstructor { return_value: Ok("Second".to_string()) },
    );
    slim_server.execute_instructions(vec![
        Instruction::Import { id: Id::from("i_1"), path: "Namespace2".into() },
        Instruction::Import { id: Id::from("i_2"), path: "Namespace1".into() },
    ]);
    let mut result = slim_server
        .find_fixture("ExamplePathFixutre")
        .expect("a registered fixture")
        .construct(Vec::new());
    assert_eq!(Ok("Second".to_string()), result.execute_method("", Vec::new()));
}

#[test]
fn make_with_unknown_class_registers_nothing() {
    let mut slim_server = test_server();
    let result = slim_server.execute_instructions(vec![
        Instruction::Make {
            id: Id::from("m_1"),
            instance: "broken".into(),
            class: "X".into(),
            args: Vec::new(),
        },
        Instruction::Call {
            id: Id::from("c_1"),
            instance: "broken".into(),
            function: "echo".into(),
            args: Vec::new(),
        },
    ]);
    assert_eq!(2, result.len());
    assert_exception(&result[0], "m_1", "NO CLASS: X");
    assert_exception(&result[1], "c_1", "NO_INSTANCE: broken");
    assert!(!slim_server.has_instance("broken"));
    assert!(!slim_server.has_library("broken"));
}

#[test]
fn instance_and_library_namespaces_never_collide() {
    let mut slim_server = test_server();
    let result = slim_server.execute_instructions(vec![
        Instruction::Make {
            id: Id::from("m_1"),
            instance: "i".into(),
            class: "Test.TestFixture".into(),
            args: Vec::new(),
        },
        Instruction::Make {
            id: Id::from("m_2"),
            instance: "libraryI".into(),
            class: "Test.TestFixture".into(),
            args: Vec::new(),
        },
        Instruction::Call {
            id: Id::from("c_1"),
            instance: "i".into(),
            function: "echo".into(),
            args: vec!["plain".into()],
        },
        Instruction::Call {
            id: Id::from("c_2"),
            instance: "libraryI".into(),
            function: "echo".into(),
            args: vec!["library".into()],
        },
    ]);
    assert_eq!(1, slim_server.instance_count());
    assert_eq!(1, slim_server.library_count());
    assert!(slim_server.has_instance("i"));
    assert!(!slim_server.has_instance("libraryI"));
    assert!(slim_server.has_library("libraryI"));
    assert!(!slim_server.has_library("i"));
    assert_text(&result[2], "c_1", "plain");
    assert_text(&result[3], "c_2", "library");
}

struct Calculator {
    a: i64,
    b: i64,
}

impl SlimFixture for Calculator {
    fn execute_method(
        &mut self,
        method: &str,
        args: Vec<String>,
    ) -> Result<String, ExecuteMethodError> {
        match method {
            "set_a" => {
                self.a = args[0].parse().map_err(|_| {
                    ExecuteMethodError::ArgumentParsingError("0".to_string())
                })?;
                Ok("/__VOID__/".to_string())
            },
            "set_b" => {
                self.b = args[0].parse().map_err(|_| {
                    ExecuteMethodError::ArgumentParsingError("0".to_string())
                })?;
                Ok("/__VOID__/".to_string())
            },
            "sum" => Ok((self.a + self.b).to_string()),
            _ => Err(ExecuteMethodError::MethodNotFound {
                method: method.to_string(),
                class: "Fixtures.Calculator".to_string(),
            }),
        }
    }
}

struct CalculatorConstructor;

impl Constructor<Calculator> for CalculatorConstructor {
    fn construct(&self, _args: Vec<String>) -> Calculator {
        Calculator { a: 0, b: 0 }
    }
}

#[test]
fn calculator_batch_through_imports() {
    let mut slim_server: SlimServer<CalculatorConstructor, Calculator> = SlimServer::new();
    slim_server.add_fixture("Fixtures.Calculator".to_string(), CalculatorConstructor);
    let result = slim_server.execute_instructions(vec![
        Instruction::Import { id: Id::from("id_1"), path: "Fixtures".into() },
        Instruction::Make {
            id: Id::from("id_2"),
            instance: "calc".into(),
            class: "Calculator".into(),
            args: Vec::new(),
        },
        Instruction::Call {
            id: Id::from("id_3"),
            instance: "calc".into(),
            function: "setA".into(),
            args: vec!["3".into()],
        },
        Instruction::Call {
            id: Id::from("id_4"),
            instance: "calc".into(),
            function: "setB".into(),
            args: vec!["4".into()],
        },
        Instruction::Call {
            id: Id::from("id_5"),
            instance: "calc".into(),
            function: "sum".into(),
            args: Vec::new(),
        },
    ]);
    assert_eq!(5, result.len());
    assert_okay(&result[0], "id_1");
    assert_okay(&result[1], "id_2");
    assert_void(&result[2], "id_3");
    assert_void(&result[3], "id_4");
    assert_text(&result[4], "id_5", "7");
}

#[test]
fn method_not_found_is_reported_in_wire_form() {
    let mut slim_server: SlimServer<CalculatorConstructor, Calculator> = SlimServer::new();
    slim_server.add_fixture("Fixtures.Calculator".to_string(), CalculatorConstructor);
    let result = slim_server.execute_instructions(vec![
        Instruction::Make {
            id: Id::from("m_1"),
            instance: "calc".into(),
            class: "Fixtures.Calculator".into(),
            args: Vec::new(),
        },
        Instruction::Call {
            id: Id::from("c_1"),
            instance: "calc".into(),
            function: "reset".into(),
            args: Vec::new(),
        },
    ]);
    assert_exception(&result[1], "c_1", "NO_METHOD_IN_CLASS reset Fixtures.Calculator");
}

#[test]
fn argument_parsing_failure_is_reported_in_wire_form() {
    let mut slim_server: SlimServer<CalculatorConstructor, Calculator> = SlimServer::new();
    slim_server.add_fixture("Fixtures.Calculator".to_string(), CalculatorConstructor);
    let result = slim_server.execute_instructions(vec![
        Instruction::Make {
            id: Id::from("m_1"),
            instance: "calc".into(),
            class: "Fixtures.Calculator".into(),
            args: Vec::new(),
        },
        Instruction::Call {
            id: Id::from("c_1"),
            instance: "calc".into(),
            function: "setA".into(),
            args: vec!["not a number".into()],
        },
    ]);
    assert_exception(&result[1], "c_1", "NO_CONVERTER_FOR_ARGUMENT_NUMBER 0");
}

#[test]
fn assigned_symbol_substitutes_inside_arguments() {
    let mut slim_server = test_server();
    let result = slim_server.execute_instructions(vec![
        Instruction::Make {
            id: Id::from("m_1"),
            instance: "echoer".into(),
            class: "Test.TestFixture".into(),
            args: Vec::new(),
        },
        Instruction::Assign { id: Id::from("a_1"), symbol: "$x".into(), value: "42".into() },
        Instruction::Call {
            id: Id::from("c_1"),
            instance: "echoer".into(),
            function: "echo".into(),
            args: vec!["prefix $x suffix".into()],
        },
    ]);
    assert_okay(&result[1], "a_1");
    assert_text(&result[2], "c_1", "prefix 42 suffix");
}

#[test]
fn make_resolves_through_earliest_import() {
    let mut slim_server: SlimServer<TestConstructor, TestFixture> = SlimServer::new();
    slim_server.add_fixture(
        "Namespace1.X".to_string(),
        TestConstructor { return_value: Ok("First".to_string()) },
    );
    slim_server.add_fixture(
        "Namespace2.X".to_string(),
        TestConstructor { return_value: Ok("Second".to_string()) },
    );
    let result = slim_server.execute_instructions(vec![
        Instruction::Import { id: Id::from("i_1"), path: "Namespace2".into() },
        Instruction::Import { id: Id::from("i_2"), path: "Namespace1".into() },
        Instruction::Make {
            id: Id::from("m_1"),
            instance: "x".into(),
            class: "X".into(),
            args: Vec::new(),
        },
        Instruction::Call {
            id: Id::from("c_1"),
            instance: "x".into(),
            function: "which".into(),
            args: Vec::new(),
        },
    ]);
    assert_okay(&result[2], "m_1");
    assert_text(&result[3], "c_1", "Second");
}

#[test]
fn bye_only_session_writes_just_the_greeting() {
    let mut slim_server = test_server();
    let output = slim_server.run("000003:bye").expect("a clean session");
    assert_eq!("Slim -- V0.5\n", output);
}

#[test]
fn malformed_frame_aborts_the_session() {
    let mut slim_server = test_server();
    assert!(slim_server.run("garbage").is_err());
    assert!(slim_server.run("000005:[oops").is_err());
}

#[test]
fn make_substitutes_symbols_into_the_class_name() {
    let mut slim_server = test_server();
    let result = slim_server.execute_instructions(vec![
        Instruction::Assign {
            id: Id::from("a_1"),
            symbol: "$class".into(),
            value: "Test.TestFixture".into(),
        },
        Instruction::Make {
            id: Id::from("m_1"),
            instance: "made".into(),
            class: "$class".into(),
            args: Vec::new(),
        },
    ]);
    assert_okay(&result[1], "m_1");
    assert!(slim_server.has_instance("made"));
}
