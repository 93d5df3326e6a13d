//! Handshake, round trips and teardown on the client side, plus the small
//! protocol-adjacent helpers.

use slim_protocol::connection::SlimConnection;
use slim_protocol::slim_deserialize::read_instruction_result;
use slim_protocol::slim_serialize::{SlimString, ToSlimString};
use slim_protocol::InstructionResultValue;
use slim_protocol::port::CyclePort;
use slim_protocol::server::ExecuteMethodError;
use slim_protocol::to_slim_result_string::{iterator_to_slim_result_string, ToSlimResultString};
use slim_protocol::utils::from_rust_module_path_to_class_path;
use slim_protocol::{ExceptionMessage, Id, Instruction, InstructionResult, SlimVersion};

#[test]
fn test_simple_connection() {
    let mut connection =
        SlimConnection::new("Slim -- V0.5\n".to_string()).expect("an accepted greeting");
    assert_eq!(SlimVersion::V0_5, connection.version());
    connection.close();
    assert_eq!("000003:bye".to_string(), connection.written_text().to_string());
}

#[test]
fn mod_test_simple_connection() {
    let mut connection =
        SlimConnection::new("Slim -- V0.5\n".to_string()).expect("an accepted greeting");
    assert_eq!(SlimVersion::V0_5, connection.version());
    connection.close();
    assert_eq!("000003:bye".to_string(), connection.written_text().to_string());
}

#[test]
fn close_sends_bye_exactly_once() {
    let mut connection =
        SlimConnection::new("Slim -- V0.5\n".to_string()).expect("an accepted greeting");
    connection.close();
    connection.close();
    assert_eq!("000003:bye", connection.written_text());
}

#[test]
fn test_send_instructions_connection() {
    let mut connection = SlimConnection::new(
        "Slim -- V0.5\n000197:[000003:000053:[000002:000026:01HFM0NQM3ZS6BBX0ZH6VA6DJX:000002:OK:]:000055:[000002:000026:01HFM0NQM3ZS6BBX0ZH6VA6DJX:000004:null:]:000056:[000002:000026:01HFM0NQM3ZS6BBX0ZH6VA6DJX:000005:Hello:]:]".to_string(),
    )
    .expect("an accepted greeting");
    let id = Id::from("01HFM0NQM3ZS6BBX0ZH6VA6DJX");
    let result = connection
        .send_instructions(&vec![
            Instruction::Import { id: id.clone(), path: "Path".into() },
            Instruction::Call {
                id: id.clone(),
                instance: "Instance".into(),
                function: "Function".into(),
                args: Vec::new(),
            },
            Instruction::Call {
                id: id.clone(),
                instance: "Instance".into(),
                function: "Function".into(),
                args: Vec::new(),
            },
        ])
        .expect("one result batch");
    connection.close();
    assert_eq!(3, result.len());
    match &result[0] {
        InstructionResult::Okay { id: got } => assert_eq!(&id, got),
        other => panic!("expected OK, got {:?}", other),
    }
    match &result[1] {
        InstructionResult::Text { id: got, value } => {
            assert_eq!(&id, got);
            assert_eq!("null", value);
        },
        other => panic!("expected a value, got {:?}", other),
    }
    match &result[2] {
        InstructionResult::Text { id: got, value } => {
            assert_eq!(&id, got);
            assert_eq!("Hello", value);
        },
        other => panic!("expected a value, got {:?}", other),
    }
    assert_eq!(
        "000276:[000003:000069:[000003:000026:01HFM0NQM3ZS6BBX0ZH6VA6DJX:000006:import:000004:Path:]:000087:[000004:000026:01HFM0NQM3ZS6BBX0ZH6VA6DJX:000004:call:000008:Instance:000008:Function:]:000087:[000004:000026:01HFM0NQM3ZS6BBX0ZH6VA6DJX:000004:call:000008:Instance:000008:Function:]:]000003:bye".to_string(),
        connection.written_text().to_string()
    );
}

#[test]
fn rejects_unknown_version() {
    let err = SlimConnection::new("Slim -- V9.9\n".to_string())
        .err()
        .expect("an unrecognized version");
    match err {
        slim_protocol::connection::NewSlimConnectionError::SlimVersionReadError(
            slim_protocol::SlimVersionReadError::NotRecognized(token),
        ) => assert_eq!("V9.9", token),
        other => panic!("expected a version failure, got {:?}", other),
    }
}

#[test]
fn rejects_greeting_without_separator() {
    let err = SlimConnection::new("Slim xx V0.5\n".to_string())
        .err()
        .expect("a malformed greeting");
    assert!(matches!(
        err,
        slim_protocol::connection::NewSlimConnectionError::SlimVersionReadError(
            slim_protocol::SlimVersionReadError::Invalid,
        )
    ));
}

#[test]
fn rejects_short_greeting() {
    let err = SlimConnection::new("Slim".to_string()).err().expect("a truncated greeting");
    assert!(matches!(err, slim_protocol::connection::NewSlimConnectionError::UnexpectedEof));
}

#[test]
fn version_from_str_accepts_all_three() {
    assert!(matches!(SlimVersion::from_str("Slim -- V0.3\n"), Ok(SlimVersion::V0_3)));
    assert!(matches!(SlimVersion::from_str("Slim -- V0.4\n"), Ok(SlimVersion::V0_4)));
    assert!(matches!(SlimVersion::from_str("Slim -- V0.5\n"), Ok(SlimVersion::V0_5)));
}

#[test]
fn pretty_message_extracts_delimited_span() {
    let message = ExceptionMessage::new("Some Exception message:<<Message>>".to_string());
    assert_eq!("Message", message.pretty_message().expect("a delimited span"));
    assert_eq!("Some Exception message:<<Message>>", message.raw_message());
}

#[test]
fn pretty_message_without_span_is_raw() {
    let message = ExceptionMessage::new("Plain text".to_string());
    assert_eq!("Plain text", message.pretty_message().expect("the raw text"));
}

#[test]
fn pretty_message_with_unclosed_span_fails() {
    let message = ExceptionMessage::new("message:<<never closed".to_string());
    assert!(message.pretty_message().is_err());
}

#[test]
fn fresh_ids_have_ulid_shape() {
    let id = Id::new();
    assert_eq!(26, id.as_str().chars().count());
    assert_ne!(Id::new().as_str(), "");
}

#[test]
fn cycle_port_wraps_to_base() {
    let mut port = CyclePort::new(8090, 8085, 6);
    assert_eq!(8090, port.to_port());
    port.new_port();
    assert_eq!(8091, port.to_port());
    port.new_port();
    assert_eq!(8085, port.to_port());
}

#[test]
fn numbers_render_in_decimal() {
    assert_eq!(Ok("7".to_string()), 7u64.to_slim_result_string());
    assert_eq!(Ok("1234567890".to_string()), 1234567890u64.to_slim_result_string());
    assert_eq!(Ok("-42".to_string()), (-42i64).to_slim_result_string());
    assert_eq!(Ok("0".to_string()), 0usize.to_slim_result_string());
    assert_eq!(Ok("true".to_string()), true.to_slim_result_string());
}

#[test]
fn unit_renders_as_void_sentinel() {
    assert_eq!(Ok("/__VOID__/".to_string()), ().to_slim_result_string());
}

#[test]
fn absent_value_renders_as_null() {
    let absent: Option<String> = None;
    assert_eq!(Ok("null".to_string()), absent.to_slim_result_string());
    assert_eq!(
        Ok("present".to_string()),
        Some("present".to_string()).to_slim_result_string()
    );
}

#[test]
fn failed_result_becomes_execution_error() {
    let failed: Result<String, String> = Err("boom".to_string());
    assert_eq!(
        Err(ExecuteMethodError::ExecutionError("boom".to_string())),
        failed.to_slim_result_string()
    );
}

#[test]
fn collections_render_with_array_marker() {
    let parts: Vec<String> = vec!["1".into(), "2".into()];
    assert_eq!(
        Ok("/__ARRAY[1__|__2]__/".to_string()),
        iterator_to_slim_result_string(&parts)
    );
}

#[test]
fn module_paths_become_class_paths() {
    assert_eq!(
        "Examples.Calculator.Fixtures",
        from_rust_module_path_to_class_path("examples::calculator::fixtures")
    );
    assert_eq!("MyFixture", from_rust_module_path_to_class_path("my_fixture"));
}

#[test]
fn slim_deserialize_read_instruction_result() {
    let id = Id::from("01HFM0NQM3ZS6BBX0ZH6VA6DJX");
    let (result, _) = read_instruction_result(
        "000053:[000002:000026:01HFM0NQM3ZS6BBX0ZH6VA6DJX:000002:OK:]",
        0,
    )
    .expect("an OK result");
    assert!(matches!(result, InstructionResult::Okay { id: ref got } if got == &id));
    let (result, _) = read_instruction_result(
        "000061:[000002:000026:01HFM0NQM3ZS6BBX0ZH6VA6DJX:000010:/__VOID__/:]",
        0,
    )
    .expect("a void result");
    assert!(matches!(result, InstructionResult::Void { id: ref got } if got == &id));
    let (result, _) = read_instruction_result(
        "000055:[000002:000026:01HFM0NQM3ZS6BBX0ZH6VA6DJX:000004:null:]",
        0,
    )
    .expect("a plain value");
    assert!(
        matches!(result, InstructionResult::Text { id: ref got, ref value } if got == &id && value == "null")
    );
    let (result, _) = read_instruction_result(
        "000056:[000002:000026:01HFM0NQM3ZS6BBX0ZH6VA6DJX:000005:Value:]",
        0,
    )
    .expect("a plain value");
    assert!(
        matches!(result, InstructionResult::Text { id: ref got, ref value } if got == &id && value == "Value")
    );
    let (result, _) = read_instruction_result(
        "000056:[000002:000026:01HFM0NQM3ZS6BBX0ZH6VA6DJX:000039:[000002:000007:Value 1:000007:Value 2:]:]",
        0,
    )
    .expect("a list result");
    match result {
        InstructionResult::List { id: got, values } => {
            assert_eq!(id, got);
            assert_eq!(2, values.len());
            assert!(matches!(&values[0], InstructionResultValue::Text(v) if v == "Value 1"));
            assert!(matches!(&values[1], InstructionResultValue::Text(v) if v == "Value 2"));
        },
        other => panic!("expected a list, got {:?}", other),
    }
    let (result, _) = read_instruction_result(
        "000073:[000002:000026:01HFM0NQM3ZS6BBX0ZH6VA6DJX:0000021:__EXCEPTION__:Message:]",
        0,
    )
    .expect("an exception");
    assert!(
        matches!(result, InstructionResult::Exception { id: ref got, ref message } if got == &id && message.raw_message() == "Message")
    );
    let (result, _) = read_instruction_result(
        "000100:[000002:000026:01HFM0NQM3ZS6BBX0ZH6VA6DJX:0000048:__EXCEPTION__:Some Exception message:<<Message>>:]",
        0,
    )
    .expect("an exception");
    match result {
        InstructionResult::Exception { id: got, message } => {
            assert_eq!(id, got);
            assert_eq!("Some Exception message:<<Message>>", message.raw_message());
            assert_eq!("Message", message.pretty_message().expect("a delimited span"));
        },
        other => panic!("expected an exception, got {:?}", other),
    }
}

#[test]
fn test_instructions() {
    let id = Id::from("01HFM0NQM3ZS6BBX0ZH6VA6DJX");
    let batch: Vec<Instruction> = vec![
        Instruction::Import { id: id.clone(), path: "some_path".into() },
        Instruction::Make {
            id: id.clone(),
            instance: "instance".into(),
            class: "Class".into(),
            args: vec![],
        },
        Instruction::Make {
            id: id.clone(),
            instance: "instance".into(),
            class: "Class".into(),
            args: vec!["Arg1".into(), "Arg2".into()],
        },
        Instruction::Call {
            id: id.clone(),
            instance: "instance".into(),
            function: "function".into(),
            args: vec![],
        },
        Instruction::Call {
            id: id.clone(),
            instance: "instance".into(),
            function: "function".into(),
            args: vec!["Arg1".into(), "Arg2".into()],
        },
        Instruction::Assign { id: id.clone(), symbol: "Symbol".into(), value: "value".into() },
        Instruction::CallAndAssign {
            id: id.clone(),
            symbol: "symbol".into(),
            instance: "instance".into(),
            function: "function".into(),
            args: vec![],
        },
        Instruction::CallAndAssign {
            id: id.clone(),
            symbol: "symbol".into(),
            instance: "instance".into(),
            function: "function".into(),
            args: vec!["Arg1".into(), "Arg2".into()],
        },
    ];
    assert_eq!(
        SlimString("000865:[000008:000074:[000003:000026:01HFM0NQM3ZS6BBX0ZH6VA6DJX:000006:import:000009:some_path:]:000084:[000004:000026:01HFM0NQM3ZS6BBX0ZH6VA6DJX:000004:make:000008:instance:000005:Class:]:000108:[000006:000026:01HFM0NQM3ZS6BBX0ZH6VA6DJX:000004:make:000008:instance:000005:Class:000004:Arg1:000004:Arg2:]:000087:[000004:000026:01HFM0NQM3ZS6BBX0ZH6VA6DJX:000004:call:000008:instance:000008:function:]:000111:[000006:000026:01HFM0NQM3ZS6BBX0ZH6VA6DJX:000004:call:000008:instance:000008:function:000004:Arg1:000004:Arg2:]:000084:[000004:000026:01HFM0NQM3ZS6BBX0ZH6VA6DJX:000006:assign:000006:Symbol:000005:value:]:000110:[000005:000026:01HFM0NQM3ZS6BBX0ZH6VA6DJX:000013:callAndAssign:000006:symbol:000008:instance:000008:function:]:000134:[000007:000026:01HFM0NQM3ZS6BBX0ZH6VA6DJX:000013:callAndAssign:000006:symbol:000008:instance:000008:function:000004:Arg1:000004:Arg2:]:]".into()),
        batch.to_slim_string()
    );
}
