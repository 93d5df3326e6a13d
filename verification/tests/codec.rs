//! The wire codec, exercised on concrete frames.

use slim_protocol::slim_deserialize::{read_string, read_string_list};
use slim_protocol::slim_serialize::{slice_to_slim_string, SlimString, ToSlimString};
use slim_protocol::tokenizer::{Token, Tokenizer};

#[test]
fn test_empty_string() {
    assert_eq!(SlimString("000000:".into()), "".to_slim_string());
}

#[test]
fn test_hello_world() {
    assert_eq!(SlimString("000011:hello world".into()), "hello world".to_slim_string());
}

#[test]
fn slim_serialize_test_string() {
    assert_eq!(SlimString("000011:hello world".into()), String::from("hello world").to_slim_string());
}

#[test]
fn test_empty_array() {
    let array: Vec<String> = Vec::new();
    assert_eq!(SlimString("000009:[000000:]".into()), array.to_slim_string());
}

#[test]
fn test_array() {
    let values: Vec<String> = vec!["one".into(), "two".into()];
    assert_eq!(SlimString("000031:[000002:000003:one:000003:two:]".into()), values.to_slim_string());
}

#[test]
fn test_vec_and_slice() {
    let vec: Vec<String> = vec!["one".into(), "two".into()];
    assert_eq!(
        SlimString("000031:[000002:000003:one:000003:two:]".into()),
        slice_to_slim_string(vec.as_slice())
    );
    assert_eq!(SlimString("000031:[000002:000003:one:000003:two:]".into()), vec.to_slim_string());
}

#[test]
fn read_empty_string() {
    let (value, next) = read_string("000000:", 0).expect("a scalar");
    assert_eq!(String::new(), value);
    assert_eq!(7, next);
}

#[test]
fn slim_deserialize_read_empty_string() {
    let (value, _) = read_string("000000:", 0).expect("a scalar");
    assert_eq!(String::new(), value);
}

#[test]
fn slim_deserialize_read_string() {
    let (value, _) = read_string("000011:Hello world", 0).expect("a scalar");
    assert_eq!(String::from("Hello world"), value);
}

#[test]
fn read_empty_vec() {
    let (values, _) = read_string_list("000009:[000000:]", 0).expect("a list");
    assert_eq!(Vec::<String>::new(), values);
}

#[test]
fn slim_deserialize_read_empty_vec() {
    let (values, next) = read_string_list("000009:[000000:]", 0).expect("a list");
    assert_eq!(Vec::<String>::new(), values);
    assert_eq!(16, next);
}

#[test]
fn read_vec() {
    let (values, _) = read_string_list("000041:[000002:000008:Element1:000008:Element2:]", 0)
        .expect("a list");
    assert_eq!(vec!["Element1".to_string(), "Element2".to_string()], values);
}

#[test]
fn slim_deserialize_read_vec() {
    let (values, _) = read_string_list("000041:[000002:000008:Element1:000008:Element2:]", 0)
        .expect("a list");
    assert_eq!(vec!["Element1".to_string(), "Element2".to_string()], values);
}

#[test]
fn read_with_incorrect_values() {
    let err = read_string_list("000009:[000000:A]", 0).expect_err("Expected error");
    assert_eq!("Expected ] but got A", err.message());
}

#[test]
fn codec_round_trip_on_encoded_list() {
    let values: Vec<String> = vec!["first value".into(), "".into(), "third:with:colons".into()];
    let encoded = values.to_slim_string();
    let (decoded, consumed) = read_string_list(encoded.as_str(), 0).expect("its own encoding");
    assert_eq!(values, decoded);
    assert_eq!(encoded.as_str().chars().count(), consumed);
}

#[test]
fn test_tokenizer() {
    let mut tokenizer = Tokenizer::new("000005:hello000005:world".to_string());
    let tokens = tokenizer.collect_all().expect("two tokens");
    assert_eq!(2, tokens.len());
    match &tokens[0] {
        Token::Text(s) => assert_eq!("hello", s),
        Token::List(_) => panic!("expected a scalar"),
    }
    match &tokens[1] {
        Token::Text(s) => assert_eq!("world", s),
        Token::List(_) => panic!("expected a scalar"),
    }
}

#[test]
fn tokenizer_test_complex_list() {
    let mut tokenizer = Tokenizer::new(
        "000066:[000003:000005:hello:000005:world:000023:[000001:000006:silver:]:]".to_string(),
    );
    let tokens = tokenizer.collect_all().expect("one nested list");
    assert_eq!(1, tokens.len());
    match &tokens[0] {
        Token::List(items) => {
            assert_eq!(3, items.len());
            match &items[0] {
                Token::Text(s) => assert_eq!("hello", s),
                Token::List(_) => panic!("expected a scalar"),
            }
            match &items[1] {
                Token::Text(s) => assert_eq!("world", s),
                Token::List(_) => panic!("expected a scalar"),
            }
            match &items[2] {
                Token::List(inner) => {
                    assert_eq!(1, inner.len());
                    match &inner[0] {
                        Token::Text(s) => assert_eq!("silver", s),
                        Token::List(_) => panic!("expected a scalar"),
                    }
                },
                Token::Text(_) => panic!("expected a nested list"),
            }
        },
        Token::Text(_) => panic!("expected a list"),
    }
}

#[test]
fn tokenizer_rejects_wrong_size() {
    let mut tokenizer = Tokenizer::new("000007:Exampl".to_string());
    assert!(tokenizer.collect_all().is_err());
}

#[test]
fn tokenizer_rejects_missing_digits() {
    let mut tokenizer = Tokenizer::new("abc".to_string());
    assert!(tokenizer.collect_all().is_err());
}

#[test]
fn token_get_string() {
    let token = Token::Text("Example".to_string());
    assert_eq!("Example", token.get_string().expect("a scalar"));
    let list = Token::List(Vec::new());
    assert!(list.get_string().is_err());
}

#[test]
fn length_fields_are_zero_padded() {
    let long = "x".repeat(1234567);
    let encoded = long.to_slim_string();
    assert!(encoded.0.starts_with("1234567:"));
    let short = "abc".to_slim_string();
    assert!(short.0.starts_with("000003:"));
}

#[test]
fn tokenizer_test_string() {
    let (token, _) = slim_protocol::tokenizer::parse_token("000007:Example", 0).expect("a scalar");
    match token {
        Token::Text(s) => assert_eq!("Example", s),
        Token::List(_) => panic!("expected a scalar"),
    }
}

#[test]
fn tokenizer_test_empty_string() {
    let (token, _) = slim_protocol::tokenizer::parse_token("000000:", 0).expect("a scalar");
    match token {
        Token::Text(s) => assert_eq!(String::new(), s),
        Token::List(_) => panic!("expected a scalar"),
    }
}

#[test]
fn test_list() {
    let (token, _) = slim_protocol::tokenizer::parse_token(
        "000035:[000002:000005:hello:000005:world:]",
        0,
    )
    .expect("a list");
    match token {
        Token::List(items) => {
            assert_eq!(2, items.len());
            match &items[0] {
                Token::Text(s) => assert_eq!("hello", s),
                Token::List(_) => panic!("expected a scalar"),
            }
            match &items[1] {
                Token::Text(s) => assert_eq!("world", s),
                Token::List(_) => panic!("expected a scalar"),
            }
        },
        Token::Text(_) => panic!("expected a list"),
    }
}

#[test]
fn length_fields_shorter_than_six_digits_are_rejected() {
    assert!(read_string("00011:Hello world", 0).is_err());
    assert!(read_string("11:Hello world", 0).is_err());
}

#[test]
fn oversized_length_values_are_rejected() {
    assert!(read_string("99999999999999999999999:x", 0).is_err());
}

#[test]
fn read_string_with_special_chars() {
    let (value, _) = read_string("000023:Tipo de evento inválido", 0).expect("a scalar");
    assert_eq!(String::from("Tipo de evento inválido"), value);
}
