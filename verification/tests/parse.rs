//! The header-line parser and the completion helpers.

use minicache::error::ParseError;
use minicache::instruction::{complete_ins, parse_ins_with_data, parse_string, Instruction};
use minicache::text::{parse_u128_str, parse_usize_str, str_eq, u128_to_string};

#[test]
fn parse_get_line() {
    match parse_string("get foo".to_string()) {
        Ok(Instruction::Get { key }) => assert_eq!(key, "foo"),
        other => panic!("unexpected: {:?}", other),
    }
}

#[test]
fn parse_storage_header_waits_for_data() {
    match parse_string("set foo 30 5".to_string()) {
        Err(ParseError::InsufficientWaiting(Instruction::Put { key, expiry, data_size, data }, n)) => {
            assert_eq!(key, "foo");
            assert_eq!(expiry, 30);
            assert_eq!(data_size, 5);
            assert_eq!(n, 5);
            assert!(data.is_empty());
        }
        other => panic!("unexpected: {:?}", other),
    }
}

#[test]
fn parse_all_storage_verbs() {
    for verb in ["set", "add", "replace", "append", "prepend"] {
        let line = format!("{} k 0 1", verb);
        match parse_string(line) {
            Err(ParseError::InsufficientWaiting(_, 1)) => {}
            other => panic!("unexpected for {}: {:?}", verb, other),
        }
    }
}

#[test]
fn parse_rejects_missing_fields_and_bad_numbers() {
    for line in ["", "   ", "set", "set k", "set k 1", "set k -1 2", "set k 1 2x", "put k 1 2"] {
        match parse_string(line.to_string()) {
            Err(ParseError::InvalidInstruction) => {}
            other => panic!("unexpected for {:?}: {:?}", line, other),
        }
    }
}

#[test]
fn parse_accepts_extra_whitespace() {
    match parse_string("  set   foo\t7  3  trailing".to_string()) {
        Err(ParseError::InsufficientWaiting(Instruction::Put { key, expiry, data_size, .. }, _)) => {
            assert_eq!(key, "foo");
            assert_eq!(expiry, 7);
            assert_eq!(data_size, 3);
        }
        other => panic!("unexpected: {:?}", other),
    }
}

#[test]
fn complete_ins_fills_payload() {
    let header = Instruction::Add {
        key: "k".to_string(),
        expiry: 1,
        data_size: 2,
        data: Vec::new(),
    };
    match complete_ins(header, b"hi".to_vec()) {
        Instruction::Add { key, expiry, data_size, data } => {
            assert_eq!(key, "k");
            assert_eq!(expiry, 1);
            assert_eq!(data_size, 2);
            assert_eq!(data, b"hi".to_vec());
        }
        other => panic!("unexpected: {:?}", other),
    }
}

#[test]
fn complete_ins_leaves_get_alone() {
    match complete_ins(Instruction::Get { key: "k".to_string() }, b"x".to_vec()) {
        Instruction::Get { key } => assert_eq!(key, "k"),
        other => panic!("unexpected: {:?}", other),
    }
}

#[test]
fn parse_ins_with_data_completes_set() {
    match parse_ins_with_data("set k 0 5".to_string(), b"hello".to_vec()) {
        Ok(Instruction::Put { data, .. }) => assert_eq!(data, b"hello".to_vec()),
        other => panic!("unexpected: {:?}", other),
    }
}

#[test]
fn parse_ins_with_data_rejects_other_verbs() {
    for line in ["get k", "add k 0 1", "replace k 0 1", "frob"] {
        match parse_ins_with_data(line.to_string(), b"x".to_vec()) {
            Err(ParseError::InvalidInstruction) => {}
            other => panic!("unexpected for {:?}: {:?}", line, other),
        }
    }
}

#[test]
fn parse_u128_values() {
    assert_eq!(parse_u128_str("0"), Some(0));
    assert_eq!(parse_u128_str("30"), Some(30));
    assert_eq!(
        parse_u128_str("340282366920938463463374607431768211455"),
        Some(u128::MAX)
    );
    assert_eq!(parse_u128_str("340282366920938463463374607431768211456"), None);
    assert_eq!(parse_u128_str(""), None);
    assert_eq!(parse_u128_str("1x"), None);
    assert_eq!(parse_u128_str("-1"), None);
    assert_eq!(parse_u128_str("+1"), None);
}

#[test]
fn parse_usize_values() {
    assert_eq!(parse_usize_str("42"), Some(42));
    assert_eq!(parse_usize_str(&u128::MAX.to_string()), None);
}

#[test]
fn u128_to_string_renders_decimal() {
    assert_eq!(u128_to_string(0), "0");
    assert_eq!(u128_to_string(7), "7");
    assert_eq!(u128_to_string(30), "30");
    assert_eq!(u128_to_string(1900), "1900");
    assert_eq!(
        u128_to_string(u128::MAX),
        "340282366920938463463374607431768211455"
    );
}

#[test]
fn str_eq_compares_contents() {
    assert!(str_eq("set", "set"));
    assert!(!str_eq("set", "set "));
    assert!(!str_eq("set", "sea"));
    assert!(str_eq("", ""));
}

#[test]
fn parse_error_messages() {
    assert_eq!(ParseError::InsufficientData.message(), "INSUFFICIENT DATA");
    assert_eq!(ParseError::InvalidInstruction.message(), "INVALID INSTRUCION");
    assert_eq!(ParseError::InvalidData.message(), "INVALID DATA");
    let w = ParseError::InsufficientWaiting(Instruction::Get { key: "k".to_string() }, 0);
    assert_eq!(w.message(), "WAITING FOR DATA");
    assert_eq!(
        minicache::error::NetError::ConnClosedByClient.message(),
        "CONNECTION CLOSED BY CLIENT"
    );
}
