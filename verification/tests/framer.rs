//! The framer on its own: chunked feeding, CRLF split across chunks, and
//! the waiting state.

use minicache::connection::Connection;
use minicache::error::ParseError;
use minicache::instruction::Instruction;

/// Drains the framer, collecting each command or error until more bytes
/// are needed.
fn drain(conn: &mut Connection) -> Vec<Result<Instruction, String>> {
    let mut outs = Vec::new();
    loop {
        match conn.read_instruction() {
            Ok(ins) => outs.push(Ok(ins)),
            Err(ParseError::InsufficientData) => break,
            Err(e) => outs.push(Err(e.message().to_string())),
        }
    }
    outs
}

/// A short printable tag for one framer output, for comparisons.
fn tag(out: &Result<Instruction, String>) -> String {
    match out {
        Ok(Instruction::Put { key, expiry, data_size, data }) => {
            format!("set {} {} {} {:?}", key, expiry, data_size, data)
        }
        Ok(Instruction::Get { key }) => format!("get {}", key),
        Ok(Instruction::Append { key, expiry, data_size, data }) => {
            format!("append {} {} {} {:?}", key, expiry, data_size, data)
        }
        Ok(Instruction::Prepend { key, expiry, data_size, data }) => {
            format!("prepend {} {} {} {:?}", key, expiry, data_size, data)
        }
        Ok(Instruction::Add { key, expiry, data_size, data }) => {
            format!("add {} {} {} {:?}", key, expiry, data_size, data)
        }
        Ok(Instruction::Replace { key, expiry, data_size, data }) => {
            format!("replace {} {} {} {:?}", key, expiry, data_size, data)
        }
        Err(e) => format!("err {}", e),
    }
}

/// Feeds the stream in the given chunking and returns the tags of every
/// output.
fn outputs_for_chunks(chunks: &[&[u8]]) -> Vec<String> {
    let mut conn = Connection::new();
    let mut outs = Vec::new();
    for chunk in chunks {
        conn.feed(chunk);
        outs.extend(drain(&mut conn).iter().map(tag));
    }
    outs
}

#[test]
fn reassembly_is_chunking_independent() {
    let stream = b"set foo 7 5\r\nhello\r\nget foo\r\nadd bar 0 2\r\nhi\r\nnonsense\r\nget bar\r\n";
    let whole = outputs_for_chunks(&[stream.as_slice()]);
    assert_eq!(whole.len(), 5);
    // one byte at a time
    let bytes: Vec<&[u8]> = stream.chunks(1).collect();
    assert_eq!(outputs_for_chunks(&bytes), whole);
    // a few uneven cuts
    for cut in [1usize, 3, 12, 13, 20, 40, 64] {
        let (a, b) = stream.split_at(cut);
        assert_eq!(outputs_for_chunks(&[a, b]), whole, "cut at {}", cut);
    }
}

#[test]
fn crlf_split_across_chunks() {
    let mut conn = Connection::new();
    conn.feed(b"get foo\r");
    assert!(matches!(conn.read_instruction(), Err(ParseError::InsufficientData)));
    conn.feed(b"\n");
    match conn.read_instruction() {
        Ok(Instruction::Get { key }) => assert_eq!(key, "foo"),
        other => panic!("unexpected: {:?}", other),
    }
}

#[test]
fn header_then_payload_in_separate_reads() {
    let mut conn = Connection::new();
    conn.feed(b"set k 2 3\r\n");
    assert!(matches!(conn.read_instruction(), Err(ParseError::InsufficientData)));
    conn.feed(b"abc\r\n");
    match conn.read_instruction() {
        Ok(Instruction::Put { key, expiry, data_size, data }) => {
            assert_eq!(key, "k");
            assert_eq!(expiry, 2);
            assert_eq!(data_size, 3);
            assert_eq!(data, b"abc".to_vec());
        }
        other => panic!("unexpected: {:?}", other),
    }
}

#[test]
fn payload_may_hold_any_bytes_but_crlf() {
    let mut conn = Connection::new();
    conn.feed(b"set k 0 4\r\n");
    conn.feed(&[0xff, 0x00, 0x0d, 0x61]);
    conn.feed(b"\r\n");
    match conn.read_instruction() {
        Ok(Instruction::Put { data, .. }) => assert_eq!(data, vec![0xff, 0x00, 0x0d, 0x61]),
        other => panic!("unexpected: {:?}", other),
    }
}

#[test]
fn non_utf8_header_line_is_invalid() {
    let mut conn = Connection::new();
    conn.feed(&[0xff, 0xfe, 0x0d, 0x0a]);
    match conn.read_instruction() {
        Err(e) => assert_eq!(e.message(), "INVALID INSTRUCION"),
        other => panic!("unexpected: {:?}", other),
    }
}

#[test]
fn bad_integer_fields_are_invalid() {
    for header in ["set k x 3\r\n", "set k 0 y\r\n", "set k 0\r\n", "set\r\n", "get\r\n"] {
        let mut conn = Connection::new();
        conn.feed(header.as_bytes());
        match conn.read_instruction() {
            Err(e) => assert_eq!(e.message(), "INVALID INSTRUCION", "header {:?}", header),
            other => panic!("unexpected for {:?}: {:?}", header, other),
        }
    }
}

#[test]
fn size_mismatch_keeps_waiting_state() {
    let mut conn = Connection::new();
    conn.feed(b"set k 0 5\r\nhi\r\n");
    match conn.read_instruction() {
        Err(e) => assert_eq!(e.message(), "INVALID DATA"),
        other => panic!("unexpected: {:?}", other),
    }
    // still waiting: the next line of five bytes completes the command
    conn.feed(b"hello\r\n");
    match conn.read_instruction() {
        Ok(Instruction::Put { data, .. }) => assert_eq!(data, b"hello".to_vec()),
        other => panic!("unexpected: {:?}", other),
    }
}

#[test]
fn get_line_extracts_first_line() {
    let mut buffer = b"one\r\ntwo\r\nrest".to_vec();
    let line = minicache::connection::get_line(&mut buffer).unwrap();
    assert_eq!(line, b"one".to_vec());
    assert_eq!(buffer, b"two\r\nrest".to_vec());
    let line = minicache::connection::get_line(&mut buffer).unwrap();
    assert_eq!(line, b"two".to_vec());
    assert_eq!(buffer, b"rest".to_vec());
    assert!(minicache::connection::get_line(&mut buffer).is_err());
    assert_eq!(buffer, b"rest".to_vec());
}

#[test]
fn extra_tokens_after_fields_are_ignored() {
    let mut conn = Connection::new();
    conn.feed(b"get foo extra stuff\r\n");
    match conn.read_instruction() {
        Ok(Instruction::Get { key }) => assert_eq!(key, "foo"),
        other => panic!("unexpected: {:?}", other),
    }
}

#[test]
fn manual_waiting_state() {
    let mut conn = Connection::new();
    let header = Instruction::Put {
        key: "k".to_string(),
        expiry: 0,
        data_size: 2,
        data: Vec::new(),
    };
    conn.set_waiting(header, 2);
    conn.feed(b"hi\r\n");
    match conn.read_instruction() {
        Ok(Instruction::Put { data, .. }) => assert_eq!(data, b"hi".to_vec()),
        other => panic!("unexpected: {:?}", other),
    }

    let mut conn = Connection::new();
    let header = Instruction::Put {
        key: "k".to_string(),
        expiry: 0,
        data_size: 5,
        data: Vec::new(),
    };
    conn.set_waiting(header, 5);
    conn.clear_waiting();
    conn.feed(b"get k\r\n");
    match conn.read_instruction() {
        Ok(Instruction::Get { key }) => assert_eq!(key, "k"),
        other => panic!("unexpected: {:?}", other),
    }
}
