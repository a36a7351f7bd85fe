use redis_starter_rust::codec::{
    decode_request, decode_response, encode_array, encode_request, encode_response,
    split_spaces_of, Reply, RequestDecode, ResponseDecode, ResponseType,
};
use redis_starter_rust::decimal::{decimal_digits, parse_unsigned};

fn tokens_of(bytes: &[u8]) -> (Vec<String>, usize) {
    match decode_request(bytes) {
        RequestDecode::Complete(tokens, n) => (tokens, n),
        RequestDecode::Incomplete => panic!("incomplete"),
        RequestDecode::Invalid => panic!("invalid"),
    }
}

#[test]
fn encode_request_writes_array_of_bulk_strings() {
    assert_eq!(encode_request("PING"), b"*1\r\n$4\r\nPING\r\n".to_vec());
    assert_eq!(
        encode_request("SET k v PX 100"),
        b"*5\r\n$3\r\nSET\r\n$1\r\nk\r\n$1\r\nv\r\n$2\r\nPX\r\n$3\r\n100\r\n".to_vec()
    );
    assert_eq!(encode_request("a  b"), b"*3\r\n$1\r\na\r\n$0\r\n\r\n$1\r\nb\r\n".to_vec());
}

#[test]
fn encode_array_counts_bytes() {
    let tokens = vec!["é".as_bytes().to_vec(), Vec::new()];
    assert_eq!(encode_array(&tokens), b"*2\r\n$2\r\n\xc3\xa9\r\n$0\r\n\r\n".to_vec());
}

#[test]
fn split_spaces_keeps_empty_pieces() {
    assert_eq!(split_spaces_of(b""), vec![Vec::<u8>::new()]);
    assert_eq!(split_spaces_of(b" a"), vec![b"".to_vec(), b"a".to_vec()]);
    assert_eq!(split_spaces_of(b"ab cd"), vec![b"ab".to_vec(), b"cd".to_vec()]);
}

#[test]
fn encode_response_shapes() {
    assert_eq!(encode_response(&ResponseType::SimpleString("PONG".to_string())), b"+PONG\r\n".to_vec());
    assert_eq!(
        encode_response(&ResponseType::BulkString(Some("hello".to_string()))),
        b"$5\r\nhello\r\n".to_vec()
    );
    assert_eq!(encode_response(&ResponseType::BulkString(None)), b"$-1\r\n".to_vec());
    assert_eq!(
        encode_response(&ResponseType::SimpleError("ERR unknown command".to_string())),
        b"-ERR unknown command\r\n".to_vec()
    );
    assert_eq!(encode_response(&ResponseType::RdbFile(vec![0, 255, 13])), b"$3\r\n\x00\xff\r".to_vec());
    assert_eq!(
        encode_response(&ResponseType::RESPArray("REPLCONF ACK 0".to_string())),
        b"*3\r\n$8\r\nREPLCONF\r\n$3\r\nACK\r\n$1\r\n0\r\n".to_vec()
    );
}

#[test]
fn decode_request_reads_tokens() {
    let (tokens, n) = tokens_of(b"*2\r\n$4\r\nECHO\r\n$2\r\nhi\r\n");
    assert_eq!(tokens, vec!["ECHO".to_string(), "hi".to_string()]);
    assert_eq!(n, 22);
}

#[test]
fn decode_request_skips_one_blank_line() {
    let (tokens, n) = tokens_of(b"\r\n*1\r\n$4\r\nPING\r\n");
    assert_eq!(tokens, vec!["PING".to_string()]);
    assert_eq!(n, 16);
    assert!(matches!(decode_request(b"\r\n\r\n*1\r\n$4\r\nPING\r\n"), RequestDecode::Invalid));
}

#[test]
fn decode_request_leaves_following_bytes() {
    let (tokens, n) = tokens_of(b"*1\r\n$4\r\nPING\r\n*1\r\n$4\r\nPING\r\n");
    assert_eq!(tokens, vec!["PING".to_string()]);
    assert_eq!(n, 14);
}

#[test]
fn decode_request_is_binary_length_exact() {
    let (tokens, _) = tokens_of(b"*1\r\n$4\r\na\r\nb\r\n");
    assert_eq!(tokens, vec!["a\r\nb".to_string()]);
    let (tokens, _) = tokens_of("*1\r\n$2\r\né\r\n".as_bytes());
    assert_eq!(tokens, vec!["é".to_string()]);
}

#[test]
fn decode_request_incomplete() {
    assert!(matches!(decode_request(b""), RequestDecode::Incomplete));
    assert!(matches!(decode_request(b"*2\r\n$4\r\nECHO\r\n"), RequestDecode::Incomplete));
    assert!(matches!(decode_request(b"*1\r\n$4\r\nPI"), RequestDecode::Incomplete));
    assert!(matches!(decode_request(b"*1"), RequestDecode::Incomplete));
}

#[test]
fn decode_request_invalid() {
    assert!(matches!(decode_request(b"+OK\r\n"), RequestDecode::Invalid));
    assert!(matches!(decode_request(b"*x\r\n"), RequestDecode::Invalid));
    assert!(matches!(decode_request(b"*1\r\n$x\r\nPING\r\n"), RequestDecode::Invalid));
    assert!(matches!(decode_request(b"*1\r\n*1\r\n$4\r\nPING\r\n"), RequestDecode::Invalid));
    assert!(matches!(decode_request(b"*1\r\n$4\r\nPINGxx"), RequestDecode::Invalid));
    assert!(matches!(decode_request(b"*1\r\n$1\r\n\xff\r\n"), RequestDecode::Invalid));
}

#[test]
fn encode_then_decode_round_trip() {
    for text in ["PING", "ECHO hello", "SET k v PX 100", "GET naïve", "REPLCONF capa psync2"] {
        let frame = encode_request(text);
        let (tokens, n) = tokens_of(&frame);
        assert_eq!(n, frame.len());
        let expected: Vec<String> = text.split(' ').map(|s| s.to_string()).collect();
        assert_eq!(tokens, expected);
    }
}

#[test]
fn decode_response_kinds() {
    match decode_response(b"+PONG\r\n") {
        ResponseDecode::Complete(Reply::Text(t), n) => {
            assert_eq!(t, "PONG");
            assert_eq!(n, 7);
        }
        _ => panic!("expected text"),
    }
    match decode_response(b"-ERR x\r\n") {
        ResponseDecode::Complete(Reply::Text(t), _) => assert_eq!(t, "ERR x"),
        _ => panic!("expected text"),
    }
    match decode_response(b"$3\r\nab\x00rest") {
        ResponseDecode::Complete(Reply::Payload(p), n) => {
            assert_eq!(p, b"ab\x00".to_vec());
            assert_eq!(n, 7);
        }
        _ => panic!("expected payload"),
    }
    match decode_response(b"\r\n+OK\r\n") {
        ResponseDecode::Complete(Reply::Text(t), n) => {
            assert_eq!(t, "OK");
            assert_eq!(n, 7);
        }
        _ => panic!("expected text"),
    }
    assert!(matches!(decode_response(b"$5\r\nab"), ResponseDecode::Incomplete));
    assert!(matches!(decode_response(b"+OK"), ResponseDecode::Incomplete));
    assert!(matches!(decode_response(b":1\r\n"), ResponseDecode::Invalid));
    assert!(matches!(decode_response(b"$-1\r\n"), ResponseDecode::Invalid));
}

#[test]
fn decimal_text_and_parse() {
    assert_eq!(decimal_digits(0), b"0".to_vec());
    assert_eq!(decimal_digits(1234567890), b"1234567890".to_vec());
    assert_eq!(decimal_digits(u64::MAX), b"18446744073709551615".to_vec());
    assert_eq!(parse_unsigned(b"42"), Some(42));
    assert_eq!(parse_unsigned(b"+42"), Some(42));
    assert_eq!(parse_unsigned(b"007"), Some(7));
    assert_eq!(parse_unsigned(b""), None);
    assert_eq!(parse_unsigned(b"+"), None);
    assert_eq!(parse_unsigned(b"-1"), None);
    assert_eq!(parse_unsigned(b"4 2"), None);
    assert_eq!(parse_unsigned(b"18446744073709551615"), Some(u64::MAX));
    assert_eq!(parse_unsigned(b"18446744073709551616"), None);
}
