use mini_redis::frame::{check, decode, encode, DecodeError, Frame};

fn bulk(s: &str) -> Frame {
    Frame::Bulk(s.as_bytes().to_vec())
}

#[test]
fn encodes_each_kind() {
    assert_eq!(encode(&Frame::Simple("OK".to_string())), b"+OK\r\n".to_vec());
    assert_eq!(encode(&Frame::Error("ERR x".to_string())), b"-ERR x\r\n".to_vec());
    assert_eq!(encode(&Frame::Integer(0)), b":0\r\n".to_vec());
    assert_eq!(encode(&Frame::Integer(1234)), b":1234\r\n".to_vec());
    assert_eq!(encode(&Frame::Integer(u64::MAX)), b":18446744073709551615\r\n".to_vec());
    assert_eq!(encode(&bulk("world")), b"$5\r\nworld\r\n".to_vec());
    assert_eq!(encode(&Frame::Bulk(Vec::new())), b"$0\r\n\r\n".to_vec());
    assert_eq!(encode(&Frame::Null), b"$-1\r\n".to_vec());
    let array = Frame::Array(vec![bulk("GET"), bulk("hello")]);
    assert_eq!(encode(&array), b"*2\r\n$3\r\nGET\r\n$5\r\nhello\r\n".to_vec());
}

#[test]
fn decodes_a_command_array() {
    let bytes = b"*2\r\n$3\r\nGET\r\n$5\r\nhello\r\n";
    let (frame, used) = decode(bytes).unwrap();
    assert_eq!(used, bytes.len());
    match frame {
        Frame::Array(items) => {
            assert_eq!(items.len(), 2);
            match (&items[0], &items[1]) {
                (Frame::Bulk(a), Frame::Bulk(b)) => {
                    assert_eq!(a, b"GET");
                    assert_eq!(b, b"hello");
                }
                _ => panic!("expected two bulk items"),
            }
        }
        _ => panic!("expected an array"),
    }
}

#[test]
fn decode_of_encode_gives_the_frame_back() {
    let frame = Frame::Array(vec![
        Frame::Simple("subscribe".to_string()),
        Frame::Error("ERR no".to_string()),
        Frame::Integer(42),
        bulk("héllo"),
        Frame::Null,
        Frame::Array(vec![Frame::Integer(7)]),
    ]);
    let mut bytes = encode(&frame);
    let len = bytes.len();
    bytes.extend_from_slice(b"+trailing\r\n");
    let (back, used) = decode(&bytes).unwrap();
    assert_eq!(used, len);
    assert_eq!(encode(&back), encode(&frame));
}

#[test]
fn decode_reports_incomplete_input() {
    assert_eq!(decode(b"").unwrap_err(), DecodeError::Incomplete);
    assert_eq!(decode(b"+OK").unwrap_err(), DecodeError::Incomplete);
    assert_eq!(decode(b"$5\r\nwor").unwrap_err(), DecodeError::Incomplete);
    assert_eq!(decode(b"*2\r\n$3\r\nGET\r\n").unwrap_err(), DecodeError::Incomplete);
}

#[test]
fn decode_reports_invalid_input() {
    assert_eq!(decode(b"!x\r\n").unwrap_err(), DecodeError::Invalid);
    assert_eq!(decode(b":abc\r\n").unwrap_err(), DecodeError::Invalid);
    assert_eq!(decode(b"$-2\r\n").unwrap_err(), DecodeError::Invalid);
    assert_eq!(decode(b"$3\r\nabcXY").unwrap_err(), DecodeError::Invalid);
    assert_eq!(decode(b"+\xff\r\n").unwrap_err(), DecodeError::Invalid);
}

#[test]
fn decode_reads_null_and_integers() {
    let (f, n) = decode(b"$-1\r\n").unwrap();
    assert_eq!(n, 5);
    assert!(matches!(f, Frame::Null));
    let (f, _) = decode(b":18446744073709551615\r\n").unwrap();
    assert!(matches!(f, Frame::Integer(u64::MAX)));
    assert_eq!(decode(b":18446744073709551616\r\n").unwrap_err(), DecodeError::Invalid);
}

#[test]
fn frame_builders_make_arrays() {
    let mut f = Frame::array();
    f.push_bulk(b"px".to_vec());
    f.push_int(50);
    assert_eq!(encode(&f), b"*2\r\n$2\r\npx\r\n:50\r\n".to_vec());
}

#[test]
fn check_finds_the_end_of_a_frame() {
    assert_eq!(check(b"+OK\r\n+more").unwrap(), 5);
    let bytes = b"*2\r\n$3\r\nGET\r\n$5\r\nhello\r\n";
    assert_eq!(check(bytes).unwrap(), bytes.len());
    assert_eq!(check(b"$-1\r\n").unwrap(), 5);
    assert_eq!(check(b"*2\r\n:1\r\n").unwrap_err(), DecodeError::Incomplete);
    assert_eq!(check(b"$5\r\nab").unwrap_err(), DecodeError::Incomplete);
    assert_eq!(check(b"?\r\n").unwrap_err(), DecodeError::Invalid);
    assert_eq!(check(b"-\xc3\x28\r\n").unwrap_err(), DecodeError::Invalid);
}
