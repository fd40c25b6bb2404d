use mini_redis::cmd::{Command, Get, Ping, Publish, SetCmd, Subscribe, Unknown, Unsubscribe};
use mini_redis::frame::{decode, encode, Frame};
use mini_redis::parse::{Parse, ParseError};

fn bulk(s: &str) -> Frame {
    Frame::Bulk(s.as_bytes().to_vec())
}

fn array(items: &[&str]) -> Frame {
    Frame::Array(items.iter().map(|s| bulk(s)).collect())
}

#[test]
fn test_get() {
    let get = Get::new("foo");
    assert_eq!(get.key(), "foo".to_string());

    let frame = get.into_frame();
    let cmd = Command::from_frame(frame).unwrap();
    let got = match cmd {
        Command::Get(got) => got,
        _ => panic!("not match"),
    };
    assert_eq!(got.key(), "foo");
}

#[test]
fn command_names_are_case_insensitive() {
    let cmd = Command::from_frame(array(&["GeT", "k"])).unwrap();
    assert_eq!(cmd.get_name(), "get");
    let cmd = Command::from_frame(array(&["FOO", "hello"])).unwrap();
    match cmd {
        Command::Unknown(u) => assert_eq!(u.get_name(), "foo"),
        _ => panic!("expected an unknown command"),
    }
}

#[test]
fn set_reads_expiry_options() {
    let cmd = Command::from_frame(array(&["SET", "k", "v", "px", "50"])).unwrap();
    match cmd {
        Command::SetCmd(s) => {
            assert_eq!(s.key(), "k");
            assert_eq!(s.value(), &b"v".to_vec());
            assert_eq!(s.expire(), Some(50));
        }
        _ => panic!("expected SET"),
    }
    let cmd = Command::from_frame(array(&["set", "k", "v", "EX", "2"])).unwrap();
    match cmd {
        Command::SetCmd(s) => assert_eq!(s.expire(), Some(2000)),
        _ => panic!("expected SET"),
    }
    let cmd = Command::from_frame(array(&["set", "k", "v"])).unwrap();
    match cmd {
        Command::SetCmd(s) => assert_eq!(s.expire(), None),
        _ => panic!("expected SET"),
    }
}

#[test]
fn set_rejects_bad_options() {
    let err = Command::from_frame(array(&["set", "k", "v", "NX"])).err().unwrap();
    assert_eq!(err, ParseError::UnsupportedOption);
    let err = Command::from_frame(array(&["set", "k", "v", "PX", "soon"])).err().unwrap();
    assert_eq!(err, ParseError::InvalidNumber);
    let err = Command::from_frame(array(&["set", "k", "v", "EX", "18446744073709551615"]))
        .err()
        .unwrap();
    assert_eq!(err, ParseError::InvalidNumber);
    let err = Command::from_frame(array(&["set", "k"])).err().unwrap();
    assert_eq!(err, ParseError::EndOfStream);
}

#[test]
fn parse_errors_by_shape() {
    assert_eq!(Command::from_frame(bulk("get")).err().unwrap(), ParseError::NotAnArray);
    assert_eq!(Command::from_frame(Frame::Array(vec![])).err().unwrap(), ParseError::EndOfStream);
    assert_eq!(
        Command::from_frame(array(&["get", "a", "b"])).err().unwrap(),
        ParseError::TrailingItems
    );
    assert_eq!(
        Command::from_frame(Frame::Array(vec![bulk("get"), Frame::Integer(3)])).err().unwrap(),
        ParseError::UnexpectedFrame
    );
    assert_eq!(
        Command::from_frame(Frame::Array(vec![bulk("get"), Frame::Bulk(vec![0xff])]))
            .err()
            .unwrap(),
        ParseError::InvalidString
    );
    assert_eq!(Command::from_frame(array(&["subscribe"])).err().unwrap(), ParseError::EndOfStream);
}

#[test]
fn parse_cursor_reads_items_in_order() {
    let frame = Frame::Array(vec![
        Frame::Simple("12".to_string()),
        bulk("x"),
        Frame::Integer(9),
    ]);
    let mut parse = Parse::new(frame).ok().unwrap();
    assert_eq!(parse.next_int().unwrap(), 12);
    assert_eq!(parse.next_bytes().unwrap(), b"x".to_vec());
    assert!(parse.finish().is_err());
    assert_eq!(parse.next_int().unwrap(), 9);
    assert!(parse.finish().is_ok());
    assert_eq!(parse.next_string().err().unwrap(), ParseError::EndOfStream);
}

#[test]
fn subscribe_and_unsubscribe_read_channel_lists() {
    match Command::from_frame(array(&["SUBSCRIBE", "a", "b"])).unwrap() {
        Command::Subscribe(s) => assert_eq!(s.channels(), &vec!["a".to_string(), "b".to_string()]),
        _ => panic!("expected SUBSCRIBE"),
    }
    match Command::from_frame(array(&["unsubscribe"])).unwrap() {
        Command::Unsubscribe(u) => assert!(u.channels().is_empty()),
        _ => panic!("expected UNSUBSCRIBE"),
    }
}

#[test]
fn ping_reads_an_optional_message() {
    match Command::from_frame(array(&["PING"])).unwrap() {
        Command::Ping(p) => assert_eq!(p.get_msg(), b"PONG".to_vec()),
        _ => panic!("expected PING"),
    }
    match Command::from_frame(array(&["ping", "hi"])).unwrap() {
        Command::Ping(p) => assert_eq!(p.get_msg(), b"hi".to_vec()),
        _ => panic!("expected PING"),
    }
}

#[test]
fn commands_encode_as_bulk_arrays() {
    let set = SetCmd::new("k", b"v".to_vec(), Some(50));
    assert_eq!(
        encode(&set.into_frame()),
        b"*5\r\n$3\r\nset\r\n$1\r\nk\r\n$1\r\nv\r\n$2\r\npx\r\n$2\r\n50\r\n".to_vec()
    );
    let publish = Publish::new("hello", b"world".to_vec());
    assert_eq!(
        encode(&publish.into_frame()),
        b"*3\r\n$7\r\npublish\r\n$5\r\nhello\r\n$5\r\nworld\r\n".to_vec()
    );
    let sub = Subscribe::new(vec!["hello".to_string()]);
    assert_eq!(encode(&sub.into_frame()), b"*2\r\n$9\r\nsubscribe\r\n$5\r\nhello\r\n".to_vec());
    let unsub = Unsubscribe::new(&[]);
    assert_eq!(encode(&unsub.into_frame()), b"*1\r\n$11\r\nunsubscribe\r\n".to_vec());
    let ping = Ping::new(None);
    assert_eq!(encode(&ping.into_frame()), b"*1\r\n$4\r\nping\r\n".to_vec());
    let unknown = Command::Unknown(Unknown::new("foo"));
    assert_eq!(encode(&unknown.into_frame()), b"*1\r\n$3\r\nfoo\r\n".to_vec());
}

#[test]
fn set_frame_reads_back_as_the_same_command() {
    let bytes = encode(&SetCmd::new("key", b"value".to_vec(), Some(1500)).into_frame());
    let (frame, _) = decode(&bytes).unwrap();
    match Command::from_frame(frame).unwrap() {
        Command::SetCmd(s) => {
            assert_eq!(s.key(), "key");
            assert_eq!(s.value(), &b"value".to_vec());
            assert_eq!(s.expire(), Some(1500));
        }
        _ => panic!("expected SET"),
    }
}
