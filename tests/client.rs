use mini_redis::accept::{Backoff, BACKOFF_MAX, MAX_CONNECTIONS};
use mini_redis::client::{
    get_response, is_subscribe_confirmation, message_of, ping_response, publish_response,
    Subscriber,
};
use mini_redis::frame::Frame;

fn bulk(s: &str) -> Frame {
    Frame::Bulk(s.as_bytes().to_vec())
}

#[test]
fn get_reply_kinds() {
    assert_eq!(get_response(bulk("world")).unwrap(), Some(b"world".to_vec()));
    assert_eq!(get_response(Frame::Simple("w".to_string())).unwrap(), Some(b"w".to_vec()));
    assert_eq!(get_response(Frame::Null).unwrap(), None);
    assert!(matches!(get_response(Frame::Integer(3)), Err(Frame::Integer(3))));
}

#[test]
fn ping_and_publish_replies() {
    assert_eq!(ping_response(Frame::Simple("PONG".to_string())).unwrap(), b"PONG".to_vec());
    assert_eq!(ping_response(bulk("hello world")).unwrap(), b"hello world".to_vec());
    assert!(ping_response(Frame::Null).is_err());
    assert_eq!(publish_response(Frame::Integer(1)).unwrap(), 1);
    assert!(publish_response(bulk("1")).is_err());
}

#[test]
fn subscribe_confirmations() {
    let ok = Frame::Array(vec![Frame::Simple("subscribe".to_string()), bulk("hello"), Frame::Integer(1)]);
    assert!(is_subscribe_confirmation(&ok, "hello"));
    assert!(!is_subscribe_confirmation(&ok, "world"));
    let bulk_kind = Frame::Array(vec![bulk("subscribe"), bulk("hello")]);
    assert!(is_subscribe_confirmation(&bulk_kind, "hello"));
    assert!(!is_subscribe_confirmation(&bulk("subscribe"), "hello"));
}

#[test]
fn message_frames() {
    let frame = Frame::Array(vec![bulk("message"), bulk("hello"), bulk("world")]);
    let message = message_of(frame).ok().unwrap();
    assert_eq!(message.channel, "hello");
    assert_eq!(message.content, b"world".to_vec());
    let short = Frame::Array(vec![bulk("message"), bulk("hello")]);
    assert!(message_of(short).is_err());
    let wrong = Frame::Array(vec![bulk("subscribe"), bulk("hello"), bulk("world")]);
    assert!(message_of(wrong).is_err());
}

#[test]
fn unsubscribes_from_channels_specific() {
    let mut subscriber = Subscriber::new(vec!["hello".into(), "world".into()]);
    subscriber.remove_channels(&vec!["hello".into()]);
    assert_eq!(subscriber.get_subscribed().len(), 1);
    assert_eq!(subscriber.get_subscribed()[0], "world");
}

#[test]
fn unsubscribes_from_channels() {
    let mut subscriber = Subscriber::new(vec!["hello".into(), "world".into()]);
    subscriber.remove_channels(&[]);
    assert_eq!(subscriber.get_subscribed().len(), 0);
}

#[test]
fn subscriber_adds_channels() {
    let mut subscriber = Subscriber::new(vec!["a".into()]);
    subscriber.add_channels(&["b".to_string(), "c".to_string()]);
    assert_eq!(subscriber.get_subscribed(), &["a".to_string(), "b".to_string(), "c".to_string()]);
}

#[test]
fn backoff_doubles_then_gives_up() {
    let mut backoff = Backoff::new();
    let mut waits = Vec::new();
    while let Some(w) = backoff.on_error() {
        waits.push(w);
    }
    assert_eq!(waits, vec![1, 2, 4, 8, 16, 32, 64]);
    assert_eq!(BACKOFF_MAX, 64);
    assert_eq!(MAX_CONNECTIONS, 250);
}
