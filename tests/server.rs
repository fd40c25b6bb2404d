use mini_redis::cmd::{Action, ApplyError, Command};
use mini_redis::db::Store;
use mini_redis::frame::{decode, encode, Frame};
use mini_redis::session::{make_message_frame, Session};

/// Reads one request, applies it at time `now`, and gives the reply's bytes.
fn serve(store: &mut Store, request: &[u8], now: u64) -> Vec<u8> {
    let (frame, used) = decode(request).unwrap();
    assert_eq!(used, request.len());
    let cmd = Command::from_frame(frame).unwrap();
    match cmd.apply(store, now).unwrap() {
        Action::Reply { frame, .. } => encode(&frame),
        Action::Subscribe { .. } => panic!("unexpected subscription"),
    }
}

const GET_HELLO: &[u8] = b"*2\r\n$3\r\nGET\r\n$5\r\nhello\r\n";
const SET_HELLO: &[u8] = b"*3\r\n$3\r\nSET\r\n$5\r\nhello\r\n$5\r\nworld\r\n";

#[test]
fn get_of_a_missing_key_is_null() {
    let mut store = Store::new();
    assert_eq!(serve(&mut store, GET_HELLO, 0), b"$-1\r\n".to_vec());
}

#[test]
fn set_then_get_gives_the_value() {
    let mut store = Store::new();
    assert_eq!(serve(&mut store, GET_HELLO, 0), b"$-1\r\n".to_vec());
    assert_eq!(serve(&mut store, SET_HELLO, 0), b"+OK\r\n".to_vec());
    assert_eq!(serve(&mut store, GET_HELLO, 0), b"$5\r\nworld\r\n".to_vec());
}

#[test]
fn ping_without_argument_is_pong() {
    let mut store = Store::new();
    assert_eq!(serve(&mut store, b"*1\r\n$4\r\nPING\r\n", 0), b"+PONG\r\n".to_vec());
    assert_eq!(
        serve(&mut store, b"*2\r\n$4\r\nPING\r\n$11\r\nhello world\r\n", 0),
        b"$11\r\nhello world\r\n".to_vec()
    );
}

#[test]
fn unknown_command_gets_an_error_and_serving_goes_on() {
    let mut store = Store::new();
    assert_eq!(
        serve(&mut store, b"*2\r\n$3\r\nFOO\r\n$5\r\nhello\r\n", 0),
        b"-ERR unknown command foo\r\n".to_vec()
    );
    assert_eq!(serve(&mut store, SET_HELLO, 0), b"+OK\r\n".to_vec());
    assert_eq!(serve(&mut store, GET_HELLO, 0), b"$5\r\nworld\r\n".to_vec());
}

#[test]
fn value_with_time_to_live_is_gone_after_purge() {
    let mut store = Store::new();
    let set = b"*5\r\n$3\r\nSET\r\n$1\r\nk\r\n$1\r\nv\r\n$2\r\nPX\r\n$2\r\n50\r\n";
    assert_eq!(serve(&mut store, set, 1000), b"+OK\r\n".to_vec());
    let get = b"*2\r\n$3\r\nGET\r\n$1\r\nk\r\n";
    assert_eq!(store.purge_expired(1049), Some(1050));
    assert_eq!(serve(&mut store, get, 1049), b"$1\r\nv\r\n".to_vec());
    assert_eq!(store.purge_expired(1200), None);
    assert_eq!(serve(&mut store, get, 1200), b"$-1\r\n".to_vec());
}

#[test]
fn set_asks_to_wake_the_purger_for_an_earlier_expiry() {
    let mut store = Store::new();
    assert!(store.set("a".to_string(), b"1".to_vec(), Some(100), 0));
    assert!(!store.set("b".to_string(), b"2".to_vec(), Some(200), 0));
    assert!(!store.set("c".to_string(), b"3".to_vec(), None, 0));
    assert!(store.set("d".to_string(), b"4".to_vec(), Some(50), 0));
    assert_eq!(store.next_expiration(), Some(50));
    assert!(!store.set("d".to_string(), b"4".to_vec(), None, 0));
    assert_eq!(store.next_expiration(), Some(100));
}

#[test]
fn stopped_purger_removes_nothing() {
    let mut store = Store::new();
    store.set("a".to_string(), b"1".to_vec(), Some(10), 0);
    store.shutdown_purge_task();
    assert!(store.is_shutdown());
    assert_eq!(store.purge_expired(100), None);
    assert_eq!(store.get("a"), Some(b"1".to_vec()));
}

#[test]
fn unsubscribe_outside_a_session_is_refused() {
    let mut store = Store::new();
    let (frame, _) = decode(b"*1\r\n$11\r\nUNSUBSCRIBE\r\n").unwrap();
    let cmd = Command::from_frame(frame).unwrap();
    assert_eq!(cmd.apply(&mut store, 0).err().unwrap(), ApplyError::UnsubscribeOutsideSession);
}

#[test]
fn publish_counts_the_subscribers() {
    let mut store = Store::new();
    let publish = b"*3\r\n$7\r\nPUBLISH\r\n$5\r\nhello\r\n$5\r\nworld\r\n";
    assert_eq!(serve(&mut store, publish, 0), b":0\r\n".to_vec());
    let mut rx1 = store.subscribe("hello".to_string());
    let mut rx2 = store.subscribe("hello".to_string());
    assert_eq!(serve(&mut store, publish, 0), b":2\r\n".to_vec());
    assert_eq!(rx1.try_recv().unwrap(), b"world".to_vec());
    assert_eq!(rx2.try_recv().unwrap(), b"world".to_vec());
    assert!(rx1.try_recv().is_err());
    drop(rx1);
    drop(rx2);
    assert_eq!(serve(&mut store, publish, 0), b":0\r\n".to_vec());
    let mut rx3 = store.subscribe("hello".to_string());
    assert_eq!(store.publish("hello", b"again".to_vec()), 1);
    assert_eq!(rx3.try_recv().unwrap(), b"again".to_vec());
}

#[test]
fn pub_sub_scenario() {
    let mut store = Store::new();
    let (frame, _) = decode(b"*2\r\n$9\r\nSUBSCRIBE\r\n$5\r\nhello\r\n").unwrap();
    let channels = match Command::from_frame(frame).unwrap().apply(&mut store, 0).unwrap() {
        Action::Subscribe { channels } => channels,
        _ => panic!("expected a subscription"),
    };
    let mut session = Session::new(channels);
    let mut receivers = Vec::new();
    for channel in session.take_pending() {
        receivers.push((channel.clone(), store.subscribe(channel.clone())));
        let confirmation = session.add(channel);
        assert_eq!(encode(&confirmation), b"*3\r\n+subscribe\r\n$5\r\nhello\r\n:1\r\n".to_vec());
    }
    let publish = b"*3\r\n$7\r\nPUBLISH\r\n$5\r\nhello\r\n$5\r\nworld\r\n";
    assert_eq!(serve(&mut store, publish, 0), b":1\r\n".to_vec());
    let (channel, rx) = &mut receivers[0];
    let payload = rx.try_recv().unwrap();
    assert_eq!(
        encode(&make_message_frame(channel, payload)),
        b"*3\r\n$7\r\nmessage\r\n$5\r\nhello\r\n$5\r\nworld\r\n".to_vec()
    );
}

#[test]
fn session_unsubscribes_named_or_all_channels() {
    let mut session = Session::new(vec!["a".to_string(), "b".to_string(), "c".to_string()]);
    for channel in session.take_pending() {
        session.add(channel);
    }
    assert_eq!(encode(&session.add("a".to_string())), b"*3\r\n+subscribe\r\n$1\r\na\r\n:3\r\n".to_vec());
    let (frame, _) = decode(b"*2\r\n$11\r\nunsubscribe\r\n$1\r\nb\r\n").unwrap();
    let replies = session.handle_command(Command::from_frame(frame).unwrap());
    assert_eq!(replies.len(), 1);
    assert_eq!(encode(&replies[0]), b"*3\r\n+unsubscribe\r\n$1\r\nb\r\n:2\r\n".to_vec());
    assert!(!session.is_subscribed("b"));
    assert!(session.is_subscribed("a"));

    let (frame, _) = decode(b"*1\r\n$11\r\nunsubscribe\r\n").unwrap();
    let replies = session.handle_command(Command::from_frame(frame).unwrap());
    let bytes: Vec<Vec<u8>> = replies.iter().map(encode).collect();
    assert_eq!(
        bytes,
        vec![
            b"*3\r\n+unsubscribe\r\n$1\r\na\r\n:1\r\n".to_vec(),
            b"*3\r\n+unsubscribe\r\n$1\r\nc\r\n:0\r\n".to_vec()
        ]
    );
    assert!(session.subscribed_channels().is_empty());
}

#[test]
fn session_queues_subscriptions_and_refuses_other_commands() {
    let mut session = Session::new(vec![]);
    let (frame, _) = decode(b"*2\r\n$9\r\nsubscribe\r\n$1\r\nx\r\n").unwrap();
    assert!(session.handle_command(Command::from_frame(frame).unwrap()).is_empty());
    assert_eq!(session.take_pending(), vec!["x".to_string()]);
    let (frame, _) = decode(b"*2\r\n$3\r\nGET\r\n$1\r\nx\r\n").unwrap();
    let replies = session.handle_command(Command::from_frame(frame).unwrap());
    assert_eq!(encode(&replies[0]), b"-ERR unknown command get\r\n".to_vec());
}

#[test]
fn message_frame_is_built_as_bulk_items() {
    let f = make_message_frame("ch", b"payload".to_vec());
    assert!(matches!(f, Frame::Array(_)));
    assert_eq!(encode(&f), b"*3\r\n$7\r\nmessage\r\n$2\r\nch\r\n$7\r\npayload\r\n".to_vec());
}

#[test]
fn settle_publish_keeps_or_drops_the_endpoint() {
    let mut store = Store::new();
    let mut rx = store.subscribe("news".to_string());
    assert_eq!(store.settle_publish("news", Some(3)), 3);
    assert_eq!(store.publish("news", b"one".to_vec()), 1);
    assert_eq!(rx.try_recv().unwrap(), b"one".to_vec());
    assert_eq!(store.settle_publish("news", None), 0);
    assert_eq!(store.publish("news", b"two".to_vec()), 0);
    assert!(rx.try_recv().is_err());
}
