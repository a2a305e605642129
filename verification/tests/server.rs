use mini_redis::cmd::subscribe::{handle_command, make_message_frame, subscribe_pending, Subscriptions};
use mini_redis::cmd::Outcome;
use mini_redis::connection::{write_frame, Connection};
use mini_redis::db::State;
use mini_redis::server::handle_frame;
use mini_redis::Frame;
use std::time::Duration;
use tokio_stream::StreamExt;

/// Feeds `input` to a connection in the normal state and returns the bytes
/// written back. Each frame is handled at time `now` (milliseconds).
fn exchange(db: &mut State, input: &[u8], now: u128) -> Vec<u8> {
    let mut buf = Connection::new();
    buf.extend(input);
    let mut out = Vec::new();
    while let Some(frame) = buf.parse_frame().unwrap() {
        match handle_frame(frame, db, now).unwrap() {
            Outcome::Reply { frame, .. } => write_frame(&frame, &mut out),
            Outcome::Subscribe(_) => panic!("unexpected subscription"),
        }
    }
    assert!(buf.end_of_stream().is_ok());
    out
}

/// The error of a frame that is refused.
fn error_of(res: Result<Outcome, String>) -> String {
    match res {
        Err(e) => e,
        Ok(_) => panic!("expected an error"),
    }
}

/// A connection in the subscribed state.
struct Subscriber {
    pending: Vec<String>,
    subscriptions: Subscriptions,
}

impl Subscriber {
    /// Sends a `SUBSCRIBE` frame on a fresh connection and returns the
    /// subscriber with the confirmations written.
    fn connect(db: &mut State, input: &[u8]) -> (Subscriber, Vec<u8>) {
        let mut buf = Connection::new();
        buf.extend(input);
        let frame = buf.parse_frame().unwrap().unwrap();
        let subscribe = match handle_frame(frame, db, 0).unwrap() {
            Outcome::Subscribe(s) => s,
            Outcome::Reply { .. } => panic!("expected a subscription"),
        };
        let (pending, subscriptions) = subscribe.start();
        let mut sub = Subscriber { pending, subscriptions };
        let out = sub.serve_pending(db);
        (sub, out)
    }

    fn serve_pending(&mut self, db: &mut State) -> Vec<u8> {
        let mut out = Vec::new();
        for frame in subscribe_pending(&mut self.pending, &mut self.subscriptions, db) {
            write_frame(&frame, &mut out);
        }
        out
    }

    fn send(&mut self, db: &mut State, input: &[u8]) -> Vec<u8> {
        let mut buf = Connection::new();
        buf.extend(input);
        let frame = buf.parse_frame().unwrap().unwrap();
        let mut out = Vec::new();
        for frame in handle_command(frame, &mut self.pending, &mut self.subscriptions).unwrap() {
            write_frame(&frame, &mut out);
        }
        out.extend(self.serve_pending(db));
        out
    }

    /// The next message forwarded to the client, if one arrives in time.
    fn next_message(&mut self, rt: &tokio::runtime::Runtime) -> Option<Vec<u8>> {
        let next = rt.block_on(async {
            tokio::time::timeout(Duration::from_millis(100), self.subscriptions.next()).await
        });
        match next {
            Ok(Some((channel, Ok(msg)))) => {
                let mut out = Vec::new();
                write_frame(&make_message_frame(channel, msg), &mut out);
                Some(out)
            }
            _ => None,
        }
    }
}

#[test]
fn key_value_get_set() {
    let mut db = State::new();

    let response = exchange(&mut db, b"*2\r\n$3\r\nGET\r\n$5\r\nhello\r\n", 0);
    assert_eq!(b"$-1\r\n", &response[..]);

    let response = exchange(&mut db, b"*3\r\n$3\r\nSET\r\n$5\r\nhello\r\n$5\r\nworld\r\n", 0);
    assert_eq!(b"+OK\r\n", &response[..]);

    // The client then closes its side: with nothing left buffered, the
    // stream ends cleanly and the server closes the connection.
    let mut conn = Connection::new();
    conn.extend(b"*2\r\n$3\r\nGET\r\n$5\r\nhello\r\n");
    let frame = conn.parse_frame().unwrap().unwrap();
    match handle_frame(frame, &mut db, 0).unwrap() {
        Outcome::Reply { frame, .. } => conn.write_frame(&frame),
        Outcome::Subscribe(_) => panic!("unexpected subscription"),
    }
    assert_eq!(b"$5\r\nworld\r\n", &conn.take_output()[..]);
    assert!(conn.parse_frame().unwrap().is_none());
    assert!(conn.end_of_stream().is_ok());
}

#[test]
fn key_value_timeout() {
    let mut db = State::new();

    let response = exchange(
        &mut db,
        b"*5\r\n$3\r\nSET\r\n$5\r\nhello\r\n$5\r\nworld\r\n+EX\r\n:1\r\n",
        0,
    );
    assert_eq!(b"+OK\r\n", &response[..]);

    let response = exchange(&mut db, b"*2\r\n$3\r\nGET\r\n$5\r\nhello\r\n", 0);
    assert_eq!(b"$5\r\nworld\r\n", &response[..]);

    // One second later the background task purges the key.
    assert_eq!(db.next_expiration(), Some(1000));
    assert_eq!(db.purge_expired_keys(1000), None);

    let response = exchange(&mut db, b"*2\r\n$3\r\nGET\r\n$5\r\nhello\r\n", 1000);
    assert_eq!(b"$-1\r\n", &response[..]);
}

#[test]
fn pub_sub() {
    let rt = tokio::runtime::Runtime::new().unwrap();
    let mut db = State::new();

    let publish = b"*3\r\n$7\r\nPUBLISH\r\n$5\r\nhello\r\n$5\r\nworld\r\n";
    assert_eq!(b":0\r\n", &exchange(&mut db, publish, 0)[..]);

    let (mut sub1, response) = Subscriber::connect(&mut db, b"*2\r\n$9\r\nSUBSCRIBE\r\n$5\r\nhello\r\n");
    assert_eq!(&b"*3\r\n$9\r\nsubscribe\r\n$5\r\nhello\r\n:1\r\n"[..], &response[..]);

    assert_eq!(b":1\r\n", &exchange(&mut db, publish, 0)[..]);
    assert_eq!(
        &b"*3\r\n$7\r\nmessage\r\n$5\r\nhello\r\n$5\r\nworld\r\n"[..],
        &sub1.next_message(&rt).unwrap()[..]
    );

    let (mut sub2, response) = Subscriber::connect(
        &mut db,
        b"*3\r\n$9\r\nSUBSCRIBE\r\n$5\r\nhello\r\n$3\r\nfoo\r\n",
    );
    assert_eq!(
        &b"*3\r\n$9\r\nsubscribe\r\n$5\r\nhello\r\n:1\r\n*3\r\n$9\r\nsubscribe\r\n$3\r\nfoo\r\n:2\r\n"[..],
        &response[..]
    );

    let publish = b"*3\r\n$7\r\nPUBLISH\r\n$5\r\nhello\r\n$5\r\njazzy\r\n";
    assert_eq!(b":2\r\n", &exchange(&mut db, publish, 0)[..]);

    // Each subscriber's connection forwards a message as soon as it is
    // published.
    assert_eq!(
        &b"*3\r\n$7\r\nmessage\r\n$5\r\nhello\r\n$5\r\njazzy\r\n"[..],
        &sub1.next_message(&rt).unwrap()[..]
    );
    assert_eq!(
        &b"*3\r\n$7\r\nmessage\r\n$5\r\nhello\r\n$5\r\njazzy\r\n"[..],
        &sub2.next_message(&rt).unwrap()[..]
    );

    let publish = b"*3\r\n$7\r\nPUBLISH\r\n$3\r\nfoo\r\n$3\r\nbar\r\n";
    assert_eq!(b":1\r\n", &exchange(&mut db, publish, 0)[..]);
    assert!(sub1.next_message(&rt).is_none());
    assert_eq!(
        &b"*3\r\n$7\r\nmessage\r\n$3\r\nfoo\r\n$3\r\nbar\r\n"[..],
        &sub2.next_message(&rt).unwrap()[..]
    );
}

#[test]
fn manage_subscription() {
    let mut db = State::new();

    let (mut sub, response) = Subscriber::connect(&mut db, b"*2\r\n$9\r\nSUBSCRIBE\r\n$3\r\nfoo\r\n");
    assert_eq!(&b"*3\r\n$9\r\nsubscribe\r\n$3\r\nfoo\r\n:1\r\n"[..], &response[..]);

    let response = sub.send(&mut db, b"*2\r\n$11\r\nUNSUBSCRIBE\r\n$3\r\nfoo\r\n");
    assert_eq!(&b"*3\r\n$11\r\nunsubscribe\r\n$3\r\nfoo\r\n:0\r\n"[..], &response[..]);

    let response = sub.send(&mut db, b"*2\r\n$9\r\nSUBSCRIBE\r\n$3\r\nfoo\r\n");
    assert_eq!(&b"*3\r\n$9\r\nsubscribe\r\n$3\r\nfoo\r\n:1\r\n"[..], &response[..]);
}

#[test]
fn unsubscribe_without_channels_drops_all() {
    let mut db = State::new();
    let (mut sub, _) = Subscriber::connect(
        &mut db,
        b"*4\r\n$9\r\nSUBSCRIBE\r\n$1\r\na\r\n$1\r\nb\r\n$1\r\nc\r\n",
    );
    let response = sub.send(&mut db, b"*1\r\n$11\r\nUNSUBSCRIBE\r\n");
    // The channels are dropped in the order the map holds them.
    assert_eq!(
        &b"*3\r\n$11\r\nunsubscribe\r\n$1\r\na\r\n:2\r\n\
           *3\r\n$11\r\nunsubscribe\r\n$1\r\nb\r\n:1\r\n\
           *3\r\n$11\r\nunsubscribe\r\n$1\r\nc\r\n:0\r\n"[..],
        &response[..]
    );
    assert_eq!(sub.subscriptions.len(), 0);
}

#[test]
fn subscribing_twice_counts_once() {
    let mut db = State::new();
    let (mut sub, _) = Subscriber::connect(&mut db, b"*2\r\n$9\r\nSUBSCRIBE\r\n$3\r\nfoo\r\n");
    let response = sub.send(&mut db, b"*2\r\n$9\r\nSUBSCRIBE\r\n$3\r\nfoo\r\n");
    assert_eq!(&b"*3\r\n$9\r\nsubscribe\r\n$3\r\nfoo\r\n:1\r\n"[..], &response[..]);
    assert_eq!(sub.subscriptions.len(), 1);
}

#[test]
fn other_commands_while_subscribed_are_unknown() {
    let mut db = State::new();
    let (mut sub, _) = Subscriber::connect(&mut db, b"*2\r\n$9\r\nSUBSCRIBE\r\n$3\r\nfoo\r\n");
    let response = sub.send(&mut db, b"*2\r\n$3\r\nGET\r\n$5\r\nhello\r\n");
    assert_eq!(&b"-ERR unknown command 'get'\r\n"[..], &response[..]);
}

#[test]
fn unsubscribe_outside_subscription_is_an_error() {
    let mut db = State::new();
    let mut buf = Connection::new();
    buf.extend(b"*2\r\n$11\r\nUNSUBSCRIBE\r\n$3\r\nfoo\r\n");
    let frame = buf.parse_frame().unwrap().unwrap();
    let err = error_of(handle_frame(frame, &mut db, 0));
    assert_eq!(err, "`Unsubscribe` is unsupported in this context");
}

#[test]
fn unknown_command_is_answered() {
    let mut db = State::new();
    let response = exchange(&mut db, b"*2\r\n$4\r\nINCR\r\n$3\r\nfoo\r\n", 0);
    assert_eq!(&b"-ERR unknown command 'incr'\r\n"[..], &response[..]);
}

#[test]
fn ping_answers_pong_or_echoes() {
    let mut db = State::new();
    assert_eq!(b"+PONG\r\n", &exchange(&mut db, b"*1\r\n$4\r\nPING\r\n", 0)[..]);
    assert_eq!(b"$2\r\nhi\r\n", &exchange(&mut db, b"*2\r\n$4\r\nping\r\n$2\r\nhi\r\n", 0)[..]);
}

#[test]
fn pipelined_frames_are_answered_in_order() {
    let mut db = State::new();
    let response = exchange(
        &mut db,
        b"*3\r\n$3\r\nSET\r\n$1\r\nk\r\n$1\r\nv\r\n*2\r\n$3\r\nGET\r\n$1\r\nk\r\n",
        0,
    );
    assert_eq!(&b"+OK\r\n$1\r\nv\r\n"[..], &response[..]);
}

#[test]
fn partial_frame_waits_for_more_bytes() {
    let mut buf = Connection::new();
    buf.extend(b"*2\r\n$3\r\nGET\r\n$5\r\nhel");
    assert!(buf.parse_frame().unwrap().is_none());
    assert_eq!(buf.end_of_stream().unwrap_err(), "connection reset by peer");
    buf.extend(b"lo\r\n");
    assert!(buf.parse_frame().unwrap().is_some());
    assert!(buf.is_empty());
    assert!(buf.end_of_stream().is_ok());
}

#[test]
fn extra_argument_closes_the_connection() {
    let mut db = State::new();
    let mut buf = Connection::new();
    buf.extend(b"*3\r\n$3\r\nGET\r\n$1\r\na\r\n$1\r\nb\r\n");
    let frame = buf.parse_frame().unwrap().unwrap();
    let err = error_of(handle_frame(frame, &mut db, 0));
    assert_eq!(err, "protocol error; expected end of frame, but there was more");
}

#[test]
fn missing_argument_is_end_of_stream() {
    let mut db = State::new();
    let mut buf = Connection::new();
    buf.extend(b"*1\r\n$3\r\nGET\r\n");
    let frame = buf.parse_frame().unwrap().unwrap();
    let err = error_of(handle_frame(frame, &mut db, 0));
    assert_eq!(err, "protocol error; unexpected end of stream");
}

#[test]
fn frame_that_is_not_an_array_is_refused() {
    let mut db = State::new();
    let err = error_of(handle_frame(Frame::Integer(3), &mut db, 0));
    assert_eq!(err, "protocol error; expected array, got Integer(3)");
}
