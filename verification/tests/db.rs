use mini_redis::db::{State, CHANNEL_CAPACITY};
use tokio::sync::broadcast::error::TryRecvError;
use mini_redis::server::{Backoff, MAX_BACKOFF, MAX_CONNECTIONS};
use mini_redis::DEFAULT_PORT;

#[test]
fn get_returns_what_set_stored() {
    let mut db = State::new();
    assert_eq!(db.get("k"), None);
    db.set("k".to_string(), b"v1".to_vec(), None, 0);
    assert_eq!(db.get("k"), Some(b"v1".to_vec()));
    db.set("k".to_string(), b"v2".to_vec(), None, 5);
    assert_eq!(db.get("k"), Some(b"v2".to_vec()));
}

#[test]
fn set_discards_previous_ttl() {
    let mut db = State::new();
    db.set("k".to_string(), b"v".to_vec(), Some(100), 0);
    assert_eq!(db.next_expiration(), Some(100));
    db.set("k".to_string(), b"w".to_vec(), None, 10);
    assert_eq!(db.next_expiration(), None);
    assert_eq!(db.purge_expired_keys(1_000), None);
    assert_eq!(db.get("k"), Some(b"w".to_vec()));
}

#[test]
fn purge_removes_only_expired_keys() {
    let mut db = State::new();
    db.set("a".to_string(), b"1".to_vec(), Some(10), 0);
    db.set("b".to_string(), b"2".to_vec(), Some(20), 0);
    db.set("c".to_string(), b"3".to_vec(), None, 0);
    assert_eq!(db.purge_expired_keys(15), Some(20));
    assert_eq!(db.get("a"), None);
    assert_eq!(db.get("b"), Some(b"2".to_vec()));
    assert_eq!(db.get("c"), Some(b"3".to_vec()));
    assert_eq!(db.purge_expired_keys(20), None);
    assert_eq!(db.get("b"), None);
}

#[test]
fn set_wakes_the_purge_task_for_an_earlier_expiration() {
    let mut db = State::new();
    assert!(db.set("a".to_string(), b"1".to_vec(), Some(50), 0));
    assert!(!db.set("b".to_string(), b"1".to_vec(), Some(60), 0));
    assert!(db.set("c".to_string(), b"1".to_vec(), Some(10), 0));
    assert!(!db.set("d".to_string(), b"1".to_vec(), None, 0));
    assert_eq!(db.next_expiration(), Some(10));
}

#[test]
fn keys_and_channels_are_separate() {
    let mut db = State::new();
    db.set("foo".to_string(), b"v".to_vec(), None, 0);
    assert_eq!(db.publish("foo", b"m".to_vec()).0, 0);
    let mut rx = db.subscribe("foo".to_string()).into_receiver();
    assert_eq!(db.get("foo"), Some(b"v".to_vec()));
    assert_eq!(db.publish("foo", b"m".to_vec()).0, 1);
    assert_eq!(rx.try_recv().unwrap(), b"m".to_vec());
}

#[test]
fn publish_counts_subscribers() {
    let mut db = State::new();
    assert_eq!(db.publish("ch", b"m".to_vec()).0, 0);
    let _r1 = db.subscribe("ch".to_string()).into_receiver();
    let r2 = db.subscribe("ch".to_string()).into_receiver();
    assert_eq!(db.publish("ch", b"m".to_vec()).0, 2);
    drop(r2);
    assert_eq!(db.publish("ch", b"m".to_vec()).0, 1);
}

#[test]
fn shutdown_flag() {
    let mut db = State::new();
    assert!(!db.is_shutdown());
    db.shutdown_purge_task();
    assert!(db.is_shutdown());
}

#[test]
fn accept_backoff_doubles_then_gives_up() {
    let mut b = Backoff::new();
    let mut delays = Vec::new();
    while let Some(d) = b.failed() {
        delays.push(d);
    }
    assert_eq!(delays, vec![1, 2, 4, 8, 16, 32, 64]);
    assert_eq!(b.failed(), None);
    assert_eq!(MAX_BACKOFF, 64);
}

#[test]
fn server_constants() {
    assert_eq!(DEFAULT_PORT, 6379);
    assert_eq!(MAX_CONNECTIONS, 250);
}

#[test]
fn publish_hands_the_message_to_the_existing_channel() {
    let mut db = State::new();
    let (n, sent) = db.publish("ch", b"m".to_vec());
    assert_eq!(n, 0);
    assert!(sent.is_none());
    let mut rx = db.subscribe("ch".to_string()).into_receiver();
    // A second subscription reuses the channel: the first receiver still
    // gets what is published.
    let mut rx2 = db.subscribe("ch".to_string()).into_receiver();
    let (n, sent) = db.publish("ch", b"hello".to_vec());
    assert_eq!(n, 2);
    assert_eq!(sent.unwrap().count(), 2);
    assert_eq!(rx.try_recv().unwrap(), b"hello".to_vec());
    assert_eq!(rx2.try_recv().unwrap(), b"hello".to_vec());
}

#[test]
fn a_slow_subscriber_skips_the_oldest_messages() {
    let mut db = State::new();
    let mut rx = db.subscribe("ch".to_string()).into_receiver();
    for i in 0..(CHANNEL_CAPACITY + 1) {
        assert_eq!(db.publish("ch", vec![(i % 256) as u8]).0, 1);
    }
    // The channel keeps the last 1024 messages: the first one is lost.
    assert!(matches!(rx.try_recv(), Err(TryRecvError::Lagged(1))));
    assert_eq!(rx.try_recv().unwrap(), vec![1]);
}
