use mini_redis::connection::{write_decimal, write_frame, write_value, Connection};
use mini_redis::decimal::push_decimal;
use mini_redis::frame::Error;
use mini_redis::Frame;

fn encode(frame: &Frame) -> Vec<u8> {
    let mut out = Vec::new();
    write_frame(frame, &mut out);
    out
}

fn decode(bytes: &[u8]) -> Frame {
    let mut buf = Connection::new();
    buf.extend(bytes);
    let f = buf.parse_frame().unwrap().unwrap();
    assert!(buf.is_empty());
    f
}

#[test]
fn simple_values_are_written() {
    assert_eq!(encode(&Frame::Simple("OK".to_string())), b"+OK\r\n".to_vec());
    assert_eq!(encode(&Frame::Error("ERR x".to_string())), b"-ERR x\r\n".to_vec());
    assert_eq!(encode(&Frame::Integer(1234)), b":1234\r\n".to_vec());
    assert_eq!(encode(&Frame::Bulk(b"abc".to_vec())), b"$3\r\nabc\r\n".to_vec());
    assert_eq!(encode(&Frame::Null), b"$-1\r\n".to_vec());
    assert_eq!(encode(&Frame::Bulk(Vec::new())), b"$0\r\n\r\n".to_vec());
}

#[test]
fn array_is_written_entry_by_entry() {
    let mut f = Frame::array();
    f.push_bulk(b"a".to_vec());
    f.push_int(0);
    assert_eq!(encode(&f), b"*2\r\n$1\r\na\r\n:0\r\n".to_vec());
}

#[test]
fn write_value_and_decimal() {
    let mut out = Vec::new();
    write_value(&Frame::Integer(0), &mut out);
    write_decimal(18446744073709551615, &mut out);
    assert_eq!(out, b":0\r\n18446744073709551615\r\n".to_vec());
    let mut digits = Vec::new();
    push_decimal(340282366920938463463374607431768211455, &mut digits);
    assert_eq!(digits, b"340282366920938463463374607431768211455".to_vec());
}

#[test]
fn written_frames_read_back() {
    let mut f = Frame::array();
    f.push_bulk(b"x\r\ny".to_vec());
    f.push_int(9);
    let bytes = encode(&f);
    let back = decode(&bytes);
    assert_eq!(encode(&back), bytes);
    for v in [
        Frame::Simple("hello world".to_string()),
        Frame::Error("ERR".to_string()),
        Frame::Integer(u64::MAX),
        Frame::Bulk(vec![0, 13, 10, 255]),
        Frame::Null,
    ] {
        let bytes = encode(&v);
        assert_eq!(encode(&decode(&bytes)), bytes);
    }
}

#[test]
fn frame_followed_by_more_bytes_leaves_them() {
    let mut buf = Connection::new();
    buf.extend(b":5\r\n+PA");
    let f = buf.parse_frame().unwrap().unwrap();
    assert!(matches!(f, Frame::Integer(5)));
    assert!(buf.parse_frame().unwrap().is_none());
    buf.extend(b"RT\r\n");
    match buf.parse_frame().unwrap().unwrap() {
        Frame::Simple(s) => assert_eq!(s, "PART"),
        other => panic!("{:?}", other),
    }
}

#[test]
fn check_reports_incomplete_and_invalid() {
    assert!(matches!(Frame::check(b"$5\r\nab", 0), Err(Error::Incomplete)));
    assert!(matches!(Frame::check(b"", 0), Err(Error::Incomplete)));
    assert!(matches!(Frame::check(b"?oops\r\n", 0), Err(Error::Other(_))));
    // The digits of an integer are read as `atoi` reads them.
    assert_eq!(Frame::check(b":12x\r\n", 0).unwrap(), 6);
    assert!(matches!(Frame::check(b":x\r\n", 0), Err(Error::Other(_))));
    assert_eq!(Frame::check(b"$-1\r\n", 0).unwrap(), 5);
    assert_eq!(Frame::check(b"*1\r\n:1\r\nrest", 0).unwrap(), 8);
}

#[test]
fn parse_builds_nested_arrays() {
    let (f, end) = Frame::parse(b"*2\r\n*1\r\n+a\r\n$-1\r\n", 0).unwrap();
    assert_eq!(end, 17);
    match f {
        Frame::Array(items) => {
            assert_eq!(items.len(), 2);
            assert!(matches!(&items[0], Frame::Array(inner) if inner.len() == 1));
            assert!(matches!(items[1], Frame::Null));
        }
        other => panic!("{:?}", other),
    }
}

#[test]
fn invalid_bytes_are_an_error() {
    let mut buf = Connection::new();
    buf.extend(b"!\r\n");
    assert!(matches!(buf.parse_frame(), Err(Error::Other(_))));
}

#[test]
fn invalid_utf8_simple_string_is_an_error() {
    let mut buf = Connection::new();
    buf.extend(b"+\xff\r\n");
    assert!(matches!(buf.parse_frame(), Err(Error::Other(_))));
}

#[test]
fn connection_output_is_taken_once() {
    let mut conn = Connection::new();
    conn.write_frame(&Frame::Simple("OK".to_string()));
    conn.write_frame(&Frame::Integer(2));
    assert_eq!(conn.take_output(), b"+OK\r\n:2\r\n".to_vec());
    assert!(conn.take_output().is_empty());

    // What one side writes, the other reads back.
    let mut f = Frame::array();
    f.push_bulk(b"get".to_vec());
    f.push_bulk(b"key".to_vec());
    conn.write_frame(&f);
    let mut peer = Connection::new();
    peer.extend(&conn.take_output());
    let back = peer.parse_frame().unwrap().unwrap();
    assert_eq!(encode(&back), encode(&f));
}

#[test]
fn every_proper_prefix_of_a_frame_waits_for_more() {
    let mut f = Frame::array();
    f.push_bulk(b"set".to_vec());
    f.push_bulk(b"k\r\n".to_vec());
    f.push_int(12);
    let mut frames = vec![f, Frame::Simple("OK".to_string()), Frame::Null, Frame::Integer(7)];
    frames.push(Frame::Bulk(b"abc".to_vec()));
    for frame in &frames {
        let bytes = encode(frame);
        for k in 0..bytes.len() {
            let mut conn = Connection::new();
            conn.extend(&bytes[..k]);
            assert!(conn.parse_frame().unwrap().is_none(), "prefix of length {}", k);
            // The rest arrives: the frame is read whole.
            conn.extend(&bytes[k..]);
            let back = conn.parse_frame().unwrap().unwrap();
            assert_eq!(encode(&back), bytes);
        }
    }
}
