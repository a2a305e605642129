use mini_redis::cmd::{Command, Get, Ping, Publish, SetCmd, Subscribe, Unsubscribe};
use mini_redis::connection::{write_frame, Connection};
use mini_redis::parse::{Parse, ParseError};
use mini_redis::Frame;

fn bytes_of(frame: &Frame) -> Vec<u8> {
    let mut out = Vec::new();
    write_frame(frame, &mut out);
    out
}

/// Reads the bytes back as one frame, then as a command.
fn read_command(bytes: &[u8]) -> Command {
    let mut buf = Connection::new();
    buf.extend(bytes);
    let frame = buf.parse_frame().unwrap().unwrap();
    assert!(buf.is_empty());
    Command::from_frame(frame).unwrap()
}

fn frame_of(parts: &[&str]) -> Frame {
    let mut f = Frame::array();
    for p in parts {
        f.push_bulk(p.as_bytes().to_vec());
    }
    f
}

#[test]
fn get_round_trip() {
    let bytes = bytes_of(&Get::new("hello").into_frame());
    assert_eq!(&b"*2\r\n$3\r\nget\r\n$5\r\nhello\r\n"[..], &bytes[..]);
    match read_command(&bytes) {
        Command::Get(g) => assert_eq!(g.key(), "hello"),
        other => panic!("{:?}", other),
    }
}

#[test]
fn set_round_trip_with_expiration() {
    let bytes = bytes_of(&SetCmd::new("k", b"v".to_vec(), Some(1500)).into_frame());
    assert_eq!(
        &b"*5\r\n$3\r\nset\r\n$1\r\nk\r\n$1\r\nv\r\n$2\r\npx\r\n$4\r\n1500\r\n"[..],
        &bytes[..]
    );
    match read_command(&bytes) {
        Command::SetCmd(s) => {
            assert_eq!(s.key(), "k");
            assert_eq!(&s.value()[..], b"v");
            assert_eq!(s.expire(), Some(1500));
        }
        other => panic!("{:?}", other),
    }
}

#[test]
fn set_round_trip_without_expiration() {
    let bytes = bytes_of(&SetCmd::new("k", b"v".to_vec(), None).into_frame());
    assert_eq!(&b"*3\r\n$3\r\nset\r\n$1\r\nk\r\n$1\r\nv\r\n"[..], &bytes[..]);
    match read_command(&bytes) {
        Command::SetCmd(s) => assert_eq!(s.expire(), None),
        other => panic!("{:?}", other),
    }
}

#[test]
fn set_expiration_in_seconds_is_read_as_milliseconds() {
    match Command::from_frame(frame_of(&["SET", "k", "v", "ex", "10"])).unwrap() {
        Command::SetCmd(s) => assert_eq!(s.expire(), Some(10_000)),
        other => panic!("{:?}", other),
    }
    match Command::from_frame(frame_of(&["set", "k", "v", "Px", "+25"])).unwrap() {
        Command::SetCmd(s) => assert_eq!(s.expire(), Some(25)),
        other => panic!("{:?}", other),
    }
}

#[test]
fn set_with_unknown_option_is_refused() {
    match Command::from_frame(frame_of(&["SET", "k", "v", "KEEPTTL"])) {
        Err(ParseError::Other(m)) => {
            assert_eq!(m, "currently `SET` only supports the expiration option")
        }
        other => panic!("{:?}", other),
    }
}

#[test]
fn set_with_bad_number_is_refused() {
    match Command::from_frame(frame_of(&["SET", "k", "v", "EX", "ten"])) {
        Err(ParseError::Other(m)) => assert_eq!(m, "protocol error; invalid number"),
        other => panic!("{:?}", other),
    }
    match Command::from_frame(frame_of(&["SET", "k", "v", "EX", "-3"])) {
        Err(ParseError::Other(m)) => assert_eq!(m, "protocol error; invalid number"),
        other => panic!("{:?}", other),
    }
    match Command::from_frame(frame_of(&["SET", "k", "v", "EX", "18446744073709551616"])) {
        Err(ParseError::Other(m)) => assert_eq!(m, "protocol error; invalid number"),
        other => panic!("{:?}", other),
    }
}

#[test]
fn set_with_missing_ttl_is_end_of_stream() {
    assert!(matches!(
        Command::from_frame(frame_of(&["SET", "k", "v", "EX"])),
        Err(ParseError::EndOfStream)
    ));
}

#[test]
fn publish_round_trip() {
    let bytes = bytes_of(&Publish::new("news", b"hi".to_vec()).into_frame());
    assert_eq!(&b"*3\r\n$7\r\npublish\r\n$4\r\nnews\r\n$2\r\nhi\r\n"[..], &bytes[..]);
    assert_eq!(read_command(&bytes).get_name(), "publish");
}

#[test]
fn subscribe_round_trip() {
    let channels = vec!["a".to_string(), "bc".to_string()];
    let bytes = bytes_of(&Subscribe::new(channels.clone()).into_frame());
    assert_eq!(&b"*3\r\n$9\r\nsubscribe\r\n$1\r\na\r\n$2\r\nbc\r\n"[..], &bytes[..]);
    match read_command(&bytes) {
        Command::Subscribe(s) => {
            let (pending, subscriptions) = s.start();
            assert_eq!(pending, channels);
            assert_eq!(subscriptions.len(), 0);
        }
        other => panic!("{:?}", other),
    }
}

#[test]
fn subscribe_needs_a_channel() {
    assert!(matches!(
        Command::from_frame(frame_of(&["SUBSCRIBE"])),
        Err(ParseError::EndOfStream)
    ));
}

#[test]
fn unsubscribe_round_trip_without_channels() {
    let bytes = bytes_of(&Unsubscribe::new(&[]).into_frame());
    assert_eq!(&b"*1\r\n$11\r\nunsubscribe\r\n"[..], &bytes[..]);
    assert_eq!(read_command(&bytes).get_name(), "unsubscribe");
}

#[test]
fn ping_round_trip() {
    let bytes = bytes_of(&Ping::new(None).into_frame());
    assert_eq!(&b"*1\r\n$4\r\nping\r\n"[..], &bytes[..]);
    assert_eq!(read_command(&bytes).get_name(), "ping");
    let bytes = bytes_of(&Ping::new(Some(b"yo".to_vec())).into_frame());
    assert_eq!(&b"*2\r\n$4\r\nping\r\n$2\r\nyo\r\n"[..], &bytes[..]);
}

#[test]
fn command_names_are_case_insensitive() {
    assert_eq!(Command::from_frame(frame_of(&["GeT", "x"])).unwrap().get_name(), "get");
    assert_eq!(Command::from_frame(frame_of(&["PING"])).unwrap().get_name(), "ping");
}

#[test]
fn unknown_command_keeps_lowercase_name() {
    let cmd = Command::from_frame(frame_of(&["FLUSHALL", "now"])).unwrap();
    assert_eq!(cmd.get_name(), "flushall");
    assert!(matches!(cmd, Command::Unknown(_)));
}

#[test]
fn command_name_must_be_a_string() {
    let mut f = Frame::array();
    f.push_int(7);
    match Command::from_frame(f) {
        Err(ParseError::Other(m)) => {
            assert_eq!(m, "protocol error; expected simple frame or bulk frame, got Integer(7)")
        }
        other => panic!("{:?}", other),
    }
}

#[test]
fn empty_array_is_end_of_stream() {
    assert!(matches!(Command::from_frame(Frame::array()), Err(ParseError::EndOfStream)));
}

#[test]
fn invalid_utf8_key_is_refused() {
    let mut f = Frame::array();
    f.push_bulk(b"get".to_vec());
    f.push_bulk(vec![0xff, 0xfe]);
    match Command::from_frame(f) {
        Err(ParseError::Other(m)) => assert_eq!(m, "protocol error; invalid string"),
        other => panic!("{:?}", other),
    }
}

#[test]
fn parse_reads_entries_in_order() {
    let mut f = Frame::array();
    f.push_bulk(b"abc".to_vec());
    f.push_int(42);
    f.push_bulk(b"7".to_vec());
    let mut parse = Parse::new(f).unwrap();
    assert_eq!(parse.next_string().unwrap(), "abc");
    assert_eq!(parse.next_int().unwrap(), 42);
    assert_eq!(parse.next_int().unwrap(), 7);
    assert!(parse.finish().is_ok());
    assert!(matches!(parse.next(), Err(ParseError::EndOfStream)));
}

#[test]
fn parse_reads_bytes_of_a_simple_string() {
    let mut f = Frame::array();
    f.push_bulk(vec![0xff]);
    let mut parse = Parse::new(f).unwrap();
    assert_eq!(parse.next_bytes().unwrap(), vec![0xff]);
}

#[test]
fn parse_finish_refuses_extra_entries() {
    let mut parse = Parse::new(frame_of(&["a"])).unwrap();
    match parse.finish() {
        Err(ParseError::Other(m)) => {
            assert_eq!(m, "protocol error; expected end of frame, but there was more")
        }
        other => panic!("{:?}", other),
    }
}

#[test]
fn parse_error_messages() {
    assert_eq!(
        ParseError::EndOfStream.to_string(),
        "protocol error; unexpected end of stream"
    );
    assert_eq!(ParseError::Other("boom".to_string()).to_string(), "boom");
}

#[test]
fn parse_of_a_non_array_is_refused() {
    match Parse::new(Frame::Null) {
        Err(ParseError::Other(m)) => assert_eq!(m, "protocol error; expected array, got Null"),
        other => panic!("{:?}", other),
    }
}

#[test]
fn int_entry_expected() {
    let mut f = Frame::array();
    f.push_bulk(b"x".to_vec());
    let mut parse = Parse::new(Frame::Array(vec![Frame::Null])).unwrap();
    match parse.next_int() {
        Err(ParseError::Other(m)) => assert_eq!(m, "protocol error; expected int frame but got Null"),
        other => panic!("{:?}", other),
    }
    let mut parse = Parse::new(f).unwrap();
    match parse.next_int() {
        Err(ParseError::Other(m)) => assert_eq!(m, "protocol error; invalid number"),
        other => panic!("{:?}", other),
    }
}

#[test]
fn refused_arguments_carry_their_message() {
    let mut f = Frame::array();
    f.push_bulk(b"publish".to_vec());
    f.push_bulk(b"ch".to_vec());
    f.push_int(3);
    match Command::from_frame(f) {
        Err(ParseError::Other(m)) => {
            assert_eq!(m, "protocol error; expected simple frame or bulk frame, got Integer(3)")
        }
        other => panic!("{:?}", other),
    }
    match Command::from_frame(frame_of(&["SET", "k", "v", "NX"])) {
        Err(ParseError::Other(m)) => {
            assert_eq!(m, "currently `SET` only supports the expiration option")
        }
        other => panic!("{:?}", other),
    }
}
