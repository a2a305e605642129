use vstd::prelude::*;
use vstd::utf8::*;
use crate::cmd::{bulk_text, ping_args, read_matches, SpecCommand};
use crate::frame::{Frame, SpecFrame};
use crate::parse::{Parse, ParseError};
use crate::text::to_owned_string;

verus! {

broadcast use vstd::seq_lib::lemma_seq_skip_nothing;

/// Returns PONG if no argument is provided, otherwise
/// return a copy of the argument as a bulk.
///
/// This command is often used to test if a connection
/// is still alive, or to measure latency.
#[derive(Debug)]
pub struct Ping {
    /// optional message to be returned
    msg: Option<Vec<u8>>,
}

/// The value of an optional message.
pub open spec fn msg_view(msg: Option<Vec<u8>>) -> Option<Seq<u8>> {
    match msg {
        Some(m) => Some(m@),
        None => None,
    }
}

impl Ping {
    /// The message, as bytes.
    pub closed spec fn msg_view(&self) -> Option<Seq<u8>> {
        msg_view(self.msg)
    }
}

impl View for Ping {
    type V = SpecCommand;

    open spec fn view(&self) -> SpecCommand {
        SpecCommand::Ping { msg: self.msg_view() }
    }
}

/// The frame a client sends for `PING [message]`.
pub open spec fn ping_frame(msg: Option<Seq<u8>>) -> SpecFrame {
    match msg {
        None => SpecFrame::Array(seq![SpecFrame::Bulk(encode_utf8("ping"@))]),
        Some(m) => SpecFrame::Array(seq![SpecFrame::Bulk(encode_utf8("ping"@)), SpecFrame::Bulk(m)]),
    }
}

/// The response to `PING`: `PONG`, or the message as a bulk string.
pub open spec fn ping_response(msg: Option<Seq<u8>>) -> SpecFrame {
    match msg {
        None => SpecFrame::Simple("PONG"@),
        Some(m) => SpecFrame::Bulk(m),
    }
}

impl Ping {
    /// Create a new `Ping` command with optional `msg`.
    pub fn new(msg: Option<Vec<u8>>) -> (p: Ping)
        ensures
            p@ == (SpecCommand::Ping { msg: msg_view(msg) }),
    {
        Ping { msg }
    }

    /// Parse a `Ping` instance from a received frame.
    ///
    /// The `PING` string has already been consumed.
    ///
    /// # Format
    ///
    /// Expects an array frame containing `PING` and an optional message.
    ///
    /// ```text
    /// PING [message]
    /// ```
    pub fn parse_frames(parse: &mut Parse) -> (res: Result<Ping, ParseError>)
        ensures
            read_matches(ping_args(old(parse)@), res, old(parse)@, final(parse)@),
    {
        match parse.next_bytes() {
            Ok(msg) => Ok(Ping::new(Some(msg))),
            Err(ParseError::EndOfStream) => Ok(Ping::new(None)),
            Err(e) => Err(e),
        }
    }

    /// Apply the `Ping` command and return the response to write to the
    /// client.
    pub fn apply(self) -> (response: Frame)
        ensures
            response@ == ping_response(self@->Ping_msg),
    {
        match self.msg {
            None => Frame::Simple(to_owned_string("PONG")),
            Some(msg) => Frame::Bulk(msg),
        }
    }

    /// Converts the command into an equivalent `Frame`.
    ///
    /// This is called by the client when encoding a `Ping` command to send
    /// to the server.
    pub fn into_frame(self) -> (f: Frame)
        ensures
            f@ == ping_frame(self@->Ping_msg),
    {
        let ghost msg = self@->Ping_msg;
        let mut frame = Frame::array();
        frame.push_bulk(bulk_text("ping"));
        match self.msg {
            Some(msg) => {
                frame.push_bulk(msg);
            },
            None => {},
        }
        proof {
            assert(frame@->Array_0 =~= ping_frame(msg)->Array_0);
        }
        frame
    }
}

} // verus!
