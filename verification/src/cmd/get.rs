use vstd::prelude::*;
use vstd::utf8::*;
use crate::cmd::{bulk_text, get_args, read_matches, SpecCommand};
use crate::db::{get_spec, State};
use crate::frame::{Frame, SpecFrame};
use crate::parse::{Parse, ParseError};
use crate::text::to_owned_string;

verus! {

broadcast use vstd::seq_lib::lemma_seq_skip_nothing;

/// Get the value of key.
///
/// If the key does not exist the special value nil is returned. An error is
/// returned if the value stored at key is not a string, because GET only
/// handles string values.
#[derive(Debug)]
pub struct Get {
    /// Name of the key to get
    key: String,
}

impl Get {
    /// The key, as text.
    pub closed spec fn key_view(&self) -> Seq<char> {
        self.key@
    }
}

impl View for Get {
    type V = SpecCommand;

    open spec fn view(&self) -> SpecCommand {
        SpecCommand::Get { key: self.key_view() }
    }
}

/// The frame a client sends for `GET key`.
pub open spec fn get_frame(key: Seq<char>) -> SpecFrame {
    SpecFrame::Array(seq![SpecFrame::Bulk(encode_utf8("get"@)), SpecFrame::Bulk(encode_utf8(key))])
}

/// The response to `GET`: the value as a bulk string, or null.
pub open spec fn get_response(value: Option<Seq<u8>>) -> SpecFrame {
    match value {
        Some(v) => SpecFrame::Bulk(v),
        None => SpecFrame::Null,
    }
}

impl Get {
    /// Create a new `Get` command which fetches `key`.
    pub fn new(key: &str) -> (g: Get)
        ensures
            g@ == (SpecCommand::Get { key: key@ }),
    {
        Get { key: to_owned_string(key) }
    }

    /// Get the key
    pub fn key(&self) -> (k: &str)
        ensures
            self@ == (SpecCommand::Get { key: k@ }),
    {
        self.key.as_str()
    }

    /// Parse a `Get` instance from a received frame.
    ///
    /// The `Parse` argument provides a cursor-like API to read fields from
    /// the `Frame`. At this point, the entire frame has already been
    /// received from the socket.
    ///
    /// The `GET` string has already been consumed.
    ///
    /// # Format
    ///
    /// Expects an array frame containing two entries.
    ///
    /// ```text
    /// GET key
    /// ```
    pub fn parse_frames(parse: &mut Parse) -> (res: Result<Get, ParseError>)
        ensures
            read_matches(get_args(old(parse)@), res, old(parse)@, final(parse)@),
    {
        // The `GET` string has already been consumed. The next value is the
        // name of the key to get. If the next value is not a string or the
        // input is fully consumed, then an error is returned.
        let key = match parse.next_string() {
            Ok(key) => key,
            Err(e) => return Err(e),
        };
        Ok(Get { key })
    }

    /// Apply the `Get` command to the specified `Db` instance, and return
    /// the response to write to the client.
    pub fn apply(self, db: &State) -> (response: Frame)
        ensures
            response@ == get_response(get_spec(db@, self@->Get_key)),
    {
        // Get the value from the shared database state
        match db.get(self.key.as_str()) {
            // If a value is present, it is written to the client in "bulk"
            // format.
            Some(value) => Frame::Bulk(value),
            // If there is no value, `Null` is written.
            None => Frame::Null,
        }
    }

    /// Converts the command into an equivalent `Frame`.
    ///
    /// This is called by the client when encoding a `Get` command to send to
    /// the server.
    pub fn into_frame(self) -> (f: Frame)
        ensures
            f@ == get_frame(self@->Get_key),
    {
        let mut frame = Frame::array();
        frame.push_bulk(bulk_text("get"));
        frame.push_bulk(bulk_text(self.key.as_str()));
        proof {
            assert(frame@->Array_0 =~= get_frame(self@->Get_key)->Array_0);
        }
        frame
    }
}

} // verus!
