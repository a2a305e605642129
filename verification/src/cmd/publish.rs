use vstd::prelude::*;
use vstd::utf8::*;
use crate::cmd::{bulk_text, publish_args, read_matches, SpecCommand};
use crate::channel::Sent;
use crate::db::{published, State};
use crate::frame::{Frame, SpecFrame};
use crate::parse::{Parse, ParseError};
use crate::text::to_owned_string;

verus! {

broadcast use vstd::seq_lib::lemma_seq_skip_nothing;

/// Posts a message to the given channel.
///
/// Send a message into a channel without any knowledge of individual
/// consumers. Consumers may subscribe to channels in order to receive the
/// messages.
///
/// Channel names have no relation to the key-value namespace. Publishing on
/// a channel named "foo" has no relation to setting the "foo" key.
#[derive(Debug)]
pub struct Publish {
    /// Name of the channel on which the message should be published.
    channel: String,
    /// The message to publish.
    message: Vec<u8>,
}

impl Publish {
    /// The channel name, as text.
    pub closed spec fn channel_view(&self) -> Seq<char> {
        self.channel@
    }

    /// The message, as bytes.
    pub closed spec fn message_view(&self) -> Seq<u8> {
        self.message@
    }
}

impl View for Publish {
    type V = SpecCommand;

    open spec fn view(&self) -> SpecCommand {
        SpecCommand::Publish { channel: self.channel_view(), message: self.message_view() }
    }
}

/// The frame a client sends for `PUBLISH channel message`.
pub open spec fn publish_frame(channel: Seq<char>, message: Seq<u8>) -> SpecFrame {
    SpecFrame::Array(
        seq![
            SpecFrame::Bulk(encode_utf8("publish"@)),
            SpecFrame::Bulk(encode_utf8(channel)),
            SpecFrame::Bulk(message),
        ],
    )
}

impl Publish {
    /// Create a new `Publish` command which sends `message` on `channel`.
    pub fn new(channel: &str, message: Vec<u8>) -> (p: Publish)
        ensures
            p@ == (SpecCommand::Publish { channel: channel@, message: message@ }),
    {
        Publish { channel: to_owned_string(channel), message }
    }

    /// Parse a `Publish` instance from a received frame.
    ///
    /// The `PUBLISH` string has already been consumed.
    ///
    /// # Format
    ///
    /// Expects an array frame containing three entries.
    ///
    /// ```text
    /// PUBLISH channel message
    /// ```
    pub fn parse_frames(parse: &mut Parse) -> (res: Result<Publish, ParseError>)
        ensures
            read_matches(publish_args(old(parse)@), res, old(parse)@, final(parse)@),
    {
        let ghost a = parse@;
        // The `channel` must be a valid string.
        let channel = match parse.next_string() {
            Ok(c) => c,
            Err(e) => {
                proof {
                    assert(a.len() > 0 ==> a.skip(1) =~= a.drop_first());
                }
                return Err(e);
            },
        };
        // The `message` is arbitrary bytes.
        let message = match parse.next_bytes() {
            Ok(m) => m,
            Err(e) => {
                proof {
                    assert(a.skip(1) =~= a.drop_first());
                    assert(a.len() > 1 ==> a.skip(2) =~= a.drop_first().drop_first());
                }
                return Err(e);
            },
        };
        proof {
            assert(a.skip(2) =~= a.drop_first().drop_first());
        }
        Ok(Publish { channel, message })
    }

    /// Apply the `Publish` command to the specified `Db` instance, and
    /// return the response: the number of subscribers listening on the
    /// channel, which is zero when no one ever subscribed to it. When the
    /// channel exists, the message is handed to its sender, and the record
    /// of that send is returned too.
    pub fn apply(self, db: &State) -> (res: (Frame, Option<Sent>))
        ensures
            res.0@ matches SpecFrame::Integer(n) && published(
                db@,
                self@->Publish_channel,
                self@->Publish_message,
                n as int,
                res.1,
            ),
    {
        let (num_subscribers, sent) = db.publish(self.channel.as_str(), self.message);
        (Frame::Integer(num_subscribers as u64), sent)
    }

    /// Converts the command into an equivalent `Frame`.
    ///
    /// This is called by the client when encoding a `Publish` command to
    /// send to the server.
    pub fn into_frame(self) -> (f: Frame)
        ensures
            f@ == publish_frame(self@->Publish_channel, self@->Publish_message),
    {
        let ghost v = self@;
        let mut frame = Frame::array();
        frame.push_bulk(bulk_text("publish"));
        frame.push_bulk(bulk_text(self.channel.as_str()));
        frame.push_bulk(self.message);
        proof {
            assert(frame@->Array_0 =~= publish_frame(v->Publish_channel, v->Publish_message)->Array_0);
        }
        frame
    }
}

} // verus!
