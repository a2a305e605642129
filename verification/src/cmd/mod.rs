//! The supported Redis commands: how each is read from a frame, what the
//! server does with it, and the frame a client sends for it.

use vstd::prelude::*;
use vstd::utf8::*;
use crate::channel::Sent;
use crate::db::{
    expires, get_spec, law_set_wakes_purge_for_earlier_expiration, published, set_notifies, set_spec,
    DbView, State,
};
use crate::frame::{Frame, SpecFrame};
use crate::parse::{
    bytes_error, bytes_value, frame_debug, int_error, int_value, string_error, string_value, Parse,
    ParseError,
};
use crate::text::{eq_str, lowercase, to_lowercase, to_owned_string, uppercase};

pub mod get;
pub mod ping;
pub mod publish;
pub mod request;
pub mod set;
pub mod subscribe;
pub mod unknown;

pub use get::Get;
pub use ping::Ping;
pub use publish::Publish;
pub use set::SetCmd;
pub use subscribe::{Subscribe, Unsubscribe};
pub use unknown::Unknown;
use get::get_response;
use ping::ping_response;
use unknown::unknown_response;

verus! {

broadcast use vstd::utf8::group_utf8_lib;

/// The value of a command.
pub enum SpecCommand {
    Get { key: Seq<char> },
    Publish { channel: Seq<char>, message: Seq<u8> },
    /// `expire` is a time to live in milliseconds.
    SetCmd { key: Seq<char>, value: Seq<u8>, expire: Option<u128> },
    Subscribe { channels: Seq<Seq<char>> },
    Unsubscribe { channels: Seq<Seq<char>> },
    Ping { msg: Option<Seq<u8>> },
    Unknown { name: Seq<char> },
}

/// The outcome of reading a command's arguments from the entries of a
/// frame: in every case, how many entries were consumed.
pub enum Read<T> {
    /// Read a value.
    Done(T, int),
    /// An argument is missing.
    EndOfStream(int),
    /// An argument has the wrong form; with the error message.
    Invalid(int, Seq<char>),
}

/// A reading result and a parser's state agree with a spec outcome.
pub open spec fn read_matches<T: View<V = SpecCommand>>(
    d: Read<SpecCommand>,
    res: Result<T, ParseError>,
    before: Seq<SpecFrame>,
    after: Seq<SpecFrame>,
) -> bool {
    match d {
        Read::Done(c, n) => res matches Ok(v) && v@ == c && after == before.skip(n),
        Read::EndOfStream(n) => res matches Err(ParseError::EndOfStream) && after == before.skip(n),
        Read::Invalid(n, m) => res matches Err(ParseError::Other(e)) && e@ == m && after == before.skip(n),
    }
}

/// `GET key`
pub open spec fn get_args(a: Seq<SpecFrame>) -> Read<SpecCommand> {
    if a.len() == 0 {
        Read::EndOfStream(0)
    } else {
        match string_value(a[0]) {
            Some(key) => Read::Done(SpecCommand::Get { key }, 1),
            None => Read::Invalid(1, string_error(a[0])),
        }
    }
}

/// `PUBLISH channel message`
pub open spec fn publish_args(a: Seq<SpecFrame>) -> Read<SpecCommand> {
    if a.len() == 0 {
        Read::EndOfStream(0)
    } else {
        match string_value(a[0]) {
            None => Read::Invalid(1, string_error(a[0])),
            Some(channel) => if a.len() == 1 {
                Read::EndOfStream(1)
            } else {
                match bytes_value(a[1]) {
                    None => Read::Invalid(2, bytes_error(a[1])),
                    Some(message) => Read::Done(SpecCommand::Publish { channel, message }, 2),
                }
            },
        }
    }
}

/// The expiration option of `SET`, once its name is read and upper-cased
/// to `option`: `EX seconds` or `PX milliseconds`, as milliseconds.
pub open spec fn expire_args(option: Seq<char>, a: Seq<SpecFrame>) -> Read<Option<u128>> {
    if option == "EX"@ || option == "PX"@ {
        if a.len() == 0 {
            Read::EndOfStream(0)
        } else {
            match int_value(a[0]) {
                Some(v) => Read::Done(
                    Some(
                        if option == "EX"@ {
                            (v * 1000) as u128
                        } else {
                            v as u128
                        },
                    ),
                    1,
                ),
                None => Read::Invalid(1, int_error(a[0])),
            }
        }
    } else {
        Read::Invalid(0, unsupported_option())
    }
}

/// `SET key value [EX seconds|PX milliseconds]`
pub open spec fn set_args(a: Seq<SpecFrame>) -> Read<SpecCommand> {
    if a.len() == 0 {
        Read::EndOfStream(0)
    } else {
        match string_value(a[0]) {
            None => Read::Invalid(1, string_error(a[0])),
            Some(key) => if a.len() == 1 {
                Read::EndOfStream(1)
            } else {
                match bytes_value(a[1]) {
                    None => Read::Invalid(2, bytes_error(a[1])),
                    Some(value) => if a.len() == 2 {
                        Read::Done(SpecCommand::SetCmd { key, value, expire: None }, 2)
                    } else {
                        match string_value(a[2]) {
                            None => Read::Invalid(3, string_error(a[2])),
                            Some(option) => match expire_args(uppercase(option), a.skip(3)) {
                                Read::Done(expire, n) => Read::Done(
                                    SpecCommand::SetCmd { key, value, expire },
                                    3 + n,
                                ),
                                Read::EndOfStream(n) => Read::EndOfStream(3 + n),
                                Read::Invalid(n, m) => Read::Invalid(3 + n, m),
                            },
                        }
                    },
                }
            },
        }
    }
}

/// The outcome of reading every remaining entry as a string.
pub enum Strings {
    All(Seq<Seq<char>>),
    /// The entry at this index is not a string.
    BadAt(int),
}

/// Reads every entry of `a` as a string.
pub open spec fn read_strings(a: Seq<SpecFrame>) -> Strings
    decreases a.len(),
{
    if a.len() == 0 {
        Strings::All(Seq::empty())
    } else {
        match string_value(a[0]) {
            None => Strings::BadAt(0),
            Some(s) => match read_strings(a.drop_first()) {
                Strings::All(rest) => Strings::All(seq![s] + rest),
                Strings::BadAt(i) => Strings::BadAt(i + 1),
            },
        }
    }
}

/// `SUBSCRIBE channel [channel ...]`
pub open spec fn subscribe_args(a: Seq<SpecFrame>) -> Read<SpecCommand> {
    if a.len() == 0 {
        Read::EndOfStream(0)
    } else {
        match read_strings(a) {
            Strings::All(channels) => Read::Done(SpecCommand::Subscribe { channels }, a.len() as int),
            Strings::BadAt(i) => Read::Invalid(i + 1, string_error(a[i])),
        }
    }
}

/// `UNSUBSCRIBE [channel [channel ...]]`
pub open spec fn unsubscribe_args(a: Seq<SpecFrame>) -> Read<SpecCommand> {
    match read_strings(a) {
        Strings::All(channels) => Read::Done(SpecCommand::Unsubscribe { channels }, a.len() as int),
        Strings::BadAt(i) => Read::Invalid(i + 1, string_error(a[i])),
    }
}

/// `PING [message]`
pub open spec fn ping_args(a: Seq<SpecFrame>) -> Read<SpecCommand> {
    if a.len() == 0 {
        Read::Done(SpecCommand::Ping { msg: None }, 0)
    } else {
        match bytes_value(a[0]) {
            Some(msg) => Read::Done(SpecCommand::Ping { msg: Some(msg) }, 1),
            None => Read::Invalid(1, bytes_error(a[0])),
        }
    }
}

/// The outcome of reading a whole command from a frame.
pub enum Parsed {
    /// The frame holds this command.
    Command(SpecCommand),
    /// An entry the command needs is missing.
    EndOfStream,
    /// The frame is not a valid command; with the error message.
    Invalid(Seq<char>),
}

/// The error when entries are left once a command is read.
pub open spec fn leftover_entries() -> Seq<char> {
    "protocol error; expected end of frame, but there was more"@
}

/// The error for an option of `SET` other than the expiration.
pub open spec fn unsupported_option() -> Seq<char> {
    "currently `SET` only supports the expiration option"@
}

/// A command read in full: every entry must be consumed, else the frame is
/// invalid.
pub open spec fn finished(d: Read<SpecCommand>, a: Seq<SpecFrame>) -> Parsed {
    match d {
        Read::Done(c, n) => if n == a.len() {
            Parsed::Command(c)
        } else {
            Parsed::Invalid(leftover_entries())
        },
        Read::EndOfStream(_) => Parsed::EndOfStream,
        Read::Invalid(_, m) => Parsed::Invalid(m),
    }
}

/// The command named `name` (already lower-cased) with arguments `a`.
pub open spec fn command_named(name: Seq<char>, a: Seq<SpecFrame>) -> Parsed {
    if name == "get"@ {
        finished(get_args(a), a)
    } else if name == "publish"@ {
        finished(publish_args(a), a)
    } else if name == "set"@ {
        finished(set_args(a), a)
    } else if name == "subscribe"@ {
        finished(subscribe_args(a), a)
    } else if name == "unsubscribe"@ {
        finished(unsubscribe_args(a), a)
    } else if name == "ping"@ {
        finished(ping_args(a), a)
    } else {
        Parsed::Command(SpecCommand::Unknown { name })
    }
}

/// The command a frame holds: an array whose first entry, a string, names
/// the command (in any case), followed by its arguments.
pub open spec fn command_of(f: SpecFrame) -> Parsed {
    match f {
        SpecFrame::Array(items) => if items.len() == 0 {
            Parsed::EndOfStream
        } else {
            match string_value(items[0]) {
                Some(name) => command_named(lowercase(name), items.drop_first()),
                None => Parsed::Invalid(string_error(items[0])),
            }
        },
        _ => Parsed::Invalid("protocol error; expected array, got "@ + frame_debug(f)),
    }
}

/// A result agrees with the outcome of reading a command.
pub open spec fn parsed_matches(p: Parsed, res: Result<Command, ParseError>) -> bool {
    match p {
        Parsed::Command(c) => res matches Ok(cmd) && cmd@ == c,
        Parsed::EndOfStream => res matches Err(ParseError::EndOfStream),
        Parsed::Invalid(m) => res matches Err(ParseError::Other(e)) && e@ == m,
    }
}

/// The name of a command, as `get_name` returns it.
pub open spec fn command_name(c: SpecCommand) -> Seq<char> {
    match c {
        SpecCommand::Get { .. } => "get"@,
        SpecCommand::Publish { .. } => "publish"@,
        SpecCommand::SetCmd { .. } => "set"@,
        SpecCommand::Subscribe { .. } => "subscribe"@,
        SpecCommand::Unsubscribe { .. } => "unsubscribe"@,
        SpecCommand::Ping { .. } => "ping"@,
        SpecCommand::Unknown { name } => name,
    }
}

/// A bulk string frame's bytes for a text.
pub fn bulk_text(s: &str) -> (b: Vec<u8>)
    ensures
        b@ == encode_utf8(s@),
{
    vstd::slice::slice_to_vec(s.as_bytes())
}

/// Enumeration of supported Redis commands.
///
/// Methods called on `Command` are delegated to the command implementation.
#[derive(Debug)]
pub enum Command {
    Get(Get),
    Publish(Publish),
    SetCmd(SetCmd),
    Subscribe(Subscribe),
    Unsubscribe(Unsubscribe),
    Ping(Ping),
    Unknown(Unknown),
}

impl View for Command {
    type V = SpecCommand;

    open spec fn view(&self) -> SpecCommand {
        match self {
            Command::Get(c) => c@,
            Command::Publish(c) => c@,
            Command::SetCmd(c) => c@,
            Command::Subscribe(c) => c@,
            Command::Unsubscribe(c) => c@,
            Command::Ping(c) => c@,
            Command::Unknown(c) => c@,
        }
    }
}

/// What the server does once a command is applied.
pub enum Outcome {
    /// Write `frame` to the client. `notify` says whether the task that
    /// purges expired keys must be woken. `sent` is the record of the send
    /// of a `PUBLISH` on an existing channel.
    Reply { frame: Frame, notify: bool, sent: Option<Sent> },
    /// The connection enters the subscribed state with this command.
    Subscribe(Subscribe),
}

/// The error message when `UNSUBSCRIBE` arrives outside the subscribed
/// state.
pub open spec fn unsubscribe_unsupported() -> Seq<char> {
    "`Unsubscribe` is unsupported in this context"@
}

/// What applying the command `c` at time `now` does: the state goes from
/// `before` to `after`, and `res` is the outcome.
pub open spec fn applied(
    c: SpecCommand,
    before: DbView,
    after: DbView,
    now: u128,
    res: Result<Outcome, String>,
) -> bool {
    match c {
        SpecCommand::Get { key } => {
            &&& after == before
            &&& res matches Ok(Outcome::Reply { frame, notify, .. })
            &&& frame@ == get_response(get_spec(before, key))
            &&& !notify
        },
        SpecCommand::Publish { channel, message } => {
            &&& after == before
            &&& res matches Ok(Outcome::Reply { frame, notify, sent })
            &&& frame@ matches SpecFrame::Integer(n)
            &&& published(before, channel, message, n as int, sent)
            &&& !notify
        },
        SpecCommand::SetCmd { key, value, expire } => {
            &&& after == set_spec(before, key, value, expire, now)
            &&& res matches Ok(Outcome::Reply { frame, notify, .. })
            &&& frame@ == SpecFrame::Simple("OK"@)
            &&& notify == set_notifies(before, expire, now)
        },
        SpecCommand::Subscribe { .. } => {
            &&& after == before
            &&& res matches Ok(Outcome::Subscribe(s))
            &&& s@ == c
        },
        SpecCommand::Unsubscribe { .. } => {
            &&& after == before
            &&& res matches Err(m)
            &&& m@ == unsubscribe_unsupported()
        },
        SpecCommand::Ping { msg } => {
            &&& after == before
            &&& res matches Ok(Outcome::Reply { frame, notify, .. })
            &&& frame@ == ping_response(msg)
            &&& !notify
        },
        SpecCommand::Unknown { name } => {
            &&& after == before
            &&& res matches Ok(Outcome::Reply { frame, notify, .. })
            &&& frame@ == unknown_response(name)
            &&& !notify
        },
    }
}

impl Command {
    /// Parse a command from a received frame.
    ///
    /// The `Frame` must represent a Redis command supported by `mini-redis`
    /// and be the array variant.
    ///
    /// # Returns
    ///
    /// On success, the command value is returned, otherwise, `Err` is
    /// returned.
    pub fn from_frame(frame: Frame) -> (res: Result<Command, ParseError>)
        ensures
            parsed_matches(command_of(frame@), res),
    {
        let ghost f = frame@;
        // The frame value is decorated with `Parse`. `Parse` provides a
        // "cursor" like API which makes parsing the command easier.
        //
        // The frame value must be an array variant. Any other frame variants
        // result in an error being returned.
        let mut parse = match Parse::new(frame) {
            Ok(p) => p,
            Err(e) => return Err(e),
        };
        let ghost items = parse@;
        // All redis commands begin with the command name as a string. The
        // name is read and converted to lower cases in order to do case
        // sensitive matching.
        let name = match parse.next_string() {
            Ok(s) => s,
            Err(e) => return Err(e),
        };
        let command_name = to_lowercase(name.as_str());
        let ghost a = parse@;
        proof {
            assert(a == items.drop_first());
        }
        // Match the command name, delegating the rest of the parsing to the
        // specific command.
        if eq_str(command_name.as_str(), "get") {
            let ghost d = get_args(a);
            let cmd = match Get::parse_frames(&mut parse) {
                Ok(c) => Command::Get(c),
                Err(e) => return Err(e),
            };
            Self::finish_read(cmd, &mut parse, Ghost(d), Ghost(a))
        } else if eq_str(command_name.as_str(), "publish") {
            let ghost d = publish_args(a);
            let cmd = match Publish::parse_frames(&mut parse) {
                Ok(c) => Command::Publish(c),
                Err(e) => return Err(e),
            };
            Self::finish_read(cmd, &mut parse, Ghost(d), Ghost(a))
        } else if eq_str(command_name.as_str(), "set") {
            let ghost d = set_args(a);
            let cmd = match SetCmd::parse_frames(&mut parse) {
                Ok(c) => Command::SetCmd(c),
                Err(e) => return Err(e),
            };
            Self::finish_read(cmd, &mut parse, Ghost(d), Ghost(a))
        } else if eq_str(command_name.as_str(), "subscribe") {
            let ghost d = subscribe_args(a);
            let cmd = match Subscribe::parse_frames(&mut parse) {
                Ok(c) => Command::Subscribe(c),
                Err(e) => return Err(e),
            };
            Self::finish_read(cmd, &mut parse, Ghost(d), Ghost(a))
        } else if eq_str(command_name.as_str(), "unsubscribe") {
            let ghost d = unsubscribe_args(a);
            let cmd = match Unsubscribe::parse_frames(&mut parse) {
                Ok(c) => Command::Unsubscribe(c),
                Err(e) => return Err(e),
            };
            Self::finish_read(cmd, &mut parse, Ghost(d), Ghost(a))
        } else if eq_str(command_name.as_str(), "ping") {
            let ghost d = ping_args(a);
            let cmd = match Ping::parse_frames(&mut parse) {
                Ok(c) => Command::Ping(c),
                Err(e) => return Err(e),
            };
            Self::finish_read(cmd, &mut parse, Ghost(d), Ghost(a))
        } else {
            // The command is not recognized and an Unknown command is
            // returned. The remaining entries are not read: the command is
            // not recognized, so they are most likely unconsumed fields.
            Ok(Command::Unknown(Unknown::new(command_name.as_str())))
        }
    }

    /// Checks that the entries are used up once a command's arguments are
    /// read, which is where `parse` stands after reading the outcome `d` of
    /// the entries `a`.
    fn finish_read(
        cmd: Command,
        parse: &mut Parse,
        Ghost(d): Ghost<Read<SpecCommand>>,
        Ghost(a): Ghost<Seq<SpecFrame>>,
    ) -> (res: Result<Command, ParseError>)
        requires
            d matches Read::Done(c, n) && cmd@ == c && 0 <= n <= a.len() && old(parse)@ == a.skip(n),
        ensures
            parsed_matches(finished(d, a), res),
    {
        match parse.finish() {
            Ok(()) => Ok(cmd),
            Err(e) => Err(e),
        }
    }

    /// Apply the command to the shared state at time `now` (milliseconds).
    ///
    /// The response to write is returned. `SUBSCRIBE` is handed back: the
    /// connection then serves the subscription. `UNSUBSCRIBE` cannot be
    /// applied here; it is only accepted in the context of a `SUBSCRIBE`
    /// command.
    pub fn apply(self, db: &mut State, now: u128) -> (res: Result<Outcome, String>)
        requires
            self@ matches SpecCommand::SetCmd { expire: Some(ms), .. } ==> now + ms <= u128::MAX,
        ensures
            applied(self@, old(db)@, final(db)@, now, res),
    {
        match self {
            Command::Get(cmd) => Ok(Outcome::Reply { frame: cmd.apply(db), notify: false, sent: None }),
            Command::Publish(cmd) => {
                let (frame, sent) = cmd.apply(db);
                Ok(Outcome::Reply { frame, notify: false, sent })
            },
            Command::SetCmd(cmd) => {
                let (frame, notify) = cmd.apply(db, now);
                Ok(Outcome::Reply { frame, notify, sent: None })
            },
            Command::Subscribe(cmd) => Ok(Outcome::Subscribe(cmd)),
            Command::Ping(cmd) => Ok(Outcome::Reply { frame: cmd.apply(), notify: false, sent: None }),
            Command::Unknown(cmd) => Ok(Outcome::Reply { frame: cmd.apply(), notify: false, sent: None }),
            // `Unsubscribe` cannot be applied. It may only be received from
            // the context of a `Subscribe` command.
            Command::Unsubscribe(_) => Err(to_owned_string("`Unsubscribe` is unsupported in this context")),
        }
    }

    /// Returns the command name
    pub fn get_name(&self) -> (name: &str)
        ensures
            name@ == command_name(self@),
    {
        match self {
            Command::Get(_) => "get",
            Command::Publish(_) => "publish",
            Command::SetCmd(_) => "set",
            Command::Subscribe(_) => "subscribe",
            Command::Unsubscribe(_) => "unsubscribe",
            Command::Ping(_) => "ping",
            Command::Unknown(cmd) => cmd.get_name(),
        }
    }
}

/// Applying `SET` wakes the purge task exactly as the state's `set` does:
/// when the new key expires, before every expiration pending until then (so
/// always when none is pending, as on an empty state).
pub proof fn law_apply_set_wakes_purge(
    key: Seq<char>,
    value: Seq<u8>,
    expire: Option<u128>,
    before: DbView,
    after: DbView,
    now: u128,
    res: Result<Outcome, String>,
)
    requires
        applied(SpecCommand::SetCmd { key, value, expire }, before, after, now, res),
        expire matches Some(ms) ==> now + ms <= u128::MAX,
    ensures
        res matches Ok(Outcome::Reply { notify, .. }) && notify == (expire matches Some(ms) && forall|
            k: Seq<char>,
            w: u128,
        | expires(before.entries, k, w) ==> now + ms < w),
        after == set_spec(before, key, value, expire, now),
{
    law_set_wakes_purge_for_earlier_expiration(before, expire, now);
}

} // verus!
