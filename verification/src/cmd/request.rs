//! The frames a client sends for the commands, and what the server reads
//! back from them.

use vstd::prelude::*;
use vstd::utf8::*;
use crate::cmd::get::get_frame;
use crate::cmd::ping::ping_frame;
use crate::cmd::publish::publish_frame;
use crate::cmd::set::set_frame;
use crate::cmd::subscribe::{bulk_names, channels_frame};
use crate::cmd::{
    command_name, command_of, expire_args, get_args, ping_args, publish_args, read_strings, set_args,
    subscribe_args, unsubscribe_args, Parsed, Read, SpecCommand, Strings,
};
use crate::connection::{frame_bytes, frame_read, law_frame_round_trip, round_trips, writable};
use crate::decimal::lemma_atoi_decimal;
use crate::frame::{Decoded, SpecFrame};
use crate::parse::{int_value, string_value};
use crate::text::{lowercase, uppercase};

verus! {

broadcast use vstd::utf8::group_utf8_lib;

/// The frame a client sends for a command; an unknown command has none.
pub open spec fn request_frame(c: SpecCommand) -> Option<SpecFrame> {
    match c {
        SpecCommand::Get { key } => Some(get_frame(key)),
        SpecCommand::Publish { channel, message } => Some(publish_frame(channel, message)),
        SpecCommand::SetCmd { key, value, expire } => Some(set_frame(key, value, expire)),
        SpecCommand::Subscribe { channels } => Some(channels_frame("subscribe"@, channels)),
        SpecCommand::Unsubscribe { channels } => Some(channels_frame("unsubscribe"@, channels)),
        SpecCommand::Ping { msg } => Some(ping_frame(msg)),
        SpecCommand::Unknown { .. } => None,
    }
}

/// A command whose frame the server reads back as the same command: the
/// client sends a time to live in milliseconds, which the server reads as a
/// `u64`, and `SUBSCRIBE` needs at least one channel.
pub open spec fn sendable(c: SpecCommand) -> bool {
    match c {
        SpecCommand::SetCmd { expire, .. } => expire matches Some(ms) ==> ms <= u64::MAX,
        SpecCommand::Subscribe { channels } => channels.len() > 0,
        SpecCommand::Unknown { .. } => false,
        _ => true,
    }
}

/// What the server needs of the case mappings to read back the frame of
/// `c`: lower-casing the command's name leaves it as it is, and, for a `SET`
/// with an expiration, upper-casing `px` gives `PX`. A caller learns both by
/// calling `to_lowercase` and `to_uppercase` on those names.
pub open spec fn names_map_back(c: SpecCommand) -> bool {
    &&& lowercase(command_name(c)) == command_name(c)
    &&& (c matches SpecCommand::SetCmd { expire: Some(_), .. } ==> uppercase("px"@) == "PX"@)
}

/// Every bulk string of a text reads back as that text.
proof fn lemma_read_bulk_names(names: Seq<Seq<char>>)
    ensures
        read_strings(bulk_names(names)) == Strings::All(names),
    decreases names.len(),
{
    if names.len() > 0 {
        let b = bulk_names(names);
        assert(b.drop_first() =~= bulk_names(names.drop_first()));
        lemma_read_bulk_names(names.drop_first());
        assert(string_value(b[0]) == Some(names[0]));
        assert(seq![names[0]] + names.drop_first() =~= names);
    } else {
        assert(bulk_names(names) =~= Seq::<SpecFrame>::empty());
        assert(names =~= Seq::<Seq<char>>::empty());
    }
}

/// The entries after the name in the frame of `SET`, and the result of
/// reading them.
proof fn lemma_set_args(key: Seq<char>, value: Seq<u8>, expire: Option<u128>)
    requires
        expire matches Some(ms) ==> ms <= u64::MAX && uppercase("px"@) == "PX"@,
    ensures
        set_args(set_frame(key, value, expire)->Array_0.drop_first()) == Read::Done(
            SpecCommand::SetCmd { key, value, expire },
            set_frame(key, value, expire)->Array_0.len() - 1,
        ),
{
    let a = set_frame(key, value, expire)->Array_0.drop_first();
    assert(string_value(a[0]) == Some(key));
    match expire {
        Some(ms) => {
            reveal_strlit("px");
            reveal_strlit("PX");
            reveal_strlit("EX");
            lemma_atoi_decimal(ms as u64);
            assert(int_value(a[3]) == Some(ms as u64));
            assert(string_value(a[2]) == Some("px"@));
            assert(a.skip(3) =~= seq![a[3]]);
            assert("PX"@[0] != "EX"@[0]);
            assert((ms as u64) as u128 == ms);
            assert(expire_args("PX"@, a.skip(3)) == Read::Done(Some(ms), 1));
        },
        None => {},
    }
}

/// The arguments of a command's frame read back as the command, using up
/// every entry.
proof fn lemma_request_args(c: SpecCommand)
    requires
        sendable(c),
        names_map_back(c),
    ensures
        request_frame(c) matches Some(f) && f is Array && f->Array_0.len() > 0 && string_value(
            f->Array_0[0],
        ) == Some(command_name(c)) && match c {
            SpecCommand::Get { .. } => get_args(f->Array_0.drop_first()) == Read::Done(c, 1),
            SpecCommand::Publish { .. } => publish_args(f->Array_0.drop_first()) == Read::Done(c, 2),
            SpecCommand::SetCmd { .. } => set_args(f->Array_0.drop_first()) == Read::Done(
                c,
                f->Array_0.len() - 1,
            ),
            SpecCommand::Subscribe { .. } => subscribe_args(f->Array_0.drop_first()) == Read::Done(
                c,
                f->Array_0.len() - 1,
            ),
            SpecCommand::Unsubscribe { .. } => unsubscribe_args(f->Array_0.drop_first())
                == Read::Done(c, f->Array_0.len() - 1),
            SpecCommand::Ping { .. } => ping_args(f->Array_0.drop_first()) == Read::Done(
                c,
                f->Array_0.len() - 1,
            ),
            SpecCommand::Unknown { .. } => false,
        },
{
    let f = request_frame(c)->0;
    let items = f->Array_0;
    let a = items.drop_first();
    match c {
        SpecCommand::Get { key } => {
            assert(string_value(a[0]) == Some(key));
        },
        SpecCommand::Publish { channel, message } => {
            assert(string_value(a[0]) == Some(channel));
        },
        SpecCommand::SetCmd { key, value, expire } => {
            lemma_set_args(key, value, expire);
        },
        SpecCommand::Subscribe { channels } => {
            assert(a =~= bulk_names(channels));
            lemma_read_bulk_names(channels);
        },
        SpecCommand::Unsubscribe { channels } => {
            assert(a =~= bulk_names(channels));
            lemma_read_bulk_names(channels);
        },
        SpecCommand::Ping { msg } => {},
        SpecCommand::Unknown { .. } => {},
    }
}

/// What a client sends for a command, the server reads as that command.
pub proof fn law_request_round_trip(c: SpecCommand)
    requires
        sendable(c),
        names_map_back(c),
    ensures
        request_frame(c) matches Some(f) && command_of(f) == Parsed::Command(c),
{
    reveal_strlit("get");
    reveal_strlit("publish");
    reveal_strlit("set");
    reveal_strlit("subscribe");
    reveal_strlit("unsubscribe");
    reveal_strlit("ping");
    lemma_request_args(c);
}

/// The bytes a client writes for a command read back on the server as one
/// frame, of exactly those bytes, that holds the same command, whatever
/// bytes follow them.
pub proof fn law_request_bytes_round_trip(c: SpecCommand, rest: Seq<u8>)
    requires
        sendable(c),
        names_map_back(c),
        request_frame(c) matches Some(f) && round_trips(f),
    ensures
        request_frame(c) matches Some(f) && frame_read(frame_bytes(f) + rest) == Decoded::Done(
            f,
            frame_bytes(f).len() as int,
        ) && command_of(f) == Parsed::Command(c),
{
    let f = request_frame(c)->0;
    let items = f->Array_0;
    assert forall|i: int| 0 <= i < items.len() implies !(#[trigger] items[i] is Array) by {
        if c is Subscribe || c is Unsubscribe {
            if i > 0 {
                assert(items[i] == items.drop_first()[i - 1]);
            }
        }
    }
    assert(writable(f));
    law_frame_round_trip(f, rest);
    law_request_round_trip(c);
}

} // verus!
