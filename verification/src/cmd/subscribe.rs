use vstd::prelude::*;
use vstd::utf8::*;
use crate::cmd::unknown::{unknown_response, Unknown};
use crate::cmd::{bulk_text, command_name, command_of, read_matches, read_strings, subscribe_args, unsubscribe_args, Command, Parsed, SpecCommand, Strings};
use crate::channel::Sent;
use crate::db::{published, subscribed, subscribed_to, DbView, State};
use crate::frame::{frames_view, Frame, SpecFrame};
use crate::parse::{string_error, string_value, Parse, ParseError};
use crate::channel::Subscription;
use tokio::sync::broadcast::Sender;
use tokio_stream::wrappers::BroadcastStream;
use tokio_stream::StreamMap;

verus! {

broadcast use {vstd::seq_lib::lemma_seq_skip_nothing, vstd::utf8::group_utf8_lib};

/// Subscribes the client to one or more channels.
///
/// Once the client enters the subscribed state, it is not supposed to issue
/// any other commands, except for additional SUBSCRIBE, PSUBSCRIBE,
/// UNSUBSCRIBE, PUNSUBSCRIBE, PING and QUIT commands.
#[derive(Debug)]
pub struct Subscribe {
    channels: Vec<String>,
}

/// Unsubscribes the client from one or more channels.
///
/// When no channels are specified, the client is unsubscribed from all the
/// previously subscribed channels.
#[derive(Debug)]
pub struct Unsubscribe {
    channels: Vec<String>,
}

/// The texts of a sequence of strings.
pub open spec fn names_view(v: Seq<String>) -> Seq<Seq<char>> {
    v.map_values(|s: String| s@)
}

impl Subscribe {
    /// The channel names, as texts.
    pub closed spec fn channels_view(&self) -> Seq<Seq<char>> {
        names_view(self.channels@)
    }
}

impl Unsubscribe {
    /// The channel names, as texts.
    pub closed spec fn channels_view(&self) -> Seq<Seq<char>> {
        names_view(self.channels@)
    }
}

impl View for Subscribe {
    type V = SpecCommand;

    open spec fn view(&self) -> SpecCommand {
        SpecCommand::Subscribe { channels: self.channels_view() }
    }
}

impl View for Unsubscribe {
    type V = SpecCommand;

    open spec fn view(&self) -> SpecCommand {
        SpecCommand::Unsubscribe { channels: self.channels_view() }
    }
}

/// The bulk strings of the texts `names`.
pub open spec fn bulk_names(names: Seq<Seq<char>>) -> Seq<SpecFrame> {
    names.map_values(|n: Seq<char>| SpecFrame::Bulk(encode_utf8(n)))
}

/// The frame a client sends for `SUBSCRIBE channel...` or
/// `UNSUBSCRIBE channel...` (`verb` is the command's name).
pub open spec fn channels_frame(verb: Seq<char>, channels: Seq<Seq<char>>) -> SpecFrame {
    SpecFrame::Array(seq![SpecFrame::Bulk(encode_utf8(verb))] + bulk_names(channels))
}

/// The strings read before an outcome of reading the rest.
pub open spec fn after_strings(read: Seq<Seq<char>>, rest: Strings) -> Strings {
    match rest {
        Strings::All(r) => Strings::All(read + r),
        Strings::BadAt(i) => Strings::BadAt(i + read.len()),
    }
}

/// Reads strings until the entries run out; returns them, or the error of
/// the first entry that is not a string.
fn read_channels(parse: &mut Parse, channels: &mut Vec<String>) -> (res: Result<(), ParseError>)
    ensures
        match read_strings(old(parse)@) {
            Strings::All(r) => res is Ok && names_view(final(channels)@) == names_view(old(channels)@)
                + r && final(parse)@.len() == 0,
            Strings::BadAt(i) => res matches Err(ParseError::Other(e)) && e@ == string_error(old(parse)@[i]) && final(parse)@ == old(
                parse,
            )@.skip(i + 1),
        },
{
    let ghost a = parse@;
    let ghost start = names_view(channels@);
    let ghost mut i: int = 0;
    loop
        invariant
            a == old(parse)@,
            start == names_view(old(channels)@),
            0 <= i <= a.len(),
            parse@ == a.skip(i),
            names_view(channels@).len() == start.len() + i,
            names_view(channels@).subrange(0, start.len() as int) == start,
            read_strings(a) == after_strings(
                names_view(channels@).subrange(start.len() as int, start.len() + i),
                read_strings(parse@),
            ),
        decreases a.len() - i,
    {
        let ghost before = names_view(channels@);
        let ghost p = parse@;
        match parse.next_string() {
            Ok(s) => {
                proof {
                    assert(p.drop_first() =~= a.skip(i + 1));
                    assert(string_value(p[0]) == Some(s@));
                }
                channels.push(s);
                proof {
                    let now_names = names_view(channels@);
                    let done = before.subrange(start.len() as int, start.len() + i);
                    assert(now_names =~= before.push(s@));
                    assert(now_names.subrange(start.len() as int, start.len() + i + 1) =~= done.push(s@));
                    match read_strings(p.drop_first()) {
                        Strings::All(r) => {
                            assert(done + (seq![s@] + r) =~= done.push(s@) + r);
                        },
                        Strings::BadAt(j) => {},
                    }
                    assert(now_names.subrange(0, start.len() as int) =~= before.subrange(0, start.len() as int));
                    i = i + 1;
                }
            },
            Err(ParseError::EndOfStream) => {
                proof {
                    let done = before.subrange(start.len() as int, start.len() + i);
                    assert(p.len() == 0);
                    assert(done + Seq::<Seq<char>>::empty() =~= done);
                    assert(before =~= start + done);
                }
                return Ok(());
            },
            Err(e) => {
                proof {
                    assert(p.len() > 0);
                    assert(p.drop_first() =~= a.skip(i + 1));
                }
                return Err(e);
            },
        }
    }
}

/// The entry that is not a string lies among the entries.
proof fn lemma_bad_at_in_range(a: Seq<SpecFrame>)
    ensures
        read_strings(a) matches Strings::BadAt(i) ==> 0 <= i < a.len(),
    decreases a.len(),
{
    if a.len() > 0 {
        lemma_bad_at_in_range(a.drop_first());
    }
}

impl Subscribe {
    /// Creates a new `Subscribe` command to listen on the specified
    /// channels.
    pub fn new(channels: Vec<String>) -> (s: Subscribe)
        ensures
            s@ == (SpecCommand::Subscribe { channels: names_view(channels@) }),
    {
        Subscribe { channels }
    }

    /// Starts serving the subscription on a connection: the channels to
    /// subscribe to, in order, and the connection's subscriptions, none yet.
    pub fn start(self) -> (res: (Vec<String>, Subscriptions))
        ensures
            names_view(res.0@) == self@->Subscribe_channels,
            subscribed_channels(res.1) == Seq::<Seq<char>>::empty(),
            subscribed_senders(res.1) == Seq::<Sender<Vec<u8>>>::empty(),
    {
        (self.channels, new_subscriptions())
    }

    /// Parse a `Subscribe` instance from a received frame.
    ///
    /// The `SUBSCRIBE` string has already been consumed.
    ///
    /// # Format
    ///
    /// Expects an array frame containing two or more entries.
    ///
    /// ```text
    /// SUBSCRIBE channel [channel ...]
    /// ```
    pub fn parse_frames(parse: &mut Parse) -> (res: Result<Subscribe, ParseError>)
        ensures
            read_matches(subscribe_args(old(parse)@), res, old(parse)@, final(parse)@),
    {
        let ghost a = parse@;
        // Extract the first string. If there is none, the frame is
        // malformed and the error is bubbled up.
        let first = match parse.next_string() {
            Ok(s) => s,
            Err(e) => return Err(e),
        };
        let mut channels: Vec<String> = Vec::new();
        channels.push(first);
        proof {
            assert(names_view(channels@) =~= seq![first@]);
            assert(parse@ =~= a.drop_first());
        }
        // Now, the remainder of the frame is consumed. Each value must be a
        // string or the frame is malformed. Once all values in the frame
        // have been consumed, the command is fully parsed.
        match read_channels(parse, &mut channels) {
            Ok(()) => {
                proof {
                    assert(parse@ =~= a.skip(a.len() as int));
                }
                Ok(Subscribe { channels })
            },
            Err(e) => {
                proof {
                    match read_strings(a.drop_first()) {
                        Strings::BadAt(i) => {
                            lemma_bad_at_in_range(a.drop_first());
                            assert(parse@ == a.drop_first().skip(i + 1));
                            assert(a.drop_first().skip(i + 1) =~= a.skip(i + 2));
                        },
                        _ => {},
                    }
                }
                Err(e)
            },
        }
    }

    /// Converts the command into an equivalent `Frame`.
    ///
    /// This is called by the client when encoding a `Subscribe` command to
    /// send to the server.
    pub fn into_frame(self) -> (f: Frame)
        ensures
            f@ == channels_frame("subscribe"@, self@->Subscribe_channels),
    {
        let ghost names = self@->Subscribe_channels;
        let mut frame = Frame::array();
        frame.push_bulk(bulk_text("subscribe"));
        push_channels(&mut frame, &self.channels);
        proof {
            assert(frame@->Array_0 =~= channels_frame("subscribe"@, names)->Array_0);
        }
        frame
    }
}

/// Appends a bulk string for each channel name to an array frame.
fn push_channels(frame: &mut Frame, channels: &Vec<String>)
    requires
        old(frame)@ is Array,
    ensures
        final(frame)@ == SpecFrame::Array(old(frame)@->Array_0 + bulk_names(names_view(channels@))),
{
    let ghost start = frame@->Array_0;
    let mut i: usize = 0;
    while i < channels.len()
        invariant
            0 <= i <= channels@.len(),
            frame@ == SpecFrame::Array(start + bulk_names(names_view(channels@.subrange(0, i as int)))),
        decreases channels@.len() - i,
    {
        frame.push_bulk(bulk_text(channels[i].as_str()));
        proof {
            assert(names_view(channels@.subrange(0, i + 1)) =~= names_view(channels@.subrange(0, i as int)).push(channels@[i as int]@));
            assert(start + bulk_names(names_view(channels@.subrange(0, i + 1))) =~= (start + bulk_names(
                names_view(channels@.subrange(0, i as int)),
            )).push(SpecFrame::Bulk(encode_utf8(channels@[i as int]@))));
        }
        i = i + 1;
    }
    proof {
        assert(channels@.subrange(0, i as int) =~= channels@);
    }
}

impl Unsubscribe {
    /// Create a new `Unsubscribe` command with the given `channels`.
    pub fn new(channels: &[String]) -> (u: Unsubscribe)
        ensures
            u@ == (SpecCommand::Unsubscribe { channels: names_view(channels@) }),
    {
        let mut v: Vec<String> = Vec::new();
        let mut i: usize = 0;
        while i < channels.len()
            invariant
                0 <= i <= channels@.len(),
                names_view(v@) == names_view(channels@.subrange(0, i as int)),
            decreases channels@.len() - i,
        {
            v.push(channels[i].clone());
            proof {
                assert(names_view(channels@.subrange(0, i + 1)) =~= names_view(channels@.subrange(0, i as int)).push(channels@[i as int]@));
                assert(names_view(v@) =~= names_view(channels@.subrange(0, i + 1)));
            }
            i = i + 1;
        }
        proof {
            assert(channels@.subrange(0, i as int) =~= channels@);
        }
        Unsubscribe { channels: v }
    }

    /// Parse an `Unsubscribe` instance from a received frame.
    ///
    /// The `UNSUBSCRIBE` string has already been consumed.
    ///
    /// # Format
    ///
    /// Expects an array frame containing at least one entry.
    ///
    /// ```text
    /// UNSUBSCRIBE [channel [channel ...]]
    /// ```
    pub fn parse_frames(parse: &mut Parse) -> (res: Result<Unsubscribe, ParseError>)
        ensures
            read_matches(unsubscribe_args(old(parse)@), res, old(parse)@, final(parse)@),
    {
        let ghost a = parse@;
        // There may be no channels listed, so start with an empty vec.
        let mut channels: Vec<String> = Vec::new();
        proof {
            assert(names_view(channels@) =~= Seq::<Seq<char>>::empty());
        }
        match read_channels(parse, &mut channels) {
            Ok(()) => {
                proof {
                    assert(parse@ =~= a.skip(a.len() as int));
                    assert(Seq::<Seq<char>>::empty() + names_view(channels@) =~= names_view(channels@));
                }
                Ok(Unsubscribe { channels })
            },
            Err(e) => Err(e),
        }
    }

    /// Converts the command into an equivalent `Frame`.
    ///
    /// This is called by the client when encoding an `Unsubscribe` command
    /// to send to the server.
    pub fn into_frame(self) -> (f: Frame)
        ensures
            f@ == channels_frame("unsubscribe"@, self@->Unsubscribe_channels),
    {
        let ghost names = self@->Unsubscribe_channels;
        let mut frame = Frame::array();
        frame.push_bulk(bulk_text("unsubscribe"));
        push_channels(&mut frame, &self.channels);
        proof {
            assert(frame@->Array_0 =~= channels_frame("unsubscribe"@, names)->Array_0);
        }
        frame
    }
}


#[verifier::external_type_specification]
#[verifier::external_body]
#[verifier::reject_recursive_types(K)]
#[verifier::reject_recursive_types(V)]
pub struct ExStreamMap<K, V>(StreamMap<K, V>);

#[verifier::external_type_specification]
#[verifier::external_body]
#[verifier::reject_recursive_types(T)]
pub struct ExBroadcastStream<T>(BroadcastStream<T>);

/// The subscriptions of a connection in the subscribed state: one stream
/// of messages for each channel, by channel name.
pub type Subscriptions = StreamMap<String, BroadcastStream<Vec<u8>>>;

/// The channel names a `StreamMap` holds, in the order of its entries.
pub uninterp spec fn subscribed_channels(m: StreamMap<String, BroadcastStream<Vec<u8>>>) -> Seq<Seq<char>>;

/// The index of the first occurrence of `k` in `s`, or -1.
pub open spec fn first_index(s: Seq<Seq<char>>, k: Seq<char>) -> int
    decreases s.len(),
{
    if s.len() == 0 {
        -1
    } else if s[0] == k {
        0
    } else {
        let i = first_index(s.drop_first(), k);
        if i < 0 {
            -1
        } else {
            i + 1
        }
    }
}

/// The channel names once `k` is removed: the last name takes the place of
/// the first occurrence of `k`.
pub open spec fn without_channel(s: Seq<Seq<char>>, k: Seq<char>) -> Seq<Seq<char>> {
    let i = first_index(s, k);
    if i < 0 {
        s
    } else {
        s.update(i, s.last()).drop_last()
    }
}

/// The channel that each stream of a `StreamMap` receives from, by the
/// channel's sender, in the order of the entries.
pub uninterp spec fn subscribed_senders(m: StreamMap<String, BroadcastStream<Vec<u8>>>) -> Seq<Sender<Vec<u8>>>;

/// `s` once the entry at `i`, if there is one, is removed by
/// `Vec::swap_remove`: the last entry takes its place.
pub open spec fn swap_out<A>(s: Seq<A>, i: int) -> Seq<A> {
    if 0 <= i < s.len() {
        s.update(i, s.last()).drop_last()
    } else {
        s
    }
}

/// The streams filed under `names` receive from the channels of
/// `channels` that have those names (`senders` lists the channel of each
/// stream), and each name is filed once.
pub open spec fn streams_filed(
    names: Seq<Seq<char>>,
    senders: Seq<Sender<Vec<u8>>>,
    channels: Map<Seq<char>, Sender<Vec<u8>>>,
) -> bool {
    &&& names.no_duplicates()
    &&& senders.len() == names.len()
    &&& forall|i: int|
        0 <= i < names.len() ==> channels.contains_key(#[trigger] names[i]) && senders[i]
            == channels[names[i]]
}

/// Each stream of the subscriptions `m` receives from the channel of the
/// shared state that it is filed under, and each channel is filed once.
pub open spec fn well_filed(m: Subscriptions, channels: Map<Seq<char>, Sender<Vec<u8>>>) -> bool {
    streams_filed(subscribed_channels(m), subscribed_senders(m), channels)
}

/// `StreamMap::new`: a map with no entry.
#[verifier::external_body]
fn new_subscriptions() -> (m: Subscriptions)
    ensures
        subscribed_channels(m) == Seq::<Seq<char>>::empty(),
        subscribed_senders(m) == Seq::<Sender<Vec<u8>>>::empty(),
{
    StreamMap::new()
}

/// `StreamMap::insert` of the messages of `sub`, as a `BroadcastStream`:
/// an entry with the same name is removed (`StreamMap::remove`), then the
/// new entry is pushed last.
#[verifier::external_body]
fn insert_subscription(m: &mut Subscriptions, name: String, sub: Subscription)
    ensures
        subscribed_channels(*final(m)) == without_channel(subscribed_channels(*old(m)), name@).push(
            name@,
        ),
        subscribed_senders(*final(m)) == swap_out(
            subscribed_senders(*old(m)),
            first_index(subscribed_channels(*old(m)), name@),
        ).push(sub.channel()),
        subscribed_senders(*final(m)).len() == subscribed_channels(*final(m)).len(),
{
    m.insert(name, BroadcastStream::new(sub.into_receiver()));
}

/// `StreamMap::remove`: the first entry with that name, if any, is removed
/// by `Vec::swap_remove`; returns whether there was one.
#[verifier::external_body]
fn remove_subscription(m: &mut Subscriptions, name: &str) -> (found: bool)
    ensures
        subscribed_channels(*final(m)) == without_channel(subscribed_channels(*old(m)), name@),
        subscribed_senders(*final(m)) == swap_out(
            subscribed_senders(*old(m)),
            first_index(subscribed_channels(*old(m)), name@),
        ),
        subscribed_senders(*final(m)).len() == subscribed_channels(*final(m)).len(),
        found == (first_index(subscribed_channels(*old(m)), name@) >= 0),
{
    m.remove(name).is_some()
}

/// `StreamMap::len`: the number of entries.
#[verifier::external_body]
fn subscription_count(m: &Subscriptions) -> (n: usize)
    ensures
        n == subscribed_channels(*m).len(),
{
    m.len()
}

/// `StreamMap::keys`, each name copied, in the order of the entries.
#[verifier::external_body]
fn subscription_names(m: &Subscriptions) -> (names: Vec<String>)
    ensures
        names_view(names@) == subscribed_channels(*m),
{
    m.keys().cloned().collect()
}

/// A reply of the subscribed state: `kind`, the channel name, and the
/// number of channels subscribed to after the change.
pub open spec fn channel_reply(kind: Seq<char>, name: Seq<char>, count: nat) -> SpecFrame {
    SpecFrame::Array(
        seq![
            SpecFrame::Bulk(encode_utf8(kind)),
            SpecFrame::Bulk(encode_utf8(name)),
            SpecFrame::Integer(count as u64),
        ],
    )
}

/// A message received on a channel, as it is forwarded to the client.
pub open spec fn message_reply(name: Seq<char>, msg: Seq<u8>) -> SpecFrame {
    SpecFrame::Array(
        seq![
            SpecFrame::Bulk(encode_utf8("message"@)),
            SpecFrame::Bulk(encode_utf8(name)),
            SpecFrame::Bulk(msg),
        ],
    )
}

/// Subscribing to the channels `names` one after the other from the
/// channel list `s`: the confirmation of each, and the channel list after
/// them all.
pub open spec fn subscribe_steps(s: Seq<Seq<char>>, names: Seq<Seq<char>>) -> (Seq<SpecFrame>, Seq<Seq<char>>)
    decreases names.len(),
{
    if names.len() == 0 {
        (Seq::empty(), s)
    } else {
        let s1 = without_channel(s, names[0]).push(names[0]);
        let rest = subscribe_steps(s1, names.drop_first());
        (seq![channel_reply("subscribe"@, names[0], s1.len())] + rest.0, rest.1)
    }
}

/// Unsubscribing from the channels `names` one after the other from the
/// channel list `s`: the confirmation of each, and the channel list after
/// them all.
pub open spec fn unsubscribe_steps(s: Seq<Seq<char>>, names: Seq<Seq<char>>) -> (Seq<SpecFrame>, Seq<Seq<char>>)
    decreases names.len(),
{
    if names.len() == 0 {
        (Seq::empty(), s)
    } else {
        let s1 = without_channel(s, names[0]);
        let rest = unsubscribe_steps(s1, names.drop_first());
        (seq![channel_reply("unsubscribe"@, names[0], s1.len())] + rest.0, rest.1)
    }
}

/// Creates the response to a subscribe request.
///
/// All of these functions take the `channel_name` as a `String` instead of
/// a `&str` since `Bytes::from` can reuse the allocation in the `String`,
/// and taking a `&str` would require copying the data. This allows the
/// caller to decide whether to clone the channel name or not.
pub fn make_subscribe_frame(channel_name: String, num_subs: usize) -> (response: Frame)
    ensures
        response@ == channel_reply("subscribe"@, channel_name@, num_subs as nat),
{
    let mut response = Frame::array();
    response.push_bulk(bulk_text("subscribe"));
    response.push_bulk(bulk_text(channel_name.as_str()));
    response.push_int(num_subs as u64);
    proof {
        assert(response@->Array_0 =~= channel_reply("subscribe"@, channel_name@, num_subs as nat)->Array_0);
    }
    response
}

/// Creates the response to an unsubcribe request.
pub fn make_unsubscribe_frame(channel_name: String, num_subs: usize) -> (response: Frame)
    ensures
        response@ == channel_reply("unsubscribe"@, channel_name@, num_subs as nat),
{
    let mut response = Frame::array();
    response.push_bulk(bulk_text("unsubscribe"));
    response.push_bulk(bulk_text(channel_name.as_str()));
    response.push_int(num_subs as u64);
    proof {
        assert(response@->Array_0 =~= channel_reply("unsubscribe"@, channel_name@, num_subs as nat)->Array_0);
    }
    response
}

/// Creates a message informing the client about a new message on a channel
/// that the client subscribes to.
pub fn make_message_frame(channel_name: String, msg: Vec<u8>) -> (response: Frame)
    ensures
        response@ == message_reply(channel_name@, msg@),
{
    let mut response = Frame::array();
    response.push_bulk(bulk_text("message"));
    response.push_bulk(bulk_text(channel_name.as_str()));
    response.push_bulk(msg);
    proof {
        assert(response@->Array_0 =~= message_reply(channel_name@, msg@)->Array_0);
    }
    response
}

/// Subscribes to one channel: the shared state gets the channel, the
/// connection a stream of its messages, and the confirmation to write is
/// returned.
pub fn subscribe_to_channel(channel_name: String, subscriptions: &mut Subscriptions, db: &mut State) -> (response: Frame)
    ensures
        subscribed(old(db)@, final(db)@, channel_name@),
        subscribed_channels(*final(subscriptions)) == without_channel(subscribed_channels(*old(subscriptions)), channel_name@).push(channel_name@),
        subscribed_senders(*final(subscriptions)) == swap_out(
            subscribed_senders(*old(subscriptions)),
            first_index(subscribed_channels(*old(subscriptions)), channel_name@),
        ).push(final(db)@.channels[channel_name@]),
        well_filed(*old(subscriptions), old(db)@.channels) ==> well_filed(*final(subscriptions), final(db)@.channels),
        response@ == channel_reply(
            "subscribe"@,
            channel_name@,
            subscribed_channels(*final(subscriptions)).len(),
        ),
{
    let rx = db.subscribe(channel_name.clone());
    // Track subscription in this client's subscription set.
    let ghost before = *subscriptions;
    insert_subscription(subscriptions, channel_name.clone(), rx);
    proof {
        if well_filed(before, old(db)@.channels) {
            lemma_filed_grow(subscribed_channels(before), subscribed_senders(before), old(db)@.channels, db@.channels);
            lemma_filed_insert(subscribed_channels(before), subscribed_senders(before), db@.channels, channel_name@);
        }
    }
    // Respond with the successful subscription
    let count = subscription_count(subscriptions);
    make_subscribe_frame(channel_name, count)
}

/// Filing streams stays right when the shared state gains channels and
/// keeps the senders it had.
proof fn lemma_filed_grow(
    names: Seq<Seq<char>>,
    senders: Seq<Sender<Vec<u8>>>,
    c: Map<Seq<char>, Sender<Vec<u8>>>,
    c2: Map<Seq<char>, Sender<Vec<u8>>>,
)
    requires
        streams_filed(names, senders, c),
        c.submap_of(c2),
    ensures
        streams_filed(names, senders, c2),
{
    assert forall|i: int| 0 <= i < names.len() implies c2.contains_key(#[trigger] names[i]) && senders[i] == c2[names[i]] by {
        assert(c.contains_key(names[i]));
    }
}

/// Removing the stream filed under `k` keeps the others filed right.
proof fn lemma_filed_remove(
    names: Seq<Seq<char>>,
    senders: Seq<Sender<Vec<u8>>>,
    c: Map<Seq<char>, Sender<Vec<u8>>>,
    k: Seq<char>,
)
    requires
        streams_filed(names, senders, c),
    ensures
        streams_filed(without_channel(names, k), swap_out(senders, first_index(names, k)), c),
        !without_channel(names, k).contains(k),
{
    lemma_first_index(names, k);
    lemma_without_channel(names, k);
    let i = first_index(names, k);
    let w = without_channel(names, k);
    let ws = swap_out(senders, i);
    if i >= 0 {
        let n = names.len() - 1;
        assert forall|j: int| 0 <= j < w.len() implies c.contains_key(#[trigger] w[j]) && ws[j] == c[w[j]] by {
            let sj = if j == i { n } else { j };
            assert(w[j] == names[sj]);
            assert(ws[j] == senders[sj]);
        }
    }
    if w.contains(k) {
        assert(w.to_set().contains(k));
    }
}

/// Filing the stream of channel `k` under `k`, last, keeps the streams
/// filed right.
proof fn lemma_filed_insert(
    names: Seq<Seq<char>>,
    senders: Seq<Sender<Vec<u8>>>,
    c: Map<Seq<char>, Sender<Vec<u8>>>,
    k: Seq<char>,
)
    requires
        streams_filed(names, senders, c),
        c.contains_key(k),
    ensures
        streams_filed(
            without_channel(names, k).push(k),
            swap_out(senders, first_index(names, k)).push(c[k]),
            c,
        ),
{
    lemma_filed_remove(names, senders, c, k);
    let w = without_channel(names, k);
    let ws = swap_out(senders, first_index(names, k));
    let n1 = w.push(k);
    let s1 = ws.push(c[k]);
    assert forall|a: int, b: int| 0 <= a < n1.len() && 0 <= b < n1.len() && a != b implies n1[a] != n1[b] by {
        if a == w.len() {
            assert(n1[b] == w[b]);
        } else if b == w.len() {
            assert(n1[a] == w[a]);
        } else {
            assert(n1[a] == w[a]);
            assert(n1[b] == w[b]);
        }
    }
    assert forall|j: int| 0 <= j < n1.len() implies c.contains_key(#[trigger] n1[j]) && s1[j] == c[n1[j]] by {
        if j < w.len() {
            assert(n1[j] == w[j]);
            assert(s1[j] == ws[j]);
        }
    }
}

/// Subscribes, in order, to every channel waiting in `pending`, which is
/// left empty. Returns the confirmations to write, in order.
pub fn subscribe_pending(pending: &mut Vec<String>, subscriptions: &mut Subscriptions, db: &mut State) -> (responses: Vec<Frame>)
    ensures
        subscribed_to(old(db)@, final(db)@, names_view(old(pending)@).to_set()),
        final(pending)@.len() == 0,
        frames_view(responses@) == subscribe_steps(subscribed_channels(*old(subscriptions)), names_view(old(pending)@)).0,
        subscribed_channels(*final(subscriptions)) == subscribe_steps(subscribed_channels(*old(subscriptions)), names_view(old(pending)@)).1,
        well_filed(*old(subscriptions), old(db)@.channels) ==> well_filed(*final(subscriptions), final(db)@.channels),
{
    let ghost names = names_view(pending@);
    let ghost s0 = subscribed_channels(*subscriptions);
    let ghost m0 = *subscriptions;
    let ghost db0 = db@;
    let mut responses: Vec<Frame> = Vec::new();
    let mut i: usize = 0;
    proof {
        assert(names.take(0).to_set() =~= Set::<Seq<char>>::empty());
        assert(db0.channels.dom() + names.take(0).to_set() =~= db0.channels.dom());
        assert(frames_view(responses@) + subscribe_steps(s0, names).0 =~= subscribe_steps(s0, names).0);
    }
    while i < pending.len()
        invariant
            names == names_view(pending@),
            0 <= i <= pending@.len(),
            subscribed_to(db0, db@, names.take(i as int).to_set()),
            subscribe_steps(s0, names).0 == frames_view(responses@) + subscribe_steps(subscribed_channels(*subscriptions), names.skip(i as int)).0,
            subscribe_steps(s0, names).1 == subscribe_steps(subscribed_channels(*subscriptions), names.skip(i as int)).1,
            well_filed(m0, db0.channels) ==> well_filed(*subscriptions, db@.channels),
        decreases pending@.len() - i,
    {
        let ghost cur = subscribed_channels(*subscriptions);
        let ghost before = responses@;
        let ghost db1 = db@;
        let name = pending[i].clone();
        let response = subscribe_to_channel(name, subscriptions, db);
        responses.push(response);
        proof {
            let rest = names.skip(i as int);
            assert(rest[0] == names[i as int]);
            assert(rest.drop_first() =~= names.skip(i + 1));
            assert(frames_view(responses@) =~= frames_view(before).push(response@));
            assert(frames_view(before) + subscribe_steps(cur, rest).0 =~= frames_view(responses@)
                + subscribe_steps(subscribed_channels(*subscriptions), names.skip(i + 1)).0);
            assert(names.take(i + 1) =~= names.take(i as int).push(names[i as int]));
            names.take(i as int).lemma_push_to_set_commute(names[i as int]);
            assert(db0.channels.dom() + names.take(i + 1).to_set() =~= (db0.channels.dom() + names.take(i as int).to_set()).insert(names[i as int]));
            assert(db0.channels.submap_of(db@.channels)) by {
                assert forall|k: Seq<char>| #[trigger] db0.channels.contains_key(k) implies db@.channels.contains_key(k) && db@.channels[k] == db0.channels[k] by {
                    assert(db1.channels.contains_key(k));
                }
            }
        }
        i = i + 1;
    }
    proof {
        assert(names.take(i as int) =~= names);
        assert(names.skip(i as int) =~= Seq::<Seq<char>>::empty());
        assert(frames_view(responses@) + Seq::<SpecFrame>::empty() =~= frames_view(responses@));
    }
    pending.clear();
    responses
}

/// Unsubscribes, in order, from each of `names`. Returns the
/// confirmations to write, in order.
fn unsubscribe_each(names: Vec<String>, subscriptions: &mut Subscriptions) -> (responses: Vec<Frame>)
    ensures
        frames_view(responses@) == unsubscribe_steps(subscribed_channels(*old(subscriptions)), names_view(names@)).0,
        subscribed_channels(*final(subscriptions)) == unsubscribe_steps(subscribed_channels(*old(subscriptions)), names_view(names@)).1,
        forall|c: Map<Seq<char>, Sender<Vec<u8>>>|
            well_filed(*old(subscriptions), c) ==> #[trigger] well_filed(*final(subscriptions), c),
{
    let ghost all = names_view(names@);
    let ghost s0 = subscribed_channels(*subscriptions);
    let ghost m0 = *subscriptions;
    let mut responses: Vec<Frame> = Vec::new();
    let mut i: usize = 0;
    proof {
        assert(frames_view(responses@) + unsubscribe_steps(s0, all).0 =~= unsubscribe_steps(s0, all).0);
    }
    while i < names.len()
        invariant
            all == names_view(names@),
            0 <= i <= names@.len(),
            unsubscribe_steps(s0, all).0 == frames_view(responses@) + unsubscribe_steps(subscribed_channels(*subscriptions), all.skip(i as int)).0,
            unsubscribe_steps(s0, all).1 == unsubscribe_steps(subscribed_channels(*subscriptions), all.skip(i as int)).1,
            forall|c: Map<Seq<char>, Sender<Vec<u8>>>|
                well_filed(m0, c) ==> #[trigger] well_filed(*subscriptions, c),
        decreases names@.len() - i,
    {
        let ghost cur = subscribed_channels(*subscriptions);
        let ghost m1 = *subscriptions;
        let ghost before = responses@;
        let name = names[i].clone();
        remove_subscription(subscriptions, name.as_str());
        proof {
            assert forall|c: Map<Seq<char>, Sender<Vec<u8>>>|
                well_filed(m0, c) implies #[trigger] well_filed(*subscriptions, c) by {
                assert(well_filed(m1, c));
                lemma_filed_remove(subscribed_channels(m1), subscribed_senders(m1), c, name@);
            }
        }
        let count = subscription_count(subscriptions);
        let response = make_unsubscribe_frame(name, count);
        responses.push(response);
        proof {
            let rest = all.skip(i as int);
            assert(rest[0] == all[i as int]);
            assert(rest.drop_first() =~= all.skip(i + 1));
            assert(frames_view(responses@) =~= frames_view(before).push(response@));
            assert(frames_view(before) + unsubscribe_steps(cur, rest).0 =~= frames_view(responses@)
                + unsubscribe_steps(subscribed_channels(*subscriptions), all.skip(i + 1)).0);
        }
        i = i + 1;
    }
    proof {
        assert(all.skip(i as int) =~= Seq::<Seq<char>>::empty());
        assert(frames_view(responses@) + Seq::<SpecFrame>::empty() =~= frames_view(responses@));
    }
    responses
}

/// Handles a command received while in the subscribed state. Only
/// subscribe and unsubscribe commands are allowed in this context: a new
/// subscription is added to `subscribe_to`, which the caller then serves;
/// an unsubscription takes effect at once (with no channel named, every
/// channel is dropped); any other command is answered as unknown. Returns
/// the frames to write, in order; an error ends the connection.
pub fn handle_command(frame: Frame, subscribe_to: &mut Vec<String>, subscriptions: &mut Subscriptions) -> (res: Result<Vec<Frame>, ParseError>)
    ensures
        match command_of(frame@) {
            Parsed::EndOfStream => res matches Err(ParseError::EndOfStream) && final(subscribe_to)@ == old(subscribe_to)@
                && *final(subscriptions) == *old(subscriptions),
            Parsed::Invalid(m) => res matches Err(ParseError::Other(e)) && e@ == m && final(subscribe_to)@ == old(subscribe_to)@
                && *final(subscriptions) == *old(subscriptions),
            Parsed::Command(SpecCommand::Subscribe { channels }) => res matches Ok(frames) && frames@.len() == 0
                && names_view(final(subscribe_to)@) == names_view(old(subscribe_to)@) + channels
                && *final(subscriptions) == *old(subscriptions),
            Parsed::Command(SpecCommand::Unsubscribe { channels }) => {
                let names = if channels.len() == 0 {
                    subscribed_channels(*old(subscriptions))
                } else {
                    channels
                };
                &&& res matches Ok(frames)
                &&& frames_view(frames@) == unsubscribe_steps(subscribed_channels(*old(subscriptions)), names).0
                &&& subscribed_channels(*final(subscriptions)) == unsubscribe_steps(subscribed_channels(*old(subscriptions)), names).1
                &&& final(subscribe_to)@ == old(subscribe_to)@
            },
            Parsed::Command(c) => res matches Ok(frames) && frames_view(frames@) == seq![unknown_response(command_name(c))]
                && final(subscribe_to)@ == old(subscribe_to)@ && *final(subscriptions) == *old(subscriptions),
        },
        forall|c: Map<Seq<char>, Sender<Vec<u8>>>|
            well_filed(*old(subscriptions), c) ==> #[trigger] well_filed(*final(subscriptions), c),
{
    let command = match Command::from_frame(frame) {
        Ok(c) => c,
        Err(e) => return Err(e),
    };
    match command {
        Command::Subscribe(subscribe) => {
            // Add the new channels to the pending list; the caller
            // subscribes to them before serving the next message.
            let ghost added = subscribe@;
            let mut channels = subscribe.channels;
            let ghost before = subscribe_to@;
            subscribe_to.append(&mut channels);
            proof {
                assert(names_view(subscribe_to@) =~= names_view(before) + added->Subscribe_channels);
            }
            Ok(Vec::new())
        },
        Command::Unsubscribe(unsubscribe) => {
            // If no channels are specified, this requests unsubscribing
            // from **all** channels.
            let names = if unsubscribe.channels.len() == 0 {
                subscription_names(subscriptions)
            } else {
                unsubscribe.channels
            };
            Ok(unsubscribe_each(names, subscriptions))
        },
        command => {
            let cmd = Unknown::new(command.get_name());
            let mut frames: Vec<Frame> = Vec::new();
            frames.push(cmd.apply());
            proof {
                assert(frames_view(frames@) =~= seq![unknown_response(command_name(command@))]);
            }
            Ok(frames)
        },
    }
}

/// Where `first_index` points: at the first occurrence of `k`, when there
/// is one.
proof fn lemma_first_index(s: Seq<Seq<char>>, k: Seq<char>)
    ensures
        (first_index(s, k) >= 0) == s.contains(k),
        first_index(s, k) >= 0 ==> first_index(s, k) < s.len() && s[first_index(s, k)] == k,
    decreases s.len(),
{
    if s.len() > 0 {
        lemma_first_index(s.drop_first(), k);
        if s[0] != k {
            if s.drop_first().contains(k) {
                let j = choose|j: int| 0 <= j < s.drop_first().len() && s.drop_first()[j] == k;
                assert(s[j + 1] == k);
            }
            if s.contains(k) {
                let j = choose|j: int| 0 <= j < s.len() && s[j] == k;
                assert(s.drop_first()[j - 1] == k);
            }
        } else {
            assert(s[0] == k);
        }
    }
}

/// Removing a name from a list of distinct names keeps them distinct and
/// takes out that name alone.
proof fn lemma_without_channel(s: Seq<Seq<char>>, k: Seq<char>)
    requires
        s.no_duplicates(),
    ensures
        without_channel(s, k).no_duplicates(),
        without_channel(s, k).to_set() == s.to_set().remove(k),
        without_channel(s, k).len() == if s.contains(k) {
            s.len() - 1
        } else {
            s.len() as int
        },
{
    lemma_first_index(s, k);
    let i = first_index(s, k);
    let t = without_channel(s, k);
    if i < 0 {
        assert(t.to_set() =~= s.to_set().remove(k));
    } else {
        let n = s.len() - 1;
        assert forall|a: int, b: int| 0 <= a < t.len() && 0 <= b < t.len() && a != b implies t[a] != t[b] by {
            let sa = if a == i { n } else { a };
            let sb = if b == i { n } else { b };
            assert(t[a] == s[sa]);
            assert(t[b] == s[sb]);
        }
        assert forall|x: Seq<char>| t.to_set().contains(x) <==> s.to_set().remove(k).contains(x) by {
            if t.contains(x) {
                let a = choose|a: int| 0 <= a < t.len() && t[a] == x;
                let sa = if a == i { n } else { a };
                assert(s[sa] == x);
                assert(sa != i);
            }
            if s.contains(x) && x != k {
                let a = choose|a: int| 0 <= a < s.len() && s[a] == x;
                assert(a != i);
                if a == n {
                    assert(t[i] == x);
                } else {
                    assert(t[a] == x);
                }
            }
        }
        assert(t.to_set() =~= s.to_set().remove(k));
    }
}

/// The names of a list, as a set: its first name and the names of the rest.
proof fn lemma_names_set(names: Seq<Seq<char>>)
    requires
        names.len() > 0,
    ensures
        names.to_set() == names.drop_first().to_set().insert(names[0]),
{
    assert forall|x: Seq<char>| names.to_set().contains(x) <==> names.drop_first().to_set().insert(names[0]).contains(x) by {
        if names.contains(x) && x != names[0] {
            let a = choose|a: int| 0 <= a < names.len() && names[a] == x;
            assert(names.drop_first()[a - 1] == x);
        }
        if names.drop_first().contains(x) {
            let a = choose|a: int| 0 <= a < names.drop_first().len() && names.drop_first()[a] == x;
            assert(names[a + 1] == x);
        }
    }
    assert(names.to_set() =~= names.drop_first().to_set().insert(names[0]));
}

/// Subscribing keeps each channel once: after subscribing to `names`, the
/// channels are those subscribed before and those named, each listed once.
pub proof fn law_subscribe_lists_each_once(s: Seq<Seq<char>>, names: Seq<Seq<char>>)
    requires
        s.no_duplicates(),
    ensures
        subscribe_steps(s, names).1.no_duplicates(),
        subscribe_steps(s, names).1.to_set() == s.to_set() + names.to_set(),
    decreases names.len(),
{
    if names.len() == 0 {
        assert(s.to_set() + names.to_set() =~= s.to_set());
    } else {
        let n0 = names[0];
        let w = without_channel(s, n0);
        lemma_without_channel(s, n0);
        let s1 = w.push(n0);
        assert(!w.contains(n0)) by {
            if w.contains(n0) {
                assert(w.to_set().contains(n0));
            }
        }
        assert forall|a: int, b: int| 0 <= a < s1.len() && 0 <= b < s1.len() && a != b implies s1[a] != s1[b] by {
            if a == w.len() {
                assert(s1[b] == w[b]);
            } else if b == w.len() {
                assert(s1[a] == w[a]);
            }
        }
        w.lemma_push_to_set_commute(n0);
        law_subscribe_lists_each_once(s1, names.drop_first());
        lemma_names_set(names);
        assert(s1.to_set() + names.drop_first().to_set() =~= s.to_set() + names.to_set());
    }
}

/// Unsubscribing from `names` drops exactly the channels named, and keeps
/// the others listed once.
pub proof fn law_unsubscribe_drops_named(s: Seq<Seq<char>>, names: Seq<Seq<char>>)
    requires
        s.no_duplicates(),
    ensures
        unsubscribe_steps(s, names).1.no_duplicates(),
        unsubscribe_steps(s, names).1.to_set() == s.to_set().difference(names.to_set()),
    decreases names.len(),
{
    if names.len() == 0 {
        assert(s.to_set().difference(names.to_set()) =~= s.to_set());
    } else {
        let n0 = names[0];
        lemma_without_channel(s, n0);
        let s1 = without_channel(s, n0);
        law_unsubscribe_drops_named(s1, names.drop_first());
        lemma_names_set(names);
        assert(s1.to_set().difference(names.drop_first().to_set()) =~= s.to_set().difference(
            names.to_set(),
        ));
    }
}

/// `UNSUBSCRIBE` with no channel named unsubscribes from every channel:
/// none is left.
pub proof fn law_unsubscribe_all(s: Seq<Seq<char>>)
    requires
        s.no_duplicates(),
    ensures
        unsubscribe_steps(s, s).1.len() == 0,
{
    law_unsubscribe_drops_named(s, s);
    let r = unsubscribe_steps(s, s).1;
    assert(s.to_set().difference(s.to_set()) =~= Set::<Seq<char>>::empty());
    if r.len() > 0 {
        assert(r.to_set().contains(r[0]));
    }
}

/// Subscribing to new channels, each named once, confirms each in order
/// with the count of channels subscribed so far: a fresh connection that
/// subscribes to `hello` then `foo` is told 1, then 2.
pub proof fn law_subscribe_counts_new_channels(s: Seq<Seq<char>>, names: Seq<Seq<char>>)
    requires
        s.no_duplicates(),
        names.no_duplicates(),
        forall|i: int| 0 <= i < names.len() ==> !s.contains(#[trigger] names[i]),
    ensures
        subscribe_steps(s, names).0.len() == names.len(),
        forall|i: int|
            0 <= i < names.len() ==> #[trigger] subscribe_steps(s, names).0[i] == channel_reply(
                "subscribe"@,
                names[i],
                (s.len() + i + 1) as nat,
            ),
    decreases names.len(),
{
    if names.len() > 0 {
        let n0 = names[0];
        let rest = names.drop_first();
        lemma_first_index(s, n0);
        let s1 = s.push(n0);
        assert(without_channel(s, n0) == s);
        assert(s1.no_duplicates()) by {
            assert forall|a: int, b: int| 0 <= a < s1.len() && 0 <= b < s1.len() && a != b implies s1[a] != s1[b] by {
                if a == s.len() {
                    assert(s.contains(s1[b]) ==> s1[b] != n0);
                    assert(s1[b] == s[b]);
                } else if b == s.len() {
                    assert(s1[a] == s[a]);
                }
            }
        }
        assert forall|i: int| 0 <= i < rest.len() implies !s1.contains(#[trigger] rest[i]) by {
            assert(rest[i] == names[i + 1]);
            if s1.contains(rest[i]) {
                let j = choose|j: int| 0 <= j < s1.len() && s1[j] == rest[i];
                if j < s.len() {
                    assert(s.contains(names[i + 1]));
                } else {
                    assert(names[0] == names[i + 1]);
                }
            }
        }
        assert(rest.no_duplicates()) by {
            assert forall|a: int, b: int| 0 <= a < rest.len() && 0 <= b < rest.len() && a != b implies rest[a] != rest[b] by {
                assert(rest[a] == names[a + 1]);
                assert(rest[b] == names[b + 1]);
            }
        }
        law_subscribe_counts_new_channels(s1, rest);
        let frames = subscribe_steps(s, names).0;
        let tail = subscribe_steps(s1, rest).0;
        assert(frames == seq![channel_reply("subscribe"@, n0, s1.len())] + tail);
        assert forall|i: int| 0 <= i < names.len() implies #[trigger] frames[i] == channel_reply(
            "subscribe"@,
            names[i],
            (s.len() + i + 1) as nat,
        ) by {
            if i > 0 {
                assert(frames[i] == tail[i - 1]);
                assert(rest[i - 1] == names[i]);
            }
        }
    }
}

/// A message published on a channel is handed to the very sender that a
/// stream filed under that channel's name receives from: a subscribed
/// connection's stream for `channel` gets what is published on `channel`.
pub proof fn law_publish_reaches_filed_stream(
    m: Subscriptions,
    v: DbView,
    channel: Seq<char>,
    message: Seq<u8>,
    n: int,
    sent: Option<Sent>,
    i: int,
)
    requires
        well_filed(m, v.channels),
        published(v, channel, message, n, sent),
        0 <= i < subscribed_channels(m).len(),
        subscribed_channels(m)[i] == channel,
    ensures
        sent matches Some(s) && s.sender() == subscribed_senders(m)[i] && s.message() == message,
{
}

/// The confirmation of the `i`-th name of an unsubscription carries the
/// length of the channel list once the names up to it are removed.
proof fn lemma_unsubscribe_reply(s: Seq<Seq<char>>, names: Seq<Seq<char>>, i: int)
    requires
        0 <= i < names.len(),
    ensures
        unsubscribe_steps(s, names).0.len() == names.len(),
        unsubscribe_steps(s, names).0[i] == channel_reply(
            "unsubscribe"@,
            names[i],
            unsubscribe_steps(s, names.take(i + 1)).1.len(),
        ),
    decreases names.len(),
{
    let s1 = without_channel(s, names[0]);
    let rest = names.drop_first();
    lemma_unsubscribe_len(s1, rest);
    let p = names.take(i + 1);
    assert(p[0] == names[0]);
    let all = unsubscribe_steps(s, names).0;
    let tail = unsubscribe_steps(s1, rest).0;
    assert(all == seq![channel_reply("unsubscribe"@, names[0], s1.len())] + tail);
    assert(unsubscribe_steps(s, p).1 == unsubscribe_steps(s1, p.drop_first()).1);
    if i == 0 {
        assert(p.drop_first() =~= Seq::<Seq<char>>::empty());
        assert(all[0] == channel_reply("unsubscribe"@, names[0], s1.len()));
    } else {
        lemma_unsubscribe_reply(s1, rest, i - 1);
        assert(p.drop_first() =~= rest.take(i));
        assert(rest[i - 1] == names[i]);
        assert(all[i] == tail[i - 1]);
    }
}

/// One confirmation for each name.
proof fn lemma_unsubscribe_len(s: Seq<Seq<char>>, names: Seq<Seq<char>>)
    ensures
        unsubscribe_steps(s, names).0.len() == names.len(),
    decreases names.len(),
{
    if names.len() > 0 {
        lemma_unsubscribe_len(without_channel(s, names[0]), names.drop_first());
    }
}

/// Each confirmation of `UNSUBSCRIBE`, on a connection whose channels are
/// listed once each, carries the number of channels still subscribed: the
/// channels subscribed before that are not among the names handled so far.
/// On channels `a`, `b`, `c`, `UNSUBSCRIBE a` is confirmed with 2.
pub proof fn law_unsubscribe_counts_channels_left(s: Seq<Seq<char>>, names: Seq<Seq<char>>, i: int)
    requires
        s.no_duplicates(),
        0 <= i < names.len(),
    ensures
        unsubscribe_steps(s, names).0.len() == names.len(),
        unsubscribe_steps(s, names).0[i] == channel_reply(
            "unsubscribe"@,
            names[i],
            s.to_set().difference(names.take(i + 1).to_set()).len(),
        ),
{
    lemma_unsubscribe_reply(s, names, i);
    law_unsubscribe_drops_named(s, names.take(i + 1));
    unsubscribe_steps(s, names.take(i + 1)).1.unique_seq_to_set();
}

} // verus!
