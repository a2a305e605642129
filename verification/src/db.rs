//! The state shared by all connections of a server: the key/value entries
//! with their expirations, and the pub/sub channels.
//!
//! Keys and channels live in separate name spaces: publishing on a channel
//! named "foo" has nothing to do with setting the key "foo".
//!
//! Time is counted in milliseconds from a fixed start, as an integer.

use vstd::prelude::*;
use vstd::hash_map::StringHashMap;
use tokio::sync::broadcast::Sender;
use crate::channel::{broadcast_channel, reached, send_message, subscribe_receiver, Sent, Subscription};

verus! {

/// Capacity of the broadcast channel of a pub/sub channel. A message is
/// kept until every subscriber has seen it; when the capacity is reached,
/// publishing drops the oldest messages, so a slow subscriber cannot block
/// the server.
pub const CHANNEL_CAPACITY: usize = 1024;

/// An entry in the key/value store.
#[derive(Debug)]
pub struct Entry {
    /// Stored data.
    data: Vec<u8>,
    /// Instant at which the entry expires and should be removed.
    expires_at: Option<u128>,
}

/// The value of an entry.
pub struct SpecEntry {
    pub data: Seq<u8>,
    pub expires_at: Option<u128>,
}

/// The value of the shared state.
pub struct DbView {
    /// The key/value data.
    pub entries: Map<Seq<char>, SpecEntry>,
    /// The pub/sub channels that exist, each with its sender.
    pub channels: Map<Seq<char>, Sender<Vec<u8>>>,
    /// Set once every handle of the database is gone: the task that purges
    /// expired keys must stop.
    pub shutdown: bool,
}

/// The records of the shared state: the entries with their expirations,
/// and the channels. The methods keep `expirations` in step with the
/// entries (`wf`).
struct Store {
    /// The key/value data.
    entries: StringHashMap<Entry>,
    /// The pub/sub key-space: the sending half of each channel.
    pub_sub: StringHashMap<Sender<Vec<u8>>>,
    /// Tracks key TTLs: one `(when, key)` record for each entry that
    /// expires. The background task looks here for the next value to expire.
    /// The records are kept unordered: the order of `String` keys has no
    /// specification that a proof could use, so the next expiration is
    /// found by a scan.
    expirations: Vec<(u128, String)>,
    /// True when the database is shutting down.
    shutdown: bool,
}

/// The value of an entry.
pub closed spec fn entry_view(e: Entry) -> SpecEntry {
    SpecEntry { data: e.data@, expires_at: e.expires_at }
}

/// Key `k` holds an entry that expires at `w`.
pub open spec fn expires(entries: Map<Seq<char>, SpecEntry>, k: Seq<char>, w: u128) -> bool {
    entries.contains_key(k) && entries[k].expires_at == Some(w)
}

/// `w` is the earliest expiration of any entry.
pub open spec fn is_next_expiration(entries: Map<Seq<char>, SpecEntry>, w: u128) -> bool {
    &&& exists|k: Seq<char>| expires(entries, k, w)
    &&& forall|k: Seq<char>, w2: u128| expires(entries, k, w2) ==> w <= w2
}

/// The instant at which the next entry expires, if any entry expires.
pub open spec fn next_expiration_of(entries: Map<Seq<char>, SpecEntry>) -> Option<u128> {
    if exists|k: Seq<char>, w: u128| expires(entries, k, w) {
        Some(choose|w: u128| is_next_expiration(entries, w))
    } else {
        None
    }
}

/// The value a `get` of `key` returns.
pub open spec fn get_spec(v: DbView, key: Seq<char>) -> Option<Seq<u8>> {
    if v.entries.contains_key(key) {
        Some(v.entries[key].data)
    } else {
        None
    }
}

/// The instant at which an entry set at `now` with time to live `expire`
/// (milliseconds) expires.
pub open spec fn expiry_of(expire: Option<u128>, now: u128) -> Option<u128> {
    match expire {
        Some(ms) => Some((now + ms) as u128),
        None => None,
    }
}

/// The state after a `set`: the key holds the new value, and the new
/// expiration replaces any previous one.
pub open spec fn set_spec(v: DbView, key: Seq<char>, value: Seq<u8>, expire: Option<u128>, now: u128) -> DbView {
    DbView {
        entries: v.entries.insert(key, SpecEntry { data: value, expires_at: expiry_of(expire, now) }),
        ..v
    }
}

/// Whether a `set` must wake the purge task: only when the new entry
/// expires, and before every entry that expired until then.
pub open spec fn set_notifies(v: DbView, expire: Option<u128>, now: u128) -> bool {
    match expiry_of(expire, now) {
        None => false,
        Some(when) => match next_expiration_of(v.entries) {
            Some(next) => next > when,
            None => true,
        },
    }
}

/// The entries left once those that expire at or before `now` are removed.
pub open spec fn unexpired(entries: Map<Seq<char>, SpecEntry>, now: u128) -> Map<Seq<char>, SpecEntry> {
    Map::new(
        |k: Seq<char>| entries.contains_key(k) && !(entries[k].expires_at matches Some(w) && w <= now),
        |k: Seq<char>| entries[k],
    )
}

/// The state after purging at `now`.
pub open spec fn purge_spec(v: DbView, now: u128) -> DbView {
    if v.shutdown {
        v
    } else {
        DbView { entries: unexpired(v.entries, now), ..v }
    }
}

/// `after` is `before` once the channel `key` is subscribed to: the channel
/// exists, an existing channel keeps its sender, and nothing else changes.
pub open spec fn subscribed(before: DbView, after: DbView, key: Seq<char>) -> bool {
    &&& after.entries == before.entries
    &&& after.shutdown == before.shutdown
    &&& after.channels.dom() == before.channels.dom().insert(key)
    &&& before.channels.submap_of(after.channels)
}

/// `after` is `before` once the channels `keys` are subscribed to, one
/// after the other.
pub open spec fn subscribed_to(before: DbView, after: DbView, keys: Set<Seq<char>>) -> bool {
    &&& after.entries == before.entries
    &&& after.shutdown == before.shutdown
    &&& after.channels.dom() == before.channels.dom() + keys
    &&& before.channels.submap_of(after.channels)
}

/// What publishing `message` on the channel `key` of the state `v` gives:
/// nothing is sent and the count is zero when the channel does not exist;
/// else the message is handed to the channel's sender, and the count is
/// what that send reported.
pub open spec fn published(v: DbView, key: Seq<char>, message: Seq<u8>, n: int, sent: Option<Sent>) -> bool {
    if v.channels.contains_key(key) {
        &&& sent matches Some(s)
        &&& s.sender() == v.channels[key]
        &&& s.message() == message
        &&& n == reached(s.reported()) as int
    } else {
        n == 0 && sent is None
    }
}

/// Removes the record of `key` from `exp`.
fn remove_record(exp: &mut Vec<(u128, String)>, key: &str)
    requires
        exists|i: int| 0 <= i < old(exp)@.len() && #[trigger] old(exp)@[i].1@ == key@,
        forall|i: int, j: int| 0 <= i < old(exp)@.len() && 0 <= j < old(exp)@.len() && i != j
            ==> #[trigger] old(exp)@[i].1@ != #[trigger] old(exp)@[j].1@,
    ensures
        exists|r: int| 0 <= r < old(exp)@.len() && #[trigger] old(exp)@[r].1@ == key@
            && final(exp)@ == old(exp)@.remove(r),
{
    let mut i: usize = 0;
    while i < exp.len()
        invariant
            exp@ == old(exp)@,
            0 <= i <= exp@.len(),
            forall|j: int| 0 <= j < i ==> #[trigger] exp@[j].1@ != key@,
            exists|r: int| 0 <= r < exp@.len() && #[trigger] exp@[r].1@ == key@,
        decreases exp@.len() - i,
    {
        if crate::text::eq_str(exp[i].1.as_str(), key) {
            let ghost r = i as int;
            exp.remove(i);
            assert(old(exp)@[r].1@ == key@);
            return ;
        }
        i = i + 1;
    }
}

/// Where a record other than the removed one is found after the removal.
proof fn witness_after_removal(
    exp0: Seq<(u128, String)>,
    exp1: Seq<(u128, String)>,
    key: Seq<char>,
    r: int,
) -> (i: int)
    requires
        0 <= r < exp0.len(),
        exp0[r].1@ != key,
        exp1 == exp0 || exists|x: int| 0 <= x < exp0.len() && #[trigger] exp0[x].1@ == key && exp1
            == exp0.remove(x),
    ensures
        0 <= i < exp1.len(),
        exp1[i] == exp0[r],
{
    if exp1 == exp0 {
        r
    } else {
        let x = choose|x: int| 0 <= x < exp0.len() && #[trigger] exp0[x].1@ == key && exp1
            == exp0.remove(x);
        if r < x {
            r
        } else {
            r - 1
        }
    }
}

/// The records of `exp` are exactly the entries that expire, one record
/// per key.
pub open spec fn records_match(entries: Map<Seq<char>, SpecEntry>, exp: Seq<(u128, String)>) -> bool {
    &&& forall|i: int| 0 <= i < exp.len() ==> expires(entries, #[trigger] exp[i].1@, exp[i].0)
    &&& forall|i: int, j: int| 0 <= i < exp.len() && 0 <= j < exp.len() && i != j
        ==> #[trigger] exp[i].1@ != #[trigger] exp[j].1@
    &&& forall|k: Seq<char>, w: u128| expires(entries, k, w) ==> exists|i: int|
        0 <= i < exp.len() && #[trigger] exp[i].1@ == k
}

/// The entries left once the keys of the expired records of `s` are
/// removed, one record after the other.
pub closed spec fn drop_expired(
    e: Map<Seq<char>, SpecEntry>,
    s: Seq<(u128, String)>,
    now: u128,
) -> Map<Seq<char>, SpecEntry>
    decreases s.len(),
{
    if s.len() == 0 {
        e
    } else {
        let rest = drop_expired(e, s.drop_last(), now);
        if s.last().0 <= now {
            rest.remove(s.last().1@)
        } else {
            rest
        }
    }
}

/// The records of `s` that expire after `now`, in order.
pub closed spec fn keep_unexpired(s: Seq<(u128, String)>, now: u128) -> Seq<(u128, String)>
    decreases s.len(),
{
    if s.len() == 0 {
        s
    } else {
        let rest = keep_unexpired(s.drop_last(), now);
        if s.last().0 > now {
            rest.push(s.last())
        } else {
            rest
        }
    }
}

/// Purging keeps the records in step with the entries, and leaves exactly
/// the entries that have not expired.
proof fn lemma_purge_records(e0: Map<Seq<char>, SpecEntry>, exp0: Seq<(u128, String)>, now: u128)
    requires
        records_match(e0, exp0),
    ensures
        drop_expired(e0, exp0, now) == unexpired(e0, now),
        records_match(unexpired(e0, now), keep_unexpired(exp0, now)),
{
    lemma_drop_expired(e0, exp0, now);
    lemma_keep_unexpired(exp0, now);
    let entries = drop_expired(e0, exp0, now);
    assert(entries =~= unexpired(e0, now)) by {
        assert forall|k: Seq<char>| #[trigger] entries.contains_key(k) <==> unexpired(
            e0,
            now,
        ).contains_key(k) by {
            if e0.contains_key(k) {
                match e0[k].expires_at {
                    Some(w) => {
                        assert(expires(e0, k, w));
                        let x = choose|x: int| 0 <= x < exp0.len() && #[trigger] exp0[x].1@ == k;
                        assert(expires(e0, exp0[x].1@, exp0[x].0));
                    },
                    None => {
                        if exists|x: int| 0 <= x < exp0.len() && #[trigger] exp0[x].1@ == k && exp0[x].0 <= now {
                            let x = choose|x: int| 0 <= x < exp0.len() && #[trigger] exp0[x].1@ == k && exp0[x].0 <= now;
                            assert(expires(e0, exp0[x].1@, exp0[x].0));
                        }
                    },
                }
            }
        }
    }
    let exp = keep_unexpired(exp0, now);
    assert forall|y: int| 0 <= y < exp.len() implies expires(entries, #[trigger] exp[y].1@, exp[y].0) by {
        let x = choose|x: int| 0 <= x < exp0.len() && exp0[x].0 > now && #[trigger] exp0[x] == exp[y];
        assert(expires(e0, exp0[x].1@, exp0[x].0));
    }
    assert forall|k: Seq<char>, w: u128| expires(entries, k, w) implies exists|y: int| 0 <= y < exp.len() && #[trigger] exp[y].1@ == k by {
        assert(expires(e0, k, w));
        let x = choose|x: int| 0 <= x < exp0.len() && #[trigger] exp0[x].1@ == k;
        assert(expires(e0, exp0[x].1@, exp0[x].0));
        let y = choose|y: int| 0 <= y < exp.len() && #[trigger] exp[y] == exp0[x];
        assert(exp[y].1@ == k);
    }
}

proof fn lemma_drop_expired(e: Map<Seq<char>, SpecEntry>, s: Seq<(u128, String)>, now: u128)
    ensures
        drop_expired(e, s, now) == Map::new(
            |k: Seq<char>|
                e.contains_key(k) && !(exists|x: int|
                    0 <= x < s.len() && #[trigger] s[x].1@ == k && s[x].0 <= now),
            |k: Seq<char>| e[k],
        ),
    decreases s.len(),
{
    if s.len() > 0 {
        let t = s.drop_last();
        lemma_drop_expired(e, t, now);
        let m = drop_expired(e, s, now);
        let target = Map::new(
            |k: Seq<char>|
                e.contains_key(k) && !(exists|x: int|
                    0 <= x < s.len() && #[trigger] s[x].1@ == k && s[x].0 <= now),
            |k: Seq<char>| e[k],
        );
        assert forall|k: Seq<char>| #[trigger] m.contains_key(k) <==> target.contains_key(k) by {
            if exists|x: int| 0 <= x < s.len() && #[trigger] s[x].1@ == k && s[x].0 <= now {
                let x = choose|x: int| 0 <= x < s.len() && #[trigger] s[x].1@ == k && s[x].0 <= now;
                if x < t.len() {
                    assert(t[x] == s[x]);
                }
            }
            if exists|x: int| 0 <= x < t.len() && #[trigger] t[x].1@ == k && t[x].0 <= now {
                let x = choose|x: int| 0 <= x < t.len() && #[trigger] t[x].1@ == k && t[x].0 <= now;
                assert(s[x] == t[x]);
            }
        }
        assert(m =~= target);
    } else {
        let target = Map::new(
            |k: Seq<char>|
                e.contains_key(k) && !(exists|x: int|
                    0 <= x < s.len() && #[trigger] s[x].1@ == k && s[x].0 <= now),
            |k: Seq<char>| e[k],
        );
        assert(e =~= target);
    }
}

proof fn lemma_keep_unexpired(s: Seq<(u128, String)>, now: u128)
    ensures
        forall|y: int|
            #![trigger keep_unexpired(s, now)[y]]
            0 <= y < keep_unexpired(s, now).len() ==> exists|x: int|
                0 <= x < s.len() && s[x].0 > now && #[trigger] s[x] == keep_unexpired(s, now)[y],
        (forall|x: int, z: int| 0 <= x < s.len() && 0 <= z < s.len() && x != z
            ==> #[trigger] s[x].1@ != #[trigger] s[z].1@) ==> (forall|y: int, z: int|
            0 <= y < keep_unexpired(s, now).len() && 0 <= z < keep_unexpired(s, now).len() && y != z
            ==> #[trigger] keep_unexpired(s, now)[y].1@ != #[trigger] keep_unexpired(s, now)[z].1@),
        forall|x: int|
            0 <= x < s.len() && s[x].0 > now ==> exists|y: int|
                0 <= y < keep_unexpired(s, now).len() && #[trigger] keep_unexpired(s, now)[y] == s[x],
    decreases s.len(),
{
    if s.len() > 0 {
        let t = s.drop_last();
        lemma_keep_unexpired(t, now);
        let k = keep_unexpired(s, now);
        let kt = keep_unexpired(t, now);
        assert forall|y: int| #![trigger k[y]] 0 <= y < k.len() implies exists|x: int|
            0 <= x < s.len() && s[x].0 > now && #[trigger] s[x] == k[y] by {
            if y < kt.len() {
                assert(k[y] == kt[y]);
                let x = choose|x: int| 0 <= x < t.len() && t[x].0 > now && #[trigger] t[x] == kt[y];
                assert(s[x] == t[x]);
            } else {
                assert(s[s.len() - 1] == k[y]);
            }
        }
        assert forall|x: int| 0 <= x < s.len() && s[x].0 > now implies exists|y: int|
            0 <= y < k.len() && #[trigger] k[y] == s[x] by {
            if x < t.len() {
                assert(t[x] == s[x]);
                let y = choose|y: int| 0 <= y < kt.len() && #[trigger] kt[y] == t[x];
                assert(k[y] == kt[y]);
            } else {
                assert(k[k.len() - 1] == s[x]);
            }
        }
        if forall|x: int, z: int| 0 <= x < s.len() && 0 <= z < s.len() && x != z
            ==> #[trigger] s[x].1@ != #[trigger] s[z].1@ {
            assert forall|x: int, z: int| 0 <= x < t.len() && 0 <= z < t.len() && x != z
                implies #[trigger] t[x].1@ != #[trigger] t[z].1@ by {
                assert(t[x] == s[x]);
                assert(t[z] == s[z]);
            }
            assert forall|y: int, z: int| 0 <= y < k.len() && 0 <= z < k.len() && y != z
                implies #[trigger] k[y].1@ != #[trigger] k[z].1@ by {
                if y < kt.len() && z < kt.len() {
                    assert(k[y] == kt[y]);
                    assert(k[z] == kt[z]);
                } else if y < kt.len() {
                    assert(k[y] == kt[y]);
                    let x = choose|x: int| 0 <= x < t.len() && t[x].0 > now && #[trigger] t[x] == kt[y];
                    assert(s[x] == t[x]);
                    assert(k[z] == s[s.len() - 1]);
                } else if z < kt.len() {
                    assert(k[z] == kt[z]);
                    let x = choose|x: int| 0 <= x < t.len() && t[x].0 > now && #[trigger] t[x] == kt[z];
                    assert(s[x] == t[x]);
                    assert(k[y] == s[s.len() - 1]);
                }
            }
        }
    }
}

impl View for Store {
    type V = DbView;

    closed spec fn view(&self) -> DbView {
        DbView {
            entries: self.entries@.map_values(|e: Entry| entry_view(e)),
            channels: self.pub_sub@,
            shutdown: self.shutdown,
        }
    }
}

impl Store {
    /// The records of `expirations` are exactly the entries that expire,
    /// one record per key.
    closed spec fn wf(&self) -> bool {
        records_match(self@.entries, self.expirations@)
    }

    /// An empty state.
    fn new() -> (s: Store)
        ensures
            s.wf(),
            s@.entries == Map::<Seq<char>, SpecEntry>::empty(),
            s@.channels == Map::<Seq<char>, Sender<Vec<u8>>>::empty(),
            !s@.shutdown,
    {
        let s = Store {
            entries: StringHashMap::new(),
            pub_sub: StringHashMap::new(),
            expirations: Vec::new(),
            shutdown: false,
        };
        proof {
            assert(s@.entries =~= Map::<Seq<char>, SpecEntry>::empty());
            assert(s@.channels =~= Map::<Seq<char>, Sender<Vec<u8>>>::empty());
        }
        s
    }

    /// The instant at which the next entry expires, if any.
    fn next_expiration(&self) -> (res: Option<u128>)
        requires
            self.wf(),
        ensures
            res == next_expiration_of(self@.entries),
    {
        let ghost entries = self@.entries;
        let ghost exp = self.expirations@;
        let mut best: Option<u128> = None;
        let mut i: usize = 0;
        while i < self.expirations.len()
            invariant
                self.wf(),
                entries == self@.entries,
                exp == self.expirations@,
                0 <= i <= exp.len(),
                best is None <==> i == 0,
                best matches Some(b) ==> exists|j: int| 0 <= j < i && #[trigger] exp[j].0 == b,
                best matches Some(b) ==> forall|j: int| 0 <= j < i ==> b <= #[trigger] exp[j].0,
            decreases exp.len() - i,
        {
            let w = self.expirations[i].0;
            best = match best {
                None => Some(w),
                Some(b) => if w < b {
                    Some(w)
                } else {
                    Some(b)
                },
            };
            i = i + 1;
        }
        proof {
            match best {
                Some(b) => {
                    let j = choose|j: int| 0 <= j < i && #[trigger] exp[j].0 == b;
                    assert(expires(entries, exp[j].1@, exp[j].0));
                    assert forall|k: Seq<char>, w2: u128| expires(entries, k, w2) implies b <= w2 by {
                        let r = choose|r: int| 0 <= r < exp.len() && #[trigger] exp[r].1@ == k;
                        assert(expires(entries, exp[r].1@, exp[r].0));
                    }
                    assert(is_next_expiration(entries, b));
                    let c = choose|w: u128| is_next_expiration(entries, w);
                    assert(is_next_expiration(entries, c));
                    let kc = choose|k: Seq<char>| expires(entries, k, c);
                    assert(expires(entries, exp[j].1@, b));
                    assert(b <= c);
                    assert(c <= b);
                },
                None => {
                    assert forall|k: Seq<char>, w: u128| !expires(entries, k, w) by {
                        if expires(entries, k, w) {
                            let r = choose|r: int| 0 <= r < exp.len() && #[trigger] exp[r].1@ == k;
                        }
                    }
                },
            }
        }
        best
    }

    /// Set the value associated with a key together with an optional
    /// time to live, in milliseconds from `now`.
    ///
    /// If a value is already associated with the key, it is replaced, and
    /// its expiration is dropped. Returns whether the purge task must be
    /// woken: only when the new entry is the next one to expire.
    fn set(&mut self, key: String, value: Vec<u8>, expire: Option<u128>, now: u128) -> (notify: bool)
        requires
            old(self).wf(),
            expire matches Some(ms) ==> now + ms <= u128::MAX,
        ensures
            final(self).wf(),
            final(self)@ == set_spec(old(self)@, key@, value@, expire, now),
            notify == set_notifies(old(self)@, expire, now),
    {
        let ghost old_entries = self@.entries;
        let mut notify = false;
        let expires_at = match expire {
            Some(ms) => {
                let when = now + ms;
                // Only notify the worker task if the newly inserted expiration
                // is the next key to evict.
                notify = match self.next_expiration() {
                    Some(expiration) => expiration > when,
                    None => true,
                };
                Some(when)
            },
            None => None,
        };
        let prev_expiry = match self.entries.get(key.as_str()) {
            Some(prev) => prev.expires_at,
            None => None,
        };
        let ghost exp0 = self.expirations@;
        // Remove the record of the previous expiration, if any, then add
        // the new one.
        if prev_expiry.is_some() {
            proof {
                assert(old_entries.contains_key(key@));
                assert(old_entries[key@].expires_at == prev_expiry);
                assert(expires(old_entries, key@, prev_expiry.unwrap()));
            }
            remove_record(&mut self.expirations, key.as_str());
        }
        let ghost exp1 = self.expirations@;
        self.entries.insert(key.clone(), Entry { data: value, expires_at });
        match expires_at {
            Some(when) => {
                self.expirations.push((when, key));
            },
            None => {},
        }
        proof {
            let entries = self@.entries;
            assert(entries =~= old_entries.insert(key@, SpecEntry { data: value@, expires_at: expiry_of(expire, now) }));
            let exp = self.expirations@;
            // Records other than the key's are unchanged.
            assert forall|i: int| 0 <= i < exp1.len() implies #[trigger] exp1[i].1@ != key@ && exists|j: int| 0 <= j < exp0.len() && exp0[j] == exp1[i] by {
                if prev_expiry.is_none() {
                    assert(exp1[i] == exp0[i]);
                    assert(expires(old_entries, exp0[i].1@, exp0[i].0));
                }
            }
            assert forall|i: int| 0 <= i < exp.len() implies expires(entries, #[trigger] exp[i].1@, exp[i].0) by {
                if i < exp1.len() {
                    assert(exp[i] == exp1[i]);
                    let j = choose|j: int| 0 <= j < exp0.len() && exp0[j] == exp1[i];
                    assert(expires(old_entries, exp0[j].1@, exp0[j].0));
                }
            }
            assert forall|i: int, j: int| 0 <= i < exp.len() && 0 <= j < exp.len() && i != j implies #[trigger] exp[i].1@ != #[trigger] exp[j].1@ by {
                if i < exp1.len() && j < exp1.len() {
                    assert(exp[i] == exp1[i]);
                    assert(exp[j] == exp1[j]);
                } else if i < exp1.len() {
                    assert(exp[i] == exp1[i]);
                } else if j < exp1.len() {
                    assert(exp[j] == exp1[j]);
                }
            }
            assert forall|k: Seq<char>, w: u128| expires(entries, k, w) implies exists|i: int| 0 <= i < exp.len() && #[trigger] exp[i].1@ == k by {
                if k == key@ {
                    assert(exp[exp.len() - 1].1@ == k);
                } else {
                    assert(expires(old_entries, k, w));
                    let r = choose|r: int| 0 <= r < exp0.len() && #[trigger] exp0[r].1@ == k;
                    let i = witness_after_removal(exp0, exp1, key@, r);
                    assert(exp[i] == exp1[i]);
                }
            }
        }
        notify
    }

    /// Purge all expired keys (those that expire at or before `now`) and
    /// return the instant at which the **next** key expires. The background
    /// task sleeps until this instant. `None` when no key is left to expire,
    /// or when the database is shutting down.
    fn purge_expired_keys(&mut self, now: u128) -> (res: Option<u128>)
        requires
            old(self).wf(),
        ensures
            final(self).wf(),
            final(self)@ == purge_spec(old(self)@, now),
            res == (if old(self)@.shutdown {
                None
            } else {
                next_expiration_of(final(self)@.entries)
            }),
    {
        if self.shutdown {
            // The database is shutting down. All handles to the shared state
            // have dropped. The background task should exit.
            return None;
        }
        let ghost e0 = self@.entries;
        let ghost exp0 = self.expirations@;
        let ghost ch0 = self@.channels;
        let mut old_exp: Vec<(u128, String)> = Vec::new();
        std::mem::swap(&mut old_exp, &mut self.expirations);
        let mut kept: Vec<(u128, String)> = Vec::new();
        let mut i: usize = 0;
        while i < old_exp.len()
            invariant
                old_exp@ == exp0,
                0 <= i <= exp0.len(),
                !self.shutdown,
                self@.channels == ch0,
                self@.entries == drop_expired(e0, exp0.subrange(0, i as int), now),
                kept@ == keep_unexpired(exp0.subrange(0, i as int), now),
            decreases exp0.len() - i,
        {
            proof {
                assert(exp0.subrange(0, i + 1).drop_last() =~= exp0.subrange(0, i as int));
            }
            let when = old_exp[i].0;
            if when > now {
                let key = old_exp[i].1.clone();
                kept.push((when, key));
            } else {
                // The key expired, remove it.
                self.entries.remove(old_exp[i].1.as_str());
                proof {
                    assert(self@.entries =~= drop_expired(e0, exp0.subrange(0, i as int), now).remove(
                        exp0[i as int].1@,
                    ));
                }
            }
            i = i + 1;
        }
        self.expirations = kept;
        proof {
            assert(exp0.subrange(0, i as int) =~= exp0);
            lemma_purge_records(e0, exp0, now);
            assert(self@.entries == unexpired(e0, now));
            assert(self@ == purge_spec(old(self)@, now));
        }
        self.next_expiration()
    }

    /// Returns a `Receiver` for the requested channel, creating the channel
    /// if it does not exist yet.
    ///
    /// The returned `Receiver` is used to receive values broadcast by
    /// `PUBLISH` commands.
    fn subscribe(&mut self, key: String) -> (rx: Subscription)
        requires
            old(self).wf(),
        ensures
            final(self).wf(),
            subscribed(old(self)@, final(self)@, key@),
            rx.channel() == final(self)@.channels[key@],
    {
        let rx = match self.pub_sub.get(key.as_str()) {
            Some(tx) => subscribe_receiver(tx),
            None => {
                let (tx, rx) = broadcast_channel(CHANNEL_CAPACITY);
                self.pub_sub.insert(key, tx);
                rx
            },
        };
        proof {
            assert(self@.channels.dom() =~= old(self)@.channels.dom().insert(key@));
        }
        rx
    }

    /// Publish a message to the channel. Returns the number of subscribers
    /// listening on the channel: zero when the channel does not exist or
    /// has no receiver left. When the channel exists, the message is handed
    /// to its sender, and the record of that send is returned too.
    fn publish(&self, key: &str, value: Vec<u8>) -> (res: (usize, Option<Sent>))
        ensures
            published(self@, key@, value@, res.0 as int, res.1),
    {
        match self.pub_sub.get(key) {
            // On a successful message send on the broadcast channel, the
            // number of subscribers is returned. An error indicates there
            // are no receivers, in which case, `0` should be returned.
            Some(tx) => {
                let sent = send_message(tx, value);
                (sent.count(), Some(sent))
            },
            // If there is no entry for the channel key, then there are no
            // subscribers. In this case, return `0`.
            None => (0, None),
        }
    }

    /// Marks the database as shutting down: the purge task stops at its
    /// next wake-up.
    fn shutdown_purge_task(&mut self)
        requires
            old(self).wf(),
        ensures
            final(self).wf(),
            final(self)@ == (DbView { shutdown: true, ..old(self)@ }),
    {
        self.shutdown = true;
    }

    /// Returns `true` if the database is shutting down.
    fn is_shutdown(&self) -> (res: bool)
        ensures
            res == self@.shutdown,
    {
        self.shutdown
    }

    /// Get the value associated with a key.
    ///
    /// Returns `None` if there is no value associated with the key. This may
    /// be due to never having assigned a value to the key or a previously
    /// assigned value expired.
    fn get(&self, key: &str) -> (res: Option<Vec<u8>>)
        ensures
            res matches Some(d) ==> get_spec(self@, key@) == Some(d@),
            res is None ==> get_spec(self@, key@) is None,
    {
        match self.entries.get(key) {
            Some(entry) => Some(entry.data.clone()),
            None => None,
        }
    }
}


/// The shared state of a server.
pub struct State {
    store: Store,
}

impl View for State {
    type V = DbView;

    closed spec fn view(&self) -> DbView {
        self.store@
    }
}

impl State {
    /// The records of `expirations` are exactly the entries that expire,
    /// one record per key.
    #[verifier::type_invariant]
    spec fn wf(self) -> bool {
        self.store.wf()
    }

    /// An empty state.
    pub fn new() -> (s: State)
        ensures
            s@.entries == Map::<Seq<char>, SpecEntry>::empty(),
            s@.channels == Map::<Seq<char>, Sender<Vec<u8>>>::empty(),
            !s@.shutdown,
    {
        State { store: Store::new() }
    }

    /// The instant at which the next entry expires, if any.
    pub fn next_expiration(&self) -> (res: Option<u128>)
        ensures
            res == next_expiration_of(self@.entries),
    {
        proof {
            use_type_invariant(self);
        }
        self.store.next_expiration()
    }

    /// Set the value associated with a key together with an optional
    /// time to live, in milliseconds from `now`.
    ///
    /// If a value is already associated with the key, it is replaced, and
    /// its expiration is dropped. Returns whether the purge task must be
    /// woken: only when the new entry is the next one to expire.
    pub fn set(&mut self, key: String, value: Vec<u8>, expire: Option<u128>, now: u128) -> (notify: bool)
        requires
            expire matches Some(ms) ==> now + ms <= u128::MAX,
        ensures
            final(self)@ == set_spec(old(self)@, key@, value@, expire, now),
            notify == set_notifies(old(self)@, expire, now),
    {
        proof {
            use_type_invariant(&*self);
        }
        let mut store = Store::new();
        std::mem::swap(&mut store, &mut self.store);
        let notify = store.set(key, value, expire, now);
        self.store = store;
        notify
    }

    /// Purge all expired keys (those that expire at or before `now`) and
    /// return the instant at which the **next** key expires. The background
    /// task sleeps until this instant. `None` when no key is left to expire,
    /// or when the database is shutting down.
    pub fn purge_expired_keys(&mut self, now: u128) -> (res: Option<u128>)
        ensures
            final(self)@ == purge_spec(old(self)@, now),
            res == (if old(self)@.shutdown {
                None
            } else {
                next_expiration_of(final(self)@.entries)
            }),
    {
        proof {
            use_type_invariant(&*self);
        }
        let mut store = Store::new();
        std::mem::swap(&mut store, &mut self.store);
        let res = store.purge_expired_keys(now);
        self.store = store;
        res
    }

    /// Returns a receiver of the requested channel, creating the channel
    /// if it does not exist yet, and reusing it otherwise. The receiver is
    /// tied to the channel's sender, on which `publish` hands messages.
    ///
    /// The returned receiver is used to receive values broadcast by
    /// `PUBLISH` commands.
    pub fn subscribe(&mut self, key: String) -> (rx: Subscription)
        ensures
            subscribed(old(self)@, final(self)@, key@),
            rx.channel() == final(self)@.channels[key@],
    {
        proof {
            use_type_invariant(&*self);
        }
        let mut store = Store::new();
        std::mem::swap(&mut store, &mut self.store);
        let rx = store.subscribe(key);
        self.store = store;
        rx
    }

    /// Publish a message to the channel. Returns the number of subscribers
    /// listening on the channel: zero when the channel does not exist or
    /// has no receiver left. When the channel exists, the message is handed
    /// to its sender, and the record of that send is returned too.
    pub fn publish(&self, key: &str, value: Vec<u8>) -> (res: (usize, Option<Sent>))
        ensures
            published(self@, key@, value@, res.0 as int, res.1),
    {
        self.store.publish(key, value)
    }

    /// Marks the database as shutting down: the purge task stops at its
    /// next wake-up.
    pub fn shutdown_purge_task(&mut self)
        ensures
            final(self)@ == (DbView { shutdown: true, ..old(self)@ }),
    {
        proof {
            use_type_invariant(&*self);
        }
        let mut store = Store::new();
        std::mem::swap(&mut store, &mut self.store);
        store.shutdown_purge_task();
        self.store = store;
    }

    /// Returns `true` if the database is shutting down.
    pub fn is_shutdown(&self) -> (res: bool)
        ensures
            res == self@.shutdown,
    {
        self.store.is_shutdown()
    }

    /// Get the value associated with a key.
    ///
    /// Returns `None` if there is no value associated with the key. This may
    /// be due to never having assigned a value to the key or a previously
    /// assigned value expired.
    pub fn get(&self, key: &str) -> (res: Option<Vec<u8>>)
        ensures
            res matches Some(d) ==> get_spec(self@, key@) == Some(d@),
            res is None ==> get_spec(self@, key@) is None,
    {
        self.store.get(key)
    }
}

} // verus!

verus! {

/// A `get` of a key just set returns the value set; other keys keep their
/// values.
pub proof fn law_get_after_set(
    v: DbView,
    key: Seq<char>,
    value: Seq<u8>,
    expire: Option<u128>,
    now: u128,
    other: Seq<char>,
)
    ensures
        get_spec(set_spec(v, key, value, expire, now), key) == Some(value),
        other != key ==> get_spec(set_spec(v, key, value, expire, now), other) == get_spec(v, other),
{
}

/// A `set` without expiration drops any previous time to live: no purge
/// removes the key afterwards.
pub proof fn law_set_clears_ttl(v: DbView, key: Seq<char>, value: Seq<u8>, now: u128, later: u128)
    ensures
        get_spec(purge_spec(set_spec(v, key, value, None, now), later), key) == Some(value),
{
}

/// A key set with a time to live of `ms` milliseconds at `now` is still
/// there when purging before `now + ms`, and gone when purging at or after
/// it.
pub proof fn law_key_expires(
    v: DbView,
    key: Seq<char>,
    value: Seq<u8>,
    ms: u128,
    now: u128,
    later: u128,
)
    requires
        now + ms <= u128::MAX,
        !v.shutdown,
    ensures
        later < now + ms ==> get_spec(purge_spec(set_spec(v, key, value, Some(ms), now), later), key)
            == Some(value),
        later >= now + ms ==> get_spec(purge_spec(set_spec(v, key, value, Some(ms), now), later), key)
            is None,
{
}

/// Purging at `now` removes exactly the keys that expire at or before
/// `now`; every other key keeps its value.
pub proof fn law_purge_removes_expired(v: DbView, now: u128, key: Seq<char>)
    requires
        !v.shutdown,
    ensures
        get_spec(purge_spec(v, now), key) == (if v.entries.contains_key(key) && (
        v.entries[key].expires_at matches Some(w) && w <= now) {
            None
        } else {
            get_spec(v, key)
        }),
{
}

/// The key/value space and the pub/sub space are independent: setting a
/// key changes no channel, and subscribing to a channel changes no key.
pub proof fn law_separate_key_spaces(
    v: DbView,
    key: Seq<char>,
    value: Seq<u8>,
    expire: Option<u128>,
    now: u128,
    channel: Seq<char>,
    after: DbView,
    other: Seq<char>,
)
    ensures
        set_spec(v, key, value, expire, now).channels == v.channels,
        subscribed(v, after, channel) ==> get_spec(after, other) == get_spec(v, other),
{
}

/// Subscribing to a channel that exists reuses it: every channel keeps its
/// sender, so the earlier subscribers stay on it. Only a channel that does
/// not exist is created.
pub proof fn law_subscribe_reuses_channel(v: DbView, after: DbView, channel: Seq<char>)
    requires
        subscribed(v, after, channel),
    ensures
        v.channels.contains_key(channel) ==> after.channels == v.channels,
        !v.channels.contains_key(channel) ==> after.channels.remove(channel) == v.channels,
{
    if v.channels.contains_key(channel) {
        assert(after.channels =~= v.channels);
    } else {
        assert(after.channels.remove(channel) =~= v.channels);
    }
}

/// When some entry expires, one of them expires first.
proof fn lemma_next_expiration_exists(entries: Map<Seq<char>, SpecEntry>, k0: Seq<char>, w0: u128)
    requires
        expires(entries, k0, w0),
    ensures
        exists|w: u128| is_next_expiration(entries, w),
    decreases w0,
{
    if !is_next_expiration(entries, w0) {
        let (k1, w1) = choose|k1: Seq<char>, w1: u128| expires(entries, k1, w1) && w1 < w0;
        lemma_next_expiration_exists(entries, k1, w1);
    }
}

/// The next expiration is pending, and no pending expiration comes before
/// it; there is none exactly when nothing expires.
pub proof fn lemma_next_expiration(entries: Map<Seq<char>, SpecEntry>)
    ensures
        next_expiration_of(entries) is None <==> forall|k: Seq<char>, w: u128| !expires(entries, k, w),
        next_expiration_of(entries) matches Some(next) ==> is_next_expiration(entries, next),
{
    if exists|k: Seq<char>, w: u128| expires(entries, k, w) {
        let (k0, w0) = choose|k: Seq<char>, w: u128| expires(entries, k, w);
        lemma_next_expiration_exists(entries, k0, w0);
        let next = choose|w: u128| is_next_expiration(entries, w);
        assert(is_next_expiration(entries, next));
        assert(next_expiration_of(entries) == Some(next));
    }
}

/// A `set` at `now` wakes the purge task exactly when the new entry
/// expires, and expires before every expiration pending until then (or
/// none is pending): the task must then wake earlier than it planned.
pub proof fn law_set_wakes_purge_for_earlier_expiration(
    v: DbView,
    expire: Option<u128>,
    now: u128,
)
    requires
        expire matches Some(ms) ==> now + ms <= u128::MAX,
    ensures
        set_notifies(v, expire, now) == (expire matches Some(ms) && forall|k: Seq<char>, w: u128|
            expires(v.entries, k, w) ==> now + ms < w),
{
    lemma_next_expiration(v.entries);
}

/// What a publish returns is what the send reported: the number of
/// receivers reached, zero when no receiver is left, and zero when the
/// channel does not exist, so that nothing is sent.
pub proof fn law_publish_count_is_what_the_send_reported(
    v: DbView,
    key: Seq<char>,
    message: Seq<u8>,
    n: int,
    sent: Option<Sent>,
)
    requires
        published(v, key, message, n, sent),
    ensures
        sent is None ==> n == 0 && !v.channels.contains_key(key),
        sent matches Some(s) ==> (s.reported() is None ==> n == 0) && (s.reported() matches Some(r)
            ==> n == r) && s.message() == message && s.sender() == v.channels[key],
{
}

} // verus!
