//! The decisions of the server: how a connection handles a received frame,
//! how many connections are served at once, and how the accept loop backs
//! off after errors.

use vstd::prelude::*;
use crate::cmd::{applied, command_of, set_args, Command, Outcome, Parsed, Read, SpecCommand};
use crate::db::State;
use crate::frame::{Frame, SpecFrame};
use crate::parse::int_value;

verus! {

/// Maximum number of concurrent connections the redis server will accept.
///
/// When this limit is reached, the server will stop accepting connections
/// until an active connection terminates.
pub const MAX_CONNECTIONS: usize = 250;

/// The longest delay, in seconds, that the accept loop waits before it
/// gives up.
pub const MAX_BACKOFF: u64 = 64;

/// The time to live that a frame asks of `SET` is at most a thousand times
/// the largest `u64`: it is read as a `u64` of seconds or milliseconds.
pub proof fn lemma_expire_bound(f: SpecFrame)
    ensures
        command_of(f) matches Parsed::Command(SpecCommand::SetCmd { expire: Some(ms), .. }) ==> ms
            <= 1000 * u64::MAX,
{
    if let Parsed::Command(SpecCommand::SetCmd { expire: Some(ms), .. }) = command_of(f) {
        let items = f->Array_0;
        let a = items.drop_first();
        if let Read::Done(_, _) = set_args(a) {
            let rest = a.skip(3);
            if let Some(v) = int_value(rest[0]) {
                assert(v * 1000 <= 1000 * u64::MAX);
            }
        }
    }
}

/// Handles one frame received on a connection at time `now` (milliseconds
/// since the server started): the frame is read as a command, which is
/// applied to the shared state. Returns what to do next, or the error that
/// ends the connection.
pub fn handle_frame(frame: Frame, db: &mut State, now: u128) -> (res: Result<Outcome, String>)
    requires
        now <= u64::MAX,
    ensures
        match command_of(frame@) {
            Parsed::Command(c) => applied(c, old(db)@, final(db)@, now, res),
            Parsed::EndOfStream => res matches Err(m) && m@ == "protocol error; unexpected end of stream"@
                && final(db)@ == old(db)@,
            Parsed::Invalid(m) => res matches Err(e) && e@ == m && final(db)@ == old(db)@,
        },
{
    proof {
        lemma_expire_bound(frame@);
    }
    let cmd = match Command::from_frame(frame) {
        Ok(cmd) => cmd,
        Err(e) => return Err(e.to_string()),
    };
    cmd.apply(db, now)
}

/// The delays of the accept loop: after a failed accept it waits, then
/// tries again, each delay twice the one before, starting at one second.
/// Once the delay would pass `MAX_BACKOFF`, the error is returned instead.
pub struct Backoff {
    /// The delay, in seconds, after the next failure.
    next: u64,
}

/// The delay before retrying after a failure, when the next delay is
/// `next`, and the next delay after that; no delay once `next` passes the
/// limit.
pub open spec fn backoff_step(next: u64) -> (Option<u64>, u64) {
    if next > MAX_BACKOFF {
        (None, next)
    } else {
        (Some(next), (next * 2) as u64)
    }
}

/// The next delay after `k` failures.
pub open spec fn backoff_after(k: nat) -> u64
    decreases k,
{
    if k == 0 {
        1
    } else {
        backoff_step(backoff_after((k - 1) as nat)).1
    }
}

impl View for Backoff {
    type V = u64;

    closed spec fn view(&self) -> u64 {
        self.next
    }
}

impl Backoff {
    #[verifier::type_invariant]
    spec fn bounded(self) -> bool {
        1 <= self.next <= 2 * MAX_BACKOFF
    }

    /// The first delay is one second.
    pub fn new() -> (b: Backoff)
        ensures
            b@ == backoff_after(0),
    {
        Backoff { next: 1 }
    }

    /// Records a failed accept: returns how many seconds to wait before the
    /// next try, or `None` when the loop must give up.
    pub fn failed(&mut self) -> (delay: Option<u64>)
        ensures
            (delay, final(self)@) == backoff_step(old(self)@),
    {
        proof {
            use_type_invariant(&*self);
        }
        if self.next > MAX_BACKOFF {
            None
        } else {
            let delay = self.next;
            self.next = self.next * 2;
            Some(delay)
        }
    }
}

/// The accept loop waits 1, 2, 4, ... seconds after the successive
/// failures, up to `MAX_BACKOFF` (the seventh failure), and gives up at the
/// eighth.
pub proof fn law_backoff_doubles_then_gives_up(k: nat)
    ensures
        k <= 6 ==> backoff_step(backoff_after(k)).0 == Some(vstd::arithmetic::power2::pow2(k) as u64),
        k == 7 ==> backoff_step(backoff_after(k)).0 is None,
    decreases k,
{
    vstd::arithmetic::power2::lemma2_to64();
    reveal_with_fuel(backoff_after, 8);
}

} // verus!
