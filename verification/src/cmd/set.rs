use vstd::prelude::*;
use vstd::utf8::*;
use crate::cmd::{bulk_text, expire_args, read_matches, set_args, Read, SpecCommand};
use crate::db::{set_notifies, set_spec, State};
use crate::decimal::{decimal_digits, push_decimal};
use crate::frame::{Frame, SpecFrame};
use crate::parse::{int_value, Parse, ParseError};
use crate::text::{eq_str, to_owned_string, to_uppercase, uppercase};

verus! {

broadcast use vstd::seq_lib::lemma_seq_skip_nothing;

/// Set `key` to hold the string `value`.
///
/// If `key` already holds a value, it is overwritten, regardless of its
/// type. Any previous time to live associated with the key is discarded on
/// successful SET operation.
///
/// # Options
///
/// Currently, the following options are supported:
///
/// * EX `seconds` -- Set the specified expire time, in seconds.
/// * PX `milliseconds` -- Set the specified expire time, in milliseconds.
#[derive(Debug)]
pub struct SetCmd {
    /// the lookup key
    key: String,
    /// the value to be stored
    value: Vec<u8>,
    /// When to expire the key, in milliseconds
    expire: Option<u128>,
}

impl SetCmd {
    /// The key, as text.
    pub closed spec fn key_view(&self) -> Seq<char> {
        self.key@
    }

    /// The value, as bytes.
    pub closed spec fn value_view(&self) -> Seq<u8> {
        self.value@
    }

    /// The time to live, in milliseconds.
    pub closed spec fn expire_view(&self) -> Option<u128> {
        self.expire
    }
}

impl View for SetCmd {
    type V = SpecCommand;

    open spec fn view(&self) -> SpecCommand {
        SpecCommand::SetCmd { key: self.key_view(), value: self.value_view(), expire: self.expire_view() }
    }
}

/// The frame a client sends for `SET key value [PX milliseconds]`.
pub open spec fn set_frame(key: Seq<char>, value: Seq<u8>, expire: Option<u128>) -> SpecFrame {
    let base = seq![
        SpecFrame::Bulk(encode_utf8("set"@)),
        SpecFrame::Bulk(encode_utf8(key)),
        SpecFrame::Bulk(value),
    ];
    match expire {
        None => SpecFrame::Array(base),
        Some(ms) => SpecFrame::Array(
            base + seq![SpecFrame::Bulk(encode_utf8("px"@)), SpecFrame::Bulk(decimal_digits(ms as nat))],
        ),
    }
}

impl SetCmd {
    /// Create a new `SetCmd` command which sets `key` to `value`.
    ///
    /// If `expire` is `Some`, the value should expire after the specified
    /// number of milliseconds.
    pub fn new(key: &str, value: Vec<u8>, expire: Option<u128>) -> (s: SetCmd)
        ensures
            s@ == (SpecCommand::SetCmd { key: key@, value: value@, expire }),
    {
        SetCmd { key: to_owned_string(key), value, expire }
    }

    /// Get the key
    pub fn key(&self) -> (k: &str)
        ensures
            k@ == self@->SetCmd_key,
    {
        self.key.as_str()
    }

    /// Get the value
    pub fn value(&self) -> (v: &Vec<u8>)
        ensures
            v@ == self@->SetCmd_value,
    {
        &self.value
    }

    /// Get the expire, in milliseconds
    pub fn expire(&self) -> (e: Option<u128>)
        ensures
            e == self@->SetCmd_expire,
    {
        self.expire
    }

    /// Reads the expiration option of `SET` once its name is read and
    /// upper-cased to `option`: `EX seconds` or `PX milliseconds`, returned
    /// as milliseconds. Any other option is an error.
    pub fn parse_expire(option: &str, parse: &mut Parse) -> (res: Result<u128, ParseError>)
        ensures
            match expire_args(option@, old(parse)@) {
                Read::Done(e, n) => res matches Ok(ms) && e == Some(ms) && final(parse)@ == old(parse)@.skip(n),
                Read::EndOfStream(n) => res matches Err(ParseError::EndOfStream) && final(parse)@
                    == old(parse)@.skip(n),
                Read::Invalid(n, m) => res matches Err(ParseError::Other(e)) && e@ == m && final(parse)@
                    == old(parse)@.skip(n),
            },
    {
        if eq_str(option, "EX") {
            // An expiration is specified in seconds. The next value is an
            // integer.
            let secs = match parse.next_int() {
                Ok(secs) => secs,
                Err(e) => return Err(e),
            };
            Ok((secs as u128) * 1000)
        } else if eq_str(option, "PX") {
            // An expiration is specified in milliseconds. The next value is
            // an integer.
            let ms = match parse.next_int() {
                Ok(ms) => ms,
                Err(e) => return Err(e),
            };
            Ok(ms as u128)
        } else {
            // Currently, mini-redis does not support any of the other SET
            // options. An error here results in the connection being
            // terminated. Other connections will continue to operate
            // normally.
            proof {
                assert(old(parse)@.skip(0) =~= old(parse)@);
            }
            Err(ParseError::Other(to_owned_string("currently `SET` only supports the expiration option")))
        }
    }

    /// Parse a `SetCmd` instance from a received frame.
    ///
    /// The `SET` string has already been consumed.
    ///
    /// # Format
    ///
    /// Expects an array frame containing at least 3 entries.
    ///
    /// ```text
    /// SET key value [EX seconds|PX milliseconds]
    /// ```
    pub fn parse_frames(parse: &mut Parse) -> (res: Result<SetCmd, ParseError>)
        ensures
            read_matches(set_args(old(parse)@), res, old(parse)@, final(parse)@),
    {
        let ghost a = old(parse)@;
        // Read the key to set. This is a required field
        let key = match parse.next_string() {
            Ok(k) => k,
            Err(e) => {
                proof {
                    assert(a.len() > 0 ==> a.skip(1) =~= a.drop_first());
                }
                return Err(e);
            },
        };
        // Read the value to set. This is a required field.
        let value = match parse.next_bytes() {
            Ok(v) => v,
            Err(e) => {
                proof {
                    assert(a.skip(1) =~= a.drop_first());
                    assert(a.len() > 1 ==> a.skip(2) =~= a.drop_first().drop_first());
                }
                return Err(e);
            },
        };
        proof {
            assert(a.skip(2) =~= a.drop_first().drop_first());
        }
        // The expiration is optional. If nothing else follows, then it is
        // `None`.
        let expire = match parse.next_string() {
            Ok(s) => {
                let option = to_uppercase(s.as_str());
                let ghost rest = parse@;
                proof {
                    assert(rest =~= a.skip(3));
                }
                match SetCmd::parse_expire(option.as_str(), parse) {
                    Ok(ms) => {
                        proof {
                            assert(rest.skip(1) =~= a.skip(4));
                        }
                        Some(ms)
                    },
                    Err(e) => {
                        proof {
                            assert(rest.skip(0) =~= a.skip(3));
                            assert(rest.len() > 0 ==> rest.skip(1) =~= a.skip(4));
                        }
                        return Err(e);
                    },
                }
            },
            // An `EndOfStream` error indicates there is no further data to
            // parse. In this case, it is a normal run time situation and
            // indicates there are no specified `SET` options.
            Err(ParseError::EndOfStream) => None,
            // All other errors are bubbled up, resulting in the connection
            // being terminated.
            Err(e) => {
                proof {
                    assert(a.skip(3) =~= a.drop_first().drop_first().drop_first());
                }
                return Err(e);
            },
        };
        Ok(SetCmd { key, value, expire })
    }

    /// Apply the `SetCmd` command at time `now`: the key is set in the shared
    /// state, and the response is `OK`. Also returns whether the task that
    /// purges expired keys must be woken.
    pub fn apply(self, db: &mut State, now: u128) -> (res: (Frame, bool))
        requires
            self@->SetCmd_expire matches Some(ms) ==> now + ms <= u128::MAX,
        ensures
            final(db)@ == set_spec(old(db)@, self@->SetCmd_key, self@->SetCmd_value, self@->SetCmd_expire, now),
            res.1 == set_notifies(old(db)@, self@->SetCmd_expire, now),
            res.0@ == SpecFrame::Simple("OK"@),
    {
        // Set the value in the shared database state.
        let notify = db.set(self.key, self.value, self.expire, now);
        // Create a success response.
        (Frame::Simple(to_owned_string("OK")), notify)
    }

    /// Converts the command into an equivalent `Frame`.
    ///
    /// This is called by the client when encoding a `SetCmd` command to send to
    /// the server. The expiration, if any, is sent in milliseconds: `PX`
    /// allows more precision than `EX`.
    pub fn into_frame(self) -> (f: Frame)
        ensures
            f@ == set_frame(self@->SetCmd_key, self@->SetCmd_value, self@->SetCmd_expire),
    {
        let ghost v = self@;
        let mut frame = Frame::array();
        frame.push_bulk(bulk_text("set"));
        frame.push_bulk(bulk_text(self.key.as_str()));
        frame.push_bulk(self.value);
        match self.expire {
            Some(ms) => {
                frame.push_bulk(bulk_text("px"));
                let mut digits: Vec<u8> = Vec::new();
                push_decimal(ms, &mut digits);
                proof {
                    assert(digits@ =~= decimal_digits(ms as nat));
                }
                frame.push_bulk(digits);
            },
            None => {},
        }
        proof {
            assert(frame@->Array_0 =~= set_frame(v->SetCmd_key, v->SetCmd_value, v->SetCmd_expire)->Array_0);
        }
        frame
    }
}

/// `SET key value EX n` asks the key to live `n` seconds, that is `n * 1000`
/// milliseconds, and `SET key value PX n` asks for `n` milliseconds, for
/// every `u64` `n`, the option in any case and the number as any entry
/// that reads as `n`.
pub proof fn law_set_expire_in_milliseconds(
    key: Seq<char>,
    value: Seq<u8>,
    option: Seq<char>,
    amount: SpecFrame,
    n: u64,
)
    requires
        int_value(amount) == Some(n),
        uppercase(option) == "EX"@ || uppercase(option) == "PX"@,
    ensures
        set_args(
            seq![
                SpecFrame::Bulk(encode_utf8(key)),
                SpecFrame::Bulk(value),
                SpecFrame::Simple(option),
                amount,
            ],
        ) matches Read::Done(SpecCommand::SetCmd { key: k, value: v, expire: Some(ms) }, used) && k == key
            && v == value && used == 4 && (if uppercase(option) == "EX"@ {
            ms == n * 1000
        } else {
            ms == n
        }),
{
    let a = seq![
        SpecFrame::Bulk(encode_utf8(key)),
        SpecFrame::Bulk(value),
        SpecFrame::Simple(option),
        amount,
    ];
    broadcast use vstd::utf8::group_utf8_lib;
    reveal_strlit("EX");
    reveal_strlit("PX");
    assert("EX"@[0] != "PX"@[0]);
    assert(a.skip(3) =~= seq![amount]);
    assert(a.skip(3)[0] == amount);
    assert(n * 1000 <= u128::MAX);
}

} // verus!
