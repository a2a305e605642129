//! A frame of the Redis serialization protocol (RESP), and the two steps
//! that read one from bytes: `check` finds out whether a whole frame is
//! buffered, `parse` builds it.

use vstd::prelude::*;
use vstd::utf8::*;
use crate::decimal::{atoi_u64, atoi_u64_spec};
use vstd::slice::{slice_subrange, slice_to_vec};
use crate::text::{to_owned_string, utf8_string};

verus! {

broadcast use vstd::utf8::group_utf8_lib;

/// A frame in the Redis protocol.
#[derive(Debug)]
pub enum Frame {
    Simple(String),
    Error(String),
    Integer(u64),
    Bulk(Vec<u8>),
    Null,
    Array(Vec<Frame>),
}

/// The mathematical value of a [`Frame`].
pub enum SpecFrame {
    Simple(Seq<char>),
    Error(Seq<char>),
    Integer(u64),
    Bulk(Seq<u8>),
    Null,
    Array(Seq<SpecFrame>),
}

/// The value of a frame.
pub open spec fn frame_view(f: Frame) -> SpecFrame
    decreases f,
{
    match f {
        Frame::Simple(s) => SpecFrame::Simple(s@),
        Frame::Error(s) => SpecFrame::Error(s@),
        Frame::Integer(v) => SpecFrame::Integer(v),
        Frame::Bulk(b) => SpecFrame::Bulk(b@),
        Frame::Null => SpecFrame::Null,
        Frame::Array(v) => SpecFrame::Array(
            Seq::new(
                v.len() as nat,
                |i: int|
                    if 0 <= i < v.len() {
                        frame_view(v[i])
                    } else {
                        SpecFrame::Null
                    },
            ),
        ),
    }
}

/// The values of a sequence of frames.
pub open spec fn frames_view(v: Seq<Frame>) -> Seq<SpecFrame> {
    Seq::new(v.len(), |i: int| frame_view(v[i]))
}

impl View for Frame {
    type V = SpecFrame;

    open spec fn view(&self) -> SpecFrame {
        frame_view(*self)
    }
}


/// Errors met while reading a frame.
#[derive(Debug)]
pub enum Error {
    /// Not enough data is available to read a whole frame.
    Incomplete,
    /// The data is not a valid frame.
    Other(String),
}

/// The outcome of reading a value from bytes at a position.
pub enum Decoded<T> {
    /// The value, and the position just after it.
    Done(T, int),
    /// The bytes end before the value does.
    Incomplete,
    /// The bytes do not hold such a value.
    Invalid,
}

/// The position of the first `\r\n` at or after `start`: where the line
/// that starts at `start` ends.
pub open spec fn line_end(s: Seq<u8>, start: int) -> Option<int>
    decreases s.len() - start,
{
    if start < 0 || start + 1 >= s.len() {
        None
    } else if s[start] == 13u8 && s[start + 1] == 10u8 {
        Some(start)
    } else {
        line_end(s, start + 1)
    }
}

/// A decimal number on a line of its own that starts at `start`, read by
/// `atoi`.
pub open spec fn decimal_at(s: Seq<u8>, start: int) -> Decoded<u64> {
    match line_end(s, start) {
        None => Decoded::Incomplete,
        Some(e) => match atoi_u64_spec(s.subrange(start, e)) {
            Some(v) => Decoded::Done(v, e + 2),
            None => Decoded::Invalid,
        },
    }
}

/// Whether a whole frame starts at `pos`, and where it ends. This is the
/// cheap first step: it allocates nothing and decodes no text.
pub open spec fn check_at(s: Seq<u8>, pos: int) -> Decoded<()>
    decreases s.len() - pos, 0int, 0nat,
{
    if pos < 0 || pos >= s.len() {
        Decoded::Incomplete
    } else {
        let b = s[pos];
        let p = pos + 1;
        if b == 43u8 || b == 45u8 {
            // `+` simple string, `-` error: one line.
            match line_end(s, p) {
                Some(e) => Decoded::Done((), e + 2),
                None => Decoded::Incomplete,
            }
        } else if b == 58u8 {
            // `:` integer.
            match decimal_at(s, p) {
                Decoded::Done(_, e) => Decoded::Done((), e),
                Decoded::Incomplete => Decoded::Incomplete,
                Decoded::Invalid => Decoded::Invalid,
            }
        } else if b == 36u8 {
            // `$` bulk string, or `$-1` null.
            if p >= s.len() {
                Decoded::Incomplete
            } else if s[p] == 45u8 {
                if s.len() - p >= 4 {
                    Decoded::Done((), p + 4)
                } else {
                    Decoded::Incomplete
                }
            } else {
                match decimal_at(s, p) {
                    Decoded::Done(n, e) => if s.len() - e >= n + 2 {
                        Decoded::Done((), e + n + 2)
                    } else {
                        Decoded::Incomplete
                    },
                    Decoded::Incomplete => Decoded::Incomplete,
                    Decoded::Invalid => Decoded::Invalid,
                }
            }
        } else if b == 42u8 {
            // `*` array: a count, then that many frames.
            match decimal_at(s, p) {
                Decoded::Done(n, e) => if e <= pos || e > s.len() {
                    Decoded::Invalid
                } else {
                    check_items(s, e, n as nat)
                },
                Decoded::Incomplete => Decoded::Incomplete,
                Decoded::Invalid => Decoded::Invalid,
            }
        } else {
            Decoded::Invalid
        }
    }
}

/// Checks `n` frames one after the other from `pos` on.
pub open spec fn check_items(s: Seq<u8>, pos: int, n: nat) -> Decoded<()>
    decreases s.len() - pos, 1int, n,
{
    if n == 0 {
        Decoded::Done((), pos)
    } else {
        match check_at(s, pos) {
            Decoded::Done(_, e) => if e <= pos || e > s.len() {
                Decoded::Invalid
            } else {
                check_items(s, e, (n - 1) as nat)
            },
            Decoded::Incomplete => Decoded::Incomplete,
            Decoded::Invalid => Decoded::Invalid,
        }
    }
}

/// The frame that starts at `pos`, and where it ends.
pub open spec fn parse_at(s: Seq<u8>, pos: int) -> Decoded<SpecFrame>
    decreases s.len() - pos, 0int, 0nat,
{
    if pos < 0 || pos >= s.len() {
        Decoded::Incomplete
    } else {
        let b = s[pos];
        let p = pos + 1;
        if b == 43u8 || b == 45u8 {
            match line_end(s, p) {
                Some(e) => {
                    let line = s.subrange(p, e);
                    if valid_utf8(line) {
                        let text = decode_utf8(line);
                        Decoded::Done(
                            if b == 43u8 {
                                SpecFrame::Simple(text)
                            } else {
                                SpecFrame::Error(text)
                            },
                            e + 2,
                        )
                    } else {
                        Decoded::Invalid
                    }
                },
                None => Decoded::Incomplete,
            }
        } else if b == 58u8 {
            match decimal_at(s, p) {
                Decoded::Done(v, e) => Decoded::Done(SpecFrame::Integer(v), e),
                Decoded::Incomplete => Decoded::Incomplete,
                Decoded::Invalid => Decoded::Invalid,
            }
        } else if b == 36u8 {
            if p >= s.len() {
                Decoded::Incomplete
            } else if s[p] == 45u8 {
                match line_end(s, p) {
                    Some(e) => if s.subrange(p, e) == seq![45u8, 49u8] {
                        Decoded::Done(SpecFrame::Null, e + 2)
                    } else {
                        Decoded::Invalid
                    },
                    None => Decoded::Incomplete,
                }
            } else {
                match decimal_at(s, p) {
                    Decoded::Done(n, e) => if s.len() - e < n + 2 {
                        Decoded::Incomplete
                    } else {
                        Decoded::Done(SpecFrame::Bulk(s.subrange(e, e + n)), e + n + 2)
                    },
                    Decoded::Incomplete => Decoded::Incomplete,
                    Decoded::Invalid => Decoded::Invalid,
                }
            }
        } else if b == 42u8 {
            match decimal_at(s, p) {
                Decoded::Done(n, e) => if e <= pos || e > s.len() {
                    Decoded::Invalid
                } else {
                    array_of(parse_items(s, e, n as nat))
                },
                Decoded::Incomplete => Decoded::Incomplete,
                Decoded::Invalid => Decoded::Invalid,
            }
        } else {
            Decoded::Invalid
        }
    }
}

/// Parses `n` frames one after the other from `pos` on.
pub open spec fn parse_items(s: Seq<u8>, pos: int, n: nat) -> Decoded<Seq<SpecFrame>>
    decreases s.len() - pos, 1int, n,
{
    if n == 0 {
        Decoded::Done(Seq::empty(), pos)
    } else {
        match parse_at(s, pos) {
            Decoded::Done(f, e) => if e <= pos || e > s.len() {
                Decoded::Invalid
            } else {
                match parse_items(s, e, (n - 1) as nat) {
                    Decoded::Done(rest, end) => Decoded::Done(seq![f] + rest, end),
                    Decoded::Incomplete => Decoded::Incomplete,
                    Decoded::Invalid => Decoded::Invalid,
                }
            },
            Decoded::Incomplete => Decoded::Incomplete,
            Decoded::Invalid => Decoded::Invalid,
        }
    }
}

/// `items` read so far, followed by what is read next.
pub open spec fn prepend_items(items: Seq<SpecFrame>, d: Decoded<Seq<SpecFrame>>) -> Decoded<Seq<SpecFrame>> {
    match d {
        Decoded::Done(rest, end) => Decoded::Done(items + rest, end),
        Decoded::Incomplete => Decoded::Incomplete,
        Decoded::Invalid => Decoded::Invalid,
    }
}

/// An array of the frames read, or the reason none was.
pub open spec fn array_of(d: Decoded<Seq<SpecFrame>>) -> Decoded<SpecFrame> {
    match d {
        Decoded::Done(items, end) => Decoded::Done(SpecFrame::Array(items), end),
        Decoded::Incomplete => Decoded::Incomplete,
        Decoded::Invalid => Decoded::Invalid,
    }
}

/// An error result that matches a spec outcome that is not `Done`.
pub open spec fn error_matches<T, U>(res: Result<U, Error>, d: Decoded<T>) -> bool {
    match d {
        Decoded::Done(..) => false,
        Decoded::Incomplete => res matches Err(Error::Incomplete),
        Decoded::Invalid => res matches Err(Error::Other(_)),
    }
}

/// The error for bytes that do not have the form of a frame.
fn invalid_format() -> (e: Error)
    ensures
        e matches Error::Other(m) && m@ == "protocol error; invalid frame format"@,
{
    Error::Other(to_owned_string("protocol error; invalid frame format"))
}

/// Finds where the line that starts at `start` ends.
fn get_line(src: &[u8], start: usize) -> (res: Result<usize, Error>)
    requires
        start <= src@.len(),
    ensures
        match line_end(src@, start as int) {
            Some(e) => res matches Ok(x) && x == e,
            None => res matches Err(Error::Incomplete),
        },
        res matches Ok(e) ==> start <= e && e + 2 <= src@.len(),
{
    let mut i = start;
    while i < src.len() && src.len() - i > 1
        invariant
            start <= i <= src@.len(),
            line_end(src@, start as int) == line_end(src@, i as int),
        decreases src@.len() - i,
    {
        if src[i] == 13u8 && src[i + 1] == 10u8 {
            return Ok(i);
        }
        i = i + 1;
    }
    Err(Error::Incomplete)
}

/// Reads a decimal number on the line that starts at `start`.
fn get_decimal(src: &[u8], start: usize) -> (res: Result<(u64, usize), Error>)
    requires
        start <= src@.len(),
    ensures
        match decimal_at(src@, start as int) {
            Decoded::Done(v, e) => res matches Ok((x, y)) && x == v && y == e,
            d => error_matches(res, d),
        },
        res matches Ok((_, e)) ==> start + 2 <= e <= src@.len(),
{
    let e = match get_line(src, start) {
        Ok(e) => e,
        Err(err) => return Err(err),
    };
    assert(e + 2 <= src.len());
    let line = slice_subrange(src, start, e);
    match atoi_u64(line) {
        Some(v) => Ok((v, e + 2)),
        None => Err(invalid_format()),
    }
}

impl Frame {
    /// Returns an empty array.
    pub fn array() -> (f: Frame)
        ensures
            f@ == SpecFrame::Array(Seq::empty()),
    {
        let f = Frame::Array(Vec::new());
        proof {
            assert(f@->Array_0 =~= Seq::<SpecFrame>::empty());
        }
        f
    }

    /// Appends a bulk frame to an array frame.
    pub fn push_bulk(&mut self, bytes: Vec<u8>)
        requires
            old(self)@ is Array,
        ensures
            final(self)@ == SpecFrame::Array(old(self)@->Array_0.push(SpecFrame::Bulk(bytes@))),
    {
        let mut taken = Frame::Null;
        std::mem::swap(&mut taken, self);
        let ghost orig = taken;
        match taken {
            Frame::Array(mut vec) => {
                let ghost before = vec@;
                assert(frame_view(orig)->Array_0 =~= frames_view(before));
                let item = Frame::Bulk(bytes);
                assert(item@ == SpecFrame::Bulk(bytes@));
                vec.push(item);
                let f = Frame::Array(vec);
                proof {
                    assert(f@->Array_0 =~= frames_view(before).push(SpecFrame::Bulk(bytes@)));
                }
                *self = f;
            },
            other => {
                *self = other;
            },
        }
    }

    /// Appends an integer frame to an array frame.
    pub fn push_int(&mut self, value: u64)
        requires
            old(self)@ is Array,
        ensures
            final(self)@ == SpecFrame::Array(old(self)@->Array_0.push(SpecFrame::Integer(value))),
    {
        let mut taken = Frame::Null;
        std::mem::swap(&mut taken, self);
        let ghost orig = taken;
        match taken {
            Frame::Array(mut vec) => {
                let ghost before = vec@;
                assert(frame_view(orig)->Array_0 =~= frames_view(before));
                let item = Frame::Integer(value);
                assert(item@ == SpecFrame::Integer(value));
                vec.push(item);
                let f = Frame::Array(vec);
                proof {
                    assert(f@->Array_0 =~= frames_view(before).push(SpecFrame::Integer(value)));
                }
                *self = f;
            },
            other => {
                *self = other;
            },
        }
    }

    /// Checks whether a whole frame starts at `pos` of `src`, and returns
    /// the position just after it.
    pub fn check(src: &[u8], pos: usize) -> (res: Result<usize, Error>)
        requires
            pos <= src@.len(),
        ensures
            match check_at(src@, pos as int) {
                Decoded::Done(_, e) => res matches Ok(x) && x == e,
                d => error_matches(res, d),
            },
            res matches Ok(e) ==> pos < e <= src@.len(),
        decreases src@.len() - pos,
    {
        if pos >= src.len() {
            return Err(Error::Incomplete);
        }
        let b = src[pos];
        let p = pos + 1;
        if b == 43u8 || b == 45u8 {
            let e = get_line(src, p)?;
            Ok(e + 2)
        } else if b == 58u8 {
            let (_, e) = get_decimal(src, p)?;
            Ok(e)
        } else if b == 36u8 {
            if p >= src.len() {
                return Err(Error::Incomplete);
            }
            if src[p] == 45u8 {
                if src.len() - p >= 4 {
                    Ok(p + 4)
                } else {
                    Err(Error::Incomplete)
                }
            } else {
                let (n, e) = get_decimal(src, p)?;
                if (n as u128) + 2 <= ((src.len() - e) as u128) {
                    Ok(e + (n as usize) + 2)
                } else {
                    Err(Error::Incomplete)
                }
            }
        } else if b == 42u8 {
            let (n, e) = get_decimal(src, p)?;
            let mut q = e;
            let mut i: u64 = 0;
            while i < n
                invariant
                    pos < e <= q <= src@.len(),
                    i <= n,
                    check_items(src@, e as int, n as nat) == check_items(src@, q as int, (n - i) as nat),
                    check_at(src@, pos as int) == check_items(src@, e as int, n as nat),
                decreases n - i,
            {
                let q2 = match Frame::check(src, q) {
                    Ok(q2) => q2,
                    Err(err) => {
                        return Err(err);
                    },
                };
                q = q2;
                i = i + 1;
            }
            Ok(q)
        } else {
            Err(Error::Other(to_owned_string("protocol error; invalid frame type byte")))
        }
    }

    /// Parses the frame that starts at `pos` of `src`, and returns it with
    /// the position just after it.
    pub fn parse(src: &[u8], pos: usize) -> (res: Result<(Frame, usize), Error>)
        requires
            pos <= src@.len(),
        ensures
            match parse_at(src@, pos as int) {
                Decoded::Done(f, e) => res matches Ok((fr, x)) && fr@ == f && x == e,
                d => error_matches(res, d),
            },
            res matches Ok((_, e)) ==> pos < e <= src@.len(),
        decreases src@.len() - pos,
    {
        if pos >= src.len() {
            return Err(Error::Incomplete);
        }
        let b = src[pos];
        let p = pos + 1;
        if b == 43u8 || b == 45u8 {
            let e = get_line(src, p)?;
            let line = slice_subrange(src, p, e);
            match utf8_string(line) {
                Some(text) => if b == 43u8 {
                    Ok((Frame::Simple(text), e + 2))
                } else {
                    Ok((Frame::Error(text), e + 2))
                },
                None => Err(Error::Other(to_owned_string("protocol error; invalid string"))),
            }
        } else if b == 58u8 {
            let (v, e) = get_decimal(src, p)?;
            Ok((Frame::Integer(v), e))
        } else if b == 36u8 {
            if p >= src.len() {
                return Err(Error::Incomplete);
            }
            if src[p] == 45u8 {
                let e = get_line(src, p)?;
                if e - p == 2 && src[p + 1] == 49u8 {
                    proof {
                        assert(src@.subrange(p as int, e as int) =~= seq![45u8, 49u8]);
                    }
                    Ok((Frame::Null, e + 2))
                } else {
                    proof {
                        if src@.subrange(p as int, e as int) == seq![45u8, 49u8] {
                            assert(src@.subrange(p as int, e as int)[1] == 49u8);
                        }
                    }
                    Err(invalid_format())
                }
            } else {
                let (n, e) = get_decimal(src, p)?;
                if ((src.len() - e) as u128) < (n as u128) + 2 {
                    Err(Error::Incomplete)
                } else {
                    let len = n as usize;
                    let data = slice_to_vec(slice_subrange(src, e, e + len));
                    Ok((Frame::Bulk(data), e + len + 2))
                }
            }
        } else if b == 42u8 {
            let (n, e) = get_decimal(src, p)?;
            let mut items: Vec<Frame> = Vec::new();
            let mut q = e;
            let mut i: u64 = 0;
            while i < n
                invariant
                    pos < e <= q <= src@.len(),
                    i <= n,
                    parse_items(src@, e as int, n as nat)
                        == prepend_items(frames_view(items@), parse_items(src@, q as int, (n - i) as nat)),
                    parse_at(src@, pos as int) == array_of(parse_items(src@, e as int, n as nat)),
                decreases n - i,
            {
                let ghost old_items = frames_view(items@);
                let (f, q2) = match Frame::parse(src, q) {
                    Ok(r) => r,
                    Err(err) => {
                        return Err(err);
                    },
                };
                proof {
                    let k = (n - i) as nat;
                    let fv = f@;
                    match parse_items(src@, q2 as int, (k - 1) as nat) {
                        Decoded::Done(rest, end) => {
                            assert(old_items + (seq![fv] + rest) =~= old_items.push(fv) + rest);
                        },
                        _ => {},
                    }
                }
                items.push(f);
                proof {
                    assert(frames_view(items@) =~= old_items.push(f@));
                }
                q = q2;
                i = i + 1;
            }
            proof {
                assert(frames_view(items@) + Seq::<SpecFrame>::empty() =~= frames_view(items@));
            }
            let result = Frame::Array(items);
            proof {
                assert(result@->Array_0 =~= frames_view(items@));
            }
            Ok((result, q))
        } else {
            Err(Error::Other(to_owned_string("protocol error; invalid frame type byte")))
        }
    }
}

} // verus!
