//! The byte side of a connection: frames are encoded into a write buffer
//! before they are sent, and read back from a buffer of received bytes.

use vstd::prelude::*;
use vstd::utf8::*;
use crate::decimal::{decimal_digits, is_digit, lemma_atoi_decimal, lemma_decimal_digits, push_decimal};
use crate::frame::{check_at, check_items, decimal_at, frames_view, line_end, parse_at, parse_items, error_matches, Decoded, Error, Frame, SpecFrame};

verus! {

broadcast use vstd::utf8::group_utf8_lib;

/// The two bytes that end a line.
pub open spec fn crlf() -> Seq<u8> {
    seq![13u8, 10u8]
}

/// The bytes of a frame that is not an array.
pub open spec fn value_bytes(f: SpecFrame) -> Seq<u8> {
    match f {
        SpecFrame::Simple(s) => seq![43u8] + encode_utf8(s) + crlf(),
        SpecFrame::Error(s) => seq![45u8] + encode_utf8(s) + crlf(),
        SpecFrame::Integer(v) => seq![58u8] + decimal_digits(v as nat) + crlf(),
        SpecFrame::Null => seq![36u8, 45u8, 49u8, 13u8, 10u8],
        SpecFrame::Bulk(b) => seq![36u8] + decimal_digits(b.len()) + crlf() + b + crlf(),
        SpecFrame::Array(_) => Seq::empty(),
    }
}

/// The bytes of the entries of an array, one after the other.
pub open spec fn items_bytes(items: Seq<SpecFrame>) -> Seq<u8>
    decreases items.len(),
{
    if items.len() == 0 {
        Seq::empty()
    } else {
        value_bytes(items[0]) + items_bytes(items.drop_first())
    }
}

/// The bytes that are sent for a frame.
pub open spec fn frame_bytes(f: SpecFrame) -> Seq<u8> {
    match f {
        SpecFrame::Array(items) => seq![42u8] + decimal_digits(items.len()) + crlf() + items_bytes(
            items,
        ),
        _ => value_bytes(f),
    }
}

/// A frame can be written: an array holds no array (nested arrays are
/// not supported by the writer).
pub open spec fn writable(f: SpecFrame) -> bool {
    match f {
        SpecFrame::Array(items) => forall|i: int| 0 <= i < items.len() ==> !(#[trigger] items[i] is Array),
        _ => true,
    }
}

/// No `\r\n` inside these bytes.
pub open spec fn no_crlf(b: Seq<u8>) -> bool {
    forall|j: int| 0 <= j < b.len() - 1 ==> !(#[trigger] b[j] == 13u8 && b[j + 1] == 10u8)
}

/// A frame that is not an array whose text, if any, holds no `\r\n`.
pub open spec fn line_safe_value(f: SpecFrame) -> bool {
    match f {
        SpecFrame::Simple(s) => no_crlf(encode_utf8(s)),
        SpecFrame::Error(s) => no_crlf(encode_utf8(s)),
        SpecFrame::Array(_) => false,
        _ => true,
    }
}

/// A frame that is not an array whose text, if any, holds no `\r\n`, and
/// whose length fits the `u64` it is written as.
pub open spec fn line_safe_value_sized(f: SpecFrame) -> bool {
    &&& line_safe_value(f)
    &&& (f matches SpecFrame::Bulk(b) ==> b.len() <= u64::MAX)
}

/// A frame that reads back as itself: simple strings and errors hold no
/// `\r\n` (they are terminated by the first one), and arrays hold only such
/// frames.
pub open spec fn round_trips(f: SpecFrame) -> bool {
    match f {
        SpecFrame::Array(items) => items.len() <= u64::MAX && forall|i: int|
            0 <= i < items.len() ==> line_safe_value_sized(#[trigger] items[i]),
        _ => line_safe_value_sized(f),
    }
}

/// The byte buffers of a connection with a peer: the bytes received and
/// not yet read as frames, and the bytes of the frames written and not yet
/// sent. The socket itself is kept by the caller, who hands received bytes
/// in and takes the bytes to send out.
pub struct Connection {
    /// Received bytes not yet read as frames.
    buffer: Vec<u8>,
    /// Encoded frames not yet sent.
    output: Vec<u8>,
}

impl View for Connection {
    type V = Seq<u8>;

    closed spec fn view(&self) -> Seq<u8> {
        self.buffer@
    }
}

/// What reading a frame from the buffered bytes `b` gives: a frame and the
/// number of bytes it takes when a whole valid frame is buffered, nothing
/// when more bytes are needed, an error when the bytes are not a frame.
pub open spec fn frame_read(b: Seq<u8>) -> Decoded<SpecFrame> {
    match check_at(b, 0) {
        Decoded::Done(_, len) => match parse_at(b, 0) {
            Decoded::Done(f, _) => Decoded::Done(f, len),
            Decoded::Incomplete => Decoded::Incomplete,
            Decoded::Invalid => Decoded::Invalid,
        },
        Decoded::Incomplete => Decoded::Incomplete,
        Decoded::Invalid => Decoded::Invalid,
    }
}

impl Connection {
    /// The bytes written and not yet taken to be sent.
    pub closed spec fn output_view(&self) -> Seq<u8> {
        self.output@
    }

    /// A connection with nothing received and nothing to send.
    pub fn new() -> (r: Connection)
        ensures
            r@ == Seq::<u8>::empty(),
            r.output_view() == Seq::<u8>::empty(),
    {
        Connection { buffer: Vec::new(), output: Vec::new() }
    }

    /// Writes a frame: its bytes are added to those to send.
    pub fn write_frame(&mut self, frame: &Frame)
        requires
            writable(frame@),
        ensures
            final(self)@ == old(self)@,
            final(self).output_view() == old(self).output_view() + frame_bytes(frame@),
    {
        write_frame(frame, &mut self.output);
    }

    /// Takes the bytes to send, leaving none.
    pub fn take_output(&mut self) -> (out: Vec<u8>)
        ensures
            out@ == old(self).output_view(),
            final(self)@ == old(self)@,
            final(self).output_view() == Seq::<u8>::empty(),
    {
        let mut out: Vec<u8> = Vec::new();
        std::mem::swap(&mut out, &mut self.output);
        out
    }

    /// Adds received bytes at the end of the buffer.
    pub fn extend(&mut self, bytes: &[u8])
        ensures
            final(self)@ == old(self)@ + bytes@,
            final(self).output_view() == old(self).output_view(),
    {
        push_bytes(&mut self.buffer, bytes);
    }

    /// True when no byte is buffered.
    pub fn is_empty(&self) -> (res: bool)
        ensures
            res == (self@.len() == 0),
    {
        self.buffer.len() == 0
    }

    /// What the end of the stream means once no whole frame is buffered: a
    /// clean close when nothing is buffered, else the peer reset the
    /// connection while sending a frame.
    pub fn end_of_stream(&self) -> (res: Result<(), String>)
        ensures
            res is Ok <==> self@.len() == 0,
            res matches Err(m) ==> m@ == "connection reset by peer"@,
    {
        if self.buffer.len() == 0 {
            Ok(())
        } else {
            Err("connection reset by peer".to_string())
        }
    }

    /// Tries to read a frame from the buffer. When the buffer holds a whole
    /// frame, the frame is returned and its bytes are removed; when it holds
    /// only part of one, `Ok(None)` is returned and the buffer is kept; when
    /// the data is not a valid frame, an error is returned.
    ///
    /// A frame is first checked, which is cheap, and only parsed once it is
    /// known to be whole.
    pub fn parse_frame(&mut self) -> (res: Result<Option<Frame>, Error>)
        ensures
            match check_at(old(self)@, 0) {
                Decoded::Done(_, len) => match parse_at(old(self)@, 0) {
                    Decoded::Done(f, _) => res matches Ok(Some(fr)) && fr@ == f && final(self)@
                        == old(self)@.subrange(len, old(self)@.len() as int),
                    d => error_matches(res, d) && final(self)@ == old(self)@,
                },
                Decoded::Incomplete => res matches Ok(None) && final(self)@ == old(self)@,
                Decoded::Invalid => res matches Err(Error::Other(_)) && final(self)@ == old(self)@,
            },
            final(self).output_view() == old(self).output_view(),
    {
        match Frame::check(self.buffer.as_slice(), 0) {
            Ok(len) => {
                let frame = match Frame::parse(self.buffer.as_slice(), 0) {
                    Ok((frame, _)) => frame,
                    Err(e) => return Err(e),
                };
                let rest = self.buffer.split_off(len);
                self.buffer = rest;
                Ok(Some(frame))
            },
            Err(Error::Incomplete) => Ok(None),
            Err(e) => Err(e),
        }
    }
}

fn push_bytes(out: &mut Vec<u8>, bytes: &[u8])
    ensures
        final(out)@ == old(out)@ + bytes@,
{
    let mut i: usize = 0;
    while i < bytes.len()
        invariant
            0 <= i <= bytes@.len(),
            out@ == old(out)@ + bytes@.subrange(0, i as int),
        decreases bytes@.len() - i,
    {
        out.push(bytes[i]);
        proof {
            assert(bytes@.subrange(0, i + 1) =~= bytes@.subrange(0, i as int).push(bytes@[i as int]));
        }
        i = i + 1;
    }
    proof {
        assert(bytes@.subrange(0, i as int) =~= bytes@);
    }
}

/// Writes a decimal number followed by `\r\n`.
pub fn write_decimal(val: u64, out: &mut Vec<u8>)
    ensures
        final(out)@ == old(out)@ + decimal_digits(val as nat) + crlf(),
{
    push_decimal(val as u128, out);
    out.push(13u8);
    out.push(10u8);
    proof {
        assert(final(out)@ =~= old(out)@ + decimal_digits(val as nat) + crlf());
    }
}

/// Writes a frame that is not an array.
pub fn write_value(frame: &Frame, out: &mut Vec<u8>)
    requires
        !(frame@ is Array),
    ensures
        final(out)@ == old(out)@ + value_bytes(frame@),
{
    match frame {
        Frame::Simple(val) => {
            out.push(43u8);
            push_bytes(out, val.as_str().as_bytes());
            out.push(13u8);
            out.push(10u8);
        },
        Frame::Error(val) => {
            out.push(45u8);
            push_bytes(out, val.as_str().as_bytes());
            out.push(13u8);
            out.push(10u8);
        },
        Frame::Integer(val) => {
            out.push(58u8);
            write_decimal(*val, out);
        },
        Frame::Null => {
            out.push(36u8);
            out.push(45u8);
            out.push(49u8);
            out.push(13u8);
            out.push(10u8);
        },
        Frame::Bulk(val) => {
            out.push(36u8);
            write_decimal(val.len() as u64, out);
            push_bytes(out, val.as_slice());
            out.push(13u8);
            out.push(10u8);
        },
        Frame::Array(_) => {},
    }
    proof {
        assert(final(out)@ =~= old(out)@ + value_bytes(frame@));
    }
}

proof fn lemma_items_bytes_push(items: Seq<SpecFrame>, f: SpecFrame)
    ensures
        items_bytes(items.push(f)) == items_bytes(items) + value_bytes(f),
    decreases items.len(),
{
    if items.len() == 0 {
        assert(items.push(f).drop_first() =~= Seq::<SpecFrame>::empty());
        assert(items_bytes(items.push(f).drop_first()) =~= Seq::<u8>::empty());
        assert(items_bytes(items) =~= Seq::<u8>::empty());
        assert(items_bytes(items.push(f)) =~= items_bytes(items) + value_bytes(f));
    } else {
        lemma_items_bytes_push(items.drop_first(), f);
        assert(items.push(f).drop_first() =~= items.drop_first().push(f));
        assert(items_bytes(items.push(f)) =~= items_bytes(items) + value_bytes(f));
    }
}

/// Writes a frame: an array is written as its length followed by each
/// entry.
pub fn write_frame(frame: &Frame, out: &mut Vec<u8>)
    requires
        writable(frame@),
    ensures
        final(out)@ == old(out)@ + frame_bytes(frame@),
{
    match frame {
        Frame::Array(val) => {
            let ghost items = frame@->Array_0;
            assert(items =~= frames_view(val@));
            out.push(42u8);
            write_decimal(val.len() as u64, out);
            let ghost start = out@;
            let mut i: usize = 0;
            while i < val.len()
                invariant
                    0 <= i <= val@.len(),
                    items == frames_view(val@),
                    writable(SpecFrame::Array(items)),
                    out@ == start + items_bytes(items.subrange(0, i as int)),
                decreases val@.len() - i,
            {
                assert(!(items[i as int] is Array));
                write_value(&val[i], out);
                proof {
                    lemma_items_bytes_push(items.subrange(0, i as int), items[i as int]);
                    assert(items.subrange(0, i + 1) =~= items.subrange(0, i as int).push(items[i as int]));
                }
                i = i + 1;
            }
            proof {
                assert(items.subrange(0, i as int) =~= items);
                assert(final(out)@ =~= old(out)@ + frame_bytes(frame@));
            }
        },
        _ => {
            write_value(frame, out);
        },
    }
}

/// Bytes at `pos` of `s` are `t`: each byte, and each piece.
proof fn lemma_bytes_at(s: Seq<u8>, pos: int, t: Seq<u8>)
    requires
        0 <= pos,
        pos + t.len() <= s.len(),
        s.subrange(pos, pos + t.len()) == t,
    ensures
        forall|j: int| 0 <= j < t.len() ==> s[pos + j] == #[trigger] t[j],
        forall|a: int, b: int|
            0 <= a <= b <= t.len() ==> #[trigger] s.subrange(pos + a, pos + b) == t.subrange(a, b),
{
    assert forall|j: int| 0 <= j < t.len() implies s[pos + j] == #[trigger] t[j] by {
        assert(s.subrange(pos, pos + t.len())[j] == s[pos + j]);
    }
    assert forall|a: int, b: int| 0 <= a <= b <= t.len() implies #[trigger] s.subrange(
        pos + a,
        pos + b,
    ) == t.subrange(a, b) by {
        assert(s.subrange(pos + a, pos + b) =~= t.subrange(a, b));
    }
}

/// The first `\r\n` at or after `start` is the one at `k`.
proof fn lemma_line_end_at(s: Seq<u8>, start: int, k: int)
    requires
        0 <= start <= k,
        k + 1 < s.len(),
        s[k] == 13u8,
        s[k + 1] == 10u8,
        forall|j: int| start <= j < k ==> !(#[trigger] s[j] == 13u8 && s[j + 1] == 10u8),
    ensures
        line_end(s, start) == Some(k),
    decreases k - start,
{
    if start < k {
        lemma_line_end_at(s, start + 1, k);
    }
}

/// A written decimal line reads back as its number.
proof fn lemma_decimal_at(s: Seq<u8>, start: int, v: u64)
    requires
        0 <= start,
        start + decimal_digits(v as nat).len() + 2 <= s.len(),
        s.subrange(start, start + decimal_digits(v as nat).len() + 2) == decimal_digits(v as nat) + crlf(),
    ensures
        decimal_at(s, start) == Decoded::Done(v, start + decimal_digits(v as nat).len() + 2),
{
    let d = decimal_digits(v as nat);
    let t = d + crlf();
    lemma_decimal_digits(v as nat);
    lemma_bytes_at(s, start, t);
    let k = start + d.len();
    assert(s[k] == t[d.len() as int]);
    assert(s[k + 1] == t[d.len() as int + 1]);
    assert forall|j: int| start <= j < k implies !(#[trigger] s[j] == 13u8 && s[j + 1] == 10u8) by {
        assert(s[j] == t[j - start]);
        assert(is_digit(d[j - start]));
    }
    lemma_line_end_at(s, start, k);
    assert(s.subrange(start, k) == t.subrange(0, d.len() as int));
    assert(t.subrange(0, d.len() as int) =~= d);
    lemma_atoi_decimal(v);
}

/// A frame that is not an array is read back from its bytes.
proof fn lemma_value_at(s: Seq<u8>, pos: int, f: SpecFrame)
    requires
        line_safe_value_sized(f),
        0 <= pos,
        pos + value_bytes(f).len() <= s.len(),
        s.subrange(pos, pos + value_bytes(f).len()) == value_bytes(f),
    ensures
        value_bytes(f).len() > 0,
        parse_at(s, pos) == Decoded::Done(f, pos + value_bytes(f).len()),
        check_at(s, pos) == Decoded::Done((), pos + value_bytes(f).len()),
{
    let vb = value_bytes(f);
    lemma_bytes_at(s, pos, vb);
    let p = pos + 1;
    assert(s[pos] == vb[0]);
    match f {
        SpecFrame::Simple(text) => {
            simple_line(s, pos, text, 43u8);
        },
        SpecFrame::Error(text) => {
            simple_line(s, pos, text, 45u8);
        },
        SpecFrame::Integer(v) => {
            let t = decimal_digits(v as nat) + crlf();
            assert(vb =~= seq![58u8] + t);
            assert(s.subrange(p, p + t.len()) == vb.subrange(1, 1 + t.len() as int));
            assert(vb.subrange(1, 1 + t.len() as int) =~= t);
            lemma_decimal_at(s, p, v);
        },
        SpecFrame::Null => {
            assert(s[p] == 45u8);
            assert(s[p + 1] == 49u8);
            assert(s[p + 2] == 13u8);
            assert(s[p + 3] == 10u8);
            lemma_line_end_at(s, p, p + 2);
            assert(s.subrange(p, p + 2) =~= seq![45u8, 49u8]);
        },
        SpecFrame::Bulk(b) => {
            let n = b.len() as u64;
            let d = decimal_digits(n as nat);
            let t = d + crlf();
            lemma_decimal_digits(n as nat);
            assert(vb =~= seq![36u8] + t + b + crlf());
            assert(s.subrange(p, p + t.len()) == vb.subrange(1, 1 + t.len() as int));
            assert(vb.subrange(1, 1 + t.len() as int) =~= t);
            lemma_decimal_at(s, p, n);
            assert(s[p] == vb[1]);
            assert(vb[1] == d[0]);
            let e = p + t.len();
            assert(s.subrange(e, e + b.len()) == vb.subrange(1 + t.len() as int, 1 + t.len() as int as int + b.len() as int));
            assert(vb.subrange(1 + t.len() as int, 1 + t.len() as int as int + b.len() as int) =~= b);
        },
        SpecFrame::Array(_) => {},
    }
}

/// A simple string or error line (type byte `tag`) is read back.
proof fn simple_line(s: Seq<u8>, pos: int, text: Seq<char>, tag: u8)
    requires
        tag == 43u8 || tag == 45u8,
        no_crlf(encode_utf8(text)),
        0 <= pos,
        pos + encode_utf8(text).len() + 3 <= s.len(),
        s.subrange(pos, pos + encode_utf8(text).len() + 3) == seq![tag] + encode_utf8(text) + crlf(),
    ensures
        parse_at(s, pos) == Decoded::Done(
            if tag == 43u8 {
                SpecFrame::Simple(text)
            } else {
                SpecFrame::Error(text)
            },
            pos + encode_utf8(text).len() + 3,
        ),
        check_at(s, pos) == Decoded::Done((), pos + encode_utf8(text).len() + 3),
{
    let enc = encode_utf8(text);
    let vb = seq![tag] + enc + crlf();
    lemma_bytes_at(s, pos, vb);
    let p = pos + 1;
    let k = p + enc.len();
    assert(s[pos] == vb[0]);
    assert(s[k] == vb[1 + enc.len() as int]);
    assert(s[k + 1] == vb[2 + enc.len() as int]);
    assert forall|j: int| p <= j < k implies !(#[trigger] s[j] == 13u8 && s[j + 1] == 10u8) by {
        assert(s[j] == vb[j - pos]);
        assert(vb[j - pos] == enc[j - p]);
        if j + 1 < k {
            assert(s[j + 1] == vb[j + 1 - pos]);
            assert(vb[j + 1 - pos] == enc[j + 1 - p]);
        } else {
            assert(s[j + 1] == vb[j + 1 - pos]);
            assert(vb[j + 1 - pos] == 13u8);
        }
    }
    lemma_line_end_at(s, p, k);
    assert(s.subrange(p, k) == vb.subrange(1, 1 + enc.len() as int));
    assert(vb.subrange(1, 1 + enc.len() as int) =~= enc);
}

/// The entries of an array are read back from their bytes.
proof fn lemma_items_at(s: Seq<u8>, pos: int, items: Seq<SpecFrame>)
    requires
        forall|i: int| 0 <= i < items.len() ==> line_safe_value_sized(#[trigger] items[i]),
        0 <= pos,
        pos + items_bytes(items).len() <= s.len(),
        s.subrange(pos, pos + items_bytes(items).len()) == items_bytes(items),
    ensures
        parse_items(s, pos, items.len()) == Decoded::Done(items, pos + items_bytes(items).len()),
        check_items(s, pos, items.len()) == Decoded::Done((), pos + items_bytes(items).len()),
    decreases items.len(),
{
    if items.len() == 0 {
        assert(items =~= Seq::<SpecFrame>::empty());
    } else {
        let ib = items_bytes(items);
        let vb = value_bytes(items[0]);
        let rest = items.drop_first();
        let rb = items_bytes(rest);
        assert(ib == vb + rb);
        lemma_bytes_at(s, pos, ib);
        assert(s.subrange(pos, pos + vb.len()) == ib.subrange(0, vb.len() as int));
        assert(ib.subrange(0, vb.len() as int) =~= vb);
        lemma_value_at(s, pos, items[0]);
        let e = pos + vb.len();
        assert(s.subrange(e, e + rb.len()) == ib.subrange(vb.len() as int, ib.len() as int));
        assert(ib.subrange(vb.len() as int, ib.len() as int) =~= rb);
        assert forall|i: int| 0 <= i < rest.len() implies line_safe_value_sized(#[trigger] rest[i]) by {
            assert(rest[i] == items[i + 1]);
        }
        lemma_items_at(s, e, rest);
        assert(seq![items[0]] + rest =~= items);
    }
}

/// A frame that is written reads back as the same frame, whatever bytes
/// follow it: the check finds exactly its bytes, and the parse rebuilds it.
pub proof fn law_frame_round_trip(f: SpecFrame, rest: Seq<u8>)
    requires
        writable(f),
        round_trips(f),
    ensures
        frame_read(frame_bytes(f) + rest) == Decoded::Done(f, frame_bytes(f).len() as int),
        check_at(frame_bytes(f) + rest, 0) == Decoded::Done((), frame_bytes(f).len() as int),
        parse_at(frame_bytes(f) + rest, 0) == Decoded::Done(f, frame_bytes(f).len() as int),
{
    let fb = frame_bytes(f);
    let s = fb + rest;
    assert(s.subrange(0, fb.len() as int) =~= fb);
    match f {
        SpecFrame::Array(items) => {
            let n = items.len() as u64;
            let d = decimal_digits(n as nat);
            let t = d + crlf();
            let ib = items_bytes(items);
            assert(fb =~= seq![42u8] + t + ib);
            lemma_bytes_at(s, 0, fb);
            assert(s[0] == fb[0]);
            assert(s.subrange(1, 1 + t.len() as int) == fb.subrange(1, 1 + t.len() as int));
            assert(fb.subrange(1, 1 + t.len() as int) =~= t);
            lemma_decimal_at(s, 1, n);
            let e = 1 + t.len() as int;
            assert(s.subrange(e, e + ib.len()) == fb.subrange(e, fb.len() as int));
            assert(fb.subrange(e, fb.len() as int) =~= ib);
            lemma_items_at(s, e, items);
        },
        _ => {
            lemma_value_at(s, 0, f);
        },
    }
}

/// No line ends in `s` from `start` on: `line_end` finds none.
proof fn lemma_no_line_end(s: Seq<u8>, start: int)
    requires
        0 <= start,
        forall|j: int| start <= j && j + 1 < s.len() ==> !(#[trigger] s[j] == 13u8 && s[j + 1] == 10u8),
    ensures
        line_end(s, start) is None,
    decreases s.len() - start,
{
    if start + 1 < s.len() {
        lemma_no_line_end(s, start + 1);
    }
}

/// The bytes of `s` from `pos` on are the first `k` bytes of `t`, and `s`
/// ends there.
pub open spec fn cut_at(s: Seq<u8>, pos: int, t: Seq<u8>, k: int) -> bool {
    &&& 0 <= pos
    &&& 0 <= k <= t.len()
    &&& s.len() == pos + k
    &&& forall|j: int| 0 <= j < k ==> s[pos + j] == #[trigger] t[j]
}

/// A decimal line cut before its end reads as incomplete.
proof fn lemma_decimal_cut(s: Seq<u8>, start: int, v: u64, k: int)
    requires
        cut_at(s, start, decimal_digits(v as nat) + crlf(), k),
        k < decimal_digits(v as nat).len() + 2,
    ensures
        decimal_at(s, start) == Decoded::<u64>::Incomplete,
{
    let d = decimal_digits(v as nat);
    let t = d + crlf();
    lemma_decimal_digits(v as nat);
    assert forall|j: int| start <= j && j + 1 < s.len() implies !(#[trigger] s[j] == 13u8 && s[j + 1] == 10u8) by {
        assert(s[j] == t[j - start]);
        assert(j - start < d.len());
        assert(is_digit(d[j - start]));
    }
    lemma_no_line_end(s, start);
}

/// A decimal line that is whole in a cut reads back as its number.
proof fn lemma_decimal_whole(s: Seq<u8>, start: int, t: Seq<u8>, k: int, at: int, v: u64)
    requires
        cut_at(s, start, t, k),
        0 <= at,
        at + decimal_digits(v as nat).len() + 2 <= k,
        t.subrange(at, at + decimal_digits(v as nat).len() + 2) == decimal_digits(v as nat) + crlf(),
    ensures
        decimal_at(s, start + at) == Decoded::Done(v, start + at + decimal_digits(v as nat).len() + 2),
{
    let len = decimal_digits(v as nat).len() + 2;
    assert(s.subrange(start + at, start + at + len) =~= t.subrange(at, at + len)) by {
        assert forall|j: int| 0 <= j < len implies #[trigger] s.subrange(start + at, start + at + len)[j] == t.subrange(at, at + len)[j] by {
            assert(s[start + at + j] == t[at + j]);
        }
    }
    lemma_decimal_at(s, start + at, v);
}

/// A frame that is not an array, cut before its last byte, checks as
/// incomplete.
proof fn lemma_value_cut(s: Seq<u8>, pos: int, f: SpecFrame, k: int)
    requires
        line_safe_value_sized(f),
        cut_at(s, pos, value_bytes(f), k),
        k < value_bytes(f).len(),
    ensures
        check_at(s, pos) == Decoded::<()>::Incomplete,
{
    let vb = value_bytes(f);
    let p = pos + 1;
    if k == 0 {
        return;
    }
    assert(s[pos] == vb[0]);
    match f {
        SpecFrame::Simple(text) => {
            simple_cut(s, pos, text, 43u8, k);
        },
        SpecFrame::Error(text) => {
            simple_cut(s, pos, text, 45u8, k);
        },
        SpecFrame::Integer(v) => {
            let t = decimal_digits(v as nat) + crlf();
            assert(vb =~= seq![58u8] + t);
            assert forall|j: int| 0 <= j < k - 1 implies #[trigger] s[p + j] == t[j] by {
                assert(s[pos + (j + 1)] == vb[j + 1]);
            }
            lemma_decimal_cut(s, p, v, k - 1);
        },
        SpecFrame::Null => {
            if k > 1 {
                assert(s[pos + 1] == vb[1]);
            }
        },
        SpecFrame::Bulk(b) => {
            let n = b.len() as u64;
            let d = decimal_digits(n as nat);
            let t = d + crlf();
            lemma_decimal_digits(n as nat);
            assert(vb =~= seq![36u8] + t + b + crlf());
            if k > 1 {
                assert(s[pos + 1] == vb[1]);
                assert(vb[1] == d[0]);
                if k - 1 < t.len() {
                    assert forall|j: int| 0 <= j < k - 1 implies #[trigger] s[p + j] == t[j] by {
                        assert(s[pos + (j + 1)] == vb[j + 1]);
                    }
                    lemma_decimal_cut(s, p, n, k - 1);
                } else {
                    assert(vb.subrange(1, 1 + t.len() as int) =~= t);
                    lemma_decimal_whole(s, pos, vb, k, 1, n);
                }
            }
        },
        SpecFrame::Array(_) => {},
    }
}

/// A simple string or error line (type byte `tag`), cut before its end,
/// checks as incomplete.
proof fn simple_cut(s: Seq<u8>, pos: int, text: Seq<char>, tag: u8, k: int)
    requires
        tag == 43u8 || tag == 45u8,
        no_crlf(encode_utf8(text)),
        1 <= k,
        cut_at(s, pos, seq![tag] + encode_utf8(text) + crlf(), k),
        k < encode_utf8(text).len() + 3,
    ensures
        check_at(s, pos) == Decoded::<()>::Incomplete,
{
    let enc = encode_utf8(text);
    let vb = seq![tag] + enc + crlf();
    let p = pos + 1;
    assert(s[pos] == vb[0]);
    assert forall|j: int| p <= j && j + 1 < s.len() implies !(#[trigger] s[j] == 13u8 && s[j + 1] == 10u8) by {
        assert(s[j] == vb[j - pos]);
        assert(s[j + 1] == vb[j + 1 - pos]);
        if j + 1 - pos <= enc.len() {
            assert(vb[j - pos] == enc[j - p]);
            assert(vb[j + 1 - pos] == enc[j + 1 - p]);
        } else {
            assert(j + 1 - pos == enc.len() + 1);
            assert(vb[j + 1 - pos] == 13u8);
        }
    }
    lemma_no_line_end(s, p);
}

/// The entries of an array, cut before their last byte, check as
/// incomplete.
proof fn lemma_items_cut(s: Seq<u8>, pos: int, items: Seq<SpecFrame>, k: int)
    requires
        forall|i: int| 0 <= i < items.len() ==> line_safe_value_sized(#[trigger] items[i]),
        cut_at(s, pos, items_bytes(items), k),
        k < items_bytes(items).len(),
    ensures
        check_items(s, pos, items.len()) == Decoded::<()>::Incomplete,
    decreases items.len(),
{
    let ib = items_bytes(items);
    let vb = value_bytes(items[0]);
    let rest = items.drop_first();
    let rb = items_bytes(rest);
    assert(ib == vb + rb);
    if k < vb.len() {
        assert forall|j: int| 0 <= j < k implies #[trigger] s[pos + j] == vb[j] by {
            assert(s[pos + j] == ib[j]);
        }
        lemma_value_cut(s, pos, items[0], k);
    } else {
        assert(s.subrange(pos, pos + vb.len()) =~= vb) by {
            assert forall|j: int| 0 <= j < vb.len() implies #[trigger] s.subrange(pos, pos + vb.len())[j] == vb[j] by {
                assert(s[pos + j] == ib[j]);
            }
        }
        lemma_value_at(s, pos, items[0]);
        let e = pos + vb.len();
        assert forall|j: int| 0 <= j < k - vb.len() implies #[trigger] s[e + j] == rb[j] by {
            assert(s[pos + (vb.len() + j)] == ib[vb.len() + j]);
        }
        assert forall|i: int| 0 <= i < rest.len() implies line_safe_value_sized(#[trigger] rest[i]) by {
            assert(rest[i] == items[i + 1]);
        }
        lemma_items_cut(s, e, rest, k - vb.len());
    }
}

/// A frame that is written but not yet received in full reads as
/// incomplete: every proper prefix of its bytes checks as `Incomplete`, so
/// a frame split over several reads is waited for, and not refused or
/// read short.
pub proof fn law_frame_prefix_incomplete(f: SpecFrame, k: int)
    requires
        writable(f),
        round_trips(f),
        0 <= k < frame_bytes(f).len(),
    ensures
        check_at(frame_bytes(f).take(k), 0) == Decoded::<()>::Incomplete,
        frame_read(frame_bytes(f).take(k)) == Decoded::<SpecFrame>::Incomplete,
{
    let fb = frame_bytes(f);
    let s = fb.take(k);
    assert(cut_at(s, 0, fb, k));
    match f {
        SpecFrame::Array(items) => {
            if k > 0 {
                let n = items.len() as u64;
                let d = decimal_digits(n as nat);
                let t = d + crlf();
                let ib = items_bytes(items);
                lemma_decimal_digits(n as nat);
                assert(fb =~= seq![42u8] + t + ib);
                assert(s[0] == fb[0]);
                if k - 1 < t.len() {
                    assert forall|j: int| 0 <= j < k - 1 implies #[trigger] s[1 + j] == t[j] by {
                        assert(s[0 + (j + 1)] == fb[j + 1]);
                    }
                    lemma_decimal_cut(s, 1, n, k - 1);
                } else {
                    assert(fb.subrange(1, 1 + t.len() as int) =~= t);
                    lemma_decimal_whole(s, 0, fb, k, 1, n);
                    let e: int = 1 + t.len() as int;
                    assert forall|j: int| 0 <= j < k - e implies #[trigger] s[e + j] == ib[j] by {
                        assert(s[0 + (e + j)] == fb[e + j]);
                    }
                    lemma_items_cut(s, e, items, k - e);
                }
            }
        },
        _ => {
            lemma_value_cut(s, 0, f, k);
        },
    }
}

} // verus!
