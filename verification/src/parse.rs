//! A cursor over the entries of an array frame, used to read commands.

use vstd::prelude::*;
use vstd::utf8::*;
use crate::decimal::{atoi_u64, atoi_u64_spec};
use crate::frame::{frame_view, frames_view, Frame, SpecFrame};
use crate::text::{to_owned_string, utf8_string};

verus! {

broadcast use vstd::utf8::group_utf8_lib;

/// Utility for parsing a command.
///
/// Commands are represented as array frames. Each entry in the frame is a
/// "token". A `Parse` is initialized with the array frame and provides a
/// cursor-like API. Each command struct includes a `parse_frames` method
/// that uses a `Parse` to extract its fields.
#[derive(Debug)]
pub struct Parse {
    /// The entries not read yet, the next one last.
    rest: Vec<Frame>,
}

/// Error encountered while parsing a frame.
///
/// Only `EndOfStream` errors are handled at runtime. All other errors
/// result in the connection being terminated.
#[derive(Debug)]
pub enum ParseError {
    /// Attempting to extract a value failed due to the frame being fully
    /// consumed.
    EndOfStream,
    /// All other errors.
    Other(String),
}

/// The entries not read yet, in order, for the stack `rest` whose top is
/// the next entry.
pub open spec fn remaining_of(rest: Seq<Frame>) -> Seq<SpecFrame> {
    Seq::new(rest.len(), |i: int| frame_view(rest[rest.len() - 1 - i]))
}

impl View for Parse {
    type V = Seq<SpecFrame>;

    closed spec fn view(&self) -> Seq<SpecFrame> {
        remaining_of(self.rest@)
    }
}

/// The text an entry stands for: a simple string, or a bulk string that is
/// valid UTF-8.
pub open spec fn string_value(f: SpecFrame) -> Option<Seq<char>> {
    match f {
        SpecFrame::Simple(s) => Some(s),
        SpecFrame::Bulk(b) => if valid_utf8(b) {
            Some(decode_utf8(b))
        } else {
            None
        },
        _ => None,
    }
}

/// The raw bytes an entry stands for: a simple string (as UTF-8) or a bulk
/// string.
pub open spec fn bytes_value(f: SpecFrame) -> Option<Seq<u8>> {
    match f {
        SpecFrame::Simple(s) => Some(encode_utf8(s)),
        SpecFrame::Bulk(b) => Some(b),
        _ => None,
    }
}

/// The number an entry stands for: an integer frame, or a simple or bulk
/// string read by `atoi`.
pub open spec fn int_value(f: SpecFrame) -> Option<u64> {
    match f {
        SpecFrame::Integer(v) => Some(v),
        SpecFrame::Simple(s) => atoi_u64_spec(encode_utf8(s)),
        SpecFrame::Bulk(b) => atoi_u64_spec(b),
        _ => None,
    }
}

/// The text that `{:?}` writes for a frame (its derived `Debug`).
pub uninterp spec fn frame_debug(f: SpecFrame) -> Seq<char>;

/// `format!("{:?}", frame)`, which only depends on the frame's value.
#[verifier::external_body]
fn debug_text(frame: &Frame) -> (s: String)
    ensures
        s@ == frame_debug(frame@),
{
    format!("{frame:?}")
}

/// `prefix` followed by the debug text of `frame`.
fn message_with_frame(prefix: &str, frame: &Frame) -> (m: String)
    ensures
        m@ == prefix@ + frame_debug(frame@),
{
    let mut m = to_owned_string(prefix);
    let d = debug_text(frame);
    m.append(d.as_str());
    m
}

/// The error when an entry read as a string is neither a simple string nor
/// valid UTF-8 in a bulk string.
pub open spec fn string_error(f: SpecFrame) -> Seq<char> {
    match f {
        SpecFrame::Bulk(_) => "protocol error; invalid string"@,
        _ => "protocol error; expected simple frame or bulk frame, got "@ + frame_debug(f),
    }
}

/// The error when an entry read as bytes is neither a simple nor a bulk
/// string.
pub open spec fn bytes_error(f: SpecFrame) -> Seq<char> {
    "protocol error; expected simple frame or bulk frame, got "@ + frame_debug(f)
}

/// The error when an entry read as an integer is not one.
pub open spec fn int_error(f: SpecFrame) -> Seq<char> {
    match f {
        SpecFrame::Simple(_) | SpecFrame::Bulk(_) => "protocol error; invalid number"@,
        _ => "protocol error; expected int frame but got "@ + frame_debug(f),
    }
}

impl ParseError {
    /// The error message.
    pub fn to_string(&self) -> (s: String)
        ensures
            match self {
                ParseError::EndOfStream => s@ == "protocol error; unexpected end of stream"@,
                ParseError::Other(m) => s@ == m@,
            },
    {
        match self {
            ParseError::EndOfStream => to_owned_string("protocol error; unexpected end of stream"),
            ParseError::Other(m) => m.clone(),
        }
    }
}

impl Parse {
    /// Create a new `Parse` to parse the contents of `frame`.
    ///
    /// Returns `Err` if `frame` is not an array frame.
    pub fn new(frame: Frame) -> (res: Result<Parse, ParseError>)
        ensures
            match frame@ {
                SpecFrame::Array(items) => res matches Ok(p) && p@ == items,
                _ => res matches Err(ParseError::Other(m)) && m@ == "protocol error; expected array, got "@
                    + frame_debug(frame@),
            },
    {
        let ghost fv = frame@;
        match frame {
            Frame::Array(mut array) => {
                let ghost items = frames_view(array@);
                proof {
                    assert(fv->Array_0 =~= items);
                }
                let mut rest: Vec<Frame> = Vec::new();
                while array.len() > 0
                    invariant
                        items == frames_view(array@) + remaining_of(rest@),
                    decreases array@.len(),
                {
                    let ghost before = array@;
                    let f = array.pop().unwrap();
                    let ghost rest_before = rest@;
                    rest.push(f);
                    proof {
                        assert(before =~= array@.push(f));
                        assert(remaining_of(rest@) =~= seq![frame_view(f)] + remaining_of(rest_before));
                        assert(frames_view(before) =~= frames_view(array@).push(frame_view(f)));
                        assert(frames_view(before) + remaining_of(rest_before) =~= frames_view(array@)
                            + remaining_of(rest@));
                    }
                }
                proof {
                    assert(frames_view(array@) + remaining_of(rest@) =~= remaining_of(rest@));
                }
                Ok(Parse { rest })
            },
            other => Err(ParseError::Other(message_with_frame("protocol error; expected array, got ", &other))),
        }
    }

    /// Return the next entry. Array frames are arrays of frames, so the next
    /// entry is a frame.
    pub fn next(&mut self) -> (res: Result<Frame, ParseError>)
        ensures
            old(self)@.len() == 0 ==> (res matches Err(ParseError::EndOfStream) && final(self)@
                == old(self)@),
            old(self)@.len() > 0 ==> (res matches Ok(f) && f@ == old(self)@[0] && final(self)@
                == old(self)@.drop_first()),
    {
        let ghost before = self.rest@;
        match self.rest.pop() {
            Some(f) => {
                proof {
                    assert(before =~= self.rest@.push(f));
                    assert(remaining_of(self.rest@) =~= remaining_of(before).drop_first());
                }
                Ok(f)
            },
            None => Err(ParseError::EndOfStream),
        }
    }

    /// Return the next entry as a string.
    ///
    /// If the next entry cannot be represented as a String, then an error is
    /// returned.
    pub fn next_string(&mut self) -> (res: Result<String, ParseError>)
        ensures
            old(self)@.len() == 0 ==> (res matches Err(ParseError::EndOfStream) && final(self)@
                == old(self)@),
            old(self)@.len() > 0 ==> final(self)@ == old(self)@.drop_first() && match string_value(
                old(self)@[0],
            ) {
                Some(s) => res matches Ok(r) && r@ == s,
                None => res matches Err(ParseError::Other(m)) && m@ == string_error(old(self)@[0]),
            },
    {
        match self.next() {
            Ok(Frame::Simple(s)) => Ok(s),
            Ok(Frame::Bulk(data)) => match utf8_string(data.as_slice()) {
                Some(s) => Ok(s),
                None => Err(ParseError::Other(to_owned_string("protocol error; invalid string"))),
            },
            Ok(other) => Err(
                ParseError::Other(
                    message_with_frame("protocol error; expected simple frame or bulk frame, got ", &other),
                ),
            ),
            Err(e) => Err(e),
        }
    }

    /// Return the next entry as raw bytes.
    ///
    /// If the next entry cannot be represented as raw bytes, an error is
    /// returned.
    pub fn next_bytes(&mut self) -> (res: Result<Vec<u8>, ParseError>)
        ensures
            old(self)@.len() == 0 ==> (res matches Err(ParseError::EndOfStream) && final(self)@
                == old(self)@),
            old(self)@.len() > 0 ==> final(self)@ == old(self)@.drop_first() && match bytes_value(
                old(self)@[0],
            ) {
                Some(b) => res matches Ok(r) && r@ == b,
                None => res matches Err(ParseError::Other(m)) && m@ == bytes_error(old(self)@[0]),
            },
    {
        match self.next() {
            Ok(Frame::Simple(s)) => Ok(slice_to_vec_bytes(s.as_str().as_bytes())),
            Ok(Frame::Bulk(data)) => Ok(data),
            Ok(other) => Err(
                ParseError::Other(
                    message_with_frame("protocol error; expected simple frame or bulk frame, got ", &other),
                ),
            ),
            Err(e) => Err(e),
        }
    }

    /// Return the next entry as an integer.
    ///
    /// This includes `Simple`, `Bulk`, and `Integer` frame types. `Simple`
    /// and `Bulk` frame types are parsed.
    ///
    /// If the next entry cannot be represented as an integer, then an error
    /// is returned.
    pub fn next_int(&mut self) -> (res: Result<u64, ParseError>)
        ensures
            old(self)@.len() == 0 ==> (res matches Err(ParseError::EndOfStream) && final(self)@
                == old(self)@),
            old(self)@.len() > 0 ==> final(self)@ == old(self)@.drop_first() && match int_value(
                old(self)@[0],
            ) {
                Some(v) => res matches Ok(r) && r == v,
                None => res matches Err(ParseError::Other(m)) && m@ == int_error(old(self)@[0]),
            },
    {
        match self.next() {
            Ok(Frame::Integer(v)) => Ok(v),
            Ok(Frame::Simple(data)) => match atoi_u64(data.as_str().as_bytes()) {
                Some(v) => Ok(v),
                None => Err(ParseError::Other(to_owned_string("protocol error; invalid number"))),
            },
            Ok(Frame::Bulk(data)) => match atoi_u64(data.as_slice()) {
                Some(v) => Ok(v),
                None => Err(ParseError::Other(to_owned_string("protocol error; invalid number"))),
            },
            Ok(other) => Err(
                ParseError::Other(message_with_frame("protocol error; expected int frame but got ", &other)),
            ),
            Err(e) => Err(e),
        }
    }

    /// Ensure there are no more entries in the array.
    pub fn finish(&mut self) -> (res: Result<(), ParseError>)
        ensures
            old(self)@.len() == 0 ==> res is Ok && final(self)@ == old(self)@,
            old(self)@.len() > 0 ==> (res matches Err(ParseError::Other(m)) && m@
                == "protocol error; expected end of frame, but there was more"@ && final(self)@
                == old(self)@.drop_first()),
    {
        match self.next() {
            Err(_) => Ok(()),
            Ok(_) => Err(
                ParseError::Other(
                    to_owned_string("protocol error; expected end of frame, but there was more"),
                ),
            ),
        }
    }
}

/// An owned copy of a byte slice.
fn slice_to_vec_bytes(b: &[u8]) -> (v: Vec<u8>)
    ensures
        v@ == b@,
{
    vstd::slice::slice_to_vec(b)
}

} // verus!
