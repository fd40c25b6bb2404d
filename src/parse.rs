//! A cursor over the items of a command frame.

use vstd::prelude::*;
use vstd::utf8::*;

use crate::frame::{Frame, FrameModel, frames_view, lemma_frames_view};
use crate::text::{atoi_u64, parse_u64, string_from_utf8, text_bytes};

verus! {

/// Why the items of a frame do not make a command.
#[derive(Clone, Copy, Debug, PartialEq, Eq, Structural)]
pub enum ParseError {
    /// An item was asked for past the last one.
    EndOfStream,
    /// The frame is not an array.
    NotAnArray,
    /// An item is not of the kind asked for.
    UnexpectedFrame,
    /// A bulk item that should be text is not UTF-8.
    InvalidString,
    /// An item that should be a number does not read as one.
    InvalidNumber,
    /// Items are left after the command was read.
    TrailingItems,
    /// `SET` got an option other than `EX` or `PX`.
    UnsupportedOption,
}

/// The text an item stands for.
pub open spec fn string_of(f: FrameModel) -> Result<Seq<char>, ParseError> {
    match f {
        FrameModel::Simple(s) => Ok(s),
        FrameModel::Bulk(b) => if valid_utf8(b) {
            Ok(decode_utf8(b))
        } else {
            Err(ParseError::InvalidString)
        },
        _ => Err(ParseError::UnexpectedFrame),
    }
}

/// The bytes an item stands for.
pub open spec fn bytes_of(f: FrameModel) -> Result<Seq<u8>, ParseError> {
    match f {
        FrameModel::Simple(s) => Ok(encode_utf8(s)),
        FrameModel::Bulk(b) => Ok(b),
        _ => Err(ParseError::UnexpectedFrame),
    }
}

pub open spec fn number_in(t: Seq<u8>) -> Result<u64, ParseError> {
    match atoi_u64(t) {
        Some(n) => Ok(n),
        None => Err(ParseError::InvalidNumber),
    }
}

/// The number an item stands for.
pub open spec fn int_of(f: FrameModel) -> Result<u64, ParseError> {
    match f {
        FrameModel::Integer(n) => Ok(n),
        FrameModel::Simple(s) => number_in(encode_utf8(s)),
        FrameModel::Bulk(b) => number_in(b),
        _ => Err(ParseError::UnexpectedFrame),
    }
}

/// The items of a command frame that are still to be read.
pub struct Parse {
    parts: Vec<Frame>,
}

impl View for Parse {
    type V = Seq<FrameModel>;

    closed spec fn view(&self) -> Seq<FrameModel> {
        frames_view(self.parts@)
    }
}

impl Parse {
    /// A cursor over the items of an array frame.
    pub fn new(frame: Frame) -> (r: Result<Parse, ParseError>)
        ensures
            match frame@ {
                FrameModel::Array(items) => r matches Ok(p) && p@ == items,
                _ => r == Err::<Parse, ParseError>(ParseError::NotAnArray),
            },
    {
        match frame {
            Frame::Array(parts) => Ok(Parse { parts }),
            _ => Err(ParseError::NotAnArray),
        }
    }

    /// Takes the next item.
    pub fn next(&mut self) -> (r: Result<Frame, ParseError>)
        ensures
            old(self)@.len() == 0 ==> r == Err::<Frame, ParseError>(ParseError::EndOfStream)
                && final(self)@ == old(self)@,
            old(self)@.len() > 0 ==> (r matches Ok(f) && f@ == old(self)@[0] && final(self)@
                == old(self)@.drop_first()),
    {
        proof {
            lemma_frames_view(self.parts@);
        }
        if self.parts.len() == 0 {
            return Err(ParseError::EndOfStream);
        }
        let f = self.parts.remove(0);
        proof {
            lemma_frames_view(self.parts@);
            assert(self@ =~= old(self)@.drop_first());
        }
        Ok(f)
    }

    /// Takes the next item as text.
    pub fn next_string(&mut self) -> (r: Result<String, ParseError>)
        ensures
            old(self)@.len() == 0 ==> r == Err::<String, ParseError>(ParseError::EndOfStream)
                && final(self)@ == old(self)@,
            old(self)@.len() > 0 ==> final(self)@ == old(self)@.drop_first() && match string_of(
                old(self)@[0],
            ) {
                Ok(s) => r matches Ok(t) && t@ == s,
                Err(e) => r == Err::<String, ParseError>(e),
            },
    {
        match self.next()? {
            Frame::Simple(s) => Ok(s),
            Frame::Bulk(data) => match string_from_utf8(data) {
                Some(s) => Ok(s),
                None => Err(ParseError::InvalidString),
            },
            _ => Err(ParseError::UnexpectedFrame),
        }
    }

    /// Takes the next item as bytes.
    pub fn next_bytes(&mut self) -> (r: Result<Vec<u8>, ParseError>)
        ensures
            old(self)@.len() == 0 ==> r == Err::<Vec<u8>, ParseError>(ParseError::EndOfStream)
                && final(self)@ == old(self)@,
            old(self)@.len() > 0 ==> final(self)@ == old(self)@.drop_first() && match bytes_of(
                old(self)@[0],
            ) {
                Ok(b) => r matches Ok(v) && v@ == b,
                Err(e) => r == Err::<Vec<u8>, ParseError>(e),
            },
    {
        match self.next()? {
            Frame::Simple(s) => Ok(text_bytes(s.as_str())),
            Frame::Bulk(data) => Ok(data),
            _ => Err(ParseError::UnexpectedFrame),
        }
    }

    /// Takes the next item as a number.
    pub fn next_int(&mut self) -> (r: Result<u64, ParseError>)
        ensures
            old(self)@.len() == 0 ==> r == Err::<u64, ParseError>(ParseError::EndOfStream)
                && final(self)@ == old(self)@,
            old(self)@.len() > 0 ==> final(self)@ == old(self)@.drop_first() && r == int_of(
                old(self)@[0],
            ),
    {
        match self.next()? {
            Frame::Integer(v) => Ok(v),
            Frame::Simple(s) => match parse_u64(text_bytes(s.as_str()).as_slice()) {
                Some(n) => Ok(n),
                None => Err(ParseError::InvalidNumber),
            },
            Frame::Bulk(data) => match parse_u64(data.as_slice()) {
                Some(n) => Ok(n),
                None => Err(ParseError::InvalidNumber),
            },
            _ => Err(ParseError::UnexpectedFrame),
        }
    }

    /// Succeeds when every item has been read.
    pub fn finish(&mut self) -> (r: Result<(), ParseError>)
        ensures
            r == if old(self)@.len() == 0 {
                Ok::<(), ParseError>(())
            } else {
                Err(ParseError::TrailingItems)
            },
            final(self)@ == old(self)@,
    {
        proof {
            lemma_frames_view(self.parts@);
        }
        if self.parts.len() == 0 {
            Ok(())
        } else {
            Err(ParseError::TrailingItems)
        }
    }
}

} // verus!
