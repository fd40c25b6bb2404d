//! RESP frames: the value model, the encoder and the decoder.

use vstd::prelude::*;
use vstd::utf8::*;

use crate::text::{
    atoi_u64, decimal, is_digit, is_utf8, lemma_atoi_decimal, lemma_decimal_digits, parse_u64,
    string_from_utf8, write_decimal,
};

verus! {

broadcast use vstd::std_specs::vec::group_vec_axioms, vstd::seq::group_seq_axioms;

/// One RESP value as it travels on the wire.
#[derive(Debug)]
pub enum Frame {
    Simple(String),
    Error(String),
    Integer(u64),
    Bulk(Vec<u8>),
    Null,
    Array(Vec<Frame>),
}

/// The mathematical value of a frame.
pub enum FrameModel {
    Simple(Seq<char>),
    Error(Seq<char>),
    Integer(u64),
    Bulk(Seq<u8>),
    Null,
    Array(Seq<FrameModel>),
}

impl View for Frame {
    type V = FrameModel;

    open spec fn view(&self) -> FrameModel
        decreases self,
    {
        match self {
            Frame::Simple(s) => FrameModel::Simple(s@),
            Frame::Error(s) => FrameModel::Error(s@),
            Frame::Integer(n) => FrameModel::Integer(*n),
            Frame::Bulk(b) => FrameModel::Bulk(b@),
            Frame::Null => FrameModel::Null,
            Frame::Array(v) => FrameModel::Array(frames_view(v@)),
        }
    }
}

impl Frame {
    /// An empty array frame.
    pub fn array() -> (r: Frame)
        ensures
            r@ == FrameModel::Array(Seq::empty()),
    {
        let items: Vec<Frame> = Vec::new();
        proof {
            lemma_frames_view(items@);
        }
        let r = Frame::Array(items);
        assert(r@->Array_0 =~= Seq::<FrameModel>::empty());
        r
    }

    /// Appends a bulk item to an array frame.
    pub fn push_bulk(&mut self, bytes: Vec<u8>)
        requires
            old(self)@ is Array,
        ensures
            final(self)@ == FrameModel::Array(old(self)@->Array_0.push(FrameModel::Bulk(bytes@))),
    {
        self.push_item(Frame::Bulk(bytes));
    }

    /// Appends an integer item to an array frame.
    pub fn push_int(&mut self, value: u64)
        requires
            old(self)@ is Array,
        ensures
            final(self)@ == FrameModel::Array(old(self)@->Array_0.push(FrameModel::Integer(value))),
    {
        self.push_item(Frame::Integer(value));
    }

    fn push_item(&mut self, item: Frame)
        requires
            old(self)@ is Array,
        ensures
            final(self)@ == FrameModel::Array(old(self)@->Array_0.push(item@)),
    {
        match self {
            Frame::Array(items) => {
                let ghost before = items@;
                items.push(item);
                proof {
                    lemma_frames_view(before);
                    lemma_frames_view(items@);
                    assert(items@.drop_last() =~= before);
                }
            },
            _ => {},
        }
    }
}

/// The values of a sequence of frames.
pub open spec fn frames_view(v: Seq<Frame>) -> Seq<FrameModel>
    decreases v,
{
    if v.len() == 0 {
        Seq::empty()
    } else {
        frames_view(v.drop_last()).push(v.last().view())
    }
}

pub proof fn lemma_frames_view(v: Seq<Frame>)
    ensures
        frames_view(v).len() == v.len(),
        forall|i: int| 0 <= i < v.len() ==> #[trigger] frames_view(v)[i] == v[i]@,
    decreases v.len(),
{
    if v.len() > 0 {
        lemma_frames_view(v.drop_last());
        assert(frames_view(v) == frames_view(v.drop_last()).push(v.last()@));
    }
}

pub open spec fn crlf() -> Seq<u8> {
    seq![13u8, 10u8]
}

/// The wire bytes of a frame.
pub open spec fn encoding(f: FrameModel) -> Seq<u8>
    decreases f,
{
    match f {
        FrameModel::Simple(s) => seq![43u8] + encode_utf8(s) + crlf(),
        FrameModel::Error(s) => seq![45u8] + encode_utf8(s) + crlf(),
        FrameModel::Integer(n) => seq![58u8] + decimal(n as nat) + crlf(),
        FrameModel::Bulk(b) => seq![36u8] + decimal(b.len()) + crlf() + b + crlf(),
        FrameModel::Null => seq![36u8, 45u8, 49u8, 13u8, 10u8],
        FrameModel::Array(items) => seq![42u8] + decimal(items.len()) + crlf() + encode_items(
            items,
        ),
    }
}

/// The wire bytes of a sequence of frames, one after the other.
pub open spec fn encode_items(items: Seq<FrameModel>) -> Seq<u8>
    decreases items,
{
    if items.len() == 0 {
        Seq::empty()
    } else {
        encoding(items[0]) + encode_items(items.drop_first())
    }
}

proof fn lemma_encode_items_push(items: Seq<FrameModel>, i: int)
    requires
        0 <= i < items.len(),
    ensures
        encode_items(items.take(i + 1)) == encode_items(items.take(i)) + encoding(items[i]),
    decreases i,
{
    if i == 0 {
        assert(items.take(1).drop_first() =~= Seq::<FrameModel>::empty());
        assert(encode_items(items.take(1).drop_first()) =~= Seq::<u8>::empty());
        assert(encode_items(items.take(1)) =~= encoding(items[0]));
        assert(encode_items(items.take(0)) =~= Seq::<u8>::empty());
    } else {
        let rest = items.drop_first();
        lemma_encode_items_push(rest, i - 1);
        assert(items.take(i + 1).drop_first() =~= rest.take(i));
        assert(items.take(i).drop_first() =~= rest.take(i - 1));
        assert(items.take(i + 1)[0] == items[0]);
        assert(items.take(i)[0] == items[0]);
        assert(rest[i - 1] == items[i]);
        assert(encode_items(items.take(i + 1)) =~= encode_items(items.take(i)) + encoding(
            items[i],
        ));
    }
}

fn write_bytes(bytes: &[u8], out: &mut Vec<u8>)
    ensures
        final(out)@ == old(out)@ + bytes@,
{
    let mut i: usize = 0;
    while i < bytes.len()
        invariant
            i <= bytes@.len(),
            out@ == old(out)@ + bytes@.take(i as int),
        decreases bytes@.len() - i,
    {
        out.push(bytes[i]);
        i += 1;
        assert(out@ =~= old(out)@ + bytes@.take(i as int));
    }
    assert(bytes@.take(i as int) =~= bytes@);
}

fn write_crlf(out: &mut Vec<u8>)
    ensures
        final(out)@ == old(out)@ + crlf(),
{
    out.push(13u8);
    out.push(10u8);
    assert(final(out)@ =~= old(out)@ + crlf());
}

/// Appends the wire bytes of `frame`.
pub fn write_frame(frame: &Frame, out: &mut Vec<u8>)
    ensures
        final(out)@ == old(out)@ + encoding(frame@),
    decreases frame,
{
    match frame {
        Frame::Simple(s) => {
            out.push(43u8);
            write_bytes(s.as_str().as_bytes(), out);
            write_crlf(out);
        },
        Frame::Error(s) => {
            out.push(45u8);
            write_bytes(s.as_str().as_bytes(), out);
            write_crlf(out);
        },
        Frame::Integer(n) => {
            out.push(58u8);
            write_decimal(*n, out);
            write_crlf(out);
        },
        Frame::Bulk(b) => {
            out.push(36u8);
            write_decimal(b.len() as u64, out);
            write_crlf(out);
            write_bytes(b.as_slice(), out);
            write_crlf(out);
        },
        Frame::Null => {
            out.push(36u8);
            out.push(45u8);
            out.push(49u8);
            write_crlf(out);
        },
        Frame::Array(items) => {
            let ghost start = out@;
            let ghost models = frames_view(items@);
            proof {
                lemma_frames_view(items@);
            }
            out.push(42u8);
            write_decimal(items.len() as u64, out);
            write_crlf(out);
            let ghost head = out@;
            let mut i: usize = 0;
            while i < items.len()
                invariant
                    *frame == Frame::Array(*items),
                    i <= items@.len(),
                    models.len() == items@.len(),
                    forall|j: int| 0 <= j < items@.len() ==> models[j] == (#[trigger] items@[j])@,
                    out@ == head + encode_items(models.take(i as int)),
                decreases items@.len() - i,
            {
                proof {
                    lemma_encode_items_push(models, i as int);
                    assert(decreases_to!(*items => items[i as int]));
                    assert(decreases_to!(*frame => (*frame)->Array_0));
                    assert(decreases_to!(*frame => items[i as int]));
                }
                write_frame(&items[i], out);
                i += 1;
            }
            assert(models.take(i as int) =~= models);
        },
    }
    assert(final(out)@ =~= old(out)@ + encoding(frame@));
}

/// The wire bytes of `frame`.
pub fn encode(frame: &Frame) -> (r: Vec<u8>)
    ensures
        r@ == encoding(frame@),
{
    let mut out: Vec<u8> = Vec::new();
    write_frame(frame, &mut out);
    assert(out@ =~= encoding(frame@));
    out
}


/// Why a buffer does not yet hold a frame.
#[derive(Clone, Copy, Debug, PartialEq, Eq, Structural)]
pub enum DecodeError {
    /// The bytes so far are the start of a frame: more must be read.
    Incomplete,
    /// The bytes can never start a frame.
    Invalid,
}

pub open spec fn is_crlf_at(buf: Seq<u8>, i: int) -> bool {
    0 <= i && i + 1 < buf.len() && buf[i] == 13 && buf[i + 1] == 10
}

/// Where the first CRLF at or after `pos` starts.
pub open spec fn line_end(buf: Seq<u8>, pos: int) -> Option<int>
    decreases buf.len() - pos,
{
    if pos < 0 || pos + 1 >= buf.len() {
        None
    } else if is_crlf_at(buf, pos) {
        Some(pos)
    } else {
        line_end(buf, pos + 1)
    }
}

pub proof fn lemma_line_end(buf: Seq<u8>, pos: int)
    ensures
        line_end(buf, pos) matches Some(e) ==> pos <= e && e + 2 <= buf.len() && is_crlf_at(
            buf,
            e,
        ) && forall|i: int| pos <= i < e ==> !#[trigger] is_crlf_at(buf, i),
    decreases buf.len() - pos,
{
    if !(pos < 0 || pos + 1 >= buf.len()) && !is_crlf_at(buf, pos) {
        lemma_line_end(buf, pos + 1);
    }
}

#[via_fn]
proof fn parse_frame_decreases(buf: Seq<u8>, pos: int) {
    lemma_line_end(buf, pos + 1);
}

/// The frame that starts at `pos`, with the position just past it.
pub open spec fn parse_frame(buf: Seq<u8>, pos: int) -> Result<(FrameModel, int), DecodeError>
    decreases buf.len() - pos, 0int via parse_frame_decreases
{
    if pos < 0 || pos >= buf.len() {
        Err(DecodeError::Incomplete)
    } else {
        let marker = buf[pos];
        if marker != 43 && marker != 45 && marker != 58 && marker != 36 && marker != 42 {
            Err(DecodeError::Invalid)
        } else {
            match line_end(buf, pos + 1) {
                None => Err(DecodeError::Incomplete),
                Some(e) => {
                    let line = buf.subrange(pos + 1, e);
                    let next = e + 2;
                    if marker == 43 || marker == 45 {
                        if !valid_utf8(line) {
                            Err(DecodeError::Invalid)
                        } else if marker == 43 {
                            Ok((FrameModel::Simple(decode_utf8(line)), next))
                        } else {
                            Ok((FrameModel::Error(decode_utf8(line)), next))
                        }
                    } else if marker == 36 && line.len() > 0 && line[0] == 45 {
                        if line == seq![45u8, 49u8] {
                            Ok((FrameModel::Null, next))
                        } else {
                            Err(DecodeError::Invalid)
                        }
                    } else {
                        match atoi_u64(line) {
                            None => Err(DecodeError::Invalid),
                            Some(n) => if marker == 58 {
                                Ok((FrameModel::Integer(n), next))
                            } else if marker == 36 {
                                if next + n + 2 > buf.len() {
                                    Err(DecodeError::Incomplete)
                                } else if is_crlf_at(buf, next + n) {
                                    Ok((FrameModel::Bulk(buf.subrange(next, next + n)), next + n + 2))
                                } else {
                                    Err(DecodeError::Invalid)
                                }
                            } else {
                                parse_items(buf, next, n as nat, Seq::empty())
                            },
                        }
                    }
                },
            }
        }
    }
}

/// An array whose items `acc` are read already, and `n` more items start at `pos`.
pub open spec fn parse_items(buf: Seq<u8>, pos: int, n: nat, acc: Seq<FrameModel>) -> Result<
    (FrameModel, int),
    DecodeError,
>
    decreases buf.len() - pos, 1int,
{
    if n == 0 {
        Ok((FrameModel::Array(acc), pos))
    } else if pos < 0 || pos > buf.len() {
        Err(DecodeError::Incomplete)
    } else {
        match parse_frame(buf, pos) {
            Err(e) => Err(e),
            Ok((f, p)) => if p <= pos || p > buf.len() {
                Err(DecodeError::Invalid)
            } else {
                parse_items(buf, p, (n - 1) as nat, acc.push(f))
            },
        }
    }
}

/// Where the first CRLF at or after `pos` starts.
fn find_line_end(buf: &[u8], pos: usize) -> (r: Option<usize>)
    ensures
        match line_end(buf@, pos as int) {
            Some(e) => r == Some(e as usize),
            None => r is None,
        },
{
    let mut i = pos;
    while i < buf.len() && i + 1 < buf.len()
        invariant
            pos <= i,
            line_end(buf@, pos as int) == line_end(buf@, i as int),
        decreases buf.len() - i,
    {
        if buf[i] == 13u8 && buf[i + 1] == 10u8 {
            return Some(i);
        }
        i += 1;
    }
    None
}

/// Reads the frame that starts at `pos`; on success also says where it ends.
pub fn decode_at(buf: &[u8], pos: usize) -> (r: Result<(Frame, usize), DecodeError>)
    ensures
        match r {
            Ok((f, p)) => parse_frame(buf@, pos as int) == Ok::<(FrameModel, int), DecodeError>(
                (f@, p as int),
            ) && pos < p <= buf.len(),
            Err(e) => parse_frame(buf@, pos as int) == Err::<(FrameModel, int), DecodeError>(e),
        },
    decreases buf.len() - pos,
{
    if pos >= buf.len() {
        return Err(DecodeError::Incomplete);
    }
    let marker = buf[pos];
    if marker != 43 && marker != 45 && marker != 58 && marker != 36 && marker != 42 {
        return Err(DecodeError::Invalid);
    }
    let e = match find_line_end(buf, pos + 1) {
        None => return Err(DecodeError::Incomplete),
        Some(e) => e,
    };
    proof {
        lemma_line_end(buf@, pos + 1);
    }
    let line = vstd::slice::slice_subrange(buf, pos + 1, e);
    let next = e + 2;
    if marker == 43 || marker == 45 {
        let text = match string_from_utf8(vstd::slice::slice_to_vec(line)) {
            None => return Err(DecodeError::Invalid),
            Some(t) => t,
        };
        if marker == 43 {
            return Ok((Frame::Simple(text), next));
        } else {
            return Ok((Frame::Error(text), next));
        }
    }
    if marker == 36 && line.len() > 0 && line[0] == 45 {
        if line.len() == 2 && line[1] == 49 {
            assert(line@ =~= seq![45u8, 49u8]);
            return Ok((Frame::Null, next));
        } else {
            assert(line@ != seq![45u8, 49u8]);
            return Err(DecodeError::Invalid);
        }
    }
    let n = match parse_u64(line) {
        None => return Err(DecodeError::Invalid),
        Some(n) => n,
    };
    if marker == 58 {
        return Ok((Frame::Integer(n), next));
    }
    if marker == 36 {
        if n > (buf.len() - next) as u64 || (buf.len() - next) as u64 - n < 2 {
            return Err(DecodeError::Incomplete);
        }
        let end = next + n as usize;
        if buf[end] != 13 || buf[end + 1] != 10 {
            return Err(DecodeError::Invalid);
        }
        let data = vstd::slice::slice_to_vec(vstd::slice::slice_subrange(buf, next, end));
        return Ok((Frame::Bulk(data), end + 2));
    }
    let mut items: Vec<Frame> = Vec::new();
    let mut p = next;
    let mut k: u64 = 0;
    proof {
        lemma_frames_view(items@);
        assert(frames_view(items@) =~= Seq::<FrameModel>::empty());
    }
    while k < n
        invariant
            pos < next <= p <= buf.len(),
            k <= n,
            parse_frame(buf@, pos as int) == parse_items(
                buf@,
                p as int,
                (n - k) as nat,
                frames_view(items@),
            ),
        decreases n - k,
    {
        match decode_at(buf, p) {
            Err(err) => {
                return Err(err);
            },
            Ok((f, q)) => {
                proof {
                    lemma_frames_view(items@);
                    lemma_frames_view(items@.push(f));
                    assert(frames_view(items@.push(f)) =~= frames_view(items@).push(f@));
                }
                items.push(f);
                p = q;
                k += 1;
            },
        }
    }
    Ok((Frame::Array(items), p))
}


/// Where the frame that starts at `pos` ends, found without building it.
pub fn check_at(buf: &[u8], pos: usize) -> (r: Result<usize, DecodeError>)
    ensures
        match r {
            Ok(p) => parse_frame(buf@, pos as int) matches Ok((_, q)) && q == p && pos < p
                <= buf.len(),
            Err(e) => parse_frame(buf@, pos as int) == Err::<(FrameModel, int), DecodeError>(e),
        },
    decreases buf.len() - pos,
{
    if pos >= buf.len() {
        return Err(DecodeError::Incomplete);
    }
    let marker = buf[pos];
    if marker != 43 && marker != 45 && marker != 58 && marker != 36 && marker != 42 {
        return Err(DecodeError::Invalid);
    }
    let e = match find_line_end(buf, pos + 1) {
        None => return Err(DecodeError::Incomplete),
        Some(e) => e,
    };
    proof {
        lemma_line_end(buf@, pos + 1);
    }
    let line = vstd::slice::slice_subrange(buf, pos + 1, e);
    let next = e + 2;
    if marker == 43 || marker == 45 {
        if is_utf8(line) {
            return Ok(next);
        } else {
            return Err(DecodeError::Invalid);
        }
    }
    if marker == 36 && line.len() > 0 && line[0] == 45 {
        if line.len() == 2 && line[1] == 49 {
            assert(line@ =~= seq![45u8, 49u8]);
            return Ok(next);
        } else {
            assert(line@ != seq![45u8, 49u8]);
            return Err(DecodeError::Invalid);
        }
    }
    let n = match parse_u64(line) {
        None => return Err(DecodeError::Invalid),
        Some(n) => n,
    };
    if marker == 58 {
        return Ok(next);
    }
    if marker == 36 {
        if n > (buf.len() - next) as u64 || (buf.len() - next) as u64 - n < 2 {
            return Err(DecodeError::Incomplete);
        }
        let end = next + n as usize;
        if buf[end] != 13 || buf[end + 1] != 10 {
            return Err(DecodeError::Invalid);
        }
        return Ok(end + 2);
    }
    let mut p = next;
    let mut k: u64 = 0;
    let ghost mut acc: Seq<FrameModel> = Seq::empty();
    while k < n
        invariant
            pos < next <= p <= buf.len(),
            k <= n,
            parse_frame(buf@, pos as int) == parse_items(buf@, p as int, (n - k) as nat, acc),
        decreases n - k,
    {
        match check_at(buf, p) {
            Err(err) => {
                return Err(err);
            },
            Ok(q) => {
                proof {
                    acc = acc.push(parse_frame(buf@, p as int)->Ok_0.0);
                }
                p = q;
                k += 1;
            },
        }
    }
    Ok(p)
}

/// How many bytes the frame at the start of `buf` takes, once all of it is
/// there; nothing is built, so a caller can wait for more bytes cheaply.
pub fn check(buf: &[u8]) -> (r: Result<usize, DecodeError>)
    ensures
        match r {
            Ok(n) => parse_frame(buf@, 0) matches Ok((_, q)) && q == n && 0 < n <= buf.len(),
            Err(e) => parse_frame(buf@, 0) == Err::<(FrameModel, int), DecodeError>(e),
        },
{
    check_at(buf, 0)
}

/// Reads the frame at the start of `buf`; on success also says how many bytes it took.
pub fn decode(buf: &[u8]) -> (r: Result<(Frame, usize), DecodeError>)
    ensures
        match r {
            Ok((f, n)) => parse_frame(buf@, 0) == Ok::<(FrameModel, int), DecodeError>(
                (f@, n as int),
            ) && 0 < n <= buf.len(),
            Err(e) => parse_frame(buf@, 0) == Err::<(FrameModel, int), DecodeError>(e),
        },
{
    decode_at(buf, 0)
}

/// Text that can stand on one line: no CR directly followed by LF.
pub open spec fn no_crlf(b: Seq<u8>) -> bool {
    forall|i: int| 0 <= i < b.len() - 1 ==> !(b[i] == 13 && #[trigger] b[i + 1] == 10)
}

/// A frame that the encoding represents faithfully: its texts hold no line break
/// and its lengths fit the 64-bit counts of the headers.
pub open spec fn well_formed(f: FrameModel) -> bool
    decreases f,
{
    match f {
        FrameModel::Simple(s) => no_crlf(encode_utf8(s)),
        FrameModel::Error(s) => no_crlf(encode_utf8(s)),
        FrameModel::Bulk(b) => b.len() <= u64::MAX,
        FrameModel::Array(items) => items.len() <= u64::MAX && items_well_formed(items),
        _ => true,
    }
}

pub open spec fn items_well_formed(items: Seq<FrameModel>) -> bool
    decreases items,
{
    items.len() == 0 || (well_formed(items[0]) && items_well_formed(items.drop_first()))
}

proof fn lemma_window(buf: Seq<u8>, pos: int, enc: Seq<u8>, a: int, b: int)
    requires
        0 <= pos,
        pos + enc.len() <= buf.len(),
        buf.subrange(pos, pos + enc.len()) == enc,
        0 <= a <= b <= enc.len(),
    ensures
        buf.subrange(pos + a, pos + b) == enc.subrange(a, b),
{
    assert forall|i: int| 0 <= i < b - a implies buf.subrange(pos + a, pos + b)[i] == enc.subrange(
        a,
        b,
    )[i] by {
        assert(buf.subrange(pos, pos + enc.len())[a + i] == buf[pos + a + i]);
    }
    assert(buf.subrange(pos + a, pos + b) =~= enc.subrange(a, b));
}

proof fn lemma_line_found(buf: Seq<u8>, s: int, e: int)
    requires
        0 <= s <= e,
        is_crlf_at(buf, e),
        forall|i: int| s <= i < e ==> !#[trigger] is_crlf_at(buf, i),
    ensures
        line_end(buf, s) == Some(e),
    decreases e - s,
{
    if s < e {
        lemma_line_found(buf, s + 1, e);
    }
}

/// A text line: one marker byte, the UTF-8 bytes of `t`, CRLF.
proof fn lemma_text_line(buf: Seq<u8>, pos: int, enc: Seq<u8>, t: Seq<char>)
    requires
        0 <= pos,
        no_crlf(encode_utf8(t)),
        enc == seq![enc[0]] + encode_utf8(t) + crlf(),
        pos + enc.len() <= buf.len(),
        buf.subrange(pos, pos + enc.len()) == enc,
    ensures
        line_end(buf, pos + 1) == Some(pos + 1 + encode_utf8(t).len()),
        buf.subrange(pos + 1, pos + 1 + encode_utf8(t).len()) == encode_utf8(t),
        valid_utf8(encode_utf8(t)),
        decode_utf8(encode_utf8(t)) == t,
{
    let b = encode_utf8(t);
    let e = pos + 1 + b.len();
    assert forall|i: int| pos + 1 <= i < e implies !#[trigger] is_crlf_at(buf, i) by {
        assert(buf[i] == buf.subrange(pos, pos + enc.len())[i - pos]);
        assert(buf[i + 1] == buf.subrange(pos, pos + enc.len())[i + 1 - pos]);
        if i + 1 < e {
            assert(enc[i - pos] == b[i - pos - 1]);
            assert(enc[i + 1 - pos] == b[i - pos]);
            assert(!(b[i - pos - 1] == 13 && b[(i - pos - 1) + 1] == 10));
        } else {
            assert(enc[i + 1 - pos] == 13);
        }
    }
    assert(buf[e] == buf.subrange(pos, pos + enc.len())[e - pos]);
    assert(buf[e + 1] == buf.subrange(pos, pos + enc.len())[e + 1 - pos]);
    lemma_line_found(buf, pos + 1, e);
    lemma_window(buf, pos, enc, 1, 1 + b.len() as int);
    assert(enc.subrange(1, 1 + b.len() as int) =~= b);
    vstd::utf8::encode_utf8_valid_utf8(t);
    vstd::utf8::encode_utf8_decode_utf8(t);
}

/// A header line: one marker byte, the decimal digits of `n`, CRLF.
proof fn lemma_header(buf: Seq<u8>, pos: int, n: u64)
    requires
        0 <= pos,
        pos + 1 + decimal(n as nat).len() + 2 <= buf.len(),
        buf.subrange(pos + 1, pos + 1 + decimal(n as nat).len()) == decimal(n as nat),
        is_crlf_at(buf, pos + 1 + decimal(n as nat).len()),
    ensures
        line_end(buf, pos + 1) == Some(pos + 1 + decimal(n as nat).len()),
        atoi_u64(buf.subrange(pos + 1, pos + 1 + decimal(n as nat).len())) == Some(n),
        buf[pos + 1] != 45,
{
    let d = decimal(n as nat);
    let e = pos + 1 + d.len();
    lemma_decimal_digits(n as nat);
    assert forall|i: int| pos + 1 <= i < e implies !#[trigger] is_crlf_at(buf, i) by {
        assert(buf[i] == d[i - pos - 1]);
        assert(is_digit(d[i - pos - 1]));
    }
    lemma_line_found(buf, pos + 1, e);
    lemma_atoi_decimal(n);
    assert(buf[pos + 1] == d[0]);
    assert(is_digit(d[0]));
}

/// Reading back an integer, bulk or null frame.
proof fn lemma_parse_scalar(buf: Seq<u8>, pos: int, f: FrameModel)
    requires
        well_formed(f),
        f is Integer || f is Bulk || f is Null,
        0 <= pos,
        pos + encoding(f).len() <= buf.len(),
        buf.subrange(pos, pos + encoding(f).len()) == encoding(f),
    ensures
        parse_frame(buf, pos) == Ok::<(FrameModel, int), DecodeError>(
            (f, pos + encoding(f).len()),
        ),
{
    let enc = encoding(f);
    assert(buf[pos] == enc[0]);
    match f {
        FrameModel::Integer(n) => {
            let d = decimal(n as nat);
            let e = pos + 1 + d.len();
            lemma_window(buf, pos, enc, 1, 1 + d.len() as int);
            assert(enc.subrange(1, 1 + d.len() as int) =~= d);
            assert(buf[e] == enc[e - pos]);
            assert(buf[e + 1] == enc[e + 1 - pos]);
            lemma_header(buf, pos, n);
        },
        FrameModel::Bulk(b) => {
            let n = b.len() as u64;
            let d = decimal(n as nat);
            let e = pos + 1 + d.len();
            let next = e + 2;
            lemma_window(buf, pos, enc, 1, 1 + d.len() as int);
            assert(enc.subrange(1, 1 + d.len() as int) =~= d);
            assert(buf[e] == enc[e - pos]);
            assert(buf[e + 1] == enc[e + 1 - pos]);
            lemma_header(buf, pos, n);
            assert(buf[next + n] == enc[next + n - pos]);
            assert(buf[next + n + 1] == enc[next + n + 1 - pos]);
            lemma_window(buf, pos, enc, next - pos, next - pos + n);
            assert(enc.subrange(next - pos, next - pos + n) =~= b);
        },
        FrameModel::Null => {
            let e = pos + 3;
            assert(buf[pos + 1] == enc[1]);
            assert(buf[pos + 2] == enc[2]);
            assert(buf[e] == enc[3]);
            assert(buf[e + 1] == enc[4]);
            lemma_line_found(buf, pos + 1, e);
            assert(buf.subrange(pos + 1, e) =~= seq![45u8, 49u8]);
        },
        _ => {},
    }
}

/// Reading a well-formed frame back from a buffer that holds its encoding at `pos`.
pub proof fn lemma_parse_encoding(buf: Seq<u8>, pos: int, f: FrameModel)
    requires
        well_formed(f),
        0 <= pos,
        pos + encoding(f).len() <= buf.len(),
        buf.subrange(pos, pos + encoding(f).len()) == encoding(f),
    ensures
        parse_frame(buf, pos) == Ok::<(FrameModel, int), DecodeError>(
            (f, pos + encoding(f).len()),
        ),
    decreases f,
{
    let enc = encoding(f);
    assert(buf[pos] == enc[0]);
    match f {
        FrameModel::Simple(t) => {
            lemma_text_line(buf, pos, enc, t);
        },
        FrameModel::Error(t) => {
            lemma_text_line(buf, pos, enc, t);
        },
        FrameModel::Integer(_) => {
            lemma_parse_scalar(buf, pos, f);
        },
        FrameModel::Bulk(_) => {
            lemma_parse_scalar(buf, pos, f);
        },
        FrameModel::Null => {
            lemma_parse_scalar(buf, pos, f);
        },
        FrameModel::Array(items) => {
            let n = items.len() as u64;
            let d = decimal(n as nat);
            let e = pos + 1 + d.len();
            let next = e + 2;
            lemma_window(buf, pos, enc, 1, 1 + d.len() as int);
            assert(enc.subrange(1, 1 + d.len() as int) =~= d);
            assert(buf[e] == enc[e - pos]);
            assert(buf[e + 1] == enc[e + 1 - pos]);
            lemma_header(buf, pos, n);
            let body = encode_items(items);
            lemma_window(buf, pos, enc, next - pos, enc.len() as int);
            assert(enc.subrange(next - pos, enc.len() as int) =~= body);
            lemma_parse_encoded_items(buf, next, items, Seq::empty());
            assert(Seq::<FrameModel>::empty() + items =~= items);
        },
    }
}

proof fn lemma_parse_encoded_items(
    buf: Seq<u8>,
    pos: int,
    items: Seq<FrameModel>,
    acc: Seq<FrameModel>,
)
    requires
        items_well_formed(items),
        0 <= pos,
        pos + encode_items(items).len() <= buf.len(),
        buf.subrange(pos, pos + encode_items(items).len()) == encode_items(items),
    ensures
        parse_items(buf, pos, items.len(), acc) == Ok::<(FrameModel, int), DecodeError>(
            (FrameModel::Array(acc + items), pos + encode_items(items).len()),
        ),
    decreases items,
{
    if items.len() == 0 {
        assert(acc + items =~= acc);
    } else {
        let f = items[0];
        let rest = items.drop_first();
        let ef = encoding(f);
        let body = encode_items(items);
        assert(body == ef + encode_items(rest));
        assert(buf.subrange(pos, pos + ef.len()) =~= ef) by {
            assert forall|i: int| 0 <= i < ef.len() implies buf.subrange(pos, pos + ef.len())[i]
                == ef[i] by {
                assert(buf[pos + i] == body[i]);
            }
        }
        assert(ef.len() > 0) by {
            assert(ef[0] == encoding(f)[0]);
        }
        lemma_parse_encoding(buf, pos, f);
        let p = pos + ef.len();
        assert(buf.subrange(p, p + encode_items(rest).len()) =~= encode_items(rest)) by {
            assert forall|i: int| 0 <= i < encode_items(rest).len() implies buf.subrange(
                p,
                p + encode_items(rest).len(),
            )[i] == encode_items(rest)[i] by {
                assert(buf[p + i] == body[ef.len() + i]);
            }
        }
        lemma_parse_encoded_items(buf, p, rest, acc.push(f));
        assert(acc.push(f) + rest =~= acc + items);
        assert((items.len() - 1) as nat == rest.len());
    }
}

/// Decoding the encoding of a well-formed frame gives that frame back and takes
/// exactly the bytes of the encoding, whatever follows them.
pub proof fn lemma_round_trip(f: FrameModel, rest: Seq<u8>)
    requires
        well_formed(f),
    ensures
        parse_frame(encoding(f) + rest, 0) == Ok::<(FrameModel, int), DecodeError>(
            (f, encoding(f).len() as int),
        ),
{
    let buf = encoding(f) + rest;
    assert(buf.subrange(0, encoding(f).len() as int) =~= encoding(f));
    lemma_parse_encoding(buf, 0, f);
}

} // verus!
