//! The wire format. A frame is a tag byte, a body and CRLF; a blob adds its
//! payload and a second CRLF, an array is followed by its items.
//!
//!   `$` string, `%` integer, `!` error, `*` blob (`*-1` is null), `#` array.

use crate::blob::{bytes_content, bytes_from_slice};
use crate::digits::{has_leading_digit, header_number, leading_i64, leading_usize};
use crate::text::decode_text;
use bytes::Bytes;
use vstd::prelude::*;
use vstd::utf8::{decode_utf8, valid_utf8};

verus! {

#[derive(Debug, PartialEq)]
pub enum Frame {
    String(String),
    Blob(Bytes),
    Integer(i64),
    Null,
    Array(Vec<Frame>),
    Error(String),
}

#[derive(Debug, Clone, Copy, PartialEq, Eq, Structural)]
pub enum ParseError {
    /// More bytes are needed before a frame can be read.
    IncompleteFrame,
    /// The bytes can never form a frame.
    InvalidFrame,
}

/// The text of a protocol error, as the client reads it.
pub open spec fn protocol_error_text(e: ParseError) -> Seq<char> {
    match e {
        ParseError::IncompleteFrame => "ERRPROTOCOL Incomplete frame, make sure that the frame is CRLF terminated"@,
        ParseError::InvalidFrame => "ERRPROTOCOL Invalid frame"@,
    }
}

impl ParseError {
    /// The error as the client reads it.
    pub fn message(&self) -> (r: String)
        ensures
            r@ == protocol_error_text(*self),
    {
        match self {
            ParseError::IncompleteFrame => "ERRPROTOCOL Incomplete frame, make sure that the frame is CRLF terminated".to_owned(),
            ParseError::InvalidFrame => "ERRPROTOCOL Invalid frame".to_owned(),
        }
    }
}

/// What a frame denotes: the mathematical value behind a `Frame`.
pub enum FrameModel {
    String(Seq<char>),
    Blob(Seq<u8>),
    Integer(int),
    Null,
    Array(Seq<FrameModel>),
    Error(Seq<char>),
}

impl Frame {
    pub open spec fn model(self) -> FrameModel
        decreases self,
    {
        match self {
            Frame::String(s) => FrameModel::String(s@),
            Frame::Blob(b) => FrameModel::Blob(bytes_content(b)),
            Frame::Integer(i) => FrameModel::Integer(i as int),
            Frame::Null => FrameModel::Null,
            Frame::Array(v) => FrameModel::Array(models(v@)),
            Frame::Error(s) => FrameModel::Error(s@),
        }
    }
}

/// The models of a sequence of frames, in order.
pub open spec fn models(s: Seq<Frame>) -> Seq<FrameModel>
    decreases s,
{
    if s.len() == 0 {
        Seq::empty()
    } else {
        models(s.drop_last()).push(s.last().model())
    }
}

/// The model of a parse result.
pub open spec fn outcome(r: Result<Frame, ParseError>) -> Result<FrameModel, ParseError> {
    match r {
        Ok(f) => Ok(f.model()),
        Err(e) => Err(e),
    }
}

/// A read position over a byte slice.
pub struct Cursor<'a> {
    buf: &'a [u8],
    pos: usize,
}

impl<'a> Cursor<'a> {
    #[verifier::type_invariant]
    spec fn within(&self) -> bool {
        self.pos <= self.buf@.len()
    }

    /// The bytes under the cursor.
    pub closed spec fn data(&self) -> Seq<u8> {
        self.buf@
    }

    /// How many bytes have been read.
    pub closed spec fn pos(&self) -> int {
        self.pos as int
    }

    pub fn new(buf: &'a [u8]) -> (c: Self)
        ensures
            c.data() == buf@,
            c.pos() == 0,
    {
        Cursor { buf, pos: 0 }
    }

    pub fn position(&self) -> (r: usize)
        ensures
            r == self.pos(),
            r <= self.data().len(),
            self.data().len() <= usize::MAX,
    {
        proof {
            use_type_invariant(self);
            assert(self.buf.len() == self.buf@.len());
        }
        self.pos
    }

    pub fn remaining(&self) -> (r: usize)
        ensures
            r == self.data().len() - self.pos(),
    {
        proof {
            use_type_invariant(self);
        }
        self.buf.len() - self.pos
    }

    pub fn get_ref(&self) -> (r: &'a [u8])
        ensures
            r@ == self.data(),
    {
        self.buf
    }

    fn set_position(&mut self, pos: usize)
        requires
            pos <= old(self).data().len(),
        ensures
            final(self).data() == old(self).data(),
            final(self).pos() == pos,
    {
        self.pos = pos;
    }
}

/// A CRLF pair starts at `i`.
pub open spec fn crlf_at(buf: Seq<u8>, i: int) -> bool {
    0 <= i && i + 1 < buf.len() && buf[i] == 13 && buf[i + 1] == 10
}

/// `i` is where the first CRLF at or after `start` begins.
pub open spec fn is_line_end(buf: Seq<u8>, start: int, i: int) -> bool {
    &&& start <= i
    &&& crlf_at(buf, i)
    &&& forall|j: int| start <= j < i ==> !crlf_at(buf, j)
}

/// A whole line starts at `start`: a CRLF follows it.
pub open spec fn has_line(buf: Seq<u8>, start: int) -> bool {
    exists|i: int| is_line_end(buf, start, i)
}

/// Where the line that starts at `start` ends (its CRLF excluded).
pub open spec fn line_end(buf: Seq<u8>, start: int) -> int
    recommends
        has_line(buf, start),
{
    choose|i: int| is_line_end(buf, start, i)
}

/// A line ends only where its first CRLF is.
pub proof fn lemma_line_end_unique(buf: Seq<u8>, start: int, i: int)
    requires
        is_line_end(buf, start, i),
    ensures
        has_line(buf, start),
        line_end(buf, start) == i,
{
    let e = line_end(buf, start);
    assert(is_line_end(buf, start, e));
    if e < i {
        assert(!crlf_at(buf, e));
    } else if i < e {
        assert(!crlf_at(buf, i));
    }
}

/// The bytes `-1`, which a blob header holds for null.
pub open spec fn null_length() -> Seq<u8> {
    seq![45u8, 49u8]
}

/// Reading one frame of `buf` at `pos`: the frame or the error, and where
/// the reading stopped. An incomplete frame leaves the position where it
/// was; a malformed one stops after the bytes that showed it malformed.
pub open spec fn parse_at(buf: Seq<u8>, pos: int) -> (Result<FrameModel, ParseError>, int)
    decreases buf.len() - pos, 0int,
{
    if !has_line(buf, pos) {
        (Err(ParseError::IncompleteFrame), pos)
    } else {
        let e = line_end(buf, pos);
        let next = e + 2;
        let body = buf.subrange(pos + 1, e);
        if e == pos {
            (Err(ParseError::InvalidFrame), next)
        } else if buf[pos] == 36 {
            if valid_utf8(body) {
                (Ok(FrameModel::String(decode_utf8(body))), next)
            } else {
                (Err(ParseError::InvalidFrame), next)
            }
        } else if buf[pos] == 37 {
            match header_number(body, i64::MIN as int, i64::MAX as int) {
                Some(v) => (Ok(FrameModel::Integer(v)), next),
                None => (Err(ParseError::InvalidFrame), next),
            }
        } else if buf[pos] == 33 {
            if valid_utf8(body) {
                (Ok(FrameModel::Error(decode_utf8(body))), next)
            } else {
                (Err(ParseError::InvalidFrame), next)
            }
        } else if buf[pos] == 42 {
            if body == null_length() {
                if buf.len() - next < 2 {
                    (Err(ParseError::IncompleteFrame), pos)
                } else {
                    (Ok(FrameModel::Null), next + 2)
                }
            } else {
                match header_number(body, 0, usize::MAX as int) {
                    Some(n) => if buf.len() - next < n + 2 {
                        (Err(ParseError::IncompleteFrame), pos)
                    } else {
                        (Ok(FrameModel::Blob(buf.subrange(next, next + n))), next + n + 2)
                    },
                    None => (Err(ParseError::InvalidFrame), next),
                }
            }
        } else if buf[pos] == 35 {
            match header_number(body, 0, usize::MAX as int) {
                Some(n) => array_outcome(parse_items(buf, next, n as nat), pos),
                None => (Err(ParseError::InvalidFrame), next),
            }
        } else {
            (Err(ParseError::InvalidFrame), next)
        }
    }
}

/// An array read from its items, for an array whose header starts at `pos`.
pub open spec fn array_outcome(
    items: (Result<Seq<FrameModel>, ParseError>, int),
    pos: int,
) -> (Result<FrameModel, ParseError>, int) {
    match items.0 {
        Ok(fs) => (Ok(FrameModel::Array(fs)), items.1),
        Err(ParseError::IncompleteFrame) => (Err(ParseError::IncompleteFrame), pos),
        Err(ParseError::InvalidFrame) => (Err(ParseError::InvalidFrame), items.1),
    }
}

/// Reading `count` array items one after the other from `pos`. An item that
/// is itself an array makes the whole malformed.
pub open spec fn parse_items(buf: Seq<u8>, pos: int, count: nat) -> (
    Result<Seq<FrameModel>, ParseError>,
    int,
)
    decreases buf.len() - pos, count + 1,
{
    if count == 0 {
        (Ok(Seq::empty()), pos)
    } else {
        let (first, after) = parse_at(buf, pos);
        match first {
            Err(e) => (Err(e), after),
            Ok(f) => if f is Array {
                (Err(ParseError::InvalidFrame), after)
            } else if !(pos < after <= buf.len()) {
                // never taken: a frame always spans at least its own line
                (Err(ParseError::InvalidFrame), after)
            } else {
                let (rest, end) = parse_items(buf, after, (count - 1) as nat);
                match rest {
                    Ok(fs) => (Ok(seq![f] + fs), end),
                    Err(e) => (Err(e), end),
                }
            },
        }
    }
}

/// Reads one CRLF-terminated line and moves the cursor past its CRLF.
pub fn get_line<'a>(cursor: &mut Cursor<'a>) -> (r: Result<&'a [u8], ParseError>)
    ensures
        final(cursor).data() == old(cursor).data(),
        r is Err <==> !has_line(old(cursor).data(), old(cursor).pos()),
        r is Err ==> r == Err::<&[u8], ParseError>(ParseError::IncompleteFrame) && final(cursor).pos()
            == old(cursor).pos(),
        r matches Ok(line) ==> {
            let e = line_end(old(cursor).data(), old(cursor).pos());
            &&& line@ == old(cursor).data().subrange(old(cursor).pos(), e)
            &&& final(cursor).pos() == e + 2
        },
{
    proof {
        use_type_invariant(&*cursor);
    }
    let buf: &'a [u8] = cursor.get_ref();
    let start = cursor.position();
    if start >= buf.len() {
        assert(!has_line(buf@, start as int)) by {
            if has_line(buf@, start as int) {
                let i = choose|i: int| is_line_end(buf@, start as int, i);
            }
        }
        return Err(ParseError::IncompleteFrame);
    }
    let end = buf.len() - 1;
    let mut i = start;
    while i < end
        invariant
            start <= i <= end,
            end == buf@.len() - 1,
            start < buf@.len(),
            buf@ == cursor.data(),
            start == cursor.pos(),
            cursor.data() == old(cursor).data(),
            cursor.pos() == old(cursor).pos(),
            forall|j: int| start <= j < i ==> !crlf_at(buf@, j),
        decreases end - i,
    {
        if buf[i] == 13 && buf[i + 1] == 10 {
            proof {
                lemma_line_end_unique(buf@, start as int, i as int);
            }
            cursor.set_position(i + 2);
            return Ok(&buf[start..i]);
        }
        i = i + 1;
    }
    assert(!has_line(buf@, start as int)) by {
        if has_line(buf@, start as int) {
            let k = choose|k: int| is_line_end(buf@, start as int, k);
            assert(!crlf_at(buf@, k));
        }
    }
    Err(ParseError::IncompleteFrame)
}

/// Moves the cursor `n` bytes on, where that many remain.
pub fn skip(n: usize, cursor: &mut Cursor) -> (r: Result<(), ParseError>)
    ensures
        final(cursor).data() == old(cursor).data(),
        r is Ok <==> n <= old(cursor).data().len() - old(cursor).pos(),
        r is Ok ==> final(cursor).pos() == old(cursor).pos() + n,
        r is Err ==> r == Err::<(), ParseError>(ParseError::IncompleteFrame) && final(cursor).pos()
            == old(cursor).pos(),
{
    if cursor.remaining() < n {
        return Err(ParseError::IncompleteFrame);
    }
    let p = cursor.position();
    cursor.set_position(p + n);
    Ok(())
}

/// The items read so far, put in front of what the rest of an array reads.
pub open spec fn prepend(
    acc: Seq<FrameModel>,
    r: (Result<Seq<FrameModel>, ParseError>, int),
) -> (Result<Seq<FrameModel>, ParseError>, int) {
    match r.0 {
        Ok(fs) => (Ok(acc + fs), r.1),
        Err(e) => (Err(e), r.1),
    }
}

/// Reads one frame at the cursor. On success the cursor is past the frame;
/// on an incomplete frame it has not moved; on a malformed one it is past
/// the bytes that showed it malformed.
pub fn parse(cursor: &mut Cursor) -> (r: Result<Frame, ParseError>)
    ensures
        final(cursor).data() == old(cursor).data(),
        (outcome(r), final(cursor).pos()) == parse_at(old(cursor).data(), old(cursor).pos()),
        r is Ok ==> old(cursor).pos() < final(cursor).pos(),
    decreases old(cursor).data().len() - old(cursor).pos(),
{
    let start = cursor.position();
    let ghost buf = cursor.data();
    let line = match get_line(cursor) {
        Ok(line) => line,
        Err(e) => return Err(e),
    };
    let ghost e = line_end(buf, start as int);
    if line.len() == 0 {
        return Err(ParseError::InvalidFrame);
    }
    let tag = line[0];
    let body = &line[1..line.len()];
    assert(body@ =~= buf.subrange(start + 1, e));
    if tag == 36u8 {
        match decode_text(body) {
            Some(s) => Ok(Frame::String(s)),
            None => Err(ParseError::InvalidFrame),
        }
    } else if tag == 37u8 {
        if !has_leading_digit(body) {
            return Err(ParseError::InvalidFrame);
        }
        match leading_i64(body) {
            Some(v) => Ok(Frame::Integer(v)),
            None => Err(ParseError::InvalidFrame),
        }
    } else if tag == 33u8 {
        match decode_text(body) {
            Some(s) => Ok(Frame::Error(s)),
            None => Err(ParseError::InvalidFrame),
        }
    } else if tag == 42u8 {
        if body.len() == 2 && body[0] == 45u8 && body[1] == 49u8 {
            assert(body@ =~= null_length());
            // null: skip the empty payload's CRLF
            match skip(2, cursor) {
                Ok(()) => return Ok(Frame::Null),
                Err(e) => {
                    cursor.set_position(start);
                    return Err(e);
                },
            }
        }
        assert(body@ != null_length()) by {
            if body@ == null_length() {
                assert(body@[0] == 45u8 && body@[1] == 49u8);
            }
        }
        if !has_leading_digit(body) {
            return Err(ParseError::InvalidFrame);
        }
        match leading_usize(body) {
            None => Err(ParseError::InvalidFrame),
            Some(n) => {
                let rem = cursor.remaining();
                if rem < 2 || rem - 2 < n {
                    cursor.set_position(start);
                    return Err(ParseError::IncompleteFrame);
                }
                let p = cursor.position();
                let data = bytes_from_slice(&cursor.get_ref()[p..p + n]);
                cursor.set_position(p + n + 2);
                Ok(Frame::Blob(data))
            },
        }
    } else if tag == 35u8 {
        if !has_leading_digit(body) {
            return Err(ParseError::InvalidFrame);
        }
        match leading_usize(body) {
            None => Err(ParseError::InvalidFrame),
            Some(n) => {
                let mut items: Vec<Frame> = Vec::new();
                let mut k: usize = 0;
                let ghost items_start = cursor.pos();
                assert(prepend(models(items@), parse_items(buf, items_start, n as nat))
                    == parse_items(buf, items_start, n as nat)) by {
                    assert(models(items@) =~= Seq::<FrameModel>::empty());
                    let r = parse_items(buf, items_start, n as nat);
                    if let Ok(fs) = r.0 {
                        assert(Seq::<FrameModel>::empty() + fs =~= fs);
                    }
                }
                while k < n
                    invariant
                        cursor.data() == buf,
                        buf == old(cursor).data(),
                        start == old(cursor).pos(),
                        parse_at(buf, start as int) == array_outcome(
                            parse_items(buf, items_start, n as nat),
                            start as int,
                        ),
                        k <= n,
                        start < cursor.pos() <= buf.len(),
                        parse_items(buf, items_start, n as nat) == prepend(
                            models(items@),
                            parse_items(buf, cursor.pos(), (n - k) as nat),
                        ),
                    decreases n - k,
                {
                    let ghost before = cursor.pos();
                    let ghost acc = models(items@);
                    let ghost m = (n - k) as nat;
                    let r = parse(cursor);
                    let after = cursor.position();
                    match r {
                        Ok(f) => {
                            if let Frame::Array(_) = f {
                                assert(f.model() is Array);
                                assert(parse_items(buf, before, m) == (
                                    Err::<Seq<FrameModel>, ParseError>(ParseError::InvalidFrame),
                                    after as int,
                                ));
                                return Err(ParseError::InvalidFrame);
                            }
                            let ghost fm = f.model();
                            let ghost prev = items@;
                            items.push(f);
                            proof {
                                assert(items@.drop_last() =~= prev);
                                assert(models(items@) =~= acc.push(fm));
                                let rest = parse_items(buf, after as int, (m - 1) as nat);
                                if let Ok(fs) = rest.0 {
                                    assert(acc + (seq![fm] + fs) =~= acc.push(fm) + fs);
                                }
                            }
                        },
                        Err(ParseError::IncompleteFrame) => {
                            assert(parse_items(buf, before, m).0 == Err::<Seq<FrameModel>, ParseError>(
                                ParseError::IncompleteFrame,
                            ));
                            cursor.set_position(start);
                            return Err(ParseError::IncompleteFrame);
                        },
                        Err(e) => {
                            assert(parse_items(buf, before, m) == (
                                Err::<Seq<FrameModel>, ParseError>(e),
                                after as int,
                            ));
                            return Err(e);
                        },
                    }
                    k = k + 1;
                }
                proof {
                    assert(models(items@) + Seq::<FrameModel>::empty() =~= models(items@));
                }
                Ok(Frame::Array(items))
            },
        }
    } else {
        Err(ParseError::InvalidFrame)
    }
}

} // verus!
