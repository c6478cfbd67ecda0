//! What reading and writing frames promise of each other: a written frame
//! reads back as itself, whatever follows it; every frame read once writes
//! as bytes that read back to it; and a cut-short frame reads as incomplete
//! without moving the cursor.

use crate::digits::{
    decimal_digits, integer_text, is_digit, lemma_decimal_text, lemma_integer_text,
    leading_integer, header_number, digit_run, sign_len,
};
use crate::encode::{crlf, encode, encode_all};
use crate::frame::{
    crlf_at, has_line, is_line_end, lemma_line_end_unique, line_end, null_length, parse_at,
    parse_items, FrameModel, ParseError,
};
use vstd::prelude::*;
use vstd::utf8::{decode_utf8, encode_utf8, valid_utf8};

verus! {

broadcast use {vstd::utf8::encode_utf8_valid_utf8, vstd::utf8::encode_utf8_decode_utf8};

/// No CR is directly followed by LF in `b`.
pub open spec fn no_crlf(b: Seq<u8>) -> bool {
    forall|j: int| 0 <= j < b.len() - 1 ==> !(b[j] == 13u8 && #[trigger] b[j + 1] == 10u8)
}

/// A frame that is not an array and that the wire can carry: its text
/// holds no CRLF and its numbers fit their wire types.
pub open spec fn simple_frame(f: FrameModel) -> bool {
    match f {
        FrameModel::String(s) => no_crlf(encode_utf8(s)),
        FrameModel::Error(s) => no_crlf(encode_utf8(s)),
        FrameModel::Integer(i) => i64::MIN <= i <= i64::MAX,
        FrameModel::Null => true,
        FrameModel::Blob(b) => b.len() <= usize::MAX,
        FrameModel::Array(_) => false,
    }
}

/// A frame that the wire can carry: a simple frame, or an array of them.
pub open spec fn wire_frame(f: FrameModel) -> bool {
    match f {
        FrameModel::Array(items) => items.len() <= usize::MAX && forall|i: int|
            0 <= i < items.len() ==> simple_frame(#[trigger] items[i]),
        _ => simple_frame(f),
    }
}

/// The tag byte a frame is written with.
pub open spec fn tag_of(f: FrameModel) -> u8 {
    match f {
        FrameModel::String(_) => 36u8,
        FrameModel::Integer(_) => 37u8,
        FrameModel::Error(_) => 33u8,
        FrameModel::Null => 42u8,
        FrameModel::Blob(_) => 42u8,
        FrameModel::Array(_) => 35u8,
    }
}

/// What a frame's first line holds after its tag.
pub open spec fn head_of(f: FrameModel) -> Seq<u8> {
    match f {
        FrameModel::String(s) => encode_utf8(s),
        FrameModel::Integer(i) => integer_text(i),
        FrameModel::Error(s) => encode_utf8(s),
        FrameModel::Null => null_length(),
        FrameModel::Blob(b) => decimal_digits(b.len()),
        FrameModel::Array(items) => decimal_digits(items.len()),
    }
}

/// What a frame holds after its first line.
pub open spec fn tail_of(f: FrameModel) -> Seq<u8> {
    match f {
        FrameModel::Null => crlf(),
        FrameModel::Blob(b) => b + crlf(),
        FrameModel::Array(items) => encode_all(items),
        _ => Seq::empty(),
    }
}

proof fn lemma_encode_parts(f: FrameModel)
    ensures
        encode(f) == seq![tag_of(f)] + head_of(f) + crlf() + tail_of(f),
{
    assert(encode(f) =~= seq![tag_of(f)] + head_of(f) + crlf() + tail_of(f));
}

/// The head of a wire frame holds no CRLF and its tag is no CR.
proof fn lemma_head_clean(f: FrameModel)
    requires
        simple_frame(f) || f is Array,
    ensures
        no_crlf(head_of(f)),
        tag_of(f) != 13u8,
{
    match f {
        FrameModel::Integer(i) => {
            lemma_integer_text(i);
        },
        FrameModel::Blob(b) => {
            lemma_decimal_text(b.len());
        },
        FrameModel::Array(items) => {
            lemma_decimal_text(items.len());
        },
        _ => {},
    }
}

/// A frame's first line ends right after its head.
proof fn lemma_header_line(buf: Seq<u8>, pos: int, tag: u8, head: Seq<u8>)
    requires
        0 <= pos,
        pos + head.len() + 3 <= buf.len(),
        buf[pos] == tag,
        tag != 13u8,
        buf.subrange(pos + 1, pos + 1 + head.len()) == head,
        buf[pos + 1 + head.len()] == 13u8,
        buf[pos + 2 + head.len()] == 10u8,
        no_crlf(head),
    ensures
        has_line(buf, pos),
        line_end(buf, pos) == pos + 1 + head.len(),
{
    let e = pos + 1 + head.len();
    assert forall|j: int| pos <= j < e implies !crlf_at(buf, j) by {
        if j > pos && j + 1 < e {
            let k = j - pos - 1;
            assert(buf[j] == head[k]);
            assert(buf[j + 1] == head[k + 1]);
            assert(!(head[k] == 13u8 && head[k + 1] == 10u8));
        }
    }
    lemma_line_end_unique(buf, pos, e);
}

/// A first line cut before its CRLF is no line yet.
proof fn lemma_header_cut(buf: Seq<u8>, pos: int, tag: u8, head: Seq<u8>)
    requires
        0 <= pos < buf.len(),
        buf.len() <= pos + head.len() + 2,
        buf[pos] == tag,
        tag != 13u8,
        forall|j: int| pos + 1 <= j < buf.len() && j < pos + 1 + head.len() ==> buf[j] == head[j - pos - 1],
        pos + 1 + head.len() < buf.len() ==> buf[pos + 1 + head.len()] == 13u8,
        no_crlf(head),
    ensures
        !has_line(buf, pos),
{
    if has_line(buf, pos) {
        let i = choose|i: int| is_line_end(buf, pos, i);
        assert(crlf_at(buf, i));
        if i > pos && i + 1 < pos + 1 + head.len() {
            let k = i - pos - 1;
            assert(buf[i] == head[k]);
            assert(buf[i + 1] == head[k + 1]);
            assert(!(head[k] == 13u8 && head[k + 1] == 10u8));
        }
    }
}

/// The head of a frame reads back as what it was written from.
proof fn lemma_head_reads(f: FrameModel)
    requires
        wire_frame(f),
    ensures
        f matches FrameModel::String(s) ==> valid_utf8(head_of(f)) && decode_utf8(head_of(f)) == s,
        f matches FrameModel::Error(s) ==> valid_utf8(head_of(f)) && decode_utf8(head_of(f)) == s,
        f matches FrameModel::Integer(i) ==> leading_integer(head_of(f)) == Some(i)
            && digit_run(head_of(f), sign_len(head_of(f))) > 0,
        f matches FrameModel::Blob(b) ==> leading_integer(head_of(f)) == Some(b.len() as int)
            && head_of(f) != null_length() && digit_run(head_of(f), sign_len(head_of(f))) > 0,
        f matches FrameModel::Array(items) ==> leading_integer(head_of(f)) == Some(
            items.len() as int,
        ) && digit_run(head_of(f), sign_len(head_of(f))) > 0,
{
    match f {
        FrameModel::Integer(i) => {
            lemma_integer_text(i);
        },
        FrameModel::Blob(b) => {
            lemma_decimal_text(b.len());
            assert(is_digit(head_of(f)[0]));
        },
        FrameModel::Array(items) => {
            lemma_decimal_text(items.len());
        },
        _ => {},
    }
}

/// The bytes of a list of frames: the first one's, then the rest's.
proof fn lemma_encode_all_first(items: Seq<FrameModel>)
    requires
        items.len() > 0,
    ensures
        encode_all(items) == encode(items[0]) + encode_all(items.drop_first()),
    decreases items.len(),
{
    if items.len() == 1 {
        assert(items.drop_last() =~= Seq::<FrameModel>::empty());
        assert(items.drop_first() =~= Seq::<FrameModel>::empty());
        assert(encode_all(items) =~= encode(items[0]) + encode_all(items.drop_first()));
    } else {
        lemma_encode_all_first(items.drop_last());
        assert(items.drop_last().drop_first() =~= items.drop_first().drop_last());
        assert(items.drop_first().last() == items.last());
        assert(items.drop_last()[0] == items[0]);
        assert(encode_all(items) =~= encode(items[0]) + encode_all(items.drop_first()));
    }
}

proof fn lemma_encode_nonempty(f: FrameModel)
    ensures
        encode(f).len() >= 3,
{
    lemma_encode_parts(f);
}

/// A simple frame written at `pos` reads back from there.
proof fn lemma_parse_simple(buf: Seq<u8>, pos: int, f: FrameModel)
    requires
        simple_frame(f),
        0 <= pos,
        pos + encode(f).len() <= buf.len(),
        buf.subrange(pos, pos + encode(f).len()) == encode(f),
    ensures
        parse_at(buf, pos) == (Ok::<FrameModel, ParseError>(f), pos + encode(f).len()),
{
    lemma_encode_parts(f);
    lemma_head_clean(f);
    lemma_head_reads(f);
    let h = head_of(f);
    let enc = encode(f);
    assert(buf[pos] == enc[0]);
    assert forall|j: int| 0 <= j < h.len() implies buf[pos + 1 + j] == h[j] by {
        assert(buf[pos + 1 + j] == enc[1 + j]);
    }
    assert(buf.subrange(pos + 1, pos + 1 + h.len()) =~= h);
    assert(buf[pos + 1 + h.len()] == enc[1 + h.len() as int]);
    assert(buf[pos + 2 + h.len()] == enc[2 + h.len() as int]);
    lemma_header_line(buf, pos, tag_of(f), h);
    if let FrameModel::Blob(b) = f {
        let next = pos + h.len() + 3;
        assert(buf.subrange(next, next + b.len()) =~= b) by {
            assert forall|j: int| 0 <= j < b.len() implies buf[next + j] == b[j] by {
                assert(buf[next + j] == enc[h.len() + 3 + j]);
            }
        }
    }
}

/// A list of simple frames written at `pos` reads back from there.
proof fn lemma_parse_items_written(buf: Seq<u8>, pos: int, items: Seq<FrameModel>)
    requires
        forall|i: int| 0 <= i < items.len() ==> simple_frame(#[trigger] items[i]),
        0 <= pos,
        pos + encode_all(items).len() <= buf.len(),
        buf.subrange(pos, pos + encode_all(items).len()) == encode_all(items),
    ensures
        parse_items(buf, pos, items.len()) == (
            Ok::<Seq<FrameModel>, ParseError>(items),
            pos + encode_all(items).len(),
        ),
    decreases items.len(),
{
    if items.len() > 0 {
        let f = items[0];
        let rest = items.drop_first();
        lemma_encode_all_first(items);
        let e0 = encode(f).len();
        lemma_encode_nonempty(f);
        assert(buf.subrange(pos, pos + e0) =~= encode(f)) by {
            assert forall|j: int| 0 <= j < e0 implies buf[pos + j] == encode(f)[j] by {
                assert(buf[pos + j] == encode_all(items)[j]);
            }
        }
        lemma_parse_simple(buf, pos, f);
        assert(buf.subrange(pos + e0, pos + e0 + encode_all(rest).len()) =~= encode_all(rest)) by {
            assert forall|j: int| 0 <= j < encode_all(rest).len() implies buf[pos + e0 + j]
                == encode_all(rest)[j] by {
                assert(buf[pos + e0 + j] == encode_all(items)[e0 + j]);
            }
        }
        assert forall|i: int| 0 <= i < rest.len() implies simple_frame(#[trigger] rest[i]) by {
            assert(rest[i] == items[i + 1]);
        }
        lemma_parse_items_written(buf, pos + e0, rest);
        assert(seq![f] + rest =~= items);
    } else {
        assert(items =~= Seq::<FrameModel>::empty());
    }
}

/// A wire frame written at `pos` reads back from there.
pub proof fn lemma_parse_written(buf: Seq<u8>, pos: int, f: FrameModel)
    requires
        wire_frame(f),
        0 <= pos,
        pos + encode(f).len() <= buf.len(),
        buf.subrange(pos, pos + encode(f).len()) == encode(f),
    ensures
        parse_at(buf, pos) == (Ok::<FrameModel, ParseError>(f), pos + encode(f).len()),
{
    if let FrameModel::Array(items) = f {
        lemma_encode_parts(f);
        lemma_head_clean(f);
        lemma_head_reads(f);
        let h = head_of(f);
        let enc = encode(f);
        assert(buf[pos] == enc[0]);
        assert forall|j: int| 0 <= j < h.len() implies buf[pos + 1 + j] == h[j] by {
            assert(buf[pos + 1 + j] == enc[1 + j]);
        }
        assert(buf.subrange(pos + 1, pos + 1 + h.len()) =~= h);
        assert(buf[pos + 1 + h.len()] == enc[1 + h.len() as int]);
        assert(buf[pos + 2 + h.len()] == enc[2 + h.len() as int]);
        lemma_header_line(buf, pos, tag_of(f), h);
        let next = pos + h.len() + 3;
        let body = encode_all(items);
        assert(buf.subrange(next, next + body.len()) =~= body) by {
            assert forall|j: int| 0 <= j < body.len() implies buf[next + j] == body[j] by {
                assert(buf[next + j] == enc[h.len() + 3 + j]);
            }
        }
        lemma_parse_items_written(buf, next, items);
    } else {
        lemma_parse_simple(buf, pos, f);
    }
}

/// Round trip: a wire frame, written and then read, is the same frame, and
/// the reading stops right after it, whatever bytes follow.
pub proof fn lemma_round_trip(f: FrameModel, rest: Seq<u8>)
    requires
        wire_frame(f),
    ensures
        parse_at(encode(f) + rest, 0) == (Ok::<FrameModel, ParseError>(f), encode(f).len() as int),
{
    let buf = encode(f) + rest;
    assert(buf.subrange(0, encode(f).len() as int) =~= encode(f));
    lemma_parse_written(buf, 0, f);
}

/// A simple frame cut short at `pos` reads as incomplete and does not move.
proof fn lemma_parse_cut_simple(buf: Seq<u8>, pos: int, f: FrameModel)
    requires
        simple_frame(f) || f is Array,
        0 <= pos <= buf.len(),
        buf.len() < pos + encode(f).len(),
        forall|j: int| pos <= j < buf.len() ==> #[trigger] buf[j] == encode(f)[j - pos],
    ensures
        f !is Array ==> parse_at(buf, pos) == (
            Err::<FrameModel, ParseError>(ParseError::IncompleteFrame),
            pos,
        ),
        f is Array ==> {
            ||| parse_at(buf, pos) == (
                Err::<FrameModel, ParseError>(ParseError::IncompleteFrame),
                pos,
            )
            ||| pos + head_of(f).len() + 3 <= buf.len() && has_line(buf, pos) && line_end(buf, pos)
                == pos + 1 + head_of(f).len() && buf.subrange(pos + 1, pos + 1 + head_of(f).len())
                == head_of(f)
        },
{
    lemma_encode_parts(f);
    lemma_head_clean(f);
    let h = head_of(f);
    let enc = encode(f);
    if pos == buf.len() {
        if has_line(buf, pos) {
            let i = choose|i: int| is_line_end(buf, pos, i);
        }
    } else if buf.len() <= pos + h.len() + 2 {
        assert(buf[pos] == enc[0]);
        assert forall|j: int| pos + 1 <= j < buf.len() && j < pos + 1 + h.len() implies buf[j]
            == h[j - pos - 1] by {
            assert(buf[j] == enc[j - pos]);
        }
        if pos + 1 + h.len() < buf.len() {
            assert(buf[pos + 1 + h.len()] == enc[1 + h.len() as int]);
        }
        lemma_header_cut(buf, pos, tag_of(f), h);
    } else {
        assert(buf[pos] == enc[0]);
        assert forall|j: int| 0 <= j < h.len() implies buf[pos + 1 + j] == h[j] by {
            assert(buf[pos + 1 + j] == enc[1 + j]);
        }
        assert(buf.subrange(pos + 1, pos + 1 + h.len()) =~= h);
        assert(buf[pos + 1 + h.len()] == enc[1 + h.len() as int]);
        assert(buf[pos + 2 + h.len()] == enc[2 + h.len() as int]);
        lemma_header_line(buf, pos, tag_of(f), h);
        if f !is Array {
            lemma_head_reads(f);
        }
    }
}

/// Simple frames written from `pos` and cut short read as incomplete.
proof fn lemma_parse_items_cut(buf: Seq<u8>, pos: int, items: Seq<FrameModel>)
    requires
        forall|i: int| 0 <= i < items.len() ==> simple_frame(#[trigger] items[i]),
        0 <= pos <= buf.len(),
        buf.len() < pos + encode_all(items).len(),
        forall|j: int| pos <= j < buf.len() ==> #[trigger] buf[j] == encode_all(items)[j - pos],
    ensures
        parse_items(buf, pos, items.len()).0 == Err::<Seq<FrameModel>, ParseError>(
            ParseError::IncompleteFrame,
        ),
    decreases items.len(),
{
    if items.len() == 0 {
        assert(encode_all(items).len() == 0);
    } else {
        let f = items[0];
        let rest = items.drop_first();
        lemma_encode_all_first(items);
        let e0 = encode(f).len();
        lemma_encode_nonempty(f);
        if buf.len() < pos + e0 {
            assert forall|j: int| pos <= j < buf.len() implies #[trigger] buf[j] == encode(f)[j
                - pos] by {
                assert(buf[j] == encode_all(items)[j - pos]);
            }
            lemma_parse_cut_simple(buf, pos, f);
        } else {
            assert(buf.subrange(pos, pos + e0) =~= encode(f)) by {
                assert forall|j: int| 0 <= j < e0 implies buf[pos + j] == encode(f)[j] by {
                    assert(buf[pos + j] == encode_all(items)[j]);
                }
            }
            lemma_parse_simple(buf, pos, f);
            assert forall|j: int| pos + e0 <= j < buf.len() implies #[trigger] buf[j]
                == encode_all(rest)[j - (pos + e0)] by {
                assert(buf[j] == encode_all(items)[j - pos]);
            }
            assert forall|i: int| 0 <= i < rest.len() implies simple_frame(#[trigger] rest[i]) by {
                assert(rest[i] == items[i + 1]);
            }
            lemma_parse_items_cut(buf, pos + e0, rest);
        }
    }
}

/// A wire frame cut short at `pos` reads as incomplete and does not move.
pub proof fn lemma_parse_cut(buf: Seq<u8>, pos: int, f: FrameModel)
    requires
        wire_frame(f),
        0 <= pos <= buf.len(),
        buf.len() < pos + encode(f).len(),
        forall|j: int| pos <= j < buf.len() ==> #[trigger] buf[j] == encode(f)[j - pos],
    ensures
        parse_at(buf, pos) == (Err::<FrameModel, ParseError>(ParseError::IncompleteFrame), pos),
{
    lemma_parse_cut_simple(buf, pos, f);
    if let FrameModel::Array(items) = f {
        if parse_at(buf, pos) != (
            Err::<FrameModel, ParseError>(ParseError::IncompleteFrame),
            pos,
        ) {
            lemma_encode_parts(f);
            lemma_head_reads(f);
            let h = head_of(f);
            let next = pos + h.len() + 3;
            let body = encode_all(items);
            assert forall|j: int| next <= j < buf.len() implies #[trigger] buf[j] == body[j
                - next] by {
                assert(buf[j] == encode(f)[j - pos]);
            }
            lemma_parse_items_cut(buf, next, items);
        }
    }
}

/// Every frame cut short reads as incomplete, and the cursor stays at the
/// start.
pub proof fn lemma_cut_short(f: FrameModel, k: int)
    requires
        wire_frame(f),
        0 <= k < encode(f).len(),
    ensures
        parse_at(encode(f).subrange(0, k), 0) == (
            Err::<FrameModel, ParseError>(ParseError::IncompleteFrame),
            0int,
        ),
{
    lemma_parse_cut(encode(f).subrange(0, k), 0, f);
}

/// What a frame's first line holds has no CRLF.
proof fn lemma_line_clean(buf: Seq<u8>, pos: int)
    requires
        0 <= pos,
        has_line(buf, pos),
    ensures
        line_end(buf, pos) > pos ==> no_crlf(buf.subrange(pos + 1, line_end(buf, pos))),
{
    let e = line_end(buf, pos);
    assert(is_line_end(buf, pos, e));
    if e > pos {
        let body = buf.subrange(pos + 1, e);
        assert forall|j: int| 0 <= j < body.len() - 1 implies !(body[j] == 13u8 && #[trigger] body[j
            + 1] == 10u8) by {
            assert(pos <= pos + 1 + j < e);
            assert(!crlf_at(buf, pos + 1 + j));
            assert(body[j] == buf[pos + 1 + j]);
            assert(body[j + 1] == buf[pos + 2 + j]);
        }
    }
}

/// A frame read once, if not an array, is simple.
proof fn lemma_parsed_simple(buf: Seq<u8>, pos: int)
    requires
        0 <= pos,
        parse_at(buf, pos).0 matches Ok(f) && f !is Array,
    ensures
        parse_at(buf, pos).0 matches Ok(f) && simple_frame(f),
{
    lemma_line_clean(buf, pos);
    let e = line_end(buf, pos);
    let body = buf.subrange(pos + 1, e);
    if valid_utf8(body) {
        vstd::utf8::decode_utf8_encode_utf8(body);
    }
}

/// Array items read once are simple frames, as many as were asked for.
proof fn lemma_parsed_items(buf: Seq<u8>, pos: int, count: nat)
    requires
        0 <= pos,
        parse_items(buf, pos, count).0 is Ok,
    ensures
        parse_items(buf, pos, count).0 matches Ok(fs) && fs.len() == count && forall|i: int|
            0 <= i < fs.len() ==> simple_frame(#[trigger] fs[i]),
    decreases count,
{
    if count > 0 {
        let (first, after) = parse_at(buf, pos);
        lemma_parsed_simple(buf, pos);
        lemma_parsed_items(buf, after, (count - 1) as nat);
        let f = first->Ok_0;
        let fs = parse_items(buf, after, (count - 1) as nat).0->Ok_0;
        let all = seq![f] + fs;
        assert forall|i: int| 0 <= i < all.len() implies simple_frame(#[trigger] all[i]) by {
            if i > 0 {
                assert(all[i] == fs[i - 1]);
            }
        }
    }
}

/// Every frame read once is a wire frame: written back, it reads as the
/// same frame again.
pub proof fn lemma_read_write_read(buf: Seq<u8>, pos: int)
    requires
        0 <= pos,
        parse_at(buf, pos).0 is Ok,
    ensures
        parse_at(buf, pos).0 matches Ok(f) && wire_frame(f) && parse_at(encode(f), 0) == (
            Ok::<FrameModel, ParseError>(f),
            encode(f).len() as int,
        ),
{
    let f = parse_at(buf, pos).0->Ok_0;
    if f is Array {
        let e = line_end(buf, pos);
        let body = buf.subrange(pos + 1, e);
        let n = header_number(body, 0, usize::MAX as int)->Some_0;
        lemma_parsed_items(buf, e + 2, n as nat);
    } else {
        lemma_parsed_simple(buf, pos);
    }
    lemma_round_trip(f, Seq::empty());
    assert(encode(f) + Seq::<u8>::empty() =~= encode(f));
}

/// Array items read once end no earlier than they start.
proof fn lemma_items_end(buf: Seq<u8>, q: int, count: nat)
    requires
        parse_items(buf, q, count).0 is Ok,
    ensures
        parse_items(buf, q, count).1 >= q,
    decreases count,
{
    if count > 0 {
        let a = parse_at(buf, q).1;
        lemma_items_end(buf, a, (count - 1) as nat);
    }
}

/// A frame read from `pos` reads the same from any prefix of the bytes that
/// holds it whole, and as incomplete (not moving) from any shorter one.
proof fn lemma_prefix_at(buf: Seq<u8>, pos: int, k: int)
    requires
        0 <= pos <= k <= buf.len(),
        parse_at(buf, pos).0 is Ok,
    ensures
        k < parse_at(buf, pos).1 ==> parse_at(buf.subrange(0, k), pos) == (
            Err::<FrameModel, ParseError>(ParseError::IncompleteFrame),
            pos,
        ),
        k >= parse_at(buf, pos).1 ==> parse_at(buf.subrange(0, k), pos) == parse_at(buf, pos),
    decreases buf.len() - pos, 0int,
{
    let p = buf.subrange(0, k);
    let e = line_end(buf, pos);
    let next = e + 2;
    assert(is_line_end(buf, pos, e));
    if k < next {
        if has_line(p, pos) {
            let j = choose|j: int| is_line_end(p, pos, j);
            assert(crlf_at(p, j));
            assert(p[j] == buf[j] && p[j + 1] == buf[j + 1]);
            assert(crlf_at(buf, j));
        }
        if buf[pos] == 35u8 {
            let body = buf.subrange(pos + 1, e);
            let n = header_number(body, 0, usize::MAX as int)->Some_0;
            lemma_items_end(buf, next, n as nat);
        }
    } else {
        assert forall|j: int| pos <= j < e implies !crlf_at(p, j) by {
            assert(p[j] == buf[j] && p[j + 1] == buf[j + 1]);
            assert(!crlf_at(buf, j));
        }
        assert(crlf_at(p, e));
        lemma_line_end_unique(p, pos, e);
        assert(p.subrange(pos + 1, e) =~= buf.subrange(pos + 1, e));
        assert(p[pos] == buf[pos]);
        let body = buf.subrange(pos + 1, e);
        if buf[pos] == 42u8 && body != null_length() {
            let n = header_number(body, 0, usize::MAX as int)->Some_0;
            if k >= next + n + 2 {
                assert(p.subrange(next, next + n) =~= buf.subrange(next, next + n));
            }
        }
        if buf[pos] == 35u8 {
            let n = header_number(body, 0, usize::MAX as int)->Some_0;
            lemma_prefix_items(buf, next, n as nat, k);
        }
    }
}

/// Array items read from `q` read the same from any prefix that holds them
/// whole, and as incomplete from any shorter one.
proof fn lemma_prefix_items(buf: Seq<u8>, q: int, count: nat, k: int)
    requires
        0 <= q <= k <= buf.len(),
        parse_items(buf, q, count).0 is Ok,
    ensures
        k < parse_items(buf, q, count).1 ==> parse_items(buf.subrange(0, k), q, count).0 == Err::<
            Seq<FrameModel>,
            ParseError,
        >(ParseError::IncompleteFrame),
        k >= parse_items(buf, q, count).1 ==> parse_items(buf.subrange(0, k), q, count)
            == parse_items(buf, q, count),
    decreases buf.len() - q, count + 1,
{
    let p = buf.subrange(0, k);
    if count > 0 {
        let a = parse_at(buf, q).1;
        lemma_prefix_at(buf, q, k);
        lemma_items_end(buf, a, (count - 1) as nat);
        if a <= k {
            lemma_prefix_items(buf, a, (count - 1) as nat, k);
        }
    }
}

/// The position never moves on an incomplete frame.
pub proof fn lemma_incomplete_stays(buf: Seq<u8>, pos: int)
    requires
        parse_at(buf, pos).0 == Err::<FrameModel, ParseError>(ParseError::IncompleteFrame),
    ensures
        parse_at(buf, pos).1 == pos,
{
}

/// Every proper prefix of bytes that hold a frame at `pos` is an
/// incomplete frame there: reading it from `pos` gives `IncompleteFrame` and
/// leaves the position at `pos`.
pub proof fn lemma_prefix_incomplete_at(buf: Seq<u8>, pos: int, k: int)
    requires
        parse_at(buf, pos).0 is Ok,
        0 <= pos <= k < parse_at(buf, pos).1,
    ensures
        parse_at(buf.subrange(0, k), pos) == (
            Err::<FrameModel, ParseError>(ParseError::IncompleteFrame),
            pos,
        ),
{
    let e = line_end(buf, pos);
    assert(is_line_end(buf, pos, e));
    if parse_at(buf, pos).1 > buf.len() {
        if buf[pos] == 35u8 {
            let body = buf.subrange(pos + 1, e);
            let n = header_number(body, 0, usize::MAX as int)->Some_0;
            lemma_items_bounded(buf, e + 2, n as nat);
        }
    }
    lemma_prefix_at(buf, pos, k);
}

/// Every proper prefix of bytes that hold a frame is an incomplete frame:
/// reading it gives `IncompleteFrame` and leaves the position at the start.
pub proof fn lemma_prefix_incomplete(buf: Seq<u8>, k: int)
    requires
        parse_at(buf, 0).0 is Ok,
        0 <= k < parse_at(buf, 0).1,
    ensures
        parse_at(buf.subrange(0, k), 0) == (
            Err::<FrameModel, ParseError>(ParseError::IncompleteFrame),
            0int,
        ),
{
    lemma_prefix_incomplete_at(buf, 0, k);
}

/// Array items read once end within the bytes.
proof fn lemma_items_bounded(buf: Seq<u8>, q: int, count: nat)
    requires
        q <= buf.len(),
        parse_items(buf, q, count).0 is Ok,
    ensures
        parse_items(buf, q, count).1 <= buf.len(),
    decreases count,
{
    if count > 0 {
        let a = parse_at(buf, q).1;
        lemma_items_bounded(buf, a, (count - 1) as nat);
    }
}

} // verus!
