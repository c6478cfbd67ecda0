//! Writing frames: the canonical bytes of each frame, and the functions that
//! produce them.

use crate::blob::{bytes_as_slice, bytes_content};
use crate::digits::{decimal_digits, integer_text, push_decimal, push_integer};
use crate::frame::{models, Frame, FrameModel};
use bytes::Bytes;
use vstd::prelude::*;
use vstd::utf8::encode_utf8;

verus! {

pub open spec fn crlf() -> Seq<u8> {
    seq![13u8, 10u8]
}

/// The bytes of a null frame, `*-1\r\n\r\n`.
pub open spec fn null_bytes() -> Seq<u8> {
    seq![42u8, 45u8, 49u8, 13u8, 10u8, 13u8, 10u8]
}

/// The canonical bytes of a frame.
pub open spec fn encode(f: FrameModel) -> Seq<u8>
    decreases f,
{
    match f {
        FrameModel::String(s) => seq![36u8] + encode_utf8(s) + crlf(),
        FrameModel::Integer(i) => seq![37u8] + integer_text(i) + crlf(),
        FrameModel::Error(s) => seq![33u8] + encode_utf8(s) + crlf(),
        FrameModel::Null => null_bytes(),
        FrameModel::Blob(b) => seq![42u8] + decimal_digits(b.len()) + crlf() + b + crlf(),
        FrameModel::Array(items) => seq![35u8] + decimal_digits(items.len()) + crlf()
            + encode_all(items),
    }
}

/// The canonical bytes of frames written one after the other.
pub open spec fn encode_all(items: Seq<FrameModel>) -> Seq<u8>
    decreases items,
{
    if items.len() == 0 {
        Seq::empty()
    } else {
        encode_all(items.drop_last()) + encode(items.last())
    }
}

/// `models` keeps the length and takes each frame's model.
pub proof fn lemma_models(s: Seq<Frame>)
    ensures
        models(s).len() == s.len(),
        forall|i: int| 0 <= i < s.len() ==> #[trigger] models(s)[i] == s[i].model(),
    decreases s.len(),
{
    if s.len() > 0 {
        lemma_models(s.drop_last());
        assert forall|i: int| 0 <= i < s.len() implies #[trigger] models(s)[i] == s[i].model() by {
            if i < s.len() - 1 {
                assert(s.drop_last()[i] == s[i]);
            }
        }
    }
}

/// Appends the bytes of `src` to `out`.
fn push_all(out: &mut Vec<u8>, src: &[u8])
    ensures
        final(out)@ == old(out)@ + src@,
{
    let mut i: usize = 0;
    while i < src.len()
        invariant
            i <= src@.len(),
            out@ == old(out)@ + src@.subrange(0, i as int),
        decreases src@.len() - i,
    {
        out.push(src[i]);
        i = i + 1;
        assert(out@ =~= old(out)@ + src@.subrange(0, i as int));
    }
    assert(src@.subrange(0, i as int) =~= src@);
}

fn push_crlf(out: &mut Vec<u8>)
    ensures
        final(out)@ == old(out)@ + crlf(),
{
    out.push(13u8);
    out.push(10u8);
    assert(final(out)@ =~= old(out)@ + crlf());
}

/// Appends a string frame holding `data`.
pub fn write_string(out: &mut Vec<u8>, data: &str)
    ensures
        final(out)@ == old(out)@ + encode(FrameModel::String(data@)),
{
    out.push(36u8);
    push_all(out, data.as_bytes());
    push_crlf(out);
    assert(final(out)@ =~= old(out)@ + encode(FrameModel::String(data@)));
}

/// Appends an integer frame holding `data`.
pub fn write_integer(out: &mut Vec<u8>, data: i64)
    ensures
        final(out)@ == old(out)@ + encode(FrameModel::Integer(data as int)),
{
    out.push(37u8);
    push_integer(data, out);
    push_crlf(out);
    assert(final(out)@ =~= old(out)@ + encode(FrameModel::Integer(data as int)));
}

/// Appends an error frame holding `data`.
pub fn write_error(out: &mut Vec<u8>, data: &str)
    ensures
        final(out)@ == old(out)@ + encode(FrameModel::Error(data@)),
{
    out.push(33u8);
    push_all(out, data.as_bytes());
    push_crlf(out);
    assert(final(out)@ =~= old(out)@ + encode(FrameModel::Error(data@)));
}

/// Appends a null frame.
pub fn write_null(out: &mut Vec<u8>)
    ensures
        final(out)@ == old(out)@ + encode(FrameModel::Null),
{
    out.push(42u8);
    out.push(45u8);
    out.push(49u8);
    push_crlf(out);
    push_crlf(out);
    assert(final(out)@ =~= old(out)@ + null_bytes());
}

/// Appends a blob frame holding `data`.
pub fn write_blob(out: &mut Vec<u8>, data: &Bytes)
    ensures
        final(out)@ == old(out)@ + encode(FrameModel::Blob(bytes_content(*data))),
{
    let payload = bytes_as_slice(data);
    out.push(42u8);
    push_decimal(payload.len() as u64, out);
    push_crlf(out);
    push_all(out, payload);
    push_crlf(out);
    assert(final(out)@ =~= old(out)@ + encode(FrameModel::Blob(bytes_content(*data))));
}

/// Appends the canonical bytes of `frame`.
pub fn write_frame(out: &mut Vec<u8>, frame: &Frame)
    ensures
        final(out)@ == old(out)@ + encode(frame.model()),
    decreases frame,
{
    match frame {
        Frame::String(s) => write_string(out, s.as_str()),
        Frame::Integer(i) => write_integer(out, *i),
        Frame::Error(s) => write_error(out, s.as_str()),
        Frame::Null => write_null(out),
        Frame::Blob(b) => write_blob(out, b),
        Frame::Array(items) => {
            let ghost ms = models(items@);
            proof {
                lemma_models(items@);
            }
            out.push(35u8);
            push_decimal(items.len() as u64, out);
            push_crlf(out);
            let ghost head = out@;
            let mut i: usize = 0;
            while i < items.len()
                invariant
                    i <= items@.len(),
                    *frame == Frame::Array(*items),
                    ms == models(items@),
                    ms.len() == items@.len(),
                    forall|j: int| 0 <= j < items@.len() ==> #[trigger] ms[j] == items@[j].model(),
                    out@ == head + encode_all(ms.subrange(0, i as int)),
                decreases items@.len() - i,
            {
                proof {
                    vstd::std_specs::vec::axiom_vec_index_decreases(*items, i as int);
                    assert(decreases_to!(*frame => frame->Array_0));
                }
                write_frame(out, &items[i]);
                proof {
                    let t = ms.subrange(0, i + 1);
                    assert(t.drop_last() =~= ms.subrange(0, i as int));
                    assert(t.last() == items@[i as int].model());
                }
                i = i + 1;
                assert(out@ =~= head + encode_all(ms.subrange(0, i as int)));
            }
            assert(ms.subrange(0, i as int) =~= ms);
            assert(final(out)@ =~= old(out)@ + encode(frame.model()));
        },
    }
}

/// The canonical bytes of `frame`.
pub fn serialize(frame: &Frame) -> (r: Vec<u8>)
    ensures
        r@ == encode(frame.model()),
{
    let mut out: Vec<u8> = Vec::new();
    write_frame(&mut out, frame);
    assert(out@ =~= encode(frame.model()));
    out
}

} // verus!
