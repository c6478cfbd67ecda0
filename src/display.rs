//! How the interactive client shows a reply: one line per array item, each
//! frame marked with its type.

use crate::blob::bytes_as_slice;
use crate::digits::{
    decimal_digits, integer_text, is_digit, lemma_decimal_digits, push_decimal, push_integer,
};
use crate::frame::{models, Frame, FrameModel};
use crate::text::decode_text;
use vstd::prelude::*;
use vstd::string::StringExecFns;
use vstd::utf8::{decode_utf8, encode_utf8, is_ascii_chars, valid_utf8};

verus! {

/// The message `std::str::from_utf8` gives for the first fault of a byte
/// string that is not UTF-8 (empty for one that is).
pub uninterp spec fn utf8_error_text(b: Seq<u8>) -> Seq<char>;

/// Relies on `std::str::from_utf8` and the text of its error.
#[verifier::external_body]
fn describe_utf8_error(b: &[u8]) -> (r: String)
    ensures
        r@ == utf8_error_text(b@),
{
    match std::str::from_utf8(b) {
        Ok(_) => String::new(),
        Err(e) => e.to_string(),
    }
}

/// ASCII bytes read as characters.
pub open spec fn ascii_chars(b: Seq<u8>) -> Seq<char> {
    b.map_values(|x: u8| x as char)
}

/// How a frame is shown.
pub open spec fn render(f: FrameModel) -> Seq<char>
    decreases f,
{
    match f {
        FrameModel::Array(items) => render_lines(items),
        FrameModel::Blob(b) => if valid_utf8(b) {
            "(blob) "@ + decode_utf8(b)
        } else {
            "(error) "@ + utf8_error_text(b)
        },
        FrameModel::Error(s) => "(error) "@ + s,
        FrameModel::Integer(i) => "(integer) "@ + ascii_chars(integer_text(i)),
        FrameModel::Null => "(null)"@,
        FrameModel::String(s) => "(string) "@ + s,
    }
}

/// The items of an array, one numbered line each, from 0.
pub open spec fn render_lines(items: Seq<FrameModel>) -> Seq<char>
    decreases items,
{
    if items.len() == 0 {
        Seq::empty()
    } else {
        render_lines(items.drop_last()) + ascii_chars(decimal_digits((items.len() - 1) as nat))
            + ") "@ + render(items.last()) + "\n"@
    }
}

proof fn lemma_integer_ascii(i: int)
    ensures
        forall|j: int|
            0 <= j < integer_text(i).len() ==> #[trigger] integer_text(i)[j] == 45u8 || is_digit(
                integer_text(i)[j],
            ),
{
    if i < 0 {
        lemma_decimal_digits((-i) as nat);
        let d = decimal_digits((-i) as nat);
        assert forall|j: int| 0 <= j < integer_text(i).len() implies #[trigger] integer_text(i)[j]
            == 45u8 || is_digit(integer_text(i)[j]) by {
            if j > 0 {
                assert(integer_text(i)[j] == d[j - 1]);
            }
        }
    } else {
        lemma_decimal_digits(i as nat);
    }
}

/// ASCII bytes as a string.
fn ascii_string(bytes: &Vec<u8>) -> (r: String)
    requires
        forall|j: int| 0 <= j < bytes@.len() ==> #[trigger] bytes@[j] == 45u8 || is_digit(bytes@[j]),
    ensures
        r@ == ascii_chars(bytes@),
{
    let ghost b = bytes@;
    let ghost c = ascii_chars(b);
    proof {
        assert(is_ascii_chars(c));
        vstd::utf8::is_ascii_chars_encode_utf8(c);
        assert(encode_utf8(c) =~= b);
        vstd::utf8::encode_utf8_valid_utf8(c);
        vstd::utf8::encode_utf8_decode_utf8(c);
    }
    match decode_text(bytes.as_slice()) {
        Some(s) => s,
        None => String::new(),
    }
}

/// The decimal text of `i`.
fn integer_string(i: i64) -> (r: String)
    ensures
        r@ == ascii_chars(integer_text(i as int)),
{
    let mut bytes: Vec<u8> = Vec::new();
    push_integer(i, &mut bytes);
    proof {
        assert(bytes@ =~= integer_text(i as int));
        lemma_integer_ascii(i as int);
    }
    ascii_string(&bytes)
}

/// The decimal digits of `n`.
fn count_string(n: usize) -> (r: String)
    ensures
        r@ == ascii_chars(decimal_digits(n as nat)),
{
    let mut bytes: Vec<u8> = Vec::new();
    push_decimal(n as u64, &mut bytes);
    proof {
        assert(bytes@ =~= decimal_digits(n as nat));
        lemma_decimal_digits(n as nat);
    }
    ascii_string(&bytes)
}

impl Frame {
    /// The frame as the interactive client shows it.
    pub fn render(&self) -> (r: String)
        ensures
            r@ == render(self.model()),
        decreases self,
    {
        match self {
            Frame::Array(items) => {
                let ghost ms = models(items@);
                proof {
                    crate::encode::lemma_models(items@);
                }
                let mut out = String::new();
                let mut i: usize = 0;
                while i < items.len()
                    invariant
                        i <= items@.len(),
                        *self == Frame::Array(*items),
                        ms == models(items@),
                        ms.len() == items@.len(),
                        forall|j: int| 0 <= j < items@.len() ==> #[trigger] ms[j] == items@[j].model(),
                        out@ == render_lines(ms.subrange(0, i as int)),
                    decreases items@.len() - i,
                {
                    proof {
                        vstd::std_specs::vec::axiom_vec_index_decreases(*items, i as int);
                        assert(decreases_to!(*self => self->Array_0));
                    }
                    let number = count_string(i);
                    let line = items[i].render();
                    out.append(number.as_str());
                    out.append(") ");
                    out.append(line.as_str());
                    out.append("\n");
                    proof {
                        let t = ms.subrange(0, i + 1);
                        assert(t.drop_last() =~= ms.subrange(0, i as int));
                        assert(t.last() == items@[i as int].model());
                    }
                    i = i + 1;
                    assert(out@ =~= render_lines(ms.subrange(0, i as int)));
                }
                assert(ms.subrange(0, i as int) =~= ms);
                out
            },
            Frame::Blob(data) => {
                let bytes = bytes_as_slice(data);
                match decode_text(bytes) {
                    Some(text) => {
                        let mut out = "(blob) ".to_owned();
                        out.append(text.as_str());
                        out
                    },
                    None => {
                        let mut err = "(error) ".to_owned();
                        let reason = describe_utf8_error(bytes);
                        err.append(reason.as_str());
                        err
                    },
                }
            },
            Frame::Error(text) => {
                let mut out = "(error) ".to_owned();
                out.append(text.as_str());
                out
            },
            Frame::Integer(v) => {
                let mut out = "(integer) ".to_owned();
                let digits = integer_string(*v);
                out.append(digits.as_str());
                out
            },
            Frame::Null => "(null)".to_owned(),
            Frame::String(text) => {
                let mut out = "(string) ".to_owned();
                out.append(text.as_str());
                out
            },
        }
    }
}

} // verus!
