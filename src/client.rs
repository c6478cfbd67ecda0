//! The interactive client's line reader: a typed line becomes the words of
//! a command, which go to the server as string frames in an array.

use crate::frame::{Frame, FrameModel};
use vstd::prelude::*;
use vstd::string::StrSliceExecFns;

verus! {

/// What `str::trim` makes of a line: the line without the Unicode white
/// space at either end.
pub uninterp spec fn trimmed(s: Seq<char>) -> Seq<char>;

/// Relies on `str::trim`: the result depends on the characters alone.
#[verifier::external_body]
fn trim(s: &str) -> (r: &str)
    ensures
        r@ == trimmed(s@),
{
    s.trim()
}

/// Relies on collecting characters into a `String`: it holds them in order.
#[verifier::external_body]
fn text_from_chars(chars: &[char]) -> (r: String)
    ensures
        r@ == chars@,
{
    chars.iter().collect()
}

/// The words read so far, the word being read, and whether a quote is open.
pub struct Lexer {
    pub words: Seq<Seq<char>>,
    pub word: Seq<char>,
    pub quoted: bool,
}

/// One character of a line. A double quote opens a word or closes it (an
/// empty quoted word counts); a space ends a word unless quoted; anything
/// else belongs to the current word.
pub open spec fn lex_step(st: Lexer, c: char) -> Lexer {
    if c == '"' && st.quoted {
        Lexer { words: st.words.push(st.word), word: Seq::empty(), quoted: false }
    } else if c == '"' {
        Lexer { quoted: true, ..st }
    } else if c == ' ' && st.quoted {
        Lexer { word: st.word.push(c), ..st }
    } else if c == ' ' {
        if st.word.len() > 0 {
            Lexer { words: st.words.push(st.word), word: Seq::empty(), quoted: false }
        } else {
            st
        }
    } else {
        Lexer { word: st.word.push(c), ..st }
    }
}

pub open spec fn lex(cs: Seq<char>) -> Lexer
    decreases cs.len(),
{
    if cs.len() == 0 {
        Lexer { words: Seq::empty(), word: Seq::empty(), quoted: false }
    } else {
        lex_step(lex(cs.drop_last()), cs.last())
    }
}

/// The words of a line, read after trimming it; a word still open at the
/// end counts when it is not empty.
pub open spec fn words_of(line: Seq<char>) -> Seq<Seq<char>> {
    let st = lex(trimmed(line));
    if st.word.len() > 0 {
        st.words.push(st.word)
    } else {
        st.words
    }
}

pub open spec fn texts_of(v: Seq<String>) -> Seq<Seq<char>> {
    Seq::new(v.len(), |i: int| v[i]@)
}

/// The words of `cmd`, each as a string frame.
pub fn tokenize_command(cmd: &str) -> (r: Vec<Frame>)
    ensures
        r@.len() == words_of(cmd@).len(),
        forall|i: int| 0 <= i < r@.len() ==> #[trigger] r@[i].model() == FrameModel::String(
            words_of(cmd@)[i],
        ),
{
    let line = trim(cmd);
    let n = line.unicode_len();
    let mut words: Vec<String> = Vec::new();
    let mut word: Vec<char> = Vec::new();
    let mut quoted = false;
    let mut i: usize = 0;
    assert(texts_of(words@) =~= Seq::<Seq<char>>::empty());
    assert(word@ =~= Seq::<char>::empty());
    assert(line@.subrange(0, 0) =~= Seq::<char>::empty());
    while i < n
        invariant
            n == line@.len(),
            i <= n,
            lex(line@.subrange(0, i as int)) == (Lexer { words: texts_of(words@), word: word@, quoted }),
        decreases n - i,
    {
        let c = line.get_char(i);
        let ghost before = Lexer { words: texts_of(words@), word: word@, quoted };
        if c == '"' && quoted {
            quoted = false;
            let w = text_from_chars(word.as_slice());
            words.push(w);
            word = Vec::new();
        } else if c == '"' && !quoted {
            quoted = true;
        } else if c == ' ' && quoted {
            word.push(c);
        } else if c == ' ' && !quoted {
            if word.len() > 0 {
                let w = text_from_chars(word.as_slice());
                words.push(w);
                word = Vec::new();
            }
        } else {
            word.push(c);
        }
        proof {
            let cs = line@.subrange(0, i + 1);
            assert(cs.drop_last() =~= line@.subrange(0, i as int));
            assert(cs.last() == c);
            assert(texts_of(words@) =~= lex_step(before, c).words);
            assert(word@ =~= lex_step(before, c).word);
        }
        i = i + 1;
    }
    assert(line@.subrange(0, n as int) =~= line@);
    if word.len() > 0 {
        let w = text_from_chars(word.as_slice());
        words.push(w);
    }
    let ghost ws = texts_of(words@);
    assert(ws =~= words_of(cmd@));
    let mut frames: Vec<Frame> = Vec::new();
    let mut j: usize = 0;
    while j < words.len()
        invariant
            ws == texts_of(words@),
            j <= words@.len(),
            frames@.len() == j,
            forall|k: int| 0 <= k < j ==> #[trigger] frames@[k].model() == FrameModel::String(ws[k]),
        decreases words@.len() - j,
    {
        let w = words[j].clone();
        frames.push(Frame::String(w));
        j = j + 1;
    }
    frames
}

} // verus!
