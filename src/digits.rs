//! Decimal text: what a leading integer in a byte string means, how an
//! integer is written back, and the two facts that tie them together.

use vstd::prelude::*;

verus! {

/// An ASCII decimal digit.
pub open spec fn is_digit(b: u8) -> bool {
    48 <= b <= 57
}

/// How many ASCII digits follow one another in `t`, from `start` on.
pub open spec fn digit_run(t: Seq<u8>, start: int) -> nat
    decreases t.len() - start,
{
    if 0 <= start < t.len() && is_digit(t[start]) {
        1 + digit_run(t, start + 1)
    } else {
        0
    }
}

/// The number that a string of ASCII digits denotes in base ten.
pub open spec fn decimal_value(d: Seq<u8>) -> nat
    decreases d.len(),
{
    if d.len() == 0 {
        0
    } else {
        decimal_value(d.drop_last()) * 10 + (d.last() - 48) as nat
    }
}

/// One byte of sign, `+` or `-`, at the front of `t`, or none.
pub open spec fn sign_len(t: Seq<u8>) -> int {
    if t.len() > 0 && (t[0] == 43 || t[0] == 45) {
        1
    } else {
        0
    }
}

/// The integer at the front of `t`: an optional sign, then as many digits
/// as follow; whatever comes after them is ignored. Nothing is read when `t`
/// starts with neither a sign nor a digit. A sign alone reads as zero.
pub open spec fn leading_integer(t: Seq<u8>) -> Option<int> {
    let offset = sign_len(t);
    let n = digit_run(t, offset);
    if offset + n == 0 {
        None
    } else {
        let v = decimal_value(t.subrange(offset, offset + n)) as int;
        Some(if offset == 1 && t[0] == 45 { -v } else { v })
    }
}

/// The leading integer of `t`, where it lies in `lo ..= hi`.
pub open spec fn leading_integer_within(t: Seq<u8>, lo: int, hi: int) -> Option<int> {
    match leading_integer(t) {
        Some(v) => if lo <= v <= hi {
            Some(v)
        } else {
            None
        },
        None => None,
    }
}

/// A number in a frame header: the leading integer, where at least one
/// digit follows the optional sign (a sign alone is no number).
pub open spec fn header_number(t: Seq<u8>, lo: int, hi: int) -> Option<int> {
    if digit_run(t, sign_len(t)) == 0 {
        None
    } else {
        leading_integer_within(t, lo, hi)
    }
}

/// Whether a digit follows the optional sign at the front of `t`.
pub fn has_leading_digit(t: &[u8]) -> (r: bool)
    ensures
        r == (digit_run(t@, sign_len(t@)) > 0),
{
    let s: usize = if t.len() > 0 && (t[0] == 43u8 || t[0] == 45u8) {
        1
    } else {
        0
    };
    s < t.len() && 48u8 <= t[s] && t[s] <= 57u8
}

/// Relies on `atoi::atoi::<i64>`: it reads an optional sign and the digits
/// that follow, and gives `None` when it read nothing or the value leaves
/// the range of `i64`.
#[verifier::external_body]
pub(crate) fn leading_i64(text: &[u8]) -> (r: Option<i64>)
    ensures
        r matches Some(v) ==> leading_integer_within(text@, i64::MIN as int, i64::MAX as int)
            == Some(v as int),
        r is None ==> leading_integer_within(text@, i64::MIN as int, i64::MAX as int) is None,
{
    atoi::atoi::<i64>(text)
}

/// Relies on `atoi::atoi::<usize>`: as for `i64`, within the range of
/// `usize` (a minus sign then admits only zero).
#[verifier::external_body]
pub(crate) fn leading_usize(text: &[u8]) -> (r: Option<usize>)
    ensures
        r matches Some(v) ==> leading_integer_within(text@, 0, usize::MAX as int) == Some(
            v as int,
        ),
        r is None ==> leading_integer_within(text@, 0, usize::MAX as int) is None,
{
    atoi::atoi::<usize>(text)
}

/// The shortest decimal digits of `n`.
pub open spec fn decimal_digits(n: nat) -> Seq<u8>
    decreases n,
{
    if n < 10 {
        seq![(48 + n) as u8]
    } else {
        decimal_digits(n / 10).push((48 + n % 10) as u8)
    }
}

/// How an integer is written: a minus sign for a negative one, then the
/// digits of its magnitude.
pub open spec fn integer_text(i: int) -> Seq<u8> {
    if i < 0 {
        seq![45u8] + decimal_digits((-i) as nat)
    } else {
        decimal_digits(i as nat)
    }
}

/// Appends the decimal digits of `n` to `out`.
pub fn push_decimal(n: u64, out: &mut Vec<u8>)
    ensures
        final(out)@ == old(out)@ + decimal_digits(n as nat),
    decreases n,
{
    if n >= 10 {
        push_decimal(n / 10, out);
    }
    out.push((48 + n % 10) as u8);
    proof {
        if n < 10 {
            assert(decimal_digits(n as nat) == seq![(48 + n) as u8]);
        }
    }
    assert(final(out)@ =~= old(out)@ + decimal_digits(n as nat));
}

/// Appends the decimal text of `i` to `out`.
pub fn push_integer(i: i64, out: &mut Vec<u8>)
    ensures
        final(out)@ == old(out)@ + integer_text(i as int),
{
    if i < 0 {
        out.push(45u8);
        let magnitude: u64 = if i == i64::MIN {
            9223372036854775808u64
        } else {
            (-i) as u64
        };
        push_decimal(magnitude, out);
    } else {
        push_decimal(i as u64, out);
    }
    assert(final(out)@ =~= old(out)@ + integer_text(i as int));
}

/// Every byte of `decimal_digits(n)` is a digit, and together they denote `n`.
pub proof fn lemma_decimal_digits(n: nat)
    ensures
        decimal_digits(n).len() >= 1,
        forall|i: int| 0 <= i < decimal_digits(n).len() ==> is_digit(#[trigger] decimal_digits(n)[i]),
        decimal_value(decimal_digits(n)) == n,
    decreases n,
{
    let d = decimal_digits(n);
    if n < 10 {
        assert(d.drop_last() =~= Seq::<u8>::empty());
        assert(decimal_value(d) == decimal_value(d.drop_last()) * 10 + (d.last() - 48) as nat);
    } else {
        lemma_decimal_digits(n / 10);
        assert(d.drop_last() =~= decimal_digits(n / 10));
        assert(d.last() == (48 + n % 10) as u8);
        assert((n / 10) * 10 + n % 10 == n);
        assert(decimal_value(d) == decimal_value(d.drop_last()) * 10 + (d.last() - 48) as nat);
    }
}

/// Where only digits follow `start`, the run of digits is all of them.
pub proof fn lemma_digit_run_to_end(t: Seq<u8>, start: int)
    requires
        0 <= start <= t.len(),
        forall|i: int| start <= i < t.len() ==> is_digit(#[trigger] t[i]),
    ensures
        digit_run(t, start) == t.len() - start,
    decreases t.len() - start,
{
    if start < t.len() {
        lemma_digit_run_to_end(t, start + 1);
    }
}

/// Reading back what `integer_text` wrote gives the integer again.
pub proof fn lemma_integer_text(i: int)
    ensures
        leading_integer(integer_text(i)) == Some(i),
        integer_text(i).len() >= 1,
        forall|j: int| 0 <= j < integer_text(i).len() ==> #[trigger] integer_text(i)[j] != 13u8,
        integer_text(i)[0] != 45u8 ==> i >= 0,
        integer_text(i)[0] == 45u8 || is_digit(integer_text(i)[0]),
        digit_run(integer_text(i), sign_len(integer_text(i))) > 0,
{
    let t = integer_text(i);
    if i < 0 {
        let d = decimal_digits((-i) as nat);
        lemma_decimal_digits((-i) as nat);
        assert(forall|j: int| 1 <= j < t.len() ==> t[j] == d[j - 1]);
        lemma_digit_run_to_end(t, 1);
        assert(t.subrange(1, t.len() as int) =~= d);
    } else {
        let d = decimal_digits(i as nat);
        lemma_decimal_digits(i as nat);
        lemma_digit_run_to_end(t, 0);
        assert(t.subrange(0, t.len() as int) =~= d);
    }
}

/// Reading back the digits of a length gives the length again.
pub proof fn lemma_decimal_text(n: nat)
    ensures
        leading_integer(decimal_digits(n)) == Some(n as int),
        decimal_digits(n).len() >= 1,
        forall|j: int| 0 <= j < decimal_digits(n).len() ==> is_digit(#[trigger] decimal_digits(n)[j]),
        digit_run(decimal_digits(n), sign_len(decimal_digits(n))) > 0,
{
    lemma_integer_text(n as int);
    lemma_decimal_digits(n);
}

} // verus!
