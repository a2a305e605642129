//! Decimal numbers as they appear on the wire: the digits written for a
//! length or an integer, and the `atoi` reading of such digits.

use vstd::prelude::*;

verus! {

/// True for the ASCII digits `0`..`9`.
pub open spec fn is_digit(b: u8) -> bool {
    48 <= b && b <= 57
}

/// The number of consecutive ASCII digits in `s` from index `i` on.
pub open spec fn digit_run(s: Seq<u8>, i: int) -> nat
    decreases s.len() - i,
{
    if 0 <= i < s.len() && is_digit(s[i]) {
        1 + digit_run(s, i + 1)
    } else {
        0
    }
}

/// The value of a sequence of ASCII digits, most significant digit first.
pub open spec fn digits_value(d: Seq<u8>) -> nat
    decreases d.len(),
{
    if d.len() == 0 {
        0
    } else {
        digits_value(d.drop_last()) * 10 + (d.last() - 48) as nat
    }
}

/// What `atoi::atoi::<u64>` returns for `text`: an optional `+` or `-`
/// sign, then the longest run of ASCII digits; anything after the run is
/// ignored. `None` when neither a sign nor a digit starts the text, when the
/// value does not fit in a `u64`, or when a `-` precedes a nonzero value.
pub open spec fn atoi_u64_spec(text: Seq<u8>) -> Option<u64> {
    let signed = text.len() > 0 && (text[0] == 43u8 || text[0] == 45u8);
    let start: int = if signed { 1 } else { 0 };
    let end: int = start + digit_run(text, start);
    let value = digits_value(text.subrange(start, end));
    if end == 0 {
        None
    } else if signed && text[0] == 45u8 {
        if value == 0 { Some(0u64) } else { None }
    } else if value <= u64::MAX {
        Some(value as u64)
    } else {
        None
    }
}

/// The decimal digits of `v`, without leading zeros (`0` is written `0`).
pub open spec fn decimal_digits(v: nat) -> Seq<u8>
    decreases v,
{
    if v < 10 {
        seq![(48 + v) as u8]
    } else {
        decimal_digits(v / 10).push((48 + v % 10) as u8)
    }
}

/// `atoi::atoi::<u64>`: reads an unsigned number from the start of `text`.
/// The contract restates the crate's code (`from_radix_10_signed_checked`
/// followed by the `(_, 0) | (None, _) => None` match of `atoi`).
#[verifier::external_body]
pub(crate) fn atoi_u64(text: &[u8]) -> (res: Option<u64>)
    ensures
        res == atoi_u64_spec(text@),
{
    atoi::atoi::<u64>(text)
}

/// Appends the decimal digits of `v` to `out`.
pub fn push_decimal(v: u128, out: &mut Vec<u8>)
    ensures
        final(out)@ == old(out)@ + decimal_digits(v as nat),
    decreases v,
{
    if v >= 10 {
        push_decimal(v / 10, out);
    }
    let d: u8 = (v % 10) as u8;
    out.push(48u8 + d);
    proof {
        assert(final(out)@ =~= old(out)@ + decimal_digits(v as nat));
    }
}

/// The digits of `v` are nonempty, all digits, and read back as `v`.
pub proof fn lemma_decimal_digits(v: nat)
    ensures
        decimal_digits(v).len() >= 1,
        forall|i: int| 0 <= i < decimal_digits(v).len() ==> is_digit(#[trigger] decimal_digits(v)[i]),
        digits_value(decimal_digits(v)) == v,
        v < 10 ==> decimal_digits(v).len() == 1,
    decreases v,
{
    let d = decimal_digits(v);
    if v >= 10 {
        lemma_decimal_digits(v / 10);
        assert(d.drop_last() =~= decimal_digits(v / 10));
        assert(d.last() == (48 + v % 10) as u8);
        assert((d.last() - 48) as nat == v % 10);
        assert((v / 10) * 10 + v % 10 == v) by (nonlinear_arith);
        assert(digits_value(d) == digits_value(d.drop_last()) * 10 + (d.last() - 48) as nat);
    } else {
        assert(d.drop_last() =~= Seq::<u8>::empty());
        assert(digits_value(d.drop_last()) == 0);
        assert(digits_value(d) == digits_value(d.drop_last()) * 10 + (d.last() - 48) as nat);
    }
}

/// A run of digits reaches the end of a sequence made of digits only.
pub proof fn lemma_digit_run_all(s: Seq<u8>, i: int)
    requires
        0 <= i <= s.len(),
        forall|j: int| i <= j < s.len() ==> is_digit(#[trigger] s[j]),
    ensures
        digit_run(s, i) == s.len() - i,
    decreases s.len() - i,
{
    if i < s.len() {
        lemma_digit_run_all(s, i + 1);
    }
}

/// `atoi` reads the written digits of a `u64` back as that number.
pub proof fn lemma_atoi_decimal(v: u64)
    ensures
        atoi_u64_spec(decimal_digits(v as nat)) == Some(v),
{
    let d = decimal_digits(v as nat);
    lemma_decimal_digits(v as nat);
    lemma_digit_run_all(d, 0);
    assert(is_digit(d[0]));
    assert(d.subrange(0, d.len() as int) =~= d);
}

} // verus!
