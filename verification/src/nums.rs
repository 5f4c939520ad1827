//! Decimal rendering and parsing of timestamps, with a round trip proof.
use vstd::arithmetic::div_mod::lemma_fundamental_div_mod;
use vstd::prelude::*;

verus! {

/// Decimal digit bytes of `n`, most significant digit first.
pub open spec fn dec_digits(n: nat) -> Seq<u8>
    decreases n,
{
    if n < 10 {
        seq![(48 + n) as u8]
    } else {
        dec_digits(n / 10).push((48 + n % 10) as u8)
    }
}

pub open spec fn is_digit(b: u8) -> bool {
    48 <= b <= 57
}

/// Length of the longest prefix of `s` made of decimal digit bytes.
pub open spec fn digit_span(s: Seq<u8>) -> nat
    decreases s.len(),
{
    if s.len() > 0 && is_digit(s[0]) {
        (1 + digit_span(s.skip(1))) as nat
    } else {
        0
    }
}

/// Numeric value of a sequence of digit bytes.
pub open spec fn digits_val(d: Seq<u8>) -> nat
    decreases d.len(),
{
    if d.len() == 0 {
        0
    } else {
        (digits_val(d.drop_last()) * 10 + (d.last() - 48)) as nat
    }
}

/// Strict decimal number parse: a non-empty digit prefix without a leading
/// zero (except for "0" itself), returned with the unread remainder.
pub open spec fn parse_nat(s: Seq<u8>) -> Option<(nat, Seq<u8>)> {
    let k = digit_span(s);
    if k == 0 {
        None
    } else if s[0] == 48 && k > 1 {
        None
    } else {
        Some((digits_val(s.take(k as int)), s.skip(k as int)))
    }
}

pub proof fn lemma_dec_digits_shape(n: nat)
    ensures
        dec_digits(n).len() >= 1,
        forall|i: int| 0 <= i < dec_digits(n).len() ==> is_digit(#[trigger] dec_digits(n)[i]),
        n >= 1 ==> dec_digits(n)[0] != 48,
        n < 10 ==> dec_digits(n).len() == 1,
    decreases n,
{
    if n >= 10 {
        lemma_dec_digits_shape(n / 10);
    }
}

pub proof fn lemma_digit_span_append(d: Seq<u8>, rest: Seq<u8>)
    requires
        forall|i: int| 0 <= i < d.len() ==> is_digit(#[trigger] d[i]),
        rest.len() == 0 || !is_digit(rest[0]),
    ensures
        digit_span(d + rest) == d.len(),
    decreases d.len(),
{
    if d.len() == 0 {
        assert(d + rest =~= rest);
    } else {
        assert((d + rest).skip(1) =~= d.skip(1) + rest);
        lemma_digit_span_append(d.skip(1), rest);
    }
}

pub proof fn lemma_digits_val_of_dec(n: nat)
    ensures
        digits_val(dec_digits(n)) == n,
    decreases n,
{
    let d = dec_digits(n);
    if n < 10 {
        assert(d == seq![(48 + n) as u8]);
        assert(d.drop_last() =~= Seq::<u8>::empty());
        assert(digits_val(d) == (digits_val(d.drop_last()) * 10 + (d.last() - 48)) as nat);
    } else {
        lemma_digits_val_of_dec(n / 10);
        lemma_fundamental_div_mod(n as int, 10);
        assert(d.drop_last() =~= dec_digits(n / 10));
        assert(digits_val(d) == (digits_val(d.drop_last()) * 10 + (d.last() - 48)) as nat);
    }
}

/// Round trip: rendering `n` and then parsing it back, in front of any
/// remainder that does not begin with a digit, yields `n` and the remainder.
pub proof fn lemma_parse_nat_roundtrip(n: nat, rest: Seq<u8>)
    requires
        rest.len() == 0 || !is_digit(rest[0]),
    ensures
        parse_nat(dec_digits(n) + rest) == Some((n, rest)),
{
    let d = dec_digits(n);
    lemma_dec_digits_shape(n);
    lemma_digit_span_append(d, rest);
    assert((d + rest).take(d.len() as int) =~= d);
    assert((d + rest).skip(d.len() as int) =~= rest);
    lemma_digits_val_of_dec(n);
}

/// Appending one digit multiplies the value by ten and adds the digit.
pub proof fn lemma_digits_val_step(s: Seq<u8>, i: int)
    requires
        0 <= i < s.len(),
        is_digit(s[i]),
    ensures
        digits_val(s.take(i + 1)) == digits_val(s.take(i)) * 10 + (s[i] - 48),
{
    let t = s.take(i + 1);
    assert(t.len() == i + 1 > 0);
    assert(digits_val(t) == (digits_val(t.drop_last()) * 10 + (t.last() - 48)) as nat);
    assert(t.drop_last() =~= s.take(i));
    assert(t.last() == s[i]);
}

/// A longer digit prefix never has a smaller value.
pub proof fn lemma_digits_val_monotone(s: Seq<u8>, i: int, j: int)
    requires
        0 <= i <= j <= s.len(),
        forall|k: int| 0 <= k < s.len() ==> is_digit(#[trigger] s[k]),
    ensures
        digits_val(s.take(i)) <= digits_val(s.take(j)),
    decreases j - i,
{
    if i < j {
        lemma_digits_val_step(s, j - 1);
        lemma_digits_val_monotone(s, i, j - 1);
    }
}

/// Renders `n` in decimal, most significant digit first.
pub fn format_u64(n: u64) -> (r: Vec<u8>)
    ensures
        r@ == dec_digits(n as nat),
    decreases n,
{
    if n < 10 {
        let mut v: Vec<u8> = Vec::new();
        v.push(48 + (n as u8));
        v
    } else {
        let mut v: Vec<u8> = format_u64(n / 10);
        v.push(48 + ((n % 10) as u8));
        v
    }
}

} // verus!
