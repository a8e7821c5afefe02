//! Decimal formatting and parsing of integers, at the byte level.
//!
//! The token payload carries the subject id and the expiry timestamp as
//! decimal numerals inside a JSON object, so both directions are needed:
//! a formatter used when a token is issued and a parser used when one is
//! verified.

use vstd::prelude::*;

verus! {

/// ASCII code of a decimal digit.
pub open spec fn is_digit_byte(b: u8) -> bool {
    0x30 <= b <= 0x39
}

/// The decimal numeral of `n`, most significant digit first.
pub open spec fn dec_digits(n: nat) -> Seq<u8>
    decreases n,
{
    if n < 10 {
        seq![(0x30 + n) as u8]
    } else {
        dec_digits(n / 10) + seq![(0x30 + n % 10) as u8]
    }
}

/// The decimal numeral of `n`, with a leading minus sign when negative.
pub open spec fn dec_int(n: int) -> Seq<u8> {
    if n < 0 {
        seq![0x2Du8] + dec_digits((-n) as nat)
    } else {
        dec_digits(n as nat)
    }
}

/// Value of a sequence of digit bytes, read most significant first.
pub open spec fn dec_val(s: Seq<u8>) -> nat
    decreases s.len(),
{
    if s.len() == 0 {
        0
    } else {
        dec_val(s.drop_last()) * 10 + (if s.last() >= 0x30 { (s.last() - 0x30) as nat } else { 0 })
    }
}

pub open spec fn all_digits(s: Seq<u8>) -> bool {
    forall|i: int| 0 <= i < s.len() ==> is_digit_byte(#[trigger] s[i])
}

/// Reading back the numeral of `n` yields `n`; the numeral is never empty
/// and consists of digits only.
pub proof fn lemma_dec_digits_val(n: nat)
    ensures
        dec_val(dec_digits(n)) == n,
        all_digits(dec_digits(n)),
        1 <= dec_digits(n).len(),
    decreases n,
{
    if n < 10 {
        let s = dec_digits(n);
        assert(s =~= seq![(0x30 + n) as u8]);
        assert(s.drop_last() =~= Seq::<u8>::empty());
        assert(dec_val(s) == dec_val(s.drop_last()) * 10 + n);
    } else {
        lemma_dec_digits_val(n / 10);
        let s = dec_digits(n);
        assert(s =~= dec_digits(n / 10) + seq![(0x30 + n % 10) as u8]);
        assert(s.drop_last() =~= dec_digits(n / 10));
        assert(dec_val(s) == dec_val(dec_digits(n / 10)) * 10 + n % 10);
        assert(n / 10 * 10 + n % 10 == n);
    }
}

/// Appends the decimal numeral of `n` to `out`.
pub fn push_dec_u64(out: &mut Vec<u8>, n: u64)
    ensures
        final(out)@ == old(out)@ + dec_digits(n as nat),
    decreases n,
{
    if n < 10 {
        out.push(0x30 + (n as u8));
        assert(final(out)@ =~= old(out)@ + dec_digits(n as nat));
    } else {
        push_dec_u64(out, n / 10);
        out.push(0x30 + ((n % 10) as u8));
        assert(final(out)@ =~= old(out)@ + (dec_digits(n as nat / 10) + seq![
            (0x30 + n as nat % 10) as u8,
        ]));
    }
}

/// Appends the decimal numeral of `n`, sign included, to `out`.
pub fn push_dec_i64(out: &mut Vec<u8>, n: i64)
    ensures
        final(out)@ == old(out)@ + dec_int(n as int),
{
    if n < 0 {
        out.push(0x2D);
        let mag: u64 = if n == i64::MIN {
            9223372036854775808u64
        } else {
            (-n) as u64
        };
        assert(mag as nat == (-(n as int)) as nat);
        push_dec_u64(out, mag);
        assert(final(out)@ =~= old(out)@ + (seq![0x2Du8] + dec_digits((-(n as int)) as nat)));
    } else {
        push_dec_u64(out, n as u64);
    }
}

/// Length of the run of digit bytes at the front of `s`.
pub open spec fn digit_run(s: Seq<u8>) -> int
    decreases s.len(),
{
    if s.len() == 0 || !is_digit_byte(s[0]) {
        0
    } else {
        1 + digit_run(s.drop_first())
    }
}

/// Over a string of digits only, the run covers the whole string.
pub proof fn lemma_digit_run_all(d: Seq<u8>)
    requires
        all_digits(d),
    ensures
        digit_run(d) == d.len(),
    decreases d.len(),
{
    if d.len() > 0 {
        lemma_digit_run_all(d.drop_first());
    }
}

/// A digit run stops exactly at the first non-digit: if a digit string is
/// followed by a non-digit byte, the run over the whole covers the digits.
pub proof fn lemma_digit_run_of_digits(d: Seq<u8>, rest: Seq<u8>)
    requires
        all_digits(d),
        rest.len() > 0,
        !is_digit_byte(rest[0]),
    ensures
        digit_run(d + rest) == d.len(),
    decreases d.len(),
{
    if d.len() == 0 {
        assert(d + rest =~= rest);
    } else {
        assert((d + rest).drop_first() =~= d.drop_first() + rest);
        lemma_digit_run_of_digits(d.drop_first(), rest);
    }
}

} // verus!
