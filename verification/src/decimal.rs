//! ASCII decimal numbers: what a run of digits denotes, how a number is
//! written, and that reading undoes writing.

use vstd::prelude::*;
use vstd::slice::slice_subrange;

verus! {

/// ASCII code of the digit `0`.
pub const ASCII_ZERO: u8 = 0x30;

/// ASCII code of the minus sign.
pub const ASCII_MINUS: u8 = 0x2d;

/// ASCII code of the plus sign.
pub const ASCII_PLUS: u8 = 0x2b;

/// `b` is one of the ASCII digits `0` to `9`.
pub open spec fn is_digit(b: u8) -> bool {
    0x30 <= b <= 0x39
}

/// Every byte of `s` is an ASCII digit.
pub open spec fn all_digits(s: Seq<u8>) -> bool {
    forall|i: int| 0 <= i < s.len() ==> is_digit(#[trigger] s[i])
}

/// The number that a run of ASCII digits denotes, most significant digit
/// first. Leading zeros change nothing; the empty run denotes zero.
pub open spec fn digits_value(s: Seq<u8>) -> nat
    decreases s.len(),
{
    if s.len() == 0 {
        0
    } else {
        digits_value(s.drop_last()) * 10 + (s.last() - 0x30) as nat
    }
}

/// The shortest run of ASCII digits that denotes `n`.
pub open spec fn decimal_digits(n: nat) -> Seq<u8>
    decreases n,
{
    if n < 10 {
        seq![(0x30 + n) as u8]
    } else {
        decimal_digits(n / 10).push((0x30 + n % 10) as u8)
    }
}

/// `v` written in decimal, with a leading minus sign when it is negative.
pub open spec fn signed_decimal(v: int) -> Seq<u8> {
    if v < 0 {
        seq![0x2du8] + decimal_digits((-v) as nat)
    } else {
        decimal_digits(v as nat)
    }
}

/// The digits of a signed decimal text, with the sign taken off.
pub open spec fn unsigned_part(s: Seq<u8>) -> Seq<u8> {
    if s.len() > 0 && (s[0] == 0x2d || s[0] == 0x2b) {
        s.skip(1)
    } else {
        s
    }
}

/// The number that a signed decimal text denotes: an optional `+` or `-`,
/// then one digit or more, with a value that a signed 64-bit integer holds.
/// Any other text denotes nothing.
pub open spec fn parse_signed(s: Seq<u8>) -> Option<int> {
    let digits = unsigned_part(s);
    let magnitude = digits_value(digits) as int;
    let value = if s.len() > 0 && s[0] == 0x2d {
        -magnitude
    } else {
        magnitude
    };
    if digits.len() == 0 || !all_digits(digits) {
        None
    } else if i64::MIN <= value <= i64::MAX {
        Some(value)
    } else {
        None
    }
}

/// A run of digits denotes at least what any of its prefixes denotes.
pub proof fn lemma_digits_value_prefix(s: Seq<u8>, k: int)
    requires
        0 <= k <= s.len(),
        all_digits(s),
    ensures
        digits_value(s.take(k)) <= digits_value(s),
    decreases s.len(),
{
    if k == s.len() {
        assert(s.take(k) =~= s);
    } else {
        let shorter = s.drop_last();
        assert(is_digit(s[s.len() - 1]));
        assert(forall|i: int| 0 <= i < shorter.len() ==> shorter[i] == s[i]);
        lemma_digits_value_prefix(shorter, k);
        assert(shorter.take(k) =~= s.take(k));
    }
}

/// One more digit at the end multiplies the value by ten and adds the digit.
pub proof fn lemma_digits_value_push(s: Seq<u8>, d: u8)
    ensures
        digits_value(s.push(d)) == digits_value(s) * 10 + (d - 0x30) as nat,
{
    assert(s.push(d).drop_last() =~= s);
}

/// The decimal text of `n` is a non-empty run of digits that denotes `n`,
/// and it has no leading zero unless `n` is zero.
pub proof fn lemma_decimal_digits(n: nat)
    ensures
        decimal_digits(n).len() >= 1,
        all_digits(decimal_digits(n)),
        digits_value(decimal_digits(n)) == n,
        n > 0 ==> decimal_digits(n)[0] != 0x30,
    decreases n,
{
    if n < 10 {
        let s = decimal_digits(n);
        assert(s.drop_last() =~= Seq::<u8>::empty());
        assert(digits_value(s.drop_last()) == 0);
    } else {
        lemma_decimal_digits(n / 10);
        let head = decimal_digits(n / 10);
        let d: u8 = (0x30 + n % 10) as u8;
        lemma_digits_value_push(head, d);
        assert(decimal_digits(n) == head.push(d));
        assert(decimal_digits(n)[0] == head[0]);
    }
}

/// Reading the decimal text of a signed 64-bit value gives the value back.
pub proof fn lemma_parse_signed_decimal(v: int)
    requires
        i64::MIN <= v <= i64::MAX,
    ensures
        parse_signed(signed_decimal(v)) == Some(v),
        signed_decimal(v).len() >= 1,
{
    if v < 0 {
        let digits = decimal_digits((-v) as nat);
        lemma_decimal_digits((-v) as nat);
        let s = signed_decimal(v);
        assert(s[0] == 0x2d);
        assert(unsigned_part(s) =~= digits);
    } else {
        lemma_decimal_digits(v as nat);
        let s = signed_decimal(v);
        assert(is_digit(s[0]));
        assert(unsigned_part(s) == s);
    }
}

/// No byte of a signed decimal text is `stop`, provided `stop` is neither a
/// digit nor the minus sign.
pub proof fn lemma_signed_decimal_avoids(v: int, stop: u8)
    requires
        !is_digit(stop),
        stop != 0x2d,
    ensures
        forall|i: int| 0 <= i < signed_decimal(v).len() ==> signed_decimal(v)[i] != stop,
{
    if v < 0 {
        lemma_decimal_digits((-v) as nat);
        let digits = decimal_digits((-v) as nat);
        assert forall|i: int| 0 <= i < signed_decimal(v).len() implies signed_decimal(v)[i]
            != stop by {
            if i > 0 {
                assert(signed_decimal(v)[i] == digits[i - 1]);
                assert(is_digit(digits[i - 1]));
            }
        }
    } else {
        lemma_decimal_digits(v as nat);
        assert forall|i: int| 0 <= i < signed_decimal(v).len() implies signed_decimal(v)[i]
            != stop by {
            assert(is_digit(decimal_digits(v as nat)[i]));
        }
    }
}

/// Whether every byte of `text` is an ASCII digit.
pub fn is_all_digits(text: &[u8]) -> (ok: bool)
    ensures
        ok == all_digits(text@),
{
    let mut i: usize = 0;
    while i < text.len()
        invariant
            i <= text@.len(),
            forall|j: int| 0 <= j < i ==> is_digit(#[trigger] text@[j]),
        decreases text@.len() - i,
    {
        let b: u8 = text[i];
        if b < 0x30 || b > 0x39 {
            assert(!is_digit(text@[i as int]));
            return false;
        }
        i += 1;
    }
    true
}

/// The value of a run of digits, or `None` when it does not fit in 64 bits.
pub(crate) fn parse_digits(text: &[u8]) -> (value: Option<u64>)
    requires
        all_digits(text@),
    ensures
        value == if digits_value(text@) <= u64::MAX {
            Some(digits_value(text@) as u64)
        } else {
            None
        },
{
    let mut acc: u64 = 0;
    let mut i: usize = 0;
    while i < text.len()
        invariant
            i <= text@.len(),
            all_digits(text@),
            acc == digits_value(text@.take(i as int)),
        decreases text@.len() - i,
    {
        let b: u8 = text[i];
        assert(is_digit(text@[i as int]));
        let d: u64 = (b - 0x30) as u64;
        proof {
            assert(text@.take(i + 1) =~= text@.take(i as int).push(b));
            lemma_digits_value_push(text@.take(i as int), b);
            lemma_digits_value_prefix(text@, i + 1);
        }
        if acc > (u64::MAX - d) / 10 {
            return None;
        }
        acc = acc * 10 + d;
        i += 1;
    }
    assert(text@.take(text@.len() as int) =~= text@);
    Some(acc)
}

/// Reads a signed decimal number: an optional `+` or `-`, then one digit
/// or more. There is none where the text has another form or the number
/// does not fit in 64 bits.
pub fn parse_i64(text: &[u8]) -> (value: Option<i64>)
    ensures
        match parse_signed(text@) {
            Some(v) => value == Some(v as i64),
            None => value is None,
        },
{
    let total: usize = text.len();
    if total == 0 {
        return None;
    }
    let first: u8 = text[0];
    let negative: bool = first == ASCII_MINUS;
    let from: usize = if first == ASCII_MINUS || first == ASCII_PLUS {
        1
    } else {
        0
    };
    let digits: &[u8] = slice_subrange(text, from, total);
    assert(unsigned_part(text@) =~= digits@);
    if from == total {
        return None;
    }
    if !is_all_digits(digits) {
        return None;
    }
    match parse_digits(digits) {
        None => None,
        Some(magnitude) => {
            if negative {
                if magnitude > 0x8000_0000_0000_0000 {
                    None
                } else if magnitude == 0x8000_0000_0000_0000 {
                    Some(i64::MIN)
                } else {
                    Some(-(magnitude as i64))
                }
            } else if magnitude > 0x7fff_ffff_ffff_ffff {
                None
            } else {
                Some(magnitude as i64)
            }
        },
    }
}

/// Appends the decimal text of `n` to `out`.
pub fn push_decimal(out: &mut Vec<u8>, n: u64)
    ensures
        final(out)@ == old(out)@ + decimal_digits(n as nat),
    decreases n,
{
    if n >= 10 {
        push_decimal(out, n / 10);
    }
    let d: u8 = (n % 10) as u8;
    out.push(ASCII_ZERO + d);
    proof {
        if n >= 10 {
            assert(final(out)@ =~= old(out)@ + decimal_digits(n as nat));
        } else {
            assert(final(out)@ =~= old(out)@ + decimal_digits(n as nat));
        }
    }
}

/// Appends the decimal text of `v` to `out`, with a minus sign when `v` is
/// negative.
pub fn push_signed_decimal(out: &mut Vec<u8>, v: i64)
    ensures
        final(out)@ == old(out)@ + signed_decimal(v as int),
{
    if v < 0 {
        out.push(ASCII_MINUS);
        let magnitude: u64 = if v == i64::MIN {
            0x8000_0000_0000_0000
        } else {
            (-v) as u64
        };
        push_decimal(out, magnitude);
        assert(final(out)@ =~= old(out)@ + signed_decimal(v as int));
    } else {
        push_decimal(out, v as u64);
    }
}

} // verus!
