//! Decimal digits and the integers they denote.

use vstd::prelude::*;
use crate::text::chars_of;

verus! {

/// `c` is one of the ten decimal digits.
pub open spec fn is_digit(c: char) -> bool {
    '0' <= c && c <= '9'
}

/// The number that the digit `c` denotes.
pub open spec fn digit_value(c: char) -> nat {
    (c as int - '0' as int) as nat
}

/// Every character of `digits` is a decimal digit.
pub open spec fn all_digits(digits: Seq<char>) -> bool {
    forall|i: int| 0 <= i < digits.len() ==> is_digit(#[trigger] digits[i])
}

/// The number that a run of decimal digits denotes; the empty run denotes 0.
pub open spec fn decimal_value(digits: Seq<char>) -> nat
    decreases digits.len(),
{
    if digits.len() == 0 {
        0
    } else {
        decimal_value(digits.drop_last()) * 10 + digit_value(digits.last())
    }
}

/// Ten to the power `n`.
pub open spec fn pow10(n: nat) -> nat
    decreases n,
{
    if n == 0 {
        1
    } else {
        10 * pow10((n - 1) as nat)
    }
}

/// The integer that `text` denotes: an optional sign, `+` or `-`, then one or
/// more decimal digits and nothing else, with a value that fits in an `i64`.
pub open spec fn spec_integer(text: Seq<char>) -> Option<int> {
    let signed = text.len() > 0 && (text[0] == '-' || text[0] == '+');
    let digits = if signed {
        text.skip(1)
    } else {
        text
    };
    let value = if signed && text[0] == '-' {
        -(decimal_value(digits) as int)
    } else {
        decimal_value(digits) as int
    };
    if digits.len() > 0 && all_digits(digits) && i64::MIN <= value <= i64::MAX {
        Some(value)
    } else {
        None
    }
}

/// A power of ten is positive.
pub proof fn lemma_pow10_positive(n: nat)
    ensures
        pow10(n) > 0,
    decreases n,
{
    if n > 0 {
        lemma_pow10_positive((n - 1) as nat);
    }
}

/// Ten to a sum is the product of the powers.
pub proof fn lemma_pow10_adds(m: nat, n: nat)
    ensures
        pow10(m + n) == pow10(m) * pow10(n),
    decreases m,
{
    if m > 0 {
        lemma_pow10_adds((m - 1) as nat, n);
        assert(10 * (pow10((m - 1) as nat) * pow10(n)) == (10 * pow10((m - 1) as nat)) * pow10(n))
            by (nonlinear_arith);
    } else {
        assert(1 * pow10(n) == pow10(n)) by (nonlinear_arith);
    }
}

/// Digits written one run after the other: the first run counts for as many
/// powers of ten as the second is long.
pub proof fn lemma_decimal_value_concat(high: Seq<char>, low: Seq<char>)
    ensures
        decimal_value(high + low) == decimal_value(high) * pow10(low.len()) + decimal_value(low),
    decreases low.len(),
{
    if low.len() == 0 {
        assert(high + low =~= high);
        assert(decimal_value(high) * 1 == decimal_value(high)) by (nonlinear_arith);
    } else {
        let joined = high + low;
        assert(joined.drop_last() =~= high + low.drop_last());
        assert(joined.last() == low.last());
        lemma_decimal_value_concat(high, low.drop_last());
        let h = decimal_value(high);
        let p = pow10(low.drop_last().len());
        let l = decimal_value(low.drop_last());
        let d = digit_value(low.last());
        assert(pow10(low.len()) == 10 * p);
        assert((h * p + l) * 10 + d == h * (10 * p) + (l * 10 + d)) by (nonlinear_arith);
    }
}

/// A run of `n` digits denotes a number below ten to the `n`.
pub proof fn lemma_decimal_value_bound(digits: Seq<char>)
    requires
        all_digits(digits),
    ensures
        decimal_value(digits) < pow10(digits.len()),
    decreases digits.len(),
{
    if digits.len() > 0 {
        assert(is_digit(digits[digits.len() - 1]));
        assert forall|i: int| 0 <= i < digits.drop_last().len() implies is_digit(
            #[trigger] digits.drop_last()[i],
        ) by {
            assert(digits.drop_last()[i] == digits[i]);
        }
        lemma_decimal_value_bound(digits.drop_last());
    }
}

/// A run of digits denotes at least what any of its beginnings denotes.
pub proof fn lemma_decimal_value_prefix(digits: Seq<char>, n: int)
    requires
        0 <= n <= digits.len(),
    ensures
        decimal_value(digits.take(n)) <= decimal_value(digits),
    decreases digits.len() - n,
{
    if n == digits.len() {
        assert(digits.take(n) =~= digits);
    } else {
        lemma_decimal_value_prefix(digits.drop_last(), n);
        assert(digits.drop_last().take(n) =~= digits.take(n));
    }
}

/// Whether `c` is a decimal digit.
pub fn is_digit_char(c: char) -> (yes: bool)
    ensures
        yes == is_digit(c),
{
    '0' <= c && c <= '9'
}

/// The number that the digit `c` denotes.
pub fn digit_of(c: char) -> (value: u8)
    requires
        is_digit(c),
    ensures
        value == digit_value(c),
        value <= 9,
{
    (c as u32 - '0' as u32) as u8
}

/// Where the digits that start at `from` end: the first position at or after
/// `from` that holds no digit.
pub open spec fn spec_digit_run(text: Seq<char>, from: int) -> int
    decreases text.len() - from,
{
    if 0 <= from < text.len() && is_digit(text[from]) {
        spec_digit_run(text, from + 1)
    } else {
        from
    }
}

/// The run from `from` to `spec_digit_run` holds digits only, and stops at
/// the end of the text or before a character that is no digit.
pub proof fn lemma_digit_run(text: Seq<char>, from: int)
    requires
        0 <= from <= text.len(),
    ensures
        from <= spec_digit_run(text, from) <= text.len(),
        all_digits(text.subrange(from, spec_digit_run(text, from))),
        spec_digit_run(text, from) < text.len() ==> !is_digit(text[spec_digit_run(text, from)]),
    decreases text.len() - from,
{
    if from < text.len() && is_digit(text[from]) {
        lemma_digit_run(text, from + 1);
        let end = spec_digit_run(text, from);
        assert forall|i: int| 0 <= i < end - from implies is_digit(
            #[trigger] text.subrange(from, end)[i],
        ) by {
            if i > 0 {
                assert(text.subrange(from, end)[i] == text.subrange(from + 1, end)[i - 1]);
            }
        }
    }
}

/// Digits from `from` up to `end`, with the text ending there or going on
/// with a character that is no digit, are the run that starts at `from`.
pub proof fn lemma_digit_run_ends(text: Seq<char>, from: int, end: int)
    requires
        0 <= from <= end <= text.len(),
        all_digits(text.subrange(from, end)),
        end < text.len() ==> !is_digit(text[end]),
    ensures
        spec_digit_run(text, from) == end,
    decreases end - from,
{
    if from < end {
        assert(text.subrange(from, end)[0] == text[from]);
        assert forall|i: int| 0 <= i < end - from - 1 implies is_digit(
            #[trigger] text.subrange(from + 1, end)[i],
        ) by {
            assert(text.subrange(from + 1, end)[i] == text.subrange(from, end)[i + 1]);
        }
        lemma_digit_run_ends(text, from + 1, end);
    }
}

/// The end of the digits that start at `from`.
pub fn digit_run(chars: &Vec<char>, from: usize) -> (end: usize)
    requires
        from <= chars.len(),
    ensures
        end == spec_digit_run(chars@, from as int),
        from <= end <= chars.len(),
{
    let mut end: usize = from;
    while end < chars.len() && is_digit_char(chars[end])
        invariant
            from <= end <= chars.len(),
            spec_digit_run(chars@, from as int) == spec_digit_run(chars@, end as int),
        decreases chars.len() - end,
    {
        end += 1;
    }
    end
}

/// The number that the digits from `from` to `to` denote, where it fits.
pub fn magnitude(chars: &Vec<char>, from: usize, to: usize) -> (value: Option<u64>)
    requires
        from <= to <= chars.len(),
        all_digits(chars@.subrange(from as int, to as int)),
    ensures
        value == if decimal_value(chars@.subrange(from as int, to as int)) <= u64::MAX {
            Some(decimal_value(chars@.subrange(from as int, to as int)) as u64)
        } else {
            None
        },
{
    let ghost run = chars@.subrange(from as int, to as int);
    let mut total: u64 = 0;
    let mut at: usize = from;
    while at < to
        invariant
            from <= at <= to <= chars.len(),
            run == chars@.subrange(from as int, to as int),
            all_digits(run),
            total == decimal_value(run.take(at - from)),
        decreases to - at,
    {
        assert(is_digit(run[at - from]));
        let digit: u64 = digit_of(chars[at]) as u64;
        proof {
            assert(run.take(at + 1 - from).drop_last() =~= run.take(at - from));
            assert(run.take(at + 1 - from).last() == chars@[at as int]);
        }
        if total > (u64::MAX - digit) / 10 {
            proof {
                lemma_decimal_value_prefix(run, at + 1 - from);
            }
            return None;
        }
        total = total * 10 + digit;
        at += 1;
    }
    assert(run.take(to - from) =~= run);
    Some(total)
}

/// The integer that the characters from `from` on denote.
pub fn integer_from(chars: &Vec<char>, from: usize) -> (value: Option<i64>)
    requires
        from <= chars.len(),
    ensures
        value matches Some(v) ==> spec_integer(chars@.skip(from as int)) == Some(v as int),
        value is None ==> spec_integer(chars@.skip(from as int)) is None,
{
    let ghost text = chars@.skip(from as int);
    let signed = from < chars.len() && (chars[from] == '-' || chars[from] == '+');
    let negative = signed && chars[from] == '-';
    let start: usize = if signed {
        from + 1
    } else {
        from
    };
    let end = digit_run(chars, start);
    proof {
        lemma_digit_run(chars@, start as int);
        let digits = if signed {
            text.skip(1)
        } else {
            text
        };
        assert(digits =~= chars@.subrange(start as int, chars.len() as int));
        if end < chars.len() {
            assert(digits[end - start] == chars@[end as int]);
        } else {
            assert(digits =~= chars@.subrange(start as int, end as int));
        }
    }
    if end == start || end < chars.len() {
        return None;
    }
    match magnitude(chars, start, end) {
        None => None,
        Some(size) => {
            if negative {
                if size > 0x8000_0000_0000_0000u64 {
                    None
                } else if size == 0x8000_0000_0000_0000u64 {
                    Some(i64::MIN)
                } else {
                    Some(-(size as i64))
                }
            } else if size > 0x7fff_ffff_ffff_ffffu64 {
                None
            } else {
                Some(size as i64)
            }
        },
    }
}

/// The integer that `text` denotes, where it denotes one.
pub fn integer(text: &str) -> (value: Option<i64>)
    ensures
        value matches Some(v) ==> spec_integer(text@) == Some(v as int),
        value is None ==> spec_integer(text@) is None,
{
    let chars = chars_of(text);
    assert(chars@.skip(0) =~= text@);
    integer_from(&chars, 0)
}

} // verus!
