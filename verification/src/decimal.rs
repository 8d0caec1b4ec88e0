//! Decimal numbers in plain notation, read from the text of a numeral.
//!
//! A price reaches the library as the text of a JSON number. [`Decimal`]
//! holds the number that the text denotes, exactly: the digits before the
//! decimal point and those after it.

use vstd::prelude::*;
use crate::numeral::{
    all_digits, decimal_value, digit_of, digit_run, digit_value, integer_from, is_digit,
    lemma_decimal_value_bound, lemma_decimal_value_concat, lemma_digit_run,
    lemma_digit_run_ends, lemma_pow10_adds,
    lemma_pow10_positive, magnitude, pow10, spec_digit_run, spec_integer,
};
use crate::text::{append_range, chars_of, push_chars};

verus! {

/// The largest exponent, in size, that a numeral may carry. No number that
/// a JSON document holds is written with a larger one.
pub const EXPONENT_LIMIT: i64 = 400;

/// The parts of a numeral: a sign, the digits before and after the decimal
/// point, and the power of ten that scales them.
pub struct Numeral {
    pub negative: bool,
    pub whole: Seq<char>,
    pub fraction: Seq<char>,
    pub exponent: int,
}

/// A decimal number: `whole` holds the digits before the decimal point, with
/// no leading zero, and `fraction` those after it, with no trailing zero.
/// Zero has no digits at all.
pub struct DecimalView {
    pub negative: bool,
    pub whole: Seq<char>,
    pub fraction: Seq<char>,
}

/// `n` zeros.
pub open spec fn zeros(n: nat) -> Seq<char> {
    Seq::new(n, |i: int| '0')
}

/// `digits` without the zeros at its start.
pub open spec fn strip_leading_zeros(digits: Seq<char>) -> Seq<char>
    decreases digits.len(),
{
    if digits.len() > 0 && digits[0] == '0' {
        strip_leading_zeros(digits.skip(1))
    } else {
        digits
    }
}

/// `digits` without the zeros at its end.
pub open spec fn strip_trailing_zeros(digits: Seq<char>) -> Seq<char>
    decreases digits.len(),
{
    if digits.len() > 0 && digits.last() == '0' {
        strip_trailing_zeros(digits.drop_last())
    } else {
        digits
    }
}

/// The parts of the numeral that `text` is: an optional `-`, one or more
/// digits, optionally a `.` with one or more digits, optionally `e` or `E`
/// with an integer of at most `EXPONENT_LIMIT` in size. `None` for any other
/// text.
pub open spec fn spec_numeral(text: Seq<char>) -> Option<Numeral> {
    let negative = text.len() > 0 && text[0] == '-';
    let start: int = if negative {
        1
    } else {
        0
    };
    let whole_end = spec_digit_run(text, start);
    let pointed = whole_end < text.len() && text[whole_end] == '.';
    let fraction_start = if pointed {
        whole_end + 1
    } else {
        whole_end
    };
    let fraction_end = spec_digit_run(text, fraction_start);
    let whole = text.subrange(start, whole_end);
    let fraction = text.subrange(fraction_start, fraction_end);
    if whole_end == start || (pointed && fraction_end == fraction_start) {
        None
    } else if fraction_end == text.len() {
        Some(Numeral { negative, whole, fraction, exponent: 0 })
    } else if text[fraction_end] == 'e' || text[fraction_end] == 'E' {
        match spec_integer(text.skip(fraction_end + 1)) {
            Some(exponent) => if -EXPONENT_LIMIT <= exponent <= EXPONENT_LIMIT {
                Some(Numeral { negative, whole, fraction, exponent })
            } else {
                None
            },
            None => None,
        }
    } else {
        None
    }
}

/// The digits that stand before the decimal point once the exponent has
/// moved it.
pub open spec fn shifted_whole(numeral: Numeral) -> Seq<char> {
    let digits = numeral.whole + numeral.fraction;
    let point = numeral.whole.len() + numeral.exponent;
    if point <= 0 {
        Seq::empty()
    } else if point >= digits.len() {
        digits + zeros((point - digits.len()) as nat)
    } else {
        digits.take(point)
    }
}

/// The digits that stand after the decimal point once the exponent has moved
/// it.
pub open spec fn shifted_fraction(numeral: Numeral) -> Seq<char> {
    let digits = numeral.whole + numeral.fraction;
    let point = numeral.whole.len() + numeral.exponent;
    if point >= digits.len() {
        Seq::empty()
    } else if point <= 0 {
        zeros((-point) as nat) + digits
    } else {
        digits.skip(point)
    }
}

/// The number that a numeral denotes, in plain notation. Zero carries no sign.
pub open spec fn decimal_of(numeral: Numeral) -> DecimalView {
    let whole = strip_leading_zeros(shifted_whole(numeral));
    let fraction = strip_trailing_zeros(shifted_fraction(numeral));
    DecimalView {
        negative: numeral.negative && (whole.len() > 0 || fraction.len() > 0),
        whole,
        fraction,
    }
}

/// The number that `text` denotes, where `text` is a numeral.
pub open spec fn spec_decimal(text: Seq<char>) -> Option<DecimalView> {
    match spec_numeral(text) {
        Some(numeral) => Some(decimal_of(numeral)),
        None => None,
    }
}

/// A decimal number is in its one plain form.
pub open spec fn well_formed(number: DecimalView) -> bool {
    &&& all_digits(number.whole)
    &&& all_digits(number.fraction)
    &&& number.whole.len() > 0 ==> number.whole[0] != '0'
    &&& number.fraction.len() > 0 ==> number.fraction.last() != '0'
    &&& number.negative ==> number.whole.len() > 0 || number.fraction.len() > 0
}

/// The number is zero.
pub open spec fn spec_is_zero(number: DecimalView) -> bool {
    number.whole.len() == 0 && number.fraction.len() == 0
}

/// The first two digits after the decimal point, as a number from 0 to 99.
pub open spec fn spec_hundredths(number: DecimalView) -> nat {
    decimal_value((number.fraction + zeros(2)).take(2))
}

/// A hundred times the number, cut off at the decimal point: what is past
/// the second digit after the point is dropped, for either sign.
pub open spec fn spec_minor_units(number: DecimalView) -> int {
    let size = decimal_value(number.whole) * 100 + spec_hundredths(number);
    if number.negative {
        -size
    } else {
        size as int
    }
}

/// The number as text: a `-` where it is negative, the digits before the
/// decimal point or `0` where there are none, and, where digits follow the
/// point, a `.` and those digits.
pub open spec fn spec_display(number: DecimalView) -> Seq<char> {
    let sign = if number.negative {
        seq!['-']
    } else {
        Seq::<char>::empty()
    };
    let whole = if number.whole.len() == 0 {
        seq!['0']
    } else {
        number.whole
    };
    let fraction = if number.fraction.len() == 0 {
        Seq::<char>::empty()
    } else {
        seq!['.'] + number.fraction
    };
    sign + whole + fraction
}

/// A decimal number held digit by digit, always in its one plain form.
#[derive(Debug)]
pub struct Decimal {
    negative: bool,
    whole: Vec<char>,
    fraction: Vec<char>,
}

impl View for Decimal {
    type V = DecimalView;

    closed spec fn view(&self) -> DecimalView {
        DecimalView { negative: self.negative, whole: self.whole@, fraction: self.fraction@ }
    }
}

/// Stripping zeros from the start leaves digits, none of them a zero at the
/// start.
pub proof fn lemma_strip_leading_zeros(digits: Seq<char>)
    requires
        all_digits(digits),
    ensures
        all_digits(strip_leading_zeros(digits)),
        strip_leading_zeros(digits).len() > 0 ==> strip_leading_zeros(digits)[0] != '0',
        strip_leading_zeros(digits).len() <= digits.len(),
        strip_leading_zeros(digits) == digits.skip(
            digits.len() - strip_leading_zeros(digits).len(),
        ),
        forall|i: int|
            0 <= i < digits.len() - strip_leading_zeros(digits).len() ==> digits[i] == '0',
    decreases digits.len(),
{
    if digits.len() > 0 && digits[0] == '0' {
        let rest = digits.skip(1);
        assert forall|i: int| 0 <= i < rest.len() implies is_digit(#[trigger] rest[i]) by {
            assert(rest[i] == digits[i + 1]);
        }
        lemma_strip_leading_zeros(rest);
        let kept = strip_leading_zeros(rest);
        assert(rest.skip(rest.len() - kept.len()) =~= digits.skip(digits.len() - kept.len()));
        assert forall|i: int| 0 <= i < digits.len() - kept.len() implies digits[i] == '0' by {
            if i > 0 {
                assert(rest[i - 1] == digits[i]);
            }
        }
    } else {
        assert(digits.skip(0) =~= digits);
    }
}

/// Stripping zeros from the end leaves digits, none of them a zero at the
/// end.
pub proof fn lemma_strip_trailing_zeros(digits: Seq<char>)
    requires
        all_digits(digits),
    ensures
        all_digits(strip_trailing_zeros(digits)),
        strip_trailing_zeros(digits).len() > 0 ==> strip_trailing_zeros(digits).last() != '0',
        strip_trailing_zeros(digits).len() <= digits.len(),
        strip_trailing_zeros(digits) == digits.take(strip_trailing_zeros(digits).len() as int),
        forall|i: int|
            strip_trailing_zeros(digits).len() <= i < digits.len() ==> digits[i] == '0',
    decreases digits.len(),
{
    if digits.len() > 0 && digits.last() == '0' {
        let rest = digits.drop_last();
        assert forall|i: int| 0 <= i < rest.len() implies is_digit(#[trigger] rest[i]) by {
            assert(rest[i] == digits[i]);
        }
        lemma_strip_trailing_zeros(rest);
        let kept = strip_trailing_zeros(rest);
        assert(rest.take(kept.len() as int) =~= digits.take(kept.len() as int));
        assert forall|i: int| kept.len() <= i < digits.len() implies digits[i] == '0' by {
            if i < rest.len() {
                assert(rest[i] == digits[i]);
            }
        }
    } else {
        assert(digits.take(digits.len() as int) =~= digits);
    }
}

/// `digits` without the zeros at its start.
pub fn without_leading_zeros(digits: &Vec<char>) -> (kept: Vec<char>)
    ensures
        kept@ == strip_leading_zeros(digits@),
{
    let mut start: usize = 0;
    assert(digits@.skip(0) =~= digits@);
    while start < digits.len() && digits[start] == '0'
        invariant
            start <= digits.len(),
            strip_leading_zeros(digits@) == strip_leading_zeros(digits@.skip(start as int)),
        decreases digits.len() - start,
    {
        assert(digits@.skip(start as int).skip(1) =~= digits@.skip(start + 1));
        start += 1;
    }
    let mut kept: Vec<char> = Vec::new();
    append_range(&mut kept, digits, start, digits.len());
    assert(kept@ =~= digits@.skip(start as int));
    kept
}

/// `digits` without the zeros at its end.
pub fn without_trailing_zeros(digits: &Vec<char>) -> (kept: Vec<char>)
    ensures
        kept@ == strip_trailing_zeros(digits@),
{
    let mut end: usize = digits.len();
    assert(digits@.take(end as int) =~= digits@);
    while end > 0 && digits[end - 1] == '0'
        invariant
            end <= digits.len(),
            strip_trailing_zeros(digits@) == strip_trailing_zeros(digits@.take(end as int)),
        decreases end,
    {
        assert(digits@.take(end as int).drop_last() =~= digits@.take(end - 1));
        end -= 1;
    }
    let mut kept: Vec<char> = Vec::new();
    append_range(&mut kept, digits, 0, end);
    assert(kept@ =~= digits@.take(end as int));
    kept
}

/// Adds `count` zeros at the end of `out`.
pub fn append_zeros(out: &mut Vec<char>, count: usize)
    ensures
        final(out)@ == old(out)@ + zeros(count as nat),
{
    let mut done: usize = 0;
    while done < count
        invariant
            done <= count,
            out@ == old(out)@ + zeros(done as nat),
        decreases count - done,
    {
        out.push('0');
        done += 1;
        assert(out@ =~= old(out)@ + zeros(done as nat));
    }
}

/// Where the parts of a numeral lie in its text.
struct Layout {
    negative: bool,
    whole_start: usize,
    whole_end: usize,
    fraction_start: usize,
    fraction_end: usize,
    exponent: i64,
}

/// The parts that a layout marks in `text`.
spec fn laid_out(text: Seq<char>, layout: Layout) -> Numeral {
    Numeral {
        negative: layout.negative,
        whole: text.subrange(layout.whole_start as int, layout.whole_end as int),
        fraction: text.subrange(layout.fraction_start as int, layout.fraction_end as int),
        exponent: layout.exponent as int,
    }
}

/// Finds the parts of the numeral that `chars` is.
fn scan(chars: &Vec<char>) -> (found: Option<Layout>)
    ensures
        found matches Some(layout) ==> {
            &&& layout.whole_start <= layout.whole_end <= layout.fraction_start
                <= layout.fraction_end <= chars.len()
            &&& spec_numeral(chars@) == Some(laid_out(chars@, layout))
            &&& all_digits(laid_out(chars@, layout).whole)
            &&& all_digits(laid_out(chars@, layout).fraction)
            &&& -EXPONENT_LIMIT <= layout.exponent <= EXPONENT_LIMIT
        },
        found is None ==> spec_numeral(chars@) is None,
{
    let negative = chars.len() > 0 && chars[0] == '-';
    let start: usize = if negative {
        1
    } else {
        0
    };
    let whole_end = digit_run(chars, start);
    let pointed = whole_end < chars.len() && chars[whole_end] == '.';
    let fraction_start: usize = if pointed {
        whole_end + 1
    } else {
        whole_end
    };
    let fraction_end = digit_run(chars, fraction_start);
    proof {
        lemma_digit_run(chars@, start as int);
        lemma_digit_run(chars@, fraction_start as int);
    }
    if whole_end == start || (pointed && fraction_end == fraction_start) {
        return None;
    }
    let exponent: i64 = if fraction_end == chars.len() {
        0
    } else if chars[fraction_end] == 'e' || chars[fraction_end] == 'E' {
        match integer_from(chars, fraction_end + 1) {
            Some(value) => {
                if value < -EXPONENT_LIMIT || value > EXPONENT_LIMIT {
                    return None;
                }
                value
            },
            None => {
                return None;
            },
        }
    } else {
        return None;
    };
    Some(
        Layout {
            negative,
            whole_start: start,
            whole_end,
            fraction_start,
            fraction_end,
            exponent,
        },
    )
}

/// The digits before and after the decimal point, once `exponent` has moved
/// the point from its place after the first `whole_len` digits.
fn shift(digits: &Vec<char>, whole_len: usize, exponent: i64, Ghost(numeral): Ghost<Numeral>) -> (parts:
    (Vec<char>, Vec<char>))
    requires
        numeral.whole + numeral.fraction == digits@,
        numeral.whole.len() == whole_len,
        numeral.exponent == exponent,
        -EXPONENT_LIMIT <= exponent <= EXPONENT_LIMIT,
    ensures
        parts.0@ == shifted_whole(numeral),
        parts.1@ == shifted_fraction(numeral),
{
    let fraction_len: usize = digits.len() - whole_len;
    let mut before: Vec<char> = Vec::new();
    let mut after: Vec<char> = Vec::new();
    if exponent >= 0 {
        let up: usize = exponent as usize;
        if up >= fraction_len {
            append_range(&mut before, digits, 0, digits.len());
            append_zeros(&mut before, up - fraction_len);
        } else {
            append_range(&mut before, digits, 0, whole_len + up);
            append_range(&mut after, digits, whole_len + up, digits.len());
        }
    } else {
        let down: usize = (-exponent) as usize;
        if down >= whole_len {
            append_zeros(&mut after, down - whole_len);
            append_range(&mut after, digits, 0, digits.len());
        } else {
            append_range(&mut before, digits, 0, whole_len - down);
            append_range(&mut after, digits, whole_len - down, digits.len());
        }
    }
    assert(before@ =~= shifted_whole(numeral));
    assert(after@ =~= shifted_fraction(numeral));
    (before, after)
}

impl Decimal {
    #[verifier::type_invariant]
    spec fn plain(&self) -> bool {
        well_formed(self@)
    }

    /// The number that `text` denotes, where `text` is a numeral.
    pub fn parse(text: &str) -> (number: Option<Decimal>)
        ensures
            number matches Some(d) ==> spec_decimal(text@) == Some(d@),
            number is None ==> spec_decimal(text@) is None,
    {
        let chars = chars_of(text);
        let layout = match scan(&chars) {
            Some(layout) => layout,
            None => {
                return None;
            },
        };
        let ghost numeral = laid_out(chars@, layout);
        let mut digits: Vec<char> = Vec::new();
        append_range(&mut digits, &chars, layout.whole_start, layout.whole_end);
        append_range(&mut digits, &chars, layout.fraction_start, layout.fraction_end);
        let (before, after) = shift(
            &digits,
            layout.whole_end - layout.whole_start,
            layout.exponent,
            Ghost(numeral),
        );
        proof {
            lemma_decimal_of_well_formed(numeral);
        }
        let whole = without_leading_zeros(&before);
        let fraction = without_trailing_zeros(&after);
        let signed = layout.negative && (whole.len() > 0 || fraction.len() > 0);
        Some(Decimal { negative: signed, whole, fraction })
    }

    /// Whether the number is zero.
    pub fn is_zero(&self) -> (zero: bool)
        ensures
            zero == spec_is_zero(self@),
    {
        self.whole.len() == 0 && self.fraction.len() == 0
    }

    /// Whether the number is below zero.
    pub fn is_negative(&self) -> (negative: bool)
        ensures
            negative == self@.negative,
    {
        self.negative
    }

    /// A hundred times the number, cut off at the decimal point; `None` where
    /// that is no `i64`.
    pub fn minor_units(&self) -> (units: Option<i64>)
        ensures
            units matches Some(u) ==> u == spec_minor_units(self@),
            units is None ==> !(i64::MIN <= spec_minor_units(self@) <= i64::MAX),
    {
        proof {
            use_type_invariant(self);
        }
        assert(self.whole@.subrange(0, self.whole@.len() as int) =~= self.whole@);
        let size = magnitude(&self.whole, 0, self.whole.len());
        let ghost padded = (self.fraction@ + zeros(2)).take(2);
        let tens: u64 = if self.fraction.len() > 0 {
            assert(is_digit(self.fraction@[0]));
            digit_of(self.fraction[0]) as u64
        } else {
            0
        };
        let ones: u64 = if self.fraction.len() > 1 {
            assert(is_digit(self.fraction@[1]));
            digit_of(self.fraction[1]) as u64
        } else {
            0
        };
        let hundredths: u64 = tens * 10 + ones;
        proof {
            assert(padded.drop_last().drop_last() =~= Seq::<char>::empty());
            assert(padded.drop_last().last() == padded[0]);
            assert(decimal_value(padded.drop_last().drop_last()) == 0);
            assert(decimal_value(padded.drop_last()) == digit_value(padded[0]));
            assert(hundredths == spec_hundredths(self@));
        }
        match size {
            None => None,
            Some(whole) => {
                let total: u128 = (whole as u128) * 100 + (hundredths as u128);
                if self.negative {
                    if total > 0x8000_0000_0000_0000u128 {
                        None
                    } else if total == 0x8000_0000_0000_0000u128 {
                        Some(i64::MIN)
                    } else {
                        Some(-(total as i64))
                    }
                } else if total > 0x7fff_ffff_ffff_ffffu128 {
                    None
                } else {
                    Some(total as i64)
                }
            },
        }
    }

    /// The number as text, in plain notation.
    pub fn display(&self) -> (text: String)
        ensures
            text@ == spec_display(self@),
    {
        let mut text = String::new();
        if self.negative {
            text.push('-');
        }
        if self.whole.len() == 0 {
            text.push('0');
        } else {
            push_chars(&mut text, &self.whole);
        }
        if self.fraction.len() > 0 {
            text.push('.');
            push_chars(&mut text, &self.fraction);
        }
        assert(text@ =~= spec_display(self@));
        text
    }
}

/// The numerator of the fraction that a numeral denotes: its digits read as
/// one integer, times the power of ten by which the exponent exceeds the
/// count of digits after the point.
pub open spec fn numeral_numerator(numeral: Numeral) -> nat {
    let up = numeral.exponent - numeral.fraction.len();
    decimal_value(numeral.whole + numeral.fraction) * pow10(
        if up > 0 {
            up as nat
        } else {
            0
        },
    )
}

/// The denominator of the fraction that a numeral denotes: the power of ten
/// by which the count of digits after the point exceeds the exponent.
pub open spec fn numeral_denominator(numeral: Numeral) -> nat {
    let down = numeral.fraction.len() - numeral.exponent;
    pow10(
        if down > 0 {
            down as nat
        } else {
            0
        },
    )
}

/// Zeros denote zero.
pub proof fn lemma_zeros_value(n: nat)
    ensures
        decimal_value(zeros(n)) == 0,
        all_digits(zeros(n)),
    decreases n,
{
    if n > 0 {
        assert(zeros(n).drop_last() =~= zeros((n - 1) as nat));
        lemma_zeros_value((n - 1) as nat);
    }
}

/// Stripping zeros from the start keeps the value.
pub proof fn lemma_strip_leading_value(digits: Seq<char>)
    requires
        all_digits(digits),
    ensures
        decimal_value(strip_leading_zeros(digits)) == decimal_value(digits),
{
    lemma_strip_leading_zeros(digits);
    let kept = strip_leading_zeros(digits);
    let dropped = (digits.len() - kept.len()) as nat;
    assert(digits =~= zeros(dropped) + kept);
    lemma_decimal_value_concat(zeros(dropped), kept);
    lemma_zeros_value(dropped);
    assert(0 * pow10(kept.len()) == 0) by (nonlinear_arith);
}

/// Stripping zeros from the end divides the value by a power of ten.
pub proof fn lemma_strip_trailing_value(digits: Seq<char>)
    requires
        all_digits(digits),
    ensures
        strip_trailing_zeros(digits).len() <= digits.len(),
        decimal_value(digits) == decimal_value(strip_trailing_zeros(digits)) * pow10(
            (digits.len() - strip_trailing_zeros(digits).len()) as nat,
        ),
{
    lemma_strip_trailing_zeros(digits);
    let kept = strip_trailing_zeros(digits);
    let dropped = (digits.len() - kept.len()) as nat;
    assert(digits =~= kept + zeros(dropped));
    lemma_decimal_value_concat(kept, zeros(dropped));
    lemma_zeros_value(dropped);
}

/// The digits before and after the moved point, read as one integer over a
/// power of ten, are the fraction that the numeral denotes.
proof fn lemma_shifted_value(numeral: Numeral)
    requires
        all_digits(numeral.whole),
        all_digits(numeral.fraction),
    ensures
        decimal_value(shifted_whole(numeral) + shifted_fraction(numeral)) == numeral_numerator(
            numeral,
        ),
        pow10(shifted_fraction(numeral).len()) == numeral_denominator(numeral),
{
    let digits = numeral.whole + numeral.fraction;
    let point = numeral.whole.len() + numeral.exponent;
    let joined = shifted_whole(numeral) + shifted_fraction(numeral);
    if point <= 0 {
        let pad = zeros((-point) as nat);
        assert(joined =~= pad + digits);
        lemma_decimal_value_concat(pad, digits);
        lemma_zeros_value((-point) as nat);
        assert(0 * pow10(digits.len()) == 0) by (nonlinear_arith);
        assert(decimal_value(digits) * 1 == decimal_value(digits)) by (nonlinear_arith);
    } else if point >= digits.len() {
        let pad = zeros((point - digits.len()) as nat);
        assert(joined =~= digits + pad);
        lemma_decimal_value_concat(digits, pad);
        lemma_zeros_value((point - digits.len()) as nat);
    } else {
        assert(joined =~= digits);
        assert(decimal_value(digits) * 1 == decimal_value(digits)) by (nonlinear_arith);
    }
}

/// The number in plain notation is the number that the numeral denotes: its
/// digits over ten to the count of its digits after the point are the same
/// fraction as the numeral's, and it is negative where the numeral has a
/// sign and is not zero.
pub proof fn lemma_decimal_of_value(numeral: Numeral)
    requires
        all_digits(numeral.whole),
        all_digits(numeral.fraction),
    ensures
        spec_digits_value(decimal_of(numeral)) * numeral_denominator(numeral) == numeral_numerator(
            numeral,
        ) * pow10(decimal_of(numeral).fraction.len()),
        spec_is_zero(decimal_of(numeral)) <==> numeral_numerator(numeral) == 0,
        decimal_of(numeral).negative <==> numeral.negative && numeral_numerator(numeral) != 0,
{
    let before = shifted_whole(numeral);
    let after = shifted_fraction(numeral);
    let number = decimal_of(numeral);
    lemma_decimal_of_well_formed(numeral);
    lemma_shifted_value(numeral);
    lemma_strip_leading_value(before);
    lemma_strip_trailing_value(after);
    lemma_strip_leading_zeros(before);
    lemma_strip_trailing_zeros(after);
    lemma_decimal_value_concat(before, after);
    lemma_decimal_value_concat(number.whole, number.fraction);
    let dropped = (after.len() - number.fraction.len()) as nat;
    lemma_pow10_adds(number.fraction.len(), dropped);
    lemma_pow10_positive(dropped);
    lemma_pow10_positive(number.fraction.len());
    let w = decimal_value(number.whole) as int;
    let f = decimal_value(number.fraction) as int;
    let g = pow10(number.fraction.len()) as int;
    let k = pow10(dropped) as int;
    assert((w * g + f) * (g * k) == (w * (g * k) + f * k) * g) by (nonlinear_arith);
    lemma_digits_zero(number);
    assert(numeral_numerator(numeral) == (w * g + f) * k) by (nonlinear_arith)
        requires
            numeral_numerator(numeral) == w * (g * k) + f * k,
    ;
    assert((w * g + f) * k == 0 <==> w * g + f == 0) by (nonlinear_arith)
        requires
            k > 0,
    ;
}

/// The text of a number reads back as that number.
pub proof fn lemma_display_reads_back(number: DecimalView)
    requires
        well_formed(number),
    ensures
        spec_decimal(spec_display(number)) == Some(number),
{
    let text = spec_display(number);
    let sign = if number.negative {
        seq!['-']
    } else {
        Seq::<char>::empty()
    };
    let whole = if number.whole.len() == 0 {
        seq!['0']
    } else {
        number.whole
    };
    let point = if number.fraction.len() == 0 {
        Seq::<char>::empty()
    } else {
        seq!['.']
    };
    assert(text =~= sign + whole + point + number.fraction);
    let start = sign.len() as int;
    let whole_end = start + whole.len();
    let fraction_start = whole_end + point.len();
    assert(is_digit(whole[0]));
    assert(text[start] == whole[0]);
    assert(text.subrange(start, whole_end) =~= whole);
    assert(text.subrange(fraction_start, text.len() as int) =~= number.fraction);
    lemma_digit_run_ends(text, start, whole_end);
    lemma_digit_run_ends(text, fraction_start, text.len() as int);
    let numeral = Numeral {
        negative: number.negative,
        whole,
        fraction: number.fraction,
        exponent: 0,
    };
    assert(spec_numeral(text) == Some(numeral));
    let digits = whole + number.fraction;
    if number.fraction.len() == 0 {
        assert(digits + zeros(0) =~= whole);
    } else {
        assert(digits.take(whole.len() as int) =~= whole);
        assert(digits.skip(whole.len() as int) =~= number.fraction);
    }
    assert(shifted_whole(numeral) == whole);
    assert(shifted_fraction(numeral) == number.fraction);
    if number.whole.len() == 0 {
        assert(whole.skip(1) =~= Seq::<char>::empty());
        assert(strip_leading_zeros(whole.skip(1)) =~= Seq::<char>::empty());
    }
    assert(strip_leading_zeros(whole) == number.whole);
    assert(strip_trailing_zeros(number.fraction) == number.fraction);
}

/// A hundred times the fraction that a numeral denotes, with what is past
/// the decimal point dropped, for either sign.
pub open spec fn numeral_minor_units(numeral: Numeral) -> int {
    let size = (100 * numeral_numerator(numeral) as int) / (numeral_denominator(numeral) as int);
    if numeral.negative {
        -size
    } else {
        size
    }
}

/// Equal fractions have equal whole parts.
proof fn lemma_equal_fractions(a: int, b: int, c: int, d: int)
    requires
        0 <= a,
        0 <= c,
        0 < b,
        0 < d,
        a * d == c * b,
    ensures
        a / b == c / d,
{
    let q = a / b;
    let r = a % b;
    vstd::arithmetic::div_mod::lemma_fundamental_div_mod(a, b);
    vstd::arithmetic::div_mod::lemma_mod_bound(a, b);
    let t = c - q * d;
    assert(t * b == r * d) by (nonlinear_arith)
        requires
            a == b * q + r,
            a * d == c * b,
            t == c - q * d,
    ;
    assert(0 <= t < d) by (nonlinear_arith)
        requires
            t * b == r * d,
            0 <= r < b,
            0 < d,
    ;
    vstd::arithmetic::div_mod::lemma_div_multiples_vanish_fancy(q, t, d);
    assert(d * q + t == c) by (nonlinear_arith)
        requires
            t == c - q * d,
    ;
}

/// The minor units of the number that a numeral denotes are a hundred times
/// the numeral's fraction, with what is past the decimal point dropped.
pub proof fn lemma_minor_units_of_numeral(numeral: Numeral)
    requires
        all_digits(numeral.whole),
        all_digits(numeral.fraction),
    ensures
        spec_minor_units(decimal_of(numeral)) == numeral_minor_units(numeral),
{
    let number = decimal_of(numeral);
    lemma_decimal_of_well_formed(numeral);
    lemma_decimal_of_value(numeral);
    lemma_minor_units_truncate(number);
    let digits = spec_digits_value(number) as int;
    let scale = pow10(number.fraction.len()) as int;
    let numerator = numeral_numerator(numeral) as int;
    let denominator = numeral_denominator(numeral) as int;
    lemma_pow10_positive(number.fraction.len());
    lemma_pow10_positive(
        if numeral.fraction.len() - numeral.exponent > 0 {
            (numeral.fraction.len() - numeral.exponent) as nat
        } else {
            0
        },
    );
    assert((100 * digits) * denominator == (100 * numerator) * scale) by (nonlinear_arith)
        requires
            digits * denominator == numerator * scale,
    ;
    lemma_equal_fractions(100 * digits, scale, 100 * numerator, denominator);
    if numerator == 0 {
        assert((100 * numerator) / denominator == 0);
    }
}

/// A number in plain form is zero just where its digits read as zero.
proof fn lemma_digits_zero(number: DecimalView)
    requires
        well_formed(number),
    ensures
        spec_is_zero(number) <==> spec_digits_value(number) == 0,
{
    let digits = number.whole + number.fraction;
    if digits.len() > 0 {
        lemma_nonzero_digit(digits, if number.whole.len() > 0 {
            0
        } else {
            digits.len() - 1
        });
    } else {
        assert(number.whole.len() == 0 && number.fraction.len() == 0);
    }
}

/// A run of digits that holds a digit other than zero denotes more than zero.
proof fn lemma_nonzero_digit(digits: Seq<char>, at: int)
    requires
        all_digits(digits),
        0 <= at < digits.len(),
        digits[at] != '0',
    ensures
        decimal_value(digits) > 0,
    decreases digits.len(),
{
    assert(is_digit(digits[at]));
    if at < digits.len() - 1 {
        assert forall|i: int| 0 <= i < digits.drop_last().len() implies is_digit(
            #[trigger] digits.drop_last()[i],
        ) by {
            assert(digits.drop_last()[i] == digits[i]);
        }
        lemma_nonzero_digit(digits.drop_last(), at);
    }
}

/// All the digits of the number read as one integer: the number times ten to
/// the count of its digits after the decimal point, without its sign.
pub open spec fn spec_digits_value(number: DecimalView) -> nat {
    decimal_value(number.whole + number.fraction)
}

/// A hundred times the number, rounded to the nearest integer, a half going
/// away from zero.
pub open spec fn spec_rounded_minor_units(number: DecimalView) -> int {
    let scale = pow10(number.fraction.len()) as int;
    let size = (2 * 100 * (spec_digits_value(number) as int) + scale) / (2 * scale);
    if number.negative {
        -size
    } else {
        size
    }
}

/// A hundred times the number, with what follows the decimal point dropped.
pub open spec fn spec_truncated_minor_units(number: DecimalView) -> int {
    let size = (100 * (spec_digits_value(number) as int)) / (pow10(number.fraction.len()) as int);
    if number.negative {
        -size
    } else {
        size
    }
}

/// What the digits of the number amount to: with `h` the first two digits
/// after the point and `r` the rest of them, a hundred times the number is
/// a hundred times the whole part, plus `h`, plus a part `r` below one.
proof fn lemma_digits_split(number: DecimalView) -> (rest: nat)
    requires
        well_formed(number),
    ensures
        100 * spec_digits_value(number) == (decimal_value(number.whole) * 100 + spec_hundredths(
            number,
        )) * pow10(number.fraction.len()) + 100 * rest,
        100 * rest < pow10(number.fraction.len()),
        number.fraction.len() <= 2 ==> rest == 0,
        number.fraction.len() > 2 ==> rest < (digit_value(number.fraction[2]) + 1) * pow10(
            (number.fraction.len() - 3) as nat,
        ),
{
    let whole = decimal_value(number.whole);
    let fraction = number.fraction;
    let count = fraction.len();
    let padded = (fraction + zeros(2)).take(2);
    lemma_decimal_value_concat(number.whole, fraction);
    lemma_pow10_positive(count);
    assert(padded.drop_last().drop_last() =~= Seq::<char>::empty());
    assert(padded.drop_last().last() == padded[0]);
    assert(decimal_value(padded.drop_last().drop_last()) == 0);
    assert(decimal_value(padded.drop_last()) == digit_value(padded[0]));
    let hundredths = spec_hundredths(number);
    assert(hundredths == digit_value(padded[0]) * 10 + digit_value(padded[1]));
    reveal_with_fuel(pow10, 4);
    reveal_with_fuel(decimal_value, 3);
    if count == 0 {
        assert(fraction =~= Seq::<char>::empty());
        assert(whole * 1 * 100 == (whole * 100 + 0) * 1) by (nonlinear_arith);
        0
    } else if count == 1 {
        assert(fraction.drop_last() =~= Seq::<char>::empty());
        let d = digit_value(fraction[0]);
        assert(100 * (whole * 10 + d) == (whole * 100 + d * 10) * 10) by (nonlinear_arith);
        0
    } else {
        let head = fraction.take(2);
        let tail = fraction.skip(2);
        assert(head + tail =~= fraction);
        assert(head =~= padded);
        assert forall|i: int| 0 <= i < tail.len() implies is_digit(#[trigger] tail[i]) by {
            assert(tail[i] == fraction[i + 2]);
        }
        lemma_decimal_value_concat(head, tail);
        lemma_decimal_value_bound(tail);
        let rest = decimal_value(tail);
        let low = pow10(tail.len());
        lemma_pow10_adds(2, tail.len());
        assert(pow10(2) == 100);
        assert(pow10(count) == 100 * low);
        assert(100 * (whole * (100 * low) + (hundredths * low + rest)) == (whole * 100
            + hundredths) * (100 * low) + 100 * rest) by (nonlinear_arith);
        assert(100 * rest < 100 * low) by (nonlinear_arith)
            requires
                rest < low,
        ;
        if count > 2 {
            let third = seq![fraction[2]];
            let after = fraction.skip(3);
            assert(third + after =~= tail);
            assert forall|i: int| 0 <= i < after.len() implies is_digit(#[trigger] after[i]) by {
                assert(after[i] == fraction[i + 3]);
            }
            lemma_decimal_value_concat(third, after);
            lemma_decimal_value_bound(after);
            assert(third.drop_last() =~= Seq::<char>::empty());
            assert(decimal_value(third) == digit_value(fraction[2]));
            let d = digit_value(fraction[2]);
            let p = pow10(after.len());
            assert(d * p + decimal_value(after) < (d + 1) * p) by (nonlinear_arith)
                requires
                    decimal_value(after) < p,
            ;
        } else {
            assert(tail =~= Seq::<char>::empty());
        }
        rest
    }
}

/// Cutting off at the decimal point is division: the minor units are a
/// hundred times the number with what follows the decimal point dropped.
pub proof fn lemma_minor_units_truncate(number: DecimalView)
    requires
        well_formed(number),
    ensures
        spec_minor_units(number) == spec_truncated_minor_units(number),
{
    let rest = lemma_digits_split(number);
    let scale = pow10(number.fraction.len()) as int;
    let size = (decimal_value(number.whole) * 100 + spec_hundredths(number)) as int;
    vstd::arithmetic::div_mod::lemma_div_multiples_vanish_fancy(size, 100 * rest as int, scale);
    assert(scale * size == size * scale) by (nonlinear_arith);
}

/// Where the third digit after the decimal point, if there is one, is below
/// five, cutting off and rounding to the nearest integer give the same minor
/// units.
pub proof fn lemma_minor_units_round(number: DecimalView)
    requires
        well_formed(number),
        number.fraction.len() > 2 ==> digit_value(number.fraction[2]) < 5,
    ensures
        spec_minor_units(number) == spec_rounded_minor_units(number),
{
    let rest = lemma_digits_split(number);
    let count = number.fraction.len();
    let scale = pow10(count) as int;
    let size = (decimal_value(number.whole) * 100 + spec_hundredths(number)) as int;
    lemma_pow10_positive(count);
    if count > 2 {
        let low = pow10((count - 3) as nat) as int;
        lemma_pow10_adds(3, (count - 3) as nat);
        reveal_with_fuel(pow10, 4);
        assert(pow10(3) == 1000);
        assert(scale == 1000 * low);
        let d = digit_value(number.fraction[2]) as int;
        assert((d + 1) * low <= 5 * low) by (nonlinear_arith)
            requires
                d + 1 <= 5,
                low >= 0,
        ;
        assert(rest < (d + 1) * low);
        assert(200 * rest < scale);
    } else {
        assert(rest == 0);
    }
    let extra = 200 * (rest as int) + scale;
    assert(0 <= extra < 2 * scale);
    vstd::arithmetic::div_mod::lemma_div_multiples_vanish_fancy(size, extra, 2 * scale);
    assert(2 * 100 * spec_digits_value(number) + scale == (2 * scale) * size + extra)
        by (nonlinear_arith)
        requires
            100 * spec_digits_value(number) == size * scale + 100 * rest,
            extra == 200 * (rest as int) + scale,
    ;
}

/// The number that a numeral of digits denotes is in its one plain form.
pub proof fn lemma_decimal_of_well_formed(numeral: Numeral)
    requires
        all_digits(numeral.whole),
        all_digits(numeral.fraction),
    ensures
        well_formed(decimal_of(numeral)),
        all_digits(shifted_whole(numeral)),
        all_digits(shifted_fraction(numeral)),
{
    let before = shifted_whole(numeral);
    let after = shifted_fraction(numeral);
    assert forall|i: int| 0 <= i < before.len() implies is_digit(#[trigger] before[i]) by {
        lemma_shifted_digit(numeral, i, true);
    }
    assert forall|i: int| 0 <= i < after.len() implies is_digit(#[trigger] after[i]) by {
        lemma_shifted_digit(numeral, i, false);
    }
    lemma_strip_leading_zeros(before);
    lemma_strip_trailing_zeros(after);
}

/// The number that a numeral's text denotes is in its one plain form.
pub proof fn lemma_decimal_well_formed(text: Seq<char>)
    requires
        spec_decimal(text) is Some,
    ensures
        well_formed(spec_decimal(text)->0),
{
    let negative = text.len() > 0 && text[0] == '-';
    let start: int = if negative {
        1
    } else {
        0
    };
    let whole_end = spec_digit_run(text, start);
    lemma_digit_run(text, start);
    let pointed = whole_end < text.len() && text[whole_end] == '.';
    let fraction_start = if pointed {
        whole_end + 1
    } else {
        whole_end
    };
    lemma_digit_run(text, fraction_start);
    lemma_decimal_of_well_formed(spec_numeral(text)->0);
}

/// Each shifted digit is a digit of the numeral or a zero.
pub proof fn lemma_shifted_digit(numeral: Numeral, i: int, before: bool)
    requires
        all_digits(numeral.whole),
        all_digits(numeral.fraction),
        0 <= i,
        before ==> i < shifted_whole(numeral).len(),
        !before ==> i < shifted_fraction(numeral).len(),
    ensures
        before ==> is_digit(shifted_whole(numeral)[i]),
        !before ==> is_digit(shifted_fraction(numeral)[i]),
{
    let digits = numeral.whole + numeral.fraction;
    assert forall|k: int| 0 <= k < digits.len() implies is_digit(#[trigger] digits[k]) by {
        if k < numeral.whole.len() {
            assert(digits[k] == numeral.whole[k]);
        } else {
            assert(digits[k] == numeral.fraction[k - numeral.whole.len()]);
        }
    }
    let point = numeral.whole.len() + numeral.exponent;
    if before {
        if point >= digits.len() {
            if i < digits.len() {
                assert(shifted_whole(numeral)[i] == digits[i]);
            }
        } else {
            assert(shifted_whole(numeral)[i] == digits[i]);
        }
    } else {
        if point <= 0 {
            if i >= -point {
                assert(shifted_fraction(numeral)[i] == digits[i + point]);
            }
        } else {
            assert(shifted_fraction(numeral)[i] == digits[i + point]);
        }
    }
}

} // verus!
