//! Decimal numbers as text.
//!
//! The exchange sends prices and volumes as strings and times as JSON numbers
//! with a fraction. Both are kept as text and read digit by digit, so that
//! nothing is rounded: a number is what its digits say.

use vstd::prelude::*;
use crate::text::{all_digits, char_digit, char_is_digit, chars_of, digit_of, digits_value, is_digit,
    lemma_digits_value_prefix, lemma_digits_value_push};

verus! {

/// A decimal number as its text spells it: the sign, the digits before and
/// behind the point, and the power of ten that the exponent names.
/// It is worth `int_digits.frac_digits` times ten to the `exponent`.
pub struct Decimal {
    pub negative: bool,
    pub int_digits: Seq<char>,
    pub frac_digits: Seq<char>,
    pub exponent: int,
}

/// 1 where a sign stands at `at` in `s`, else 0.
pub open spec fn sign_len(s: Seq<char>, at: int) -> int {
    if 0 <= at < s.len() && (s[at] == '+' || s[at] == '-') {
        1
    } else {
        0
    }
}

/// The index behind the longest run of digits of `s` that begins at `from`.
pub open spec fn digits_end(s: Seq<char>, from: int) -> int
    decreases s.len() - from,
{
    if 0 <= from < s.len() && is_digit(s[from]) {
        digits_end(s, from + 1)
    } else {
        from
    }
}

/// Reads `s` as a decimal number, if it is one. The grammar, with nothing
/// before, between or behind its parts:
///
/// - an optional `+` or `-`;
/// - digits, which a `.` and more digits may follow; either run may be
///   empty, not both;
/// - optionally `e` or `E`, an optional sign, and one or more digits.
pub open spec fn read_decimal(s: Seq<char>) -> Option<Decimal> {
    let int_start = sign_len(s, 0);
    let int_end = digits_end(s, int_start);
    let has_point = int_end < s.len() && s[int_end] == '.';
    let frac_start = if has_point { int_end + 1 } else { int_end };
    let frac_end = if has_point { digits_end(s, frac_start) } else { frac_start };
    let has_exp = frac_end < s.len() && (s[frac_end] == 'e' || s[frac_end] == 'E');
    let exp_start = frac_end + 1 + sign_len(s, frac_end + 1);
    let exp_end = digits_end(s, exp_start);
    let negative = s.len() > 0 && s[0] == '-';
    let int_digits = s.subrange(int_start, int_end);
    let frac_digits = s.subrange(frac_start, frac_end);
    if int_end - int_start + frac_end - frac_start == 0 {
        None
    } else if !has_exp {
        if frac_end == s.len() {
            Some(Decimal { negative, int_digits, frac_digits, exponent: 0 })
        } else {
            None
        }
    } else if exp_start < exp_end && exp_end == s.len() {
        let magnitude = digits_value(s.subrange(exp_start, exp_end)) as int;
        let exponent = if s[frac_end + 1] == '-' { -magnitude } else { magnitude };
        Some(Decimal { negative, int_digits, frac_digits, exponent })
    } else {
        None
    }
}

/// `s` is a decimal number.
pub open spec fn is_decimal(s: Seq<char>) -> bool {
    read_decimal(s) is Some
}

/// Where a run of digits ends: inside the text, behind digits only, and not
/// in front of another digit.
pub proof fn lemma_digits_end(s: Seq<char>, from: int)
    requires
        0 <= from <= s.len(),
    ensures
        from <= digits_end(s, from) <= s.len(),
        all_digits(s.subrange(from, digits_end(s, from))),
        digits_end(s, from) < s.len() ==> !is_digit(s[digits_end(s, from)]),
    decreases s.len() - from,
{
    if from < s.len() && is_digit(s[from]) {
        lemma_digits_end(s, from + 1);
        let end = digits_end(s, from);
        assert forall|i: int| 0 <= i < end - from implies is_digit(
            #[trigger] s.subrange(from, end)[i],
        ) by {
            if i > 0 {
                assert(s.subrange(from, end)[i] == s.subrange(from + 1, end)[i - 1]);
            }
        }
    }
}

/// Where the parts of a decimal number lie in its text.
struct Shape {
    negative: bool,
    int_start: usize,
    int_end: usize,
    frac_start: usize,
    frac_end: usize,
    exp_negative: bool,
    exp_start: usize,
    exp_end: usize,
}

impl Shape {
    /// The positions lie in `s` in their order.
    spec fn fits(self, s: Seq<char>) -> bool {
        &&& self.int_start <= self.int_end <= self.frac_start <= self.frac_end <= self.exp_start
            <= self.exp_end <= s.len()
        &&& all_digits(s.subrange(self.int_start as int, self.int_end as int))
        &&& all_digits(s.subrange(self.frac_start as int, self.frac_end as int))
        &&& all_digits(s.subrange(self.exp_start as int, self.exp_end as int))
    }

    /// The number whose parts lie there.
    spec fn decimal(self, s: Seq<char>) -> Decimal {
        let magnitude = digits_value(s.subrange(self.exp_start as int, self.exp_end as int)) as int;
        Decimal {
            negative: self.negative,
            int_digits: s.subrange(self.int_start as int, self.int_end as int),
            frac_digits: s.subrange(self.frac_start as int, self.frac_end as int),
            exponent: if self.exp_negative { -magnitude } else { magnitude },
        }
    }
}

fn skip_digits(v: &Vec<char>, from: usize) -> (r: usize)
    requires
        from <= v.len(),
    ensures
        r == digits_end(v@, from as int),
        from <= r <= v.len(),
        all_digits(v@.subrange(from as int, r as int)),
{
    let mut i = from;
    proof {
        lemma_digits_end(v@, from as int);
    }
    while i < v.len() && char_is_digit(v[i])
        invariant
            from <= i <= v.len(),
            digits_end(v@, from as int) == digits_end(v@, i as int),
        decreases v.len() - i,
    {
        i += 1;
    }
    i
}

fn skip_sign(v: &Vec<char>, at: usize) -> (r: usize)
    requires
        at <= v.len(),
    ensures
        r == at + sign_len(v@, at as int),
        r <= v.len(),
{
    if at < v.len() && (v[at] == '+' || v[at] == '-') {
        at + 1
    } else {
        at
    }
}

fn scan(v: &Vec<char>) -> (r: Option<Shape>)
    ensures
        match r {
            Some(shape) => shape.fits(v@) && read_decimal(v@) == Some(shape.decimal(v@)),
            None => read_decimal(v@) is None,
        },
{
    let n = v.len();
    let negative = n > 0 && v[0] == '-';
    let int_start = skip_sign(v, 0);
    let int_end = skip_digits(v, int_start);
    let has_point = int_end < n && v[int_end] == '.';
    let frac_start = if has_point { int_end + 1 } else { int_end };
    let frac_end = if has_point { skip_digits(v, frac_start) } else { frac_start };
    if int_end - int_start + (frac_end - frac_start) == 0 {
        return None;
    }
    if !(frac_end < n && (v[frac_end] == 'e' || v[frac_end] == 'E')) {
        if frac_end == n {
            let shape = Shape {
                negative,
                int_start,
                int_end,
                frac_start,
                frac_end,
                exp_negative: false,
                exp_start: n,
                exp_end: n,
            };
            assert(v@.subrange(n as int, n as int) =~= Seq::<char>::empty());
            return Some(shape);
        }
        return None;
    }
    let exp_negative = frac_end + 1 < n && v[frac_end + 1] == '-';
    let exp_start = skip_sign(v, frac_end + 1);
    let exp_end = skip_digits(v, exp_start);
    if exp_start < exp_end && exp_end == n {
        Some(
            Shape {
                negative,
                int_start,
                int_end,
                frac_start,
                frac_end,
                exp_negative,
                exp_start,
                exp_end,
            },
        )
    } else {
        None
    }
}

/// Whether `s` is a decimal number.
pub fn is_decimal_text(s: &str) -> (r: bool)
    ensures
        r == is_decimal(s@),
{
    let v = chars_of(s);
    scan(&v).is_some()
}

/// Ten to the power `n`.
pub open spec fn pow10(n: nat) -> nat
    decreases n,
{
    if n == 0 {
        1
    } else {
        10 * pow10((n - 1) as nat)
    }
}

/// The number that `digits` spell, times ten to the `shift`, rounded down.
pub open spec fn shifted_value(digits: Seq<char>, shift: int) -> nat {
    if shift >= 0 {
        digits_value(digits) * pow10(shift as nat)
    } else {
        digits_value(digits) / pow10((-shift) as nat)
    }
}

impl Decimal {
    /// All digits of the number, those before the point first.
    pub open spec fn digits(self) -> Seq<char> {
        self.int_digits + self.frac_digits
    }

    /// The number without its sign, times ten to the `places`, rounded
    /// down.
    pub open spec fn scaled_magnitude(self, places: nat) -> nat {
        shifted_value(self.digits(), self.exponent - self.frac_digits.len() + places)
    }

    /// The number times ten to the `places`, rounded toward zero, as a
    /// `u64`: zero for what lies below zero, `u64::MAX` for what lies above
    /// it.
    pub open spec fn scaled_u64(self, places: nat) -> u64 {
        if self.negative {
            0
        } else if self.scaled_magnitude(places) > u64::MAX {
            u64::MAX
        } else {
            self.scaled_magnitude(places) as u64
        }
    }
}

/// A number written without exponent and with exactly `places` digits
/// behind the point is scaled by dropping the point: its digits spell the
/// result.
pub proof fn lemma_scaled_drops_the_point(number: Decimal, places: nat)
    requires
        number.exponent == 0,
        number.frac_digits.len() == places,
    ensures
        number.scaled_magnitude(places) == digits_value(number.digits()),
{
    let shift = number.exponent - number.frac_digits.len() + places;
    assert(shift == 0);
    assert(pow10(shift as nat) == 1);
    assert(shifted_value(number.digits(), shift) == digits_value(number.digits()) * 1);
}

/// Scaling rounds down. Where places are cut, that is for a negative
/// `shift`, the result is the one whole number that, put back to the scale
/// of the digits, is not above them, while the next whole number is.
pub proof fn lemma_shifted_value_is_floor(digits: Seq<char>, shift: int)
    requires
        shift < 0,
    ensures
        shifted_value(digits, shift) * pow10((-shift) as nat) <= digits_value(digits),
        digits_value(digits) < (shifted_value(digits, shift) + 1) * pow10((-shift) as nat),
{
    let d = pow10((-shift) as nat) as int;
    let x = digits_value(digits) as int;
    lemma_pow10_positive((-shift) as nat);
    vstd::arithmetic::div_mod::lemma_fundamental_div_mod(x, d);
    vstd::arithmetic::div_mod::lemma_mod_bound(x, d);
    assert(x == d * (x / d) + x % d);
    assert((x / d) * d == d * (x / d)) by (nonlinear_arith);
    assert((x / d + 1) * d == d * (x / d) + d) by (nonlinear_arith);
}

/// `digits` cut or filled with zeros to `len` digits.
spec fn resized(digits: Seq<char>, len: int) -> Seq<char> {
    if len <= digits.len() {
        digits.take(len)
    } else {
        digits + Seq::new((len - digits.len()) as nat, |i: int| '0')
    }
}

proof fn lemma_pow10_positive(n: nat)
    ensures
        pow10(n) >= 1,
    decreases n,
{
    if n > 0 {
        lemma_pow10_positive((n - 1) as nat);
    }
}

proof fn lemma_pow10_monotone(m: nat, n: nat)
    requires
        m <= n,
    ensures
        pow10(m) <= pow10(n),
    decreases n,
{
    if m < n {
        lemma_pow10_monotone(m, (n - 1) as nat);
    }
}

proof fn lemma_pow10_twenty()
    ensures
        pow10(20) == 100_000_000_000_000_000_000nat,
{
    reveal_with_fuel(pow10, 21);
}

/// A run of `n` digits is worth less than ten to the `n`.
proof fn lemma_digits_value_bound(s: Seq<char>)
    requires
        all_digits(s),
    ensures
        digits_value(s) < pow10(s.len()),
    decreases s.len(),
{
    if s.len() > 0 {
        assert(all_digits(s.drop_last())) by {
            assert forall|i: int| 0 <= i < s.drop_last().len() implies is_digit(
                #[trigger] s.drop_last()[i],
            ) by {
                assert(s.drop_last()[i] == s[i]);
            }
        }
        lemma_digits_value_bound(s.drop_last());
        assert(is_digit(s.last()));
    }
}

/// Cutting digits off the end divides by ten for each; zeros at the end
/// multiply by ten for each.
proof fn lemma_resized_value(digits: Seq<char>, len: int)
    requires
        all_digits(digits),
        0 <= len,
    ensures
        digits_value(resized(digits, len)) == shifted_value(digits, len - digits.len()),
    decreases
            if len <= digits.len() {
                digits.len() - len
            } else {
                len - digits.len()
            },
{
    let n = digits.len() as int;
    if len == n {
        assert(digits.take(len) =~= digits);
        assert(pow10(0) == 1);
    } else if len < n {
        lemma_resized_value(digits, len + 1);
        let longer = digits.take(len + 1);
        let d = pow10((n - len - 1) as nat);
        lemma_pow10_positive((n - len - 1) as nat);
        assert(longer.drop_last() =~= digits.take(len));
        assert(is_digit(digits[len]));
        assert(longer.last() == digits[len]);
        assert(digits_value(longer) == digits_value(digits.take(len)) * 10 + digit_of(digits[len]));
        assert(digits_value(digits.take(len)) == digits_value(longer) / 10);
        vstd::arithmetic::div_mod::lemma_div_denominator(digits_value(digits) as int, d as int, 10);
        assert(pow10((n - len) as nat) == 10 * d);
        assert(d * 10 == 10 * d);
    } else {
        lemma_resized_value(digits, len - 1);
        let shorter = resized(digits, len - 1);
        assert(resized(digits, len).drop_last() =~= shorter);
        assert(resized(digits, len).last() == '0');
        assert(pow10((len - n) as nat) == 10 * pow10((len - n - 1) as nat));
        assert(digits_value(digits) * (10 * pow10((len - n - 1) as nat)) == digits_value(digits)
            * pow10((len - n - 1) as nat) * 10) by (nonlinear_arith);
    }
}

/// More digits are worth no less.
proof fn lemma_resized_monotone(digits: Seq<char>, short: int, long: int)
    requires
        0 <= short <= long,
    ensures
        digits_value(resized(digits, short)) <= digits_value(resized(digits, long)),
{
    assert(resized(digits, long).take(short) =~= resized(digits, short));
    lemma_digits_value_prefix(resized(digits, long), short);
}

/// The digit at `i` of `digits` filled up with zeros.
spec fn resized_digit(digits: Seq<char>, i: int) -> char {
    if i < digits.len() {
        digits[i]
    } else {
        '0'
    }
}

proof fn lemma_resized_step(digits: Seq<char>, i: int)
    requires
        0 <= i,
    ensures
        resized(digits, i + 1) == resized(digits, i).push(resized_digit(digits, i)),
        digits_value(resized(digits, i + 1)) == digits_value(resized(digits, i)) * 10 + digit_of(
            resized_digit(digits, i),
        ),
{
    assert(resized(digits, i + 1) =~= resized(digits, i).push(resized_digit(digits, i)));
    lemma_digits_value_push(resized(digits, i), resized_digit(digits, i));
}

/// The most that an exponent is read as. Beyond it a number is zero or out
/// of every range that an index or a `u64` can hold.
const EXPONENT_CAP: u128 = 1_000_000_000_000_000_000_000_000_000_000;

/// What the digits of `v` from `start` to `end` spell, or [`EXPONENT_CAP`]
/// if that is less.
fn capped_value(v: &Vec<char>, start: usize, end: usize) -> (r: u128)
    requires
        start <= end <= v.len(),
        all_digits(v@.subrange(start as int, end as int)),
    ensures
        r <= EXPONENT_CAP,
        r == digits_value(v@.subrange(start as int, end as int)) || (r == EXPONENT_CAP
            && digits_value(v@.subrange(start as int, end as int)) > EXPONENT_CAP),
{
    let ghost run = v@.subrange(start as int, end as int);
    let mut acc: u128 = 0;
    let mut i: usize = start;
    assert(run.take(0) =~= Seq::<char>::empty());
    while i < end
        invariant
            start <= i <= end <= v.len(),
            run == v@.subrange(start as int, end as int),
            all_digits(run),
            acc <= EXPONENT_CAP,
            acc == digits_value(run.take(i - start)) || (acc == EXPONENT_CAP && digits_value(
                run.take(i - start),
            ) > EXPONENT_CAP),
        decreases end - i,
    {
        let ghost j = i - start;
        let c = v[i];
        assert(run[j] == c);
        proof {
            assert(run.take(j + 1) =~= run.take(j).push(c));
            lemma_digits_value_push(run.take(j), c);
        }
        let next = acc * 10 + char_digit(c) as u128;
        acc = if next > EXPONENT_CAP { EXPONENT_CAP } else { next };
        i += 1;
    }
    assert(run.take(run.len() as int) =~= run);
    acc
}

/// Reads `s` as a decimal number and gives it times ten to the `places`,
/// rounded toward zero and kept within `u64`. `None` where `s` is no decimal
/// number.
pub fn scale_decimal(s: &str, places: u8) -> (r: Option<u64>)
    ensures
        r == match read_decimal(s@) {
            Some(d) => Some(d.scaled_u64(places as nat)),
            None => None,
        },
{
    let v = chars_of(s);
    let shape = match scan(&v) {
        Some(shape) => shape,
        None => {
            return None;
        },
    };
    if shape.negative {
        return Some(0);
    }
    let ghost number = shape.decimal(v@);
    let ghost digits = number.digits();
    let ghost shift = number.exponent - number.frac_digits.len() + places;
    let int_len = shape.int_end - shape.int_start;
    let frac_len = shape.frac_end - shape.frac_start;
    let len: u128 = int_len as u128 + frac_len as u128;
    let magnitude = capped_value(&v, shape.exp_start, shape.exp_end);
    let point: i128 = if shape.exp_negative {
        int_len as i128 + places as i128 - magnitude as i128
    } else {
        int_len as i128 + places as i128 + magnitude as i128
    };
    proof {
        assert(digits.len() == len);
        assert(all_digits(digits)) by {
            assert forall|i: int| 0 <= i < digits.len() implies is_digit(#[trigger] digits[i]) by {
                if i < number.int_digits.len() {
                    assert(digits[i] == number.int_digits[i]);
                } else {
                    assert(digits[i] == number.frac_digits[i - number.int_digits.len()]);
                }
            }
        }
        lemma_digits_value_bound(digits);
        lemma_pow10_twenty();
    }
    if point <= 0 {
        proof {
            // The point moves in front of every digit: nothing is left of it.
            assert(shift + len <= 0);
            lemma_pow10_monotone(len as nat, (-shift) as nat);
            vstd::arithmetic::div_mod::lemma_basic_div(
                digits_value(digits) as int,
                pow10((-shift) as nat) as int,
            );
        }
        return Some(0);
    }
    let limit: u128 = if point as u128 > len + 20 { len + 20 } else { point as u128 };
    let mut acc: u128 = 0;
    let mut i: u128 = 0;
    assert(resized(digits, 0) =~= Seq::<char>::empty());
    while i < limit
        invariant
            i <= limit <= len + 20,
            limit <= shift + len,
            shape.fits(v@),
            len == int_len + frac_len,
            int_len == shape.int_end - shape.int_start,
            frac_len == shape.frac_end - shape.frac_start,
            digits == v@.subrange(shape.int_start as int, shape.int_end as int) + v@.subrange(
                shape.frac_start as int,
                shape.frac_end as int,
            ),
            digits.len() == len,
            all_digits(digits),
            acc <= u64::MAX,
            acc == digits_value(resized(digits, i as int)),
            shifted_value(digits, shift) == number.scaled_magnitude(places as nat),
            !number.negative,
            read_decimal(s@) == Some(number),
        decreases limit - i,
    {
        let digit: u128 = if i < int_len as u128 {
            char_digit(v[shape.int_start + i as usize]) as u128
        } else if i < len {
            assert(digits[i as int] == v@.subrange(
                shape.frac_start as int,
                shape.frac_end as int,
            )[i - int_len]);
            char_digit(v[shape.frac_start + (i as usize - int_len)]) as u128
        } else {
            0
        };
        proof {
            lemma_resized_step(digits, i as int);
            assert(digit == digit_of(resized_digit(digits, i as int)));
        }
        acc = acc * 10 + digit;
        i += 1;
        if acc > u64::MAX as u128 {
            proof {
                lemma_resized_monotone(digits, i as int, shift + len);
                lemma_resized_value(digits, shift + len);
            }
            return Some(u64::MAX);
        }
    }
    proof {
        lemma_resized_value(digits, limit as int);
        if limit < shift + len {
            // Twenty zeros behind the digits and still in range: they spell zero.
            assert(shifted_value(digits, 20) == digits_value(digits) * pow10(20));
            assert(digits_value(digits) == 0) by (nonlinear_arith)
                requires
                    digits_value(digits) * pow10(20) <= u64::MAX,
                    pow10(20) == 100_000_000_000_000_000_000nat,
            ;
            assert(digits_value(digits) * pow10(shift as nat) == 0) by (nonlinear_arith)
                requires
                    digits_value(digits) == 0,
            ;
        }
    }
    Some(acc as u64)
}

} // verus!
