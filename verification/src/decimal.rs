//! Numbers as a sentence writes them.
//!
//! A decimal is written as an optional sign, digits with at most one point
//! among them, and an optional exponent: `e` or `E`, an optional sign, and
//! digits. Every such token is read. The number is kept as its digits and
//! three powers of ten, and exactly so where its digits fit in 64 bits and
//! its exponent in 32. Of more digits the leading ones are kept and the rest
//! are counted, which cuts the number towards zero; a larger exponent is kept
//! as the nearest one of 32 bits. The words for infinity and for what is not
//! a number are no decimals and are refused as malformed.

use vstd::prelude::*;
use vstd::slice::slice_subrange;
use crate::scan::{
    lemma_run_len_at_least, lemma_run_len_bounds, lemma_run_len_is, run_len, scan,
};

verus! {

pub const PLUS: u8 = 43;

pub const MINUS: u8 = 45;

pub const POINT: u8 = 46;

pub const ZERO: u8 = 48;

pub const NINE: u8 = 57;

pub const UPPER_E: u8 = 69;

pub const LOWER_E: u8 = 101;

/// A bound that no exponent of 32 bits passes.
pub const EXPONENT_BOUND: i64 = 0x8000_0000;

/// A bound that no small integer reaches.
pub const SMALL_INT_BOUND: i64 = 129;

/// A decimal number: `digits` times ten to the power `exponent + dropped -
/// scale`, negative where `negative` is set.
///
/// `scale` is the number of digits after the point and `exponent` is the
/// exponent as written, 0 where none is. `dropped` is 0 where all digits
/// fit in 64 bits; else it is the number of low-order digits that were left
/// out of `digits`. The sign is kept apart so that a negative zero stays
/// negative.
#[derive(Debug, Clone, Copy, PartialEq, Eq, Structural)]
pub struct Decimal {
    pub negative: bool,
    pub digits: u64,
    pub scale: usize,
    pub dropped: usize,
    pub exponent: i32,
}

pub open spec fn is_digit(b: u8) -> bool {
    ZERO <= b <= NINE
}

/// What a digit counts; 0 for any other byte.
pub open spec fn digit_value(b: u8) -> nat {
    if is_digit(b) {
        (b - ZERO) as nat
    } else {
        0
    }
}

pub open spec fn all_digits(s: Seq<u8>) -> bool {
    forall|i: int| 0 <= i < s.len() ==> is_digit(#[trigger] s[i])
}

/// The number that a sequence of digits writes in base ten.
pub open spec fn digits_value(s: Seq<u8>) -> nat
    decreases s.len(),
{
    if s.len() == 0 {
        0
    } else {
        digits_value(s.drop_last()) * 10 + digit_value(s.last())
    }
}

/// The number of leading digits that are kept: all of them where the number
/// fits in 64 bits, else as many as make a number that fits.
pub open spec fn kept_len(digits: Seq<u8>) -> nat
    decreases digits.len(),
{
    if digits.len() == 0 || digits_value(digits) <= u64::MAX {
        digits.len()
    } else {
        kept_len(digits.drop_last())
    }
}

/// The number that the kept digits write.
pub open spec fn kept_value(digits: Seq<u8>) -> nat {
    digits_value(digits.take(kept_len(digits) as int))
}

/// The number of low-order digits that are left out.
pub open spec fn dropped_len(digits: Seq<u8>) -> nat {
    (digits.len() - kept_len(digits)) as nat
}

/// 1 where the token starts with a sign, else 0.
pub open spec fn sign_len(token: Seq<u8>) -> int {
    if token.len() > 0 && (token[0] == PLUS || token[0] == MINUS) {
        1
    } else {
        0
    }
}

pub open spec fn is_negative(token: Seq<u8>) -> bool {
    token.len() > 0 && token[0] == MINUS
}

/// The two bytes that start an exponent.
pub open spec fn exponent_marks() -> Set<u8> {
    set![LOWER_E, UPPER_E]
}

/// The mantissa of a token: what stands after the sign and before the
/// first exponent mark.
pub open spec fn mantissa_part(token: Seq<u8>) -> Seq<u8> {
    let unsigned = token.skip(sign_len(token));
    unsigned.take(run_len(unsigned, exponent_marks()) as int)
}

/// What follows the first exponent mark of a token; `None` where the token
/// has no exponent mark.
pub open spec fn exponent_part(token: Seq<u8>) -> Option<Seq<u8>> {
    let unsigned = token.skip(sign_len(token));
    let mark = run_len(unsigned, exponent_marks()) as int;
    if mark < unsigned.len() {
        Some(unsigned.skip(mark + 1))
    } else {
        None
    }
}

/// The digits of a mantissa before its first point.
pub open spec fn whole_of(mantissa: Seq<u8>) -> Seq<u8> {
    mantissa.take(run_len(mantissa, set![POINT]) as int)
}

/// The digits of a mantissa after its first point; empty where it has none.
pub open spec fn fraction_of(mantissa: Seq<u8>) -> Seq<u8> {
    let point = run_len(mantissa, set![POINT]) as int;
    if point < mantissa.len() {
        mantissa.skip(point + 1)
    } else {
        Seq::empty()
    }
}

/// All digits of a mantissa, the point left out.
pub open spec fn digits_of(mantissa: Seq<u8>) -> Seq<u8> {
    whole_of(mantissa) + fraction_of(mantissa)
}

/// The digits of a token before its first point.
pub open spec fn whole_part(token: Seq<u8>) -> Seq<u8> {
    whole_of(mantissa_part(token))
}

/// The digits of a token after its first point.
pub open spec fn fraction_part(token: Seq<u8>) -> Seq<u8> {
    fraction_of(mantissa_part(token))
}

/// A mantissa: digits with at most one point among them, at least one digit
/// in all.
pub open spec fn is_mantissa(mantissa: Seq<u8>) -> bool {
    digits_of(mantissa).len() > 0 && all_digits(digits_of(mantissa))
}

/// The integer that a token writes: an optional sign, then digits. `None`
/// for any other token.
pub open spec fn signed_value(token: Seq<u8>) -> Option<int> {
    let digits = token.skip(sign_len(token));
    if digits.len() > 0 && all_digits(digits) {
        Some(
            if is_negative(token) {
                -(digits_value(digits) as int)
            } else {
                digits_value(digits) as int
            },
        )
    } else {
        None
    }
}

/// The number from `low` to `high` that is nearest to `value`.
pub open spec fn clamp(value: int, low: int, high: int) -> int {
    if value < low {
        low
    } else if value > high {
        high
    } else {
        value
    }
}

/// A token that writes a decimal: an optional sign, a mantissa, and nothing
/// more or an exponent mark with an integer after it.
pub open spec fn is_decimal_literal(token: Seq<u8>) -> bool {
    &&& is_mantissa(mantissa_part(token))
    &&& exponent_part(token) matches Some(exponent) ==> signed_value(exponent) is Some
}

/// The exponent of a decimal: 0 where it has no exponent mark, else the
/// integer after the mark, or the exponent of 32 bits that is nearest to it.
pub open spec fn exponent_of(token: Seq<u8>) -> i32 {
    match exponent_part(token) {
        Some(exponent) => clamp(
            signed_value(exponent)->Some_0,
            i32::MIN as int,
            i32::MAX as int,
        ) as i32,
        None => 0,
    }
}

/// The decimal that a token writes. `None` for a token that is no decimal.
/// Where the digits do not fit in 64 bits, the low-order ones are left out
/// and counted: the number is cut towards zero, not rounded.
pub open spec fn decimal_of(token: Seq<u8>) -> Option<Decimal> {
    if is_decimal_literal(token) {
        let digits = digits_of(mantissa_part(token));
        Some(
            Decimal {
                negative: is_negative(token),
                digits: kept_value(digits) as u64,
                scale: fraction_part(token).len() as usize,
                dropped: dropped_len(digits) as usize,
                exponent: exponent_of(token),
            },
        )
    } else {
        None
    }
}

/// The small integer that a token writes: an optional sign, then digits.
/// `None` for any other token, and for a number outside `i8`.
pub open spec fn small_int_of(token: Seq<u8>) -> Option<i8> {
    match signed_value(token) {
        Some(value) => if i8::MIN <= value <= i8::MAX {
            Some(value as i8)
        } else {
            None
        },
        None => None,
    }
}

/// Writing one more digit multiplies by ten and adds the digit.
pub proof fn lemma_digits_value_push(s: Seq<u8>, b: u8)
    ensures
        digits_value(s.push(b)) == digits_value(s) * 10 + digit_value(b),
{
    assert(s.push(b).drop_last() =~= s);
}

/// A number is at least the number that its first digits write.
pub proof fn lemma_digits_value_prefix(s: Seq<u8>, k: int)
    requires
        0 <= k <= s.len(),
    ensures
        digits_value(s.take(k)) <= digits_value(s),
    decreases s.len() - k,
{
    if k == s.len() {
        assert(s.take(k) =~= s);
    } else {
        lemma_digits_value_prefix(s, k + 1);
        assert(s.take(k + 1).drop_last() =~= s.take(k));
    }
}

/// The kept digits are some of the digits and write a number of 64 bits.
/// All digits are kept exactly where the whole number fits, and the number
/// is then kept as it is.
pub proof fn lemma_kept(digits: Seq<u8>)
    ensures
        kept_len(digits) <= digits.len(),
        kept_value(digits) <= u64::MAX,
        kept_value(digits) <= digits_value(digits),
        dropped_len(digits) == 0 <==> digits_value(digits) <= u64::MAX,
        dropped_len(digits) == 0 ==> kept_value(digits) == digits_value(digits),
    decreases digits.len(),
{
    if digits.len() == 0 || digits_value(digits) <= u64::MAX {
        assert(digits.take(digits.len() as int) =~= digits);
    } else {
        let shorter = digits.drop_last();
        lemma_kept(shorter);
        assert(digits.take(kept_len(shorter) as int) =~= shorter.take(kept_len(shorter) as int));
    }
}

/// What one more digit does to the kept number: it is taken in where no
/// digit was left out yet and the number still fits, and is left out
/// otherwise.
pub proof fn lemma_kept_push(s: Seq<u8>, b: u8)
    ensures
        dropped_len(s) == 0 && kept_value(s) * 10 + digit_value(b) <= u64::MAX ==> kept_value(
            s.push(b),
        ) == kept_value(s) * 10 + digit_value(b) && dropped_len(s.push(b)) == 0,
        !(dropped_len(s) == 0 && kept_value(s) * 10 + digit_value(b) <= u64::MAX) ==> kept_value(
            s.push(b),
        ) == kept_value(s) && dropped_len(s.push(b)) == dropped_len(s) + 1,
{
    let longer = s.push(b);
    assert(longer.drop_last() =~= s);
    lemma_digits_value_push(s, b);
    lemma_kept(s);
    lemma_kept(longer);
    if digits_value(longer) <= u64::MAX {
        assert(longer.take(longer.len() as int) =~= longer);
    } else {
        assert(kept_len(longer) == kept_len(s));
        assert(longer.take(kept_len(s) as int) =~= s.take(kept_len(s) as int));
    }
}

/// A token writes a decimal exactly where it is a decimal literal.
pub proof fn lemma_decimal_of_literal(token: Seq<u8>)
    ensures
        decimal_of(token) is Some <==> is_decimal_literal(token),
{
}

/// A number keeps its sign: a token that writes a decimal writes a negative
/// one exactly where it starts with a minus sign.
pub proof fn lemma_sign_kept(token: Seq<u8>)
    requires
        decimal_of(token) is Some,
    ensures
        token.len() > 0,
        decimal_of(token)->Some_0.negative <==> token[0] == MINUS,
{
    lemma_run_len_bounds(token.skip(sign_len(token)), exponent_marks());
}

/// A minus sign before an unsigned number is accepted, and changes nothing
/// but the sign.
pub proof fn lemma_negative_literal(unsigned: Seq<u8>)
    requires
        decimal_of(unsigned) is Some,
        sign_len(unsigned) == 0,
    ensures
        decimal_of(seq![MINUS] + unsigned) == Some(
            Decimal {
                negative: true,
                digits: decimal_of(unsigned)->Some_0.digits,
                scale: decimal_of(unsigned)->Some_0.scale,
                dropped: decimal_of(unsigned)->Some_0.dropped,
                exponent: decimal_of(unsigned)->Some_0.exponent,
            },
        ),
{
    let token = seq![MINUS] + unsigned;
    assert(token.skip(1) =~= unsigned);
    assert(unsigned.skip(0) =~= unsigned);
}

/// The bytes of a point, or nothing.
pub open spec fn point_bytes(point: bool) -> Seq<u8> {
    if point {
        seq![POINT]
    } else {
        Seq::empty()
    }
}

/// A token that is written out as a sign, digits, a point and more digits
/// writes the decimal of these digits, where there is a digit at all. The
/// sign is `+`, `-` or nothing; without a point there are no digits after
/// it.
pub proof fn lemma_decimal_of_parts(sign: Seq<u8>, whole: Seq<u8>, point: bool, fraction: Seq<u8>)
    requires
        sign.len() == 0 || sign == seq![PLUS] || sign == seq![MINUS],
        all_digits(whole),
        all_digits(fraction),
        point || fraction.len() == 0,
    ensures
        decimal_of(sign + whole + point_bytes(point) + fraction) == if whole.len()
            + fraction.len() > 0 {
            Some(
                Decimal {
                    negative: sign == seq![MINUS],
                    digits: kept_value(whole + fraction) as u64,
                    scale: fraction.len() as usize,
                    dropped: dropped_len(whole + fraction) as usize,
                    exponent: 0,
                },
            )
        } else {
            None
        },
{
    let token = sign + whole + point_bytes(point) + fraction;
    let unsigned = whole + point_bytes(point) + fraction;
    if sign.len() == 0 && unsigned.len() > 0 {
        assert(token[0] == unsigned[0]);
        if whole.len() > 0 {
            assert(is_digit(whole[0]) && unsigned[0] == whole[0]);
        } else if !point {
            assert(is_digit(fraction[0]) && unsigned[0] == fraction[0]);
        }
    }
    assert(token.skip(sign_len(token)) =~= unsigned);
    assert forall|j: int| 0 <= j < unsigned.len() implies !exponent_marks().contains(
        #[trigger] unsigned[j],
    ) by {
        if j < whole.len() {
            assert(is_digit(whole[j]));
        } else if j >= whole.len() + point_bytes(point).len() {
            assert(is_digit(fraction[j - whole.len() - point_bytes(point).len()]));
        }
    }
    lemma_run_len_is(unsigned, exponent_marks(), unsigned.len() as int);
    assert(unsigned.take(unsigned.len() as int) =~= unsigned);
    assert(mantissa_part(token) == unsigned);
    assert(exponent_part(token) is None);
    assert forall|j: int| 0 <= j < whole.len() implies !set![POINT].contains(
        #[trigger] unsigned[j],
    ) by {
        assert(is_digit(whole[j]));
    }
    lemma_run_len_is(unsigned, set![POINT], whole.len() as int);
    assert(unsigned.take(whole.len() as int) =~= whole);
    if point {
        assert(unsigned.skip(whole.len() as int + 1) =~= fraction);
    } else {
        assert(fraction =~= Seq::<u8>::empty());
    }
    assert(whole_of(unsigned) == whole);
    assert(fraction_of(unsigned) == fraction);
    assert forall|i: int| 0 <= i < (whole + fraction).len() implies is_digit(
        #[trigger] (whole + fraction)[i],
    ) by {
        if i < whole.len() {
            assert(is_digit(whole[i]));
        } else {
            assert(is_digit(fraction[i - whole.len()]));
        }
    }
}

/// An exponent after a number without one: the token writes the same
/// number with that exponent, or with the nearest one of 32 bits, where
/// what follows the mark is an integer, and no decimal where it is not.
pub proof fn lemma_decimal_with_exponent(number: Seq<u8>, mark: u8, exponent: Seq<u8>)
    requires
        mark == LOWER_E || mark == UPPER_E,
        forall|j: int| 0 <= j < number.len() ==> !exponent_marks().contains(#[trigger] number[j]),
    ensures
        decimal_of(number + seq![mark] + exponent) == match (
            decimal_of(number),
            signed_value(exponent),
        ) {
            (Some(d), Some(value)) => Some(
                Decimal {
                    negative: d.negative,
                    digits: d.digits,
                    scale: d.scale,
                    dropped: d.dropped,
                    exponent: clamp(value, i32::MIN as int, i32::MAX as int) as i32,
                },
            ),
            _ => None,
        },
{
    let token = number + seq![mark] + exponent;
    let start = sign_len(number);
    let unsigned = number.skip(start);
    if number.len() > 0 {
        assert(token[0] == number[0]);
    } else {
        assert(token[0] == mark);
    }
    assert(sign_len(token) == start);
    assert(token.skip(start) =~= unsigned + seq![mark] + exponent);
    let rest = unsigned + seq![mark] + exponent;
    assert forall|j: int| 0 <= j < unsigned.len() implies !exponent_marks().contains(
        #[trigger] rest[j],
    ) by {
        assert(rest[j] == number[j + start]);
    }
    assert(rest[unsigned.len() as int] == mark);
    lemma_run_len_is(rest, exponent_marks(), unsigned.len() as int);
    lemma_run_len_is(unsigned, exponent_marks(), unsigned.len() as int);
    assert(rest.take(unsigned.len() as int) =~= unsigned);
    assert(unsigned.take(unsigned.len() as int) =~= unsigned);
    assert(rest.skip(unsigned.len() as int + 1) =~= exponent);
    assert(mantissa_part(token) == unsigned);
    assert(mantissa_part(number) == unsigned);
    assert(exponent_part(token) == Some(exponent));
    assert(exponent_part(number) is None);
    if number.len() > 0 {
        assert(is_negative(token) == is_negative(number));
    }
}

/// A token that writes a decimal is made of signs, digits, points and
/// exponent marks.
pub proof fn lemma_decimal_bytes(token: Seq<u8>)
    requires
        decimal_of(token) is Some,
    ensures
        token.len() > 0,
        forall|j: int|
            0 <= j < token.len() ==> is_digit(#[trigger] token[j]) || token[j] == POINT
                || token[j] == PLUS || token[j] == MINUS || token[j] == LOWER_E || token[j]
                == UPPER_E,
{
    let start = sign_len(token);
    let unsigned = token.skip(start);
    let mark = run_len(unsigned, exponent_marks()) as int;
    let mantissa = mantissa_part(token);
    let point = run_len(mantissa, set![POINT]) as int;
    let digits = digits_of(mantissa);
    lemma_run_len_bounds(unsigned, exponent_marks());
    lemma_run_len_bounds(mantissa, set![POINT]);
    assert forall|j: int| 0 <= j < token.len() implies is_digit(#[trigger] token[j]) || token[j]
        == POINT || token[j] == PLUS || token[j] == MINUS || token[j] == LOWER_E || token[j]
        == UPPER_E by {
        if j >= start {
            let k = j - start;
            assert(unsigned[k] == token[j]);
            if k < mark {
                assert(mantissa[k] == unsigned[k]);
                if k < point {
                    assert(digits[k] == mantissa[k]);
                } else if k > point {
                    assert(digits[k - 1] == mantissa[k]);
                }
            } else if k > mark {
                let exponent = exponent_part(token)->Some_0;
                let e = k - mark - 1;
                assert(exponent[e] == unsigned[k]);
                if e >= sign_len(exponent) {
                    assert(is_digit(exponent.skip(sign_len(exponent))[e - sign_len(exponent)]));
                }
            }
        }
    }
}

pub fn is_ascii_digit(b: u8) -> (r: bool)
    ensures
        r == is_digit(b),
{
    ZERO <= b && b <= NINE
}

/// Reads a run of digits after the digits `before`, which were read into
/// `acc` and `dropped`. `None` where a byte of the run is no digit.
fn read_digits(part: &[u8], acc: u64, dropped: usize, Ghost(before): Ghost<Seq<u8>>) -> (r: Option<
    (u64, usize),
>)
    requires
        acc == kept_value(before),
        dropped == dropped_len(before),
        before.len() + part@.len() <= usize::MAX,
    ensures
        r is Some <==> all_digits(part@),
        r is Some ==> r->Some_0.0 == kept_value(before + part@) && r->Some_0.1 == dropped_len(
            before + part@,
        ),
{
    let n = part.len();
    let mut acc = acc;
    let mut dropped = dropped;
    let mut i: usize = 0;
    proof {
        assert(before + part@.take(0) =~= before);
    }
    while i < n
        invariant
            n == part@.len(),
            i <= n,
            before.len() + part@.len() <= usize::MAX,
            all_digits(part@.take(i as int)),
            acc == kept_value(before + part@.take(i as int)),
            dropped == dropped_len(before + part@.take(i as int)),
        decreases n - i,
    {
        if !is_ascii_digit(part[i]) {
            return None;
        }
        let d = (part[i] - ZERO) as u64;
        proof {
            let seen = before + part@.take(i as int);
            assert(before + part@.take(i + 1) =~= seen.push(part@[i as int]));
            lemma_kept_push(seen, part@[i as int]);
            lemma_kept(seen);
        }
        if dropped == 0 && acc <= (u64::MAX - d) / 10 {
            acc = acc * 10 + d;
        } else {
            dropped += 1;
        }
        i += 1;
    }
    proof {
        assert(part@.take(n as int) =~= part@);
    }
    Some((acc, dropped))
}

/// Reads the digits of a mantissa: the number that the kept digits write,
/// the number of digits after the point, and the number of digits left out.
fn parse_mantissa(mantissa: &[u8]) -> (r: Option<(u64, usize, usize)>)
    ensures
        r is Some <==> is_mantissa(mantissa@),
        r is Some ==> r->Some_0.0 == kept_value(digits_of(mantissa@)),
        r is Some ==> r->Some_0.1 == fraction_of(mantissa@).len(),
        r is Some ==> r->Some_0.2 == dropped_len(digits_of(mantissa@)),
{
    let n = mantissa.len();
    let point = scan(mantissa, POINT, POINT);
    let whole = slice_subrange(mantissa, 0, point);
    let fraction = if point < n {
        slice_subrange(mantissa, point + 1, n)
    } else {
        slice_subrange(mantissa, n, n)
    };
    proof {
        assert(set![POINT, POINT] =~= set![POINT]);
        assert(whole@ =~= whole_of(mantissa@));
        assert(fraction@ =~= fraction_of(mantissa@));
        assert(Seq::<u8>::empty().take(0) =~= Seq::<u8>::empty());
        assert(Seq::<u8>::empty() + whole@ =~= whole@);
        let digits = whole@ + fraction@;
        if all_digits(digits) {
            assert forall|j: int| 0 <= j < whole@.len() implies is_digit(#[trigger] whole@[j]) by {
                assert(digits[j] == whole@[j]);
            }
            assert forall|j: int| 0 <= j < fraction@.len() implies is_digit(
                #[trigger] fraction@[j],
            ) by {
                assert(digits[whole@.len() + j] == fraction@[j]);
            }
        }
    }
    let (acc, dropped) = match read_digits(whole, 0, 0, Ghost(Seq::empty())) {
        Some(read) => read,
        None => {
            return None;
        },
    };
    let (acc, dropped) = match read_digits(fraction, acc, dropped, Ghost(whole@)) {
        Some(read) => read,
        None => {
            return None;
        },
    };
    if point + fraction.len() == 0 {
        return None;
    }
    Some((acc, fraction.len(), dropped))
}

/// Reads an integer from a whole token, and gives the number from `-bound`
/// to `bound` that is nearest to it.
fn parse_clamped(token: &[u8], bound: i64) -> (r: Option<i64>)
    requires
        0 < bound <= EXPONENT_BOUND,
    ensures
        r is Some <==> signed_value(token@) is Some,
        r is Some ==> r->Some_0 == clamp(
            signed_value(token@)->Some_0,
            -(bound as int),
            bound as int,
        ),
{
    let n = token.len();
    let mut i: usize = 0;
    let mut negative = false;
    if n > 0 && (token[0] == PLUS || token[0] == MINUS) {
        negative = token[0] == MINUS;
        i = 1;
    }
    let start = i;
    if start == n {
        return None;
    }
    let ghost digits = token@.skip(start as int);
    let mut acc: i64 = 0;
    while i < n
        invariant
            n == token@.len(),
            start == sign_len(token@),
            digits == token@.skip(start as int),
            start <= i <= n,
            0 < bound <= EXPONENT_BOUND,
            all_digits(digits.take(i - start)),
            acc == clamp(digits_value(digits.take(i - start)) as int, 0, bound as int),
        decreases n - i,
    {
        if !is_ascii_digit(token[i]) {
            proof {
                assert(digits[i - start] == token@[i as int]);
            }
            return None;
        }
        let d = (token[i] - ZERO) as i64;
        proof {
            let seen = digits.take(i - start);
            assert(digits.take(i + 1 - start) =~= seen.push(token@[i as int]));
            lemma_digits_value_push(seen, token@[i as int]);
        }
        acc = if acc * 10 + d > bound {
            bound
        } else {
            acc * 10 + d
        };
        i += 1;
    }
    proof {
        assert(digits.take(n - start) =~= digits);
    }
    if negative {
        Some(-acc)
    } else {
        Some(acc)
    }
}

/// Reads a small integer from a whole token.
pub fn parse_small_int(token: &[u8]) -> (r: Option<i8>)
    ensures
        r == small_int_of(token@),
{
    match parse_clamped(token, SMALL_INT_BOUND) {
        Some(value) => if -128 <= value && value <= 127 {
            Some(value as i8)
        } else {
            None
        },
        None => None,
    }
}

/// Reads a decimal from a whole token.
pub fn parse_decimal(token: &[u8]) -> (r: Option<Decimal>)
    ensures
        r == decimal_of(token@),
{
    let n = token.len();
    let signed = n > 0 && (token[0] == PLUS || token[0] == MINUS);
    let negative = n > 0 && token[0] == MINUS;
    let unsigned = slice_subrange(
        token,
        if signed {
            1
        } else {
            0
        },
        n,
    );
    let mark = scan(unsigned, LOWER_E, UPPER_E);
    let before_mark = slice_subrange(unsigned, 0, mark);
    let mantissa = parse_mantissa(before_mark);
    let exponent = if mark < unsigned.len() {
        parse_clamped(slice_subrange(unsigned, mark + 1, unsigned.len()), EXPONENT_BOUND)
    } else {
        Some(0)
    };
    proof {
        assert(unsigned@ =~= token@.skip(sign_len(token@)));
        assert(set![LOWER_E, UPPER_E] =~= exponent_marks());
        assert(before_mark@ =~= mantissa_part(token@));
        if mark < unsigned@.len() {
            assert(unsigned@.subrange(mark + 1, unsigned@.len() as int) =~= exponent_part(
                token@,
            )->Some_0);
        }
        lemma_kept(digits_of(mantissa_part(token@)));
    }
    match (mantissa, exponent) {
        (Some((digits, scale, dropped)), Some(exponent)) => Some(
            Decimal {
                negative,
                digits,
                scale,
                dropped,
                exponent: if exponent == EXPONENT_BOUND {
                    i32::MAX
                } else {
                    exponent as i32
                },
            },
        ),
        _ => None,
    }
}

} // verus!
