//! Coordinates as decimal text.
//!
//! A numeral is an optional sign, digits, optionally a point and more
//! digits, and optionally an exponent: the letter `e`, an optional sign and
//! digits. Digits must stand on at least one side of the point. A numeral
//! is read in degrees and kept to the seventh digit behind the point, the
//! rest being cut off.

use crate::geo::{distance_from_zero, UNITS_PER_DEGREE};
use crate::text::{ascii_string, ascii_text, is_ascii_bytes};
use vstd::prelude::*;

verus! {

/// The digit zero.
pub const ZERO: u8 = 0x30;

/// The digit nine.
pub const NINE: u8 = 0x39;

/// The decimal point.
pub const POINT: u8 = 0x2e;

/// The sign of a negative numeral.
pub const MINUS: u8 = 0x2d;

/// The sign that a numeral above zero may bear.
pub const PLUS: u8 = 0x2b;

/// The mark that stands before an exponent.
pub const EXPONENT_MARK: u8 = 0x65;

/// The same mark as a capital letter.
pub const CAPITAL_EXPONENT_MARK: u8 = 0x45;

/// Digits kept behind the point: as many as `UNITS_PER_DEGREE` has zeros.
pub const FRACTION_DIGITS: usize = 7;

/// Whether `byte` is one of the ten digits.
pub open spec fn spec_is_digit(byte: u8) -> bool {
    ZERO <= byte <= NINE
}

/// Decides `spec_is_digit`.
#[verifier::when_used_as_spec(spec_is_digit)]
pub fn is_digit(byte: u8) -> (digit: bool)
    ensures
        digit == spec_is_digit(byte),
{
    ZERO <= byte && byte <= NINE
}

/// Whether `text` holds digits only.
pub open spec fn all_digits(text: Seq<u8>) -> bool {
    forall|i: int| 0 <= i < text.len() ==> is_digit(#[trigger] text[i])
}

/// The number that a run of digits writes.
pub open spec fn digits_value(digits: Seq<u8>) -> nat
    decreases digits.len(),
{
    if digits.len() == 0 {
        0
    } else {
        digits_value(digits.drop_last()) * 10 + (digits.last() - ZERO) as nat
    }
}

/// A run of `count` zeros.
pub open spec fn zeros(count: nat) -> Seq<u8> {
    Seq::new(count, |i: int| ZERO)
}

/// Whether `byte` marks an exponent.
pub open spec fn spec_is_exponent_mark(byte: u8) -> bool {
    byte == EXPONENT_MARK || byte == CAPITAL_EXPONENT_MARK
}

/// Decides `spec_is_exponent_mark`.
#[verifier::when_used_as_spec(spec_is_exponent_mark)]
pub fn is_exponent_mark(byte: u8) -> (mark: bool)
    ensures
        mark == spec_is_exponent_mark(byte),
{
    byte == EXPONENT_MARK || byte == CAPITAL_EXPONENT_MARK
}

/// Whether `text` begins with a sign.
pub open spec fn has_sign(text: Seq<u8>) -> bool {
    text.len() > 0 && (text[0] == MINUS || text[0] == PLUS)
}

/// `text` without its sign.
pub open spec fn unsigned_part(text: Seq<u8>) -> Seq<u8> {
    if has_sign(text) {
        text.skip(1)
    } else {
        text
    }
}

/// The whole number that a sign and digits write, below zero under a minus.
pub open spec fn signed_value(text: Seq<u8>) -> int {
    if text.len() > 0 && text[0] == MINUS {
        -digits_value(unsigned_part(text))
    } else {
        digits_value(unsigned_part(text)) as int
    }
}

/// Where the first exponent mark of `body` stands, or its length if it has
/// none.
pub open spec fn mark_at(body: Seq<u8>) -> int
    decreases body.len(),
{
    if body.len() == 0 || is_exponent_mark(body[0]) {
        0
    } else {
        1 + mark_at(body.skip(1))
    }
}

/// Where the first point of `body` stands, or its length if it has none.
pub open spec fn point_at(body: Seq<u8>) -> int
    decreases body.len(),
{
    if body.len() == 0 || body[0] == POINT {
        0
    } else {
        1 + point_at(body.skip(1))
    }
}

/// Whether `text` has an exponent mark.
pub open spec fn has_exponent(text: Seq<u8>) -> bool {
    mark_at(unsigned_part(text)) < unsigned_part(text).len()
}

/// What `text` holds between its sign and its first exponent mark.
pub open spec fn mantissa(text: Seq<u8>) -> Seq<u8> {
    unsigned_part(text).take(mark_at(unsigned_part(text)))
}

/// What `text` holds behind its first exponent mark.
pub open spec fn exponent_part(text: Seq<u8>) -> Seq<u8> {
    if has_exponent(text) {
        unsigned_part(text).skip(mark_at(unsigned_part(text)) + 1)
    } else {
        Seq::empty()
    }
}

/// What the mantissa holds before its first point.
pub open spec fn whole_part(text: Seq<u8>) -> Seq<u8> {
    mantissa(text).take(point_at(mantissa(text)))
}

/// What the mantissa holds behind its first point.
pub open spec fn fraction_part(text: Seq<u8>) -> Seq<u8> {
    if point_at(mantissa(text)) < mantissa(text).len() {
        mantissa(text).skip(point_at(mantissa(text)) + 1)
    } else {
        Seq::empty()
    }
}

/// Whether `text` is a numeral: digits on at least one side of the point
/// and nothing but digits, and behind an exponent mark an optional sign and
/// at least one digit.
pub open spec fn is_numeral(text: Seq<u8>) -> bool {
    &&& all_digits(whole_part(text))
    &&& all_digits(fraction_part(text))
    &&& whole_part(text).len() + fraction_part(text).len() > 0
    &&& has_exponent(text) ==> unsigned_part(exponent_part(text)).len() > 0 && all_digits(
        unsigned_part(exponent_part(text)),
    )
}

/// The exponent of a numeral, zero where it has none.
pub open spec fn exponent(text: Seq<u8>) -> int {
    signed_value(exponent_part(text))
}

/// Ten to the power of `exponent`.
pub open spec fn pow10(exponent: nat) -> nat
    decreases exponent,
{
    if exponent == 0 {
        1
    } else {
        10 * pow10((exponent - 1) as nat)
    }
}

/// The number that the first `keep` of `digits` write, with zeros standing
/// in for digits that are not there.
pub open spec fn leading_value(digits: Seq<u8>, keep: int) -> nat {
    if keep <= 0 {
        0
    } else if keep <= digits.len() {
        digits_value(digits.take(keep))
    } else {
        digits_value(digits) * pow10((keep - digits.len()) as nat)
    }
}

/// The units that a numeral stands for: ten million times its value, that
/// is, its digits with the point moved to the right by seven places and by
/// its exponent, and with what then stands behind the point cut off; below
/// zero under a minus.
pub open spec fn numeral_units(text: Seq<u8>) -> int {
    let magnitude = leading_value(
        whole_part(text) + fraction_part(text),
        whole_part(text).len() + FRACTION_DIGITS + exponent(text),
    );
    if text.len() > 0 && text[0] == MINUS {
        -magnitude
    } else {
        magnitude as int
    }
}

/// The coordinate that `text` writes: the units of the numeral, where
/// `text` is one and the units fit 64 bits.
pub open spec fn parse_units(text: Seq<u8>) -> Option<i64> {
    if is_numeral(text) && i64::MIN <= numeral_units(text) <= i64::MAX {
        Some(numeral_units(text) as i64)
    } else {
        None
    }
}

/// The first point of a text has no point before it, and stands within the
/// text unless the text has none.
pub proof fn lemma_point_at(body: Seq<u8>)
    ensures
        0 <= point_at(body) <= body.len(),
        forall|i: int| 0 <= i < point_at(body) ==> body[i] != POINT,
        point_at(body) < body.len() ==> body[point_at(body)] == POINT,
    decreases body.len(),
{
    if body.len() == 0 || body[0] == POINT {
    } else {
        let rest = body.skip(1);
        lemma_point_at(rest);
        assert forall|i: int| 0 <= i < point_at(body) implies body[i] != POINT by {
            if i > 0 {
                assert(body[i] == rest[i - 1]);
            }
        }
        if point_at(body) < body.len() {
            assert(body[point_at(body)] == rest[point_at(rest)]);
        }
    }
}

/// The first exponent mark of a text has no mark before it, and stands
/// within the text unless the text has none.
pub proof fn lemma_mark_at(body: Seq<u8>)
    ensures
        0 <= mark_at(body) <= body.len(),
        forall|i: int| 0 <= i < mark_at(body) ==> !is_exponent_mark(body[i]),
        mark_at(body) < body.len() ==> is_exponent_mark(body[mark_at(body)]),
    decreases body.len(),
{
    if body.len() == 0 || is_exponent_mark(body[0]) {
    } else {
        let rest = body.skip(1);
        lemma_mark_at(rest);
        assert forall|i: int| 0 <= i < mark_at(body) implies !is_exponent_mark(body[i]) by {
            if i > 0 {
                assert(body[i] == rest[i - 1]);
            }
        }
        if mark_at(body) < body.len() {
            assert(body[mark_at(body)] == rest[mark_at(rest)]);
        }
    }
}

/// One more digit at the end of a run: ten times what stood before, and the
/// digit.
pub proof fn lemma_digits_value_step(digits: Seq<u8>, count: int)
    requires
        0 <= count < digits.len(),
    ensures
        digits_value(digits.take(count + 1)) == digits_value(digits.take(count)) * 10 + (
        digits[count] - ZERO) as nat,
{
    let longer = digits.take(count + 1);
    assert(longer.drop_last() =~= digits.take(count));
    assert(longer.last() == digits[count]);
}

/// A power of ten is at least one.
pub proof fn lemma_pow10_positive(exponent: nat)
    ensures
        pow10(exponent) >= 1,
    decreases exponent,
{
    if exponent > 0 {
        lemma_pow10_positive((exponent - 1) as nat);
    }
}

/// Powers of ten multiply as their exponents add, and grow with them.
pub proof fn lemma_pow10(low: nat, more: nat)
    ensures
        pow10(low + more) == pow10(low) * pow10(more),
        1 <= pow10(low) <= pow10(low + more),
    decreases more,
{
    lemma_pow10_positive(low);
    if more == 0 {
        assert(pow10(low) * 1 == pow10(low)) by (nonlinear_arith);
    } else {
        lemma_pow10(low, (more - 1) as nat);
        let before = pow10(low + (more - 1) as nat);
        assert(pow10(low + more) == 10 * before);
        assert(10 * (pow10(low) * pow10((more - 1) as nat)) == pow10(low) * (10 * pow10(
            (more - 1) as nat,
        ))) by (nonlinear_arith);
    }
}

/// Zeros behind a run of digits multiply its number by ten each.
pub proof fn lemma_digits_value_zeros(digits: Seq<u8>, count: nat)
    ensures
        digits_value(digits + zeros(count)) == digits_value(digits) * pow10(count),
    decreases count,
{
    if count == 0 {
        assert(digits + zeros(0) =~= digits);
        assert(digits_value(digits) * 1 == digits_value(digits)) by (nonlinear_arith);
    } else {
        let longer = digits + zeros(count);
        let shorter = digits + zeros((count - 1) as nat);
        assert(longer.drop_last() =~= shorter);
        assert(longer.last() == ZERO);
        lemma_digits_value_zeros(digits, (count - 1) as nat);
        assert(digits_value(digits) * pow10((count - 1) as nat) * 10 == digits_value(digits) * (10
            * pow10((count - 1) as nat))) by (nonlinear_arith);
    }
}

/// The number of two runs of digits, one behind the other: the first moved
/// to the left by the length of the second, and the second.
pub proof fn lemma_digits_value_both(first: Seq<u8>, second: Seq<u8>)
    ensures
        digits_value(first + second) == digits_value(first) * pow10(second.len())
            + digits_value(second),
    decreases second.len(),
{
    if second.len() == 0 {
        assert(first + second =~= first);
        assert(digits_value(first) * 1 == digits_value(first)) by (nonlinear_arith);
    } else {
        let both = first + second;
        assert(both.drop_last() =~= first + second.drop_last());
        assert(both.last() == second.last());
        lemma_digits_value_both(first, second.drop_last());
        let shorter = pow10(second.drop_last().len());
        assert(pow10(second.len()) == 10 * shorter);
        assert((digits_value(first) * shorter + digits_value(second.drop_last())) * 10
            == digits_value(first) * (10 * shorter) + digits_value(second.drop_last()) * 10)
            by (nonlinear_arith);
    }
}

/// The largest exponent that is told apart: a larger one moves the point as
/// far as makes no difference.
const EXPONENT_LIMIT: i128 = 1_000_000_000_000_000_000_000_000_000_000;

/// The largest distance from zero that 64 bits hold, that of the least
/// number.
const DISTANCE_LIMIT: u128 = 9_223_372_036_854_775_808;

/// Whether `held` is `exact`, or the limit of its sign where `exact` lies
/// at or beyond it.
spec fn held_exponent(held: i128, exact: int) -> bool {
    if exact >= EXPONENT_LIMIT {
        held == EXPONENT_LIMIT
    } else if exact <= -EXPONENT_LIMIT {
        held == -EXPONENT_LIMIT
    } else {
        held == exact
    }
}

/// Reads what stands behind an exponent mark, from `at` to the end of
/// `text`: a sign, if there is one, and digits. There is no exponent where
/// a digit is missing or something else stands there.
fn read_exponent(text: &[u8], from: usize) -> (exponent: Option<i128>)
    requires
        from <= text@.len(),
    ensures
        exponent is Some <==> unsigned_part(text@.skip(from as int)).len() > 0 && all_digits(
            unsigned_part(text@.skip(from as int)),
        ),
        exponent matches Some(held) ==> held_exponent(
            held,
            signed_value(text@.skip(from as int)),
        ),
{
    let len: usize = text.len();
    let ghost tail = text@.skip(from as int);
    let ghost digits = unsigned_part(tail);
    let mut at: usize = from;
    let mut negative: bool = false;
    if at < len && (text[at] == MINUS || text[at] == PLUS) {
        negative = text[at] == MINUS;
        at += 1;
    }
    let first: usize = at;
    proof {
        assert(digits =~= text@.skip(first as int));
        assert(digits.take(0).len() == 0);
    }
    if at == len {
        assert(digits.len() == 0);
        return None;
    }
    let mut distance: i128 = 0;
    while at < len
        invariant
            first <= at <= len == text@.len(),
            digits == text@.skip(first as int),
            digits == unsigned_part(text@.skip(from as int)),
            forall|i: int| 0 <= i < at - first ==> is_digit(#[trigger] digits[i]),
            0 <= distance <= EXPONENT_LIMIT,
            distance < EXPONENT_LIMIT ==> distance == digits_value(digits.take(at - first)),
            distance == EXPONENT_LIMIT ==> digits_value(digits.take(at - first))
                >= EXPONENT_LIMIT,
        decreases len - at,
    {
        if !is_digit(text[at]) {
            proof {
                assert(digits[at - first] == text@[at as int]);
                assert(!is_digit(digits[at - first]));
                assert(!all_digits(digits));
            }
            return None;
        }
        proof {
            lemma_digits_value_step(digits, at - first);
        }
        let next: i128 = distance * 10 + (text[at] - ZERO) as i128;
        distance = if next >= EXPONENT_LIMIT {
            EXPONENT_LIMIT
        } else {
            next
        };
        at += 1;
    }
    proof {
        assert(digits.take(digits.len() as int) =~= digits);
        assert(negative == (tail.len() > 0 && tail[0] == MINUS));
    }
    if negative {
        Some(-distance)
    } else {
        Some(distance)
    }
}

/// Where the parts of a numeral stand in its text, and its exponent.
struct Parts {
    negative: bool,
    whole_start: usize,
    whole_end: usize,
    fraction_start: usize,
    fraction_end: usize,
    exponent: i128,
}

impl Parts {
    /// Whether the parts are those of the numeral `text`.
    spec fn of(self, text: Seq<u8>) -> bool {
        &&& self.whole_start <= self.whole_end <= self.fraction_start <= self.fraction_end
            <= text.len()
        &&& whole_part(text) == text.subrange(self.whole_start as int, self.whole_end as int)
        &&& fraction_part(text) == text.subrange(
            self.fraction_start as int,
            self.fraction_end as int,
        )
        &&& self.negative == (text.len() > 0 && text[0] == MINUS)
        &&& held_exponent(self.exponent, exponent(text))
    }
}

/// Whether `text` begins like a numeral up to `stop`: behind the sign, which
/// ends at `start`, digits up to `whole_end`, then, if `pointed`, a point
/// and digits from `fraction_start` on.
spec fn scanned(
    text: Seq<u8>,
    start: int,
    whole_end: int,
    fraction_start: int,
    stop: int,
    pointed: bool,
) -> bool {
    &&& 0 <= start <= whole_end <= fraction_start <= stop <= text.len()
    &&& unsigned_part(text) == text.skip(start)
    &&& forall|i: int| start <= i < whole_end ==> is_digit(#[trigger] text[i])
    &&& forall|i: int| fraction_start <= i < stop ==> is_digit(#[trigger] text[i])
    &&& if pointed {
        fraction_start == whole_end + 1 && text[whole_end] == POINT
    } else {
        fraction_start == whole_end && stop == whole_end
    }
}

/// A byte that is neither a digit nor a point nor an exponent mark, and
/// stands where the mantissa goes on, makes the text no numeral; so does a
/// second point.
proof fn lemma_stray_byte(
    text: Seq<u8>,
    start: int,
    whole_end: int,
    fraction_start: int,
    stop: int,
    pointed: bool,
)
    requires
        scanned(text, start, whole_end, fraction_start, stop, pointed),
        stop < text.len(),
        !is_digit(text[stop]),
        !is_exponent_mark(text[stop]),
        !pointed ==> text[stop] != POINT,
    ensures
        !is_numeral(text),
{
    let body = unsigned_part(text);
    let at = stop - start;
    lemma_mark_at(body);
    assert forall|i: int| 0 <= i <= at implies !is_exponent_mark(#[trigger] body[i]) by {
        assert(body[i] == text[start + i]);
        if start + i < whole_end {
            assert(is_digit(text[start + i]));
        } else if start + i >= fraction_start && i < at {
            assert(is_digit(text[start + i]));
        }
    }
    assert(mark_at(body) > at);
    let digits = mantissa(text);
    lemma_point_at(digits);
    assert forall|i: int| 0 <= i <= at implies digits[i] == text[start + i] by {
        assert(digits[i] == body[i]);
    }
    if pointed {
        let point = whole_end - start;
        assert forall|i: int| 0 <= i < point implies digits[i] != POINT by {
            assert(is_digit(text[start + i]));
        }
        assert(digits[point] == POINT);
        assert(point_at(digits) == point);
        assert(fraction_part(text)[at - point - 1] == digits[at]);
    } else {
        assert forall|i: int| 0 <= i <= at implies digits[i] != POINT by {
            if i < at {
                assert(is_digit(text[start + i]));
            }
        }
        assert(point_at(digits) > at);
        assert(whole_part(text)[at] == digits[at]);
    }
}

/// Where the digits that were passed end at an exponent mark or at the end
/// of the text, they and their point are the mantissa.
proof fn lemma_mantissa_found(
    text: Seq<u8>,
    start: int,
    whole_end: int,
    fraction_start: int,
    stop: int,
    pointed: bool,
)
    requires
        scanned(text, start, whole_end, fraction_start, stop, pointed),
        stop < text.len() ==> is_exponent_mark(text[stop]),
    ensures
        mantissa(text) == text.subrange(start, stop),
        has_exponent(text) == (stop < text.len()),
        exponent_part(text) == if stop < text.len() {
            text.skip(stop + 1)
        } else {
            Seq::empty()
        },
{
    let body = unsigned_part(text);
    let at = stop - start;
    lemma_mark_at(body);
    assert forall|i: int| 0 <= i < at implies !is_exponent_mark(#[trigger] body[i]) by {
        assert(body[i] == text[start + i]);
        if start + i < whole_end {
            assert(is_digit(text[start + i]));
        } else if start + i >= fraction_start {
            assert(is_digit(text[start + i]));
        }
    }
    if stop < text.len() {
        assert(body[at] == text[stop]);
    }
    assert(mark_at(body) == at);
    assert(mantissa(text) =~= text.subrange(start, stop));
    if stop < text.len() {
        assert(exponent_part(text) =~= text.skip(stop + 1));
    }
}

/// Where the digits that were passed, and their point, are the mantissa,
/// the parts before and behind the point are those digits.
proof fn lemma_parts_found(
    text: Seq<u8>,
    start: int,
    whole_end: int,
    fraction_start: int,
    stop: int,
    pointed: bool,
)
    requires
        scanned(text, start, whole_end, fraction_start, stop, pointed),
        mantissa(text) == text.subrange(start, stop),
    ensures
        whole_part(text) == text.subrange(start, whole_end),
        fraction_part(text) == text.subrange(fraction_start, stop),
        all_digits(whole_part(text)),
        all_digits(fraction_part(text)),
{
    let digits = mantissa(text);
    lemma_point_at(digits);
    if pointed {
        let point = whole_end - start;
        assert forall|i: int| 0 <= i < point implies digits[i] != POINT by {
            assert(is_digit(text[start + i]));
        }
        assert(digits[point] == POINT);
        assert(point_at(digits) == point);
    } else {
        assert forall|i: int| 0 <= i < digits.len() implies digits[i] != POINT by {
            assert(is_digit(text[start + i]));
        }
        assert(point_at(digits) == digits.len());
    }
    let whole = text.subrange(start, whole_end);
    let fraction = text.subrange(fraction_start, stop);
    assert(whole_part(text) =~= whole);
    assert(fraction_part(text) =~= fraction);
    assert forall|i: int| 0 <= i < whole.len() implies is_digit(#[trigger] whole[i]) by {
        assert(whole[i] == text[start + i]);
    }
    assert forall|i: int| 0 <= i < fraction.len() implies is_digit(#[trigger] fraction[i]) by {
        assert(fraction[i] == text[fraction_start + i]);
    }
}

/// Finds the parts of a numeral. There are none where `text` is no numeral.
fn find_parts(text: &[u8]) -> (parts: Option<Parts>)
    ensures
        parts is Some <==> is_numeral(text@),
        parts matches Some(found) ==> found.of(text@),
{
    let len: usize = text.len();
    let mut at: usize = 0;
    let mut negative: bool = false;
    if len > 0 && (text[0] == MINUS || text[0] == PLUS) {
        negative = text[0] == MINUS;
        at = 1;
    }
    let start: usize = at;
    proof {
        assert(unsigned_part(text@) =~= text@.skip(start as int));
    }
    while at < len && is_digit(text[at])
        invariant
            start <= at <= len == text@.len(),
            forall|i: int| start <= i < at ==> is_digit(#[trigger] text@[i]),
        decreases len - at,
    {
        at += 1;
    }
    let whole_end: usize = at;
    let mut fraction_start: usize = at;
    let pointed: bool = at < len && text[at] == POINT;
    if pointed {
        at += 1;
        fraction_start = at;
        while at < len && is_digit(text[at])
            invariant
                fraction_start <= at <= len == text@.len(),
                forall|i: int| fraction_start <= i < at ==> is_digit(#[trigger] text@[i]),
            decreases len - at,
        {
            at += 1;
        }
    }
    let fraction_end: usize = at;
    assert(scanned(
        text@,
        start as int,
        whole_end as int,
        fraction_start as int,
        at as int,
        pointed,
    ));
    if at < len && !is_exponent_mark(text[at]) {
        proof {
            lemma_stray_byte(
                text@,
                start as int,
                whole_end as int,
                fraction_start as int,
                at as int,
                pointed,
            );
        }
        return None;
    }
    proof {
        lemma_mantissa_found(
            text@,
            start as int,
            whole_end as int,
            fraction_start as int,
            at as int,
            pointed,
        );
        lemma_parts_found(
            text@,
            start as int,
            whole_end as int,
            fraction_start as int,
            at as int,
            pointed,
        );
    }
    if (whole_end - start) + (fraction_end - fraction_start) == 0 {
        return None;
    }
    let mut held: i128 = 0;
    if at < len {
        match read_exponent(text, at + 1) {
            Some(read) => {
                held = read;
            },
            None => {
                return None;
            },
        }
    } else {
        proof {
            assert(unsigned_part(exponent_part(text@)).len() == 0);
            assert(exponent(text@) == 0);
        }
    }
    Some(
        Parts {
            negative,
            whole_start: start,
            whole_end,
            fraction_start,
            fraction_end,
            exponent: held,
        },
    )
}

/// What a number multiplied by a power of ten comes to when it is
/// multiplied by a higher one: beyond the limit if it was so before, zero if
/// it was zero, and beyond the limit too if it was above zero after
/// nineteen or more steps of ten.
proof fn lemma_leading_padded(all: nat, added: nat, rest: nat, number: int, too_big: bool)
    requires
        !too_big ==> number == all * pow10(added),
        too_big ==> all * pow10(added) > DISTANCE_LIMIT,
        number <= DISTANCE_LIMIT,
        too_big || number == 0 || rest == 0 || added >= 19,
    ensures
        too_big ==> all * pow10(added + rest) > DISTANCE_LIMIT,
        !too_big ==> all * pow10(added + rest) == number,
{
    lemma_pow10(added, rest);
    lemma_pow10_positive(rest);
    lemma_pow10_positive(added);
    let low = pow10(added);
    let high = pow10(rest);
    assert(all * (low * high) == all * low * high) by (nonlinear_arith);
    if too_big {
        assert(all * low * high >= all * low) by (nonlinear_arith)
            requires
                high >= 1,
                all * low >= 0,
        ;
    } else if number == 0 {
        assert(all == 0) by (nonlinear_arith)
            requires
                all * low == 0,
                low >= 1,
                all >= 0,
        ;
        assert(all * (low * high) == 0) by (nonlinear_arith)
            requires
                all == 0,
        ;
    } else if rest > 0 {
        assert(all >= 1) by (nonlinear_arith)
            requires
                all * low != 0,
                all >= 0,
        ;
        lemma_pow10(19, (added - 19) as nat);
        assert(pow10(19) == 10_000_000_000_000_000_000) by {
            reveal_with_fuel(pow10, 20);
        }
        assert(all * low >= low) by (nonlinear_arith)
            requires
                all >= 1,
                low >= 0,
        ;
        assert(false);
    } else {
        assert(high == 1);
        assert(all * low * 1 == all * low) by (nonlinear_arith);
    }
}

/// The number that the first digits of a numeral write, as `leading_value`
/// counts it, as far as it stays within the distance from zero that 64
/// bits hold; nothing where it lies beyond.
fn read_leading(text: &[u8], parts: &Parts, Ghost(exact): Ghost<int>) -> (value: Option<u64>)
    requires
        parts.whole_start <= parts.whole_end <= parts.fraction_start <= parts.fraction_end
            <= text@.len(),
        all_digits(text@.subrange(parts.whole_start as int, parts.whole_end as int)),
        all_digits(text@.subrange(parts.fraction_start as int, parts.fraction_end as int)),
        held_exponent(parts.exponent, exact),
    ensures
        ({
            let digits = text@.subrange(parts.whole_start as int, parts.whole_end as int)
                + text@.subrange(parts.fraction_start as int, parts.fraction_end as int);
            let wanted = leading_value(
                digits,
                parts.whole_end - parts.whole_start + FRACTION_DIGITS + exact,
            );
            match value {
                Some(number) => number == wanted && number <= DISTANCE_LIMIT,
                None => wanted > DISTANCE_LIMIT,
            }
        }),
{
    let len: usize = text.len();
    let whole_len: usize = parts.whole_end - parts.whole_start;
    let fraction_len: usize = parts.fraction_end - parts.fraction_start;
    let total: usize = whole_len + fraction_len;
    let ghost whole = text@.subrange(parts.whole_start as int, parts.whole_end as int);
    let ghost fraction = text@.subrange(parts.fraction_start as int, parts.fraction_end as int);
    let ghost digits = whole + fraction;
    let ghost wanted_keep = whole_len + FRACTION_DIGITS + exact;
    let keep: i128 = whole_len as i128 + 7 + parts.exponent;
    if keep <= 0 {
        return Some(0);
    }
    let taken: usize = if keep < total as i128 {
        keep as usize
    } else {
        total
    };
    let mut number: u128 = 0;
    let mut too_big: bool = false;
    let mut i: usize = 0;
    proof {
        assert(digits.take(0).len() == 0);
    }
    while i < taken
        invariant
            i <= taken <= total == digits.len(),
            whole_len == parts.whole_end - parts.whole_start,
            total == whole_len + fraction_len,
            parts.whole_start <= parts.whole_end <= parts.fraction_start <= parts.fraction_end
                <= text@.len(),
            fraction_len == parts.fraction_end - parts.fraction_start,
            whole == text@.subrange(parts.whole_start as int, parts.whole_end as int),
            fraction == text@.subrange(parts.fraction_start as int, parts.fraction_end as int),
            digits == whole + fraction,
            all_digits(whole),
            all_digits(fraction),
            number <= DISTANCE_LIMIT,
            !too_big ==> number == digits_value(digits.take(i as int)),
            too_big ==> digits_value(digits.take(i as int)) > DISTANCE_LIMIT,
        decreases taken - i,
    {
        let byte: u8 = if i < whole_len {
            text[parts.whole_start + i]
        } else {
            text[parts.fraction_start + (i - whole_len)]
        };
        proof {
            if i < whole_len {
                assert(digits[i as int] == whole[i as int]);
                assert(is_digit(whole[i as int]));
            } else {
                assert(digits[i as int] == fraction[i - whole_len]);
                assert(is_digit(fraction[i - whole_len]));
            }
            lemma_digits_value_step(digits, i as int);
        }
        let next: u128 = number * 10 + (byte - ZERO) as u128;
        if !too_big && next <= DISTANCE_LIMIT {
            number = next;
        } else {
            too_big = true;
        }
        i += 1;
    }
    if keep <= total as i128 {
        proof {
            assert(keep == wanted_keep);
        }
        return if too_big {
            None
        } else {
            Some(number as u64)
        };
    }
    let mut missing: i128 = keep - total as i128;
    let ghost added: nat = 0;
    let ghost wanted_missing = wanted_keep - total;
    proof {
        assert(digits.take(total as int) =~= digits);
        assert(wanted_missing >= missing);
        lemma_pow10(0, 0);
        assert(digits_value(digits) * 1 == digits_value(digits)) by (nonlinear_arith);
    }
    while missing > 0 && number != 0 && !too_big
        invariant
            0 <= missing,
            added + missing == keep - total,
            number <= DISTANCE_LIMIT,
            !too_big ==> number == digits_value(digits) * pow10(added),
            too_big ==> digits_value(digits) * pow10(added) > DISTANCE_LIMIT,
        decreases missing,
    {
        proof {
            assert(pow10(added + 1) == 10 * pow10(added));
            assert(digits_value(digits) * pow10(added) * 10 == digits_value(digits) * (10 * pow10(
                added,
            ))) by (nonlinear_arith);
        }
        let next: u128 = number * 10;
        if next <= DISTANCE_LIMIT {
            number = next;
        } else {
            too_big = true;
        }
        missing -= 1;
        proof {
            added = added + 1;
        }
    }
    proof {
        lemma_leading_padded(
            digits_value(digits),
            added,
            (wanted_missing - added) as nat,
            number as int,
            too_big,
        );
    }
    if too_big {
        None
    } else {
        Some(number as u64)
    }
}

/// Reads a coordinate from decimal text, as `parse_units` says.
pub fn from_decimal(text: &[u8]) -> (units: Option<i64>)
    ensures
        units == parse_units(text@),
{
    let parts = match find_parts(text) {
        Some(parts) => parts,
        None => {
            return None;
        },
    };
    match read_leading(text, &parts, Ghost(exponent(text@))) {
        Some(distance) => if parts.negative {
            if distance == 9_223_372_036_854_775_808 {
                Some(i64::MIN)
            } else {
                Some(-(distance as i64))
            }
        } else if distance == 9_223_372_036_854_775_808 {
            None
        } else {
            Some(distance as i64)
        },
        None => None,
    }
}

/// The digits that write `number`, without leading zeros.
pub open spec fn digits_of(number: nat) -> Seq<u8>
    decreases number,
{
    if number < 10 {
        seq![(ZERO + number) as u8]
    } else {
        digits_of(number / 10).push((ZERO + number % 10) as u8)
    }
}

/// The last `width` digits of `number`, with zeros in front where it has
/// fewer.
pub open spec fn padded_digits(number: nat, width: nat) -> Seq<u8>
    decreases width,
{
    if width == 0 {
        Seq::empty()
    } else {
        padded_digits(number / 10, (width - 1) as nat).push((ZERO + number % 10) as u8)
    }
}

/// `digits` without the zeros at its end, but for its first digit.
pub open spec fn trim_zeros(digits: Seq<u8>) -> Seq<u8>
    decreases digits.len(),
{
    if digits.len() > 1 && digits.last() == ZERO {
        trim_zeros(digits.drop_last())
    } else {
        digits
    }
}

/// The decimal text of a coordinate: a minus if it is below zero, the whole
/// degrees, a point, and the seven digits of the fraction without the zeros
/// at their end, of which the first always stays.
pub open spec fn format_units(units: i64) -> Seq<u8> {
    let distance = distance_from_zero(units) as nat;
    let sign = if units < 0 {
        seq![MINUS]
    } else {
        Seq::empty()
    };
    sign + digits_of(distance / (UNITS_PER_DEGREE as nat)) + seq![POINT] + trim_zeros(
        padded_digits(distance % (UNITS_PER_DEGREE as nat), FRACTION_DIGITS as nat),
    )
}

/// Appends the digits of `number`.
fn push_digits(out: &mut Vec<u8>, number: u64)
    ensures
        final(out)@ == old(out)@ + digits_of(number as nat),
    decreases number,
{
    if number >= 10 {
        push_digits(out, number / 10);
    }
    out.push(ZERO + (number % 10) as u8);
    assert(final(out)@ =~= old(out)@ + digits_of(number as nat));
}

/// Appends the last `width` digits of `number`.
fn push_padded(out: &mut Vec<u8>, number: u64, width: usize)
    ensures
        final(out)@ == old(out)@ + padded_digits(number as nat, width as nat),
    decreases width,
{
    if width > 0 {
        push_padded(out, number / 10, width - 1);
        out.push(ZERO + (number % 10) as u8);
    }
    assert(final(out)@ =~= old(out)@ + padded_digits(number as nat, width as nat));
}

/// The digits of `number` as text.
pub fn digits_string(number: u64) -> (text: String)
    ensures
        text@ == ascii_text(digits_of(number as nat)),
{
    let mut digits: Vec<u8> = Vec::new();
    push_digits(&mut digits, number);
    proof {
        lemma_digits_of(number as nat);
        assert(digits@ =~= digits_of(number as nat));
        assert forall|i: int| 0 <= i < digits@.len() implies #[trigger] digits@[i] < 128 by {
            assert(is_digit(digits@[i]));
        }
    }
    ascii_string(digits.as_slice())
}

/// The last `width` digits of `number` as text.
pub fn padded_string(number: u64, width: usize) -> (text: String)
    ensures
        text@ == ascii_text(padded_digits(number as nat, width as nat)),
{
    let mut digits: Vec<u8> = Vec::new();
    push_padded(&mut digits, number, width);
    proof {
        lemma_padded_digits_len(number as nat, width as nat);
        assert(digits@ =~= padded_digits(number as nat, width as nat));
        assert forall|i: int| 0 <= i < digits@.len() implies #[trigger] digits@[i] < 128 by {
            assert(is_digit(digits@[i]));
        }
    }
    ascii_string(digits.as_slice())
}

/// What zeros `trim_zeros` takes away are zeros at the end, and it leaves a
/// digit where there was one.
pub proof fn lemma_trim_zeros(digits: Seq<u8>)
    ensures
        trim_zeros(digits).len() <= digits.len(),
        digits.len() > 0 ==> trim_zeros(digits).len() > 0,
        trim_zeros(digits) == digits.take(trim_zeros(digits).len() as int),
        forall|i: int| trim_zeros(digits).len() <= i < digits.len() ==> digits[i] == ZERO,
        trim_zeros(digits).len() > 1 ==> trim_zeros(digits).last() != ZERO,
    decreases digits.len(),
{
    if digits.len() > 1 && digits.last() == ZERO {
        let shorter = digits.drop_last();
        lemma_trim_zeros(shorter);
        let kept = trim_zeros(shorter).len() as int;
        assert(shorter.take(kept) =~= digits.take(kept));
        assert forall|i: int| kept <= i < digits.len() implies digits[i] == ZERO by {
            if i < shorter.len() {
                assert(shorter[i] == digits[i]);
            }
        }
    } else {
        assert(digits.take(digits.len() as int) =~= digits);
    }
}

/// Writes a coordinate as decimal text, as `format_units` says.
pub fn to_decimal(units: i64) -> (text: Vec<u8>)
    ensures
        text@ == format_units(units),
{
    let mut text: Vec<u8> = Vec::new();
    let distance: u64 = if units >= 0 {
        units as u64
    } else if units == i64::MIN {
        text.push(MINUS);
        9_223_372_036_854_775_808
    } else {
        text.push(MINUS);
        (-units) as u64
    };
    push_digits(&mut text, distance / 10_000_000);
    text.push(POINT);
    let first: usize = text.len();
    push_padded(&mut text, distance % 10_000_000, FRACTION_DIGITS);
    let ghost head = text@.take(first as int);
    let ghost written = padded_digits((distance % 10_000_000) as nat, FRACTION_DIGITS as nat);
    proof {
        lemma_padded_digits_len((distance % 10_000_000) as nat, FRACTION_DIGITS as nat);
        assert(text@.skip(first as int) =~= written);
    }
    while text.len() > first + 1 && text[text.len() - 1] == ZERO
        invariant
            first < text@.len(),
            text@.take(first as int) == head,
            trim_zeros(text@.skip(first as int)) == trim_zeros(written),
        decreases text@.len(),
    {
        proof {
            let tail = text@.skip(first as int);
            assert(tail.last() == text@[text@.len() - 1]);
            assert(tail.drop_last() =~= text@.drop_last().skip(first as int));
            assert(text@.drop_last().take(first as int) =~= text@.take(first as int));
        }
        text.pop();
    }
    proof {
        let tail = text@.skip(first as int);
        assert(tail.len() > 1 ==> tail.last() == text@[text@.len() - 1]);
        assert(trim_zeros(tail) == tail);
        assert(text@ =~= head + tail);
        assert(text@ =~= format_units(units));
    }
    text
}

/// `padded_digits` gives as many digits as it is asked for.
pub proof fn lemma_padded_digits_len(number: nat, width: nat)
    ensures
        padded_digits(number, width).len() == width,
        all_digits(padded_digits(number, width)),
    decreases width,
{
    if width > 0 {
        lemma_padded_digits_len(number / 10, (width - 1) as nat);
    }
}

/// The digits of a number write that number.
pub proof fn lemma_digits_of(number: nat)
    ensures
        digits_of(number).len() > 0,
        all_digits(digits_of(number)),
        digits_value(digits_of(number)) == number,
    decreases number,
{
    let digits = digits_of(number);
    if number < 10 {
        assert(digits.drop_last().len() == 0);
        assert(digits_value(digits.drop_last()) == 0);
    } else {
        lemma_digits_of(number / 10);
        assert(digits.drop_last() =~= digits_of(number / 10));
    }
}

/// As many digits as a number needs write that number.
pub proof fn lemma_padded_digits_value(number: nat, width: nat)
    requires
        number < pow10(width),
    ensures
        digits_value(padded_digits(number, width)) == number,
    decreases width,
{
    let digits = padded_digits(number, width);
    if width > 0 {
        lemma_padded_digits_value(number / 10, (width - 1) as nat);
        assert(digits.drop_last() =~= padded_digits(number / 10, (width - 1) as nat));
    }
}

/// Reading what was written gives the coordinate back, whatever it is.
pub proof fn lemma_parse_format(units: i64)
    ensures
        parse_units(format_units(units)) == Some(units),
{
    let text = format_units(units);
    let distance = distance_from_zero(units) as nat;
    let whole = digits_of(distance / (UNITS_PER_DEGREE as nat));
    let rest = distance % (UNITS_PER_DEGREE as nat);
    let padded = padded_digits(rest, FRACTION_DIGITS as nat);
    let fraction = trim_zeros(padded);
    let body = whole + seq![POINT] + fraction;
    lemma_digits_of(distance / (UNITS_PER_DEGREE as nat));
    lemma_padded_digits_len(rest, FRACTION_DIGITS as nat);
    assert(pow10(FRACTION_DIGITS as nat) == UNITS_PER_DEGREE) by {
        reveal_with_fuel(pow10, 8);
    }
    lemma_padded_digits_value(rest, FRACTION_DIGITS as nat);
    lemma_trim_zeros(padded);
    assert(all_digits(fraction)) by {
        assert forall|i: int| 0 <= i < fraction.len() implies is_digit(#[trigger] fraction[i]) by {
            assert(fraction[i] == padded[i]);
        }
    }
    assert(is_digit(whole[0]));
    if units < 0 {
        assert(text[0] == MINUS);
        assert(unsigned_part(text) =~= body);
    } else {
        assert(text =~= body);
        assert(text[0] == whole[0]);
    }
    // The text has no exponent: all of it is mantissa.
    lemma_mark_at(body);
    assert forall|i: int| 0 <= i < body.len() implies !is_exponent_mark(#[trigger] body[i]) by {
        if i < whole.len() {
            assert(body[i] == whole[i]);
            assert(is_digit(whole[i]));
        } else if i > whole.len() {
            assert(body[i] == fraction[i - whole.len() - 1]);
            assert(is_digit(fraction[i - whole.len() - 1]));
        }
    }
    assert(mark_at(body) == body.len());
    assert(mantissa(text) =~= body);
    assert(exponent_part(text).len() == 0);
    assert(unsigned_part(exponent_part(text)).len() == 0);
    assert(exponent(text) == 0);
    lemma_point_at(body);
    assert(point_at(body) == whole.len()) by {
        assert(body[whole.len() as int] == POINT);
        assert forall|i: int| 0 <= i < whole.len() implies body[i] != POINT by {
            assert(body[i] == whole[i]);
            assert(is_digit(whole[i]));
        }
    }
    assert(whole_part(text) =~= whole);
    assert(fraction_part(text) =~= fraction);
    assert(is_numeral(text));
    // The digits, filled up to seven behind the point, write the distance.
    let missing = (FRACTION_DIGITS - fraction.len()) as nat;
    assert(fraction + zeros(missing) =~= padded);
    lemma_digits_value_zeros(fraction, missing);
    lemma_digits_value_both(whole, fraction);
    lemma_pow10(fraction.len(), missing);
    let high = digits_value(whole);
    let low = digits_value(fraction);
    let by_length = pow10(fraction.len());
    let by_missing = pow10(missing);
    assert((high * by_length + low) * by_missing == high * (by_length * by_missing) + low
        * by_missing) by (nonlinear_arith);
    assert(distance == (distance / (UNITS_PER_DEGREE as nat)) * UNITS_PER_DEGREE + rest) by {
        vstd::arithmetic::div_mod::lemma_fundamental_div_mod(
            distance as int,
            UNITS_PER_DEGREE as int,
        );
    }
    if missing == 0 {
        assert((whole + fraction).take((whole + fraction).len() as int) =~= whole + fraction);
        assert(by_missing == 1);
    }
    assert(leading_value(whole + fraction, whole.len() + FRACTION_DIGITS + 0) == distance);
    assert((text.len() > 0 && text[0] == MINUS) == (units < 0));
    assert(numeral_units(text) == units);
}

/// The decimal text of a coordinate is made of ASCII characters.
pub proof fn lemma_format_is_ascii(units: i64)
    ensures
        is_ascii_bytes(format_units(units)),
{
    let text = format_units(units);
    let distance = distance_from_zero(units) as nat;
    let whole = digits_of(distance / (UNITS_PER_DEGREE as nat));
    let padded = padded_digits(distance % (UNITS_PER_DEGREE as nat), FRACTION_DIGITS as nat);
    let fraction = trim_zeros(padded);
    lemma_digits_of(distance / (UNITS_PER_DEGREE as nat));
    lemma_padded_digits_len(distance % (UNITS_PER_DEGREE as nat), FRACTION_DIGITS as nat);
    lemma_trim_zeros(padded);
    let sign_len: int = if units < 0 {
        1
    } else {
        0
    };
    assert forall|i: int| 0 <= i < text.len() implies #[trigger] text[i] < 128 by {
        if i < sign_len {
        } else if i < sign_len + whole.len() {
            assert(text[i] == whole[i - sign_len]);
            assert(is_digit(whole[i - sign_len]));
        } else if i == sign_len + whole.len() {
        } else {
            let at = i - sign_len - whole.len() - 1;
            assert(text[i] == fraction[at]);
            assert(fraction[at] == padded[at]);
            assert(is_digit(padded[at]));
        }
    }
}

} // verus!
