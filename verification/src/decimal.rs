//! Amounts and balances as decimal text: digits, a point, and at most four
//! places after it. The engine counts ten-thousandths of one unit of
//! currency; text counts whole units.

use vstd::prelude::*;

verus! {

/// How many ten-thousandths make one unit of currency.
pub const UNITS_PER_WHOLE: u64 = 10_000;

/// The most places that may follow the point.
pub const DECIMAL_PLACES: usize = 4;

/// The byte that separates whole units from the places after them.
pub const POINT: u8 = 46;

/// The byte that opens a negative balance.
pub const MINUS: u8 = 45;

/// The byte of the digit zero; the other digits follow it.
pub const ZERO: u8 = 48;

/// Whether `byte` is one of the ten decimal digits.
pub open spec fn is_digit(byte: u8) -> bool {
    ZERO <= byte <= ZERO + 9
}

/// Whether `text` holds decimal digits and nothing else.
pub open spec fn all_digits(text: Seq<u8>) -> bool {
    forall|i: int| 0 <= i < text.len() ==> is_digit(#[trigger] text[i])
}

/// The number that a string of decimal digits writes, most significant digit
/// first. The empty string writes zero.
pub open spec fn digits_value(digits: Seq<u8>) -> nat
    decreases digits.len(),
{
    if digits.len() == 0 {
        0
    } else {
        digits_value(digits.drop_last()) * 10 + (digits.last() - ZERO) as nat
    }
}

/// Ten to the power `exponent`.
pub open spec fn power_of_ten(exponent: nat) -> nat
    decreases exponent,
{
    if exponent == 0 {
        1
    } else {
        10 * power_of_ten((exponent - 1) as nat)
    }
}

/// Whether `at` is where the whole part of `text` ends: the place of its
/// first point, or its length where it has none.
pub open spec fn is_point_position(text: Seq<u8>, at: int) -> bool {
    &&& 0 <= at <= text.len()
    &&& forall|i: int| 0 <= i < at ==> #[trigger] text[i] != POINT
    &&& at < text.len() ==> text[at] == POINT
}

/// Where the whole part of `text` ends.
pub open spec fn point_position(text: Seq<u8>) -> int {
    choose|at: int| is_point_position(text, at)
}

/// What stands before the first point.
pub open spec fn whole_part(text: Seq<u8>) -> Seq<u8> {
    text.subrange(0, point_position(text))
}

/// What stands after the first point; nothing where there is no point.
pub open spec fn fraction_part(text: Seq<u8>) -> Seq<u8> {
    if point_position(text) < text.len() {
        text.subrange(point_position(text) + 1, text.len() as int)
    } else {
        Seq::empty()
    }
}

/// Whether `text` writes an amount: at least one digit, then optionally a
/// point and at most four digits.
pub open spec fn is_amount_text(text: Seq<u8>) -> bool {
    &&& whole_part(text).len() >= 1
    &&& all_digits(whole_part(text))
    &&& all_digits(fraction_part(text))
    &&& fraction_part(text).len() <= DECIMAL_PLACES
}

/// The ten-thousandths that an amount text counts.
pub open spec fn amount_value(text: Seq<u8>) -> nat {
    digits_value(whole_part(text)) * (UNITS_PER_WHOLE as nat) + digits_value(fraction_part(text))
        * power_of_ten((DECIMAL_PLACES - fraction_part(text).len()) as nat)
}

/// What `text` parses to: its value where it writes an amount that fits,
/// nothing otherwise.
pub open spec fn parsed_amount(text: Seq<u8>) -> Option<u64> {
    if is_amount_text(text) && amount_value(text) <= u64::MAX {
        Some(amount_value(text) as u64)
    } else {
        None
    }
}

/// A text has one point position only.
pub proof fn lemma_point_position_is(text: Seq<u8>, at: int)
    requires
        is_point_position(text, at),
    ensures
        point_position(text) == at,
{
    let chosen = point_position(text);
    assert(is_point_position(text, chosen));
    if chosen < at {
        assert(text[chosen] != POINT);
    }
    if at < chosen {
        assert(text[at] != POINT);
    }
}

/// Reading one more digit multiplies by ten and adds the digit.
proof fn lemma_digits_value_step(text: Seq<u8>, from: int, to: int)
    requires
        0 <= from <= to < text.len(),
    ensures
        digits_value(text.subrange(from, to + 1)) == digits_value(text.subrange(from, to)) * 10 + (
        text[to] - ZERO) as nat,
{
    assert(text.subrange(from, to + 1).drop_last() =~= text.subrange(from, to));
}

/// A string of digits writes at least what any of its prefixes writes.
proof fn lemma_digits_value_prefix(digits: Seq<u8>, length: int)
    requires
        0 <= length <= digits.len(),
    ensures
        digits_value(digits.subrange(0, length)) <= digits_value(digits),
    decreases digits.len(),
{
    if length == digits.len() {
        assert(digits.subrange(0, length) =~= digits);
    } else {
        lemma_digits_value_prefix(digits.drop_last(), length);
        assert(digits.drop_last().subrange(0, length) =~= digits.subrange(0, length));
    }
}

/// A string of digits writes less than ten to the power of its length.
proof fn lemma_digits_value_bound(digits: Seq<u8>)
    requires
        all_digits(digits),
    ensures
        digits_value(digits) < power_of_ten(digits.len()),
    decreases digits.len(),
{
    if digits.len() > 0 {
        lemma_digits_value_bound(digits.drop_last());
    }
}

/// Reads an amount from decimal text: `12`, `12.`, `12.5` and `12.5000` are
/// amounts; a sign, a blank, a missing whole part, a fifth place and a value
/// beyond 64 bits are not.
pub fn parse_amount(text: &[u8]) -> (parsed: Option<u64>)
    ensures
        parsed == parsed_amount(text@),
{
    let mut point: usize = 0;
    while point < text.len() && text[point] != POINT
        invariant
            point <= text.len(),
            forall|i: int| 0 <= i < point ==> #[trigger] text@[i] != POINT,
        decreases text.len() - point,
    {
        point += 1;
    }
    proof {
        lemma_point_position_is(text@, point as int);
    }
    if point == 0 {
        return None;
    }
    let mut whole: u64 = 0;
    let mut read: usize = 0;
    while read < point
        invariant
            read <= point <= text.len(),
            point_position(text@) == point,
            all_digits(text@.subrange(0, read as int)),
            whole == digits_value(text@.subrange(0, read as int)),
        decreases point - read,
    {
        let byte = text[read];
        if byte < ZERO || byte > ZERO + 9 {
            assert(whole_part(text@)[read as int] == byte);
            return None;
        }
        proof {
            lemma_digits_value_step(text@, 0, read as int);
            lemma_digits_value_prefix(whole_part(text@), read + 1);
            assert(whole_part(text@).subrange(0, read + 1) =~= text@.subrange(0, read + 1));
        }
        let shifted = match whole.checked_mul(10) {
            Some(shifted) => shifted,
            None => return None,
        };
        whole = match shifted.checked_add((byte - ZERO) as u64) {
            Some(sum) => sum,
            None => return None,
        };
        read += 1;
    }
    assert(text@.subrange(0, point as int) =~= whole_part(text@));

    let mut fraction: u64 = 0;
    let mut places: usize = 0;
    if point < text.len() {
        if text.len() - point - 1 > DECIMAL_PLACES {
            return None;
        }
        while point + 1 + places < text.len()
            invariant
                point_position(text@) == point,
                point < text.len(),
                text.len() - point - 1 <= DECIMAL_PLACES,
                point + 1 + places <= text.len(),
                all_digits(text@.subrange(point + 1, point + 1 + places)),
                fraction == digits_value(text@.subrange(point + 1, point + 1 + places)),
                fraction < power_of_ten(places as nat),
                power_of_ten(places as nat) <= 10_000,
            decreases text.len() - places,
        {
            let byte = text[point + 1 + places];
            if byte < ZERO || byte > ZERO + 9 {
                assert(fraction_part(text@)[places as int] == byte);
                return None;
            }
            proof {
                lemma_digits_value_step(text@, point + 1, point + 1 + places);
                reveal_with_fuel(power_of_ten, 6);
            }
            fraction = fraction * 10 + (byte - ZERO) as u64;
            places += 1;
        }
        assert(text@.subrange(point + 1, point + 1 + places) =~= fraction_part(text@));
    } else {
        assert(fraction_part(text@) =~= Seq::<u8>::empty());
    }
    let ghost written = fraction;
    let mut padded: usize = places;
    assert(fraction == written * power_of_ten((padded - places) as nat)) by {
        assert(power_of_ten((padded - places) as nat) == 1);
    }
    assert(fraction < power_of_ten(places as nat)) by {
        lemma_digits_value_bound(fraction_part(text@));
    }
    while padded < DECIMAL_PLACES
        invariant
            places <= padded <= DECIMAL_PLACES,
            fraction == written * power_of_ten((padded - places) as nat),
            written < power_of_ten(places as nat),
            fraction < power_of_ten(padded as nat),
        decreases DECIMAL_PLACES - padded,
    {
        proof {
            reveal_with_fuel(power_of_ten, 6);
            assert(written * power_of_ten((padded + 1 - places) as nat) == written * power_of_ten(
                (padded - places) as nat,
            ) * 10) by (nonlinear_arith)
                requires
                    power_of_ten((padded + 1 - places) as nat) == 10 * power_of_ten(
                        (padded - places) as nat,
                    ),
            ;
        }
        fraction = fraction * 10;
        padded += 1;
    }
    proof {
        reveal_with_fuel(power_of_ten, 6);
    }
    match whole.checked_mul(UNITS_PER_WHOLE) {
        Some(units) => units.checked_add(fraction),
        None => None,
    }
}

/// The byte that writes the digit `digit`.
pub open spec fn digit_byte(digit: nat) -> u8 {
    (ZERO + digit) as u8
}

/// The decimal digits of `number`, most significant first, with no leading
/// zero; zero is written as one digit.
pub open spec fn digits_of(number: nat) -> Seq<u8>
    decreases number,
{
    if number < 10 {
        seq![digit_byte(number)]
    } else {
        digits_of(number / 10).push(digit_byte(number % 10))
    }
}

/// The four places that write `units`, a number of ten-thousandths below
/// one whole unit.
pub open spec fn places_of(units: nat) -> Seq<u8> {
    seq![
        digit_byte(units / 1000 % 10),
        digit_byte(units / 100 % 10),
        digit_byte(units / 10 % 10),
        digit_byte(units % 10),
    ]
}

/// The text of a number of ten-thousandths: whole units, a point, four
/// places.
pub open spec fn amount_text(units: nat) -> Seq<u8> {
    digits_of(units / (UNITS_PER_WHOLE as nat)) + seq![POINT] + places_of(
        units % (UNITS_PER_WHOLE as nat),
    )
}

/// The text of a balance: that of its magnitude, after a minus sign where
/// the balance is negative.
pub open spec fn balance_text(balance: int) -> Seq<u8> {
    if balance < 0 {
        seq![MINUS] + amount_text((-balance) as nat)
    } else {
        amount_text(balance as nat)
    }
}

/// Appends the decimal digits of `number` to `text`.
fn push_digits(text: &mut Vec<u8>, number: u64)
    ensures
        final(text)@ == old(text)@ + digits_of(number as nat),
    decreases number,
{
    if number >= 10 {
        push_digits(text, number / 10);
    }
    text.push(ZERO + (number % 10) as u8);
}

/// Writes an amount as decimal text with four places.
pub fn format_amount(amount: u64) -> (text: Vec<u8>)
    ensures
        text@ == amount_text(amount as nat),
{
    let mut text: Vec<u8> = Vec::new();
    push_amount(&mut text, amount);
    text
}

/// Writes a balance as decimal text with four places.
pub fn format_balance(balance: i64) -> (text: Vec<u8>)
    ensures
        text@ == balance_text(balance as int),
{
    let mut text: Vec<u8> = Vec::new();
    if balance < 0 {
        text.push(MINUS);
        push_amount(&mut text, ((-(balance + 1)) as u64) + 1);
    } else {
        push_amount(&mut text, balance as u64);
    }
    text
}

/// Appends the text of `units` ten-thousandths to `text`.
fn push_amount(text: &mut Vec<u8>, units: u64)
    ensures
        final(text)@ == old(text)@ + amount_text(units as nat),
{
    let below = units % UNITS_PER_WHOLE;
    push_digits(text, units / UNITS_PER_WHOLE);
    text.push(POINT);
    text.push(ZERO + (below / 1000 % 10) as u8);
    text.push(ZERO + (below / 100 % 10) as u8);
    text.push(ZERO + (below / 10 % 10) as u8);
    text.push(ZERO + (below % 10) as u8);
    assert(text@ =~= old(text)@ + amount_text(units as nat));
}

/// The digits of a number are digits, at least one of them, and write the
/// number.
pub proof fn lemma_digits_of_writes(number: nat)
    ensures
        digits_of(number).len() >= 1,
        all_digits(digits_of(number)),
        digits_value(digits_of(number)) == number,
    decreases number,
{
    if number < 10 {
        assert(digits_of(number).drop_last() =~= Seq::<u8>::empty());
        assert(digits_value(Seq::<u8>::empty()) == 0);
    } else {
        lemma_digits_of_writes(number / 10);
        assert(digits_of(number).drop_last() =~= digits_of(number / 10));
    }
}

/// The four places of a number below one whole unit are digits and write
/// the number.
pub proof fn lemma_places_of_writes(units: nat)
    requires
        units < UNITS_PER_WHOLE,
    ensures
        places_of(units).len() == DECIMAL_PLACES,
        all_digits(places_of(units)),
        digits_value(places_of(units)) == units,
{
    let places = places_of(units);
    let three = places.drop_last();
    let two = three.drop_last();
    let one = two.drop_last();
    assert(one.drop_last() =~= Seq::<u8>::empty());
    assert(digits_value(Seq::<u8>::empty()) == 0);
    assert(digits_value(one) == units / 1000 % 10);
    assert(digits_value(two) == digits_value(one) * 10 + units / 100 % 10);
    assert(digits_value(three) == digits_value(two) * 10 + units / 10 % 10);
    assert(digits_value(places) == digits_value(three) * 10 + units % 10);
}

/// Text written by `format_amount` reads back as the amount written.
pub proof fn lemma_amount_text_round_trip(amount: u64)
    ensures
        parsed_amount(amount_text(amount as nat)) == Some(amount),
{
    let units = amount as nat;
    let whole = digits_of(units / (UNITS_PER_WHOLE as nat));
    let places = places_of(units % (UNITS_PER_WHOLE as nat));
    let text = amount_text(units);
    lemma_digits_of_writes(units / (UNITS_PER_WHOLE as nat));
    lemma_places_of_writes(units % (UNITS_PER_WHOLE as nat));
    assert forall|i: int| 0 <= i < whole.len() implies #[trigger] text[i] != POINT by {
        assert(text[i] == whole[i]);
    }
    assert(text[whole.len() as int] == POINT);
    lemma_point_position_is(text, whole.len() as int);
    assert(whole_part(text) =~= whole);
    assert(fraction_part(text) =~= places);
    assert(is_amount_text(text));
    assert(power_of_ten((DECIMAL_PLACES - fraction_part(text).len()) as nat) == 1);
    assert(amount_value(text) == units);
}

} // verus!
