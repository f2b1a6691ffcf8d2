//! Image sizes: texts such as `72.9MB` read as a whole number of bytes.
//!
//! A size is a decimal magnitude followed by one of the units `KB`, `MB`
//! and `GB`, which stand for a thousand, a million and a thousand million
//! bytes. Parts of a byte are dropped.

use crate::text::{
    all_digits, chars_of, digits_value, find_char, first_index, is_digit,
    decimal_digits, digit_char, lemma_digits_value_append, lemma_digits_value_prefix,
    lemma_first_index_is, pow10,
};
use vstd::prelude::*;

verus! {

/// The unit at the end of a size.
#[derive(Clone, Copy, Debug, PartialEq, Eq, Structural)]
pub enum SizeUnit {
    Kilobytes,
    Megabytes,
    Gigabytes,
}

/// Why a text is not a size.
#[derive(Clone, Copy, Debug, PartialEq, Eq, Structural)]
pub enum SizeFault {
    /// The text does not end in `KB`, `MB` or `GB`.
    UnknownUnit,
    /// What precedes the unit is not a decimal number.
    InvalidMagnitude,
    /// The size does not fit in 64 bits.
    TooLarge,
}

/// A text that could not be read as a size.
#[derive(Debug)]
pub struct SizeParseError {
    pub fault: SizeFault,
    pub input: String,
}

/// A [`SizeParseError`] with its text as a sequence of characters.
pub struct SizeFailure {
    pub fault: SizeFault,
    pub input: Seq<char>,
}

impl View for SizeParseError {
    type V = SizeFailure;

    open spec fn view(&self) -> SizeFailure {
        SizeFailure { fault: self.fault, input: self.input@ }
    }
}

/// What is said of a fault, before the text that has it.
pub open spec fn fault_notice(fault: SizeFault) -> Seq<char> {
    match fault {
        SizeFault::UnknownUnit => "Unknown size identification: "@,
        SizeFault::InvalidMagnitude => "failed to read the number of size: "@,
        SizeFault::TooLarge => "size is too large: "@,
    }
}

impl SizeParseError {
    /// The error in words.
    pub fn message(&self) -> (r: String)
        ensures
            r@ == fault_notice(self.fault) + self.input@,
    {
        let notice = match self.fault {
            SizeFault::UnknownUnit => "Unknown size identification: ",
            SizeFault::InvalidMagnitude => "failed to read the number of size: ",
            SizeFault::TooLarge => "size is too large: ",
        };
        let mut text = notice.to_owned();
        text.append(self.input.as_str());
        text
    }
}

impl SizeUnit {
    /// The number of decimal places by which the unit exceeds the byte:
    /// one unit is ten to that power bytes.
    pub open spec fn places(self) -> nat {
        match self {
            SizeUnit::Kilobytes => 3,
            SizeUnit::Megabytes => 6,
            SizeUnit::Gigabytes => 9,
        }
    }
}

/// The two characters that write a unit.
pub open spec fn unit_text(unit: SizeUnit) -> Seq<char> {
    match unit {
        SizeUnit::Kilobytes => seq!['K', 'B'],
        SizeUnit::Megabytes => seq!['M', 'B'],
        SizeUnit::Gigabytes => seq!['G', 'B'],
    }
}

/// The unit that `text` ends in, if it ends in one. Units are written in
/// upper case.
pub open spec fn unit_of(text: Seq<char>) -> Option<SizeUnit> {
    if text.len() >= 2 && text[text.len() - 1] == 'B' {
        let c = text[text.len() - 2];
        if c == 'K' {
            Some(SizeUnit::Kilobytes)
        } else if c == 'M' {
            Some(SizeUnit::Megabytes)
        } else if c == 'G' {
            Some(SizeUnit::Gigabytes)
        } else {
            None
        }
    } else {
        None
    }
}

/// What precedes the two characters of the unit.
pub open spec fn magnitude_of(text: Seq<char>) -> Seq<char> {
    text.take(text.len() - 2)
}

/// The part of a magnitude before its decimal point.
pub open spec fn whole_part(magnitude: Seq<char>) -> Seq<char> {
    magnitude.take(first_index(magnitude, '.'))
}

/// The part of a magnitude after its decimal point, empty when it has none.
pub open spec fn fraction_part(magnitude: Seq<char>) -> Seq<char> {
    if first_index(magnitude, '.') < magnitude.len() {
        magnitude.skip(first_index(magnitude, '.') + 1)
    } else {
        Seq::empty()
    }
}

/// A magnitude is made of digits, with at most one decimal point among
/// them, and holds at least one digit.
pub open spec fn is_magnitude(magnitude: Seq<char>) -> bool {
    &&& all_digits(whole_part(magnitude))
    &&& all_digits(fraction_part(magnitude))
    &&& whole_part(magnitude).len() + fraction_part(magnitude).len() >= 1
}

/// `count` zeros.
pub open spec fn zeros(count: nat) -> Seq<char> {
    Seq::new(count, |i: int| '0')
}

/// The first `places` digits after the decimal point, zeros standing for
/// the digits that the fraction lacks.
pub open spec fn fraction_digits(fraction: Seq<char>, places: nat) -> Seq<char> {
    if fraction.len() >= places {
        fraction.take(places as int)
    } else {
        fraction + zeros((places - fraction.len()) as nat)
    }
}

/// The digits of a magnitude once its decimal point has moved `places`
/// places to the right, what then lies behind the point being dropped.
pub open spec fn scaled_digits(magnitude: Seq<char>, places: nat) -> Seq<char> {
    whole_part(magnitude) + fraction_digits(fraction_part(magnitude), places)
}

/// A magnitude times ten to the power `places`, rounded down to a whole
/// number.
pub open spec fn scaled_value(magnitude: Seq<char>, places: nat) -> nat {
    digits_value(scaled_digits(magnitude, places))
}

/// The number of bytes that `text` stands for, or why it stands for none.
pub open spec fn size_in_bytes(text: Seq<char>) -> Result<nat, SizeFault> {
    match unit_of(text) {
        None => Err(SizeFault::UnknownUnit),
        Some(unit) => {
            if !is_magnitude(magnitude_of(text)) {
                Err(SizeFault::InvalidMagnitude)
            } else if scaled_value(magnitude_of(text), unit.places()) > u64::MAX {
                Err(SizeFault::TooLarge)
            } else {
                Ok(scaled_value(magnitude_of(text), unit.places()))
            }
        },
    }
}

/// The bytes that the sizes stand for together, or the first of them, in
/// their order, that is no size.
pub open spec fn total_bytes(sizes: Seq<Seq<char>>) -> Result<nat, SizeFailure>
    decreases sizes.len(),
{
    if sizes.len() == 0 {
        Ok(0)
    } else {
        match total_bytes(sizes.drop_last()) {
            Err(failure) => Err(failure),
            Ok(sum) => match size_in_bytes(sizes.last()) {
                Err(fault) => Err(SizeFailure { fault, input: sizes.last() }),
                Ok(bytes) => Ok(sum + bytes),
            },
        }
    }
}

/// Once a size cannot be read, no size behind it changes what is reported.
pub proof fn lemma_total_bytes_fails_on(sizes: Seq<Seq<char>>, upto: int)
    requires
        0 <= upto <= sizes.len(),
        total_bytes(sizes.take(upto)) is Err,
    ensures
        total_bytes(sizes) == total_bytes(sizes.take(upto)),
    decreases sizes.len() - upto,
{
    if upto < sizes.len() {
        assert(sizes.drop_last().take(upto) == sizes.take(upto));
        lemma_total_bytes_fails_on(sizes.drop_last(), upto);
    } else {
        assert(sizes.take(upto) == sizes);
    }
}

/// Decides whether every character is a decimal digit.
fn only_digits(chars: &Vec<char>) -> (r: bool)
    ensures
        r == all_digits(chars@),
{
    let mut i: usize = 0;
    while i < chars.len()
        invariant
            i <= chars.len(),
            forall|j: int| 0 <= j < i ==> is_digit(#[trigger] chars@[j]),
        decreases chars.len() - i,
    {
        if !(chars[i] >= '0' && chars[i] <= '9') {
            return false;
        }
        i = i + 1;
    }
    true
}

/// The characters of `chars` from `from` up to `to`.
fn part_of(chars: &Vec<char>, from: usize, to: usize) -> (r: Vec<char>)
    requires
        from <= to <= chars.len(),
    ensures
        r@ == chars@.subrange(from as int, to as int),
{
    let mut out: Vec<char> = Vec::new();
    let mut i: usize = from;
    while i < to
        invariant
            from <= i <= to <= chars.len(),
            out@ == chars@.subrange(from as int, i as int),
        decreases to - i,
    {
        out.push(chars[i]);
        i = i + 1;
    }
    out
}

/// The number that the digits write, unless it exceeds 64 bits.
fn read_digits(digits: &Vec<char>) -> (r: Option<u64>)
    requires
        all_digits(digits@),
    ensures
        match r {
            Some(value) => value == digits_value(digits@),
            None => digits_value(digits@) > u64::MAX,
        },
{
    let mut value: u64 = 0;
    let mut i: usize = 0;
    while i < digits.len()
        invariant
            i <= digits.len(),
            all_digits(digits@),
            value == digits_value(digits@.take(i as int)),
        decreases digits.len() - i,
    {
        let c = digits[i];
        let digit: u128 = (c as u32 - '0' as u32) as u128;
        let next: u128 = value as u128 * 10 + digit;
        proof {
            let longer = digits@.take(i + 1);
            assert(longer.drop_last() == digits@.take(i as int));
            lemma_digits_value_prefix(digits@, i + 1);
        }
        if next > u64::MAX as u128 {
            return None;
        }
        value = next as u64;
        i = i + 1;
    }
    assert(digits@.take(i as int) == digits@);
    Some(value)
}

/// The digits of a magnitude with its decimal point moved `places` places
/// to the right.
fn shift_point(whole: &Vec<char>, fraction: &Vec<char>, places: usize) -> (r: Vec<char>)
    ensures
        r@ == whole@ + fraction_digits(fraction@, places as nat),
{
    let mut out: Vec<char> = part_of(whole, 0, whole.len());
    let mut k: usize = 0;
    while k < places
        invariant
            k <= places,
            out@ == whole@ + fraction_digits(fraction@, places as nat).take(k as int),
        decreases places - k,
    {
        let c = if k < fraction.len() {
            fraction[k]
        } else {
            '0'
        };
        out.push(c);
        k = k + 1;
    }
    out
}

/// Moving the decimal point of a magnitude leaves digits only.
pub proof fn lemma_scaled_digits(magnitude: Seq<char>, places: nat)
    requires
        is_magnitude(magnitude),
    ensures
        all_digits(scaled_digits(magnitude, places)),
{
    let whole = whole_part(magnitude);
    let fraction = fraction_part(magnitude);
    let digits = scaled_digits(magnitude, places);
    assert forall|i: int| 0 <= i < digits.len() implies is_digit(#[trigger] digits[i]) by {
        if i < whole.len() {
        } else {
            let k = i - whole.len();
            if k < fraction.len() {
            }
        }
    }
}

/// Three more decimal places: the digits gained follow the digits had.
proof fn lemma_three_more_places(fraction: Seq<char>, places: nat) -> (gained: Seq<char>)
    requires
        all_digits(fraction),
    ensures
        fraction_digits(fraction, places + 3) == fraction_digits(fraction, places) + gained,
        gained.len() == 3,
        all_digits(gained),
        fraction.len() <= places ==> gained == zeros(3),
{
    let gained = fraction_digits(fraction, places + 3).skip(places as int);
    assert forall|i: int| 0 <= i < gained.len() implies is_digit(#[trigger] gained[i]) by {
        if places + i < fraction.len() {
            assert(gained[i] == fraction[places + i]);
        }
    }
    gained
}

/// Three more decimal places make a thousand times as much. For every
/// magnitude, its value at fewer places is a thousandth of its value at
/// three places more, rounded down; and where the magnitude has no more
/// decimal places than the fewer, the value at three places more is
/// exactly a thousand times the other.
pub proof fn lemma_unit_ratio(magnitude: Seq<char>, places: nat)
    requires
        is_magnitude(magnitude),
    ensures
        scaled_value(magnitude, places) == scaled_value(magnitude, places + 3) / 1000,
        fraction_part(magnitude).len() <= places ==> scaled_value(magnitude, places + 3) == 1000
            * scaled_value(magnitude, places),
{
    let gained = lemma_three_more_places(fraction_part(magnitude), places);
    assert(scaled_digits(magnitude, places + 3) == scaled_digits(magnitude, places) + gained);
    lemma_digits_value_append(scaled_digits(magnitude, places), gained);
    assert(pow10(3) == 1000) by {
        reveal_with_fuel(pow10, 4);
    }
    lemma_zeros_value(3);
}

/// A magnitude without a decimal point is a whole number of units: its
/// value in bytes is that number times the bytes of the unit.
pub proof fn lemma_whole_magnitude(digits: Seq<char>, places: nat)
    requires
        all_digits(digits),
        digits.len() >= 1,
    ensures
        is_magnitude(digits),
        scaled_value(digits, places) == digits_value(digits) * pow10(places),
{
    assert forall|j: int| 0 <= j < digits.len() implies digits[j] != '.' by {
        assert(is_digit(digits[j]));
    }
    lemma_first_index_is(digits, '.', digits.len() as int);
    assert(whole_part(digits) == digits);
    lemma_digits_value_append(digits, zeros(places));
    lemma_zeros_value(places);
}

/// Zeros write zero.
pub proof fn lemma_zeros_value(count: nat)
    ensures
        digits_value(zeros(count)) == 0,
        all_digits(zeros(count)),
    decreases count,
{
    if count > 0 {
        lemma_zeros_value((count - 1) as nat);
        assert(zeros(count).drop_last() == zeros((count - 1) as nat));
    }
}

/// The text made of a magnitude and a unit has that unit and that
/// magnitude.
pub proof fn lemma_size_text(magnitude: Seq<char>, unit: SizeUnit)
    ensures
        unit_of(magnitude + unit_text(unit)) == Some(unit),
        magnitude_of(magnitude + unit_text(unit)) == magnitude,
{
    let text = magnitude + unit_text(unit);
    assert(text.take(text.len() - 2) == magnitude);
}

/// A unit is a thousand of the unit below it: `x` kilobytes are `x / 1000`
/// megabytes, and `x` gigabytes are `x * 1000` megabytes. In bytes, of which
/// parts are dropped: a magnitude in kilobytes is a thousandth of the same
/// magnitude in megabytes, and that a thousandth of the same in gigabytes,
/// rounded down; and where the magnitude has no more than three decimal
/// places, a thousand times the smaller is exactly the larger.
pub proof fn lemma_sizes_by_unit(magnitude: Seq<char>)
    requires
        is_magnitude(magnitude),
    ensures
        ({
            let kilo = size_in_bytes(magnitude + unit_text(SizeUnit::Kilobytes));
            let mega = size_in_bytes(magnitude + unit_text(SizeUnit::Megabytes));
            let giga = size_in_bytes(magnitude + unit_text(SizeUnit::Gigabytes));
            &&& mega matches Ok(m) ==> kilo == Ok::<nat, SizeFault>(m / 1000)
            &&& giga matches Ok(g) ==> mega == Ok::<nat, SizeFault>(g / 1000)
            &&& fraction_part(magnitude).len() <= 3 ==> {
                &&& mega matches Ok(m) ==> kilo == Ok::<nat, SizeFault>(m / 1000) && m % 1000
                    == 0
                &&& giga matches Ok(g) ==> mega == Ok::<nat, SizeFault>(g / 1000) && g % 1000
                    == 0
            }
        }),
{
    lemma_size_text(magnitude, SizeUnit::Kilobytes);
    lemma_size_text(magnitude, SizeUnit::Megabytes);
    lemma_size_text(magnitude, SizeUnit::Gigabytes);
    lemma_unit_ratio(magnitude, 3);
    lemma_unit_ratio(magnitude, 6);
}

/// A whole number of a unit is that number times the bytes of the unit: a
/// thousand for `KB`, a million for `MB`, a thousand million for `GB`.
pub proof fn lemma_whole_sizes(digits: Seq<char>)
    requires
        all_digits(digits),
        digits.len() >= 1,
    ensures
        size_in_bytes(digits + unit_text(SizeUnit::Kilobytes)) matches Ok(bytes) ==> bytes
            == digits_value(digits) * 1_000,
        size_in_bytes(digits + unit_text(SizeUnit::Megabytes)) matches Ok(bytes) ==> bytes
            == digits_value(digits) * 1_000_000,
        size_in_bytes(digits + unit_text(SizeUnit::Gigabytes)) matches Ok(bytes) ==> bytes
            == digits_value(digits) * 1_000_000_000,
        size_in_bytes(digits + unit_text(SizeUnit::Gigabytes)) is Ok <==> digits_value(digits)
            * 1_000_000_000 <= u64::MAX,
{
    lemma_size_text(digits, SizeUnit::Kilobytes);
    lemma_size_text(digits, SizeUnit::Megabytes);
    lemma_size_text(digits, SizeUnit::Gigabytes);
    lemma_whole_magnitude(digits, 3);
    lemma_whole_magnitude(digits, 6);
    lemma_whole_magnitude(digits, 9);
    reveal_with_fuel(pow10, 10);
}

/// A text that ends in none of `KB`, `MB` and `GB` is no size, whatever
/// precedes its end.
pub proof fn lemma_other_units(text: Seq<char>)
    requires
        text.len() < 2 || text[text.len() - 1] != 'B' || (text[text.len() - 2] != 'K'
            && text[text.len() - 2] != 'M' && text[text.len() - 2] != 'G'),
    ensures
        size_in_bytes(text) == Err::<nat, SizeFault>(SizeFault::UnknownUnit),
{
}

/// The two parts of a magnitude, before and after its decimal point.
fn split_magnitude(magnitude: &Vec<char>) -> (r: (Vec<char>, Vec<char>))
    ensures
        r.0@ == whole_part(magnitude@),
        r.1@ == fraction_part(magnitude@),
{
    let point = find_char(magnitude, '.', 0);
    assert(magnitude@.skip(0) == magnitude@);
    let whole = part_of(magnitude, 0, point);
    let fraction = if point < magnitude.len() {
        part_of(magnitude, point + 1, magnitude.len())
    } else {
        Vec::new()
    };
    (whole, fraction)
}

/// Reads a magnitude times ten to the power `places`, rounded down.
fn read_magnitude(magnitude: &Vec<char>, places: usize) -> (r: Result<u64, SizeFault>)
    ensures
        match r {
            Ok(value) => is_magnitude(magnitude@) && value == scaled_value(
                magnitude@,
                places as nat,
            ),
            Err(fault) => if is_magnitude(magnitude@) {
                fault == SizeFault::TooLarge && scaled_value(magnitude@, places as nat)
                    > u64::MAX
            } else {
                fault == SizeFault::InvalidMagnitude
            },
        },
{
    let (whole, fraction) = split_magnitude(magnitude);
    if !only_digits(&whole) || !only_digits(&fraction) {
        return Err(SizeFault::InvalidMagnitude);
    }
    if whole.len() == 0 && fraction.len() == 0 {
        return Err(SizeFault::InvalidMagnitude);
    }
    let digits = shift_point(&whole, &fraction, places);
    proof {
        lemma_scaled_digits(magnitude@, places as nat);
    }
    match read_digits(&digits) {
        Some(value) => Ok(value),
        None => Err(SizeFault::TooLarge),
    }
}

/// The number of decimal places of the unit that the characters end in.
fn read_unit(chars: &Vec<char>) -> (r: Option<usize>)
    ensures
        match r {
            Some(places) => unit_of(chars@) is Some && unit_of(chars@).unwrap().places()
                == places,
            None => unit_of(chars@) is None,
        },
{
    let n = chars.len();
    if n < 2 || chars[n - 1] != 'B' {
        return None;
    }
    let c = chars[n - 2];
    if c == 'K' {
        Some(3)
    } else if c == 'M' {
        Some(6)
    } else if c == 'G' {
        Some(9)
    } else {
        None
    }
}

/// Reads the characters of a size.
fn read_size(chars: &Vec<char>) -> (r: Result<u64, SizeFault>)
    ensures
        match r {
            Ok(bytes) => size_in_bytes(chars@) == Ok::<nat, SizeFault>(bytes as nat),
            Err(fault) => size_in_bytes(chars@) == Err::<nat, SizeFault>(fault),
        },
{
    match read_unit(chars) {
        None => Err(SizeFault::UnknownUnit),
        Some(places) => {
            let magnitude = part_of(chars, 0, chars.len() - 2);
            read_magnitude(&magnitude, places)
        },
    }
}

/// Reads a size such as `500MB` as a number of bytes.
pub fn deserialize_size(size: &str) -> (r: Result<u64, SizeParseError>)
    ensures
        match r {
            Ok(bytes) => size_in_bytes(size@) == Ok::<nat, SizeFault>(bytes as nat),
            Err(e) => size_in_bytes(size@) == Err::<nat, SizeFault>(e.fault) && e@.input
                == size@,
        },
{
    let chars = chars_of(size);
    match read_size(&chars) {
        Ok(bytes) => Ok(bytes),
        Err(fault) => Err(SizeParseError { fault, input: size.to_owned() }),
    }
}

/// The number of bytes from which a total is shown in gigabytes.
pub const GIGABYTE: u128 = 1_000_000_000;

/// A number of bytes in hundredths of a megabyte, or of a gigabyte from a
/// thousand megabytes on, rounded to the nearest, a half rounding up.
pub open spec fn shown_hundredths(bytes: nat) -> nat {
    if bytes >= GIGABYTE {
        (bytes + 5_000_000) / 10_000_000
    } else {
        (bytes + 5_000) / 10_000
    }
}

/// How a total is shown: with two decimals, in megabytes below a thousand
/// megabytes and in gigabytes from there on, such as `512.00MB` or `1.50GB`.
pub open spec fn saved_space_text(bytes: nat) -> Seq<char> {
    let shown = shown_hundredths(bytes);
    decimal_digits(shown / 100) + seq![
        '.',
        digit_char(shown / 10 % 10),
        digit_char(shown % 10),
        if bytes >= GIGABYTE {
            'G'
        } else {
            'M'
        },
        'B',
    ]
}

/// Appends one decimal digit.
fn push_digit(out: &mut String, digit: u8)
    requires
        digit < 10,
    ensures
        final(out)@ == old(out)@.push(digit_char(digit as nat)),
{
    proof {
        reveal_strlit("0");
        reveal_strlit("1");
        reveal_strlit("2");
        reveal_strlit("3");
        reveal_strlit("4");
        reveal_strlit("5");
        reveal_strlit("6");
        reveal_strlit("7");
        reveal_strlit("8");
        reveal_strlit("9");
    }
    let text = if digit == 0 {
        "0"
    } else if digit == 1 {
        "1"
    } else if digit == 2 {
        "2"
    } else if digit == 3 {
        "3"
    } else if digit == 4 {
        "4"
    } else if digit == 5 {
        "5"
    } else if digit == 6 {
        "6"
    } else if digit == 7 {
        "7"
    } else if digit == 8 {
        "8"
    } else {
        "9"
    };
    out.append(text);
}

/// Appends a number in decimal.
fn push_decimal(out: &mut String, n: u128)
    ensures
        final(out)@ == old(out)@ + decimal_digits(n as nat),
    decreases n,
{
    if n >= 10 {
        push_decimal(out, n / 10);
    }
    push_digit(out, (n % 10) as u8);
}

/// Shows a total of bytes as megabytes or gigabytes with two decimals.
pub fn format_saved_space(bytes: u128) -> (r: String)
    ensures
        r@ == saved_space_text(bytes as nat),
{
    let in_gigabytes = bytes >= GIGABYTE;
    let shown: u128 = if in_gigabytes {
        bytes / 10_000_000 + if bytes % 10_000_000 >= 5_000_000 {
            1
        } else {
            0
        }
    } else {
        bytes / 10_000 + if bytes % 10_000 >= 5_000 {
            1
        } else {
            0
        }
    };
    let mut out = String::new();
    push_decimal(&mut out, shown / 100);
    proof {
        reveal_strlit(".");
        reveal_strlit("GB");
        reveal_strlit("MB");
    }
    out.append(".");
    push_digit(&mut out, (shown / 10 % 10) as u8);
    push_digit(&mut out, (shown % 10) as u8);
    if in_gigabytes {
        out.append("GB");
    } else {
        out.append("MB");
    }
    out
}

} // verus!
