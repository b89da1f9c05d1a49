//! The value decoder: the table that assigns a decoding rule to an object
//! code, and the four rules.
use vstd::prelude::*;
use crate::calendar::{is_calendar_date, is_time_of_day, CalendarDate, TimeOfDay};
use crate::splitter::{split, split_spec};
use crate::text::{
    all_digits, digits_value, lemma_leading_zeros, lemma_split_nonempty, lower_byte, lowercase,
    parse_decimal, parse_digits, same_bytes, split_fields, split_on, strip_zeros, trim, trimmed,
    views,
};

verus! {

/// The way in which a payload is read.
#[derive(Debug, Clone, Copy, PartialEq, Eq, Structural)]
pub enum Rule {
    EnergyKWh,
    Time,
    Date,
    UnitlessCount,
}

/// What a telegram says.
#[derive(Debug, Clone, Copy, PartialEq, Eq, Structural)]
pub enum DecodedValue {
    Date(CalendarDate),
    Time(TimeOfDay),
    EnergyKWh(u64),
    UnitlessCount(u64),
    Unrecognized,
}

/// Why a payload could not be read by the rule of its code.
#[derive(Debug, Clone, Copy, PartialEq, Eq, Structural)]
pub enum DecodeError {
    /// The payload is shorter than the suffix that the rule drops.
    TooShort,
    /// The payload does not have the number of fields of the rule.
    FieldCount,
    /// A field is not a decimal number, or the number is too large.
    NonNumeric,
    /// The numbers are not a day of the calendar.
    InvalidDate,
    /// The numbers are not a time of day.
    InvalidTime,
}

/// The byte `*`, which ends the number of an energy payload.
pub const STAR: u8 = 0x2a;

/// The byte `:`, which stands between hour, minute and second.
pub const COLON: u8 = 0x3a;

/// The byte `-`, which stands between year, month and day.
pub const DASH: u8 = 0x2d;

/// The number of bytes that end a date or count payload and are not read.
pub const SUFFIX: usize = 3;

/// The dispatch table: each object code that is known, with its rule.
pub open spec fn dispatch_table() -> Seq<(Seq<u8>, Rule)> {
    seq![
        (seq![0x38u8, 0x2e, 0x30], Rule::EnergyKWh),
        (seq![0x38u8, 0x2e, 0x30, 0x2e, 0x30], Rule::EnergyKWh),
        (seq![0x38u8, 0x2e, 0x31], Rule::EnergyKWh),
        (seq![0x38u8, 0x2e, 0x31, 0x2e, 0x31], Rule::EnergyKWh),
        (seq![0x38u8, 0x2e, 0x31, 0x2e, 0x32], Rule::EnergyKWh),
        (seq![0x38u8, 0x2e, 0x32], Rule::EnergyKWh),
        (seq![0x38u8, 0x2e, 0x32, 0x2e, 0x31], Rule::EnergyKWh),
        (seq![0x38u8, 0x2e, 0x32, 0x2e, 0x32], Rule::EnergyKWh),
        (seq![0x31u8, 0x31], Rule::Time),
        (seq![0x31u8, 0x32], Rule::Date),
        (seq![0x31u8, 0x32, 0x2e, 0x30, 0x2e, 0x32], Rule::UnitlessCount),
        (seq![0x31u8, 0x32, 0x2e, 0x31, 0x2e, 0x31], Rule::UnitlessCount),
        (seq![0x31u8, 0x32, 0x2e, 0x31, 0x2e, 0x32], Rule::UnitlessCount),
    ]
}

/// The rule of the first of `entries` whose code is `code`.
pub open spec fn lookup(entries: Seq<(Seq<u8>, Rule)>, code: Seq<u8>) -> Option<Rule>
    decreases entries.len(),
{
    if entries.len() == 0 {
        None
    } else if entries[0].0 == code {
        Some(entries[0].1)
    } else {
        lookup(entries.drop_first(), code)
    }
}

/// The rule of an object code, and `None` for a code that is not known.
pub open spec fn rule_of(code: Seq<u8>) -> Option<Rule> {
    lookup(dispatch_table(), code)
}

/// Whether `b` is an ASCII letter.
pub open spec fn is_letter(b: u8) -> bool {
    (0x41 <= b <= 0x5a) || (0x61 <= b <= 0x7a)
}

/// Whether no code of `entries` holds a letter.
pub open spec fn letter_free(entries: Seq<(Seq<u8>, Rule)>) -> bool {
    forall|k: int, i: int|
        0 <= k < entries.len() && 0 <= i < entries[k].0.len() ==> !is_letter(
            #[trigger] entries[k].0[i],
        )
}

/// A string without letters is the lower-case form of itself alone.
pub proof fn lemma_lowercase_match(code: Seq<u8>, entry: Seq<u8>)
    requires
        forall|i: int| 0 <= i < entry.len() ==> !is_letter(#[trigger] entry[i]),
    ensures
        (lowercase(code) == entry) == (code == entry),
{
    if lowercase(code) == entry {
        assert forall|i: int| 0 <= i < code.len() implies code[i] == entry[i] by {
            assert(lowercase(code)[i] == lower_byte(code[i]));
            assert(!is_letter(entry[i]));
        }
        assert(code =~= entry);
    }
    if code == entry {
        assert(lowercase(code) =~= entry);
    }
}

/// A table without letters in its codes finds the same for a code and for
/// its lower-case form.
pub proof fn lemma_lookup_ignores_case(entries: Seq<(Seq<u8>, Rule)>, code: Seq<u8>)
    requires
        letter_free(entries),
    ensures
        lookup(entries, lowercase(code)) == lookup(entries, code),
    decreases entries.len(),
{
    if entries.len() > 0 {
        assert forall|i: int| 0 <= i < entries[0].0.len() implies !is_letter(
            #[trigger] entries[0].0[i],
        ) by {}
        lemma_lowercase_match(code, entries[0].0);
        let rest = entries.drop_first();
        assert forall|k: int, i: int| 0 <= k < rest.len() && 0 <= i < rest[k].0.len() implies !is_letter(
            #[trigger] rest[k].0[i],
        ) by {
            assert(rest[k] == entries[k + 1]);
        }
        lemma_lookup_ignores_case(rest, code);
    }
}

/// Object codes are case-insensitive: a code has the rule of its lower-case
/// form.
pub proof fn lemma_rule_ignores_case(code: Seq<u8>)
    ensures
        rule_of(lowercase(code)) == rule_of(code),
{
    assert(letter_free(dispatch_table()));
    lemma_lookup_ignores_case(dispatch_table(), code);
}

/// The entries of a table, each code by its bytes.
pub open spec fn entries_view(t: Seq<(Vec<u8>, Rule)>) -> Seq<(Seq<u8>, Rule)> {
    Seq::new(t.len(), |i: int| (t[i].0@, t[i].1))
}

/// Builds the dispatch table.
pub fn build_table() -> (t: Vec<(Vec<u8>, Rule)>)
    ensures
        entries_view(t@) == dispatch_table(),
{
    let mut t: Vec<(Vec<u8>, Rule)> = Vec::new();
    t.push((vec![0x38u8, 0x2e, 0x30], Rule::EnergyKWh));
    t.push((vec![0x38u8, 0x2e, 0x30, 0x2e, 0x30], Rule::EnergyKWh));
    t.push((vec![0x38u8, 0x2e, 0x31], Rule::EnergyKWh));
    t.push((vec![0x38u8, 0x2e, 0x31, 0x2e, 0x31], Rule::EnergyKWh));
    t.push((vec![0x38u8, 0x2e, 0x31, 0x2e, 0x32], Rule::EnergyKWh));
    t.push((vec![0x38u8, 0x2e, 0x32], Rule::EnergyKWh));
    t.push((vec![0x38u8, 0x2e, 0x32, 0x2e, 0x31], Rule::EnergyKWh));
    t.push((vec![0x38u8, 0x2e, 0x32, 0x2e, 0x32], Rule::EnergyKWh));
    t.push((vec![0x31u8, 0x31], Rule::Time));
    t.push((vec![0x31u8, 0x32], Rule::Date));
    t.push((vec![0x31u8, 0x32, 0x2e, 0x30, 0x2e, 0x32], Rule::UnitlessCount));
    t.push((vec![0x31u8, 0x32, 0x2e, 0x31, 0x2e, 0x31], Rule::UnitlessCount));
    t.push((vec![0x31u8, 0x32, 0x2e, 0x31, 0x2e, 0x32], Rule::UnitlessCount));
    assert(entries_view(t@) =~~= dispatch_table());
    t
}

/// Looks an object code up in the dispatch table. The code is taken as it
/// is: the splitter has put it in lower case.
pub fn rule_for(code: &[u8]) -> (r: Option<Rule>)
    ensures
        r == rule_of(code@),
{
    let table = build_table();
    let mut i: usize = 0;
    assert(entries_view(table@).skip(0) =~= entries_view(table@));
    while i < table.len()
        invariant
            i <= table.len(),
            entries_view(table@) == dispatch_table(),
            rule_of(code@) == lookup(entries_view(table@).skip(i as int), code@),
        decreases table.len() - i,
    {
        let ghost rest = entries_view(table@).skip(i as int);
        assert(rest[0] == (table@[i as int].0@, table@[i as int].1));
        if same_bytes(code, table[i].0.as_slice()) {
            return Some(table[i].1);
        }
        assert(rest.drop_first() =~= entries_view(table@).skip(i + 1));
        i += 1;
    }
    None
}

/// Whether `s` is a decimal number of at least one digit, at most `max`.
pub open spec fn is_number(s: Seq<u8>, max: int) -> bool {
    s.len() > 0 && all_digits(s) && digits_value(s) <= max
}

/// The bytes `20`, which complete the two digits of a year.
pub open spec fn century() -> Seq<u8> {
    seq![0x32u8, 0x30]
}

/// The energy rule. The number is the field before the first `*`, without
/// the white space around it. It may have leading zeros and may be empty,
/// which reads as zero; it must hold digits only and fit 64 bits.
pub open spec fn energy_of(payload: Seq<u8>) -> Result<u64, DecodeError> {
    let number = trim(split_on(payload, STAR)[0]);
    if all_digits(number) && digits_value(number) <= u64::MAX {
        Ok(digits_value(number) as u64)
    } else {
        Err(DecodeError::NonNumeric)
    }
}

/// The energy rule step by step: take the field before the first `*`, strip
/// the white space around it, strip its leading zeros; nothing left is zero,
/// and else what is left is read as a number.
pub open spec fn energy_by_steps(payload: Seq<u8>) -> Result<u64, DecodeError> {
    let number = strip_zeros(trim(split_on(payload, STAR)[0]));
    if number.len() == 0 {
        Ok(0)
    } else if is_number(number, u64::MAX as int) {
        Ok(digits_value(number) as u64)
    } else {
        Err(DecodeError::NonNumeric)
    }
}

/// Reading the number with its leading zeros gives what the rule gives step
/// by step.
pub proof fn lemma_energy_by_steps(payload: Seq<u8>)
    ensures
        energy_of(payload) == energy_by_steps(payload),
{
    lemma_leading_zeros(trim(split_on(payload, STAR)[0]));
}

/// The time rule. The payload has exactly three fields between `:`, each a
/// decimal number: hour, minute and second of a time of day.
pub open spec fn time_of(payload: Seq<u8>) -> Result<TimeOfDay, DecodeError> {
    let fields = split_on(payload, COLON);
    if fields.len() != 3 {
        Err(DecodeError::FieldCount)
    } else if !(is_number(fields[0], u32::MAX as int) && is_number(fields[1], u32::MAX as int)
        && is_number(fields[2], u32::MAX as int)) {
        Err(DecodeError::NonNumeric)
    } else if !is_time_of_day(
        digits_value(fields[0]) as int,
        digits_value(fields[1]) as int,
        digits_value(fields[2]) as int,
    ) {
        Err(DecodeError::InvalidTime)
    } else {
        Ok(
            TimeOfDay {
                hour: digits_value(fields[0]) as u32,
                minute: digits_value(fields[1]) as u32,
                second: digits_value(fields[2]) as u32,
            },
        )
    }
}

/// The date rule. The last three bytes of the payload are not read. What
/// stands before them has exactly three fields between `-`: the year within
/// the century, the month and the day, each a decimal number. The year is
/// the number written by `20` and the first field together.
pub open spec fn date_of(payload: Seq<u8>) -> Result<CalendarDate, DecodeError> {
    if payload.len() < SUFFIX {
        Err(DecodeError::TooShort)
    } else {
        let fields = split_on(payload.take(payload.len() - SUFFIX), DASH);
        if fields.len() != 3 {
            Err(DecodeError::FieldCount)
        } else if !(is_number(century() + fields[0], i32::MAX as int) && is_number(
            fields[1],
            u32::MAX as int,
        ) && is_number(fields[2], u32::MAX as int)) {
            Err(DecodeError::NonNumeric)
        } else if !is_calendar_date(
            digits_value(century() + fields[0]) as int,
            digits_value(fields[1]) as int,
            digits_value(fields[2]) as int,
        ) {
            Err(DecodeError::InvalidDate)
        } else {
            Ok(
                CalendarDate {
                    year: digits_value(century() + fields[0]) as i32,
                    month: digits_value(fields[1]) as u32,
                    day: digits_value(fields[2]) as u32,
                },
            )
        }
    }
}

/// The count rule. The last three bytes of the payload are the unit and are
/// not read. What stands before them is a decimal number that fits 64 bits.
pub open spec fn count_of(payload: Seq<u8>) -> Result<u64, DecodeError> {
    if payload.len() < SUFFIX {
        Err(DecodeError::TooShort)
    } else if !is_number(payload.take(payload.len() - SUFFIX), u64::MAX as int) {
        Err(DecodeError::NonNumeric)
    } else {
        Ok(digits_value(payload.take(payload.len() - SUFFIX)) as u64)
    }
}

/// What a payload says under the rule of its code. A code without a rule
/// gives `Unrecognized` and never an error.
pub open spec fn decode_spec(code: Seq<u8>, payload: Seq<u8>) -> Result<DecodedValue, DecodeError> {
    match rule_of(code) {
        None => Ok(DecodedValue::Unrecognized),
        Some(Rule::EnergyKWh) => match energy_of(payload) {
            Ok(v) => Ok(DecodedValue::EnergyKWh(v)),
            Err(e) => Err(e),
        },
        Some(Rule::Time) => match time_of(payload) {
            Ok(t) => Ok(DecodedValue::Time(t)),
            Err(e) => Err(e),
        },
        Some(Rule::Date) => match date_of(payload) {
            Ok(d) => Ok(DecodedValue::Date(d)),
            Err(e) => Err(e),
        },
        Some(Rule::UnitlessCount) => match count_of(payload) {
            Ok(v) => Ok(DecodedValue::UnitlessCount(v)),
            Err(e) => Err(e),
        },
    }
}

/// What a telegram says: `Unrecognized` where it has no `(`, and else what
/// its payload says under the rule of its code.
pub open spec fn telegram_value(telegram: Seq<u8>) -> Result<DecodedValue, DecodeError> {
    match split_spec(telegram) {
        None => Ok(DecodedValue::Unrecognized),
        Some((code, payload)) => decode_spec(code, payload),
    }
}

/// Reads an energy payload, in kWh.
pub fn extract_kwh(content: &[u8]) -> (r: Result<u64, DecodeError>)
    ensures
        r == energy_of(content@),
{
    let fields = split_fields(content, STAR);
    proof {
        lemma_split_nonempty(content@, STAR);
        assert(views(fields@)[0] == fields@[0]@);
    }
    let number = trimmed(fields[0].as_slice());
    match parse_digits(number, u64::MAX) {
        Some(v) => Ok(v),
        None => Err(DecodeError::NonNumeric),
    }
}

/// Reads a time payload.
pub fn extract_time(content: &[u8]) -> (r: Result<TimeOfDay, DecodeError>)
    ensures
        r == time_of(content@),
{
    let fields = split_fields(content, COLON);
    if fields.len() != 3 {
        return Err(DecodeError::FieldCount);
    }
    proof {
        assert(views(fields@)[0] == fields@[0]@);
        assert(views(fields@)[1] == fields@[1]@);
        assert(views(fields@)[2] == fields@[2]@);
    }
    let hour = parse_decimal(fields[0].as_slice(), 0xffff_ffff);
    let minute = parse_decimal(fields[1].as_slice(), 0xffff_ffff);
    let second = parse_decimal(fields[2].as_slice(), 0xffff_ffff);
    match (hour, minute, second) {
        (Some(h), Some(m), Some(s)) => {
            match TimeOfDay::from_hms(h as u32, m as u32, s as u32) {
                Some(t) => Ok(t),
                None => Err(DecodeError::InvalidTime),
            }
        },
        _ => Err(DecodeError::NonNumeric),
    }
}

/// Reads a date payload.
pub fn extract_date(content: &[u8]) -> (r: Result<CalendarDate, DecodeError>)
    ensures
        r == date_of(content@),
{
    let n: usize = content.len();
    if n < SUFFIX {
        return Err(DecodeError::TooShort);
    }
    let body = vstd::slice::slice_subrange(content, 0, n - SUFFIX);
    assert(body@ =~= content@.take(n - SUFFIX));
    let fields = split_fields(body, DASH);
    if fields.len() != 3 {
        return Err(DecodeError::FieldCount);
    }
    proof {
        assert(views(fields@)[0] == fields@[0]@);
        assert(views(fields@)[1] == fields@[1]@);
        assert(views(fields@)[2] == fields@[2]@);
    }
    let mut digits: Vec<u8> = vec![0x32u8, 0x30];
    let suffix = &fields[0];
    let mut i: usize = 0;
    while i < suffix.len()
        invariant
            i <= suffix.len(),
            digits@ == century() + suffix@.take(i as int),
        decreases suffix.len() - i,
    {
        digits.push(suffix[i]);
        i += 1;
        assert(digits@ =~= century() + suffix@.take(i as int));
    }
    assert(suffix@.take(i as int) =~= suffix@);
    let year = parse_decimal(digits.as_slice(), 0x7fff_ffff);
    let month = parse_decimal(fields[1].as_slice(), 0xffff_ffff);
    let day = parse_decimal(fields[2].as_slice(), 0xffff_ffff);
    match (year, month, day) {
        (Some(y), Some(m), Some(d)) => {
            match CalendarDate::from_ymd(y as i32, m as u32, d as u32) {
                Some(date) => Ok(date),
                None => Err(DecodeError::InvalidDate),
            }
        },
        _ => Err(DecodeError::NonNumeric),
    }
}

/// The digits of a count payload: the payload without its last three bytes,
/// and `None` for a payload shorter than that.
pub fn extract_unitless_numeric(content: &[u8]) -> (r: Option<&[u8]>)
    ensures
        r.is_some() <==> content@.len() >= SUFFIX,
        r matches Some(digits) ==> digits@ == content@.take(content@.len() - SUFFIX),
{
    let n: usize = content.len();
    if n < SUFFIX {
        None
    } else {
        let digits = vstd::slice::slice_subrange(content, 0, n - SUFFIX);
        assert(digits@ =~= content@.take(n - SUFFIX));
        Some(digits)
    }
}

/// Reads a count payload.
pub fn extract_count(content: &[u8]) -> (r: Result<u64, DecodeError>)
    ensures
        r == count_of(content@),
{
    match extract_unitless_numeric(content) {
        None => Err(DecodeError::TooShort),
        Some(digits) => match parse_decimal(digits, u64::MAX) {
            Some(v) => Ok(v),
            None => Err(DecodeError::NonNumeric),
        },
    }
}

/// Decodes a payload by the rule of its object code. A code that the table
/// does not hold gives `Unrecognized`, whatever the payload; a payload that
/// its rule cannot read gives the error, and nothing else is affected.
pub fn decode(code: &[u8], payload: &[u8]) -> (r: Result<DecodedValue, DecodeError>)
    ensures
        r == decode_spec(code@, payload@),
        rule_of(code@).is_none() ==> r == Ok::<DecodedValue, DecodeError>(DecodedValue::Unrecognized),
{
    match rule_for(code) {
        None => Ok(DecodedValue::Unrecognized),
        Some(Rule::EnergyKWh) => match extract_kwh(payload) {
            Ok(v) => Ok(DecodedValue::EnergyKWh(v)),
            Err(e) => Err(e),
        },
        Some(Rule::Time) => match extract_time(payload) {
            Ok(t) => Ok(DecodedValue::Time(t)),
            Err(e) => Err(e),
        },
        Some(Rule::Date) => match extract_date(payload) {
            Ok(d) => Ok(DecodedValue::Date(d)),
            Err(e) => Err(e),
        },
        Some(Rule::UnitlessCount) => match extract_count(payload) {
            Ok(v) => Ok(DecodedValue::UnitlessCount(v)),
            Err(e) => Err(e),
        },
    }
}

/// Splits a telegram and decodes what it holds.
pub fn parse_code(data: &[u8]) -> (r: Result<DecodedValue, DecodeError>)
    ensures
        r == telegram_value(data@),
{
    match split(data) {
        None => Ok(DecodedValue::Unrecognized),
        Some((code, payload)) => decode(code.as_slice(), payload.as_slice()),
    }
}

} // verus!
