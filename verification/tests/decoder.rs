use meter_telegram::calendar::{CalendarDate, TimeOfDay};
use meter_telegram::decoder::{
    build_table, decode, extract_count, extract_date, extract_kwh, extract_time,
    extract_unitless_numeric, parse_code, rule_for, DecodeError, DecodedValue, Rule,
};

#[test]
fn energy_with_leading_zeros() {
    assert_eq!(extract_kwh(b"00123*kwh"), Ok(123));
}

#[test]
fn energy_of_zeros_is_zero() {
    assert_eq!(extract_kwh(b"000*kwh"), Ok(0));
}

#[test]
fn energy_with_letters_fails() {
    assert_eq!(extract_kwh(b"0ab*kwh"), Err(DecodeError::NonNumeric));
}

#[test]
fn energy_edge_cases() {
    assert_eq!(extract_kwh(b""), Ok(0));
    assert_eq!(extract_kwh(b"*kwh"), Ok(0));
    assert_eq!(extract_kwh(b"  0042 *kwh"), Ok(42));
    assert_eq!(extract_kwh(b"42"), Ok(42));
    assert_eq!(extract_kwh(b"42*7*9"), Ok(42));
    assert_eq!(extract_kwh(b"4 2*kwh"), Err(DecodeError::NonNumeric));
    assert_eq!(extract_kwh(b"+42*kwh"), Err(DecodeError::NonNumeric));
    assert_eq!(extract_kwh(b"12.5*kwh"), Err(DecodeError::NonNumeric));
    assert_eq!(extract_kwh(b"18446744073709551615*kwh"), Ok(u64::MAX));
    assert_eq!(extract_kwh(b"18446744073709551616*kwh"), Err(DecodeError::NonNumeric));
}

#[test]
fn time_reads_each_component() {
    assert_eq!(extract_time(b"12:34:56"), Ok(TimeOfDay { hour: 12, minute: 34, second: 56 }));
    assert_eq!(extract_time(b"00:00:00"), Ok(TimeOfDay { hour: 0, minute: 0, second: 0 }));
    assert_eq!(extract_time(b"7:5:3"), Ok(TimeOfDay { hour: 7, minute: 5, second: 3 }));
}

#[test]
fn time_errors() {
    assert_eq!(extract_time(b""), Err(DecodeError::FieldCount));
    assert_eq!(extract_time(b"12:34"), Err(DecodeError::FieldCount));
    assert_eq!(extract_time(b"12:34:56:78"), Err(DecodeError::FieldCount));
    assert_eq!(extract_time(b"12:xx:56"), Err(DecodeError::NonNumeric));
    assert_eq!(extract_time(b"12::56"), Err(DecodeError::NonNumeric));
    assert_eq!(extract_time(b"12:34:4294967296"), Err(DecodeError::NonNumeric));
    assert_eq!(extract_time(b"24:00:00"), Err(DecodeError::InvalidTime));
    assert_eq!(extract_time(b"23:60:00"), Err(DecodeError::InvalidTime));
    assert_eq!(extract_time(b"23:59:60"), Err(DecodeError::InvalidTime));
}

#[test]
fn date_drops_exactly_three_bytes() {
    assert_eq!(
        extract_date(b"23-05-19-03"),
        Ok(CalendarDate { year: 2023, month: 5, day: 19 })
    );
    assert_eq!(
        extract_date(b"23-05-19xyz"),
        Ok(CalendarDate { year: 2023, month: 5, day: 19 })
    );
    // A two-byte suffix costs the day its last digit.
    assert_eq!(
        extract_date(b"23-05-19-3"),
        Ok(CalendarDate { year: 2023, month: 5, day: 1 })
    );
}

#[test]
fn date_errors() {
    assert_eq!(extract_date(b""), Err(DecodeError::TooShort));
    assert_eq!(extract_date(b"ab"), Err(DecodeError::TooShort));
    assert_eq!(extract_date(b"abc"), Err(DecodeError::FieldCount));
    assert_eq!(extract_date(b"23-05xyz"), Err(DecodeError::FieldCount));
    assert_eq!(extract_date(b"23-05-19-xyz"), Err(DecodeError::FieldCount));
    assert_eq!(extract_date(b"23-ab-19xyz"), Err(DecodeError::NonNumeric));
    assert_eq!(extract_date(b"2x-05-19xyz"), Err(DecodeError::NonNumeric));
    assert_eq!(extract_date(b"23-05-xyz"), Err(DecodeError::NonNumeric));
    assert_eq!(extract_date(b"000000000-05-19xyz"), Err(DecodeError::NonNumeric));
    assert_eq!(extract_date(b"99999999-05-19xyz"), Err(DecodeError::InvalidDate));
    assert_eq!(extract_date(b"23-02-29xyz"), Err(DecodeError::InvalidDate));
    assert_eq!(extract_date(b"23-13-01xyz"), Err(DecodeError::InvalidDate));
    assert_eq!(extract_date(b"23-00-01xyz"), Err(DecodeError::InvalidDate));
    assert_eq!(extract_date(b"99999-01-01xyz"), Err(DecodeError::InvalidDate));
}

#[test]
fn date_year_gets_the_century() {
    assert_eq!(
        extract_date(b"24-02-29xyz"),
        Ok(CalendarDate { year: 2024, month: 2, day: 29 })
    );
    assert_eq!(extract_date(b"-01-01xyz"), Ok(CalendarDate { year: 20, month: 1, day: 1 }));
    assert_eq!(
        extract_date(b"235-01-01xyz"),
        Ok(CalendarDate { year: 20235, month: 1, day: 1 })
    );
}

#[test]
fn unitless_numeric_drops_three_bytes() {
    assert_eq!(extract_unitless_numeric(b"00042kwh"), Some(&b"00042"[..]));
    assert_eq!(extract_unitless_numeric(b"kwh"), Some(&b""[..]));
    assert_eq!(extract_unitless_numeric(b"kw"), None);
    assert_eq!(extract_unitless_numeric(b""), None);
}

#[test]
fn count_with_three_byte_suffix() {
    assert_eq!(extract_count(b"00042kwh"), Ok(42));
    assert_eq!(extract_count(b"7abc"), Ok(7));
}

#[test]
fn count_errors() {
    assert_eq!(extract_count(b""), Err(DecodeError::TooShort));
    assert_eq!(extract_count(b"42"), Err(DecodeError::TooShort));
    assert_eq!(extract_count(b"kwh"), Err(DecodeError::NonNumeric));
    assert_eq!(extract_count(b"00042*kwh"), Err(DecodeError::NonNumeric));
    assert_eq!(extract_count(b"18446744073709551616kwh"), Err(DecodeError::NonNumeric));
}

#[test]
fn dispatch_table_rules() {
    for code in ["8.0", "8.0.0", "8.1", "8.1.1", "8.1.2", "8.2", "8.2.1", "8.2.2"] {
        assert_eq!(rule_for(code.as_bytes()), Some(Rule::EnergyKWh), "{code}");
    }
    assert_eq!(rule_for(b"11"), Some(Rule::Time));
    assert_eq!(rule_for(b"12"), Some(Rule::Date));
    for code in ["12.0.2", "12.1.1", "12.1.2"] {
        assert_eq!(rule_for(code.as_bytes()), Some(Rule::UnitlessCount), "{code}");
    }
    for code in ["", "8", "8.", "8.3", "8.1.3", "8.0.1", "99", "1", "12.0", "12.0.1", "11.0", "8.1 "] {
        assert_eq!(rule_for(code.as_bytes()), None, "{code}");
    }
}

#[test]
fn dispatch_table_has_thirteen_codes() {
    let table = build_table();
    assert_eq!(table.len(), 13);
    for (code, rule) in table.iter() {
        assert_eq!(rule_for(code), Some(*rule));
    }
}

#[test]
fn unknown_code_is_unrecognized() {
    assert_eq!(decode(b"99", b"00123*kwh"), Ok(DecodedValue::Unrecognized));
    assert_eq!(decode(b"99", b""), Ok(DecodedValue::Unrecognized));
    assert_eq!(decode(b"", b"garbage"), Ok(DecodedValue::Unrecognized));
}

#[test]
fn decode_by_rule() {
    assert_eq!(decode(b"8.1", b"00123*kwh"), Ok(DecodedValue::EnergyKWh(123)));
    assert_eq!(
        decode(b"11", b"12:34:56"),
        Ok(DecodedValue::Time(TimeOfDay { hour: 12, minute: 34, second: 56 }))
    );
    assert_eq!(
        decode(b"12", b"23-05-19-03"),
        Ok(DecodedValue::Date(CalendarDate { year: 2023, month: 5, day: 19 }))
    );
    assert_eq!(decode(b"12.0.2", b"00042kwh"), Ok(DecodedValue::UnitlessCount(42)));
}

#[test]
fn decode_errors_are_values() {
    assert_eq!(decode(b"8.1", b"0ab*kwh"), Err(DecodeError::NonNumeric));
    assert_eq!(decode(b"11", b""), Err(DecodeError::FieldCount));
    assert_eq!(decode(b"12", b""), Err(DecodeError::TooShort));
    assert_eq!(decode(b"12.1.1", b""), Err(DecodeError::TooShort));
    assert_eq!(decode(b"12", b"23-02-30xyz"), Err(DecodeError::InvalidDate));
    assert_eq!(decode(b"11", b"25:00:00"), Err(DecodeError::InvalidTime));
}

#[test]
fn parse_code_whole_telegrams() {
    assert_eq!(parse_code(b"8.1(00123*kwh)\r\n"), Ok(DecodedValue::EnergyKWh(123)));
    assert_eq!(parse_code(b"8.2.2(000000*KWH)\r\n"), Ok(DecodedValue::EnergyKWh(0)));
    assert_eq!(
        parse_code(b"11(08:09:10)\r\n"),
        Ok(DecodedValue::Time(TimeOfDay { hour: 8, minute: 9, second: 10 }))
    );
    assert_eq!(
        parse_code(b"12(23-05-19-03)\r\n"),
        Ok(DecodedValue::Date(CalendarDate { year: 2023, month: 5, day: 19 }))
    );
    assert_eq!(parse_code(b"12.1.2(00042kwh)\r\n"), Ok(DecodedValue::UnitlessCount(42)));
}

#[test]
fn parse_code_unrecognized_lines() {
    assert_eq!(parse_code(b"/ISK5MT174-0001\r\n"), Ok(DecodedValue::Unrecognized));
    assert_eq!(parse_code(b"99(123)\r\n"), Ok(DecodedValue::Unrecognized));
    assert_eq!(parse_code(b"\r\n"), Ok(DecodedValue::Unrecognized));
    assert_eq!(parse_code(b"!\r\n"), Ok(DecodedValue::Unrecognized));
}

#[test]
fn parse_code_empty_payloads() {
    assert_eq!(parse_code(b"8.1(\r\n"), Ok(DecodedValue::EnergyKWh(0)));
    assert_eq!(parse_code(b"11(\r\n"), Err(DecodeError::FieldCount));
    assert_eq!(parse_code(b"12(\r\n"), Err(DecodeError::TooShort));
    assert_eq!(parse_code(b"12.0.2(\r\n"), Err(DecodeError::TooShort));
}
