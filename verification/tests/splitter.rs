use meter_telegram::splitter::split;

#[test]
fn split_cuts_code_and_payload() {
    assert_eq!(
        split(b"8.1(00123*kwh)\r\n"),
        Some((b"8.1".to_vec(), b"00123*kwh".to_vec()))
    );
}

#[test]
fn split_lowercases_both_parts() {
    assert_eq!(
        split(b"C.1.0(00123*KWH)\r\n"),
        Some((b"c.1.0".to_vec(), b"00123*kwh".to_vec()))
    );
}

#[test]
fn split_without_delimiter_is_unrecognized() {
    assert_eq!(split(b"/ISK5MT174-0001\r\n"), None);
    assert_eq!(split(b"\r\n"), None);
    assert_eq!(split(b""), None);
}

#[test]
fn split_uses_the_first_delimiter() {
    assert_eq!(split(b"1(2(3))\r\n"), Some((b"1".to_vec(), b"2(3)".to_vec())));
}

#[test]
fn split_delimiter_last_gives_empty_payload() {
    assert_eq!(split(b"8.1(\r\n"), Some((b"8.1".to_vec(), Vec::new())));
    assert_eq!(split(b"8.1()\r\n"), Some((b"8.1".to_vec(), Vec::new())));
    assert_eq!(split(b"("), Some((Vec::new(), Vec::new())));
    assert_eq!(split(b"(a"), Some((Vec::new(), Vec::new())));
    assert_eq!(split(b"(abc"), Some((Vec::new(), Vec::new())));
    assert_eq!(split(b"(abcd"), Some((Vec::new(), b"a".to_vec())));
}

#[test]
fn split_answers_every_byte_string() {
    for a in 0u8..=255 {
        for b in [0x28u8, 0x29, 0x0d, 0x0a, 0x41] {
            let t = [a, b, a, 0x0d, 0x0a];
            let r = split(&t);
            assert_eq!(r.is_some(), t.contains(&0x28));
            if let Some((code, _)) = r {
                assert!(!code.contains(&0x28));
            }
        }
    }
}
