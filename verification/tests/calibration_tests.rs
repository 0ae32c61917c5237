use slmeter::CalError;
use slmeter::Micros;
use slmeter::extract_sensitivity;
use slmeter::micros_lt;
use slmeter::parse_calibration;
use slmeter::parse_micros;

fn lines(ls: &[&str]) -> Vec<Vec<u8>> {
    ls.iter().map(|l| l.as_bytes().to_vec()).collect()
}

#[test]
fn parses_plain_decimals_exactly() {
    assert_eq!(
        parse_micros(b"-1.359"),
        Some(Micros { neg: true, magnitude: 1_359_000 })
    );
    assert_eq!(
        parse_micros(b"20"),
        Some(Micros { neg: false, magnitude: 20_000_000 })
    );
    assert_eq!(
        parse_micros(b"94.5"),
        Some(Micros { neg: false, magnitude: 94_500_000 })
    );
    assert_eq!(
        parse_micros(b"+3.5"),
        Some(Micros { neg: false, magnitude: 3_500_000 })
    );
    assert_eq!(
        parse_micros(b"0.000001"),
        Some(Micros { neg: false, magnitude: 1 })
    );
}

#[test]
fn rejects_malformed_numbers() {
    assert_eq!(parse_micros(b""), None);
    assert_eq!(parse_micros(b"."), None);
    assert_eq!(parse_micros(b"1."), None);
    assert_eq!(parse_micros(b"1.2.3", ), None);
    assert_eq!(parse_micros(b"abc"), None);
    assert_eq!(parse_micros(b"12345678901234"), None); // 14 integer digits
    assert_eq!(parse_micros(b"1.1234567"), None); // 7 fraction digits
    assert_eq!(parse_micros(b"1 2"), None);
}

#[test]
fn orders_exact_decimals() {
    let a = Micros { neg: true, magnitude: 2_000_000 };
    let b = Micros { neg: true, magnitude: 1_000_000 };
    let c = Micros { neg: false, magnitude: 0 };
    let d = Micros { neg: false, magnitude: 500_000 };
    assert!(micros_lt(&a, &b));
    assert!(micros_lt(&b, &c));
    assert!(micros_lt(&c, &d));
    assert!(!micros_lt(&d, &c));
    let neg_zero = Micros { neg: true, magnitude: 0 };
    assert!(!micros_lt(&neg_zero, &c));
    assert!(!micros_lt(&c, &neg_zero));
}

#[test]
fn reads_sensitivity_field() {
    let line = b"\"Sens Factor =-1.359dB, SERNO: 7161669\"";
    // The quote characters sit outside the comma-separated field's value.
    let r = extract_sensitivity(&line[1..line.len() - 1]);
    assert_eq!(r, Ok(Micros { neg: true, magnitude: 1_359_000 }));
}

#[test]
fn sensitivity_strips_every_trailing_db() {
    assert_eq!(
        extract_sensitivity(b"Sens Factor =5dBdB"),
        Ok(Micros { neg: false, magnitude: 5_000_000 })
    );
    assert_eq!(
        extract_sensitivity(b"Sens Factor = -0.5dB, SERNO: 1"),
        Ok(Micros { neg: true, magnitude: 500_000 })
    );
    // A space between the value and `dB` survives the trim and spoils the
    // number: a fatal parse error.
    assert_eq!(
        extract_sensitivity(b"Sens Factor =-0.5 dB"),
        Err(CalError::BadNumber)
    );
}

#[test]
fn sensitivity_errors() {
    assert_eq!(
        extract_sensitivity(b"SERNO: 7161669"),
        Err(CalError::SensitivityMissing)
    );
    assert_eq!(
        extract_sensitivity(b"Sens Factor -1.359dB"),
        Err(CalError::SensitivityFormat)
    );
    assert_eq!(
        extract_sensitivity(b"Sens Factor =highdB"),
        Err(CalError::BadNumber)
    );
}

#[test]
fn parses_whole_table() {
    let ls = lines(&[
        "Sens Factor =-1.359dB, SERNO: 7161669",
        "20 -1.5",
        "  25.5   -0.25 ",
        "this line is not a pair of fields",
        "1000 0.0",
    ]);
    let t = parse_calibration(&ls).unwrap();
    assert_eq!(t.sensitivity, Micros { neg: true, magnitude: 1_359_000 });
    assert_eq!(t.frequency.len(), 3);
    assert_eq!(t.frequency[1], Micros { neg: false, magnitude: 25_500_000 });
    assert_eq!(t.response_db[1], Micros { neg: true, magnitude: 250_000 });
    assert_eq!(t.response_db[2], Micros { neg: false, magnitude: 0 });
}

#[test]
fn table_validation_errors() {
    assert!(matches!(
        parse_calibration(&lines(&[])),
        Err(CalError::EmptyFile)
    ));
    assert!(matches!(
        parse_calibration(&lines(&["Sens Factor =0dB", "20 1.0"])),
        Err(CalError::TooFewEntries)
    ));
    assert!(matches!(
        parse_calibration(&lines(&["Sens Factor =0dB", "100 1.0", "20 2.0"])),
        Err(CalError::NonIncreasing)
    ));
    assert!(matches!(
        parse_calibration(&lines(&["Sens Factor =0dB", "20 1.0", "25 oops"])),
        Err(CalError::BadNumber)
    ));
    assert!(matches!(
        parse_calibration(&lines(&["no sensitivity here", "20 1.0", "25 2.0"])),
        Err(CalError::SensitivityMissing)
    ));
}
