use ballast_survey::cli::{parse_bin_name_override, parse_size, parse_size_checked, size_input_panics, OverrideError, SizeError};

fn size(s: &str) -> Result<u64, SizeError> {
    assert!(!size_input_panics(s));
    parse_size(s)
}

#[test]
fn sizes_with_suffixes() {
    assert_eq!(size("100M").unwrap(), 100 * 1024 * 1024);
    assert_eq!(size("1G").unwrap(), 1024 * 1024 * 1024);
    assert_eq!(size("512").unwrap(), 512);
    assert_eq!(size("7b").unwrap(), 7);
    assert_eq!(size("3kib").unwrap(), 3 * 1024);
    assert_eq!(size(" 2 MB ").unwrap(), 2 * 1024 * 1024);
    assert_eq!(size("+4T").unwrap(), 4 * 1024u64.pow(4));
    assert_eq!(size("0tIb").unwrap(), 0);
}

#[test]
fn size_errors() {
    assert!(matches!(size("   "), Err(SizeError::Empty)));
    assert!(matches!(size(""), Err(SizeError::Empty)));
    match size("abc") {
        Err(SizeError::NotANumber(d)) => assert_eq!(d, ""),
        other => panic!("unexpected {:?}", other),
    }
    match size("1.5G") {
        Err(SizeError::NotANumber(d)) => assert_eq!(d, "1.5"),
        other => panic!("unexpected {:?}", other),
    }
    match size("-5M") {
        Err(SizeError::NotANumber(d)) => assert_eq!(d, "-5"),
        other => panic!("unexpected {:?}", other),
    }
    match size("10XB") {
        Err(SizeError::UnknownSuffix(u)) => assert_eq!(u, "XB"),
        other => panic!("unexpected {:?}", other),
    }
    match size("99999999999999999999") {
        Err(SizeError::NotANumber(d)) => assert_eq!(d, "99999999999999999999"),
        other => panic!("unexpected {:?}", other),
    }
}

#[test]
fn size_panicking_inputs_are_flagged() {
    assert!(size_input_panics("5\u{e9}"));
    assert!(size_input_panics("17179869184T"));
    assert!(!size_input_panics("16777215T"));
    match size("5a\u{e9}") {
        Err(SizeError::NotANumber(d)) => assert_eq!(d, "5a"),
        other => panic!("unexpected {:?}", other),
    }
}

#[test]
fn bin_name_overrides_parse() {
    assert_eq!(parse_bin_name_override("wintermute-brain=wmd"), Ok(("wintermute-brain".to_string(), "wmd".to_string())));
    assert_eq!(parse_bin_name_override("a=b=c"), Ok(("a".to_string(), "b=c".to_string())));
    assert_eq!(parse_bin_name_override("nope"), Err(OverrideError::MissingEquals));
    assert_eq!(parse_bin_name_override("=x"), Err(OverrideError::EmptyCrate));
    assert_eq!(parse_bin_name_override("x="), Err(OverrideError::EmptyBin));
}

#[test]
fn checked_size_parse() {
    assert!(parse_size_checked("5\u{e9}").is_none());
    assert!(parse_size_checked("17179869184T").is_none());
    assert_eq!(parse_size_checked("2K").unwrap().unwrap(), 2048);
    assert!(matches!(parse_size_checked(""), Some(Err(SizeError::Empty))));
}
