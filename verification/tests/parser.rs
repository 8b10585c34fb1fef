use dirfill::size::{parse_size, SizeError};

#[test]
fn bytes_without_unit() {
    assert_eq!(parse_size("500").unwrap(), 500);
    assert_eq!(parse_size("0").unwrap(), 0);
}

#[test]
fn bytes_with_b_suffix() {
    assert_eq!(parse_size("123B").unwrap(), 123);
    assert_eq!(parse_size("123b").unwrap(), 123);
    assert_eq!(parse_size("0B").unwrap(), 0);
}

#[test]
fn binary_units() {
    assert_eq!(parse_size("1kib").unwrap(), 1024);
    assert_eq!(parse_size("10kib").unwrap(), 10240);
    assert_eq!(parse_size("1MiB").unwrap(), 1 << 20);
    assert_eq!(parse_size("1gib").unwrap(), 1 << 30);
    assert_eq!(parse_size("1tib").unwrap(), 1u64 << 40);
    assert_eq!(parse_size("2ki").unwrap(), 2048);
}

#[test]
fn decimal_units() {
    assert_eq!(parse_size("1kb").unwrap(), 1000);
    assert_eq!(parse_size("3K").unwrap(), 3000);
    assert_eq!(parse_size("1MB").unwrap(), 1_000_000);
    assert_eq!(parse_size("2GB").unwrap(), 2_000_000_000);
}

#[test]
fn unit_suffix_is_case_insensitive() {
    assert_eq!(parse_size("10KiB").unwrap(), 10240);
    assert_eq!(parse_size("10KIB").unwrap(), 10240);
    assert_eq!(parse_size("10kIb").unwrap(), 10240);
    assert_eq!(parse_size("10Kib").unwrap(), parse_size("10kib").unwrap());
}

#[test]
fn whitespace_around_magnitude_and_unit_is_ignored() {
    assert_eq!(parse_size("10 kib").unwrap(), 10240);
    assert_eq!(parse_size("10   kib").unwrap(), 10240);
    assert_eq!(parse_size("  10kib  ").unwrap(), 10240);
    assert_eq!(parse_size("1 GB").unwrap(), 1_000_000_000);
}

#[test]
fn fractional_magnitudes_truncate_toward_zero() {
    assert_eq!(parse_size("1.5kib").unwrap(), 1536);
    assert_eq!(parse_size("1.5kb").unwrap(), 1500);
    assert_eq!(parse_size("1.0005kb").unwrap(), 1000);
    assert_eq!(parse_size("0.5B").unwrap(), 0);
    assert_eq!(parse_size("2.25kib").unwrap(), 2304);
}

#[test]
fn format_then_parse_returns_the_bytes() {
    for n in [0u64, 1, 9, 10, 1023, 1024, 123_456_789, u64::MAX] {
        let s = format!("{}B", n);
        assert_eq!(parse_size(&s).unwrap(), n);
    }
}

#[test]
fn unknown_unit_names_the_character_and_the_accepted_set() {
    match parse_size("potato") {
        Err(SizeError::BadUnit { found, expected }) => {
            assert_eq!(found, 'p');
            assert_eq!(expected, vec!['B', 'K', 'M', 'G', 'T', 'P', 'E']);
        },
        other => panic!("unexpected outcome: {:?}", other),
    }
    match parse_size("10xib") {
        Err(SizeError::BadUnit { found, expected }) => {
            assert_eq!(found, 'x');
            assert_eq!(expected, vec!['B', 'K', 'M', 'G', 'T', 'P', 'E']);
        },
        other => panic!("unexpected outcome: {:?}", other),
    }
}

#[test]
fn bad_characters_after_a_unit_prefix() {
    match parse_size("1kx") {
        Err(SizeError::BadUnit { found, expected }) => {
            assert_eq!(found, 'x');
            assert_eq!(expected, vec!['i', 'B']);
        },
        other => panic!("unexpected outcome: {:?}", other),
    }
    match parse_size("1kix") {
        Err(SizeError::BadUnit { found, expected }) => {
            assert_eq!(found, 'x');
            assert_eq!(expected, vec!['B']);
        },
        other => panic!("unexpected outcome: {:?}", other),
    }
    match parse_size("1kibs") {
        Err(SizeError::BadUnit { found, expected }) => {
            assert_eq!(found, 's');
            assert!(expected.is_empty());
        },
        other => panic!("unexpected outcome: {:?}", other),
    }
}

#[test]
fn empty_strings_miss_the_value() {
    assert!(matches!(parse_size(""), Err(SizeError::MissingValue)));
    assert!(matches!(parse_size("   "), Err(SizeError::MissingValue)));
}

#[test]
fn digitless_strings_fail_at_their_first_character() {
    match parse_size("kib") {
        Err(SizeError::BadUnit { found, expected }) => {
            assert_eq!(found, 'k');
            assert_eq!(expected, vec!['B', 'K', 'M', 'G', 'T', 'P', 'E']);
        },
        other => panic!("unexpected outcome: {:?}", other),
    }
    match parse_size(".5kib") {
        Err(SizeError::BadUnit { found, .. }) => assert_eq!(found, '.'),
        other => panic!("unexpected outcome: {:?}", other),
    }
}

#[test]
fn decimal_point_needs_digits() {
    match parse_size("1.") {
        Err(SizeError::NotNumber { found }) => assert_eq!(found, '.'),
        other => panic!("unexpected outcome: {:?}", other),
    }
    match parse_size("1.x") {
        Err(SizeError::NotNumber { found }) => assert_eq!(found, 'x'),
        other => panic!("unexpected outcome: {:?}", other),
    }
}

#[test]
fn values_beyond_64_bits_overflow() {
    assert!(matches!(
        parse_size("99999999999999999999B"),
        Err(SizeError::Overflow)
    ));
    assert!(matches!(parse_size("16EiB"), Err(SizeError::Overflow)));
    assert_eq!(parse_size("15EiB").unwrap(), 15u64 << 60);
}

#[test]
fn fractions_beyond_eighteen_digits_are_rejected() {
    assert!(matches!(
        parse_size("1.0000000000000000001kb"),
        Err(SizeError::FractionTooLong)
    ));
    assert_eq!(parse_size("1.000000000000000000kb").unwrap(), 1000);
}

#[test]
fn bad_unit_message_names_character_and_accepted_set() {
    let e = parse_size("potato").unwrap_err();
    assert_eq!(e.message(), "invalid size unit 'p'; accepted here: BKMGTPE");
    let e = parse_size("1kx").unwrap_err();
    assert_eq!(e.message(), "invalid size unit 'x'; accepted here: iB");
}
