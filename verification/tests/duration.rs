use sx::duration::{humanize_secs, over_max_message, parse_duration, GRANT_TTL_MAX_SECS, GRANT_TTL_SECS};

#[test]
fn parses_plain_seconds_and_units() {
    assert_eq!(parse_duration("45").unwrap(), 45);
    assert_eq!(parse_duration("30m").unwrap(), 1800);
    assert_eq!(parse_duration("2h").unwrap(), 7200);
    assert_eq!(parse_duration("1d").unwrap(), 86_400);
    assert_eq!(parse_duration("90s").unwrap(), 90);
}

#[test]
fn parses_at_the_maximum() {
    assert_eq!(parse_duration("24h").unwrap(), GRANT_TTL_MAX_SECS);
    assert_eq!(parse_duration("1440m").unwrap(), GRANT_TTL_MAX_SECS);
}

#[test]
fn trims_surrounding_whitespace() {
    assert_eq!(parse_duration("  2h  ").unwrap(), 7200);
}

#[test]
fn rejects_empty_zero_and_negative() {
    assert!(parse_duration("").is_err());
    assert!(parse_duration("   ").is_err());
    assert!(parse_duration("0").is_err());
    assert!(parse_duration("0h").is_err());
    assert!(parse_duration("-5").is_err());
}

#[test]
fn rejects_unknown_units_and_garbage() {
    assert!(parse_duration("10x").is_err());
    assert!(parse_duration("abc").is_err());
    assert!(parse_duration("1.5h").is_err());
    assert!(parse_duration("h").is_err());
}

#[test]
fn rejects_over_maximum() {
    let err = parse_duration("2d").unwrap_err();
    assert!(err.contains("exceeds maximum"), "got: {err}");
    assert!(parse_duration("25h").is_err());
    assert!(parse_duration("86401").is_err());
}

#[test]
fn humanizes_largest_even_unit() {
    assert_eq!(humanize_secs(86_400), "1 day");
    assert_eq!(humanize_secs(172_800), "2 days");
    assert_eq!(humanize_secs(3600), "1 hour");
    assert_eq!(humanize_secs(7200), "2 hours");
    assert_eq!(humanize_secs(1800), "30 minutes");
    assert_eq!(humanize_secs(60), "1 minute");
    assert_eq!(humanize_secs(45), "45 seconds");
}

#[test]
fn each_fault_has_its_message() {
    assert_eq!(
        parse_duration(" \t").unwrap_err(),
        "empty duration; use e.g. 30m, 2h, 1d, or 45"
    );
    assert_eq!(
        parse_duration("10x").unwrap_err(),
        "invalid duration unit 'x' in \"10x\"; use s, m, h, or d"
    );
    assert_eq!(
        parse_duration("1.5h").unwrap_err(),
        "invalid duration \"1.5h\"; expected a number optionally followed by s, m, h, or d"
    );
    assert_eq!(
        parse_duration("a\"b\\\u{e9}\n1").unwrap_err(),
        format!(
            "invalid duration {:?}; expected a number optionally followed by s, m, h, or d",
            "a\"b\\\u{e9}\n1"
        )
    );
    assert_eq!(
        parse_duration("18446744073709551615d").unwrap_err(),
        "duration \"18446744073709551615d\" is too large"
    );
    assert_eq!(
        parse_duration("18446744073709551616").unwrap_err(),
        "invalid duration \"18446744073709551616\"; expected a number optionally followed by s, m, h, or d"
    );
    assert_eq!(parse_duration("0m").unwrap_err(), "duration must be greater than zero");
    assert_eq!(parse_duration("2d").unwrap_err(), "lease 2 days exceeds maximum of 1 day");
}

#[test]
fn a_plus_sign_is_accepted() {
    assert_eq!(parse_duration("+45"), Ok(45));
    assert!(parse_duration("+").is_err());
    assert!(parse_duration("++1").is_err());
}

#[test]
fn unicode_whitespace_around_a_duration_is_ignored() {
    assert_eq!(parse_duration("\u{a0}\u{2003}7m\u{3000}\u{85}"), Ok(420));
    assert!(parse_duration("7\u{200b}").is_err());
}

#[test]
fn counts_of_every_unit_read_back() {
    for (unit, secs) in [("s", 1u64), ("m", 60), ("h", 3600), ("d", 86_400)] {
        for n in [1u64, 2, 9, 10, 23, 24, 100, 1440, 86_400] {
            let read = parse_duration(&format!("{n}{unit}"));
            if n * secs <= GRANT_TTL_MAX_SECS {
                assert_eq!(read, Ok(n * secs));
            } else {
                assert_eq!(read, Err(over_max_message(n * secs)));
            }
        }
    }
}

#[test]
fn humanized_durations_are_exact() {
    assert_eq!(humanize_secs(0), "0 days");
    assert_eq!(humanize_secs(1), "1 second");
    assert_eq!(humanize_secs(61), "61 seconds");
    assert_eq!(humanize_secs(90_000), "25 hours");
    assert_eq!(humanize_secs(u64::MAX), "18446744073709551615 seconds");
    assert_eq!(humanize_secs(GRANT_TTL_SECS), "1 hour");
}
