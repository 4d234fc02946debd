use pdfmeta::version::{Version, VersionError};

#[test]
fn parse_with_two_fraction_digits_truncates() {
    assert_eq!(Version::parse("1.47"), Ok(Version { primary: 1, secondary: 4 }));
}

#[test]
fn parse_simple_decimal() {
    assert_eq!(Version::parse("2.0"), Ok(Version { primary: 2, secondary: 0 }));
}

#[test]
fn parse_without_fraction_defaults_secondary_to_zero() {
    assert_eq!(Version::parse("3"), Ok(Version { primary: 3, secondary: 0 }));
}

#[test]
fn parse_common_version() {
    assert_eq!(Version::parse("1.7"), Ok(Version { primary: 1, secondary: 7 }));
}

#[test]
fn parse_trailing_dot_is_a_number() {
    assert_eq!(Version::parse("5."), Ok(Version { primary: 5, secondary: 0 }));
}

#[test]
fn parse_leading_dot_is_a_number() {
    assert_eq!(Version::parse(".5"), Ok(Version { primary: 0, secondary: 5 }));
}

#[test]
fn parse_rejects_letters() {
    assert_eq!(Version::parse("abc"), Err(VersionError::NotDecimal));
}

#[test]
fn parse_rejects_empty() {
    assert_eq!(Version::parse(""), Err(VersionError::NotDecimal));
}

#[test]
fn parse_rejects_lone_dot() {
    assert_eq!(Version::parse("."), Err(VersionError::NotDecimal));
}

#[test]
fn parse_rejects_two_dots() {
    assert_eq!(Version::parse("1.2.3"), Err(VersionError::NotDecimal));
}

#[test]
fn parse_rejects_sign() {
    assert_eq!(Version::parse("-1.5"), Err(VersionError::NotDecimal));
}

#[test]
fn parse_rejects_huge_integer_part() {
    assert_eq!(Version::parse("18446744073709551616"), Err(VersionError::TooLarge));
}

#[test]
fn parse_accepts_largest_integer_part() {
    assert_eq!(
        Version::parse("18446744073709551615"),
        Ok(Version { primary: 18446744073709551615, secondary: 0 })
    );
}

#[test]
fn equal_versions_compare_equal_however_built() {
    let parsed = Version::parse("1.7").unwrap();
    let built = Version { primary: 1, secondary: 7 };
    assert_eq!(parsed, built);
}

#[test]
fn default_version_is_one_dot_zero() {
    assert_eq!(Version::default(), Version { primary: 1, secondary: 0 });
    assert_eq!(Version::default().as_str(), "1.0");
}

#[test]
fn as_str_renders_primary_dot_secondary() {
    assert_eq!(Version { primary: 1, secondary: 0 }.as_str(), "1.0");
    assert_eq!(Version { primary: 1, secondary: 7 }.as_str(), "1.7");
    assert_eq!(Version { primary: 0, secondary: 0 }.as_str(), "0.0");
    assert_eq!(Version { primary: 12, secondary: 340 }.as_str(), "12.340");
}

#[test]
fn parse_then_render_round_trip() {
    assert_eq!(Version::parse("1.47").unwrap().as_str(), "1.4");
    assert_eq!(Version::parse("10.0").unwrap().as_str(), "10.0");
}
