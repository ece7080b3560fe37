use cuvm::version::Version;

#[test]
fn parse_extracts_numeric_fields_and_keeps_raw() {
    let v = Version::parse("13.3.0").unwrap();
    assert_eq!(v.fields, vec![13, 3, 0]);
    assert_eq!(v.raw, "13.3.0");
    assert_eq!(v.major(), 13);
}

#[test]
fn parse_supports_four_part_cccl_version() {
    let v = Version::parse("13.3.3.3.1").unwrap();
    assert_eq!(v.fields, vec![13, 3, 3, 3, 1]);
    assert_eq!(v.major(), 13);
}

#[test]
fn parse_rejects_empty_and_non_numeric() {
    assert!(Version::parse("").is_err());
    assert!(Version::parse("12.x").is_err());
    assert!(Version::parse("v12.4").is_err());
}

#[test]
fn ord_is_numeric_not_lexical() {
    // 570.26 < 570.124.06 numerically; lexical compare would get this WRONG.
    let a = Version::parse("570.26").unwrap();
    let b = Version::parse("570.124.06").unwrap();
    assert!(a < b, "expected 570.26 < 570.124.06 numerically");
}

#[test]
fn ord_treats_missing_tail_as_zero() {
    // 12.4 == 12.4.0 ; 12.4 < 12.4.1
    assert_eq!(
        Version::parse("12.4").unwrap(),
        Version::parse("12.4.0").unwrap()
    );
    assert!(Version::parse("12.4").unwrap() < Version::parse("12.4.1").unwrap());
}

#[test]
fn eq_ignores_raw_string_differences() {
    // 12.04 and 12.4 compare equal (numeric); raw is preserved separately.
    let a = Version::parse("12.04").unwrap();
    let b = Version::parse("12.4").unwrap();
    assert_eq!(a, b);
    assert_eq!(a.raw, "12.04");
}

#[test]
fn display_renders_raw() {
    assert_eq!(Version::parse("12.4.1").unwrap().to_string(), "12.4.1");
}

#[test]
fn parse_trims_surrounding_whitespace_and_accepts_a_plus_sign() {
    let v = Version::parse("  \t12.+4\n").unwrap();
    assert_eq!(v.fields, vec![12, 4]);
    assert_eq!(v.raw, "12.+4");
}

#[test]
fn parse_rejects_empty_fields_and_overflow() {
    assert!(Version::parse("12..4").is_err());
    assert!(Version::parse("12.").is_err());
    assert!(Version::parse("   ").is_err());
    assert!(Version::parse("4294967296").is_err());
    assert_eq!(Version::parse("4294967295").unwrap().fields, vec![u32::MAX]);
}

#[test]
fn major_minor_pads_a_missing_minor() {
    let v = Version::parse("12").unwrap().major_minor();
    assert_eq!(v.fields, vec![12, 0]);
    assert_eq!(v.raw, "12.0");
    assert_eq!(Version::parse("12.4.1").unwrap().major_minor().raw, "12.4");
}

#[test]
fn reparsing_the_kept_text_gives_the_same_version() {
    let v = Version::parse("  12.4.1\n").unwrap();
    let again = Version::parse(&v.to_string()).unwrap();
    assert_eq!(again.fields, v.fields);
    assert_eq!(again.raw, v.raw);
}
