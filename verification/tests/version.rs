use taskline::version::{TasklineError, Version};

#[test]
fn test_version_parsing() {
    assert_eq!(Version::parse("v1.2.3").unwrap(), Version::new(1, 2, 3));
    assert_eq!(Version::parse("v0.0.1").unwrap(), Version::new(0, 0, 1));
    assert!(Version::parse("1.2.3").is_err()); // Missing 'v'
    assert!(Version::parse("v1.2").is_err()); // Missing patch
}

#[test]
fn test_version_bumping() {
    let v = Version::new(1, 2, 3);
    assert_eq!(v.bump_patch(), Version::new(1, 2, 4));
    assert_eq!(v.bump_minor(), Version::new(1, 3, 0));
    assert_eq!(v.bump_major(), Version::new(2, 0, 0));
}

#[test]
fn parse_rejects_malformed_text() {
    for text in ["1.2.3", "v1.2", "v1.2.3.4", "va.b.c", "", "v", "v1", "v1.2.", "v.1.2", "v1..2", "V1.2.3", " v1.2.3", "v1.2.3 ", "v+1.2.3", "v-1.2.3", "v1.2.3a", "v1,2,3", "vv1.2.3"] {
        assert!(Version::parse(text).is_err(), "{}", text);
    }
}

#[test]
fn parse_error_messages() {
    let message = |text: &str| match Version::parse(text) {
        Err(TasklineError::VersionError(m)) => m,
        other => panic!("{:?}", other),
    };
    assert_eq!(message("1.2.3"), "Version must start with 'v'");
    assert_eq!(message(""), "Version must start with 'v'");
    assert_eq!(message("v1.2"), "Version must have format v1.2.3");
    assert_eq!(message("v1.2.3.4"), "Version must have format v1.2.3");
    assert_eq!(message("va.b.c"), "Invalid major version");
    assert_eq!(message("v.b.c"), "Invalid major version");
    assert_eq!(message("v1.b.c"), "Invalid minor version");
    assert_eq!(message("v1..3"), "Invalid minor version");
    assert_eq!(message("v1.2.c"), "Invalid patch version");
    assert_eq!(message("v1.2."), "Invalid patch version");
    assert_eq!(message("v4294967296.0.0"), "Invalid major version");
    assert_eq!(message("v0.4294967296.0"), "Invalid minor version");
    assert_eq!(message("v0.0.4294967296"), "Invalid patch version");
}

#[test]
fn parse_accepts_the_full_range() {
    assert_eq!(Version::parse("v0.0.0").unwrap(), Version::new(0, 0, 0));
    assert_eq!(
        Version::parse("v4294967295.4294967295.4294967295").unwrap(),
        Version::new(u32::MAX, u32::MAX, u32::MAX)
    );
    assert_eq!(Version::parse("v007.08.0009").unwrap(), Version::new(7, 8, 9));
    assert_eq!(Version::parse("v00000000000000000001.2.3").unwrap(), Version::new(1, 2, 3));
}

#[test]
fn format_is_plain_decimal() {
    assert_eq!(Version::new(0, 0, 1).to_string(), "v0.0.1");
    assert_eq!(Version::new(0, 0, 0).to_string(), "v0.0.0");
    assert_eq!(Version::new(10, 20, 30).to_string(), "v10.20.30");
    assert_eq!(Version::new(u32::MAX, 0, 109).to_string(), "v4294967295.0.109");
}

#[test]
fn parse_format_round_trip() {
    let numbers = [0u32, 1, 9, 10, 11, 99, 100, 101, 12345, 999999999, 1000000000, u32::MAX - 1, u32::MAX];
    for &major in &numbers {
        for &minor in &numbers {
            for &patch in &numbers {
                let v = Version::new(major, minor, patch);
                assert_eq!(Version::parse(&v.to_string()).unwrap(), v);
            }
        }
    }
}

#[test]
fn bumps_raise_one_number_and_reset_the_lower_ones() {
    let v = Version::new(7, 8, 9);
    let patched = v.bump_patch();
    assert_eq!((patched.major, patched.minor, patched.patch), (7, 8, 10));
    assert_eq!(v.bump_minor(), Version::new(7, 9, 0));
    assert_eq!(v.bump_major(), Version::new(8, 0, 0));
    assert_eq!(Version::new(0, 0, 0).bump_patch(), Version::new(0, 0, 1));
    assert_eq!(Version::new(0, 0, u32::MAX - 1).bump_patch(), Version::new(0, 0, u32::MAX));
}

#[test]
fn versions_are_ordered_by_major_then_minor_then_patch() {
    assert!(Version::new(1, 2, 3) < Version::new(1, 2, 4));
    assert!(Version::new(1, 2, 9) < Version::new(1, 3, 0));
    assert!(Version::new(1, 9, 9) < Version::new(2, 0, 0));
    assert!(Version::new(2, 0, 0) > Version::new(1, 9, 9));
    assert!(Version::new(1, 2, 3) <= Version::new(1, 2, 3));
    assert_eq!(Version::new(1, 2, 3), Version::new(1, 2, 3));
    assert_ne!(Version::new(1, 2, 3), Version::new(1, 3, 2));
    assert_eq!(Version::new(0, 5, 0).max(Version::new(0, 4, 9)), Version::new(0, 5, 0));
    assert_eq!(
        Version::new(3, 0, 0).partial_cmp(&Version::new(3, 0, 0)),
        Some(std::cmp::Ordering::Equal)
    );
}

#[test]
fn error_text_names_the_kind() {
    assert_eq!(TasklineError::VersionError(String::from("bad")).to_string(), "Version Error: bad");
    assert_eq!(TasklineError::FileError(String::from("gone")).to_string(), "File Error: gone");
    assert_eq!(TasklineError::ParseError(String::from("odd")).to_string(), "Parse Error: odd");
}
