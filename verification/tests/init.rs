use taskline::constants::{DEFAULT_VERSION, TASKLINE_EXTENSION};
use taskline::init::{new_script, script_file_name, validate_version};
use taskline::version::Version;

#[test]
fn test_validate_version_valid_cases() {
    assert!(validate_version("v1.0.0").is_ok());
    assert!(validate_version("v0.0.1").is_ok());
    assert!(validate_version("v10.20.30").is_ok());
    assert!(validate_version("v999.999.999").is_ok());
    assert!(validate_version("v1.0.0").is_ok());
}

#[test]
fn test_validate_version_invalid_cases() {
    assert!(validate_version("1.0.0").is_err()); // Missing 'v'
    assert!(validate_version("v1.0").is_err()); // Missing patch
    assert!(validate_version("v1.0.").is_err()); // Empty patch
    assert!(validate_version("v.1.0").is_err()); // Empty major
    assert!(validate_version("v1..0").is_err()); // Empty minor
    assert!(validate_version("v1.0.0.1").is_err()); // Too many parts
    assert!(validate_version("va.b.c").is_err()); // Non-numeric
    assert!(validate_version("v1.2.3a").is_err()); // Invalid character
    assert!(validate_version("").is_err()); // Empty
    assert!(validate_version("v").is_err()); // Too short
    assert!(validate_version("v1").is_err()); // Too short
}

#[test]
fn test_validate_version_edge_cases() {
    assert!(validate_version("v0.0.0").is_ok()); // All zeros
    assert!(validate_version("v1.2.3").is_ok()); // Standard format
    assert!(validate_version("v100.200.300").is_ok()); // Large numbers
    assert!(validate_version("v1.2.3.").is_err()); // Trailing dot
    assert!(validate_version("v.").is_err()); // Just v and dot
    assert!(validate_version("v..").is_err()); // Double dots at start
}

fn details(version: &str) -> String {
    validate_version(version).unwrap_err().details
}

#[test]
fn validation_names_the_first_fault() {
    assert_eq!(details(""), "Version too short - minimum format is v1.0.0");
    assert_eq!(details("v1.0"), "Version too short - minimum format is v1.0.0");
    assert_eq!(details("1.0."), "Version too short - minimum format is v1.0.0");
    assert_eq!(details("1.0.0"), "Version must start with 'v'");
    assert_eq!(details("V1.0.0"), "Version must start with 'v'");
    assert_eq!(details("v.1.0"), "Empty version part - each part must contain digits");
    assert_eq!(details("v1..0"), "Empty version part - each part must contain digits");
    assert_eq!(details("v1..a"), "Empty version part - each part must contain digits");
    assert_eq!(
        details("v1.0.0.1"),
        "Too many dots - version must have exactly 2 dots (major.minor.patch)"
    );
    assert_eq!(
        details("v1.2.3."),
        "Too many dots - version must have exactly 2 dots (major.minor.patch)"
    );
    assert_eq!(
        details("va.b.c"),
        "Invalid character - version can only contain digits and dots"
    );
    assert_eq!(
        details("v1.2.3a"),
        "Invalid character - version can only contain digits and dots"
    );
    assert_eq!(
        details("v1a..3"),
        "Invalid character - version can only contain digits and dots"
    );
    assert_eq!(
        details("v1.2.\u{e9}"),
        "Invalid character - version can only contain digits and dots"
    );
    assert_eq!(
        details("v1234"),
        "Missing dots - version must have exactly 2 dots (major.minor.patch)"
    );
    assert_eq!(
        details("v12.34"),
        "Missing dots - version must have exactly 2 dots (major.minor.patch)"
    );
    assert_eq!(details("v1.0."), "Last version part is empty - must contain digits");
    assert_eq!(
        details("v4294967296.0.0"),
        "Version part out of range - each part must fit in 32 bits"
    );
    assert_eq!(
        details("v0.0.99999999999999999999"),
        "Version part out of range - each part must fit in 32 bits"
    );
}

#[test]
fn validation_agrees_with_parsing() {
    let texts = [
        "", "v", "v1", "v1.0", "v1.0.", "v.1.0", "v1..0", "v1.0.0", "1.0.0", "v0.0.0", "v1.2.3.4",
        "va.b.c", "v1.2.3a", "v01.02.03", "v4294967295.4294967295.4294967295",
        "v4294967296.1.1", "v1.4294967296.1", "v1.1.4294967296", "v+1.2.3", "v1.2.3 ", "vv1.2.3",
        "v1.2.3\n", "v١.٢.٣",
    ];
    for text in texts {
        assert_eq!(validate_version(text).is_ok(), Version::parse(text).is_ok(), "{:?}", text);
    }
}

#[test]
fn initialization_error_text() {
    let e = validate_version("v").unwrap_err();
    assert_eq!(
        e.to_string(),
        "TasklineInitializationError: Version too short - minimum format is v1.0.0"
    );
}

#[test]
fn test_file_creation_without_version() {
    let test_filename = "test-script";
    let script = new_script(test_filename, None).unwrap();
    assert_eq!(script.file_name, "test-script.tskln");
    assert_eq!(script.content, "@Taskline codename test-script\n\n");
}

#[test]
fn test_file_creation_with_version() {
    let test_filename = "test-script";
    let test_version = "v1.2.3";
    assert!(validate_version(test_version).is_ok());
    let script = new_script(test_filename, Some(test_version)).unwrap();
    assert_eq!(script.file_name, "test-script.v1.2.3.tskln");
    assert_eq!(script.content, "@Taskline codename test-script\n@Taskline version v1.2.3\n\n");
}

#[test]
fn test_filename_generation_edge_cases() {
    let test_filename = "my-script_test";
    let test_version = "v0.1.0";
    let script = new_script(test_filename, Some(test_version)).unwrap();
    assert_eq!(script.file_name, "my-script_test.v0.1.0.tskln");
    assert_eq!(script.content, "@Taskline codename my-script_test\n@Taskline version v0.1.0\n\n");
}

#[test]
fn new_script_refuses_a_faulty_version() {
    let e = new_script("demo", Some("1.2.3")).unwrap_err();
    assert_eq!(e.details, "Version must start with 'v'");
    let e = new_script("demo", Some("v1.2.x")).unwrap_err();
    assert_eq!(e.details, "Invalid character - version can only contain digits and dots");
}

#[test]
fn new_script_writes_the_version_in_plain_decimal() {
    let script = new_script("demo", Some("v01.002.0")).unwrap();
    assert_eq!(script.file_name, "demo.v1.2.0.tskln");
    assert_eq!(script.content, "@Taskline codename demo\n@Taskline version v1.2.0\n\n");
}

#[test]
fn script_file_names() {
    assert_eq!(script_file_name("demo", None), "demo.tskln");
    assert_eq!(script_file_name("demo", Some(Version::new(3, 2, 1))), "demo.v3.2.1.tskln");
    assert_eq!(script_file_name("", None), ".tskln");
}

#[test]
fn shared_names() {
    assert_eq!(TASKLINE_EXTENSION, "tskln");
    assert_eq!(DEFAULT_VERSION, "v0.0.1");
    assert_eq!(Version::parse(DEFAULT_VERSION).unwrap(), Version::new(0, 0, 1));
}
