use taskline::metadata::TasklineMetadata;
use taskline::version::Version;

#[test]
fn test_metadata_parsing() {
    let content = "@Taskline codename test-script\n@Taskline version v1.2.3\n\n// Content";
    let meta = TasklineMetadata::parse(content);
    assert_eq!(meta.codename, "test-script");
    assert_eq!(meta.version, Some(Version::new(1, 2, 3)));
}

#[test]
fn header_with_version() {
    let meta = TasklineMetadata { codename: String::from("test-script"), version: Some(Version::new(1, 2, 3)) };
    assert_eq!(meta.to_header(), "@Taskline codename test-script\n@Taskline version v1.2.3\n\n");
}

#[test]
fn header_without_version() {
    let meta = TasklineMetadata { codename: String::from("test-script"), version: None };
    assert_eq!(meta.to_header(), "@Taskline codename test-script\n\n");
}

#[test]
fn header_round_trip() {
    for version in [None, Some(Version::new(0, 0, 0)), Some(Version::new(10, 200, 4294967295))] {
        let meta = TasklineMetadata { codename: String::from("d\u{e9}mo  script "), version };
        let back = TasklineMetadata::parse(&meta.to_header());
        assert_eq!(back.codename, "d\u{e9}mo  script ");
        assert_eq!(back.version, version);
    }
}

#[test]
fn header_lines_found_anywhere() {
    let content = "// intro\n@Taskline version v2.0.1\nbody\n@Taskline codename late\n";
    let meta = TasklineMetadata::parse(content);
    assert_eq!(meta.codename, "late");
    assert_eq!(meta.version, Some(Version::new(2, 0, 1)));
}

#[test]
fn first_header_line_of_each_kind_counts() {
    let content = "@Taskline codename one\n@Taskline codename two\n@Taskline version v1.0.0\n@Taskline version v9.9.9";
    let meta = TasklineMetadata::parse(content);
    assert_eq!(meta.codename, "one");
    assert_eq!(meta.version, Some(Version::new(1, 0, 0)));
}

#[test]
fn malformed_version_line_leaves_version_unknown() {
    let content = "@Taskline codename demo\n@Taskline version 1.2.3\n@Taskline version v4.5.6\n";
    let meta = TasklineMetadata::parse(content);
    assert_eq!(meta.codename, "demo");
    assert_eq!(meta.version, None);
}

#[test]
fn content_without_header_lines() {
    let meta = TasklineMetadata::parse("just text\n");
    assert_eq!(meta.codename, "");
    assert_eq!(meta.version, None);
    let empty = TasklineMetadata::parse("");
    assert_eq!(empty.codename, "");
    assert_eq!(empty.version, None);
}

#[test]
fn codename_is_not_trimmed() {
    let meta = TasklineMetadata::parse("@Taskline codename   spaced out  \nrest");
    assert_eq!(meta.codename, "  spaced out  ");
}

#[test]
fn carriage_return_before_line_feed_is_dropped() {
    let meta = TasklineMetadata::parse("@Taskline codename demo\r\n@Taskline version v1.2.3\r\n\r\n");
    assert_eq!(meta.codename, "demo");
    assert_eq!(meta.version, Some(Version::new(1, 2, 3)));
    let last = TasklineMetadata::parse("@Taskline codename demo\r");
    assert_eq!(last.codename, "demo\r");
}
