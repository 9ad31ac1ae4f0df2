use utils_box::versions::{
    normalize_version, semver_parse, semver_parse_or_default, semver_parse_regex, version_capture,
    Version, VersionError,
};

#[test]
fn semver_parse_test() {
    let version = "0.9.0";
    assert_eq!(semver_parse(version).unwrap(), Version::new(0, 9, 0));

    let version = "0.9";
    assert_eq!(semver_parse(version).unwrap(), Version::new(0, 9, 0));

    let version = "0.9.2-1e341234";
    let mut expected = Version::new(0, 9, 2);
    expected.pre = "1e341234".to_string();
    assert_eq!(semver_parse(version).unwrap(), expected);

    let version = "0.9-1-e341234";
    let mut expected = Version::new(0, 9, 0);
    expected.pre = "1-e341234".to_string();
    assert_eq!(semver_parse(version).unwrap(), expected);

    let version = "0.9-2";
    let mut expected = Version::new(0, 9, 0);
    expected.pre = "2".to_string();
    assert_eq!(semver_parse(version).unwrap(), expected);
}

#[test]
fn semver_parse_regex_test() {
    let input = "btsys_intbrd_boot_config_v_0_9.hex";

    let pattern = "btsys_intbrd_boot_config_v_(.*).hex";

    let expected_version = Version::new(0, 9, 0);

    assert_eq!(
        semver_parse_regex(&input, &pattern, "_").unwrap(),
        expected_version
    );
}

#[test]
fn normalize_version_forms() {
    assert_eq!(normalize_version("1.2.3").as_deref(), Some("1.2.3"));
    assert_eq!(normalize_version("1.2").as_deref(), Some("1.2.0"));
    assert_eq!(normalize_version("1.2.3-rc.1").as_deref(), Some("1.2.3-rc.1"));
    assert_eq!(normalize_version("1.2-rc").as_deref(), Some("1.2.0-rc"));
    assert_eq!(normalize_version("1.2.3-a\nrest").as_deref(), Some("1.2.3-a"));
    assert_eq!(normalize_version("1"), None);
    assert_eq!(normalize_version("1.x"), None);
    assert_eq!(normalize_version("1.2.3.4"), None);
    assert_eq!(normalize_version(""), None);
    assert_eq!(normalize_version("v1.2"), None);
}

#[test]
fn semver_parse_errors() {
    assert_eq!(semver_parse("abc"), Err(VersionError::NoMatch));
    assert_eq!(semver_parse("1.2.3-"), Err(VersionError::Invalid));
    assert_eq!(semver_parse("01.2.3"), Err(VersionError::Invalid));
}

#[test]
fn semver_parse_or_default_falls_back() {
    assert_eq!(semver_parse_or_default("nothing"), Version::new(0, 0, 0));
    assert_eq!(semver_parse_or_default("3.4"), Version::new(3, 4, 0));
}

#[test]
fn semver_parse_regex_errors() {
    assert_eq!(
        semver_parse_regex("fw_v_1_2.hex", "fw_v_(.*", "_"),
        Err(VersionError::Pattern)
    );
    assert_eq!(
        semver_parse_regex("other.hex", "fw_v_(.*).hex", "_"),
        Err(VersionError::NoMatch)
    );
    assert_eq!(
        semver_parse_regex("fw_v_1_2.hex", "fw_v_.*.hex", "_"),
        Err(VersionError::NoMatch)
    );
}

#[test]
fn version_capture_replaces_delimiter() {
    let groups = vec![Some("x_1_2".to_string()), Some("1_2_3".to_string())];
    assert_eq!(version_capture(&groups, "_").unwrap(), "1.2.3");
    let groups = vec![Some("x".to_string()), None];
    assert_eq!(version_capture(&groups, "_"), Err(VersionError::NoMatch));
    let groups = vec![Some("ab".to_string()), Some("ab".to_string())];
    assert_eq!(version_capture(&groups, "").unwrap(), ".a.b.");
}
