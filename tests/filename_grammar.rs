use maven_cache::maven::coordinates::MavenVersion;
use maven_cache::maven::paths::{parse_maven_filename, ParseFilenameResult};

#[test]
fn test_parse_filename_release() {
    let actual = parse_maven_filename("a-1.0.0.jar", "a", "1.0.0");
    let expected = ParseFilenameResult {
        version: MavenVersion::Release("1.0.0".to_string()),
        classifier: None,
        extension: ".jar".to_string(),
    };
    assert_eq!(actual.unwrap(), expected);
}

#[test]
fn test_parse_filename_release_with_dash() {
    let actual = parse_maven_filename("x-y-1.0.0.jar", "x-y", "1.0.0");
    let expected = ParseFilenameResult {
        version: MavenVersion::Release("1.0.0".to_string()),
        classifier: None,
        extension: ".jar".to_string(),
    };
    assert_eq!(actual.unwrap(), expected);
}

#[test]
fn test_parse_filename_release_version_with_dash_prefix() {
    let actual = parse_maven_filename("x-y-1.0.0.jar", "x", "y-1.0.0");
    let expected = ParseFilenameResult {
        version: MavenVersion::Release("y-1.0.0".to_string()),
        classifier: None,
        extension: ".jar".to_string(),
    };
    assert_eq!(actual.unwrap(), expected);
}

#[test]
fn test_parse_filename_release_version_with_dash_suffix() {
    let actual = parse_maven_filename("x-1.0.0-y.jar", "x", "1.0.0-y");
    let expected = ParseFilenameResult {
        version: MavenVersion::Release("1.0.0-y".to_string()),
        classifier: None,
        extension: ".jar".to_string(),
    };
    assert_eq!(actual.unwrap(), expected);
}

#[test]
fn test_parse_filename_release_extension() {
    let actual = parse_maven_filename("q-1.0.0.abc", "q", "1.0.0");
    let expected = ParseFilenameResult {
        version: MavenVersion::Release("1.0.0".to_string()),
        classifier: None,
        extension: ".abc".to_string(),
    };
    assert_eq!(actual.unwrap(), expected);
}

#[test]
fn test_parse_filename_release_classifier() {
    let actual = parse_maven_filename("a-1.0.0-cla.jar", "a", "1.0.0");
    let expected = ParseFilenameResult {
        version: MavenVersion::Release("1.0.0".to_string()),
        classifier: Some("cla".to_string()),
        extension: ".jar".to_string(),
    };
    assert_eq!(actual.unwrap(), expected);
}

#[test]
fn test_parse_filename_release_classifier_with_dash() {
    let actual = parse_maven_filename("a-1.0.0-cla-rst.jar", "a", "1.0.0");
    let expected = ParseFilenameResult {
        version: MavenVersion::Release("1.0.0".to_string()),
        classifier: Some("cla-rst".to_string()),
        extension: ".jar".to_string(),
    };
    assert_eq!(actual.unwrap(), expected);
}

#[test]
fn test_parse_filename_release_classifier_with_dash_suffix() {
    let actual = parse_maven_filename("a-1.0.0-cla-rst.jar", "a", "1.0.0-cla");
    let expected = ParseFilenameResult {
        version: MavenVersion::Release("1.0.0-cla".to_string()),
        classifier: Some("rst".to_string()),
        extension: ".jar".to_string(),
    };
    assert_eq!(actual.unwrap(), expected);
}

#[test]
fn test_parse_filename_release_invalid_too_short_1() {
    let actual = parse_maven_filename("xxxxxx", "a", "1.0.0");
    assert!(actual.is_err());
}

#[test]
fn test_parse_filename_release_invalid_too_short_2() {
    let actual = parse_maven_filename("", "a", "1.0.0");
    assert!(actual.is_err());
}

#[test]
fn test_parse_filename_release_invalid_wrong_artifact() {
    let actual = parse_maven_filename("a-1.0.0.jar", "b", "1.0.0");
    assert!(actual.is_err());
}

#[test]
fn test_parse_filename_release_invalid_no_dash_after_artifact() {
    let actual = parse_maven_filename("a1.0.0.jar", "a", "1.0.0");
    assert!(actual.is_err());
}

#[test]
fn test_parse_filename_release_invalid_wrong_version() {
    let actual = parse_maven_filename("a-1.0.0.jar", "a", "1.0.1");
    assert!(actual.is_err());
}

#[test]
fn test_parse_filename_release_invalid_no_version() {
    let actual = parse_maven_filename("a.jar", "a", "1.0.0");
    assert!(actual.is_err());
}

#[test]
fn test_parse_filename_release_invalid_no_dash_before_classifier() {
    let actual = parse_maven_filename("a-1.0.0xyz.jar", "a", "1.0.0");
    assert!(actual.is_err());
}

#[test]
fn test_parse_filename_snapshot() {
    let actual = parse_maven_filename("a-1.0.0-SNAPSHOT-12345678.123456.jar", "a", "1.0.0-SNAPSHOT");
    let expected = ParseFilenameResult {
        version: MavenVersion::Snapshot { version: "1.0.0-SNAPSHOT".to_string(), timestamp: "12345678.123456".to_string(), build_number: None },
        classifier: None,
        extension: ".jar".to_string(),
    };
    assert_eq!(actual.unwrap(), expected);
}

#[test]
fn test_parse_filename_snapshot_build_number() {
    let actual = parse_maven_filename("a-1.0.0-SNAPSHOT-12345678.123456-5.jar", "a", "1.0.0-SNAPSHOT");
    let expected = ParseFilenameResult {
        version: MavenVersion::Snapshot { version: "1.0.0-SNAPSHOT".to_string(), timestamp: "12345678.123456".to_string(), build_number: Some(5) },
        classifier: None,
        extension: ".jar".to_string(),
    };
    assert_eq!(actual.unwrap(), expected);
}

#[test]
fn test_parse_filename_snapshot_classifier() {
    let actual = parse_maven_filename("a-1.0.0-SNAPSHOT-cla-12345678.123456-5.jar", "a", "1.0.0-SNAPSHOT");
    let expected = ParseFilenameResult {
        version: MavenVersion::Snapshot { version: "1.0.0-SNAPSHOT".to_string(), timestamp: "12345678.123456".to_string(), build_number: Some(5) },
        classifier: Some("cla".to_string()),
        extension: ".jar".to_string(),
    };
    assert_eq!(actual.unwrap(), expected);
}

#[test]
fn test_parse_filename_snapshot_classifier_build_number() {
    let actual = parse_maven_filename("a-1.0.0-SNAPSHOT-xyz-12345678.123456-5.jar", "a", "1.0.0-SNAPSHOT");
    let expected = ParseFilenameResult {
        version: MavenVersion::Snapshot { version: "1.0.0-SNAPSHOT".to_string(), timestamp: "12345678.123456".to_string(), build_number: Some(5) },
        classifier: Some("xyz".to_string()),
        extension: ".jar".to_string(),
    };
    assert_eq!(actual.unwrap(), expected);
}

#[test]
fn test_parse_filename_snapshot_classifier_like_timestamp() {
    let actual = parse_maven_filename("a-1.0.0-SNAPSHOT-11111111.111111-22222222.222222-5.jar", "a", "1.0.0-SNAPSHOT");
    let expected = ParseFilenameResult {
        version: MavenVersion::Snapshot { version: "1.0.0-SNAPSHOT".to_string(), timestamp: "22222222.222222".to_string(), build_number: Some(5) },
        classifier: Some("11111111.111111".to_string()),
        extension: ".jar".to_string(),
    };
    assert_eq!(actual.unwrap(), expected);
}

#[test]
fn test_parse_filename_snapshot_classifier_with_dash() {
    let actual = parse_maven_filename("a-1.0.0-SNAPSHOT-a-b-c-22222222.222222-5.jar", "a", "1.0.0-SNAPSHOT");
    let expected = ParseFilenameResult {
        version: MavenVersion::Snapshot { version: "1.0.0-SNAPSHOT".to_string(), timestamp: "22222222.222222".to_string(), build_number: Some(5) },
        classifier: Some("a-b-c".to_string()),
        extension: ".jar".to_string(),
    };
    assert_eq!(actual.unwrap(), expected);
}

#[test]
fn test_parse_filename_snapshot_without_timestamp() {
    let actual = parse_maven_filename("a-1.0.0-SNAPSHOT.jar", "a", "1.0.0-SNAPSHOT");
    assert!(actual.is_err());
}

#[test]
fn test_parse_filename_snapshot_without_timestamp_but_classifier() {
    let actual = parse_maven_filename("a-1.0.0-SNAPSHOT-a-b-c.jar", "a", "1.0.0-SNAPSHOT");
    assert!(actual.is_err());
}

#[test]
fn test_parse_filename_snapshot_without_timestamp_but_classifier_and_build_number() {
    let actual = parse_maven_filename("a-1.0.0-SNAPSHOT-a-b-c-5.jar", "a", "1.0.0-SNAPSHOT");
    assert!(actual.is_err());
}

#[test]
fn test_parse_filename_snapshot_invalid_too_short_1() {
    let actual = parse_maven_filename("xxxxxxxxxxxxxxx", "a", "1.0.0-SNAPSHOT");
    assert!(actual.is_err());
}

#[test]
fn test_parse_filename_snapshot_invalid_too_short_2() {
    let actual = parse_maven_filename("", "a", "1.0.0-SNAPSHOT");
    assert!(actual.is_err());
}

#[test]
fn test_parse_filename_snapshot_invalid_wrong_artifact() {
    let actual = parse_maven_filename("a-1.0.0-SNAPSHOT-11111111.222222.jar", "b", "1.0.0-SNAPSHOT");
    assert!(actual.is_err());
}

#[test]
fn test_parse_filename_snapshot_invalid_no_dash_after_artifact() {
    let actual = parse_maven_filename("a1.0.0-SNAPSHOT-11111111.222222.jar", "a", "1.0.0-SNAPSHOT");
    assert!(actual.is_err());
}

#[test]
fn test_parse_filename_snapshot_invalid_wrong_version() {
    let actual = parse_maven_filename("a-1.0.0-SNAPSHOT-11111111.222222.jar", "a", "1.0.1-SNAPSHOT");
    assert!(actual.is_err());
}

#[test]
fn test_parse_filename_snapshot_invalid_no_version() {
    let actual = parse_maven_filename("a.jar", "a", "1.0.0-SNAPSHOT");
    assert!(actual.is_err());
}

#[test]
fn test_parse_filename_snapshot_invalid_build_number() {
    let actual = parse_maven_filename("a-1.0.0-SNAPSHOT-12345678.123456-a.jar", "a", "1.0.0-SNAPSHOT");
    assert!(actual.is_err());
}

#[test]
fn test_parse_filename_snapshot_lowercase_snapshot() {
    let actual = parse_maven_filename("a-1.0.0-snapshot-12345678.123456-a.jar", "a", "1.0.0-snapshot");
    let expected = ParseFilenameResult {
        version: MavenVersion::Release("1.0.0-snapshot".to_string()),
        classifier: Some("12345678.123456-a".to_string()),
        extension: ".jar".to_string(),
    };
    assert_eq!(actual.unwrap(), expected);
}
