use maven_cache::maven::coordinates::{
    MavenArtifactId, MavenArtifactRef, MavenClassifier, MavenCoordinates, MavenGroupId,
    MavenVersion,
};
use maven_cache::maven::paths::{as_maven_path, maven_file_name, parse_maven_path, PathError};
use maven_cache::maven::{MavenArtifactRef as PlainArtifactRef, MavenVersion as PlainVersion};

fn artifact(group: &str, artifact: &str, version: MavenVersion, classifier: MavenClassifier, ext: &str) -> MavenArtifactRef {
    MavenArtifactRef {
        coordinates: MavenCoordinates {
            group_id: MavenGroupId(group.to_string()),
            artifact_id: MavenArtifactId(artifact.to_string()),
            version,
        },
        classifier,
        file_extension: ext.to_string(),
    }
}

#[test]
fn formats_snapshot_with_build_number() {
    let r = artifact(
        "org.foo",
        "bar",
        MavenVersion::Snapshot {
            version: "1.2.3-SNAPSHOT".to_string(),
            timestamp: "20240115.101530".to_string(),
            build_number: Some(7),
        },
        MavenClassifier::Unclassified,
        ".jar",
    );
    assert_eq!(as_maven_path(&r), "org/foo/bar/1.2.3-SNAPSHOT/bar-1.2.3-SNAPSHOT-20240115.101530-7.jar");
}

#[test]
fn formats_release_with_classifier() {
    let r = artifact("com.example.tools", "x-y", MavenVersion::Release("2.0".to_string()), MavenClassifier::Classified("sources".to_string()), ".jar");
    assert_eq!(as_maven_path(&r), "com/example/tools/x-y/2.0/x-y-2.0-sources.jar");
    assert_eq!(maven_file_name(&r), "x-y-2.0-sources.jar");
}

#[test]
fn parses_cold_read_path() {
    let r = parse_maven_path("org/foo/bar/1.2.3/bar-1.2.3.jar").unwrap();
    assert_eq!(r, artifact("org.foo", "bar", MavenVersion::Release("1.2.3".to_string()), MavenClassifier::Unclassified, ".jar"));
}

#[test]
fn round_trips_release_and_snapshot() {
    let refs = vec![
        artifact("org.foo", "bar", MavenVersion::Release("1.2.3".to_string()), MavenClassifier::Unclassified, ".jar"),
        artifact("org", "a-b", MavenVersion::Release("1.0".to_string()), MavenClassifier::Classified("x.y-z".to_string()), ".pom"),
        artifact("g", "a", MavenVersion::Release("1.0".to_string()), MavenClassifier::Classified("tests".to_string()), ""),
        artifact(
            "org.foo",
            "bar",
            MavenVersion::Snapshot { version: "1.2.3-SNAPSHOT".to_string(), timestamp: "20240115.101530".to_string(), build_number: Some(7) },
            MavenClassifier::Classified("11111111.111111".to_string()),
            ".jar",
        ),
        artifact(
            "org.foo",
            "bar",
            MavenVersion::Snapshot { version: "1.2.3-SNAPSHOT".to_string(), timestamp: "20240115.101530".to_string(), build_number: None },
            MavenClassifier::Unclassified,
            ".jar",
        ),
        artifact(
            "org.foo",
            "bar",
            MavenVersion::Snapshot { version: "1.2.3-SNAPSHOT".to_string(), timestamp: "20240115.101530".to_string(), build_number: Some(4294967295) },
            MavenClassifier::Classified("a-b-c".to_string()),
            ".zip",
        ),
    ];
    for r in refs {
        let p = as_maven_path(&r);
        assert_eq!(parse_maven_path(&p).unwrap(), r, "{}", p);
    }
}

#[test]
fn release_without_classifier_or_extension_is_too_short() {
    let r = artifact("g", "a", MavenVersion::Release("1.0".to_string()), MavenClassifier::Unclassified, "");
    let p = as_maven_path(&r);
    assert_eq!(p, "g/a/1.0/a-1.0");
    assert_eq!(parse_maven_path(&p), Err(PathError::FileNameTooShort));
}

#[test]
fn path_errors() {
    assert_eq!(parse_maven_path("a/1.0/a-1.0.jar"), Err(PathError::TooFewSegments));
    assert_eq!(parse_maven_path("g/a/1.0/b-1.0.jar"), Err(PathError::WrongArtifactId));
    assert_eq!(parse_maven_path("g/a/1.0/a-1.1.jar"), Err(PathError::WrongVersion));
    assert_eq!(parse_maven_path("g/a/1.0-SNAPSHOT/a-1.0-SNAPSHOT-x.jar"), Err(PathError::MalformedSnapshotTail));
    assert_eq!(parse_maven_path("g/a/1.0/a-1.0x.jar"), Err(PathError::MalformedClassifier));
    assert_eq!(parse_maven_path("g/a/1.0/a.jar"), Err(PathError::FileNameTooShort));
}

#[test]
fn snapshot_tail_needs_a_dash_before_the_classifier() {
    assert_eq!(
        parse_maven_path("a/a/1.0.0-SNAPSHOT/a-1.0.0-SNAPSHOTX-12345678.123456.jar"),
        Err(PathError::MalformedSnapshotTail)
    );
    assert_eq!(
        parse_maven_path("a/a/1.0.0-SNAPSHOT/a-1.0.0-SNAPSHOTX-12345678.123456-3.jar"),
        Err(PathError::MalformedSnapshotTail)
    );
}

#[test]
fn build_number_accepts_a_plus_sign() {
    let r = parse_maven_path("g/a/1.0-SNAPSHOT/a-1.0-SNAPSHOT-12345678.123456-+5.jar").unwrap();
    assert_eq!(
        r.coordinates.version,
        MavenVersion::Snapshot { version: "1.0-SNAPSHOT".to_string(), timestamp: "12345678.123456".to_string(), build_number: Some(5) }
    );
}

#[test]
fn build_number_that_overflows_is_rejected() {
    assert_eq!(
        parse_maven_path("g/a/1.0-SNAPSHOT/a-1.0-SNAPSHOT-12345678.123456-4294967296.jar"),
        Err(PathError::MalformedSnapshotTail)
    );
}

#[test]
fn deep_group_is_dotted() {
    let r = parse_maven_path("com/example/deep/group/lib/3/lib-3.tar").unwrap();
    assert_eq!(r.coordinates.group_id, MavenGroupId("com.example.deep.group".to_string()));
}

#[test]
fn plain_path_split() {
    let r = PlainArtifactRef::parse_path("org/foo/bar/1.2.3/bar-1.2.3.jar").unwrap();
    assert_eq!(r.coordinates.group_id, "org.foo");
    assert_eq!(r.coordinates.artifact_id, "bar");
    assert_eq!(r.coordinates.version.0, "1.2.3");
    assert_eq!(r.file_name, "bar-1.2.3.jar");
    assert!(PlainArtifactRef::parse_path("bar/1.2.3/bar-1.2.3.jar").is_err());
}

#[test]
fn plain_path_formatting() {
    let r = PlainArtifactRef::parse_path("org/foo/bar/1.2.3/bar-1.2.3.jar").unwrap();
    assert_eq!(r.repository_path(), "org/foo/bar/1.2.3/bar-1.2.3.jar");
}

#[test]
fn snapshot_detection() {
    assert!(PlainVersion("1.0-SNAPSHOT".to_string()).is_snapshot());
    assert!(!PlainVersion("1.0-snapshot".to_string()).is_snapshot());
    assert!(!PlainVersion("1.0-SNAPSHOT-1".to_string()).is_snapshot());
}
