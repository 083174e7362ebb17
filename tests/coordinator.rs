use maven_cache::blob::blob_storage::BlobKey;
use maven_cache::maven::coordinates::{MavenArtifactId, MavenGroupId, MavenVersion};
use maven_cache::maven::paths::parse_maven_path;
use maven_cache::maven::remote_repo::{
    artifact_metadata_of, DummyRemoteRepoMetadataStore, GetArtifactDecision, GetArtifactError,
    GetArtifactEvent, GetArtifactStep, MavenPluginMetadata, RemoteMavenRepo,
};
use maven_cache::util::change_kind::ChangeKind;

const BAR: &str = "org/foo/bar/1.2.3/bar-1.2.3.jar";
const BAR_URL: &str = "https://repo.example/maven2/org/foo/bar/1.2.3/bar-1.2.3.jar";

fn repo() -> RemoteMavenRepo {
    RemoteMavenRepo::new("https://repo.example/maven2".to_string(), DummyRemoteRepoMetadataStore::new()).unwrap()
}

#[test]
fn invalid_base_uri_is_refused() {
    assert!(RemoteMavenRepo::new("https://repo example/maven2".to_string(), DummyRemoteRepoMetadataStore::new()).is_err());
    assert!(RemoteMavenRepo::new("https://repo.example/maven2/".to_string(), DummyRemoteRepoMetadataStore::new()).is_ok());
}

#[test]
fn cold_read_downloads_then_serves_locally() {
    let mut repo = repo();
    let r = parse_maven_path(BAR).unwrap();
    let key = BlobKey(42);
    assert_eq!(repo.get_artifact(&r, GetArtifactEvent::Start, 1000), GetArtifactStep::Download(BAR_URL.to_string()));
    assert_eq!(repo.get_artifact(&r, GetArtifactEvent::Ingested(Some(key)), 1001), GetArtifactStep::ReadStored(key));
    assert_eq!(repo.get_artifact(&r, GetArtifactEvent::StoredRead { key, found: true }, 1001), GetArtifactStep::Done(Ok(key)));
    // the second request is served from the blob store, upstream is not asked
    assert_eq!(repo.get_artifact(&r, GetArtifactEvent::Start, 1002), GetArtifactStep::ReadLocal(key));
    assert_eq!(repo.get_artifact(&r, GetArtifactEvent::LocalRead { key, found: true }, 1002), GetArtifactStep::Done(Ok(key)));
}

#[test]
fn failed_download_is_not_retried_within_window() {
    let mut repo = repo();
    let r = parse_maven_path(BAR).unwrap();
    assert_eq!(repo.get_artifact(&r, GetArtifactEvent::Start, 1000), GetArtifactStep::Download(BAR_URL.to_string()));
    // upstream answered 500
    assert_eq!(repo.get_artifact(&r, GetArtifactEvent::Ingested(None), 1000), GetArtifactStep::Done(Err(GetArtifactError::DownloadFailed)));
    assert_eq!(repo.get_artifact(&r, GetArtifactEvent::Start, 1000), GetArtifactStep::Done(Err(GetArtifactError::RecentFailure)));
    assert_eq!(repo.get_artifact(&r, GetArtifactEvent::Start, 1300), GetArtifactStep::Done(Err(GetArtifactError::RecentFailure)));
    // past the retry window upstream is asked again
    assert_eq!(repo.get_artifact(&r, GetArtifactEvent::Start, 1301), GetArtifactStep::Download(BAR_URL.to_string()));
}

#[test]
fn validation_failure_registers_no_artifact() {
    let mut repo = repo();
    let r = parse_maven_path(BAR).unwrap();
    assert_eq!(repo.get_artifact(&r, GetArtifactEvent::Start, 50), GetArtifactStep::Download(BAR_URL.to_string()));
    // the body ended in a validation error, so the insert failed
    assert_eq!(repo.get_artifact(&r, GetArtifactEvent::Ingested(None), 51), GetArtifactStep::Done(Err(GetArtifactError::DownloadFailed)));
    assert_eq!(repo.get_artifact(&r, GetArtifactEvent::Start, 60), GetArtifactStep::Done(Err(GetArtifactError::RecentFailure)));
}

#[test]
fn dangling_and_missing_blobs() {
    let mut repo = repo();
    let r = parse_maven_path(BAR).unwrap();
    let key = BlobKey(7);
    assert_eq!(repo.get_artifact(&r, GetArtifactEvent::Start, 0), GetArtifactStep::Download(BAR_URL.to_string()));
    assert_eq!(repo.get_artifact(&r, GetArtifactEvent::Ingested(Some(key)), 0), GetArtifactStep::ReadStored(key));
    assert_eq!(repo.get_artifact(&r, GetArtifactEvent::StoredRead { key, found: false }, 0), GetArtifactStep::Done(Err(GetArtifactError::StoredButNotFound)));
    assert_eq!(repo.get_artifact(&r, GetArtifactEvent::Start, 1), GetArtifactStep::ReadLocal(key));
    assert_eq!(repo.get_artifact(&r, GetArtifactEvent::LocalRead { key, found: false }, 1), GetArtifactStep::Done(Err(GetArtifactError::DanglingLocalReference)));
}

#[test]
fn retry_window_is_configurable() {
    let mut repo = repo().with_retry_window(10);
    let r = parse_maven_path(BAR).unwrap();
    repo.get_artifact(&r, GetArtifactEvent::Start, 0);
    repo.get_artifact(&r, GetArtifactEvent::Ingested(None), 0);
    assert_eq!(repo.get_artifact(&r, GetArtifactEvent::Start, 10), GetArtifactStep::Done(Err(GetArtifactError::RecentFailure)));
    assert_eq!(repo.get_artifact(&r, GetArtifactEvent::Start, 11), GetArtifactStep::Download(BAR_URL.to_string()));
}

#[test]
fn store_decisions() {
    let mut store = DummyRemoteRepoMetadataStore::new();
    let r = parse_maven_path(BAR).unwrap();
    let other = parse_maven_path("org/foo/baz/1/baz-1.jar").unwrap();
    assert_eq!(store.decide_get_artifact(&r, 0, 300), GetArtifactDecision::Download);
    store.register_failed_download(&r, 10);
    assert_eq!(store.decide_get_artifact(&r, 310, 300), GetArtifactDecision::Fail);
    assert_eq!(store.decide_get_artifact(&other, 310, 300), GetArtifactDecision::Download);
    assert_eq!(store.decide_get_artifact(&r, 311, 300), GetArtifactDecision::Download);
    // the failure was evicted
    assert_eq!(store.decide_get_artifact(&r, 311, 300), GetArtifactDecision::Download);
    store.register_artifact(&r, BlobKey(1));
    store.register_artifact(&r, BlobKey(2));
    assert_eq!(store.decide_get_artifact(&r, 312, 300), GetArtifactDecision::Local(BlobKey(2)));
    // a failure of a held artifact is not recorded
    store.register_failed_download(&r, 313);
    assert_eq!(store.decide_get_artifact(&r, 314, 300), GetArtifactDecision::Local(BlobKey(2)));
    assert!(store.is_referenced(BlobKey(2)));
    assert!(!store.is_referenced(BlobKey(1)));
}

fn plugin(name: &str, prefix: &str, artifact: &str) -> MavenPluginMetadata {
    MavenPluginMetadata { name: name.to_string(), prefix: prefix.to_string(), artifact_id: MavenArtifactId(artifact.to_string()) }
}

#[test]
fn plugin_registry() {
    let mut repo = repo();
    let g = MavenGroupId("org.apache.maven.plugins".to_string());
    assert_eq!(repo.register_plugin(g.clone(), plugin("Clean", "clean", "maven-clean-plugin")), ChangeKind::Inserted);
    assert_eq!(repo.register_plugin(g.clone(), plugin("Eclipse", "eclipse", "maven-eclipse-plugin")), ChangeKind::Inserted);
    assert_eq!(repo.register_plugin(g.clone(), plugin("Clean 2", "clean", "maven-clean-plugin")), ChangeKind::Updated);
    assert_eq!(repo.register_plugin(MavenGroupId("other".to_string()), plugin("X", "x", "x-plugin")), ChangeKind::Inserted);
    let m = repo.get_group_metadata(&g);
    assert_eq!(m.plugins, vec![plugin("Clean 2", "clean", "maven-clean-plugin"), plugin("Eclipse", "eclipse", "maven-eclipse-plugin")]);
    assert!(repo.unregister_plugin(&g, &MavenArtifactId("maven-clean-plugin".to_string())));
    assert!(!repo.unregister_plugin(&g, &MavenArtifactId("maven-clean-plugin".to_string())));
    assert_eq!(repo.get_group_metadata(&g).plugins, vec![plugin("Eclipse", "eclipse", "maven-eclipse-plugin")]);
    assert_eq!(repo.get_group_metadata(&MavenGroupId("none".to_string())).plugins, vec![]);
}

#[test]
fn artifact_metadata_from_versions() {
    let snap = MavenVersion::Snapshot { version: "2.0-SNAPSHOT".to_string(), timestamp: "20240101.000000".to_string(), build_number: None };
    let versions = vec![
        (MavenVersion::Release("1.0".to_string()), "20230101000000".to_string()),
        (MavenVersion::Release("1.1".to_string()), "20230601000000".to_string()),
        (snap.clone(), "20240101000000".to_string()),
        (MavenVersion::Release("1.1.1".to_string()), "20230601000000".to_string()),
    ];
    let m = artifact_metadata_of(&versions).unwrap();
    assert_eq!(m.latest_version, snap);
    assert_eq!(m.last_updated, "20240101000000");
    // of two releases with the same timestamp the later one counts
    assert_eq!(m.release_version, MavenVersion::Release("1.1.1".to_string()));
    assert_eq!(m.versions.len(), 4);
    assert_eq!(m.versions[1], MavenVersion::Release("1.1".to_string()));
}

#[test]
fn artifact_metadata_needs_a_release() {
    let snap = MavenVersion::Snapshot { version: "2.0-SNAPSHOT".to_string(), timestamp: "20240101.000000".to_string(), build_number: Some(1) };
    assert_eq!(artifact_metadata_of(&vec![(snap, "20240101000000".to_string())]), None);
    assert_eq!(artifact_metadata_of(&vec![]), None);
    let repo = repo();
    assert_eq!(repo.get_artifact_metadata(&MavenGroupId("g".to_string()), &MavenArtifactId("a".to_string())), None);
}
