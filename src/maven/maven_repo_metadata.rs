//! A cleaned-up view of what `maven-metadata.xml` files describe.
use vstd::prelude::*;

use crate::maven::coordinates::{MavenArtifactId, MavenClassifier, MavenCoordinates, MavenGroupId};

verus! {

/// Where an artifact stands.
pub enum ArtifactStatus {
    /// held locally
    Materialized,
    /// listed upstream, not fetched
    AnnouncedByUpstream,
    /// the last fetch failed, at this time (seconds)
    FailedToGetFromUpstream(u64),
}

/// Repository metadata, by group, artifact and version.
pub trait MavenRepoMetaData {
    fn get_child_groups(&self, group_id: &MavenGroupId) -> Vec<MavenGroupId>;

    fn get_artifacts(&self, group_id: &MavenGroupId) -> Vec<MavenArtifactId>;

    /// the versions that exist for any classifier
    fn get_versions(&self, group_id: &MavenGroupId, artifact_id: &MavenArtifactId) -> Vec<
        MavenCoordinates,
    >;

    fn get_classifiers(&self, coordinates: &MavenCoordinates) -> Vec<MavenClassifier>;

    fn get_status(&self, coordinates: &MavenCoordinates) -> ArtifactStatus;
}

} // verus!
