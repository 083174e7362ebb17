//! Artifact coordinates, the repository path grammar, the metadata store and
//! the cache coordinator; and a plain path splitter that knows nothing of file
//! name grammar.
pub mod coordinates;
pub mod maven_repo_metadata;
pub mod metadata_xml;
pub mod paths;

use vstd::prelude::*;

use crate::maven::paths::{PathError, ends_with_snapshot_marker, is_snapshot_version, replace_all, replace_char};
use crate::util::text::{chars_of, last_index_of, rfind_char, substring};

verus! {

/// How a download treats a SHA-1 checksum advertised by the upstream.
#[derive(Debug, Clone, Copy, PartialEq, Eq, Structural)]
pub enum Sha1Handling {
    Require,
    VerifyIfPresent,
    Ignore,
}

/// A version string, without further structure.
pub struct MavenVersion(pub String);

impl MavenVersion {
    /// Whether the version string ends in `-SNAPSHOT`.
    pub fn is_snapshot(&self) -> (r: bool)
        ensures
            r == is_snapshot_version(self.0@),
    {
        ends_with_snapshot_marker(self.0.as_str())
    }
}

/// Group (dotted), artifact id and version string of an artifact.
pub struct MavenCoordinates {
    pub group_id: String,
    pub artifact_id: String,
    pub version: MavenVersion,
}

/// Coordinates of an artifact and the name of one of its files.
pub struct MavenArtifactRef {
    pub coordinates: MavenCoordinates,
    pub file_name: String,
}

/// The four parts of `group/segments/A/version/file`, split at its last three
/// `/`, the group's slashes written as dots; none where there are fewer than
/// three `/`.
pub open spec fn split_path(p: Seq<char>) -> Option<(Seq<char>, Seq<char>, Seq<char>, Seq<char>)> {
    let s3 = last_index_of(p, '/');
    let s2 = last_index_of(p.subrange(0, s3), '/');
    let s1 = last_index_of(p.subrange(0, s2), '/');
    if s3 < 0 || s2 < 0 || s1 < 0 {
        None
    } else {
        Some(
            (
                replace_all(p.subrange(0, s1), '/', '.'),
                p.subrange(s1 + 1, s2),
                p.subrange(s2 + 1, s3),
                p.subrange(s3 + 1, p.len() as int),
            ),
        )
    }
}

impl MavenArtifactRef {
    /// The repository-relative path `group/A/version/file`, the group's dots
    /// written as slashes.
    pub fn repository_path(&self) -> (r: String)
        ensures
            r@ == replace_all(self.coordinates.group_id@, '.', '/') + seq!['/']
                + self.coordinates.artifact_id@ + seq!['/'] + self.coordinates.version.0@ + seq!['/']
                + self.file_name@,
    {
        proof {
            reveal_strlit("/");
        }
        let mut r = replace_char(self.coordinates.group_id.as_str(), '.', '/');
        r.append("/");
        r.append(self.coordinates.artifact_id.as_str());
        r.append("/");
        r.append(self.coordinates.version.0.as_str());
        r.append("/");
        r.append(self.file_name.as_str());
        r
    }

    /// Splits a repository-relative path (e.g. `org/foo/bar/1.0/bar-1.0.jar`)
    /// into coordinates and file name.
    pub fn parse_path(path: &str) -> (r: Result<MavenArtifactRef, PathError>)
        ensures
            match r {
                Err(e) => split_path(path@) is None && e == PathError::TooFewSegments,
                Ok(x) => split_path(path@) == Some(
                    (
                        x.coordinates.group_id@,
                        x.coordinates.artifact_id@,
                        x.coordinates.version.0@,
                        x.file_name@,
                    ),
                ),
            },
    {
        let p = chars_of(path);
        let ghost q = p@;
        assert(q.subrange(0, q.len() as int) =~= q);
        let s3 = match rfind_char(&p, 0, p.len(), '/') {
            Some(i) => i,
            None => {
                return Err(PathError::TooFewSegments);
            },
        };
        assert(q.subrange(0, s3 as int).subrange(0, s3 as int) =~= q.subrange(0, s3 as int));
        let s2 = match rfind_char(&p, 0, s3, '/') {
            Some(i) => i,
            None => {
                return Err(PathError::TooFewSegments);
            },
        };
        assert(q.subrange(0, s2 as int).subrange(0, s2 as int) =~= q.subrange(0, s2 as int));
        let s1 = match rfind_char(&p, 0, s2, '/') {
            Some(i) => i,
            None => {
                return Err(PathError::TooFewSegments);
            },
        };
        let group_path = substring(path, 0, s1);
        Ok(
            MavenArtifactRef {
                coordinates: MavenCoordinates {
                    group_id: replace_char(group_path.as_str(), '/', '.'),
                    artifact_id: substring(path, s1 + 1, s2),
                    version: MavenVersion(substring(path, s2 + 1, s3)),
                },
                file_name: substring(path, s3 + 1, p.len()),
            },
        )
    }
}

} // verus!
pub mod remote_repo;
