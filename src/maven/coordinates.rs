use vstd::prelude::*;

verus! {

/// A version as it stands in a repository layout.
#[derive(Debug, Eq, PartialEq, Clone, Hash)]
pub enum MavenVersion {
    Release(String),
    Snapshot {
        /// the base version, ending in `-SNAPSHOT`
        version: String,
        /// `YYYYMMDD.HHMMSS`
        timestamp: String,
        build_number: Option<u32>,
    },
}

#[derive(PartialEq, Eq, Clone, Debug, Hash)]
pub struct MavenArtifactId(pub String);

#[derive(PartialEq, Eq, Clone, Debug, Hash)]
pub struct MavenGroupId(pub String);

#[derive(PartialEq, Eq, Clone, Debug, Hash)]
pub struct MavenCoordinates {
    pub group_id: MavenGroupId,
    pub artifact_id: MavenArtifactId,
    pub version: MavenVersion,
}

#[derive(PartialEq, Eq, Clone, Debug, Hash)]
pub enum MavenClassifier {
    Unclassified,
    Classified(String),
}

#[derive(PartialEq, Eq, Clone, Debug, Hash)]
pub struct MavenArtifactRef {
    pub coordinates: MavenCoordinates,
    pub classifier: MavenClassifier,
    /// including the leading '.', e.g. ".jar"; may be empty
    pub file_extension: String,
}

/// The mathematical value of a [`MavenVersion`].
pub enum VersionModel {
    Release(Seq<char>),
    Snapshot { base: Seq<char>, timestamp: Seq<char>, build_number: Option<u32> },
}

/// The mathematical value of a [`MavenArtifactRef`]: group (dotted), artifact id,
/// version, classifier and extension.
pub struct ArtifactRefModel {
    pub group_id: Seq<char>,
    pub artifact_id: Seq<char>,
    pub version: VersionModel,
    pub classifier: Option<Seq<char>>,
    pub extension: Seq<char>,
}

impl View for MavenVersion {
    type V = VersionModel;

    open spec fn view(&self) -> VersionModel {
        match self {
            MavenVersion::Release(s) => VersionModel::Release(s@),
            MavenVersion::Snapshot { version, timestamp, build_number } => VersionModel::Snapshot {
                base: version@,
                timestamp: timestamp@,
                build_number: *build_number,
            },
        }
    }
}

impl View for MavenClassifier {
    type V = Option<Seq<char>>;

    open spec fn view(&self) -> Option<Seq<char>> {
        match self {
            MavenClassifier::Unclassified => None,
            MavenClassifier::Classified(s) => Some(s@),
        }
    }
}

impl View for MavenArtifactRef {
    type V = ArtifactRefModel;

    open spec fn view(&self) -> ArtifactRefModel {
        ArtifactRefModel {
            group_id: self.coordinates.group_id.0@,
            artifact_id: self.coordinates.artifact_id.0@,
            version: self.coordinates.version@,
            classifier: self.classifier@,
            extension: self.file_extension@,
        }
    }
}

impl MavenVersion {
    /// A copy with the same value.
    pub fn duplicate(&self) -> (r: MavenVersion)
        ensures
            r@ == self@,
    {
        match self {
            MavenVersion::Release(s) => MavenVersion::Release(s.clone()),
            MavenVersion::Snapshot { version, timestamp, build_number } => MavenVersion::Snapshot {
                version: version.clone(),
                timestamp: timestamp.clone(),
                build_number: *build_number,
            },
        }
    }

    /// Whether this is a release version.
    pub fn is_release(&self) -> (r: bool)
        ensures
            r == (self@ is Release),
    {
        match self {
            MavenVersion::Release(_) => true,
            MavenVersion::Snapshot { .. } => false,
        }
    }

    /// Whether two versions have the same value.
    pub fn same_as(&self, other: &MavenVersion) -> (r: bool)
        ensures
            r == (self@ == other@),
    {
        match (self, other) {
            (MavenVersion::Release(a), MavenVersion::Release(b)) => *a == *b,
            (
                MavenVersion::Snapshot { version: v1, timestamp: t1, build_number: b1 },
                MavenVersion::Snapshot { version: v2, timestamp: t2, build_number: b2 },
            ) => {
                let same_build = match (b1, b2) {
                    (None, None) => true,
                    (Some(x), Some(y)) => *x == *y,
                    _ => false,
                };
                *v1 == *v2 && *t1 == *t2 && same_build
            },
            _ => false,
        }
    }
}

impl MavenArtifactRef {
    /// A copy with the same value.
    pub fn duplicate(&self) -> (r: MavenArtifactRef)
        ensures
            r@ == self@,
    {
        MavenArtifactRef {
            coordinates: MavenCoordinates {
                group_id: MavenGroupId(self.coordinates.group_id.0.clone()),
                artifact_id: MavenArtifactId(self.coordinates.artifact_id.0.clone()),
                version: self.coordinates.version.duplicate(),
            },
            classifier: match &self.classifier {
                MavenClassifier::Unclassified => MavenClassifier::Unclassified,
                MavenClassifier::Classified(s) => MavenClassifier::Classified(s.clone()),
            },
            file_extension: self.file_extension.clone(),
        }
    }

    /// Whether two references have the same value.
    pub fn same_as(&self, other: &MavenArtifactRef) -> (r: bool)
        ensures
            r == (self@ == other@),
    {
        let same_classifier = match (&self.classifier, &other.classifier) {
            (MavenClassifier::Unclassified, MavenClassifier::Unclassified) => true,
            (MavenClassifier::Classified(a), MavenClassifier::Classified(b)) => *a == *b,
            _ => false,
        };
        self.coordinates.group_id.0 == other.coordinates.group_id.0
            && self.coordinates.artifact_id.0 == other.coordinates.artifact_id.0
            && self.coordinates.version.same_as(&other.coordinates.version) && same_classifier
            && self.file_extension == other.file_extension
    }
}

} // verus!
