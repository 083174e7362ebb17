//! The metadata store (which artifacts are held, which failed recently, which
//! plugins a group has) and the coordinator that decides, for each request,
//! between the local store, a download and a fast failure.
use vstd::prelude::*;

use crate::blob::blob_storage::BlobKey;
use crate::maven::coordinates::{
    ArtifactRefModel, MavenArtifactId, MavenArtifactRef, MavenGroupId, MavenVersion, VersionModel,
};
use crate::maven::paths::{as_maven_path, path_of};
use crate::util::change_kind::ChangeKind;
use crate::util::validating_http_downloader::{checked_base_uri, normalized_uri, uri_accepts, DownloadError};
use crate::util::text::{lemma_text_le_total, lemma_text_le_transitive, text_le, text_le_exec};

verus! {

/// The default time, in seconds, after a failed download before the next try.
pub const DEFAULT_RETRY_WINDOW_SECS: u64 = 300;

/// What to do for a requested artifact.
#[derive(Debug, Clone, Copy, PartialEq, Eq, Structural)]
pub enum GetArtifactDecision {
    /// it is held under this key
    Local(BlobKey),
    /// fetch it from upstream
    Download,
    /// it failed recently: fail without touching the network
    Fail,
}

/// The last entry for `r` in an association list.
pub open spec fn lookup<V>(s: Seq<(ArtifactRefModel, V)>, r: ArtifactRefModel) -> Option<V>
    decreases s.len(),
{
    if s.len() == 0 {
        None
    } else if s.last().0 == r {
        Some(s.last().1)
    } else {
        lookup(s.drop_last(), r)
    }
}

proof fn lemma_lookup_none<V>(s: Seq<(ArtifactRefModel, V)>, r: ArtifactRefModel)
    requires
        forall|j: int| 0 <= j < s.len() ==> s[j].0 != r,
    ensures
        lookup(s, r) is None,
    decreases s.len(),
{
    if s.len() > 0 {
        lemma_lookup_none(s.drop_last(), r);
    }
}

proof fn lemma_lookup_at<V>(s: Seq<(ArtifactRefModel, V)>, r: ArtifactRefModel, i: int)
    requires
        0 <= i < s.len(),
        s[i].0 == r,
        forall|j: int| i < j < s.len() ==> s[j].0 != r,
    ensures
        lookup(s, r) == Some(s[i].1),
    decreases s.len(),
{
    if i < s.len() - 1 {
        lemma_lookup_at(s.drop_last(), r, i);
    }
}

proof fn lemma_lookup_update<V>(
    s: Seq<(ArtifactRefModel, V)>,
    i: int,
    e: (ArtifactRefModel, V),
    q: ArtifactRefModel,
)
    requires
        0 <= i < s.len(),
        s[i].0 == e.0,
        q != e.0,
    ensures
        lookup(s.update(i, e), q) == lookup(s, q),
    decreases s.len(),
{
    if s.len() > 0 && i < s.len() - 1 {
        assert(s.update(i, e).drop_last() =~= s.drop_last().update(i, e));
        lemma_lookup_update(s.drop_last(), i, e, q);
    } else {
        assert(s.update(i, e).drop_last() =~= s.drop_last());
    }
}

proof fn lemma_lookup_push<V>(s: Seq<(ArtifactRefModel, V)>, e: (ArtifactRefModel, V), q: ArtifactRefModel)
    ensures
        lookup(s.push(e), q) == if q == e.0 {
            Some(e.1)
        } else {
            lookup(s, q)
        },
{
    assert(s.push(e).drop_last() =~= s);
}

/// The position of the last entry for `r`.
fn position<V>(entries: &Vec<(MavenArtifactRef, V)>, r: &MavenArtifactRef) -> (res: Option<usize>)
    ensures
        match res {
            Some(i) => i < entries@.len() && entries@[i as int].0@ == r@ && forall|j: int|
                i < j < entries@.len() ==> entries@[j].0@ != r@,
            None => forall|j: int| 0 <= j < entries@.len() ==> entries@[j].0@ != r@,
        },
{
    let mut i: usize = entries.len();
    while i > 0
        invariant
            i <= entries@.len(),
            forall|j: int| i <= j < entries@.len() ==> entries@[j].0@ != r@,
        decreases i,
    {
        if entries[i - 1].0.same_as(r) {
            return Some(i - 1);
        }
        i = i - 1;
    }
    None
}

/// Display name, invocation prefix and artifact id of a plugin.
#[derive(Clone, Eq, PartialEq, Debug)]
pub struct MavenPluginMetadata {
    /// display name for the plugin
    pub name: String,
    /// the plugin invocation prefix (`eclipse` for `eclipse:...`)
    pub prefix: String,
    pub artifact_id: MavenArtifactId,
}

impl MavenPluginMetadata {
    pub open spec fn model(&self) -> (Seq<char>, Seq<char>, Seq<char>) {
        (self.name@, self.prefix@, self.artifact_id.0@)
    }

    pub fn duplicate(&self) -> (r: MavenPluginMetadata)
        ensures
            r.model() == self.model(),
    {
        MavenPluginMetadata {
            name: self.name.clone(),
            prefix: self.prefix.clone(),
            artifact_id: MavenArtifactId(self.artifact_id.0.clone()),
        }
    }
}

/// The plugins of a group.
#[derive(Clone, Eq, PartialEq, Debug)]
pub struct MavenGroupMetadata {
    pub plugins: Vec<MavenPluginMetadata>,
}

/// What the repository says of an artifact across its versions.
#[derive(Clone, Eq, PartialEq, Debug)]
pub struct MavenArtifactMetadata {
    /// the last version added, release or snapshot
    pub latest_version: MavenVersion,
    /// the last release version added
    pub release_version: MavenVersion,
    /// all versions, in the order they were added
    pub versions: Vec<MavenVersion>,
    /// when the metadata was last updated (UTC, `yyyyMMddHHmmss`)
    pub last_updated: String,
}

/// An in-memory metadata store.
pub struct DummyRemoteRepoMetadataStore {
    local_artifacts: Vec<(MavenArtifactRef, BlobKey)>,
    /// the time of the last failed download; `None` once it was evicted
    failed_downloads: Vec<(MavenArtifactRef, Option<u64>)>,
    /// (group id, plugin), at most one per group and artifact id
    plugins: Vec<(String, MavenPluginMetadata)>,
    /// (group id, artifact id, versions with their timestamps)
    artifact_versions: Vec<(String, String, Vec<(MavenVersion, String)>)>,
}

impl DummyRemoteRepoMetadataStore {
    /// The local-artifacts index.
    pub closed spec fn local_entries(&self) -> Seq<(ArtifactRefModel, BlobKey)> {
        self.local_artifacts@.map_values(|e: (MavenArtifactRef, BlobKey)| (e.0@, e.1))
    }

    /// The failed-downloads index.
    pub closed spec fn failure_entries(&self) -> Seq<(ArtifactRefModel, Option<u64>)> {
        self.failed_downloads@.map_values(|e: (MavenArtifactRef, Option<u64>)| (e.0@, e.1))
    }

    /// The key under which `r` is held, if it is.
    pub open spec fn local_key(&self, r: ArtifactRefModel) -> Option<BlobKey> {
        lookup(self.local_entries(), r)
    }

    /// The time of the last failed download of `r` that was not evicted.
    pub open spec fn failure_time(&self, r: ArtifactRefModel) -> Option<u64> {
        match lookup(self.failure_entries(), r) {
            Some(Some(t)) => Some(t),
            _ => None,
        }
    }

    /// Local if held; else, after a failure, a download once more than
    /// `retry_window_secs` have passed since it, and a fast failure before; else
    /// a download.
    pub open spec fn decision(&self, r: ArtifactRefModel, now_secs: u64, retry_window_secs: u64) -> GetArtifactDecision {
        match self.local_key(r) {
            Some(k) => GetArtifactDecision::Local(k),
            None => match self.failure_time(r) {
                None => GetArtifactDecision::Download,
                Some(t) => if now_secs > t && now_secs - t > retry_window_secs {
                    GetArtifactDecision::Download
                } else {
                    GetArtifactDecision::Fail
                },
            },
        }
    }

    /// The version lists, as (group id, artifact id, versions with timestamps).
    pub closed spec fn version_entries(&self) -> Seq<(Seq<char>, Seq<char>, Seq<(VersionModel, Seq<char>)>)> {
        self.artifact_versions@.map_values(
            |e: (String, String, Vec<(MavenVersion, String)>)| (e.0@, e.1@, versions_model(e.2@)),
        )
    }

    /// The registered plugins, as (group id, (name, prefix, artifact id)).
    pub closed spec fn plugin_entries(&self) -> Seq<(Seq<char>, (Seq<char>, Seq<char>, Seq<char>))> {
        self.plugins@.map_values(|e: (String, MavenPluginMetadata)| (e.0@, e.1.model()))
    }

    /// Every artifact is in at most one of the two indexes, and every group and
    /// artifact id has at most one plugin.
    pub open spec fn wf(&self) -> bool {
        &&& forall|r: ArtifactRefModel| !(self.local_key(r) is Some && self.failure_time(r) is Some)
        &&& forall|i: int, j: int|
            0 <= i < j < self.plugin_entries().len() ==> !(self.plugin_entries()[i].0
                == self.plugin_entries()[j].0 && self.plugin_entries()[i].1.2
                == self.plugin_entries()[j].1.2)
    }

    pub fn new() -> (r: DummyRemoteRepoMetadataStore)
        ensures
            r.wf(),
            forall|q: ArtifactRefModel| r.local_key(q) is None && r.failure_time(q) is None,
            r.plugin_entries().len() == 0,
    {
        let r = DummyRemoteRepoMetadataStore {
            local_artifacts: Vec::new(),
            failed_downloads: Vec::new(),
            plugins: Vec::new(),
            artifact_versions: Vec::new(),
        };
        assert(r.local_entries() =~= Seq::empty());
        assert(r.failure_entries() =~= Seq::empty());
        assert(r.plugin_entries() =~= Seq::empty());
        r
    }

    /// Local if held; else, after a failure, a download once more than
    /// `retry_window_secs` have passed since it (the failure is then evicted)
    /// and a fast failure before; else a download.
    pub fn decide_get_artifact(
        &mut self,
        artifact_ref: &MavenArtifactRef,
        now_secs: u64,
        retry_window_secs: u64,
    ) -> (r: GetArtifactDecision)
        requires
            old(self).wf(),
        ensures
            final(self).wf(),
            r == old(self).decision(artifact_ref@, now_secs, retry_window_secs),
            forall|q: ArtifactRefModel| #[trigger] final(self).local_key(q) == old(self).local_key(q),
            forall|q: ArtifactRefModel|
                q != artifact_ref@ ==> #[trigger] final(self).failure_time(q) == old(self).failure_time(q),
            r == GetArtifactDecision::Download ==> final(self).failure_time(artifact_ref@) is None,
            r != GetArtifactDecision::Download ==> final(self).failure_time(artifact_ref@) == old(
                self,
            ).failure_time(artifact_ref@),
            final(self).plugin_entries() == old(self).plugin_entries(),
    {
        proof {
            assert(forall|i: int| 0 <= i < self.local_artifacts@.len() ==> #[trigger] self.local_entries()[i].0 == self.local_artifacts@[i].0@);
            assert(forall|i: int| 0 <= i < self.failed_downloads@.len() ==> #[trigger] self.failure_entries()[i] == (self.failed_downloads@[i].0@, self.failed_downloads@[i].1));
        }
        match position(&self.local_artifacts, artifact_ref) {
            Some(i) => {
                proof {
                    lemma_lookup_at(self.local_entries(), artifact_ref@, i as int);
                }
                return GetArtifactDecision::Local(self.local_artifacts[i].1);
            },
            None => {
                proof {
                    lemma_lookup_none(self.local_entries(), artifact_ref@);
                }
            },
        }
        match position(&self.failed_downloads, artifact_ref) {
            None => {
                proof {
                    lemma_lookup_none(self.failure_entries(), artifact_ref@);
                }
                GetArtifactDecision::Download
            },
            Some(i) => {
                proof {
                    lemma_lookup_at(self.failure_entries(), artifact_ref@, i as int);
                }
                match self.failed_downloads[i].1 {
                    None => GetArtifactDecision::Download,
                    Some(t) => {
                        if now_secs > t && now_secs - t > retry_window_secs {
                            let ghost before = self.failure_entries();
                            let entry = (artifact_ref.duplicate(), None);
                            self.failed_downloads.set(i, entry);
                            proof {
                                assert(self.failure_entries() =~= before.update(i as int, (artifact_ref@, None)));
                                assert forall|q: ArtifactRefModel| q != artifact_ref@ implies #[trigger] self.failure_time(q) == old(self).failure_time(q) by {
                                    lemma_lookup_update(before, i as int, (artifact_ref@, None), q);
                                }
                                lemma_lookup_at(self.failure_entries(), artifact_ref@, i as int);
                                assert(self.local_entries() == old(self).local_entries());
                                assert(self.plugin_entries() == old(self).plugin_entries());
                                assert forall|q: ArtifactRefModel| !(self.local_key(q) is Some && self.failure_time(q) is Some) by {
                                    if q != artifact_ref@ {
                                        assert(old(self).wf());
                                        assert(!(old(self).local_key(q) is Some && old(self).failure_time(q) is Some));
                                    }
                                }
                            }
                            GetArtifactDecision::Download
                        } else {
                            GetArtifactDecision::Fail
                        }
                    },
                }
            },
        }
    }

    /// Binds `artifact_ref` to `blob_key`, replacing an earlier key, and drops
    /// any failure recorded for it.
    pub fn register_artifact(&mut self, artifact_ref: &MavenArtifactRef, blob_key: BlobKey)
        requires
            old(self).wf(),
        ensures
            final(self).wf(),
            final(self).local_key(artifact_ref@) == Some(blob_key),
            final(self).failure_time(artifact_ref@) is None,
            forall|q: ArtifactRefModel|
                q != artifact_ref@ ==> #[trigger] final(self).local_key(q) == old(self).local_key(q)
                    && final(self).failure_time(q) == old(self).failure_time(q),
            final(self).plugin_entries() == old(self).plugin_entries(),
    {
        let ghost before = self.local_entries();
        let ghost failures_before = self.failure_entries();
        proof {
            assert(forall|i: int| 0 <= i < self.local_artifacts@.len() ==> #[trigger] self.local_entries()[i].0 == self.local_artifacts@[i].0@);
            assert(forall|i: int| 0 <= i < self.failed_downloads@.len() ==> #[trigger] self.failure_entries()[i] == (self.failed_downloads@[i].0@, self.failed_downloads@[i].1));
        }
        match position(&self.local_artifacts, artifact_ref) {
            Some(i) => {
                self.local_artifacts.set(i, (artifact_ref.duplicate(), blob_key));
                proof {
                    assert(self.local_entries() =~= before.update(i as int, (artifact_ref@, blob_key)));
                    assert forall|q: ArtifactRefModel| q != artifact_ref@ implies #[trigger] self.local_key(q) == old(self).local_key(q) by {
                        lemma_lookup_update(before, i as int, (artifact_ref@, blob_key), q);
                    }
                    lemma_lookup_at(self.local_entries(), artifact_ref@, i as int);
                }
            },
            None => {
                self.local_artifacts.push((artifact_ref.duplicate(), blob_key));
                proof {
                    assert(self.local_entries() =~= before.push((artifact_ref@, blob_key)));
                    assert forall|q: ArtifactRefModel| q != artifact_ref@ implies #[trigger] self.local_key(q) == old(self).local_key(q) by {
                        lemma_lookup_push(before, (artifact_ref@, blob_key), q);
                    }
                    lemma_lookup_push(before, (artifact_ref@, blob_key), artifact_ref@);
                }
            },
        }
        let ghost local_after = self.local_entries();
        assert forall|q: ArtifactRefModel| q != artifact_ref@ implies #[trigger] lookup(local_after, q) == old(self).local_key(q) by {
            assert(self.local_key(q) == old(self).local_key(q));
        }
        assert(lookup(local_after, artifact_ref@) == Some(blob_key));
        match position(&self.failed_downloads, artifact_ref) {
            Some(i) => {
                self.failed_downloads.set(i, (artifact_ref.duplicate(), None));
                proof {
                    assert(self.failure_entries() =~= failures_before.update(i as int, (artifact_ref@, None)));
                    assert forall|q: ArtifactRefModel| q != artifact_ref@ implies #[trigger] self.failure_time(q) == old(self).failure_time(q) by {
                        lemma_lookup_update(failures_before, i as int, (artifact_ref@, None), q);
                    }
                    lemma_lookup_at(self.failure_entries(), artifact_ref@, i as int);
                }
            },
            None => {
                proof {
                    lemma_lookup_none(self.failure_entries(), artifact_ref@);
                }
            },
        }
        proof {
            assert(self.local_entries() == local_after);
            assert(self.plugin_entries() == old(self).plugin_entries());
            assert forall|q: ArtifactRefModel| !(self.local_key(q) is Some && self.failure_time(q) is Some) by {
                if q != artifact_ref@ {
                    assert(lookup(local_after, q) == old(self).local_key(q));
                    assert(!(old(self).local_key(q) is Some && old(self).failure_time(q) is Some));
                }
            }
            assert forall|q: ArtifactRefModel| q != artifact_ref@ implies #[trigger] self.local_key(q) == old(self).local_key(q)
                && self.failure_time(q) == old(self).failure_time(q) by {
                assert(lookup(local_after, q) == old(self).local_key(q));
            }
        }
    }

    /// Records a failed download of `artifact_ref` at `now_secs`; an artifact that
    /// is held locally keeps no failure record, so the two indexes stay apart.
    pub fn register_failed_download(&mut self, artifact_ref: &MavenArtifactRef, now_secs: u64)
        requires
            old(self).wf(),
        ensures
            final(self).wf(),
            final(self).failure_time(artifact_ref@) == if old(self).local_key(artifact_ref@) is Some {
                old(self).failure_time(artifact_ref@)
            } else {
                Some(now_secs)
            },
            forall|q: ArtifactRefModel| #[trigger] final(self).local_key(q) == old(self).local_key(q),
            forall|q: ArtifactRefModel|
                q != artifact_ref@ ==> #[trigger] final(self).failure_time(q) == old(self).failure_time(q),
            final(self).plugin_entries() == old(self).plugin_entries(),
    {
        let ghost before = self.failure_entries();
        proof {
            assert(forall|i: int| 0 <= i < self.local_artifacts@.len() ==> #[trigger] self.local_entries()[i].0 == self.local_artifacts@[i].0@);
            assert(forall|i: int| 0 <= i < self.failed_downloads@.len() ==> #[trigger] self.failure_entries()[i] == (self.failed_downloads@[i].0@, self.failed_downloads@[i].1));
        }
        match position(&self.local_artifacts, artifact_ref) {
            Some(i) => {
                proof {
                    lemma_lookup_at(self.local_entries(), artifact_ref@, i as int);
                }
                return;
            },
            None => {
                proof {
                    lemma_lookup_none(self.local_entries(), artifact_ref@);
                }
            },
        }
        match position(&self.failed_downloads, artifact_ref) {
            Some(i) => {
                self.failed_downloads.set(i, (artifact_ref.duplicate(), Some(now_secs)));
                proof {
                    assert(self.failure_entries() =~= before.update(i as int, (artifact_ref@, Some(now_secs))));
                    assert forall|q: ArtifactRefModel| q != artifact_ref@ implies #[trigger] self.failure_time(q) == old(self).failure_time(q) by {
                        lemma_lookup_update(before, i as int, (artifact_ref@, Some(now_secs)), q);
                    }
                    lemma_lookup_at(self.failure_entries(), artifact_ref@, i as int);
                }
            },
            None => {
                self.failed_downloads.push((artifact_ref.duplicate(), Some(now_secs)));
                proof {
                    assert(self.failure_entries() =~= before.push((artifact_ref@, Some(now_secs))));
                    assert forall|q: ArtifactRefModel| q != artifact_ref@ implies #[trigger] self.failure_time(q) == old(self).failure_time(q) by {
                        lemma_lookup_push(before, (artifact_ref@, Some(now_secs)), q);
                    }
                    lemma_lookup_push(before, (artifact_ref@, Some(now_secs)), artifact_ref@);
                }
            },
        }
        proof {
            assert(self.local_entries() == old(self).local_entries());
            assert(self.plugin_entries() == old(self).plugin_entries());
            assert forall|q: ArtifactRefModel| !(self.local_key(q) is Some && self.failure_time(q) is Some) by {
                if q != artifact_ref@ {
                    assert(!(old(self).local_key(q) is Some && old(self).failure_time(q) is Some));
                }
            }
        }
    }

    fn plugin_position(&self, group_id: &String, artifact_id: &String) -> (r: Option<usize>)
        ensures
            match r {
                Some(i) => i < self.plugin_entries().len() && self.plugin_entries()[i as int].0
                    == group_id@ && self.plugin_entries()[i as int].1.2 == artifact_id@,
                None => forall|j: int|
                    0 <= j < self.plugin_entries().len() ==> !(self.plugin_entries()[j].0
                        == group_id@ && self.plugin_entries()[j].1.2 == artifact_id@),
            },
    {
        let mut i: usize = 0;
        while i < self.plugins.len()
            invariant
                i <= self.plugins@.len(),
                self.plugin_entries().len() == self.plugins@.len(),
                forall|j: int|
                    0 <= j < i ==> !(self.plugin_entries()[j].0 == group_id@
                        && self.plugin_entries()[j].1.2 == artifact_id@),
            decreases self.plugins@.len() - i,
        {
            let (g, p) = (&self.plugins[i].0, &self.plugins[i].1);
            assert(self.plugin_entries()[i as int] == (g@, p.model()));
            if *g == *group_id && p.artifact_id.0 == *artifact_id {
                return Some(i);
            }
            i = i + 1;
        }
        None
    }

    /// Registers a plugin of a group, replacing the one with the same artifact
    /// id, if any; says which of the two happened.
    pub fn register_plugin(&mut self, group_id: MavenGroupId, plugin_metadata: MavenPluginMetadata) -> (r: ChangeKind)
        requires
            old(self).wf(),
        ensures
            final(self).wf(),
            forall|q: ArtifactRefModel| #[trigger] final(self).local_key(q) == old(self).local_key(q)
                && final(self).failure_time(q) == old(self).failure_time(q),
            ({
                let e = (group_id.0@, plugin_metadata.model());
                let old_entries = old(self).plugin_entries();
                match r {
                    ChangeKind::Updated => exists|i: int|
                        0 <= i < old_entries.len() && old_entries[i].0 == e.0 && old_entries[i].1.2
                            == e.1.2 && final(self).plugin_entries() == old_entries.update(i, e),
                    ChangeKind::Inserted => (forall|j: int|
                        0 <= j < old_entries.len() ==> !(old_entries[j].0 == e.0
                            && old_entries[j].1.2 == e.1.2)) && final(self).plugin_entries()
                        == old_entries.push(e),
                }
            }),
    {
        let ghost e = (group_id.0@, plugin_metadata.model());
        let ghost before = self.plugin_entries();
        proof {
            assert(self.plugin_entries().len() == self.plugins@.len());
        }
        match self.plugin_position(&group_id.0, &plugin_metadata.artifact_id.0) {
            Some(i) => {
                self.plugins.set(i, (group_id.0, plugin_metadata));
                proof {
                    assert(self.plugin_entries() =~= before.update(i as int, e));
                    assert(self.local_entries() == old(self).local_entries());
                    assert(self.failure_entries() == old(self).failure_entries());
                    assert forall|q: ArtifactRefModel| !(self.local_key(q) is Some && self.failure_time(q) is Some) by {
                        assert(!(old(self).local_key(q) is Some && old(self).failure_time(q) is Some));
                    }
                    assert forall|a: int, b: int| 0 <= a < b < self.plugin_entries().len() implies !(self.plugin_entries()[a].0
                        == self.plugin_entries()[b].0 && self.plugin_entries()[a].1.2 == self.plugin_entries()[b].1.2) by {
                        if a != i && b != i {
                            assert(self.plugin_entries()[a] == before[a]);
                            assert(self.plugin_entries()[b] == before[b]);
                        }
                    }
                }
                ChangeKind::Updated
            },
            None => {
                self.plugins.push((group_id.0, plugin_metadata));
                proof {
                    assert(self.plugin_entries() =~= before.push(e));
                    assert(self.local_entries() == old(self).local_entries());
                    assert(self.failure_entries() == old(self).failure_entries());
                    assert forall|q: ArtifactRefModel| !(self.local_key(q) is Some && self.failure_time(q) is Some) by {
                        assert(!(old(self).local_key(q) is Some && old(self).failure_time(q) is Some));
                    }
                    assert forall|a: int, b: int| 0 <= a < b < self.plugin_entries().len() implies !(self.plugin_entries()[a].0
                        == self.plugin_entries()[b].0 && self.plugin_entries()[a].1.2 == self.plugin_entries()[b].1.2) by {
                        assert(self.plugin_entries()[a] == before[a]);
                        if b < before.len() {
                            assert(self.plugin_entries()[b] == before[b]);
                        }
                    }
                }
                ChangeKind::Inserted
            },
        }
    }

    /// Removes the plugin with this group and artifact id; true iff there was one.
    pub fn unregister_plugin(&mut self, group_id: &MavenGroupId, artifact_id: &MavenArtifactId) -> (r: bool)
        requires
            old(self).wf(),
        ensures
            final(self).wf(),
            forall|q: ArtifactRefModel| #[trigger] final(self).local_key(q) == old(self).local_key(q)
                && final(self).failure_time(q) == old(self).failure_time(q),
            r == exists|i: int|
                0 <= i < old(self).plugin_entries().len() && old(self).plugin_entries()[i].0
                    == group_id.0@ && old(self).plugin_entries()[i].1.2 == artifact_id.0@,
            r ==> exists|i: int|
                0 <= i < old(self).plugin_entries().len() && final(self).plugin_entries() == old(
                    self,
                ).plugin_entries().remove(i),
            !r ==> final(self).plugin_entries() == old(self).plugin_entries(),
            forall|j: int|
                0 <= j < final(self).plugin_entries().len() ==> !(final(self).plugin_entries()[j].0
                    == group_id.0@ && final(self).plugin_entries()[j].1.2 == artifact_id.0@),
    {
        let ghost before = self.plugin_entries();
        match self.plugin_position(&group_id.0, &artifact_id.0) {
            Some(i) => {
                self.plugins.remove(i);
                proof {
                    assert(self.plugin_entries() =~= before.remove(i as int));
                    assert(self.local_entries() == old(self).local_entries());
                    assert(self.failure_entries() == old(self).failure_entries());
                    assert forall|q: ArtifactRefModel| !(self.local_key(q) is Some && self.failure_time(q) is Some) by {
                        assert(!(old(self).local_key(q) is Some && old(self).failure_time(q) is Some));
                    }
                    assert forall|a: int, b: int| 0 <= a < b < self.plugin_entries().len() implies !(self.plugin_entries()[a].0
                        == self.plugin_entries()[b].0 && self.plugin_entries()[a].1.2 == self.plugin_entries()[b].1.2) by {
                        let a0 = if a < i { a } else { a + 1 };
                        let b0 = if b < i { b } else { b + 1 };
                        assert(self.plugin_entries()[a] == before[a0]);
                        assert(self.plugin_entries()[b] == before[b0]);
                    }
                    assert forall|j: int| 0 <= j < self.plugin_entries().len() implies !(self.plugin_entries()[j].0
                        == group_id.0@ && self.plugin_entries()[j].1.2 == artifact_id.0@) by {
                        let j0 = if j < i { j } else { j + 1 };
                        assert(self.plugin_entries()[j] == before[j0]);
                        if j0 < i {
                            assert(!(before[j0].0 == before[i as int].0 && before[j0].1.2 == before[i as int].1.2));
                        } else {
                            assert(!(before[i as int].0 == before[j0].0 && before[i as int].1.2 == before[j0].1.2));
                        }
                    }
                }
                true
            },
            None => false,
        }
    }

    /// Whether some artifact is bound to `key` (the reference oracle of the
    /// orphan sweep).
    pub fn is_referenced(&self, key: BlobKey) -> (r: bool)
        ensures
            r == exists|i: int| 0 <= i < self.local_entries().len() && #[trigger] self.local_entries()[i].1 == key,
    {
        let mut i: usize = 0;
        while i < self.local_artifacts.len()
            invariant
                i <= self.local_artifacts@.len(),
                self.local_entries().len() == self.local_artifacts@.len(),
                forall|j: int| 0 <= j < i ==> #[trigger] self.local_entries()[j].1 != key,
            decreases self.local_artifacts@.len() - i,
        {
            assert(self.local_entries()[i as int].1 == self.local_artifacts@[i as int].1);
            if self.local_artifacts[i].1 == key {
                return true;
            }
            i = i + 1;
        }
        false
    }

    /// What the version list of an artifact says; none if there is no list, or
    /// it holds no release.
    pub fn get_artifact_metadata(&self, group_id: &MavenGroupId, artifact_id: &MavenArtifactId) -> (r: Option<MavenArtifactMetadata>)
        ensures
            match first_version_list(self.version_entries(), group_id.0@, artifact_id.0@) {
                None => r is None,
                Some(vs) => (r is None <==> !has_release(vs)) && (r is Some ==> describes(r->0, vs)),
            },
    {
        let ghost entries = self.version_entries();
        let mut i: usize = 0;
        assert(entries.subrange(0, entries.len() as int) =~= entries);
        while i < self.artifact_versions.len()
            invariant
                i <= self.artifact_versions@.len(),
                entries == self.version_entries(),
                entries.len() == self.artifact_versions@.len(),
                first_version_list(entries, group_id.0@, artifact_id.0@) == first_version_list(
                    entries.subrange(i as int, entries.len() as int),
                    group_id.0@,
                    artifact_id.0@,
                ),
            decreases self.artifact_versions@.len() - i,
        {
            let e = &self.artifact_versions[i];
            let ghost rest = entries.subrange(i as int, entries.len() as int);
            assert(rest[0] == entries[i as int]);
            assert(rest.drop_first() =~= entries.subrange(i + 1, entries.len() as int));
            assert(entries[i as int] == (e.0@, e.1@, versions_model(e.2@)));
            if e.0 == group_id.0 && e.1 == artifact_id.0 {
                return artifact_metadata_of(&e.2);
            }
            i = i + 1;
        }
        assert(entries.subrange(i as int, entries.len() as int) =~= Seq::empty());
        None
    }

    /// The plugins of a group, in the order they were first registered.
    pub fn get_plugins(&self, group_id: &MavenGroupId) -> (r: Vec<MavenPluginMetadata>)
        ensures
            r@.map_values(|p: MavenPluginMetadata| p.model()) == plugins_of_group(
                self.plugin_entries(),
                group_id.0@,
            ),
    {
        let ghost entries = self.plugin_entries();
        let mut r: Vec<MavenPluginMetadata> = Vec::new();
        let mut i: usize = 0;
        assert(r@.map_values(|p: MavenPluginMetadata| p.model()) =~= Seq::empty());
        assert(entries.subrange(0, 0) =~= Seq::empty());
        while i < self.plugins.len()
            invariant
                i <= self.plugins@.len(),
                entries == self.plugin_entries(),
                entries.len() == self.plugins@.len(),
                r@.map_values(|p: MavenPluginMetadata| p.model()) == plugins_of_group(
                    entries.subrange(0, i as int),
                    group_id.0@,
                ),
            decreases self.plugins@.len() - i,
        {
            let ghost prev = entries.subrange(0, i as int);
            assert(entries.subrange(0, i + 1) =~= prev.push(entries[i as int]));
            assert(prev.push(entries[i as int]).drop_last() =~= prev);
            let (g, p) = (&self.plugins[i].0, &self.plugins[i].1);
            assert(entries[i as int] == (g@, p.model()));
            if *g == group_id.0 {
                let ghost r_before = r@;
                let d = p.duplicate();
                r.push(d);
                assert(r@.map_values(|p: MavenPluginMetadata| p.model()) =~= r_before.map_values(
                    |p: MavenPluginMetadata| p.model(),
                ).push(p.model()));
            }
            i = i + 1;
        }
        assert(entries.subrange(0, entries.len() as int) =~= entries);
        r
    }
}

/// The version list of the first entry for group `g` and artifact `a`.
pub open spec fn first_version_list(
    entries: Seq<(Seq<char>, Seq<char>, Seq<(VersionModel, Seq<char>)>)>,
    g: Seq<char>,
    a: Seq<char>,
) -> Option<Seq<(VersionModel, Seq<char>)>>
    decreases entries.len(),
{
    if entries.len() == 0 {
        None
    } else if entries[0].0 == g && entries[0].1 == a {
        Some(entries[0].2)
    } else {
        first_version_list(entries.drop_first(), g, a)
    }
}

/// The plugins of group `g`, in order.
pub open spec fn plugins_of_group(
    entries: Seq<(Seq<char>, (Seq<char>, Seq<char>, Seq<char>))>,
    g: Seq<char>,
) -> Seq<(Seq<char>, Seq<char>, Seq<char>)>
    decreases entries.len(),
{
    if entries.len() == 0 {
        Seq::empty()
    } else if entries.last().0 == g {
        plugins_of_group(entries.drop_last(), g).push(entries.last().1)
    } else {
        plugins_of_group(entries.drop_last(), g)
    }
}

/// What a request for an artifact needs next from the blob store or upstream.
#[derive(Debug, PartialEq, Eq)]
pub enum GetArtifactStep {
    /// read the blob under this key from the blob store
    ReadLocal(BlobKey),
    /// download this URL and insert the body into the blob store
    Download(String),
    /// read the freshly stored blob under this key
    ReadStored(BlobKey),
    /// the request is over: serve the blob under this key, or fail
    Done(Result<BlobKey, GetArtifactError>),
}

/// What the blob store or upstream answered.
#[derive(Debug, Clone, Copy, PartialEq, Eq, Structural)]
pub enum GetArtifactEvent {
    /// a new request
    Start,
    /// the answer to `ReadLocal`
    LocalRead { key: BlobKey, found: bool },
    /// the answer to `Download`: the key under which the validated body was
    /// stored, or none if the download, its validation or the insert failed
    Ingested(Option<BlobKey>),
    /// the answer to `ReadStored`
    StoredRead { key: BlobKey, found: bool },
}

/// Why a request for an artifact failed.
#[derive(Debug, Clone, Copy, PartialEq, Eq, Structural)]
pub enum GetArtifactError {
    /// the metadata names a blob that the store does not hold
    DanglingLocalReference,
    /// the download, its validation or the insert failed
    DownloadFailed,
    /// a blob that was just stored could not be read back
    StoredButNotFound,
    /// a download failed recently: skipped without touching the network
    RecentFailure,
}

/// The cache coordinator: decides for each request between the local blob
/// store, a download and a fast failure, and records what came of it.
pub struct RemoteMavenRepo {
    base_uri: String,
    metadata_store: DummyRemoteRepoMetadataStore,
    retry_window_secs: u64,
}

impl RemoteMavenRepo {
    pub closed spec fn base(&self) -> Seq<char> {
        self.base_uri@
    }

    pub closed spec fn store(&self) -> DummyRemoteRepoMetadataStore {
        self.metadata_store
    }

    pub closed spec fn retry_window(&self) -> u64 {
        self.retry_window_secs
    }

    pub open spec fn wf(&self) -> bool {
        self.store().wf()
    }

    /// A coordinator for the upstream at `base_uri` (a `/` is added at its end
    /// if missing), with the default retry window; an error if that is no URI.
    pub fn new(base_uri: String, metadata_store: DummyRemoteRepoMetadataStore) -> (r: Result<RemoteMavenRepo, DownloadError>)
        requires
            metadata_store.wf(),
        ensures
            match r {
                Ok(repo) => {
                    &&& repo.wf()
                    &&& repo.base() == normalized_uri(base_uri@)
                    &&& uri_accepts(repo.base())
                    &&& repo.store() == metadata_store
                    &&& repo.retry_window() == DEFAULT_RETRY_WINDOW_SECS
                },
                Err(e) => e == DownloadError::InvalidBaseUri && !uri_accepts(normalized_uri(base_uri@)),
            },
    {
        match checked_base_uri(base_uri) {
            Ok(u) => Ok(RemoteMavenRepo { base_uri: u, metadata_store, retry_window_secs: DEFAULT_RETRY_WINDOW_SECS }),
            Err(e) => Err(e),
        }
    }

    /// The same coordinator with another retry window.
    pub fn with_retry_window(self, retry_window_secs: u64) -> (r: RemoteMavenRepo)
        ensures
            r.base() == self.base(),
            r.store() == self.store(),
            r.retry_window() == retry_window_secs,
    {
        RemoteMavenRepo { retry_window_secs, ..self }
    }

    /// The next step of a request for `artifact_ref` at time `now_secs`, given
    /// what the last step brought.
    pub fn get_artifact(&mut self, artifact_ref: &MavenArtifactRef, event: GetArtifactEvent, now_secs: u64) -> (r: GetArtifactStep)
        requires
            old(self).wf(),
        ensures
            final(self).wf(),
            final(self).base() == old(self).base(),
            final(self).retry_window() == old(self).retry_window(),
            final(self).store().plugin_entries() == old(self).store().plugin_entries(),
            match event {
                GetArtifactEvent::Start => {
                    &&& r == match old(self).store().decision(artifact_ref@, now_secs, old(self).retry_window()) {
                        GetArtifactDecision::Local(k) => GetArtifactStep::ReadLocal(k),
                        GetArtifactDecision::Download => GetArtifactStep::Download(r->Download_0),
                        GetArtifactDecision::Fail => GetArtifactStep::Done(Err(GetArtifactError::RecentFailure)),
                    }
                    &&& r is Download ==> r->Download_0@ == old(self).base() + path_of(artifact_ref@)
                    &&& forall|q: ArtifactRefModel| #[trigger] final(self).store().local_key(q) == old(self).store().local_key(q)
                    &&& forall|q: ArtifactRefModel| q != artifact_ref@ ==> #[trigger] final(self).store().failure_time(q) == old(self).store().failure_time(q)
                    &&& final(self).store().failure_time(artifact_ref@) == (if r is Download { None } else { old(self).store().failure_time(artifact_ref@) })
                },
                GetArtifactEvent::LocalRead { key, found } => {
                    &&& r == GetArtifactStep::Done(if found { Ok(key) } else { Err(GetArtifactError::DanglingLocalReference) })
                    &&& final(self).store() == old(self).store()
                },
                GetArtifactEvent::Ingested(Some(key)) => {
                    &&& r == GetArtifactStep::ReadStored(key)
                    &&& final(self).store().local_key(artifact_ref@) == Some(key)
                    &&& final(self).store().failure_time(artifact_ref@) is None
                    &&& forall|q: ArtifactRefModel| q != artifact_ref@ ==> #[trigger] final(self).store().local_key(q) == old(self).store().local_key(q)
                        && final(self).store().failure_time(q) == old(self).store().failure_time(q)
                },
                GetArtifactEvent::Ingested(None) => {
                    &&& r == GetArtifactStep::Done(Err(GetArtifactError::DownloadFailed))
                    &&& final(self).store().failure_time(artifact_ref@) == (if old(self).store().local_key(artifact_ref@) is Some {
                        old(self).store().failure_time(artifact_ref@)
                    } else {
                        Some(now_secs)
                    })
                    &&& forall|q: ArtifactRefModel| #[trigger] final(self).store().local_key(q) == old(self).store().local_key(q)
                    &&& forall|q: ArtifactRefModel| q != artifact_ref@ ==> #[trigger] final(self).store().failure_time(q) == old(self).store().failure_time(q)
                },
                GetArtifactEvent::StoredRead { key, found } => if found {
                    r == GetArtifactStep::Done(Ok(key)) && final(self).store() == old(self).store()
                } else {
                    &&& r == GetArtifactStep::Done(Err(GetArtifactError::StoredButNotFound))
                    &&& final(self).store().failure_time(artifact_ref@) == (if old(self).store().local_key(artifact_ref@) is Some {
                        old(self).store().failure_time(artifact_ref@)
                    } else {
                        Some(now_secs)
                    })
                    &&& forall|q: ArtifactRefModel| #[trigger] final(self).store().local_key(q) == old(self).store().local_key(q)
                    &&& forall|q: ArtifactRefModel| q != artifact_ref@ ==> #[trigger] final(self).store().failure_time(q) == old(self).store().failure_time(q)
                },
            },
    {
        match event {
            GetArtifactEvent::Start => {
                match self.metadata_store.decide_get_artifact(artifact_ref, now_secs, self.retry_window_secs) {
                    GetArtifactDecision::Local(key) => GetArtifactStep::ReadLocal(key),
                    GetArtifactDecision::Download => {
                        let path = as_maven_path(artifact_ref);
                        let url = crate::util::validating_http_downloader::request_url(self.base_uri.as_str(), path.as_str());
                        GetArtifactStep::Download(url)
                    },
                    GetArtifactDecision::Fail => GetArtifactStep::Done(Err(GetArtifactError::RecentFailure)),
                }
            },
            GetArtifactEvent::LocalRead { key, found } => {
                if found {
                    GetArtifactStep::Done(Ok(key))
                } else {
                    GetArtifactStep::Done(Err(GetArtifactError::DanglingLocalReference))
                }
            },
            GetArtifactEvent::Ingested(Some(key)) => {
                self.metadata_store.register_artifact(artifact_ref, key);
                GetArtifactStep::ReadStored(key)
            },
            GetArtifactEvent::Ingested(None) => {
                self.metadata_store.register_failed_download(artifact_ref, now_secs);
                GetArtifactStep::Done(Err(GetArtifactError::DownloadFailed))
            },
            GetArtifactEvent::StoredRead { key, found } => {
                if found {
                    GetArtifactStep::Done(Ok(key))
                } else {
                    self.metadata_store.register_failed_download(artifact_ref, now_secs);
                    GetArtifactStep::Done(Err(GetArtifactError::StoredButNotFound))
                }
            },
        }
    }

    pub fn register_plugin(&mut self, group_id: MavenGroupId, plugin_metadata: MavenPluginMetadata) -> (r: ChangeKind)
        requires
            old(self).wf(),
        ensures
            final(self).wf(),
            final(self).base() == old(self).base(),
            final(self).retry_window() == old(self).retry_window(),
            forall|q: ArtifactRefModel| #[trigger] final(self).store().local_key(q) == old(self).store().local_key(q)
                && final(self).store().failure_time(q) == old(self).store().failure_time(q),
            ({
                let e = (group_id.0@, plugin_metadata.model());
                let old_entries = old(self).store().plugin_entries();
                match r {
                    ChangeKind::Updated => exists|i: int|
                        0 <= i < old_entries.len() && old_entries[i].0 == e.0 && old_entries[i].1.2
                            == e.1.2 && final(self).store().plugin_entries() == old_entries.update(i, e),
                    ChangeKind::Inserted => (forall|j: int|
                        0 <= j < old_entries.len() ==> !(old_entries[j].0 == e.0
                            && old_entries[j].1.2 == e.1.2)) && final(self).store().plugin_entries()
                        == old_entries.push(e),
                }
            }),
    {
        self.metadata_store.register_plugin(group_id, plugin_metadata)
    }

    /// True iff the plugin was registered; afterwards it is not, either way.
    pub fn unregister_plugin(&mut self, group_id: &MavenGroupId, artifact_id: &MavenArtifactId) -> (r: bool)
        requires
            old(self).wf(),
        ensures
            final(self).wf(),
            final(self).base() == old(self).base(),
            final(self).retry_window() == old(self).retry_window(),
            r == exists|i: int|
                0 <= i < old(self).store().plugin_entries().len() && old(self).store().plugin_entries()[i].0
                    == group_id.0@ && old(self).store().plugin_entries()[i].1.2 == artifact_id.0@,
            r ==> exists|i: int|
                0 <= i < old(self).store().plugin_entries().len() && final(self).store().plugin_entries()
                    == old(self).store().plugin_entries().remove(i),
            !r ==> final(self).store().plugin_entries() == old(self).store().plugin_entries(),
            forall|q: ArtifactRefModel| #[trigger] final(self).store().local_key(q) == old(self).store().local_key(q)
                && final(self).store().failure_time(q) == old(self).store().failure_time(q),
            forall|j: int|
                0 <= j < final(self).store().plugin_entries().len() ==> !(final(self).store().plugin_entries()[j].0
                    == group_id.0@ && final(self).store().plugin_entries()[j].1.2 == artifact_id.0@),
    {
        self.metadata_store.unregister_plugin(group_id, artifact_id)
    }

    /// Whether some artifact is bound to `key`.
    pub fn is_referenced(&self, key: BlobKey) -> (r: bool)
        ensures
            r == exists|i: int| 0 <= i < self.store().local_entries().len() && #[trigger] self.store().local_entries()[i].1 == key,
    {
        let r = self.metadata_store.is_referenced(key);
        assert(self.store().local_entries() == self.metadata_store.local_entries());
        r
    }

    /// What the version list of an artifact says.
    pub fn get_artifact_metadata(&self, group_id: &MavenGroupId, artifact_id: &MavenArtifactId) -> (r: Option<MavenArtifactMetadata>)
        ensures
            match first_version_list(self.store().version_entries(), group_id.0@, artifact_id.0@) {
                None => r is None,
                Some(vs) => (r is None <==> !has_release(vs)) && (r is Some ==> describes(r->0, vs)),
            },
    {
        self.metadata_store.get_artifact_metadata(group_id, artifact_id)
    }

    /// The plugins of a group.
    pub fn get_group_metadata(&self, group_id: &MavenGroupId) -> (r: MavenGroupMetadata)
        ensures
            r.plugins@.map_values(|p: MavenPluginMetadata| p.model()) == plugins_of_group(
                self.store().plugin_entries(),
                group_id.0@,
            ),
    {
        MavenGroupMetadata { plugins: self.metadata_store.get_plugins(group_id) }
    }
}

/// The versions of an artifact with their timestamps, as values.
pub open spec fn versions_model(v: Seq<(MavenVersion, String)>) -> Seq<(VersionModel, Seq<char>)> {
    v.map_values(|e: (MavenVersion, String)| (e.0@, e.1@))
}

pub open spec fn counts(v: VersionModel, releases_only: bool) -> bool {
    !releases_only || v is Release
}

/// Entry `i` has the greatest timestamp among the entries that count, and is
/// the last such entry.
pub open spec fn is_last_max(s: Seq<(VersionModel, Seq<char>)>, i: int, releases_only: bool) -> bool {
    &&& 0 <= i < s.len()
    &&& counts(s[i].0, releases_only)
    &&& forall|j: int|
        0 <= j < s.len() && counts(#[trigger] s[j].0, releases_only) ==> text_le(s[j].1, s[i].1)
    &&& forall|j: int|
        i < j < s.len() && counts(#[trigger] s[j].0, releases_only) ==> !text_le(s[i].1, s[j].1)
}

/// Some entry is a release.
pub open spec fn has_release(s: Seq<(VersionModel, Seq<char>)>) -> bool {
    exists|j: int| 0 <= j < s.len() && (#[trigger] s[j].0 is Release)
}

/// `m` is what the versions `s` say: `latest` is the last entry with the
/// greatest timestamp, `release` the same among releases, the versions in
/// order, and the timestamp of `latest`.
pub open spec fn describes(m: MavenArtifactMetadata, s: Seq<(VersionModel, Seq<char>)>) -> bool {
    &&& exists|i: int|
        is_last_max(s, i, false) && m.latest_version@ == s[i].0 && m.last_updated@ == s[i].1
    &&& exists|i: int| is_last_max(s, i, true) && m.release_version@ == s[i].0
    &&& m.versions@.map_values(|v: MavenVersion| v@) == s.map_values(
        |e: (VersionModel, Seq<char>)| e.0,
    )
}

/// The index of the last entry with the greatest timestamp among those that
/// count; none if no entry counts.
fn last_max_index(versions: &Vec<(MavenVersion, String)>, releases_only: bool) -> (r: Option<usize>)
    ensures
        match r {
            Some(i) => is_last_max(versions_model(versions@), i as int, releases_only),
            None => forall|j: int|
                0 <= j < versions@.len() ==> !counts(#[trigger] versions_model(versions@)[j].0, releases_only),
        },
{
    let ghost s = versions_model(versions@);
    let mut best: Option<usize> = None;
    let mut i: usize = 0;
    while i < versions.len()
        invariant
            i <= versions@.len(),
            s == versions_model(versions@),
            s.len() == versions@.len(),
            match best {
                Some(b) => b < i && counts(s[b as int].0, releases_only) && (forall|j: int|
                    0 <= j < i && counts(#[trigger] s[j].0, releases_only) ==> text_le(s[j].1, s[b as int].1))
                    && (forall|j: int|
                    b < j < i && counts(#[trigger] s[j].0, releases_only) ==> !text_le(s[b as int].1, s[j].1)),
                None => forall|j: int| 0 <= j < i ==> !counts(#[trigger] s[j].0, releases_only),
            },
        decreases versions@.len() - i,
    {
        let (v, ts) = (&versions[i].0, &versions[i].1);
        assert(s[i as int] == (v@, ts@));
        let counted = !releases_only || v.is_release();
        if counted {
            match best {
                None => {
                    proof {
                        lemma_text_le_total(s[i as int].1, s[i as int].1);
                    }
                    best = Some(i);
                },
                Some(b) => {
                    let bts = &versions[b].1;
                    assert(s[b as int].1 == bts@);
                    if text_le_exec(bts.as_str(), ts.as_str()) {
                        proof {
                            assert forall|j: int| 0 <= j < i + 1 && counts(#[trigger] s[j].0, releases_only) implies text_le(s[j].1, s[i as int].1) by {
                                if j < i {
                                    lemma_text_le_transitive(s[j].1, s[b as int].1, s[i as int].1);
                                } else {
                                    lemma_text_le_total(s[j].1, s[j].1);
                                }
                            }
                        }
                        best = Some(i);
                    } else {
                        proof {
                            lemma_text_le_total(s[b as int].1, s[i as int].1);
                        }
                    }
                },
            }
        }
        i = i + 1;
    }
    best
}

/// What the versions of an artifact say: `latest` is the last entry with the
/// greatest timestamp, `release` the same among releases, the versions in
/// order, and the timestamp of `latest`; none if there is no release.
pub fn artifact_metadata_of(versions: &Vec<(MavenVersion, String)>) -> (r: Option<MavenArtifactMetadata>)
    ensures
        r is None <==> !has_release(versions_model(versions@)),
        r is Some ==> describes(r->0, versions_model(versions@)),
{
    let ghost s = versions_model(versions@);
    let release = match last_max_index(versions, true) {
        None => {
            assert(!has_release(s)) by {
                assert forall|j: int| 0 <= j < s.len() implies !(#[trigger] s[j].0 is Release) by {
                    assert(!counts(s[j].0, true));
                }
            }
            return None;
        },
        Some(i) => i,
    };
    let latest = match last_max_index(versions, false) {
        None => {
            assert(counts(s[release as int].0, false));
            return None;
        },
        Some(i) => i,
    };
    let mut all: Vec<MavenVersion> = Vec::new();
    let mut i: usize = 0;
    while i < versions.len()
        invariant
            i <= versions@.len(),
            s == versions_model(versions@),
            all@.len() == i,
            forall|j: int| 0 <= j < i ==> (#[trigger] all@[j])@ == s[j].0,
        decreases versions@.len() - i,
    {
        assert(s[i as int].0 == versions@[i as int].0@);
        all.push(versions[i].0.duplicate());
        i = i + 1;
    }
    assert(all@.map_values(|v: MavenVersion| v@) =~= s.map_values(|e: (VersionModel, Seq<char>)| e.0));
    let m = MavenArtifactMetadata {
        latest_version: versions[latest].0.duplicate(),
        release_version: versions[release].0.duplicate(),
        versions: all,
        last_updated: versions[latest].1.clone(),
    };
    assert(s[latest as int] == (versions@[latest as int].0@, versions@[latest as int].1@));
    assert(s[release as int] == (versions@[release as int].0@, versions@[release as int].1@));
    assert(s[release as int].0 is Release);
    assert(is_last_max(s, latest as int, false));
    assert(describes(m, s));
    Some(m)
}

} // verus!
