//! The rules of the file-system blob store: where a key's directory lies, which
//! directories are in flight, and what the orphan sweep does with each
//! directory it meets. The file-system calls themselves are made by the caller.
use vstd::prelude::*;

use crate::blob::blob_storage::BlobKey;
use crate::util::text::{chars_of, ends_with, matches_at, substring};

verus! {

pub open spec fn pow16(n: nat) -> nat
    decreases n,
{
    if n == 0 {
        1
    } else {
        16 * pow16((n - 1) as nat)
    }
}

pub open spec fn lower_hex_digits() -> Seq<char> {
    seq!['0', '1', '2', '3', '4', '5', '6', '7', '8', '9', 'a', 'b', 'c', 'd', 'e', 'f']
}

/// The canonical hyphenated form of a UUID: 32 lowercase hex digits, most
/// significant first, with `-` after the 8th, 12th, 16th and 20th.
pub open spec fn hyphenated(k: u128) -> Seq<char> {
    Seq::new(
        36,
        |i: int|
            if i == 8 || i == 13 || i == 18 || i == 23 {
                '-'
            } else {
                let d = i - (if i > 23 {
                    4int
                } else if i > 18 {
                    3int
                } else if i > 13 {
                    2int
                } else if i > 8 {
                    1int
                } else {
                    0int
                });
                lower_hex_digits()[(((k as nat) / pow16((31 - d) as nat)) % 16) as int]
            },
    )
}

/// What `uuid::Uuid::parse_str` makes of a text: the UUID's value, or none.
pub uninterp spec fn uuid_parse(s: Seq<char>) -> Option<u128>;

/// Relies on `uuid::Uuid::new_v4`: a random key; nothing is known of its value.
#[verifier::external_body]
pub(crate) fn new_key() -> (r: BlobKey) {
    BlobKey(uuid::Uuid::new_v4().as_u128())
}

/// Relies on uuid's `Hyphenated` display: the canonical lowercase form.
#[verifier::external_body]
fn key_text(key: BlobKey) -> (r: String)
    ensures
        r@ == hyphenated(key.0),
{
    uuid::Uuid::from_u128(key.0).as_hyphenated().to_string()
}

/// Relies on `uuid::Uuid::parse_str`, which reads the canonical form back.
#[verifier::external_body]
pub(crate) fn parse_key(name: &str) -> (r: Option<BlobKey>)
    ensures
        r == match uuid_parse(name@) {
            Some(k) => Some(BlobKey(k)),
            None => None,
        },
        forall|k: u128| name@ == hyphenated(k) ==> r == Some(BlobKey(k)),
{
    match uuid::Uuid::parse_str(name) {
        Ok(u) => Some(BlobKey(u.as_u128())),
        Err(_) => None,
    }
}

/// `child` below `parent`, with one `/` between them (none after an empty parent).
pub open spec fn join(parent: Seq<char>, child: Seq<char>) -> Seq<char> {
    if parent.len() == 0 || ends_with(parent, seq!['/']) {
        parent + child
    } else {
        parent.push('/') + child
    }
}

fn join_path(parent: &str, child: &str) -> (r: String)
    ensures
        r@ == join(parent@, child@),
{
    proof {
        reveal_strlit("/");
    }
    let p = chars_of(parent);
    let mut r = String::from_str(parent);
    if p.len() == 0 || p[p.len() - 1] == '/' {
        proof {
            if p@.len() > 0 {
                assert(p@.subrange(p@.len() - 1, p@.len() as int) =~= seq!['/']);
            }
        }
        r.append(child);
    } else {
        proof {
            assert(p@.subrange(p@.len() - 1, p@.len() as int)[0] == p@[p@.len() - 1]);
        }
        r.append("/");
        r.append(child);
        assert(r@ =~= parent@.push('/') + child@);
    }
    r
}

/// The directory that holds a key's directory: four shard levels of 1, 3, 2 and
/// 2 characters of its hyphenated form.
pub open spec fn shard_directory(root: Seq<char>, k: u128) -> Seq<char> {
    let t = hyphenated(k);
    join(join(join(join(root, t.subrange(0, 1)), t.subrange(1, 4)), t.subrange(4, 6)), t.subrange(6, 8))
}

pub open spec fn inserting_suffix() -> Seq<char> {
    seq!['.', 'i', 'n', 's', 'e', 'r', 't', 'i', 'n', 'g']
}

pub open spec fn deleting_suffix() -> Seq<char> {
    seq!['.', 'd', 'e', 'l', 'e', 't', 'i', 'n', 'g']
}

/// A directory name of an insert or delete in flight.
pub open spec fn is_temp_name(name: Seq<char>) -> bool {
    ends_with(name, inserting_suffix()) || ends_with(name, deleting_suffix())
}

/// A blob store on a directory tree below `root`.
#[derive(Debug)]
pub struct FsBlobStorage {
    root: String,
}

impl FsBlobStorage {
    pub fn new(root: String) -> (r: FsBlobStorage)
        ensures
            r.root() == root@,
    {
        FsBlobStorage { root }
    }

    pub closed spec fn root(&self) -> Seq<char> {
        self.root@
    }

    fn shard_directory_for_key(&self, key: BlobKey) -> (r: String)
        ensures
            r@ == shard_directory(self.root(), key.0),
    {
        let t = key_text(key);
        let ts = t.as_str();
        let a = join_path(self.root.as_str(), substring(ts, 0, 1).as_str());
        let b = join_path(a.as_str(), substring(ts, 1, 4).as_str());
        let c = join_path(b.as_str(), substring(ts, 4, 6).as_str());
        join_path(c.as_str(), substring(ts, 6, 8).as_str())
    }

    /// `root/k0/k1..k3/k4..k5/k6..k7/<key>`, on the key's hyphenated form.
    pub fn directory_path_for_key(&self, key: BlobKey) -> (r: String)
        ensures
            r@ == join(shard_directory(self.root(), key.0), hyphenated(key.0)),
    {
        let shard = self.shard_directory_for_key(key);
        let t = key_text(key);
        join_path(shard.as_str(), t.as_str())
    }

    /// The sibling of the key's directory in which an insert builds it.
    pub fn inserting_path_for_key(&self, key: BlobKey) -> (r: String)
        ensures
            r@ == join(shard_directory(self.root(), key.0), hyphenated(key.0) + inserting_suffix()),
    {
        proof {
            reveal_strlit(".inserting");
            assert(".inserting"@ =~= inserting_suffix());
        }
        let shard = self.shard_directory_for_key(key);
        let mut name = key_text(key);
        name.append(".inserting");
        join_path(shard.as_str(), name.as_str())
    }

    /// The sibling to which a delete first renames the key's directory.
    pub fn deleting_path_for_key(&self, key: BlobKey) -> (r: String)
        ensures
            r@ == join(shard_directory(self.root(), key.0), hyphenated(key.0) + deleting_suffix()),
    {
        proof {
            reveal_strlit(".deleting");
            assert(".deleting"@ =~= deleting_suffix());
        }
        let shard = self.shard_directory_for_key(key);
        let mut name = key_text(key);
        name.append(".deleting");
        join_path(shard.as_str(), name.as_str())
    }

    /// Whether a directory name marks an insert or delete in flight.
    pub fn is_temp_folder(name: &str) -> (r: bool)
        ensures
            r == is_temp_name(name@),
    {
        proof {
            reveal_strlit(".inserting");
            reveal_strlit(".deleting");
        }
        let n = chars_of(name);
        let ins = chars_of(".inserting");
        let del = chars_of(".deleting");
        assert(ins@ =~= inserting_suffix());
        assert(del@ =~= deleting_suffix());
        let a = n.len() >= ins.len() && matches_at(&n, n.len() - ins.len(), &ins);
        let b = n.len() >= del.len() && matches_at(&n, n.len() - del.len(), &del);
        a || b
    }

    /// Whether a directory created `elapsed_millis` ago (none if its birth time
    /// could not be read, or lies in the future) is older than the grace period.
    pub fn has_expired_grace_period(elapsed_millis: Option<u64>, grace_period_millis: u64) -> (r: bool)
        ensures
            r == match elapsed_millis {
                Some(e) => e > grace_period_millis,
                None => false,
            },
    {
        match elapsed_millis {
            Some(e) => e > grace_period_millis,
            None => false,
        }
    }
}

/// The deepest level at which the sweep still reads a directory; deeper
/// subtrees are left alone and count as content.
pub const MAX_FSCK_LEVEL: usize = 7;

/// What the sweep does with a directory it meets.
#[derive(Debug, Clone, Copy, PartialEq, Eq, Structural)]
pub enum FsckDirAction {
    /// younger than the grace period, perhaps still being built: leave it and
    /// all it holds alone
    Skip,
    /// an orphaned insert or delete: delete it with all it holds
    RemoveTempFolder,
    /// an orphaned insert or delete, only reported: look inside
    ReportTempFolder,
    /// an old blob directory: ask whether it is referenced
    CheckReference(BlobKey),
    /// look inside
    Descend,
}

/// What the sweep does with an old blob directory, once it knows whether the
/// blob is referenced.
#[derive(Debug, Clone, Copy, PartialEq, Eq, Structural)]
pub enum FsckBlobAction {
    /// delete it with all it holds
    RemoveBlob,
    /// only report it, then look inside
    ReportBlob,
    /// look inside
    Descend,
}

pub open spec fn dir_action(name: Seq<char>, expired: bool, log_only: bool) -> FsckDirAction {
    if !expired {
        FsckDirAction::Skip
    } else if is_temp_name(name) {
        if log_only {
            FsckDirAction::ReportTempFolder
        } else {
            FsckDirAction::RemoveTempFolder
        }
    } else {
        match uuid_parse(name) {
            Some(k) => FsckDirAction::CheckReference(BlobKey(k)),
            None => FsckDirAction::Descend,
        }
    }
}

pub open spec fn blob_action(referenced: bool, log_only: bool) -> FsckBlobAction {
    if referenced {
        FsckBlobAction::Descend
    } else if log_only {
        FsckBlobAction::ReportBlob
    } else {
        FsckBlobAction::RemoveBlob
    }
}

/// A directory that was looked into is removed when nothing remains in it, it
/// is older than the grace period, and the sweep repairs.
pub open spec fn prunes(has_content: bool, expired: bool, log_only: bool) -> bool {
    !has_content && expired && !log_only
}

impl FsBlobStorage {
    /// The sweep's decision on a directory named `name`, `expired` if it is
    /// older than the grace period: young directories are skipped; orphaned
    /// temporary directories go (or are reported); old blob directories are
    /// checked against the reference oracle; everything else is looked into.
    pub fn fsck_directory_action(name: &str, expired: bool, log_only: bool) -> (r: FsckDirAction)
        ensures
            r == dir_action(name@, expired, log_only),
    {
        if !expired {
            FsckDirAction::Skip
        } else if Self::is_temp_folder(name) {
            if log_only {
                FsckDirAction::ReportTempFolder
            } else {
                FsckDirAction::RemoveTempFolder
            }
        } else {
            match parse_key(name) {
                Some(k) => FsckDirAction::CheckReference(k),
                None => FsckDirAction::Descend,
            }
        }
    }

    /// The sweep's decision on an old blob directory: an unreferenced blob goes
    /// (or is reported).
    pub fn fsck_blob_action(referenced: bool, log_only: bool) -> (r: FsckBlobAction)
        ensures
            r == blob_action(referenced, log_only),
    {
        if referenced {
            FsckBlobAction::Descend
        } else if log_only {
            FsckBlobAction::ReportBlob
        } else {
            FsckBlobAction::RemoveBlob
        }
    }

    /// Whether the sweep removes a directory it looked into, given whether
    /// anything remains in it.
    pub fn fsck_prunes(has_content: bool, expired: bool, log_only: bool) -> (r: bool)
        ensures
            r == prunes(has_content, expired, log_only),
    {
        !has_content && expired && !log_only
    }

    /// Whether the sweep reads a directory at this level (the root is level 0).
    pub fn fsck_reads_level(level: usize) -> (r: bool)
        ensures
            r == (level <= MAX_FSCK_LEVEL),
    {
        level <= MAX_FSCK_LEVEL
    }
}

/// A directory tree as the sweep sees it.
pub enum FsNode {
    /// anything that is not a directory
    File,
    Dir { name: Seq<char>, expired: bool, children: Seq<FsNode> },
}

/// Whether the sweep deletes directory `name` outright.
pub open spec fn removes_dir(
    name: Seq<char>,
    expired: bool,
    log_only: bool,
    referenced: spec_fn(u128) -> bool,
) -> bool {
    match dir_action(name, expired, log_only) {
        FsckDirAction::RemoveTempFolder => true,
        FsckDirAction::CheckReference(k) => blob_action(referenced(k.0), log_only)
            == FsckBlobAction::RemoveBlob,
        _ => false,
    }
}

/// What remains of an entry at `level` after the sweep (none if it was deleted,
/// or was pruned once nothing remained in it).
pub open spec fn sweep_node(
    n: FsNode,
    level: nat,
    log_only: bool,
    referenced: spec_fn(u128) -> bool,
) -> Option<FsNode>
    decreases n,
{
    match n {
        FsNode::File => Some(n),
        FsNode::Dir { name, expired, children } => if removes_dir(
            name,
            expired,
            log_only,
            referenced,
        ) {
            None
        } else if dir_action(name, expired, log_only) == FsckDirAction::Skip {
            Some(n)
        } else if level + 1 > MAX_FSCK_LEVEL {
            Some(n)
        } else {
            let kept = sweep_entries(children, level + 1, log_only, referenced);
            if prunes(kept.len() > 0, expired, log_only) {
                None
            } else {
                Some(FsNode::Dir { name, expired, children: kept })
            }
        },
    }
}

/// What remains of the entries of a directory read at `level`.
pub open spec fn sweep_entries(
    s: Seq<FsNode>,
    level: nat,
    log_only: bool,
    referenced: spec_fn(u128) -> bool,
) -> Seq<FsNode>
    decreases s,
{
    if s.len() == 0 {
        s
    } else {
        let rest = sweep_entries(s.subrange(0, s.len() - 1), level, log_only, referenced);
        match sweep_node(s[s.len() - 1], level, log_only, referenced) {
            Some(m) => rest.push(m),
            None => rest,
        }
    }
}

/// Every directory is older than the grace period.
pub open spec fn all_expired(s: Seq<FsNode>) -> bool
    decreases s,
{
    s.len() == 0 || (all_expired(s.subrange(0, s.len() - 1)) && match s[s.len() - 1] {
        FsNode::File => true,
        FsNode::Dir { expired, children, .. } => expired && all_expired(children),
    })
}

/// No directory that the sweep reads holds a temporary directory or a blob
/// directory that the oracle calls unreferenced.
pub open spec fn is_clean(s: Seq<FsNode>, level: nat, referenced: spec_fn(u128) -> bool) -> bool
    decreases s,
{
    s.len() == 0 || (is_clean(s.subrange(0, s.len() - 1), level, referenced) && match s[s.len()
        - 1] {
        FsNode::File => true,
        FsNode::Dir { name, children, .. } => {
            &&& !is_temp_name(name)
            &&& (uuid_parse(name) is Some ==> referenced(uuid_parse(name)->0))
            &&& (level + 1 <= MAX_FSCK_LEVEL ==> is_clean(children, level + 1, referenced))
        },
    })
}

proof fn lemma_sweep_node_clean(n: FsNode, level: nat, referenced: spec_fn(u128) -> bool)
    requires
        all_expired(seq![n]),
    ensures
        sweep_node(n, level, false, referenced) is Some ==> is_clean(
            seq![sweep_node(n, level, false, referenced)->0],
            level,
            referenced,
        ),
    decreases n,
{
    assert(seq![n].subrange(0, 0) =~= Seq::<FsNode>::empty());
    match n {
        FsNode::File => {
            let m = sweep_node(n, level, false, referenced)->0;
            assert(seq![m].subrange(0, 0) =~= Seq::<FsNode>::empty());
            assert(seq![m][0] == m);
            assert(is_clean(Seq::<FsNode>::empty(), level, referenced));
            assert(is_clean(seq![m], level, referenced));
        },
        FsNode::Dir { name, expired, children } => {
            assert(seq![n][0] == n);
            assert(expired && all_expired(children));
            if sweep_node(n, level, false, referenced) is Some {
                let m = sweep_node(n, level, false, referenced)->0;
                assert(seq![m].subrange(0, 0) =~= Seq::<FsNode>::empty());
                assert(seq![m][0] == m);
                assert(!removes_dir(name, expired, false, referenced));
                assert(!is_temp_name(name));
                if uuid_parse(name) is Some {
                    assert(dir_action(name, expired, false) == FsckDirAction::CheckReference(
                        BlobKey(uuid_parse(name)->0),
                    ));
                    assert(referenced(uuid_parse(name)->0));
                }
                if level + 1 <= MAX_FSCK_LEVEL {
                    lemma_sweep_entries_clean(children, level + 1, referenced);
                    assert(m == FsNode::Dir {
                        name,
                        expired,
                        children: sweep_entries(children, level + 1, false, referenced),
                    });
                } else {
                    assert(m == n);
                }
                assert(is_clean(Seq::<FsNode>::empty(), level, referenced));
                assert(is_clean(seq![m], level, referenced));
            }
        },
    }
}

proof fn lemma_sweep_entries_clean(s: Seq<FsNode>, level: nat, referenced: spec_fn(u128) -> bool)
    requires
        all_expired(s),
    ensures
        is_clean(sweep_entries(s, level, false, referenced), level, referenced),
    decreases s,
{
    if s.len() > 0 {
        let init = s.subrange(0, s.len() - 1);
        let last = s[s.len() - 1];
        lemma_sweep_entries_clean(init, level, referenced);
        assert(seq![last].subrange(0, 0) =~= Seq::<FsNode>::empty());
        assert(all_expired(Seq::<FsNode>::empty()));
        lemma_sweep_node_clean(last, level, referenced);
        let rest = sweep_entries(init, level, false, referenced);
        match sweep_node(last, level, false, referenced) {
            Some(m) => {
                assert(rest.push(m).subrange(0, rest.len() as int) =~= rest);
                assert(seq![m].subrange(0, 0) =~= Seq::<FsNode>::empty());
            },
            None => {},
        }
    }
}

/// A sweep that repairs, over a tree whose directories are all older than the
/// grace period (a grace period of zero after a crash), leaves no temporary
/// directory and no blob directory that the oracle calls unreferenced in any
/// directory it reads.
pub proof fn lemma_fsck_repairs(root_entries: Seq<FsNode>, referenced: spec_fn(u128) -> bool)
    requires
        all_expired(root_entries),
    ensures
        is_clean(sweep_entries(root_entries, 0, false, referenced), 0, referenced),
{
    lemma_sweep_entries_clean(root_entries, 0, referenced);
}

proof fn lemma_sweep_node_log_only(n: FsNode, level: nat, referenced: spec_fn(u128) -> bool)
    ensures
        sweep_node(n, level, true, referenced) == Some(n),
    decreases n,
{
    match n {
        FsNode::File => {},
        FsNode::Dir { name, expired, children } => {
            if dir_action(name, expired, true) != FsckDirAction::Skip && level + 1 <= MAX_FSCK_LEVEL {
                lemma_sweep_entries_log_only(children, level + 1, referenced);
            }
        },
    }
}

proof fn lemma_sweep_entries_log_only(s: Seq<FsNode>, level: nat, referenced: spec_fn(u128) -> bool)
    ensures
        sweep_entries(s, level, true, referenced) == s,
    decreases s,
{
    if s.len() > 0 {
        let init = s.subrange(0, s.len() - 1);
        lemma_sweep_entries_log_only(init, level, referenced);
        lemma_sweep_node_log_only(s[s.len() - 1], level, referenced);
        assert(init.push(s[s.len() - 1]) =~= s);
    }
}

/// A sweep in report-only mode changes nothing.
pub proof fn lemma_fsck_log_only_changes_nothing(root_entries: Seq<FsNode>, referenced: spec_fn(u128) -> bool)
    ensures
        sweep_entries(root_entries, 0, true, referenced) == root_entries,
{
    lemma_sweep_entries_log_only(root_entries, 0, referenced);
}

/// A directory younger than the grace period is left as it is, with all it
/// holds, whatever the mode.
pub proof fn lemma_fsck_skips_young(
    name: Seq<char>,
    children: Seq<FsNode>,
    level: nat,
    log_only: bool,
    referenced: spec_fn(u128) -> bool,
)
    ensures
        sweep_node(FsNode::Dir { name, expired: false, children }, level, log_only, referenced)
            == Some(FsNode::Dir { name, expired: false, children }),
{
}

/// A repairing sweep deletes an old staging directory, and keeps an old blob
/// directory that is referenced together with its two files.
pub proof fn lemma_fsck_keeps_referenced_drops_staging(
    blob_name: Seq<char>,
    staging_name: Seq<char>,
    staging_children: Seq<FsNode>,
    level: nat,
    referenced: spec_fn(u128) -> bool,
)
    requires
        !is_temp_name(blob_name),
        uuid_parse(blob_name) is Some,
        referenced(uuid_parse(blob_name)->0),
        is_temp_name(staging_name),
        level + 1 <= MAX_FSCK_LEVEL,
    ensures
        sweep_node(
            FsNode::Dir { name: blob_name, expired: true, children: seq![FsNode::File, FsNode::File] },
            level,
            false,
            referenced,
        ) == Some(
            FsNode::Dir { name: blob_name, expired: true, children: seq![FsNode::File, FsNode::File] },
        ),
        sweep_node(
            FsNode::Dir { name: staging_name, expired: true, children: staging_children },
            level,
            false,
            referenced,
        ) is None,
{
    let files = seq![FsNode::File, FsNode::File];
    let l = level + 1;
    assert(files.subrange(0, 1).subrange(0, 0) =~= Seq::<FsNode>::empty());
    assert(sweep_entries(Seq::<FsNode>::empty(), l, false, referenced) == Seq::<FsNode>::empty());
    let s1 = files.subrange(0, 1);
    assert(s1[0] == FsNode::File);
    assert(s1.subrange(0, 0) =~= Seq::<FsNode>::empty());
    assert(sweep_entries(s1.subrange(0, 0), l, false, referenced) == Seq::<FsNode>::empty());
    assert(sweep_node(FsNode::File, l, false, referenced) == Some(FsNode::File));
    assert(Seq::<FsNode>::empty().push(FsNode::File) =~= seq![FsNode::File]);
    assert(sweep_entries(s1, l, false, referenced) =~= seq![FsNode::File]);
    assert(files.subrange(0, files.len() - 1) =~= s1);
    assert(files[1] == FsNode::File);
    assert(seq![FsNode::File].push(FsNode::File) =~= files);
    assert(sweep_entries(files, l, false, referenced) =~= files);
}

/// A file-system operation on one key's directories.
#[derive(Debug, Clone, Copy, PartialEq, Eq, Structural)]
pub enum BlobDirOp {
    /// create `<key>.inserting` (with its parents)
    CreateStaging,
    /// write `data` into `<key>.inserting`
    WriteData,
    /// write `metadata.json` into `<key>.inserting`
    WriteMetadata,
    /// rename `<key>.inserting` to `<key>`
    CommitRename,
    /// rename `<key>` to `<key>.deleting`
    DeleteRename,
    /// remove `data` from `<key>.deleting`
    RemoveData,
    /// remove `metadata.json` from `<key>.deleting`
    RemoveMetadata,
    /// remove the empty `<key>.deleting`
    RemoveDir,
}

/// Which of a key's directories exists, and which of the two files it holds.
pub enum KeyDirState {
    Absent,
    Inserting { data: bool, metadata: bool },
    Committed { data: bool, metadata: bool },
    Deleting { data: bool, metadata: bool },
}

/// The effect of an operation that succeeds; one that does not apply leaves
/// the state as it was (it fails).
pub open spec fn apply_op(s: KeyDirState, op: BlobDirOp) -> KeyDirState {
    match (s, op) {
        (KeyDirState::Absent, BlobDirOp::CreateStaging) => KeyDirState::Inserting { data: false, metadata: false },
        (KeyDirState::Inserting { metadata, .. }, BlobDirOp::WriteData) => KeyDirState::Inserting { data: true, metadata },
        (KeyDirState::Inserting { data, .. }, BlobDirOp::WriteMetadata) => KeyDirState::Inserting { data, metadata: true },
        (KeyDirState::Inserting { data, metadata }, BlobDirOp::CommitRename) => KeyDirState::Committed { data, metadata },
        (KeyDirState::Committed { data, metadata }, BlobDirOp::DeleteRename) => KeyDirState::Deleting { data, metadata },
        (KeyDirState::Deleting { metadata, .. }, BlobDirOp::RemoveData) => KeyDirState::Deleting { data: false, metadata },
        (KeyDirState::Deleting { data, .. }, BlobDirOp::RemoveMetadata) => KeyDirState::Deleting { data, metadata: false },
        (KeyDirState::Deleting { data: false, metadata: false }, BlobDirOp::RemoveDir) => KeyDirState::Absent,
        _ => s,
    }
}

/// The state after the operations, in order.
pub open spec fn run_ops(s: KeyDirState, ops: Seq<BlobDirOp>) -> KeyDirState
    decreases ops.len(),
{
    if ops.len() == 0 {
        s
    } else {
        apply_op(run_ops(s, ops.drop_last()), ops.last())
    }
}

/// A committed directory holds both files.
pub open spec fn committed_complete(s: KeyDirState) -> bool {
    match s {
        KeyDirState::Committed { data, metadata } => data && metadata,
        _ => true,
    }
}

pub open spec fn insert_protocol() -> Seq<BlobDirOp> {
    seq![BlobDirOp::CreateStaging, BlobDirOp::WriteData, BlobDirOp::WriteMetadata, BlobDirOp::CommitRename]
}

pub open spec fn delete_protocol() -> Seq<BlobDirOp> {
    seq![BlobDirOp::DeleteRename, BlobDirOp::RemoveData, BlobDirOp::RemoveMetadata, BlobDirOp::RemoveDir]
}

impl FsBlobStorage {
    /// The operations of an insert, in the order they are made: the blob is
    /// built in a staging directory and committed by one rename.
    pub fn insert_protocol_ops() -> (r: Vec<BlobDirOp>)
        ensures
            r@ == insert_protocol(),
    {
        let r = vec![BlobDirOp::CreateStaging, BlobDirOp::WriteData, BlobDirOp::WriteMetadata, BlobDirOp::CommitRename];
        assert(r@ =~= insert_protocol());
        r
    }

    /// The operations of a delete, in the order they are made: the directory is
    /// first renamed away, then emptied and removed.
    pub fn delete_protocol_ops() -> (r: Vec<BlobDirOp>)
        ensures
            r@ == delete_protocol(),
    {
        let r = vec![BlobDirOp::DeleteRename, BlobDirOp::RemoveData, BlobDirOp::RemoveMetadata, BlobDirOp::RemoveDir];
        assert(r@ =~= delete_protocol());
        r
    }
}

/// Wherever an insert of a new key stops (completed, failed, or killed), and
/// wherever a later delete of a completed one stops, the key has no committed
/// directory or one that holds both files.
pub proof fn lemma_committed_blobs_complete(insert_steps: nat, delete_steps: nat)
    requires
        insert_steps <= 4,
        delete_steps <= 4,
    ensures
        committed_complete(run_ops(KeyDirState::Absent, insert_protocol().subrange(0, insert_steps as int))),
        committed_complete(run_ops(
            run_ops(KeyDirState::Absent, insert_protocol()),
            delete_protocol().subrange(0, delete_steps as int),
        )),
{
    let ip = insert_protocol();
    let dp = delete_protocol();
    let a = KeyDirState::Absent;
    assert(ip.subrange(0, 0).len() == 0);
    assert(ip.subrange(0, 1).drop_last() =~= ip.subrange(0, 0));
    assert(ip.subrange(0, 2).drop_last() =~= ip.subrange(0, 1));
    assert(ip.subrange(0, 3).drop_last() =~= ip.subrange(0, 2));
    assert(ip.subrange(0, 4).drop_last() =~= ip.subrange(0, 3));
    assert(ip.subrange(0, 4) =~= ip);
    assert(run_ops(a, ip.subrange(0, 0)) == a);
    assert(ip.subrange(0, 1).last() == BlobDirOp::CreateStaging);
    let s1 = run_ops(a, ip.subrange(0, 1));
    let s2 = run_ops(a, ip.subrange(0, 2));
    let s3 = run_ops(a, ip.subrange(0, 3));
    let s4 = run_ops(a, ip.subrange(0, 4));
    assert(s1 == KeyDirState::Inserting { data: false, metadata: false });
    assert(s2 == KeyDirState::Inserting { data: true, metadata: false });
    assert(s3 == KeyDirState::Inserting { data: true, metadata: true });
    assert(s4 == KeyDirState::Committed { data: true, metadata: true });
    assert(dp.subrange(0, 0).len() == 0);
    assert(dp.subrange(0, 1).drop_last() =~= dp.subrange(0, 0));
    assert(dp.subrange(0, 2).drop_last() =~= dp.subrange(0, 1));
    assert(dp.subrange(0, 3).drop_last() =~= dp.subrange(0, 2));
    assert(dp.subrange(0, 4).drop_last() =~= dp.subrange(0, 3));
    assert(run_ops(s4, dp.subrange(0, 0)) == s4);
    assert(dp.subrange(0, 1).last() == BlobDirOp::DeleteRename);
    let d1 = run_ops(s4, dp.subrange(0, 1));
    let d2 = run_ops(s4, dp.subrange(0, 2));
    let d3 = run_ops(s4, dp.subrange(0, 3));
    let d4 = run_ops(s4, dp.subrange(0, 4));
    assert(d1 == KeyDirState::Deleting { data: true, metadata: true });
    assert(d2 == KeyDirState::Deleting { data: false, metadata: true });
    assert(d3 == KeyDirState::Deleting { data: false, metadata: false });
    assert(d4 == KeyDirState::Absent);
}

} // verus!
