use vstd::prelude::*;

use crate::maven::coordinates::{
    ArtifactRefModel, MavenArtifactId, MavenArtifactRef, MavenClassifier, MavenCoordinates,
    MavenGroupId, MavenVersion, VersionModel,
};
use crate::util::text::{
    chars_of, ends_with, lacks, last_index_of, lemma_last_separator, lemma_no_separator,
    matches_at, rfind_char, starts_with, substring,
};

verus! {

/// Why a repository path or file name was rejected.
#[derive(Debug, Clone, Copy, PartialEq, Eq, Structural)]
pub enum PathError {
    /// fewer than three `/` separators in the path
    TooFewSegments,
    /// the file name is shorter than artifact id, version and two more characters
    FileNameTooShort,
    /// the file name does not start with the artifact id and a `-`
    WrongArtifactId,
    /// the artifact id is not followed by the version string
    WrongVersion,
    /// a snapshot file name lacks a timestamp, or has a build number that is no number
    MalformedSnapshotTail,
    /// a release file name continues after the version with something other than `-`
    MalformedClassifier,
}

/// The result of parsing a file name against its artifact id and version string.
#[derive(Debug, Eq, PartialEq)]
pub struct ParseFilenameResult {
    pub version: MavenVersion,
    pub classifier: Option<String>,
    /// including the leading '.', e.g. ".jar"
    pub extension: String,
}

// ---------------------------------------------------------------- the grammar

pub open spec fn snapshot_marker() -> Seq<char> {
    seq!['-', 'S', 'N', 'A', 'P', 'S', 'H', 'O', 'T']
}

/// A version string names a snapshot iff it ends in `-SNAPSHOT` (case-sensitive).
pub open spec fn is_snapshot_version(v: Seq<char>) -> bool {
    ends_with(v, snapshot_marker())
}

pub open spec fn is_digit(c: char) -> bool {
    '0' <= c && c <= '9'
}

/// `YYYYMMDD.HHMMSS`
pub open spec fn is_timestamp(s: Seq<char>) -> bool {
    s.len() == 15 && forall|i: int|
        0 <= i < 15 ==> (if i == 8 {
            s[i] == '.'
        } else {
            is_digit(s[i])
        })
}

pub open spec fn decimal_digits() -> Seq<char> {
    seq!['0', '1', '2', '3', '4', '5', '6', '7', '8', '9']
}

/// The decimal notation of `n`, without leading zeros.
pub open spec fn decimal(n: nat) -> Seq<char>
    decreases n,
{
    if n < 10 {
        seq![decimal_digits()[n as int]]
    } else {
        decimal(n / 10).push(decimal_digits()[(n % 10) as int])
    }
}

pub open spec fn digit_value(c: char) -> nat {
    ((c as u32) - ('0' as u32)) as nat
}

pub open spec fn digits_value(s: Seq<char>) -> nat
    decreases s.len(),
{
    if s.len() == 0 {
        0
    } else {
        digits_value(s.drop_last()) * 10 + digit_value(s.last())
    }
}

/// What `u32::from_str` accepts: an optional `+`, then one or more ASCII digits
/// whose value fits in 32 bits.
pub open spec fn u32_from_decimal(s: Seq<char>) -> Option<u32> {
    let d = if s.len() > 0 && s[0] == '+' {
        s.drop_first()
    } else {
        s
    };
    if d.len() > 0 && (forall|i: int| 0 <= i < d.len() ==> is_digit(d[i])) && digits_value(d)
        <= u32::MAX {
        Some(digits_value(d) as u32)
    } else {
        None
    }
}

/// `s` with every `from` replaced by `to`.
pub open spec fn replace_all(s: Seq<char>, from: char, to: char) -> Seq<char> {
    s.map_values(|c: char| if c == from { to } else { c })
}

pub open spec fn version_string(v: VersionModel) -> Seq<char> {
    match v {
        VersionModel::Release(s) => s,
        VersionModel::Snapshot { base, .. } => base,
    }
}

pub open spec fn classifier_part(c: Option<Seq<char>>) -> Seq<char> {
    match c {
        None => Seq::empty(),
        Some(s) => seq!['-'] + s,
    }
}

pub open spec fn build_number_part(b: Option<u32>) -> Seq<char> {
    match b {
        None => Seq::empty(),
        Some(n) => seq!['-'] + decimal(n as nat),
    }
}

/// Release: `A-v[-C]E`; snapshot: `A-base[-C]-timestamp[-build]E`.
pub open spec fn file_name_of(r: ArtifactRefModel) -> Seq<char> {
    match r.version {
        VersionModel::Release(v) => r.artifact_id + seq!['-'] + v + classifier_part(r.classifier)
            + r.extension,
        VersionModel::Snapshot { base, timestamp, build_number } => r.artifact_id + seq!['-']
            + base + classifier_part(r.classifier) + seq!['-'] + timestamp + build_number_part(
            build_number,
        ) + r.extension,
    }
}

/// `G/A/version/file`, the group's dots written as slashes.
pub open spec fn path_of(r: ArtifactRefModel) -> Seq<char> {
    replace_all(r.group_id, '.', '/') + seq!['/'] + r.artifact_id + seq!['/'] + version_string(
        r.version,
    ) + seq!['/'] + file_name_of(r)
}

/// Splits `[-classifier]-YYYYMMDD.HHMMSS` into classifier and timestamp: the
/// classifier is what precedes the timestamp, without its leading `-` (none if
/// nothing precedes it); text before the timestamp that does not start with
/// `-` is no such tail.
pub open spec fn split_timestamp(rest: Seq<char>) -> Option<(Option<Seq<char>>, Seq<char>)> {
    let n = rest.len();
    if n >= 16 && rest[n - 16] == '-' && is_timestamp(rest.subrange(n - 15, n as int)) {
        let raw = rest.subrange(0, n - 16);
        if raw.len() == 0 {
            Some((None, rest.subrange(n - 15, n as int)))
        } else if raw[0] == '-' {
            Some((Some(raw.drop_first()), rest.subrange(n - 15, n as int)))
        } else {
            None
        }
    } else {
        None
    }
}

/// `[-classifier]-timestamp[-build]`: the timestamp first, else a build number
/// after the last `-` and the timestamp before it.
pub open spec fn parse_snapshot_tail(rest: Seq<char>) -> Option<
    (Option<Seq<char>>, Seq<char>, Option<u32>),
> {
    match split_timestamp(rest) {
        Some((c, ts)) => Some((c, ts, None)),
        None => {
            let d = last_index_of(rest, '-');
            if d < 0 {
                None
            } else {
                match u32_from_decimal(rest.subrange(d + 1, rest.len() as int)) {
                    None => None,
                    Some(b) => match split_timestamp(rest.subrange(0, d)) {
                        Some((c, ts)) => Some((c, ts, Some(b))),
                        None => None,
                    },
                }
            }
        },
    }
}

/// The parse of a file name, given the artifact id and the version string of
/// the directories above it: version, classifier and extension.
pub open spec fn parse_file_name(file: Seq<char>, a: Seq<char>, v: Seq<char>) -> Result<
    (VersionModel, Option<Seq<char>>, Seq<char>),
    PathError,
> {
    if file.len() < a.len() + v.len() + 2 {
        Err(PathError::FileNameTooShort)
    } else if !starts_with(file, a.push('-')) {
        Err(PathError::WrongArtifactId)
    } else if !starts_with(file.subrange(a.len() + 1int, file.len() as int), v) {
        Err(PathError::WrongVersion)
    } else {
        let tail = file.subrange(a.len() + 1int + v.len(), file.len() as int);
        let dot = last_index_of(tail, '.');
        let rest = if dot >= 0 {
            tail.subrange(0, dot)
        } else {
            tail
        };
        let ext = if dot >= 0 {
            tail.subrange(dot, tail.len() as int)
        } else {
            Seq::empty()
        };
        if is_snapshot_version(v) {
            match parse_snapshot_tail(rest) {
                Some((c, ts, b)) => Ok(
                    (VersionModel::Snapshot { base: v, timestamp: ts, build_number: b }, c, ext),
                ),
                None => Err(PathError::MalformedSnapshotTail),
            }
        } else if rest.len() == 0 {
            Ok((VersionModel::Release(v), None, ext))
        } else if rest[0] == '-' {
            Ok((VersionModel::Release(v), Some(rest.drop_first()), ext))
        } else {
            Err(PathError::MalformedClassifier)
        }
    }
}

/// The parse of a repository-relative path `group/segments/A/version/file`.
pub open spec fn parse_path(p: Seq<char>) -> Result<ArtifactRefModel, PathError> {
    let s3 = last_index_of(p, '/');
    let s2 = last_index_of(p.subrange(0, s3), '/');
    let s1 = last_index_of(p.subrange(0, s2), '/');
    if s3 < 0 || s2 < 0 || s1 < 0 {
        Err(PathError::TooFewSegments)
    } else {
        let a = p.subrange(s1 + 1, s2);
        let v = p.subrange(s2 + 1, s3);
        match parse_file_name(p.subrange(s3 + 1, p.len() as int), a, v) {
            Err(e) => Err(e),
            Ok((version, classifier, extension)) => Ok(
                ArtifactRefModel {
                    group_id: replace_all(p.subrange(0, s1), '/', '.'),
                    artifact_id: a,
                    version,
                    classifier,
                    extension,
                },
            ),
        }
    }
}

// ---------------------------------------------------------------- std calls

/// Relies on `str::replace`: every `from` in `s` is replaced by `to`.
#[verifier::external_body]
pub(crate) fn replace_char(s: &str, from: char, to: char) -> (r: String)
    ensures
        r@ == replace_all(s@, from, to),
{
    s.replace(from, to.encode_utf8(&mut [0u8; 4]))
}

/// Relies on `u32`'s `Display`: decimal notation without leading zeros.
#[verifier::external_body]
fn u32_to_decimal(n: u32) -> (r: String)
    ensures
        r@ == decimal(n as nat),
{
    n.to_string()
}

/// Relies on `u32::from_str`: an optional `+`, then ASCII digits that fit.
#[verifier::external_body]
fn u32_parse(s: &str) -> (r: Option<u32>)
    ensures
        r == u32_from_decimal(s@),
{
    s.parse::<u32>().ok()
}


// ---------------------------------------------------------------- parsing

/// The value of an optional owned string.
pub open spec fn opt_view(o: Option<String>) -> Option<Seq<char>> {
    match o {
        None => None,
        Some(s) => Some(s@),
    }
}

impl View for ParseFilenameResult {
    type V = (VersionModel, Option<Seq<char>>, Seq<char>);

    open spec fn view(&self) -> (VersionModel, Option<Seq<char>>, Seq<char>) {
        (self.version@, opt_view(self.classifier), self.extension@)
    }
}

/// Whether the version string ends in `-SNAPSHOT`.
pub fn ends_with_snapshot_marker(s: &str) -> (r: bool)
    ensures
        r == is_snapshot_version(s@),
{
    let marker = chars_of("-SNAPSHOT");
    proof {
        reveal_strlit("-SNAPSHOT");
        assert(marker@ =~= snapshot_marker());
    }
    let v = chars_of(s);
    if v.len() < marker.len() {
        return false;
    }
    matches_at(&v, v.len() - marker.len(), &marker)
}

/// Whether the characters `at..at + 15` of `s` form a timestamp.
fn timestamp_at(s: &Vec<char>, at: usize) -> (r: bool)
    requires
        at + 15 <= s@.len(),
    ensures
        r == is_timestamp(s@.subrange(at as int, at + 15)),
{
    let ghost t = s@.subrange(at as int, at + 15);
    let mut i: usize = 0;
    while i < 15
        invariant
            at + 15 <= s@.len(),
            s@.len() == s.len(),
            t == s@.subrange(at as int, at + 15),
            i <= 15,
            forall|j: int|
                0 <= j < i ==> (if j == 8 {
                    t[j] == '.'
                } else {
                    is_digit(t[j])
                }),
        decreases 15 - i,
    {
        let c = s[at + i];
        let ok = if i == 8 {
            c == '.'
        } else {
            '0' <= c && c <= '9'
        };
        if !ok {
            assert(t[i as int] == c);
            return false;
        }
        i = i + 1;
    }
    true
}

/// Splits `[-classifier]-YYYYMMDD.HHMMSS` (the characters `lo..hi` of the file
/// name `f`) into classifier and timestamp, as `split_timestamp` says; none for
/// any other shape.
pub fn parse_classifier_and_timestamp(file_name: &str, f: &Vec<char>, lo: usize, hi: usize) -> (r: Option<
    (Option<String>, String),
>)
    requires
        f@ == file_name@,
        lo <= hi <= f@.len(),
    ensures
        match r {
            Some((c, ts)) => split_timestamp(f@.subrange(lo as int, hi as int)) == Some(
                (opt_view(c), ts@),
            ),
            None => split_timestamp(f@.subrange(lo as int, hi as int)) is None,
        },
{
    let ghost rest = f@.subrange(lo as int, hi as int);
    if hi - lo < 16 || f[hi - 16] != '-' || !timestamp_at(f, hi - 15) {
        proof {
            if hi - lo >= 16 {
                assert(rest[rest.len() - 16] == f@[hi - 16]);
                assert(rest.subrange(rest.len() - 15, rest.len() as int) =~= f@.subrange(
                    hi - 15,
                    hi as int,
                ));
            }
        }
        return None;
    }
    proof {
        let raw = rest.subrange(0, rest.len() - 16);
        assert(raw =~= f@.subrange(lo as int, hi - 16));
        if raw.len() > 0 {
            assert(raw[0] == f@[lo as int]);
        }
    }
    if hi - 16 > lo && f[lo] != '-' {
        return None;
    }
    let ts = substring(file_name, hi - 15, hi);
    let classifier = if hi - 16 > lo {
        Some(substring(file_name, lo + 1, hi - 16))
    } else {
        None
    };
    proof {
        assert(rest[rest.len() - 16] == f@[hi - 16]);
        assert(rest.subrange(rest.len() - 15, rest.len() as int) =~= f@.subrange(
            hi - 15,
            hi as int,
        ));
        let raw = rest.subrange(0, rest.len() - 16);
        assert(raw =~= f@.subrange(lo as int, hi - 16));
        if raw.len() > 0 {
            assert(raw[0] == f@[lo as int]);
            assert(raw.drop_first() =~= f@.subrange(lo + 1, hi - 16));
        }
    }
    Some((classifier, ts))
}

/// `parse_snapshot_tail` on the characters `lo..hi` of the file name `f`.
fn parse_snapshot_tail_at(file_name: &str, f: &Vec<char>, lo: usize, hi: usize) -> (r: Option<
    (Option<String>, String, Option<u32>),
>)
    requires
        f@ == file_name@,
        lo <= hi <= f@.len(),
    ensures
        match r {
            Some((c, ts, b)) => parse_snapshot_tail(f@.subrange(lo as int, hi as int)) == Some(
                (opt_view(c), ts@, b),
            ),
            None => parse_snapshot_tail(f@.subrange(lo as int, hi as int)) is None,
        },
{
    let ghost rest = f@.subrange(lo as int, hi as int);
    match parse_classifier_and_timestamp(file_name, f, lo, hi) {
        Some((c, ts)) => {
            return Some((c, ts, None));
        },
        None => {},
    }
    let dash = match rfind_char(f, lo, hi, '-') {
        Some(d) => d,
        None => {
            return None;
        },
    };
    let digits = substring(file_name, dash + 1, hi);
    proof {
        assert(rest.subrange(dash - lo + 1, rest.len() as int) =~= f@.subrange(
            dash + 1,
            hi as int,
        ));
        assert(rest.subrange(0, dash - lo) =~= f@.subrange(lo as int, dash as int));
    }
    let build_number = match u32_parse(digits.as_str()) {
        Some(b) => b,
        None => {
            return None;
        },
    };
    match parse_classifier_and_timestamp(file_name, f, lo, dash) {
        Some((c, ts)) => Some((c, ts, Some(build_number))),
        None => None,
    }
}

/// Parses a file name against the artifact id and version string of the
/// directories above it, into version, classifier and extension.
pub fn parse_maven_filename(file_name: &str, artifact_id: &str, version_string: &str) -> (r:
    Result<ParseFilenameResult, PathError>)
    ensures
        match r {
            Ok(x) => parse_file_name(file_name@, artifact_id@, version_string@) == Ok::<
                _,
                PathError,
            >(x@),
            Err(e) => parse_file_name(file_name@, artifact_id@, version_string@) == Err::<
                (VersionModel, Option<Seq<char>>, Seq<char>),
                _,
            >(e),
        },
{
    let f = chars_of(file_name);
    let a = chars_of(artifact_id);
    let v = chars_of(version_string);
    let ghost file = f@;
    if f.len() < 2 || f.len() - 2 < a.len() || f.len() - 2 - a.len() < v.len() {
        return Err(PathError::FileNameTooShort);
    }
    let a_ok = matches_at(&f, 0, &a);
    if !a_ok || f[a.len()] != '-' {
        proof {
            if file.subrange(0, a@.len() + 1int) == a@.push('-') {
                assert(file.subrange(0, a@.len() as int) =~= file.subrange(
                    0,
                    a@.len() + 1int,
                ).subrange(0, a@.len() as int));
                assert(file.subrange(0, a@.len() + 1int)[a@.len() as int] == file[a@.len() as int]);
                assert(a@.push('-').subrange(0, a@.len() as int) =~= a@);
                assert(a@.push('-')[a@.len() as int] == '-');
            }
        }
        return Err(PathError::WrongArtifactId);
    }
    proof {
        assert(file.subrange(0, a@.len() + 1int) =~= a@.push('-'));
    }
    let after: usize = a.len() + 1;
    if !matches_at(&f, after, &v) {
        proof {
            let x = file.subrange(after as int, file.len() as int);
            if starts_with(x, v@) {
                assert(x.subrange(0, v@.len() as int) =~= file.subrange(
                    after as int,
                    after + v@.len(),
                ));
            }
        }
        return Err(PathError::WrongVersion);
    }
    proof {
        let x = file.subrange(after as int, file.len() as int);
        assert(x.subrange(0, v@.len() as int) =~= file.subrange(after as int, after + v@.len()));
    }
    let tail_start: usize = after + v.len();
    let ghost tail = file.subrange(tail_start as int, file.len() as int);
    assert(tail == file.subrange(a@.len() + 1int + v@.len(), file.len() as int));
    let dot = rfind_char(&f, tail_start, f.len(), '.');
    let rest_end: usize = match dot {
        Some(d) => d,
        None => f.len(),
    };
    let extension = match dot {
        Some(d) => substring(file_name, d, f.len()),
        None => String::new(),
    };
    let ghost rest = file.subrange(tail_start as int, rest_end as int);
    proof {
        if dot is Some {
            assert(rest =~= tail.subrange(0, rest_end - tail_start));
            assert(extension@ =~= tail.subrange(rest_end - tail_start, tail.len() as int));
        } else {
            assert(rest =~= tail);
        }
    }
    if ends_with_snapshot_marker(version_string) {
        match parse_snapshot_tail_at(file_name, &f, tail_start, rest_end) {
            Some((classifier, timestamp, build_number)) => Ok(
                ParseFilenameResult {
                    version: MavenVersion::Snapshot {
                        version: String::from_str(version_string),
                        timestamp,
                        build_number,
                    },
                    classifier,
                    extension,
                },
            ),
            None => Err(PathError::MalformedSnapshotTail),
        }
    } else if rest_end == tail_start {
        Ok(
            ParseFilenameResult {
                version: MavenVersion::Release(String::from_str(version_string)),
                classifier: None,
                extension,
            },
        )
    } else if f[tail_start] == '-' {
        let classifier = substring(file_name, tail_start + 1, rest_end);
        proof {
            assert(rest[0] == file[tail_start as int]);
            assert(classifier@ =~= rest.drop_first());
        }
        Ok(
            ParseFilenameResult {
                version: MavenVersion::Release(String::from_str(version_string)),
                classifier: Some(classifier),
                extension,
            },
        )
    } else {
        proof {
            assert(rest[0] == file[tail_start as int]);
        }
        Err(PathError::MalformedClassifier)
    }
}

/// Parses a repository-relative path such as `org/foo/bar/1.2.3/bar-1.2.3.jar`
/// into an artifact reference.
pub fn parse_maven_path(path: &str) -> (r: Result<MavenArtifactRef, PathError>)
    ensures
        match r {
            Ok(x) => parse_path(path@) == Ok::<_, PathError>(x@),
            Err(e) => parse_path(path@) == Err::<ArtifactRefModel, _>(e),
        },
{
    let p = chars_of(path);
    let ghost q = p@;
    assert(q.subrange(0, q.len() as int) =~= q);
    let s3 = match rfind_char(&p, 0, p.len(), '/') {
        Some(i) => i,
        None => {
            return Err(PathError::TooFewSegments);
        },
    };
    assert(q.subrange(0, s3 as int).subrange(0, s3 as int) =~= q.subrange(0, s3 as int));
    let s2 = match rfind_char(&p, 0, s3, '/') {
        Some(i) => i,
        None => {
            return Err(PathError::TooFewSegments);
        },
    };
    assert(q.subrange(0, s2 as int).subrange(0, s2 as int) =~= q.subrange(0, s2 as int));
    let s1 = match rfind_char(&p, 0, s2, '/') {
        Some(i) => i,
        None => {
            return Err(PathError::TooFewSegments);
        },
    };
    let file_name = substring(path, s3 + 1, p.len());
    let version = substring(path, s2 + 1, s3);
    let artifact_id = substring(path, s1 + 1, s2);
    let group_path = substring(path, 0, s1);
    match parse_maven_filename(file_name.as_str(), artifact_id.as_str(), version.as_str()) {
        Err(e) => Err(e),
        Ok(parsed) => Ok(
            MavenArtifactRef {
                coordinates: MavenCoordinates {
                    group_id: MavenGroupId(replace_char(group_path.as_str(), '/', '.')),
                    artifact_id: MavenArtifactId(artifact_id),
                    version: parsed.version,
                },
                classifier: match parsed.classifier {
                    None => MavenClassifier::Unclassified,
                    Some(c) => MavenClassifier::Classified(c),
                },
                file_extension: parsed.extension,
            },
        ),
    }
}

// ---------------------------------------------------------------- formatting

/// The file name of an artifact: `A-v[-C]E` for a release,
/// `A-base[-C]-timestamp[-build]E` for a snapshot.
pub fn maven_file_name(artifact_ref: &MavenArtifactRef) -> (r: String)
    ensures
        r@ == file_name_of(artifact_ref@),
{
    proof {
        reveal_strlit("-");
    }
    let mut r = artifact_ref.coordinates.artifact_id.0.clone();
    r.append("-");
    match &artifact_ref.coordinates.version {
        MavenVersion::Release(v) => {
            r.append(v.as_str());
            append_classifier(&mut r, &artifact_ref.classifier);
        },
        MavenVersion::Snapshot { version, timestamp, build_number } => {
            r.append(version.as_str());
            append_classifier(&mut r, &artifact_ref.classifier);
            r.append("-");
            r.append(timestamp.as_str());
            match build_number {
                None => {},
                Some(n) => {
                    r.append("-");
                    let digits = u32_to_decimal(*n);
                    r.append(digits.as_str());
                },
            }
        },
    }
    r.append(artifact_ref.file_extension.as_str());
    proof {
        let m = artifact_ref@;
        match m.version {
            VersionModel::Release(v) => {
                assert(r@ =~= file_name_of(m));
            },
            VersionModel::Snapshot { base, timestamp, build_number } => {
                assert(r@ =~= file_name_of(m));
            },
        }
    }
    r
}

fn append_classifier(r: &mut String, classifier: &MavenClassifier)
    ensures
        final(r)@ == old(r)@ + classifier_part(classifier@),
{
    proof {
        reveal_strlit("-");
    }
    match classifier {
        MavenClassifier::Unclassified => {
            assert(final(r)@ =~= old(r)@ + classifier_part(classifier@));
        },
        MavenClassifier::Classified(c) => {
            r.append("-");
            r.append(c.as_str());
            assert(final(r)@ =~= old(r)@ + classifier_part(classifier@));
        },
    }
}

/// The repository-relative path of an artifact: `G/A/version/file`, with the
/// group's dots written as slashes.
pub fn as_maven_path(artifact_ref: &MavenArtifactRef) -> (r: String)
    ensures
        r@ == path_of(artifact_ref@),
{
    proof {
        reveal_strlit("/");
    }
    let version_string = match &artifact_ref.coordinates.version {
        MavenVersion::Release(s) => s,
        MavenVersion::Snapshot { version, .. } => version,
    };
    let mut r = replace_char(artifact_ref.coordinates.group_id.0.as_str(), '.', '/');
    r.append("/");
    r.append(artifact_ref.coordinates.artifact_id.0.as_str());
    r.append("/");
    r.append(version_string.as_str());
    r.append("/");
    let file_name = maven_file_name(artifact_ref);
    r.append(file_name.as_str());
    assert(r@ =~= path_of(artifact_ref@));
    r
}

// ---------------------------------------------------------------- round trip

pub open spec fn pow10(k: nat) -> nat
    decreases k,
{
    if k == 0 {
        1
    } else {
        10 * pow10((k - 1) as nat)
    }
}

proof fn lemma_digit(d: nat)
    requires
        d < 10,
    ensures
        is_digit(decimal_digits()[d as int]),
        digit_value(decimal_digits()[d as int]) == d,
        decimal_digits()[d as int] != '+',
{
    assert(decimal_digits()[0] == '0');
    assert(decimal_digits()[1] == '1');
    assert(decimal_digits()[2] == '2');
    assert(decimal_digits()[3] == '3');
    assert(decimal_digits()[4] == '4');
    assert(decimal_digits()[5] == '5');
    assert(decimal_digits()[6] == '6');
    assert(decimal_digits()[7] == '7');
    assert(decimal_digits()[8] == '8');
    assert(decimal_digits()[9] == '9');
}

proof fn lemma_decimal(n: nat, k: nat)
    requires
        1 <= k,
        n < pow10(k),
    ensures
        1 <= decimal(n).len() <= k,
        forall|i: int| 0 <= i < decimal(n).len() ==> is_digit(#[trigger] decimal(n)[i]),
        digits_value(decimal(n)) == n,
    decreases n,
{
    lemma_digit(n % 10);
    if n < 10 {
        assert(decimal(n).drop_last() =~= Seq::<char>::empty());
        assert(digits_value(Seq::<char>::empty()) == 0);
    } else {
        let p = pow10((k - 1) as nat);
        assert(k != 1);
        assert(n / 10 < p) by (nonlinear_arith)
            requires
                n < 10 * p,
        ;
        assert((n / 10) * 10 + n % 10 == n) by (nonlinear_arith);
        lemma_decimal(n / 10, (k - 1) as nat);
        assert(decimal(n).drop_last() =~= decimal(n / 10));
        assert(decimal(n).last() == decimal_digits()[(n % 10) as int]);
        assert(digits_value(decimal(n)) == digits_value(decimal(n / 10)) * 10 + digit_value(
            decimal_digits()[(n % 10) as int],
        ));
    }
}

proof fn lemma_decimal_u32(n: u32)
    ensures
        1 <= decimal(n as nat).len() <= 10,
        forall|i: int| 0 <= i < decimal(n as nat).len() ==> is_digit(#[trigger] decimal(n as nat)[i]),
        u32_from_decimal(decimal(n as nat)) == Some(n),
{
    assert(pow10(0) == 1);
    assert(pow10(1) == 10);
    assert(pow10(2) == 100);
    assert(pow10(3) == 1000);
    assert(pow10(4) == 10000);
    assert(pow10(5) == 100000);
    assert(pow10(6) == 1000000);
    assert(pow10(7) == 10000000);
    assert(pow10(8) == 100000000);
    assert(pow10(9) == 1000000000);
    assert(pow10(10) == 10000000000);
    lemma_decimal(n as nat, 10);
    assert(is_digit(decimal(n as nat)[0]));
}

/// References that the formatter writes unambiguously: no segment holds a `/`,
/// the extension is empty or a `.` followed by no further `.`, a release
/// version does not end in `-SNAPSHOT` and is followed by a classifier or an
/// extension (a classifier without `.` when there is no extension), and a
/// snapshot has a well-formed timestamp and an extension.
pub open spec fn is_formattable(r: ArtifactRefModel) -> bool {
    &&& lacks(r.group_id, '/')
    &&& lacks(r.artifact_id, '/')
    &&& lacks(r.extension, '/')
    &&& (r.classifier is Some ==> lacks(r.classifier->0, '/'))
    &&& (r.extension.len() == 0 || (r.extension[0] == '.' && lacks(r.extension.drop_first(), '.')))
    &&& match r.version {
        VersionModel::Release(v) => {
            &&& lacks(v, '/')
            &&& !is_snapshot_version(v)
            &&& (r.extension.len() == 0 ==> r.classifier is Some && lacks(r.classifier->0, '.'))
        },
        VersionModel::Snapshot { base, timestamp, .. } => {
            &&& lacks(base, '/')
            &&& is_snapshot_version(base)
            &&& is_timestamp(timestamp)
            &&& r.extension.len() > 0
        },
    }
}

proof fn lemma_split_timestamp(c: Option<Seq<char>>, ts: Seq<char>)
    requires
        is_timestamp(ts),
    ensures
        split_timestamp(classifier_part(c).push('-') + ts) == Some((c, ts)),
{
    let rest = classifier_part(c).push('-') + ts;
    let n = rest.len();
    assert(rest.subrange(n - 15, n as int) =~= ts);
    assert(rest[n - 16] == '-');
    let raw = rest.subrange(0, n - 16);
    assert(raw =~= classifier_part(c));
    if let Some(s) = c {
        assert(raw.drop_first() =~= s);
    }
}

proof fn lemma_no_trailing_timestamp(x: Seq<char>, d: Seq<char>)
    requires
        1 <= d.len() <= 10,
        lacks(d, '-'),
    ensures
        split_timestamp(x.push('-') + d) is None,
{
    let rest = x.push('-') + d;
    let n = rest.len();
    if n >= 16 && rest[n - 16] == '-' && is_timestamp(rest.subrange(n - 15, n as int)) {
        let w = rest.subrange(n - 15, n as int);
        let k = 14 - d.len();
        assert(w[k] == rest[x.len() as int]);
        assert(w[k] == '-');
    }
}

proof fn lemma_digits_lack(d: Seq<char>, c: char)
    requires
        forall|i: int| 0 <= i < d.len() ==> is_digit(#[trigger] d[i]),
        !is_digit(c),
    ensures
        lacks(d, c),
{
}

/// Where `tail` is what follows `A-v` in a file name, `parse_file_name` splits
/// it at its last `.`.
proof fn lemma_file_name_prefix(a: Seq<char>, v: Seq<char>, tail: Seq<char>)
    requires
        tail.len() >= 1,
    ensures
        ({
            let f = a.push('-') + v + tail;
            &&& f.len() >= a.len() + v.len() + 2
            &&& starts_with(f, a.push('-'))
            &&& starts_with(f.subrange(a.len() + 1int, f.len() as int), v)
            &&& f.subrange(a.len() + 1int + v.len(), f.len() as int) == tail
        }),
{
    let f = a.push('-') + v + tail;
    assert(f.subrange(0, a.len() + 1int) =~= a.push('-'));
    let after = f.subrange(a.len() + 1int, f.len() as int);
    assert(after.subrange(0, v.len() as int) =~= v);
    assert(f.subrange(a.len() + 1int + v.len(), f.len() as int) =~= tail);
}

/// The last `.` of `rest + e` is that of `e`, when `e` is a `.` and no further `.`.
proof fn lemma_extension_split(rest: Seq<char>, e: Seq<char>)
    requires
        e.len() > 0,
        e[0] == '.',
        lacks(e.drop_first(), '.'),
    ensures
        last_index_of(rest + e, '.') == rest.len(),
        (rest + e).subrange(0, rest.len() as int) == rest,
        (rest + e).subrange(rest.len() as int, (rest + e).len() as int) == e,
{
    assert(rest + e =~= rest.push('.') + e.drop_first());
    lemma_last_separator(rest, '.', e.drop_first());
    assert((rest + e).subrange(0, rest.len() as int) =~= rest);
    assert((rest + e).subrange(rest.len() as int, (rest + e).len() as int) =~= e);
}

proof fn lemma_release_file_round_trip(
    a: Seq<char>,
    v: Seq<char>,
    c: Option<Seq<char>>,
    e: Seq<char>,
)
    requires
        !is_snapshot_version(v),
        e.len() == 0 || (e[0] == '.' && lacks(e.drop_first(), '.')),
        e.len() == 0 ==> c is Some && lacks(c->0, '.'),
    ensures
        parse_file_name(a.push('-') + v + classifier_part(c) + e, a, v) == Ok::<_, PathError>(
            (VersionModel::Release(v), c, e),
        ),
{
    let rest = classifier_part(c);
    let tail = rest + e;
    assert(a.push('-') + v + rest + e =~= a.push('-') + v + tail);
    if e.len() == 0 {
        assert(rest.len() >= 1);
    }
    lemma_file_name_prefix(a, v, tail);
    if e.len() > 0 {
        lemma_extension_split(rest, e);
    } else {
        let s = c->0;
        assert(e =~= Seq::<char>::empty());
        assert(tail =~= rest);
        assert(rest =~= seq!['-'] + s);
        assert forall|i: int| 0 <= i < rest.len() implies rest[i] != '.' by {
            if i > 0 {
                assert(rest[i] == s[i - 1]);
            }
        }
        lemma_no_separator(rest, '.');
    }
    if let Some(s) = c {
        assert(rest.drop_first() =~= s);
        assert(rest[0] == '-');
    } else {
        assert(rest.len() == 0);
    }
}

proof fn lemma_snapshot_tail_round_trip(c: Option<Seq<char>>, ts: Seq<char>, b: Option<u32>)
    requires
        is_timestamp(ts),
    ensures
        parse_snapshot_tail(classifier_part(c).push('-') + ts + build_number_part(b)) == Some(
            (c, ts, b),
        ),
{
    let x = classifier_part(c).push('-') + ts;
    lemma_split_timestamp(c, ts);
    match b {
        None => {
            assert(x + build_number_part(b) =~= x);
        },
        Some(n) => {
            let d = decimal(n as nat);
            let rest = x + build_number_part(b);
            lemma_decimal_u32(n);
            lemma_digits_lack(d, '-');
            assert(rest =~= x.push('-') + d);
            lemma_no_trailing_timestamp(x, d);
            lemma_last_separator(x, '-', d);
            assert(rest.subrange(x.len() + 1int, rest.len() as int) =~= d);
            assert(rest.subrange(0, x.len() as int) =~= x);
        },
    }
}

proof fn lemma_snapshot_file_round_trip(
    a: Seq<char>,
    base: Seq<char>,
    c: Option<Seq<char>>,
    ts: Seq<char>,
    b: Option<u32>,
    e: Seq<char>,
)
    requires
        is_snapshot_version(base),
        is_timestamp(ts),
        e.len() > 0,
        e[0] == '.',
        lacks(e.drop_first(), '.'),
    ensures
        parse_file_name(
            a.push('-') + base + classifier_part(c) + seq!['-'] + ts + build_number_part(b) + e,
            a,
            base,
        ) == Ok::<_, PathError>(
            (VersionModel::Snapshot { base, timestamp: ts, build_number: b }, c, e),
        ),
{
    let rest = classifier_part(c).push('-') + ts + build_number_part(b);
    let tail = rest + e;
    assert(a.push('-') + base + classifier_part(c) + seq!['-'] + ts + build_number_part(b) + e
        =~= a.push('-') + base + tail);
    lemma_file_name_prefix(a, base, tail);
    lemma_extension_split(rest, e);
    lemma_snapshot_tail_round_trip(c, ts, b);
}

/// Parsing the file name that the formatter writes gives back the version,
/// classifier and extension.
proof fn lemma_file_name_round_trip(r: ArtifactRefModel)
    requires
        is_formattable(r),
    ensures
        parse_file_name(file_name_of(r), r.artifact_id, version_string(r.version)) == Ok::<
            _,
            PathError,
        >((r.version, r.classifier, r.extension)),
{
    match r.version {
        VersionModel::Release(v) => {
            assert(file_name_of(r) =~= r.artifact_id.push('-') + v + classifier_part(r.classifier)
                + r.extension);
            lemma_release_file_round_trip(r.artifact_id, v, r.classifier, r.extension);
        },
        VersionModel::Snapshot { base, timestamp, build_number } => {
            assert(file_name_of(r) =~= r.artifact_id.push('-') + base + classifier_part(
                r.classifier,
            ) + seq!['-'] + timestamp + build_number_part(build_number) + r.extension);
            lemma_snapshot_file_round_trip(
                r.artifact_id,
                base,
                r.classifier,
                timestamp,
                build_number,
                r.extension,
            );
        },
    }
}

/// The file name that the formatter writes holds no `/`.
proof fn lemma_file_name_lacks_slash(r: ArtifactRefModel)
    requires
        is_formattable(r),
    ensures
        lacks(file_name_of(r), '/'),
{
    let f = file_name_of(r);
    let a = r.artifact_id;
    let cp = classifier_part(r.classifier);
    let e = r.extension;
    assert(lacks(cp, '/')) by {
        if let Some(s) = r.classifier {
            assert forall|i: int| 0 <= i < cp.len() implies cp[i] != '/' by {
                if i > 0 {
                    assert(cp[i] == s[i - 1]);
                }
            }
        }
    }
    match r.version {
        VersionModel::Release(v) => {
            assert forall|i: int| 0 <= i < f.len() implies f[i] != '/' by {
                let k = a.len() + 1 + v.len() + cp.len();
                if i < a.len() {
                    assert(f[i] == a[i]);
                } else if i == a.len() {
                } else if i < a.len() + 1 + v.len() {
                    assert(f[i] == v[i - a.len() - 1]);
                } else if i < k {
                    assert(f[i] == cp[i - a.len() - 1 - v.len()]);
                } else {
                    assert(f[i] == e[i - k]);
                }
            }
        },
        VersionModel::Snapshot { base, timestamp, build_number } => {
            let bp = build_number_part(build_number);
            assert(lacks(bp, '/')) by {
                if let Some(n) = build_number {
                    let d = decimal(n as nat);
                    lemma_decimal_u32(n);
                    assert forall|i: int| 0 <= i < bp.len() implies bp[i] != '/' by {
                        if i > 0 {
                            assert(bp[i] == d[i - 1]);
                        }
                    }
                }
            }
            let x = a.push('-') + base;
            let y = cp.push('-') + timestamp;
            assert(lacks(x, '/')) by {
                assert forall|i: int| 0 <= i < x.len() implies x[i] != '/' by {
                    if i > a.len() {
                        assert(x[i] == base[i - a.len() - 1]);
                    }
                }
            }
            assert(lacks(y, '/')) by {
                assert forall|i: int| 0 <= i < y.len() implies y[i] != '/' by {
                    if i > cp.len() {
                        assert(y[i] == timestamp[i - cp.len() - 1]);
                    }
                }
            }
            assert(f =~= x + y + bp + e);
            lemma_concat_lacks(x, y, '/');
            lemma_concat_lacks(x + y, bp, '/');
            lemma_concat_lacks(x + y + bp, e, '/');
        },
    }
}

proof fn lemma_concat_lacks(x: Seq<char>, y: Seq<char>, c: char)
    requires
        lacks(x, c),
        lacks(y, c),
    ensures
        lacks(x + y, c),
{
    assert forall|i: int| 0 <= i < (x + y).len() implies (x + y)[i] != c by {
        if i >= x.len() {
            assert((x + y)[i] == y[i - x.len()]);
        }
    }
}

/// `parse_path` on `g/a/v/f`, where none of `a`, `v`, `f` holds a `/`.
proof fn lemma_parse_path_segments(g: Seq<char>, a: Seq<char>, v: Seq<char>, f: Seq<char>)
    requires
        lacks(a, '/'),
        lacks(v, '/'),
        lacks(f, '/'),
    ensures
        parse_path(g.push('/') + a + seq!['/'] + v + seq!['/'] + f) == match parse_file_name(
            f,
            a,
            v,
        ) {
            Err(e) => Err(e),
            Ok((version, classifier, extension)) => Ok(
                ArtifactRefModel {
                    group_id: replace_all(g, '/', '.'),
                    artifact_id: a,
                    version,
                    classifier,
                    extension,
                },
            ),
        },
{
    let p = g.push('/') + a + seq!['/'] + v + seq!['/'] + f;
    let x2 = g.push('/') + a;
    let x3 = x2.push('/') + v;
    assert(p =~= x3.push('/') + f);
    lemma_last_separator(x3, '/', f);
    assert(p.subrange(0, x3.len() as int) =~= x3);
    lemma_last_separator(x2, '/', v);
    assert(x3.subrange(0, x2.len() as int) =~= x2);
    lemma_last_separator(g, '/', a);
    assert(x2.subrange(0, g.len() as int) =~= g);
    assert(p.subrange(0, x2.len() as int) =~= x2);
    assert(p.subrange(0, g.len() as int) =~= g);
    assert(p.subrange(g.len() + 1int, x2.len() as int) =~= a);
    assert(p.subrange(x2.len() + 1int, x3.len() as int) =~= v);
    assert(p.subrange(x3.len() + 1int, p.len() as int) =~= f);
}

/// Formatting and then parsing a reference gives back that reference, for every
/// reference that the formatter writes unambiguously.
pub proof fn lemma_path_round_trip(r: ArtifactRefModel)
    requires
        is_formattable(r),
    ensures
        parse_path(path_of(r)) == Ok::<_, PathError>(r),
{
    let g = replace_all(r.group_id, '.', '/');
    let v = version_string(r.version);
    let f = file_name_of(r);
    lemma_file_name_round_trip(r);
    lemma_file_name_lacks_slash(r);
    lemma_parse_path_segments(g, r.artifact_id, v, f);
    assert(path_of(r) =~= g.push('/') + r.artifact_id + seq!['/'] + v + seq!['/'] + f);
    assert(replace_all(g, '/', '.') =~= r.group_id);
}

} // verus!
