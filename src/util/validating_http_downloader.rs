//! The downloader's rules: where a request goes, which response headers carry
//! the expected digests, and which validators watch the body.
use vstd::prelude::*;

use hex::FromHex;

use crate::util::digests::{md5_of, sha1_of};
use crate::util::text::{chars_of, ends_with};
use crate::util::validating_http_body::{
    DigestValidator, HttpBodyValidator, Md5HttpBodyValidator, Sha1HttpBodyValidator,
    ValidatorSet,
};

verus! {

/// The `User-Agent` sent upstream (some upstreams refuse an empty one).
pub const USER_AGENT: &'static str = "curl/7.68.0";

/// Why a download could not start.
#[derive(Debug, Clone, Copy, PartialEq, Eq, Structural)]
pub enum DownloadError {
    /// the upstream answered with a status outside 200..=299
    UnsuccessfulStatus(u16),
    /// the SHA-1 header is not 40 hex digits
    MalformedSha1Header,
    /// the MD5 header is not 32 hex digits
    MalformedMd5Header,
    /// the base URI, with its trailing `/`, is not a URI
    InvalidBaseUri,
}

/// The response headers that may carry digests, as text.
pub struct DigestHeaders {
    pub x_checksum_sha1: Option<String>,
    pub x_goog_meta_checksum_sha1: Option<String>,
    pub etag: Option<String>,
    pub x_checksum_md5: Option<String>,
    pub x_goog_meta_checksum_md5: Option<String>,
}

/// The digests that the upstream announced for a body.
#[derive(Debug, Clone, Copy, PartialEq, Eq)]
pub struct ExpectedDigests {
    pub sha1: Option<[u8; 20]>,
    pub md5: Option<[u8; 16]>,
}

pub open spec fn opt_text(o: Option<String>) -> Option<Seq<char>> {
    match o {
        None => None,
        Some(s) => Some(s@),
    }
}

/// The first of the candidates that is present.
pub open spec fn first_present(
    a: Option<Seq<char>>,
    b: Option<Seq<char>>,
    c: Option<Seq<char>>,
) -> Option<Seq<char>> {
    if a is Some {
        a
    } else if b is Some {
        b
    } else {
        c
    }
}

/// A 42-character value is a quoted digest: its first and last characters go.
pub open spec fn unquoted(s: Seq<char>) -> Seq<char> {
    if s.len() == 42 {
        s.subrange(1, 41)
    } else {
        s
    }
}

/// The SHA-1 header text: `x-checksum-sha1`, else `x-goog-meta-checksum-sha1`,
/// else `etag`, unquoted.
pub open spec fn sha1_header_spec(h: DigestHeaders) -> Option<Seq<char>> {
    match first_present(
        opt_text(h.x_checksum_sha1),
        opt_text(h.x_goog_meta_checksum_sha1),
        opt_text(h.etag),
    ) {
        None => None,
        Some(s) => Some(unquoted(s)),
    }
}

/// The MD5 header text: `x-checksum-md5`, else `x-goog-meta-checksum-md5`.
pub open spec fn md5_header_spec(h: DigestHeaders) -> Option<Seq<char>> {
    first_present(opt_text(h.x_checksum_md5), opt_text(h.x_goog_meta_checksum_md5), None)
}

pub open spec fn hex_digit_value(c: char) -> Option<nat> {
    if '0' <= c && c <= '9' {
        Some(((c as u32) - ('0' as u32)) as nat)
    } else if 'a' <= c && c <= 'f' {
        Some(((c as u32) - ('a' as u32) + 10) as nat)
    } else if 'A' <= c && c <= 'F' {
        Some(((c as u32) - ('A' as u32) + 10) as nat)
    } else {
        None
    }
}

/// The `n` bytes that `2 * n` hex digits (either case) stand for, two digits per
/// byte, high digit first; none for any other text.
pub open spec fn hex_decode(s: Seq<char>, n: nat) -> Option<Seq<u8>> {
    if s.len() == 2 * n && forall|i: int| 0 <= i < s.len() ==> #[trigger] hex_digit_value(s[i]) is Some {
        Some(
            Seq::new(
                n,
                |i: int| (hex_digit_value(s[2 * i])->0 * 16 + hex_digit_value(s[2 * i + 1])->0) as u8,
            ),
        )
    } else {
        None
    }
}

#[verifier::external_type_specification]
#[verifier::external_body]
pub struct ExFromHexError(hex::FromHexError);

/// Relies on hex's `FromHex for [u8; 20]`: 40 hex digits, two per byte.
#[verifier::external_body]
fn sha1_from_hex(s: &str) -> (r: Result<[u8; 20], hex::FromHexError>)
    ensures
        match r {
            Ok(b) => hex_decode(s@, 20) == Some(b@),
            Err(_) => hex_decode(s@, 20) is None,
        },
{
    <[u8; 20]>::from_hex(s)
}

/// Relies on hex's `FromHex for [u8; 16]`: 32 hex digits, two per byte.
#[verifier::external_body]
fn md5_from_hex(s: &str) -> (r: Result<[u8; 16], hex::FromHexError>)
    ensures
        match r {
            Ok(b) => hex_decode(s@, 16) == Some(b@),
            Err(_) => hex_decode(s@, 16) is None,
        },
{
    <[u8; 16]>::from_hex(s)
}

/// Whether http's URI parser (behind `hyper::Uri`) accepts the text.
pub uninterp spec fn uri_accepts(s: Seq<char>) -> bool;

/// Relies on `hyper::Uri::try_from(String)`: whether the text parses as a URI.
#[verifier::external_body]
fn uri_parses(s: &String) -> (r: bool)
    ensures
        r == uri_accepts(s@),
{
    hyper::Uri::try_from(s.clone()).is_ok()
}

/// The base URI with its trailing `/`, if that is a URI.
pub fn checked_base_uri(base_uri: String) -> (r: Result<String, DownloadError>)
    ensures
        match r {
            Ok(u) => u@ == normalized_uri(base_uri@) && uri_accepts(u@),
            Err(e) => e == DownloadError::InvalidBaseUri && !uri_accepts(normalized_uri(base_uri@)),
        },
{
    let u = normalize_base_uri(base_uri);
    if uri_parses(&u) {
        Ok(u)
    } else {
        Err(DownloadError::InvalidBaseUri)
    }
}

/// `s` with a `/` added at its end if it has none there.
pub open spec fn normalized_uri(s: Seq<char>) -> Seq<char> {
    if ends_with(s, seq!['/']) {
        s
    } else {
        s.push('/')
    }
}

/// The base URI with exactly the `/` it needs at its end added.
pub fn normalize_base_uri(base_uri: String) -> (r: String)
    ensures
        r@ == normalized_uri(base_uri@),
{
    proof {
        reveal_strlit("/");
    }
    let c = chars_of(base_uri.as_str());
    let mut r = base_uri;
    if c.len() == 0 || c[c.len() - 1] != '/' {
        r.append("/");
        proof {
            if c@.len() > 0 {
                assert(c@.subrange(c@.len() - 1, c@.len() as int)[0] == c@[c@.len() - 1]);
            }
        }
        assert(r@ =~= base_uri@.push('/'));
    } else {
        assert(c@.subrange(c@.len() - 1, c@.len() as int) =~= seq!['/']);
    }
    r
}

/// The URL of a path below a base URI that ends in `/`.
pub fn request_url(base_uri: &str, path: &str) -> (r: String)
    ensures
        r@ == base_uri@ + path@,
{
    let mut r = String::from_str(base_uri);
    r.append(path);
    r
}

/// Whether a response status lets the download go on.
pub fn check_status(status: u16) -> (r: Result<(), DownloadError>)
    ensures
        r is Ok <==> 200 <= status <= 299,
        r is Err ==> r == Err::<(), _>(DownloadError::UnsuccessfulStatus(status)),
{
    if 200 <= status && status <= 299 {
        Ok(())
    } else {
        Err(DownloadError::UnsuccessfulStatus(status))
    }
}

fn first_of<'a>(a: &'a Option<String>, b: &'a Option<String>, c: &'a Option<String>) -> (r: Option<&'a String>)
    ensures
        match r {
            None => first_present(opt_text(*a), opt_text(*b), opt_text(*c)) is None,
            Some(s) => first_present(opt_text(*a), opt_text(*b), opt_text(*c)) == Some(s@),
        },
{
    match a {
        Some(s) => Some(s),
        None => match b {
            Some(s) => Some(s),
            None => match c {
                Some(s) => Some(s),
                None => None,
            },
        },
    }
}

/// The text of the header that carries the expected SHA-1 digest.
pub fn sha1_header(headers: &DigestHeaders) -> (r: Option<String>)
    ensures
        opt_text(r) == sha1_header_spec(*headers),
{
    match first_of(&headers.x_checksum_sha1, &headers.x_goog_meta_checksum_sha1, &headers.etag) {
        None => None,
        Some(s) => {
            let c = chars_of(s.as_str());
            if c.len() == 42 {
                Some(crate::util::text::substring(s.as_str(), 1, 41))
            } else {
                Some(s.clone())
            }
        },
    }
}

/// The text of the header that carries the expected MD5 digest.
pub fn md5_header(headers: &DigestHeaders) -> (r: Option<String>)
    ensures
        opt_text(r) == md5_header_spec(*headers),
{
    match first_of(&headers.x_checksum_md5, &headers.x_goog_meta_checksum_md5, &None) {
        None => None,
        Some(s) => Some(s.clone()),
    }
}

/// The digests that the headers announce; a header that is present but not
/// hex of the right length is an error.
pub fn expected_digests(headers: &DigestHeaders) -> (r: Result<ExpectedDigests, DownloadError>)
    ensures
        match r {
            Ok(d) => {
                &&& (match sha1_header_spec(*headers) {
                    None => d.sha1 is None,
                    Some(t) => d.sha1 is Some && hex_decode(t, 20) == Some(d.sha1->0@),
                })
                &&& (match md5_header_spec(*headers) {
                    None => d.md5 is None,
                    Some(t) => d.md5 is Some && hex_decode(t, 16) == Some(d.md5->0@),
                })
            },
            Err(e) => {
                ||| (e == DownloadError::MalformedSha1Header && sha1_header_spec(*headers) is Some
                    && hex_decode(sha1_header_spec(*headers)->0, 20) is None)
                ||| (e == DownloadError::MalformedMd5Header && md5_header_spec(*headers) is Some
                    && hex_decode(md5_header_spec(*headers)->0, 16) is None
                    && (sha1_header_spec(*headers) is None || hex_decode(
                    sha1_header_spec(*headers)->0,
                    20,
                ) is Some))
            },
        },
        r is Err <==> ((sha1_header_spec(*headers) is Some && hex_decode(
            sha1_header_spec(*headers)->0,
            20,
        ) is None) || (md5_header_spec(*headers) is Some && hex_decode(
            md5_header_spec(*headers)->0,
            16,
        ) is None)),
{
    let sha1 = match sha1_header(headers) {
        None => None,
        Some(t) => match sha1_from_hex(t.as_str()) {
            Ok(b) => Some(b),
            Err(_) => {
                return Err(DownloadError::MalformedSha1Header);
            },
        },
    };
    let md5 = match md5_header(headers) {
        None => None,
        Some(t) => match md5_from_hex(t.as_str()) {
            Ok(b) => Some(b),
            Err(_) => {
                return Err(DownloadError::MalformedMd5Header);
            },
        },
    };
    Ok(ExpectedDigests { sha1, md5 })
}

/// The validators for the expected digests: one per digest that is known.
pub fn validators_for(expected: &ExpectedDigests) -> (r: ValidatorSet)
    ensures
        forall|body: Seq<u8>| #[trigger]
            r.passes_after(body) == ((expected.sha1 is Some ==> sha1_of(body)
                == expected.sha1->0@) && (expected.md5 is Some ==> md5_of(body)
                == expected.md5->0@)),
{
    let mut validators: Vec<DigestValidator> = Vec::new();
    match expected.sha1 {
        Some(h) => validators.push(DigestValidator::Sha1(Sha1HttpBodyValidator::new(h))),
        None => {},
    }
    match expected.md5 {
        Some(h) => validators.push(DigestValidator::Md5(Md5HttpBodyValidator::new(h))),
        None => {},
    }
    let r = ValidatorSet { validators };
    assert forall|body: Seq<u8>| #[trigger]
        r.passes_after(body) == ((expected.sha1 is Some ==> sha1_of(body) == expected.sha1->0@)
            && (expected.md5 is Some ==> md5_of(body) == expected.md5->0@)) by {
        if expected.sha1 is Some {
            assert(r.validators@[0].passes_after(body) == (sha1_of(body) == expected.sha1->0@));
        }
        if expected.md5 is Some {
            let k = r.validators@.len() - 1;
            assert(r.validators@[k].passes_after(body) == (md5_of(body) == expected.md5->0@));
        }
    }
    r
}

} // verus!
