use maven_cache::util::validating_http_downloader::{
    check_status, expected_digests, md5_header, normalize_base_uri, request_url, sha1_header,
    DigestHeaders, DownloadError, USER_AGENT,
};

fn headers(a: Option<&str>, b: Option<&str>, etag: Option<&str>, m1: Option<&str>, m2: Option<&str>) -> DigestHeaders {
    DigestHeaders {
        x_checksum_sha1: a.map(|s| s.to_string()),
        x_goog_meta_checksum_sha1: b.map(|s| s.to_string()),
        etag: etag.map(|s| s.to_string()),
        x_checksum_md5: m1.map(|s| s.to_string()),
        x_goog_meta_checksum_md5: m2.map(|s| s.to_string()),
    }
}

const ABC_SHA1_HEX: &str = "a9993e364706816aba3e25717850c26c9cd0d89d";

#[test]
fn sha1_header_priority() {
    assert_eq!(sha1_header(&headers(Some("1"), Some("2"), Some("3"), None, None)), Some("1".to_string()));
    assert_eq!(sha1_header(&headers(None, Some("2"), Some("3"), None, None)), Some("2".to_string()));
    assert_eq!(sha1_header(&headers(None, None, Some("3"), None, None)), Some("3".to_string()));
    assert_eq!(sha1_header(&headers(None, None, None, Some("m"), None)), None);
}

#[test]
fn quoted_etag_is_unquoted() {
    let quoted = format!("\"{}\"", ABC_SHA1_HEX);
    assert_eq!(sha1_header(&headers(None, None, Some(&quoted), None, None)), Some(ABC_SHA1_HEX.to_string()));
}

#[test]
fn md5_header_priority() {
    assert_eq!(md5_header(&headers(None, None, None, Some("a"), Some("b"))), Some("a".to_string()));
    assert_eq!(md5_header(&headers(None, None, None, None, Some("b"))), Some("b".to_string()));
    assert_eq!(md5_header(&headers(Some("x"), None, None, None, None)), None);
}

#[test]
fn digests_are_decoded() {
    let d = expected_digests(&headers(Some("A9993E364706816ABA3E25717850C26C9CD0D89D"), None, None, Some("900150983cd24fb0d6963f7d28e17f72"), None)).unwrap();
    assert_eq!(d.sha1.unwrap()[0], 0xa9);
    assert_eq!(d.sha1.unwrap()[19], 0x9d);
    assert_eq!(d.md5.unwrap()[0], 0x90);
    assert_eq!(d.md5.unwrap()[15], 0x72);
}

#[test]
fn malformed_digest_headers_fail() {
    assert_eq!(expected_digests(&headers(Some("xyz"), None, None, None, None)), Err(DownloadError::MalformedSha1Header));
    assert_eq!(expected_digests(&headers(None, None, Some("\"not-a-digest\""), None, None)), Err(DownloadError::MalformedSha1Header));
    assert_eq!(expected_digests(&headers(None, None, None, Some("1234"), None)), Err(DownloadError::MalformedMd5Header));
}

#[test]
fn no_digest_headers() {
    let d = expected_digests(&headers(None, None, None, None, None)).unwrap();
    assert_eq!(d.sha1, None);
    assert_eq!(d.md5, None);
}

#[test]
fn base_uri_gets_one_trailing_slash() {
    assert_eq!(normalize_base_uri("https://repo1.maven.org/maven2".to_string()), "https://repo1.maven.org/maven2/");
    assert_eq!(normalize_base_uri("https://repo1.maven.org/maven2/".to_string()), "https://repo1.maven.org/maven2/");
    assert_eq!(normalize_base_uri(String::new()), "/");
}

#[test]
fn request_url_joins() {
    assert_eq!(request_url("https://h/m/", "org/a/1/a-1.jar"), "https://h/m/org/a/1/a-1.jar");
    assert_eq!(USER_AGENT, "curl/7.68.0");
}

#[test]
fn status_check() {
    assert_eq!(check_status(200), Ok(()));
    assert_eq!(check_status(299), Ok(()));
    assert_eq!(check_status(500), Err(DownloadError::UnsuccessfulStatus(500)));
    assert_eq!(check_status(404), Err(DownloadError::UnsuccessfulStatus(404)));
    assert_eq!(check_status(199), Err(DownloadError::UnsuccessfulStatus(199)));
}
