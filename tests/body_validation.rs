use maven_cache::util::validating_http_body::{
    BodyError, HttpBodyValidator, Md5HttpBodyValidator, NopHttpBodyValidator,
    Sha1HttpBodyValidator, ValidatingHttpBody,
};
use maven_cache::util::validating_http_downloader::{validators_for, ExpectedDigests};

const ABC_SHA1: [u8; 20] = [
    0xa9, 0x99, 0x3e, 0x36, 0x47, 0x06, 0x81, 0x6a, 0xba, 0x3e, 0x25, 0x71, 0x78, 0x50, 0xc2, 0x6c,
    0x9c, 0xd0, 0xd8, 0x9d,
];
const ABC_MD5: [u8; 16] = [
    0x90, 0x01, 0x50, 0x98, 0x3c, 0xd2, 0x4f, 0xb0, 0xd6, 0x96, 0x3f, 0x7d, 0x28, 0xe1, 0x7f, 0x72,
];

#[test]
fn sha1_validator_accepts_chunked_body() {
    let mut v = Sha1HttpBodyValidator::new(ABC_SHA1);
    v.add_data(b"a");
    v.add_data(b"bc");
    assert!(v.do_validate());
}

#[test]
fn sha1_validator_rejects_other_body() {
    let mut v = Sha1HttpBodyValidator::new(ABC_SHA1);
    v.add_data(b"abd");
    assert!(!v.do_validate());
}

#[test]
fn md5_validator() {
    let mut v = Md5HttpBodyValidator::new(ABC_MD5);
    v.add_data(b"ab");
    v.add_data(b"c");
    assert!(v.do_validate());
    let mut w = Md5HttpBodyValidator::new(ABC_MD5);
    w.add_data(b"abc!");
    assert!(!w.do_validate());
}

#[test]
fn nop_validator_accepts_anything() {
    let mut v = NopHttpBodyValidator {};
    v.add_data(b"whatever");
    assert!(v.do_validate());
}

#[test]
fn body_with_matching_digest_ends_cleanly() {
    let expected = ExpectedDigests { sha1: Some(ABC_SHA1), md5: Some(ABC_MD5) };
    let mut body = ValidatingHttpBody::new(validators_for(&expected));
    assert_eq!(body.poll_next(Some(Ok(b"ab".to_vec()))), Some(Ok(b"ab".to_vec())));
    assert_eq!(body.poll_next(Some(Ok(b"c".to_vec()))), Some(Ok(b"c".to_vec())));
    assert!(body.needs_upstream());
    assert_eq!(body.poll_next(None), None);
}

#[test]
fn body_with_mutated_byte_ends_in_error_and_stays_failed() {
    let expected = ExpectedDigests { sha1: Some(ABC_SHA1), md5: None };
    let mut body = ValidatingHttpBody::new(validators_for(&expected));
    assert_eq!(body.poll_next(Some(Ok(b"abX".to_vec()))), Some(Ok(b"abX".to_vec())));
    assert_eq!(body.poll_next(None), Some(Err(BodyError::FailedValidation)));
    assert!(!body.needs_upstream());
    assert_eq!(body.poll_next(None), Some(Err(BodyError::PollingFromFailedStream)));
    assert_eq!(body.poll_next(Some(Ok(b"more".to_vec()))), Some(Err(BodyError::PollingFromFailedStream)));
}

#[test]
fn md5_mismatch_alone_fails_the_body() {
    let expected = ExpectedDigests { sha1: Some(ABC_SHA1), md5: Some([0u8; 16]) };
    let mut body = ValidatingHttpBody::new(validators_for(&expected));
    assert_eq!(body.poll_next(Some(Ok(b"abc".to_vec()))), Some(Ok(b"abc".to_vec())));
    assert_eq!(body.poll_next(None), Some(Err(BodyError::FailedValidation)));
}

#[test]
fn upstream_error_fails_the_body() {
    let mut body = ValidatingHttpBody::new(NopHttpBodyValidator {});
    assert_eq!(body.poll_next(Some(Err("connection reset".to_string()))), Some(Err(BodyError::Upstream("connection reset".to_string()))));
    assert_eq!(body.poll_next(None), Some(Err(BodyError::PollingFromFailedStream)));
}

#[test]
fn body_without_digests_passes() {
    let expected = ExpectedDigests { sha1: None, md5: None };
    let mut body = ValidatingHttpBody::new(validators_for(&expected));
    assert_eq!(body.poll_next(Some(Ok(b"anything".to_vec()))), Some(Ok(b"anything".to_vec())));
    assert_eq!(body.poll_next(None), None);
}
