use cert_monitor::certificate::{Certificate, Extension};
use cert_monitor::der::{push_value, read_value, read_value_within, Value};
use cert_monitor::ocsp::{
    build_ocsp_request, check_ocsp_status, extract_ocsp_url, ocsp_query, parse_ocsp_response,
    OcspReply,
};
use cert_monitor::types::OcspStatus;

fn value(identifier: u8, content: &[u8]) -> Vec<u8> {
    let mut out = Vec::new();
    push_value(&mut out, identifier, content);
    out
}

fn concat(parts: &[Vec<u8>]) -> Vec<u8> {
    parts.iter().flatten().copied().collect()
}

fn certificate_id() -> Vec<u8> {
    value(0x30, &concat(&[
        value(0x30, &[]),
        value(0x04, &[1; 20]),
        value(0x04, &[2; 20]),
        value(0x02, &[5]),
    ]))
}

fn response(responder: Vec<u8>, answers: Vec<u8>) -> Vec<u8> {
    let basic = value(0x30, &concat(&[
        responder,
        value(0x18, b"20240101000000Z"),
        value(0x30, &answers),
    ]));
    value(0x30, &concat(&[value(0x0a, &[0]), value(0xa0, &basic)]))
}

fn by_name() -> Vec<u8> {
    value(0xa1, &value(0x04, b"responder"))
}

fn answer(status: Vec<u8>) -> Vec<u8> {
    value(0x30, &concat(&[certificate_id(), status]))
}

fn plain_certificate() -> Certificate {
    Certificate {
        subject: Ok("CN=x".to_string()),
        issuer: Ok("CN=y".to_string()),
        not_before: 0,
        not_after: 0,
        extensions: Vec::new(),
        signed_part: None,
        encoding: Ok(Vec::new()),
        signature_algorithm: Vec::new(),
        public_key: b"key".to_vec(),
        subject_name: b"name".to_vec(),
        issuer_name: Vec::new(),
        serial: vec![0x01, 0x02],
    }
}

#[test]
fn values_are_read_back_as_written() {
    for n in [0usize, 1, 127, 128, 255, 256, 65_535, 65_536, 70_000] {
        let content = vec![7u8; n];
        let mut input = value(0xa3, &content);
        input.extend_from_slice(b"rest");
        match read_value(&input, 0x83) {
            Value::Value { constructed, content: read, lacking, after } => {
                assert!(constructed);
                assert_eq!(lacking, 0);
                assert_eq!(read, &content[..]);
                assert_eq!(after, b"rest");
            }
            _ => panic!("no value with {} octets", n),
        }
        assert!(matches!(read_value(&input, 0x82), Value::Absent));
    }
    assert_eq!(value(0x04, &[9; 200])[..3], [0x04, 0x81, 200]);
    assert_eq!(value(0x04, &[9; 300])[..4], [0x04, 0x82, 1, 44]);
}

#[test]
fn lengths_are_as_short_as_can_be() {
    assert!(matches!(read_value(&[0x04, 0x81, 0x01, 0x00], 0x04), Value::Broken { .. }));
    assert!(matches!(read_value(&[0x04, 0x82, 0x00, 0x80], 0x04), Value::Broken { .. }));
    assert!(matches!(read_value(&[0x04, 0x80, 0x00, 0x00], 0x04), Value::Broken { .. }));
    assert!(matches!(read_value(&[0x04, 0x85, 1, 0, 0, 0, 0], 0x04), Value::Broken { .. }));
    assert!(matches!(read_value(&[0x04, 0x02, 0x00], 0x04), Value::Broken { .. }));
    assert!(matches!(
        read_value_within(&[0x04, 0x02, 0x00], 1, 0x04),
        Value::Value { constructed: false, content: [0x00], lacking: 1, after: [] }
    ));
    assert!(matches!(read_value_within(&[0x04, 0x03, 0x00], 1, 0x04), Value::Broken { .. }));
    assert!(matches!(read_value(&[0x04], 0x04), Value::Broken { .. }));
    assert!(matches!(read_value(&[], 0x04), Value::Absent));
    assert!(matches!(read_value(&[0x1f, 0x81, 0x01], 0x04), Value::Absent));
    assert!(matches!(read_value(&[0x1f, 0x81, 0x81, 0x81, 0x01], 0x04), Value::Broken { .. }));
}

#[test]
fn good_and_revoked_answers_are_told_apart() {
    let good = response(by_name(), answer(value(0xa0, &[])));
    assert_eq!(parse_ocsp_response(&good), OcspStatus::Good);
    let revoked = response(by_name(), answer(value(0xa1, &value(0x18, b"20240101000000Z"))));
    assert_eq!(parse_ocsp_response(&revoked), OcspStatus::Revoked);
    let with_reason = response(
        by_name(),
        answer(value(0xa1, &concat(&[value(0x18, b"20240101000000Z"), value(0x0a, &[1])]))),
    );
    assert_eq!(parse_ocsp_response(&with_reason), OcspStatus::Revoked);
    let unknown = response(by_name(), answer(value(0x18, b"20240101000000Z")));
    assert_eq!(parse_ocsp_response(&unknown), OcspStatus::Unknown);
}

#[test]
fn responders_may_be_left_out_or_versioned() {
    let anonymous = response(Vec::new(), answer(value(0xa0, &[])));
    assert_eq!(parse_ocsp_response(&anonymous), OcspStatus::Good);
    let versioned = response(
        concat(&[value(0xa0, &value(0x02, &[0])), by_name()]),
        answer(value(0xa0, &[])),
    );
    assert_eq!(parse_ocsp_response(&versioned), OcspStatus::Good);
    let bad_version = response(
        concat(&[value(0xa0, &value(0x02, &[0, 1])), by_name()]),
        answer(value(0xa0, &[])),
    );
    assert_eq!(parse_ocsp_response(&bad_version), OcspStatus::Unknown);
}

#[test]
fn reading_goes_on_inside_a_responder_that_does_not_read() {
    // The element numbered 1 holds no octet string, but the rest of a response.
    let inside = concat(&[
        value(0xa2, &value(0x30, &[])),
        value(0x18, b"20240101000000Z"),
        value(0x30, &answer(value(0xa0, &[]))),
    ]);
    let basic = value(0x30, &value(0xa1, &inside));
    let whole = value(0x30, &concat(&[value(0x0a, &[0]), value(0xa0, &basic)]));
    assert_eq!(parse_ocsp_response(&whole), OcspStatus::Good);
}

#[test]
fn anything_else_says_nothing() {
    assert_eq!(parse_ocsp_response(&[]), OcspStatus::Unknown);
    assert_eq!(parse_ocsp_response(b"<html>"), OcspStatus::Unknown);
    let good = response(by_name(), answer(value(0xa0, &[])));
    assert_eq!(parse_ocsp_response(&good[..good.len() - 1]), OcspStatus::Unknown);
    let mut followed = good.clone();
    followed.push(0);
    assert_eq!(parse_ocsp_response(&followed), OcspStatus::Good);
    let two = response(
        by_name(),
        concat(&[answer(value(0xa0, &[])), answer(value(0xa0, &[]))]),
    );
    assert_eq!(parse_ocsp_response(&two), OcspStatus::Unknown);
    assert_eq!(parse_ocsp_response(&response(by_name(), Vec::new())), OcspStatus::Unknown);
    assert_eq!(parse_ocsp_response(&value(0x30, &value(0x0a, &[6]))), OcspStatus::Unknown);
    let full_status = response(by_name(), answer(value(0xa0, &[0x05, 0x00])));
    assert_eq!(parse_ocsp_response(&full_status), OcspStatus::Unknown);
}

#[test]
fn replies_count_only_with_success_and_body() {
    let good = response(by_name(), answer(value(0xa0, &[])));
    let reply = OcspReply::Reply { success: true, body: Some(good.clone()) };
    assert_eq!(check_ocsp_status(&reply), OcspStatus::Good);
    let failed = OcspReply::Reply { success: false, body: Some(good) };
    assert_eq!(check_ocsp_status(&failed), OcspStatus::Unknown);
    let no_body = OcspReply::Reply { success: true, body: None };
    assert_eq!(check_ocsp_status(&no_body), OcspStatus::Unknown);
    assert_eq!(check_ocsp_status(&OcspReply::Nothing), OcspStatus::Unknown);
}

fn description(method: &[u8], location: Option<&[u8]>) -> Vec<u8> {
    let mut content = value(0x06, method);
    if let Some(location) = location {
        content.extend(value(0xa6, &value(0x16, location)));
    }
    value(0x30, &content)
}

const OCSP: [u8; 8] = [43, 6, 1, 5, 5, 7, 48, 1];
const AIA: [u8; 8] = [43, 6, 1, 5, 5, 7, 1, 1];

#[test]
fn responders_are_found_in_extensions() {
    let other = description(&[43, 6, 1, 5, 5, 7, 48, 2], None);
    let ocsp = description(&OCSP, Some(b"http://ocsp.test/"));
    let mut certificate = plain_certificate();
    certificate.extensions.push(Extension { id: vec![85, 29, 17], value: vec![1, 2] });
    assert_eq!(extract_ocsp_url(&certificate), None);
    certificate.extensions.push(Extension { id: AIA.to_vec(), value: vec![0x30, 0x05] });
    assert_eq!(extract_ocsp_url(&certificate), None);
    certificate.extensions.push(Extension {
        id: AIA.to_vec(),
        value: value(0x30, &concat(&[other.clone(), ocsp.clone()])),
    });
    assert_eq!(extract_ocsp_url(&certificate), Some("http://ocsp.test/".to_string()));
    let mut last_counts = plain_certificate();
    last_counts.extensions.push(Extension {
        id: AIA.to_vec(),
        value: value(0x30, &concat(&[ocsp, other])),
    });
    assert_eq!(extract_ocsp_url(&last_counts), None);
    let mut not_ascii = plain_certificate();
    not_ascii.extensions.push(Extension {
        id: AIA.to_vec(),
        value: value(0x30, &description(&OCSP, Some(&[0xc3, 0xa9]))),
    });
    assert_eq!(extract_ocsp_url(&not_ascii), None);
}

#[test]
fn requests_hold_digests_and_serial_number() {
    let name_digest = [
        0x6a, 0xe9, 0x99, 0x55, 0x2a, 0x0d, 0x2d, 0xca, 0x14, 0xd6, 0x2e, 0x2b, 0xc8, 0xb7, 0x64,
        0xd3, 0x77, 0xb1, 0xdd, 0x6c,
    ];
    let key_digest = [
        0xa6, 0x2f, 0x22, 0x25, 0xbf, 0x70, 0xbf, 0xac, 0xcb, 0xc7, 0xf1, 0xef, 0x2a, 0x39, 0x78,
        0x36, 0x71, 0x73, 0x77, 0xde,
    ];
    let mut expected = vec![0x30, 0x43, 0x30, 0x0d, 0x06, 0x09, 43, 6, 1, 5, 5, 7, 48, 1, 1];
    expected.extend([0x05, 0x00, 0x30, 0x32, 0x30, 0x30, 0x04, 0x14]);
    expected.extend(name_digest);
    expected.extend([0x04, 0x14]);
    expected.extend(key_digest);
    expected.extend([0x02, 0x02, 0x01, 0x02]);
    let leaf = plain_certificate();
    let issuer = plain_certificate();
    assert_eq!(build_ocsp_request(&leaf, &issuer), Some(expected));
    let mut nameless = plain_certificate();
    nameless.subject_name = Vec::new();
    assert_eq!(build_ocsp_request(&leaf, &nameless), None);
    let mut odd = plain_certificate();
    odd.serial = vec![0x00, 0x01];
    assert_eq!(build_ocsp_request(&odd, &issuer), None);
    odd.serial = Vec::new();
    assert_eq!(build_ocsp_request(&odd, &issuer), None);
}

#[test]
fn questions_need_responder_and_issuer() {
    let mut leaf = plain_certificate();
    let chain = vec![b"leaf".to_vec(), b"not a certificate".to_vec()];
    assert!(ocsp_query(&leaf, &chain).is_none());
    leaf.extensions.push(Extension {
        id: AIA.to_vec(),
        value: value(0x30, &description(&OCSP, Some(b"http://ocsp.test/"))),
    });
    assert!(ocsp_query(&leaf, &vec![b"leaf".to_vec()]).is_none());
    assert!(ocsp_query(&leaf, &chain).is_none());
    let (issuer, _) = x509_certificate::X509CertificateBuilder::default()
        .create_with_random_keypair(x509_certificate::KeyAlgorithm::Ed25519)
        .unwrap();
    let der = issuer.constructed_data().to_vec();
    let query = ocsp_query(&leaf, &vec![b"leaf".to_vec(), der.clone()]).unwrap();
    assert_eq!(query.url, "http://ocsp.test/");
    let read = Certificate::from_der(&der).unwrap();
    assert_eq!(Some(query.request), build_ocsp_request(&leaf, &read));
}
