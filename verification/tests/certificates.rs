use cert_monitor::certificate::{
    compute_sha256_fingerprint, extract_san, verify_certificate_signature, verify_chain_complete,
    verify_chain_links, Certificate, Extension, SignatureError,
};
use cert_monitor::clock::Timestamp;
use cert_monitor::config::{Config, GlobalConfig};
use cert_monitor::der::push_value;
use cert_monitor::ocsp::OcspReply;
use cert_monitor::scanner::{
    describe_stored, examine_certificates, extract_domain_from_pem, load_cert_from_pem,
    names_certificate, Scanner,
};
use cert_monitor::types::OcspStatus;
use std::sync::Arc;
use x509_certificate::{CapturedX509Certificate, KeyAlgorithm, X509CertificateBuilder};

fn issued(name: &str) -> CapturedX509Certificate {
    let mut builder = X509CertificateBuilder::default();
    builder.subject().append_common_name_utf8_string(name).unwrap();
    builder.subject().append_country_utf8_string("CN").unwrap();
    builder.issuer().append_common_name_utf8_string("Authority").unwrap();
    builder.serial_number(42);
    builder.add_extension_der_data(
        bcder::Oid(vec![85u8, 29, 17].into()),
        false,
        names(&[dns(b"example.com"), dns(b"www.example.com")]),
    );
    builder.create_with_random_keypair(KeyAlgorithm::Ed25519).unwrap().0
}

fn value(identifier: u8, content: &[u8]) -> Vec<u8> {
    let mut out = Vec::new();
    push_value(&mut out, identifier, content);
    out
}

fn dns(name: &[u8]) -> Vec<u8> {
    value(0xa2, &value(0x16, name))
}

fn ip(octets: &[u8]) -> Vec<u8> {
    value(0xa7, &value(0x04, octets))
}

fn names(list: &[Vec<u8>]) -> Vec<u8> {
    let content: Vec<u8> = list.iter().flatten().copied().collect();
    value(0x30, &content)
}

fn plain_certificate() -> Certificate {
    Certificate {
        subject: Ok("CN=x".to_string()),
        issuer: Ok("CN=y".to_string()),
        not_before: 1_000,
        not_after: 2_000,
        extensions: Vec::new(),
        signed_part: Some(b"signed part".to_vec()),
        encoding: Ok(vec![0; 40]),
        signature_algorithm: vec![42, 134, 72, 206, 61, 4, 3, 2],
        public_key: Vec::new(),
        subject_name: b"name".to_vec(),
        issuer_name: b"name".to_vec(),
        serial: vec![1],
    }
}

fn with_names(value: Vec<u8>) -> Certificate {
    let mut certificate = plain_certificate();
    certificate.extensions.push(Extension { id: vec![85, 29, 17], value });
    certificate
}

fn scanner() -> Scanner {
    Scanner::new(Arc::new(Config {
        global: GlobalConfig {
            state_file: None,
            concurrency: None,
            connect_timeout: None,
            acme_account_email: String::new(),
            acme_directory: None,
            default_dns_provider: None,
            renew_threshold_days: None,
            hook_timeout: None,
            notification_debounce_hours: None,
            smtp: None,
            slack: None,
            dingtalk: None,
        },
        domains: Vec::new(),
        sources: None,
    }))
}

#[test]
fn fingerprints_are_digests_in_hexadecimal() {
    assert_eq!(
        compute_sha256_fingerprint(b"abc"),
        "ba:78:16:bf:8f:01:cf:ea:41:41:40:de:5d:ae:22:23:b0:03:61:a3:96:17:7a:9c:b4:10:ff:61:f2:00:15:ad"
    );
}

#[test]
fn certificates_are_read() {
    let captured = issued("example.com");
    let der = captured.constructed_data();
    let read = Certificate::from_der(der).unwrap();
    assert_eq!(read.subject, Ok("CN=example.com, C=CN".to_string()));
    assert_eq!(read.issuer, Ok(captured.issuer_name().user_friendly_str().unwrap()));
    assert_eq!(read.not_before, captured.validity_not_before().timestamp());
    assert_eq!(read.not_after, captured.validity_not_after().timestamp());
    assert_eq!(read.serial, vec![42]);
    assert_eq!(read.public_key, captured.public_key_data().to_vec());
    assert_eq!(read.signature_algorithm, vec![43, 101, 112]);
    assert_eq!(read.encoding.as_deref(), Ok(&captured.encode_der().unwrap()[..]));
    let tbs = read.signed_part.unwrap();
    assert!(der.windows(tbs.len()).any(|w| w == &tbs[..]));
    assert!(der.windows(read.subject_name.len()).any(|w| w == &read.subject_name[..]));
    assert!(der.windows(read.issuer_name.len()).any(|w| w == &read.issuer_name[..]));
    assert!(read.extensions.iter().any(|e| e.id == vec![85, 29, 17]));
    let from_pem = Certificate::from_pem(captured.encode_pem().as_bytes()).unwrap();
    assert_eq!(from_pem.serial, vec![42]);
    assert_eq!(from_pem.subject, read.subject);
}

#[test]
fn what_is_no_certificate_is_refused_with_a_reason() {
    assert!(!Certificate::from_der(b"junk").unwrap_err().is_empty());
    assert!(!Certificate::from_pem(b"junk").unwrap_err().is_empty());
}

#[test]
fn names_are_taken_from_their_extension() {
    let read = Certificate::from_der(issued("example.com").constructed_data()).unwrap();
    assert_eq!(extract_san(&read), vec!["example.com", "www.example.com"]);
    assert_eq!(extract_san(&plain_certificate()), Vec::<String>::new());
    let mixed = names(&[
        dns(b"a.com"),
        ip(b"10.0"),
        ip(&[0xff, 0xfe]),
        value(0xa6, &value(0x16, b"http://x")),
        dns(b"b.com"),
    ]);
    assert_eq!(extract_san(&with_names(mixed)), vec!["a.com", "10.0", "b.com"]);
    assert_eq!(extract_san(&with_names(names(&[]))), Vec::<String>::new());
}

#[test]
fn names_that_do_not_read_spoil_their_extension() {
    // A plain element, as most certificates have it, is not one that reads.
    let plain = names(&[dns(b"a.com"), value(0x82, b"b.com")]);
    assert_eq!(extract_san(&with_names(plain)), Vec::<String>::new());
    let other_tag = names(&[dns(b"a.com"), value(0x30, &[])]);
    assert_eq!(extract_san(&with_names(other_tag)), Vec::<String>::new());
    let mut two = with_names(names(&[dns(b"a.com")]));
    two.extensions.push(Extension { id: vec![85, 29, 17], value: b"junk".to_vec() });
    two.extensions.push(Extension { id: vec![85, 29, 17], value: names(&[dns(b"c.com")]) });
    assert_eq!(extract_san(&two), vec!["a.com", "c.com"]);
}

#[test]
fn names_match_what_x509_certificate_makes_of_a_whole_extension() {
    // The same loop over one sequence, with the outside crates alone.
    let lists = [
        names(&[dns(b"a.com"), ip(b"10.0"), dns(b"b.com")]),
        names(&[dns(b"a.com"), value(0x82, b"b.com")]),
        names(&[dns(b"a.com"), value(0x82, b"")]),
        names(&[dns(b"a.com"), value(0xa2, b"")]),
        names(&[dns(b"a.com"), value(0xa2, &value(0x16, &[0x80]))]),
        names(&[value(0xa8, &value(0x06, &[43]))]),
        names(&[dns(b"a.com"), vec![0xbf]]),
    ];
    for list in lists {
        let direct = bcder::Mode::Der
            .decode(&list[..], |cons| {
                cons.take_sequence(|cons| {
                    let mut found = Vec::new();
                    while let Ok(name) = x509_certificate::rfc3280::GeneralName::take_from(cons) {
                        found.push(name);
                    }
                    Ok(found)
                })
            })
            .unwrap_or_default();
        let mut expected = Vec::new();
        for name in direct {
            match name {
                x509_certificate::rfc3280::GeneralName::DnsName(dns) => expected.push(dns.to_string()),
                x509_certificate::rfc3280::GeneralName::IpAddress(ip) => {
                    if let Ok(text) = std::str::from_utf8(&ip.to_bytes()) {
                        expected.push(text.to_string());
                    }
                }
                _ => {}
            }
        }
        assert_eq!(extract_san(&with_names(list)), expected);
    }
}

fn signed_pair() -> (Certificate, Certificate) {
    let rng = ring::rand::SystemRandom::new();
    let algorithm = &ring::signature::ECDSA_P256_SHA256_ASN1_SIGNING;
    let document = ring::signature::EcdsaKeyPair::generate_pkcs8(algorithm, &rng).unwrap();
    let pair = ring::signature::EcdsaKeyPair::from_pkcs8(algorithm, document.as_ref(), &rng).unwrap();
    let mut issuer = plain_certificate();
    issuer.public_key = ring::signature::KeyPair::public_key(&pair).as_ref().to_vec();
    let mut subject = plain_certificate();
    let signature = pair.sign(&rng, b"signed part").unwrap();
    // The signature stands after the lengths of signed part and identifier, and
    // eight octets more.
    let mut encoding = vec![0u8; b"signed part".len() + 8 + 8];
    encoding.extend_from_slice(signature.as_ref());
    subject.encoding = Ok(encoding);
    (subject, issuer)
}

#[test]
fn signatures_are_verified() {
    let (mut subject, issuer) = signed_pair();
    assert_eq!(verify_certificate_signature(&subject, &issuer), Ok(()));
    let (_, stranger) = signed_pair();
    assert_eq!(
        verify_certificate_signature(&subject, &stranger),
        Err(SignatureError::VerificationFailed)
    );
    subject.signed_part = Some(b"Signed part".to_vec());
    assert_eq!(
        verify_certificate_signature(&subject, &issuer),
        Err(SignatureError::VerificationFailed)
    );
}

#[test]
fn signatures_that_cannot_be_verified_are_told_apart() {
    let (mut subject, issuer) = signed_pair();
    subject.signature_algorithm = vec![43, 101, 112, 0, 0, 0, 0, 0];
    assert_eq!(
        verify_certificate_signature(&subject, &issuer),
        Err(SignatureError::UnsupportedAlgorithm)
    );
    subject.encoding = Ok(vec![0; 25]);
    assert_eq!(
        verify_certificate_signature(&subject, &issuer),
        Err(SignatureError::InvalidStructure)
    );
    subject.encoding = Err("no".to_string());
    assert_eq!(verify_certificate_signature(&subject, &issuer), Err(SignatureError::NotEncoded));
    subject.signed_part = None;
    assert_eq!(verify_certificate_signature(&subject, &issuer), Err(SignatureError::NoSignedPart));
    for oid in [
        vec![42u8, 134, 72, 134, 247, 13, 1, 1, 11],
        vec![42u8, 134, 72, 134, 247, 13, 1, 1, 12],
        vec![42u8, 134, 72, 134, 247, 13, 1, 1, 13],
        vec![42u8, 134, 72, 206, 61, 4, 3, 3],
    ] {
        let (mut subject, issuer) = signed_pair();
        subject.signature_algorithm = oid;
        assert_eq!(
            verify_certificate_signature(&subject, &issuer),
            Err(SignatureError::VerificationFailed)
        );
    }
}

#[test]
fn chains_need_two_linked_certificates() {
    let (subject, issuer) = signed_pair();
    assert!(!verify_chain_links(&vec![]));
    let (alone, _) = signed_pair();
    assert!(!verify_chain_links(&vec![alone]));
    assert!(verify_chain_links(&vec![subject, issuer]));
    let (mut subject, issuer) = signed_pair();
    subject.issuer_name = b"another name".to_vec();
    assert!(!verify_chain_links(&vec![subject, issuer]));
    let der = issued("example.com").constructed_data().to_vec();
    assert!(!verify_chain_complete(&vec![]));
    assert!(!verify_chain_complete(&vec![der.clone()]));
    assert!(!verify_chain_complete(&vec![der.clone(), b"junk".to_vec()]));
    assert!(!verify_chain_complete(&vec![der.clone(), der]));
}

#[test]
fn served_certificates_are_described() {
    let captured = issued("example.com");
    let der = captured.constructed_data().to_vec();
    let examined = examine_certificates("example.com", 8443, &vec![der.clone()]).unwrap();
    assert!(examined.query.is_none());
    let info = examined.conclude(&OcspReply::Nothing);
    assert_eq!(info.domain, "example.com");
    assert_eq!(info.subject, "CN=example.com, C=CN");
    assert_eq!(info.source, "example.com:8443");
    assert_eq!(info.san_list, vec!["example.com", "www.example.com"]);
    assert_eq!(info.fingerprint_sha256, compute_sha256_fingerprint(&der));
    assert_eq!(info.not_after.seconds(), captured.validity_not_after().timestamp());
    assert!(!info.chain_complete);
    assert_eq!(info.ocsp_status, OcspStatus::Unknown);
    assert_eq!(
        examine_certificates("example.com", 443, &vec![]).unwrap_err(),
        "No certificates received from server"
    );
    let refused = examine_certificates("example.com", 443, &vec![b"junk".to_vec()]).unwrap_err();
    assert!(refused.starts_with("Failed to parse certificate: "));
    assert!(refused.len() > "Failed to parse certificate: ".len());
}

#[test]
fn stored_certificates_are_described() {
    let mut certificate = plain_certificate();
    let info = describe_stored(&certificate, "x.com", "/tmp/x.pem").unwrap();
    assert_eq!(info.fingerprint_sha256, compute_sha256_fingerprint(&[0; 40]));
    assert_eq!(info.not_before, Timestamp::from_parts(1_000, 0).unwrap());
    assert_eq!(info.not_after, Timestamp::from_parts(2_000, 0).unwrap());
    assert!(info.chain_complete);
    assert_eq!(info.source, "/tmp/x.pem");
    certificate.not_after = i64::MAX;
    assert_eq!(
        describe_stored(&certificate, "x", "p").unwrap_err(),
        "Invalid not_after timestamp"
    );
    certificate.not_before = i64::MIN;
    assert_eq!(
        describe_stored(&certificate, "x", "p").unwrap_err(),
        "Invalid not_before timestamp"
    );
    certificate.issuer = Err("no issuer".to_string());
    assert_eq!(describe_stored(&certificate, "x", "p").unwrap_err(), "no issuer");
    certificate.subject = Err("no subject".to_string());
    assert_eq!(describe_stored(&certificate, "x", "p").unwrap_err(), "no subject");
    certificate.encoding = Err("no encoding".to_string());
    assert_eq!(
        describe_stored(&certificate, "x", "p").unwrap_err(),
        "Failed to encode DER: no encoding"
    );
}

#[test]
fn pem_files_are_scanned() {
    let captured = issued("example.com");
    let pem = captured.encode_pem().into_bytes();
    assert_eq!(extract_domain_from_pem(&pem), Ok("CN=example.com, C=CN".to_string()));
    assert!(extract_domain_from_pem(b"junk").unwrap_err().starts_with("Failed to parse PEM: "));
    let info = load_cert_from_pem(&pem, "name", "/etc/x.pem").unwrap();
    assert_eq!(info.fingerprint_sha256, compute_sha256_fingerprint(captured.constructed_data()));
    let now = Timestamp::from_parts(77, 0).unwrap();
    let result = scanner().scan_pem_file_at("name", "/etc/x.pem", Ok(pem.clone()), now);
    assert_eq!(result.scanned_at, now);
    assert_eq!(result.error, None);
    let info = result.cert.unwrap();
    assert_eq!(info.domain, "name");
    assert_eq!(info.subject, "CN=example.com, C=CN");
    assert_eq!(info.source, "/etc/x.pem");
    let unread = scanner().scan_pem_file("name", "/etc/x.pem", Err("gone".to_string()));
    assert_eq!(unread.error.as_deref(), Some("gone"));
    assert!(unread.cert.is_none());
    let junk = scanner().scan_pem_file("name", "p", Ok(b"junk".to_vec()));
    assert!(junk.error.unwrap().starts_with("Failed to parse PEM: "));
    for (extension, is_certificate) in
        [("pem", true), ("crt", true), ("cer", true), ("key", false), ("PEM", false), ("", false)]
    {
        assert_eq!(names_certificate(extension), is_certificate);
    }
}
