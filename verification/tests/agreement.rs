//! What the library reads and writes in DER, next to what bcder makes of it.
use bcder::decode::{BytesSource, Constructed, DecodeError, IntoSource, Primitive, Source};
use bcder::encode::{self, PrimitiveContent, Values};
use bcder::{Integer, Mode, OctetString, Oid, Tag};
use cert_monitor::certificate::{extract_san, Certificate, Extension};
use cert_monitor::der::{push_header, push_value};
use cert_monitor::ocsp::{build_ocsp_request, extract_ocsp_url, parse_ocsp_response};
use cert_monitor::types::OcspStatus;
use x509_certificate::certificate::X509Certificate;
use x509_certificate::rfc3280::GeneralName;
use x509_certificate::{KeyAlgorithm, X509CertificateBuilder};

fn read_all<S: Source>(prim: &mut Primitive<S>) -> Result<(), DecodeError<S::Error>> {
    while prim.take_u8().is_ok() {}
    Ok(())
}

fn bcder_answer<S: Source>(
    cons: &mut Constructed<S>,
) -> Result<OcspStatus, DecodeError<S::Error>> {
    cons.take_sequence(|cons| {
        cons.take_sequence(|_| Ok(()))?;
        cons.take_primitive_if(Tag::OCTET_STRING, |p| read_all(p))?;
        cons.take_primitive_if(Tag::OCTET_STRING, |p| read_all(p))?;
        Integer::take_from(cons)?;
        Ok(())
    })?;
    if cons.take_opt_constructed_if(Tag::CTX_0, |_| Ok(()))?.is_some() {
        return Ok(OcspStatus::Good);
    }
    let revoked = cons.take_opt_constructed_if(Tag::CTX_1, |cons| {
        cons.take_primitive_if(Tag::GENERALIZED_TIME, |p| read_all(p))?;
        cons.take_opt_primitive_if(Tag::ENUMERATED, |p| p.to_u8())?;
        Ok(())
    })?;
    if revoked.is_some() {
        return Ok(OcspStatus::Revoked);
    }
    cons.take_primitive_if(Tag::GENERALIZED_TIME, |p| read_all(p))?;
    cons.take_opt_constructed_if(Tag::CTX_0, |cons| {
        cons.take_primitive_if(Tag::GENERALIZED_TIME, |p| read_all(p))
    })?;
    Ok(OcspStatus::Unknown)
}

fn bcder_basic<S: Source>(cons: &mut Constructed<S>) -> Result<OcspStatus, DecodeError<S::Error>> {
    cons.take_opt_constructed_if(Tag::CTX_0, |cons| cons.take_u8())?;
    cons.take_opt_constructed_if(Tag::CTX_1, |cons| {
        cons.take_primitive_if(Tag::OCTET_STRING, |p| read_all(p))
    })
    .or_else(|_| {
        cons.take_opt_constructed_if(Tag::CTX_2, |cons| cons.take_sequence(|_| Ok(())))
    })?;
    cons.take_primitive_if(Tag::GENERALIZED_TIME, |p| read_all(p))?;
    cons.take_sequence(|cons| {
        match cons.take_opt_sequence(|cons| bcder_answer(cons))? {
            Some(status) => Ok(status),
            None => Err(cons.content_err("no answer")),
        }
    })
}

fn bcder_status(bytes: &[u8]) -> OcspStatus {
    let source = BytesSource::new(bytes.to_vec().into());
    let status = Constructed::decode(source, Mode::Der, |cons| {
        cons.take_sequence(|cons| {
            cons.take_primitive_if(Tag::ENUMERATED, |p| p.to_u8())?;
            cons.take_opt_constructed_if(Tag::CTX_0, |cons| {
                cons.take_sequence(|cons| bcder_basic(cons))
            })
        })
    });
    status.unwrap_or(None).unwrap_or(OcspStatus::Unknown)
}

fn bcder_url(value: &[u8]) -> Option<String> {
    let source = OctetString::new(value.to_vec().into()).into_source();
    Constructed::decode(source, Mode::Der, |cons| {
        cons.take_sequence(|cons| {
            while let Ok(Some(found)) = cons.take_opt_sequence(|cons| {
                let oid = Oid::take_from(cons)?;
                let octets: &[u8] = oid.as_ref().as_ref();
                if octets == [43, 6, 1, 5, 5, 7, 48, 1] {
                    let text = cons.take_constructed_if(Tag::ctx(6), |cons| {
                        bcder::string::Ia5String::take_from(cons)
                    })?;
                    return Ok(Some(text.to_string()));
                }
                Ok(None)
            }) {
                if let Some(url) = found {
                    return Ok(url);
                }
            }
            Err(cons.content_err("no responder"))
        })
    })
    .ok()
}

fn bcder_names(value: &[u8]) -> Vec<String> {
    let source = OctetString::new(value.to_vec().into()).into_source();
    let names = Constructed::decode(source, Mode::Der, |cons| {
        cons.take_sequence(|cons| {
            let mut names = Vec::new();
            while let Ok(name) = GeneralName::take_from(cons) {
                names.push(name);
            }
            Ok(names)
        })
    });
    let mut texts = Vec::new();
    for name in names.unwrap_or_default() {
        match name {
            GeneralName::DnsName(dns) => texts.push(dns.to_string()),
            GeneralName::IpAddress(ip) => {
                if let Ok(text) = std::str::from_utf8(ip.to_bytes().as_ref()) {
                    texts.push(text.to_string());
                }
            }
            _ => {}
        }
    }
    texts
}

fn value(identifier: u8, content: &[u8]) -> Vec<u8> {
    let mut out = Vec::new();
    push_value(&mut out, identifier, content);
    out
}

fn concat(parts: &[Vec<u8>]) -> Vec<u8> {
    parts.iter().flatten().copied().collect()
}

fn response(before: Vec<u8>, status: Vec<u8>) -> Vec<u8> {
    let id = value(0x30, &concat(&[
        value(0x30, &[]),
        value(0x04, &[1, 2]),
        value(0x04, &[3]),
        value(0x02, &[5]),
    ]));
    let basic = value(0x30, &concat(&[
        before,
        value(0x18, b"2024"),
        value(0x30, &value(0x30, &concat(&[id, status]))),
    ]));
    value(0x30, &concat(&[value(0x0a, &[0]), value(0xa0, &basic)]))
}

fn responses() -> Vec<Vec<u8>> {
    let name = value(0xa1, &value(0x04, b"r"));
    let key = value(0xa2, &value(0x30, &[]));
    let version = value(0xa0, &value(0x02, &[0]));
    let good = value(0xa0, &[]);
    let revoked = value(0xa1, &value(0x18, b"2024"));
    let with_reason = value(0xa1, &concat(&[value(0x18, b"2024"), value(0x0a, &[1])]));
    let times = concat(&[value(0x18, b"2024"), value(0xa0, &value(0x18, b"2025"))]);
    let odd_name = value(0xa1, &concat(&[key.clone(), value(0x18, b"2024")]));
    let plain_name = value(0x81, &value(0x18, b"2024"));
    vec![
        response(name.clone(), good.clone()),
        response(concat(&[version.clone(), name.clone()]), revoked),
        response(concat(&[version, key.clone()]), with_reason),
        response(key, good.clone()),
        response(Vec::new(), times),
        response(odd_name, good.clone()),
        response(plain_name, good),
    ]
}

/// The octets with one changed, one more, one less, or the end cut off.
fn variants(octets: &[u8]) -> Vec<Vec<u8>> {
    let mut all = vec![octets.to_vec()];
    for i in 0..octets.len() {
        for v in 0..=255u8 {
            let mut changed = octets.to_vec();
            changed[i] = v;
            all.push(changed);
        }
        for v in [0x00, 0x02, 0x04, 0x0a, 0x18, 0x1f, 0x30, 0x80, 0x81, 0x82, 0xa0, 0xa1, 0xa2] {
            let mut longer = octets.to_vec();
            longer.insert(i, v);
            all.push(longer);
        }
        let mut shorter = octets.to_vec();
        shorter.remove(i);
        all.push(shorter);
        all.push(octets[..i].to_vec());
    }
    all
}

/// A number that depends on the last one only.
fn next(seed: &mut u64) -> usize {
    *seed = seed.wrapping_mul(6_364_136_223_846_793_005).wrapping_add(1_442_695_040_888_963_407);
    (*seed >> 33) as usize
}

/// The octets with a few places changed at random.
fn scrambled(octets: &[u8], rounds: usize) -> Vec<Vec<u8>> {
    let telling = [
        0x00, 0x01, 0x02, 0x03, 0x04, 0x05, 0x06, 0x0a, 0x10, 0x16, 0x18, 0x1f, 0x30, 0x7f, 0x80,
        0x81, 0x82, 0x84, 0x85, 0x86, 0x87, 0xa0, 0xa1, 0xa2, 0xa6, 0xa7, 0xbf, 0xff,
    ];
    let mut seed = 42;
    (0..rounds)
        .map(|_| {
            let mut changed = octets.to_vec();
            for _ in 0..2 + next(&mut seed) % 3 {
                let i = next(&mut seed) % changed.len();
                changed[i] = telling[next(&mut seed) % telling.len()];
            }
            changed
        })
        .collect()
}

fn with_extension(id: &[u8], value: &[u8]) -> Certificate {
    Certificate {
        subject: Ok(String::new()),
        issuer: Ok(String::new()),
        not_before: 0,
        not_after: 0,
        extensions: vec![Extension { id: id.to_vec(), value: value.to_vec() }],
        signed_part: None,
        encoding: Ok(Vec::new()),
        signature_algorithm: Vec::new(),
        public_key: Vec::new(),
        subject_name: Vec::new(),
        issuer_name: Vec::new(),
        serial: Vec::new(),
    }
}

#[test]
fn responses_are_read_as_bcder_reads_them() {
    let mut seen = [0usize; 3];
    for base in responses() {
        for octets in variants(&base).into_iter().chain(scrambled(&base, 10_000)) {
            let status = parse_ocsp_response(&octets);
            assert_eq!(status, bcder_status(&octets), "{:02x?}", octets);
            match status {
                OcspStatus::Good => seen[0] += 1,
                OcspStatus::Revoked => seen[1] += 1,
                OcspStatus::Unknown => seen[2] += 1,
            }
        }
    }
    assert!(seen.iter().all(|n| *n > 100));
}

/// A value whose length announces more octets than there are.
fn overlong(identifier: u8, content: &[u8], extra: usize) -> Vec<u8> {
    let mut out = Vec::new();
    push_header(&mut out, identifier, (content.len() + extra) as u64);
    out.extend_from_slice(content);
    out
}

#[test]
fn cut_responses_are_read_as_bcder_reads_them() {
    let id = value(0x30, &concat(&[
        value(0x30, &[]),
        value(0x04, &[1]),
        value(0x04, &[3]),
        value(0x02, &[5]),
    ]));
    let answers = value(0x30, &value(0x30, &concat(&[id, value(0xa0, &[])])));
    let list = concat(&[value(0x18, b"2024"), answers]);
    let key = value(0xa2, &value(0x30, &[]));
    let elements: [Vec<u8>; 9] = [
        list.clone(),
        concat(&[key.clone(), list.clone()]),
        concat(&[value(0x04, b"r"), list.clone()]),
        concat(&[value(0x04, b"r"), key.clone(), list.clone()]),
        overlong(0x04, b"r", 2),
        concat(&[overlong(0x04, b"", 2), list.clone()]),
        value(0x24, &list),
        value(0x24, &concat(&[key.clone(), list.clone()])),
        concat(&[vec![0x04, 0x85], list.clone()]),
    ];
    let mut good = 0;
    for element in elements {
        for identifier in [0xa1u8, 0x81] {
            for tail in [Vec::new(), list.clone(), vec![0x00]] {
                for extras in 0..256usize {
                    let extra = |i: u32| (extras / 4usize.pow(i)) % 4;
                    let name = overlong(identifier, &element, extra(3));
                    let basic = overlong(0x30, &concat(&[name, tail.clone()]), extra(2));
                    let bytes = overlong(0xa0, &basic, extra(1));
                    let octets = overlong(0x30, &concat(&[value(0x0a, &[0]), bytes]), extra(0));
                    let status = parse_ocsp_response(&octets);
                    assert_eq!(status, bcder_status(&octets), "{:02x?}", octets);
                    if status == OcspStatus::Good {
                        good += 1;
                    }
                    for octets in scrambled(&octets, 3) {
                        assert_eq!(
                            parse_ocsp_response(&octets),
                            bcder_status(&octets),
                            "{:02x?}",
                            octets
                        );
                    }
                }
            }
        }
    }
    assert!(good > 20);
    let named = value(0xa1, &value(0x04, b"r"));
    for extras in 0..256usize {
        let extra = |i: u32| (extras / 4usize.pow(i)) % 4;
        let version = overlong(0xa0, &value(0x02, &[0]), extra(3));
        let content = concat(&[version, named.clone(), list.clone()]);
        let bytes = overlong(0xa0, &overlong(0x30, &content, extra(2)), extra(1));
        let octets = overlong(0x30, &concat(&[value(0x0a, &[0]), bytes]), extra(0));
        assert_eq!(parse_ocsp_response(&octets), bcder_status(&octets), "{:02x?}", octets);
    }
}

#[test]
fn long_values_are_read_as_bcder_reads_them() {
    for n in [0usize, 1, 100, 127, 128, 129, 255, 256, 1000, 65_535, 65_536] {
        let name = value(0xa1, &value(0x04, &vec![7; n]));
        let octets = response(name, value(0xa0, &[]));
        assert_eq!(parse_ocsp_response(&octets), OcspStatus::Good);
        assert_eq!(bcder_status(&octets), OcspStatus::Good);
        for i in 0..20 {
            for v in [0x00, 0x01, 0x7f, 0x80, 0x81, 0x82, 0x83, 0x84, 0x85, 0xff] {
                let mut changed = octets.clone();
                changed[i] = v;
                assert_eq!(parse_ocsp_response(&changed), bcder_status(&changed));
            }
        }
    }
}

#[test]
fn responders_are_read_as_bcder_reads_them() {
    let description = |id: &[u8], rest: Vec<u8>| value(0x30, &concat(&[value(0x06, id), rest]));
    let ocsp = [43, 6, 1, 5, 5, 7, 48, 1];
    let issuers = [43, 6, 1, 5, 5, 7, 48, 2];
    let address = value(0xa6, &value(0x16, b"http://o"));
    let bases = [
        value(0x30, &description(&ocsp, address.clone())),
        value(0x30, &concat(&[description(&issuers, Vec::new()), description(&ocsp, address.clone())])),
        value(0x30, &concat(&[description(&ocsp, address.clone()), description(&issuers, Vec::new())])),
        value(0x30, &concat(&[description(&issuers, address.clone()), description(&ocsp, address)])),
    ];
    let mut found = 0;
    for base in bases {
        for octets in variants(&base).into_iter().chain(scrambled(&base, 5_000)) {
            let read = extract_ocsp_url(&with_extension(&[43, 6, 1, 5, 5, 7, 1, 1], &octets));
            assert_eq!(read, bcder_url(&octets), "{:02x?}", octets);
            if read.is_some() {
                found += 1;
            }
        }
    }
    assert!(found > 100);
}

#[test]
fn names_are_read_as_bcder_reads_them() {
    let dns = value(0xa2, &value(0x16, b"a.b"));
    let ip = value(0xa7, &value(0x04, b"10.1"));
    let directory = value(0xa4, &value(0x30, &[]));
    let bases = [
        value(0x30, &concat(&[dns.clone(), ip.clone()])),
        value(0x30, &concat(&[ip, value(0xa6, &value(0x16, b"u")), dns.clone()])),
        value(0x30, &concat(&[dns.clone(), directory, dns])),
    ];
    let mut found = 0;
    for base in bases {
        for octets in variants(&base).into_iter().chain(scrambled(&base, 5_000)) {
            let read = extract_san(&with_extension(&[85, 29, 17], &octets));
            assert_eq!(read, bcder_names(&octets), "{:02x?}", octets);
            if !read.is_empty() {
                found += 1;
            }
        }
    }
    assert!(found > 100);
}

#[test]
fn requests_are_written_as_bcder_writes_them() {
    let issue = |serial: i64, name: &str| {
        let mut builder = X509CertificateBuilder::default();
        builder.subject().append_common_name_utf8_string(name).unwrap();
        builder.serial_number(serial);
        let (issued, _) = builder.create_with_random_keypair(KeyAlgorithm::Ed25519).unwrap();
        issued.constructed_data().to_vec()
    };
    for serial in [0, 1, 127, 128, 255, 256, 65_536, i64::MAX] {
        let leaf_der = issue(serial, "leaf");
        let issuer_der = issue(1, "a name that is somewhat longer than the others here");
        let leaf = X509Certificate::from_der(&leaf_der).unwrap();
        let issuer = X509Certificate::from_der(&issuer_der).unwrap();
        let name = issuer.subject_name().encode_ref().to_captured(Mode::Der);
        let name_digest = <sha1::Sha1 as sha1::Digest>::digest(name.as_slice()).to_vec();
        let key_digest = <sha1::Sha1 as sha1::Digest>::digest(issuer.public_key_data()).to_vec();
        let expected = encode::sequence((
            encode::sequence((Oid(&[43u8, 6, 1, 5, 5, 7, 48, 1, 1]).encode(), ().encode())),
            encode::sequence((encode::sequence((
                OctetString::new(name_digest.into()).encode(),
                OctetString::new(key_digest.into()).encode(),
                leaf.serial_number_asn1().encode(),
            )),)),
        ));
        let expected = expected.to_captured(Mode::Der).as_slice().to_vec();
        let read_leaf = Certificate::from_der(&leaf_der).unwrap();
        let read_issuer = Certificate::from_der(&issuer_der).unwrap();
        assert_eq!(build_ocsp_request(&read_leaf, &read_issuer), Some(expected));
    }
}
