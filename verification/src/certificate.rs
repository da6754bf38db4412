//! What the monitor reads in an X.509 certificate, and what it concludes from it.
use crate::der::{
    self, push_header, read_value, read_value_within, rest_after, Value, SEQUENCE, UNBOUNDED,
};
use crate::text::{self, bytes_equal, colon_hex_text, utf8_text};
use bcder::encode::Values;
use vstd::prelude::*;
use vstd::utf8::{decode_utf8, valid_utf8};
use x509_certificate::certificate::{CapturedX509Certificate, X509Certificate};
use x509_certificate::rfc3280::GeneralName;

verus! {

/// An extension of a certificate: the content of its object identifier, and its
/// value.
#[derive(Debug)]
pub struct Extension {
    pub id: Vec<u8>,
    pub value: Vec<u8>,
}

/// What the monitor reads in a certificate.
#[derive(Debug)]
pub struct Certificate {
    /// The subject in words, or why it cannot be put in words.
    pub subject: Result<String, String>,
    /// The issuer in words, or why it cannot be put in words.
    pub issuer: Result<String, String>,
    /// The first second of the validity, since the beginning of 1970.
    pub not_before: i64,
    /// The last second of the validity, since the beginning of 1970.
    pub not_after: i64,
    pub extensions: Vec<Extension>,
    /// The part that the issuer signs.
    pub signed_part: Option<Vec<u8>>,
    /// The whole certificate, written anew, or why that failed.
    pub encoding: Result<Vec<u8>, String>,
    /// The content of the object identifier of the signature's algorithm.
    pub signature_algorithm: Vec<u8>,
    /// The subject's public key.
    pub public_key: Vec<u8>,
    /// The encoding of the subject's name.
    pub subject_name: Vec<u8>,
    /// The encoding of the issuer's name.
    pub issuer_name: Vec<u8>,
    /// The content of the serial number.
    pub serial: Vec<u8>,
}

/// What an `Extension` says.
pub struct ExtensionView {
    pub id: Seq<u8>,
    pub value: Seq<u8>,
}

/// What a `Certificate` says.
#[verifier::ext_equal]
pub struct CertificateFields {
    pub subject: Result<Seq<char>, Seq<char>>,
    pub issuer: Result<Seq<char>, Seq<char>>,
    pub not_before: int,
    pub not_after: int,
    pub extensions: Seq<ExtensionView>,
    pub signed_part: Option<Seq<u8>>,
    pub encoding: Result<Seq<u8>, Seq<char>>,
    pub signature_algorithm: Seq<u8>,
    pub public_key: Seq<u8>,
    pub subject_name: Seq<u8>,
    pub issuer_name: Seq<u8>,
    pub serial: Seq<u8>,
}

impl View for Extension {
    type V = ExtensionView;

    open spec fn view(&self) -> ExtensionView {
        ExtensionView { id: self.id@, value: self.value@ }
    }
}

/// What a list of extensions says.
pub open spec fn extension_views(extensions: Seq<Extension>) -> Seq<ExtensionView> {
    Seq::new(extensions.len(), |i: int| extensions[i]@)
}

/// What a text, or the reason for its absence, says.
pub open spec fn text_or_reason(r: Result<String, String>) -> Result<Seq<char>, Seq<char>> {
    match r {
        Ok(text) => Ok(text@),
        Err(reason) => Err(reason@),
    }
}

/// What octets, or the reason for their absence, say.
pub open spec fn octets_or_reason(r: Result<Vec<u8>, String>) -> Result<Seq<u8>, Seq<char>> {
    match r {
        Ok(octets) => Ok(octets@),
        Err(reason) => Err(reason@),
    }
}

/// The octets that there are, if any.
pub open spec fn optional_octets(octets: Option<Vec<u8>>) -> Option<Seq<u8>> {
    match octets {
        Some(octets) => Some(octets@),
        None => None,
    }
}

impl View for Certificate {
    type V = CertificateFields;

    open spec fn view(&self) -> CertificateFields {
        CertificateFields {
            subject: text_or_reason(self.subject),
            issuer: text_or_reason(self.issuer),
            not_before: self.not_before as int,
            not_after: self.not_after as int,
            extensions: extension_views(self.extensions@),
            signed_part: optional_octets(self.signed_part),
            encoding: octets_or_reason(self.encoding),
            signature_algorithm: self.signature_algorithm@,
            public_key: self.public_key@,
            subject_name: self.subject_name@,
            issuer_name: self.issuer_name@,
            serial: self.serial@,
        }
    }
}

/// Whether octets are a certificate for x509-certificate, and its reason where
/// they are not.
pub uninterp spec fn certificate_outcome(der: Seq<u8>) -> Result<(), Seq<char>>;

/// The subject of a certificate in words, or why there is none.
pub uninterp spec fn subject_of(der: Seq<u8>) -> Result<Seq<char>, Seq<char>>;

/// The issuer of a certificate in words, or why there is none.
pub uninterp spec fn issuer_of(der: Seq<u8>) -> Result<Seq<char>, Seq<char>>;

/// The first second of a certificate's validity.
pub uninterp spec fn not_before_of(der: Seq<u8>) -> int;

/// The last second of a certificate's validity.
pub uninterp spec fn not_after_of(der: Seq<u8>) -> int;

/// The extensions of a certificate.
pub uninterp spec fn extensions_of(der: Seq<u8>) -> Seq<ExtensionView>;

/// The signed part of a certificate.
pub uninterp spec fn signed_part_of(der: Seq<u8>) -> Option<Seq<u8>>;

/// A certificate, read and written anew.
pub uninterp spec fn encoding_of(der: Seq<u8>) -> Result<Seq<u8>, Seq<char>>;

/// The object identifier of the algorithm of a certificate's signature.
pub uninterp spec fn signature_algorithm_of(der: Seq<u8>) -> Seq<u8>;

/// The public key in a certificate.
pub uninterp spec fn public_key_of(der: Seq<u8>) -> Seq<u8>;

/// The encoding of the subject's name in a certificate.
pub uninterp spec fn subject_name_of(der: Seq<u8>) -> Seq<u8>;

/// The encoding of the issuer's name in a certificate.
pub uninterp spec fn issuer_name_of(der: Seq<u8>) -> Seq<u8>;

/// The content of a certificate's serial number.
pub uninterp spec fn serial_of(der: Seq<u8>) -> Seq<u8>;

/// Whether `X509Certificate::from_der` takes these octets. Where it does not, the
/// reason is its error as `Debug` writes it. Both depend on the octets alone.
#[verifier::external_body]
fn check_certificate(der: &[u8]) -> (r: Result<(), String>)
    ensures
        match r {
            Ok(()) => certificate_outcome(der@) is Ok,
            Err(reason) => certificate_outcome(der@) == Err::<(), Seq<char>>(reason@),
        },
{
    X509Certificate::from_der(der).map(|_| ()).map_err(|e| format!("{:?}", e))
}

/// `X509Certificate::from_der`, then `subject_name` and `Name::user_friendly_str`,
/// with its error as `Debug` writes it. The result depends on the octets alone.
#[verifier::external_body]
fn read_subject(der: &[u8]) -> (r: Result<String, String>)
    requires
        certificate_outcome(der@) is Ok,
    ensures
        text_or_reason(r) == subject_of(der@),
{
    let certificate = X509Certificate::from_der(der).unwrap();
    certificate.subject_name().user_friendly_str().map_err(|e| format!("{:?}", e))
}

/// `X509Certificate::from_der`, then `issuer_name` and `Name::user_friendly_str`,
/// with its error as `Debug` writes it. The result depends on the octets alone.
#[verifier::external_body]
fn read_issuer(der: &[u8]) -> (r: Result<String, String>)
    requires
        certificate_outcome(der@) is Ok,
    ensures
        text_or_reason(r) == issuer_of(der@),
{
    let certificate = X509Certificate::from_der(der).unwrap();
    certificate.issuer_name().user_friendly_str().map_err(|e| format!("{:?}", e))
}

/// `X509Certificate::from_der`, then `validity_not_before` in seconds since the
/// beginning of 1970. The result depends on the octets alone.
#[verifier::external_body]
fn read_not_before(der: &[u8]) -> (secs: i64)
    requires
        certificate_outcome(der@) is Ok,
    ensures
        secs == not_before_of(der@),
{
    X509Certificate::from_der(der).unwrap().validity_not_before().timestamp()
}

/// `X509Certificate::from_der`, then `validity_not_after` in seconds since the
/// beginning of 1970. The result depends on the octets alone.
#[verifier::external_body]
fn read_not_after(der: &[u8]) -> (secs: i64)
    requires
        certificate_outcome(der@) is Ok,
    ensures
        secs == not_after_of(der@),
{
    X509Certificate::from_der(der).unwrap().validity_not_after().timestamp()
}

/// `X509Certificate::from_der`, then `iter_extensions`: identifier and value of
/// each. The result depends on the octets alone.
#[verifier::external_body]
fn read_extensions(der: &[u8]) -> (extensions: Vec<Extension>)
    requires
        certificate_outcome(der@) is Ok,
    ensures
        extension_views(extensions@) == extensions_of(der@),
{
    let certificate = X509Certificate::from_der(der).unwrap();
    certificate.iter_extensions().map(
        |e| Extension { id: e.id.as_ref().to_vec(), value: e.value.to_bytes().to_vec() },
    ).collect()
}

/// `X509Certificate::from_der`, then the raw data of its `TbsCertificate`. The
/// result depends on the octets alone.
#[verifier::external_body]
fn read_signed_part(der: &[u8]) -> (octets: Option<Vec<u8>>)
    requires
        certificate_outcome(der@) is Ok,
    ensures
        optional_octets(octets) == signed_part_of(der@),
{
    X509Certificate::from_der(der).unwrap().tbs_certificate().raw_data.clone()
}

/// `X509Certificate::from_der`, then `encode_der`, with its error as `Display`
/// writes it. The result depends on the octets alone.
#[verifier::external_body]
fn read_encoding(der: &[u8]) -> (r: Result<Vec<u8>, String>)
    requires
        certificate_outcome(der@) is Ok,
    ensures
        octets_or_reason(r) == encoding_of(der@),
{
    X509Certificate::from_der(der).unwrap().encode_der().map_err(|e| e.to_string())
}

/// `X509Certificate::from_der`, then `signature_signature_algorithm_oid`. The
/// result depends on the octets alone.
#[verifier::external_body]
fn read_signature_algorithm(der: &[u8]) -> (octets: Vec<u8>)
    requires
        certificate_outcome(der@) is Ok,
    ensures
        octets@ == signature_algorithm_of(der@),
{
    let certificate = X509Certificate::from_der(der).unwrap();
    certificate.signature_signature_algorithm_oid().as_ref().to_vec()
}

/// `X509Certificate::from_der`, then `public_key_data`. The result depends on the
/// octets alone.
#[verifier::external_body]
fn read_public_key(der: &[u8]) -> (octets: Vec<u8>)
    requires
        certificate_outcome(der@) is Ok,
    ensures
        octets@ == public_key_of(der@),
{
    X509Certificate::from_der(der).unwrap().public_key_data().to_vec()
}

/// `X509Certificate::from_der`, then the encoding of `subject_name`. The result
/// depends on the octets alone.
#[verifier::external_body]
fn read_subject_name(der: &[u8]) -> (octets: Vec<u8>)
    requires
        certificate_outcome(der@) is Ok,
    ensures
        octets@ == subject_name_of(der@),
{
    let certificate = X509Certificate::from_der(der).unwrap();
    let captured = certificate.subject_name().encode_ref().to_captured(bcder::Mode::Der);
    captured.as_slice().to_vec()
}

/// `X509Certificate::from_der`, then the encoding of `issuer_name`. The result
/// depends on the octets alone.
#[verifier::external_body]
fn read_issuer_name(der: &[u8]) -> (octets: Vec<u8>)
    requires
        certificate_outcome(der@) is Ok,
    ensures
        octets@ == issuer_name_of(der@),
{
    let certificate = X509Certificate::from_der(der).unwrap();
    let captured = certificate.issuer_name().encode_ref().to_captured(bcder::Mode::Der);
    captured.as_slice().to_vec()
}

/// `X509Certificate::from_der`, then `serial_number_asn1`. The result depends on
/// the octets alone.
#[verifier::external_body]
fn read_serial(der: &[u8]) -> (octets: Vec<u8>)
    requires
        certificate_outcome(der@) is Ok,
    ensures
        octets@ == serial_of(der@),
{
    X509Certificate::from_der(der).unwrap().serial_number_asn1().as_slice().to_vec()
}

/// What the monitor reads in a certificate.
pub open spec fn fields_of(der: Seq<u8>) -> CertificateFields {
    CertificateFields {
        subject: subject_of(der),
        issuer: issuer_of(der),
        not_before: not_before_of(der),
        not_after: not_after_of(der),
        extensions: extensions_of(der),
        signed_part: signed_part_of(der),
        encoding: encoding_of(der),
        signature_algorithm: signature_algorithm_of(der),
        public_key: public_key_of(der),
        subject_name: subject_name_of(der),
        issuer_name: issuer_name_of(der),
        serial: serial_of(der),
    }
}

/// The certificate in a PEM file for x509-certificate, or its reason against it.
pub uninterp spec fn pem_outcome(pem: Seq<u8>) -> Result<Seq<u8>, Seq<char>>;

/// `CapturedX509Certificate::from_pem`, then the octets that it was made of, with
/// its error as `Debug` writes it. The result depends on the file alone; what it
/// takes, `X509Certificate::from_der` takes too.
#[verifier::external_body]
fn read_pem(pem: &[u8]) -> (r: Result<Vec<u8>, String>)
    ensures
        octets_or_reason(r) == pem_outcome(pem@),
        r matches Ok(der) ==> certificate_outcome(der@) is Ok,
{
    CapturedX509Certificate::from_pem(pem).map(|c| c.constructed_data().to_vec()).map_err(
        |e| format!("{:?}", e),
    )
}

impl Certificate {
    fn read(der: &[u8]) -> (certificate: Certificate)
        requires
            certificate_outcome(der@) is Ok,
        ensures
            certificate@ == fields_of(der@),
    {
        Certificate {
            subject: read_subject(der),
            issuer: read_issuer(der),
            not_before: read_not_before(der),
            not_after: read_not_after(der),
            extensions: read_extensions(der),
            signed_part: read_signed_part(der),
            encoding: read_encoding(der),
            signature_algorithm: read_signature_algorithm(der),
            public_key: read_public_key(der),
            subject_name: read_subject_name(der),
            issuer_name: read_issuer_name(der),
            serial: read_serial(der),
        }
    }

    /// Reads a certificate; where it is none, says why.
    pub fn from_der(der: &[u8]) -> (r: Result<Certificate, String>)
        ensures
            match r {
                Ok(certificate) => certificate_outcome(der@) is Ok && certificate@ == fields_of(
                    der@,
                ),
                Err(reason) => certificate_outcome(der@) == Err::<(), Seq<char>>(reason@),
            },
    {
        match check_certificate(der) {
            Ok(()) => Ok(Certificate::read(der)),
            Err(reason) => Err(reason),
        }
    }

    /// Reads the first certificate of a PEM file; where there is none, says why.
    pub fn from_pem(pem: &[u8]) -> (r: Result<Certificate, String>)
        ensures
            match r {
                Ok(certificate) => pem_outcome(pem@) is Ok && certificate@ == fields_of(
                    pem_outcome(pem@)->Ok_0,
                ),
                Err(reason) => pem_outcome(pem@) == Err::<Seq<u8>, Seq<char>>(reason@),
            },
    {
        match read_pem(pem) {
            Ok(der) => Ok(Certificate::read(der.as_slice())),
            Err(reason) => Err(reason),
        }
    }
}

/// The SHA-256 digest of octets.
pub uninterp spec fn sha256(data: Seq<u8>) -> Seq<u8>;

/// `sha2::Sha256`: the digest is a function of the octets, and is 32 octets long.
#[verifier::external_body]
fn sha256_digest(data: &[u8]) -> (digest: Vec<u8>)
    ensures
        digest@ == sha256(data@),
        digest@.len() == 32,
{
    <sha2::Sha256 as sha2::Digest>::digest(data).to_vec()
}

/// The fingerprint of a certificate: the SHA-256 digest of its encoding, in
/// hexadecimal, with colons between the octets.
pub fn compute_sha256_fingerprint(data: &[u8]) -> (fingerprint: String)
    ensures
        fingerprint@ == text::colon_hex(sha256(data@)),
        sha256(data@).len() == 32,
{
    let digest = sha256_digest(data);
    colon_hex_text(digest.as_slice())
}

/// One of the names that a certificate is issued for.
#[derive(Debug)]
pub enum SubjectName {
    Dns(String),
    Ip(Vec<u8>),
    Other,
}

/// What a `SubjectName` says.
pub enum SubjectNameView {
    Dns(Seq<char>),
    Ip(Seq<u8>),
    Other,
}

impl View for SubjectName {
    type V = SubjectNameView;

    open spec fn view(&self) -> SubjectNameView {
        match self {
            SubjectName::Dns(name) => SubjectNameView::Dns(name@),
            SubjectName::Ip(octets) => SubjectNameView::Ip(octets@),
            SubjectName::Other => SubjectNameView::Other,
        }
    }
}

/// What an optional name says.
pub open spec fn optional_subject_name(name: Option<SubjectName>) -> Option<SubjectNameView> {
    match name {
        Some(name) => Some(name@),
        None => None,
    }
}

/// The name that a sequence of names begins with, where x509-certificate reads
/// one, and whether it takes the sequence to be at its end after the attempt.
pub uninterp spec fn first_general_name(sequence: Seq<u8>) -> (Option<SubjectNameView>, bool);

/// `GeneralName::take_from`, called within a sequence, and whether bcder then finds
/// the sequence exhausted. Both depend on the octets of the sequence alone.
#[verifier::external_body]
fn read_general_name(sequence: &[u8]) -> (r: (Option<SubjectName>, bool))
    ensures
        (optional_subject_name(r.0), r.1) == first_general_name(sequence@),
{
    let mut name = None;
    let at_end = bcder::Mode::Der.decode(sequence, |cons| cons.take_sequence(|cons| {
        name = GeneralName::take_from(cons).ok();
        Ok(())
    })).is_ok();
    let name = name.map(|name| match name {
        GeneralName::DnsName(dns) => SubjectName::Dns(dns.to_string()),
        GeneralName::IpAddress(ip) => SubjectName::Ip(ip.to_bytes().to_vec()),
        _ => SubjectName::Other,
    });
    (name, at_end)
}

/// What follows the first value of some input, whatever its tag.
pub open spec fn after_first_value(input: Seq<u8>) -> Option<Seq<u8>> {
    if input.len() == 0 {
        None
    } else {
        match der::value_at(input, der::tag_of(input[0])) {
            der::ValueView::Value { after, .. } if after.len() < input.len() => Some(after),
            _ => None,
        }
    }
}

/// A sequence of names with this content, whose length announces `missing` octets more
/// than there are.
pub open spec fn names_sequence(content: Seq<u8>, missing: nat) -> Seq<u8> {
    der::header(0x30, content.len() + missing) + content
}

/// The names in the content of a sequence of names, which ends `missing` octets short of
/// its length. They end with the first that cannot be read; nothing is read unless the
/// sequence is then taken to be at its end.
pub open spec fn general_names(content: Seq<u8>, missing: nat) -> Option<Seq<SubjectNameView>>
    decreases content.len(),
{
    let (name, at_end) = first_general_name(names_sequence(content, missing));
    match name {
        Some(name) => match after_first_value(content) {
            Some(after) if after.len() < content.len() => match general_names(after, missing) {
                Some(names) => Some(seq![name] + names),
                None => None,
            },
            _ => None,
        },
        None => if at_end {
            Some(Seq::empty())
        } else {
            None
        },
    }
}

/// The text of a name: that of a domain as it stands, that of an address only where
/// its octets are UTF-8.
pub open spec fn subject_name_text(name: SubjectNameView) -> Option<Seq<char>> {
    match name {
        SubjectNameView::Dns(name) => Some(name),
        SubjectNameView::Ip(octets) => if valid_utf8(octets) {
            Some(decode_utf8(octets))
        } else {
            None
        },
        SubjectNameView::Other => None,
    }
}

/// The texts of the names that have one, in their order.
pub open spec fn subject_name_texts(names: Seq<SubjectNameView>) -> Seq<Seq<char>>
    decreases names.len(),
{
    if names.len() == 0 {
        Seq::empty()
    } else {
        match subject_name_text(names.last()) {
            Some(text) => subject_name_texts(names.drop_last()).push(text),
            None => subject_name_texts(names.drop_last()),
        }
    }
}

/// The content of the object identifier of the extension with the names that a
/// certificate is issued for: 2.5.29.17.
pub open spec fn subject_alternative_name() -> Seq<u8> {
    seq![85, 29, 17]
}

/// The texts of the names that an extension gives.
pub open spec fn names_of_extension(extension: ExtensionView) -> Seq<Seq<char>> {
    if extension.id == subject_alternative_name() {
        match der::value_within(extension.value, UNBOUNDED as nat, SEQUENCE) {
            der::ValueView::Value {
                constructed: true,
                content,
                lacking,
                ..
            } => match general_names(content, lacking) {
                Some(names) => subject_name_texts(names),
                None => Seq::empty(),
            },
            _ => Seq::empty(),
        }
    } else {
        Seq::empty()
    }
}

/// The texts of the names that the extensions give, in their order.
pub open spec fn names_of_extensions(extensions: Seq<ExtensionView>) -> Seq<Seq<char>>
    decreases extensions.len(),
{
    if extensions.len() == 0 {
        Seq::empty()
    } else {
        names_of_extensions(extensions.drop_last()) + names_of_extension(extensions.last())
    }
}

/// What a list of names says.
pub open spec fn subject_name_views(names: Seq<SubjectName>) -> Seq<SubjectNameView> {
    Seq::new(names.len(), |i: int| names[i]@)
}

fn read_general_names(content: &[u8], missing: u64) -> (names: Option<Vec<SubjectName>>)
    requires
        content@.len() + missing <= UNBOUNDED,
    ensures
        match (names, general_names(content@, missing as nat)) {
            (Some(names), Some(expected)) => subject_name_views(names@) == expected,
            (None, None) => true,
            _ => false,
        },
{
    let mut names: Vec<SubjectName> = Vec::new();
    let mut left = content;
    proof {
        if general_names(content@, missing as nat) is Some {
            let all = general_names(content@, missing as nat)->0;
            assert(subject_name_views(names@) + all =~= all);
        }
    }
    loop
        invariant
            left@.len() + missing <= UNBOUNDED,
            general_names(content@, missing as nat) == match general_names(left@, missing as nat) {
                Some(rest) => Some(subject_name_views(names@) + rest),
                None => None,
            },
        decreases left.len(),
    {
        let mut sequence: Vec<u8> = Vec::new();
        push_header(&mut sequence, 0x30, left.len() as u64 + missing);
        sequence.extend_from_slice(left);
        assert(sequence@ =~= names_sequence(left@, missing as nat));
        let (name, at_end) = read_general_name(sequence.as_slice());
        match name {
            Some(name) => {
                if left.len() == 0 {
                    return None;
                }
                let identifier = left[0];
                let tag = if (identifier / 32) % 2 == 1 {
                    identifier - 32
                } else {
                    identifier
                };
                match read_value(left, tag) {
                    Value::Value { after, .. } => {
                        if after.len() >= left.len() {
                            return None;
                        }
                        let ghost before = subject_name_views(names@);
                        names.push(name);
                        proof {
                            assert(subject_name_views(names@) =~= before.push(name@));
                            if general_names(after@, missing as nat) is Some {
                                let rest = general_names(after@, missing as nat)->0;
                                assert(before + (seq![name@] + rest) =~= before.push(name@)
                                    + rest);
                            }
                        }
                        left = after;
                    },
                    _ => {
                        return None;
                    },
                }
            },
            None => {
                return if at_end {
                    assert(subject_name_views(names@) + Seq::<SubjectNameView>::empty()
                        =~= subject_name_views(names@));
                    Some(names)
                } else {
                    None
                };
            },
        }
    }
}

/// Appends the text of a name, where it has one.
fn push_name(list: &mut Vec<String>, name: &SubjectName)
    ensures
        match subject_name_text(name@) {
            Some(text) => text::texts(final(list)@) == text::texts(old(list)@).push(
                text,
            ),
            None => final(list)@ == old(list)@,
        },
{
    let text = match name {
        SubjectName::Dns(name) => Some(name.clone()),
        SubjectName::Ip(octets) => utf8_text(octets.as_slice()),
        SubjectName::Other => None,
    };
    if let Some(text) = text {
        list.push(text);
        assert(text::texts(list@) =~= text::texts(old(list)@).push(text@));
    }
}

fn is_subject_alternative_name(id: &[u8]) -> (r: bool)
    ensures
        r == (id@ == subject_alternative_name()),
{
    let identifier: [u8; 3] = [85, 29, 17];
    assert(identifier@ =~= subject_alternative_name());
    bytes_equal(id, identifier.as_slice())
}

/// Appends the texts of the names that an extension gives.
fn push_names_of_extension(list: &mut Vec<String>, extension: &Extension)
    ensures
        text::texts(final(list)@) == text::texts(old(list)@) + names_of_extension(
            extension@,
        ),
{
    let ghost before = text::texts(list@);
    if is_subject_alternative_name(extension.id.as_slice()) {
        if let Value::Value { constructed: true, content, lacking, .. } = read_value_within(
            extension.value.as_slice(),
            UNBOUNDED,
            SEQUENCE,
        ) {
            if let Some(names) = read_general_names(content, lacking) {
                let ghost views = subject_name_views(names@);
                let mut i: usize = 0;
                assert(views.take(0) =~= Seq::empty());
                assert(before + subject_name_texts(views.take(0)) =~= before);
                while i < names.len()
                    invariant
                        i <= names.len(),
                        views == subject_name_views(names@),
                        text::texts(list@) == before + subject_name_texts(
                            views.take(i as int),
                        ),
                    decreases names.len() - i,
                {
                    push_name(list, &names[i]);
                    proof {
                        let upto = views.take(i + 1);
                        assert(upto.drop_last() =~= views.take(i as int));
                        assert(upto.last() == names@[i as int]@);
                        match subject_name_text(upto.last()) {
                            Some(text) => {
                                assert((before + subject_name_texts(views.take(i as int))).push(
                                    text,
                                ) =~= before + subject_name_texts(upto));
                            },
                            None => {},
                        }
                    }
                    i += 1;
                }
                assert(views.take(views.len() as int) =~= views);
                return;
            }
        }
    }
    assert(before + Seq::<Seq<char>>::empty() =~= before);
}

/// The names that a certificate is issued for.
pub fn extract_san(certificate: &Certificate) -> (names: Vec<String>)
    ensures
        text::texts(names@) == names_of_extensions(certificate@.extensions),
{
    let mut list: Vec<String> = Vec::new();
    let ghost views = extension_views(certificate.extensions@);
    let mut i: usize = 0;
    assert(views.take(0) =~= Seq::empty());
    assert(text::texts(list@) =~= names_of_extensions(views.take(0)));
    while i < certificate.extensions.len()
        invariant
            i <= certificate.extensions.len(),
            views == extension_views(certificate.extensions@),
            text::texts(list@) == names_of_extensions(views.take(i as int)),
        decreases certificate.extensions.len() - i,
    {
        push_names_of_extension(&mut list, &certificate.extensions[i]);
        proof {
            let upto = views.take(i + 1);
            assert(upto.drop_last() =~= views.take(i as int));
            assert(upto.last() == certificate.extensions@[i as int]@);
        }
        i += 1;
    }
    assert(views.take(views.len() as int) =~= views);
    list
}

/// The signature algorithms that a chain is verified with.
#[derive(Debug, Clone, Copy, PartialEq, Eq, Structural)]
pub enum SignatureAlgorithm {
    RsaSha256,
    RsaSha384,
    RsaSha512,
    EcdsaP256Sha256,
    EcdsaP384Sha384,
}

/// The algorithm that an object identifier stands for.
pub open spec fn algorithm_of(oid: Seq<u8>) -> Option<SignatureAlgorithm> {
    if oid == seq![42u8, 134, 72, 134, 247, 13, 1, 1, 11] {
        Some(SignatureAlgorithm::RsaSha256)
    } else if oid == seq![42u8, 134, 72, 134, 247, 13, 1, 1, 12] {
        Some(SignatureAlgorithm::RsaSha384)
    } else if oid == seq![42u8, 134, 72, 134, 247, 13, 1, 1, 13] {
        Some(SignatureAlgorithm::RsaSha512)
    } else if oid == seq![42u8, 134, 72, 206, 61, 4, 3, 2] {
        Some(SignatureAlgorithm::EcdsaP256Sha256)
    } else if oid == seq![42u8, 134, 72, 206, 61, 4, 3, 3] {
        Some(SignatureAlgorithm::EcdsaP384Sha384)
    } else {
        None
    }
}

/// Whether a signature of a message verifies under a public key, for ring.
pub uninterp spec fn verifies(
    algorithm: SignatureAlgorithm,
    key: Seq<u8>,
    message: Seq<u8>,
    signature: Seq<u8>,
) -> bool;

/// `ring::signature::UnparsedPublicKey::verify` with ring's algorithm of the same
/// name: PKCS#1 for RSA with 2048 to 8192 bits, ASN.1 signatures for ECDSA. Whether
/// it accepts depends on the arguments alone.
#[verifier::external_body]
fn verify_signature(
    algorithm: SignatureAlgorithm,
    key: &[u8],
    message: &[u8],
    signature: &[u8],
) -> (accepted: bool)
    ensures
        accepted == verifies(algorithm, key@, message@, signature@),
{
    let algorithm: &dyn ring::signature::VerificationAlgorithm = match algorithm {
        SignatureAlgorithm::RsaSha256 => &ring::signature::RSA_PKCS1_2048_8192_SHA256,
        SignatureAlgorithm::RsaSha384 => &ring::signature::RSA_PKCS1_2048_8192_SHA384,
        SignatureAlgorithm::RsaSha512 => &ring::signature::RSA_PKCS1_2048_8192_SHA512,
        SignatureAlgorithm::EcdsaP256Sha256 => &ring::signature::ECDSA_P256_SHA256_ASN1,
        SignatureAlgorithm::EcdsaP384Sha384 => &ring::signature::ECDSA_P384_SHA384_ASN1,
    };
    ring::signature::UnparsedPublicKey::new(algorithm, key).verify(message, signature).is_ok()
}

fn find_algorithm(oid: &[u8]) -> (algorithm: Option<SignatureAlgorithm>)
    ensures
        algorithm == algorithm_of(oid@),
{
    let rsa_sha256: [u8; 9] = [42, 134, 72, 134, 247, 13, 1, 1, 11];
    let rsa_sha384: [u8; 9] = [42, 134, 72, 134, 247, 13, 1, 1, 12];
    let rsa_sha512: [u8; 9] = [42, 134, 72, 134, 247, 13, 1, 1, 13];
    let ecdsa_p256: [u8; 8] = [42, 134, 72, 206, 61, 4, 3, 2];
    let ecdsa_p384: [u8; 8] = [42, 134, 72, 206, 61, 4, 3, 3];
    assert(rsa_sha256@ =~= seq![42u8, 134, 72, 134, 247, 13, 1, 1, 11]);
    assert(rsa_sha384@ =~= seq![42u8, 134, 72, 134, 247, 13, 1, 1, 12]);
    assert(rsa_sha512@ =~= seq![42u8, 134, 72, 134, 247, 13, 1, 1, 13]);
    assert(ecdsa_p256@ =~= seq![42u8, 134, 72, 206, 61, 4, 3, 2]);
    assert(ecdsa_p384@ =~= seq![42u8, 134, 72, 206, 61, 4, 3, 3]);
    if bytes_equal(oid, rsa_sha256.as_slice()) {
        Some(SignatureAlgorithm::RsaSha256)
    } else if bytes_equal(oid, rsa_sha384.as_slice()) {
        Some(SignatureAlgorithm::RsaSha384)
    } else if bytes_equal(oid, rsa_sha512.as_slice()) {
        Some(SignatureAlgorithm::RsaSha512)
    } else if bytes_equal(oid, ecdsa_p256.as_slice()) {
        Some(SignatureAlgorithm::EcdsaP256Sha256)
    } else if bytes_equal(oid, ecdsa_p384.as_slice()) {
        Some(SignatureAlgorithm::EcdsaP384Sha384)
    } else {
        None
    }
}

/// Why a certificate does not count as signed by another.
#[derive(Debug, Clone, Copy, PartialEq, Eq, Structural)]
pub enum SignatureError {
    /// There is no signed part.
    NoSignedPart,
    /// The certificate cannot be written anew.
    NotEncoded,
    /// The encoding ends before a signature.
    InvalidStructure,
    /// The algorithm is not one that a chain is verified with.
    UnsupportedAlgorithm,
    /// The signature does not verify.
    VerificationFailed,
}

/// Where the signature is looked for in the encoding of a certificate: the lengths
/// of the signed part and of the algorithm's identifier, and eight octets more.
pub open spec fn signature_start(certificate: CertificateFields) -> int {
    certificate.signed_part->0.len() as int + certificate.signature_algorithm.len() + 8
}

/// Whether a certificate counts as signed with the key of another, and why not.
pub open spec fn signature_outcome(
    subject: CertificateFields,
    issuer: CertificateFields,
) -> Result<(), SignatureError> {
    if subject.signed_part is None {
        Err(SignatureError::NoSignedPart)
    } else if subject.encoding is Err {
        Err(SignatureError::NotEncoded)
    } else if signature_start(subject) > subject.encoding->Ok_0.len() {
        Err(SignatureError::InvalidStructure)
    } else {
        match algorithm_of(subject.signature_algorithm) {
            None => Err(SignatureError::UnsupportedAlgorithm),
            Some(algorithm) => if verifies(
                algorithm,
                issuer.public_key,
                subject.signed_part->0,
                subject.encoding->Ok_0.skip(signature_start(subject)),
            ) {
                Ok(())
            } else {
                Err(SignatureError::VerificationFailed)
            },
        }
    }
}

/// Whether `subject` counts as signed with the key of `issuer`.
pub fn verify_certificate_signature(subject: &Certificate, issuer: &Certificate) -> (r: Result<
    (),
    SignatureError,
>)
    ensures
        r == signature_outcome(subject@, issuer@),
{
    let signed_part = match &subject.signed_part {
        Some(signed_part) => signed_part,
        None => return Err(SignatureError::NoSignedPart),
    };
    let encoding = match &subject.encoding {
        Ok(encoding) => encoding,
        Err(_) => return Err(SignatureError::NotEncoded),
    };
    let start = signed_part.len() as u128 + subject.signature_algorithm.len() as u128 + 8;
    if start > encoding.len() as u128 {
        return Err(SignatureError::InvalidStructure);
    }
    let signature = rest_after(encoding.as_slice(), start as usize);
    match find_algorithm(subject.signature_algorithm.as_slice()) {
        None => Err(SignatureError::UnsupportedAlgorithm),
        Some(algorithm) => if verify_signature(
            algorithm,
            issuer.public_key.as_slice(),
            signed_part.as_slice(),
            signature,
        ) {
            Ok(())
        } else {
            Err(SignatureError::VerificationFailed)
        },
    }
}

/// Whether `issuer` issued and signed `subject`.
pub open spec fn issued_by(subject: CertificateFields, issuer: CertificateFields) -> bool {
    &&& subject.issuer_name == issuer.subject_name
    &&& signature_outcome(subject, issuer) is Ok
}

/// Whether there are two certificates or more, each issued by the next.
pub open spec fn is_linked(chain: Seq<CertificateFields>) -> bool {
    &&& chain.len() >= 2
    &&& forall|i: int| 0 <= i < chain.len() - 1 ==> #[trigger] issued_by(chain[i], chain[i + 1])
}

/// What a list of certificates says.
pub open spec fn certificate_fields(certificates: Seq<Certificate>) -> Seq<CertificateFields> {
    Seq::new(certificates.len(), |i: int| certificates[i]@)
}

/// Whether there are two certificates or more, each issued by the next.
pub fn verify_chain_links(certificates: &Vec<Certificate>) -> (linked: bool)
    ensures
        linked == is_linked(certificate_fields(certificates@)),
{
    let ghost chain = certificate_fields(certificates@);
    if certificates.len() < 2 {
        return false;
    }
    let mut i: usize = 0;
    while i < certificates.len() - 1
        invariant
            i <= certificates.len() - 1,
            2 <= certificates.len(),
            chain == certificate_fields(certificates@),
            forall|j: int| 0 <= j < i ==> #[trigger] issued_by(chain[j], chain[j + 1]),
        decreases certificates.len() - i,
    {
        let subject = &certificates[i];
        let issuer = &certificates[i + 1];
        let named = bytes_equal(subject.issuer_name.as_slice(), issuer.subject_name.as_slice());
        if !named || verify_certificate_signature(subject, issuer).is_err() {
            assert(!issued_by(chain[i as int], chain[i + 1]));
            return false;
        }
        assert(issued_by(chain[i as int], chain[i + 1]));
        i += 1;
    }
    true
}

/// What the octets in a list are.
pub open spec fn octet_views(list: Seq<Vec<u8>>) -> Seq<Seq<u8>> {
    Seq::new(list.len(), |i: int| list[i]@)
}

/// Whether a server sent a complete chain: two certificates or more, all of which
/// read, each issued by the next.
pub open spec fn is_complete_chain(ders: Seq<Seq<u8>>) -> bool {
    &&& forall|i: int| 0 <= i < ders.len() ==> certificate_outcome(#[trigger] ders[i]) is Ok
    &&& is_linked(Seq::new(ders.len(), |i: int| fields_of(ders[i])))
}

/// Whether the certificates that a server sent are a complete chain.
pub fn verify_chain_complete(ders: &Vec<Vec<u8>>) -> (complete: bool)
    ensures
        complete == is_complete_chain(octet_views(ders@)),
{
    let ghost views = octet_views(ders@);
    if ders.len() < 2 {
        return false;
    }
    let mut certificates: Vec<Certificate> = Vec::new();
    let mut i: usize = 0;
    while i < ders.len()
        invariant
            i <= ders.len(),
            views == octet_views(ders@),
            certificates.len() == i,
            forall|j: int| 0 <= j < i ==> certificate_outcome(#[trigger] views[j]) is Ok,
            forall|j: int| 0 <= j < i ==> (#[trigger] certificates@[j])@ == fields_of(views[j]),
        decreases ders.len() - i,
    {
        match Certificate::from_der(ders[i].as_slice()) {
            Ok(certificate) => {
                certificates.push(certificate);
            },
            Err(_) => {
                assert(certificate_outcome(views[i as int]) is Err);
                return false;
            },
        }
        i += 1;
    }
    assert(certificate_fields(certificates@) =~= Seq::new(
        views.len(),
        |i: int| fields_of(views[i]),
    ));
    verify_chain_links(&certificates)
}

/// Each field of a certificate is read from its own place in the octets.
pub proof fn fields_are_read_from_their_own_place(der: Seq<u8>)
    ensures
        fields_of(der).subject == subject_of(der),
        fields_of(der).issuer == issuer_of(der),
        fields_of(der).not_before == not_before_of(der),
        fields_of(der).not_after == not_after_of(der),
        fields_of(der).extensions == extensions_of(der),
        fields_of(der).signed_part == signed_part_of(der),
        fields_of(der).encoding == encoding_of(der),
        fields_of(der).signature_algorithm == signature_algorithm_of(der),
        fields_of(der).public_key == public_key_of(der),
        fields_of(der).subject_name == subject_name_of(der),
        fields_of(der).issuer_name == issuer_name_of(der),
        fields_of(der).serial == serial_of(der),
{
}

/// A certificate is viewed by its own fields.
pub proof fn certificates_are_viewed_by_their_fields(certificate: Certificate)
    ensures
        certificate@.subject is Ok == certificate.subject is Ok,
        certificate.subject matches Ok(subject) ==> certificate@.subject == Ok::<
            Seq<char>,
            Seq<char>,
        >(subject@),
        certificate@.issuer is Ok == certificate.issuer is Ok,
        certificate.issuer matches Ok(issuer) ==> certificate@.issuer == Ok::<
            Seq<char>,
            Seq<char>,
        >(issuer@),
        certificate@.not_before == certificate.not_before,
        certificate@.not_after == certificate.not_after,
        certificate@.extensions.len() == certificate.extensions@.len(),
        certificate@.signature_algorithm == certificate.signature_algorithm@,
        certificate@.public_key == certificate.public_key@,
        certificate@.subject_name == certificate.subject_name@,
        certificate@.issuer_name == certificate.issuer_name@,
        certificate@.serial == certificate.serial@,
{
}

/// Whether the signature at the end of a certificate, written anew, verifies under the key in
/// another one.
pub open spec fn carries_signature_of(subject: Seq<u8>, issuer: Seq<u8>) -> bool {
    &&& signed_part_of(subject) is Some
    &&& encoding_of(subject) is Ok
    &&& algorithm_of(signature_algorithm_of(subject)) is Some
    &&& ({
        let part = signed_part_of(subject)->0;
        let encoding = encoding_of(subject)->Ok_0;
        let start = part.len() + signature_algorithm_of(subject).len() + 8;
        &&& start <= encoding.len()
        &&& verifies(
            algorithm_of(signature_algorithm_of(subject))->0,
            public_key_of(issuer),
            part,
            encoding.subrange(start as int, encoding.len() as int),
        )
    })
}

/// A chain is complete exactly where there are two certificates or more, all of them read,
/// and each names the next one as its issuer and carries its signature.
pub proof fn complete_chains_are_signed_link_by_link(ders: Seq<Seq<u8>>)
    ensures
        is_complete_chain(ders) <==> {
            &&& ders.len() >= 2
            &&& forall|i: int| 0 <= i < ders.len() ==> certificate_outcome(#[trigger] ders[i]) is Ok
            &&& forall|i: int|
                0 <= i < ders.len() - 1 ==> issuer_name_of(#[trigger] ders[i]) == subject_name_of(
                    ders[i + 1],
                )
            &&& forall|i: int|
                0 <= i < ders.len() - 1 ==> carries_signature_of(#[trigger] ders[i], ders[i + 1])
        },
{
    let chain = Seq::new(ders.len(), |i: int| fields_of(ders[i]));
    assert forall|i: int| 0 <= i < ders.len() - 1 implies (issued_by(chain[i], chain[i + 1]) <==> (
    issuer_name_of(#[trigger] ders[i]) == subject_name_of(ders[i + 1]) && carries_signature_of(
        ders[i],
        ders[i + 1],
    ))) by {
        assert(chain[i] == fields_of(ders[i]));
        assert(chain[i + 1] == fields_of(ders[i + 1]));
        if encoding_of(ders[i]) is Ok && signed_part_of(ders[i]) is Some {
            let encoding = encoding_of(ders[i])->Ok_0;
            let start = signature_start(fields_of(ders[i]));
            if start <= encoding.len() {
                assert(encoding.skip(start) =~= encoding.subrange(start, encoding.len() as int));
            }
        }
    }
    if is_complete_chain(ders) {
        assert forall|i: int| 0 <= i < ders.len() - 1 implies issuer_name_of(#[trigger] ders[i])
            == subject_name_of(ders[i + 1]) && carries_signature_of(ders[i], ders[i + 1]) by {
            assert(issued_by(chain[i], chain[i + 1]));
        }
    }
}

/// Signatures with RSA and SHA-2 are known by the last octet of their identifier: 11, 12 and
/// 13 for 256, 384 and 512 bits. Those with ECDSA are known by 2 for SHA-256 over P-256 and
/// 3 for SHA-384 over P-384. No other identifier is known.
pub proof fn identifiers_end_with_their_digest(oid: Seq<u8>, last: u8)
    ensures
        ({
            let rsa = seq![42u8, 134, 72, 134, 247, 13, 1, 1].push(last);
            let ecdsa = seq![42u8, 134, 72, 206, 61, 4, 3].push(last);
            &&& algorithm_of(rsa) == Some(SignatureAlgorithm::RsaSha256) <==> last == 11
            &&& algorithm_of(rsa) == Some(SignatureAlgorithm::RsaSha384) <==> last == 12
            &&& algorithm_of(rsa) == Some(SignatureAlgorithm::RsaSha512) <==> last == 13
            &&& algorithm_of(rsa) is Some <==> 11 <= last <= 13
            &&& algorithm_of(ecdsa) == Some(SignatureAlgorithm::EcdsaP256Sha256) <==> last == 2
            &&& algorithm_of(ecdsa) == Some(SignatureAlgorithm::EcdsaP384Sha384) <==> last == 3
            &&& algorithm_of(ecdsa) is Some <==> 2 <= last <= 3
        }),
        algorithm_of(oid) is Some ==> oid.drop_last() == seq![42u8, 134, 72, 134, 247, 13, 1, 1]
            || oid.drop_last() == seq![42u8, 134, 72, 206, 61, 4, 3],
{
    let rsa = seq![42u8, 134, 72, 134, 247, 13, 1, 1].push(last);
    let ecdsa = seq![42u8, 134, 72, 206, 61, 4, 3].push(last);
    assert(rsa =~= seq![42u8, 134, 72, 134, 247, 13, 1, 1, last]);
    assert(ecdsa =~= seq![42u8, 134, 72, 206, 61, 4, 3, last]);
    assert(rsa[8] == last && ecdsa[7] == last);
    assert(seq![42u8, 134, 72, 134, 247, 13, 1, 1, 11][8] == 11);
    assert(seq![42u8, 134, 72, 134, 247, 13, 1, 1, 12][8] == 12);
    assert(seq![42u8, 134, 72, 134, 247, 13, 1, 1, 13][8] == 13);
    assert(seq![42u8, 134, 72, 206, 61, 4, 3, 2][7] == 2);
    assert(seq![42u8, 134, 72, 206, 61, 4, 3, 3][7] == 3);
    assert(rsa.len() == 9 && ecdsa.len() == 8);
    if algorithm_of(oid) is Some {
        if oid.len() == 9 {
            assert(oid.drop_last() =~= seq![42u8, 134, 72, 134, 247, 13, 1, 1]);
        } else {
            assert(oid.drop_last() =~= seq![42u8, 134, 72, 206, 61, 4, 3]);
        }
    }
}

/// The names of a certificate are those of its extensions, one after the other; an extension
/// with another identifier than that of alternative names gives none.
pub proof fn names_are_those_of_the_alternative_names(
    extensions: Seq<ExtensionView>,
    more: Seq<ExtensionView>,
    extension: ExtensionView,
)
    ensures
        names_of_extensions(extensions + more) == names_of_extensions(extensions)
            + names_of_extensions(more),
        extension.id != seq![85u8, 29, 17] ==> names_of_extensions(extensions.push(extension))
            == names_of_extensions(extensions),
    decreases more.len(),
{
    if more.len() == 0 {
        assert(extensions + more =~= extensions);
        assert(names_of_extensions(more) =~= Seq::empty());
    } else {
        names_are_those_of_the_alternative_names(extensions, more.drop_last(), extension);
        assert((extensions + more).drop_last() =~= extensions + more.drop_last());
        assert(names_of_extensions(extensions + more) =~= names_of_extensions(extensions)
            + names_of_extensions(more));
    }
    assert(extensions.push(extension).drop_last() =~= extensions);
    assert(seq![85u8, 29, 17] =~= subject_alternative_name());
    if extension.id != seq![85u8, 29, 17] {
        assert(names_of_extensions(extensions.push(extension)) =~= names_of_extensions(extensions));
    }
}

/// The name of a domain is told as it stands, that of an address where its octets are a text,
/// and no other name; the names that are told keep their order.
pub proof fn names_are_told_in_their_order(
    names: Seq<SubjectNameView>,
    more: Seq<SubjectNameView>,
    domain: Seq<char>,
    octets: Seq<u8>,
)
    ensures
        subject_name_texts(names + more) == subject_name_texts(names) + subject_name_texts(more),
        subject_name_texts(seq![SubjectNameView::Dns(domain)]) == seq![domain],
        subject_name_texts(seq![SubjectNameView::Other]) == Seq::<Seq<char>>::empty(),
        valid_utf8(octets) ==> subject_name_texts(seq![SubjectNameView::Ip(octets)]) == seq![
            decode_utf8(octets),
        ],
        !valid_utf8(octets) ==> subject_name_texts(seq![SubjectNameView::Ip(octets)]) == Seq::<
            Seq<char>,
        >::empty(),
        subject_name_texts(names).len() <= names.len(),
    decreases names.len() + more.len(),
{
    lemma_one_name(SubjectNameView::Dns(domain));
    lemma_one_name(SubjectNameView::Other);
    lemma_one_name(SubjectNameView::Ip(octets));
    lemma_fewer_names(names);
    lemma_more_names(names, more);
}

proof fn lemma_one_name(name: SubjectNameView)
    ensures
        subject_name_texts(seq![name]) == match subject_name_text(name) {
            Some(text) => seq![text],
            None => Seq::empty(),
        },
{
    let one = seq![name];
    assert(one.drop_last() =~= Seq::empty());
    assert(subject_name_texts(one.drop_last()) == Seq::<Seq<char>>::empty());
    assert(one.last() == name);
    if let Some(text) = subject_name_text(name) {
        assert(Seq::<Seq<char>>::empty().push(text) =~= seq![text]);
    }
}

proof fn lemma_fewer_names(names: Seq<SubjectNameView>)
    ensures
        subject_name_texts(names).len() <= names.len(),
    decreases names.len(),
{
    if names.len() > 0 {
        lemma_fewer_names(names.drop_last());
    }
}

proof fn lemma_more_names(names: Seq<SubjectNameView>, more: Seq<SubjectNameView>)
    ensures
        subject_name_texts(names + more) == subject_name_texts(names) + subject_name_texts(more),
    decreases more.len(),
{
    if more.len() == 0 {
        assert(names + more =~= names);
        assert(subject_name_texts(more) =~= Seq::empty());
        assert(subject_name_texts(names) + subject_name_texts(more) =~= subject_name_texts(names));
    } else {
        lemma_more_names(names, more.drop_last());
        assert((names + more).drop_last() =~= names + more.drop_last());
        assert((names + more).last() == more.last());
        assert(subject_name_texts(names + more) =~= subject_name_texts(names) + subject_name_texts(
            more,
        ));
    }
}

/// The names in a sequence are read one after the other, from its beginning: the first is the
/// one that it begins with, and the others are those of what follows the first value.
pub proof fn names_are_read_one_after_the_other(
    content: Seq<u8>,
    missing: nat,
    names: Seq<SubjectNameView>,
)
    requires
        general_names(content, missing) == Some(names),
    ensures
        names.len() > 0 ==> {
            &&& first_general_name(names_sequence(content, missing)).0 == Some(names[0])
            &&& after_first_value(content) is Some
            &&& general_names(after_first_value(content)->0, missing) == Some(names.skip(1))
        },
        names.len() == 0 <==> first_general_name(names_sequence(content, missing)).0 is None,
{
    if names.len() > 0 {
        let after = after_first_value(content)->0;
        let rest = general_names(after, missing)->0;
        assert(names.skip(1) =~= rest);
    }
}

/// The alternative names of a certificate are those in the sequence that their extension
/// holds; where they cannot be read, there are none.
pub proof fn alternative_names_are_those_of_their_sequence(content: Seq<u8>)
    requires
        content.len() < 0x1_0000_0000,
    ensures
        ({
            let extension = ExtensionView {
                id: seq![85u8, 29, 17],
                value: der::encoded(0x30, content),
            };
            names_of_extension(extension) == match general_names(content, 0) {
                Some(names) => subject_name_texts(names),
                None => Seq::empty(),
            }
        }),
{
    let none = Seq::<u8>::empty();
    assert(seq![85u8, 29, 17] =~= subject_alternative_name());
    der::reading_gives_back_what_was_written(0x30, content, none, UNBOUNDED as nat);
    assert(der::encoded(0x30, content) + none =~= der::encoded(0x30, content));
}

} // verus!
