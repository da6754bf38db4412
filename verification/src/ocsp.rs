//! The online certificate status protocol (OCSP): whom to ask whether a
//! certificate was revoked, what to ask, and what the answer says.
use crate::certificate::{self, Certificate, CertificateFields, Extension, ExtensionView};
use crate::der::{
    self, check_integer, check_small_integer, push_value, read_expected, read_value,
    read_value_within, read_whole, Value, CONTEXT_0, CONTEXT_1, CONTEXT_2, CONTEXT_6, ENUMERATED,
    GENERALIZED_TIME, IA5_STRING, INTEGER, NULL, OBJECT_IDENTIFIER, OCTET_STRING, SEQUENCE,
    UNBOUNDED,
};
use crate::text::{self, bytes_equal, read_ascii};
use crate::types::{self, OcspStatus};
use vstd::prelude::*;

verus! {

/// What names the certificate that an answer is about: the algorithm of the
/// hashes, given by an empty sequence, the hashes of the issuer's name and key,
/// and the serial number.
pub open spec fn is_certificate_id(content: Seq<u8>) -> bool {
    match der::expected_at(content, SEQUENCE, true) {
        Some((algorithm, rest)) if algorithm.len() == 0 => match der::expected_at(
            rest,
            OCTET_STRING,
            false,
        ) {
            Some((_, rest)) => match der::expected_at(rest, OCTET_STRING, false) {
                Some((_, rest)) => match der::whole_value(rest, INTEGER, false) {
                    Some(serial) => der::is_integer(serial),
                    None => false,
                },
                None => false,
            },
            None => false,
        },
        _ => false,
    }
}

fn check_certificate_id(content: &[u8]) -> (r: bool)
    ensures
        r == is_certificate_id(content@),
{
    match read_expected(content, SEQUENCE, true) {
        Some((algorithm, rest)) if algorithm.len() == 0 => match read_expected(
            rest,
            OCTET_STRING,
            false,
        ) {
            Some((_, rest)) => match read_expected(rest, OCTET_STRING, false) {
                Some((_, rest)) => match read_whole(rest, INTEGER, false) {
                    Some(serial) => check_integer(serial),
                    None => false,
                },
                None => false,
            },
            None => false,
        },
        _ => false,
    }
}

/// What is said of a revocation: when it was, and perhaps why.
pub open spec fn is_revocation(content: Seq<u8>) -> bool {
    match der::expected_at(content, GENERALIZED_TIME, false) {
        Some((_, rest)) => rest.len() == 0 || match der::whole_value(
            rest,
            ENUMERATED,
            false,
        ) {
            Some(reason) => der::is_small_integer(reason),
            None => false,
        },
        None => false,
    }
}

fn check_revocation(content: &[u8]) -> (r: bool)
    ensures
        r == is_revocation(content@),
{
    match read_expected(content, GENERALIZED_TIME, false) {
        Some((_, rest)) => if rest.len() == 0 {
            true
        } else {
            match read_whole(rest, ENUMERATED, false) {
                Some(reason) => check_small_integer(reason),
                None => false,
            }
        },
        None => false,
    }
}

/// The status that one answer gives, in the octets after the name of the
/// certificate. An empty element numbered 0 at their end says that the
/// certificate is good, one numbered 1 that it was revoked.
pub open spec fn status_in(input: Seq<u8>) -> OcspStatus {
    match der::value_at(input, CONTEXT_0) {
        der::ValueView::Absent => match der::whole_value(input, CONTEXT_1, true) {
            Some(revocation) if is_revocation(revocation) => OcspStatus::Revoked,
            _ => OcspStatus::Unknown,
        },
        der::ValueView::Value { constructed, content, after, .. } if constructed && content.len()
            == 0 && after.len() == 0 => OcspStatus::Good,
        _ => OcspStatus::Unknown,
    }
}

fn read_status(input: &[u8]) -> (status: OcspStatus)
    ensures
        status == status_in(input@),
{
    match read_value(input, CONTEXT_0) {
        Value::Absent => match read_whole(input, CONTEXT_1, true) {
            Some(revocation) if check_revocation(revocation) => OcspStatus::Revoked,
            _ => OcspStatus::Unknown,
        },
        Value::Value { constructed, content, after, .. } => if constructed && content.len() == 0
            && after.len() == 0 {
            OcspStatus::Good
        } else {
            OcspStatus::Unknown
        },
        _ => OcspStatus::Unknown,
    }
}

/// The status that one answer gives.
pub open spec fn answer_status(content: Seq<u8>) -> OcspStatus {
    match der::expected_at(content, SEQUENCE, true) {
        Some((id, rest)) if is_certificate_id(id) => status_in(rest),
        _ => OcspStatus::Unknown,
    }
}

/// Octets, and how many more were announced than there are.
pub struct WindowView {
    pub octets: Seq<u8>,
    pub missing: nat,
}

/// Octets, and how many more were announced than there are.
#[derive(Debug, Clone, Copy)]
struct Window<'a> {
    octets: &'a [u8],
    missing: u64,
}

impl<'a> View for Window<'a> {
    type V = WindowView;

    closed spec fn view(&self) -> WindowView {
        WindowView { octets: self.octets@, missing: self.missing as nat }
    }
}

/// What an optional window says.
closed spec fn optional_window(window: Option<Window<'_>>) -> Option<WindowView> {
    match window {
        Some(window) => Some(window@),
        None => None,
    }
}

impl WindowView {
    /// The value with tag `tag` that the window begins with.
    pub open spec fn value(self, tag: u8) -> der::ValueView {
        der::value_within(self.octets, self.missing, tag)
    }

    /// Nothing is left, and nothing was announced.
    pub open spec fn is_over(self) -> bool {
        self.octets.len() == 0 && self.missing == 0
    }

    /// What follows a value with `lacking` missing octets, before `after`.
    pub open spec fn followed_by(self, lacking: nat, after: Seq<u8>) -> WindowView {
        WindowView { octets: after, missing: (self.missing - lacking) as nat }
    }
}

/// The content of the constructed value with tag `tag` that is the whole of a window.
pub open spec fn whole_window(window: WindowView, tag: u8) -> Option<WindowView> {
    match window.value(tag) {
        der::ValueView::Value { constructed, content, lacking, after } if constructed
            && window.followed_by(lacking, after).is_over() => Some(
            WindowView { octets: content, missing: lacking },
        ),
        _ => None,
    }
}

fn read_whole_window<'a>(window: Window<'a>, tag: u8) -> (content: Option<Window<'a>>)
    ensures
        optional_window(content) == whole_window(window@, tag),
{
    match read_value_within(window.octets, window.missing, tag) {
        Value::Value { constructed, content, lacking, after } => if constructed && after.len() == 0
            && window.missing - lacking == 0 {
            Some(Window { octets: content, missing: lacking })
        } else {
            None
        },
        _ => None,
    }
}

/// What follows the code that a response begins with.
pub open spec fn after_code(window: WindowView) -> Option<WindowView> {
    match window.value(ENUMERATED) {
        der::ValueView::Value { constructed, content, lacking, after } if !constructed && lacking
            == 0 && der::is_small_integer(content) => Some(window.followed_by(0, after)),
        _ => None,
    }
}

fn read_code<'a>(window: Window<'a>) -> (rest: Option<Window<'a>>)
    ensures
        optional_window(rest) == after_code(window@),
{
    match read_value_within(window.octets, window.missing, ENUMERATED) {
        Value::Value { constructed, content, lacking, after } => if !constructed && lacking == 0
            && check_small_integer(content) {
            Some(Window { octets: after, missing: window.missing })
        } else {
            None
        },
        _ => None,
    }
}

/// What follows the version, where the window begins with one.
pub open spec fn after_version(window: WindowView) -> Option<WindowView> {
    match window.value(CONTEXT_0) {
        der::ValueView::Absent => Some(window),
        der::ValueView::Value { constructed, content, lacking, after } if constructed && lacking
            == 0 => match der::whole_value(content, INTEGER, false) {
            Some(version) if der::is_small_integer(version) => Some(
                window.followed_by(0, after),
            ),
            _ => None,
        },
        _ => None,
    }
}

fn read_version<'a>(window: Window<'a>) -> (rest: Option<Window<'a>>)
    ensures
        optional_window(rest) == after_version(window@),
{
    match read_value_within(window.octets, window.missing, CONTEXT_0) {
        Value::Absent => Some(window),
        Value::Value { constructed, content, lacking, after } => if constructed && lacking == 0 {
            match read_whole(content, INTEGER, false) {
                Some(version) if check_small_integer(version) => Some(
                    Window { octets: after, missing: window.missing },
                ),
                _ => None,
            }
        } else {
            None
        },
        _ => None,
    }
}

/// Whether a responder's name reads, and what follows it. A responder's name is an
/// element numbered 1 with an octet string in it, and may be left out. Where it
/// does not read, what follows begins where reading stopped, and ends where the
/// element that could not be read ends.
pub open spec fn after_responder_name(window: WindowView) -> (bool, WindowView) {
    match window.value(CONTEXT_1) {
        der::ValueView::Absent => (true, window),
        der::ValueView::Broken { rest } => (false, WindowView { octets: rest, ..window }),
        der::ValueView::Value { constructed, content, lacking, after } => {
            let element = WindowView { octets: content, missing: lacking };
            if !constructed {
                (false, element)
            } else {
                match element.value(OCTET_STRING) {
                    der::ValueView::Absent => (false, element),
                    der::ValueView::Broken { rest } => (
                        false,
                        WindowView { octets: rest, ..element },
                    ),
                    der::ValueView::Value {
                        constructed,
                        content: name,
                        lacking: name_lacking,
                        after: left,
                    } => if constructed {
                        (false, WindowView { octets: name, missing: name_lacking })
                    } else if name_lacking > 0 {
                        (false, WindowView { octets: Seq::empty(), missing: name_lacking })
                    } else if element.followed_by(0, left).is_over() {
                        (true, window.followed_by(lacking, after))
                    } else {
                        (false, element.followed_by(0, left))
                    },
                }
            }
        },
    }
}

fn read_responder_name<'a>(window: Window<'a>) -> (r: (bool, Window<'a>))
    ensures
        (r.0, r.1@) == after_responder_name(window@),
{
    match read_value_within(window.octets, window.missing, CONTEXT_1) {
        Value::Absent => (true, window),
        Value::Broken { rest } => (false, Window { octets: rest, missing: window.missing }),
        Value::Value { constructed, content, lacking, after } => {
            let element = Window { octets: content, missing: lacking };
            if !constructed {
                return (false, element);
            }
            match read_value_within(content, lacking, OCTET_STRING) {
                Value::Absent => (false, element),
                Value::Broken { rest } => (false, Window { octets: rest, missing: lacking }),
                Value::Value {
                    constructed,
                    content: name,
                    lacking: name_lacking,
                    after: left,
                } => if constructed {
                    (false, Window { octets: name, missing: name_lacking })
                } else if name_lacking > 0 {
                    let end = der::rest_after(name, name.len());
                    assert(end@ =~= Seq::<u8>::empty());
                    (false, Window { octets: end, missing: name_lacking })
                } else if left.len() == 0 && lacking == 0 {
                    (true, Window { octets: after, missing: window.missing })
                } else {
                    (false, Window { octets: left, missing: lacking })
                },
            }
        },
    }
}

/// What follows the responder's identity: its name or, where that does not read,
/// perhaps an element numbered 2 with an empty sequence in it.
pub open spec fn after_responder(window: WindowView) -> Option<WindowView> {
    let (reads, rest) = after_responder_name(window);
    if reads {
        Some(rest)
    } else {
        match rest.value(CONTEXT_2) {
            der::ValueView::Absent => Some(rest),
            der::ValueView::Value { constructed, content, lacking, after } if constructed
                && lacking == 0 && der::whole_value(content, SEQUENCE, true) == Some(
                Seq::<u8>::empty(),
            ) => Some(rest.followed_by(0, after)),
            _ => None,
        }
    }
}

fn read_responder<'a>(window: Window<'a>) -> (rest: Option<Window<'a>>)
    ensures
        optional_window(rest) == after_responder(window@),
{
    let (reads, rest) = read_responder_name(window);
    if reads {
        return Some(rest);
    }
    match read_value_within(rest.octets, rest.missing, CONTEXT_2) {
        Value::Absent => Some(rest),
        Value::Value { constructed, content, lacking, after } => if constructed && lacking == 0 {
            match read_whole(content, SEQUENCE, true) {
                Some(key) => if key.len() == 0 {
                    assert(key@ =~= Seq::<u8>::empty());
                    Some(Window { octets: after, missing: rest.missing })
                } else {
                    None
                },
                None => None,
            }
        } else {
            None
        },
        _ => None,
    }
}

/// The status that a list of one answer gives, after the time of the response. The
/// list is there to its end.
pub open spec fn listed_status(window: WindowView) -> OcspStatus {
    match der::expected_at(window.octets, GENERALIZED_TIME, false) {
        Some((_, rest)) if window.missing == 0 => match der::whole_value(rest, SEQUENCE, true) {
            Some(answers) => match der::whole_value(answers, SEQUENCE, true) {
                Some(answer) => answer_status(answer),
                None => OcspStatus::Unknown,
            },
            None => OcspStatus::Unknown,
        },
        _ => OcspStatus::Unknown,
    }
}

fn read_list(window: Window<'_>) -> (status: OcspStatus)
    ensures
        status == listed_status(window@),
{
    if window.missing > 0 {
        return OcspStatus::Unknown;
    }
    let rest = match read_expected(window.octets, GENERALIZED_TIME, false) {
        Some((_, rest)) => rest,
        None => return OcspStatus::Unknown,
    };
    let answers = match read_whole(rest, SEQUENCE, true) {
        Some(answers) => answers,
        None => return OcspStatus::Unknown,
    };
    let answer = match read_whole(answers, SEQUENCE, true) {
        Some(answer) => answer,
        None => return OcspStatus::Unknown,
    };
    match read_expected(answer, SEQUENCE, true) {
        Some((id, rest)) if check_certificate_id(id) => read_status(rest),
        _ => OcspStatus::Unknown,
    }
}

/// The status that a basic response gives: after the version, the responder and
/// the time of the response, a list of one answer.
pub open spec fn basic_status(window: WindowView) -> OcspStatus {
    match after_version(window) {
        Some(rest) => match after_responder(rest) {
            Some(rest) => listed_status(rest),
            None => OcspStatus::Unknown,
        },
        None => OcspStatus::Unknown,
    }
}

fn read_basic(window: Window<'_>) -> (status: OcspStatus)
    ensures
        status == basic_status(window@),
{
    match read_version(window) {
        Some(rest) => match read_responder(rest) {
            Some(rest) => read_list(rest),
            None => OcspStatus::Unknown,
        },
        None => OcspStatus::Unknown,
    }
}

/// The content of the sequence that a response is, cut off where the response ends.
/// What follows the sequence is not looked at.
pub open spec fn response_content(response: Seq<u8>) -> Option<WindowView> {
    match der::value_within(response, UNBOUNDED as nat, SEQUENCE) {
        der::ValueView::Value { constructed, content, lacking, .. } if constructed => Some(
            WindowView { octets: content, missing: lacking },
        ),
        _ => None,
    }
}

/// The status that a response gives: a sequence of the response status and an
/// element numbered 0 with a basic response in it. Anything else says nothing.
pub open spec fn response_status(response: Seq<u8>) -> OcspStatus {
    match response_content(response) {
        Some(content) => match after_code(content) {
            Some(rest) => match whole_window(rest, CONTEXT_0) {
                Some(bytes) => match whole_window(bytes, SEQUENCE) {
                    Some(basic) => basic_status(basic),
                    None => OcspStatus::Unknown,
                },
                None => OcspStatus::Unknown,
            },
            None => OcspStatus::Unknown,
        },
        None => OcspStatus::Unknown,
    }
}

/// What a responder's reply says of the certificate that was asked about.
pub fn parse_ocsp_response(bytes: &[u8]) -> (status: OcspStatus)
    ensures
        status == response_status(bytes@),
{
    let content = match read_value_within(bytes, UNBOUNDED, SEQUENCE) {
        Value::Value { constructed, content, lacking, .. } => if constructed {
            Window { octets: content, missing: lacking }
        } else {
            return OcspStatus::Unknown;
        },
        _ => return OcspStatus::Unknown,
    };
    let rest = match read_code(content) {
        Some(rest) => rest,
        None => return OcspStatus::Unknown,
    };
    let response_bytes = match read_whole_window(rest, CONTEXT_0) {
        Some(response_bytes) => response_bytes,
        None => return OcspStatus::Unknown,
    };
    match read_whole_window(response_bytes, SEQUENCE) {
        Some(basic) => read_basic(basic),
        None => OcspStatus::Unknown,
    }
}

/// The content of the object identifier of OCSP as a way to learn more about a
/// certificate: 1.3.6.1.5.5.7.48.1.
pub open spec fn ocsp_identifier() -> Seq<u8> {
    seq![43, 6, 1, 5, 5, 7, 48, 1]
}

/// The content of the object identifier of the extension that says where to learn
/// more about a certificate: 1.3.6.1.5.5.7.1.1.
pub open spec fn authority_information_access() -> Seq<u8> {
    seq![43, 6, 1, 5, 5, 7, 1, 1]
}

/// Whether content octets are an object identifier.
pub open spec fn is_object_identifier(content: Seq<u8>) -> bool {
    content.len() > 0 && content.last() < 0x80
}

/// The address in an element numbered 6 that is the whole of some input.
pub open spec fn location_in(input: Seq<u8>) -> Option<Seq<char>> {
    match der::whole_value(input, CONTEXT_6, true) {
        Some(name) => match der::whole_value(name, IA5_STRING, false) {
            Some(octets) if text::is_ascii_octets(octets) => Some(
                text::ascii_text(octets),
            ),
            _ => None,
        },
        None => None,
    }
}

/// The responder's address in a list of descriptions: each a sequence of an object
/// identifier and, for OCSP, an address. The description for OCSP is the last one;
/// one for another identifier holds nothing more.
pub open spec fn responder_in(descriptions: Seq<u8>) -> Option<Seq<char>>
    decreases descriptions.len(),
{
    match der::expected_at(descriptions, SEQUENCE, true) {
        Some((description, after)) => match der::expected_at(
            description,
            OBJECT_IDENTIFIER,
            false,
        ) {
            Some((method, rest)) if is_object_identifier(method) => if method
                == ocsp_identifier() {
                if after.len() == 0 {
                    location_in(rest)
                } else {
                    None
                }
            } else if rest.len() == 0 && after.len() < descriptions.len() {
                responder_in(after)
            } else {
                None
            },
            _ => None,
        },
        None => None,
    }
}

/// The responder's address that the value of an extension gives.
pub open spec fn responder_of_value(value: Seq<u8>) -> Option<Seq<char>> {
    match der::expected_at(value, SEQUENCE, true) {
        Some((descriptions, _)) => responder_in(descriptions),
        None => None,
    }
}

fn check_object_identifier(content: &[u8]) -> (r: bool)
    ensures
        r == is_object_identifier(content@),
{
    content.len() > 0 && content[content.len() - 1] < 0x80
}

fn read_location(input: &[u8]) -> (location: Option<String>)
    ensures
        types::optional_text(location) == location_in(input@),
{
    match read_whole(input, CONTEXT_6, true) {
        Some(name) => match read_whole(name, IA5_STRING, false) {
            Some(octets) => read_ascii(octets),
            None => None,
        },
        None => None,
    }
}

fn is_ocsp_identifier(content: &[u8]) -> (r: bool)
    ensures
        r == (content@ == ocsp_identifier()),
{
    let identifier: [u8; 8] = [43, 6, 1, 5, 5, 7, 48, 1];
    assert(identifier@ =~= ocsp_identifier());
    bytes_equal(content, identifier.as_slice())
}

fn read_responder_address(descriptions: &[u8]) -> (address: Option<String>)
    ensures
        types::optional_text(address) == responder_in(descriptions@),
{
    let mut left = descriptions;
    loop
        invariant
            responder_in(left@) == responder_in(descriptions@),
        decreases left.len(),
    {
        let (description, after) = match read_expected(left, SEQUENCE, true) {
            Some(read) => read,
            None => return None,
        };
        let (method, rest) = match read_expected(description, OBJECT_IDENTIFIER, false) {
            Some(read) => read,
            None => return None,
        };
        if !check_object_identifier(method) {
            return None;
        }
        if is_ocsp_identifier(method) {
            return if after.len() == 0 {
                read_location(rest)
            } else {
                None
            };
        }
        if rest.len() > 0 || after.len() >= left.len() {
            return None;
        }
        left = after;
    }
}

/// The responder's address that the first `n` extensions give: that of the first
/// extension for the purpose that gives one.
pub open spec fn responder_of_extensions(
    extensions: Seq<ExtensionView>,
    n: nat,
) -> Option<Seq<char>>
    decreases n,
{
    if n == 0 {
        None
    } else {
        match responder_of_extensions(extensions, (n - 1) as nat) {
            Some(address) => Some(address),
            None => if extensions[n - 1].id == authority_information_access() {
                responder_of_value(extensions[n - 1].value)
            } else {
                None
            },
        }
    }
}

/// The responder's address that a certificate gives.
pub open spec fn responder_of(
    certificate: CertificateFields,
) -> Option<Seq<char>> {
    responder_of_extensions(certificate.extensions, certificate.extensions.len())
}

fn read_extension(extension: &Extension) -> (address: Option<String>)
    ensures
        types::optional_text(address) == (if extension@.id == authority_information_access() {
            responder_of_value(extension@.value)
        } else {
            None
        }),
{
    let identifier: [u8; 8] = [43, 6, 1, 5, 5, 7, 1, 1];
    assert(identifier@ =~= authority_information_access());
    if bytes_equal(extension.id.as_slice(), identifier.as_slice()) {
        match read_expected(extension.value.as_slice(), SEQUENCE, true) {
            Some((descriptions, _)) => read_responder_address(descriptions),
            None => None,
        }
    } else {
        None
    }
}

/// Once an extension gives an address, later ones change nothing.
proof fn lemma_responder_stays(
    extensions: Seq<ExtensionView>,
    n: nat,
    more: nat,
)
    requires
        responder_of_extensions(extensions, n) is Some,
        n <= more,
    ensures
        responder_of_extensions(extensions, more) == responder_of_extensions(extensions, n),
    decreases more,
{
    if n < more {
        lemma_responder_stays(extensions, n, (more - 1) as nat);
    }
}

/// The responder's address that a certificate gives.
pub fn extract_ocsp_url(certificate: &Certificate) -> (address: Option<String>)
    ensures
        types::optional_text(address) == responder_of(certificate@),
{
    let ghost extensions = certificate@.extensions;
    let mut i: usize = 0;
    while i < certificate.extensions.len()
        invariant
            i <= certificate.extensions.len(),
            extensions == certificate::extension_views(certificate.extensions@),
            responder_of_extensions(extensions, i as nat) is None,
        decreases certificate.extensions.len() - i,
    {
        let address = read_extension(&certificate.extensions[i]);
        assert(extensions[i as int] == certificate.extensions@[i as int]@);
        if address.is_some() {
            proof {
                lemma_responder_stays(extensions, (i + 1) as nat, extensions.len());
            }
            return address;
        }
        i += 1;
    }
    None
}

/// The SHA-1 digest of octets.
pub uninterp spec fn sha1(data: Seq<u8>) -> Seq<u8>;

/// `sha1::Sha1`: the digest is a function of the octets, and is 20 octets long.
#[verifier::external_body]
fn sha1_digest(data: &[u8]) -> (digest: Vec<u8>)
    ensures
        digest@ == sha1(data@),
        digest@.len() == 20,
{
    <sha1::Sha1 as sha1::Digest>::digest(data).to_vec()
}

/// The content of the object identifier that a request begins with:
/// 1.3.6.1.5.5.7.48.1.1.
pub open spec fn basic_response_identifier() -> Seq<u8> {
    seq![43, 6, 1, 5, 5, 7, 48, 1, 1]
}

/// The request about the certificate with the serial number `serial` of the issuer
/// whose name and key have these digests.
pub open spec fn request_octets(
    name_digest: Seq<u8>,
    key_digest: Seq<u8>,
    serial: Seq<u8>,
) -> Seq<u8> {
    der::encoded(
        0x30,
        der::encoded(
            0x30,
            der::encoded(OBJECT_IDENTIFIER, basic_response_identifier()) + der::encoded(
                NULL,
                Seq::empty(),
            ),
        ) + der::encoded(
            0x30,
            der::encoded(
                0x30,
                der::encoded(OCTET_STRING, name_digest) + der::encoded(OCTET_STRING, key_digest)
                    + der::encoded(INTEGER, serial),
            ),
        ),
    )
}

/// The request about `leaf` for the responder of `issuer`: none where the issuer's
/// name is empty or the serial number is no integer.
pub open spec fn request_of(
    leaf: CertificateFields,
    issuer: CertificateFields,
) -> Option<Seq<u8>> {
    if issuer.subject_name.len() > 0 && der::is_integer(leaf.serial) {
        Some(request_octets(sha1(issuer.subject_name), sha1(issuer.public_key), leaf.serial))
    } else {
        None
    }
}

fn write_request(name_digest: &[u8], key_digest: &[u8], serial: &[u8]) -> (request: Vec<u8>)
    ensures
        request@ == request_octets(name_digest@, key_digest@, serial@),
{
    let identifier: [u8; 9] = [43, 6, 1, 5, 5, 7, 48, 1, 1];
    assert(identifier@ =~= basic_response_identifier());
    let nothing: [u8; 0] = [];
    assert(nothing@ =~= Seq::<u8>::empty());
    let mut kind: Vec<u8> = Vec::new();
    push_value(&mut kind, OBJECT_IDENTIFIER, identifier.as_slice());
    push_value(&mut kind, NULL, nothing.as_slice());
    assert(kind@ =~= der::encoded(OBJECT_IDENTIFIER, basic_response_identifier()) + der::encoded(
        NULL,
        Seq::empty(),
    ));
    let mut id: Vec<u8> = Vec::new();
    push_value(&mut id, OCTET_STRING, name_digest);
    push_value(&mut id, OCTET_STRING, key_digest);
    push_value(&mut id, INTEGER, serial);
    assert(id@ =~= der::encoded(OCTET_STRING, name_digest@) + der::encoded(
        OCTET_STRING,
        key_digest@,
    ) + der::encoded(INTEGER, serial@));
    let mut ids: Vec<u8> = Vec::new();
    push_value(&mut ids, 0x30, id.as_slice());
    assert(ids@ =~= der::encoded(0x30, id@));
    let mut content: Vec<u8> = Vec::new();
    push_value(&mut content, 0x30, kind.as_slice());
    push_value(&mut content, 0x30, ids.as_slice());
    assert(content@ =~= der::encoded(0x30, kind@) + der::encoded(0x30, ids@));
    let mut request: Vec<u8> = Vec::new();
    push_value(&mut request, 0x30, content.as_slice());
    assert(request@ =~= der::encoded(0x30, content@));
    request
}

/// The request about `leaf` for the responder of `issuer`.
pub fn build_ocsp_request(leaf: &Certificate, issuer: &Certificate) -> (request: Option<Vec<u8>>)
    ensures
        certificate::optional_octets(request) == request_of(leaf@, issuer@),
{
    if issuer.subject_name.len() == 0 || !check_integer(leaf.serial.as_slice()) {
        return None;
    }
    let name_digest = sha1_digest(issuer.subject_name.as_slice());
    let key_digest = sha1_digest(issuer.public_key.as_slice());
    Some(write_request(name_digest.as_slice(), key_digest.as_slice(), leaf.serial.as_slice()))
}

/// A question to a responder: where to send it, and its octets.
#[derive(Debug)]
pub struct OcspQuery {
    pub url: String,
    pub request: Vec<u8>,
}

/// What an optional question says: its address and its octets.
pub open spec fn optional_query(query: Option<OcspQuery>) -> Option<(Seq<char>, Seq<u8>)> {
    match query {
        Some(query) => Some((query.url@, query.request@)),
        None => None,
    }
}

/// The question about `leaf` that a chain of certificates allows: one where the
/// leaf names a responder, the chain holds a second certificate that reads, and a
/// request can be made of the two.
pub open spec fn query_of(
    leaf: CertificateFields,
    chain: Seq<Seq<u8>>,
) -> Option<(Seq<char>, Seq<u8>)> {
    match responder_of(leaf) {
        Some(url) => if chain.len() >= 2 && certificate::certificate_outcome(
            chain[1],
        ) is Ok {
            match request_of(leaf, certificate::fields_of(chain[1])) {
                Some(request) => Some((url, request)),
                None => None,
            }
        } else {
            None
        },
        None => None,
    }
}

/// The question about `leaf` that a chain of certificates allows.
pub fn ocsp_query(leaf: &Certificate, chain: &Vec<Vec<u8>>) -> (query: Option<OcspQuery>)
    ensures
        optional_query(query) == query_of(leaf@, certificate::octet_views(chain@)),
{
    let url = match extract_ocsp_url(leaf) {
        Some(url) => url,
        None => return None,
    };
    if chain.len() < 2 {
        return None;
    }
    assert(certificate::octet_views(chain@)[1] == chain@[1]@);
    let issuer = match Certificate::from_der(chain[1].as_slice()) {
        Ok(issuer) => issuer,
        Err(_) => return None,
    };
    match build_ocsp_request(leaf, &issuer) {
        Some(request) => Some(OcspQuery { url, request }),
        None => None,
    }
}

/// How a question to a responder went.
#[derive(Debug)]
pub enum OcspReply {
    /// There was no question, or it got no reply.
    Nothing,
    /// The reply, whether its status was one of success, and its body, if that
    /// could be read.
    Reply { success: bool, body: Option<Vec<u8>> },
}

/// What a reply says of a certificate: nothing, unless it came with a status of
/// success and a body.
pub open spec fn reply_status(reply: OcspReply) -> OcspStatus {
    match reply {
        OcspReply::Reply { success: true, body: Some(body) } => response_status(body@),
        _ => OcspStatus::Unknown,
    }
}

/// What a reply says of a certificate.
pub fn check_ocsp_status(reply: &OcspReply) -> (status: OcspStatus)
    ensures
        status == reply_status(*reply),
{
    match reply {
        OcspReply::Reply { success, body } => if *success {
            match body {
                Some(body) => parse_ocsp_response(body.as_slice()),
                None => OcspStatus::Unknown,
            }
        } else {
            OcspStatus::Unknown
        },
        OcspReply::Nothing => OcspStatus::Unknown,
    }
}

/// The octets of one answer: the name of a certificate, then its status.
pub open spec fn answer_octets(
    name_digest: Seq<u8>,
    key_digest: Seq<u8>,
    serial: Seq<u8>,
    status: Seq<u8>,
) -> Seq<u8> {
    der::encoded(
        0x30,
        der::encoded(0x30, Seq::empty()) + der::encoded(OCTET_STRING, name_digest) + der::encoded(
            OCTET_STRING,
            key_digest,
        ) + der::encoded(INTEGER, serial),
    ) + status
}

/// The octets of a response with one answer.
pub open spec fn response_octets(
    code: u8,
    responder: Seq<u8>,
    produced_at: Seq<u8>,
    answer: Seq<u8>,
) -> Seq<u8> {
    der::encoded(
        0x30,
        der::encoded(ENUMERATED, seq![code]) + der::encoded(
            0xa0,
            der::encoded(
                0x30,
                der::encoded(0xa1, der::encoded(OCTET_STRING, responder)) + der::encoded(
                    GENERALIZED_TIME,
                    produced_at,
                ) + der::encoded(0x30, der::encoded(0x30, answer)),
            ),
        ),
    )
}

/// A value that was written under one tag is not there under another.
proof fn lemma_absent(identifier: u8, content: Seq<u8>, after: Seq<u8>, tag: u8)
    requires
        identifier % 32 != 31,
        der::tag_of(identifier) != tag,
    ensures
        der::value_at(der::encoded(identifier, content) + after, tag) is Absent,
{
    reveal(der::encoded);
    reveal(der::value_within);
}

/// A value is no shorter than its content.
proof fn lemma_longer(identifier: u8, content: Seq<u8>)
    ensures
        der::encoded(identifier, content).len() >= content.len(),
{
    reveal(der::encoded);
}

/// A value that was written is read whole, or with what follows it.
proof fn lemma_expected(identifier: u8, content: Seq<u8>, after: Seq<u8>)
    requires
        identifier % 32 != 31,
        content.len() < 0x1_0000_0000,
    ensures
        der::expected_at(
            der::encoded(identifier, content) + after,
            der::tag_of(identifier),
            der::is_constructed(identifier),
        ) == Some((content, after)),
        forall|missing: nat|
            #[trigger] der::value_within(
                der::encoded(identifier, content) + after,
                missing,
                der::tag_of(identifier),
            ) == (der::ValueView::Value {
                constructed: der::is_constructed(identifier),
                content,
                lacking: 0,
                after,
            }),
        after.len() == 0 ==> der::encoded(identifier, content) + after == der::encoded(
            identifier,
            content,
        ),
{
    assert forall|missing: nat|
        #[trigger] der::value_within(
            der::encoded(identifier, content) + after,
            missing,
            der::tag_of(identifier),
        ) == (der::ValueView::Value {
            constructed: der::is_constructed(identifier),
            content,
            lacking: 0,
            after,
        }) by {
        der::reading_gives_back_what_was_written(identifier, content, after, missing);
    }
    if after.len() == 0 {
        assert(der::encoded(identifier, content) + after =~= der::encoded(identifier, content));
    }
}

proof fn lemma_answer(
    name_digest: Seq<u8>,
    key_digest: Seq<u8>,
    serial: Seq<u8>,
    status: Seq<u8>,
)
    requires
        der::is_integer(serial),
        answer_octets(name_digest, key_digest, serial, status).len() < 0x1_0000_0000,
    ensures
        answer_status(answer_octets(name_digest, key_digest, serial, status)) == status_in(status),
{
    let none = Seq::<u8>::empty();
    let serial_value = der::encoded(INTEGER, serial);
    let key_value = der::encoded(OCTET_STRING, key_digest);
    let name_value = der::encoded(OCTET_STRING, name_digest);
    let algorithm = der::encoded(0x30, none);
    let id = algorithm + name_value + key_value + serial_value;
    lemma_longer(0x30, id);
    lemma_longer(INTEGER, serial);
    lemma_longer(OCTET_STRING, key_digest);
    lemma_longer(OCTET_STRING, name_digest);
    lemma_expected(0x30, id, status);
    lemma_expected(0x30, none, name_value + key_value + serial_value);
    assert(id =~= algorithm + (name_value + key_value + serial_value));
    lemma_expected(OCTET_STRING, name_digest, key_value + serial_value);
    assert(name_value + key_value + serial_value =~= name_value + (key_value + serial_value));
    lemma_expected(OCTET_STRING, key_digest, serial_value);
    lemma_expected(INTEGER, serial, none);
    assert(is_certificate_id(id));
}

proof fn lemma_response(code: u8, responder: Seq<u8>, produced_at: Seq<u8>, answer: Seq<u8>)
    requires
        code < 0x80,
        response_octets(code, responder, produced_at, answer).len() < 0x1_0000_0000,
    ensures
        response_status(response_octets(code, responder, produced_at, answer)) == answer_status(
            answer,
        ),
        answer.len() < 0x1_0000_0000,
{
    let none = Seq::<u8>::empty();
    let name = der::encoded(0xa1, der::encoded(OCTET_STRING, responder));
    let time = der::encoded(GENERALIZED_TIME, produced_at);
    let answers = der::encoded(0x30, der::encoded(0x30, answer));
    let basic = name + time + answers;
    let bytes = der::encoded(0xa0, der::encoded(0x30, basic));
    let status = der::encoded(ENUMERATED, seq![code]);
    lemma_longer(0x30, status + bytes);
    lemma_longer(0xa0, der::encoded(0x30, basic));
    lemma_longer(0x30, basic);
    lemma_longer(0xa1, der::encoded(OCTET_STRING, responder));
    lemma_longer(OCTET_STRING, responder);
    lemma_longer(GENERALIZED_TIME, produced_at);
    lemma_longer(0x30, der::encoded(0x30, answer));
    lemma_longer(0x30, answer);
    lemma_expected(0x30, status + bytes, none);
    lemma_expected(ENUMERATED, seq![code], bytes);
    lemma_expected(0xa0, der::encoded(0x30, basic), none);
    lemma_expected(0x30, basic, none);
    assert(basic =~= name + (time + answers));
    lemma_absent(0xa1, der::encoded(OCTET_STRING, responder), time + answers, CONTEXT_0);
    let window = WindowView { octets: basic, missing: 0 };
    assert(after_version(window) == Some(window));
    lemma_expected(0xa1, der::encoded(OCTET_STRING, responder), time + answers);
    lemma_expected(OCTET_STRING, responder, none);
    assert(after_responder(window) == Some(WindowView { octets: time + answers, missing: 0 }));
    lemma_expected(GENERALIZED_TIME, produced_at, answers);
    lemma_expected(0x30, der::encoded(0x30, answer), none);
    lemma_expected(0x30, answer, none);
}

/// A response with one answer, whose status is the empty element numbered 0, says
/// that the certificate is good.
pub proof fn good_answers_are_read_as_good(
    code: u8,
    responder: Seq<u8>,
    produced_at: Seq<u8>,
    name_digest: Seq<u8>,
    key_digest: Seq<u8>,
    serial: Seq<u8>,
)
    requires
        code < 0x80,
        der::is_integer(serial),
        response_octets(
            code,
            responder,
            produced_at,
            answer_octets(name_digest, key_digest, serial, der::encoded(0xa0, Seq::empty())),
        ).len() < 0x1_0000_0000,
    ensures
        response_status(
            response_octets(
                code,
                responder,
                produced_at,
                answer_octets(name_digest, key_digest, serial, der::encoded(0xa0, Seq::empty())),
            ),
        ) == OcspStatus::Good,
{
    let none = Seq::<u8>::empty();
    let status = der::encoded(0xa0, none);
    let answer = answer_octets(name_digest, key_digest, serial, status);
    lemma_response(code, responder, produced_at, answer);
    lemma_answer(name_digest, key_digest, serial, status);
    lemma_expected(0xa0, none, none);
}

/// A response with one answer, whose status is an element numbered 1 with the time
/// of the revocation in it, says that the certificate was revoked.
pub proof fn revocations_are_read_as_revoked(
    code: u8,
    responder: Seq<u8>,
    produced_at: Seq<u8>,
    name_digest: Seq<u8>,
    key_digest: Seq<u8>,
    serial: Seq<u8>,
    revoked_at: Seq<u8>,
)
    requires
        code < 0x80,
        der::is_integer(serial),
        response_octets(
            code,
            responder,
            produced_at,
            answer_octets(
                name_digest,
                key_digest,
                serial,
                der::encoded(0xa1, der::encoded(GENERALIZED_TIME, revoked_at)),
            ),
        ).len() < 0x1_0000_0000,
    ensures
        response_status(
            response_octets(
                code,
                responder,
                produced_at,
                answer_octets(
                    name_digest,
                    key_digest,
                    serial,
                    der::encoded(0xa1, der::encoded(GENERALIZED_TIME, revoked_at)),
                ),
            ),
        ) == OcspStatus::Revoked,
{
    let none = Seq::<u8>::empty();
    let time = der::encoded(GENERALIZED_TIME, revoked_at);
    let status = der::encoded(0xa1, time);
    let answer = answer_octets(name_digest, key_digest, serial, status);
    lemma_response(code, responder, produced_at, answer);
    lemma_answer(name_digest, key_digest, serial, status);
    lemma_longer(0xa1, time);
    lemma_longer(GENERALIZED_TIME, revoked_at);
    lemma_absent(0xa1, time, none, CONTEXT_0);
    lemma_expected(0xa1, time, none);
    lemma_expected(GENERALIZED_TIME, revoked_at, none);
    assert(is_revocation(time));
}

/// A question is asked about the leaf alone, at the second certificate of the chain: what
/// follows in the chain changes nothing. It goes to the responder that the leaf names, and
/// is asked exactly where there is a responder, a second certificate that reads and has a
/// name, and a serial number.
pub proof fn questions_are_asked_at_the_second_certificate(
    leaf: CertificateFields,
    chain: Seq<Seq<u8>>,
)
    ensures
        chain.len() >= 2 ==> query_of(leaf, chain) == query_of(leaf, chain.take(2)),
        chain.len() < 2 ==> query_of(leaf, chain) is None,
        query_of(leaf, chain) matches Some((url, request)) ==> {
            &&& responder_of(leaf) == Some(url)
            &&& request_of(leaf, certificate::fields_of(chain[1])) == Some(request)
        },
        query_of(leaf, chain) is Some <==> {
            &&& responder_of(leaf) is Some
            &&& chain.len() >= 2
            &&& certificate::certificate_outcome(chain[1]) is Ok
            &&& certificate::subject_name_of(chain[1]).len() > 0
            &&& der::is_integer(leaf.serial)
        },
{
}

/// Two chains with the same second certificate give the same question, whatever else is in
/// them.
pub proof fn chains_with_one_issuer_give_one_question(
    leaf: CertificateFields,
    chain: Seq<Seq<u8>>,
    other: Seq<Seq<u8>>,
)
    requires
        chain.len() >= 2,
        other.len() >= 2,
        chain[1] == other[1],
    ensures
        query_of(leaf, chain) == query_of(leaf, other),
{
}

/// What a request asks about, as its octets say: the digests of the issuer's name and key,
/// and a serial number.
pub open spec fn asked_in(request: Seq<u8>) -> Option<(Seq<u8>, Seq<u8>, Seq<u8>)> {
    match der::whole_value(request, SEQUENCE, true) {
        Some(content) => match der::expected_at(content, SEQUENCE, true) {
            Some((_, rest)) => match der::whole_value(rest, SEQUENCE, true) {
                Some(ids) => match der::whole_value(ids, SEQUENCE, true) {
                    Some(id) => match der::expected_at(id, OCTET_STRING, false) {
                        Some((name_digest, rest)) => match der::expected_at(
                            rest,
                            OCTET_STRING,
                            false,
                        ) {
                            Some((key_digest, rest)) => match der::whole_value(
                                rest,
                                INTEGER,
                                false,
                            ) {
                                Some(serial) => Some((name_digest, key_digest, serial)),
                                None => None,
                            },
                            None => None,
                        },
                        None => None,
                    },
                    None => None,
                },
                None => None,
            },
            None => None,
        },
        None => None,
    }
}

/// A request that is read back asks about the digest of the issuer's name, the digest of
/// the issuer's key, and the serial number, in this order.
proof fn lemma_asked(name_digest: Seq<u8>, key_digest: Seq<u8>, serial: Seq<u8>)
    requires
        request_octets(name_digest, key_digest, serial).len() < 0x1_0000_0000,
    ensures
        asked_in(request_octets(name_digest, key_digest, serial)) == Some(
            (name_digest, key_digest, serial),
        ),
{
    let none = Seq::<u8>::empty();
    let kind = der::encoded(OBJECT_IDENTIFIER, basic_response_identifier()) + der::encoded(
        NULL,
        none,
    );
    let name_value = der::encoded(OCTET_STRING, name_digest);
    let key_value = der::encoded(OCTET_STRING, key_digest);
    let serial_value = der::encoded(INTEGER, serial);
    let id = name_value + key_value + serial_value;
    let ids = der::encoded(0x30, id);
    let first = der::encoded(0x30, kind);
    let second = der::encoded(0x30, ids);
    lemma_longer(0x30, first + second);
    lemma_longer(0x30, kind);
    lemma_longer(0x30, ids);
    lemma_longer(0x30, id);
    lemma_longer(OCTET_STRING, name_digest);
    lemma_longer(OCTET_STRING, key_digest);
    lemma_longer(INTEGER, serial);
    lemma_expected(0x30, first + second, none);
    lemma_expected(0x30, kind, second);
    lemma_expected(0x30, ids, none);
    lemma_expected(0x30, id, none);
    assert(id =~= name_value + (key_value + serial_value));
    lemma_expected(OCTET_STRING, name_digest, key_value + serial_value);
    lemma_expected(OCTET_STRING, key_digest, serial_value);
    lemma_expected(INTEGER, serial, none);
}

/// The octets of a question, read back, name the leaf by its own serial number, and its
/// issuer by the digests of the name and of the key in the second certificate.
pub proof fn requests_name_the_issuer_and_the_serial_number(
    leaf: CertificateFields,
    chain: Seq<Seq<u8>>,
)
    requires
        query_of(leaf, chain) is Some,
        (query_of(leaf, chain)->0).1.len() < 0x1_0000_0000,
    ensures
        asked_in((query_of(leaf, chain)->0).1) == Some(
            (
                sha1(certificate::subject_name_of(chain[1])),
                sha1(certificate::public_key_of(chain[1])),
                leaf.serial,
            ),
        ),
{
    lemma_asked(
        sha1(certificate::subject_name_of(chain[1])),
        sha1(certificate::public_key_of(chain[1])),
        leaf.serial,
    );
}

/// The description of a responder that is written under the identifier of OCSP, with an
/// ASCII address, is read as that address; descriptions of anything else before it, which
/// hold nothing but their identifier, do not hide it.
pub proof fn written_responders_are_read(address: Seq<u8>, other: Seq<u8>, descriptions: Seq<u8>)
    requires
        text::is_ascii_octets(address),
        address.len() < 0x1000_0000,
        is_object_identifier(other),
        other.len() < 0x1000_0000,
        other != seq![43u8, 6, 1, 5, 5, 7, 48, 1],
    ensures
        ({
            let location = der::encoded(0xa6, der::encoded(IA5_STRING, address));
            let description = der::encoded(
                0x30,
                der::encoded(OBJECT_IDENTIFIER, seq![43u8, 6, 1, 5, 5, 7, 48, 1]) + location,
            );
            responder_of_value(der::encoded(0x30, description)) == Some(text::ascii_text(address))
        }),
        responder_in(
            der::encoded(0x30, der::encoded(OBJECT_IDENTIFIER, other)) + descriptions,
        ) == responder_in(descriptions),
{
    let none = Seq::<u8>::empty();
    let method = seq![43u8, 6, 1, 5, 5, 7, 48, 1];
    let name = der::encoded(IA5_STRING, address);
    let location = der::encoded(0xa6, name);
    let content = der::encoded(OBJECT_IDENTIFIER, method) + location;
    let description = der::encoded(0x30, content);
    assert(method =~= ocsp_identifier());
    lemma_short(IA5_STRING, address);
    lemma_short(0xa6, name);
    lemma_short(OBJECT_IDENTIFIER, method);
    lemma_short(0x30, content);
    lemma_expected(0x30, description, none);
    lemma_expected(0x30, content, none);
    lemma_expected(OBJECT_IDENTIFIER, method, location);
    lemma_expected(0xa6, name, none);
    lemma_expected(IA5_STRING, address, none);
    let identifier = der::encoded(OBJECT_IDENTIFIER, other);
    lemma_short(OBJECT_IDENTIFIER, other);
    lemma_expected(0x30, identifier, descriptions);
    lemma_expected(OBJECT_IDENTIFIER, other, none);
    lemma_short(0x30, identifier);
}

/// A value of moderate length is not much longer than its content, and longer than none.
proof fn lemma_short(identifier: u8, content: Seq<u8>)
    requires
        content.len() < 0x8000_0000,
    ensures
        content.len() < der::encoded(identifier, content).len() <= content.len() + 6,
{
    reveal(der::encoded);
    der::lemma_header_len(identifier, content.len());
}

/// The first extension with the identifier of the authority's information that gives an
/// address is the one that counts, and no other extension does.
pub proof fn the_first_responder_counts(certificate: CertificateFields, k: int)
    requires
        0 <= k < certificate.extensions.len(),
        certificate.extensions[k].id == seq![43u8, 6, 1, 5, 5, 7, 1, 1],
        responder_of_value(certificate.extensions[k].value) is Some,
        forall|j: int|
            0 <= j < k ==> (#[trigger] certificate.extensions[j]).id != seq![
                43u8,
                6,
                1,
                5,
                5,
                7,
                1,
                1,
            ] || responder_of_value(certificate.extensions[j].value) is None,
    ensures
        responder_of(certificate) == responder_of_value(certificate.extensions[k].value),
{
    assert(seq![43u8, 6, 1, 5, 5, 7, 1, 1] =~= authority_information_access());
    lemma_no_responder(certificate.extensions, k as nat);
    lemma_responder_stays(
        certificate.extensions,
        (k + 1) as nat,
        certificate.extensions.len(),
    );
}

/// Extensions that give no address leave the certificate without a responder.
pub proof fn other_extensions_name_no_responder(certificate: CertificateFields)
    requires
        forall|j: int|
            0 <= j < certificate.extensions.len() ==> (#[trigger] certificate.extensions[j]).id
                != seq![43u8, 6, 1, 5, 5, 7, 1, 1] || responder_of_value(
                certificate.extensions[j].value,
            ) is None,
    ensures
        responder_of(certificate) is None,
{
    assert(seq![43u8, 6, 1, 5, 5, 7, 1, 1] =~= authority_information_access());
    lemma_no_responder(certificate.extensions, certificate.extensions.len());
}

proof fn lemma_no_responder(extensions: Seq<ExtensionView>, n: nat)
    requires
        n <= extensions.len(),
        forall|j: int|
            0 <= j < n ==> (#[trigger] extensions[j]).id != authority_information_access()
                || responder_of_value(extensions[j].value) is None,
    ensures
        responder_of_extensions(extensions, n) is None,
    decreases n,
{
    if n > 0 {
        lemma_no_responder(extensions, (n - 1) as nat);
        assert(extensions[n - 1].id != authority_information_access() || responder_of_value(
            extensions[n - 1].value,
        ) is None);
    }
}

/// A response with one answer, whose status is neither an element numbered 0 nor one
/// numbered 1, or is not constructed, or is one numbered 0 that is not empty or not the last
/// thing in the answer, says nothing of the certificate.
pub proof fn other_answers_say_nothing(
    code: u8,
    responder: Seq<u8>,
    produced_at: Seq<u8>,
    name_digest: Seq<u8>,
    key_digest: Seq<u8>,
    serial: Seq<u8>,
    identifier: u8,
    content: Seq<u8>,
    more: Seq<u8>,
)
    requires
        code < 0x80,
        der::is_integer(serial),
        identifier % 32 != 31,
        ({
            ||| der::tag_of(identifier) != 0x80 && der::tag_of(identifier) != 0x81
            ||| der::tag_of(identifier) == 0x80 && (content.len() > 0 || more.len() > 0)
            ||| identifier == 0x80
            ||| identifier == 0x81
        }),
        response_octets(
            code,
            responder,
            produced_at,
            answer_octets(
                name_digest,
                key_digest,
                serial,
                der::encoded(identifier, content) + more,
            ),
        ).len() < 0x1_0000_0000,
    ensures
        response_status(
            response_octets(
                code,
                responder,
                produced_at,
                answer_octets(
                    name_digest,
                    key_digest,
                    serial,
                    der::encoded(identifier, content) + more,
                ),
            ),
        ) == OcspStatus::Unknown,
{
    let status = der::encoded(identifier, content) + more;
    let answer = answer_octets(name_digest, key_digest, serial, status);
    lemma_response(code, responder, produced_at, answer);
    lemma_answer(name_digest, key_digest, serial, status);
    lemma_longer(identifier, content);
    lemma_expected(identifier, content, more);
    if der::tag_of(identifier) != 0x80 {
        lemma_absent(identifier, content, more, CONTEXT_0);
    }
    if der::tag_of(identifier) != 0x81 {
        lemma_absent(identifier, content, more, CONTEXT_1);
    }
}

/// A reply is listened to exactly where it came with a status of success and a body: what
/// the body says then is what counts.
pub proof fn replies_count_where_they_succeed(reply: OcspReply)
    ensures
        reply is Nothing ==> reply_status(reply) == OcspStatus::Unknown,
        reply matches OcspReply::Reply { success, body } ==> reply_status(reply) == (if success
            && body is Some {
            response_status(body->0@)
        } else {
            OcspStatus::Unknown
        }),
{
}

/// The octets of a response with one answer, whose basic response begins with a version.
pub open spec fn versioned_response_octets(
    code: u8,
    version: u8,
    responder: Seq<u8>,
    produced_at: Seq<u8>,
    answer: Seq<u8>,
) -> Seq<u8> {
    der::encoded(
        0x30,
        der::encoded(ENUMERATED, seq![code]) + der::encoded(
            0xa0,
            der::encoded(
                0x30,
                der::encoded(0xa0, der::encoded(INTEGER, seq![version])) + (der::encoded(
                    0xa1,
                    der::encoded(OCTET_STRING, responder),
                ) + der::encoded(GENERALIZED_TIME, produced_at) + der::encoded(
                    0x30,
                    der::encoded(0x30, answer),
                )),
            ),
        ),
    )
}

/// The version of a response, and the code that it begins with, change nothing in what its
/// answer says.
pub proof fn versions_change_no_answer(
    code: u8,
    other_code: u8,
    version: u8,
    responder: Seq<u8>,
    produced_at: Seq<u8>,
    answer: Seq<u8>,
)
    requires
        code < 0x80,
        other_code < 0x80,
        version < 0x80,
        versioned_response_octets(code, version, responder, produced_at, answer).len()
            < 0x1_0000_0000,
        response_octets(other_code, responder, produced_at, answer).len() < 0x1_0000_0000,
    ensures
        response_status(versioned_response_octets(code, version, responder, produced_at, answer))
            == response_status(response_octets(other_code, responder, produced_at, answer)),
{
    let none = Seq::<u8>::empty();
    let number = der::encoded(INTEGER, seq![version]);
    let mark = der::encoded(0xa0, number);
    let name = der::encoded(0xa1, der::encoded(OCTET_STRING, responder));
    let time = der::encoded(GENERALIZED_TIME, produced_at);
    let answers = der::encoded(0x30, der::encoded(0x30, answer));
    let rest = name + time + answers;
    let basic = mark + rest;
    let bytes = der::encoded(0xa0, der::encoded(0x30, basic));
    let status = der::encoded(ENUMERATED, seq![code]);
    lemma_response(other_code, responder, produced_at, answer);
    lemma_longer(0x30, status + bytes);
    lemma_longer(0xa0, der::encoded(0x30, basic));
    lemma_longer(0x30, basic);
    lemma_longer(0xa0, number);
    lemma_longer(INTEGER, seq![version]);
    lemma_longer(0xa1, der::encoded(OCTET_STRING, responder));
    lemma_longer(OCTET_STRING, responder);
    lemma_longer(GENERALIZED_TIME, produced_at);
    lemma_longer(0x30, der::encoded(0x30, answer));
    lemma_longer(0x30, answer);
    lemma_expected(0x30, status + bytes, none);
    lemma_expected(ENUMERATED, seq![code], bytes);
    lemma_expected(0xa0, der::encoded(0x30, basic), none);
    lemma_expected(0x30, basic, none);
    lemma_expected(0xa0, number, rest);
    lemma_expected(INTEGER, seq![version], none);
    let window = WindowView { octets: basic, missing: 0 };
    let after = WindowView { octets: rest, missing: 0 };
    assert(after_version(window) == Some(after));
    assert(rest =~= name + (time + answers));
    lemma_expected(0xa1, der::encoded(OCTET_STRING, responder), time + answers);
    lemma_expected(OCTET_STRING, responder, none);
    assert(after_responder(after) == Some(WindowView { octets: time + answers, missing: 0 }));
    lemma_expected(GENERALIZED_TIME, produced_at, answers);
    lemma_expected(0x30, der::encoded(0x30, answer), none);
    lemma_expected(0x30, answer, none);
}

/// What follows a response changes nothing in what it says.
pub proof fn what_follows_a_response_is_not_looked_at(content: Seq<u8>, more: Seq<u8>)
    requires
        content.len() < 0x1_0000_0000,
    ensures
        response_status(der::encoded(0x30, content) + more) == response_status(
            der::encoded(0x30, content),
        ),
{
    lemma_expected(0x30, content, more);
    lemma_expected(0x30, content, Seq::empty());
}

/// An answer that spells out the algorithm of its digests says nothing: only one that leaves
/// it empty is read.
pub proof fn answers_with_an_algorithm_say_nothing(
    code: u8,
    responder: Seq<u8>,
    produced_at: Seq<u8>,
    algorithm: Seq<u8>,
    rest: Seq<u8>,
    status: Seq<u8>,
)
    requires
        code < 0x80,
        algorithm.len() > 0,
        response_octets(
            code,
            responder,
            produced_at,
            der::encoded(0x30, der::encoded(0x30, algorithm) + rest) + status,
        ).len() < 0x1_0000_0000,
    ensures
        response_status(
            response_octets(
                code,
                responder,
                produced_at,
                der::encoded(0x30, der::encoded(0x30, algorithm) + rest) + status,
            ),
        ) == OcspStatus::Unknown,
{
    let id = der::encoded(0x30, algorithm) + rest;
    let answer = der::encoded(0x30, id) + status;
    lemma_response(code, responder, produced_at, answer);
    lemma_longer(0x30, id);
    lemma_longer(0x30, algorithm);
    lemma_expected(0x30, id, status);
    lemma_expected(0x30, algorithm, rest);
}

} // verus!
