//! Signatures of requests, and the encodings that they and forms are written in.
use crate::text;
use crate::types;
use base64::Engine;
use hmac::Mac;
use vstd::prelude::*;
use vstd::utf8::encode_utf8;

verus! {

/// The keyed digest of a message with SHA-256.
pub uninterp spec fn hmac_sha256(key: Seq<u8>, message: Seq<u8>) -> Seq<u8>;

/// The keyed digest of a message with SHA-1.
pub uninterp spec fn hmac_sha1(key: Seq<u8>, message: Seq<u8>) -> Seq<u8>;

/// `hmac::Hmac` over `sha2::Sha256`. It takes a key of any length; the digest is a
/// function of key and message, and is 32 octets long.
#[verifier::external_body]
pub(crate) fn hmac_sha256_digest(key: &[u8], message: &[u8]) -> (digest: Vec<u8>)
    ensures
        digest@ == hmac_sha256(key@, message@),
        digest@.len() == 32,
{
    let mut mac = hmac::Hmac::<sha2::Sha256>::new_from_slice(key).unwrap();
    mac.update(message);
    mac.finalize().into_bytes().to_vec()
}

/// `hmac::Hmac` over `sha1::Sha1`. It takes a key of any length; the digest is a
/// function of key and message, and is 20 octets long.
#[verifier::external_body]
pub(crate) fn hmac_sha1_digest(key: &[u8], message: &[u8]) -> (digest: Vec<u8>)
    ensures
        digest@ == hmac_sha1(key@, message@),
        digest@.len() == 20,
{
    let mut mac = hmac::Hmac::<sha1::Sha1>::new_from_slice(key).unwrap();
    mac.update(message);
    mac.finalize().into_bytes().to_vec()
}

/// The character that stands for six bits in base64.
pub open spec fn base64_char(n: int) -> char {
    if n < 26 {
        (65 + n) as char
    } else if n < 52 {
        (97 + n - 26) as char
    } else if n < 62 {
        (48 + n - 52) as char
    } else if n == 62 {
        '+'
    } else {
        '/'
    }
}

/// Octets in base64: four characters for three octets, the last of them `=` where
/// octets are missing.
pub open spec fn base64(octets: Seq<u8>) -> Seq<char>
    decreases octets.len(),
{
    if octets.len() == 0 {
        Seq::empty()
    } else {
        let a = octets[0] as int;
        let b = if octets.len() > 1 {
            octets[1] as int
        } else {
            0
        };
        let c = if octets.len() > 2 {
            octets[2] as int
        } else {
            0
        };
        seq![
            base64_char(a / 4),
            base64_char(a % 4 * 16 + b / 16),
            if octets.len() > 1 {
                base64_char(b % 16 * 4 + c / 64)
            } else {
                '='
            },
            if octets.len() > 2 {
                base64_char(c % 64)
            } else {
                '='
            },
        ] + if octets.len() > 3 {
            base64(octets.skip(3))
        } else {
            Seq::empty()
        }
    }
}

/// In base64, three octets and what is left of them at the end take four characters.
pub(crate) proof fn lemma_base64_len(octets: Seq<u8>)
    ensures
        base64(octets).len() == (octets.len() + 2) / 3 * 4,
    decreases octets.len(),
{
    if octets.len() > 3 {
        lemma_base64_len(octets.skip(3));
    }
}

/// Writes octets in base64: the `encode` of base64's standard engine.
#[verifier::external_body]
pub(crate) fn base64_text(octets: &[u8]) -> (text: String)
    ensures
        text@ == base64(octets@),
{
    base64::engine::general_purpose::STANDARD.encode(octets)
}

/// Whether an octet is a letter or a digit of ASCII.
pub open spec fn is_alphanumeric(b: u8) -> bool {
    48 <= b <= 57 || 65 <= b <= 90 || 97 <= b <= 122
}

/// The character of a hexadecimal digit in upper case.
pub open spec fn upper_hex_char(d: int) -> char {
    if d < 10 {
        (48 + d) as char
    } else {
        (55 + d) as char
    }
}

/// An octet as a percent sign and two hexadecimal digits.
pub open spec fn percent_octet(b: u8) -> Seq<char> {
    seq!['%', upper_hex_char(b as int / 16), upper_hex_char(b as int % 16)]
}

/// Octets in percent-encoding: letters and digits stay, each other octet becomes a
/// percent sign and two hexadecimal digits.
pub open spec fn percent_encoded(octets: Seq<u8>) -> Seq<char>
    decreases octets.len(),
{
    if octets.len() == 0 {
        Seq::empty()
    } else {
        percent_encoded(octets.drop_last()) + if is_alphanumeric(octets.last()) {
            seq![octets.last() as char]
        } else {
            percent_octet(octets.last())
        }
    }
}

/// A text in percent-encoding.
pub open spec fn percent_encoded_text(text: Seq<char>) -> Seq<char> {
    percent_encoded(encode_utf8(text))
}

/// Writes octets in percent-encoding: `percent_encoding::percent_encode` with the set
/// `NON_ALPHANUMERIC`.
#[verifier::external_body]
pub(crate) fn percent_encode(octets: &[u8]) -> (text: String)
    ensures
        text@ == percent_encoded(octets@),
{
    percent_encoding::percent_encode(octets, percent_encoding::NON_ALPHANUMERIC).to_string()
}

/// Octets as they stand in a form: letters, digits and `*`, `-`, `.`, `_` stay, a
/// space becomes a plus sign, each other octet a percent sign and two hexadecimal
/// digits.
pub open spec fn form_encoded(octets: Seq<u8>) -> Seq<char>
    decreases octets.len(),
{
    if octets.len() == 0 {
        Seq::empty()
    } else {
        let b = octets.last();
        form_encoded(octets.drop_last()) + if is_alphanumeric(b) || b == 42 || b == 45 || b == 46
            || b == 95 {
            seq![b as char]
        } else if b == 32 {
            seq!['+']
        } else {
            percent_octet(b)
        }
    }
}

/// What pairs of texts say.
pub open spec fn pair_views(pairs: Seq<(String, String)>) -> Seq<(Seq<char>, Seq<char>)> {
    Seq::new(pairs.len(), |i: int| (pairs[i].0@, pairs[i].1@))
}

/// Pairs of keys and values as a form.
pub open spec fn form_text(pairs: Seq<(Seq<char>, Seq<char>)>) -> Seq<char> {
    text::joined(
        Seq::new(
            pairs.len(),
            |i: int|
                form_encoded(encode_utf8(pairs[i].0)) + seq!['='] + form_encoded(
                    encode_utf8(pairs[i].1),
                ),
        ),
        seq!['&'],
    )
}

/// Writes pairs of texts as a form: `serde_urlencoded::to_string`. It takes every
/// list of pairs of texts.
#[verifier::external_body]
pub(crate) fn write_form(pairs: &Vec<(String, String)>) -> (form: String)
    ensures
        form@ == form_text(pair_views(pairs@)),
{
    serde_urlencoded::to_string(pairs).unwrap()
}

/// A number from `rand::random`. Nothing can be said of it.
#[verifier::external_body]
pub(crate) fn random_number() -> (n: u64) {
    rand::random::<u64>()
}

/// The whole number under a key of a JSON object, for serde_json.
pub uninterp spec fn json_number(body: Seq<u8>, key: Seq<char>) -> Option<int>;

/// The text under a key of a JSON object, for serde_json.
pub uninterp spec fn json_text(body: Seq<u8>, key: Seq<char>) -> Option<Seq<char>>;

/// The text under a key of an object under a key of a JSON object, for serde_json.
pub uninterp spec fn json_inner_text(body: Seq<u8>, outer: Seq<char>, inner: Seq<char>) -> Option<
    Seq<char>,
>;

/// `serde_json::from_slice`, then the number under `key`, where it is a whole one
/// that fits. Octets that are not JSON hold nothing. The result depends on octets and
/// key alone.
#[verifier::external_body]
pub(crate) fn read_json_number(body: &[u8], key: &str) -> (n: Option<i64>)
    ensures
        match n {
            Some(n) => json_number(body@, key@) == Some(n as int),
            None => json_number(body@, key@) is None,
        },
{
    serde_json::from_slice::<serde_json::Value>(body).unwrap_or_default()[key].as_i64()
}

/// `serde_json::from_slice`, then the text under `key`. Octets that are not JSON hold
/// nothing. The result depends on octets and key alone.
#[verifier::external_body]
pub(crate) fn read_json_text(body: &[u8], key: &str) -> (text: Option<String>)
    ensures
        types::optional_text(text) == json_text(body@, key@),
{
    let value = serde_json::from_slice::<serde_json::Value>(body).unwrap_or_default();
    value[key].as_str().map(|t| t.to_owned())
}

/// `serde_json::from_slice`, then the text under `inner` of what is under `outer`.
/// Octets that are not JSON hold nothing. The result depends on octets and keys
/// alone.
#[verifier::external_body]
pub(crate) fn read_json_inner_text(body: &[u8], outer: &str, inner: &str) -> (text: Option<String>)
    ensures
        types::optional_text(text) == json_inner_text(body@, outer@, inner@),
{
    let value = serde_json::from_slice::<serde_json::Value>(body).unwrap_or_default();
    value[outer][inner].as_str().map(|t| t.to_owned())
}

/// In percent-encoding, octets are written one after the other: a letter or a digit as it is,
/// and any other octet with a percent sign and its two hexadecimal digits.
pub proof fn octets_are_written_one_after_the_other(a: Seq<u8>, b: Seq<u8>, octet: u8)
    ensures
        percent_encoded(a + b) == percent_encoded(a) + percent_encoded(b),
        form_encoded(a + b) == form_encoded(a) + form_encoded(b),
        percent_encoded(seq![octet]).len() == 1 || percent_encoded(seq![octet]).len() == 3,
        percent_encoded(seq![octet]).len() == 1 ==> percent_encoded(seq![octet])[0] as int == octet,
        percent_encoded(seq![octet]).len() == 1 <==> is_alphanumeric(octet),
        percent_encoded(seq![octet]).len() == 3 ==> {
            &&& percent_encoded(seq![octet])[0] == '%'
            &&& percent_encoded(seq![octet])[1] == upper_hex_char(octet as int / 16)
            &&& percent_encoded(seq![octet])[2] == upper_hex_char(octet as int % 16)
        },
    decreases b.len(),
{
    lemma_encoded_together(a, b);
    let one = seq![octet];
    assert(one.drop_last() =~= Seq::<u8>::empty());
    assert(one.last() == octet);
    assert(percent_encoded(one.drop_last()) == Seq::<char>::empty());
}

proof fn lemma_encoded_together(a: Seq<u8>, b: Seq<u8>)
    ensures
        percent_encoded(a + b) == percent_encoded(a) + percent_encoded(b),
        form_encoded(a + b) == form_encoded(a) + form_encoded(b),
    decreases b.len(),
{
    if b.len() == 0 {
        assert(a + b =~= a);
        assert(percent_encoded(a) + percent_encoded(b) =~= percent_encoded(a));
        assert(form_encoded(a) + form_encoded(b) =~= form_encoded(a));
    } else {
        lemma_encoded_together(a, b.drop_last());
        assert((a + b).drop_last() =~= a + b.drop_last());
        assert((a + b).last() == b.last());
        assert(percent_encoded(a + b) =~= percent_encoded(a) + percent_encoded(b));
        assert(form_encoded(a + b) =~= form_encoded(a) + form_encoded(b));
    }
}

} // verus!
