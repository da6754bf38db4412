//! Renewing certificates with a certificate authority that speaks ACME: what is
//! decided, and what is asked of the services that hold the DNS records.
use crate::certificate::{self, compute_sha256_fingerprint, Certificate, CertificateFields};
use crate::clock::{self, Timestamp};
use crate::config::{
    home_directory, Config, DnsProviderConfig, DomainConfig, FilePath, ValidationMethod,
};
use crate::order::{self, order_by_name};
use crate::signing::{
    self, base64_text, hmac_sha1_digest, percent_encode, random_number, read_json_inner_text,
    read_json_text, write_form,
};
use crate::text::{self, push_decimal, strip_suffix, text_begins_with};
use crate::types::{self, CertificateInfo, CertificateView, RenewalHistory, RenewalView};
use std::path::PathBuf;
use std::sync::Arc;
use vstd::prelude::*;
use vstd::utf8::encode_utf8;

verus! {

/// Renews the certificates of a configuration.
#[derive(Debug, Clone)]
pub struct AcmeClient {
    config: Arc<Config>,
}

/// `prefix`, `text` and `suffix`, one after the other.
fn between(prefix: &str, text: &str, suffix: &str) -> (r: String)
    ensures
        r@ == prefix@ + text@ + suffix@,
{
    let mut r = prefix.to_owned();
    r.append(text);
    r.append(suffix);
    r
}

/// `prefix` and `text`, one after the other.
fn before(prefix: &str, text: &str) -> (r: String)
    ensures
        r@ == prefix@ + text@,
{
    let mut r = prefix.to_owned();
    r.append(text);
    r
}

/// Whether a certificate is due for renewal at `now`: it has fewer days left than the
/// threshold.
pub open spec fn is_due(config: Config, cert: CertificateView, now: Timestamp) -> bool {
    clock::elapsed_days(cert.not_after, now) < config.renewal_threshold()
}

/// The record of a renewal with this outcome: the new fingerprint, or why it failed.
pub open spec fn renewal_record(outcome: Result<Seq<char>, Seq<char>>, now: Timestamp) -> RenewalView {
    match outcome {
        Ok(fingerprint) => RenewalView {
            timestamp: now,
            success: true,
            message: "Certificate renewed successfully"@,
            new_fingerprint: Some(fingerprint),
        },
        Err(message) => RenewalView {
            timestamp: now,
            success: false,
            message,
            new_fingerprint: None,
        },
    }
}

impl AcmeClient {
    /// The configuration.
    pub closed spec fn spec_config(&self) -> Config {
        *self.config
    }

    pub fn new(config: Arc<Config>) -> (client: AcmeClient)
        ensures
            client.spec_config() == *config,
    {
        AcmeClient { config }
    }

    /// Whether a certificate is due for renewal at `now`.
    pub fn needs_renewal_at(&self, cert: &CertificateInfo, now: Timestamp) -> (due: bool)
        ensures
            due == is_due(self.spec_config(), cert@, now),
    {
        cert.days_remaining_at(now) < self.config.renew_threshold_days()
    }

    /// Whether a certificate is due for renewal at the present instant.
    pub fn needs_renewal(&self, cert: &CertificateInfo) -> (due: bool)
        ensures
            exists|now: Timestamp|
                now.can_be_now() && due == #[trigger] is_due(self.spec_config(), cert@, now),
    {
        let now = Timestamp::now();
        self.needs_renewal_at(cert, now)
    }

    /// The record of a renewal with this outcome at `now`.
    pub fn renew_certificate_at(&self, outcome: Result<String, String>, now: Timestamp) -> (record:
        RenewalHistory)
        ensures
            record@ == renewal_record(certificate::text_or_reason(outcome), now),
    {
        match outcome {
            Ok(fingerprint) => RenewalHistory {
                timestamp: now,
                success: true,
                message: "Certificate renewed successfully".to_owned(),
                new_fingerprint: Some(fingerprint),
            },
            Err(message) => RenewalHistory {
                timestamp: now,
                success: false,
                message,
                new_fingerprint: None,
            },
        }
    }

    /// The record of a renewal with this outcome at the present instant.
    pub fn renew_certificate(&self, outcome: Result<String, String>) -> (record: RenewalHistory)
        ensures
            exists|now: Timestamp|
                now.can_be_now() && record@ == #[trigger] renewal_record(
                    certificate::text_or_reason(outcome),
                    now,
                ),
    {
        let now = Timestamp::now();
        self.renew_certificate_at(outcome, now)
    }
}

/// The longer the wait, the more certificates are due: one that is due stays due.
/// (Instants outside leap seconds.)
pub proof fn due_certificates_stay_due(
    config: Config,
    cert: CertificateView,
    now: Timestamp,
    later: Timestamp,
)
    requires
        cert.not_after.nanos() < 1_000_000_000,
        now.nanos() < 1_000_000_000,
        later.nanos() < 1_000_000_000,
        clock::elapsed_nanos(later, now) >= 0,
        is_due(config, cert, now),
    ensures
        is_due(config, cert, later),
{
    clock::days_left_never_grow(cert.not_after, now, later);
}

/// The names that a certificate for a domain is asked for: the domain, and all below
/// it, unless the domain itself stands for those.
pub open spec fn requested_names(domain: Seq<char>) -> Seq<Seq<char>> {
    if text::begins_with(domain, "*."@) {
        seq![domain]
    } else {
        seq![domain, "*."@ + domain]
    }
}

/// The names that a certificate for a domain is asked for.
pub fn alt_names(domain: &str) -> (names: Vec<String>)
    ensures
        text::texts(names@) == requested_names(domain@),
        1 <= names@.len() <= 2,
        names@[0]@ == domain@,
        names@.len() == 2 ==> names@[1]@ == "*."@ + domain@,
{
    let mut names: Vec<String> = vec![domain.to_owned()];
    if !text_begins_with(domain, "*.") {
        names.push(before("*.", domain));
    }
    assert(text::texts(names@) =~= requested_names(domain@));
    names
}

/// Whether a path is that of the directory in which what belongs to the account and
/// the orders for a domain is kept, with `home` as the home directory.
pub open spec fn is_persist_path(home: PathBuf, domain: Seq<char>, path: FilePath) -> bool {
    &&& path matches FilePath::Below { directory, parts }
    &&& directory == home
    &&& text::texts(parts@) == seq![".cert-monitor"@, "acme"@, domain]
}

/// Whether `r` is the directory for a domain, with `home` as the home directory, or
/// the complaint that none is known.
pub open spec fn is_persist_outcome(
    home: Option<PathBuf>,
    domain: Seq<char>,
    r: Result<FilePath, String>,
) -> bool {
    match home {
        Some(home) => r matches Ok(path) && is_persist_path(home, domain, path),
        None => r matches Err(message) && message@ == "Cannot determine home directory"@,
    }
}

/// The directory in which what belongs to the account and the orders for a domain is
/// kept, with `home` as the home directory, if one is known.
pub fn acme_persist_path_in(home: Option<PathBuf>, domain: &str) -> (r: Result<FilePath, String>)
    ensures
        is_persist_outcome(home, domain@, r),
{
    match home {
        Some(home) => {
            let parts: Vec<String> = vec!
                [".cert-monitor".to_owned(), "acme".to_owned(), domain.to_owned()];
            assert(text::texts(parts@) =~= seq![".cert-monitor"@, "acme"@, domain@]);
            Ok(FilePath::Below { directory: home, parts })
        },
        None => Err("Cannot determine home directory".to_owned()),
    }
}

/// The directory in which what belongs to the account and the orders for a domain is
/// kept.
pub fn get_acme_persist_path(domain: &str) -> (r: Result<FilePath, String>)
    ensures
        exists|home: Option<PathBuf>| is_persist_outcome(home, domain@, r),
{
    let home = home_directory();
    acme_persist_path_in(home, domain)
}

/// How control over a domain is shown.
#[derive(Debug)]
pub enum ChallengePlan<'a> {
    /// With files in a directory that a web server shows.
    Http01 { directory: &'a str },
    /// With records that a DNS service holds.
    Dns01 { provider: &'a DnsProviderConfig },
}

/// The message where a domain has no way of validation.
pub open spec fn no_validation_text(domain: Seq<char>) -> Seq<char> {
    "No validation method configured for "@ + domain
}

/// Decides how control over a domain is shown.
pub fn plan_challenges<'a>(domain_config: &'a DomainConfig) -> (r: Result<ChallengePlan<'a>, String>)
    ensures
        match domain_config.validation_method {
            None => r matches Err(message) && message@ == no_validation_text(
                domain_config.name@,
            ),
            Some(ValidationMethod::Http01) => match domain_config.http_challenge_dir {
                Some(dir) => r matches Ok(ChallengePlan::Http01 { directory }) && directory@ == dir@,
                None => r matches Err(message) && message@
                    == "No HTTP challenge directory configured"@,
            },
            Some(ValidationMethod::Dns01) => match domain_config.dns_provider {
                Some(dns) => r matches Ok(ChallengePlan::Dns01 { provider }) && *provider == dns,
                None => r matches Err(message) && message@ == "No DNS provider configured"@,
            },
        },
{
    match domain_config.validation_method {
        None => Err(before("No validation method configured for ", domain_config.name.as_str())),
        Some(ValidationMethod::Http01) => match &domain_config.http_challenge_dir {
            Some(dir) => Ok(ChallengePlan::Http01 { directory: dir.as_str() }),
            None => Err("No HTTP challenge directory configured".to_owned()),
        },
        Some(ValidationMethod::Dns01) => match &domain_config.dns_provider {
            Some(provider) => Ok(ChallengePlan::Dns01 { provider }),
            None => Err("No DNS provider configured".to_owned()),
        },
    }
}

/// The name of the record that shows control over a domain.
pub fn challenge_record_name(domain: &str) -> (name: String)
    ensures
        name@ == "_acme-challenge."@ + domain@,
{
    before("_acme-challenge.", domain)
}

/// Where a certificate and its key are stored.
#[derive(Debug)]
pub struct CertificatePaths {
    pub fullchain: String,
    pub privkey: String,
}

/// The path of a file: the one that is configured, else one of this name in the
/// directory for the certificate, if there is one.
pub open spec fn stored_path(
    path: Option<Seq<char>>,
    directory: Option<Seq<char>>,
    name: Seq<char>,
) -> Option<Seq<char>> {
    match path {
        Some(path) => Some(path),
        None => match directory {
            Some(directory) => Some(directory + "/"@ + name),
            None => None,
        },
    }
}

fn choose_path(path: &Option<String>, directory: &Option<String>, name: &str) -> (r: Option<String>)
    ensures
        types::optional_text(r) == stored_path(
            types::optional_text(*path),
            types::optional_text(*directory),
            name@,
        ),
{
    match path {
        Some(path) => Some(path.clone()),
        None => match directory {
            Some(directory) => Some(between(directory.as_str(), "/", name)),
            None => None,
        },
    }
}

/// The path of the certificate of a domain.
pub open spec fn fullchain_path_of(dc: DomainConfig) -> Option<Seq<char>> {
    stored_path(
        types::optional_text(dc.fullchain_path),
        types::optional_text(dc.cert_storage_path),
        "fullchain.pem"@,
    )
}

/// The path of the key of a domain.
pub open spec fn privkey_path_of(dc: DomainConfig) -> Option<Seq<char>> {
    stored_path(
        types::optional_text(dc.privkey_path),
        types::optional_text(dc.cert_storage_path),
        "privkey.pem"@,
    )
}

/// Decides where the certificate and the key of a domain are stored.
pub fn certificate_paths(domain_config: &DomainConfig) -> (r: Result<CertificatePaths, String>)
    ensures
        match (fullchain_path_of(*domain_config), privkey_path_of(*domain_config)) {
            (Some(fullchain), Some(privkey)) => r matches Ok(paths) && paths.fullchain@ == fullchain
                && paths.privkey@ == privkey,
            (None, _) => r matches Err(message) && message@ == "No fullchain path configured for "@
                + domain_config.name@,
            (_, None) => r matches Err(message) && message@ == "No privkey path configured for "@
                + domain_config.name@,
        },
        r is Ok <==> domain_config.cert_storage_path is Some || (domain_config.fullchain_path is Some
            && domain_config.privkey_path is Some),
        r matches Ok(paths) ==> {
            &&& domain_config.fullchain_path matches Some(path) ==> paths.fullchain@ == path@
            &&& domain_config.privkey_path matches Some(path) ==> paths.privkey@ == path@
        },
{
    let fullchain = match choose_path(
        &domain_config.fullchain_path,
        &domain_config.cert_storage_path,
        "fullchain.pem",
    ) {
        Some(path) => path,
        None => return Err(
            before("No fullchain path configured for ", domain_config.name.as_str()),
        ),
    };
    let privkey = match choose_path(
        &domain_config.privkey_path,
        &domain_config.cert_storage_path,
        "privkey.pem",
    ) {
        Some(path) => path,
        None => return Err(before("No privkey path configured for ", domain_config.name.as_str())),
    };
    Ok(CertificatePaths { fullchain, privkey })
}

/// The fingerprint of a new certificate, or why there is none.
pub open spec fn new_fingerprint_outcome(
    certificate: Result<CertificateFields, Seq<char>>,
) -> Result<Seq<char>, Seq<char>> {
    match certificate {
        Err(reason) => Err("Failed to parse new certificate: "@ + reason),
        Ok(certificate) => match certificate.encoding {
            Err(reason) => Err("Failed to encode DER: "@ + reason),
            Ok(encoding) => Ok(text::colon_hex(certificate::sha256(encoding))),
        },
    }
}

/// The fingerprint of a new certificate that was read, or why it was not.
pub fn fingerprint_of(certificate: Result<Certificate, String>) -> (r: Result<String, String>)
    ensures
        certificate::text_or_reason(r) == new_fingerprint_outcome(
            match certificate {
                Ok(certificate) => Ok(certificate@),
                Err(reason) => Err(reason@),
            },
        ),
{
    match certificate {
        Err(reason) => Err(before("Failed to parse new certificate: ", reason.as_str())),
        Ok(certificate) => match &certificate.encoding {
            Err(reason) => Err(before("Failed to encode DER: ", reason.as_str())),
            Ok(encoding) => Ok(compute_sha256_fingerprint(encoding.as_slice())),
        },
    }
}

/// The fingerprint of the certificate that was issued, from its PEM file.
pub fn new_fingerprint(pem: &[u8]) -> (r: Result<String, String>)
    ensures
        certificate::text_or_reason(r) == new_fingerprint_outcome(
            match certificate::pem_outcome(pem@) {
                Ok(der) => Ok(certificate::fields_of(der)),
                Err(reason) => Err(reason),
            },
        ),
{
    fingerprint_of(Certificate::from_pem(pem))
}

/// A request to a service that holds DNS records.
#[derive(Debug)]
pub enum DnsRequest {
    /// Creates a text record at Cloudflare.
    Create { url: String, authorization: String, record: TxtRecord },
    /// Deletes a record at Cloudflare.
    Delete { url: String, authorization: String },
    /// Sends a form to Aliyun.
    Form { url: String, form: String },
}

/// A record. As JSON, it is an object with the members of the same names,
/// `record_type` written as `type`.
#[derive(Debug)]
pub struct TxtRecord {
    pub record_type: String,
    pub name: String,
    pub content: String,
    pub ttl: u32,
    pub proxied: bool,
}

/// The address of the records of a zone at Cloudflare.
pub open spec fn cloudflare_url(zone: Seq<char>) -> Seq<char> {
    "https://api.cloudflare.com/client/v4/zones/"@ + zone + "/dns_records"@
}

/// Whether a request creates a text record at Cloudflare.
pub open spec fn creates_record(
    request: DnsRequest,
    api_token: Seq<char>,
    zone: Seq<char>,
    name: Seq<char>,
    content: Seq<char>,
) -> bool {
    &&& request matches DnsRequest::Create { url, authorization, record }
    &&& url@ == cloudflare_url(zone)
    &&& authorization@ == "Bearer "@ + api_token
    &&& record.record_type@ == "TXT"@
    &&& record.name@ == name
    &&& record.content@ == content
    &&& record.ttl == 120
    &&& !record.proxied
}

/// The request that creates a text record at Cloudflare.
pub fn cloudflare_add_txt(
    api_token: &str,
    zone_id: &Option<String>,
    name: &str,
    content: &str,
) -> (r: Result<DnsRequest, String>)
    ensures
        match zone_id {
            Some(zone) => r matches Ok(request) && creates_record(
                request,
                api_token@,
                zone@,
                name@,
                content@,
            ),
            None => r matches Err(message) && message@ == "Cloudflare zone_id is required"@,
        },
{
    match zone_id {
        Some(zone) => Ok(
            DnsRequest::Create {
                url: between(
                    "https://api.cloudflare.com/client/v4/zones/",
                    zone.as_str(),
                    "/dns_records",
                ),
                authorization: before("Bearer ", api_token),
                record: TxtRecord {
                    record_type: "TXT".to_owned(),
                    name: name.to_owned(),
                    content: content.to_owned(),
                    ttl: 120,
                    proxied: false,
                },
            },
        ),
        None => Err("Cloudflare zone_id is required".to_owned()),
    }
}

/// The last full stop in `text` before the character with number `end`.
pub open spec fn last_dot(text: Seq<char>, end: int) -> Option<int>
    decreases end,
{
    if end <= 0 {
        None
    } else if text[end - 1] == '.' {
        Some(end - 1)
    } else {
        last_dot(text, end - 1)
    }
}

/// The last two labels of a name; nothing where it has but one.
pub open spec fn root_domain(name: Seq<char>) -> Option<Seq<char>> {
    match last_dot(name, name.len() as int) {
        None => None,
        Some(last) => match last_dot(name, last) {
            None => Some(name),
            Some(first) => Some(name.skip(first + 1)),
        },
    }
}

/// Where the last full stop before `end` is, that and nothing after it is one.
proof fn lemma_last_dot(text: Seq<char>, end: int)
    requires
        0 <= end <= text.len(),
    ensures
        match last_dot(text, end) {
            Some(i) => 0 <= i < end && text[i] == '.' && forall|j: int|
                i < j < end ==> #[trigger] text[j] != '.',
            None => forall|j: int| 0 <= j < end ==> #[trigger] text[j] != '.',
        },
    decreases end,
{
    if end > 0 && text[end - 1] != '.' {
        lemma_last_dot(text, end - 1);
    }
}

fn find_last_dot(text: &str, end: usize) -> (place: Option<usize>)
    requires
        end <= text@.len(),
    ensures
        match place {
            Some(i) => last_dot(text@, end as int) == Some(i as int) && i < end,
            None => last_dot(text@, end as int) is None,
        },
{
    let mut i: usize = end;
    while i > 0
        invariant
            i <= end <= text@.len(),
            last_dot(text@, end as int) == last_dot(text@, i as int),
        decreases i,
    {
        if text.get_char(i - 1) == '.' {
            return Some(i - 1);
        }
        i -= 1;
    }
    None
}

/// The domain that a name is registered under: its last two labels.
pub fn extract_root_domain(name: &str) -> (r: Result<String, String>)
    ensures
        match root_domain(name@) {
            Some(root) => r matches Ok(domain) && domain@ == root,
            None => r matches Err(message) && message@ == "Invalid domain name: "@ + name@,
        },
{
    let n = name.unicode_len();
    match find_last_dot(name, n) {
        None => Err(before("Invalid domain name: ", name)),
        Some(last) => match find_last_dot(name, last) {
            None => Ok(name.to_owned()),
            Some(first) => {
                let root = name.substring_char(first + 1, n);
                assert(root@ =~= name@.skip(first + 1));
                Ok(root.to_owned())
            },
        },
    }
}

/// Whether the character with number `i` is the only full stop in a text.
pub open spec fn is_only_dot(text: Seq<char>, i: int) -> bool {
    &&& 0 <= i < text.len()
    &&& text[i] == '.'
    &&& forall|j: int| 0 <= j < text.len() && j != i ==> #[trigger] text[j] != '.'
}

/// The root domain of a name ends the name, holds one full stop, and stands alone or
/// after another full stop.
pub proof fn root_domains_are_two_labels(name: Seq<char>, root: Seq<char>)
    requires
        root_domain(name) == Some(root),
    ensures
        text::ends_with(name, root),
        exists|i: int| is_only_dot(root, i),
        root.len() < name.len() ==> name[name.len() - root.len() - 1] == '.',
{
    let n = name.len() as int;
    lemma_last_dot(name, n);
    let last = last_dot(name, n)->0;
    lemma_last_dot(name, last);
    let from = match last_dot(name, last) {
        None => 0,
        Some(first) => first + 1,
    };
    assert(root =~= name.skip(from));
    assert(name.skip(n - root.len()) =~= root);
    assert(is_only_dot(root, last - from)) by {
        assert(root[last - from] == name[last]);
        assert forall|j: int| 0 <= j < root.len() && j != last - from implies #[trigger] root[j]
            != '.' by {
            assert(root[j] == name[j + from]);
        }
    }
}

/// The part of a name below its domain: the name itself where it is not below it.
pub open spec fn host_record(name: Seq<char>, domain: Seq<char>) -> Seq<char> {
    let suffix = "."@ + domain;
    if text::ends_with(name, suffix) {
        name.take(name.len() - suffix.len())
    } else {
        name
    }
}

/// The part of a name below its domain.
pub fn host_record_of(name: &str, domain: &str) -> (rr: String)
    ensures
        rr@ == host_record(name@, domain@),
{
    let suffix = before(".", domain);
    match strip_suffix(name, suffix.as_str()) {
        Some(head) => head.to_owned(),
        None => name.to_owned(),
    }
}

fn pair(key: &str, value: &str) -> (p: (String, String))
    ensures
        (p.0@, p.1@) == (key@, value@),
{
    (key.to_owned(), value.to_owned())
}

/// The parameters that every request to Aliyun begins with.
pub open spec fn aliyun_common(
    action: Seq<char>,
    access_key_id: Seq<char>,
    nonce: u64,
    now: Timestamp,
) -> Seq<(Seq<char>, Seq<char>)> {
    seq![
        ("Action"@, action),
        ("Version"@, "2015-01-09"@),
        ("Format"@, "JSON"@),
        ("AccessKeyId"@, access_key_id),
        ("SignatureMethod"@, "HMAC-SHA1"@),
        ("SignatureVersion"@, "1.0"@),
        ("SignatureNonce"@, text::decimal(nonce as nat)),
        ("Timestamp"@, now.text_by("%Y-%m-%dT%H:%M:%SZ"@)),
    ]
}

fn common_params(action: &str, access_key_id: &str, nonce: u64, now: Timestamp) -> (params: Vec<
    (String, String),
>)
    ensures
        signing::pair_views(params@) == aliyun_common(action@, access_key_id@, nonce, now),
{
    let mut nonce_text = String::new();
    push_decimal(&mut nonce_text, nonce);
    assert(nonce_text@ =~= text::decimal(nonce as nat));
    let time = now.format("%Y-%m-%dT%H:%M:%SZ");
    let params = vec![
        pair("Action", action),
        pair("Version", "2015-01-09"),
        pair("Format", "JSON"),
        pair("AccessKeyId", access_key_id),
        pair("SignatureMethod", "HMAC-SHA1"),
        pair("SignatureVersion", "1.0"),
        pair("SignatureNonce", nonce_text.as_str()),
        pair("Timestamp", time.as_str()),
    ];
    assert(signing::pair_views(params@) =~= aliyun_common(action@, access_key_id@, nonce, now));
    params
}

/// The parameters of the request that creates a text record at Aliyun.
pub open spec fn aliyun_add_view(
    access_key_id: Seq<char>,
    nonce: u64,
    now: Timestamp,
    domain: Seq<char>,
    rr: Seq<char>,
    content: Seq<char>,
) -> Seq<(Seq<char>, Seq<char>)> {
    aliyun_common("AddDomainRecord"@, access_key_id, nonce, now) + seq![
        ("DomainName"@, domain),
        ("RR"@, rr),
        ("Type"@, "TXT"@),
        ("Value"@, content),
        ("TTL"@, "600"@),
    ]
}

/// The parameters of the request that creates a text record at Aliyun.
pub fn aliyun_add_params(
    access_key_id: &str,
    nonce: u64,
    now: Timestamp,
    domain: &str,
    rr: &str,
    content: &str,
) -> (params: Vec<(String, String)>)
    ensures
        signing::pair_views(params@) == aliyun_add_view(
            access_key_id@,
            nonce,
            now,
            domain@,
            rr@,
            content@,
        ),
{
    let mut params = common_params("AddDomainRecord", access_key_id, nonce, now);
    params.push(pair("DomainName", domain));
    params.push(pair("RR", rr));
    params.push(pair("Type", "TXT"));
    params.push(pair("Value", content));
    params.push(pair("TTL", "600"));
    assert(signing::pair_views(params@) =~= aliyun_add_view(
        access_key_id@,
        nonce,
        now,
        domain@,
        rr@,
        content@,
    ));
    params
}

/// The parameters of the request that deletes a record at Aliyun.
pub open spec fn aliyun_delete_view(
    access_key_id: Seq<char>,
    nonce: u64,
    now: Timestamp,
    record_id: Seq<char>,
) -> Seq<(Seq<char>, Seq<char>)> {
    aliyun_common("DeleteDomainRecord"@, access_key_id, nonce, now).push(("RecordId"@, record_id))
}

/// The parameters of the request that deletes a record at Aliyun.
pub fn aliyun_delete_params(
    access_key_id: &str,
    nonce: u64,
    now: Timestamp,
    record_id: &str,
) -> (params: Vec<(String, String)>)
    ensures
        signing::pair_views(params@) == aliyun_delete_view(access_key_id@, nonce, now, record_id@),
{
    let mut params = common_params("DeleteDomainRecord", access_key_id, nonce, now);
    params.push(pair("RecordId", record_id));
    assert(signing::pair_views(params@) =~= aliyun_delete_view(
        access_key_id@,
        nonce,
        now,
        record_id@,
    ));
    params
}

/// The keys of pairs.
pub open spec fn keys_of(pairs: Seq<(Seq<char>, Seq<char>)>) -> Seq<Seq<char>> {
    Seq::new(pairs.len(), |i: int| pairs[i].0)
}

/// Pairs in an order.
pub open spec fn in_order(pairs: Seq<(Seq<char>, Seq<char>)>, order: Seq<int>) -> Seq<
    (Seq<char>, Seq<char>),
> {
    Seq::new(order.len(), |i: int| pairs[order[i]])
}

/// Whether `sorted` holds the same pairs, in the order of their keys.
pub open spec fn is_sorting(
    pairs: Seq<(Seq<char>, Seq<char>)>,
    sorted: Seq<(Seq<char>, Seq<char>)>,
) -> bool {
    exists|order: Seq<int>| #[trigger]
        order::is_name_order_of(keys_of(pairs), order) && sorted == in_order(pairs, order)
}

/// Whether `other` holds the same pairs as `pairs`, in whatever order.
pub open spec fn is_rearrangement(
    pairs: Seq<(Seq<char>, Seq<char>)>,
    other: Seq<(Seq<char>, Seq<char>)>,
) -> bool {
    exists|order: Seq<int>| #[trigger]
        order::names_each_once(order, pairs.len()) && other == in_order(pairs, order)
}

/// Things with different keys stay different and stay there when put in another order.
proof fn lemma_rearranged(
    pairs: Seq<(Seq<char>, Seq<char>)>,
    other: Seq<(Seq<char>, Seq<char>)>,
)
    requires
        keys_of(pairs).no_duplicates(),
        is_rearrangement(pairs, other),
    ensures
        other.len() == pairs.len(),
        keys_of(other).no_duplicates(),
        other.no_duplicates(),
        forall|p: (Seq<char>, Seq<char>)| #[trigger] other.contains(p) <==> pairs.contains(p),
{
    let order = choose|order: Seq<int>| #[trigger]
        order::names_each_once(order, pairs.len()) && other == in_order(pairs, order);
    assert forall|i: int, j: int| 0 <= i < other.len() && 0 <= j < other.len() && i
        != j implies other[i].0 != other[j].0 by {
        assert(0 <= order[i] < pairs.len() && 0 <= order[j] < pairs.len());
        assert(order[i] != order[j]);
        assert(keys_of(pairs)[order[i]] != keys_of(pairs)[order[j]]);
    }
    assert forall|i: int, j: int| 0 <= i < keys_of(other).len() && 0 <= j < keys_of(other).len()
        && i != j implies keys_of(other)[i] != keys_of(other)[j] by {
        assert(other[i].0 != other[j].0);
    }
    assert forall|p: (Seq<char>, Seq<char>)| #[trigger] other.contains(p) <==> pairs.contains(p) by {
        if other.contains(p) {
            let i = other.index_of(p);
            assert(0 <= order[i] < pairs.len());
            assert(pairs[order[i]] == p);
        }
        if pairs.contains(p) {
            let k = pairs.index_of(p);
            assert(order.contains(k));
            let i = order.index_of(k);
            assert(other[i] == p);
        }
    }
}

/// Parameters with different keys are signed alike, in whatever order they are given.
pub proof fn signatures_do_not_depend_on_the_order_of_parameters(
    secret: Seq<char>,
    method: Seq<char>,
    params: Seq<(Seq<char>, Seq<char>)>,
    other: Seq<(Seq<char>, Seq<char>)>,
    sorted: Seq<(Seq<char>, Seq<char>)>,
    other_sorted: Seq<(Seq<char>, Seq<char>)>,
)
    requires
        keys_of(params).no_duplicates(),
        is_rearrangement(params, other),
        is_sorting(params, sorted),
        is_sorting(other, other_sorted),
    ensures
        sorted == other_sorted,
        aliyun_signature(secret, method, sorted) == aliyun_signature(
            secret,
            method,
            other_sorted,
        ),
{
    let first = |x: (Seq<char>, Seq<char>), y: (Seq<char>, Seq<char>)|
        order::text_before(x.0, y.0);
    assert forall|x: (Seq<char>, Seq<char>), y: (Seq<char>, Seq<char>)|
        !(#[trigger] first(x, y) && first(y, x)) by {
        order::lemma_text_before_once(x.0, y.0);
    }
    lemma_rearranged(params, other);
    lemma_sorting(params, sorted);
    lemma_sorting(other, other_sorted);
    assert(order::is_sorted_by(sorted, first)) by {
        assert forall|i: int, j: int| 0 <= i < j < sorted.len() implies first(
            #[trigger] sorted[i],
            #[trigger] sorted[j],
        ) by {}
    }
    assert(order::is_sorted_by(other_sorted, first)) by {
        assert forall|i: int, j: int| 0 <= i < j < other_sorted.len() implies first(
            #[trigger] other_sorted[i],
            #[trigger] other_sorted[j],
        ) by {}
    }
    order::lemma_sorted_alike(sorted, other_sorted, first);
}

/// What is put in the order of its keys is rearranged, and strictly in order where the
/// keys are different.
proof fn lemma_sorting(
    pairs: Seq<(Seq<char>, Seq<char>)>,
    sorted: Seq<(Seq<char>, Seq<char>)>,
)
    requires
        keys_of(pairs).no_duplicates(),
        is_sorting(pairs, sorted),
    ensures
        sorted.len() == pairs.len(),
        sorted.no_duplicates(),
        forall|p: (Seq<char>, Seq<char>)| #[trigger] sorted.contains(p) <==> pairs.contains(p),
        forall|i: int, j: int|
            0 <= i < j < sorted.len() ==> order::text_before(
                (#[trigger] sorted[i]).0,
                (#[trigger] sorted[j]).0,
            ),
{
    let order = choose|order: Seq<int>| #[trigger]
        order::is_name_order_of(keys_of(pairs), order) && sorted == in_order(pairs, order);
    assert(order::names_each_once(order, pairs.len()));
    lemma_rearranged(pairs, sorted);
    assert forall|i: int, j: int| 0 <= i < j < sorted.len() implies order::text_before(
        (#[trigger] sorted[i]).0,
        (#[trigger] sorted[j]).0,
    ) by {
        assert(order::name_comes_first(keys_of(pairs), order[i], order[j]));
        assert(0 <= order[i] < pairs.len() && 0 <= order[j] < pairs.len());
        assert(keys_of(pairs)[order[i]] == sorted[i].0);
        assert(keys_of(pairs)[order[j]] == sorted[j].0);
        assert(keys_of(sorted)[i] != keys_of(sorted)[j]);
    }
}

/// Puts pairs in the order of their keys.
fn sort_pairs(pairs: &Vec<(String, String)>) -> (sorted: Vec<(String, String)>)
    ensures
        is_sorting(signing::pair_views(pairs@), signing::pair_views(sorted@)),
{
    let ghost views = signing::pair_views(pairs@);
    let mut keys: Vec<&str> = Vec::new();
    let mut i: usize = 0;
    while i < pairs.len()
        invariant
            i <= pairs.len(),
            keys.len() == i,
            forall|j: int| 0 <= j < i ==> (#[trigger] keys@[j])@ == pairs@[j].0@,
        decreases pairs.len() - i,
    {
        keys.push(pairs[i].0.as_str());
        i += 1;
    }
    assert(Seq::new(keys@.len(), |i: int| keys@[i]@) =~= keys_of(views));
    let order = order_by_name(&keys);
    let ghost places = order::places(order@);
    let mut sorted: Vec<(String, String)> = Vec::new();
    let mut i: usize = 0;
    while i < order.len()
        invariant
            i <= order.len(),
            views == signing::pair_views(pairs@),
            places == order::places(order@),
            order::names_each_once(places, views.len()),
            sorted.len() == i,
            forall|j: int|
                0 <= j < i ==> ((#[trigger] sorted@[j]).0@, sorted@[j].1@) == views[places[j]],
        decreases order.len() - i,
    {
        assert(0 <= places[i as int] < views.len());
        let p = &pairs[order[i]];
        sorted.push((p.0.clone(), p.1.clone()));
        i += 1;
    }
    assert(signing::pair_views(sorted@) =~= in_order(views, places));
    sorted
}

/// The query that is signed: keys and values in percent-encoding.
pub open spec fn query_text(sorted: Seq<(Seq<char>, Seq<char>)>) -> Seq<char> {
    text::joined(
        Seq::new(
            sorted.len(),
            |i: int|
                signing::percent_encoded_text(sorted[i].0) + "="@ + signing::percent_encoded_text(
                    sorted[i].1,
                ),
        ),
        "&"@,
    )
}

/// What is signed for Aliyun: the method, the path and the query, the last two in
/// percent-encoding.
pub open spec fn text_to_sign(method: Seq<char>, sorted: Seq<(Seq<char>, Seq<char>)>) -> Seq<char> {
    method + "&"@ + signing::percent_encoded_text("/"@) + "&"@ + signing::percent_encoded_text(
        query_text(sorted),
    )
}

/// The signature for Aliyun.
pub open spec fn aliyun_signature(
    secret: Seq<char>,
    method: Seq<char>,
    sorted: Seq<(Seq<char>, Seq<char>)>,
) -> Seq<char> {
    signing::base64(
        signing::hmac_sha1(
            encode_utf8(secret + "&"@),
            encode_utf8(text_to_sign(method, sorted)),
        ),
    )
}

fn write_query(sorted: &Vec<(String, String)>) -> (query: String)
    ensures
        query@ == query_text(signing::pair_views(sorted@)),
{
    let ghost views = signing::pair_views(sorted@);
    let mut parts: Vec<String> = Vec::new();
    let mut i: usize = 0;
    while i < sorted.len()
        invariant
            i <= sorted.len(),
            views == signing::pair_views(sorted@),
            parts.len() == i,
            forall|j: int|
                0 <= j < i ==> (#[trigger] parts@[j])@ == signing::percent_encoded_text(views[j].0)
                    + "="@ + signing::percent_encoded_text(views[j].1),
        decreases sorted.len() - i,
    {
        let key = percent_encode(sorted[i].0.as_str().as_bytes());
        let value = percent_encode(sorted[i].1.as_str().as_bytes());
        parts.push(between(key.as_str(), "=", value.as_str()));
        i += 1;
    }
    assert(text::texts(parts@) =~= Seq::new(
        views.len(),
        |i: int|
            signing::percent_encoded_text(views[i].0) + "="@ + signing::percent_encoded_text(
                views[i].1,
            ),
    ));
    text::join(&parts, "&")
}

/// Writes what is signed for Aliyun, for parameters in the order of their keys.
pub fn string_to_sign(method: &str, sorted: &Vec<(String, String)>) -> (signed: String)
    ensures
        signed@ == text_to_sign(method@, signing::pair_views(sorted@)),
{
    let query = write_query(sorted);
    let path = percent_encode("/".as_bytes());
    let encoded_query = percent_encode(query.as_str().as_bytes());
    let mut signed = method.to_owned();
    signed.append("&");
    signed.append(path.as_str());
    signed.append("&");
    signed.append(encoded_query.as_str());
    signed
}

/// Signs a request to Aliyun with these parameters.
pub fn aliyun_sign(secret: &str, method: &str, params: &Vec<(String, String)>) -> (signature:
    String)
    ensures
        exists|sorted: Seq<(Seq<char>, Seq<char>)>| #[trigger]
            is_sorting(signing::pair_views(params@), sorted) && signature@ == aliyun_signature(
                secret@,
                method@,
                sorted,
            ),
        signature@.len() == 28,
{
    let sorted = sort_pairs(params);
    let signed = string_to_sign(method, &sorted);
    let key = before(secret, "&");
    let digest = hmac_sha1_digest(key.as_str().as_bytes(), signed.as_str().as_bytes());
    proof {
        signing::lemma_base64_len(digest@);
    }
    base64_text(digest.as_slice())
}

/// Whether `form` is the form with these parameters and this signature, in the order
/// of the keys.
pub open spec fn is_signed_form(
    params: Seq<(Seq<char>, Seq<char>)>,
    signature: Seq<char>,
    form: Seq<char>,
) -> bool {
    exists|sorted: Seq<(Seq<char>, Seq<char>)>| #[trigger]
        is_sorting(params.push(("Signature"@, signature)), sorted) && form == signing::form_text(
            sorted,
        )
}

/// Writes the form with these parameters and this signature.
pub fn write_signed_form(params: Vec<(String, String)>, signature: &str) -> (form: String)
    ensures
        is_signed_form(signing::pair_views(params@), signature@, form@),
{
    let mut signed = params;
    signed.push(pair("Signature", signature));
    assert(signing::pair_views(signed@) =~= signing::pair_views(params@).push(
        ("Signature"@, signature@),
    ));
    let sorted = sort_pairs(&signed);
    write_form(&sorted)
}

/// Whether a request sends these parameters to Aliyun, signed with `secret`.
pub open spec fn sends_params(
    request: DnsRequest,
    secret: Seq<char>,
    params: Seq<(Seq<char>, Seq<char>)>,
) -> bool {
    &&& request matches DnsRequest::Form { url, form }
    &&& url@ == "https://alidns.aliyuncs.com/"@
    &&& exists|sorted: Seq<(Seq<char>, Seq<char>)>| #[trigger]
        is_sorting(params, sorted) && is_signed_form(
            params,
            aliyun_signature(secret, "POST"@, sorted),
            form@,
        )
}

/// The request that sends these parameters to Aliyun, signed with `secret`.
pub fn aliyun_request(secret: &str, params: Vec<(String, String)>) -> (request: DnsRequest)
    ensures
        sends_params(request, secret@, signing::pair_views(params@)),
{
    let signature = aliyun_sign(secret, "POST", &params);
    let form = write_signed_form(params, signature.as_str());
    DnsRequest::Form { url: "https://alidns.aliyuncs.com/".to_owned(), form }
}

/// The request that creates a text record at Aliyun, with this nonce and time.
pub fn aliyun_add_txt_with(
    access_key_id: &str,
    access_key_secret: &str,
    name: &str,
    content: &str,
    nonce: u64,
    now: Timestamp,
) -> (r: Result<DnsRequest, String>)
    ensures
        match root_domain(name@) {
            Some(domain) => r matches Ok(request) && sends_params(
                request,
                access_key_secret@,
                aliyun_add_view(
                    access_key_id@,
                    nonce,
                    now,
                    domain,
                    host_record(name@, domain),
                    content@,
                ),
            ),
            None => r matches Err(message) && message@ == "Invalid domain name: "@ + name@,
        },
{
    match extract_root_domain(name) {
        Ok(domain) => {
            let rr = host_record_of(name, domain.as_str());
            let params = aliyun_add_params(
                access_key_id,
                nonce,
                now,
                domain.as_str(),
                rr.as_str(),
                content,
            );
            Ok(aliyun_request(access_key_secret, params))
        },
        Err(message) => Err(message),
    }
}

/// Whether a request creates a text record at a service, with this nonce and time.
pub open spec fn adds_txt(
    provider: DnsProviderConfig,
    name: Seq<char>,
    content: Seq<char>,
    nonce: u64,
    now: Timestamp,
    r: Result<DnsRequest, String>,
) -> bool {
    match provider {
        DnsProviderConfig::Cloudflare { api_token, zone_id } => match zone_id {
            Some(zone) => r matches Ok(request) && creates_record(
                request,
                api_token@,
                zone@,
                name,
                content,
            ),
            None => r matches Err(message) && message@ == "Cloudflare zone_id is required"@,
        },
        DnsProviderConfig::Aliyun { access_key_id, access_key_secret, .. } => match root_domain(
            name,
        ) {
            Some(domain) => r matches Ok(request) && sends_params(
                request,
                access_key_secret@,
                aliyun_add_view(
                    access_key_id@,
                    nonce,
                    now,
                    domain,
                    host_record(name, domain),
                    content,
                ),
            ),
            None => r matches Err(message) && message@ == "Invalid domain name: "@ + name,
        },
    }
}

/// The request that creates a text record, with a new nonce and the present time.
pub fn add_txt_request(provider: &DnsProviderConfig, name: &str, content: &str) -> (r: Result<
    DnsRequest,
    String,
>)
    ensures
        exists|nonce: u64, now: Timestamp|
            now.can_be_now() && #[trigger] adds_txt(*provider, name@, content@, nonce, now, r),
{
    let nonce = random_number();
    let now = Timestamp::now();
    let r = match provider {
        DnsProviderConfig::Cloudflare { api_token, zone_id } => cloudflare_add_txt(
            api_token.as_str(),
            zone_id,
            name,
            content,
        ),
        DnsProviderConfig::Aliyun { access_key_id, access_key_secret, .. } => aliyun_add_txt_with(
            access_key_id.as_str(),
            access_key_secret.as_str(),
            name,
            content,
            nonce,
            now,
        ),
    };
    assert(adds_txt(*provider, name@, content@, nonce, now, r));
    r
}

/// Whether a request deletes a record at a service, with this nonce and time.
pub open spec fn cleans_up(
    provider: DnsProviderConfig,
    record_id: Seq<char>,
    nonce: u64,
    now: Timestamp,
    r: Result<DnsRequest, String>,
) -> bool {
    match provider {
        DnsProviderConfig::Cloudflare { api_token, zone_id } => match zone_id {
            Some(zone) => r matches Ok(DnsRequest::Delete { url, authorization }) && url@
                == cloudflare_url(zone@) + "/"@ + record_id && authorization@ == "Bearer "@
                + api_token@,
            None => r matches Err(message) && message@
                == "Cloudflare zone_id is required for cleanup"@,
        },
        DnsProviderConfig::Aliyun { access_key_id, access_key_secret, .. } => r matches Ok(request)
            && sends_params(
            request,
            access_key_secret@,
            aliyun_delete_view(access_key_id@, nonce, now, record_id),
        ),
    }
}

/// The request that deletes a record, with this nonce and time.
pub fn cleanup_request_with(
    provider: &DnsProviderConfig,
    record_id: &str,
    nonce: u64,
    now: Timestamp,
) -> (r: Result<DnsRequest, String>)
    ensures
        cleans_up(*provider, record_id@, nonce, now, r),
{
    match provider {
        DnsProviderConfig::Cloudflare { api_token, zone_id } => match zone_id {
            Some(zone) => {
                let mut url = between(
                    "https://api.cloudflare.com/client/v4/zones/",
                    zone.as_str(),
                    "/dns_records",
                );
                url.append("/");
                url.append(record_id);
                Ok(DnsRequest::Delete { url, authorization: before("Bearer ", api_token.as_str()) })
            },
            None => Err("Cloudflare zone_id is required for cleanup".to_owned()),
        },
        DnsProviderConfig::Aliyun { access_key_id, access_key_secret, .. } => {
            let params = aliyun_delete_params(access_key_id.as_str(), nonce, now, record_id);
            Ok(aliyun_request(access_key_secret.as_str(), params))
        },
    }
}

/// The request that deletes a record, with a new nonce and the present time.
pub fn cleanup_request(provider: &DnsProviderConfig, record_id: &str) -> (r: Result<
    DnsRequest,
    String,
>)
    ensures
        exists|nonce: u64, now: Timestamp|
            now.can_be_now() && #[trigger] cleans_up(*provider, record_id@, nonce, now, r),
{
    let nonce = random_number();
    let now = Timestamp::now();
    cleanup_request_with(provider, record_id, nonce, now)
}

/// The failure that a reply without a status of success is.
pub open spec fn service_failure(provider: DnsProviderConfig, status: Seq<char>, body: Seq<char>) -> Seq<
    char,
> {
    (match provider {
        DnsProviderConfig::Cloudflare { .. } => "Cloudflare API failed ("@,
        DnsProviderConfig::Aliyun { .. } => "Aliyun DNS API failed ("@,
    }) + status + "): "@ + body
}

/// The message for a reply without a status of success.
pub fn format_service_failure(provider: &DnsProviderConfig, status: &str, body: &str) -> (message:
    String)
    ensures
        message@ == service_failure(*provider, status@, body@),
{
    let mut message = match provider {
        DnsProviderConfig::Cloudflare { .. } => "Cloudflare API failed (".to_owned(),
        DnsProviderConfig::Aliyun { .. } => "Aliyun DNS API failed (".to_owned(),
    };
    message.append(status);
    message.append("): ");
    message.append(body);
    message
}

/// The identifier of the new record, given what Cloudflare's reply holds.
pub open spec fn cloudflare_id_outcome(id: Option<Seq<char>>) -> Result<Seq<char>, Seq<char>> {
    match id {
        Some(id) => Ok(id),
        None => Err("Failed to get record ID from Cloudflare response"@),
    }
}

/// The identifier of the new record, given what Cloudflare's reply holds.
pub fn judge_cloudflare_id(id: Option<String>) -> (r: Result<String, String>)
    ensures
        certificate::text_or_reason(r) == cloudflare_id_outcome(types::optional_text(id)),
{
    match id {
        Some(id) => Ok(id),
        None => Err("Failed to get record ID from Cloudflare response".to_owned()),
    }
}

/// The identifier of the new record, given what Aliyun's reply holds.
pub open spec fn aliyun_id_outcome(id: Option<Seq<char>>, message: Option<Seq<char>>) -> Result<
    Seq<char>,
    Seq<char>,
> {
    match id {
        Some(id) => Ok(id),
        None => Err(
            "Failed to get RecordId from Aliyun response: "@ + match message {
                Some(message) => message,
                None => "unknown error"@,
            },
        ),
    }
}

/// The identifier of the new record, given what Aliyun's reply holds.
pub fn judge_aliyun_id(id: Option<String>, message: Option<String>) -> (r: Result<String, String>)
    ensures
        certificate::text_or_reason(r) == aliyun_id_outcome(
            types::optional_text(id),
            types::optional_text(message),
        ),
{
    match id {
        Some(id) => Ok(id),
        None => {
            let mut error = "Failed to get RecordId from Aliyun response: ".to_owned();
            match message {
                Some(message) => error.append(message.as_str()),
                None => error.append("unknown error"),
            }
            Err(error)
        },
    }
}

/// The identifier of the new record, from the body of a reply with a status of
/// success.
pub fn created_record_id(provider: &DnsProviderConfig, body: &[u8]) -> (r: Result<String, String>)
    ensures
        certificate::text_or_reason(r) == match *provider {
            DnsProviderConfig::Cloudflare { .. } => cloudflare_id_outcome(
                signing::json_inner_text(body@, "result"@, "id"@),
            ),
            DnsProviderConfig::Aliyun { .. } => aliyun_id_outcome(
                signing::json_text(body@, "RecordId"@),
                signing::json_text(body@, "Message"@),
            ),
        },
{
    match provider {
        DnsProviderConfig::Cloudflare { .. } => judge_cloudflare_id(
            read_json_inner_text(body, "result", "id"),
        ),
        DnsProviderConfig::Aliyun { .. } => judge_aliyun_id(
            read_json_text(body, "RecordId"),
            read_json_text(body, "Message"),
        ),
    }
}

/// A certificate for a domain is asked for the domain and for all names below it: the
/// second name is the first one behind an asterisk and a full stop. A domain that begins
/// with these is asked for alone.
pub proof fn certificates_are_asked_for_all_below_the_domain(domain: Seq<char>)
    ensures
        requested_names(domain)[0] == domain,
        domain.len() >= 2 && domain[0] == '*' && domain[1] == '.' <==> requested_names(domain).len()
            == 1,
        requested_names(domain).len() <= 2,
        requested_names(domain).len() == 2 ==> {
            &&& requested_names(domain)[1].skip(2) == domain
            &&& requested_names(domain)[1].len() == domain.len() + 2
            &&& requested_names(domain)[1][0] == '*'
            &&& requested_names(domain)[1][1] == '.'
        },
{
    reveal_strlit("*.");
    if domain.len() >= 2 && domain[0] == '*' && domain[1] == '.' {
        assert(domain.take(2) =~= "*."@);
    } else {
        if domain.len() >= 2 {
            assert(domain.take(2)[0] == domain[0] && domain.take(2)[1] == domain[1]);
        }
        assert(("*."@ + domain).skip(2) =~= domain);
    }
}

/// Whether a certificate is due is decided by its days left and the threshold alone: by the
/// one that is configured, or else by thirty days.
pub proof fn days_left_decide_on_renewal(
    config: Config,
    cert: CertificateView,
    other: CertificateView,
    now: Timestamp,
)
    ensures
        config.global.renew_threshold_days matches Some(days) ==> (is_due(config, cert, now)
            <==> clock::elapsed_days(cert.not_after, now) < days),
        config.global.renew_threshold_days is None ==> (is_due(config, cert, now)
            <==> clock::elapsed_days(cert.not_after, now) < 30),
        cert.not_after == other.not_after ==> is_due(config, cert, now) == is_due(
            config,
            other,
            now,
        ),
{
}

/// The record of a renewal says when it was and how it ended: with the new fingerprint, or
/// with the reason why it failed.
pub proof fn renewals_are_recorded_as_they_ended(
    outcome: Result<Seq<char>, Seq<char>>,
    now: Timestamp,
)
    ensures
        renewal_record(outcome, now).timestamp == now,
        renewal_record(outcome, now).success == outcome is Ok,
        outcome matches Ok(fingerprint) ==> renewal_record(outcome, now).new_fingerprint == Some(
            fingerprint,
        ),
        outcome matches Err(message) ==> renewal_record(outcome, now).new_fingerprint is None
            && renewal_record(outcome, now).message == message,
{
}

/// The part of a name below its domain, a full stop and the domain are the name; a name that
/// is not below the domain stands for itself.
pub proof fn host_records_are_below_the_domain(rr: Seq<char>, domain: Seq<char>, name: Seq<char>)
    ensures
        host_record(rr + "."@ + domain, domain) == rr,
        host_record(name, domain) == name || host_record(name, domain) + "."@ + domain == name,
        host_record(name, domain) == name ==> !text::ends_with(name, "."@ + domain),
        host_record(domain, domain) == domain,
{
    reveal_strlit(".");
    let suffix = "."@ + domain;
    let whole = rr + "."@ + domain;
    assert(whole.skip(whole.len() - suffix.len()) =~= suffix);
    assert(whole.take(whole.len() - suffix.len()) =~= rr);
    if text::ends_with(name, suffix) {
        let head = name.take(name.len() - suffix.len());
        assert(name =~= head + name.skip(name.len() - suffix.len()));
        assert(head + "."@ + domain =~= head + suffix);
    }
}

/// The name of a record is taken apart without loss: the part below the root domain and the
/// root domain, with a full stop between them, are the name again.
pub proof fn record_names_are_put_together_again(name: Seq<char>, root: Seq<char>)
    requires
        root_domain(name) == Some(root),
    ensures
        root == name ==> host_record(name, root) == name,
        root != name ==> host_record(name, root) + "."@ + root == name,
{
    reveal_strlit(".");
    root_domains_are_two_labels(name, root);
    let suffix = "."@ + root;
    if root.len() == name.len() {
        assert(name.skip(0) =~= name);
    } else {
        let at = name.len() - root.len() - 1;
        assert(name.skip(at) =~= suffix) by {
            assert(name.skip(at + 1) == root);
            assert forall|j: int| 0 <= j < suffix.len() implies name.skip(at)[j] == suffix[j] by {
                if j > 0 {
                    assert(name.skip(at + 1)[j - 1] == root[j - 1]);
                }
            }
        }
        assert(name =~= name.take(at) + suffix);
        assert(name.take(at) + "."@ + root =~= name.take(at) + suffix);
    }
}

/// A name without a full stop has no root domain; every other one has.
pub proof fn names_with_a_full_stop_have_a_root_domain(name: Seq<char>)
    ensures
        root_domain(name) is Some <==> name.contains('.'),
{
    lemma_last_dot(name, name.len() as int);
    if let Some(i) = last_dot(name, name.len() as int) {
        assert(name[i] == '.');
    } else if name.contains('.') {
        let i = name.index_of('.');
        assert(name[i] == '.');
    }
}

/// The certificate is stored under the path that is configured for it, and the key under
/// the one for the key; where one of them is not configured, it is a file with its own name
/// in the directory for both.
pub proof fn certificates_and_keys_have_their_own_paths(dc: DomainConfig)
    ensures
        dc.fullchain_path matches Some(path) ==> fullchain_path_of(dc) == Some(path@),
        dc.privkey_path matches Some(path) ==> privkey_path_of(dc) == Some(path@),
        dc.fullchain_path is None ==> fullchain_path_of(dc) == match dc.cert_storage_path {
            Some(directory) => Some(directory@ + "/"@ + "fullchain.pem"@),
            None => None,
        },
        dc.privkey_path is None ==> privkey_path_of(dc) == match dc.cert_storage_path {
            Some(directory) => Some(directory@ + "/"@ + "privkey.pem"@),
            None => None,
        },
        dc.fullchain_path is None && dc.privkey_path is None && dc.cert_storage_path is Some
            ==> fullchain_path_of(dc) != privkey_path_of(dc),
{
    reveal_strlit("fullchain.pem");
    reveal_strlit("privkey.pem");
    if dc.fullchain_path is None && dc.privkey_path is None && dc.cert_storage_path is Some {
        let directory = dc.cert_storage_path->0@;
        let fullchain = directory + "/"@ + "fullchain.pem"@;
        let privkey = directory + "/"@ + "privkey.pem"@;
        assert(fullchain.len() != privkey.len());
    }
}

/// The fingerprint of a renewed certificate is the one that a scan of the file with it
/// tells.
pub proof fn renewed_fingerprints_are_those_of_the_file(
    pem: Seq<u8>,
    domain: Seq<char>,
    path: Seq<char>,
)
    ensures
        crate::scanner::pem_outcome_for(pem, domain, path) matches Ok(info) ==> new_fingerprint_outcome(
            match certificate::pem_outcome(pem) {
                Ok(der) => Ok(certificate::fields_of(der)),
                Err(reason) => Err(reason),
            },
        ) == Ok::<Seq<char>, Seq<char>>(info.fingerprint_sha256),
        new_fingerprint_outcome(
            match certificate::pem_outcome(pem) {
                Ok(der) => Ok(certificate::fields_of(der)),
                Err(reason) => Err(reason),
            },
        ) is Ok <==> certificate::pem_outcome(pem) is Ok && certificate::encoding_of(
            certificate::pem_outcome(pem)->Ok_0,
        ) is Ok,
{
}

/// What creates a record and what deletes it go to the same place with the same token: the
/// address of the deletion is that of the creation, a slash and the record's identifier.
pub proof fn records_are_deleted_where_they_were_created(
    provider: DnsProviderConfig,
    name: Seq<char>,
    content: Seq<char>,
    record_id: Seq<char>,
    nonce: u64,
    now: Timestamp,
    later_nonce: u64,
    later: Timestamp,
    created: Result<DnsRequest, String>,
    deleted: Result<DnsRequest, String>,
)
    requires
        provider is Cloudflare,
        adds_txt(provider, name, content, nonce, now, created),
        cleans_up(provider, record_id, later_nonce, later, deleted),
    ensures
        created is Ok <==> provider->Cloudflare_zone_id is Some,
        deleted is Ok <==> created is Ok,
        created matches Ok(request) ==> {
            &&& request matches DnsRequest::Create { url, authorization, record }
            &&& record.name@ == name
            &&& record.content@ == content
            &&& record.record_type@ == "TXT"@
            &&& text::has_part(url@, provider->Cloudflare_zone_id->0@)
            &&& text::ends_with(authorization@, provider->Cloudflare_api_token@)
            &&& deleted matches Ok(DnsRequest::Delete { url: other, authorization: token })
            &&& other@ == url@ + "/"@ + record_id
            &&& token@ == authorization@
        },
{
    if let Some(zone) = provider->Cloudflare_zone_id {
        text::lemma_has_part(
            "https://api.cloudflare.com/client/v4/zones/"@,
            zone@,
            "/dns_records"@,
        );
        let token = provider->Cloudflare_api_token@;
        let whole = "Bearer "@ + token;
        assert(whole.skip(whole.len() - token.len()) =~= token);
    }
}

/// The parameters that create a record at Aliyun name the root domain, the part of the name
/// below it, and the content, under the account that asks; those that delete one name the
/// record. Nothing else is sent but how the request is signed, and when.
pub proof fn parameters_name_what_they_are_about(
    access_key_id: Seq<char>,
    nonce: u64,
    now: Timestamp,
    domain: Seq<char>,
    rr: Seq<char>,
    content: Seq<char>,
    record_id: Seq<char>,
)
    ensures
        ({
            let params = aliyun_add_view(access_key_id, nonce, now, domain, rr, content);
            &&& params.contains(("Action"@, "AddDomainRecord"@))
            &&& params.contains(("DomainName"@, domain))
            &&& params.contains(("RR"@, rr))
            &&& params.contains(("Type"@, "TXT"@))
            &&& params.contains(("Value"@, content))
            &&& params.contains(("AccessKeyId"@, access_key_id))
            &&& params.contains(("SignatureNonce"@, text::decimal(nonce as nat)))
            &&& params.contains(
                ("Timestamp"@, clock::time_text(now.secs(), now.nanos(), "%Y-%m-%dT%H:%M:%SZ"@)),
            )
            &&& params.contains(("Version"@, "2015-01-09"@))
            &&& params.contains(("Format"@, "JSON"@))
            &&& params.contains(("SignatureMethod"@, "HMAC-SHA1"@))
            &&& params.contains(("SignatureVersion"@, "1.0"@))
            &&& params.contains(("TTL"@, "600"@))
            &&& params.len() == 13
        }),
        ({
            let params = aliyun_delete_view(access_key_id, nonce, now, record_id);
            &&& params.contains(("Action"@, "DeleteDomainRecord"@))
            &&& params.contains(("RecordId"@, record_id))
            &&& params.contains(("AccessKeyId"@, access_key_id))
            &&& params.contains(("SignatureNonce"@, text::decimal(nonce as nat)))
            &&& params.contains(
                ("Timestamp"@, clock::time_text(now.secs(), now.nanos(), "%Y-%m-%dT%H:%M:%SZ"@)),
            )
            &&& params.contains(("Version"@, "2015-01-09"@))
            &&& params.contains(("Format"@, "JSON"@))
            &&& params.contains(("SignatureMethod"@, "HMAC-SHA1"@))
            &&& params.contains(("SignatureVersion"@, "1.0"@))
            &&& params.len() == 9
        }),
{
    let params = aliyun_add_view(access_key_id, nonce, now, domain, rr, content);
    assert(params[0] == ("Action"@, "AddDomainRecord"@));
    assert(params[1] == ("Version"@, "2015-01-09"@));
    assert(params[2] == ("Format"@, "JSON"@));
    assert(params[3] == ("AccessKeyId"@, access_key_id));
    assert(params[4] == ("SignatureMethod"@, "HMAC-SHA1"@));
    assert(params[5] == ("SignatureVersion"@, "1.0"@));
    assert(params[6] == ("SignatureNonce"@, text::decimal(nonce as nat)));
    assert(params[7] == (
        "Timestamp"@,
        clock::time_text(now.secs(), now.nanos(), "%Y-%m-%dT%H:%M:%SZ"@),
    ));
    assert(params[8] == ("DomainName"@, domain));
    assert(params[9] == ("RR"@, rr));
    assert(params[10] == ("Type"@, "TXT"@));
    assert(params[11] == ("Value"@, content));
    assert(params[12] == ("TTL"@, "600"@));
    let params = aliyun_delete_view(access_key_id, nonce, now, record_id);
    assert(params[0] == ("Action"@, "DeleteDomainRecord"@));
    assert(params[1] == ("Version"@, "2015-01-09"@));
    assert(params[2] == ("Format"@, "JSON"@));
    assert(params[3] == ("AccessKeyId"@, access_key_id));
    assert(params[4] == ("SignatureMethod"@, "HMAC-SHA1"@));
    assert(params[5] == ("SignatureVersion"@, "1.0"@));
    assert(params[6] == ("SignatureNonce"@, text::decimal(nonce as nat)));
    assert(params[7] == (
        "Timestamp"@,
        clock::time_text(now.secs(), now.nanos(), "%Y-%m-%dT%H:%M:%SZ"@),
    ));
    assert(params[8] == ("RecordId"@, record_id));
}

/// What is signed holds the method before the first `&`, and every parameter, its key and
/// its value in percent-encoding, stands in the query; the key that signs is the secret of
/// the account with `&` behind it.
pub proof fn signatures_cover_every_parameter(
    secret: Seq<char>,
    method: Seq<char>,
    sorted: Seq<(Seq<char>, Seq<char>)>,
    i: int,
)
    requires
        0 <= i < sorted.len(),
    ensures
        text::begins_with(text_to_sign(method, sorted), method + "&"@),
        text::ends_with(
            text_to_sign(method, sorted),
            signing::percent_encoded_text(query_text(sorted)),
        ),
        text::has_part(
            query_text(sorted),
            signing::percent_encoded_text(sorted[i].0) + "="@ + signing::percent_encoded_text(
                sorted[i].1,
            ),
        ),
        aliyun_signature(secret, method, sorted) == signing::base64(
            signing::hmac_sha1(
                encode_utf8(secret + "&"@),
                encode_utf8(text_to_sign(method, sorted)),
            ),
        ),
{
    let whole = text_to_sign(method, sorted);
    let head = method + "&"@;
    let query = signing::percent_encoded_text(query_text(sorted));
    assert(whole.take(head.len() as int) =~= head);
    assert(whole.skip(whole.len() - query.len()) =~= query);
    let parts = Seq::new(
        sorted.len(),
        |i: int|
            signing::percent_encoded_text(sorted[i].0) + "="@ + signing::percent_encoded_text(
                sorted[i].1,
            ),
    );
    text::joined_parts_are_there(parts, "&"@, i);
}

/// The region of an account plays no part in what is asked of Aliyun.
pub proof fn regions_change_no_request(
    access_key_id: String,
    access_key_secret: String,
    region: Option<String>,
    other: Option<String>,
    name: Seq<char>,
    content: Seq<char>,
    nonce: u64,
    now: Timestamp,
    r: Result<DnsRequest, String>,
)
    ensures
        ({
            let a = DnsProviderConfig::Aliyun { access_key_id, access_key_secret, region };
            let b = DnsProviderConfig::Aliyun { access_key_id, access_key_secret, region: other };
            &&& adds_txt(a, name, content, nonce, now, r) == adds_txt(
                b,
                name,
                content,
                nonce,
                now,
                r,
            )
            &&& cleans_up(a, name, nonce, now, r) == cleans_up(b, name, nonce, now, r)
        }),
{
}

/// A failure of a service is told with the status and the body of its reply.
pub proof fn service_failures_tell_status_and_body(
    provider: DnsProviderConfig,
    status: Seq<char>,
    body: Seq<char>,
)
    ensures
        text::has_part(service_failure(provider, status, body), status),
        text::ends_with(service_failure(provider, status, body), body),
{
    let head = match provider {
        DnsProviderConfig::Cloudflare { .. } => "Cloudflare API failed ("@,
        DnsProviderConfig::Aliyun { .. } => "Aliyun DNS API failed ("@,
    };
    let whole = head + status + "): "@ + body;
    text::lemma_has_part(head, status, "): "@ + body);
    assert(head + status + ("): "@ + body) =~= whole);
    assert(whole.skip(whole.len() - body.len()) =~= body);
}

/// The identifier that a reply holds is the one that is kept; where it holds none, the
/// outcome is an error, at Aliyun with the message of the reply.
pub proof fn identifiers_are_taken_from_the_reply(
    id: Option<Seq<char>>,
    message: Option<Seq<char>>,
)
    ensures
        id matches Some(id) ==> cloudflare_id_outcome(Some(id)) == Ok::<Seq<char>, Seq<char>>(id)
            && aliyun_id_outcome(Some(id), message) == Ok::<Seq<char>, Seq<char>>(id),
        id is None ==> cloudflare_id_outcome(id) is Err && aliyun_id_outcome(id, message) is Err,
        id is None ==> (message matches Some(message) ==> text::ends_with(
            aliyun_id_outcome(id, Some(message))->Err_0,
            message,
        )),
{
    if let Some(message) = message {
        let whole = "Failed to get RecordId from Aliyun response: "@ + message;
        assert(whole.skip(whole.len() - message.len()) =~= message);
    }
}

/// A sorting of pairs holds each of them.
proof fn lemma_sorting_holds(
    pairs: Seq<(Seq<char>, Seq<char>)>,
    sorted: Seq<(Seq<char>, Seq<char>)>,
    i: int,
) -> (j: int)
    requires
        is_sorting(pairs, sorted),
        0 <= i < pairs.len(),
    ensures
        sorted.len() == pairs.len(),
        0 <= j < sorted.len(),
        sorted[j] == pairs[i],
{
    let order = choose|order: Seq<int>| #[trigger]
        order::is_name_order_of(keys_of(pairs), order) && sorted == in_order(pairs, order);
    assert(order.contains(i));
    let j = order.index_of(i);
    assert(order[j] == i);
    j
}

/// A form that is sent to Aliyun holds every parameter, with its key and its value, and the
/// signature of the parameters in the order of their keys under the secret of the account.
pub proof fn forms_hold_every_parameter_and_the_signature(
    request: DnsRequest,
    secret: Seq<char>,
    params: Seq<(Seq<char>, Seq<char>)>,
    i: int,
)
    requires
        sends_params(request, secret, params),
        0 <= i < params.len(),
    ensures
        request matches DnsRequest::Form { url, form } && url@ == "https://alidns.aliyuncs.com/"@
            && text::has_part(
            form@,
            signing::form_encoded(encode_utf8(params[i].0)) + seq!['=']
                + signing::form_encoded(encode_utf8(params[i].1)),
        ) && exists|sorted: Seq<(Seq<char>, Seq<char>)>|
            {
                &&& #[trigger] is_sorting(params, sorted)
                &&& text::has_part(
                    form@,
                    signing::form_encoded(encode_utf8("Signature"@)) + seq!['=']
                        + signing::form_encoded(
                        encode_utf8(aliyun_signature(secret, "POST"@, sorted)),
                    ),
                )
            },
{
    let form = request->form;
    let sorted = choose|sorted: Seq<(Seq<char>, Seq<char>)>| #[trigger]
        is_sorting(params, sorted) && is_signed_form(
            params,
            aliyun_signature(secret, "POST"@, sorted),
            form@,
        );
    let signature = aliyun_signature(secret, "POST"@, sorted);
    let all = params.push(("Signature"@, signature));
    let sent = choose|sent: Seq<(Seq<char>, Seq<char>)>| #[trigger]
        is_sorting(all, sent) && form@ == signing::form_text(sent);
    let j = lemma_sorting_holds(all, sent, i);
    let k = lemma_sorting_holds(all, sent, params.len() as int);
    let parts = Seq::new(
        sent.len(),
        |i: int|
            signing::form_encoded(encode_utf8(sent[i].0)) + seq!['='] + signing::form_encoded(
                encode_utf8(sent[i].1),
            ),
    );
    assert(all[i] == params[i]);
    assert(all[params.len() as int] == ("Signature"@, signature));
    text::joined_parts_are_there(parts, seq!['&'], j);
    text::joined_parts_are_there(parts, seq!['&'], k);
    assert(is_sorting(params, sorted));
}

/// Whether a domain and the part of a name below it make up the name: they do with a full
/// stop between them, or where both are the name.
pub open spec fn make_up(rr: Seq<char>, domain: Seq<char>, name: Seq<char>) -> bool {
    (rr == name && domain == name) || rr + "."@ + domain == name
}

/// A root domain and the part below it make up the name.
proof fn lemma_make_up(name: Seq<char>, domain: Seq<char>)
    requires
        root_domain(name) == Some(domain),
    ensures
        make_up(host_record(name, domain), domain, name),
{
    record_names_are_put_together_again(name, domain);
}

/// A record at Aliyun is created for the whole of its name: the domain and the part below it
/// that are sent make up the name. Names without a full stop are refused.
pub proof fn records_at_aliyun_are_for_the_whole_name(
    provider: DnsProviderConfig,
    name: Seq<char>,
    content: Seq<char>,
    nonce: u64,
    now: Timestamp,
    r: Result<DnsRequest, String>,
)
    requires
        provider is Aliyun,
        adds_txt(provider, name, content, nonce, now, r),
    ensures
        r is Ok <==> name.contains('.'),
        r matches Ok(request) ==> exists|rr: Seq<char>, domain: Seq<char>| #[trigger]
            make_up(rr, domain, name) && sends_params(
                request,
                provider->Aliyun_access_key_secret@,
                aliyun_add_view(
                    provider->Aliyun_access_key_id@,
                    nonce,
                    now,
                    domain,
                    rr,
                    content,
                ),
            ),
{
    names_with_a_full_stop_have_a_root_domain(name);
    if let Some(domain) = root_domain(name) {
        lemma_make_up(name, domain);
    }
}

/// A record at Aliyun is deleted by its identifier, under the account that created it.
pub proof fn records_at_aliyun_are_deleted_by_their_identifier(
    provider: DnsProviderConfig,
    record_id: Seq<char>,
    nonce: u64,
    now: Timestamp,
    r: Result<DnsRequest, String>,
)
    requires
        provider is Aliyun,
        cleans_up(provider, record_id, nonce, now, r),
    ensures
        r matches Ok(request) && sends_params(
            request,
            provider->Aliyun_access_key_secret@,
            aliyun_delete_view(provider->Aliyun_access_key_id@, nonce, now, record_id),
        ),
{
}

/// What belongs to a domain is kept in a directory of its own below the home directory: the
/// same one for the same domain, and others for others.
pub proof fn domains_are_kept_in_directories_of_their_own(
    home: PathBuf,
    domain: Seq<char>,
    other: Seq<char>,
    path: FilePath,
    other_path: FilePath,
)
    requires
        is_persist_path(home, domain, path),
        is_persist_path(home, other, other_path),
    ensures
        path is Below,
        path->directory == home,
        path->parts@.len() == 3,
        path->parts@[0]@ == ".cert-monitor"@,
        path->parts@[1]@ == "acme"@,
        path->parts@[2]@ == domain,
        text::texts(path->parts@) == text::texts(other_path->parts@) <==> domain == other,
{
    let texts = text::texts(path->parts@);
    let other_texts = text::texts(other_path->parts@);
    assert(texts == seq![".cert-monitor"@, "acme"@, domain]);
    assert(texts.len() == 3);
    assert(texts[0] == path->parts@[0]@);
    assert(texts[1] == path->parts@[1]@);
    assert(texts[2] == path->parts@[2]@ && texts[2] == domain);
    assert(other_texts[2] == other);
}

/// The directory for a domain is known exactly where the home directory is.
pub proof fn directories_need_a_home(
    home: Option<PathBuf>,
    domain: Seq<char>,
    r: Result<FilePath, String>,
)
    requires
        is_persist_outcome(home, domain, r),
    ensures
        r is Ok <==> home is Some,
        r matches Ok(path) ==> is_persist_path(home->0, domain, path),
{
}

} // verus!
