//! Scanning: which domains, on which ports, and what is learnt of each.
use crate::certificate::{
    self, compute_sha256_fingerprint, extract_san, verify_chain_complete, Certificate,
    CertificateFields,
};
use crate::clock::{self, Timestamp};
use crate::config::{Config, IpRangeConfig};
use crate::network::{
    self, network_contains, parse_ip, parse_network, scanned_hosts, write_ip, IpAddress,
};
use crate::ocsp::{self, check_ocsp_status, ocsp_query, OcspQuery, OcspReply};
use crate::text::{self, push_decimal, text_equal};
use crate::types::{self, CertificateInfo, CertificateView, OcspStatus, ScanResult, ScanView};
use std::sync::Arc;
use vstd::prelude::*;

verus! {

/// Scans the domains of a configuration.
#[derive(Debug, Clone)]
pub struct Scanner {
    config: Arc<Config>,
    concurrency: usize,
    timeout_secs: u64,
}

/// The address of a port of a domain.
pub open spec fn address_text(domain: Seq<char>, port: u16) -> Seq<char> {
    domain + ":"@ + text::decimal(port as nat)
}

/// Writes the address of a port of a domain.
pub fn format_address(domain: &str, port: u16) -> (address: String)
    ensures
        address@ == address_text(domain@, port),
{
    let mut address = domain.to_owned();
    address.append(":");
    push_decimal(&mut address, port as u64);
    address
}

/// Why a server could not be asked for its certificates.
#[derive(Debug)]
pub enum ConnectFailure {
    /// It took too long.
    Timeout,
    /// There was no connection.
    Connect,
    /// A root certificate of the system was refused.
    RootCertificate { reason: String },
    /// The domain is no name of a server.
    InvalidDomain { reason: String },
    /// There was no agreement on a session.
    Handshake,
}

impl ConnectFailure {
    /// The failure in words, for a connection to `address`.
    pub open spec fn text(self, address: Seq<char>) -> Seq<char> {
        match self {
            ConnectFailure::Timeout => "Connection timeout for "@ + address,
            ConnectFailure::Connect => "Failed to connect to "@ + address,
            ConnectFailure::RootCertificate { reason } => "Failed to add root cert: "@ + reason@,
            ConnectFailure::InvalidDomain { reason } => "Invalid domain: "@ + reason@,
            ConnectFailure::Handshake => "TLS handshake failed"@,
        }
    }

    /// The failure in words, for a connection to `address`.
    pub fn message(&self, address: &str) -> (message: String)
        ensures
            message@ == self.text(address@),
    {
        match self {
            ConnectFailure::Timeout => with_prefix("Connection timeout for ", address),
            ConnectFailure::Connect => with_prefix("Failed to connect to ", address),
            ConnectFailure::RootCertificate { reason } => with_prefix(
                "Failed to add root cert: ",
                reason.as_str(),
            ),
            ConnectFailure::InvalidDomain { reason } => with_prefix(
                "Invalid domain: ",
                reason.as_str(),
            ),
            ConnectFailure::Handshake => "TLS handshake failed".to_owned(),
        }
    }
}

/// `text` with `prefix` before it.
fn with_prefix(prefix: &str, text: &str) -> (r: String)
    ensures
        r@ == prefix@ + text@,
{
    let mut r = prefix.to_owned();
    r.append(text);
    r
}

/// What is told of a certificate, or why nothing can be told of it.
pub open spec fn described(
    certificate: CertificateFields,
    domain: Seq<char>,
    fingerprint: Seq<char>,
    chain_complete: bool,
    status: OcspStatus,
    source: Seq<char>,
) -> Result<CertificateView, Seq<char>> {
    match (certificate.subject, certificate.issuer) {
        (Err(reason), _) => Err(reason),
        (_, Err(reason)) => Err(reason),
        (Ok(subject), Ok(issuer)) => if !clock::names_instant(certificate.not_before, 0) {
            Err("Invalid not_before timestamp"@)
        } else if !clock::names_instant(certificate.not_after, 0) {
            Err("Invalid not_after timestamp"@)
        } else {
            Ok(
                CertificateView {
                    domain,
                    subject,
                    san_list: certificate::names_of_extensions(certificate.extensions),
                    issuer,
                    not_before: Timestamp::of(certificate.not_before, 0),
                    not_after: Timestamp::of(certificate.not_after, 0),
                    fingerprint_sha256: fingerprint,
                    chain_complete,
                    ocsp_status: status,
                    source,
                },
            )
        },
    }
}

/// What an outcome says.
pub open spec fn outcome_view(outcome: Result<CertificateInfo, String>) -> Result<
    CertificateView,
    Seq<char>,
> {
    match outcome {
        Ok(info) => Ok(info@),
        Err(message) => Err(message@),
    }
}

fn describe(
    certificate: &Certificate,
    domain: &str,
    fingerprint: String,
    chain_complete: bool,
    source: String,
) -> (r: Result<CertificateInfo, String>)
    ensures
        outcome_view(r) == described(
            certificate@,
            domain@,
            fingerprint@,
            chain_complete,
            OcspStatus::Unknown,
            source@,
        ),
{
    let subject = match &certificate.subject {
        Ok(subject) => subject.clone(),
        Err(reason) => return Err(reason.clone()),
    };
    let issuer = match &certificate.issuer {
        Ok(issuer) => issuer.clone(),
        Err(reason) => return Err(reason.clone()),
    };
    let san_list = extract_san(certificate);
    let not_before = match Timestamp::from_parts(certificate.not_before, 0) {
        Some(not_before) => not_before,
        None => return Err("Invalid not_before timestamp".to_owned()),
    };
    let not_after = match Timestamp::from_parts(certificate.not_after, 0) {
        Some(not_after) => not_after,
        None => return Err("Invalid not_after timestamp".to_owned()),
    };
    Ok(
        CertificateInfo {
            domain: domain.to_owned(),
            subject,
            san_list,
            issuer,
            not_before,
            not_after,
            fingerprint_sha256: fingerprint,
            chain_complete,
            ocsp_status: OcspStatus::Unknown,
            source,
        },
    )
}

/// What is told of the first of the certificates that a server sent, with the
/// status that the responder gave.
pub open spec fn served_outcome(
    domain: Seq<char>,
    port: u16,
    ders: Seq<Seq<u8>>,
    status: OcspStatus,
) -> Result<CertificateView, Seq<char>> {
    if ders.len() == 0 {
        Err("No certificates received from server"@)
    } else {
        match certificate::certificate_outcome(ders[0]) {
            Err(reason) => Err("Failed to parse certificate: "@ + reason),
            Ok(()) => described(
                certificate::fields_of(ders[0]),
                domain,
                text::colon_hex(certificate::sha256(ders[0])),
                certificate::is_complete_chain(ders),
                status,
                address_text(domain, port),
            ),
        }
    }
}

/// What is told of a served certificate before its responder was asked, and the
/// question for the responder, if there is one.
#[derive(Debug)]
pub struct Examined {
    pub info: CertificateInfo,
    pub query: Option<OcspQuery>,
}

/// Examines the certificates that a server sent.
pub fn examine_certificates(domain: &str, port: u16, ders: &Vec<Vec<u8>>) -> (r: Result<
    Examined,
    String,
>)
    ensures
        ({
            let views = certificate::octet_views(ders@);
            match r {
                Ok(examined) => {
                    &&& served_outcome(domain@, port, views, OcspStatus::Unknown) == Ok::<
                        CertificateView,
                        Seq<char>,
                    >(examined.info@)
                    &&& ocsp::optional_query(examined.query) == ocsp::query_of(
                        certificate::fields_of(views[0]),
                        views,
                    )
                },
                Err(message) => served_outcome(domain@, port, views, OcspStatus::Unknown) == Err::<
                    CertificateView,
                    Seq<char>,
                >(message@),
            }
        }),
        r matches Ok(examined) ==> {
            &&& ders@.len() > 0
            &&& examined.info.domain@ == domain@
            &&& certificate::subject_of(ders@[0]@) == Ok::<Seq<char>, Seq<char>>(
                examined.info.subject@,
            )
            &&& certificate::issuer_of(ders@[0]@) == Ok::<Seq<char>, Seq<char>>(
                examined.info.issuer@,
            )
            &&& examined.info.ocsp_status == OcspStatus::Unknown
        },
{
    if ders.len() == 0 {
        return Err("No certificates received from server".to_owned());
    }
    let leaf_der = ders[0].as_slice();
    assert(certificate::octet_views(ders@)[0] == leaf_der@);
    let leaf = match Certificate::from_der(leaf_der) {
        Ok(leaf) => leaf,
        Err(reason) => return Err(with_prefix("Failed to parse certificate: ", reason.as_str())),
    };
    let fingerprint = compute_sha256_fingerprint(leaf_der);
    let chain_complete = verify_chain_complete(ders);
    let source = format_address(domain, port);
    match describe(&leaf, domain, fingerprint, chain_complete, source) {
        Ok(info) => {
            let query = ocsp_query(&leaf, ders);
            Ok(Examined { info, query })
        },
        Err(message) => Err(message),
    }
}

impl Examined {
    /// What is told of the certificate, once the responder has replied or failed to.
    pub fn conclude(self, reply: &OcspReply) -> (info: CertificateInfo)
        ensures
            info@ == (CertificateView {
                ocsp_status: ocsp::reply_status(*reply),
                ..self.info@
            }),
    {
        let mut info = self.info;
        info.ocsp_status = check_ocsp_status(reply);
        info
    }
}

/// A responder decides on the status of a served certificate and on nothing else.
pub proof fn replies_decide_on_the_status_alone(
    domain: Seq<char>,
    port: u16,
    ders: Seq<Seq<u8>>,
    status: OcspStatus,
)
    ensures
        served_outcome(domain, port, ders, status) == match served_outcome(
            domain,
            port,
            ders,
            OcspStatus::Unknown,
        ) {
            Ok(info) => Ok(CertificateView { ocsp_status: status, ..info }),
            Err(message) => Err(message),
        },
{
}

/// A single certificate is told of as one without a complete chain.
pub proof fn single_certificates_are_incomplete(
    domain: Seq<char>,
    port: u16,
    der: Seq<u8>,
    status: OcspStatus,
)
    ensures
        served_outcome(domain, port, seq![der], status) matches Ok(info) ==> !info.chain_complete,
{
}

/// The extensions of the names of files with certificates.
pub open spec fn is_certificate_extension(extension: Seq<char>) -> bool {
    extension == "pem"@ || extension == "crt"@ || extension == "cer"@
}

/// Whether a file whose name has this extension is read as a certificate.
pub fn names_certificate(extension: &str) -> (r: bool)
    ensures
        r == is_certificate_extension(extension@),
{
    text_equal(extension, "pem") || text_equal(extension, "crt") || text_equal(extension, "cer")
}

/// The subject of the certificate in a PEM file, or why there is none.
pub open spec fn pem_domain_outcome(content: Seq<u8>) -> Result<Seq<char>, Seq<char>> {
    match certificate::pem_outcome(content) {
        Ok(der) => certificate::fields_of(der).subject,
        Err(reason) => Err("Failed to parse PEM: "@ + reason),
    }
}

/// The subject of the certificate in a PEM file.
pub fn extract_domain_from_pem(content: &[u8]) -> (r: Result<String, String>)
    ensures
        certificate::text_or_reason(r) == pem_domain_outcome(content@),
{
    match Certificate::from_pem(content) {
        Ok(certificate) => certificate.subject,
        Err(reason) => Err(with_prefix("Failed to parse PEM: ", reason.as_str())),
    }
}

/// What is told of a certificate that was read from a file: its fingerprint is that
/// of its encoding, its chain is taken to be complete.
pub open spec fn stored_outcome(
    certificate: CertificateFields,
    domain: Seq<char>,
    path: Seq<char>,
) -> Result<CertificateView, Seq<char>> {
    match certificate.encoding {
        Err(reason) => Err("Failed to encode DER: "@ + reason),
        Ok(encoding) => described(
            certificate,
            domain,
            text::colon_hex(certificate::sha256(encoding)),
            true,
            OcspStatus::Unknown,
            path,
        ),
    }
}

/// What is told of a certificate that was read from a file.
pub fn describe_stored(certificate: &Certificate, domain: &str, path: &str) -> (r: Result<
    CertificateInfo,
    String,
>)
    ensures
        outcome_view(r) == stored_outcome(certificate@, domain@, path@),
{
    match &certificate.encoding {
        Err(reason) => Err(with_prefix("Failed to encode DER: ", reason.as_str())),
        Ok(encoding) => {
            let fingerprint = compute_sha256_fingerprint(encoding.as_slice());
            describe(certificate, domain, fingerprint, true, path.to_owned())
        },
    }
}

/// What is told of the certificate in a PEM file, under the name `domain`.
pub open spec fn pem_outcome_for(content: Seq<u8>, domain: Seq<char>, path: Seq<char>) -> Result<
    CertificateView,
    Seq<char>,
> {
    match certificate::pem_outcome(content) {
        Err(reason) => Err("Failed to parse PEM: "@ + reason),
        Ok(der) => stored_outcome(certificate::fields_of(der), domain, path),
    }
}

/// What is told of the certificate in a file with this content, or why the file
/// cannot be read.
pub open spec fn file_outcome(
    content: Result<Vec<u8>, String>,
    domain: Seq<char>,
    path: Seq<char>,
) -> Result<CertificateView, Seq<char>> {
    match content {
        Ok(content) => pem_outcome_for(content@, domain, path),
        Err(reason) => Err(reason@),
    }
}

/// What is told of the certificate in a PEM file, under the name `domain`.
pub fn load_cert_from_pem(content: &[u8], domain: &str, path: &str) -> (r: Result<
    CertificateInfo,
    String,
>)
    ensures
        outcome_view(r) == pem_outcome_for(content@, domain@, path@),
        r matches Ok(info) ==> {
            let der = certificate::pem_outcome(content@)->Ok_0;
            &&& info.domain@ == domain@
            &&& info.source@ == path@
            &&& certificate::subject_of(der) == Ok::<Seq<char>, Seq<char>>(info.subject@)
            &&& certificate::issuer_of(der) == Ok::<Seq<char>, Seq<char>>(info.issuer@)
        },
{
    match Certificate::from_pem(content) {
        Err(reason) => Err(with_prefix("Failed to parse PEM: ", reason.as_str())),
        Ok(certificate) => describe_stored(&certificate, domain, path),
    }
}

/// What comes of a scan whose outcome was this.
pub open spec fn scan_of(
    domain: Seq<char>,
    outcome: Result<CertificateView, Seq<char>>,
    scanned_at: Timestamp,
) -> ScanView {
    match outcome {
        Ok(info) => ScanView { domain, cert: Some(info), error: None, scanned_at },
        Err(message) => ScanView { domain, cert: None, error: Some(message), scanned_at },
    }
}

/// The names in `names` that are not yet in `list`, put at its end, each once.
pub open spec fn add_names(list: Seq<Seq<char>>, names: Seq<Seq<char>>) -> Seq<Seq<char>>
    decreases names.len(),
{
    if names.len() == 0 {
        list
    } else {
        let before = add_names(list, names.drop_last());
        if before.contains(names.last()) {
            before
        } else {
            before.push(names.last())
        }
    }
}

/// The addresses that are scanned of a range, in text. There are none where the
/// range is not one.
pub open spec fn range_texts(cidr: Seq<char>) -> Seq<Seq<char>> {
    match network::named_network(cidr) {
        Some(network) => Seq::new(
            network.scanned_count() as nat,
            |i: int| network::ip_text(network.host_ip(i)),
        ),
        None => Seq::empty(),
    }
}

/// The addresses that are scanned of the first `n` ranges, in text.
pub open spec fn ranges_texts(ranges: Seq<IpRangeConfig>, n: nat) -> Seq<Seq<char>>
    decreases n,
{
    if n == 0 {
        Seq::empty()
    } else {
        ranges_texts(ranges, (n - 1) as nat) + range_texts(ranges[n - 1].cidr@)
    }
}

impl Config {
    /// The names of the configured domains.
    pub open spec fn domain_names(self) -> Seq<Seq<char>> {
        Seq::new(self.domains@.len(), |i: int| self.domains@[i].name@)
    }

    /// The domains that are listed as a source.
    pub open spec fn listed_names(self) -> Seq<Seq<char>> {
        match self.sources {
            Some(sources) => match sources.domain_list {
                Some(list) => text::texts(list@),
                None => Seq::empty(),
            },
            None => Seq::empty(),
        }
    }

    /// The ranges that are a source.
    pub open spec fn ranges(self) -> Seq<IpRangeConfig> {
        match self.sources {
            Some(sources) => match sources.ip_ranges {
                Some(ranges) => ranges@,
                None => Seq::empty(),
            },
            None => Seq::empty(),
        }
    }

    /// Every name that is scanned, in the order of the sources: the configured
    /// domains, the listed ones, the addresses of the ranges, and the subjects
    /// `pem_domains` of the certificates in the directories.
    pub open spec fn source_names(self, pem_domains: Seq<Seq<char>>) -> Seq<Seq<char>> {
        self.domain_names() + self.listed_names() + ranges_texts(
            self.ranges(),
            self.ranges().len(),
        ) + pem_domains
    }
}

/// The names that are added hold what the list and the names hold, each once.
proof fn lemma_add_names(list: Seq<Seq<char>>, names: Seq<Seq<char>>)
    ensures
        list.no_duplicates() ==> add_names(list, names).no_duplicates(),
        forall|name: Seq<char>| #[trigger]
            add_names(list, names).contains(name) <==> list.contains(name) || names.contains(name),
    decreases names.len(),
{
    if names.len() > 0 {
        let init = names.drop_last();
        lemma_add_names(list, init);
        let before = add_names(list, init);
        let after = add_names(list, names);
        assert(names =~= init.push(names.last()));
        assert forall|name: Seq<char>| #[trigger] after.contains(name) <==> list.contains(name)
            || names.contains(name) by {
            if init.contains(name) {
                let i = init.index_of(name);
                assert(names[i] == name);
            }
            if names.contains(name) && name != names.last() {
                let i = names.index_of(name);
                assert(init[i] == name);
            }
            assert(names[names.len() - 1] == names.last());
            if before.contains(name) {
                let i = before.index_of(name);
                assert(after[i] == name);
            }
            if after.contains(name) && name != names.last() {
                let i = after.index_of(name);
                assert(before[i] == name);
            }
            if name == names.last() && !before.contains(name) {
                assert(after[after.len() - 1] == name);
            }
        }
    }
}

/// Adding names in two steps is adding them in one.
proof fn lemma_add_names_in_steps(list: Seq<Seq<char>>, a: Seq<Seq<char>>, b: Seq<Seq<char>>)
    ensures
        add_names(add_names(list, a), b) == add_names(list, a + b),
    decreases b.len(),
{
    if b.len() == 0 {
        assert(a + b =~= a);
    } else {
        lemma_add_names_in_steps(list, a, b.drop_last());
        assert((a + b).drop_last() =~= a + b.drop_last());
    }
}

fn contains_text(list: &Vec<String>, name: &str) -> (r: bool)
    ensures
        r == text::texts(list@).contains(name@),
{
    let mut i: usize = 0;
    while i < list.len()
        invariant
            i <= list.len(),
            forall|j: int| 0 <= j < i ==> (#[trigger] list@[j])@ != name@,
        decreases list.len() - i,
    {
        if text_equal(list[i].as_str(), name) {
            assert(text::texts(list@)[i as int] == name@);
            return true;
        }
        i += 1;
    }
    assert forall|j: int| 0 <= j < text::texts(list@).len() implies text::texts(list@)[j]
        != name@ by {
        assert(text::texts(list@)[j] == list@[j]@);
    }
    false
}

/// Adds a name where it is new.
fn add_name(list: &mut Vec<String>, name: &str)
    ensures
        text::texts(final(list)@) == add_names(text::texts(old(list)@), seq![name@]),
{
    proof {
        let names = seq![name@];
        assert(names.drop_last() =~= Seq::empty());
        assert(names.last() == name@);
        assert(add_names(text::texts(list@), names.drop_last()) == text::texts(list@));
    }
    if !contains_text(list, name) {
        list.push(name.to_owned());
        assert(text::texts(list@) =~= text::texts(old(list)@).push(name@));
    }
}

/// Adds the names that are new.
fn add_texts(list: &mut Vec<String>, names: &Vec<String>)
    ensures
        text::texts(final(list)@) == add_names(text::texts(old(list)@), text::texts(names@)),
{
    let ghost before = text::texts(list@);
    let ghost all = text::texts(names@);
    let mut i: usize = 0;
    assert(all.take(0) =~= Seq::empty());
    while i < names.len()
        invariant
            i <= names.len(),
            all == text::texts(names@),
            text::texts(list@) == add_names(before, all.take(i as int)),
        decreases names.len() - i,
    {
        add_name(list, names[i].as_str());
        proof {
            assert(all[i as int] == names@[i as int]@);
            lemma_add_names_in_steps(before, all.take(i as int), seq![all[i as int]]);
            assert(all.take(i as int) + seq![all[i as int]] =~= all.take(i + 1));
        }
        i += 1;
    }
    assert(all.take(all.len() as int) =~= all);
}

/// The port that ranges give to an address: that of the first range, from number
/// `from` on, that holds it and has a port.
pub open spec fn range_port(ranges: Seq<IpRangeConfig>, ip: IpAddress, from: int) -> Option<u16>
    decreases ranges.len() - from,
{
    if from < 0 || from >= ranges.len() {
        None
    } else if range_holds(ranges[from].cidr@, ip) && ranges[from].port is Some {
        ranges[from].port
    } else {
        range_port(ranges, ip, from + 1)
    }
}

/// Whether a range holds an address. A range that is not one holds none.
pub open spec fn range_holds(cidr: Seq<char>, ip: IpAddress) -> bool {
    match network::named_network(cidr) {
        Some(network) => network.holds(ip),
        None => false,
    }
}

/// The ports on which a domain is scanned: those configured for it, else that of a
/// range that holds it, else the port of HTTPS.
pub open spec fn ports_of(config: Config, domain: Seq<char>) -> Seq<u16> {
    let configured = match Config::first_named(config.domains@, domain, 0) {
        Some(dc) => dc.ports,
        None => None,
    };
    match configured {
        Some(ports) => ports@,
        None => match network::named_ip(domain) {
            Some(ip) => match range_port(config.ranges(), ip, 0) {
                Some(port) => seq![port],
                None => seq![443u16],
            },
            None => seq![443u16],
        },
    }
}

fn copy_ports(ports: &Vec<u16>) -> (copy: Vec<u16>)
    ensures
        copy@ == ports@,
{
    vstd::slice::slice_to_vec(ports.as_slice())
}

impl Scanner {
    /// The configuration.
    pub closed spec fn spec_config(&self) -> Config {
        *self.config
    }

    /// How many domains are scanned at a time.
    pub closed spec fn spec_concurrency(&self) -> usize {
        self.concurrency
    }

    /// How many seconds a connection may take.
    pub closed spec fn spec_timeout(&self) -> u64 {
        self.timeout_secs
    }

    pub fn new(config: Arc<Config>) -> (scanner: Scanner)
        ensures
            scanner.spec_config() == *config,
            scanner.spec_concurrency() == match config.global.concurrency {
                Some(n) => n,
                None => 20,
            },
            scanner.spec_timeout() == match config.global.connect_timeout {
                Some(secs) => secs,
                None => 10,
            },
    {
        let concurrency = config.concurrency() as usize;
        let timeout_secs = config.connect_timeout_secs();
        Scanner { config, concurrency, timeout_secs }
    }

    /// How many domains are scanned at a time.
    pub fn concurrency(&self) -> (n: usize)
        ensures
            n == self.spec_concurrency(),
    {
        self.concurrency
    }

    /// How many seconds a connection may take.
    pub fn timeout_secs(&self) -> (secs: u64)
        ensures
            secs == self.spec_timeout(),
    {
        self.timeout_secs
    }

    /// The addresses that are scanned of a range.
    pub fn scan_ip_range(&self, ip_config: &IpRangeConfig) -> (r: Result<Vec<IpAddress>, String>)
        ensures
            match network::named_network(ip_config.cidr@) {
                Some(network) => r matches Ok(ips) && network::are_scanned_hosts(network, ips@),
                None => r matches Err(message) && message@ == "Invalid CIDR format: "@
                    + ip_config.cidr@,
            },
    {
        match parse_network(ip_config.cidr.as_str()) {
            Some(network) => Ok(scanned_hosts(network)),
            None => Err(with_prefix("Invalid CIDR format: ", ip_config.cidr.as_str())),
        }
    }

    /// Adds the addresses that are scanned of a range.
    fn add_range(&self, list: &mut Vec<String>, ip_config: &IpRangeConfig)
        ensures
            text::texts(final(list)@) == add_names(
                text::texts(old(list)@),
                range_texts(ip_config.cidr@),
            ),
    {
        let ghost before = text::texts(list@);
        let ghost all = range_texts(ip_config.cidr@);
        assert(all.take(0) =~= Seq::empty());
        if let Ok(ips) = self.scan_ip_range(ip_config) {
            let mut i: usize = 0;
            while i < ips.len()
                invariant
                    i <= ips.len(),
                    all == range_texts(ip_config.cidr@),
                    network::named_network(ip_config.cidr@) is Some,
                    network::are_scanned_hosts(
                        network::named_network(ip_config.cidr@)->0,
                        ips@,
                    ),
                    text::texts(list@) == add_names(before, all.take(i as int)),
                decreases ips.len() - i,
            {
                let name = write_ip(ips[i]);
                add_name(list, name.as_str());
                proof {
                    assert(all[i as int] == name@);
                    lemma_add_names_in_steps(before, all.take(i as int), seq![all[i as int]]);
                    assert(all.take(i as int) + seq![all[i as int]] =~= all.take(i + 1));
                }
                i += 1;
            }
        }
        assert(all.take(all.len() as int) =~= all);
    }

    /// Adds the addresses that are scanned of ranges.
    fn add_ranges(&self, list: &mut Vec<String>, ranges: &Vec<IpRangeConfig>)
        ensures
            text::texts(final(list)@) == add_names(
                text::texts(old(list)@),
                ranges_texts(ranges@, ranges@.len()),
            ),
    {
        let ghost before = text::texts(list@);
        let mut i: usize = 0;
        while i < ranges.len()
            invariant
                i <= ranges.len(),
                text::texts(list@) == add_names(before, ranges_texts(ranges@, i as nat)),
            decreases ranges.len() - i,
        {
            self.add_range(list, &ranges[i]);
            proof {
                lemma_add_names_in_steps(
                    before,
                    ranges_texts(ranges@, i as nat),
                    range_texts(ranges@[i as int].cidr@),
                );
            }
            i += 1;
        }
    }

    /// Adds the names of the configured domains.
    fn add_configured(&self, list: &mut Vec<String>)
        ensures
            text::texts(final(list)@) == add_names(
                text::texts(old(list)@),
                self.spec_config().domain_names(),
            ),
    {
        let ghost before = text::texts(list@);
        let ghost all = self.spec_config().domain_names();
        let mut i: usize = 0;
        assert(all.take(0) =~= Seq::empty());
        while i < self.config.domains.len()
            invariant
                i <= self.config.domains.len(),
                all == self.spec_config().domain_names(),
                text::texts(list@) == add_names(before, all.take(i as int)),
            decreases self.config.domains.len() - i,
        {
            add_name(list, self.config.domains[i].name.as_str());
            proof {
                assert(all[i as int] == self.config.domains@[i as int].name@);
                lemma_add_names_in_steps(before, all.take(i as int), seq![all[i as int]]);
                assert(all.take(i as int) + seq![all[i as int]] =~= all.take(i + 1));
            }
            i += 1;
        }
        assert(all.take(all.len() as int) =~= all);
    }

    /// The names that are scanned, each once, in the order in which the sources give
    /// them first. `pem_domains` are the subjects of the certificates that were found
    /// in the directories of the sources.
    pub fn collect_all_domains(&self, pem_domains: &Vec<String>) -> (names: Vec<String>)
        ensures
            text::texts(names@) == add_names(
                Seq::empty(),
                self.spec_config().source_names(text::texts(pem_domains@)),
            ),
            text::texts(names@).no_duplicates(),
            forall|name: Seq<char>| #[trigger]
                text::texts(names@).contains(name) <==> self.spec_config().source_names(
                    text::texts(pem_domains@),
                ).contains(name),
    {
        let mut list: Vec<String> = Vec::new();
        let ghost none = Seq::<Seq<char>>::empty();
        let ghost config = self.spec_config();
        let ghost domains = config.domain_names();
        let ghost listed = config.listed_names();
        let ghost ranged = ranges_texts(config.ranges(), config.ranges().len());
        let ghost pem = text::texts(pem_domains@);
        assert(text::texts(list@) =~= none);
        self.add_configured(&mut list);
        if let Some(sources) = &self.config.sources {
            if let Some(domain_list) = &sources.domain_list {
                add_texts(&mut list, domain_list);
            }
        }
        assert(text::texts(list@) == add_names(add_names(none, domains), listed));
        if let Some(sources) = &self.config.sources {
            if let Some(ranges) = &sources.ip_ranges {
                self.add_ranges(&mut list, ranges);
            }
        }
        assert(text::texts(list@) == add_names(add_names(add_names(none, domains), listed), ranged));
        add_texts(&mut list, pem_domains);
        proof {
            lemma_add_names_in_steps(none, domains, listed);
            lemma_add_names_in_steps(none, domains + listed, ranged);
            lemma_add_names_in_steps(none, domains + listed + ranged, pem);
            lemma_add_names(none, config.source_names(pem));
        }
        list
    }

    /// Whether a range holds an address.
    fn is_ip_in_range(&self, ip: IpAddress, ip_range: &IpRangeConfig) -> (r: bool)
        ensures
            r == range_holds(ip_range.cidr@, ip),
    {
        match parse_network(ip_range.cidr.as_str()) {
            Some(network) => network_contains(network, ip),
            None => false,
        }
    }

    fn find_range_port(&self, ip: IpAddress, ranges: &Vec<IpRangeConfig>) -> (port: Option<u16>)
        ensures
            port == range_port(ranges@, ip, 0),
    {
        let mut i: usize = 0;
        while i < ranges.len()
            invariant
                i <= ranges.len(),
                range_port(ranges@, ip, 0) == range_port(ranges@, ip, i as int),
            decreases ranges.len() - i,
        {
            if self.is_ip_in_range(ip, &ranges[i]) && ranges[i].port.is_some() {
                return ranges[i].port;
            }
            i += 1;
        }
        None
    }

    /// The ports on which a domain is scanned.
    pub fn get_ports_for_domain(&self, domain: &str) -> (ports: Vec<u16>)
        ensures
            ports@ == ports_of(self.spec_config(), domain@),
    {
        if let Some(dc) = self.config.find_domain(domain) {
            if let Some(ports) = &dc.ports {
                return copy_ports(ports);
            }
        }
        if let Some(sources) = &self.config.sources {
            if let Some(ranges) = &sources.ip_ranges {
                if let Some(ip) = parse_ip(domain) {
                    if let Some(port) = self.find_range_port(ip, ranges) {
                        return vec![port];
                    }
                }
            }
        }
        vec![443]
    }

    /// Begins the scan of a domain at `now`.
    pub fn scan_domain_at(&self, domain: &str, now: Timestamp) -> (scan: DomainScan)
        ensures
            scan.wf(),
            scan@ == DomainScanView::begun(domain@, ports_of(self.spec_config(), domain@), now),
    {
        DomainScan {
            domain: domain.to_owned(),
            ports: self.get_ports_for_domain(domain),
            tried: 0,
            found: None,
            last_error: None,
            scanned_at: now,
        }
    }

    /// Begins the scan of a domain at the present instant.
    pub fn scan_domain(&self, domain: &str) -> (scan: DomainScan)
        ensures
            scan.wf(),
            exists|now: Timestamp|
                now.can_be_now() && scan@ == #[trigger] DomainScanView::begun(
                    domain@,
                    ports_of(self.spec_config(), domain@),
                    now,
                ),
    {
        let now = Timestamp::now();
        self.scan_domain_at(domain, now)
    }

    /// The scan of a PEM file at `now`, under the name `domain`. `content` is what the
    /// file at `path` holds, or why it cannot be read.
    pub fn scan_pem_file_at(
        &self,
        domain: &str,
        path: &str,
        content: Result<Vec<u8>, String>,
        now: Timestamp,
    ) -> (result: ScanResult)
        ensures
            result@ == scan_of(
                domain@,
                file_outcome(content, domain@, path@),
                now,
            ),
    {
        let outcome = match content {
            Ok(content) => load_cert_from_pem(content.as_slice(), domain, path),
            Err(reason) => Err(reason),
        };
        match outcome {
            Ok(info) => ScanResult {
                domain: domain.to_owned(),
                cert: Some(info),
                error: None,
                scanned_at: now,
            },
            Err(message) => ScanResult {
                domain: domain.to_owned(),
                cert: None,
                error: Some(message),
                scanned_at: now,
            },
        }
    }

    /// The scan of a PEM file at the present instant, under the name `domain`.
    pub fn scan_pem_file(
        &self,
        domain: &str,
        path: &str,
        content: Result<Vec<u8>, String>,
    ) -> (result: ScanResult)
        ensures
            exists|now: Timestamp|
                now.can_be_now() && result@ == #[trigger] scan_of(
                    domain@,
                    file_outcome(content, domain@, path@),
                    now,
                ),
    {
        let now = Timestamp::now();
        self.scan_pem_file_at(domain, path, content, now)
    }
}

/// The scan of a domain, port by port, until one of them shows a certificate.
#[derive(Debug)]
pub struct DomainScan {
    domain: String,
    ports: Vec<u16>,
    tried: usize,
    found: Option<CertificateInfo>,
    last_error: Option<String>,
    scanned_at: Timestamp,
}

/// What a `DomainScan` says.
#[verifier::ext_equal]
pub struct DomainScanView {
    pub domain: Seq<char>,
    pub ports: Seq<u16>,
    pub tried: nat,
    pub found: Option<CertificateView>,
    pub last_error: Option<Seq<char>>,
    pub scanned_at: Timestamp,
}

impl View for DomainScan {
    type V = DomainScanView;

    closed spec fn view(&self) -> DomainScanView {
        DomainScanView {
            domain: self.domain@,
            ports: self.ports@,
            tried: self.tried as nat,
            found: types::optional_certificate(self.found),
            last_error: types::optional_text(self.last_error),
            scanned_at: self.scanned_at,
        }
    }
}

impl DomainScanView {
    /// A scan in which no port was tried yet.
    pub open spec fn begun(
        domain: Seq<char>,
        ports: Seq<u16>,
        scanned_at: Timestamp,
    ) -> DomainScanView {
        DomainScanView { domain, ports, tried: 0, found: None, last_error: None, scanned_at }
    }

    /// The port to try next: none once a certificate was found or all were tried.
    pub open spec fn next(self) -> Option<u16> {
        if self.found is None && self.tried < self.ports.len() {
            Some(self.ports[self.tried as int])
        } else {
            None
        }
    }

    /// After the next port was tried with this outcome.
    pub open spec fn after(self, outcome: Result<CertificateView, Seq<char>>) -> DomainScanView {
        match outcome {
            Ok(info) => DomainScanView { tried: self.tried + 1, found: Some(info), ..self },
            Err(message) => DomainScanView {
                tried: self.tried + 1,
                last_error: Some(message),
                ..self
            },
        }
    }

    /// After ports were tried with these outcomes, one after the other.
    pub open spec fn after_all(
        self,
        outcomes: Seq<Result<CertificateView, Seq<char>>>,
    ) -> DomainScanView
        decreases outcomes.len(),
    {
        if outcomes.len() == 0 {
            self
        } else {
            self.after_all(outcomes.drop_last()).after(outcomes.last())
        }
    }

    /// What comes of the scan as it stands.
    pub open spec fn result(self) -> ScanView {
        ScanView {
            domain: self.domain,
            cert: self.found,
            error: if self.found is Some {
                None
            } else {
                self.last_error
            },
            scanned_at: self.scanned_at,
        }
    }
}

impl DomainScan {
    /// No more ports were tried than there are.
    pub closed spec fn wf(&self) -> bool {
        self.tried <= self.ports@.len()
    }

    /// The port to try next.
    pub fn next_port(&self) -> (port: Option<u16>)
        ensures
            port == self@.next(),
    {
        if self.found.is_none() && self.tried < self.ports.len() {
            Some(self.ports[self.tried])
        } else {
            None
        }
    }

    /// Takes in how the next port went.
    pub fn record(&mut self, outcome: Result<CertificateInfo, String>)
        requires
            old(self).wf(),
            old(self)@.next() is Some,
        ensures
            final(self).wf(),
            final(self)@ == old(self)@.after(outcome_view(outcome)),
    {
        assert(self.tried < self.ports.len());
        self.tried = self.tried + 1;
        match outcome {
            Ok(info) => {
                self.found = Some(info);
            },
            Err(message) => {
                self.last_error = Some(message);
            },
        }
    }

    /// What comes of the scan: the certificate that was found, else the last error.
    pub fn finish(self) -> (result: ScanResult)
        ensures
            result@ == self@.result(),
    {
        let error = if self.found.is_some() {
            None
        } else {
            self.last_error
        };
        ScanResult { domain: self.domain, cert: self.found, error, scanned_at: self.scanned_at }
    }
}

/// After failures, nothing was found, and the last error is that of the last one.
proof fn lemma_failures(begun: DomainScanView, outcomes: Seq<Result<CertificateView, Seq<char>>>)
    requires
        begun.tried == 0,
        begun.found is None,
        begun.last_error is None,
        forall|i: int| 0 <= i < outcomes.len() ==> (#[trigger] outcomes[i]) is Err,
    ensures
        begun.after_all(outcomes) == (DomainScanView {
            tried: outcomes.len(),
            last_error: if outcomes.len() == 0 {
                None
            } else {
                Some(outcomes.last()->Err_0)
            },
            ..begun
        }),
    decreases outcomes.len(),
{
    if outcomes.len() > 0 {
        assert(outcomes[outcomes.len() - 1] is Err);
        assert forall|i: int| 0 <= i < outcomes.drop_last().len() implies (
        #[trigger] outcomes.drop_last()[i]) is Err by {
            assert(outcomes[i] is Err);
        }
        lemma_failures(begun, outcomes.drop_last());
    }
}

/// Where every port fails, the scan ends after the last port, with its error. Where
/// there is no port, there is no error either.
pub proof fn failing_scans_end_with_the_last_error(
    domain: Seq<char>,
    ports: Seq<u16>,
    scanned_at: Timestamp,
    outcomes: Seq<Result<CertificateView, Seq<char>>>,
)
    requires
        outcomes.len() <= ports.len(),
        forall|i: int| 0 <= i < outcomes.len() ==> (#[trigger] outcomes[i]) is Err,
    ensures
        ({
            let scan = DomainScanView::begun(domain, ports, scanned_at).after_all(outcomes);
            &&& scan.next() == if outcomes.len() < ports.len() {
                Some(ports[outcomes.len() as int])
            } else {
                None
            }
            &&& scan.result() == ScanView {
                domain,
                cert: None,
                error: if outcomes.len() == 0 {
                    None
                } else {
                    Some(outcomes.last()->Err_0)
                },
                scanned_at,
            }
        }),
{
    lemma_failures(DomainScanView::begun(domain, ports, scanned_at), outcomes);
}

/// The first port that shows a certificate ends the scan, with that certificate and
/// no error.
pub proof fn the_first_certificate_ends_the_scan(
    domain: Seq<char>,
    ports: Seq<u16>,
    scanned_at: Timestamp,
    failures: Seq<Result<CertificateView, Seq<char>>>,
    info: CertificateView,
)
    requires
        failures.len() < ports.len(),
        forall|i: int| 0 <= i < failures.len() ==> (#[trigger] failures[i]) is Err,
    ensures
        ({
            let scan = DomainScanView::begun(domain, ports, scanned_at).after_all(
                failures.push(Ok(info)),
            );
            &&& scan.next() is None
            &&& scan.result() == ScanView { domain, cert: Some(info), error: None, scanned_at }
        }),
{
    lemma_failures(DomainScanView::begun(domain, ports, scanned_at), failures);
    assert(failures.push(Ok(info)).drop_last() =~= failures);
}

/// An address of a range is scanned on the port of that range, where no port is
/// configured for it and no earlier range with a port holds it.
pub proof fn addresses_are_scanned_on_the_port_of_their_range(
    config: Config,
    name: Seq<char>,
    ip: IpAddress,
    k: int,
)
    requires
        network::named_ip(name) == Some(ip),
        Config::first_named(config.domains@, name, 0) matches Some(dc) ==> dc.ports is None,
        0 <= k < config.ranges().len(),
        range_holds(config.ranges()[k].cidr@, ip),
        config.ranges()[k].port is Some,
        forall|j: int|
            0 <= j < k ==> !range_holds(config.ranges()[j].cidr@, ip) || (
            #[trigger] config.ranges()[j]).port is None,
    ensures
        ports_of(config, name) == seq![config.ranges()[k].port->0],
{
    lemma_range_port(config.ranges(), ip, k, 0);
}

proof fn lemma_range_port(ranges: Seq<IpRangeConfig>, ip: IpAddress, k: int, from: int)
    requires
        0 <= from <= k < ranges.len(),
        range_holds(ranges[k].cidr@, ip),
        ranges[k].port is Some,
        forall|j: int|
            from <= j < k ==> !range_holds(ranges[j].cidr@, ip) || (
            #[trigger] ranges[j]).port is None,
    ensures
        range_port(ranges, ip, from) == ranges[k].port,
    decreases k - from,
{
    if from < k {
        assert(ranges[from].port is None || !range_holds(ranges[from].cidr@, ip));
        lemma_range_port(ranges, ip, k, from + 1);
    }
}

/// What a scan tells of a server is what its first certificate says: each thing that is
/// told is read from its own place in the certificate, and the rest is what was scanned.
/// A certificate is told of exactly where its subject, its issuer and its validity read.
pub proof fn scans_tell_what_the_first_certificate_says(
    domain: Seq<char>,
    port: u16,
    ders: Seq<Seq<u8>>,
    status: OcspStatus,
)
    ensures
        served_outcome(domain, port, ders, status) matches Ok(info) ==> {
            &&& certificate::subject_of(ders[0]) == Ok::<Seq<char>, Seq<char>>(info.subject)
            &&& certificate::issuer_of(ders[0]) == Ok::<Seq<char>, Seq<char>>(info.issuer)
            &&& info.san_list == certificate::names_of_extensions(
                certificate::extensions_of(ders[0]),
            )
            &&& info.not_before.secs() == certificate::not_before_of(ders[0])
            &&& info.not_before.nanos() == 0
            &&& info.not_after.secs() == certificate::not_after_of(ders[0])
            &&& info.not_after.nanos() == 0
            &&& info.fingerprint_sha256 == text::colon_hex(certificate::sha256(ders[0]))
            &&& info.chain_complete == certificate::is_complete_chain(ders)
            &&& info.domain == domain
            &&& info.source == domain + ":"@ + text::decimal(port as nat)
            &&& info.ocsp_status == status
        },
        served_outcome(domain, port, ders, status) is Ok <==> {
            &&& ders.len() > 0
            &&& certificate::certificate_outcome(ders[0]) is Ok
            &&& certificate::subject_of(ders[0]) is Ok
            &&& certificate::issuer_of(ders[0]) is Ok
            &&& clock::EARLIEST_SECOND <= certificate::not_before_of(ders[0])
                <= clock::LATEST_SECOND
            &&& clock::EARLIEST_SECOND <= certificate::not_after_of(ders[0])
                <= clock::LATEST_SECOND
        },
{
    if served_outcome(domain, port, ders, status) is Ok {
        clock::instants_keep_their_parts(certificate::not_before_of(ders[0]), 0);
        clock::instants_keep_their_parts(certificate::not_after_of(ders[0]), 0);
    }
}

/// What is told of a certificate in a PEM file is what that certificate says, each thing
/// from its own place; its fingerprint is that of the certificate written anew, its chain
/// is taken to be complete, and no responder was asked.
pub proof fn files_tell_what_their_certificate_says(
    content: Seq<u8>,
    domain: Seq<char>,
    path: Seq<char>,
)
    ensures
        pem_outcome_for(content, domain, path) matches Ok(info) ==> {
            let der = certificate::pem_outcome(content)->Ok_0;
            &&& certificate::subject_of(der) == Ok::<Seq<char>, Seq<char>>(info.subject)
            &&& certificate::issuer_of(der) == Ok::<Seq<char>, Seq<char>>(info.issuer)
            &&& info.san_list == certificate::names_of_extensions(certificate::extensions_of(der))
            &&& info.not_before.secs() == certificate::not_before_of(der)
            &&& info.not_before.nanos() == 0
            &&& info.not_after.secs() == certificate::not_after_of(der)
            &&& info.not_after.nanos() == 0
            &&& info.fingerprint_sha256 == text::colon_hex(
                certificate::sha256(certificate::encoding_of(der)->Ok_0),
            )
            &&& info.chain_complete
            &&& info.domain == domain
            &&& info.source == path
            &&& info.ocsp_status == OcspStatus::Unknown
        },
        pem_outcome_for(content, domain, path) is Ok <==> {
            let der = certificate::pem_outcome(content)->Ok_0;
            &&& certificate::pem_outcome(content) is Ok
            &&& certificate::encoding_of(der) is Ok
            &&& certificate::subject_of(der) is Ok
            &&& certificate::issuer_of(der) is Ok
            &&& clock::EARLIEST_SECOND <= certificate::not_before_of(der) <= clock::LATEST_SECOND
            &&& clock::EARLIEST_SECOND <= certificate::not_after_of(der) <= clock::LATEST_SECOND
        },
{
    if pem_outcome_for(content, domain, path) is Ok {
        let der = certificate::pem_outcome(content)->Ok_0;
        clock::instants_keep_their_parts(certificate::not_before_of(der), 0);
        clock::instants_keep_their_parts(certificate::not_after_of(der), 0);
    }
}

/// The name that a PEM file is scanned under is the subject of its certificate, the same
/// that the scan of the file then tells.
pub proof fn files_are_named_by_their_subject(
    content: Seq<u8>,
    domain: Seq<char>,
    path: Seq<char>,
)
    ensures
        pem_outcome_for(content, domain, path) matches Ok(info) ==> pem_domain_outcome(content)
            == Ok::<Seq<char>, Seq<char>>(info.subject),
        certificate::pem_outcome(content) matches Ok(der) ==> pem_domain_outcome(content)
            == certificate::subject_of(der),
        certificate::pem_outcome(content) is Err ==> pem_domain_outcome(content) is Err,
{
}

/// A scan of a file keeps its name and its instant, and ends either with what the file
/// tells or with an error: with the reason why it cannot be read where it cannot.
pub proof fn file_scans_end_with_a_certificate_or_an_error(
    content: Result<Vec<u8>, String>,
    domain: Seq<char>,
    path: Seq<char>,
    now: Timestamp,
)
    ensures
        ({
            let scan = scan_of(domain, file_outcome(content, domain, path), now);
            &&& scan.domain == domain
            &&& scan.scanned_at == now
            &&& scan.cert is Some <==> scan.error is None
            &&& content matches Err(reason) ==> scan.error == Some(reason@)
            &&& content matches Ok(octets) ==> (scan.cert is Some <==> pem_outcome_for(
                octets@,
                domain,
                path,
            ) is Ok)
            &&& content matches Ok(octets) ==> (scan.cert matches Some(info) ==> pem_outcome_for(
                octets@,
                domain,
                path,
            ) == Ok::<CertificateView, Seq<char>>(info))
            &&& content matches Ok(octets) ==> (scan.error matches Some(message)
                ==> pem_outcome_for(octets@, domain, path) == Err::<CertificateView, Seq<char>>(
                message,
            ))
        }),
{
}

/// Every address of the first ranges is among the addresses of these ranges.
proof fn lemma_ranges_texts(ranges: Seq<IpRangeConfig>, n: nat, name: Seq<char>)
    requires
        n <= ranges.len(),
    ensures
        ranges_texts(ranges, n).contains(name) <==> exists|k: int|
            0 <= k < n && range_texts((#[trigger] ranges[k]).cidr@).contains(name),
    decreases n,
{
    if n > 0 {
        let before = ranges_texts(ranges, (n - 1) as nat);
        let last = range_texts(ranges[n - 1].cidr@);
        lemma_ranges_texts(ranges, (n - 1) as nat, name);
        assert(ranges_texts(ranges, n) == before + last);
        if before.contains(name) {
            assert((before + last)[before.index_of(name)] == name);
        }
        if last.contains(name) {
            assert((before + last)[before.len() + last.index_of(name)] == name);
        }
        if (before + last).contains(name) {
            let i = (before + last).index_of(name);
            if i < before.len() {
                assert(before[i] == name);
            } else {
                assert(last[i - before.len()] == name);
            }
        }
    }
}

/// Whether a name is a configured domain.
pub open spec fn is_configured(config: Config, name: Seq<char>) -> bool {
    exists|i: int| 0 <= i < config.domains@.len() && (#[trigger] config.domains@[i]).name@ == name
}

/// Whether a name is listed as a source.
pub open spec fn is_listed(config: Config, name: Seq<char>) -> bool {
    config.sources matches Some(sources) && (sources.domain_list matches Some(list) && (exists|
        i: int,
    |
        0 <= i < list@.len() && (#[trigger] list@[i])@ == name))
}

/// Whether a name is that of an address that is scanned of one of the ranges.
pub open spec fn is_ranged(config: Config, name: Seq<char>) -> bool {
    config.sources matches Some(sources) && (sources.ip_ranges matches Some(ranges) && (exists|
        k: int,
    |
        0 <= k < ranges@.len() && range_texts((#[trigger] ranges@[k]).cidr@).contains(name)))
}

/// Each source is collected whatever the others are: a name is scanned exactly where it
/// is a configured domain, a listed one, an address of one of the ranges, or the subject
/// of a certificate in the directories.
pub proof fn every_source_is_collected(config: Config, pem_domains: Seq<Seq<char>>, name: Seq<char>)
    ensures
        is_configured(config, name) || is_listed(config, name) || is_ranged(config, name)
            || pem_domains.contains(name) <==> add_names(
            Seq::empty(),
            config.source_names(pem_domains),
        ).contains(name),
        add_names(Seq::empty(), config.source_names(pem_domains)).no_duplicates(),
{
    let domains = config.domain_names();
    let listed = config.listed_names();
    let ranged = ranges_texts(config.ranges(), config.ranges().len());
    let all = config.source_names(pem_domains);
    lemma_add_names(Seq::empty(), all);
    lemma_ranges_texts(config.ranges(), config.ranges().len(), name);
    assert(all == domains + listed + ranged + pem_domains);
    let a = domains.len() as int;
    let b = a + listed.len();
    let c = b + ranged.len();
    if is_configured(config, name) {
        let i = choose|i: int|
            0 <= i < config.domains@.len() && (#[trigger] config.domains@[i]).name@ == name;
        assert(all[i] == name);
    }
    if is_listed(config, name) {
        let list = config.sources->0.domain_list->0@;
        let i = choose|i: int| 0 <= i < list.len() && (#[trigger] list[i])@ == name;
        assert(listed[i] == name);
        assert(all[a + i] == name);
    }
    if is_ranged(config, name) {
        let ranges = config.sources->0.ip_ranges->0@;
        assert(ranges == config.ranges());
        let i = ranged.index_of(name);
        assert(all[b + i] == name);
    }
    if pem_domains.contains(name) {
        assert(all[c + pem_domains.index_of(name)] == name);
    }
    if all.contains(name) {
        let i = all.index_of(name);
        if i < a {
            assert(config.domains@[i].name@ == name);
        } else if i < b {
            assert(listed[i - a] == name);
            assert(config.sources->0.domain_list->0@[i - a]@ == name);
        } else if i < c {
            assert(ranged[i - b] == name);
        } else {
            assert(pem_domains[i - c] == name);
        }
    }
}

/// Every address that is scanned of a range is collected, whatever the other sources are.
pub proof fn every_range_is_collected(
    config: Config,
    pem_domains: Seq<Seq<char>>,
    k: int,
    network: network::Network,
    i: int,
)
    requires
        config.sources is Some,
        config.sources->0.ip_ranges is Some,
        0 <= k < config.sources->0.ip_ranges->0@.len(),
        network::named_network(config.sources->0.ip_ranges->0@[k].cidr@) == Some(network),
        0 <= i < network.scanned_count(),
    ensures
        add_names(Seq::empty(), config.source_names(pem_domains)).contains(
            network::ip_text(network.host_ip(i)),
        ),
{
    let name = network::ip_text(network.host_ip(i));
    let texts = range_texts(config.sources->0.ip_ranges->0@[k].cidr@);
    assert(texts[i] == name);
    assert(is_ranged(config, name));
    every_source_is_collected(config, pem_domains, name);
}

/// The ports that are configured for a domain are the ones that it is scanned on,
/// whatever the ranges are. Where several entries have its name, the first one counts.
pub proof fn configured_ports_are_scanned(config: Config, domain: Seq<char>, k: int)
    requires
        0 <= k < config.domains@.len(),
        config.domains@[k].name@ == domain,
        forall|j: int| 0 <= j < k ==> (#[trigger] config.domains@[j]).name@ != domain,
    ensures
        config.domains@[k].ports matches Some(ports) ==> ports_of(config, domain) == ports@,
        config.domains@[k].ports is None && network::named_ip(domain) is None ==> ports_of(
            config,
            domain,
        ) == seq![443u16],
{
    Config::first_domains_are_found(config.domains@, domain, k, 0);
}

/// A domain that no port is given for, neither in its entry nor by a range that holds it,
/// is scanned on the port of HTTPS.
pub proof fn other_domains_are_scanned_on_https(config: Config, domain: Seq<char>)
    requires
        forall|j: int|
            0 <= j < config.domains@.len() && (#[trigger] config.domains@[j]).name@ == domain
                ==> config.domains@[j].ports is None,
        network::named_ip(domain) matches Some(ip) ==> forall|k: int|
            0 <= k < config.ranges().len() && range_holds(
                (#[trigger] config.ranges()[k]).cidr@,
                ip,
            ) ==> config.ranges()[k].port is None,
    ensures
        ports_of(config, domain) == seq![443u16],
{
    Config::found_domains_have_the_name(config.domains@, domain, 0);
    if let Some(ip) = network::named_ip(domain) {
        lemma_no_range_port(config.ranges(), ip, 0);
    }
}

proof fn lemma_no_range_port(ranges: Seq<IpRangeConfig>, ip: IpAddress, from: int)
    requires
        0 <= from <= ranges.len(),
        forall|k: int|
            0 <= k < ranges.len() && range_holds((#[trigger] ranges[k]).cidr@, ip)
                ==> ranges[k].port is None,
    ensures
        range_port(ranges, ip, from) is None,
    decreases ranges.len() - from,
{
    if from < ranges.len() {
        assert(range_holds(ranges[from].cidr@, ip) ==> ranges[from].port is None);
        lemma_no_range_port(ranges, ip, from + 1);
    }
}

/// What is collected stays where it is when more is collected: the names that were there come
/// first, and a new one goes to the end.
pub proof fn collected_names_keep_their_place(
    list: Seq<Seq<char>>,
    names: Seq<Seq<char>>,
    more: Seq<Seq<char>>,
    name: Seq<char>,
)
    ensures
        add_names(list, names).is_prefix_of(add_names(list, names + more)),
        list.is_prefix_of(add_names(list, names)),
        list.contains(name) ==> add_names(list, seq![name]) == list,
        !list.contains(name) ==> add_names(list, seq![name]) == list.push(name),
{
    lemma_add_names_in_steps(list, names, more);
    lemma_list_comes_first(add_names(list, names), more);
    lemma_list_comes_first(list, names);
    assert(seq![name].drop_last() =~= Seq::empty());
    assert(add_names(list, seq![name].drop_last()) == list);
}

proof fn lemma_list_comes_first(list: Seq<Seq<char>>, names: Seq<Seq<char>>)
    ensures
        list.is_prefix_of(add_names(list, names)),
    decreases names.len(),
{
    if names.len() > 0 {
        lemma_list_comes_first(list, names.drop_last());
        let before = add_names(list, names.drop_last());
        let after = add_names(list, names);
        assert(after.take(list.len() as int) =~= before.take(list.len() as int));
    }
}

/// The sources are collected in their order: the configured domains come first, then the
/// listed ones that are not among them, then the addresses of the ranges, and the subjects
/// from the directories come last.
pub proof fn sources_are_collected_in_their_order(config: Config, pem_domains: Seq<Seq<char>>)
    ensures
        ({
            let none = Seq::<Seq<char>>::empty();
            let all = add_names(none, config.source_names(pem_domains));
            let domains = Seq::new(config.domains@.len(), |i: int| config.domains@[i].name@);
            let listed = match config.sources {
                Some(sources) => match sources.domain_list {
                    Some(list) => text::texts(list@),
                    None => none,
                },
                None => none,
            };
            &&& add_names(none, domains).is_prefix_of(all)
            &&& add_names(none, domains + listed).is_prefix_of(all)
            &&& add_names(none, config.source_names(none)).is_prefix_of(all)
        }),
{
    let none = Seq::<Seq<char>>::empty();
    let domains = config.domain_names();
    let listed = config.listed_names();
    let ranged = ranges_texts(config.ranges(), config.ranges().len());
    let all = config.source_names(pem_domains);
    collected_names_keep_their_place(none, domains, listed + ranged + pem_domains, Seq::empty());
    assert(domains + (listed + ranged + pem_domains) =~= all);
    collected_names_keep_their_place(none, domains + listed, ranged + pem_domains, Seq::empty());
    assert(domains + listed + (ranged + pem_domains) =~= all);
    collected_names_keep_their_place(none, config.source_names(none), pem_domains, Seq::empty());
    assert(config.source_names(none) + pem_domains =~= all);
}

/// A failure to connect is told with the address, or with the reason that was given.
pub proof fn connection_failures_are_told(failure: ConnectFailure, address: Seq<char>)
    ensures
        failure is Timeout || failure is Connect ==> text::ends_with(
            failure.text(address),
            address,
        ),
        failure matches ConnectFailure::RootCertificate { reason } ==> text::ends_with(
            failure.text(address),
            reason@,
        ),
        failure matches ConnectFailure::InvalidDomain { reason } ==> text::ends_with(
            failure.text(address),
            reason@,
        ),
        failure is Timeout ==> failure.text(address) == "Connection timeout for "@ + address,
        failure is Connect ==> failure.text(address) == "Failed to connect to "@ + address,
{
    let told = failure.text(address);
    match failure {
        ConnectFailure::RootCertificate { reason } => {
            assert(told.skip(told.len() - reason@.len()) =~= reason@);
        },
        ConnectFailure::InvalidDomain { reason } => {
            assert(told.skip(told.len() - reason@.len()) =~= reason@);
        },
        ConnectFailure::Handshake => {},
        _ => {
            assert(told.skip(told.len() - address.len()) =~= address);
        },
    }
}

/// Where several things are wrong with what a server sent, the first of them is told: no
/// certificates, one that does not read, its subject, its issuer, its validity.
pub proof fn the_first_defect_is_told(
    domain: Seq<char>,
    port: u16,
    ders: Seq<Seq<u8>>,
    status: OcspStatus,
)
    requires
        ders.len() > 0,
    ensures
        certificate::certificate_outcome(ders[0]) matches Err(reason) ==> served_outcome(
            domain,
            port,
            ders,
            status,
        ) == Err::<CertificateView, Seq<char>>("Failed to parse certificate: "@ + reason),
        certificate::certificate_outcome(ders[0]) is Ok ==> (certificate::subject_of(
            ders[0],
        ) matches Err(reason) ==> served_outcome(domain, port, ders, status) == Err::<
            CertificateView,
            Seq<char>,
        >(reason)),
        certificate::certificate_outcome(ders[0]) is Ok && certificate::subject_of(ders[0]) is Ok
            ==> (certificate::issuer_of(ders[0]) matches Err(reason) ==> served_outcome(
            domain,
            port,
            ders,
            status,
        ) == Err::<CertificateView, Seq<char>>(reason)),
{
}

/// The ranges of a configuration are those of its sources, in their order.
pub proof fn ranges_are_those_of_the_sources(config: Config)
    ensures
        config.sources is None ==> config.ranges().len() == 0,
        config.sources matches Some(sources) ==> (sources.ip_ranges is None ==> config.ranges().len()
            == 0),
        config.sources matches Some(sources) ==> (sources.ip_ranges matches Some(ranges)
            ==> config.ranges() == ranges@),
{
}

/// The file names that are read as certificates end in `pem`, `crt` or `cer`.
pub proof fn certificates_have_three_extensions(extension: Seq<char>)
    ensures
        is_certificate_extension("pem"@),
        is_certificate_extension("crt"@),
        is_certificate_extension("cer"@),
        is_certificate_extension(extension) ==> extension.len() == 3 && (extension[0] == 'p'
            || extension[0] == 'c'),
{
    reveal_strlit("pem");
    reveal_strlit("crt");
    reveal_strlit("cer");
}

} // verus!
