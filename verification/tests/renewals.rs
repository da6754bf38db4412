use cert_monitor::acme::{
    acme_persist_path_in, add_txt_request, aliyun_add_params, aliyun_add_txt_with,
    aliyun_delete_params, aliyun_request, aliyun_sign, alt_names, certificate_paths,
    challenge_record_name, cleanup_request, cleanup_request_with, cloudflare_add_txt,
    created_record_id, extract_root_domain, fingerprint_of, format_service_failure,
    get_acme_persist_path, host_record_of, judge_aliyun_id, judge_cloudflare_id, new_fingerprint,
    plan_challenges, string_to_sign, write_signed_form, AcmeClient, ChallengePlan, DnsRequest,
};
use cert_monitor::certificate::{compute_sha256_fingerprint, Certificate};
use cert_monitor::challenge::{plan_steps, ChallengeStep, RenewalFailure};
use cert_monitor::clock::Timestamp;
use cert_monitor::config::{
    Config, DnsProviderConfig, DomainConfig, FilePath, GlobalConfig, ValidationMethod,
};
use cert_monitor::types::{CertificateInfo, OcspStatus};
use std::path::PathBuf;
use std::sync::Arc;

const DAY: i64 = 86_400;

fn at(secs: i64) -> Timestamp {
    Timestamp::from_parts(secs, 0).unwrap()
}

fn domain(name: &str) -> DomainConfig {
    DomainConfig {
        name: name.to_string(),
        validation_method: None,
        dns_provider: None,
        cert_storage_path: None,
        fullchain_path: None,
        privkey_path: None,
        http_challenge_dir: None,
        deployment_hooks: None,
        verification_hook: None,
        auto_renew: true,
        ports: None,
    }
}

fn config(threshold: Option<i64>) -> Config {
    Config {
        global: GlobalConfig {
            state_file: None,
            concurrency: None,
            connect_timeout: None,
            acme_account_email: String::new(),
            acme_directory: None,
            default_dns_provider: None,
            renew_threshold_days: threshold,
            hook_timeout: None,
            notification_debounce_hours: None,
            smtp: None,
            slack: None,
            dingtalk: None,
        },
        domains: Vec::new(),
        sources: None,
    }
}

fn certificate(days: i64) -> CertificateInfo {
    CertificateInfo {
        domain: "example.com".to_string(),
        subject: "s".to_string(),
        san_list: Vec::new(),
        issuer: "i".to_string(),
        not_before: at(0),
        not_after: at(days * DAY),
        fingerprint_sha256: "f".to_string(),
        chain_complete: true,
        ocsp_status: OcspStatus::Unknown,
        source: "x".to_string(),
    }
}

fn cloudflare(zone: Option<&str>) -> DnsProviderConfig {
    DnsProviderConfig::Cloudflare {
        api_token: "token".to_string(),
        zone_id: zone.map(|z| z.to_string()),
    }
}

fn aliyun() -> DnsProviderConfig {
    DnsProviderConfig::Aliyun {
        access_key_id: "id".to_string(),
        access_key_secret: "secret".to_string(),
        region: None,
    }
}

#[test]
fn renewal_is_due_below_the_threshold_and_stays_due() {
    let client = AcmeClient::new(Arc::new(config(None)));
    assert!(client.needs_renewal_at(&certificate(29), at(0)));
    assert!(!client.needs_renewal_at(&certificate(30), at(0)));
    assert!(!client.needs_renewal_at(&certificate(31), at(0)));
    assert!(client.needs_renewal_at(&certificate(-1), at(0)));
    let strict = AcmeClient::new(Arc::new(config(Some(5))));
    assert!(!strict.needs_renewal_at(&certificate(5), at(0)));
    for day in 1..20 {
        assert!(strict.needs_renewal_at(&certificate(5), at(day * DAY)));
    }
    assert!(client.needs_renewal(&certificate(1)));
    assert!(!client.needs_renewal(&certificate(100_000)));
}

#[test]
fn attempts_are_put_on_record() {
    let client = AcmeClient::new(Arc::new(config(None)));
    let done = client.renew_certificate_at(Ok("aa:bb".to_string()), at(9));
    assert_eq!(done.timestamp, at(9));
    assert!(done.success);
    assert_eq!(done.message, "Certificate renewed successfully");
    assert_eq!(done.new_fingerprint.as_deref(), Some("aa:bb"));
    let failed = client.renew_certificate(Err("no order".to_string()));
    assert!(!failed.success);
    assert_eq!(failed.message, "no order");
    assert_eq!(failed.new_fingerprint, None);
}

#[test]
fn certificates_are_asked_for_with_a_wildcard() {
    assert_eq!(alt_names("example.com"), vec!["example.com", "*.example.com"]);
    assert_eq!(alt_names("*.example.com"), vec!["*.example.com"]);
    assert_eq!(alt_names("*"), vec!["*", "*.*"]);
}

#[test]
fn accounts_are_kept_below_the_home_directory() {
    match acme_persist_path_in(Some(PathBuf::from("/home/x")), "example.com") {
        Ok(FilePath::Below { directory, parts }) => {
            assert_eq!(directory, PathBuf::from("/home/x"));
            assert_eq!(parts, vec![".cert-monitor", "acme", "example.com"]);
        }
        _ => panic!("not below the home directory"),
    }
    assert_eq!(
        acme_persist_path_in(None, "example.com").unwrap_err(),
        "Cannot determine home directory"
    );
    match (get_acme_persist_path("a.com"), dirs::home_dir()) {
        (Ok(FilePath::Below { directory, .. }), Some(home)) => assert_eq!(directory, home),
        (Err(message), None) => assert_eq!(message, "Cannot determine home directory"),
        _ => panic!("another home directory"),
    }
}

#[test]
fn challenges_are_planned_by_configuration() {
    let mut dc = domain("example.com");
    assert_eq!(
        plan_challenges(&dc).unwrap_err(),
        "No validation method configured for example.com"
    );
    dc.validation_method = Some(ValidationMethod::Http01);
    assert_eq!(plan_challenges(&dc).unwrap_err(), "No HTTP challenge directory configured");
    dc.http_challenge_dir = Some("/var/www".to_string());
    assert!(matches!(plan_challenges(&dc), Ok(ChallengePlan::Http01 { directory: "/var/www" })));
    dc.validation_method = Some(ValidationMethod::Dns01);
    assert_eq!(plan_challenges(&dc).unwrap_err(), "No DNS provider configured");
    dc.dns_provider = Some(aliyun());
    assert!(matches!(
        plan_challenges(&dc),
        Ok(ChallengePlan::Dns01 { provider: DnsProviderConfig::Aliyun { .. } })
    ));
    assert_eq!(challenge_record_name("example.com"), "_acme-challenge.example.com");
}

#[test]
fn challenges_with_files_are_taken_in_turn() {
    let steps = plan_steps(&ChallengePlan::Http01 { directory: "/var/www" }, 2);
    assert_eq!(steps, vec![
        ChallengeStep::Publish { index: 0 },
        ChallengeStep::Validate { index: 0, interval_millis: 5000 },
        ChallengeStep::Publish { index: 1 },
        ChallengeStep::Validate { index: 1, interval_millis: 5000 },
        ChallengeStep::Wait { secs: 5 },
        ChallengeStep::Refresh,
        ChallengeStep::Confirm,
    ]);
}

#[test]
fn challenges_with_records_are_cleaned_up() {
    let provider = aliyun();
    let plan = ChallengePlan::Dns01 { provider: &provider };
    assert_eq!(plan_steps(&plan, 2), vec![
        ChallengeStep::Publish { index: 0 },
        ChallengeStep::Wait { secs: 5 },
        ChallengeStep::Validate { index: 0, interval_millis: 5000 },
        ChallengeStep::Publish { index: 1 },
        ChallengeStep::Wait { secs: 5 },
        ChallengeStep::Validate { index: 1, interval_millis: 5000 },
        ChallengeStep::Wait { secs: 10 },
        ChallengeStep::Confirm,
        ChallengeStep::CleanUp { index: 0 },
        ChallengeStep::CleanUp { index: 1 },
    ]);
    assert_eq!(
        plan_steps(&plan, 0),
        vec![ChallengeStep::Wait { secs: 10 }, ChallengeStep::Confirm]
    );
}

#[test]
fn failures_of_a_renewal_are_put_in_words() {
    let r = || "why".to_string();
    let cases = [
        (RenewalFailure::PersistDirectory { path: r() }, "Failed to create ACME persist dir: why"),
        (RenewalFailure::Directory { reason: r() }, "Failed to create ACME directory: why"),
        (RenewalFailure::Account { reason: r() }, "Failed to get/create ACME account: why"),
        (RenewalFailure::Order { reason: r() }, "Failed to create order: why"),
        (RenewalFailure::ChallengeDirectory { path: r() }, "Failed to create challenge dir: why"),
        (RenewalFailure::Authorizations { reason: r() }, "Failed to get authorizations: why"),
        (RenewalFailure::ChallengeFile { path: r() }, "Failed to write challenge file: why"),
        (RenewalFailure::Cloudflare, "Failed to call Cloudflare API"),
        (RenewalFailure::Aliyun, "Failed to call Aliyun DNS API"),
        (RenewalFailure::Validate { reason: r() }, "Failed to validate challenge: why"),
        (RenewalFailure::Refresh { reason: r() }, "Failed to refresh order: why"),
        (RenewalFailure::Unconfirmed, "Failed to confirm validations"),
        (RenewalFailure::Finalize { reason: r() }, "Failed to finalize order: why"),
        (RenewalFailure::Download { reason: r() }, "Failed to download certificate: why"),
        (RenewalFailure::CertificateDirectory { path: r() }, "Failed to create cert directory: why"),
        (RenewalFailure::Fullchain { path: r() }, "Failed to write fullchain: why"),
        (RenewalFailure::Privkey { path: r() }, "Failed to write privkey: why"),
    ];
    for (failure, message) in cases {
        assert_eq!(failure.message(), message);
    }
}

#[test]
fn paths_are_configured_or_in_the_storage_directory() {
    let mut dc = domain("example.com");
    assert_eq!(
        certificate_paths(&dc).unwrap_err(),
        "No fullchain path configured for example.com"
    );
    dc.fullchain_path = Some("/a/chain.pem".to_string());
    assert_eq!(certificate_paths(&dc).unwrap_err(), "No privkey path configured for example.com");
    dc.cert_storage_path = Some("/b".to_string());
    let paths = certificate_paths(&dc).unwrap();
    assert_eq!(paths.fullchain, "/a/chain.pem");
    assert_eq!(paths.privkey, "/b/privkey.pem");
    dc.fullchain_path = None;
    dc.privkey_path = Some("/c/key.pem".to_string());
    let paths = certificate_paths(&dc).unwrap();
    assert_eq!(paths.fullchain, "/b/fullchain.pem");
    assert_eq!(paths.privkey, "/c/key.pem");
}

#[test]
fn new_certificates_have_a_fingerprint() {
    let (issued, _) = x509_certificate::X509CertificateBuilder::default()
        .create_with_random_keypair(x509_certificate::KeyAlgorithm::Ed25519)
        .unwrap();
    assert_eq!(
        new_fingerprint(issued.encode_pem().as_bytes()),
        Ok(compute_sha256_fingerprint(issued.constructed_data()))
    );
    assert!(new_fingerprint(b"junk")
        .unwrap_err()
        .starts_with("Failed to parse new certificate: "));
    assert_eq!(
        fingerprint_of(Err("why".to_string())),
        Err("Failed to parse new certificate: why".to_string())
    );
    let mut read = Certificate::from_der(issued.constructed_data()).unwrap();
    read.encoding = Err("why".to_string());
    assert_eq!(fingerprint_of(Ok(read)), Err("Failed to encode DER: why".to_string()));
}

#[test]
fn records_at_cloudflare_need_a_zone() {
    let zone = Some("z1".to_string());
    match cloudflare_add_txt("token", &zone, "_acme-challenge.a.com", "proof") {
        Ok(DnsRequest::Create { url, authorization, record }) => {
            assert_eq!(url, "https://api.cloudflare.com/client/v4/zones/z1/dns_records");
            assert_eq!(authorization, "Bearer token");
            assert_eq!(record.record_type, "TXT");
            assert_eq!(record.name, "_acme-challenge.a.com");
            assert_eq!(record.content, "proof");
            assert_eq!(record.ttl, 120);
            assert!(!record.proxied);
        }
        _ => panic!("no request"),
    }
    assert_eq!(
        cloudflare_add_txt("token", &None, "n", "c").unwrap_err(),
        "Cloudflare zone_id is required"
    );
    assert!(matches!(
        add_txt_request(&cloudflare(Some("z1")), "n", "c"),
        Ok(DnsRequest::Create { .. })
    ));
    match cleanup_request(&cloudflare(Some("z1")), "r7") {
        Ok(DnsRequest::Delete { url, authorization }) => {
            assert_eq!(url, "https://api.cloudflare.com/client/v4/zones/z1/dns_records/r7");
            assert_eq!(authorization, "Bearer token");
        }
        _ => panic!("no request"),
    }
    assert_eq!(
        cleanup_request(&cloudflare(None), "r7").unwrap_err(),
        "Cloudflare zone_id is required for cleanup"
    );
}

#[test]
fn root_domains_are_the_last_two_labels() {
    assert_eq!(extract_root_domain("_acme-challenge.api.example.com"), Ok("example.com".to_string()));
    assert_eq!(extract_root_domain("example.com"), Ok("example.com".to_string()));
    assert_eq!(extract_root_domain("a.b."), Ok("b.".to_string()));
    assert_eq!(extract_root_domain("."), Ok(".".to_string()));
    assert_eq!(extract_root_domain("com"), Err("Invalid domain name: com".to_string()));
    assert_eq!(extract_root_domain(""), Err("Invalid domain name: ".to_string()));
    assert_eq!(host_record_of("_acme-challenge.api.example.com", "example.com"), "_acme-challenge.api");
    assert_eq!(host_record_of("example.com", "example.com"), "example.com");
}

const TO_SIGN: &str = "POST&%2F&AccessKeyId%3Did%26Action%3DAddDomainRecord%26DomainName%3Dexample%252Ecom%26Format%3DJSON%26RR%3D%255Facme%252Dchallenge%252Eapi%26SignatureMethod%3DHMAC%252DSHA1%26SignatureNonce%3D42%26SignatureVersion%3D1%252E0%26TTL%3D600%26Timestamp%3D2023%252D11%252D14T22%253A13%253A20Z%26Type%3DTXT%26Value%3Dtok%2520en%252A%257E%25C3%25A9%26Version%3D2015%252D01%252D09";

const FORM: &str = "AccessKeyId=id&Action=AddDomainRecord&DomainName=example.com&Format=JSON&RR=_acme-challenge.api&Signature=3jC9bRzJ4X1%2FCxu4K2kicofpp8g%3D&SignatureMethod=HMAC-SHA1&SignatureNonce=42&SignatureVersion=1.0&TTL=600&Timestamp=2023-11-14T22%3A13%3A20Z&Type=TXT&Value=tok+en*%7E%C3%A9&Version=2015-01-09";

#[test]
fn requests_to_aliyun_are_signed() {
    let params = aliyun_add_params(
        "id",
        42,
        at(1_700_000_000),
        "example.com",
        "_acme-challenge.api",
        "tok en*~é",
    );
    assert_eq!(params.len(), 13);
    let mut sorted = params.clone();
    sorted.sort();
    assert_eq!(string_to_sign("POST", &sorted), TO_SIGN);
    assert_eq!(aliyun_sign("secret", "POST", &params), "3jC9bRzJ4X1/Cxu4K2kicofpp8g=");
    let reversed: Vec<(String, String)> = params.iter().rev().cloned().collect();
    assert_eq!(aliyun_sign("secret", "POST", &reversed), "3jC9bRzJ4X1/Cxu4K2kicofpp8g=");
    assert_eq!(aliyun_sign("secret", "POST", &sorted), "3jC9bRzJ4X1/Cxu4K2kicofpp8g=");
    assert_eq!(write_signed_form(params.clone(), "3jC9bRzJ4X1/Cxu4K2kicofpp8g="), FORM);
    match aliyun_request("secret", params) {
        DnsRequest::Form { url, form } => {
            assert_eq!(url, "https://alidns.aliyuncs.com/");
            assert_eq!(form, FORM);
        }
        _ => panic!("not a form"),
    }
    let name = "_acme-challenge.api.example.com";
    match aliyun_add_txt_with("id", "secret", name, "tok en*~é", 42, at(1_700_000_000)) {
        Ok(DnsRequest::Form { form, .. }) => assert_eq!(form, FORM),
        _ => panic!("not a form"),
    }
    assert_eq!(
        aliyun_add_txt_with("id", "secret", "com", "c", 42, at(0)).unwrap_err(),
        "Invalid domain name: com"
    );
}

#[test]
fn records_at_aliyun_are_deleted_with_a_signed_form() {
    let params = aliyun_delete_params("id", 7, at(0), "r 7");
    assert_eq!(params.len(), 9);
    assert_eq!(params[0], ("Action".to_string(), "DeleteDomainRecord".to_string()));
    assert_eq!(params[8], ("RecordId".to_string(), "r 7".to_string()));
    match cleanup_request_with(&aliyun(), "r 7", 7, at(0)) {
        Ok(DnsRequest::Form { url, form }) => {
            assert_eq!(url, "https://alidns.aliyuncs.com/");
            assert!(form.starts_with("AccessKeyId=id&Action=DeleteDomainRecord&Format=JSON&RecordId=r+7&Signature="));
            assert!(form.ends_with("&SignatureMethod=HMAC-SHA1&SignatureNonce=7&SignatureVersion=1.0&Timestamp=1970-01-01T00%3A00%3A00Z&Version=2015-01-09"));
        }
        _ => panic!("not a form"),
    }
    assert!(matches!(cleanup_request(&aliyun(), "r"), Ok(DnsRequest::Form { .. })));
    assert!(matches!(add_txt_request(&aliyun(), "a.b.c", "v"), Ok(DnsRequest::Form { .. })));
}

#[test]
fn nonces_differ() {
    let form = || match add_txt_request(&aliyun(), "a.b.c", "v") {
        Ok(DnsRequest::Form { form, .. }) => form,
        _ => panic!("not a form"),
    };
    let nonce = |form: String| {
        let rest = form.split("SignatureNonce=").nth(1).unwrap().to_string();
        rest.split('&').next().unwrap().to_string()
    };
    assert_ne!(nonce(form()), nonce(form()));
}

#[test]
fn identifiers_are_read_from_replies() {
    let cf = cloudflare(None);
    assert_eq!(
        created_record_id(&cf, b"{\"result\":{\"id\":\"r1\"}}"),
        Ok("r1".to_string())
    );
    for body in [&b"{}"[..], b"junk", b"{\"result\":\"id\"}", b"{\"result\":{\"id\":1}}"] {
        assert_eq!(
            created_record_id(&cf, body),
            Err("Failed to get record ID from Cloudflare response".to_string())
        );
    }
    assert_eq!(
        created_record_id(&aliyun(), b"{\"RecordId\":\"r2\",\"Message\":\"m\"}"),
        Ok("r2".to_string())
    );
    assert_eq!(
        created_record_id(&aliyun(), b"{\"Message\":\"denied\"}"),
        Err("Failed to get RecordId from Aliyun response: denied".to_string())
    );
    assert_eq!(
        created_record_id(&aliyun(), b""),
        Err("Failed to get RecordId from Aliyun response: unknown error".to_string())
    );
    assert_eq!(judge_cloudflare_id(Some("x".to_string())), Ok("x".to_string()));
    assert_eq!(
        judge_cloudflare_id(None),
        Err("Failed to get record ID from Cloudflare response".to_string())
    );
    assert_eq!(judge_aliyun_id(Some("x".to_string()), None), Ok("x".to_string()));
    assert_eq!(
        judge_aliyun_id(None, Some("m".to_string())),
        Err("Failed to get RecordId from Aliyun response: m".to_string())
    );
    assert_eq!(
        format_service_failure(&cf, "403 Forbidden", "no"),
        "Cloudflare API failed (403 Forbidden): no"
    );
    assert_eq!(
        format_service_failure(&aliyun(), "400 Bad Request", "no"),
        "Aliyun DNS API failed (400 Bad Request): no"
    );
}
