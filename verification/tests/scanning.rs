use cert_monitor::clock::Timestamp;
use cert_monitor::config::{Config, DomainConfig, GlobalConfig, IpRangeConfig, SourceConfig};
use cert_monitor::network::{scanned_hosts, IpAddress, Network};
use cert_monitor::scanner::{format_address, ConnectFailure, Scanner};
use cert_monitor::types::{CertificateInfo, OcspStatus};
use std::sync::Arc;

fn at(secs: i64) -> Timestamp {
    Timestamp::from_parts(secs, 0).unwrap()
}

fn domain(name: &str, ports: Option<Vec<u16>>) -> DomainConfig {
    DomainConfig {
        name: name.to_string(),
        validation_method: None,
        dns_provider: None,
        cert_storage_path: None,
        fullchain_path: None,
        privkey_path: None,
        http_challenge_dir: None,
        deployment_hooks: None,
        verification_hook: None,
        auto_renew: false,
        ports,
    }
}

fn range(cidr: &str, port: Option<u16>) -> IpRangeConfig {
    IpRangeConfig { cidr: cidr.to_string(), port }
}

fn config(domains: Vec<DomainConfig>, sources: Option<SourceConfig>) -> Config {
    Config {
        global: GlobalConfig {
            state_file: None,
            concurrency: None,
            connect_timeout: None,
            acme_account_email: String::new(),
            acme_directory: None,
            default_dns_provider: None,
            renew_threshold_days: None,
            hook_timeout: None,
            notification_debounce_hours: None,
            smtp: None,
            slack: None,
            dingtalk: None,
        },
        domains,
        sources,
    }
}

fn scanner(domains: Vec<DomainConfig>, ranges: Vec<IpRangeConfig>, list: Vec<&str>) -> Scanner {
    Scanner::new(Arc::new(config(domains, Some(SourceConfig {
        domain_list: Some(list.into_iter().map(|s| s.to_string()).collect()),
        ip_ranges: Some(ranges),
        pem_directories: None,
    }))))
}

fn info(name: &str) -> CertificateInfo {
    CertificateInfo {
        domain: name.to_string(),
        subject: "s".to_string(),
        san_list: Vec::new(),
        issuer: "i".to_string(),
        not_before: at(0),
        not_after: at(1),
        fingerprint_sha256: "f".to_string(),
        chain_complete: false,
        ocsp_status: OcspStatus::Unknown,
        source: "x".to_string(),
    }
}

#[test]
fn limits_are_taken_from_the_configuration() {
    let mut settings = config(Vec::new(), None);
    assert_eq!(Scanner::new(Arc::new(settings.clone())).concurrency(), 20);
    assert_eq!(Scanner::new(Arc::new(settings.clone())).timeout_secs(), 10);
    settings.global.concurrency = Some(7);
    settings.global.connect_timeout = Some(3);
    assert_eq!(Scanner::new(Arc::new(settings.clone())).concurrency(), 7);
    assert_eq!(Scanner::new(Arc::new(settings)).timeout_secs(), 3);
}

#[test]
fn ranges_are_the_hosts_of_their_network() {
    let s = scanner(Vec::new(), Vec::new(), Vec::new());
    assert_eq!(
        s.scan_ip_range(&range("10.0.0.5/30", None)),
        Ok(vec![IpAddress::V4(0x0a00_0005), IpAddress::V4(0x0a00_0006)])
    );
    assert_eq!(
        s.scan_ip_range(&range("10.0.0.0/31", None)),
        Ok(vec![IpAddress::V4(0x0a00_0000), IpAddress::V4(0x0a00_0001)])
    );
    assert_eq!(
        s.scan_ip_range(&range("10.0.0.9/32", None)),
        Ok(vec![IpAddress::V4(0x0a00_0009)])
    );
    assert_eq!(
        s.scan_ip_range(&range("fd00::/127", None)),
        Ok(vec![IpAddress::V6(0xfd00 << 112), IpAddress::V6((0xfd00 << 112) + 1)])
    );
    assert_eq!(
        s.scan_ip_range(&range("10.0.0.0/33", None)),
        Err("Invalid CIDR format: 10.0.0.0/33".to_string())
    );
    assert_eq!(
        s.scan_ip_range(&range("10.0.0.1", None)),
        Err("Invalid CIDR format: 10.0.0.1".to_string())
    );
}

#[test]
fn large_ranges_are_cut() {
    let v4 = scanned_hosts(Network::V4 { address: 0x0a00_00ff, prefix: 8 });
    assert_eq!(v4.len(), 256);
    assert_eq!(v4[0], IpAddress::V4(0x0a00_0001));
    assert_eq!(v4[255], IpAddress::V4(0x0a00_0100));
    let class_c = scanned_hosts(Network::V4 { address: 0xc0a8_0100, prefix: 24 });
    assert_eq!(class_c.len(), 254);
    assert_eq!(class_c[253], IpAddress::V4(0xc0a8_01fe));
    let v6 = scanned_hosts(Network::V6 { address: 0xfd00 << 112, prefix: 8 });
    assert_eq!(v6.len(), 1024);
    assert_eq!(v6[0], IpAddress::V6(0xfd00 << 112));
    assert_eq!(v6[1023], IpAddress::V6((0xfd00 << 112) + 1023));
    assert_eq!(scanned_hosts(Network::V4 { address: 0, prefix: 0 }).len(), 256);
    assert_eq!(scanned_hosts(Network::V6 { address: 0, prefix: 0 }).len(), 1024);
}

#[test]
fn hosts_of_a_range_are_distinct_and_in_it() {
    let hosts = scanned_hosts(Network::V4 { address: 0xc0a8_0110, prefix: 27 });
    assert_eq!(hosts.len(), 30);
    for (i, a) in hosts.iter().enumerate() {
        match a {
            IpAddress::V4(n) => assert_eq!(n >> 5, 0xc0a8_0110 >> 5),
            IpAddress::V6(_) => panic!("an address of the other version"),
        }
        assert!(hosts[i + 1..].iter().all(|b| a != b));
    }
}

#[test]
fn names_are_collected_once_from_all_sources() {
    let s = scanner(
        vec![domain("a.com", None), domain("b.com", None)],
        vec![range("10.0.0.0/30", None), range("nonsense", None), range("fd00::a0/128", None)],
        vec!["b.com", "c.com", "10.0.0.2"],
    );
    let pem = vec!["CN=x".to_string(), "c.com".to_string(), "CN=x".to_string()];
    assert_eq!(
        s.collect_all_domains(&pem),
        vec!["a.com", "b.com", "c.com", "10.0.0.2", "10.0.0.1", "fd00::a0", "CN=x"]
    );
    let none = Scanner::new(Arc::new(config(Vec::new(), None)));
    assert!(none.collect_all_domains(&Vec::new()).is_empty());
}

#[test]
fn ports_come_from_domain_then_range_then_default() {
    let s = scanner(
        vec![
            domain("a.com", Some(vec![8443, 443])),
            domain("10.0.0.7", Some(Vec::new())),
            domain("10.0.0.8", None),
        ],
        vec![
            range("nonsense", Some(1)),
            range("10.0.0.0/24", None),
            range("10.0.0.0/25", Some(9443)),
            range("10.0.0.0/8", Some(7443)),
            range("fd00::/16", Some(6443)),
        ],
        Vec::new(),
    );
    assert_eq!(s.get_ports_for_domain("a.com"), vec![8443, 443]);
    assert_eq!(s.get_ports_for_domain("10.0.0.7"), Vec::<u16>::new());
    assert_eq!(s.get_ports_for_domain("10.0.0.8"), vec![9443]);
    assert_eq!(s.get_ports_for_domain("10.0.0.127"), vec![9443]);
    assert_eq!(s.get_ports_for_domain("10.0.0.128"), vec![7443]);
    assert_eq!(s.get_ports_for_domain("10.255.255.255"), vec![7443]);
    assert_eq!(s.get_ports_for_domain("11.0.0.0"), vec![443]);
    assert_eq!(s.get_ports_for_domain("fd00::1"), vec![6443]);
    assert_eq!(s.get_ports_for_domain("fd01::1"), vec![443]);
    assert_eq!(s.get_ports_for_domain("b.com"), vec![443]);
}

#[test]
fn collected_addresses_are_scanned_on_their_port() {
    let s = scanner(Vec::new(), vec![range("192.168.1.0/29", Some(8443))], Vec::new());
    let names = s.collect_all_domains(&Vec::new());
    assert_eq!(names.len(), 6);
    for name in names {
        assert_eq!(s.get_ports_for_domain(&name), vec![8443]);
    }
}

#[test]
fn scans_end_with_the_first_certificate() {
    let s = scanner(vec![domain("a.com", Some(vec![1, 2, 3]))], Vec::new(), Vec::new());
    let mut scan = s.scan_domain_at("a.com", at(50));
    assert_eq!(scan.next_port(), Some(1));
    scan.record(Err("first".to_string()));
    assert_eq!(scan.next_port(), Some(2));
    scan.record(Ok(info("a.com")));
    assert_eq!(scan.next_port(), None);
    let result = scan.finish();
    assert_eq!(result.domain, "a.com");
    assert_eq!(result.cert.unwrap().domain, "a.com");
    assert_eq!(result.error, None);
    assert_eq!(result.scanned_at, at(50));
}

#[test]
fn scans_without_certificate_end_with_the_last_error() {
    let s = scanner(vec![domain("a.com", Some(vec![1, 2]))], Vec::new(), Vec::new());
    let mut scan = s.scan_domain("a.com");
    scan.record(Err("first".to_string()));
    scan.record(Err("second".to_string()));
    assert_eq!(scan.next_port(), None);
    let result = scan.finish();
    assert!(result.cert.is_none());
    assert_eq!(result.error.as_deref(), Some("second"));
    let portless = scanner(vec![domain("a.com", Some(Vec::new()))], Vec::new(), Vec::new());
    let scan = portless.scan_domain("a.com");
    assert_eq!(scan.next_port(), None);
    let result = scan.finish();
    assert!(result.cert.is_none());
    assert_eq!(result.error, None);
}

#[test]
fn failures_to_connect_are_put_in_words() {
    let address = format_address("a.com", 65535);
    assert_eq!(address, "a.com:65535");
    let reason = "why".to_string();
    assert_eq!(ConnectFailure::Timeout.message(&address), "Connection timeout for a.com:65535");
    assert_eq!(ConnectFailure::Connect.message(&address), "Failed to connect to a.com:65535");
    assert_eq!(
        ConnectFailure::RootCertificate { reason: reason.clone() }.message(&address),
        "Failed to add root cert: why"
    );
    assert_eq!(ConnectFailure::InvalidDomain { reason }.message(&address), "Invalid domain: why");
    assert_eq!(ConnectFailure::Handshake.message(&address), "TLS handshake failed");
}
