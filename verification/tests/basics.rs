use cert_monitor::clock::{days_elapsed, hours_elapsed, seconds_elapsed, Timestamp};
use cert_monitor::config::{
    generate_default_config_template, Config, DomainConfig, FilePath, GlobalConfig, SourceConfig,
};
use cert_monitor::order::{order_by_name, order_by_number};
use cert_monitor::text::{
    bytes_equal, colon_hex_text, join, push_decimal, push_magnitude, push_signed, read_ascii,
    shorten, strip_suffix, text_begins_with, text_equal,
};
use cert_monitor::types::{AlertLevel, CertificateInfo, NotificationTimes, OcspStatus};

fn at(secs: i64) -> Timestamp {
    Timestamp::from_parts(secs, 0).unwrap()
}

fn empty_config() -> Config {
    Config {
        global: GlobalConfig {
            state_file: None,
            concurrency: None,
            connect_timeout: None,
            acme_account_email: "admin@example.com".to_string(),
            acme_directory: None,
            default_dns_provider: None,
            renew_threshold_days: None,
            hook_timeout: None,
            notification_debounce_hours: None,
            smtp: None,
            slack: None,
            dingtalk: None,
        },
        domains: Vec::new(),
        sources: None,
    }
}

fn certificate(not_after: Timestamp) -> CertificateInfo {
    CertificateInfo {
        domain: "example.com".to_string(),
        subject: "CN=example.com".to_string(),
        san_list: vec!["example.com".to_string()],
        issuer: "CN=Authority".to_string(),
        not_before: at(0),
        not_after,
        fingerprint_sha256: "aa:bb".to_string(),
        chain_complete: true,
        ocsp_status: OcspStatus::Good,
        source: "example.com:443".to_string(),
    }
}

#[test]
fn numerals_are_written_in_decimal() {
    let mut s = String::from("n=");
    push_decimal(&mut s, 0);
    push_decimal(&mut s, 1205);
    push_signed(&mut s, -17);
    push_signed(&mut s, i64::MIN);
    push_magnitude(&mut s, -9);
    push_decimal(&mut s, u64::MAX);
    assert_eq!(s, "n=01205-17-9223372036854775808918446744073709551615");
}

#[test]
fn texts_are_joined_compared_and_cut() {
    let parts = vec!["a".to_string(), "证书".to_string(), "".to_string()];
    assert_eq!(join(&parts, ", "), "a, 证书, ");
    assert_eq!(join(&Vec::new(), ", "), "");
    assert_eq!(colon_hex_text(&[0x00, 0xff, 0x1a]), "00:ff:1a");
    assert_eq!(colon_hex_text(&[]), "");
    assert!(bytes_equal(b"ab", b"ab"));
    assert!(!bytes_equal(b"ab", b"a"));
    assert!(text_equal("证书", "证书"));
    assert!(!text_equal("证书", "证"));
    assert!(text_begins_with("*.example.com", "*."));
    assert!(!text_begins_with("*", "*."));
    assert_eq!(strip_suffix("a.example.com", ".example.com"), Some("a"));
    assert_eq!(strip_suffix("example.com", ".example.com"), None);
    assert_eq!(read_ascii(b"http://x"), Some("http://x".to_string()));
    assert_eq!(read_ascii(&[0x68, 0x80]), None);
}

#[test]
fn texts_are_shortened_by_octets_and_characters() {
    assert_eq!(shorten("12345678901234567890", 20, 17), "12345678901234567890");
    assert_eq!(shorten("123456789012345678901", 20, 17), "12345678901234567...");
    // Seven characters of three octets each are longer than twenty octets, and
    // fewer than seventeen characters.
    assert_eq!(shorten("证书证书证书证", 20, 17), "证书证书证书证...");
}

#[test]
fn differences_are_rounded_towards_zero() {
    let day: i64 = 86_400;
    assert_eq!(days_elapsed(at(3 * day), at(0)), 3);
    assert_eq!(days_elapsed(at(3 * day - 1), at(0)), 2);
    assert_eq!(days_elapsed(at(0), at(day - 1)), 0);
    assert_eq!(days_elapsed(at(0), at(day)), -1);
    assert_eq!(hours_elapsed(at(7199), at(0)), 1);
    assert_eq!(hours_elapsed(at(0), at(7199)), -1);
    let half = Timestamp::from_parts(10, 500_000_000).unwrap();
    assert_eq!(seconds_elapsed(half, at(9)), 1);
    assert_eq!(seconds_elapsed(at(9), half), -1);
    assert_eq!(seconds_elapsed(at(10), half), 0);
}

#[test]
fn instants_outside_the_calendar_are_refused() {
    assert!(Timestamp::from_parts(8_210_266_876_799, 0).is_some());
    assert!(Timestamp::from_parts(8_210_266_876_800, 0).is_none());
    assert!(Timestamp::from_parts(-8_334_601_228_800, 0).is_some());
    assert!(Timestamp::from_parts(-8_334_601_228_801, 0).is_none());
    assert!(Timestamp::from_parts(59, 1_999_999_999).is_some());
    assert!(Timestamp::from_parts(58, 1_000_000_000).is_none());
    assert!(Timestamp::from_parts(59, 2_000_000_000).is_none());
    assert!(Timestamp::from_parts(i64::MAX, 0).is_none());
}

#[test]
fn leap_seconds_are_counted_as_chrono_counts_them() {
    // The last second of a minute, with its leap second, and the second after it.
    let in_leap = Timestamp::from_parts(59, 1_500_000_000).unwrap();
    let after = at(60);
    let earlier = at(58);
    let chrono_of = |t: Timestamp| {
        chrono::DateTime::from_timestamp(t.seconds(), t.nanoseconds()).unwrap()
    };
    for (a, b) in [(after, in_leap), (in_leap, earlier), (in_leap, after), (at(90_000), in_leap)] {
        assert_eq!(
            seconds_elapsed(a, b),
            chrono_of(a).signed_duration_since(chrono_of(b)).num_seconds()
        );
    }
    assert_eq!(seconds_elapsed(after, in_leap), 0);
    assert_eq!(seconds_elapsed(in_leap, earlier), 2);
}

#[test]
fn instants_are_written_by_patterns() {
    let t = at(1_700_000_000);
    assert_eq!(t.format("%Y-%m-%d"), "2023-11-14");
    assert_eq!(t.format("%Y-%m-%d %H:%M"), "2023-11-14 22:13");
    assert_eq!(t.format("%Y-%m-%d %H:%M UTC"), "2023-11-14 22:13 UTC");
    assert_eq!(t.format("%Y-%m-%d %H:%M:%S UTC"), "2023-11-14 22:13:20 UTC");
    assert_eq!(t.format("%Y-%m-%dT%H:%M:%SZ"), "2023-11-14T22:13:20Z");
    assert_eq!(Timestamp::from_parts(5, 678_900_000).unwrap().milliseconds(), 5678);
}

#[test]
fn the_present_is_after_the_past() {
    let now = Timestamp::now();
    assert!(now.seconds() > 1_700_000_000);
    assert!(now.nanoseconds() < 1_000_000_000);
    let cert = certificate(Timestamp::from_parts(now.seconds() + 10 * 86_400 + 60, 0).unwrap());
    assert_eq!(cert.days_remaining(), 10);
}

#[test]
fn days_left_do_not_grow() {
    let end = at(100 * 86_400);
    let mut last = i64::MAX;
    for day in 0..140 {
        let days = certificate(end).days_remaining_at(at(day * 86_400 + 1));
        assert!(days <= last);
        last = days;
    }
    assert_eq!(last, -39);
}

#[test]
fn levels_begin_at_their_thresholds_exactly() {
    assert_eq!(AlertLevel::from_days(-1), Some(AlertLevel::Emergency));
    assert_eq!(AlertLevel::from_days(0), Some(AlertLevel::Critical));
    assert_eq!(AlertLevel::from_days(7), Some(AlertLevel::Critical));
    assert_eq!(AlertLevel::from_days(8), Some(AlertLevel::Warning));
    assert_eq!(AlertLevel::from_days(30), Some(AlertLevel::Warning));
    assert_eq!(AlertLevel::from_days(31), Some(AlertLevel::Info));
    assert_eq!(AlertLevel::from_days(60), Some(AlertLevel::Info));
    assert_eq!(AlertLevel::from_days(61), None);
    assert_eq!(AlertLevel::from_days(i64::MIN), Some(AlertLevel::Emergency));
    assert_eq!(AlertLevel::from_days(i64::MAX), None);
    let all = [
        (AlertLevel::Info, "INFO", 60),
        (AlertLevel::Warning, "WARNING", 30),
        (AlertLevel::Critical, "CRITICAL", 7),
        (AlertLevel::Emergency, "EMERGENCY", 0),
    ];
    for (level, name, threshold) in all {
        assert_eq!(level.as_str(), name);
        assert_eq!(level.threshold_days(), threshold);
    }
}

#[test]
fn times_of_alerts_are_kept_by_level() {
    let mut times = NotificationTimes::new();
    assert_eq!(times.get(AlertLevel::Info), None);
    times.insert(AlertLevel::Info, at(1));
    times.insert(AlertLevel::Emergency, at(2));
    times.insert(AlertLevel::Info, at(3));
    assert_eq!(times.get(AlertLevel::Info), Some(at(3)));
    assert_eq!(times.get(AlertLevel::Warning), None);
    assert_eq!(times.get(AlertLevel::Critical), None);
    assert_eq!(times.get(AlertLevel::Emergency), Some(at(2)));
}

#[test]
fn orders_are_stable() {
    assert_eq!(order_by_number(&vec![5, -1, 5, 0, i64::MAX]), vec![1, 3, 0, 2, 4]);
    assert_eq!(order_by_number(&Vec::new()), Vec::<usize>::new());
    assert_eq!(order_by_name(&vec!["b", "a", "", "ab", "证", "a"]), vec![2, 1, 5, 3, 0, 4]);
    let mut names = vec!["TTL", "Type", "Timestamp", "RR", "Action", "AccessKeyId"];
    let order = order_by_name(&names);
    let sorted: Vec<&str> = order.iter().map(|i| names[*i]).collect();
    names.sort();
    assert_eq!(sorted, names);
}

#[test]
fn settings_have_defaults() {
    let mut config = empty_config();
    assert_eq!(config.concurrency(), 20);
    assert_eq!(config.connect_timeout_secs(), 10);
    assert_eq!(config.renew_threshold_days(), 30);
    assert_eq!(config.hook_timeout_secs(), 60);
    assert_eq!(config.notification_debounce_hours(), 24);
    assert_eq!(config.acme_directory_url(), "https://acme-v02.api.letsencrypt.org/directory");
    config.global.concurrency = Some(3);
    config.global.connect_timeout = Some(4);
    config.global.renew_threshold_days = Some(-5);
    config.global.hook_timeout = Some(6);
    config.global.notification_debounce_hours = Some(7);
    config.global.acme_directory = Some("https://acme.test/dir".to_string());
    assert_eq!(config.concurrency(), 3);
    assert_eq!(config.connect_timeout_secs(), 4);
    assert_eq!(config.renew_threshold_days(), -5);
    assert_eq!(config.hook_timeout_secs(), 6);
    assert_eq!(config.notification_debounce_hours(), 7);
    assert_eq!(config.acme_directory_url(), "https://acme.test/dir");
}

#[test]
fn the_state_file_is_configured_or_below_the_home_directory() {
    let mut config = empty_config();
    match config.state_file_path_in(Some(std::path::PathBuf::from("/home/x"))) {
        FilePath::Below { directory, parts } => {
            assert_eq!(directory, std::path::PathBuf::from("/home/x"));
            assert_eq!(parts, vec![".cert-monitor", "state.json"]);
        }
        FilePath::Written(_) => panic!("not below the home directory"),
    }
    match config.state_file_path_in(None) {
        FilePath::Written(path) => assert_eq!(path, "cert-monitor-state.json"),
        FilePath::Below { .. } => panic!("below no directory"),
    }
    match (config.get_state_file_path(), dirs::home_dir()) {
        (FilePath::Below { directory, .. }, Some(home)) => assert_eq!(directory, home),
        (FilePath::Written(path), None) => assert_eq!(path, "cert-monitor-state.json"),
        _ => panic!("another home directory"),
    }
    config.global.state_file = Some("/var/state.json".to_string());
    match config.get_state_file_path() {
        FilePath::Written(path) => assert_eq!(path, "/var/state.json"),
        FilePath::Below { .. } => panic!("not as configured"),
    }
}

#[test]
fn domains_are_found_by_name() {
    let mut config = empty_config();
    for (name, auto_renew) in [("a.com", true), ("b.com", false), ("a.com", false)] {
        config.domains.push(DomainConfig {
            name: name.to_string(),
            validation_method: None,
            dns_provider: None,
            cert_storage_path: None,
            fullchain_path: None,
            privkey_path: None,
            http_challenge_dir: None,
            deployment_hooks: None,
            verification_hook: None,
            auto_renew,
            ports: None,
        });
    }
    config.sources = Some(SourceConfig {
        domain_list: None,
        ip_ranges: None,
        pem_directories: None,
    });
    assert!(config.find_domain("a.com").unwrap().auto_renew);
    assert!(!config.find_domain("b.com").unwrap().auto_renew);
    assert!(config.find_domain("c.com").is_none());
}

#[test]
fn the_template_is_yaml_with_both_example_domains() {
    let template = generate_default_config_template();
    assert!(template.starts_with("# cert-monitor 配置文件模板\nglobal:\n  # 状态文件路径\n"));
    assert!(template.ends_with("    verification_hook: true\n    auto_renew: true\n"));
    assert_eq!(template.lines().count(), 91);
    let value: serde_yaml::Value = serde_yaml::from_str(&template).unwrap();
    assert_eq!(value["global"]["concurrency"].as_u64(), Some(20));
    assert_eq!(value["global"]["state_file"].as_str(), Some("~/.cert-monitor/state.json"));
    assert_eq!(value["global"]["smtp"]["port"].as_u64(), Some(465));
    assert_eq!(value["global"]["dingtalk"]["secret"].as_str(), Some("your-sign-secret"));
    assert_eq!(value["sources"]["ip_ranges"][0]["cidr"].as_str(), Some("192.168.1.0/24"));
    assert_eq!(value["domains"][0]["name"].as_str(), Some("example.com"));
    assert_eq!(value["domains"][0]["dns_provider"]["type"].as_str(), Some("cloudflare"));
    assert_eq!(value["domains"][1]["dns_provider"]["region"].as_str(), Some("cn-hangzhou"));
    assert_eq!(value["domains"][1]["auto_renew"].as_bool(), Some(true));
}
