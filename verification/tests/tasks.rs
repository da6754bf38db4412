use cert_monitor::clock::Timestamp;
use cert_monitor::commands::{
    announce_failure_at, banner, choose_fingerprint, conclusion_lines, decide_renewal_at,
    decision_line, deployment_lines, domain_to_deploy, find_certificate, init_refusal, labelled,
    record_renewal_at, record_scans, record_scans_at, renewal_line, select_domains,
    sent_alerts, status_head, status_row, status_rows, status_table, target_lines, RenewalDecision,
    RenewalRun, SentAlert, RULE,
};
use cert_monitor::config::{Config, DomainConfig, GlobalConfig};
use cert_monitor::deploy::{DeployResult, HookResult};
use cert_monitor::state::StateManager;
use cert_monitor::terminal::{Span, Style};
use cert_monitor::types::{
    AlertLevel, AppState, CertificateInfo, OcspStatus, RenewalHistory, ScanResult,
};
use std::sync::Arc;

const DAY: i64 = 86_400;

fn at(secs: i64) -> Timestamp {
    Timestamp::from_parts(secs, 0).unwrap()
}

fn domain(name: &str, auto_renew: bool) -> DomainConfig {
    DomainConfig {
        name: name.to_string(),
        validation_method: None,
        dns_provider: None,
        cert_storage_path: None,
        fullchain_path: None,
        privkey_path: None,
        http_challenge_dir: None,
        deployment_hooks: None,
        verification_hook: None,
        auto_renew,
        ports: None,
    }
}

fn config() -> Config {
    Config {
        global: GlobalConfig {
            state_file: None,
            concurrency: None,
            connect_timeout: None,
            acme_account_email: String::new(),
            acme_directory: None,
            default_dns_provider: None,
            renew_threshold_days: None,
            hook_timeout: None,
            notification_debounce_hours: None,
            smtp: None,
            slack: None,
            dingtalk: None,
        },
        domains: vec![domain("a.com", true), domain("b.com", false), domain("c.com", true)],
        sources: None,
    }
}

fn certificate(name: &str, days: i64) -> CertificateInfo {
    CertificateInfo {
        domain: name.to_string(),
        subject: "s".to_string(),
        san_list: Vec::new(),
        issuer: "i".to_string(),
        not_before: at(0),
        not_after: at(days * DAY),
        fingerprint_sha256: format!("fp of {}", name),
        chain_complete: true,
        ocsp_status: OcspStatus::Unknown,
        source: "x".to_string(),
    }
}

fn scan(name: &str, days: Option<i64>) -> ScanResult {
    ScanResult {
        domain: name.to_string(),
        cert: days.map(|d| certificate(name, d)),
        error: None,
        scanned_at: at(0),
    }
}

fn attempt(success: bool) -> RenewalHistory {
    RenewalHistory {
        timestamp: at(3),
        success,
        message: "m".to_string(),
        new_fingerprint: if success { Some("new".to_string()) } else { None },
    }
}

fn deployed(success: bool, verification: Option<Result<bool, String>>) -> DeployResult {
    DeployResult {
        domain: "a.com".to_string(),
        hooks: vec![HookResult { command: "cmd".to_string(), success, output: "o".to_string() }],
        verification,
    }
}

fn text(spans: &Vec<Span>) -> String {
    spans.iter().map(|s| s.text.as_str()).collect::<Vec<_>>().concat()
}

fn styles(spans: &Vec<Span>) -> Vec<Style> {
    spans.iter().map(|s| s.style).filter(|s| *s != Style::Plain).collect()
}

#[test]
fn banners_stand_between_rules() {
    let spans = banner("title");
    assert_eq!(RULE.chars().count(), 80);
    assert_eq!(text(&spans), format!("{}\ntitle\n{}\n\n", RULE, RULE));
    assert_eq!(styles(&spans), vec![Style::BoldCyan, Style::BoldCyan, Style::BoldCyan]);
    let line = labelled("状态文件:", Style::Blue, "/tmp/s");
    assert_eq!(text(&line), "状态文件: /tmp/s\n");
    assert_eq!(styles(&line), vec![Style::Blue]);
}

#[test]
fn files_are_overwritten_only_by_force() {
    assert_eq!(
        init_refusal("c.yaml", true, false).as_deref(),
        Some("文件 c.yaml 已存在, 使用 --force 覆盖")
    );
    assert_eq!(init_refusal("c.yaml", true, true), None);
    assert_eq!(init_refusal("c.yaml", false, false), None);
}

#[test]
fn scans_are_remembered() {
    let mut manager = StateManager::new(None);
    manager.update_fingerprint("b.com", "old".to_string());
    manager.update_renew_time_at("c.com", at(1));
    record_scans_at(&mut manager, &[scan("a.com", Some(5)), scan("b.com", None)], at(7));
    let a = manager.get_domain_state("a.com");
    assert_eq!(a.last_scan, Some(at(7)));
    assert_eq!(a.current_fingerprint.as_deref(), Some("fp of a.com"));
    let b = manager.get_domain_state("b.com");
    assert_eq!(b.last_scan, Some(at(7)));
    assert_eq!(b.current_fingerprint.as_deref(), Some("old"));
    assert_eq!(manager.get_domain_state("c.com").last_scan, None);
    let twice = [scan("d.com", Some(1)), scan("d.com", None), scan("e.com", Some(2))];
    record_scans_at(&mut manager, &twice, at(7));
    let d = manager.get_domain_state("d.com");
    assert_eq!(d.current_fingerprint.as_deref(), Some("fp of d.com"));
    let e = manager.get_domain_state("e.com");
    assert_eq!(e.current_fingerprint.as_deref(), Some("fp of e.com"));
    assert_eq!(manager.state().updated_at, at(7));
    record_scans(&mut manager, &[scan("c.com", None)]);
    let c = manager.get_domain_state("c.com");
    assert!(c.last_scan.is_some());
    assert_eq!(c.last_renew, Some(at(1)));
}

#[test]
fn sent_alerts_are_listed() {
    assert_eq!(text(&sent_alerts(&Vec::new())), "✓ 无需发送通知 (所有域名在防抖周期内)\n");
    let alerts = vec![
        SentAlert { domain: "a.com".to_string(), channels: vec!["email".to_string(), "slack".to_string()] },
        SentAlert { domain: "b.com".to_string(), channels: vec!["dingtalk".to_string()] },
    ];
    assert_eq!(
        text(&sent_alerts(&alerts)),
        "\n已发送通知:\n  a.com → email, slack\n  b.com → dingtalk\n"
    );
}

#[test]
fn domains_are_selected_by_name_or_setting() {
    assert_eq!(select_domains(&config(), &None), vec![0, 2]);
    assert_eq!(select_domains(&config(), &Some("b.com".to_string())), vec![1]);
    assert_eq!(select_domains(&config(), &Some("x.com".to_string())), Vec::<usize>::new());
}

#[test]
fn certificates_are_found_by_their_domain() {
    let scans = vec![scan("a.com", Some(1)), scan("b.com", None), scan("a.com", Some(2))];
    assert_eq!(find_certificate(&scans, "a.com").unwrap().not_after, at(2 * DAY));
    assert!(find_certificate(&scans, "b.com").is_none());
    assert!(find_certificate(&scans, "c.com").is_none());
}

#[test]
fn renewals_are_decided_by_threshold_and_force() {
    let settings = config();
    let cert = |d: i64| certificate("a.com", d);
    assert_eq!(
        decide_renewal_at(&settings, Some(&cert(29)), false, at(0)),
        RenewalDecision::Due { days: 29 }
    );
    assert_eq!(
        decide_renewal_at(&settings, Some(&cert(30)), false, at(0)),
        RenewalDecision::NotDue { days: 30 }
    );
    assert_eq!(decide_renewal_at(&settings, None, false, at(0)), RenewalDecision::Unknown);
    assert_eq!(decide_renewal_at(&settings, None, true, at(0)), RenewalDecision::Forced);
    let cases = [
        (RenewalDecision::Forced, true, "→ a.com (强制续签)\n"),
        (RenewalDecision::Due { days: -4 }, true, "→ a.com (剩余 -4 天, 阈值 30 天)\n"),
        (RenewalDecision::NotDue { days: 90 }, false, "✓ a.com (剩余 90 天, 无需续签)\n"),
        (RenewalDecision::Unknown, false, "✗ a.com (无法获取证书信息, 跳过)\n"),
    ];
    for (decision, renews, line) in cases {
        assert_eq!(decision.needs_renewal(), renews);
        assert_eq!(text(&decision_line(&decision, "a.com", 30)), line);
    }
}

#[test]
fn attempts_at_renewal_are_remembered() {
    let mut manager = StateManager::new(None);
    manager.update_fingerprint("a.com", "old".to_string());
    record_renewal_at(&mut manager, "a.com", &attempt(false), at(5));
    let a = manager.get_domain_state("a.com");
    assert_eq!(a.last_renew, None);
    assert_eq!(a.current_fingerprint.as_deref(), Some("old"));
    assert_eq!(a.renewal_history.len(), 1);
    assert_ne!(manager.state().updated_at, at(5));
    record_renewal_at(&mut manager, "a.com", &attempt(true), at(6));
    let a = manager.get_domain_state("a.com");
    assert_eq!(a.last_renew, Some(at(6)));
    assert_eq!(a.current_fingerprint.as_deref(), Some("new"));
    assert_eq!(a.renewal_history.len(), 2);
    assert_eq!(manager.state().updated_at, at(6));
    assert_eq!(text(&renewal_line(&attempt(true))), "  ✓ 续签成功! 新指纹: new\n");
    assert_eq!(text(&renewal_line(&attempt(false))), "  ✗ 续签失败: m\n");
    let mut bare = attempt(true);
    bare.new_fingerprint = None;
    assert_eq!(text(&renewal_line(&bare)), "  ✓ 续签成功! 新指纹: N/A\n");
}

#[test]
fn failed_deployments_are_announced_once_in_the_debounce_time() {
    let settings = config();
    let mut manager = StateManager::new(None);
    let soon = certificate("a.com", 5);
    let fresh = certificate("a.com", 90);
    let bad = deployed(false, Some(Ok(true)));
    let unverified = deployed(true, None);
    let good = deployed(true, Some(Ok(true)));
    let announce = |m: &StateManager, c: Option<&CertificateInfo>, r: &DeployResult| {
        announce_failure_at(&settings, m, "a.com", c, r, at(0))
    };
    assert!(announce(&manager, Some(&soon), &bad));
    assert!(announce(&manager, Some(&soon), &unverified));
    assert!(!announce(&manager, Some(&soon), &good));
    assert!(!announce(&manager, Some(&fresh), &bad));
    assert!(!announce(&manager, None, &bad));
    manager.update_notification_time_at("a.com", AlertLevel::Critical, at(0));
    assert!(!announce(&manager, Some(&soon), &bad));
}

#[test]
fn a_run_of_renewals_goes_through_the_selection() {
    let mut run =
        RenewalRun::new(Arc::new(config()), StateManager::new(None), &None, false, true);
    assert!(!run.is_empty());
    run.set_scans(vec![scan("a.com", Some(5)), scan("b.com", Some(1)), scan("c.com", Some(50))]);
    let first = run.next_at(at(0)).unwrap();
    assert_eq!(first.index, 0);
    assert!(first.renew);
    assert_eq!(text(&first.line), "→ a.com (剩余 5 天, 阈值 30 天)\n");
    let (line, deploys) = run.renewed_at(first.index, &attempt(true), at(2));
    assert_eq!(text(&line), "  ✓ 续签成功! 新指纹: new\n");
    assert!(deploys);
    assert_eq!(
        text(&run.deployed_at(first.index, &deployed(true, Some(Ok(true))), at(2))),
        "  ✓ [0] cmd\n  ✓ 验证通过: 证书指纹匹配\n"
    );
    assert_eq!(
        text(&run.deployed_at(first.index, &deployed(true, Some(Ok(false))), at(2))),
        "  ✓ [0] cmd\n  ✗ 验证失败: 证书指纹不匹配\n  ⚠️ 发送部署失败预警通知...\n"
    );
    let second = run.next_at(at(0)).unwrap();
    assert_eq!(second.index, 2);
    assert!(!second.renew);
    assert_eq!(text(&second.line), "✓ c.com (剩余 50 天, 无需续签)\n");
    let (line, deploys) = run.renewed_at(second.index, &attempt(false), at(3));
    assert_eq!(text(&line), "  ✗ 续签失败: m\n");
    assert!(!deploys);
    assert!(run.next_at(at(0)).is_none());
    run.save_at(at(9));
    assert_eq!(run.state().updated_at, at(9));
    assert_eq!(run.state().domains.get("a.com").unwrap().last_renew, Some(at(2)));
    assert_eq!(run.state().domains.get("c.com").unwrap().last_renew, None);
    let none = RenewalRun::new(
        Arc::new(config()),
        StateManager::new(None),
        &Some("x.com".to_string()),
        true,
        false,
    );
    assert!(none.is_empty());
}

#[test]
fn deployments_are_checked_against_a_given_or_remembered_fingerprint() {
    let mut manager = StateManager::new(None);
    assert_eq!(choose_fingerprint(None, &manager, "a.com"), None);
    manager.update_fingerprint("a.com", "remembered".to_string());
    assert_eq!(choose_fingerprint(None, &manager, "a.com").as_deref(), Some("remembered"));
    assert_eq!(
        choose_fingerprint(Some("given".to_string()), &manager, "a.com").as_deref(),
        Some("given")
    );
    record_renewal_at(&mut manager, "a.com", &attempt(true), at(6));
    assert_eq!(choose_fingerprint(None, &manager, "a.com").as_deref(), Some("new"));
    assert_eq!(domain_to_deploy(&config(), "b.com").unwrap().name, "b.com");
    assert_eq!(domain_to_deploy(&config(), "x.com").unwrap_err(), "配置中未找到域名: x.com");
    assert_eq!(
        text(&target_lines("a.com", &Some("fp".to_string()))),
        "目标域名: a.com\n预期指纹: fp\n\n"
    );
    assert_eq!(text(&target_lines("a.com", &None)), "目标域名: a.com\n\n");
}

#[test]
fn deployments_are_told_of_in_lines() {
    assert_eq!(
        text(&deployment_lines(&deployed(false, None), 0)),
        "✗ [0] cmd\n   错误: o\n"
    );
    assert_eq!(
        text(&deployment_lines(&deployed(true, Some(Err("why".to_string()))), 3)),
        "   ✓ [0] cmd\n   ✗ 验证错误: why\n"
    );
    assert_eq!(text(&conclusion_lines(&deployed(true, None))), "\n✓ 部署完成\n");
    assert_eq!(
        text(&conclusion_lines(&deployed(false, Some(Ok(false))))),
        "\n⚠️  部署过程中出现错误:\n  - Hook 'cmd' failed: o\n  - Verification failed: certificate fingerprint mismatch\n"
    );
}

#[test]
fn the_status_has_a_row_for_each_domain() {
    let mut state = AppState::default();
    state.updated_at = at(1_700_000_000);
    {
        let z = state.domains.get_or_add("z.com");
        z.last_scan = Some(at(1_700_000_000));
        z.current_fingerprint = Some("aa:bb:cc:dd:ee:ff:00:11".to_string());
        z.renewal_history = vec![attempt(true), attempt(false), attempt(true)];
    }
    state.domains.get_or_add("a.com").last_renew = Some(at(0));
    let rows = status_rows(&state);
    let texts: Vec<Vec<&str>> =
        rows.iter().map(|r| r.iter().map(|c| c.text.as_str()).collect()).collect();
    assert_eq!(texts, vec![
        vec!["a.com", "-", "1970-01-01 00:00", "-", "0/0 (最近5次)"],
        vec!["z.com", "2023-11-14 22:13", "-", "aa:bb:cc:dd:ee:ff...", "2/3 (最近5次)"],
    ]);
    let row = status_row("x", state.domains.get("a.com").unwrap());
    assert_eq!(row[0].text, "x");
    assert_eq!(
        text(&status_head(&state)),
        "上次更新时间: 2023-11-14 22:13:20 UTC\n监控域名数: 2\n\n"
    );
    let table = status_table(&state);
    assert!(table.find("续签记录").unwrap() < table.find("a.com").unwrap());
    assert!(table.find("a.com").unwrap() < table.find("z.com").unwrap());
}
