use cert_monitor::clock::Timestamp;
use cert_monitor::config::{Config, DomainConfig, GlobalConfig};
use cert_monitor::deploy::{
    hook_result, verify_deployment, DeployResult, DeployStep, Deployer, HookResult, HookRun,
};
use cert_monitor::types::{CertificateInfo, OcspStatus, ScanResult};
use std::sync::Arc;

fn at(secs: i64) -> Timestamp {
    Timestamp::from_parts(secs, 0).unwrap()
}

fn deployer() -> Deployer {
    Deployer::new(Arc::new(Config {
        global: GlobalConfig {
            state_file: None,
            concurrency: None,
            connect_timeout: None,
            acme_account_email: String::new(),
            acme_directory: None,
            default_dns_provider: None,
            renew_threshold_days: None,
            hook_timeout: Some(9),
            notification_debounce_hours: None,
            smtp: None,
            slack: None,
            dingtalk: None,
        },
        domains: Vec::new(),
        sources: None,
    }))
}

fn domain(hooks: Option<Vec<&str>>, verification_hook: Option<bool>) -> DomainConfig {
    DomainConfig {
        name: "example.com".to_string(),
        validation_method: None,
        dns_provider: None,
        cert_storage_path: None,
        fullchain_path: None,
        privkey_path: None,
        http_challenge_dir: None,
        deployment_hooks: hooks.map(|h| h.into_iter().map(|s| s.to_string()).collect()),
        verification_hook,
        auto_renew: true,
        ports: None,
    }
}

fn scan(fingerprint: Option<&str>) -> ScanResult {
    ScanResult {
        domain: "example.com".to_string(),
        cert: fingerprint.map(|f| CertificateInfo {
            domain: "example.com".to_string(),
            subject: "s".to_string(),
            san_list: Vec::new(),
            issuer: "i".to_string(),
            not_before: at(0),
            not_after: at(1),
            fingerprint_sha256: f.to_string(),
            chain_complete: true,
            ocsp_status: OcspStatus::Unknown,
            source: "x".to_string(),
        }),
        error: None,
        scanned_at: at(0),
    }
}

fn ended(success: bool, code: Option<i32>) -> HookRun {
    HookRun::Ended { success, code, stdout: "out".to_string(), stderr: "err".to_string() }
}

fn hook(success: bool) -> HookResult {
    HookResult { command: "cmd".to_string(), success, output: "o".to_string() }
}

#[test]
fn runs_of_hooks_are_told_of() {
    let good = hook_result("cmd", ended(true, Some(0)), 9);
    assert!(good.success);
    assert_eq!(good.command, "cmd");
    assert_eq!(good.output, "out");
    let bad = hook_result("cmd", ended(false, Some(-3)), 9);
    assert!(!bad.success);
    assert_eq!(bad.output, "Command failed with exit code Some(-3)\nstdout: out\nstderr: err");
    let killed = hook_result("cmd", ended(false, None), 9);
    assert_eq!(killed.output, "Command failed with exit code None\nstdout: out\nstderr: err");
    let missing = hook_result("cmd", HookRun::NotStarted, 9);
    assert!(!missing.success);
    assert_eq!(missing.output, "Failed to execute command: cmd");
    let slow = hook_result("cmd", HookRun::TimedOut, 9);
    assert!(!slow.success);
    assert_eq!(slow.output, "Command timed out after 9s: cmd");
}

#[test]
fn hooks_run_in_order_whatever_happens() {
    let mut deployment =
        deployer().deploy_domain(&domain(Some(vec!["one", "two"]), None), None);
    match deployment.next_step() {
        DeployStep::Run { command, timeout_secs } => {
            assert_eq!(command, "one");
            assert_eq!(timeout_secs, 9);
        }
        _ => panic!("no hook"),
    }
    deployment.record_hook(HookRun::TimedOut);
    match deployment.next_step() {
        DeployStep::Run { command, .. } => assert_eq!(command, "two"),
        _ => panic!("no hook"),
    }
    deployment.record_hook(ended(true, Some(0)));
    assert!(matches!(deployment.next_step(), DeployStep::Done));
    let result = deployment.finish();
    assert_eq!(result.domain, "example.com");
    let told: Vec<(&str, bool)> =
        result.hooks.iter().map(|h| (h.command.as_str(), h.success)).collect();
    assert_eq!(told, vec![("one", false), ("two", true)]);
    assert_eq!(result.verification, None);
}

#[test]
fn servers_are_checked_where_configured_and_expected() {
    let expected = Some("aa".to_string());
    for (setting, fingerprint, checked) in [
        (Some(true), expected.clone(), true),
        (Some(true), None, false),
        (Some(false), expected.clone(), false),
        (None, expected.clone(), false),
    ] {
        let deployment = deployer().deploy_domain(&domain(None, setting), fingerprint);
        if checked {
            assert!(matches!(deployment.next_step(), DeployStep::Verify { wait_secs: 5 }));
        } else {
            assert!(matches!(deployment.next_step(), DeployStep::Done));
        }
    }
    for (seen, passed) in [(Some("aa"), true), (Some("bb"), false), (None, false)] {
        let mut deployment =
            deployer().deploy_domain(&domain(Some(Vec::new()), Some(true)), expected.clone());
        deployment.record_scan(&scan(seen));
        assert!(matches!(deployment.next_step(), DeployStep::Done));
        let result = deployment.finish();
        assert_eq!(result.verification, Some(Ok(passed)));
        assert_eq!(result.verification_passed(), passed);
        assert_eq!(verify_deployment(&scan(seen), "aa"), passed);
    }
}

#[test]
fn complaints_name_every_failure() {
    let result = DeployResult {
        domain: "d".to_string(),
        hooks: vec![hook(true), hook(false), hook(false)],
        verification: Some(Ok(false)),
    };
    assert!(!result.all_hooks_successful());
    assert!(!result.verification_passed());
    assert_eq!(result.has_errors(), vec![
        "Hook 'cmd' failed: o",
        "Hook 'cmd' failed: o",
        "Verification failed: certificate fingerprint mismatch",
    ]);
    let broken = DeployResult {
        domain: "d".to_string(),
        hooks: Vec::new(),
        verification: Some(Err("why".to_string())),
    };
    assert!(broken.all_hooks_successful());
    assert!(!broken.verification_passed());
    assert_eq!(broken.has_errors(), vec!["Verification error: why"]);
    for verification in [None, Some(Ok(true))] {
        let fine = DeployResult { domain: "d".to_string(), hooks: vec![hook(true)], verification };
        assert!(fine.has_errors().is_empty());
    }
    assert_eq!(hook(true).clone().command, "cmd");
}
