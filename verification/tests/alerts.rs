use cert_monitor::clock::Timestamp;
use cert_monitor::config::{Config, DingTalkConfig, GlobalConfig, SlackConfig, SmtpConfig};
use cert_monitor::notify::{
    check_addresses, check_dingtalk_code, dingtalk_outcome, dingtalk_status_outcome,
    format_dingtalk, format_dingtalk_url, format_email, format_slack, judge_addresses,
    signed_dingtalk_url, slack_outcome, uses_tls, Notifier, SentChannels,
};
use cert_monitor::state::StateManager;
use cert_monitor::types::{AlertLevel, CertificateInfo, OcspStatus};
use std::sync::Arc;

const DAY: i64 = 86_400;

fn at(secs: i64) -> Timestamp {
    Timestamp::from_parts(secs, 0).unwrap()
}

fn certificate(days: i64) -> CertificateInfo {
    CertificateInfo {
        domain: "example.com".to_string(),
        subject: "CN=example.com".to_string(),
        san_list: vec!["example.com".to_string(), "www.example.com".to_string()],
        issuer: "CN=Authority".to_string(),
        not_before: at(0),
        not_after: at(1_700_000_000 + days * DAY),
        fingerprint_sha256: "aa:bb".to_string(),
        chain_complete: true,
        ocsp_status: OcspStatus::Good,
        source: "x".to_string(),
    }
}

fn smtp() -> SmtpConfig {
    SmtpConfig {
        host: "mail.example.com".to_string(),
        port: 465,
        username: "u".to_string(),
        password: "p".to_string(),
        from: "Monitor <monitor@example.com>".to_string(),
        to: vec!["a@example.com".to_string(), "b@example.com".to_string()],
        use_tls: None,
    }
}

fn slack() -> SlackConfig {
    SlackConfig { webhook_url: "https://hooks.slack.test/x".to_string(), channel: None }
}

fn dingtalk(secret: Option<&str>) -> DingTalkConfig {
    DingTalkConfig {
        webhook_url: "https://oapi.dingtalk.test/robot/send?access_token=t".to_string(),
        secret: secret.map(|s| s.to_string()),
    }
}

fn config(with_channels: bool) -> Config {
    let with = |b: bool| b && with_channels;
    Config {
        global: GlobalConfig {
            state_file: None,
            concurrency: None,
            connect_timeout: None,
            acme_account_email: String::new(),
            acme_directory: None,
            default_dns_provider: None,
            renew_threshold_days: None,
            hook_timeout: None,
            notification_debounce_hours: None,
            smtp: if with(true) { Some(smtp()) } else { None },
            slack: if with(true) { Some(slack()) } else { None },
            dingtalk: if with(true) { Some(dingtalk(None)) } else { None },
        },
        domains: Vec::new(),
        sources: None,
    }
}

#[test]
fn mails_tell_of_the_certificate() {
    let mail = format_email(&certificate(5), &AlertLevel::Critical, 5);
    assert_eq!(mail.subject, "[CRITICAL] SSL证书预警: example.com 剩余5天");
    assert_eq!(
        mail.body,
        "SSL证书到期预警通知\n\n域名: example.com\n剩余天数: 5\n预警级别: CRITICAL\n证书主题: CN=example.com\n颁发者: CN=Authority\n有效期至: 2023-11-19 22:13:20 UTC\nSAN列表: example.com, www.example.com\n指纹(SHA256): aa:bb\n\n请及时处理!"
    );
    let late = format_email(&certificate(-2), &AlertLevel::Emergency, -2);
    assert_eq!(late.subject, "[EMERGENCY] SSL证书预警: example.com 剩余-2天");
}

#[test]
fn mails_are_encrypted_unless_switched_off() {
    let mut settings = smtp();
    assert!(uses_tls(&settings));
    settings.use_tls = Some(true);
    assert!(uses_tls(&settings));
    settings.use_tls = Some(false);
    assert!(!uses_tls(&settings));
}

#[test]
fn addresses_of_mails_are_checked() {
    let mut settings = smtp();
    assert_eq!(check_addresses(&settings), Ok(()));
    settings.to.push("not an address".to_string());
    assert_eq!(check_addresses(&settings), Err("Invalid to address".to_string()));
    settings.from = "nobody".to_string();
    assert_eq!(check_addresses(&settings), Err("Invalid from address".to_string()));
    settings.from = "nobody@example.com".to_string();
    settings.to = Vec::new();
    assert_eq!(check_addresses(&settings), Ok(()));
    assert_eq!(judge_addresses(true, &vec![true, true]), Ok(()));
    assert_eq!(judge_addresses(true, &vec![true, false]), Err("Invalid to address".to_string()));
    assert_eq!(judge_addresses(false, &vec![false]), Err("Invalid from address".to_string()));
}

#[test]
fn messages_to_slack_have_six_fields() {
    let mut settings = slack();
    settings.channel = Some("#ops".to_string());
    let message = format_slack(&settings, &certificate(20), &AlertLevel::Warning, 20);
    assert_eq!(message.text, "[WARNING] SSL证书预警: example.com");
    assert_eq!(message.channel.as_deref(), Some("#ops"));
    assert_eq!(message.attachments.len(), 1);
    let attachment = &message.attachments[0];
    assert_eq!(attachment.color, "#ffa500");
    assert_eq!(attachment.title, "example.com");
    let fields: Vec<(&str, &str, bool)> = attachment
        .fields
        .iter()
        .map(|f| (f.title.as_str(), f.value.as_str(), f.short))
        .collect();
    assert_eq!(fields, vec![
        ("预警级别", "WARNING", true),
        ("到期时间", "剩余 20 天过期", true),
        ("颁发者", "CN=Authority", false),
        ("有效期至", "2023-12-04 22:13 UTC", false),
        ("SAN列表", "example.com, www.example.com", false),
        ("证书指纹", "aa:bb", false),
    ]);
    for (level, color) in [
        (AlertLevel::Info, "#36a64f"),
        (AlertLevel::Critical, "#ff0000"),
        (AlertLevel::Emergency, "#dc143c"),
    ] {
        let message = format_slack(&slack(), &certificate(-3), &level, -3);
        assert_eq!(message.attachments[0].color, color);
        assert_eq!(message.attachments[0].fields[1].value, "证书已过期 3 天");
        assert_eq!(message.channel, None);
    }
}

#[test]
fn messages_to_dingtalk_are_for_everyone() {
    let now = at(1_700_000_000);
    let message = format_dingtalk(&dingtalk(None), &certificate(0), &AlertLevel::Critical, 0, now);
    assert_eq!(message.url, "https://oapi.dingtalk.test/robot/send?access_token=t");
    assert_eq!(message.msgtype, "markdown");
    assert!(message.at.is_at_all);
    assert_eq!(message.markdown.title, "[CRITICAL] SSL证书预警: example.com");
    assert_eq!(
        message.markdown.text,
        "### SSL证书到期预警\n\n**域名**: example.com\n\n**预警级别**: CRITICAL\n\n**到期状态**: 剩余 0 天\n\n**证书主题**: CN=example.com\n\n**颁发者**: CN=Authority\n\n**有效期至**: 2023-11-14 22:13:20 UTC\n\n**SAN列表**: example.com, www.example.com\n\n**指纹(SHA256)**: aa:bb\n\n> 请及时处理!"
    );
    let late = format_dingtalk(&dingtalk(None), &certificate(-1), &AlertLevel::Emergency, -1, now);
    assert!(late.markdown.text.contains("**到期状态**: 已过期 1 天\n"));
}

#[test]
fn addresses_for_dingtalk_are_signed_with_the_secret() {
    let now = Timestamp::from_parts(1_700_000_000, 123_456_789).unwrap();
    assert_eq!(
        format_dingtalk_url(&dingtalk(Some("SECabc")), now),
        "https://oapi.dingtalk.test/robot/send?access_token=t&timestamp=1700000000123&sign=IqXBU%2FaLfwMA3S%2FtDcfRmHx5vWHw9Y1aOgFLBr1Ti9w%3D"
    );
    assert_eq!(
        format_dingtalk_url(&dingtalk(None), now),
        "https://oapi.dingtalk.test/robot/send?access_token=t"
    );
    assert_eq!(signed_dingtalk_url("u", -5, "a+/=é"), "u&timestamp=-5&sign=a%2B%2F%3D%C3%A9");
}

#[test]
fn replies_of_webhooks_are_judged_by_status() {
    assert_eq!(slack_outcome(true, "200 OK", "ok"), Ok(()));
    assert_eq!(
        slack_outcome(false, "404 Not Found", "no_team"),
        Err("Slack webhook failed (404 Not Found): no_team".to_string())
    );
    assert_eq!(dingtalk_status_outcome(true, "200 OK", ""), Ok(()));
    assert_eq!(
        dingtalk_status_outcome(false, "500 Internal Server Error", ""),
        Err("DingTalk webhook failed (500 Internal Server Error): ".to_string())
    );
}

#[test]
fn replies_of_dingtalk_carry_a_code() {
    assert_eq!(dingtalk_outcome(b"{\"errcode\":0,\"errmsg\":\"ok\"}"), Ok(()));
    assert_eq!(
        dingtalk_outcome(b"{\"errcode\":310000,\"errmsg\":\"sign not match\"}"),
        Err("DingTalk webhook returned error: sign not match".to_string())
    );
    for body in [&b""[..], b"null", b"{}", b"{\"errcode\":\"0\"}", b"[1]", b"{\"errcode\":0.5}"] {
        assert_eq!(
            dingtalk_outcome(body),
            Err("DingTalk webhook returned error: unknown".to_string())
        );
    }
    assert_eq!(check_dingtalk_code(Some(0), None), Ok(()));
    assert_eq!(check_dingtalk_code(Some(0), Some("x".to_string())), Ok(()));
    assert_eq!(
        check_dingtalk_code(None, Some("x".to_string())),
        Err("DingTalk webhook returned error: x".to_string())
    );
    assert_eq!(
        check_dingtalk_code(Some(-1), None),
        Err("DingTalk webhook returned error: unknown".to_string())
    );
}

#[test]
fn alerts_are_prepared_for_configured_channels() {
    let now = at(1_700_000_000);
    let all = Notifier::new(Arc::new(config(true)), StateManager::new(None));
    let alert = all.prepare_alert_at(&certificate(3), now).unwrap();
    assert_eq!(alert.level, AlertLevel::Critical);
    assert!(alert.email.unwrap().subject.contains("剩余3天"));
    assert_eq!(alert.slack.unwrap().attachments[0].fields[1].value, "剩余 3 天过期");
    assert!(alert.dingtalk.unwrap().markdown.text.contains("剩余 3 天"));
    let none = Notifier::new(Arc::new(config(false)), StateManager::new(None));
    let alert = none.prepare_alert_at(&certificate(45), now).unwrap();
    assert_eq!(alert.level, AlertLevel::Info);
    assert!(alert.email.is_none() && alert.slack.is_none() && alert.dingtalk.is_none());
    assert!(none.prepare_alert_at(&certificate(61), now).is_none());
    assert!(none.prepare_alert(&certificate(100_000)).is_none());
    assert_eq!(none.level_due_at(&certificate(60), now), Some(AlertLevel::Info));
}

#[test]
fn sent_alerts_wait_and_unsent_ones_do_not() {
    let now = at(1_700_000_000);
    let mut notifier = Notifier::new(Arc::new(config(true)), StateManager::new(None));
    let nothing = SentChannels { email: false, slack: false, dingtalk: false };
    assert!(notifier.conclude_alert_at("example.com", AlertLevel::Critical, nothing, now).is_empty());
    assert!(notifier.prepare_alert_at(&certificate(3), now).is_some());
    assert_eq!(notifier.state_manager().state().domains.len(), 0);
    let some = SentChannels { email: true, slack: false, dingtalk: true };
    assert_eq!(
        notifier.conclude_alert_at("example.com", AlertLevel::Critical, some, now),
        vec!["email", "dingtalk"]
    );
    assert_eq!(notifier.state_manager().state().updated_at, now);
    assert!(notifier.prepare_alert_at(&certificate(3), now).is_none());
    assert!(notifier.prepare_alert_at(&certificate(3), at(now.seconds() + DAY - 1)).is_none());
    assert!(notifier.prepare_alert_at(&certificate(3), at(now.seconds() + DAY)).is_some());
    assert!(notifier.prepare_alert_at(&certificate(20), now).is_some());
    let slack_only = SentChannels { email: false, slack: true, dingtalk: false };
    assert_eq!(
        notifier.conclude_alert("other.com", AlertLevel::Info, slack_only),
        vec!["slack"]
    );
    assert_eq!(notifier.state_manager().state().domains.len(), 2);
}
