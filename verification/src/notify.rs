//! Alerts about certificates: when they are sent, and what they say.
use crate::clock::{self, Timestamp};
use crate::config::{Config, DingTalkConfig, SlackConfig, SmtpConfig};
use crate::signing::{
    self, base64_text, hmac_sha256_digest, percent_encode, read_json_number, read_json_text,
};
use crate::state::StateManager;
use crate::text::{self, join, push_magnitude, push_signed};
use crate::types::{
    self, clone_optional_text, AlertLevel, AppView, CertificateInfo, CertificateView,
};
use std::sync::Arc;
use vstd::prelude::*;
use vstd::utf8::encode_utf8;

verus! {

/// Sends alerts, and remembers when it did.
#[derive(Debug)]
pub struct Notifier {
    config: Arc<Config>,
    state_manager: StateManager,
}

/// A mail about a certificate.
#[derive(Debug)]
pub struct EmailMessage {
    pub subject: String,
    pub body: String,
}

/// The subject of the mail about a certificate.
pub open spec fn email_subject(cert: CertificateView, level: AlertLevel, days: int) -> Seq<char> {
    "["@ + level.name() + "] SSL证书预警: "@ + cert.domain + " 剩余"@ + text::signed_decimal(days)
        + "天"@
}

/// The body of the mail about a certificate.
pub open spec fn email_body(cert: CertificateView, level: AlertLevel, days: int) -> Seq<char> {
    "SSL证书到期预警通知\n\n域名: "@ + cert.domain + "\n剩余天数: "@ + text::signed_decimal(days)
        + "\n预警级别: "@ + level.name() + "\n证书主题: "@ + cert.subject + "\n颁发者: "@ + cert.issuer
        + "\n有效期至: "@ + cert.not_after.text_by("%Y-%m-%d %H:%M:%S UTC"@) + "\nSAN列表: "@
        + text::joined(cert.san_list, ", "@) + "\n指纹(SHA256): "@ + cert.fingerprint_sha256
        + "\n\n请及时处理!"@
}

/// Writes the mail about a certificate with `days` days left.
pub fn format_email(cert: &CertificateInfo, level: &AlertLevel, days: i64) -> (mail: EmailMessage)
    ensures
        mail.subject@ == email_subject(cert@, *level, days as int),
        mail.body@ == email_body(cert@, *level, days as int),
{
    let mut subject = "[".to_owned();
    subject.append(level.as_str());
    subject.append("] SSL证书预警: ");
    subject.append(cert.domain.as_str());
    subject.append(" 剩余");
    push_signed(&mut subject, days);
    subject.append("天");
    let mut body = "SSL证书到期预警通知\n\n域名: ".to_owned();
    body.append(cert.domain.as_str());
    body.append("\n剩余天数: ");
    push_signed(&mut body, days);
    body.append("\n预警级别: ");
    body.append(level.as_str());
    body.append("\n证书主题: ");
    body.append(cert.subject.as_str());
    body.append("\n颁发者: ");
    body.append(cert.issuer.as_str());
    body.append("\n有效期至: ");
    body.append(cert.not_after.format("%Y-%m-%d %H:%M:%S UTC").as_str());
    body.append("\nSAN列表: ");
    body.append(join(&cert.san_list, ", ").as_str());
    body.append("\n指纹(SHA256): ");
    body.append(cert.fingerprint_sha256.as_str());
    body.append("\n\n请及时处理!");
    EmailMessage { subject, body }
}

/// Whether mail is sent over an encrypted connection: unless that is switched off.
pub fn uses_tls(smtp: &SmtpConfig) -> (r: bool)
    ensures
        r == (smtp.use_tls != Some(false)),
{
    match smtp.use_tls {
        Some(use_tls) => use_tls,
        None => true,
    }
}

/// Whether a text is an address of a mailbox, for lettre.
pub uninterp spec fn is_mailbox(text: Seq<char>) -> bool;

/// Whether `str::parse` for `lettre::message::Mailbox` takes a text. That depends on
/// the text alone.
#[verifier::external_body]
fn names_mailbox(text: &str) -> (r: bool)
    ensures
        r == is_mailbox(text@),
{
    text.parse::<lettre::message::Mailbox>().is_ok()
}

/// Whether the addresses of a mail are addresses, and which ones are not.
pub open spec fn addresses_outcome(from: bool, to: Seq<bool>) -> Result<(), Seq<char>> {
    if !from {
        Err("Invalid from address"@)
    } else if to.contains(false) {
        Err("Invalid to address"@)
    } else {
        Ok(())
    }
}

/// Whether each of some texts is an address of a mailbox.
pub open spec fn are_mailboxes(list: Seq<Seq<char>>) -> Seq<bool> {
    Seq::new(list.len(), |i: int| is_mailbox(list[i]))
}

/// Decides on a mail, given whether its addresses are addresses.
pub fn judge_addresses(from: bool, to: &Vec<bool>) -> (r: Result<(), String>)
    ensures
        sending_view(r) == addresses_outcome(from, to@),
{
    if !from {
        return Err("Invalid from address".to_owned());
    }
    let mut i: usize = 0;
    while i < to.len()
        invariant
            i <= to.len(),
            from,
            forall|j: int| 0 <= j < i ==> #[trigger] to@[j],
        decreases to.len() - i,
    {
        if !to[i] {
            assert(to@[i as int] == false);
            return Err("Invalid to address".to_owned());
        }
        i += 1;
    }
    Ok(())
}

/// Whether the addresses of the configured mails are addresses.
pub fn check_addresses(smtp: &SmtpConfig) -> (r: Result<(), String>)
    ensures
        sending_view(r) == addresses_outcome(
            is_mailbox(smtp.from@),
            are_mailboxes(text::texts(smtp.to@)),
        ),
{
    let from = names_mailbox(smtp.from.as_str());
    let mut to: Vec<bool> = Vec::new();
    let mut i: usize = 0;
    while i < smtp.to.len()
        invariant
            i <= smtp.to.len(),
            to.len() == i,
            forall|j: int| 0 <= j < i ==> #[trigger] to@[j] == is_mailbox(smtp.to@[j]@),
        decreases smtp.to.len() - i,
    {
        to.push(names_mailbox(smtp.to[i].as_str()));
        i += 1;
    }
    assert(to@ =~= are_mailboxes(text::texts(smtp.to@)));
    judge_addresses(from, &to)
}

/// A field of a message to Slack.
#[derive(Debug)]
pub struct SlackField {
    pub title: String,
    pub value: String,
    pub short: bool,
}

/// What a `SlackField` says.
pub struct SlackFieldView {
    pub title: Seq<char>,
    pub value: Seq<char>,
    pub short: bool,
}

impl View for SlackField {
    type V = SlackFieldView;

    open spec fn view(&self) -> SlackFieldView {
        SlackFieldView { title: self.title@, value: self.value@, short: self.short }
    }
}

/// What a list of fields says.
pub open spec fn field_views(fields: Seq<SlackField>) -> Seq<SlackFieldView> {
    Seq::new(fields.len(), |i: int| fields[i]@)
}

/// An attachment of a message to Slack.
#[derive(Debug)]
pub struct SlackAttachment {
    pub color: String,
    pub title: String,
    pub fields: Vec<SlackField>,
}

/// What a `SlackAttachment` says.
#[verifier::ext_equal]
pub struct SlackAttachmentView {
    pub color: Seq<char>,
    pub title: Seq<char>,
    pub fields: Seq<SlackFieldView>,
}

impl View for SlackAttachment {
    type V = SlackAttachmentView;

    open spec fn view(&self) -> SlackAttachmentView {
        SlackAttachmentView {
            color: self.color@,
            title: self.title@,
            fields: field_views(self.fields@),
        }
    }
}

/// A message to Slack. As JSON, it is an object with the members of the same names;
/// that of the channel is left out where there is none.
#[derive(Debug)]
pub struct SlackMessage {
    pub text: String,
    pub attachments: Vec<SlackAttachment>,
    pub channel: Option<String>,
}

/// What a `SlackMessage` says.
#[verifier::ext_equal]
pub struct SlackView {
    pub text: Seq<char>,
    pub attachments: Seq<SlackAttachmentView>,
    pub channel: Option<Seq<char>>,
}

impl View for SlackMessage {
    type V = SlackView;

    open spec fn view(&self) -> SlackView {
        SlackView {
            text: self.text@,
            attachments: Seq::new(self.attachments@.len(), |i: int| self.attachments@[i]@),
            channel: types::optional_text(self.channel),
        }
    }
}

/// The colour of a level in Slack.
pub open spec fn slack_color(level: AlertLevel) -> Seq<char> {
    match level {
        AlertLevel::Info => "#36a64f"@,
        AlertLevel::Warning => "#ffa500"@,
        AlertLevel::Critical => "#ff0000"@,
        AlertLevel::Emergency => "#dc143c"@,
    }
}

/// The title of an alert.
pub open spec fn alert_title(cert: CertificateView, level: AlertLevel) -> Seq<char> {
    "["@ + level.name() + "] SSL证书预警: "@ + cert.domain
}

/// What is left of a certificate's validity, for Slack.
pub open spec fn slack_days_text(days: int) -> Seq<char> {
    if days < 0 {
        "证书已过期 "@ + text::decimal((-days) as nat) + " 天"@
    } else {
        "剩余 "@ + text::decimal(days as nat) + " 天过期"@
    }
}

/// The fields of the message to Slack about a certificate.
pub open spec fn slack_fields(cert: CertificateView, level: AlertLevel, days: int) -> Seq<
    SlackFieldView,
> {
    seq![
        SlackFieldView { title: "预警级别"@, value: level.name(), short: true },
        SlackFieldView { title: "到期时间"@, value: slack_days_text(days), short: true },
        SlackFieldView { title: "颁发者"@, value: cert.issuer, short: false },
        SlackFieldView {
            title: "有效期至"@,
            value: cert.not_after.text_by("%Y-%m-%d %H:%M UTC"@),
            short: false,
        },
        SlackFieldView {
            title: "SAN列表"@,
            value: text::joined(cert.san_list, ", "@),
            short: false,
        },
        SlackFieldView { title: "证书指纹"@, value: cert.fingerprint_sha256, short: false },
    ]
}

/// The message to Slack about a certificate.
pub open spec fn slack_view(
    slack: SlackConfig,
    cert: CertificateView,
    level: AlertLevel,
    days: int,
) -> SlackView {
    SlackView {
        text: alert_title(cert, level),
        attachments: seq![
            SlackAttachmentView {
                color: slack_color(level),
                title: cert.domain,
                fields: slack_fields(cert, level, days),
            },
        ],
        channel: types::optional_text(slack.channel),
    }
}

fn format_alert_title(cert: &CertificateInfo, level: &AlertLevel) -> (title: String)
    ensures
        title@ == alert_title(cert@, *level),
{
    let mut title = "[".to_owned();
    title.append(level.as_str());
    title.append("] SSL证书预警: ");
    title.append(cert.domain.as_str());
    title
}

fn slack_field(title: &str, value: String, short: bool) -> (field: SlackField)
    ensures
        field@ == (SlackFieldView { title: title@, value: value@, short }),
{
    SlackField { title: title.to_owned(), value, short }
}

/// Writes the message to Slack about a certificate with `days` days left.
pub fn format_slack(
    slack: &SlackConfig,
    cert: &CertificateInfo,
    level: &AlertLevel,
    days: i64,
) -> (message: SlackMessage)
    ensures
        message@ == slack_view(*slack, cert@, *level, days as int),
{
    let color = match level {
        AlertLevel::Info => "#36a64f",
        AlertLevel::Warning => "#ffa500",
        AlertLevel::Critical => "#ff0000",
        AlertLevel::Emergency => "#dc143c",
    };
    let days_text = if days < 0 {
        let mut t = "证书已过期 ".to_owned();
        push_magnitude(&mut t, days);
        t.append(" 天");
        t
    } else {
        let mut t = "剩余 ".to_owned();
        push_magnitude(&mut t, days);
        t.append(" 天过期");
        t
    };
    let fields = vec![
        slack_field("预警级别", level.as_str().to_owned(), true),
        slack_field("到期时间", days_text, true),
        slack_field("颁发者", cert.issuer.clone(), false),
        slack_field("有效期至", cert.not_after.format("%Y-%m-%d %H:%M UTC"), false),
        slack_field("SAN列表", join(&cert.san_list, ", "), false),
        slack_field("证书指纹", cert.fingerprint_sha256.clone(), false),
    ];
    assert(field_views(fields@) =~= slack_fields(cert@, *level, days as int));
    let attachment = SlackAttachment {
        color: color.to_owned(),
        title: cert.domain.clone(),
        fields,
    };
    SlackMessage {
        text: format_alert_title(cert, level),
        attachments: vec![attachment],
        channel: clone_optional_text(&slack.channel),
    }
}

/// What is left of a certificate's validity, for DingTalk.
pub open spec fn dingtalk_days_text(days: int) -> Seq<char> {
    if days < 0 {
        "已过期 "@ + text::decimal((-days) as nat) + " 天"@
    } else {
        "剩余 "@ + text::decimal(days as nat) + " 天"@
    }
}

/// The text of the message to DingTalk about a certificate.
pub open spec fn dingtalk_text(cert: CertificateView, level: AlertLevel, days: int) -> Seq<char> {
    "### SSL证书到期预警\n\n**域名**: "@ + cert.domain + "\n\n**预警级别**: "@ + level.name()
        + "\n\n**到期状态**: "@ + dingtalk_days_text(days) + "\n\n**证书主题**: "@ + cert.subject
        + "\n\n**颁发者**: "@ + cert.issuer + "\n\n**有效期至**: "@ + cert.not_after.text_by(
        "%Y-%m-%d %H:%M:%S UTC"@,
    ) + "\n\n**SAN列表**: "@ + text::joined(cert.san_list, ", "@) + "\n\n**指纹(SHA256)**: "@
        + cert.fingerprint_sha256 + "\n\n> 请及时处理!"@
}

/// What a message to DingTalk shows.
#[derive(Debug)]
pub struct DingTalkMarkdown {
    pub title: String,
    pub text: String,
}

/// Whom a message to DingTalk is for.
#[derive(Debug, Clone, Copy, PartialEq, Eq, Structural)]
pub struct DingTalkAudience {
    pub is_at_all: bool,
}

/// A message to DingTalk, and where to send it. As JSON, it is an object with the
/// members of the same names, `is_at_all` written as `isAtAll`, without the address.
#[derive(Debug)]
pub struct DingTalkMessage {
    pub url: String,
    pub msgtype: String,
    pub markdown: DingTalkMarkdown,
    pub at: DingTalkAudience,
}

/// Whether this is the message to DingTalk about a certificate: in Markdown, and for
/// everyone.
pub open spec fn is_dingtalk_message(
    message: DingTalkMessage,
    dingtalk: DingTalkConfig,
    cert: CertificateView,
    level: AlertLevel,
    days: int,
    now: Timestamp,
) -> bool {
    &&& message.url@ == dingtalk_url(dingtalk, now)
    &&& message.msgtype@ == "markdown"@
    &&& message.markdown.title@ == alert_title(cert, level)
    &&& message.markdown.text@ == dingtalk_text(cert, level, days)
    &&& message.at.is_at_all
}

/// What is signed for DingTalk: the time in milliseconds and the secret.
pub open spec fn dingtalk_signed_text(secret: Seq<char>, millis: int) -> Seq<char> {
    text::signed_decimal(millis) + "\n"@ + secret
}

/// The signature for DingTalk.
pub open spec fn dingtalk_signature(secret: Seq<char>, millis: int) -> Seq<char> {
    signing::base64(
        signing::hmac_sha256(
            encode_utf8(secret),
            encode_utf8(dingtalk_signed_text(secret, millis)),
        ),
    )
}

/// The address with a signature: that of the webhook, the time and the signature.
pub open spec fn dingtalk_signed_url(
    webhook_url: Seq<char>,
    millis: int,
    signature: Seq<char>,
) -> Seq<char> {
    webhook_url + "&timestamp="@ + text::signed_decimal(millis) + "&sign="@
        + signing::percent_encoded_text(signature)
}

/// The address that a message to DingTalk is sent to: signed where there is a secret.
pub open spec fn dingtalk_url(dingtalk: DingTalkConfig, now: Timestamp) -> Seq<char> {
    match dingtalk.secret {
        Some(secret) => dingtalk_signed_url(
            dingtalk.webhook_url@,
            now.millis(),
            dingtalk_signature(secret@, now.millis()),
        ),
        None => dingtalk.webhook_url@,
    }
}

/// Writes the address with a signature.
pub fn signed_dingtalk_url(webhook_url: &str, millis: i64, signature: &str) -> (url: String)
    ensures
        url@ == dingtalk_signed_url(webhook_url@, millis as int, signature@),
{
    let encoded = percent_encode(signature.as_bytes());
    let mut url = webhook_url.to_owned();
    url.append("&timestamp=");
    push_signed(&mut url, millis);
    url.append("&sign=");
    url.append(encoded.as_str());
    url
}

/// The address that a message to DingTalk is sent to at `now`.
pub fn format_dingtalk_url(dingtalk: &DingTalkConfig, now: Timestamp) -> (url: String)
    ensures
        url@ == dingtalk_url(*dingtalk, now),
{
    match &dingtalk.secret {
        Some(secret) => {
            let millis = now.milliseconds();
            let mut signed_text = String::new();
            push_signed(&mut signed_text, millis);
            signed_text.append("\n");
            signed_text.append(secret.as_str());
            assert(signed_text@ =~= dingtalk_signed_text(secret@, millis as int));
            let digest = hmac_sha256_digest(secret.as_str().as_bytes(), signed_text.as_str().as_bytes());
            let signature = base64_text(digest.as_slice());
            signed_dingtalk_url(dingtalk.webhook_url.as_str(), millis, signature.as_str())
        },
        None => dingtalk.webhook_url.clone(),
    }
}

/// Writes the message to DingTalk about a certificate with `days` days left.
pub fn format_dingtalk(
    dingtalk: &DingTalkConfig,
    cert: &CertificateInfo,
    level: &AlertLevel,
    days: i64,
    now: Timestamp,
) -> (message: DingTalkMessage)
    ensures
        is_dingtalk_message(message, *dingtalk, cert@, *level, days as int, now),
{
    let url = format_dingtalk_url(dingtalk, now);
    let title = format_alert_title(cert, level);
    let mut status = if days < 0 {
        "已过期 ".to_owned()
    } else {
        "剩余 ".to_owned()
    };
    push_magnitude(&mut status, days);
    status.append(" 天");
    let mut text = "### SSL证书到期预警\n\n**域名**: ".to_owned();
    text.append(cert.domain.as_str());
    text.append("\n\n**预警级别**: ");
    text.append(level.as_str());
    text.append("\n\n**到期状态**: ");
    text.append(status.as_str());
    text.append("\n\n**证书主题**: ");
    text.append(cert.subject.as_str());
    text.append("\n\n**颁发者**: ");
    text.append(cert.issuer.as_str());
    text.append("\n\n**有效期至**: ");
    text.append(cert.not_after.format("%Y-%m-%d %H:%M:%S UTC").as_str());
    text.append("\n\n**SAN列表**: ");
    text.append(join(&cert.san_list, ", ").as_str());
    text.append("\n\n**指纹(SHA256)**: ");
    text.append(cert.fingerprint_sha256.as_str());
    text.append("\n\n> 请及时处理!");
    DingTalkMessage {
        url,
        msgtype: "markdown".to_owned(),
        markdown: DingTalkMarkdown { title, text },
        at: DingTalkAudience { is_at_all: true },
    }
}

/// The outcome of a message as texts.
pub open spec fn sending_view(r: Result<(), String>) -> Result<(), Seq<char>> {
    match r {
        Ok(()) => Ok(()),
        Err(message) => Err(message@),
    }
}

/// What comes of a reply from a service: a failure unless its status is one of
/// success.
pub open spec fn webhook_outcome(
    service: Seq<char>,
    success: bool,
    status: Seq<char>,
    body: Seq<char>,
) -> Result<(), Seq<char>> {
    if success {
        Ok(())
    } else {
        Err(service + " webhook failed ("@ + status + "): "@ + body)
    }
}

fn check_webhook(service: &str, success: bool, status: &str, body: &str) -> (r: Result<(), String>)
    ensures
        sending_view(r) == webhook_outcome(service@, success, status@, body@),
{
    if success {
        Ok(())
    } else {
        let mut message = service.to_owned();
        message.append(" webhook failed (");
        message.append(status);
        message.append("): ");
        message.append(body);
        Err(message)
    }
}

/// Whether Slack took a message, by the status of its reply.
pub fn slack_outcome(success: bool, status: &str, body: &str) -> (r: Result<(), String>)
    ensures
        sending_view(r) == webhook_outcome("Slack"@, success, status@, body@),
{
    check_webhook("Slack", success, status, body)
}

/// Whether DingTalk took a message, by the status of its reply.
pub fn dingtalk_status_outcome(success: bool, status: &str, body: &str) -> (r: Result<(), String>)
    ensures
        sending_view(r) == webhook_outcome("DingTalk"@, success, status@, body@),
{
    check_webhook("DingTalk", success, status, body)
}

/// What comes of the error code and message in a reply from DingTalk: a failure
/// unless the code is there and is zero.
pub open spec fn dingtalk_code_outcome(code: Option<int>, message: Option<Seq<char>>) -> Result<
    (),
    Seq<char>,
> {
    if code == Some(0int) {
        Ok(())
    } else {
        Err(
            "DingTalk webhook returned error: "@ + match message {
                Some(message) => message,
                None => "unknown"@,
            },
        )
    }
}

/// What comes of an error code and message from DingTalk.
pub fn check_dingtalk_code(code: Option<i64>, message: Option<String>) -> (r: Result<(), String>)
    ensures
        sending_view(r) == dingtalk_code_outcome(
            match code {
                Some(code) => Some(code as int),
                None => None,
            },
            types::optional_text(message),
        ),
{
    let code = match code {
        Some(code) => code,
        None => -1,
    };
    if code == 0 {
        return Ok(());
    }
    let mut error = "DingTalk webhook returned error: ".to_owned();
    match message {
        Some(message) => error.append(message.as_str()),
        None => error.append("unknown"),
    }
    Err(error)
}

/// Whether DingTalk took a message, by the body of a reply with a status of success.
pub fn dingtalk_outcome(body: &[u8]) -> (r: Result<(), String>)
    ensures
        sending_view(r) == dingtalk_code_outcome(
            signing::json_number(body@, "errcode"@),
            signing::json_text(body@, "errmsg"@),
        ),
{
    let code = read_json_number(body, "errcode");
    let message = read_json_text(body, "errmsg");
    check_dingtalk_code(code, message)
}

/// An alert that is due: its level, and the messages for the channels that are
/// configured.
#[derive(Debug)]
pub struct Alert {
    pub level: AlertLevel,
    pub email: Option<EmailMessage>,
    pub slack: Option<SlackMessage>,
    pub dingtalk: Option<DingTalkMessage>,
}

/// On which channels an alert went out.
#[derive(Debug, Clone, Copy, PartialEq, Eq, Structural)]
pub struct SentChannels {
    pub email: bool,
    pub slack: bool,
    pub dingtalk: bool,
}

impl SentChannels {
    /// The names of the channels, in the order in which they are used.
    pub open spec fn names(self) -> Seq<Seq<char>> {
        (if self.email {
            seq!["email"@]
        } else {
            Seq::empty()
        }) + (if self.slack {
            seq!["slack"@]
        } else {
            Seq::empty()
        }) + (if self.dingtalk {
            seq!["dingtalk"@]
        } else {
            Seq::empty()
        })
    }

    /// The names of the channels, in the order in which they are used.
    pub fn channel_names(&self) -> (names: Vec<String>)
        ensures
            text::texts(names@) == self.names(),
    {
        let mut names: Vec<String> = Vec::new();
        if self.email {
            names.push("email".to_owned());
        }
        if self.slack {
            names.push("slack".to_owned());
        }
        if self.dingtalk {
            names.push("dingtalk".to_owned());
        }
        assert(text::texts(names@) =~= self.names());
        names
    }
}

/// The level of the alert that is due about a certificate at `now`: none with enough
/// days left, and none where the last one of that level was too short a time ago.
pub open spec fn due_level(
    config: Config,
    state: AppView,
    cert: CertificateView,
    now: Timestamp,
) -> Option<AlertLevel> {
    match AlertLevel::of_days(clock::elapsed_days(cert.not_after, now)) {
        Some(level) => if state.may_notify(
            cert.domain,
            level,
            config.debounce_hours() as int,
            now,
        ) {
            Some(level)
        } else {
            None
        },
        None => None,
    }
}

impl Alert {
    /// Whether this is the alert of `level` about a certificate at `now`: a message
    /// for each channel that is configured, and for no other.
    pub open spec fn is_about(
        self,
        config: Config,
        cert: CertificateView,
        level: AlertLevel,
        now: Timestamp,
    ) -> bool {
        let days = clock::elapsed_days(cert.not_after, now);
        &&& self.level == level
        &&& match (self.email, config.global.smtp) {
            (Some(mail), Some(_)) => mail.subject@ == email_subject(cert, level, days)
                && mail.body@ == email_body(cert, level, days),
            (None, None) => true,
            _ => false,
        }
        &&& match (self.slack, config.global.slack) {
            (Some(message), Some(slack)) => message@ == slack_view(slack, cert, level, days),
            (None, None) => true,
            _ => false,
        }
        &&& match (self.dingtalk, config.global.dingtalk) {
            (Some(message), Some(dingtalk)) => is_dingtalk_message(
                message,
                dingtalk,
                cert,
                level,
                days,
                now,
            ),
            (None, None) => true,
            _ => false,
        }
    }
}

impl Notifier {
    /// The configuration.
    pub closed spec fn spec_config(&self) -> Config {
        *self.config
    }

    /// What is remembered.
    pub closed spec fn spec_state(&self) -> AppView {
        self.state_manager@
    }

    /// What is remembered is well-formed.
    pub closed spec fn wf(&self) -> bool {
        self.state_manager.wf()
    }

    pub fn new(config: Arc<Config>, state_manager: StateManager) -> (notifier: Notifier)
        requires
            state_manager.wf(),
        ensures
            notifier.wf(),
            notifier.spec_config() == *config,
            notifier.spec_state() == state_manager@,
    {
        Notifier { config, state_manager }
    }

    /// What is remembered, to be written.
    pub fn state_manager(&self) -> (state_manager: &StateManager)
        requires
            self.wf(),
        ensures
            state_manager@ == self.spec_state(),
            state_manager.wf(),
    {
        &self.state_manager
    }

    /// The level of the alert that is due about a certificate at `now`.
    pub fn level_due_at(&self, cert: &CertificateInfo, now: Timestamp) -> (level: Option<AlertLevel>)
        requires
            self.wf(),
        ensures
            level == due_level(self.spec_config(), self.spec_state(), cert@, now),
    {
        let level = match AlertLevel::from_days(cert.days_remaining_at(now)) {
            Some(level) => level,
            None => return None,
        };
        let debounce_hours = self.config.notification_debounce_hours();
        if self.state_manager.should_send_notification_at(
            cert.domain.as_str(),
            &level,
            debounce_hours,
            now,
        ) {
            Some(level)
        } else {
            None
        }
    }

    /// The messages for the channels that are configured.
    fn messages_at(&self, cert: &CertificateInfo, level: AlertLevel, now: Timestamp) -> (alert: Alert)
        ensures
            alert.is_about(self.spec_config(), cert@, level, now),
    {
        let days = cert.days_remaining_at(now);
        let email = match &self.config.global.smtp {
            Some(_) => Some(format_email(cert, &level, days)),
            None => None,
        };
        let slack = match &self.config.global.slack {
            Some(slack) => Some(format_slack(slack, cert, &level, days)),
            None => None,
        };
        let dingtalk = match &self.config.global.dingtalk {
            Some(dingtalk) => Some(format_dingtalk(dingtalk, cert, &level, days, now)),
            None => None,
        };
        Alert { level, email, slack, dingtalk }
    }

    /// The alert that is due about a certificate at `now`, if one is.
    pub fn prepare_alert_at(&self, cert: &CertificateInfo, now: Timestamp) -> (alert: Option<Alert>)
        requires
            self.wf(),
        ensures
            match due_level(self.spec_config(), self.spec_state(), cert@, now) {
                Some(level) => alert matches Some(alert) && alert.is_about(
                    self.spec_config(),
                    cert@,
                    level,
                    now,
                ),
                None => alert is None,
            },
            alert matches Some(alert) ==> {
                &&& alert.email is Some <==> self.spec_config().global.smtp is Some
                &&& alert.slack is Some <==> self.spec_config().global.slack is Some
                &&& alert.dingtalk is Some <==> self.spec_config().global.dingtalk is Some
            },
    {
        match self.level_due_at(cert, now) {
            Some(level) => Some(self.messages_at(cert, level, now)),
            None => None,
        }
    }

    /// The alert that is due about a certificate at the present instant, if one is.
    pub fn prepare_alert(&self, cert: &CertificateInfo) -> (alert: Option<Alert>)
        requires
            self.wf(),
        ensures
            exists|now: Timestamp|
                now.can_be_now() && match #[trigger] due_level(
                    self.spec_config(),
                    self.spec_state(),
                    cert@,
                    now,
                ) {
                    Some(level) => alert matches Some(alert) && alert.is_about(
                        self.spec_config(),
                        cert@,
                        level,
                        now,
                    ),
                    None => alert is None,
                },
    {
        let now = Timestamp::now();
        self.prepare_alert_at(cert, now)
    }

    /// Takes in on which channels an alert went out at `now`. If it went out at all,
    /// that is remembered, and the state is marked as saved. Hands out the names of
    /// the channels.
    pub fn conclude_alert_at(
        &mut self,
        domain: &str,
        level: AlertLevel,
        sent: SentChannels,
        now: Timestamp,
    ) -> (names: Vec<String>)
        requires
            old(self).wf(),
        ensures
            final(self).wf(),
            final(self).spec_config() == old(self).spec_config(),
            text::texts(names@) == sent.names(),
            final(self).spec_state() == after_alert(
                old(self).spec_state(),
                domain@,
                level,
                sent,
                now,
            ),
    {
        let names = sent.channel_names();
        assert(text::texts(names@).len() == sent.names().len());
        if names.len() > 0 {
            self.state_manager.update_notification_time_at(domain, level, now);
            self.state_manager.save_at(now);
        }
        names
    }

    /// Takes in on which channels an alert went out at the present instant.
    pub fn conclude_alert(
        &mut self,
        domain: &str,
        level: AlertLevel,
        sent: SentChannels,
    ) -> (names: Vec<String>)
        requires
            old(self).wf(),
        ensures
            final(self).wf(),
            final(self).spec_config() == old(self).spec_config(),
            text::texts(names@) == sent.names(),
            exists|now: Timestamp|
                now.can_be_now() && final(self).spec_state() == #[trigger] after_alert(
                    old(self).spec_state(),
                    domain@,
                    level,
                    sent,
                    now,
                ),
    {
        let now = Timestamp::now();
        self.conclude_alert_at(domain, level, sent, now)
    }
}

/// What is remembered after an alert: nothing new where it went out on no channel.
pub open spec fn after_alert(
    state: AppView,
    domain: Seq<char>,
    level: AlertLevel,
    sent: SentChannels,
    now: Timestamp,
) -> AppView {
    if sent.email || sent.slack || sent.dingtalk {
        state.notified(domain, level, now).saved(now)
    } else {
        state
    }
}

/// An alert that went out on some channel is not due again while the debounce time
/// runs; one that went out on none is still due.
pub proof fn sent_alerts_are_not_due_again(
    config: Config,
    state: AppView,
    cert: CertificateView,
    level: AlertLevel,
    sent: SentChannels,
    sent_at: Timestamp,
    now: Timestamp,
)
    requires
        due_level(config, state, cert, sent_at) == Some(level),
    ensures
        sent.names().len() > 0 && clock::elapsed_hours(now, sent_at) < config.debounce_hours()
            ==> due_level(config, after_alert(state, cert.domain, level, sent, sent_at), cert, now)
            != Some(level),
        sent.names().len() == 0 ==> after_alert(state, cert.domain, level, sent, sent_at) == state,
{
}

/// A certificate with more than sixty days left calls for no alert.
pub proof fn fresh_certificates_call_for_no_alert(
    config: Config,
    state: AppView,
    cert: CertificateView,
    now: Timestamp,
)
    requires
        clock::elapsed_days(cert.not_after, now) > 60,
    ensures
        due_level(config, state, cert, now) is None,
{
}

/// The first alert of a level about a domain is due as soon as the level is reached.
pub proof fn first_alerts_are_due_at_once(
    config: Config,
    state: AppView,
    cert: CertificateView,
    level: AlertLevel,
    now: Timestamp,
)
    requires
        AlertLevel::of_days(clock::elapsed_days(cert.not_after, now)) == Some(level),
        state.domain(cert.domain).last_notifications.at(level) is None,
    ensures
        due_level(config, state, cert, now) == Some(level),
{
}

/// Each channel follows its own setting, whatever the others are: there is a mail exactly
/// where mail is configured, and so for Slack and for DingTalk.
pub proof fn each_channel_follows_its_own_setting(
    alert: Alert,
    config: Config,
    cert: CertificateView,
    level: AlertLevel,
    now: Timestamp,
)
    requires
        alert.is_about(config, cert, level, now),
    ensures
        alert.level == level,
        alert.email is Some <==> config.global.smtp is Some,
        alert.slack is Some <==> config.global.slack is Some,
        alert.dingtalk is Some <==> config.global.dingtalk is Some,
{
}

/// What is said on a channel does not depend on the other channels: where two configurations
/// have the same setting for one, they give the same message for it.
pub proof fn channels_do_not_depend_on_each_other(
    alert: Alert,
    other_alert: Alert,
    config: Config,
    other: Config,
    cert: CertificateView,
    level: AlertLevel,
    now: Timestamp,
)
    requires
        alert.is_about(config, cert, level, now),
        other_alert.is_about(other, cert, level, now),
    ensures
        config.global.smtp is Some == other.global.smtp is Some ==> {
            &&& alert.email is Some == other_alert.email is Some
            &&& alert.email matches Some(mail) ==> mail.subject@ == other_alert.email->0.subject@
                && mail.body@ == other_alert.email->0.body@
        },
        config.global.slack == other.global.slack ==> {
            &&& alert.slack is Some == other_alert.slack is Some
            &&& alert.slack matches Some(message) ==> message@ == other_alert.slack->0@
        },
        config.global.dingtalk == other.global.dingtalk ==> {
            &&& alert.dingtalk is Some == other_alert.dingtalk is Some
            &&& alert.dingtalk matches Some(message) ==> {
                &&& message.url@ == other_alert.dingtalk->0.url@
                &&& message.markdown.title@ == other_alert.dingtalk->0.markdown.title@
                &&& message.markdown.text@ == other_alert.dingtalk->0.markdown.text@
            }
        },
{
}

/// The body of a mail tells each thing about the certificate behind its own label.
pub proof fn mails_tell_everything_about_the_certificate(
    cert: CertificateView,
    level: AlertLevel,
    days: int,
)
    ensures
        ({
            let body = email_body(cert, level, days);
            &&& text::has_part(body, "SSL证书到期预警通知\n\n域名: "@ + cert.domain + "\n剩余天数: "@)
            &&& text::has_part(
                body,
                "\n剩余天数: "@ + text::signed_decimal(days) + "\n预警级别: "@,
            )
            &&& text::has_part(body, "\n预警级别: "@ + level.name() + "\n证书主题: "@)
            &&& text::has_part(body, "\n证书主题: "@ + cert.subject + "\n颁发者: "@)
            &&& text::has_part(body, "\n颁发者: "@ + cert.issuer + "\n有效期至: "@)
            &&& text::has_part(
                body,
                "\n有效期至: "@ + clock::time_text(
                    cert.not_after.secs(),
                    cert.not_after.nanos(),
                    "%Y-%m-%d %H:%M:%S UTC"@,
                ) + "\nSAN列表: "@,
            )
            &&& text::has_part(
                body,
                "\nSAN列表: "@ + text::joined(cert.san_list, ", "@) + "\n指纹(SHA256): "@,
            )
            &&& text::has_part(
                body,
                "\n指纹(SHA256): "@ + cert.fingerprint_sha256 + "\n\n请及时处理!"@,
            )
        }),
{
    let none = Seq::<char>::empty();
    let days_text = text::signed_decimal(days);
    let until = cert.not_after.text_by("%Y-%m-%d %H:%M:%S UTC"@);
    let names = text::joined(cert.san_list, ", "@);
    let t1 = "SSL证书到期预警通知\n\n域名: "@ + cert.domain;
    let t2 = t1 + "\n剩余天数: "@ + days_text;
    let t3 = t2 + "\n预警级别: "@ + level.name();
    let t4 = t3 + "\n证书主题: "@ + cert.subject;
    let t5 = t4 + "\n颁发者: "@ + cert.issuer;
    let t6 = t5 + "\n有效期至: "@ + until;
    let t7 = t6 + "\nSAN列表: "@ + names;
    let t8 = t7 + "\n指纹(SHA256): "@ + cert.fingerprint_sha256;
    text::lemma_labelled(none, "SSL证书到期预警通知\n\n域名: "@, cert.domain, "\n剩余天数: "@);
    assert(none + "SSL证书到期预警通知\n\n域名: "@ =~= "SSL证书到期预警通知\n\n域名: "@);
    text::lemma_labelled(t1, "\n剩余天数: "@, days_text, "\n预警级别: "@);
    text::lemma_labelled(t2, "\n预警级别: "@, level.name(), "\n证书主题: "@);
    text::lemma_labelled(t3, "\n证书主题: "@, cert.subject, "\n颁发者: "@);
    text::lemma_labelled(t4, "\n颁发者: "@, cert.issuer, "\n有效期至: "@);
    text::lemma_labelled(t5, "\n有效期至: "@, until, "\nSAN列表: "@);
    text::lemma_labelled(t6, "\nSAN列表: "@, names, "\n指纹(SHA256): "@);
    text::lemma_labelled(t7, "\n指纹(SHA256): "@, cert.fingerprint_sha256, "\n\n请及时处理!"@);
    text::lemma_goes_on(t1 + "\n剩余天数: "@, days_text);
    text::lemma_goes_on(t2, "\n预警级别: "@);
    text::lemma_goes_on(t2 + "\n预警级别: "@, level.name());
    text::lemma_goes_on(t3, "\n证书主题: "@);
    text::lemma_goes_on(t3 + "\n证书主题: "@, cert.subject);
    text::lemma_goes_on(t4, "\n颁发者: "@);
    text::lemma_goes_on(t4 + "\n颁发者: "@, cert.issuer);
    text::lemma_goes_on(t5, "\n有效期至: "@);
    text::lemma_goes_on(t5 + "\n有效期至: "@, until);
    text::lemma_goes_on(t6, "\nSAN列表: "@);
    text::lemma_goes_on(t6 + "\nSAN列表: "@, names);
    text::lemma_goes_on(t7, "\n指纹(SHA256): "@);
    text::lemma_goes_on(t7 + "\n指纹(SHA256): "@, cert.fingerprint_sha256);
    text::lemma_goes_on(t8, "\n\n请及时处理!"@);
}

/// The text of a message to DingTalk tells each thing about the certificate behind its own
/// label.
pub proof fn dingtalk_is_told_everything_about_the_certificate(
    cert: CertificateView,
    level: AlertLevel,
    days: int,
)
    ensures
        ({
            let text = dingtalk_text(cert, level, days);
            &&& text::has_part(
                text,
                "### SSL证书到期预警\n\n**域名**: "@ + cert.domain + "\n\n**预警级别**: "@,
            )
            &&& text::has_part(text, "\n\n**预警级别**: "@ + level.name() + "\n\n**到期状态**: "@)
            &&& text::has_part(
                text,
                "\n\n**到期状态**: "@ + dingtalk_days_text(days) + "\n\n**证书主题**: "@,
            )
            &&& text::has_part(text, "\n\n**证书主题**: "@ + cert.subject + "\n\n**颁发者**: "@)
            &&& text::has_part(text, "\n\n**颁发者**: "@ + cert.issuer + "\n\n**有效期至**: "@)
            &&& text::has_part(
                text,
                "\n\n**有效期至**: "@ + clock::time_text(
                    cert.not_after.secs(),
                    cert.not_after.nanos(),
                    "%Y-%m-%d %H:%M:%S UTC"@,
                ) + "\n\n**SAN列表**: "@,
            )
            &&& text::has_part(
                text,
                "\n\n**SAN列表**: "@ + text::joined(cert.san_list, ", "@)
                    + "\n\n**指纹(SHA256)**: "@,
            )
            &&& text::has_part(
                text,
                "\n\n**指纹(SHA256)**: "@ + cert.fingerprint_sha256 + "\n\n> 请及时处理!"@,
            )
        }),
{
    let none = Seq::<char>::empty();
    let left = dingtalk_days_text(days);
    let until = cert.not_after.text_by("%Y-%m-%d %H:%M:%S UTC"@);
    let names = text::joined(cert.san_list, ", "@);
    let t1 = "### SSL证书到期预警\n\n**域名**: "@ + cert.domain;
    let t2 = t1 + "\n\n**预警级别**: "@ + level.name();
    let t3 = t2 + "\n\n**到期状态**: "@ + left;
    let t4 = t3 + "\n\n**证书主题**: "@ + cert.subject;
    let t5 = t4 + "\n\n**颁发者**: "@ + cert.issuer;
    let t6 = t5 + "\n\n**有效期至**: "@ + until;
    let t7 = t6 + "\n\n**SAN列表**: "@ + names;
    let t8 = t7 + "\n\n**指纹(SHA256)**: "@ + cert.fingerprint_sha256;
    text::lemma_labelled(
        none,
        "### SSL证书到期预警\n\n**域名**: "@,
        cert.domain,
        "\n\n**预警级别**: "@,
    );
    assert(none + "### SSL证书到期预警\n\n**域名**: "@ =~= "### SSL证书到期预警\n\n**域名**: "@);
    text::lemma_labelled(t1, "\n\n**预警级别**: "@, level.name(), "\n\n**到期状态**: "@);
    text::lemma_labelled(t2, "\n\n**到期状态**: "@, left, "\n\n**证书主题**: "@);
    text::lemma_labelled(t3, "\n\n**证书主题**: "@, cert.subject, "\n\n**颁发者**: "@);
    text::lemma_labelled(t4, "\n\n**颁发者**: "@, cert.issuer, "\n\n**有效期至**: "@);
    text::lemma_labelled(t5, "\n\n**有效期至**: "@, until, "\n\n**SAN列表**: "@);
    text::lemma_labelled(t6, "\n\n**SAN列表**: "@, names, "\n\n**指纹(SHA256)**: "@);
    text::lemma_labelled(
        t7,
        "\n\n**指纹(SHA256)**: "@,
        cert.fingerprint_sha256,
        "\n\n> 请及时处理!"@,
    );
    text::lemma_goes_on(t1 + "\n\n**预警级别**: "@, level.name());
    text::lemma_goes_on(t2, "\n\n**到期状态**: "@);
    text::lemma_goes_on(t2 + "\n\n**到期状态**: "@, left);
    text::lemma_goes_on(t3, "\n\n**证书主题**: "@);
    text::lemma_goes_on(t3 + "\n\n**证书主题**: "@, cert.subject);
    text::lemma_goes_on(t4, "\n\n**颁发者**: "@);
    text::lemma_goes_on(t4 + "\n\n**颁发者**: "@, cert.issuer);
    text::lemma_goes_on(t5, "\n\n**有效期至**: "@);
    text::lemma_goes_on(t5 + "\n\n**有效期至**: "@, until);
    text::lemma_goes_on(t6, "\n\n**SAN列表**: "@);
    text::lemma_goes_on(t6 + "\n\n**SAN列表**: "@, names);
    text::lemma_goes_on(t7, "\n\n**指纹(SHA256)**: "@);
    text::lemma_goes_on(t7 + "\n\n**指纹(SHA256)**: "@, cert.fingerprint_sha256);
    text::lemma_goes_on(t8, "\n\n> 请及时处理!"@);
}

/// The subject of a mail, and the title of the other messages, begin with the level in
/// brackets and name the domain; the subject ends with the days that are left.
pub proof fn titles_name_level_and_domain(cert: CertificateView, level: AlertLevel, days: int)
    ensures
        text::begins_with(alert_title(cert, level), "["@ + level.name() + "] "@),
        text::ends_with(alert_title(cert, level), ": "@ + cert.domain),
        text::begins_with(email_subject(cert, level, days), alert_title(cert, level)),
        email_subject(cert, level, days).skip(alert_title(cert, level).len() as int) == " 剩余"@
            + text::signed_decimal(days) + "天"@,
{
    reveal_strlit("] ");
    reveal_strlit(": ");
    reveal_strlit("] SSL证书预警: ");
    let title = alert_title(cert, level);
    let head = "["@ + level.name() + "] "@;
    let tail = ": "@ + cert.domain;
    let subject = email_subject(cert, level, days);
    assert(title.take(head.len() as int) =~= head);
    assert(title.skip(title.len() - tail.len()) =~= tail);
    assert(subject.take(title.len() as int) =~= title);
    assert(subject.skip(title.len() as int) =~= " 剩余"@ + text::signed_decimal(days) + "天"@);
}

/// The message to Slack has one attachment, with the domain as its title, which tells each
/// thing about the certificate in a field of its own; it goes to the channel that is
/// configured.
pub proof fn slack_is_told_everything_about_the_certificate(
    slack: SlackConfig,
    cert: CertificateView,
    level: AlertLevel,
    days: int,
)
    ensures
        ({
            let message = slack_view(slack, cert, level, days);
            let fields = message.attachments[0].fields;
            &&& message.text == alert_title(cert, level)
            &&& message.channel is Some == slack.channel is Some
            &&& slack.channel matches Some(channel) ==> message.channel == Some(channel@)
            &&& message.attachments.len() == 1
            &&& message.attachments[0].title == cert.domain
            &&& message.attachments[0].color == slack_color(level)
            &&& fields.len() == 6
            &&& fields.contains(
                SlackFieldView { title: "预警级别"@, value: level.name(), short: true },
            )
            &&& fields.contains(
                SlackFieldView { title: "到期时间"@, value: slack_days_text(days), short: true },
            )
            &&& fields.contains(
                SlackFieldView { title: "颁发者"@, value: cert.issuer, short: false },
            )
            &&& fields.contains(
                SlackFieldView {
                    title: "有效期至"@,
                    value: clock::time_text(
                        cert.not_after.secs(),
                        cert.not_after.nanos(),
                        "%Y-%m-%d %H:%M UTC"@,
                    ),
                    short: false,
                },
            )
            &&& fields.contains(
                SlackFieldView {
                    title: "SAN列表"@,
                    value: text::joined(cert.san_list, ", "@),
                    short: false,
                },
            )
            &&& fields.contains(
                SlackFieldView { title: "证书指纹"@, value: cert.fingerprint_sha256, short: false },
            )
        }),
{
    let fields = slack_fields(cert, level, days);
    assert(fields[0] == SlackFieldView { title: "预警级别"@, value: level.name(), short: true });
    assert(fields[1].value == slack_days_text(days));
    assert(fields[2].value == cert.issuer);
    assert(fields[3].title == "有效期至"@);
    assert(fields[4].title == "SAN列表"@);
    assert(fields[5].value == cert.fingerprint_sha256);
}

/// Both services are told the number of days, without a sign; whether they are left or gone
/// is told by the words before it.
pub proof fn days_are_told_by_their_number(days: int)
    ensures
        days >= 0 ==> {
            &&& slack_days_text(days) == "剩余 "@ + text::decimal(days as nat) + " 天过期"@
            &&& dingtalk_days_text(days) == "剩余 "@ + text::decimal(days as nat) + " 天"@
        },
        days < 0 ==> {
            &&& text::has_part(slack_days_text(days), "已过期 "@ + text::decimal((-days) as nat))
            &&& text::begins_with(
                dingtalk_days_text(days),
                "已过期 "@ + text::decimal((-days) as nat),
            )
            &&& text::ends_with(slack_days_text(days), dingtalk_days_text(days))
        },
{
    if days < 0 {
        reveal_strlit("已过期 ");
        reveal_strlit("证书");
        reveal_strlit("证书已过期 ");
        assert("证书已过期 "@ =~= "证书"@ + "已过期 "@);
        let number = text::decimal((-days) as nat);
        let part = "已过期 "@ + number;
        text::lemma_has_part("证书"@, part, " 天"@);
        assert("证书"@ + part + " 天"@ =~= slack_days_text(days));
        assert(dingtalk_days_text(days).take(part.len() as int) =~= part);
        let whole = slack_days_text(days);
        let tail = dingtalk_days_text(days);
        assert(whole.skip(whole.len() - tail.len()) =~= tail);
    }
}

/// Each level has a colour of its own.
pub proof fn levels_have_their_own_colours(a: AlertLevel, b: AlertLevel)
    ensures
        slack_color(a) == slack_color(b) ==> a == b,
        a.name() == b.name() ==> a == b,
{
    reveal_strlit("#36a64f");
    reveal_strlit("#ffa500");
    reveal_strlit("#ff0000");
    reveal_strlit("#dc143c");
    reveal_strlit("INFO");
    reveal_strlit("WARNING");
    reveal_strlit("CRITICAL");
    reveal_strlit("EMERGENCY");
    assert("#36a64f"@[1] == '3' && "#ffa500"@[1] == 'f' && "#ff0000"@[1] == 'f' && "#dc143c"@[1]
        == 'd');
    assert("#ffa500"@[3] == 'a' && "#ff0000"@[3] == '0');
    assert("INFO"@.len() == 4 && "WARNING"@.len() == 7 && "CRITICAL"@.len() == 8
        && "EMERGENCY"@.len() == 9);
}

/// A message to DingTalk goes to the address of the webhook: to that alone where there is no
/// secret, and otherwise with the time and the signature of the time and the secret behind
/// it.
pub proof fn dingtalk_messages_go_to_the_webhook(dingtalk: DingTalkConfig, now: Timestamp)
    ensures
        text::begins_with(dingtalk_url(dingtalk, now), dingtalk.webhook_url@),
        dingtalk.secret is None ==> dingtalk_url(dingtalk, now) == dingtalk.webhook_url@,
        dingtalk.secret matches Some(secret) ==> {
            let millis = text::signed_decimal(now.secs() * 1000 + now.nanos() / 1_000_000);
            let signature = signing::base64(
                signing::hmac_sha256(
                    encode_utf8(secret@),
                    encode_utf8(millis + "\n"@ + secret@),
                ),
            );
            &&& text::has_part(dingtalk_url(dingtalk, now), "&timestamp="@ + millis + "&sign="@)
            &&& text::ends_with(
                dingtalk_url(dingtalk, now),
                "&sign="@ + signing::percent_encoded_text(signature),
            )
        },
{
    let url = dingtalk_url(dingtalk, now);
    let head = dingtalk.webhook_url@;
    assert(url.take(head.len() as int) =~= head);
    if let Some(secret) = dingtalk.secret {
        let millis = text::signed_decimal(now.millis());
        let encoded = signing::percent_encoded_text(dingtalk_signature(secret@, now.millis()));
        let tail = "&sign="@ + encoded;
        text::lemma_labelled(head, "&timestamp="@, millis, "&sign="@);
        text::lemma_goes_on(head + "&timestamp="@ + millis + "&sign="@, encoded);
        assert(url.skip(url.len() - tail.len()) =~= tail);
    }
}

/// A message is taken exactly where the reply has a status of success, and for DingTalk
/// where the code in it is zero; a refusal is told with what the reply says.
pub proof fn refusals_are_told(
    service: Seq<char>,
    success: bool,
    status: Seq<char>,
    body: Seq<char>,
    code: Option<int>,
    message: Option<Seq<char>>,
)
    ensures
        webhook_outcome(service, success, status, body) is Ok <==> success,
        !success ==> {
            let told = webhook_outcome(service, success, status, body)->Err_0;
            &&& text::begins_with(told, service)
            &&& text::has_part(told, "("@ + status + ")"@)
            &&& text::ends_with(told, body)
        },
        dingtalk_code_outcome(code, message) is Ok <==> code == Some(0int),
        code != Some(0int) ==> (message matches Some(text) ==> text::ends_with(
            dingtalk_code_outcome(code, message)->Err_0,
            text,
        )),
{
    if !success {
        reveal_strlit("(");
        reveal_strlit(")");
        reveal_strlit("): ");
        reveal_strlit(" webhook failed (");
        let told = webhook_outcome(service, success, status, body)->Err_0;
        assert(told.take(service.len() as int) =~= service);
        assert(told.skip(told.len() - body.len()) =~= body);
        let part = "("@ + status + ")"@;
        let at = service.len() as int + 16;
        assert(told.subrange(at, at + part.len()) =~= part);
        assert(text::stands_at(told, part, at));
    }
    if code != Some(0int) {
        if let Some(text) = message {
            let told = dingtalk_code_outcome(code, message)->Err_0;
            assert(told.skip(told.len() - text.len()) =~= text);
        }
    }
}

/// A mail is sent exactly where its sender and each of its receivers are addresses.
pub proof fn every_address_is_checked(from: Seq<char>, to: Seq<Seq<char>>)
    ensures
        addresses_outcome(is_mailbox(from), are_mailboxes(to)) is Ok <==> is_mailbox(from) && (
        forall|i: int| 0 <= i < to.len() ==> is_mailbox(#[trigger] to[i])),
{
    let list = are_mailboxes(to);
    if list.contains(false) {
        let i = list.index_of(false);
        assert(!is_mailbox(to[i]));
    } else {
        assert forall|i: int| 0 <= i < to.len() implies is_mailbox(#[trigger] to[i]) by {
            assert(list[i] == is_mailbox(to[i]));
        }
    }
}

/// The channels on which an alert went out are named, each once, and no others are.
pub proof fn channels_are_named_where_they_were_used(sent: SentChannels)
    ensures
        sent.names().contains("email"@) <==> sent.email,
        sent.names().contains("slack"@) <==> sent.slack,
        sent.names().contains("dingtalk"@) <==> sent.dingtalk,
        sent.names().len() == (if sent.email { 1int } else { 0 }) + (if sent.slack { 1int } else {
            0
        }) + (if sent.dingtalk { 1int } else { 0 }),
{
    reveal_strlit("email");
    reveal_strlit("slack");
    reveal_strlit("dingtalk");
    assert("email"@[0] == 'e' && "slack"@[0] == 's' && "dingtalk"@[0] == 'd');
    let names = sent.names();
    let a: int = if sent.email { 1 } else { 0 };
    let b: int = if sent.slack { a + 1 } else { a };
    if sent.email {
        assert(names[0] == "email"@);
    }
    if sent.slack {
        assert(names[a] == "slack"@);
    }
    if sent.dingtalk {
        assert(names[b] == "dingtalk"@);
    }
    assert forall|i: int| 0 <= i < names.len() implies (names[i] == "email"@ && sent.email) || (
    names[i] == "slack"@ && sent.slack) || (names[i] == "dingtalk"@ && sent.dingtalk) by {}
}

/// The alert that is due has the level of the days that are left; it is due again once the
/// debounce time has passed since the last one of that level, be it the configured time or
/// else a day.
pub proof fn alerts_are_due_again_after_the_debounce_time(
    config: Config,
    state: AppView,
    cert: CertificateView,
    level: AlertLevel,
    last: Timestamp,
    now: Timestamp,
)
    requires
        AlertLevel::of_days(clock::elapsed_days(cert.not_after, now)) == Some(level),
        state.domain(cert.domain).last_notifications.at(level) == Some(last),
    ensures
        config.global.notification_debounce_hours matches Some(hours) ==> (due_level(
            config,
            state,
            cert,
            now,
        ) == Some(level) <==> clock::elapsed_hours(now, last) >= hours),
        config.global.notification_debounce_hours is None ==> (due_level(config, state, cert, now)
            == Some(level) <==> clock::elapsed_hours(now, last) >= 24),
        due_level(config, state, cert, now) is None || due_level(config, state, cert, now) == Some(
            level,
        ),
{
}

/// Whether an alert is due depends on the days that are left and on the alerts about this
/// domain alone.
pub proof fn alerts_depend_on_their_own_domain(
    config: Config,
    state: AppView,
    other_state: AppView,
    cert: CertificateView,
    other: CertificateView,
    now: Timestamp,
)
    requires
        cert.domain == other.domain,
        cert.not_after == other.not_after,
        state.domain(cert.domain).last_notifications == other_state.domain(
            cert.domain,
        ).last_notifications,
    ensures
        due_level(config, state, cert, now) == due_level(config, other_state, other, now),
{
}

/// After an alert on some channel, that it went out is remembered, under its level and for
/// its domain, and the state is saved; what is remembered of other domains, and of other
/// levels, stays.
pub proof fn alerts_are_remembered(
    state: AppView,
    domain: Seq<char>,
    level: AlertLevel,
    sent: SentChannels,
    now: Timestamp,
    other: Seq<char>,
    other_level: AlertLevel,
)
    requires
        sent.email || sent.slack || sent.dingtalk,
    ensures
        ({
            let after = after_alert(state, domain, level, sent, now);
            &&& after.domain(domain).last_notifications.at(level) == Some(now)
            &&& after.updated_at == now
            &&& other != domain ==> after.domain(other) == state.domain(other)
            &&& other_level != level ==> after.domain(domain).last_notifications.at(other_level)
                == state.domain(domain).last_notifications.at(other_level)
            &&& after.domain(domain).last_scan == state.domain(domain).last_scan
            &&& after.domain(domain).last_renew == state.domain(domain).last_renew
            &&& after.domain(domain).renewal_history == state.domain(domain).renewal_history
            &&& after.domain(domain).current_fingerprint == state.domain(
                domain,
            ).current_fingerprint
        }),
{
}

/// What is sent on each channel is about this certificate, at the level of the alert and with
/// the days that are left until it expires; a message to DingTalk is in Markdown, and for
/// everyone.
pub proof fn alerts_are_about_their_certificate(
    alert: Alert,
    config: Config,
    cert: CertificateView,
    level: AlertLevel,
    now: Timestamp,
)
    requires
        alert.is_about(config, cert, level, now),
    ensures
        ({
            let days = clock::elapsed_days(cert.not_after, now);
            &&& alert.email matches Some(mail) ==> {
                &&& mail.subject@ == email_subject(cert, level, days)
                &&& mail.body@ == email_body(cert, level, days)
            }
            &&& alert.slack matches Some(message) ==> {
                &&& message.text@ == alert_title(cert, level)
                &&& message@ == slack_view(config.global.slack->0, cert, level, days)
            }
            &&& alert.dingtalk matches Some(message) ==> {
                &&& message.url@ == dingtalk_url(config.global.dingtalk->0, now)
                &&& message.msgtype@ == "markdown"@
                &&& message.markdown.title@ == alert_title(cert, level)
                &&& message.markdown.text@ == dingtalk_text(cert, level, days)
                &&& message.at.is_at_all
            }
        }),
{
}

/// A message to Slack is viewed by its own fields.
pub proof fn slack_messages_are_viewed_field_by_field(
    message: SlackMessage,
    attachment: SlackAttachment,
    field: SlackField,
)
    ensures
        message@.text == message.text@,
        message@.attachments.len() == message.attachments@.len(),
        forall|i: int|
            0 <= i < message.attachments@.len() ==> #[trigger] message@.attachments[i]
                == message.attachments@[i]@,
        message@.channel is Some <==> message.channel is Some,
        message.channel matches Some(channel) ==> message@.channel == Some(channel@),
        attachment@.color == attachment.color@,
        attachment@.title == attachment.title@,
        attachment@.fields.len() == attachment.fields@.len(),
        forall|i: int|
            0 <= i < attachment.fields@.len() ==> #[trigger] attachment@.fields[i]
                == attachment.fields@[i]@,
        field@.title == field.title@,
        field@.value == field.value@,
        field@.short == field.short,
{
}

} // verus!
