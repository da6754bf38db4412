//! The commands: what each of them decides, remembers and shows.
use crate::acme;
use crate::clock::{self, Timestamp};
use crate::config::{Config, DomainConfig};
use crate::deploy::{self, DeployResultInner, DeployView, HookView};
use crate::order::{self, order_by_name};
use crate::report::{self, title};
use crate::state::{self, StateManager};
use crate::terminal::{
    self, cell, draw_table, plain, styled, styled_number, CellStyle, CellView, Span, SpanView,
    Style, TableCell,
};
use crate::text::{self, join, push_decimal, push_signed, shorten, text_equal};
use crate::types::{
    self, AlertLevel, AppState, AppView, CertificateInfo, CertificateView, DomainState, DomainView,
    RenewalHistory, RenewalView, ScanResult, ScanView,
};
use std::sync::Arc;
use vstd::prelude::*;

verus! {

/// A line across the terminal.
pub const RULE: &'static str = "━━━━━━━━━━━━━━━━━━━━━━━━━━━━━━━━━━━━━━━━━━━━━━━━━━━━━━━━━━━━━━━━━━━━━━━━━━━━━━━━";

/// A title between two lines across the terminal, and an empty line.
pub open spec fn banner_view(text: Seq<char>) -> Seq<SpanView> {
    seq![
        terminal::in_style(RULE@, Style::BoldCyan),
        terminal::plainly("\n"@),
        terminal::in_style(text, Style::BoldCyan),
        terminal::plainly("\n"@),
        terminal::in_style(RULE@, Style::BoldCyan),
        terminal::plainly("\n\n"@),
    ]
}

/// A title between two lines across the terminal, and an empty line.
pub fn banner(text: &str) -> (spans: Vec<Span>)
    ensures
        terminal::span_views(spans@) == banner_view(text@),
{
    let spans = vec![
        styled(RULE, Style::BoldCyan),
        plain("\n"),
        styled(text, Style::BoldCyan),
        plain("\n"),
        styled(RULE, Style::BoldCyan),
        plain("\n\n"),
    ];
    assert(terminal::span_views(spans@) =~= banner_view(text@));
    spans
}

/// A painted label, a space, a text and the end of the line.
pub open spec fn labelled_view(label: Seq<char>, style: Style, text: Seq<char>) -> Seq<SpanView> {
    seq![terminal::in_style(label, style), terminal::plainly(" "@ + text + "\n"@)]
}

/// A painted label, a space, a text and the end of the line.
pub fn labelled(label: &str, style: Style, text: &str) -> (spans: Vec<Span>)
    ensures
        terminal::span_views(spans@) == labelled_view(label@, style, text@),
{
    let mut rest = " ".to_owned();
    rest.append(text);
    rest.append("\n");
    let spans = vec![styled(label, style), plain(rest.as_str())];
    assert(terminal::span_views(spans@) =~= labelled_view(label@, style, text@));
    spans
}

/// Why a configuration is not written: the file is there, and nobody insisted.
pub fn init_refusal(path: &str, exists: bool, force: bool) -> (refusal: Option<String>)
    ensures
        if exists && !force {
            refusal matches Some(message) && message@ == "文件 "@ + path@
                + " 已存在, 使用 --force 覆盖"@
        } else {
            refusal is None
        },
{
    if exists && !force {
        let mut message = "文件 ".to_owned();
        message.append(path);
        message.append(" 已存在, 使用 --force 覆盖");
        Some(message)
    } else {
        None
    }
}

/// What is remembered after scans at `now`: the time of each, and the fingerprint of
/// each certificate that was seen.
pub open spec fn recorded(state: AppView, scans: Seq<ScanView>, now: Timestamp) -> AppView
    decreases scans.len(),
{
    if scans.len() == 0 {
        state
    } else {
        let scan = scans.last();
        let scanned = recorded(state, scans.drop_last(), now).scanned(scan.domain, now);
        match scan.cert {
            Some(cert) => scanned.fingerprinted(scan.domain, cert.fingerprint_sha256),
            None => scanned,
        }
    }
}

/// Remembers scans at `now`, and marks the state as saved.
pub fn record_scans_at(manager: &mut StateManager, results: &[ScanResult], now: Timestamp)
    requires
        old(manager).wf(),
    ensures
        final(manager).wf(),
        final(manager)@ == recorded(old(manager)@, types::scan_views(results@), now).saved(now),
{
    let ghost scans = types::scan_views(results@);
    let ghost begun = manager@;
    let mut i: usize = 0;
    assert(scans.take(0) =~= Seq::empty());
    while i < results.len()
        invariant
            i <= results.len(),
            scans == types::scan_views(results@),
            manager.wf(),
            manager@ == recorded(begun, scans.take(i as int), now),
        decreases results.len() - i,
    {
        let result = &results[i];
        proof {
            let upto = scans.take(i + 1);
            assert(upto.drop_last() =~= scans.take(i as int));
            assert(upto.last() == result@);
        }
        manager.update_scan_time_at(result.domain.as_str(), now);
        if let Some(cert) = &result.cert {
            manager.update_fingerprint(result.domain.as_str(), cert.fingerprint_sha256.clone());
        }
        i += 1;
    }
    assert(scans.take(scans.len() as int) =~= scans);
    manager.save_at(now);
}

/// Remembers scans at the present instant, and marks the state as saved.
pub fn record_scans(manager: &mut StateManager, results: &[ScanResult])
    requires
        old(manager).wf(),
    ensures
        final(manager).wf(),
        exists|now: Timestamp|
            now.can_be_now() && final(manager)@ == #[trigger] recorded(
                old(manager)@,
                types::scan_views(results@),
                now,
            ).saved(now),
{
    let now = Timestamp::now();
    record_scans_at(manager, results, now);
}

/// Whether the scan with number `k` shows a certificate for a domain.
pub open spec fn shows_certificate(scans: Seq<ScanView>, domain: Seq<char>, k: int) -> bool {
    scans[k].domain == domain && scans[k].cert is Some
}

/// Whether the scan with number `k` shows a certificate for a domain, and none after it
/// does.
pub open spec fn shows_last_certificate(scans: Seq<ScanView>, domain: Seq<char>, k: int) -> bool {
    &&& shows_certificate(scans, domain, k)
    &&& forall|j: int| k < j < scans.len() ==> !#[trigger] shows_certificate(scans, domain, j)
}

/// After scans were remembered, every domain among them has its time, and the
/// fingerprint of the last certificate that was seen for it; where none was seen, it
/// keeps the one that it had. Of other domains, and of renewals and alerts, everything
/// stays as it was.
pub proof fn recorded_scans_are_remembered(
    state: AppView,
    scans: Seq<ScanView>,
    now: Timestamp,
    domain: Seq<char>,
)
    ensures
        ({
            let before = state.domain(domain);
            let after = recorded(state, scans, now).domain(domain);
            &&& (exists|i: int| 0 <= i < scans.len() && (#[trigger] scans[i]).domain == domain)
                ==> after.last_scan == Some(now)
            &&& (forall|i: int| 0 <= i < scans.len() ==> (#[trigger] scans[i]).domain != domain)
                ==> after == before
            &&& forall|k: int|
                0 <= k < scans.len() && shows_last_certificate(scans, domain, k)
                    ==> after.current_fingerprint == Some(
                    (#[trigger] scans[k]).cert->0.fingerprint_sha256,
                )
            &&& (forall|k: int| 0 <= k < scans.len() ==> !shows_certificate(scans, domain, k))
                ==> after.current_fingerprint == before.current_fingerprint
            &&& after.last_renew == before.last_renew
            &&& after.renewal_history == before.renewal_history
            &&& after.last_notifications == before.last_notifications
        }),
    decreases scans.len(),
{
    if scans.len() > 0 {
        let init = scans.drop_last();
        recorded_scans_are_remembered(state, init, now, domain);
        let last = scans.len() - 1;
        let after = recorded(state, scans, now).domain(domain);
        assert forall|k: int|
            0 <= k < scans.len() && shows_last_certificate(
                scans,
                domain,
                k,
            ) implies after.current_fingerprint == Some(
            (#[trigger] scans[k]).cert->0.fingerprint_sha256,
        ) by {
            if k < last {
                assert(!shows_certificate(scans, domain, last));
                assert forall|j: int| k < j < init.len() implies !#[trigger] shows_certificate(
                    init,
                    domain,
                    j,
                ) by {
                    assert(!shows_certificate(scans, domain, j));
                }
                assert(shows_last_certificate(init, domain, k));
                assert(init[k] == scans[k]);
            }
        }
        if forall|k: int| 0 <= k < scans.len() ==> !shows_certificate(scans, domain, k) {
            assert(!shows_certificate(scans, domain, last));
            assert forall|k: int| 0 <= k < init.len() implies !shows_certificate(
                init,
                domain,
                k,
            ) by {
                assert(!shows_certificate(scans, domain, k));
            }
        }
        if exists|i: int| 0 <= i < scans.len() && (#[trigger] scans[i]).domain == domain {
            let i = choose|i: int| 0 <= i < scans.len() && (#[trigger] scans[i]).domain == domain;
            if i < scans.len() - 1 {
                assert(init[i].domain == domain);
            }
        }
        if forall|i: int| 0 <= i < scans.len() ==> (#[trigger] scans[i]).domain != domain {
            assert(scans[scans.len() - 1].domain != domain);
            assert forall|i: int| 0 <= i < init.len() implies (#[trigger] init[i]).domain
                != domain by {
                assert(scans[i].domain != domain);
            }
        }
    }
}

/// An alert that was sent: the domain, and the names of the channels.
#[derive(Debug)]
pub struct SentAlert {
    pub domain: String,
    pub channels: Vec<String>,
}

/// The line about an alert that was sent.
pub open spec fn sent_line(alert: SentAlert) -> Seq<char> {
    "  "@ + alert.domain@ + " → "@ + text::joined(text::texts(alert.channels@), ", "@) + "\n"@
}

/// The lines about the alerts that were sent.
pub open spec fn sent_view(alerts: Seq<SentAlert>) -> Seq<SpanView> {
    if alerts.len() == 0 {
        seq![
            terminal::in_style("✓ 无需发送通知 (所有域名在防抖周期内)"@, Style::Green),
            terminal::plainly("\n"@),
        ]
    } else {
        seq![
            terminal::plainly("\n"@),
            terminal::in_style("已发送通知:"@, Style::BoldGreen),
            terminal::plainly("\n"@),
        ] + Seq::new(alerts.len(), |i: int| terminal::plainly(sent_line(alerts[i])))
    }
}

/// The lines about the alerts that were sent.
pub fn sent_alerts(alerts: &Vec<SentAlert>) -> (spans: Vec<Span>)
    ensures
        terminal::span_views(spans@) == sent_view(alerts@),
{
    if alerts.len() == 0 {
        let spans = vec![styled("✓ 无需发送通知 (所有域名在防抖周期内)", Style::Green), plain("\n")];
        assert(terminal::span_views(spans@) =~= sent_view(alerts@));
        return spans;
    }
    let mut spans = vec![plain("\n"), styled("已发送通知:", Style::BoldGreen), plain("\n")];
    let ghost head = terminal::span_views(spans@);
    let ghost lines = Seq::new(alerts@.len(), |i: int| terminal::plainly(sent_line(alerts@[i])));
    let mut i: usize = 0;
    assert(head + lines.take(0) =~= head);
    while i < alerts.len()
        invariant
            i <= alerts.len(),
            lines == Seq::new(alerts@.len(), |i: int| terminal::plainly(sent_line(alerts@[i]))),
            terminal::span_views(spans@) == head + lines.take(i as int),
        decreases alerts.len() - i,
    {
        let ghost before = terminal::span_views(spans@);
        let mut line = "  ".to_owned();
        line.append(alerts[i].domain.as_str());
        line.append(" → ");
        line.append(join(&alerts[i].channels, ", ").as_str());
        line.append("\n");
        let span = plain(line.as_str());
        spans.push(span);
        assert(terminal::span_views(spans@) =~= before.push(span@));
        assert(head + lines.take(i + 1) =~= (head + lines.take(i as int)).push(lines[i as int]));
        i += 1;
    }
    assert(lines.take(lines.len() as int) =~= lines);
    assert(head =~= seq![
        terminal::plainly("\n"@),
        terminal::in_style("已发送通知:"@, Style::BoldGreen),
        terminal::plainly("\n"@),
    ]);
    spans
}

/// Whether a renewal is considered for a domain: for the named one, or else for those
/// that are renewed by themselves.
pub open spec fn is_selected(dc: DomainConfig, filter: Option<Seq<char>>) -> bool {
    match filter {
        Some(name) => dc.name@ == name,
        None => dc.auto_renew,
    }
}

/// The numbers of the first `n` domains for which a renewal is considered.
pub open spec fn selected_upto(
    domains: Seq<DomainConfig>,
    filter: Option<Seq<char>>,
    n: nat,
) -> Seq<int>
    decreases n,
{
    if n == 0 {
        Seq::empty()
    } else if is_selected(domains[n - 1], filter) {
        selected_upto(domains, filter, (n - 1) as nat).push(n - 1)
    } else {
        selected_upto(domains, filter, (n - 1) as nat)
    }
}

/// The numbers of the domains for which a renewal is considered, in their order.
pub fn select_domains(config: &Config, filter: &Option<String>) -> (selected: Vec<usize>)
    ensures
        order::places(selected@) == selected_upto(
            config.domains@,
            types::optional_text(*filter),
            config.domains@.len(),
        ),
        forall|i: int| 0 <= i < selected@.len() ==> #[trigger] selected@[i] < config.domains@.len(),
{
    let mut selected: Vec<usize> = Vec::new();
    let ghost wanted = types::optional_text(*filter);
    let mut n: usize = 0;
    assert(order::places(selected@) =~= Seq::empty());
    while n < config.domains.len()
        invariant
            n <= config.domains.len(),
            wanted == types::optional_text(*filter),
            order::places(selected@) == selected_upto(config.domains@, wanted, n as nat),
            forall|i: int| 0 <= i < selected@.len() ==> #[trigger] selected@[i] < n,
        decreases config.domains.len() - n,
    {
        let dc = &config.domains[n];
        let considered = match filter {
            Some(name) => text_equal(dc.name.as_str(), name.as_str()),
            None => dc.auto_renew,
        };
        if considered {
            let ghost before = order::places(selected@);
            selected.push(n);
            assert(order::places(selected@) =~= before.push(n as int));
        }
        n += 1;
    }
    selected
}

/// A renewal is considered for exactly the domains that are selected.
pub proof fn selection_is_exact(
    domains: Seq<DomainConfig>,
    filter: Option<Seq<char>>,
    k: int,
)
    requires
        0 <= k < domains.len(),
    ensures
        selected_upto(domains, filter, domains.len()).contains(k) <==> is_selected(
            domains[k],
            filter,
        ),
{
    lemma_selected(domains, filter, domains.len(), k);
}

proof fn lemma_selected(domains: Seq<DomainConfig>, filter: Option<Seq<char>>, n: nat, k: int)
    requires
        n <= domains.len(),
        0 <= k < domains.len(),
    ensures
        selected_upto(domains, filter, n).contains(k) <==> k < n && is_selected(
            domains[k],
            filter,
        ),
    decreases n,
{
    if n > 0 {
        let before = selected_upto(domains, filter, (n - 1) as nat);
        let after = selected_upto(domains, filter, n);
        lemma_selected(domains, filter, (n - 1) as nat, k);
        if is_selected(domains[n - 1], filter) {
            assert(after.last() == n - 1);
            if before.contains(k) {
                let i = before.index_of(k);
                assert(after[i] == k);
            }
            if after.contains(k) && k != n - 1 {
                let i = after.index_of(k);
                assert(before[i] == k);
            }
            assert(after[after.len() - 1] == n - 1);
        }
    }
}

/// The certificate for a name among the first `n` scans: the last one that was seen
/// for it.
pub open spec fn certificate_for(scans: Seq<ScanView>, name: Seq<char>, n: nat) -> Option<
    CertificateView,
>
    decreases n,
{
    if n == 0 {
        None
    } else {
        match scans[n - 1].cert {
            Some(cert) if cert.domain == name => Some(cert),
            _ => certificate_for(scans, name, (n - 1) as nat),
        }
    }
}

/// The certificate for a name among the scans.
pub fn find_certificate<'a>(results: &'a [ScanResult], name: &str) -> (cert: Option<
    &'a CertificateInfo,
>)
    ensures
        match cert {
            Some(cert) => certificate_for(
                types::scan_views(results@),
                name@,
                results@.len(),
            ) == Some(cert@),
            None => certificate_for(types::scan_views(results@), name@, results@.len()) is None,
        },
{
    let ghost scans = types::scan_views(results@);
    let mut n: usize = results.len();
    while n > 0
        invariant
            n <= results.len(),
            scans == types::scan_views(results@),
            certificate_for(scans, name@, results@.len()) == certificate_for(
                scans,
                name@,
                n as nat,
            ),
        decreases n,
    {
        let result = &results[n - 1];
        assert(scans[n - 1] == result@);
        if let Some(cert) = &result.cert {
            if text_equal(cert.domain.as_str(), name) {
                return Some(cert);
            }
        }
        n -= 1;
    }
    None
}

/// Whether a certificate is renewed, and why.
#[derive(Debug, Clone, Copy, PartialEq, Eq, Structural)]
pub enum RenewalDecision {
    /// It is, because somebody insists.
    Forced,
    /// It is, with so many days left.
    Due { days: i64 },
    /// It is not, with so many days left.
    NotDue { days: i64 },
    /// It is not, because nothing is known of it.
    Unknown,
}

impl RenewalDecision {
    /// Whether the certificate is renewed.
    pub open spec fn renews(self) -> bool {
        self is Forced || self is Due
    }

    /// Whether the certificate is renewed.
    pub fn needs_renewal(&self) -> (r: bool)
        ensures
            r == self.renews(),
    {
        match self {
            RenewalDecision::Forced => true,
            RenewalDecision::Due { .. } => true,
            RenewalDecision::NotDue { .. } => false,
            RenewalDecision::Unknown => false,
        }
    }
}

/// The decision on a certificate at `now`.
pub open spec fn decision(
    config: Config,
    cert: Option<CertificateView>,
    force: bool,
    now: Timestamp,
) -> RenewalDecision {
    if force {
        RenewalDecision::Forced
    } else {
        match cert {
            Some(cert) => {
                let days = clock::elapsed_days(cert.not_after, now) as i64;
                if acme::is_due(config, cert, now) {
                    RenewalDecision::Due { days }
                } else {
                    RenewalDecision::NotDue { days }
                }
            },
            None => RenewalDecision::Unknown,
        }
    }
}

/// Decides on a certificate at `now`.
pub fn decide_renewal_at(
    config: &Config,
    cert: Option<&CertificateInfo>,
    force: bool,
    now: Timestamp,
) -> (r: RenewalDecision)
    ensures
        r == decision(
            *config,
            match cert {
                Some(cert) => Some(cert@),
                None => None,
            },
            force,
            now,
        ),
{
    if force {
        return RenewalDecision::Forced;
    }
    match cert {
        Some(cert) => {
            let days = cert.days_remaining_at(now);
            if days < config.renew_threshold_days() {
                RenewalDecision::Due { days }
            } else {
                RenewalDecision::NotDue { days }
            }
        },
        None => RenewalDecision::Unknown,
    }
}

/// The line about a decision.
pub open spec fn decision_view(
    decision: RenewalDecision,
    name: Seq<char>,
    threshold: i64,
) -> Seq<SpanView> {
    match decision {
        RenewalDecision::Forced => seq![
            terminal::in_style("→"@, Style::BoldYellow),
            terminal::plainly(" "@),
            terminal::in_style(name, Style::Bold),
            terminal::plainly(" (强制续签)\n"@),
        ],
        RenewalDecision::Due { days } => seq![
            terminal::in_style("→"@, Style::BoldYellow),
            terminal::plainly(" "@),
            terminal::in_style(name, Style::Bold),
            terminal::plainly(" (剩余 "@),
            terminal::in_style(text::signed_decimal(days as int), Style::BoldRed),
            terminal::plainly(" 天, 阈值 "@ + text::signed_decimal(threshold as int) + " 天)\n"@),
        ],
        RenewalDecision::NotDue { days } => seq![
            terminal::in_style("✓"@, Style::Green),
            terminal::plainly(" "@ + name + " (剩余 "@),
            terminal::in_style(text::signed_decimal(days as int), Style::Green),
            terminal::plainly(" 天, 无需续签)\n"@),
        ],
        RenewalDecision::Unknown => seq![
            terminal::in_style("✗"@, Style::Red),
            terminal::plainly(" "@ + name + " (无法获取证书信息, 跳过)\n"@),
        ],
    }
}

fn styled_signed(n: i64, style: Style) -> (span: Span)
    ensures
        span@ == terminal::in_style(text::signed_decimal(n as int), style),
{
    let mut text = String::new();
    push_signed(&mut text, n);
    assert(text@ =~= text::signed_decimal(n as int));
    Span { text, style }
}

/// The line about a decision.
pub fn decision_line(decision: &RenewalDecision, name: &str, threshold: i64) -> (spans: Vec<Span>)
    ensures
        terminal::span_views(spans@) == decision_view(*decision, name@, threshold),
{
    let spans = match decision {
        RenewalDecision::Forced => vec![
            styled("→", Style::BoldYellow),
            plain(" "),
            styled(name, Style::Bold),
            plain(" (强制续签)\n"),
        ],
        RenewalDecision::Due { days } => {
            let mut rest = " 天, 阈值 ".to_owned();
            push_signed(&mut rest, threshold);
            rest.append(" 天)\n");
            vec![
                styled("→", Style::BoldYellow),
                plain(" "),
                styled(name, Style::Bold),
                plain(" (剩余 "),
                styled_signed(*days, Style::BoldRed),
                plain(rest.as_str()),
            ]
        },
        RenewalDecision::NotDue { days } => {
            let mut middle = " ".to_owned();
            middle.append(name);
            middle.append(" (剩余 ");
            vec![
                styled("✓", Style::Green),
                plain(middle.as_str()),
                styled_signed(*days, Style::Green),
                plain(" 天, 无需续签)\n"),
            ]
        },
        RenewalDecision::Unknown => {
            let mut rest = " ".to_owned();
            rest.append(name);
            rest.append(" (无法获取证书信息, 跳过)\n");
            vec![styled("✗", Style::Red), plain(rest.as_str())]
        },
    };
    assert(terminal::span_views(spans@) =~= decision_view(*decision, name@, threshold));
    spans
}

/// What is remembered after an attempt at a renewal: the attempt; where it succeeded,
/// also its time and the new fingerprint, and the state is saved.
pub open spec fn after_renewal(
    state: AppView,
    domain: Seq<char>,
    record: RenewalView,
    now: Timestamp,
) -> AppView {
    let attempted = state.attempted(domain, record);
    if record.success {
        let renewed = attempted.renewed(domain, now);
        (match record.new_fingerprint {
            Some(fingerprint) => renewed.fingerprinted(domain, fingerprint),
            None => renewed,
        }).saved(now)
    } else {
        attempted
    }
}

/// Remembers an attempt at a renewal at `now`.
pub fn record_renewal_at(
    manager: &mut StateManager,
    domain: &str,
    record: &RenewalHistory,
    now: Timestamp,
)
    requires
        old(manager).wf(),
    ensures
        final(manager).wf(),
        final(manager)@ == after_renewal(old(manager)@, domain@, record@, now),
{
    manager.add_renewal_history(domain, record.clone());
    if record.success {
        manager.update_renew_time_at(domain, now);
        if let Some(fingerprint) = &record.new_fingerprint {
            manager.update_fingerprint(domain, fingerprint.clone());
        }
        manager.save_at(now);
    }
}

/// A renewal that failed changes neither the time of the last renewal nor the
/// fingerprint; one that succeeded sets both. Either way the attempt is remembered.
pub proof fn renewals_are_remembered(
    state: AppView,
    domain: Seq<char>,
    record: RenewalView,
    now: Timestamp,
)
    ensures
        ({
            let before = state.domain(domain);
            let after = after_renewal(state, domain, record, now).domain(domain);
            &&& after.renewal_history == state::extended_history(before.renewal_history, record)
            &&& !record.success ==> after.last_renew == before.last_renew
                && after.current_fingerprint == before.current_fingerprint
            &&& record.success ==> after.last_renew == Some(now)
            &&& record.success ==> (record.new_fingerprint matches Some(fingerprint)
                ==> after.current_fingerprint == Some(fingerprint))
            &&& after.last_scan == before.last_scan
            &&& after.last_notifications == before.last_notifications
        }),
{
}

/// The line about an attempt at a renewal.
pub open spec fn renewal_view(record: RenewalView) -> Seq<SpanView> {
    if record.success {
        seq![
            terminal::plainly("  "@),
            terminal::in_style("✓"@, Style::BoldGreen),
            terminal::plainly(
                " 续签成功! 新指纹: "@ + (match record.new_fingerprint {
                    Some(fingerprint) => fingerprint,
                    None => "N/A"@,
                }) + "\n"@,
            ),
        ]
    } else {
        seq![
            terminal::plainly("  "@),
            terminal::in_style("✗"@, Style::BoldRed),
            terminal::plainly(" 续签失败: "@ + record.message + "\n"@),
        ]
    }
}

/// The line about an attempt at a renewal.
pub fn renewal_line(record: &RenewalHistory) -> (spans: Vec<Span>)
    ensures
        terminal::span_views(spans@) == renewal_view(record@),
{
    let spans = if record.success {
        let mut rest = " 续签成功! 新指纹: ".to_owned();
        match &record.new_fingerprint {
            Some(fingerprint) => rest.append(fingerprint.as_str()),
            None => rest.append("N/A"),
        }
        rest.append("\n");
        vec![plain("  "), styled("✓", Style::BoldGreen), plain(rest.as_str())]
    } else {
        let mut rest = " 续签失败: ".to_owned();
        rest.append(record.message.as_str());
        rest.append("\n");
        vec![plain("  "), styled("✗", Style::BoldRed), plain(rest.as_str())]
    };
    assert(terminal::span_views(spans@) =~= renewal_view(record@));
    spans
}

/// Whether an alert about a deployment is announced at `now`: it did not go well in
/// every respect, the certificate that was there before calls for an alert, and one
/// may be sent.
pub open spec fn announces_failure(
    config: Config,
    state: AppView,
    name: Seq<char>,
    cert: Option<CertificateView>,
    result: DeployView,
    now: Timestamp,
) -> bool {
    &&& !result.hooks_succeeded() || result.verification != Some(Ok::<bool, Seq<char>>(true))
    &&& cert matches Some(cert)
    &&& AlertLevel::of_days(clock::elapsed_days(cert.not_after, now)) matches Some(level)
    &&& state.may_notify(name, level, config.debounce_hours() as int, now)
}

/// Decides whether an alert about a deployment is announced at `now`.
pub fn announce_failure_at(
    config: &Config,
    manager: &StateManager,
    name: &str,
    cert: Option<&CertificateInfo>,
    result: &DeployResultInner,
    now: Timestamp,
) -> (announced: bool)
    requires
        manager.wf(),
    ensures
        announced == announces_failure(
            *config,
            manager@,
            name@,
            match cert {
                Some(cert) => Some(cert@),
                None => None,
            },
            result@,
            now,
        ),
{
    if result.all_hooks_successful() && result.verification_passed() {
        return false;
    }
    match cert {
        Some(cert) => match AlertLevel::from_days(cert.days_remaining_at(now)) {
            Some(level) => manager.should_send_notification_at(
                name,
                &level,
                config.notification_debounce_hours(),
                now,
            ),
            None => false,
        },
        None => false,
    }
}

/// The announcement of an alert about a deployment.
pub open spec fn announcement_view() -> Seq<SpanView> {
    seq![
        terminal::plainly("  "@),
        terminal::in_style("⚠️"@, Style::Yellow),
        terminal::plainly(" 发送部署失败预警通知...\n"@),
    ]
}

/// A run of renewals: the domains that are considered, one after the other, the scans
/// that tell of their certificates, and what is remembered.
#[derive(Debug)]
pub struct RenewalRun {
    config: Arc<Config>,
    manager: StateManager,
    scans: Vec<ScanResult>,
    selected: Vec<usize>,
    considered: usize,
    force: bool,
    auto_deploy: bool,
}

/// What a `RenewalRun` says.
#[verifier::ext_equal]
pub struct RenewalRunView {
    pub config: Config,
    pub state: AppView,
    pub scans: Seq<ScanView>,
    pub selected: Seq<int>,
    pub considered: nat,
    pub force: bool,
    pub auto_deploy: bool,
}

impl View for RenewalRun {
    type V = RenewalRunView;

    closed spec fn view(&self) -> RenewalRunView {
        RenewalRunView {
            config: *self.config,
            state: self.manager@,
            scans: types::scan_views(self.scans@),
            selected: order::places(self.selected@),
            considered: self.considered as nat,
            force: self.force,
            auto_deploy: self.auto_deploy,
        }
    }
}

/// What was decided on a domain: its number, the line about it, and whether its
/// certificate is renewed.
#[derive(Debug)]
pub struct Considered {
    pub index: usize,
    pub line: Vec<Span>,
    pub renew: bool,
}

impl RenewalRunView {
    /// The name of the configured domain with number `i`.
    pub open spec fn name(self, i: int) -> Seq<char> {
        self.config.domains@[i].name@
    }

    /// The certificate that was seen for the configured domain with number `i`.
    pub open spec fn certificate(self, i: int) -> Option<CertificateView> {
        certificate_for(self.scans, self.name(i), self.scans.len())
    }

    /// The decision on the configured domain with number `i` at `now`.
    pub open spec fn decision_on(self, i: int, now: Timestamp) -> RenewalDecision {
        decision(self.config, self.certificate(i), self.force, now)
    }
}

impl RenewalRun {
    /// The domains that are considered are configured, and no more of them were
    /// considered than there are.
    pub closed spec fn wf(&self) -> bool {
        &&& self.manager.wf()
        &&& self.considered <= self.selected@.len()
        &&& forall|i: int|
            0 <= i < self.selected@.len() ==> #[trigger] self.selected@[i]
                < self.config.domains@.len()
    }

    /// A run in which no domain was considered yet.
    pub fn new(
        config: Arc<Config>,
        manager: StateManager,
        filter: &Option<String>,
        force: bool,
        auto_deploy: bool,
    ) -> (run: RenewalRun)
        requires
            manager.wf(),
        ensures
            run.wf(),
            run@ == (RenewalRunView {
                config: *config,
                state: manager@,
                scans: Seq::empty(),
                selected: selected_upto(
                    config.domains@,
                    types::optional_text(*filter),
                    config.domains@.len(),
                ),
                considered: 0,
                force,
                auto_deploy,
            }),
    {
        let selected = select_domains(&config, filter);
        let run = RenewalRun {
            config,
            manager,
            scans: Vec::new(),
            selected,
            considered: 0,
            force,
            auto_deploy,
        };
        assert(run@.scans =~= Seq::empty());
        run
    }

    /// Whether there is no domain to consider.
    pub fn is_empty(&self) -> (r: bool)
        ensures
            r == (self@.selected.len() == 0),
    {
        self.selected.len() == 0
    }

    /// Takes in the scans.
    pub fn set_scans(&mut self, scans: Vec<ScanResult>)
        requires
            old(self).wf(),
        ensures
            final(self).wf(),
            final(self)@ == (RenewalRunView { scans: types::scan_views(scans@), ..old(self)@ }),
    {
        self.scans = scans;
    }

    /// Decides on the next domain at `now`; nothing once all were considered.
    pub fn next_at(&mut self, now: Timestamp) -> (next: Option<Considered>)
        requires
            old(self).wf(),
        ensures
            final(self).wf(),
            if old(self)@.considered < old(self)@.selected.len() {
                let i = old(self)@.selected[old(self)@.considered as int];
                &&& final(self)@ == (RenewalRunView {
                    considered: old(self)@.considered + 1,
                    ..old(self)@
                })
                &&& next matches Some(c)
                &&& c.index == i
                &&& c.index < old(self)@.config.domains@.len()
                &&& terminal::span_views(c.line@) == decision_view(
                    old(self)@.decision_on(i, now),
                    old(self)@.name(i),
                    old(self)@.config.renewal_threshold(),
                )
                &&& c.renew == old(self)@.decision_on(i, now).renews()
            } else {
                next is None && final(self)@ == old(self)@
            },
    {
        if self.considered >= self.selected.len() {
            return None;
        }
        let index = self.selected[self.considered];
        assert(self@.selected[self@.considered as int] == index);
        let dc = &self.config.domains[index];
        let cert = find_certificate(self.scans.as_slice(), dc.name.as_str());
        let decided = decide_renewal_at(&self.config, cert, self.force, now);
        let line = decision_line(&decided, dc.name.as_str(), self.config.renew_threshold_days());
        let renew = decided.needs_renewal();
        self.considered = self.considered + 1;
        Some(Considered { index, line, renew })
    }

    /// Takes in how the renewal for a configured domain went at `now`. Hands out the
    /// line about it, and whether the certificate is deployed.
    pub fn renewed_at(&mut self, index: usize, record: &RenewalHistory, now: Timestamp) -> (r: (
        Vec<Span>,
        bool,
    ))
        requires
            old(self).wf(),
            index < old(self)@.config.domains@.len(),
        ensures
            final(self).wf(),
            final(self)@ == (RenewalRunView {
                state: after_renewal(
                    old(self)@.state,
                    old(self)@.name(index as int),
                    record@,
                    now,
                ),
                ..old(self)@
            }),
            terminal::span_views(r.0@) == renewal_view(record@),
            r.1 == (record.success && old(self)@.auto_deploy),
    {
        let name = self.config.domains[index].name.clone();
        record_renewal_at(&mut self.manager, name.as_str(), record, now);
        (renewal_line(record), record.success && self.auto_deploy)
    }

    /// The lines about the deployment to a configured domain, with the announcement of
    /// an alert where there is one at `now`.
    pub fn deployed_at(&self, index: usize, result: &DeployResultInner, now: Timestamp) -> (lines:
        Vec<Span>)
        requires
            self.wf(),
            index < self@.config.domains@.len(),
        ensures
            terminal::span_views(lines@) == deployment_lines_view(result@, 2) + (
            if announces_failure(
                self@.config,
                self@.state,
                self@.name(index as int),
                self@.certificate(index as int),
                result@,
                now,
            ) {
                announcement_view()
            } else {
                Seq::empty()
            }),
    {
        let name = self.config.domains[index].name.as_str();
        let cert = find_certificate(self.scans.as_slice(), name);
        let mut lines = deployment_lines(result, 2);
        let ghost before = terminal::span_views(lines@);
        if announce_failure_at(&self.config, &self.manager, name, cert, result, now) {
            lines.push(plain("  "));
            lines.push(styled("⚠️", Style::Yellow));
            lines.push(plain(" 发送部署失败预警通知...\n"));
            assert(terminal::span_views(lines@) =~= before + announcement_view());
        } else {
            assert(before + Seq::<SpanView>::empty() =~= before);
        }
        lines
    }

    /// Marks what is remembered as saved at `now`.
    pub fn save_at(&mut self, now: Timestamp)
        requires
            old(self).wf(),
        ensures
            final(self).wf(),
            final(self)@ == (RenewalRunView { state: old(self)@.state.saved(now), ..old(self)@ }),
    {
        self.manager.save_at(now);
    }

    /// What is remembered, to be written.
    pub fn state(&self) -> (state: &AppState)
        requires
            self.wf(),
        ensures
            state@ == self@.state,
            state.wf(),
    {
        self.manager.state()
    }
}

/// With insistence every domain that is considered is renewed; without it none is of
/// which nothing is known, and none with as many days left as the threshold, or more.
pub proof fn renewals_follow_the_threshold(run: RenewalRunView, i: int, now: Timestamp)
    ensures
        run.force ==> run.decision_on(i, now).renews(),
        !run.force && run.certificate(i) is None ==> !run.decision_on(i, now).renews(),
        !run.force ==> (run.certificate(i) matches Some(cert) ==> (run.decision_on(i, now).renews()
            <==> clock::elapsed_days(cert.not_after, now) < run.config.renewal_threshold())),
{
}

/// The fingerprint that a deployment is checked against: the one that is given, else
/// the one that is remembered.
pub open spec fn expected_fingerprint(
    given: Option<Seq<char>>,
    remembered: DomainView,
) -> Option<Seq<char>> {
    match given {
        Some(given) => Some(given),
        None => remembered.current_fingerprint,
    }
}

/// The fingerprint that a deployment is checked against.
pub fn choose_fingerprint(given: Option<String>, manager: &StateManager, domain: &str) -> (r: Option<
    String,
>)
    requires
        manager.wf(),
    ensures
        types::optional_text(r) == expected_fingerprint(
            types::optional_text(given),
            manager@.domain(domain@),
        ),
{
    match given {
        Some(given) => Some(given),
        None => manager.get_domain_state(domain).current_fingerprint,
    }
}

/// After a renewal, a deployment is checked against the new certificate, unless another
/// fingerprint is given.
pub proof fn deployments_are_checked_against_the_renewed_certificate(
    state: AppView,
    domain: Seq<char>,
    record: RenewalView,
    now: Timestamp,
    fingerprint: Seq<char>,
    given: Seq<char>,
)
    requires
        record.success,
        record.new_fingerprint == Some(fingerprint),
    ensures
        ({
            let remembered = after_renewal(state, domain, record, now).domain(domain);
            &&& expected_fingerprint(None, remembered) == Some(fingerprint)
            &&& expected_fingerprint(Some(given), remembered) == Some(given)
        }),
{
}

/// The configured domain to deploy to, or the complaint that there is none.
pub fn domain_to_deploy<'a>(config: &'a Config, name: &str) -> (r: Result<&'a DomainConfig, String>)
    ensures
        match Config::first_named(config.domains@, name@, 0) {
            Some(dc) => r matches Ok(found) && *found == dc,
            None => r matches Err(message) && message@ == "配置中未找到域名: "@ + name@,
        },
{
    match config.find_domain(name) {
        Some(dc) => Ok(dc),
        None => {
            let mut message = "配置中未找到域名: ".to_owned();
            message.append(name);
            Err(message)
        },
    }
}

/// The lines about what is deployed where.
pub open spec fn target_view(domain: Seq<char>, fingerprint: Option<Seq<char>>) -> Seq<SpanView> {
    seq![
        terminal::in_style("目标域名"@, Style::Bold),
        terminal::plainly(": "@ + domain + "\n"@),
    ] + match fingerprint {
        Some(fingerprint) => seq![
            terminal::in_style("预期指纹"@, Style::Bold),
            terminal::plainly(": "@ + fingerprint + "\n\n"@),
        ],
        None => seq![terminal::plainly("\n"@)],
    }
}

/// The lines about what is deployed where.
pub fn target_lines(domain: &str, fingerprint: &Option<String>) -> (spans: Vec<Span>)
    ensures
        terminal::span_views(spans@) == target_view(domain@, types::optional_text(*fingerprint)),
{
    let mut first = ": ".to_owned();
    first.append(domain);
    first.append("\n");
    let mut spans = vec![styled("目标域名", Style::Bold), plain(first.as_str())];
    match fingerprint {
        Some(fingerprint) => {
            let mut second = ": ".to_owned();
            second.append(fingerprint.as_str());
            second.append("\n\n");
            spans.push(styled("预期指纹", Style::Bold));
            spans.push(plain(second.as_str()));
        },
        None => {
            spans.push(plain("\n"));
        },
    }
    assert(terminal::span_views(spans@) =~= target_view(
        domain@,
        types::optional_text(*fingerprint),
    ));
    spans
}

/// `n` spaces.
pub open spec fn spaces(n: nat) -> Seq<char> {
    Seq::new(n, |i: int| ' ')
}

fn indentation(n: usize) -> (s: String)
    ensures
        s@ == spaces(n as nat),
{
    let mut s = String::new();
    let mut i: usize = 0;
    proof {
        reveal_strlit(" ");
        assert(s@ =~= spaces(0));
    }
    while i < n
        invariant
            i <= n,
            " "@ == seq![' '],
            s@ == spaces(i as nat),
        decreases n - i,
    {
        s.append(" ");
        assert(s@ =~= spaces((i + 1) as nat));
        i += 1;
    }
    s
}

/// The lines about the hook with number `i`.
pub open spec fn hook_lines_view(prefix: Seq<char>, i: int, hook: HookView) -> Seq<SpanView> {
    seq![
        terminal::plainly(prefix),
        terminal::in_style(
            if hook.success {
                "✓"@
            } else {
                "✗"@
            },
            if hook.success {
                Style::Green
            } else {
                Style::Red
            },
        ),
        terminal::plainly(" ["@ + text::decimal(i as nat) + "] "@ + hook.command + "\n"@),
    ] + if hook.success {
        Seq::empty()
    } else {
        seq![
            terminal::plainly(prefix + "   错误: "@),
            terminal::in_style(hook.output, Style::Red),
            terminal::plainly("\n"@),
        ]
    }
}

/// The lines about the first `n` hooks.
pub open spec fn hooks_lines_view(prefix: Seq<char>, hooks: Seq<HookView>, n: nat) -> Seq<SpanView>
    decreases n,
{
    if n == 0 {
        Seq::empty()
    } else {
        hooks_lines_view(prefix, hooks, (n - 1) as nat) + hook_lines_view(
            prefix,
            n - 1,
            hooks[n - 1],
        )
    }
}

/// The line about a verification, where there was one.
pub open spec fn verification_line_view(
    prefix: Seq<char>,
    verification: Option<Result<bool, Seq<char>>>,
) -> Seq<SpanView> {
    match verification {
        None => Seq::empty(),
        Some(Ok(true)) => seq![
            terminal::plainly(prefix),
            terminal::in_style("✓"@, Style::BoldGreen),
            terminal::plainly(" 验证通过: 证书指纹匹配\n"@),
        ],
        Some(Ok(false)) => seq![
            terminal::plainly(prefix),
            terminal::in_style("✗"@, Style::BoldRed),
            terminal::plainly(" 验证失败: 证书指纹不匹配\n"@),
        ],
        Some(Err(message)) => seq![
            terminal::plainly(prefix),
            terminal::in_style("✗"@, Style::BoldRed),
            terminal::plainly(" 验证错误: "@ + message + "\n"@),
        ],
    }
}

/// The lines about a deployment, indented by `indent` spaces.
pub open spec fn deployment_lines_view(result: DeployView, indent: nat) -> Seq<SpanView> {
    hooks_lines_view(spaces(indent), result.hooks, result.hooks.len()) + verification_line_view(
        spaces(indent),
        result.verification,
    )
}

fn push_hook_lines(spans: &mut Vec<Span>, prefix: &str, i: usize, hook: &deploy::HookResult)
    ensures
        terminal::span_views(final(spans)@) == terminal::span_views(old(spans)@) + hook_lines_view(
            prefix@,
            i as int,
            hook@,
        ),
{
    spans.push(plain(prefix));
    if hook.success {
        spans.push(styled("✓", Style::Green));
    } else {
        spans.push(styled("✗", Style::Red));
    }
    let mut rest = " [".to_owned();
    push_decimal(&mut rest, i as u64);
    rest.append("] ");
    rest.append(hook.command.as_str());
    rest.append("\n");
    spans.push(plain(rest.as_str()));
    if !hook.success {
        let mut label = prefix.to_owned();
        label.append("   错误: ");
        spans.push(plain(label.as_str()));
        spans.push(styled(hook.output.as_str(), Style::Red));
        spans.push(plain("\n"));
    }
    assert(terminal::span_views(spans@) =~= terminal::span_views(old(spans)@) + hook_lines_view(
        prefix@,
        i as int,
        hook@,
    ));
}

/// The lines about a deployment, indented by `indent` spaces.
pub fn deployment_lines(result: &DeployResultInner, indent: usize) -> (spans: Vec<Span>)
    ensures
        terminal::span_views(spans@) == deployment_lines_view(result@, indent as nat),
{
    let prefix = indentation(indent);
    let ghost hooks = result@.hooks;
    let mut spans: Vec<Span> = Vec::new();
    let mut i: usize = 0;
    assert(terminal::span_views(spans@) =~= Seq::empty());
    while i < result.hooks.len()
        invariant
            i <= result.hooks.len(),
            hooks == deploy::hook_views(result.hooks@),
            terminal::span_views(spans@) == hooks_lines_view(prefix@, hooks, i as nat),
        decreases result.hooks.len() - i,
    {
        assert(hooks[i as int] == result.hooks@[i as int]@);
        push_hook_lines(&mut spans, prefix.as_str(), i, &result.hooks[i]);
        i += 1;
    }
    let ghost before = terminal::span_views(spans@);
    match &result.verification {
        None => {},
        Some(Ok(true)) => {
            spans.push(plain(prefix.as_str()));
            spans.push(styled("✓", Style::BoldGreen));
            spans.push(plain(" 验证通过: 证书指纹匹配\n"));
        },
        Some(Ok(false)) => {
            spans.push(plain(prefix.as_str()));
            spans.push(styled("✗", Style::BoldRed));
            spans.push(plain(" 验证失败: 证书指纹不匹配\n"));
        },
        Some(Err(message)) => {
            let mut rest = " 验证错误: ".to_owned();
            rest.append(message.as_str());
            rest.append("\n");
            spans.push(plain(prefix.as_str()));
            spans.push(styled("✗", Style::BoldRed));
            spans.push(plain(rest.as_str()));
        },
    }
    assert(terminal::span_views(spans@) =~= before + verification_line_view(
        prefix@,
        result@.verification,
    ));
    spans
}

/// The lines with which a deployment ends: the complaints about it, if there are any.
pub open spec fn conclusion_view(complaints: Seq<Seq<char>>) -> Seq<SpanView> {
    if complaints.len() == 0 {
        seq![
            terminal::plainly("\n"@),
            terminal::in_style("✓ 部署完成"@, Style::BoldGreen),
            terminal::plainly("\n"@),
        ]
    } else {
        seq![
            terminal::plainly("\n"@),
            terminal::in_style("⚠️  部署过程中出现错误:"@, Style::BoldYellow),
            terminal::plainly("\n"@),
        ] + Seq::new(
            complaints.len(),
            |i: int| terminal::plainly("  - "@ + complaints[i] + "\n"@),
        )
    }
}

/// The lines with which a deployment ends.
pub fn conclusion_lines(result: &DeployResultInner) -> (spans: Vec<Span>)
    ensures
        terminal::span_views(spans@) == conclusion_view(result@.complaints()),
{
    let errors = result.has_errors();
    let ghost complaints = result@.complaints();
    assert(complaints.len() == errors@.len());
    if errors.len() == 0 {
        let spans = vec![plain("\n"), styled("✓ 部署完成", Style::BoldGreen), plain("\n")];
        assert(terminal::span_views(spans@) =~= conclusion_view(complaints));
        return spans;
    }
    let mut spans = vec![
        plain("\n"),
        styled("⚠️  部署过程中出现错误:", Style::BoldYellow),
        plain("\n"),
    ];
    let ghost head = terminal::span_views(spans@);
    let ghost lines = Seq::new(
        complaints.len(),
        |i: int| terminal::plainly("  - "@ + complaints[i] + "\n"@),
    );
    let mut i: usize = 0;
    assert(head + lines.take(0) =~= head);
    while i < errors.len()
        invariant
            i <= errors.len(),
            complaints == text::texts(errors@),
            lines == Seq::new(
                complaints.len(),
                |i: int| terminal::plainly("  - "@ + complaints[i] + "\n"@),
            ),
            terminal::span_views(spans@) == head + lines.take(i as int),
        decreases errors.len() - i,
    {
        let ghost before = terminal::span_views(spans@);
        let mut line = "  - ".to_owned();
        line.append(errors[i].as_str());
        line.append("\n");
        let span = plain(line.as_str());
        spans.push(span);
        assert(complaints[i as int] == errors@[i as int]@);
        assert(terminal::span_views(spans@) =~= before.push(span@));
        assert(head + lines.take(i + 1) =~= (head + lines.take(i as int)).push(lines[i as int]));
        i += 1;
    }
    assert(lines.take(lines.len() as int) =~= lines);
    assert(head =~= seq![
        terminal::plainly("\n"@),
        terminal::in_style("⚠️  部署过程中出现错误:"@, Style::BoldYellow),
        terminal::plainly("\n"@),
    ]);
    spans
}

/// A time in a table, or a dash where there is none.
pub open spec fn time_or_dash(time: Option<Timestamp>) -> Seq<char> {
    match time {
        Some(time) => time.text_by("%Y-%m-%d %H:%M"@),
        None => "-"@,
    }
}

/// How many of some renewals succeeded.
pub open spec fn successes(history: Seq<RenewalView>) -> nat
    decreases history.len(),
{
    if history.len() == 0 {
        0
    } else {
        successes(history.drop_last()) + if history.last().success {
            1nat
        } else {
            0
        }
    }
}

/// How many renewals succeeded, and how many there were.
pub open spec fn history_text(history: Seq<RenewalView>) -> Seq<char> {
    text::decimal(successes(history)) + "/"@ + text::decimal(history.len()) + " (最近5次)"@
}

/// The row of a domain in the table of what is remembered.
pub open spec fn status_row_view(name: Seq<char>, domain: DomainView) -> Seq<CellView> {
    seq![
        terminal::cell_of(name, CellStyle::Plain),
        terminal::cell_of(time_or_dash(domain.last_scan), CellStyle::Plain),
        terminal::cell_of(time_or_dash(domain.last_renew), CellStyle::Plain),
        terminal::cell_of(
            match domain.current_fingerprint {
                Some(fingerprint) => text::shortened(fingerprint, 20, 17),
                None => "-"@,
            },
            CellStyle::Plain,
        ),
        terminal::cell_of(history_text(domain.renewal_history), CellStyle::Plain),
    ]
}

fn format_time(time: Option<Timestamp>) -> (text: String)
    ensures
        text@ == time_or_dash(time),
{
    match time {
        Some(time) => time.format("%Y-%m-%d %H:%M"),
        None => "-".to_owned(),
    }
}

proof fn lemma_successes(history: Seq<RenewalView>)
    ensures
        successes(history) <= history.len(),
    decreases history.len(),
{
    if history.len() > 0 {
        lemma_successes(history.drop_last());
    }
}

fn format_history(history: &Vec<RenewalHistory>) -> (text: String)
    ensures
        text@ == history_text(types::renewal_views(history@)),
{
    let ghost views = types::renewal_views(history@);
    let mut count: usize = 0;
    let mut i: usize = 0;
    assert(views.take(0) =~= Seq::empty());
    while i < history.len()
        invariant
            i <= history.len(),
            views == types::renewal_views(history@),
            count == successes(views.take(i as int)),
        decreases history.len() - i,
    {
        proof {
            let upto = views.take(i + 1);
            assert(upto.drop_last() =~= views.take(i as int));
            assert(upto.last() == history@[i as int]@);
            lemma_successes(views.take(i as int));
        }
        if history[i].success {
            count += 1;
        }
        i += 1;
    }
    assert(views.take(views.len() as int) =~= views);
    let mut text = String::new();
    push_decimal(&mut text, count as u64);
    text.append("/");
    push_decimal(&mut text, history.len() as u64);
    text.append(" (最近5次)");
    assert(text@ =~= history_text(views));
    text
}

/// The row of a domain in the table of what is remembered.
pub fn status_row(name: &str, state: &DomainState) -> (row: Vec<TableCell>)
    ensures
        terminal::cell_views(row@) == status_row_view(name@, state@),
{
    let fingerprint = match &state.current_fingerprint {
        Some(fingerprint) => shorten(fingerprint.as_str(), 20, 17),
        None => "-".to_owned(),
    };
    let row = vec![
        cell(name, CellStyle::Plain),
        TableCell { text: format_time(state.last_scan), style: CellStyle::Plain },
        TableCell { text: format_time(state.last_renew), style: CellStyle::Plain },
        TableCell { text: fingerprint, style: CellStyle::Plain },
        TableCell { text: format_history(&state.renewal_history), style: CellStyle::Plain },
    ];
    assert(terminal::cell_views(row@) =~= status_row_view(name@, state@));
    row
}

/// Whether these are the rows of what is remembered, one for each domain, in the
/// order of the names.
pub open spec fn are_status_rows(state: AppView, rows: Seq<Seq<CellView>>) -> bool {
    exists|names: Seq<Seq<char>>| #[trigger]
        are_names_in_order(state, names) && rows == Seq::new(
            names.len(),
            |i: int| status_row_view(names[i], state.domains[names[i]]),
        )
}

/// Whether these are the names of all domains that are remembered, each once, in
/// their order.
pub open spec fn are_names_in_order(state: AppView, names: Seq<Seq<char>>) -> bool {
    &&& forall|name: Seq<char>| #[trigger]
        state.domains.contains_key(name) <==> names.contains(name)
    &&& forall|i: int, j: int|
        0 <= i < j < names.len() ==> order::text_before(#[trigger] names[i], #[trigger] names[j])
}

/// The rows of what is remembered.
pub fn status_rows(state: &AppState) -> (rows: Vec<Vec<TableCell>>)
    requires
        state.wf(),
    ensures
        are_status_rows(state@, terminal::row_views(rows@)),
{
    let ghost added = state.domains.names();
    let mut list: Vec<&str> = Vec::new();
    let mut i: usize = 0;
    while i < state.domains.len()
        invariant
            i <= added.len(),
            added == state.domains.names(),
            list.len() == i,
            forall|j: int| 0 <= j < i ==> (#[trigger] list@[j])@ == added[j],
        decreases added.len() - i,
    {
        list.push(state.domains.name_at(i).as_str());
        i += 1;
    }
    assert(Seq::new(list@.len(), |i: int| list@[i]@) =~= added);
    let order = order_by_name(&list);
    let ghost places = order::places(order@);
    let ghost names = Seq::new(places.len(), |i: int| added[places[i]]);
    let mut rows: Vec<Vec<TableCell>> = Vec::new();
    let mut i: usize = 0;
    while i < order.len()
        invariant
            i <= order.len(),
            state.wf(),
            added == state.domains.names(),
            places == order::places(order@),
            order::names_each_once(places, added.len()),
            names == Seq::new(places.len(), |i: int| added[places[i]]),
            rows.len() == i,
            forall|j: int|
                0 <= j < i ==> terminal::cell_views((#[trigger] rows@[j])@) == status_row_view(
                    names[j],
                    state@.domains[names[j]],
                ),
        decreases order.len() - i,
    {
        assert(0 <= places[i as int] < added.len());
        let name = state.domains.name_at(order[i]);
        let domain = state.domains.state_at(order[i]);
        rows.push(status_row(name.as_str(), domain));
        i += 1;
    }
    proof {
        state.domains.lemma_names();
        lemma_names_in_order(state@, added, places, names);
        assert(terminal::row_views(rows@) =~= Seq::new(
            names.len(),
            |i: int| status_row_view(names[i], state@.domains[names[i]]),
        ));
    }
    rows
}

proof fn lemma_names_in_order(
    state: AppView,
    added: Seq<Seq<char>>,
    places: Seq<int>,
    names: Seq<Seq<char>>,
)
    requires
        added.no_duplicates(),
        forall|name: Seq<char>| #[trigger]
            state.domains.contains_key(name) <==> added.contains(name),
        order::is_name_order_of(added, places),
        names == Seq::new(places.len(), |i: int| added[places[i]]),
    ensures
        are_names_in_order(state, names),
{
    assert forall|name: Seq<char>| #[trigger] state.domains.contains_key(name) <==> names.contains(
        name,
    ) by {
        if added.contains(name) {
            let k = added.index_of(name);
            assert(places.contains(k));
            let i = places.index_of(k);
            assert(names[i] == name);
        }
        if names.contains(name) {
            let i = names.index_of(name);
            assert(0 <= places[i] < added.len());
            assert(added[places[i]] == name);
        }
    }
    assert forall|i: int, j: int| 0 <= i < j < names.len() implies order::text_before(
        #[trigger] names[i],
        #[trigger] names[j],
    ) by {
        assert(order::name_comes_first(added, places[i], places[j]));
        assert(0 <= places[i] < added.len() && 0 <= places[j] < added.len());
        assert(places[i] != places[j]);
    }
}

proof fn lemma_names_distinct(state: AppView, names: Seq<Seq<char>>)
    requires
        are_names_in_order(state, names),
    ensures
        names.no_duplicates(),
        forall|name: Seq<char>| #[trigger]
            names.to_set().contains(name) <==> state.domains.contains_key(name),
        names.len() == names.to_set().len(),
{
    assert forall|i: int, j: int| 0 <= i < names.len() && 0 <= j < names.len() && i
        != j implies names[i] != names[j] by {
        order::lemma_text_before_once(names[i], names[j]);
        if i < j {
            assert(order::text_before(names[i], names[j]));
        } else {
            assert(order::text_before(names[j], names[i]));
        }
    }
    assert forall|name: Seq<char>| #[trigger]
        names.to_set().contains(name) <==> state.domains.contains_key(name) by {
        assert(names.contains(name) <==> state.domains.contains_key(name));
    }
    names.unique_seq_to_set();
}

/// What is remembered has one table: the rows that are its are the only ones.
pub proof fn states_have_one_table(
    state: AppView,
    rows: Seq<Seq<CellView>>,
    other: Seq<Seq<CellView>>,
)
    requires
        are_status_rows(state, rows),
        are_status_rows(state, other),
    ensures
        rows == other,
{
    let a = choose|names: Seq<Seq<char>>| #[trigger]
        are_names_in_order(state, names) && rows == Seq::new(
            names.len(),
            |i: int| status_row_view(names[i], state.domains[names[i]]),
        );
    let b = choose|names: Seq<Seq<char>>| #[trigger]
        are_names_in_order(state, names) && other == Seq::new(
            names.len(),
            |i: int| status_row_view(names[i], state.domains[names[i]]),
        );
    let first = |x: Seq<char>, y: Seq<char>| order::text_before(x, y);
    assert forall|x: Seq<char>, y: Seq<char>| !(#[trigger] first(x, y) && first(y, x)) by {
        order::lemma_text_before_once(x, y);
    }
    lemma_names_distinct(state, a);
    lemma_names_distinct(state, b);
    assert(a.to_set() =~= b.to_set());
    assert forall|name: Seq<char>| #[trigger] a.contains(name) <==> b.contains(name) by {
        assert(a.to_set().contains(name) <==> b.to_set().contains(name));
    }
    order::lemma_sorted_alike(a, b, first);
}

/// The titles of the columns of the table of what is remembered.
pub open spec fn status_titles() -> Seq<Seq<char>> {
    seq!["域名"@, "上次扫描"@, "上次续签"@, "当前指纹"@, "续签记录"@]
}

/// The table of what is remembered.
pub fn status_table(state: &AppState) -> (text: String)
    requires
        state.wf(),
    ensures
        exists|rows: Seq<Seq<CellView>>| #[trigger]
            are_status_rows(state@, rows) && terminal::shows_table(
                report::titles_row(status_titles()),
                rows,
                text@,
            ),
{
    let header = vec![
        title("域名"),
        title("上次扫描"),
        title("上次续签"),
        title("当前指纹"),
        title("续签记录"),
    ];
    assert(terminal::cell_views(header@) =~= report::titles_row(status_titles()));
    let rows = status_rows(state);
    draw_table(&header, &rows)
}

/// The lines above the table of what is remembered.
pub open spec fn status_head_view(updated_at: Timestamp, count: nat) -> Seq<SpanView> {
    seq![
        terminal::in_style("上次更新时间:"@, Style::Blue),
        terminal::plainly(" "@ + updated_at.text_by("%Y-%m-%d %H:%M:%S UTC"@) + "\n"@),
        terminal::in_style("监控域名数:"@, Style::Blue),
        terminal::plainly(" "@),
        terminal::in_style(text::decimal(count), Style::Bold),
        terminal::plainly("\n\n"@),
    ]
}

/// The lines above the table of what is remembered: when it was saved last, and how
/// many domains there are.
pub fn status_head(state: &AppState) -> (spans: Vec<Span>)
    ensures
        terminal::span_views(spans@) == status_head_view(
            state.updated_at,
            state.domains.names().len(),
        ),
{
    let mut rest = " ".to_owned();
    rest.append(state.updated_at.format("%Y-%m-%d %H:%M:%S UTC").as_str());
    rest.append("\n");
    let spans = vec![
        styled("上次更新时间:", Style::Blue),
        plain(rest.as_str()),
        styled("监控域名数:", Style::Blue),
        plain(" "),
        styled_number(state.domains.len() as u64, Style::Bold),
        plain("\n\n"),
    ];
    assert(terminal::span_views(spans@) =~= status_head_view(
        state.updated_at,
        state.domains.names().len(),
    ));
    spans
}

/// A renewal is considered for the domain that is named, whether or not it is renewed by
/// itself, and for no other; where none is named, for all that are renewed by themselves. The
/// domains are considered in their order, each once.
pub proof fn the_named_domain_or_the_automatic_ones_are_considered(
    domains: Seq<DomainConfig>,
    filter: Option<Seq<char>>,
    k: int,
)
    requires
        0 <= k < domains.len(),
    ensures
        filter matches Some(name) ==> (selected_upto(domains, filter, domains.len()).contains(k)
            <==> domains[k].name@ == name),
        filter is None ==> (selected_upto(domains, filter, domains.len()).contains(k)
            <==> domains[k].auto_renew),
        forall|i: int, j: int|
            0 <= i < j < selected_upto(domains, filter, domains.len()).len() ==> (
            #[trigger] selected_upto(domains, filter, domains.len())[i]) < (
            #[trigger] selected_upto(domains, filter, domains.len())[j]),
{
    selection_is_exact(domains, filter, k);
    lemma_selected_in_order(domains, filter, domains.len());
}

proof fn lemma_selected_in_order(domains: Seq<DomainConfig>, filter: Option<Seq<char>>, n: nat)
    ensures
        forall|i: int|
            0 <= i < selected_upto(domains, filter, n).len() ==> 0 <= #[trigger] selected_upto(
                domains,
                filter,
                n,
            )[i] < n,
        forall|i: int, j: int|
            0 <= i < j < selected_upto(domains, filter, n).len() ==> (#[trigger] selected_upto(
                domains,
                filter,
                n,
            )[i]) < (#[trigger] selected_upto(domains, filter, n)[j]),
    decreases n,
{
    if n > 0 {
        lemma_selected_in_order(domains, filter, (n - 1) as nat);
        let before = selected_upto(domains, filter, (n - 1) as nat);
        let after = selected_upto(domains, filter, n);
        assert forall|i: int| 0 <= i < after.len() implies 0 <= #[trigger] after[i] < n by {
            if i < before.len() {
                assert(after[i] == before[i]);
            }
        }
        assert forall|i: int, j: int| 0 <= i < j < after.len() implies (#[trigger] after[i]) < (
        #[trigger] after[j]) by {
            assert(after[i] == before[i]);
            if j < before.len() {
                assert(after[j] == before[j]);
            }
        }
    }
}

/// The certificate for a name is one that a scan shows under that name, and none is shown
/// under it by a later scan; where there is none, no scan shows one.
pub proof fn the_last_certificate_for_a_name_counts(scans: Seq<ScanView>, name: Seq<char>, n: nat)
    requires
        n <= scans.len(),
    ensures
        match certificate_for(scans, name, n) {
            Some(cert) => cert.domain == name && exists|k: int|
                0 <= k < n && (#[trigger] scans[k]).cert == Some(cert) && (forall|j: int|
                    k < j < n ==> ((#[trigger] scans[j]).cert matches Some(other) ==> other.domain
                        != name)),
            None => forall|k: int|
                0 <= k < n ==> ((#[trigger] scans[k]).cert matches Some(other) ==> other.domain
                    != name),
        },
    decreases n,
{
    if n > 0 {
        let here = scans[n - 1].cert matches Some(cert) && cert.domain == name;
        if here {
            assert(scans[n - 1].cert == certificate_for(scans, name, n));
        } else {
            the_last_certificate_for_a_name_counts(scans, name, (n - 1) as nat);
            if let Some(cert) = certificate_for(scans, name, (n - 1) as nat) {
                let k = choose|k: int|
                    0 <= k < n - 1 && (#[trigger] scans[k]).cert == Some(cert) && (forall|j: int|
                        k < j < n - 1 ==> ((#[trigger] scans[j]).cert matches Some(other)
                            ==> other.domain != name));
                assert(scans[k].cert == Some(cert));
                assert forall|j: int| k < j < n implies ((#[trigger] scans[j]).cert matches Some(
                    other,
                ) ==> other.domain != name) by {
                    assert(j < n - 1 || j == n - 1);
                }
            }
        }
    }
}

/// What is decided on a certificate is told with the days that it has left; without
/// insistence, a certificate is renewed exactly where it is due, and one of which nothing is
/// known is left alone.
pub proof fn decisions_tell_the_days_left(
    config: Config,
    cert: Option<CertificateView>,
    force: bool,
    now: Timestamp,
)
    requires
        clock::names_instant(now.secs(), now.nanos()),
        cert matches Some(cert) ==> clock::names_instant(
            cert.not_after.secs(),
            cert.not_after.nanos(),
        ),
    ensures
        decision(config, cert, force, now) is Forced <==> force,
        decision(config, cert, force, now) is Unknown <==> !force && cert is None,
        decision(config, cert, force, now) matches RenewalDecision::Due { days } ==> days
            == clock::elapsed_days(cert->0.not_after, now),
        decision(config, cert, force, now) matches RenewalDecision::NotDue { days } ==> days
            == clock::elapsed_days(cert->0.not_after, now),
        !force ==> (cert matches Some(cert) ==> (decision(config, Some(cert), force, now) is Due
            <==> acme::is_due(config, cert, now))),
        decision(config, cert, force, now).renews() <==> decision(config, cert, force, now)
            is Forced || decision(config, cert, force, now) is Due,
{
    if let Some(cert) = cert {
        let nanos = clock::elapsed_nanos(cert.not_after, now);
        assert(-20_000_000_000_000_000_000_000 < nanos < 20_000_000_000_000_000_000_000);
        assert(-20_000_000_000_000 < clock::elapsed_secs(cert.not_after, now)
            < 20_000_000_000_000);
    }
}

/// Whether one of some spans holds a text.
pub open spec fn tells(spans: Seq<SpanView>, part: Seq<char>) -> bool {
    exists|i: int| 0 <= i < spans.len() && text::has_part((#[trigger] spans[i]).text, part)
}

proof fn lemma_tells(spans: Seq<SpanView>, i: int, before: Seq<char>, part: Seq<char>, after: Seq<char>)
    requires
        0 <= i < spans.len(),
        spans[i].text == before + part + after,
    ensures
        tells(spans, part),
{
    text::lemma_has_part(before, part, after);
}

proof fn lemma_tells_whole(spans: Seq<SpanView>, i: int)
    requires
        0 <= i < spans.len(),
    ensures
        tells(spans, spans[i].text),
{
    let none = Seq::<char>::empty();
    text::lemma_has_part(none, spans[i].text, none);
    assert(none + spans[i].text + none =~= spans[i].text);
}

/// The line about a decision names the domain, and tells the days that are left where they
/// are known, and the threshold where it was reached. Only a renewal is marked with an arrow.
pub proof fn decisions_name_their_domain(
    decision: RenewalDecision,
    name: Seq<char>,
    threshold: i64,
)
    ensures
        tells(decision_view(decision, name, threshold), name),
        decision matches RenewalDecision::Due { days } ==> tells(
            decision_view(decision, name, threshold),
            text::signed_decimal(days as int),
        ) && tells(
            decision_view(decision, name, threshold),
            text::signed_decimal(threshold as int),
        ),
        decision matches RenewalDecision::NotDue { days } ==> tells(
            decision_view(decision, name, threshold),
            text::signed_decimal(days as int),
        ),
        decision_view(decision, name, threshold)[0].text == "→"@ <==> decision.renews(),
{
    reveal_strlit("→");
    reveal_strlit("✓");
    reveal_strlit("✗");
    assert("→"@[0] == '→' && "✓"@[0] == '✓' && "✗"@[0] == '✗');
    let spans = decision_view(decision, name, threshold);
    match decision {
        RenewalDecision::Forced => {
            lemma_tells_whole(spans, 2);
        },
        RenewalDecision::Due { days } => {
            lemma_tells_whole(spans, 2);
            lemma_tells_whole(spans, 4);
            lemma_tells(
                spans,
                5,
                " 天, 阈值 "@,
                text::signed_decimal(threshold as int),
                " 天)\n"@,
            );
        },
        RenewalDecision::NotDue { days } => {
            lemma_tells(spans, 1, " "@, name, " (剩余 "@);
            lemma_tells_whole(spans, 2);
        },
        RenewalDecision::Unknown => {
            lemma_tells(spans, 1, " "@, name, " (无法获取证书信息, 跳过)\n"@);
        },
    }
}

/// The line about a renewal is marked by whether it succeeded; it tells the new fingerprint,
/// or why the renewal failed.
pub proof fn renewals_are_told_as_they_ended(record: RenewalView)
    ensures
        renewal_view(record)[1].text == "✓"@ <==> record.success,
        renewal_view(record)[1].text == "✗"@ <==> !record.success,
        record.success ==> (record.new_fingerprint matches Some(fingerprint) ==> tells(
            renewal_view(record),
            fingerprint,
        )),
        !record.success ==> tells(renewal_view(record), record.message),
{
    reveal_strlit("✓");
    reveal_strlit("✗");
    assert("✓"@[0] == '✓' && "✗"@[0] == '✗');
    let spans = renewal_view(record);
    if record.success {
        if let Some(fingerprint) = record.new_fingerprint {
            lemma_tells(spans, 2, " 续签成功! 新指纹: "@, fingerprint, "\n"@);
        }
    } else {
        lemma_tells(spans, 2, " 续签失败: "@, record.message, "\n"@);
    }
}

/// A renewal is remembered for its own domain alone, and the state is saved exactly where it
/// succeeded.
pub proof fn renewals_concern_their_own_domain(
    state: AppView,
    domain: Seq<char>,
    other: Seq<char>,
    record: RenewalView,
    now: Timestamp,
)
    ensures
        other != domain ==> after_renewal(state, domain, record, now).domain(other)
            == state.domain(other),
        record.success ==> after_renewal(state, domain, record, now).updated_at == now,
        !record.success ==> after_renewal(state, domain, record, now).updated_at
            == state.updated_at,
        after_renewal(state, domain, record, now).domain(domain).renewal_history.last() == record,
{
    state::histories_end_with_the_newest(state, domain, record);
}

/// An alert about a deployment is announced where a hook failed or the servers were not
/// found with the new certificate, and an alert about the old one may be sent; never where
/// all went well, and never where nothing is known of the old certificate.
pub proof fn only_failed_deployments_are_announced(
    config: Config,
    state: AppView,
    name: Seq<char>,
    cert: CertificateView,
    level: AlertLevel,
    result: DeployView,
    now: Timestamp,
)
    requires
        AlertLevel::of_days(clock::elapsed_days(cert.not_after, now)) == Some(level),
    ensures
        (forall|i: int| 0 <= i < result.hooks.len() ==> (#[trigger] result.hooks[i]).success)
            && result.verification == Some(Ok::<bool, Seq<char>>(true)) ==> !announces_failure(
            config,
            state,
            name,
            Some(cert),
            result,
            now,
        ),
        !announces_failure(config, state, name, None, result, now),
        result.verification != Some(Ok::<bool, Seq<char>>(true)) ==> (announces_failure(
            config,
            state,
            name,
            Some(cert),
            result,
            now,
        ) <==> state.may_notify(name, level, config.debounce_hours() as int, now)),
        (exists|i: int| 0 <= i < result.hooks.len() && !(#[trigger] result.hooks[i]).success) ==> (
        announces_failure(config, state, name, Some(cert), result, now) <==> state.may_notify(
            name,
            level,
            config.debounce_hours() as int,
            now,
        )),
{
}

/// The lines about a hook give its number and its command, and are marked by whether it
/// succeeded; what it wrote is told exactly where it failed.
pub proof fn hooks_are_told_as_they_ended(prefix: Seq<char>, i: int, hook: HookView)
    requires
        i >= 0,
    ensures
        tells(hook_lines_view(prefix, i, hook), hook.command),
        tells(hook_lines_view(prefix, i, hook), "["@ + text::decimal(i as nat) + "]"@),
        hook_lines_view(prefix, i, hook)[1].text == "✓"@ <==> hook.success,
        hook.success ==> hook_lines_view(prefix, i, hook).len() == 3,
        !hook.success ==> tells(hook_lines_view(prefix, i, hook), hook.output),
{
    reveal_strlit("✓");
    reveal_strlit("✗");
    assert("✓"@[0] == '✓' && "✗"@[0] == '✗');
    let spans = hook_lines_view(prefix, i, hook);
    let number = text::decimal(i as nat);
    lemma_tells(spans, 2, " ["@ + number + "] "@, hook.command, "\n"@);
    let part = "["@ + number + "]"@;
    reveal_strlit(" [");
    reveal_strlit("[");
    reveal_strlit("] ");
    reveal_strlit("]");
    reveal_strlit(" ");
    assert(spans[2].text =~= " "@ + part + (" "@ + hook.command + "\n"@));
    lemma_tells(spans, 2, " "@, part, " "@ + hook.command + "\n"@);
    if !hook.success {
        assert(spans[4].text == hook.output);
        lemma_tells_whole(spans, 4);
    }
}

/// The lines about the hooks come in the order of the hooks: one more hook adds its own lines
/// at the end.
pub proof fn hooks_are_told_in_their_order(prefix: Seq<char>, hooks: Seq<HookView>, hook: HookView)
    ensures
        hooks_lines_view(prefix, hooks.push(hook), hooks.push(hook).len()) == hooks_lines_view(
            prefix,
            hooks,
            hooks.len(),
        ) + hook_lines_view(prefix, hooks.len() as int, hook),
        hooks_lines_view(prefix, Seq::empty(), 0) == Seq::<SpanView>::empty(),
{
    lemma_hooks_lines(prefix, hooks, hook, hooks.len());
}

proof fn lemma_hooks_lines(prefix: Seq<char>, hooks: Seq<HookView>, hook: HookView, n: nat)
    requires
        n <= hooks.len(),
    ensures
        hooks_lines_view(prefix, hooks.push(hook), n) == hooks_lines_view(prefix, hooks, n),
    decreases n,
{
    if n > 0 {
        lemma_hooks_lines(prefix, hooks, hook, (n - 1) as nat);
        assert(hooks.push(hook)[n - 1] == hooks[n - 1]);
    }
}

/// A verification is told exactly where there was one: as passed where the fingerprints
/// agree, and otherwise as failed, with the error where there was one.
pub proof fn verifications_are_told_as_they_ended(
    prefix: Seq<char>,
    verification: Option<Result<bool, Seq<char>>>,
)
    ensures
        verification is None <==> verification_line_view(prefix, verification).len() == 0,
        verification is Some ==> (verification_line_view(prefix, verification)[1].text == "✓"@
            <==> verification == Some(Ok::<bool, Seq<char>>(true))),
        verification matches Some(Err(message)) ==> tells(
            verification_line_view(prefix, verification),
            message,
        ),
{
    reveal_strlit("✓");
    reveal_strlit("✗");
    assert("✓"@[0] == '✓' && "✗"@[0] == '✗');
    if let Some(Err(message)) = verification {
        lemma_tells(
            verification_line_view(prefix, verification),
            2,
            " 验证错误: "@,
            message,
            "\n"@,
        );
    }
}

/// A deployment ends with one line for each complaint, in their order, or else with the word
/// that it is done.
pub proof fn every_complaint_is_told(complaints: Seq<Seq<char>>, i: int)
    ensures
        0 <= i < complaints.len() ==> text::has_part(
            conclusion_view(complaints)[3 + i].text,
            complaints[i],
        ),
        conclusion_view(complaints).len() == 3 + complaints.len(),
        tells(conclusion_view(complaints), "✓ 部署完成"@) || complaints.len() > 0,
        complaints.len() > 0 ==> conclusion_view(complaints)[1].style == Style::BoldYellow,
        complaints.len() == 0 ==> conclusion_view(complaints)[1].style == Style::BoldGreen,
{
    if 0 <= i < complaints.len() {
        text::lemma_has_part("  - "@, complaints[i], "\n"@);
    }
    if complaints.len() == 0 {
        lemma_tells_whole(conclusion_view(complaints), 1);
    }
}

/// Each alert that was sent has a line with its domain and its channels.
pub proof fn every_sent_alert_is_told(alerts: Seq<SentAlert>, i: int)
    requires
        0 <= i < alerts.len(),
    ensures
        sent_view(alerts).len() == 3 + alerts.len(),
        text::has_part(sent_view(alerts)[3 + i].text, alerts[i].domain@),
        text::has_part(
            sent_view(alerts)[3 + i].text,
            text::joined(text::texts(alerts[i].channels@), ", "@),
        ),
{
    let domain = alerts[i].domain@;
    let channels = text::joined(text::texts(alerts[i].channels@), ", "@);
    let line = sent_line(alerts[i]);
    assert(sent_view(alerts)[3 + i] == terminal::plainly(line));
    text::lemma_has_part("  "@, domain, " → "@ + channels + "\n"@);
    assert("  "@ + domain + (" → "@ + channels + "\n"@) =~= line);
    text::lemma_has_part("  "@ + domain + " → "@, channels, "\n"@);
}

/// In the row of a domain, each thing stands under its own title: the name, the times of the
/// last scan and of the last renewal, and the fingerprint from its beginning on; a dash stands
/// for what is not known.
pub proof fn rows_show_what_is_remembered(name: Seq<char>, domain: DomainView)
    ensures
        ({
            let row = status_row_view(name, domain);
            &&& row.len() == status_titles().len() == 5
            &&& status_titles()[0] == "域名"@ && row[0].text == name
            &&& status_titles()[1] == "上次扫描"@ && row[1].text == match domain.last_scan {
                Some(time) => clock::time_text(time.secs(), time.nanos(), "%Y-%m-%d %H:%M"@),
                None => "-"@,
            }
            &&& status_titles()[2] == "上次续签"@ && row[2].text == match domain.last_renew {
                Some(time) => clock::time_text(time.secs(), time.nanos(), "%Y-%m-%d %H:%M"@),
                None => "-"@,
            }
            &&& status_titles()[3] == "当前指纹"@ && row[3].text == match domain.current_fingerprint {
                Some(fingerprint) => text::shortened(fingerprint, 20, 17),
                None => "-"@,
            }
            &&& status_titles()[4] == "续签记录"@ && text::begins_with(
                row[4].text,
                text::decimal(successes(domain.renewal_history)) + "/"@ + text::decimal(
                    domain.renewal_history.len(),
                ),
            )
        }),
{
    let head = text::decimal(successes(domain.renewal_history)) + "/"@ + text::decimal(
        domain.renewal_history.len(),
    );
    assert(history_text(domain.renewal_history).take(head.len() as int) =~= head);
}

/// One more renewal adds one to the successes exactly where it succeeded.
pub proof fn successes_are_counted_one_by_one(history: Seq<RenewalView>, renewal: RenewalView)
    ensures
        successes(history.push(renewal)) == successes(history) + (if renewal.success {
            1int
        } else {
            0
        }),
        successes(history) <= history.len(),
        successes(Seq::empty()) == 0,
{
    assert(history.push(renewal).drop_last() =~= history);
    lemma_successes(history);
}

/// Every domain that is remembered has a row, under its own name and with what is remembered
/// of it; the rows come in the order of the names.
pub proof fn every_remembered_domain_has_a_row(
    state: AppView,
    rows: Seq<Seq<CellView>>,
    name: Seq<char>,
)
    requires
        are_status_rows(state, rows),
    ensures
        state.domains.contains_key(name) ==> rows.contains(
            status_row_view(name, state.domains[name]),
        ),
        forall|i: int, j: int|
            0 <= i < j < rows.len() ==> order::text_before(
                (#[trigger] rows[i])[0].text,
                (#[trigger] rows[j])[0].text,
            ),
        forall|i: int|
            0 <= i < rows.len() ==> state.domains.contains_key((#[trigger] rows[i])[0].text),
{
    let names = choose|names: Seq<Seq<char>>| #[trigger]
        are_names_in_order(state, names) && rows == Seq::new(
            names.len(),
            |i: int| status_row_view(names[i], state.domains[names[i]]),
        );
    if state.domains.contains_key(name) {
        let i = names.index_of(name);
        assert(rows[i] == status_row_view(name, state.domains[name]));
    }
    assert forall|i: int| 0 <= i < rows.len() implies (#[trigger] rows[i])[0].text == names[i]
        && state.domains.contains_key(rows[i][0].text) by {
        assert(names.contains(names[i]));
    }
}

/// What is told of a target names the domain, and the fingerprint where one is expected.
pub proof fn targets_are_named(domain: Seq<char>, fingerprint: Option<Seq<char>>)
    ensures
        tells(target_view(domain, fingerprint), domain),
        fingerprint matches Some(fingerprint) ==> tells(
            target_view(domain, Some(fingerprint)),
            fingerprint,
        ),
        fingerprint is None ==> target_view(domain, fingerprint).len() == 3,
{
    let spans = target_view(domain, fingerprint);
    lemma_tells(spans, 1, ": "@, domain, "\n"@);
    if let Some(fingerprint) = fingerprint {
        assert(spans[3].text == ": "@ + fingerprint + "\n\n"@);
        lemma_tells(spans, 3, ": "@, fingerprint, "\n\n"@);
    }
}

/// What stands above the table tells when the state was saved last, and how many domains
/// there are.
pub proof fn heads_tell_time_and_count(updated_at: Timestamp, count: nat)
    ensures
        tells(
            status_head_view(updated_at, count),
            clock::time_text(updated_at.secs(), updated_at.nanos(), "%Y-%m-%d %H:%M:%S UTC"@),
        ),
        tells(status_head_view(updated_at, count), text::decimal(count)),
{
    let spans = status_head_view(updated_at, count);
    lemma_tells(spans, 1, " "@, updated_at.text_by("%Y-%m-%d %H:%M:%S UTC"@), "\n"@);
    lemma_tells_whole(spans, 4);
}

/// The lines about a deployment are those about its hooks, in their order, and then that about
/// its verification, all of them indented alike.
pub proof fn deployments_are_told_hooks_first(result: DeployView, indent: nat)
    ensures
        hooks_lines_view(spaces(indent), result.hooks, result.hooks.len()).is_prefix_of(
            deployment_lines_view(result, indent),
        ),
        result.hooks.len() == 0 ==> deployment_lines_view(result, indent)
            == verification_line_view(spaces(indent), result.verification),
        result.verification is None ==> deployment_lines_view(result, indent) == hooks_lines_view(
            spaces(indent),
            result.hooks,
            result.hooks.len(),
        ),
        spaces(indent).len() == indent,
        forall|i: int| 0 <= i < indent ==> #[trigger] spaces(indent)[i] == ' ',
{
    let hooks = hooks_lines_view(spaces(indent), result.hooks, result.hooks.len());
    let line = verification_line_view(spaces(indent), result.verification);
    assert((hooks + line).take(hooks.len() as int) =~= hooks);
    if result.hooks.len() == 0 {
        assert(hooks + line =~= line);
    }
    if result.verification is None {
        assert(hooks + line =~= hooks);
    }
}

/// A banner shows its text between two lines, and a label stands before its text.
pub proof fn banners_and_labels_tell_their_text(label: Seq<char>, style: Style, text: Seq<char>)
    ensures
        banner_view(text)[2].text == text,
        banner_view(text)[0].text == banner_view(text)[4].text,
        labelled_view(label, style, text)[0].text == label,
        labelled_view(label, style, text)[0].style == style,
        text::has_part(labelled_view(label, style, text)[1].text, text),
        labelled_view(label, style, text).len() == 2,
{
    text::lemma_has_part(" "@, text, "\n"@);
}

/// A fingerprint that is given is the one that is expected, whatever is remembered; without
/// one, the one that is remembered is.
pub proof fn given_fingerprints_are_expected(given: Seq<char>, remembered: DomainView)
    ensures
        expected_fingerprint(Some(given), remembered) == Some(given),
        expected_fingerprint(None, remembered) == remembered.current_fingerprint,
{
}

} // verus!
