//! The report on a scan: a table with a row for each domain, and a summary.
use crate::clock::{self, Timestamp};
use crate::order::{self, order_by_number};
use crate::terminal::{
    self, cell, draw_table, plain, render, styled_number, CellStyle, CellView, Color, Span,
    SpanView, Style, TableCell,
};
use crate::text::{self, push_magnitude, shorten};
use crate::types::{
    self, AlertLevel, CertificateInfo, CertificateView, OcspStatus, ScanResult, ScanView,
};
use vstd::prelude::*;

verus! {

/// Makes reports.
pub struct ReportGenerator;

/// The number of days, as it stands in a table.
pub open spec fn days_text(days: int) -> Seq<char> {
    if days < 0 {
        "已过期 "@ + text::decimal((-days) as nat) + " 天"@
    } else {
        text::decimal(days as nat) + " 天"@
    }
}

/// The style of the number of days: the more urgent, the more it stands out.
pub open spec fn days_style(days: int) -> CellStyle {
    if days <= 7 {
        CellStyle::Bold(Color::Red)
    } else if days <= 30 {
        CellStyle::Bold(Color::Yellow)
    } else if days <= 60 {
        CellStyle::Colored(Color::Yellow)
    } else {
        CellStyle::Colored(Color::Green)
    }
}

/// The word for the urgency of what is left.
pub open spec fn urgency_word(days: int) -> Seq<char> {
    match AlertLevel::of_days(days) {
        Some(AlertLevel::Emergency) => "紧急"@,
        Some(AlertLevel::Critical) => "严重"@,
        Some(AlertLevel::Warning) => "警告"@,
        Some(AlertLevel::Info) => "注意"@,
        None => "正常"@,
    }
}

/// The state of a certificate in words; a revocation is pointed out.
pub open spec fn status_text(days: int, ocsp: OcspStatus) -> Seq<char> {
    urgency_word(days) + if ocsp == OcspStatus::Revoked {
        " (已吊销)"@
    } else {
        ""@
    }
}

/// The row of a certificate.
pub open spec fn certificate_row(cert: CertificateView, now: Timestamp) -> Seq<CellView> {
    let days = clock::elapsed_days(cert.not_after, now);
    seq![
        terminal::cell_of(cert.domain, CellStyle::Plain),
        terminal::cell_of(days_text(days), days_style(days)),
        terminal::cell_of(status_text(days, cert.ocsp_status), CellStyle::Plain),
        terminal::cell_of(text::shortened(cert.issuer, 40, 37), CellStyle::Plain),
        terminal::cell_of(cert.not_after.text_by("%Y-%m-%d"@), CellStyle::Plain),
        if cert.chain_complete {
            terminal::cell_of("完整"@, CellStyle::Colored(Color::Green))
        } else {
            terminal::cell_of("不完整⚠️"@, CellStyle::Colored(Color::Yellow))
        },
        terminal::cell_of(text::shortened(cert.fingerprint_sha256, 20, 17), CellStyle::Plain),
    ]
}

/// The row of a domain whose scan failed.
pub open spec fn failure_row(domain: Seq<char>, error: Option<Seq<char>>) -> Seq<CellView> {
    seq![
        terminal::cell_of(domain, CellStyle::Colored(Color::Red)),
        terminal::cell_of("N/A"@, CellStyle::Plain),
        terminal::cell_of("扫描失败"@, CellStyle::Plain),
        terminal::cell_of("N/A"@, CellStyle::Plain),
        terminal::cell_of("N/A"@, CellStyle::Plain),
        terminal::cell_of("N/A"@, CellStyle::Plain),
        terminal::cell_of(
            match error {
                Some(error) => error,
                None => "Unknown error"@,
            },
            CellStyle::Colored(Color::Red),
        ),
    ]
}

/// The row of a scan.
pub open spec fn scan_row(scan: ScanView, now: Timestamp) -> Seq<CellView> {
    match scan.cert {
        Some(cert) => certificate_row(cert, now),
        None => failure_row(scan.domain, scan.error),
    }
}

/// What scans are ordered by: the days that are left; failures come last.
pub open spec fn scan_key(scan: ScanView, now: Timestamp) -> i64 {
    match scan.cert {
        Some(cert) => clock::elapsed_days(cert.not_after, now) as i64,
        None => i64::MAX,
    }
}

/// What a list of scans is ordered by.
pub open spec fn scan_keys(scans: Seq<ScanView>, now: Timestamp) -> Seq<i64> {
    Seq::new(scans.len(), |i: int| scan_key(scans[i], now))
}

/// Whether these are the rows of the scans, ordered by the days that are left; scans
/// with the same number of days keep their order.
pub open spec fn are_report_rows(
    scans: Seq<ScanView>,
    now: Timestamp,
    rows: Seq<Seq<CellView>>,
) -> bool {
    exists|order: Seq<int>| #[trigger]
        order::is_order_of(scan_keys(scans, now), order) && rows == ordered_rows(scans, now, order)
}

/// The rows of the scans in an order.
pub open spec fn ordered_rows(scans: Seq<ScanView>, now: Timestamp, order: Seq<int>) -> Seq<
    Seq<CellView>,
> {
    Seq::new(order.len(), |i: int| scan_row(scans[order[i]], now))
}

/// Scans have one table: the rows that are theirs are the only ones.
pub proof fn scans_have_one_table(
    scans: Seq<ScanView>,
    now: Timestamp,
    rows: Seq<Seq<CellView>>,
    other: Seq<Seq<CellView>>,
)
    requires
        are_report_rows(scans, now, rows),
        are_report_rows(scans, now, other),
    ensures
        rows == other,
        rows.len() == scans.len(),
{
    let keys = scan_keys(scans, now);
    let a = choose|order: Seq<int>| #[trigger]
        order::is_order_of(keys, order) && rows == ordered_rows(scans, now, order);
    let b = choose|order: Seq<int>| #[trigger]
        order::is_order_of(keys, order) && other == ordered_rows(scans, now, order);
    order::numbers_have_one_order(keys, a, b);
}

/// The titles of the columns.
pub open spec fn report_titles() -> Seq<Seq<char>> {
    seq!["域名"@, "剩余天数"@, "状态"@, "颁发者"@, "有效期至"@, "证书链"@, "指纹(SHA256)"@]
}

/// A header with these titles.
pub open spec fn titles_row(titles: Seq<Seq<char>>) -> Seq<CellView> {
    Seq::new(titles.len(), |i: int| terminal::cell_of(titles[i], CellStyle::Bold(Color::Blue)))
}

/// A title of a column.
pub(crate) fn title(text: &str) -> (c: TableCell)
    ensures
        c@ == terminal::cell_of(text@, CellStyle::Bold(Color::Blue)),
{
    cell(text, CellStyle::Bold(Color::Blue))
}

/// What a scan is ordered by.
fn key_of(result: &ScanResult, now: Timestamp) -> (key: i64)
    ensures
        key == scan_key(result@, now),
{
    match &result.cert {
        Some(cert) => cert.days_remaining_at(now),
        None => i64::MAX,
    }
}

/// How many scans have a certificate.
pub open spec fn success_count(scans: Seq<ScanView>) -> nat
    decreases scans.len(),
{
    if scans.len() == 0 {
        0
    } else {
        success_count(scans.drop_last()) + if scans.last().cert is Some {
            1nat
        } else {
            0
        }
    }
}

/// Whether a scan shows a certificate whose urgency is `level`.
pub open spec fn scan_has_level(
    scan: ScanView,
    now: Timestamp,
    level: Option<AlertLevel>,
) -> bool {
    scan.cert matches Some(cert) && AlertLevel::of_days(
        clock::elapsed_days(cert.not_after, now),
    ) == level
}

/// How many scans show a certificate whose urgency is `level`.
pub open spec fn level_count(
    scans: Seq<ScanView>,
    now: Timestamp,
    level: Option<AlertLevel>,
) -> nat
    decreases scans.len(),
{
    if scans.len() == 0 {
        0
    } else {
        level_count(scans.drop_last(), now, level) + if scan_has_level(scans.last(), now, level) {
            1nat
        } else {
            0
        }
    }
}

/// The numbers of a summary.
#[derive(Debug, Clone, Copy, PartialEq, Eq, Structural)]
pub struct SummaryCounts {
    pub total: usize,
    pub success: usize,
    pub failed: usize,
    pub emergency: usize,
    pub critical: usize,
    pub warning: usize,
    pub info: usize,
    pub ok: usize,
}

impl SummaryCounts {
    /// Whether these are the numbers of the scans.
    pub open spec fn count(self, scans: Seq<ScanView>, now: Timestamp) -> bool {
        &&& self.total == scans.len()
        &&& self.success == success_count(scans)
        &&& self.failed == scans.len() - success_count(scans)
        &&& self.emergency == level_count(scans, now, Some(AlertLevel::Emergency))
        &&& self.critical == level_count(scans, now, Some(AlertLevel::Critical))
        &&& self.warning == level_count(scans, now, Some(AlertLevel::Warning))
        &&& self.info == level_count(scans, now, Some(AlertLevel::Info))
        &&& self.ok == level_count(scans, now, None)
    }

    /// The summary with these numbers.
    pub open spec fn spans(self) -> Seq<SpanView> {
        seq![
            terminal::plainly("\n扫描完成: 总计 "@),
            terminal::in_style(text::decimal(self.total as nat), Style::Bold),
            terminal::plainly(" 个域名, 成功 "@),
            terminal::in_style(text::decimal(self.success as nat), Style::BoldGreen),
            terminal::plainly(" 个, 失败 "@),
            terminal::in_style(text::decimal(self.failed as nat), Style::BoldRed),
            terminal::plainly(" 个\n状态分布: 紧急(已过期) "@),
            terminal::in_style(text::decimal(self.emergency as nat), Style::BoldRed),
            terminal::plainly(" | 严重(≤7天) "@),
            terminal::in_style(text::decimal(self.critical as nat), Style::BoldRed),
            terminal::plainly(" | 警告(≤30天) "@),
            terminal::in_style(text::decimal(self.warning as nat), Style::BoldYellow),
            terminal::plainly(" | 注意(≤60天) "@),
            terminal::in_style(text::decimal(self.info as nat), Style::Yellow),
            terminal::plainly(" | 正常 "@),
            terminal::in_style(text::decimal(self.ok as nat), Style::Green),
            terminal::plainly(" \n"@),
        ]
    }
}

/// Every scan shows a certificate or failed, and every certificate is counted under
/// one urgency.
pub proof fn summaries_count_everything_once(
    scans: Seq<ScanView>,
    now: Timestamp,
    counts: SummaryCounts,
)
    requires
        counts.count(scans, now),
    ensures
        counts.success + counts.failed == counts.total,
        counts.emergency + counts.critical + counts.warning + counts.info + counts.ok
            == counts.success,
{
    lemma_levels(scans, now);
}

/// In the table, the scans that failed come after those that did not.
pub proof fn failures_come_last(
    scans: Seq<ScanView>,
    now: Timestamp,
    order: Seq<int>,
    i: int,
    j: int,
)
    requires
        order::is_order_of(scan_keys(scans, now), order),
        0 <= i < j < order.len(),
        scans[order[i]].cert is None,
        clock::names_instant(now.secs(), now.nanos()),
        forall|k: int|
            0 <= k < scans.len() ==> ((#[trigger] scans[k]).cert matches Some(cert)
                ==> clock::names_instant(cert.not_after.secs(), cert.not_after.nanos())),
    ensures
        scans[order[j]].cert is None,
{
    assert(order::comes_first(scan_keys(scans, now), order[i], order[j]));
    assert(0 <= order[i] < scans.len());
    assert(0 <= order[j] < scans.len());
    assert(scan_keys(scans, now)[order[i]] == i64::MAX);
    assert(scan_keys(scans, now)[order[j]] == scan_key(scans[order[j]], now));
    match scans[order[j]].cert {
        Some(cert) => {
            let nanos = clock::elapsed_nanos(cert.not_after, now);
            assert(-20_000_000_000_000_000_000_000 < nanos < 20_000_000_000_000_000_000_000);
            assert(clock::elapsed_days(cert.not_after, now) < 20_000_000_000_000);
        },
        None => {},
    }
}

proof fn lemma_levels(scans: Seq<ScanView>, now: Timestamp)
    ensures
        level_count(scans, now, Some(AlertLevel::Emergency)) + level_count(
            scans,
            now,
            Some(AlertLevel::Critical),
        ) + level_count(scans, now, Some(AlertLevel::Warning)) + level_count(
            scans,
            now,
            Some(AlertLevel::Info),
        ) + level_count(scans, now, None) == success_count(scans),
        success_count(scans) <= scans.len(),
        forall|level: Option<AlertLevel>| #[trigger]
            level_count(scans, now, level) <= scans.len(),
    decreases scans.len(),
{
    if scans.len() > 0 {
        lemma_levels(scans.drop_last(), now);
        assert forall|level: Option<AlertLevel>| #[trigger]
            level_count(scans, now, level) <= scans.len() by {
            assert(level_count(scans.drop_last(), now, level) <= scans.drop_last().len());
        }
    }
}

impl ReportGenerator {
    /// The cell with the number of days.
    fn format_days_cell(days: i64) -> (c: TableCell)
        ensures
            c@ == terminal::cell_of(days_text(days as int), days_style(days as int)),
    {
        let mut text = String::new();
        if days < 0 {
            text.append("已过期 ");
            push_magnitude(&mut text, days);
        } else {
            push_magnitude(&mut text, days);
        }
        text.append(" 天");
        assert(text@ =~= days_text(days as int));
        let style = if days <= 7 {
            CellStyle::Bold(Color::Red)
        } else if days <= 30 {
            CellStyle::Bold(Color::Yellow)
        } else if days <= 60 {
            CellStyle::Colored(Color::Yellow)
        } else {
            CellStyle::Colored(Color::Green)
        };
        TableCell { text, style }
    }

    /// The state of a certificate in words.
    fn format_status_text(days: i64, ocsp: &OcspStatus) -> (text: String)
        ensures
            text@ == status_text(days as int, *ocsp),
    {
        let status = match AlertLevel::from_days(days) {
            Some(AlertLevel::Emergency) => "紧急",
            Some(AlertLevel::Critical) => "严重",
            Some(AlertLevel::Warning) => "警告",
            Some(AlertLevel::Info) => "注意",
            None => "正常",
        };
        let mut text = status.to_owned();
        match ocsp {
            OcspStatus::Revoked => text.append(" (已吊销)"),
            _ => text.append(""),
        }
        text
    }

    /// The row of a certificate.
    pub fn format_cert_row(cert: &CertificateInfo, now: Timestamp) -> (row: Vec<TableCell>)
        ensures
            terminal::cell_views(row@) == certificate_row(cert@, now),
    {
        let days = cert.days_remaining_at(now);
        let chain_cell = if cert.chain_complete {
            cell("完整", CellStyle::Colored(Color::Green))
        } else {
            cell("不完整⚠️", CellStyle::Colored(Color::Yellow))
        };
        let status = ReportGenerator::format_status_text(days, &cert.ocsp_status);
        let issuer = shorten(cert.issuer.as_str(), 40, 37);
        let fingerprint = shorten(cert.fingerprint_sha256.as_str(), 20, 17);
        let not_after = cert.not_after.format("%Y-%m-%d");
        let row = vec![
            cell(cert.domain.as_str(), CellStyle::Plain),
            ReportGenerator::format_days_cell(days),
            TableCell { text: status, style: CellStyle::Plain },
            TableCell { text: issuer, style: CellStyle::Plain },
            TableCell { text: not_after, style: CellStyle::Plain },
            chain_cell,
            TableCell { text: fingerprint, style: CellStyle::Plain },
        ];
        assert(terminal::cell_views(row@) =~= certificate_row(cert@, now));
        row
    }

    /// The row of a domain whose scan failed.
    fn format_failure_row(domain: &str, error: &Option<String>) -> (row: Vec<TableCell>)
        ensures
            terminal::cell_views(row@) == failure_row(domain@, types::optional_text(*error)),
    {
        let message = match error {
            Some(error) => error.as_str(),
            None => "Unknown error",
        };
        let row = vec![
            cell(domain, CellStyle::Colored(Color::Red)),
            cell("N/A", CellStyle::Plain),
            cell("扫描失败", CellStyle::Plain),
            cell("N/A", CellStyle::Plain),
            cell("N/A", CellStyle::Plain),
            cell("N/A", CellStyle::Plain),
            cell(message, CellStyle::Colored(Color::Red)),
        ];
        assert(terminal::cell_views(row@) =~= failure_row(domain@, types::optional_text(*error)));
        row
    }

    /// The titles of the columns.
    fn header() -> (row: Vec<TableCell>)
        ensures
            terminal::cell_views(row@) == titles_row(report_titles()),
    {
        let row = vec![
            title("域名"),
            title("剩余天数"),
            title("状态"),
            title("颁发者"),
            title("有效期至"),
            title("证书链"),
            title("指纹(SHA256)"),
        ];
        assert(terminal::cell_views(row@) =~= titles_row(report_titles()));
        row
    }

    /// The rows of the table at `now`: the fewer days a certificate has left, the
    /// further up; failures come last.
    pub fn table_rows_at(results: &[ScanResult], now: Timestamp) -> (rows: Vec<Vec<TableCell>>)
        ensures
            are_report_rows(types::scan_views(results@), now, terminal::row_views(rows@)),
    {
        let ghost scans = types::scan_views(results@);
        let mut keys: Vec<i64> = Vec::new();
        let mut i: usize = 0;
        while i < results.len()
            invariant
                i <= results.len(),
                scans == types::scan_views(results@),
                keys.len() == i,
                forall|j: int| 0 <= j < i ==> #[trigger] keys@[j] == scan_key(scans[j], now),
            decreases results.len() - i,
        {
            keys.push(key_of(&results[i], now));
            i += 1;
        }
        assert(keys@ =~= scan_keys(scans, now));
        let order = order_by_number(&keys);
        let ghost places = order::places(order@);
        let mut rows: Vec<Vec<TableCell>> = Vec::new();
        let mut i: usize = 0;
        while i < order.len()
            invariant
                i <= order.len(),
                order.len() == results.len(),
                scans == types::scan_views(results@),
                places == order::places(order@),
                order::names_each_once(places, scans.len()),
                rows.len() == i,
                forall|j: int|
                    0 <= j < i ==> terminal::cell_views((#[trigger] rows@[j])@) == scan_row(
                        scans[places[j]],
                        now,
                    ),
            decreases order.len() - i,
        {
            assert(0 <= places[i as int] < scans.len());
            let result = &results[order[i]];
            assert(scans[places[i as int]] == result@);
            let row = match &result.cert {
                Some(cert) => ReportGenerator::format_cert_row(cert, now),
                None => ReportGenerator::format_failure_row(result.domain.as_str(), &result.error),
            };
            rows.push(row);
            i += 1;
        }
        assert(terminal::row_views(rows@) =~= ordered_rows(scans, now, places));
        rows
    }

    /// The table at `now`.
    pub fn format_terminal_table_at(results: &[ScanResult], now: Timestamp) -> (text: String)
        ensures
            exists|rows: Seq<Seq<CellView>>| #[trigger]
                are_report_rows(types::scan_views(results@), now, rows) && terminal::shows_table(
                    titles_row(report_titles()),
                    rows,
                    text@,
                ),
    {
        let header = ReportGenerator::header();
        let rows = ReportGenerator::table_rows_at(results, now);
        draw_table(&header, &rows)
    }

    /// The table at the present instant.
    pub fn format_terminal_table(results: &[ScanResult]) -> (text: String)
        ensures
            exists|now: Timestamp, rows: Seq<Seq<CellView>>|
                now.can_be_now() && #[trigger] are_report_rows(
                    types::scan_views(results@),
                    now,
                    rows,
                ) && terminal::shows_table(titles_row(report_titles()), rows, text@),
    {
        let now = Timestamp::now();
        ReportGenerator::format_terminal_table_at(results, now)
    }

    /// The numbers of the summary at `now`.
    pub fn summary_counts_at(results: &[ScanResult], now: Timestamp) -> (counts: SummaryCounts)
        ensures
            counts.count(types::scan_views(results@), now),
    {
        let ghost scans = types::scan_views(results@);
        let total = results.len();
        let mut success: usize = 0;
        let mut emergency: usize = 0;
        let mut critical: usize = 0;
        let mut warning: usize = 0;
        let mut info: usize = 0;
        let mut ok: usize = 0;
        let mut i: usize = 0;
        assert(scans.take(0) =~= Seq::empty());
        while i < results.len()
            invariant
                i <= results.len(),
                scans == types::scan_views(results@),
                success == success_count(scans.take(i as int)),
                emergency == level_count(
                    scans.take(i as int),
                    now,
                    Some(AlertLevel::Emergency),
                ),
                critical == level_count(scans.take(i as int), now, Some(AlertLevel::Critical)),
                warning == level_count(scans.take(i as int), now, Some(AlertLevel::Warning)),
                info == level_count(scans.take(i as int), now, Some(AlertLevel::Info)),
                ok == level_count(scans.take(i as int), now, None),
            decreases results.len() - i,
        {
            proof {
                lemma_levels(scans.take(i as int), now);
                let upto = scans.take(i + 1);
                assert(upto.drop_last() =~= scans.take(i as int));
                assert(upto.last() == results@[i as int]@);
            }
            if let Some(cert) = &results[i].cert {
                success += 1;
                match AlertLevel::from_days(cert.days_remaining_at(now)) {
                    Some(AlertLevel::Emergency) => {
                        emergency += 1;
                    },
                    Some(AlertLevel::Critical) => {
                        critical += 1;
                    },
                    Some(AlertLevel::Warning) => {
                        warning += 1;
                    },
                    Some(AlertLevel::Info) => {
                        info += 1;
                    },
                    None => {
                        ok += 1;
                    },
                }
            }
            i += 1;
        }
        assert(scans.take(scans.len() as int) =~= scans);
        proof {
            lemma_levels(scans, now);
        }
        SummaryCounts {
            total,
            success,
            failed: total - success,
            emergency,
            critical,
            warning,
            info,
            ok,
        }
    }

    /// The summary with these numbers.
    pub fn summary_spans(counts: &SummaryCounts) -> (spans: Vec<Span>)
        ensures
            terminal::span_views(spans@) == counts.spans(),
    {
        let spans = vec![
            plain("\n扫描完成: 总计 "),
            styled_number(counts.total as u64, Style::Bold),
            plain(" 个域名, 成功 "),
            styled_number(counts.success as u64, Style::BoldGreen),
            plain(" 个, 失败 "),
            styled_number(counts.failed as u64, Style::BoldRed),
            plain(" 个\n状态分布: 紧急(已过期) "),
            styled_number(counts.emergency as u64, Style::BoldRed),
            plain(" | 严重(≤7天) "),
            styled_number(counts.critical as u64, Style::BoldRed),
            plain(" | 警告(≤30天) "),
            styled_number(counts.warning as u64, Style::BoldYellow),
            plain(" | 注意(≤60天) "),
            styled_number(counts.info as u64, Style::Yellow),
            plain(" | 正常 "),
            styled_number(counts.ok as u64, Style::Green),
            plain(" \n"),
        ];
        assert(terminal::span_views(spans@) =~= counts.spans());
        spans
    }

    /// The summary at `now`.
    pub fn format_summary_at(results: &[ScanResult], now: Timestamp) -> (text: String)
        ensures
            exists|counts: SummaryCounts| #[trigger]
                counts.count(types::scan_views(results@), now) && terminal::is_rendering(
                    counts.spans(),
                    text@,
                ),
    {
        let counts = ReportGenerator::summary_counts_at(results, now);
        let spans = ReportGenerator::summary_spans(&counts);
        render(&spans)
    }

    /// The summary at the present instant.
    pub fn format_summary(results: &[ScanResult]) -> (text: String)
        ensures
            exists|now: Timestamp, counts: SummaryCounts|
                now.can_be_now() && #[trigger] counts.count(types::scan_views(results@), now)
                    && terminal::is_rendering(counts.spans(), text@),
    {
        let now = Timestamp::now();
        ReportGenerator::format_summary_at(results, now)
    }
}

/// In the row of a certificate, each thing stands under its own title, and is the
/// certificate's: the domain as it is, the days that are left, the issuer and the
/// fingerprint from their beginning on, and the day on which the certificate expires.
pub proof fn rows_show_their_certificate(cert: CertificateView, now: Timestamp)
    ensures
        ({
            let row = certificate_row(cert, now);
            let days = clock::elapsed_days(cert.not_after, now);
            &&& row.len() == report_titles().len() == 7
            &&& report_titles()[0] == "域名"@ && row[0].text == cert.domain
            &&& report_titles()[1] == "剩余天数"@ && text::ends_with(
                row[1].text,
                text::decimal((if days < 0 { -days } else { days }) as nat) + " 天"@,
            )
            &&& report_titles()[2] == "状态"@ && text::begins_with(row[2].text, urgency_word(days))
            &&& report_titles()[3] == "颁发者"@ && row[3].text == text::shortened(
                cert.issuer,
                40,
                37,
            )
            &&& report_titles()[4] == "有效期至"@ && row[4].text == clock::time_text(
                cert.not_after.secs(),
                cert.not_after.nanos(),
                "%Y-%m-%d"@,
            )
            &&& report_titles()[5] == "证书链"@ && (row[5].style == CellStyle::Colored(Color::Green)
                <==> cert.chain_complete)
            &&& report_titles()[6] == "指纹(SHA256)"@ && row[6].text == text::shortened(
                cert.fingerprint_sha256,
                20,
                17,
            )
        }),
{
    let days = clock::elapsed_days(cert.not_after, now);
    let number = text::decimal((if days < 0 { -days } else { days }) as nat);
    let tail = number + " 天"@;
    let whole = days_text(days);
    if days < 0 {
        assert(whole =~= "已过期 "@ + tail);
        assert(whole.skip(whole.len() - tail.len()) =~= tail);
    } else {
        assert(whole.skip(whole.len() - tail.len()) =~= tail);
    }
    let word = urgency_word(days);
    assert(status_text(days, cert.ocsp_status).take(word.len() as int) =~= word);
}

/// A revocation is pointed out in the row, and nothing else changes with the status: the
/// word for the urgency stands there in any case.
pub proof fn revocations_are_pointed_out(days: int, ocsp: OcspStatus)
    ensures
        ocsp != OcspStatus::Revoked ==> status_text(days, ocsp) == urgency_word(days),
        ocsp == OcspStatus::Revoked ==> status_text(days, ocsp) == urgency_word(days)
            + " (已吊销)"@ && status_text(days, ocsp) != urgency_word(days),
{
    reveal_strlit("");
    reveal_strlit(" (已吊销)");
    if ocsp != OcspStatus::Revoked {
        assert(urgency_word(days) + ""@ =~= urgency_word(days));
    } else {
        assert(status_text(days, ocsp).len() > urgency_word(days).len());
    }
}

/// The days decide on the word and the style: below zero, up to seven, thirty and sixty, and
/// beyond, each has its own word; what has at most seven days left stands out in red, up to
/// sixty in yellow, the rest in green. Days that are gone are told without a sign, as such.
pub proof fn the_urgent_stands_out(days: int)
    ensures
        urgency_word(days) == (if days < 0 {
            "紧急"@
        } else if days <= 7 {
            "严重"@
        } else if days <= 30 {
            "警告"@
        } else if days <= 60 {
            "注意"@
        } else {
            "正常"@
        }),
        days_style(days) == CellStyle::Bold(Color::Red) <==> days <= 7,
        days_style(days) == CellStyle::Bold(Color::Yellow) <==> 7 < days <= 30,
        days_style(days) == CellStyle::Colored(Color::Yellow) <==> 30 < days <= 60,
        days_style(days) == CellStyle::Colored(Color::Green) <==> days > 60,
        days >= 0 ==> days_text(days) == text::decimal(days as nat) + " 天"@,
        days < 0 ==> days_text(days) == "已过期 "@ + text::decimal((-days) as nat) + " 天"@,
{
}

/// In the row of a failure, the domain stands under its title and the error at the end.
pub proof fn failure_rows_tell_the_error(scan: ScanView, now: Timestamp)
    requires
        scan.cert is None,
    ensures
        scan_row(scan, now).len() == report_titles().len(),
        scan_row(scan, now)[0].text == scan.domain,
        scan.error matches Some(error) ==> scan_row(scan, now)[6].text == error,
        scan.error is None ==> scan_row(scan, now)[6].text == "Unknown error"@,
        scan_row(scan, now)[2].text == "扫描失败"@,
{
}

/// The row of a scan that shows a certificate is the one of that certificate.
pub proof fn rows_are_those_of_the_certificate(scan: ScanView, now: Timestamp)
    ensures
        scan.cert matches Some(cert) ==> scan_row(scan, now) == certificate_row(cert, now),
{
}

/// In the table, what has fewer days left stands further up.
pub proof fn the_urgent_comes_first(
    scans: Seq<ScanView>,
    now: Timestamp,
    order: Seq<int>,
    i: int,
    j: int,
)
    requires
        order::is_order_of(scan_keys(scans, now), order),
        0 <= i < j < order.len(),
        scans[order[i]].cert is Some,
        scans[order[j]].cert is Some,
        clock::names_instant(now.secs(), now.nanos()),
        forall|k: int|
            0 <= k < scans.len() ==> ((#[trigger] scans[k]).cert matches Some(cert)
                ==> clock::names_instant(cert.not_after.secs(), cert.not_after.nanos())),
    ensures
        clock::elapsed_days(scans[order[i]].cert->0.not_after, now) <= clock::elapsed_days(
            scans[order[j]].cert->0.not_after,
            now,
        ),
        ordered_rows(scans, now, order)[i] == certificate_row(scans[order[i]].cert->0, now),
        ordered_rows(scans, now, order)[j] == certificate_row(scans[order[j]].cert->0, now),
{
    let keys = scan_keys(scans, now);
    order::smaller_numbers_come_first(keys, order, i, j);
    assert(keys[order[i]] == scan_key(scans[order[i]], now));
    assert(keys[order[j]] == scan_key(scans[order[j]], now));
    lemma_key(scans[order[i]], now);
    lemma_key(scans[order[j]], now);
}

/// The days that are left fit into a key.
proof fn lemma_key(scan: ScanView, now: Timestamp)
    requires
        scan.cert is Some,
        clock::names_instant(now.secs(), now.nanos()),
        clock::names_instant(scan.cert->0.not_after.secs(), scan.cert->0.not_after.nanos()),
    ensures
        scan_key(scan, now) == clock::elapsed_days(scan.cert->0.not_after, now),
{
    let cert = scan.cert->0;
    let nanos = clock::elapsed_nanos(cert.not_after, now);
    assert(-20_000_000_000_000_000_000_000 < nanos < 20_000_000_000_000_000_000_000);
    assert(-20_000_000_000_000 < clock::elapsed_secs(cert.not_after, now) < 20_000_000_000_000);
}

/// Every scan has a row in the table, and there are no other rows.
pub proof fn every_scan_has_a_row(
    scans: Seq<ScanView>,
    now: Timestamp,
    rows: Seq<Seq<CellView>>,
    k: int,
)
    requires
        are_report_rows(scans, now, rows),
        0 <= k < scans.len(),
    ensures
        rows.contains(scan_row(scans[k], now)),
        rows.len() == scans.len(),
{
    let order = choose|order: Seq<int>| #[trigger]
        order::is_order_of(scan_keys(scans, now), order) && rows == ordered_rows(scans, now, order);
    order::everything_has_a_place(order, scans.len(), k);
    let i = choose|i: int| 0 <= i < order.len() && #[trigger] order[i] == k;
    assert(rows[i] == scan_row(scans[k], now));
}

/// One more scan adds one to the total, and one to the successes and to the count of its
/// urgency where it shows a certificate, or else to the failures.
pub proof fn one_more_scan_counts_once(
    scans: Seq<ScanView>,
    scan: ScanView,
    now: Timestamp,
    before: SummaryCounts,
    after: SummaryCounts,
)
    requires
        before.count(scans, now),
        after.count(scans.push(scan), now),
    ensures
        after.total == before.total + 1,
        scan.cert is None ==> {
            &&& after.failed == before.failed + 1
            &&& after.success == before.success
            &&& after.emergency == before.emergency
            &&& after.critical == before.critical
            &&& after.warning == before.warning
            &&& after.info == before.info
            &&& after.ok == before.ok
        },
        scan.cert matches Some(cert) ==> {
            let days = clock::elapsed_days(cert.not_after, now);
            &&& after.failed == before.failed
            &&& after.success == before.success + 1
            &&& after.emergency == before.emergency + (if days < 0 { 1int } else { 0 })
            &&& after.critical == before.critical + (if 0 <= days <= 7 { 1int } else { 0 })
            &&& after.warning == before.warning + (if 7 < days <= 30 { 1int } else { 0 })
            &&& after.info == before.info + (if 30 < days <= 60 { 1int } else { 0 })
            &&& after.ok == before.ok + (if days > 60 { 1int } else { 0 })
        },
{
    assert(scans.push(scan).drop_last() =~= scans);
}

/// Whether a number stands right behind a label in a summary.
pub open spec fn stands_behind(spans: Seq<SpanView>, label: Seq<char>, n: usize, i: int) -> bool {
    &&& 0 <= i < spans.len() - 1
    &&& spans[i].text == label
    &&& spans[i + 1].text == text::decimal(n as nat)
}

/// In a summary, each number stands behind its own label.
pub proof fn summaries_tell_each_number(counts: SummaryCounts)
    ensures
        stands_behind(counts.spans(), "\n扫描完成: 总计 "@, counts.total, 0),
        stands_behind(counts.spans(), " 个域名, 成功 "@, counts.success, 2),
        stands_behind(counts.spans(), " 个, 失败 "@, counts.failed, 4),
        stands_behind(counts.spans(), " 个\n状态分布: 紧急(已过期) "@, counts.emergency, 6),
        stands_behind(counts.spans(), " | 严重(≤7天) "@, counts.critical, 8),
        stands_behind(counts.spans(), " | 警告(≤30天) "@, counts.warning, 10),
        stands_behind(counts.spans(), " | 注意(≤60天) "@, counts.info, 12),
        stands_behind(counts.spans(), " | 正常 "@, counts.ok, 14),
{
}

/// A header shows its titles, one in each column.
pub proof fn headers_show_their_titles(titles: Seq<Seq<char>>, i: int)
    requires
        0 <= i < titles.len(),
    ensures
        titles_row(titles).len() == titles.len(),
        titles_row(titles)[i].text == titles[i],
        titles_row(titles)[i].style == CellStyle::Bold(Color::Blue),
{
}

} // verus!
