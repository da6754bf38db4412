use cert_monitor::clock::Timestamp;
use cert_monitor::report::{ReportGenerator, SummaryCounts};
use cert_monitor::terminal::{
    cell, draw_table, plain, render, styled, styled_number, CellStyle, Color, Style,
};
use cert_monitor::types::{CertificateInfo, OcspStatus, ScanResult};

const DAY: i64 = 86_400;

fn at(secs: i64) -> Timestamp {
    Timestamp::from_parts(secs, 0).unwrap()
}

fn certificate(name: &str, days: i64) -> CertificateInfo {
    CertificateInfo {
        domain: name.to_string(),
        subject: "s".to_string(),
        san_list: Vec::new(),
        issuer: "CN=Authority".to_string(),
        not_before: at(0),
        not_after: at(days * DAY),
        fingerprint_sha256: "aa:bb".to_string(),
        chain_complete: true,
        ocsp_status: OcspStatus::Good,
        source: "x".to_string(),
    }
}

fn success(name: &str, days: i64) -> ScanResult {
    ScanResult {
        domain: name.to_string(),
        cert: Some(certificate(name, days)),
        error: None,
        scanned_at: at(0),
    }
}

fn failure(name: &str, error: Option<&str>) -> ScanResult {
    ScanResult {
        domain: name.to_string(),
        cert: None,
        error: error.map(|e| e.to_string()),
        scanned_at: at(0),
    }
}

#[test]
fn certificates_have_a_row_of_seven_cells() {
    let mut cert = certificate("a.com", 100);
    cert.issuer = "12345678901234567890123456789012345678901".to_string();
    cert.fingerprint_sha256 = "aa:bb:cc:dd:ee:ff:00:11".to_string();
    let row = ReportGenerator::format_cert_row(&cert, at(0));
    let texts: Vec<&str> = row.iter().map(|c| c.text.as_str()).collect();
    assert_eq!(texts, vec![
        "a.com",
        "100 天",
        "正常",
        "1234567890123456789012345678901234567...",
        "1970-04-11",
        "完整",
        "aa:bb:cc:dd:ee:ff...",
    ]);
    let styles: Vec<CellStyle> = row.iter().map(|c| c.style).collect();
    assert_eq!(styles, vec![
        CellStyle::Plain,
        CellStyle::Colored(Color::Green),
        CellStyle::Plain,
        CellStyle::Plain,
        CellStyle::Plain,
        CellStyle::Colored(Color::Green),
        CellStyle::Plain,
    ]);
    cert.chain_complete = false;
    cert.ocsp_status = OcspStatus::Revoked;
    let row = ReportGenerator::format_cert_row(&cert, at(0));
    assert_eq!(row[2].text, "正常 (已吊销)");
    assert_eq!(row[5].text, "不完整⚠️");
    assert_eq!(row[5].style, CellStyle::Colored(Color::Yellow));
}

#[test]
fn days_are_shown_by_urgency() {
    let cases = [
        (-3, "已过期 3 天", "紧急", CellStyle::Bold(Color::Red)),
        (0, "0 天", "严重", CellStyle::Bold(Color::Red)),
        (7, "7 天", "严重", CellStyle::Bold(Color::Red)),
        (8, "8 天", "警告", CellStyle::Bold(Color::Yellow)),
        (30, "30 天", "警告", CellStyle::Bold(Color::Yellow)),
        (31, "31 天", "注意", CellStyle::Colored(Color::Yellow)),
        (60, "60 天", "注意", CellStyle::Colored(Color::Yellow)),
        (61, "61 天", "正常", CellStyle::Colored(Color::Green)),
    ];
    for (days, text, word, style) in cases {
        let row = ReportGenerator::format_cert_row(&certificate("a", days), at(0));
        assert_eq!(row[1].text, text);
        assert_eq!(row[1].style, style);
        assert_eq!(row[2].text, word);
    }
}

#[test]
fn rows_are_ordered_by_days_and_failures_come_last() {
    let results = vec![
        failure("f1", Some("no route")),
        success("later", 90),
        success("soon", 2),
        failure("f2", None),
        success("soon too", 2),
        success("gone", -5),
    ];
    let rows = ReportGenerator::table_rows_at(&results, at(0));
    let names: Vec<&str> = rows.iter().map(|r| r[0].text.as_str()).collect();
    assert_eq!(names, vec!["gone", "soon", "soon too", "later", "f1", "f2"]);
    let texts: Vec<&str> = rows[4].iter().map(|c| c.text.as_str()).collect();
    assert_eq!(texts, vec!["f1", "N/A", "扫描失败", "N/A", "N/A", "N/A", "no route"]);
    assert_eq!(rows[4][0].style, CellStyle::Colored(Color::Red));
    assert_eq!(rows[4][1].style, CellStyle::Plain);
    assert_eq!(rows[4][6].style, CellStyle::Colored(Color::Red));
    assert_eq!(rows[5][6].text, "Unknown error");
}

#[test]
fn tables_show_header_and_rows() {
    let results = vec![success("later.com", 90), success("soon.com", 2), failure("bad.com", None)];
    let text = ReportGenerator::format_terminal_table_at(&results, at(0));
    let places: Vec<usize> = ["指纹(SHA256)", "soon.com", "later.com", "bad.com"]
        .iter()
        .map(|s| text.find(s).unwrap())
        .collect();
    assert!(places.windows(2).all(|w| w[0] < w[1]));
    assert!(ReportGenerator::format_terminal_table(&results).contains("soon.com"));
}

#[test]
fn tables_are_drawn_by_comfy_table() {
    let header = vec![cell("h1", CellStyle::Bold(Color::Blue)), cell("h2", CellStyle::Plain)];
    let rows = vec![
        vec![cell("a", CellStyle::Plain), cell("b", CellStyle::Colored(Color::Green))],
        vec![cell("c", CellStyle::Bold(Color::Red)), cell("d", CellStyle::Colored(Color::Yellow))],
        vec![cell("e", CellStyle::Colored(Color::Blue)), cell("f", CellStyle::Colored(Color::Red))],
    ];
    let mut table = comfy_table::Table::new();
    table.set_content_arrangement(comfy_table::ContentArrangement::Dynamic);
    table.set_header(vec![
        comfy_table::Cell::new("h1")
            .add_attribute(comfy_table::Attribute::Bold)
            .fg(comfy_table::Color::Blue),
        comfy_table::Cell::new("h2"),
    ]);
    table.add_row(vec![
        comfy_table::Cell::new("a"),
        comfy_table::Cell::new("b").fg(comfy_table::Color::Green),
    ]);
    table.add_row(vec![
        comfy_table::Cell::new("c")
            .fg(comfy_table::Color::Red)
            .add_attribute(comfy_table::Attribute::Bold),
        comfy_table::Cell::new("d").fg(comfy_table::Color::Yellow),
    ]);
    table.add_row(vec![
        comfy_table::Cell::new("e").fg(comfy_table::Color::Blue),
        comfy_table::Cell::new("f").fg(comfy_table::Color::Red),
    ]);
    assert_eq!(draw_table(&header, &rows), table.to_string());
}

#[test]
fn painted_text_stands_between_escapes() {
    colored::control::set_override(true);
    let cases = [
        (Style::Bold, "\u{1b}[1mx\u{1b}[0m"),
        (Style::Red, "\u{1b}[31mx\u{1b}[0m"),
        (Style::Green, "\u{1b}[32mx\u{1b}[0m"),
        (Style::Yellow, "\u{1b}[33mx\u{1b}[0m"),
        (Style::Blue, "\u{1b}[34mx\u{1b}[0m"),
        (Style::BoldRed, "\u{1b}[1;31mx\u{1b}[0m"),
        (Style::BoldGreen, "\u{1b}[1;32mx\u{1b}[0m"),
        (Style::BoldYellow, "\u{1b}[1;33mx\u{1b}[0m"),
        (Style::BoldCyan, "\u{1b}[1;36mx\u{1b}[0m"),
        (Style::Plain, "x"),
    ];
    for (style, expected) in cases {
        assert_eq!(render(&vec![styled("x", style)]), expected);
    }
    assert_eq!(
        render(&vec![styled("a\u{1b}[0mb", Style::Red)]),
        "\u{1b}[31ma\u{1b}[0m\u{1b}[31mb\u{1b}[0m"
    );
    colored::control::set_override(false);
    let spans = vec![plain("n = "), styled_number(42, Style::BoldRed), styled("!", Style::Blue)];
    assert_eq!(render(&spans), "n = 42!");
}

#[test]
fn summaries_count_every_scan_once() {
    let results = vec![
        success("a", -1),
        success("b", 0),
        success("c", 7),
        success("d", 8),
        success("e", 31),
        success("f", 60),
        success("g", 61),
        failure("h", None),
    ];
    let counts = ReportGenerator::summary_counts_at(&results, at(0));
    assert_eq!(counts, SummaryCounts {
        total: 8,
        success: 7,
        failed: 1,
        emergency: 1,
        critical: 2,
        warning: 1,
        info: 2,
        ok: 1,
    });
    assert_eq!(counts.success + counts.failed, counts.total);
    assert_eq!(
        counts.emergency + counts.critical + counts.warning + counts.info + counts.ok,
        counts.success
    );
    colored::control::set_override(false);
    assert_eq!(
        ReportGenerator::format_summary_at(&results, at(0)),
        "\n扫描完成: 总计 8 个域名, 成功 7 个, 失败 1 个\n状态分布: 紧急(已过期) 1 | 严重(≤7天) 2 | 警告(≤30天) 1 | 注意(≤60天) 2 | 正常 1 \n"
    );
    assert_eq!(
        ReportGenerator::format_summary(&[]),
        "\n扫描完成: 总计 0 个域名, 成功 0 个, 失败 0 个\n状态分布: 紧急(已过期) 0 | 严重(≤7天) 0 | 警告(≤30天) 0 | 注意(≤60天) 0 | 正常 0 \n"
    );
    assert_eq!(ReportGenerator::summary_spans(&counts).len(), 17);
}
