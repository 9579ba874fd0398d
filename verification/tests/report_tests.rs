use wornitor::commands::report::{
    assemble_report_data, build_markdown_report, daily_summary_record, durations_fit, period_summary_record, build_report_html, category_breakdown, empty_report_text,
    html_escape, merge_adjacent, month_range, report_query, summary_period_bounds, week_range,
    QueryFor, ReportKind, SegmentQuery,
};
use wornitor::db::models::ActivitySegment;

fn seg(id: &str, start: &str, end: &str, cat: &str, dur: i64, summary: Option<&str>, ids: Option<&str>) -> ActivitySegment {
    ActivitySegment {
        id: id.to_string(),
        start_time: start.to_string(),
        end_time: end.to_string(),
        duration_secs: dur,
        app_name: None,
        window_title: None,
        llm_summary: summary.map(|s| s.to_string()),
        category: cat.to_string(),
        user_label: None,
        confidence_bits: 0,
        source_frame_ids: ids.map(|s| s.to_string()),
        is_manual: false,
        created_at: end.to_string(),
        llm_cost_bits: None,
        llm_tokens: None,
    }
}

fn timeline() -> Vec<ActivitySegment> {
    vec![
        seg("1", "2025-01-15 09:00:00", "2025-01-15 09:10:00", "coding", 600, Some("editing"), Some("a")),
        seg("2", "2025-01-15 09:10:00", "2025-01-15 09:20:00", "coding", 600, Some("testing"), Some("b,c")),
        seg("3", "2025-01-15 09:20:00", "2025-01-15 09:50:00", "meeting", 1800, None, None),
        seg("4", "2025-01-15 09:50:00", "2025-01-15 10:00:00", "coding", 600, None, Some("d")),
    ]
}

#[test]
fn merging_joins_runs_of_one_category() {
    let m = merge_adjacent(&timeline());
    assert_eq!(m.len(), 3);
    assert_eq!(m[0].id, "1");
    assert_eq!(m[0].end_time, "2025-01-15 09:20:00");
    assert_eq!(m[0].duration_secs, 1200);
    assert_eq!(m[0].llm_summary.as_deref(), Some("editing; testing"));
    assert_eq!(m[0].source_frame_ids.as_deref(), Some("a,b,c"));
    assert_eq!(m[1].category, "meeting");
    assert_eq!(m[2].category, "coding");
}

#[test]
fn merging_keeps_total_time_and_is_idempotent() {
    let t = timeline();
    let m = merge_adjacent(&t);
    let total: i64 = t.iter().map(|s| s.duration_secs).sum();
    let merged_total: i64 = m.iter().map(|s| s.duration_secs).sum();
    assert_eq!(total, merged_total);
    for w in m.windows(2) {
        assert_ne!(w[0].category, w[1].category);
    }
    let again = merge_adjacent(&m);
    assert_eq!(again.len(), m.len());
    for (a, b) in again.iter().zip(m.iter()) {
        assert_eq!(a.id, b.id);
        assert_eq!(a.duration_secs, b.duration_secs);
        assert_eq!(a.llm_summary, b.llm_summary);
        assert_eq!(a.source_frame_ids, b.source_frame_ids);
    }
    assert!(merge_adjacent(&Vec::new()).is_empty());
}

#[test]
fn merging_an_empty_summary_takes_the_next_one() {
    let t = vec![
        seg("1", "s", "e1", "x", 1, Some(""), Some("")),
        seg("2", "s2", "e2", "x", 2, Some("later"), Some("z")),
    ];
    let m = merge_adjacent(&t);
    assert_eq!(m[0].llm_summary.as_deref(), Some("later"));
    assert_eq!(m[0].source_frame_ids.as_deref(), Some("z"));
}

#[test]
fn breakdown_totals_each_category_longest_first() {
    let b = category_breakdown(&timeline());
    assert_eq!(b.len(), 2);
    let total: i64 = b.iter().map(|p| p.1).sum();
    assert_eq!(total, 3600);
    assert!(b.iter().any(|p| p == &("coding".to_string(), 1800)));
    assert!(b.iter().any(|p| p == &("meeting".to_string(), 1800)));
    let b2 = category_breakdown(&vec![
        seg("1", "a", "b", "x", 5, None, None),
        seg("2", "a", "b", "y", 50, None, None),
        seg("3", "a", "b", "x", 10, None, None),
    ]);
    assert_eq!(b2, vec![("y".to_string(), 50), ("x".to_string(), 15)]);
    assert!(category_breakdown(&Vec::new()).is_empty());
}

#[test]
fn escaping_neutralises_markup() {
    assert_eq!(html_escape("<a href=\"x\">Tom's & Jerry</a>"), "&lt;a href=&quot;x&quot;&gt;Tom&#x27;s &amp; Jerry&lt;/a&gt;");
    assert_eq!(html_escape("plain"), "plain");
    assert_eq!(html_escape(""), "");
}

#[test]
fn html_report_layout() {
    let segs = vec![seg("1", "09:00", "10:00", "<b>", 3725, None, None)];
    let b = category_breakdown(&segs);
    let html = build_report_html("日报", "2025-01-15", &segs, &b, Some("good & done"));
    assert_eq!(
        html,
        "<h2>日报</h2>\n<p><strong>2025-01-15</strong> — 总耗时: 1小时2分钟</p>\n<h3>活动分类统计</h3>\n<ul>\
<li><strong>&lt;b&gt;</strong>: 1小时2分钟</li></ul><h3>时间线</h3><table border='1' cellpadding='4' cellspacing='0' style='border-collapse:collapse;width:100%'><tr><th>时间</th><th>活动</th><th>分类</th><th>时长</th></tr>\
<tr><td>09:00</td><td>—</td><td>&lt;b&gt;</td><td>62分钟</td></tr></table>\n<h3>AI 总结</h3>\n<div style='background:#f5f5f5;padding:12px;border-radius:8px;'>good &amp; done</div>"
    );
}

#[test]
fn markdown_report_layout() {
    let segs = vec![seg("1", "09:00", "10:00", "coding", 120, Some("work"), None)];
    let b = category_breakdown(&segs);
    let md = build_markdown_report("周报", "a ~ b", &segs, &b, None);
    assert_eq!(
        md,
        "# 周报\n\n**a ~ b** — 总耗时: 0小时2分钟\n\n## 活动分类统计\n\n- **coding**: 0小时2分钟\n\n## 时间线\n\n| 时间 | 活动 | 分类 | 时长 |\n|------|------|------|------|\n| 09:00 | work | coding | 2分钟 |\n"
    );
}

#[test]
fn negative_durations_divide_towards_zero() {
    let segs = vec![seg("1", "s", "e", "c", -3661, None, None)];
    let md = build_markdown_report("t", "l", &segs, &Vec::new(), None);
    assert!(md.contains("总耗时: -1小时-1分钟"));
    assert!(md.contains("| -61分钟 |"));
}

#[test]
fn weekly_range_ends_on_the_given_day() {
    let (from, to, label) = week_range("2025-01-15").unwrap();
    assert_eq!(from, "2025-01-09");
    assert_eq!(to, "2025-01-15 23:59:59");
    assert_eq!(label, "2025-01-09 ~ 2025-01-15");
    let (from, _, _) = week_range("2024-03-03").unwrap();
    assert_eq!(from, "2024-02-26");
    let e = week_range("15/01/2025").unwrap_err();
    assert!(e.starts_with("Invalid end_date format: "));
}

#[test]
fn monthly_range_covers_the_whole_month() {
    let (from, to, label) = month_range(2024, 2).unwrap();
    assert_eq!(from, "2024-02-01");
    assert_eq!(to, "2024-02-29 23:59:59");
    assert_eq!(label, "2024年2月");
    let (_, to, _) = month_range(2025, 12).unwrap();
    assert_eq!(to, "2025-12-31 23:59:59");
    assert_eq!(month_range(2025, 13).unwrap_err(), "Invalid year/month: 2025-13");
}

#[test]
fn report_requests_are_checked() {
    let q = report_query("daily", Some("2025-01-15"), None, None, None, QueryFor::Report).unwrap();
    assert_eq!(q.kind, ReportKind::Daily);
    assert_eq!(q.title, "日报");
    assert!(matches!(q.query, SegmentQuery::ByDate(ref d) if d == "2025-01-15"));
    assert_eq!(
        report_query("daily", None, None, None, None, QueryFor::Report).unwrap_err(),
        "date is required for daily report"
    );
    assert_eq!(
        report_query("weekly", None, None, None, None, QueryFor::Summary).unwrap_err(),
        "end_date is required for weekly summary"
    );
    assert_eq!(
        report_query("monthly", None, None, None, Some(1), QueryFor::Report).unwrap_err(),
        "year is required for monthly report"
    );
    assert_eq!(
        report_query("monthly", None, None, Some(2025), None, QueryFor::Report).unwrap_err(),
        "month is required for monthly report"
    );
    assert_eq!(
        report_query("yearly", None, None, None, None, QueryFor::Report).unwrap_err(),
        "Unknown report_type: yearly, expected 'daily', 'weekly', or 'monthly'"
    );
    let q = report_query("monthly", None, None, Some(2025), Some(1), QueryFor::Report).unwrap();
    assert_eq!(q.date_label, "2025年1月");
    assert!(matches!(q.query, SegmentQuery::InRange(ref f, ref t) if f == "2025-01-01" && t == "2025-01-31 23:59:59"));
}

#[test]
fn empty_reports() {
    assert_eq!(empty_report_text(ReportKind::Daily, "2025-01-15"), "# 2025-01-15 日报\n\n当天没有记录到活动。");
    assert_eq!(empty_report_text(ReportKind::Weekly, "a ~ b"), "# a ~ b 周报\n\n该周期内没有记录到活动。");
    assert_eq!(empty_report_text(ReportKind::Monthly, "2025年1月"), "# 2025年1月 月报\n\n该月没有记录到活动。");
}

#[test]
fn report_data_uses_the_merged_timeline() {
    let d = assemble_report_data("日报", "2025-01-15".to_string(), timeline(), Some(String::new()));
    assert_eq!(d.total_seconds, 3600);
    assert_eq!(d.segments.len(), 3);
    assert_eq!(d.breakdown.len(), 2);
    assert!(!d.has_existing_summary);
    assert!(d.html.starts_with("<h2>日报</h2>"));
    assert!(d.markdown.starts_with("# 日报"));
    let d2 = assemble_report_data("日报", "x".to_string(), Vec::new(), Some("old".to_string()));
    assert!(d2.has_existing_summary);
}

#[test]
fn breakdown_json_is_an_array_of_pairs() {
    let segs = vec![
        seg("1", "2025-01-15 09:00:00", "2025-01-15 09:30:00", "coding", 1800, None, None),
        seg("2", "2025-01-15 09:30:00", "2025-01-15 09:30:00", "a\"b", -1, None, None),
    ];
    let r = daily_summary_record("2025-01-15", &segs, "done", None);
    assert_eq!(r.activity_breakdown.as_deref(), Some("[[\"coding\",1800],[\"a\\\"b\",-1]]"));
    let p = period_summary_record(ReportKind::Weekly, "a".into(), "b".into(), "l", &segs, "s", &vec![("2025-01-15".to_string(), 1799)]);
    assert_eq!(p.daily_trend.as_deref(), Some("[[\"2025-01-15\",1799]]"));
}

#[test]
fn breakdown_json_escapes_control_characters() {
    let segs = vec![
        seg("1", "2025-01-15 09:00:00", "2025-01-15 09:00:00", "a\nb\\", 7, None, None),
        seg("2", "2025-01-15 09:00:00", "2025-01-15 09:00:00", "\u{1}é", -9223372036854775808, None, None),
    ];
    let r = daily_summary_record("2025-01-15", &segs, "done", None);
    assert_eq!(
        r.activity_breakdown.as_deref(),
        Some("[[\"a\\nb\\\\\",7],[\"\\u0001é\",-9223372036854775808]]")
    );
    let p = period_summary_record(ReportKind::Weekly, "a".into(), "b".into(), "l", &segs, "s", &Vec::new());
    assert_eq!(p.daily_trend.as_deref(), Some("[]"));
}

#[test]
fn stored_summary_bounds() {
    let (f, t) = summary_period_bounds(ReportKind::Weekly, Some("2025-01-15"), None, None);
    assert_eq!((f.as_str(), t.as_str()), ("2025-01-09", "2025-01-15"));
    let (f, t) = summary_period_bounds(ReportKind::Weekly, Some("bad"), None, None);
    assert_eq!((f.as_str(), t.as_str()), ("1970-01-01", "bad"));
    let (f, t) = summary_period_bounds(ReportKind::Monthly, None, Some(2023), Some(2));
    assert_eq!((f.as_str(), t.as_str()), ("2023-02-01", "2023-02-28"));
    let (f, t) = summary_period_bounds(ReportKind::Monthly, None, Some(2023), Some(0));
    assert_eq!((f.as_str(), t.as_str()), ("1970-01-01", "1970-01-01"));
}

#[test]
fn durations_that_add_up_are_accepted() {
    assert!(durations_fit(&timeline()));
    assert!(durations_fit(&Vec::new()));
    let big = vec![
        seg("1", "a", "b", "x", i64::MAX - 5, None, None),
        seg("2", "b", "c", "y", -5, None, None),
    ];
    assert!(durations_fit(&big));
    let over = vec![
        seg("1", "a", "b", "x", i64::MAX - 5, None, None),
        seg("2", "b", "c", "y", -6, None, None),
    ];
    assert!(!durations_fit(&over));
    assert!(!durations_fit(&vec![seg("1", "a", "b", "x", i64::MIN, None, None)]));
}

#[test]
fn merging_keeps_one_segment_per_run_with_its_first_id_and_start() {
    let m = merge_adjacent(&timeline());
    let ids: Vec<&str> = m.iter().map(|s| s.id.as_str()).collect();
    assert_eq!(ids, vec!["1", "3", "4"]);
    let starts: Vec<&str> = m.iter().map(|s| s.start_time.as_str()).collect();
    assert_eq!(starts, vec!["2025-01-15 09:00:00", "2025-01-15 09:20:00", "2025-01-15 09:50:00"]);
}
