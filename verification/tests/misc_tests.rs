use wornitor::commands::analysis::{
    as_manual, check_merge_request, plan_merge, recording_status, single_analysis_segment, str_le, today_text,
    CONFIDENCE_ONE_BITS,
};
use wornitor::commands::config::{db_config_of, remove_presets, upsert_preset, with_context};
use wornitor::config::{ConfigError, LlmConfig};
use wornitor::datetime::{format_date, format_datetime, Date, DateTime};
use wornitor::db::migrations::{get_migrations, pending_migrations};
use wornitor::db::models::ActivitySegment;
use wornitor::db::DbError;
use wornitor::llm::adapter::{report_context, AnalysisResult, LlmError};
use wornitor::llm::create_adapter;
use wornitor::llm::kimi_batch::{BatchChoice, BatchContentPart, BatchResponseMessage, KimiBatchAdapter};
use wornitor::llm::ollama::OllamaAdapter;
use wornitor::llm::openai::{chat_step, completion_result, fail_error, usage_info, ChatStep, OpenAiAdapter};
use wornitor::llm::Adapter;
use wornitor::tray::{icon_color, menu_action, pause_label, IconKind, MenuAction, TrayState};

fn seg(id: &str, start: &str, end: &str, cat: &str, dur: i64, ids: Option<&str>) -> ActivitySegment {
    ActivitySegment {
        id: id.to_string(),
        start_time: start.to_string(),
        end_time: end.to_string(),
        duration_secs: dur,
        app_name: None,
        window_title: None,
        llm_summary: None,
        category: cat.to_string(),
        user_label: None,
        confidence_bits: 0,
        source_frame_ids: ids.map(|s| s.to_string()),
        is_manual: false,
        created_at: String::new(),
        llm_cost_bits: None,
        llm_tokens: None,
    }
}

fn preset(name: &str, model: &str) -> LlmConfig {
    LlmConfig { name: name.to_string(), model: model.to_string(), ..LlmConfig::default() }
}

#[test]
fn merging_chosen_segments() {
    let today = vec![
        seg("1", "2025-01-15 09:00:00", "2025-01-15 09:30:00", "coding", 1800, Some("a")),
        seg("2", "2025-01-15 08:00:00", "2025-01-15 08:10:00", "meeting", 600, None),
        seg("3", "2025-01-15 10:00:00", "2025-01-15 10:20:00", "coding", 1200, Some("b,c")),
        seg("4", "2025-01-15 11:00:00", "2025-01-15 11:20:00", "other", 1200, Some("z")),
    ];
    let ids = vec!["1".to_string(), "2".to_string(), "3".to_string(), "missing".to_string()];
    let m = plan_merge(&ids, "Project X", &today).unwrap();
    assert_eq!(m.start_time, "2025-01-15 08:00:00");
    assert_eq!(m.end_time, "2025-01-15 10:20:00");
    assert_eq!(m.duration_secs, 3600);
    assert_eq!(m.category, "coding");
    assert_eq!(m.source_frame_ids.as_deref(), Some("a,b,c"));
    assert_eq!(m.llm_summary.as_deref(), Some("Project X"));
    assert_eq!(m.user_label.as_deref(), Some("Project X"));
    assert!(m.is_manual);
    assert_eq!(f64::from_bits(m.confidence_bits), 1.0);
    assert_eq!(CONFIDENCE_ONE_BITS, 1.0f64.to_bits());
    assert_eq!(m.id.len(), 36);
    assert_eq!(
        plan_merge(&vec!["1".to_string()], "x", &today).unwrap_err(),
        "Need at least 2 segments to merge"
    );
    assert_eq!(
        plan_merge(&vec!["1".to_string(), "nope".to_string()], "x", &today).unwrap_err(),
        "Could not find all specified segments"
    );
    assert!(check_merge_request(&vec![]).is_err());
    assert!(check_merge_request(&ids).is_ok());
}

#[test]
fn text_order_is_by_character() {
    assert!(str_le("a", "b"));
    assert!(str_le("ab", "abc"));
    assert!(!str_le("b", "abc"));
    assert!(str_le("", ""));
    assert!(str_le("é", "ë"));
}

#[test]
fn recording_status_counts_today() {
    let s = recording_status(true, false, &vec![seg("1", "a", "b", "c", 10, None), seg("2", "a", "b", "c", 20, None)]);
    assert_eq!((s.is_recording, s.is_paused, s.segment_count, s.total_seconds), (true, false, 2, 30));
}

#[test]
fn one_shot_and_manual_segments() {
    let a = AnalysisResult {
        activity: "reading".to_string(),
        app_name: None,
        window_title: Some("docs".to_string()),
        category: "research".to_string(),
        confidence_bits: 0,
    };
    let s = single_analysis_segment("id".to_string(), "2025-01-15 09:00:00", &a, "f1", 5);
    assert_eq!(s.duration_secs, 0);
    assert_eq!(s.start_time, s.end_time);
    assert_eq!(s.source_frame_ids.as_deref(), Some("f1"));
    assert!(as_manual(s).is_manual);
    assert_eq!(today_text().len(), 10);
}

#[test]
fn presets_are_replaced_by_name_and_deleted() {
    let mut v = vec![preset("a", "m1"), preset("b", "m2")];
    upsert_preset(&mut v, preset("a", "m3"));
    assert_eq!(v.len(), 2);
    assert_eq!(v[0].model, "m3");
    upsert_preset(&mut v, preset("c", "m4"));
    assert_eq!(v.len(), 3);
    assert_eq!(v[2].name, "c");
    v.push(preset("a", "m5"));
    remove_presets(&mut v, "a");
    assert_eq!(v.iter().map(|c| c.name.as_str()).collect::<Vec<_>>(), vec!["b", "c"]);
    let row = db_config_of(&LlmConfig { use_batch_api: true, max_tokens: 10, ..preset("z", "m") });
    assert_eq!((row.id, row.is_active, row.max_tokens, row.use_batch_api), (0, true, 10, Some(true)));
    assert_eq!(row.created_at, "");
    assert_eq!(with_context("Failed to save JSON", "disk full"), "Failed to save JSON: disk full");
}

#[test]
fn migrations_in_order_and_pending() {
    let all = get_migrations();
    assert_eq!(all.iter().map(|m| m.version).collect::<Vec<_>>(), vec![1, 2, 3, 4, 5, 6]);
    assert_eq!(all[0].name, "create_core_tables");
    assert_eq!(all[5].sql_file, "006_add_segment_cost.sql");
    assert_eq!(pending_migrations(4).iter().map(|m| m.version).collect::<Vec<_>>(), vec![5, 6]);
    assert!(pending_migrations(6).is_empty());
    assert_eq!(pending_migrations(0).len(), 6);
}

#[test]
fn error_messages() {
    assert_eq!(DbError::NotFound("x".to_string()).message(), "Not found: x");
    assert_eq!(LlmError::RateLimited(12).message(), "Rate limited, retry after 12s");
    assert_eq!(
        LlmError::ApiError { status: 429, message: "slow down".to_string() }.message(),
        "API error (429): slow down"
    );
    assert_eq!(LlmError::TokenOverflow.message(), "Token limit exceeded");
    assert_eq!(LlmError::Parse("bad".to_string()).message(), "Parse error: bad");
}

#[test]
fn providers_are_chosen_case_insensitively() {
    let c = |p: &str| LlmConfig { provider: p.to_string(), ..LlmConfig::default() };
    assert!(matches!(create_adapter(&c("OpenAI")), Ok(Adapter::OpenAi(_))));
    assert!(matches!(create_adapter(&c("custom")), Ok(Adapter::OpenAi(_))));
    assert!(matches!(create_adapter(&c("Ollama")), Ok(Adapter::Ollama(_))));
    match create_adapter(&c("Anthropic")) {
        Err(LlmError::Config(m)) => {
            assert_eq!(m, "Unsupported LLM provider: 'anthropic'. Supported values: openai, ollama, custom")
        },
        _ => panic!("expected a configuration error"),
    }
}

#[test]
fn openai_protocol_decisions() {
    assert_eq!(chat_step(200, 0, None), ChatStep::Done);
    assert_eq!(chat_step(429, 0, None), ChatStep::Retry(2));
    assert_eq!(chat_step(429, 2, None), ChatStep::Retry(8));
    assert_eq!(chat_step(429, 1, Some(7)), ChatStep::Retry(7));
    assert_eq!(chat_step(429, 3, None), ChatStep::Fail);
    assert_eq!(chat_step(500, 0, None), ChatStep::Fail);
    match fail_error(404, None) {
        LlmError::ApiError { status, message } => assert_eq!((status, message.as_str()), (404, "Unknown API error")),
        _ => panic!(),
    }
    match fail_error(302, Some("x".to_string())) {
        LlmError::ApiError { message, .. } => assert_eq!(message, "Unknown error"),
        _ => panic!(),
    }
    assert_eq!(usage_info(3, 4, None).total_tokens, 7);
    assert_eq!(usage_info(3, 4, Some(9)).total_tokens, 9);
    assert!(completion_result(200, None, None).is_err());
    let a = OpenAiAdapter::new(LlmConfig { base_url: "https://x.io/v1//".to_string(), ..LlmConfig::default() });
    assert_eq!(a.chat_url(), "https://x.io/v1/chat/completions");
    assert_eq!(a.models_url(), "https://x.io/v1/models");
    assert_eq!(a.connection_listed(false).message, "Connected, but model 'qwen2.5:7b' not found in available models list.");
    assert_eq!(OpenAiAdapter::connection_refused(401, None).message, "API error (401): Connection failed");
}

#[test]
fn ollama_and_batch_texts() {
    assert_eq!(OllamaAdapter::analysis_json("  ```json\n{\"a\":1}\n```  "), "{\"a\":1}");
    assert_eq!(OllamaAdapter::analysis_json("```{}```"), "{}");
    assert_eq!(OllamaAdapter::analysis_json("```json {} "), "```json {}");
    let o = OllamaAdapter::new(LlmConfig::default());
    assert_eq!(o.api_url("/api/chat"), "http://localhost:11434/api/chat");
    assert_eq!(
        o.connection_unreachable(false, true, "e").message,
        "Cannot connect to http://localhost:11434. Make sure Ollama is started."
    );
    let choice = BatchChoice {
        index: 0,
        message: BatchResponseMessage { role: "assistant".to_string(), content: " ```json\n{\"x\":1}``` ".to_string() },
        finish_reason: "stop".to_string(),
    };
    assert_eq!(KimiBatchAdapter::analysis_json(&choice), "{\"x\":1}");
    let k = KimiBatchAdapter::new(LlmConfig { base_url: "https://k.ai/".to_string(), ..LlmConfig::default() });
    assert_eq!(k.create_url(), "https://k.ai/v1/batch/create");
    assert_eq!(k.retrieve_url("b1"), "https://k.ai/v1/batch/b1");
    assert_eq!(k.results_url("files/out.jsonl"), "https://k.ai/files/out.jsonl");
    assert_eq!(k.results_url("https://cdn/x"), "https://cdn/x");
    let item = KimiBatchAdapter::build_analysis_item("f1", "m", "QUJD", "describe", 100);
    match &item.body.messages[0].content[1] {
        BatchContentPart::ImageUrl { image_url, .. } => assert_eq!(image_url.url, "data:image/jpeg;base64,QUJD"),
        _ => panic!(),
    }
}

#[test]
fn report_context_spans_the_segments() {
    let c = report_context(&vec![seg("1", "t0", "t1", "a", 1, None), seg("2", "t2", "t3", "b", 2, None)]);
    assert_eq!((c.date_range.0.as_str(), c.date_range.1.as_str()), ("t0", "t3"));
    assert_eq!(c.segments.len(), 2);
    assert_eq!(c.segments[1].summary, "");
}

#[test]
fn dates_are_written_as_chrono_does() {
    assert_eq!(format_date(&Date { year: 5, month: 3, day: 7 }), "0005-03-07");
    assert_eq!(format_date(&Date { year: 12345, month: 1, day: 1 }), "+12345-01-01");
    assert_eq!(format_date(&Date { year: -44, month: 3, day: 15 }), "-0044-03-15");
    let t = DateTime { date: Date { year: 2025, month: 1, day: 15 }, hour: 9, minute: 5, second: 3 };
    assert_eq!(format_datetime(&t), "2025-01-15 09:05:03");
}

#[test]
fn tray_icon_follows_the_state() {
    let mut t = TrayState::new();
    assert_eq!(t.icon_kind(), IconKind::Idle);
    t.set_recording(true);
    assert_eq!(t.icon_kind(), IconKind::Recording);
    assert!(t.toggle_pause());
    assert_eq!(t.icon_kind(), IconKind::Paused);
    t.set_error(true);
    assert_eq!(t.icon_kind(), IconKind::Error);
    assert!(!t.toggle_pause());
    assert_eq!(pause_label(true), "恢复记录");
    assert_eq!(menu_action("quit"), MenuAction::Quit);
    assert_eq!(menu_action("other"), MenuAction::Ignore);
    assert_eq!(icon_color(IconKind::Idle), (76, 175, 80));
}

#[test]
fn dates_are_checked_against_the_calendar() {
    assert!(Date { year: 2024, month: 2, day: 29 }.is_valid());
    assert!(!Date { year: 2023, month: 2, day: 29 }.is_valid());
    assert!(!Date { year: 1900, month: 2, day: 29 }.is_valid());
    assert!(Date { year: 2000, month: 2, day: 29 }.is_valid());
    assert!(Date { year: -4, month: 2, day: 29 }.is_valid());
    assert!(!Date { year: 2024, month: 13, day: 1 }.is_valid());
    assert!(!Date { year: 2024, month: 4, day: 31 }.is_valid());
    assert!(!Date { year: 300_000, month: 1, day: 1 }.is_valid());
    let t = DateTime { date: Date { year: 2025, month: 1, day: 15 }, hour: 23, minute: 59, second: 59 };
    assert!(t.is_valid());
    assert!(!DateTime { hour: 24, ..t }.is_valid());
}

#[test]
fn database_and_configuration_error_messages() {
    assert_eq!(DbError::Sqlite("locked".to_string()).message(), "SQLite error: locked");
    assert_eq!(DbError::Pool("timeout".to_string()).message(), "Connection pool error: timeout");
    assert_eq!(DbError::Migration("bad".to_string()).message(), "Migration error: bad");
    assert_eq!(DbError::Serde("eof".to_string()).message(), "Serialization error: eof");
    assert_eq!(ConfigError::NotFound("/x/config.json".to_string()).message(), "Config file not found: /x/config.json");
    assert_eq!(ConfigError::Io("denied".to_string()).message(), "IO error: denied");
    assert_eq!(ConfigError::Parse("eof".to_string()).message(), "Parse error: eof");
    assert_eq!(ConfigError::Validation("range".to_string()).message(), "Validation error: range");
}

#[test]
fn applying_pending_migrations_twice_runs_nothing_more() {
    let first: Vec<u32> = pending_migrations(2).iter().map(|m| m.version).collect();
    assert_eq!(first, vec![3, 4, 5, 6]);
    assert!(pending_migrations(*first.last().unwrap()).is_empty());
    assert!(pending_migrations(9).is_empty());
}
