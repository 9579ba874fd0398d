use wornitor::config::LlmConfig;
use wornitor::datetime::{Date, DateTime};
use wornitor::db::models::{ActivitySegment, LlmConfig as DbLlmConfig};
use wornitor::llm::adapter::{AnalysisResult, LlmError, UsageInfo};
use wornitor::scheduler::{
    batch_images, batch_items, batch_provider, batch_span, batch_status_action, consolidate_batch, consolidated_secs,
    extend_on_duplicate, extend_segment, extended_tokens, frame_record, intervals_consistent, is_blocked_app,
    join_frame_ids, llm_config_from_db, load_llm_config, new_segment, pending_batch, remove_batches, should_retry,
    take_pending_batch, BatchItemOutcome, BatchStatusAction, LoopState, PendingFrame, Scheduler, SegmentAction,
    TaskHandle, TickOutcome, MAX_IMAGES_PER_BATCH,
};
use wornitor::llm::kimi_batch::{jsonl_lines, BatchContentPart};
use wornitor::screen::ScreenshotFrame;

fn at(h: u32, m: u32, s: u32) -> DateTime {
    DateTime { date: Date { year: 2025, month: 1, day: 15 }, hour: h, minute: m, second: s }
}

fn frame(id: &str, t: DateTime) -> PendingFrame {
    PendingFrame {
        frame: ScreenshotFrame {
            id: id.to_string(),
            captured_at: t,
            file_path: String::new(),
            width: 10,
            height: 5,
            hash: "0000000000000000".to_string(),
            jpeg_bytes: vec![1, 2, 3],
        },
        b64_cache: Some(format!("b64-{id}")),
    }
}

fn analysis(cat: &str) -> AnalysisResult {
    AnalysisResult {
        activity: "writing code".to_string(),
        app_name: Some("Editor".to_string()),
        window_title: None,
        category: cat.to_string(),
        confidence_bits: 0.9f32.to_bits(),
    }
}

fn db_config(provider: &str, batch: Option<bool>, max_tokens: i64) -> DbLlmConfig {
    DbLlmConfig {
        id: 7,
        name: "main".to_string(),
        provider: provider.to_string(),
        base_url: "https://api.example.com/".to_string(),
        model: "m1".to_string(),
        api_key: Some("k".to_string()),
        max_tokens,
        is_active: false,
        created_at: "x".to_string(),
        use_batch_api: batch,
    }
}

#[test]
fn scheduler_refuses_a_second_start_and_restarts_after_stop() {
    let mut s = Scheduler::new();
    assert!(!s.is_running());
    assert!(s.start(30, 150).is_ok());
    assert!(s.is_running());
    assert_eq!(s.start(30, 150).unwrap_err(), "Scheduler is already running");
    s.pause();
    assert!(s.is_paused());
    s.resume();
    assert!(!s.is_paused());
    assert!(s.stop().is_ok());
    assert!(!s.is_running());
    assert!(s.start(30, 150).is_ok());
}

#[test]
fn interval_consistency() {
    assert!(intervals_consistent(30, 150));
    assert!(!intervals_consistent(30, 100));
    assert!(!intervals_consistent(30, 15));
}

#[test]
fn task_handle_cancel() {
    let mut h = TaskHandle::new();
    assert!(!h.is_cancelled());
    h.cancel();
    assert!(h.is_cancelled());
}

#[test]
fn blocked_apps_match_by_substring() {
    let blocked = vec!["1Password".to_string(), "Terminal".to_string()];
    assert!(is_blocked_app(Some("Terminal.app"), &blocked));
    assert!(!is_blocked_app(Some("Safari"), &blocked));
    assert!(!is_blocked_app(None, &blocked));
}

#[test]
fn first_frame_starts_a_session_and_a_full_queue_is_analysed() {
    let mut st = LoopState::new(0);
    // first frame: new session, timer restarts at 1000
    assert!(st.enqueue_frame(frame("a", at(9, 0, 0)), 1000, 60_000).is_none());
    assert_eq!(st.last_analysis_ms, 1000);
    assert_eq!(st.pending_frames.len(), 1);
    // frames closer than half an interval keep the session; after a whole
    // interval the queue is taken
    assert!(st.enqueue_frame(frame("b", at(9, 0, 20)), 21_000, 60_000).is_none());
    assert!(st.enqueue_frame(frame("c", at(9, 0, 40)), 41_000, 60_000).is_none());
    let b = st.enqueue_frame(frame("d", at(9, 1, 0)), 61_000, 60_000).unwrap();
    assert_eq!(b.len(), 4);
    assert!(st.pending_frames.is_empty());
    st.analysis_done(61_500);
    assert_eq!(st.last_analysis_ms, 61_500);
    // a queue reaching the limit is taken at once
    for i in 0..MAX_IMAGES_PER_BATCH - 1 {
        assert!(st.enqueue_frame(frame("c", at(9, 2, 0)), 62_000 + i as u64, 600_000).is_none());
    }
    let b = st.enqueue_frame(frame("d", at(9, 3, 0)), 62_100, 600_000).unwrap();
    assert_eq!(b.len(), MAX_IMAGES_PER_BATCH);
}

#[test]
fn idle_gap_restarts_the_timer() {
    let mut st = LoopState::new(0);
    st.enqueue_frame(frame("a", at(9, 0, 0)), 1000, 100_000);
    // away for more than half an interval
    assert!(st.enqueue_frame(frame("b", at(9, 5, 0)), 60_000, 100_000).is_none());
    assert_eq!(st.last_analysis_ms, 60_000);
}

#[test]
fn duplicate_extends_the_segment() {
    let seg = new_segment(
        "s1".to_string(),
        "2025-01-15 09:00:00".to_string(),
        "2025-01-15 09:05:00".to_string(),
        300,
        &analysis("coding"),
        "a,b".to_string(),
        0,
        None,
        0,
    );
    let e = extend_on_duplicate(seg, &at(9, 5, 30), 30);
    assert_eq!(e.end_time, "2025-01-15 09:05:30");
    assert_eq!(e.duration_secs, 330);
}

#[test]
fn analysis_of_the_same_category_extends() {
    let mut st = LoopState::new(0);
    assert!(matches!(st.segment_action("coding"), Some(SegmentAction::Create)));
    st.record_analysis("coding", Some("s1".to_string()));
    assert!(matches!(st.segment_action("coding"), Some(SegmentAction::Extend(ref id)) if id == "s1"));
    assert!(matches!(st.segment_action("meeting"), Some(SegmentAction::Create)));
    let mut fresh = LoopState::new(0);
    fresh.record_analysis("coding", None);
    assert!(fresh.segment_action("coding").is_none());
}

#[test]
fn extending_appends_summary_and_ids() {
    let seg = new_segment(
        "s1".to_string(),
        "t0".to_string(),
        "t1".to_string(),
        60,
        &analysis("coding"),
        "a".to_string(),
        0,
        None,
        5,
    );
    assert_eq!(seg.llm_tokens, Some(5));
    let e = extend_segment(seg, "t2", 90, "testing", "b,c");
    assert_eq!(e.end_time, "t2");
    assert_eq!(e.duration_secs, 150);
    assert_eq!(e.llm_summary.as_deref(), Some("writing code; testing"));
    assert_eq!(e.source_frame_ids.as_deref(), Some("a,b,c"));
    assert_eq!(extended_tokens(&e, 7), 12);
    let bare = new_segment("s2".to_string(), "t".to_string(), "t".to_string(), 0, &analysis("x"), String::new(), 0, None, 0);
    assert_eq!(bare.llm_tokens, None);
    let e2 = extend_segment(bare, "t3", 1, "more", "z");
    assert_eq!(e2.source_frame_ids.as_deref(), Some("z"));
}

#[test]
fn batch_helpers() {
    let batch = vec![frame("a", at(9, 0, 0)), frame("b", at(9, 0, 30))];
    assert_eq!(join_frame_ids(&batch), "a,b");
    let (s, e, d) = batch_span(&batch, 30);
    assert_eq!((s.as_str(), e.as_str(), d), ("2025-01-15 09:00:00", "2025-01-15 09:00:30", 60));
    let imgs = batch_images(&batch);
    assert_eq!(imgs[1].data, "b64-b");
    assert_eq!(imgs[1].media_type, "image/jpeg");
    let rec = frame_record(&batch[0].frame, None, &analysis("c"));
    assert_eq!(rec.captured_at, "2025-01-15 09:00:00");
    assert_eq!(rec.file_size, 3);
    assert_eq!(rec.file_path, "");
    assert_eq!(rec.app_name.as_deref(), Some("Editor"));
    let cfg = llm_config_from_db(&db_config("openai", Some(true), 512), true);
    let items = batch_items(&batch, &cfg, "prompt");
    assert_eq!(items.len(), 2);
    assert_eq!(items[0].custom_id, "a");
    assert_eq!(items[0].body.max_tokens, 512);
}

#[test]
fn model_configuration_and_batch_mode() {
    let (cfg, batch) = load_llm_config(Some(&db_config("OpenAI", Some(true), 4096))).unwrap();
    assert!(batch);
    assert!(cfg.is_active);
    assert!(cfg.use_batch_api);
    let (_, batch) = load_llm_config(Some(&db_config("ollama", Some(true), 4096))).unwrap();
    assert!(!batch);
    let (_, batch) = load_llm_config(Some(&db_config("custom", None, 4096))).unwrap();
    assert!(!batch);
    assert!(load_llm_config(None).is_none());
    // 2^32 + 5 is truncated to 5
    let cfg = llm_config_from_db(&db_config("x", Some(true), (1i64 << 32) + 5), false);
    assert_eq!(cfg.max_tokens, 5);
    assert!(!cfg.use_batch_api);
    assert!(batch_provider("CUSTOM"));
    assert!(!batch_provider("ollama"));
}

#[test]
fn only_transient_failures_are_retried_twice() {
    assert!(should_retry(&LlmError::Network("x".to_string()), 0));
    assert!(should_retry(&LlmError::Timeout("x".to_string()), 1));
    assert!(!should_retry(&LlmError::Timeout("x".to_string()), 2));
    assert!(!should_retry(&LlmError::Config("x".to_string()), 0));
}

#[test]
fn batch_status_actions() {
    assert_eq!(batch_status_action("completed"), BatchStatusAction::Completed);
    assert_eq!(batch_status_action("failed"), BatchStatusAction::Failed);
    assert_eq!(batch_status_action("cancelled"), BatchStatusAction::Failed);
    assert_eq!(batch_status_action("in_progress"), BatchStatusAction::InProgress);
    assert_eq!(batch_status_action("validating"), BatchStatusAction::InProgress);
    assert_eq!(batch_status_action("expired"), BatchStatusAction::Unknown);
}

#[test]
fn pending_batches_are_taken_and_removed_by_id() {
    let cfg = LlmConfig::default();
    let mut pending = vec![
        pending_batch("b1".to_string(), at(9, 0, 0), cfg.clone(), vec![], "p"),
        pending_batch("b2".to_string(), at(9, 0, 0), cfg.clone(), vec![], "p"),
        pending_batch("b1".to_string(), at(9, 0, 0), cfg.clone(), vec![], "p"),
    ];
    assert_eq!(pending[0].model, "qwen2.5:7b");
    let taken = take_pending_batch(&mut pending, "b1").unwrap();
    assert_eq!(taken.batch_id, "b1");
    assert_eq!(pending.len(), 2);
    assert!(take_pending_batch(&mut pending, "zz").is_none());
    remove_batches(&mut pending, "b1");
    assert_eq!(pending.len(), 1);
    assert_eq!(pending[0].batch_id, "b2");
}

#[test]
fn batch_results_consolidate_on_the_first_parsed_analysis() {
    let frames = vec![frame("a", at(9, 0, 0)), frame("b", at(9, 2, 0)), frame("c", at(9, 3, 0))];
    let usage = UsageInfo { prompt_tokens: 1, completion_tokens: 2, total_tokens: 3 };
    let outcomes = vec![
        BatchItemOutcome { custom_id: "zz".to_string(), failed: false, parsed: Some((analysis("x"), None)) },
        BatchItemOutcome { custom_id: "c".to_string(), failed: true, parsed: Some((analysis("x"), None)) },
        BatchItemOutcome { custom_id: "b".to_string(), failed: false, parsed: None },
        BatchItemOutcome { custom_id: "a".to_string(), failed: false, parsed: Some((analysis("coding"), Some(usage))) },
    ];
    let c = consolidate_batch(&frames, &outcomes).unwrap();
    assert_eq!(c.frames.len(), 2);
    assert_eq!(c.frames[0].frame.id, "b");
    assert_eq!(c.frames[1].frame.id, "a");
    assert_eq!(c.analysis.category, "coding");
    assert_eq!(c.usage.unwrap().total_tokens, 3);
    // the span from the first to the last used frame, at least 30 s
    assert_eq!(consolidated_secs(&c.frames), 30);
    assert_eq!(consolidated_secs(&frames), 180);
    assert_eq!(consolidated_secs(&frames[..1].to_vec()), 30);
    let none = vec![BatchItemOutcome { custom_id: "b".to_string(), failed: false, parsed: None }];
    assert!(consolidate_batch(&frames, &none).is_none());
}

#[test]
fn batch_requests_carry_prompt_and_image() {
    let mut batch = vec![frame("a", at(9, 0, 0)), frame("b", at(9, 0, 30))];
    batch[1].b64_cache = None;
    let cfg = llm_config_from_db(&db_config("openai", Some(true), 512), true);
    let items = batch_items(&batch, &cfg, "prompt");
    let parts = &items[0].body.messages[0].content;
    match &parts[0] {
        BatchContentPart::Text { kind, text } => assert_eq!((kind.as_str(), text.as_str()), ("text", "prompt")),
        _ => panic!("expected the prompt first"),
    }
    match &parts[1] {
        BatchContentPart::ImageUrl { image_url, .. } => assert_eq!(image_url.url, "data:image/jpeg;base64,b64-a"),
        _ => panic!("expected the image second"),
    }
    match &items[1].body.messages[0].content[1] {
        BatchContentPart::ImageUrl { image_url, .. } => assert_eq!(image_url.url, "data:image/jpeg;base64,"),
        _ => panic!("expected the image second"),
    }
}

#[test]
fn a_tick_skips_paused_blocked_failed_and_duplicate_captures() {
    let mut st = LoopState::new(0);
    assert!(matches!(st.tick(true, false, None, None, 5, 10, 60_000), TickOutcome::Paused));
    assert!(matches!(st.tick(false, true, None, None, 5, 10, 60_000), TickOutcome::Blocked));
    assert!(matches!(st.tick(false, false, None, None, 5, 10, 60_000), TickOutcome::CaptureFailed));
    let f = frame("a", at(9, 0, 0)).frame;
    assert!(matches!(
        st.tick(false, false, Some(f.clone()), Some("0000000000000001"), 5, 10, 60_000),
        TickOutcome::Duplicate
    ));
    assert!(st.pending_frames.is_empty());
    assert_eq!(st.last_activity_ms, None);
    assert!(matches!(st.tick(false, false, Some(f), Some("ffffffffffffffff"), 5, 10, 60_000), TickOutcome::Queued));
    assert_eq!(st.pending_frames.len(), 1);
    assert_eq!(st.pending_frames[0].b64_cache.as_deref(), Some("AQID"));
    for i in 0..MAX_IMAGES_PER_BATCH - 2 {
        let f = frame("b", at(9, 0, 1)).frame;
        st.tick(false, false, Some(f), None, 5, 20 + i as u64, 600_000);
    }
    let f = frame("c", at(9, 0, 2)).frame;
    match st.tick(false, false, Some(f), None, 5, 100, 600_000) {
        TickOutcome::Analyze(b) => assert_eq!(b.len(), MAX_IMAGES_PER_BATCH),
        other => panic!("expected an analysis, got {other:?}"),
    }
    assert!(st.pending_frames.is_empty());
}

#[test]
fn cancelling_a_task_twice_keeps_it_cancelled() {
    let mut h = TaskHandle::new();
    h.cancel();
    h.cancel();
    assert!(h.is_cancelled());
}

#[test]
fn batch_output_is_split_into_records() {
    let lines = jsonl_lines("{\"a\":1}\r\n\n   \n{\"b\":2}\n{\"c\":3}");
    assert_eq!(lines, vec!["{\"a\":1}", "{\"b\":2}", "{\"c\":3}"]);
    assert!(jsonl_lines("").is_empty());
    assert!(jsonl_lines(" \t\n\r\n").is_empty());
    assert_eq!(jsonl_lines("x\r"), vec!["x\r"]);
}
