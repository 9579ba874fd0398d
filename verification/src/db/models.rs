//! The rows of the activity database.
//!
//! Floating-point columns (a segment's confidence and cost, a usage log's
//! cost) are carried as the IEEE-754 bit patterns of their `f64` values
//! (`f64::to_bits`); nothing here computes with them.

use vstd::prelude::*;
use crate::text::{opt_str, clone_opt};

verus! {

/// A stored screenshot.
#[derive(Clone, Debug)]
pub struct ScreenshotFrame {
    pub id: String,
    pub captured_at: String,
    pub file_path: String,
    pub file_size: i64,
    pub width: i32,
    pub height: i32,
    pub phash: String,
    pub app_name: Option<String>,
    pub window_title: Option<String>,
    pub created_at: String,
}

/// A span of time spent on one activity.
#[derive(Clone, Debug)]
pub struct ActivitySegment {
    pub id: String,
    pub start_time: String,
    pub end_time: String,
    pub duration_secs: i64,
    pub app_name: Option<String>,
    pub window_title: Option<String>,
    pub llm_summary: Option<String>,
    pub category: String,
    pub user_label: Option<String>,
    /// Bits of the `f64` confidence.
    pub confidence_bits: u64,
    pub source_frame_ids: Option<String>,
    pub is_manual: bool,
    pub created_at: String,
    /// Bits of the `f64` cost of the model calls behind the segment.
    pub llm_cost_bits: Option<u64>,
    pub llm_tokens: Option<i64>,
}

/// The value of a segment: its texts as character sequences.
#[verifier::ext_equal]
pub struct SegmentView {
    pub id: Seq<char>,
    pub start_time: Seq<char>,
    pub end_time: Seq<char>,
    pub duration_secs: i64,
    pub app_name: Option<Seq<char>>,
    pub window_title: Option<Seq<char>>,
    pub llm_summary: Option<Seq<char>>,
    pub category: Seq<char>,
    pub user_label: Option<Seq<char>>,
    pub confidence_bits: u64,
    pub source_frame_ids: Option<Seq<char>>,
    pub is_manual: bool,
    pub created_at: Seq<char>,
    pub llm_cost_bits: Option<u64>,
    pub llm_tokens: Option<i64>,
}

impl View for ActivitySegment {
    type V = SegmentView;

    open spec fn view(&self) -> SegmentView {
        SegmentView {
            id: self.id@,
            start_time: self.start_time@,
            end_time: self.end_time@,
            duration_secs: self.duration_secs,
            app_name: opt_str(self.app_name),
            window_title: opt_str(self.window_title),
            llm_summary: opt_str(self.llm_summary),
            category: self.category@,
            user_label: opt_str(self.user_label),
            confidence_bits: self.confidence_bits,
            source_frame_ids: opt_str(self.source_frame_ids),
            is_manual: self.is_manual,
            created_at: self.created_at@,
            llm_cost_bits: self.llm_cost_bits,
            llm_tokens: self.llm_tokens,
        }
    }
}

/// The views of a sequence of segments.
pub open spec fn seg_views(s: Seq<ActivitySegment>) -> Seq<SegmentView> {
    s.map_values(|x: ActivitySegment| x@)
}

impl ActivitySegment {
    /// A copy of the segment with the same value.
    pub fn copy(&self) -> (r: ActivitySegment)
        ensures
            r@ == self@,
    {
        ActivitySegment {
            id: self.id.clone(),
            start_time: self.start_time.clone(),
            end_time: self.end_time.clone(),
            duration_secs: self.duration_secs,
            app_name: clone_opt(&self.app_name),
            window_title: clone_opt(&self.window_title),
            llm_summary: clone_opt(&self.llm_summary),
            category: self.category.clone(),
            user_label: clone_opt(&self.user_label),
            confidence_bits: self.confidence_bits,
            source_frame_ids: clone_opt(&self.source_frame_ids),
            is_manual: self.is_manual,
            created_at: self.created_at.clone(),
            llm_cost_bits: self.llm_cost_bits,
            llm_tokens: self.llm_tokens,
        }
    }
}

/// The stored summary of one day.
#[derive(Clone, Debug)]
pub struct DailySummary {
    pub id: String,
    pub date: String,
    pub total_seconds: i64,
    pub segment_count: i64,
    pub activity_breakdown: Option<String>,
    pub llm_summary: Option<String>,
    pub user_notes: Option<String>,
    pub report_html: Option<String>,
    pub created_at: String,
    pub updated_at: String,
}

/// The stored summary of a week or a month; `period_type` is the `type`
/// column, `"weekly"` or `"monthly"`.
#[derive(Clone, Debug)]
pub struct PeriodSummary {
    pub id: String,
    pub period_type: String,
    pub start_date: String,
    pub end_date: String,
    pub total_seconds: i64,
    pub daily_trend: Option<String>,
    pub activity_breakdown: Option<String>,
    pub llm_summary: Option<String>,
    pub user_notes: Option<String>,
    pub report_html: Option<String>,
    pub created_at: String,
}

/// A stored model configuration.
#[derive(Clone, Debug)]
pub struct LlmConfig {
    pub id: i64,
    pub name: String,
    pub provider: String,
    pub base_url: String,
    pub model: String,
    pub api_key: Option<String>,
    pub max_tokens: i64,
    pub is_active: bool,
    pub created_at: String,
    /// Use the batch API instead of the real-time one (OpenAI-compatible
    /// providers only).
    pub use_batch_api: Option<bool>,
}

/// A privacy rule.
#[derive(Clone, Debug)]
pub struct PrivacyRule {
    pub id: i64,
    pub rule_type: String,
    pub pattern: String,
    pub is_active: bool,
    pub blur_rect: Option<String>,
    pub created_at: String,
}

/// One model call's token usage.
#[derive(Clone, Debug)]
pub struct LlmUsageLog {
    pub id: i64,
    pub model: String,
    pub provider: String,
    pub prompt_tokens: i64,
    pub completion_tokens: i64,
    pub total_tokens: i64,
    /// Bits of the `f64` estimated cost.
    pub estimated_cost_bits: u64,
    pub created_at: String,
}

/// Usage totals over a period.
#[derive(Clone, Debug)]
pub struct UsageSummary {
    pub total_prompt_tokens: i64,
    pub total_completion_tokens: i64,
    pub total_tokens: i64,
    /// Bits of the `f64` total cost.
    pub total_cost_bits: u64,
    pub call_count: i64,
}

/// The recording engine's status as the front end shows it.
#[derive(Clone, Copy, Debug)]
pub struct RecordingStatus {
    pub is_recording: bool,
    pub is_paused: bool,
    pub segment_count: i64,
    pub total_seconds: i64,
}

} // verus!
