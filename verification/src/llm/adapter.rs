//! Values exchanged with every model provider.

use vstd::prelude::*;
use crate::db::models::{ActivitySegment, SegmentView, seg_views, LlmUsageLog};
use crate::text::{opt_str, clone_opt, str_or_empty};
use crate::fmt::int_dec;

verus! {

/// What can go wrong talking to a model.
#[derive(Debug)]
pub enum LlmError {
    Timeout(String),
    RateLimited(u64),
    ApiError { status: u16, message: String },
    Network(String),
    /// A response that could not be parsed; the parser's message.
    Parse(String),
    Config(String),
    TokenOverflow,
}

/// The message of a model error.
pub open spec fn llm_error_text(e: LlmError) -> Seq<char> {
    match e {
        LlmError::Timeout(m) => "Request timeout: "@ + m@,
        LlmError::RateLimited(s) => "Rate limited, retry after "@ + int_dec(s as int) + "s"@,
        LlmError::ApiError { status, message } => "API error ("@ + int_dec(status as int) + "): "@ + message@,
        LlmError::Network(m) => "Network error: "@ + m@,
        LlmError::Parse(m) => "Parse error: "@ + m@,
        LlmError::Config(m) => "Configuration error: "@ + m@,
        LlmError::TokenOverflow => "Token limit exceeded"@,
    }
}

impl LlmError {
    /// The error's message.
    pub fn message(&self) -> (s: String)
        ensures
            s@ == llm_error_text(*self),
    {
        match self {
            LlmError::Timeout(m) => String::from_str("Request timeout: ").concat(m.as_str()),
            LlmError::RateLimited(secs) => {
                let mut s = String::from_str("Rate limited, retry after ");
                crate::fmt::push_dec(&mut s, *secs);
                s.append("s");
                proof {
                    assert(s@ =~= llm_error_text(*self));
                }
                s
            },
            LlmError::ApiError { status, message } => {
                let mut s = String::from_str("API error (");
                crate::fmt::push_dec(&mut s, *status as u64);
                s.append("): ");
                s.append(message.as_str());
                proof {
                    assert(s@ =~= llm_error_text(*self));
                }
                s
            },
            LlmError::Network(m) => String::from_str("Network error: ").concat(m.as_str()),
            LlmError::Parse(m) => String::from_str("Parse error: ").concat(m.as_str()),
            LlmError::Config(m) => String::from_str("Configuration error: ").concat(m.as_str()),
            LlmError::TokenOverflow => String::from_str("Token limit exceeded"),
        }
    }

    /// A timeout or a network failure, which a retry may cure.
    pub fn is_transient(&self) -> (res: bool)
        ensures
            res == (*self is Network || *self is Timeout),
    {
        match self {
            LlmError::Network(_) | LlmError::Timeout(_) => true,
            _ => false,
        }
    }
}

/// Token usage of one model call.
#[derive(Clone, Copy, Debug)]
pub struct UsageInfo {
    pub prompt_tokens: u32,
    pub completion_tokens: u32,
    pub total_tokens: u32,
}

/// An image sent for analysis: base64 data and its media type.
#[derive(Clone, Debug)]
pub struct AnalysisImage {
    pub data: String,
    pub media_type: String,
}

/// What a model reports about a screenshot.  `confidence_bits` are the
/// bits of the `f32` confidence (`f32::to_bits`).
#[derive(Clone, Debug)]
pub struct AnalysisResult {
    pub activity: String,
    pub app_name: Option<String>,
    pub window_title: Option<String>,
    pub category: String,
    pub confidence_bits: u32,
}

/// The context handed to the report prompt.
#[derive(Debug)]
pub struct ReportContext {
    pub date_range: (String, String),
    pub segments: Vec<ActivitySegmentSummary>,
}

/// One segment as the report prompt sees it.
#[derive(Clone, Debug)]
pub struct ActivitySegmentSummary {
    pub start_time: String,
    pub end_time: String,
    pub duration_secs: i64,
    pub app_name: Option<String>,
    pub category: String,
    pub summary: String,
}

/// The outcome of a connection test.
#[derive(Clone, Debug)]
pub struct ConnectionStatus {
    pub success: bool,
    pub message: String,
    pub model: Option<String>,
}

/// The summary of a segment for the report prompt (its summary text, or
/// nothing).
pub open spec fn summary_of_segment(s: SegmentView, r: ActivitySegmentSummary) -> bool {
    &&& r.start_time@ == s.start_time
    &&& r.end_time@ == s.end_time
    &&& r.duration_secs == s.duration_secs
    &&& opt_str(r.app_name) == s.app_name
    &&& r.category@ == s.category
    &&& r.summary@ == str_or_empty(s.llm_summary)
}

/// The context of a report over `segments`: the start of the first and the
/// end of the last segment (empty without segments), and every segment.
pub fn report_context(segments: &Vec<ActivitySegment>) -> (c: ReportContext)
    ensures
        c.segments@.len() == segments@.len(),
        forall|i: int| 0 <= i < segments@.len() ==> summary_of_segment(#[trigger] segments@[i]@, c.segments@[i]),
        c.date_range.0@ == (if segments@.len() > 0 { segments@[0]@.start_time } else { Seq::empty() }),
        c.date_range.1@ == (if segments@.len() > 0 { segments@.last()@.end_time } else { Seq::empty() }),
{
    let mut out: Vec<ActivitySegmentSummary> = Vec::new();
    let mut i: usize = 0;
    while i < segments.len()
        invariant
            i <= segments.len(),
            out@.len() == i,
            forall|k: int| 0 <= k < i ==> summary_of_segment(#[trigger] segments@[k]@, out@[k]),
        decreases segments.len() - i,
    {
        let s = &segments[i];
        let summary = match &s.llm_summary {
            Some(t) => t.clone(),
            None => String::new(),
        };
        out.push(ActivitySegmentSummary {
            start_time: s.start_time.clone(),
            end_time: s.end_time.clone(),
            duration_secs: s.duration_secs,
            app_name: clone_opt(&s.app_name),
            category: s.category.clone(),
            summary,
        });
        i = i + 1;
    }
    let first = if segments.len() > 0 { segments[0].start_time.clone() } else { String::new() };
    let last = if segments.len() > 0 { segments[segments.len() - 1].end_time.clone() } else { String::new() };
    ReportContext { date_range: (first, last), segments: out }
}

/// The usage log of one model call, for storage; `cost_bits` are the bits
/// of the estimated `f64` cost.
pub fn usage_log_record(model: &str, provider: &str, u: UsageInfo, cost_bits: u64, created_at: String) -> (r: LlmUsageLog)
    ensures
        r.id == 0,
        r.model@ == model@,
        r.provider@ == provider@,
        r.prompt_tokens == u.prompt_tokens,
        r.completion_tokens == u.completion_tokens,
        r.total_tokens == u.total_tokens,
        r.estimated_cost_bits == cost_bits,
        r.created_at@ == created_at@,
{
    LlmUsageLog {
        id: 0,
        model: String::from_str(model),
        provider: String::from_str(provider),
        prompt_tokens: u.prompt_tokens as i64,
        completion_tokens: u.completion_tokens as i64,
        total_tokens: u.total_tokens as i64,
        estimated_cost_bits: cost_bits,
        created_at,
    }
}

/// `"true"` or `"false"`.
pub open spec fn bool_text(b: bool) -> Seq<char> {
    if b { "true"@ } else { "false"@ }
}

fn bool_str(b: bool) -> (s: &'static str)
    ensures
        s@ == bool_text(b),
{
    if b { "true" } else { "false" }
}

/// The network error of a failed HTTP exchange, told apart by what the
/// HTTP client reports of it: a timeout (with whether it happened while
/// connecting or in the request), a failed connection, an error status, a
/// failure before any response, or anything else; `text` is the client
/// error's own message.
pub fn network_error(
    is_timeout: bool,
    is_connect: bool,
    is_request: bool,
    is_status: bool,
    status: Option<u16>,
    text: &str,
) -> (e: LlmError)
    ensures
        e matches LlmError::Network(d) && d@ == if is_timeout {
            "Request timed out (connect="@ + bool_text(is_connect) + ", total="@ + bool_text(is_request) + ")"@
        } else if is_connect {
            "Connection failed (DNS/TCP/TLS): "@ + text@
        } else if is_status {
            "HTTP error status: "@ + int_dec(match status { Some(s) => s as int, None => 0 })
        } else if is_request {
            "Request error (before response): "@ + text@
        } else {
            "Unexpected reqwest error: "@ + text@
        },
{
    let detail = if is_timeout {
        String::from_str("Request timed out (connect=").concat(bool_str(is_connect)).concat(", total=").concat(
            bool_str(is_request),
        ).concat(")")
    } else if is_connect {
        String::from_str("Connection failed (DNS/TCP/TLS): ").concat(text)
    } else if is_status {
        let code: u16 = match status {
            Some(s) => s,
            None => 0,
        };
        let mut d = String::from_str("HTTP error status: ");
        crate::fmt::push_dec(&mut d, code as u64);
        d
    } else if is_request {
        String::from_str("Request error (before response): ").concat(text)
    } else {
        String::from_str("Unexpected reqwest error: ").concat(text)
    };
    LlmError::Network(detail)
}

} // verus!
