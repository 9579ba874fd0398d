//! The OpenAI-compatible chat completions protocol: addresses, the content
//! of an analysis request, the decision taken on each HTTP answer, and the
//! texts of connection tests.

use vstd::prelude::*;
use crate::config::LlmConfig;
use crate::llm::adapter::{AnalysisImage, ConnectionStatus, LlmError, UsageInfo};
use crate::strip::{trim_end_char, trim_end_char_seq};
use crate::fmt::{int_dec, push_dec};
use crate::text::opt_str;

verus! {

/// The model configuration an OpenAI-compatible provider is reached with.
#[derive(Clone, Debug)]
pub struct OpenAiAdapter {
    pub config: LlmConfig,
}

/// A part of a chat message: text, or an image given by URL with a detail
/// level.
#[derive(Clone, Debug)]
pub enum ContentPart {
    Text { text: String },
    Image { url: String, detail: String },
}

/// `p` carries image `img` as a low-detail `data:` URL.
pub open spec fn image_part(p: ContentPart, img: AnalysisImage) -> bool {
    p matches ContentPart::Image { url, detail } && url@ == "data:"@ + img.media_type@ + ";base64,"@ + img.data@
        && detail@ == "low"@
}

/// What to do with an HTTP answer to a chat completion.
#[derive(Clone, Copy, Debug, PartialEq, Eq, Structural)]
pub enum ChatStep {
    /// A 2xx answer: read the completion.
    Done,
    /// Rate limited: wait this many seconds and send again.
    Retry(u64),
    /// Give up with an API error.
    Fail,
}

/// Retries after a 429 answer.
pub const MAX_RETRIES: u32 = 3;

pub open spec fn pow2(k: nat) -> nat
    decreases k,
{
    if k == 0 { 1 } else { 2 * pow2((k - 1) as nat) }
}

/// The decision for an answer with `status` on attempt `attempt` (from 0):
/// success for 2xx; for 429 while fewer than three retries were made, a
/// retry after the `Retry-After` seconds or else `2^(attempt+1)`; failure
/// otherwise.
pub open spec fn chat_step_spec(status: u16, attempt: u32, retry_after: Option<u64>) -> ChatStep {
    if 200 <= status <= 299 {
        ChatStep::Done
    } else if status == 429 && attempt < MAX_RETRIES {
        ChatStep::Retry(match retry_after { Some(s) => s, None => pow2((attempt + 1) as nat) as u64 })
    } else {
        ChatStep::Fail
    }
}

/// Retrying a rate-limited request: any 2xx answer succeeds; a 429 answer
/// is retried at most three times, after the server's `Retry-After` when
/// it gives one and otherwise after 2, 4 and then 8 seconds, each wait
/// twice the one before; any other answer fails.
pub proof fn lemma_chat_step_backoff(status: u16, attempt: u32, retry_after: Option<u64>)
    ensures
        200 <= status <= 299 ==> chat_step_spec(status, attempt, retry_after) == ChatStep::Done,
        (status < 200 || status > 299) && status != 429 ==> chat_step_spec(status, attempt, retry_after) == ChatStep::Fail,
        status == 429 && attempt >= 3 ==> chat_step_spec(status, attempt, retry_after) == ChatStep::Fail,
        status == 429 && attempt < 3 && retry_after is Some ==> chat_step_spec(status, attempt, retry_after) == ChatStep::Retry(retry_after->0),
        chat_step_spec(429, 0, None) == ChatStep::Retry(2),
        chat_step_spec(429, 1, None) == ChatStep::Retry(4),
        chat_step_spec(429, 2, None) == ChatStep::Retry(8),
        attempt < 2 ==> (chat_step_spec(429, attempt, None) matches ChatStep::Retry(a)
            && chat_step_spec(429, (attempt + 1) as u32, None) matches ChatStep::Retry(b) && b == 2 * a),
{
    reveal_with_fuel(pow2, 4);
}

/// What to do with an HTTP answer to a chat completion.
pub fn chat_step(status: u16, attempt: u32, retry_after: Option<u64>) -> (s: ChatStep)
    ensures
        s == chat_step_spec(status, attempt, retry_after),
{
    if 200 <= status && status <= 299 {
        ChatStep::Done
    } else if status == 429 && attempt < MAX_RETRIES {
        let wait = match retry_after {
            Some(s) => s,
            None => {
                let w: u64 = if attempt == 0 { 2 } else if attempt == 1 { 4 } else { 8 };
                proof {
                    reveal_with_fuel(pow2, 4);
                }
                w
            },
        };
        ChatStep::Retry(wait)
    } else {
        ChatStep::Fail
    }
}

/// The message of a failed answer: for a 4xx or 5xx status the body's
/// error message, or `"Unknown API error"` without one; otherwise
/// `"Unknown error"`.
pub open spec fn fail_message_spec(status: u16, body_message: Option<Seq<char>>) -> Seq<char> {
    if 400 <= status <= 599 {
        match body_message {
            Some(m) => m,
            None => "Unknown API error"@,
        }
    } else {
        "Unknown error"@
    }
}

/// The API error for a failed answer (see `fail_message_spec`).
pub fn fail_error(status: u16, body_message: Option<String>) -> (e: LlmError)
    ensures
        e matches LlmError::ApiError { status: s, message } && s == status
            && message@ == fail_message_spec(status, opt_str(body_message)),
{
    let message = if 400 <= status && status <= 599 {
        match body_message {
            Some(m) => m,
            None => String::from_str("Unknown API error"),
        }
    } else {
        String::from_str("Unknown error")
    };
    LlmError::ApiError { status, message }
}

/// The usage of a completion: the reported total, or the sum of the
/// prompt and completion tokens when no total is reported.
pub fn usage_info(prompt_tokens: u32, completion_tokens: u32, total_tokens: Option<u32>) -> (u: UsageInfo)
    requires
        total_tokens is None ==> prompt_tokens + completion_tokens <= u32::MAX,
    ensures
        u.prompt_tokens == prompt_tokens,
        u.completion_tokens == completion_tokens,
        u.total_tokens == match total_tokens { Some(t) => t as int, None => prompt_tokens + completion_tokens },
{
    let total = match total_tokens {
        Some(t) => t,
        None => prompt_tokens + completion_tokens,
    };
    UsageInfo { prompt_tokens, completion_tokens, total_tokens: total }
}

/// The result of a successful answer from the content of its first choice:
/// that text, or an API error when the choice has no content.
pub fn completion_result(status: u16, content: Option<String>, usage: Option<UsageInfo>) -> (r: Result<
    (String, Option<UsageInfo>),
    LlmError,
>)
    ensures
        match content {
            Some(c) => r matches Ok(p) && p.0@ == c@ && p.1 == usage,
            None => r matches Err(LlmError::ApiError { status: s, message }) && s == status
                && message@ == "Empty response content"@,
        },
{
    match content {
        Some(c) => Ok((c, usage)),
        None => Err(LlmError::ApiError { status, message: String::from_str("Empty response content") }),
    }
}

/// Whether `model` is among the listed model ids.
pub fn model_listed(ids: &Vec<String>, model: &str) -> (found: bool)
    ensures
        found == exists|i: int| 0 <= i < ids@.len() && #[trigger] ids@[i]@ == model@,
{
    let mut i: usize = 0;
    while i < ids.len()
        invariant
            i <= ids.len(),
            forall|k: int| 0 <= k < i ==> #[trigger] ids@[k]@ != model@,
        decreases ids.len() - i,
    {
        if crate::text::str_eq(ids[i].as_str(), model) {
            return true;
        }
        i = i + 1;
    }
    false
}

/// The text of a report request: the prompt, then the report context as
/// JSON.
pub fn report_prompt(prompt: &str, context_json: &str) -> (s: String)
    ensures
        s@ == prompt@ + "\n\nContext:\n"@ + context_json@,
{
    String::from_str(prompt).concat("\n\nContext:\n").concat(context_json)
}

impl OpenAiAdapter {
    /// The configured model.
    pub fn model_name(&self) -> (m: &str)
        ensures
            m@ == self.config.model@,
    {
        self.config.model.as_str()
    }

    /// The configured provider.
    pub fn provider_name(&self) -> (p: &str)
        ensures
            p@ == self.config.provider@,
    {
        self.config.provider.as_str()
    }

    pub fn new(config: LlmConfig) -> (a: Self)
        ensures
            a.config == config,
    {
        OpenAiAdapter { config }
    }

    /// The configured base URL without trailing slashes.
    pub open spec fn base(&self) -> Seq<char> {
        trim_end_char_seq(self.config.base_url@, '/')
    }

    /// `{base}/chat/completions`.
    pub fn chat_url(&self) -> (u: String)
        ensures
            u@ == self.base() + "/chat/completions"@,
    {
        trim_end_char(self.config.base_url.as_str(), '/').concat("/chat/completions")
    }

    /// `{base}/models`.
    pub fn models_url(&self) -> (u: String)
        ensures
            u@ == self.base() + "/models"@,
    {
        trim_end_char(self.config.base_url.as_str(), '/').concat("/models")
    }

    /// The `Authorization` header value, `Bearer {key}`, when a key is set.
    pub fn bearer(&self) -> (h: Option<String>)
        ensures
            match (h, self.config.api_key) {
                (Some(v), Some(k)) => v@ == "Bearer "@ + k@,
                (None, None) => true,
                _ => false,
            },
    {
        match &self.config.api_key {
            Some(k) => Some(String::from_str("Bearer ").concat(k.as_str())),
            None => None,
        }
    }

    /// The content of an analysis request: the prompt, then each image as
    /// a low-detail `data:{media_type};base64,{data}` URL.
    pub fn analysis_parts(prompt: &str, images: &Vec<AnalysisImage>) -> (parts: Vec<ContentPart>)
        ensures
            parts@.len() == images@.len() + 1,
            parts@[0] matches ContentPart::Text { text } && text@ == prompt@,
            forall|i: int| 0 <= i < images@.len() ==> image_part(#[trigger] parts@[i + 1], images@[i]),
    {
        let mut parts: Vec<ContentPart> = Vec::new();
        parts.push(ContentPart::Text { text: String::from_str(prompt) });
        let mut i: usize = 0;
        while i < images.len()
            invariant
                i <= images.len(),
                parts@.len() == i + 1,
                parts@[0] matches ContentPart::Text { text } && text@ == prompt@,
                forall|k: int| 0 <= k < i ==> image_part(#[trigger] parts@[k + 1], images@[k]),
            decreases images.len() - i,
        {
            let img = &images[i];
            let url = String::from_str("data:").concat(img.media_type.as_str()).concat(";base64,").concat(img.data.as_str());
            parts.push(ContentPart::Image { url, detail: String::from_str("low") });
            i = i + 1;
        }
        parts
    }

    /// The outcome of a connection test whose model list was read.
    pub fn connection_listed(&self, found: bool) -> (c: ConnectionStatus)
        ensures
            c.success,
            c.model matches Some(m) && m@ == self.config.model@,
            c.message@ == if found {
                "Connected. Model '"@ + self.config.model@ + "' is available."@
            } else {
                "Connected, but model '"@ + self.config.model@ + "' not found in available models list."@
            },
    {
        let message = if found {
            String::from_str("Connected. Model '").concat(self.config.model.as_str()).concat("' is available.")
        } else {
            String::from_str("Connected, but model '").concat(self.config.model.as_str()).concat(
                "' not found in available models list.",
            )
        };
        ConnectionStatus { success: true, message, model: Some(self.config.model.clone()) }
    }

    /// The outcome of a connection test answered with an error status: the
    /// body's error message, or `"Connection failed"`.
    pub fn connection_refused(status: u16, body_message: Option<String>) -> (c: ConnectionStatus)
        ensures
            !c.success,
            c.model is None,
            c.message@ == "API error ("@ + int_dec(status as int) + "): "@
                + match opt_str(body_message) { Some(m) => m, None => "Connection failed"@ },
    {
        let msg = match body_message {
            Some(m) => m,
            None => String::from_str("Connection failed"),
        };
        let mut message = String::from_str("API error (");
        push_dec(&mut message, status as u64);
        message.append("): ");
        message.append(msg.as_str());
        ConnectionStatus { success: false, message, model: None }
    }

    /// The outcome of a connection test that could not reach the server.
    pub fn connection_unreachable(error_text: &str) -> (c: ConnectionStatus)
        ensures
            !c.success,
            c.model is None,
            c.message@ == "Network error: "@ + error_text@,
    {
        ConnectionStatus { success: false, message: String::from_str("Network error: ").concat(error_text), model: None }
    }

    /// The error of a failed model listing.
    pub fn list_models_error(status: u16) -> (e: LlmError)
        ensures
            e matches LlmError::ApiError { status: s, message } && s == status && message@ == "Failed to list models"@,
    {
        LlmError::ApiError { status, message: String::from_str("Failed to list models") }
    }
}

} // verus!
