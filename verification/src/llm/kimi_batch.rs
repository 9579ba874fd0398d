//! The batch API (Kimi and OpenAI-compatible): the values of a batch job,
//! the addresses of its endpoints, the request built for one screenshot
//! and the reading of one result.  Sending and fetching are the caller's.

use vstd::prelude::*;
use crate::config::LlmConfig;
use crate::llm::adapter::UsageInfo;
use crate::strip::{trim, trim_seq, trim_start_matches, trim_start_matches_seq, trim_end_matches, trim_end_matches_seq, trim_end_char, trim_end_char_seq};
use crate::text::{starts_with, has_prefix, chars_of, string_from_range};
use crate::strip::{is_ws, is_whitespace};

verus! {

/// Body of `POST /v1/batch/create`.
#[derive(Clone, Debug)]
pub struct BatchCreateRequest {
    pub model: String,
    pub input: Vec<BatchInputItem>,
    pub completion_window: Option<String>,
}

/// One request of a batch.
#[derive(Clone, Debug)]
pub struct BatchInputItem {
    /// The caller's id, echoed in the result.
    pub custom_id: String,
    pub method: String,
    pub url: String,
    pub body: BatchRequestBody,
}

/// A chat completion request within a batch.
#[derive(Clone, Debug)]
pub struct BatchRequestBody {
    pub model: String,
    pub messages: Vec<BatchMessage>,
    pub max_tokens: u32,
}

/// One message of a batch request.
#[derive(Clone, Debug)]
pub struct BatchMessage {
    pub role: String,
    pub content: Vec<BatchContentPart>,
}

/// A part of a message: text or an image; `kind` is the JSON `type`.
#[derive(Clone, Debug)]
pub enum BatchContentPart {
    Text { kind: String, text: String },
    ImageUrl { kind: String, image_url: BatchImageUrl },
}

/// An image given by URL (here a `data:` URL).
#[derive(Clone, Debug)]
pub struct BatchImageUrl {
    pub url: String,
}

/// Answer to a batch creation.
#[derive(Clone, Debug)]
pub struct BatchCreateResponse {
    pub id: String,
    pub status: String,
    pub request_counts: Option<BatchRequestCounts>,
    pub errors: Option<Vec<BatchError>>,
    pub output_file: Option<String>,
}

/// Answer to a batch status request.
#[derive(Clone, Debug)]
pub struct BatchRetrieveResponse {
    pub id: String,
    pub status: String,
    pub output_file: Option<String>,
    pub errors: Option<Vec<BatchError>>,
    pub request_counts: Option<BatchRequestCounts>,
}

/// Progress counts of a batch.
#[derive(Clone, Copy, Debug)]
pub struct BatchRequestCounts {
    pub total: u32,
    pub completed: u32,
    pub failed: u32,
}

/// An error reported by the batch API.
#[derive(Clone, Debug)]
pub struct BatchError {
    pub code: String,
    pub message: String,
}

/// One line of a batch's output.
#[derive(Clone, Debug)]
pub struct BatchCompletionResult {
    pub id: String,
    pub custom_id: String,
    pub response: BatchCompletionResponse,
    pub error: Option<BatchError>,
}

/// The response to one request of a batch.
#[derive(Clone, Debug)]
pub struct BatchCompletionResponse {
    pub status_code: u16,
    pub request_id: String,
    pub body: BatchCompletionBody,
}

/// A chat completion within a batch's output.
#[derive(Clone, Debug)]
pub struct BatchCompletionBody {
    pub id: String,
    pub object: String,
    pub created: u64,
    pub model: String,
    pub choices: Vec<BatchChoice>,
    pub usage: Option<BatchUsage>,
}

/// One choice of a completion.
#[derive(Clone, Debug)]
pub struct BatchChoice {
    pub index: u32,
    pub message: BatchResponseMessage,
    pub finish_reason: String,
}

/// The message of a choice.
#[derive(Clone, Debug)]
pub struct BatchResponseMessage {
    pub role: String,
    pub content: String,
}

/// Token usage of one completion of a batch.
#[derive(Clone, Copy, Debug)]
pub struct BatchUsage {
    pub prompt_tokens: u32,
    pub completion_tokens: u32,
    pub total_tokens: u32,
}

/// Submits, polls and reads batch jobs for one model configuration.
#[derive(Clone, Debug)]
pub struct KimiBatchAdapter {
    pub config: LlmConfig,
}

/// The text of a choice with markdown code fences removed: trimmed, then
/// leading `` ```json `` and `` ``` `` runs and trailing `` ``` `` runs
/// removed, then trimmed again.
pub open spec fn cleaned_json(content: Seq<char>) -> Seq<char> {
    trim_seq(trim_end_matches_seq(trim_start_matches_seq(trim_start_matches_seq(trim_seq(content), "```json"@), "```"@), "```"@))
}

/// `item` is the batch request that asks for the analysis of one
/// screenshot: a `POST` to `/v1/chat/completions` with id `custom_id`, for
/// `model` with `max_tokens`, holding one user message made of the prompt
/// text and the image as a JPEG `data:` URL.
pub open spec fn is_analysis_item(
    item: BatchInputItem,
    custom_id: Seq<char>,
    model: Seq<char>,
    base64_image: Seq<char>,
    prompt: Seq<char>,
    max_tokens: u32,
) -> bool {
    &&& item.custom_id@ == custom_id
    &&& item.method@ == "POST"@
    &&& item.url@ == "/v1/chat/completions"@
    &&& item.body.model@ == model
    &&& item.body.max_tokens == max_tokens
    &&& item.body.messages@.len() == 1
    &&& item.body.messages@[0].role@ == "user"@
    &&& item.body.messages@[0].content@.len() == 2
    &&& item.body.messages@[0].content@[0] matches BatchContentPart::Text { kind, text }
        && kind@ == "text"@ && text@ == prompt
    &&& item.body.messages@[0].content@[1] matches BatchContentPart::ImageUrl { kind, image_url }
        && kind@ == "image_url"@ && image_url.url@ == "data:image/jpeg;base64,"@ + base64_image
}

impl KimiBatchAdapter {
    pub fn new(config: LlmConfig) -> (a: Self)
        ensures
            a.config == config,
    {
        KimiBatchAdapter { config }
    }

    /// The configured base URL without trailing slashes.
    pub open spec fn base(&self) -> Seq<char> {
        trim_end_char_seq(self.config.base_url@, '/')
    }

    /// The `Authorization` header value, `Bearer {key}`, when a key is set.
    pub fn bearer(&self) -> (h: Option<String>)
        ensures
            match (h, self.config.api_key) {
                (Some(v), Some(k)) => v@ == "Bearer "@ + k@,
                (None, None) => true,
                _ => false,
            },
    {
        match &self.config.api_key {
            Some(k) => Some(String::from_str("Bearer ").concat(k.as_str())),
            None => None,
        }
    }

    /// `{base}/v1/batch/create`.
    pub fn create_url(&self) -> (u: String)
        ensures
            u@ == self.base() + "/v1/batch/create"@,
    {
        trim_end_char(self.config.base_url.as_str(), '/').concat("/v1/batch/create")
    }

    /// `{base}/v1/batch/{batch_id}`.
    pub fn retrieve_url(&self, batch_id: &str) -> (u: String)
        ensures
            u@ == self.base() + "/v1/batch/"@ + batch_id@,
    {
        trim_end_char(self.config.base_url.as_str(), '/').concat("/v1/batch/").concat(batch_id)
    }

    /// Where a batch's output is read: the output file itself when it is an
    /// `http://` or `https://` URL, else `{base}/{output_file}`.
    pub fn results_url(&self, output_file: &str) -> (u: String)
        ensures
            u@ == if has_prefix(output_file@, "http://"@) || has_prefix(output_file@, "https://"@) {
                output_file@
            } else {
                self.base() + "/"@ + output_file@
            },
    {
        if starts_with(output_file, "http://") || starts_with(output_file, "https://") {
            String::from_str(output_file)
        } else {
            trim_end_char(self.config.base_url.as_str(), '/').concat("/").concat(output_file)
        }
    }

    /// The body of a batch creation: the configured model, the items and a
    /// 24-hour completion window.
    pub fn create_request(&self, items: Vec<BatchInputItem>) -> (r: BatchCreateRequest)
        ensures
            r.model@ == self.config.model@,
            r.input@ == items@,
            r.completion_window matches Some(w) && w@ == "24h"@,
    {
        BatchCreateRequest {
            model: self.config.model.clone(),
            input: items,
            completion_window: Some(String::from_str("24h")),
        }
    }

    /// The JSON text of a choice, with markdown code fences removed (see
    /// `cleaned_json`); the caller parses it as an analysis result.
    pub fn analysis_json(choice: &BatchChoice) -> (s: String)
        ensures
            s@ == cleaned_json(choice.message.content@),
    {
        let t = trim(choice.message.content.as_str());
        let a = trim_start_matches(t.as_str(), "```json");
        let b = trim_start_matches(a.as_str(), "```");
        let c = trim_end_matches(b.as_str(), "```");
        trim(c.as_str())
    }

    /// The token usage of a completion, when it reports one.
    pub fn extract_usage(body: &BatchCompletionBody) -> (u: Option<UsageInfo>)
        ensures
            match (u, body.usage) {
                (Some(a), Some(b)) => a.prompt_tokens == b.prompt_tokens && a.completion_tokens == b.completion_tokens
                    && a.total_tokens == b.total_tokens,
                (None, None) => true,
                _ => false,
            },
    {
        match &body.usage {
            Some(b) => Some(UsageInfo {
                prompt_tokens: b.prompt_tokens,
                completion_tokens: b.completion_tokens,
                total_tokens: b.total_tokens,
            }),
            None => None,
        }
    }

    /// The batch request that asks for the analysis of one screenshot: a
    /// user message with the prompt and the image as a JPEG `data:` URL,
    /// sent to `/v1/chat/completions`.
    pub fn build_analysis_item(
        custom_id: &str,
        model: &str,
        base64_image: &str,
        prompt: &str,
        max_tokens: u32,
    ) -> (item: BatchInputItem)
        ensures
            is_analysis_item(item, custom_id@, model@, base64_image@, prompt@, max_tokens),
    {
        let mut content: Vec<BatchContentPart> = Vec::new();
        content.push(BatchContentPart::Text { kind: String::from_str("text"), text: String::from_str(prompt) });
        content.push(BatchContentPart::ImageUrl {
            kind: String::from_str("image_url"),
            image_url: BatchImageUrl { url: String::from_str("data:image/jpeg;base64,").concat(base64_image) },
        });
        let mut messages: Vec<BatchMessage> = Vec::new();
        messages.push(BatchMessage { role: String::from_str("user"), content });
        BatchInputItem {
            custom_id: String::from_str(custom_id),
            method: String::from_str("POST"),
            url: String::from_str("/v1/chat/completions"),
            body: BatchRequestBody { model: String::from_str(model), messages, max_tokens },
        }
    }
}

// ---------------------------------------------------------------------------
// Reading a batch's output file
// ---------------------------------------------------------------------------

/// A line holding only whitespace (what `str::trim` empties).
pub open spec fn blank(l: Seq<char>) -> bool {
    forall|i: int| 0 <= i < l.len() ==> is_ws(#[trigger] l[i])
}

/// A line without the `'\r'` of a `"\r\n"` ending.
pub open spec fn without_cr(l: Seq<char>) -> Seq<char> {
    if l.len() > 0 && l.last() == '\r' { l.drop_last() } else { l }
}

/// The line being read at the end of `s`: what follows its last `'\n'`.
pub open spec fn open_line(s: Seq<char>) -> Seq<char>
    decreases s.len(),
{
    if s.len() == 0 {
        Seq::empty()
    } else if s.last() == '\n' {
        Seq::empty()
    } else {
        open_line(s.drop_last()).push(s.last())
    }
}

/// The non-blank lines ended by a `'\n'` in `s`, in order, each without its
/// line ending (`"\n"` or `"\r\n"`).
pub open spec fn closed_records(s: Seq<char>) -> Seq<Seq<char>>
    decreases s.len(),
{
    if s.len() == 0 {
        Seq::empty()
    } else {
        let r = closed_records(s.drop_last());
        let l = without_cr(open_line(s.drop_last()));
        if s.last() == '\n' && !blank(l) { r.push(l) } else { r }
    }
}

/// The records of a JSON Lines text as `str::lines` splits it, blank lines
/// left out: the non-blank closed lines, then the final unterminated line
/// when it is not blank.
pub open spec fn jsonl_records(s: Seq<char>) -> Seq<Seq<char>> {
    let last = open_line(s);
    closed_records(s) + if blank(last) { Seq::empty() } else { seq![last] }
}

/// Whether `v[lo..hi]` holds only whitespace.
fn all_whitespace(v: &Vec<char>, lo: usize, hi: usize) -> (res: bool)
    requires
        lo <= hi <= v.len(),
    ensures
        res == blank(v@.subrange(lo as int, hi as int)),
{
    let mut i = lo;
    while i < hi
        invariant
            lo <= i <= hi <= v.len(),
            forall|k: int| lo <= k < i ==> is_ws(#[trigger] v@[k]),
        decreases hi - i,
    {
        if !is_whitespace(v[i]) {
            assert(v@.subrange(lo as int, hi as int)[i - lo] == v@[i as int]);
            return false;
        }
        i = i + 1;
    }
    assert forall|k: int| 0 <= k < hi - lo implies is_ws(#[trigger] v@.subrange(lo as int, hi as int)[k]) by {
        assert(v@.subrange(lo as int, hi as int)[k] == v@[lo + k]);
    }
    true
}

proof fn lemma_open_line_of_line(s: Seq<char>, l: Seq<char>)
    requires
        s.len() == 0 || s.last() == '\n',
        forall|k: int| 0 <= k < l.len() ==> #[trigger] l[k] != '\n',
    ensures
        open_line(s + l) == l,
        closed_records(s + l) == closed_records(s),
    decreases l.len(),
{
    if l.len() == 0 {
        assert(s + l =~= s);
        if s.len() > 0 {
            assert(open_line(s) =~= Seq::<char>::empty());
        }
    } else {
        let d = l.drop_last();
        assert forall|k: int| 0 <= k < d.len() implies #[trigger] d[k] != '\n' by {
            assert(d[k] == l[k]);
        }
        lemma_open_line_of_line(s, d);
        assert((s + l).drop_last() =~= s + d);
        assert((s + l).last() == l.last());
        assert(l.last() != '\n');
        assert(open_line(s + l) =~= open_line(s + d).push(l.last()));
        assert(d.push(l.last()) =~= l);
    }
}

/// Reading a batch's output line by line: after whole lines, one more line
/// ended by `'\n'` adds its record (without a `'\r'` before the `'\n'`)
/// when it is not blank and nothing when it is; the records read so far
/// stay as they were, and a text of whole lines has no unfinished record.
pub proof fn lemma_jsonl_append_line(s: Seq<char>, l: Seq<char>)
    requires
        s.len() == 0 || s.last() == '\n',
        forall|k: int| 0 <= k < l.len() ==> #[trigger] l[k] != '\n',
    ensures
        closed_records(s + l + seq!['\n']) == closed_records(s)
            + (if blank(without_cr(l)) { Seq::<Seq<char>>::empty() } else { seq![without_cr(l)] }),
        jsonl_records(s + l + seq!['\n']) == closed_records(s + l + seq!['\n']),
{
    lemma_open_line_of_line(s, l);
    let t = s + l + seq!['\n'];
    assert(t.drop_last() =~= s + l);
    assert(t.last() == '\n');
    let r = closed_records(s);
    if blank(without_cr(l)) {
        assert(closed_records(t) =~= r + Seq::<Seq<char>>::empty());
    } else {
        assert(closed_records(t) =~= r + seq![without_cr(l)]);
    }
    assert(open_line(t) =~= Seq::<char>::empty());
    assert(blank(open_line(t)));
    assert(jsonl_records(t) =~= closed_records(t));
}

/// Splits a batch's output file (JSON Lines) into its records: the lines
/// as `str::lines` gives them, without blank ones.
pub fn jsonl_lines(text: &str) -> (lines: Vec<String>)
    ensures
        lines@.map_values(|l: String| l@) == jsonl_records(text@),
{
    let cs = chars_of(text);
    let mut out: Vec<String> = Vec::new();
    let mut start: usize = 0;
    let mut i: usize = 0;
    while i < cs.len()
        invariant
            cs@ == text@,
            start <= i <= cs.len(),
            cs@.subrange(start as int, i as int) == open_line(cs@.take(i as int)),
            out@.map_values(|l: String| l@) == closed_records(cs@.take(i as int)),
        decreases cs.len() - i,
    {
        let ghost pre = cs@.take(i as int);
        assert(cs@.take(i + 1).drop_last() =~= pre);
        assert(cs@.take(i + 1).last() == cs@[i as int]);
        if cs[i] == '\n' {
            let end: usize = if i > start && cs[i - 1] == '\r' { i - 1 } else { i };
            proof {
                let l = cs@.subrange(start as int, i as int);
                if i > start && cs@[i - 1] == '\r' {
                    assert(l.last() == cs@[i - 1]);
                    assert(without_cr(l) =~= cs@.subrange(start as int, end as int));
                } else {
                    assert(without_cr(l) =~= cs@.subrange(start as int, end as int));
                }
            }
            let b = all_whitespace(&cs, start, end);
            if !b {
                let l = string_from_range(&cs, start, end);
                let ghost before = out@;
                out.push(l);
                proof {
                    assert(out@.map_values(|l: String| l@) =~= before.map_values(|l: String| l@).push(l@));
                }
            }
            start = i + 1;
            proof {
                assert(cs@.subrange(start as int, (i + 1) as int) =~= Seq::<char>::empty());
            }
        } else {
            proof {
                assert(cs@.subrange(start as int, (i + 1) as int) =~= cs@.subrange(start as int, i as int).push(cs@[i as int]));
            }
        }
        i = i + 1;
    }
    proof {
        assert(cs@.take(cs@.len() as int) =~= cs@);
    }
    let b = all_whitespace(&cs, start, cs.len());
    if !b {
        let l = string_from_range(&cs, start, cs.len());
        let ghost before = out@;
        out.push(l);
        proof {
            assert(out@.map_values(|l: String| l@) =~= before.map_values(|l: String| l@).push(l@));
        }
    }
    proof {
        if b {
            assert(out@.map_values(|l: String| l@) =~= jsonl_records(text@));
        } else {
            assert(out@.map_values(|l: String| l@) =~= jsonl_records(text@));
        }
    }
    out
}

} // verus!
