//! The Ollama protocol: addresses, the cleaning of its answers, its error
//! texts and the texts of connection tests.

use vstd::prelude::*;
use crate::config::LlmConfig;
use crate::llm::adapter::{ConnectionStatus, LlmError};
use crate::strip::{trim, trim_seq, strip_prefix, strip_suffix, trim_end_char, trim_end_char_seq};
use crate::text::{has_prefix, has_suffix, opt_str};
use crate::fmt::{int_dec, push_dec};

verus! {

/// The model configuration an Ollama server is reached with.
#[derive(Clone, Debug)]
pub struct OllamaAdapter {
    pub config: LlmConfig,
}

/// The JSON text of an answer: trimmed; when it starts with `` ```json ``
/// (or else with `` ``` ``) and ends with `` ``` ``, the part between,
/// trimmed; otherwise the trimmed answer.
pub open spec fn ollama_json_spec(text: Seq<char>) -> Seq<char> {
    let t = trim_seq(text);
    let inner = if has_prefix(t, "```json"@) {
        Some(t.skip(7))
    } else if has_prefix(t, "```"@) {
        Some(t.skip(3))
    } else {
        None
    };
    match inner {
        Some(i) => if has_suffix(i, "```"@) { trim_seq(i.take(i.len() - 3)) } else { t },
        None => t,
    }
}

impl OllamaAdapter {
    /// The configured model.
    pub fn model_name(&self) -> (m: &str)
        ensures
            m@ == self.config.model@,
    {
        self.config.model.as_str()
    }

    pub fn new(config: LlmConfig) -> (a: Self)
        ensures
            a.config == config,
    {
        OllamaAdapter { config }
    }

    /// The configured base URL without trailing slashes.
    pub open spec fn base(&self) -> Seq<char> {
        trim_end_char_seq(self.config.base_url@, '/')
    }

    /// `{base}{path}`.
    pub fn api_url(&self, path: &str) -> (u: String)
        ensures
            u@ == self.base() + path@,
    {
        trim_end_char(self.config.base_url.as_str(), '/').concat(path)
    }

    /// The JSON text of an analysis answer (see `ollama_json_spec`).
    pub fn analysis_json(text: &str) -> (s: String)
        ensures
            s@ == ollama_json_spec(text@),
    {
        proof {
            reveal_strlit("```json");
            reveal_strlit("```");
        }
        let t = trim(text);
        let inner = match strip_prefix(t.as_str(), "```json") {
            Some(x) => Some(x),
            None => strip_prefix(t.as_str(), "```"),
        };
        match inner {
            Some(i) => match strip_suffix(i.as_str(), "```") {
                Some(j) => trim(j.as_str()),
                None => t,
            },
            None => t,
        }
    }

    /// The error of a failed chat: the body's error text, or
    /// `"Unknown Ollama error"`.
    pub fn chat_error(status: u16, body_error: Option<String>) -> (e: LlmError)
        ensures
            e matches LlmError::ApiError { status: s, message } && s == status
                && message@ == match opt_str(body_error) { Some(m) => m, None => "Unknown Ollama error"@ },
    {
        let message = match body_error {
            Some(m) => m,
            None => String::from_str("Unknown Ollama error"),
        };
        LlmError::ApiError { status, message }
    }

    /// The outcome of a connection test whose model list was read.
    pub fn connection_listed(&self, found: bool) -> (c: ConnectionStatus)
        ensures
            c.success,
            c.model matches Some(m) && m@ == self.config.model@,
            c.message@ == if found {
                "Connected. Model '"@ + self.config.model@ + "' is available."@
            } else {
                "Connected, but model '"@ + self.config.model@ + "' not found locally. Pull it with: ollama pull "@
                    + self.config.model@
            },
    {
        let message = if found {
            String::from_str("Connected. Model '").concat(self.config.model.as_str()).concat("' is available.")
        } else {
            String::from_str("Connected, but model '").concat(self.config.model.as_str()).concat(
                "' not found locally. Pull it with: ollama pull ",
            ).concat(self.config.model.as_str())
        };
        ConnectionStatus { success: true, message, model: Some(self.config.model.clone()) }
    }

    /// The outcome of a connection test answered with an error status.
    pub fn connection_refused(status: u16, body_error: Option<String>) -> (c: ConnectionStatus)
        ensures
            !c.success,
            c.model is None,
            c.message@ == "Ollama error ("@ + int_dec(status as int) + "): "@
                + match opt_str(body_error) { Some(m) => m, None => "Unknown"@ },
    {
        let msg = match body_error {
            Some(m) => m,
            None => String::from_str("Unknown"),
        };
        let mut message = String::from_str("Ollama error (");
        push_dec(&mut message, status as u64);
        message.append("): ");
        message.append(msg.as_str());
        ConnectionStatus { success: false, message, model: None }
    }

    /// The outcome of a connection test that could not reach the server: a
    /// timeout, a refused connection, or another network error.
    pub fn connection_unreachable(&self, is_timeout: bool, is_connect: bool, error_text: &str) -> (c: ConnectionStatus)
        ensures
            !c.success,
            c.model is None,
            c.message@ == if is_timeout {
                "Connection timed out. Is Ollama running?"@
            } else if is_connect {
                "Cannot connect to "@ + self.config.base_url@ + ". Make sure Ollama is started."@
            } else {
                "Network error: "@ + error_text@
            },
    {
        let message = if is_timeout {
            String::from_str("Connection timed out. Is Ollama running?")
        } else if is_connect {
            String::from_str("Cannot connect to ").concat(self.config.base_url.as_str()).concat(
                ". Make sure Ollama is started.",
            )
        } else {
            String::from_str("Network error: ").concat(error_text)
        };
        ConnectionStatus { success: false, message, model: None }
    }

    /// The error of a failed model listing.
    pub fn list_models_error(status: u16) -> (e: LlmError)
        ensures
            e matches LlmError::ApiError { status: s, message } && s == status
                && message@ == "Failed to list Ollama models"@,
    {
        LlmError::ApiError { status, message: String::from_str("Failed to list Ollama models") }
    }

    /// The provider name reported for this adapter.
    pub fn provider_name(&self) -> (n: &str)
        ensures
            n@ == "ollama"@,
    {
        "ollama"
    }
}

} // verus!
