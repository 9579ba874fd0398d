//! Talking to language models: the values exchanged with them, the choice
//! of provider, the request texts and addresses, and the decisions taken
//! on their answers.  The HTTP exchanges themselves are the caller's.

pub mod adapter;
pub mod kimi_batch;
pub mod openai;
pub mod ollama;

use vstd::prelude::*;
use crate::config::LlmConfig;
use crate::text::{to_lowercase, lowercase_of, ascii_lowercase, str_eq};
use adapter::{LlmError, llm_error_text};
use openai::OpenAiAdapter;
use ollama::OllamaAdapter;
use crate::text::{opt_str, clone_opt};

verus! {

/// The protocol spoken with a provider.
#[derive(Clone, Copy, Debug, PartialEq, Eq, Structural)]
pub enum ProviderKind {
    /// OpenAI-compatible chat completions (`openai` and `custom`).
    OpenAi,
    /// A local Ollama server.
    Ollama,
}

/// Which adapter serves a provider name, compared in lowercase.
pub open spec fn provider_choice(provider: Seq<char>) -> Result<ProviderKind, Seq<char>> {
    let p = lowercase_of(provider);
    if p == "openai"@ || p == "custom"@ {
        Ok(ProviderKind::OpenAi)
    } else if p == "ollama"@ {
        Ok(ProviderKind::Ollama)
    } else {
        Err("Unsupported LLM provider: '"@ + p + "'. Supported values: openai, ollama, custom"@)
    }
}

/// The same configuration, field by field.
pub open spec fn same_config(a: LlmConfig, b: LlmConfig) -> bool {
    &&& a.name@ == b.name@
    &&& a.provider@ == b.provider@
    &&& a.base_url@ == b.base_url@
    &&& a.model@ == b.model@
    &&& opt_str(a.api_key) == opt_str(b.api_key)
    &&& a.max_tokens == b.max_tokens
    &&& a.is_active == b.is_active
    &&& a.use_batch_api == b.use_batch_api
}

/// A copy of a model configuration.
pub fn copy_config(c: &LlmConfig) -> (r: LlmConfig)
    ensures
        same_config(r, *c),
{
    LlmConfig {
        name: c.name.clone(),
        provider: c.provider.clone(),
        base_url: c.base_url.clone(),
        model: c.model.clone(),
        api_key: clone_opt(&c.api_key),
        max_tokens: c.max_tokens,
        is_active: c.is_active,
        use_batch_api: c.use_batch_api,
    }
}

/// A model provider ready to be called, with its configuration.
#[derive(Clone, Debug)]
pub enum Adapter {
    OpenAi(OpenAiAdapter),
    Ollama(OllamaAdapter),
}

impl Adapter {
    /// The configuration the adapter was made with.
    pub open spec fn config(&self) -> LlmConfig {
        match self {
            Adapter::OpenAi(a) => a.config,
            Adapter::Ollama(a) => a.config,
        }
    }

    /// The protocol the adapter speaks.
    pub open spec fn kind(&self) -> ProviderKind {
        match self {
            Adapter::OpenAi(_) => ProviderKind::OpenAi,
            Adapter::Ollama(_) => ProviderKind::Ollama,
        }
    }

    /// The configured model.
    pub fn model_name(&self) -> (m: &str)
        ensures
            m@ == self.config().model@,
    {
        match self {
            Adapter::OpenAi(a) => a.model_name(),
            Adapter::Ollama(a) => a.model_name(),
        }
    }

    /// The provider name reported in usage logs: the configured provider for
    /// OpenAI-compatible adapters, `ollama` for Ollama.
    pub fn provider_name(&self) -> (p: &str)
        ensures
            p@ == match self {
                Adapter::OpenAi(a) => a.config.provider@,
                Adapter::Ollama(_) => "ollama"@,
            },
    {
        match self {
            Adapter::OpenAi(a) => a.provider_name(),
            Adapter::Ollama(a) => a.provider_name(),
        }
    }
}

/// Makes the adapter for a configuration's provider: `openai` and
/// `custom` speak the OpenAI protocol, `ollama` Ollama's; any other name is
/// a configuration error naming the provider in lowercase.  An ASCII name
/// is lowercased letter by letter.
pub fn create_adapter(config: &LlmConfig) -> (res: Result<Adapter, LlmError>)
    ensures
        (forall|i: int| 0 <= i < config.provider@.len() ==> (#[trigger] config.provider@[i] as int) < 128)
            ==> lowercase_of(config.provider@) == ascii_lowercase(config.provider@),
        match (res, provider_choice(config.provider@)) {
            (Ok(a), Ok(k)) => a.kind() == k && same_config(a.config(), *config),
            (Err(e), Err(m)) => e matches LlmError::Config(t) && t@ == m,
            _ => false,
        },
{
    let p = to_lowercase(config.provider.as_str());
    if str_eq(p.as_str(), "openai") || str_eq(p.as_str(), "custom") {
        Ok(Adapter::OpenAi(OpenAiAdapter::new(copy_config(config))))
    } else if str_eq(p.as_str(), "ollama") {
        Ok(Adapter::Ollama(OllamaAdapter::new(copy_config(config))))
    } else {
        let m = String::from_str("Unsupported LLM provider: '").concat(p.as_str()).concat(
            "'. Supported values: openai, ollama, custom",
        );
        Err(LlmError::Config(m))
    }
}

} // verus!
