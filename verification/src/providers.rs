//! The closed registry of completion backends: which backend a name
//! selects, and each backend's default models and endpoint.  The HTTP
//! clients themselves live outside the verified library.

use vstd::prelude::*;

use crate::memory::{strings_view, substr_eq};
use crate::text::{lower_of, lowercase};

verus! {

/// The backends a post or chat turn can be routed to.
pub enum ProviderKind {
    DeepSeek,
    Mistral,
    OpenRouter,
    OpenAI,
    Gemini,
}

/// Which backend a lowercased name selects; anything unknown falls back
/// to the default backend.
pub open spec fn spec_provider_kind(lower_name: Seq<char>) -> ProviderKind {
    if lower_name == "mistral"@ {
        ProviderKind::Mistral
    } else if lower_name == "openrouter"@ {
        ProviderKind::OpenRouter
    } else if lower_name == "openai"@ {
        ProviderKind::OpenAI
    } else if lower_name == "gemini"@ {
        ProviderKind::Gemini
    } else {
        ProviderKind::DeepSeek
    }
}

impl ProviderKind {
    /// Selects a backend by name, case ignored, as `spec_provider_kind`
    /// describes.
    pub fn from_name(name: &str) -> (r: ProviderKind)
        ensures
            r == spec_provider_kind(lower_of(name@)),
    {
        let l = lowercase(name);
        if substr_eq(l.as_str(), "mistral") {
            ProviderKind::Mistral
        } else if substr_eq(l.as_str(), "openrouter") {
            ProviderKind::OpenRouter
        } else if substr_eq(l.as_str(), "openai") {
            ProviderKind::OpenAI
        } else if substr_eq(l.as_str(), "gemini") {
            ProviderKind::Gemini
        } else {
            ProviderKind::DeepSeek
        }
    }
}

/// Static configuration of one backend: its model ladder, endpoint, and
/// sampling temperature in thousandths.
pub struct ProviderConfig {
    pub models: Vec<String>,
    pub api_url: String,
    pub temperature_milli: i64,
}

/// Sampling temperature used when none is configured, in thousandths.
pub const DEFAULT_TEMPERATURE_MILLI: i64 = 700;

/// The default model ladder of each backend.
pub open spec fn spec_default_models(kind: ProviderKind) -> Seq<Seq<char>> {
    match kind {
        ProviderKind::OpenRouter => seq![
            "google/palm-2-chat-bison"@,
            "meta-llama/llama-2-70b-chat"@,
            "mistralai/mistral-7b-instruct"@,
        ],
        ProviderKind::OpenAI => seq!["gpt-4-turbo-preview"@, "gpt-4"@, "gpt-3.5-turbo"@],
        ProviderKind::Mistral => seq!["mistral-large-latest"@, "mistral-small-latest"@],
        ProviderKind::Gemini => seq!["gemini-2.0-flash-exp"@, "gemini-1.5-flash-8b"@],
        ProviderKind::DeepSeek => Seq::empty(),
    }
}

/// The default endpoint of each backend.
pub open spec fn spec_default_api_url(kind: ProviderKind) -> Seq<char> {
    match kind {
        ProviderKind::OpenRouter => "https://openrouter.ai/api/v1/chat/completions"@,
        ProviderKind::OpenAI => "https://api.openai.com/v1/chat/completions"@,
        ProviderKind::Mistral => "https://api.mistral.ai/v1/chat/completions"@,
        ProviderKind::Gemini
            => "https://generativelanguage.googleapis.com/v1beta/models/gemini-pro:generateContent"@,
        ProviderKind::DeepSeek => ""@,
    }
}

/// The default model ladder, as `spec_default_models` describes.
pub fn default_models(kind: &ProviderKind) -> (r: Vec<String>)
    ensures
        strings_view(r@) == spec_default_models(*kind),
{
    let mut r: Vec<String> = Vec::new();
    match kind {
        ProviderKind::OpenRouter => {
            r.push("google/palm-2-chat-bison".to_owned());
            r.push("meta-llama/llama-2-70b-chat".to_owned());
            r.push("mistralai/mistral-7b-instruct".to_owned());
        },
        ProviderKind::OpenAI => {
            r.push("gpt-4-turbo-preview".to_owned());
            r.push("gpt-4".to_owned());
            r.push("gpt-3.5-turbo".to_owned());
        },
        ProviderKind::Mistral => {
            r.push("mistral-large-latest".to_owned());
            r.push("mistral-small-latest".to_owned());
        },
        ProviderKind::Gemini => {
            r.push("gemini-2.0-flash-exp".to_owned());
            r.push("gemini-1.5-flash-8b".to_owned());
        },
        ProviderKind::DeepSeek => {},
    }
    proof {
        assert(strings_view(r@) =~= spec_default_models(*kind));
    }
    r
}

/// The default endpoint, as `spec_default_api_url` describes.
pub fn default_api_url(kind: &ProviderKind) -> (r: String)
    ensures
        r@ == spec_default_api_url(*kind),
{
    match kind {
        ProviderKind::OpenRouter => "https://openrouter.ai/api/v1/chat/completions".to_owned(),
        ProviderKind::OpenAI => "https://api.openai.com/v1/chat/completions".to_owned(),
        ProviderKind::Mistral => "https://api.mistral.ai/v1/chat/completions".to_owned(),
        ProviderKind::Gemini
            => "https://generativelanguage.googleapis.com/v1beta/models/gemini-pro:generateContent".to_owned(),
        ProviderKind::DeepSeek => {
            let r = String::new();
            proof {
                reveal_strlit("");
                assert(r@ =~= ""@);
            }
            r
        },
    }
}

impl ProviderConfig {
    /// The configuration a backend falls back to without overrides.
    pub fn defaults(kind: &ProviderKind) -> (r: ProviderConfig)
        ensures
            strings_view(r.models@) == spec_default_models(*kind),
            r.api_url@ == spec_default_api_url(*kind),
            r.temperature_milli == DEFAULT_TEMPERATURE_MILLI,
    {
        ProviderConfig {
            models: default_models(kind),
            api_url: default_api_url(kind),
            temperature_milli: DEFAULT_TEMPERATURE_MILLI,
        }
    }
}

} // verus!
