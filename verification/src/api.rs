//! The plain request and response shapes of the HTTP front end, their
//! validation rules, and the token bookkeeping a chat turn reports.  The
//! routing and transport themselves live outside the verified library.

use vstd::prelude::*;

use crate::chunker::{spec_words, split_words};
use crate::text::chars_vec;

verus! {

/// Which completion backend a request asks for.
pub enum LLMProvider {
    DeepSeek,
    OpenAI,
    OpenRouter,
    Mistral,
}

impl Default for LLMProvider {
    /// The backend used when a request names none.
    fn default() -> (r: Self)
        ensures
            r is DeepSeek,
    {
        LLMProvider::DeepSeek
    }
}

/// One chat request.
pub struct ChatRequest {
    pub message: String,
    pub character: Option<String>,
    pub provider: LLMProvider,
}

impl ChatRequest {
    /// The validation rule: the message holds 1 to 1000 characters, and a
    /// named character 1 to 100.
    pub open spec fn spec_valid(&self) -> bool {
        &&& 1 <= self.message@.len() <= 1000
        &&& match self.character {
            Some(ref c) => 1 <= c@.len() <= 100,
            None => true,
        }
    }

    /// Checks the validation rule.
    pub fn validate(&self) -> (r: bool)
        ensures
            r == self.spec_valid(),
    {
        let ml = self.message.as_str().unicode_len();
        if !(1 <= ml && ml <= 1000) {
            return false;
        }
        match &self.character {
            Some(c) => {
                let cl = c.as_str().unicode_len();
                1 <= cl && cl <= 100
            },
            None => true,
        }
    }
}

/// A request to switch the active character.
pub struct CharacterRequest {
    pub character: String,
}

/// A request to run one web command.
pub struct WebRequest {
    pub command: String,
}

/// Token counts reported with a chat response.
pub struct TokenInfo {
    pub input: usize,
    pub response: usize,
    pub total: usize,
}

/// One chat response with its token bookkeeping.
pub struct ChatResponse {
    pub response: String,
    pub tokens: TokenInfo,
}

/// Status reported after a character switch.
pub struct CharacterResponse {
    pub status: String,
}

/// Counts the whitespace-separated words of a text: the approximate token
/// count a chat turn reports.
pub fn count_words(s: &str) -> (r: usize)
    ensures
        r == spec_words(s@).len(),
{
    let cs = chars_vec(s);
    let ws = split_words(&cs);
    proof {
        assert(crate::chunker::views(ws@).len() == ws@.len());
    }
    ws.len()
}

impl TokenInfo {
    /// The bookkeeping of one turn: input and response word counts and
    /// their sum.
    pub fn new(input: usize, response: usize) -> (r: TokenInfo)
        requires
            input + response <= usize::MAX,
        ensures
            r.input == input,
            r.response == response,
            r.total == input + response,
    {
        TokenInfo { input, response, total: input + response }
    }
}

} // verus!
