//! The node's settings: the reply backends it can be configured with, and
//! the checks that its settings must pass before it starts.

use vstd::prelude::*;
use crate::network::{not_multicast_text, is_multicast_ip, SocketAddress};

verus! {

/// The reply-generation backends a node can be started with.
#[derive(PartialEq, Eq, Structural, Clone, Copy, Debug)]
pub enum LLMBackend {
    OpenAI,
    Anthropic,
    Google,
    OpenRouter,
    Local,
}

pub open spec fn backend_name(b: LLMBackend) -> Seq<char> {
    match b {
        LLMBackend::OpenAI => "openai"@,
        LLMBackend::Anthropic => "anthropic"@,
        LLMBackend::Google => "google"@,
        LLMBackend::OpenRouter => "openrouter"@,
        LLMBackend::Local => "local"@,
    }
}

impl LLMBackend {
    /// The backend's name on the command line.
    pub fn as_str(&self) -> (r: &'static str)
        ensures
            r@ == backend_name(*self),
    {
        match self {
            LLMBackend::OpenAI => "openai",
            LLMBackend::Anthropic => "anthropic",
            LLMBackend::Google => "google",
            LLMBackend::OpenRouter => "openrouter",
            LLMBackend::Local => "local",
        }
    }

    /// The backend's name, as a `String`.
    pub fn to_string(&self) -> (r: String)
        ensures
            r@ == backend_name(*self),
    {
        self.as_str().to_owned()
    }
}

/// Unicode's White_Space characters, which `str::trim` removes.
pub open spec fn is_white_space(c: char) -> bool {
    let u = c as u32;
    (0x09 <= u <= 0x0d) || u == 0x20 || u == 0x85 || u == 0xa0 || u == 0x1680 || (0x2000 <= u
        <= 0x200a) || u == 0x2028 || u == 0x2029 || u == 0x202f || u == 0x205f || u == 0x3000
}

/// Whether nothing but white space is left of `s` once trimmed.
pub open spec fn is_blank(s: Seq<char>) -> bool {
    forall|i: int| 0 <= i < s.len() ==> is_white_space(#[trigger] s[i])
}

/// Whether `char::is_alphanumeric` holds of `c`.
pub uninterp spec fn alphanumeric(c: char) -> bool;

/// Relies on std's `char::is_alphanumeric` (Unicode Alphabetic or Numeric).
#[verifier::external_body]
fn is_alphanumeric(c: char) -> (r: bool)
    ensures
        r == alphanumeric(c),
{
    c.is_alphanumeric()
}

/// The characters an agent id may hold.
pub open spec fn id_char(c: char) -> bool {
    alphanumeric(c) || c == '-' || c == '_'
}

fn white_space(c: char) -> (r: bool)
    ensures
        r == is_white_space(c),
{
    let u = c as u32;
    (0x09 <= u && u <= 0x0d) || u == 0x20 || u == 0x85 || u == 0xa0 || u == 0x1680 || (0x2000
        <= u && u <= 0x200a) || u == 0x2028 || u == 0x2029 || u == 0x202f || u == 0x205f || u
        == 0x3000
}

fn blank(s: &str) -> (r: bool)
    ensures
        r == is_blank(s@),
{
    let n = s.unicode_len();
    let mut i: usize = 0;
    while i < n
        invariant
            n == s@.len(),
            i <= n,
            forall|j: int| 0 <= j < i ==> is_white_space(#[trigger] s@[j]),
        decreases n - i,
    {
        if !white_space(s.get_char(i)) {
            return false;
        }
        i = i + 1;
    }
    true
}

fn all_id_chars(s: &str) -> (r: bool)
    ensures
        r == forall|i: int| 0 <= i < s@.len() ==> id_char(#[trigger] s@[i]),
{
    let n = s.unicode_len();
    let mut i: usize = 0;
    while i < n
        invariant
            n == s@.len(),
            i <= n,
            forall|j: int| 0 <= j < i ==> id_char(#[trigger] s@[j]),
        decreases n - i,
    {
        let c = s.get_char(i);
        if !(is_alphanumeric(c) || c == '-' || c == '_') {
            return false;
        }
        i = i + 1;
    }
    true
}

/// The node's settings that are checked before it starts.
pub struct Settings<'a> {
    pub agent_id: &'a str,
    pub multicast_address: SocketAddress,
    pub timeout_seconds: u64,
    pub max_retries: u32,
    pub model: &'a str,
    pub processing_delay_ms: u64,
}

/// The complaint about the first setting, in the order they are checked,
/// that is out of bounds; `None` where all are in bounds.
pub open spec fn settings_complaint(s: Settings) -> Option<Seq<char>> {
    if is_blank(s.agent_id@) {
        Some("Agent ID cannot be empty"@)
    } else if !(forall|i: int| 0 <= i < s.agent_id@.len() ==> id_char(#[trigger] s.agent_id@[i])) {
        Some("Agent ID can only contain alphanumeric characters, hyphens, and underscores"@)
    } else if !is_multicast_ip(s.multicast_address.ip) {
        Some(not_multicast_text(s.multicast_address.ip))
    } else if s.timeout_seconds == 0 || s.timeout_seconds > 300 {
        Some("Timeout must be between 1 and 300 seconds"@)
    } else if s.max_retries > 10 {
        Some("Max retries cannot exceed 10"@)
    } else if is_blank(s.model@) {
        Some("Model name cannot be empty"@)
    } else if s.processing_delay_ms > 60000 {
        Some("Processing delay cannot exceed 60 seconds"@)
    } else {
        None
    }
}

/// Checks the settings, failing with the complaint about the first one out
/// of bounds.
pub fn validate_settings(s: &Settings) -> (r: Result<(), String>)
    ensures
        match settings_complaint(*s) {
            None => r is Ok,
            Some(t) => r matches Err(e) && e@ == t,
        },
{
    if blank(s.agent_id) {
        return Err("Agent ID cannot be empty".to_owned());
    }
    if !all_id_chars(s.agent_id) {
        return Err(
            "Agent ID can only contain alphanumeric characters, hyphens, and underscores".to_owned(),
        );
    }
    if let Err(crate::network::NetworkError::ConfigError(msg)) = crate::network::validate_group(
        &s.multicast_address,
    ) {
        return Err(msg);
    }
    if s.timeout_seconds == 0 || s.timeout_seconds > 300 {
        return Err("Timeout must be between 1 and 300 seconds".to_owned());
    }
    if s.max_retries > 10 {
        return Err("Max retries cannot exceed 10".to_owned());
    }
    if blank(s.model) {
        return Err("Model name cannot be empty".to_owned());
    }
    if s.processing_delay_ms > 60000 {
        return Err("Processing delay cannot exceed 60 seconds".to_owned());
    }
    Ok(())
}

} // verus!
