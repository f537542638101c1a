//! The settings of the guardrails.
use vstd::prelude::*;

verus! {

/// The settings of the guardrails.
#[derive(Clone, Copy, Debug)]
pub struct Guardrails {
    /// The retry budget of a request; the deterministic repairs are made even
    /// where it is 0.
    pub max_retries: u32,
    /// Whether conversations are reconstructed from Chat Completions traffic,
    /// by matching message prefixes.
    pub match_conversations: bool,
}

impl Default for Guardrails {
    fn default() -> (guardrails: Self)
        ensures
            guardrails.max_retries == 2,
            !guardrails.match_conversations,
    {
        Guardrails { max_retries: 2, match_conversations: false }
    }
}

} // verus!
