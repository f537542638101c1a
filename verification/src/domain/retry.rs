//! The retry budget, and what a retry tells the model.
use vstd::prelude::*;

use super::decode::{call_views, calls_json, canonical_tool_calls, CallView, ToolCall};
use crate::json::{json_text, render, views, Json, JsonObject, JsonView};

verus! {

/// Counts corrective retries against a budget.
#[derive(Debug, Clone, Copy)]
pub struct ErrorTracker {
    max: u32,
    attempts: u32,
}

impl ErrorTracker {
    /// The budget.
    pub closed spec fn budget(&self) -> nat {
        self.max as nat
    }

    /// The retries so far.
    pub closed spec fn spent(&self) -> nat {
        self.attempts as nat
    }

    #[verifier::type_invariant]
    closed spec fn within_budget(self) -> bool {
        self.attempts <= self.max
    }

    pub fn new(max: u32) -> (tracker: ErrorTracker)
        ensures
            tracker.budget() == max,
            tracker.spent() == 0,
    {
        ErrorTracker { max, attempts: 0 }
    }

    /// The retries so far, which never exceed the budget.
    pub fn attempts(&self) -> (n: u32)
        ensures
            n == self.spent(),
            n <= self.budget(),
    {
        proof {
            use_type_invariant(self);
        }
        self.attempts
    }

    /// Whether the budget has room for another retry.
    pub fn can_retry(&self) -> (yes: bool)
        ensures
            yes == (self.spent() < self.budget()),
    {
        self.attempts < self.max
    }

    /// Counts a retry.
    pub fn record_retry(&mut self)
        requires
            old(self).spent() < old(self).budget(),
        ensures
            final(self).budget() == old(self).budget(),
            final(self).spent() == old(self).spent() + 1,
    {
        let next = ErrorTracker { max: self.max, attempts: self.attempts + 1 };
        *self = next;
    }
}

/// A turn of a conversation.
pub open spec fn turn(role: Seq<char>, content: Seq<char>) -> JsonView {
    JsonView::Object(
        map!["role"@ => JsonView::Str(role), "content"@ => JsonView::Str(content)],
    )
}

/// A turn of a conversation.
pub fn make_turn(role: &str, content: &str) -> (json: Json)
    ensures
        json@ == turn(role@, content@),
{
    Json::Object(
        JsonObject::new().with("role", Json::text(role)).with("content", Json::text(content)),
    )
}

/// The turns that follow an invalid answer: the calls that were made, as the
/// assistant's, and the nudge as the user's. Both APIs take them.
pub open spec fn followup(calls: Seq<CallView>, nudge: Seq<char>) -> Seq<JsonView> {
    seq![turn("assistant"@, json_text(calls_json(calls))), turn("user"@, nudge)]
}

pub fn tool_error_followup(calls: &[ToolCall], nudge: &str) -> (turns: Vec<Json>)
    ensures
        views(turns@) == followup(call_views(calls@), nudge@),
{
    let made = render(&canonical_tool_calls(calls));
    let mut turns: Vec<Json> = Vec::new();
    turns.push(make_turn("assistant", made.as_str()));
    turns.push(make_turn("user", nudge));
    assert(views(turns@) =~= followup(call_views(calls@), nudge@));
    turns
}

// ── laws ────────────────────────────────────────────────────────────────────

/// What follows an invalid answer is the answer itself, as the assistant's turn,
/// and then what is to be mended, as the user's.
pub proof fn a_retry_shows_the_answer_and_the_fault(calls: Seq<CallView>, nudge: Seq<char>)
    ensures
        followup(calls, nudge).len() == 2,
        followup(calls, nudge)[0].get("role"@) == Some(JsonView::Str("assistant"@)),
        followup(calls, nudge)[0].get("content"@) == Some(
            JsonView::Str(json_text(calls_json(calls))),
        ),
        followup(calls, nudge)[1].get("role"@) == Some(JsonView::Str("user"@)),
        followup(calls, nudge)[1].get("content"@) == Some(JsonView::Str(nudge)),
{
    reveal_strlit("role");
    reveal_strlit("content");
    assert("role"@.len() == 4 && "content"@.len() == 7);
}

} // verus!
