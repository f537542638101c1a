//! What a request may name only once: what is read of it.
use vstd::prelude::*;

use crate::members::{
    list_pieces, member_in, names_twice, pieces, read_member, repeats,
};
use crate::text::{chars_of, runs, same_text};

verus! {

// ── what a request may name once ────────────────────────────────────────────

/// Whether a member is the definition of a function and names its name more
/// than once.
pub open spec fn repeats_function_name(piece: Seq<char>) -> bool {
    member_in(piece) matches Some(member) && member.0 == "function"@ && repeats(member.1, "name"@)
}

/// Whether a tool names more than once what is read of it.
pub open spec fn tool_repeats(tool: Seq<char>) -> bool {
    ||| repeats(tool, "type"@)
    ||| repeats(tool, "function"@)
    ||| exists|i: int|
        0 <= i < pieces(tool).len() && repeats_function_name(#[trigger] pieces(tool)[i])
}

/// Whether one of a list of tools names more than once what is read of it.
pub open spec fn list_repeats(list: Seq<char>) -> bool {
    exists|i: int| 0 <= i < pieces(list).len() && tool_repeats(#[trigger] pieces(list)[i])
}

/// Whether a member is a list of tools of which one names more than once what is
/// read of it.
pub open spec fn any_tool_repeats(piece: Seq<char>) -> bool {
    member_in(piece) matches Some(member) && member.0 == "tools"@ && list_repeats(member.1)
}

/// Whether a chat request names more than once what is read of it.
pub open spec fn chat_repeats(text: Seq<char>) -> bool {
    ||| repeats(text, "messages"@)
    ||| repeats(text, "tools"@)
    ||| repeats(text, "model"@)
    ||| exists|i: int| 0 <= i < pieces(text).len() && any_tool_repeats(#[trigger] pieces(text)[i])
}

/// Whether a Responses request names more than once what is read of it. Its
/// tools are not read before they are looked at one by one.
pub open spec fn responses_repeat(text: Seq<char>) -> bool {
    repeats(text, "model"@) || repeats(text, "tools"@)
}

// ── reading ─────────────────────────────────────────────────────────────────

fn function_repeats(piece: &[char]) -> (yes: bool)
    ensures
        yes == repeats_function_name(piece@),
{
    match read_member(piece) {
        Some((name, value)) => same_text(name.as_str(), "function") && names_twice(value, "name"),
        None => false,
    }
}

fn tool_names_twice(tool: &[char]) -> (yes: bool)
    ensures
        yes == tool_repeats(tool@),
{
    if names_twice(tool, "type") || names_twice(tool, "function") {
        return true;
    }
    let list = list_pieces(tool);
    let ghost all = runs(list@);
    for i in 0..list.len()
        invariant
            all == runs(list@),
            all == pieces(tool@),
            forall|j: int| 0 <= j < i ==> !repeats_function_name(#[trigger] all[j]),
    {
        assert(all[i as int] == list@[i as int]@);
        if function_repeats(list[i]) {
            return true;
        }
    }
    false
}

fn tools_repeat(piece: &[char]) -> (yes: bool)
    ensures
        yes == any_tool_repeats(piece@),
{
    match read_member(piece) {
        Some((name, value)) => {
            if !same_text(name.as_str(), "tools") {
                return false;
            }
            let list = list_pieces(value);
            let ghost all = runs(list@);
            for i in 0..list.len()
                invariant
                    all == runs(list@),
                    all == pieces(value@),
                    member_in(piece@) == Some(("tools"@, value@)),
                    forall|j: int| 0 <= j < i ==> !tool_repeats(#[trigger] all[j]),
            {
                assert(all[i as int] == list@[i as int]@);
                if tool_names_twice(list[i]) {
                    assert(tool_repeats(pieces(value@)[i as int]));
                    assert(list_repeats(value@));
                    return true;
                }
            }
            false
        },
        None => false,
    }
}

/// Tells whether a chat request names more than once what is read of it.
pub fn chat_names_twice(text: &str) -> (yes: bool)
    ensures
        yes == chat_repeats(text@),
{
    let chars = chars_of(text);
    let s = chars.as_slice();
    if names_twice(s, "messages") || names_twice(s, "tools") || names_twice(s, "model") {
        return true;
    }
    let list = list_pieces(s);
    let ghost all = runs(list@);
    for i in 0..list.len()
        invariant
            all == runs(list@),
            all == pieces(text@),
            forall|j: int| 0 <= j < i ==> !any_tool_repeats(#[trigger] all[j]),
    {
        assert(all[i as int] == list@[i as int]@);
        if tools_repeat(list[i]) {
            return true;
        }
    }
    false
}

/// Tells whether a Responses request names more than once what is read of it.
pub fn responses_name_twice(text: &str) -> (yes: bool)
    ensures
        yes == responses_repeat(text@),
{
    let chars = chars_of(text);
    let s = chars.as_slice();
    names_twice(s, "model") || names_twice(s, "tools")
}

// ── laws ────────────────────────────────────────────────────────────────────

/// What a request may give once is what is read of it: its messages, its tools and
/// its model, and of a tool its type, its function and that function's name.
pub proof fn what_is_read_is_given_once(text: Seq<char>, i: int, tool: Seq<char>, j: int)
    ensures
        !chat_repeats(text) ==> !repeats(text, "messages"@) && !repeats(text, "tools"@) && !repeats(
            text,
            "model"@,
        ),
        !responses_repeat(text) <==> !repeats(text, "model"@) && !repeats(text, "tools"@),
        !chat_repeats(text) && 0 <= i < pieces(text).len() ==> (member_in(
            pieces(text)[i],
        ) matches Some(member) ==> member.0 == "tools"@ ==> (0 <= j < pieces(member.1).len()
            ==> !repeats(pieces(member.1)[j], "type"@) && !repeats(
            pieces(member.1)[j],
            "function"@,
        ))),
        !tool_repeats(tool) && 0 <= j < pieces(tool).len() ==> (member_in(
            pieces(tool)[j],
        ) matches Some(member) ==> member.0 == "function"@ ==> !repeats(member.1, "name"@)),
{
    if !chat_repeats(text) && 0 <= i < pieces(text).len() {
        assert(!any_tool_repeats(pieces(text)[i]));
        if let Some(member) = member_in(pieces(text)[i]) {
            if member.0 == "tools"@ && 0 <= j < pieces(member.1).len() {
                assert(!list_repeats(member.1));
                assert(!tool_repeats(pieces(member.1)[j]));
            }
        }
    }
    if !tool_repeats(tool) && 0 <= j < pieces(tool).len() {
        assert(!repeats_function_name(pieces(tool)[j]));
    }
}

} // verus!
