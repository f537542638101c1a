//! The text of a stored configuration: what it may name only once.
//!
//! A configuration, and each provider of it, is an object or the list of its
//! fields in their order.
use vstd::prelude::*;

use crate::json::{json_of, parse, Json};
use crate::members::{
    list_pieces, member_in, named_once, names_once, names_twice, opens_with, pieces,
    read_member, repeats, same_member, starts_container,
};
use crate::text::{chars_of, runs, same_text, text_of};

verus! {

// ── what may be named once ──────────────────────────────────────────────────

/// The text of a field, where the piece at `j` is that field: its place in a
/// list, its name in an object.
pub open spec fn field_at(text: Seq<char>, j: int, place: int, name: Seq<char>) -> Option<
    Seq<char>,
> {
    if opens_with(text, '[') {
        if j == place {
            Some(pieces(text)[j])
        } else {
            None
        }
    } else if opens_with(text, '{') {
        match member_in(pieces(text)[j]) {
            Some(member) => if member.0 == name {
                Some(member.1)
            } else {
                None
            },
            None => None,
        }
    } else {
        None
    }
}

/// Whether a member is no decision.
pub open spec fn is_undecided(piece: Seq<char>) -> bool {
    member_in(piece) matches Some(member) && !(json_of(member.1) matches Some(v) && v is Bool)
}

/// Whether the decision at `i` is none, and a later one takes its place.
pub open spec fn is_overruled(list: Seq<Seq<char>>, i: int) -> bool {
    is_undecided(list[i]) && given_again(list, i)
}

/// Whether a member stands again behind the place `i`.
pub open spec fn given_again(list: Seq<Seq<char>>, i: int) -> bool {
    exists|j: int| i < j < list.len() && same_member(list[i], #[trigger] list[j])
}

/// Whether one of the decisions on models is none, though a later one takes its
/// place.
pub open spec fn is_spoilt(models: Seq<char>) -> bool {
    opens_with(models, '{') && exists|i: int|
        0 <= i < pieces(models).len() && #[trigger] is_overruled(pieces(models), i)
}

/// Whether the piece of a provider at `j` is its decisions, and they are spoilt.
pub open spec fn spoils(provider: Seq<char>, j: int) -> bool {
    field_at(provider, j, 4, "models"@) matches Some(models) && is_spoilt(models)
}

/// Whether an object names a field of a provider more than once.
pub open spec fn repeats_field(provider: Seq<char>) -> bool {
    ||| repeats(provider, "name"@)
    ||| repeats(provider, "base_url"@)
    ||| repeats(provider, "enabled"@)
    ||| repeats(provider, "unversioned"@)
    ||| repeats(provider, "models"@)
    ||| repeats(provider, "expose_by_default"@)
}

/// Whether a provider gives more than once what is read of it. On a model more
/// than one decision may be given, and the last stands.
pub open spec fn provider_repeats(provider: Seq<char>) -> bool {
    ||| opens_with(provider, '{') && repeats_field(provider)
    ||| exists|j: int| 0 <= j < pieces(provider).len() && #[trigger] spoils(provider, j)
}

/// Whether one of a list of providers gives more than once what is read of it.
pub open spec fn any_provider_repeats(list: Seq<char>) -> bool {
    opens_with(list, '[') && exists|i: int|
        0 <= i < pieces(list).len() && provider_repeats(#[trigger] pieces(list)[i])
}

/// Whether the piece of a configuration at `j` is its providers, and one of them
/// gives more than once what is read of it.
pub open spec fn lists_repeat(text: Seq<char>, j: int) -> bool {
    field_at(text, j, 0, "providers"@) matches Some(list) && any_provider_repeats(list)
}

/// Whether a configuration gives more than once what is read of it.
pub open spec fn config_repeats(text: Seq<char>) -> bool {
    ||| opens_with(text, '{') && repeats(text, "providers"@)
    ||| exists|j: int| 0 <= j < pieces(text).len() && #[trigger] lists_repeat(text, j)
}

// ── reading ─────────────────────────────────────────────────────────────────

/// A part of a text by its view.
pub open spec fn seen_part(part: Option<&[char]>) -> Option<Seq<char>> {
    match part {
        Some(p) => Some(p@),
        None => None,
    }
}

fn read_field<'a>(
    text: &[char],
    list: &Vec<&'a [char]>,
    j: usize,
    place: usize,
    name: &str,
) -> (field: Option<&'a [char]>)
    requires
        runs(list@) == pieces(text@),
        j < list@.len(),
    ensures
        seen_part(field) == field_at(text@, j as int, place as int, name@),
{
    assert(runs(list@)[j as int] == list@[j as int]@);
    if starts_container(text, '[') {
        if j == place {
            Some(list[j])
        } else {
            None
        }
    } else if starts_container(text, '{') {
        match read_member(list[j]) {
            Some((found, value)) => if same_text(found.as_str(), name) {
                Some(value)
            } else {
                None
            },
            None => None,
        }
    } else {
        None
    }
}

fn overruled(list: &Vec<&[char]>, i: usize) -> (yes: bool)
    requires
        i < list@.len(),
    ensures
        yes == is_overruled(runs(list@), i as int),
{
    let ghost all = runs(list@);
    assert(all[i as int] == list@[i as int]@);
    let name = match read_member(list[i]) {
        Some((name, value)) => match parse(text_of(value).as_str()) {
            Some(Json::Bool(_)) => {
                return false;
            },
            _ => name,
        },
        None => {
            return false;
        },
    };
    for j in i + 1..list.len()
        invariant
            i < list@.len(),
            all == runs(list@),
            is_undecided(all[i as int]),
            member_in(all[i as int]) matches Some(member) && member.0 == name@,
            forall|k: int| i < k < j ==> !same_member(all[i as int], #[trigger] all[k]),
    {
        assert(all[j as int] == list@[j as int]@);
        if let Some((found, _)) = read_member(list[j]) {
            if same_text(found.as_str(), name.as_str()) {
                assert(same_member(all[i as int], all[j as int]));
                return true;
            }
        }
    }
    false
}

fn spoilt(models: &[char]) -> (yes: bool)
    ensures
        yes == is_spoilt(models@),
{
    if !starts_container(models, '{') {
        return false;
    }
    let list = list_pieces(models);
    for i in 0..list.len()
        invariant
            runs(list@) == pieces(models@),
            opens_with(models@, '{'),
            forall|k: int| 0 <= k < i ==> !#[trigger] is_overruled(pieces(models@), k),
    {
        if overruled(&list, i) {
            return true;
        }
    }
    false
}

fn provider_names_twice(provider: &[char]) -> (yes: bool)
    ensures
        yes == provider_repeats(provider@),
{
    if starts_container(provider, '{') && (names_twice(provider, "name") || names_twice(
        provider,
        "base_url",
    ) || names_twice(provider, "enabled") || names_twice(provider, "unversioned") || names_twice(
        provider,
        "models",
    ) || names_twice(provider, "expose_by_default")) {
        return true;
    }
    let list = list_pieces(provider);
    for j in 0..list.len()
        invariant
            runs(list@) == pieces(provider@),
            forall|k: int| 0 <= k < j ==> !#[trigger] spoils(provider@, k),
    {
        if let Some(models) = read_field(provider, &list, j, 4, "models") {
            if spoilt(models) {
                assert(spoils(provider@, j as int));
                return true;
            }
        }
        assert(!spoils(provider@, j as int));
    }
    false
}

fn any_names_twice(text: &[char]) -> (yes: bool)
    ensures
        yes == any_provider_repeats(text@),
{
    if !starts_container(text, '[') {
        return false;
    }
    let list = list_pieces(text);
    let ghost all = runs(list@);
    for i in 0..list.len()
        invariant
            all == runs(list@),
            all == pieces(text@),
            opens_with(text@, '['),
            forall|k: int| 0 <= k < i ==> !provider_repeats(#[trigger] all[k]),
    {
        assert(all[i as int] == list@[i as int]@);
        if provider_names_twice(list[i]) {
            return true;
        }
    }
    false
}

/// Tells whether a configuration gives more than once what is read of it.
pub fn config_names_twice(text: &str) -> (yes: bool)
    ensures
        yes == config_repeats(text@),
{
    let chars = chars_of(text);
    let s = chars.as_slice();
    if starts_container(s, '{') && names_twice(s, "providers") {
        return true;
    }
    let list = list_pieces(s);
    for j in 0..list.len()
        invariant
            s@ == text@,
            runs(list@) == pieces(text@),
            forall|k: int| 0 <= k < j ==> !#[trigger] lists_repeat(text@, k),
    {
        if let Some(providers) = read_field(s, &list, j, 0, "providers") {
            if any_names_twice(providers) {
                assert(lists_repeat(text@, j as int));
                return true;
            }
        }
        assert(!lists_repeat(text@, j as int));
    }
    false
}

// ── laws ────────────────────────────────────────────────────────────────────

proof fn field_names_once(text: Seq<char>, j: int, place: int, name: Seq<char>, depth: nat)
    requires
        depth > 0,
        names_once(text, depth),
        0 <= j < pieces(text).len(),
        field_at(text, j, place, name) is Some,
    ensures
        names_once(field_at(text, j, place, name)->0, (depth - 1) as nat),
{
    let piece = pieces(text)[j];
    if opens_with(text, '[') {
        assert(!opens_with(text, '{'));
    } else {
        assert(member_in(piece) is Some);
    }
}

proof fn nothing_overruled(models: Seq<char>, depth: nat)
    requires
        depth > 0,
        names_once(models, depth),
    ensures
        !is_spoilt(models),
{
    if is_spoilt(models) {
        let list = pieces(models);
        let i = choose|i: int| 0 <= i < list.len() && #[trigger] is_overruled(list, i);
        let j = choose|j: int| i < j < list.len() && same_member(list[i], #[trigger] list[j]);
        assert(!same_member(list[i], list[j]));
    }
}

proof fn provider_is_single(provider: Seq<char>, depth: nat)
    requires
        depth > 1,
        names_once(provider, depth),
    ensures
        !provider_repeats(provider),
{
    if opens_with(provider, '{') {
        named_once(provider, depth, "name"@);
        named_once(provider, depth, "base_url"@);
        named_once(provider, depth, "enabled"@);
        named_once(provider, depth, "unversioned"@);
        named_once(provider, depth, "models"@);
        named_once(provider, depth, "expose_by_default"@);
    }
    assert forall|j: int| 0 <= j < pieces(provider).len() implies !#[trigger] spoils(provider, j) by {
        if let Some(models) = field_at(provider, j, 4, "models"@) {
            field_names_once(provider, j, 4, "models"@, depth);
            nothing_overruled(models, (depth - 1) as nat);
        }
    }
}

/// A text in which no object names a member twice gives nothing twice that is
/// read of a configuration.
pub proof fn nothing_given_twice(text: Seq<char>)
    requires
        names_once(text, 4),
    ensures
        !config_repeats(text),
{
    if opens_with(text, '{') {
        named_once(text, 4, "providers"@);
    }
    assert forall|j: int| 0 <= j < pieces(text).len() implies !#[trigger] lists_repeat(text, j) by {
        if let Some(list) = field_at(text, j, 0, "providers"@) {
            field_names_once(text, j, 0, "providers"@, 4);
            if opens_with(list, '[') {
                assert forall|i: int| 0 <= i < pieces(list).len() implies !provider_repeats(
                    #[trigger] pieces(list)[i],
                ) by {
                    provider_is_single(pieces(list)[i], 2);
                }
            }
        }
    }
}

} // verus!
