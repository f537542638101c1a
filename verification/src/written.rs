//! JSON texts whose members stand in an order of their own.
//!
//! `serde_json` writes every value in them; what is put around the values is
//! written here.
use vstd::prelude::*;

use crate::json::{json_text, lists, render, sorted_keys, Json, JsonObject, JsonView};
use crate::text::{before_is_total, join, texts};

verus! {

/// A member with the text of its value.
pub open spec fn member_text(name: Seq<char>, value: Seq<char>) -> Seq<char> {
    json_text(JsonView::Str(name)) + ":"@ + value
}

/// The members of an object in the order of their names.
pub open spec fn member_texts(members: Map<Seq<char>, JsonView>) -> Seq<Seq<char>> {
    sorted_keys(members).map_values(|k: Seq<char>| member_text(k, json_text(members[k])))
}

/// The object with the members of these texts.
pub open spec fn object_text(members: Seq<Seq<char>>) -> Seq<char> {
    "{"@ + join(members, ","@) + "}"@
}

/// The list of the values of these texts.
pub open spec fn list_text(items: Seq<Seq<char>>) -> Seq<char> {
    "["@ + join(items, ","@) + "]"@
}

/// A member with the text of its value, as it stands on a line of its own.
pub open spec fn line_text(name: Seq<char>, value: Seq<char>) -> Seq<char> {
    json_text(JsonView::Str(name)) + ": "@ + value
}

/// An object or a list whose members or items stand on lines of their own, two
/// spaces further in than its last line.
pub open spec fn block_text(
    open: Seq<char>,
    lines: Seq<Seq<char>>,
    close: Seq<char>,
    indent: Seq<char>,
) -> Seq<char> {
    if lines.len() == 0 {
        open + close
    } else {
        open + "\n"@ + indent + "  "@ + join(lines, ",\n"@ + indent + "  "@) + "\n"@ + indent
            + close
    }
}

/// Puts texts together, with another between them.
pub fn joined(list: &Vec<String>, between: &str) -> (text: String)
    ensures
        text@ == join(texts(list@), between@),
{
    let ghost all = texts(list@);
    let mut text = String::new();
    for i in 0..list.len()
        invariant
            all == texts(list@),
            text@ == join(all.take(i as int), between@),
    {
        proof {
            assert(all.take(i + 1).drop_last() =~= all.take(i as int));
            assert(all.take(i + 1).last() == list@[i as int]@);
        }
        if i > 0 {
            text.append(between);
        }
        text.append(list[i].as_str());
        assert(text@ =~= join(all.take(i + 1), between@));
    }
    assert(all.take(all.len() as int) =~= all);
    text
}

/// Writes a text as a JSON string.
pub fn write_text(text: &str) -> (written: String)
    ensures
        written@ == json_text(JsonView::Str(text@)),
{
    render(&Json::text(text))
}

/// Adds a member with the text of its value.
pub fn push_member(members: &mut Vec<String>, name: &str, value: &str)
    ensures
        texts(final(members)@) == texts(old(members)@).push(member_text(name@, value@)),
{
    let ghost before = texts(members@);
    let member = write_text(name).concat(":").concat(value);
    members.push(member);
    assert(texts(members@) =~= before.push(member@));
}

/// Adds a member with the text of its value, on a line of its own.
pub fn push_line(lines: &mut Vec<String>, name: &str, value: &str)
    ensures
        texts(final(lines)@) == texts(old(lines)@).push(line_text(name@, value@)),
{
    let ghost before = texts(lines@);
    let line = write_text(name).concat(": ").concat(value);
    lines.push(line);
    assert(texts(lines@) =~= before.push(line@));
}

/// Adds the members of an object in the order of their names.
pub fn push_members(members: &mut Vec<String>, rest: &JsonObject)
    ensures
        texts(final(members)@) == texts(old(members)@) + member_texts(rest@),
{
    let ghost before = texts(members@);
    let ghost all = member_texts(rest@);
    assert(before + all.take(0) =~= before);
    let n: usize = rest.len();
    for i in 0..n
        invariant
            n == sorted_keys(rest@).len(),
            all == member_texts(rest@),
            texts(members@) == before + all.take(i as int),
    {
        let (name, value) = rest.entry(i);
        let text = render(value);
        push_member(members, name, text.as_str());
        assert(texts(members@) =~= before + all.take(i + 1));
    }
    assert(all.take(n as int) =~= all);
}

/// Writes the object with the members of these texts.
pub fn write_object(members: &Vec<String>) -> (text: String)
    ensures
        text@ == object_text(texts(members@)),
{
    "{".to_owned().concat(joined(members, ",").as_str()).concat("}")
}

/// Writes an object or a list whose members or items stand on lines of their own.
pub fn write_block(open: &str, lines: &Vec<String>, close: &str, indent: &str) -> (text: String)
    ensures
        text@ == block_text(open@, texts(lines@), close@, indent@),
{
    if lines.len() == 0 {
        return open.to_owned().concat(close);
    }
    let between = ",\n".to_owned().concat(indent).concat("  ");
    open.to_owned().concat("\n").concat(indent).concat("  ").concat(
        joined(lines, between.as_str()).as_str(),
    ).concat("\n").concat(indent).concat(close)
}

/// Writes the list of the values of these texts.
pub fn write_list(items: &Vec<String>) -> (text: String)
    ensures
        text@ == list_text(texts(items@)),
{
    "[".to_owned().concat(joined(items, ",").as_str()).concat("]")
}

// ── laws ────────────────────────────────────────────────────────────────────

/// Names that stand before those of an object that has none of them: each occurs
/// once, and none is left out.
pub proof fn each_name_once(first: Seq<Seq<char>>, rest: Map<Seq<char>, JsonView>)
    requires
        first.no_duplicates(),
        forall|i: int| 0 <= i < first.len() ==> !rest.contains_key(#[trigger] first[i]),
        lists(sorted_keys(rest), rest),
    ensures
        (first + sorted_keys(rest)).no_duplicates(),
        forall|name: Seq<char>| #[trigger]
            (first + sorted_keys(rest)).contains(name) <==> first.contains(name)
                || rest.contains_key(name),
{
    let keys = sorted_keys(rest);
    let all = first + keys;
    assert forall|i: int, j: int| 0 <= i < j < all.len() implies all[i] != all[j] by {
        before_is_total(all[j], all[j]);
        if j >= first.len() {
            assert(keys.contains(all[j]));
            assert(all[j] == keys[j - first.len()]);
            if i >= first.len() {
                assert(all[i] == keys[i - first.len()]);
            }
        }
    }
    assert forall|name: Seq<char>| #[trigger] all.contains(name) <==> first.contains(name)
        || rest.contains_key(name) by {
        if first.contains(name) {
            let i = choose|i: int| 0 <= i < first.len() && first[i] == name;
            assert(all[i] == name);
        }
        if rest.contains_key(name) {
            assert(keys.contains(name));
            let i = choose|i: int| 0 <= i < keys.len() && keys[i] == name;
            assert(all[first.len() + i] == name);
        }
        if all.contains(name) {
            let i = choose|i: int| 0 <= i < all.len() && all[i] == name;
            if i >= first.len() {
                assert(keys[i - first.len()] == name);
                assert(keys.contains(name));
            }
        }
    }
}

/// An object is written as its members between braces, with commas between them,
/// and a list as its items between brackets.
pub proof fn members_stand_between_braces(members: Seq<Seq<char>>, last: Seq<char>)
    ensures
        object_text(Seq::empty()) == "{"@ + "}"@,
        list_text(Seq::empty()) == "["@ + "]"@,
        object_text(seq![last]) == "{"@ + last + "}"@,
        list_text(seq![last]) == "["@ + last + "]"@,
        members.len() > 0 ==> object_text(members.push(last)) == "{"@ + (join(members, ","@) + ","@
            + last) + "}"@,
        members.len() > 0 ==> list_text(members.push(last)) == "["@ + (join(members, ","@) + ","@
            + last) + "]"@,
{
    let none = Seq::<char>::empty();
    assert("{"@ + none + "}"@ =~= "{"@ + "}"@);
    assert("["@ + none + "]"@ =~= "["@ + "]"@);
    assert(members.push(last).drop_last() =~= members);
    assert(members.push(last).last() == last);
    assert(join(seq![last], ","@) == last);
}

/// A member is its name as a JSON string, a colon and its value.
pub proof fn a_member_is_a_name_and_a_value(name: Seq<char>, value: Seq<char>)
    ensures
        member_text(name, value) == json_text(JsonView::Str(name)) + ":"@ + value,
        line_text(name, value) == json_text(JsonView::Str(name)) + ": "@ + value,
{
}

} // verus!
