//! The members and items of a JSON text.
//!
//! In a tree of values the last of two members of one name stands, and the
//! first is gone. Where a name must not be given twice, the text itself is looked
//! at.
use vstd::prelude::*;

use crate::json::{json_of, parse, Json, JsonView};
use crate::text::{
    head_of, runs, same_text, tail_of, text_of, trim, trim_start, trimmed, trimmed_start,
};

verus! {

// ── the text of a container ─────────────────────────────────────────────────

/// Where the piece of a container that `i` stands in ends: at the next comma or
/// closing bracket of the container itself. `depth` is the number of containers
/// that are open inside it, `quoted` whether a string is.
pub open spec fn piece_end(s: Seq<char>, i: int, depth: nat, quoted: bool) -> int
    decreases s.len() + 1 - i,
{
    if !(0 <= i < s.len()) {
        s.len() as int
    } else if quoted {
        if s[i] == '\\' {
            piece_end(s, i + 2, depth, true)
        } else {
            piece_end(s, i + 1, depth, s[i] != '"')
        }
    } else if s[i] == '"' {
        piece_end(s, i + 1, depth, true)
    } else if s[i] == '{' || s[i] == '[' {
        piece_end(s, i + 1, depth + 1, false)
    } else if s[i] == '}' || s[i] == ']' {
        if depth == 0 {
            i
        } else {
            piece_end(s, i + 1, (depth - 1) as nat, false)
        }
    } else if s[i] == ',' && depth == 0 {
        i
    } else {
        piece_end(s, i + 1, depth, false)
    }
}

/// The pieces of a container from `i` on, as commas part them.
pub open spec fn pieces_from(s: Seq<char>, i: int) -> Seq<Seq<char>>
    decreases s.len() - i,
{
    let e = piece_end(s, i, 0, false);
    if !(0 <= i <= e <= s.len()) {
        Seq::empty()
    } else if e < s.len() && s[e] == ',' {
        seq![s.subrange(i, e)] + pieces_from(s, e + 1)
    } else {
        seq![s.subrange(i, e)]
    }
}

/// The pieces of the container that a text is: the members of an object, the
/// items of an array.
pub open spec fn pieces(text: Seq<char>) -> Seq<Seq<char>> {
    pieces_from(trim(text), 1)
}

/// Where a string ends: at the next quote that is not escaped.
pub open spec fn quote_end(s: Seq<char>, i: int) -> int
    decreases s.len() + 1 - i,
{
    if !(0 <= i < s.len()) {
        s.len() as int
    } else if s[i] == '\\' {
        quote_end(s, i + 2)
    } else if s[i] == '"' {
        i
    } else {
        quote_end(s, i + 1)
    }
}

/// The name and the text of the value of a member.
pub open spec fn member_in(piece: Seq<char>) -> Option<(Seq<char>, Seq<char>)> {
    let t = trim(piece);
    let e = quote_end(t, 1);
    if !(t.len() > 0 && t[0] == '"' && e < t.len()) {
        None
    } else {
        let rest = trim_start(t.skip(e + 1));
        match json_of(t.take(e + 1)) {
            Some(JsonView::Str(name)) => if rest.len() > 0 && rest[0] == ':' {
                Some((name, rest.skip(1)))
            } else {
                None
            },
            _ => None,
        }
    }
}

/// Whether a piece is a member of a name.
pub open spec fn is_named(piece: Seq<char>, name: Seq<char>) -> bool {
    member_in(piece) matches Some(member) && member.0 == name
}

/// How many of the first `n` pieces are members of a name.
pub open spec fn count_named(list: Seq<Seq<char>>, name: Seq<char>, n: int) -> nat
    decreases n,
{
    if n <= 0 {
        0
    } else {
        count_named(list, name, n - 1) + if is_named(list[n - 1], name) {
            1nat
        } else {
            0nat
        }
    }
}

/// Whether an object names a member more than once.
pub open spec fn repeats(text: Seq<char>, name: Seq<char>) -> bool {
    count_named(pieces(text), name, pieces(text).len() as int) >= 2
}

/// Whether two pieces are members of one name.
pub open spec fn same_member(a: Seq<char>, b: Seq<char>) -> bool {
    member_in(a) matches Some(member) && is_named(b, member.0)
}

/// Whether a text is that of a container that opens with a bracket.
pub open spec fn opens_with(text: Seq<char>, bracket: char) -> bool {
    trim(text).len() > 0 && trim(text)[0] == bracket
}

/// Whether no object in a text names a member twice, `depth` levels down.
pub open spec fn names_once(text: Seq<char>, depth: nat) -> bool
    decreases depth,
{
    let list = pieces(text);
    if depth == 0 {
        true
    } else if opens_with(text, '{') {
        &&& forall|i: int, j: int|
            0 <= i < j < list.len() ==> !same_member(#[trigger] list[i], #[trigger] list[j])
        &&& forall|i: int|
            0 <= i < list.len() ==> (member_in(#[trigger] list[i]) matches Some(member)
                ==> names_once(member.1, (depth - 1) as nat))
    } else if opens_with(text, '[') {
        forall|i: int| 0 <= i < list.len() ==> names_once(#[trigger] list[i], (depth - 1) as nat)
    } else {
        true
    }
}

// ── reading ─────────────────────────────────────────────────────────────────

fn end_of_piece(s: &[char], from: usize) -> (end: usize)
    requires
        from <= s@.len(),
    ensures
        end == piece_end(s@, from as int, 0, false),
        from <= end <= s@.len(),
{
    let n: usize = s.len();
    let mut i: usize = from;
    let mut depth: usize = 0;
    let mut quoted: bool = false;
    while i < n
        invariant
            n == s@.len(),
            from <= i <= n,
            depth <= i,
            piece_end(s@, from as int, 0, false) == piece_end(s@, i as int, depth as nat, quoted),
        decreases n - i,
    {
        let c: char = s[i];
        if quoted {
            if c == '\\' {
                if n - i <= 2 {
                    assert(piece_end(s@, i + 2, depth as nat, true) == n);
                    return n;
                }
                i = i + 2;
            } else {
                quoted = c != '"';
                i = i + 1;
            }
        } else if c == '"' {
            quoted = true;
            i = i + 1;
        } else if c == '{' || c == '[' {
            depth = depth + 1;
            i = i + 1;
        } else if c == '}' || c == ']' {
            if depth == 0 {
                return i;
            }
            depth = depth - 1;
            i = i + 1;
        } else if c == ',' && depth == 0 {
            return i;
        } else {
            i = i + 1;
        }
    }
    n
}

fn part<'a>(s: &'a [char], from: usize, to: usize) -> (t: &'a [char])
    requires
        from <= to <= s@.len(),
    ensures
        t@ == s@.subrange(from as int, to as int),
{
    let t = tail_of(head_of(s, to), from);
    assert(t@ =~= s@.subrange(from as int, to as int));
    t
}

/// The pieces of the container that a text is.
pub fn list_pieces<'a>(text: &'a [char]) -> (list: Vec<&'a [char]>)
    ensures
        runs(list@) == pieces(text@),
{
    let s = trimmed(text);
    let mut list: Vec<&'a [char]> = Vec::new();
    assert(runs(list@) =~= Seq::empty());
    if s.len() == 0 {
        assert(piece_end(s@, 1, 0, false) == 0);
        return list;
    }
    let mut i: usize = 1;
    loop
        invariant
            s@ == trim(text@),
            1 <= i <= s@.len(),
            pieces(text@) == runs(list@) + pieces_from(s@, i as int),
        decreases s@.len() - i,
    {
        let e: usize = end_of_piece(s, i);
        let piece = part(s, i, e);
        let ghost before = runs(list@);
        list.push(piece);
        assert(runs(list@) =~= before.push(piece@));
        if e == s.len() || s[e] != ',' {
            assert(runs(list@) =~= before + seq![piece@]);
            return list;
        }
        assert(before + (seq![piece@] + pieces_from(s@, e + 1)) =~= runs(list@) + pieces_from(
            s@,
            e + 1,
        ));
        i = e + 1;
    }
}

fn end_of_quote(s: &[char], from: usize) -> (end: usize)
    requires
        from <= s@.len(),
    ensures
        end == quote_end(s@, from as int),
        end <= s@.len(),
{
    let n: usize = s.len();
    let mut i: usize = from;
    while i < n
        invariant
            n == s@.len(),
            from <= i <= n,
            quote_end(s@, from as int) == quote_end(s@, i as int),
        decreases n - i,
    {
        let c: char = s[i];
        if c == '\\' {
            if n - i <= 2 {
                assert(quote_end(s@, i + 2) == n);
                return n;
            }
            i = i + 2;
        } else if c == '"' {
            return i;
        } else {
            i = i + 1;
        }
    }
    n
}

/// A member by views.
pub open spec fn seen_member(member: Option<(String, &[char])>) -> Option<(Seq<char>, Seq<char>)> {
    match member {
        Some((name, value)) => Some((name@, value@)),
        None => None,
    }
}

/// Reads a member.
pub fn read_member<'a>(piece: &'a [char]) -> (member: Option<(String, &'a [char])>)
    ensures
        seen_member(member) == member_in(piece@),
{
    let t = trimmed(piece);
    if t.len() == 0 || t[0] != '"' {
        return None;
    }
    let e: usize = end_of_quote(t, 1);
    if e == t.len() {
        return None;
    }
    assert(e < t@.len());
    let rest = trimmed_start(tail_of(t, e + 1));
    let token = text_of(head_of(t, e + 1));
    match parse(token.as_str()) {
        Some(Json::Str(name)) => if rest.len() > 0 && rest[0] == ':' {
            Some((name, tail_of(rest, 1)))
        } else {
            None
        },
        _ => None,
    }
}

/// Tells whether an object names a member more than once.
pub fn names_twice(text: &[char], name: &str) -> (yes: bool)
    ensures
        yes == repeats(text@, name@),
{
    let list = list_pieces(text);
    let ghost all = runs(list@);
    let mut n: usize = 0;
    for i in 0..list.len()
        invariant
            all == runs(list@),
            n == count_named(all, name@, i as int),
            n <= i,
    {
        assert(all[i as int] == list@[i as int]@);
        if let Some((found, _)) = read_member(list[i]) {
            if same_text(found.as_str(), name) {
                n = n + 1;
            }
        }
    }
    n >= 2
}

/// Tells whether a text is that of a container that opens with a bracket.
pub fn starts_container(text: &[char], bracket: char) -> (yes: bool)
    ensures
        yes == opens_with(text@, bracket),
{
    let t = trimmed(text);
    t.len() > 0 && t[0] == bracket
}

// ── laws ────────────────────────────────────────────────────────────────────

proof fn counted_once(list: Seq<Seq<char>>, name: Seq<char>, n: int)
    requires
        0 <= n <= list.len(),
        forall|i: int, j: int|
            0 <= i < j < list.len() ==> !same_member(#[trigger] list[i], #[trigger] list[j]),
    ensures
        count_named(list, name, n) <= 1,
        count_named(list, name, n) == 1 ==> exists|i: int|
            0 <= i < n && is_named(#[trigger] list[i], name),
    decreases n,
{
    if n > 0 {
        counted_once(list, name, n - 1);
        if is_named(list[n - 1], name) && count_named(list, name, n - 1) == 1 {
            let i = choose|i: int| 0 <= i < n - 1 && is_named(#[trigger] list[i], name);
            assert(same_member(list[i], list[n - 1]));
        }
    }
}

/// Where no object in a text names a member twice, the text's own does not.
pub proof fn named_once(text: Seq<char>, depth: nat, name: Seq<char>)
    requires
        depth > 0,
        opens_with(text, '{'),
        names_once(text, depth),
    ensures
        !repeats(text, name),
{
    counted_once(pieces(text), name, pieces(text).len() as int);
}

proof fn named_twice(list: Seq<Seq<char>>, name: Seq<char>, n: int)
    requires
        0 <= n <= list.len(),
    ensures
        count_named(list, name, n) >= 1 <==> exists|i: int|
            0 <= i < n && is_named(#[trigger] list[i], name),
        count_named(list, name, n) >= 2 <==> exists|i: int, j: int|
            0 <= i < j < n && is_named(#[trigger] list[i], name) && is_named(
                #[trigger] list[j],
                name,
            ),
    decreases n,
{
    if n > 0 {
        named_twice(list, name, n - 1);
        if is_named(list[n - 1], name) && count_named(list, name, n - 1) >= 1 {
            let i = choose|i: int| 0 <= i < n - 1 && is_named(#[trigger] list[i], name);
            assert(is_named(list[i], name) && is_named(list[n - 1], name));
        }
        if exists|i: int, j: int|
            0 <= i < j < n && is_named(#[trigger] list[i], name) && is_named(
                #[trigger] list[j],
                name,
            ) {
            let (i, j) = choose|i: int, j: int|
                0 <= i < j < n && is_named(#[trigger] list[i], name) && is_named(
                    #[trigger] list[j],
                    name,
                );
            assert(is_named(list[i], name) && is_named(list[j], name));
        }
    }
}

/// A name is given more than once exactly where two of the members have it.
pub proof fn repeats_are_two_members_of_one_name(text: Seq<char>, name: Seq<char>)
    ensures
        repeats(text, name) <==> exists|i: int, j: int|
            0 <= i < j < pieces(text).len() && is_named(#[trigger] pieces(text)[i], name)
                && is_named(#[trigger] pieces(text)[j], name),
{
    named_twice(pieces(text), name, pieces(text).len() as int);
}

} // verus!
