//! Almost-JSON: what models write when they mean JSON.
//!
//! Beside JSON itself this reads single-quoted strings, unquoted keys, line
//! breaks inside strings, trailing commas, and arrays and objects whose closing
//! brackets were clipped at the end of the text. It is stated as the Pythonic
//! grammar is: each rule gives what it reads and the position after it.
use vstd::prelude::*;

use super::pythonic::{
    ident_end, number_end, past_white, past_white_moves_on, stands, PyParser,
};
use crate::json::{json_of, seen_json, views, Json, JsonObject, JsonView};
use crate::text::{digit, is_digit, same_text};

verus! {

/// `char::from_u32`: claimed to give the character of a code point, and nothing
/// for a surrogate or a number beyond the last code point.
pub assume_specification[ std::char::from_u32 ](code: u32) -> (c: std::option::Option<char>)
    ensures
        c == (if code <= 0xD7FF || (0xE000 <= code && code <= 0x10FFFF) {
            Some(code as char)
        } else {
            None
        }),
;

// ── the grammar ─────────────────────────────────────────────────────────────

/// The value of a hexadecimal digit.
pub open spec fn hex_digit(c: char) -> Option<int> {
    if '0' <= c <= '9' {
        Some(c as int - '0' as int)
    } else if 'a' <= c <= 'f' {
        Some(c as int - 'a' as int + 10)
    } else if 'A' <= c <= 'F' {
        Some(c as int - 'A' as int + 10)
    } else {
        None
    }
}

/// The number that four hexadecimal digits from `pos` on make.
pub open spec fn hex_code(s: Seq<char>, pos: int) -> Option<int> {
    if 0 <= pos && pos + 4 <= s.len() {
        match (hex_digit(s[pos]), hex_digit(s[pos + 1]), hex_digit(s[pos + 2]), hex_digit(
            s[pos + 3],
        )) {
            (Some(a), Some(b), Some(c), Some(d)) => Some(a * 4096 + b * 256 + c * 16 + d),
            _ => None,
        }
    } else {
        None
    }
}

/// A code point that is a character.
pub open spec fn is_scalar(code: int) -> bool {
    0 <= code <= 0xD7FF || 0xE000 <= code <= 0x10FFFF
}

/// What a one-character escape stands for.
pub open spec fn loose_unescaped(c: char) -> char {
    if c == 'n' {
        '\n'
    } else if c == 't' {
        '\t'
    } else if c == 'r' {
        '\r'
    } else if c == 'b' {
        8 as char
    } else if c == 'f' {
        12 as char
    } else {
        c
    }
}

/// The rest of a string whose opening quote has been read. It may hold line
/// breaks, but not a surrogate escape.
pub open spec fn loose_string(s: Seq<char>, pos: int, quote: char, read: Seq<char>) -> Option<
    (Seq<char>, int),
>
    decreases s.len() - pos,
{
    if !(0 <= pos < s.len()) {
        None
    } else if s[pos] == quote {
        Some((read, pos + 1))
    } else if s[pos] != '\\' {
        loose_string(s, pos + 1, quote, read.push(s[pos]))
    } else if pos + 1 >= s.len() {
        None
    } else if s[pos + 1] == 'u' {
        match hex_code(s, pos + 2) {
            Some(code) => if is_scalar(code) {
                loose_string(s, pos + 6, quote, read.push(code as char))
            } else {
                None
            },
            None => None,
        }
    } else {
        loose_string(s, pos + 2, quote, read.push(loose_unescaped(s[pos + 1])))
    }
}

/// `true`, `false` and `null`.
pub open spec fn loose_word(word: Seq<char>) -> Option<JsonView> {
    if word == "true"@ {
        Some(JsonView::Bool(true))
    } else if word == "false"@ {
        Some(JsonView::Bool(false))
    } else if word == "null"@ {
        Some(JsonView::Null)
    } else {
        None
    }
}

/// A value.
pub open spec fn loose_value(s: Seq<char>, pos: int) -> Option<(JsonView, int)>
    decreases s.len() - pos, 0int,
{
    if !(0 <= pos < s.len()) {
        None
    } else if s[pos] == '"' || s[pos] == '\'' {
        match loose_string(s, pos + 1, s[pos], Seq::empty()) {
            Some((text, end)) => Some((JsonView::Str(text), end)),
            None => None,
        }
    } else if s[pos] == '[' {
        proof {
            past_white_moves_on(s, pos + 1);
        }
        match loose_items(s, past_white(s, pos + 1), Seq::empty()) {
            Some((items, end)) => Some((JsonView::Array(items), end)),
            None => None,
        }
    } else if s[pos] == '{' {
        proof {
            past_white_moves_on(s, pos + 1);
        }
        match loose_pairs(s, past_white(s, pos + 1), Map::empty()) {
            Some((members, end)) => Some((JsonView::Object(members), end)),
            None => None,
        }
    } else if s[pos] == '-' || is_digit(s[pos]) {
        let end = number_end(s, pos);
        match json_of(s.subrange(pos, end)) {
            Some(v) => if v is Int || v is Real {
                Some((v, end))
            } else {
                None
            },
            None => None,
        }
    } else {
        let end = ident_end(s, pos);
        if end == pos {
            None
        } else {
            match loose_word(s.subrange(pos, end)) {
                Some(v) => Some((v, end)),
                None => None,
            }
        }
    }
}

/// A member name: a string, or an identifier without quotes.
pub open spec fn loose_key(s: Seq<char>, pos: int) -> Option<(Seq<char>, int)> {
    if !(0 <= pos < s.len()) {
        None
    } else if s[pos] == '"' || s[pos] == '\'' {
        loose_string(s, pos + 1, s[pos], Seq::empty())
    } else if ident_end(s, pos) > pos {
        Some((s.subrange(pos, ident_end(s, pos)), ident_end(s, pos)))
    } else {
        None
    }
}

/// The items of an array from `pos` to its closing bracket, or to the end of
/// the text, after those already read.
pub open spec fn loose_items(s: Seq<char>, pos: int, read: Seq<JsonView>) -> Option<
    (Seq<JsonView>, int),
>
    decreases s.len() - pos, 1int,
{
    if pos == s.len() {
        Some((read, pos))
    } else if stands(s, pos, ']') {
        Some((read, pos + 1))
    } else {
        match loose_value(s, pos) {
            Some((v, end)) => {
                let next = past_white(s, end);
                proof {
                    past_white_moves_on(s, end);
                    past_white_moves_on(s, next + 1);
                }
                if !(pos < end) {
                    None
                } else if stands(s, next, ',') {
                    loose_items(s, past_white(s, next + 1), read.push(v))
                } else if stands(s, next, ']') {
                    Some((read.push(v), next + 1))
                } else if next == s.len() {
                    Some((read.push(v), next))
                } else {
                    None
                }
            },
            None => None,
        }
    }
}

/// The members of an object from `pos` to its closing brace, or to the end of
/// the text, after those already read.
pub open spec fn loose_pairs(s: Seq<char>, pos: int, read: Map<Seq<char>, JsonView>) -> Option<
    (Map<Seq<char>, JsonView>, int),
>
    decreases s.len() - pos, 1int,
{
    if pos == s.len() {
        Some((read, pos))
    } else if stands(s, pos, '}') {
        Some((read, pos + 1))
    } else {
        match loose_key(s, pos) {
            Some((key, key_end)) => {
                let colon = past_white(s, key_end);
                let from = past_white(s, colon + 1);
                proof {
                    past_white_moves_on(s, key_end);
                    past_white_moves_on(s, colon + 1);
                }
                if !(pos < key_end) || !stands(s, colon, ':') {
                    None
                } else {
                    match loose_value(s, from) {
                        Some((v, end)) => {
                            let next = past_white(s, end);
                            proof {
                                past_white_moves_on(s, end);
                                past_white_moves_on(s, next + 1);
                            }
                            if !(from < end) {
                                None
                            } else if stands(s, next, ',') {
                                loose_pairs(s, past_white(s, next + 1), read.insert(key, v))
                            } else if stands(s, next, '}') {
                                Some((read.insert(key, v), next + 1))
                            } else if next == s.len() {
                                Some((read.insert(key, v), next))
                            } else {
                                None
                            }
                        },
                        None => None,
                    }
                }
            },
            None => None,
        }
    }
}

/// The array or object that a text starts with, and the position after it.
pub open spec fn loose_start(s: Seq<char>) -> Option<(JsonView, int)> {
    let start = past_white(s, 0);
    if stands(s, start, '{') || stands(s, start, '[') {
        loose_value(s, start)
    } else {
        None
    }
}

/// The array or object that a text starts with, whatever follows it.
pub open spec fn loose_leading(s: Seq<char>) -> Option<JsonView> {
    match loose_start(s) {
        Some((v, _)) => Some(v),
        None => None,
    }
}

/// The array or object that a text is.
pub open spec fn loose_whole(s: Seq<char>) -> Option<JsonView> {
    match loose_start(s) {
        Some((v, end)) => if past_white(s, end) == s.len() {
            Some(v)
        } else {
            None
        },
        None => None,
    }
}

// ── every rule moves on ─────────────────────────────────────────────────────

proof fn ends_move_on(s: Seq<char>, pos: int)
    ensures
        pos <= ident_end(s, pos),
        pos <= s.len() ==> ident_end(s, pos) <= s.len(),
        pos <= number_end(s, pos),
        pos <= s.len() ==> number_end(s, pos) <= s.len(),
    decreases s.len() - pos,
{
    if 0 <= pos < s.len() {
        ends_move_on(s, pos + 1);
    }
}

proof fn loose_string_moves_on(s: Seq<char>, pos: int, quote: char, read: Seq<char>)
    ensures
        loose_string(s, pos, quote, read) matches Some((_, end)) ==> pos < end <= s.len(),
    decreases s.len() - pos,
{
    if 0 <= pos < s.len() && s[pos] != quote {
        if s[pos] != '\\' {
            loose_string_moves_on(s, pos + 1, quote, read.push(s[pos]));
        } else if pos + 1 < s.len() {
            if s[pos + 1] == 'u' {
                if let Some(code) = hex_code(s, pos + 2) {
                    loose_string_moves_on(s, pos + 6, quote, read.push(code as char));
                }
            } else {
                loose_string_moves_on(
                    s,
                    pos + 2,
                    quote,
                    read.push(loose_unescaped(s[pos + 1])),
                );
            }
        }
    }
}

/// A value that is read ends after it starts, and within the text.
pub proof fn loose_value_moves_on(s: Seq<char>, pos: int)
    ensures
        loose_value(s, pos) matches Some((_, end)) ==> 0 <= pos < end <= s.len(),
    decreases s.len() - pos, 0int,
{
    if 0 <= pos < s.len() {
        ends_move_on(s, pos);
        ends_move_on(s, pos + 1);
        if s[pos] == '"' || s[pos] == '\'' {
            loose_string_moves_on(s, pos + 1, s[pos], Seq::empty());
        } else if s[pos] == '[' {
            past_white_moves_on(s, pos + 1);
            loose_items_move_on(s, past_white(s, pos + 1), Seq::empty());
        } else if s[pos] == '{' {
            past_white_moves_on(s, pos + 1);
            loose_pairs_move_on(s, past_white(s, pos + 1), Map::empty());
        } else if s[pos] == '-' || is_digit(s[pos]) {
            assert(number_end(s, pos) == number_end(s, pos + 1));
        }
    }
}

proof fn loose_items_move_on(s: Seq<char>, pos: int, read: Seq<JsonView>)
    ensures
        loose_items(s, pos, read) matches Some((_, end)) ==> pos <= end <= s.len(),
    decreases s.len() - pos, 1int,
{
    if pos != s.len() && !stands(s, pos, ']') {
        loose_value_moves_on(s, pos);
        if let Some((v, end)) = loose_value(s, pos) {
            let next = past_white(s, end);
            past_white_moves_on(s, end);
            past_white_moves_on(s, next + 1);
            if pos < end && stands(s, next, ',') {
                loose_items_move_on(s, past_white(s, next + 1), read.push(v));
            }
        }
    }
}

proof fn loose_key_moves_on(s: Seq<char>, pos: int)
    ensures
        loose_key(s, pos) matches Some((_, end)) ==> 0 <= pos < end <= s.len(),
{
    if 0 <= pos < s.len() {
        ends_move_on(s, pos);
        loose_string_moves_on(s, pos + 1, s[pos], Seq::empty());
    }
}

proof fn loose_pairs_move_on(s: Seq<char>, pos: int, read: Map<Seq<char>, JsonView>)
    ensures
        loose_pairs(s, pos, read) matches Some((_, end)) ==> pos <= end <= s.len(),
    decreases s.len() - pos, 1int,
{
    if pos != s.len() && !stands(s, pos, '}') {
        loose_key_moves_on(s, pos);
        if let Some((key, key_end)) = loose_key(s, pos) {
            let colon = past_white(s, key_end);
            let from = past_white(s, colon + 1);
            past_white_moves_on(s, key_end);
            past_white_moves_on(s, colon + 1);
            if pos < key_end && stands(s, colon, ':') {
                loose_value_moves_on(s, from);
                if let Some((v, end)) = loose_value(s, from) {
                    let next = past_white(s, end);
                    past_white_moves_on(s, end);
                    past_white_moves_on(s, next + 1);
                    if from < end && stands(s, next, ',') {
                        loose_pairs_move_on(s, past_white(s, next + 1), read.insert(key, v));
                    }
                }
            }
        }
    }
}

// ── the reader ──────────────────────────────────────────────────────────────

fn hex_value(c: char) -> (v: Option<u32>)
    ensures
        match v {
            Some(n) => hex_digit(c) == Some(n as int) && n < 16,
            None => hex_digit(c) is None,
        },
{
    if '0' <= c && c <= '9' {
        Some(c as u32 - 48)
    } else if 'a' <= c && c <= 'f' {
        Some(c as u32 - 87)
    } else if 'A' <= c && c <= 'F' {
        Some(c as u32 - 55)
    } else {
        None
    }
}

fn hex_at(chars: &Vec<char>, pos: usize) -> (code: Option<u32>)
    ensures
        match code {
            Some(n) => hex_code(chars@, pos as int) == Some(n as int) && pos + 4 <= chars@.len(),
            None => hex_code(chars@, pos as int) is None,
        },
{
    if chars.len() < 4 || pos > chars.len() - 4 {
        return None;
    }
    match (
        hex_value(chars[pos]),
        hex_value(chars[pos + 1]),
        hex_value(chars[pos + 2]),
        hex_value(chars[pos + 3]),
    ) {
        (Some(a), Some(b), Some(c), Some(d)) => Some(a * 4096 + b * 256 + c * 16 + d),
        _ => None,
    }
}

fn read_string(p: &mut PyParser) -> (text: Option<String>)
    requires
        old(p).wf(),
        old(p).pos < old(p).chars@.len(),
    ensures
        final(p).chars@ == old(p).chars@,
        final(p).wf(),
        ({
            let s = old(p).chars@;
            let from = old(p).pos as int;
            match loose_string(s, from + 1, s[from], Seq::empty()) {
                Some((read, end)) => text matches Some(t) && t@ == read && final(p).pos == end,
                None => text is None,
            }
        }),
{
    let ghost s = p.chars@;
    let ghost from = p.pos as int;
    let quote: char = p.chars[p.pos];
    let n: usize = p.chars.len();
    p.pos = p.pos + 1;
    let mut out = String::new();
    while p.pos < p.chars.len()
        invariant
            p.wf(),
            p.chars@ == s,
            s == old(p).chars@,
            s.len() <= usize::MAX,
            from == old(p).pos,
            from < s.len(),
            quote == s[from],
            loose_string(s, from + 1, quote, Seq::empty()) == loose_string(
                s,
                p.pos as int,
                quote,
                out@,
            ),
        decreases s.len() - p.pos,
    {
        let c: char = p.chars[p.pos];
        if c == quote {
            p.pos = p.pos + 1;
            return Some(out);
        }
        if c != '\\' {
            out.push(c);
            p.pos = p.pos + 1;
        } else if p.pos + 1 >= p.chars.len() {
            return None;
        } else if p.chars[p.pos + 1] == 'u' {
            match hex_at(&p.chars, p.pos + 2) {
                Some(code) => match std::char::from_u32(code) {
                    Some(decoded) => {
                        out.push(decoded);
                        p.pos = p.pos + 6;
                    },
                    None => {
                        return None;
                    },
                },
                None => {
                    return None;
                },
            }
        } else {
            let e: char = p.chars[p.pos + 1];
            let decoded: char = if e == 'n' {
                '\n'
            } else if e == 't' {
                '\t'
            } else if e == 'r' {
                '\r'
            } else if e == 'b' {
                8u8 as char
            } else if e == 'f' {
                12u8 as char
            } else {
                e
            };
            out.push(decoded);
            p.pos = p.pos + 2;
        }
    }
    None
}

fn read_word(p: &mut PyParser) -> (value: Option<Json>)
    requires
        old(p).wf(),
    ensures
        ({
            let s = old(p).chars@;
            let from = old(p).pos as int;
            let end = ident_end(s, from);
            &&& final(p).moved(old(p), end)
            &&& seen_json(value) == (if end == from {
                None
            } else {
                loose_word(s.subrange(from, end))
            })
        }),
{
    match p.parse_ident() {
        Some(word) => if same_text(word.as_str(), "true") {
            Some(Json::Bool(true))
        } else if same_text(word.as_str(), "false") {
            Some(Json::Bool(false))
        } else if same_text(word.as_str(), "null") {
            Some(Json::Null)
        } else {
            None
        },
        None => None,
    }
}

fn read_value(p: &mut PyParser) -> (value: Option<Json>)
    requires
        old(p).wf(),
    ensures
        final(p).chars@ == old(p).chars@,
        final(p).wf(),
        match loose_value(old(p).chars@, old(p).pos as int) {
            Some((v, end)) => value matches Some(j) && j@ == v && final(p).pos == end,
            None => value is None,
        },
    decreases old(p).chars@.len() - old(p).pos, 1int,
{
    let c = p.peek();
    match c {
        None => None,
        Some(c) => if c == '"' || c == '\'' {
            match read_string(p) {
                Some(text) => Some(Json::Str(text)),
                None => None,
            }
        } else if c == '[' {
            read_items(p)
        } else if c == '{' {
            read_pairs(p)
        } else if c == '-' || digit(c) {
            p.parse_number()
        } else {
            read_word(p)
        },
    }
}

fn read_items(p: &mut PyParser) -> (value: Option<Json>)
    requires
        old(p).wf(),
        stands(old(p).chars@, old(p).pos as int, '['),
    ensures
        final(p).chars@ == old(p).chars@,
        final(p).wf(),
        match loose_items(
            old(p).chars@,
            past_white(old(p).chars@, old(p).pos + 1),
            Seq::empty(),
        ) {
            Some((items, end)) => value matches Some(j) && j@ == JsonView::Array(items)
                && final(p).pos == end,
            None => value is None,
        },
    decreases old(p).chars@.len() - old(p).pos, 0int,
{
    broadcast use crate::json::array_view;

    let ghost s = p.chars@;
    let ghost from = p.pos as int;
    let _ = p.bump();
    p.skip_ws();
    let ghost first = p.pos as int;
    proof {
        past_white_moves_on(s, from + 1);
    }
    let mut items: Vec<Json> = Vec::new();
    assert(views(items@) =~= Seq::empty());
    while !p.at_end() && !p.sees(']')
        invariant
            p.wf(),
            p.chars@ == s,
            s == old(p).chars@,
            from == old(p).pos,
            first == past_white(s, from + 1),
            from < first <= p.pos,
            loose_items(s, first, Seq::empty()) == loose_items(s, p.pos as int, views(items@)),
        decreases s.len() - p.pos,
    {
        let ghost read = views(items@);
        proof {
            loose_value_moves_on(s, p.pos as int);
        }
        let v = match read_value(p) {
            Some(v) => v,
            None => {
                assert(loose_items(s, first, Seq::empty()) is None);
                return None;
            },
        };
        proof {
            past_white_moves_on(s, p.pos as int);
        }
        p.skip_ws();
        let ghost next = p.pos as int;
        items.push(v);
        assert(views(items@) =~= read.push(v@));
        if p.sees(',') {
            let _ = p.bump();
            proof {
                past_white_moves_on(s, next + 1);
            }
            p.skip_ws();
        } else if !p.at_end() && !p.sees(']') {
            return None;
        }
    }
    let _ = p.bump();
    Some(Json::Array(items))
}

fn read_key(p: &mut PyParser) -> (key: Option<String>)
    requires
        old(p).wf(),
    ensures
        final(p).chars@ == old(p).chars@,
        final(p).wf(),
        match loose_key(old(p).chars@, old(p).pos as int) {
            Some((k, end)) => key matches Some(t) && t@ == k && final(p).pos == end,
            None => key is None,
        },
{
    if p.sees('"') || p.sees('\'') {
        read_string(p)
    } else {
        p.parse_ident()
    }
}

fn read_pairs(p: &mut PyParser) -> (value: Option<Json>)
    requires
        old(p).wf(),
        stands(old(p).chars@, old(p).pos as int, '{'),
    ensures
        final(p).chars@ == old(p).chars@,
        final(p).wf(),
        match loose_pairs(
            old(p).chars@,
            past_white(old(p).chars@, old(p).pos + 1),
            Map::empty(),
        ) {
            Some((members, end)) => value matches Some(j) && j@ == JsonView::Object(members)
                && final(p).pos == end,
            None => value is None,
        },
    decreases old(p).chars@.len() - old(p).pos, 0int,
{
    let ghost s = p.chars@;
    let ghost from = p.pos as int;
    let _ = p.bump();
    p.skip_ws();
    let ghost first = p.pos as int;
    proof {
        past_white_moves_on(s, from + 1);
    }
    let mut members = JsonObject::new();
    while !p.at_end() && !p.sees('}')
        invariant
            p.wf(),
            p.chars@ == s,
            s == old(p).chars@,
            from == old(p).pos,
            first == past_white(s, from + 1),
            from < first <= p.pos,
            loose_pairs(s, first, Map::empty()) == loose_pairs(s, p.pos as int, members@),
        decreases s.len() - p.pos,
    {
        proof {
            loose_key_moves_on(s, p.pos as int);
        }
        let key = match read_key(p) {
            Some(key) => key,
            None => {
                return None;
            },
        };
        proof {
            past_white_moves_on(s, p.pos as int);
        }
        p.skip_ws();
        let ghost colon = p.pos as int;
        if p.expect(':').is_none() {
            return None;
        }
        proof {
            past_white_moves_on(s, colon + 1);
        }
        p.skip_ws();
        proof {
            loose_value_moves_on(s, p.pos as int);
        }
        let v = match read_value(p) {
            Some(v) => v,
            None => {
                return None;
            },
        };
        proof {
            past_white_moves_on(s, p.pos as int);
        }
        p.skip_ws();
        let ghost next = p.pos as int;
        members.insert(key.as_str(), v);
        if p.sees(',') {
            let _ = p.bump();
            proof {
                past_white_moves_on(s, next + 1);
            }
            p.skip_ws();
        } else if !p.at_end() && !p.sees('}') {
            return None;
        }
    }
    let _ = p.bump();
    Some(Json::Object(members))
}

/// Reads the array or object that a text starts with, whatever follows it.
pub fn lenient_leading(text: &str) -> (value: Option<Json>)
    ensures
        seen_json(value) == loose_leading(text@),
{
    let mut p = PyParser::new(text);
    p.skip_ws();
    if p.sees('{') || p.sees('[') {
        read_value(&mut p)
    } else {
        None
    }
}

/// Reads the array or object that a text is.
pub fn lenient_whole(text: &str) -> (value: Option<Json>)
    ensures
        seen_json(value) == loose_whole(text@),
{
    let mut p = PyParser::new(text);
    p.skip_ws();
    if p.sees('{') || p.sees('[') {
        let value = read_value(&mut p);
        p.skip_ws();
        proof {
            loose_value_moves_on(text@, past_white(text@, 0));
            if let Some((_, end)) = loose_start(text@) {
                past_white_moves_on(text@, end);
            }
        }
        if p.at_end() {
            value
        } else {
            None
        }
    } else {
        None
    }
}

// ── laws ────────────────────────────────────────────────────────────────────

/// A string is read as it stands up to its quote, line breaks and all.
pub proof fn loose_strings_are_read_as_they_stand(
    s: Seq<char>,
    pos: int,
    quote: char,
    read: Seq<char>,
    text: Seq<char>,
)
    requires
        0 <= pos,
        pos + text.len() < s.len(),
        s.subrange(pos, pos + text.len()) == text,
        s[pos + text.len()] == quote,
        !text.contains(quote),
        !text.contains('\\'),
    ensures
        loose_string(s, pos, quote, read) == Some((read + text, pos + text.len() + 1)),
    decreases text.len(),
{
    if text.len() == 0 {
        assert(read + text =~= read);
    } else {
        let rest = text.drop_first();
        assert(s[pos] == s.subrange(pos, pos + text.len())[0]);
        assert(text.contains(text[0]));
        assert(s.subrange(pos + 1, pos + 1 + rest.len()) =~= rest);
        assert forall|c: char| rest.contains(c) implies text.contains(c) by {
            let i = choose|i: int| 0 <= i < rest.len() && rest[i] == c;
            assert(text[i + 1] == c);
        }
        loose_strings_are_read_as_they_stand(s, pos + 1, quote, read.push(text[0]), rest);
        assert(read.push(text[0]) + rest =~= read + text);
    }
}

/// An escape stands for the character that JSON says, and one that JSON does not
/// know for the character behind the backslash.
pub proof fn loose_escapes_stand_for_characters(
    s: Seq<char>,
    pos: int,
    quote: char,
    read: Seq<char>,
)
    requires
        0 <= pos,
        pos + 1 < s.len(),
        s[pos] == '\\',
        quote != '\\',
    ensures
        ({
            let c = s[pos + 1];
            let now = loose_string(s, pos, quote, read);
            &&& c == 'n' ==> now == loose_string(s, pos + 2, quote, read.push('\n'))
            &&& c == 't' ==> now == loose_string(s, pos + 2, quote, read.push('\t'))
            &&& c == 'r' ==> now == loose_string(s, pos + 2, quote, read.push('\r'))
            &&& c == 'b' ==> now == loose_string(s, pos + 2, quote, read.push('\u{8}'))
            &&& c == 'f' ==> now == loose_string(s, pos + 2, quote, read.push('\u{c}'))
            &&& c == '"' || c == '\'' || c == '\\' || c == '/' ==> now == loose_string(
                s,
                pos + 2,
                quote,
                read.push(c),
            )
            &&& c == 'u' && pos + 6 <= s.len() ==> (hex_code(s, pos + 2) matches Some(code) ==> (if 0
                <= code <= 0xD7FF || 0xE000 <= code <= 0x10FFFF {
                now == loose_string(s, pos + 6, quote, read.push(code as char))
            } else {
                now is None
            }))
        }),
{
}

/// A code of four hexadecimal digits is their number, digit by digit.
pub proof fn hex_codes_are_their_digits(s: Seq<char>, pos: int)
    requires
        0 <= pos,
        pos + 4 <= s.len(),
    ensures
        hex_code(s, pos) matches Some(code) ==> {
            &&& hex_digit(s[pos]) is Some && hex_digit(s[pos + 1]) is Some && hex_digit(
                s[pos + 2],
            ) is Some && hex_digit(s[pos + 3]) is Some
            &&& code == ((hex_digit(s[pos])->0 * 16 + hex_digit(s[pos + 1])->0) * 16 + hex_digit(
                s[pos + 2],
            )->0) * 16 + hex_digit(s[pos + 3])->0
        },
        hex_digit('0') == Some(0int),
        hex_digit('9') == Some(9int),
        hex_digit('a') == Some(10int),
        hex_digit('f') == Some(15int),
        hex_digit('A') == Some(10int),
        hex_digit('F') == Some(15int),
        hex_digit('g') is None,
{
}

/// The words of JSON are read as what they are, and no other word is a value.
pub proof fn loose_words_are_values(word: Seq<char>)
    ensures
        loose_word("true"@) == Some(JsonView::Bool(true)),
        loose_word("false"@) == Some(JsonView::Bool(false)),
        loose_word("null"@) == Some(JsonView::Null),
        word != "true"@ && word != "false"@ && word != "null"@ ==> loose_word(word) is None,
{
    reveal_strlit("true");
    reveal_strlit("false");
    reveal_strlit("null");
    assert("true"@[0] == 't' && "false"@[0] == 'f' && "null"@[0] == 'n');
}

/// What stands at a place tells how a value is read from there: either quote opens
/// a string.
pub proof fn loose_values_are_read_by_their_first_character(s: Seq<char>, pos: int)
    requires
        0 <= pos < s.len(),
    ensures
        ({
            let c = s[pos];
            let inner = past_white(s, pos + 1);
            &&& c == '"' || c == '\'' ==> loose_value(s, pos) == (match loose_string(
                s,
                pos + 1,
                c,
                Seq::empty(),
            ) {
                Some((text, end)) => Some((JsonView::Str(text), end)),
                None => None,
            })
            &&& c == '[' ==> loose_value(s, pos) == (match loose_items(s, inner, Seq::empty()) {
                Some((items, end)) => Some((JsonView::Array(items), end)),
                None => None,
            })
            &&& c == '{' ==> loose_value(s, pos) == (match loose_pairs(s, inner, Map::empty()) {
                Some((members, end)) => Some((JsonView::Object(members), end)),
                None => None,
            })
            &&& c == '-' || '0' <= c <= '9' ==> loose_value(s, pos) == (match json_of(
                s.subrange(pos, number_end(s, pos)),
            ) {
                Some(JsonView::Int(n)) => Some((JsonView::Int(n), number_end(s, pos))),
                Some(JsonView::Real(t)) => Some((JsonView::Real(t), number_end(s, pos))),
                _ => None,
            })
        }),
{
}

proof fn loose_items_after(s: Seq<char>, pos: int, read: Seq<JsonView>)
    ensures
        loose_items(s, pos, read) == (match loose_items(s, pos, Seq::empty()) {
            Some((items, end)) => Some((read + items, end)),
            None => None,
        }),
    decreases s.len() - pos,
{
    let none = Seq::<JsonView>::empty();
    assert(read + none =~= read);
    if pos != s.len() && !stands(s, pos, ']') {
        loose_value_moves_on(s, pos);
        if let Some((v, end)) = loose_value(s, pos) {
            let next = past_white(s, end);
            past_white_moves_on(s, end);
            past_white_moves_on(s, next + 1);
            assert(read.push(v) =~= read + none.push(v));
            if stands(s, next, ',') {
                let from = past_white(s, next + 1);
                loose_items_after(s, from, read.push(v));
                loose_items_after(s, from, none.push(v));
                if let Some((items, _)) = loose_items(s, from, none) {
                    assert(read.push(v) + items =~= read + (none.push(v) + items));
                }
            }
        }
    }
}

/// Every item of a list is read, in their order. A comma may stand behind the last
/// one, and the bracket may be missing where the text ends.
pub proof fn loose_lists_are_read_item_by_item(s: Seq<char>, pos: int)
    requires
        0 <= pos <= s.len(),
    ensures
        ({
            let read = loose_items(s, pos, Seq::empty());
            &&& pos == s.len() ==> read == Some((Seq::<JsonView>::empty(), pos))
            &&& stands(s, pos, ']') ==> read == Some((Seq::<JsonView>::empty(), pos + 1))
            &&& pos < s.len() && !stands(s, pos, ']') ==> (match loose_value(s, pos) {
                None => read is None,
                Some((v, end)) => {
                    let next = past_white(s, end);
                    if stands(s, next, ',') {
                        match loose_items(s, past_white(s, next + 1), Seq::empty()) {
                            Some((rest, last)) => read == Some((seq![v] + rest, last)),
                            None => read is None,
                        }
                    } else if stands(s, next, ']') {
                        read == Some((seq![v], next + 1))
                    } else if next == s.len() {
                        read == Some((seq![v], next))
                    } else {
                        read is None
                    }
                },
            })
        }),
{
    let none = Seq::<JsonView>::empty();
    loose_value_moves_on(s, pos);
    if let Some((v, end)) = loose_value(s, pos) {
        assert(none.push(v) =~= seq![v]);
        loose_items_after(s, past_white(s, past_white(s, end) + 1), seq![v]);
    }
}

/// Every member of an object is read, in their order, a later one of a name in
/// place of an earlier one. A name need not be quoted, a comma may stand behind the
/// last member, and the brace may be missing where the text ends.
pub proof fn loose_objects_are_read_member_by_member(
    s: Seq<char>,
    pos: int,
    read: Map<Seq<char>, JsonView>,
)
    requires
        0 <= pos <= s.len(),
    ensures
        ({
            let found = loose_pairs(s, pos, read);
            &&& pos == s.len() ==> found == Some((read, pos))
            &&& stands(s, pos, '}') ==> found == Some((read, pos + 1))
            &&& pos < s.len() && !stands(s, pos, '}') ==> (match loose_key(s, pos) {
                None => found is None,
                Some((key, key_end)) => {
                    let colon = past_white(s, key_end);
                    let from = past_white(s, colon + 1);
                    if !stands(s, colon, ':') || loose_value(s, from) is None {
                        found is None
                    } else {
                        let (v, end) = loose_value(s, from)->0;
                        let next = past_white(s, end);
                        let now = read.insert(key, v);
                        if stands(s, next, ',') {
                            found == loose_pairs(s, past_white(s, next + 1), now)
                        } else if stands(s, next, '}') {
                            found == Some((now, next + 1))
                        } else if next == s.len() {
                            found == Some((now, next))
                        } else {
                            found is None
                        }
                    }
                },
            })
        }),
{
    if pos < s.len() {
        if let Some((_, key_end)) = loose_key(s, pos) {
            loose_string_moves_on(s, pos + 1, s[pos], Seq::empty());
            let colon = past_white(s, key_end);
            loose_value_moves_on(s, past_white(s, colon + 1));
        }
    }
}

/// A name is a quoted string or an identifier, as it stands.
pub proof fn loose_names_are_strings_or_identifiers(s: Seq<char>, pos: int)
    requires
        0 <= pos < s.len(),
    ensures
        s[pos] == '"' || s[pos] == '\'' ==> loose_key(s, pos) == loose_string(
            s,
            pos + 1,
            s[pos],
            Seq::empty(),
        ),
        s[pos] != '"' && s[pos] != '\'' && ident_end(s, pos) > pos ==> loose_key(s, pos) == Some(
            (s.subrange(pos, ident_end(s, pos)), ident_end(s, pos)),
        ),
        s[pos] != '"' && s[pos] != '\'' && ident_end(s, pos) <= pos ==> loose_key(s, pos) is None,
{
}

/// Almost-JSON is an object or a list: at the start of a text, whatever follows; or
/// as the whole of it, blanks aside.
pub proof fn almost_json_is_an_object_or_a_list(s: Seq<char>)
    ensures
        ({
            let start = past_white(s, 0);
            let opens = stands(s, start, '{') || stands(s, start, '[');
            &&& opens && loose_value(s, start) is Some ==> loose_leading(s) == Some(
                (loose_value(s, start)->0).0,
            )
            &&& opens && loose_value(s, start) is Some && past_white(
                s,
                (loose_value(s, start)->0).1,
            ) == s.len() ==> loose_whole(s) == Some((loose_value(s, start)->0).0)
            &&& opens && loose_value(s, start) is Some && past_white(
                s,
                (loose_value(s, start)->0).1,
            ) != s.len() ==> loose_whole(s) is None
            &&& !opens || loose_value(s, start) is None ==> loose_leading(s) is None && loose_whole(
                s,
            ) is None
        }),
{
}

} // verus!
