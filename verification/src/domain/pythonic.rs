//! Tool calls written as Python call expressions.
//!
//! The grammar is stated over the characters `s` and a position in them; each
//! rule gives the value it reads and the position after it, or nothing where
//! the text is malformed.
use vstd::prelude::*;

use super::decode::{call_views, CallView, ToolCall};
use crate::json::{json_of, json_text, parse, render, seen_json, views, Json, JsonObject, JsonView};
use crate::text::{
    chars_of, digit, head_of, is_alnum, is_digit, is_white, same_text, tail_of, text_of, whitespace,
};

verus! {

// ── the grammar ─────────────────────────────────────────────────────────────

/// Whether `c` stands at `pos`.
pub open spec fn stands(s: Seq<char>, pos: int, c: char) -> bool {
    0 <= pos < s.len() && s[pos] == c
}

/// The first position from `pos` on that is not whitespace.
pub open spec fn past_white(s: Seq<char>, pos: int) -> int
    decreases s.len() - pos,
{
    if 0 <= pos < s.len() && is_white(s[pos]) {
        past_white(s, pos + 1)
    } else {
        pos
    }
}

/// Skipping whitespace never goes back, nor beyond the text.
pub proof fn past_white_moves_on(s: Seq<char>, pos: int)
    ensures
        pos <= past_white(s, pos),
        pos <= s.len() ==> past_white(s, pos) <= s.len(),
    decreases s.len() - pos,
{
    if 0 <= pos < s.len() && is_white(s[pos]) {
        past_white_moves_on(s, pos + 1);
    }
}

/// A character of an identifier.
pub open spec fn is_ident_char(c: char) -> bool {
    is_alnum(c) || c == '_'
}

/// The end of the identifier that starts at `pos`; `pos` itself where none does.
pub open spec fn ident_end(s: Seq<char>, pos: int) -> int
    decreases s.len() - pos,
{
    if 0 <= pos < s.len() && is_ident_char(s[pos]) {
        ident_end(s, pos + 1)
    } else {
        pos
    }
}

/// A character of a number literal.
pub open spec fn is_number_char(c: char) -> bool {
    is_digit(c) || c == '.' || c == 'e' || c == 'E' || c == '+' || c == '-'
}

/// The end of the run of number characters that starts at `pos`.
pub open spec fn number_end(s: Seq<char>, pos: int) -> int
    decreases s.len() - pos,
{
    if 0 <= pos < s.len() && is_number_char(s[pos]) {
        number_end(s, pos + 1)
    } else {
        pos
    }
}

proof fn ends_move_on(s: Seq<char>, pos: int)
    ensures
        pos <= ident_end(s, pos),
        pos <= s.len() ==> ident_end(s, pos) <= s.len(),
        pos <= number_end(s, pos),
        pos <= s.len() ==> number_end(s, pos) <= s.len(),
    decreases s.len() - pos,
{
    if 0 <= pos < s.len() {
        ends_move_on(s, pos + 1);
    }
}

/// What an escaped character stands for in a string literal.
pub open spec fn unescaped(c: char) -> Seq<char> {
    if c == 'n' {
        seq!['\n']
    } else if c == 't' {
        seq!['\t']
    } else if c == 'r' {
        seq!['\r']
    } else if c == '\\' || c == '\'' || c == '"' {
        seq![c]
    } else {
        seq!['\\', c]
    }
}

/// The rest of a string literal whose opening quote has been read.
pub open spec fn string_rest(s: Seq<char>, pos: int, quote: char, read: Seq<char>) -> Option<
    (Seq<char>, int),
>
    decreases s.len() - pos,
{
    if !(0 <= pos < s.len()) {
        None
    } else if s[pos] == quote {
        Some((read, pos + 1))
    } else if s[pos] == '\\' {
        if pos + 1 < s.len() {
            string_rest(s, pos + 2, quote, read + unescaped(s[pos + 1]))
        } else {
            None
        }
    } else {
        string_rest(s, pos + 1, quote, read.push(s[pos]))
    }
}

/// `True`, `False` and `None`.
pub open spec fn keyword(word: Seq<char>) -> Option<JsonView> {
    if word == "True"@ {
        Some(JsonView::Bool(true))
    } else if word == "False"@ {
        Some(JsonView::Bool(false))
    } else if word == "None"@ {
        Some(JsonView::Null)
    } else {
        None
    }
}

/// The member name that a dictionary key makes: a string itself, any other
/// value as its JSON text.
pub open spec fn key_text(key: JsonView) -> Seq<char> {
    match key {
        JsonView::Str(s) => s,
        other => json_text(other),
    }
}

/// A literal value.
pub open spec fn py_value(s: Seq<char>, pos: int) -> Option<(JsonView, int)>
    decreases s.len() - pos, 0int,
{
    if !(0 <= pos < s.len()) {
        None
    } else if s[pos] == '"' || s[pos] == '\'' {
        match string_rest(s, pos + 1, s[pos], Seq::empty()) {
            Some((text, end)) => Some((JsonView::Str(text), end)),
            None => None,
        }
    } else if s[pos] == '[' {
        proof {
            past_white_moves_on(s, pos + 1);
        }
        match py_items(s, past_white(s, pos + 1), Seq::empty()) {
            Some((items, end)) => Some((JsonView::Array(items), end)),
            None => None,
        }
    } else if s[pos] == '{' {
        proof {
            past_white_moves_on(s, pos + 1);
        }
        match py_pairs(s, past_white(s, pos + 1), Map::empty()) {
            Some((members, end)) => Some((JsonView::Object(members), end)),
            None => None,
        }
    } else if s[pos] == '-' || is_digit(s[pos]) {
        let end = number_end(s, pos);
        match json_of(s.subrange(pos, end)) {
            Some(v) => if v is Int || v is Real {
                Some((v, end))
            } else {
                None
            },
            None => None,
        }
    } else {
        let end = ident_end(s, pos);
        if end == pos {
            None
        } else {
            match keyword(s.subrange(pos, end)) {
                Some(v) => Some((v, end)),
                None => None,
            }
        }
    }
}

/// The items of a list from `pos` to its closing bracket, after those already
/// read. A comma may follow the last one.
pub open spec fn py_items(s: Seq<char>, pos: int, read: Seq<JsonView>) -> Option<
    (Seq<JsonView>, int),
>
    decreases s.len() - pos, 1int,
{
    if stands(s, pos, ']') {
        Some((read, pos + 1))
    } else {
        match py_value(s, pos) {
            Some((v, end)) => {
                let next = past_white(s, end);
                if !(pos < end) {
                    None
                } else if stands(s, next, ',') {
                    proof {
                        past_white_moves_on(s, end);
                        past_white_moves_on(s, next + 1);
                    }
                    py_items(s, past_white(s, next + 1), read.push(v))
                } else if stands(s, next, ']') {
                    Some((read.push(v), next + 1))
                } else {
                    None
                }
            },
            None => None,
        }
    }
}

/// The pairs of a dictionary from `pos` to its closing brace, after those
/// already read. A comma may follow the last one.
pub open spec fn py_pairs(s: Seq<char>, pos: int, read: Map<Seq<char>, JsonView>) -> Option<
    (Map<Seq<char>, JsonView>, int),
>
    decreases s.len() - pos, 1int,
{
    if stands(s, pos, '}') {
        Some((read, pos + 1))
    } else {
        match py_value(s, pos) {
            Some((key, key_end)) => {
                let colon = past_white(s, key_end);
                let from = past_white(s, colon + 1);
                proof {
                    past_white_moves_on(s, key_end);
                    past_white_moves_on(s, colon + 1);
                }
                if !(pos < key_end) || !stands(s, colon, ':') {
                    None
                } else {
                    match py_value(s, from) {
                        Some((v, end)) => {
                            let next = past_white(s, end);
                            proof {
                                past_white_moves_on(s, end);
                                past_white_moves_on(s, next + 1);
                            }
                            if !(from < end) {
                                None
                            } else if stands(s, next, ',') {
                                py_pairs(s, past_white(s, next + 1), read.insert(key_text(key), v))
                            } else if stands(s, next, '}') {
                                Some((read.insert(key_text(key), v), next + 1))
                            } else {
                                None
                            }
                        },
                        None => None,
                    }
                }
            },
            None => None,
        }
    }
}

/// A keyword argument `name=value`.
pub open spec fn py_keyword_arg(s: Seq<char>, pos: int) -> Option<
    ((Seq<char>, JsonView), int),
> {
    let name_end = ident_end(s, pos);
    let equals = past_white(s, name_end);
    if name_end == pos || !stands(s, equals, '=') {
        None
    } else {
        match py_value(s, past_white(s, equals + 1)) {
            Some((v, end)) => Some(((s.subrange(pos, name_end), v), end)),
            None => None,
        }
    }
}

/// The keyword arguments of a call from `pos` to its closing parenthesis, after
/// those already read. A comma may follow the last one.
pub open spec fn py_args(s: Seq<char>, pos: int, read: Map<Seq<char>, JsonView>) -> Option<
    (Map<Seq<char>, JsonView>, int),
>
    decreases s.len() - pos,
{
    if stands(s, pos, ')') {
        Some((read, pos + 1))
    } else {
        match py_keyword_arg(s, pos) {
            Some(((name, v), end)) => {
                let next = past_white(s, end);
                proof {
                    past_white_moves_on(s, end);
                    past_white_moves_on(s, next + 1);
                }
                if !(0 <= pos < end) {
                    None
                } else if stands(s, next, ',') {
                    py_args(s, past_white(s, next + 1), read.insert(name, v))
                } else if stands(s, next, ')') {
                    Some((read.insert(name, v), next + 1))
                } else {
                    None
                }
            },
            None => None,
        }
    }
}

/// The call that a name and its arguments make.
pub open spec fn call_of(name: Seq<char>, args: Map<Seq<char>, JsonView>) -> CallView {
    CallView { id: None, name, arguments: json_text(JsonView::Object(args)) }
}

/// A call `name(key=value, ..)`.
pub open spec fn py_call(s: Seq<char>, pos: int) -> Option<(CallView, int)> {
    let start = past_white(s, pos);
    let name_end = ident_end(s, start);
    let paren = past_white(s, name_end);
    if name_end == start || !stands(s, paren, '(') {
        None
    } else {
        match py_args(s, past_white(s, paren + 1), Map::empty()) {
            Some((args, end)) => Some((call_of(s.subrange(start, name_end), args), end)),
            None => None,
        }
    }
}

/// The calls of a list from `pos` to its closing bracket, after those already
/// read. A comma may follow the last one.
pub open spec fn py_calls(s: Seq<char>, pos: int, read: Seq<CallView>) -> Option<
    (Seq<CallView>, int),
>
    decreases s.len() - pos,
{
    if stands(s, pos, ']') {
        Some((read, pos + 1))
    } else {
        match py_call(s, pos) {
            Some((call, end)) => {
                let next = past_white(s, end);
                proof {
                    past_white_moves_on(s, end);
                    past_white_moves_on(s, next + 1);
                }
                if !(0 <= pos < end) {
                    None
                } else if stands(s, next, ',') {
                    py_calls(s, past_white(s, next + 1), read.push(call))
                } else if stands(s, next, ']') {
                    Some((read.push(call), next + 1))
                } else {
                    None
                }
            },
            None => None,
        }
    }
}

/// A call, or a list of calls, that is all there is in `s`.
pub open spec fn pythonic_calls(s: Seq<char>) -> Option<Seq<CallView>> {
    let start = past_white(s, 0);
    let read = if stands(s, start, '[') {
        py_calls(s, past_white(s, start + 1), Seq::empty())
    } else {
        match py_call(s, start) {
            Some((call, end)) => Some((seq![call], end)),
            None => None,
        }
    };
    match read {
        Some((calls, end)) => if past_white(s, end) == s.len() && calls.len() > 0 {
            Some(calls)
        } else {
            None
        },
        None => None,
    }
}

// ── every rule moves on ─────────────────────────────────────────────────────

proof fn string_rest_moves_on(s: Seq<char>, pos: int, quote: char, read: Seq<char>)
    ensures
        string_rest(s, pos, quote, read) matches Some((_, end)) ==> pos < end <= s.len(),
    decreases s.len() - pos,
{
    if 0 <= pos < s.len() && s[pos] != quote {
        if s[pos] == '\\' {
            if pos + 1 < s.len() {
                string_rest_moves_on(s, pos + 2, quote, read + unescaped(s[pos + 1]));
            }
        } else {
            string_rest_moves_on(s, pos + 1, quote, read.push(s[pos]));
        }
    }
}

/// A value that is read ends after it starts, and within the text.
pub proof fn py_value_moves_on(s: Seq<char>, pos: int)
    ensures
        py_value(s, pos) matches Some((_, end)) ==> 0 <= pos < end <= s.len(),
    decreases s.len() - pos, 0int,
{
    if 0 <= pos < s.len() {
        ends_move_on(s, pos);
        ends_move_on(s, pos + 1);
        if s[pos] == '"' || s[pos] == '\'' {
            string_rest_moves_on(s, pos + 1, s[pos], Seq::empty());
        } else if s[pos] == '[' {
            past_white_moves_on(s, pos + 1);
            py_items_move_on(s, past_white(s, pos + 1), Seq::empty());
        } else if s[pos] == '{' {
            past_white_moves_on(s, pos + 1);
            py_pairs_move_on(s, past_white(s, pos + 1), Map::empty());
        } else if s[pos] == '-' || is_digit(s[pos]) {
            assert(number_end(s, pos) == number_end(s, pos + 1));
        }
    }
}

proof fn py_items_move_on(s: Seq<char>, pos: int, read: Seq<JsonView>)
    ensures
        py_items(s, pos, read) matches Some((_, end)) ==> 0 <= pos < end <= s.len(),
    decreases s.len() - pos, 1int,
{
    if !stands(s, pos, ']') {
        py_value_moves_on(s, pos);
        if let Some((v, end)) = py_value(s, pos) {
            let next = past_white(s, end);
            past_white_moves_on(s, end);
            past_white_moves_on(s, next + 1);
            if pos < end && stands(s, next, ',') {
                py_items_move_on(s, past_white(s, next + 1), read.push(v));
            }
        }
    }
}

proof fn py_pairs_move_on(s: Seq<char>, pos: int, read: Map<Seq<char>, JsonView>)
    ensures
        py_pairs(s, pos, read) matches Some((_, end)) ==> 0 <= pos < end <= s.len(),
    decreases s.len() - pos, 1int,
{
    if !stands(s, pos, '}') {
        py_value_moves_on(s, pos);
        if let Some((key, key_end)) = py_value(s, pos) {
            let colon = past_white(s, key_end);
            let from = past_white(s, colon + 1);
            past_white_moves_on(s, key_end);
            past_white_moves_on(s, colon + 1);
            if pos < key_end && stands(s, colon, ':') {
                py_value_moves_on(s, from);
                if let Some((v, end)) = py_value(s, from) {
                    let next = past_white(s, end);
                    past_white_moves_on(s, end);
                    past_white_moves_on(s, next + 1);
                    if from < end && stands(s, next, ',') {
                        py_pairs_move_on(
                            s,
                            past_white(s, next + 1),
                            read.insert(key_text(key), v),
                        );
                    }
                }
            }
        }
    }
}

proof fn py_keyword_arg_moves_on(s: Seq<char>, pos: int)
    ensures
        0 <= pos ==> (py_keyword_arg(s, pos) matches Some((_, end)) ==> pos < end <= s.len()),
{
    let name_end = ident_end(s, pos);
    let equals = past_white(s, name_end);
    ends_move_on(s, pos);
    past_white_moves_on(s, name_end);
    past_white_moves_on(s, equals + 1);
    py_value_moves_on(s, past_white(s, equals + 1));
}

proof fn py_args_move_on(s: Seq<char>, pos: int, read: Map<Seq<char>, JsonView>)
    ensures
        py_args(s, pos, read) matches Some((_, end)) ==> 0 <= pos < end <= s.len(),
    decreases s.len() - pos,
{
    if !stands(s, pos, ')') {
        py_keyword_arg_moves_on(s, pos);
        if let Some(((name, v), end)) = py_keyword_arg(s, pos) {
            let next = past_white(s, end);
            past_white_moves_on(s, end);
            past_white_moves_on(s, next + 1);
            if 0 <= pos < end && stands(s, next, ',') {
                py_args_move_on(s, past_white(s, next + 1), read.insert(name, v));
            }
        }
    }
}

proof fn py_call_moves_on(s: Seq<char>, pos: int)
    requires
        0 <= pos,
    ensures
        py_call(s, pos) matches Some((_, end)) ==> pos < end <= s.len(),
{
    let start = past_white(s, pos);
    past_white_moves_on(s, pos);
    let name_end = ident_end(s, start);
    ends_move_on(s, start);
    let paren = past_white(s, name_end);
    past_white_moves_on(s, name_end);
    past_white_moves_on(s, paren + 1);
    py_args_move_on(s, past_white(s, paren + 1), Map::empty());
}

// ── the parser ──────────────────────────────────────────────────────────────

/// A cursor over the characters of a payload.
pub struct PyParser {
    pub chars: Vec<char>,
    pub pos: usize,
}

impl PyParser {
    /// The cursor stands within the text or at its end.
    pub open spec fn wf(&self) -> bool {
        self.pos <= self.chars@.len()
    }

    /// `self` has moved on to `pos` in the text that `before` was over.
    pub open spec fn moved(&self, before: &PyParser, pos: int) -> bool {
        self.chars@ == before.chars@ && self.pos == pos && self.wf()
    }

    pub fn new(s: &str) -> (p: PyParser)
        ensures
            p.chars@ == s@,
            p.pos == 0,
            p.wf(),
    {
        PyParser { chars: chars_of(s), pos: 0 }
    }

    /// The character at the cursor.
    pub fn peek(&self) -> (c: Option<char>)
        ensures
            c == (if self.pos < self.chars@.len() {
                Some(self.chars@[self.pos as int])
            } else {
                None
            }),
    {
        if self.pos < self.chars.len() {
            Some(self.chars[self.pos])
        } else {
            None
        }
    }

    /// Whether `c` stands at the cursor.
    pub fn sees(&self, c: char) -> (yes: bool)
        ensures
            yes == stands(self.chars@, self.pos as int, c),
    {
        self.pos < self.chars.len() && self.chars[self.pos] == c
    }

    /// The character at the cursor, which moves past it.
    pub fn bump(&mut self) -> (c: Option<char>)
        requires
            old(self).wf(),
        ensures
            c == (if old(self).pos < old(self).chars@.len() {
                Some(old(self).chars@[old(self).pos as int])
            } else {
                None
            }),
            final(self).moved(
                old(self),
                if c is Some {
                    old(self).pos + 1
                } else {
                    old(self).pos as int
                },
            ),
    {
        let c = self.peek();
        if self.pos < self.chars.len() {
            self.pos = self.pos + 1;
        }
        c
    }

    /// Whether nothing is left.
    pub fn at_end(&self) -> (yes: bool)
        ensures
            yes == (self.pos >= self.chars@.len()),
    {
        self.pos >= self.chars.len()
    }

    /// Moves past whitespace.
    pub fn skip_ws(&mut self)
        requires
            old(self).wf(),
        ensures
            final(self).moved(old(self), past_white(old(self).chars@, old(self).pos as int)),
    {
        while self.pos < self.chars.len() && whitespace(self.chars[self.pos])
            invariant
                self.wf(),
                self.chars@ == old(self).chars@,
                past_white(old(self).chars@, old(self).pos as int) == past_white(
                    old(self).chars@,
                    self.pos as int,
                ),
            decreases self.chars@.len() - self.pos,
        {
            self.pos = self.pos + 1;
        }
    }

    /// Moves past `c`, which must be the next character. The character that
    /// stands there is read even where it is another one.
    pub fn expect(&mut self, c: char) -> (met: Option<()>)
        requires
            old(self).wf(),
        ensures
            met is Some <==> stands(old(self).chars@, old(self).pos as int, c),
            final(self).moved(
                old(self),
                if old(self).pos < old(self).chars@.len() {
                    old(self).pos + 1
                } else {
                    old(self).pos as int
                },
            ),
    {
        let seen: bool = self.sees(c);
        let _ = self.bump();
        if seen {
            Some(())
        } else {
            None
        }
    }

    /// The text between two positions.
    fn slice(&self, from: usize, to: usize) -> (text: String)
        requires
            from <= to <= self.chars@.len(),
        ensures
            text@ == self.chars@.subrange(from as int, to as int),
    {
        let head = head_of(self.chars.as_slice(), to);
        assert(head@.skip(from as int) =~= self.chars@.subrange(from as int, to as int));
        text_of(tail_of(head, from))
    }

    /// Reads an identifier, which is not empty.
    pub fn parse_ident(&mut self) -> (ident: Option<String>)
        requires
            old(self).wf(),
        ensures
            ({
                let from = old(self).pos as int;
                let end = ident_end(old(self).chars@, from);
                &&& from <= end
                &&& final(self).moved(old(self), end)
                &&& match ident {
                    Some(text) => from < end && text@ == old(self).chars@.subrange(from, end),
                    None => end == from,
                }
            }),
    {
        let start: usize = self.pos;
        while self.pos < self.chars.len() && (self.chars[self.pos].is_alphanumeric()
            || self.chars[self.pos] == '_')
            invariant
                self.wf(),
                start <= self.pos,
                start == old(self).pos,
                self.chars@ == old(self).chars@,
                ident_end(old(self).chars@, start as int) == ident_end(
                    old(self).chars@,
                    self.pos as int,
                ),
            decreases self.chars@.len() - self.pos,
        {
            self.pos = self.pos + 1;
        }
        if self.pos > start {
            Some(self.slice(start, self.pos))
        } else {
            None
        }
    }

    /// Reads a quoted string.
    pub fn parse_string(&mut self) -> (text: Option<String>)
        requires
            old(self).wf(),
        ensures
            final(self).chars@ == old(self).chars@,
            final(self).wf(),
            ({
                let s = old(self).chars@;
                let from = old(self).pos as int;
                if from < s.len() {
                    match string_rest(s, from + 1, s[from], Seq::empty()) {
                        Some((read, end)) => text matches Some(t) && t@ == read && final(self).pos
                            == end,
                        None => text is None,
                    }
                } else {
                    text is None
                }
            }),
    {
        let ghost s = self.chars@;
        let ghost from = self.pos as int;
        if self.pos >= self.chars.len() {
            return None;
        }
        let quote: char = self.chars[self.pos];
        self.pos = self.pos + 1;
        let mut out = String::new();
        while self.pos < self.chars.len()
            invariant
                self.wf(),
                self.chars@ == s,
                s == old(self).chars@,
                from == old(self).pos,
                from < s.len(),
                quote == s[from],
                string_rest(s, from + 1, quote, Seq::empty()) == string_rest(
                    s,
                    self.pos as int,
                    quote,
                    out@,
                ),
            decreases s.len() - self.pos,
        {
            let c: char = self.chars[self.pos];
            if c == quote {
                self.pos = self.pos + 1;
                return Some(out);
            }
            if c == '\\' {
                if self.pos + 1 >= self.chars.len() {
                    return None;
                }
                let e: char = self.chars[self.pos + 1];
                let ghost read = out@;
                if e == 'n' {
                    out.push('\n');
                } else if e == 't' {
                    out.push('\t');
                } else if e == 'r' {
                    out.push('\r');
                } else if e == '\\' || e == '\'' || e == '"' {
                    out.push(e);
                } else {
                    out.push('\\');
                    out.push(e);
                }
                assert(out@ =~= read + unescaped(e));
                self.pos = self.pos + 2;
            } else {
                out.push(c);
                self.pos = self.pos + 1;
            }
        }
        None
    }

    /// Reads a number.
    pub fn parse_number(&mut self) -> (value: Option<Json>)
        requires
            old(self).wf(),
        ensures
            ({
                let s = old(self).chars@;
                let from = old(self).pos as int;
                let end = number_end(s, from);
                &&& final(self).moved(old(self), end)
                &&& seen_json(value) == match json_of(s.subrange(from, end)) {
                    Some(v) => if v is Int || v is Real {
                        Some(v)
                    } else {
                        None
                    },
                    None => None,
                }
            }),
    {
        let start: usize = self.pos;
        while self.pos < self.chars.len() && (digit(self.chars[self.pos]) || self.chars[self.pos]
            == '.' || self.chars[self.pos] == 'e' || self.chars[self.pos] == 'E'
            || self.chars[self.pos] == '+' || self.chars[self.pos] == '-')
            invariant
                self.wf(),
                start <= self.pos,
                start == old(self).pos,
                self.chars@ == old(self).chars@,
                number_end(old(self).chars@, start as int) == number_end(
                    old(self).chars@,
                    self.pos as int,
                ),
            decreases self.chars@.len() - self.pos,
        {
            self.pos = self.pos + 1;
        }
        let raw = self.slice(start, self.pos);
        match parse(raw.as_str()) {
            Some(v) => match v {
                Json::Unsigned(_) | Json::Signed(_) | Json::Real(_) => Some(v),
                _ => None,
            },
            None => None,
        }
    }

    /// Reads `True`, `False` or `None`.
    pub fn parse_keyword(&mut self) -> (value: Option<Json>)
        requires
            old(self).wf(),
        ensures
            ({
                let s = old(self).chars@;
                let from = old(self).pos as int;
                let end = ident_end(s, from);
                &&& final(self).moved(old(self), end)
                &&& seen_json(value) == (if end == from {
                    None
                } else {
                    keyword(s.subrange(from, end))
                })
            }),
    {
        match self.parse_ident() {
            Some(word) => if same_text(word.as_str(), "True") {
                Some(Json::Bool(true))
            } else if same_text(word.as_str(), "False") {
                Some(Json::Bool(false))
            } else if same_text(word.as_str(), "None") {
                Some(Json::Null)
            } else {
                None
            },
            None => None,
        }
    }

    /// Reads a literal value.
    pub fn parse_value(&mut self) -> (value: Option<Json>)
        requires
            old(self).wf(),
        ensures
            final(self).chars@ == old(self).chars@,
            final(self).wf(),
            match py_value(old(self).chars@, old(self).pos as int) {
                Some((v, end)) => value matches Some(j) && j@ == v && final(self).pos == end,
                None => value is None,
            },
        decreases old(self).chars@.len() - old(self).pos, 1int,
    {
        let c = self.peek();
        match c {
            None => None,
            Some(c) => if c == '"' || c == '\'' {
                match self.parse_string() {
                    Some(text) => Some(Json::Str(text)),
                    None => None,
                }
            } else if c == '[' {
                self.parse_list()
            } else if c == '{' {
                self.parse_dict()
            } else if c == '-' || digit(c) {
                self.parse_number()
            } else {
                self.parse_keyword()
            },
        }
    }

    /// Reads a list.
    pub fn parse_list(&mut self) -> (value: Option<Json>)
        requires
            old(self).wf(),
        ensures
            final(self).chars@ == old(self).chars@,
            final(self).wf(),
            ({
                let s = old(self).chars@;
                let from = old(self).pos as int;
                if stands(s, from, '[') {
                    match py_items(s, past_white(s, from + 1), Seq::empty()) {
                        Some((items, end)) => value matches Some(j) && j@ == JsonView::Array(items)
                            && final(self).pos == end,
                        None => value is None,
                    }
                } else {
                    value is None
                }
            }),
        decreases old(self).chars@.len() - old(self).pos, 0int,
    {
        broadcast use crate::json::array_view;

        let ghost s = self.chars@;
        let ghost from = self.pos as int;
        if self.expect('[').is_none() {
            return None;
        }
        self.skip_ws();
        let ghost first = self.pos as int;
        proof {
            past_white_moves_on(s, from + 1);
        }
        let mut items: Vec<Json> = Vec::new();
        assert(views(items@) =~= Seq::empty());
        while !self.sees(']')
            invariant
                self.wf(),
                self.chars@ == s,
                s == old(self).chars@,
                from == old(self).pos,
                from < first <= self.pos,
                stands(s, from, '['),
                first == past_white(s, from + 1),
                py_items(s, first, Seq::empty()) == py_items(s, self.pos as int, views(items@)),
            decreases s.len() - self.pos,
        {
            let ghost pos = self.pos as int;
            let ghost read = views(items@);
            proof {
                py_value_moves_on(s, pos);
            }
            let v = match self.parse_value() {
                Some(v) => v,
                None => {
                    return None;
                },
            };
            let ghost end = self.pos as int;
            proof {
                past_white_moves_on(s, end);
            }
            self.skip_ws();
            let ghost next = self.pos as int;
            items.push(v);
            assert(views(items@) =~= read.push(v@));
            if self.sees(',') {
                let _ = self.bump();
                proof {
                    past_white_moves_on(s, next + 1);
                }
                self.skip_ws();
            } else if !self.sees(']') {
                return None;
            }
        }
        let _ = self.bump();
        Some(Json::Array(items))
    }

    /// Reads a dictionary.
    pub fn parse_dict(&mut self) -> (value: Option<Json>)
        requires
            old(self).wf(),
        ensures
            final(self).chars@ == old(self).chars@,
            final(self).wf(),
            ({
                let s = old(self).chars@;
                let from = old(self).pos as int;
                if stands(s, from, '{') {
                    match py_pairs(s, past_white(s, from + 1), Map::empty()) {
                        Some((members, end)) => value matches Some(j) && j@ == JsonView::Object(
                            members,
                        ) && final(self).pos == end,
                        None => value is None,
                    }
                } else {
                    value is None
                }
            }),
        decreases old(self).chars@.len() - old(self).pos, 0int,
    {
        let ghost s = self.chars@;
        let ghost from = self.pos as int;
        if self.expect('{').is_none() {
            return None;
        }
        self.skip_ws();
        let ghost first = self.pos as int;
        proof {
            past_white_moves_on(s, from + 1);
        }
        let mut members = JsonObject::new();
        while !self.sees('}')
            invariant
                self.wf(),
                self.chars@ == s,
                s == old(self).chars@,
                from == old(self).pos,
                from < first <= self.pos,
                stands(s, from, '{'),
                first == past_white(s, from + 1),
                py_pairs(s, first, Map::empty()) == py_pairs(s, self.pos as int, members@),
            decreases s.len() - self.pos,
        {
            let ghost pos = self.pos as int;
            proof {
                py_value_moves_on(s, pos);
            }
            let key = match self.parse_value() {
                Some(Json::Str(text)) => text,
                Some(other) => render(&other),
                None => {
                    return None;
                },
            };
            proof {
                past_white_moves_on(s, self.pos as int);
            }
            self.skip_ws();
            let ghost colon = self.pos as int;
            if self.expect(':').is_none() {
                return None;
            }
            proof {
                past_white_moves_on(s, colon + 1);
            }
            self.skip_ws();
            proof {
                py_value_moves_on(s, self.pos as int);
            }
            let v = match self.parse_value() {
                Some(v) => v,
                None => {
                    return None;
                },
            };
            proof {
                past_white_moves_on(s, self.pos as int);
            }
            self.skip_ws();
            let ghost next = self.pos as int;
            members.insert(key.as_str(), v);
            if self.sees(',') {
                let _ = self.bump();
                proof {
                    past_white_moves_on(s, next + 1);
                }
                self.skip_ws();
            } else if !self.sees('}') {
                return None;
            }
        }
        let _ = self.bump();
        Some(Json::Object(members))
    }

    /// Reads `key=value`. Only keyword arguments are read: without a name, a
    /// value has no place in the arguments object.
    pub fn parse_keyword_arg(&mut self) -> (arg: Option<(String, Json)>)
        requires
            old(self).wf(),
        ensures
            final(self).chars@ == old(self).chars@,
            final(self).wf(),
            match py_keyword_arg(old(self).chars@, old(self).pos as int) {
                Some(((name, v), end)) => arg matches Some(a) && a.0@ == name && a.1@ == v
                    && final(self).pos == end,
                None => arg is None,
            },
    {
        let ghost s = self.chars@;
        let key = match self.parse_ident() {
            Some(key) => key,
            None => {
                return None;
            },
        };
        self.skip_ws();
        if self.expect('=').is_none() {
            return None;
        }
        self.skip_ws();
        match self.parse_value() {
            Some(v) => Some((key, v)),
            None => None,
        }
    }

    /// Reads a call `name(key=value, ..)`.
    pub fn parse_call(&mut self) -> (call: Option<ToolCall>)
        requires
            old(self).wf(),
        ensures
            final(self).chars@ == old(self).chars@,
            final(self).wf(),
            match py_call(old(self).chars@, old(self).pos as int) {
                Some((c, end)) => call matches Some(t) && t@ == c && final(self).pos == end,
                None => call is None,
            },
    {
        let ghost s = self.chars@;
        self.skip_ws();
        let name = match self.parse_ident() {
            Some(name) => name,
            None => {
                return None;
            },
        };
        self.skip_ws();
        if self.expect('(').is_none() {
            return None;
        }
        self.skip_ws();
        let ghost first = self.pos as int;
        let mut args = JsonObject::new();
        while !self.sees(')')
            invariant
                self.wf(),
                self.chars@ == s,
                py_args(s, first, Map::empty()) == py_args(s, self.pos as int, args@),
                s == old(self).chars@,
                match py_args(s, first, Map::empty()) {
                    Some((a, end)) => py_call(s, old(self).pos as int) == Some(
                        (call_of(name@, a), end),
                    ),
                    None => py_call(s, old(self).pos as int) is None,
                },
            decreases s.len() - self.pos,
        {
            proof {
                py_keyword_arg_moves_on(s, self.pos as int);
            }
            let (key, value) = match self.parse_keyword_arg() {
                Some(arg) => arg,
                None => {
                    return None;
                },
            };
            proof {
                past_white_moves_on(s, self.pos as int);
            }
            self.skip_ws();
            let ghost next = self.pos as int;
            args.insert(key.as_str(), value);
            if self.sees(',') {
                let _ = self.bump();
                proof {
                    past_white_moves_on(s, next + 1);
                }
                self.skip_ws();
            } else if !self.sees(')') {
                return None;
            }
        }
        let _ = self.bump();
        Some(ToolCall { id: None, name, arguments: render(&Json::Object(args)) })
    }
}

/// Reads a call, or a list of calls, that is all there is in `s`.
pub fn parse_pythonic_calls(s: &str) -> (calls: Option<Vec<ToolCall>>)
    ensures
        match pythonic_calls(s@) {
            Some(views) => calls matches Some(list) && call_views(list@) == views,
            None => calls is None,
        },
{
    let mut p = PyParser::new(s);
    p.skip_ws();
    let ghost start = p.pos as int;
    let mut calls: Vec<ToolCall> = Vec::new();
    assert(call_views(calls@) =~= Seq::empty());
    if p.sees('[') {
        let _ = p.bump();
        p.skip_ws();
        let ghost first = p.pos as int;
        while !p.sees(']')
            invariant
                p.wf(),
                p.chars@ == s@,
                start == past_white(s@, 0),
                stands(s@, start, '['),
                first == past_white(s@, start + 1),
                py_calls(s@, first, Seq::empty()) == py_calls(s@, p.pos as int, call_views(calls@)),
            decreases s@.len() - p.pos,
        {
            let ghost read = call_views(calls@);
            proof {
                py_call_moves_on(s@, p.pos as int);
            }
            match p.parse_call() {
                Some(call) => {
                    calls.push(call);
                    assert(call_views(calls@) =~= read.push(call@));
                },
                None => {
                    return None;
                },
            }
            proof {
                past_white_moves_on(s@, p.pos as int);
            }
            p.skip_ws();
            let ghost next = p.pos as int;
            if p.sees(',') {
                let _ = p.bump();
                proof {
                    past_white_moves_on(s@, next + 1);
                }
                p.skip_ws();
            } else if !p.sees(']') {
                return None;
            }
        }
        if p.expect(']').is_none() {
            return None;
        }
    } else {
        match p.parse_call() {
            Some(call) => {
                calls.push(call);
                assert(call_views(calls@) =~= seq![call@]);
            },
            None => {
                return None;
            },
        }
    }
    p.skip_ws();
    if !p.at_end() {
        return None;
    }
    if calls.is_empty() {
        None
    } else {
        Some(calls)
    }
}

// ── laws ────────────────────────────────────────────────────────────────────

/// Skipping whitespace, an identifier or a number passes over such characters
/// alone, and over all of them.
pub proof fn runs_are_passed_over(s: Seq<char>, pos: int)
    requires
        0 <= pos <= s.len(),
    ensures
        ({
            let a = past_white(s, pos);
            &&& pos <= a <= s.len()
            &&& forall|i: int| pos <= i < a ==> is_white(#[trigger] s[i])
            &&& a < s.len() ==> !is_white(s[a])
        }),
        ({
            let b = ident_end(s, pos);
            &&& pos <= b <= s.len()
            &&& forall|i: int| pos <= i < b ==> is_alnum(#[trigger] s[i]) || s[i] == '_'
            &&& b < s.len() ==> !is_alnum(s[b]) && s[b] != '_'
        }),
        ({
            let c = number_end(s, pos);
            &&& pos <= c <= s.len()
            &&& forall|i: int|
                pos <= i < c ==> '0' <= #[trigger] s[i] <= '9' || s[i] == '.' || s[i] == 'e' || s[i]
                    == 'E' || s[i] == '+' || s[i] == '-'
            &&& c < s.len() ==> !('0' <= s[c] <= '9' || s[c] == '.' || s[c] == 'e' || s[c] == 'E'
                || s[c] == '+' || s[c] == '-')
        }),
    decreases s.len() - pos,
{
    if pos < s.len() {
        runs_are_passed_over(s, pos + 1);
    }
}

/// A string literal is read as it stands up to its quote.
pub proof fn plain_strings_are_read_as_they_stand(
    s: Seq<char>,
    pos: int,
    quote: char,
    read: Seq<char>,
    text: Seq<char>,
)
    requires
        0 <= pos,
        pos + text.len() < s.len(),
        s.subrange(pos, pos + text.len()) == text,
        s[pos + text.len()] == quote,
        !text.contains(quote),
        !text.contains('\\'),
    ensures
        string_rest(s, pos, quote, read) == Some((read + text, pos + text.len() + 1)),
    decreases text.len(),
{
    if text.len() == 0 {
        assert(read + text =~= read);
    } else {
        let rest = text.drop_first();
        assert(s[pos] == s.subrange(pos, pos + text.len())[0]);
        assert(text.contains(text[0]));
        assert(s.subrange(pos + 1, pos + 1 + rest.len()) =~= rest);
        assert forall|c: char| rest.contains(c) implies text.contains(c) by {
            let i = choose|i: int| 0 <= i < rest.len() && rest[i] == c;
            assert(text[i + 1] == c);
        }
        plain_strings_are_read_as_they_stand(s, pos + 1, quote, read.push(text[0]), rest);
        assert(read.push(text[0]) + rest =~= read + text);
    }
}

/// An escape in a string literal stands for one character where it is known, and
/// for itself where it is not; the string goes on behind it.
pub proof fn escapes_stand_for_characters(s: Seq<char>, pos: int, quote: char, read: Seq<char>)
    requires
        0 <= pos,
        pos + 1 < s.len(),
        s[pos] == '\\',
        quote != '\\',
    ensures
        ({
            let c = s[pos + 1];
            &&& c == 'n' ==> string_rest(s, pos, quote, read) == string_rest(
                s,
                pos + 2,
                quote,
                read.push('\n'),
            )
            &&& c == 't' ==> string_rest(s, pos, quote, read) == string_rest(
                s,
                pos + 2,
                quote,
                read.push('\t'),
            )
            &&& c == 'r' ==> string_rest(s, pos, quote, read) == string_rest(
                s,
                pos + 2,
                quote,
                read.push('\r'),
            )
            &&& c == '\\' || c == '\'' || c == '"' ==> string_rest(s, pos, quote, read)
                == string_rest(s, pos + 2, quote, read.push(c))
            &&& c != 'n' && c != 't' && c != 'r' && c != '\\' && c != '\'' && c != '"'
                ==> string_rest(s, pos, quote, read) == string_rest(
                s,
                pos + 2,
                quote,
                read.push('\\').push(c),
            )
        }),
{
    let c = s[pos + 1];
    assert(read + seq!['\n'] =~= read.push('\n'));
    assert(read + seq!['\t'] =~= read.push('\t'));
    assert(read + seq!['\r'] =~= read.push('\r'));
    assert(read + seq![c] =~= read.push(c));
    assert(read + seq!['\\', c] =~= read.push('\\').push(c));
}

/// The words of Python for the booleans and for nothing are read as those, and no
/// other word is a value.
pub proof fn words_are_values(word: Seq<char>)
    ensures
        keyword("True"@) == Some(JsonView::Bool(true)),
        keyword("False"@) == Some(JsonView::Bool(false)),
        keyword("None"@) == Some(JsonView::Null),
        word != "True"@ && word != "False"@ && word != "None"@ ==> keyword(word) is None,
{
    reveal_strlit("True");
    reveal_strlit("False");
    reveal_strlit("None");
    assert("True"@[0] == 'T' && "False"@[0] == 'F' && "None"@[0] == 'N');
}

/// What stands at a place tells how a value is read from there.
pub proof fn values_are_read_by_their_first_character(s: Seq<char>, pos: int)
    requires
        0 <= pos < s.len(),
    ensures
        ({
            let c = s[pos];
            let inner = past_white(s, pos + 1);
            &&& c == '"' || c == '\'' ==> py_value(s, pos) == (match string_rest(
                s,
                pos + 1,
                c,
                Seq::empty(),
            ) {
                Some((text, end)) => Some((JsonView::Str(text), end)),
                None => None,
            })
            &&& c == '[' ==> py_value(s, pos) == (match py_items(s, inner, Seq::empty()) {
                Some((items, end)) => Some((JsonView::Array(items), end)),
                None => None,
            })
            &&& c == '{' ==> py_value(s, pos) == (match py_pairs(s, inner, Map::empty()) {
                Some((members, end)) => Some((JsonView::Object(members), end)),
                None => None,
            })
            &&& c == '-' || '0' <= c <= '9' ==> py_value(s, pos) == (match json_of(
                s.subrange(pos, number_end(s, pos)),
            ) {
                Some(JsonView::Int(n)) => Some((JsonView::Int(n), number_end(s, pos))),
                Some(JsonView::Real(t)) => Some((JsonView::Real(t), number_end(s, pos))),
                _ => None,
            })
        }),
{
}

proof fn items_after(s: Seq<char>, pos: int, read: Seq<JsonView>)
    ensures
        py_items(s, pos, read) == (match py_items(s, pos, Seq::empty()) {
            Some((items, end)) => Some((read + items, end)),
            None => None,
        }),
    decreases s.len() - pos,
{
    let none = Seq::<JsonView>::empty();
    assert(read + none =~= read);
    if !stands(s, pos, ']') {
        py_value_moves_on(s, pos);
        if let Some((v, end)) = py_value(s, pos) {
            let next = past_white(s, end);
            past_white_moves_on(s, end);
            past_white_moves_on(s, next + 1);
            assert(read.push(v) =~= read + none.push(v));
            if stands(s, next, ',') {
                let from = past_white(s, next + 1);
                items_after(s, from, read.push(v));
                items_after(s, from, none.push(v));
                if let Some((items, _)) = py_items(s, from, none) {
                    assert(read.push(v) + items =~= read + (none.push(v) + items));
                }
            }
        }
    }
}

/// Every item of a list is read, in their order: the first and then those behind
/// its comma, up to the bracket. Anything else is no list.
pub proof fn lists_are_read_item_by_item(s: Seq<char>, pos: int)
    ensures
        stands(s, pos, ']') ==> py_items(s, pos, Seq::empty()) == Some(
            (Seq::<JsonView>::empty(), pos + 1),
        ),
        !stands(s, pos, ']') ==> (match py_value(s, pos) {
            None => py_items(s, pos, Seq::empty()) is None,
            Some((v, end)) => {
                let next = past_white(s, end);
                if stands(s, next, ',') {
                    match py_items(s, past_white(s, next + 1), Seq::empty()) {
                        Some((rest, last)) => py_items(s, pos, Seq::empty()) == Some(
                            (seq![v] + rest, last),
                        ),
                        None => py_items(s, pos, Seq::empty()) is None,
                    }
                } else if stands(s, next, ']') {
                    py_items(s, pos, Seq::empty()) == Some((seq![v], next + 1))
                } else {
                    py_items(s, pos, Seq::empty()) is None
                }
            },
        }),
{
    let none = Seq::<JsonView>::empty();
    py_value_moves_on(s, pos);
    if let Some((v, end)) = py_value(s, pos) {
        assert(none.push(v) =~= seq![v]);
        items_after(s, past_white(s, past_white(s, end) + 1), seq![v]);
    }
}

/// Every pair of a dictionary is read, in their order, a later one of a name in
/// place of an earlier one; anything else is no dictionary.
pub proof fn dictionaries_are_read_pair_by_pair(
    s: Seq<char>,
    pos: int,
    read: Map<Seq<char>, JsonView>,
)
    requires
        !stands(s, pos, '}'),
    ensures
        match py_value(s, pos) {
            None => py_pairs(s, pos, read) is None,
            Some((key, key_end)) => {
                let colon = past_white(s, key_end);
                if !stands(s, colon, ':') {
                    py_pairs(s, pos, read) is None
                } else {
                    match py_value(s, past_white(s, colon + 1)) {
                        None => py_pairs(s, pos, read) is None,
                        Some((v, end)) => {
                            let next = past_white(s, end);
                            let name = match key {
                                JsonView::Str(text) => text,
                                _ => json_text(key),
                            };
                            if stands(s, next, ',') {
                                py_pairs(s, pos, read) == py_pairs(
                                    s,
                                    past_white(s, next + 1),
                                    read.insert(name, v),
                                )
                            } else if stands(s, next, '}') {
                                py_pairs(s, pos, read) == Some((read.insert(name, v), next + 1))
                            } else {
                                py_pairs(s, pos, read) is None
                            }
                        },
                    }
                }
            },
        },
        forall|at: int| #[trigger]
            stands(s, at, '}') ==> py_pairs(s, at, read) == Some((read, at + 1)),
{
    py_value_moves_on(s, pos);
    if let Some((_, key_end)) = py_value(s, pos) {
        py_value_moves_on(s, past_white(s, past_white(s, key_end) + 1));
    }
}

/// Every argument of a call is read, in their order: a name, an equals sign and a
/// value. An argument without a name is none.
pub proof fn arguments_are_read_one_by_one(
    s: Seq<char>,
    pos: int,
    read: Map<Seq<char>, JsonView>,
)
    requires
        0 <= pos,
        !stands(s, pos, ')'),
    ensures
        ({
            let name_end = ident_end(s, pos);
            let equals = past_white(s, name_end);
            let from = past_white(s, equals + 1);
            if name_end == pos || !stands(s, equals, '=') || py_value(s, from) is None {
                py_args(s, pos, read) is None
            } else {
                let (v, end) = py_value(s, from)->0;
                let next = past_white(s, end);
                let now = read.insert(s.subrange(pos, name_end), v);
                if stands(s, next, ',') {
                    py_args(s, pos, read) == py_args(s, past_white(s, next + 1), now)
                } else if stands(s, next, ')') {
                    py_args(s, pos, read) == Some((now, next + 1))
                } else {
                    py_args(s, pos, read) is None
                }
            }
        }),
        forall|at: int| #[trigger]
            stands(s, at, ')') ==> py_args(s, at, read) == Some((read, at + 1)),
{
    if pos <= s.len() {
        runs_are_passed_over(s, pos);
    }
    let name_end = ident_end(s, pos);
    past_white_moves_on(s, name_end);
    let equals = past_white(s, name_end);
    past_white_moves_on(s, equals + 1);
    py_value_moves_on(s, past_white(s, equals + 1));
}

/// A call is a name and, in parentheses, its arguments.
pub proof fn a_call_is_a_name_and_arguments(s: Seq<char>, pos: int)
    ensures
        ({
            let start = past_white(s, pos);
            let name_end = ident_end(s, start);
            let paren = past_white(s, name_end);
            let inner = past_white(s, paren + 1);
            if name_end > start && stands(s, paren, '(') && py_args(s, inner, Map::empty()) is Some {
                let (args, end) = py_args(s, inner, Map::empty())->0;
                py_call(s, pos) == Some(
                    (
                        CallView {
                            id: None,
                            name: s.subrange(start, name_end),
                            arguments: json_text(JsonView::Object(args)),
                        },
                        end,
                    ),
                )
            } else {
                name_end >= start ==> py_call(s, pos) is None
            }
        }),
{
}

proof fn args_move_on(s: Seq<char>, pos: int, read: Map<Seq<char>, JsonView>)
    requires
        0 <= pos,
    ensures
        py_args(s, pos, read) matches Some((_, end)) ==> pos < end <= s.len(),
    decreases s.len() - pos,
{
    if !stands(s, pos, ')') {
        if let Some(((name, v), end)) = py_keyword_arg(s, pos) {
            let next = past_white(s, end);
            past_white_moves_on(s, end);
            past_white_moves_on(s, next + 1);
            if 0 <= pos < end && stands(s, next, ',') {
                args_move_on(s, past_white(s, next + 1), read.insert(name, v));
            }
        }
    }
}

proof fn call_moves_on(s: Seq<char>, pos: int)
    requires
        0 <= pos,
    ensures
        py_call(s, pos) matches Some((_, end)) ==> pos < end <= s.len(),
{
    let start = past_white(s, pos);
    past_white_moves_on(s, pos);
    ident_moves_on(s, start);
    let name_end = ident_end(s, start);
    past_white_moves_on(s, name_end);
    let paren = past_white(s, name_end);
    past_white_moves_on(s, paren + 1);
    args_move_on(s, past_white(s, paren + 1), Map::empty());
}

proof fn ident_moves_on(s: Seq<char>, pos: int)
    ensures
        pos <= ident_end(s, pos),
    decreases s.len() - pos,
{
    if 0 <= pos < s.len() && is_ident_char(s[pos]) {
        ident_moves_on(s, pos + 1);
    }
}

proof fn calls_after(s: Seq<char>, pos: int, read: Seq<CallView>)
    requires
        0 <= pos,
    ensures
        py_calls(s, pos, read) == (match py_calls(s, pos, Seq::empty()) {
            Some((calls, end)) => Some((read + calls, end)),
            None => None,
        }),
    decreases s.len() - pos,
{
    let none = Seq::<CallView>::empty();
    assert(read + none =~= read);
    if !stands(s, pos, ']') {
        call_moves_on(s, pos);
        if let Some((call, end)) = py_call(s, pos) {
            let next = past_white(s, end);
            past_white_moves_on(s, end);
            past_white_moves_on(s, next + 1);
            assert(read.push(call) =~= read + none.push(call));
            if stands(s, next, ',') {
                let from = past_white(s, next + 1);
                calls_after(s, from, read.push(call));
                calls_after(s, from, none.push(call));
                if let Some((calls, _)) = py_calls(s, from, none) {
                    assert(read.push(call) + calls =~= read + (none.push(call) + calls));
                }
            }
        }
    }
}

/// Every call of a list is read, in their order: the first, and then those behind
/// its comma, up to the bracket.
pub proof fn calls_are_read_one_by_one(s: Seq<char>, pos: int)
    requires
        0 <= pos,
    ensures
        stands(s, pos, ']') ==> py_calls(s, pos, Seq::empty()) == Some(
            (Seq::<CallView>::empty(), pos + 1),
        ),
        !stands(s, pos, ']') ==> (match py_call(s, pos) {
            None => py_calls(s, pos, Seq::empty()) is None,
            Some((call, end)) => {
                let next = past_white(s, end);
                if stands(s, next, ',') {
                    match py_calls(s, past_white(s, next + 1), Seq::empty()) {
                        Some((rest, last)) => py_calls(s, pos, Seq::empty()) == Some(
                            (seq![call] + rest, last),
                        ),
                        None => py_calls(s, pos, Seq::empty()) is None,
                    }
                } else if stands(s, next, ']') {
                    py_calls(s, pos, Seq::empty()) == Some((seq![call], next + 1))
                } else {
                    py_calls(s, pos, Seq::empty()) is None
                }
            },
        }),
{
    let none = Seq::<CallView>::empty();
    call_moves_on(s, pos);
    if let Some((call, end)) = py_call(s, pos) {
        let next = past_white(s, end);
        past_white_moves_on(s, end);
        past_white_moves_on(s, next + 1);
        assert(none.push(call) =~= seq![call]);
        calls_after(s, past_white(s, next + 1), seq![call]);
    }
}

/// Python text is one call or a list of calls, and nothing else beside it.
pub proof fn python_text_is_calls_and_nothing_else(s: Seq<char>)
    ensures
        ({
            let start = past_white(s, 0);
            let list = py_calls(s, past_white(s, start + 1), Seq::empty());
            let one = py_call(s, start);
            &&& stands(s, start, '[') && list is Some && (list->0).0.len() > 0 && past_white(
                s,
                (list->0).1,
            ) == s.len() ==> pythonic_calls(s) == Some((list->0).0)
            &&& !stands(s, start, '[') && one is Some && past_white(s, (one->0).1) == s.len()
                ==> pythonic_calls(s) == Some(seq![(one->0).0])
            &&& stands(s, start, '[') && pythonic_calls(s) is Some ==> list is Some && (list->0).0
                == pythonic_calls(s)->0 && past_white(s, (list->0).1) == s.len()
            &&& !stands(s, start, '[') && pythonic_calls(s) is Some ==> one is Some && pythonic_calls(
                s,
            )->0 == seq![(one->0).0] && past_white(s, (one->0).1) == s.len()
        }),
{
}

} // verus!
