//! Text as a sequence of characters: the searching, trimming, splitting and
//! number formatting that the rest of the library states its contracts with.
use vstd::prelude::*;
use vstd::slice::slice_subrange;

verus! {

broadcast use vstd::seq_lib::group_seq_properties;

// ── trusted: std's text types ───────────────────────────────────────────────

/// `str`'s `==`: claimed to compare the two texts character by character.
pub assume_specification[ <str as PartialEq>::eq ](a: &str, b: &str) -> (same: bool)
    ensures
        same == (a@ == b@),
;

/// `String::push`: claimed to add the character at the end.
pub assume_specification[ std::string::String::push ](text: &mut std::string::String, c: char)
    ensures
        final(text)@ == old(text)@.push(c),
;

/// What `char::is_alphanumeric` answers.
pub uninterp spec fn is_alnum(c: char) -> bool;

/// `char::is_alphanumeric`: claimed to depend on the character alone, and to
/// hold of an ASCII character exactly where it is a letter or a digit.
pub assume_specification[ char::is_alphanumeric ](c: char) -> (yes: bool)
    ensures
        yes == is_alnum(c),
        (c as int) < 128 ==> yes == is_ascii_alnum(c),
;

// ── characters ──────────────────────────────────────────────────────────────

/// The Unicode `White_Space` property.
pub open spec fn is_white(c: char) -> bool {
    let n = c as int;
    ||| 9 <= n <= 13
    ||| n == 32
    ||| n == 0x85
    ||| n == 0xA0
    ||| n == 0x1680
    ||| 0x2000 <= n <= 0x200A
    ||| n == 0x2028
    ||| n == 0x2029
    ||| n == 0x202F
    ||| n == 0x205F
    ||| n == 0x3000
}

pub fn whitespace(c: char) -> (white: bool)
    ensures
        white == is_white(c),
{
    let n: u32 = c as u32;
    (9 <= n && n <= 13) || n == 32 || n == 0x85 || n == 0xA0 || n == 0x1680 || (0x2000 <= n && n
        <= 0x200A) || n == 0x2028 || n == 0x2029 || n == 0x202F || n == 0x205F || n == 0x3000
}

/// An ASCII decimal digit.
pub open spec fn is_digit(c: char) -> bool {
    '0' <= c <= '9'
}

pub fn digit(c: char) -> (yes: bool)
    ensures
        yes == is_digit(c),
{
    '0' <= c && c <= '9'
}

/// An ASCII letter or digit.
pub open spec fn is_ascii_alnum(c: char) -> bool {
    is_digit(c) || 'a' <= c <= 'z' || 'A' <= c <= 'Z'
}

pub fn ascii_alnum(c: char) -> (yes: bool)
    ensures
        yes == is_ascii_alnum(c),
{
    digit(c) || ('a' <= c && c <= 'z') || ('A' <= c && c <= 'Z')
}

/// `c` with an ASCII capital letter made small.
pub open spec fn ascii_lower(c: char) -> char {
    if 'A' <= c <= 'Z' {
        (c as int + 32) as char
    } else {
        c
    }
}

pub fn lower(c: char) -> (l: char)
    ensures
        l == ascii_lower(c),
{
    if 'A' <= c && c <= 'Z' {
        ((c as u8) + 32) as char
    } else {
        c
    }
}

/// A text with every ASCII capital letter made small.
pub open spec fn lowered(s: Seq<char>) -> Seq<char> {
    Seq::new(s.len(), |i: int| ascii_lower(s[i]))
}

// ── between text and characters ─────────────────────────────────────────────

/// The characters of a text.
pub fn chars_of(text: &str) -> (chars: Vec<char>)
    ensures
        chars@ == text@,
{
    let mut chars: Vec<char> = Vec::new();
    for c in it: text.chars()
        invariant
            chars@ == it.seq().take(it.index()),
    {
        chars.push(c);
    }
    chars
}

/// The text that a run of characters makes.
pub fn text_of(chars: &[char]) -> (text: String)
    ensures
        text@ == chars@,
{
    let mut text = String::new();
    for i in 0..chars.len()
        invariant
            text@ == chars@.take(i as int),
    {
        text.push(chars[i]);
        assert(chars@.take(i + 1) == chars@.take(i as int).push(chars@[i as int]));
    }
    assert(chars@.take(chars@.len() as int) == chars@);
    text
}

/// A text with every ASCII capital letter made small.
pub fn to_lowered(text: &str) -> (low: String)
    ensures
        low@ == lowered(text@),
{
    let chars = chars_of(text);
    let mut low = String::new();
    for i in 0..chars.len()
        invariant
            chars@ == text@,
            low@ == lowered(text@).take(i as int),
    {
        low.push(lower(chars[i]));
        assert(lowered(text@).take(i + 1) == lowered(text@).take(i as int).push(
            lowered(text@)[i as int],
        ));
    }
    assert(lowered(text@).take(text@.len() as int) == lowered(text@));
    low
}

/// Whether two texts are equal but for the case of ASCII letters.
pub fn same_lowered(a: &str, b: &str) -> (same: bool)
    ensures
        same == (lowered(a@) == lowered(b@)),
{
    to_lowered(a) == to_lowered(b)
}

/// Whether two texts are equal.
pub fn same_text(a: &str, b: &str) -> (equal: bool)
    ensures
        equal == (a@ == b@),
{
    *a == *b
}

// ── searching ───────────────────────────────────────────────────────────────

/// Whether `p` stands in `s` at position `i`.
pub open spec fn occurs_at(s: Seq<char>, p: Seq<char>, i: int) -> bool {
    0 <= i && i + p.len() <= s.len() && s.subrange(i, i + p.len()) == p
}

/// The first position at or after `from` where `p` stands in `s`.
pub open spec fn find_from(s: Seq<char>, p: Seq<char>, from: int) -> Option<int>
    decreases s.len() - from + 1,
{
    if from < 0 || from + p.len() > s.len() {
        None
    } else if occurs_at(s, p, from) {
        Some(from)
    } else {
        find_from(s, p, from + 1)
    }
}

/// The first position of `p` in `s`.
pub open spec fn find(s: Seq<char>, p: Seq<char>) -> Option<int> {
    find_from(s, p, 0)
}

pub open spec fn starts_with(s: Seq<char>, p: Seq<char>) -> bool {
    occurs_at(s, p, 0)
}

pub open spec fn contains(s: Seq<char>, p: Seq<char>) -> bool {
    exists|i: int| occurs_at(s, p, i)
}

/// The position that a search finds is an occurrence, and the first one.
pub proof fn find_from_is_first(s: Seq<char>, p: Seq<char>, from: int)
    requires
        0 <= from,
    ensures
        match find_from(s, p, from) {
            Some(at) => from <= at && occurs_at(s, p, at) && forall|i: int|
                from <= i < at ==> !occurs_at(s, p, i),
            None => forall|i: int| from <= i ==> !occurs_at(s, p, i),
        },
    decreases s.len() - from + 1,
{
    if from + p.len() > s.len() {
    } else if occurs_at(s, p, from) {
    } else {
        find_from_is_first(s, p, from + 1);
    }
}

/// A text contains a pattern exactly where a search finds it.
pub proof fn find_is_contains(s: Seq<char>, p: Seq<char>)
    ensures
        contains(s, p) <==> find(s, p) is Some,
{
    find_from_is_first(s, p, 0);
}

pub fn is_at(s: &[char], p: &[char], i: usize) -> (yes: bool)
    ensures
        yes == occurs_at(s@, p@, i as int),
{
    if i > s.len() || p.len() > s.len() - i {
        return false;
    }
    for j in 0..p.len()
        invariant
            i + p@.len() <= s@.len() <= usize::MAX,
            forall|k: int| 0 <= k < j ==> s@[i + k] == p@[k],
    {
        if s[i + j] != p[j] {
            assert(s@.subrange(i as int, i + p@.len())[j as int] != p@[j as int]);
            return false;
        }
    }
    assert(s@.subrange(i as int, i + p@.len()) =~= p@);
    true
}

pub fn search_from(s: &[char], p: &[char], from: usize) -> (at: Option<usize>)
    ensures
        match at {
            Some(i) => find_from(s@, p@, from as int) == Some(i as int) && from <= i && i + p@.len()
                <= s@.len() <= usize::MAX,
            None => find_from(s@, p@, from as int) is None,
        },
{
    if p.len() > s.len() {
        return None;
    }
    let last: usize = s.len() - p.len();
    let mut i: usize = from;
    while i <= last
        invariant
            from <= i,
            last == s@.len() - p@.len(),
            s@.len() <= usize::MAX,
            find_from(s@, p@, from as int) == find_from(s@, p@, i as int),
        decreases last + 1 - i,
    {
        if is_at(s, p, i) {
            return Some(i);
        }
        if i == last {
            assert(find_from(s@, p@, i + 1) is None);
            return None;
        }
        i = i + 1;
    }
    None
}

/// The first position of `p` in `s`.
pub fn search(s: &[char], p: &str) -> (at: Option<usize>)
    ensures
        match at {
            Some(i) => find(s@, p@) == Some(i as int) && i + p@.len() <= s@.len() <= usize::MAX,
            None => find(s@, p@) is None,
        },
{
    let p = chars_of(p);
    search_from(s, p.as_slice(), 0)
}

pub fn begins(text: &str, p: &str) -> (yes: bool)
    ensures
        yes == starts_with(text@, p@),
{
    is_at(chars_of(text).as_slice(), chars_of(p).as_slice(), 0)
}

pub fn includes(text: &str, p: &str) -> (yes: bool)
    ensures
        yes == contains(text@, p@),
{
    proof {
        find_is_contains(text@, p@);
    }
    search(chars_of(text).as_slice(), p).is_some()
}

// ── trimming ────────────────────────────────────────────────────────────────

/// `s` without the whitespace it starts with.
pub open spec fn trim_start(s: Seq<char>) -> Seq<char>
    decreases s.len(),
{
    if s.len() > 0 && is_white(s[0]) {
        trim_start(s.drop_first())
    } else {
        s
    }
}

/// `s` without the whitespace it ends with.
pub open spec fn trim_end(s: Seq<char>) -> Seq<char>
    decreases s.len(),
{
    if s.len() > 0 && is_white(s.last()) {
        trim_end(s.drop_last())
    } else {
        s
    }
}

/// `s` without the whitespace around it.
pub open spec fn trim(s: Seq<char>) -> Seq<char> {
    trim_end(trim_start(s))
}

pub fn trimmed_start(s: &[char]) -> (t: &[char])
    ensures
        t@ == trim_start(s@),
{
    let mut i: usize = 0;
    while i < s.len() && whitespace(s[i])
        invariant
            i <= s@.len(),
            trim_start(s@) == trim_start(s@.skip(i as int)),
        decreases s@.len() - i,
    {
        assert(s@.skip(i as int).drop_first() =~= s@.skip(i + 1));
        i = i + 1;
    }
    assert(s@.skip(i as int) =~= s@.subrange(i as int, s@.len() as int));
    slice_subrange(s, i, s.len())
}

pub fn trimmed_end(s: &[char]) -> (t: &[char])
    ensures
        t@ == trim_end(s@),
{
    let mut n: usize = s.len();
    assert(s@.take(n as int) =~= s@);
    while n > 0 && whitespace(s[n - 1])
        invariant
            n <= s@.len(),
            trim_end(s@) == trim_end(s@.take(n as int)),
        decreases n,
    {
        assert(s@.take(n as int).drop_last() =~= s@.take(n - 1));
        n = n - 1;
    }
    assert(s@.take(n as int) =~= s@.subrange(0, n as int));
    slice_subrange(s, 0, n)
}

pub fn trimmed(s: &[char]) -> (t: &[char])
    ensures
        t@ == trim(s@),
{
    trimmed_end(trimmed_start(s))
}

pub fn trimmed_text(text: &str) -> (t: String)
    ensures
        t@ == trim(text@),
{
    let chars = chars_of(text);
    text_of(trimmed(chars.as_slice()))
}

// ── order ───────────────────────────────────────────────────────────────────

/// The order in which texts are sorted: the first differing character decides,
/// and a text comes after its own beginnings.
pub open spec fn before(a: Seq<char>, b: Seq<char>) -> bool
    decreases a.len(),
{
    if b.len() == 0 {
        false
    } else if a.len() == 0 {
        true
    } else if a[0] != b[0] {
        a[0] < b[0]
    } else {
        before(a.drop_first(), b.drop_first())
    }
}

/// The order of texts is strict and total.
pub proof fn before_is_total(a: Seq<char>, b: Seq<char>)
    ensures
        !before(a, a),
        !(before(a, b) && before(b, a)),
        a == b || before(a, b) || before(b, a),
    decreases a.len(),
{
    if a.len() > 0 && b.len() > 0 {
        before_is_total(a.drop_first(), b.drop_first());
        if a[0] == b[0] && a.drop_first() == b.drop_first() {
            assert(a =~= seq![a[0]] + a.drop_first());
            assert(b =~= seq![b[0]] + b.drop_first());
        }
        before_is_total(a.drop_first(), a.drop_first());
    } else if a.len() > 0 {
        before_is_total(a.drop_first(), a.drop_first());
    }
}

/// The order of texts is transitive.
pub proof fn before_is_transitive(a: Seq<char>, b: Seq<char>, c: Seq<char>)
    requires
        before(a, b),
        before(b, c),
    ensures
        before(a, c),
    decreases a.len(),
{
    if a.len() > 0 && a[0] == b[0] && b[0] == c[0] {
        before_is_transitive(a.drop_first(), b.drop_first(), c.drop_first());
    }
}

/// Whether `a` sorts before `b`.
pub fn sorts_before(a: &str, b: &str) -> (yes: bool)
    ensures
        yes == before(a@, b@),
{
    let x = chars_of(a);
    let y = chars_of(b);
    let mut i: usize = 0;
    assert(x@.skip(0) =~= x@);
    assert(y@.skip(0) =~= y@);
    while i < x.len() && i < y.len() && x[i] == y[i]
        invariant
            x@ == a@,
            y@ == b@,
            i <= x@.len(),
            i <= y@.len(),
            before(a@, b@) == before(x@.skip(i as int), y@.skip(i as int)),
        decreases x@.len() - i,
    {
        assert(x@.skip(i as int).drop_first() =~= x@.skip(i + 1));
        assert(y@.skip(i as int).drop_first() =~= y@.skip(i + 1));
        i = i + 1;
    }
    if i == y.len() {
        false
    } else if i == x.len() {
        true
    } else {
        x[i] < y[i]
    }
}

// ── numbers ─────────────────────────────────────────────────────────────────

/// The character of a decimal digit.
pub open spec fn digit_char(d: int) -> char {
    ('0' as int + d) as char
}

/// A natural number in decimal, without leading zeros.
pub open spec fn decimal(n: nat) -> Seq<char>
    decreases n,
{
    if n < 10 {
        seq![digit_char(n as int)]
    } else {
        decimal(n / 10).push(digit_char((n % 10) as int))
    }
}

/// An integer in decimal, with a minus sign before a negative one.
pub open spec fn signed_decimal(n: int) -> Seq<char> {
    if n < 0 {
        seq!['-'] + decimal((-n) as nat)
    } else {
        decimal(n as nat)
    }
}

/// `text` with zeros before it until it is `width` characters long.
pub open spec fn zero_padded(text: Seq<char>, width: nat) -> Seq<char>
    decreases width - text.len(),
{
    if text.len() >= width {
        text
    } else {
        zero_padded(seq!['0'] + text, width)
    }
}

pub fn digit_of(d: u8) -> (c: char)
    requires
        d < 10,
    ensures
        c == digit_char(d as int),
{
    (48 + d) as char
}

pub fn decimal_text(n: u64) -> (text: String)
    ensures
        text@ == decimal(n as nat),
    decreases n,
{
    if n < 10 {
        let mut text = String::new();
        text.push(digit_of(n as u8));
        assert(text@ =~= decimal(n as nat));
        text
    } else {
        let mut text = decimal_text(n / 10);
        text.push(digit_of((n % 10) as u8));
        text
    }
}

pub fn signed_text(n: i64) -> (text: String)
    ensures
        text@ == signed_decimal(n as int),
{
    if n < 0 {
        let mut text = String::new();
        text.push('-');
        let magnitude: u64 = if n == i64::MIN {
            9223372036854775808
        } else {
            (-n) as u64
        };
        text.append(decimal_text(magnitude).as_str());
        assert(text@ =~= signed_decimal(n as int));
        text
    } else {
        decimal_text(n as u64)
    }
}

/// `text` with zeros before it until it is `width` characters long.
pub fn pad_zeros(text: &str, width: usize) -> (padded: String)
    ensures
        padded@ == zero_padded(text@, width as nat),
{
    let mut padded = text.to_owned();
    let mut n: usize = padded.as_str().unicode_len();
    while n < width
        invariant
            n == padded@.len(),
            zero_padded(text@, width as nat) == zero_padded(padded@, width as nat),
        decreases width - n,
    {
        padded = "0".to_owned().concat(padded.as_str());
        proof {
            reveal_strlit("0");
            assert("0"@ =~= seq!['0']);
        }
        n = n + 1;
    }
    padded
}

// ── splitting ───────────────────────────────────────────────────────────────

/// `s` up to the first `token`, or all of it where there is none.
pub open spec fn cut(s: Seq<char>, token: Seq<char>) -> Seq<char> {
    match find(s, token) {
        Some(i) => s.take(i),
        None => s,
    }
}

/// `s` after the first `token`.
pub open spec fn past(s: Seq<char>, token: Seq<char>) -> Option<Seq<char>> {
    match find(s, token) {
        Some(i) => Some(s.skip(i + token.len())),
        None => None,
    }
}

/// What stands between the occurrences of `token` in `s`.
pub open spec fn split(s: Seq<char>, token: Seq<char>) -> Seq<Seq<char>>
    decreases s.len(),
{
    match find(s, token) {
        Some(i) => {
            proof {
                find_from_is_first(s, token, 0);
            }
            if token.len() == 0 {
                seq![s]
            } else {
                seq![s.take(i)] + split(s.skip(i + token.len()), token)
            }
        },
        None => seq![s],
    }
}

/// A line without the carriage return that may end it.
pub open spec fn without_return(line: Seq<char>) -> Seq<char> {
    if line.len() > 0 && line.last() == '\r' {
        line.drop_last()
    } else {
        line
    }
}

/// The lines of a text: they end at a line feed, which a carriage return may
/// precede; the last one need not be ended.
pub open spec fn lines(s: Seq<char>) -> Seq<Seq<char>>
    decreases s.len(),
{
    if s.len() == 0 {
        Seq::empty()
    } else {
        match find(s, seq!['\n']) {
            Some(i) => {
                proof {
                    find_from_is_first(s, seq!['\n'], 0);
                }
                seq![without_return(s.take(i))] + lines(s.skip(i + 1))
            },
            None => seq![s],
        }
    }
}

/// Texts by their views.
pub open spec fn texts(list: Seq<String>) -> Seq<Seq<char>> {
    list.map_values(|t: String| t@)
}

/// Borrowed texts by their views.
pub open spec fn strs(list: Seq<&str>) -> Seq<Seq<char>> {
    list.map_values(|t: &str| t@)
}

/// Runs of characters by their views.
pub open spec fn runs(list: Seq<&[char]>) -> Seq<Seq<char>> {
    list.map_values(|t: &[char]| t@)
}

/// The part of `s` from `from` on.
pub fn tail_of(s: &[char], from: usize) -> (t: &[char])
    requires
        from <= s@.len(),
    ensures
        t@ == s@.skip(from as int),
{
    assert(s@.skip(from as int) =~= s@.subrange(from as int, s@.len() as int));
    slice_subrange(s, from, s.len())
}

/// The part of `s` before `to`.
pub fn head_of(s: &[char], to: usize) -> (t: &[char])
    requires
        to <= s@.len(),
    ensures
        t@ == s@.take(to as int),
{
    assert(s@.take(to as int) =~= s@.subrange(0, to as int));
    slice_subrange(s, 0, to)
}

pub fn cut_at<'a>(s: &'a [char], token: &str) -> (t: &'a [char])
    ensures
        t@ == cut(s@, token@),
{
    match search(s, token) {
        Some(i) => head_of(s, i),
        None => s,
    }
}

pub fn past_token<'a>(s: &'a [char], token: &str) -> (t: Option<&'a [char]>)
    ensures
        match t {
            Some(rest) => past(s@, token@) == Some(rest@),
            None => past(s@, token@) is None,
        },
{
    let n: usize = token.unicode_len();
    match search(s, token) {
        Some(i) => Some(tail_of(s, i + n)),
        None => None,
    }
}

pub fn split_at_token<'a>(s: &'a [char], token: &str) -> (parts: Vec<&'a [char]>)
    requires
        token@.len() > 0,
    ensures
        runs(parts@) == split(s@, token@),
{
    let n: usize = token.unicode_len();
    let mut parts: Vec<&'a [char]> = Vec::new();
    let mut rest: &'a [char] = s;
    assert(runs(parts@) + split(rest@, token@) =~= split(s@, token@));
    loop
        invariant
            n == token@.len() > 0,
            split(s@, token@) == runs(parts@) + split(rest@, token@),
        decreases rest@.len(),
    {
        match search(rest, token) {
            Some(i) => {
                let head = head_of(rest, i);
                let next = tail_of(rest, i + n);
                let ghost before_parts = runs(parts@);
                parts.push(head);
                proof {
                    assert(runs(parts@) =~= before_parts.push(head@));
                    assert(split(s@, token@) =~= runs(parts@) + split(next@, token@));
                }
                rest = next;
            },
            None => {
                let ghost before_parts = runs(parts@);
                parts.push(rest);
                assert(runs(parts@) =~= before_parts.push(rest@));
                assert(runs(parts@) =~= before_parts + seq![rest@]);
                return parts;
            },
        }
    }
}

pub fn lines_of(text: &str) -> (list: Vec<String>)
    ensures
        texts(list@) == lines(text@),
{
    let chars = chars_of(text);
    let feed: [char; 1] = ['\n'];
    let mut list: Vec<String> = Vec::new();
    let mut at: usize = 0;
    assert(chars@.skip(0) =~= chars@);
    assert(texts(list@) + lines(chars@) =~= lines(chars@));
    while at < chars.len()
        invariant
            at <= chars@.len(),
            chars@ == text@,
            feed@ == seq!['\n'],
            lines(text@) == texts(list@) + lines(chars@.skip(at as int)),
        decreases chars@.len() - at,
    {
        let rest = tail_of(chars.as_slice(), at);
        let ghost done = texts(list@);
        match search_from(rest, feed.as_slice(), 0) {
            Some(i) => {
                let mut end: usize = i;
                if i > 0 && rest[i - 1] == '\r' {
                    end = i - 1;
                }
                let line = text_of(head_of(rest, end));
                list.push(line);
                proof {
                    assert(without_return(rest@.take(i as int)) =~= rest@.take(end as int));
                    assert(texts(list@) =~= done.push(line@));
                    assert(rest@.skip(i + 1) =~= chars@.skip(at + i + 1));
                    assert(lines(text@) =~= texts(list@) + lines(chars@.skip(at + i + 1)));
                }
                at = at + i + 1;
            },
            None => {
                let line = text_of(rest);
                list.push(line);
                proof {
                    assert(texts(list@) =~= done.push(line@));
                    assert(lines(text@) =~= texts(list@));
                }
                return list;
            },
        }
    }
    assert(chars@.skip(at as int) =~= Seq::empty());
    assert(texts(list@) + Seq::<Seq<char>>::empty() =~= texts(list@));
    list
}

// ── reading numbers ─────────────────────────────────────────────────────────

/// Whether a text is one or more decimal digits.
pub open spec fn all_digits(s: Seq<char>) -> bool {
    s.len() > 0 && forall|i: int| 0 <= i < s.len() ==> is_digit(#[trigger] s[i])
}

/// The number that decimal digits make.
pub open spec fn digits_value(s: Seq<char>) -> nat
    decreases s.len(),
{
    if s.len() == 0 {
        0
    } else {
        digits_value(s.drop_last()) * 10 + (s.last() as int - '0' as int) as nat
    }
}

/// A number that is written in decimal is read back.
pub proof fn decimal_reads_back(n: nat)
    ensures
        all_digits(decimal(n)),
        digits_value(decimal(n)) == n,
    decreases n,
{
    let d = (n % 10) as int;
    assert(digit_char(d) as int == '0' as int + d);
    if n < 10 {
        let s = decimal(n);
        assert(s.drop_last() =~= Seq::empty());
        assert(digits_value(s.drop_last()) == 0);
    } else {
        decimal_reads_back(n / 10);
        let s = decimal(n);
        let r = decimal(n / 10);
        assert(s.drop_last() =~= r);
        assert forall|i: int| 0 <= i < s.len() implies is_digit(#[trigger] s[i]) by {
            if i < r.len() {
                assert(s[i] == r[i]);
            }
        }
    }
}

/// The unsigned number below `limit` that decimal digits make, with or without
/// a plus sign before them.
pub open spec fn unsigned_below(s: Seq<char>, limit: int) -> Option<int> {
    let digits = if s.len() > 0 && s[0] == '+' {
        s.drop_first()
    } else {
        s
    };
    if all_digits(digits) && digits_value(digits) < limit {
        Some(digits_value(digits) as int)
    } else {
        None
    }
}

/// The integer of 64 bits that a text writes in decimal.
pub open spec fn int_of(s: Seq<char>) -> Option<int> {
    if s.len() > 0 && s[0] == '-' {
        let digits = s.drop_first();
        if all_digits(digits) && digits_value(digits) <= 0x8000_0000_0000_0000 {
            Some(-(digits_value(digits) as int))
        } else {
            None
        }
    } else {
        unsigned_below(s, 0x8000_0000_0000_0000)
    }
}

proof fn digits_value_grows(s: Seq<char>, n: int)
    requires
        0 <= n <= s.len(),
    ensures
        digits_value(s.take(n)) <= digits_value(s),
    decreases s.len() - n,
{
    if n < s.len() {
        digits_value_grows(s, n + 1);
        assert(s.take(n + 1).drop_last() =~= s.take(n));
    } else {
        assert(s.take(n) =~= s);
    }
}

/// Reads decimal digits as a number of at most `limit`.
pub fn read_digits(s: &[char], limit: u64) -> (value: Option<u64>)
    ensures
        match value {
            Some(v) => all_digits(s@) && digits_value(s@) == v && v <= limit,
            None => !(all_digits(s@) && digits_value(s@) <= limit),
        },
{
    if s.len() == 0 {
        return None;
    }
    let mut v: u64 = 0;
    for i in 0..s.len()
        invariant
            forall|j: int| 0 <= j < i ==> is_digit(#[trigger] s@[j]),
            v == digits_value(s@.take(i as int)),
            v <= limit,
    {
        if !digit(s[i]) {
            return None;
        }
        let d: u64 = s[i] as u64 - 48;
        proof {
            assert(s@.take(i + 1).drop_last() =~= s@.take(i as int));
            digits_value_grows(s@, i + 1);
        }
        let wide: u128 = v as u128 * 10 + d as u128;
        if wide > limit as u128 {
            return None;
        }
        v = wide as u64;
    }
    assert(s@.take(s@.len() as int) =~= s@);
    Some(v)
}

/// Reads an unsigned number of at most `limit`, with or without a plus sign.
pub fn read_unsigned(text: &str, limit: u64) -> (value: Option<u64>)
    ensures
        match value {
            Some(v) => unsigned_below(text@, limit + 1) == Some(v as int),
            None => unsigned_below(text@, limit + 1) is None,
        },
{
    let chars = chars_of(text);
    assert(chars@.skip(1) =~= chars@.drop_first() || chars@.len() == 0);
    if chars.len() > 0 && chars[0] == '+' {
        read_digits(tail_of(chars.as_slice(), 1), limit)
    } else {
        read_digits(chars.as_slice(), limit)
    }
}

/// Reads an integer of 64 bits.
pub fn read_int(text: &str) -> (value: Option<i64>)
    ensures
        match value {
            Some(v) => int_of(text@) == Some(v as int),
            None => int_of(text@) is None,
        },
{
    let chars = chars_of(text);
    if chars.len() > 0 && chars[0] == '-' {
        assert(chars@.skip(1) =~= chars@.drop_first());
        match read_digits(tail_of(chars.as_slice(), 1), 0x8000_0000_0000_0000) {
            Some(v) => if v == 0x8000_0000_0000_0000 {
                Some(i64::MIN)
            } else {
                Some(-(v as i64))
            },
            None => None,
        }
    } else {
        match read_unsigned(text, 0x7fff_ffff_ffff_ffff) {
            Some(v) => Some(v as i64),
            None => None,
        }
    }
}

// ── joining ─────────────────────────────────────────────────────────────────

/// Texts one after the other with `between` in between.
pub open spec fn join(list: Seq<Seq<char>>, between: Seq<char>) -> Seq<char>
    decreases list.len(),
{
    if list.len() == 0 {
        Seq::empty()
    } else if list.len() == 1 {
        list[0]
    } else {
        join(list.drop_last(), between) + between + list.last()
    }
}

pub fn join_texts(list: &Vec<&str>, between: &str) -> (text: String)
    ensures
        text@ == join(strs(list@), between@),
{
    let ghost all = strs(list@);
    let mut text = String::new();
    for i in 0..list.len()
        invariant
            all == strs(list@),
            text@ == join(all.take(i as int), between@),
    {
        proof {
            assert(all.take(i + 1).drop_last() =~= all.take(i as int));
            assert(all.take(i + 1).last() == list@[i as int]@);
        }
        if i > 0 {
            text.append(between);
        }
        text.append(list[i]);
        assert(text@ =~= join(all.take(i + 1), between@));
    }
    assert(all.take(all.len() as int) =~= all);
    text
}

// ── case ────────────────────────────────────────────────────────────────────

/// What `char::to_lowercase` yields for a character.
pub uninterp spec fn lowercase_of(c: char) -> Seq<char>;

/// `char::to_lowercase`, its characters collected: claimed to depend on the
/// character alone, and to be the small letter for an ASCII one.
#[verifier::external_body]
fn lowercase_chars(c: char) -> (lower: Vec<char>)
    ensures
        lower@ == lowercase_of(c),
        (c as int) < 128 ==> lower@ == seq![ascii_lower(c)],
{
    c.to_lowercase().collect()
}

/// Adds the small form of a character.
pub fn push_lowercase(text: &mut String, c: char)
    ensures
        final(text)@ == old(text)@ + lowercase_of(c),
{
    let lower = lowercase_chars(c);
    let more = text_of(lower.as_slice());
    text.append(more.as_str());
}

// ── laws ────────────────────────────────────────────────────────────────────

/// Whether every character of a text is whitespace.
pub open spec fn is_blank(s: Seq<char>) -> bool {
    forall|i: int| 0 <= i < s.len() ==> is_white(#[trigger] s[i])
}

/// Whether a text neither starts nor ends with whitespace.
pub open spec fn is_tight(s: Seq<char>) -> bool {
    s.len() > 0 ==> !is_white(s[0]) && !is_white(s.last())
}

proof fn trim_start_leaves(s: Seq<char>) -> (a: int)
    ensures
        0 <= a <= s.len(),
        trim_start(s) == s.skip(a),
        is_blank(s.take(a)),
        a < s.len() ==> !is_white(s[a]),
    decreases s.len(),
{
    if s.len() > 0 && is_white(s[0]) {
        let b = trim_start_leaves(s.drop_first());
        assert(s.drop_first().skip(b) =~= s.skip(b + 1));
        assert forall|i: int| 0 <= i < b + 1 implies is_white(#[trigger] s.take(b + 1)[i]) by {
            if i > 0 {
                assert(s.drop_first().take(b)[i - 1] == s[i]);
            }
        }
        b + 1
    } else {
        assert(s.skip(0) =~= s);
        0
    }
}

proof fn trim_end_leaves(s: Seq<char>) -> (b: int)
    ensures
        0 <= b <= s.len(),
        trim_end(s) == s.take(b),
        is_blank(s.skip(b)),
        b > 0 ==> !is_white(s[b - 1]),
    decreases s.len(),
{
    if s.len() > 0 && is_white(s.last()) {
        let b = trim_end_leaves(s.drop_last());
        assert(s.drop_last().take(b) =~= s.take(b));
        assert forall|i: int| 0 <= i < s.len() - b implies is_white(#[trigger] s.skip(b)[i]) by {
            if b + i < s.len() - 1 {
                assert(s.drop_last().skip(b)[i] == s[b + i]);
            }
        }
        b
    } else {
        assert(s.take(s.len() as int) =~= s);
        s.len() as int
    }
}

/// What trimming leaves is the text without whitespace before and behind it:
/// nothing else is taken away, and none is left.
pub proof fn trim_takes_the_blanks(s: Seq<char>) -> (ends: (int, int))
    ensures
        0 <= ends.0 <= ends.1 <= s.len(),
        trim(s) == s.subrange(ends.0, ends.1),
        is_blank(s.take(ends.0)),
        is_blank(s.skip(ends.1)),
        is_tight(trim(s)),
{
    let a = trim_start_leaves(s);
    let t = s.skip(a);
    let b = trim_end_leaves(t);
    assert(t.take(b) =~= s.subrange(a, a + b));
    assert(t.skip(b) =~= s.skip(a + b));
    if b > 0 {
        assert(t[b - 1] == s[a + b - 1]);
        assert(trim(s)[0] == s[a]);
    }
    (a, a + b)
}

/// A text with whitespace around it is trimmed to itself.
pub proof fn trimming_undoes_padding(a: Seq<char>, t: Seq<char>, b: Seq<char>)
    requires
        is_blank(a),
        is_blank(b),
        is_tight(t),
    ensures
        trim(a + t + b) == t,
{
    let s = a + t + b;
    let (x, y) = trim_takes_the_blanks(s);
    if t.len() == 0 {
        if x < y {
            assert(is_white(s[x])) by {
                if x < a.len() {
                    assert(a[x] == s[x]);
                } else {
                    assert(b[x - a.len()] == s[x]);
                }
            }
            assert(trim(s)[0] == s[x]);
        }
        assert(trim(s) =~= t);
    } else {
        let n = a.len() as int;
        let m = n + t.len() as int;
        assert(s[n] == t[0]);
        assert(s[m - 1] == t.last());
        if x > n {
            assert(s.take(x)[n] == s[n]);
        }
        if y < m {
            assert(s.skip(y)[m - 1 - y] == s[m - 1]);
        }
        if x < n {
            assert(s[x] == a[x]);
            assert(trim(s)[0] == s[x]);
        }
        if y > m {
            assert(s[y - 1] == b[y - 1 - m]);
            assert(trim(s).last() == s[y - 1]);
        }
        assert(trim(s) =~= t);
    }
}

/// A text that is tight is trimmed to itself.
pub proof fn tight_texts_stay(t: Seq<char>)
    requires
        is_tight(t),
    ensures
        trim(t) == t,
{
    let none = Seq::<char>::empty();
    trimming_undoes_padding(none, t, none);
    assert(none + t + none =~= t);
}

/// Whether no token starts in a text before its end, with what follows it.
pub open spec fn is_clear(before: Seq<char>, token: Seq<char>, rest: Seq<char>) -> bool {
    forall|i: int| 0 <= i < before.len() ==> !occurs_at(before + token + rest, token, i)
}

/// A search finds a token where it stands, if none stands before it.
pub proof fn found_where_it_stands(before: Seq<char>, token: Seq<char>, rest: Seq<char>)
    requires
        is_clear(before, token, rest),
    ensures
        find(before + token + rest, token) == Some(before.len() as int),
{
    let s = before + token + rest;
    find_from_is_first(s, token, 0);
    assert(s.subrange(before.len() as int, (before.len() + token.len()) as int) =~= token);
    assert(occurs_at(s, token, before.len() as int));
}

/// A text with no occurrence of a token before another one of the same token:
/// what is before it and what is behind it.
pub proof fn parted_where_it_stands(before: Seq<char>, token: Seq<char>, rest: Seq<char>)
    requires
        is_clear(before, token, rest),
    ensures
        cut(before + token + rest, token) == before,
        past(before + token + rest, token) == Some(rest),
{
    let s = before + token + rest;
    found_where_it_stands(before, token, rest);
    assert(s.take(before.len() as int) =~= before);
    assert(s.skip((before.len() + token.len()) as int) =~= rest);
}

/// Of a text without a token nothing is cut, and nothing is behind it.
pub proof fn nothing_without_a_token(s: Seq<char>, token: Seq<char>)
    requires
        !contains(s, token),
    ensures
        cut(s, token) == s,
        past(s, token) is None,
        find(s, token) is None,
{
    find_is_contains(s, token);
}

/// Splitting goes on behind the first token.
pub proof fn split_goes_on(before: Seq<char>, token: Seq<char>, rest: Seq<char>)
    requires
        token.len() > 0,
        is_clear(before, token, rest),
    ensures
        split(before + token + rest, token) == seq![before] + split(rest, token),
{
    let s = before + token + rest;
    found_where_it_stands(before, token, rest);
    assert(s.take(before.len() as int) =~= before);
    assert(s.skip((before.len() + token.len()) as int) =~= rest);
}

/// A text without the token is one part.
pub proof fn split_leaves_whole(s: Seq<char>, token: Seq<char>)
    requires
        !contains(s, token),
    ensures
        split(s, token) == seq![s],
{
    find_is_contains(s, token);
}

/// What is joined starts with its first part.
pub proof fn join_goes_on(first: Seq<char>, rest: Seq<Seq<char>>, between: Seq<char>)
    requires
        rest.len() > 0,
    ensures
        join(seq![first] + rest, between) == first + between + join(rest, between),
    decreases rest.len(),
{
    let all = seq![first] + rest;
    assert(all.drop_last() =~= seq![first] + rest.drop_last());
    assert(all.last() == rest.last());
    if rest.len() == 1 {
        assert(all.drop_last() =~= seq![first]);
        assert(join(all.drop_last(), between) == first);
        assert(join(rest, between) == rest[0]);
    } else {
        join_goes_on(first, rest.drop_last(), between);
        assert(join(all, between) =~= first + between + join(rest, between));
    }
}

/// Splitting loses nothing and leaves nothing unsplit: the parts joined by the
/// token are the text again, and no part holds the token.
pub proof fn split_parts_join(s: Seq<char>, token: Seq<char>)
    requires
        token.len() > 0,
    ensures
        split(s, token).len() > 0,
        join(split(s, token), token) == s,
        forall|i: int|
            0 <= i < split(s, token).len() ==> !contains(#[trigger] split(s, token)[i], token),
    decreases s.len(),
{
    find_from_is_first(s, token, 0);
    find_is_contains(s, token);
    let parts = split(s, token);
    match find(s, token) {
        Some(at) => {
            let head = s.take(at);
            let tail = s.skip(at + token.len());
            split_parts_join(tail, token);
            join_goes_on(head, split(tail, token), token);
            assert(s =~= head + token + tail);
            assert forall|i: int| 0 <= i < parts.len() implies !contains(
                #[trigger] parts[i],
                token,
            ) by {
                if i == 0 {
                    if contains(head, token) {
                        let k = choose|k: int| occurs_at(head, token, k);
                        assert(head.subrange(k, k + token.len()) =~= s.subrange(
                            k,
                            k + token.len(),
                        ));
                        assert(occurs_at(s, token, k));
                    }
                } else {
                    assert(parts[i] == split(tail, token)[i - 1]);
                }
            }
        },
        None => {},
    }
}

/// A line ends at its line feed, with or without a carriage return before it.
pub proof fn lines_go_on(line: Seq<char>, rest: Seq<char>)
    requires
        !line.contains('\n'),
    ensures
        !(line.len() > 0 && line.last() == '\r') ==> lines(line + seq!['\n'] + rest) == seq![line]
            + lines(rest),
        lines(line + seq!['\r'] + seq!['\n'] + rest) == seq![line] + lines(rest),
{
    let feed = seq!['\n'];
    let s = line + feed + rest;
    assert forall|i: int| 0 <= i < line.len() implies !occurs_at(s, feed, i) by {
        assert(s[i] == line[i]);
        if occurs_at(s, feed, i) {
            assert(s.subrange(i, i + 1)[0] == '\n');
            assert(line.contains(line[i]));
        }
    }
    found_where_it_stands(line, feed, rest);
    assert(s.take(line.len() as int) =~= line);
    assert(s.skip(line.len() as int + 1) =~= rest);
    let long = line + seq!['\r'];
    let r = long + feed + rest;
    assert(r =~= line + seq!['\r'] + seq!['\n'] + rest);
    assert forall|i: int| 0 <= i < long.len() implies !occurs_at(r, feed, i) by {
        assert(r[i] == long[i]);
        if occurs_at(r, feed, i) {
            assert(r.subrange(i, i + 1)[0] == '\n');
            if i < line.len() {
                assert(line.contains(line[i]));
            }
        }
    }
    found_where_it_stands(long, feed, rest);
    assert(r.take(long.len() as int) =~= long);
    assert(r.skip(long.len() as int + 1) =~= rest);
    assert(long.drop_last() =~= line);
}

/// An integer of 64 bits that is written in decimal is read back, and a plus sign
/// before it changes nothing.
pub proof fn integers_read_back(n: int)
    requires
        -0x8000_0000_0000_0000 <= n < 0x8000_0000_0000_0000,
    ensures
        int_of(signed_decimal(n)) == Some(n),
        n >= 0 ==> int_of(seq!['+'] + signed_decimal(n)) == Some(n),
{
    if n < 0 {
        decimal_reads_back((-n) as nat);
        assert(signed_decimal(n).drop_first() =~= decimal((-n) as nat));
    } else {
        decimal_reads_back(n as nat);
        let s = decimal(n as nat);
        assert(is_digit(s[0]));
        assert((seq!['+'] + s).drop_first() =~= s);
    }
}

/// What is read as an integer is nothing but digits, behind a sign if any; and
/// the integer fits in 64 bits.
pub proof fn only_integers_are_read(s: Seq<char>)
    ensures
        int_of(s) matches Some(n) ==> {
            let digits = if s.len() > 0 && (s[0] == '-' || s[0] == '+') {
                s.drop_first()
            } else {
                s
            };
            &&& all_digits(digits)
            &&& -0x8000_0000_0000_0000 <= n < 0x8000_0000_0000_0000
            &&& n == (if s[0] == '-' {
                -(digits_value(digits) as int)
            } else {
                digits_value(digits) as int
            })
        },
{
}

/// Letters count the same in either case, and nothing else does.
pub proof fn case_does_not_count(c: char, d: char)
    ensures
        ascii_lower(c) == ascii_lower(d) <==> c == d || ('A' <= c <= 'Z' && d as int == c as int + 32)
            || ('A' <= d <= 'Z' && c as int == d as int + 32),
{
}

/// Whether the first character of a token occurs in it once, so that two
/// occurrences of the token cannot overlap.
pub open spec fn is_unbordered(token: Seq<char>) -> bool {
    token.len() > 0 && forall|k: int| 1 <= k < token.len() ==> #[trigger] token[k] != token[0]
}

/// Before a token that cannot overlap itself none starts, where the text before it
/// holds none.
pub proof fn clear_where_absent(before: Seq<char>, token: Seq<char>, rest: Seq<char>)
    requires
        is_unbordered(token),
        !contains(before, token),
    ensures
        is_clear(before, token, rest),
{
    let s = before + token + rest;
    let n = before.len() as int;
    assert forall|i: int| 0 <= i < n implies !occurs_at(s, token, i) by {
        if occurs_at(s, token, i) {
            let t = s.subrange(i, i + token.len());
            if i + token.len() <= n {
                assert(before.subrange(i, i + token.len()) =~= t);
                assert(occurs_at(before, token, i));
            } else {
                assert(t[n - i] == s[n]);
                assert(s[n] == token[0]);
                assert(token[n - i] == token[0]);
            }
        }
    }
}

/// What stands behind the last token is the last part.
pub proof fn split_ends_behind_the_last(before: Seq<char>, token: Seq<char>, last: Seq<char>)
    requires
        is_unbordered(token),
        !contains(last, token),
    ensures
        split(before + token + last, token) == split(before, token).push(last),
    decreases before.len(),
{
    find_is_contains(before, token);
    find_from_is_first(before, token, 0);
    match find(before, token) {
        None => {
            clear_where_absent(before, token, last);
            split_goes_on(before, token, last);
            split_leaves_whole(last, token);
            assert(seq![before] + seq![last] =~= seq![before].push(last));
        },
        Some(at) => {
            let head = before.take(at);
            let tail = before.skip(at + token.len());
            if contains(head, token) {
                let k = choose|k: int| occurs_at(head, token, k);
                assert(head.subrange(k, k + token.len()) =~= before.subrange(k, k + token.len()));
                assert(occurs_at(before, token, k));
            }
            let more = tail + token + last;
            clear_where_absent(head, token, more);
            split_goes_on(head, token, more);
            assert(before =~= head + token + tail);
            assert(before + token + last =~= head + token + more);
            split_ends_behind_the_last(tail, token, last);
            assert(seq![head] + split(tail, token).push(last) =~= (seq![head] + split(
                tail,
                token,
            )).push(last));
        },
    }
}

/// Texts are ordered by their first difference, and a text stands before its own
/// continuations.
pub proof fn texts_order_by_their_first_difference(
    p: Seq<char>,
    c: char,
    d: char,
    x: Seq<char>,
    y: Seq<char>,
)
    ensures
        c != d ==> (before(p + seq![c] + x, p + seq![d] + y) <==> c < d),
        before(p, p + seq![c] + x),
        !before(p + seq![c] + x, p),
    decreases p.len(),
{
    let a = p + seq![c] + x;
    let b = p + seq![d] + y;
    if p.len() > 0 {
        let q = p.drop_first();
        texts_order_by_their_first_difference(q, c, d, x, y);
        assert(a.drop_first() =~= q + seq![c] + x);
        assert(b.drop_first() =~= q + seq![d] + y);
        assert(a[0] == p[0] && b[0] == p[0]);
    } else {
        assert(a[0] == c && b[0] == d);
    }
}

/// A number is written without zeros before it, and padded with nothing else.
pub proof fn numbers_are_written_short(n: nat, text: Seq<char>, width: nat)
    ensures
        n > 0 ==> decimal(n)[0] != '0',
        decimal(0) == seq!['0'],
        text.len() >= width ==> zero_padded(text, width) == text,
        text.len() < width ==> zero_padded(text, width).len() == width,
    decreases n, width - text.len(),
{
    if n >= 10 {
        numbers_are_written_short(n / 10, text, width);
        decimal_reads_back(n / 10);
        assert(decimal(n)[0] == decimal(n / 10)[0]);
    } else {
        assert(digit_char(n as int) as int == '0' as int + n);
        if text.len() < width {
            numbers_are_written_short(0, seq!['0'] + text, width);
        }
    }
}

} // verus!
