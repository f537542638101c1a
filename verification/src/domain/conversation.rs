//! Conversations reconstructed from Chat Completions traffic.
//!
//! A turn resends the whole transcript, so the turn before it is the one whose
//! messages are a prefix of its own. What is kept is a rolling hash for each
//! prefix: one turn continues another exactly where the other's last hash stands
//! at its place in the first one's chain. No message text is kept.
use vstd::prelude::*;
use vstd::utf8::encode_utf8;

use super::civil::{day_number, march_days, write_instant, writes_instant};
use super::range::{fits_instant, fits_place};
use crate::json::{json_text, render, views, Json, JsonView};
use crate::text::{
    all_digits, before, before_is_total, before_is_transitive, chars_of, digit, digits_value, find,
    find_from_is_first, head_of, is_digit, join, occurs_at, read_digits, runs, same_text,
    sorts_before, split, split_at_token, tail_of,
};

verus! {

// ── hashes ──────────────────────────────────────────────────────────────────

/// Where the hash of nothing starts.
pub const FNV_OFFSET: u64 = 0xcbf2_9ce4_8422_2325;

pub const FNV_PRIME: u64 = 0x0000_0100_0000_01b3;

/// FNV-1a over 64 bits, going on from `seed`.
pub open spec fn fnv(seed: u64, bytes: Seq<u8>) -> u64
    decreases bytes.len(),
{
    if bytes.len() == 0 {
        seed
    } else {
        (fnv(seed, bytes.drop_last()) ^ (bytes.last() as u64)).wrapping_mul(FNV_PRIME)
    }
}

/// FNV-1a over 64 bits, going on from `seed`. It groups; it guards nothing.
pub fn fnv1a(seed: u64, bytes: &[u8]) -> (hash: u64)
    ensures
        hash == fnv(seed, bytes@),
{
    let mut hash: u64 = seed;
    for i in 0..bytes.len()
        invariant
            hash == fnv(seed, bytes@.take(i as int)),
    {
        assert(bytes@.take(i + 1).drop_last() =~= bytes@.take(i as int));
        hash = (hash ^ (bytes[i] as u64)).wrapping_mul(FNV_PRIME);
    }
    assert(bytes@.take(bytes@.len() as int) =~= bytes@);
    hash
}

/// The bytes that a message is hashed from: its compact JSON, members in the
/// order of their names at every level.
pub open spec fn message_bytes(message: JsonView) -> Seq<u8> {
    encode_utf8(json_text(message))
}

/// The hash of the first `n` messages.
pub open spec fn rolling(messages: Seq<JsonView>, n: int) -> u64
    decreases n,
{
    if n <= 0 {
        FNV_OFFSET
    } else {
        fnv(rolling(messages, n - 1), message_bytes(messages[n - 1]))
    }
}

/// The hashes of every non-empty prefix of the messages, shortest first.
pub open spec fn chain_of(messages: Seq<JsonView>) -> Seq<u64> {
    Seq::new(messages.len(), |i: int| rolling(messages, i + 1))
}

/// Whether one chain continues another: it is longer, and has the other's last
/// hash at the other's place.
pub open spec fn continues(chain: Seq<u64>, other: Seq<u64>) -> bool {
    0 < other.len() < chain.len() && chain[other.len() - 1] == other.last()
}

/// The rolling prefix hashes of a request's messages.
#[derive(Debug, PartialEq, Eq)]
pub struct PrefixChain {
    hashes: Vec<u64>,
}

impl View for PrefixChain {
    type V = Seq<u64>;

    closed spec fn view(&self) -> Seq<u64> {
        self.hashes@
    }
}

impl Default for PrefixChain {
    fn default() -> (chain: Self)
        ensures
            chain@ == Seq::<u64>::empty(),
    {
        PrefixChain { hashes: Vec::new() }
    }
}

impl Clone for PrefixChain {
    fn clone(&self) -> (copy: Self)
        ensures
            copy@ == self@,
    {
        PrefixChain { hashes: self.hashes.clone() }
    }
}

impl PrefixChain {
    /// Hashes the messages in order, each after the ones before it.
    pub fn of(messages: &[Json]) -> (chain: PrefixChain)
        ensures
            chain@ == chain_of(views(messages@)),
    {
        let ghost all = views(messages@);
        let mut hashes: Vec<u64> = Vec::new();
        let mut hash: u64 = FNV_OFFSET;
        for i in 0..messages.len()
            invariant
                all == views(messages@),
                hash == rolling(all, i as int),
                hashes@ == Seq::new(i as nat, |k: int| rolling(all, k + 1)),
        {
            assert(all[i as int] == messages@[i as int]@);
            let text = render(&messages[i]);
            hash = fnv1a(hash, text.as_str().as_bytes());
            hashes.push(hash);
            assert(hashes@ =~= Seq::new((i + 1) as nat, |k: int| rolling(all, k + 1)));
        }
        assert(hashes@ =~= chain_of(all));
        PrefixChain { hashes }
    }

    /// The chain of stored hashes, shortest prefix first.
    pub fn from_hashes(hashes: Vec<u64>) -> (chain: PrefixChain)
        ensures
            chain@ == hashes@,
    {
        PrefixChain { hashes }
    }

    /// The hashes, shortest prefix first.
    pub fn hashes(&self) -> (hashes: &[u64])
        ensures
            hashes@ == self@,
    {
        self.hashes.as_slice()
    }

    /// The number of messages that the chain covers.
    pub fn len(&self) -> (n: usize)
        ensures
            n == self@.len(),
    {
        self.hashes.len()
    }

    pub fn is_empty(&self) -> (empty: bool)
        ensures
            empty == (self@.len() == 0),
    {
        self.hashes.len() == 0
    }

    /// The hash of all the messages.
    pub fn head(&self) -> (head: Option<u64>)
        ensures
            head == (if self@.len() > 0 {
                Some(self@.last())
            } else {
                None
            }),
    {
        let n: usize = self.hashes.len();
        if n > 0 {
            Some(self.hashes[n - 1])
        } else {
            None
        }
    }

    /// Whether `other`'s messages are a strict prefix of this chain's. The same
    /// messages sent again continue nothing.
    pub fn extends(&self, other: &PrefixChain) -> (yes: bool)
        ensures
            yes == continues(self@, other@),
    {
        let n: usize = other.hashes.len();
        if n == 0 || n >= self.hashes.len() {
            return false;
        }
        self.hashes[n - 1] == other.hashes[n - 1]
    }

    /// The chain as it is stored: each hash in 16 hexadecimal digits, points
    /// between them.
    pub fn encode(&self) -> (text: String)
        ensures
            text@ == encoded(self@),
    {
        let ghost all = hash_texts(self@);
        let mut text = String::new();
        for i in 0..self.hashes.len()
            invariant
                all == hash_texts(self@),
                text@ == join(all.take(i as int), "."@),
        {
            assert(all.take(i + 1).drop_last() =~= all.take(i as int));
            if i > 0 {
                text.append(".");
            }
            text.append(hex_text(self.hashes[i], 16).as_str());
            assert(text@ =~= join(all.take(i + 1), "."@));
        }
        assert(all.take(all.len() as int) =~= all);
        text
    }

    /// Reads a stored chain. Where any part is no hash the chain is empty, and
    /// matches nothing.
    pub fn decode(encoded: &str) -> (chain: PrefixChain)
        ensures
            chain@ == hashes_in(encoded@),
    {
        proof {
            reveal_strlit(".");
        }
        let chars = chars_of(encoded);
        let parts = split_at_token(chars.as_slice(), ".");
        let ghost all = runs(parts@);
        let ghost goal = all.map_values(|part: Seq<char>| hash_in(part)->0);
        let mut hashes: Vec<u64> = Vec::new();
        for i in 0..parts.len()
            invariant
                all == runs(parts@),
                all == split(encoded@, "."@),
                goal == all.map_values(|part: Seq<char>| hash_in(part)->0),
                forall|j: int| 0 <= j < i ==> hash_in(#[trigger] all[j]) is Some,
                hashes@ == goal.take(i as int),
        {
            assert(all[i as int] == parts@[i as int]@);
            match read_hex(parts[i]) {
                Some(hash) => {
                    hashes.push(hash);
                    assert(hashes@ =~= goal.take(i + 1));
                },
                None => {
                    assert(!all_hashes(all));
                    return PrefixChain { hashes: Vec::new() };
                },
            }
        }
        assert(hashes@ =~= goal);
        PrefixChain { hashes }
    }
}

// ── hexadecimal ─────────────────────────────────────────────────────────────

/// The character of a hexadecimal digit.
pub open spec fn hex_char(d: int) -> char {
    if d < 10 {
        ('0' as int + d) as char
    } else {
        ('a' as int + d - 10) as char
    }
}

/// The last `width` hexadecimal digits of a number.
pub open spec fn hex_digits(n: nat, width: nat) -> Seq<char>
    decreases width,
{
    if width == 0 {
        Seq::empty()
    } else {
        hex_digits(n / 16, (width - 1) as nat).push(hex_char((n % 16) as int))
    }
}

/// The value of a hexadecimal digit; nothing for another character.
pub open spec fn hex_value_of(c: char) -> Option<nat> {
    if '0' <= c <= '9' {
        Some((c as int - '0' as int) as nat)
    } else if 'a' <= c <= 'f' {
        Some((c as int - 'a' as int + 10) as nat)
    } else if 'A' <= c <= 'F' {
        Some((c as int - 'A' as int + 10) as nat)
    } else {
        None
    }
}

/// Whether a text is one or more hexadecimal digits.
pub open spec fn all_hex(s: Seq<char>) -> bool {
    s.len() > 0 && forall|i: int| 0 <= i < s.len() ==> hex_value_of(#[trigger] s[i]) is Some
}

/// The number that hexadecimal digits make.
pub open spec fn hex_number(s: Seq<char>) -> nat
    decreases s.len(),
{
    if s.len() == 0 {
        0
    } else {
        hex_number(s.drop_last()) * 16 + hex_value_of(s.last())->0
    }
}

/// The hash that a text writes: hexadecimal digits of a number of 64 bits, with
/// or without a plus sign before them.
pub open spec fn hash_in(s: Seq<char>) -> Option<u64> {
    let digits = if s.len() > 0 && s[0] == '+' {
        s.drop_first()
    } else {
        s
    };
    if all_hex(digits) && hex_number(digits) <= u64::MAX {
        Some(hex_number(digits) as u64)
    } else {
        None
    }
}

/// Whether every part writes a hash.
pub open spec fn all_hashes(parts: Seq<Seq<char>>) -> bool {
    forall|i: int| 0 <= i < parts.len() ==> hash_in(#[trigger] parts[i]) is Some
}

/// The hashes that a stored text holds: none where any part of it is no hash.
pub open spec fn hashes_in(s: Seq<char>) -> Seq<u64> {
    let parts = split(s, "."@);
    if all_hashes(parts) {
        parts.map_values(|part: Seq<char>| hash_in(part)->0)
    } else {
        Seq::empty()
    }
}

/// Hashes as they are written.
pub open spec fn hash_texts(hashes: Seq<u64>) -> Seq<Seq<char>> {
    hashes.map_values(|h: u64| hex_digits(h as nat, 16))
}

/// A chain as it is stored.
pub open spec fn encoded(hashes: Seq<u64>) -> Seq<char> {
    join(hash_texts(hashes), "."@)
}

pub fn hex_text(n: u64, width: usize) -> (text: String)
    ensures
        text@ == hex_digits(n as nat, width as nat),
    decreases width,
{
    if width == 0 {
        String::new()
    } else {
        let mut text = hex_text(n / 16, width - 1);
        let d: u8 = (n % 16) as u8;
        if d < 10 {
            text.push((48 + d) as char);
        } else {
            text.push((87 + d) as char);
        }
        text
    }
}

proof fn hex_number_grows(s: Seq<char>, n: int)
    requires
        0 <= n <= s.len(),
    ensures
        hex_number(s.take(n)) <= hex_number(s),
    decreases s.len() - n,
{
    if n < s.len() {
        hex_number_grows(s, n + 1);
        assert(s.take(n + 1).drop_last() =~= s.take(n));
    } else {
        assert(s.take(n) =~= s);
    }
}

fn read_hex(s: &[char]) -> (hash: Option<u64>)
    ensures
        hash == hash_in(s@),
{
    let digits = if s.len() > 0 && s[0] == '+' {
        assert(s@.skip(1) =~= s@.drop_first());
        tail_of(s, 1)
    } else {
        s
    };
    if digits.len() == 0 {
        return None;
    }
    let mut v: u64 = 0;
    for i in 0..digits.len()
        invariant
            forall|j: int| 0 <= j < i ==> hex_value_of(#[trigger] digits@[j]) is Some,
            v == hex_number(digits@.take(i as int)),
            digits@ == (if s@.len() > 0 && s@[0] == '+' {
                s@.drop_first()
            } else {
                s@
            }),
    {
        let c: char = digits[i];
        let d: u64 = if '0' <= c && c <= '9' {
            c as u64 - 48
        } else if 'a' <= c && c <= 'f' {
            c as u64 - 87
        } else if 'A' <= c && c <= 'F' {
            c as u64 - 55
        } else {
            return None;
        };
        proof {
            assert(digits@.take(i + 1).drop_last() =~= digits@.take(i as int));
            hex_number_grows(digits@, i + 1);
        }
        let wide: u128 = v as u128 * 16 + d as u128;
        if wide > u64::MAX as u128 {
            return None;
        }
        v = wide as u64;
    }
    assert(digits@.take(digits@.len() as int) =~= digits@);
    Some(v)
}

// ── times ───────────────────────────────────────────────────────────────────

/// Whether a text has the shape that times are written in:
/// `YYYY-MM-DDThh:mm:ss.mmmZ`, or the same without the milliseconds.
pub open spec fn is_stamp(ts: Seq<char>) -> bool {
    &&& ts.len() == 20 || ts.len() == 24
    &&& ts.last() == 'Z'
    &&& forall|i: int| 0 <= i < 19 ==> fits_instant(#[trigger] ts[i], i)
    &&& ts.len() == 24 ==> ts[19] == '.' && is_digit(ts[20]) && is_digit(ts[21]) && is_digit(ts[22])
}

/// The number in the characters from `from` to `to`.
pub open spec fn number_at(ts: Seq<char>, from: int, to: int) -> int {
    digits_value(ts.subrange(from, to)) as int
}

/// The seconds since the start of 1970 that a timestamp names; nothing for any
/// other text.
pub open spec fn epoch_of(ts: Seq<char>) -> Option<int> {
    if is_stamp(ts) {
        Some(
            day_number(number_at(ts, 0, 4), number_at(ts, 5, 7), number_at(ts, 8, 10)) * 86_400
                + number_at(ts, 11, 13) * 3600 + number_at(ts, 14, 16) * 60 + number_at(ts, 17, 19),
        )
    } else {
        None
    }
}

fn has_stamp_shape(chars: &Vec<char>) -> (yes: bool)
    ensures
        yes == is_stamp(chars@),
{
    let n: usize = chars.len();
    if !(n == 20 || n == 24) || chars[n - 1] != 'Z' {
        return false;
    }
    for i in 0..19
        invariant
            chars@.len() == 20 || chars@.len() == 24,
            forall|j: int| 0 <= j < i ==> fits_instant(#[trigger] chars@[j], j),
    {
        if !fits_place(chars[i], i) {
            return false;
        }
    }
    n == 20 || (chars[19] == '.' && digit(chars[20]) && digit(chars[21]) && digit(chars[22]))
}

pub proof fn short_numbers(s: Seq<char>)
    ensures
        s.len() == 2 ==> digits_value(s) <= 99 || !all_digits(s),
        s.len() == 1 ==> digits_value(s) <= 9 || !all_digits(s),
        s.len() == 3 ==> digits_value(s) <= 999 || !all_digits(s),
        s.len() == 4 ==> digits_value(s) <= 9999 || !all_digits(s),
    decreases s.len(),
{
    if s.len() > 0 {
        let r = s.drop_last();
        short_numbers(r);
        assert(r.len() == 0 ==> digits_value(r) == 0);
        if all_digits(s) && s.len() > 1 {
            assert forall|i: int| 0 <= i < r.len() implies is_digit(#[trigger] r[i]) by {
                assert(r[i] == s[i]);
            }
        }
        if all_digits(s) {
            assert(is_digit(s[s.len() - 1]));
        }
    }
}

fn number_between(chars: &Vec<char>, from: usize, to: usize) -> (n: i64)
    requires
        from < to <= 19,
        to <= chars@.len(),
        to - from == 2 || to - from == 4,
        forall|i: int| from <= i < to ==> is_digit(#[trigger] chars@[i]),
    ensures
        n == number_at(chars@, from as int, to as int),
        0 <= n,
        to - from == 2 ==> n <= 99,
        to - from == 4 ==> n <= 9999,
{
    let part = tail_of(head_of(chars.as_slice(), to), from);
    assert(part@ =~= chars@.subrange(from as int, to as int));
    proof {
        short_numbers(part@);
        assert forall|i: int| 0 <= i < part@.len() implies is_digit(#[trigger] part@[i]) by {
            assert(part@[i] == chars@[from + i]);
        }
    }
    match read_digits(part, 9999) {
        Some(n) => n as i64,
        None => 0,
    }
}

/// The seconds since the start of 1970 that a timestamp names.
pub fn epoch_seconds(ts: &str) -> (seconds: Option<i64>)
    ensures
        match seconds {
            Some(n) => epoch_of(ts@) == Some(n as int) && -200_000_000_000 <= n <= 400_000_000_000,
            None => epoch_of(ts@) is None,
        },
{
    let chars = chars_of(ts);
    if !has_stamp_shape(&chars) {
        return None;
    }
    proof {
        assert forall|i: int| 0 <= i < 19 && i != 4 && i != 7 && i != 10 && i != 13 && i != 16 implies is_digit(
            #[trigger] chars@[i]) by {
            assert(fits_instant(chars@[i], i));
        }
    }
    let y: i64 = number_between(&chars, 0, 4);
    let mo: i64 = number_between(&chars, 5, 7);
    let d: i64 = number_between(&chars, 8, 10);
    let h: i64 = number_between(&chars, 11, 13);
    let mi: i64 = number_between(&chars, 14, 16);
    let s: i64 = number_between(&chars, 17, 19);
    let days: i64 = days_from_civil(y, mo, d);
    Some(days * 86_400 + h * 3600 + mi * 60 + s)
}

/// The number of a date's day.
pub fn days_from_civil(y: i64, m: i64, d: i64) -> (days: i64)
    requires
        -1_000_000_000_000_000 <= y <= 1_000_000_000_000_000,
        -9 <= m <= 1_000_000_000_000_000,
        -1_000_000_000_000_000 <= d <= 1_000_000_000_000_000,
    ensures
        days == day_number(y as int, m as int, d as int),
{
    if m > 2 {
        march_days(y, m - 3, d)
    } else {
        march_days(y - 1, m + 9, d)
    }
}

/// How far apart two turns of one conversation may be.
pub const MAX_GAP_SECONDS: i64 = 7200;

/// Whether two times are close enough to be of one conversation. A time that
/// cannot be read rules nothing out.
pub open spec fn close(earlier: Seq<char>, later: Seq<char>) -> bool {
    match (epoch_of(earlier), epoch_of(later)) {
        (Some(a), Some(b)) => -MAX_GAP_SECONDS <= b - a <= MAX_GAP_SECONDS,
        _ => true,
    }
}

pub fn within_gap(earlier: &str, later: &str) -> (yes: bool)
    ensures
        yes == close(earlier@, later@),
{
    match (epoch_seconds(earlier), epoch_seconds(later)) {
        (Some(a), Some(b)) => {
            let gap: i64 = b - a;
            -MAX_GAP_SECONDS <= gap && gap <= MAX_GAP_SECONDS
        },
        _ => true,
    }
}

/// Whether a text is the earliest time at which the turn before one at `ts` may
/// have been.
pub open spec fn is_gap_floor(ts: Seq<char>, floor: Seq<char>) -> bool {
    match epoch_of(ts) {
        Some(now) => writes_instant(floor, now - MAX_GAP_SECONDS, 0),
        None => floor.len() == 0,
    }
}

/// The earliest time at which the turn before one at `ts` may have been; empty,
/// which sorts before every time, where `ts` cannot be read.
pub fn gap_floor(ts: &str) -> (floor: String)
    ensures
        is_gap_floor(ts@, floor@),
{
    match epoch_seconds(ts) {
        Some(now) => write_instant(now - MAX_GAP_SECONDS, 0),
        None => String::new(),
    }
}

// ── matching ────────────────────────────────────────────────────────────────

/// A turn that may be the one before another.
#[derive(Debug)]
pub struct Candidate {
    pub id: String,
    /// When it was recorded.
    pub ts: String,
    pub chain: PrefixChain,
    pub prompt_tokens: i64,
    pub cached_tokens: i64,
}

/// Whether a candidate may be the turn before one with this chain at `ts`.
pub open spec fn qualifies(chain: Seq<u64>, ts: Seq<char>, candidate: Candidate) -> bool {
    continues(chain, candidate.chain@) && close(candidate.ts@, ts)
}

/// Whether `a` is an earlier turn than `b`; at the same time, the shorter one is.
pub open spec fn earlier_turn(a: Candidate, b: Candidate) -> bool {
    before(a.ts@, b.ts@) || (a.ts@ == b.ts@ && a.chain@.len() < b.chain@.len())
}

/// Whether the candidate at `i` is the latest that qualifies; of equals, the
/// last.
pub open spec fn is_latest(
    chain: Seq<u64>,
    ts: Seq<char>,
    candidates: Seq<Candidate>,
    i: int,
) -> bool {
    &&& 0 <= i < candidates.len()
    &&& qualifies(chain, ts, candidates[i])
    &&& forall|j: int|
        0 <= j < candidates.len() && qualifies(chain, ts, #[trigger] candidates[j]) ==> if j <= i {
            !earlier_turn(candidates[i], candidates[j])
        } else {
            earlier_turn(candidates[j], candidates[i])
        }
}

/// The turn that one with this chain at `ts` continues.
pub fn match_parent<'a>(chain: &PrefixChain, ts: &str, candidates: &'a [Candidate]) -> (parent:
    Option<&'a Candidate>)
    ensures
        match parent {
            Some(p) => exists|i: int|
                is_latest(chain@, ts@, candidates@, i) && *p == #[trigger] candidates@[i],
            None => forall|i: int|
                0 <= i < candidates@.len() ==> !qualifies(chain@, ts@, #[trigger] candidates@[i]),
        },
{
    let mut best: Option<usize> = None;
    for i in 0..candidates.len()
        invariant
            match best {
                Some(b) => b < i && is_latest(chain@, ts@, candidates@.take(i as int), b as int),
                None => forall|j: int|
                    0 <= j < i ==> !qualifies(chain@, ts@, #[trigger] candidates@[j]),
            },
    {
        let c = &candidates[i];
        let ghost old_best = best;
        if chain.extends(&c.chain) && within_gap(c.ts.as_str(), ts) {
            match best {
                Some(b) => {
                    let current = &candidates[b];
                    let sooner: bool = sorts_before(c.ts.as_str(), current.ts.as_str()) || (
                    same_text(c.ts.as_str(), current.ts.as_str()) && c.chain.len()
                        < current.chain.len());
                    if !sooner {
                        best = Some(i);
                    }
                },
                None => {
                    best = Some(i);
                },
            }
        }
        proof {
            latest_so_far(chain@, ts@, candidates@, i as int, old_best, best);
        }
    }
    assert(candidates@.take(candidates@.len() as int) =~= candidates@);
    match best {
        Some(b) => {
            assert(is_latest(chain@, ts@, candidates@, b as int));
            Some(&candidates[b])
        },
        None => None,
    }
}

proof fn turns_are_ordered(a: Candidate, b: Candidate, c: Candidate)
    ensures
        !earlier_turn(a, a),
        !(earlier_turn(a, b) && earlier_turn(b, a)),
        !earlier_turn(a, b) && !earlier_turn(b, c) ==> !earlier_turn(a, c),
        earlier_turn(a, b) && !earlier_turn(c, b) ==> earlier_turn(a, c),
{
    before_is_total(a.ts@, b.ts@);
    before_is_total(b.ts@, c.ts@);
    before_is_total(a.ts@, c.ts@);
    before_is_total(b.ts@, a.ts@);
    before_is_total(c.ts@, b.ts@);
    before_is_total(c.ts@, a.ts@);
    if before(a.ts@, b.ts@) && before(b.ts@, c.ts@) {
        before_is_transitive(a.ts@, b.ts@, c.ts@);
    }
    if before(c.ts@, b.ts@) && before(b.ts@, a.ts@) {
        before_is_transitive(c.ts@, b.ts@, a.ts@);
    }
    if before(b.ts@, a.ts@) && before(a.ts@, c.ts@) {
        before_is_transitive(b.ts@, a.ts@, c.ts@);
    }
    if before(a.ts@, c.ts@) && before(c.ts@, b.ts@) {
        before_is_transitive(a.ts@, c.ts@, b.ts@);
    }
    if before(c.ts@, a.ts@) && before(a.ts@, b.ts@) {
        before_is_transitive(c.ts@, a.ts@, b.ts@);
    }
}

/// The step of the search for the latest candidate.
proof fn latest_so_far(
    chain: Seq<u64>,
    ts: Seq<char>,
    all: Seq<Candidate>,
    i: int,
    old_best: Option<usize>,
    best: Option<usize>,
)
    requires
        0 <= i < all.len(),
        match old_best {
            Some(b) => b < i && is_latest(chain, ts, all.take(i), b as int),
            None => forall|j: int| 0 <= j < i ==> !qualifies(chain, ts, #[trigger] all[j]),
        },
        best == (if !qualifies(chain, ts, all[i]) {
            old_best
        } else {
            match old_best {
                Some(b) => if earlier_turn(all[i], all[b as int]) {
                    old_best
                } else {
                    Some(i as usize)
                },
                None => Some(i as usize),
            }
        }),
        i <= usize::MAX,
    ensures
        match best {
            Some(b) => b < i + 1 && is_latest(chain, ts, all.take(i + 1), b as int),
            None => forall|j: int| 0 <= j < i + 1 ==> !qualifies(chain, ts, #[trigger] all[j]),
        },
{
    let now = all.take(i + 1);
    let was = all.take(i);
    if let Some(b) = best {
        if b == i {
            turns_are_ordered(all[i], all[i], all[i]);
        }
        assert(now[b as int] == all[b as int]);
        assert forall|j: int| 0 <= j < now.len() && qualifies(
            chain,
            ts,
            #[trigger] now[j],
        ) implies if j <= b {
            !earlier_turn(now[b as int], now[j])
        } else {
            earlier_turn(now[j], now[b as int])
        } by {
            assert(now[j] == all[j]);
            if j < i {
                assert(was[j] == all[j]);
                match old_best {
                    Some(o) => {
                        assert(was[o as int] == all[o as int]);
                        if b == i {
                            turns_are_ordered(all[i], all[o as int], all[j]);
                            turns_are_ordered(all[j], all[o as int], all[i]);
                            turns_are_ordered(all[o as int], all[j], all[i]);
                        }
                    },
                    None => {},
                }
            }
        }
    }
}

// ── laws ────────────────────────────────────────────────────────────────────

proof fn rolling_of_prefix(messages: Seq<JsonView>, more: Seq<JsonView>, n: int)
    requires
        0 <= n <= messages.len(),
    ensures
        rolling(messages + more, n) == rolling(messages, n),
    decreases n,
{
    if n > 0 {
        rolling_of_prefix(messages, more, n - 1);
        assert((messages + more)[n - 1] == messages[n - 1]);
    }
}

/// A turn that appends to another's messages continues it, and the other does
/// not continue it back.
pub proof fn a_later_turn_continues(messages: Seq<JsonView>, more: Seq<JsonView>)
    requires
        messages.len() > 0,
        more.len() > 0,
    ensures
        continues(chain_of(messages + more), chain_of(messages)),
        !continues(chain_of(messages), chain_of(messages + more)),
{
    rolling_of_prefix(messages, more, messages.len() as int);
}

/// Nothing continues itself, and of two chains at most one continues the other.
pub proof fn continuing_is_strict(a: Seq<u64>, b: Seq<u64>)
    ensures
        !continues(a, a),
        !(continues(a, b) && continues(b, a)),
{
}

/// Nothing continues an empty transcript, nor does an empty one continue
/// anything.
pub proof fn empty_matches_nothing(a: Seq<u64>)
    ensures
        !continues(a, Seq::empty()),
        !continues(Seq::empty(), a),
{
}

spec fn power16(n: nat) -> nat
    decreases n,
{
    if n == 0 {
        1
    } else {
        16 * power16((n - 1) as nat)
    }
}

/// So many digits are written as are asked for.
pub proof fn hex_width(n: nat, width: nat)
    ensures
        hex_digits(n, width).len() == width,
    decreases width,
{
    if width > 0 {
        hex_width(n / 16, (width - 1) as nat);
    }
}

proof fn hex_reads_back(n: nat, width: nat)
    requires
        n < power16(width),
    ensures
        hex_digits(n, width).len() == width,
        forall|i: int|
            0 <= i < width ==> hex_value_of(#[trigger] hex_digits(n, width)[i]) is Some
                && hex_digits(n, width)[i] != '+' && hex_digits(n, width)[i] != '.',
        hex_number(hex_digits(n, width)) == n,
    decreases width,
{
    if width > 0 {
        assert(n / 16 < power16((width - 1) as nat)) by (nonlinear_arith)
            requires
                n < 16 * power16((width - 1) as nat),
        ;
        hex_reads_back(n / 16, (width - 1) as nat);
        let digits = hex_digits(n, width);
        assert(digits.drop_last() =~= hex_digits(n / 16, (width - 1) as nat));
        let d = (n % 16) as int;
        assert(0 <= d < 16);
        assert(hex_value_of(hex_char(d)) == Some(d as nat));
    }
}

proof fn hash_reads_back(hash: u64)
    ensures
        hash_in(hex_digits(hash as nat, 16)) == Some(hash),
        find(hex_digits(hash as nat, 16), "."@) is None,
{
    reveal_with_fuel(power16, 17);
    hex_reads_back(hash as nat, 16);
    let digits = hex_digits(hash as nat, 16);
    assert(digits[0] != '+');
    reveal_strlit(".");
    find_from_is_first(digits, "."@, 0);
    if let Some(at) = find(digits, "."@) {
        assert(digits.subrange(at, at + 1)[0] == "."@[0]);
        assert(digits[at] == '.');
    }
}

proof fn join_from_front(list: Seq<Seq<char>>, between: Seq<char>)
    requires
        list.len() >= 2,
    ensures
        join(list, between) == list[0] + between + join(list.drop_first(), between),
    decreases list.len(),
{
    let rest = list.drop_first();
    if list.len() == 2 {
        assert(list.drop_last().len() == 1);
        assert(list.drop_last()[0] == list[0]);
        assert(rest[0] == list[1]);
        assert(join(list.drop_last(), between) == list[0]);
        assert(join(rest, between) == list[1]);
        assert(join(list, between) =~= list[0] + between + list[1]);
    } else {
        join_from_front(list.drop_last(), between);
        assert(list.drop_last().drop_first() =~= rest.drop_last());
        assert(rest.last() == list.last());
        assert(join(list, between) =~= list[0] + between + join(rest, between));
    }
}

/// Splitting at a point finds the first part where it holds none.
proof fn split_front(first: Seq<char>, rest: Seq<char>)
    requires
        find(first, "."@) is None,
    ensures
        split(first + "."@ + rest, "."@) == seq![first] + split(rest, "."@),
{
    reveal_strlit(".");
    let point = "."@;
    let s = first + point + rest;
    find_from_is_first(first, point, 0);
    find_from_is_first(s, point, 0);
    assert(s.subrange(first.len() as int, first.len() as int + 1) =~= point);
    assert(occurs_at(s, point, first.len() as int));
    let at = find(s, point)->0;
    if at < first.len() {
        assert(s.subrange(at, at + 1)[0] == '.');
        assert(first.subrange(at, at + 1) =~= point);
        assert(occurs_at(first, point, at));
    }
    assert(at == first.len());
    assert(s.take(at) =~= first);
    assert(s.skip(at + 1) =~= rest);
}

proof fn split_of_join(hashes: Seq<u64>)
    requires
        hashes.len() > 0,
    ensures
        split(encoded(hashes), "."@) == hash_texts(hashes),
    decreases hashes.len(),
{
    let list = hash_texts(hashes);
    hash_reads_back(hashes[0]);
    if hashes.len() == 1 {
        assert(list =~= seq![list[0]]);
        assert(join(list, "."@) == list[0]);
        assert(split(list[0], "."@) =~= seq![list[0]]);
    } else {
        let rest = hashes.drop_first();
        split_of_join(rest);
        assert(hash_texts(rest) =~= list.drop_first());
        join_from_front(list, "."@);
        split_front(list[0], encoded(rest));
        assert(list =~= seq![list[0]] + hash_texts(rest));
    }
}

/// A chain that is stored is read back as it was.
pub proof fn storage_round_trips(hashes: Seq<u64>)
    ensures
        hashes_in(encoded(hashes)) == hashes,
{
    if hashes.len() == 0 {
        reveal_strlit(".");
        find_from_is_first(Seq::empty(), "."@, 0);
        assert(encoded(hashes) =~= Seq::empty());
        let parts = split(encoded(hashes), "."@);
        assert(parts =~= seq![Seq::<char>::empty()]);
        assert(hash_in(parts[0]) is None);
    } else {
        split_of_join(hashes);
        let parts = hash_texts(hashes);
        assert forall|i: int| 0 <= i < parts.len() implies hash_in(#[trigger] parts[i]) == Some(
            hashes[i],
        ) by {
            hash_reads_back(hashes[i]);
        }
        assert(parts.map_values(|part: Seq<char>| hash_in(part)->0) =~= hashes);
    }
}

/// A text of which any part is no hash matches nothing: its chain is empty.
pub proof fn damaged_chains_match_nothing(s: Seq<char>, i: int)
    requires
        0 <= i < split(s, "."@).len(),
        hash_in(split(s, "."@)[i]) is None,
    ensures
        hashes_in(s) == Seq::<u64>::empty(),
{
}

/// The hash is FNV-1a: each byte is mixed in after those before it.
pub proof fn hashes_go_on(seed: u64, a: Seq<u8>, b: Seq<u8>, byte: u8)
    ensures
        fnv(seed, Seq::empty()) == seed,
        fnv(seed, a.push(byte)) == (fnv(seed, a) ^ (byte as u64)).wrapping_mul(0x0000_0100_0000_01b3),
        fnv(seed, a + b) == fnv(fnv(seed, a), b),
    decreases b.len(),
{
    assert(a.push(byte).drop_last() =~= a);
    if b.len() == 0 {
        assert(a + b =~= a);
    } else {
        assert((a + b).drop_last() =~= a + b.drop_last());
        hashes_go_on(seed, a, b.drop_last(), byte);
    }
}

proof fn rolling_shares_prefix(a: Seq<JsonView>, b: Seq<JsonView>, n: int)
    requires
        0 <= n <= a.len(),
        n <= b.len(),
        forall|i: int| 0 <= i < n ==> #[trigger] a[i] == b[i],
    ensures
        rolling(a, n) == rolling(b, n),
    decreases n,
{
    if n > 0 {
        rolling_shares_prefix(a, b, n - 1);
        assert(a[n - 1] == b[n - 1]);
    }
}

/// A chain has one hash for each message, over all of the messages up to it: the
/// hash goes on from message to message, over their JSON texts.
pub proof fn chains_hash_every_prefix(messages: Seq<JsonView>, last: JsonView, i: int)
    ensures
        chain_of(messages).len() == messages.len(),
        chain_of(messages.push(last)).len() == messages.len() + 1,
        0 <= i < messages.len() ==> chain_of(messages.push(last))[i] == chain_of(messages)[i],
        chain_of(messages.push(last)).last() == fnv(
            if messages.len() > 0 {
                chain_of(messages).last()
            } else {
                0xcbf2_9ce4_8422_2325
            },
            encode_utf8(json_text(last)),
        ),
{
    let all = messages.push(last);
    let n = messages.len() as int;
    rolling_shares_prefix(messages, all, n);
    if 0 <= i < n {
        rolling_shares_prefix(messages, all, i + 1);
    }
}

/// A request continues another exactly where it is longer, and the hash of as many
/// messages as the other has is the same.
pub proof fn continuing_is_sharing_a_prefix(chain: Seq<u64>, other: Seq<u64>)
    ensures
        continues(chain, other) <==> other.len() > 0 && chain.len() > other.len()
            && chain[other.len() - 1] == other[other.len() - 1],
{
}

/// Two requests are close where they are two hours apart at most, whichever was
/// first; a time that cannot be read rules nothing out.
pub proof fn two_hours_are_close(a: Seq<char>, b: Seq<char>)
    ensures
        close(a, b) == close(b, a),
        epoch_of(a) matches Some(x) ==> (epoch_of(b) matches Some(y) ==> (close(a, b) <==> -7200 <= y
            - x <= 7200)),
        epoch_of(a) is None || epoch_of(b) is None ==> close(a, b),
{
}

/// Of the turns that a request continues the latest is taken, and among those of
/// one time the longest; there is no second one.
pub proof fn the_latest_turn_is_taken(
    chain: Seq<u64>,
    ts: Seq<char>,
    candidates: Seq<Candidate>,
    i: int,
    j: int,
)
    requires
        is_latest(chain, ts, candidates, i),
    ensures
        continues(chain, candidates[i].chain@) && close(candidates[i].ts@, ts),
        0 <= j < candidates.len() && continues(chain, candidates[j].chain@) && close(
            candidates[j].ts@,
            ts,
        ) ==> {
            &&& !before(candidates[i].ts@, candidates[j].ts@)
            &&& candidates[i].ts@ == candidates[j].ts@ ==> candidates[j].chain@.len()
                <= candidates[i].chain@.len()
        },
        is_latest(chain, ts, candidates, j) ==> i == j,
{
    if 0 <= j < candidates.len() && qualifies(chain, ts, candidates[j]) {
        before_is_total(candidates[i].ts@, candidates[j].ts@);
    }
}

/// A stored hash is sixteen hexadecimal digits, and a chain is its hashes with a
/// dot between them.
pub proof fn hashes_are_stored_as_digits(hashes: Seq<u64>, hash: u64)
    ensures
        hash_texts(hashes).len() == hashes.len(),
        encoded(seq![hash]) == hex_digits(hash as nat, 16),
        hashes.len() > 0 ==> encoded(hashes.push(hash)) == encoded(hashes) + "."@ + hex_digits(
            hash as nat,
            16,
        ),
{
    assert(hash_texts(seq![hash])[0] == hex_digits(hash as nat, 16));
    assert(hash_texts(hashes.push(hash)).drop_last() =~= hash_texts(hashes));
    assert(hash_texts(hashes.push(hash)).last() == hex_digits(hash as nat, 16));
}

} // verus!
