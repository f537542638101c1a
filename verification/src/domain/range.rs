//! Windows of time over what was recorded.
//!
//! Times are written in a fixed width, so that the order of their texts is the
//! order of the instants.
use vstd::prelude::*;

use super::civil::{civil_from_days, date_text, day_number, is_date, march_day_number, march_days,
    write_date};
use super::decode::{copy_text, owned_text};
use super::metrics::MAX_DAYS;
use crate::json::seen_text;
use crate::text::{
    before, chars_of, digit, head_of, int_of, is_digit, is_white, read_int, read_unsigned, sorts_before,
    tail_of, text_of, trim, trim_end, trim_start, trimmed_text, unsigned_below,
};

verus! {

/// A window from `since` on, up to `until` and without it. An absent bound
/// rules nothing out.
#[derive(Debug, PartialEq, Eq)]
pub struct Range {
    pub since: Option<String>,
    pub until: Option<String>,
}

impl Default for Range {
    fn default() -> (range: Self)
        ensures
            range@ == always(),
    {
        Range { since: None, until: None }
    }
}

impl Clone for Range {
    fn clone(&self) -> (copy: Self)
        ensures
            copy@ == self@,
    {
        Range { since: copy_text(&self.since), until: copy_text(&self.until) }
    }
}

/// A window by views.
#[verifier::ext_equal]
pub struct Span {
    pub since: Option<Seq<char>>,
    pub until: Option<Seq<char>>,
}

impl View for Range {
    type V = Span;

    open spec fn view(&self) -> Span {
        Span { since: owned_text(self.since), until: owned_text(self.until) }
    }
}

impl Span {
    /// Whether a time falls in the window.
    pub open spec fn holds(self, ts: Seq<char>) -> bool {
        &&& match self.since {
            Some(bound) => !before(ts, bound),
            None => true,
        }
        &&& match self.until {
            Some(bound) => before(ts, bound),
            None => true,
        }
    }
}

/// The window that holds every time.
pub open spec fn always() -> Span {
    Span { since: None, until: None }
}

/// Whether the character at `i` of an instant to the second is one that stands
/// there: `YYYY-MM-DDThh:mm:ss`.
pub open spec fn fits_instant(c: char, i: int) -> bool {
    if i == 4 || i == 7 {
        c == '-'
    } else if i == 10 {
        c == 'T'
    } else if i == 13 || i == 16 {
        c == ':'
    } else {
        is_digit(c)
    }
}

/// Tells whether a character may stand at `i` of an instant to the second.
pub fn fits_place(c: char, i: usize) -> (yes: bool)
    ensures
        yes == fits_instant(c, i as int),
{
    if i == 4 || i == 7 {
        c == '-'
    } else if i == 10 {
        c == 'T'
    } else if i == 13 || i == 16 {
        c == ':'
    } else {
        digit(c)
    }
}

/// Whether a text is an instant to the second, `YYYY-MM-DDThh:mm:ssZ`.
pub open spec fn to_the_second(s: Seq<char>) -> bool {
    s.len() == 20 && s[19] == 'Z' && forall|i: int|
        0 <= i < 19 ==> fits_instant(#[trigger] s[i], i)
}

/// A bound as times are compared with it. An instant to the second is written
/// to the millisecond, as the recorded times are; anything else stands.
pub open spec fn normalized(bound: Seq<char>) -> Seq<char> {
    let t = trim(bound);
    if to_the_second(t) {
        t.take(19) + ".000Z"@
    } else {
        t
    }
}

/// An optional bound as times are compared with it.
pub open spec fn normalized_bound(bound: Option<Seq<char>>) -> Option<Seq<char>> {
    match bound {
        Some(b) => Some(normalized(b)),
        None => None,
    }
}

/// A bound as times are compared with it.
pub fn normalize_bound(bound: &str) -> (text: String)
    ensures
        text@ == normalized(bound@),
{
    let t = trimmed_text(bound);
    let chars = chars_of(t.as_str());
    if chars.len() != 20 || chars[19] != 'Z' {
        return t;
    }
    for i in 0..19
        invariant
            chars@.len() == 20,
            chars@ == t@,
            t@ == trim(bound@),
            forall|j: int| 0 <= j < i ==> fits_instant(#[trigger] chars@[j], j),
    {
        if !fits_place(chars[i], i) {
            assert(!fits_instant(t@[i as int], i as int));
            return t;
        }
    }
    text_of(head_of(chars.as_slice(), 19)).concat(".000Z")
}

fn normalize_optional(bound: Option<&str>) -> (text: Option<String>)
    ensures
        owned_text(text) == normalized_bound(seen_text(bound)),
{
    match bound {
        Some(b) => Some(normalize_bound(b)),
        None => None,
    }
}

impl Range {
    /// The window that holds every time.
    pub fn all() -> (range: Range)
        ensures
            range@ == always(),
            forall|ts: Seq<char>| #[trigger] range@.holds(ts),
    {
        Range { since: None, until: None }
    }

    /// The window between bounds as they were given.
    pub fn parse(since: Option<&str>, until: Option<&str>) -> (range: Range)
        ensures
            range@ == (Span {
                since: normalized_bound(seen_text(since)),
                until: normalized_bound(seen_text(until)),
            }),
    {
        Range { since: normalize_optional(since), until: normalize_optional(until) }
    }

    /// Whether the window rules nothing out.
    pub fn is_unbounded(&self) -> (yes: bool)
        ensures
            yes == (self@ == always()),
    {
        self.since.is_none() && self.until.is_none()
    }

    /// Whether a time falls in the window.
    pub fn admits(&self, ts: &str) -> (yes: bool)
        ensures
            yes == self@.holds(ts@),
    {
        if let Some(bound) = &self.since {
            if sorts_before(ts, bound.as_str()) {
                return false;
            }
        }
        match &self.until {
            Some(bound) => sorts_before(ts, bound.as_str()),
            None => true,
        }
    }
}

// ── days ────────────────────────────────────────────────────────────────────

/// The year, month and day that a text starts with, `YYYY-MM-DD`. Whether there
/// is such a date is not asked.
pub open spec fn ymd_of(date: Seq<char>) -> Option<(int, int, int)> {
    if date.len() < 10 || date[4] != '-' || date[7] != '-' {
        None
    } else {
        match (
            int_of(date.subrange(0, 4)),
            unsigned_below(date.subrange(5, 7), 0x1_0000_0000),
            unsigned_below(date.subrange(8, 10), 0x1_0000_0000),
        ) {
            (Some(y), Some(m), Some(d)) => Some((y, m, d)),
            _ => None,
        }
    }
}

fn part_of(chars: &Vec<char>, from: usize, to: usize) -> (part: String)
    requires
        from <= to <= chars@.len(),
    ensures
        part@ == chars@.subrange(from as int, to as int),
{
    let part = tail_of(head_of(chars.as_slice(), to), from);
    assert(part@ =~= chars@.subrange(from as int, to as int));
    text_of(part)
}

/// Reads the year, month and day that a text starts with.
pub fn parse_ymd(date: &str) -> (ymd: Option<(i64, u32, u32)>)
    ensures
        match ymd {
            Some((y, m, d)) => ymd_of(date@) == Some((y as int, m as int, d as int)) && -999 <= y
                <= 9999,
            None => ymd_of(date@) is None,
        },
{
    let chars = chars_of(date);
    if chars.len() < 10 || chars[4] != '-' || chars[7] != '-' {
        return None;
    }
    let year = part_of(&chars, 0, 4);
    proof {
        super::conversation::short_numbers(year@);
        super::conversation::short_numbers(year@.drop_first());
    }
    let y: i64 = match read_int(year.as_str()) {
        Some(y) => y,
        None => {
            return None;
        },
    };
    let m: u64 = match read_unsigned(part_of(&chars, 5, 7).as_str(), 0xffff_ffff) {
        Some(m) => m,
        None => {
            return None;
        },
    };
    let d: u64 = match read_unsigned(part_of(&chars, 8, 10).as_str(), 0xffff_ffff) {
        Some(d) => d,
        None => {
            return None;
        },
    };
    Some((y, m as u32, d as u32))
}

/// The number of a date's day. Months beyond December start over, and days
/// beyond the end of a month count on.
pub open spec fn wrapped_day_number(y: int, m: int, d: int) -> int {
    march_day_number(
        if m <= 2 {
            y - 1
        } else {
            y
        },
        (m + 9) % 12,
        d,
    )
}

/// The number of a date's day.
pub fn days_from_civil(y: i64, m: u32, d: u32) -> (days: i64)
    requires
        -1_000_000_000_000_000 <= y <= 1_000_000_000_000_000,
    ensures
        days == wrapped_day_number(y as int, m as int, d as int),
        1 <= m <= 12 ==> days == day_number(y as int, m as int, d as int),
{
    march_days(
        if m <= 2 {
            y - 1
        } else {
            y
        },
        (m as i64 + 9) % 12,
        d as i64,
    )
}

/// How many days before the last of `days` days the first of them is.
pub open spec fn days_back(days: int) -> int {
    if days <= 1 {
        0
    } else if days - 1 > MAX_DAYS {
        MAX_DAYS as int
    } else {
        days - 1
    }
}

/// Whether a text writes the first of the `days` days that end with `latest`.
pub open spec fn is_floor(floor: Seq<char>, latest: (int, int, int), days: int) -> bool {
    exists|y: int, m: int, d: int|
        #![trigger is_date(y, m, d)]
        is_date(y, m, d) && day_number(y, m, d) == wrapped_day_number(
            latest.0,
            latest.1,
            latest.2,
        ) - days_back(days) && floor == date_text(y, m, d)
}

/// The first of the `days` days that end with `latest`; nothing where `latest`
/// is no date.
pub fn floor_day(latest: &str, days: i64) -> (floor: Option<String>)
    ensures
        match floor {
            Some(text) => ymd_of(latest@) is Some && is_floor(
                text@,
                ymd_of(latest@)->0,
                days as int,
            ),
            None => ymd_of(latest@) is None,
        },
{
    let (y, m, d) = match parse_ymd(latest) {
        Some(ymd) => ymd,
        None => {
            return None;
        },
    };
    let back: i64 = if days <= 1 {
        0
    } else if days - 1 > MAX_DAYS {
        MAX_DAYS
    } else {
        days - 1
    };
    let (fy, fm, fd) = civil_from_days(days_from_civil(y, m, d) - back);
    assert(is_date(fy as int, fm as int, fd as int));
    Some(write_date(fy, fm, fd))
}

// ── laws ────────────────────────────────────────────────────────────────────

/// Windows that meet share no time and leave none out between them.
pub proof fn adjacent_windows_meet(span: Span, middle: Seq<char>, ts: Seq<char>)
    ensures
        ({
            let earlier = Span { until: Some(middle), ..span };
            let later = Span { since: Some(middle), ..span };
            &&& !(earlier.holds(ts) && later.holds(ts))
            &&& span.holds(ts) ==> earlier.holds(ts) || later.holds(ts)
        }),
{
}

/// A bound to the second holds the time that is recorded on that second: as the
/// start of a window it lets it in, as the end it leaves it out.
pub proof fn whole_seconds_are_held(bound: Seq<char>)
    requires
        to_the_second(trim(bound)),
    ensures
        ({
            let instant = trim(bound).take(19) + ".000Z"@;
            &&& (Span { since: Some(normalized(bound)), until: None }).holds(instant)
            &&& !(Span { since: None, until: Some(normalized(bound)) }).holds(instant)
        }),
{
    crate::text::before_is_total(normalized(bound), normalized(bound));
}

proof fn trimmed_start_is_bare(s: Seq<char>)
    ensures
        trim_start(s).len() > 0 ==> !is_white(trim_start(s)[0]),
        trim_start(trim_start(s)) == trim_start(s),
    decreases s.len(),
{
    if s.len() > 0 && is_white(s[0]) {
        trimmed_start_is_bare(s.drop_first());
    }
}

proof fn trimmed_end_is_bare(s: Seq<char>)
    ensures
        trim_end(s).len() > 0 ==> !is_white(trim_end(s).last()) && trim_end(s)[0] == s[0],
        trim_end(trim_end(s)) == trim_end(s),
    decreases s.len(),
{
    if s.len() > 0 && is_white(s.last()) {
        trimmed_end_is_bare(s.drop_last());
    }
}

/// A bound that was rewritten stays as it is when it is rewritten again.
pub proof fn normalizing_settles(bound: Seq<char>)
    ensures
        normalized(normalized(bound)) == normalized(bound),
{
    reveal_strlit(".000Z");
    let t = trim(bound);
    let n = normalized(bound);
    trimmed_start_is_bare(bound);
    trimmed_end_is_bare(trim_start(bound));
    if to_the_second(t) {
        assert(fits_instant(t[0], 0));
        assert(n[0] == t[0]);
        assert(n.last() == 'Z');
        assert(trim(n) == n);
        assert(n.len() == 24);
    } else {
        assert(trim(t) == t);
    }
}

/// A window holds a time exactly where it is not before its start and before its
/// end.
pub proof fn windows_are_half_open(span: Span, ts: Seq<char>)
    ensures
        span.holds(ts) <==> {
            &&& span.since matches Some(start) ==> start == ts || before(start, ts)
            &&& span.until matches Some(end) ==> before(ts, end)
        },
        always().holds(ts),
{
    if let Some(start) = span.since {
        crate::text::before_is_total(ts, start);
    }
}

/// A bound is taken without the blanks around it; to the second it is the instant
/// at which that second starts.
pub proof fn bounds_are_instants(bound: Seq<char>)
    ensures
        to_the_second(trim(bound)) ==> normalized(bound) == trim(bound).take(19) + ".000Z"@,
        !to_the_second(trim(bound)) ==> normalized(bound) == trim(bound),
        normalized_bound(Some(bound)) == Some(normalized(bound)),
        normalized_bound(None) is None,
{
}

/// As many days are gone back as make that many with the last one, and never more
/// than there may be.
pub proof fn days_are_counted_with_the_last(days: int)
    ensures
        1 <= days <= 1101 ==> days_back(days) == days - 1,
        days < 1 ==> days_back(days) == 0,
        days > 1101 ==> days_back(days) == 1100,
{
}

} // verus!
