//! Finds text that has got stuck in a loop.
//!
//! A text is in a loop where its tail is one block of characters over and over.
//! Short repeats, blank runs and rules made of one punctuation character do not
//! count.
use vstd::prelude::*;

use crate::text::{chars_of, head_of, is_white, tail_of, text_of, whitespace};

verus! {

/// When repetition counts as a loop.
#[derive(Clone, Copy, Debug)]
pub struct Repetition {
    /// The fewest copies; below 2 nothing is detected.
    pub min_repeats: u32,
    /// The fewest characters that the copies span.
    pub min_run_len: usize,
    /// The longest block.
    pub max_period: usize,
}

impl Default for Repetition {
    fn default() -> (cfg: Self)
        ensures
            cfg.min_repeats == 4,
            cfg.min_run_len == 40,
            cfg.max_period == 512,
    {
        Repetition { min_repeats: 4, min_run_len: 40, max_period: 512 }
    }
}

impl Repetition {
    /// Whether anything is detected at all.
    pub open spec fn is_enabled(&self) -> bool {
        self.min_repeats >= 2 && self.max_period >= 1
    }

    pub fn enabled(&self) -> (yes: bool)
        ensures
            yes == self.is_enabled(),
    {
        self.min_repeats >= 2 && self.max_period >= 1
    }

    /// How much of the tail is enough to find a block that repeats.
    pub open spec fn window(&self) -> int {
        let wide = self.max_period * (self.min_repeats + 1);
        if wide > usize::MAX {
            usize::MAX as int
        } else {
            wide
        }
    }

    pub fn scan_window(&self) -> (n: usize)
        ensures
            n == self.window(),
    {
        proof {
            assert(self.max_period as int * (self.min_repeats + 1)
                <= 0xffff_ffff_ffff_ffff * 0x1_0000_0000) by (nonlinear_arith)
                requires
                    0 <= self.max_period as int <= 0xffff_ffff_ffff_ffff,
                    0 <= self.min_repeats as int <= 0xffff_ffff,
            ;
        }
        let copies: u128 = self.min_repeats as u128 + 1;
        assert(self.max_period as int * (self.min_repeats + 1) == self.max_period as int
            * copies as int);
        let wide: u128 = self.max_period as u128 * copies;
        if wide > usize::MAX as u128 {
            usize::MAX
        } else {
            wide as usize
        }
    }
}

/// A loop at the tail of a text.
#[derive(Clone, Copy, Debug, PartialEq, Eq, Structural)]
pub struct Detection {
    /// The number of copies.
    pub repeats: u32,
    /// The length of the block.
    pub unit_len: usize,
    /// Where the first copy starts.
    pub run_start: usize,
}

impl Detection {
    /// Where the first copy ends.
    pub fn keep_boundary(&self) -> (end: usize)
        requires
            self.run_start + self.unit_len <= usize::MAX,
        ensures
            end == self.run_start + self.unit_len,
    {
        self.run_start + self.unit_len
    }
}

// ── what a loop is ──────────────────────────────────────────────────────────

/// The number of copies of the last `p` characters that a text ends with.
pub open spec fn copies(s: Seq<char>, p: int) -> nat
    decreases s.len(),
{
    if p <= 0 || p > s.len() {
        0
    } else if 2 * p <= s.len() && s.subrange(s.len() - 2 * p, s.len() - p) == s.subrange(
        s.len() - p,
        s.len() as int,
    ) {
        1 + copies(s.take(s.len() - p), p)
    } else {
        1
    }
}

/// An ASCII punctuation character.
pub open spec fn is_punctuation(c: char) -> bool {
    let n = c as int;
    33 <= n <= 47 || 58 <= n <= 64 || 91 <= n <= 96 || 123 <= n <= 126
}

/// Whether a block is too plain to count: blanks, or one punctuation character
/// among blanks.
pub open spec fn is_plain(unit: Seq<char>) -> bool {
    &&& forall|i: int|
        0 <= i < unit.len() ==> is_white(#[trigger] unit[i]) || is_punctuation(unit[i])
    &&& forall|i: int, j: int|
        0 <= i < unit.len() && 0 <= j < unit.len() && !is_white(#[trigger] unit[i]) && !is_white(
            #[trigger] unit[j],
        ) ==> unit[i] == unit[j]
}

/// Whether a text ends in a loop of blocks of `p` characters.
pub open spec fn loops(s: Seq<char>, cfg: Repetition, p: int) -> bool {
    &&& 1 <= p <= cfg.max_period
    &&& copies(s, p) >= cfg.min_repeats
    &&& copies(s, p) * p >= cfg.min_run_len
    &&& !is_plain(s.skip(s.len() - p))
}

/// The smallest block length from `p` on with which a text ends in a loop.
pub open spec fn first_loop(s: Seq<char>, cfg: Repetition, p: int) -> Option<int>
    decreases cfg.max_period - p + 1,
{
    if p > cfg.max_period {
        None
    } else if loops(s, cfg, p) {
        Some(p)
    } else {
        first_loop(s, cfg, p + 1)
    }
}

/// The loop that a text ends in: the one with the smallest block.
pub open spec fn detected(s: Seq<char>, cfg: Repetition) -> Option<int> {
    if cfg.is_enabled() {
        first_loop(s, cfg, 1)
    } else {
        None
    }
}

/// Whether the last `r` blocks of `p` characters repeat.
pub open spec fn periodic(s: Seq<char>, p: int, r: int) -> bool {
    &&& r * p <= s.len()
    &&& forall|i: int| s.len() - r * p <= i < s.len() - p ==> #[trigger] s[i] == s[i + p]
}

/// There are `r` copies exactly where the last `r` blocks repeat.
pub proof fn copies_are_periodic(s: Seq<char>, p: int, r: int)
    requires
        1 <= p,
        1 <= r,
    ensures
        copies(s, p) >= r <==> periodic(s, p, r),
        copies(s, p) * p <= s.len(),
    decreases s.len(),
{
    let n = s.len() as int;
    if p > n {
        assert(r * p >= p) by (nonlinear_arith)
            requires
                r >= 1,
                p >= 1,
        ;
        assert(copies(s, p) * p == 0) by (nonlinear_arith)
            requires
                copies(s, p) == 0,
        ;
    } else {
        let rest = s.take(n - p);
        let same = 2 * p <= n && s.subrange(n - 2 * p, n - p) == s.subrange(n - p, n);
        if same {
            copies_are_periodic(rest, p, if r > 1 {
                r - 1
            } else {
                1
            });
            assert((1 + copies(rest, p)) * p == p + copies(rest, p) * p) by (nonlinear_arith);
            if r == 1 {
                assert(1 * p == p);
            } else {
                assert(r * p == (r - 1) * p + p) by (nonlinear_arith);
                if periodic(rest, p, r - 1) {
                    assert forall|i: int| n - r * p <= i < n - p implies #[trigger] s[i] == s[i
                        + p] by {
                        if i < n - 2 * p {
                            assert(rest[i] == rest[i + p]);
                        } else {
                            let k = i - (n - 2 * p);
                            assert(s.subrange(n - 2 * p, n - p)[k] == s.subrange(n - p, n)[k]);
                        }
                    }
                }
                if periodic(s, p, r) {
                    assert forall|i: int|
                        rest.len() - (r - 1) * p <= i < rest.len() - p implies #[trigger] rest[i]
                        == rest[i + p] by {
                        assert(s[i] == s[i + p]);
                    }
                }
            }
        } else {
            assert(1 * p == p);
            if r == 1 {
            } else {
                if periodic(s, p, r) {
                    assert(r * p >= 2 * p) by (nonlinear_arith)
                        requires
                            r >= 2,
                            p >= 1,
                    ;
                    let a = s.subrange(n - 2 * p, n - p);
                    let b = s.subrange(n - p, n);
                    assert forall|k: int| 0 <= k < p implies a[k] == b[k] by {
                        assert(s[n - 2 * p + k] == s[n - 2 * p + k + p]);
                    }
                    assert(a =~= b);
                }
            }
        }
    }
}

/// What a tail shows of its repetition, the whole text shows.
proof fn tail_shows_copies(s: Seq<char>, from: int, p: int, r: int)
    requires
        0 <= from <= s.len(),
        1 <= p,
        1 <= r,
        r * p <= s.len() - from,
    ensures
        copies(s.skip(from), p) >= r <==> copies(s, p) >= r,
{
    let w = s.skip(from);
    copies_are_periodic(s, p, r);
    copies_are_periodic(w, p, r);
    if periodic(w, p, r) {
        assert forall|i: int| s.len() - r * p <= i < s.len() - p implies #[trigger] s[i] == s[i + p] by {
            assert(w[i - from] == w[i - from + p]);
        }
    }
    if periodic(s, p, r) {
        assert forall|i: int| w.len() - r * p <= i < w.len() - p implies #[trigger] w[i] == w[i + p] by {
            assert(s[i + from] == s[i + from + p]);
        }
    }
}

/// A tail shows no more copies than the whole text.
proof fn window_shows_no_more(s: Seq<char>, from: int, p: int)
    requires
        0 <= from <= s.len(),
        1 <= p,
    ensures
        copies(s.skip(from), p) <= copies(s, p),
{
    let r = copies(s.skip(from), p) as int;
    if r >= 1 {
        copies_are_periodic(s.skip(from), p, r);
        tail_shows_copies(s, from, p, r);
    }
}

// ── the detector ────────────────────────────────────────────────────────────

/// The number of copies of the last `p` characters that a text ends with.
pub fn count_back(chars: &[char], p: usize) -> (n: u32)
    requires
        copies(chars@, p as int) <= u32::MAX,
    ensures
        n == copies(chars@, p as int),
{
    let len: usize = chars.len();
    if p == 0 || p > len {
        return 0;
    }
    let mut reps: u32 = 1;
    let mut end: usize = len - p;
    proof {
        assert(chars@.take(len as int) =~= chars@);
    }
    // `end` is where the copies found so far start.
    while end >= p && same_block(chars, end, p)
        invariant
            1 <= p <= len,
            len == chars@.len(),
            end + p <= len,
            reps >= 1,
            copies(chars@, p as int) <= u32::MAX,
            copies(chars@, p as int) == (reps - 1) + copies(chars@.take(end + p), p as int),
        decreases end,
    {
        proof {
            let s = chars@.take(end + p);
            let n = s.len() as int;
            assert(s.subrange(n - 2 * p, n - p) =~= chars@.subrange(end - p, end as int));
            assert(s.subrange(n - p, n) =~= chars@.subrange(end as int, end + p));
            assert(s.take(n - p) =~= chars@.take(end as int));
            assert(copies(chars@.take(end as int), p as int) >= 1);
        }
        reps = reps + 1;
        end = end - p;
    }
    proof {
        let s = chars@.take(end + p);
        let n = s.len() as int;
        if 2 * p <= n {
            assert(s.subrange(n - 2 * p, n - p) =~= chars@.subrange(end - p, end as int));
            assert(s.subrange(n - p, n) =~= chars@.subrange(end as int, end + p));
        }
    }
    reps
}

/// Whether the `p` characters before `end` are those from `end` on.
fn same_block(chars: &[char], end: usize, p: usize) -> (yes: bool)
    requires
        p <= end,
        end + p <= chars@.len(),
    ensures
        yes == (chars@.subrange(end - p, end as int) == chars@.subrange(end as int, end + p)),
{
    let ghost a = chars@.subrange(end - p, end as int);
    let ghost b = chars@.subrange(end as int, end + p);
    let len: usize = chars.len();
    for k in 0..p
        invariant
            p <= end,
            end + p <= chars@.len(),
            len == chars@.len(),
            a == chars@.subrange(end - p, end as int),
            b == chars@.subrange(end as int, end + p),
            forall|j: int| 0 <= j < k ==> a[j] == b[j],
    {
        if chars[end - p + k] != chars[end + k] {
            assert(a[k as int] != b[k as int]);
            return false;
        }
    }
    assert(a =~= b);
    true
}

/// The last `max_chars` characters of a text; all of them where it has fewer,
/// or where 0 are asked for.
pub fn tail_chars(s: &str, max_chars: usize) -> (tail: Vec<char>)
    ensures
        tail@ == (if max_chars == 0 || max_chars >= s@.len() {
            s@
        } else {
            s@.skip(s@.len() - max_chars)
        }),
{
    let chars = chars_of(s);
    if max_chars == 0 || max_chars >= chars.len() {
        return chars;
    }
    let from: usize = chars.len() - max_chars;
    let part = tail_of(chars.as_slice(), from);
    let mut tail: Vec<char> = Vec::new();
    for i in 0..part.len()
        invariant
            tail@ == part@.take(i as int),
    {
        tail.push(part[i]);
        assert(part@.take(i + 1) =~= part@.take(i as int).push(part@[i as int]));
    }
    assert(part@.take(part@.len() as int) =~= part@);
    tail
}

fn punctuation(c: char) -> (yes: bool)
    ensures
        yes == is_punctuation(c),
{
    let n: u32 = c as u32;
    (33 <= n && n <= 47) || (58 <= n && n <= 64) || (91 <= n && n <= 96) || (123 <= n && n <= 126)
}

/// Whether a block is too plain to count.
pub fn is_trivial(unit: &[char]) -> (yes: bool)
    ensures
        yes == is_plain(unit@),
{
    let mut marker: Option<char> = None;
    let ghost mut marked: int = 0;
    for i in 0..unit.len()
        invariant
            forall|j: int|
                0 <= j < i ==> is_white(#[trigger] unit@[j]) || is_punctuation(unit@[j]),
            match marker {
                Some(m) => 0 <= marked < i && unit@[marked] == m && !is_white(m) && forall|j: int|
                    0 <= j < i && !is_white(#[trigger] unit@[j]) ==> unit@[j] == m,
                None => forall|j: int| 0 <= j < i ==> is_white(#[trigger] unit@[j]),
            },
    {
        let c: char = unit[i];
        if !whitespace(c) {
            if !punctuation(c) {
                assert(!is_white(unit@[i as int]) && !is_punctuation(unit@[i as int]));
                return false;
            }
            match marker {
                Some(m) => {
                    if m != c {
                        assert(!is_white(unit@[marked]) && !is_white(unit@[i as int]));
                        return false;
                    }
                },
                None => {
                    marker = Some(c);
                    proof {
                        marked = i as int;
                    }
                },
            }
        }
    }
    true
}

/// Finds the loop that a text ends in.
pub fn detect(text: &str, cfg: &Repetition) -> (found: Option<Detection>)
    requires
        forall|p: int|
            1 <= p <= cfg.max_period ==> #[trigger] copies(text@, p) <= u32::MAX,
    ensures
        match found {
            Some(d) => detected(text@, *cfg) == Some(d.unit_len as int) && d.repeats == copies(
                text@,
                d.unit_len as int,
            ) && d.run_start + d.repeats * d.unit_len == text@.len(),
            None => detected(text@, *cfg) is None,
        },
{
    if !cfg.enabled() {
        return None;
    }
    let ghost s = text@;
    let window = tail_chars(text, cfg.scan_window());
    let ghost from = s.len() - window@.len();
    let min: usize = cfg.min_repeats as usize;
    let full = chars_of(text);
    let len: usize = full.len();
    proof {
        assert(cfg.window() >= 1) by {
            assert(cfg.max_period * (cfg.min_repeats + 1) >= 1) by (nonlinear_arith)
                requires
                    cfg.max_period >= 1,
                    cfg.min_repeats >= 2,
            ;
        }
        assert(s.skip(0) =~= s);
        assert(window@ == s.skip(from));
        assert(len == full@.len());
    }
    let mut p: usize = 1;
    while p <= cfg.max_period && p <= window.len()
        invariant
            1 <= p,
            cfg.is_enabled(),
            s == text@,
            full@ == s,
            forall|p: int| 1 <= p <= cfg.max_period ==> #[trigger] copies(s, p) <= u32::MAX,
            s.len() <= usize::MAX,
            0 <= from <= s.len(),
            window@ == s.skip(from),
            window@.len() == s.len() || window@.len() == cfg.window(),
            detected(s, *cfg) == first_loop(s, *cfg, p as int),
        decreases window@.len() - p + 1,
    {
        proof {
            window_shows_no_more(s, from, p as int);
        }
        let seen: u32 = count_back(window.as_slice(), p);
        proof {
            copies_are_periodic(window@, p as int, 1);
            copies_are_periodic(s, p as int, cfg.min_repeats as int);
            enough_is_seen(s, *cfg, from, p as int);
        }
        if seen >= cfg.min_repeats {
            let unit = tail_of(window.as_slice(), window.len() - p);
            assert(unit@ =~= s.skip(s.len() - p));
            if !is_trivial(unit) {
                let repeats: u32 = count_back(full.as_slice(), p);
                let run_len: u128 = repeats as u128 * p as u128;
                assert(run_len == copies(s, p as int) * p);
                if run_len >= cfg.min_run_len as u128 {
                    proof {
                        copies_are_periodic(s, p as int, 1);
                    }
                    return Some(
                        Detection {
                            repeats,
                            unit_len: p,
                            run_start: full.len() - run_len as usize,
                        },
                    );
                }
            }
        }
        if p == usize::MAX {
            assert(first_loop(s, *cfg, p + 1) is None);
            return None;
        }
        p = p + 1;
    }
    proof {
        no_longer_loops(s, *cfg, from, p as int);
    }
    None
}

/// The window is wide enough: what repeats often enough in the text does so in
/// the window.
proof fn enough_is_seen(s: Seq<char>, cfg: Repetition, from: int, p: int)
    requires
        cfg.is_enabled(),
        0 <= from <= s.len(),
        s.len() <= usize::MAX,
        from == 0 || s.len() - from == cfg.window(),
        1 <= p <= cfg.max_period,
    ensures
        copies(s.skip(from), p) >= cfg.min_repeats <==> copies(s, p) >= cfg.min_repeats,
{
    let r = cfg.min_repeats as int;
    if from == 0 {
        assert(s.skip(0) =~= s);
    } else {
        assert(r * p <= cfg.max_period * (cfg.min_repeats + 1)) by (nonlinear_arith)
            requires
                1 <= p <= cfg.max_period,
                r == cfg.min_repeats,
                r >= 2,
        ;
        if r * p <= s.len() - from {
            tail_shows_copies(s, from, p, r);
        } else {
            assert(cfg.window() == usize::MAX);
        }
    }
}

/// A block that does not fit in the window is no loop.
proof fn no_longer_loops(s: Seq<char>, cfg: Repetition, from: int, p: int)
    requires
        cfg.is_enabled(),
        0 <= from <= s.len(),
        s.len() <= usize::MAX,
        from == 0 || s.len() - from == cfg.window(),
        1 <= p,
        p > cfg.max_period || p > s.len() - from,
    ensures
        first_loop(s, cfg, p) is None,
    decreases cfg.max_period - p + 1,
{
    if p <= cfg.max_period {
        enough_is_seen(s, cfg, from, p);
        assert(copies(s.skip(from), p) == 0);
        no_longer_loops(s, cfg, from, p + 1);
    }
}

/// A text with its loop cut down to the first copy. A text that ends before the
/// copy does is kept whole.
pub fn truncated(text: &str, det: &Detection) -> (kept: String)
    requires
        det.run_start + det.unit_len <= usize::MAX,
    ensures
        kept@ == (if det.run_start + det.unit_len <= text@.len() {
            text@.take(det.run_start + det.unit_len)
        } else {
            text@
        }),
{
    let chars = chars_of(text);
    let end: usize = det.keep_boundary();
    if end <= chars.len() {
        text_of(head_of(chars.as_slice(), end))
    } else {
        text_of(chars.as_slice())
    }
}

// ── laws ────────────────────────────────────────────────────────────────────

proof fn first_loop_is_first(s: Seq<char>, cfg: Repetition, from: int)
    ensures
        match first_loop(s, cfg, from) {
            Some(p) => from <= p && loops(s, cfg, p) && forall|q: int|
                from <= q < p ==> !loops(s, cfg, q),
            None => forall|q: int| from <= q ==> !loops(s, cfg, q),
        },
    decreases cfg.max_period - from + 1,
{
    if from <= cfg.max_period && !loops(s, cfg, from) {
        first_loop_is_first(s, cfg, from + 1);
    }
}

/// What is detected is a loop, the one with the smallest block; its copies are
/// equal, one after the other, up to the end of the text; and where nothing is
/// detected there is none.
pub proof fn a_detection_is_a_loop(s: Seq<char>, cfg: Repetition)
    ensures
        match detected(s, cfg) {
            Some(p) => loops(s, cfg, p) && (forall|q: int| 1 <= q < p ==> !loops(s, cfg, q))
                && periodic(s, p, copies(s, p) as int),
            None => !cfg.is_enabled() || forall|q: int| !loops(s, cfg, q),
        },
{
    if cfg.is_enabled() {
        first_loop_is_first(s, cfg, 1);
        if let Some(p) = detected(s, cfg) {
            copies_are_periodic(s, p, copies(s, p) as int);
        }
    }
}

/// Cutting a loop down keeps everything before it and one copy, and drops at
/// least one.
pub proof fn a_copy_is_kept(s: Seq<char>, cfg: Repetition)
    requires
        detected(s, cfg) is Some,
    ensures
        ({
            let p = detected(s, cfg)->0;
            let start = s.len() - copies(s, p) * p;
            &&& 0 <= start
            &&& start + 2 * p <= s.len()
            &&& s.subrange(start, start + p) == s.skip(s.len() - p)
        }),
{
    first_loop_is_first(s, cfg, 1);
    let p = detected(s, cfg)->0;
    let r = copies(s, p) as int;
    copies_are_periodic(s, p, r);
    assert(r * p >= 2 * p) by (nonlinear_arith)
        requires
            r >= 2,
            p >= 1,
    ;
    let start = s.len() - r * p;
    block_repeats(s, p, r, r);
    let first = s.subrange(start, start + p);
    let last = s.skip(s.len() - p);
    assert forall|i: int| 0 <= i < p implies first[i] == last[i] by {
        assert(s[s.len() - r * p + i] == s[s.len() - p + i]);
    }
    assert(first =~= last);
}

/// The `k`-th block from the end equals the last.
proof fn block_repeats(s: Seq<char>, p: int, r: int, k: int)
    requires
        1 <= p,
        1 <= k <= r,
        periodic(s, p, r),
    ensures
        k * p <= r * p,
        forall|i: int| 0 <= i < p ==> #[trigger] s[s.len() - k * p + i] == s[s.len() - p + i],
    decreases k,
{
    assert(k * p <= r * p) by (nonlinear_arith)
        requires
            k <= r,
            p >= 1,
    ;
    if k > 1 {
        block_repeats(s, p, r, k - 1);
        assert(k * p == (k - 1) * p + p) by (nonlinear_arith);
        assert((k - 1) * p >= p) by (nonlinear_arith)
            requires
                k >= 2,
                p >= 1,
        ;
        assert forall|i: int| 0 <= i < p implies #[trigger] s[s.len() - k * p + i] == s[s.len() - p
            + i] by {
            let at = s.len() - k * p + i;
            assert(s[at] == s[at + p]);
            assert(at + p == s.len() - (k - 1) * p + i);
        }
    } else {
        assert(1 * p == p);
    }
}

/// A text is caught in a loop where its end is a block of at most so many
/// characters over and over again: often enough, over a run that is long enough,
/// and saying something.
pub proof fn loops_are_long_runs_of_one_block(s: Seq<char>, cfg: Repetition, p: int)
    requires
        cfg.min_repeats >= 1,
    ensures
        loops(s, cfg, p) <==> {
            &&& 1 <= p <= cfg.max_period
            &&& periodic(s, p, cfg.min_repeats as int)
            &&& copies(s, p) * p >= cfg.min_run_len
            &&& !is_plain(s.skip(s.len() - p))
        },
{
    if 1 <= p {
        copies_are_periodic(s, p, cfg.min_repeats as int);
    }
}

/// A block says nothing where it is blank, or blanks and one mark of punctuation
/// over and over; a letter or a digit, or two different marks, say something.
pub proof fn plain_blocks_say_nothing(unit: Seq<char>, i: int, j: int)
    requires
        0 <= i < unit.len(),
        0 <= j < unit.len(),
    ensures
        is_plain(unit) ==> is_white(unit[i]) || 33 <= unit[i] as int <= 47 || 58 <= unit[i] as int
            <= 64 || 91 <= unit[i] as int <= 96 || 123 <= unit[i] as int <= 126,
        is_plain(unit) && !is_white(unit[i]) && !is_white(unit[j]) ==> unit[i] == unit[j],
        (forall|k: int| 0 <= k < unit.len() ==> is_white(#[trigger] unit[k])) ==> is_plain(unit),
        (forall|k: int| 0 <= k < unit.len() ==> #[trigger] unit[k] == '-') ==> is_plain(unit),
{
}

/// The tail that is looked at holds one copy more than a loop needs, of the longest
/// block.
pub proof fn the_window_holds_a_loop(cfg: Repetition)
    ensures
        cfg.max_period * (cfg.min_repeats + 1) <= usize::MAX ==> cfg.window() == cfg.max_period * (
        cfg.min_repeats + 1),
        cfg.window() <= usize::MAX,
        cfg.is_enabled() <==> cfg.min_repeats >= 2 && cfg.max_period >= 1,
{
}

} // verus!
