//! The time of an outcome, and the order of such times.
use vstd::prelude::*;

use super::civil::{
    dates_are_distinct, day_number, dates_in_order, instant_text, is_date, write_day_instant,
    writes_instant,
};
use super::conversation::{close, epoch_of, is_gap_floor, is_stamp, MAX_GAP_SECONDS};
use crate::text::{
    all_digits, before, before_is_total, decimal, decimal_reads_back, digits_value, is_digit,
    zero_padded,
};

verus! {

/// A point in time.
#[verifier::external_type_specification]
#[verifier::external_body]
pub struct ExSystemTime(std::time::SystemTime);

/// `SystemTime::now` reads the machine's clock: nothing is claimed of what it
/// says.
pub assume_specification[ std::time::SystemTime::now ]() -> (now: std::time::SystemTime)
;

/// `SystemTime::duration_since`, with the start of 1970: the time that has
/// passed since, or none where the clock stands before it. A clock's reading is
/// opaque, so nothing is claimed of the span.
#[verifier::external_body]
fn since_epoch(now: std::time::SystemTime) -> (span: std::time::Duration) {
    now.duration_since(std::time::UNIX_EPOCH).unwrap_or_default()
}

/// `Duration::as_secs`: the whole seconds of a span. A span is opaque, so
/// nothing is claimed of their number.
pub assume_specification[ std::time::Duration::as_secs ](span: &std::time::Duration) -> (secs: u64)
;

/// `Duration::subsec_millis`: the milliseconds beyond the whole seconds, which
/// are fewer than a thousand.
pub assume_specification[ std::time::Duration::subsec_millis ](span: &std::time::Duration) -> (
    millis: u32)
    ensures
        millis < 1000,
;

/// Writes the instant so many seconds and milliseconds after the start of 1970.
pub fn rfc3339(secs: u64, millis: u32) -> (text: String)
    ensures
        writes_instant(text@, secs as int, millis as int),
{
    write_day_instant((secs / 86_400) as i64, secs % 86_400, millis)
}

/// The current time, RFC 3339 in UTC, to the millisecond.
pub fn now_rfc3339() -> (text: String)
    ensures
        exists|secs: int, millis: int|
            0 <= secs <= u64::MAX && 0 <= millis < 1000 && #[trigger] writes_instant(
                text@,
                secs,
                millis,
            ),
{
    let span = since_epoch(std::time::SystemTime::now());
    rfc3339(span.as_secs(), span.subsec_millis())
}

// ── order ───────────────────────────────────────────────────────────────────

proof fn joined_order(a: Seq<char>, b: Seq<char>, x: Seq<char>, y: Seq<char>)
    requires
        a.len() == b.len(),
    ensures
        before(a + x, b + y) == (before(a, b) || (a == b && before(x, y))),
    decreases a.len(),
{
    before_is_total(a, b);
    if a.len() == 0 {
        assert(a =~= b);
        assert(a + x =~= x);
        assert(b + y =~= y);
    } else {
        let ra = a.drop_first();
        let rb = b.drop_first();
        joined_order(ra, rb, x, y);
        assert((a + x).drop_first() =~= ra + x);
        assert((b + y).drop_first() =~= rb + y);
        if a[0] == b[0] && ra == rb {
            assert(a =~= seq![a[0]] + ra);
            assert(b =~= seq![b[0]] + rb);
        }
    }
}

proof fn digits_order(a: Seq<char>, b: Seq<char>)
    requires
        a.len() == b.len(),
        forall|i: int| 0 <= i < a.len() ==> is_digit(#[trigger] a[i]),
        forall|i: int| 0 <= i < b.len() ==> is_digit(#[trigger] b[i]),
    ensures
        digits_value(a) < digits_value(b) ==> before(a, b),
        digits_value(a) == digits_value(b) ==> a == b,
    decreases a.len(),
{
    if a.len() == 0 {
        assert(a =~= b);
    } else {
        let ra = a.drop_last();
        let rb = b.drop_last();
        assert forall|i: int| 0 <= i < ra.len() implies is_digit(#[trigger] ra[i]) by {
            assert(ra[i] == a[i]);
        }
        assert forall|i: int| 0 <= i < rb.len() implies is_digit(#[trigger] rb[i]) by {
            assert(rb[i] == b[i]);
        }
        digits_order(ra, rb);
        let x = seq![a.last()];
        let y = seq![b.last()];
        assert(is_digit(a[a.len() - 1]) && is_digit(b[b.len() - 1]));
        joined_order(ra, rb, x, y);
        assert(a =~= ra + x);
        assert(b =~= rb + y);
        assert(x.drop_first() =~= Seq::empty());
        assert(before(x, y) == (a.last() < b.last())) by {
            before_is_total(x.drop_first(), y.drop_first());
        }
    }
}

proof fn zero_in_front(s: Seq<char>)
    ensures
        digits_value(seq!['0'] + s) == digits_value(s),
    decreases s.len(),
{
    let t = seq!['0'] + s;
    if s.len() == 0 {
        assert(t.drop_last() =~= Seq::empty());
        assert(digits_value(t.drop_last()) == 0);
    } else {
        zero_in_front(s.drop_last());
        assert(t.drop_last() =~= seq!['0'] + s.drop_last());
    }
}

proof fn padding_keeps(s: Seq<char>, width: nat)
    requires
        all_digits(s),
        s.len() <= width,
    ensures
        all_digits(zero_padded(s, width)),
        zero_padded(s, width).len() == width,
        digits_value(zero_padded(s, width)) == digits_value(s),
    decreases width - s.len(),
{
    if s.len() < width {
        zero_in_front(s);
        let t = seq!['0'] + s;
        assert forall|i: int| 0 <= i < t.len() implies is_digit(#[trigger] t[i]) by {
            if i > 0 {
                assert(t[i] == s[i - 1]);
            }
        }
        padding_keeps(t, width);
    }
}

/// A number in a fixed width.
spec fn field(n: int, width: nat) -> Seq<char> {
    zero_padded(decimal(n as nat), width)
}

spec fn power10(n: nat) -> nat
    decreases n,
{
    if n == 0 {
        1
    } else {
        10 * power10((n - 1) as nat)
    }
}

proof fn decimal_width(n: nat, width: nat)
    requires
        n < power10(width),
        width > 0,
    ensures
        decimal(n).len() <= width,
    decreases width,
{
    if n >= 10 {
        if width == 1 {
            assert(power10(0) == 1);
        } else {
            assert(n / 10 < power10((width - 1) as nat)) by (nonlinear_arith)
                requires
                    n < 10 * power10((width - 1) as nat),
            ;
            decimal_width(n / 10, (width - 1) as nat);
        }
    }
}

proof fn field_is_read(n: int, width: nat)
    requires
        0 <= n < power10(width),
        width > 0,
    ensures
        all_digits(field(n, width)),
        field(n, width).len() == width,
        digits_value(field(n, width)) == n,
{
    decimal_width(n as nat, width);
    decimal_reads_back(n as nat);
    padding_keeps(decimal(n as nat), width);
}

proof fn powers()
    ensures
        power10(2) == 100,
        power10(3) == 1000,
        power10(4) == 10_000,
{
    assert(power10(0) == 1);
    assert(power10(1) == 10);
    assert(power10(2) == 100);
    assert(power10(3) == 1000);
}

/// What follows a field of the same width decides only where the fields are the
/// same.
proof fn fields_order(m: int, n: int, width: nat, x: Seq<char>, y: Seq<char>)
    requires
        0 <= m < power10(width),
        0 <= n < power10(width),
        width > 0,
    ensures
        m < n ==> before(field(m, width) + x, field(n, width) + y),
        m == n && before(x, y) ==> before(field(m, width) + x, field(n, width) + y),
{
    field_is_read(m, width);
    field_is_read(n, width);
    digits_order(field(m, width), field(n, width));
    joined_order(field(m, width), field(n, width), x, y);
}

proof fn same_start_order(p: Seq<char>, x: Seq<char>, y: Seq<char>)
    requires
        before(x, y),
    ensures
        before(p + x, p + y),
{
    joined_order(p, p, x, y);
}

/// The time of day and what follows it.
spec fn clock_part(rem: int, millis: int) -> Seq<char> {
    field(rem / 3600, 2) + (":"@ + (field(rem % 3600 / 60, 2) + (":"@ + (field(rem % 60, 2) + ("."@
        + (field(millis, 3) + "Z"@))))))
}

spec fn date_part(m: int, d: int, rest: Seq<char>) -> Seq<char> {
    "-"@ + (field(m, 2) + ("-"@ + (field(d, 2) + ("T"@ + rest))))
}

proof fn parts_of_instant(y: int, m: int, d: int, rem: int, millis: int)
    requires
        y >= 0,
    ensures
        instant_text(y, m, d, rem, millis) == field(y, 4) + date_part(
            m,
            d,
            clock_part(rem, millis),
        ),
{
    assert(instant_text(y, m, d, rem, millis) =~= field(y, 4) + date_part(
        m,
        d,
        clock_part(rem, millis),
    ));
}

proof fn clock_order(r1: int, ms1: int, r2: int, ms2: int)
    requires
        0 <= r1 < 86_400,
        0 <= r2 < 86_400,
        0 <= ms1 < 1000,
        0 <= ms2 < 1000,
        r1 < r2 || (r1 == r2 && ms1 < ms2),
    ensures
        before(clock_part(r1, ms1), clock_part(r2, ms2)),
{
    powers();
    let (h1, i1, s1) = (r1 / 3600, r1 % 3600 / 60, r1 % 60);
    let (h2, i2, s2) = (r2 / 3600, r2 % 3600 / 60, r2 % 60);
    assert(r1 == h1 * 3600 + i1 * 60 + s1);
    assert(r2 == h2 * 3600 + i2 * 60 + s2);
    let z = "Z"@;
    let m1 = field(ms1, 3) + z;
    let m2 = field(ms2, 3) + z;
    let t1 = field(s1, 2) + ("."@ + m1);
    let t2 = field(s2, 2) + ("."@ + m2);
    let u1 = field(i1, 2) + (":"@ + t1);
    let u2 = field(i2, 2) + (":"@ + t2);
    if ms1 < ms2 {
        fields_order(ms1, ms2, 3, z, z);
        same_start_order("."@, m1, m2);
    }
    fields_order(s1, s2, 2, "."@ + m1, "."@ + m2);
    if before(t1, t2) {
        same_start_order(":"@, t1, t2);
    }
    fields_order(i1, i2, 2, ":"@ + t1, ":"@ + t2);
    if before(u1, u2) {
        same_start_order(":"@, u1, u2);
    }
    fields_order(h1, h2, 2, ":"@ + u1, ":"@ + u2);
}

proof fn date_order(
    m1: int,
    d1: int,
    c1: Seq<char>,
    m2: int,
    d2: int,
    c2: Seq<char>,
)
    requires
        1 <= m1 <= 12,
        1 <= m2 <= 12,
        1 <= d1 <= 31,
        1 <= d2 <= 31,
        m1 < m2 || (m1 == m2 && (d1 < d2 || (d1 == d2 && before(c1, c2)))),
    ensures
        before(date_part(m1, d1, c1), date_part(m2, d2, c2)),
{
    powers();
    if before(c1, c2) {
        same_start_order("T"@, c1, c2);
    }
    let t1 = field(d1, 2) + ("T"@ + c1);
    let t2 = field(d2, 2) + ("T"@ + c2);
    fields_order(d1, d2, 2, "T"@ + c1, "T"@ + c2);
    if before(t1, t2) {
        same_start_order("-"@, t1, t2);
    }
    fields_order(m1, m2, 2, "-"@ + t1, "-"@ + t2);
    same_start_order("-"@, field(m1, 2) + ("-"@ + t1), field(m2, 2) + ("-"@ + t2));
}

/// Whether an instant falls in the years that are written in four digits.
pub open spec fn in_four_digit_years(secs: int) -> bool {
    -62_167_219_200 <= secs < 253_402_300_800
}

proof fn year_has_four_digits(y: int, m: int, d: int, secs: int)
    requires
        is_date(y, m, d),
        day_number(y, m, d) == secs / 86_400,
        in_four_digit_years(secs),
    ensures
        0 <= y < 10_000,
{
    assert(day_number(0, 1, 1) == -719_528);
    assert(day_number(9999, 12, 31) == 2_932_896);
    assert(-719_528 <= secs / 86_400 <= 2_932_896);
    if y < 0 {
        dates_in_order(y, m, d, 0, 1, 1);
    }
    if y > 9999 {
        dates_in_order(9999, 12, 31, y, m, d);
    }
}

/// The order of written instants is the order of the instants.
pub proof fn instants_sort_as_text(
    a: Seq<char>,
    s1: int,
    ms1: int,
    b: Seq<char>,
    s2: int,
    ms2: int,
)
    requires
        writes_instant(a, s1, ms1),
        writes_instant(b, s2, ms2),
        in_four_digit_years(s1),
        in_four_digit_years(s2),
        0 <= ms1 < 1000,
        0 <= ms2 < 1000,
        s1 < s2 || (s1 == s2 && ms1 < ms2),
    ensures
        before(a, b),
{
    let (y1, m1, d1) = choose|y: int, m: int, d: int|
        #![trigger is_date(y, m, d)]
        is_date(y, m, d) && day_number(y, m, d) == s1 / 86_400 && a == instant_text(
            y,
            m,
            d,
            s1 % 86_400,
            ms1,
        );
    let (y2, m2, d2) = choose|y: int, m: int, d: int|
        #![trigger is_date(y, m, d)]
        is_date(y, m, d) && day_number(y, m, d) == s2 / 86_400 && b == instant_text(
            y,
            m,
            d,
            s2 % 86_400,
            ms2,
        );
    year_has_four_digits(y1, m1, d1, s1);
    year_has_four_digits(y2, m2, d2, s2);
    let (r1, r2) = (s1 % 86_400, s2 % 86_400);
    let c1 = clock_part(r1, ms1);
    let c2 = clock_part(r2, ms2);
    powers();
    parts_of_instant(y1, m1, d1, r1, ms1);
    parts_of_instant(y2, m2, d2, r2, ms2);
    if s1 / 86_400 < s2 / 86_400 {
        dates_in_order(y1, m1, d1, y2, m2, d2);
    } else {
        dates_are_distinct(y1, m1, d1, y2, m2, d2);
        clock_order(r1, ms1, r2, ms2);
    }
    if y1 == y2 {
        date_order(m1, d1, c1, m2, d2, c2);
    }
    fields_order(y1, y2, 4, date_part(m1, d1, c1), date_part(m2, d2, c2));
}

// ── reading back ────────────────────────────────────────────────────────────

/// The places of the parts of an instant.
proof fn places_in_instant(
    y: Seq<char>,
    m: Seq<char>,
    d: Seq<char>,
    h: Seq<char>,
    i: Seq<char>,
    s: Seq<char>,
    ms: Seq<char>,
)
    requires
        y.len() == 4 && all_digits(y),
        m.len() == 2 && all_digits(m),
        d.len() == 2 && all_digits(d),
        h.len() == 2 && all_digits(h),
        i.len() == 2 && all_digits(i),
        s.len() == 2 && all_digits(s),
        ms.len() == 3 && all_digits(ms),
    ensures
        ({
            let t = y + seq!['-'] + m + seq!['-'] + d + seq!['T'] + h + seq![':'] + i + seq![':'] + s
                + seq!['.'] + ms + seq!['Z'];
            &&& is_stamp(t)
            &&& t.subrange(0, 4) == y && t.subrange(5, 7) == m && t.subrange(8, 10) == d
            &&& t.subrange(11, 13) == h && t.subrange(14, 16) == i && t.subrange(17, 19) == s
        }),
{
    let t = y + seq!['-'] + m + seq!['-'] + d + seq!['T'] + h + seq![':'] + i + seq![':'] + s
        + seq!['.'] + ms + seq!['Z'];
    assert(t.len() == 24);
    assert(t.subrange(0, 4) =~= y);
    assert(t.subrange(5, 7) =~= m);
    assert(t.subrange(8, 10) =~= d);
    assert(t.subrange(11, 13) =~= h);
    assert(t.subrange(14, 16) =~= i);
    assert(t.subrange(17, 19) =~= s);
    assert(t[0] == y[0] && t[1] == y[1] && t[2] == y[2] && t[3] == y[3]);
    assert(t[5] == m[0] && t[6] == m[1] && t[8] == d[0] && t[9] == d[1]);
    assert(t[11] == h[0] && t[12] == h[1] && t[14] == i[0] && t[15] == i[1]);
    assert(t[17] == s[0] && t[18] == s[1]);
    assert(t[20] == ms[0] && t[21] == ms[1] && t[22] == ms[2]);
    assert(t[4] == '-' && t[7] == '-' && t[10] == 'T' && t[13] == ':' && t[16] == ':');
    assert(t[19] == '.' && t[23] == 'Z');
}

proof fn instant_is_read(y: int, m: int, d: int, rem: int, millis: int)
    requires
        0 <= y < 10_000,
        is_date(y, m, d),
        0 <= rem < 86_400,
        0 <= millis < 1000,
    ensures
        epoch_of(instant_text(y, m, d, rem, millis)) == Some(
            day_number(y, m, d) * 86_400 + rem,
        ),
{
    reveal_strlit("-");
    reveal_strlit(":");
    reveal_strlit("T");
    reveal_strlit(".");
    reveal_strlit("Z");
    let (h, i, s) = (rem / 3600, rem % 3600 / 60, rem % 60);
    powers();
    field_is_read(y, 4);
    field_is_read(m, 2);
    field_is_read(d, 2);
    field_is_read(h, 2);
    field_is_read(i, 2);
    field_is_read(s, 2);
    field_is_read(millis, 3);
    let text = instant_text(y, m, d, rem, millis);
    let t = field(y, 4) + seq!['-'] + field(m, 2) + seq!['-'] + field(d, 2) + seq!['T'] + field(
        h,
        2,
    ) + seq![':'] + field(i, 2) + seq![':'] + field(s, 2) + seq!['.'] + field(millis, 3) + seq!['Z'];
    assert("-"@ =~= seq!['-']);
    assert(":"@ =~= seq![':']);
    assert("T"@ =~= seq!['T']);
    assert("."@ =~= seq!['.']);
    assert("Z"@ =~= seq!['Z']);
    assert(text =~= t);
    places_in_instant(
        field(y, 4),
        field(m, 2),
        field(d, 2),
        field(h, 2),
        field(i, 2),
        field(s, 2),
        field(millis, 3),
    );
    assert(rem == h * 3600 + i * 60 + s);
}

/// A written instant names the second that it was written for.
pub proof fn instants_read_back(text: Seq<char>, secs: int, millis: int)
    requires
        writes_instant(text, secs, millis),
        in_four_digit_years(secs),
        0 <= millis < 1000,
    ensures
        epoch_of(text) == Some(secs),
{
    let (y, m, d) = choose|y: int, m: int, d: int|
        #![trigger is_date(y, m, d)]
        is_date(y, m, d) && day_number(y, m, d) == secs / 86_400 && text == instant_text(
            y,
            m,
            d,
            secs % 86_400,
            millis,
        );
    year_has_four_digits(y, m, d, secs);
    instant_is_read(y, m, d, secs % 86_400, millis);
}

/// A time that sorts before the floor of a turn is too far from it to belong to
/// the same conversation, and one that does not, and is not too late, is close
/// enough: to leave out early what sorts before the floor loses no turn, and
/// leaves none that the distance alone would rule out.
pub proof fn the_floor_loses_no_turn(
    ts: Seq<char>,
    secs: int,
    millis: int,
    earlier: Seq<char>,
    earlier_secs: int,
    earlier_millis: int,
    floor: Seq<char>,
)
    requires
        writes_instant(ts, secs, millis),
        writes_instant(earlier, earlier_secs, earlier_millis),
        0 <= millis < 1000,
        0 <= earlier_millis < 1000,
        in_four_digit_years(secs - MAX_GAP_SECONDS),
        in_four_digit_years(secs),
        in_four_digit_years(earlier_secs),
        is_gap_floor(ts, floor),
    ensures
        before(earlier, floor) ==> !close(earlier, ts),
        !before(earlier, floor) && earlier_secs <= secs + MAX_GAP_SECONDS ==> close(earlier, ts),
{
    instants_read_back(ts, secs, millis);
    instants_read_back(earlier, earlier_secs, earlier_millis);
    let limit = secs - MAX_GAP_SECONDS;
    before_is_total(earlier, floor);
    if earlier_secs > limit || (earlier_secs == limit && earlier_millis > 0) {
        instants_sort_as_text(floor, limit, 0, earlier, earlier_secs, earlier_millis);
    } else if earlier_secs == limit {
        same_instant_same_text(earlier, floor, limit);
    } else {
        instants_sort_as_text(earlier, earlier_secs, earlier_millis, floor, limit, 0);
    }
}

proof fn same_instant_same_text(a: Seq<char>, b: Seq<char>, secs: int)
    requires
        writes_instant(a, secs, 0),
        writes_instant(b, secs, 0),
    ensures
        a == b,
{
    let (y1, m1, d1) = choose|y: int, m: int, d: int|
        #![trigger is_date(y, m, d)]
        is_date(y, m, d) && day_number(y, m, d) == secs / 86_400 && a == instant_text(
            y,
            m,
            d,
            secs % 86_400,
            0,
        );
    let (y2, m2, d2) = choose|y: int, m: int, d: int|
        #![trigger is_date(y, m, d)]
        is_date(y, m, d) && day_number(y, m, d) == secs / 86_400 && b == instant_text(
            y,
            m,
            d,
            secs % 86_400,
            0,
        );
    dates_are_distinct(y1, m1, d1, y2, m2, d2);
}

} // verus!
