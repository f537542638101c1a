//! How a figure is spread over the requests that reported it.
use vstd::prelude::*;

verus! {

/// Whether values are in ascending order.
pub open spec fn sorted(values: Seq<i64>) -> bool {
    forall|i: int, j: int| 0 <= i <= j < values.len() ==> #[trigger] values[i] <= #[trigger] values[j]
}

/// `slice::sort_unstable`: the values are reordered, each as often as before,
/// into ascending order.
#[verifier::external_body]
fn sort_values(values: &mut [i64])
    ensures
        sorted(final(values)@),
        final(values)@.to_multiset() == old(values)@.to_multiset(),
        final(values)@.len() == old(values)@.len(),
{
    values.sort_unstable();
}

/// The place of the nearest rank of a percentile among `n` values.
pub open spec fn rank_place(n: int, p: int) -> int {
    let rank = (p * n + 99) / 100;
    if rank < 1 {
        0
    } else if rank > n {
        n - 1
    } else {
        rank - 1
    }
}

/// The value at the nearest rank of a percentile, of values in ascending order.
pub fn percentile(values: &[i64], p: i64) -> (value: i64)
    requires
        values@.len() > 0,
        0 <= p <= 100,
        p * values@.len() + 99 <= i64::MAX,
        values@.len() <= i64::MAX,
    ensures
        value == values@[rank_place(values@.len() as int, p as int)],
{
    let n: i64 = values.len() as i64;
    assert(0 <= p * n <= 100 * n) by (nonlinear_arith)
        requires
            0 <= p <= 100,
            0 <= n,
    ;
    let rank: i64 = (p * n + 99) / 100;
    let place: i64 = if rank < 1 {
        0
    } else if rank > n {
        n - 1
    } else {
        rank - 1
    };
    values[place as usize]
}

/// How values are spread.
#[derive(Debug, Clone, Copy, PartialEq, Eq)]
pub struct Distribution {
    /// The number of values.
    pub count: i64,
    pub min: i64,
    /// The median.
    pub p50: i64,
    pub p90: i64,
    pub p99: i64,
    pub max: i64,
}

impl Default for Distribution {
    fn default() -> (distribution: Self)
        ensures
            distribution == (Distribution { count: 0, min: 0, p50: 0, p90: 0, p99: 0, max: 0 }),
    {
        Distribution { count: 0, min: 0, p50: 0, p90: 0, p99: 0, max: 0 }
    }
}

/// The spread of values in ascending order.
pub open spec fn spread(values: Seq<i64>) -> Distribution {
    let n = values.len() as int;
    Distribution {
        count: n as i64,
        min: values[0],
        p50: values[rank_place(n, 50)],
        p90: values[rank_place(n, 90)],
        p99: values[rank_place(n, 99)],
        max: values[n - 1],
    }
}

/// Whether a distribution is that of values in any order; there is none of no
/// values.
pub open spec fn distributes(found: Option<Distribution>, values: Seq<i64>) -> bool {
    match found {
        Some(d) => values.len() > 0 && exists|ordered: Seq<i64>|
            sorted(ordered) && #[trigger] ordered.to_multiset() == values.to_multiset() && d
                == spread(ordered),
        None => values.len() == 0,
    }
}

impl Distribution {
    /// The distribution of values, which are put in ascending order.
    pub fn of(values: &mut [i64]) -> (found: Option<Distribution>)
        requires
            99 * old(values)@.len() + 99 <= i64::MAX,
        ensures
            final(values)@.to_multiset() == old(values)@.to_multiset(),
            old(values)@.len() > 0 ==> sorted(final(values)@),
            found == (if old(values)@.len() > 0 {
                Some(spread(final(values)@))
            } else {
                None
            }),
            distributes(found, old(values)@),
    {
        if values.len() == 0 {
            return None;
        }
        sort_values(values);
        let found = Distribution {
            count: values.len() as i64,
            min: values[0],
            p50: percentile(values, 50),
            p90: percentile(values, 90),
            p99: percentile(values, 99),
            max: values[values.len() - 1],
        };
        assert(found == spread(values@));
        Some(found)
    }
}

/// A percentile is the smallest value observed that is not exceeded by so many
/// of a hundred: at least `p` in a hundred of the values are at most it, and
/// fewer than `p` in a hundred come before it.
pub proof fn percentiles_are_observed(values: Seq<i64>, p: int)
    requires
        sorted(values),
        values.len() > 0,
        0 < p <= 100,
    ensures
        ({
            let place = rank_place(values.len() as int, p);
            &&& 0 <= place < values.len()
            &&& (place + 1) * 100 >= p * values.len()
            &&& place * 100 < p * values.len()
            &&& forall|j: int| 0 <= j <= place ==> #[trigger] values[j] <= values[place]
            &&& forall|j: int| place <= j < values.len() ==> values[place] <= #[trigger] values[j]
        }),
{
    let n = values.len() as int;
    assert(0 < p * n <= 100 * n) by (nonlinear_arith)
        requires
            0 < p <= 100,
            0 < n,
    ;
}

/// The distribution of values does not depend on their order.
pub proof fn order_does_not_matter(a: Seq<i64>, b: Seq<i64>)
    requires
        sorted(a),
        sorted(b),
        a.to_multiset() == b.to_multiset(),
    ensures
        a == b,
{
    sorted_is_unique(a, b);
}

proof fn sorted_is_unique(a: Seq<i64>, b: Seq<i64>)
    requires
        sorted(a),
        sorted(b),
        a.to_multiset() == b.to_multiset(),
    ensures
        a == b,
    decreases a.len(),
{
    broadcast use vstd::seq_lib::group_to_multiset_ensures;

    assert(a.len() == a.to_multiset().len());
    assert(b.len() == b.to_multiset().len());
    if a.len() == 0 {
        assert(a =~= b);
    } else {
        let x = a.last();
        let y = b.last();
        assert(a.to_multiset().count(x) > 0) by {
            assert(a.contains(x));
        }
        assert(b.to_multiset().count(y) > 0) by {
            assert(b.contains(y));
        }
        assert(b.contains(x));
        assert(a.contains(y));
        let i = choose|i: int| 0 <= i < b.len() && b[i] == x;
        let j = choose|j: int| 0 <= j < a.len() && a[j] == y;
        assert(b[i] <= b[b.len() - 1]);
        assert(a[j] <= a[a.len() - 1]);
        assert(x == y);
        let ra = a.drop_last();
        let rb = b.drop_last();
        assert(a =~= ra.push(x));
        assert(b =~= rb.push(x));
        assert(a.to_multiset() =~= ra.to_multiset().insert(x));
        assert(b.to_multiset() =~= rb.to_multiset().insert(x));
        let before = ra.to_multiset().insert(x);
        assert(before == rb.to_multiset().insert(x));
        assert(before.remove(x) =~= ra.to_multiset());
        assert(before.remove(x) =~= rb.to_multiset());
        sorted_is_unique(ra, rb);
    }
}

/// What is told of values is how many there are, the least, the greatest, and the
/// percentiles at their ranks.
pub proof fn spreads_tell_the_values(values: Seq<i64>)
    requires
        sorted(values),
        0 < values.len() <= i64::MAX,
    ensures
        ({
            let d = spread(values);
            let n = values.len() as int;
            &&& d.count == n
            &&& d.min == values[0] && d.max == values[n - 1]
            &&& d.p50 == values[rank_place(n, 50)]
            &&& d.p90 == values[rank_place(n, 90)]
            &&& d.p99 == values[rank_place(n, 99)]
        }),
        forall|i: int|
            0 <= i < values.len() ==> spread(values).min <= #[trigger] values[i] <= spread(
                values,
            ).max,
{
}

/// A rank is the least that covers so many of a hundred, counted from nothing.
pub proof fn ranks_cover_their_share(n: int, p: int)
    requires
        n > 0,
        0 < p <= 100,
    ensures
        0 <= rank_place(n, p) < n,
        (rank_place(n, p) + 1) * 100 >= p * n,
        rank_place(n, p) * 100 < p * n,
{
    assert(0 < p * n <= 100 * n) by (nonlinear_arith)
        requires
            0 < p <= 100,
            0 < n,
    ;
}

} // verus!
