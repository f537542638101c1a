//! Grouping by keys of several texts.
use vstd::prelude::*;

use crate::text::{before, before_is_total, before_is_transitive, same_text, sorts_before, texts};

verus! {

/// The order of keys: that of their first differing texts.
pub open spec fn precedes(a: Seq<Seq<char>>, b: Seq<Seq<char>>) -> bool
    decreases a.len(),
{
    if b.len() == 0 {
        false
    } else if a.len() == 0 {
        true
    } else if a[0] != b[0] {
        before(a[0], b[0])
    } else {
        precedes(a.drop_first(), b.drop_first())
    }
}

/// The order of keys is strict and total.
pub proof fn precedes_is_total(a: Seq<Seq<char>>, b: Seq<Seq<char>>)
    ensures
        !precedes(a, a),
        !(precedes(a, b) && precedes(b, a)),
        a == b || precedes(a, b) || precedes(b, a),
    decreases a.len(),
{
    if a.len() > 0 {
        precedes_is_total(a.drop_first(), a.drop_first());
        if b.len() > 0 {
            precedes_is_total(a.drop_first(), b.drop_first());
            before_is_total(a[0], b[0]);
            if a[0] == b[0] && a.drop_first() == b.drop_first() {
                assert(a =~= seq![a[0]] + a.drop_first());
                assert(b =~= seq![b[0]] + b.drop_first());
            }
        }
    }
}

/// The order of keys is transitive.
pub proof fn precedes_is_transitive(a: Seq<Seq<char>>, b: Seq<Seq<char>>, c: Seq<Seq<char>>)
    requires
        precedes(a, b),
        precedes(b, c),
    ensures
        precedes(a, c),
    decreases a.len(),
{
    if a.len() > 0 {
        if a[0] == b[0] && b[0] == c[0] {
            precedes_is_transitive(a.drop_first(), b.drop_first(), c.drop_first());
        } else if a[0] != b[0] && b[0] != c[0] {
            before_is_transitive(a[0], b[0], c[0]);
            before_is_total(a[0], c[0]);
        }
    }
}

/// A key by its view.
pub open spec fn key(parts: Vec<String>) -> Seq<Seq<char>> {
    texts(parts@)
}

/// Keys by their views.
pub open spec fn keys(list: Seq<Vec<String>>) -> Seq<Seq<Seq<char>>> {
    list.map_values(|k: Vec<String>| key(k))
}

/// Whether keys are in strictly ascending order, so that none occurs twice.
pub open spec fn ascending(list: Seq<Seq<Seq<char>>>) -> bool {
    forall|i: int, j: int|
        0 <= i < j < list.len() ==> precedes(#[trigger] list[i], #[trigger] list[j])
}

/// Whether one key sorts before another.
pub fn key_precedes(a: &Vec<String>, b: &Vec<String>) -> (yes: bool)
    ensures
        yes == precedes(key(*a), key(*b)),
{
    let ghost x = key(*a);
    let ghost y = key(*b);
    let mut i: usize = 0;
    assert(x.skip(0) =~= x);
    assert(y.skip(0) =~= y);
    while i < a.len() && i < b.len() && same_text(a[i].as_str(), b[i].as_str())
        invariant
            x == key(*a),
            y == key(*b),
            i <= a@.len(),
            i <= b@.len(),
            precedes(x, y) == precedes(x.skip(i as int), y.skip(i as int)),
        decreases a@.len() - i,
    {
        assert(x.skip(i as int).drop_first() =~= x.skip(i + 1));
        assert(y.skip(i as int).drop_first() =~= y.skip(i + 1));
        assert(x.skip(i as int)[0] == a@[i as int]@);
        assert(y.skip(i as int)[0] == b@[i as int]@);
        i = i + 1;
    }
    if i == b.len() {
        false
    } else if i == a.len() {
        true
    } else {
        assert(x.skip(i as int)[0] == a@[i as int]@);
        assert(y.skip(i as int)[0] == b@[i as int]@);
        sorts_before(a[i].as_str(), b[i].as_str())
    }
}

/// Whether two keys are the same.
pub fn same_key(a: &Vec<String>, b: &Vec<String>) -> (yes: bool)
    ensures
        yes == (key(*a) == key(*b)),
{
    if a.len() != b.len() {
        assert(key(*a).len() != key(*b).len());
        return false;
    }
    for i in 0..a.len()
        invariant
            a@.len() == b@.len(),
            forall|j: int| 0 <= j < i ==> a@[j]@ == (#[trigger] b@[j])@,
    {
        if !same_text(a[i].as_str(), b[i].as_str()) {
            assert(key(*a)[i as int] != key(*b)[i as int]);
            return false;
        }
    }
    assert(key(*a) =~= key(*b));
    true
}

/// A copy of a key.
pub fn copy_key(k: &Vec<String>) -> (copy: Vec<String>)
    ensures
        key(copy) == key(*k),
{
    let mut copy: Vec<String> = Vec::new();
    for i in 0..k.len()
        invariant
            key(copy) == key(*k).take(i as int),
    {
        let ghost read = key(copy);
        let part = k[i].clone();
        copy.push(part);
        assert(key(copy) =~= read.push(k@[i as int]@));
        assert(key(copy) =~= key(*k).take(i + 1));
    }
    assert(key(*k).take(k@.len() as int) =~= key(*k));
    copy
}

/// The place at which a key belongs in a list that is in order.
fn place_for(list: &Vec<Vec<String>>, k: &Vec<String>) -> (at: usize)
    requires
        ascending(keys(list@)),
    ensures
        at <= list@.len(),
        forall|j: int| 0 <= j < at ==> precedes(#[trigger] keys(list@)[j], key(*k)),
        forall|j: int| at <= j < list@.len() ==> !precedes(#[trigger] keys(list@)[j], key(*k)),
{
    let ghost all = keys(list@);
    let mut low: usize = 0;
    let mut high: usize = list.len();
    while low < high
        invariant
            all == keys(list@),
            ascending(all),
            low <= high <= list@.len(),
            forall|j: int| 0 <= j < low ==> precedes(#[trigger] all[j], key(*k)),
            forall|j: int| high <= j < all.len() ==> !precedes(#[trigger] all[j], key(*k)),
        decreases high - low,
    {
        let middle: usize = low + (high - low) / 2;
        let ghost m = all[middle as int];
        assert(m == key(list@[middle as int]));
        if key_precedes(&list[middle], k) {
            assert forall|j: int| 0 <= j < middle + 1 implies precedes(
                #[trigger] all[j],
                key(*k),
            ) by {
                if low <= j && j < middle {
                    precedes_is_transitive(all[j], m, key(*k));
                }
            }
            low = middle + 1;
        } else {
            assert forall|j: int| middle <= j < all.len() implies !precedes(
                #[trigger] all[j],
                key(*k),
            ) by {
                if middle < j && precedes(all[j], key(*k)) {
                    precedes_is_transitive(m, all[j], key(*k));
                }
            }
            high = middle;
        }
    }
    low
}

/// The place of a key in a list that is in order.
pub fn find_key(list: &Vec<Vec<String>>, k: &Vec<String>) -> (found: Option<usize>)
    requires
        ascending(keys(list@)),
    ensures
        match found {
            Some(i) => i < list@.len() && keys(list@)[i as int] == key(*k),
            None => !keys(list@).contains(key(*k)),
        },
{
    let at: usize = place_for(list, k);
    let ghost all = keys(list@);
    if at < list.len() && same_key(&list[at], k) {
        return Some(at);
    }
    proof {
        if all.contains(key(*k)) {
            let j = choose|j: int| 0 <= j < all.len() && all[j] == key(*k);
            precedes_is_total(key(*k), key(*k));
            if j < at {
                assert(precedes(all[j], key(*k)));
            } else if j > at {
                assert(precedes(all[at as int], all[j]));
            }
        }
    }
    None
}

/// Adds a key to a list that is in order, unless it is there.
pub fn add_key(list: &mut Vec<Vec<String>>, k: &Vec<String>)
    requires
        ascending(keys(old(list)@)),
    ensures
        ascending(keys(final(list)@)),
        forall|x: Seq<Seq<char>>|
            #[trigger] keys(final(list)@).contains(x) <==> keys(old(list)@).contains(x) || x
                == key(*k),
{
    let at: usize = place_for(list, k);
    let ghost all = keys(list@);
    if at < list.len() && same_key(&list[at], k) {
        assert(all[at as int] == key(*k));
        assert(all.contains(key(*k)));
        return ;
    }
    let copy = copy_key(k);
    let ghost added = key(copy);
    list.insert(at, copy);
    proof {
        let now = keys(list@);
        assert(now =~= all.insert(at as int, added));
        assert forall|i: int, j: int| 0 <= i < j < now.len() implies precedes(
            #[trigger] now[i],
            #[trigger] now[j],
        ) by {
            if i == at {
                let next = all[j - 1];
                precedes_is_total(next, added);
                if j - 1 > at {
                    precedes_is_total(all[at as int], added);
                    assert(precedes(all[at as int], next));
                    if all[at as int] != added {
                        precedes_is_transitive(added, all[at as int], next);
                    }
                } else {
                    assert(next == all[at as int]);
                }
            } else if j == at {
                assert(now[i] == all[i]);
            } else {
                let a = if i < at {
                    i
                } else {
                    i - 1
                };
                let b = if j < at {
                    j
                } else {
                    j - 1
                };
                assert(now[i] == all[a] && now[j] == all[b]);
            }
        }
        assert forall|x: Seq<Seq<char>>| #[trigger] now.contains(x) <==> all.contains(x) || x
            == added by {
            if now.contains(x) {
                let i = choose|i: int| 0 <= i < now.len() && now[i] == x;
                if i < at {
                    assert(all[i] == x);
                } else if i > at {
                    assert(all[i - 1] == x);
                }
            }
            if all.contains(x) {
                let i = choose|i: int| 0 <= i < all.len() && all[i] == x;
                if i < at {
                    assert(now[i] == x);
                } else {
                    assert(now[i + 1] == x);
                }
            }
            assert(now[at as int] == added);
        }
    }
}

/// The keys of a list, each once and in order.
pub fn distinct_keys(list: &Vec<Vec<String>>) -> (found: Vec<Vec<String>>)
    ensures
        ascending(keys(found@)),
        forall|x: Seq<Seq<char>>| #[trigger] keys(found@).contains(x) <==> keys(list@).contains(x),
{
    let mut found: Vec<Vec<String>> = Vec::new();
    let ghost all = keys(list@);
    for i in 0..list.len()
        invariant
            all == keys(list@),
            ascending(keys(found@)),
            forall|x: Seq<Seq<char>>|
                #[trigger] keys(found@).contains(x) <==> all.take(i as int).contains(x),
    {
        let ghost was = keys(found@);
        add_key(&mut found, &list[i]);
        proof {
            assert(all[i as int] == key(list@[i as int]));
            assert forall|x: Seq<Seq<char>>| #[trigger] keys(found@).contains(x) <==> all.take(
                i + 1,
            ).contains(x) by {
                let next = all.take(i + 1);
                assert(next =~= all.take(i as int).push(all[i as int]));
                if next.contains(x) && x != all[i as int] {
                    let j = choose|j: int| 0 <= j < next.len() && next[j] == x;
                    assert(all.take(i as int)[j] == x);
                }
                if all.take(i as int).contains(x) {
                    let j = choose|j: int| 0 <= j < i && all.take(i as int)[j] == x;
                    assert(next[j] == x);
                }
                assert(next[i as int] == all[i as int]);
            }
        }
    }
    assert(all.take(list@.len() as int) =~= all);
    found
}

/// How often a key occurs among the first `n` of a list.
pub open spec fn occurrences(list: Seq<Seq<Seq<char>>>, k: Seq<Seq<char>>, n: int) -> nat
    decreases n,
{
    if n <= 0 {
        0
    } else {
        occurrences(list, k, n - 1) + if list[n - 1] == k {
            1nat
        } else {
            0nat
        }
    }
}

/// How often a key occurs in a list.
pub fn count_key(list: &Vec<Vec<String>>, k: &Vec<String>) -> (n: usize)
    ensures
        n == occurrences(keys(list@), key(*k), list@.len() as int),
        n <= list@.len(),
{
    let mut n: usize = 0;
    for i in 0..list.len()
        invariant
            n == occurrences(keys(list@), key(*k), i as int),
            n <= i,
    {
        assert(keys(list@)[i as int] == key(list@[i as int]));
        if same_key(&list[i], k) {
            n = n + 1;
        }
    }
    n
}

} // verus!
