//! Stable sorting, as the order in which positions are visited.
use vstd::prelude::*;

verus! {

/// The first place in `p` whose key is above `key`, or the end of `p`.
pub open spec fn place(keys: Seq<int>, p: Seq<int>, key: int) -> int
    decreases p.len(),
{
    if p.len() == 0 {
        0
    } else if keys[p[0]] > key {
        0
    } else {
        1 + place(keys, p.skip(1), key)
    }
}

/// The positions `0 .. keys.len()` in ascending order of their keys, and
/// among equal keys in their own order.
pub open spec fn stable_order(keys: Seq<int>) -> Seq<int>
    decreases keys.len(),
{
    if keys.len() == 0 {
        Seq::empty()
    } else {
        let p = stable_order(keys.drop_last());
        p.insert(place(keys, p, keys.last()), keys.len() - 1)
    }
}

/// Position `a` is visited before position `b`.
pub open spec fn before(keys: Seq<int>, a: int, b: int) -> bool {
    keys[a] < keys[b] || (keys[a] == keys[b] && a < b)
}

/// `p` visits each position once, and in the order [`before`] gives.
pub open spec fn visits_in_order(keys: Seq<int>, p: Seq<int>) -> bool {
    &&& p.len() == keys.len()
    &&& forall|i: int| 0 <= i < p.len() ==> 0 <= #[trigger] p[i] < keys.len()
    &&& forall|i: int, j: int|
        0 <= i < j < p.len() ==> before(keys, #[trigger] p[i], #[trigger] p[j])
    &&& forall|a: int| 0 <= a < keys.len() ==> #[trigger] p.contains(a)
}

proof fn lemma_place(keys: Seq<int>, p: Seq<int>, key: int)
    ensures
        0 <= place(keys, p, key) <= p.len(),
        forall|i: int| 0 <= i < place(keys, p, key) ==> keys[#[trigger] p[i]] <= key,
        place(keys, p, key) < p.len() ==> keys[p[place(keys, p, key)]] > key,
    decreases p.len(),
{
    if p.len() > 0 && keys[p[0]] <= key {
        lemma_place(keys, p.skip(1), key);
        assert forall|i: int| 0 <= i < place(keys, p, key) implies keys[#[trigger] p[i]]
            <= key by {
            if i > 0 {
                assert(p.skip(1)[i - 1] == p[i]);
            }
        }
    }
}

/// A stable order visits every position once, by ascending key, and equal keys
/// in their own order.
pub proof fn lemma_stable_order(keys: Seq<int>)
    ensures
        visits_in_order(keys, stable_order(keys)),
    decreases keys.len(),
{
    if keys.len() > 0 {
        let front = keys.drop_last();
        let p = stable_order(front);
        lemma_stable_order(front);
        let n = keys.len() - 1;
        let k = place(keys, p, keys.last());
        lemma_place(keys, p, keys.last());
        let q = p.insert(k, n);
        assert(q == stable_order(keys));
        assert forall|i: int| 0 <= i < q.len() implies 0 <= #[trigger] q[i] < keys.len() by {
            if i < k {
                assert(q[i] == p[i]);
            } else if i > k {
                assert(q[i] == p[i - 1]);
            }
        }
        assert forall|i: int, j: int| 0 <= i < j < q.len() implies before(
            keys,
            #[trigger] q[i],
            #[trigger] q[j],
        ) by {
            if i < k && j < k {
                assert(before(front, p[i], p[j]));
            } else if i < k && j == k {
                assert(keys[p[i]] <= keys.last());
            } else if i < k && j > k {
                assert(before(front, p[i], p[j - 1]));
            } else if i == k {
                if j - 1 > k {
                    assert(before(front, p[k], p[j - 1]));
                }
            } else {
                assert(before(front, p[i - 1], p[j - 1]));
            }
        }
        assert forall|a: int| 0 <= a < keys.len() implies #[trigger] q.contains(a) by {
            if a == n {
                assert(q[k] == n);
            } else {
                assert(p.contains(a));
                let i = choose|i: int| 0 <= i < p.len() && p[i] == a;
                if i < k {
                    assert(q[i] == a);
                } else {
                    assert(q[i + 1] == a);
                }
            }
        }
    }
}

/// Keys as mathematical integers.
pub open spec fn ints(keys: Seq<i128>) -> Seq<int> {
    Seq::new(keys.len(), |i: int| keys[i] as int)
}

/// Positions as mathematical integers.
pub open spec fn positions(p: Seq<usize>) -> Seq<int> {
    Seq::new(p.len(), |i: int| p[i] as int)
}

/// Sorts positions by key, keeping the order of equal keys.
pub fn sort_positions(keys: &Vec<i128>) -> (r: Vec<usize>)
    ensures
        positions(r@) == stable_order(ints(keys@)),
        forall|i: int| 0 <= i < r@.len() ==> #[trigger] r@[i] < keys@.len(),
        r@.len() == keys@.len(),
{
    let ghost all = ints(keys@);
    let mut p: Vec<usize> = Vec::new();
    let mut n: usize = 0;
    proof {
        assert(all.take(0) =~= Seq::<int>::empty());
        assert(positions(p@) =~= Seq::<int>::empty());
    }
    while n < keys.len()
        invariant
            all == ints(keys@),
            n <= keys@.len(),
            p@.len() == n,
            forall|i: int| 0 <= i < p@.len() ==> #[trigger] p@[i] < n,
            positions(p@) == stable_order(all.take(n as int)),
        decreases keys.len() - n,
    {
        let ghost q = positions(p@);
        let ghost now = all.take(n + 1);
        let mut k: usize = 0;
        proof {
            assert(q.skip(0) =~= q);
            assert(now.drop_last() =~= all.take(n as int));
            assert(now.last() == keys@[n as int]);
        }
        while k < p.len() && keys[p[k]] <= keys[n]
            invariant
                all == ints(keys@),
                q == positions(p@),
                now == all.take(n + 1),
                n < keys@.len(),
                p@.len() == n,
                k <= n,
                forall|i: int| 0 <= i < p@.len() ==> #[trigger] p@[i] < n,
                k + place(now, q.skip(k as int), keys@[n as int] as int) == place(
                    now,
                    q,
                    keys@[n as int] as int,
                ),
            ensures
                k <= n,
                k < p@.len() ==> keys@[p@[k as int] as int] > keys@[n as int],
                k + place(now, q.skip(k as int), keys@[n as int] as int) == place(
                    now,
                    q,
                    keys@[n as int] as int,
                ),
            decreases p.len() - k,
        {
            proof {
                assert(q.skip(k as int)[0] == p@[k as int]);
                assert(now[p@[k as int] as int] == keys@[p@[k as int] as int]);
                assert(q.skip(k as int).skip(1) =~= q.skip(k + 1));
            }
            k = k + 1;
        }
        proof {
            if k < n {
                assert(q.skip(k as int)[0] == p@[k as int]);
                assert(now[p@[k as int] as int] == keys@[p@[k as int] as int]);
            }
        }
        p.insert(k, n);
        proof {
            assert(positions(p@) =~= q.insert(k as int, n as int));
        }
        n = n + 1;
    }
    proof {
        assert(all.take(n as int) =~= all);
    }
    p
}

} // verus!
