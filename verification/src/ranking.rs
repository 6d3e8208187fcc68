//! Putting the items that are kept into order, best first. Items that rank
//! alike keep the order in which they came.

use vstd::prelude::*;

verus! {

/// Something that items are ranked by. `ranks_before` is a strict weak order.
pub trait Rank: Sized {
    /// Whether `self` comes before `other`.
    spec fn before(self, other: Self) -> bool;

    /// Nothing comes before itself.
    proof fn irreflexive(a: Self)
        ensures
            !a.before(a),
    ;

    /// What comes before something comes before all that follows it.
    proof fn transitive(a: Self, b: Self, c: Self)
        requires
            a.before(b),
            b.before(c),
        ensures
            a.before(c),
    ;

    /// What does not come before something does not come before what that one
    /// does not come before.
    proof fn negatively_transitive(a: Self, b: Self, c: Self)
        requires
            !a.before(b),
            !b.before(c),
        ensures
            !a.before(c),
    ;

    /// Whether `self` comes before `other`.
    fn ranks_before(&self, other: &Self) -> (r: bool)
        ensures
            r == self.before(*other),
    ;
}

/// Whether item `i` goes before item `j`: it ranks before it, or they rank
/// alike and it came first.
pub open spec fn goes_before<K: Rank>(keys: Seq<Option<K>>, i: int, j: int) -> bool {
    keys[i]->0.before(keys[j]->0) || (!keys[j]->0.before(keys[i]->0) && i < j)
}

/// Whether `order` lists the items that have a key, each once, in order.
pub open spec fn is_ranking<K: Rank>(order: Seq<usize>, keys: Seq<Option<K>>) -> bool {
    &&& forall|a: int| #![trigger order[a]]
        0 <= a < order.len() ==> order[a] < keys.len() && keys[order[a] as int] is Some
    &&& forall|a: int, b: int| #![trigger order[a], order[b]]
        0 <= a < b < order.len() ==> goes_before(keys, order[a] as int, order[b] as int)
    &&& forall|i: usize| #![trigger order.contains(i)]
        i < keys.len() && keys[i as int] is Some ==> order.contains(i)
}

/// No two items go before each other.
proof fn lemma_goes_asymmetric<K: Rank>(keys: Seq<Option<K>>, i: int, j: int)
    requires
        goes_before(keys, i, j),
    ensures
        !goes_before(keys, j, i),
        i != j,
{
    let a = keys[i]->0;
    let b = keys[j]->0;
    K::irreflexive(a);
    if a.before(b) && b.before(a) {
        K::transitive(a, b, a);
    }
}

/// There is one ranking only: a contract that names one pins the order down.
pub proof fn ranking_is_unique<K: Rank>(p: Seq<usize>, q: Seq<usize>, keys: Seq<Option<K>>)
    requires
        is_ranking(p, keys),
        is_ranking(q, keys),
        keys.len() <= usize::MAX,
    ensures
        p == q,
{
    lemma_prefix_equal(p, q, keys, if p.len() < q.len() { p.len() } else { q.len() });
    if p.len() < q.len() {
        let x = q[p.len() as int];
        assert(p.contains(x));
        let a = choose|a: int| 0 <= a < p.len() && p[a] == x;
        assert(q[a] == x);
        lemma_goes_asymmetric(keys, q[a] as int, x as int);
    } else if q.len() < p.len() {
        let x = p[q.len() as int];
        assert(q.contains(x));
        let a = choose|a: int| 0 <= a < q.len() && q[a] == x;
        assert(p[a] == x);
        lemma_goes_asymmetric(keys, p[a] as int, x as int);
    }
    assert(p =~= q);
}

proof fn lemma_prefix_equal<K: Rank>(
    p: Seq<usize>,
    q: Seq<usize>,
    keys: Seq<Option<K>>,
    n: nat,
)
    requires
        is_ranking(p, keys),
        is_ranking(q, keys),
        n <= p.len(),
        n <= q.len(),
    ensures
        forall|a: int| 0 <= a < n ==> p[a] == q[a],
    decreases n,
{
    if n > 0 {
        let m = n - 1;
        lemma_prefix_equal(p, q, keys, m as nat);
        let x = p[m];
        let y = q[m];
        if x != y {
            assert(q.contains(x));
            assert(p.contains(y));
            let a = choose|a: int| 0 <= a < q.len() && q[a] == x;
            let b = choose|b: int| 0 <= b < p.len() && p[b] == y;
            if a < m {
                assert(p[a] == x);
                lemma_goes_asymmetric(keys, p[a] as int, p[m] as int);
            } else if b < m {
                assert(q[b] == y);
                lemma_goes_asymmetric(keys, q[b] as int, q[m] as int);
            } else {
                assert(goes_before(keys, q[m] as int, q[a] as int));
                assert(goes_before(keys, p[m] as int, p[b] as int));
                lemma_goes_asymmetric(keys, x as int, y as int);
            }
        }
    }
}

/// The place in `order` for the next item `i`, which has come after all of them.
fn place<K: Rank>(order: &Vec<usize>, keys: &Vec<Option<K>>, i: usize, key: &K) -> (pos: usize)
    requires
        i < keys@.len(),
        keys@[i as int] == Some(*key),
        forall|a: int| #![trigger order@[a]]
            0 <= a < order@.len() ==> order@[a] < i && keys@[order@[a] as int] is Some,
        forall|a: int, b: int| #![trigger order@[a], order@[b]]
            0 <= a < b < order@.len() ==> goes_before(
                keys@,
                order@[a] as int,
                order@[b] as int,
            ),
    ensures
        pos <= order@.len(),
        forall|a: int| #![trigger order@[a]]
            0 <= a < pos ==> goes_before(keys@, order@[a] as int, i as int),
        forall|a: int| #![trigger order@[a]]
            pos <= a < order@.len() ==> goes_before(keys@, i as int, order@[a] as int),
{
    let mut lo: usize = 0;
    let mut hi: usize = order.len();
    while lo < hi
        invariant
            lo <= hi <= order@.len(),
            i < keys@.len(),
            keys@[i as int] == Some(*key),
            forall|a: int| #![trigger order@[a]]
                0 <= a < order@.len() ==> order@[a] < i && keys@[order@[a] as int] is Some,
            forall|a: int, b: int| #![trigger order@[a], order@[b]]
                0 <= a < b < order@.len() ==> goes_before(
                    keys@,
                    order@[a] as int,
                    order@[b] as int,
                ),
            forall|a: int| #![trigger order@[a]]
                0 <= a < lo ==> goes_before(keys@, order@[a] as int, i as int),
            forall|a: int| #![trigger order@[a]]
                hi <= a < order@.len() ==> goes_before(keys@, i as int, order@[a] as int),
        decreases hi - lo,
    {
        let mid = lo + (hi - lo) / 2;
        let at = order[mid];
        let first = match &keys[at] {
            Some(k) => key.ranks_before(k),
            None => false,
        };
        let ghost k = keys@[at as int]->0;
        if first {
            assert forall|a: int| #![trigger order@[a]]
                mid <= a < order@.len() implies goes_before(keys@, i as int, order@[a] as int) by {
                if a > mid {
                    let x = keys@[order@[a] as int]->0;
                    assert(goes_before(keys@, order@[mid as int] as int, order@[a] as int));
                    if !key.before(x) {
                        if k.before(x) {
                            K::transitive(*key, k, x);
                        } else {
                            K::negatively_transitive(*key, x, k);
                        }
                    }
                }
            }
            hi = mid;
        } else {
            assert forall|a: int| #![trigger order@[a]]
                0 <= a < mid + 1 implies goes_before(keys@, order@[a] as int, i as int) by {
                if a < mid {
                    let x = keys@[order@[a] as int]->0;
                    assert(goes_before(keys@, order@[a] as int, order@[mid as int] as int));
                    assert(!key.before(k));
                    assert(!k.before(x)) by {
                        if k.before(x) && x.before(k) {
                            K::transitive(k, x, k);
                            K::irreflexive(k);
                        }
                    }
                    K::negatively_transitive(*key, k, x);
                }
            }
            lo = mid + 1;
        }
    }
    lo
}

/// The items that have a key, best first.
pub fn rank<K: Rank>(keys: &Vec<Option<K>>) -> (order: Vec<usize>)
    ensures
        is_ranking(order@, keys@),
{
    let mut order: Vec<usize> = Vec::new();
    let mut i: usize = 0;
    while i < keys.len()
        invariant
            i <= keys@.len(),
            forall|a: int| #![trigger order@[a]]
                0 <= a < order@.len() ==> order@[a] < i && keys@[order@[a] as int] is Some,
            forall|a: int, b: int| #![trigger order@[a], order@[b]]
                0 <= a < b < order@.len() ==> goes_before(
                    keys@,
                    order@[a] as int,
                    order@[b] as int,
                ),
            forall|j: usize| #![trigger order@.contains(j)]
                j < i && keys@[j as int] is Some ==> order@.contains(j),
        decreases keys@.len() - i,
    {
        match &keys[i] {
            Some(key) => {
                let pos = place(&order, keys, i, key);
                let ghost old_order = order@;
                order.insert(pos, i);
                proof {
                    assert(order@[pos as int] == i);
                    assert forall|j: usize| #![trigger order@.contains(j)]
                        j < i + 1 && keys@[j as int] is Some implies order@.contains(j) by {
                        if j < i {
                            assert(old_order.contains(j));
                            let a = choose|a: int| 0 <= a < old_order.len() && old_order[a] == j;
                            if a < pos {
                                assert(order@[a] == j);
                            } else {
                                assert(order@[a + 1] == j);
                            }
                        }
                    }
                    assert forall|a: int, b: int| #![trigger order@[a], order@[b]]
                        0 <= a < b < order@.len() implies goes_before(
                        keys@,
                        order@[a] as int,
                        order@[b] as int,
                    ) by {
                        let oa = if a < pos { a } else { a - 1 };
                        let ob = if b < pos { b } else { b - 1 };
                        if a != pos {
                            assert(order@[a] == old_order[oa]);
                        }
                        if b != pos {
                            assert(order@[b] == old_order[ob]);
                        }
                    }
                }
            },
            None => {},
        }
        i += 1;
    }
    order
}

} // verus!
