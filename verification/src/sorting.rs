//! Lists in order. Items that are alike keep the order in which they came.

use vstd::prelude::*;
use crate::text::{
    lemma_text_order_total, lemma_text_order_transitive, stands_before, text_before, views,
};

verus! {

/// `s` with `x` put behind everything that it does not come before.
pub open spec fn placed<T>(s: Seq<T>, x: T, before: spec_fn(T, T) -> bool) -> Seq<T>
    decreases s.len(),
{
    if s.len() == 0 || !before(x, s.last()) {
        s.push(x)
    } else {
        placed(s.drop_last(), x, before).push(s.last())
    }
}

/// `s` in order: each item put in its place, one after the other.
pub open spec fn sorted<T>(s: Seq<T>, before: spec_fn(T, T) -> bool) -> Seq<T>
    decreases s.len(),
{
    if s.len() == 0 {
        seq![]
    } else {
        placed(sorted(s.drop_last(), before), s.last(), before)
    }
}

/// Whether `before` can order items: no two come before each other, and what
/// does not come before something does not come before what that one does not
/// come before.
pub open spec fn orders<T>(before: spec_fn(T, T) -> bool) -> bool {
    &&& forall|a: T, b: T| !(#[trigger] before(a, b) && before(b, a))
    &&& forall|a: T, b: T, c: T|
        !(#[trigger] before(a, b)) && !(#[trigger] before(b, c)) ==> !before(a, c)
}

/// Whether no item of `s` comes before one that stands in front of it.
pub open spec fn is_ordered<T>(s: Seq<T>, before: spec_fn(T, T) -> bool) -> bool {
    forall|i: int, j: int|
        0 <= i < j < s.len() ==> !before(#[trigger] s[j], #[trigger] s[i])
}

/// The place of `x` is behind the last item that it does not come before.
pub proof fn lemma_placed_at<T>(s: Seq<T>, x: T, before: spec_fn(T, T) -> bool, at: int)
    requires
        0 <= at <= s.len(),
        forall|k: int| at <= k < s.len() ==> before(x, #[trigger] s[k]),
        at == 0 || !before(x, s[at - 1]),
    ensures
        placed(s, x, before) == s.insert(at, x),
    decreases s.len(),
{
    if at == s.len() {
        assert(s.push(x) == s.insert(at, x));
    } else {
        let t = s.drop_last();
        assert forall|k: int| at <= k < t.len() implies before(x, #[trigger] t[k]) by {
            assert(t[k] == s[k]);
        }
        lemma_placed_at(t, x, before, at);
        assert(before(x, s[s.len() - 1]));
        assert(t.insert(at, x).push(s.last()) == s.insert(at, x));
    }
}

/// Putting an item in its place adds it, and nothing else.
proof fn lemma_placed_contains<T>(s: Seq<T>, x: T, before: spec_fn(T, T) -> bool, y: T)
    ensures
        placed(s, x, before).contains(y) <==> s.contains(y) || y == x,
        placed(s, x, before).len() == s.len() + 1,
    decreases s.len(),
{
    let p = placed(s, x, before);
    if s.len() == 0 || !before(x, s.last()) {
        assert(p[s.len() as int] == x);
        assert forall|i: int| 0 <= i < s.len() implies p[i] == s[i] by {}
        if s.contains(y) {
            let i = choose|i: int| 0 <= i < s.len() && s[i] == y;
            assert(p[i] == y);
        }
    } else {
        let t = s.drop_last();
        let q = placed(t, x, before);
        lemma_placed_contains(t, x, before, y);
        assert(p[q.len() as int] == s.last());
        if p.contains(y) {
            let i = choose|i: int| 0 <= i < p.len() && p[i] == y;
            if i < q.len() {
                assert(q[i] == y);
                if t.contains(y) {
                    let k = choose|k: int| 0 <= k < t.len() && t[k] == y;
                    assert(s[k] == y);
                }
            } else {
                assert(s[s.len() - 1] == y);
            }
        }
        if s.contains(y) {
            let i = choose|i: int| 0 <= i < s.len() && s[i] == y;
            if i < t.len() {
                assert(t[i] == y);
            }
        }
        if q.contains(y) {
            let i = choose|i: int| 0 <= i < q.len() && q[i] == y;
            assert(p[i] == y);
        }
    }
}

/// A list in order has the items of the list.
pub proof fn sorting_keeps_items<T>(s: Seq<T>, before: spec_fn(T, T) -> bool, y: T)
    ensures
        sorted(s, before).contains(y) <==> s.contains(y),
        sorted(s, before).len() == s.len(),
    decreases s.len(),
{
    if s.len() > 0 {
        let t = s.drop_last();
        sorting_keeps_items(t, before, y);
        lemma_placed_contains(sorted(t, before), s.last(), before, y);
        if s.contains(y) {
            let i = choose|i: int| 0 <= i < s.len() && s[i] == y;
            if i < t.len() {
                assert(t[i] == y);
            }
        }
        if t.contains(y) {
            let i = choose|i: int| 0 <= i < t.len() && t[i] == y;
            assert(s[i] == y);
        }
        assert(s[s.len() - 1] == s.last());
    }
}

/// Putting an item in its place keeps the order.
proof fn lemma_placed_ordered<T>(s: Seq<T>, x: T, before: spec_fn(T, T) -> bool)
    requires
        orders(before),
        is_ordered(s, before),
    ensures
        is_ordered(placed(s, x, before), before),
    decreases s.len(),
{
    let p = placed(s, x, before);
    if s.len() == 0 || !before(x, s.last()) {
        assert forall|i: int, j: int| 0 <= i < j < p.len() implies !before(
            #[trigger] p[j],
            #[trigger] p[i],
        ) by {
            if j == s.len() && i < s.len() - 1 {
                assert(!before(s[s.len() - 1], s[i]));
                assert(!before(x, s.last()));
            }
        }
    } else {
        let t = s.drop_last();
        let q = placed(t, x, before);
        assert(is_ordered(t, before)) by {
            assert(forall|i: int| 0 <= i < t.len() ==> t[i] == s[i]);
        }
        lemma_placed_ordered(t, x, before);
        assert forall|i: int, j: int| 0 <= i < j < p.len() implies !before(
            #[trigger] p[j],
            #[trigger] p[i],
        ) by {
            if j < q.len() {
                assert(!before(q[j], q[i]));
            } else {
                lemma_placed_contains(t, x, before, q[i]);
                assert(q.contains(q[i]));
                if t.contains(q[i]) {
                    let k = choose|k: int| 0 <= k < t.len() && t[k] == q[i];
                    assert(!before(s[s.len() - 1], s[k]));
                } else {
                    assert(before(x, s.last()));
                }
            }
        }
    }
}

/// A list in order is in order.
pub proof fn sorting_orders<T>(s: Seq<T>, before: spec_fn(T, T) -> bool)
    requires
        orders(before),
    ensures
        is_ordered(sorted(s, before), before),
    decreases s.len(),
{
    if s.len() > 0 {
        sorting_orders(s.drop_last(), before);
        lemma_placed_ordered(sorted(s.drop_last(), before), s.last(), before);
    }
}

/// Whether each item of `s` comes before all that stand behind it.
pub open spec fn strictly_ordered<T>(s: Seq<T>, before: spec_fn(T, T) -> bool) -> bool {
    forall|i: int, j: int| 0 <= i < j < s.len() ==> before(#[trigger] s[i], #[trigger] s[j])
}

/// Two strictly ordered lists of the same items are the same.
pub proof fn strict_order_is_unique<T>(a: Seq<T>, b: Seq<T>, before: spec_fn(T, T) -> bool)
    requires
        orders(before),
        strictly_ordered(a, before),
        strictly_ordered(b, before),
        forall|x: T| a.contains(x) <==> b.contains(x),
    ensures
        a == b,
    decreases a.len(),
{
    if a.len() == 0 {
        if b.len() > 0 {
            assert(b.contains(b[0]));
        }
        assert(a == b);
    } else {
        assert(a.contains(a[a.len() - 1]));
        let x = a.last();
        let y = if b.len() > 0 {
            b.last()
        } else {
            x
        };
        assert(b.contains(x));
        let i = choose|i: int| 0 <= i < b.len() && b[i] == x;
        assert(b.contains(b[b.len() - 1]));
        let j = choose|j: int| 0 <= j < a.len() && a[j] == y;
        if j < a.len() - 1 {
            assert(before(a[j], a[a.len() - 1]));
            if i < b.len() - 1 {
                assert(before(b[i], b[b.len() - 1]));
            } else {
                assert(before(x, x));
            }
            assert(false);
        }
        assert(x == y);
        let a0 = a.drop_last();
        let b0 = b.drop_last();
        assert forall|z: T| a0.contains(z) <==> b0.contains(z) by {
            if a0.contains(z) {
                let k = choose|k: int| 0 <= k < a0.len() && a0[k] == z;
                assert(a[k] == z);
                assert(before(a[k], a[a.len() - 1]));
                assert(a.contains(z));
                let m = choose|m: int| 0 <= m < b.len() && b[m] == z;
                assert(m < b.len() - 1);
                assert(b0[m] == z);
            }
            if b0.contains(z) {
                let k = choose|k: int| 0 <= k < b0.len() && b0[k] == z;
                assert(b[k] == z);
                assert(before(b[k], b[b.len() - 1]));
                assert(b.contains(z));
                let m = choose|m: int| 0 <= m < a.len() && a[m] == z;
                assert(m < a.len() - 1);
                assert(a0[m] == z);
            }
        }
        assert(strictly_ordered(a0, before)) by {
            assert(forall|k: int| 0 <= k < a0.len() ==> a0[k] == a[k]);
        }
        assert(strictly_ordered(b0, before)) by {
            assert(forall|k: int| 0 <= k < b0.len() ==> b0[k] == b[k]);
        }
        strict_order_is_unique(a0, b0, before);
        assert(a == a0.push(x));
        assert(b == b0.push(x));
    }
}

// ---- numbers -------------------------------------------------------------------------

/// The numbers of `v`, growing, each once.
pub fn distinct_numbers(v: &Vec<u32>) -> (r: Vec<u32>)
    ensures
        forall|a: int, b: int| 0 <= a < b < r@.len() ==> #[trigger] r@[a] < #[trigger] r@[b],
        forall|x: u32| #[trigger] r@.contains(x) <==> v@.contains(x),
{
    let mut r: Vec<u32> = Vec::new();
    let mut i: usize = 0;
    while i < v.len()
        invariant
            i <= v@.len(),
            forall|a: int, b: int| 0 <= a < b < r@.len() ==> #[trigger] r@[a] < #[trigger] r@[b],
            forall|x: u32| #[trigger] r@.contains(x) <==> v@.take(i as int).contains(x),
        decreases v@.len() - i,
    {
        let x = v[i];
        let ghost before = r@;
        let mut at: usize = r.len();
        while at > 0 && x < r[at - 1]
            invariant
                at <= r@.len(),
                forall|k: int| at <= k < r@.len() ==> x < #[trigger] r@[k],
            decreases at,
        {
            at -= 1;
        }
        if at == 0 || r[at - 1] != x {
            r.insert(at, x);
            assert(r@ == before.insert(at as int, x));
        }
        proof {
            let seen = v@.take(i as int);
            let next = v@.take(i + 1);
            assert(next == seen.push(x));
            assert forall|y: u32| #[trigger] r@.contains(y) <==> next.contains(y) by {
                if r@.contains(y) {
                    let k = choose|k: int| 0 <= k < r@.len() && r@[k] == y;
                    if y == x {
                        assert(next[i as int] == x);
                    } else {
                        let old_k = if r@.len() == before.len() || k < at {
                            k
                        } else {
                            k - 1
                        };
                        assert(before[old_k] == y);
                        assert(before.contains(y));
                        let j = choose|j: int| 0 <= j < seen.len() && seen[j] == y;
                        assert(next[j] == y);
                    }
                }
                if next.contains(y) {
                    let j = choose|j: int| 0 <= j < next.len() && next[j] == y;
                    if j < i {
                        assert(seen[j] == y);
                        assert(before.contains(y));
                        let k = choose|k: int| 0 <= k < before.len() && before[k] == y;
                        let new_k = if r@.len() == before.len() || k < at {
                            k
                        } else {
                            k + 1
                        };
                        assert(r@[new_k] == y);
                    } else if r@.len() == before.len() {
                        assert(r@[at - 1] == x);
                    } else {
                        assert(r@[at as int] == x);
                    }
                }
            }
        }
        i += 1;
    }
    assert(v@.take(v@.len() as int) == v@);
    r
}

// ---- strings -------------------------------------------------------------------------

/// The order of strings.
pub open spec fn earlier() -> spec_fn(Seq<char>, Seq<char>) -> bool {
    |a: Seq<char>, b: Seq<char>| text_before(a, b)
}

/// The order of strings orders strings.
pub proof fn lemma_earlier_orders()
    ensures
        orders(earlier()),
{
    let f = earlier();
    assert forall|a: Seq<char>, b: Seq<char>| !(#[trigger] f(a, b) && f(b, a)) by {
        lemma_text_order_total(a, b);
    }
    assert forall|a: Seq<char>, b: Seq<char>, c: Seq<char>|
        !(#[trigger] f(a, b)) && !(#[trigger] f(b, c)) implies !f(a, c) by {
        lemma_text_order_total(a, b);
        lemma_text_order_total(b, c);
        if text_before(a, c) {
            if a == b {
            } else if b == c {
            } else {
                lemma_text_order_transitive(c, b, a);
                lemma_text_order_total(a, c);
            }
        }
    }
}

/// The strings of `v` in order.
pub fn sort_strings(v: &Vec<String>) -> (r: Vec<String>)
    ensures
        views(r@) == sorted(views(v@), earlier()),
{
    let mut r: Vec<String> = Vec::new();
    let mut i: usize = 0;
    assert(views(r@) == sorted(views(v@).take(0), earlier()));
    while i < v.len()
        invariant
            i <= v@.len(),
            views(r@) == sorted(views(v@).take(i as int), earlier()),
        decreases v@.len() - i,
    {
        let x = v[i].clone();
        let ghost xv = x@;
        let mut at: usize = r.len();
        while at > 0 && stands_before(x.as_str(), r[at - 1].as_str())
            invariant
                at <= r@.len(),
                xv == x@,
                forall|k: int|
                    at <= k < r@.len() ==> text_before(xv, #[trigger] views(r@)[k]),
            decreases at,
        {
            at -= 1;
            assert(views(r@)[at as int] == r@[at as int]@);
        }
        let ghost before = r@;
        proof {
            assert(views(r@).len() == r@.len());
            if at > 0 {
                assert(views(r@)[at - 1] == r@[at - 1]@);
            }
            lemma_placed_at(views(r@), xv, earlier(), at as int);
            assert(views(v@).take(i + 1).drop_last() == views(v@).take(i as int));
            assert(views(v@).take(i + 1).last() == xv);
        }
        r.insert(at, x);
        assert(views(r@) =~= views(before).insert(at as int, xv));
        i += 1;
    }
    assert(views(v@).take(v@.len() as int) == views(v@));
    r
}

} // verus!
