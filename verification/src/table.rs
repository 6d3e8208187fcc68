//! Maps from numbers to values, walked in the order of their keys.

use std::collections::BTreeMap;
use vstd::prelude::*;

verus! {

/// The entries of `m` whose keys are below `k`, by growing key.
pub open spec fn rows_below<V>(m: Map<u32, V>, k: int) -> Seq<(u32, V)>
    decreases k,
{
    if k <= 0 {
        seq![]
    } else if k - 1 <= u32::MAX && m.dom().contains((k - 1) as u32) {
        rows_below(m, k - 1).push(((k - 1) as u32, m[(k - 1) as u32]))
    } else {
        rows_below(m, k - 1)
    }
}

/// The entries of `m`, by growing key.
pub open spec fn rows_of<V>(m: Map<u32, V>) -> Seq<(u32, V)> {
    rows_below(m, 0x1_0000_0000)
}

/// The row of `rows` that has the key `k`.
pub open spec fn row_of<V>(rows: Seq<(u32, V)>, k: u32) -> int {
    choose|i: int| 0 <= i < rows.len() && (#[trigger] rows[i]).0 == k
}

/// Whether the keys grow from row to row.
pub open spec fn keys_grow<V>(rows: Seq<(u32, V)>) -> bool {
    forall|i: int, j: int|
        0 <= i < j < rows.len() ==> (#[trigger] rows[i]).0 < (#[trigger] rows[j]).0
}

/// What `f` makes of the values of `m` whose keys are below `k`, by growing key.
pub open spec fn collected_below<W, T>(
    m: Map<u32, W>,
    f: spec_fn(W) -> Option<T>,
    k: int,
) -> Seq<T>
    decreases k,
{
    if k <= 0 {
        seq![]
    } else {
        let before = collected_below(m, f, k - 1);
        if k - 1 <= u32::MAX && m.dom().contains((k - 1) as u32) {
            match f(m[(k - 1) as u32]) {
                Some(t) => before.push(t),
                None => before,
            }
        } else {
            before
        }
    }
}

/// What `f` makes of the values of `m`, by growing key.
pub open spec fn collected<W, T>(m: Map<u32, W>, f: spec_fn(W) -> Option<T>) -> Seq<T> {
    collected_below(m, f, 0x1_0000_0000)
}

proof fn lemma_gap<W, T>(m: Map<u32, W>, f: spec_fn(W) -> Option<T>, lo: int, hi: int)
    requires
        0 <= lo <= hi,
        forall|k: u32| lo <= k < hi ==> !#[trigger] m.dom().contains(k),
    ensures
        collected_below(m, f, hi) == collected_below(m, f, lo),
    decreases hi - lo,
{
    if lo < hi {
        lemma_gap(m, f, lo, hi - 1);
    }
}

proof fn lemma_rows_below<V>(m: Map<u32, V>, k: int)
    requires
        0 <= k <= 0x1_0000_0000,
    ensures
        keys_grow(rows_below(m, k)),
        forall|i: int|
            0 <= i < rows_below(m, k).len() ==> {
                let row = #[trigger] rows_below(m, k)[i];
                row.0 < k && m.dom().contains(row.0) && row.1 == m[row.0]
            },
        forall|x: u32| #[trigger]
            m.dom().contains(x) && x < k ==> exists|i: int|
                0 <= i < rows_below(m, k).len() && (#[trigger] rows_below(m, k)[i]).0 == x,
    decreases k,
{
    if k > 0 {
        lemma_rows_below(m, k - 1);
        let before = rows_below(m, k - 1);
        let rows = rows_below(m, k);
        if m.dom().contains((k - 1) as u32) {
            assert(rows[before.len() as int].0 == k - 1);
        }
        assert forall|x: u32| #[trigger] m.dom().contains(x) && x < k implies exists|i: int|
            0 <= i < rows.len() && (#[trigger] rows[i]).0 == x by {
            if x < k - 1 {
                let i = choose|i: int| 0 <= i < before.len() && (#[trigger] before[i]).0 == x;
                assert(rows[i].0 == x);
            } else {
                assert(rows[before.len() as int].0 == x);
            }
        }
    }
}

/// The keys of the rows of a map grow.
pub proof fn lemma_keys_grow<V>(m: Map<u32, V>)
    ensures
        keys_grow(rows_of(m)),
{
    lemma_rows_below(m, 0x1_0000_0000);
}

/// Each row is an entry of the map.
pub proof fn lemma_row<V>(m: Map<u32, V>, i: int)
    requires
        0 <= i < rows_of(m).len(),
    ensures
        m.dom().contains(rows_of(m)[i].0),
        m[rows_of(m)[i].0] == rows_of(m)[i].1,
        row_of(rows_of(m), rows_of(m)[i].0) == i,
{
    lemma_rows_below(m, 0x1_0000_0000);
    let rows = rows_of(m);
    let j = row_of(rows, rows[i].0);
    if j < i {
        assert(rows[j].0 < rows[i].0);
    } else if i < j {
        assert(rows[i].0 < rows[j].0);
    }
}

/// Each entry of the map is a row.
pub proof fn lemma_entry<V>(m: Map<u32, V>, k: u32)
    requires
        m.dom().contains(k),
    ensures
        0 <= row_of(rows_of(m), k) < rows_of(m).len(),
        rows_of(m)[row_of(rows_of(m), k)] == (k, m[k]),
{
    lemma_rows_below(m, 0x1_0000_0000);
}

/// Every entry of the map is a row.
pub proof fn lemma_entries<V>(m: Map<u32, V>)
    ensures
        forall|k: u32| #[trigger]
            m.dom().contains(k) ==> 0 <= row_of(rows_of(m), k) < rows_of(m).len(),
{
    assert forall|k: u32| #[trigger] m.dom().contains(k) implies 0 <= row_of(rows_of(m), k)
        < rows_of(m).len() by {
        lemma_entry(m, k);
    }
}

/// The keys of the first `i + 1` rows are those of the first `i`, and that of row `i`.
pub proof fn lemma_next_row<V>(m: Map<u32, V>, i: int)
    requires
        0 <= i < rows_of(m).len(),
    ensures
        m.dom().contains(rows_of(m)[i].0),
        m[rows_of(m)[i].0] == rows_of(m)[i].1,
        forall|k: u32| #[trigger]
            m.dom().contains(k) ==> (row_of(rows_of(m), k) < i + 1 <==> row_of(rows_of(m), k) < i
                || k == rows_of(m)[i].0),
{
    lemma_row(m, i);
    assert forall|k: u32| #[trigger] m.dom().contains(k) implies (row_of(rows_of(m), k) < i + 1
        <==> row_of(rows_of(m), k) < i || k == rows_of(m)[i].0) by {
        lemma_entry(m, k);
    }
}

/// The smallest key that the row `i` can have.
pub open spec fn bound<V>(rows: Seq<(u32, V)>, i: int) -> int {
    if i <= 0 {
        0
    } else {
        rows[i - 1].0 + 1
    }
}

/// Row by row, what `f` makes of the values is collected by growing key.
pub proof fn lemma_collect_row<V, W, T>(
    t: Map<u32, V>,
    m: Map<u32, W>,
    f: spec_fn(W) -> Option<T>,
    i: int,
)
    requires
        forall|k: u32| #[trigger] m.dom().contains(k) <==> t.dom().contains(k),
        0 <= i < rows_of(t).len(),
    ensures
        collected_below(m, f, bound(rows_of(t), i + 1)) == match f(m[rows_of(t)[i].0]) {
            Some(x) => collected_below(m, f, bound(rows_of(t), i)).push(x),
            None => collected_below(m, f, bound(rows_of(t), i)),
        },
{
    let rows = rows_of(t);
    let k = rows[i].0;
    lemma_keys_grow(t);
    lemma_row(t, i);
    if i > 0 {
        assert(rows[i - 1].0 < rows[i].0);
    }
    assert forall|x: u32| bound(rows, i) <= x < k implies !#[trigger] m.dom().contains(x) by {
        if m.dom().contains(x) {
            lemma_entry(t, x);
            let r = row_of(rows, x);
            if r >= i {
                if r > i {
                    assert(rows[i].0 < rows[r].0);
                }
            } else if r < i - 1 {
                assert(rows[r].0 < rows[i - 1].0);
            }
        }
    }
    lemma_gap(m, f, bound(rows, i), k as int);
}

/// Behind the last row there is nothing more to collect.
pub proof fn lemma_collect_end<V, W, T>(
    t: Map<u32, V>,
    m: Map<u32, W>,
    f: spec_fn(W) -> Option<T>,
)
    requires
        forall|k: u32| #[trigger] m.dom().contains(k) <==> t.dom().contains(k),
    ensures
        collected(m, f) == collected_below(m, f, bound(rows_of(t), rows_of(t).len() as int)),
{
    let rows = rows_of(t);
    let n = rows.len() as int;
    lemma_keys_grow(t);
    if n > 0 {
        lemma_row(t, n - 1);
    }
    assert forall|x: u32| bound(rows, n) <= x < 0x1_0000_0000 implies !#[trigger] m.dom().contains(
        x,
    ) by {
        if m.dom().contains(x) {
            lemma_entry(t, x);
            let r = row_of(rows, x);
            if r < n - 1 {
                assert(rows[r].0 < rows[n - 1].0);
            }
        }
    }
    lemma_gap(m, f, bound(rows, n), 0x1_0000_0000);
}

/// Rows with growing keys that are the entries of `m` are its rows.
proof fn lemma_rows_unique<V>(m: Map<u32, V>, rows: Seq<(u32, V)>, k: int)
    requires
        0 <= k <= 0x1_0000_0000,
        keys_grow(rows),
        forall|i: int|
            0 <= i < rows.len() ==> {
                let row = #[trigger] rows[i];
                row.0 < k && m.dom().contains(row.0) && row.1 == m[row.0]
            },
        forall|x: u32| #[trigger]
            m.dom().contains(x) && x < k ==> exists|i: int|
                0 <= i < rows.len() && (#[trigger] rows[i]).0 == x,
    ensures
        rows == rows_below(m, k),
    decreases k,
{
    if k == 0 {
        if rows.len() > 0 {
            assert(rows[0].0 < 0);
        }
        assert(rows == rows_below(m, k));
    } else {
        let top = (k - 1) as u32;
        if m.dom().contains(top) {
            let i = choose|i: int| 0 <= i < rows.len() && (#[trigger] rows[i]).0 == top;
            let n = rows.len() - 1;
            if i < n {
                assert(rows[i].0 < rows[n].0);
            }
            let rest = rows.drop_last();
            assert forall|j: int| 0 <= j < rest.len() implies {
                let row = #[trigger] rest[j];
                row.0 < k - 1 && m.dom().contains(row.0) && row.1 == m[row.0]
            } by {
                assert(rows[j].0 < rows[n].0);
            }
            assert forall|x: u32| #[trigger] m.dom().contains(x) && x < k - 1 implies exists|j: int|
                0 <= j < rest.len() && (#[trigger] rest[j]).0 == x by {
                let j = choose|j: int| 0 <= j < rows.len() && (#[trigger] rows[j]).0 == x;
                assert(rest[j].0 == x);
            }
            lemma_rows_unique(m, rest, k - 1);
            assert(rows == rest.push(rows[n]));
        } else {
            assert forall|j: int| 0 <= j < rows.len() implies {
                let row = #[trigger] rows[j];
                row.0 < k - 1 && m.dom().contains(row.0) && row.1 == m[row.0]
            } by {
                assert(rows[j].0 != top);
            }
            lemma_rows_unique(m, rows, k - 1);
        }
    }
}

/// Whether `v` holds the entries of `m`, by growing key.
pub open spec fn are_entries<V>(v: Seq<(u32, &V)>, m: Map<u32, V>) -> bool {
    &&& v.len() == rows_of(m).len()
    &&& forall|i: int|
        0 <= i < v.len() ==> (#[trigger] v[i]).0 == rows_of(m)[i].0 && *v[i].1 == rows_of(m)[i].1
}

/// The entries of `m`, by growing key.
pub fn entries<V>(m: &BTreeMap<u32, V>) -> (r: Vec<(u32, &V)>)
    ensures
        are_entries(r@, m@),
{
    let mut r: Vec<(u32, &V)> = Vec::new();
    let it = m.iter();
    let ghost all = vstd::std_specs::iter::IteratorSpec::remaining(&it);
    for row in walk: it
        invariant
            walk.seq() == all,
            r@.len() == walk.index(),
            forall|i: int|
                0 <= i < r@.len() ==> (#[trigger] r@[i]).0 == *all[i].0 && r@[i].1 == all[i].1,
    {
        r.push((*row.0, row.1));
    }
    proof {
        let keys = all.map_values(|kv: (&u32, &V)| *kv.0);
        let done = Seq::new(r@.len(), |i: int| (r@[i].0, *r@[i].1));
        assert forall|i: int, j: int| 0 <= i < j < done.len() implies (#[trigger] done[i]).0 < (
        #[trigger] done[j]).0 by {
            assert(vstd::std_specs::cmp::OrdSpec::cmp_spec(&keys[i], &keys[j]) is Less);
        }
        assert forall|x: u32| #[trigger] m@.dom().contains(x) implies exists|i: int|
            0 <= i < done.len() && (#[trigger] done[i]).0 == x by {
            assert(m@.contains_key(x));
            assert(all.contains((&x, &m@[x])));
            let i = choose|i: int| 0 <= i < all.len() && all[i] == (&x, &m@[x]);
            assert(done[i].0 == x);
        }
        assert forall|i: int| 0 <= i < done.len() implies {
            let row = #[trigger] done[i];
            row.0 < 0x1_0000_0000 && m@.dom().contains(row.0) && row.1 == m@[row.0]
        } by {
            assert(m@.contains_key(*all[i].0));
        }
        lemma_rows_unique(m@, done, 0x1_0000_0000);
    }
    r
}

} // verus!
