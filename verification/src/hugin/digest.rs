//! The digest that two captures are told apart by.

use vstd::prelude::*;
use vstd::utf8::{encode_utf8, encode_utf8_decode_utf8};
use crate::hugin::capture::{part_views, CapturedPart, PartStore, PartView};
use crate::sorting::{
    earlier, lemma_earlier_orders, lemma_placed_at, orders, placed, sorted, sorting_keeps_items,
    strict_order_is_unique, strictly_ordered,
};
use crate::text::{lemma_text_order_total, stands_before, text_before};
use crate::utf8::{bytes_of, size};

verus! {

/// The lowest `k` bytes of `n`, the lowest first.
pub open spec fn low_bytes(n: int, k: nat) -> Seq<u8>
    decreases k,
{
    if k == 0 {
        seq![]
    } else {
        seq![(n % 256) as u8] + low_bytes(n / 256, (k - 1) as nat)
    }
}

/// A part as it goes into the digest: its form and its bytes, each behind its
/// length.
pub open spec fn framed(p: PartView) -> Seq<u8> {
    low_bytes(size(p.mime) as int, 4) + encode_utf8(p.mime) + low_bytes(p.blob.len() as int, 8)
        + p.blob
}

/// The parts as they go into the digest, one behind the other.
pub open spec fn all_framed(parts: Seq<PartView>) -> Seq<u8>
    decreases parts.len(),
{
    if parts.len() == 0 {
        seq![]
    } else {
        all_framed(parts.drop_last()) + framed(parts.last())
    }
}

/// The order of parts goes by their forms.
pub open spec fn mime_order() -> spec_fn(PartView, PartView) -> bool {
    |a: PartView, b: PartView| text_before(a.mime, b.mime)
}

/// What is digested of a capture: its parts in the order of their forms.
pub open spec fn canonical(parts: Seq<PartView>) -> Seq<u8> {
    all_framed(sorted(parts, mime_order()))
}

/// `blake3::hash` of `bytes`.
pub uninterp spec fn blake3_digest(bytes: Seq<u8>) -> Seq<u8>;

/// `blake3::hash`: 32 bytes, a function of the input alone. That different inputs
/// have different digests is not claimed.
#[verifier::external_body]
fn blake3_of(bytes: &Vec<u8>) -> (h: Vec<u8>)
    ensures
        h@ == blake3_digest(bytes@),
        h@.len() == 32,
{
    blake3::hash(bytes).as_bytes().to_vec()
}

/// Append the lowest `k` bytes of `n` to `out`.
fn push_low_bytes(out: &mut Vec<u8>, n: u64, k: u64)
    ensures
        final(out)@ == old(out)@ + low_bytes(n as int, k as nat),
{
    let ghost before = out@;
    let mut rest: u64 = n;
    let mut left: u64 = k;
    assert(before + low_bytes(n as int, k as nat) == out@ + low_bytes(rest as int, left as nat));
    while left > 0
        invariant
            before + low_bytes(n as int, k as nat) == out@ + low_bytes(rest as int, left as nat),
        decreases left,
    {
        let ghost so_far = out@;
        let b = (rest % 256) as u8;
        out.push(b);
        assert(so_far + (seq![b] + low_bytes(rest as int / 256, (left - 1) as nat)) == out@
            + low_bytes(rest as int / 256, (left - 1) as nat));
        rest = rest / 256;
        left = left - 1;
    }
    assert(out@ + low_bytes(rest as int, 0) == out@);
}

/// Append a part to `out` as it goes into the digest.
fn push_framed(out: &mut Vec<u8>, p: &CapturedPart)
    ensures
        final(out)@ == old(out)@ + framed(p@),
{
    let ghost start = out@;
    let name = bytes_of(p.mime.as_str());
    push_low_bytes(out, name.len() as u64, 4);
    let ghost a = out@;
    out.extend_from_slice(name.as_slice());
    assert(out@ == a + name@);
    push_low_bytes(out, p.blob.len() as u64, 8);
    let ghost b = out@;
    out.extend_from_slice(p.blob.as_slice());
    assert(out@ == b + p.blob@);
    assert(out@ == start + framed(p@));
}

/// The places of the parts, in the order of their forms.
fn mime_ranking(parts: &Vec<CapturedPart>) -> (order: Vec<usize>)
    ensures
        order@.len() == parts@.len(),
        forall|i: int| 0 <= i < order@.len() ==> #[trigger] order@[i] < parts@.len(),
        Seq::new(order@.len(), |i: int| parts@[order@[i] as int]@) == sorted(
            part_views(parts@),
            mime_order(),
        ),
{
    let ghost pv = part_views(parts@);
    let mut order: Vec<usize> = Vec::new();
    let mut n: usize = 0;
    assert(Seq::new(order@.len(), |i: int| parts@[order@[i] as int]@) == sorted(
        pv.take(0),
        mime_order(),
    ));
    while n < parts.len()
        invariant
            n <= parts@.len(),
            pv == part_views(parts@),
            order@.len() == n,
            forall|i: int| 0 <= i < order@.len() ==> #[trigger] order@[i] < parts@.len(),
            Seq::new(order@.len(), |i: int| parts@[order@[i] as int]@) == sorted(
                pv.take(n as int),
                mime_order(),
            ),
        decreases parts@.len() - n,
    {
        let ghost s = Seq::new(order@.len(), |i: int| parts@[order@[i] as int]@);
        let ghost x = parts@[n as int]@;
        let mut at: usize = order.len();
        while at > 0 && stands_before(parts[n].mime.as_str(), parts[order[at - 1]].mime.as_str())
            invariant
                at <= order@.len(),
                n < parts@.len(),
                x == parts@[n as int]@,
                forall|i: int| 0 <= i < order@.len() ==> #[trigger] order@[i] < parts@.len(),
                s == Seq::new(order@.len(), |i: int| parts@[order@[i] as int]@),
                forall|k: int|
                    at <= k < order@.len() ==> text_before(x.mime, (#[trigger] s[k]).mime),
            decreases at,
        {
            at -= 1;
            assert(s[at as int] == parts@[order@[at as int] as int]@);
        }
        let ghost before = order@;
        proof {
            if at > 0 {
                assert(s[at - 1] == parts@[order@[at - 1] as int]@);
            }
            lemma_placed_at(s, x, mime_order(), at as int);
            assert(pv.take(n + 1).drop_last() == pv.take(n as int));
            assert(pv.take(n + 1).last() == x);
        }
        order.insert(at, n);
        proof {
            assert forall|i: int| 0 <= i < order@.len() implies #[trigger] order@[i]
                < parts@.len() by {
                if i < at {
                    assert(order@[i] == before[i]);
                } else if i > at {
                    assert(order@[i] == before[i - 1]);
                }
            }
            assert(Seq::new(order@.len(), |i: int| parts@[order@[i] as int]@) =~= s.insert(
                at as int,
                x,
            ));
        }
        n += 1;
    }
    assert(pv.take(parts@.len() as int) == pv);
    order
}

/// What is digested of a capture.
pub fn canonical_bytes(parts: &Vec<CapturedPart>) -> (r: Vec<u8>)
    ensures
        r@ == canonical(part_views(parts@)),
{
    let order = mime_ranking(parts);
    let ghost s = sorted(part_views(parts@), mime_order());
    let mut r: Vec<u8> = Vec::new();
    let mut i: usize = 0;
    assert(r@ == all_framed(s.take(0)));
    while i < order.len()
        invariant
            i <= order@.len(),
            forall|i: int| 0 <= i < order@.len() ==> #[trigger] order@[i] < parts@.len(),
            s == Seq::new(order@.len(), |i: int| parts@[order@[i] as int]@),
            r@ == all_framed(s.take(i as int)),
        decreases order@.len() - i,
    {
        let at = order[i];
        push_framed(&mut r, &parts[at]);
        assert(s.take(i + 1).drop_last() == s.take(i as int));
        assert(s.take(i + 1).last() == parts@[at as int]@);
        i += 1;
    }
    assert(s.take(order@.len() as int) == s);
    r
}

/// The digest of a capture.
pub fn canonical_hash(parts: &Vec<CapturedPart>) -> (h: Vec<u8>)
    ensures
        h@ == blake3_digest(canonical(part_views(parts@))),
        h@.len() == 32,
{
    let bytes = canonical_bytes(parts);
    blake3_of(&bytes)
}

// ---- what the digest tells apart ---------------------------------------------------------

/// Whether no two parts have the same form.
pub open spec fn distinct_mimes(parts: Seq<PartView>) -> bool {
    forall|i: int, j: int|
        0 <= i < j < parts.len() ==> (#[trigger] parts[i]).mime != (#[trigger] parts[j]).mime
}

/// Forms order parts.
proof fn lemma_mime_order()
    ensures
        orders(mime_order()),
{
    lemma_earlier_orders();
    let f = mime_order();
    let g = earlier();
    assert forall|a: PartView, b: PartView| !(#[trigger] f(a, b) && f(b, a)) by {
        assert(!(g(a.mime, b.mime) && g(b.mime, a.mime)));
    }
    assert forall|a: PartView, b: PartView, c: PartView|
        !(#[trigger] f(a, b)) && !(#[trigger] f(b, c)) implies !f(a, c) by {
        assert(!g(a.mime, b.mime));
        assert(!g(b.mime, c.mime));
    }
}

/// Two places of a list in order hold parts of different forms, where those of
/// the list do.
proof fn lemma_sorted_distinct(parts: Seq<PartView>)
    requires
        distinct_mimes(parts),
    ensures
        strictly_ordered(sorted(parts, mime_order()), mime_order()),
    decreases parts.len(),
{
    if parts.len() > 0 {
        let t = parts.drop_last();
        let x = parts.last();
        assert(distinct_mimes(t)) by {
            assert(forall|i: int| 0 <= i < t.len() ==> t[i] == parts[i]);
        }
        lemma_sorted_distinct(t);
        let s = sorted(t, mime_order());
        assert forall|i: int| 0 <= i < s.len() implies (#[trigger] s[i]).mime != x.mime by {
            assert(s.contains(s[i]));
            sorting_keeps_items(t, mime_order(), s[i]);
            let k = choose|k: int| 0 <= k < t.len() && t[k] == s[i];
            assert(parts[k] == s[i]);
            assert(parts[parts.len() - 1] == x);
        }
        lemma_placed_strict(s, x);
    }
}

proof fn lemma_placed_strict(s: Seq<PartView>, x: PartView)
    requires
        strictly_ordered(s, mime_order()),
        forall|i: int| 0 <= i < s.len() ==> (#[trigger] s[i]).mime != x.mime,
    ensures
        strictly_ordered(placed(s, x, mime_order()), mime_order()),
        forall|i: int|
            0 <= i < placed(s, x, mime_order()).len() ==> (#[trigger] placed(
                s,
                x,
                mime_order(),
            )[i] == x || s.contains(placed(s, x, mime_order())[i])),
    decreases s.len(),
{
    let f = mime_order();
    let p = placed(s, x, f);
    lemma_mime_order();
    if s.len() == 0 || !f(x, s.last()) {
        assert forall|i: int, j: int| 0 <= i < j < p.len() implies f(
            #[trigger] p[i],
            #[trigger] p[j],
        ) by {
            if j == s.len() {
                let last = s[s.len() - 1];
                lemma_text_order_total(last.mime, x.mime);
                assert(f(last, x));
                if i < s.len() - 1 {
                    assert(f(s[i], last));
                    if !f(s[i], x) {
                        lemma_text_order_total(s[i].mime, x.mime);
                        assert(!f(x, last));
                        assert(!f(s[i], x));
                        assert(!f(s[i], last));
                    }
                }
            } else {
                assert(f(s[i], s[j]));
            }
        }
        assert forall|i: int| 0 <= i < p.len() implies (#[trigger] p[i] == x || s.contains(
            p[i],
        )) by {
            if i < s.len() {
                assert(s[i] == p[i]);
            }
        }
    } else {
        let t = s.drop_last();
        let q = placed(t, x, f);
        assert(strictly_ordered(t, f)) by {
            assert(forall|i: int| 0 <= i < t.len() ==> t[i] == s[i]);
        }
        assert forall|i: int| 0 <= i < t.len() implies (#[trigger] t[i]).mime != x.mime by {
            assert(t[i] == s[i]);
        }
        lemma_placed_strict(t, x);
        assert forall|i: int| 0 <= i < q.len() implies (#[trigger] q[i] == x || s.contains(
            q[i],
        )) by {
            if q[i] != x {
                assert(t.contains(q[i]));
                let k = choose|k: int| 0 <= k < t.len() && t[k] == q[i];
                assert(s[k] == q[i]);
            }
        }
        assert forall|i: int, j: int| 0 <= i < j < p.len() implies f(
            #[trigger] p[i],
            #[trigger] p[j],
        ) by {
            if j < q.len() {
                assert(f(q[i], q[j]));
            } else if q[i] != x {
                assert(t.contains(q[i]));
                let k = choose|k: int| 0 <= k < t.len() && t[k] == q[i];
                assert(f(s[k], s[s.len() - 1]));
            }
        }
        assert forall|i: int| 0 <= i < p.len() implies (#[trigger] p[i] == x || s.contains(
            p[i],
        )) by {
            if i < q.len() {
                assert(p[i] == q[i]);
            } else {
                assert(s[s.len() - 1] == p[i]);
            }
        }
    }
}

/// The order in which the forms of a capture were offered does not matter: the
/// same parts, each form once, have the same digest.
pub proof fn offers_may_come_in_any_order(a: Seq<PartView>, b: Seq<PartView>)
    requires
        distinct_mimes(a),
        distinct_mimes(b),
        forall|p: PartView| a.contains(p) <==> b.contains(p),
    ensures
        canonical(a) == canonical(b),
        blake3_digest(canonical(a)) == blake3_digest(canonical(b)),
{
    let f = mime_order();
    lemma_mime_order();
    lemma_sorted_distinct(a);
    lemma_sorted_distinct(b);
    assert forall|p: PartView| sorted(a, f).contains(p) <==> sorted(b, f).contains(p) by {
        sorting_keeps_items(a, f, p);
        sorting_keeps_items(b, f, p);
    }
    strict_order_is_unique(sorted(a, f), sorted(b, f), f);
}

/// Whether two parts have the same form and bytes.
pub open spec fn same_content(p: PartView, q: PartView) -> bool {
    p.mime == q.mime && p.blob == q.blob
}

/// Whether each of `a` has its like among `b`.
pub open spec fn covered(a: Seq<PartView>, b: Seq<PartView>) -> bool {
    forall|p: PartView| #[trigger]
        a.contains(p) ==> exists|q: PartView| #[trigger] b.contains(q) && same_content(p, q)
}

/// Whether `a` and `b` hold the same forms and bytes.
pub open spec fn same_parts(a: Seq<PartView>, b: Seq<PartView>) -> bool {
    covered(a, b) && covered(b, a)
}

/// `p`, as if it had been stored in full.
spec fn bare(p: PartView) -> PartView {
    PartView { store: PartStore::Full, ..p }
}

/// `parts`, as if they had been stored in full.
spec fn all_bare(parts: Seq<PartView>) -> Seq<PartView> {
    Seq::new(parts.len(), |i: int| bare(parts[i]))
}

proof fn lemma_bare_placed(s: Seq<PartView>, x: PartView)
    ensures
        placed(all_bare(s), bare(x), mime_order()) == all_bare(placed(s, x, mime_order())),
    decreases s.len(),
{
    let f = mime_order();
    let b = all_bare(s);
    if s.len() == 0 || !f(x, s.last()) {
        assert(all_bare(s.push(x)) =~= b.push(bare(x)));
    } else {
        let t = s.drop_last();
        lemma_bare_placed(t, x);
        assert(b.drop_last() =~= all_bare(t));
        assert(all_bare(placed(t, x, f).push(s.last())) =~= all_bare(placed(t, x, f)).push(
            bare(s.last()),
        ));
    }
}

proof fn lemma_bare_sorted(parts: Seq<PartView>)
    ensures
        sorted(all_bare(parts), mime_order()) == all_bare(sorted(parts, mime_order())),
    decreases parts.len(),
{
    if parts.len() == 0 {
        assert(all_bare(parts) =~= parts);
    } else {
        let t = parts.drop_last();
        lemma_bare_sorted(t);
        lemma_bare_placed(sorted(t, mime_order()), parts.last());
        assert(all_bare(parts).drop_last() =~= all_bare(t));
    }
}

proof fn lemma_bare_framed(parts: Seq<PartView>)
    ensures
        all_framed(all_bare(parts)) == all_framed(parts),
    decreases parts.len(),
{
    if parts.len() > 0 {
        lemma_bare_framed(parts.drop_last());
        assert(all_bare(parts).drop_last() =~= all_bare(parts.drop_last()));
    }
}

proof fn lemma_bare_contains(a: Seq<PartView>, b: Seq<PartView>, p: PartView)
    requires
        covered(a, b),
        all_bare(a).contains(p),
    ensures
        all_bare(b).contains(p),
{
    let i = choose|i: int| 0 <= i < a.len() && all_bare(a)[i] == p;
    assert(a.contains(a[i]));
    let q = choose|q: PartView| #[trigger] b.contains(q) && same_content(a[i], q);
    let j = choose|j: int| 0 <= j < b.len() && b[j] == q;
    assert(all_bare(b)[j] == p);
}

/// Captures of the same forms and bytes, each form once, have the same digest, in
/// whatever order the forms come and however they were stored.
pub proof fn same_content_has_one_digest(a: Seq<PartView>, b: Seq<PartView>)
    requires
        distinct_mimes(a),
        distinct_mimes(b),
        same_parts(a, b),
    ensures
        canonical(a) == canonical(b),
        blake3_digest(canonical(a)) == blake3_digest(canonical(b)),
{
    let x = all_bare(a);
    let y = all_bare(b);
    assert forall|p: PartView| x.contains(p) <==> y.contains(p) by {
        if x.contains(p) {
            lemma_bare_contains(a, b, p);
        }
        if y.contains(p) {
            lemma_bare_contains(b, a, p);
        }
    }
    offers_may_come_in_any_order(x, y);
    lemma_bare_sorted(a);
    lemma_bare_sorted(b);
    lemma_bare_framed(sorted(a, mime_order()));
    lemma_bare_framed(sorted(b, mime_order()));
}

/// How many numbers `k` bytes can tell apart.
spec fn span(k: nat) -> int
    decreases k,
{
    if k == 0 {
        1
    } else {
        256 * span((k - 1) as nat)
    }
}

proof fn lemma_low_bytes(a: int, b: int, k: nat)
    requires
        0 <= a < span(k),
        0 <= b < span(k),
        low_bytes(a, k) == low_bytes(b, k),
    ensures
        a == b,
    decreases k,
{
    if k > 0 {
        let j = (k - 1) as nat;
        let x = low_bytes(a, k);
        let y = low_bytes(b, k);
        lemma_low_bytes_len(a / 256, j);
        lemma_low_bytes_len(b / 256, j);
        assert(x[0] == (a % 256) as u8);
        assert(y[0] == (b % 256) as u8);
        assert(x.drop_first() == low_bytes(a / 256, j));
        assert(y.drop_first() == low_bytes(b / 256, j));
        lemma_low_bytes(a / 256, b / 256, j);
    }
}

proof fn lemma_low_bytes_len(n: int, k: nat)
    ensures
        low_bytes(n, k).len() == k,
    decreases k,
{
    if k > 0 {
        lemma_low_bytes_len(n / 256, (k - 1) as nat);
    }
}

proof fn lemma_front(parts: Seq<PartView>)
    requires
        parts.len() > 0,
    ensures
        all_framed(parts) == framed(parts[0]) + all_framed(parts.drop_first()),
    decreases parts.len(),
{
    if parts.len() == 1 {
        assert(parts.drop_last() == Seq::<PartView>::empty());
        assert(parts.drop_first() == Seq::<PartView>::empty());
        assert(all_framed(parts.drop_last()) == Seq::<u8>::empty());
        assert(all_framed(parts) == framed(parts[0]) + all_framed(parts.drop_first()));
    } else {
        let t = parts.drop_last();
        lemma_front(t);
        assert(t.drop_first() == parts.drop_first().drop_last());
        assert(parts.drop_first().last() == parts.last());
        assert(all_framed(parts) == framed(parts[0]) + all_framed(parts.drop_first()));
    }
}

/// Whether the lengths of `p` fit the bytes that are set aside for them.
pub open spec fn fits_frame(p: PartView) -> bool {
    size(p.mime) < 0x1_0000_0000 && p.blob.len() < 0x1_0000_0000_0000_0000
}

proof fn lemma_frame_prefix(p: PartView, q: PartView, x: Seq<u8>, y: Seq<u8>)
    requires
        fits_frame(p),
        fits_frame(q),
        framed(p) + x == framed(q) + y,
    ensures
        same_content(p, q),
        x == y,
{
    let whole = framed(p) + x;
    let m = size(p.mime) as int;
    let n = p.blob.len() as int;
    lemma_low_bytes_len(size(p.mime) as int, 4);
    lemma_low_bytes_len(size(q.mime) as int, 4);
    lemma_low_bytes_len(p.blob.len() as int, 8);
    lemma_low_bytes_len(q.blob.len() as int, 8);
    assert(whole.take(4) == low_bytes(size(p.mime) as int, 4));
    assert((framed(q) + y).take(4) == low_bytes(size(q.mime) as int, 4));
    assert(span(4) == 0x1_0000_0000) by {
        reveal_with_fuel(span, 5);
    }
    assert(span(8) == 0x1_0000_0000_0000_0000) by {
        reveal_with_fuel(span, 9);
    }
    lemma_low_bytes(size(p.mime) as int, size(q.mime) as int, 4);
    assert(whole.subrange(4, 4 + m) == encode_utf8(p.mime));
    assert((framed(q) + y).subrange(4, 4 + m) == encode_utf8(q.mime));
    encode_utf8_decode_utf8(p.mime);
    encode_utf8_decode_utf8(q.mime);
    assert(p.mime == q.mime);
    assert(whole.subrange(4 + m, 12 + m) == low_bytes(n, 8));
    assert((framed(q) + y).subrange(4 + m, 12 + m) == low_bytes(q.blob.len() as int, 8));
    lemma_low_bytes(n, q.blob.len() as int, 8);
    assert(whole.subrange(12 + m, 12 + m + n) == p.blob);
    assert((framed(q) + y).subrange(12 + m, 12 + m + n) == q.blob);
    assert(whole.skip(12 + m + n) == x);
    assert((framed(q) + y).skip(12 + m + n) == y);
}

/// Lists of parts that are digested from the same bytes are the same, part for
/// part.
pub proof fn framing_tells_parts_apart(a: Seq<PartView>, b: Seq<PartView>)
    requires
        forall|i: int| 0 <= i < a.len() ==> fits_frame(#[trigger] a[i]),
        forall|i: int| 0 <= i < b.len() ==> fits_frame(#[trigger] b[i]),
        all_framed(a) == all_framed(b),
    ensures
        a.len() == b.len(),
        forall|i: int| 0 <= i < a.len() ==> same_content(#[trigger] a[i], b[i]),
    decreases a.len(),
{
    if a.len() == 0 || b.len() == 0 {
        if a.len() > 0 {
            lemma_front(a);
            lemma_low_bytes_len(size(a[0].mime) as int, 4);
            assert(all_framed(b).len() == 0);
            assert(all_framed(a).len() >= 4);
        }
        if b.len() > 0 {
            lemma_front(b);
            lemma_low_bytes_len(size(b[0].mime) as int, 4);
            assert(all_framed(a).len() == 0);
            assert(all_framed(b).len() >= 4);
        }
    } else {
        lemma_front(a);
        lemma_front(b);
        let a1 = a.drop_first();
        let b1 = b.drop_first();
        lemma_frame_prefix(a[0], b[0], all_framed(a1), all_framed(b1));
        assert forall|i: int| 0 <= i < a1.len() implies fits_frame(#[trigger] a1[i]) by {
            assert(a1[i] == a[i + 1]);
        }
        assert forall|i: int| 0 <= i < b1.len() implies fits_frame(#[trigger] b1[i]) by {
            assert(b1[i] == b[i + 1]);
        }
        framing_tells_parts_apart(a1, b1);
        assert forall|i: int| 0 <= i < a.len() implies same_content(#[trigger] a[i], b[i]) by {
            if i > 0 {
                assert(a1[i - 1] == a[i]);
                assert(b1[i - 1] == b[i]);
                assert(same_content(a1[i - 1], b1[i - 1]));
            }
        }
    }
}

/// Captures that are digested from the same bytes hold the same forms and bytes.
pub proof fn captures_are_told_apart(a: Seq<PartView>, b: Seq<PartView>)
    requires
        forall|i: int| 0 <= i < a.len() ==> fits_frame(#[trigger] a[i]),
        forall|i: int| 0 <= i < b.len() ==> fits_frame(#[trigger] b[i]),
        canonical(a) == canonical(b),
    ensures
        a.len() == b.len(),
        same_parts(a, b),
{
    lemma_covered(a, b);
    lemma_covered(b, a);
}

proof fn lemma_covered(a: Seq<PartView>, b: Seq<PartView>)
    requires
        forall|i: int| 0 <= i < a.len() ==> fits_frame(#[trigger] a[i]),
        forall|i: int| 0 <= i < b.len() ==> fits_frame(#[trigger] b[i]),
        canonical(a) == canonical(b),
    ensures
        a.len() == b.len(),
        covered(a, b),
{
    let f = mime_order();
    let s = sorted(a, f);
    let t = sorted(b, f);
    assert forall|i: int| 0 <= i < s.len() implies fits_frame(#[trigger] s[i]) by {
        assert(s.contains(s[i]));
        sorting_keeps_items(a, f, s[i]);
        let k = choose|k: int| 0 <= k < a.len() && a[k] == s[i];
        assert(fits_frame(a[k]));
    }
    assert forall|i: int| 0 <= i < t.len() implies fits_frame(#[trigger] t[i]) by {
        assert(t.contains(t[i]));
        sorting_keeps_items(b, f, t[i]);
        let k = choose|k: int| 0 <= k < b.len() && b[k] == t[i];
        assert(fits_frame(b[k]));
    }
    framing_tells_parts_apart(s, t);
    if a.len() > 0 {
        sorting_keeps_items(a, f, a[0]);
    } else {
        sorting_keeps_items(a, f, arbitrary());
    }
    if b.len() > 0 {
        sorting_keeps_items(b, f, b[0]);
    } else {
        sorting_keeps_items(b, f, arbitrary());
    }
    assert forall|p: PartView| #[trigger] a.contains(p) implies exists|q: PartView| #[trigger]
        b.contains(q) && same_content(p, q) by {
        sorting_keeps_items(a, f, p);
        let i = choose|i: int| 0 <= i < s.len() && s[i] == p;
        assert(same_content(s[i], t[i]));
        assert(t.contains(t[i]));
        sorting_keeps_items(b, f, t[i]);
        assert(b.contains(t[i]));
    }
}

} // verus!
