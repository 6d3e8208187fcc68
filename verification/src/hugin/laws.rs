//! What the clipboard history promises from end to end: what a search finds and
//! in what order, what is kept and stored of a capture, what the requests of a
//! client do, and what the keys of the picker do.

use vstd::arithmetic::div_mod::{lemma_fundamental_div_mod, lemma_fundamental_div_mod_converse};
use vstd::prelude::*;
use vstd::utf8::{
    decode_utf8_encode_utf8, encode_utf8, is_continuation_byte, valid_utf8,
};
use crate::base::fuzzy::{marked, match_of, picked};
use crate::base::sanitize::{plain_text_is_shown_as_is, shown};
use crate::hugin::capture::{
    kept, kept_parts, part_views, snapped, socket_name, stamp, text_mime, CapturedEntry, PartStore, PartView,
    ReadPartView, Selection,
};
use crate::hugin::digest::{blake3_digest, canonical, low_bytes};
use crate::hugin::cli::{table_content, table_label, table_row};
use crate::hugin::config::default_config;
use crate::hugin::format::{
    civil_seconds, days_to, number_at, size_text, tenths, time_text, whole_seconds,
};
use crate::hugin::ipc::{
    job_of, limit_or_default, no_blob, no_entry, nothing_to_serve, served, target_selection, JobView,
};
use crate::hugin::picker::{
    after_key, preview_of, preview_text, refreshed, row_head, row_runs, ModeView, Outcome,
    PreviewView, StateView, StepView,
};
use crate::hugin::proto::{EntryView, RequestView, SearchSort};
use crate::hugin::search::{
    best_rows, find_in, find_rank, find_ranks, found_row, is_search_result, prefix, CandidateView,
};
use crate::hugin::storage::{
    capped_limit, cutoff_at, described, is_index_text, is_oversized, is_stored_form, kept_size, last_digest,
    app_name, db_name, mimes_of, part_row_views, part_text, picked_mime, plain_text, question_marks, recorded, stands_for, tier, FormView,
    NewEntry, RowView,
};
use crate::base::laws::spells;
use crate::laws::{first_place_is_found, joining_puts_the_separator_between, trimming_takes_the_ends};
use crate::number::{decimal, digit, signed_decimal};
use crate::ranking::{goes_before, is_ranking};
use crate::text::{free_of, has_prefix, is_control, is_white, joined, lowered, right_aligned};
use crate::ui::highlight::{hit_chars, markers_carry_hits, painted, runs_of, unmarked};
use crate::ui::config::Layout;
use crate::ui::keys::{KeyCode, KeyEvent, KeyEventKind};
use crate::utf8::utf8_lossy;

verus! {

// ---- what a search finds --------------------------------------------------------------

/// As much of a text as is searched: its first 4096 characters.
pub open spec fn searched(t: Seq<char>) -> Seq<char> {
    t.subrange(
        0,
        if t.len() < 4096 {
            t.len() as int
        } else {
            4096
        },
    )
}

/// Whether the matcher finds `q` in the text of an entry.
pub open spec fn matches_entry(q: Seq<char>, c: CandidateView) -> bool {
    c.text is Some && match_of(q, searched(c.text->0)) is Some
}

/// The matcher's score of `q` on the text of an entry.
pub open spec fn entry_score(q: Seq<char>, c: CandidateView) -> u32 {
    (match_of(q, searched(c.text->0))->0).0
}

proof fn lemma_searched(t: Seq<char>)
    ensures
        prefix(t, 4096) == searched(t),
{
    assert(prefix(t, 4096) =~= searched(t));
}

/// The order behind the result of a search.
spec fn order_behind(
    rows: Seq<RowView>,
    pool: Seq<CandidateView>,
    q: Seq<char>,
    sort: SearchSort,
    limit: int,
) -> Seq<usize> {
    choose|order: Seq<usize>| #[trigger]
        is_ranking(order, find_ranks(pool, q, sort)) && rows == best_rows(pool, q, order, limit)
}

/// The entry behind row `i` of the result of a search is one that the matcher finds.
proof fn lemma_row(
    rows: Seq<RowView>,
    pool: Seq<CandidateView>,
    q: Seq<char>,
    sort: SearchSort,
    limit: int,
    i: int,
)
    requires
        is_search_result(rows, pool, q, sort, limit),
        0 <= i < rows.len(),
        limit >= 0,
    ensures
        ({
            let order = order_behind(rows, pool, q, sort, limit);
            &&& i < order.len()
            &&& order[i] < pool.len()
            &&& rows[i] == found_row(pool[order[i] as int], q)
            &&& matches_entry(q, pool[order[i] as int])
            &&& (find_in(q, pool[order[i] as int].text)->0).0 == entry_score(
                q,
                pool[order[i] as int],
            )
        }),
{
    let order = order_behind(rows, pool, q, sort, limit);
    let ranks = find_ranks(pool, q, sort);
    assert(is_ranking(order, ranks) && rows == best_rows(pool, q, order, limit));
    let c = pool[order[i] as int];
    assert(ranks[order[i] as int] is Some);
    assert(find_rank(c, q, sort) is Some);
    lemma_searched(c.text->0);
}

/// By relevance, the entry that the matcher scores higher stands before the other, and
/// of two that it scores alike the newer one stands first.
pub proof fn higher_scores_stand_first(
    rows: Seq<RowView>,
    pool: Seq<CandidateView>,
    q: Seq<char>,
    limit: int,
    i: int,
    j: int,
    a: int,
    b: int,
)
    requires
        is_search_result(rows, pool, q, SearchSort::Relevance, limit),
        limit >= 0,
        forall|x: int, y: int|
            0 <= x < y < pool.len() ==> (#[trigger] pool[x]).id != (#[trigger] pool[y]).id,
        0 <= i < rows.len(),
        0 <= j < rows.len(),
        0 <= a < pool.len(),
        0 <= b < pool.len(),
        rows[i].id == pool[a].id,
        rows[j].id == pool[b].id,
    ensures
        entry_score(q, pool[a]) > entry_score(q, pool[b]) ==> i < j,
        entry_score(q, pool[a]) == entry_score(q, pool[b]) && pool[a].id > pool[b].id ==> i < j,
{
    let sort = SearchSort::Relevance;
    let order = order_behind(rows, pool, q, sort, limit);
    let ranks = find_ranks(pool, q, sort);
    lemma_row(rows, pool, q, sort, limit, i);
    lemma_row(rows, pool, q, sort, limit, j);
    let x = order[i] as int;
    let y = order[j] as int;
    assert(pool[x].id == pool[a].id && pool[y].id == pool[b].id);
    assert(x == a && y == b);
    if j < i {
        assert(goes_before(ranks, y, x));
        assert(ranks[x] == find_rank(pool[x], q, sort));
        assert(ranks[y] == find_rank(pool[y], q, sort));
    }
}

/// By time, the newer of two finds stands before the other, whatever they score.
pub proof fn newer_entries_stand_first(
    rows: Seq<RowView>,
    pool: Seq<CandidateView>,
    q: Seq<char>,
    limit: int,
    i: int,
    j: int,
)
    requires
        is_search_result(rows, pool, q, SearchSort::Recent, limit),
        limit >= 0,
        0 <= i < rows.len(),
        0 <= j < rows.len(),
        rows[i].id > rows[j].id,
    ensures
        i < j,
{
    let sort = SearchSort::Recent;
    let order = order_behind(rows, pool, q, sort, limit);
    let ranks = find_ranks(pool, q, sort);
    lemma_row(rows, pool, q, sort, limit, i);
    lemma_row(rows, pool, q, sort, limit, j);
    let x = order[i] as int;
    let y = order[j] as int;
    if j < i {
        assert(goes_before(ranks, y, x));
        assert(ranks[x] == find_rank(pool[x], q, sort));
        assert(ranks[y] == find_rank(pool[y], q, sort));
    }
}

/// What a row of a search tells of an entry is what the entry holds, and the entry is
/// one that the matcher finds.
pub proof fn rows_tell_of_found_entries(
    rows: Seq<RowView>,
    pool: Seq<CandidateView>,
    q: Seq<char>,
    sort: SearchSort,
    limit: int,
    i: int,
)
    requires
        is_search_result(rows, pool, q, sort, limit),
        limit >= 0,
        0 <= i < rows.len(),
    ensures
        exists|k: int|
            {
                &&& 0 <= k < pool.len()
                &&& matches_entry(q, #[trigger] pool[k])
                &&& rows[i].id == pool[k].id
                &&& rows[i].ts_unix_ns == pool[k].ts_unix_ns
                &&& rows[i].selection == pool[k].selection
                &&& rows[i].size_bytes == pool[k].size_bytes
                &&& rows[i].snippet is Some
            },
{
    lemma_row(rows, pool, q, sort, limit, i);
    let order = order_behind(rows, pool, q, sort, limit);
    assert(matches_entry(q, pool[order[i] as int]));
}

/// No more is found than was asked for, and where less is, every entry that the matcher
/// finds is among it.
pub proof fn every_match_is_found(
    rows: Seq<RowView>,
    pool: Seq<CandidateView>,
    q: Seq<char>,
    sort: SearchSort,
    limit: int,
    k: int,
)
    requires
        is_search_result(rows, pool, q, sort, limit),
        limit >= 0,
        0 <= k < pool.len() <= usize::MAX,
        matches_entry(q, pool[k]),
    ensures
        rows.len() <= limit,
        rows.len() < limit ==> exists|i: int|
            0 <= i < rows.len() && (#[trigger] rows[i]).id == pool[k].id,
{
    let order = order_behind(rows, pool, q, sort, limit);
    let ranks = find_ranks(pool, q, sort);
    assert(is_ranking(order, ranks) && rows == best_rows(pool, q, order, limit));
    lemma_searched(pool[k].text->0);
    assert(ranks[k] == find_rank(pool[k], q, sort));
    assert(order.contains(k as usize));
    let i = choose|i: int| 0 <= i < order.len() && order[i] == k as usize;
    if rows.len() < limit {
        assert(rows[i] == found_row(pool[k], q));
    }
}

/// Where the limit is reached, no entry that was left out scores higher than one that
/// was listed.
pub proof fn the_best_are_listed(
    rows: Seq<RowView>,
    pool: Seq<CandidateView>,
    q: Seq<char>,
    limit: int,
    i: int,
    a: int,
    b: int,
)
    requires
        is_search_result(rows, pool, q, SearchSort::Relevance, limit),
        limit >= 0,
        pool.len() <= usize::MAX,
        forall|x: int, y: int|
            0 <= x < y < pool.len() ==> (#[trigger] pool[x]).id != (#[trigger] pool[y]).id,
        0 <= i < rows.len(),
        0 <= a < pool.len(),
        0 <= b < pool.len(),
        rows[i].id == pool[a].id,
        matches_entry(q, pool[b]),
        forall|j: int| 0 <= j < rows.len() ==> (#[trigger] rows[j]).id != pool[b].id,
    ensures
        entry_score(q, pool[b]) <= entry_score(q, pool[a]),
{
    let sort = SearchSort::Relevance;
    let order = order_behind(rows, pool, q, sort, limit);
    let ranks = find_ranks(pool, q, sort);
    assert(is_ranking(order, ranks) && rows == best_rows(pool, q, order, limit));
    lemma_row(rows, pool, q, sort, limit, i);
    assert(order[i] == a);
    lemma_searched(pool[b].text->0);
    assert(ranks[b] == find_rank(pool[b], q, sort));
    assert(ranks[a] == find_rank(pool[a], q, sort));
    assert(order.contains(b as usize));
    let j = choose|j: int| 0 <= j < order.len() && order[j] == b as usize;
    if j < rows.len() {
        assert(rows[j] == found_row(pool[b], q));
    }
    assert(goes_before(ranks, a, b));
}

// ---- what is stored of a capture --------------------------------------------------------

/// The text that an entry is found by is the whole of one of its parts: encoded again
/// it is that part, byte for byte, or, where the part is no text in UTF-8, its lossy
/// reading.
pub proof fn the_whole_text_is_stored(parts: Seq<PartView>, t: Seq<char>)
    requires
        is_index_text(parts, Some(t)),
    ensures
        exists|i: int|
            {
                &&& 0 <= i < parts.len()
                &&& (#[trigger] parts[i]).store != PartStore::Omitted
                &&& text_mime(parts[i].mime)
                &&& valid_utf8(parts[i].blob) ==> encode_utf8(t) == parts[i].blob
                &&& !valid_utf8(parts[i].blob) ==> t == utf8_lossy(parts[i].blob)
            },
{
    let i = choose|i: int| #[trigger] stands_for(parts, i) && t == part_text(parts[i]);
    if valid_utf8(parts[i].blob) {
        decode_utf8_encode_utf8(parts[i].blob);
    }
}

/// Whether a form is named plain text, with or without more said of it.
pub open spec fn named_plain(mime: Seq<char>, rest: Seq<char>) -> bool {
    mime == "text/plain"@ || mime == "text/plain"@ + seq![';'] + rest
}

proof fn lemma_short_name(name: Seq<char>, rest: Seq<char>)
    requires
        free_of(name, ';'),
        name.len() > 0,
        !is_white(name[0]),
        !is_white(name.last()),
        forall|i: int| 0 <= i < name.len() ==> !('A' <= #[trigger] name[i] <= 'Z'),
    ensures
        plain_text(name) == (name == "text/plain"@),
        plain_text(name + seq![';'] + rest) == (name == "text/plain"@),
{
    let long = name + seq![';'] + rest;
    first_place_is_found(name, ';', rest);
    assert(name.take(name.len() as int) == name);
    assert(long.take(name.len() as int) == name);
    let none = Seq::<char>::empty();
    trimming_takes_the_ends(none, name, none);
    assert(none + name + none == name);
    assert(lowered(name) == name);
}

/// Text named plainly is preferred to marked-up text and to what is no text, whatever
/// is said behind its name: the entry is found by all of it, byte for byte.
pub proof fn plain_text_is_preferred(
    parts: Seq<PartView>,
    text: Option<Seq<char>>,
    j: int,
    rest: Seq<char>,
)
    requires
        is_index_text(parts, text),
        0 <= j < parts.len(),
        parts[j].store != PartStore::Omitted,
        valid_utf8(parts[j].blob),
        named_plain(parts[j].mime, rest),
        forall|i: int|
            0 <= i < parts.len() && i != j ==> (#[trigger] parts[i]).mime == "text/html"@
                || has_prefix(parts[i].mime, "image/"@) || parts[i].store == PartStore::Omitted
                || !valid_utf8(parts[i].blob),
    ensures
        text is Some,
        encode_utf8(text->0) == parts[j].blob,
{
    reveal_strlit("text/plain");
    reveal_strlit("text/html");
    reveal_strlit("text/");
    reveal_strlit("image/");
    reveal_strlit("UTF8_STRING");
    reveal_strlit("STRING");
    reveal_strlit("TEXT");
    lemma_short_name("text/plain"@, rest);
    lemma_short_name("text/html"@, rest);
    assert("text/html"@.len() != "text/plain"@.len());
    assert(parts[j].mime.take(5) == "text/"@);
    assert(tier(parts[j]) == 3);
    assert forall|i: int| 0 <= i < parts.len() && i != j implies tier(#[trigger] parts[i]) < 3 by {
        let m = parts[i].mime;
        if has_prefix(m, "image/"@) {
            assert(m[0] == "image/"@[0]) by {
                assert(m.take(6)[0] == m[0]);
            }
            if has_prefix(m, "text/"@) {
                assert(m.take(5)[0] == m[0]);
            }
            assert(!text_mime(m));
        }
    }
    let t = text->0;
    let i = choose|i: int| #[trigger] stands_for(parts, i) && t == part_text(parts[i]);
    assert(i == j);
    decode_utf8_encode_utf8(parts[j].blob);
}

/// Text that can be read is preferred to text that cannot; a form is text where its
/// name begins like one.
pub proof fn readable_text_is_preferred(
    parts: Seq<PartView>,
    text: Option<Seq<char>>,
    j: int,
    sort: Seq<char>,
)
    requires
        is_index_text(parts, text),
        0 <= j < parts.len(),
        parts[j].store != PartStore::Omitted,
        valid_utf8(parts[j].blob),
        parts[j].mime == "text/"@ + sort,
        forall|i: int|
            0 <= i < parts.len() && i != j ==> (#[trigger] parts[i]).store == PartStore::Omitted
                || !valid_utf8(parts[i].blob),
    ensures
        text is Some,
        encode_utf8(text->0) == parts[j].blob,
{
    assert(("text/"@ + sort).take("text/"@.len() as int) == "text/"@);
    assert(tier(parts[j]) >= 2);
    let t = text->0;
    let i = choose|i: int| #[trigger] stands_for(parts, i) && t == part_text(parts[i]);
    assert(i == j);
    decode_utf8_encode_utf8(parts[j].blob);
}

/// Of the forms that an entry was captured in, those with a text type and the old names
/// of text are text, and an image never is.
pub proof fn text_forms_are_told_by_name(sort: Seq<char>)
    ensures
        text_mime("text/"@ + sort),
        text_mime("UTF8_STRING"@),
        text_mime("STRING"@),
        text_mime("TEXT"@),
        !text_mime("image/"@ + sort),
        !text_mime("application/"@ + sort),
{
    reveal_strlit("text/");
    reveal_strlit("image/");
    reveal_strlit("application/");
    reveal_strlit("UTF8_STRING");
    reveal_strlit("STRING");
    reveal_strlit("TEXT");
    assert(("text/"@ + sort).take(5) == "text/"@);
    let m = "image/"@ + sort;
    let n = "application/"@ + sort;
    assert(m[0] == 'i' && n[0] == 'a');
    assert(m.len() >= 5 ==> m.take(5)[0] == 'i');
    assert(n.len() >= 5 ==> n.take(5)[0] == 'a');
    assert("text/"@[0] == 't');
    assert("UTF8_STRING"@[0] == 'U');
    assert("STRING"@[0] == 'S');
    assert("TEXT"@[0] == 'T');
}

/// What goes to the database is what was captured: the time, the selection by its name,
/// each part with its form and its bytes, and whether the bytes are all there.
pub proof fn captures_are_stored_whole(n: NewEntry, e: CapturedEntry, i: int)
    requires
        is_stored_form(n, e),
        0 <= i < e.parts@.len(),
    ensures
        n.ts_unix_ns == e.ts_unix_ns,
        n.hash@ == blake3_digest(canonical(part_views(e.parts@))),
        n.size_bytes == kept_size(part_views(e.parts@)),
        e.selection == Selection::Regular ==> n.selection@ == "regular"@,
        e.selection == Selection::Primary ==> n.selection@ == "primary"@,
        n.parts@.len() == e.parts@.len(),
        n.parts@[i].mime@ == e.parts@[i].mime@,
        e.parts@[i].store == PartStore::Full ==> n.parts@[i]@.blob == Some(e.parts@[i].blob@)
            && n.parts@[i].truncated == 0,
        e.parts@[i].store == PartStore::Truncated ==> n.parts@[i]@.blob == Some(e.parts@[i].blob@)
            && n.parts@[i].truncated == 1,
        e.parts@[i].store == PartStore::Omitted ==> n.parts@[i]@.blob is None
            && n.parts@[i].truncated == 2,
{
    let parts = part_views(e.parts@);
    let rows = part_row_views(n.parts@);
    assert(rows.len() == parts.len());
    assert(rows[i] == n.parts@[i]@);
    assert(parts[i] == e.parts@[i]@);
}

/// Stored sizes add up.
pub proof fn sizes_add_up(a: Seq<PartView>, p: PartView)
    ensures
        kept_size(seq![p]) == p.blob.len(),
        kept_size(a.push(p)) == kept_size(a) + kept_size(seq![p]),
        kept_size(Seq::<PartView>::empty()) == 0,
{
    assert(a.push(p).drop_last() == a);
    let one = seq![p];
    assert(one.drop_last() == Seq::<PartView>::empty());
    assert(kept_size(one.drop_last()) == 0);
    assert(one.last() == p);
}

// ---- what is kept of a capture ------------------------------------------------------------

/// A part that keeps to the limit is kept as it was read. Text over the limit is kept up
/// to it: to cut it later would split a character. Anything else over the limit is
/// left out.
pub proof fn as_much_is_kept_as_fits(mime: Seq<char>, bytes: Seq<u8>, cap: int)
    requires
        cap >= 0,
    ensures
        kept(mime, bytes, cap).mime == mime,
        bytes.len() <= cap ==> kept(mime, bytes, cap).blob == bytes && kept(mime, bytes, cap).store
            == PartStore::Full,
        bytes.len() > cap && text_mime(mime) ==> {
            let k = kept(mime, bytes, cap);
            &&& k.store == PartStore::Truncated
            &&& k.blob.len() <= cap
            &&& k.blob == bytes.take(k.blob.len() as int)
            &&& k.blob.len() == 0 || !is_continuation_byte(bytes[k.blob.len() as int])
            &&& forall|i: int|
                k.blob.len() < i <= cap ==> is_continuation_byte(#[trigger] bytes[i])
        },
        bytes.len() > cap && !text_mime(mime) ==> kept(mime, bytes, cap).blob.len() == 0 && kept(
            mime,
            bytes,
            cap,
        ).store == PartStore::Omitted,
{
    if bytes.len() > cap {
        lemma_snapped(bytes, cap);
    }
}

proof fn lemma_snapped(bytes: Seq<u8>, max: int)
    requires
        0 <= max < bytes.len(),
    ensures
        0 <= snapped(bytes, max) <= max,
        snapped(bytes, max) == 0 || !is_continuation_byte(bytes[snapped(bytes, max)]),
        forall|i: int|
            snapped(bytes, max) < i <= max ==> is_continuation_byte(#[trigger] bytes[i]),
    decreases max,
{
    if max > 0 && is_continuation_byte(bytes[max]) {
        lemma_snapped(bytes, max - 1);
    }
}

/// Each part that could be read is kept, in the order in which they were read; the
/// others leave nothing behind.
pub proof fn parts_are_kept_in_order(read: Seq<ReadPartView>, p: ReadPartView, cap: int)
    ensures
        kept_parts(Seq::<ReadPartView>::empty(), cap).len() == 0,
        p.bytes is None ==> kept_parts(read.push(p), cap) == kept_parts(read, cap),
        p.bytes is Some ==> kept_parts(read.push(p), cap) == kept_parts(read, cap).push(
            kept(p.mime, p.bytes->0, cap),
        ),
        p.bytes is Some && (p.bytes->0).len() <= cap ==> kept_parts(read.push(p), cap) == kept_parts(
            read,
            cap,
        ).push((PartView { mime: p.mime, blob: p.bytes->0, store: PartStore::Full })),
{
    assert(read.push(p).drop_last() == read);
}

// ---- what is told of an entry ---------------------------------------------------------------

/// The forms that are told of an entry are its own, each of them and no other, in
/// their order.
pub proof fn forms_are_told_in_order(forms: Seq<FormView>, f: FormView, id: i64)
    ensures
        mimes_of(Seq::<FormView>::empty(), id).len() == 0,
        f.entry_id == id ==> mimes_of(forms.push(f), id) == mimes_of(forms, id).push(f.mime),
        f.entry_id != id ==> mimes_of(forms.push(f), id) == mimes_of(forms, id),
        is_oversized(forms.push(f), id) == (is_oversized(forms, id) || (f.entry_id == id
            && f.truncated != 0)),
{
    let g = forms.push(f);
    assert(g.drop_last() == forms);
    if is_oversized(forms, id) {
        let i = choose|i: int|
            0 <= i < forms.len() && (#[trigger] forms[i]).entry_id == id && forms[i].truncated != 0;
        assert(g[i] == forms[i]);
    }
    assert(g[forms.len() as int] == f);
    if is_oversized(g, id) {
        let i = choose|i: int|
            0 <= i < g.len() && (#[trigger] g[i]).entry_id == id && g[i].truncated != 0;
        if i < forms.len() {
            assert(g[i] == forms[i]);
        }
    }
}

/// What is told of an entry that is listed once is what its row holds, with all its
/// forms.
pub proof fn entries_are_told_as_stored(rows: Seq<RowView>, forms: Seq<FormView>, i: int)
    requires
        0 <= i < rows.len(),
        forall|j: int| 0 <= j < i ==> (#[trigger] rows[j]).id != rows[i].id,
    ensures
        described(rows, forms, i).id == rows[i].id,
        described(rows, forms, i).ts_unix_ns == rows[i].ts_unix_ns,
        described(rows, forms, i).selection == rows[i].selection,
        described(rows, forms, i).size_bytes == rows[i].size_bytes,
        described(rows, forms, i).snippet == rows[i].snippet,
        described(rows, forms, i).mimes == mimes_of(forms, rows[i].id),
        described(rows, forms, i).oversized <==> exists|k: int|
            0 <= k < forms.len() && (#[trigger] forms[k]).entry_id == rows[i].id
                && forms[k].truncated != 0,
{
}

/// A list is as long as was asked for, up to ten thousand entries, and fifty where
/// nothing was said.
pub proof fn lists_are_as_long_as_asked(n: usize)
    ensures
        n <= 10_000 ==> capped_limit(n as int) == n,
        n > 10_000 ==> capped_limit(n as int) == 10_000,
        limit_or_default(Some(n)) == n,
        limit_or_default(None) == 50,
{
}

/// The form that is read where none is asked for is the first that is text, and where
/// none is, the first.
pub proof fn text_is_read_first(mimes: Seq<Seq<char>>, n: int)
    requires
        0 <= n < mimes.len(),
        has_prefix(mimes[n], "text/"@),
        forall|i: int| 0 <= i < n ==> !has_prefix(#[trigger] mimes[i], "text/"@),
    ensures
        picked_mime(mimes, 0) == Some(mimes[n]),
{
    lemma_picked(mimes, n, 0);
}

proof fn lemma_picked(mimes: Seq<Seq<char>>, n: int, from: int)
    requires
        0 <= from <= n < mimes.len(),
        has_prefix(mimes[n], "text/"@),
        forall|i: int| 0 <= i < n ==> !has_prefix(#[trigger] mimes[i], "text/"@),
    ensures
        picked_mime(mimes, from) == Some(mimes[n]),
    decreases n - from,
{
    if from < n {
        lemma_picked(mimes, n, from + 1);
    }
}

/// Where no form is text, the first is read, and nothing where there is none.
pub proof fn the_first_form_is_read(mimes: Seq<Seq<char>>)
    requires
        forall|i: int| 0 <= i < mimes.len() ==> !has_prefix(#[trigger] mimes[i], "text/"@),
    ensures
        mimes.len() > 0 ==> picked_mime(mimes, 0) == Some(mimes[0]),
        mimes.len() == 0 ==> picked_mime(mimes, 0) is None,
{
    lemma_none_picked(mimes, 0);
}

proof fn lemma_none_picked(mimes: Seq<Seq<char>>, from: int)
    requires
        0 <= from <= mimes.len(),
        forall|i: int| 0 <= i < mimes.len() ==> !has_prefix(#[trigger] mimes[i], "text/"@),
    ensures
        mimes.len() > 0 ==> picked_mime(mimes, from) == Some(mimes[0]),
        mimes.len() == 0 ==> picked_mime(mimes, from) is None,
    decreases mimes.len() - from,
{
    if from < mimes.len() {
        lemma_none_picked(mimes, from + 1);
    }
}

/// An entry is too old exactly where it is older than so many days of twenty-four hours.
pub proof fn age_is_counted_in_days(now: i64, days: u32, stamp: i64)
    ensures
        stamp >= cutoff_at(now, days) <==> now - stamp <= days * (24 * 60 * 60) * 1_000_000_000,
{
    let n = days as int;
    assert(n * (24 * 60 * 60) * 1_000_000_000 == n * 86_400_000_000_000) by (nonlinear_arith);
}

// ---- what a request does ----------------------------------------------------------------------

/// A request is carried out on the entry that it names, in the form that it names, and
/// nothing but a request to forget an entry makes one be forgotten.
pub proof fn requests_name_the_entry(r: RequestView)
    ensures
        r matches RequestView::Get { id } ==> job_of(r) == (JobView::Get { id }),
        r matches RequestView::Delete { id } ==> job_of(r) == (JobView::Delete { id }),
        r matches RequestView::ReadBlob { id, mime } ==> job_of(r) == (JobView::ReadBlob {
            id,
            mime,
        }),
        job_of(r) matches JobView::Delete { id } ==> r == (RequestView::Delete { id }),
        job_of(r) matches JobView::Serve { id, to, mime } ==> r matches RequestView::Copy {
            id: of,
            selection,
            mime: form,
        } && of == id && form == mime,
        r is Copy ==> job_of(r) is Serve,
        job_of(r) is Nothing <==> r is Ping,
        job_of(r) is Search ==> r is Search,
        r is List ==> job_of(r) is List,
{
}

/// An entry is copied to the primary selection exactly where that is asked for by its
/// name.
pub proof fn copies_go_where_asked(id: i64, selection: Option<Seq<char>>, mime: Option<Seq<char>>)
    ensures
        job_of(RequestView::Copy { id, selection, mime }) == (JobView::Serve {
            id,
            to: target_selection(selection),
            mime,
        }),
        target_selection(selection) == Selection::Primary <==> selection == Some("primary"@),
{
}

/// A search is for what was typed without the white space round it, in the order, in
/// the selection and up to the number that was asked for.
pub proof fn searches_keep_what_was_asked(
    a: Seq<char>,
    q: Seq<char>,
    b: Seq<char>,
    sort: SearchSort,
    limit: usize,
    selection: Option<Seq<char>>,
)
    requires
        crate::laws::blank(a),
        crate::laws::blank(b),
        crate::laws::tight(q),
        q.len() > 0,
    ensures
        job_of(
            RequestView::Search { query: a + q + b, sort, limit: Some(limit), selection },
        ) == (JobView::Search { query: q, sort, limit, selection }),
        job_of(RequestView::List { limit: Some(limit), selection }) == (JobView::List {
            limit,
            selection,
        }),
{
    trimming_takes_the_ends(a, q, b);
}

/// What is served of an entry is each of its parts in the form asked for, or each of
/// its parts where none was, with their bytes.
pub proof fn forms_asked_for_are_served(
    parts: Seq<(Seq<char>, Seq<u8>)>,
    p: (Seq<char>, Seq<u8>),
    mime: Option<Seq<char>>,
)
    ensures
        served(Seq::<(Seq<char>, Seq<u8>)>::empty(), mime).len() == 0,
        mime is None ==> served(parts.push(p), mime) == served(parts, mime).push(p),
        mime == Some(p.0) ==> served(parts.push(p), mime) == served(parts, mime).push(p),
        mime is Some && mime != Some(p.0) ==> served(parts.push(p), mime) == served(parts, mime),
{
    assert(parts.push(p).drop_last() == parts);
}

// ---- what a find shows ------------------------------------------------------------------------

proof fn lemma_plain_hits(s: Seq<char>, hit: Seq<bool>, n: int)
    requires
        0 <= n <= s.len(),
        hit.len() == s.len(),
        forall|i: int| 0 <= i < s.len() ==> !is_control(#[trigger] s[i]),
    ensures
        hit_chars(s, hit, n) == Seq::new(n as nat, |i: int| (s[i], hit[i])),
    decreases n,
{
    if n > 0 {
        lemma_plain_hits(s, hit, n - 1);
        assert(!is_control(s[n - 1]));
        assert(hit_chars(s, hit, n) =~= Seq::new(n as nat, |i: int| (s[i], hit[i])));
    } else {
        assert(hit_chars(s, hit, n) =~= Seq::new(n as nat, |i: int| (s[i], hit[i])));
    }
}

/// The excerpt that a find shows is the text that was searched, with each character that
/// the matcher matched set off and no other.
pub proof fn finds_show_what_matched(
    rows: Seq<RowView>,
    pool: Seq<CandidateView>,
    q: Seq<char>,
    sort: SearchSort,
    limit: int,
    i: int,
)
    requires
        is_search_result(rows, pool, q, sort, limit),
        limit >= 0,
        0 <= i < rows.len(),
    ensures
        exists|k: int|
            {
                let hay = searched((#[trigger] pool[k]).text->0);
                let m = match_of(q, hay)->0;
                &&& 0 <= k < pool.len()
                &&& rows[i].id == pool[k].id
                &&& unmarked(hay) && (forall|n: int|
                    0 <= n < hay.len() ==> !is_control(#[trigger] hay[n])) ==> painted(
                    runs_of(shown(rows[i].snippet->0)),
                ) == Seq::new(
                    hay.len(),
                    |n: int| (hay[n], exists|j: int| 0 <= j < m.1.len() && #[trigger] m.1[j] == n),
                )
            },
{
    lemma_row(rows, pool, q, sort, limit, i);
    let order = order_behind(rows, pool, q, sort, limit);
    let k = order[i] as int;
    let hay = searched(pool[k].text->0);
    lemma_searched(pool[k].text->0);
    let m = match_of(q, hay)->0;
    let hit = picked(m.1, hay.len());
    assert(rows[i].snippet == Some(marked(hay, hit)));
    if unmarked(hay) && (forall|n: int| 0 <= n < hay.len() ==> !is_control(#[trigger] hay[n])) {
        markers_carry_hits(hay, hit);
        lemma_plain_hits(hay, hit, hay.len() as int);
        assert(Seq::new(hay.len(), |n: int| (hay[n], hit[n])) =~= Seq::new(
            hay.len(),
            |n: int| (hay[n], exists|j: int| 0 <= j < m.1.len() && #[trigger] m.1[j] == n),
        ));
    }
}

// ---- the picker -----------------------------------------------------------------------------------

/// What a key does with the selected entry: Enter copies it to the selection that the list
/// is about, Tab prints it, and Ctrl-X asks whether it is to be forgotten.
pub proof fn keys_act_on_the_selected_entry(s: StateView, i: usize, key: KeyEvent)
    requires
        s.mode == ModeView::Normal,
        s.selected == Some(i),
        i < s.results.len(),
        key.kind == KeyEventKind::Press,
    ensures
        ({
            let e = s.results[i as int];
            let (t, step) = after_key(s, key);
            &&& key.code == KeyCode::Enter ==> step == StepView::Copy(
                RequestView::Copy { id: e.id, selection: s.selection, mime: None },
            )
            &&& key.code == KeyCode::Tab ==> step == StepView::Accept(Outcome::Print(e.id))
            &&& key.code == KeyCode::Esc ==> step == StepView::Accept(Outcome::Cancel)
            &&& key.code == KeyCode::Char('c') && key.ctrl ==> step == StepView::Accept(
                Outcome::Cancel,
            )
            &&& key.code == KeyCode::Char('x') && key.ctrl ==> step is Continue && t.mode
                == ModeView::ConfirmDelete && t.selected == s.selected
            &&& key.code == KeyCode::Char('r') && key.ctrl ==> step is Refresh && t.sort != s.sort
                && t.line == s.line
            &&& key.code == KeyCode::Char('o') && key.ctrl && e.mimes.len() == 1 ==> step
                == StepView::Copy(
                RequestView::Copy { id: e.id, selection: s.selection, mime: Some(e.mimes[0]) },
            )
        }),
{
}

/// An entry is forgotten by Ctrl-X and a yes, and it is the selected one; with any other
/// answer nothing happens to it.
pub proof fn entries_are_forgotten_on_a_yes(s: StateView, i: usize, ask: KeyEvent, answer: KeyEvent)
    requires
        s.mode == ModeView::Normal,
        s.selected == Some(i),
        i < s.results.len(),
        ask.kind == KeyEventKind::Press,
        ask.code == KeyCode::Char('x'),
        ask.ctrl,
        answer.kind == KeyEventKind::Press,
    ensures
        ({
            let step = after_key(after_key(s, ask).0, answer).1;
            let after = after_key(after_key(s, ask).0, answer).0;
            &&& answer.code == KeyCode::Char('y') || answer.code == KeyCode::Char('Y') ==> step
                == StepView::Delete(RequestView::Delete { id: s.results[i as int].id })
            &&& answer.code != KeyCode::Char('y') && answer.code != KeyCode::Char('Y') ==> step
                is Continue
            &&& after.mode == ModeView::Normal
        }),
{
}

/// In the choice of a form, Enter copies the selected entry in the chosen form, the arrows
/// go to the neighbouring form, and Escape leaves without copying.
pub proof fn choices_copy_the_form(
    s: StateView,
    i: usize,
    mimes: Seq<Seq<char>>,
    sel: usize,
    key: KeyEvent,
)
    requires
        s.mode == (ModeView::MimeChooser { mimes, sel }),
        sel < mimes.len() <= usize::MAX,
        s.selected == Some(i),
        i < s.results.len(),
        key.kind == KeyEventKind::Press,
    ensures
        ({
            let (t, step) = after_key(s, key);
            &&& key.code == KeyCode::Enter ==> t.mode == ModeView::Normal && step == StepView::Copy(
                RequestView::Copy {
                    id: s.results[i as int].id,
                    selection: s.selection,
                    mime: Some(mimes[sel as int]),
                },
            )
            &&& key.code == KeyCode::Esc ==> t.mode == ModeView::Normal && step is Continue
            &&& key.code == KeyCode::Down && sel + 1 < mimes.len() ==> step is Continue && t.mode
                == (ModeView::MimeChooser { mimes, sel: (sel + 1) as usize })
            &&& key.code == KeyCode::Up && sel > 0 ==> step is Continue && t.mode == (
            ModeView::MimeChooser { mimes, sel: (sel - 1) as usize })
            &&& t.results == s.results
        }),
{
}

/// A letter without a modifier is typed into the search, which is then made anew.
pub proof fn plain_letters_are_searched(s: StateView, key: KeyEvent, c: char)
    requires
        s.mode == ModeView::Normal,
        key.kind == KeyEventKind::Press,
        key.code == KeyCode::Char(c),
        !key.ctrl,
    ensures
        after_key(s, key).1 is Refresh,
        after_key(s, key).0.line.text() == s.line.before + seq![c] + s.line.after,
        after_key(s, key).0.sort == s.sort,
{
    assert(s.line.before.push(c) + s.line.after == s.line.before + seq![c] + s.line.after);
    assert((s.line.before.push(c) + s.line.after).len() == s.line.text().len() + 1);
}

/// Keys that are held or come up do nothing, and without an entry nothing is copied, printed
/// or forgotten.
pub proof fn nothing_is_taken_without_an_entry(s: StateView, key: KeyEvent)
    ensures
        key.kind != KeyEventKind::Press ==> after_key(s, key) == (s, StepView::Continue),
        s.selected is None ==> !(after_key(s, key).1 is Copy) && !(after_key(s, key).1 is Delete)
            && !(after_key(s, key).1 matches StepView::Accept(Outcome::Print(id))),
        after_key(s, key).0.results == s.results,
{
}

/// The finds are listed from the top down, the best first, or from the bottom up, the best
/// last; the best is selected either way.
pub proof fn finds_are_laid_out(s: StateView, found: Seq<EntryView>, i: int)
    requires
        0 <= i < found.len() <= usize::MAX,
    ensures
        refreshed(s, found, Layout::Top).results == found,
        refreshed(s, found, Layout::Bottom).results.len() == found.len(),
        refreshed(s, found, Layout::Bottom).results[found.len() - 1 - i] == found[i],
        refreshed(s, found, Layout::Top).selected == Some(0usize),
        refreshed(s, found, Layout::Bottom).selected == Some((found.len() - 1) as usize),
{
}

/// An entry with text is previewed by its text.
pub proof fn previews_show_the_text(e: EntryView, t: Seq<char>)
    ensures
        preview_of(e, Some(t)) == PreviewView::Text(t),
        preview_of(e, None) is Binary,
{
}

/// A row begins with the letter of the selection that the entry was copied to.
pub proof fn rows_tell_the_selection(e: EntryView)
    ensures
        row_head(e)[0] == 'P' <==> e.selection == "primary"@,
        row_head(e)[0] == 'C' <==> e.selection != "primary"@,
{
    reveal_strlit("P");
    reveal_strlit("C");
    assert(row_head(e)[0] == (if e.selection == "primary"@ {
        "P"@
    } else {
        "C"@
    })[0]);
}

// ---- sizes and tables -----------------------------------------------------------------------------

/// Sizes are told in bytes below a kibibyte, and in kibibytes and mebibytes from there on,
/// with one digit behind the point.
pub proof fn sizes_are_told_in_units(k: nat)
    ensures
        k < 1024 ==> size_text(k as int) == decimal(k) + "B"@,
        1 <= k < 1024 ==> size_text(1024 * k as int) == decimal(k) + "."@ + seq!['0'] + "K"@,
        1 <= k < 1024 ==> size_text(1024 * k as int + 512) == decimal(k) + "."@ + seq!['5'] + "K"@,
        1 <= k < 0x1000_0000 ==> size_text(1_048_576 * k as int) == decimal(k) + "."@ + seq!['0']
            + "M"@,
{
    if 1 <= k < 1024 {
        let n = 1024 * k as int;
        assert(tenths(n, 1024) == 10 * k);
        assert((10 * k as int) / 10 == k && (10 * k as int) % 10 == 0);
        assert(tenths(n + 512, 1024) == 10 * k + 5);
        assert((10 * k as int + 5) / 10 == k && (10 * k as int + 5) % 10 == 5);
    }
    if 1 <= k < 0x1000_0000 {
        let n = 1_048_576 * k as int;
        assert(tenths(n, 1_048_576) == 10 * k);
        assert((10 * k as int) / 10 == k && (10 * k as int) % 10 == 0);
    }
}

proof fn lemma_no_openers(s: Seq<char>)
    requires
        unmarked(s),
    ensures
        crate::hugin::cli::occurrences(s, '‹') == 0,
        crate::hugin::cli::occurrences(s, '›') == 0,
    decreases s.len(),
{
    if s.len() > 0 {
        let t = s.drop_last();
        assert forall|i: int| 0 <= i < t.len() implies #[trigger] t[i] != '‹' && t[i] != '›' by {
            assert(t[i] == s[i]);
        }
        lemma_no_openers(t);
        assert(s[s.len() - 1] == s.last());
    }
}

/// The table shows the first sixty characters of plain text as they are, and of an entry
/// without text how many forms it has.
pub proof fn tables_show_the_beginning(s: Seq<char>, e: EntryView)
    requires
        unmarked(s),
        forall|i: int| 0 <= i < s.len() ==> !is_control(#[trigger] s[i]),
    ensures
        s.len() <= 60 ==> table_label(s) == s,
        s.len() > 60 ==> table_label(s) == s.take(60),
        e.snippet == Some(s) && s.len() > 0 ==> table_content(e) == table_label(s),
        e.snippet is None ==> table_content(e) == "("@ + decimal(e.mimes.len()) + " MIMEs)"@,
{
    let p = prefix(s, 60);
    assert forall|i: int| 0 <= i < p.len() implies !is_control(#[trigger] p[i]) by {
        assert(p[i] == s[i]);
    }
    assert forall|i: int| 0 <= i < p.len() implies #[trigger] p[i] != '‹' && p[i] != '›' by {
        assert(p[i] == s[i]);
    }
    plain_text_is_shown_as_is(p);
    lemma_no_openers(p);
    assert(table_label(s) =~= p);
    let none = Seq::<char>::empty();
    plain_text_is_shown_as_is(none);
    lemma_no_openers(none);
    assert(prefix(none, 60) == none);
    assert(table_label(none) =~= none);
}

// ---- time --------------------------------------------------------------------------------------------

/// Whether a year has a day more.
pub open spec fn is_leap(y: int) -> bool {
    y % 4 == 0 && (y % 100 != 0 || y % 400 == 0)
}

/// How many days a month has.
pub open spec fn days_in_month(y: int, m: int) -> int {
    if m == 4 || m == 6 || m == 9 || m == 11 {
        30
    } else if m == 2 {
        if is_leap(y) {
            29
        } else {
            28
        }
    } else {
        31
    }
}

/// Days are counted from the first of 1970, one after the other, through months of their
/// lengths and from one year to the next.
pub proof fn days_are_counted_through_the_calendar(y: int, m: int, d: int)
    requires
        1 <= m <= 12,
    ensures
        days_to(1970, 1, 1) == 0,
        days_to(y, m, d + 1) == days_to(y, m, d) + 1,
        m < 12 ==> days_to(y, m + 1, 1) == days_to(y, m, 1) + days_in_month(y, m),
        days_to(y + 1, 1, 1) == days_to(y, 12, 1) + 31,
{
    if m == 2 {
        lemma_leap(y);
    }
}

proof fn lemma_step(y: int, k: int)
    requires
        k > 1,
    ensures
        y / k - (y - 1) / k == (if y % k == 0 {
            1int
        } else {
            0
        }),
{
    let q = y / k;
    let r = y % k;
    lemma_fundamental_div_mod(y, k);
    assert(k * q == q * k) by (nonlinear_arith);
    if r > 0 {
        lemma_fundamental_div_mod_converse(y - 1, k, q, r - 1);
    } else {
        assert((q - 1) * k == q * k - k) by (nonlinear_arith);
        lemma_fundamental_div_mod_converse(y - 1, k, q - 1, k - 1);
    }
}

proof fn lemma_leap(y: int)
    ensures
        y / 4 - (y - 1) / 4 - (y / 100 - (y - 1) / 100) + (y / 400 - (y - 1) / 400) == (if is_leap(
            y,
        ) {
            1int
        } else {
            0
        }),
{
    lemma_step(y, 4);
    lemma_step(y, 100);
    lemma_step(y, 400);
    if y % 400 == 0 {
        lemma_fundamental_div_mod(y, 400);
        lemma_fundamental_div_mod_converse(y, 100, 4 * (y / 400), 0);
    }
    if y % 100 == 0 {
        lemma_fundamental_div_mod(y, 100);
        lemma_fundamental_div_mod_converse(y, 4, 25 * (y / 100), 0);
    }
}

/// A time of day is read from its digits: a minute later is sixty seconds more.
pub proof fn times_are_read_from_their_digits(s: Seq<char>, a: int, b: int)
    requires
        s.len() == 19,
        0 <= a <= 9,
        0 <= b <= 9,
        s[14] as int == '0' as int + a,
        s[15] as int == '0' as int + b,
    ensures
        number_at(s, 14, 2) == 10 * a + b,
        civil_seconds(s) == days_to(number_at(s, 0, 4), number_at(s, 5, 2), number_at(s, 8, 2)) * (
        24 * 60 * 60) + number_at(s, 11, 2) * (60 * 60) + (10 * a + b) * 60 + number_at(s, 17, 2),
{
    reveal_with_fuel(number_at, 3);
}

/// Of a time stamp the whole seconds count, towards nought; where there is no local time
/// they are shown as they are.
pub proof fn stamps_are_cut_to_seconds(secs: int, rest: int, local: Seq<char>)
    requires
        secs >= 0,
        0 <= rest < 1_000_000_000,
    ensures
        whole_seconds(secs * 1_000_000_000 + rest) == secs,
        whole_seconds(-(secs * 1_000_000_000 + rest)) == -secs,
        time_text(Some(local), secs) == local,
        time_text(None, secs) == "@"@ + signed_decimal(secs),
{
}

// ---- names and messages --------------------------------------------------------------------------------

/// Under which names the history is kept and the daemon is reached.
pub proof fn files_have_their_names()
    ensures
        spells(app_name(), "hugin"@),
        spells(db_name(), "hugin.db"@),
        spells(socket_name(), "hugin.sock"@),
{
    reveal_strlit("hugin");
    reveal_strlit("hugin.db");
    reveal_strlit("hugin.sock");
}

/// A refusal names the entry that it is about.
pub proof fn refusals_name_the_entry(id: i64)
    ensures
        no_entry(id) == "no entry with id "@ + signed_decimal(id as int),
        no_blob(id) == "no blob for id "@ + signed_decimal(id as int),
        nothing_to_serve(id) == "nothing to copy for id "@ + signed_decimal(id as int),
{
}

/// A query has one place for each value, with commas between them.
pub proof fn queries_have_a_place_for_each_value(n: nat)
    ensures
        question_marks(0).len() == 0,
        question_marks(1) == "?"@,
        n >= 1 ==> question_marks(n + 1) == question_marks(n) + ","@ + "?"@,
{
    let marks = Seq::new(n, |i: int| "?"@);
    joining_puts_the_separator_between(marks, "?"@, ","@);
    assert(Seq::new(n + 1, |i: int| "?"@) =~= marks.push("?"@));
    assert(Seq::new(1, |i: int| "?"@) =~= seq!["?"@]);
    assert(Seq::new(0, |i: int| "?"@) =~= Seq::<Seq<char>>::empty());
    assert(joined(seq!["?"@], ","@) == "?"@);
}

/// The limits that hold where nothing else is configured.
pub proof fn limits_are_as_documented()
    ensures
        crate::hugin::capture::DEFAULT_MAX_PART_BYTES == 16 * 1024 * 1024,
        crate::hugin::picker::PREVIEW_CHARS == 10_000,
        default_config().limit == 200,
        default_config().sort == SearchSort::Relevance,
        default_config().layout == Layout::Bottom,
        default_config().preview,
{
}

/// A row of the list shows the excerpt of its entry, or, where it has none, its forms.
pub proof fn rows_show_the_excerpt(e: EntryView, s: Seq<char>)
    requires
        forall|i: int| 0 <= i < s.len() ==> !is_control(#[trigger] s[i]),
    ensures
        e.snippet == Some(s) ==> row_runs(e) == runs_of(s),
        e.snippet is None ==> row_runs(e).len() == 1 && row_runs(e)[0].text == "["@ + joined(
            e.mimes,
            ", "@,
        ) + "]"@ && !row_runs(e)[0].matched,
{
    plain_text_is_shown_as_is(s);
}

/// The preview shows plain text as it is.
pub proof fn previews_show_plain_text(s: StateView, id: i64, t: Seq<char>)
    requires
        s.preview == Some((id, PreviewView::Text(t))),
        forall|i: int| 0 <= i < t.len() ==> !is_control(#[trigger] t[i]),
    ensures
        preview_text(s) == t,
{
    plain_text_is_shown_as_is(t);
}

/// Ctrl-D leaves where nothing is typed, and otherwise deletes a character; other keys
/// without a meaning do nothing.
pub proof fn other_keys_do_nothing(s: StateView, key: KeyEvent)
    requires
        s.mode == ModeView::Normal,
        key.kind == KeyEventKind::Press,
    ensures
        key.code == KeyCode::Char('d') && key.ctrl && s.line.text().len() == 0 ==> after_key(
            s,
            key,
        ).1 == StepView::Accept(Outcome::Cancel),
        key.code == KeyCode::Char('d') && key.ctrl && s.line.after.len() > 0 ==> after_key(
            s,
            key,
        ).0.line.text() == s.line.before + s.line.after.drop_first(),
        key.code == KeyCode::Char('k') && key.ctrl ==> after_key(s, key).0.line.text()
            == s.line.before,
        key.code == KeyCode::Other ==> after_key(s, key) == (s, StepView::Continue),
        s.selected is Some && s.selected->0 >= s.results.len() ==> !(after_key(s, key).1 is Copy),
{
    assert(s.line.before + Seq::<char>::empty() == s.line.before);
}

/// In the table the number, the time, the selection, the size and the excerpt of an entry
/// stand in columns.
pub proof fn table_rows_stand_in_columns(
    id: Seq<char>,
    time: Seq<char>,
    selection: Seq<char>,
    size: Seq<char>,
    content: Seq<char>,
)
    requires
        id.len() <= 6,
        time.len() == 19,
        selection.len() <= 8,
        size.len() <= 9,
    ensures
        ({
            let row = table_row(id, time, selection, size, content);
            &&& row.take(id.len() as int) == id
            &&& row.subrange(7, 26) == time
            &&& row.subrange(27, 27 + selection.len() as int) == selection
            &&& row.subrange(36, 36 + size.len() as int) == size
            &&& row.skip(46) == content
        }),
{
    reveal_strlit(" ");
    let row = table_row(id, time, selection, size, content);
    assert(row.take(id.len() as int) =~= id);
    assert(row.subrange(7, 26) =~= time);
    assert(row.subrange(27, 27 + selection.len() as int) =~= selection);
    assert(row.subrange(36, 36 + size.len() as int) =~= size);
    assert(row.skip(46) =~= content);
}

/// An entry that is listed again is told without its forms, which stand where it is listed
/// first.
pub proof fn repeated_entries_are_told_without_forms(
    rows: Seq<RowView>,
    forms: Seq<FormView>,
    i: int,
    j: int,
)
    requires
        0 <= j < i < rows.len(),
        rows[j].id == rows[i].id,
    ensures
        described(rows, forms, i).mimes.len() == 0,
        !described(rows, forms, i).oversized,
        described(rows, forms, i).id == rows[i].id,
        described(rows, forms, i).snippet == rows[i].snippet,
{
}

/// The head of a row shows the size of the entry to the right.
pub proof fn rows_show_the_size(e: EntryView)
    requires
        size_text(e.size_bytes as int).len() <= 7,
    ensures
        row_head(e).subrange(2, 9) == right_aligned(size_text(e.size_bytes as int), 7),
        row_head(e).len() == 11,
{
    reveal_strlit("P");
    reveal_strlit("C");
    reveal_strlit(" ");
    reveal_strlit("  ");
    assert(row_head(e).subrange(2, 9) =~= right_aligned(size_text(e.size_bytes as int), 7));
}

/// A length is written with its lowest byte first, and read so it is the length again.
pub proof fn lengths_are_written_lowest_byte_first(n: int)
    requires
        0 <= n < 0x1_0000_0000,
    ensures
        ({
            let b = low_bytes(n, 4);
            &&& b.len() == 4
            &&& n == b[0] + 256 * (b[1] + 256 * (b[2] + 256 * b[3]))
        }),
{
    reveal_with_fuel(low_bytes, 5);
    let a = n / 256;
    let c = a / 256;
    let d = c / 256;
    assert(0 <= d < 256);
    let b = low_bytes(n, 4);
    assert(b =~= seq![(n % 256) as u8, (a % 256) as u8, (c % 256) as u8, (d % 256) as u8]);
    assert(d % 256 == d);
}

// ---- repetitions -----------------------------------------------------------------------------------

/// A capture is held against the last entry of its own selection, whatever was captured of
/// the other one since.
pub proof fn captures_are_held_against_their_own_selection(
    history: Seq<(Selection, Seq<PartView>)>,
    sel: Selection,
    other: Selection,
    parts: Seq<PartView>,
)
    requires
        other != sel,
    ensures
        last_digest(history.push((sel, parts)), sel) == Some(blake3_digest(canonical(parts))),
        last_digest(history.push((other, parts)), sel) == last_digest(history, sel),
        last_digest(Seq::<(Selection, Seq<PartView>)>::empty(), sel) is None,
{
    assert(history.push((sel, parts)).drop_last() == history);
    assert(history.push((other, parts)).drop_last() == history);
}

/// What is captured twice in a row is recorded once, unless bytes of it were left out; what
/// differs from the entry before it is recorded behind it.
pub proof fn repeated_captures_are_recorded_once(
    history: Seq<(Selection, Seq<PartView>)>,
    sel: Selection,
    parts: Seq<PartView>,
)
    ensures
        (forall|i: int| 0 <= i < parts.len() ==> (#[trigger] parts[i]).store != PartStore::Omitted)
            ==> recorded(history.push((sel, parts)), sel, parts) == history.push((sel, parts)),
        (exists|i: int| 0 <= i < parts.len() && (#[trigger] parts[i]).store == PartStore::Omitted)
            ==> recorded(history, sel, parts) == history.push((sel, parts)),
        last_digest(history, sel) is None ==> recorded(history, sel, parts) == history.push(
            (sel, parts),
        ),
        last_digest(history, sel) is Some && last_digest(history, sel)->0 != blake3_digest(
            canonical(parts),
        ) ==> recorded(history, sel, parts) == history.push((sel, parts)),
{
    assert(history.push((sel, parts)).drop_last() == history);
}

/// The time of a capture is what the clock says, where it says anything.
pub proof fn captures_bear_the_time(n: u128, otherwise: i64)
    requires
        n <= i64::MAX,
    ensures
        stamp(Some(n), otherwise) == n,
        stamp(None, otherwise) == otherwise,
{
}

} // verus!
