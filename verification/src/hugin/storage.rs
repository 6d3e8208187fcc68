//! What the history keeps of a capture, and what is made of what it holds.
//!
//! The database itself is driven by the program: it carries out the statements
//! below, and hands what they return to the functions here.

use vstd::prelude::*;
use vstd::utf8::{decode_utf8, encode_utf8, valid_utf8};
use crate::base::xdg::{below, data_base, data_file, Environment, NoBase};
use crate::hugin::capture::{
    is_text_mime, kept, kept_parts_keep_to_the_limit, part_views, selection_name, store_number,
    text_mime, CapturedEntry, CapturedPart, PartStore, PartView, Selection,
};
use crate::hugin::digest::{
    blake3_digest, canonical, canonical_hash, captures_are_told_apart, distinct_mimes, fits_frame,
    same_content_has_one_digest, same_parts,
};
use crate::hugin::laws::the_whole_text_is_stored;
use crate::hugin::proto::{entry_views, EntryMeta, EntryView};
use crate::text::{
    chars_of, find_char, first_at, has_prefix, join, joined, lowered, opt_copy, opt_view,
    starts_with, substring, to_lower, trim, trimmed, views,
};
use crate::utf8::{copy_bytes, read_exact, read_lossy, utf8_lossy};

verus! {

/// The version of the schema, stored in the database as its `user_version`.
pub const DB_VERSION: i32 = 1;

/// The schema.
pub const SCHEMA_SQL: &'static str = "
CREATE TABLE IF NOT EXISTS entries (
    id          INTEGER PRIMARY KEY,
    ts_unix_ns  INTEGER NOT NULL,
    selection   TEXT NOT NULL,
    hash        BLOB NOT NULL,
    size_bytes  INTEGER NOT NULL,
    text        TEXT
);
CREATE INDEX IF NOT EXISTS entries_hash_idx ON entries(hash);
CREATE INDEX IF NOT EXISTS entries_ts_idx ON entries(ts_unix_ns);
CREATE INDEX IF NOT EXISTS entries_sel_id_idx ON entries(selection, id);

CREATE TABLE IF NOT EXISTS mime_parts (
    entry_id    INTEGER NOT NULL REFERENCES entries(id) ON DELETE CASCADE,
    mime        TEXT NOT NULL,
    blob        BLOB,
    truncated   INTEGER NOT NULL DEFAULT 0,
    PRIMARY KEY (entry_id, mime)
);
";

/// How many entries one request returns at most.
pub const MAX_LIMIT: usize = 10_000;

/// The latest entries.
pub const LIST_SQL: &'static str = "\
    SELECT id, ts_unix_ns, selection, size_bytes, substr(text, 1, 200) \
    FROM entries \
    WHERE (?1 IS NULL OR selection = ?1) \
    ORDER BY id DESC LIMIT ?2";

/// One entry.
pub const GET_SQL: &'static str = "\
    SELECT id, ts_unix_ns, selection, size_bytes, substr(text, 1, 200) \
    FROM entries WHERE id = ?1";

/// The entries that a search goes through.
pub const SEARCH_POOL_SQL: &'static str = "\
    SELECT id, ts_unix_ns, selection, size_bytes, text \
    FROM entries \
    WHERE (?1 IS NULL OR selection = ?1) \
    ORDER BY id DESC LIMIT ?2";

/// The digest of the latest entry of a selection.
pub const LAST_HASH_SQL: &'static str = "\
    SELECT hash FROM entries WHERE selection = ?1 ORDER BY id DESC LIMIT 1";

/// A new entry.
pub const INSERT_ENTRY_SQL: &'static str = "\
    INSERT INTO entries (ts_unix_ns, selection, hash, size_bytes, text) \
    VALUES (?1, ?2, ?3, ?4, ?5)";

/// A part of a new entry.
pub const INSERT_PART_SQL: &'static str = "\
    INSERT INTO mime_parts (entry_id, mime, blob, truncated) VALUES (?1, ?2, ?3, ?4)";

/// All entries with their time stamps, the newest first.
pub const STAMPS_SQL: &'static str = "SELECT id, ts_unix_ns FROM entries ORDER BY id DESC";

/// Forget an entry; its parts go with it.
pub const DELETE_SQL: &'static str = "DELETE FROM entries WHERE id = ?1";

/// The beginning of the text of an entry.
pub const PREVIEW_SQL: &'static str = "SELECT substr(text, 1, ?2) FROM entries WHERE id = ?1";

/// The forms of an entry whose bytes were kept.
pub const MIMES_SQL: &'static str = "\
    SELECT mime FROM mime_parts WHERE entry_id = ?1 AND blob IS NOT NULL ORDER BY mime";

/// The bytes of an entry in one form.
pub const BLOB_SQL: &'static str = "\
    SELECT blob FROM mime_parts WHERE entry_id = ?1 AND mime = ?2 AND blob IS NOT NULL";

/// Whether there is an entry.
pub const EXISTS_SQL: &'static str = "SELECT COUNT(*) FROM entries WHERE id = ?1";

/// The parts of an entry whose bytes were kept.
pub const PARTS_SQL: &'static str = "\
    SELECT mime, blob FROM mime_parts WHERE entry_id = ?1 AND blob IS NOT NULL ORDER BY mime";

/// `n` question marks with commas between them.
pub open spec fn question_marks(n: nat) -> Seq<char> {
    joined(Seq::new(n, |i: int| "?"@), ","@)
}

/// The statement that asks for the forms of `n` entries, in the order of the
/// entries and their forms.
pub fn forms_sql(n: usize) -> (s: String)
    ensures
        s@ == "SELECT entry_id, mime, truncated FROM mime_parts WHERE entry_id IN ("@
            + question_marks(n as nat) + ") ORDER BY entry_id, mime"@,
{
    let mut marks: Vec<String> = Vec::new();
    let mut i: usize = 0;
    while i < n
        invariant
            i <= n,
            views(marks@) == Seq::new(i as nat, |i: int| "?"@),
        decreases n - i,
    {
        let ghost done = marks@;
        let mark = "?".to_owned();
        let ghost mv = mark@;
        marks.push(mark);
        assert(views(marks@) =~= views(done).push(mv));
        i += 1;
        assert(views(marks@) =~= Seq::new(i as nat, |i: int| "?"@));
    }
    let mut s =
        "SELECT entry_id, mime, truncated FROM mime_parts WHERE entry_id IN (".to_owned();
    let list = join(&marks, ",");
    s.append(list.as_str());
    s.append(") ORDER BY entry_id, mime");
    s
}

/// `hugin`.
pub open spec fn app_name() -> Seq<u8> {
    seq![0x68, 0x75, 0x67, 0x69, 0x6e]
}

/// `hugin.db`.
pub open spec fn db_name() -> Seq<u8> {
    seq![0x68, 0x75, 0x67, 0x69, 0x6e, 0x2e, 0x64, 0x62]
}

/// The database where nothing else is asked for: `hugin/hugin.db` below the base
/// directory for data.
pub fn default_db_path(env: &Environment) -> (r: Result<Vec<u8>, NoBase>)
    ensures
        match r {
            Ok(p) => data_base(*env) is Some && p@ == below(
                below(data_base(*env)->0, app_name()),
                db_name(),
            ),
            Err(e) => data_base(*env) is None && e == NoBase::Data,
        },
{
    let app: Vec<u8> = vec![0x68, 0x75, 0x67, 0x69, 0x6e];
    let file: Vec<u8> = vec![0x68, 0x75, 0x67, 0x69, 0x6e, 0x2e, 0x64, 0x62];
    assert(app@ == app_name());
    assert(file@ == db_name());
    data_file(env, &app, &file)
}

// ---- how long entries stay --------------------------------------------------------------

/// How many entries stay, and for how many days.
#[derive(Clone, Copy, Debug, PartialEq, Eq, Structural)]
pub struct RetentionConfig {
    pub max_entries: usize,
    pub max_age_days: u32,
}

impl Default for RetentionConfig {
    fn default() -> (c: RetentionConfig)
        ensures
            c == (RetentionConfig { max_entries: 10_000, max_age_days: 90 }),
    {
        RetentionConfig { max_entries: 10_000, max_age_days: 90 }
    }
}

/// The nanoseconds of `days` days.
pub open spec fn days_in_ns(days: int) -> int {
    days * 86_400_000_000_000
}

/// Whether old entries are to be forgotten, as many seconds after the last time:
/// once an hour.
pub fn sweep_due(since_last: u64) -> (r: bool)
    ensures
        r == (since_last >= 3600),
{
    since_last >= 3600
}

/// The time stamp before which entries are too old at `now`; the first of all
/// where their age reaches back beyond it.
pub open spec fn cutoff_at(now: i64, max_age_days: u32) -> int {
    if now - days_in_ns(max_age_days as int) < i64::MIN {
        i64::MIN as int
    } else {
        now - days_in_ns(max_age_days as int)
    }
}

/// The time stamp before which entries are too old at `now`; the first of all
/// where their age reaches back beyond it.
pub fn cutoff(now: i64, max_age_days: u32) -> (ts: i64)
    ensures
        ts == cutoff_at(now, max_age_days),
{
    let ts: i128 = now as i128 - (max_age_days as i128) * 86_400_000_000_000;
    if ts < i64::MIN as i128 {
        i64::MIN
    } else {
        ts as i64
    }
}

/// An entry comes before the cutoff exactly where it is older than entries may be.
pub proof fn only_old_entries_go(ts: i64, now: i64, max_age_days: u32)
    ensures
        ts < cutoff_at(now, max_age_days) <==> now - ts > days_in_ns(max_age_days as int),
{
}

/// The first `n` of `entries`, each with its number and time stamp, that are not from
/// before `oldest`.
pub open spec fn fresh(entries: Seq<(i64, i64)>, oldest: int, n: int) -> Seq<(i64, i64)>
    decreases n,
{
    if n <= 0 {
        seq![]
    } else if entries[n - 1].1 >= oldest {
        fresh(entries, oldest, n - 1).push(entries[n - 1])
    } else {
        fresh(entries, oldest, n - 1)
    }
}

/// What a sweep at `now` leaves of `entries`: the first of those that are not too old,
/// no more than may stay.
pub open spec fn retained(
    entries: Seq<(i64, i64)>,
    now: i64,
    cfg: RetentionConfig,
) -> Seq<(i64, i64)> {
    let young = fresh(entries, cutoff_at(now, cfg.max_age_days), entries.len() as int);
    if young.len() <= cfg.max_entries {
        young
    } else {
        young.take(cfg.max_entries as int)
    }
}

/// The numbers of the first `n` of `entries` that a sweep at `now` forgets.
pub open spec fn swept(
    entries: Seq<(i64, i64)>,
    now: i64,
    cfg: RetentionConfig,
    n: int,
) -> Seq<i64>
    decreases n,
{
    if n <= 0 {
        seq![]
    } else {
        let oldest = cutoff_at(now, cfg.max_age_days);
        let before = swept(entries, now, cfg, n - 1);
        if entries[n - 1].1 >= oldest && fresh(entries, oldest, n - 1).len() < cfg.max_entries {
            before
        } else {
            before.push(entries[n - 1].0)
        }
    }
}

/// The numbers of the entries that a sweep at `now` forgets. `entries` are all of them
/// with their time stamps, the newest first.
pub fn sweep(entries: &Vec<(i64, i64)>, now: i64, cfg: &RetentionConfig) -> (ids: Vec<i64>)
    ensures
        ids@ == swept(entries@, now, *cfg, entries@.len() as int),
{
    let oldest = cutoff(now, cfg.max_age_days);
    let mut young: usize = 0;
    let mut ids: Vec<i64> = Vec::new();
    let mut i: usize = 0;
    while i < entries.len()
        invariant
            i <= entries@.len(),
            oldest == cutoff_at(now, cfg.max_age_days),
            young <= i,
            young == fresh(entries@, oldest as int, i as int).len(),
            ids@ == swept(entries@, now, *cfg, i as int),
        decreases entries@.len() - i,
    {
        if entries[i].1 >= oldest {
            if young >= cfg.max_entries {
                ids.push(entries[i].0);
            }
            young += 1;
        } else {
            ids.push(entries[i].0);
        }
        i += 1;
    }
    ids
}

/// Whether the numbers of `entries` fall: the newest stands first.
pub open spec fn newest_first(entries: Seq<(i64, i64)>) -> bool {
    forall|i: int, j: int|
        0 <= i < j < entries.len() ==> (#[trigger] entries[i]).0 > (#[trigger] entries[j]).0
}

/// Those of the first `n` entries that are not too old, and where they stand.
proof fn lemma_fresh(entries: Seq<(i64, i64)>, oldest: int, n: int)
    requires
        0 <= n <= entries.len(),
        newest_first(entries),
    ensures
        fresh(entries, oldest, n).len() <= n,
        newest_first(fresh(entries, oldest, n)),
        forall|k: int|
            0 <= k < fresh(entries, oldest, n).len() ==> {
                let e = #[trigger] fresh(entries, oldest, n)[k];
                e.1 >= oldest && entries.take(n).contains(e)
            },
        forall|i: int|
            0 <= i < n && (#[trigger] entries[i]).1 >= oldest ==> fresh(
                entries,
                oldest,
                n,
            ).contains(entries[i]),
    decreases n,
{
    if n > 0 {
        lemma_fresh(entries, oldest, n - 1);
        let first = entries.take(n - 1);
        let before = fresh(entries, oldest, n - 1);
        let all = fresh(entries, oldest, n);
        assert forall|k: int| 0 <= k < all.len() implies {
            let e = #[trigger] all[k];
            e.1 >= oldest && entries.take(n).contains(e)
        } by {
            if k < before.len() {
                assert(all[k] == before[k]);
                let i = choose|i: int| 0 <= i < first.len() && first[i] == before[k];
                assert(entries.take(n)[i] == all[k]);
            } else {
                assert(entries.take(n)[n - 1] == all[k]);
            }
        }
        assert(newest_first(all)) by {
            assert forall|i: int, j: int| 0 <= i < j < all.len() implies (#[trigger] all[i]).0 > (
            #[trigger] all[j]).0 by {
                assert(all[i] == before[i]);
                if j < before.len() {
                    assert(all[j] == before[j]);
                } else {
                    let k = choose|k: int| 0 <= k < first.len() && first[k] == before[i];
                    assert(entries[k] == before[i]);
                    assert(entries[k].0 > entries[n - 1].0);
                }
            }
        }
        assert forall|i: int|
            0 <= i < n && (#[trigger] entries[i]).1 >= oldest implies all.contains(entries[i]) by {
            if i < n - 1 {
                let k = choose|k: int| 0 <= k < before.len() && before[k] == entries[i];
                assert(all[k] == entries[i]);
            } else {
                assert(all[all.len() - 1] == entries[i]);
            }
        }
    }
}

/// What is forgotten of the first `n` entries: those that are too old, and those that
/// come behind as many as may stay.
proof fn lemma_swept(entries: Seq<(i64, i64)>, now: i64, cfg: RetentionConfig, n: int)
    requires
        0 <= n <= entries.len(),
        newest_first(entries),
    ensures
        ({
            let oldest = cutoff_at(now, cfg.max_age_days);
            let young = fresh(entries, oldest, n);
            let stay = if young.len() <= cfg.max_entries {
                young
            } else {
                young.take(cfg.max_entries as int)
            };
            &&& swept(entries, now, cfg, n).len() + stay.len() == n
            &&& forall|i: int|
                0 <= i < n ==> (swept(entries, now, cfg, n).contains((#[trigger] entries[i]).0)
                    <==> !stay.contains(entries[i]))
            &&& forall|k: int|
                0 <= k < swept(entries, now, cfg, n).len() ==> exists|i: int|
                    0 <= i < n && (#[trigger] entries[i]).0 == #[trigger] swept(
                        entries,
                        now,
                        cfg,
                        n,
                    )[k]
        }),
    decreases n,
{
    if n > 0 {
        lemma_swept(entries, now, cfg, n - 1);
        let max = cfg.max_entries as int;
        let oldest = cutoff_at(now, cfg.max_age_days);
        lemma_fresh(entries, oldest, n - 1);
        lemma_fresh(entries, oldest, n);
        let e = entries[n - 1];
        let young0 = fresh(entries, oldest, n - 1);
        let young = fresh(entries, oldest, n);
        let stay0 = if young0.len() <= max {
            young0
        } else {
            young0.take(max)
        };
        let stay = if young.len() <= max {
            young
        } else {
            young.take(max)
        };
        let gone0 = swept(entries, now, cfg, n - 1);
        let gone = swept(entries, now, cfg, n);
        let stays = e.1 >= oldest && young0.len() < max;
        assert(stays ==> stay == stay0.push(e) && gone == gone0);
        assert(!stays ==> stay =~= stay0 && gone == gone0.push(e.0));
        assert(!stay0.contains(e)) by {
            if stay0.contains(e) {
                let k = choose|k: int| 0 <= k < stay0.len() && stay0[k] == e;
                assert(young0[k] == e);
                let first = entries.take(n - 1);
                let i = choose|i: int| 0 <= i < first.len() && first[i] == e;
                assert(entries[i].0 > entries[n - 1].0);
            }
        }
        assert(!gone0.contains(e.0)) by {
            if gone0.contains(e.0) {
                let k = choose|k: int| 0 <= k < gone0.len() && gone0[k] == e.0;
                let i = choose|i: int| 0 <= i < n - 1 && (#[trigger] entries[i]).0 == gone0[k];
                assert(entries[i].0 > entries[n - 1].0);
            }
        }
        assert forall|i: int| 0 <= i < n implies (gone.contains((#[trigger] entries[i]).0)
            <==> !stay.contains(entries[i])) by {
            if i < n - 1 {
                assert(entries[i].0 > entries[n - 1].0);
                assert(gone.contains(entries[i].0) <==> gone0.contains(entries[i].0)) by {
                    if gone0.contains(entries[i].0) {
                        let k = choose|k: int| 0 <= k < gone0.len() && gone0[k] == entries[i].0;
                        assert(gone[k] == entries[i].0);
                    }
                }
                assert(stay.contains(entries[i]) <==> stay0.contains(entries[i])) by {
                    if stay0.contains(entries[i]) {
                        let k = choose|k: int| 0 <= k < stay0.len() && stay0[k] == entries[i];
                        assert(stay[k] == entries[i]);
                    }
                }
            } else if stays {
                assert(stay[stay.len() - 1] == e);
            } else {
                assert(gone[gone.len() - 1] == e.0);
            }
        }
        assert forall|k: int| 0 <= k < gone.len() implies exists|i: int|
            0 <= i < n && (#[trigger] entries[i]).0 == #[trigger] gone[k] by {
            if k < gone0.len() {
                let i = choose|i: int| 0 <= i < n - 1 && (#[trigger] entries[i]).0 == gone0[k];
                assert(entries[i].0 == gone[k]);
            } else {
                assert(entries[n - 1].0 == gone[k]);
            }
        }
    }
}

/// Where nothing is too old or too much, all of it is fresh, and nothing is forgotten.
proof fn lemma_nothing_to_sweep(
    entries: Seq<(i64, i64)>,
    now: i64,
    cfg: RetentionConfig,
    n: int,
)
    requires
        0 <= n <= entries.len() <= cfg.max_entries,
        forall|i: int|
            0 <= i < entries.len() ==> (#[trigger] entries[i]).1 >= cutoff_at(
                now,
                cfg.max_age_days,
            ),
    ensures
        fresh(entries, cutoff_at(now, cfg.max_age_days), n).len() == n,
        swept(entries, now, cfg, n).len() == 0,
    decreases n,
{
    if n > 0 {
        lemma_nothing_to_sweep(entries, now, cfg, n - 1);
    }
}

/// A sweep leaves exactly the newest entries: of those that are not too old, as many
/// with the largest numbers as may stay, unaltered. It forgets all others and nothing
/// else, and a second sweep at the same time forgets nothing more.
pub proof fn sweeps_leave_the_newest(
    entries: Seq<(i64, i64)>,
    now: i64,
    cfg: RetentionConfig,
)
    requires
        newest_first(entries),
    ensures
        ({
            let oldest = cutoff_at(now, cfg.max_age_days);
            let young = fresh(entries, oldest, entries.len() as int);
            let stay = retained(entries, now, cfg);
            let gone = swept(entries, now, cfg, entries.len() as int);
            &&& stay.len() == if young.len() <= cfg.max_entries {
                young.len()
            } else {
                cfg.max_entries as nat
            }
            &&& newest_first(stay)
            &&& forall|e: (i64, i64)| #[trigger]
                stay.contains(e) ==> entries.contains(e) && e.1 >= oldest
            &&& forall|e: (i64, i64), s: (i64, i64)|
                entries.contains(e) && e.1 >= oldest && !(#[trigger] stay.contains(e))
                    && #[trigger] stay.contains(s) ==> s.0 > e.0
            &&& forall|e: (i64, i64)| #[trigger]
                entries.contains(e) ==> (gone.contains(e.0) <==> !stay.contains(e))
            &&& gone.len() + stay.len() == entries.len()
            &&& swept(stay, now, cfg, stay.len() as int).len() == 0
        }),
{
    let n = entries.len() as int;
    let oldest = cutoff_at(now, cfg.max_age_days);
    let young = fresh(entries, oldest, n);
    let stay = retained(entries, now, cfg);
    let gone = swept(entries, now, cfg, n);
    lemma_fresh(entries, oldest, n);
    lemma_swept(entries, now, cfg, n);
    assert(entries.take(n) == entries);
    assert(forall|k: int| 0 <= k < stay.len() ==> stay[k] == young[k]);
    assert forall|e: (i64, i64)| #[trigger] stay.contains(e) implies entries.contains(e) && e.1
        >= oldest by {
        let k = choose|k: int| 0 <= k < stay.len() && stay[k] == e;
        assert(young[k] == e);
    }
    assert forall|e: (i64, i64), s: (i64, i64)|
        entries.contains(e) && e.1 >= oldest && !(#[trigger] stay.contains(e))
            && #[trigger] stay.contains(s) implies s.0 > e.0 by {
        let i = choose|i: int| 0 <= i < entries.len() && entries[i] == e;
        assert(young.contains(entries[i]));
        let k = choose|k: int| 0 <= k < young.len() && young[k] == e;
        let j = choose|j: int| 0 <= j < stay.len() && stay[j] == s;
        if k < stay.len() {
            assert(stay[k] == e);
        }
        assert(young[j].0 > young[k].0);
    }
    assert forall|e: (i64, i64)| #[trigger] entries.contains(e) implies (gone.contains(e.0)
        <==> !stay.contains(e)) by {
        let i = choose|i: int| 0 <= i < entries.len() && entries[i] == e;
        assert(gone.contains(entries[i].0) <==> !stay.contains(entries[i]));
    }
    assert forall|i: int| 0 <= i < stay.len() implies (#[trigger] stay[i]).1 >= oldest by {
        assert(young[i].1 >= oldest);
    }
    lemma_nothing_to_sweep(stay, now, cfg, stay.len() as int);
}

// ---- what is kept of a capture ------------------------------------------------------------

/// Whether the form `mime` is plain text, in any encoding.
pub open spec fn plain_text(mime: Seq<char>) -> bool {
    lowered(trimmed(mime.take(first_at(mime, ';')))) == "text/plain"@
}

/// How well a part stands for a capture in a search: not at all where it is no
/// text or has no bytes; then text that is not valid UTF-8, other text, and plain
/// text.
pub open spec fn tier(p: PartView) -> int {
    if p.store == PartStore::Omitted || !text_mime(p.mime) {
        0
    } else if !valid_utf8(p.blob) {
        1
    } else if !plain_text(p.mime) {
        2
    } else {
        3
    }
}

/// The text of a part, with replacement characters where it is not valid.
pub open spec fn part_text(p: PartView) -> Seq<char> {
    if valid_utf8(p.blob) {
        decode_utf8(p.blob)
    } else {
        utf8_lossy(p.blob)
    }
}

/// Whether the part at `i` stands for the capture: the first of those that do it
/// best.
pub open spec fn stands_for(parts: Seq<PartView>, i: int) -> bool {
    &&& 0 <= i < parts.len()
    &&& tier(parts[i]) > 0
    &&& forall|j: int| 0 <= j < i ==> tier(#[trigger] parts[j]) < tier(parts[i])
    &&& forall|j: int| 0 <= j < parts.len() ==> tier(#[trigger] parts[j]) <= tier(parts[i])
}

/// Whether `text` is what a capture is found by.
pub open spec fn is_index_text(parts: Seq<PartView>, text: Option<Seq<char>>) -> bool {
    match text {
        Some(t) => exists|i: int| #[trigger] stands_for(parts, i) && t == part_text(parts[i]),
        None => forall|i: int| 0 <= i < parts.len() ==> tier(#[trigger] parts[i]) == 0,
    }
}

/// There is one text that a capture is found by.
pub proof fn index_text_is_unique(
    parts: Seq<PartView>,
    a: Option<Seq<char>>,
    b: Option<Seq<char>>,
)
    requires
        is_index_text(parts, a),
        is_index_text(parts, b),
    ensures
        a == b,
{
    if a is Some {
        let i = choose|i: int| #[trigger] stands_for(parts, i) && a->0 == part_text(parts[i]);
        assert(tier(parts[i]) > 0);
        if b is Some {
            let j = choose|j: int| #[trigger] stands_for(parts, j) && b->0 == part_text(parts[j]);
            assert(tier(parts[j]) <= tier(parts[i]));
            assert(tier(parts[i]) <= tier(parts[j]));
        }
    } else if b is Some {
        let j = choose|j: int| #[trigger] stands_for(parts, j) && b->0 == part_text(parts[j]);
        assert(tier(parts[j]) > 0);
    }
}

/// Whether the form `mime` is plain text, in any encoding.
fn is_plain_text(mime: &str) -> (r: bool)
    ensures
        r == plain_text(mime@),
{
    let v = chars_of(mime);
    let k = find_char(&v, ';');
    let base = substring(&v, 0, k);
    assert(v@.subrange(0, k as int) == v@.take(k as int));
    let base = trim(base.as_str());
    let base = to_lower(base.as_str());
    base.as_str().eq("text/plain")
}

/// How well a part stands for a capture in a search, and its text.
fn read_part(p: &CapturedPart) -> (r: Option<(u8, String)>)
    ensures
        match r {
            Some(t) => t.0 == tier(p@) && t.0 > 0 && (t.1)@ == part_text(p@),
            None => tier(p@) == 0,
        },
{
    if p.store == PartStore::Omitted || !is_text_mime(p.mime.as_str()) {
        return None;
    }
    match read_exact(&p.blob) {
        Some(s) => if is_plain_text(p.mime.as_str()) {
            Some((3, s))
        } else {
            Some((2, s))
        },
        None => Some((1, read_lossy(&p.blob))),
    }
}

/// The text that a capture is found by: plain text before other text, and both
/// before text that is not valid UTF-8. None for a picture and the like.
pub fn pick_indexable_text(parts: &Vec<CapturedPart>) -> (text: Option<String>)
    ensures
        is_index_text(part_views(parts@), opt_view(text)),
{
    let ghost pv = part_views(parts@);
    let mut best: Option<(u8, String)> = None;
    let ghost mut at: int = 0;
    let mut i: usize = 0;
    while i < parts.len()
        invariant
            i <= parts@.len(),
            pv == part_views(parts@),
            best is None ==> forall|j: int| 0 <= j < i ==> tier(#[trigger] pv[j]) == 0,
            best is Some ==> {
                &&& 0 <= at < i
                &&& (best->0).0 == tier(pv[at])
                &&& tier(pv[at]) > 0
                &&& (best->0).1@ == part_text(pv[at])
                &&& forall|j: int| 0 <= j < at ==> tier(#[trigger] pv[j]) < tier(pv[at])
                &&& forall|j: int| 0 <= j < i ==> tier(#[trigger] pv[j]) <= tier(pv[at])
            },
        decreases parts@.len() - i,
    {
        assert(pv[i as int] == parts@[i as int]@);
        let now: u8 = match &best {
            Some(b) => b.0,
            None => 0,
        };
        match read_part(&parts[i]) {
            Some(t) => {
                if now < t.0 {
                    let top = t.0 == 3;
                    best = Some(t);
                    proof {
                        at = i as int;
                    }
                    if top {
                        proof {
                            assert(stands_for(pv, at));
                        }
                        let text = match best {
                            Some(b) => Some(b.1),
                            None => None,
                        };
                        return text;
                    }
                }
            },
            None => {},
        }
        i += 1;
    }
    match best {
        Some(b) => {
            assert(stands_for(pv, at));
            Some(b.1)
        },
        None => None,
    }
}

/// Whether nothing was kept of one of the parts.
pub open spec fn has_omitted(parts: Seq<PartView>) -> bool {
    exists|i: int| 0 <= i < parts.len() && (#[trigger] parts[i]).store == PartStore::Omitted
}

/// How many bytes were kept.
pub open spec fn kept_size(parts: Seq<PartView>) -> nat
    decreases parts.len(),
{
    if parts.len() == 0 {
        0
    } else {
        kept_size(parts.drop_last()) + parts.last().blob.len()
    }
}

/// Whether a capture repeats the one before it, whose digest is `previous`.
/// Where nothing was kept of a part nobody can tell, so that it does not count
/// as a repetition.
pub open spec fn repeats(parts: Seq<PartView>, previous: Option<Seq<u8>>) -> bool {
    !has_omitted(parts) && previous == Some(blake3_digest(canonical(parts)))
}

/// A part as it is stored. One that was omitted has no bytes, not even none.
pub struct PartRow {
    pub mime: String,
    pub blob: Option<Vec<u8>>,
    pub truncated: i64,
}

/// What a [`PartRow`] holds.
pub ghost struct PartRowView {
    pub mime: Seq<char>,
    pub blob: Option<Seq<u8>>,
    pub truncated: i64,
}

impl View for PartRow {
    type V = PartRowView;

    open spec fn view(&self) -> PartRowView {
        PartRowView {
            mime: self.mime@,
            blob: match self.blob {
                Some(b) => Some(b@),
                None => None,
            },
            truncated: self.truncated,
        }
    }
}

/// The views of the rows of `v`.
pub open spec fn part_row_views(v: Seq<PartRow>) -> Seq<PartRowView> {
    Seq::new(v.len(), |i: int| v[i]@)
}

/// A part as it is stored.
pub open spec fn part_row(p: PartView) -> PartRowView {
    PartRowView {
        mime: p.mime,
        blob: if p.store == PartStore::Omitted {
            None
        } else {
            Some(p.blob)
        },
        truncated: store_number(p.store),
    }
}

/// An entry as it is stored.
pub struct NewEntry {
    pub ts_unix_ns: i64,
    pub selection: String,
    pub hash: Vec<u8>,
    pub size_bytes: i64,
    pub text: Option<String>,
    pub parts: Vec<PartRow>,
}

/// Whether `n` is what is stored of the capture `e`.
pub open spec fn is_stored_form(n: NewEntry, e: CapturedEntry) -> bool {
    let parts = part_views(e.parts@);
    &&& n.ts_unix_ns == e.ts_unix_ns
    &&& n.selection@ == selection_name(e.selection)
    &&& n.hash@ == blake3_digest(canonical(parts))
    &&& n.size_bytes == kept_size(parts)
    &&& is_index_text(parts, opt_view(n.text))
    &&& part_row_views(n.parts@) == Seq::new(parts.len(), |i: int| part_row(parts[i]))
}

/// Whether nothing was kept of one of the parts. Without one the digest of the
/// entry before is needed.
pub fn any_omitted(parts: &Vec<CapturedPart>) -> (r: bool)
    ensures
        r == has_omitted(part_views(parts@)),
{
    let ghost pv = part_views(parts@);
    let mut i: usize = 0;
    while i < parts.len()
        invariant
            i <= parts@.len(),
            pv == part_views(parts@),
            forall|j: int| 0 <= j < i ==> (#[trigger] pv[j]).store != PartStore::Omitted,
        decreases parts@.len() - i,
    {
        assert(pv[i as int] == parts@[i as int]@);
        if parts[i].store == PartStore::Omitted {
            return true;
        }
        i += 1;
    }
    false
}

proof fn lemma_kept_size_grows(parts: Seq<PartView>, n: int)
    requires
        0 <= n <= parts.len(),
    ensures
        kept_size(parts.take(n)) <= kept_size(parts),
    decreases parts.len(),
{
    if n == parts.len() {
        assert(parts.take(n) == parts);
    } else {
        lemma_kept_size_grows(parts.drop_last(), n);
        assert(parts.drop_last().take(n) == parts.take(n));
    }
}

/// How many bytes were kept.
pub fn total_size(parts: &Vec<CapturedPart>) -> (n: i64)
    requires
        kept_size(part_views(parts@)) <= i64::MAX,
    ensures
        n == kept_size(part_views(parts@)),
{
    let ghost pv = part_views(parts@);
    let mut n: u64 = 0;
    let mut i: usize = 0;
    while i < parts.len()
        invariant
            i <= parts@.len(),
            pv == part_views(parts@),
            kept_size(pv) <= i64::MAX,
            n == kept_size(pv.take(i as int)),
        decreases parts@.len() - i,
    {
        proof {
            assert(pv.take(i + 1).drop_last() == pv.take(i as int));
            assert(pv.take(i + 1).last() == parts@[i as int]@);
            lemma_kept_size_grows(pv, i + 1);
        }
        n += parts[i].blob.len() as u64;
        i += 1;
    }
    assert(pv.take(parts@.len() as int) == pv);
    n as i64
}

/// What is stored of a capture, where `previous` is the digest of the entry
/// before it in the same selection; none where the capture repeats that one.
pub fn prepare(e: &CapturedEntry, previous: &Option<Vec<u8>>) -> (r: Option<NewEntry>)
    requires
        kept_size(part_views(e.parts@)) <= i64::MAX,
    ensures
        match r {
            Some(n) => is_stored_form(n, *e) && !repeats(
                part_views(e.parts@),
                match *previous {
                    Some(p) => Some(p@),
                    None => None,
                },
            ),
            None => repeats(
                part_views(e.parts@),
                match *previous {
                    Some(p) => Some(p@),
                    None => None,
                },
            ),
        },
        r matches Some(n) ==> (n.text matches Some(t) ==> exists|i: int|
            {
                &&& 0 <= i < e.parts@.len()
                &&& (#[trigger] e.parts@[i]).store != PartStore::Omitted
                &&& valid_utf8(e.parts@[i].blob@) ==> encode_utf8(t@) == e.parts@[i].blob@
                &&& !valid_utf8(e.parts@[i].blob@) ==> t@ == utf8_lossy(e.parts@[i].blob@)
            }),
{
    let hash = canonical_hash(&e.parts);
    if !any_omitted(&e.parts) {
        if let Some(p) = previous {
            if same_bytes(p, &hash) {
                return None;
            }
        }
    }
    let size_bytes = total_size(&e.parts);
    let text = pick_indexable_text(&e.parts);
    let ghost pv = part_views(e.parts@);
    let mut parts: Vec<PartRow> = Vec::new();
    let mut i: usize = 0;
    while i < e.parts.len()
        invariant
            i <= e.parts@.len(),
            pv == part_views(e.parts@),
            part_row_views(parts@) == Seq::new(i as nat, |i: int| part_row(pv[i])),
        decreases e.parts@.len() - i,
    {
        let p = &e.parts[i];
        assert(pv[i as int] == p@);
        let row = PartRow {
            mime: p.mime.clone(),
            blob: if p.store == PartStore::Omitted {
                None
            } else {
                Some(copy_bytes(&p.blob))
            },
            truncated: p.store.as_i64(),
        };
        let ghost rv = row@;
        let ghost done = parts@;
        parts.push(row);
        assert(part_row_views(parts@) =~= part_row_views(done).push(rv));
        i += 1;
        assert(part_row_views(parts@) =~= Seq::new(i as nat, |i: int| part_row(pv[i])));
    }
    proof {
        if text is Some {
            let t = opt_view(text)->0;
            the_whole_text_is_stored(pv, t);
            let i = choose|i: int|
                {
                    &&& 0 <= i < pv.len()
                    &&& (#[trigger] pv[i]).store != PartStore::Omitted
                    &&& valid_utf8(pv[i].blob) ==> encode_utf8(t) == pv[i].blob
                    &&& !valid_utf8(pv[i].blob) ==> t == utf8_lossy(pv[i].blob)
                };
            assert(pv[i] == e.parts@[i]@);
        }
    }
    Some(
        NewEntry {
            ts_unix_ns: e.ts_unix_ns,
            selection: e.selection.as_str().to_owned(),
            hash,
            size_bytes,
            text,
            parts,
        },
    )
}

/// Whether `a` and `b` hold the same bytes.
fn same_bytes(a: &Vec<u8>, b: &Vec<u8>) -> (r: bool)
    ensures
        r == (a@ == b@),
{
    if a.len() != b.len() {
        return false;
    }
    let mut i: usize = 0;
    while i < a.len()
        invariant
            i <= a@.len() == b@.len(),
            forall|j: int| 0 <= j < i ==> a@[j] == b@[j],
        decreases a@.len() - i,
    {
        if a[i] != b[i] {
            return false;
        }
        i += 1;
    }
    assert(a@ =~= b@);
    true
}

/// A capture that is made again, with the same forms and bytes in any order, is
/// dropped, unless nothing was kept of one of its parts.
pub proof fn repetitions_are_dropped(first: Seq<PartView>, again: Seq<PartView>)
    requires
        distinct_mimes(first),
        distinct_mimes(again),
        same_parts(first, again),
    ensures
        repeats(again, Some(blake3_digest(canonical(first)))) <==> !has_omitted(again),
{
    same_content_has_one_digest(first, again);
}

/// Nothing else is dropped: what counts as a repetition has the forms and bytes of
/// the capture before, where the digest tells the two apart.
pub proof fn only_repetitions_are_dropped(first: Seq<PartView>, again: Seq<PartView>)
    requires
        forall|i: int| 0 <= i < first.len() ==> fits_frame(#[trigger] first[i]),
        forall|i: int| 0 <= i < again.len() ==> fits_frame(#[trigger] again[i]),
        canonical(first) != canonical(again) ==> blake3_digest(canonical(first))
            != blake3_digest(canonical(again)),
        repeats(again, Some(blake3_digest(canonical(first)))),
    ensures
        same_parts(first, again),
        !has_omitted(again),
{
    captures_are_told_apart(first, again);
}

/// The digest of the newest of `history` in the selection `sel`.
pub open spec fn last_digest(
    history: Seq<(Selection, Seq<PartView>)>,
    sel: Selection,
) -> Option<Seq<u8>>
    decreases history.len(),
{
    if history.len() == 0 {
        None
    } else if history.last().0 == sel {
        Some(blake3_digest(canonical(history.last().1)))
    } else {
        last_digest(history.drop_last(), sel)
    }
}

/// `history` once `parts` were captured from the selection `sel`: with them behind the
/// rest, unless they repeat the newest of that selection.
pub open spec fn recorded(
    history: Seq<(Selection, Seq<PartView>)>,
    sel: Selection,
    parts: Seq<PartView>,
) -> Seq<(Selection, Seq<PartView>)> {
    if repeats(parts, last_digest(history, sel)) {
        history
    } else {
        history.push((sel, parts))
    }
}

/// After a capture the newest of its selection has its digest, and other selections
/// are as they were.
proof fn lemma_recorded(
    history: Seq<(Selection, Seq<PartView>)>,
    sel: Selection,
    parts: Seq<PartView>,
    other: Selection,
)
    ensures
        last_digest(recorded(history, sel, parts), sel) == Some(blake3_digest(canonical(parts))),
        other != sel ==> last_digest(recorded(history, sel, parts), other) == last_digest(
            history,
            other,
        ),
{
    assert(history.push((sel, parts)).drop_last() == history);
}

/// What is captured again, with the same forms and bytes in any order, is recorded
/// once. What comes back after something else is recorded again, and so is what comes
/// from the other selection, unless that holds it already.
pub proof fn captures_are_recorded_once(
    history: Seq<(Selection, Seq<PartView>)>,
    sel: Selection,
    other: Selection,
    a: Seq<PartView>,
    again: Seq<PartView>,
    b: Seq<PartView>,
)
    requires
        distinct_mimes(a),
        distinct_mimes(again),
        same_parts(a, again),
        !has_omitted(a),
        !has_omitted(again),
    ensures
        ({
            let first = recorded(history, sel, a);
            &&& recorded(first, sel, again) == first
            &&& blake3_digest(canonical(b)) != blake3_digest(canonical(a)) ==> recorded(
                recorded(first, sel, b),
                sel,
                again,
            ) == first.push((sel, b)).push((sel, again))
            &&& other != sel ==> recorded(first, other, again) == if last_digest(history, other)
                == Some(blake3_digest(canonical(again))) {
                first
            } else {
                first.push((other, again))
            }
        }),
{
    let first = recorded(history, sel, a);
    same_content_has_one_digest(a, again);
    lemma_recorded(history, sel, a, other);
    lemma_recorded(first, sel, b, other);
}

// ---- what the history returns ---------------------------------------------------------------

/// An entry as the database returns it.
pub struct Row {
    pub id: i64,
    pub ts_unix_ns: i64,
    pub selection: String,
    pub size_bytes: i64,
    pub snippet: Option<String>,
}

/// What a [`Row`] holds.
#[verifier::ext_equal]
pub ghost struct RowView {
    pub id: i64,
    pub ts_unix_ns: i64,
    pub selection: Seq<char>,
    pub size_bytes: i64,
    pub snippet: Option<Seq<char>>,
}

impl View for Row {
    type V = RowView;

    open spec fn view(&self) -> RowView {
        RowView {
            id: self.id,
            ts_unix_ns: self.ts_unix_ns,
            selection: self.selection@,
            size_bytes: self.size_bytes,
            snippet: opt_view(self.snippet),
        }
    }
}

/// The views of the rows of `v`.
pub open spec fn row_views(v: Seq<Row>) -> Seq<RowView> {
    Seq::new(v.len(), |i: int| v[i]@)
}

/// A form of an entry as the database returns it.
pub struct Form {
    pub entry_id: i64,
    pub mime: String,
    pub truncated: i64,
}

/// What a [`Form`] holds.
pub ghost struct FormView {
    pub entry_id: i64,
    pub mime: Seq<char>,
    pub truncated: i64,
}

impl View for Form {
    type V = FormView;

    open spec fn view(&self) -> FormView {
        FormView { entry_id: self.entry_id, mime: self.mime@, truncated: self.truncated }
    }
}

/// The views of the forms of `v`.
pub open spec fn form_views(v: Seq<Form>) -> Seq<FormView> {
    Seq::new(v.len(), |i: int| v[i]@)
}

/// The forms of the entry `id`, in the order of `forms`.
pub open spec fn mimes_of(forms: Seq<FormView>, id: i64) -> Seq<Seq<char>>
    decreases forms.len(),
{
    if forms.len() == 0 {
        seq![]
    } else if forms.last().entry_id == id {
        mimes_of(forms.drop_last(), id).push(forms.last().mime)
    } else {
        mimes_of(forms.drop_last(), id)
    }
}

/// Whether a part of the entry `id` was over the limit on its size.
pub open spec fn is_oversized(forms: Seq<FormView>, id: i64) -> bool {
    exists|i: int|
        0 <= i < forms.len() && (#[trigger] forms[i]).entry_id == id && forms[i].truncated != 0
}

/// Whether the entry at `i` stands at an earlier place too.
pub open spec fn stood_before(rows: Seq<RowView>, i: int) -> bool {
    exists|j: int| 0 <= j < i && (#[trigger] rows[j]).id == rows[i].id
}

/// What is known of the entry at `i`. Each entry has its forms; one that stands
/// in the list again has them the first time only.
pub open spec fn described(rows: Seq<RowView>, forms: Seq<FormView>, i: int) -> EntryView {
    let r = rows[i];
    let again = stood_before(rows, i);
    EntryView {
        id: r.id,
        ts_unix_ns: r.ts_unix_ns,
        selection: r.selection,
        mimes: if again {
            seq![]
        } else {
            mimes_of(forms, r.id)
        },
        size_bytes: r.size_bytes,
        snippet: r.snippet,
        oversized: !again && is_oversized(forms, r.id),
    }
}

/// The forms of the entry `id`, and whether a part of it was over the limit.
fn forms_of(forms: &Vec<Form>, id: i64) -> (r: (Vec<String>, bool))
    ensures
        views(r.0@) == mimes_of(form_views(forms@), id),
        r.1 == is_oversized(form_views(forms@), id),
{
    let ghost fv = form_views(forms@);
    let mut mimes: Vec<String> = Vec::new();
    let mut oversized = false;
    let mut i: usize = 0;
    assert(views(mimes@) == mimes_of(fv.take(0), id));
    while i < forms.len()
        invariant
            i <= forms@.len(),
            fv == form_views(forms@),
            views(mimes@) == mimes_of(fv.take(i as int), id),
            oversized == exists|j: int|
                0 <= j < i && (#[trigger] fv[j]).entry_id == id && fv[j].truncated != 0,
        decreases forms@.len() - i,
    {
        let f = &forms[i];
        assert(fv[i as int] == f@);
        assert(fv.take(i + 1).drop_last() == fv.take(i as int));
        assert(fv.take(i + 1).last() == f@);
        if f.entry_id == id {
            let mime = f.mime.clone();
            let ghost mv = mime@;
            let ghost done = mimes@;
            mimes.push(mime);
            assert(views(mimes@) =~= views(done).push(mv));
            if f.truncated != 0 {
                oversized = true;
            }
        }
        i += 1;
    }
    assert(fv.take(forms@.len() as int) == fv);
    (mimes, oversized)
}

/// Whether the entry at `i` stands at an earlier place too.
fn seen_before(rows: &Vec<Row>, i: usize) -> (r: bool)
    requires
        i < rows@.len(),
    ensures
        r == stood_before(row_views(rows@), i as int),
{
    let ghost rv = row_views(rows@);
    let mut j: usize = 0;
    while j < i
        invariant
            j <= i < rows@.len(),
            rv == row_views(rows@),
            forall|k: int| 0 <= k < j ==> (#[trigger] rv[k]).id != rv[i as int].id,
        decreases i - j,
    {
        assert(rv[j as int] == rows@[j as int]@);
        assert(rv[i as int] == rows@[i as int]@);
        if rows[j].id == rows[i].id {
            return true;
        }
        j += 1;
    }
    false
}

/// The entries with their forms.
pub fn attach_mimes(rows: &Vec<Row>, forms: &Vec<Form>) -> (entries: Vec<EntryMeta>)
    ensures
        entry_views(entries@) == Seq::new(
            rows@.len(),
            |i: int| described(row_views(rows@), form_views(forms@), i),
        ),
{
    let ghost rv = row_views(rows@);
    let ghost fv = form_views(forms@);
    let mut entries: Vec<EntryMeta> = Vec::new();
    let mut i: usize = 0;
    while i < rows.len()
        invariant
            i <= rows@.len(),
            rv == row_views(rows@),
            fv == form_views(forms@),
            entry_views(entries@) == Seq::new(i as nat, |i: int| described(rv, fv, i)),
        decreases rows@.len() - i,
    {
        let r = &rows[i];
        assert(rv[i as int] == r@);
        let (mimes, oversized) = if seen_before(rows, i) {
            let none: Vec<String> = Vec::new();
            assert(views(none@) =~= Seq::<Seq<char>>::empty());
            (none, false)
        } else {
            forms_of(forms, r.id)
        };
        let e = EntryMeta {
            id: r.id,
            ts_unix_ns: r.ts_unix_ns,
            selection: r.selection.clone(),
            mimes,
            size_bytes: r.size_bytes,
            snippet: opt_copy(&r.snippet),
            oversized,
        };
        let ghost ev = e@;
        assert(ev == described(rv, fv, i as int));
        let ghost done = entries@;
        entries.push(e);
        assert(entry_views(entries@) =~= entry_views(done).push(ev));
        i += 1;
        assert(entry_views(entries@) =~= Seq::new(i as nat, |i: int| described(rv, fv, i)));
    }
    entries
}

/// Every form that the database returned of an entry is one of its forms, and
/// no other is.
pub proof fn entries_have_their_forms(forms: Seq<FormView>, id: i64, mime: Seq<char>)
    ensures
        mimes_of(forms, id).contains(mime) <==> exists|i: int|
            0 <= i < forms.len() && (#[trigger] forms[i]).entry_id == id && forms[i].mime == mime,
    decreases forms.len(),
{
    if forms.len() > 0 {
        let t = forms.drop_last();
        let m = mimes_of(forms, id);
        let n = mimes_of(t, id);
        entries_have_their_forms(t, id, mime);
        if m.contains(mime) {
            let k = choose|k: int| 0 <= k < m.len() && m[k] == mime;
            if k < n.len() {
                assert(n[k] == mime);
                assert(n.contains(mime));
                let i = choose|i: int|
                    0 <= i < t.len() && (#[trigger] t[i]).entry_id == id && t[i].mime == mime;
                assert(forms[i].entry_id == id);
            } else {
                assert(forms[forms.len() - 1].entry_id == id);
            }
        }
        if exists|i: int|
            0 <= i < forms.len() && (#[trigger] forms[i]).entry_id == id && forms[i].mime == mime {
            let i = choose|i: int|
                0 <= i < forms.len() && (#[trigger] forms[i]).entry_id == id && forms[i].mime
                    == mime;
            if i < t.len() {
                assert(t[i].entry_id == id);
                assert(n.contains(mime));
                let k = choose|k: int| 0 <= k < n.len() && n[k] == mime;
                assert(m[k] == mime);
            } else {
                assert(m[m.len() - 1] == mime);
            }
        }
    }
}

/// What is captured within the limit on its size is stored byte for byte; of a
/// longer text its beginning is, and of anything else that is longer nothing is,
/// not even no bytes.
pub proof fn what_fits_is_stored_byte_for_byte(mime: Seq<char>, bytes: Seq<u8>, cap: int)
    requires
        cap >= 0,
    ensures
        bytes.len() <= cap ==> part_row(kept(mime, bytes, cap)).blob == Some(bytes),
        part_row(kept(mime, bytes, cap)).blob is None <==> bytes.len() > cap && !text_mime(mime),
        part_row(kept(mime, bytes, cap)).blob is Some ==> (part_row(
            kept(mime, bytes, cap),
        ).blob->0).is_prefix_of(bytes),
        part_row(kept(mime, bytes, cap)).truncated == 0 <==> bytes.len() <= cap,
{
    kept_parts_keep_to_the_limit(mime, bytes, cap);
}

/// The forms of a capture as the database returns them for the entry `id`, if it
/// returns them in the order of the capture.
pub open spec fn stored_forms(parts: Seq<PartView>, id: i64) -> Seq<FormView> {
    Seq::new(
        parts.len(),
        |i: int|
            FormView {
                entry_id: id,
                mime: part_row(parts[i]).mime,
                truncated: part_row(parts[i]).truncated,
            },
    )
}

/// An entry has the forms of its capture, and counts as oversized exactly where
/// not all of it was kept.
pub proof fn entries_tell_what_was_captured(parts: Seq<PartView>, id: i64, mime: Seq<char>)
    ensures
        mimes_of(stored_forms(parts, id), id).contains(mime) <==> exists|i: int|
            0 <= i < parts.len() && (#[trigger] parts[i]).mime == mime,
        is_oversized(stored_forms(parts, id), id) <==> exists|i: int|
            0 <= i < parts.len() && (#[trigger] parts[i]).store != PartStore::Full,
{
    let forms = stored_forms(parts, id);
    entries_have_their_forms(forms, id, mime);
    if exists|i: int| 0 <= i < parts.len() && (#[trigger] parts[i]).mime == mime {
        let i = choose|i: int| 0 <= i < parts.len() && (#[trigger] parts[i]).mime == mime;
        assert(forms[i].mime == mime);
    }
    if exists|i: int|
        0 <= i < forms.len() && (#[trigger] forms[i]).entry_id == id && forms[i].mime == mime {
        let i = choose|i: int|
            0 <= i < forms.len() && (#[trigger] forms[i]).entry_id == id && forms[i].mime == mime;
        assert(parts[i].mime == mime);
    }
    if is_oversized(forms, id) {
        let i = choose|i: int|
            0 <= i < forms.len() && (#[trigger] forms[i]).entry_id == id && forms[i].truncated != 0;
        assert(parts[i].store != PartStore::Full);
    }
    if exists|i: int| 0 <= i < parts.len() && (#[trigger] parts[i]).store != PartStore::Full {
        let i = choose|i: int|
            0 <= i < parts.len() && (#[trigger] parts[i]).store != PartStore::Full;
        assert(forms[i].truncated != 0);
    }
}

/// How many entries a request for `limit` of them returns at most.
pub open spec fn capped_limit(limit: int) -> int {
    if limit < MAX_LIMIT {
        limit
    } else {
        MAX_LIMIT as int
    }
}

/// How many entries a request for `limit` of them returns at most.
pub fn list_limit(limit: usize) -> (n: i64)
    ensures
        n == capped_limit(limit as int),
{
    if limit < MAX_LIMIT {
        limit as i64
    } else {
        MAX_LIMIT as i64
    }
}

/// The form in which an entry is read where none was asked for: the first from
/// `from` on below `text/`, or else the first of all.
pub open spec fn picked_mime(mimes: Seq<Seq<char>>, from: int) -> Option<Seq<char>>
    decreases mimes.len() - from,
{
    if from >= mimes.len() {
        if mimes.len() == 0 {
            None
        } else {
            Some(mimes[0])
        }
    } else if has_prefix(mimes[from], "text/"@) {
        Some(mimes[from])
    } else {
        picked_mime(mimes, from + 1)
    }
}

/// The form in which an entry is read where none was asked for: the first below
/// `text/`, or else the first. `mimes` are the forms whose bytes were kept, in
/// their order.
pub fn pick_mime(mimes: &Vec<String>) -> (r: Option<String>)
    ensures
        opt_view(r) == picked_mime(views(mimes@), 0),
{
    let ghost mv = views(mimes@);
    let mut i: usize = 0;
    while i < mimes.len()
        invariant
            i <= mimes@.len(),
            mv == views(mimes@),
            picked_mime(mv, 0) == picked_mime(mv, i as int),
        decreases mimes@.len() - i,
    {
        assert(mv[i as int] == mimes@[i as int]@);
        if starts_with(mimes[i].as_str(), "text/") {
            return Some(mimes[i].clone());
        }
        i += 1;
    }
    if mimes.len() == 0 {
        None
    } else {
        assert(mv[0] == mimes@[0]@);
        Some(mimes[0].clone())
    }
}

} // verus!
