//! The clipboard history: captures, storage, searching, the protocol and the
//! picker.

use levelup::base::xdg::{Environment, NoBase};
use levelup::hugin::capture::{
    default_socket_path, elapsed, is_text_mime, keep_part, keep_parts, stamp_of, CapturedEntry,
    CapturedPart, PartStore, ReadPart, Selection, DEFAULT_MAX_PART_BYTES,
};
use levelup::hugin::cli::{entry_line, header_line, info_lines, label_of, DaemonArgs};
use levelup::hugin::config::{load_or_default, Config};
use levelup::hugin::digest::{canonical_bytes, canonical_hash};
use levelup::hugin::format::{fmt_ts, human_size, seconds_of, time_or_seconds};
use levelup::hugin::ipc::{
    bad_request, bind_clean, blob_response, delete_response, dispatch, entries_response,
    entry_response, request_ok, serve_parts, taken_message, Bind, Confirmation, Job, Serving,
};
use levelup::hugin::picker::{preview_fits, render_row, Mode, Outcome, State, Step};
use levelup::hugin::proto::{EntryMeta, Request, Response, SearchSort};
use levelup::hugin::search::{prefix_chars, search, wanted, Candidate};
use levelup::hugin::storage::{
    any_omitted, attach_mimes, cutoff, default_db_path, forms_sql, list_limit,
    pick_indexable_text, pick_mime, prepare, sweep, sweep_due, total_size, Form, RetentionConfig, Row,
    BLOB_SQL, DELETE_SQL, EXISTS_SQL, GET_SQL, INSERT_ENTRY_SQL, INSERT_PART_SQL, LAST_HASH_SQL,
    LIST_SQL, MIMES_SQL, PARTS_SQL, PREVIEW_SQL, SCHEMA_SQL, SEARCH_POOL_SQL, STAMPS_SQL,
};
use levelup::hugin::wayland::{is_watched, Change, Offers};
use levelup::ui::config::{Layout, Loaded};
use levelup::ui::keys::{KeyCode, KeyEvent, KeyEventKind};
use rusqlite::{Connection, OptionalExtension};

fn strings(v: &[&str]) -> Vec<String> {
    v.iter().map(|s| s.to_string()).collect()
}

// ---- the database, driven by the statements of the library ----------------------

fn schema_conn() -> Connection {
    let conn = Connection::open_in_memory().unwrap();
    conn.execute_batch("PRAGMA foreign_keys = ON;").unwrap();
    conn.execute_batch(SCHEMA_SQL).unwrap();
    conn
}

/// Apply the live schema to an in-memory DB and insert a couple of entries
/// directly so we can exercise the read/search/delete API.
fn seeded_conn() -> Connection {
    let conn = schema_conn();
    // id 1: a text entry.
    conn.execute(
        "INSERT INTO entries (id, ts_unix_ns, selection, hash, size_bytes, text)
         VALUES (1, 100, 'regular', x'00', 11, 'git commit -m')",
        [],
    )
    .unwrap();
    conn.execute(
        "INSERT INTO mime_parts (entry_id, mime, blob) VALUES (1, 'text/plain', x'00')",
        [],
    )
    .unwrap();
    // id 2: an image entry (no indexable text).
    conn.execute(
        "INSERT INTO entries (id, ts_unix_ns, selection, hash, size_bytes, text)
         VALUES (2, 200, 'regular', x'01', 34000, NULL)",
        [],
    )
    .unwrap();
    conn.execute(
        "INSERT INTO mime_parts (entry_id, mime, blob) VALUES (2, 'image/png', x'89504e47')",
        [],
    )
    .unwrap();
    conn
}

fn row(r: &rusqlite::Row<'_>) -> rusqlite::Result<Row> {
    Ok(Row {
        id: r.get(0)?,
        ts_unix_ns: r.get(1)?,
        selection: r.get(2)?,
        size_bytes: r.get(3)?,
        snippet: r.get(4)?,
    })
}

fn attach(conn: &Connection, rows: Vec<Row>) -> Vec<EntryMeta> {
    let ids: Vec<i64> = rows.iter().map(|r| r.id).collect();
    let mut stmt = conn.prepare(&forms_sql(ids.len())).unwrap();
    let forms: Vec<Form> = stmt
        .query_map(rusqlite::params_from_iter(ids.iter()), |r| {
            Ok(Form { entry_id: r.get(0)?, mime: r.get(1)?, truncated: r.get(2)? })
        })
        .unwrap()
        .collect::<rusqlite::Result<_>>()
        .unwrap();
    attach_mimes(&rows, &forms)
}

fn list(conn: &Connection, limit: usize, selection: Option<&str>) -> Vec<EntryMeta> {
    let mut stmt = conn.prepare(LIST_SQL).unwrap();
    let rows: Vec<Row> = stmt
        .query_map((selection, list_limit(limit)), row)
        .unwrap()
        .collect::<rusqlite::Result<_>>()
        .unwrap();
    attach(conn, rows)
}

fn find(
    conn: &Connection,
    query: &str,
    sort: SearchSort,
    limit: usize,
    selection: Option<&str>,
) -> Vec<EntryMeta> {
    let Some(q) = wanted(query) else {
        return list(conn, limit, selection);
    };
    let mut stmt = conn.prepare(SEARCH_POOL_SQL).unwrap();
    let pool: Vec<Candidate> = stmt
        .query_map((selection, list_limit(usize::MAX)), |r| {
            Ok(Candidate {
                id: r.get(0)?,
                ts_unix_ns: r.get(1)?,
                selection: r.get(2)?,
                size_bytes: r.get(3)?,
                text: r.get(4)?,
            })
        })
        .unwrap()
        .collect::<rusqlite::Result<_>>()
        .unwrap();
    attach(conn, search(&pool, &q, sort, limit))
}

fn get(conn: &Connection, id: i64) -> Option<EntryMeta> {
    let r = conn.query_row(GET_SQL, [id], row).optional().unwrap()?;
    attach(conn, vec![r]).into_iter().next()
}

fn delete(conn: &Connection, id: i64) -> bool {
    conn.execute(DELETE_SQL, [id]).unwrap() > 0
}

fn preview_text(conn: &Connection, id: i64, max_chars: i64) -> Option<String> {
    conn.query_row(PREVIEW_SQL, (id, max_chars), |r| r.get(0)).optional().unwrap().flatten()
}

fn read_blob(conn: &Connection, id: i64, mime: Option<&str>) -> Option<(String, Vec<u8>)> {
    let chosen = match mime {
        Some(m) => m.to_string(),
        None => {
            let mut stmt = conn.prepare(MIMES_SQL).unwrap();
            let mimes: Vec<String> = stmt
                .query_map([id], |r| r.get(0))
                .unwrap()
                .collect::<rusqlite::Result<_>>()
                .unwrap();
            pick_mime(&mimes)?
        }
    };
    let blob: Option<Vec<u8>> =
        conn.query_row(BLOB_SQL, (id, &chosen), |r| r.get(0)).optional().unwrap();
    blob.map(|b| (chosen, b))
}

fn load_parts(conn: &Connection, id: i64) -> Option<Vec<(String, Vec<u8>)>> {
    let n: i64 = conn.query_row(EXISTS_SQL, [id], |r| r.get(0)).unwrap();
    if n == 0 {
        return None;
    }
    let mut stmt = conn.prepare(PARTS_SQL).unwrap();
    let parts = stmt
        .query_map([id], |r| Ok((r.get(0)?, r.get(1)?)))
        .unwrap()
        .collect::<rusqlite::Result<_>>()
        .unwrap();
    Some(parts)
}

fn insert(conn: &Connection, entry: &CapturedEntry) -> Option<i64> {
    let previous: Option<Vec<u8>> = conn
        .query_row(LAST_HASH_SQL, [entry.selection.as_str()], |r| r.get(0))
        .optional()
        .unwrap();
    let new = prepare(entry, &previous)?;
    conn.execute(
        INSERT_ENTRY_SQL,
        (new.ts_unix_ns, &new.selection, &new.hash, new.size_bytes, &new.text),
    )
    .unwrap();
    let id = conn.last_insert_rowid();
    for p in &new.parts {
        conn.execute(INSERT_PART_SQL, (id, &p.mime, &p.blob, p.truncated)).unwrap();
    }
    Some(id)
}

fn ids(rows: &[EntryMeta]) -> Vec<i64> {
    rows.iter().map(|e| e.id).collect()
}

#[test]
fn list_newest_first_with_snippet() {
    let conn = seeded_conn();
    let rows = list(&conn, 50, None);
    assert_eq!(rows.iter().map(|e| e.id).collect::<Vec<_>>(), vec![2, 1]);
    // image entry has no text → no snippet; text entry has its substr.
    assert_eq!(rows[0].snippet, None);
    assert_eq!(rows[0].mimes, vec!["image/png"]);
    assert_eq!(rows[1].snippet.as_deref(), Some("git commit -m"));
}

#[test]
fn search_fuzzy_matches_and_highlights() {
    let conn = seeded_conn();
    // fzf-style subsequence: "gcm" hits "git commit -m".
    let rows = find(&conn, "gcm", SearchSort::Relevance, 50, None);
    assert_eq!(rows.len(), 1);
    assert_eq!(rows[0].id, 1);
    let snippet = rows[0].snippet.as_deref().unwrap();
    assert!(
        snippet.contains('‹') && snippet.contains('›'),
        "got {snippet:?}"
    );
    // The image entry (no text) never matches a non-empty query.
    assert!(find(&conn, "png", SearchSort::Relevance, 50, None).iter().all(|e| e.id != 2));
}

#[test]
fn characters_that_two_words_match_are_marked_once() {
    let conn = seeded_conn();
    let rows = find(&conn, "git gi commit", SearchSort::Relevance, 50, None);
    assert_eq!(rows[0].snippet.as_deref(), Some("‹git› ‹commit› -m"));
}

#[test]
fn search_empty_query_falls_through_to_list() {
    let conn = seeded_conn();
    let rows = find(&conn, "   ", SearchSort::Relevance, 50, None);
    assert_eq!(rows.iter().map(|e| e.id).collect::<Vec<_>>(), vec![2, 1]);
}

#[test]
fn delete_cascades_to_mime_parts() {
    let conn = seeded_conn();
    assert!(delete(&conn, 1));
    assert!(!delete(&conn, 1)); // already gone
    let parts: i64 = conn
        .query_row("SELECT COUNT(*) FROM mime_parts WHERE entry_id = 1", [], |r| r.get(0))
        .unwrap();
    assert_eq!(parts, 0, "FK cascade should remove orphaned mime_parts");
}

#[test]
fn preview_text_returns_text_or_none() {
    let conn = seeded_conn();
    assert_eq!(preview_text(&conn, 1, 100).as_deref(), Some("git commit -m"));
    assert_eq!(preview_text(&conn, 2, 100), None); // image: NULL text
}

/// Read-path behaviour for an entry whose oversized binary part was omitted
/// (NULL blob) and whose text part was truncated to a prefix.
#[test]
fn oversized_entry_reads_partial() {
    let conn = seeded_conn();
    // id 3: text/plain truncated (blob present, truncated=1) +
    // image/png omitted (NULL blob, truncated=2).
    conn.execute(
        "INSERT INTO entries (id, ts_unix_ns, selection, hash, size_bytes, text)
         VALUES (3, 300, 'regular', x'02', 5, 'hello')",
        [],
    )
    .unwrap();
    conn.execute(
        "INSERT INTO mime_parts (entry_id, mime, blob, truncated)
         VALUES (3, 'text/plain', x'68656c6c6f', 1)",
        [],
    )
    .unwrap();
    conn.execute(
        "INSERT INTO mime_parts (entry_id, mime, blob, truncated)
         VALUES (3, 'image/png', NULL, 2)",
        [],
    )
    .unwrap();

    // list/get flag it oversized and still list both MIMEs.
    let e = get(&conn, 3).unwrap();
    assert!(e.oversized, "entry with truncated/omitted part is oversized");
    assert_eq!(e.mimes, vec!["image/png", "text/plain"]);

    // The omitted image isn't servable; the truncated text is.
    let parts = load_parts(&conn, 3).unwrap();
    assert_eq!(parts.len(), 1);
    assert_eq!(parts[0].0, "text/plain");
    assert!(read_blob(&conn, 3, Some("image/png")).is_none());
    assert_eq!(read_blob(&conn, 3, None).map(|(m, _)| m).as_deref(), Some("text/plain"));
}

#[test]
fn blobs_are_read_as_text_where_there_is_some() {
    let conn = seeded_conn();
    for (mime, byte) in [("STRING", "78"), ("text/plain", "79")] {
        conn.execute(
            &format!("INSERT INTO mime_parts (entry_id, mime, blob) VALUES (2, '{mime}', x'{byte}')"),
            [],
        )
        .unwrap();
    }
    assert_eq!(read_blob(&conn, 2, None), Some(("text/plain".to_string(), vec![0x79])));
}

/// Insert-path behaviour: a truncated text part keeps a searchable blob, an
/// omitted part writes a NULL blob, and an entry containing an omitted part
/// skips dedup (two identical stubs both persist).
#[test]
fn insert_truncated_and_omitted_parts() {
    let conn = schema_conn();
    let make = || {
        CapturedEntry::now(
            Selection::Regular,
            vec![
                CapturedPart {
                    mime: "text/plain".into(),
                    blob: b"prefix".to_vec(),
                    store: PartStore::Truncated,
                },
                CapturedPart {
                    mime: "image/png".into(),
                    blob: Vec::new(),
                    store: PartStore::Omitted,
                },
            ],
        )
    };
    let id1 = insert(&conn, &make()).expect("first insert");
    // Same content again: an omitted part forces insert (no dedup).
    let id2 = insert(&conn, &make()).expect("stub is not deduped");
    assert_ne!(id1, id2);

    // The text prefix is stored and indexed; the image blob is NULL.
    assert_eq!(preview_text(&conn, id1, 100).as_deref(), Some("prefix"));
    let img_blob: Option<Vec<u8>> = conn
        .query_row(
            "SELECT blob FROM mime_parts WHERE entry_id = ?1 AND mime = 'image/png'",
            [id1],
            |r| r.get(0),
        )
        .unwrap();
    assert!(img_blob.is_none(), "omitted part should store NULL blob");
    // Searchable on the kept prefix.
    let hits = find(&conn, "prefix", SearchSort::Relevance, 50, None);
    assert!(hits.iter().any(|e| e.id == id1 && e.oversized));
}

fn text_entry(s: &str) -> CapturedEntry {
    let parts = vec![
        CapturedPart::full("text/plain".into(), s.as_bytes().to_vec()),
        CapturedPart::full("UTF8_STRING".into(), s.as_bytes().to_vec()),
    ];
    CapturedEntry::now(Selection::Regular, parts)
}

#[test]
fn repetitions_are_dropped() {
    let conn = schema_conn();
    let a = insert(&conn, &text_entry("a")).unwrap();
    assert_eq!(insert(&conn, &text_entry("a")), None);
    // The order of the forms does not matter.
    let mut again = text_entry("a");
    again.parts.reverse();
    assert_eq!(insert(&conn, &again), None);
    // Only the latest entry of the same selection counts.
    let mut primary = text_entry("a");
    primary.selection = Selection::Primary;
    assert!(insert(&conn, &primary).is_some());
    assert!(insert(&conn, &text_entry("b")).is_some());
    let c = insert(&conn, &text_entry("a")).unwrap();
    assert!(c > a);
    assert_eq!(list(&conn, 2, Some("regular")).len(), 2);
    assert_eq!(list(&conn, 50, Some("primary")).len(), 1);
}

const DAY: i64 = 86_400_000_000_000;

fn retain(conn: &Connection, now: i64, max_entries: usize, max_age_days: u32) -> usize {
    let entries: Vec<(i64, i64)> = conn
        .prepare(STAMPS_SQL)
        .unwrap()
        .query_map([], |r| Ok((r.get(0)?, r.get(1)?)))
        .unwrap()
        .collect::<rusqlite::Result<_>>()
        .unwrap();
    let gone = sweep(&entries, now, &RetentionConfig { max_entries, max_age_days });
    for id in &gone {
        assert!(delete(conn, *id));
    }
    gone.len()
}

#[test]
fn old_entries_are_swept() {
    let conn = seeded_conn();
    assert_eq!(retain(&conn, DAY + 150, 50, 1), 1);
    assert_eq!(ids(&list(&conn, 50, None)), vec![2]);
    assert_eq!(retain(&conn, DAY + 150, 50, 1), 0);
    let conn = seeded_conn();
    assert_eq!(retain(&conn, 300, 1, 90), 1);
    assert_eq!(ids(&list(&conn, 50, None)), vec![2]);
    assert_eq!(retain(&conn, 300, 1, 90), 0);
    assert_eq!(retain(&conn, 300, 0, 90), 1);
    // Of those that are not too old the largest numbers stay, whatever their stamps.
    let cfg = RetentionConfig { max_entries: 2, max_age_days: 1 };
    let all = vec![(9, DAY), (8, 3), (7, 2 * DAY), (6, 5), (4, 4), (2, 2 * DAY)];
    assert_eq!(sweep(&all, DAY + 4, &cfg), vec![8, 6, 4, 2]);
    assert!(sweep(&vec![(9, DAY), (7, 2 * DAY)], DAY + 4, &cfg).is_empty());
    assert!(sweep(&vec![], 0, &cfg).is_empty());
    assert!(!sweep_due(3599));
    assert!(sweep_due(3600));
    assert_eq!(cutoff(86_400_000_000_000 * 91, 90), 86_400_000_000_000);
    assert_eq!(cutoff(5, 0), 5);
    assert_eq!(cutoff(0, 106_751), -86_400_000_000_000 * 106_751);
    assert_eq!(cutoff(0, 106_752), i64::MIN);
    assert_eq!(cutoff(i64::MIN, 1), i64::MIN);
    assert_eq!(cutoff(1_700_000_000_000_000_000, u32::MAX), i64::MIN);
    // Nothing is older than 200,000 days.
    let conn = seeded_conn();
    assert_eq!(retain(&conn, 1_700_000_000_000_000_000, 50, 200_000), 0);
    assert_eq!(
        RetentionConfig::default(),
        RetentionConfig { max_entries: 10_000, max_age_days: 90 }
    );
}

// ---- captures -------------------------------------------------------------------

#[test]
fn selections_and_stores_have_names() {
    assert_eq!(Selection::Regular.as_str(), "regular");
    assert_eq!(Selection::Primary.as_str(), "primary");
    for s in [PartStore::Full, PartStore::Truncated, PartStore::Omitted] {
        assert_eq!(PartStore::from_i64(s.as_i64()), s);
    }
    assert_eq!(PartStore::Truncated.as_i64(), 1);
    assert_eq!(PartStore::from_i64(9), PartStore::Full);
    assert_eq!(PartStore::from_i64(-1), PartStore::Full);
    assert_eq!(DEFAULT_MAX_PART_BYTES, 16 * 1024 * 1024);
}

#[test]
fn some_forms_are_text() {
    for m in ["text/plain", "text/html;charset=utf-8", "UTF8_STRING", "STRING", "TEXT", "text/"] {
        assert!(is_text_mime(m), "{m}");
    }
    for m in ["image/png", "Text/plain", "application/json", "", "STRINGS"] {
        assert!(!is_text_mime(m), "{m}");
    }
}

#[test]
fn time_stamps_come_from_the_clock() {
    let before = elapsed().unwrap();
    let e = CapturedEntry::now(Selection::Primary, vec![]);
    let after = elapsed().unwrap();
    assert!(before as i64 <= e.ts_unix_ns && e.ts_unix_ns <= after as i64);
    assert_eq!(e.selection, Selection::Primary);
    assert_eq!(stamp_of(Some(17), 0), 17);
    assert_eq!(stamp_of(None, 0), 0);
    assert_eq!(stamp_of(None, i64::MAX), i64::MAX);
    assert_eq!(stamp_of(Some(1u128 << 64), 0), 0);
    let e = CapturedEntry::at(None, Selection::Regular, vec![]);
    assert_eq!(e.ts_unix_ns, 0);
}

#[test]
fn parts_keep_to_the_limit() {
    let p = keep_part("text/plain".into(), b"abc".to_vec(), 3);
    assert_eq!((p.blob, p.store), (b"abc".to_vec(), PartStore::Full));
    let p = keep_part("text/plain".into(), b"abcd".to_vec(), 3);
    assert_eq!((p.blob, p.store), (b"abc".to_vec(), PartStore::Truncated));
    // No character is cut in two.
    let p = keep_part("text/plain".into(), "aé→".as_bytes().to_vec(), 5);
    assert_eq!(p.blob, "aé".as_bytes());
    let p = keep_part("text/plain".into(), "→→".as_bytes().to_vec(), 2);
    assert_eq!((p.blob, p.store), (vec![], PartStore::Truncated));
    let p = keep_part("image/png".into(), b"abcd".to_vec(), 3);
    assert_eq!((p.blob, p.store), (vec![], PartStore::Omitted));
    assert_eq!(p.mime, "image/png");
}

#[test]
fn what_cannot_be_read_is_left_out() {
    let read = |mime: &str, bytes: Option<&[u8]>| ReadPart {
        mime: mime.to_string(),
        bytes: bytes.map(|b| b.to_vec()),
    };
    let parts = keep_parts(
        vec![read("a", Some(b"1")), read("b", None), read("c", Some(b"23456"))],
        4,
    )
    .unwrap();
    assert_eq!(parts.len(), 2);
    assert_eq!(parts[0].mime, "a");
    assert_eq!(parts[1].store, PartStore::Omitted);
    assert!(keep_parts(vec![read("b", None)], 4).is_none());
    assert!(keep_parts(vec![], 4).is_none());
}

#[test]
fn offers_collect_their_forms() {
    let mut o = Offers::new();
    o.data_offer(7);
    o.offer(7, "text/plain".into());
    o.data_offer(8);
    o.offer(7, "STRING".into());
    match o.handle_selection(Some(7)) {
        Change::Read(v) => assert_eq!(v, strings(&["text/plain", "STRING"])),
        _ => panic!(),
    }
    // An offer is read once.
    assert!(matches!(o.handle_selection(Some(7)), Change::Empty));
    assert!(matches!(o.handle_selection(Some(8)), Change::Empty));
    assert!(matches!(o.handle_selection(None), Change::Cleared));
    // A form of an offer that was not announced announces it.
    o.offer(9, "x".into());
    assert!(matches!(o.handle_selection(Some(9)), Change::Read(_)));
    assert!(is_watched(Selection::Regular, false));
    assert!(!is_watched(Selection::Primary, false));
    assert!(is_watched(Selection::Primary, true));
}

#[test]
fn digests_tell_captures_apart() {
    let part = |m: &str, b: &[u8]| CapturedPart::full(m.to_string(), b.to_vec());
    let a = vec![part("b", b"2"), part("a", b"1")];
    let b = vec![part("a", b"1"), part("b", b"2")];
    assert_eq!(canonical_hash(&a), canonical_hash(&b));
    assert_eq!(
        canonical_bytes(&a),
        b"\x01\0\0\0a\x01\0\0\0\0\0\0\x001\x01\0\0\0b\x01\0\0\0\0\0\0\x002".to_vec()
    );
    assert_eq!(canonical_hash(&a), blake3::hash(&canonical_bytes(&a)).as_bytes().to_vec());
    // What is one part is not what is the next.
    assert_ne!(canonical_hash(&vec![part("ab", b"")]), canonical_hash(&vec![part("a", b"b")]));
    assert_eq!(
        canonical_hash(&vec![]),
        blake3::hash(b"").as_bytes().to_vec()
    );
    assert_eq!(canonical_hash(&vec![]).len(), 32);
}

#[test]
fn plain_text_stands_for_a_capture() {
    let part = |m: &str, b: &[u8]| CapturedPart::full(m.to_string(), b.to_vec());
    let pick = |parts: Vec<CapturedPart>| pick_indexable_text(&parts);
    assert_eq!(
        pick(vec![part("text/html", b"<b>"), part("Text/PLAIN", b"x"), part("STRING", b"s")]),
        // The form of text is told by its beginning, in small letters.
        Some("<b>".to_string())
    );
    assert_eq!(
        pick(vec![part("text/html", b"<b>"), part("text/Plain ; charset=utf-8", b"x")]),
        Some("x".to_string())
    );
    assert_eq!(
        pick(vec![part("STRING", b"caf\xe9"), part("text/html", b"<b>")]),
        Some("<b>".to_string())
    );
    assert_eq!(pick(vec![part("STRING", b"caf\xe9")]), Some("caf\u{fffd}".to_string()));
    assert_eq!(pick(vec![part("image/png", b"x")]), None);
    let gone = CapturedPart {
        mime: "text/plain".into(),
        blob: vec![],
        store: PartStore::Omitted,
    };
    assert_eq!(pick(vec![gone]), None);
    assert_eq!(
        pick(vec![part("text/plain", b"first"), part("text/plain;x", b"second")]),
        Some("first".to_string())
    );
}

#[test]
fn entries_are_prepared_for_storage() {
    let mut e = text_entry("hi");
    e.ts_unix_ns = 5;
    assert!(!any_omitted(&e.parts));
    assert_eq!(total_size(&e.parts), 4);
    let n = prepare(&e, &None).unwrap();
    assert_eq!(n.ts_unix_ns, 5);
    assert_eq!(n.selection, "regular");
    assert_eq!(n.size_bytes, 4);
    assert_eq!(n.text.as_deref(), Some("hi"));
    assert_eq!(n.parts.len(), 2);
    assert_eq!(n.parts[0].mime, "text/plain");
    assert_eq!(n.parts[0].blob.as_deref(), Some(&b"hi"[..]));
    assert_eq!(n.parts[0].truncated, 0);
    assert!(prepare(&e, &Some(n.hash)).is_none());
    assert!(prepare(&e, &Some(vec![1, 2])).is_some());
}

// ---- sizes and times ---------------------------------------------------------------

fn float_size(n: i64) -> String {
    const KB: i64 = 1024;
    const MB: i64 = KB * 1024;
    if n >= MB {
        format!("{:.1}M", n as f64 / MB as f64)
    } else if n >= KB {
        format!("{:.1}K", n as f64 / KB as f64)
    } else {
        format!("{n}B")
    }
}

#[test]
fn sizes_are_for_people() {
    assert_eq!(human_size(512), "512B");
    assert_eq!(human_size(1536), "1.5K");
    assert_eq!(human_size(3_355_443), "3.2M");
    assert_eq!(human_size(-5), "-5B");
    // Halves go to the even digit.
    assert_eq!(human_size(1024 + 256), "1.2K");
    assert_eq!(human_size(1024 + 768), "1.8K");
}

#[test]
fn sizes_agree_with_floating_point() {
    let mut n: i64 = 1;
    for i in 0..20_000i64 {
        for m in [n, i * 51 + 1000, n.wrapping_mul(3), i * 104_857 + 1_000_000] {
            assert_eq!(human_size(m), float_size(m), "{m}");
        }
        n = n.wrapping_mul(6364136223846793005).wrapping_add(1442695040888963407);
    }
    for m in [i64::MAX, i64::MIN, (1 << 53) - 1, 1 << 53, (1 << 53) + 1, (1 << 53) + 3, 1 << 62] {
        assert_eq!(human_size(m), float_size(m), "{m}");
    }
}

/// The seconds from the start of 1970 to the time that `t` writes, were it in UTC.
fn civil_seconds(t: &str) -> i64 {
    let at = |i: usize, n: usize| t[i..i + n].parse::<i64>().unwrap();
    let leap = |y: i64| y % 4 == 0 && (y % 100 != 0 || y % 400 == 0);
    let year = at(0, 4);
    let mut days = 0;
    for y in year.min(1970)..year.max(1970) {
        days += if leap(y) { 366 } else { 365 };
    }
    if year < 1970 {
        days = -days;
    }
    let february = if leap(year) { 29 } else { 28 };
    let months = [31, february, 31, 30, 31, 30, 31, 31, 30, 31, 30, 31];
    days += months[..at(5, 2) as usize - 1].iter().sum::<i64>() + at(8, 2) - 1;
    days * 86_400 + at(11, 2) * 3_600 + at(14, 2) * 60 + at(17, 2)
}

#[test]
fn times_fall_back_to_seconds() {
    assert_eq!(seconds_of(1_999_999_999), 1);
    assert_eq!(seconds_of(-1_999_999_999), -1);
    assert_eq!(time_or_seconds(None, -7), "@-7");
    assert_eq!(time_or_seconds(Some("x".into()), -7), "x");
    // The local time has a fixed form.
    let t = fmt_ts(1_700_000_000_000_000_000);
    assert_eq!(t.len(), 19);
    assert!(t.starts_with("2023-11-1"), "{t}");
    assert_eq!(&t[10..11], " ");
    for ns in [
        i64::MIN,
        -1,
        0,
        951_782_400_000_000_000,
        1_700_000_000_000_000_000,
        4_107_542_399_999_999_999,
        i64::MAX,
    ] {
        let t = fmt_ts(ns);
        assert_eq!(t.len(), 19, "{t}");
        let off = civil_seconds(&t) - seconds_of(ns);
        assert!(-86_400 < off && off < 86_400, "{t}");
        for (i, c) in t.chars().enumerate() {
            let fits = match i {
                4 | 7 => c == '-',
                10 => c == ' ',
                13 | 16 => c == ':',
                _ => c.is_ascii_digit(),
            };
            assert!(fits, "{t}");
        }
    }
}

// ---- lists and searches ---------------------------------------------------------------

fn candidate(id: i64, text: &str) -> Candidate {
    Candidate {
        id,
        ts_unix_ns: id * 10,
        selection: "regular".into(),
        size_bytes: 3,
        text: Some(text.to_string()),
    }
}

#[test]
fn finds_come_best_first() {
    let pool = vec![
        candidate(5, "a b c commit"),
        candidate(4, "unrelated"),
        candidate(3, "commit"),
        candidate(2, "commit"),
        Candidate { text: None, ..candidate(1, "") },
    ];
    let rows = search(&pool, "commit", SearchSort::Recent, 10);
    assert_eq!(rows.iter().map(|r| r.id).collect::<Vec<_>>(), vec![5, 3, 2]);
    let rows = search(&pool, "commit", SearchSort::Relevance, 10);
    assert_eq!(rows.len(), 3);
    // Of two that match alike the newer stands first.
    let at = |id: i64| rows.iter().position(|r| r.id == id).unwrap();
    assert!(at(3) < at(2));
    assert_eq!(rows[at(3)].snippet.as_deref(), Some("‹commit›"));
    assert_eq!(rows[at(3)].ts_unix_ns, 30);
    assert_eq!(search(&pool, "commit", SearchSort::Relevance, 2).len(), 2);
    assert!(search(&pool, "commit", SearchSort::Relevance, 0).is_empty());
}

#[test]
fn searches_look_at_the_beginning() {
    let long = format!("{}needle", "x".repeat(4096));
    assert!(search(&vec![candidate(1, &long)], "needle", SearchSort::Recent, 9).is_empty());
    let fits = format!("{}needle", "x".repeat(4090));
    let rows = search(&vec![candidate(1, &fits)], "needle", SearchSort::Recent, 9);
    assert!(rows[0].snippet.as_deref().unwrap().ends_with("‹needle›"));
    assert_eq!(prefix_chars("aé→", 2), "aé");
    assert_eq!(prefix_chars("aé→", 3), "aé→");
    assert_eq!(wanted("  a b "), Some("a b".to_string()));
    assert_eq!(wanted(" \t"), None);
}

#[test]
fn limits_are_capped() {
    assert_eq!(list_limit(50), 50);
    assert_eq!(list_limit(usize::MAX), 10_000);
    assert_eq!(
        forms_sql(3),
        "SELECT entry_id, mime, truncated FROM mime_parts WHERE entry_id IN (?,?,?) ORDER BY \
         entry_id, mime"
    );
}

#[test]
fn forms_go_to_their_entries() {
    let rows: Vec<Row> = [3, 1, 3]
        .iter()
        .map(|id| Row {
            id: *id,
            ts_unix_ns: 0,
            selection: "regular".into(),
            size_bytes: 0,
            snippet: None,
        })
        .collect();
    let form = |entry_id: i64, mime: &str, truncated: i64| Form {
        entry_id,
        mime: mime.to_string(),
        truncated,
    };
    let e = attach_mimes(&rows, &vec![form(1, "a", 0), form(3, "b", 0), form(3, "c", 2)]);
    assert_eq!(e[0].mimes, strings(&["b", "c"]));
    assert!(e[0].oversized);
    assert_eq!(e[1].mimes, strings(&["a"]));
    assert!(!e[1].oversized);
    assert!(e[2].mimes.is_empty() && !e[2].oversized);
    assert!(attach_mimes(&vec![], &vec![]).is_empty());
    assert_eq!(pick_mime(&strings(&["image/png", "text/html"])).as_deref(), Some("text/html"));
    assert_eq!(pick_mime(&strings(&["image/png", "video/x"])).as_deref(), Some("image/png"));
    assert_eq!(pick_mime(&vec![]), None);
    // Text under the names of older programs is not below `text/`.
    assert_eq!(pick_mime(&strings(&["STRING", "text/plain"])).as_deref(), Some("text/plain"));
    assert_eq!(pick_mime(&strings(&["STRING", "image/png"])).as_deref(), Some("STRING"));
    assert_eq!(pick_mime(&strings(&["text", "a/text/"])).as_deref(), Some("text"));
}

// ---- the protocol -------------------------------------------------------------------------

#[test]
fn requests_become_jobs() {
    assert!(matches!(dispatch(Request::Ping), Job::Nothing));
    assert!(matches!(
        dispatch(Request::List { limit: None, selection: None }),
        Job::List { limit: 50, selection: None }
    ));
    for sort in [SearchSort::Recent, SearchSort::Relevance] {
        assert!(matches!(
            dispatch(Request::Search {
                query: "  ".into(),
                sort,
                limit: Some(7),
                selection: None
            }),
            Job::List { limit: 7, selection: None }
        ));
    }
    match dispatch(Request::Search {
        query: " a ".into(),
        sort: SearchSort::Recent,
        limit: None,
        selection: Some("primary".into()),
    }) {
        Job::Search { query, sort, limit, selection } => {
            assert_eq!(query, "a");
            assert_eq!(sort, SearchSort::Recent);
            assert_eq!(limit, 50);
            assert_eq!(selection.as_deref(), Some("primary"));
        }
        _ => panic!(),
    }
    assert!(matches!(
        dispatch(Request::Copy { id: 3, selection: Some("primary".into()), mime: None }),
        Job::Serve { id: 3, to: Selection::Primary, mime: None }
    ));
    assert!(matches!(
        dispatch(Request::Copy { id: 3, selection: None, mime: None }),
        Job::Serve { id: 3, to: Selection::Regular, mime: None }
    ));
    assert!(matches!(dispatch(Request::Get { id: 4 }), Job::Get { id: 4 }));
    assert!(matches!(dispatch(Request::Delete { id: 4 }), Job::Delete { id: 4 }));
    assert!(matches!(
        dispatch(Request::ReadBlob { id: 4, mime: None }),
        Job::ReadBlob { id: 4, mime: None }
    ));
    assert_eq!(SearchSort::default(), SearchSort::Relevance);
}

fn said(r: &Response) -> &str {
    match r {
        Response::Error { message } => message,
        _ => panic!(),
    }
}

fn meta(id: i64, mimes: &[&str]) -> EntryMeta {
    EntryMeta {
        id,
        ts_unix_ns: 0,
        selection: "regular".into(),
        mimes: strings(mimes),
        size_bytes: 1536,
        snippet: None,
        oversized: false,
    }
}

#[test]
fn every_request_is_answered() {
    assert_eq!(said(&bad_request("no json")), "bad request: no json");
    assert!(matches!(entries_response(Ok(vec![])), Response::Entries { entries } if entries.is_empty()));
    assert_eq!(said(&entries_response(Err("db".into()))), "db");
    assert!(matches!(
        entry_response(7, Ok(Some(meta(7, &[])))),
        Response::Entry { entry } if entry.id == 7
    ));
    assert_eq!(said(&entry_response(7, Ok(None))), "no entry with id 7");
    assert_eq!(said(&entry_response(7, Err("db".into()))), "db");
    let (r, body) = blob_response(7, Ok(Some(("text/plain".into(), vec![1, 2, 3]))));
    assert!(matches!(r, Response::BlobHeader { len: 3, .. }));
    assert_eq!(body, vec![1, 2, 3]);
    let (r, body) = blob_response(-7, Ok(None));
    assert_eq!(said(&r), "no blob for id -7");
    assert!(body.is_empty());
    assert_eq!(said(&blob_response(7, Err("db".into())).0), "db");
    assert!(matches!(delete_response(7, Ok(true)), Response::Done));
    assert_eq!(said(&delete_response(7, Ok(false))), "no entry with id 7");
    assert_eq!(said(&delete_response(7, Err("db".into()))), "db");
}

#[test]
fn copies_serve_what_was_kept() {
    let parts = || vec![("a".to_string(), vec![1]), ("b".to_string(), vec![2])];
    assert!(matches!(serve_parts(1, &None, Ok(Some(parts()))), Serving::Parts(p) if p == parts()));
    assert!(matches!(
        serve_parts(1, &Some("b".into()), Ok(Some(parts()))),
        Serving::Parts(p) if p == vec![("b".to_string(), vec![2])]
    ));
    match serve_parts(1, &Some("c".into()), Ok(Some(parts()))) {
        Serving::Refuse(r) => assert_eq!(said(&r), "nothing to copy for id 1"),
        _ => panic!(),
    }
    match serve_parts(1, &None, Ok(None)) {
        Serving::Refuse(r) => assert_eq!(said(&r), "no entry with id 1"),
        _ => panic!(),
    }
    match serve_parts(1, &None, Err("db".into())) {
        Serving::Refuse(r) => assert_eq!(said(&r), "db"),
        _ => panic!(),
    }
}

#[test]
fn a_running_daemon_is_left_alone() {
    assert_eq!(bind_clean(false, false), Bind::Free);
    assert_eq!(bind_clean(true, false), Bind::Stale);
    assert_eq!(bind_clean(true, true), Bind::Taken);
    assert_eq!(taken_message("/x"), "another hugind appears to be running at /x");
}

#[test]
fn clients_learn_of_refusals() {
    assert!(matches!(request_ok(Response::Done), Confirmation::Confirmed));
    assert!(matches!(
        request_ok(Response::Error { message: "no".into() }),
        Confirmation::Refused(m) if m == "no"
    ));
    assert!(matches!(
        request_ok(Response::Entries { entries: vec![] }),
        Confirmation::Unexpected(Response::Entries { .. })
    ));
}

// ---- the command line -----------------------------------------------------------------------

#[test]
fn the_daemon_has_places() {
    let mut args = DaemonArgs {
        db: None,
        socket: None,
        max_entries: 5,
        max_age_days: 6,
        max_part_bytes: DEFAULT_MAX_PART_BYTES,
        primary: false,
    };
    let mut env = Environment {
        xdg_data_home: Some(b"/d".to_vec()),
        xdg_config_home: None,
        xdg_cache_home: None,
        xdg_runtime_dir: None,
        home: None,
    };
    assert_eq!(args.db_path(&env), Ok(b"/d/hugin/hugin.db".to_vec()));
    assert_eq!(default_db_path(&env), Ok(b"/d/hugin/hugin.db".to_vec()));
    assert_eq!(args.socket_path(&env), b"/tmp/hugin.sock".to_vec());
    env.xdg_data_home = None;
    assert_eq!(args.db_path(&env), Err(NoBase::Data));
    env.xdg_runtime_dir = Some(b"/run".to_vec());
    assert_eq!(default_socket_path(&env), b"/run/hugin.sock".to_vec());
    args.db = Some(b"x.db".to_vec());
    args.socket = Some(b"y".to_vec());
    assert_eq!(args.db_path(&env), Ok(b"x.db".to_vec()));
    assert_eq!(args.socket_path(&env), b"y".to_vec());
    assert_eq!(args.retention(), RetentionConfig { max_entries: 5, max_age_days: 6 });
}

#[test]
fn entries_are_printed_as_a_table() {
    assert_eq!(header_line(), "ID     TIME                SEL      SIZE      SNIPPET");
    let mut e = meta(12, &["image/png", "image/bmp"]);
    assert_eq!(
        entry_line(&e, "2024-01-02 03:04:05"),
        "12     2024-01-02 03:04:05 regular  1.5K      (2 MIMEs)"
    );
    e.snippet = Some("a\nb\t‹c".into());
    assert_eq!(
        entry_line(&e, "@1"),
        "12     @1                  regular  1.5K      a↵b ‹c›"
    );
    // Cut behind 60 characters, and made safe.
    let long = format!("‹{}›", "x".repeat(70));
    assert_eq!(label_of(&long), format!("‹{}›", "x".repeat(59)));
    assert_eq!(label_of("\x1b[31m"), "^[[31m");
    assert_eq!(label_of("›"), "›");
}

#[test]
fn one_entry_is_printed_in_full() {
    let mut e = meta(12, &["a", "b"]);
    assert_eq!(
        info_lines(&e, "now"),
        strings(&[
            "id:        12",
            "time:      now",
            "selection: regular",
            "size:      1536 bytes (1.5K)",
            "mimes:",
            "  - a",
            "  - b",
        ])
    );
    e.snippet = Some(format!("{}\n\x1b", "y".repeat(198)));
    assert_eq!(
        info_lines(&e, "now")[7],
        format!("snippet:   {}\n^[", "y".repeat(198))
    );
}

#[test]
fn defaults_of_the_picker() {
    let c = load_or_default(Loaded::Malformed);
    assert_eq!(c, Config::default());
    assert_eq!(c.limit, 200);
    assert_eq!(c.layout, Layout::Bottom);
    assert_eq!(c.sort, SearchSort::Relevance);
    assert!(c.preview);
    let mine = Config { limit: 3, ..c };
    assert_eq!(load_or_default(Loaded::Parsed(mine)), mine);
}

// ---- the picker -----------------------------------------------------------------------------

fn press(code: KeyCode, ctrl: bool) -> KeyEvent {
    KeyEvent { code, ctrl, alt: false, shift: false, kind: KeyEventKind::Press }
}

fn letter(c: char) -> KeyEvent {
    press(KeyCode::Char(c), false)
}

fn control(c: char) -> KeyEvent {
    press(KeyCode::Char(c), true)
}

fn picker(layout: Layout) -> State {
    let mut s = State::new(String::new(), None, SearchSort::Relevance);
    let found = vec![meta(9, &["text/plain", "STRING"]), meta(5, &["image/png"]), meta(2, &[])];
    s.refresh_results(found, layout);
    s
}

#[test]
fn the_best_find_is_next_to_the_prompt() {
    let s = picker(Layout::Bottom);
    assert_eq!(ids(&s.results), vec![2, 5, 9]);
    assert_eq!(s.selected_entry().map(|e| e.id), Some(9));
    let s = picker(Layout::Top);
    assert_eq!(ids(&s.results), vec![9, 5, 2]);
    assert_eq!(s.selected_entry().map(|e| e.id), Some(9));
    let mut s = picker(Layout::Top);
    s.refresh_results(vec![], Layout::Bottom);
    assert_eq!(s.selected, None);
}

#[test]
fn entries_are_copied_and_printed() {
    let mut s = picker(Layout::Top);
    assert!(matches!(
        s.handle_key(press(KeyCode::Enter, false)),
        Step::Copy(Request::Copy { id: 9, selection: None, mime: None })
    ));
    assert!(matches!(s.copied(Err("down".into())), Step::Continue));
    assert_eq!(s.status_line(), " copy failed: down");
    assert!(matches!(s.copied(Ok(())), Step::Accept(Outcome::Copied)));
    assert!(matches!(
        s.handle_key(press(KeyCode::Tab, false)),
        Step::Accept(Outcome::Print(9))
    ));
    assert!(matches!(
        s.handle_key(press(KeyCode::Esc, false)),
        Step::Accept(Outcome::Cancel)
    ));
    assert!(matches!(s.handle_key(control('d')), Step::Accept(Outcome::Cancel)));
    // A key that comes up does nothing.
    let up = KeyEvent { kind: KeyEventKind::Release, ..press(KeyCode::Esc, false) };
    assert!(matches!(s.handle_key(up), Step::Continue));
}

#[test]
fn forms_can_be_chosen() {
    let mut s = picker(Layout::Top);
    assert!(matches!(s.handle_key(control('o')), Step::Continue));
    assert!(!s.shows_cursor());
    assert_eq!(s.status_line(), " choose MIME  ·  Enter copy · Esc back");
    match &s.mode {
        Mode::MimeChooser { mimes, sel } => {
            assert_eq!(*mimes, strings(&["STRING", "text/plain"]));
            assert_eq!(*sel, 0);
        }
        _ => panic!(),
    }
    s.handle_key(letter('n'));
    s.handle_key(press(KeyCode::Down, false));
    match s.handle_key(press(KeyCode::Enter, false)) {
        Step::Copy(Request::Copy { id, mime, .. }) => {
            assert_eq!(id, 9);
            assert_eq!(mime.as_deref(), Some("text/plain"));
        }
        _ => panic!(),
    }
    assert!(s.shows_cursor());
    s.handle_key(control('o'));
    s.handle_key(letter('p'));
    s.handle_key(control('g'));
    assert!(matches!(s.mode, Mode::Normal));
    // An entry with one form is copied at once.
    s.handle_key(press(KeyCode::Down, false));
    match s.handle_key(control('o')) {
        Step::Copy(Request::Copy { id, mime, .. }) => {
            assert_eq!((id, mime.as_deref()), (5, Some("image/png")));
        }
        _ => panic!(),
    }
    s.handle_key(press(KeyCode::Down, false));
    assert!(matches!(
        s.handle_key(control('o')),
        Step::Copy(Request::Copy { id: 2, mime: None, .. })
    ));
}

#[test]
fn deleting_needs_a_yes() {
    let mut s = picker(Layout::Top);
    s.handle_key(control('x'));
    assert_eq!(s.status_line(), " delete entry #9 from history?  (y/n)");
    assert!(matches!(s.handle_key(letter('n')), Step::Continue));
    assert!(matches!(s.mode, Mode::Normal));
    s.handle_key(control('x'));
    assert!(matches!(
        s.handle_key(letter('Y')),
        Step::Delete(Request::Delete { id: 9 })
    ));
    assert!(matches!(s.deleted(Ok(())), Step::Refresh));
    assert_eq!(s.status_line(), " deleted");
    assert!(matches!(s.deleted(Err("down".into())), Step::Continue));
    assert_eq!(s.status_line(), " delete failed: down");
    // There is nothing to delete in an empty list.
    s.refresh_results(vec![], Layout::Top);
    s.handle_key(control('x'));
    assert!(matches!(s.mode, Mode::Normal));
}

#[test]
fn typing_searches_anew() {
    let mut s = picker(Layout::Top);
    s.status = Some("old".into());
    assert!(matches!(s.handle_key(letter('a')), Step::Refresh));
    assert_eq!(s.status, None);
    assert_eq!(
        s.status_line(),
        " 3 matches  [relevance]   Enter copy · Tab stdout · ^O mime · ^X delete · ^R sort · Esc \
         cancel"
    );
    assert!(matches!(s.handle_key(control('r')), Step::Refresh));
    assert_eq!(s.sort, SearchSort::Recent);
    assert!(matches!(s.handle_key(control('k')), Step::Continue));
    assert!(matches!(s.handle_key(control('a')), Step::Continue));
    assert!(matches!(s.handle_key(control('d')), Step::Refresh));
    assert!(matches!(s.handle_key(control('u')), Step::Continue));
    assert!(matches!(s.handle_key(press(KeyCode::PageDown, false)), Step::Continue));
    assert_eq!(s.selected, Some(2));
    s.refresh_results(vec![meta(1, &[])], Layout::Top);
    assert!(s.status_line().starts_with(" 1 match  [recent]"));
}

#[test]
fn the_preview_follows_the_selection() {
    let mut s = picker(Layout::Top);
    assert_eq!(s.preview_body(), "");
    assert_eq!(s.preview_needed(), Some(9));
    s.set_preview(Some("a\n\x1b[0m".into()));
    assert_eq!(s.preview_body(), "a\n^[[0m");
    assert_eq!(s.preview_needed(), None);
    s.handle_key(press(KeyCode::Down, false));
    assert_eq!(s.preview_needed(), Some(5));
    s.set_preview(None);
    assert_eq!(s.preview_body(), "[binary entry]\n\nsize:  1.5K\nmimes:\n  - image/png");
    s.refresh_results(vec![], Layout::Top);
    assert_eq!(s.preview_needed(), None);
    assert_eq!(s.preview_body(), "");
    assert!(preview_fits(true, 51));
    assert!(!preview_fits(true, 50));
    assert!(!preview_fits(false, 80));
}

#[test]
fn rows_show_text_or_forms() {
    let mut e = meta(1, &["image/png", "image/bmp"]);
    let r = render_row(&e);
    assert_eq!(r.head, "C    1.5K  ");
    assert_eq!(r.runs[0].text, "[image/png, image/bmp]");
    assert!(r.dim);
    e.selection = "primary".into();
    e.snippet = Some("‹git› \n".into());
    let r = render_row(&e);
    assert_eq!(r.head, "P    1.5K  ");
    assert_eq!(r.runs[0].text, "git");
    assert!(r.runs[0].matched);
    assert_eq!(r.runs[1].text, " ↵");
    assert!(!r.dim);
    assert_eq!(picker(Layout::Top).list_rows().len(), 3);
}
