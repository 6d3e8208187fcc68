//! Text made safe, fuzzy matching, base directories, shells and schemas.

use levelup::base::completions::{choose_shell, detect_shell, Shell};
use levelup::base::fuzzy::{find_match, highlight_indices, matcher, score};
use levelup::base::sanitize::{sanitize_display, sanitize_multiline};
use levelup::base::sqlite::ensure_compatible_schema;
use levelup::base::xdg::{
    cache_file, cache_home, config_file, config_home, data_file, data_home, join_path, runtime_dir,
    runtime_file, Environment, NoBase,
};
use rusqlite::{Connection, OptionalExtension};

// ---- text made safe ---------------------------------------------------------

#[test]
fn sanitize_neutralizes_control_bytes() {
    assert_eq!(sanitize_display("a\x1b[?1003hb"), "a^[[?1003hb");
    assert_eq!(sanitize_display("x\ty\nz"), "x y\u{21B5}z");
    assert_eq!(sanitize_display("a\x7fb"), "a^?b");
    assert_eq!(sanitize_display("plain ‹m›"), "plain ‹m›");
}

#[test]
fn lib_sanitize_neutralizes_control_bytes() {
    assert_eq!(sanitize_display("a\x1b[?1003hb"), "a^[[?1003hb");
    assert_eq!(sanitize_display("x\ty\nz"), "x y\u{21B5}z");
    assert_eq!(sanitize_display("a\x7fb\u{0085}c"), "a^?b\u{FFFD}c");
    // The ‹› highlight markers must pass through untouched.
    assert_eq!(sanitize_display("git ‹commit›"), "git ‹commit›");
}

#[test]
fn sanitize_multiline_keeps_layout_whitespace() {
    // Newlines and tabs survive (the preview pane needs them); ESC doesn't.
    assert_eq!(sanitize_multiline("a\nb\tc\x1b[0m"), "a\nb\tc^[[0m");
}

#[test]
fn every_control_character_has_a_stand_in() {
    assert_eq!(sanitize_display("\0\x01\x1f"), "^@^A^_");
    assert_eq!(sanitize_display("\r"), "^M");
    assert_eq!(sanitize_multiline("\r\u{9f}\x7f"), "^M\u{FFFD}^?");
    let all: String = (0u32..0xa0).filter_map(char::from_u32).collect();
    assert!(sanitize_display(&all).chars().all(|c| !c.is_control()));
    // What is safe stays as it is, also a second time.
    let once = sanitize_display(&all);
    assert_eq!(sanitize_display(&once), once);
    assert_eq!(sanitize_display("héllo ✓"), "héllo ✓");
    assert_eq!(sanitize_display(""), "");
}

// ---- fuzzy matching ------------------------------------------------------------

#[test]
fn highlight_wraps_contiguous_and_split_runs() {
    assert_eq!(highlight_indices("git commit", &vec![0, 1, 2]), "‹git› commit");
    assert_eq!(highlight_indices("abcd", &vec![0, 2]), "‹a›b‹c›d");
    // Multi-byte: index 3 is 'é'; the marker lands on the char, not bytes.
    assert_eq!(highlight_indices("café x", &vec![3]), "caf‹é› x");
}

#[test]
fn highlight_edge_cases() {
    assert_eq!(highlight_indices("abc", &vec![]), "abc");
    assert_eq!(highlight_indices("", &vec![0, 1]), "");
    assert_eq!(highlight_indices("abc", &vec![2]), "ab‹c›");
    assert_eq!(highlight_indices("abc", &vec![0, 1, 2]), "‹abc›");
    assert_eq!(highlight_indices("abc", &vec![1, 9]), "a‹b›c");
    // A position that does not grow ends the marking.
    assert_eq!(highlight_indices("abcd", &vec![0, 0, 2]), "‹a›bcd");
}

#[test]
fn matches_are_subsequences() {
    let mut m = matcher();
    assert!(score(&mut m, "gcm", "git commit -m").is_some());
    assert!(score(&mut m, "xyz", "git commit -m").is_none());
    // Capitals in the query count.
    assert!(score(&mut m, "git", "GIT").is_some());
    assert!(score(&mut m, "GIT", "git").is_none());
    let (found, mut at) = find_match(&mut m, "gcm", "git commit -m").unwrap();
    at.sort();
    assert_eq!(Some(found), score(&mut m, "gcm", "git commit -m"));
    assert_eq!(at.len(), 3);
    assert_eq!(at[0], 0);
    assert_eq!(at[1], 4);
    // One matcher gives the same answer again.
    assert_eq!(score(&mut m, "gcm", "git commit -m"), Some(found));
}

#[test]
fn scores_that_do_not_fit_match_nothing() {
    let mut m = matcher();
    let q = "a".repeat(2520);
    assert_eq!(score(&mut m, &q, &q), Some(36 + 26 * 2519));
    // One letter more, and the score at the start of a word leaves 16 bits.
    let q = "a".repeat(2521);
    assert!(score(&mut m, &q, &q).is_none());
    assert!(find_match(&mut m, &q, &q).is_none());
    // Inside a word each letter is worth less.
    assert_eq!(score(&mut m, &q, &format!("x{q}x")), Some(50_416));
    assert_eq!(find_match(&mut m, &q, &format!("x{q}")).unwrap().1.len(), 2521);
    assert_eq!(score(&mut m, &q, &format!("x{}", "a".repeat(9000))), Some(50_416));
    assert_eq!(score(&mut m, &"a".repeat(3276), &format!("x{}", "a".repeat(3276))), Some(65_516));
    assert!(score(&mut m, &"a".repeat(3277), &format!("x{}", "a".repeat(3277))).is_none());
    // Apart from each other even more of them fit.
    assert!(score(&mut m, &"a".repeat(9000), &"xxxxxxxxxxxxxxxxxxa".repeat(9000)).is_some());
    // Behind a sign, a divider.
    let q = "a".repeat(2600);
    assert_eq!(score(&mut m, &q, &format!("x-{q}")), Some(32 + 24 * 2599));
    assert_eq!(score(&mut m, &q, &format!("x/{q}")), Some(34 + 25 * 2599));
    // What is longer than the text does not match it, and may be asked not to.
    assert!(score(&mut m, &q, "a").is_none());
    assert_eq!(score(&mut m, &format!("!{q}"), "a"), Some(0));
    // Each word counts by itself.
    let many = "ab ".repeat(2000);
    assert!(score(&mut m, &many, "ab").is_some());
    assert!(find_match(&mut m, &many, "ab").is_some());
    // A backslash counts twice beside letters beyond ASCII.
    let odd = format!("é{}", "\\a".repeat(1259));
    let text = format!("é{}", "\\\\a".repeat(1259));
    assert!(score(&mut m, &odd, &text).is_none());
}

#[test]
fn accents_and_folds_are_matched() {
    let mut m = matcher();
    assert!(score(&mut m, "sé", "s é").is_some());
    assert!(score(&mut m, "größe", "die Größe in µm").is_some());
    assert!(score(&mut m, "σ", "ς").is_some());
    assert!(score(&mut m, "s", "ſ s").is_some());
    assert!(score(&mut m, "e", "é").is_some());
    assert!(score(&mut m, "é", "e").is_none());
    // Each word is matched by itself: only the first with its accents.
    assert!(score(&mut m, "é s", "éſs").is_some());
    assert!(find_match(&mut m, "é s", "éſs").is_some());
    // A small letter that folds to another is missed, which matters in the first place
    // alone, and there not where capitals count or the letters stand together.
    assert!(score(&mut m, "sé", "s ſ é").is_some());
    assert!(score(&mut m, "Sé", "ſ S é").is_some());
    assert!(score(&mut m, "sé", "xſé").is_some());
    assert!(score(&mut m, "'sé", "ſ séx").is_some());
    assert!(score(&mut m, "sé", "ſé").is_some());
    assert!(score(&mut m, "xé s", "ſ x é s").is_some());
    assert!(score(&mut m, "sé", &format!("ſ{}sé", " ".repeat(60_000))).is_some());
    assert!(score(&mut m, "sé", "ſ s é").is_none());
    assert!(find_match(&mut m, "sé", "ſ s é").is_none());
    assert!(score(&mut m, "σé", "ς σ é").is_none());
    assert!(score(&mut m, "Ꭰé", "ꭰ Ꭰ é").is_none());
    assert!(score(&mut m, "Ᏸé", "ᏸ Ᏸ é").is_none());
}

// ---- base directories -----------------------------------------------------------

fn bytes(s: &str) -> Vec<u8> {
    s.as_bytes().to_vec()
}

fn bare() -> Environment {
    Environment {
        xdg_data_home: None,
        xdg_config_home: None,
        xdg_cache_home: None,
        xdg_runtime_dir: None,
        home: None,
    }
}

#[test]
fn base_directories_come_from_their_variables() {
    let env = Environment {
        xdg_data_home: Some(bytes("/d")),
        xdg_config_home: Some(bytes("/c/")),
        xdg_cache_home: Some(bytes("k")),
        xdg_runtime_dir: Some(bytes("/run/user/1000")),
        home: None,
    };
    assert_eq!(data_home(&env), Ok(bytes("/d")));
    assert_eq!(config_home(&env), Ok(bytes("/c/")));
    assert_eq!(cache_home(&env), Ok(bytes("k")));
    assert_eq!(runtime_dir(&env), bytes("/run/user/1000"));
    assert_eq!(data_file(&env, &bytes("app"), &bytes("f.db")), Ok(bytes("/d/app/f.db")));
    assert_eq!(config_file(&env, &bytes("app")), Some(bytes("/c/app/config.toml")));
    assert_eq!(cache_file(&env, &bytes("app"), &bytes("x")), Some(bytes("k/app/x")));
    assert_eq!(runtime_file(&env, &bytes("a.sock")), bytes("/run/user/1000/a.sock"));
}

#[test]
fn base_directories_fall_back_to_home() {
    let env = Environment { home: Some(bytes("/home/u")), ..bare() };
    assert_eq!(data_home(&env), Ok(bytes("/home/u/.local/share")));
    assert_eq!(config_home(&env), Ok(bytes("/home/u/.config")));
    assert_eq!(cache_home(&env), Ok(bytes("/home/u/.cache")));
    assert_eq!(runtime_dir(&env), bytes("/tmp"));
    assert_eq!(runtime_file(&env, &bytes("a.sock")), bytes("/tmp/a.sock"));
}

#[test]
fn base_directories_can_be_unknown() {
    let env = bare();
    assert_eq!(data_home(&env), Err(NoBase::Data));
    assert_eq!(config_home(&env), Err(NoBase::Config));
    assert_eq!(cache_home(&env), Err(NoBase::Cache));
    assert_eq!(data_file(&env, &bytes("a"), &bytes("b")), Err(NoBase::Data));
    assert_eq!(config_file(&env, &bytes("a")), None);
    assert_eq!(cache_file(&env, &bytes("a"), &bytes("b")), None);
    assert_eq!(NoBase::Data.message(), "neither XDG_DATA_HOME nor HOME is set");
    assert_eq!(NoBase::Config.message(), "neither XDG_CONFIG_HOME nor HOME is set");
    assert_eq!(NoBase::Cache.message(), "neither XDG_CACHE_HOME nor HOME is set");
}

#[test]
fn paths_join_as_the_system_joins_them() {
    for base in ["", "/", "/a", "/a/", "a"] {
        for rest in ["b", "b/c", "/abs", ""] {
            let want = std::path::Path::new(base).join(rest);
            assert_eq!(
                join_path(&bytes(base), &bytes(rest)),
                bytes(want.to_str().unwrap()),
                "{base:?} {rest:?}"
            );
        }
    }
}

// ---- shells -----------------------------------------------------------------------

#[test]
fn shells_are_told_by_the_last_part_of_their_path() {
    let at = |s: &str| detect_shell(&Some(s.to_string()));
    assert_eq!(at("/usr/bin/zsh"), Some(Shell::Zsh));
    assert_eq!(at("/bin/bash"), Some(Shell::Bash));
    assert_eq!(at("fish"), Some(Shell::Fish));
    assert_eq!(at("/opt/elvish/"), Some(Shell::Elvish));
    assert_eq!(at("/usr/bin/powershell/."), Some(Shell::PowerShell));
    assert_eq!(at("/bin/sh"), None);
    assert_eq!(at("/bin/ZSH"), None);
    assert_eq!(at("/bin/zsh/.."), None);
    assert_eq!(at(""), None);
    assert_eq!(at("/"), None);
    assert_eq!(detect_shell(&None), None);
}

#[test]
fn a_shell_that_is_given_wins() {
    let zsh = Some("/bin/zsh".to_string());
    assert_eq!(choose_shell(Some(Shell::Bash), &zsh, "hugin"), Ok(Shell::Bash));
    assert_eq!(choose_shell(None, &zsh, "hugin"), Ok(Shell::Zsh));
    assert_eq!(
        choose_shell(None, &None, "hugin"),
        Err("could not detect shell from $SHELL; pass one explicitly (e.g. `hugin completions zsh`)"
            .to_string())
    );
}

// ---- schemas ------------------------------------------------------------------------

fn table_exists(conn: &Connection, name: &str) -> bool {
    conn.query_row(
        "SELECT 1 FROM sqlite_master WHERE type IN ('table','view') AND name = ?1",
        [name],
        |_| Ok(true),
    )
    .optional()
    .unwrap()
    .unwrap_or(false)
}

fn check(conn: &Connection, path: &str, version: i32, table: &str) -> Result<(), String> {
    let found: i32 = conn.query_row("PRAGMA user_version", [], |r| r.get(0)).unwrap();
    ensure_compatible_schema(found, table_exists(conn, table), path, version)
}

#[test]
fn fresh_db_passes_then_version_is_enforced() {
    let conn = Connection::open_in_memory().unwrap();
    let path = ":memory:";
    // Fresh (no sentinel table, version 0) → OK.
    assert!(check(&conn, path, 1, "entries").is_ok());

    // Stamp v1 + create the sentinel; now v1 is accepted, v2 is refused.
    conn.execute_batch("CREATE TABLE entries (id INTEGER); PRAGMA user_version = 1;")
        .unwrap();
    assert!(check(&conn, path, 1, "entries").is_ok());
    assert!(check(&conn, path, 2, "entries").is_err());
    assert!(table_exists(&conn, "entries"));
    assert!(!table_exists(&conn, "nope"));
}

#[test]
fn a_foreign_schema_is_named() {
    assert_eq!(
        ensure_compatible_schema(0, true, "/d/x.db", 1),
        Err("incompatible database at /d/x.db: schema v0, expected v1. No automatic migration; \
             delete the file and restart to recreate."
            .to_string())
    );
    assert!(ensure_compatible_schema(2, false, "x", 1).is_err());
    assert!(ensure_compatible_schema(-1, false, "x", -1).is_ok());
}
