//! Editing, marked text, and what the pickers share.

use levelup::base::fuzzy::{highlight_indices, matcher};
use levelup::net::Ipv4Addr;
use levelup::number::{decimal_of, parse, parse_i32, signed_decimal_of};
use levelup::sorting::{distinct_numbers, sort_strings};
use levelup::text::{
    clip, join, lines, pad_left, pad_right, split, split_words, stands_before, to_lower, trim,
    trim_leading, trim_trailing,
};
use levelup::ui::config::{load_or_default, Loaded};
use levelup::ui::editing::{
    delete_back, delete_forward, delete_word, insert_char, kill_line, kill_to_end, next_offset,
    prev_offset,
};
use levelup::ui::highlight::{highlight_snippet, Run};
use levelup::ui::picker::{highlight_cell, move_selection, prompt_cursor};
use levelup::ui::query::{Edit, Query};

// ---- editing ------------------------------------------------------------------

#[test]
fn back_and_word_are_multibyte_safe() {
    let (mut q, mut c) = ("café".to_string(), "café".len());
    assert!(delete_back(&mut q, &mut c)); // removes 'é' (2 bytes)
    assert_eq!(q, "caf");
    assert_eq!(c, 3);

    let (mut q, mut c) = ("foo bar ".to_string(), "foo bar ".len());
    assert!(delete_word(&mut q, &mut c));
    assert_eq!(q, "foo ");
}

#[test]
fn kill_helpers() {
    let (mut q, mut c) = ("hello world".to_string(), 5);
    assert!(kill_to_end(&mut q, &mut c));
    assert_eq!(q, "hello");
    assert!(kill_line(&mut q, &mut c));
    assert_eq!((q.as_str(), c), ("", 0));
    assert!(!kill_line(&mut q, &mut c)); // already empty → no change
}

#[test]
fn words_end_at_any_white_space() {
    // A space of three bytes.
    let (mut q, mut c) = ("foo\u{2003}bar".to_string(), "foo\u{2003}bar".len());
    assert!(delete_word(&mut q, &mut c));
    assert_eq!((q.as_str(), c), ("foo\u{2003}", 6));
    assert!(delete_word(&mut q, &mut c));
    assert_eq!((q.as_str(), c), ("", 0));
    assert!(!delete_word(&mut q, &mut c));
    // What stands behind the cursor stays.
    let (mut q, mut c) = ("one two three".to_string(), 7);
    assert!(delete_word(&mut q, &mut c));
    assert_eq!((q.as_str(), c), ("one  three", 4));
}

#[test]
fn typing_then_deleting_changes_nothing() {
    let (mut q, mut c) = ("añb".to_string(), 1);
    insert_char(&mut q, &mut c, '→');
    assert_eq!((q.as_str(), c), ("a→ñb", 4));
    assert!(delete_back(&mut q, &mut c));
    assert_eq!((q.as_str(), c), ("añb", 1));
    assert!(delete_forward(&mut q, &mut c));
    assert_eq!((q.as_str(), c), ("ab", 1));
    let (mut q, mut c) = ("ab".to_string(), 2);
    assert!(!delete_forward(&mut q, &mut c));
    c = 0;
    assert!(!delete_back(&mut q, &mut c));
}

#[test]
fn the_cursor_moves_by_characters() {
    assert_eq!(next_offset("a→b", 0), 1);
    assert_eq!(next_offset("a→b", 1), 4);
    assert_eq!(next_offset("a→b", 5), 5);
    assert_eq!(prev_offset("a→b", 4), 1);
    assert_eq!(prev_offset("a→b", 0), 0);
}

#[test]
fn a_query_takes_edits() {
    let mut q = Query::with_text("  añ b ".to_string());
    assert_eq!(q.trimmed(), "añ b");
    assert!(!q.apply(Edit::Home));
    assert!(q.apply(Edit::DeleteForward));
    assert!(!q.apply(Edit::End));
    assert!(q.apply(Edit::DeleteBack));
    assert_eq!(q.text, " añ b");
    assert!(!q.apply(Edit::Left));
    assert!(q.apply(Edit::Insert('x')));
    assert_eq!(q.text, " añ xb");
    assert!(!q.apply(Edit::Right));
    assert!(!q.apply(Edit::KillToEnd));
    assert!(q.apply(Edit::DeleteWord));
    assert_eq!(q.text, " añ ");
    assert!(q.apply(Edit::KillLine));
    assert!(q.is_empty());
    assert!(Query::new().is_empty());
}

#[test]
fn the_prompt_cursor_stays_inside() {
    let mut q = Query::with_text("añb".to_string());
    assert_eq!(prompt_cursor(&q, 0, 80), 5);
    assert_eq!(prompt_cursor(&q, 3, 4), 6);
    q.apply(Edit::Home);
    assert_eq!(prompt_cursor(&q, 0, 80), 2);
    assert_eq!(prompt_cursor(&q, 0, 0), 0);
}

// ---- marked text ------------------------------------------------------------------

fn shape(runs: &[Run]) -> Vec<(&str, bool)> {
    runs.iter().map(|r| (r.text.as_str(), r.matched)).collect()
}

#[test]
fn splits_into_match_and_base_runs() {
    let runs = highlight_snippet("‹git› commit");
    assert_eq!(runs.len(), 2);
    assert_eq!(runs[0].text, "git");
    assert!(runs[0].matched);
    assert_eq!(runs[1].text, " commit");
    assert!(!runs[1].matched);
}

#[test]
fn runs_take_turns() {
    let runs = highlight_snippet(&highlight_indices("a\tbcde", &vec![0, 3, 4]));
    assert_eq!(shape(&runs), vec![("a", true), (" b", false), ("cd", true), ("e", false)]);
    let runs = highlight_snippet(&highlight_indices("abc", &vec![0, 2]));
    assert_eq!(shape(&runs), vec![("a", true), ("b", false), ("c", true)]);
    let runs = highlight_snippet(&highlight_indices("abc", &vec![0, 1, 2]));
    assert_eq!(shape(&runs), vec![("abc", true)]);
}

#[test]
fn marked_text_may_be_cut() {
    assert_eq!(shape(&highlight_snippet("a‹b")), vec![("a", false), ("b", true)]);
    assert_eq!(shape(&highlight_snippet("‹›")), vec![]);
    assert_eq!(shape(&highlight_snippet("")), vec![]);
    assert_eq!(shape(&highlight_snippet("a\nb\x1b")), vec![("a↵b^[", false)]);
}

#[test]
fn cells_light_up_where_the_query_lands() {
    let mut m = matcher();
    assert_eq!(
        shape(&highlight_cell("router", "rt", &mut m)),
        vec![("r", true), ("ou", false), ("t", true), ("er", false)]
    );
    assert_eq!(shape(&highlight_cell("router", "", &mut m)), vec![("router", false)]);
    assert_eq!(shape(&highlight_cell("router", "zzz", &mut m)), vec![("router", false)]);
    assert_eq!(shape(&highlight_cell("a\x07", "", &mut m)), vec![("a^G", false)]);
    assert_eq!(shape(&highlight_cell("", "", &mut m)), vec![("", false)]);
}

#[test]
fn the_selection_stays_in_the_list() {
    assert_eq!(move_selection(None, 0, 1), None);
    assert_eq!(move_selection(Some(5), 0, -1), None);
    assert_eq!(move_selection(None, 3, -1), Some(0));
    assert_eq!(move_selection(Some(1), 3, 1), Some(2));
    assert_eq!(move_selection(Some(1), 3, 10), Some(2));
    assert_eq!(move_selection(Some(1), 3, -10), Some(0));
    // Down undoes up.
    let up = move_selection(Some(2), 5, -1);
    assert_eq!(move_selection(up, 5, 1), Some(2));
}

#[test]
fn a_configuration_is_used_as_it_was_read() {
    assert_eq!(load_or_default(Loaded::Parsed(7u32)), 7);
    assert_eq!(load_or_default::<u32>(Loaded::Malformed), 0);
    assert_eq!(load_or_default::<u32>(Loaded::Missing), 0);
    assert_eq!(load_or_default::<u32>(Loaded::NoPath), 0);
    assert_eq!(load_or_default::<u32>(Loaded::Unreadable), 0);
}

// ---- text and numbers ----------------------------------------------------------------

fn strings(v: &[&str]) -> Vec<String> {
    v.iter().map(|s| s.to_string()).collect()
}

#[test]
fn trimming_agrees_with_the_standard_library() {
    for s in ["", "  ", " a ", "\u{a0}x\u{2003}", "\u{200b}y", "a b\t\n", "\u{85}é\u{3000}"] {
        assert_eq!(trim(s), s.trim(), "{s:?}");
        assert_eq!(split_words(s), strings(&s.split_whitespace().collect::<Vec<_>>()));
        assert_eq!(to_lower(s), s.to_ascii_lowercase());
    }
    for s in ["", "a", "a\n", "a\r\nb", "a\n\nb\r", "\n"] {
        assert_eq!(lines(s), strings(&s.lines().collect::<Vec<_>>()), "{s:?}");
    }
    assert_eq!(trim_leading("__a_", '_'), "a_");
    assert_eq!(trim_trailing("a..", '.'), "a");
}

#[test]
fn padding_and_clipping() {
    assert_eq!(pad_left("né", 4), "  né");
    assert_eq!(pad_right("né", 4), "né  ");
    assert_eq!(pad_right("long", 2), "long");
    assert_eq!(clip("abcdef", 4), "abc…");
    assert_eq!(clip("abc", 3), "abc");
    assert_eq!(clip("abc", 0), "…");
}

#[test]
fn splitting_undoes_joining() {
    let parts = strings(&["a", "", "b c"]);
    let text = join(&parts, ",");
    assert_eq!(text, "a,,b c");
    assert_eq!(split(&text, ','), parts);
    assert_eq!(split("", ','), strings(&[""]));
}

#[test]
fn sorting_agrees_with_the_standard_library() {
    assert_eq!(distinct_numbers(&vec![3, 1, 2, 1]), vec![1, 2, 3]);
    let mut v = strings(&["text/plain", "STRING", "image/png", "é", "z", ""]);
    let ours = sort_strings(&v);
    v.sort();
    assert_eq!(ours, v);
    assert!(stands_before("a", "aa"));
    assert!(!stands_before("a", "a"));
    assert!(stands_before("Z", "a"));
}

#[test]
fn numbers_are_written_and_read() {
    for n in [0u64, 7, 10, 4096, u64::MAX] {
        assert_eq!(decimal_of(n), n.to_string());
        assert_eq!(parse(&n.to_string(), 10, u64::MAX), Some(n));
    }
    for n in [0i64, -1, i64::MIN, i64::MAX] {
        assert_eq!(signed_decimal_of(n), n.to_string());
    }
    assert_eq!(parse("1f", 16, 255), Some(31));
    assert_eq!(parse("100", 16, 255), None);
    assert_eq!(parse("", 10, 10), None);
    assert_eq!(parse("12x", 10, 100), None);
    assert_eq!(parse_i32("-2147483648"), Some(i32::MIN));
    assert_eq!(parse_i32("2147483648"), None);
}

#[test]
fn addresses_are_written_and_read() {
    let a = Ipv4Addr::new(192, 168, 1, 254);
    assert_eq!(a.text(), "192.168.1.254");
    assert_eq!(Ipv4Addr::parse("192.168.1.254"), Some(a));
    for s in ["1.2.3", "1.2.3.4.5", "1.2.3.256", "01.2.3.4", "1.2.3.", "a.b.c.d", "", "1.2.3.4 "] {
        assert_eq!(Ipv4Addr::parse(s), None, "{s:?}");
    }
}
