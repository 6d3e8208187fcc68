//! The command line: the arguments of the daemon, and how entries are printed.

use vstd::prelude::*;
use crate::base::sanitize::{sanitize_display, sanitize_multiline, shown, shown_in_lines};
use crate::base::xdg::{below, data_base, runtime_base, Environment, NoBase};
use crate::hugin::capture::{default_socket_path, socket_name};
use crate::hugin::format::{human_size, size_text};
use crate::hugin::proto::{EntryMeta, EntryView};
use crate::hugin::search::{prefix, prefix_chars};
use crate::hugin::storage::{app_name, db_name, default_db_path, RetentionConfig};
use crate::number::{decimal, decimal_of, signed_decimal, signed_decimal_of};
use crate::text::{chars_of, left_aligned, pad_right, views};
use crate::utf8::copy_bytes;

verus! {

// ---- arguments -------------------------------------------------------------------------

/// The arguments of the daemon.
pub struct DaemonArgs {
    /// The database; by default the one of the user.
    pub db: Option<Vec<u8>>,
    /// The socket; by default the one of the user.
    pub socket: Option<Vec<u8>>,
    /// How many entries stay.
    pub max_entries: usize,
    /// For how many days entries stay.
    pub max_age_days: u32,
    /// How many bytes of one part are kept.
    pub max_part_bytes: usize,
    /// Whether the primary selection is watched too.
    pub primary: bool,
}

impl DaemonArgs {
    /// The database that was asked for, or else that of the user.
    pub fn db_path(&self, env: &Environment) -> (r: Result<Vec<u8>, NoBase>)
        ensures
            match self.db {
                Some(p) => r matches Ok(q) && q@ == p@,
                None => match r {
                    Ok(p) => data_base(*env) is Some && p@ == below(
                        below(data_base(*env)->0, app_name()),
                        db_name(),
                    ),
                    Err(e) => data_base(*env) is None && e == NoBase::Data,
                },
            },
    {
        match &self.db {
            Some(p) => Ok(copy_bytes(p)),
            None => default_db_path(env),
        }
    }

    /// The socket that was asked for, or else that of the user.
    pub fn socket_path(&self, env: &Environment) -> (p: Vec<u8>)
        ensures
            p@ == match self.socket {
                Some(s) => s@,
                None => below(runtime_base(*env), socket_name()),
            },
    {
        match &self.socket {
            Some(p) => copy_bytes(p),
            None => default_socket_path(env),
        }
    }

    /// How many entries stay, and for how many days.
    pub fn retention(&self) -> (c: RetentionConfig)
        ensures
            c == (RetentionConfig {
                max_entries: self.max_entries,
                max_age_days: self.max_age_days,
            }),
    {
        RetentionConfig { max_entries: self.max_entries, max_age_days: self.max_age_days }
    }
}

// ---- the table -------------------------------------------------------------------------

/// How often `c` occurs in `s`.
pub open spec fn occurrences(s: Seq<char>, c: char) -> nat
    decreases s.len(),
{
    if s.len() == 0 {
        0
    } else {
        occurrences(s.drop_last(), c) + (if s.last() == c {
            1nat
        } else {
            0nat
        })
    }
}

/// `n` closing markers.
pub open spec fn closers(n: int) -> Seq<char> {
    Seq::new((if n > 0 { n } else { 0 }) as nat, |i: int| '›')
}

/// `s` with a closing marker for each opening one that has none.
pub open spec fn closed(s: Seq<char>) -> Seq<char> {
    s + closers(occurrences(s, '‹') - occurrences(s, '›'))
}

/// What the table shows of a snippet: its first 60 characters on one line, made
/// safe, with no marker left open.
pub open spec fn table_label(snippet: Seq<char>) -> Seq<char> {
    closed(shown(prefix(snippet, 60)))
}

/// What the table shows of the content of an entry: its text, or else how many
/// forms it has.
pub open spec fn table_content(e: EntryView) -> Seq<char> {
    let label = match e.snippet {
        Some(s) => table_label(s),
        None => table_label(seq![]),
    };
    if label.len() == 0 {
        "("@ + decimal(e.mimes.len()) + " MIMEs)"@
    } else {
        label
    }
}

/// A row of the table.
pub open spec fn table_row(
    id: Seq<char>,
    time: Seq<char>,
    selection: Seq<char>,
    size: Seq<char>,
    content: Seq<char>,
) -> Seq<char> {
    left_aligned(id, 6) + " "@ + left_aligned(time, 19) + " "@ + left_aligned(selection, 8) + " "@
        + left_aligned(size, 9) + " "@ + content
}

/// How often `c` occurs in `s`.
fn count_char(s: &str, c: char) -> (n: usize)
    ensures
        n == occurrences(s@, c),
        n <= s@.len(),
{
    let v = chars_of(s);
    let mut n: usize = 0;
    let mut i: usize = 0;
    while i < v.len()
        invariant
            i <= v@.len(),
            n <= i,
            n == occurrences(v@.take(i as int), c),
        decreases v@.len() - i,
    {
        assert(v@.take(i + 1).drop_last() == v@.take(i as int));
        if v[i] == c {
            n += 1;
        }
        i += 1;
    }
    assert(v@.take(v@.len() as int) == v@);
    n
}

/// What the table shows of a snippet.
pub fn label_of(snippet: &str) -> (s: String)
    ensures
        s@ == table_label(snippet@),
{
    let cut = prefix_chars(snippet, 60);
    let mut s = sanitize_display(cut.as_str());
    let ghost safe = s@;
    let opens = count_char(s.as_str(), '‹');
    let closes = count_char(s.as_str(), '›');
    let missing: usize = if opens > closes {
        opens - closes
    } else {
        0
    };
    let mut i: usize = 0;
    assert(s@ == safe + closers(0));
    while i < missing
        invariant
            i <= missing,
            s@ == safe + closers(i as int),
        decreases missing - i,
    {
        s.push('›');
        i += 1;
        assert(s@ == safe + closers(i as int));
    }
    s
}

proof fn lemma_occurrences_concat(a: Seq<char>, b: Seq<char>, c: char)
    ensures
        occurrences(a + b, c) == occurrences(a, c) + occurrences(b, c),
    decreases b.len(),
{
    if b.len() == 0 {
        assert(a + b == a);
    } else {
        lemma_occurrences_concat(a, b.drop_last(), c);
        assert((a + b).drop_last() == a + b.drop_last());
    }
}

proof fn lemma_closers(n: int, c: char)
    requires
        n >= 0,
    ensures
        occurrences(closers(n), c) == if c == '›' {
            n
        } else {
            0
        },
    decreases n,
{
    if n > 0 {
        lemma_closers(n - 1, c);
        assert(closers(n).drop_last() == closers(n - 1));
    }
}

/// The table leaves no marker open, wherever a snippet is cut.
pub proof fn labels_are_closed(snippet: Seq<char>)
    ensures
        occurrences(table_label(snippet), '‹') <= occurrences(table_label(snippet), '›'),
{
    let safe = shown(prefix(snippet, 60));
    let n = occurrences(safe, '‹') - occurrences(safe, '›');
    lemma_occurrences_concat(safe, closers(n), '‹');
    lemma_occurrences_concat(safe, closers(n), '›');
    if n > 0 {
        lemma_closers(n, '‹');
        lemma_closers(n, '›');
    }
}

/// A row of the table.
fn row_line(id: &str, time: &str, selection: &str, size: &str, content: &str) -> (s: String)
    ensures
        s@ == table_row(id@, time@, selection@, size@, content@),
{
    let mut s = pad_right(id, 6);
    s.append(" ");
    let time = pad_right(time, 19);
    s.append(time.as_str());
    s.append(" ");
    let selection = pad_right(selection, 8);
    s.append(selection.as_str());
    s.append(" ");
    let size = pad_right(size, 9);
    s.append(size.as_str());
    s.append(" ");
    s.append(content);
    s
}

/// The head of the table.
pub fn header_line() -> (s: String)
    ensures
        s@ == table_row("ID"@, "TIME"@, "SEL"@, "SIZE"@, "SNIPPET"@),
{
    row_line("ID", "TIME", "SEL", "SIZE", "SNIPPET")
}

/// The row of an entry whose time reads `time`.
pub fn entry_line(e: &EntryMeta, time: &str) -> (s: String)
    ensures
        s@ == table_row(
            signed_decimal(e.id as int),
            time@,
            e.selection@,
            size_text(e.size_bytes as int),
            table_content(e@),
        ),
{
    let label = match &e.snippet {
        Some(snippet) => label_of(snippet.as_str()),
        None => label_of(""),
    };
    proof {
        reveal_strlit("");
        assert(""@ =~= Seq::<char>::empty());
    }
    let content = if label.as_str().is_empty() {
        let mut c = "(".to_owned();
        let n = decimal_of(e.mimes.len() as u64);
        c.append(n.as_str());
        c.append(" MIMEs)");
        assert(views(e.mimes@).len() == e.mimes@.len());
        c
    } else {
        label
    };
    let id = signed_decimal_of(e.id);
    let size = human_size(e.size_bytes);
    row_line(id.as_str(), time, e.selection.as_str(), size.as_str(), content.as_str())
}

// ---- one entry ---------------------------------------------------------------------------

/// What is printed of an entry whose time reads `time`, line by line.
pub open spec fn info_text(e: EntryView, time: Seq<char>) -> Seq<Seq<char>> {
    seq![
        "id:        "@ + signed_decimal(e.id as int),
        "time:      "@ + time,
        "selection: "@ + e.selection,
        "size:      "@ + signed_decimal(e.size_bytes as int) + " bytes ("@ + size_text(
            e.size_bytes as int,
        ) + ")"@,
        "mimes:"@,
    ] + Seq::new(e.mimes.len(), |i: int| "  - "@ + e.mimes[i]) + match e.snippet {
        Some(s) => seq!["snippet:   "@ + shown_in_lines(prefix(s, 200))],
        None => seq![],
    }
}

/// `name` and `text`.
fn pair(name: &str, text: &str) -> (s: String)
    ensures
        s@ == name@ + text@,
{
    let mut s = name.to_owned();
    s.append(text);
    s
}

/// Append `line` to `lines`.
fn push_line(lines: &mut Vec<String>, line: String)
    ensures
        views(final(lines)@) == views(old(lines)@).push(line@),
{
    let ghost before = lines@;
    let ghost lv = line@;
    lines.push(line);
    assert(views(lines@) =~= views(before).push(lv));
}

/// The first lines that are printed of an entry.
fn info_head(e: &EntryMeta, time: &str) -> (lines: Vec<String>)
    ensures
        views(lines@) == info_text(e@, time@).take(5),
{
    let mut lines: Vec<String> = Vec::new();
    let id = signed_decimal_of(e.id);
    push_line(&mut lines, pair("id:        ", id.as_str()));
    push_line(&mut lines, pair("time:      ", time));
    push_line(&mut lines, pair("selection: ", e.selection.as_str()));
    let bytes = signed_decimal_of(e.size_bytes);
    let mut size = pair("size:      ", bytes.as_str());
    size.append(" bytes (");
    let human = human_size(e.size_bytes);
    size.append(human.as_str());
    size.append(")");
    push_line(&mut lines, size);
    push_line(&mut lines, "mimes:".to_owned());
    assert(views(lines@) =~= info_text(e@, time@).take(5));
    lines
}

/// What is printed of an entry whose time reads `time`, line by line.
pub fn info_lines(e: &EntryMeta, time: &str) -> (lines: Vec<String>)
    ensures
        views(lines@) == info_text(e@, time@),
{
    let ghost all = info_text(e@, time@);
    let mut lines = info_head(e, time);
    let mut i: usize = 0;
    while i < e.mimes.len()
        invariant
            i <= e.mimes@.len(),
            all == info_text(e@, time@),
            views(lines@) == all.take(5 + i),
        decreases e.mimes@.len() - i,
    {
        assert(views(e.mimes@)[i as int] == e.mimes@[i as int]@);
        push_line(&mut lines, pair("  - ", e.mimes[i].as_str()));
        assert(all[5 + i] == "  - "@ + e.mimes@[i as int]@);
        i += 1;
        assert(views(lines@) =~= all.take(5 + i));
    }
    if let Some(s) = &e.snippet {
        let cut = prefix_chars(s.as_str(), 200);
        let safe = sanitize_multiline(cut.as_str());
        push_line(&mut lines, pair("snippet:   ", safe.as_str()));
    }
    assert(views(lines@) =~= all);
    lines
}

} // verus!
