//! What the pickers do alike: moving the selection, marking matched characters
//! in a cell, and placing the cursor in the prompt.

use nucleo_matcher::Matcher;
use vstd::prelude::*;
use crate::base::fuzzy::{find_match, match_of, picked};
use crate::base::sanitize::{sanitize_display, shown};
use crate::text::chars_of;
use crate::ui::editing::lemma_line_parts;
use crate::ui::highlight::{painted, run_views, tinted, Run, RunView};
use crate::ui::query::Query;
use crate::utf8::locate;

verus! {

/// How loud a line of text is.
#[derive(Clone, Copy, Debug, PartialEq, Eq, Structural)]
pub enum Tone {
    /// Help and summaries.
    Dim,
    /// Messages.
    Warn,
}

/// A piece of a line: a label, or a value.
pub struct Piece {
    pub text: String,
    pub is_label: bool,
}

/// The characters of a [`Piece`] and whether it is a label.
pub ghost struct PieceView {
    pub text: Seq<char>,
    pub is_label: bool,
}

impl View for Piece {
    type V = PieceView;

    open spec fn view(&self) -> PieceView {
        PieceView { text: self.text@, is_label: self.is_label }
    }
}

/// The views of the pieces of `v`.
pub open spec fn piece_views(v: Seq<Piece>) -> Seq<PieceView> {
    Seq::new(v.len(), |i: int| v[i]@)
}

/// The views of the lines of `v`.
pub open spec fn line_views(v: Seq<Vec<Piece>>) -> Seq<Seq<PieceView>> {
    Seq::new(v.len(), |i: int| piece_views(v[i]@))
}

/// A label.
pub open spec fn label(text: Seq<char>) -> PieceView {
    PieceView { text, is_label: true }
}

/// A value.
pub open spec fn value(text: Seq<char>) -> PieceView {
    PieceView { text, is_label: false }
}

/// A piece of a status line.
pub struct Segment {
    pub text: String,
    pub tone: Tone,
    pub bold: bool,
}

/// What a [`Segment`] shows.
pub ghost struct SegmentView {
    pub text: Seq<char>,
    pub tone: Tone,
    pub bold: bool,
}

impl View for Segment {
    type V = SegmentView;

    open spec fn view(&self) -> SegmentView {
        SegmentView { text: self.text@, tone: self.tone, bold: self.bold }
    }
}

/// The views of the segments of `v`.
pub open spec fn segment_views(v: Seq<Segment>) -> Seq<SegmentView> {
    Seq::new(v.len(), |i: int| v[i]@)
}

/// A plain segment.
pub open spec fn plain(text: Seq<char>, tone: Tone) -> SegmentView {
    SegmentView { text, tone, bold: false }
}

/// A status line of one plain segment.
pub fn one_segment(text: String, tone: Tone) -> (line: Vec<Segment>)
    ensures
        segment_views(line@) == seq![plain(text@, tone)],
{
    let mut line: Vec<Segment> = Vec::new();
    let s = Segment { text, tone, bold: false };
    let ghost sv = s@;
    line.push(s);
    assert(segment_views(line@) =~= seq![sv]);
    line
}

/// Append a segment to `line`.
pub fn push_segment(line: &mut Vec<Segment>, text: String, tone: Tone, bold: bool)
    ensures
        segment_views(final(line)@) == segment_views(old(line)@).push(
            (SegmentView { text: text@, tone, bold }),
        ),
{
    let ghost before = line@;
    let s = Segment { text, tone, bold };
    let ghost sv = s@;
    line.push(s);
    assert(segment_views(line@) =~= segment_views(before).push(sv));
}

/// Append a label and the value behind it to `line`.
pub fn push_pair(line: &mut Vec<Piece>, name: &str, text: String)
    ensures
        piece_views(final(line)@) == piece_views(old(line)@) + seq![label(name@), value(text@)],
{
    let ghost before = line@;
    let a = Piece { text: name.to_owned(), is_label: true };
    let b = Piece { text, is_label: false };
    let ghost av = a@;
    let ghost bv = b@;
    line.push(a);
    line.push(b);
    assert(piece_views(line@) == piece_views(before) + seq![av, bv]);
}

// ---- selection ----------------------------------------------------------------

/// The selection in a list of `len` rows after a move by `delta`: it stays in
/// the list, and there is none in an empty list.
pub open spec fn moved_selection(selected: Option<usize>, len: nat, delta: int) -> Option<usize> {
    if len == 0 {
        None
    } else {
        let to = (match selected {
            Some(i) => i as int,
            None => 0,
        }) + delta;
        if to < 0 {
            Some(0)
        } else if to >= len {
            Some((len - 1) as usize)
        } else {
            Some(to as usize)
        }
    }
}

/// The selection in a list of `len` rows after a move by `delta`.
pub fn move_selection(selected: Option<usize>, len: usize, delta: isize) -> (r: Option<usize>)
    ensures
        r == moved_selection(selected, len as nat, delta as int),
        r is Some ==> r->0 < len,
{
    if len == 0 {
        return None;
    }
    let cur: usize = match selected {
        Some(i) => i,
        None => 0,
    };
    let to: i128 = cur as i128 + delta as i128;
    if to < 0 {
        Some(0)
    } else if to >= len as i128 {
        Some(len - 1)
    } else {
        Some(to as usize)
    }
}

/// A move never leaves the list, and a move down undoes a move up that did not
/// reach the end.
pub proof fn selection_stays_in_list(selected: Option<usize>, len: nat, delta: int)
    requires
        len <= usize::MAX,
    ensures
        moved_selection(selected, len, delta) is Some <==> len > 0,
        len > 0 ==> moved_selection(selected, len, delta)->0 < len,
        selected is Some && 0 <= selected->0 + delta < len && selected->0 < len
            ==> moved_selection(moved_selection(selected, len, delta), len, -delta) == selected,
{
}

// ---- matched characters in a cell -----------------------------------------------

/// The first `n` characters of `s` as runs, each as long as can be.
pub open spec fn grouped(s: Seq<char>, hit: Seq<bool>, n: int) -> Seq<RunView>
    decreases n,
{
    if n <= 0 {
        seq![]
    } else {
        let g = grouped(s, hit, n - 1);
        if g.len() > 0 && g.last().matched == hit[n - 1] {
            g.update(
                g.len() - 1,
                RunView { text: g.last().text.push(s[n - 1]), matched: hit[n - 1] },
            )
        } else {
            g.push(RunView { text: seq![s[n - 1]], matched: hit[n - 1] })
        }
    }
}

/// A cell with the text `text`, made safe: where the whole query matches it,
/// the matched characters are runs of their own. An empty query matches
/// nothing.
pub open spec fn cell_runs(text: Seq<char>, query: Seq<char>) -> Seq<RunView> {
    let safe = shown(text);
    if query.len() == 0 || match_of(query, safe) is None {
        seq![RunView { text: safe, matched: false }]
    } else {
        grouped(safe, picked((match_of(query, safe)->0).1, safe.len()), safe.len() as int)
    }
}

/// The views of the cells of `v`.
pub open spec fn cell_views(v: Seq<Vec<Run>>) -> Seq<Seq<RunView>> {
    Seq::new(v.len(), |i: int| run_views(v[i]@))
}

/// Whether `i` is one of `indices`.
fn is_picked(indices: &Vec<u32>, i: usize) -> (r: bool)
    ensures
        r == exists|j: int| 0 <= j < indices@.len() && #[trigger] indices@[j] == i,
{
    let mut j: usize = 0;
    while j < indices.len()
        invariant
            j <= indices@.len(),
            forall|k: int| 0 <= k < j ==> #[trigger] indices@[k] != i,
        decreases indices@.len() - j,
    {
        if indices[j] as u64 == i as u64 {
            return true;
        }
        j += 1;
    }
    false
}

/// The characters of `v` as runs, by whether their places are in `indices`.
fn group(v: &Vec<char>, indices: &Vec<u32>) -> (runs: Vec<Run>)
    ensures
        run_views(runs@) == grouped(v@, picked(indices@, v@.len()), v@.len() as int),
{
    let ghost hit = picked(indices@, v@.len());
    let mut runs: Vec<Run> = Vec::new();
    let mut run = String::new();
    let mut run_match = false;
    let mut i: usize = 0;
    assert(run_views(runs@) == grouped(v@, hit, 0));
    while i < v.len()
        invariant
            i <= v@.len(),
            hit == picked(indices@, v@.len()),
            (run@.len() > 0) == (i > 0),
            i == 0 ==> runs@.len() == 0 && !run_match,
            i > 0 ==> run_match == hit[i - 1],
            i > 0 ==> run_views(runs@).push(RunView { text: run@, matched: run_match }) == grouped(
                v@,
                hit,
                i as int,
            ),
        decreases v@.len() - i,
    {
        let ghost g = grouped(v@, hit, i as int);
        let ghost whole = run_views(runs@).push(RunView { text: run@, matched: run_match });
        let is_match = is_picked(indices, i);
        assert(is_match == hit[i as int]);
        if is_match != run_match && !run.as_str().is_empty() {
            let ghost done = runs@;
            let full = Run { text: run, matched: run_match };
            let ghost fv = full@;
            runs.push(full);
            run = String::new();
            assert(run_views(runs@) == run_views(done).push(fv));
            assert(run_views(runs@) == g);
        }
        let ghost start = run@;
        let ghost base = run_views(runs@);
        run_match = is_match;
        run.push(v[i]);
        proof {
            let next = base.push(RunView { text: run@, matched: run_match });
            if start.len() == 0 {
                assert(run@ == seq![v@[i as int]]);
                assert(next == grouped(v@, hit, i + 1));
            } else {
                assert(g == whole);
                assert(next == g.update(
                    g.len() - 1,
                    RunView { text: g.last().text.push(v@[i as int]), matched: hit[i as int] },
                ));
            }
        }
        i += 1;
    }
    if !run.as_str().is_empty() {
        let ghost done = runs@;
        let full = Run { text: run, matched: run_match };
        let ghost fv = full@;
        runs.push(full);
        assert(run_views(runs@) == run_views(done).push(fv));
    } else {
        assert(run_views(runs@) == grouped(v@, hit, 0));
    }
    runs
}

/// A cell with the text `text`, made safe. Where the whole query matches it,
/// the matched characters are runs of their own, so that a search lights up
/// wherever it lands.
pub fn highlight_cell(text: &str, query: &str, m: &mut Matcher) -> (runs: Vec<Run>)
    ensures
        run_views(runs@) == cell_runs(text@, query@),
{
    let safe = sanitize_display(text);
    let found = if query.is_empty() {
        None
    } else {
        find_match(m, query, safe.as_str())
    };
    match found {
        Some(hit) => {
            let v = chars_of(safe.as_str());
            group(&v, &hit.1)
        },
        None => {
            let mut runs: Vec<Run> = Vec::new();
            let run = Run { text: safe, matched: false };
            let ghost rv = run@;
            runs.push(run);
            assert(run_views(runs@) == seq![rv]);
            runs
        },
    }
}

/// The runs of a cell show every character of it, matched exactly where it was
/// picked.
pub proof fn grouped_shows_everything(s: Seq<char>, hit: Seq<bool>, n: int)
    requires
        0 <= n <= s.len(),
        hit.len() == s.len(),
    ensures
        painted(grouped(s, hit, n)) == Seq::new(n as nat, |i: int| (s[i], hit[i])),
        n > 0 ==> grouped(s, hit, n).len() > 0 && grouped(s, hit, n).last().matched == hit[n - 1],
        forall|i: int|
            0 <= i < grouped(s, hit, n).len() ==> (#[trigger] grouped(s, hit, n)[i]).text.len() > 0,
    decreases n,
{
    if n > 0 {
        grouped_shows_everything(s, hit, n - 1);
        let g = grouped(s, hit, n - 1);
        let h = grouped(s, hit, n);
        if g.len() > 0 && g.last().matched == hit[n - 1] {
            assert(h.drop_last() == g.drop_last());
            assert(tinted(h.last().text, hit[n - 1]) == tinted(g.last().text, hit[n - 1]).push(
                (s[n - 1], hit[n - 1]),
            ));
            assert(painted(h) == painted(g).push((s[n - 1], hit[n - 1])));
        } else {
            assert(h.drop_last() == g);
            assert(painted(h) == painted(g).push((s[n - 1], hit[n - 1])));
        }
        assert(painted(h) == Seq::new(n as nat, |i: int| (s[i], hit[i])));
    } else {
        assert(painted(grouped(s, hit, n)) == Seq::new(n as nat, |i: int| (s[i], hit[i])));
    }
}

// ---- the prompt -----------------------------------------------------------------

/// `n`, or the largest number of 16 bits.
pub open spec fn capped(n: int) -> int {
    if n > 0xffff {
        0xffff
    } else {
        n
    }
}

/// The column of the cursor behind `before` characters of the query, in a
/// prompt at column `x` that is `width` columns wide. Characters are counted
/// in 16 bits.
pub open spec fn prompt_column(before: nat, x: u16, width: u16) -> int {
    let at = capped(x + 2 + before % 0x1_0000);
    let edge = capped(x + width);
    let right = if edge > 0 {
        edge - 1
    } else {
        0
    };
    if at < right {
        at
    } else {
        right
    }
}

/// The column of the cursor in a prompt at column `x` that is `width` columns
/// wide: behind the two columns of the mark, and never beyond the right edge.
pub fn prompt_cursor(q: &Query, x: u16, width: u16) -> (column: u16)
    requires
        q.wf(),
        x <= 0xfffd,
    ensures
        column == prompt_column(q@.before.len(), x, width),
{
    let v = chars_of(q.text.as_str());
    let k = locate(&v, q.cursor);
    proof {
        lemma_line_parts(q.text@, q.cursor as int);
    }
    let before: u32 = (k % 0x1_0000) as u32;
    let at: u32 = x as u32 + 2 + before;
    let at: u32 = if at > 0xffff {
        0xffff
    } else {
        at
    };
    let edge: u32 = x as u32 + width as u32;
    let edge: u32 = if edge > 0xffff {
        0xffff
    } else {
        edge
    };
    let right: u32 = if edge > 0 {
        edge - 1
    } else {
        0
    };
    if at < right {
        at as u16
    } else {
        right as u16
    }
}

} // verus!
