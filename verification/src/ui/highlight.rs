//! Text with `‹›` markers, read as runs of matched and other characters.

use vstd::prelude::*;
use crate::base::fuzzy::{marked, marked_char, marked_up_to};
use crate::base::sanitize::{lemma_shown_concat, lemma_shown_one, sanitize_display, shown, shown_char};
use crate::text::chars_of;

verus! {

/// A run of characters, all matched or none of them.
pub struct Run {
    pub text: String,
    pub matched: bool,
}

/// The characters of a [`Run`] and whether they are matched.
pub ghost struct RunView {
    pub text: Seq<char>,
    pub matched: bool,
}

impl View for Run {
    type V = RunView;

    open spec fn view(&self) -> RunView {
        RunView { text: self.text@, matched: self.matched }
    }
}

/// The views of the runs of `v`.
pub open spec fn run_views(v: Seq<Run>) -> Seq<RunView> {
    Seq::new(v.len(), |i: int| v[i]@)
}

/// `runs` with `text` behind them, as a run of its own where it is not empty.
pub open spec fn with_run(runs: Seq<RunView>, text: Seq<char>, matched: bool) -> Seq<RunView> {
    if text.len() == 0 {
        runs
    } else {
        runs.push(RunView { text, matched })
    }
}

/// Reading marked text: the runs that are complete, the characters of the one
/// that is open, and whether that one stands behind an opening marker.
pub ghost struct Reading {
    pub runs: Seq<RunView>,
    pub open: Seq<char>,
    pub matched: bool,
}

/// What has been read once all of `s` has: an opening marker ends a run of
/// other characters, a closing one a run of matched ones.
pub open spec fn reading(s: Seq<char>) -> Reading
    decreases s.len(),
{
    if s.len() == 0 {
        Reading { runs: seq![], open: seq![], matched: false }
    } else {
        let r = reading(s.drop_last());
        if s.last() == '‹' {
            Reading { runs: with_run(r.runs, r.open, false), open: seq![], matched: true }
        } else if s.last() == '›' {
            Reading { runs: with_run(r.runs, r.open, true), open: seq![], matched: false }
        } else {
            Reading { open: r.open.push(s.last()), ..r }
        }
    }
}

/// The runs of the marked text `s`.
pub open spec fn runs_of(s: Seq<char>) -> Seq<RunView> {
    let r = reading(s);
    with_run(r.runs, r.open, r.matched)
}

/// Append `buf` to `runs` as a run of its own where it is not empty.
fn flush(runs: &mut Vec<Run>, buf: String, matched: bool)
    ensures
        run_views(final(runs)@) == with_run(run_views(old(runs)@), buf@, matched),
{
    if !buf.as_str().is_empty() {
        let ghost before = runs@;
        let run = Run { text: buf, matched };
        let ghost rv = run@;
        runs.push(run);
        assert(run_views(runs@) == run_views(before).push(rv));
    }
}

/// Read the `‹›` markers of `s`: matched runs and the others, in order.
/// Control characters are made safe first, which never makes a marker.
pub fn highlight_snippet(s: &str) -> (runs: Vec<Run>)
    ensures
        run_views(runs@) == runs_of(shown(s@)),
{
    let safe = sanitize_display(s);
    let v = chars_of(safe.as_str());
    let mut runs: Vec<Run> = Vec::new();
    let mut buf = String::new();
    let mut in_match = false;
    let mut i: usize = 0;
    assert(run_views(runs@) == Seq::<RunView>::empty());
    assert(buf@ == Seq::<char>::empty());
    while i < v.len()
        invariant
            i <= v@.len(),
            v@ == shown(s@),
            run_views(runs@) == reading(v@.take(i as int)).runs,
            buf@ == reading(v@.take(i as int)).open,
            in_match == reading(v@.take(i as int)).matched,
        decreases v@.len() - i,
    {
        assert(v@.take(i + 1).drop_last() == v@.take(i as int));
        let c = v[i];
        if c == '‹' {
            flush(&mut runs, buf, false);
            buf = String::new();
            assert(buf@ == Seq::<char>::empty());
            in_match = true;
        } else if c == '›' {
            flush(&mut runs, buf, true);
            buf = String::new();
            assert(buf@ == Seq::<char>::empty());
            in_match = false;
        } else {
            buf.push(c);
        }
        i += 1;
    }
    assert(v@.take(v@.len() as int) == v@);
    flush(&mut runs, buf, in_match);
    runs
}

// ---- what the markers carry --------------------------------------------------

/// The characters of `runs`, each with whether it is matched.
pub open spec fn painted(runs: Seq<RunView>) -> Seq<(char, bool)>
    decreases runs.len(),
{
    if runs.len() == 0 {
        seq![]
    } else {
        painted(runs.drop_last()) + tinted(runs.last().text, runs.last().matched)
    }
}

/// Each character of `s` with `matched`.
pub open spec fn tinted(s: Seq<char>, matched: bool) -> Seq<(char, bool)> {
    Seq::new(s.len(), |i: int| (s[i], matched))
}

/// The first `n` characters of `s`, made safe, each with whether it was hit.
pub open spec fn hit_chars(s: Seq<char>, hit: Seq<bool>, n: int) -> Seq<(char, bool)>
    decreases n,
{
    if n <= 0 {
        seq![]
    } else {
        hit_chars(s, hit, n - 1) + tinted(shown_char(s[n - 1]), hit[n - 1])
    }
}

/// Whether no run is empty, and runs of matched characters and of others take turns.
pub open spec fn in_turns(runs: Seq<RunView>) -> bool {
    &&& forall|i: int| 0 <= i < runs.len() ==> (#[trigger] runs[i]).text.len() > 0
    &&& forall|i: int, j: int|
        0 <= i && j == i + 1 && j < runs.len() ==> (#[trigger] runs[i]).matched != (
        #[trigger] runs[j]).matched
}

/// The characters of painted text, without their paint.
pub open spec fn bare_text(s: Seq<(char, bool)>) -> Seq<char> {
    Seq::new(s.len(), |i: int| s[i].0)
}

/// Whether neither marker occurs in `s`.
pub open spec fn unmarked(s: Seq<char>) -> bool {
    forall|i: int| 0 <= i < s.len() ==> #[trigger] s[i] != '‹' && s[i] != '›'
}

/// What a reading has painted so far, were the open run to end here.
spec fn paint(r: Reading) -> Seq<(char, bool)> {
    painted(r.runs) + tinted(r.open, r.matched)
}

/// Whether the runs of a reading take turns, and the open one differs from the last.
spec fn open_in_turn(r: Reading) -> bool {
    in_turns(r.runs) && (r.runs.len() > 0 ==> r.runs.last().matched != r.matched)
}

proof fn lemma_paint_with_run(runs: Seq<RunView>, text: Seq<char>, matched: bool)
    ensures
        painted(with_run(runs, text, matched)) == painted(runs) + tinted(text, matched),
{
    if text.len() > 0 {
        assert(runs.push(RunView { text, matched }).drop_last() == runs);
    }
    assert(text.len() == 0 ==> painted(runs) + tinted(text, matched) == painted(runs));
}

/// Reading on over characters that are no markers paints them.
proof fn lemma_read_plain(s: Seq<char>, t: Seq<char>)
    requires
        unmarked(t),
    ensures
        reading(s + t).matched == reading(s).matched,
        reading(s + t).runs == reading(s).runs,
        reading(s + t).open == reading(s).open + t,
        paint(reading(s + t)) == paint(reading(s)) + tinted(t, reading(s).matched),
    decreases t.len(),
{
    if t.len() == 0 {
        assert(s + t == s);
        assert(paint(reading(s)) + tinted(t, reading(s).matched) == paint(reading(s)));
    } else {
        let t0 = t.drop_last();
        assert(unmarked(t0)) by {
            assert(forall|i: int| 0 <= i < t0.len() ==> t0[i] == t[i]);
        }
        lemma_read_plain(s, t0);
        assert((s + t).drop_last() == s + t0);
        assert(t[t.len() - 1] != '‹' && t[t.len() - 1] != '›');
        let r = reading(s + t0);
        assert(tinted(r.open.push(t.last()), r.matched) == tinted(r.open, r.matched).push(
            (t.last(), r.matched),
        ));
        assert(tinted(t, r.matched) == tinted(t0, r.matched).push((t.last(), r.matched)));
        let r1 = reading(s + t);
        assert((s + t).last() == t.last());
        assert(r1 == Reading { open: r.open.push(t.last()), ..r });
        assert(paint(r1) == paint(r).push((t.last(), r.matched)));
        assert(paint(r1) == paint(reading(s)) + tinted(t, reading(s).matched));
        assert(r1.open == reading(s).open + t);
    }
}

/// Reading on over a marker paints nothing, and sets whether what follows is
/// matched, where the marker fits what is open.
proof fn lemma_read_marker(s: Seq<char>, opening: bool)
    requires
        opening ==> !reading(s).matched,
        !opening ==> reading(s).matched,
    ensures
        reading(s + seq![if opening { '‹' } else { '›' }]).matched == opening,
        paint(reading(s + seq![if opening { '‹' } else { '›' }])) == paint(reading(s)),
        open_in_turn(reading(s)) && (reading(s).open.len() > 0 || reading(s).runs.len() == 0)
            ==> open_in_turn(reading(s + seq![if opening { '‹' } else { '›' }])),
{
    let m = if opening { '‹' } else { '›' };
    let r = reading(s);
    assert((s + seq![m]).drop_last() == s);
    lemma_paint_with_run(r.runs, r.open, r.matched);
    let after = reading(s + seq![m]);
    assert(after.runs == with_run(r.runs, r.open, r.matched));
    assert(paint(after) == painted(after.runs));
}

/// What stands for a character other than the markers holds no marker.
proof fn lemma_shown_char_unmarked(c: char)
    requires
        c != '‹',
        c != '›',
    ensures
        unmarked(shown_char(c)),
        shown_char(c).len() > 0,
{
}

proof fn lemma_painted_up_to(s: Seq<char>, hit: Seq<bool>, n: int)
    requires
        0 <= n <= s.len(),
        hit.len() == s.len(),
        unmarked(s),
    ensures
        paint(reading(shown(marked_up_to(s, hit, n)))) == hit_chars(s, hit, n),
        reading(shown(marked_up_to(s, hit, n))).matched == (0 < n < s.len() && hit[n - 1]
            && hit[n]),
        open_in_turn(reading(shown(marked_up_to(s, hit, n)))),
        n == 0 ==> reading(shown(marked_up_to(s, hit, n))).runs.len() == 0,
        n > 0 && !hit[n - 1] ==> reading(shown(marked_up_to(s, hit, n))).open.len() > 0,
    decreases n,
{
    if n == 0 {
        assert(paint(reading(shown(marked_up_to(s, hit, n)))) == hit_chars(s, hit, n));
    } else {
        let i = n - 1;
        lemma_painted_up_to(s, hit, i);
        let start = marked_up_to(s, hit, i);
        let opens = hit[i] && (i == 0 || !hit[i - 1]);
        let closes = hit[i] && (i + 1 == s.len() || !hit[i + 1]);
        let a = if opens { seq!['‹'] } else { Seq::<char>::empty() };
        let c = seq![s[i]];
        let b = if closes { seq!['›'] } else { Seq::<char>::empty() };
        assert(marked_char(s, hit, i) == a + c + b);
        assert(start + (a + c + b) == (start + a) + c + b);
        lemma_shown_concat(start + a + c, b);
        lemma_shown_concat(start + a, c);
        lemma_shown_concat(start, a);
        assert(s[i] != '‹' && s[i] != '›');
        lemma_shown_one(s[i]);
        lemma_shown_one('‹');
        lemma_shown_one('›');
        assert(shown(Seq::<char>::empty()) == Seq::<char>::empty());
        let s0 = shown(start);
        let s1 = s0 + shown(a);
        let s2 = s1 + shown(c);
        let s3 = s2 + shown(b);
        assert(shown(marked_up_to(s, hit, n)) == s3);
        if opens {
            lemma_read_marker(s0, true);
        } else {
            assert(s1 == s0);
        }
        assert(reading(s1).matched == hit[i]);
        lemma_shown_char_unmarked(s[i]);
        lemma_read_plain(s1, shown_char(s[i]));
        if closes {
            lemma_read_marker(s2, false);
        } else {
            assert(s3 == s2);
        }
    }
}

proof fn lemma_hit_text(s: Seq<char>, hit: Seq<bool>, n: int)
    requires
        0 <= n <= s.len(),
    ensures
        bare_text(hit_chars(s, hit, n)) == shown(s.take(n)),
    decreases n,
{
    if n == 0 {
        assert(s.take(0) == Seq::<char>::empty());
    } else {
        lemma_hit_text(s, hit, n - 1);
        assert(s.take(n) == s.take(n - 1) + seq![s[n - 1]]);
        lemma_shown_concat(s.take(n - 1), seq![s[n - 1]]);
        lemma_shown_one(s[n - 1]);
        let t = tinted(shown_char(s[n - 1]), hit[n - 1]);
        assert(bare_text(t) == shown_char(s[n - 1]));
        assert(bare_text(hit_chars(s, hit, n - 1) + t) == bare_text(hit_chars(s, hit, n - 1))
            + bare_text(t));
    }
}

/// The markers carry every hit: marking the hits of a text without markers of
/// its own, and reading the result, paints each character, made safe, as
/// matched exactly where it was hit. Together the runs are the text made safe; none
/// is empty, and matched ones and others take turns.
pub proof fn markers_carry_hits(s: Seq<char>, hit: Seq<bool>)
    requires
        hit.len() == s.len(),
        unmarked(s),
    ensures
        painted(runs_of(shown(marked(s, hit)))) == hit_chars(s, hit, s.len() as int),
        bare_text(painted(runs_of(shown(marked(s, hit))))) == shown(s),
        in_turns(runs_of(shown(marked(s, hit)))),
{
    lemma_painted_up_to(s, hit, s.len() as int);
    let r = reading(shown(marked(s, hit)));
    lemma_paint_with_run(r.runs, r.open, r.matched);
    lemma_hit_text(s, hit, s.len() as int);
    assert(s.take(s.len() as int) == s);
}

} // verus!
