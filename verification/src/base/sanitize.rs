//! Stored text made safe to print to a terminal.

use vstd::prelude::*;
use crate::text::{chars_of, is_control};

verus! {

/// What stands for the character `c` on one line of a terminal: control
/// characters never reach the terminal as themselves.
pub open spec fn shown_char(c: char) -> Seq<char> {
    if c == '\n' {
        seq!['\u{21B5}']
    } else if c == '\t' {
        seq![' ']
    } else if c == '\u{7f}' {
        seq!['^', '?']
    } else if c <= '\u{1f}' {
        seq!['^', (('@' as u8 + c as u8) as u8) as char]
    } else if is_control(c) {
        seq!['\u{FFFD}']
    } else {
        seq![c]
    }
}

/// What stands for the text `s` on one line of a terminal.
pub open spec fn shown(s: Seq<char>) -> Seq<char>
    decreases s.len(),
{
    if s.len() == 0 {
        seq![]
    } else {
        shown(s.drop_last()) + shown_char(s.last())
    }
}

/// What stands for the character `c` in text of several lines: newlines and
/// tabs keep their place.
pub open spec fn shown_in_lines_char(c: char) -> Seq<char> {
    if c == '\n' || c == '\t' {
        seq![c]
    } else {
        shown_char(c)
    }
}

/// What stands for the text `s` on several lines of a terminal.
pub open spec fn shown_in_lines(s: Seq<char>) -> Seq<char>
    decreases s.len(),
{
    if s.len() == 0 {
        seq![]
    } else {
        shown_in_lines(s.drop_last()) + shown_in_lines_char(s.last())
    }
}

/// Append to `out` what stands for `c` on one line of a terminal.
fn push_shown(out: &mut String, c: char)
    ensures
        final(out)@ == old(out)@ + shown_char(c),
{
    let ghost before = out@;
    if c == '\n' {
        out.push('\u{21B5}');
    } else if c == '\t' {
        out.push(' ');
    } else if c == '\u{7f}' {
        out.push('^');
        out.push('?');
    } else if c <= '\u{1f}' {
        out.push('^');
        out.push((64 + c as u8) as char);
    } else if c >= '\u{7f}' && c <= '\u{9f}' {
        out.push('\u{FFFD}');
    } else {
        out.push(c);
    }
    assert(out@ == before + shown_char(c));
}

/// Make stored text safe to print on one line of a terminal, so that an escape
/// sequence in it cannot drive the terminal: C0 characters become caret
/// notation (`^[`), DEL becomes `^?`, a newline `↵`, a tab a space, and the C1
/// characters U+FFFD.
pub fn sanitize_display(s: &str) -> (out: String)
    ensures
        out@ == shown(s@),
{
    let v = chars_of(s);
    let mut out = String::new();
    let mut i: usize = 0;
    while i < v.len()
        invariant
            i <= v@.len(),
            v@ == s@,
            out@ == shown(v@.take(i as int)),
        decreases v@.len() - i,
    {
        assert(v@.take(i + 1).drop_last() == v@.take(i as int));
        push_shown(&mut out, v[i]);
        i += 1;
    }
    assert(v@.take(v@.len() as int) == v@);
    out
}

/// Like [`sanitize_display`], but newlines and tabs stay, so that text of
/// several lines keeps its shape.
pub fn sanitize_multiline(s: &str) -> (out: String)
    ensures
        out@ == shown_in_lines(s@),
{
    let v = chars_of(s);
    let mut out = String::new();
    let mut i: usize = 0;
    while i < v.len()
        invariant
            i <= v@.len(),
            v@ == s@,
            out@ == shown_in_lines(v@.take(i as int)),
        decreases v@.len() - i,
    {
        assert(v@.take(i + 1).drop_last() == v@.take(i as int));
        let c = v[i];
        if c == '\n' || c == '\t' {
            let ghost before = out@;
            out.push(c);
            assert(out@ == before + seq![c]);
        } else {
            push_shown(&mut out, c);
        }
        i += 1;
    }
    assert(v@.take(v@.len() as int) == v@);
    out
}

/// Shown text is that of its parts, in order.
pub proof fn lemma_shown_concat(a: Seq<char>, b: Seq<char>)
    ensures
        shown(a + b) == shown(a) + shown(b),
    decreases b.len(),
{
    if b.len() == 0 {
        assert(a + b == a);
        assert(shown(a) + shown(b) == shown(a));
    } else {
        lemma_shown_concat(a, b.drop_last());
        assert((a + b).drop_last() == a + b.drop_last());
        assert(shown(a + b) == shown(a) + shown(b));
    }
}

/// One character is shown as what stands for it.
pub proof fn lemma_shown_one(c: char)
    ensures
        shown(seq![c]) == shown_char(c),
{
    assert(seq![c].drop_last() == Seq::<char>::empty());
    assert(shown(Seq::<char>::empty()) == Seq::<char>::empty());
    assert(shown(seq![c]) == shown_char(c));
}

/// No control character stands for a character.
proof fn lemma_shown_char_no_control(c: char)
    ensures
        forall|i: int| 0 <= i < shown_char(c).len() ==> !is_control(#[trigger] shown_char(c)[i]),
{
    let t = shown_char(c);
    if c <= '\u{1f}' {
        assert(64 <= t[1] as u32 <= 95 || t.len() == 1);
    }
}

/// What is shown on one line holds no control character.
pub proof fn shown_has_no_control(s: Seq<char>)
    ensures
        forall|i: int| 0 <= i < shown(s).len() ==> !is_control(#[trigger] shown(s)[i]),
    decreases s.len(),
{
    if s.len() > 0 {
        let head = shown(s.drop_last());
        shown_has_no_control(s.drop_last());
        lemma_shown_char_no_control(s.last());
        assert forall|i: int| 0 <= i < shown(s).len() implies !is_control(
            #[trigger] shown(s)[i],
        ) by {
            if i < head.len() {
                assert(shown(s)[i] == head[i]);
            } else {
                assert(shown(s)[i] == shown_char(s.last())[i - head.len()]);
            }
        }
    }
}

/// What is shown on several lines holds no control character but newlines and
/// tabs.
pub proof fn shown_in_lines_keeps_only_layout(s: Seq<char>)
    ensures
        forall|i: int|
            0 <= i < shown_in_lines(s).len() ==> {
                let c = #[trigger] shown_in_lines(s)[i];
                !is_control(c) || c == '\n' || c == '\t'
            },
    decreases s.len(),
{
    if s.len() > 0 {
        let head = shown_in_lines(s.drop_last());
        shown_in_lines_keeps_only_layout(s.drop_last());
        lemma_shown_char_no_control(s.last());
        assert forall|i: int| 0 <= i < shown_in_lines(s).len() implies {
            let c = #[trigger] shown_in_lines(s)[i];
            !is_control(c) || c == '\n' || c == '\t'
        } by {
            if i < head.len() {
                assert(shown_in_lines(s)[i] == head[i]);
            } else {
                assert(shown_in_lines(s)[i] == shown_in_lines_char(s.last())[i - head.len()]);
            }
        }
    }
}

/// Text without control characters is shown as it is.
pub proof fn plain_text_is_shown_as_is(s: Seq<char>)
    requires
        forall|i: int| 0 <= i < s.len() ==> !is_control(#[trigger] s[i]),
    ensures
        shown(s) == s,
        shown_in_lines(s) == s,
    decreases s.len(),
{
    if s.len() > 0 {
        let t = s.drop_last();
        assert(forall|i: int| 0 <= i < t.len() ==> t[i] == s[i]);
        plain_text_is_shown_as_is(t);
        assert(!is_control(s[s.len() - 1]));
        assert(t + seq![s.last()] == s);
    }
}

/// Making text safe once is enough: a second time changes nothing.
pub proof fn shown_is_idempotent(s: Seq<char>)
    ensures
        shown(shown(s)) == shown(s),
{
    shown_has_no_control(s);
    plain_text_is_shown_as_is(shown(s));
}

} // verus!
