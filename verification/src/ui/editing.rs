//! Readline-style editing of a query line: a string and a cursor, which is the
//! byte offset of a character boundary.
//!
//! Each editing function returns whether the text changed, so that a caller
//! knows whether to search again. Which key maps to which function is up to
//! each picker.

use vstd::prelude::*;
use crate::text::{chars_of, end_of_text, is_white, is_whitespace, substring, trimmed_end};
use crate::utf8::{
    byte_len, index_at, is_boundary, lemma_encode_concat, lemma_index_unique,
    lemma_offset_monotone, lemma_offset_step, locate, offset, size, width,
};

verus! {

/// A line of text with a cursor in it: the characters before the cursor and
/// those from it on.
#[verifier::ext_equal]
pub struct Line {
    pub before: Seq<char>,
    pub after: Seq<char>,
}

impl Line {
    /// The whole text.
    pub open spec fn text(self) -> Seq<char> {
        self.before + self.after
    }

    /// An empty line.
    pub open spec fn empty() -> Line {
        Line { before: seq![], after: seq![] }
    }
}

/// The line that `text` and the byte offset `cursor` stand for.
pub open spec fn line(text: Seq<char>, cursor: int) -> Line {
    let k = index_at(text, cursor);
    Line { before: text.take(k), after: text.skip(k) }
}

/// The line with `c` put in at the cursor, which moves behind it.
pub open spec fn typed(l: Line, c: char) -> Line {
    Line { before: l.before.push(c), after: l.after }
}

/// The line without the character before the cursor.
pub open spec fn erased_back(l: Line) -> Line {
    if l.before.len() == 0 {
        l
    } else {
        Line { before: l.before.drop_last(), after: l.after }
    }
}

/// The line without the character at the cursor.
pub open spec fn erased_forward(l: Line) -> Line {
    if l.after.len() == 0 {
        l
    } else {
        Line { before: l.before, after: l.after.drop_first() }
    }
}

/// The line without what stands at the cursor and behind it.
pub open spec fn killed_to_end(l: Line) -> Line {
    Line { before: l.before, after: seq![] }
}

/// `s` without its last word: what stands behind its last white space.
pub open spec fn without_last_word(s: Seq<char>) -> Seq<char>
    decreases s.len(),
{
    if s.len() == 0 || is_white(s.last()) {
        s
    } else {
        without_last_word(s.drop_last())
    }
}

/// The line without the word before the cursor and the white space between.
pub open spec fn erased_word(l: Line) -> Line {
    Line { before: without_last_word(trimmed_end(l.before)), after: l.after }
}

/// The line with the cursor one character to the left, where there is one.
pub open spec fn moved_left(l: Line) -> Line {
    if l.before.len() == 0 {
        l
    } else {
        Line { before: l.before.drop_last(), after: seq![l.before.last()] + l.after }
    }
}

/// The line with the cursor one character to the right, where there is one.
pub open spec fn moved_right(l: Line) -> Line {
    if l.after.len() == 0 {
        l
    } else {
        Line { before: l.before.push(l.after[0]), after: l.after.drop_first() }
    }
}

/// The line with the cursor at its start.
pub open spec fn moved_home(l: Line) -> Line {
    Line { before: seq![], after: l.text() }
}

/// The line with the cursor at its end.
pub open spec fn moved_end(l: Line) -> Line {
    Line { before: l.text(), after: seq![] }
}

/// The cursor stands behind the characters before it.
pub proof fn lemma_line_at(before: Seq<char>, after: Seq<char>)
    ensures
        is_boundary(before + after, size(before) as int),
        line(before + after, size(before) as int) == (Line { before, after }),
        size(before + after) == size(before) + size(after),
{
    let t = before + after;
    let k = before.len() as int;
    assert(t.take(k) == before);
    assert(t.skip(k) == after);
    lemma_index_unique(t, k);
    lemma_encode_concat(before, after);
}

/// A line is determined by its text and cursor, and the other way round.
pub proof fn lemma_line_parts(text: Seq<char>, cursor: int)
    requires
        is_boundary(text, cursor),
    ensures
        line(text, cursor).text() == text,
        size(line(text, cursor).before) == cursor,
        line(text, cursor).before.len() == index_at(text, cursor),
        line(text, cursor).before.len() == 0 <==> cursor == 0,
        line(text, cursor).after.len() == 0 <==> cursor == size(text),
        0 <= cursor <= size(text),
{
    let k = index_at(text, cursor);
    assert(text.take(k) + text.skip(k) == text);
    assert(offset(text, k) == cursor);
    lemma_offset_monotone(text, k, text.len() as int);
    lemma_offset_monotone(text, 0, k);
}

/// Byte offset of the previous character boundary, or 0 at the start.
pub fn prev_offset(s: &str, pos: usize) -> (r: usize)
    requires
        is_boundary(s@, pos as int),
    ensures
        is_boundary(s@, r as int),
        line(s@, r as int) == moved_left(line(s@, pos as int)),
{
    let v = chars_of(s);
    let k = locate(&v, pos);
    if k == 0 {
        proof {
            lemma_offset_monotone(s@, 0, 0);
        }
        return 0;
    }
    proof {
        lemma_offset_step(s@, k - 1);
        lemma_index_unique(s@, k - 1);
        assert(s@.take(k as int).drop_last() == s@.take(k - 1));
        assert(seq![s@.take(k as int).last()] + s@.skip(k as int) == s@.skip(k - 1));
    }
    pos - width(v[k - 1])
}

/// Byte offset of the next character boundary, or the length at the end.
pub fn next_offset(s: &str, pos: usize) -> (r: usize)
    requires
        is_boundary(s@, pos as int),
    ensures
        is_boundary(s@, r as int),
        line(s@, r as int) == moved_right(line(s@, pos as int)),
{
    let v = chars_of(s);
    let total = byte_len(s);
    let k = locate(&v, pos);
    if k == v.len() {
        proof {
            lemma_offset_monotone(s@, k as int, k as int);
        }
        return total;
    }
    proof {
        lemma_offset_step(s@, k as int);
        lemma_offset_monotone(s@, k + 1, s@.len() as int);
        lemma_index_unique(s@, k + 1);
        assert(s@.take(k as int).push(s@.skip(k as int)[0]) == s@.take(k + 1));
        assert(s@.skip(k as int).drop_first() == s@.skip(k + 1));
    }
    pos + width(v[k])
}

/// Cut the characters `from..to` out of `query` and put the cursor there.
fn cut(query: &mut String, cursor: &mut usize, from: usize, to: usize)
    requires
        from <= to <= old(query)@.len(),
        offset(old(query)@, from as int) <= usize::MAX,
    ensures
        final(query)@ == old(query)@.take(from as int) + old(query)@.skip(to as int),
        *final(cursor) == offset(old(query)@, from as int),
        is_boundary(final(query)@, *final(cursor) as int),
        line(final(query)@, *final(cursor) as int) == (Line {
            before: old(query)@.take(from as int),
            after: old(query)@.skip(to as int),
        }),
{
    let v = chars_of(query.as_str());
    let mut head = substring(&v, 0, from);
    let pos = byte_len(head.as_str());
    let tail = substring(&v, to, v.len());
    assert(head@ == v@.take(from as int));
    assert(tail@ == v@.skip(to as int));
    proof {
        lemma_line_at(head@, tail@);
    }
    head.append(tail.as_str());
    *query = head;
    *cursor = pos;
}

/// Put `c` in at the cursor and move the cursor behind it.
pub fn insert_char(query: &mut String, cursor: &mut usize, c: char)
    requires
        is_boundary(old(query)@, *old(cursor) as int),
    ensures
        is_boundary(final(query)@, *final(cursor) as int),
        line(final(query)@, *final(cursor) as int) == typed(
            line(old(query)@, *old(cursor) as int),
            c,
        ),
{
    let v = chars_of(query.as_str());
    let k = locate(&v, *cursor);
    let mut head = substring(&v, 0, k);
    let tail = substring(&v, k, v.len());
    assert(head@ == v@.take(k as int));
    assert(tail@ == v@.skip(k as int));
    head.push(c);
    let pos = byte_len(head.as_str());
    proof {
        lemma_line_at(head@, tail@);
    }
    head.append(tail.as_str());
    *query = head;
    *cursor = pos;
}

/// Delete the character before the cursor (Backspace, Ctrl-H).
pub fn delete_back(query: &mut String, cursor: &mut usize) -> (changed: bool)
    requires
        is_boundary(old(query)@, *old(cursor) as int),
    ensures
        is_boundary(final(query)@, *final(cursor) as int),
        line(final(query)@, *final(cursor) as int) == erased_back(
            line(old(query)@, *old(cursor) as int),
        ),
        changed == (*old(cursor) != 0),
        changed == (final(query)@ != old(query)@),
{
    proof {
        lemma_line_parts(query@, *cursor as int);
    }
    if *cursor == 0 {
        return false;
    }
    let v = chars_of(query.as_str());
    let k = locate(&v, *cursor);
    proof {
        lemma_offset_step(v@, k - 1);
    }
    cut(query, cursor, k - 1, k);
    assert(v@.take(k as int).drop_last() == v@.take(k - 1));
    assert(query@.len() == v@.len() - 1);
    true
}

/// Delete the character at the cursor (Ctrl-D).
pub fn delete_forward(query: &mut String, cursor: &mut usize) -> (changed: bool)
    requires
        is_boundary(old(query)@, *old(cursor) as int),
    ensures
        is_boundary(final(query)@, *final(cursor) as int),
        line(final(query)@, *final(cursor) as int) == erased_forward(
            line(old(query)@, *old(cursor) as int),
        ),
        changed == (*old(cursor) < size(old(query)@)),
        changed == (final(query)@ != old(query)@),
        *final(cursor) == *old(cursor),
{
    proof {
        lemma_line_parts(query@, *cursor as int);
    }
    if *cursor >= byte_len(query.as_str()) {
        return false;
    }
    let v = chars_of(query.as_str());
    let k = locate(&v, *cursor);
    assert(k < v.len());
    cut(query, cursor, k, k + 1);
    assert(v@.skip(k as int).drop_first() == v@.skip(k + 1));
    assert(query@.len() == v@.len() - 1);
    true
}

/// Kill from the cursor to the end of the line (Ctrl-K).
pub fn kill_to_end(query: &mut String, cursor: &mut usize) -> (changed: bool)
    requires
        is_boundary(old(query)@, *old(cursor) as int),
    ensures
        is_boundary(final(query)@, *final(cursor) as int),
        line(final(query)@, *final(cursor) as int) == killed_to_end(
            line(old(query)@, *old(cursor) as int),
        ),
        changed == (*old(cursor) < size(old(query)@)),
        changed == (final(query)@ != old(query)@),
        *final(cursor) == *old(cursor),
{
    proof {
        lemma_line_parts(query@, *cursor as int);
    }
    if *cursor >= byte_len(query.as_str()) {
        return false;
    }
    let v = chars_of(query.as_str());
    let k = locate(&v, *cursor);
    cut(query, cursor, k, v.len());
    assert(v@.skip(v@.len() as int) == Seq::<char>::empty());
    assert(query@.len() == k);
    true
}

/// Kill the whole line (Ctrl-U).
pub fn kill_line(query: &mut String, cursor: &mut usize) -> (changed: bool)
    requires
        is_boundary(old(query)@, *old(cursor) as int),
    ensures
        is_boundary(final(query)@, *final(cursor) as int),
        line(final(query)@, *final(cursor) as int) == Line::empty(),
        changed == (old(query)@.len() > 0),
        changed == (final(query)@ != old(query)@),
{
    proof {
        lemma_line_at(seq![], seq![]);
        lemma_line_parts(query@, *cursor as int);
        assert(Seq::<char>::empty() + Seq::<char>::empty() == Seq::<char>::empty());
    }
    if query.as_str().is_empty() {
        assert(query@ == Seq::<char>::empty());
        return false;
    }
    *query = String::new();
    *cursor = 0;
    true
}

/// Where the last word of `v[..to]` begins.
fn word_start(v: &Vec<char>, to: usize) -> (k: usize)
    requires
        to <= v@.len(),
    ensures
        k <= to,
        without_last_word(v@.take(to as int)) == v@.take(k as int),
{
    let mut k: usize = to;
    while k > 0 && !is_whitespace(v[k - 1])
        invariant
            k <= to <= v@.len(),
            without_last_word(v@.take(to as int)) == without_last_word(v@.take(k as int)),
        decreases k,
    {
        assert(v@.take(k as int).drop_last() == v@.take(k - 1));
        k -= 1;
    }
    k
}

/// Trimming and dropping a word leave a prefix.
proof fn lemma_word_is_prefix(s: Seq<char>)
    ensures
        trimmed_end(s).len() <= s.len(),
        without_last_word(s).len() <= s.len(),
        s.len() > 0 ==> without_last_word(trimmed_end(s)).len() < s.len(),
    decreases s.len(),
{
    if s.len() > 0 {
        lemma_word_is_prefix(s.drop_last());
    }
}

/// Delete the word before the cursor (Ctrl-W), with the white space between:
/// with the cursor at the end of `foo bar `, that is `bar `.
pub fn delete_word(query: &mut String, cursor: &mut usize) -> (changed: bool)
    requires
        is_boundary(old(query)@, *old(cursor) as int),
    ensures
        is_boundary(final(query)@, *final(cursor) as int),
        line(final(query)@, *final(cursor) as int) == erased_word(
            line(old(query)@, *old(cursor) as int),
        ),
        changed == (*old(cursor) != 0),
        changed == (final(query)@ != old(query)@),
{
    proof {
        lemma_line_parts(query@, *cursor as int);
    }
    if *cursor == 0 {
        assert(trimmed_end(line(query@, 0).before) == line(query@, 0).before);
        return false;
    }
    let v = chars_of(query.as_str());
    let k = locate(&v, *cursor);
    let to = end_of_text(&v, 0, k);
    assert(v@.subrange(0, k as int) == v@.take(k as int));
    assert(v@.subrange(0, to as int) == v@.take(to as int));
    let start = word_start(&v, to);
    proof {
        lemma_word_is_prefix(v@.take(k as int));
        lemma_offset_monotone(v@, start as int, k as int);
    }
    cut(query, cursor, start, k);
    assert(query@.len() == v@.len() - (k - start));
    true
}

/// A character typed and then deleted backwards leaves the line as it was.
pub proof fn type_then_delete_back(l: Line, c: char)
    ensures
        erased_back(typed(l, c)) == l,
{
    assert(l.before.push(c).drop_last() == l.before);
}

/// Moving the cursor leaves the text alone, and moving right after a step to
/// the left comes back.
pub proof fn movement_keeps_text(l: Line)
    ensures
        moved_left(l).text() == l.text(),
        moved_right(l).text() == l.text(),
        moved_home(l).text() == l.text(),
        moved_end(l).text() == l.text(),
        l.before.len() > 0 ==> moved_right(moved_left(l)) == l,
        l.after.len() > 0 ==> moved_left(moved_right(l)) == l,
{
    if l.before.len() > 0 {
        let m = moved_left(l);
        assert(m.text() =~= l.text());
        assert(moved_right(m).before =~= l.before);
        assert(moved_right(m).after =~= l.after);
    }
    if l.after.len() > 0 {
        let m = moved_right(l);
        assert(m.text() =~= l.text());
        assert(moved_left(m).before =~= l.before);
        assert(moved_left(m).after =~= l.after);
    }
    assert(moved_home(l).text() =~= l.text());
    assert(moved_end(l).text() =~= l.text());
}

/// Deleting the character at the cursor is a step to the right and a deletion
/// backwards.
pub proof fn delete_forward_is_right_then_back(l: Line)
    requires
        l.after.len() > 0,
    ensures
        erased_forward(l) == erased_back(moved_right(l)),
{
    assert(l.before.push(l.after[0]).drop_last() == l.before);
}

} // verus!
