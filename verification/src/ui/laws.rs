//! What the keys of every picker do to the line that is typed and to the selection,
//! and what a cell of a list shows.

use vstd::prelude::*;
use crate::base::fuzzy::{match_of, picked};
use crate::base::sanitize::plain_text_is_shown_as_is;
use crate::laws::{blank, unbroken};
use crate::text::{is_control, is_white, trimmed_end};
use crate::ui::editing::{without_last_word, Line};
use crate::ui::highlight::{painted, tinted, RunView};
use crate::ui::keys::KeyCode;
use crate::ui::picker::{
    cell_runs, grouped_shows_everything, moved_selection, prompt_column,
};
use crate::ui::query::{
    control_edit, control_move, edited, named_edit, named_move, Edit,
};

verus! {

// ---- the line ------------------------------------------------------------------------

/// A character that is typed stands where the cursor stood, and the cursor stands
/// behind it; the rest of the line stays.
pub proof fn typing_goes_to_the_cursor(before: Seq<char>, c: char, after: Seq<char>)
    ensures
        edited(Line { before, after }, Edit::Insert(c)) == (Line {
            before: before + seq![c],
            after,
        }),
        edited(Line { before, after }, Edit::Insert(c)).text() == before + seq![c] + after,
{
    assert(before.push(c) == before + seq![c]);
}

/// Deleting takes the character before the cursor or the one behind it, and nothing
/// where there is none.
pub proof fn deleting_takes_one_character(before: Seq<char>, c: char, after: Seq<char>)
    ensures
        edited(Line { before: before + seq![c], after }, Edit::DeleteBack) == (Line {
            before,
            after,
        }),
        edited(Line { before, after: seq![c] + after }, Edit::DeleteForward) == (Line {
            before,
            after,
        }),
        edited(Line { before: seq![], after }, Edit::DeleteBack) == (Line {
            before: seq![],
            after,
        }),
        edited(Line { before, after: seq![] }, Edit::DeleteForward) == (Line {
            before,
            after: seq![],
        }),
{
    assert((before + seq![c]).drop_last() == before);
    assert((seq![c] + after).drop_first() == after);
}

/// The cursor moves by one character to the left or to the right, and to either end;
/// the text stays.
pub proof fn the_cursor_moves(before: Seq<char>, c: char, after: Seq<char>)
    ensures
        edited(Line { before: before + seq![c], after }, Edit::Left) == (Line {
            before,
            after: seq![c] + after,
        }),
        edited(Line { before, after: seq![c] + after }, Edit::Right) == (Line {
            before: before + seq![c],
            after,
        }),
        edited(Line { before, after }, Edit::Home) == (Line {
            before: seq![],
            after: before + after,
        }),
        edited(Line { before, after }, Edit::End) == (Line {
            before: before + after,
            after: seq![],
        }),
{
    assert((before + seq![c]).drop_last() == before);
    assert((seq![c] + after).drop_first() == after);
    assert(before.push(c) == before + seq![c]);
}

proof fn lemma_ends_trimmed(s: Seq<char>, b: Seq<char>)
    requires
        blank(b),
        s.len() > 0,
        !is_white(s.last()),
    ensures
        trimmed_end(s + b) == s,
    decreases b.len(),
{
    if b.len() > 0 {
        let c = b.drop_last();
        assert((s + b).last() == b[b.len() - 1]);
        assert((s + b).drop_last() == s + c);
        assert forall|i: int| 0 <= i < c.len() implies is_white(#[trigger] c[i]) by {
            assert(c[i] == b[i]);
        }
        lemma_ends_trimmed(s, c);
    } else {
        assert(s + b == s);
    }
}

proof fn lemma_word_goes(a: Seq<char>, w: Seq<char>)
    requires
        a.len() == 0 || is_white(a.last()),
        unbroken(w),
    ensures
        without_last_word(a + w) == a,
    decreases w.len(),
{
    let s = a + w;
    if w.len() > 0 {
        let v = w.drop_last();
        assert(s.last() == w[w.len() - 1]);
        assert(s.drop_last() == a + v);
        assert forall|i: int| 0 <= i < v.len() implies !is_white(#[trigger] v[i]) by {
            assert(v[i] == w[i]);
        }
        lemma_word_goes(a, v);
    } else {
        assert(s == a);
    }
}

/// Deleting a word takes the word before the cursor, all of it, with the white space
/// between them, and nothing before the word or behind the cursor.
pub proof fn deleting_takes_one_word(
    a: Seq<char>,
    w: Seq<char>,
    b: Seq<char>,
    after: Seq<char>,
)
    requires
        a.len() == 0 || is_white(a.last()),
        unbroken(w),
        w.len() > 0,
        blank(b),
    ensures
        edited(Line { before: a + w + b, after }, Edit::DeleteWord) == (Line { before: a, after }),
{
    let s = a + w;
    assert(s.last() == w[w.len() - 1]);
    lemma_ends_trimmed(s, b);
    lemma_word_goes(a, w);
}

/// The end of the line can be taken away from the cursor on, or all of it.
pub proof fn the_line_can_be_cleared(before: Seq<char>, after: Seq<char>)
    ensures
        edited(Line { before, after }, Edit::KillToEnd).text() == before,
        edited(Line { before, after }, Edit::KillToEnd).before == before,
        edited(Line { before, after }, Edit::KillLine).text() == Seq::<char>::empty(),
{
    assert(before + Seq::<char>::empty() == before);
    assert(Seq::<char>::empty() + Seq::<char>::empty() == Seq::<char>::empty());
}

/// The keys with a name and the control keys that stand for them do the same, and each
/// control key does what it is known for.
pub proof fn control_keys_stand_for_named_ones()
    ensures
        control_edit('b') == named_edit(KeyCode::Left) && control_edit('b') == Some(Edit::Left),
        control_edit('f') == named_edit(KeyCode::Right) && control_edit('f') == Some(Edit::Right),
        control_edit('a') == named_edit(KeyCode::Home) && control_edit('a') == Some(Edit::Home),
        control_edit('e') == named_edit(KeyCode::End) && control_edit('e') == Some(Edit::End),
        control_edit('h') == named_edit(KeyCode::Backspace) && control_edit('h') == Some(
            Edit::DeleteBack,
        ),
        control_edit('u') == Some(Edit::KillLine),
        control_edit('w') == Some(Edit::DeleteWord),
        control_move('p') == named_move(KeyCode::Up),
        control_move('n') == named_move(KeyCode::Down),
{
}

// ---- the selection -------------------------------------------------------------------

/// Up and down go to the neighbouring row and the page keys ten rows further; at either
/// end the selection stays in the list.
pub proof fn keys_move_through_the_list(i: usize, len: nat)
    requires
        i < len <= usize::MAX,
    ensures
        moved_selection(Some(i), len, named_move(KeyCode::Down)->0) == Some(
            if i + 1 < len {
                (i + 1) as usize
            } else {
                i
            },
        ),
        moved_selection(Some(i), len, named_move(KeyCode::Up)->0) == Some(
            if i > 0 {
                (i - 1) as usize
            } else {
                i
            },
        ),
        i + 10 < len ==> moved_selection(Some(i), len, named_move(KeyCode::PageDown)->0) == Some(
            (i + 10) as usize,
        ),
        i >= 10 ==> moved_selection(Some(i), len, named_move(KeyCode::PageUp)->0) == Some(
            (i - 10) as usize,
        ),
        i + 10 >= len ==> moved_selection(Some(i), len, named_move(KeyCode::PageDown)->0) == Some(
            (len - 1) as usize,
        ),
        i < 10 ==> moved_selection(Some(i), len, named_move(KeyCode::PageUp)->0) == Some(0usize),
{
}

// ---- what a cell shows ----------------------------------------------------------------

/// A cell shows its text, all of it and in order, with each character set off that the
/// matcher matched, and no other; without a search nothing is set off.
pub proof fn cells_show_the_text(text: Seq<char>, query: Seq<char>)
    requires
        forall|i: int| 0 <= i < text.len() ==> !is_control(#[trigger] text[i]),
    ensures
        query.len() > 0 && match_of(query, text) is Some ==> painted(cell_runs(text, query))
            == Seq::new(
            text.len(),
            |n: int|
                (
                    text[n],
                    exists|j: int|
                        0 <= j < (match_of(query, text)->0).1.len() && #[trigger] (match_of(
                            query,
                            text,
                        )->0).1[j] == n,
                ),
        ),
        query.len() == 0 || match_of(query, text) is None ==> painted(cell_runs(text, query))
            == Seq::new(text.len(), |n: int| (text[n], false)),
{
    plain_text_is_shown_as_is(text);
    if query.len() == 0 || match_of(query, text) is None {
        let one = seq![RunView { text, matched: false }];
        assert(one.drop_last() == Seq::<RunView>::empty());
        assert(painted(one.drop_last()) == Seq::<(char, bool)>::empty());
        assert(painted(one) =~= tinted(text, false));
        assert(tinted(text, false) =~= Seq::new(text.len(), |n: int| (text[n], false)));
    } else {
        let hit = picked((match_of(query, text)->0).1, text.len());
        grouped_shows_everything(text, hit, text.len() as int);
        assert(painted(cell_runs(text, query)) =~= Seq::new(
            text.len(),
            |n: int|
                (
                    text[n],
                    exists|j: int|
                        0 <= j < (match_of(query, text)->0).1.len() && #[trigger] (match_of(
                            query,
                            text,
                        )->0).1[j] == n,
                ),
        ));
    }
}

/// The cursor stands behind the two columns of the prompt and what is typed before it,
/// as long as that fits.
pub proof fn the_cursor_stands_behind_the_prompt(before: nat, x: u16, width: u16)
    requires
        2 + before < width,
        x + width <= 0xffff,
    ensures
        prompt_column(before, x, width) == x + 2 + before,
{
}

} // verus!
