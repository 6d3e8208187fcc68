//! The query line of a picker, and the keys that edit it.

use vstd::prelude::*;
use crate::text::trim;
use crate::ui::editing::{
    delete_back, delete_forward, delete_word, erased_back, erased_forward, erased_word,
    insert_char, kill_line, kill_to_end, killed_to_end, lemma_line_at, lemma_line_parts, line,
    moved_end, moved_home, moved_left, moved_right, next_offset, prev_offset, typed, Line,
};
use crate::ui::keys::KeyCode;
use crate::utf8::{byte_len, is_boundary};

verus! {

/// A query and the cursor in it, a byte offset.
pub struct Query {
    pub text: String,
    pub cursor: usize,
}

/// A change to the query line.
#[derive(Clone, Copy, Debug, PartialEq, Eq, Structural)]
pub enum Edit {
    Left,
    Right,
    Home,
    End,
    DeleteBack,
    DeleteForward,
    DeleteWord,
    KillToEnd,
    KillLine,
    Insert(char),
}

/// The line after the change `e`.
pub open spec fn edited(l: Line, e: Edit) -> Line {
    match e {
        Edit::Left => moved_left(l),
        Edit::Right => moved_right(l),
        Edit::Home => moved_home(l),
        Edit::End => moved_end(l),
        Edit::DeleteBack => erased_back(l),
        Edit::DeleteForward => erased_forward(l),
        Edit::DeleteWord => erased_word(l),
        Edit::KillToEnd => killed_to_end(l),
        Edit::KillLine => Line::empty(),
        Edit::Insert(c) => typed(l, c),
    }
}

/// The changes that Ctrl with a letter makes in every picker.
pub open spec fn control_edit(c: char) -> Option<Edit> {
    if c == 'b' {
        Some(Edit::Left)
    } else if c == 'f' {
        Some(Edit::Right)
    } else if c == 'a' {
        Some(Edit::Home)
    } else if c == 'e' {
        Some(Edit::End)
    } else if c == 'h' {
        Some(Edit::DeleteBack)
    } else if c == 'u' {
        Some(Edit::KillLine)
    } else if c == 'w' {
        Some(Edit::DeleteWord)
    } else {
        None
    }
}

/// The changes that Ctrl with a letter makes in every picker.
pub fn control_edit_for(c: char) -> (r: Option<Edit>)
    ensures
        r == control_edit(c),
{
    match c {
        'b' => Some(Edit::Left),
        'f' => Some(Edit::Right),
        'a' => Some(Edit::Home),
        'e' => Some(Edit::End),
        'h' => Some(Edit::DeleteBack),
        'u' => Some(Edit::KillLine),
        'w' => Some(Edit::DeleteWord),
        _ => None,
    }
}

/// How far Ctrl with a letter moves the selection, in every picker.
pub open spec fn control_move(c: char) -> Option<int> {
    if c == 'p' {
        Some(-1)
    } else if c == 'n' {
        Some(1)
    } else {
        None
    }
}

/// The changes that the keys without a letter make in every picker.
pub open spec fn named_edit(code: KeyCode) -> Option<Edit> {
    match code {
        KeyCode::Left => Some(Edit::Left),
        KeyCode::Right => Some(Edit::Right),
        KeyCode::Home => Some(Edit::Home),
        KeyCode::End => Some(Edit::End),
        KeyCode::Backspace => Some(Edit::DeleteBack),
        _ => None,
    }
}

/// The changes that the keys without a letter make in every picker.
pub fn named_edit_for(code: KeyCode) -> (r: Option<Edit>)
    ensures
        r == named_edit(code),
{
    match code {
        KeyCode::Left => Some(Edit::Left),
        KeyCode::Right => Some(Edit::Right),
        KeyCode::Home => Some(Edit::Home),
        KeyCode::End => Some(Edit::End),
        KeyCode::Backspace => Some(Edit::DeleteBack),
        _ => None,
    }
}

/// How far the keys without a letter move the selection, in every picker.
pub open spec fn named_move(code: KeyCode) -> Option<int> {
    match code {
        KeyCode::Up => Some(-1),
        KeyCode::Down => Some(1),
        KeyCode::PageUp => Some(-10),
        KeyCode::PageDown => Some(10),
        _ => None,
    }
}

/// How far the keys without a letter move the selection, in every picker.
pub fn named_move_for(code: KeyCode) -> (r: Option<isize>)
    ensures
        match named_move(code) {
            Some(d) => r == Some(d as isize) && r->0 == d,
            None => r is None,
        },
{
    match code {
        KeyCode::Up => Some(-1),
        KeyCode::Down => Some(1),
        KeyCode::PageUp => Some(-10),
        KeyCode::PageDown => Some(10),
        _ => None,
    }
}

/// How far Ctrl with a letter moves the selection, in every picker.
pub fn control_move_for(c: char) -> (r: Option<isize>)
    ensures
        match control_move(c) {
            Some(d) => r == Some(d as isize) && r->0 == d,
            None => r is None,
        },
{
    match c {
        'p' => Some(-1),
        'n' => Some(1),
        _ => None,
    }
}

impl View for Query {
    type V = Line;

    open spec fn view(&self) -> Line {
        line(self.text@, self.cursor as int)
    }
}

impl Query {
    /// The cursor stands between two characters of the text.
    pub open spec fn wf(self) -> bool {
        is_boundary(self.text@, self.cursor as int)
    }

    /// An empty query.
    pub fn new() -> (q: Query)
        ensures
            q.wf(),
            q@ == Line::empty(),
    {
        proof {
            lemma_line_at(seq![], seq![]);
            assert(Seq::<char>::empty() + Seq::<char>::empty() == Seq::<char>::empty());
        }
        Query { text: String::new(), cursor: 0 }
    }

    /// A query that holds `text`, with the cursor at its end.
    pub fn with_text(text: String) -> (q: Query)
        ensures
            q.wf(),
            q@ == (Line { before: text@, after: seq![] }),
    {
        let cursor = byte_len(text.as_str());
        proof {
            lemma_line_at(text@, seq![]);
            assert(text@ + Seq::<char>::empty() == text@);
        }
        Query { text, cursor }
    }

    /// Whether there is no text.
    pub fn is_empty(&self) -> (r: bool)
        requires
            self.wf(),
        ensures
            r == (self@.text().len() == 0),
    {
        proof {
            lemma_line_parts(self.text@, self.cursor as int);
        }
        self.text.as_str().is_empty()
    }

    /// The text without white space at either end.
    pub fn trimmed(&self) -> (q: String)
        requires
            self.wf(),
        ensures
            q@ == crate::text::trimmed(self@.text()),
    {
        proof {
            lemma_line_parts(self.text@, self.cursor as int);
        }
        trim(self.text.as_str())
    }

    /// Make the change `e`; returns whether the text changed.
    pub fn apply(&mut self, e: Edit) -> (changed: bool)
        requires
            old(self).wf(),
        ensures
            final(self).wf(),
            final(self)@ == edited(old(self)@, e),
            changed == (final(self)@.text() != old(self)@.text()),
    {
        let ghost l = self@;
        proof {
            lemma_line_parts(self.text@, self.cursor as int);
        }
        let changed = match e {
            Edit::Left => {
                self.cursor = prev_offset(self.text.as_str(), self.cursor);
                false
            },
            Edit::Right => {
                self.cursor = next_offset(self.text.as_str(), self.cursor);
                false
            },
            Edit::Home => {
                proof {
                    lemma_line_at(seq![], self.text@);
                    assert(Seq::<char>::empty() + self.text@ == self.text@);
                }
                self.cursor = 0;
                false
            },
            Edit::End => {
                proof {
                    lemma_line_at(self.text@, seq![]);
                    assert(self.text@ + Seq::<char>::empty() == self.text@);
                }
                self.cursor = byte_len(self.text.as_str());
                false
            },
            Edit::DeleteBack => delete_back(&mut self.text, &mut self.cursor),
            Edit::DeleteForward => delete_forward(&mut self.text, &mut self.cursor),
            Edit::DeleteWord => delete_word(&mut self.text, &mut self.cursor),
            Edit::KillToEnd => kill_to_end(&mut self.text, &mut self.cursor),
            Edit::KillLine => kill_line(&mut self.text, &mut self.cursor),
            Edit::Insert(c) => {
                insert_char(&mut self.text, &mut self.cursor, c);
                proof {
                    lemma_line_parts(self.text@, self.cursor as int);
                    assert(self@.text().len() == l.text().len() + 1);
                }
                true
            },
        };
        proof {
            lemma_line_parts(self.text@, self.cursor as int);
        }
        changed
    }
}

} // verus!
