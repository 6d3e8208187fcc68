//! The picker over the clipboard history. Every change of the query searches
//! anew; Enter copies the selected entry back, Tab prints it, and Ctrl-X forgets
//! it once that was confirmed.
//!
//! The program searches, and talks to the daemon; what came of it is handed back.

use vstd::prelude::*;
use crate::base::sanitize::{sanitize_multiline, shown, shown_in_lines};
use crate::hugin::format::{human_size, size_text};
use crate::hugin::proto::{
    entry_views, EntryMeta, EntryView, Request, RequestView, SearchSort,
};
use crate::number::{decimal, decimal_of, signed_decimal, signed_decimal_of};
use crate::sorting::{earlier, sort_strings, sorted, sorting_keeps_items};
use crate::text::{
    copy_strings, join, joined, opt_copy, opt_view, pad_left, right_aligned, views,
};
use crate::ui::config::Layout;
use crate::ui::editing::Line;
use crate::ui::highlight::{highlight_snippet, run_views, runs_of, Run, RunView};
use crate::ui::keys::{KeyCode, KeyEvent, KeyEventKind};
use crate::ui::picker::{move_selection, moved_selection};
use crate::ui::query::{
    control_edit, control_edit_for, control_move, control_move_for, edited, named_edit,
    named_edit_for, named_move, named_move_for, Edit, Query,
};

verus! {

/// How many characters of the text of an entry its preview shows.
pub const PREVIEW_CHARS: usize = 10_000;

/// How the picker ends.
#[derive(Clone, Copy, Debug, PartialEq, Eq, Structural)]
pub enum Outcome {
    /// The entry was copied.
    Copied,
    /// Print this entry.
    Print(i64),
    /// Do nothing.
    Cancel,
}

/// What the preview shows of an entry.
pub enum Preview {
    /// The beginning of its text.
    Text(String),
    /// What is known of an entry without text.
    Binary(String),
}

/// What a [`Preview`] holds.
pub ghost enum PreviewView {
    Text(Seq<char>),
    Binary(Seq<char>),
}

impl View for Preview {
    type V = PreviewView;

    open spec fn view(&self) -> PreviewView {
        match self {
            Preview::Text(s) => PreviewView::Text(s@),
            Preview::Binary(s) => PreviewView::Binary(s@),
        }
    }
}

/// What a key goes to.
pub enum Mode {
    /// The query and the list.
    Normal,
    /// The question whether the selected entry is to be forgotten.
    ConfirmDelete,
    /// The choice of a form to copy.
    MimeChooser { mimes: Vec<String>, sel: usize },
}

/// What a [`Mode`] holds.
#[verifier::ext_equal]
pub ghost enum ModeView {
    Normal,
    ConfirmDelete,
    MimeChooser { mimes: Seq<Seq<char>>, sel: usize },
}

impl View for Mode {
    type V = ModeView;

    open spec fn view(&self) -> ModeView {
        match self {
            Mode::Normal => ModeView::Normal,
            Mode::ConfirmDelete => ModeView::ConfirmDelete,
            Mode::MimeChooser { mimes, sel } => ModeView::MimeChooser {
                mimes: views(mimes@),
                sel: *sel,
            },
        }
    }
}

/// The state of the picker.
pub struct State {
    pub query: Query,
    pub sort: SearchSort,
    /// The selection that the list is about, or both.
    pub selection: Option<String>,
    pub results: Vec<EntryMeta>,
    pub selected: Option<usize>,
    pub mode: Mode,
    /// A message.
    pub status: Option<String>,
    /// The preview, and the entry that it is of.
    pub preview: Option<(i64, Preview)>,
}

/// What a [`State`] holds.
#[verifier::ext_equal]
pub ghost struct StateView {
    pub line: Line,
    pub sort: SearchSort,
    pub selection: Option<Seq<char>>,
    pub results: Seq<EntryView>,
    pub selected: Option<usize>,
    pub mode: ModeView,
    pub status: Option<Seq<char>>,
    pub preview: Option<(i64, PreviewView)>,
}

impl View for State {
    type V = StateView;

    open spec fn view(&self) -> StateView {
        StateView {
            line: self.query@,
            sort: self.sort,
            selection: opt_view(self.selection),
            results: entry_views(self.results@),
            selected: self.selected,
            mode: self.mode@,
            status: opt_view(self.status),
            preview: match self.preview {
                Some(p) => Some((p.0, p.1@)),
                None => None,
            },
        }
    }
}

/// What the program does for the picker after a key.
pub enum Step {
    /// Nothing.
    Continue,
    /// Search anew.
    Refresh,
    /// End.
    Accept(Outcome),
    /// Ask the daemon to copy an entry.
    Copy(Request),
    /// Ask the daemon to forget an entry.
    Delete(Request),
}

/// What a [`Step`] holds.
pub ghost enum StepView {
    Continue,
    Refresh,
    Accept(Outcome),
    Copy(RequestView),
    Delete(RequestView),
}

impl View for Step {
    type V = StepView;

    open spec fn view(&self) -> StepView {
        match self {
            Step::Continue => StepView::Continue,
            Step::Refresh => StepView::Refresh,
            Step::Accept(o) => StepView::Accept(*o),
            Step::Copy(r) => StepView::Copy(r@),
            Step::Delete(r) => StepView::Delete(r@),
        }
    }
}

/// What holds of a mode: one of the forms to choose from is selected.
pub open spec fn valid_mode(m: ModeView) -> bool {
    match m {
        ModeView::MimeChooser { mimes, sel } => sel < mimes.len(),
        _ => true,
    }
}

// ---- keys ------------------------------------------------------------------------

/// What a key means to the query and the list.
#[derive(Clone, Copy, Debug, PartialEq, Eq, Structural)]
pub enum Command {
    Nothing,
    Cancel,
    Copy,
    Print,
    /// Choose a form to copy.
    Choose,
    /// Ask whether the entry is to be forgotten.
    Arm,
    /// Change the order of the list.
    Sort,
    Select(isize),
    Edit(Edit),
}

/// What the letter `c` means.
pub open spec fn letter_command(c: char, ctrl: bool, empty: bool) -> Command {
    if !ctrl {
        Command::Edit(Edit::Insert(c))
    } else if c == 'c' || c == 'g' || (c == 'd' && empty) {
        Command::Cancel
    } else if c == 'd' {
        Command::Edit(Edit::DeleteForward)
    } else if c == 'k' {
        Command::Edit(Edit::KillToEnd)
    } else if c == 'o' {
        Command::Choose
    } else if c == 'x' {
        Command::Arm
    } else if c == 'r' {
        Command::Sort
    } else if control_move(c) is Some {
        Command::Select(control_move(c)->0 as isize)
    } else if control_edit(c) is Some {
        Command::Edit(control_edit(c)->0)
    } else {
        Command::Nothing
    }
}

/// What a key means to the query and the list.
pub open spec fn command(code: KeyCode, ctrl: bool, empty: bool) -> Command {
    match code {
        KeyCode::Esc => Command::Cancel,
        KeyCode::Enter => Command::Copy,
        KeyCode::Tab => Command::Print,
        KeyCode::Char(c) => letter_command(c, ctrl, empty),
        _ => if named_move(code) is Some {
            Command::Select(named_move(code)->0 as isize)
        } else if named_edit(code) is Some {
            Command::Edit(named_edit(code)->0)
        } else {
            Command::Nothing
        },
    }
}

/// What a key means to the query and the list.
pub fn command_for(code: KeyCode, ctrl: bool, empty: bool) -> (r: Command)
    ensures
        r == command(code, ctrl, empty),
{
    match code {
        KeyCode::Esc => Command::Cancel,
        KeyCode::Enter => Command::Copy,
        KeyCode::Tab => Command::Print,
        KeyCode::Char(c) => {
            if !ctrl {
                return Command::Edit(Edit::Insert(c));
            }
            match c {
                'c' | 'g' => Command::Cancel,
                'd' => if empty {
                    Command::Cancel
                } else {
                    Command::Edit(Edit::DeleteForward)
                },
                'k' => Command::Edit(Edit::KillToEnd),
                'o' => Command::Choose,
                'x' => Command::Arm,
                'r' => Command::Sort,
                _ => {
                    if let Some(d) = control_move_for(c) {
                        return Command::Select(d);
                    }
                    match control_edit_for(c) {
                        Some(e) => Command::Edit(e),
                        None => Command::Nothing,
                    }
                },
            }
        },
        _ => {
            if let Some(d) = named_move_for(code) {
                return Command::Select(d);
            }
            match named_edit_for(code) {
                Some(e) => Command::Edit(e),
                None => Command::Nothing,
            }
        },
    }
}

/// What a key means to the choice of a form.
#[derive(Clone, Copy, Debug, PartialEq, Eq, Structural)]
pub enum Choice {
    Nothing,
    Back,
    Up,
    Down,
    Take,
}

/// What a key means to the choice of a form.
pub open spec fn choice(code: KeyCode, ctrl: bool) -> Choice {
    match code {
        KeyCode::Esc => Choice::Back,
        KeyCode::Up => Choice::Up,
        KeyCode::Down => Choice::Down,
        KeyCode::Enter => Choice::Take,
        KeyCode::Char(c) => if ctrl && (c == 'c' || c == 'g') {
            Choice::Back
        } else if c == 'p' {
            Choice::Up
        } else if c == 'n' {
            Choice::Down
        } else {
            Choice::Nothing
        },
        _ => Choice::Nothing,
    }
}

/// What a key means to the choice of a form.
pub fn choice_for(code: KeyCode, ctrl: bool) -> (r: Choice)
    ensures
        r == choice(code, ctrl),
{
    match code {
        KeyCode::Esc => Choice::Back,
        KeyCode::Up => Choice::Up,
        KeyCode::Down => Choice::Down,
        KeyCode::Enter => Choice::Take,
        KeyCode::Char(c) => {
            if ctrl && (c == 'c' || c == 'g') {
                return Choice::Back;
            }
            match c {
                'p' => Choice::Up,
                'n' => Choice::Down,
                _ => Choice::Nothing,
            }
        },
        _ => Choice::Nothing,
    }
}

// ---- steps -----------------------------------------------------------------------

/// The selected entry.
pub open spec fn selected_entry(s: StateView) -> Option<EntryView> {
    match s.selected {
        Some(i) => if i < s.results.len() {
            Some(s.results[i as int])
        } else {
            None
        },
        None => None,
    }
}

/// The request to copy an entry, in the form `mime` or in all.
pub open spec fn copying(s: StateView, mime: Option<Seq<char>>) -> StepView {
    match selected_entry(s) {
        Some(e) => StepView::Copy(
            RequestView::Copy { id: e.id, selection: s.selection, mime },
        ),
        None => StepView::Continue,
    }
}

/// The other order of the list.
pub open spec fn other_sort(sort: SearchSort) -> SearchSort {
    match sort {
        SearchSort::Relevance => SearchSort::Recent,
        SearchSort::Recent => SearchSort::Relevance,
    }
}

/// `s` after the choice of a form was opened, and what the program does for it: an
/// entry with one form is copied at once.
pub open spec fn choosing(s: StateView) -> (StateView, StepView) {
    match selected_entry(s) {
        Some(e) => if e.mimes.len() > 1 {
            (
                StateView {
                    mode: ModeView::MimeChooser { mimes: sorted(e.mimes, earlier()), sel: 0 },
                    ..s
                },
                StepView::Continue,
            )
        } else if e.mimes.len() == 1 {
            (s, copying(s, Some(e.mimes[0])))
        } else {
            (s, copying(s, None))
        },
        None => (s, StepView::Continue),
    }
}

/// `s` after the change `e` of the query, and what the program does for it. Typing
/// takes the message away; a query that changed is searched for.
pub open spec fn after_edit(s: StateView, e: Edit) -> (StateView, StepView) {
    let line = edited(s.line, e);
    (
        StateView {
            line,
            status: if e is Insert {
                None
            } else {
                s.status
            },
            ..s
        },
        if line.text() != s.line.text() {
            StepView::Refresh
        } else {
            StepView::Continue
        },
    )
}

/// `s` after the command `c`, and what the program does for it.
pub open spec fn after_command(s: StateView, c: Command) -> (StateView, StepView) {
    match c {
        Command::Nothing => (s, StepView::Continue),
        Command::Cancel => (s, StepView::Accept(Outcome::Cancel)),
        Command::Copy => (s, copying(s, None)),
        Command::Print => (
            s,
            match selected_entry(s) {
                Some(e) => StepView::Accept(Outcome::Print(e.id)),
                None => StepView::Continue,
            },
        ),
        Command::Choose => choosing(s),
        Command::Arm => (
            if selected_entry(s) is Some {
                StateView { mode: ModeView::ConfirmDelete, ..s }
            } else {
                s
            },
            StepView::Continue,
        ),
        Command::Sort => (StateView { sort: other_sort(s.sort), ..s }, StepView::Refresh),
        Command::Select(delta) => (
            StateView {
                selected: moved_selection(s.selected, s.results.len(), delta as int),
                ..s
            },
            StepView::Continue,
        ),
        Command::Edit(e) => after_edit(s, e),
    }
}

/// Whether a key says yes.
pub open spec fn says_yes(code: KeyCode) -> bool {
    code == KeyCode::Char('y') || code == KeyCode::Char('Y')
}

/// `s` after the answer to the question whether the entry is to be forgotten, and
/// what the program does for it.
pub open spec fn after_answer(s: StateView, yes: bool) -> (StateView, StepView) {
    let normal = StateView { mode: ModeView::Normal, ..s };
    if yes {
        (
            normal,
            match selected_entry(s) {
                Some(e) => StepView::Delete(RequestView::Delete { id: e.id }),
                None => StepView::Continue,
            },
        )
    } else {
        (StateView { status: None, ..normal }, StepView::Continue)
    }
}

/// `s` after the key meaning `k` for the choice of one of `mimes`, and what the
/// program does for it.
pub open spec fn after_choice(s: StateView, mimes: Seq<Seq<char>>, sel: usize, k: Choice) -> (
    StateView,
    StepView,
) {
    let normal = StateView { mode: ModeView::Normal, ..s };
    match k {
        Choice::Nothing => (s, StepView::Continue),
        Choice::Back => (normal, StepView::Continue),
        Choice::Up => (
            StateView {
                mode: ModeView::MimeChooser {
                    mimes,
                    sel: if sel > 0 {
                        (sel - 1) as usize
                    } else {
                        0
                    },
                },
                ..s
            },
            StepView::Continue,
        ),
        Choice::Down => (
            StateView {
                mode: ModeView::MimeChooser {
                    mimes,
                    sel: if sel + 1 < mimes.len() {
                        (sel + 1) as usize
                    } else {
                        (mimes.len() - 1) as usize
                    },
                },
                ..s
            },
            StepView::Continue,
        ),
        Choice::Take => (normal, copying(s, Some(mimes[sel as int]))),
    }
}

/// `s` after a key, and what the program does for it. Only a key that goes down
/// counts.
pub open spec fn after_key(s: StateView, key: KeyEvent) -> (StateView, StepView) {
    if key.kind != KeyEventKind::Press {
        (s, StepView::Continue)
    } else {
        match s.mode {
            ModeView::Normal => after_command(
                s,
                command(key.code, key.ctrl, s.line.text().len() == 0),
            ),
            ModeView::ConfirmDelete => after_answer(s, says_yes(key.code)),
            ModeView::MimeChooser { mimes, sel } => after_choice(
                s,
                mimes,
                sel,
                choice(key.code, key.ctrl),
            ),
        }
    }
}

/// The list of what was found, with the best find next to the prompt.
pub open spec fn laid_out(found: Seq<EntryView>, layout: Layout) -> Seq<EntryView> {
    if layout == Layout::Bottom {
        found.reverse()
    } else {
        found
    }
}

/// `s` after a search.
pub open spec fn refreshed(s: StateView, found: Seq<EntryView>, layout: Layout) -> StateView {
    StateView {
        results: laid_out(found, layout),
        selected: if found.len() == 0 {
            None
        } else if layout == Layout::Bottom {
            Some((found.len() - 1) as usize)
        } else {
            Some(0)
        },
        ..s
    }
}

// ---- what is shown ---------------------------------------------------------------

/// What is known of an entry without text, line by line.
pub open spec fn binary_text(e: EntryView) -> Seq<char> {
    "[binary entry]\n\nsize:  "@ + size_text(e.size_bytes as int) + "\nmimes:\n"@ + joined(
        Seq::new(e.mimes.len(), |i: int| "  - "@ + e.mimes[i]),
        "\n"@,
    )
}

/// The preview of the entry `e`, whose text begins with `text` if it has any.
pub open spec fn preview_of(e: EntryView, text: Option<Seq<char>>) -> PreviewView {
    match text {
        Some(t) => PreviewView::Text(t),
        None => PreviewView::Binary(binary_text(e)),
    }
}

/// What the preview shows, made safe.
pub open spec fn preview_text(s: StateView) -> Seq<char> {
    match s.preview {
        Some(p) => match p.1 {
            PreviewView::Text(t) => shown_in_lines(t),
            PreviewView::Binary(t) => shown_in_lines(t),
        },
        None => seq![],
    }
}

/// The name of an order of the list.
pub open spec fn sort_name(sort: SearchSort) -> Seq<char> {
    match sort {
        SearchSort::Relevance => "relevance"@,
        SearchSort::Recent => "recent"@,
    }
}

/// The status line.
pub open spec fn status_text(s: StateView) -> Seq<char> {
    match s.mode {
        ModeView::ConfirmDelete => " delete entry #"@ + signed_decimal(
            match selected_entry(s) {
                Some(e) => e.id as int,
                None => -1,
            },
        ) + " from history?  (y/n)"@,
        ModeView::MimeChooser { .. } => " choose MIME  ·  Enter copy · Esc back"@,
        ModeView::Normal => match s.status {
            Some(msg) => " "@ + msg,
            None => " "@ + decimal(s.results.len()) + " match"@ + (if s.results.len() == 1 {
                ""@
            } else {
                "es"@
            }) + "  ["@ + sort_name(s.sort)
                + "]   Enter copy · Tab stdout · ^O mime · ^X delete · ^R sort · Esc cancel"@,
        },
    }
}

/// A row of the list.
pub struct ListRow {
    /// The selection and the size.
    pub head: String,
    pub runs: Vec<Run>,
    /// The row names forms in place of text.
    pub dim: bool,
}

/// The head of a row: `P` for the primary selection, else `C`, and the size.
pub open spec fn row_head(e: EntryView) -> Seq<char> {
    (if e.selection == "primary"@ {
        "P"@
    } else {
        "C"@
    }) + " "@ + right_aligned(size_text(e.size_bytes as int), 7) + "  "@
}

/// The rest of a row: the snippet, made safe, or the forms of an entry without
/// one.
pub open spec fn row_runs(e: EntryView) -> Seq<RunView> {
    match e.snippet {
        Some(s) => runs_of(shown(s)),
        None => seq![RunView { text: "["@ + joined(e.mimes, ", "@) + "]"@, matched: false }],
    }
}

/// Whether `r` is the row of the entry `e`.
pub open spec fn is_row_of(r: ListRow, e: EntryView) -> bool {
    r.head@ == row_head(e) && run_views(r.runs@) == row_runs(e) && r.dim == (e.snippet is None)
}

impl State {
    /// What every step keeps.
    pub open spec fn wf(self) -> bool {
        self.query.wf() && valid_mode(self.mode@)
    }

    /// A picker that starts with a query, and an order of the list.
    pub fn new(query: String, selection: Option<String>, sort: SearchSort) -> (s: State)
        ensures
            s.wf(),
            s@ == (StateView {
                line: Line { before: query@, after: seq![] },
                sort,
                selection: opt_view(selection),
                results: seq![],
                selected: None,
                mode: ModeView::Normal,
                status: None,
                preview: None,
            }),
    {
        let s = State {
            query: Query::with_text(query),
            sort,
            selection,
            results: Vec::new(),
            selected: None,
            mode: Mode::Normal,
            status: None,
            preview: None,
        };
        assert(entry_views(s.results@) =~= Seq::<EntryView>::empty());
        s
    }

    /// The selected entry.
    pub fn selected_entry(&self) -> (r: Option<&EntryMeta>)
        ensures
            match r {
                Some(e) => selected_entry(self@) == Some(e@),
                None => selected_entry(self@) is None,
            },
    {
        match self.selected {
            Some(i) => if i < self.results.len() {
                assert(entry_views(self.results@)[i as int] == self.results@[i as int]@);
                Some(&self.results[i])
            } else {
                None
            },
            None => None,
        }
    }

    /// The request to copy the selected entry, in the form `mime` or in all.
    fn copy_step(&self, mime: Option<String>) -> (step: Step)
        ensures
            step@ == copying(self@, opt_view(mime)),
    {
        match self.selected_entry() {
            Some(e) => Step::Copy(
                Request::Copy { id: e.id, selection: opt_copy(&self.selection), mime },
            ),
            None => Step::Continue,
        }
    }

    /// Open the choice of a form to copy.
    fn open_chooser(&mut self) -> (step: Step)
        requires
            old(self).wf(),
        ensures
            final(self).wf(),
            (final(self)@, step@) == choosing(old(self)@),
    {
        let ghost before = self@;
        let (many, first) = match self.selected_entry() {
            Some(e) => {
                assert(views(e.mimes@).len() == e.mimes@.len());
                if e.mimes.len() > 1 {
                    (Some(sort_strings(&e.mimes)), None)
                } else if e.mimes.len() == 1 {
                    assert(views(e.mimes@)[0] == e.mimes@[0]@);
                    (None, Some(e.mimes[0].clone()))
                } else {
                    (None, None)
                }
            },
            None => {
                return Step::Continue;
            },
        };
        match many {
            Some(mimes) => {
                proof {
                    let e = selected_entry(before)->0;
                    sorting_keeps_items(e.mimes, earlier(), e.mimes[0]);
                    assert(views(mimes@).len() == mimes@.len());
                }
                self.mode = Mode::MimeChooser { mimes, sel: 0 };
                Step::Continue
            },
            None => self.copy_step(first),
        }
    }

    /// Carry out a command.
    fn run(&mut self, c: Command) -> (step: Step)
        requires
            old(self).wf(),
        ensures
            final(self).wf(),
            (final(self)@, step@) == after_command(old(self)@, c),
    {
        match c {
            Command::Nothing => Step::Continue,
            Command::Cancel => Step::Accept(Outcome::Cancel),
            Command::Copy => self.copy_step(None),
            Command::Print => match self.selected_entry() {
                Some(e) => Step::Accept(Outcome::Print(e.id)),
                None => Step::Continue,
            },
            Command::Choose => self.open_chooser(),
            Command::Arm => {
                if self.selected_entry().is_some() {
                    self.mode = Mode::ConfirmDelete;
                }
                Step::Continue
            },
            Command::Sort => {
                self.sort = match self.sort {
                    SearchSort::Relevance => SearchSort::Recent,
                    SearchSort::Recent => SearchSort::Relevance,
                };
                Step::Refresh
            },
            Command::Select(delta) => {
                self.selected = move_selection(self.selected, self.results.len(), delta);
                Step::Continue
            },
            Command::Edit(e) => {
                if let Edit::Insert(_) = e {
                    self.status = None;
                }
                if self.query.apply(e) {
                    Step::Refresh
                } else {
                    Step::Continue
                }
            },
        }
    }

    /// Take the answer to the question whether the entry is to be forgotten.
    fn handle_confirm(&mut self, yes: bool) -> (step: Step)
        requires
            old(self).wf(),
        ensures
            final(self).wf(),
            (final(self)@, step@) == after_answer(old(self)@, yes),
    {
        self.mode = Mode::Normal;
        if yes {
            match self.selected_entry() {
                Some(e) => Step::Delete(Request::Delete { id: e.id }),
                None => Step::Continue,
            }
        } else {
            self.status = None;
            Step::Continue
        }
    }

    /// Take a key for the choice of a form.
    fn handle_mime_chooser(&mut self, k: Choice) -> (step: Step)
        requires
            old(self).wf(),
            old(self).mode is MimeChooser,
        ensures
            final(self).wf(),
            (final(self)@, step@) == after_choice(
                old(self)@,
                old(self)@.mode->mimes,
                old(self)@.mode->sel,
                k,
            ),
    {
        let (mimes, sel) = match &self.mode {
            Mode::MimeChooser { mimes, sel } => (copy_strings(mimes), *sel),
            _ => (Vec::new(), 0),
        };
        let ghost mv = views(mimes@);
        assert(mv.len() == mimes@.len());
        match k {
            Choice::Nothing => Step::Continue,
            Choice::Back => {
                self.mode = Mode::Normal;
                Step::Continue
            },
            Choice::Up => {
                let sel: usize = if sel > 0 {
                    sel - 1
                } else {
                    0
                };
                self.mode = Mode::MimeChooser { mimes, sel };
                Step::Continue
            },
            Choice::Down => {
                let last: usize = mimes.len() - 1;
                let sel: usize = if sel < last {
                    sel + 1
                } else {
                    last
                };
                self.mode = Mode::MimeChooser { mimes, sel };
                Step::Continue
            },
            Choice::Take => {
                assert(mv[sel as int] == mimes@[sel as int]@);
                let mime = mimes[sel].clone();
                self.mode = Mode::Normal;
                self.copy_step(Some(mime))
            },
        }
    }

    /// Take a key.
    pub fn handle_key(&mut self, key: KeyEvent) -> (step: Step)
        requires
            old(self).wf(),
        ensures
            final(self).wf(),
            (final(self)@, step@) == after_key(old(self)@, key),
    {
        if key.kind != KeyEventKind::Press {
            return Step::Continue;
        }
        match &self.mode {
            Mode::Normal => {
                let empty = self.query.is_empty();
                self.run(command_for(key.code, key.ctrl, empty))
            },
            Mode::ConfirmDelete => {
                let yes = key.code == KeyCode::Char('y') || key.code == KeyCode::Char('Y');
                self.handle_confirm(yes)
            },
            Mode::MimeChooser { .. } => self.handle_mime_chooser(choice_for(key.code, key.ctrl)),
        }
    }

    /// The daemon was asked to copy an entry; `result` says why it did not.
    pub fn copied(&mut self, result: Result<(), String>) -> (step: Step)
        requires
            old(self).wf(),
        ensures
            final(self).wf(),
            match result {
                Ok(_) => final(self)@ == old(self)@ && step@ == StepView::Accept(
                    Outcome::Copied,
                ),
                Err(e) => final(self)@ == (StateView {
                    status: Some("copy failed: "@ + e@),
                    ..old(self)@
                }) && step@ == StepView::Continue,
            },
    {
        match result {
            Ok(_) => Step::Accept(Outcome::Copied),
            Err(e) => {
                let mut msg = "copy failed: ".to_owned();
                msg.append(e.as_str());
                self.status = Some(msg);
                Step::Continue
            },
        }
    }

    /// The daemon was asked to forget an entry; `result` says why it did not. What
    /// is left is searched anew.
    pub fn deleted(&mut self, result: Result<(), String>) -> (step: Step)
        requires
            old(self).wf(),
        ensures
            final(self).wf(),
            match result {
                Ok(_) => final(self)@ == (StateView {
                    status: Some("deleted"@),
                    ..old(self)@
                }) && step@ == StepView::Refresh,
                Err(e) => final(self)@ == (StateView {
                    status: Some("delete failed: "@ + e@),
                    ..old(self)@
                }) && step@ == StepView::Continue,
            },
    {
        match result {
            Ok(_) => {
                self.status = Some("deleted".to_owned());
                Step::Refresh
            },
            Err(e) => {
                let mut msg = "delete failed: ".to_owned();
                msg.append(e.as_str());
                self.status = Some(msg);
                Step::Continue
            },
        }
    }

    /// Take what a search found, best first, and select the best find.
    pub fn refresh_results(&mut self, found: Vec<EntryMeta>, layout: Layout)
        requires
            old(self).wf(),
        ensures
            final(self).wf(),
            final(self)@ == refreshed(old(self)@, entry_views(found@), layout),
    {
        let ghost fv = entry_views(found@);
        let n = found.len();
        assert(fv.len() == n);
        let results = if layout == Layout::Bottom {
            turned_round(found)
        } else {
            found
        };
        assert(entry_views(results@) == laid_out(fv, layout));
        self.results = results;
        self.selected = if n == 0 {
            None
        } else if layout == Layout::Bottom {
            Some(n - 1)
        } else {
            Some(0)
        };
        assert(self@ == refreshed(old(self)@, fv, layout));
    }

    /// The entry whose preview is needed and not there. Without a selected entry
    /// there is no preview.
    pub fn preview_needed(&mut self) -> (r: Option<i64>)
        requires
            old(self).wf(),
        ensures
            final(self).wf(),
            match selected_entry(old(self)@) {
                Some(e) => {
                    let cached = old(self)@.preview is Some && (old(self)@.preview->0).0 == e.id;
                    &&& final(self)@ == old(self)@
                    &&& r == if cached {
                        None::<i64>
                    } else {
                        Some(e.id)
                    }
                },
                None => final(self)@ == (StateView { preview: None, ..old(self)@ }) && r is None,
            },
    {
        let id = match self.selected_entry() {
            Some(e) => Some(e.id),
            None => None,
        };
        match id {
            Some(id) => {
                let cached = match &self.preview {
                    Some(p) => p.0 == id,
                    None => false,
                };
                if cached {
                    None
                } else {
                    Some(id)
                }
            },
            None => {
                self.preview = None;
                None
            },
        }
    }

    /// Take the beginning of the text of the selected entry, if it has any.
    pub fn set_preview(&mut self, text: Option<String>)
        requires
            old(self).wf(),
        ensures
            final(self).wf(),
            final(self)@ == (StateView {
                preview: match selected_entry(old(self)@) {
                    Some(e) => Some((e.id, preview_of(e, opt_view(text)))),
                    None => None,
                },
                ..old(self)@
            }),
    {
        let preview = match self.selected_entry() {
            Some(e) => {
                let p = match text {
                    Some(t) => Preview::Text(t),
                    None => Preview::Binary(binary_body(e)),
                };
                Some((e.id, p))
            },
            None => None,
        };
        self.preview = preview;
    }

    /// What the preview shows.
    pub fn preview_body(&self) -> (s: String)
        ensures
            s@ == preview_text(self@),
    {
        match &self.preview {
            Some(p) => match &p.1 {
                Preview::Text(t) => sanitize_multiline(t.as_str()),
                Preview::Binary(t) => sanitize_multiline(t.as_str()),
            },
            None => String::new(),
        }
    }

    /// The status line.
    pub fn status_line(&self) -> (s: String)
        ensures
            s@ == status_text(self@),
    {
        match &self.mode {
            Mode::ConfirmDelete => {
                let id: i64 = match self.selected_entry() {
                    Some(e) => e.id,
                    None => -1,
                };
                let mut s = " delete entry #".to_owned();
                let d = signed_decimal_of(id);
                s.append(d.as_str());
                s.append(" from history?  (y/n)");
                s
            },
            Mode::MimeChooser { .. } => " choose MIME  ·  Enter copy · Esc back".to_owned(),
            Mode::Normal => match &self.status {
                Some(msg) => {
                    let mut s = " ".to_owned();
                    s.append(msg.as_str());
                    s
                },
                None => self.summary(),
            },
        }
    }

    /// How many entries were found, and what the keys do.
    fn summary(&self) -> (s: String)
        ensures
            s@ == " "@ + decimal(self@.results.len()) + " match"@ + (if self@.results.len() == 1 {
                ""@
            } else {
                "es"@
            }) + "  ["@ + sort_name(self@.sort)
                + "]   Enter copy · Tab stdout · ^O mime · ^X delete · ^R sort · Esc cancel"@,
    {
        let mut s = " ".to_owned();
        let n = decimal_of(self.results.len() as u64);
        s.append(n.as_str());
        s.append(" match");
        if self.results.len() == 1 {
            s.append("");
        } else {
            s.append("es");
        }
        s.append("  [");
        match self.sort {
            SearchSort::Relevance => s.append("relevance"),
            SearchSort::Recent => s.append("recent"),
        }
        s.append("]   Enter copy · Tab stdout · ^O mime · ^X delete · ^R sort · Esc cancel");
        s
    }

    /// Whether the cursor shows in the prompt: only while keys go to the query.
    pub fn shows_cursor(&self) -> (r: bool)
        ensures
            r == (self@.mode == ModeView::Normal),
    {
        match &self.mode {
            Mode::Normal => true,
            _ => false,
        }
    }

    /// The rows of the list.
    pub fn list_rows(&self) -> (rows: Vec<ListRow>)
        ensures
            rows@.len() == self@.results.len(),
            forall|i: int|
                0 <= i < rows@.len() ==> is_row_of(#[trigger] rows@[i], self@.results[i]),
    {
        let mut rows: Vec<ListRow> = Vec::new();
        let mut i: usize = 0;
        while i < self.results.len()
            invariant
                i <= self.results@.len(),
                rows@.len() == i,
                forall|j: int|
                    0 <= j < i ==> is_row_of(#[trigger] rows@[j], entry_views(self.results@)[j]),
            decreases self.results@.len() - i,
        {
            assert(entry_views(self.results@)[i as int] == self.results@[i as int]@);
            rows.push(render_row(&self.results[i]));
            i += 1;
        }
        rows
    }
}

/// The row of the entry `e`.
pub fn render_row(e: &EntryMeta) -> (r: ListRow)
    ensures
        is_row_of(r, e@),
{
    let mut head = if e.selection.as_str().eq("primary") {
        "P".to_owned()
    } else {
        "C".to_owned()
    };
    head.append(" ");
    let size = human_size(e.size_bytes);
    let size = pad_left(size.as_str(), 7);
    head.append(size.as_str());
    head.append("  ");
    match &e.snippet {
        Some(s) => ListRow { head, runs: highlight_snippet(s.as_str()), dim: false },
        None => {
            let mut text = "[".to_owned();
            let names = join(&e.mimes, ", ");
            text.append(names.as_str());
            text.append("]");
            let run = Run { text, matched: false };
            let ghost rv = run@;
            let mut runs: Vec<Run> = Vec::new();
            runs.push(run);
            assert(run_views(runs@) =~= seq![rv]);
            ListRow { head, runs, dim: true }
        },
    }
}

/// What is known of an entry without text, line by line.
fn binary_body(e: &EntryMeta) -> (s: String)
    ensures
        s@ == binary_text(e@),
{
    let ghost ev = e@;
    let mut names: Vec<String> = Vec::new();
    let mut i: usize = 0;
    while i < e.mimes.len()
        invariant
            i <= e.mimes@.len(),
            ev == e@,
            views(names@) == Seq::new(i as nat, |i: int| "  - "@ + ev.mimes[i]),
        decreases e.mimes@.len() - i,
    {
        assert(views(e.mimes@)[i as int] == e.mimes@[i as int]@);
        let mut name = "  - ".to_owned();
        name.append(e.mimes[i].as_str());
        let ghost nv = name@;
        let ghost done = names@;
        names.push(name);
        assert(views(names@) =~= views(done).push(nv));
        i += 1;
        assert(views(names@) =~= Seq::new(i as nat, |i: int| "  - "@ + ev.mimes[i]));
    }
    let mut s = "[binary entry]\n\nsize:  ".to_owned();
    let size = human_size(e.size_bytes);
    s.append(size.as_str());
    s.append("\nmimes:\n");
    let list = join(&names, "\n");
    s.append(list.as_str());
    s
}

/// The entries of `v`, the last first.
fn turned_round(v: Vec<EntryMeta>) -> (r: Vec<EntryMeta>)
    ensures
        entry_views(r@) == entry_views(v@).reverse(),
{
    let ghost all = entry_views(v@);
    let total = v.len();
    let mut rest = v;
    let mut r: Vec<EntryMeta> = Vec::new();
    while rest.len() > 0
        invariant
            all.len() == total,
            rest@.len() + r@.len() == total,
            entry_views(rest@) == all.take(rest@.len() as int),
            forall|i: int| 0 <= i < r@.len() ==> (#[trigger] r@[i])@ == all[total - 1 - i],
        decreases rest@.len(),
    {
        let ghost before = rest@;
        if let Some(e) = rest.pop() {
            assert(entry_views(before)[before.len() - 1] == e@);
            assert(entry_views(rest@) =~= all.take(rest@.len() as int)) by {
                assert(forall|i: int| 0 <= i < rest@.len() ==> entry_views(before)[i] == rest@[i]@);
            }
            r.push(e);
        }
    }
    assert(entry_views(r@) =~= all.reverse());
    r
}

/// Whether the preview fits beside the list in a terminal of `width` columns.
pub fn preview_fits(wanted: bool, width: u16) -> (r: bool)
    ensures
        r == (wanted && width > 50),
{
    wanted && width > 50
}

// ---- what the picker promises ------------------------------------------------------

/// An entry is forgotten only where that was asked and confirmed, and it is the
/// selected one.
pub proof fn deleting_needs_a_yes(s: StateView, key: KeyEvent)
    ensures
        after_key(s, key).1 is Delete ==> s.mode == ModeView::ConfirmDelete && says_yes(key.code)
            && selected_entry(s) is Some && after_key(s, key).1 == StepView::Delete(
            RequestView::Delete { id: (selected_entry(s)->0).id },
        ),
        s.mode == ModeView::ConfirmDelete && key.kind == KeyEventKind::Press && !says_yes(key.code)
            ==> after_key(s, key) == (
            (StateView { mode: ModeView::Normal, status: None, ..s }),
            StepView::Continue,
        ),
{
}

/// Whatever the layout, the best find is selected after a search.
pub proof fn best_find_is_selected(s: StateView, found: Seq<EntryView>, layout: Layout)
    requires
        0 < found.len() <= usize::MAX,
    ensures
        selected_entry(refreshed(s, found, layout)) == Some(found[0]),
{
}

/// Whether the forms to choose from are those of the selected entry.
pub open spec fn chooser_fits(s: StateView) -> bool {
    match s.mode {
        ModeView::MimeChooser { mimes, sel } => selected_entry(s) is Some && sel < mimes.len()
            && mimes == sorted((selected_entry(s)->0).mimes, earlier()),
        _ => true,
    }
}

/// As long as a form is being chosen, the forms to choose from are those of the
/// selected entry.
pub proof fn chooser_stays_with_the_entry(s: StateView, key: KeyEvent)
    requires
        chooser_fits(s),
    ensures
        chooser_fits(after_key(s, key).0),
{
    if let Some(e) = selected_entry(s) {
        if e.mimes.len() > 0 {
            sorting_keeps_items(e.mimes, earlier(), e.mimes[0]);
        }
    }
}

/// What is copied is the selected entry, in a form that it has or in all; and what
/// is printed is the selected entry.
pub proof fn the_selected_entry_is_taken(s: StateView, key: KeyEvent)
    requires
        chooser_fits(s),
    ensures
        after_key(s, key).1 matches StepView::Copy(r) ==> {
            &&& selected_entry(s) is Some
            &&& r matches RequestView::Copy { id, selection, mime }
            &&& id == (selected_entry(s)->0).id
            &&& selection == s.selection
            &&& mime is Some ==> (selected_entry(s)->0).mimes.contains(mime->0)
        },
        after_key(s, key).1 matches StepView::Accept(Outcome::Print(id)) ==> selected_entry(s)
            is Some && id == (selected_entry(s)->0).id,
{
    if let ModeView::MimeChooser { mimes, sel } = s.mode {
        let all = (selected_entry(s)->0).mimes;
        assert(mimes.contains(mimes[sel as int]));
        sorting_keeps_items(all, earlier(), mimes[sel as int]);
    }
    if let Some(e) = selected_entry(s) {
        if e.mimes.len() == 1 {
            assert(e.mimes.contains(e.mimes[0]));
        }
    }
}

/// Keys that do not change the query never search anew, but for the one that
/// changes the order; and that one, pressed again, brings the old order back.
pub proof fn only_changes_are_searched(s: StateView, key: KeyEvent)
    ensures
        after_key(s, key).1 is Refresh ==> after_key(s, key).0.line.text() != s.line.text()
            || after_key(s, key).0.sort != s.sort,
        other_sort(other_sort(s.sort)) == s.sort,
{
}

} // verus!
