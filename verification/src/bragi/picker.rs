//! The live picker over the audio graph: devices and streams in one list. The
//! engine streams whole snapshots; the picker keeps the latest and lists it
//! anew each time. Enter does the obvious thing: it makes a device the default,
//! and lets a stream be moved to another device.
//!
//! Times are nanoseconds since some moment in the past.

use vstd::prelude::*;
use crate::base::fuzzy::{matcher, score, score_of};
use crate::base::sanitize::{sanitize_display, shown};
use crate::bragi::graph::Cmd;
use crate::bragi::state::{
    device_kind, device_streams, is_default_node, kind_name, node_views, target, AudioNode,
    AudioNodeView, AudioState, AudioStateView, NodeKind, Volume,
};
use crate::number::{decimal, decimal_of};
use crate::ranking::{goes_before, is_ranking, rank, Rank};
use crate::table::{
    are_entries, bound, collected, collected_below, entries, lemma_collect_end, lemma_collect_row,
    lemma_entry, lemma_keys_grow, lemma_row, row_of, rows_of,
};
use crate::text::{
    join, joined, pad_left, push_spaced, push_spaced_opt, right_aligned, spaced, trimmed, views,
};
use crate::ui::clock::{age, age_of, SECOND};
use crate::ui::editing::Line;
use crate::ui::highlight::{run_views, Run, RunView};
use crate::ui::keys::{KeyCode, KeyEvent, KeyEventKind};
use crate::ui::picker::{
    cell_runs, highlight_cell, label, line_views, move_selection, moved_selection, piece_views,
    push_pair, value, Piece, PieceView, Tone,
};
use crate::ui::query::{
    control_edit, control_edit_for, control_move, control_move_for, edited, named_edit,
    named_edit_for, named_move, named_move_for, Edit, Query,
};

verus! {

/// How many seconds a message stays.
pub const STATUS_SECS: u64 = 4;

/// The choice of a device to move a stream to.
pub struct Chooser {
    pub stream: u32,
    pub stream_name: String,
    /// The devices: their numbers and labels.
    pub options: Vec<(u32, String)>,
    pub sel: usize,
}

/// What a [`Chooser`] holds.
pub ghost struct ChooserView {
    pub stream: u32,
    pub stream_name: Seq<char>,
    pub options: Seq<(u32, Seq<char>)>,
    pub sel: usize,
}

/// The views of the options of `v`.
pub open spec fn option_views(v: Seq<(u32, String)>) -> Seq<(u32, Seq<char>)> {
    Seq::new(v.len(), |i: int| (v[i].0, v[i].1@))
}

impl View for Chooser {
    type V = ChooserView;

    open spec fn view(&self) -> ChooserView {
        ChooserView {
            stream: self.stream,
            stream_name: self.stream_name@,
            options: option_views(self.options@),
            sel: self.sel,
        }
    }
}

/// The state of the picker.
pub struct State {
    pub query: Query,
    /// The latest snapshot.
    pub audio: AudioState,
    /// The engine is gone.
    pub engine_dead: bool,
    pub show_detail: bool,
    /// The nodes that the list shows, best first.
    pub results: Vec<AudioNode>,
    pub selected: Option<usize>,
    /// A message and when it was set.
    pub status: Option<(String, u64)>,
    /// The choice of a device that is open.
    pub chooser: Option<Chooser>,
}

/// What a [`State`] holds.
#[verifier::ext_equal]
pub ghost struct StateView {
    pub line: Line,
    pub audio: AudioStateView,
    pub engine_dead: bool,
    pub show_detail: bool,
    pub results: Seq<AudioNodeView>,
    pub selected: Option<usize>,
    pub status: Option<(Seq<char>, u64)>,
    pub chooser: Option<ChooserView>,
}

impl View for State {
    type V = StateView;

    open spec fn view(&self) -> StateView {
        StateView {
            line: self.query@,
            audio: self.audio@,
            engine_dead: self.engine_dead,
            show_detail: self.show_detail,
            results: node_views(self.results@),
            selected: self.selected,
            status: match self.status {
                Some(s) => Some((s.0@, s.1)),
                None => None,
            },
            chooser: match self.chooser {
                Some(c) => Some(c@),
                None => None,
            },
        }
    }
}

/// What holds of an open choice: one of its options is selected.
pub open spec fn choosable(c: Option<ChooserView>) -> bool {
    c is Some ==> (c->0).sel < (c->0).options.len()
}

/// What the program does for the picker after a key.
#[derive(Clone, Copy, Debug, PartialEq, Eq, Structural)]
pub enum Step {
    Continue,
    Quit,
    /// Send this to the engine.
    Send(Cmd),
}

// ---- keys ------------------------------------------------------------------------

/// What a key means while no choice is open.
#[derive(Clone, Copy, Debug, PartialEq, Eq, Structural)]
pub enum Command {
    Nothing,
    Quit,
    /// Make a device the default, or move a stream.
    Enter,
    /// Make a device the default.
    Default,
    /// Change the volume by this many percent.
    Volume(i32),
    Mute,
    Detail,
    Select(isize),
    Edit(Edit),
}

/// What the letter `c` means with its modifiers.
pub open spec fn letter_command(c: char, ctrl: bool, alt: bool, empty: bool) -> Command {
    if ctrl && (c == 'c' || c == 'g' || (c == 'd' && empty)) {
        Command::Quit
    } else if alt && c == 'd' {
        Command::Default
    } else if alt && c == 'm' {
        Command::Mute
    } else if ctrl && c == 'v' {
        Command::Detail
    } else if ctrl {
        if control_move(c) is Some {
            Command::Select(control_move(c)->0 as isize)
        } else if control_edit(c) is Some {
            Command::Edit(control_edit(c)->0)
        } else {
            Command::Nothing
        }
    } else if alt {
        Command::Nothing
    } else {
        Command::Edit(Edit::Insert(c))
    }
}

/// How far Alt with an arrow changes the volume, in percent.
pub open spec fn volume_step(key: KeyEvent) -> int {
    let step = if key.shift {
        1int
    } else {
        5int
    };
    if key.code == KeyCode::Left {
        -step
    } else {
        step
    }
}

/// What a key means while no choice is open.
pub open spec fn command(key: KeyEvent, empty: bool) -> Command {
    match key.code {
        KeyCode::Esc => Command::Quit,
        KeyCode::Enter => Command::Enter,
        KeyCode::Char(c) => letter_command(c, key.ctrl, key.alt, empty),
        code => if key.alt && (code == KeyCode::Left || code == KeyCode::Right) {
            Command::Volume(volume_step(key) as i32)
        } else if named_move(code) is Some {
            Command::Select(named_move(code)->0 as isize)
        } else if named_edit(code) is Some {
            Command::Edit(named_edit(code)->0)
        } else {
            Command::Nothing
        },
    }
}

/// What a key means while no choice is open.
pub fn command_for(key: KeyEvent, empty: bool) -> (r: Command)
    ensures
        r == command(key, empty),
{
    match key.code {
        KeyCode::Esc => Command::Quit,
        KeyCode::Enter => Command::Enter,
        KeyCode::Char(c) => {
            let ctrl = key.ctrl;
            let alt = key.alt;
            if ctrl && (c == 'c' || c == 'g' || (c == 'd' && empty)) {
                return Command::Quit;
            }
            if alt && c == 'd' {
                return Command::Default;
            }
            if alt && c == 'm' {
                return Command::Mute;
            }
            if ctrl && c == 'v' {
                return Command::Detail;
            }
            if ctrl {
                if let Some(d) = control_move_for(c) {
                    return Command::Select(d);
                }
                return match control_edit_for(c) {
                    Some(e) => Command::Edit(e),
                    None => Command::Nothing,
                };
            }
            if alt {
                Command::Nothing
            } else {
                Command::Edit(Edit::Insert(c))
            }
        },
        code => {
            if key.alt && (code == KeyCode::Left || code == KeyCode::Right) {
                let step: i32 = if key.shift {
                    1
                } else {
                    5
                };
                return if code == KeyCode::Left {
                    Command::Volume(-step)
                } else {
                    Command::Volume(step)
                };
            }
            if let Some(d) = named_move_for(code) {
                return Command::Select(d);
            }
            match named_edit_for(code) {
                Some(e) => Command::Edit(e),
                None => Command::Nothing,
            }
        },
    }
}

/// What a key means for an open choice.
#[derive(Clone, Copy, Debug, PartialEq, Eq, Structural)]
pub enum Choice {
    Nothing,
    Quit,
    Back,
    Up,
    Down,
    Take,
}

/// What a key means for an open choice.
pub open spec fn choice(code: KeyCode, ctrl: bool) -> Choice {
    match code {
        KeyCode::Esc => Choice::Back,
        KeyCode::Up => Choice::Up,
        KeyCode::Down => Choice::Down,
        KeyCode::Enter => Choice::Take,
        KeyCode::Char(c) => if !ctrl {
            Choice::Nothing
        } else if c == 'c' {
            Choice::Quit
        } else if c == 'g' {
            Choice::Back
        } else if c == 'p' {
            Choice::Up
        } else if c == 'n' {
            Choice::Down
        } else {
            Choice::Nothing
        },
        _ => Choice::Nothing,
    }
}

/// What a key means for an open choice.
pub fn choice_for(code: KeyCode, ctrl: bool) -> (r: Choice)
    ensures
        r == choice(code, ctrl),
{
    match code {
        KeyCode::Esc => Choice::Back,
        KeyCode::Up => Choice::Up,
        KeyCode::Down => Choice::Down,
        KeyCode::Enter => Choice::Take,
        KeyCode::Char(c) => {
            if !ctrl {
                return Choice::Nothing;
            }
            match c {
                'c' => Choice::Quit,
                'g' => Choice::Back,
                'p' => Choice::Up,
                'n' => Choice::Down,
                _ => Choice::Nothing,
            }
        },
        _ => Choice::Nothing,
    }
}

// ---- the list --------------------------------------------------------------------

/// The place of a kind in the list: outputs, inputs, players, recorders.
pub open spec fn kind_rank(kind: NodeKind) -> u8 {
    match kind {
        NodeKind::Sink => 0,
        NodeKind::Source => 1,
        NodeKind::Playback => 2,
        NodeKind::Record => 3,
    }
}

/// The name of the device that a stream goes to.
pub open spec fn target_name(a: AudioStateView, n: AudioNodeView) -> Option<Seq<char>> {
    match target(a, n) {
        Some(t) => Some(t.name),
        None => None,
    }
}

/// The text in which a search looks for a node: its kind, its name, what it
/// plays and where it goes.
pub open spec fn node_search_text(a: AudioStateView, n: AudioNodeView) -> Seq<char> {
    kind_name(n.kind) + spaced(Some(n.name)) + spaced(n.detail) + spaced(target_name(a, n))
}

/// Whether the search `q` finds `n`; an empty one finds everything.
pub open spec fn found(q: Seq<char>, a: AudioStateView, n: AudioNodeView) -> bool {
    q.len() == 0 || score_of(q, node_search_text(a, n)) is Some
}

/// Whether `m` stands before `n` in the list: by score where there is a search,
/// then by kind and number.
pub open spec fn listed_before(
    q: Seq<char>,
    a: AudioStateView,
    m: AudioNodeView,
    n: AudioNodeView,
) -> bool {
    let browse = kind_rank(m.kind) < kind_rank(n.kind) || (kind_rank(m.kind) == kind_rank(n.kind)
        && m.id < n.id);
    if q.len() == 0 {
        browse
    } else {
        let x = score_of(q, node_search_text(a, m))->0;
        let y = score_of(q, node_search_text(a, n))->0;
        x > y || (x == y && browse)
    }
}

/// Whether `results` lists the nodes that the search `q` finds, each once, in
/// order.
pub open spec fn is_listing(results: Seq<AudioNodeView>, a: AudioStateView, q: Seq<char>) -> bool {
    &&& forall|i: int| #![trigger results[i]]
        0 <= i < results.len() ==> {
            let id = results[i].id;
            a.nodes.dom().contains(id) && results[i] == a.nodes[id] && found(q, a, results[i])
        }
    &&& forall|i: int, j: int| #![trigger results[i], results[j]]
        0 <= i < j < results.len() ==> listed_before(q, a, results[i], results[j])
    &&& forall|id: u32| #[trigger]
        a.nodes.dom().contains(id) && found(q, a, a.nodes[id]) ==> exists|i: int|
            0 <= i < results.len() && (#[trigger] results[i]).id == id
}

/// The selected node.
pub open spec fn selected_node(s: StateView) -> Option<AudioNodeView> {
    match s.selected {
        Some(i) => if i < s.results.len() {
            Some(s.results[i as int])
        } else {
            None
        },
        None => None,
    }
}

/// The selection in a new list: on the node that was selected, or else on the
/// first row.
pub open spec fn is_kept_selection(
    results: Seq<AudioNodeView>,
    keep: Option<u32>,
    selected: Option<usize>,
) -> bool {
    if keep is Some && exists|i: int|
        0 <= i < results.len() && (#[trigger] results[i]).id == keep->0 {
        selected is Some && selected->0 < results.len() && results[selected->0 as int].id == keep->0
    } else if results.len() == 0 {
        selected is None
    } else {
        selected == Some(0usize)
    }
}

/// The number of the selected node.
pub open spec fn selected_id(s: StateView) -> Option<u32> {
    match selected_node(s) {
        Some(n) => Some(n.id),
        None => None,
    }
}

/// How nodes rank: by score, then by kind and number.
pub struct Key {
    pub score: u32,
    pub rank: u8,
    pub id: u32,
}

impl Rank for Key {
    open spec fn before(self, other: Self) -> bool {
        self.score > other.score || (self.score == other.score && (self.rank < other.rank || (
        self.rank == other.rank && self.id < other.id)))
    }

    proof fn irreflexive(a: Self) {
    }

    proof fn transitive(a: Self, b: Self, c: Self) {
    }

    proof fn negatively_transitive(a: Self, b: Self, c: Self) {
    }

    fn ranks_before(&self, other: &Self) -> (r: bool) {
        self.score > other.score || (self.score == other.score && (self.rank < other.rank || (
        self.rank == other.rank && self.id < other.id)))
    }
}

/// Whether `key` is the rank of `n` in the search `q`.
pub open spec fn keyed_for(
    key: Option<Key>,
    a: AudioStateView,
    n: AudioNodeView,
    q: Seq<char>,
) -> bool {
    &&& key is Some <==> found(q, a, n)
    &&& key is Some ==> {
        let k = key->0;
        &&& k.rank == kind_rank(n.kind)
        &&& k.id == n.id
        &&& q.len() == 0 ==> k.score == 0
        &&& q.len() > 0 ==> score_of(q, node_search_text(a, n)) == Some(k.score)
    }
}

// ---- steps -----------------------------------------------------------------------

/// `s` with the message `msg`, set at `now`.
pub open spec fn saying(s: StateView, msg: Seq<char>, now: u64) -> StateView {
    StateView { status: Some((msg, now)), ..s }
}

/// The kind of device that a stream of the kind `kind` goes to.
pub open spec fn wanted_kind(kind: NodeKind) -> NodeKind {
    if kind == NodeKind::Playback {
        NodeKind::Sink
    } else {
        NodeKind::Source
    }
}

/// The number of the device that a stream goes to.
pub open spec fn current_target(a: AudioStateView, n: AudioNodeView) -> Option<u32> {
    match target(a, n) {
        Some(t) => Some(t.id),
        None => None,
    }
}

/// A node as an option, where it is of the kind `wanted`. The one that a stream
/// goes to says so.
pub open spec fn option_of(wanted: NodeKind, current: Option<u32>) -> spec_fn(
    AudioNodeView,
) -> Option<(u32, Seq<char>)> {
    |n: AudioNodeView|
        if n.kind == wanted {
            Some(
                (
                    n.id,
                    if current == Some(n.id) {
                        n.name + "  (current)"@
                    } else {
                        n.name
                    },
                ),
            )
        } else {
            None
        }
}

/// The place of `id` among the options from `from` on.
pub open spec fn option_at(
    options: Seq<(u32, Seq<char>)>,
    id: Option<u32>,
    from: int,
) -> Option<int>
    decreases options.len() - from,
{
    if from >= options.len() {
        None
    } else if id == Some(options[from].0) {
        Some(from)
    } else {
        option_at(options, id, from + 1)
    }
}

/// `s` after the choice of a device for the stream `n` was opened: the options
/// are the devices that fit, by growing number, and the current one is selected.
pub open spec fn choosing(s: StateView, n: AudioNodeView, now: u64) -> StateView {
    let wanted = wanted_kind(n.kind);
    let current = current_target(s.audio, n);
    let options = collected(s.audio.nodes, option_of(wanted, current));
    if options.len() == 0 {
        saying(s, "no "@ + kind_name(wanted) + "s to move to"@, now)
    } else {
        StateView {
            chooser: Some(
                ChooserView {
                    stream: n.id,
                    stream_name: n.name,
                    options,
                    sel: match option_at(options, current, 0) {
                        Some(i) => i as usize,
                        None => 0,
                    },
                },
            ),
            ..s
        }
    }
}

/// `s` after the device `n` was made the default, and what goes to the engine.
pub open spec fn defaulting(s: StateView, n: AudioNodeView, now: u64) -> (StateView, Step) {
    (
        saying(s, "default "@ + kind_name(n.kind) + " → "@ + n.name, now),
        Step::Send(Cmd::SetDefault { device: n.id }),
    )
}

/// `s` after the command `c` at `now`, and what the program does for it.
pub open spec fn after_command(s: StateView, c: Command, now: u64) -> (StateView, Step) {
    match c {
        Command::Nothing => (s, Step::Continue),
        Command::Quit => (s, Step::Quit),
        Command::Enter => match selected_node(s) {
            Some(n) => if device_kind(n.kind) {
                defaulting(s, n, now)
            } else {
                (choosing(s, n, now), Step::Continue)
            },
            None => (s, Step::Continue),
        },
        Command::Default => match selected_node(s) {
            Some(n) => if device_kind(n.kind) {
                defaulting(s, n, now)
            } else {
                (s, Step::Continue)
            },
            None => (s, Step::Continue),
        },
        Command::Volume(percent) => match selected_node(s) {
            Some(n) => (s, Step::Send(Cmd::AdjustVolume { node: n.id, percent })),
            None => (s, Step::Continue),
        },
        Command::Mute => match selected_node(s) {
            Some(n) => (s, Step::Send(Cmd::ToggleMute { node: n.id })),
            None => (s, Step::Continue),
        },
        Command::Detail => (StateView { show_detail: !s.show_detail, ..s }, Step::Continue),
        Command::Select(delta) => (
            StateView {
                selected: moved_selection(s.selected, s.results.len(), delta as int),
                ..s
            },
            Step::Continue,
        ),
        Command::Edit(e) => (StateView { line: edited(s.line, e), ..s }, Step::Continue),
    }
}

/// `s` after the key meaning `k` for the open choice `c` at `now`, and what the
/// program does for it.
pub open spec fn after_choice(s: StateView, c: ChooserView, k: Choice, now: u64) -> (
    StateView,
    Step,
) {
    match k {
        Choice::Nothing => (s, Step::Continue),
        Choice::Quit => (s, Step::Quit),
        Choice::Back => (StateView { chooser: None, ..s }, Step::Continue),
        Choice::Up => (
            StateView {
                chooser: Some(
                    ChooserView {
                        sel: if c.sel == 0 {
                            0
                        } else {
                            (c.sel - 1) as usize
                        },
                        ..c
                    },
                ),
                ..s
            },
            Step::Continue,
        ),
        Choice::Down => (
            StateView {
                chooser: Some(
                    ChooserView {
                        sel: if c.sel + 1 < c.options.len() {
                            (c.sel + 1) as usize
                        } else {
                            (c.options.len() - 1) as usize
                        },
                        ..c
                    },
                ),
                ..s
            },
            Step::Continue,
        ),
        Choice::Take => {
            let option = c.options[c.sel as int];
            (
                saying(
                    StateView { chooser: None, ..s },
                    "moving "@ + c.stream_name + " → "@ + option.1,
                    now,
                ),
                Step::Send(Cmd::Move { stream: c.stream, target: option.0 }),
            )
        },
    }
}

/// `s` after a key at `now`, and what the program does for it.
pub open spec fn after_key(s: StateView, key: KeyEvent, now: u64) -> (StateView, Step) {
    if key.kind == KeyEventKind::Release {
        (s, Step::Continue)
    } else {
        match s.chooser {
            Some(c) => after_choice(s, c, choice(key.code, key.ctrl), now),
            None => after_command(s, command(key, s.line.text().len() == 0), now),
        }
    }
}

// ---- what is shown ---------------------------------------------------------------

/// The status line at `now`.
pub open spec fn status_text(s: StateView, now: u64) -> (Seq<char>, Tone) {
    if s.engine_dead {
        (" PipeWire connection lost — showing the last known state"@, Tone::Warn)
    } else if s.chooser is Some {
        (
            " move "@ + shown((s.chooser->0).stream_name) + " to…  ·  Enter move · Esc back"@,
            Tone::Dim,
        )
    } else if s.status is Some && age(now, (s.status->0).1) < STATUS_SECS * SECOND {
        (" "@ + (s.status->0).0, Tone::Warn)
    } else {
        (
            " "@ + decimal(s.results.len())
                + " · Enter move/default · M-←/→ vol · M-m mute · ^V detail · Esc"@,
            Tone::Dim,
        )
    }
}

/// A volume gauge of five cells; a dot where the volume is not known.
pub open spec fn gauge_text(volume: Option<Volume>) -> Seq<char> {
    match volume {
        Some(v) => Seq::new(
            5,
            |i: int|
                if i < v.cells {
                    '▮'
                } else {
                    '▯'
                },
        ),
        None => "  ·  "@,
    }
}

/// The volume in percent, or `other` where it is not known.
pub open spec fn percent_text(volume: Option<Volume>, other: Seq<char>) -> Seq<char> {
    match volume {
        Some(v) => decimal(v.percent as nat) + "%"@,
        None => other,
    }
}

/// The volume in percent in the list.
pub open spec fn percent_cell(volume: Option<Volume>) -> Seq<char> {
    match volume {
        Some(v) => right_aligned(decimal(v.percent as nat), 3) + "%"@,
        None => "   ·"@,
    }
}

/// The kind of a node in the list, with a mark on the default device.
pub open spec fn tag_text(a: AudioStateView, n: AudioNodeView) -> Seq<char> {
    if is_default_node(a, n) {
        kind_name(n.kind) + " *"@
    } else {
        kind_name(n.kind)
    }
}

/// The name of a node in the list, with where a stream goes and what it plays.
pub open spec fn name_text(a: AudioStateView, n: AudioNodeView) -> Seq<char> {
    n.name + (match target_name(a, n) {
        Some(t) => " → "@ + t,
        None => seq![],
    }) + (if !device_kind(n.kind) && n.detail is Some && n.detail->0 != n.name {
        "  ("@ + n.detail->0 + ")"@
    } else {
        seq![]
    })
}

/// A row of the list.
pub struct ListRow {
    pub tag: Vec<Run>,
    pub name: Vec<Run>,
    /// The gauge, or that the sound is off.
    pub level: String,
    pub muted: bool,
    pub percent: String,
}

/// What a [`ListRow`] shows.
pub ghost struct ListRowView {
    pub tag: Seq<RunView>,
    pub name: Seq<RunView>,
    pub level: Seq<char>,
    pub muted: bool,
    pub percent: Seq<char>,
}

impl View for ListRow {
    type V = ListRowView;

    open spec fn view(&self) -> ListRowView {
        ListRowView {
            tag: run_views(self.tag@),
            name: run_views(self.name@),
            level: self.level@,
            muted: self.muted,
            percent: self.percent@,
        }
    }
}

/// The row of the list for `n`, with the search `q` marked.
pub open spec fn list_row(a: AudioStateView, n: AudioNodeView, q: Seq<char>) -> ListRowView {
    ListRowView {
        tag: cell_runs(tag_text(a, n), q),
        name: cell_runs(name_text(a, n), q),
        level: if n.mute {
            "muted"@
        } else {
            gauge_text(n.volume)
        },
        muted: n.mute,
        percent: percent_cell(n.volume),
    }
}

/// The names of `nodes`, made safe.
pub open spec fn safe_names(nodes: Seq<AudioNodeView>) -> Seq<Seq<char>> {
    Seq::new(nodes.len(), |i: int| shown(nodes[i].name))
}

/// The routing line of the detail strip: what a device carries, or where a
/// stream goes.
pub open spec fn routing_line(a: AudioStateView, n: AudioNodeView) -> Seq<PieceView> {
    seq![
        label(
            if device_kind(n.kind) {
                "streams "@
            } else {
                "→ "@
            },
        ),
        value(
            shown(
                if device_kind(n.kind) {
                    if device_streams(a, n).len() == 0 {
                        "—"@
                    } else {
                        joined(safe_names(device_streams(a, n)), ", "@)
                    }
                } else {
                    match target_name(a, n) {
                        Some(t) => t,
                        None => "—"@,
                    }
                },
            ),
        ),
        label("   node "@),
        value(shown(n.node_name)),
    ]
}

/// The lines of the detail strip for `n`.
pub open spec fn detail_lines(a: AudioStateView, n: AudioNodeView) -> Seq<Seq<PieceView>> {
    seq![
        seq![label("name "@), value(shown(n.name)), label("   type "@), value(kind_name(n.kind))] + (
        if is_default_node(a, n) {
            seq![value(" (default)"@)]
        } else {
            seq![]
        }) + seq![label("   id "@), value(decimal(n.id as nat))],
        seq![
            label("vol "@),
            value(shown(percent_text(n.volume, "—"@))),
            label("   muted "@),
            value(
                if n.mute {
                    "yes"@
                } else {
                    "no"@
                },
            ),
        ] + (match n.detail {
            Some(d) => seq![label("   playing "@), value(shown(d))],
            None => seq![],
        }),
        routing_line(a, n),
    ]
}

// ---- code ------------------------------------------------------------------------

impl State {
    /// What holds of the picker between keys.
    pub open spec fn wf(self) -> bool {
        &&& self.query.wf()
        &&& self.audio.wf()
        &&& choosable(self@.chooser)
    }

    /// A picker over a graph of which nothing is known.
    pub fn new(show_detail: bool) -> (s: State)
        ensures
            s.wf(),
            s@ == (StateView {
                line: Line::empty(),
                audio: crate::bragi::state::nothing_known(),
                engine_dead: false,
                show_detail,
                results: seq![],
                selected: None,
                status: None,
                chooser: None,
            }),
    {
        let s = State {
            query: Query::new(),
            audio: AudioState::new(),
            engine_dead: false,
            show_detail,
            results: Vec::new(),
            selected: None,
            status: None,
            chooser: None,
        };
        assert(node_views(s.results@) =~= Seq::<AudioNodeView>::empty());
        s
    }

    /// Take in a snapshot.
    pub fn update(&mut self, audio: AudioState)
        requires
            old(self).wf(),
            audio.wf(),
        ensures
            final(self).wf(),
            final(self)@ == (StateView { audio: audio@, ..old(self)@ }),
    {
        self.audio = audio;
    }

    /// The engine is gone.
    pub fn engine_lost(&mut self)
        requires
            old(self).wf(),
        ensures
            final(self).wf(),
            final(self)@ == (StateView { engine_dead: true, ..old(self)@ }),
    {
        self.engine_dead = true;
    }

    /// Say `msg` at `now`.
    pub fn set_status(&mut self, msg: String, now: u64)
        requires
            old(self).wf(),
        ensures
            final(self).wf(),
            final(self)@ == saying(old(self)@, msg@, now),
    {
        self.status = Some((msg, now));
    }

    /// A copy of the selected node.
    pub fn selected(&self) -> (r: Option<AudioNode>)
        ensures
            match r {
                Some(n) => selected_node(self@) == Some(n@),
                None => selected_node(self@) is None,
            },
    {
        match self.selected {
            Some(i) => {
                if i < self.results.len() {
                    Some(self.results[i].duplicate())
                } else {
                    None
                }
            },
            None => None,
        }
    }

    /// The text in which a search looks for the node `n`.
    fn haystack(&self, n: &AudioNode) -> (s: String)
        requires
            self.audio.wf(),
        ensures
            s@ == node_search_text(self.audio@, n@),
    {
        let mut s = n.kind.label().to_owned();
        push_spaced(&mut s, n.name.as_str());
        push_spaced_opt(&mut s, &n.detail);
        let ghost before = s@;
        match self.audio.target_of(n) {
            Some(t) => push_spaced(&mut s, t.name.as_str()),
            None => {
                assert(before + Seq::<char>::empty() == before);
            },
        }
        s
    }

    /// The rank of each node in the search `q`.
    fn rank_keys(&self, q: &str) -> (keys: Vec<Option<Key>>)
        requires
            self.audio.wf(),
        ensures
            keys@.len() == rows_of(self.audio.nodes@).len(),
            forall|i: int| #![trigger keys@[i]]
                0 <= i < keys@.len() ==> keyed_for(
                    keys@[i],
                    self.audio@,
                    rows_of(self.audio.nodes@)[i].1@,
                    q@,
                ),
    {
        let mut m = matcher();
        let browse = q.is_empty();
        let mut keys: Vec<Option<Key>> = Vec::new();
        let all = entries(&self.audio.nodes);
        let mut i: usize = 0;
        while i < all.len()
            invariant
                i <= all@.len(),
                are_entries(all@, self.audio.nodes@),
                self.audio.wf(),
                browse == (q@.len() == 0),
                keys@.len() == i,
                forall|j: int| #![trigger keys@[j]]
                    0 <= j < i ==> keyed_for(
                        keys@[j],
                        self.audio@,
                        rows_of(self.audio.nodes@)[j].1@,
                        q@,
                    ),
            decreases all@.len() - i,
        {
            let n = all[i].1;
            let scored = if browse {
                Some(0)
            } else {
                let hay = self.haystack(n);
                score(&mut m, q, hay.as_str())
            };
            let key = match scored {
                Some(x) => Some(Key { score: x, rank: rank_of(n.kind), id: n.id }),
                None => None,
            };
            assert(keyed_for(key, self.audio@, rows_of(self.audio.nodes@)[i as int].1@, q@));
            keys.push(key);
            i += 1;
        }
        keys
    }

    /// The nodes that the search `q` finds, in order.
    fn listing(&self, q: &str) -> (rows: Vec<AudioNode>)
        requires
            self.audio.wf(),
        ensures
            is_listing(node_views(rows@), self.audio@, q@),
    {
        let keys = self.rank_keys(q);
        let order = rank(&keys);
        let all = entries(&self.audio.nodes);
        let mut rows: Vec<AudioNode> = Vec::new();
        let mut i: usize = 0;
        while i < order.len()
            invariant
                i <= order@.len(),
                is_ranking(order@, keys@),
                keys@.len() == all@.len(),
                are_entries(all@, self.audio.nodes@),
                rows@.len() == i,
                forall|j: int|
                    0 <= j < i ==> (#[trigger] rows@[j])@
                        == rows_of(self.audio.nodes@)[order@[j] as int].1@,
            decreases order@.len() - i,
        {
            let at = order[i];
            rows.push(all[at].1.duplicate());
            i += 1;
        }
        let n = keys.len();
        proof {
            lemma_listing(self.audio, q@, keys@, order@, node_views(rows@));
        }
        rows
    }

    /// The selection in the list: on the node `keep`, or else on the first row.
    fn kept_selection(&self, keep: Option<u32>) -> (r: Option<usize>)
        ensures
            is_kept_selection(self@.results, keep, r),
    {
        if let Some(id) = keep {
            let mut i: usize = 0;
            while i < self.results.len()
                invariant
                    i <= self.results@.len(),
                    keep == Some(id),
                    forall|j: int| 0 <= j < i ==> (#[trigger] self@.results[j]).id != id,
                decreases self.results@.len() - i,
            {
                if self.results[i].id == id {
                    assert(self@.results[i as int].id == id);
                    return Some(i);
                }
                i += 1;
            }
        }
        if self.results.len() == 0 {
            None
        } else {
            Some(0)
        }
    }

    /// List the nodes that the query finds. The selection stays on the same
    /// node through all that comes and goes.
    pub fn refresh(&mut self)
        requires
            old(self).wf(),
        ensures
            final(self).wf(),
            is_listing(final(self)@.results, old(self)@.audio, trimmed(old(self)@.line.text())),
            is_kept_selection(
                final(self)@.results,
                selected_id(old(self)@),
                final(self)@.selected,
            ),
            final(self)@ == (StateView {
                results: final(self)@.results,
                selected: final(self)@.selected,
                ..old(self)@
            }),
    {
        let keep = match self.selected() {
            Some(n) => Some(n.id),
            None => None,
        };
        let q = self.query.trimmed();
        let rows = self.listing(q.as_str());
        let ghost before = self@;
        self.results = rows;
        assert(is_listing(self@.results, before.audio, q@));
        self.selected = self.kept_selection(keep);
    }

    /// The devices that the stream `stream` could be moved to.
    fn options_for(&self, wanted: NodeKind, current: Option<u32>) -> (r: Vec<(u32, String)>)
        requires
            self.audio.wf(),
        ensures
            option_views(r@) == collected(self.audio@.nodes, option_of(wanted, current)),
    {
        let ghost a = self.audio@;
        let ghost f = option_of(wanted, current);
        let mut r: Vec<(u32, String)> = Vec::new();
        let all = entries(&self.audio.nodes);
        let ghost rows = rows_of(self.audio.nodes@);
        let mut i: usize = 0;
        assert(option_views(r@) =~= collected_below(a.nodes, f, bound(rows, 0)));
        while i < all.len()
            invariant
                i <= all@.len(),
                rows == rows_of(self.audio.nodes@),
                are_entries(all@, self.audio.nodes@),
                self.audio.wf(),
                a == self.audio@,
                f == option_of(wanted, current),
                option_views(r@) == collected_below(a.nodes, f, bound(rows, i as int)),
            decreases all@.len() - i,
        {
            proof {
                let id = rows[i as int].0;
                lemma_row(self.audio.nodes@, i as int);
                assert(a.nodes[id] == rows[i as int].1@);
                lemma_collect_row(self.audio.nodes@, a.nodes, f, i as int);
            }
            let n = all[i].1;
            if n.kind == wanted {
                let mut text = n.name.clone();
                if current == Some(n.id) {
                    text.append("  (current)");
                }
                let ghost done = r@;
                let ghost ov = (n.id, text@);
                r.push((n.id, text));
                assert(option_views(r@) =~= option_views(done).push(ov));
            }
            i += 1;
        }
        proof {
            lemma_collect_end(self.audio.nodes@, a.nodes, f);
        }
        r
    }

    /// Open the choice of a device for a stream.
    fn open_chooser(&mut self, stream: &AudioNode, now: u64)
        requires
            old(self).wf(),
            !device_kind(stream@.kind),
        ensures
            final(self).wf(),
            final(self)@ == choosing(old(self)@, stream@, now),
    {
        let wanted = match stream.kind {
            NodeKind::Playback => NodeKind::Sink,
            _ => NodeKind::Source,
        };
        let current = self.audio.target_id(stream);
        let options = self.options_for(wanted, current);
        if options.len() == 0 {
            let mut msg = "no ".to_owned();
            msg.append(wanted.label());
            msg.append("s to move to");
            assert(option_views(options@).len() == 0);
            self.set_status(msg, now);
            return;
        }
        let sel = place_of(&options, current);
        self.chooser = Some(
            Chooser { stream: stream.id, stream_name: stream.name.clone(), options, sel },
        );
    }

    /// Make the device `n` the default.
    fn make_default(&mut self, n: &AudioNode, now: u64) -> (step: Step)
        requires
            old(self).wf(),
        ensures
            final(self).wf(),
            (final(self)@, step) == defaulting(old(self)@, n@, now),
    {
        let mut msg = "default ".to_owned();
        msg.append(n.kind.label());
        msg.append(" → ");
        msg.append(n.name.as_str());
        self.set_status(msg, now);
        Step::Send(Cmd::SetDefault { device: n.id })
    }

    /// React to the command `c` at `now`.
    fn handle_command(&mut self, c: Command, now: u64) -> (step: Step)
        requires
            old(self).wf(),
        ensures
            final(self).wf(),
            (final(self)@, step) == after_command(old(self)@, c, now),
    {
        match c {
            Command::Nothing => Step::Continue,
            Command::Quit => Step::Quit,
            Command::Enter => match self.selected() {
                Some(n) => {
                    if n.kind.is_device() {
                        self.make_default(&n, now)
                    } else {
                        self.open_chooser(&n, now);
                        Step::Continue
                    }
                },
                None => Step::Continue,
            },
            Command::Default => match self.selected() {
                Some(n) => {
                    if n.kind.is_device() {
                        self.make_default(&n, now)
                    } else {
                        Step::Continue
                    }
                },
                None => Step::Continue,
            },
            Command::Volume(percent) => match self.selected() {
                Some(n) => Step::Send(Cmd::AdjustVolume { node: n.id, percent }),
                None => Step::Continue,
            },
            Command::Mute => match self.selected() {
                Some(n) => Step::Send(Cmd::ToggleMute { node: n.id }),
                None => Step::Continue,
            },
            Command::Detail => {
                self.show_detail = !self.show_detail;
                Step::Continue
            },
            Command::Select(delta) => {
                self.selected = move_selection(self.selected, self.results.len(), delta);
                Step::Continue
            },
            Command::Edit(e) => {
                let _ = self.query.apply(e);
                Step::Continue
            },
        }
    }

    /// React to a key for the open choice `c`, which has been taken out.
    fn handle_choice(&mut self, c: Chooser, k: Choice, now: u64) -> (step: Step)
        requires
            old(self).wf(),
            old(self)@.chooser is None,
            choosable(Some(c@)),
        ensures
            final(self).wf(),
            (final(self)@, step) == after_choice(
                (StateView { chooser: Some(c@), ..old(self)@ }),
                c@,
                k,
                now,
            ),
    {
        let mut c = c;
        match k {
            Choice::Nothing => {
                self.chooser = Some(c);
                Step::Continue
            },
            Choice::Quit => {
                self.chooser = Some(c);
                Step::Quit
            },
            Choice::Back => Step::Continue,
            Choice::Up => {
                if c.sel > 0 {
                    c.sel = c.sel - 1;
                }
                self.chooser = Some(c);
                Step::Continue
            },
            Choice::Down => {
                if c.options.len() - c.sel > 1 {
                    c.sel = c.sel + 1;
                } else {
                    c.sel = c.options.len() - 1;
                }
                self.chooser = Some(c);
                Step::Continue
            },
            Choice::Take => {
                let to = c.options[c.sel].0;
                let mut msg = "moving ".to_owned();
                msg.append(c.stream_name.as_str());
                msg.append(" → ");
                msg.append(c.options[c.sel].1.as_str());
                self.set_status(msg, now);
                Step::Send(Cmd::Move { stream: c.stream, target: to })
            },
        }
    }

    /// React to a key at `now`.
    pub fn handle_key(&mut self, key: KeyEvent, now: u64) -> (step: Step)
        requires
            old(self).wf(),
        ensures
            final(self).wf(),
            (final(self)@, step) == after_key(old(self)@, key, now),
    {
        if key.kind == KeyEventKind::Release {
            return Step::Continue;
        }
        let open = self.chooser.take();
        match open {
            Some(c) => self.handle_choice(c, choice_for(key.code, key.ctrl), now),
            None => {
                let empty = self.query.is_empty();
                self.handle_command(command_for(key, empty), now)
            },
        }
    }

    /// The status line at `now`.
    pub fn status_line(&self, now: u64) -> (r: (String, Tone))
        ensures
            (r.0@, r.1) == status_text(self@, now),
    {
        if self.engine_dead {
            return (
                " PipeWire connection lost — showing the last known state".to_owned(),
                Tone::Warn,
            );
        }
        if let Some(c) = &self.chooser {
            let mut text = " move ".to_owned();
            let name = sanitize_display(c.stream_name.as_str());
            text.append(name.as_str());
            text.append(" to…  ·  Enter move · Esc back");
            return (text, Tone::Dim);
        }
        if let Some(s) = &self.status {
            if age_of(now, s.1) < STATUS_SECS * SECOND {
                let mut text = " ".to_owned();
                text.append(s.0.as_str());
                return (text, Tone::Warn);
            }
        }
        let mut text = " ".to_owned();
        let n = decimal_of(self.results.len() as u64);
        text.append(n.as_str());
        text.append(" · Enter move/default · M-←/→ vol · M-m mute · ^V detail · Esc");
        (text, Tone::Dim)
    }

    /// The name of the node `n` in the list.
    fn name_cell(&self, n: &AudioNode) -> (s: String)
        requires
            self.audio.wf(),
        ensures
            s@ == name_text(self.audio@, n@),
    {
        let mut s = n.name.clone();
        let ghost before = s@;
        match self.audio.target_of(n) {
            Some(t) => {
                s.append(" → ");
                s.append(t.name.as_str());
                assert(s@ =~= before + (" → "@ + t.name@));
            },
            None => {
                assert(before + Seq::<char>::empty() == before);
            },
        }
        let ghost middle = s@;
        if !n.kind.is_device() {
            if let Some(d) = &n.detail {
                if !d.as_str().eq(n.name.as_str()) {
                    s.append("  (");
                    s.append(d.as_str());
                    s.append(")");
                    assert(s@ =~= middle + ("  ("@ + d@ + ")"@));
                    return s;
                }
            }
        }
        assert(middle + Seq::<char>::empty() == middle);
        s
    }

    /// The rows of the list.
    pub fn list_rows(&self) -> (rows: Vec<ListRow>)
        requires
            self.wf(),
        ensures
            rows@.len() == self@.results.len(),
            forall|i: int|
                0 <= i < rows@.len() ==> (#[trigger] rows@[i])@ == list_row(
                    self@.audio,
                    self@.results[i],
                    trimmed(self@.line.text()),
                ),
    {
        let q = self.query.trimmed();
        let mut m = matcher();
        let mut rows: Vec<ListRow> = Vec::new();
        let mut i: usize = 0;
        while i < self.results.len()
            invariant
                i <= self.results@.len(),
                self.wf(),
                q@ == trimmed(self@.line.text()),
                rows@.len() == i,
                forall|j: int|
                    0 <= j < i ==> (#[trigger] rows@[j])@ == list_row(
                        self@.audio,
                        self@.results[j],
                        q@,
                    ),
            decreases self.results@.len() - i,
        {
            let n = &self.results[i];
            let mut tag = n.kind.label().to_owned();
            if self.audio.is_default(n) {
                tag.append(" *");
            }
            let name = self.name_cell(n);
            let row = ListRow {
                tag: highlight_cell(tag.as_str(), q.as_str(), &mut m),
                name: highlight_cell(name.as_str(), q.as_str(), &mut m),
                level: if n.mute {
                    "muted".to_owned()
                } else {
                    gauge(n.volume)
                },
                muted: n.mute,
                percent: match n.volume {
                    Some(v) => {
                        let p = decimal_of(v.percent as u64);
                        let mut s = pad_left(p.as_str(), 3);
                        s.append("%");
                        s
                    },
                    None => "   ·".to_owned(),
                },
            };
            assert(self@.results[i as int] == n@);
            rows.push(row);
            i += 1;
        }
        rows
    }

    /// The routing line of the detail strip.
    fn routing(&self, n: &AudioNode) -> (line: Vec<Piece>)
        requires
            self.audio.wf(),
        ensures
            piece_views(line@) == routing_line(self.audio@, n@),
    {
        let mut line: Vec<Piece> = Vec::new();
        if n.kind.is_device() {
            let streams = self.audio.streams_of(n);
            assert(node_views(streams@).len() == streams@.len());
            let text = if streams.len() == 0 {
                "—".to_owned()
            } else {
                let names = names_of(&streams);
                join(&names, ", ")
            };
            push_pair(&mut line, "streams ", sanitize_display(text.as_str()));
        } else {
            let text = match self.audio.target_of(n) {
                Some(t) => t.name,
                None => "—".to_owned(),
            };
            push_pair(&mut line, "→ ", sanitize_display(text.as_str()));
        }
        push_pair(&mut line, "   node ", sanitize_display(n.node_name.as_str()));
        assert(piece_views(line@) =~= routing_line(self.audio@, n@));
        line
    }

    /// The lines of the detail strip; none where nothing is selected.
    pub fn detail(&self) -> (r: Option<Vec<Vec<Piece>>>)
        requires
            self.wf(),
        ensures
            match r {
                Some(lines) => selected_node(self@) is Some && line_views(lines@) == detail_lines(
                    self@.audio,
                    selected_node(self@)->0,
                ),
                None => selected_node(self@) is None,
            },
    {
        let n = match self.selected() {
            Some(n) => n,
            None => return None,
        };
        let mut l1: Vec<Piece> = Vec::new();
        push_pair(&mut l1, "name ", sanitize_display(n.name.as_str()));
        push_pair(&mut l1, "   type ", n.kind.label().to_owned());
        if self.audio.is_default(&n) {
            let ghost before = piece_views(l1@);
            let p = Piece { text: " (default)".to_owned(), is_label: false };
            let ghost pv = p@;
            l1.push(p);
            assert(piece_views(l1@) =~= before.push(pv));
        }
        push_pair(&mut l1, "   id ", decimal_of(n.id as u64));

        let mut l2: Vec<Piece> = Vec::new();
        let vol = match n.volume {
            Some(v) => {
                let mut s = decimal_of(v.percent as u64);
                s.append("%");
                s
            },
            None => "—".to_owned(),
        };
        push_pair(&mut l2, "vol ", sanitize_display(vol.as_str()));
        push_pair(
            &mut l2,
            "   muted ",
            if n.mute {
                "yes".to_owned()
            } else {
                "no".to_owned()
            },
        );
        if let Some(d) = &n.detail {
            push_pair(&mut l2, "   playing ", sanitize_display(d.as_str()));
        }
        let l3 = self.routing(&n);
        let ghost wanted = detail_lines(self@.audio, n@);
        assert(piece_views(l1@) =~= wanted[0]);
        assert(piece_views(l2@) =~= wanted[1]);
        assert(piece_views(l3@) =~= wanted[2]);
        let mut lines: Vec<Vec<Piece>> = Vec::new();
        lines.push(l1);
        lines.push(l2);
        lines.push(l3);
        assert(line_views(lines@) =~= wanted);
        Some(lines)
    }
}

/// The ranking of the nodes gives the list.
proof fn lemma_listing(
    audio: AudioState,
    q: Seq<char>,
    keys: Seq<Option<Key>>,
    order: Seq<usize>,
    list: Seq<AudioNodeView>,
)
    requires
        audio.wf(),
        is_ranking(order, keys),
        keys.len() == rows_of(audio.nodes@).len(),
        keys.len() <= usize::MAX,
        list.len() == order.len(),
        forall|j: int|
            0 <= j < list.len() ==> (#[trigger] list[j])
                == rows_of(audio.nodes@)[order[j] as int].1@,
        forall|i: int| #![trigger keys[i]]
            0 <= i < keys.len() ==> keyed_for(keys[i], audio@, rows_of(audio.nodes@)[i].1@, q),
    ensures
        is_listing(list, audio@, q),
{
    let rows = rows_of(audio.nodes@);
    let a = audio@;
    lemma_keys_grow(audio.nodes@);
    assert forall|j: int| #![trigger list[j]] 0 <= j < list.len() implies {
        let id = list[j].id;
        a.nodes.dom().contains(id) && list[j] == a.nodes[id] && found(q, a, list[j])
    } by {
        let at = order[j] as int;
        assert(keys[at] is Some);
        lemma_row(audio.nodes@, at);
        assert(audio.nodes@.dom().contains(rows[at].0));
    }
    assert forall|i: int, j: int| #![trigger list[i], list[j]]
        0 <= i < j < list.len() implies listed_before(q, a, list[i], list[j]) by {
        let x = order[i] as int;
        let y = order[j] as int;
        assert(goes_before(keys, x, y));
        assert(keys[x] is Some && keys[y] is Some);
        lemma_row(audio.nodes@, x);
        lemma_row(audio.nodes@, y);
        assert(audio.nodes@.dom().contains(rows[x].0));
        assert(audio.nodes@.dom().contains(rows[y].0));
        if x < y {
            assert(rows[x].0 < rows[y].0);
        } else if y < x {
            assert(rows[y].0 < rows[x].0);
        }
    }
    assert forall|id: u32| #[trigger] a.nodes.dom().contains(id) && found(
        q,
        a,
        a.nodes[id],
    ) implies exists|i: int| 0 <= i < list.len() && (#[trigger] list[i]).id == id by {
        lemma_entry(audio.nodes@, id);
        let at = row_of(rows, id);
        assert(keys[at] is Some);
        assert(order.contains(at as usize));
        let i = choose|i: int| 0 <= i < order.len() && order[i] == at as usize;
        assert(list[i] == rows[at].1@);
    }
}

/// The place of a kind in the list.
fn rank_of(kind: NodeKind) -> (r: u8)
    ensures
        r == kind_rank(kind),
{
    match kind {
        NodeKind::Sink => 0,
        NodeKind::Source => 1,
        NodeKind::Playback => 2,
        NodeKind::Record => 3,
    }
}

/// The place of the option `id`, or the first.
fn place_of(options: &Vec<(u32, String)>, id: Option<u32>) -> (sel: usize)
    requires
        options@.len() > 0,
    ensures
        sel < options@.len(),
        sel == match option_at(option_views(options@), id, 0) {
            Some(i) => i,
            None => 0,
        },
{
    let mut i: usize = 0;
    while i < options.len()
        invariant
            i <= options@.len(),
            option_at(option_views(options@), id, 0) == option_at(
                option_views(options@),
                id,
                i as int,
            ),
        decreases options@.len() - i,
    {
        if id == Some(options[i].0) {
            return i;
        }
        i += 1;
    }
    0
}

/// A volume gauge of five cells; a dot where the volume is not known.
pub fn gauge(volume: Option<Volume>) -> (s: String)
    ensures
        s@ == gauge_text(volume),
{
    let v = match volume {
        Some(v) => v,
        None => return "  ·  ".to_owned(),
    };
    let ghost wanted = gauge_text(volume);
    let mut s = String::new();
    let mut i: usize = 0;
    while i < 5
        invariant
            i <= 5,
            volume == Some(v),
            wanted == gauge_text(volume),
            s@ == wanted.take(i as int),
        decreases 5 - i,
    {
        if i < v.cells {
            s.push('▮');
        } else {
            s.push('▯');
        }
        i += 1;
        assert(s@ == wanted.take(i as int));
    }
    assert(wanted.take(5) == wanted);
    s
}

/// The names of `nodes`, made safe.
fn names_of(nodes: &Vec<AudioNode>) -> (names: Vec<String>)
    ensures
        views(names@) == safe_names(node_views(nodes@)),
{
    let mut names: Vec<String> = Vec::new();
    let mut i: usize = 0;
    while i < nodes.len()
        invariant
            i <= nodes@.len(),
            names@.len() == i,
            forall|j: int| 0 <= j < i ==> (#[trigger] names@[j])@ == shown(nodes@[j]@.name),
        decreases nodes@.len() - i,
    {
        names.push(sanitize_display(nodes[i].name.as_str()));
        i += 1;
    }
    assert(views(names@) =~= safe_names(node_views(nodes@)));
    names
}

// ---- laws ------------------------------------------------------------------------

/// Escape always backs out of a choice, and never does anything to the graph.
pub proof fn escape_backs_out(s: StateView, key: KeyEvent, now: u64)
    requires
        s.chooser is Some,
        key.code == KeyCode::Esc,
        key.kind != KeyEventKind::Release,
    ensures
        after_key(s, key, now) == (StateView { chooser: None, ..s }, Step::Continue),
{
}

/// Every key keeps an open choice on one of its options.
pub proof fn choices_stay_valid(s: StateView, key: KeyEvent, now: u64)
    requires
        s.chooser is Some,
        choosable(s.chooser),
    ensures
        choosable(after_key(s, key, now).0.chooser),
{
}

/// A stream is only ever moved to a device of the kind that fits it, and by a
/// choice that was opened for it.
pub proof fn streams_move_to_fitting_devices(a: AudioStateView, n: AudioNodeView, i: int)
    requires
        0 <= i < collected(
            a.nodes,
            option_of(wanted_kind(n.kind), current_target(a, n)),
        ).len(),
        forall|k: u32| #[trigger] a.nodes.dom().contains(k) ==> a.nodes[k].id == k,
    ensures
        ({
            let id = collected(
                a.nodes,
                option_of(wanted_kind(n.kind), current_target(a, n)),
            )[i].0;
            a.nodes.dom().contains(id) && a.nodes[id].kind == wanted_kind(n.kind)
        }),
{
    lemma_option_kinds(a, wanted_kind(n.kind), current_target(a, n), 0x1_0000_0000, i);
}

proof fn lemma_option_kinds(
    a: AudioStateView,
    wanted: NodeKind,
    current: Option<u32>,
    k: int,
    i: int,
)
    requires
        0 <= i < collected_below(a.nodes, option_of(wanted, current), k).len(),
        forall|k: u32| #[trigger] a.nodes.dom().contains(k) ==> a.nodes[k].id == k,
    ensures
        ({
            let id = collected_below(a.nodes, option_of(wanted, current), k)[i].0;
            a.nodes.dom().contains(id) && a.nodes[id].kind == wanted
        }),
    decreases k,
{
    let f = option_of(wanted, current);
    let before = collected_below(a.nodes, f, k - 1);
    if i < before.len() {
        lemma_option_kinds(a, wanted, current, k - 1, i);
    } else {
        assert(a.nodes.dom().contains((k - 1) as u32));
    }
}

/// A key that only edits, moves the selection or toggles the detail strip sends
/// nothing to the engine.
pub proof fn browsing_changes_nothing(s: StateView, c: Command, now: u64)
    requires
        c is Select || c is Edit || c is Detail || c is Nothing,
    ensures
        after_command(s, c, now).1 == Step::Continue,
        after_command(s, c, now).0.audio == s.audio,
{
}

} // verus!
