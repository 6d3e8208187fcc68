//! The live picker over Bluetooth devices. The engine streams snapshots of what
//! BlueZ knows; the picker lists them with those in use first. Pairing requests
//! show in the status line, and forgetting a device takes a held key.
//!
//! Times are nanoseconds since some moment in the past.

use vstd::prelude::*;
use crate::base::fuzzy::{matcher, score, score_of};
use crate::base::sanitize::{sanitize_display, shown};
use crate::gorm::device::{
    bt_search_text, bt_views, BtDevice, BtDeviceView, Cmd, CmdView, Fact, FactView, Prompt,
    PromptKind, PromptView,
};
use crate::number::{decimal, decimal_of, signed_decimal, signed_decimal_of};
use crate::ranking::{goes_before, is_ranking, rank, Rank};
use crate::text::{
    chars_of, lemma_text_order_total, lemma_text_order_transitive, opt_copy, opt_or, opt_view,
    stands_before, substring, text_before, text_or, trimmed,
};
use crate::ui::clock::{age, age_of, SECOND};
use crate::ui::editing::Line;
use crate::ui::highlight::{run_views, Run, RunView};
use crate::ui::keys::{KeyCode, KeyEvent, KeyEventKind};
use crate::ui::picker::{
    cell_runs, highlight_cell, label, line_views, move_selection, moved_selection, one_segment,
    piece_views, plain, push_pair, push_segment, segment_views, value, Piece, PieceView, Segment, SegmentView,
    Tone,
};
use crate::ui::query::{
    control_edit, control_edit_for, control_move, control_move_for, edited, named_edit,
    named_edit_for, named_move, named_move_for, Edit, Query,
};

verus! {

/// How many seconds a message stays.
pub const STATUS_SECS: u64 = 4;

/// How long Alt-U must be held before a device is forgotten.
pub const UNPAIR_HOLD: u64 = 650_000_000;

/// Where the terminal reports no releases: a longer gap than this between
/// repeats of Alt-U means that the key was released.
pub const UNPAIR_RELEASE_GAP: u64 = 200_000_000;

/// The state of the picker.
pub struct State {
    pub query: Query,
    /// The devices that BlueZ knows, each address once.
    pub bluez: Vec<BtDevice>,
    pub adapter_name: String,
    pub show_detail: bool,
    /// The devices that the list shows, best first.
    pub results: Vec<BtDevice>,
    pub selected: Option<usize>,
    /// A message and when it was set.
    pub status: Option<(String, u64)>,
    /// A pairing request that waits for an answer.
    pub prompt: Option<Prompt>,
    /// What has been typed for it.
    pub prompt_input: String,
    /// Since when Alt-U is held.
    pub unpair_arm: Option<u64>,
    /// When Alt-U was last reported.
    pub unpair_last: u64,
    /// A device was forgotten by the key that is still held.
    pub unpair_consumed: bool,
}

/// The devices of the first `n` of `list`, by address: the last one counts.
pub open spec fn by_address(list: Seq<BtDeviceView>, n: int) -> Map<Seq<char>, BtDeviceView>
    decreases n,
{
    if n <= 0 {
        Map::empty()
    } else {
        by_address(list, n - 1).insert(list[n - 1].address, list[n - 1])
    }
}

/// What a [`State`] holds.
#[verifier::ext_equal]
pub ghost struct StateView {
    pub line: Line,
    pub bluez: Map<Seq<char>, BtDeviceView>,
    pub adapter_name: Seq<char>,
    pub show_detail: bool,
    pub results: Seq<BtDeviceView>,
    pub selected: Option<usize>,
    pub status: Option<(Seq<char>, u64)>,
    pub prompt: Option<PromptView>,
    pub prompt_input: Seq<char>,
    pub unpair_arm: Option<u64>,
    pub unpair_last: u64,
    pub unpair_consumed: bool,
}

impl View for State {
    type V = StateView;

    open spec fn view(&self) -> StateView {
        StateView {
            line: self.query@,
            bluez: by_address(bt_views(self.bluez@), self.bluez@.len() as int),
            adapter_name: self.adapter_name@,
            show_detail: self.show_detail,
            results: bt_views(self.results@),
            selected: self.selected,
            status: match self.status {
                Some(s) => Some((s.0@, s.1)),
                None => None,
            },
            prompt: match self.prompt {
                Some(p) => Some(p@),
                None => None,
            },
            prompt_input: self.prompt_input@,
            unpair_arm: self.unpair_arm,
            unpair_last: self.unpair_last,
            unpair_consumed: self.unpair_consumed,
        }
    }
}

/// Whether no address occurs twice in `list`.
pub open spec fn distinct(list: Seq<BtDeviceView>) -> bool {
    forall|i: int, j: int|
        0 <= i < j < list.len() ==> (#[trigger] list[i]).address != (#[trigger] list[j]).address
}

/// What holds of the picker between keys: a device that was just forgotten is
/// not about to be forgotten again, and a request that waits can be answered.
pub open spec fn in_order(s: StateView) -> bool {
    &&& s.unpair_consumed ==> s.unpair_arm is None
    &&& s.prompt is Some ==> (s.prompt->0).kind != PromptKind::Display
}

/// What the program does for the picker after a key.
pub enum Step {
    Continue,
    Quit,
    /// Send this to the engine.
    Send(Cmd),
}

/// What a [`Step`] asks for.
pub ghost enum StepView {
    Continue,
    Quit,
    Send(CmdView),
}

impl View for Step {
    type V = StepView;

    open spec fn view(&self) -> StepView {
        match self {
            Step::Continue => StepView::Continue,
            Step::Quit => StepView::Quit,
            Step::Send(cmd) => StepView::Send(cmd@),
        }
    }
}

// ---- keys ------------------------------------------------------------------------

/// What a key means while no request waits.
#[derive(Clone, Copy, Debug, PartialEq, Eq, Structural)]
pub enum Command {
    Nothing,
    Quit,
    /// Connect or disconnect.
    Toggle,
    Pair,
    /// Hold to forget.
    Hold,
    Trust,
    Block,
    Detail,
    Select(isize),
    Edit(Edit),
}

/// What the letter `c` means with its modifiers.
pub open spec fn letter_command(c: char, ctrl: bool, alt: bool, empty: bool) -> Command {
    if ctrl && (c == 'c' || c == 'g' || (c == 'd' && empty)) {
        Command::Quit
    } else if alt && c == 'p' {
        Command::Pair
    } else if alt && c == 'u' {
        Command::Hold
    } else if ctrl && c == 't' {
        Command::Trust
    } else if alt && c == 'b' {
        Command::Block
    } else if ctrl && c == 'v' {
        Command::Detail
    } else if ctrl {
        if control_move(c) is Some {
            Command::Select(control_move(c)->0 as isize)
        } else if control_edit(c) is Some {
            Command::Edit(control_edit(c)->0)
        } else {
            Command::Nothing
        }
    } else if alt {
        Command::Nothing
    } else {
        Command::Edit(Edit::Insert(c))
    }
}

/// What a key means while no request waits.
pub open spec fn command(key: KeyEvent, empty: bool) -> Command {
    match key.code {
        KeyCode::Esc => Command::Quit,
        KeyCode::Enter => Command::Toggle,
        KeyCode::Char(c) => letter_command(c, key.ctrl, key.alt, empty),
        code => if named_move(code) is Some {
            Command::Select(named_move(code)->0 as isize)
        } else if named_edit(code) is Some {
            Command::Edit(named_edit(code)->0)
        } else {
            Command::Nothing
        },
    }
}

/// What a key means while no request waits.
pub fn command_for(key: KeyEvent, empty: bool) -> (r: Command)
    ensures
        r == command(key, empty),
{
    match key.code {
        KeyCode::Esc => Command::Quit,
        KeyCode::Enter => Command::Toggle,
        KeyCode::Char(c) => {
            let ctrl = key.ctrl;
            let alt = key.alt;
            if ctrl && (c == 'c' || c == 'g' || (c == 'd' && empty)) {
                return Command::Quit;
            }
            if alt && c == 'p' {
                return Command::Pair;
            }
            if alt && c == 'u' {
                return Command::Hold;
            }
            if ctrl && c == 't' {
                return Command::Trust;
            }
            if alt && c == 'b' {
                return Command::Block;
            }
            if ctrl && c == 'v' {
                return Command::Detail;
            }
            if ctrl {
                if let Some(d) = control_move_for(c) {
                    return Command::Select(d);
                }
                return match control_edit_for(c) {
                    Some(e) => Command::Edit(e),
                    None => Command::Nothing,
                };
            }
            if alt {
                Command::Nothing
            } else {
                Command::Edit(Edit::Insert(c))
            }
        },
        code => {
            if let Some(d) = named_move_for(code) {
                return Command::Select(d);
            }
            match named_edit_for(code) {
                Some(e) => Command::Edit(e),
                None => Command::Nothing,
            }
        },
    }
}

/// What a key means for a request that waits.
#[derive(Clone, Copy, Debug, PartialEq, Eq, Structural)]
pub enum Answer {
    Ignore,
    Type(char),
    Erase,
    Accept,
    Reject,
}

/// What a key means for a request of the kind `kind`.
pub open spec fn answer(kind: PromptKind, code: KeyCode) -> Answer {
    match kind {
        PromptKind::Display => Answer::Ignore,
        PromptKind::Confirm => match code {
            KeyCode::Enter | KeyCode::Char('y') => Answer::Accept,
            KeyCode::Esc | KeyCode::Char('n') => Answer::Reject,
            _ => Answer::Ignore,
        },
        _ => match code {
            KeyCode::Char(c) => if kind == PromptKind::Pin || '0' <= c <= '9' {
                Answer::Type(c)
            } else {
                Answer::Ignore
            },
            KeyCode::Backspace => Answer::Erase,
            KeyCode::Enter => Answer::Accept,
            KeyCode::Esc => Answer::Reject,
            _ => Answer::Ignore,
        },
    }
}

/// What a key means for a request of the kind `kind`.
pub fn answer_for(kind: PromptKind, code: KeyCode) -> (r: Answer)
    ensures
        r == answer(kind, code),
{
    match kind {
        PromptKind::Confirm => match code {
            KeyCode::Enter => Answer::Accept,
            KeyCode::Char('y') => Answer::Accept,
            KeyCode::Esc => Answer::Reject,
            KeyCode::Char('n') => Answer::Reject,
            _ => Answer::Ignore,
        },
        PromptKind::Passkey => match code {
            KeyCode::Char(c) => {
                if '0' <= c && c <= '9' {
                    Answer::Type(c)
                } else {
                    Answer::Ignore
                }
            },
            KeyCode::Backspace => Answer::Erase,
            KeyCode::Enter => Answer::Accept,
            KeyCode::Esc => Answer::Reject,
            _ => Answer::Ignore,
        },
        PromptKind::Pin => match code {
            KeyCode::Char(c) => Answer::Type(c),
            KeyCode::Backspace => Answer::Erase,
            KeyCode::Enter => Answer::Accept,
            KeyCode::Esc => Answer::Reject,
            _ => Answer::Ignore,
        },
        PromptKind::Display => Answer::Ignore,
    }
}

// ---- the list --------------------------------------------------------------------

/// The band of a device: in use, paired, identifiable, or an anonymous beacon.
/// That a device can be paired right now is not known; that it has a name or a
/// class stands for it.
pub open spec fn tier(d: BtDeviceView) -> u8 {
    if d.connected {
        0
    } else if d.paired {
        1
    } else if d.name is Some || d.icon is Some {
        2
    } else {
        3
    }
}

/// The signal strength of a device, the weakest where it is unknown.
pub open spec fn signal(d: BtDeviceView) -> i16 {
    match d.rssi {
        Some(r) => r,
        None => i16::MIN,
    }
}

/// What a device is called in the list.
pub open spec fn title(d: BtDeviceView) -> Seq<char> {
    text_or(d.name, d.address)
}

/// Whether the name and address `(t, a)` stand before `(u, b)`.
pub open spec fn names_before(t: Seq<char>, a: Seq<char>, u: Seq<char>, b: Seq<char>) -> bool {
    text_before(t, u) || (t == u && text_before(a, b))
}

/// Whether `a` stands before `b` where nothing is searched: by band, then by
/// signal, then by name and address.
pub open spec fn ranks_first(a: BtDeviceView, b: BtDeviceView) -> bool {
    tier(a) < tier(b) || (tier(a) == tier(b) && (signal(a) > signal(b) || (signal(a) == signal(b)
        && names_before(title(a), a.address, title(b), b.address))))
}

/// Whether the search `q` finds `d`; an empty one finds everything.
pub open spec fn found(q: Seq<char>, d: BtDeviceView) -> bool {
    q.len() == 0 || score_of(q, bt_search_text(d)) is Some
}

/// Whether `a` stands before `b` in the list: by score where there is a search,
/// and then as where there is none.
pub open spec fn listed_before(q: Seq<char>, a: BtDeviceView, b: BtDeviceView) -> bool {
    if q.len() == 0 {
        ranks_first(a, b)
    } else {
        let x = score_of(q, bt_search_text(a))->0;
        let y = score_of(q, bt_search_text(b))->0;
        x > y || (x == y && ranks_first(a, b))
    }
}

/// Whether `results` lists the devices that the search `q` finds, each once, in
/// order.
pub open spec fn is_listing(
    results: Seq<BtDeviceView>,
    bluez: Map<Seq<char>, BtDeviceView>,
    q: Seq<char>,
) -> bool {
    &&& forall|i: int| #![trigger results[i]]
        0 <= i < results.len() ==> {
            let a = results[i].address;
            bluez.dom().contains(a) && results[i] == bluez[a] && found(q, results[i])
        }
    &&& forall|i: int, j: int| #![trigger results[i], results[j]]
        0 <= i < j < results.len() ==> listed_before(q, results[i], results[j])
    &&& forall|a: Seq<char>| #[trigger]
        bluez.dom().contains(a) && found(q, bluez[a]) ==> exists|i: int|
            0 <= i < results.len() && (#[trigger] results[i]).address == a
}

/// The selected device.
pub open spec fn selected_device(s: StateView) -> Option<BtDeviceView> {
    match s.selected {
        Some(i) => if i < s.results.len() {
            Some(s.results[i as int])
        } else {
            None
        },
        None => None,
    }
}

/// The selection in a new list: on the device that was selected, or else on the
/// first row.
pub open spec fn is_kept_selection(
    results: Seq<BtDeviceView>,
    keep: Option<Seq<char>>,
    selected: Option<usize>,
) -> bool {
    if keep is Some && exists|i: int|
        0 <= i < results.len() && (#[trigger] results[i]).address == keep->0 {
        selected is Some && selected->0 < results.len() && results[selected->0 as int].address
            == keep->0
    } else if results.len() == 0 {
        selected is None
    } else {
        selected == Some(0usize)
    }
}

/// The address of the selected device.
pub open spec fn selected_address(s: StateView) -> Option<Seq<char>> {
    match selected_device(s) {
        Some(d) => Some(d.address),
        None => None,
    }
}

/// How devices rank.
pub struct Key {
    pub score: u32,
    pub tier: u8,
    pub signal: i16,
    pub title: String,
    pub address: String,
}

proof fn lemma_names_total(t: Seq<char>, a: Seq<char>, u: Seq<char>, b: Seq<char>)
    ensures
        !names_before(t, a, t, a),
        !(names_before(t, a, u, b) && names_before(u, b, t, a)),
        (t == u && a == b) || names_before(t, a, u, b) || names_before(u, b, t, a),
{
    lemma_text_order_total(t, u);
    lemma_text_order_total(a, b);
}

proof fn lemma_names_transitive(
    t: Seq<char>,
    a: Seq<char>,
    u: Seq<char>,
    b: Seq<char>,
    v: Seq<char>,
    c: Seq<char>,
)
    requires
        names_before(t, a, u, b),
        names_before(u, b, v, c),
    ensures
        names_before(t, a, v, c),
{
    lemma_text_order_total(t, u);
    lemma_text_order_total(u, v);
    if text_before(t, u) && text_before(u, v) {
        lemma_text_order_transitive(t, u, v);
    }
    if t == u && u == v {
        lemma_text_order_transitive(a, b, c);
    }
}

impl Rank for Key {
    open spec fn before(self, other: Self) -> bool {
        self.score > other.score || (self.score == other.score && (self.tier < other.tier || (
        self.tier == other.tier && (self.signal > other.signal || (self.signal == other.signal
            && names_before(self.title@, self.address@, other.title@, other.address@))))))
    }

    proof fn irreflexive(a: Self) {
        lemma_names_total(a.title@, a.address@, a.title@, a.address@);
    }

    proof fn transitive(a: Self, b: Self, c: Self) {
        if names_before(a.title@, a.address@, b.title@, b.address@) && names_before(
            b.title@,
            b.address@,
            c.title@,
            c.address@,
        ) {
            lemma_names_transitive(
                a.title@,
                a.address@,
                b.title@,
                b.address@,
                c.title@,
                c.address@,
            );
        }
    }

    proof fn negatively_transitive(a: Self, b: Self, c: Self) {
        lemma_names_total(a.title@, a.address@, b.title@, b.address@);
        lemma_names_total(b.title@, b.address@, c.title@, c.address@);
        lemma_names_total(a.title@, a.address@, c.title@, c.address@);
        if names_before(b.title@, b.address@, a.title@, a.address@) && names_before(
            a.title@,
            a.address@,
            c.title@,
            c.address@,
        ) {
            lemma_names_transitive(
                b.title@,
                b.address@,
                a.title@,
                a.address@,
                c.title@,
                c.address@,
            );
        }
    }

    fn ranks_before(&self, other: &Self) -> (r: bool) {
        if self.score != other.score {
            return self.score > other.score;
        }
        if self.tier != other.tier {
            return self.tier < other.tier;
        }
        if self.signal != other.signal {
            return self.signal > other.signal;
        }
        let t = self.title.as_str();
        let u = other.title.as_str();
        stands_before(t, u) || (t.eq(u) && stands_before(
            self.address.as_str(),
            other.address.as_str(),
        ))
    }
}

// ---- steps -----------------------------------------------------------------------

/// What is known to be the name of the device at `address`: that of the first
/// row with it, from the row `from` on.
pub open spec fn name_in(
    results: Seq<BtDeviceView>,
    address: Seq<char>,
    from: int,
) -> Option<Seq<char>>
    decreases results.len() - from,
{
    if from >= results.len() {
        None
    } else if results[from].address == address {
        results[from].name
    } else {
        name_in(results, address, from + 1)
    }
}

/// `s` with the message `msg`, set at `now`.
pub open spec fn saying(s: StateView, msg: Seq<char>, now: u64) -> StateView {
    StateView { status: Some((msg, now)), ..s }
}

/// `s` without a request.
pub open spec fn unprompted(s: StateView) -> StateView {
    StateView { prompt: None, prompt_input: seq![], ..s }
}

/// `s` after the fact `fact` at `now`.
pub open spec fn after_fact(s: StateView, fact: FactView, now: u64) -> StateView {
    match fact {
        FactView::Snapshot(list) => StateView {
            bluez: by_address(list, list.len() as int),
            ..s
        },
        FactView::Adapter(name) => StateView { adapter_name: name, ..s },
        FactView::ActionResult(address, verb, error) => {
            let name = text_or(name_in(s.results, address, 0), address);
            saying(
                unprompted(s),
                match error {
                    None => name + ": "@ + verb + " ✓"@,
                    Some(e) => name + ": "@ + verb + " failed — "@ + e,
                },
                now,
            )
        },
        FactView::AgentPrompt(p) => if p.kind == PromptKind::Display {
            saying(s, p.message, now)
        } else {
            StateView { prompt: Some(p), prompt_input: seq![], ..s }
        },
        FactView::Error(e) => saying(s, e, now),
    }
}

/// `s` after an answer to the request of the kind `kind`.
pub open spec fn after_answer(s: StateView, kind: PromptKind, a: Answer) -> (StateView, StepView) {
    match a {
        Answer::Ignore => (s, StepView::Continue),
        Answer::Type(c) => (
            StateView { prompt_input: s.prompt_input.push(c), ..s },
            StepView::Continue,
        ),
        Answer::Erase => (
            StateView {
                prompt_input: if s.prompt_input.len() == 0 {
                    s.prompt_input
                } else {
                    s.prompt_input.drop_last()
                },
                ..s
            },
            StepView::Continue,
        ),
        Answer::Accept => (
            unprompted(s),
            StepView::Send(
                CmdView::AnswerPrompt(
                    Some(
                        if kind == PromptKind::Confirm {
                            seq![]
                        } else {
                            s.prompt_input
                        },
                    ),
                ),
            ),
        ),
        Answer::Reject => (unprompted(s), StepView::Send(CmdView::AnswerPrompt(None))),
    }
}

/// `s` with the Alt-U that was reported at `now`: the hold starts with the first
/// report, or anew after a gap where releases are not reported.
pub open spec fn holding(s: StateView, enhanced: bool, now: u64) -> StateView {
    let anew = s.unpair_arm is None || (!enhanced && age(now, s.unpair_last) > UNPAIR_RELEASE_GAP);
    StateView {
        unpair_arm: if !s.unpair_consumed && anew {
            Some(now)
        } else {
            s.unpair_arm
        },
        unpair_last: now,
        ..s
    }
}

/// `s` after the command `c` at `now`, and what the program does for it.
pub open spec fn after_command(
    s: StateView,
    c: Command,
    enhanced: bool,
    now: u64,
) -> (StateView, StepView) {
    let d = selected_device(s);
    match c {
        Command::Nothing => (s, StepView::Continue),
        Command::Quit => (s, StepView::Quit),
        Command::Toggle => match d {
            Some(d) => if d.connected {
                (
                    saying(s, "disconnecting "@ + title(d) + "…"@, now),
                    StepView::Send(CmdView::Disconnect(d.address)),
                )
            } else {
                (
                    saying(s, "connecting "@ + title(d) + "…"@, now),
                    StepView::Send(CmdView::Connect(d.address)),
                )
            },
            None => (s, StepView::Continue),
        },
        Command::Pair => match d {
            Some(d) => (
                saying(s, "pairing "@ + title(d) + "… (it must be in pairing mode)"@, now),
                StepView::Send(CmdView::Pair(d.address)),
            ),
            None => (s, StepView::Continue),
        },
        Command::Hold => (holding(s, enhanced, now), StepView::Continue),
        Command::Trust => match d {
            Some(d) => (
                saying(
                    s,
                    (if d.trusted {
                        "untrusting "@
                    } else {
                        "trusting "@
                    }) + title(d) + "…"@,
                    now,
                ),
                StepView::Send(CmdView::SetTrusted(d.address, !d.trusted)),
            ),
            None => (s, StepView::Continue),
        },
        Command::Block => match d {
            Some(d) => (
                saying(
                    s,
                    (if d.blocked {
                        "unblocking "@
                    } else {
                        "blocking "@
                    }) + title(d) + "…"@,
                    now,
                ),
                StepView::Send(CmdView::SetBlocked(d.address, !d.blocked)),
            ),
            None => (s, StepView::Continue),
        },
        Command::Detail => (StateView { show_detail: !s.show_detail, ..s }, StepView::Continue),
        Command::Select(delta) => (
            StateView {
                selected: moved_selection(s.selected, s.results.len(), delta as int),
                ..s
            },
            StepView::Continue,
        ),
        Command::Edit(e) => (StateView { line: edited(s.line, e), ..s }, StepView::Continue),
    }
}

/// `s` after a key at `now`, and what the program does for it. `enhanced` says
/// whether the terminal reports releases.
pub open spec fn after_key(
    s: StateView,
    key: KeyEvent,
    enhanced: bool,
    now: u64,
) -> (StateView, StepView) {
    if key.kind == KeyEventKind::Release {
        if key.code == KeyCode::Char('u') {
            (StateView { unpair_arm: None, unpair_consumed: false, ..s }, StepView::Continue)
        } else {
            (s, StepView::Continue)
        }
    } else if s.prompt is Some {
        let kind = (s.prompt->0).kind;
        after_answer(s, kind, answer(kind, key.code))
    } else {
        after_command(s, command(key, s.line.text().len() == 0), enhanced, now)
    }
}

/// `s` once time has passed until `now`, and what goes to the engine: where
/// releases are not reported a gap counts as one, and a hold that is long
/// enough forgets the selected device.
pub open spec fn after_tick(s: StateView, enhanced: bool, now: u64) -> (StateView, Option<CmdView>) {
    let t = if !enhanced && age(now, s.unpair_last) > UNPAIR_RELEASE_GAP {
        StateView { unpair_arm: None, unpair_consumed: false, ..s }
    } else {
        s
    };
    if t.unpair_arm is Some && age(now, t.unpair_arm->0) >= UNPAIR_HOLD {
        let fired = StateView { unpair_arm: None, unpair_consumed: true, ..t };
        match selected_device(t) {
            Some(d) => (
                saying(fired, "forgetting "@ + title(d) + "…"@, now),
                Some(CmdView::Unpair(d.address)),
            ),
            None => (fired, None),
        }
    } else {
        (t, None)
    }
}

// ---- what is shown ---------------------------------------------------------------

/// A meter of five cells, `filled` of them full.
pub open spec fn meter_cells(filled: nat) -> Seq<char> {
    Seq::new(
        5,
        |i: int|
            if i < filled {
                '▰'
            } else {
                '▱'
            },
    )
}

/// The idle help line.
pub open spec fn help_line(s: StateView) -> Seq<char> {
    " "@ + decimal(s.results.len()) + " · "@ + (if s.adapter_name.len() == 0 {
        "—"@
    } else {
        s.adapter_name
    })
        + " · Enter (dis)connect · M-p pair · hold M-u forget · ^T trust · M-b block · ^V detail · Esc"@
}

/// The status line at `now`: a request, or else the meter of a hold with
/// `filled` cells full, or else a recent message, or else the help line.
pub open spec fn status_segments(s: StateView, now: u64, filled: nat) -> Seq<SegmentView> {
    if s.prompt is Some {
        let p = s.prompt->0;
        if p.kind == PromptKind::Passkey || p.kind == PromptKind::Pin {
            seq![
                plain(" "@, Tone::Warn),
                plain(p.message + " "@, Tone::Warn),
                SegmentView { text: s.prompt_input, tone: Tone::Warn, bold: true },
                plain("▏"@, Tone::Warn),
            ]
        } else {
            let who = name_in(s.results, p.address, 0);
            seq![
                plain(" "@, Tone::Warn),
                plain(
                    (match who {
                        Some(n) => n + ": "@,
                        None => seq![],
                    }) + p.message,
                    Tone::Warn,
                ),
            ]
        }
    } else if s.unpair_arm is Some {
        let name = match selected_device(s) {
            Some(d) => text_or(d.name, "device"@),
            None => "device"@,
        };
        seq![
            plain(" hold M-u to forget "@ + name + "  "@ + meter_cells(filled), Tone::Warn),
        ]
    } else if s.status is Some && age(now, (s.status->0).1) < STATUS_SECS * SECOND {
        seq![plain(" "@ + (s.status->0).0, Tone::Warn)]
    } else {
        seq![plain(help_line(s), Tone::Dim)]
    }
}

/// The state of a device in the list: its link, with a tick where it is trusted.
pub open spec fn state_text(d: BtDeviceView) -> Seq<char> {
    if d.blocked {
        "blocked"@
    } else {
        (if d.connected {
            "conn"@
        } else if d.paired {
            "paired"@
        } else {
            "·"@
        }) + (if d.trusted {
            " ✓"@
        } else {
            seq![]
        })
    }
}

/// How many bars the signal `r` has.
pub open spec fn bars(r: int) -> int {
    if r >= -50 {
        4
    } else if r >= -65 {
        3
    } else if r >= -78 {
        2
    } else if r >= -90 {
        1
    } else {
        0
    }
}

/// The bar at `i` of a signal gauge.
pub open spec fn bar(i: int) -> char {
    if i == 0 {
        '▁'
    } else if i == 1 {
        '▃'
    } else if i == 2 {
        '▅'
    } else {
        '▇'
    }
}

/// A signal gauge of four cells; a dot where the device is not heard.
pub open spec fn signal_text(rssi: Option<i16>) -> Seq<char> {
    match rssi {
        Some(r) => Seq::new(
            4,
            |i: int|
                if i < bars(r as int) {
                    bar(i)
                } else {
                    ' '
                },
        ),
        None => "·"@,
    }
}

/// The battery level, or `other` where it is not known.
pub open spec fn battery_text(battery: Option<u8>, other: Seq<char>) -> Seq<char> {
    match battery {
        Some(b) => decimal(b as nat) + "%"@,
        None => other,
    }
}

/// A row of the list.
pub struct ListRow {
    pub name: Vec<Run>,
    pub icon: Vec<Run>,
    pub signal: String,
    pub battery: String,
    pub state: String,
    pub address: Vec<Run>,
    /// An anonymous beacon, which shows dimmed.
    pub faint: bool,
}

/// What a [`ListRow`] shows.
pub ghost struct ListRowView {
    pub name: Seq<RunView>,
    pub icon: Seq<RunView>,
    pub signal: Seq<char>,
    pub battery: Seq<char>,
    pub state: Seq<char>,
    pub address: Seq<RunView>,
    pub faint: bool,
}

impl View for ListRow {
    type V = ListRowView;

    open spec fn view(&self) -> ListRowView {
        ListRowView {
            name: run_views(self.name@),
            icon: run_views(self.icon@),
            signal: self.signal@,
            battery: self.battery@,
            state: self.state@,
            address: run_views(self.address@),
            faint: self.faint,
        }
    }
}

/// The row of the list for `d`, with the search `q` marked.
pub open spec fn list_row(d: BtDeviceView, q: Seq<char>) -> ListRowView {
    ListRowView {
        name: cell_runs(text_or(d.name, "(unknown)"@), q),
        icon: cell_runs(text_or(d.icon, "-"@), q),
        signal: signal_text(d.rssi),
        battery: battery_text(d.battery, "·"@),
        state: state_text(d),
        address: cell_runs(d.address, q),
        faint: tier(d) == 3,
    }
}

/// Yes or no.
pub open spec fn yes_no(b: bool) -> Seq<char> {
    if b {
        "yes"@
    } else {
        "no"@
    }
}

/// The lines of the detail strip for `d`.
pub open spec fn detail_lines(d: BtDeviceView) -> Seq<Seq<PieceView>> {
    seq![
        seq![
            label("name "@),
            value(shown(text_or(d.name, "(unknown)"@))),
            label("   addr "@),
            value(d.address),
            label("   type "@),
            value(shown(text_or(d.icon, "-"@))),
        ],
        seq![
            label("paired "@),
            value(shown(yes_no(d.paired))),
            label("   connected "@),
            value(yes_no(d.connected)),
            label("   trusted "@),
            value(yes_no(d.trusted)),
            label("   blocked "@),
            value(yes_no(d.blocked)),
        ],
        seq![
            label("rssi "@),
            value(
                shown(
                    match d.rssi {
                        Some(r) => signed_decimal(r as int) + " dBm"@,
                        None => "—"@,
                    },
                ),
            ),
            label("   battery "@),
            value(battery_text(d.battery, "—"@)),
        ],
    ]
}

// ---- code ------------------------------------------------------------------------

/// Where each address occurs once, the map holds the list.
proof fn lemma_by_address(list: Seq<BtDeviceView>, n: int)
    requires
        0 <= n <= list.len(),
    ensures
        forall|a: Seq<char>| #[trigger]
            by_address(list, n).dom().contains(a) <==> exists|i: int|
                0 <= i < n && (#[trigger] list[i]).address == a,
        distinct(list) ==> forall|i: int|
            0 <= i < n ==> by_address(list, n)[(#[trigger] list[i]).address] == list[i],
    decreases n,
{
    if n > 0 {
        lemma_by_address(list, n - 1);
        let m = by_address(list, n);
        assert forall|a: Seq<char>| #[trigger] m.dom().contains(a) <==> exists|i: int|
            0 <= i < n && (#[trigger] list[i]).address == a by {
            if m.dom().contains(a) {
                if a == list[n - 1].address {
                    assert(list[n - 1].address == a);
                } else {
                    assert(by_address(list, n - 1).dom().contains(a));
                }
            }
            if exists|i: int| 0 <= i < n && (#[trigger] list[i]).address == a {
                let i = choose|i: int| 0 <= i < n && (#[trigger] list[i]).address == a;
                if i < n - 1 {
                    assert(by_address(list, n - 1).dom().contains(a));
                }
            }
        }
    }
}

/// A prefix of the list gives the same map.
proof fn lemma_by_address_prefix(a: Seq<BtDeviceView>, b: Seq<BtDeviceView>, n: int)
    requires
        0 <= n <= a.len(),
        n <= b.len(),
        forall|i: int| 0 <= i < n ==> a[i] == b[i],
    ensures
        by_address(a, n) == by_address(b, n),
    decreases n,
{
    if n > 0 {
        lemma_by_address_prefix(a, b, n - 1);
    }
}

/// Replacing the device at `at` by another with its address.
proof fn lemma_replace(list: Seq<BtDeviceView>, at: int, d: BtDeviceView)
    requires
        distinct(list),
        0 <= at < list.len(),
        list[at].address == d.address,
    ensures
        distinct(list.update(at, d)),
        by_address(list.update(at, d), list.len() as int) == by_address(
            list,
            list.len() as int,
        ).insert(d.address, d),
{
    let l = list.update(at, d);
    let n = list.len() as int;
    assert(distinct(l)) by {
        assert forall|i: int, j: int| 0 <= i < j < l.len() implies (#[trigger] l[i]).address != (
        #[trigger] l[j]).address by {
            assert(list[i].address != list[j].address);
        }
    }
    lemma_by_address(list, n);
    lemma_by_address(l, n);
    let x = by_address(l, n);
    let y = by_address(list, n).insert(d.address, d);
    assert forall|a: Seq<char>| #[trigger] x.dom().contains(a) <==> y.dom().contains(a) by {
        if x.dom().contains(a) {
            let i = choose|i: int| 0 <= i < n && (#[trigger] l[i]).address == a;
            assert(list[i].address == a);
        }
        if y.dom().contains(a) {
            if a == d.address {
                assert(l[at].address == a);
            } else {
                let i = choose|i: int| 0 <= i < n && (#[trigger] list[i]).address == a;
                assert(l[i].address == a);
            }
        }
    }
    assert forall|a: Seq<char>| #[trigger] x.dom().contains(a) implies x[a] == y[a] by {
        let i = choose|i: int| 0 <= i < n && (#[trigger] l[i]).address == a;
        assert(x[l[i].address] == l[i]);
        if i != at {
            assert(list[i] == l[i]);
            assert(by_address(list, n)[list[i].address] == list[i]);
            if a == d.address {
                if i < at {
                    assert(list[i].address != list[at].address);
                } else {
                    assert(list[at].address != list[i].address);
                }
            }
        }
    }
    assert(x =~= y);
}

/// The place of the device at `address` in `list`, if it is there.
fn position_of(list: &Vec<BtDevice>, address: &str) -> (r: Option<usize>)
    ensures
        match r {
            Some(i) => i < list@.len() && bt_views(list@)[i as int].address == address@ && forall|
                j: int,
            |
                0 <= j < i ==> (#[trigger] bt_views(list@)[j]).address != address@,
            None => forall|i: int|
                0 <= i < list@.len() ==> (#[trigger] bt_views(list@)[i]).address != address@,
        },
{
    let mut i: usize = 0;
    while i < list.len()
        invariant
            i <= list@.len(),
            forall|j: int| 0 <= j < i ==> (#[trigger] bt_views(list@)[j]).address != address@,
        decreases list@.len() - i,
    {
        if list[i].address.as_str().eq(address) {
            return Some(i);
        }
        i += 1;
    }
    None
}

/// The devices of `list`, each address once: the last one counts.
fn keep_last(list: Vec<BtDevice>) -> (r: Vec<BtDevice>)
    ensures
        distinct(bt_views(r@)),
        by_address(bt_views(r@), r@.len() as int) == by_address(
            bt_views(list@),
            list@.len() as int,
        ),
{
    let ghost all = bt_views(list@);
    let mut r: Vec<BtDevice> = Vec::new();
    let mut i: usize = 0;
    while i < list.len()
        invariant
            i <= list@.len(),
            all == bt_views(list@),
            distinct(bt_views(r@)),
            by_address(bt_views(r@), r@.len() as int) == by_address(all, i as int),
        decreases list@.len() - i,
    {
        let d = list[i].duplicate();
        let ghost dv = d@;
        assert(all[i as int] == dv);
        let ghost before = bt_views(r@);
        match position_of(&r, d.address.as_str()) {
            Some(at) => {
                proof {
                    lemma_replace(before, at as int, dv);
                }
                r.set(at, d);
                assert(bt_views(r@) =~= before.update(at as int, dv));
            },
            None => {
                r.push(d);
                assert(bt_views(r@) =~= before.push(dv));
                proof {
                    lemma_by_address_prefix(before, bt_views(r@), before.len() as int);
                }
            },
        }
        i += 1;
    }
    r
}

impl State {
    /// What holds of the picker between keys.
    pub open spec fn wf(self) -> bool {
        &&& self.query.wf()
        &&& distinct(bt_views(self.bluez@))
        &&& in_order(self@)
    }

    /// A picker without devices.
    pub fn new(show_detail: bool, now: u64) -> (s: State)
        ensures
            s.wf(),
            s@ == (StateView {
                line: Line::empty(),
                bluez: Map::empty(),
                adapter_name: seq![],
                show_detail,
                results: seq![],
                selected: None,
                status: None,
                prompt: None,
                prompt_input: seq![],
                unpair_arm: None,
                unpair_last: now,
                unpair_consumed: false,
            }),
    {
        let s = State {
            query: Query::new(),
            bluez: Vec::new(),
            adapter_name: String::new(),
            show_detail,
            results: Vec::new(),
            selected: None,
            status: None,
            prompt: None,
            prompt_input: String::new(),
            unpair_arm: None,
            unpair_last: now,
            unpair_consumed: false,
        };
        assert(bt_views(s.results@) =~= Seq::<BtDeviceView>::empty());
        assert(s.adapter_name@ =~= Seq::<char>::empty());
        assert(s.prompt_input@ =~= Seq::<char>::empty());
        s
    }

    /// Say `msg` at `now`.
    pub fn set_status(&mut self, msg: String, now: u64)
        requires
            old(self).wf(),
        ensures
            final(self).wf(),
            final(self)@ == saying(old(self)@, msg@, now),
    {
        self.status = Some((msg, now));
    }

    /// Drop the request that waits.
    fn clear_prompt(&mut self)
        requires
            old(self).wf(),
        ensures
            final(self).wf(),
            final(self)@ == unprompted(old(self)@),
    {
        self.prompt = None;
        self.prompt_input = String::new();
        assert(self.prompt_input@ =~= Seq::<char>::empty());
    }

    /// The name of the device at `address`, if the list knows one.
    fn listed_name(&self, address: &str) -> (r: Option<String>)
        ensures
            opt_view(r) == name_in(self@.results, address@, 0),
    {
        let mut i: usize = 0;
        while i < self.results.len()
            invariant
                i <= self.results@.len(),
                name_in(self@.results, address@, 0) == name_in(
                    self@.results,
                    address@,
                    i as int,
                ),
            decreases self.results@.len() - i,
        {
            assert(self@.results[i as int] == self.results@[i as int]@);
            if self.results[i].address.as_str().eq(address) {
                return opt_copy(&self.results[i].name);
            }
            i += 1;
        }
        None
    }

    /// Take in the fact `fact` at `now`.
    pub fn apply(&mut self, fact: Fact, now: u64)
        requires
            old(self).wf(),
        ensures
            final(self).wf(),
            final(self)@ == after_fact(old(self)@, fact@, now),
    {
        match fact {
            Fact::Snapshot(list) => {
                self.bluez = keep_last(list);
            },
            Fact::Adapter { name } => {
                self.adapter_name = name;
            },
            Fact::ActionResult { address, verb, error } => {
                self.clear_prompt();
                let mut msg = match self.listed_name(address.as_str()) {
                    Some(n) => n,
                    None => address,
                };
                msg.append(": ");
                msg.append(verb);
                match error {
                    None => msg.append(" ✓"),
                    Some(e) => {
                        msg.append(" failed — ");
                        msg.append(e.as_str());
                    },
                }
                self.set_status(msg, now);
            },
            Fact::AgentPrompt(p) => {
                if p.kind == PromptKind::Display {
                    self.set_status(p.message, now);
                } else {
                    self.prompt_input = String::new();
                    assert(self.prompt_input@ =~= Seq::<char>::empty());
                    self.prompt = Some(p);
                }
            },
            Fact::Error(e) => {
                self.set_status(e, now);
            },
        }
    }

    /// The rank of each device in the search `q`.
    fn rank_keys(&self, q: &str) -> (keys: Vec<Option<Key>>)
        ensures
            keys@.len() == self.bluez@.len(),
            forall|i: int| #![trigger keys@[i]]
                0 <= i < keys@.len() ==> keyed_for(keys@[i], self.bluez@[i]@, q@),
    {
        let mut m = matcher();
        let browse = q.is_empty();
        let mut keys: Vec<Option<Key>> = Vec::new();
        let mut i: usize = 0;
        while i < self.bluez.len()
            invariant
                i <= self.bluez@.len(),
                browse == (q@.len() == 0),
                keys@.len() == i,
                forall|j: int| #![trigger keys@[j]]
                    0 <= j < i ==> keyed_for(keys@[j], self.bluez@[j]@, q@),
            decreases self.bluez@.len() - i,
        {
            let d = &self.bluez[i];
            let scored = if browse {
                Some(0)
            } else {
                let hay = d.haystack();
                score(&mut m, q, hay.as_str())
            };
            let key = match scored {
                Some(n) => Some(
                    Key {
                        score: n,
                        tier: rank_tier(d),
                        signal: match d.rssi {
                            Some(r) => r,
                            None => i16::MIN,
                        },
                        title: opt_or(&d.name, d.address.as_str()),
                        address: d.address.clone(),
                    },
                ),
                None => None,
            };
            assert(keyed_for(key, self.bluez@[i as int]@, q@));
            keys.push(key);
            i += 1;
        }
        keys
    }

    /// The devices that the search `q` finds, in order.
    fn listing(&self, q: &str) -> (rows: Vec<BtDevice>)
        requires
            self.wf(),
        ensures
            is_listing(bt_views(rows@), self@.bluez, q@),
    {
        let keys = self.rank_keys(q);
        let order = rank(&keys);
        let mut rows: Vec<BtDevice> = Vec::new();
        let mut i: usize = 0;
        while i < order.len()
            invariant
                i <= order@.len(),
                is_ranking(order@, keys@),
                keys@.len() == self.bluez@.len(),
                rows@.len() == i,
                forall|j: int|
                    0 <= j < i ==> (#[trigger] rows@[j])@ == self.bluez@[order@[j] as int]@,
            decreases order@.len() - i,
        {
            let at = order[i];
            rows.push(self.bluez[at].duplicate());
            i += 1;
        }
        let n = keys.len();
        proof {
            self.lemma_listing(q@, keys@, order@, bt_views(rows@));
        }
        rows
    }

    /// The ranking of the devices gives the list.
    proof fn lemma_listing(
        self,
        q: Seq<char>,
        keys: Seq<Option<Key>>,
        order: Seq<usize>,
        list: Seq<BtDeviceView>,
    )
        requires
            distinct(bt_views(self.bluez@)),
            is_ranking(order, keys),
            keys.len() == self.bluez@.len(),
            keys.len() <= usize::MAX,
            list.len() == order.len(),
            forall|j: int|
                0 <= j < list.len() ==> (#[trigger] list[j]) == self.bluez@[order[j] as int]@,
            forall|i: int| #![trigger keys[i]]
                0 <= i < keys.len() ==> keyed_for(keys[i], self.bluez@[i]@, q),
        ensures
            is_listing(list, self@.bluez, q),
    {
        let all = bt_views(self.bluez@);
        let n = all.len() as int;
        let m = by_address(all, n);
        lemma_by_address(all, n);
        assert forall|j: int| #![trigger list[j]] 0 <= j < list.len() implies {
            let a = list[j].address;
            m.dom().contains(a) && list[j] == m[a] && found(q, list[j])
        } by {
            let at = order[j] as int;
            assert(keys[at] is Some);
            assert(all[at] == list[j]);
        }
        assert forall|i: int, j: int| #![trigger list[i], list[j]]
            0 <= i < j < list.len() implies listed_before(q, list[i], list[j]) by {
            let a = order[i] as int;
            let b = order[j] as int;
            assert(goes_before(keys, a, b));
            assert(keys[a] is Some && keys[b] is Some);
            let x = keys[a]->0;
            let y = keys[b]->0;
            assert(a != b) by {
                if a == b {
                    Key::irreflexive(x);
                }
            }
            assert(all[a].address != all[b].address);
            if !x.before(y) {
                lemma_names_total(x.title@, x.address@, y.title@, y.address@);
            }
            assert(x.before(y));
        }
        assert forall|a: Seq<char>| #[trigger] m.dom().contains(a) && found(
            q,
            m[a],
        ) implies exists|i: int| 0 <= i < list.len() && (#[trigger] list[i]).address == a by {
            let at = choose|i: int| 0 <= i < n && (#[trigger] all[i]).address == a;
            assert(m[all[at].address] == all[at]);
            assert(keys[at] is Some);
            assert(order.contains(at as usize));
            let i = choose|i: int| 0 <= i < order.len() && order[i] == at as usize;
            assert(list[i] == all[at]);
        }
    }

    /// The selection in the list: on the device at `keep`, or else on the first
    /// row.
    fn kept_selection(&self, keep: &Option<String>) -> (r: Option<usize>)
        ensures
            is_kept_selection(self@.results, opt_view(*keep), r),
    {
        let kept = match keep {
            Some(a) => position_of(&self.results, a.as_str()),
            None => None,
        };
        match kept {
            Some(i) => Some(i),
            None => {
                if self.results.len() == 0 {
                    None
                } else {
                    Some(0)
                }
            },
        }
    }

    /// The address of the selected device.
    pub fn selected_addr(&self) -> (r: Option<String>)
        ensures
            opt_view(r) == selected_address(self@),
    {
        match self.selected {
            Some(i) => {
                if i < self.results.len() {
                    Some(self.results[i].address.clone())
                } else {
                    None
                }
            },
            None => None,
        }
    }

    /// List the devices that the query finds. The selection stays on the same
    /// device through all that comes and goes.
    pub fn refresh(&mut self)
        requires
            old(self).wf(),
        ensures
            final(self).wf(),
            is_listing(final(self)@.results, old(self)@.bluez, trimmed(old(self)@.line.text())),
            is_kept_selection(
                final(self)@.results,
                selected_address(old(self)@),
                final(self)@.selected,
            ),
            final(self)@ == (StateView {
                results: final(self)@.results,
                selected: final(self)@.selected,
                ..old(self)@
            }),
    {
        let keep = self.selected_addr();
        let q = self.query.trimmed();
        let rows = self.listing(q.as_str());
        let ghost before = self@;
        self.results = rows;
        assert(is_listing(self@.results, before.bluez, q@));
        self.selected = self.kept_selection(&keep);
    }

    /// A copy of the selected device.
    pub fn selected_device(&self) -> (r: Option<BtDevice>)
        ensures
            match r {
                Some(d) => selected_device(self@) == Some(d@),
                None => selected_device(self@) is None,
            },
    {
        match self.selected {
            Some(i) => {
                if i < self.results.len() {
                    Some(self.results[i].duplicate())
                } else {
                    None
                }
            },
            None => None,
        }
    }

    /// Say that something is being done with a device: `before`, its name, and
    /// `after`.
    fn announce(&mut self, before: &str, d: &BtDevice, after: &str, now: u64)
        requires
            old(self).wf(),
        ensures
            final(self).wf(),
            final(self)@ == saying(old(self)@, before@ + title(d@) + after@, now),
    {
        let mut msg = before.to_owned();
        let name = opt_or(&d.name, d.address.as_str());
        msg.append(name.as_str());
        msg.append(after);
        self.set_status(msg, now);
    }

    /// React to a key for the request that waits.
    fn handle_prompt(&mut self, kind: PromptKind, code: KeyCode) -> (step: Step)
        requires
            old(self).wf(),
        ensures
            final(self).wf(),
            (final(self)@, step@) == after_answer(old(self)@, kind, answer(kind, code)),
    {
        match answer_for(kind, code) {
            Answer::Ignore => Step::Continue,
            Answer::Type(c) => {
                self.prompt_input.push(c);
                Step::Continue
            },
            Answer::Erase => {
                let v = chars_of(self.prompt_input.as_str());
                if v.len() > 0 {
                    self.prompt_input = substring(&v, 0, v.len() - 1);
                    assert(self.prompt_input@ == v@.drop_last());
                }
                Step::Continue
            },
            Answer::Accept => {
                let reply = if kind == PromptKind::Confirm {
                    String::new()
                } else {
                    self.prompt_input.clone()
                };
                assert(kind == PromptKind::Confirm ==> reply@ =~= Seq::<char>::empty());
                self.clear_prompt();
                Step::Send(Cmd::AnswerPrompt(Some(reply)))
            },
            Answer::Reject => {
                self.clear_prompt();
                Step::Send(Cmd::AnswerPrompt(None))
            },
        }
    }

    /// React to the command `c` at `now`.
    fn handle_command(&mut self, c: Command, enhanced: bool, now: u64) -> (step: Step)
        requires
            old(self).wf(),
        ensures
            final(self).wf(),
            (final(self)@, step@) == after_command(old(self)@, c, enhanced, now),
    {
        match c {
            Command::Nothing => Step::Continue,
            Command::Quit => Step::Quit,
            Command::Toggle => match self.selected_device() {
                Some(d) => {
                    if d.connected {
                        self.announce("disconnecting ", &d, "…", now);
                        Step::Send(Cmd::Disconnect(d.address))
                    } else {
                        self.announce("connecting ", &d, "…", now);
                        Step::Send(Cmd::Connect(d.address))
                    }
                },
                None => Step::Continue,
            },
            Command::Pair => match self.selected_device() {
                Some(d) => {
                    self.announce("pairing ", &d, "… (it must be in pairing mode)", now);
                    Step::Send(Cmd::Pair(d.address))
                },
                None => Step::Continue,
            },
            Command::Hold => {
                if !self.unpair_consumed {
                    let anew = self.unpair_arm.is_none() || (!enhanced && age_of(
                        now,
                        self.unpair_last,
                    ) > UNPAIR_RELEASE_GAP);
                    if anew {
                        self.unpair_arm = Some(now);
                    }
                }
                self.unpair_last = now;
                Step::Continue
            },
            Command::Trust => match self.selected_device() {
                Some(d) => {
                    if d.trusted {
                        self.announce("untrusting ", &d, "…", now);
                    } else {
                        self.announce("trusting ", &d, "…", now);
                    }
                    Step::Send(Cmd::SetTrusted(d.address, !d.trusted))
                },
                None => Step::Continue,
            },
            Command::Block => match self.selected_device() {
                Some(d) => {
                    if d.blocked {
                        self.announce("unblocking ", &d, "…", now);
                    } else {
                        self.announce("blocking ", &d, "…", now);
                    }
                    Step::Send(Cmd::SetBlocked(d.address, !d.blocked))
                },
                None => Step::Continue,
            },
            Command::Detail => {
                self.show_detail = !self.show_detail;
                Step::Continue
            },
            Command::Select(delta) => {
                self.selected = move_selection(self.selected, self.results.len(), delta);
                Step::Continue
            },
            Command::Edit(e) => {
                let _ = self.query.apply(e);
                Step::Continue
            },
        }
    }

    /// React to a key at `now`. `enhanced` says whether the terminal reports
    /// releases.
    pub fn handle_key(&mut self, key: KeyEvent, enhanced: bool, now: u64) -> (step: Step)
        requires
            old(self).wf(),
        ensures
            final(self).wf(),
            (final(self)@, step@) == after_key(old(self)@, key, enhanced, now),
    {
        if key.kind == KeyEventKind::Release {
            if key.code == KeyCode::Char('u') {
                self.unpair_arm = None;
                self.unpair_consumed = false;
            }
            return Step::Continue;
        }
        let waiting = match &self.prompt {
            Some(p) => Some(p.kind),
            None => None,
        };
        if let Some(kind) = waiting {
            return self.handle_prompt(kind, key.code);
        }
        let empty = self.query.is_empty();
        self.handle_command(command_for(key, empty), enhanced, now)
    }

    /// Let time pass until `now`; returns what goes to the engine.
    pub fn tick(&mut self, enhanced: bool, now: u64) -> (r: Option<Cmd>)
        requires
            old(self).wf(),
        ensures
            final(self).wf(),
            final(self)@ == after_tick(old(self)@, enhanced, now).0,
            match r {
                Some(cmd) => after_tick(old(self)@, enhanced, now).1 == Some(cmd@),
                None => after_tick(old(self)@, enhanced, now).1 is None,
            },
    {
        if !enhanced && age_of(now, self.unpair_last) > UNPAIR_RELEASE_GAP {
            self.unpair_arm = None;
            self.unpair_consumed = false;
        }
        if let Some(start) = self.unpair_arm {
            if age_of(now, start) >= UNPAIR_HOLD {
                self.unpair_arm = None;
                self.unpair_consumed = true;
                return match self.selected_device() {
                    Some(d) => {
                        self.announce("forgetting ", &d, "…", now);
                        Some(Cmd::Unpair(d.address))
                    },
                    None => None,
                };
            }
        }
        None
    }

    /// The idle help line.
    fn toolbar(&self) -> (s: String)
        ensures
            s@ == help_line(self@),
    {
        let mut s = " ".to_owned();
        let n = decimal_of(self.results.len() as u64);
        s.append(n.as_str());
        s.append(" · ");
        if self.adapter_name.as_str().is_empty() {
            s.append("—");
        } else {
            s.append(self.adapter_name.as_str());
        }
        s.append(
            " · Enter (dis)connect · M-p pair · hold M-u forget · ^T trust · M-b block · ^V detail · Esc",
        );
        s
    }

    /// The status line at `now`, where the meter of a hold has `filled` cells
    /// full.
    pub fn status_line(&self, now: u64, filled: usize) -> (line: Vec<Segment>)
        ensures
            segment_views(line@) == status_segments(self@, now, filled as nat),
    {
        if let Some(p) = &self.prompt {
            let mut line = one_segment(" ".to_owned(), Tone::Warn);
            if p.kind == PromptKind::Passkey || p.kind == PromptKind::Pin {
                let mut msg = p.message.clone();
                msg.append(" ");
                push_segment(&mut line, msg, Tone::Warn, false);
                push_segment(&mut line, self.prompt_input.clone(), Tone::Warn, true);
                push_segment(&mut line, "▏".to_owned(), Tone::Warn, false);
            } else {
                let mut msg = match self.listed_name(p.address.as_str()) {
                    Some(n) => {
                        let mut m = n;
                        m.append(": ");
                        m
                    },
                    None => String::new(),
                };
                assert(name_in(self@.results, p.address@, 0) is None ==> msg@ =~= Seq::<
                    char,
                >::empty());
                msg.append(p.message.as_str());
                push_segment(&mut line, msg, Tone::Warn, false);
            }
            assert(segment_views(line@) =~= status_segments(self@, now, filled as nat));
            return line;
        }
        if self.unpair_arm.is_some() {
            let name = match self.selected_device() {
                Some(d) => opt_or(&d.name, "device"),
                None => "device".to_owned(),
            };
            let mut text = " hold M-u to forget ".to_owned();
            text.append(name.as_str());
            text.append("  ");
            let cells = meter(filled);
            text.append(cells.as_str());
            return one_segment(text, Tone::Warn);
        }
        if let Some(s) = &self.status {
            if age_of(now, s.1) < STATUS_SECS * SECOND {
                let mut text = " ".to_owned();
                text.append(s.0.as_str());
                return one_segment(text, Tone::Warn);
            }
        }
        one_segment(self.toolbar(), Tone::Dim)
    }

    /// How long Alt-U has been held at `now`, in nanoseconds.
    pub fn held_for(&self, now: u64) -> (r: Option<u64>)
        ensures
            r == match self@.unpair_arm {
                Some(start) => Some(age(now, start) as u64),
                None => None,
            },
    {
        match self.unpair_arm {
            Some(start) => Some(age_of(now, start)),
            None => None,
        }
    }

    /// The rows of the list.
    pub fn list_rows(&self) -> (rows: Vec<ListRow>)
        requires
            self.wf(),
        ensures
            rows@.len() == self@.results.len(),
            forall|i: int|
                0 <= i < rows@.len() ==> (#[trigger] rows@[i])@ == list_row(
                    self@.results[i],
                    trimmed(self@.line.text()),
                ),
    {
        let q = self.query.trimmed();
        let mut m = matcher();
        let mut rows: Vec<ListRow> = Vec::new();
        let mut i: usize = 0;
        while i < self.results.len()
            invariant
                i <= self.results@.len(),
                q@ == trimmed(self@.line.text()),
                rows@.len() == i,
                forall|j: int|
                    0 <= j < i ==> (#[trigger] rows@[j])@ == list_row(self@.results[j], q@),
            decreases self.results@.len() - i,
        {
            let d = &self.results[i];
            let name = opt_or(&d.name, "(unknown)");
            let icon = opt_or(&d.icon, "-");
            let row = ListRow {
                name: highlight_cell(name.as_str(), q.as_str(), &mut m),
                icon: highlight_cell(icon.as_str(), q.as_str(), &mut m),
                signal: signal_cell(d.rssi),
                battery: battery_cell(d.battery, "·"),
                state: state_cell(d),
                address: highlight_cell(d.address.as_str(), q.as_str(), &mut m),
                faint: rank_tier(d) == 3,
            };
            assert(self@.results[i as int] == d@);
            rows.push(row);
            i += 1;
        }
        rows
    }

    /// The lines of the detail strip; none where nothing is selected.
    pub fn detail(&self) -> (r: Option<Vec<Vec<Piece>>>)
        ensures
            match r {
                Some(lines) => selected_device(self@) is Some && line_views(lines@)
                    == detail_lines(selected_device(self@)->0),
                None => selected_device(self@) is None,
            },
    {
        let d = match self.selected_device() {
            Some(d) => d,
            None => return None,
        };
        let mut l1: Vec<Piece> = Vec::new();
        let name = opt_or(&d.name, "(unknown)");
        push_pair(&mut l1, "name ", sanitize_display(name.as_str()));
        push_pair(&mut l1, "   addr ", d.address.clone());
        let icon = opt_or(&d.icon, "-");
        push_pair(&mut l1, "   type ", sanitize_display(icon.as_str()));

        let mut l2: Vec<Piece> = Vec::new();
        push_pair(&mut l2, "paired ", sanitize_display(yes_or_no(d.paired)));
        push_pair(&mut l2, "   connected ", yes_or_no(d.connected).to_owned());
        push_pair(&mut l2, "   trusted ", yes_or_no(d.trusted).to_owned());
        push_pair(&mut l2, "   blocked ", yes_or_no(d.blocked).to_owned());

        let mut l3: Vec<Piece> = Vec::new();
        let rssi = match d.rssi {
            Some(r) => {
                let mut s = signed_decimal_of(r as i64);
                s.append(" dBm");
                s
            },
            None => "—".to_owned(),
        };
        push_pair(&mut l3, "rssi ", sanitize_display(rssi.as_str()));
        push_pair(&mut l3, "   battery ", battery_cell(d.battery, "—"));

        let ghost wanted = detail_lines(d@);
        assert(piece_views(l1@) =~= wanted[0]);
        assert(piece_views(l2@) =~= wanted[1]);
        assert(piece_views(l3@) =~= wanted[2]);
        let mut lines: Vec<Vec<Piece>> = Vec::new();
        lines.push(l1);
        lines.push(l2);
        lines.push(l3);
        assert(line_views(lines@) =~= wanted);
        Some(lines)
    }
}

/// Whether `key` is the rank of `d` in the search `q`.
pub open spec fn keyed_for(key: Option<Key>, d: BtDeviceView, q: Seq<char>) -> bool {
    &&& key is Some <==> found(q, d)
    &&& key is Some ==> {
        let k = key->0;
        &&& k.tier == tier(d)
        &&& k.signal == signal(d)
        &&& k.title@ == title(d)
        &&& k.address@ == d.address
        &&& q.len() == 0 ==> k.score == 0
        &&& q.len() > 0 ==> score_of(q, bt_search_text(d)) == Some(k.score)
    }
}

/// The band of a device.
fn rank_tier(d: &BtDevice) -> (t: u8)
    ensures
        t == tier(d@),
{
    if d.connected {
        0
    } else if d.paired {
        1
    } else if d.name.is_some() || d.icon.is_some() {
        2
    } else {
        3
    }
}

/// A meter of five cells, `filled` of them full.
pub fn meter(filled: usize) -> (s: String)
    ensures
        s@ == meter_cells(filled as nat),
{
    let mut s = String::new();
    let mut i: usize = 0;
    while i < 5
        invariant
            i <= 5,
            s@ == meter_cells(filled as nat).take(i as int),
        decreases 5 - i,
    {
        if i < filled {
            s.push('▰');
        } else {
            s.push('▱');
        }
        i += 1;
        assert(s@ == meter_cells(filled as nat).take(i as int));
    }
    assert(meter_cells(filled as nat).take(5) == meter_cells(filled as nat));
    s
}

/// The state of a device in the list: its link, with a tick where it is trusted.
pub fn state_cell(d: &BtDevice) -> (s: String)
    ensures
        s@ == state_text(d@),
{
    if d.blocked {
        return "blocked".to_owned();
    }
    let mut s = if d.connected {
        "conn".to_owned()
    } else if d.paired {
        "paired".to_owned()
    } else {
        "·".to_owned()
    };
    if d.trusted {
        s.append(" ✓");
    } else {
        assert(s@ + Seq::<char>::empty() == s@);
    }
    s
}

/// A signal gauge of four cells; a dot where the device is not heard.
pub fn signal_cell(rssi: Option<i16>) -> (s: String)
    ensures
        s@ == signal_text(rssi),
{
    let r = match rssi {
        Some(r) => r,
        None => return "·".to_owned(),
    };
    let n: usize = if r >= -50 {
        4
    } else if r >= -65 {
        3
    } else if r >= -78 {
        2
    } else if r >= -90 {
        1
    } else {
        0
    };
    let mut s = String::new();
    s.push(if n > 0 { '▁' } else { ' ' });
    s.push(if n > 1 { '▃' } else { ' ' });
    s.push(if n > 2 { '▅' } else { ' ' });
    s.push(if n > 3 { '▇' } else { ' ' });
    assert(s@ =~= signal_text(rssi));
    s
}

/// The battery level, or `other` where it is not known.
fn battery_cell(battery: Option<u8>, other: &str) -> (s: String)
    ensures
        s@ == battery_text(battery, other@),
{
    match battery {
        Some(b) => {
            let mut s = decimal_of(b as u64);
            s.append("%");
            s
        },
        None => other.to_owned(),
    }
}

/// Yes or no.
fn yes_or_no(b: bool) -> (s: &'static str)
    ensures
        s@ == yes_no(b),
{
    if b {
        "yes"
    } else {
        "no"
    }
}

// ---- laws ------------------------------------------------------------------------

/// Every step keeps the picker in order.
pub proof fn steps_keep_order(
    s: StateView,
    key: KeyEvent,
    fact: FactView,
    enhanced: bool,
    now: u64,
)
    requires
        in_order(s),
    ensures
        in_order(after_key(s, key, enhanced, now).0),
        in_order(after_tick(s, enhanced, now).0),
        in_order(after_fact(s, fact, now)),
{
}

/// A tap does nothing: a device is only forgotten where Alt-U has been held for
/// the whole of the hold time, as far as releases are reported or gaps betray
/// them; and no key forgets one by itself.
pub proof fn a_tap_forgets_nothing(s: StateView, key: KeyEvent, enhanced: bool, now: u64)
    ensures
        after_tick(s, enhanced, now).1 is Some ==> s.unpair_arm is Some && age(
            now,
            s.unpair_arm->0,
        ) >= UNPAIR_HOLD && (enhanced || age(now, s.unpair_last) <= UNPAIR_RELEASE_GAP),
        after_key(s, key, enhanced, now).1 matches StepView::Send(cmd) ==> !(cmd is Unpair),
        key.kind == KeyEventKind::Release && key.code == KeyCode::Char('u') ==> after_tick(
            after_key(s, key, enhanced, now).0,
            enhanced,
            now,
        ).1 is None,
{
}

/// Once a device has been forgotten, holding on forgets no other: until the key
/// is released, nothing arms the gesture again.
pub proof fn one_hold_forgets_one_device(
    s: StateView,
    key: KeyEvent,
    enhanced: bool,
    now: u64,
    later: u64,
)
    requires
        s.unpair_consumed,
        s.unpair_arm is None,
        !(key.kind == KeyEventKind::Release && key.code == KeyCode::Char('u')),
    ensures
        ({
            let t = after_key(s, key, enhanced, now).0;
            &&& t.unpair_consumed
            &&& t.unpair_arm is None
            &&& after_tick(t, enhanced, later).1 is None
            &&& enhanced ==> after_tick(t, enhanced, later).0.unpair_consumed
        }),
{
}

/// A hold that fires is spent: the gesture has to be released and made again.
pub proof fn firing_latches(s: StateView, enhanced: bool, now: u64)
    requires
        after_tick(s, enhanced, now).1 is Some,
    ensures
        after_tick(s, enhanced, now).0.unpair_consumed,
        after_tick(s, enhanced, now).0.unpair_arm is None,
        after_tick(s, enhanced, now).1 == Some(CmdView::Unpair(selected_device(s)->0.address)),
{
}

/// Escape always rejects a request that waits, so the user is never stuck in
/// it; and while it waits, no key edits the query, moves the selection or acts
/// on a device.
pub proof fn escape_rejects_the_request(s: StateView, key: KeyEvent, enhanced: bool, now: u64)
    requires
        in_order(s),
        s.prompt is Some,
        key.kind != KeyEventKind::Release,
    ensures
        key.code == KeyCode::Esc ==> after_key(s, key, enhanced, now) == (
            unprompted(s),
            StepView::Send(CmdView::AnswerPrompt(None)),
        ),
        ({
            let t = after_key(s, key, enhanced, now).0;
            &&& t.line == s.line
            &&& t.selected == s.selected
            &&& t.unpair_arm == s.unpair_arm
        }),
        after_key(s, key, enhanced, now).1 matches StepView::Send(cmd) ==> cmd is AnswerPrompt,
        !(after_key(s, key, enhanced, now).1 is Quit),
{
}

/// A passkey that is typed holds digits only.
pub proof fn passkeys_hold_digits(s: StateView, code: KeyCode)
    requires
        forall|i: int| 0 <= i < s.prompt_input.len() ==> '0' <= #[trigger] s.prompt_input[i] <= '9',
    ensures
        ({
            let t = after_answer(s, PromptKind::Passkey, answer(PromptKind::Passkey, code)).0;
            forall|i: int|
                0 <= i < t.prompt_input.len() ==> '0' <= #[trigger] t.prompt_input[i] <= '9'
        }),
{
}

/// A device in use always stands before one that is not, where nothing is
/// searched.
pub proof fn devices_in_use_come_first(a: BtDeviceView, b: BtDeviceView)
    requires
        a.connected,
        !b.connected,
    ensures
        listed_before(seq![], a, b),
        !listed_before(seq![], b, a),
{
}

/// A snapshot replaces everything that was known before.
pub proof fn snapshots_replace(s: StateView, list: Seq<BtDeviceView>, now: u64, a: Seq<char>)
    ensures
        after_fact(s, FactView::Snapshot(list), now).bluez.dom().contains(a) <==> exists|i: int|
            0 <= i < list.len() && (#[trigger] list[i]).address == a,
{
    lemma_by_address(list, list.len() as int);
}

} // verus!
