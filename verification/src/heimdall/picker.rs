//! The live picker over the devices of the local network. Facts stream in and
//! are merged by address; a device that is not seen again dims, and drops out
//! after a while. The view is of who is there now.
//!
//! Times are nanoseconds since some moment in the past.

use std::collections::BTreeMap;
use vstd::prelude::*;
use crate::base::fuzzy::{matcher, score, score_of};
use crate::base::sanitize::{sanitize_display, shown};
use crate::heimdall::cache::{
    cached_views, revived, row_for, save, stored_views, Cached, CachedView, Stored, StoredView,
};
use crate::heimdall::device::{informed, search_text, vendor_text, Device, DeviceView, Seen};
use crate::heimdall::discover::known;
use crate::net::{dotted, Ipv4Addr};
use crate::number::{decimal, decimal_of};
use crate::ranking::{goes_before, is_ranking, rank, Rank};
use crate::table::{
    are_entries, bound, collected, collected_below, entries, lemma_collect_end, lemma_collect_row,
    lemma_entries, lemma_entry, lemma_keys_grow, lemma_next_row, lemma_row, row_of, rows_of,
};
use crate::text::{join, joined, opt_or, text_or, trimmed, views};
use crate::ui::clock::{age, age_of, SECOND};
use crate::ui::editing::Line;
use crate::ui::highlight::{Run, RunView};
use crate::ui::keys::{KeyCode, KeyEvent, KeyEventKind};
use crate::ui::picker::{
    cell_runs, cell_views, highlight_cell, label, line_views, move_selection, moved_selection,
    piece_views, push_pair, value, Piece, PieceView, Tone,
};
use crate::ui::query::{
    control_edit, control_edit_for, control_move, control_move_for, edited, named_edit,
    named_edit_for, named_move, named_move_for, Edit, Query,
};

verus! {

/// A device is quiet once it has not been seen for more seconds than this.
pub const WARN_SECS: u64 = 25;

/// A device drops out once it has not been seen for this many seconds.
pub const DROP_SECS: u64 = 120;

/// How many seconds a message stays.
pub const STATUS_SECS: u64 = 4;

/// The cache is written again after more seconds than this.
pub const FLUSH_SECS: u64 = 15;

/// A device and when it was last seen.
pub struct Entry {
    pub device: Device,
    pub last_seen: u64,
}

/// What an [`Entry`] holds.
pub ghost struct EntryView {
    pub device: DeviceView,
    pub last_seen: u64,
}

impl View for Entry {
    type V = EntryView;

    open spec fn view(&self) -> EntryView {
        EntryView { device: self.device@, last_seen: self.last_seen }
    }
}

/// The views of the values of `m`.
pub open spec fn entry_map(m: Map<u32, Entry>) -> Map<u32, EntryView> {
    Map::new(|k: u32| m.dom().contains(k), |k: u32| m[k]@)
}

/// The views of the entries of `v`.
pub open spec fn entry_views(v: Seq<Entry>) -> Seq<EntryView> {
    Seq::new(v.len(), |i: int| v[i]@)
}

/// The state of the picker.
pub struct State {
    pub query: Query,
    /// All devices, by address.
    pub devices: BTreeMap<u32, Entry>,
    /// The devices that the list shows, best match first.
    pub results: Vec<Entry>,
    pub selected: Option<usize>,
    /// The networks that are swept, for display.
    pub cidrs: String,
    /// A message and when it was set.
    pub status: Option<(String, u64)>,
    /// When the cache was last written.
    pub last_flush: u64,
}

/// What a [`State`] holds.
#[verifier::ext_equal]
pub ghost struct StateView {
    pub line: Line,
    pub devices: Map<u32, EntryView>,
    pub results: Seq<EntryView>,
    pub selected: Option<usize>,
    pub cidrs: Seq<char>,
    pub status: Option<(Seq<char>, u64)>,
    pub last_flush: u64,
}

impl View for State {
    type V = StateView;

    open spec fn view(&self) -> StateView {
        StateView {
            line: self.query@,
            devices: entry_map(self.devices@),
            results: entry_views(self.results@),
            selected: self.selected,
            cidrs: self.cidrs@,
            status: match self.status {
                Some(s) => Some((s.0@, s.1)),
                None => None,
            },
            last_flush: self.last_flush,
        }
    }
}

/// What the program does for the picker after a key.
pub enum Step {
    Continue,
    Quit,
    /// Open this address in a browser.
    OpenUrl(String),
    /// Leave the screen to an ssh session with this device.
    Ssh(Ipv4Addr),
    /// Copy the address of this device, and say so by [`State::copied`].
    Copy(Ipv4Addr),
    /// Scan the ports of this device.
    ScanPorts(Ipv4Addr),
}

/// What a [`Step`] asks for.
pub ghost enum StepView {
    Continue,
    Quit,
    OpenUrl(Seq<char>),
    Ssh(u32),
    Copy(u32),
    ScanPorts(u32),
}

impl View for Step {
    type V = StepView;

    open spec fn view(&self) -> StepView {
        match self {
            Step::Continue => StepView::Continue,
            Step::Quit => StepView::Quit,
            Step::OpenUrl(url) => StepView::OpenUrl(url@),
            Step::Ssh(ip) => StepView::Ssh(ip.bits),
            Step::Copy(ip) => StepView::Copy(ip.bits),
            Step::ScanPorts(ip) => StepView::ScanPorts(ip.bits),
        }
    }
}

/// What a key means.
#[derive(Clone, Copy, Debug, PartialEq, Eq, Structural)]
pub enum Command {
    Nothing,
    Quit,
    Open,
    Ssh,
    Copy,
    ScanPorts,
    Select(isize),
    Edit(Edit),
}

/// What Ctrl with the letter `c` means.
pub open spec fn control_command(c: char, empty: bool) -> Command {
    if c == 'c' || c == 'g' || (c == 'd' && empty) {
        Command::Quit
    } else if c == 's' {
        Command::Ssh
    } else if c == 'y' {
        Command::Copy
    } else if control_move(c) is Some {
        Command::Select(control_move(c)->0 as isize)
    } else if control_edit(c) is Some {
        Command::Edit(control_edit(c)->0)
    } else {
        Command::Nothing
    }
}

/// What a key means, where the query may be empty. Only a key that goes down counts.
pub open spec fn command(key: KeyEvent, empty: bool) -> Command {
    if key.kind != KeyEventKind::Press {
        Command::Nothing
    } else {
        match key.code {
            KeyCode::Esc => Command::Quit,
            KeyCode::Enter => Command::Open,
            KeyCode::Tab => Command::ScanPorts,
            KeyCode::Char(c) => if key.ctrl {
                control_command(c, empty)
            } else {
                Command::Edit(Edit::Insert(c))
            },
            code => if named_move(code) is Some {
                Command::Select(named_move(code)->0 as isize)
            } else if named_edit(code) is Some {
                Command::Edit(named_edit(code)->0)
            } else {
                Command::Nothing
            },
        }
    }
}

/// What a key means, where the query may be empty.
pub fn command_for(key: KeyEvent, empty: bool) -> (r: Command)
    ensures
        r == command(key, empty),
{
    if key.kind != KeyEventKind::Press {
        return Command::Nothing;
    }
    match key.code {
        KeyCode::Esc => Command::Quit,
        KeyCode::Enter => Command::Open,
        KeyCode::Tab => Command::ScanPorts,
        KeyCode::Char(c) => {
            if !key.ctrl {
                return Command::Edit(Edit::Insert(c));
            }
            match c {
                'c' | 'g' => return Command::Quit,
                'd' => {
                    if empty {
                        return Command::Quit;
                    }
                },
                's' => return Command::Ssh,
                'y' => return Command::Copy,
                _ => {},
            }
            if let Some(d) = control_move_for(c) {
                return Command::Select(d);
            }
            match control_edit_for(c) {
                Some(e) => Command::Edit(e),
                None => Command::Nothing,
            }
        },
        code => {
            if let Some(d) = named_move_for(code) {
                return Command::Select(d);
            }
            match named_edit_for(code) {
                Some(e) => Command::Edit(e),
                None => Command::Nothing,
            }
        },
    }
}

// ---- what is shown ---------------------------------------------------------------

/// Whether the search `q` finds `d`; an empty one finds everything.
pub open spec fn found(q: Seq<char>, d: DeviceView) -> bool {
    q.len() == 0 || score_of(q, search_text(d)) is Some
}

/// Whether `a` stands before `b` in the list: by score where there is a search,
/// and then by address.
pub open spec fn listed_before(q: Seq<char>, a: DeviceView, b: DeviceView) -> bool {
    if q.len() == 0 {
        a.ip < b.ip
    } else {
        let x = score_of(q, search_text(a))->0;
        let y = score_of(q, search_text(b))->0;
        x > y || (x == y && a.ip < b.ip)
    }
}

/// Whether `results` lists the devices that the search `q` finds, each once, in
/// order.
pub open spec fn is_listing(
    results: Seq<EntryView>,
    devices: Map<u32, EntryView>,
    q: Seq<char>,
) -> bool {
    &&& forall|i: int| #![trigger results[i]]
        0 <= i < results.len() ==> {
            let ip = results[i].device.ip;
            devices.dom().contains(ip) && results[i] == devices[ip] && found(q, results[i].device)
        }
    &&& forall|i: int, j: int| #![trigger results[i], results[j]]
        0 <= i < j < results.len() ==> listed_before(q, results[i].device, results[j].device)
    &&& forall|ip: u32| #[trigger]
        devices.dom().contains(ip) && found(q, devices[ip].device) ==> exists|i: int|
            0 <= i < results.len() && (#[trigger] results[i]).device.ip == ip
}

/// The address of the selected device.
pub open spec fn selected_address(results: Seq<EntryView>, selected: Option<usize>) -> Option<u32> {
    match selected {
        Some(i) => if i < results.len() {
            Some(results[i as int].device.ip)
        } else {
            None
        },
        None => None,
    }
}

/// The selection in a new list: on the device that was selected, or else on the
/// first row.
pub open spec fn is_kept_selection(
    results: Seq<EntryView>,
    keep: Option<u32>,
    selected: Option<usize>,
) -> bool {
    if keep is Some && exists|i: int|
        0 <= i < results.len() && (#[trigger] results[i]).device.ip == keep->0 {
        selected is Some && selected->0 < results.len() && results[selected->0 as int].device.ip
            == keep->0
    } else if results.len() == 0 {
        selected is None
    } else {
        selected == Some(0usize)
    }
}

/// How devices rank: by score, then by address.
pub struct Key {
    pub score: u32,
    pub ip: u32,
}

impl Rank for Key {
    open spec fn before(self, other: Self) -> bool {
        self.score > other.score || (self.score == other.score && self.ip < other.ip)
    }

    proof fn irreflexive(a: Self) {
    }

    proof fn transitive(a: Self, b: Self, c: Self) {
    }

    proof fn negatively_transitive(a: Self, b: Self, c: Self) {
    }

    fn ranks_before(&self, other: &Self) -> (r: bool) {
        self.score > other.score || (self.score == other.score && self.ip < other.ip)
    }
}

/// When devices from the cache count as last seen: long enough ago to be quiet.
pub open spec fn seed_time(now: u64) -> u64 {
    if now >= (WARN_SECS + 5) * SECOND {
        (now - (WARN_SECS + 5) * SECOND) as u64
    } else {
        now
    }
}

/// `devices` with the first `n` of the devices from the cache.
pub open spec fn seeded(
    devices: Map<u32, EntryView>,
    cached: Seq<CachedView>,
    n: int,
    seen: u64,
) -> Map<u32, EntryView>
    decreases n,
{
    if n <= 0 {
        devices
    } else {
        seeded(devices, cached, n - 1, seen).insert(
            cached[n - 1].ip,
            EntryView { device: revived(cached[n - 1]), last_seen: seen },
        )
    }
}

/// The devices alone.
pub open spec fn devices_alone(m: Map<u32, EntryView>) -> Map<u32, DeviceView> {
    Map::new(|k: u32| m.dom().contains(k), |k: u32| m[k].device)
}

/// The row that the cache gets for an entry, where it has a hardware address.
pub open spec fn stored_row() -> spec_fn(EntryView) -> Option<StoredView> {
    |e: EntryView| row_for(e.device)
}

/// `s` after the key command `c` at `now`, and what the program does for it.
pub open spec fn after_command(s: StateView, c: Command, now: u64) -> (StateView, StepView) {
    let ip = selected_address(s.results, s.selected);
    match c {
        Command::Nothing => (s, StepView::Continue),
        Command::Quit => (s, StepView::Quit),
        Command::Open => match ip {
            Some(ip) => (
                StateView { status: Some(("opening http://"@ + dotted(ip), now)), ..s },
                StepView::OpenUrl("http://"@ + dotted(ip)),
            ),
            None => (s, StepView::Continue),
        },
        Command::Ssh => match ip {
            Some(ip) => (s, StepView::Ssh(ip)),
            None => (s, StepView::Continue),
        },
        Command::Copy => match ip {
            Some(ip) => (s, StepView::Copy(ip)),
            None => (s, StepView::Continue),
        },
        Command::ScanPorts => match ip {
            Some(ip) => (
                StateView { status: Some(("scanning ports on "@ + dotted(ip) + "…"@, now)), ..s },
                StepView::ScanPorts(ip),
            ),
            None => (s, StepView::Continue),
        },
        Command::Select(delta) => (
            StateView {
                selected: moved_selection(s.selected, s.results.len(), delta as int),
                ..s
            },
            StepView::Continue,
        ),
        Command::Edit(e) => (StateView { line: edited(s.line, e), ..s }, StepView::Continue),
    }
}

/// The status line at `now`: a recent message, or else the summary and keys.
pub open spec fn status_text(s: StateView, now: u64) -> (Seq<char>, Tone) {
    if s.status is Some && age(now, (s.status->0).1) < STATUS_SECS * SECOND {
        (" "@ + (s.status->0).0, Tone::Warn)
    } else {
        (
            " "@ + decimal(s.results.len()) + " online · "@ + s.cidrs
                + " · Enter open · ^S ssh · ^Y copy · Tab port-scan · Esc"@,
            Tone::Dim,
        )
    }
}

/// A row of the list: its cells, and whether the device is quiet.
pub struct ListRow {
    pub cells: Vec<Vec<Run>>,
    pub quiet: bool,
}

/// What a [`ListRow`] shows.
pub ghost struct ListRowView {
    pub cells: Seq<Seq<RunView>>,
    pub quiet: bool,
}

impl View for ListRow {
    type V = ListRowView;

    open spec fn view(&self) -> ListRowView {
        ListRowView { cells: cell_views(self.cells@), quiet: self.quiet }
    }
}

/// The row of the list for `e` at `now`, with the search `q` marked.
pub open spec fn list_row(e: EntryView, q: Seq<char>, now: u64) -> ListRowView {
    ListRowView {
        cells: seq![
            cell_runs(dotted(e.device.ip), q),
            cell_runs(text_or(e.device.mac, "-"@), q),
            cell_runs(vendor_text(e.device), q),
            cell_runs(text_or(e.device.hostname, "-"@), q),
            cell_runs(joined(e.device.services, ", "@), q),
        ],
        quiet: age(now, e.last_seen) / SECOND as int > WARN_SECS,
    }
}

/// The ports `ports`, each behind a colon.
pub open spec fn port_names(ports: Seq<u16>) -> Seq<Seq<char>> {
    Seq::new(ports.len(), |i: int| ":"@ + decimal(ports[i] as nat))
}

/// The lines of the detail strip for `e` at `now`.
pub open spec fn detail_lines(e: EntryView, now: u64) -> Seq<Seq<PieceView>> {
    let d = e.device;
    seq![
        seq![
            label("ip "@),
            value(shown(dotted(d.ip))),
            label("   mac "@),
            value(text_or(d.mac, "—"@)),
            label("   vendor "@),
            value(shown(text_or(d.vendor, "?"@))),
        ],
        seq![
            label("host "@),
            value(shown(text_or(d.hostname, "—"@))),
            label("   services "@),
            value(
                shown(
                    if d.services.len() == 0 {
                        "—"@
                    } else {
                        joined(d.services, ", "@)
                    },
                ),
            ),
        ],
        seq![
            label("ports "@),
            value(
                shown(
                    if d.open_ports.len() == 0 {
                        "—"@
                    } else {
                        joined(port_names(d.open_ports), " "@)
                    },
                ),
            ),
            label("   seen "@),
            value(decimal((age(now, e.last_seen) / SECOND as int) as nat) + "s ago"@),
        ],
    ]
}

impl Entry {
    /// A copy of the entry.
    pub fn duplicate(&self) -> (e: Entry)
        ensures
            e@ == self@,
    {
        Entry { device: self.device.duplicate(), last_seen: self.last_seen }
    }
}

impl State {
    /// The query line is in order, and each device stands under its own address.
    pub open spec fn wf(self) -> bool {
        &&& self.query.wf()
        &&& forall|ip: u32| #[trigger]
            self.devices@.dom().contains(ip) ==> self.devices@[ip].device.ip.bits == ip
    }

    /// A picker without devices.
    pub fn new(cidrs: String, now: u64) -> (s: State)
        ensures
            s.wf(),
            s@ == (StateView {
                line: Line::empty(),
                devices: Map::empty(),
                results: seq![],
                selected: None,
                cidrs: cidrs@,
                status: None,
                last_flush: now,
            }),
    {
        let s = State {
            query: Query::new(),
            devices: BTreeMap::new(),
            results: Vec::new(),
            selected: None,
            cidrs,
            status: None,
            last_flush: now,
        };
        assert(entry_map(s.devices@) =~= Map::<u32, EntryView>::empty());
        assert(entry_views(s.results@) =~= Seq::<EntryView>::empty());
        s
    }

    /// Put `entry` under its address.
    fn put(&mut self, entry: Entry)
        requires
            old(self).wf(),
        ensures
            final(self).wf(),
            final(self)@ == (StateView {
                devices: old(self)@.devices.insert(entry@.device.ip, entry@),
                ..old(self)@
            }),
    {
        let ghost before = self.devices@;
        let ghost ev = entry@;
        let ip: u32 = entry.device.ip.bits;
        self.devices.insert(ip, entry);
        assert(entry_map(self.devices@) =~= entry_map(before).insert(ip, ev));
    }

    /// Show the devices from the cache, as not seen for a while: they dim until
    /// they are seen again, or drop out.
    pub fn seed(&mut self, cached: &Vec<Cached>, now: u64)
        requires
            old(self).wf(),
        ensures
            final(self).wf(),
            final(self)@ == (StateView {
                devices: seeded(
                    old(self)@.devices,
                    cached_views(cached@),
                    cached@.len() as int,
                    seed_time(now),
                ),
                ..old(self)@
            }),
    {
        let gap: u64 = (WARN_SECS + 5) * SECOND;
        let seen: u64 = if now >= gap {
            now - gap
        } else {
            now
        };
        let ghost start = self@;
        let ghost all = cached_views(cached@);
        let mut i: usize = 0;
        while i < cached.len()
            invariant
                i <= cached@.len(),
                self.wf(),
                all == cached_views(cached@),
                seen == seed_time(now),
                self@ == (StateView {
                    devices: seeded(start.devices, all, i as int, seen),
                    ..start
                }),
            decreases cached@.len() - i,
        {
            assert(all[i as int] == cached@[i as int]@);
            self.put(Entry { device: cached[i].revive(), last_seen: seen });
            i += 1;
        }
    }

    /// Take in the fact `seen` at `now`.
    pub fn merge(&mut self, seen: Seen, now: u64)
        requires
            old(self).wf(),
        ensures
            final(self).wf(),
            final(self)@ == (StateView {
                devices: old(self)@.devices.insert(
                    seen@.ip,
                    EntryView {
                        device: informed(
                            known(devices_alone(old(self)@.devices), seen@.ip),
                            seen@,
                        ),
                        last_seen: now,
                    },
                ),
                ..old(self)@
            }),
    {
        let ip = seen.ip;
        let mut device = match self.devices.get(&ip.bits) {
            Some(e) => e.device.duplicate(),
            None => Device::new(ip),
        };
        device.learn(seen);
        self.put(Entry { device, last_seen: now });
    }

    /// Take in the open ports that a scan of `ip` found.
    pub fn set_ports(&mut self, ip: Ipv4Addr, ports: Vec<u16>)
        requires
            old(self).wf(),
        ensures
            final(self).wf(),
            final(self)@ == (StateView {
                devices: if old(self)@.devices.dom().contains(ip.bits) {
                    let e = old(self)@.devices[ip.bits];
                    old(self)@.devices.insert(
                        ip.bits,
                        EntryView {
                            device: DeviceView { open_ports: ports@, ..e.device },
                            ..e
                        },
                    )
                } else {
                    old(self)@.devices
                },
                ..old(self)@
            }),
    {
        let found = match self.devices.get(&ip.bits) {
            Some(e) => Some(e.duplicate()),
            None => None,
        };
        if let Some(e) = found {
            let Entry { device, last_seen } = e;
            let mut device = device;
            device.open_ports = ports;
            self.put(Entry { device, last_seen });
        }
    }

    /// Drop the devices that have not been seen for too long.
    pub fn drop_offline(&mut self, now: u64)
        requires
            old(self).wf(),
        ensures
            final(self).wf(),
            final(self)@ == (StateView {
                devices: old(self)@.devices.restrict(
                    Set::new(
                        |ip: u32|
                            old(self)@.devices.dom().contains(ip) && age(
                                now,
                                old(self)@.devices[ip].last_seen,
                            ) < DROP_SECS * SECOND,
                    ),
                ),
                ..old(self)@
            }),
    {
        let ghost all_rows = rows_of(self.devices@);
        let ghost was = self.devices@;
        let mut kept: BTreeMap<u32, Entry> = BTreeMap::new();
        let all = entries(&self.devices);
        let mut i: usize = 0;
        proof {
            lemma_entries(was);
        }
        while i < all.len()
            invariant
                i <= all@.len(),
                all_rows == rows_of(was),
                are_entries(all@, was),
                forall|k: u32| #[trigger]
                    kept@.dom().contains(k) <==> was.dom().contains(k) && row_of(all_rows, k) < i
                        && age(now, was[k].last_seen) < DROP_SECS * SECOND,
                forall|k: u32| #[trigger] kept@.dom().contains(k) ==> kept@[k]@ == was[k]@,
            decreases all@.len() - i,
        {
            proof {
                lemma_next_row(was, i as int);
            }
            if age_of(now, all[i].1.last_seen) < DROP_SECS * SECOND {
                kept.insert(all[i].0, all[i].1.duplicate());
            }
            i += 1;
        }
        let ghost before = self@.devices;
        self.devices = kept;
        proof {
            let alive = Set::new(
                |ip: u32|
                    before.dom().contains(ip) && age(now, before[ip].last_seen) < DROP_SECS
                        * SECOND,
            );
            assert forall|k: u32| #[trigger] kept@.dom().contains(k) implies kept@[k].device.ip.bits
                == k by {
                assert(kept@[k]@.device.ip == was[k]@.device.ip);
            }
            assert(entry_map(kept@) =~= before.restrict(alive));
        }
    }

    /// Say `msg` at `now`.
    pub fn set_status(&mut self, msg: String, now: u64)
        requires
            old(self).wf(),
        ensures
            final(self).wf(),
            final(self)@ == (StateView { status: Some((msg@, now)), ..old(self)@ }),
    {
        self.status = Some((msg, now));
    }

    /// The address of the selected device.
    pub fn selected_ip(&self) -> (r: Option<Ipv4Addr>)
        ensures
            match r {
                Some(ip) => selected_address(self@.results, self@.selected) == Some(ip.bits),
                None => selected_address(self@.results, self@.selected) is None,
            },
    {
        match self.selected {
            Some(i) => {
                if i < self.results.len() {
                    Some(self.results[i].device.ip)
                } else {
                    None
                }
            },
            None => None,
        }
    }

    /// The rank of each device in the search `q`.
    fn rank_keys(&self, q: &str) -> (keys: Vec<Option<Key>>)
        requires
            self.wf(),
        ensures
            keys@.len() == rows_of(self.devices@).len(),
            forall|i: int| #![trigger keys@[i]]
                0 <= i < keys@.len() ==> {
                    let d = rows_of(self.devices@)[i].1.device@;
                    &&& keys@[i] is Some <==> found(q@, d)
                    &&& keys@[i] is Some ==> (keys@[i]->0).ip == d.ip
                    &&& keys@[i] is Some && q@.len() > 0 ==> score_of(q@, search_text(d)) == Some(
                        (keys@[i]->0).score,
                    )
                    &&& keys@[i] is Some && q@.len() == 0 ==> (keys@[i]->0).score == 0
                },
    {
        let mut m = matcher();
        let browse = q.is_empty();
        let mut keys: Vec<Option<Key>> = Vec::new();
        let all = entries(&self.devices);
        let mut i: usize = 0;
        while i < all.len()
            invariant
                i <= all@.len(),
                are_entries(all@, self.devices@),
                browse == (q@.len() == 0),
                keys@.len() == i,
                forall|j: int| #![trigger keys@[j]]
                    0 <= j < i ==> {
                        let d = rows_of(self.devices@)[j].1.device@;
                        &&& keys@[j] is Some <==> found(q@, d)
                        &&& keys@[j] is Some ==> (keys@[j]->0).ip == d.ip
                        &&& keys@[j] is Some && q@.len() > 0 ==> score_of(q@, search_text(d))
                            == Some((keys@[j]->0).score)
                        &&& keys@[j] is Some && q@.len() == 0 ==> (keys@[j]->0).score == 0
                    },
            decreases all@.len() - i,
        {
            let ip: u32 = all[i].1.device.ip.bits;
            if browse {
                keys.push(Some(Key { score: 0, ip }));
            } else {
                let hay = all[i].1.device.haystack();
                match score(&mut m, q, hay.as_str()) {
                    Some(n) => keys.push(Some(Key { score: n, ip })),
                    None => keys.push(None),
                }
            }
            i += 1;
        }
        keys
    }

    /// The place of the device at `ip` in the list, if it is there.
    fn position(&self, ip: u32) -> (r: Option<usize>)
        ensures
            match r {
                Some(i) => i < self.results@.len() && self@.results[i as int].device.ip == ip,
                None => forall|i: int|
                    0 <= i < self@.results.len() ==> (#[trigger] self@.results[i]).device.ip != ip,
            },
    {
        let mut i: usize = 0;
        while i < self.results.len()
            invariant
                i <= self.results@.len(),
                forall|j: int|
                    0 <= j < i ==> (#[trigger] self@.results[j]).device.ip != ip,
            decreases self.results@.len() - i,
        {
            if self.results[i].device.ip.bits == ip {
                return Some(i);
            }
            i += 1;
        }
        None
    }

    /// The devices that the search `q` finds, in order.
    fn listing(&self, q: &str) -> (rows: Vec<Entry>)
        requires
            self.wf(),
        ensures
            is_listing(entry_views(rows@), self@.devices, q@),
    {
        let keys = self.rank_keys(q);
        let order = rank(&keys);
        let all = entries(&self.devices);
        let mut rows: Vec<Entry> = Vec::new();
        let mut i: usize = 0;
        while i < order.len()
            invariant
                i <= order@.len(),
                is_ranking(order@, keys@),
                keys@.len() == all@.len(),
                are_entries(all@, self.devices@),
                rows@.len() == i,
                forall|j: int|
                    0 <= j < i ==> (#[trigger] rows@[j])@
                        == rows_of(self.devices@)[order@[j] as int].1@,
            decreases order@.len() - i,
        {
            let at = order[i];
            rows.push(all[at].1.duplicate());
            i += 1;
        }
        let n = keys.len();
        proof {
            self.lemma_listing(q@, keys@, order@, entry_views(rows@));
        }
        rows
    }

    /// The selection in the list: on the device at `keep`, or else on the first
    /// row.
    fn kept_selection(&self, keep: Option<Ipv4Addr>) -> (r: Option<usize>)
        ensures
            is_kept_selection(
                self@.results,
                match keep {
                    Some(ip) => Some(ip.bits),
                    None => None,
                },
                r,
            ),
    {
        let kept = match keep {
            Some(ip) => self.position(ip.bits),
            None => None,
        };
        match kept {
            Some(i) => Some(i),
            None => {
                if self.results.len() == 0 {
                    None
                } else {
                    Some(0)
                }
            },
        }
    }

    /// List the devices that the query finds. The selection stays on the same
    /// device through all that comes and goes.
    pub fn refresh(&mut self)
        requires
            old(self).wf(),
        ensures
            final(self).wf(),
            is_listing(
                final(self)@.results,
                old(self)@.devices,
                trimmed(old(self)@.line.text()),
            ),
            is_kept_selection(
                final(self)@.results,
                selected_address(old(self)@.results, old(self)@.selected),
                final(self)@.selected,
            ),
            final(self)@ == (StateView {
                results: final(self)@.results,
                selected: final(self)@.selected,
                ..old(self)@
            }),
    {
        let keep = self.selected_ip();
        let q = self.query.trimmed();
        let rows = self.listing(q.as_str());
        let ghost before = self@;
        self.results = rows;
        assert(is_listing(self@.results, before.devices, q@));
        self.selected = self.kept_selection(keep);
    }

    /// The ranking of the devices gives the list.
    proof fn lemma_listing(
        self,
        q: Seq<char>,
        keys: Seq<Option<Key>>,
        order: Seq<usize>,
        list: Seq<EntryView>,
    )
        requires
            self.wf(),
            is_ranking(order, keys),
            keys.len() == rows_of(self.devices@).len(),
            list.len() == order.len(),
            forall|j: int|
                0 <= j < list.len() ==> (#[trigger] list[j])
                    == rows_of(self.devices@)[order[j] as int].1@,
            forall|i: int| #![trigger keys[i]]
                0 <= i < keys.len() ==> {
                    let d = rows_of(self.devices@)[i].1.device@;
                    &&& keys[i] is Some <==> found(q, d)
                    &&& keys[i] is Some ==> (keys[i]->0).ip == d.ip
                    &&& keys[i] is Some && q.len() > 0 ==> score_of(q, search_text(d)) == Some(
                        (keys[i]->0).score,
                    )
                    &&& keys[i] is Some && q.len() == 0 ==> (keys[i]->0).score == 0
                },
            keys.len() <= usize::MAX,
        ensures
            is_listing(list, entry_map(self.devices@), q),
    {
        let rows = rows_of(self.devices@);
        let m = entry_map(self.devices@);
        lemma_keys_grow(self.devices@);
        assert forall|j: int| #![trigger list[j]] 0 <= j < list.len() implies {
            let ip = list[j].device.ip;
            m.dom().contains(ip) && list[j] == m[ip] && found(q, list[j].device)
        } by {
            let at = order[j] as int;
            assert(keys[at] is Some);
            lemma_row(self.devices@, at);
        }
        assert forall|i: int, j: int| #![trigger list[i], list[j]]
            0 <= i < j < list.len() implies listed_before(q, list[i].device, list[j].device) by {
            let a = order[i] as int;
            let b = order[j] as int;
            assert(goes_before(keys, a, b));
            assert(keys[a] is Some && keys[b] is Some);
            lemma_row(self.devices@, a);
            lemma_row(self.devices@, b);
            if a < b {
                assert(rows[a].0 < rows[b].0);
            } else if b < a {
                assert(rows[b].0 < rows[a].0);
            }
        }
        assert forall|ip: u32| #[trigger] m.dom().contains(ip) && found(
            q,
            m[ip].device,
        ) implies exists|i: int| 0 <= i < list.len() && (#[trigger] list[i]).device.ip == ip by {
            lemma_entry(self.devices@, ip);
            let at = row_of(rows, ip);
            assert(keys[at] is Some);
            assert(order.contains(at as usize));
            let i = choose|i: int| 0 <= i < order.len() && order[i] == at as usize;
            assert(list[i] == rows[at].1@);
            assert(list[i].device.ip == ip);
        }
    }

    /// React to a key at `now`.
    pub fn handle_key(&mut self, key: KeyEvent, now: u64) -> (step: Step)
        requires
            old(self).wf(),
        ensures
            final(self).wf(),
            (final(self)@, step@) == after_command(
                old(self)@,
                command(key, old(self)@.line.text().len() == 0),
                now,
            ),
    {
        let empty = self.query.is_empty();
        match command_for(key, empty) {
            Command::Nothing => Step::Continue,
            Command::Quit => Step::Quit,
            Command::Open => match self.selected_ip() {
                Some(ip) => {
                    let text = ip.text();
                    let mut msg = "opening http://".to_owned();
                    msg.append(text.as_str());
                    self.set_status(msg, now);
                    let mut url = "http://".to_owned();
                    url.append(text.as_str());
                    Step::OpenUrl(url)
                },
                None => Step::Continue,
            },
            Command::Ssh => match self.selected_ip() {
                Some(ip) => Step::Ssh(ip),
                None => Step::Continue,
            },
            Command::Copy => match self.selected_ip() {
                Some(ip) => Step::Copy(ip),
                None => Step::Continue,
            },
            Command::ScanPorts => match self.selected_ip() {
                Some(ip) => {
                    let text = ip.text();
                    let mut msg = "scanning ports on ".to_owned();
                    msg.append(text.as_str());
                    msg.append("…");
                    self.set_status(msg, now);
                    Step::ScanPorts(ip)
                },
                None => Step::Continue,
            },
            Command::Select(delta) => {
                self.selected = move_selection(self.selected, self.results.len(), delta);
                Step::Continue
            },
            Command::Edit(e) => {
                let _ = self.query.apply(e);
                Step::Continue
            },
        }
    }

    /// Say whether the address `ip` could be copied.
    pub fn copied(&mut self, ip: Ipv4Addr, ok: bool, now: u64)
        requires
            old(self).wf(),
        ensures
            final(self).wf(),
            final(self)@ == (StateView {
                status: Some(
                    (
                        if ok {
                            "copied "@ + dotted(ip.bits)
                        } else {
                            "no clipboard helper (wl-copy/xclip)"@
                        },
                        now,
                    ),
                ),
                ..old(self)@
            }),
    {
        let msg = if ok {
            let mut m = "copied ".to_owned();
            let text = ip.text();
            m.append(text.as_str());
            m
        } else {
            "no clipboard helper (wl-copy/xclip)".to_owned()
        };
        self.set_status(msg, now);
    }

    /// Say that the ssh session with `ip` is over.
    pub fn returned(&mut self, ip: Ipv4Addr, now: u64)
        requires
            old(self).wf(),
        ensures
            final(self).wf(),
            final(self)@ == (StateView {
                status: Some(("returned from ssh "@ + dotted(ip.bits), now)),
                ..old(self)@
            }),
    {
        let mut msg = "returned from ssh ".to_owned();
        let text = ip.text();
        msg.append(text.as_str());
        self.set_status(msg, now);
    }

    /// The rows that the cache gets: one for each device with a hardware
    /// address.
    pub fn flush(&self) -> (rows: Vec<Stored>)
        ensures
            stored_views(rows@) == collected(self@.devices, stored_row()),
    {
        let ghost m = self@.devices;
        let ghost f = stored_row();
        let ghost sorted = rows_of(self.devices@);
        let all = entries(&self.devices);
        let mut rows: Vec<Stored> = Vec::new();
        let mut i: usize = 0;
        assert(stored_views(rows@) =~= collected_below(m, f, bound(sorted, 0)));
        while i < all.len()
            invariant
                i <= all@.len(),
                m == entry_map(self.devices@),
                f == stored_row(),
                sorted == rows_of(self.devices@),
                are_entries(all@, self.devices@),
                stored_views(rows@) == collected_below(m, f, bound(sorted, i as int)),
            decreases all@.len() - i,
        {
            proof {
                lemma_row(self.devices@, i as int);
                lemma_collect_row(self.devices@, m, f, i as int);
            }
            match save(&all[i].1.device) {
                Some(row) => {
                    let ghost done = rows@;
                    let ghost rv = row@;
                    rows.push(row);
                    assert(stored_views(rows@) == stored_views(done).push(rv));
                },
                None => {},
            }
            i += 1;
        }
        proof {
            lemma_collect_end(self.devices@, m, f);
        }
        rows
    }

    /// Whether it is time to write the cache; if so, the time is noted.
    pub fn due(&mut self, now: u64) -> (r: bool)
        requires
            old(self).wf(),
        ensures
            final(self).wf(),
            r == (age(now, old(self)@.last_flush) > FLUSH_SECS * SECOND),
            final(self)@ == (StateView {
                last_flush: if r {
                    now
                } else {
                    old(self)@.last_flush
                },
                ..old(self)@
            }),
    {
        if age_of(now, self.last_flush) > FLUSH_SECS * SECOND {
            self.last_flush = now;
            true
        } else {
            false
        }
    }

    /// The status line at `now`.
    pub fn status_line(&self, now: u64) -> (r: (String, Tone))
        ensures
            (r.0@, r.1) == status_text(self@, now),
    {
        if let Some(s) = &self.status {
            if age_of(now, s.1) < STATUS_SECS * SECOND {
                let mut text = " ".to_owned();
                text.append(s.0.as_str());
                return (text, Tone::Warn);
            }
        }
        let mut text = " ".to_owned();
        let n = decimal_of(self.results.len() as u64);
        text.append(n.as_str());
        text.append(" online · ");
        text.append(self.cidrs.as_str());
        text.append(" · Enter open · ^S ssh · ^Y copy · Tab port-scan · Esc");
        (text, Tone::Dim)
    }

    /// The rows of the list at `now`.
    pub fn list_rows(&self, now: u64) -> (rows: Vec<ListRow>)
        requires
            self.wf(),
        ensures
            rows@.len() == self@.results.len(),
            forall|i: int|
                0 <= i < rows@.len() ==> (#[trigger] rows@[i])@ == list_row(
                    self@.results[i],
                    trimmed(self@.line.text()),
                    now,
                ),
    {
        let q = self.query.trimmed();
        let mut m = matcher();
        let mut rows: Vec<ListRow> = Vec::new();
        let mut i: usize = 0;
        while i < self.results.len()
            invariant
                i <= self.results@.len(),
                q@ == trimmed(self@.line.text()),
                rows@.len() == i,
                forall|j: int|
                    0 <= j < i ==> (#[trigger] rows@[j])@ == list_row(
                        self@.results[j],
                        q@,
                        now,
                    ),
            decreases self.results@.len() - i,
        {
            let e = &self.results[i];
            let ip = e.device.ip.text();
            let mac = opt_or(&e.device.mac, "-");
            let vendor = e.device.vendor_label();
            let host = opt_or(&e.device.hostname, "-");
            let services = join(&e.device.services, ", ");
            let mut cells: Vec<Vec<Run>> = Vec::new();
            cells.push(highlight_cell(ip.as_str(), q.as_str(), &mut m));
            cells.push(highlight_cell(mac.as_str(), q.as_str(), &mut m));
            cells.push(highlight_cell(vendor.as_str(), q.as_str(), &mut m));
            cells.push(highlight_cell(host.as_str(), q.as_str(), &mut m));
            cells.push(highlight_cell(services.as_str(), q.as_str(), &mut m));
            let quiet = age_of(now, e.last_seen) / SECOND > WARN_SECS;
            let row = ListRow { cells, quiet };
            assert(self@.results[i as int] == e@);
            assert(row@.cells =~= list_row(e@, q@, now).cells);
            rows.push(row);
            i += 1;
        }
        rows
    }

    /// The lines of the detail strip at `now`; none where nothing is selected.
    pub fn detail(&self, now: u64) -> (r: Option<Vec<Vec<Piece>>>)
        ensures
            match r {
                Some(lines) => self.selected is Some && self.selected->0 < self@.results.len()
                    && line_views(lines@) == detail_lines(
                    self@.results[self.selected->0 as int],
                    now,
                ),
                None => selected_address(self@.results, self@.selected) is None,
            },
    {
        let i = match self.selected {
            Some(i) => i,
            None => return None,
        };
        if i >= self.results.len() {
            return None;
        }
        let e = &self.results[i];
        let d = &e.device;
        let mut l1: Vec<Piece> = Vec::new();
        let ip = d.ip.text();
        push_pair(&mut l1, "ip ", sanitize_display(ip.as_str()));
        push_pair(&mut l1, "   mac ", opt_or(&d.mac, "—"));
        let vendor = opt_or(&d.vendor, "?");
        push_pair(&mut l1, "   vendor ", sanitize_display(vendor.as_str()));

        let mut l2: Vec<Piece> = Vec::new();
        let host = opt_or(&d.hostname, "—");
        push_pair(&mut l2, "host ", sanitize_display(host.as_str()));
        let services = if d.services.len() == 0 {
            "—".to_owned()
        } else {
            join(&d.services, ", ")
        };
        push_pair(&mut l2, "   services ", sanitize_display(services.as_str()));

        let mut l3: Vec<Piece> = Vec::new();
        let ports = if d.open_ports.len() == 0 {
            "—".to_owned()
        } else {
            let names = port_list(&d.open_ports);
            join(&names, " ")
        };
        push_pair(&mut l3, "ports ", sanitize_display(ports.as_str()));
        let mut seen = decimal_of(age_of(now, e.last_seen) / SECOND);
        seen.append("s ago");
        push_pair(&mut l3, "   seen ", seen);

        let ghost ev = self@.results[i as int];
        assert(ev == e@);
        let ghost wanted = detail_lines(ev, now);
        assert(views(d.services@).len() == d.services@.len());
        assert(piece_views(l1@) =~= wanted[0]);
        assert(piece_views(l2@) =~= wanted[1]);
        assert(piece_views(l3@) =~= wanted[2]);
        let mut lines: Vec<Vec<Piece>> = Vec::new();
        lines.push(l1);
        lines.push(l2);
        lines.push(l3);
        assert(line_views(lines@) =~= wanted);
        Some(lines)
    }
}

/// The ports `ports`, each behind a colon.
fn port_list(ports: &Vec<u16>) -> (names: Vec<String>)
    ensures
        views(names@) == port_names(ports@),
{
    let mut names: Vec<String> = Vec::new();
    let mut i: usize = 0;
    while i < ports.len()
        invariant
            i <= ports@.len(),
            names@.len() == i,
            forall|j: int|
                0 <= j < i ==> (#[trigger] names@[j])@ == port_names(ports@)[j],
        decreases ports@.len() - i,
    {
        let mut s = ":".to_owned();
        let n = decimal_of(ports[i] as u64);
        s.append(n.as_str());
        names.push(s);
        i += 1;
    }
    assert(views(names@) =~= port_names(ports@));
    names
}

// ---- laws ------------------------------------------------------------------------

/// A device that is seen again counts from that moment, and everything else
/// stays as it was.
pub proof fn seeing_refreshes_one_device(
    devices: Map<u32, EntryView>,
    ip: u32,
    device: DeviceView,
    now: u64,
    other: u32,
)
    requires
        other != ip,
    ensures
        ({
            let after = devices.insert(ip, EntryView { device, last_seen: now });
            &&& age(now, after[ip].last_seen) == 0
            &&& after.dom().contains(other) == devices.dom().contains(other)
            &&& devices.dom().contains(other) ==> after[other] == devices[other]
        }),
{
}

/// Devices from the cache are quiet from the start, unless the clock is younger
/// than that, but they do not drop out at once.
pub proof fn seeded_devices_are_quiet(now: u64)
    requires
        now >= (WARN_SECS + 5) * SECOND,
    ensures
        age(now, seed_time(now)) / SECOND as int > WARN_SECS,
        age(now, seed_time(now)) < DROP_SECS * SECOND,
{
}

/// A device shows as quiet some time before it drops out, and one that was just
/// seen does neither.
pub proof fn quiet_comes_before_offline(now: u64, since: u64)
    ensures
        age(now, since) >= DROP_SECS * SECOND ==> age(now, since) / SECOND as int > WARN_SECS,
        age(now, now) / SECOND as int <= WARN_SECS,
{
}

/// There is one listing only: the contract of `refresh` pins the list down.
pub proof fn listing_is_unique(
    a: Seq<EntryView>,
    b: Seq<EntryView>,
    devices: Map<u32, EntryView>,
    q: Seq<char>,
)
    requires
        is_listing(a, devices, q),
        is_listing(b, devices, q),
    ensures
        a == b,
{
    lemma_same_prefix(a, b, devices, q, if a.len() < b.len() { a.len() } else { b.len() });
    if a.len() < b.len() {
        let x = b[a.len() as int];
        assert(devices.dom().contains(x.device.ip));
        let i = choose|i: int| 0 <= i < a.len() && (#[trigger] a[i]).device.ip == x.device.ip;
        assert(listed_before(q, b[i].device, x.device));
    } else if b.len() < a.len() {
        let x = a[b.len() as int];
        assert(devices.dom().contains(x.device.ip));
        let i = choose|i: int| 0 <= i < b.len() && (#[trigger] b[i]).device.ip == x.device.ip;
        assert(listed_before(q, a[i].device, x.device));
    }
    assert(a =~= b);
}

proof fn lemma_same_prefix(
    a: Seq<EntryView>,
    b: Seq<EntryView>,
    devices: Map<u32, EntryView>,
    q: Seq<char>,
    n: nat,
)
    requires
        is_listing(a, devices, q),
        is_listing(b, devices, q),
        n <= a.len(),
        n <= b.len(),
    ensures
        forall|i: int| 0 <= i < n ==> a[i] == b[i],
    decreases n,
{
    if n > 0 {
        let m = n - 1;
        lemma_same_prefix(a, b, devices, q, m as nat);
        let x = a[m];
        let y = b[m];
        assert(devices.dom().contains(x.device.ip));
        assert(devices.dom().contains(y.device.ip));
        if x.device.ip != y.device.ip {
            let i = choose|i: int| 0 <= i < b.len() && (#[trigger] b[i]).device.ip == x.device.ip;
            let j = choose|j: int| 0 <= j < a.len() && (#[trigger] a[j]).device.ip == y.device.ip;
            assert(b[i] == x);
            assert(a[j] == y);
            if i < m {
                assert(listed_before(q, a[i].device, a[m].device));
            } else if j < m {
                assert(listed_before(q, b[j].device, b[m].device));
            } else {
                assert(listed_before(q, b[m].device, b[i].device));
                assert(listed_before(q, a[m].device, a[j].device));
            }
        }
    }
}

} // verus!
