//! The decisions of the engine that talks to BlueZ: which call a command asks
//! for, when discovery runs, what pairing asks of the user and what the answer
//! is worth.

use vstd::prelude::*;
use crate::gorm::device::{
    recognised, BtDevice, BtDeviceView, Cmd, CmdView, Profile, Prompt, PromptKind, PromptView,
};
use crate::number::{decimal, decimal_of, parse, parsed};
use crate::oui::{lookup_if_loaded, vendor_if_loaded, Vendors};
use crate::text::{chars_of, opt_view, trim, trimmed};

verus! {

// ---- commands --------------------------------------------------------------------

/// The address and verb of a command for a device; none for an answer to a
/// request.
pub open spec fn action_of(cmd: CmdView) -> Option<(Seq<char>, Seq<char>)> {
    match cmd {
        CmdView::AnswerPrompt(_) => None,
        CmdView::Connect(a) => Some((a, "connect"@)),
        CmdView::Disconnect(a) => Some((a, "disconnect"@)),
        CmdView::SetTrusted(a, on) => Some(
            (
                a,
                if on {
                    "trust"@
                } else {
                    "untrust"@
                },
            ),
        ),
        CmdView::SetBlocked(a, on) => Some(
            (
                a,
                if on {
                    "block"@
                } else {
                    "unblock"@
                },
            ),
        ),
        CmdView::Pair(a) => Some((a, "pair"@)),
        CmdView::Unpair(a) => Some((a, "unpair"@)),
    }
}

/// The address and verb of a command for a device; none for an answer to a
/// request.
pub fn action_for(cmd: &Cmd) -> (r: Option<(String, &'static str)>)
    ensures
        match r {
            Some(a) => action_of(cmd@) == Some((a.0@, a.1@)),
            None => action_of(cmd@) is None,
        },
{
    match cmd {
        Cmd::AnswerPrompt(_) => None,
        Cmd::Connect(a) => Some((a.clone(), "connect")),
        Cmd::Disconnect(a) => Some((a.clone(), "disconnect")),
        Cmd::SetTrusted(a, on) => {
            if *on {
                Some((a.clone(), "trust"))
            } else {
                Some((a.clone(), "untrust"))
            }
        },
        Cmd::SetBlocked(a, on) => {
            if *on {
                Some((a.clone(), "block"))
            } else {
                Some((a.clone(), "unblock"))
            }
        },
        Cmd::Pair(a) => Some((a.clone(), "pair")),
        Cmd::Unpair(a) => Some((a.clone(), "unpair")),
    }
}

// ---- discovery -------------------------------------------------------------------

/// Whether discovery runs, and how many actions are under way. Discovery makes
/// connecting and pairing unreliable, so it pauses while anything is under way.
#[derive(Clone, Copy, Debug, PartialEq, Eq, Structural)]
pub struct Activity {
    pub discovering: bool,
    pub inflight: usize,
}

/// What happens to the engine.
#[derive(Clone, Copy, Debug, PartialEq, Eq, Structural)]
pub enum Event {
    /// An action begins.
    Begin,
    /// An action is over.
    Done,
    /// Discovery was started, or could not be.
    Discovery(bool),
}

/// What a tick asks for.
pub open spec fn resumes(a: Activity) -> bool {
    !a.discovering && a.inflight == 0
}

/// `a` after the event `e`.
pub open spec fn after_event(a: Activity, e: Event) -> Activity {
    match e {
        Event::Begin => Activity { discovering: false, inflight: (a.inflight + 1) as usize },
        Event::Done => Activity { inflight: (a.inflight - 1) as usize, ..a },
        Event::Discovery(started) => Activity { discovering: started, ..a },
    }
}

impl Activity {
    /// Discovery never runs while anything is under way.
    pub open spec fn wf(self) -> bool {
        self.inflight > 0 ==> !self.discovering
    }

    /// The engine at its start, where discovery was started or could not be.
    pub fn new(discovering: bool) -> (a: Activity)
        ensures
            a == (Activity { discovering, inflight: 0 }),
            a.wf(),
    {
        Activity { discovering, inflight: 0 }
    }

    /// An action begins: discovery pauses.
    pub fn begin(&mut self)
        requires
            old(self).wf(),
            old(self).inflight < usize::MAX,
        ensures
            final(self).wf(),
            *final(self) == after_event(*old(self), Event::Begin),
    {
        self.discovering = false;
        self.inflight = self.inflight + 1;
    }

    /// An action is over. Discovery resumes with the next tick.
    pub fn done(&mut self)
        requires
            old(self).wf(),
            old(self).inflight > 0,
        ensures
            final(self).wf(),
            *final(self) == after_event(*old(self), Event::Done),
    {
        self.inflight = self.inflight - 1;
    }

    /// Whether a tick is to start discovery: it does not run, and nothing is
    /// under way.
    pub fn tick(&self) -> (r: bool)
        ensures
            r == resumes(*self),
    {
        !self.discovering && self.inflight == 0
    }

    /// Discovery was started, or could not be.
    pub fn discovery(&mut self, started: bool)
        requires
            old(self).wf(),
            resumes(*old(self)),
        ensures
            final(self).wf(),
            *final(self) == after_event(*old(self), Event::Discovery(started)),
    {
        self.discovering = started;
    }
}

/// Whether the event `e` can happen to `a`.
pub open spec fn possible(a: Activity, e: Event) -> bool {
    match e {
        Event::Begin => a.inflight < usize::MAX,
        Event::Done => a.inflight > 0,
        Event::Discovery(_) => resumes(a),
    }
}

/// `a` after all of `events`.
pub open spec fn after_events(a: Activity, events: Seq<Event>) -> Activity
    decreases events.len(),
{
    if events.len() == 0 {
        a
    } else {
        after_event(after_events(a, events.drop_last()), events.last())
    }
}

/// Whether all of `events` can happen to `a`, one after the other.
pub open spec fn all_possible(a: Activity, events: Seq<Event>) -> bool
    decreases events.len(),
{
    events.len() == 0 || (all_possible(a, events.drop_last()) && possible(
        after_events(a, events.drop_last()),
        events.last(),
    ))
}

/// How many of `events` are `e`.
pub open spec fn occurrences(events: Seq<Event>, e: Event) -> nat
    decreases events.len(),
{
    if events.len() == 0 {
        0
    } else {
        occurrences(events.drop_last(), e) + (if events.last() == e {
            1nat
        } else {
            0nat
        })
    }
}

/// Whatever happens, discovery never runs while an action is under way, and as
/// many actions are under way as began and are not over.
pub proof fn discovery_yields_to_actions(discovering: bool, events: Seq<Event>)
    requires
        all_possible(Activity { discovering, inflight: 0 }, events),
    ensures
        after_events(Activity { discovering, inflight: 0 }, events).wf(),
        after_events(Activity { discovering, inflight: 0 }, events).inflight == occurrences(
            events,
            Event::Begin,
        ) - occurrences(events, Event::Done),
    decreases events.len(),
{
    if events.len() > 0 {
        discovery_yields_to_actions(discovering, events.drop_last());
    }
}

// ---- pairing ---------------------------------------------------------------------

/// `n` in decimal notation, with zeros before it up to six digits.
pub open spec fn six_digits(n: nat) -> Seq<char> {
    let d = decimal(n);
    Seq::new((if d.len() < 6 { 6 - d.len() } else { 0 }) as nat, |i: int| '0') + d
}

/// `n` in decimal notation, with zeros before it up to six digits.
fn passkey_text(n: u32) -> (s: String)
    ensures
        s@ == six_digits(n as nat),
{
    let d = decimal_of(n as u64);
    let len = chars_of(d.as_str()).len();
    let mut s = String::new();
    let mut i: usize = len;
    while i < 6
        invariant
            len == d@.len(),
            len <= i,
            i <= 6 || i == len,
            s@ == Seq::new((i - len) as nat, |j: int| '0'),
        decreases 6 - i,
    {
        s.push('0');
        i += 1;
        assert(s@ =~= Seq::new((i - len) as nat, |j: int| '0'));
    }
    s.append(d.as_str());
    s
}

/// The request to compare the passkey with the one that `device` shows.
pub fn confirmation_prompt(device: &str, passkey: u32) -> (p: Prompt)
    ensures
        p@ == (PromptView {
            address: device@,
            kind: PromptKind::Confirm,
            message: "pair "@ + device@ + "? passkey "@ + six_digits(passkey as nat)
                + " — Enter confirm · Esc reject"@,
        }),
{
    let mut message = "pair ".to_owned();
    message.append(device);
    message.append("? passkey ");
    let digits = passkey_text(passkey);
    message.append(digits.as_str());
    message.append(" — Enter confirm · Esc reject");
    Prompt { address: device.to_owned(), kind: PromptKind::Confirm, message }
}

/// The request to type the passkey that `device` shows.
pub fn passkey_prompt(device: &str) -> (p: Prompt)
    ensures
        p@ == (PromptView {
            address: device@,
            kind: PromptKind::Passkey,
            message: "pair "@ + device@ + " — type passkey · Enter · Esc reject"@,
        }),
{
    let mut message = "pair ".to_owned();
    message.append(device);
    message.append(" — type passkey · Enter · Esc reject");
    Prompt { address: device.to_owned(), kind: PromptKind::Passkey, message }
}

/// The request to type the PIN of `device`.
pub fn pin_prompt(device: &str) -> (p: Prompt)
    ensures
        p@ == (PromptView {
            address: device@,
            kind: PromptKind::Pin,
            message: "pair "@ + device@ + " — type PIN · Enter · Esc reject"@,
        }),
{
    let mut message = "pair ".to_owned();
    message.append(device);
    message.append(" — type PIN · Enter · Esc reject");
    Prompt { address: device.to_owned(), kind: PromptKind::Pin, message }
}

/// The notice that the passkey is to be entered on `device`.
pub fn display_prompt(device: &str, passkey: u32) -> (p: Prompt)
    ensures
        p@ == (PromptView {
            address: device@,
            kind: PromptKind::Display,
            message: "enter "@ + six_digits(passkey as nat) + " on "@ + device@,
        }),
{
    let mut message = "enter ".to_owned();
    let digits = passkey_text(passkey);
    message.append(digits.as_str());
    message.append(" on ");
    message.append(device);
    Prompt { address: device.to_owned(), kind: PromptKind::Display, message }
}

/// Whether the answer `reply` confirms a passkey.
pub fn confirmed(reply: &Option<String>) -> (r: bool)
    ensures
        r == (reply is Some),
{
    reply.is_some()
}

/// The passkey that an answer stands for; none rejects.
pub open spec fn passkey_of(reply: Option<Seq<char>>) -> Option<nat> {
    match reply {
        Some(s) => parsed(trimmed(s), 10, 0xffff_ffff),
        None => None,
    }
}

/// The passkey that the answer `reply` stands for; none rejects.
pub fn entered_passkey(reply: &Option<String>) -> (r: Option<u32>)
    ensures
        match passkey_of(opt_view(*reply)) {
            Some(n) => r == Some(n as u32) && r->0 == n,
            None => r is None,
        },
{
    match reply {
        Some(s) => {
            let t = trim(s.as_str());
            match parse(t.as_str(), 10, 0xffff_ffff) {
                Some(n) => Some(n as u32),
                None => None,
            }
        },
        None => None,
    }
}

// ---- names -----------------------------------------------------------------------

/// `address` with a hyphen for each colon.
pub open spec fn dashed(address: Seq<char>) -> Seq<char> {
    Seq::new(
        address.len(),
        |i: int|
            if address[i] == ':' {
                '-'
            } else {
                address[i]
            },
    )
}

/// Whether the alias of a device is a name: BlueZ gives a device without one its
/// address, with hyphens, as an alias.
pub fn alias_is_name(address: &str, alias: &str) -> (r: bool)
    ensures
        r == (alias@.len() > 0 && alias@ != dashed(address@)),
{
    if alias.is_empty() {
        return false;
    }
    let a = chars_of(address);
    let b = chars_of(alias);
    if a.len() != b.len() {
        assert(dashed(address@).len() == a@.len());
        return true;
    }
    let mut i: usize = 0;
    while i < a.len()
        invariant
            i <= a@.len(),
            a@.len() == b@.len(),
            a@ == address@,
            b@ == alias@,
            forall|j: int| 0 <= j < i ==> #[trigger] b@[j] == dashed(address@)[j],
        decreases a@.len() - i,
    {
        let c = if a[i] == ':' {
            '-'
        } else {
            a[i]
        };
        if b[i] != c {
            assert(alias@[i as int] != dashed(address@)[i as int]);
            return true;
        }
        i += 1;
    }
    assert(alias@ =~= dashed(address@));
    false
}

// ---- reading a device ------------------------------------------------------------

/// What BlueZ says of a device; none where it does not say.
pub struct Reads {
    pub address: String,
    pub alias: Option<String>,
    pub name: Option<String>,
    pub paired: Option<bool>,
    pub connected: Option<bool>,
    pub trusted: Option<bool>,
    pub blocked: Option<bool>,
    pub rssi: Option<i16>,
    pub icon: Option<String>,
    pub battery: Option<u8>,
    /// The services that it offers, as far as they have short numbers.
    pub short_uuids: Vec<u16>,
}

/// The name of the device at `address`: its alias where that is a name, or else
/// the name that it advertises.
pub open spec fn name_of(
    address: Seq<char>,
    alias: Option<Seq<char>>,
    name: Option<Seq<char>>,
) -> Option<Seq<char>> {
    match alias {
        Some(a) => if a.len() > 0 && a != dashed(address) {
            Some(a)
        } else {
            name
        },
        None => name,
    }
}

/// A device of which BlueZ says what `r` holds: what it does not say counts as
/// no.
pub open spec fn device_of(r: Reads, vendors: Option<Vendors>) -> BtDeviceView {
    BtDeviceView {
        address: r.address@,
        name: name_of(r.address@, opt_view(r.alias), opt_view(r.name)),
        paired: r.paired == Some(true),
        connected: r.connected == Some(true),
        trusted: r.trusted == Some(true),
        blocked: r.blocked == Some(true),
        rssi: r.rssi,
        icon: opt_view(r.icon),
        vendor: vendor_if_loaded(vendors, r.address@),
        battery: r.battery,
        profiles: recognised(r.short_uuids@),
    }
}

/// Whether BlueZ says yes.
fn says_yes(answer: Option<bool>) -> (r: bool)
    ensures
        r == (answer == Some(true)),
{
    match answer {
        Some(b) => b,
        None => false,
    }
}

/// The device of which BlueZ says what `r` holds.
pub fn read_device(r: Reads, vendors: &Option<Vendors>) -> (d: BtDevice)
    ensures
        d@ == device_of(r, *vendors),
        d.address@ == r.address@,
        d.connected <==> r.connected == Some(true),
        d.paired <==> r.paired == Some(true),
        d.trusted <==> r.trusted == Some(true),
        d.blocked <==> r.blocked == Some(true),
        d.rssi == r.rssi,
        d.battery == r.battery,
{
    let vendor = lookup_if_loaded(vendors, r.address.as_str());
    let profiles = Profile::from_uuids(&r.short_uuids);
    let name = match r.alias {
        Some(a) => if alias_is_name(r.address.as_str(), a.as_str()) {
            Some(a)
        } else {
            r.name
        },
        None => r.name,
    };
    BtDevice {
        address: r.address,
        name,
        paired: says_yes(r.paired),
        connected: says_yes(r.connected),
        trusted: says_yes(r.trusted),
        blocked: says_yes(r.blocked),
        rssi: r.rssi,
        icon: r.icon,
        vendor,
        battery: r.battery,
        profiles,
    }
}

/// A device without a name of its own never goes by its address.
pub proof fn an_address_is_no_name(address: Seq<char>, name: Option<Seq<char>>)
    ensures
        name_of(address, Some(dashed(address)), name) == name,
        name_of(address, None, name) == name,
{
}

} // verus!
