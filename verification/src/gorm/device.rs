//! The model of a Bluetooth device, and what the engine and the picker tell
//! each other.

use vstd::prelude::*;
use crate::text::{
    all_spaced, join, joined, opt_copy, opt_view, push_all_spaced, push_spaced_opt, spaced, views,
};

verus! {

/// A Bluetooth device as BlueZ knows it.
pub struct BtDevice {
    /// The address, its stable identity.
    pub address: String,
    /// The alias that the user set, or else the advertised name.
    pub name: Option<String>,
    /// Keys have been exchanged.
    pub paired: bool,
    /// A link is up.
    pub connected: bool,
    /// Its connections are accepted without asking.
    pub trusted: bool,
    /// Its connections are refused.
    pub blocked: bool,
    /// The signal strength in dBm, while it is in range.
    pub rssi: Option<i16>,
    /// The class of the device, such as `audio-headset`.
    pub icon: Option<String>,
    /// The manufacturer, from the address; none for a random address.
    pub vendor: Option<String>,
    /// The battery level in percent, where the device tells it.
    pub battery: Option<u8>,
    /// What the device can do: sorted, and nothing twice.
    pub profiles: Vec<Profile>,
}

/// What a [`BtDevice`] holds.
#[verifier::ext_equal]
pub ghost struct BtDeviceView {
    pub address: Seq<char>,
    pub name: Option<Seq<char>>,
    pub paired: bool,
    pub connected: bool,
    pub trusted: bool,
    pub blocked: bool,
    pub rssi: Option<i16>,
    pub icon: Option<Seq<char>>,
    pub vendor: Option<Seq<char>>,
    pub battery: Option<u8>,
    pub profiles: Seq<Profile>,
}

impl View for BtDevice {
    type V = BtDeviceView;

    open spec fn view(&self) -> BtDeviceView {
        BtDeviceView {
            address: self.address@,
            name: opt_view(self.name),
            paired: self.paired,
            connected: self.connected,
            trusted: self.trusted,
            blocked: self.blocked,
            rssi: self.rssi,
            icon: opt_view(self.icon),
            vendor: opt_view(self.vendor),
            battery: self.battery,
            profiles: self.profiles@,
        }
    }
}

/// The views of the devices of `v`.
pub open spec fn bt_views(v: Seq<BtDevice>) -> Seq<BtDeviceView> {
    Seq::new(v.len(), |i: int| v[i]@)
}

/// Something that a device can do, from the services that it advertises. That
/// it can play sound does not say that it does so now.
#[derive(Clone, Copy, Debug, PartialEq, Eq, Structural)]
pub enum Profile {
    /// It plays our sound.
    AudioOut,
    /// It streams sound to us.
    AudioIn,
    /// It is a headset with a microphone.
    Mic,
    /// It has play, pause and skip controls.
    MediaKeys,
    /// It is a keyboard, a mouse or a gamepad.
    Input,
}

/// The short name of a profile.
pub open spec fn profile_name(p: Profile) -> Seq<char> {
    match p {
        Profile::AudioOut => "Audio out"@,
        Profile::AudioIn => "Audio in"@,
        Profile::Mic => "Mic"@,
        Profile::MediaKeys => "Media keys"@,
        Profile::Input => "Input"@,
    }
}

/// What the service class `id` stands for, if it is one that is shown.
pub open spec fn profile_of(id: u16) -> Option<Profile> {
    if id == 0x110B {
        Some(Profile::AudioOut)
    } else if id == 0x110A {
        Some(Profile::AudioIn)
    } else if id == 0x111E || id == 0x1108 {
        Some(Profile::Mic)
    } else if id == 0x110E || id == 0x110C || id == 0x110F {
        Some(Profile::MediaKeys)
    } else if id == 0x1124 {
        Some(Profile::Input)
    } else {
        None
    }
}

/// Whether one of the service classes `ids` stands for `p`.
pub open spec fn supports(ids: Seq<u16>, p: Profile) -> bool {
    exists|i: int| 0 <= i < ids.len() && profile_of(#[trigger] ids[i]) == Some(p)
}

/// `p` alone where it is supported.
pub open spec fn if_supported(ids: Seq<u16>, p: Profile) -> Seq<Profile> {
    if supports(ids, p) {
        seq![p]
    } else {
        seq![]
    }
}

/// What the service classes `ids` stand for: in the order of display, and
/// nothing twice.
pub open spec fn recognised(ids: Seq<u16>) -> Seq<Profile> {
    if_supported(ids, Profile::AudioOut) + if_supported(ids, Profile::AudioIn) + if_supported(
        ids,
        Profile::Mic,
    ) + if_supported(ids, Profile::MediaKeys) + if_supported(ids, Profile::Input)
}

/// The names of `profiles`.
pub open spec fn profile_names(profiles: Seq<Profile>) -> Seq<Seq<char>> {
    Seq::new(profiles.len(), |i: int| profile_name(profiles[i]))
}

impl Profile {
    /// The short name of the profile.
    pub fn label(self) -> (s: &'static str)
        ensures
            s@ == profile_name(self),
    {
        match self {
            Profile::AudioOut => "Audio out",
            Profile::AudioIn => "Audio in",
            Profile::Mic => "Mic",
            Profile::MediaKeys => "Media keys",
            Profile::Input => "Input",
        }
    }

    /// What the service class `id` stands for, if it is one that is shown.
    fn of(id: u16) -> (r: Option<Profile>)
        ensures
            r == profile_of(id),
    {
        match id {
            0x110B => Some(Profile::AudioOut),
            0x110A => Some(Profile::AudioIn),
            0x111E | 0x1108 => Some(Profile::Mic),
            0x110E | 0x110C | 0x110F => Some(Profile::MediaKeys),
            0x1124 => Some(Profile::Input),
            _ => None,
        }
    }

    /// Append `p` to `out` where one of `ids` stands for it.
    fn add_if_supported(out: &mut Vec<Profile>, ids: &Vec<u16>, p: Profile)
        ensures
            final(out)@ == old(out)@ + if_supported(ids@, p),
    {
        let ghost before = out@;
        let mut i: usize = 0;
        while i < ids.len()
            invariant
                i <= ids@.len(),
                before == old(out)@,
                out@ == before,
                forall|j: int| 0 <= j < i ==> profile_of(#[trigger] ids@[j]) != Some(p),
            decreases ids@.len() - i,
        {
            if let Some(q) = Profile::of(ids[i]) {
                if q == p {
                    assert(profile_of(ids@[i as int]) == Some(p));
                    out.push(p);
                    assert(out@ == before + seq![p]);
                    return;
                }
            }
            i += 1;
        }
        assert(before + Seq::<Profile>::empty() == before);
    }

    /// What the 16-bit service classes `short_uuids` stand for: sorted, and
    /// nothing twice. Unknown ones are left out.
    pub fn from_uuids(short_uuids: &Vec<u16>) -> (out: Vec<Profile>)
        ensures
            out@ == recognised(short_uuids@),
    {
        let mut out: Vec<Profile> = Vec::new();
        Profile::add_if_supported(&mut out, short_uuids, Profile::AudioOut);
        Profile::add_if_supported(&mut out, short_uuids, Profile::AudioIn);
        Profile::add_if_supported(&mut out, short_uuids, Profile::Mic);
        Profile::add_if_supported(&mut out, short_uuids, Profile::MediaKeys);
        Profile::add_if_supported(&mut out, short_uuids, Profile::Input);
        assert(out@ == recognised(short_uuids@));
        out
    }
}

/// The place of a profile in the order of display.
pub open spec fn place(p: Profile) -> int {
    match p {
        Profile::AudioOut => 0,
        Profile::AudioIn => 1,
        Profile::Mic => 2,
        Profile::MediaKeys => 3,
        Profile::Input => 4,
    }
}

/// Whether `profiles` stand in the order of display, nothing twice.
pub open spec fn in_order(profiles: Seq<Profile>) -> bool {
    forall|i: int, j: int|
        0 <= i < j < profiles.len() ==> place(#[trigger] profiles[i]) < place(
            #[trigger] profiles[j],
        )
}

proof fn lemma_append(r: Seq<Profile>, ids: Seq<u16>, p: Profile)
    requires
        in_order(r),
        forall|i: int| 0 <= i < r.len() ==> place(#[trigger] r[i]) < place(p),
    ensures
        in_order(r + if_supported(ids, p)),
        forall|i: int|
            0 <= i < (r + if_supported(ids, p)).len() ==> place(
                #[trigger] (r + if_supported(ids, p))[i],
            ) <= place(p),
        forall|q: Profile| #[trigger]
            (r + if_supported(ids, p)).contains(q) <==> r.contains(q) || (q == p && supports(
                ids,
                p,
            )),
{
    let s = r + if_supported(ids, p);
    assert forall|q: Profile| #[trigger] s.contains(q) <==> r.contains(q) || (q == p && supports(
        ids,
        p,
    )) by {
        if s.contains(q) {
            let i = choose|i: int| 0 <= i < s.len() && s[i] == q;
            if i < r.len() {
                assert(r[i] == q);
            }
        }
        if r.contains(q) {
            let i = choose|i: int| 0 <= i < r.len() && r[i] == q;
            assert(s[i] == q);
        }
        if q == p && supports(ids, p) {
            assert(s[r.len() as int] == p);
        }
    }
}

/// What is recognised stands in the order of display, nothing twice, and is
/// exactly what the advertised service classes stand for, in whatever order and
/// number they come.
pub proof fn recognised_lists_each_once(ids: Seq<u16>)
    ensures
        in_order(recognised(ids)),
        forall|p: Profile| #[trigger] recognised(ids).contains(p) <==> supports(ids, p),
{
    let none = Seq::<Profile>::empty();
    let a = if_supported(ids, Profile::AudioOut);
    let b = a + if_supported(ids, Profile::AudioIn);
    let c = b + if_supported(ids, Profile::Mic);
    let d = c + if_supported(ids, Profile::MediaKeys);
    lemma_append(none, ids, Profile::AudioOut);
    assert(none + a == a);
    lemma_append(a, ids, Profile::AudioIn);
    lemma_append(b, ids, Profile::Mic);
    lemma_append(c, ids, Profile::MediaKeys);
    lemma_append(d, ids, Profile::Input);
    assert forall|p: Profile| #[trigger] recognised(ids).contains(p) <==> supports(ids, p) by {
        assert(!none.contains(p));
        assert(a.contains(p) <==> p == Profile::AudioOut && supports(ids, p));
        assert(b.contains(p) <==> a.contains(p) || (p == Profile::AudioIn && supports(ids, p)));
        assert(c.contains(p) <==> b.contains(p) || (p == Profile::Mic && supports(ids, p)));
        assert(d.contains(p) <==> c.contains(p) || (p == Profile::MediaKeys && supports(ids, p)));
    }
}

/// The state of a device in one word.
pub open spec fn state_word(d: BtDeviceView) -> Seq<char> {
    if d.blocked {
        "blocked"@
    } else if d.connected {
        "connected"@
    } else if d.paired {
        "paired"@
    } else {
        "-"@
    }
}

/// The text in which a search looks for a device.
pub open spec fn bt_search_text(d: BtDeviceView) -> Seq<char> {
    d.address + spaced(d.name) + spaced(d.icon) + spaced(d.vendor) + all_spaced(
        profile_names(d.profiles),
    )
}

impl BtDevice {
    /// A copy of the device.
    pub fn duplicate(&self) -> (d: BtDevice)
        ensures
            d@ == self@,
    {
        let mut profiles: Vec<Profile> = Vec::new();
        profiles.extend_from_slice(self.profiles.as_slice());
        assert(profiles@ == self.profiles@);
        BtDevice {
            address: self.address.clone(),
            name: opt_copy(&self.name),
            paired: self.paired,
            connected: self.connected,
            trusted: self.trusted,
            blocked: self.blocked,
            rssi: self.rssi,
            icon: opt_copy(&self.icon),
            vendor: opt_copy(&self.vendor),
            battery: self.battery,
            profiles,
        }
    }

    /// The state of the device in one word.
    pub fn state_label(&self) -> (s: &'static str)
        ensures
            s@ == state_word(self@),
    {
        if self.blocked {
            "blocked"
        } else if self.connected {
            "connected"
        } else if self.paired {
            "paired"
        } else {
            "-"
        }
    }

    /// The names of the device's profiles.
    fn labels(&self) -> (names: Vec<String>)
        ensures
            views(names@) == profile_names(self@.profiles),
    {
        let mut names: Vec<String> = Vec::new();
        let mut i: usize = 0;
        while i < self.profiles.len()
            invariant
                i <= self.profiles@.len(),
                names@.len() == i,
                forall|j: int|
                    0 <= j < i ==> (#[trigger] names@[j])@ == profile_name(self.profiles@[j]),
            decreases self.profiles@.len() - i,
        {
            names.push(self.profiles[i].label().to_owned());
            i += 1;
        }
        assert(views(names@) =~= profile_names(self@.profiles));
        names
    }

    /// What the device can do, for display: `Audio out · Mic`.
    pub fn profile_summary(&self) -> (s: String)
        ensures
            s@ == joined(profile_names(self@.profiles), " · "@),
    {
        let names = self.labels();
        join(&names, " · ")
    }

    /// The text in which a search looks for the device: address, name, class,
    /// vendor and profiles.
    pub fn haystack(&self) -> (s: String)
        ensures
            s@ == bt_search_text(self@),
    {
        let mut s = self.address.clone();
        push_spaced_opt(&mut s, &self.name);
        push_spaced_opt(&mut s, &self.icon);
        push_spaced_opt(&mut s, &self.vendor);
        let names = self.labels();
        push_all_spaced(&mut s, &names);
        s
    }
}

// ---- what the engine and the picker tell each other ------------------------------

/// What kind of answer a pairing request needs.
#[derive(Clone, Copy, Debug, PartialEq, Eq, Structural)]
pub enum PromptKind {
    /// Yes or no.
    Confirm,
    /// A numeric passkey.
    Passkey,
    /// A PIN.
    Pin,
    /// None: the code shows on the device.
    Display,
}

/// A pairing request, for the status line.
pub struct Prompt {
    pub address: String,
    pub kind: PromptKind,
    /// The line that is shown, with any passkey in it.
    pub message: String,
}

/// What a [`Prompt`] says.
pub ghost struct PromptView {
    pub address: Seq<char>,
    pub kind: PromptKind,
    pub message: Seq<char>,
}

impl View for Prompt {
    type V = PromptView;

    open spec fn view(&self) -> PromptView {
        PromptView { address: self.address@, kind: self.kind, message: self.message@ }
    }
}

/// What the engine tells the picker.
pub enum Fact {
    /// All devices that BlueZ knows.
    Snapshot(Vec<BtDevice>),
    /// The adapter in use.
    Adapter { name: String },
    /// An action is over; `error` says what went wrong, if anything did.
    ActionResult { address: String, verb: &'static str, error: Option<String> },
    /// Pairing needs the user.
    AgentPrompt(Prompt),
    /// Something went wrong.
    Error(String),
}

/// What a [`Fact`] says.
pub ghost enum FactView {
    Snapshot(Seq<BtDeviceView>),
    Adapter(Seq<char>),
    ActionResult(Seq<char>, Seq<char>, Option<Seq<char>>),
    AgentPrompt(PromptView),
    Error(Seq<char>),
}

impl View for Fact {
    type V = FactView;

    open spec fn view(&self) -> FactView {
        match self {
            Fact::Snapshot(list) => FactView::Snapshot(bt_views(list@)),
            Fact::Adapter { name } => FactView::Adapter(name@),
            Fact::ActionResult { address, verb, error } => FactView::ActionResult(
                address@,
                verb@,
                opt_view(*error),
            ),
            Fact::AgentPrompt(p) => FactView::AgentPrompt(p@),
            Fact::Error(e) => FactView::Error(e@),
        }
    }
}

/// What the picker asks of the engine.
pub enum Cmd {
    /// Bring the link up.
    Connect(String),
    /// Take the link down.
    Disconnect(String),
    /// Trust the device, or no longer.
    SetTrusted(String, bool),
    /// Block the device, or no longer.
    SetBlocked(String, bool),
    /// Pair with the device.
    Pair(String),
    /// Forget the device.
    Unpair(String),
    /// Answer the pending request: nothing rejects it, and a text accepts it
    /// (the passkey or PIN; empty for a yes).
    AnswerPrompt(Option<String>),
}

/// What a [`Cmd`] asks.
pub ghost enum CmdView {
    Connect(Seq<char>),
    Disconnect(Seq<char>),
    SetTrusted(Seq<char>, bool),
    SetBlocked(Seq<char>, bool),
    Pair(Seq<char>),
    Unpair(Seq<char>),
    AnswerPrompt(Option<Seq<char>>),
}

impl View for Cmd {
    type V = CmdView;

    open spec fn view(&self) -> CmdView {
        match self {
            Cmd::Connect(a) => CmdView::Connect(a@),
            Cmd::Disconnect(a) => CmdView::Disconnect(a@),
            Cmd::SetTrusted(a, on) => CmdView::SetTrusted(a@, *on),
            Cmd::SetBlocked(a, on) => CmdView::SetBlocked(a@, *on),
            Cmd::Pair(a) => CmdView::Pair(a@),
            Cmd::Unpair(a) => CmdView::Unpair(a@),
            Cmd::AnswerPrompt(reply) => CmdView::AnswerPrompt(opt_view(*reply)),
        }
    }
}

} // verus!
