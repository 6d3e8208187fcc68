//! What the manager of Bluetooth devices promises from end to end: what is made of the
//! answers of BlueZ, what the keys ask of it, and in what order devices stand.

use vstd::prelude::*;
use crate::base::fuzzy::score_of;
use crate::base::sanitize::plain_text_is_shown_as_is;
use crate::gorm::device::{
    bt_search_text, profile_name, profile_names, profile_of, recognised_lists_each_once, state_word, supports, BtDeviceView,
    CmdView, FactView, Profile, PromptKind, PromptView,
};
use crate::gorm::engine::{
    action_of, after_event, dashed, device_of, passkey_of, resumes, six_digits, Activity, Event, Reads,
};
use crate::gorm::config::default_config;
use crate::gorm::picker::{
    after_fact, after_key, after_tick, bars, by_address, detail_lines, is_kept_selection,
    is_listing, list_row, listed_before, meter_cells, name_in, signal_text, state_text, status_segments, StateView, StepView,
};
use crate::gorm::scan::scan_row;
use crate::laws::{blank, trimming_takes_the_ends};
use crate::number::{decimal, decimal_round_trip, digits_value, signed_decimal};
use crate::oui::Vendors;
use crate::text::{right_aligned, text_before};
use crate::ui::config::Layout;
use crate::ui::keys::{KeyCode, KeyEvent, KeyEventKind};
use crate::ui::picker::{cell_runs, Tone};

verus! {

// ---- what BlueZ says of a device -----------------------------------------------------------

/// A device is connected, paired, trusted or blocked exactly where BlueZ says so of that
/// very thing; no answer is a no.
pub proof fn each_state_is_its_own_answer(r: Reads, vendors: Option<Vendors>)
    ensures
        device_of(r, vendors).connected <==> r.connected == Some(true),
        device_of(r, vendors).paired <==> r.paired == Some(true),
        device_of(r, vendors).trusted <==> r.trusted == Some(true),
        device_of(r, vendors).blocked <==> r.blocked == Some(true),
{
}

/// What BlueZ says of pairing, trust and blocking makes no difference to whether a
/// device is connected, and so on round: devices of which it answers one thing alike
/// agree in that thing, whatever it answers otherwise.
pub proof fn states_do_not_depend_on_each_other(a: Reads, b: Reads, v: Option<Vendors>, w: Option<Vendors>)
    ensures
        a.connected == b.connected ==> device_of(a, v).connected == device_of(b, w).connected,
        a.paired == b.paired ==> device_of(a, v).paired == device_of(b, w).paired,
        a.trusted == b.trusted ==> device_of(a, v).trusted == device_of(b, w).trusted,
        a.blocked == b.blocked ==> device_of(a, v).blocked == device_of(b, w).blocked,
        a.connected == Some(true) && b.connected != Some(true) ==> device_of(a, v).connected
            && !device_of(b, w).connected,
        a.paired == Some(true) && b.paired != Some(true) ==> device_of(a, v).paired && !device_of(
            b,
            w,
        ).paired,
        a.trusted == Some(true) && b.trusted != Some(true) ==> device_of(a, v).trusted
            && !device_of(b, w).trusted,
        a.blocked == Some(true) && b.blocked != Some(true) ==> device_of(a, v).blocked
            && !device_of(b, w).blocked,
{
}

/// The address, the strength of the signal, the charge and the sort of a device are
/// what BlueZ says.
pub proof fn readings_are_kept(r: Reads, vendors: Option<Vendors>)
    ensures
        device_of(r, vendors).address == r.address@,
        device_of(r, vendors).rssi == r.rssi,
        device_of(r, vendors).battery == r.battery,
        r.icon is Some ==> device_of(r, vendors).icon == Some((r.icon->0)@),
        r.icon is None ==> device_of(r, vendors).icon is None,
{
}

/// The manufacturer of a device is the one that is known for its address.
pub proof fn vendors_are_told_by_address(r: Reads, vendors: Option<Vendors>)
    ensures
        vendors is Some && (vendors->0)@.dom().contains(r.address@) ==> device_of(
            r,
            vendors,
        ).vendor == Some((vendors->0)@[r.address@]),
        vendors is Some && !(vendors->0)@.dom().contains(r.address@) ==> device_of(
            r,
            vendors,
        ).vendor is None,
        vendors is None ==> device_of(r, vendors).vendor is None,
{
}

/// A device goes by its alias, and by its name where it has none; an alias that is only
/// the address in other letters is none.
pub proof fn aliases_come_before_names(r: Reads, vendors: Option<Vendors>)
    ensures
        ({
            let d = device_of(r, vendors);
            let own = r.alias is Some && (r.alias->0)@.len() > 0 && ((r.alias->0)@.len()
                != r.address@.len() || exists|i: int|
                0 <= i < r.address@.len() && #[trigger] (r.alias->0)@[i] != (if r.address@[i]
                    == ':' {
                    '-'
                } else {
                    r.address@[i]
                }));
            &&& own ==> d.name == Some((r.alias->0)@)
            &&& !own && r.name is Some ==> d.name == Some((r.name->0)@)
            &&& !own && r.name is None ==> d.name is None
        }),
{
    if let Some(alias) = r.alias {
        let a = alias@;
        let b = r.address@;
        if a.len() == b.len() && forall|i: int|
            0 <= i < b.len() ==> #[trigger] a[i] == (if b[i] == ':' {
                '-'
            } else {
                b[i]
            }) {
            assert(a =~= dashed(b));
        } else if a.len() == b.len() {
            let i = choose|i: int|
                0 <= i < b.len() && #[trigger] a[i] != (if b[i] == ':' {
                    '-'
                } else {
                    b[i]
                });
            assert(a[i] != dashed(b)[i]);
        }
    }
}

/// A device can do what the services say that it offers, each once: to play and to
/// record sound, to be spoken into, to be controlled and to be typed on.
pub proof fn services_tell_the_uses(r: Reads, vendors: Option<Vendors>)
    ensures
        ({
            let p = device_of(r, vendors).profiles;
            let ids = r.short_uuids@;
            &&& p.contains(Profile::AudioOut) <==> ids.contains(0x110B)
            &&& p.contains(Profile::AudioIn) <==> ids.contains(0x110A)
            &&& p.contains(Profile::Mic) <==> ids.contains(0x111E) || ids.contains(0x1108)
            &&& p.contains(Profile::MediaKeys) <==> ids.contains(0x110E) || ids.contains(0x110C)
                || ids.contains(0x110F)
            &&& p.contains(Profile::Input) <==> ids.contains(0x1124)
            &&& forall|i: int, j: int| 0 <= i < j < p.len() ==> #[trigger] p[i] != #[trigger] p[j]
        }),
{
    let ids = r.short_uuids@;
    recognised_lists_each_once(ids);
    lemma_supports(ids);
}

proof fn lemma_supports(ids: Seq<u16>)
    ensures
        supports(ids, Profile::AudioOut) <==> ids.contains(0x110B),
        supports(ids, Profile::AudioIn) <==> ids.contains(0x110A),
        supports(ids, Profile::Mic) <==> ids.contains(0x111E) || ids.contains(0x1108),
        supports(ids, Profile::MediaKeys) <==> ids.contains(0x110E) || ids.contains(0x110C)
            || ids.contains(0x110F),
        supports(ids, Profile::Input) <==> ids.contains(0x1124),
{
    assert forall|x: u16| #[trigger] ids.contains(x) && profile_of(x) is Some implies supports(
        ids,
        profile_of(x)->0,
    ) by {
        let i = choose|i: int| 0 <= i < ids.len() && ids[i] == x;
        assert(profile_of(ids[i]) == Some(profile_of(x)->0));
    }
    assert forall|p: Profile| #[trigger] supports(ids, p) implies exists|x: u16| #[trigger]
        ids.contains(x) && profile_of(x) == Some(p) by {
        let i = choose|i: int| 0 <= i < ids.len() && profile_of(#[trigger] ids[i]) == Some(p);
        assert(ids.contains(ids[i]));
    }
}

/// One word tells the state of a device; what is blocked is told first, then what is
/// connected, then what is paired.
pub proof fn the_state_is_told_in_a_word(d: BtDeviceView)
    ensures
        d.blocked ==> state_word(d) == "blocked"@,
        !d.blocked && d.connected ==> state_word(d) == "connected"@,
        !d.blocked && !d.connected && d.paired ==> state_word(d) == "paired"@,
        !d.blocked && !d.connected && !d.paired ==> state_word(d) == "-"@,
{
}

// ---- what is asked of BlueZ -------------------------------------------------------------------

/// An action is carried out on the device that it names, and what turns a thing on is told
/// apart from what turns it off.
pub proof fn actions_name_the_device(a: Seq<char>, reply: Option<Seq<char>>)
    ensures
        action_of(CmdView::Connect(a)) == Some((a, "connect"@)),
        action_of(CmdView::Disconnect(a)) == Some((a, "disconnect"@)),
        action_of(CmdView::SetTrusted(a, true)) == Some((a, "trust"@)),
        action_of(CmdView::SetTrusted(a, false)) == Some((a, "untrust"@)),
        action_of(CmdView::SetBlocked(a, true)) == Some((a, "block"@)),
        action_of(CmdView::SetBlocked(a, false)) == Some((a, "unblock"@)),
        action_of(CmdView::Pair(a)) == Some((a, "pair"@)),
        action_of(CmdView::Unpair(a)) == Some((a, "unpair"@)),
        action_of(CmdView::AnswerPrompt(reply)) is None,
{
}

/// What a key asks for: Enter connects the selected device, or disconnects it where it is
/// connected; trust and blocking are turned to what they are not; and pairing is asked for.
pub proof fn keys_act_on_the_selected_device(
    s: StateView,
    i: usize,
    key: KeyEvent,
    enhanced: bool,
    now: u64,
)
    requires
        s.prompt is None,
        s.selected == Some(i),
        i < s.results.len(),
        key.kind != KeyEventKind::Release,
    ensures
        ({
            let d = s.results[i as int];
            let step = after_key(s, key, enhanced, now).1;
            &&& key.code == KeyCode::Enter && d.connected ==> step == StepView::Send(
                CmdView::Disconnect(d.address),
            )
            &&& key.code == KeyCode::Enter && !d.connected ==> step == StepView::Send(
                CmdView::Connect(d.address),
            )
            &&& key.code == KeyCode::Char('p') && key.alt && !key.ctrl ==> step == StepView::Send(
                CmdView::Pair(d.address),
            )
            &&& key.code == KeyCode::Char('t') && key.ctrl && !key.alt && d.trusted ==> step
                == StepView::Send(CmdView::SetTrusted(d.address, false))
            &&& key.code == KeyCode::Char('t') && key.ctrl && !key.alt && !d.trusted ==> step
                == StepView::Send(CmdView::SetTrusted(d.address, true))
            &&& key.code == KeyCode::Char('b') && key.alt && !key.ctrl && d.blocked ==> step
                == StepView::Send(CmdView::SetBlocked(d.address, false))
            &&& key.code == KeyCode::Char('b') && key.alt && !key.ctrl && !d.blocked ==> step
                == StepView::Send(CmdView::SetBlocked(d.address, true))
            &&& key.code == KeyCode::Esc ==> step == StepView::Quit
            &&& key.code == KeyCode::Char('c') && key.ctrl ==> step == StepView::Quit
        }),
{
}

/// Keys act on a device only through the command that is sent: what is known of the
/// devices, and which is selected, stays.
pub proof fn keys_leave_what_is_known(
    s: StateView,
    key: KeyEvent,
    enhanced: bool,
    now: u64,
)
    ensures
        after_key(s, key, enhanced, now).0.bluez == s.bluez,
        after_key(s, key, enhanced, now).0.results == s.results,
        after_key(s, key, enhanced, now).0.adapter_name == s.adapter_name,
        after_key(s, key, enhanced, now).1 is Send ==> after_key(s, key, enhanced, now).0.selected
            == s.selected && after_key(s, key, enhanced, now).0.line == s.line,
        key.kind == KeyEventKind::Release ==> after_key(s, key, enhanced, now).1 is Continue,
{
}

/// Without a device to act on, nothing is asked of BlueZ.
pub proof fn nothing_is_asked_without_a_device(
    s: StateView,
    key: KeyEvent,
    enhanced: bool,
    now: u64,
)
    requires
        s.prompt is None,
        s.selected is None || s.selected->0 >= s.results.len(),
    ensures
        !(after_key(s, key, enhanced, now).1 is Send),
        after_tick(s, enhanced, now).1 is None,
{
}

/// Letters without a modifier are typed into the search and do nothing else; the keys that
/// move go through the list.
pub proof fn plain_letters_are_typed(
    s: StateView,
    c: char,
    key: KeyEvent,
    enhanced: bool,
    now: u64,
)
    requires
        s.prompt is None,
        key.kind != KeyEventKind::Release,
        !key.ctrl,
        !key.alt,
        key.code == KeyCode::Char(c),
    ensures
        after_key(s, key, enhanced, now).1 is Continue,
        after_key(s, key, enhanced, now).0.line.text() == s.line.before + seq![c] + s.line.after,
        after_key(s, key, enhanced, now).0.selected == s.selected,
{
    assert(s.line.before.push(c) + s.line.after == s.line.before + seq![c] + s.line.after);
}

/// A device is forgotten once the key has been held for 650 milliseconds, and no sooner;
/// the one that is forgotten is the selected one.
pub proof fn holding_forgets_the_selected_device(s: StateView, i: usize, start: u64, now: u64)
    requires
        s.unpair_arm == Some(start),
        s.selected == Some(i),
        i < s.results.len(),
        start <= now,
    ensures
        now - start >= 650 * 1_000_000 ==> after_tick(s, true, now).1 == Some(
            CmdView::Unpair(s.results[i as int].address),
        ),
        now - start < 650 * 1_000_000 ==> after_tick(s, true, now).1 is None,
{
}

/// The hold begins with the first press, and further presses do not begin it anew.
pub proof fn the_hold_begins_once(s: StateView, key: KeyEvent, now: u64)
    requires
        s.prompt is None,
        !s.unpair_consumed,
        key.kind != KeyEventKind::Release,
        key.code == KeyCode::Char('u'),
        key.alt,
        !key.ctrl,
    ensures
        s.unpair_arm is None ==> after_key(s, key, true, now).0.unpair_arm == Some(now),
        s.unpair_arm is Some ==> after_key(s, key, true, now).0.unpair_arm == s.unpair_arm,
{
}

// ---- pairing -------------------------------------------------------------------------------------

/// A passkey is confirmed by Enter or a yes and rejected by Escape or a no; what has to be
/// typed is sent as it was typed.
pub proof fn prompts_are_answered(
    s: StateView,
    p: PromptView,
    key: KeyEvent,
    enhanced: bool,
    now: u64,
)
    requires
        s.prompt == Some(p),
        key.kind != KeyEventKind::Release,
    ensures
        ({
            let step = after_key(s, key, enhanced, now).1;
            let t = after_key(s, key, enhanced, now).0;
            let typed = p.kind == PromptKind::Passkey || p.kind == PromptKind::Pin;
            &&& p.kind == PromptKind::Confirm && (key.code == KeyCode::Enter || key.code
                == KeyCode::Char('y')) ==> (step matches StepView::Send(CmdView::AnswerPrompt(a))
                && a is Some)
            &&& p.kind == PromptKind::Confirm && (key.code == KeyCode::Esc || key.code
                == KeyCode::Char('n')) ==> step == StepView::Send(CmdView::AnswerPrompt(None))
            &&& typed && key.code == KeyCode::Enter ==> step == StepView::Send(
                CmdView::AnswerPrompt(Some(s.prompt_input)),
            )
            &&& typed && key.code == KeyCode::Esc ==> step == StepView::Send(
                CmdView::AnswerPrompt(None),
            )
            &&& step is Send ==> t.prompt is None && t.prompt_input.len() == 0
            &&& key.code matches KeyCode::Char(c) ==> (typed && '0' <= c <= '9' ==> t.prompt_input
                == s.prompt_input + seq![c] && step is Continue && t.prompt == s.prompt)
            &&& typed && key.code == KeyCode::Backspace && s.prompt_input.len() > 0
                ==> t.prompt_input == s.prompt_input.drop_last()
        }),
{
    if let KeyCode::Char(c) = key.code {
        assert(s.prompt_input.push(c) == s.prompt_input + seq![c]);
    }
}

/// A request of the agent waits to be answered; a passkey that is only shown is a message.
pub proof fn requests_wait_for_an_answer(s: StateView, p: PromptView, now: u64)
    ensures
        p.kind != PromptKind::Display ==> after_fact(s, FactView::AgentPrompt(p), now).prompt
            == Some(p) && after_fact(s, FactView::AgentPrompt(p), now).prompt_input.len() == 0,
        p.kind == PromptKind::Display ==> after_fact(s, FactView::AgentPrompt(p), now).prompt
            == s.prompt && after_fact(s, FactView::AgentPrompt(p), now).status == Some(
            (p.message, now),
        ),
{
}

proof fn lemma_leading_zeros(k: nat, s: Seq<char>)
    requires
        s.len() > 0,
        digits_value(s, 10) is Some,
    ensures
        digits_value(Seq::new(k, |i: int| '0') + s, 10) == digits_value(s, 10),
    decreases s.len(), k,
{
    let z = Seq::new(k, |i: int| '0');
    let t = z + s;
    if k == 0 {
        assert(t == s);
    } else if s.len() == 1 {
        assert(t.drop_last() == z);
        assert(t.last() == s[0]);
        lemma_zeros(k);
    } else {
        assert(t.drop_last() == z + s.drop_last());
        assert(t.last() == s.last());
        lemma_leading_zeros(k, s.drop_last());
    }
}

proof fn lemma_zeros(k: nat)
    requires
        k > 0,
    ensures
        digits_value(Seq::new(k, |i: int| '0'), 10) == Some(0nat),
    decreases k,
{
    let z = Seq::new(k, |i: int| '0');
    if k > 1 {
        assert(z.drop_last() == Seq::new((k - 1) as nat, |i: int| '0'));
        lemma_zeros((k - 1) as nat);
        assert(z.last() == '0');
    } else {
        assert(z[0] == '0');
    }
}

/// A passkey is shown in at least six digits, and typed as it is shown it is the same
/// passkey, whatever white space stands round it.
pub proof fn passkeys_are_typed_as_shown(n: u32, a: Seq<char>, b: Seq<char>)
    requires
        blank(a),
        blank(b),
    ensures
        six_digits(n as nat).len() >= 6,
        passkey_of(Some(a + six_digits(n as nat) + b)) == Some(n as nat),
        passkey_of(None) is None,
{
    let s = six_digits(n as nat);
    let d = decimal(n as nat);
    decimal_round_trip(n as nat);
    let k = (if d.len() < 6 {
        6 - d.len()
    } else {
        0
    }) as nat;
    assert(s == Seq::new(k, |i: int| '0') + d);
    lemma_leading_zeros(k, d);
    assert(s[0] == '0' || s[0] == d[0]);
    assert(s.last() == d[d.len() - 1]);
    trimming_takes_the_ends(a, s, b);
}

// ---- facts -----------------------------------------------------------------------------------------

/// What BlueZ says of an address is known from then on, and only a snapshot changes what
/// is known.
pub proof fn snapshots_are_known(
    s: StateView,
    list: Seq<BtDeviceView>,
    i: int,
    now: u64,
)
    requires
        0 <= i < list.len(),
        forall|j: int| i < j < list.len() ==> (#[trigger] list[j]).address != list[i].address,
    ensures
        after_fact(s, FactView::Snapshot(list), now).bluez.dom().contains(list[i].address),
        after_fact(s, FactView::Snapshot(list), now).bluez[list[i].address] == list[i],
{
    lemma_known(list, list.len() as int, i);
}

proof fn lemma_known(list: Seq<BtDeviceView>, n: int, i: int)
    requires
        0 <= i < n <= list.len(),
        forall|j: int| i < j < n ==> (#[trigger] list[j]).address != list[i].address,
    ensures
        by_address(list, n).dom().contains(list[i].address),
        by_address(list, n)[list[i].address] == list[i],
    decreases n,
{
    if i < n - 1 {
        lemma_known(list, n - 1, i);
        assert(list[n - 1].address != list[i].address);
    }
}

/// Facts other than a snapshot leave what is known of the devices.
pub proof fn other_facts_keep_the_devices(s: StateView, fact: FactView, now: u64)
    requires
        !(fact is Snapshot),
    ensures
        after_fact(s, fact, now).bluez == s.bluez,
        after_fact(s, fact, now).results == s.results,
        after_fact(s, fact, now).selected == s.selected,
        fact matches FactView::Adapter(name) ==> after_fact(s, fact, now).adapter_name == name,
        fact matches FactView::Error(e) ==> after_fact(s, fact, now).status == Some((e, now)),
        fact is ActionResult ==> after_fact(s, fact, now).prompt is None,
{
}

/// The outcome of an action is told with the name of the device, where it has one.
pub proof fn outcomes_are_told_by_name(
    s: StateView,
    i: int,
    verb: Seq<char>,
    error: Seq<char>,
    now: u64,
)
    requires
        0 <= i < s.results.len(),
        forall|j: int| 0 <= j < i ==> (#[trigger] s.results[j]).address != s.results[i].address,
        s.results[i].name is Some,
    ensures
        ({
            let d = s.results[i];
            let ok = after_fact(s, FactView::ActionResult(d.address, verb, None), now).status;
            let bad = after_fact(
                s,
                FactView::ActionResult(d.address, verb, Some(error)),
                now,
            ).status;
            &&& ok == Some((d.name->0 + ": "@ + verb + " ✓"@, now))
            &&& bad == Some((d.name->0 + ": "@ + verb + " failed — "@ + error, now))
        }),
{
    lemma_name_in(s.results, i, 0);
}

proof fn lemma_name_in(results: Seq<BtDeviceView>, i: int, from: int)
    requires
        0 <= from <= i < results.len(),
        forall|j: int| 0 <= j < i ==> (#[trigger] results[j]).address != results[i].address,
    ensures
        name_in(results, results[i].address, from) == results[i].name,
    decreases i - from,
{
    if from < i {
        lemma_name_in(results, i, from + 1);
    }
}

// ---- the list ------------------------------------------------------------------------------------------

/// Without a search, devices in use stand first, then those that are paired, then those
/// that say what they are; among these the stronger signal stands first, one without a
/// signal last.
pub proof fn devices_stand_by_use_and_signal(a: BtDeviceView, b: BtDeviceView)
    ensures
        ({
            let q = Seq::<char>::empty();
            let told_a = a.name is Some || a.icon is Some;
            let told_b = b.name is Some || b.icon is Some;
            &&& a.connected && !b.connected ==> listed_before(q, a, b) && !listed_before(q, b, a)
            &&& a.connected == b.connected && !a.connected && a.paired && !b.paired
                ==> listed_before(q, a, b) && !listed_before(q, b, a)
            &&& !a.connected && !b.connected && !a.paired && !b.paired && told_a && !told_b
                ==> listed_before(q, a, b) && !listed_before(q, b, a)
            &&& a.connected && b.connected && a.rssi is Some && b.rssi is Some && a.rssi->0
                > b.rssi->0 ==> listed_before(q, a, b) && !listed_before(q, b, a)
            &&& !a.connected && !b.connected && a.paired && b.paired && a.rssi is Some && b.rssi
                is Some && a.rssi->0 > b.rssi->0 ==> listed_before(q, a, b) && !listed_before(
                q,
                b,
                a,
            )
            &&& a.connected && b.connected && a.rssi is Some && a.rssi->0 > i16::MIN && b.rssi
                is None ==> listed_before(q, a, b) && !listed_before(q, b, a)
            &&& a.connected && b.connected && a.rssi == b.rssi && a.name is Some && b.name is Some
                && text_before(a.name->0, b.name->0) ==> listed_before(q, a, b)
        }),
{
}

/// In a search, the device that the matcher scores higher stands first.
pub proof fn better_matches_stand_first(
    results: Seq<BtDeviceView>,
    bluez: Map<Seq<char>, BtDeviceView>,
    q: Seq<char>,
    i: int,
    j: int,
)
    requires
        is_listing(results, bluez, q),
        q.len() > 0,
        0 <= i < results.len(),
        0 <= j < results.len(),
        score_of(q, bt_search_text(results[i])) is Some,
        score_of(q, bt_search_text(results[j])) is Some,
        score_of(q, bt_search_text(results[i]))->0 > score_of(q, bt_search_text(results[j]))->0,
    ensures
        i < j,
{
    if j < i {
        assert(listed_before(q, results[j], results[i]));
    }
}

/// The list holds what is known and found, all of it and nothing else.
pub proof fn the_list_holds_what_is_found(
    results: Seq<BtDeviceView>,
    bluez: Map<Seq<char>, BtDeviceView>,
    q: Seq<char>,
    a: Seq<char>,
)
    requires
        is_listing(results, bluez, q),
        bluez.dom().contains(a),
        bluez[a].address == a,
    ensures
        (q.len() == 0 || score_of(q, bt_search_text(bluez[a])) is Some) <==> exists|i: int|
            0 <= i < results.len() && (#[trigger] results[i]) == bluez[a],
{
    if q.len() == 0 || score_of(q, bt_search_text(bluez[a])) is Some {
        let i = choose|i: int| 0 <= i < results.len() && (#[trigger] results[i]).address == a;
        assert(results[i] == bluez[a]);
    } else if exists|i: int| 0 <= i < results.len() && (#[trigger] results[i]) == bluez[a] {
        let i = choose|i: int| 0 <= i < results.len() && (#[trigger] results[i]) == bluez[a];
        assert(results[i].address == a);
    }
}

/// A search looks at all that is known of a device: its address, its name, its sort, its
/// manufacturer and its uses.
pub proof fn searches_look_at_all_that_is_known(d: BtDeviceView, name: Seq<char>)
    requires
        d.name == Some(name),
        d.icon is None,
        d.vendor is None,
        d.profiles.len() == 0,
    ensures
        bt_search_text(d) == d.address + seq![' '] + name,
        forall|icon: Seq<char>| #[trigger]
            bt_search_text(BtDeviceView { icon: Some(icon), ..d }) == d.address + seq![' '] + name
                + seq![' '] + icon,
        forall|v: Seq<char>| #[trigger]
            bt_search_text(BtDeviceView { vendor: Some(v), ..d }) == d.address + seq![' '] + name
                + seq![' '] + v,
{
    assert(profile_names(d.profiles).len() == 0);
    assert(bt_search_text(d) =~= d.address + seq![' '] + name);
    assert forall|icon: Seq<char>| #[trigger]
        bt_search_text(BtDeviceView { icon: Some(icon), ..d }) == d.address + seq![' '] + name + seq![
            ' ',
        ] + icon by {
        let e = BtDeviceView { icon: Some(icon), ..d };
        assert(bt_search_text(e) =~= d.address + seq![' '] + name + seq![' '] + icon);
    }
    assert forall|v: Seq<char>| #[trigger]
        bt_search_text(BtDeviceView { vendor: Some(v), ..d }) == d.address + seq![' '] + name + seq![
            ' ',
        ] + v by {
        let e = BtDeviceView { vendor: Some(v), ..d };
        assert(bt_search_text(e) =~= d.address + seq![' '] + name + seq![' '] + v);
    }
}

/// A stronger signal never shows fewer bars; the best shows all four and the worst none.
pub proof fn bars_grow_with_the_signal(a: int, b: int)
    requires
        a <= b,
    ensures
        0 <= bars(a) <= bars(b) <= 4,
        a >= -50 ==> bars(a) == 4,
        b < -90 ==> bars(b) == 0,
        a < -50 ==> bars(a) <= 3,
        a >= -90 ==> bars(a) >= 1,
        a >= -65 ==> bars(a) >= 3,
        b < -65 ==> bars(b) <= 2,
        a >= -78 ==> bars(a) >= 2,
        b < -78 ==> bars(b) <= 1,
{
}

/// The list tells of a blocked device that it is blocked, of any other whether it is
/// connected or paired, and a mark behind that whether it is trusted.
pub proof fn the_list_tells_the_state(d: BtDeviceView)
    ensures
        d.blocked ==> state_text(d) == "blocked"@,
        !d.blocked && d.connected && !d.trusted ==> state_text(d) == "conn"@,
        !d.blocked && !d.connected && d.paired && !d.trusted ==> state_text(d) == "paired"@,
        !d.blocked && !d.connected && !d.paired && !d.trusted ==> state_text(d) == "·"@,
        !d.blocked && d.trusted ==> state_text(d) == state_text(
            BtDeviceView { trusted: false, ..d },
        ) + " ✓"@,
{
    if !d.blocked && !d.trusted {
        assert(state_text(d) =~= (if d.connected {
            "conn"@
        } else if d.paired {
            "paired"@
        } else {
            "·"@
        }));
    }
    if !d.blocked && d.trusted {
        assert(state_text(BtDeviceView { trusted: false, ..d }) + " ✓"@ =~= state_text(d));
    }
}

/// Devices that are alike in use and signal stand by their names, and those of one name by
/// their addresses; a device without a name stands by its address.
pub proof fn alike_devices_stand_by_name(a: BtDeviceView, b: BtDeviceView)
    requires
        a.connected == b.connected,
        a.paired == b.paired,
        a.icon == b.icon,
        a.rssi == b.rssi,
    ensures
        ({
            let q = Seq::<char>::empty();
            &&& a.name is Some && b.name is Some && text_before(a.name->0, b.name->0)
                ==> listed_before(q, a, b)
            &&& a.name == b.name && a.name is Some && text_before(a.address, b.address)
                ==> listed_before(q, a, b)
            &&& a.name is None && b.name is None && text_before(a.address, b.address)
                ==> listed_before(q, a, b)
        }),
{
}

/// A device that was selected stays so as long as it is listed; otherwise the first one is.
pub proof fn the_selected_device_stays(
    results: Seq<BtDeviceView>,
    address: Seq<char>,
    selected: Option<usize>,
    i: int,
)
    requires
        is_kept_selection(results, Some(address), selected),
        0 <= i < results.len(),
    ensures
        selected is Some && selected->0 < results.len(),
        results[i].address == address ==> results[selected->0 as int].address == address,
        (forall|j: int| 0 <= j < results.len() ==> (#[trigger] results[j]).address != address)
            ==> selected == Some(0usize),
{
    if results[i].address == address {
        assert(exists|j: int| 0 <= j < results.len() && (#[trigger] results[j]).address == address);
    }
}

/// Where the terminal reports no releases, a gap of more than 200 milliseconds between
/// presses ends the hold; the next press begins a new one.
pub proof fn gaps_end_the_hold(s: StateView, key: KeyEvent, now: u64)
    requires
        s.prompt is None,
        s.unpair_last <= now,
    ensures
        now - s.unpair_last > 200 * 1_000_000 ==> after_tick(s, false, now).1 is None && after_tick(
            s,
            false,
            now,
        ).0.unpair_arm is None,
        !s.unpair_consumed && now - s.unpair_last > 200 * 1_000_000 && key.kind
            != KeyEventKind::Release && key.code == KeyCode::Char('u') && key.alt && !key.ctrl
            ==> after_key(s, key, false, now).0.unpair_arm == Some(now),
        !s.unpair_consumed && now - s.unpair_last <= 200 * 1_000_000 && s.unpair_arm is Some
            && key.kind != KeyEventKind::Release && key.code == KeyCode::Char('u') && key.alt
            && !key.ctrl ==> after_key(s, key, false, now).0.unpair_arm == s.unpair_arm,
{
}

// ---- discovery -----------------------------------------------------------------------------------------

/// An action stops the discovery, and it goes on once the last action is done.
pub proof fn discovery_goes_on_after_the_last_action(a: Activity)
    requires
        a.inflight < usize::MAX,
    ensures
        !after_event(a, Event::Begin).discovering,
        after_event(a, Event::Begin).inflight == a.inflight + 1,
        !resumes(after_event(a, Event::Begin)),
        resumes(after_event(after_event(a, Event::Begin), Event::Done)) <==> a.inflight == 0,
        after_event(a, Event::Discovery(true)).discovering,
        !after_event(a, Event::Discovery(false)).discovering,
        resumes(a) <==> !a.discovering && a.inflight == 0,
{
}

// ---- what is shown ---------------------------------------------------------------------------------------

/// A device is printed with its address, its state, its signal, its charge, its sort and
/// its name, each in its column.
pub proof fn devices_are_printed_in_columns(d: BtDeviceView, n: Seq<char>)
    requires
        d.address.len() == 17,
        d.name == Some(n),
        !d.trusted,
        d.rssi is None,
        d.battery is None,
        d.icon is None,
    ensures
        scan_row(d).take(17) == d.address,
        d.blocked ==> scan_row(d).subrange(18, 25) == "blocked"@,
        !d.blocked && d.connected ==> scan_row(d).subrange(18, 27) == "connected"@,
        scan_row(d).skip(60) == n,
{
    reveal_strlit("blocked");
    reveal_strlit("connected");
    reveal_strlit("paired");
    reveal_strlit("-");
    let row = scan_row(d);
    assert(row.take(17) =~= d.address);
    if d.blocked {
        assert(row.subrange(18, 25) =~= "blocked"@);
    } else if d.connected {
        assert(row.subrange(18, 27) =~= "connected"@);
    }
    assert(row.skip(60) =~= n);
}

/// The signal is printed in its column, and a trusted device with a mark behind its state.
pub proof fn devices_are_printed_with_their_signal(d: BtDeviceView, r: i16)
    requires
        d.address.len() == 17,
    ensures
        d.rssi == Some(r) && !d.trusted && signed_decimal(r as int).len() <= 5 ==> scan_row(
            d,
        ).subrange(31, 36) == right_aligned(signed_decimal(r as int), 5),
        d.trusted && !d.blocked && d.connected ==> scan_row(d).subrange(18, 29) == "connected"@
            + " ✓"@,
        d.trusted && d.blocked ==> scan_row(d).subrange(18, 27) == "blocked"@ + " ✓"@,
{
    reveal_strlit("blocked");
    reveal_strlit("connected");
    reveal_strlit("paired");
    reveal_strlit("-");
    reveal_strlit(" ✓");
    let row = scan_row(d);
    if d.rssi == Some(r) && !d.trusted && signed_decimal(r as int).len() <= 5 {
        assert(row.subrange(31, 36) =~= right_aligned(signed_decimal(r as int), 5));
    }
    if d.trusted && !d.blocked && d.connected {
        assert(row.subrange(18, 29) =~= "connected"@ + " ✓"@);
    }
    if d.trusted && d.blocked {
        assert(row.subrange(18, 27) =~= "blocked"@ + " ✓"@);
    }
}

/// The details tell of each state by itself whether it holds.
pub proof fn details_tell_each_state(d: BtDeviceView)
    ensures
        detail_lines(d)[1][1].text == (if d.paired {
            "yes"@
        } else {
            "no"@
        }),
        detail_lines(d)[1][3].text == (if d.connected {
            "yes"@
        } else {
            "no"@
        }),
        detail_lines(d)[1][5].text == (if d.trusted {
            "yes"@
        } else {
            "no"@
        }),
        detail_lines(d)[1][7].text == (if d.blocked {
            "yes"@
        } else {
            "no"@
        }),
        detail_lines(d)[0][3].text == d.address,
        detail_lines(d)[1][0].text == "paired "@ && detail_lines(d)[1][2].text == "   connected "@
            && detail_lines(d)[1][4].text == "   trusted "@ && detail_lines(d)[1][6].text
            == "   blocked "@,
{
    reveal_strlit("yes");
    reveal_strlit("no");
    plain_text_is_shown_as_is("yes"@);
    plain_text_is_shown_as_is("no"@);
}

/// The row of a device shows its signal in four bars, its charge and its state, and is faint
/// where nothing is known of the device.
pub proof fn rows_show_the_device(d: BtDeviceView, q: Seq<char>, i: int)
    requires
        0 <= i < 4,
    ensures
        d.rssi is Some ==> list_row(d, q).signal.len() == 4 && (list_row(d, q).signal[i] == ' ' <==> i
            >= bars(d.rssi->0 as int)),
        d.battery is Some ==> list_row(d, q).battery == decimal(d.battery->0 as nat) + "%"@,
        list_row(d, q).state == state_text(d),
        list_row(d, q).faint <==> !d.connected && !d.paired && d.name is None && d.icon is None,
{
}

/// A request that waits is shown before anything else, with what has been typed; a message
/// is shown for four seconds.
pub proof fn the_status_shows_what_matters(s: StateView, msg: Seq<char>, since: u64, now: u64, filled: nat)
    requires
        since <= now,
    ensures
        s.prompt is Some && ((s.prompt->0).kind == PromptKind::Pin || (s.prompt->0).kind
            == PromptKind::Passkey) ==> status_segments(s, now, filled)[2].text == s.prompt_input
            && status_segments(s, now, filled)[1].text == (s.prompt->0).message + " "@,
        s.prompt is None && s.unpair_arm is None && s.status == Some((msg, since)) && now - since
            < 4 * 1_000_000_000 ==> status_segments(s, now, filled).len() == 1 && status_segments(
            s,
            now,
            filled,
        )[0].text == " "@ + msg && status_segments(s, now, filled)[0].tone == Tone::Warn,
        s.prompt is None && s.unpair_arm is None && s.status == Some((msg, since)) && now - since
            >= 4 * 1_000_000_000 ==> status_segments(s, now, filled) == status_segments(
            StateView { status: None, ..s },
            now,
            filled,
        ),
{
}

/// What holds where nothing else is configured.
pub proof fn defaults_are_as_documented()
    ensures
        default_config().limit == 1000,
        default_config().layout == Layout::Top,
        default_config().preview,
{
}

/// What a key begins is said, with the name of the device.
pub proof fn keys_say_what_they_begin(
    s: StateView,
    i: usize,
    key: KeyEvent,
    enhanced: bool,
    now: u64,
    name: Seq<char>,
)
    requires
        s.prompt is None,
        s.selected == Some(i),
        i < s.results.len(),
        s.results[i as int].name == Some(name),
        key.kind != KeyEventKind::Release,
    ensures
        ({
            let d = s.results[i as int];
            let t = after_key(s, key, enhanced, now).0;
            &&& key.code == KeyCode::Enter && d.connected ==> t.status == Some(
                ("disconnecting "@ + name + "…"@, now),
            )
            &&& key.code == KeyCode::Enter && !d.connected ==> t.status == Some(
                ("connecting "@ + name + "…"@, now),
            )
            &&& key.code == KeyCode::Char('t') && key.ctrl && !key.alt && d.trusted ==> t.status
                == Some(("untrusting "@ + name + "…"@, now))
            &&& key.code == KeyCode::Char('t') && key.ctrl && !key.alt && !d.trusted ==> t.status
                == Some(("trusting "@ + name + "…"@, now))
            &&& key.code == KeyCode::Char('b') && key.alt && !key.ctrl && d.blocked ==> t.status
                == Some(("unblocking "@ + name + "…"@, now))
            &&& key.code == KeyCode::Char('b') && key.alt && !key.ctrl && !d.blocked ==> t.status
                == Some(("blocking "@ + name + "…"@, now))
            &&& key.code == KeyCode::Char('p') && key.alt && !key.ctrl ==> t.status == Some(
                ("pairing "@ + name + "… (it must be in pairing mode)"@, now),
            )
        }),
{
}

/// Ctrl-D leaves where nothing is typed, and otherwise does nothing; keys without a meaning
/// do nothing, in the list and while a request waits.
pub proof fn other_keys_do_nothing(s: StateView, key: KeyEvent, enhanced: bool, now: u64)
    requires
        key.kind != KeyEventKind::Release,
    ensures
        s.prompt is None && key.code == KeyCode::Char('d') && key.ctrl && !key.alt
            && s.line.text().len() == 0 ==> after_key(s, key, enhanced, now).1 is Quit,
        s.prompt is None && key.code == KeyCode::Char('d') && key.ctrl && !key.alt
            && s.line.text().len() > 0 ==> after_key(s, key, enhanced, now) == (
            s,
            StepView::Continue,
        ),
        key.code == KeyCode::Other || key.code == KeyCode::Tab ==> after_key(
            s,
            key,
            enhanced,
            now,
        ) == (s, StepView::Continue),
        s.prompt is Some && (key.code == KeyCode::Up || key.code == KeyCode::Down) ==> after_key(
            s,
            key,
            enhanced,
            now,
        ) == (s, StepView::Continue),
        s.prompt is Some && (s.prompt->0).kind == PromptKind::Confirm && key.code == KeyCode::Char(
            'x',
        ) ==> after_key(s, key, enhanced, now) == (s, StepView::Continue),
        s.prompt is Some && (s.prompt->0).kind == PromptKind::Passkey && key.code == KeyCode::Char(
            'x',
        ) ==> after_key(s, key, enhanced, now) == (s, StepView::Continue),
{
}

/// What a device can do goes by these names.
pub proof fn uses_have_names()
    ensures
        profile_name(Profile::AudioOut) == "Audio out"@,
        profile_name(Profile::AudioIn) == "Audio in"@,
        profile_name(Profile::Mic) == "Mic"@,
        profile_name(Profile::MediaKeys) == "Media keys"@,
        profile_name(Profile::Input) == "Input"@,
{
}

/// A signal at its best shows bars that grow; one that is not known shows a dot.
pub proof fn the_best_signal_shows_all_bars(r: i16)
    requires
        r >= -50,
    ensures
        signal_text(Some(r)) == seq!['▁', '▃', '▅', '▇'],
        signal_text(None) == "·"@,
{
    assert(signal_text(Some(r)) =~= seq!['▁', '▃', '▅', '▇']);
}

/// The hold is shown by as many of five cells as are filled.
pub proof fn the_hold_is_shown_in_cells(filled: nat, i: int)
    requires
        0 <= i < 5,
    ensures
        meter_cells(filled).len() == 5,
        meter_cells(filled)[i] == '▰' <==> i < filled,
{
}

/// What is not known of a device is shown so.
pub proof fn what_is_missing_is_shown(d: BtDeviceView, q: Seq<char>)
    ensures
        d.name is None ==> list_row(d, q).name == cell_runs("(unknown)"@, q),
        d.name is Some ==> list_row(d, q).name == cell_runs(d.name->0, q),
        d.icon is None ==> list_row(d, q).icon == cell_runs("-"@, q),
        d.icon is Some ==> list_row(d, q).icon == cell_runs(d.icon->0, q),
        d.battery is None ==> list_row(d, q).battery == "·"@,
        list_row(d, q).address == cell_runs(d.address, q),
{
}

} // verus!
