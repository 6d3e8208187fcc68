//! Bluetooth: the model, the engine's decisions and the picker.

use levelup::gorm::config::{load_or_default, Config};
use levelup::gorm::device::{BtDevice, Cmd, Fact, Profile, Prompt, PromptKind};
use levelup::gorm::engine::{
    action_for, alias_is_name, confirmation_prompt, confirmed, display_prompt, entered_passkey,
    passkey_prompt, pin_prompt, read_device, Activity, Reads,
};
use levelup::gorm::picker::{
    meter, signal_cell, state_cell, State, Step, UNPAIR_HOLD, UNPAIR_RELEASE_GAP,
};
use levelup::gorm::scan::{device_line, header_line, known_line};
use levelup::oui::Vendors;
use levelup::ui::clock::SECOND;
use levelup::ui::config::{Layout, Loaded};
use levelup::ui::keys::{KeyCode, KeyEvent, KeyEventKind};
use levelup::ui::picker::{Segment, Tone};

fn device(n: u8) -> BtDevice {
    BtDevice {
        address: format!("AA:00:00:00:00:{n:02X}"),
        name: Some(format!("dev{n}")),
        paired: false,
        connected: false,
        trusted: false,
        blocked: false,
        rssi: None,
        icon: None,
        vendor: None,
        battery: None,
        profiles: vec![],
    }
}

// ---- the model --------------------------------------------------------------------

#[test]
fn profiles_are_listed_once_and_in_order() {
    let p = Profile::from_uuids(&vec![0x1124, 0x110b, 0x110b, 0x110e, 0x1234]);
    let names: Vec<&str> = p.iter().map(|p| p.label()).collect();
    assert_eq!(names, vec!["Audio out", "Media keys", "Input"]);
    assert!(Profile::from_uuids(&vec![]).is_empty());
    let mut d = device(1);
    d.profiles = p;
    assert_eq!(d.profile_summary(), "Audio out · Media keys · Input");
}

#[test]
fn devices_have_a_state() {
    let mut d = device(1);
    assert_eq!(d.state_label(), "-");
    d.paired = true;
    assert_eq!(d.state_label(), "paired");
    d.connected = true;
    assert_eq!(d.state_label(), "connected");
    assert_eq!(state_cell(&d), "conn");
    d.trusted = true;
    assert_eq!(state_cell(&d), "conn ✓");
    d.blocked = true;
    assert_eq!(d.state_label(), "blocked");
    assert_eq!(state_cell(&d), "blocked");
}

#[test]
fn searches_look_at_what_a_device_is() {
    let mut d = device(1);
    d.icon = Some("audio-headset".into());
    d.vendor = Some("Sony".into());
    let hay = d.haystack();
    for part in ["AA:00:00:00:00:01", "dev1", "audio-headset", "Sony"] {
        assert!(hay.contains(part), "{hay}");
    }
}

// ---- the engine ---------------------------------------------------------------------

#[test]
fn commands_have_verbs() {
    let verb = |c: Cmd| action_for(&c).map(|a| (a.0, a.1));
    let a = || "A".to_string();
    assert_eq!(verb(Cmd::Connect(a())), Some((a(), "connect")));
    assert_eq!(verb(Cmd::Disconnect(a())), Some((a(), "disconnect")));
    assert_eq!(verb(Cmd::SetTrusted(a(), true)), Some((a(), "trust")));
    assert_eq!(verb(Cmd::SetTrusted(a(), false)), Some((a(), "untrust")));
    assert_eq!(verb(Cmd::SetBlocked(a(), true)), Some((a(), "block")));
    assert_eq!(verb(Cmd::SetBlocked(a(), false)), Some((a(), "unblock")));
    assert_eq!(verb(Cmd::Pair(a())), Some((a(), "pair")));
    assert_eq!(verb(Cmd::Unpair(a())), Some((a(), "unpair")));
    assert_eq!(verb(Cmd::AnswerPrompt(None)), None);
}

#[test]
fn discovery_yields_to_actions() {
    let mut a = Activity::new(true);
    assert!(a.discovering);
    a.begin();
    assert!(!a.discovering);
    a.begin();
    assert!(!a.tick());
    a.done();
    assert!(!a.tick());
    a.done();
    assert!(a.tick());
    a.discovery(true);
    assert!(a.discovering);
    assert!(!a.tick());
}

#[test]
fn pairing_asks_in_words() {
    let p = confirmation_prompt("AA", 42);
    assert_eq!(p.message, "pair AA? passkey 000042 — Enter confirm · Esc reject");
    assert_eq!(p.kind, PromptKind::Confirm);
    assert_eq!(passkey_prompt("AA").message, "pair AA — type passkey · Enter · Esc reject");
    assert_eq!(pin_prompt("AA").message, "pair AA — type PIN · Enter · Esc reject");
    assert_eq!(display_prompt("AA", 1234567).message, "enter 1234567 on AA");
    assert!(confirmed(&Some(String::new())));
    assert!(!confirmed(&None));
    assert_eq!(entered_passkey(&Some(" 000123 ".into())), Some(123));
    assert_eq!(entered_passkey(&Some("4294967295".into())), Some(u32::MAX));
    assert_eq!(entered_passkey(&Some("4294967296".into())), None);
    assert_eq!(entered_passkey(&Some("".into())), None);
    assert_eq!(entered_passkey(&None), None);
}

#[test]
fn an_address_is_no_name() {
    assert!(alias_is_name("AA:BB", "Speaker"));
    assert!(!alias_is_name("AA:BB", "AA-BB"));
    assert!(alias_is_name("AA:BB", "AA:BB"));
    assert!(!alias_is_name("AA:BB", ""));
}

// ---- the picker -----------------------------------------------------------------------

fn reads(address: &str) -> Reads {
    Reads {
        address: address.to_string(),
        alias: None,
        name: None,
        paired: None,
        connected: None,
        trusted: None,
        blocked: None,
        rssi: None,
        icon: None,
        battery: None,
        short_uuids: vec![],
    }
}

#[test]
fn what_is_not_said_counts_as_no() {
    let d = read_device(reads("6B:73:4B:81:C5:59"), &None);
    assert_eq!(d.address, "6B:73:4B:81:C5:59");
    assert_eq!((d.name, d.vendor), (None, None));
    assert_eq!((d.paired, d.connected, d.trusted, d.blocked), (false, false, false, false));
    assert!(d.profiles.is_empty());
}

#[test]
fn devices_are_read_with_their_maker() {
    let d = read_device(
        Reads {
            alias: Some("A4-83-E7-11-22-33".into()),
            name: Some("Desk".into()),
            paired: Some(true),
            trusted: Some(false),
            rssi: Some(-40),
            icon: Some("audio-card".into()),
            battery: Some(80),
            short_uuids: vec![0x110b],
            ..reads("A4:83:E7:11:22:33")
        },
        &Vendors::load(),
    );
    assert_eq!(d.name.as_deref(), Some("Desk"));
    assert_eq!(d.vendor.as_deref(), Some("Apple, Inc"));
    assert_eq!((d.paired, d.connected, d.trusted), (true, false, false));
    assert_eq!((d.rssi, d.battery, d.icon.as_deref()), (Some(-40), Some(80), Some("audio-card")));
    assert_eq!(d.profile_summary(), "Audio out");
    let named = Reads {
        alias: Some("Mine".into()),
        name: Some("Desk".into()),
        ..reads("A4:83:E7:11:22:33")
    };
    assert_eq!(read_device(named, &None).name.as_deref(), Some("Mine"));
}

fn key(code: KeyCode, ctrl: bool, alt: bool, kind: KeyEventKind) -> KeyEvent {
    KeyEvent { code, ctrl, alt, shift: false, kind }
}

fn press(code: KeyCode) -> KeyEvent {
    key(code, false, false, KeyEventKind::Press)
}

fn alt(c: char) -> KeyEvent {
    key(KeyCode::Char(c), false, true, KeyEventKind::Press)
}

fn text(line: &[Segment]) -> String {
    line.iter().map(|s| s.text.as_str()).collect()
}

fn picker() -> State {
    let mut s = State::new(true, SECOND);
    let mut near = device(1);
    near.rssi = Some(-40);
    let mut paired = device(2);
    paired.paired = true;
    let mut linked = device(3);
    linked.connected = true;
    linked.paired = true;
    let mut beacon = device(4);
    beacon.name = None;
    s.apply(Fact::Adapter { name: "hci0".into() }, SECOND);
    s.apply(Fact::Snapshot(vec![beacon, near, paired, linked]), SECOND);
    s.refresh();
    s
}

fn listed(s: &State) -> Vec<char> {
    s.results.iter().map(|d| d.address.chars().last().unwrap()).collect()
}

#[test]
fn devices_in_use_come_first() {
    let s = picker();
    assert_eq!(listed(&s), vec!['3', '2', '1', '4']);
    assert_eq!(s.selected, Some(0));
    let rows = s.list_rows();
    assert_eq!(rows[0].state, "conn");
    assert_eq!(rows[2].signal, "▁▃▅▇");
    assert_eq!(rows[3].name[0].text, "(unknown)");
    assert!(rows[3].faint);
    assert!(!rows[0].faint);
}

#[test]
fn a_snapshot_replaces_the_one_before() {
    let mut s = picker();
    s.apply(Fact::Snapshot(vec![device(7), device(7)]), 0);
    s.refresh();
    assert_eq!(listed(&s), vec!['7']);
    s.apply(Fact::Snapshot(vec![]), 0);
    s.refresh();
    assert_eq!(s.selected, None);
    assert!(s.detail().is_none());
}

#[test]
fn keys_command_the_engine() {
    let mut s = picker();
    assert!(matches!(s.handle_key(press(KeyCode::Enter), true, 0),
        Step::Send(Cmd::Disconnect(a)) if a == "AA:00:00:00:00:03"));
    assert_eq!(text(&s.status_line(0, 0)), " disconnecting dev3…");
    s.handle_key(press(KeyCode::Down), true, 0);
    assert!(matches!(s.handle_key(press(KeyCode::Enter), true, 0),
        Step::Send(Cmd::Connect(a)) if a == "AA:00:00:00:00:02"));
    assert!(matches!(s.handle_key(alt('p'), true, 0), Step::Send(Cmd::Pair(_))));
    assert!(matches!(s.handle_key(alt('b'), true, 0), Step::Send(Cmd::SetBlocked(_, true))));
    let trust = key(KeyCode::Char('t'), true, false, KeyEventKind::Press);
    assert!(matches!(s.handle_key(trust, true, 0), Step::Send(Cmd::SetTrusted(_, true))));
    assert!(matches!(s.handle_key(press(KeyCode::Esc), true, 0), Step::Quit));
    let detail = key(KeyCode::Char('v'), true, false, KeyEventKind::Press);
    s.handle_key(detail, true, 0);
    assert!(!s.show_detail);
    assert_eq!(
        text(&s.status_line(60 * SECOND, 0)),
        " 4 · hci0 · Enter (dis)connect · M-p pair · hold M-u forget · ^T trust · M-b block · ^V \
         detail · Esc"
    );
}

#[test]
fn a_tap_forgets_nothing() {
    let mut s = picker();
    s.handle_key(alt('u'), true, SECOND);
    assert_eq!(s.held_for(SECOND + 5), Some(5));
    assert!(s.tick(true, SECOND + UNPAIR_HOLD - 1).is_none());
    assert!(text(&s.status_line(SECOND, 2)).ends_with("dev3  ▰▰▱▱▱"));
    s.handle_key(key(KeyCode::Char('u'), false, true, KeyEventKind::Release), true, SECOND);
    assert!(s.tick(true, SECOND + UNPAIR_HOLD).is_none());
    assert_eq!(s.held_for(SECOND), None);
}

#[test]
fn a_hold_forgets_one_device() {
    let mut s = picker();
    s.handle_key(alt('u'), true, SECOND);
    assert!(matches!(s.tick(true, SECOND + UNPAIR_HOLD),
        Some(Cmd::Unpair(a)) if a == "AA:00:00:00:00:03"));
    // Held on, it does not forget the next one.
    s.handle_key(alt('u'), true, SECOND + UNPAIR_HOLD + 1);
    assert!(s.tick(true, 10 * SECOND).is_none());
    assert_eq!(text(&s.status_line(SECOND + UNPAIR_HOLD, 0)), " forgetting dev3…");
}

#[test]
fn a_gap_counts_as_a_release() {
    let mut s = picker();
    s.handle_key(alt('u'), false, SECOND);
    assert!(s.tick(false, SECOND + UNPAIR_RELEASE_GAP + 1).is_none());
    assert_eq!(s.held_for(SECOND + UNPAIR_RELEASE_GAP + 1), None);
    // Reports that keep coming hold on.
    let mut t = 2 * SECOND;
    while t < 2 * SECOND + UNPAIR_HOLD {
        s.handle_key(alt('u'), false, t);
        assert!(s.tick(false, t).is_none());
        t += UNPAIR_RELEASE_GAP / 2;
    }
    s.handle_key(alt('u'), false, t);
    assert!(s.tick(false, t).is_some());
}

#[test]
fn requests_take_the_keys() {
    let mut s = picker();
    s.apply(Fact::AgentPrompt(passkey_prompt("AA:00:00:00:00:01")), 0);
    for c in ['1', 'x', '2'] {
        assert!(matches!(s.handle_key(press(KeyCode::Char(c)), true, 0), Step::Continue));
    }
    assert_eq!(s.prompt_input, "12");
    s.handle_key(press(KeyCode::Backspace), true, 0);
    assert_eq!(
        text(&s.status_line(0, 0)),
        " pair AA:00:00:00:00:01 — type passkey · Enter · Esc reject 1▏"
    );
    assert!(matches!(s.handle_key(press(KeyCode::Enter), true, 0),
        Step::Send(Cmd::AnswerPrompt(Some(t))) if t == "1"));
    assert!(s.prompt.is_none());
    s.apply(Fact::AgentPrompt(pin_prompt("AA")), 0);
    s.handle_key(press(KeyCode::Char('x')), true, 0);
    assert_eq!(s.prompt_input, "x");
    assert!(matches!(s.handle_key(press(KeyCode::Esc), true, 0),
        Step::Send(Cmd::AnswerPrompt(None))));
    s.apply(Fact::AgentPrompt(confirmation_prompt("AA:00:00:00:00:01", 7)), 0);
    let line = s.status_line(0, 0);
    assert!(text(&line).starts_with(" dev1: pair AA:00:00:00:00:01? passkey 000007"));
    assert_eq!(line[0].tone, Tone::Warn);
    assert!(matches!(s.handle_key(press(KeyCode::Char('y')), true, 0),
        Step::Send(Cmd::AnswerPrompt(Some(t))) if t.is_empty()));
    // A notice takes no keys.
    s.apply(Fact::AgentPrompt(display_prompt("AA", 7)), 0);
    assert!(s.prompt.is_none());
    assert_eq!(text(&s.status_line(0, 0)), " enter 000007 on AA");
}

#[test]
fn results_are_told() {
    let mut s = picker();
    s.prompt = Some(Prompt {
        address: "AA".into(),
        kind: PromptKind::Confirm,
        message: "?".into(),
    });
    s.apply(
        Fact::ActionResult { address: "AA:00:00:00:00:01".into(), verb: "connect", error: None },
        0,
    );
    assert!(s.prompt.is_none());
    assert_eq!(text(&s.status_line(0, 0)), " dev1: connect ✓");
    s.apply(
        Fact::ActionResult { address: "XX".into(), verb: "pair", error: Some("no".into()) },
        0,
    );
    assert_eq!(text(&s.status_line(0, 0)), " XX: pair failed — no");
    s.apply(Fact::Error("gone".into()), 0);
    assert_eq!(text(&s.status_line(0, 0)), " gone");
}

#[test]
fn gorm_typing_searches() {
    let mut s = picker();
    for c in "dev2".chars() {
        s.handle_key(press(KeyCode::Char(c)), true, 0);
    }
    s.refresh();
    assert_eq!(listed(&s)[0], '2');
    assert!(s.selected_addr().is_some());
}

#[test]
fn details_show_the_selected_device() {
    let s = picker();
    let lines: Vec<String> = s
        .detail()
        .unwrap()
        .iter()
        .map(|l| l.iter().map(|p| p.text.as_str()).collect())
        .collect();
    assert_eq!(lines[0], "name dev3   addr AA:00:00:00:00:03   type -");
    assert_eq!(lines[1], "paired yes   connected yes   trusted no   blocked no");
    assert_eq!(lines[2], "rssi —   battery —");
}

#[test]
fn gauges() {
    assert_eq!(meter(0), "▱▱▱▱▱");
    assert_eq!(meter(9), "▰▰▰▰▰");
    assert_eq!(signal_cell(None), "·");
    assert_eq!(signal_cell(Some(-50)), "▁▃▅▇");
    assert_eq!(signal_cell(Some(-51)), "▁▃▅ ");
    assert_eq!(signal_cell(Some(-78)), "▁▃  ");
    assert_eq!(signal_cell(Some(-90)), "▁   ");
    assert_eq!(signal_cell(Some(-91)), "    ");
}

#[test]
fn known_devices_are_printed() {
    assert_eq!(
        header_line(),
        "ADDRESS           STATE         RSSI  BATT TYPE             NAME"
    );
    let mut d = device(1);
    d.trusted = true;
    d.paired = true;
    d.battery = Some(80);
    d.rssi = Some(-71);
    assert_eq!(
        device_line(&d),
        "AA:00:00:00:00:01 paired ✓       -71   80% -                dev1"
    );
    assert_eq!(known_line(2), "2 device(s) known");
}

#[test]
fn gorm_defaults_of_the_picker() {
    let c = load_or_default(Loaded::NoPath);
    assert_eq!(c, Config::default());
    assert_eq!((c.limit, c.layout, c.preview), (1000, Layout::Top, true));
}
