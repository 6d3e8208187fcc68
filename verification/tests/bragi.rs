//! The audio graph and its picker.

use levelup::bragi::config::{load_or_default, Config};
use levelup::bragi::engine::{interest, Event, Graph, Interest, ObjectType, Reaction};
use levelup::bragi::graph::{
    default_node_name, parse_props, parse_route, Cmd, Destination, NodeParam, Plan, Props,
    RouteParam, Routes,
};
use levelup::bragi::picker::{gauge, State, Step};
use levelup::bragi::state::{AudioState, NodeKind, Volume};
use levelup::ui::clock::SECOND;
use levelup::ui::config::Loaded;
use levelup::ui::keys::{KeyCode, KeyEvent, KeyEventKind};
use levelup::ui::picker::Tone;

fn props(items: &[(&str, &str)]) -> Props {
    Props { items: items.iter().map(|(k, v)| (k.to_string(), v.to_string())).collect() }
}

fn volume(percent: u32) -> Volume {
    Volume { bits: (percent as f32 / 100.0).to_bits(), percent, cells: (percent / 20) as usize }
}

fn graph() -> AudioState {
    let mut a = AudioState::new();
    a.add_node(
        40,
        NodeKind::Sink,
        &props(&[
            ("node.name", "alsa.spk"),
            ("node.description", "Speakers"),
            ("object.serial", "400"),
            ("device.id", "7"),
            ("card.profile.device", "3"),
        ]),
    );
    a.add_node(41, NodeKind::Sink, &props(&[("node.name", "bt.head"), ("node.nick", "Head")]));
    a.add_node(42, NodeKind::Source, &props(&[("node.name", "mic")]));
    a.add_node(
        50,
        NodeKind::Playback,
        &props(&[("app.name", "Player"), ("node.name", "mpv"), ("media.name", "song")]),
    );
    assert!(a.add_link(90, &props(&[("link.output.node", "50"), ("link.input.node", "40")])));
    a.set_default(&Some("default.audio.sink".into()), &Some("{\"name\":\"alsa.spk\"}".into()));
    a.node_levels(40, Some((volume(40), 2)), Some(false));
    a
}

// ---- the graph ------------------------------------------------------------------------

#[test]
fn media_classes_are_kinds() {
    assert_eq!(NodeKind::from_media_class("Audio/Sink"), Some(NodeKind::Sink));
    assert_eq!(NodeKind::from_media_class("Audio/Source"), Some(NodeKind::Source));
    assert_eq!(NodeKind::from_media_class("Stream/Output/Audio"), Some(NodeKind::Playback));
    assert_eq!(NodeKind::from_media_class("Stream/Input/Audio"), Some(NodeKind::Record));
    assert_eq!(NodeKind::from_media_class("Video/Source"), None);
    assert_eq!(NodeKind::Record.label(), "rec");
    assert!(NodeKind::Source.is_device());
    assert!(!NodeKind::Playback.is_device());
    assert_eq!(props(&[("media.class", "Audio/Sink")]).audio_kind(), Some(NodeKind::Sink));
    assert_eq!(props(&[]).audio_kind(), None);
    assert!(props(&[("media.class", "Audio/Device")]).is_audio_device());
    assert!(props(&[("metadata.name", "default")]).is_default_metadata());
    assert!(!props(&[("metadata.name", "settings")]).is_default_metadata());
}

#[test]
fn nodes_have_names() {
    let a = graph();
    let name = |id: u32| a.nodes.get(&id).unwrap().name.clone();
    assert_eq!(name(40), "Speakers");
    assert_eq!(name(41), "Head");
    assert_eq!(name(42), "mic");
    assert_eq!(name(50), "Player");
    assert_eq!(props(&[]).display_name(NodeKind::Playback), "(unnamed)");
    let n = a.nodes.get(&40).unwrap();
    assert_eq!((n.serial, n.device_id, n.route_device), (Some(400), Some(7), Some(3)));
    assert_eq!(n.volume, Some(volume(40)));
}

#[test]
fn links_say_where_streams_go() {
    let mut a = graph();
    let stream = a.nodes.get(&50).unwrap().duplicate();
    let sink = a.nodes.get(&40).unwrap().duplicate();
    assert_eq!(a.target_id(&stream), Some(40));
    assert_eq!(a.target_of(&stream).map(|n| n.id), Some(40));
    assert_eq!(a.target_id(&sink), None);
    assert_eq!(a.streams_of(&sink).iter().map(|n| n.id).collect::<Vec<_>>(), vec![50]);
    assert!(!a.add_link(91, &props(&[("link.output.node", "50")])));
    assert!(a.remove_object(90));
    assert!(!a.remove_object(90));
    assert_eq!(a.target_id(&stream), None);
    assert!(a.remove_object(40));
    assert!(a.nodes.get(&40).is_none());
    assert!(a.nodes.get(&41).is_some());
}

#[test]
fn defaults_come_as_json() {
    let mut a = graph();
    let n = a.nodes.get(&40).unwrap().duplicate();
    let other = a.nodes.get(&41).unwrap().duplicate();
    assert!(a.is_default(&n));
    assert!(!a.is_default(&other));
    assert_eq!(default_node_name("{\"name\": \"a \\\"b\\\"\"}").as_deref(), Some("a \"b\""));
    assert_eq!(default_node_name("{\"name\": 3}"), None);
    assert_eq!(default_node_name("{}"), None);
    assert_eq!(default_node_name("nonsense"), None);
    assert!(!a.set_default(&Some("default.video.sink".into()), &None));
    assert!(!a.set_default(&None, &None));
    assert!(a.set_default(&Some("default.audio.sink".into()), &None));
    assert!(!a.is_default(&n));
    assert!(a.set_default(&Some("default.audio.source".into()), &Some("{\"name\":\"mic\"}".into())));
    let mic = a.nodes.get(&42).unwrap().duplicate();
    assert!(a.is_default(&mic));
}

#[test]
fn news_of_a_node() {
    let mut a = graph();
    assert!(a.node_info(50, &props(&[("media.name", "other song"), ("device.id", "9")])));
    assert!(!a.node_info(50, &props(&[("media.name", "other song")])));
    assert!(!a.node_info(77, &props(&[("media.name", "x")])));
    let n = a.nodes.get(&50).unwrap();
    assert_eq!(n.detail.as_deref(), Some("other song"));
    assert_eq!(n.device_id, Some(9));
    assert!(!a.node_levels(50, None, None));
    assert!(!a.node_levels(77, None, Some(true)));
    assert!(a.node_levels(50, None, Some(true)));
    assert!(a.nodes.get(&50).unwrap().mute);
    assert!(a.settle(true));
    assert!(!a.settle(true));
    assert!(a.complete);
}

#[test]
fn parameters_are_read() {
    let (v, m) = parse_props(&vec![
        NodeParam::Other,
        NodeParam::Volumes(Some((volume(20), 1))),
        NodeParam::Mute(true),
        NodeParam::Volumes(Some((volume(60), 2))),
    ]);
    assert_eq!(v, Some((volume(60), 2)));
    assert_eq!(m, Some(true));
    assert_eq!(parse_route(&vec![RouteParam::Index(4), RouteParam::Device(2)]), Some((4, 2)));
    assert_eq!(parse_route(&vec![RouteParam::Index(4), RouteParam::Other]), None);
}

#[test]
fn commands_become_plans() {
    let a = graph();
    match a.handle_cmd(&Cmd::AdjustVolume { node: 40, percent: 5 }, false) {
        Plan::Volume { node, from, percent, channels } => {
            assert_eq!((node, from, percent, channels), (40, volume(40), 5, 2));
        }
        _ => panic!(),
    }
    assert!(matches!(
        a.handle_cmd(&Cmd::AdjustVolume { node: 41, percent: 5 }, true),
        Plan::Nothing
    ));
    assert!(matches!(
        a.handle_cmd(&Cmd::ToggleMute { node: 40 }, false),
        Plan::Mute { node: 40, mute: true }
    ));
    match a.handle_cmd(&Cmd::Move { stream: 50, target: 40 }, true) {
        Plan::Metadata { subject, key, kind, value } => {
            assert_eq!((subject, key, kind, value.as_str()), (50, "target.object", "Spa:Id", "400"));
        }
        _ => panic!(),
    }
    match a.handle_cmd(&Cmd::Move { stream: 50, target: 41 }, true) {
        Plan::Metadata { value, .. } => assert_eq!(value, "bt.head"),
        _ => panic!(),
    }
    assert!(matches!(
        a.handle_cmd(&Cmd::Move { stream: 50, target: 40 }, false),
        Plan::Nothing
    ));
    assert!(matches!(a.handle_cmd(&Cmd::SetDefault { device: 50 }, true), Plan::Nothing));
}

#[test]
fn a_default_that_is_told_back_takes_effect() {
    let mut a = AudioState::new();
    let name = "odd \"name\"\\\n\u{1}é";
    a.add_node(1, NodeKind::Source, &props(&[("node.name", name)]));
    match a.handle_cmd(&Cmd::SetDefault { device: 1 }, true) {
        Plan::Metadata { subject, key, kind, value } => {
            assert_eq!((subject, key, kind), (0, "default.configured.audio.source", "Spa:String:JSON"));
            assert_eq!(value, "{\"name\":\"odd \\\"name\\\"\\\\\\n\\u0001é\"}");
            a.set_default(&Some("default.audio.source".into()), &Some(value));
        }
        _ => panic!(),
    }
    let n = a.nodes.get(&1).unwrap().duplicate();
    assert!(a.is_default(&n));
}

#[test]
fn devices_are_written_through_their_routes() {
    let a = graph();
    let mut r = Routes::new();
    assert!(matches!(a.write_target(40, &r), Destination::Node));
    r.add_card(7);
    assert!(matches!(a.write_target(40, &r), Destination::Node));
    r.set_route(7, 3, 5);
    assert_eq!(r.get(7, 3), Some(5));
    assert!(matches!(
        a.write_target(40, &r),
        Destination::Route { card: 7, device: 3, index: 5 }
    ));
    r.set_route(7, 3, 6);
    assert_eq!(r.get(7, 3), Some(6));
    assert!(matches!(a.write_target(50, &r), Destination::Node));
    r.remove_card(7);
    assert_eq!(r.get(7, 3), None);
}

// ---- the engine -----------------------------------------------------------------------

const QUIET: Reaction = Reaction { publish: false, sync: false };
const CHANGED: Reaction = Reaction { publish: true, sync: false };

#[test]
fn objects_are_told_apart() {
    let class = |c: &str| Some(props(&[("media.class", c)]));
    assert_eq!(interest(ObjectType::Node, &class("Audio/Sink")), Interest::Node(NodeKind::Sink));
    assert_eq!(interest(ObjectType::Node, &class("Midi/Bridge")), Interest::Nothing);
    assert_eq!(interest(ObjectType::Node, &Some(props(&[]))), Interest::Nothing);
    assert_eq!(interest(ObjectType::Node, &None), Interest::Nothing);
    assert_eq!(interest(ObjectType::Device, &class("Audio/Device")), Interest::Card);
    assert_eq!(interest(ObjectType::Device, &class("Video/Device")), Interest::Nothing);
    let named = |n: &str| Some(props(&[("metadata.name", n)]));
    assert_eq!(interest(ObjectType::Metadata, &named("default")), Interest::Defaults);
    assert_eq!(interest(ObjectType::Metadata, &named("settings")), Interest::Nothing);
    let ends = Some(props(&[("link.output.node", "50"), ("link.input.node", "40")]));
    assert_eq!(interest(ObjectType::Link, &ends), Interest::Link);
    let half = Some(props(&[("link.output.node", "50"), ("link.input.node", "forty")]));
    assert_eq!(interest(ObjectType::Link, &half), Interest::Nothing);
    assert_eq!(interest(ObjectType::Other, &class("Audio/Sink")), Interest::Nothing);
}

#[test]
fn the_start_ends_with_the_last_round_trip() {
    let mut g = Graph::new();
    assert!(!g.audio.complete);
    assert_eq!(g.handle(Event::SyncStarted { seq: 1 }), QUIET);
    let bound = Event::NodeBound { id: 40, kind: NodeKind::Sink, props: props(&[]) };
    assert_eq!(g.handle(bound), Reaction { publish: true, sync: true });
    assert_eq!(g.handle(Event::SyncStarted { seq: 2 }), QUIET);
    assert_eq!(g.handle(Event::SyncDone { core: true, seq: 1 }), QUIET);
    assert_eq!(g.handle(Event::SyncDone { core: false, seq: 2 }), QUIET);
    assert!(!g.audio.complete);
    assert_eq!(g.handle(Event::SyncDone { core: true, seq: 2 }), CHANGED);
    assert!(g.audio.complete);
    assert_eq!(g.handle(Event::SyncDone { core: true, seq: 2 }), QUIET);
    let late = Event::NodeBound { id: 41, kind: NodeKind::Sink, props: props(&[]) };
    assert_eq!(g.handle(late), CHANGED);
    assert!(g.audio.complete);
}

#[test]
fn changes_of_the_graph_are_published() {
    let mut g = Graph { audio: graph(), ..Graph::new() };
    assert_eq!(g.handle(Event::CardBound { id: 7 }), QUIET);
    assert_eq!(g.write_target(40), Destination::Node);
    let route = vec![RouteParam::Index(5), RouteParam::Other, RouteParam::Device(3)];
    assert_eq!(g.handle(Event::CardRoute { id: 7, params: route }), QUIET);
    assert_eq!(g.write_target(40), Destination::Route { card: 7, device: 3, index: 5 });
    assert_eq!(g.handle(Event::CardRoute { id: 7, params: vec![RouteParam::Index(6)] }), QUIET);
    assert_eq!(g.write_target(40), Destination::Route { card: 7, device: 3, index: 5 });

    let same = props(&[("media.name", "song")]);
    assert_eq!(g.handle(Event::NodeInfo { id: 50, props: same }), QUIET);
    let other = props(&[("media.name", "next song")]);
    assert_eq!(g.handle(Event::NodeInfo { id: 50, props: other }), CHANGED);
    assert_eq!(g.audio.nodes.get(&50).unwrap().detail.as_deref(), Some("next song"));

    assert_eq!(g.handle(Event::NodeParams { id: 50, params: vec![NodeParam::Other] }), QUIET);
    let muted = Event::NodeParams { id: 50, params: vec![NodeParam::Mute(true)] };
    assert_eq!(g.handle(muted), CHANGED);
    assert!(g.audio.nodes.get(&50).unwrap().mute);
    let gone = Event::NodeParams { id: 99, params: vec![NodeParam::Mute(true)] };
    assert_eq!(g.handle(gone), QUIET);

    let half = props(&[("link.output.node", "50")]);
    assert_eq!(g.handle(Event::Linked { id: 91, props: half }), QUIET);
    let whole = props(&[("link.output.node", "50"), ("link.input.node", "41")]);
    assert_eq!(g.handle(Event::Linked { id: 91, props: whole }), CHANGED);
    assert_eq!(g.audio.links.get(&91), Some(&(50, 41)));

    let told = Event::DefaultSet {
        key: Some("default.audio.sink".into()),
        value: Some("{\"name\":\"bt.head\"}".into()),
    };
    assert_eq!(g.handle(told), CHANGED);
    assert_eq!(g.audio.default_sink.as_deref(), Some("bt.head"));
    let unheard = Event::DefaultSet { key: Some("target.node".into()), value: None };
    assert_eq!(g.handle(unheard), QUIET);
}

#[test]
fn what_is_gone_leaves_nothing_behind() {
    let mut g = Graph { audio: graph(), ..Graph::new() };
    g.handle(Event::CardBound { id: 7 });
    g.handle(Event::CardRoute {
        id: 7,
        params: vec![RouteParam::Index(5), RouteParam::Device(3)],
    });
    assert!(matches!(g.command(&Cmd::SetDefault { device: 41 }), Plan::Nothing));
    g.handle(Event::DefaultsBound { id: 30 });
    assert!(matches!(g.command(&Cmd::SetDefault { device: 41 }), Plan::Metadata { .. }));

    assert_eq!(g.handle(Event::Removed { id: 30 }), QUIET);
    assert_eq!(g.metadata, None);
    assert!(matches!(g.command(&Cmd::SetDefault { device: 41 }), Plan::Nothing));
    assert_eq!(g.handle(Event::Removed { id: 7 }), QUIET);
    assert_eq!(g.write_target(40), Destination::Node);
    assert_eq!(g.handle(Event::Removed { id: 90 }), CHANGED);
    assert_eq!(g.handle(Event::Removed { id: 90 }), QUIET);
    assert_eq!(g.handle(Event::Removed { id: 40 }), CHANGED);
    assert!(g.audio.nodes.get(&40).is_none());
    assert!(matches!(g.command(&Cmd::ToggleMute { node: 40 }), Plan::Nothing));
}

#[test]
fn the_graph_is_printed() {
    let a = graph();
    let lines = a.table_lines();
    assert_eq!(lines[0], "TYPE      ID   VOL  NAME");
    assert_eq!(lines[1], "sink  *   40   40%  Speakers");
    assert_eq!(lines[2], "sink      41     -  Head");
    assert_eq!(lines[3], "source    42     -  mic");
    assert_eq!(lines[4], "stream    50     -  Player → Speakers  (song)");
    assert_eq!(lines.len(), 5);
}

// ---- the picker ---------------------------------------------------------------------------

fn key(code: KeyCode, ctrl: bool, alt: bool) -> KeyEvent {
    KeyEvent { code, ctrl, alt, shift: false, kind: KeyEventKind::Press }
}

fn press(code: KeyCode) -> KeyEvent {
    key(code, false, false)
}

fn picker() -> State {
    let mut s = State::new(true);
    s.update(graph());
    s.refresh();
    s
}

fn listed(s: &State) -> Vec<u32> {
    s.results.iter().map(|n| n.id).collect()
}

#[test]
fn nodes_are_listed_by_kind() {
    let mut s = picker();
    assert_eq!(listed(&s), vec![40, 41, 42, 50]);
    let rows = s.list_rows();
    assert_eq!(rows[0].tag[0].text, "sink *");
    assert_eq!(rows[0].level, "▮▮▯▯▯");
    assert_eq!(rows[0].percent, " 40%");
    assert_eq!(rows[3].name[0].text, "Player → Speakers  (song)");
    for c in "player".chars() {
        s.handle_key(press(KeyCode::Char(c)), 0);
    }
    s.refresh();
    assert_eq!(listed(&s), vec![50]);
}

#[test]
fn enter_does_the_obvious_thing() {
    let mut s = picker();
    assert_eq!(
        s.handle_key(press(KeyCode::Enter), 0),
        Step::Send(Cmd::SetDefault { device: 40 })
    );
    assert_eq!(s.status_line(0).0, " default sink → Speakers");
    s.handle_key(press(KeyCode::PageDown), 0);
    assert_eq!(s.handle_key(press(KeyCode::Enter), 0), Step::Continue);
    let c = s.chooser.as_ref().unwrap();
    assert_eq!(
        c.options,
        vec![(40, "Speakers  (current)".to_string()), (41, "Head".to_string())]
    );
    assert_eq!(c.sel, 0);
    assert_eq!(s.status_line(0).0, " move Player to…  ·  Enter move · Esc back");
    s.handle_key(press(KeyCode::Down), 0);
    s.handle_key(press(KeyCode::Down), 0);
    assert_eq!(
        s.handle_key(press(KeyCode::Enter), 0),
        Step::Send(Cmd::Move { stream: 50, target: 41 })
    );
    assert!(s.chooser.is_none());
    assert_eq!(s.status_line(0).0, " moving Player → Head");
}

#[test]
fn escape_backs_out() {
    let mut s = picker();
    s.handle_key(press(KeyCode::PageDown), 0);
    s.handle_key(press(KeyCode::Enter), 0);
    assert_eq!(s.handle_key(press(KeyCode::Esc), 0), Step::Continue);
    assert!(s.chooser.is_none());
    assert_eq!(s.handle_key(press(KeyCode::Esc), 0), Step::Quit);
}

#[test]
fn volumes_and_mutes() {
    let mut s = picker();
    assert_eq!(
        s.handle_key(key(KeyCode::Right, false, true), 0),
        Step::Send(Cmd::AdjustVolume { node: 40, percent: 5 })
    );
    let fine = KeyEvent { shift: true, ..key(KeyCode::Left, false, true) };
    assert_eq!(
        s.handle_key(fine, 0),
        Step::Send(Cmd::AdjustVolume { node: 40, percent: -1 })
    );
    assert_eq!(
        s.handle_key(key(KeyCode::Char('m'), false, true), 0),
        Step::Send(Cmd::ToggleMute { node: 40 })
    );
    s.handle_key(key(KeyCode::Char('v'), true, false), 0);
    assert!(!s.show_detail);
    assert_eq!(gauge(None), "  ·  ");
    assert_eq!(gauge(Some(volume(100))), "▮▮▮▮▮");
}

#[test]
fn details_follow_the_selection() {
    let mut s = picker();
    let text = |s: &State| -> Vec<String> {
        s.detail()
            .unwrap()
            .iter()
            .map(|l| l.iter().map(|p| p.text.as_str()).collect())
            .collect()
    };
    let d = text(&s);
    assert_eq!(d[0], "name Speakers   type sink (default)   id 40");
    assert_eq!(d[1], "vol 40%   muted no");
    assert_eq!(d[2], "streams Player   node alsa.spk");
    s.handle_key(press(KeyCode::PageDown), 0);
    let d = text(&s);
    assert_eq!(d[1], "vol —   muted no   playing song");
    assert_eq!(d[2], "→ Speakers   node mpv");
}

#[test]
fn a_lost_engine_is_told() {
    let mut s = picker();
    assert_eq!(
        s.status_line(9 * SECOND),
        (
            " 4 · Enter move/default · M-←/→ vol · M-m mute · ^V detail · Esc".to_string(),
            Tone::Dim
        )
    );
    s.engine_lost();
    assert_eq!(
        s.status_line(0),
        (" PipeWire connection lost — showing the last known state".to_string(), Tone::Warn)
    );
    assert_eq!(listed(&s), vec![40, 41, 42, 50]);
    assert_eq!(load_or_default(Loaded::Missing), Config::default());
}
