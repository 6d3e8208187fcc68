//! What the control of the audio graph promises from end to end: what becomes of the
//! events of PipeWire, what it is asked to do, and what is shown of that.

use vstd::prelude::*;
use crate::base::fuzzy::score_of;
use crate::bragi::dump::{row_of_kind, rows_of_kind, table_header, table_row, table_text};
use crate::base::sanitize::shown;
use crate::bragi::engine::{after_event, interest_in, EventView, GraphView, Interest, ObjectType};
use crate::bragi::graph::{
    destination, effective_key, friendly_name, json_char, json_escaped, json_field, json_object, last_device,
    last_index, last_mute, last_volume, link_ends, new_node, planned, prop,
    prop_from, with_default, with_info, Cmd, Destination, NodeParam, PlanView, RouteParam,
};
use crate::bragi::picker::{
    after_key, choosing, current_target, detail_lines, is_kept_selection, is_listing, list_row, listed_before,
    name_text, node_search_text, option_at, option_of, percent_text, routing_line, status_text, tag_text,
    wanted_kind, ChooserView, StateView, Step,
};
use crate::bragi::state::{
    device_streams, feeds, is_default_node, kind_name, kind_of_class, leads, leads_first,
    nothing_known, stream_of, target,
    AudioNodeView, AudioStateView, NodeKind, Volume,
};
use crate::number::{decimal, decimal_round_trip, digits_value};
use crate::table::{collected, collected_below};
use crate::text::has_prefix;
use crate::ui::keys::{KeyCode, KeyEvent, KeyEventKind};
use crate::ui::picker::Tone;

verus! {

// ---- the default device -----------------------------------------------------------------

/// The key under which PipeWire reports what was chosen under `configured`: the same
/// without the word that marks a choice.
pub open spec fn reported_key(configured: Seq<char>) -> Seq<char> {
    "default."@ + configured.skip("default.configured."@.len() as int)
}

/// The key of a choice is that under which it is reported, with the word that marks a
/// choice, and the keys of the two kinds differ.
pub proof fn keys_are_reported_back()
    ensures
        reported_key("default.configured.audio.sink"@) == "default.audio.sink"@,
        reported_key("default.configured.audio.source"@) == "default.audio.source"@,
        "default.audio.sink"@ != "default.audio.source"@,
        "default.configured.audio.sink"@ != "default.configured.audio.source"@,
{
    reveal_strlit("default.");
    reveal_strlit("default.configured.");
    reveal_strlit("default.configured.audio.sink");
    reveal_strlit("default.configured.audio.source");
    reveal_strlit("default.audio.sink");
    reveal_strlit("default.audio.source");
    assert("default.audio.sink"@.len() != "default.audio.source"@.len());
    assert("default.configured.audio.sink"@.len() != "default.configured.audio.source"@.len());
    assert(reported_key("default.configured.audio.sink"@) =~= "default.audio.sink"@);
    assert(reported_key("default.configured.audio.source"@) =~= "default.audio.source"@);
}

/// To make a device the default is to choose it under the key of its own kind: once
/// PipeWire reports the choice, the device is the default of its kind, and the default
/// of the other kind is what it was.
pub proof fn the_chosen_device_becomes_the_default(g: GraphView, device: u32)
    requires
        g.audio.nodes.dom().contains(device),
        ({
            let p = planned(g.audio, Cmd::SetDefault { device }, true);
            p matches PlanView::Metadata(subject, key, kind, value) ==> json_field(value, "name"@)
                == Some(g.audio.nodes[device].node_name)
        }),
    ensures
        ({
            let n = g.audio.nodes[device];
            let p = planned(g.audio, Cmd::SetDefault { device }, true);
            &&& n.kind == NodeKind::Sink || n.kind == NodeKind::Source <==> p is Metadata
            &&& !(p is Metadata) ==> p is Nothing
            &&& p matches PlanView::Metadata(subject, key, kind, value) ==> {
                let told = EventView::DefaultSet {
                    key: Some(reported_key(key)),
                    value: Some(value),
                };
                let after = after_event(g, told).0.audio;
                &&& subject == 0
                &&& has_prefix(key, "default.configured.audio."@)
                &&& is_default_node(after, n)
                &&& n.kind == NodeKind::Sink ==> after.default_sink == Some(n.node_name)
                    && after.default_source == g.audio.default_source
                &&& n.kind == NodeKind::Source ==> after.default_source == Some(n.node_name)
                    && after.default_sink == g.audio.default_sink
                &&& after.nodes == g.audio.nodes
                &&& after.links == g.audio.links
            }
        }),
{
    keys_are_reported_back();
    reveal_strlit("default.configured.audio.");
    reveal_strlit("default.configured.audio.sink");
    reveal_strlit("default.configured.audio.source");
    assert("default.configured.audio.sink"@.take(25) =~= "default.configured.audio."@);
    assert("default.configured.audio.source"@.take(25) =~= "default.configured.audio."@);
}

/// The key of a choice ends in the name of the kind that it is a choice of.
pub proof fn choices_name_the_kind(a: AudioStateView, device: u32)
    requires
        a.nodes.dom().contains(device),
        a.nodes[device].kind == NodeKind::Sink || a.nodes[device].kind == NodeKind::Source,
    ensures
        planned(a, Cmd::SetDefault { device }, true) is Metadata,
        planned(a, Cmd::SetDefault { device }, true)->Metadata_1 == "default.configured.audio."@
            + kind_name(a.nodes[device].kind),
        planned(a, Cmd::SetDefault { device }, true)->Metadata_2 == "Spa:String:JSON"@,
        planned(a, Cmd::SetDefault { device }, true)->Metadata_3 == json_object(
            "name"@,
            a.nodes[device].node_name,
        ),
{
    reveal_strlit("default.configured.audio.");
    reveal_strlit("default.configured.audio.sink");
    reveal_strlit("default.configured.audio.source");
    reveal_strlit("sink");
    reveal_strlit("source");
    assert("default.configured.audio."@ + "sink"@ =~= "default.configured.audio.sink"@);
    assert("default.configured.audio."@ + "source"@ =~= "default.configured.audio.source"@);
}

/// Nothing is written where PipeWire has no place for choices.
pub proof fn nothing_is_written_without_metadata(a: AudioStateView, cmd: Cmd)
    ensures
        !(planned(a, cmd, false) is Metadata),
        planned(a, cmd, true) is Metadata ==> cmd is SetDefault || cmd is Move,
        planned(a, cmd, true) is Volume ==> cmd is AdjustVolume,
        planned(a, cmd, true) is Mute ==> cmd is ToggleMute,
{
}

// ---- volume, mute and routing -------------------------------------------------------------

/// A mute is turned to what it is not, at the node that was asked for.
pub proof fn mutes_are_turned(a: AudioStateView, node: u32, has: bool)
    requires
        a.nodes.dom().contains(node),
    ensures
        planned(a, Cmd::ToggleMute { node }, has) matches PlanView::Mute(n, m) && n == node && m
            != a.nodes[node].mute,
{
}

/// A volume is changed at the node that was asked for, from what it is, by as much as
/// was asked for and on all its channels, of which there is at least one; one that is not
/// known is left alone.
pub proof fn volumes_are_changed_as_asked(a: AudioStateView, node: u32, percent: i32, has: bool)
    requires
        a.nodes.dom().contains(node),
    ensures
        a.nodes[node].volume is None ==> planned(a, Cmd::AdjustVolume { node, percent }, has)
            is Nothing,
        a.nodes[node].volume is Some ==> (planned(a, Cmd::AdjustVolume { node, percent }, has)
            matches PlanView::Volume(n, from, by, channels) && n == node && Some(from)
            == a.nodes[node].volume && by == percent && (a.nodes[node].channels == 0 ==> channels == 1) && (
        a.nodes[node].channels > 0 ==> channels == a.nodes[node].channels)),
{
}

/// A stream is moved by naming its target at the stream: by the target's serial number,
/// or, where it has none, by its name.
pub proof fn streams_move_to_the_target(a: AudioStateView, stream: u32, target: u32)
    requires
        a.nodes.dom().contains(stream),
        a.nodes.dom().contains(target),
    ensures
        planned(a, Cmd::Move { stream, target }, true) matches PlanView::Metadata(
            subject,
            key,
            kind,
            value,
        ) && subject == stream && key == "target.object"@ && kind == "Spa:Id"@ && (
        a.nodes[target].serial is Some ==> digits_value(value, 10) == Some(
            a.nodes[target].serial->0 as nat,
        )) && (a.nodes[target].serial is None ==> value == a.nodes[target].node_name),
{
    if let Some(n) = a.nodes[target].serial {
        decimal_round_trip(n as nat);
    }
}

/// What is not there cannot be acted on.
pub proof fn missing_nodes_are_left_alone(a: AudioStateView, cmd: Cmd, has: bool)
    requires
        match cmd {
            Cmd::Move { stream, target } => !a.nodes.dom().contains(stream)
                || !a.nodes.dom().contains(target),
            Cmd::SetDefault { device } => !a.nodes.dom().contains(device),
            Cmd::AdjustVolume { node, percent } => !a.nodes.dom().contains(node),
            Cmd::ToggleMute { node } => !a.nodes.dom().contains(node),
        },
    ensures
        planned(a, cmd, has) is Nothing,
{
}

/// The volume of a node that hangs on a card is changed at the active route of its
/// device; that of any other node at the node.
pub proof fn volumes_go_to_the_active_route(
    n: AudioNodeView,
    routes: Map<u32, Map<i32, i32>>,
    card: u32,
    device: i32,
    index: i32,
)
    requires
        n.device_id == Some(card),
        n.route_device == Some(device),
    ensures
        routes.dom().contains(card) && routes[card].dom().contains(device) && routes[card][device]
            == index ==> destination(Some(n), routes) == (Destination::Route {
            card,
            device,
            index,
        }),
        !routes.dom().contains(card) ==> destination(Some(n), routes) == Destination::Node,
        routes.dom().contains(card) && !routes[card].dom().contains(device) ==> destination(
            Some(n),
            routes,
        ) == Destination::Node,
        destination(None, routes) == Destination::Node,
{
}

// ---- properties -----------------------------------------------------------------------------

proof fn lemma_prop(
    a: Seq<(Seq<char>, Seq<char>)>,
    key: Seq<char>,
    value: Seq<char>,
    b: Seq<(Seq<char>, Seq<char>)>,
    from: int,
)
    requires
        0 <= from <= a.len(),
        forall|i: int| 0 <= i < a.len() ==> (#[trigger] a[i]).0 != key,
    ensures
        prop_from(a + seq![(key, value)] + b, key, from) == Some(value),
        prop_from(a, key, from) is None,
    decreases a.len() - from,
{
    let s = a + seq![(key, value)] + b;
    if from < a.len() {
        lemma_prop(a, key, value, b, from + 1);
        assert(s[from] == a[from]);
    } else {
        assert(s[from] == (key, value));
    }
}

/// A property is looked up by its key, and the first that has it counts.
pub proof fn properties_are_found_by_key(
    a: Seq<(Seq<char>, Seq<char>)>,
    key: Seq<char>,
    value: Seq<char>,
    b: Seq<(Seq<char>, Seq<char>)>,
)
    requires
        forall|i: int| 0 <= i < a.len() ==> (#[trigger] a[i]).0 != key,
    ensures
        prop(a + seq![(key, value)] + b, key) == Some(value),
        prop(a, key) is None,
{
    lemma_prop(a, key, value, b, 0);
}

/// A node is known by its number, its kind, the name that PipeWire knows it by, what it
/// plays and its numbers; nothing is known of its volume yet, and it is not muted.
pub proof fn nodes_begin_with_their_properties(
    id: u32,
    kind: NodeKind,
    props: Seq<(Seq<char>, Seq<char>)>,
    name: Seq<char>,
    serial: u64,
    card: u32,
)
    ensures
        new_node(id, kind, props).id == id,
        new_node(id, kind, props).kind == kind,
        prop(props, "node.name"@) == Some(name) ==> new_node(id, kind, props).node_name == name,
        prop(props, "node.name"@) is None ==> new_node(id, kind, props).node_name.len() == 0,
        new_node(id, kind, props).detail == prop(props, "media.name"@),
        new_node(id, kind, props).volume is None,
        !new_node(id, kind, props).mute,
        new_node(id, kind, props).channels == 2,
        prop(props, "object.serial"@) == Some(decimal(serial as nat)) ==> new_node(
            id,
            kind,
            props,
        ).serial == Some(serial),
        prop(props, "object.serial"@) is None ==> new_node(id, kind, props).serial is None,
        prop(props, "device.id"@) == Some(decimal(card as nat)) ==> new_node(
            id,
            kind,
            props,
        ).device_id == Some(card),
        prop(props, "device.id"@) is None ==> new_node(id, kind, props).device_id is None,
        prop(props, "card.profile.device"@) == Some(decimal(card as nat)) && card <= 0x7fff_ffff
            ==> new_node(id, kind, props).route_device == Some(card as i32),
        prop(props, "card.profile.device"@) is None ==> new_node(
            id,
            kind,
            props,
        ).route_device is None,
{
    decimal_round_trip(serial as nat);
    decimal_round_trip(card as nat);
    assert('0' <= decimal(serial as nat)[0] <= '9');
    assert('0' <= decimal(card as nat)[0] <= '9');
}

/// A device goes by its description, or its nickname; a program by the name of the
/// program; each by the name of its node where it has no better, and by a word where it
/// has none.
pub proof fn nodes_go_by_the_friendliest_name(
    kind: NodeKind,
    props: Seq<(Seq<char>, Seq<char>)>,
    name: Seq<char>,
)
    ensures
        ({
            let device = kind == NodeKind::Sink || kind == NodeKind::Source;
            let described = prop(props, "node.description"@);
            let nick = prop(props, "node.nick"@);
            let program = prop(props, "app.name"@);
            let plain = prop(props, "node.name"@);
            &&& device && described == Some(name) ==> friendly_name(kind, props) == name
            &&& device && described is None && nick == Some(name) ==> friendly_name(kind, props)
                == name
            &&& !device && program == Some(name) ==> friendly_name(kind, props) == name
            &&& device && described is None && nick is None && plain == Some(name)
                ==> friendly_name(kind, props) == name
            &&& !device && program is None && plain == Some(name) ==> friendly_name(kind, props)
                == name
            &&& described is None && nick is None && program is None && plain is None
                ==> friendly_name(kind, props) == "(unnamed)"@
        }),
{
}

/// News of a node change what they tell of and leave the rest.
pub proof fn news_change_what_they_tell(
    n: AudioNodeView,
    props: Seq<(Seq<char>, Seq<char>)>,
    playing: Seq<char>,
)
    ensures
        prop(props, "media.name"@) == Some(playing) ==> with_info(n, props).detail == Some(playing),
        prop(props, "media.name"@) is None ==> with_info(n, props).detail == n.detail,
        prop(props, "device.id"@) is None ==> with_info(n, props).device_id == n.device_id,
        prop(props, "card.profile.device"@) is None ==> with_info(n, props).route_device
            == n.route_device,
        with_info(n, props).id == n.id,
        with_info(n, props).kind == n.kind,
        with_info(n, props).name == n.name,
        with_info(n, props).node_name == n.node_name,
        with_info(n, props).volume == n.volume,
        with_info(n, props).mute == n.mute,
        with_info(n, props).serial == n.serial,
        with_info(n, props).channels == n.channels,
{
}

/// The class of a node tells whether it is a device or a stream and which way the sound
/// goes; any other class is none of ours.
pub proof fn classes_tell_the_kind(class: Seq<char>)
    ensures
        kind_of_class("Audio/Sink"@) == Some(NodeKind::Sink),
        kind_of_class("Audio/Source"@) == Some(NodeKind::Source),
        kind_of_class("Stream/Output/Audio"@) == Some(NodeKind::Playback),
        kind_of_class("Stream/Input/Audio"@) == Some(NodeKind::Record),
        kind_of_class(class) is Some ==> class == "Audio/Sink"@ || class == "Audio/Source"@ || class
            == "Stream/Output/Audio"@ || class == "Stream/Input/Audio"@,
{
    reveal_strlit("Audio/Sink");
    reveal_strlit("Audio/Source");
    reveal_strlit("Stream/Output/Audio");
    reveal_strlit("Stream/Input/Audio");
    assert("Audio/Sink"@.len() == 10);
    assert("Audio/Source"@.len() == 12);
    assert("Stream/Output/Audio"@.len() == 19);
    assert("Stream/Input/Audio"@.len() == 18);
}

/// What is listened to: audio nodes by their class, links that have two ends, sound
/// cards, and the object that holds the defaults.
pub proof fn interest_is_told_by_properties(
    ty: ObjectType,
    props: Seq<(Seq<char>, Seq<char>)>,
    kind: NodeKind,
)
    ensures
        interest_in(ty, None) == Interest::Nothing,
        interest_in(ty, Some(props)) == Interest::Node(kind) <==> (ty == ObjectType::Node && prop(
            props,
            "media.class"@,
        ) is Some && kind_of_class(prop(props, "media.class"@)->0) == Some(kind)),
        interest_in(ty, Some(props)) == Interest::Link <==> (ty == ObjectType::Link && link_ends(
            props,
        ) is Some),
        interest_in(ty, Some(props)) == Interest::Card <==> (ty == ObjectType::Device && prop(
            props,
            "media.class"@,
        ) == Some("Audio/Device"@)),
        interest_in(ty, Some(props)) == Interest::Defaults <==> (ty == ObjectType::Metadata && prop(
            props,
            "metadata.name"@,
        ) == Some("default"@)),
{
}

// ---- events -----------------------------------------------------------------------------------

/// A link goes from the node that it names as its output to the one that it names as its
/// input.
pub proof fn links_go_from_output_to_input(
    g: GraphView,
    id: u32,
    props: Seq<(Seq<char>, Seq<char>)>,
    from: u32,
    to: u32,
)
    requires
        prop(props, "link.output.node"@) == Some(decimal(from as nat)),
        prop(props, "link.input.node"@) == Some(decimal(to as nat)),
    ensures
        ({
            let h = after_event(g, EventView::Linked { id, props });
            &&& h.0.audio.links == g.audio.links.insert(id, (from, to))
            &&& h.0.audio.nodes == g.audio.nodes
            &&& h.0.audio.default_sink == g.audio.default_sink
            &&& h.0.audio.default_source == g.audio.default_source
            &&& h.1.publish
        }),
{
    decimal_round_trip(from as nat);
    decimal_round_trip(to as nat);
    assert('0' <= decimal(from as nat)[0] <= '9');
    assert('0' <= decimal(to as nat)[0] <= '9');
}

/// What PipeWire tells last counts, of the volume and of the mute alike, and telling of
/// one leaves the other.
pub proof fn the_last_level_counts(params: Seq<NodeParam>, v: Option<(Volume, usize)>, m: bool)
    ensures
        ({
            let n = params.len() as int;
            let a = params.push(NodeParam::Volumes(v));
            let b = params.push(NodeParam::Mute(m));
            let c = params.push(NodeParam::Other);
            &&& last_volume(a, n + 1) == v
            &&& last_mute(a, n + 1) == last_mute(params, n)
            &&& last_mute(b, n + 1) == Some(m)
            &&& last_volume(b, n + 1) == last_volume(params, n)
            &&& last_volume(c, n + 1) == last_volume(params, n)
            &&& last_mute(c, n + 1) == last_mute(params, n)
            &&& last_volume(Seq::<NodeParam>::empty(), 0) is None
            &&& last_mute(Seq::<NodeParam>::empty(), 0) is None
        }),
{
    let n = params.len() as int;
    let a = params.push(NodeParam::Volumes(v));
    let b = params.push(NodeParam::Mute(m));
    let c = params.push(NodeParam::Other);
    lemma_same_levels(params, a, n);
    lemma_same_levels(params, b, n);
    lemma_same_levels(params, c, n);
}

proof fn lemma_same_levels(a: Seq<NodeParam>, b: Seq<NodeParam>, n: int)
    requires
        0 <= n <= a.len(),
        n <= b.len(),
        forall|i: int| 0 <= i < n ==> a[i] == b[i],
    ensures
        last_volume(a, n) == last_volume(b, n),
        last_mute(a, n) == last_mute(b, n),
    decreases n,
{
    if n > 0 {
        lemma_same_levels(a, b, n - 1);
        assert(a[n - 1] == b[n - 1]);
    }
}

/// Levels that are told of a node become that node's, and what was not told stays, of
/// it and of every other node.
pub proof fn levels_become_the_nodes(g: GraphView, id: u32, params: Seq<NodeParam>, other: u32)
    requires
        g.audio.nodes.dom().contains(id),
        forall|k: u32| #[trigger]
            g.audio.nodes.dom().contains(k) ==> g.audio.nodes[k].id == k,
    ensures
        ({
            let n = params.len() as int;
            let a = g.audio.nodes[id];
            let h = after_event(g, EventView::NodeParams { id, node_params: params }).0.audio;
            let b = h.nodes[id];
            &&& h.nodes.dom() == g.audio.nodes.dom()
            &&& last_mute(params, n) is Some ==> b.mute == last_mute(params, n)->0
            &&& last_mute(params, n) is None ==> b.mute == a.mute
            &&& last_volume(params, n) is Some ==> b.volume == Some((last_volume(params, n)->0).0)
                && b.channels == (last_volume(params, n)->0).1
            &&& last_volume(params, n) is None ==> b.volume == a.volume && b.channels
                == a.channels
            &&& b.name == a.name && b.kind == a.kind && b.node_name == a.node_name && b.serial
                == a.serial && b.detail == a.detail
            &&& other != id ==> h.nodes[other] == g.audio.nodes[other]
            &&& h.links == g.audio.links
        }),
{
    let h = after_event(g, EventView::NodeParams { id, node_params: params }).0.audio;
    assert(g.audio.nodes[id].id == id);
    assert(h.nodes.dom() =~= g.audio.nodes.dom());
}

proof fn lemma_same_routes(a: Seq<RouteParam>, b: Seq<RouteParam>, n: int)
    requires
        0 <= n <= a.len(),
        n <= b.len(),
        forall|i: int| 0 <= i < n ==> a[i] == b[i],
    ensures
        last_index(a, n) == last_index(b, n),
        last_device(a, n) == last_device(b, n),
    decreases n,
{
    if n > 0 {
        lemma_same_routes(a, b, n - 1);
        assert(a[n - 1] == b[n - 1]);
    }
}

/// Of a route the device and the index that are told last count.
pub proof fn the_last_route_counts(params: Seq<RouteParam>, i: i32)
    ensures
        ({
            let n = params.len() as int;
            let a = params.push(RouteParam::Index(i));
            let b = params.push(RouteParam::Device(i));
            &&& last_index(a, n + 1) == Some(i)
            &&& last_device(a, n + 1) == last_device(params, n)
            &&& last_device(b, n + 1) == Some(i)
            &&& last_index(b, n + 1) == last_index(params, n)
            &&& last_index(Seq::<RouteParam>::empty(), 0) is None
            &&& last_device(Seq::<RouteParam>::empty(), 0) is None
        }),
{
    let n = params.len() as int;
    lemma_same_routes(params, params.push(RouteParam::Index(i)), n);
    lemma_same_routes(params, params.push(RouteParam::Device(i)), n);
}

/// A route that a card tells of is the one that its device uses from then on; those of
/// its other devices and of other cards stay.
pub proof fn routes_are_kept_by_device(
    g: GraphView,
    card: u32,
    params: Seq<RouteParam>,
    device: i32,
    index: i32,
    other: i32,
)
    requires
        g.routes.dom().contains(card),
        last_index(params, params.len() as int) == Some(index),
        last_device(params, params.len() as int) == Some(device),
    ensures
        ({
            let h = after_event(g, EventView::CardRoute { id: card, route_params: params }).0;
            &&& h.routes.dom() == g.routes.dom()
            &&& h.routes[card].dom().contains(device)
            &&& h.routes[card][device] == index
            &&& other != device ==> (h.routes[card].dom().contains(other)
                <==> g.routes[card].dom().contains(other)) && h.routes[card][other]
                == g.routes[card][other]
            &&& forall|c: u32| c != card ==> h.routes[c] == #[trigger] g.routes[c]
            &&& h.audio == g.audio
        }),
{
    let h = after_event(g, EventView::CardRoute { id: card, route_params: params }).0;
    assert(h.routes.dom() =~= g.routes.dom());
}

// ---- where streams go ---------------------------------------------------------------------------

/// A program that plays goes where its first link leads, and one that records takes
/// from where its first link comes.
pub proof fn streams_go_along_their_link(a: AudioStateView, s: AudioNodeView, k: u32, d: u32)
    requires
        s.kind == NodeKind::Playback || s.kind == NodeKind::Record,
        a.links.dom().contains(k),
        s.kind == NodeKind::Playback ==> a.links[k] == (s.id, d),
        s.kind == NodeKind::Record ==> a.links[k] == (d, s.id),
        a.nodes.dom().contains(d),
        a.nodes[d].kind == NodeKind::Sink || a.nodes[d].kind == NodeKind::Source,
        forall|j: u32| #[trigger]
            a.links.dom().contains(j) && j < k ==> (if s.kind == NodeKind::Playback {
                a.links[j].0 != s.id
            } else {
                a.links[j].1 != s.id
            }),
    ensures
        target(a, s) == Some(a.nodes[d]),
{
    assert(leads(a, s, k));
    assert(leads_first(a, s, k)) by {
        assert forall|j: u32| #[trigger] leads(a, s, j) implies k <= j by {
            assert(a.links.dom().contains(j));
        }
    }
    let i = choose|i: u32| leads_first(a, s, i);
    assert(leads_first(a, s, i));
    assert(leads(a, s, i));
    assert(i == k);
}

/// A stream without a link goes nowhere.
pub proof fn unlinked_streams_go_nowhere(a: AudioStateView, s: AudioNodeView)
    requires
        forall|j: u32| #[trigger]
            a.links.dom().contains(j) ==> a.links[j].0 != s.id && a.links[j].1 != s.id,
    ensures
        target(a, s) is None,
{
    assert forall|k: u32| !leads(a, s, k) by {
        if a.links.dom().contains(k) {
        }
    }
}

/// What feeds a device: programs that a link leads from to an output, and programs that
/// a link from an input leads to.
pub proof fn links_feed_devices(a: AudioStateView, s: AudioNodeView, d: AudioNodeView, k: u32)
    requires
        a.links.dom().contains(k),
    ensures
        d.kind == NodeKind::Sink && a.links[k] == (s.id, d.id) ==> feeds(a, s, d),
        d.kind == NodeKind::Source && a.links[k] == (d.id, s.id) ==> feeds(a, s, d),
        d.kind != NodeKind::Sink && d.kind != NodeKind::Source ==> !feeds(a, s, d),
{
}

/// A node is the default where the default of its kind bears its name, and a stream
/// never is.
pub proof fn defaults_are_told_by_name(a: AudioStateView, n: AudioNodeView)
    ensures
        n.kind == NodeKind::Sink ==> (is_default_node(a, n) <==> a.default_sink == Some(
            n.node_name,
        )),
        n.kind == NodeKind::Source ==> (is_default_node(a, n) <==> a.default_source == Some(
            n.node_name,
        )),
        n.kind == NodeKind::Playback || n.kind == NodeKind::Record ==> !is_default_node(a, n),
{
}

/// Only the two keys of the effective defaults change a default, each its own.
pub proof fn defaults_change_by_their_key(
    a: AudioStateView,
    key: Seq<char>,
    name: Option<Seq<char>>,
)
    ensures
        with_default(a, Some("default.audio.sink"@), name).default_sink == name,
        with_default(a, Some("default.audio.sink"@), name).default_source == a.default_source,
        with_default(a, Some("default.audio.source"@), name).default_source == name,
        with_default(a, Some("default.audio.source"@), name).default_sink == a.default_sink,
        key != "default.audio.sink"@ && key != "default.audio.source"@ ==> with_default(
            a,
            Some(key),
            name,
        ) == a,
{
    keys_are_reported_back();
}

// ---- what is written and shown -------------------------------------------------------------------

/// Text without quotes, backslashes and control characters stands in JSON as it is.
pub proof fn plain_text_stands_in_json(s: Seq<char>)
    requires
        forall|i: int|
            0 <= i < s.len() ==> #[trigger] s[i] != '"' && s[i] != '\\' && s[i] > '\u{1f}',
    ensures
        json_escaped(s) == s,
    decreases s.len(),
{
    if s.len() > 0 {
        let t = s.drop_last();
        assert forall|i: int| 0 <= i < t.len() implies #[trigger] t[i] != '"' && t[i] != '\\' && t[i]
            > '\u{1f}' by {
            assert(t[i] == s[i]);
        }
        plain_text_stands_in_json(t);
        assert(s[s.len() - 1] == s.last());
        assert(json_char(s.last()) == seq![s.last()]);
        assert(t + seq![s.last()] == s);
    }
}

/// A node that is muted is shown as one that is not, with a note behind it.
pub proof fn mutes_are_shown(a: AudioStateView, n: AudioNodeView)
    requires
        !n.mute,
        target(a, n) is None,
        target(a, AudioNodeView { mute: true, ..n }) is None,
    ensures
        table_row(a, AudioNodeView { mute: true, ..n }) == table_row(a, n) + " [muted]"@,
{
    let e = Seq::<char>::empty();
    assert(table_row(a, n) + " [muted]"@ =~= table_row(a, AudioNodeView { mute: true, ..n }));
}

// ---- the picker -----------------------------------------------------------------------------------

/// What a key does with the selected node: Enter makes a device the default, Alt-M turns
/// its mute, and Alt with an arrow changes its volume, by five percent, or by one with
/// Shift; to the left is down.
pub proof fn keys_act_on_the_selected_node(s: StateView, i: usize, key: KeyEvent, now: u64)
    requires
        s.chooser is None,
        s.selected == Some(i),
        i < s.results.len(),
        key.kind != KeyEventKind::Release,
    ensures
        ({
            let n = s.results[i as int];
            let device = n.kind == NodeKind::Sink || n.kind == NodeKind::Source;
            let step = after_key(s, key, now).1;
            &&& key.code == KeyCode::Enter && device ==> step == Step::Send(
                Cmd::SetDefault { device: n.id },
            )
            &&& key.code == KeyCode::Char('d') && key.alt && !key.ctrl && device ==> step
                == Step::Send(Cmd::SetDefault { device: n.id })
            &&& key.code == KeyCode::Char('d') && key.alt && !key.ctrl && !device ==> step
                == Step::Continue
            &&& key.code == KeyCode::Char('m') && key.alt && !key.ctrl ==> step == Step::Send(
                Cmd::ToggleMute { node: n.id },
            )
            &&& key.code == KeyCode::Left && key.alt && !key.shift ==> step == Step::Send(
                Cmd::AdjustVolume { node: n.id, percent: (-5) as i32 },
            )
            &&& key.code == KeyCode::Right && key.alt && !key.shift ==> step == Step::Send(
                Cmd::AdjustVolume { node: n.id, percent: 5 },
            )
            &&& key.code == KeyCode::Left && key.alt && key.shift ==> step == Step::Send(
                Cmd::AdjustVolume { node: n.id, percent: (-1) as i32 },
            )
            &&& key.code == KeyCode::Right && key.alt && key.shift ==> step == Step::Send(
                Cmd::AdjustVolume { node: n.id, percent: 1 },
            )
            &&& key.code == KeyCode::Esc ==> step == Step::Quit
            &&& key.code == KeyCode::Char('c') && key.ctrl ==> step == Step::Quit
        }),
{
}

/// Enter on a stream asks where it is to go, and sends nothing yet.
pub proof fn enter_on_a_stream_asks_where_to(s: StateView, i: usize, key: KeyEvent, now: u64)
    requires
        s.chooser is None,
        s.selected == Some(i),
        i < s.results.len(),
        key.kind != KeyEventKind::Release,
        key.code == KeyCode::Enter,
        s.results[i as int].kind == NodeKind::Playback || s.results[i as int].kind
            == NodeKind::Record,
    ensures
        after_key(s, key, now).1 == Step::Continue,
        after_key(s, key, now).0 == choosing(s, s.results[i as int], now),
        after_key(s, key, now).0.chooser matches Some(c) ==> c.stream == s.results[i as int].id
            && c.stream_name == s.results[i as int].name && c.sel < c.options.len(),
{
    let n = s.results[i as int];
    let current = current_target(s.audio, n);
    lemma_option_at(collected(s.audio.nodes, option_of(wanted_kind(n.kind), current)), current, 0);
}

proof fn lemma_option_at(options: Seq<(u32, Seq<char>)>, id: Option<u32>, from: int)
    requires
        0 <= from <= options.len(),
    ensures
        option_at(options, id, from) matches Some(i) ==> from <= i < options.len() && Some(
            options[i].0,
        ) == id,
    decreases options.len() - from,
{
    if from < options.len() {
        lemma_option_at(options, id, from + 1);
    }
}

proof fn lemma_collected_holds<W, T>(m: Map<u32, W>, f: spec_fn(W) -> Option<T>, k: u32, n: int)
    requires
        m.dom().contains(k),
        f(m[k]) is Some,
        k < n <= 0x1_0000_0000,
    ensures
        collected_below(m, f, n).contains(f(m[k])->0),
    decreases n,
{
    let all = collected_below(m, f, n);
    let before = collected_below(m, f, n - 1);
    if k == n - 1 {
        assert(all == before.push(f(m[k])->0));
        assert(all[before.len() as int] == f(m[k])->0);
    } else {
        lemma_collected_holds(m, f, k, n - 1);
        let i = choose|i: int| 0 <= i < before.len() && before[i] == f(m[k])->0;
        assert(all[i] == before[i]);
    }
}

proof fn lemma_collected_comes_from<W, T>(m: Map<u32, W>, f: spec_fn(W) -> Option<T>, n: int, i: int)
    requires
        0 <= i < collected_below(m, f, n).len(),
        n <= 0x1_0000_0000,
    ensures
        exists|k: u32| #[trigger]
            m.dom().contains(k) && k < n && f(m[k]) == Some(collected_below(m, f, n)[i]),
    decreases n,
{
    if n > 0 {
        let before = collected_below(m, f, n - 1);
        if i < before.len() {
            lemma_collected_comes_from(m, f, n - 1, i);
            assert(collected_below(m, f, n)[i] == before[i]);
        } else {
            assert(m.dom().contains((n - 1) as u32));
        }
    }
}

/// A program that plays can go to every output, and one that records can take from every
/// input; nothing else is offered.
pub proof fn every_fitting_device_is_offered(s: StateView, n: AudioNodeView, d: u32, now: u64)
    requires
        s.chooser is None,
        n.kind == NodeKind::Playback || n.kind == NodeKind::Record,
        s.audio.nodes.dom().contains(d),
        s.audio.nodes[d].id == d,
        forall|k: u32| #[trigger]
            s.audio.nodes.dom().contains(k) ==> s.audio.nodes[k].id == k,
    ensures
        ({
            let fits = if n.kind == NodeKind::Playback {
                NodeKind::Sink
            } else {
                NodeKind::Source
            };
            let after = choosing(s, n, now);
            s.audio.nodes[d].kind == fits <==> (after.chooser matches Some(c) && exists|i: int|
                0 <= i < c.options.len() && (#[trigger] c.options[i]).0 == d)
        }),
{
    let f = option_of(wanted_kind(n.kind), current_target(s.audio, n));
    let m = s.audio.nodes;
    let options = collected(m, f);
    if m[d].kind == wanted_kind(n.kind) {
        lemma_collected_holds(m, f, d, 0x1_0000_0000);
        let i = choose|i: int| 0 <= i < options.len() && options[i] == f(m[d])->0;
        assert(options[i].0 == d);
        let c = choosing(s, n, now).chooser->0;
        assert(c.options == options);
        assert(c.options[i].0 == d);
    } else if options.len() > 0 {
        assert(choosing(s, n, now).chooser->0.options == options);
        assert forall|i: int| 0 <= i < options.len() implies (#[trigger] options[i]).0 != d by {
            lemma_collected_comes_from(m, f, 0x1_0000_0000, i);
            let k = choose|k: u32| #[trigger]
                m.dom().contains(k) && k < 0x1_0000_0000 && f(m[k]) == Some(options[i]);
            assert(m[k].id == k);
        }
    }
}

/// In the choice, Enter moves the stream to the chosen device, the arrows go to the
/// neighbouring one, and Escape leaves without moving.
pub proof fn choices_move_the_stream(s: StateView, c: ChooserView, key: KeyEvent, now: u64)
    requires
        s.chooser == Some(c),
        c.sel < c.options.len() <= usize::MAX,
        key.kind != KeyEventKind::Release,
    ensures
        ({
            let (t, step) = after_key(s, key, now);
            &&& key.code == KeyCode::Enter ==> step == Step::Send(
                Cmd::Move { stream: c.stream, target: c.options[c.sel as int].0 },
            ) && t.chooser is None
            &&& key.code == KeyCode::Esc ==> step == Step::Continue && t.chooser is None
            &&& key.code == KeyCode::Down && c.sel + 1 < c.options.len() ==> (t.chooser matches Some(
                d,
            ) && d.sel == c.sel + 1 && d.options == c.options && d.stream == c.stream)
            &&& key.code == KeyCode::Up && c.sel > 0 ==> (t.chooser matches Some(d) && d.sel
                == c.sel - 1 && d.options == c.options && d.stream == c.stream)
            &&& t.audio == s.audio
            &&& t.selected == s.selected
        }),
{
}

/// Keys leave what is known of the graph; without a node to act on nothing is sent; and
/// a release is no key.
pub proof fn keys_leave_the_graph(s: StateView, key: KeyEvent, now: u64)
    ensures
        after_key(s, key, now).0.audio == s.audio,
        after_key(s, key, now).0.results == s.results,
        s.selected is None && s.chooser is None ==> !(after_key(s, key, now).1 is Send),
        key.kind == KeyEventKind::Release ==> after_key(s, key, now) == (s, Step::Continue),
{
}

/// A letter without a modifier is typed into the search.
pub proof fn plain_letters_are_typed(s: StateView, key: KeyEvent, c: char, now: u64)
    requires
        s.chooser is None,
        key.kind != KeyEventKind::Release,
        key.code == KeyCode::Char(c),
        !key.ctrl,
        !key.alt,
    ensures
        after_key(s, key, now).1 == Step::Continue,
        after_key(s, key, now).0.line.text() == s.line.before + seq![c] + s.line.after,
        after_key(s, key, now).0.selected == s.selected,
{
    assert(s.line.before.push(c) + s.line.after == s.line.before + seq![c] + s.line.after);
}

/// Outputs stand first, then inputs, programs that play and programs that record, each
/// by their numbers; in a search the node that the matcher scores higher stands first.
pub proof fn nodes_stand_in_order(
    results: Seq<AudioNodeView>,
    a: AudioStateView,
    q: Seq<char>,
    i: int,
    j: int,
)
    requires
        is_listing(results, a, q),
        0 <= i < results.len(),
        0 <= j < results.len(),
    ensures
        ({
            let m = results[i];
            let n = results[j];
            &&& q.len() == 0 && m.kind == NodeKind::Sink && n.kind != NodeKind::Sink ==> i < j
            &&& q.len() == 0 && m.kind == NodeKind::Source && (n.kind == NodeKind::Playback
                || n.kind == NodeKind::Record) ==> i < j
            &&& q.len() == 0 && m.kind == NodeKind::Playback && n.kind == NodeKind::Record ==> i
                < j
            &&& q.len() == 0 && m.kind == n.kind && m.id < n.id ==> i < j
            &&& q.len() > 0 && score_of(q, node_search_text(a, m))->0 > score_of(
                q,
                node_search_text(a, n),
            )->0 ==> i < j
        }),
{
    if j < i {
        assert(listed_before(q, a, results[j], results[i]));
    }
}

/// The list holds what is known and found, all of it and nothing else.
pub proof fn the_list_holds_what_is_found(
    results: Seq<AudioNodeView>,
    a: AudioStateView,
    q: Seq<char>,
    id: u32,
)
    requires
        is_listing(results, a, q),
        a.nodes.dom().contains(id),
        a.nodes[id].id == id,
    ensures
        (q.len() == 0 || score_of(q, node_search_text(a, a.nodes[id])) is Some) <==> exists|i: int|
            0 <= i < results.len() && (#[trigger] results[i]) == a.nodes[id],
{
    if q.len() == 0 || score_of(q, node_search_text(a, a.nodes[id])) is Some {
        let i = choose|i: int| 0 <= i < results.len() && (#[trigger] results[i]).id == id;
        assert(results[i] == a.nodes[id]);
    } else if exists|i: int| 0 <= i < results.len() && (#[trigger] results[i]) == a.nodes[id] {
        let i = choose|i: int| 0 <= i < results.len() && (#[trigger] results[i]) == a.nodes[id];
        assert(results[i].id == id);
    }
}

/// A search looks at the kind of a node, its name, what it plays and where it goes.
pub proof fn searches_look_at_the_node(a: AudioStateView, n: AudioNodeView)
    ensures
        n.detail is None && target(a, n) is None ==> node_search_text(a, n) == kind_name(n.kind)
            + seq![' '] + n.name,
        n.detail is Some && target(a, n) is None ==> node_search_text(a, n) == kind_name(n.kind)
            + seq![' '] + n.name + seq![' '] + n.detail->0,
        n.detail is Some && target(a, n) is Some ==> node_search_text(a, n) == kind_name(n.kind)
            + seq![' '] + n.name + seq![' '] + n.detail->0 + seq![' '] + (target(a, n)->0).name,
{
    let t = node_search_text(a, n);
    let head = kind_name(n.kind) + seq![' '] + n.name;
    if n.detail is None && target(a, n) is None {
        assert(t =~= head);
    } else if n.detail is Some && target(a, n) is None {
        assert(t =~= head + seq![' '] + n.detail->0);
    } else if n.detail is Some {
        assert(t =~= head + seq![' '] + n.detail->0 + seq![' '] + (target(a, n)->0).name);
    }
}

/// The list tells of a muted node that it is muted, and of any other how loud it is: as
/// many of five cells are full as its volume fills, and its percentage stands beside it.
pub proof fn levels_are_shown(a: AudioStateView, n: AudioNodeView, q: Seq<char>, i: int)
    requires
        0 <= i < 5,
    ensures
        n.mute ==> list_row(a, n, q).level == "muted"@,
        n.mute <==> list_row(a, n, q).muted,
        !n.mute && n.volume is Some ==> list_row(a, n, q).level.len() == 5 && (list_row(
            a,
            n,
            q,
        ).level[i] == '▮' <==> i < (n.volume->0).cells),
        n.volume is Some ==> percent_text(n.volume, "-"@) == decimal((n.volume->0).percent as nat)
            + "%"@,
{
}

/// The default device is marked with a star behind its kind, and no other node is.
pub proof fn the_default_is_marked(a: AudioStateView, n: AudioNodeView)
    ensures
        is_default_node(a, n) ==> tag_text(a, n) == kind_name(n.kind) + " *"@,
        !is_default_node(a, n) ==> tag_text(a, n) == kind_name(n.kind),
{
}

/// A stream is shown with where it goes and with what it plays; a device by its name.
pub proof fn streams_are_shown_with_their_target(a: AudioStateView, n: AudioNodeView)
    ensures
        target(a, n) is None && n.detail is None ==> name_text(a, n) == n.name,
        target(a, n) is Some && n.detail is None ==> name_text(a, n) == n.name + " → "@ + (target(
            a,
            n,
        )->0).name,
        target(a, n) is None && n.detail is Some && n.detail->0 != n.name && (n.kind
            == NodeKind::Playback || n.kind == NodeKind::Record) ==> name_text(a, n) == n.name
            + "  ("@ + n.detail->0 + ")"@,
{
    if target(a, n) is None && n.detail is None {
        assert(name_text(a, n) =~= n.name);
    } else if target(a, n) is Some && n.detail is None {
        assert(name_text(a, n) =~= n.name + " → "@ + (target(a, n)->0).name);
    } else if target(a, n) is None {
        assert(n.detail->0 != n.name && (n.kind == NodeKind::Playback || n.kind
            == NodeKind::Record) ==> name_text(a, n) =~= n.name + "  ("@ + n.detail->0 + ")"@);
    }
}

/// A message is shown for four seconds, and then the help again; where PipeWire is gone,
/// that is shown before anything else.
pub proof fn messages_are_shown_for_a_while(s: StateView, msg: Seq<char>, since: u64, now: u64)
    requires
        s.status == Some((msg, since)),
        since <= now,
        s.chooser is None,
    ensures
        !s.engine_dead && now - since < 4 * 1_000_000_000 ==> status_text(s, now) == (
            " "@ + msg,
            Tone::Warn,
        ),
        now - since >= 4 * 1_000_000_000 ==> status_text(s, now) == status_text(
            StateView { status: None, ..s },
            now,
        ),
        s.engine_dead ==> (status_text(s, now)).1 == Tone::Warn,
{
}

/// A node that was selected stays so as long as it is listed; otherwise the first one is.
pub proof fn the_selected_node_stays(
    results: Seq<AudioNodeView>,
    id: u32,
    selected: Option<usize>,
    i: int,
)
    requires
        is_kept_selection(results, Some(id), selected),
        0 <= i < results.len(),
    ensures
        selected is Some && selected->0 < results.len(),
        results[i].id == id ==> results[selected->0 as int].id == id,
        (forall|j: int| 0 <= j < results.len() ==> (#[trigger] results[j]).id != id)
            ==> selected == Some(0usize),
{
    if results[i].id == id {
        assert(exists|j: int| 0 <= j < results.len() && (#[trigger] results[j]).id == id);
    }
}

// ---- more events -----------------------------------------------------------------------------------

/// A node that is bound is known by its properties under its number; every other node, the
/// links and the defaults stay.
pub proof fn bound_nodes_are_known(
    g: GraphView,
    id: u32,
    kind: NodeKind,
    props: Seq<(Seq<char>, Seq<char>)>,
    other: u32,
)
    ensures
        ({
            let (h, r) = after_event(g, EventView::NodeBound { id, kind, props });
            &&& h.audio.nodes.dom().contains(id)
            &&& h.audio.nodes[id] == new_node(id, kind, props)
            &&& other != id ==> (h.audio.nodes.dom().contains(other)
                <==> g.audio.nodes.dom().contains(other)) && h.audio.nodes[other]
                == g.audio.nodes[other]
            &&& h.audio.links == g.audio.links
            &&& h.audio.default_sink == g.audio.default_sink
            &&& h.audio.default_source == g.audio.default_source
            &&& h.routes == g.routes
            &&& r.publish
        }),
{
}

/// What is told of a node that is not known changes nothing, and neither does a default
/// under any other key.
pub proof fn idle_talk_changes_nothing(
    g: GraphView,
    id: u32,
    props: Seq<(Seq<char>, Seq<char>)>,
    params: Seq<NodeParam>,
    key: Option<Seq<char>>,
    value: Option<Seq<char>>,
)
    ensures
        !g.audio.nodes.dom().contains(id) ==> after_event(g, EventView::NodeInfo { id, props }).0
            == g && after_event(g, EventView::NodeParams { id, node_params: params }).0 == g,
        key != Some("default.audio.sink"@) && key != Some("default.audio.source"@) ==> after_event(
            g,
            EventView::DefaultSet { key, value },
        ).0 == g && !after_event(g, EventView::DefaultSet { key, value }).1.publish,
{
}

/// A card is known without routes at first, and the object of the defaults by its number;
/// neither changes what is shown.
pub proof fn cards_and_defaults_are_bound(g: GraphView, id: u32, seq: i32)
    ensures
        ({
            let h = after_event(g, EventView::CardBound { id }).0;
            &&& h.routes.dom().contains(id) && h.routes[id].dom() =~= Set::<i32>::empty()
            &&& h.audio == g.audio
        }),
        after_event(g, EventView::DefaultsBound { id }).0.metadata == Some(id),
        after_event(g, EventView::DefaultsBound { id }).0.audio == g.audio,
        after_event(g, EventView::SyncStarted { seq }).0.pending == Some(seq),
        g.pending == Some(seq) && !g.audio.complete ==> after_event(
            g,
            EventView::SyncDone { core: true, seq },
        ).0.audio.complete,
{
}

/// At first nothing is known.
pub proof fn nothing_is_known_at_first(id: u32)
    ensures
        !nothing_known().nodes.dom().contains(id),
        !nothing_known().links.dom().contains(id),
        nothing_known().default_sink is None,
        nothing_known().default_source is None,
        !nothing_known().complete,
{
}

/// The key of the default of a kind ends in the name of the kind.
pub proof fn effective_keys_name_the_kind(kind: NodeKind)
    requires
        kind == NodeKind::Sink || kind == NodeKind::Source,
    ensures
        effective_key(kind) == "default.audio."@ + kind_name(kind),
{
    reveal_strlit("default.audio.");
    reveal_strlit("default.audio.sink");
    reveal_strlit("default.audio.source");
    reveal_strlit("sink");
    reveal_strlit("source");
    assert(effective_key(kind) =~= "default.audio."@ + kind_name(kind));
}

// ---- more of what is shown ---------------------------------------------------------------------------

/// The streams of a device are those that feed it, all of them and nothing else.
pub proof fn streams_of_a_device_feed_it(a: AudioStateView, d: AudioNodeView, k: u32)
    requires
        a.nodes.dom().contains(k),
        forall|j: u32| #[trigger] a.nodes.dom().contains(j) ==> a.nodes[j].id == j,
    ensures
        device_streams(a, d).contains(a.nodes[k]) <==> (a.nodes[k].kind == NodeKind::Playback
            || a.nodes[k].kind == NodeKind::Record) && feeds(a, a.nodes[k], d),
{
    let f = stream_of(a, d);
    let all = device_streams(a, d);
    if f(a.nodes[k]) is Some {
        lemma_collected_holds(a.nodes, f, k, 0x1_0000_0000);
    }
    if all.contains(a.nodes[k]) {
        let i = choose|i: int| 0 <= i < all.len() && all[i] == a.nodes[k];
        lemma_collected_comes_from(a.nodes, f, 0x1_0000_0000, i);
        let j = choose|j: u32| #[trigger]
            a.nodes.dom().contains(j) && j < 0x1_0000_0000 && f(a.nodes[j]) == Some(all[i]);
        assert(a.nodes[j].id == j);
    }
}

/// Every node has its row in the table, below the heading.
pub proof fn every_node_has_its_row(a: AudioStateView, k: u32)
    requires
        a.nodes.dom().contains(k),
    ensures
        table_text(a).len() > 0,
        table_text(a)[0] == table_header(),
        table_text(a).skip(1).contains(table_row(a, a.nodes[k])),
{
    let n = a.nodes[k];
    let f = row_of_kind(a, n.kind);
    let t = table_row(a, n);
    let rows = collected(a.nodes, f);
    lemma_collected_holds(a.nodes, f, k, 0x1_0000_0000);
    let i = choose|i: int| 0 <= i < rows.len() && rows[i] == t;
    let sinks = rows_of_kind(a, NodeKind::Sink);
    let sources = rows_of_kind(a, NodeKind::Source);
    let plays = rows_of_kind(a, NodeKind::Playback);
    let recs = rows_of_kind(a, NodeKind::Record);
    let all = table_text(a).skip(1);
    assert(all =~= sinks + sources + plays + recs);
    let at = match n.kind {
        NodeKind::Sink => i,
        NodeKind::Source => sinks.len() + i,
        NodeKind::Playback => sinks.len() + sources.len() + i,
        NodeKind::Record => sinks.len() + sources.len() + plays.len() + i,
    };
    assert(all[at] == t);
}

/// A row begins with the kind of its node, and a star behind it where it is the default.
pub proof fn rows_begin_with_the_kind(a: AudioStateView, n: AudioNodeView)
    ensures
        table_row(a, n).take(kind_name(n.kind).len() as int) == kind_name(n.kind),
        table_row(a, n)[6] == '*' <==> is_default_node(a, n),
{
    reveal_strlit("sink");
    reveal_strlit("source");
    reveal_strlit("stream");
    reveal_strlit("rec");
    reveal_strlit("*");
    reveal_strlit(" ");
    let row = table_row(a, n);
    assert(row.take(kind_name(n.kind).len() as int) =~= kind_name(n.kind));
    assert(row[6] == (if is_default_node(a, n) {
        '*'
    } else {
        ' '
    }));
}

/// The details of a stream tell where it goes, and those of a muted node that it is muted.
pub proof fn details_tell_the_target(a: AudioStateView, n: AudioNodeView)
    requires
        n.kind == NodeKind::Playback || n.kind == NodeKind::Record,
    ensures
        target(a, n) is Some ==> routing_line(a, n)[1].text == shown((target(a, n)->0).name),
        routing_line(a, n)[3].text == shown(n.node_name),
        detail_lines(a, n)[2] == routing_line(a, n),
        detail_lines(a, n)[1][3].text == (if n.mute {
            "yes"@
        } else {
            "no"@
        }),
        detail_lines(a, n)[0][1].text == shown(n.name),
{
}

/// Quotes and backslashes are escaped in JSON, and control characters by their number.
pub proof fn special_characters_are_escaped(c: char)
    ensures
        json_char('"') == seq!['\\', '"'],
        json_char('\\') == seq!['\\', '\\'],
        json_char('\n') == seq!['\\', 'n'],
        json_char('\r') == seq!['\\', 'r'],
        json_char('\t') == seq!['\\', 't'],
        c <= '\u{1f}' && json_char(c).len() == 6 ==> json_char(c).take(4) == seq![
            '\\',
            'u',
            '0',
            '0',
        ] && digits_value(json_char(c).skip(4), 16) == Some(c as nat),
        c <= '\u{1f}' ==> json_char(c)[0] == '\\',
        c > '\u{1f}' && c != '"' && c != '\\' ==> json_char(c) == seq![c],
{
    if c <= '\u{1f}' && json_char(c).len() == 6 {
        let t = json_char(c).skip(4);
        assert(json_char(c).take(4) =~= seq!['\\', 'u', '0', '0']);
        assert(t.len() == 2);
        assert(t.drop_last().len() == 1);
        let hi = c as nat / 16;
        let lo = c as nat % 16;
        assert(t[0] == crate::bragi::graph::hex_digit(hi));
        assert(t[1] == crate::bragi::graph::hex_digit(lo));
        assert(t.drop_last()[0] == t[0]);
        assert(digits_value(t.drop_last(), 16) == Some(hi));
        assert(t.last() == t[1]);
    }
}

/// An object in JSON holds its key and its value, each in quotes.
pub proof fn objects_hold_key_and_value(key: Seq<char>, value: Seq<char>)
    requires
        forall|i: int|
            0 <= i < key.len() ==> #[trigger] key[i] != '"' && key[i] != '\\' && key[i] > '\u{1f}',
        forall|i: int|
            0 <= i < value.len() ==> #[trigger] value[i] != '"' && value[i] != '\\' && value[i]
                > '\u{1f}',
    ensures
        json_object(key, value) == seq!['{', '"'] + key + seq!['"', ':', '"'] + value + seq![
            '"',
            '}',
        ],
{
    plain_text_stands_in_json(key);
    plain_text_stands_in_json(value);
}

/// What a stream plays stands behind it in the table; of a device nothing does.
pub proof fn what_is_played_stands_behind_the_stream(a: AudioStateView, n: AudioNodeView, d: Seq<char>)
    requires
        n.detail is None,
        !n.mute,
        target(a, n) is None,
        target(a, AudioNodeView { detail: Some(d), ..n }) is None,
    ensures
        n.kind == NodeKind::Playback || n.kind == NodeKind::Record ==> table_row(
            a,
            AudioNodeView { detail: Some(d), ..n },
        ) == table_row(a, n) + "  ("@ + shown(d) + ")"@,
        n.kind == NodeKind::Sink || n.kind == NodeKind::Source ==> table_row(
            a,
            AudioNodeView { detail: Some(d), ..n },
        ) == table_row(a, n),
{
    let m = AudioNodeView { detail: Some(d), ..n };
    if n.kind == NodeKind::Playback || n.kind == NodeKind::Record {
        assert(table_row(a, m) =~= table_row(a, n) + "  ("@ + shown(d) + ")"@);
    } else {
        assert(table_row(a, m) =~= table_row(a, n));
    }
}

/// A device is offered by its name, and the one that the stream goes to now is marked.
pub proof fn options_are_named(n: AudioNodeView, current: Option<u32>)
    ensures
        current == Some(n.id) ==> option_of(n.kind, current)(n) == Some(
            (n.id, n.name + "  (current)"@),
        ),
        current != Some(n.id) ==> option_of(n.kind, current)(n) == Some((n.id, n.name)),
{
}

/// The choice begins at the device that the stream goes to now.
pub proof fn the_choice_begins_at_the_current_device(s: StateView, n: AudioNodeView, now: u64, i: int)
    requires
        choosing(s, n, now).chooser is Some,
        s.chooser is None,
        0 <= i < (choosing(s, n, now).chooser->0).options.len() <= usize::MAX,
        target(s.audio, n) is Some,
        (choosing(s, n, now).chooser->0).options[i].0 == (target(s.audio, n)->0).id,
    ensures
        ({
            let c = choosing(s, n, now).chooser->0;
            c.options[c.sel as int].0 == (target(s.audio, n)->0).id
        }),
{
    let current = current_target(s.audio, n);
    let options = collected(s.audio.nodes, option_of(wanted_kind(n.kind), current));
    lemma_option_at(options, current, 0);
    lemma_option_found(options, current, 0, i);
}

proof fn lemma_option_found(options: Seq<(u32, Seq<char>)>, id: Option<u32>, from: int, i: int)
    requires
        0 <= from <= i < options.len(),
        id == Some(options[i].0),
    ensures
        option_at(options, id, from) is Some,
    decreases i - from,
{
    if from < i {
        lemma_option_found(options, id, from + 1, i);
    }
}

/// Ctrl-D leaves where nothing is typed, and otherwise does nothing; keys without a meaning
/// do nothing, in the list and in the choice.
pub proof fn other_keys_do_nothing(s: StateView, key: KeyEvent, now: u64)
    requires
        key.kind != KeyEventKind::Release,
    ensures
        s.chooser is None && key.code == KeyCode::Char('d') && key.ctrl && !key.alt
            && s.line.text().len() == 0 ==> after_key(s, key, now).1 == Step::Quit,
        s.chooser is None && key.code == KeyCode::Char('d') && key.ctrl && !key.alt
            && s.line.text().len() > 0 ==> after_key(s, key, now) == (s, Step::Continue),
        key.code == KeyCode::Other ==> after_key(s, key, now) == (s, Step::Continue),
        key.code == KeyCode::Tab ==> after_key(s, key, now) == (s, Step::Continue),
        s.chooser is Some && (key.code matches KeyCode::Char(c) && !key.ctrl) ==> after_key(
            s,
            key,
            now,
        ) == (s, Step::Continue),
        s.chooser is None && s.selected is Some && s.selected->0 >= s.results.len() ==> !(after_key(
            s,
            key,
            now,
        ).1 is Send),
{
}

/// What a key begins is said.
pub proof fn keys_say_what_they_begin(s: StateView, i: usize, key: KeyEvent, now: u64)
    requires
        s.chooser is None,
        s.selected == Some(i),
        i < s.results.len(),
        key.kind != KeyEventKind::Release,
        key.code == KeyCode::Enter,
        s.results[i as int].kind == NodeKind::Sink || s.results[i as int].kind == NodeKind::Source,
    ensures
        after_key(s, key, now).0.status == Some(
            (
                "default "@ + kind_name(s.results[i as int].kind) + " → "@
                    + s.results[i as int].name,
                now,
            ),
        ),
{
}

/// Outputs stand in the table before inputs, those before programs that play, and those
/// before programs that record.
pub proof fn the_table_stands_by_kind(a: AudioStateView)
    ensures
        table_text(a) == seq![table_header()] + rows_of_kind(a, NodeKind::Sink) + rows_of_kind(
            a,
            NodeKind::Source,
        ) + rows_of_kind(a, NodeKind::Playback) + rows_of_kind(a, NodeKind::Record),
{
}

} // verus!
