//! The engine that follows the audio graph: what it makes of each event of
//! PipeWire, and what it does for each command. The program binds the objects,
//! and hands the events over; whenever the graph changed it publishes it.

use vstd::prelude::*;
use crate::bragi::graph::{
    destination, json_field, last_device, last_index, last_mute, last_volume, link_ends, new_node,
    parse_props, parse_route, planned, prop, with_default, with_info, with_node, with_route,
    without_object, Cmd, Destination, NodeParam, Plan, Props, RouteParam, Routes,
};
use crate::bragi::state::{
    kind_of_class, nothing_known, AudioNodeView, AudioState, AudioStateView, NodeKind, Volume,
};
use crate::text::opt_view;

verus! {

/// The objects of PipeWire, as far as they are told apart.
#[derive(Clone, Copy, Debug, PartialEq, Eq, Structural)]
pub enum ObjectType {
    Node,
    Link,
    Device,
    Metadata,
    /// Anything else.
    Other,
}

/// What an object is to the engine.
#[derive(Clone, Copy, Debug, PartialEq, Eq, Structural)]
pub enum Interest {
    /// Nothing.
    Nothing,
    /// A node, to be bound and followed.
    Node(NodeKind),
    /// A link; its properties say it all.
    Link,
    /// A card, to be bound and followed.
    Card,
    /// The choice of defaults, to be bound and followed.
    Defaults,
}

/// What the engine knows.
pub struct Graph {
    pub audio: AudioState,
    pub routes: Routes,
    /// The object that holds the choice of defaults.
    pub metadata: Option<u32>,
    /// The round trip that is waited for.
    pub pending: Option<i32>,
}

/// What a [`Graph`] holds.
#[verifier::ext_equal]
pub ghost struct GraphView {
    pub audio: AudioStateView,
    pub routes: Map<u32, Map<i32, i32>>,
    pub metadata: Option<u32>,
    pub pending: Option<i32>,
}

impl View for Graph {
    type V = GraphView;

    open spec fn view(&self) -> GraphView {
        GraphView {
            audio: self.audio@,
            routes: self.routes@,
            metadata: self.metadata,
            pending: self.pending,
        }
    }
}

/// What an object of the type `ty` with the properties `props` is to the engine.
pub open spec fn interest_in(
    ty: ObjectType,
    props: Option<Seq<(Seq<char>, Seq<char>)>>,
) -> Interest {
    match props {
        Some(p) => match ty {
            ObjectType::Node => match prop(p, "media.class"@) {
                Some(class) => match kind_of_class(class) {
                    Some(kind) => Interest::Node(kind),
                    None => Interest::Nothing,
                },
                None => Interest::Nothing,
            },
            ObjectType::Link => if link_ends(p) is Some {
                Interest::Link
            } else {
                Interest::Nothing
            },
            ObjectType::Device => if prop(p, "media.class"@) == Some("Audio/Device"@) {
                Interest::Card
            } else {
                Interest::Nothing
            },
            ObjectType::Metadata => if prop(p, "metadata.name"@) == Some("default"@) {
                Interest::Defaults
            } else {
                Interest::Nothing
            },
            ObjectType::Other => Interest::Nothing,
        },
        None => Interest::Nothing,
    }
}

/// The properties of an object, where there are any.
pub open spec fn props_view(o: Option<Props>) -> Option<Seq<(Seq<char>, Seq<char>)>> {
    match o {
        Some(p) => Some(p@),
        None => None,
    }
}

/// An event of PipeWire.
pub enum Event {
    /// A node of this kind was bound.
    NodeBound { id: u32, kind: NodeKind, props: Props },
    /// A card was bound.
    CardBound { id: u32 },
    /// The choice of defaults was bound.
    DefaultsBound { id: u32 },
    /// A link is there.
    Linked { id: u32, props: Props },
    /// The full properties of a node.
    NodeInfo { id: u32, props: Props },
    /// The volume and the mute switch of a node.
    NodeParams { id: u32, params: Vec<NodeParam> },
    /// An active route of a card.
    CardRoute { id: u32, params: Vec<RouteParam> },
    /// A choice of default.
    DefaultSet { key: Option<String>, value: Option<String> },
    /// An object is gone.
    Removed { id: u32 },
    /// A round trip began.
    SyncStarted { seq: i32 },
    /// A round trip is over; `core` says whether it was one of the connection
    /// itself.
    SyncDone { core: bool, seq: i32 },
}

/// What an [`Event`] holds.
pub ghost enum EventView {
    NodeBound { id: u32, kind: NodeKind, props: Seq<(Seq<char>, Seq<char>)> },
    CardBound { id: u32 },
    DefaultsBound { id: u32 },
    Linked { id: u32, props: Seq<(Seq<char>, Seq<char>)> },
    NodeInfo { id: u32, props: Seq<(Seq<char>, Seq<char>)> },
    NodeParams { id: u32, node_params: Seq<NodeParam> },
    CardRoute { id: u32, route_params: Seq<RouteParam> },
    DefaultSet { key: Option<Seq<char>>, value: Option<Seq<char>> },
    Removed { id: u32 },
    SyncStarted { seq: i32 },
    SyncDone { core: bool, seq: i32 },
}

impl View for Event {
    type V = EventView;

    open spec fn view(&self) -> EventView {
        match self {
            Event::NodeBound { id, kind, props } => EventView::NodeBound {
                id: *id,
                kind: *kind,
                props: props@,
            },
            Event::CardBound { id } => EventView::CardBound { id: *id },
            Event::DefaultsBound { id } => EventView::DefaultsBound { id: *id },
            Event::Linked { id, props } => EventView::Linked { id: *id, props: props@ },
            Event::NodeInfo { id, props } => EventView::NodeInfo { id: *id, props: props@ },
            Event::NodeParams { id, params } => EventView::NodeParams {
                id: *id,
                node_params: params@,
            },
            Event::CardRoute { id, params } => EventView::CardRoute {
                id: *id,
                route_params: params@,
            },
            Event::DefaultSet { key, value } => EventView::DefaultSet {
                key: opt_view(*key),
                value: opt_view(*value),
            },
            Event::Removed { id } => EventView::Removed { id: *id },
            Event::SyncStarted { seq } => EventView::SyncStarted { seq: *seq },
            Event::SyncDone { core, seq } => EventView::SyncDone { core: *core, seq: *seq },
        }
    }
}

/// What the program does after an event.
#[derive(Clone, Copy, Debug, PartialEq, Eq, Structural)]
pub struct Reaction {
    /// Publish the graph.
    pub publish: bool,
    /// Begin a round trip, so that what was there at the start counts as told only
    /// once this node's parameters have come too.
    pub sync: bool,
}

/// `n` with the volume and the mute switch that were told.
pub open spec fn with_levels(
    n: AudioNodeView,
    volume: Option<(Volume, usize)>,
    mute: Option<bool>,
) -> AudioNodeView {
    AudioNodeView {
        volume: match volume {
            Some(v) => Some(v.0),
            None => n.volume,
        },
        channels: match volume {
            Some(v) => v.1,
            None => n.channels,
        },
        mute: match mute {
            Some(m) => m,
            None => n.mute,
        },
        ..n
    }
}

/// The choice of default that a value stands for.
pub open spec fn chosen_name(value: Option<Seq<char>>) -> Option<Seq<char>> {
    match value {
        Some(v) => json_field(v, "name"@),
        None => None,
    }
}

/// Whether a choice of default is one that counts.
pub open spec fn counts_as_default(key: Option<Seq<char>>) -> bool {
    key == Some("default.audio.sink"@) || key == Some("default.audio.source"@)
}

/// `g` with the graph `audio`.
pub open spec fn with_audio(g: GraphView, audio: AudioStateView) -> GraphView {
    GraphView { audio, ..g }
}

/// `g` after the event `e`, and what the program does then.
pub open spec fn after_event(g: GraphView, e: EventView) -> (GraphView, Reaction) {
    let quiet = Reaction { publish: false, sync: false };
    let changed = Reaction { publish: true, sync: false };
    match e {
        EventView::NodeBound { id, kind, props } => (
            with_audio(g, with_node(g.audio, new_node(id, kind, props))),
            Reaction { publish: true, sync: !g.audio.complete },
        ),
        EventView::CardBound { id } => (
            GraphView { routes: g.routes.insert(id, Map::empty()), ..g },
            quiet,
        ),
        EventView::DefaultsBound { id } => (GraphView { metadata: Some(id), ..g }, quiet),
        EventView::Linked { id, props } => match link_ends(props) {
            Some(ends) => (
                with_audio(g, AudioStateView { links: g.audio.links.insert(id, ends), ..g.audio }),
                changed,
            ),
            None => (g, quiet),
        },
        EventView::NodeInfo { id, props } => if g.audio.nodes.dom().contains(id) && with_info(
            g.audio.nodes[id],
            props,
        ) != g.audio.nodes[id] {
            (with_audio(g, with_node(g.audio, with_info(g.audio.nodes[id], props))), changed)
        } else {
            (g, quiet)
        },
        EventView::NodeParams { id, node_params } => {
            let volume = last_volume(node_params, node_params.len() as int);
            let mute = last_mute(node_params, node_params.len() as int);
            if (volume is Some || mute is Some) && g.audio.nodes.dom().contains(id) {
                (
                    with_audio(
                        g,
                        with_node(g.audio, with_levels(g.audio.nodes[id], volume, mute)),
                    ),
                    changed,
                )
            } else {
                (g, quiet)
            }
        },
        EventView::CardRoute { id, route_params } => {
            let index = last_index(route_params, route_params.len() as int);
            let device = last_device(route_params, route_params.len() as int);
            if index is Some && device is Some {
                (
                    GraphView { routes: with_route(g.routes, id, device->0, index->0), ..g },
                    quiet,
                )
            } else {
                (g, quiet)
            }
        },
        EventView::DefaultSet { key, value } => if counts_as_default(key) {
            (with_audio(g, with_default(g.audio, key, chosen_name(value))), changed)
        } else {
            (g, quiet)
        },
        EventView::Removed { id } => (
            GraphView {
                audio: without_object(g.audio, id),
                routes: g.routes.remove(id),
                metadata: if g.metadata == Some(id) {
                    None
                } else {
                    g.metadata
                },
                ..g
            },
            Reaction {
                publish: g.audio.nodes.dom().contains(id) || g.audio.links.dom().contains(id),
                sync: false,
            },
        ),
        EventView::SyncStarted { seq } => (GraphView { pending: Some(seq), ..g }, quiet),
        EventView::SyncDone { core, seq } => if core && g.pending == Some(seq)
            && !g.audio.complete {
            (with_audio(g, AudioStateView { complete: true, ..g.audio }), changed)
        } else {
            (g, quiet)
        },
    }
}

/// What an object is to the engine.
pub fn interest(ty: ObjectType, props: &Option<Props>) -> (i: Interest)
    ensures
        i == interest_in(ty, props_view(*props)),
{
    match props {
        Some(p) => match ty {
            ObjectType::Node => match p.audio_kind() {
                Some(kind) => Interest::Node(kind),
                None => Interest::Nothing,
            },
            ObjectType::Link => if p.has_link_ends() {
                Interest::Link
            } else {
                Interest::Nothing
            },
            ObjectType::Device => if p.is_audio_device() {
                Interest::Card
            } else {
                Interest::Nothing
            },
            ObjectType::Metadata => if p.is_default_metadata() {
                Interest::Defaults
            } else {
                Interest::Nothing
            },
            ObjectType::Other => Interest::Nothing,
        },
        None => Interest::Nothing,
    }
}

impl Graph {
    /// What every event keeps.
    pub open spec fn wf(self) -> bool {
        self.audio.wf()
    }

    /// The engine before the first event.
    pub fn new() -> (g: Graph)
        ensures
            g.wf(),
            g@ == (GraphView {
                audio: nothing_known(),
                routes: Map::empty(),
                metadata: None,
                pending: None,
            }),
    {
        Graph { audio: AudioState::new(), routes: Routes::new(), metadata: None, pending: None }
    }

    /// Take an event.
    pub fn handle(&mut self, e: Event) -> (r: Reaction)
        requires
            old(self).wf(),
        ensures
            final(self).wf(),
            (final(self)@, r) == after_event(old(self)@, e@),
    {
        let ghost g = self@;
        match e {
            Event::NodeBound { id, kind, props } => {
                let sync = !self.audio.complete;
                self.audio.add_node(id, kind, &props);
                Reaction { publish: true, sync }
            },
            Event::CardBound { id } => {
                self.routes.add_card(id);
                Reaction { publish: false, sync: false }
            },
            Event::DefaultsBound { id } => {
                self.metadata = Some(id);
                Reaction { publish: false, sync: false }
            },
            Event::Linked { id, props } => {
                let publish = self.audio.add_link(id, &props);
                Reaction { publish, sync: false }
            },
            Event::NodeInfo { id, props } => {
                let publish = self.audio.node_info(id, &props);
                proof {
                    if g.audio.nodes.dom().contains(id) && !publish {
                        assert(with_node(g.audio, g.audio.nodes[id]).nodes =~= g.audio.nodes);
                    }
                }
                Reaction { publish, sync: false }
            },
            Event::NodeParams { id, params } => {
                let (volume, mute) = parse_props(&params);
                let publish = self.audio.node_levels(id, volume, mute);
                Reaction { publish, sync: false }
            },
            Event::CardRoute { id, params } => {
                if let Some((index, device)) = parse_route(&params) {
                    self.routes.set_route(id, device, index);
                }
                Reaction { publish: false, sync: false }
            },
            Event::DefaultSet { key, value } => {
                let publish = self.audio.set_default(&key, &value);
                Reaction { publish, sync: false }
            },
            Event::Removed { id } => {
                self.routes.remove_card(id);
                if let Some(m) = self.metadata {
                    if m == id {
                        self.metadata = None;
                    }
                }
                let publish = self.audio.remove_object(id);
                Reaction { publish, sync: false }
            },
            Event::SyncStarted { seq } => {
                self.pending = Some(seq);
                Reaction { publish: false, sync: false }
            },
            Event::SyncDone { core, seq } => {
                let awaited = match self.pending {
                    Some(p) => core && p == seq,
                    None => false,
                };
                let publish = self.audio.settle(awaited);
                Reaction { publish, sync: false }
            },
        }
    }

    /// What the command `cmd` asks PipeWire to do.
    pub fn command(&self, cmd: &Cmd) -> (plan: Plan)
        requires
            self.wf(),
        ensures
            plan@ == planned(self@.audio, *cmd, self@.metadata is Some),
    {
        self.audio.handle_cmd(cmd, self.metadata.is_some())
    }

    /// Where the volume and the mute switch of the node `id` are written.
    pub fn write_target(&self, id: u32) -> (d: Destination)
        requires
            self.wf(),
        ensures
            d == destination(
                if self@.audio.nodes.dom().contains(id) {
                    Some(self@.audio.nodes[id])
                } else {
                    None
                },
                self@.routes,
            ),
    {
        self.audio.write_target(id, &self.routes)
    }
}

// ---- what the engine promises ------------------------------------------------------------

/// Whenever the graph changed, it is published.
pub proof fn changes_are_published(g: GraphView, e: EventView)
    ensures
        after_event(g, e).0.audio != g.audio ==> after_event(g, e).1.publish,
{
    if let EventView::Removed { id } = e {
        if !g.audio.nodes.dom().contains(id) && !g.audio.links.dom().contains(id) {
            assert(g.audio.links.remove(id) =~= g.audio.links);
        }
    }
}

/// What was there at the start counts as told once, and for good.
pub proof fn completion_is_final(g: GraphView, e: EventView)
    ensures
        g.audio.complete ==> after_event(g, e).0.audio.complete,
        after_event(g, e).0.audio.complete && !g.audio.complete ==> e is SyncDone && g.pending
            == Some(e->SyncDone_seq),
{
}

/// A node that is bound before the start is over puts its end off: a round trip is
/// begun, the one that was waited for no longer ends the start, and the new one
/// does.
pub proof fn a_new_node_puts_completion_off(
    g: GraphView,
    id: u32,
    kind: NodeKind,
    props: Seq<(Seq<char>, Seq<char>)>,
    first: i32,
    second: i32,
)
    requires
        !g.audio.complete,
        g.pending == Some(first),
        first != second,
    ensures
        ({
            let (bound, reaction) = after_event(g, EventView::NodeBound { id, kind, props });
            let begun = after_event(bound, EventView::SyncStarted { seq: second }).0;
            &&& reaction.sync
            &&& !after_event(begun, EventView::SyncDone { core: true, seq: first }).0.audio.complete
            &&& after_event(begun, EventView::SyncDone { core: true, seq: second }).0.audio.complete
        }),
{
}

/// An object that is gone leaves nothing behind: no node or link, no routes, and
/// no choice of defaults.
pub proof fn removal_is_complete(g: GraphView, id: u32)
    requires
        !(g.audio.nodes.dom().contains(id) && g.audio.links.dom().contains(id)),
    ensures
        ({
            let h = after_event(g, EventView::Removed { id }).0;
            &&& !h.audio.nodes.dom().contains(id)
            &&& !h.audio.links.dom().contains(id)
            &&& !h.routes.dom().contains(id)
            &&& h.metadata != Some(id)
        }),
{
}

} // verus!
