//! The audio graph: devices, streams and the links between them, as plain data.

use std::collections::BTreeMap;
use vstd::prelude::*;
use crate::table::{
    are_entries, bound, collected, collected_below, entries, lemma_collect_end, lemma_collect_row,
    lemma_entries, lemma_entry, lemma_keys_grow, lemma_next_row, lemma_row, row_of, rows_of,
};
use crate::text::{opt_copy, opt_view};

verus! {

/// What a node is.
#[derive(Clone, Copy, Debug, PartialEq, Eq, Structural)]
pub enum NodeKind {
    /// An output device.
    Sink,
    /// An input device.
    Source,
    /// A program that plays sound.
    Playback,
    /// A program that records sound.
    Record,
}

/// What a node of the media class `class` is, if it is one that counts.
pub open spec fn kind_of_class(class: Seq<char>) -> Option<NodeKind> {
    if class == "Audio/Sink"@ {
        Some(NodeKind::Sink)
    } else if class == "Audio/Source"@ {
        Some(NodeKind::Source)
    } else if class == "Stream/Output/Audio"@ {
        Some(NodeKind::Playback)
    } else if class == "Stream/Input/Audio"@ {
        Some(NodeKind::Record)
    } else {
        None
    }
}

/// The short name of a kind.
pub open spec fn kind_name(kind: NodeKind) -> Seq<char> {
    match kind {
        NodeKind::Sink => "sink"@,
        NodeKind::Source => "source"@,
        NodeKind::Playback => "stream"@,
        NodeKind::Record => "rec"@,
    }
}

/// Whether a kind is that of a device.
pub open spec fn device_kind(kind: NodeKind) -> bool {
    kind == NodeKind::Sink || kind == NodeKind::Source
}

impl NodeKind {
    /// What a node of the media class `class` is, if it is one that counts.
    pub fn from_media_class(class: &str) -> (r: Option<NodeKind>)
        ensures
            r == kind_of_class(class@),
    {
        if class.eq("Audio/Sink") {
            Some(NodeKind::Sink)
        } else if class.eq("Audio/Source") {
            Some(NodeKind::Source)
        } else if class.eq("Stream/Output/Audio") {
            Some(NodeKind::Playback)
        } else if class.eq("Stream/Input/Audio") {
            Some(NodeKind::Record)
        } else {
            None
        }
    }

    /// The short name of the kind.
    pub fn label(self) -> (s: &'static str)
        ensures
            s@ == kind_name(self),
    {
        match self {
            NodeKind::Sink => "sink",
            NodeKind::Source => "source",
            NodeKind::Playback => "stream",
            NodeKind::Record => "rec",
        }
    }

    /// Whether the kind is that of a device.
    pub fn is_device(self) -> (r: bool)
        ensures
            r == device_kind(self),
    {
        match self {
            NodeKind::Sink => true,
            NodeKind::Source => true,
            _ => false,
        }
    }
}

/// A volume on the scale of the user interface, which goes from silence to full
/// and beyond: the bits of the number itself, that number in percent, and how
/// many of five cells a gauge fills.
#[derive(Clone, Copy, Debug, PartialEq, Eq, Structural)]
pub struct Volume {
    pub bits: u32,
    pub percent: u32,
    pub cells: usize,
}

/// A node of the graph.
pub struct AudioNode {
    pub id: u32,
    pub kind: NodeKind,
    /// The stable name, which the choice of defaults refers to.
    pub node_name: String,
    /// What people call it.
    pub name: String,
    /// What a stream plays.
    pub detail: Option<String>,
    /// The volume; none until it is told.
    pub volume: Option<Volume>,
    pub mute: bool,
    /// The serial number, which a stream's target refers to.
    pub serial: Option<u64>,
    /// How many channels there are; all get the same volume.
    pub channels: usize,
    /// The card or endpoint behind a device.
    pub device_id: Option<u32>,
    /// Which of the card's routes carries the device. The volume of a device
    /// belongs to that route, which the mixer and the hardware follow.
    pub route_device: Option<i32>,
}

/// What an [`AudioNode`] holds.
pub ghost struct AudioNodeView {
    pub id: u32,
    pub kind: NodeKind,
    pub node_name: Seq<char>,
    pub name: Seq<char>,
    pub detail: Option<Seq<char>>,
    pub volume: Option<Volume>,
    pub mute: bool,
    pub serial: Option<u64>,
    pub channels: usize,
    pub device_id: Option<u32>,
    pub route_device: Option<i32>,
}

impl View for AudioNode {
    type V = AudioNodeView;

    open spec fn view(&self) -> AudioNodeView {
        AudioNodeView {
            id: self.id,
            kind: self.kind,
            node_name: self.node_name@,
            name: self.name@,
            detail: opt_view(self.detail),
            volume: self.volume,
            mute: self.mute,
            serial: self.serial,
            channels: self.channels,
            device_id: self.device_id,
            route_device: self.route_device,
        }
    }
}

/// The views of the nodes of `v`.
pub open spec fn node_views(v: Seq<AudioNode>) -> Seq<AudioNodeView> {
    Seq::new(v.len(), |i: int| v[i]@)
}

impl AudioNode {
    /// A copy of the node.
    pub fn duplicate(&self) -> (n: AudioNode)
        ensures
            n@ == self@,
    {
        AudioNode {
            id: self.id,
            kind: self.kind,
            node_name: self.node_name.clone(),
            name: self.name.clone(),
            detail: opt_copy(&self.detail),
            volume: self.volume,
            mute: self.mute,
            serial: self.serial,
            channels: self.channels,
            device_id: self.device_id,
            route_device: self.route_device,
        }
    }
}

/// All that is known of the graph.
pub struct AudioState {
    /// The nodes, by number.
    pub nodes: BTreeMap<u32, AudioNode>,
    /// The links, by number: from which node to which. There are several for
    /// one pair of nodes, one for each channel.
    pub links: BTreeMap<u32, (u32, u32)>,
    /// The stable name of the default output.
    pub default_sink: Option<String>,
    /// The stable name of the default input.
    pub default_source: Option<String>,
    /// Everything that was there at the start has been told.
    pub complete: bool,
}

/// What an [`AudioState`] holds.
#[verifier::ext_equal]
pub ghost struct AudioStateView {
    pub nodes: Map<u32, AudioNodeView>,
    pub links: Map<u32, (u32, u32)>,
    pub default_sink: Option<Seq<char>>,
    pub default_source: Option<Seq<char>>,
    pub complete: bool,
}

/// The views of the values of `m`.
pub open spec fn node_map(m: Map<u32, AudioNode>) -> Map<u32, AudioNodeView> {
    Map::new(|k: u32| m.dom().contains(k), |k: u32| m[k]@)
}

impl View for AudioState {
    type V = AudioStateView;

    open spec fn view(&self) -> AudioStateView {
        AudioStateView {
            nodes: node_map(self.nodes@),
            links: self.links@,
            default_sink: opt_view(self.default_sink),
            default_source: opt_view(self.default_source),
            complete: self.complete,
        }
    }
}

/// The graph before anything is known of it.
pub open spec fn nothing_known() -> AudioStateView {
    AudioStateView {
        nodes: Map::empty(),
        links: Map::empty(),
        default_sink: None,
        default_source: None,
        complete: false,
    }
}

/// Whether `n` is the default device of its kind.
pub open spec fn is_default_node(a: AudioStateView, n: AudioNodeView) -> bool {
    match n.kind {
        NodeKind::Sink => a.default_sink == Some(n.node_name),
        NodeKind::Source => a.default_source == Some(n.node_name),
        _ => false,
    }
}

/// The node at the other end of `link`, as the stream `n` sees it.
pub open spec fn other_end(n: AudioNodeView, link: (u32, u32)) -> Option<u32> {
    if n.kind == NodeKind::Playback && link.0 == n.id {
        Some(link.1)
    } else if n.kind == NodeKind::Record && link.1 == n.id {
        Some(link.0)
    } else {
        None
    }
}

/// Whether the link `k` leads the stream `n` to a device.
pub open spec fn leads(a: AudioStateView, n: AudioNodeView, k: u32) -> bool {
    &&& a.links.dom().contains(k)
    &&& other_end(n, a.links[k]) is Some
    &&& a.nodes.dom().contains(other_end(n, a.links[k])->0)
    &&& device_kind(a.nodes[other_end(n, a.links[k])->0].kind)
}

/// Whether `k` is the first link that leads the stream `n` to a device.
pub open spec fn leads_first(a: AudioStateView, n: AudioNodeView, k: u32) -> bool {
    leads(a, n, k) && forall|j: u32| #[trigger] leads(a, n, j) ==> k <= j
}

/// The device that the stream `n` is linked to, if there is one.
pub open spec fn target(a: AudioStateView, n: AudioNodeView) -> Option<AudioNodeView> {
    if exists|k: u32| leads(a, n, k) {
        let k = choose|k: u32| leads_first(a, n, k);
        Some(a.nodes[other_end(n, a.links[k])->0])
    } else {
        None
    }
}

/// Whether a link connects the stream `s` with the device `d`.
pub open spec fn feeds(a: AudioStateView, s: AudioNodeView, d: AudioNodeView) -> bool {
    exists|k: u32| #[trigger]
        a.links.dom().contains(k) && ((d.kind == NodeKind::Sink && a.links[k] == (s.id, d.id)) || (
        d.kind == NodeKind::Source && a.links[k] == (d.id, s.id)))
}

/// The streams of the device `d`, by growing number.
pub open spec fn device_streams(a: AudioStateView, d: AudioNodeView) -> Seq<AudioNodeView> {
    collected(a.nodes, stream_of(a, d))
}

/// A node, where it is a stream of the device `d`.
pub open spec fn stream_of(a: AudioStateView, d: AudioNodeView) -> spec_fn(
    AudioNodeView,
) -> Option<AudioNodeView> {
    |n: AudioNodeView|
        if !device_kind(n.kind) && feeds(a, n, d) {
            Some(n)
        } else {
            None
        }
}

impl AudioState {
    /// Each node stands under its own number.
    pub open spec fn wf(self) -> bool {
        forall|k: u32| #[trigger]
            self.nodes@.dom().contains(k) ==> self.nodes@[k].id == k
    }

    /// The graph before anything is known of it.
    pub fn new() -> (a: AudioState)
        ensures
            a.wf(),
            a@ == nothing_known(),
    {
        let a = AudioState {
            nodes: BTreeMap::new(),
            links: BTreeMap::new(),
            default_sink: None,
            default_source: None,
            complete: false,
        };
        assert(node_map(a.nodes@) =~= Map::<u32, AudioNodeView>::empty());
        a
    }

    /// A copy of what is known.
    pub fn duplicate(&self) -> (a: AudioState)
        requires
            self.wf(),
        ensures
            a.wf(),
            a@ == self@,
    {
        let mut nodes: BTreeMap<u32, AudioNode> = BTreeMap::new();
        let all = entries(&self.nodes);
        let mut i: usize = 0;
        proof {
            lemma_entries(self.nodes@);
        }
        while i < all.len()
            invariant
                i <= all@.len(),
                are_entries(all@, self.nodes@),
                forall|k: u32| #[trigger]
                    nodes@.dom().contains(k) <==> self.nodes@.dom().contains(k) && row_of(
                        rows_of(self.nodes@),
                        k,
                    ) < i,
                forall|k: u32| #[trigger]
                    nodes@.dom().contains(k) ==> nodes@[k]@ == self.nodes@[k]@,
            decreases all@.len() - i,
        {
            let n = all[i].1.duplicate();
            nodes.insert(all[i].0, n);
            proof {
                lemma_next_row(self.nodes@, i as int);
            }
            i += 1;
        }
        proof {
            assert(forall|k: u32| #[trigger]
                nodes@.dom().contains(k) <==> self.nodes@.dom().contains(k));
            assert(node_map(nodes@) =~= node_map(self.nodes@));
            assert forall|k: u32| #[trigger] nodes@.dom().contains(k) implies nodes@[k].id == k by {
                assert(nodes@[k]@.id == self.nodes@[k]@.id);
            }
        }
        let links = self.links.clone();
        AudioState {
            nodes,
            links,
            default_sink: opt_copy(&self.default_sink),
            default_source: opt_copy(&self.default_source),
            complete: self.complete,
        }
    }

    /// Whether `node` is the default device of its kind.
    pub fn is_default(&self, node: &AudioNode) -> (r: bool)
        ensures
            r == is_default_node(self@, node@),
    {
        let default = match node.kind {
            NodeKind::Sink => &self.default_sink,
            NodeKind::Source => &self.default_source,
            _ => return false,
        };
        match default {
            Some(name) => name.as_str().eq(node.node_name.as_str()),
            None => false,
        }
    }

    /// The number of the device that the stream `stream` is linked to.
    pub fn target_id(&self, stream: &AudioNode) -> (r: Option<u32>)
        requires
            self.wf(),
        ensures
            match r {
                Some(id) => self@.nodes.dom().contains(id) && target(self@, stream@) == Some(
                    self@.nodes[id],
                ) && self@.nodes[id].id == id,
                None => target(self@, stream@) is None,
            },
    {
        let ghost a = self@;
        let ghost n = stream@;
        let all = entries(&self.links);
        let mut i: usize = 0;
        while i < all.len()
            invariant
                i <= all@.len(),
                are_entries(all@, self.links@),
                self.wf(),
                a == self@,
                n == stream@,
                forall|j: int|
                    0 <= j < i ==> !leads(a, n, (#[trigger] rows_of(self.links@)[j]).0),
            decreases all@.len() - i,
        {
            proof {
                lemma_row(self.links@, i as int);
            }
            let k: u32 = all[i].0;
            let pair = *all[i].1;
            let peer = match stream.kind {
                NodeKind::Playback => if pair.0 == stream.id {
                    Some(pair.1)
                } else {
                    None
                },
                NodeKind::Record => if pair.1 == stream.id {
                    Some(pair.0)
                } else {
                    None
                },
                _ => None,
            };
            if let Some(id) = peer {
                if let Some(node) = self.nodes.get(&id) {
                    if node.kind.is_device() {
                        proof {
                            assert(leads(a, n, k));
                            lemma_keys_grow(self.links@);
                            assert forall|j: u32| #[trigger] leads(a, n, j) implies k <= j by {
                                lemma_entry(self.links@, j);
                                let r = row_of(rows_of(self.links@), j);
                                if r < i {
                                    assert(!leads(a, n, rows_of(self.links@)[r].0));
                                } else if r > i {
                                    assert(rows_of(self.links@)[i as int].0
                                        < rows_of(self.links@)[r].0);
                                }
                            }
                            assert(leads_first(a, n, k));
                            let c = choose|c: u32| leads_first(a, n, c);
                            assert(leads(a, n, c));
                            assert(c == k);
                        }
                        return Some(id);
                    }
                }
            }
            i += 1;
        }
        proof {
            if exists|k: u32| leads(a, n, k) {
                let k = choose|k: u32| leads(a, n, k);
                lemma_entry(self.links@, k);
                assert(!leads(a, n, rows_of(self.links@)[row_of(rows_of(self.links@), k)].0));
            }
        }
        None
    }

    /// The device that a stream is linked to: an output for one that plays, an
    /// input for one that records.
    pub fn target_of(&self, stream: &AudioNode) -> (r: Option<AudioNode>)
        requires
            self.wf(),
        ensures
            match r {
                Some(t) => target(self@, stream@) == Some(t@),
                None => target(self@, stream@) is None,
            },
    {
        match self.target_id(stream) {
            Some(id) => match self.nodes.get(&id) {
                Some(t) => Some(t.duplicate()),
                None => None,
            },
            None => None,
        }
    }

    /// Whether a link connects the stream `id` with the device `device`.
    fn is_fed(&self, device: &AudioNode, id: u32) -> (r: bool)
        requires
            self.wf(),
            self@.nodes.dom().contains(id),
            self@.nodes[id].id == id,
        ensures
            r == feeds(self@, self@.nodes[id], device@),
    {
        let ghost a = self@;
        let ghost d = device@;
        let all = entries(&self.links);
        let mut i: usize = 0;
        while i < all.len()
            invariant
                i <= all@.len(),
                are_entries(all@, self.links@),
                self.wf(),
                a == self@,
                d == device@,
                a.nodes[id].id == id,
                forall|j: int|
                    0 <= j < i ==> {
                        let pair = (#[trigger] rows_of(self.links@)[j]).1;
                        !((d.kind == NodeKind::Sink && pair == (id, d.id)) || (d.kind
                            == NodeKind::Source && pair == (d.id, id)))
                    },
            decreases all@.len() - i,
        {
            proof {
                lemma_row(self.links@, i as int);
            }
            let pair = *all[i].1;
            let hit = match device.kind {
                NodeKind::Sink => pair.0 == id && pair.1 == device.id,
                NodeKind::Source => pair.0 == device.id && pair.1 == id,
                _ => false,
            };
            if hit {
                assert(a.links.dom().contains(rows_of(self.links@)[i as int].0));
                return true;
            }
            i += 1;
        }
        proof {
            if feeds(a, a.nodes[id], d) {
                let k = choose|k: u32| #[trigger]
                    a.links.dom().contains(k) && ((d.kind == NodeKind::Sink && a.links[k] == (
                        id,
                        d.id,
                    )) || (d.kind == NodeKind::Source && a.links[k] == (d.id, id)));
                lemma_entry(self.links@, k);
                assert(rows_of(self.links@)[row_of(rows_of(self.links@), k)].1 == a.links[k]);
            }
        }
        false
    }

    /// The streams that are routed to a device, by growing number.
    pub fn streams_of(&self, device: &AudioNode) -> (list: Vec<AudioNode>)
        requires
            self.wf(),
        ensures
            node_views(list@) == device_streams(self@, device@),
    {
        let ghost a = self@;
        let ghost f = stream_of(a, device@);
        let mut list: Vec<AudioNode> = Vec::new();
        let all = entries(&self.nodes);
        let ghost rows = rows_of(self.nodes@);
        let mut i: usize = 0;
        assert(node_views(list@) =~= collected_below(a.nodes, f, bound(rows, 0)));
        while i < all.len()
            invariant
                i <= all@.len(),
                rows == rows_of(self.nodes@),
                are_entries(all@, self.nodes@),
                self.wf(),
                a == self@,
                f == stream_of(a, device@),
                node_views(list@) == collected_below(a.nodes, f, bound(rows, i as int)),
            decreases all@.len() - i,
        {
            let id: u32 = all[i].0;
            proof {
                lemma_row(self.nodes@, i as int);
                assert(self.nodes@.dom().contains(id));
                assert(a.nodes[id] == rows[i as int].1@);
                lemma_collect_row(self.nodes@, a.nodes, f, i as int);
            }
            if !all[i].1.kind.is_device() && self.is_fed(device, id) {
                let n = all[i].1.duplicate();
                let ghost nv = n@;
                let ghost done = list@;
                list.push(n);
                assert(node_views(list@) =~= node_views(done).push(nv));
            }
            i += 1;
        }
        proof {
            lemma_collect_end(self.nodes@, a.nodes, f);
        }
        list
    }
}

/// Of the links that lead a stream to a device there is a first.
proof fn lemma_first_link(a: AudioStateView, n: AudioNodeView, k: u32)
    requires
        leads(a, n, k),
    ensures
        exists|j: u32| leads_first(a, n, j),
    decreases k,
{
    if !leads_first(a, n, k) {
        let j = choose|j: u32| #[trigger] leads(a, n, j) && j < k;
        lemma_first_link(a, n, j);
    }
}

/// The target of a stream counts it among its streams, where it is a device of
/// the fitting kind.
pub proof fn target_counts_the_stream(a: AudioStateView, s: AudioNodeView)
    requires
        target(a, s) is Some,
        forall|k: u32| #[trigger] a.nodes.dom().contains(k) ==> a.nodes[k].id == k,
        s.kind == NodeKind::Playback ==> target(a, s)->0.kind == NodeKind::Sink,
        s.kind == NodeKind::Record ==> target(a, s)->0.kind == NodeKind::Source,
    ensures
        feeds(a, s, target(a, s)->0),
{
    lemma_first_link(a, s, choose|k: u32| leads(a, s, k));
    let k = choose|k: u32| leads_first(a, s, k);
    assert(leads(a, s, k));
    assert(a.links.dom().contains(k));
}

/// A device has no target.
pub proof fn devices_have_no_target(a: AudioStateView, n: AudioNodeView)
    requires
        device_kind(n.kind),
    ensures
        target(a, n) is None,
{
}

/// At most one node name is the default of each kind.
pub proof fn defaults_are_unique(a: AudioStateView, m: AudioNodeView, n: AudioNodeView)
    requires
        is_default_node(a, m),
        is_default_node(a, n),
        m.kind == n.kind,
    ensures
        m.node_name == n.node_name,
        device_kind(m.kind),
{
}

} // verus!
