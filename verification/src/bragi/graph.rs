//! How the audio graph follows what PipeWire tells, and what a command asks
//! PipeWire to do.

use serde_json::{Map as JsonObject, Value};
use std::collections::HashMap;
use vstd::prelude::*;
use crate::bragi::laws::{keys_are_reported_back, reported_key};
use crate::bragi::state::{
    device_kind, is_default_node, kind_of_class, node_map, AudioNode, AudioNodeView, AudioState,
    AudioStateView, NodeKind, Volume,
};
use crate::number::{decimal, decimal_of, parse, parse_i32, parsed, parsed_i32};
use crate::text::opt_view;

verus! {

// ---- properties ------------------------------------------------------------------

/// The properties of an object.
pub struct Props {
    pub items: Vec<(String, String)>,
}

impl View for Props {
    type V = Seq<(Seq<char>, Seq<char>)>;

    open spec fn view(&self) -> Seq<(Seq<char>, Seq<char>)> {
        Seq::new(self.items@.len(), |i: int| (self.items@[i].0@, self.items@[i].1@))
    }
}

/// The first property `key` from `from` on.
pub open spec fn prop_from(
    props: Seq<(Seq<char>, Seq<char>)>,
    key: Seq<char>,
    from: int,
) -> Option<Seq<char>>
    decreases props.len() - from,
{
    if from >= props.len() {
        None
    } else if props[from].0 == key {
        Some(props[from].1)
    } else {
        prop_from(props, key, from + 1)
    }
}

/// The property `key`.
pub open spec fn prop(props: Seq<(Seq<char>, Seq<char>)>, key: Seq<char>) -> Option<Seq<char>> {
    prop_from(props, key, 0)
}

/// The property `key` as a number of at most `max`.
pub open spec fn prop_number(
    props: Seq<(Seq<char>, Seq<char>)>,
    key: Seq<char>,
    max: nat,
) -> Option<nat> {
    match prop(props, key) {
        Some(s) => parsed(s, 10, max),
        None => None,
    }
}

/// The card behind a device.
pub open spec fn device_id_of(props: Seq<(Seq<char>, Seq<char>)>) -> Option<u32> {
    match prop_number(props, "device.id"@, u32::MAX as nat) {
        Some(n) => Some(n as u32),
        None => None,
    }
}

/// The route that carries a device.
pub open spec fn route_device_of(props: Seq<(Seq<char>, Seq<char>)>) -> Option<i32> {
    match prop(props, "card.profile.device"@) {
        Some(s) => match parsed_i32(s) {
            Some(n) => Some(n as i32),
            None => None,
        },
        None => None,
    }
}

/// The serial number of an object.
pub open spec fn serial_of(props: Seq<(Seq<char>, Seq<char>)>) -> Option<u64> {
    match prop_number(props, "object.serial"@, u64::MAX as nat) {
        Some(n) => Some(n as u64),
        None => None,
    }
}

/// `a`, or `b` where there is none.
pub open spec fn either(a: Option<Seq<char>>, b: Option<Seq<char>>) -> Option<Seq<char>> {
    if a is Some {
        a
    } else {
        b
    }
}

/// What people call a node: devices describe themselves, and streams go by
/// their program.
pub open spec fn friendly_name(
    kind: NodeKind,
    props: Seq<(Seq<char>, Seq<char>)>,
) -> Seq<char> {
    let preferred = if device_kind(kind) {
        either(prop(props, "node.description"@), prop(props, "node.nick"@))
    } else {
        prop(props, "app.name"@)
    };
    match either(preferred, prop(props, "node.name"@)) {
        Some(s) => s,
        None => "(unnamed)"@,
    }
}

/// A new node with the properties `props`.
pub open spec fn new_node(
    id: u32,
    kind: NodeKind,
    props: Seq<(Seq<char>, Seq<char>)>,
) -> AudioNodeView {
    AudioNodeView {
        id,
        kind,
        node_name: match prop(props, "node.name"@) {
            Some(s) => s,
            None => seq![],
        },
        name: friendly_name(kind, props),
        detail: prop(props, "media.name"@),
        volume: None,
        mute: false,
        serial: serial_of(props),
        channels: 2,
        device_id: device_id_of(props),
        route_device: route_device_of(props),
    }
}

/// `n` with what the full properties `props` say of it.
pub open spec fn with_info(
    n: AudioNodeView,
    props: Seq<(Seq<char>, Seq<char>)>,
) -> AudioNodeView {
    AudioNodeView {
        device_id: if device_id_of(props) is Some {
            device_id_of(props)
        } else {
            n.device_id
        },
        route_device: if route_device_of(props) is Some {
            route_device_of(props)
        } else {
            n.route_device
        },
        detail: either(prop(props, "media.name"@), n.detail),
        ..n
    }
}

impl Props {
    /// The property `key`.
    pub fn get(&self, key: &str) -> (r: Option<String>)
        ensures
            opt_view(r) == prop(self@, key@),
    {
        let mut i: usize = 0;
        while i < self.items.len()
            invariant
                i <= self.items@.len(),
                prop(self@, key@) == prop_from(self@, key@, i as int),
            decreases self.items@.len() - i,
        {
            assert(self@[i as int] == (self.items@[i as int].0@, self.items@[i as int].1@));
            if self.items[i].0.as_str().eq(key) {
                return Some(self.items[i].1.clone());
            }
            i += 1;
        }
        None
    }

    /// The property `key` as a number of at most `max`.
    fn number(&self, key: &str, max: u64) -> (r: Option<u64>)
        ensures
            match prop_number(self@, key@, max as nat) {
                Some(n) => r == Some(n as u64) && r->0 == n,
                None => r is None,
            },
            r is Some ==> r->0 <= max,
    {
        match self.get(key) {
            Some(s) => parse(s.as_str(), 10, max),
            None => None,
        }
    }

    /// The card behind a device.
    fn device_id(&self) -> (r: Option<u32>)
        ensures
            r == device_id_of(self@),
    {
        match self.number("device.id", u32::MAX as u64) {
            Some(n) => Some(n as u32),
            None => None,
        }
    }

    /// The route that carries a device.
    fn route_device(&self) -> (r: Option<i32>)
        ensures
            r == route_device_of(self@),
    {
        match self.get("card.profile.device") {
            Some(s) => parse_i32(s.as_str()),
            None => None,
        }
    }

    /// What kind of node the object is, if it is one that counts.
    pub fn audio_kind(&self) -> (r: Option<NodeKind>)
        ensures
            r == match prop(self@, "media.class"@) {
                Some(c) => kind_of_class(c),
                None => None,
            },
    {
        match self.get("media.class") {
            Some(c) => NodeKind::from_media_class(c.as_str()),
            None => None,
        }
    }

    /// Whether the object is a card or an endpoint.
    pub fn is_audio_device(&self) -> (r: bool)
        ensures
            r == (prop(self@, "media.class"@) == Some("Audio/Device"@)),
    {
        match self.get("media.class") {
            Some(c) => c.as_str().eq("Audio/Device"),
            None => false,
        }
    }

    /// Whether the object holds the choice of defaults.
    pub fn is_default_metadata(&self) -> (r: bool)
        ensures
            r == (prop(self@, "metadata.name"@) == Some("default"@)),
    {
        match self.get("metadata.name") {
            Some(c) => c.as_str().eq("default"),
            None => false,
        }
    }

    /// Whether the object is a link with both its ends.
    pub fn has_link_ends(&self) -> (r: bool)
        ensures
            r == (link_ends(self@) is Some),
    {
        self.number("link.output.node", u32::MAX as u64).is_some() && self.number(
            "link.input.node",
            u32::MAX as u64,
        ).is_some()
    }

    /// What people call a node: devices describe themselves, and streams go by
    /// their program.
    pub fn display_name(&self, kind: NodeKind) -> (s: String)
        ensures
            s@ == friendly_name(kind, self@),
    {
        let preferred = if kind.is_device() {
            match self.get("node.description") {
                Some(s) => Some(s),
                None => self.get("node.nick"),
            }
        } else {
            self.get("app.name")
        };
        let name = match preferred {
            Some(s) => Some(s),
            None => self.get("node.name"),
        };
        match name {
            Some(s) => s,
            None => "(unnamed)".to_owned(),
        }
    }

    /// A new node of the kind `kind` with these properties.
    pub fn node(&self, id: u32, kind: NodeKind) -> (n: AudioNode)
        ensures
            n@ == new_node(id, kind, self@),
    {
        let node_name = match self.get("node.name") {
            Some(s) => s,
            None => {
                let s = String::new();
                assert(s@ =~= Seq::<char>::empty());
                s
            },
        };
        AudioNode {
            id,
            kind,
            node_name,
            name: self.display_name(kind),
            detail: self.get("media.name"),
            volume: None,
            mute: false,
            serial: self.number("object.serial", u64::MAX),
            channels: 2,
            device_id: self.device_id(),
            route_device: self.route_device(),
        }
    }
}

// ---- parameters ------------------------------------------------------------------

/// A property of a node's parameters.
#[derive(Clone, Copy, Debug)]
pub enum NodeParam {
    /// The channel volumes: their maximum on the scale of the user interface
    /// and their number, or nothing where there are no channels.
    Volumes(Option<(Volume, usize)>),
    Mute(bool),
    /// Anything else.
    Other,
}

/// The last volumes among the first `n` of `params`.
pub open spec fn last_volume(params: Seq<NodeParam>, n: int) -> Option<(Volume, usize)>
    decreases n,
{
    if n <= 0 {
        None
    } else {
        match params[n - 1] {
            NodeParam::Volumes(v) => v,
            _ => last_volume(params, n - 1),
        }
    }
}

/// The last mute switch among the first `n` of `params`.
pub open spec fn last_mute(params: Seq<NodeParam>, n: int) -> Option<bool>
    decreases n,
{
    if n <= 0 {
        None
    } else {
        match params[n - 1] {
            NodeParam::Mute(m) => Some(m),
            _ => last_mute(params, n - 1),
        }
    }
}

/// The volume and the mute switch that a node's parameters give.
pub fn parse_props(params: &Vec<NodeParam>) -> (r: (Option<(Volume, usize)>, Option<bool>))
    ensures
        r.0 == last_volume(params@, params@.len() as int),
        r.1 == last_mute(params@, params@.len() as int),
{
    let mut volume: Option<(Volume, usize)> = None;
    let mut mute: Option<bool> = None;
    let mut i: usize = 0;
    while i < params.len()
        invariant
            i <= params@.len(),
            volume == last_volume(params@, i as int),
            mute == last_mute(params@, i as int),
        decreases params@.len() - i,
    {
        match params[i] {
            NodeParam::Volumes(v) => volume = v,
            NodeParam::Mute(m) => mute = Some(m),
            NodeParam::Other => {},
        }
        i += 1;
    }
    (volume, mute)
}

/// A property of a route.
#[derive(Clone, Copy, Debug, PartialEq, Eq, Structural)]
pub enum RouteParam {
    Index(i32),
    Device(i32),
    /// Anything else.
    Other,
}

/// The last index among the first `n` of `params`.
pub open spec fn last_index(params: Seq<RouteParam>, n: int) -> Option<i32>
    decreases n,
{
    if n <= 0 {
        None
    } else {
        match params[n - 1] {
            RouteParam::Index(i) => Some(i),
            _ => last_index(params, n - 1),
        }
    }
}

/// The last device among the first `n` of `params`.
pub open spec fn last_device(params: Seq<RouteParam>, n: int) -> Option<i32>
    decreases n,
{
    if n <= 0 {
        None
    } else {
        match params[n - 1] {
            RouteParam::Device(d) => Some(d),
            _ => last_device(params, n - 1),
        }
    }
}

/// The index and the device of a route; none where one is missing.
pub fn parse_route(params: &Vec<RouteParam>) -> (r: Option<(i32, i32)>)
    ensures
        match r {
            Some(p) => last_index(params@, params@.len() as int) == Some(p.0) && last_device(
                params@,
                params@.len() as int,
            ) == Some(p.1),
            None => last_index(params@, params@.len() as int) is None || last_device(
                params@,
                params@.len() as int,
            ) is None,
        },
{
    let mut index: Option<i32> = None;
    let mut device: Option<i32> = None;
    let mut i: usize = 0;
    while i < params.len()
        invariant
            i <= params@.len(),
            index == last_index(params@, i as int),
            device == last_device(params@, i as int),
        decreases params@.len() - i,
    {
        match params[i] {
            RouteParam::Index(n) => index = Some(n),
            RouteParam::Device(n) => device = Some(n),
            RouteParam::Other => {},
        }
        i += 1;
    }
    match (index, device) {
        (Some(a), Some(b)) => Some((a, b)),
        _ => None,
    }
}

// ---- defaults as JSON --------------------------------------------------------------

/// The string under `key` of the JSON object that `text` holds, as `serde_json`
/// reads it; none where `text` is no such object.
pub uninterp spec fn json_field(text: Seq<char>, key: Seq<char>) -> Option<Seq<char>>;

/// The digit `d` in hexadecimal notation.
pub open spec fn hex_digit(d: nat) -> char {
    if d < 10 {
        ('0' as u32 + d as u32) as char
    } else {
        ('a' as u32 + (d - 10) as u32) as char
    }
}

/// The character `c` inside a JSON string.
pub open spec fn json_char(c: char) -> Seq<char> {
    if c == '"' || c == '\\' {
        seq!['\\', c]
    } else if c == '\u{8}' {
        seq!['\\', 'b']
    } else if c == '\t' {
        seq!['\\', 't']
    } else if c == '\n' {
        seq!['\\', 'n']
    } else if c == '\u{c}' {
        seq!['\\', 'f']
    } else if c == '\r' {
        seq!['\\', 'r']
    } else if c <= '\u{1f}' {
        seq!['\\', 'u', '0', '0', hex_digit(c as nat / 16), hex_digit(c as nat % 16)]
    } else {
        seq![c]
    }
}

/// The text `s` inside a JSON string.
pub open spec fn json_escaped(s: Seq<char>) -> Seq<char>
    decreases s.len(),
{
    if s.len() == 0 {
        seq![]
    } else {
        json_escaped(s.drop_last()) + json_char(s.last())
    }
}

/// The JSON object that holds the string `value` under `key` alone, in compact
/// notation.
pub open spec fn json_object(key: Seq<char>, value: Seq<char>) -> Seq<char> {
    seq!['{', '"'] + json_escaped(key) + seq!['"', ':', '"'] + json_escaped(value) + seq!['"', '}']
}

/// `Value::to_string` of a JSON object that holds `value` under `key` alone: the
/// compact notation, with quotes, backslashes and control characters escaped. Reading
/// it gives the value back.
#[verifier::external_body]
fn field_to_json(key: &str, value: &str) -> (text: String)
    ensures
        text@ == json_object(key@, value@),
        json_field(text@, key@) == Some(value@),
{
    let mut object = JsonObject::new();
    object.insert(String::from(key), Value::String(String::from(value)));
    Value::Object(object).to_string()
}

/// `serde_json::from_str`, and the string under `key` of the object that it
/// gives. The JSON grammar is not restated here.
#[verifier::external_body]
fn field_from_json(text: &str, key: &str) -> (r: Option<String>)
    ensures
        opt_view(r) == json_field(text@, key@),
{
    let v: Value = serde_json::from_str(text).ok()?;
    v.get(key)?.as_str().map(String::from)
}

/// The node name in a choice of default, `{"name": "…"}`.
pub fn default_node_name(value: &str) -> (r: Option<String>)
    ensures
        opt_view(r) == json_field(value@, "name"@),
{
    field_from_json(value, "name")
}

// ---- events ----------------------------------------------------------------------

/// `a` with the node `n` under its number.
pub open spec fn with_node(a: AudioStateView, n: AudioNodeView) -> AudioStateView {
    AudioStateView { nodes: a.nodes.insert(n.id, n), ..a }
}

/// `a` after the object `id` is gone.
pub open spec fn without_object(a: AudioStateView, id: u32) -> AudioStateView {
    if a.nodes.dom().contains(id) {
        AudioStateView { nodes: a.nodes.remove(id), ..a }
    } else {
        AudioStateView { links: a.links.remove(id), ..a }
    }
}

/// `a` after the default `key` was set to what `name` says.
pub open spec fn with_default(
    a: AudioStateView,
    key: Option<Seq<char>>,
    name: Option<Seq<char>>,
) -> AudioStateView {
    if key == Some("default.audio.sink"@) {
        AudioStateView { default_sink: name, ..a }
    } else if key == Some("default.audio.source"@) {
        AudioStateView { default_source: name, ..a }
    } else {
        a
    }
}

/// The key under which the default of a kind of device is told.
pub open spec fn effective_key(kind: NodeKind) -> Seq<char> {
    if kind == NodeKind::Sink {
        "default.audio.sink"@
    } else {
        "default.audio.source"@
    }
}

/// The ends of a link with the properties `props`, if it has both.
pub open spec fn link_ends(props: Seq<(Seq<char>, Seq<char>)>) -> Option<(u32, u32)> {
    match (
        prop_number(props, "link.output.node"@, u32::MAX as nat),
        prop_number(props, "link.input.node"@, u32::MAX as nat),
    ) {
        (Some(a), Some(b)) => Some((a as u32, b as u32)),
        _ => None,
    }
}

impl AudioState {
    /// Put `n` under its number.
    fn put(&mut self, n: AudioNode)
        requires
            old(self).wf(),
        ensures
            final(self).wf(),
            final(self)@ == with_node(old(self)@, n@),
    {
        let ghost before = self.nodes@;
        let ghost nv = n@;
        let id: u32 = n.id;
        self.nodes.insert(id, n);
        assert(node_map(self.nodes@) =~= node_map(before).insert(id, nv));
    }

    /// A node of the kind `kind` is there.
    pub fn add_node(&mut self, id: u32, kind: NodeKind, props: &Props)
        requires
            old(self).wf(),
        ensures
            final(self).wf(),
            final(self)@ == with_node(old(self)@, new_node(id, kind, props@)),
    {
        self.put(props.node(id, kind));
    }

    /// The full properties of the node `id` are known; returns whether they
    /// change anything.
    pub fn node_info(&mut self, id: u32, props: &Props) -> (changed: bool)
        requires
            old(self).wf(),
        ensures
            final(self).wf(),
            final(self)@ == if old(self)@.nodes.dom().contains(id) {
                with_node(old(self)@, with_info(old(self)@.nodes[id], props@))
            } else {
                old(self)@
            },
            changed == (old(self)@.nodes.dom().contains(id) && with_info(
                old(self)@.nodes[id],
                props@,
            ) != old(self)@.nodes[id]),
    {
        let found = match self.nodes.get(&id) {
            Some(n) => Some(n.duplicate()),
            None => None,
        };
        let mut n = match found {
            Some(n) => n,
            None => return false,
        };
        let ghost before = n@;
        let mut changed = false;
        let device_id = props.device_id();
        if device_id.is_some() && n.device_id != device_id {
            n.device_id = device_id;
            changed = true;
        }
        let route_device = props.route_device();
        if route_device.is_some() && n.route_device != route_device {
            n.route_device = route_device;
            changed = true;
        }
        if let Some(detail) = props.get("media.name") {
            let same = match &n.detail {
                Some(d) => d.as_str().eq(detail.as_str()),
                None => false,
            };
            if !same {
                n.detail = Some(detail);
                changed = true;
            }
        }
        assert(n@ == with_info(before, props@));
        assert(n.id == id);
        self.put(n);
        changed
    }

    /// The volume or the mute switch of the node `id` was told; returns whether
    /// that says anything of a node that is there.
    pub fn node_levels(
        &mut self,
        id: u32,
        volume: Option<(Volume, usize)>,
        mute: Option<bool>,
    ) -> (told: bool)
        requires
            old(self).wf(),
        ensures
            final(self).wf(),
            told == ((volume is Some || mute is Some) && old(self)@.nodes.dom().contains(id)),
            final(self)@ == if told {
                let n = old(self)@.nodes[id];
                with_node(
                    old(self)@,
                    AudioNodeView {
                        volume: match volume {
                            Some(v) => Some(v.0),
                            None => n.volume,
                        },
                        channels: match volume {
                            Some(v) => v.1,
                            None => n.channels,
                        },
                        mute: match mute {
                            Some(m) => m,
                            None => n.mute,
                        },
                        ..n
                    },
                )
            } else {
                old(self)@
            },
    {
        if volume.is_none() && mute.is_none() {
            return false;
        }
        let found = match self.nodes.get(&id) {
            Some(n) => Some(n.duplicate()),
            None => None,
        };
        let mut n = match found {
            Some(n) => n,
            None => return false,
        };
        if let Some(v) = volume {
            n.volume = Some(v.0);
            n.channels = v.1;
        }
        if let Some(m) = mute {
            n.mute = m;
        }
        assert(n.id == id);
        self.put(n);
        true
    }

    /// A link is there; returns whether it has both ends, and is counted.
    pub fn add_link(&mut self, id: u32, props: &Props) -> (counted: bool)
        requires
            old(self).wf(),
        ensures
            final(self).wf(),
            counted == (link_ends(props@) is Some),
            final(self)@ == match link_ends(props@) {
                Some(ends) => AudioStateView {
                    links: old(self)@.links.insert(id, ends),
                    ..old(self)@
                },
                None => old(self)@,
            },
    {
        let out = props.number("link.output.node", u32::MAX as u64);
        let inp = props.number("link.input.node", u32::MAX as u64);
        match (out, inp) {
            (Some(a), Some(b)) => {
                self.links.insert(id, (a as u32, b as u32));
                true
            },
            _ => false,
        }
    }

    /// A choice of default was told; returns whether it is one that counts.
    pub fn set_default(&mut self, key: &Option<String>, value: &Option<String>) -> (counted: bool)
        requires
            old(self).wf(),
        ensures
            final(self).wf(),
            counted == (opt_view(*key) == Some("default.audio.sink"@) || opt_view(*key) == Some(
                "default.audio.source"@,
            )),
            final(self)@ == with_default(
                old(self)@,
                opt_view(*key),
                match opt_view(*value) {
                    Some(v) => json_field(v, "name"@),
                    None => None,
                },
            ),
    {
        let name = match value {
            Some(v) => default_node_name(v.as_str()),
            None => None,
        };
        match key {
            Some(k) => {
                if k.as_str().eq("default.audio.sink") {
                    self.default_sink = name;
                    true
                } else if k.as_str().eq("default.audio.source") {
                    self.default_source = name;
                    true
                } else {
                    false
                }
            },
            None => false,
        }
    }

    /// The object `id` is gone; returns whether that changes the graph.
    pub fn remove_object(&mut self, id: u32) -> (changed: bool)
        requires
            old(self).wf(),
        ensures
            final(self).wf(),
            changed == (old(self)@.nodes.dom().contains(id) || old(self)@.links.dom().contains(id)),
            final(self)@ == without_object(old(self)@, id),
    {
        let ghost before = self.nodes@;
        if self.nodes.remove(&id).is_some() {
            assert(node_map(self.nodes@) =~= node_map(before).remove(id));
            return true;
        }
        assert(node_map(self.nodes@) =~= node_map(before)) by {
            assert(before.remove(id) =~= before);
        }
        self.links.remove(&id).is_some()
    }

    /// The round trip that is waited for came back; returns whether that
    /// settles the start.
    pub fn settle(&mut self, awaited: bool) -> (settled: bool)
        requires
            old(self).wf(),
        ensures
            final(self).wf(),
            settled == (awaited && !old(self)@.complete),
            final(self)@ == (AudioStateView {
                complete: old(self)@.complete || awaited,
                ..old(self)@
            }),
    {
        if awaited && !self.complete {
            self.complete = true;
            true
        } else {
            false
        }
    }
}

// ---- commands --------------------------------------------------------------------

/// What the picker asks of the engine.
#[derive(Clone, Copy, Debug, PartialEq, Eq, Structural)]
pub enum Cmd {
    /// Route a stream to a device.
    Move { stream: u32, target: u32 },
    /// Make a device the default of its kind.
    SetDefault { device: u32 },
    /// Change the volume of a node by this many percent.
    AdjustVolume { node: u32, percent: i32 },
    /// Switch the sound of a node off or on.
    ToggleMute { node: u32 },
}

/// What a command asks PipeWire to do.
pub enum Plan {
    Nothing,
    /// Change the volume `from` of a node by this many percent, on this many
    /// channels.
    Volume { node: u32, from: Volume, percent: i32, channels: usize },
    /// Set the mute switch of a node.
    Mute { node: u32, mute: bool },
    /// Write a property of the metadata.
    Metadata { subject: u32, key: &'static str, kind: &'static str, value: String },
}

/// What a [`Plan`] asks for.
pub ghost enum PlanView {
    Nothing,
    Volume(u32, Volume, i32, usize),
    Mute(u32, bool),
    Metadata(u32, Seq<char>, Seq<char>, Seq<char>),
}

impl View for Plan {
    type V = PlanView;

    open spec fn view(&self) -> PlanView {
        match self {
            Plan::Nothing => PlanView::Nothing,
            Plan::Volume { node, from, percent, channels } => PlanView::Volume(
                *node,
                *from,
                *percent,
                *channels,
            ),
            Plan::Mute { node, mute } => PlanView::Mute(*node, *mute),
            Plan::Metadata { subject, key, kind, value } => PlanView::Metadata(
                *subject,
                key@,
                kind@,
                value@,
            ),
        }
    }
}

/// The JSON text of a choice of default.
pub open spec fn default_choice(name: Seq<char>) -> Seq<char> {
    json_object("name"@, name)
}

/// What the command `cmd` asks PipeWire to do. `has_metadata` says whether there
/// is an object that holds the choice of defaults.
pub open spec fn planned(a: AudioStateView, cmd: Cmd, has_metadata: bool) -> PlanView {
    match cmd {
        Cmd::AdjustVolume { node, percent } => if a.nodes.dom().contains(node)
            && a.nodes[node].volume is Some {
            let n = a.nodes[node];
            PlanView::Volume(
                node,
                n.volume->0,
                percent,
                if n.channels == 0 {
                    1
                } else {
                    n.channels
                },
            )
        } else {
            PlanView::Nothing
        },
        Cmd::ToggleMute { node } => if a.nodes.dom().contains(node) {
            PlanView::Mute(node, !a.nodes[node].mute)
        } else {
            PlanView::Nothing
        },
        Cmd::Move { stream, target } => if has_metadata && a.nodes.dom().contains(stream)
            && a.nodes.dom().contains(target) {
            let t = a.nodes[target];
            PlanView::Metadata(
                stream,
                "target.object"@,
                "Spa:Id"@,
                match t.serial {
                    Some(n) => decimal(n as nat),
                    None => t.node_name,
                },
            )
        } else {
            PlanView::Nothing
        },
        Cmd::SetDefault { device } => if has_metadata && a.nodes.dom().contains(device)
            && device_kind(a.nodes[device].kind) {
            let n = a.nodes[device];
            PlanView::Metadata(
                0,
                if n.kind == NodeKind::Sink {
                    "default.configured.audio.sink"@
                } else {
                    "default.configured.audio.source"@
                },
                "Spa:String:JSON"@,
                default_choice(n.node_name),
            )
        } else {
            PlanView::Nothing
        },
    }
}

impl AudioState {
    /// What the command `cmd` asks PipeWire to do. `has_metadata` says whether
    /// there is an object that holds the choice of defaults. A choice of default
    /// takes effect once PipeWire tells it back: the device is then the default
    /// of its kind.
    pub fn handle_cmd(&self, cmd: &Cmd, has_metadata: bool) -> (plan: Plan)
        requires
            self.wf(),
        ensures
            plan@ == planned(self@, *cmd, has_metadata),
            cmd is SetDefault && plan@ is Metadata ==> is_default_node(
                with_default(
                    self@,
                    Some(effective_key(self@.nodes[cmd->device].kind)),
                    json_field(plan@->Metadata_3, "name"@),
                ),
                self@.nodes[cmd->device],
            ),
            cmd matches Cmd::SetDefault { device } ==> plan matches Plan::Metadata {
                subject,
                key,
                kind,
                value,
            } ==> {
                &&& self.nodes@.dom().contains(*device)
                &&& self.nodes@[*device].kind == NodeKind::Sink ==> key@
                    == "default.configured.audio.sink"@
                &&& self.nodes@[*device].kind == NodeKind::Source ==> key@
                    == "default.configured.audio.source"@
                &&& json_field(value@, "name"@) == Some(self.nodes@[*device].node_name@)
            },
            cmd is SetDefault && plan@ is Metadata ==> is_default_node(
                with_default(
                    self@,
                    Some(reported_key(plan@->Metadata_1)),
                    json_field(plan@->Metadata_3, "name"@),
                ),
                self@.nodes[cmd->device],
            ),
    {
        match cmd {
            Cmd::AdjustVolume { node, percent } => match self.nodes.get(node) {
                Some(n) => match n.volume {
                    Some(v) => Plan::Volume {
                        node: *node,
                        from: v,
                        percent: *percent,
                        channels: if n.channels == 0 {
                            1
                        } else {
                            n.channels
                        },
                    },
                    None => Plan::Nothing,
                },
                None => Plan::Nothing,
            },
            Cmd::ToggleMute { node } => match self.nodes.get(node) {
                Some(n) => Plan::Mute { node: *node, mute: !n.mute },
                None => Plan::Nothing,
            },
            Cmd::Move { stream, target } => {
                if !has_metadata || !self.nodes.contains_key(stream) {
                    return Plan::Nothing;
                }
                match self.nodes.get(target) {
                    Some(t) => Plan::Metadata {
                        subject: *stream,
                        key: "target.object",
                        kind: "Spa:Id",
                        value: match t.serial {
                            Some(n) => decimal_of(n),
                            None => t.node_name.clone(),
                        },
                    },
                    None => Plan::Nothing,
                }
            },
            Cmd::SetDefault { device } => {
                if !has_metadata {
                    return Plan::Nothing;
                }
                match self.nodes.get(device) {
                    Some(n) => {
                        let key = match n.kind {
                            NodeKind::Sink => "default.configured.audio.sink",
                            NodeKind::Source => "default.configured.audio.source",
                            _ => return Plan::Nothing,
                        };
                        proof {
                            keys_are_reported_back();
                        }
                        Plan::Metadata {
                            subject: 0,
                            key,
                            kind: "Spa:String:JSON",
                            value: field_to_json("name", n.node_name.as_str()),
                        }
                    },
                    None => Plan::Nothing,
                }
            },
        }
    }
}

// ---- routes ----------------------------------------------------------------------

/// The active routes of the cards: for each card and each of its devices, the
/// index of the route.
pub struct Routes {
    pub cards: HashMap<u32, HashMap<i32, i32>>,
}

impl View for Routes {
    type V = Map<u32, Map<i32, i32>>;

    open spec fn view(&self) -> Map<u32, Map<i32, i32>> {
        Map::new(|card: u32| self.cards@.dom().contains(card), |card: u32| self.cards@[card]@)
    }
}

/// The index of the route that carries `device` of `card`, if it is known.
pub open spec fn known_route(
    routes: Map<u32, Map<i32, i32>>,
    card: u32,
    device: i32,
) -> Option<i32> {
    if routes.dom().contains(card) && routes[card].dom().contains(device) {
        Some(routes[card][device])
    } else {
        None
    }
}

/// `routes` once the route with the index `index` carries `device` of `card`. A
/// card that is not there has no routes.
pub open spec fn with_route(
    routes: Map<u32, Map<i32, i32>>,
    card: u32,
    device: i32,
    index: i32,
) -> Map<u32, Map<i32, i32>> {
    if routes.dom().contains(card) {
        routes.insert(card, routes[card].insert(device, index))
    } else {
        routes
    }
}

/// Where the volume and the mute switch of a node are written.
#[derive(Clone, Copy, Debug, PartialEq, Eq, Structural)]
pub enum Destination {
    /// To a route of a card, to be remembered.
    Route { card: u32, device: i32, index: i32 },
    /// To the node itself.
    Node,
}

/// Where the volume and the mute switch of the node `n` are written: a device
/// whose route is known has them there, everything else has its own.
pub open spec fn destination(
    n: Option<AudioNodeView>,
    routes: Map<u32, Map<i32, i32>>,
) -> Destination {
    match n {
        Some(n) => if n.device_id is Some && n.route_device is Some && known_route(
            routes,
            n.device_id->0,
            n.route_device->0,
        ) is Some {
            Destination::Route {
                card: n.device_id->0,
                device: n.route_device->0,
                index: known_route(routes, n.device_id->0, n.route_device->0)->0,
            }
        } else {
            Destination::Node
        },
        None => Destination::Node,
    }
}

impl Routes {
    /// No cards.
    pub fn new() -> (r: Routes)
        ensures
            r@ == Map::<u32, Map<i32, i32>>::empty(),
    {
        let r = Routes { cards: HashMap::new() };
        assert(r@ =~= Map::<u32, Map<i32, i32>>::empty());
        r
    }

    /// The card `card` is there; nothing is known of its routes.
    pub fn add_card(&mut self, card: u32)
        ensures
            final(self)@ == old(self)@.insert(card, Map::empty()),
    {
        let ghost before = self@;
        self.cards.insert(card, HashMap::new());
        assert(self@ =~= before.insert(card, Map::empty()));
    }

    /// The object `card` is gone, which may have been a card.
    pub fn remove_card(&mut self, card: u32)
        ensures
            final(self)@ == old(self)@.remove(card),
    {
        let ghost before = self@;
        let _ = self.cards.remove(&card);
        assert(self@ =~= before.remove(card));
    }

    /// The route with the index `index` carries `device` of `card`.
    pub fn set_route(&mut self, card: u32, device: i32, index: i32)
        ensures
            final(self)@ == with_route(old(self)@, card, device, index),
    {
        let ghost start = self@;
        let ghost before = self.cards@;
        match self.cards.remove(&card) {
            Some(routes) => {
                let mut routes = routes;
                routes.insert(device, index);
                self.cards.insert(card, routes);
                assert(self@ =~= start.insert(card, start[card].insert(device, index)));
            },
            None => {
                assert(before.remove(card) =~= before);
                assert(self@ =~= start);
            },
        }
    }

    /// The index of the route that carries `device` of `card`, if it is known.
    pub fn get(&self, card: u32, device: i32) -> (r: Option<i32>)
        ensures
            r == known_route(self@, card, device),
    {
        match self.cards.get(&card) {
            Some(routes) => match routes.get(&device) {
                Some(index) => Some(*index),
                None => None,
            },
            None => None,
        }
    }
}

impl AudioState {
    /// Where the volume and the mute switch of the node `id` are written.
    pub fn write_target(&self, id: u32, routes: &Routes) -> (d: Destination)
        requires
            self.wf(),
        ensures
            d == destination(
                if self@.nodes.dom().contains(id) {
                    Some(self@.nodes[id])
                } else {
                    None
                },
                routes@,
            ),
    {
        if let Some(n) = self.nodes.get(&id) {
            if let (Some(card), Some(device)) = (n.device_id, n.route_device) {
                if let Some(index) = routes.get(card, device) {
                    return Destination::Route { card, device, index };
                }
            }
        }
        Destination::Node
    }
}

// ---- laws ------------------------------------------------------------------------

/// Node and link numbers are those of one registry: a node that goes takes no
/// link with it, and the rest of the graph stays.
pub proof fn removal_keeps_the_rest(a: AudioStateView, id: u32, other: u32)
    requires
        other != id,
    ensures
        without_object(a, id).nodes.dom().contains(other) == a.nodes.dom().contains(other),
        without_object(a, id).links.dom().contains(other) == a.links.dom().contains(other),
        a.nodes.dom().contains(other) ==> without_object(a, id).nodes[other] == a.nodes[other],
        a.links.dom().contains(other) ==> without_object(a, id).links[other] == a.links[other],
        !(a.nodes.dom().contains(id) && a.links.dom().contains(id)) ==> !without_object(
            a,
            id,
        ).nodes.dom().contains(id) && !without_object(a, id).links.dom().contains(id),
{
}

/// A stream has no card and no route, so its volume is its own.
pub proof fn streams_keep_their_own_volume(
    n: AudioNodeView,
    routes: Map<u32, Map<i32, i32>>,
)
    requires
        n.device_id is None || n.route_device is None,
    ensures
        destination(Some(n), routes) == Destination::Node,
{
}

} // verus!
