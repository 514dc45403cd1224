//! Decisions of the PipeWire engine: how registry objects become mixer
//! events and how their properties are read.

use vstd::prelude::*;
use crate::models::{AudioNode, EngineEvent, LinkInfo, NodeType, PortDirection, PortInfo, VOLUME_FULL};
use crate::text::{
    chars_of, contains_str, decimal, equals_str, has_infix, parse_u32, parse_u32_spec, push_decimal,
    push_str, string_of,
};

verus! {

/// The type of a node given its `media.class` and `node.name`.
pub open spec fn node_type_for(media_class: Seq<char>, node_name: Seq<char>) -> NodeType {
    if media_class == "Audio/Sink"@ {
        NodeType::OutputDevice
    } else if media_class == "Audio/Source"@ {
        NodeType::InputDevice
    } else if media_class == "Stream/Output/Audio"@ {
        NodeType::App
    } else if media_class == "Stream/Input/Audio"@ {
        NodeType::AppInput
    } else if has_infix(node_name, "null-sink"@) || has_infix(node_name, "MusicMixer"@) {
        NodeType::VirtualBus
    } else {
        NodeType::Other
    }
}

/// Classifies a node by its media class; a node of another class is one of
/// the mixer's virtual buses when its name says so.
pub fn classify_node(media_class: &str, node_name: &str) -> (t: NodeType)
    ensures
        t == node_type_for(media_class@, node_name@),
{
    let class = chars_of(media_class);
    let name = chars_of(node_name);
    if equals_str(&class, "Audio/Sink") {
        NodeType::OutputDevice
    } else if equals_str(&class, "Audio/Source") {
        NodeType::InputDevice
    } else if equals_str(&class, "Stream/Output/Audio") {
        NodeType::App
    } else if equals_str(&class, "Stream/Input/Audio") {
        NodeType::AppInput
    } else if contains_str(&name, "null-sink") || contains_str(&name, "MusicMixer") {
        NodeType::VirtualBus
    } else {
        NodeType::Other
    }
}

/// The value of `key` among a registry object's properties; a later entry
/// for the same key overrides an earlier one.
pub open spec fn prop_value(props: Seq<(String, String)>, key: Seq<char>) -> Option<Seq<char>>
    decreases props.len(),
{
    if props.len() == 0 {
        None
    } else if props.last().0@ == key {
        Some(props.last().1@)
    } else {
        prop_value(props.drop_last(), key)
    }
}

/// Looks a property up.
pub fn lookup_prop(props: &Vec<(String, String)>, key: &str) -> (r: Option<String>)
    ensures
        match r {
            Some(v) => prop_value(props@, key@) == Some(v@),
            None => prop_value(props@, key@) is None,
        },
{
    let k = chars_of(key);
    let mut i = props.len();
    assert(props@.take(i as int) =~= props@);
    while i > 0
        invariant
            i <= props@.len(),
            k@ == key@,
            prop_value(props@, key@) == prop_value(props@.take(i as int), key@),
        decreases i,
    {
        let entry = &props[i - 1];
        let name = chars_of(entry.0.as_str());
        assert(props@.take(i as int).last() == props@[i - 1]);
        if equals_str(&name, key) {
            return Some(entry.1.clone());
        }
        assert(props@.take(i as int).drop_last() =~= props@.take(i - 1));
        i = i - 1;
    }
    None
}

/// A property read as a `u32`; absent or malformed values read as 0.
pub open spec fn prop_u32(props: Seq<(String, String)>, key: Seq<char>) -> u32 {
    match prop_value(props, key) {
        Some(v) => match parse_u32_spec(v) {
            Some(n) => n,
            None => 0,
        },
        None => 0,
    }
}

fn lookup_u32(props: &Vec<(String, String)>, key: &str) -> (r: Option<u32>)
    ensures
        r == (match prop_value(props@, key@) {
            Some(v) => parse_u32_spec(v),
            None => None,
        }),
{
    match lookup_prop(props, key) {
        Some(v) => parse_u32(&chars_of(v.as_str())),
        None => None,
    }
}

/// `prefix` followed by the decimal rendering of `id` (e.g. "node-42").
pub open spec fn numbered(prefix: Seq<char>, id: u32) -> Seq<char> {
    prefix + decimal(id as nat)
}

fn numbered_name(prefix: &str, id: u32) -> (s: String)
    ensures
        s@ == numbered(prefix@, id),
{
    let mut v: Vec<char> = Vec::new();
    push_str(&mut v, prefix);
    push_decimal(&mut v, id);
    string_of(&v)
}

/// The `node.name` of a node, or `node-<id>` when it has none.
pub open spec fn node_name_for(id: u32, props: Seq<(String, String)>) -> Seq<char> {
    match prop_value(props, "node.name"@) {
        Some(v) => v,
        None => numbered("node-"@, id),
    }
}

/// The first of `node.description`, `node.nick`, `media.name`, else the name.
pub open spec fn node_description_for(id: u32, props: Seq<(String, String)>) -> Seq<char> {
    match prop_value(props, "node.description"@) {
        Some(v) => v,
        None => match prop_value(props, "node.nick"@) {
            Some(v) => v,
            None => match prop_value(props, "media.name"@) {
                Some(v) => v,
                None => node_name_for(id, props),
            },
        },
    }
}

/// `n` is the node that a `Node` object with this id and these properties
/// stands for.
pub open spec fn is_node_of(n: AudioNode, id: u32, props: Seq<(String, String)>) -> bool {
    &&& n.id == id
    &&& n.name@ == node_name_for(id, props)
    &&& n.description@ == node_description_for(id, props)
    &&& n.node_type == node_type_for(
        match prop_value(props, "media.class"@) {
            Some(v) => v,
            None => Seq::empty(),
        },
        node_name_for(id, props),
    )
    &&& n.volume == VOLUME_FULL
    &&& !n.muted
    &&& n.pulse_id == (match prop_value(props, "object.serial"@) {
        Some(v) => parse_u32_spec(v),
        None => None,
    })
}

/// `p` is the port that a `Port` object with this id and these properties
/// stands for.
pub open spec fn is_port_of(p: PortInfo, id: u32, props: Seq<(String, String)>) -> bool {
    &&& p.id == id
    &&& p.node_id == prop_u32(props, "node.id"@)
    &&& p.name@ == (match prop_value(props, "port.name"@) {
        Some(v) => v,
        None => numbered("port-"@, id),
    })
    &&& p.direction == (if prop_value(props, "port.direction"@) == Some("out"@) {
        PortDirection::Output
    } else {
        PortDirection::Input
    })
}

/// The node a registry `Node` object announces: full volume, unmuted, with
/// its `object.serial` as the pulse id when that reads as a number.
pub fn node_from_props(id: u32, props: &Vec<(String, String)>) -> (n: AudioNode)
    ensures
        is_node_of(n, id, props@),
{
    let media_class = match lookup_prop(props, "media.class") {
        Some(v) => v,
        None => String::new(),
    };
    let name = match lookup_prop(props, "node.name") {
        Some(v) => v,
        None => numbered_name("node-", id),
    };
    let description = match lookup_prop(props, "node.description") {
        Some(v) => v,
        None => match lookup_prop(props, "node.nick") {
            Some(v) => v,
            None => match lookup_prop(props, "media.name") {
                Some(v) => v,
                None => name.clone(),
            },
        },
    };
    let node_type = classify_node(media_class.as_str(), name.as_str());
    let pulse_id = lookup_u32(props, "object.serial");
    AudioNode { id, name, description, node_type, volume: VOLUME_FULL, muted: false, pulse_id }
}

/// The port a registry `Port` object announces.
pub fn port_from_props(id: u32, props: &Vec<(String, String)>) -> (p: PortInfo)
    ensures
        is_port_of(p, id, props@),
{
    let node_id = match lookup_u32(props, "node.id") {
        Some(n) => n,
        None => 0,
    };
    let name = match lookup_prop(props, "port.name") {
        Some(v) => v,
        None => numbered_name("port-", id),
    };
    let direction = match lookup_prop(props, "port.direction") {
        Some(d) => if equals_str(&chars_of(d.as_str()), "out") {
            PortDirection::Output
        } else {
            PortDirection::Input
        },
        None => PortDirection::Input,
    };
    PortInfo { id, node_id, name, direction }
}

/// The link a registry `Link` object announces.
pub fn link_from_props(id: u32, props: &Vec<(String, String)>) -> (l: LinkInfo)
    ensures
        l.id == id,
        l.output_node == prop_u32(props@, "link.output.node"@),
        l.input_node == prop_u32(props@, "link.input.node"@),
        l.output_port == prop_u32(props@, "link.output.port"@),
        l.input_port == prop_u32(props@, "link.input.port"@),
{
    let output_node = match lookup_u32(props, "link.output.node") {
        Some(n) => n,
        None => 0,
    };
    let input_node = match lookup_u32(props, "link.input.node") {
        Some(n) => n,
        None => 0,
    };
    let output_port = match lookup_u32(props, "link.output.port") {
        Some(n) => n,
        None => 0,
    };
    let input_port = match lookup_u32(props, "link.input.port") {
        Some(n) => n,
        None => 0,
    };
    LinkInfo { id, output_node, input_node, output_port, input_port }
}

/// The kinds of registry object the mixer follows.
#[derive(Debug, Clone, Copy, PartialEq, Eq, Structural)]
pub enum ObjectKind {
    Node,
    Port,
    Link,
    Other,
}

/// The event a newly announced registry object gives, if any.
pub fn announce_object(kind: ObjectKind, id: u32, props: &Vec<(String, String)>) -> (r: Option<EngineEvent>)
    ensures
        kind == ObjectKind::Node <==> r matches Some(EngineEvent::NodeAdded(_)),
        kind == ObjectKind::Port <==> r matches Some(EngineEvent::PortAdded(_)),
        kind == ObjectKind::Link <==> r matches Some(EngineEvent::LinkAdded(_)),
        kind == ObjectKind::Other <==> r is None,
        r matches Some(EngineEvent::NodeAdded(n)) ==> is_node_of(n, id, props@),
        r matches Some(EngineEvent::PortAdded(p)) ==> is_port_of(p, id, props@),
        r matches Some(EngineEvent::LinkAdded(l)) ==> l == link_from_props_spec(id, props@),
{
    match kind {
        ObjectKind::Node => Some(EngineEvent::NodeAdded(node_from_props(id, props))),
        ObjectKind::Port => Some(EngineEvent::PortAdded(port_from_props(id, props))),
        ObjectKind::Link => Some(EngineEvent::LinkAdded(link_from_props(id, props))),
        ObjectKind::Other => None,
    }
}

/// The link `link_from_props` builds.
pub open spec fn link_from_props_spec(id: u32, props: Seq<(String, String)>) -> LinkInfo {
    LinkInfo {
        id,
        output_node: prop_u32(props, "link.output.node"@),
        input_node: prop_u32(props, "link.input.node"@),
        output_port: prop_u32(props, "link.output.port"@),
        input_port: prop_u32(props, "link.input.port"@),
    }
}

/// The registry reports only the id of an object that went away, so the
/// mixer forgets whatever node, port or link had that id.
pub fn removal_events(id: u32) -> (r: Vec<EngineEvent>)
    ensures
        r@.len() == 3,
        r@[0] == EngineEvent::NodeRemoved(id),
        r@[1] == EngineEvent::PortRemoved(id),
        r@[2] == EngineEvent::LinkRemoved(id),
{
    let mut r: Vec<EngineEvent> = Vec::new();
    r.push(EngineEvent::NodeRemoved(id));
    r.push(EngineEvent::PortRemoved(id));
    r.push(EngineEvent::LinkRemoved(id));
    r
}

} // verus!
