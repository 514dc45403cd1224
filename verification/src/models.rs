//! The mixer's model of the PipeWire graph: nodes, ports and links, the
//! events that change it, and the commands the mixer sends to the engine.
//!
//! Volumes are held as thousandths of full scale: `0` is silence and `1000`
//! is unity gain (the engine writes them with three decimals).

use std::collections::HashMap;
use vstd::prelude::*;

verus! {

broadcast use vstd::std_specs::hash::group_hash_axioms;

/// Full scale of a volume, in thousandths.
pub const VOLUME_FULL: u32 = 1000;

/// What a PipeWire node is, as far as the mixer cares.
#[derive(Debug, Clone, Copy, PartialEq, Eq, Structural)]
pub enum NodeType {
    /// `Stream/Output/Audio`: an application playing audio.
    App,
    /// `Stream/Input/Audio`: an application recording audio.
    AppInput,
    /// `Audio/Sink`: speakers, headphones.
    OutputDevice,
    /// `Audio/Source`: a microphone.
    InputDevice,
    /// A null sink created by the mixer.
    VirtualBus,
    Other,
}

/// A PipeWire node (application stream, sink, source, virtual bus).
#[derive(Debug)]
pub struct AudioNode {
    pub id: u32,
    pub name: String,
    pub description: String,
    pub node_type: NodeType,
    /// Volume in thousandths of full scale.
    pub volume: u32,
    pub muted: bool,
    /// `object.serial`: matches the pactl sink-input/source-output index.
    pub pulse_id: Option<u32>,
}

impl Clone for AudioNode {
    fn clone(&self) -> (r: Self)
        ensures
            r == *self,
    {
        AudioNode {
            id: self.id,
            name: self.name.clone(),
            description: self.description.clone(),
            node_type: self.node_type,
            volume: self.volume,
            muted: self.muted,
            pulse_id: self.pulse_id,
        }
    }
}

/// Direction of a port.
#[derive(Debug, Clone, Copy, PartialEq, Eq, Structural)]
pub enum PortDirection {
    Input,
    Output,
}

/// A port of a node.
#[derive(Debug)]
pub struct PortInfo {
    pub id: u32,
    pub node_id: u32,
    pub name: String,
    pub direction: PortDirection,
}

impl Clone for PortInfo {
    fn clone(&self) -> (r: Self)
        ensures
            r == *self,
    {
        PortInfo { id: self.id, node_id: self.node_id, name: self.name.clone(), direction: self.direction }
    }
}

/// A link from an output port of one node to an input port of another.
#[derive(Debug, Clone, Copy, PartialEq, Eq, Structural)]
pub struct LinkInfo {
    pub id: u32,
    pub output_node: u32,
    pub input_node: u32,
    pub output_port: u32,
    pub input_port: u32,
}

/// The icon of an application card.
#[derive(Debug, Clone, Copy, PartialEq, Eq, Structural)]
pub enum AppIcon {
    Music,
    Mic,
    Speaker,
}

/// A unified application that may have both playback and capture streams.
#[derive(Debug)]
pub struct AppGroup {
    /// Display name (e.g. "Discord").
    pub name: String,
    /// Raw `node.name` used when linking (e.g. "WEBRTC VoiceEngine").
    pub node_name: String,
    pub playback_id: Option<u32>,
    pub capture_id: Option<u32>,
    /// Volume in thousandths of full scale.
    pub volume: u32,
    pub muted: bool,
    pub icon: AppIcon,
}

impl Clone for AppGroup {
    fn clone(&self) -> (r: Self)
        ensures
            r == *self,
    {
        AppGroup {
            name: self.name.clone(),
            node_name: self.node_name.clone(),
            playback_id: self.playback_id,
            capture_id: self.capture_id,
            volume: self.volume,
            muted: self.muted,
            icon: self.icon,
        }
    }
}

/// What the PipeWire monitor reports.
#[derive(Debug)]
pub enum EngineEvent {
    NodeAdded(AudioNode),
    NodeChanged(AudioNode),
    NodeRemoved(u32),
    PortAdded(PortInfo),
    PortRemoved(u32),
    LinkAdded(LinkInfo),
    LinkRemoved(u32),
    /// `volume` in thousandths of full scale.
    VolumeChanged { node_id: u32, volume: u32 },
    MuteChanged { node_id: u32, muted: bool },
}

/// What the mixer asks the engine to do.
#[derive(Debug)]
pub enum EngineCommand {
    /// `volume` in thousandths of full scale; `pulse_id` is the
    /// `object.serial` of a stream, `None` for a device (use `node_name`).
    SetVolume { node_id: u32, volume: u32, pulse_id: Option<u32>, node_name: String, is_stream: bool },
    SetMute { node_id: u32, muted: bool, pulse_id: Option<u32>, node_name: String, is_stream: bool },
    CreateLink { from_name: String, to_name: String },
    RemoveLink { from_name: String, to_name: String },
    /// Switch a sink to one of its ports (e.g. Speakers -> Headphones).
    SetSinkPort { sink_name: String, port_name: String },
    /// Re-apply a list of (app node name, sink node name) links after a device reconnects.
    RestoreLinks { pairs: Vec<(String, String)> },
    LoadNullSink { name: String },
    UnloadModule { module_id: u32 },
}

/// A routing destination: a whole sink, or one port of a sink (e.g.
/// Speakers vs Headphones on the same card).
#[derive(Debug)]
pub enum OutputTarget {
    Sink { sink_name: String },
    Port { sink_name: String, port_name: String },
}

/// The abstract state of the mixer: four maps keyed by PipeWire object id.
pub ghost struct MixerView {
    pub nodes: Map<u32, AudioNode>,
    pub ports: Map<u32, PortInfo>,
    pub links: Map<u32, LinkInfo>,
    pub node_ports: Map<u32, Seq<u32>>,
}

/// The graph as the mixer sees it.
#[derive(Debug)]
pub struct MixerState {
    pub nodes: HashMap<u32, AudioNode>,
    pub ports: HashMap<u32, PortInfo>,
    pub links: HashMap<u32, LinkInfo>,
    /// node id -> ids of the ports added for it, in the order they came.
    pub node_ports: HashMap<u32, Vec<u32>>,
}

impl View for MixerState {
    type V = MixerView;

    open spec fn view(&self) -> MixerView {
        MixerView {
            nodes: self.nodes@,
            ports: self.ports@,
            links: self.links@,
            node_ports: self.node_ports@.map_values(|v: Vec<u32>| v@),
        }
    }
}

impl MixerView {
    /// Every object is filed under its own id.
    pub open spec fn wf(self) -> bool {
        &&& forall|k: u32| #[trigger] self.nodes.contains_key(k) ==> self.nodes[k].id == k
        &&& forall|k: u32| #[trigger] self.ports.contains_key(k) ==> self.ports[k].id == k
        &&& forall|k: u32| #[trigger] self.links.contains_key(k) ==> self.links[k].id == k
    }

    pub open spec fn empty() -> MixerView {
        MixerView {
            nodes: Map::empty(),
            ports: Map::empty(),
            links: Map::empty(),
            node_ports: Map::empty(),
        }
    }
}

/// `s` with every occurrence of `x` taken out, the rest in order.
pub open spec fn without(s: Seq<u32>, x: u32) -> Seq<u32>
    decreases s.len(),
{
    if s.len() == 0 {
        s
    } else if s.last() == x {
        without(s.drop_last(), x)
    } else {
        without(s.drop_last(), x).push(s.last())
    }
}

/// The port list of `node` after `port` was added to it.
pub open spec fn ports_with(node_ports: Map<u32, Seq<u32>>, node: u32, port: u32) -> Seq<u32> {
    if node_ports.contains_key(node) {
        node_ports[node].push(port)
    } else {
        seq![port]
    }
}

/// The state after one event.
pub open spec fn after_event(s: MixerView, ev: EngineEvent) -> MixerView {
    match ev {
        EngineEvent::NodeAdded(n) => MixerView { nodes: s.nodes.insert(n.id, n), ..s },
        EngineEvent::NodeChanged(n) => MixerView { nodes: s.nodes.insert(n.id, n), ..s },
        EngineEvent::NodeRemoved(id) => MixerView {
            nodes: s.nodes.remove(id),
            node_ports: s.node_ports.remove(id),
            ..s
        },
        EngineEvent::PortAdded(p) => MixerView {
            ports: s.ports.insert(p.id, p),
            node_ports: s.node_ports.insert(p.node_id, ports_with(s.node_ports, p.node_id, p.id)),
            ..s
        },
        EngineEvent::PortRemoved(id) => {
            if s.ports.contains_key(id) {
                let owner = s.ports[id].node_id;
                MixerView {
                    ports: s.ports.remove(id),
                    node_ports: if s.node_ports.contains_key(owner) {
                        s.node_ports.insert(owner, without(s.node_ports[owner], id))
                    } else {
                        s.node_ports
                    },
                    ..s
                }
            } else {
                s
            }
        },
        EngineEvent::LinkAdded(l) => MixerView { links: s.links.insert(l.id, l), ..s },
        EngineEvent::LinkRemoved(id) => MixerView { links: s.links.remove(id), ..s },
        EngineEvent::VolumeChanged { node_id, volume } => {
            if s.nodes.contains_key(node_id) {
                MixerView {
                    nodes: s.nodes.insert(node_id, AudioNode { volume, ..s.nodes[node_id] }),
                    ..s
                }
            } else {
                s
            }
        },
        EngineEvent::MuteChanged { node_id, muted } => {
            if s.nodes.contains_key(node_id) {
                MixerView {
                    nodes: s.nodes.insert(node_id, AudioNode { muted, ..s.nodes[node_id] }),
                    ..s
                }
            } else {
                s
            }
        },
    }
}

/// The state after a batch of events, applied in order.
pub open spec fn after_events(s: MixerView, evs: Seq<EngineEvent>) -> MixerView
    decreases evs.len(),
{
    if evs.len() == 0 {
        s
    } else {
        after_events(after_event(s, evs[0]), evs.drop_first())
    }
}

/// `v` without any occurrence of `x`.
fn remove_all(v: &Vec<u32>, x: u32) -> (r: Vec<u32>)
    ensures
        r@ == without(v@, x),
{
    let mut r: Vec<u32> = Vec::new();
    let mut i: usize = 0;
    while i < v.len()
        invariant
            i <= v.len(),
            r@ == without(v@.take(i as int), x),
        decreases v.len() - i,
    {
        assert(v@.take(i + 1).drop_last() == v@.take(i as int));
        if v[i] != x {
            r.push(v[i]);
        }
        i = i + 1;
    }
    assert(v@.take(v.len() as int) == v@);
    r
}

impl Default for MixerState {
    fn default() -> (s: Self)
        ensures
            s@ == MixerView::empty(),
    {
        MixerState::new()
    }
}

impl MixerState {
    /// An empty graph.
    pub fn new() -> (s: Self)
        ensures
            s@ == MixerView::empty(),
    {
        let s = MixerState {
            nodes: HashMap::new(),
            ports: HashMap::new(),
            links: HashMap::new(),
            node_ports: HashMap::new(),
        };
        assert(s@.node_ports =~= Map::<u32, Seq<u32>>::empty());
        s
    }

    /// Applies a batch of events from the engine, in order.
    pub fn apply_events(&mut self, events: Vec<EngineEvent>)
        ensures
            final(self)@ == after_events(old(self)@, events@),
    {
        let ghost all = events@;
        let ghost start = self@;
        assert(all.skip(0) =~= all);
        for ev in it: events.into_iter()
            invariant
                it.seq() == all,
                after_events(start, all) == after_events(self@, all.skip(it.index())),
        {
            proof {
                assert(all.skip(it.index())[0] == ev);
                assert(all.skip(it.index()).drop_first() =~= all.skip(it.index() + 1));
            }
            self.apply_event(ev);
        }
        assert(all.skip(all.len() as int) =~= Seq::<EngineEvent>::empty());
    }

    /// Applies one event from the engine to the graph.
    pub fn apply_event(&mut self, ev: EngineEvent)
        ensures
            final(self)@ == after_event(old(self)@, ev),
    {
        let ghost pre = self@;
        match ev {
            EngineEvent::NodeAdded(n) => {
                self.nodes.insert(n.id, n);
            },
            EngineEvent::NodeChanged(n) => {
                self.nodes.insert(n.id, n);
            },
            EngineEvent::NodeRemoved(id) => {
                self.nodes.remove(&id);
                self.node_ports.remove(&id);
                assert(self@.node_ports =~= pre.node_ports.remove(id));
            },
            EngineEvent::PortAdded(p) => {
                let nid = p.node_id;
                let pid = p.id;
                self.ports.insert(pid, p);
                let mut list = match self.node_ports.remove(&nid) {
                    Some(l) => l,
                    None => Vec::new(),
                };
                list.push(pid);
                self.node_ports.insert(nid, list);
                assert(self@.node_ports =~= pre.node_ports.insert(nid, ports_with(pre.node_ports, nid, pid)));
            },
            EngineEvent::PortRemoved(id) => {
                match self.ports.remove(&id) {
                    Some(p) => {
                        let owner = p.node_id;
                        match self.node_ports.remove(&owner) {
                            Some(l) => {
                                let kept = remove_all(&l, id);
                                self.node_ports.insert(owner, kept);
                                assert(self@.node_ports =~= pre.node_ports.insert(owner, without(pre.node_ports[owner], id)));
                            },
                            None => {
                                assert(self@.node_ports =~= pre.node_ports);
                            },
                        }
                    },
                    None => {},
                }
            },
            EngineEvent::LinkAdded(l) => {
                self.links.insert(l.id, l);
            },
            EngineEvent::LinkRemoved(id) => {
                self.links.remove(&id);
                assert(self@.node_ports =~= pre.node_ports);
            },
            EngineEvent::VolumeChanged { node_id, volume } => {
                match self.nodes.remove(&node_id) {
                    Some(n) => {
                        let mut n = n;
                        n.volume = volume;
                        self.nodes.insert(node_id, n);
                        assert(self@.nodes =~= pre.nodes.insert(node_id, AudioNode { volume, ..pre.nodes[node_id] }));
                    },
                    None => {},
                }
            },
            EngineEvent::MuteChanged { node_id, muted } => {
                match self.nodes.remove(&node_id) {
                    Some(n) => {
                        let mut n = n;
                        n.muted = muted;
                        self.nodes.insert(node_id, n);
                        assert(self@.nodes =~= pre.nodes.insert(node_id, AudioNode { muted, ..pre.nodes[node_id] }));
                    },
                    None => {},
                }
            },
        }
        assert(self@.nodes =~= after_event(pre, ev).nodes);
        assert(self@.ports =~= after_event(pre, ev).ports);
    }
}

} // verus!
