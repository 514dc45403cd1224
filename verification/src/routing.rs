//! Routing decisions of the mixer window: which devices an application is
//! linked to, which it could be linked to, what picking an input sends, and
//! which routing menu is open.

use vstd::prelude::*;
use crate::models::{AppGroup, AudioNode, EngineCommand, MixerState, OutputTarget};
use crate::queries::{input_feeder, link_targets};

verus! {

broadcast use {vstd::std_specs::hash::group_hash_axioms, vstd::seq_lib::group_seq_properties};

/// The name of node `id`, or the empty string when the mixer does not know it.
pub open spec fn name_or_empty(nodes: Map<u32, AudioNode>, id: Option<u32>) -> Seq<char> {
    match id {
        Some(i) => if nodes.contains_key(i) {
            nodes[i].name@
        } else {
            Seq::empty()
        },
        None => Seq::empty(),
    }
}

/// The input device the card of capture stream `capture_id` shows and its
/// menu unlinks: the node feeding the stream (see `input_feeder`), when the
/// mixer knows it.
pub open spec fn known_feeder(m: crate::models::MixerView, capture_id: Option<u32>) -> Option<u32> {
    match capture_id {
        Some(c) => match input_feeder(m.links, c) {
            Some(o) => if m.nodes.contains_key(o) {
                Some(o)
            } else {
                None
            },
            None => None,
        },
        None => None,
    }
}

impl MixerState {
    /// The name of a node, or the empty string.
    pub fn node_name_or_empty(&self, id: Option<u32>) -> (r: String)
        ensures
            r@ == name_or_empty(self.nodes@, id),
    {
        match id {
            Some(i) => match self.nodes.get(&i) {
                Some(n) => n.name.clone(),
                None => String::new(),
            },
            None => String::new(),
        }
    }

    /// The volume and mute state a device row shows: the node's, or full
    /// volume and unmuted for a node the mixer does not know.
    pub fn slider_state(&self, node_id: u32) -> (r: (u32, bool))
        ensures
            r == (if self.nodes@.contains_key(node_id) {
                (self.nodes@[node_id].volume, self.nodes@[node_id].muted)
            } else {
                (crate::models::VOLUME_FULL, false)
            }),
    {
        match self.nodes.get(&node_id) {
            Some(n) => (n.volume, n.muted),
            None => (crate::models::VOLUME_FULL, false),
        }
    }

    /// The devices a playback stream is linked to that the mixer knows,
    /// with their descriptions.
    pub fn linked_outputs(&self, playback_id: u32) -> (r: Vec<(u32, String)>)
        ensures
            forall|i: int|
                0 <= i < r@.len() ==> self.nodes@.contains_key(#[trigger] r@[i].0) && r@[i].1@
                    == self.nodes@[r@[i].0].description@ && link_targets(self.links@, playback_id).contains(r@[i].0),
            forall|d: u32|
                link_targets(self.links@, playback_id).contains(d) && self.nodes@.contains_key(d) ==> exists|i: int|
                    0 <= i < r@.len() && #[trigger] r@[i].0 == d,
            forall|i: int, j: int| 0 <= i < j < r@.len() ==> r@[i].0 != r@[j].0,
    {
        let ids = self.playback_output_devices(playback_id);
        let mut r: Vec<(u32, String)> = Vec::new();
        let mut i: usize = 0;
        while i < ids.len()
            invariant
                i <= ids@.len(),
                ids@.no_duplicates(),
                forall|d: u32| ids@.contains(d) <==> link_targets(self.links@, playback_id).contains(d),
                forall|x: int|
                    0 <= x < r@.len() ==> self.nodes@.contains_key(#[trigger] r@[x].0) && r@[x].1@
                        == self.nodes@[r@[x].0].description@ && ids@.take(i as int).contains(r@[x].0),
                forall|d: u32|
                    ids@.take(i as int).contains(d) && self.nodes@.contains_key(d) ==> exists|x: int|
                        0 <= x < r@.len() && #[trigger] r@[x].0 == d,
                forall|x: int, y: int| 0 <= x < y < r@.len() ==> r@[x].0 != r@[y].0,
            decreases ids.len() - i,
        {
            let d = ids[i];
            assert(ids@.take(i + 1) == ids@.take(i as int).push(d));
            assert(!ids@.take(i as int).contains(d));
            match self.nodes.get(&d) {
                Some(n) => {
                    let ghost before = r@;
                    r.push((d, n.description.clone()));
                    assert(r@[r@.len() - 1].0 == d);
                    assert forall|x: int, y: int| 0 <= x < y < r@.len() implies r@[x].0 != r@[y].0 by {
                        if y == r@.len() - 1 {
                            assert(ids@.take(i as int).contains(before[x].0));
                        } else {
                            assert(before[x].0 != before[y].0);
                        }
                    }
                    assert forall|e: u32|
                        ids@.take(i + 1).contains(e) && self.nodes@.contains_key(e) implies exists|x: int|
                            0 <= x < r@.len() && #[trigger] r@[x].0 == e by {
                        if e != d {
                            let x = choose|x: int| 0 <= x < before.len() && #[trigger] before[x].0 == e;
                            assert(r@[x].0 == e);
                        }
                    }
                },
                None => {},
            }
            i = i + 1;
        }
        assert(ids@.take(ids@.len() as int) == ids@);
        r
    }

    /// The input device feeding a capture stream, with its description,
    /// when the mixer knows both.
    pub fn current_input(&self, capture_id: Option<u32>) -> (r: Option<(u32, String)>)
        ensures
            r is Some <==> known_feeder(self@, capture_id) is Some,
            r matches Some(p) ==> known_feeder(self@, capture_id) == Some(p.0) && p.1@
                == self.nodes@[p.0].description@,
    {
        match capture_id {
            Some(c) => match self.capture_input_device(c) {
                Some(o) => match self.nodes.get(&o) {
                    Some(n) => Some((o, n.description.clone())),
                    None => None,
                },
                None => None,
            },
            None => None,
        }
    }

    /// What picking an entry of an application's input menu sends: the link
    /// from the device currently feeding the capture stream is removed, then,
    /// unless the entry is "None", the chosen device is linked to the stream.
    pub fn input_route_commands(&self, capture_id: Option<u32>, device_name: Option<String>) -> (r: Vec<
        EngineCommand,
    >)
        ensures
            ({
                let app = name_or_empty(self.nodes@, capture_id);
                let f = known_feeder(self@, capture_id);
                &&& r@.len() == (if f is Some { 1int } else { 0 }) + (if device_name is Some { 1int } else { 0 })
                &&& f matches Some(o) ==> r@[0] is RemoveLink && r@[0]->RemoveLink_from_name
                    == self.nodes@[o].name && r@[0]->RemoveLink_to_name@ == app
                &&& device_name is Some ==> r@.last() is CreateLink && r@.last()->CreateLink_from_name
                    == device_name->0 && r@.last()->CreateLink_to_name@ == app
            }),
    {
        let app_name = self.node_name_or_empty(capture_id);
        let mut r: Vec<EngineCommand> = Vec::new();
        match capture_id {
            Some(c) => match self.capture_input_device(c) {
                Some(o) => match self.nodes.get(&o) {
                    Some(n) => {
                        r.push(EngineCommand::RemoveLink { from_name: n.name.clone(), to_name: app_name.clone() });
                    },
                    None => {},
                },
                None => {},
            },
            None => {},
        }
        match device_name {
            Some(dn) => {
                r.push(EngineCommand::CreateLink { from_name: dn, to_name: app_name });
            },
            None => {},
        }
        r
    }
}

/// The device `id` is among the linked ones.
pub open spec fn is_linked(linked: Seq<(u32, String)>, id: u32) -> bool {
    exists|j: int| 0 <= j < linked.len() && #[trigger] linked[j].0 == id
}

/// The output devices not yet linked, in the given order.
pub open spec fn unlinked(outputs: Seq<(u32, String, String)>, linked: Seq<(u32, String)>) -> Seq<(u32, String, String)>
    decreases outputs.len(),
{
    if outputs.len() == 0 {
        outputs
    } else {
        let r = unlinked(outputs.drop_last(), linked);
        if is_linked(linked, outputs.last().0) {
            r
        } else {
            r.push(outputs.last())
        }
    }
}

/// Output devices not yet linked to the application, in the given order.
pub fn available_outputs(outputs: &Vec<(u32, String, String)>, linked: &Vec<(u32, String)>) -> (r: Vec<
    (u32, String, String),
>)
    ensures
        r@ == unlinked(outputs@, linked@),
{
    let mut r: Vec<(u32, String, String)> = Vec::new();
    let mut i: usize = 0;
    while i < outputs.len()
        invariant
            i <= outputs@.len(),
            r@ == unlinked(outputs@.take(i as int), linked@),
        decreases outputs.len() - i,
    {
        assert(outputs@.take(i + 1).drop_last() =~= outputs@.take(i as int));
        assert(outputs@.take(i + 1).last() == outputs@[i as int]);
        let id = outputs[i].0;
        let mut seen = false;
        let mut j: usize = 0;
        while j < linked.len()
            invariant
                j <= linked@.len(),
                seen <==> exists|y: int| 0 <= y < j && #[trigger] linked@[y].0 == id,
            decreases linked.len() - j,
        {
            if linked[j].0 == id {
                seen = true;
            }
            j = j + 1;
        }
        if !seen {
            let e = (outputs[i].0, outputs[i].1.clone(), outputs[i].2.clone());
            assert(e == outputs@[i as int]);
            r.push(e);
        }
        i = i + 1;
    }
    assert(outputs@.take(outputs@.len() as int) =~= outputs@);
    r
}

/// What picking an output device in an application's menu sends: a link
/// from the application's raw node name to the device.
pub fn output_route_command(group: &AppGroup, to_name: String) -> (c: EngineCommand)
    ensures
        c == (EngineCommand::CreateLink { from_name: group.node_name, to_name }),
{
    EngineCommand::CreateLink { from_name: group.node_name.clone(), to_name }
}

/// What routing an application to a target sends: for one port of a sink,
/// the sink is first switched to that port; then the application is linked
/// to the sink.
pub fn target_route_commands(group: &AppGroup, target: OutputTarget) -> (r: Vec<EngineCommand>)
    ensures
        match target {
            OutputTarget::Sink { sink_name } => r@ == seq![
                EngineCommand::CreateLink { from_name: group.node_name, to_name: sink_name },
            ],
            OutputTarget::Port { sink_name, port_name } => r@ == seq![
                EngineCommand::SetSinkPort { sink_name, port_name },
                EngineCommand::CreateLink { from_name: group.node_name, to_name: sink_name },
            ],
        },
{
    let mut r: Vec<EngineCommand> = Vec::new();
    match target {
        OutputTarget::Sink { sink_name } => {
            r.push(output_route_command(group, sink_name));
        },
        OutputTarget::Port { sink_name, port_name } => {
            let to_name = sink_name.clone();
            r.push(EngineCommand::SetSinkPort { sink_name, port_name });
            r.push(output_route_command(group, to_name));
        },
    }
    r
}

/// What the remove button of a linked output sends: the link from the
/// application's raw node name to the device goes away.
pub fn output_unroute_command(group: &AppGroup, to_name: String) -> (c: EngineCommand)
    ensures
        c == (EngineCommand::RemoveLink { from_name: group.node_name, to_name }),
{
    EngineCommand::RemoveLink { from_name: group.node_name.clone(), to_name }
}

/// The node name of the first listed output device with id `id`.
pub open spec fn target_name_of(outputs: Seq<(u32, String, String)>, id: u32) -> Seq<char>
    decreases outputs.len(),
{
    if outputs.len() == 0 {
        Seq::empty()
    } else if outputs[0].0 == id {
        outputs[0].2@
    } else {
        target_name_of(outputs.drop_first(), id)
    }
}

/// The node name to unlink an application from the output device `id`, or
/// the empty string when the device is not listed.
pub fn target_name(outputs: &Vec<(u32, String, String)>, id: u32) -> (r: String)
    ensures
        r@ == target_name_of(outputs@, id),
{
    let mut i: usize = 0;
    assert(outputs@.skip(0) =~= outputs@);
    while i < outputs.len()
        invariant
            i <= outputs@.len(),
            target_name_of(outputs@, id) == target_name_of(outputs@.skip(i as int), id),
        decreases outputs.len() - i,
    {
        if outputs[i].0 == id {
            return outputs[i].2.clone();
        }
        assert(outputs@.skip(i as int).drop_first() =~= outputs@.skip(i + 1));
        i = i + 1;
    }
    String::new()
}

/// Which routing menu of the window is open, by application stream id.
#[derive(Debug, Clone, Copy, PartialEq, Eq, Structural)]
pub struct RoutingMenus {
    pub open_output_popover: Option<u32>,
    pub open_input_dropdown: Option<u32>,
}

/// A menu's state after its trigger was clicked: it closes when it was
/// open for this stream and opens for this stream otherwise.
pub open spec fn toggled(open: Option<u32>, id: u32) -> Option<u32> {
    if open == Some(id) {
        None
    } else {
        Some(id)
    }
}

impl RoutingMenus {
    /// Both menus closed.
    pub fn new() -> (m: Self)
        ensures
            m.open_output_popover is None,
            m.open_input_dropdown is None,
    {
        RoutingMenus { open_output_popover: None, open_input_dropdown: None }
    }

    /// Clicks the "Add" button of an application's output routing.
    pub fn toggle_output(&mut self, id: u32)
        ensures
            final(self).open_output_popover == toggled(old(self).open_output_popover, id),
            final(self).open_input_dropdown == old(self).open_input_dropdown,
    {
        self.open_output_popover = if self.open_output_popover == Some(id) {
            None
        } else {
            Some(id)
        };
    }

    /// Clicks the trigger of an application's input menu.
    pub fn toggle_input(&mut self, id: u32)
        ensures
            final(self).open_input_dropdown == toggled(old(self).open_input_dropdown, id),
            final(self).open_output_popover == old(self).open_output_popover,
    {
        self.open_input_dropdown = if self.open_input_dropdown == Some(id) {
            None
        } else {
            Some(id)
        };
    }

    /// An output was picked: the output popover closes.
    pub fn close_output(&mut self)
        ensures
            final(self).open_output_popover is None,
            final(self).open_input_dropdown == old(self).open_input_dropdown,
    {
        self.open_output_popover = None;
    }

    /// An input was picked: the input menu closes.
    pub fn close_input(&mut self)
        ensures
            final(self).open_input_dropdown is None,
            final(self).open_output_popover == old(self).open_output_popover,
    {
        self.open_input_dropdown = None;
    }
}

} // verus!
