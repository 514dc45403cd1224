//! The decisions behind the mixer window's controls: volume steps, the mute
//! button, the routing menus and what their entries send to the engine,
//! and the text shown on cards.

use vstd::prelude::*;
use crate::models::{AppGroup, AudioNode, EngineCommand, MixerState, VOLUME_FULL};
use crate::text::{chars_of, has_infix, contains_str, string_of};

verus! {

broadcast use vstd::std_specs::hash::group_hash_axioms;

/// One press of a volume button moves by this much (thousandths).
pub const VOLUME_STEP: u32 = 50;

/// The volume one step down, never below silence.
pub open spec fn stepped_down(volume: u32) -> u32 {
    if volume >= VOLUME_STEP {
        (volume - VOLUME_STEP) as u32
    } else {
        0
    }
}

/// The volume one step up, never above full scale.
pub open spec fn stepped_up(volume: u32) -> u32 {
    if volume + VOLUME_STEP >= VOLUME_FULL {
        VOLUME_FULL
    } else {
        (volume + VOLUME_STEP) as u32
    }
}

pub fn volume_down(volume: u32) -> (r: u32)
    ensures
        r == stepped_down(volume),
{
    if volume >= VOLUME_STEP {
        volume - VOLUME_STEP
    } else {
        0
    }
}

pub fn volume_up(volume: u32) -> (r: u32)
    ensures
        r == stepped_up(volume),
{
    if volume >= VOLUME_FULL - VOLUME_STEP {
        VOLUME_FULL
    } else {
        volume + VOLUME_STEP
    }
}

/// The percentage shown beside a slider: 0 when muted, otherwise the
/// volume in percent rounded half up.
pub open spec fn percent_shown(volume: u32, muted: bool) -> u32 {
    if muted {
        0
    } else {
        ((volume + 5) / 10) as u32
    }
}

pub fn volume_percent(volume: u32, muted: bool) -> (r: u32)
    ensures
        r == percent_shown(volume, muted),
{
    if muted {
        0
    } else if volume % 10 >= 5 {
        volume / 10 + 1
    } else {
        volume / 10
    }
}

/// The command a step button sends: the node's volume one step down or up;
/// for a node the mixer no longer knows, silence or full scale.
pub open spec fn step_command(
    nodes: Map<u32, AudioNode>,
    node_id: u32,
    node_name: String,
    is_stream: bool,
    up: bool,
) -> EngineCommand {
    if nodes.contains_key(node_id) {
        EngineCommand::SetVolume {
            node_id,
            volume: if up {
                stepped_up(nodes[node_id].volume)
            } else {
                stepped_down(nodes[node_id].volume)
            },
            pulse_id: nodes[node_id].pulse_id,
            node_name,
            is_stream,
        }
    } else {
        EngineCommand::SetVolume {
            node_id,
            volume: if up {
                VOLUME_FULL
            } else {
                0
            },
            pulse_id: None,
            node_name,
            is_stream,
        }
    }
}

/// The command the mute button sends: the opposite of the node's mute
/// state; for a node the mixer no longer knows, unmute.
pub open spec fn mute_command(
    nodes: Map<u32, AudioNode>,
    node_id: u32,
    node_name: String,
    is_stream: bool,
) -> EngineCommand {
    if nodes.contains_key(node_id) {
        EngineCommand::SetMute {
            node_id,
            muted: !nodes[node_id].muted,
            pulse_id: nodes[node_id].pulse_id,
            node_name,
            is_stream,
        }
    } else {
        EngineCommand::SetMute { node_id, muted: false, pulse_id: None, node_name, is_stream }
    }
}

impl MixerState {
    /// What the `-` (`up == false`) or `+` button of a node's slider sends.
    pub fn volume_step_command(&self, node_id: u32, node_name: String, is_stream: bool, up: bool) -> (r:
        EngineCommand)
        ensures
            r == step_command(self.nodes@, node_id, node_name, is_stream, up),
    {
        match self.nodes.get(&node_id) {
            Some(n) => {
                let volume = if up {
                    volume_up(n.volume)
                } else {
                    volume_down(n.volume)
                };
                EngineCommand::SetVolume { node_id, volume, pulse_id: n.pulse_id, node_name, is_stream }
            },
            None => EngineCommand::SetVolume {
                node_id,
                volume: if up {
                    VOLUME_FULL
                } else {
                    0
                },
                pulse_id: None,
                node_name,
                is_stream,
            },
        }
    }

    /// What a node's mute button sends.
    pub fn mute_toggle_command(&self, node_id: u32, node_name: String, is_stream: bool) -> (r: EngineCommand)
        ensures
            r == mute_command(self.nodes@, node_id, node_name, is_stream),
    {
        match self.nodes.get(&node_id) {
            Some(n) => EngineCommand::SetMute {
                node_id,
                muted: !n.muted,
                pulse_id: n.pulse_id,
                node_name,
                is_stream,
            },
            None => EngineCommand::SetMute { node_id, muted: false, pulse_id: None, node_name, is_stream },
        }
    }
}

impl AppGroup {
    /// The node whose volume an application card controls: its playback
    /// stream, else its capture stream, else 0.
    pub fn volume_node_id(&self) -> (r: u32)
        ensures
            r == (match self.playback_id {
                Some(p) => p,
                None => match self.capture_id {
                    Some(c) => c,
                    None => 0,
                },
            }),
    {
        match self.playback_id {
            Some(p) => p,
            None => match self.capture_id {
                Some(c) => c,
                None => 0,
            },
        }
    }
}

/// `s` cut to `max` characters with an ellipsis when it is longer.
pub open spec fn clipped(s: Seq<char>, max: nat) -> Seq<char> {
    if s.len() > max {
        s.take(max as int).push('\u{2026}')
    } else {
        s
    }
}

/// Shortens a label to at most `max` characters plus an ellipsis.
pub fn clip(s: &str, max: usize) -> (r: String)
    ensures
        r@ == clipped(s@, max as nat),
{
    let v = chars_of(s);
    if v.len() > max {
        let mut w: Vec<char> = Vec::new();
        let mut i: usize = 0;
        while i < max
            invariant
                i <= max < v.len(),
                w@ == v@.take(i as int),
            decreases max - i,
        {
            w.push(v[i]);
            assert(v@.take(i + 1) == v@.take(i as int).push(v@[i as int]));
            i = i + 1;
        }
        w.push('\u{2026}');
        string_of(&w)
    } else {
        string_of(&v)
    }
}

/// The kind of an output device, which picks its icon.
#[derive(Debug, Clone, Copy, PartialEq, Eq, Structural)]
pub enum DeviceKind {
    Headphones,
    Monitor,
    Speakers,
}

/// The kind a lower-cased device description names.
pub open spec fn device_kind_named(lower: Seq<char>) -> DeviceKind {
    if has_infix(lower, "headphone"@) || has_infix(lower, "headset"@) {
        DeviceKind::Headphones
    } else if has_infix(lower, "hdmi"@) || has_infix(lower, "display"@) || has_infix(lower, "monitor"@) {
        DeviceKind::Monitor
    } else {
        DeviceKind::Speakers
    }
}

/// Picks the kind of device from its lower-cased description.
pub fn device_kind_of_lowercase(lower: &str) -> (k: DeviceKind)
    ensures
        k == device_kind_named(lower@),
{
    let l = chars_of(lower);
    if contains_str(&l, "headphone") || contains_str(&l, "headset") {
        DeviceKind::Headphones
    } else if contains_str(&l, "hdmi") || contains_str(&l, "display") || contains_str(&l, "monitor") {
        DeviceKind::Monitor
    } else {
        DeviceKind::Speakers
    }
}

/// What `str::to_lowercase` returns for the given characters.
pub uninterp spec fn lowercase_of(s: Seq<char>) -> Seq<char>;

/// `str::to_lowercase`: the Unicode lower-case mapping of each character.
/// Its result is named, not stated.
#[verifier::external_body]
fn to_lowercase(s: &str) -> (r: String)
    ensures
        r@ == lowercase_of(s@),
{
    s.to_lowercase()
}

/// Infers the kind of an output device from its description.
pub fn infer_device_type(description: &str) -> (k: DeviceKind)
    ensures
        k == device_kind_named(lowercase_of(description@)),
{
    let lower = to_lowercase(description);
    device_kind_of_lowercase(lower.as_str())
}

} // verus!
