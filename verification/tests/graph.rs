use kernelpilot::models::{
    AppIcon, AudioNode, EngineEvent, LinkInfo, MixerState, NodeType, PortDirection, PortInfo,
};

fn node(id: u32, name: &str, desc: &str, t: NodeType, pulse: Option<u32>) -> AudioNode {
    AudioNode {
        id,
        name: name.to_string(),
        description: desc.to_string(),
        node_type: t,
        volume: 1000,
        muted: false,
        pulse_id: pulse,
    }
}

fn link(id: u32, from: u32, to: u32) -> LinkInfo {
    LinkInfo { id, output_node: from, input_node: to, output_port: id + 100, input_port: id + 200 }
}

fn port(id: u32, node_id: u32) -> PortInfo {
    PortInfo { id, node_id, name: format!("p{id}"), direction: PortDirection::Output }
}

#[test]
fn added_node_reads_back() {
    let mut s = MixerState::new();
    s.apply_event(EngineEvent::NodeAdded(node(7, "spotify", "Spotify", NodeType::App, Some(3))));
    let n = s.nodes.get(&7).unwrap();
    assert_eq!(n.name, "spotify");
    assert_eq!(n.description, "Spotify");
    assert_eq!(n.pulse_id, Some(3));
    s.apply_event(EngineEvent::NodeChanged(node(7, "spotify", "Spotify Premium", NodeType::App, Some(3))));
    assert_eq!(s.nodes.get(&7).unwrap().description, "Spotify Premium");
    assert_eq!(s.nodes.len(), 1);
}

#[test]
fn add_then_remove_node_forgets_it_and_its_ports() {
    let mut s = MixerState::new();
    s.apply_event(EngineEvent::NodeAdded(node(1, "a", "A", NodeType::App, None)));
    s.apply_event(EngineEvent::NodeAdded(node(2, "b", "B", NodeType::OutputDevice, None)));
    s.apply_event(EngineEvent::PortAdded(port(10, 1)));
    assert_eq!(s.node_ports.get(&1).unwrap(), &vec![10]);
    s.apply_event(EngineEvent::NodeRemoved(1));
    assert!(s.nodes.get(&1).is_none());
    assert!(s.nodes.get(&2).is_some());
    assert!(s.node_ports.get(&1).is_none());
    // The port itself stays until the registry removes it.
    assert!(s.ports.get(&10).is_some());
}

#[test]
fn ports_are_listed_per_node_and_removed() {
    let mut s = MixerState::new();
    s.apply_event(EngineEvent::PortAdded(port(10, 1)));
    s.apply_event(EngineEvent::PortAdded(port(11, 1)));
    s.apply_event(EngineEvent::PortAdded(port(12, 2)));
    assert_eq!(s.node_ports.get(&1).unwrap(), &vec![10, 11]);
    s.apply_event(EngineEvent::PortRemoved(10));
    assert_eq!(s.node_ports.get(&1).unwrap(), &vec![11]);
    assert!(s.ports.get(&10).is_none());
    // Removing an unknown port changes nothing.
    s.apply_event(EngineEvent::PortRemoved(99));
    assert_eq!(s.ports.len(), 2);
    assert_eq!(s.node_ports.get(&2).unwrap(), &vec![12]);
}

#[test]
fn add_then_remove_port_restores_the_list() {
    let mut s = MixerState::new();
    s.apply_event(EngineEvent::PortAdded(port(10, 1)));
    s.apply_event(EngineEvent::PortAdded(port(11, 1)));
    s.apply_event(EngineEvent::PortRemoved(11));
    assert_eq!(s.node_ports.get(&1).unwrap(), &vec![10]);
    assert_eq!(s.ports.len(), 1);
}

#[test]
fn add_then_remove_link() {
    let mut s = MixerState::new();
    s.apply_event(EngineEvent::LinkAdded(link(5, 1, 2)));
    assert_eq!(s.links.get(&5), Some(&link(5, 1, 2)));
    s.apply_event(EngineEvent::LinkRemoved(5));
    assert!(s.links.is_empty());
}

#[test]
fn volume_and_mute_reports() {
    let mut s = MixerState::new();
    s.apply_event(EngineEvent::NodeAdded(node(3, "x", "X", NodeType::OutputDevice, None)));
    s.apply_event(EngineEvent::VolumeChanged { node_id: 3, volume: 450 });
    s.apply_event(EngineEvent::MuteChanged { node_id: 3, muted: true });
    let n = s.nodes.get(&3).unwrap();
    assert_eq!(n.volume, 450);
    assert!(n.muted);
    assert_eq!(n.name, "x");
}

#[test]
fn report_on_unknown_node_changes_nothing() {
    let mut s = MixerState::new();
    s.apply_event(EngineEvent::NodeAdded(node(3, "x", "X", NodeType::OutputDevice, None)));
    s.apply_event(EngineEvent::VolumeChanged { node_id: 4, volume: 0 });
    s.apply_event(EngineEvent::MuteChanged { node_id: 4, muted: true });
    assert_eq!(s.nodes.len(), 1);
    assert_eq!(s.nodes.get(&3).unwrap().volume, 1000);
    assert!(!s.nodes.get(&3).unwrap().muted);
}

#[test]
fn batch_applies_in_order() {
    let mut s = MixerState::default();
    s.apply_events(vec![
        EngineEvent::NodeAdded(node(1, "a", "A", NodeType::App, None)),
        EngineEvent::VolumeChanged { node_id: 1, volume: 200 },
        EngineEvent::VolumeChanged { node_id: 1, volume: 300 },
        EngineEvent::LinkAdded(link(9, 1, 2)),
    ]);
    assert_eq!(s.nodes.get(&1).unwrap().volume, 300);
    assert_eq!(s.links.len(), 1);
}

#[test]
fn removal_notice_forgets_everything_with_the_id() {
    let mut s = MixerState::new();
    s.apply_event(EngineEvent::NodeAdded(node(8, "a", "A", NodeType::App, None)));
    s.apply_event(EngineEvent::PortAdded(port(8, 1)));
    s.apply_event(EngineEvent::LinkAdded(link(8, 1, 2)));
    s.apply_events(kernelpilot::engine::removal_events(8));
    assert!(s.nodes.get(&8).is_none());
    assert!(s.ports.get(&8).is_none());
    assert!(s.links.get(&8).is_none());
}

#[test]
fn filters_by_node_type() {
    let mut s = MixerState::new();
    s.apply_event(EngineEvent::NodeAdded(node(1, "a", "A", NodeType::App, None)));
    s.apply_event(EngineEvent::NodeAdded(node(2, "b", "B", NodeType::OutputDevice, None)));
    s.apply_event(EngineEvent::NodeAdded(node(3, "c", "C", NodeType::VirtualBus, None)));
    s.apply_event(EngineEvent::NodeAdded(node(4, "d", "D", NodeType::InputDevice, None)));
    s.apply_event(EngineEvent::NodeAdded(node(5, "e", "E", NodeType::AppInput, None)));
    s.apply_event(EngineEvent::NodeAdded(node(6, "f", "F", NodeType::Other, None)));
    let ids = |v: Vec<&AudioNode>| {
        let mut r: Vec<u32> = v.iter().map(|n| n.id).collect();
        r.sort();
        r
    };
    assert_eq!(ids(s.playback_apps()), vec![1]);
    assert_eq!(ids(s.output_devices()), vec![2, 3]);
    assert_eq!(ids(s.input_devices()), vec![4]);
    assert_eq!(ids(s.app_inputs()), vec![5]);
}

#[test]
fn playback_outputs_are_deduplicated() {
    let mut s = MixerState::new();
    s.apply_event(EngineEvent::LinkAdded(link(1, 10, 20)));
    s.apply_event(EngineEvent::LinkAdded(link(2, 10, 20)));
    s.apply_event(EngineEvent::LinkAdded(link(3, 10, 21)));
    s.apply_event(EngineEvent::LinkAdded(link(4, 11, 22)));
    let mut outs = s.playback_output_devices(10);
    outs.sort();
    assert_eq!(outs, vec![20, 21]);
    assert!(s.playback_output_devices(99).is_empty());
}

#[test]
fn capture_input_device_follows_links() {
    let mut s = MixerState::new();
    s.apply_event(EngineEvent::LinkAdded(link(1, 30, 40)));
    s.apply_event(EngineEvent::LinkAdded(link(2, 30, 40)));
    assert_eq!(s.capture_input_device(40), Some(30));
    assert_eq!(s.capture_input_device(30), None);
}

#[test]
fn app_groups_merge_streams_and_pick_icons() {
    let mut s = MixerState::new();
    s.apply_event(EngineEvent::NodeAdded(node(1, "WEBRTC VoiceEngine", "Discord", NodeType::App, Some(5))));
    s.apply_event(EngineEvent::NodeAdded(node(2, "discord-mic", "Discord", NodeType::AppInput, Some(6))));
    s.apply_event(EngineEvent::NodeAdded(node(3, "obs", "OBS", NodeType::AppInput, None)));
    s.apply_event(EngineEvent::NodeAdded(node(4, "spotify", "Spotify", NodeType::App, None)));
    s.apply_event(EngineEvent::NodeAdded(node(5, "alsa", "Speakers", NodeType::OutputDevice, None)));
    let g = s.app_groups();
    let names: Vec<&str> = g.iter().map(|x| x.name.as_str()).collect();
    assert_eq!(names, vec!["Discord", "OBS", "Spotify"]);
    assert_eq!(g[0].icon, AppIcon::Speaker);
    assert_eq!(g[0].playback_id, Some(1));
    assert_eq!(g[0].capture_id, Some(2));
    assert_eq!(g[0].node_name, "WEBRTC VoiceEngine");
    assert_eq!(g[1].icon, AppIcon::Mic);
    assert_eq!(g[1].playback_id, None);
    assert_eq!(g[1].node_name, "obs");
    assert_eq!(g[2].icon, AppIcon::Music);
    assert_eq!(g[2].capture_id, None);
}

#[test]
fn app_groups_keep_the_stream_with_highest_pulse_id() {
    let mut s = MixerState::new();
    let mut a = node(1, "ff-old", "Firefox", NodeType::App, Some(40));
    a.volume = 100;
    let mut b = node(2, "ff-new", "Firefox", NodeType::App, Some(90));
    b.volume = 700;
    b.muted = true;
    let c = node(3, "ff-none", "Firefox", NodeType::App, None);
    s.apply_event(EngineEvent::NodeAdded(a));
    s.apply_event(EngineEvent::NodeAdded(b));
    s.apply_event(EngineEvent::NodeAdded(c));
    let g = s.app_groups();
    assert_eq!(g.len(), 1);
    assert_eq!(g[0].playback_id, Some(2));
    assert_eq!(g[0].node_name, "ff-new");
    assert_eq!(g[0].volume, 700);
    assert!(g[0].muted);
}

#[test]
fn app_groups_settle_equal_pulse_ids_by_node_key() {
    let mut s = MixerState::new();
    s.apply_event(EngineEvent::NodeAdded(node(4, "a", "Same", NodeType::AppInput, None)));
    s.apply_event(EngineEvent::NodeAdded(node(9, "b", "Same", NodeType::AppInput, None)));
    let g = s.app_groups();
    assert_eq!(g.len(), 1);
    assert_eq!(g[0].capture_id, Some(9));
    assert_eq!(g[0].node_name, "b");
}

#[test]
fn app_groups_sorted_by_code_point() {
    let mut s = MixerState::new();
    for (i, d) in ["b", "B", "a", "ab", "Ä"].iter().enumerate() {
        s.apply_event(EngineEvent::NodeAdded(node(i as u32, "n", d, NodeType::App, None)));
    }
    let g = s.app_groups();
    let names: Vec<&str> = g.iter().map(|x| x.name.as_str()).collect();
    assert_eq!(names, vec!["B", "a", "ab", "b", "Ä"]);
}

#[test]
fn app_groups_of_empty_graph() {
    assert!(MixerState::new().app_groups().is_empty());
}

#[test]
fn every_object_stays_filed_under_its_id() {
    let mut s = MixerState::new();
    s.apply_events(vec![
        EngineEvent::NodeAdded(node(1, "a", "A", NodeType::App, None)),
        EngineEvent::NodeAdded(node(2, "b", "B", NodeType::App, None)),
        EngineEvent::NodeChanged(node(1, "a2", "A", NodeType::App, None)),
        EngineEvent::VolumeChanged { node_id: 2, volume: 10 },
        EngineEvent::PortAdded(port(3, 1)),
        EngineEvent::PortAdded(port(4, 2)),
        EngineEvent::LinkAdded(link(5, 1, 2)),
        EngineEvent::NodeRemoved(2),
        EngineEvent::PortRemoved(3),
    ]);
    assert!(s.nodes.iter().all(|(k, n)| *k == n.id));
    assert!(s.ports.iter().all(|(k, p)| *k == p.id));
    assert!(s.links.iter().all(|(k, l)| *k == l.id));
    assert_eq!(s.nodes.len(), 1);
}

fn card_fields(s: &MixerState) -> Vec<(String, String, Option<u32>, Option<u32>, u32, bool, AppIcon)> {
    s.app_groups()
        .into_iter()
        .map(|g| (g.name, g.node_name, g.playback_id, g.capture_id, g.volume, g.muted, g.icon))
        .collect()
}

#[test]
fn cards_ignore_devices_ports_and_links() {
    let apps = || {
        vec![
            EngineEvent::NodeAdded(node(1, "ff", "Firefox", NodeType::App, Some(3))),
            EngineEvent::NodeAdded(node(2, "ff-mic", "Firefox", NodeType::AppInput, Some(4))),
            EngineEvent::NodeAdded(node(7, "obs", "OBS", NodeType::AppInput, None)),
        ]
    };
    let mut a = MixerState::new();
    a.apply_events(apps());
    let mut b = MixerState::new();
    b.apply_events(apps());
    b.apply_events(vec![
        EngineEvent::NodeAdded(node(20, "alsa", "Firefox", NodeType::OutputDevice, None)),
        EngineEvent::NodeAdded(node(21, "mix", "MusicMixer", NodeType::VirtualBus, None)),
        EngineEvent::NodeAdded(node(22, "x", "Other", NodeType::Other, None)),
        EngineEvent::PortAdded(port(30, 1)),
        EngineEvent::LinkAdded(link(31, 1, 20)),
    ]);
    assert_eq!(card_fields(&a), card_fields(&b));
    assert_eq!(card_fields(&a).len(), 2);
}

#[test]
fn port_lists_match_the_port_map() {
    let mut s = MixerState::new();
    s.apply_events(vec![
        EngineEvent::NodeAdded(node(1, "a", "A", NodeType::App, None)),
        EngineEvent::PortAdded(port(10, 1)),
        EngineEvent::PortAdded(port(11, 1)),
        EngineEvent::PortAdded(port(12, 2)),
        EngineEvent::PortRemoved(10),
        EngineEvent::NodeRemoved(2),
        EngineEvent::PortAdded(port(13, 1)),
        EngineEvent::VolumeChanged { node_id: 1, volume: 5 },
    ]);
    for (node_id, list) in &s.node_ports {
        for p in list {
            assert_eq!(s.ports.get(p).map(|x| x.node_id), Some(*node_id));
        }
    }
    assert_eq!(s.node_ports.get(&1).unwrap(), &vec![11, 13]);
}
