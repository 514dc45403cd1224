use kernelpilot::controls::{
    clip, device_kind_of_lowercase, infer_device_type, volume_down, volume_percent, volume_up, DeviceKind,
};
use kernelpilot::models::{AppGroup, AppIcon, AudioNode, EngineCommand, EngineEvent, LinkInfo, MixerState, NodeType};
use kernelpilot::routing::{available_outputs, output_route_command, output_unroute_command, RoutingMenus};
use kernelpilot::text::{chars_of, parse_u32, split_lines};

fn node(id: u32, name: &str, desc: &str, t: NodeType) -> AudioNode {
    AudioNode {
        id,
        name: name.to_string(),
        description: desc.to_string(),
        node_type: t,
        volume: 500,
        muted: false,
        pulse_id: Some(id + 1000),
    }
}

#[test]
fn volume_steps_clamp() {
    assert_eq!(volume_up(500), 550);
    assert_eq!(volume_up(960), 1000);
    assert_eq!(volume_up(1000), 1000);
    assert_eq!(volume_up(u32::MAX), 1000);
    assert_eq!(volume_down(500), 450);
    assert_eq!(volume_down(30), 0);
    assert_eq!(volume_down(0), 0);
}

#[test]
fn steps_undo_each_other_inside_the_scale() {
    for v in [50u32, 300, 950] {
        assert_eq!(volume_down(volume_up(v)), v);
        assert_eq!(volume_up(volume_down(v)), v);
    }
    assert_ne!(volume_down(volume_up(980)), 980);
}

#[test]
fn percent_shown() {
    assert_eq!(volume_percent(500, false), 50);
    assert_eq!(volume_percent(455, false), 46);
    assert_eq!(volume_percent(454, false), 45);
    assert_eq!(volume_percent(1000, true), 0);
    assert_eq!(volume_percent(u32::MAX, false), 429496730);
}

#[test]
fn step_and_mute_commands_follow_the_node() {
    let mut s = MixerState::new();
    s.apply_event(EngineEvent::NodeAdded(node(3, "sink", "Speakers", NodeType::OutputDevice)));
    match s.volume_step_command(3, "sink".into(), false, true) {
        EngineCommand::SetVolume { node_id, volume, pulse_id, node_name, is_stream } => {
            assert_eq!((node_id, volume, pulse_id, is_stream), (3, 550, Some(1003), false));
            assert_eq!(node_name, "sink");
        },
        _ => panic!("expected SetVolume"),
    }
    match s.volume_step_command(3, "sink".into(), false, false) {
        EngineCommand::SetVolume { volume, .. } => assert_eq!(volume, 450),
        _ => panic!("expected SetVolume"),
    }
    match s.volume_step_command(8, "gone".into(), true, true) {
        EngineCommand::SetVolume { volume, pulse_id, .. } => assert_eq!((volume, pulse_id), (1000, None)),
        _ => panic!("expected SetVolume"),
    }
    match s.volume_step_command(8, "gone".into(), true, false) {
        EngineCommand::SetVolume { volume, .. } => assert_eq!(volume, 0),
        _ => panic!("expected SetVolume"),
    }
    match s.mute_toggle_command(3, "sink".into(), false) {
        EngineCommand::SetMute { muted, .. } => assert!(muted),
        _ => panic!("expected SetMute"),
    }
    match s.mute_toggle_command(8, "gone".into(), false) {
        EngineCommand::SetMute { muted, pulse_id, .. } => assert_eq!((muted, pulse_id), (false, None)),
        _ => panic!("expected SetMute"),
    }
}

#[test]
fn mute_twice_returns_to_the_start() {
    let mut s = MixerState::new();
    s.apply_event(EngineEvent::NodeAdded(node(3, "sink", "Speakers", NodeType::OutputDevice)));
    let first = match s.mute_toggle_command(3, "sink".into(), false) {
        EngineCommand::SetMute { muted, .. } => muted,
        _ => panic!("expected SetMute"),
    };
    s.apply_event(EngineEvent::MuteChanged { node_id: 3, muted: first });
    match s.mute_toggle_command(3, "sink".into(), false) {
        EngineCommand::SetMute { muted, .. } => assert!(!muted),
        _ => panic!("expected SetMute"),
    }
}

#[test]
fn volume_node_of_a_card() {
    let g = AppGroup {
        name: "A".into(),
        node_name: "a".into(),
        playback_id: None,
        capture_id: Some(4),
        volume: 0,
        muted: false,
        icon: AppIcon::Mic,
    };
    assert_eq!(g.volume_node_id(), 4);
    let g2 = AppGroup { playback_id: Some(2), ..g.clone() };
    assert_eq!(g2.volume_node_id(), 2);
    let g3 = AppGroup { playback_id: None, capture_id: None, ..g };
    assert_eq!(g3.volume_node_id(), 0);
}

#[test]
fn clip_counts_characters() {
    assert_eq!(clip("Speakers", 32), "Speakers");
    assert_eq!(clip("abcdef", 3), "abc\u{2026}");
    assert_eq!(clip("äöüß", 2), "äö\u{2026}");
    assert_eq!(clip("abc", 3), "abc");
    assert_eq!(clip("", 0), "");
    assert_eq!(clip("a", 0), "\u{2026}");
}

#[test]
fn device_kind_from_description() {
    assert_eq!(infer_device_type("Built-in Headphones"), DeviceKind::Headphones);
    assert_eq!(infer_device_type("USB HEADSET"), DeviceKind::Headphones);
    assert_eq!(infer_device_type("HDMI / DisplayPort 2 Output"), DeviceKind::Monitor);
    assert_eq!(infer_device_type("Dell Monitor"), DeviceKind::Monitor);
    assert_eq!(infer_device_type("Built-in Audio Analog Stereo"), DeviceKind::Speakers);
    assert_eq!(device_kind_of_lowercase("HDMI"), DeviceKind::Speakers);
    assert_eq!(device_kind_of_lowercase("hdmi"), DeviceKind::Monitor);
}

#[test]
fn available_outputs_skip_linked_ones() {
    let outs = vec![
        (1, "Speakers".to_string(), "alsa_a".to_string()),
        (2, "HDMI".to_string(), "alsa_b".to_string()),
        (3, "USB".to_string(), "alsa_c".to_string()),
    ];
    let linked = vec![(2, "HDMI".to_string())];
    let a = available_outputs(&outs, &linked);
    assert_eq!(a, vec![outs[0].clone(), outs[2].clone()]);
    assert_eq!(available_outputs(&outs, &Vec::new()), outs);
}

#[test]
fn linked_outputs_and_current_input() {
    let mut s = MixerState::new();
    s.apply_event(EngineEvent::NodeAdded(node(1, "ff", "Firefox", NodeType::App)));
    s.apply_event(EngineEvent::NodeAdded(node(2, "sink", "Speakers", NodeType::OutputDevice)));
    s.apply_event(EngineEvent::NodeAdded(node(5, "mic", "Mic", NodeType::InputDevice)));
    s.apply_event(EngineEvent::NodeAdded(node(6, "rec", "Recorder", NodeType::AppInput)));
    for (id, from, to) in [(10, 1, 2), (11, 1, 2), (12, 1, 99), (13, 5, 6)] {
        s.apply_event(EngineEvent::LinkAdded(LinkInfo { id, output_node: from, input_node: to, output_port: 0, input_port: 0 }));
    }
    assert_eq!(s.linked_outputs(1), vec![(2, "Speakers".to_string())]);
    assert_eq!(s.current_input(Some(6)), Some((5, "Mic".to_string())));
    assert_eq!(s.current_input(Some(1)), None);
    assert_eq!(s.current_input(None), None);
}

#[test]
fn picking_an_input_relinks_the_stream() {
    let mut s = MixerState::new();
    s.apply_event(EngineEvent::NodeAdded(node(5, "mic", "Mic", NodeType::InputDevice)));
    s.apply_event(EngineEvent::NodeAdded(node(6, "rec", "Recorder", NodeType::AppInput)));
    s.apply_event(EngineEvent::LinkAdded(LinkInfo { id: 13, output_node: 5, input_node: 6, output_port: 0, input_port: 0 }));
    let r = s.input_route_commands(Some(6), Some("usb_mic".to_string()));
    assert_eq!(r.len(), 2);
    match &r[0] {
        EngineCommand::RemoveLink { from_name, to_name } => assert_eq!((from_name.as_str(), to_name.as_str()), ("mic", "rec")),
        _ => panic!("expected RemoveLink"),
    }
    match &r[1] {
        EngineCommand::CreateLink { from_name, to_name } => assert_eq!((from_name.as_str(), to_name.as_str()), ("usb_mic", "rec")),
        _ => panic!("expected CreateLink"),
    }
    let r = s.input_route_commands(Some(6), None);
    assert_eq!(r.len(), 1);
    let r = s.input_route_commands(None, Some("usb_mic".to_string()));
    assert_eq!(r.len(), 1);
    match &r[0] {
        EngineCommand::CreateLink { to_name, .. } => assert_eq!(to_name, ""),
        _ => panic!("expected CreateLink"),
    }
}

#[test]
fn menus_toggle() {
    let mut m = RoutingMenus::new();
    m.toggle_output(4);
    assert_eq!(m.open_output_popover, Some(4));
    m.toggle_output(4);
    assert_eq!(m.open_output_popover, None);
    m.toggle_input(7);
    m.toggle_output(4);
    m.toggle_output(5);
    assert_eq!(m.open_output_popover, Some(5));
    assert_eq!(m.open_input_dropdown, Some(7));
    m.close_input();
    m.close_output();
    assert_eq!(m, RoutingMenus::new());
}

#[test]
fn parse_u32_like_std() {
    for s in ["0", "42", "+7", "007", "4294967295", "4294967296", "", "+", "-1", "1 2", "١", "99999999999"] {
        assert_eq!(parse_u32(&chars_of(s)), s.parse::<u32>().ok(), "input {s:?}");
    }
}

#[test]
fn split_lines_like_std() {
    for s in ["", "a", "a\n", "a\nb", "a\r\nb\r\n", "\n\n", "a\r", "a\rb\n", "x\r\n\r\n"] {
        let got: Vec<String> = split_lines(&chars_of(s)).iter().map(|l| l.iter().collect()).collect();
        let want: Vec<String> = s.lines().map(|l| l.to_string()).collect();
        assert_eq!(got, want, "input {s:?}");
    }
}

#[test]
fn unlink_target_and_slider_state() {
    let outs = vec![
        (1, "Speakers".to_string(), "alsa_a".to_string()),
        (1, "Again".to_string(), "alsa_dup".to_string()),
        (2, "HDMI".to_string(), "alsa_b".to_string()),
    ];
    assert_eq!(kernelpilot::routing::target_name(&outs, 1), "alsa_a");
    assert_eq!(kernelpilot::routing::target_name(&outs, 2), "alsa_b");
    assert_eq!(kernelpilot::routing::target_name(&outs, 3), "");
    let mut s = MixerState::new();
    let mut n = node(3, "sink", "Speakers", NodeType::OutputDevice);
    n.muted = true;
    s.apply_event(EngineEvent::NodeAdded(n));
    assert_eq!(s.slider_state(3), (500, true));
    assert_eq!(s.slider_state(4), (1000, false));
}

fn feeder_graph() -> MixerState {
    let mut s = MixerState::new();
    s.apply_event(EngineEvent::NodeAdded(node(5, "mic", "Mic", NodeType::InputDevice)));
    s.apply_event(EngineEvent::NodeAdded(node(7, "usb", "USB Mic", NodeType::InputDevice)));
    s.apply_event(EngineEvent::NodeAdded(node(6, "rec", "Recorder", NodeType::AppInput)));
    s
}

#[test]
fn feeder_with_the_smallest_link_id_is_the_input() {
    let mut s = feeder_graph();
    s.apply_event(EngineEvent::LinkAdded(LinkInfo { id: 14, output_node: 5, input_node: 6, output_port: 0, input_port: 0 }));
    s.apply_event(EngineEvent::LinkAdded(LinkInfo { id: 13, output_node: 7, input_node: 6, output_port: 0, input_port: 0 }));
    assert_eq!(s.capture_input_device(6), Some(7));
    assert_eq!(s.current_input(Some(6)), Some((7, "USB Mic".to_string())));
    // The menu removes the link from the device the card shows.
    let r = s.input_route_commands(Some(6), Some("mic".to_string()));
    assert_eq!(r.len(), 2);
    match &r[0] {
        EngineCommand::RemoveLink { from_name, to_name } => assert_eq!((from_name.as_str(), to_name.as_str()), ("usb", "rec")),
        _ => panic!("expected RemoveLink"),
    }
    s.apply_event(EngineEvent::LinkRemoved(13));
    assert_eq!(s.capture_input_device(6), Some(5));
    assert_eq!(s.current_input(Some(6)), Some((5, "Mic".to_string())));
}

#[test]
fn unknown_feeder_shows_no_input_and_removes_nothing() {
    let mut s = feeder_graph();
    // The smallest link comes from a node the graph does not know.
    s.apply_event(EngineEvent::LinkAdded(LinkInfo { id: 3, output_node: 99, input_node: 6, output_port: 0, input_port: 0 }));
    s.apply_event(EngineEvent::LinkAdded(LinkInfo { id: 4, output_node: 5, input_node: 6, output_port: 0, input_port: 0 }));
    assert_eq!(s.capture_input_device(6), Some(99));
    assert_eq!(s.current_input(Some(6)), None);
    let r = s.input_route_commands(Some(6), None);
    assert!(r.is_empty());
    let r = s.input_route_commands(Some(6), Some("usb".to_string()));
    assert_eq!(r.len(), 1);
    assert!(matches!(&r[0], EngineCommand::CreateLink { .. }));
}

#[test]
fn output_routes_use_the_raw_node_name() {
    let g = AppGroup {
        name: "Discord".to_string(),
        node_name: "WEBRTC VoiceEngine".to_string(),
        playback_id: Some(1),
        capture_id: None,
        volume: 1000,
        muted: false,
        icon: AppIcon::Speaker,
    };
    match output_route_command(&g, "alsa_out".to_string()) {
        EngineCommand::CreateLink { from_name, to_name } => {
            assert_eq!((from_name.as_str(), to_name.as_str()), ("WEBRTC VoiceEngine", "alsa_out"))
        }
        _ => panic!("expected CreateLink"),
    }
    match output_unroute_command(&g, "alsa_out".to_string()) {
        EngineCommand::RemoveLink { from_name, to_name } => {
            assert_eq!((from_name.as_str(), to_name.as_str()), ("WEBRTC VoiceEngine", "alsa_out"))
        }
        _ => panic!("expected RemoveLink"),
    }
}
