use kernelpilot::commands::{create_link_args, format_volume, plan_command, reset_runs, set_mute_args, set_volume_args};
use kernelpilot::text::{chars_of, parse_u32};
use kernelpilot::engine::{
    announce_object, classify_node, link_from_props, lookup_prop, node_from_props, port_from_props,
    removal_events, ObjectKind,
};
use kernelpilot::listing::{node_id_by_name, plan_port_links, streams_to_reset};
use kernelpilot::models::{EngineCommand, EngineEvent, NodeType, PortDirection};

fn props(kv: &[(&str, &str)]) -> Vec<(String, String)> {
    kv.iter().map(|(k, v)| (k.to_string(), v.to_string())).collect()
}

#[test]
fn classify_by_media_class() {
    assert_eq!(classify_node("Audio/Sink", "alsa_output"), NodeType::OutputDevice);
    assert_eq!(classify_node("Audio/Source", "alsa_input"), NodeType::InputDevice);
    assert_eq!(classify_node("Stream/Output/Audio", "firefox"), NodeType::App);
    assert_eq!(classify_node("Stream/Input/Audio", "obs"), NodeType::AppInput);
}

#[test]
fn classify_virtual_buses_by_name() {
    assert_eq!(classify_node("", "my-null-sink-1"), NodeType::VirtualBus);
    assert_eq!(classify_node("Audio/Duplex", "MusicMixer"), NodeType::VirtualBus);
    assert_eq!(classify_node("Video/Source", "v4l2"), NodeType::Other);
    // The media class decides before the name.
    assert_eq!(classify_node("Audio/Sink", "null-sink"), NodeType::OutputDevice);
    // Matching is exact and case-sensitive.
    assert_eq!(classify_node("audio/sink", "x"), NodeType::Other);
    assert_eq!(classify_node("", "musicmixer"), NodeType::Other);
}

#[test]
fn later_property_overrides_earlier() {
    let p = props(&[("a", "1"), ("b", "2"), ("a", "3")]);
    assert_eq!(lookup_prop(&p, "a"), Some("3".to_string()));
    assert_eq!(lookup_prop(&p, "b"), Some("2".to_string()));
    assert_eq!(lookup_prop(&p, "c"), None);
}

#[test]
fn node_from_full_props() {
    let p = props(&[
        ("media.class", "Stream/Output/Audio"),
        ("node.name", "Firefox"),
        ("node.description", "Firefox Web"),
        ("node.nick", "ff"),
        ("object.serial", "123"),
    ]);
    let n = node_from_props(42, &p);
    assert_eq!(n.id, 42);
    assert_eq!(n.name, "Firefox");
    assert_eq!(n.description, "Firefox Web");
    assert_eq!(n.node_type, NodeType::App);
    assert_eq!(n.volume, 1000);
    assert!(!n.muted);
    assert_eq!(n.pulse_id, Some(123));
}

#[test]
fn node_description_fallbacks() {
    let n = node_from_props(1, &props(&[("node.nick", "nick"), ("media.name", "media")]));
    assert_eq!(n.description, "nick");
    let n = node_from_props(1, &props(&[("media.name", "media")]));
    assert_eq!(n.description, "media");
    let n = node_from_props(1, &props(&[("node.name", "raw")]));
    assert_eq!(n.description, "raw");
}

#[test]
fn node_without_props() {
    let n = node_from_props(77, &Vec::new());
    assert_eq!(n.name, "node-77");
    assert_eq!(n.description, "node-77");
    assert_eq!(n.node_type, NodeType::Other);
    assert_eq!(n.pulse_id, None);
    let n = node_from_props(0, &props(&[("object.serial", "x1")]));
    assert_eq!(n.name, "node-0");
    assert_eq!(n.pulse_id, None);
}

#[test]
fn port_from_props_reads_direction_and_owner() {
    let p = port_from_props(5, &props(&[("node.id", "40"), ("port.name", "output_FL"), ("port.direction", "out")]));
    assert_eq!(p.id, 5);
    assert_eq!(p.node_id, 40);
    assert_eq!(p.name, "output_FL");
    assert_eq!(p.direction, PortDirection::Output);
    let p = port_from_props(6, &props(&[("node.id", "forty"), ("port.direction", "in")]));
    assert_eq!(p.node_id, 0);
    assert_eq!(p.name, "port-6");
    assert_eq!(p.direction, PortDirection::Input);
    let p = port_from_props(7, &props(&[("port.direction", "OUT")]));
    assert_eq!(p.direction, PortDirection::Input);
}

#[test]
fn link_from_props_reads_numbers() {
    let l = link_from_props(
        9,
        &props(&[
            ("link.output.node", "40"),
            ("link.input.node", "+50"),
            ("link.output.port", "4294967295"),
            ("link.input.port", "4294967296"),
        ]),
    );
    assert_eq!(l.id, 9);
    assert_eq!(l.output_node, 40);
    assert_eq!(l.input_node, 50);
    assert_eq!(l.output_port, 4294967295);
    assert_eq!(l.input_port, 0);
    let l = link_from_props(3, &props(&[("link.output.node", "-1"), ("link.input.node", "")]));
    assert_eq!((l.output_node, l.input_node), (0, 0));
}

#[test]
fn announce_follows_object_kind() {
    let p = props(&[("node.name", "n")]);
    assert!(matches!(announce_object(ObjectKind::Node, 1, &p), Some(EngineEvent::NodeAdded(_))));
    assert!(matches!(announce_object(ObjectKind::Port, 1, &p), Some(EngineEvent::PortAdded(_))));
    assert!(matches!(announce_object(ObjectKind::Link, 1, &p), Some(EngineEvent::LinkAdded(_))));
    assert!(announce_object(ObjectKind::Other, 1, &p).is_none());
}

#[test]
fn removal_notice_names_all_three() {
    let r = removal_events(12);
    assert_eq!(r.len(), 3);
    assert!(matches!(r[0], EngineEvent::NodeRemoved(12)));
    assert!(matches!(r[1], EngineEvent::PortRemoved(12)));
    assert!(matches!(r[2], EngineEvent::LinkRemoved(12)));
}

const PORTS: &str = "\tid 45, type PipeWire:Interface:Port/3\n\
 \t\tport.name = \"output_FL\"\n\
 \t\tport.direction = \"out\"\n\
 \t\tnode.id = \"40\"\n\
\tid 46, type PipeWire:Interface:Port/3\n\
 \t\tnode.id = \"40\"\n\
 \t\tport.name = \"output_FR\"\n\
 \t\tport.direction = \"out\"\n\
\tid 55, type PipeWire:Interface:Port/3\n\
 \t\tnode.id = \"50\"\n\
 \t\tport.direction = \"in\"\n\
 \t\tport.name = \"playback_FL\"\n\
\tid 56, type PipeWire:Interface:Port/3\n\
 \t\tnode.id = \"50\"\n\
 \t\tport.direction = \"in\"\n\
 \t\tport.name = \"playback_FR\"\n\
\tid 57, type PipeWire:Interface:Port/3\n\
 \t\tnode.id = \"50\"\n\
 \t\tport.direction = \"out\"\n\
 \t\tport.name = \"monitor_FL\"\n\
\tid 65, type PipeWire:Interface:Port/3\n\
 \t\tnode.id = \"60\"\n\
 \t\tport.direction = \"in\"\n\
 \t\tport.name = \"capture_MONO\"\n\
\tid 70, type PipeWire:Interface:Port/3\n\
 \t\tnode.id = \"99\"\n\
 \t\tport.direction = \"in\"\n\
 \t\tport.name = \"playback_FL\"\n";

#[test]
fn ports_pair_by_channel() {
    assert_eq!(plan_port_links(PORTS, 40, 50), vec![(45, 55), (46, 56)]);
}

#[test]
fn single_input_port_takes_everything() {
    assert_eq!(plan_port_links(PORTS, 40, 60), vec![(45, 65), (46, 65)]);
}

#[test]
fn no_ports_no_links() {
    assert!(plan_port_links(PORTS, 40, 12345).is_empty());
    assert!(plan_port_links("", 40, 50).is_empty());
    assert!(plan_port_links(PORTS, 50, 40).is_empty());
}

#[test]
fn listing_with_crlf_endings() {
    let text = "id 1,\r\n node.id = \"7\"\r\n port.direction = \"out\"\r\n port.name = \"a\"\r\nid 2,\r\n node.id = \"8\"\r\n port.direction = \"in\"\r\n port.name = \"a\"\r\n";
    assert_eq!(plan_port_links(text, 7, 8), vec![(1, 2)]);
}

#[test]
fn lines_before_any_id_are_ignored() {
    let text = " node.id = \"7\"\n port.direction = \"out\"\nid 1,\n node.id = \"7\"\n port.direction = \"out\"\n port.name = \"x\"\nid 2,\n node.id = \"8\"\n port.direction = \"in\"\n port.name = \"y\"\n";
    // A single input port receives the mixdown even though the names differ.
    assert_eq!(plan_port_links(text, 7, 8), vec![(1, 2)]);
}

const NODES: &str = "\tid 40, type PipeWire:Interface:Node/3\n\
 \t\tmedia.class = \"Stream/Output/Audio\"\n\
 \t\tnode.name = \"Firefox\"\n\
\tid 41, type PipeWire:Interface:Node/3\n\
 \t\tmedia.class = \"Audio/Sink\"\n\
 \t\tnode.name = \"alsa_output\"\n\
\tid 42, type PipeWire:Interface:Node/3\n\
 \t\tnode.name = \"early\"\n\
 \t\tmedia.class = \"Stream/Input/Audio\"\n\
 \t\tnode.name = \"obs\"\n";

#[test]
fn streams_found_for_reset() {
    assert_eq!(streams_to_reset(NODES), vec![40, 42]);
    assert!(streams_to_reset("").is_empty());
}

#[test]
fn node_found_by_name() {
    assert_eq!(node_id_by_name(NODES, "alsa_output"), Some(41));
    assert_eq!(node_id_by_name(NODES, "obs"), Some(42));
    assert_eq!(node_id_by_name(NODES, "missing"), None);
}

#[test]
fn volumes_are_written_with_three_decimals() {
    assert_eq!(format_volume(500), "0.500");
    assert_eq!(format_volume(1000), "1.000");
    assert_eq!(format_volume(0), "0.000");
    assert_eq!(format_volume(45), "0.045");
    assert_eq!(format_volume(12345), "12.345");
}

#[test]
fn set_param_invocations() {
    assert_eq!(
        set_volume_args(42, 750),
        vec!["pw-cli", "set-param", "42", "Props", "{ channelVolumes: [ 0.750 ] }"]
    );
    assert_eq!(set_mute_args(7, true), vec!["pw-cli", "set-param", "7", "Props", "{ mute: true }"]);
    assert_eq!(set_mute_args(7, false), vec!["pw-cli", "set-param", "7", "Props", "{ mute: false }"]);
}

#[test]
fn plans_for_each_command() {
    let p = plan_command(EngineCommand::SetVolume {
        node_id: 3,
        volume: 200,
        pulse_id: Some(9),
        node_name: "x".to_string(),
        is_stream: true,
    });
    assert_eq!(
        p.runs,
        vec![
            vec!["pactl", "set-sink-input-volume", "9", "0.200"],
            vec!["pactl", "set-source-output-volume", "9", "0.200"],
        ]
    );
    assert!(p.links.is_empty());
    assert!(matches!(p.echo, Some(EngineEvent::VolumeChanged { node_id: 3, volume: 200 })));
    let p = plan_command(EngineCommand::SetMute {
        node_id: 3,
        muted: true,
        pulse_id: None,
        node_name: "x".to_string(),
        is_stream: false,
    });
    assert_eq!(
        p.runs,
        vec![vec!["pactl", "set-sink-mute", "x", "1"], vec!["pactl", "set-source-mute", "x", "1"]]
    );
    assert!(matches!(p.echo, Some(EngineEvent::MuteChanged { node_id: 3, muted: true })));
    let p = plan_command(EngineCommand::CreateLink { from_name: "a".into(), to_name: "b".into() });
    assert!(p.runs.is_empty());
    assert_eq!(p.links, vec![("a".to_string(), "b".to_string())]);
    let p = plan_command(EngineCommand::RemoveLink { from_name: "a".into(), to_name: "b".into() });
    assert_eq!(p.runs, vec![vec!["pw-link", "-d", "a", "b"]]);
    assert!(p.echo.is_none());
    let p = plan_command(EngineCommand::RestoreLinks {
        pairs: vec![("a".into(), "b".into()), ("c".into(), "d".into())],
    });
    assert_eq!(p.links.len(), 2);
    assert_eq!(p.links[1], ("c".to_string(), "d".to_string()));
    let p = plan_command(EngineCommand::LoadNullSink { name: "Mix".into() });
    assert_eq!(
        p.runs,
        vec![vec!["pw-cli", "load-module", "module-null-sink", "sink_name=Mix", "sink_properties=device.description=Mix"]]
    );
    let p = plan_command(EngineCommand::UnloadModule { module_id: 17 });
    assert_eq!(p.runs, vec![vec!["pw-cli", "destroy", "17"]]);
}

#[test]
fn reset_unmutes_then_restores_full_volume() {
    let r = reset_runs(&vec![40, 42]);
    assert_eq!(r.len(), 4);
    assert_eq!(r[0], vec!["pw-cli", "set-param", "40", "Props", "{ mute: false }"]);
    assert_eq!(r[1], vec!["pw-cli", "set-param", "40", "Props", "{ channelVolumes: [ 1.000 ] }"]);
    assert_eq!(r[3][2], "42");
}

#[test]
fn numbers_written_read_back() {
    for n in [0u32, 7, 10, 99, 100, 65536, 4294967295] {
        let args = create_link_args(n, 1, 2, 3);
        assert_eq!(args[2], n.to_string());
        assert_eq!(parse_u32(&chars_of(&args[2])), Some(n));
    }
    let n = node_from_props(4294967295, &Vec::new());
    assert_eq!(n.name, "node-4294967295");
}

#[test]
fn volume_and_mute_reach_the_named_target() {
    // A device is addressed by its node name, even when it has a pulse index.
    let p = plan_command(EngineCommand::SetVolume {
        node_id: 8,
        volume: 1250,
        pulse_id: Some(4),
        node_name: "alsa_output.usb".to_string(),
        is_stream: false,
    });
    assert_eq!(
        p.runs,
        vec![
            vec!["pactl", "set-sink-volume", "alsa_output.usb", "1.250"],
            vec!["pactl", "set-source-volume", "alsa_output.usb", "1.250"],
        ]
    );
    // A stream without a pulse index falls back to its node name.
    let p = plan_command(EngineCommand::SetMute {
        node_id: 8,
        muted: false,
        pulse_id: None,
        node_name: "firefox".to_string(),
        is_stream: true,
    });
    assert_eq!(
        p.runs,
        vec![vec!["pactl", "set-sink-mute", "firefox", "0"], vec!["pactl", "set-source-mute", "firefox", "0"]]
    );
    // A stream with a pulse index is addressed by that index.
    let p = plan_command(EngineCommand::SetMute {
        node_id: 8,
        muted: false,
        pulse_id: Some(312),
        node_name: "firefox".to_string(),
        is_stream: true,
    });
    assert_eq!(
        p.runs,
        vec![vec!["pactl", "set-sink-input-mute", "312", "0"], vec!["pactl", "set-source-output-mute", "312", "0"]]
    );
    assert!(matches!(p.echo, Some(EngineEvent::MuteChanged { node_id: 8, muted: false })));
}

const SURROUND: &str = "id 1,\n node.id = \"7\"\n port.direction = \"out\"\n port.name = \"output_FL\"\n\
id 2,\n node.id = \"7\"\n port.direction = \"out\"\n port.name = \"output_RL\"\n\
id 3,\n node.id = \"7\"\n port.direction = \"out\"\n port.name = \"output_LFE\"\n\
id 4,\n node.id = \"7\"\n port.direction = \"out\"\n port.name = \"output_SL\"\n\
id 11,\n node.id = \"8\"\n port.direction = \"in\"\n port.name = \"playback_FR\"\n\
id 12,\n node.id = \"8\"\n port.direction = \"in\"\n port.name = \"playback_FL\"\n\
id 13,\n node.id = \"8\"\n port.direction = \"in\"\n port.name = \"playback_RL\"\n\
id 14,\n node.id = \"8\"\n port.direction = \"in\"\n port.name = \"playback_LFE\"\n";

#[test]
fn surround_ports_pair_by_suffix() {
    // FL, RL and LFE find their twins; SL has none on the sink and stays unlinked.
    assert_eq!(plan_port_links(SURROUND, 7, 8), vec![(1, 12), (2, 13), (3, 14)]);
}

#[test]
fn channel_is_the_part_after_the_last_underscore() {
    // "FL" and "playback_FL" name the same channel; "FLX" is another one.
    let text = "id 1,\n node.id = \"7\"\n port.direction = \"out\"\n port.name = \"FL\"\n\
id 2,\n node.id = \"7\"\n port.direction = \"out\"\n port.name = \"out_FLX\"\n\
id 11,\n node.id = \"8\"\n port.direction = \"in\"\n port.name = \"a_b_FL\"\n\
id 12,\n node.id = \"8\"\n port.direction = \"in\"\n port.name = \"playback_FR\"\n";
    assert_eq!(plan_port_links(text, 7, 8), vec![(1, 11)]);
}
