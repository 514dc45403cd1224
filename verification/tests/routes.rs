use kernelpilot::commands::plan_command;
use kernelpilot::models::{AudioNode, EngineCommand, NodeType, OutputTarget};
use kernelpilot::routing::target_route_commands;
use kernelpilot::routes::RouteBook;

fn create(from: &str, to: &str) -> EngineCommand {
    EngineCommand::CreateLink { from_name: from.to_string(), to_name: to.to_string() }
}

fn remove(from: &str, to: &str) -> EngineCommand {
    EngineCommand::RemoveLink { from_name: from.to_string(), to_name: to.to_string() }
}

fn device(name: &str, t: NodeType) -> AudioNode {
    AudioNode {
        id: 50,
        name: name.to_string(),
        description: "Headphones".to_string(),
        node_type: t,
        volume: 1000,
        muted: false,
        pulse_id: None,
    }
}

fn pairs(b: &RouteBook) -> Vec<(&str, &str)> {
    b.pairs.iter().map(|(a, d)| (a.as_str(), d.as_str())).collect()
}

#[test]
fn book_writes_links_once_and_strikes_removed_ones() {
    let mut b = RouteBook::new();
    b.record(&create("firefox", "usb"));
    b.record(&create("spotify", "usb"));
    b.record(&create("firefox", "usb"));
    b.record(&create("firefox", "hdmi"));
    assert_eq!(pairs(&b), vec![("firefox", "usb"), ("spotify", "usb"), ("firefox", "hdmi")]);
    assert!(b.holds(&"spotify".to_string(), &"usb".to_string()));
    b.record(&remove("firefox", "usb"));
    assert_eq!(pairs(&b), vec![("spotify", "usb"), ("firefox", "hdmi")]);
    assert!(!b.holds(&"firefox".to_string(), &"usb".to_string()));
    // Commands that make no link leave the book alone.
    b.record(&EngineCommand::UnloadModule { module_id: 3 });
    b.record(&EngineCommand::RestoreLinks { pairs: vec![("x".to_string(), "y".to_string())] });
    assert_eq!(pairs(&b), vec![("spotify", "usb"), ("firefox", "hdmi")]);
}

#[test]
fn link_made_then_removed_leaves_the_book_as_it_was() {
    let mut b = RouteBook::new();
    b.record(&create("a", "x"));
    b.record(&create("b", "y"));
    b.record(&remove("b", "y"));
    assert_eq!(pairs(&b), vec![("a", "x")]);
}

#[test]
fn returning_device_gets_its_links_back() {
    let mut b = RouteBook::new();
    b.record(&create("firefox", "usb"));
    b.record(&create("mpv", "hdmi"));
    b.record(&create("spotify", "usb"));
    match b.restore_for(&device("usb", NodeType::OutputDevice)) {
        Some(EngineCommand::RestoreLinks { pairs }) => assert_eq!(
            pairs,
            vec![("firefox".to_string(), "usb".to_string()), ("spotify".to_string(), "usb".to_string())]
        ),
        other => panic!("expected RestoreLinks, got {other:?}"),
    }
    // A device nobody linked to, or a node that is not an output device, gets nothing.
    assert!(b.restore_for(&device("bluetooth", NodeType::OutputDevice)).is_none());
    assert!(b.restore_for(&device("usb", NodeType::InputDevice)).is_none());
    // A removed link is not made again.
    b.record(&remove("firefox", "usb"));
    b.record(&remove("spotify", "usb"));
    assert!(b.restore_for(&device("usb", NodeType::OutputDevice)).is_none());
}

#[test]
fn exit_takes_every_link_away() {
    let mut b = RouteBook::new();
    assert!(b.unlink_runs().is_empty());
    b.record(&create("firefox", "usb"));
    b.record(&create("mpv", "hdmi"));
    assert_eq!(
        b.unlink_runs(),
        vec![vec!["pw-link", "-d", "firefox", "usb"], vec!["pw-link", "-d", "mpv", "hdmi"]]
    );
}

#[test]
fn sink_port_switch_runs_pactl() {
    let p = plan_command(EngineCommand::SetSinkPort {
        sink_name: "alsa_output.pci".to_string(),
        port_name: "analog-output-headphones".to_string(),
    });
    assert_eq!(p.runs, vec![vec!["pactl", "set-sink-port", "alsa_output.pci", "analog-output-headphones"]]);
    assert!(p.links.is_empty());
    assert!(p.echo.is_none());
}

#[test]
fn routing_to_a_port_switches_the_sink_first() {
    let g = kernelpilot::models::AppGroup {
        name: "Discord".to_string(),
        node_name: "WEBRTC VoiceEngine".to_string(),
        playback_id: Some(1),
        capture_id: None,
        volume: 1000,
        muted: false,
        icon: kernelpilot::models::AppIcon::Speaker,
    };
    let r = target_route_commands(
        &g,
        OutputTarget::Port { sink_name: "alsa_output.pci".to_string(), port_name: "analog-output-headphones".to_string() },
    );
    assert_eq!(r.len(), 2);
    match &r[0] {
        EngineCommand::SetSinkPort { sink_name, port_name } => {
            assert_eq!((sink_name.as_str(), port_name.as_str()), ("alsa_output.pci", "analog-output-headphones"))
        }
        other => panic!("expected SetSinkPort, got {other:?}"),
    }
    match &r[1] {
        EngineCommand::CreateLink { from_name, to_name } => {
            assert_eq!((from_name.as_str(), to_name.as_str()), ("WEBRTC VoiceEngine", "alsa_output.pci"))
        }
        other => panic!("expected CreateLink, got {other:?}"),
    }
    let r = target_route_commands(&g, OutputTarget::Sink { sink_name: "hdmi".to_string() });
    assert_eq!(r.len(), 1);
    assert!(matches!(&r[0], EngineCommand::CreateLink { to_name, .. } if to_name == "hdmi"));
}
