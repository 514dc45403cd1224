//! What the engine runs for each command: the `pactl`, `pw-cli` and
//! `pw-link` invocations, the node pairs to link port by port, and the event that
//! reports the change back to the mixer.

use vstd::prelude::*;
use crate::models::{EngineCommand, EngineEvent};
use crate::text::{decimal, digit_char, push_decimal, push_str, string_of};

verus! {

/// `volume` (thousandths) written with three decimals, as `{:.3}` writes
/// the matching fraction: 500 is "0.500", 1000 is "1.000".
pub open spec fn volume_text(volume: u32) -> Seq<char> {
    let r = (volume % 1000) as int;
    decimal((volume / 1000) as nat) + seq!['.', digit_char(r / 100), digit_char((r / 10) % 10), digit_char(r % 10)]
}

fn push_digit(out: &mut Vec<char>, d: u32)
    requires
        d < 10,
    ensures
        final(out)@ == old(out)@.push(digit_char(d as int)),
{
    let b: u8 = (0x30 + d) as u8;
    out.push(b as char);
}

fn push_volume(out: &mut Vec<char>, volume: u32)
    ensures
        final(out)@ == old(out)@ + volume_text(volume),
{
    let ghost o = out@;
    push_decimal(out, volume / 1000);
    let r = volume % 1000;
    out.push('.');
    push_digit(out, r / 100);
    push_digit(out, (r / 10) % 10);
    push_digit(out, r % 10);
    assert(out@ =~= o + volume_text(volume));
}

/// `volume` formatted with three decimals.
pub fn format_volume(volume: u32) -> (s: String)
    ensures
        s@ == volume_text(volume),
{
    let mut v: Vec<char> = Vec::new();
    push_volume(&mut v, volume);
    assert(v@ =~= volume_text(volume));
    string_of(&v)
}

/// The text form of a `Vec<String>` argument list.
pub open spec fn args_view(v: Seq<String>) -> Seq<Seq<char>> {
    v.map_values(|s: String| s@)
}

/// The text form of a list of invocations.
pub open spec fn runs_view(v: Seq<Vec<String>>) -> Seq<Seq<Seq<char>>> {
    v.map_values(|r: Vec<String>| args_view(r@))
}

/// The text form of a list of node-name pairs.
pub open spec fn pairs_view(v: Seq<(String, String)>) -> Seq<(Seq<char>, Seq<char>)> {
    v.map_values(|p: (String, String)| (p.0@, p.1@))
}

pub open spec fn set_volume_run(node_id: u32, volume: u32) -> Seq<Seq<char>> {
    seq![
        "pw-cli"@,
        "set-param"@,
        decimal(node_id as nat),
        "Props"@,
        "{ channelVolumes: [ "@ + volume_text(volume) + " ] }"@,
    ]
}

pub open spec fn set_mute_run(node_id: u32, muted: bool) -> Seq<Seq<char>> {
    seq![
        "pw-cli"@,
        "set-param"@,
        decimal(node_id as nat),
        "Props"@,
        "{ mute: "@ + (if muted { "true"@ } else { "false"@ }) + " }"@,
    ]
}

/// Whether a volume or mute command targets a stream by its pulse index:
/// a stream that has one; anything else is targeted by node name.
pub open spec fn targets_stream(pulse_id: Option<u32>, is_stream: bool) -> bool {
    is_stream && pulse_id is Some
}

/// The `pactl` invocations for a volume or mute command. A stream is
/// addressed by its pulse index, a device by its node name. The command
/// does not say whether a stream plays or records, nor whether a device is
/// a sink or a source, so both `pactl` forms are run; the index or name
/// exists in only one of the two kinds, and only that one takes effect.
pub open spec fn pactl_runs(
    pulse_id: Option<u32>,
    node_name: Seq<char>,
    is_stream: bool,
    stream_verbs: (Seq<char>, Seq<char>),
    device_verbs: (Seq<char>, Seq<char>),
    value: Seq<char>,
) -> Seq<Seq<Seq<char>>> {
    if targets_stream(pulse_id, is_stream) {
        let p = decimal(pulse_id->0 as nat);
        seq![seq!["pactl"@, stream_verbs.0, p, value], seq!["pactl"@, stream_verbs.1, p, value]]
    } else {
        seq![seq!["pactl"@, device_verbs.0, node_name, value], seq!["pactl"@, device_verbs.1, node_name, value]]
    }
}

/// What a volume command runs.
pub open spec fn volume_runs(pulse_id: Option<u32>, node_name: Seq<char>, is_stream: bool, volume: u32) -> Seq<
    Seq<Seq<char>>,
> {
    pactl_runs(
        pulse_id,
        node_name,
        is_stream,
        ("set-sink-input-volume"@, "set-source-output-volume"@),
        ("set-sink-volume"@, "set-source-volume"@),
        volume_text(volume),
    )
}

/// What a mute command runs (`1` mutes, `0` unmutes).
pub open spec fn mute_runs(pulse_id: Option<u32>, node_name: Seq<char>, is_stream: bool, muted: bool) -> Seq<
    Seq<Seq<char>>,
> {
    pactl_runs(
        pulse_id,
        node_name,
        is_stream,
        ("set-sink-input-mute"@, "set-source-output-mute"@),
        ("set-sink-mute"@, "set-source-mute"@),
        if muted { "1"@ } else { "0"@ },
    )
}

pub open spec fn unlink_run(from_name: Seq<char>, to_name: Seq<char>) -> Seq<Seq<char>> {
    seq!["pw-link"@, "-d"@, from_name, to_name]
}

pub open spec fn sink_port_run(sink_name: Seq<char>, port_name: Seq<char>) -> Seq<Seq<char>> {
    seq!["pactl"@, "set-sink-port"@, sink_name, port_name]
}

pub open spec fn load_null_sink_run(name: Seq<char>) -> Seq<Seq<char>> {
    seq![
        "pw-cli"@,
        "load-module"@,
        "module-null-sink"@,
        "sink_name="@ + name,
        "sink_properties=device.description="@ + name,
    ]
}

pub open spec fn destroy_run(id: u32) -> Seq<Seq<char>> {
    seq!["pw-cli"@, "destroy"@, decimal(id as nat)]
}

pub open spec fn create_link_run(from_node: u32, to_node: u32, out_port: u32, in_port: u32) -> Seq<Seq<char>> {
    seq![
        "pw-cli"@,
        "create-link"@,
        decimal(from_node as nat),
        decimal(to_node as nat),
        decimal(out_port as nat),
        decimal(in_port as nat),
    ]
}

/// `pw-link -d <from> <to>`: takes away the links between two nodes.
pub fn unlink_args(from_name: &String, to_name: &String) -> (r: Vec<String>)
    ensures
        args_view(r@) == unlink_run(from_name@, to_name@),
{
    let mut args: Vec<String> = Vec::new();
    args.push(text("pw-link"));
    args.push(text("-d"));
    args.push(from_name.clone());
    args.push(to_name.clone());
    assert(args_view(args@) =~= unlink_run(from_name@, to_name@));
    args
}

/// What the engine does for one command.
#[derive(Debug)]
pub struct CommandPlan {
    /// Programs to run, each as its name followed by its arguments.
    pub runs: Vec<Vec<String>>,
    /// (from node name, to node name) pairs to link port by port.
    pub links: Vec<(String, String)>,
    /// The event that reports the change to the mixer.
    pub echo: Option<EngineEvent>,
}

fn number_text(n: u32) -> (s: String)
    ensures
        s@ == decimal(n as nat),
{
    let mut v: Vec<char> = Vec::new();
    push_decimal(&mut v, n);
    assert(v@ =~= decimal(n as nat));
    string_of(&v)
}

fn text(lit: &str) -> (s: String)
    ensures
        s@ == lit@,
{
    let mut v: Vec<char> = Vec::new();
    push_str(&mut v, lit);
    assert(v@ =~= lit@);
    string_of(&v)
}

fn joined(a: &str, b: &Vec<char>, c: &str) -> (s: String)
    ensures
        s@ == a@ + b@ + c@,
{
    let mut v: Vec<char> = Vec::new();
    push_str(&mut v, a);
    let mut i: usize = 0;
    let ghost o = v@;
    while i < b.len()
        invariant
            i <= b.len(),
            v@ == o + b@.take(i as int),
        decreases b.len() - i,
    {
        v.push(b[i]);
        assert(b@.take(i + 1) == b@.take(i as int).push(b@[i as int]));
        i = i + 1;
    }
    assert(b@.take(b.len() as int) == b@);
    let ghost o2 = v@;
    push_str(&mut v, c);
    assert(v@ =~= a@ + b@ + c@);
    string_of(&v)
}

fn chars_of_string(s: &String) -> (v: Vec<char>)
    ensures
        v@ == s@,
{
    crate::text::chars_of(s.as_str())
}

/// `pw-cli set-param <id> Props '{ channelVolumes: [ <volume> ] }'`.
pub fn set_volume_args(node_id: u32, volume: u32) -> (r: Vec<String>)
    ensures
        args_view(r@) == set_volume_run(node_id, volume),
{
    let mut v: Vec<char> = Vec::new();
    push_volume(&mut v, volume);
    let mut r: Vec<String> = Vec::new();
    r.push(text("pw-cli"));
    r.push(text("set-param"));
    r.push(number_text(node_id));
    r.push(text("Props"));
    r.push(joined("{ channelVolumes: [ ", &v, " ] }"));
    assert(args_view(r@) =~= set_volume_run(node_id, volume));
    r
}

/// `pw-cli set-param <id> Props '{ mute: <muted> }'`.
pub fn set_mute_args(node_id: u32, muted: bool) -> (r: Vec<String>)
    ensures
        args_view(r@) == set_mute_run(node_id, muted),
{
    let word: Vec<char> = if muted {
        crate::text::chars_of("true")
    } else {
        crate::text::chars_of("false")
    };
    let mut r: Vec<String> = Vec::new();
    r.push(text("pw-cli"));
    r.push(text("set-param"));
    r.push(number_text(node_id));
    r.push(text("Props"));
    r.push(joined("{ mute: ", &word, " }"));
    assert(args_view(r@) =~= set_mute_run(node_id, muted));
    r
}

/// `pw-cli create-link <from> <to> <out port> <in port>`.
pub fn create_link_args(from_node: u32, to_node: u32, out_port: u32, in_port: u32) -> (r: Vec<String>)
    ensures
        args_view(r@) == create_link_run(from_node, to_node, out_port, in_port),
{
    let mut r: Vec<String> = Vec::new();
    r.push(text("pw-cli"));
    r.push(text("create-link"));
    r.push(number_text(from_node));
    r.push(number_text(to_node));
    r.push(number_text(out_port));
    r.push(number_text(in_port));
    assert(args_view(r@) =~= create_link_run(from_node, to_node, out_port, in_port));
    r
}

fn pactl_run(verb: &str, target: &String, value: &String) -> (r: Vec<String>)
    ensures
        args_view(r@) == seq!["pactl"@, verb@, target@, value@],
{
    let mut r: Vec<String> = Vec::new();
    r.push(text("pactl"));
    r.push(text(verb));
    r.push(target.clone());
    r.push(value.clone());
    assert(args_view(r@) =~= seq!["pactl"@, verb@, target@, value@]);
    r
}

fn pactl_pair(
    pulse_id: Option<u32>,
    node_name: &String,
    is_stream: bool,
    stream_verbs: (&str, &str),
    device_verbs: (&str, &str),
    value: &String,
) -> (r: Vec<Vec<String>>)
    ensures
        runs_view(r@) == pactl_runs(
            pulse_id,
            node_name@,
            is_stream,
            (stream_verbs.0@, stream_verbs.1@),
            (device_verbs.0@, device_verbs.1@),
            value@,
        ),
{
    let mut r: Vec<Vec<String>> = Vec::new();
    if is_stream && pulse_id.is_some() {
        let p = number_text(pulse_id.unwrap());
        r.push(pactl_run(stream_verbs.0, &p, value));
        r.push(pactl_run(stream_verbs.1, &p, value));
    } else {
        r.push(pactl_run(device_verbs.0, node_name, value));
        r.push(pactl_run(device_verbs.1, node_name, value));
    }
    assert(runs_view(r@) =~= pactl_runs(
        pulse_id,
        node_name@,
        is_stream,
        (stream_verbs.0@, stream_verbs.1@),
        (device_verbs.0@, device_verbs.1@),
        value@,
    ));
    r
}

/// What the engine runs for a command, which node pairs it links, and the
/// event it reports back. Volume and mute go through `pactl` to the stream
/// or device the command names (see `pactl_runs`); the change is reported
/// back as an event once the runs are done.
pub fn plan_command(cmd: EngineCommand) -> (p: CommandPlan)
    ensures
        match cmd {
            EngineCommand::SetVolume { node_id, volume, pulse_id, node_name, is_stream } => {
                &&& runs_view(p.runs@) == volume_runs(pulse_id, node_name@, is_stream, volume)
                &&& p.links@.len() == 0
                &&& p.echo == Some(EngineEvent::VolumeChanged { node_id, volume })
            },
            EngineCommand::SetMute { node_id, muted, pulse_id, node_name, is_stream } => {
                &&& runs_view(p.runs@) == mute_runs(pulse_id, node_name@, is_stream, muted)
                &&& p.links@.len() == 0
                &&& p.echo == Some(EngineEvent::MuteChanged { node_id, muted })
            },
            EngineCommand::CreateLink { from_name, to_name } => {
                &&& p.runs@.len() == 0
                &&& pairs_view(p.links@) == seq![(from_name@, to_name@)]
                &&& p.echo is None
            },
            EngineCommand::RemoveLink { from_name, to_name } => {
                &&& runs_view(p.runs@) == seq![unlink_run(from_name@, to_name@)]
                &&& p.links@.len() == 0
                &&& p.echo is None
            },
            EngineCommand::SetSinkPort { sink_name, port_name } => {
                &&& runs_view(p.runs@) == seq![sink_port_run(sink_name@, port_name@)]
                &&& p.links@.len() == 0
                &&& p.echo is None
            },
            EngineCommand::RestoreLinks { pairs } => {
                &&& p.runs@.len() == 0
                &&& pairs_view(p.links@) == pairs_view(pairs@)
                &&& p.echo is None
            },
            EngineCommand::LoadNullSink { name } => {
                &&& runs_view(p.runs@) == seq![load_null_sink_run(name@)]
                &&& p.links@.len() == 0
                &&& p.echo is None
            },
            EngineCommand::UnloadModule { module_id } => {
                &&& runs_view(p.runs@) == seq![destroy_run(module_id)]
                &&& p.links@.len() == 0
                &&& p.echo is None
            },
        },
{
    match cmd {
        EngineCommand::SetVolume { node_id, volume, pulse_id, node_name, is_stream } => {
            let value = format_volume(volume);
            let runs = pactl_pair(
                pulse_id,
                &node_name,
                is_stream,
                ("set-sink-input-volume", "set-source-output-volume"),
                ("set-sink-volume", "set-source-volume"),
                &value,
            );
            assert(runs_view(runs@) =~= volume_runs(pulse_id, node_name@, is_stream, volume));
            CommandPlan { runs, links: Vec::new(), echo: Some(EngineEvent::VolumeChanged { node_id, volume }) }
        },
        EngineCommand::SetMute { node_id, muted, pulse_id, node_name, is_stream } => {
            let value = if muted {
                text("1")
            } else {
                text("0")
            };
            let runs = pactl_pair(
                pulse_id,
                &node_name,
                is_stream,
                ("set-sink-input-mute", "set-source-output-mute"),
                ("set-sink-mute", "set-source-mute"),
                &value,
            );
            assert(runs_view(runs@) =~= mute_runs(pulse_id, node_name@, is_stream, muted));
            CommandPlan { runs, links: Vec::new(), echo: Some(EngineEvent::MuteChanged { node_id, muted }) }
        },
        EngineCommand::CreateLink { from_name, to_name } => {
            let mut links: Vec<(String, String)> = Vec::new();
            let ghost f = from_name@;
            let ghost t = to_name@;
            links.push((from_name, to_name));
            assert(pairs_view(links@) =~= seq![(f, t)]);
            CommandPlan { runs: Vec::new(), links, echo: None }
        },
        EngineCommand::RemoveLink { from_name, to_name } => {
            let mut runs: Vec<Vec<String>> = Vec::new();
            runs.push(unlink_args(&from_name, &to_name));
            assert(runs_view(runs@) =~= seq![unlink_run(from_name@, to_name@)]);
            CommandPlan { runs, links: Vec::new(), echo: None }
        },
        EngineCommand::SetSinkPort { sink_name, port_name } => {
            let ghost sn = sink_name@;
            let ghost pn = port_name@;
            let mut args: Vec<String> = Vec::new();
            args.push(text("pactl"));
            args.push(text("set-sink-port"));
            args.push(sink_name);
            args.push(port_name);
            let mut runs: Vec<Vec<String>> = Vec::new();
            runs.push(args);
            assert(args_view(runs@[0]@) =~= sink_port_run(sn, pn));
            assert(runs_view(runs@) =~= seq![sink_port_run(sn, pn)]);
            CommandPlan { runs, links: Vec::new(), echo: None }
        },
        EngineCommand::RestoreLinks { pairs } => {
            CommandPlan { runs: Vec::new(), links: pairs, echo: None }
        },
        EngineCommand::LoadNullSink { name } => {
            let n = chars_of_string(&name);
            let mut args: Vec<String> = Vec::new();
            args.push(text("pw-cli"));
            args.push(text("load-module"));
            args.push(text("module-null-sink"));
            args.push(joined("sink_name=", &n, ""));
            args.push(joined("sink_properties=device.description=", &n, ""));
            proof {
                reveal_strlit("");
            }
            assert(args_view(args@) =~= load_null_sink_run(name@));
            let mut runs: Vec<Vec<String>> = Vec::new();
            runs.push(args);
            assert(runs_view(runs@) =~= seq![load_null_sink_run(name@)]);
            CommandPlan { runs, links: Vec::new(), echo: None }
        },
        EngineCommand::UnloadModule { module_id } => {
            let mut args: Vec<String> = Vec::new();
            args.push(text("pw-cli"));
            args.push(text("destroy"));
            args.push(number_text(module_id));
            assert(args_view(args@) =~= destroy_run(module_id));
            let mut runs: Vec<Vec<String>> = Vec::new();
            runs.push(args);
            assert(runs_view(runs@) =~= seq![destroy_run(module_id)]);
            CommandPlan { runs, links: Vec::new(), echo: None }
        },
    }
}

/// On start-up each application stream is unmuted and set to full volume,
/// in that order.
pub fn reset_runs(ids: &Vec<u32>) -> (r: Vec<Vec<String>>)
    ensures
        runs_view(r@).len() == 2 * ids@.len(),
        forall|i: int|
            0 <= i < ids@.len() ==> runs_view(r@)[2 * i] == set_mute_run(#[trigger] ids@[i], false)
                && runs_view(r@)[2 * i + 1] == set_volume_run(ids@[i], 1000),
{
    let mut r: Vec<Vec<String>> = Vec::new();
    let mut i: usize = 0;
    while i < ids.len()
        invariant
            i <= ids@.len(),
            r@.len() == 2 * i,
            forall|x: int|
                0 <= x < i ==> runs_view(r@)[2 * x] == set_mute_run(#[trigger] ids@[x], false)
                    && runs_view(r@)[2 * x + 1] == set_volume_run(ids@[x], 1000),
        decreases ids.len() - i,
    {
        let ghost before = r@;
        r.push(set_mute_args(ids[i], false));
        r.push(set_volume_args(ids[i], 1000));
        assert forall|x: int| 0 <= x < i + 1 implies runs_view(r@)[2 * x] == set_mute_run(#[trigger] ids@[x], false)
            && runs_view(r@)[2 * x + 1] == set_volume_run(ids@[x], 1000) by {
            if x < i {
                assert(r@[2 * x] == before[2 * x]);
                assert(r@[2 * x + 1] == before[2 * x + 1]);
            }
        }
        i = i + 1;
    }
    r
}

} // verus!
