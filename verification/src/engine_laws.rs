//! Properties of what the mixer sends to PipeWire and of how it reads
//! PipeWire's reports back, each stated over the inputs and results of the
//! functions it speaks of.

use vstd::prelude::*;
use crate::commands::{create_link_run, mute_runs, volume_runs, volume_text};
use crate::controls::{mute_command, step_command};
use crate::laws::lemma_decimal_reads_back;
use crate::listing::{is_stream_class, listed_streams, quoted_value, streams_pass, streams_step};
use crate::models::{after_event, AudioNode, EngineEvent, MixerView};
use crate::text::{decimal, lines_of, parse_u32_spec, trim_end_char, trim_start, word_at};

verus! {

/// A mute report about a known node sets its flag to the reported value,
/// whatever the flag was before, and changes nothing else; a second
/// identical report changes nothing more.
pub proof fn lemma_mute_report_sets_flag(s: MixerView, node_id: u32, muted: bool)
    requires
        s.nodes.contains_key(node_id),
    ensures
        ({
            let t = after_event(s, EngineEvent::MuteChanged { node_id, muted });
            &&& t.nodes.contains_key(node_id)
            &&& t.nodes[node_id].muted == muted
            &&& t.nodes[node_id].id == s.nodes[node_id].id
            &&& t.nodes[node_id].name == s.nodes[node_id].name
            &&& t.nodes[node_id].description == s.nodes[node_id].description
            &&& t.nodes[node_id].node_type == s.nodes[node_id].node_type
            &&& t.nodes[node_id].volume == s.nodes[node_id].volume
            &&& t.nodes[node_id].pulse_id == s.nodes[node_id].pulse_id
            &&& t.nodes.dom() == s.nodes.dom()
            &&& forall|k: u32| k != node_id && #[trigger] s.nodes.contains_key(k) ==> t.nodes[k] == s.nodes[k]
            &&& t.ports == s.ports && t.links == s.links && t.node_ports == s.node_ports
            &&& after_event(t, EngineEvent::MuteChanged { node_id, muted }) == t
        }),
{
    let t = after_event(s, EngineEvent::MuteChanged { node_id, muted });
    assert(t.nodes.dom() =~= s.nodes.dom());
    let u = after_event(t, EngineEvent::MuteChanged { node_id, muted });
    assert(u.nodes =~= t.nodes);
}

/// The mute button of a known node asks for the opposite of its flag and
/// addresses the node exactly as its volume buttons do: same node id, pulse
/// id (the node's own), node name and stream flag.
pub proof fn lemma_mute_command_targets_node(
    nodes: Map<u32, AudioNode>,
    node_id: u32,
    node_name: String,
    is_stream: bool,
    up: bool,
)
    requires
        nodes.contains_key(node_id),
    ensures
        ({
            let m = mute_command(nodes, node_id, node_name, is_stream);
            let v = step_command(nodes, node_id, node_name, is_stream, up);
            &&& m is SetMute
            &&& m->SetMute_node_id == node_id
            &&& m->SetMute_muted == !nodes[node_id].muted
            &&& m->SetMute_pulse_id == nodes[node_id].pulse_id
            &&& m->SetMute_node_name == node_name
            &&& m->SetMute_is_stream == is_stream
            &&& v is SetVolume
            &&& v->SetVolume_pulse_id == m->SetMute_pulse_id
            &&& v->SetVolume_node_id == m->SetMute_node_id
            &&& v->SetVolume_node_name == m->SetMute_node_name
            &&& v->SetVolume_is_stream == m->SetMute_is_stream
        }),
{
}

/// A volume or mute command for a device (`is_stream == false`) reaches the
/// device by its node name, whatever pulse id it carries; a stream with a
/// pulse id is reached by that id. Volume and mute always pick the same
/// target.
pub proof fn lemma_volume_and_mute_targets(
    pulse_id: Option<u32>,
    node_name: Seq<char>,
    is_stream: bool,
    volume: u32,
    muted: bool,
)
    ensures
        ({
            let m = mute_runs(pulse_id, node_name, false, muted);
            let flag = if muted { "1"@ } else { "0"@ };
            m == seq![
                seq!["pactl"@, "set-sink-mute"@, node_name, flag],
                seq!["pactl"@, "set-source-mute"@, node_name, flag],
            ]
        }),
        volume_runs(pulse_id, node_name, false, volume) == seq![
            seq!["pactl"@, "set-sink-volume"@, node_name, volume_text(volume)],
            seq!["pactl"@, "set-source-volume"@, node_name, volume_text(volume)],
        ],
        pulse_id matches Some(p) ==> {
            let flag = if muted { "1"@ } else { "0"@ };
            mute_runs(pulse_id, node_name, true, muted) == seq![
                seq!["pactl"@, "set-sink-input-mute"@, decimal(p as nat), flag],
                seq!["pactl"@, "set-source-output-mute"@, decimal(p as nat), flag],
            ]
        },
        pulse_id is None ==> mute_runs(pulse_id, node_name, true, muted) == mute_runs(
            pulse_id,
            node_name,
            false,
            muted,
        ),
        mute_runs(pulse_id, node_name, is_stream, muted).len() == 2,
        volume_runs(pulse_id, node_name, is_stream, volume).len() == 2,
        forall|k: int|
            0 <= k < 2 ==> (#[trigger] mute_runs(pulse_id, node_name, is_stream, muted)[k])[2] == volume_runs(
                pulse_id,
                node_name,
                is_stream,
                volume,
            )[k][2],
{
}

/// A `create-link` invocation names, in this order, the output node, the
/// input node, the output port and the input port, each readable back as
/// the number it was made from.
pub proof fn lemma_create_link_order(from_node: u32, to_node: u32, out_port: u32, in_port: u32)
    ensures
        ({
            let r = create_link_run(from_node, to_node, out_port, in_port);
            &&& r.len() == 6
            &&& r[0] == "pw-cli"@
            &&& r[1] == "create-link"@
            &&& parse_u32_spec(r[2]) == Some(from_node)
            &&& parse_u32_spec(r[3]) == Some(to_node)
            &&& parse_u32_spec(r[4]) == Some(out_port)
            &&& parse_u32_spec(r[5]) == Some(in_port)
        }),
{
    lemma_decimal_reads_back(from_node);
    lemma_decimal_reads_back(to_node);
    lemma_decimal_reads_back(out_port);
    lemma_decimal_reads_back(in_port);
}

/// The id a line of `pw-cli ls Node` opens a node block with: `Some(..)`
/// for a line `id <n>, ...` (inside, `None` when the number does not read).
pub open spec fn opened_id(line: Seq<char>) -> Option<Option<u32>> {
    let t = trim_start(line);
    if "id "@.is_prefix_of(t) && word_at(t, 1) is Some {
        Some(parse_u32_spec(trim_end_char(word_at(t, 1)->0, ',')))
    } else {
        None
    }
}

/// The media class a `media.class = "..."` line gives its block.
pub open spec fn class_set(line: Seq<char>) -> Option<Seq<char>> {
    let t = trim_start(line);
    if !"id "@.is_prefix_of(t) && "media.class = "@.is_prefix_of(t) {
        quoted_value(t)
    } else {
        None
    }
}

/// The line is a `node.name = ...` line.
pub open spec fn names_node(line: Seq<char>) -> bool {
    let t = trim_start(line);
    !"id "@.is_prefix_of(t) && !"media.class = "@.is_prefix_of(t) && "node.name = "@.is_prefix_of(t)
}

/// Line `n` is the `node.name` line of a block opened with id `x` (line
/// `h`), and the media class last set inside that block before line `n`
/// (line `c`) is a stream class.
pub open spec fn stream_named_at(ls: Seq<Seq<char>>, n: int, x: u32) -> bool {
    &&& 0 <= n < ls.len()
    &&& names_node(ls[n])
    &&& exists|h: int, c: int|
        #![trigger opened_id(ls[h]), class_set(ls[c])]
        0 <= h < c < n && opened_id(ls[h]) == Some(Some(x)) && (forall|j: int|
            h < j < n ==> opened_id(#[trigger] ls[j]) is None) && class_set(ls[c]) is Some
            && is_stream_class(class_set(ls[c])->0) && (forall|j: int|
            c < j < n ==> class_set(#[trigger] ls[j]) is None)
}

/// Line `h` opens the last block of `ls`.
pub open spec fn last_open(ls: Seq<Seq<char>>, h: int) -> bool {
    &&& 0 <= h < ls.len()
    &&& opened_id(ls[h]) is Some
    &&& forall|j: int| h < j < ls.len() ==> opened_id(#[trigger] ls[j]) is None
}

/// Line `c` sets the media class of the last block of `ls`, and no later
/// line sets another.
pub open spec fn last_class(ls: Seq<Seq<char>>, c: int) -> bool {
    &&& 0 <= c < ls.len()
    &&& class_set(ls[c]) is Some
    &&& forall|j: int| c < j < ls.len() ==> class_set(#[trigger] ls[j]) is None && opened_id(ls[j]) is None
}

/// What the current id of a reader of `ls` must be.
pub open spec fn open_facts(ls: Seq<Seq<char>>, cur: Option<u32>) -> bool {
    &&& cur is Some ==> exists|h: int| #[trigger] last_open(ls, h) && opened_id(ls[h]) == Some(cur)
    &&& forall|h: int| #[trigger] last_open(ls, h) ==> cur == opened_id(ls[h])->0
}

/// What the current media class of a reader of `ls` must be.
pub open spec fn class_facts(ls: Seq<Seq<char>>, cls: Seq<char>) -> bool {
    &&& is_stream_class(cls) ==> exists|c: int| #[trigger] last_class(ls, c) && class_set(ls[c]) == Some(cls)
    &&& forall|c: int| #[trigger] last_class(ls, c) ==> cls == class_set(ls[c])->0
}

/// Some block of `ls` with id `x` is a stream block (see `stream_named_at`).
pub open spec fn has_stream_block(ls: Seq<Seq<char>>, x: u32) -> bool {
    exists|n: int| #[trigger] stream_named_at(ls, n, x)
}

/// Every id found names a stream block of `ls`.
pub open spec fn found_sound(ls: Seq<Seq<char>>, found: Seq<u32>) -> bool {
    forall|a: int| 0 <= a < found.len() ==> has_stream_block(ls, #[trigger] found[a])
}

/// Every stream block of `ls` has its id found.
pub open spec fn found_complete(ls: Seq<Seq<char>>, found: Seq<u32>) -> bool {
    forall|n: int, x: u32| #[trigger] stream_named_at(ls, n, x) ==> found.contains(x)
}

/// What the state after reading the lines `ls` says about them.
pub open spec fn pass_facts(ls: Seq<Seq<char>>, st: (Option<u32>, Seq<char>, Seq<u32>)) -> bool {
    &&& open_facts(ls, st.0)
    &&& class_facts(ls, st.1)
    &&& found_sound(ls, st.2)
    &&& found_complete(ls, st.2)
}

proof fn lemma_empty_class_is_no_stream()
    ensures
        !is_stream_class(Seq::<char>::empty()),
{
    reveal_strlit("Stream/Output/Audio");
    reveal_strlit("Stream/Input/Audio");
    assert("Stream/Output/Audio"@.len() == 19);
    assert("Stream/Input/Audio"@.len() == 18);
}

proof fn lemma_named_prefix(ls: Seq<Seq<char>>, l: Seq<char>, n: int, x: u32)
    requires
        0 <= n < ls.len(),
    ensures
        stream_named_at(ls.push(l), n, x) <==> stream_named_at(ls, n, x),
{
    let lp = ls.push(l);
    assert(forall|j: int| 0 <= j < ls.len() ==> lp[j] == ls[j]);
    if stream_named_at(lp, n, x) {
        let (h, c) = choose|h: int, c: int|
            #![trigger opened_id(lp[h]), class_set(lp[c])]
            0 <= h < c < n && opened_id(lp[h]) == Some(Some(x)) && (forall|j: int|
                h < j < n ==> opened_id(#[trigger] lp[j]) is None) && class_set(lp[c]) is Some
                && is_stream_class(class_set(lp[c])->0) && (forall|j: int|
                c < j < n ==> class_set(#[trigger] lp[j]) is None);
        assert(opened_id(ls[h]) == Some(Some(x)));
        assert(class_set(ls[c]) == class_set(lp[c]));
        assert forall|j: int| h < j < n implies opened_id(#[trigger] ls[j]) is None by {
            assert(lp[j] == ls[j]);
        }
        assert forall|j: int| c < j < n implies class_set(#[trigger] ls[j]) is None by {
            assert(lp[j] == ls[j]);
        }
    }
    if stream_named_at(ls, n, x) {
        let (h, c) = choose|h: int, c: int|
            #![trigger opened_id(ls[h]), class_set(ls[c])]
            0 <= h < c < n && opened_id(ls[h]) == Some(Some(x)) && (forall|j: int|
                h < j < n ==> opened_id(#[trigger] ls[j]) is None) && class_set(ls[c]) is Some
                && is_stream_class(class_set(ls[c])->0) && (forall|j: int|
                c < j < n ==> class_set(#[trigger] ls[j]) is None);
        assert(opened_id(lp[h]) == Some(Some(x)));
        assert(class_set(lp[c]) == class_set(ls[c]));
        assert forall|j: int| h < j < n implies opened_id(#[trigger] lp[j]) is None by {
            assert(lp[j] == ls[j]);
        }
        assert forall|j: int| c < j < n implies class_set(#[trigger] lp[j]) is None by {
            assert(lp[j] == ls[j]);
        }
    }
}

proof fn lemma_open_kept(pre: Seq<Seq<char>>, l: Seq<char>, cur: Option<u32>)
    requires
        opened_id(l) is None,
        open_facts(pre, cur),
    ensures
        open_facts(pre.push(l), cur),
{
    let ls = pre.push(l);
    let k = pre.len() as int;
    if cur is Some {
        let h = choose|h: int| #[trigger] last_open(pre, h) && opened_id(pre[h]) == Some(cur);
        assert(ls[h] == pre[h]);
        assert forall|j: int| h < j < ls.len() implies opened_id(#[trigger] ls[j]) is None by {
            if j < k {
                assert(ls[j] == pre[j]);
            }
        }
        assert(last_open(ls, h));
    }
    assert forall|h: int| #[trigger] last_open(ls, h) implies cur == opened_id(ls[h])->0 by {
        assert(h != k);
        assert(ls[h] == pre[h]);
        assert forall|j: int| h < j < pre.len() implies opened_id(#[trigger] pre[j]) is None by {
            assert(ls[j] == pre[j]);
        }
        assert(last_open(pre, h));
    }
}

proof fn lemma_class_kept(pre: Seq<Seq<char>>, l: Seq<char>, cls: Seq<char>)
    requires
        opened_id(l) is None,
        class_set(l) is None,
        class_facts(pre, cls),
    ensures
        class_facts(pre.push(l), cls),
{
    let ls = pre.push(l);
    let k = pre.len() as int;
    if is_stream_class(cls) {
        let c = choose|c: int| #[trigger] last_class(pre, c) && class_set(pre[c]) == Some(cls);
        assert(ls[c] == pre[c]);
        assert forall|j: int| c < j < ls.len() implies class_set(#[trigger] ls[j]) is None && opened_id(ls[j]) is None by {
            if j < k {
                assert(ls[j] == pre[j]);
            }
        }
        assert(last_class(ls, c));
    }
    assert forall|c: int| #[trigger] last_class(ls, c) implies cls == class_set(ls[c])->0 by {
        assert(c != k);
        assert(ls[c] == pre[c]);
        assert forall|j: int| c < j < pre.len() implies class_set(#[trigger] pre[j]) is None && opened_id(pre[j]) is None by {
            assert(ls[j] == pre[j]);
        }
        assert(last_class(pre, c));
    }
}

proof fn lemma_block_kept(pre: Seq<Seq<char>>, l: Seq<char>, x: u32)
    requires
        has_stream_block(pre, x),
    ensures
        has_stream_block(pre.push(l), x),
{
    let n = choose|n: int| #[trigger] stream_named_at(pre, n, x);
    lemma_named_prefix(pre, l, n, x);
    assert(stream_named_at(pre.push(l), n, x));
}

proof fn lemma_found_sound_kept(pre: Seq<Seq<char>>, l: Seq<char>, found: Seq<u32>)
    requires
        found_sound(pre, found),
    ensures
        found_sound(pre.push(l), found),
{
    assert forall|a: int| 0 <= a < found.len() implies has_stream_block(pre.push(l), #[trigger] found[a]) by {
        lemma_block_kept(pre, l, found[a]);
    }
}

proof fn lemma_found_kept(pre: Seq<Seq<char>>, l: Seq<char>, found: Seq<u32>)
    requires
        !names_node(l),
        found_sound(pre, found),
        found_complete(pre, found),
    ensures
        found_sound(pre.push(l), found),
        found_complete(pre.push(l), found),
{
    let ls = pre.push(l);
    assert forall|a: int| 0 <= a < found.len() implies has_stream_block(ls, #[trigger] found[a]) by {
        lemma_block_kept(pre, l, found[a]);
    }
    assert forall|n: int, x: u32| #[trigger] stream_named_at(ls, n, x) implies found.contains(x) by {
        if n < pre.len() {
            lemma_named_prefix(pre, l, n, x);
        } else {
            assert(ls[n] == l);
        }
    }
}

/// A `node.name` line that ends a stream block finds the reader in that
/// block's id, with a stream class.
proof fn lemma_block_feeds(pre: Seq<Seq<char>>, l: Seq<char>, y: u32, st: (Option<u32>, Seq<char>, Seq<u32>))
    requires
        pass_facts(pre, st),
        stream_named_at(pre.push(l), pre.len() as int, y),
    ensures
        st.0 == Some(y),
        is_stream_class(st.1),
{
    let ls = pre.push(l);
    let n = pre.len() as int;
    let (h, c) = choose|h: int, c: int|
        #![trigger opened_id(ls[h]), class_set(ls[c])]
        0 <= h < c < n && opened_id(ls[h]) == Some(Some(y)) && (forall|j: int|
            h < j < n ==> opened_id(#[trigger] ls[j]) is None) && class_set(ls[c]) is Some
            && is_stream_class(class_set(ls[c])->0) && (forall|j: int|
            c < j < n ==> class_set(#[trigger] ls[j]) is None);
    assert(pre[h] == ls[h]);
    assert(pre[c] == ls[c]);
    assert forall|j: int| h < j < pre.len() implies opened_id(#[trigger] pre[j]) is None by {
        assert(ls[j] == pre[j]);
    }
    assert(last_open(pre, h));
    assert forall|j: int| c < j < pre.len() implies class_set(#[trigger] pre[j]) is None && opened_id(pre[j]) is None by {
        assert(ls[j] == pre[j]);
        assert(opened_id(ls[j]) is None);
    }
    assert(last_class(pre, c));
}

proof fn lemma_pass_facts(ls: Seq<Seq<char>>)
    ensures
        pass_facts(ls, streams_pass(ls)),
    decreases ls.len(),
{
    lemma_empty_class_is_no_stream();
    if ls.len() == 0 {
        assert(streams_pass(ls) == (None::<u32>, Seq::<char>::empty(), Seq::<u32>::empty()));
        return;
    }
    let pre = ls.drop_last();
    let l = ls.last();
    let k = pre.len() as int;
    lemma_pass_facts(pre);
    assert(pre.push(l) =~= ls);
    let st = streams_pass(pre);
    let st2 = streams_step(st, l);
    assert(streams_pass(ls) == st2);
    if opened_id(l) is Some {
        assert(class_set(l) is None);
        assert(!names_node(l));
        assert(st2 == (opened_id(l)->0, Seq::<char>::empty(), st.2));
        assert(!is_stream_class(st2.1));
        assert(ls[k] == l);
        assert(last_open(ls, k));
        assert forall|h: int| #[trigger] last_open(ls, h) implies st2.0 == opened_id(ls[h])->0 by {
            if h < k {
                assert(opened_id(ls[k]) is None);
            }
        }
        assert forall|c: int| #[trigger] last_class(ls, c) implies st2.1 == class_set(ls[c])->0 by {
            if c < k {
                assert(opened_id(ls[k]) is None);
            } else {
                assert(class_set(ls[k]) is None);
            }
        }
        lemma_found_kept(pre, l, st.2);
    } else if class_set(l) is Some {
        assert(!names_node(l));
        assert(st2 == (st.0, class_set(l)->0, st.2));
        assert(ls[k] == l);
        assert(last_class(ls, k));
        assert forall|c: int| #[trigger] last_class(ls, c) implies st2.1 == class_set(ls[c])->0 by {
            if c < k {
                assert(class_set(ls[k]) is None);
            }
        }
        lemma_open_kept(pre, l, st.0);
        lemma_found_kept(pre, l, st.2);
    } else if names_node(l) {
        lemma_open_kept(pre, l, st.0);
        lemma_class_kept(pre, l, st.1);
        if st.0 is Some && is_stream_class(st.1) {
            let x = st.0->0;
            let h = choose|h: int| #[trigger] last_open(pre, h) && opened_id(pre[h]) == Some(st.0);
            let c = choose|c: int| #[trigger] last_class(pre, c) && class_set(pre[c]) == Some(st.1);
            if c < h {
                assert(opened_id(pre[h]) is None);
            }
            assert(h != c);
            assert(ls[h] == pre[h]);
            assert(ls[c] == pre[c]);
            assert(ls[k] == l);
            assert forall|j: int| h < j < k implies opened_id(#[trigger] ls[j]) is None by {
                assert(ls[j] == pre[j]);
            }
            assert forall|j: int| c < j < k implies class_set(#[trigger] ls[j]) is None by {
                assert(ls[j] == pre[j]);
            }
            assert(stream_named_at(ls, k, x));
            assert(st2.2 == st.2.push(x));
            assert forall|a: int| 0 <= a < st2.2.len() implies has_stream_block(ls, #[trigger] st2.2[a]) by {
                if a < st.2.len() {
                    assert(st2.2[a] == st.2[a]);
                    lemma_block_kept(pre, l, st.2[a]);
                } else {
                    assert(stream_named_at(ls, k, st2.2[a]));
                }
            }
            assert forall|n: int, y: u32| #[trigger] stream_named_at(ls, n, y) implies st2.2.contains(y) by {
                if n < k {
                    lemma_named_prefix(pre, l, n, y);
                    assert(st.2.contains(y));
                    let a = choose|a: int| 0 <= a < st.2.len() && st.2[a] == y;
                    assert(st2.2[a] == y);
                } else {
                    lemma_block_feeds(pre, l, y, st);
                    assert(st2.2[st.2.len() as int] == y);
                }
            }
        } else {
            assert(st2 == st);
            lemma_found_sound_kept(pre, l, st.2);
            assert forall|n: int, y: u32| #[trigger] stream_named_at(ls, n, y) implies st2.2.contains(y) by {
                if n < k {
                    lemma_named_prefix(pre, l, n, y);
                } else {
                    lemma_block_feeds(pre, l, y, st);
                }
            }
        }
    } else {
        assert(st2 == st);
        lemma_open_kept(pre, l, st.0);
        lemma_class_kept(pre, l, st.1);
        lemma_found_kept(pre, l, st.2);
    }
}

/// The streams reset at start-up and on exit are exactly the blocks of the
/// `pw-cli ls Node` listing whose own media class, set inside the block
/// before its `node.name` line, is a stream class: every id returned opens
/// such a block, and every such block's id is returned. A media class never
/// carries over into a later block.
pub proof fn lemma_reset_streams_are_stream_blocks(text: Seq<char>)
    ensures
        forall|a: int|
            0 <= a < listed_streams(text).len() ==> has_stream_block(lines_of(text), #[trigger] listed_streams(text)[a]),
        forall|n: int, x: u32| #[trigger] stream_named_at(lines_of(text), n, x) ==> listed_streams(text).contains(x),
{
    lemma_pass_facts(lines_of(text));
}

} // verus!
