//! Properties of the library as a whole, each proved from the contracts of
//! the functions it speaks of.

use vstd::prelude::*;
use crate::controls::{mute_command, step_command, stepped_down, stepped_up, VOLUME_STEP};
use crate::groups::{
    chosen_stream, covers_apps, describes_group, has_stream, is_app_stream, outranks, sorted_by_name,
    stream_in, takes_settings,
};
use crate::listing::{pair_ports, same_channel, PortRow};
use crate::models::{
    after_event, after_events, without, ports_with, AppGroup, AppIcon, AudioNode, EngineCommand, EngineEvent, NodeType,
    LinkInfo, MixerView, PortInfo, VOLUME_FULL,
};
use crate::routing::toggled;
use crate::routes::{book_after, distinct_pairs, drop_pair, pairs_to, NamePair};
use crate::text::{
    decimal, digit_char, digits_value, is_digit, lemma_lex_asymmetric, lemma_lex_irreflexive, lex_lt,
    parse_u32_spec,
};

verus! {

/// Every event keeps each node, port and link filed under its own id.
pub proof fn lemma_event_keeps_ids(s: MixerView, ev: EngineEvent)
    requires
        s.wf(),
    ensures
        after_event(s, ev).wf(),
{
    let t = after_event(s, ev);
    assert forall|k: u32| #[trigger] t.nodes.contains_key(k) implies t.nodes[k].id == k by {
        match ev {
            EngineEvent::NodeAdded(n) => {
                if k != n.id {
                    assert(s.nodes.contains_key(k));
                }
            },
            EngineEvent::NodeChanged(n) => {
                if k != n.id {
                    assert(s.nodes.contains_key(k));
                }
            },
            _ => {
                assert(s.nodes.contains_key(k));
            },
        }
    }
    assert forall|k: u32| #[trigger] t.ports.contains_key(k) implies t.ports[k].id == k by {
        match ev {
            EngineEvent::PortAdded(p) => {
                if k != p.id {
                    assert(s.ports.contains_key(k));
                }
            },
            _ => {
                assert(s.ports.contains_key(k));
            },
        }
    }
    assert forall|k: u32| #[trigger] t.links.contains_key(k) implies t.links[k].id == k by {
        match ev {
            EngineEvent::LinkAdded(l) => {
                if k != l.id {
                    assert(s.links.contains_key(k));
                }
            },
            _ => {
                assert(s.links.contains_key(k));
            },
        }
    }
}

/// Any batch of events keeps each object filed under its own id.
pub proof fn lemma_events_keep_ids(s: MixerView, evs: Seq<EngineEvent>)
    requires
        s.wf(),
    ensures
        after_events(s, evs).wf(),
    decreases evs.len(),
{
    if evs.len() > 0 {
        lemma_event_keeps_ids(s, evs[0]);
        lemma_events_keep_ids(after_event(s, evs[0]), evs.drop_first());
    }
}

/// A node that was announced can be read back, as announced.
pub proof fn lemma_added_node_reads_back(s: MixerView, n: AudioNode)
    ensures
        after_event(s, EngineEvent::NodeAdded(n)).nodes.contains_key(n.id),
        after_event(s, EngineEvent::NodeAdded(n)).nodes[n.id] == n,
        after_event(s, EngineEvent::NodeAdded(n)).nodes.dom() == s.nodes.dom().insert(n.id),
{
}

/// Removing a node that was just announced leaves the other nodes as they
/// were and no node under its id.
pub proof fn lemma_add_then_remove_node(s: MixerView, n: AudioNode)
    ensures
        after_events(s, seq![EngineEvent::NodeAdded(n), EngineEvent::NodeRemoved(n.id)]).nodes
            == s.nodes.remove(n.id),
{
    reveal_with_fuel(after_events, 4);
    let evs = seq![EngineEvent::NodeAdded(n), EngineEvent::NodeRemoved(n.id)];
    assert(evs.drop_first() =~= seq![EngineEvent::NodeRemoved(n.id)]);
    assert(evs.drop_first().drop_first() =~= Seq::<EngineEvent>::empty());
    assert(s.nodes.insert(n.id, n).remove(n.id) =~= s.nodes.remove(n.id));
}

/// Removing a link that was just announced restores the links, but for any
/// link that had its id before.
pub proof fn lemma_add_then_remove_link(s: MixerView, l: LinkInfo)
    ensures
        after_events(s, seq![EngineEvent::LinkAdded(l), EngineEvent::LinkRemoved(l.id)]).links
            == s.links.remove(l.id),
{
    reveal_with_fuel(after_events, 4);
    let evs = seq![EngineEvent::LinkAdded(l), EngineEvent::LinkRemoved(l.id)];
    assert(evs.drop_first() =~= seq![EngineEvent::LinkRemoved(l.id)]);
    assert(evs.drop_first().drop_first() =~= Seq::<EngineEvent>::empty());
    assert(s.links.insert(l.id, l).remove(l.id) =~= s.links.remove(l.id));
}

proof fn lemma_without_push(v: Seq<u32>, x: u32)
    ensures
        without(v.push(x), x) == without(v, x),
{
    assert(v.push(x).drop_last() =~= v);
}

proof fn lemma_without_absent(v: Seq<u32>, x: u32)
    requires
        !v.contains(x),
    ensures
        without(v, x) == v,
    decreases v.len(),
{
    if v.len() > 0 {
        assert(!v.drop_last().contains(x)) by {
            if v.drop_last().contains(x) {
                let i = choose|i: int| 0 <= i < v.len() - 1 && v.drop_last()[i] == x;
                assert(v[i] == x);
            }
        }
        lemma_without_absent(v.drop_last(), x);
        assert(v[v.len() - 1] != x);
        assert(v.drop_last().push(v.last()) =~= v);
    }
}

/// Removing a port with a new id right after it was announced restores the
/// ports, and leaves its node's port list as it was (empty when the node
/// had none).
pub proof fn lemma_add_then_remove_port(s: MixerView, p: PortInfo)
    requires
        !s.ports.contains_key(p.id),
        s.node_ports.contains_key(p.node_id) ==> !s.node_ports[p.node_id].contains(p.id),
    ensures
        ({
            let t = after_events(s, seq![EngineEvent::PortAdded(p), EngineEvent::PortRemoved(p.id)]);
            &&& t.ports == s.ports
            &&& t.node_ports[p.node_id] == (if s.node_ports.contains_key(p.node_id) {
                s.node_ports[p.node_id]
            } else {
                Seq::<u32>::empty()
            })
        }),
{
    reveal_with_fuel(after_events, 4);
    let evs = seq![EngineEvent::PortAdded(p), EngineEvent::PortRemoved(p.id)];
    assert(evs.drop_first() =~= seq![EngineEvent::PortRemoved(p.id)]);
    assert(evs.drop_first().drop_first() =~= Seq::<EngineEvent>::empty());
    let s1 = after_event(s, EngineEvent::PortAdded(p));
    assert(s1.ports.remove(p.id) =~= s.ports);
    let l = if s.node_ports.contains_key(p.node_id) {
        s.node_ports[p.node_id]
    } else {
        Seq::<u32>::empty()
    };
    assert(ports_with(s.node_ports, p.node_id, p.id) =~= l.push(p.id));
    lemma_without_push(l, p.id);
    lemma_without_absent(l, p.id);
}

/// The registry's removal notice makes the mixer forget every node, port
/// and link with that id.
pub proof fn lemma_removal_forgets(s: MixerView, id: u32)
    ensures
        ({
            let t = after_events(
                s,
                seq![EngineEvent::NodeRemoved(id), EngineEvent::PortRemoved(id), EngineEvent::LinkRemoved(id)],
            );
            &&& !t.nodes.contains_key(id)
            &&& !t.ports.contains_key(id)
            &&& !t.links.contains_key(id)
        }),
{
    reveal_with_fuel(after_events, 4);
    let evs = seq![EngineEvent::NodeRemoved(id), EngineEvent::PortRemoved(id), EngineEvent::LinkRemoved(id)];
    assert(evs.drop_first() =~= seq![EngineEvent::PortRemoved(id), EngineEvent::LinkRemoved(id)]);
    assert(evs.drop_first().drop_first() =~= seq![EngineEvent::LinkRemoved(id)]);
    assert(evs.drop_first().drop_first().drop_first() =~= Seq::<EngineEvent>::empty());
}

/// A volume or mute report about a node the mixer does not know changes
/// nothing.
pub proof fn lemma_report_on_unknown_node(s: MixerView, node_id: u32, volume: u32, muted: bool)
    requires
        !s.nodes.contains_key(node_id),
    ensures
        after_event(s, EngineEvent::VolumeChanged { node_id, volume }) == s,
        after_event(s, EngineEvent::MuteChanged { node_id, muted }) == s,
{
}

/// A volume report about a known node changes its volume and nothing else.
pub proof fn lemma_volume_report(s: MixerView, node_id: u32, volume: u32)
    requires
        s.nodes.contains_key(node_id),
    ensures
        ({
            let t = after_event(s, EngineEvent::VolumeChanged { node_id, volume });
            &&& t.nodes[node_id].volume == volume
            &&& t.nodes[node_id] == AudioNode { volume, ..s.nodes[node_id] }
            &&& t.nodes.dom() == s.nodes.dom()
            &&& forall|k: u32| k != node_id && #[trigger] s.nodes.contains_key(k) ==> t.nodes[k] == s.nodes[k]
            &&& t.ports == s.ports && t.links == s.links && t.node_ports == s.node_ports
        }),
{
    let t = after_event(s, EngineEvent::VolumeChanged { node_id, volume });
    assert(t.nodes.dom() =~= s.nodes.dom());
}

/// Volume steps keep a volume within silence and full scale.
pub proof fn lemma_steps_stay_in_range(v: u32)
    requires
        v <= VOLUME_FULL,
    ensures
        stepped_down(v) <= v,
        v <= stepped_up(v) <= VOLUME_FULL,
{
}

/// Away from the ends of the scale, a step down undoes a step up and a step
/// up undoes a step down.
pub proof fn lemma_steps_undo(v: u32)
    requires
        VOLUME_STEP <= v <= VOLUME_FULL - VOLUME_STEP,
    ensures
        stepped_down(stepped_up(v)) == v,
        stepped_up(stepped_down(v)) == v,
{
}

/// Pressing the mute button twice, with the engine's report of the first
/// press in between, asks for the mute state the node had.
pub proof fn lemma_mute_twice(s: MixerView, node_id: u32, name: String, is_stream: bool)
    requires
        s.nodes.contains_key(node_id),
    ensures
        ({
            let first = mute_command(s.nodes, node_id, name, is_stream);
            let t = after_event(s, EngineEvent::MuteChanged { node_id, muted: first->SetMute_muted });
            mute_command(t.nodes, node_id, name, is_stream)->SetMute_muted == s.nodes[node_id].muted
        }),
{
}

/// Pressing a node's `+` button and receiving the engine's report leaves
/// the node one step louder (`-`: one step quieter).
pub proof fn lemma_step_then_report(s: MixerView, node_id: u32, name: String, is_stream: bool, up: bool)
    requires
        s.nodes.contains_key(node_id),
    ensures
        ({
            let c = step_command(s.nodes, node_id, name, is_stream, up);
            let t = after_event(s, EngineEvent::VolumeChanged { node_id, volume: c->SetVolume_volume });
            t.nodes[node_id].volume == (if up {
                stepped_up(s.nodes[node_id].volume)
            } else {
                stepped_down(s.nodes[node_id].volume)
            })
        }),
{
}

/// Once an application stream is announced, the application has a card.
pub proof fn lemma_announced_app_has_card(s: MixerView, n: AudioNode, r: Seq<AppGroup>)
    requires
        n.node_type == crate::models::NodeType::App || n.node_type == crate::models::NodeType::AppInput,
        covers_apps(after_event(s, EngineEvent::NodeAdded(n)).nodes, r),
    ensures
        exists|i: int| 0 <= i < r.len() && #[trigger] r[i].name@ == n.description@,
{
    let m = after_event(s, EngineEvent::NodeAdded(n)).nodes;
    assert(m.contains_key(n.id) && m[n.id] == n);
}

/// Clicking a closed menu's trigger twice, or an open one's, leaves the
/// menu as it was. (A menu open for another application is left open for
/// this one after the first click.)
pub proof fn lemma_toggle_twice(open: Option<u32>, id: u32)
    requires
        open is None || open == Some(id),
    ensures
        toggled(toggled(open, id), id) == open,
{
}

/// Application cards carry distinct names.
pub proof fn lemma_groups_distinct(r: Seq<AppGroup>)
    requires
        sorted_by_name(r),
    ensures
        forall|a: int, b: int| 0 <= a < r.len() && 0 <= b < r.len() && a != b ==> r[a].name@ != r[b].name@,
{
    assert forall|a: int, b: int| 0 <= a < r.len() && 0 <= b < r.len() && a != b implies r[a].name@ != r[b].name@ by {
        if a < b {
            assert(crate::text::lex_lt(r[a].name@, r[b].name@));
            lemma_lex_irreflexive(r[a].name@);
        } else {
            assert(crate::text::lex_lt(r[b].name@, r[a].name@));
            lemma_lex_irreflexive(r[b].name@);
        }
    }
}

/// `pr` joins one of the output ports `outs` to one of the input ports `ins`
/// on the same channel, or to the only input port.
pub open spec fn joins_channel(outs: Seq<PortRow>, ins: Seq<PortRow>, pr: (u32, u32)) -> bool {
    exists|a: int, b: int|
        0 <= a < outs.len() && 0 <= b < ins.len() && pr == (#[trigger] outs[a].id, #[trigger] ins[b].id) && (
        same_channel(outs[a].name, ins[b].name) || ins.len() == 1)
}

/// Each port pair joins an output port to an input port on the same channel,
/// unless the target has a single input port into which everything is mixed.
pub proof fn lemma_pairs_follow_channels(outs: Seq<PortRow>, ins: Seq<PortRow>)
    ensures
        forall|i: int| 0 <= i < pair_ports(outs, ins).len() ==> joins_channel(outs, ins, #[trigger] pair_ports(outs, ins)[i]),
    decreases outs.len(),
{
    if outs.len() > 0 {
        let ol = outs.drop_last();
        lemma_pairs_follow_channels(ol, ins);
        let rest = pair_ports(ol, ins);
        let full = pair_ports(outs, ins);
        let o = outs.last();
        lemma_first_same_channel(ins, o.name, 0);
        assert forall|i: int| 0 <= i < full.len() implies joins_channel(outs, ins, #[trigger] full[i]) by {
            if i < rest.len() {
                assert(full[i] == rest[i]);
                assert(joins_channel(ol, ins, rest[i]));
                let (a, b) = choose|a: int, b: int|
                    0 <= a < ol.len() && 0 <= b < ins.len() && rest[i] == (#[trigger] ol[a].id, #[trigger] ins[b].id) && (
                    same_channel(ol[a].name, ins[b].name) || ins.len() == 1);
                assert(ol[a] == outs[a]);
                assert(outs[a].id == ol[a].id);
            } else {
                let a = outs.len() - 1;
                assert(outs[a] == o);
                match crate::listing::first_same_channel(ins, o.name, 0) {
                    Some(j) => {
                        assert(full[i] == (outs[a].id, ins[j].id));
                    },
                    None => {
                        assert(full[i] == (outs[a].id, ins[0].id));
                    },
                }
            }
        }
    }
}

proof fn lemma_first_same_channel(ins: Seq<PortRow>, name: Seq<char>, i: int)
    requires
        0 <= i,
    ensures
        crate::listing::first_same_channel(ins, name, i) matches Some(j) ==> i <= j < ins.len()
            && same_channel(name, ins[j].name),
    decreases ins.len() - i,
{
    if i < ins.len() && !same_channel(name, ins[i].name) {
        lemma_first_same_channel(ins, name, i + 1);
    }
}

proof fn lemma_decimal_digits(n: nat)
    ensures
        decimal(n).len() > 0,
        forall|i: int| 0 <= i < decimal(n).len() ==> is_digit(#[trigger] decimal(n)[i]),
        digits_value(decimal(n)) == n,
    decreases n,
{
    assert((digit_char((n % 10) as int) as int) == 0x30 + n % 10);
    assert(n == (n / 10) * 10 + n % 10);
    if n < 10 {
        assert(decimal(n).drop_last() =~= Seq::<char>::empty());
    }
    if n >= 10 {
        lemma_decimal_digits(n / 10);
        let d = decimal(n);
        assert(d.drop_last() =~= decimal(n / 10));
        assert(d.last() == digit_char((n % 10) as int));
        assert(digits_value(d) == digits_value(d.drop_last()) * 10 + ((d.last() as int) - 0x30));
        assert(digits_value(d) == (n / 10) * 10 + n % 10);
    } else {
        let d = decimal(n);
        assert(d.last() == digit_char(n as int));
        assert(digits_value(d) == digits_value(d.drop_last()) * 10 + ((d.last() as int) - 0x30));
    }
}

/// A number written in decimal reads back as the same number: the names
/// `node-<id>` and `port-<id>`, and the ids the engine passes to `pw-cli`,
/// carry the id exactly.
pub proof fn lemma_decimal_reads_back(n: u32)
    ensures
        parse_u32_spec(decimal(n as nat)) == Some(n),
{
    lemma_decimal_digits(n as nat);
    let d = decimal(n as nat);
    assert(is_digit(d[0]));
    assert(d[0] != '+');
}

/// Every port listed for a node is a known port of that node.
pub open spec fn port_lists_consistent(s: MixerView) -> bool {
    forall|n: u32, p: u32|
        #![trigger s.node_ports[n].contains(p)]
        s.node_ports.contains_key(n) && s.node_ports[n].contains(p) ==> s.ports.contains_key(p)
            && s.ports[p].node_id == n
}

/// The event does not announce a port under an id already in use.
pub open spec fn announces_fresh_port(s: MixerView, ev: EngineEvent) -> bool {
    ev matches EngineEvent::PortAdded(p) ==> !s.ports.contains_key(p.id)
}

/// Every port announced in the batch is new when it is applied.
pub open spec fn batch_announces_fresh_ports(s: MixerView, evs: Seq<EngineEvent>) -> bool
    decreases evs.len(),
{
    evs.len() == 0 || (announces_fresh_port(s, evs[0]) && batch_announces_fresh_ports(
        after_event(s, evs[0]),
        evs.drop_first(),
    ))
}

proof fn lemma_without_contains(v: Seq<u32>, x: u32, y: u32)
    ensures
        without(v, x).contains(y) ==> v.contains(y) && y != x,
    decreases v.len(),
{
    if v.len() > 0 {
        lemma_without_contains(v.drop_last(), x, y);
        if without(v, x).contains(y) {
            if v.last() != x && without(v, x).last() == y && y == v.last() {
                assert(v[v.len() - 1] == y);
            } else {
                let w = without(v.drop_last(), x);
                if v.last() != x {
                    let i = choose|i: int| 0 <= i < w.push(v.last()).len() && w.push(v.last())[i] == y;
                    if i < w.len() {
                        assert(w[i] == y);
                    } else {
                        assert(v[v.len() - 1] == y);
                    }
                }
                if v.drop_last().contains(y) {
                    let i = choose|i: int| 0 <= i < v.len() - 1 && v.drop_last()[i] == y;
                    assert(v[i] == y);
                }
            }
        }
    }
}

/// Port lists stay consistent with the port map under any event, provided a
/// port is never announced under an id already in use.
pub proof fn lemma_event_keeps_port_lists(s: MixerView, ev: EngineEvent)
    requires
        port_lists_consistent(s),
        announces_fresh_port(s, ev),
    ensures
        port_lists_consistent(after_event(s, ev)),
{
    let t = after_event(s, ev);
    assert forall|n: u32, q: u32| t.node_ports.contains_key(n) && #[trigger] t.node_ports[n].contains(q) implies t.ports.contains_key(
        q,
    ) && t.ports[q].node_id == n by {
        match ev {
            EngineEvent::PortAdded(p) => {
                if n == p.node_id {
                    let l = if s.node_ports.contains_key(n) {
                        s.node_ports[n]
                    } else {
                        Seq::<u32>::empty()
                    };
                    assert(ports_with(s.node_ports, n, p.id) =~= l.push(p.id));
                    if q != p.id {
                        assert(l.contains(q));
                        assert(s.node_ports[n].contains(q));
                    }
                } else {
                    assert(s.node_ports[n].contains(q));
                }
            },
            EngineEvent::PortRemoved(id) => {
                if s.ports.contains_key(id) {
                    let owner = s.ports[id].node_id;
                    if n == owner && s.node_ports.contains_key(owner) {
                        lemma_without_contains(s.node_ports[owner], id, q);
                        assert(s.node_ports[n].contains(q));
                    } else {
                        assert(s.node_ports[n].contains(q));
                        if q == id {
                            assert(s.ports[id].node_id == n);
                        }
                    }
                } else {
                    assert(s.node_ports[n].contains(q));
                }
            },
            EngineEvent::NodeRemoved(id) => {
                assert(s.node_ports[n].contains(q));
            },
            _ => {
                assert(s.node_ports[n].contains(q));
            },
        }
    }
}

/// The same over a batch of events.
pub proof fn lemma_events_keep_port_lists(s: MixerView, evs: Seq<EngineEvent>)
    requires
        port_lists_consistent(s),
        batch_announces_fresh_ports(s, evs),
    ensures
        port_lists_consistent(after_events(s, evs)),
    decreases evs.len(),
{
    if evs.len() > 0 {
        lemma_event_keeps_port_lists(s, evs[0]);
        lemma_events_keep_port_lists(after_event(s, evs[0]), evs.drop_first());
    }
}

/// The two node maps hold the same application streams under the same keys.
pub open spec fn same_app_streams(m1: Map<u32, AudioNode>, m2: Map<u32, AudioNode>) -> bool {
    &&& forall|k: u32|
        #![trigger m1[k]]
        #![trigger m2[k]]
        (m1.contains_key(k) && is_app_stream(m1[k].node_type)) <==> (m2.contains_key(k)
            && is_app_stream(m2[k].node_type))
    &&& forall|k: u32| #![trigger m1[k]] m1.contains_key(k) && is_app_stream(m1[k].node_type) ==> m2[k] == m1[k]
}

proof fn lemma_streams_agree(m1: Map<u32, AudioNode>, m2: Map<u32, AudioNode>, t: NodeType, d: Seq<char>)
    requires
        same_app_streams(m1, m2),
        is_app_stream(t),
    ensures
        forall|k: u32| stream_in(m1, m1.dom(), t, d, k) <==> stream_in(m2, m2.dom(), t, d, k),
        forall|k: u32| stream_in(m1, m1.dom(), t, d, k) ==> m1[k] == m2[k],
        has_stream(m1, t, d) <==> has_stream(m2, t, d),
        forall|k: u32| chosen_stream(m1, t, d, k) <==> chosen_stream(m2, t, d, k),
{
    assert forall|k: u32| stream_in(m1, m1.dom(), t, d, k) <==> stream_in(m2, m2.dom(), t, d, k) by {
        if m1.contains_key(k) && m1[k].node_type == t {
            assert(m2[k] == m1[k]);
        }
        if m2.contains_key(k) && m2[k].node_type == t {
            assert(m1.contains_key(k) && is_app_stream(m1[k].node_type));
            assert(m2[k] == m1[k]);
        }
    }
    if has_stream(m1, t, d) {
        let k = choose|k: u32| #[trigger] stream_in(m1, m1.dom(), t, d, k);
        assert(stream_in(m2, m2.dom(), t, d, k));
    }
    if has_stream(m2, t, d) {
        let k = choose|k: u32| #[trigger] stream_in(m2, m2.dom(), t, d, k);
        assert(stream_in(m1, m1.dom(), t, d, k));
    }
    assert forall|k: u32| chosen_stream(m1, t, d, k) <==> chosen_stream(m2, t, d, k) by {
        if chosen_stream(m1, t, d, k) {
            assert forall|j: u32| #[trigger] stream_in(m2, m2.dom(), t, d, j) implies outranks(k, m2[k], j, m2[j]) by {
                assert(stream_in(m1, m1.dom(), t, d, j));
            }
        }
        if chosen_stream(m2, t, d, k) {
            assert forall|j: u32| #[trigger] stream_in(m1, m1.dom(), t, d, j) implies outranks(k, m1[k], j, m1[j]) by {
                assert(stream_in(m2, m2.dom(), t, d, j));
            }
        }
    }
}

/// What the cards of a node map must be depends on its application streams
/// only: devices, virtual buses, other nodes, ports and links never matter.
pub proof fn lemma_cards_ignore_other_nodes(m1: Map<u32, AudioNode>, m2: Map<u32, AudioNode>, r: Seq<AppGroup>)
    requires
        same_app_streams(m1, m2),
    ensures
        forall|i: int| 0 <= i < r.len() ==> (describes_group(m1, #[trigger] r[i]) <==> describes_group(m2, r[i])),
        covers_apps(m1, r) <==> covers_apps(m2, r),
{
    assert forall|i: int| 0 <= i < r.len() implies (describes_group(m1, #[trigger] r[i]) <==> describes_group(m2, r[i])) by {
        let d = r[i].name@;
        lemma_streams_agree(m1, m2, NodeType::App, d);
        lemma_streams_agree(m1, m2, NodeType::AppInput, d);
        if describes_group(m1, r[i]) {
            if let Some(id) = r[i].playback_id {
                let k = choose|k: u32| #[trigger] chosen_stream(m1, NodeType::App, d, k) && m1[k].id == id && takes_settings(r[i], m1[k]);
                assert(chosen_stream(m2, NodeType::App, d, k) && m2[k].id == id && takes_settings(r[i], m2[k]));
            }
            if let Some(id) = r[i].capture_id {
                let k = choose|k: u32| #[trigger] chosen_stream(m1, NodeType::AppInput, d, k) && m1[k].id == id && (r[i].playback_id is None ==> takes_settings(r[i], m1[k]));
                assert(chosen_stream(m2, NodeType::AppInput, d, k) && m2[k].id == id);
            }
        }
        if describes_group(m2, r[i]) {
            if let Some(id) = r[i].playback_id {
                let k = choose|k: u32| #[trigger] chosen_stream(m2, NodeType::App, d, k) && m2[k].id == id && takes_settings(r[i], m2[k]);
                assert(chosen_stream(m1, NodeType::App, d, k) && m1[k].id == id && takes_settings(r[i], m1[k]));
            }
            if let Some(id) = r[i].capture_id {
                let k = choose|k: u32| #[trigger] chosen_stream(m2, NodeType::AppInput, d, k) && m2[k].id == id && (r[i].playback_id is None ==> takes_settings(r[i], m2[k]));
                assert(chosen_stream(m1, NodeType::AppInput, d, k) && m1[k].id == id);
            }
        }
    }
    if covers_apps(m1, r) {
        assert forall|k: u32|
            #![trigger m2[k]]
            m2.contains_key(k) && (m2[k].node_type == NodeType::App || m2[k].node_type == NodeType::AppInput)
                implies exists|a: int| 0 <= a < r.len() && #[trigger] r[a].name@ == m2[k].description@ by {
            assert(m1.contains_key(k) && is_app_stream(m1[k].node_type));
            assert(m1[k] == m2[k]);
        }
    }
    if covers_apps(m2, r) {
        assert forall|k: u32|
            #![trigger m1[k]]
            m1.contains_key(k) && (m1[k].node_type == NodeType::App || m1[k].node_type == NodeType::AppInput)
                implies exists|a: int| 0 <= a < r.len() && #[trigger] r[a].name@ == m1[k].description@ by {
            assert(m1[k] == m2[k]);
        }
    }
}

/// The contents of a card, its texts taken as character sequences.
pub open spec fn card_view(g: AppGroup) -> (Seq<char>, Seq<char>, Option<u32>, Option<u32>, u32, bool, AppIcon) {
    (g.name@, g.node_name@, g.playback_id, g.capture_id, g.volume, g.muted, g.icon)
}

/// What `app_groups` promises of its result for the node map `m`.
#[verifier::opaque]
pub open spec fn cards_for(m: Map<u32, AudioNode>, r: Seq<AppGroup>) -> bool {
    &&& sorted_by_name(r)
    &&& forall|a: int| 0 <= a < r.len() ==> describes_group(m, #[trigger] r[a])
    &&& covers_apps(m, r)
}

proof fn lemma_chosen_unique(m: Map<u32, AudioNode>, t: NodeType, d: Seq<char>, k1: u32, k2: u32)
    requires
        chosen_stream(m, t, d, k1),
        chosen_stream(m, t, d, k2),
    ensures
        k1 == k2,
{
    assert(stream_in(m, m.dom(), t, d, k1));
    assert(stream_in(m, m.dom(), t, d, k2));
}

/// Strictly ascending in code-point order.
pub open spec fn strictly_sorted(s: Seq<Seq<char>>) -> bool {
    forall|a: int, b: int| 0 <= a < b < s.len() ==> lex_lt(#[trigger] s[a], #[trigger] s[b])
}

proof fn lemma_sorted_same_members(s1: Seq<Seq<char>>, s2: Seq<Seq<char>>)
    requires
        strictly_sorted(s1),
        strictly_sorted(s2),
        forall|x: Seq<char>| s1.contains(x) <==> s2.contains(x),
    ensures
        s1 == s2,
    decreases s1.len(),
{
    if s1.len() == 0 {
        if s2.len() > 0 {
            assert(s2.contains(s2[0]));
        }
        assert(s1 =~= s2);
    } else if s2.len() == 0 {
        assert(s1.contains(s1[0]));
    } else {
        assert(s1.contains(s1[0]));
        let j = choose|j: int| 0 <= j < s2.len() && s2[j] == s1[0];
        assert(s2.contains(s2[0]));
        let i = choose|i: int| 0 <= i < s1.len() && s1[i] == s2[0];
        if j > 0 {
            assert(lex_lt(s2[0], s2[j]));
            if i == 0 {
                lemma_lex_irreflexive(s2[0]);
            } else {
                assert(lex_lt(s1[0], s1[i]));
                lemma_lex_asymmetric(s2[0], s1[0]);
            }
        }
        assert(s1[0] == s2[0]);
        let t1 = s1.drop_first();
        let t2 = s2.drop_first();
        assert forall|x: Seq<char>| t1.contains(x) <==> t2.contains(x) by {
            if t1.contains(x) {
                let a = choose|a: int| 0 <= a < t1.len() && t1[a] == x;
                assert(s1[a + 1] == x);
                assert(lex_lt(s1[0], x));
                lemma_lex_irreflexive(x);
                assert(s2.contains(x));
                let b = choose|b: int| 0 <= b < s2.len() && s2[b] == x;
                assert(b != 0);
                assert(t2[b - 1] == x);
            }
            if t2.contains(x) {
                let a = choose|a: int| 0 <= a < t2.len() && t2[a] == x;
                assert(s2[a + 1] == x);
                assert(lex_lt(s2[0], x));
                lemma_lex_irreflexive(x);
                assert(s1.contains(x));
                let b = choose|b: int| 0 <= b < s1.len() && s1[b] == x;
                assert(b != 0);
                assert(t1[b - 1] == x);
            }
        }
        assert forall|a: int, b: int| 0 <= a < b < t1.len() implies lex_lt(#[trigger] t1[a], #[trigger] t1[b]) by {
            assert(lex_lt(s1[a + 1], s1[b + 1]));
        }
        assert forall|a: int, b: int| 0 <= a < b < t2.len() implies lex_lt(#[trigger] t2[a], #[trigger] t2[b]) by {
            assert(lex_lt(s2[a + 1], s2[b + 1]));
        }
        lemma_sorted_same_members(t1, t2);
        assert(s1 =~= seq![s1[0]] + t1);
        assert(s2 =~= seq![s2[0]] + t2);
    }
}

/// The names of a list of cards.
pub open spec fn card_names(r: Seq<AppGroup>) -> Seq<Seq<char>> {
    r.map_values(|g: AppGroup| g.name@)
}

proof fn lemma_name_has_card(m: Map<u32, AudioNode>, x: Seq<char>, r: Seq<AppGroup>)
    requires
        has_stream(m, NodeType::App, x) || has_stream(m, NodeType::AppInput, x),
        covers_apps(m, r),
    ensures
        card_names(r).contains(x),
{
    let t = if has_stream(m, NodeType::App, x) { NodeType::App } else { NodeType::AppInput };
    let k = choose|k: u32| #[trigger] stream_in(m, m.dom(), t, x, k);
    assert(m.contains_key(k) && is_app_stream(m[k].node_type));
    let b = choose|b: int| 0 <= b < r.len() && #[trigger] r[b].name@ == m[k].description@;
    assert(card_names(r)[b] == x);
}

proof fn lemma_same_card(m: Map<u32, AudioNode>, g1: AppGroup, g2: AppGroup)
    requires
        describes_group(m, g1),
        describes_group(m, g2),
        g1.name@ == g2.name@,
    ensures
        card_view(g1) == card_view(g2),
{
    let d = g1.name@;
    if let Some(id1) = g1.playback_id {
        let k1 = choose|k: u32| #[trigger] chosen_stream(m, NodeType::App, d, k) && m[k].id == id1 && takes_settings(g1, m[k]);
        let id2 = g2.playback_id->0;
        let k2 = choose|k: u32| #[trigger] chosen_stream(m, NodeType::App, d, k) && m[k].id == id2 && takes_settings(g2, m[k]);
        lemma_chosen_unique(m, NodeType::App, d, k1, k2);
    }
    if let Some(id1) = g1.capture_id {
        let k1 = choose|k: u32| #[trigger] chosen_stream(m, NodeType::AppInput, d, k) && m[k].id == id1 && (g1.playback_id is None ==> takes_settings(g1, m[k]));
        let id2 = g2.capture_id->0;
        let k2 = choose|k: u32| #[trigger] chosen_stream(m, NodeType::AppInput, d, k) && m[k].id == id2 && (g2.playback_id is None ==> takes_settings(g2, m[k]));
        lemma_chosen_unique(m, NodeType::AppInput, d, k1, k2);
    }
}

/// Every card's name describes some application stream of `m`.
pub open spec fn names_have_streams(m: Map<u32, AudioNode>, r: Seq<AppGroup>) -> bool {
    forall|a: int|
        0 <= a < r.len() ==> (has_stream(m, NodeType::App, #[trigger] r[a].name@) || has_stream(
            m,
            NodeType::AppInput,
            r[a].name@,
        ))
}

proof fn lemma_described_names(m: Map<u32, AudioNode>, r: Seq<AppGroup>)
    requires
        forall|a: int| 0 <= a < r.len() ==> describes_group(m, #[trigger] r[a]),
    ensures
        names_have_streams(m, r),
{
    assert forall|a: int| 0 <= a < r.len() implies (has_stream(m, NodeType::App, #[trigger] r[a].name@) || has_stream(
        m,
        NodeType::AppInput,
        r[a].name@,
    )) by {
        assert(describes_group(m, r[a]));
    }
}

proof fn lemma_same_names(m: Map<u32, AudioNode>, r1: Seq<AppGroup>, r2: Seq<AppGroup>)
    requires
        sorted_by_name(r1),
        sorted_by_name(r2),
        names_have_streams(m, r1),
        names_have_streams(m, r2),
        covers_apps(m, r1),
        covers_apps(m, r2),
    ensures
        card_names(r1) == card_names(r2),
{
    let n1 = card_names(r1);
    let n2 = card_names(r2);
    assert forall|x: Seq<char>| n1.contains(x) <==> n2.contains(x) by {
        if n1.contains(x) {
            let a = choose|a: int| 0 <= a < n1.len() && n1[a] == x;
            assert(r1[a].name@ == x);
            lemma_name_has_card(m, x, r2);
        }
        if n2.contains(x) {
            let a = choose|a: int| 0 <= a < n2.len() && n2[a] == x;
            assert(r2[a].name@ == x);
            lemma_name_has_card(m, x, r1);
        }
    }
    assert forall|a: int, b: int| 0 <= a < b < n1.len() implies lex_lt(#[trigger] n1[a], #[trigger] n1[b]) by {
        assert(lex_lt(r1[a].name@, r1[b].name@));
    }
    assert forall|a: int, b: int| 0 <= a < b < n2.len() implies lex_lt(#[trigger] n2[a], #[trigger] n2[b]) by {
        assert(lex_lt(r2[a].name@, r2[b].name@));
    }
    lemma_sorted_same_members(n1, n2);
}

/// `app_groups` has one possible result up to the identity of its strings:
/// two lists of cards that both keep its promise for the same nodes have the
/// same cards in the same order. With `lemma_cards_ignore_other_nodes`, two
/// graphs with the same application streams get the same cards.
pub proof fn lemma_cards_determined(m: Map<u32, AudioNode>, r1: Seq<AppGroup>, r2: Seq<AppGroup>)
    requires
        cards_for(m, r1),
        cards_for(m, r2),
    ensures
        r1.len() == r2.len(),
        forall|i: int| 0 <= i < r1.len() ==> card_view(#[trigger] r1[i]) == card_view(r2[i]),
{
    lemma_cards_same_names(m, r1, r2);
    assert(card_names(r1).len() == card_names(r2).len());
    assert forall|i: int| 0 <= i < r1.len() implies card_view(#[trigger] r1[i]) == card_view(r2[i]) by {
        lemma_same_card_at(m, r1, r2, i);
    }
}

proof fn lemma_cards_same_names(m: Map<u32, AudioNode>, r1: Seq<AppGroup>, r2: Seq<AppGroup>)
    requires
        cards_for(m, r1),
        cards_for(m, r2),
    ensures
        card_names(r1) == card_names(r2),
{
    reveal(cards_for);
    lemma_described_names(m, r1);
    lemma_described_names(m, r2);
    lemma_same_names(m, r1, r2);
}

proof fn lemma_card_at(m: Map<u32, AudioNode>, r: Seq<AppGroup>, i: int)
    requires
        cards_for(m, r),
        0 <= i < r.len(),
    ensures
        describes_group(m, r[i]),
        card_names(r)[i] == r[i].name@,
        card_names(r).len() == r.len(),
{
    reveal(cards_for);
}

proof fn lemma_same_card_at(m: Map<u32, AudioNode>, r1: Seq<AppGroup>, r2: Seq<AppGroup>, i: int)
    requires
        cards_for(m, r1),
        cards_for(m, r2),
        card_names(r1) == card_names(r2),
        0 <= i < r1.len(),
    ensures
        card_view(r1[i]) == card_view(r2[i]),
{
    lemma_card_at(m, r1, i);
    assert(card_names(r2).len() == r2.len());
    lemma_card_at(m, r2, i);
    lemma_same_card(m, r1[i], r2[i]);
}

/// Two graphs with the same application streams get the same cards, in the
/// same order: devices, virtual buses, other nodes, ports and links never
/// change what `app_groups` returns.
pub proof fn lemma_groups_ignore_other_nodes(
    m1: Map<u32, AudioNode>,
    m2: Map<u32, AudioNode>,
    r1: Seq<AppGroup>,
    r2: Seq<AppGroup>,
)
    requires
        same_app_streams(m1, m2),
        sorted_by_name(r1),
        forall|a: int| 0 <= a < r1.len() ==> describes_group(m1, #[trigger] r1[a]),
        covers_apps(m1, r1),
        sorted_by_name(r2),
        forall|a: int| 0 <= a < r2.len() ==> describes_group(m2, #[trigger] r2[a]),
        covers_apps(m2, r2),
    ensures
        r1.len() == r2.len(),
        forall|i: int| 0 <= i < r1.len() ==> card_view(#[trigger] r1[i]) == card_view(r2[i]),
{
    lemma_cards_ignore_other_nodes(m1, m2, r2);
    assert(cards_for(m1, r1)) by {
        reveal(cards_for);
    }
    assert(cards_for(m1, r2)) by {
        reveal(cards_for);
    }
    lemma_cards_determined(m1, r1, r2);
}

proof fn lemma_push_contains(s: Seq<NamePair>, x: NamePair, q: NamePair)
    ensures
        s.push(x).contains(q) <==> (s.contains(q) || x == q),
{
    if s.push(x).contains(q) {
        let i = choose|i: int| 0 <= i < s.push(x).len() && s.push(x)[i] == q;
        if i < s.len() {
            assert(s[i] == q);
        }
    }
    if s.contains(q) {
        let i = choose|i: int| 0 <= i < s.len() && s[i] == q;
        assert(s.push(x)[i] == q);
    }
    if x == q {
        assert(s.push(x)[s.len() as int] == q);
    }
}

proof fn lemma_drop_pair_members(book: Seq<NamePair>, p: NamePair, q: NamePair)
    ensures
        drop_pair(book, p).contains(q) <==> (book.contains(q) && q != p),
    decreases book.len(),
{
    if book.len() > 0 {
        let rest = book.drop_last();
        lemma_drop_pair_members(rest, p, q);
        assert(book =~= rest.push(book.last()));
        lemma_push_contains(rest, book.last(), q);
        if book.last() != p {
            lemma_push_contains(drop_pair(rest, p), book.last(), q);
        }
    }
}

proof fn lemma_drop_absent(book: Seq<NamePair>, p: NamePair)
    requires
        !book.contains(p),
    ensures
        drop_pair(book, p) == book,
    decreases book.len(),
{
    if book.len() > 0 {
        let rest = book.drop_last();
        assert(!rest.contains(p)) by {
            if rest.contains(p) {
                let i = choose|i: int| 0 <= i < rest.len() && rest[i] == p;
                assert(book[i] == p);
            }
        }
        assert(book.last() != p) by {
            assert(book[book.len() - 1] == book.last());
        }
        lemma_drop_absent(rest, p);
        assert(rest.push(book.last()) =~= book);
    }
}

proof fn lemma_pairs_to_members(book: Seq<NamePair>, d: Seq<char>, q: NamePair)
    ensures
        pairs_to(book, d).contains(q) <==> (book.contains(q) && q.1 == d),
    decreases book.len(),
{
    if book.len() > 0 {
        let rest = book.drop_last();
        lemma_pairs_to_members(rest, d, q);
        assert(book =~= rest.push(book.last()));
        lemma_push_contains(rest, book.last(), q);
        if book.last().1 == d {
            lemma_push_contains(pairs_to(rest, d), book.last(), q);
        }
    }
}

/// A link made and then removed leaves the book as it was, when the book
/// did not hold it before.
pub proof fn lemma_link_made_then_removed(book: Seq<NamePair>, from_name: String, to_name: String)
    requires
        !book.contains((from_name@, to_name@)),
    ensures
        book_after(
            book_after(book, EngineCommand::CreateLink { from_name, to_name }),
            EngineCommand::RemoveLink { from_name, to_name },
        ) == book,
{
    let p = (from_name@, to_name@);
    assert(book.push(p).drop_last() =~= book);
    assert(book.push(p).last() == p);
    lemma_drop_absent(book, p);
}

/// Right after a link from an application to a device is made, the links
/// written down for that device, which it gets back when it appears again,
/// include it.
pub proof fn lemma_made_link_comes_back(book: Seq<NamePair>, from_name: String, to_name: String)
    ensures
        pairs_to(book_after(book, EngineCommand::CreateLink { from_name, to_name }), to_name@).contains(
            (from_name@, to_name@),
        ),
{
    let p = (from_name@, to_name@);
    let b = book_after(book, EngineCommand::CreateLink { from_name, to_name });
    if !book.contains(p) {
        assert(b[book.len() as int] == p);
    }
    assert(b.contains(p));
    lemma_pairs_to_members(b, to_name@, p);
}

/// A link the user removed is never made again when its device appears.
pub proof fn lemma_removed_link_stays_away(book: Seq<NamePair>, from_name: String, to_name: String)
    ensures
        !pairs_to(book_after(book, EngineCommand::RemoveLink { from_name, to_name }), to_name@).contains(
            (from_name@, to_name@),
        ),
{
    let p = (from_name@, to_name@);
    lemma_drop_pair_members(book, p, p);
    lemma_pairs_to_members(drop_pair(book, p), to_name@, p);
}

proof fn lemma_drop_pair_distinct(book: Seq<NamePair>, p: NamePair)
    requires
        distinct_pairs(book),
    ensures
        distinct_pairs(drop_pair(book, p)),
    decreases book.len(),
{
    if book.len() > 0 {
        let rest = book.drop_last();
        assert(distinct_pairs(rest)) by {
            assert forall|a: int, b: int| 0 <= a < b < rest.len() implies #[trigger] rest[a] != #[trigger] rest[b] by {
                assert(book[a] != book[b]);
            }
        }
        lemma_drop_pair_distinct(rest, p);
        if book.last() != p {
            let d = drop_pair(rest, p);
            let x = book.last();
            assert(!rest.contains(x)) by {
                if rest.contains(x) {
                    let i = choose|i: int| 0 <= i < rest.len() && rest[i] == x;
                    assert(book[i] != book[book.len() - 1]);
                }
            }
            lemma_drop_pair_members(rest, p, x);
            assert forall|a: int, b: int| 0 <= a < b < d.len() + 1 implies #[trigger] d.push(x)[a] != #[trigger] d.push(x)[b] by {
                if b == d.len() {
                    assert(d.push(x)[b] == x);
                    assert(d.contains(d[a]));
                } else {
                    assert(d[a] != d[b]);
                }
            }
        }
    }
}

/// The book never holds a link twice, whatever the mixer sends.
pub proof fn lemma_book_stays_distinct(book: Seq<NamePair>, cmd: EngineCommand)
    requires
        distinct_pairs(book),
    ensures
        distinct_pairs(book_after(book, cmd)),
{
    match cmd {
        EngineCommand::CreateLink { from_name, to_name } => {
            let p = (from_name@, to_name@);
            if !book.contains(p) {
                let b = book.push(p);
                assert forall|a: int, c: int| 0 <= a < c < b.len() implies #[trigger] b[a] != #[trigger] b[c] by {
                    if c == book.len() {
                        assert(b[a] == book[a]);
                        assert(book.contains(book[a]));
                    } else {
                        assert(book[a] != book[c]);
                    }
                }
            }
        },
        EngineCommand::RemoveLink { from_name, to_name } => {
            lemma_drop_pair_distinct(book, (from_name@, to_name@));
        },
        _ => {},
    }
}

} // verus!
