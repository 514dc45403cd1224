//! Grouping of application streams into application cards.
//!
//! A playback stream (`App`) and a capture stream (`AppInput`) with the same
//! description belong to one application. When several streams of one kind
//! share a description, the one with the highest `pulse_id` (a missing one
//! counting as 0) speaks for the application; equal `pulse_id`s are settled
//! by the higher node key, so the outcome does not depend on the order in
//! which the node map is walked.

use vstd::prelude::*;
use crate::models::{AppGroup, AppIcon, AudioNode, MixerState, NodeType};
use crate::queries::walk_keys;
use crate::text::{
    chars_of, compare_chars, lemma_lex_irreflexive, lemma_lex_transitive,
    lex_lt, string_of, CharOrder,
};

verus! {

broadcast use {vstd::std_specs::hash::group_hash_axioms, vstd::seq_lib::group_seq_properties};

/// The `pulse_id` of a node, 0 when it has none.
pub open spec fn pulse_rank(n: AudioNode) -> u32 {
    match n.pulse_id {
        Some(p) => p,
        None => 0,
    }
}

/// Node `a` filed under `ka` is preferred to, or is, node `b` filed under `kb`.
pub open spec fn outranks(ka: u32, a: AudioNode, kb: u32, b: AudioNode) -> bool {
    pulse_rank(a) > pulse_rank(b) || (pulse_rank(a) == pulse_rank(b) && ka >= kb)
}

/// `k`, among the keys `seen`, files a stream of type `t` described as `d`.
pub open spec fn stream_in(m: Map<u32, AudioNode>, seen: Set<u32>, t: NodeType, d: Seq<char>, k: u32) -> bool {
    &&& seen.contains(k)
    &&& m.contains_key(k)
    &&& m[k].node_type == t
    &&& m[k].description@ == d
}

/// Some key among `seen` files a stream of type `t` described as `d`.
pub open spec fn has_stream_in(m: Map<u32, AudioNode>, seen: Set<u32>, t: NodeType, d: Seq<char>) -> bool {
    exists|k: u32| #[trigger] stream_in(m, seen, t, d, k)
}

/// `k` files the preferred stream of type `t` described as `d` among `seen`.
pub open spec fn chosen_in(m: Map<u32, AudioNode>, seen: Set<u32>, t: NodeType, d: Seq<char>, k: u32) -> bool {
    &&& stream_in(m, seen, t, d, k)
    &&& forall|j: u32| #[trigger] stream_in(m, seen, t, d, j) ==> outranks(k, m[k], j, m[j])
}

/// The map holds a stream of type `t` described as `d`.
pub open spec fn has_stream(m: Map<u32, AudioNode>, t: NodeType, d: Seq<char>) -> bool {
    has_stream_in(m, m.dom(), t, d)
}

/// `k` files the stream of type `t` that speaks for the application `d`.
pub open spec fn chosen_stream(m: Map<u32, AudioNode>, t: NodeType, d: Seq<char>, k: u32) -> bool {
    chosen_in(m, m.dom(), t, d, k)
}

/// Speaker for an application that both plays and records, a microphone
/// for one that only records, a note otherwise.
pub open spec fn icon_for(playback: bool, capture: bool) -> AppIcon {
    if playback && capture {
        AppIcon::Speaker
    } else if capture {
        AppIcon::Mic
    } else {
        AppIcon::Music
    }
}

/// The group takes its node name, volume and mute state from `n`.
pub open spec fn takes_settings(g: AppGroup, n: AudioNode) -> bool {
    &&& g.node_name@ == n.name@
    &&& g.volume == n.volume
    &&& g.muted == n.muted
}

/// `g` is the card of the application described as `g.name` in `m`.
pub open spec fn describes_group(m: Map<u32, AudioNode>, g: AppGroup) -> bool {
    let d = g.name@;
    &&& has_stream(m, NodeType::App, d) || has_stream(m, NodeType::AppInput, d)
    &&& match g.playback_id {
        Some(id) => exists|k: u32|
            #[trigger] chosen_stream(m, NodeType::App, d, k) && m[k].id == id && takes_settings(g, m[k]),
        None => !has_stream(m, NodeType::App, d),
    }
    &&& match g.capture_id {
        Some(id) => exists|k: u32|
            #[trigger] chosen_stream(m, NodeType::AppInput, d, k) && m[k].id == id && (g.playback_id is None
                ==> takes_settings(g, m[k])),
        None => !has_stream(m, NodeType::AppInput, d),
    }
    &&& g.icon == icon_for(g.playback_id is Some, g.capture_id is Some)
}

/// Names strictly ascending, hence each application once.
pub open spec fn sorted_by_name(r: Seq<AppGroup>) -> bool {
    forall|a: int, b: int| 0 <= a < b < r.len() ==> lex_lt(#[trigger] r[a].name@, #[trigger] r[b].name@)
}

/// Every application stream of `m` has a card.
pub open spec fn covers_apps(m: Map<u32, AudioNode>, r: Seq<AppGroup>) -> bool {
    forall|k: u32|
        #![trigger m[k]]
        m.contains_key(k) && (m[k].node_type == NodeType::App || m[k].node_type == NodeType::AppInput)
            ==> exists|a: int| 0 <= a < r.len() && #[trigger] r[a].name@ == m[k].description@
}

/// An application being assembled: its name and the keys of the streams
/// that speak for it so far.
struct Slot {
    name: Vec<char>,
    play: Option<u32>,
    cap: Option<u32>,
}

spec fn slot_ok(m: Map<u32, AudioNode>, seen: Set<u32>, sl: Slot) -> bool {
    &&& sl.play is Some || sl.cap is Some
    &&& (sl.play is Some <==> has_stream_in(m, seen, NodeType::App, sl.name@))
    &&& (sl.play matches Some(p) ==> chosen_in(m, seen, NodeType::App, sl.name@, p))
    &&& (sl.cap is Some <==> has_stream_in(m, seen, NodeType::AppInput, sl.name@))
    &&& (sl.cap matches Some(c) ==> chosen_in(m, seen, NodeType::AppInput, sl.name@, c))
}

spec fn slots_sorted(s: Seq<Slot>) -> bool {
    forall|a: int, b: int| 0 <= a < b < s.len() ==> lex_lt(#[trigger] s[a].name@, #[trigger] s[b].name@)
}

fn outranks_exec(ka: u32, a: &AudioNode, kb: u32, b: &AudioNode) -> (r: bool)
    ensures
        r == outranks(ka, *a, kb, *b),
{
    let pa: u32 = match a.pulse_id {
        Some(p) => p,
        None => 0,
    };
    let pb: u32 = match b.pulse_id {
        Some(p) => p,
        None => 0,
    };
    pa > pb || (pa == pb && ka >= kb)
}

proof fn lemma_outranks_total(ka: u32, a: AudioNode, kb: u32, b: AudioNode)
    ensures
        outranks(ka, a, kb, b) || outranks(kb, b, ka, a),
{
}

/// A key that does not file a stream of type `t` described as `d` changes
/// nothing about such streams when it joins `seen`.
proof fn lemma_unrelated_key(m: Map<u32, AudioNode>, seen: Set<u32>, k: u32, t: NodeType, d: Seq<char>)
    requires
        !(m.contains_key(k) && m[k].node_type == t && m[k].description@ == d),
    ensures
        forall|j: u32| stream_in(m, seen.insert(k), t, d, j) == stream_in(m, seen, t, d, j),
        has_stream_in(m, seen.insert(k), t, d) == has_stream_in(m, seen, t, d),
        forall|j: u32| chosen_in(m, seen.insert(k), t, d, j) == chosen_in(m, seen, t, d, j),
{
    assert forall|j: u32| stream_in(m, seen.insert(k), t, d, j) == stream_in(m, seen, t, d, j) by {}
    assert forall|j: u32| chosen_in(m, seen.insert(k), t, d, j) implies chosen_in(m, seen, t, d, j) by {
        assert forall|i: u32| #[trigger] stream_in(m, seen, t, d, i) implies outranks(j, m[j], i, m[i]) by {
            assert(stream_in(m, seen.insert(k), t, d, i));
        }
    }
    assert forall|j: u32| chosen_in(m, seen, t, d, j) implies chosen_in(m, seen.insert(k), t, d, j) by {
        assert forall|i: u32| #[trigger] stream_in(m, seen.insert(k), t, d, i) implies outranks(j, m[j], i, m[i]) by {
            assert(stream_in(m, seen, t, d, i));
        }
    }
    if has_stream_in(m, seen.insert(k), t, d) {
        let j = choose|j: u32| stream_in(m, seen.insert(k), t, d, j);
        assert(stream_in(m, seen, t, d, j));
    }
    if has_stream_in(m, seen, t, d) {
        let j = choose|j: u32| stream_in(m, seen, t, d, j);
        assert(stream_in(m, seen.insert(k), t, d, j));
    }
}

/// A slot stays right when a key unrelated to its name joins `seen`.
proof fn lemma_slot_unrelated(m: Map<u32, AudioNode>, seen: Set<u32>, k: u32, sl: Slot)
    requires
        slot_ok(m, seen, sl),
        !(m.contains_key(k) && m[k].node_type == NodeType::App && m[k].description@ == sl.name@),
        !(m.contains_key(k) && m[k].node_type == NodeType::AppInput && m[k].description@ == sl.name@),
    ensures
        slot_ok(m, seen.insert(k), sl),
{
    lemma_unrelated_key(m, seen, k, NodeType::App, sl.name@);
    lemma_unrelated_key(m, seen, k, NodeType::AppInput, sl.name@);
}

/// Folding key `k` into the current choice `cur` gives the choice among
/// `seen` and `k`.
proof fn lemma_choose_step(
    m: Map<u32, AudioNode>,
    seen: Set<u32>,
    k: u32,
    t: NodeType,
    d: Seq<char>,
    cur: Option<u32>,
    next: Option<u32>,
)
    requires
        m.contains_key(k),
        m[k].node_type == t,
        m[k].description@ == d,
        cur is Some <==> has_stream_in(m, seen, t, d),
        cur matches Some(p) ==> chosen_in(m, seen, t, d, p),
        next == (match cur {
            None => Some(k),
            Some(p) => if outranks(k, m[k], p, m[p]) {
                Some(k)
            } else {
                Some(p)
            },
        }),
    ensures
        next is Some,
        has_stream_in(m, seen.insert(k), t, d),
        chosen_in(m, seen.insert(k), t, d, next->0),
{
    let s2 = seen.insert(k);
    assert(stream_in(m, s2, t, d, k));
    match cur {
        None => {
            assert forall|j: u32| #[trigger] stream_in(m, s2, t, d, j) implies outranks(k, m[k], j, m[j]) by {
                if j != k {
                    assert(stream_in(m, seen, t, d, j));
                }
            }
        },
        Some(p) => {
            lemma_outranks_total(k, m[k], p, m[p]);
            let w = next->0;
            assert forall|j: u32| #[trigger] stream_in(m, s2, t, d, j) implies outranks(w, m[w], j, m[j]) by {
                if j != k {
                    assert(stream_in(m, seen, t, d, j));
                    assert(outranks(p, m[p], j, m[j]));
                    if w == k {
                        lemma_outranks_transitive(k, m[k], p, m[p], j, m[j]);
                    }
                }
            }
        },
    }
}

proof fn lemma_outranks_transitive(ka: u32, a: AudioNode, kb: u32, b: AudioNode, kc: u32, c: AudioNode)
    requires
        outranks(ka, a, kb, b),
        outranks(kb, b, kc, c),
    ensures
        outranks(ka, a, kc, c),
{
}

/// Inserting a name that falls between its neighbours keeps slots sorted.
proof fn lemma_insert_sorted(s: Seq<Slot>, pos: int, sl: Slot)
    requires
        slots_sorted(s),
        0 <= pos <= s.len(),
        forall|a: int| 0 <= a < pos ==> lex_lt(#[trigger] s[a].name@, sl.name@),
        pos < s.len() ==> lex_lt(sl.name@, s[pos].name@),
    ensures
        slots_sorted(s.insert(pos, sl)),
{
    let t = s.insert(pos, sl);
    assert forall|a: int, b: int| 0 <= a < b < t.len() implies lex_lt(#[trigger] t[a].name@, #[trigger] t[b].name@) by {
        if b < pos {
            assert(t[a] == s[a] && t[b] == s[b]);
        } else if b == pos {
            assert(t[a] == s[a]);
        } else if a == pos {
            assert(t[b] == s[b - 1]);
            if b - 1 > pos {
                lemma_lex_transitive(sl.name@, s[pos].name@, s[b - 1].name@);
            }
        } else if a < pos {
            assert(t[a] == s[a] && t[b] == s[b - 1]);
        } else {
            assert(t[a] == s[a - 1] && t[b] == s[b - 1]);
        }
    }
}

/// What the slots say about the keys `seen` so far.
spec fn slots_inv(m: Map<u32, AudioNode>, seen: Set<u32>, s: Seq<Slot>) -> bool {
    &&& slots_sorted(s)
    &&& forall|a: int| 0 <= a < s.len() ==> slot_ok(m, seen, #[trigger] s[a])
    &&& forall|k: u32|
        #![trigger m[k]]
        seen.contains(k) && m.contains_key(k) && is_app_stream(m[k].node_type) ==> exists|a: int|
            0 <= a < s.len() && #[trigger] s[a].name@ == m[k].description@
}

/// The node types that make up applications.
pub open spec fn is_app_stream(t: NodeType) -> bool {
    t == NodeType::App || t == NodeType::AppInput
}

/// A key that files no application stream leaves the slots as they were.
proof fn lemma_step_other(m: Map<u32, AudioNode>, seen: Set<u32>, k: u32, s: Seq<Slot>)
    requires
        slots_inv(m, seen, s),
        m.contains_key(k),
        !is_app_stream(m[k].node_type),
    ensures
        slots_inv(m, seen.insert(k), s),
{
    assert forall|a: int| 0 <= a < s.len() implies slot_ok(m, seen.insert(k), #[trigger] s[a]) by {
        lemma_slot_unrelated(m, seen, k, s[a]);
    }
}

/// A stream whose application already has a slot updates that slot's choice.
proof fn lemma_step_found(
    m: Map<u32, AudioNode>,
    seen: Set<u32>,
    k: u32,
    s: Seq<Slot>,
    j: int,
    s2: Seq<Slot>,
)
    requires
        slots_inv(m, seen, s),
        m.contains_key(k),
        is_app_stream(m[k].node_type),
        0 <= j < s.len(),
        s[j].name@ == m[k].description@,
        s2.len() == s.len(),
        forall|a: int| 0 <= a < s.len() && a != j ==> s2[a] == s[a],
        s2[j].name == s[j].name,
        m[k].node_type == NodeType::App ==> s2[j].cap == s[j].cap && s2[j].play == (match s[j].play {
            None => Some(k),
            Some(p) => if outranks(k, m[k], p, m[p]) {
                Some(k)
            } else {
                Some(p)
            },
        }),
        m[k].node_type == NodeType::AppInput ==> s2[j].play == s[j].play && s2[j].cap == (match s[j].cap {
            None => Some(k),
            Some(p) => if outranks(k, m[k], p, m[p]) {
                Some(k)
            } else {
                Some(p)
            },
        }),
    ensures
        slots_inv(m, seen.insert(k), s2),
{
    let d = m[k].description@;
    assert(slot_ok(m, seen, s[j]));
    assert forall|a: int, b: int| 0 <= a < b < s2.len() implies lex_lt(#[trigger] s2[a].name@, #[trigger] s2[b].name@) by {
        assert(lex_lt(s[a].name@, s[b].name@));
    }
    assert forall|a: int| 0 <= a < s2.len() implies slot_ok(m, seen.insert(k), #[trigger] s2[a]) by {
        if a != j {
            assert(slot_ok(m, seen, s[a]));
            if s[a].name@ == d {
                lemma_lex_irreflexive(d);
                if a < j {
                    assert(lex_lt(s[a].name@, s[j].name@));
                } else {
                    assert(lex_lt(s[j].name@, s[a].name@));
                }
            }
            lemma_slot_unrelated(m, seen, k, s[a]);
        } else if m[k].node_type == NodeType::App {
            lemma_choose_step(m, seen, k, NodeType::App, d, s[j].play, s2[j].play);
            lemma_unrelated_key(m, seen, k, NodeType::AppInput, d);
        } else {
            lemma_choose_step(m, seen, k, NodeType::AppInput, d, s[j].cap, s2[j].cap);
            lemma_unrelated_key(m, seen, k, NodeType::App, d);
        }
    }
    assert forall|x: u32|
        #![trigger m[x]]
        seen.insert(k).contains(x) && m.contains_key(x) && is_app_stream(m[x].node_type) implies exists|a: int|
            0 <= a < s2.len() && #[trigger] s2[a].name@ == m[x].description@ by {
        if x == k {
            assert(s2[j].name@ == m[x].description@);
        } else {
            let a = choose|a: int| 0 <= a < s.len() && #[trigger] s[a].name@ == m[x].description@;
            assert(s2[a].name@ == m[x].description@);
        }
    }
}

/// A stream of an application without a slot gets a new slot at `pos`.
proof fn lemma_step_new(
    m: Map<u32, AudioNode>,
    seen: Set<u32>,
    k: u32,
    s: Seq<Slot>,
    pos: int,
    sl: Slot,
)
    requires
        slots_inv(m, seen, s),
        m.contains_key(k),
        is_app_stream(m[k].node_type),
        0 <= pos <= s.len(),
        sl.name@ == m[k].description@,
        forall|a: int| 0 <= a < pos ==> lex_lt(#[trigger] s[a].name@, sl.name@),
        forall|a: int| 0 <= a < s.len() ==> #[trigger] s[a].name@ != sl.name@,
        pos < s.len() ==> lex_lt(sl.name@, s[pos].name@),
        sl.play == (if m[k].node_type == NodeType::App { Some(k) } else { None::<u32> }),
        sl.cap == (if m[k].node_type == NodeType::AppInput { Some(k) } else { None::<u32> }),
    ensures
        slots_inv(m, seen.insert(k), s.insert(pos, sl)),
{
    let d = sl.name@;
    lemma_insert_sorted(s, pos, sl);
    lemma_no_stream_without_slot(m, seen, s, NodeType::App, d);
    lemma_no_stream_without_slot(m, seen, s, NodeType::AppInput, d);
    lemma_new_slots_ok(m, seen, k, s, pos, sl);
    lemma_new_slots_cover(m, seen, k, s, pos, sl);
}

/// A name that no slot carries has no stream among `seen`.
proof fn lemma_no_stream_without_slot(m: Map<u32, AudioNode>, seen: Set<u32>, s: Seq<Slot>, t: NodeType, d: Seq<char>)
    requires
        slots_inv(m, seen, s),
        is_app_stream(t),
        forall|a: int| 0 <= a < s.len() ==> #[trigger] s[a].name@ != d,
    ensures
        !has_stream_in(m, seen, t, d),
{
    if has_stream_in(m, seen, t, d) {
        let x = choose|x: u32| stream_in(m, seen, t, d, x);
        assert(is_app_stream(m[x].node_type));
        let a = choose|a: int| 0 <= a < s.len() && #[trigger] s[a].name@ == m[x].description@;
        assert(s[a].name@ != d);
    }
}

proof fn lemma_new_slots_ok(m: Map<u32, AudioNode>, seen: Set<u32>, k: u32, s: Seq<Slot>, pos: int, sl: Slot)
    requires
        forall|a: int| 0 <= a < s.len() ==> slot_ok(m, seen, #[trigger] s[a]),
        m.contains_key(k),
        is_app_stream(m[k].node_type),
        0 <= pos <= s.len(),
        sl.name@ == m[k].description@,
        forall|a: int| 0 <= a < s.len() ==> #[trigger] s[a].name@ != sl.name@,
        !has_stream_in(m, seen, NodeType::App, sl.name@),
        !has_stream_in(m, seen, NodeType::AppInput, sl.name@),
        sl.play == (if m[k].node_type == NodeType::App { Some(k) } else { None::<u32> }),
        sl.cap == (if m[k].node_type == NodeType::AppInput { Some(k) } else { None::<u32> }),
    ensures
        forall|a: int| 0 <= a < s.len() + 1 ==> slot_ok(m, seen.insert(k), #[trigger] s.insert(pos, sl)[a]),
{
    let d = sl.name@;
    let s2 = s.insert(pos, sl);
    assert forall|a: int| 0 <= a < s2.len() implies slot_ok(m, seen.insert(k), #[trigger] s2[a]) by {
        if a == pos {
            assert(s2[a] == sl);
            if m[k].node_type == NodeType::App {
                lemma_choose_step(m, seen, k, NodeType::App, d, None, Some(k));
                lemma_unrelated_key(m, seen, k, NodeType::AppInput, d);
            } else {
                lemma_choose_step(m, seen, k, NodeType::AppInput, d, None, Some(k));
                lemma_unrelated_key(m, seen, k, NodeType::App, d);
            }
        } else {
            let b = if a < pos { a } else { a - 1 };
            assert(s2[a] == s[b]);
            assert(slot_ok(m, seen, s[b]));
            assert(s[b].name@ != d);
            lemma_slot_unrelated(m, seen, k, s[b]);
        }
    }
}

proof fn lemma_new_slots_cover(m: Map<u32, AudioNode>, seen: Set<u32>, k: u32, s: Seq<Slot>, pos: int, sl: Slot)
    requires
        forall|x: u32|
            #![trigger m[x]]
            seen.contains(x) && m.contains_key(x) && is_app_stream(m[x].node_type) ==> exists|a: int|
                0 <= a < s.len() && #[trigger] s[a].name@ == m[x].description@,
        m.contains_key(k),
        0 <= pos <= s.len(),
        sl.name@ == m[k].description@,
    ensures
        forall|x: u32|
            #![trigger m[x]]
            seen.insert(k).contains(x) && m.contains_key(x) && is_app_stream(m[x].node_type) ==> exists|a: int|
                0 <= a < s.len() + 1 && #[trigger] s.insert(pos, sl)[a].name@ == m[x].description@,
{
    let s2 = s.insert(pos, sl);
    assert forall|x: u32|
        #![trigger m[x]]
        seen.insert(k).contains(x) && m.contains_key(x) && is_app_stream(m[x].node_type) implies exists|a: int|
            0 <= a < s2.len() && #[trigger] s2[a].name@ == m[x].description@ by {
        if x == k {
            assert(s2[pos].name@ == m[x].description@);
        } else {
            let a = choose|a: int| 0 <= a < s.len() && #[trigger] s[a].name@ == m[x].description@;
            if a < pos {
                assert(s2[a].name@ == m[x].description@);
            } else {
                assert(s2[a + 1].name@ == m[x].description@);
            }
        }
    }
}

/// Where `d` belongs among sorted slots: every slot before `pos` sorts
/// below `d`; `found` tells whether the slot at `pos` is `d` itself,
/// otherwise the slot at `pos`, if any, sorts above it.
fn find_slot(slots: &Vec<Slot>, d: &Vec<char>) -> (r: (usize, bool))
    requires
        slots_sorted(slots@),
    ensures
        r.0 <= slots@.len(),
        forall|a: int| 0 <= a < r.0 ==> lex_lt(#[trigger] slots@[a].name@, d@),
        r.1 ==> r.0 < slots@.len() && slots@[r.0 as int].name@ == d@,
        !r.1 ==> forall|a: int| 0 <= a < slots@.len() ==> #[trigger] slots@[a].name@ != d@,
        !r.1 && r.0 < slots@.len() ==> lex_lt(d@, slots@[r.0 as int].name@),
{
    let mut j: usize = 0;
    while j < slots.len()
        invariant
            j <= slots@.len(),
            slots_sorted(slots@),
            forall|a: int| 0 <= a < j ==> lex_lt(#[trigger] slots@[a].name@, d@),
        decreases slots.len() - j,
    {
        let o = compare_chars(&slots[j].name, d);
        if o == CharOrder::Equal {
            return (j, true);
        } else if o == CharOrder::Greater {
            proof {
                assert forall|a: int| 0 <= a < slots@.len() implies #[trigger] slots@[a].name@ != d@ by {
                    if a < j {
                        lemma_lex_irreflexive(d@);
                    } else if a == j {
                        lemma_lex_irreflexive(d@);
                    } else {
                        lemma_lex_transitive(d@, slots@[j as int].name@, slots@[a].name@);
                        lemma_lex_irreflexive(d@);
                    }
                }
            }
            return (j, false);
        }
        j = j + 1;
    }
    proof {
        assert forall|a: int| 0 <= a < slots@.len() implies #[trigger] slots@[a].name@ != d@ by {
            lemma_lex_irreflexive(d@);
        }
    }
    (j, false)
}

impl MixerState {
    /// Folds one node, filed under `k`, into the slot of its application.
    fn choose_for_slot(&self, cur: Option<u32>, k: u32) -> (r: Option<u32>)
        requires
            self.nodes@.contains_key(k),
            cur matches Some(p) ==> self.nodes@.contains_key(p),
        ensures
            r == (match cur {
                None => Some(k),
                Some(p) => if outranks(k, self.nodes@[k], p, self.nodes@[p]) {
                    Some(k)
                } else {
                    Some(p)
                },
            }),
    {
        match cur {
            None => Some(k),
            Some(p) => {
                let a = self.nodes.get(&k).unwrap();
                let b = self.nodes.get(&p).unwrap();
                if outranks_exec(k, a, p, b) {
                    Some(k)
                } else {
                    Some(p)
                }
            },
        }
    }

    /// Groups playback and capture streams by their display name, one card
    /// per application, sorted by name.
    pub fn app_groups(&self) -> (r: Vec<AppGroup>)
        ensures
            sorted_by_name(r@),
            forall|a: int| 0 <= a < r@.len() ==> describes_group(self.nodes@, #[trigger] r@[a]),
            covers_apps(self.nodes@, r@),
    {
        let ghost m = self.nodes@;
        let keys = walk_keys(&self.nodes);
        let mut slots: Vec<Slot> = Vec::new();
        let ghost mut seen: Set<u32> = Set::empty();
        let mut i: usize = 0;
        while i < keys.len()
            invariant
                m == self.nodes@,
                i <= keys.len(),
                keys@.no_duplicates(),
                forall|k: u32| keys@.contains(k) <==> m.contains_key(k),
                forall|k: u32| seen.contains(k) <==> keys@.take(i as int).contains(k),
                slots_inv(m, seen, slots@),
            decreases keys.len() - i,
        {
            let k = keys[i];
            assert(keys@.contains(k));
            assert(keys@.take(i + 1) == keys@.take(i as int).push(k));
            let ghost old_seen = seen;
            let ghost old_slots = slots@;
            let n = self.nodes.get(&k).unwrap();
            let t = n.node_type;
            if t == NodeType::App || t == NodeType::AppInput {
                let d = chars_of(n.description.as_str());
                let (j, found) = find_slot(&slots, &d);
                if found {
                    if t == NodeType::App {
                        let np = self.choose_for_slot(slots[j].play, k);
                        slots[j].play = np;
                    } else {
                        let nc = self.choose_for_slot(slots[j].cap, k);
                        slots[j].cap = nc;
                    }
                    proof {
                        lemma_step_found(m, old_seen, k, old_slots, j as int, slots@);
                    }
                } else {
                    let sl = Slot {
                        name: d,
                        play: if t == NodeType::App { Some(k) } else { None },
                        cap: if t == NodeType::AppInput { Some(k) } else { None },
                    };
                    proof {
                        lemma_step_new(m, old_seen, k, old_slots, j as int, sl);
                    }
                    slots.insert(j, sl);
                }
            } else {
                proof {
                    lemma_step_other(m, old_seen, k, old_slots);
                }
            }
            proof {
                seen = seen.insert(k);
            }
            i = i + 1;
        }
        assert(seen =~= m.dom()) by {
            assert(keys@.take(keys.len() as int) == keys@);
        }
        let mut r: Vec<AppGroup> = Vec::new();
        let mut a: usize = 0;
        while a < slots.len()
            invariant
                m == self.nodes@,
                slots_inv(m, m.dom(), slots@),
                a <= slots.len(),
                r@.len() == a,
                forall|b: int| 0 <= b < a ==> (#[trigger] r@[b]).name@ == slots@[b].name@,
                forall|b: int| 0 <= b < a ==> describes_group(m, #[trigger] r@[b]),
            decreases slots.len() - a,
        {
            let g = self.group_of(&slots[a]);
            r.push(g);
            a = a + 1;
        }
        assert forall|x: int, y: int| 0 <= x < y < r@.len() implies lex_lt(#[trigger] r@[x].name@, #[trigger] r@[y].name@) by {
            assert(lex_lt(slots@[x].name@, slots@[y].name@));
        }
        assert forall|k: u32|
            #![trigger m[k]]
            m.contains_key(k) && (m[k].node_type == NodeType::App || m[k].node_type == NodeType::AppInput)
                implies exists|b: int| 0 <= b < r@.len() && #[trigger] r@[b].name@ == m[k].description@ by {
            assert(is_app_stream(m[k].node_type));
            let b = choose|b: int| 0 <= b < slots@.len() && #[trigger] slots@[b].name@ == m[k].description@;
            assert(r@[b].name@ == m[k].description@);
        }
        r
    }

    /// The card of the application a finished slot stands for.
    fn group_of(&self, sl: &Slot) -> (g: AppGroup)
        requires
            slot_ok(self.nodes@, self.nodes@.dom(), *sl),
        ensures
            g.name@ == sl.name@,
            describes_group(self.nodes@, g),
    {
        let ghost m = self.nodes@;
        let ghost d = sl.name@;
        let name = string_of(&sl.name);
        let playback_id: Option<u32> = match sl.play {
            Some(p) => Some(self.nodes.get(&p).unwrap().id),
            None => None,
        };
        let capture_id: Option<u32> = match sl.cap {
            Some(c) => Some(self.nodes.get(&c).unwrap().id),
            None => None,
        };
        let source: u32 = match sl.play {
            Some(p) => p,
            None => sl.cap.unwrap(),
        };
        let n = self.nodes.get(&source).unwrap();
        let icon = if playback_id.is_some() && capture_id.is_some() {
            AppIcon::Speaker
        } else if capture_id.is_some() {
            AppIcon::Mic
        } else {
            AppIcon::Music
        };
        let g = AppGroup {
            name,
            node_name: n.name.clone(),
            playback_id,
            capture_id,
            volume: n.volume,
            muted: n.muted,
            icon,
        };
        proof {
            assert(g.name@ == d);
            if let Some(p) = sl.play {
                assert(chosen_stream(m, NodeType::App, d, p));
                assert(source == p);
                assert(takes_settings(g, m[p]));
                assert(chosen_stream(m, NodeType::App, d, p) && m[p].id == g.playback_id->0 && takes_settings(g, m[p]));
            } else {
                assert(!has_stream(m, NodeType::App, d));
            }
            if let Some(c) = sl.cap {
                assert(chosen_stream(m, NodeType::AppInput, d, c));
                assert(sl.play is None ==> source == c);
                assert(chosen_stream(m, NodeType::AppInput, d, c) && m[c].id == g.capture_id->0 && (g.playback_id is None ==> takes_settings(g, m[c])));
            } else {
                assert(!has_stream(m, NodeType::AppInput, d));
            }
        }
        g
    }

}

} // verus!
