//! Read-only questions the mixer asks of its graph.

use std::collections::HashMap;
use vstd::prelude::*;
use crate::models::{AudioNode, LinkInfo, MixerState, NodeType};

verus! {

broadcast use {vstd::std_specs::hash::group_hash_axioms, vstd::seq_lib::group_seq_properties};

/// The keys of a map, once each, in the order the map walks them.
pub fn walk_keys<V>(m: &HashMap<u32, V>) -> (r: Vec<u32>)
    ensures
        r@.no_duplicates(),
        forall|k: u32| r@.contains(k) <==> m@.contains_key(k),
{
    let mut r: Vec<u32> = Vec::new();
    let ghost s = vstd::std_specs::iter::IteratorSpec::remaining(
        &vstd::std_specs::hash::spec_hash_map_iter(m),
    );
    for (k, v) in it: m.iter()
        invariant
            it.seq() == s,
            r@ == it.seq().take(it.index()).map_values(|p: (&u32, &V)| *p.0),
    {
        r.push(*k);
    }
    assert(r@ == s.map_values(|p: (&u32, &V)| *p.0));
    assert(s.no_duplicates());
    assert forall|k: u32| m@.contains_key(k) implies r@.contains(k) by {
        assert(s.contains((&k, &m@[k])));
        let i = choose|i: int| 0 <= i < s.len() && s[i] == (&k, &m@[k]);
        assert(r@[i] == k);
    }
    assert forall|k: u32| r@.contains(k) implies m@.contains_key(k) by {
        let i = choose|i: int| 0 <= i < r@.len() && r@[i] == k;
        assert(m@.contains_key(*s[i].0));
    }
    assert forall|i: int, j: int|
        0 <= i < r@.len() && 0 <= j < r@.len() && i != j implies r@[i] != r@[j] by {
        assert(m@.contains_key(*s[i].0) && m@[*s[i].0] == *s[i].1);
        assert(m@.contains_key(*s[j].0) && m@[*s[j].0] == *s[j].1);
    }
    r
}

/// Appending a new element keeps a sequence free of duplicates.
pub proof fn lemma_push_no_duplicates<A>(s: Seq<A>, x: A)
    requires
        s.no_duplicates(),
        !s.contains(x),
    ensures
        s.push(x).no_duplicates(),
{
    assert forall|a: int, b: int| 0 <= a < s.len() + 1 && 0 <= b < s.len() + 1 && a != b implies s.push(x)[a]
        != s.push(x)[b] by {
        if a < s.len() && b < s.len() {
            assert(s[a] != s[b]);
        } else if a < s.len() {
            assert(s.contains(s[a]));
        } else {
            assert(s.contains(s[b]));
        }
    }
}

/// Whether a node of type `t` is one of the two wanted kinds.
pub open spec fn is_kind(t: NodeType, first: NodeType, second: NodeType) -> bool {
    t == first || t == second
}

/// `r` lists, once each and in some order, exactly the nodes of `m` whose
/// type is `first` or `second`.
pub open spec fn lists_nodes_of(
    m: Map<u32, AudioNode>,
    r: Seq<&AudioNode>,
    first: NodeType,
    second: NodeType,
) -> bool {
    exists|ks: Seq<u32>|
        {
            &&& ks.no_duplicates()
            &&& ks.len() == r.len()
            &&& forall|k: u32|
                #[trigger] ks.contains(k) <==> m.contains_key(k) && is_kind(
                    m[k].node_type,
                    first,
                    second,
                )
            &&& forall|i: int| 0 <= i < r.len() ==> *r[i] == m[#[trigger] ks[i]]
        }
}

/// `k` is the smallest id of a link into capture stream `c`.
pub open spec fn is_first_feeder(links: Map<u32, LinkInfo>, c: u32, k: u32) -> bool {
    &&& links.contains_key(k)
    &&& links[k].input_node == c
    &&& forall|j: u32| #[trigger] links.contains_key(j) && links[j].input_node == c ==> k <= j
}

/// The node feeding capture stream `c`: the output node of the link into it
/// with the smallest id, if any link goes into it.
pub open spec fn input_feeder(links: Map<u32, LinkInfo>, c: u32) -> Option<u32> {
    if exists|k: u32| is_first_feeder(links, c, k) {
        Some(links[choose|k: u32| is_first_feeder(links, c, k)].output_node)
    } else {
        None
    }
}

/// There is at most one smallest feeding link, so `input_feeder` names its
/// output node.
pub proof fn lemma_first_feeder_unique(links: Map<u32, LinkInfo>, c: u32, k: u32)
    requires
        is_first_feeder(links, c, k),
    ensures
        input_feeder(links, c) == Some(links[k].output_node),
        forall|j: u32| is_first_feeder(links, c, j) ==> j == k,
{
    let w = choose|j: u32| is_first_feeder(links, c, j);
    assert(is_first_feeder(links, c, w));
    assert(w <= k && k <= w);
}

/// A link into capture stream `c` with id `k` or below means there is a
/// smallest one.
proof fn lemma_first_feeder_exists(links: Map<u32, LinkInfo>, c: u32, k: u32)
    requires
        links.contains_key(k),
        links[k].input_node == c,
    ensures
        exists|f: u32| is_first_feeder(links, c, f),
    decreases k,
{
    if forall|j: u32| #[trigger] links.contains_key(j) && links[j].input_node == c ==> k <= j {
        assert(is_first_feeder(links, c, k));
    } else {
        let j = choose|j: u32| #[trigger] links.contains_key(j) && links[j].input_node == c && j < k;
        lemma_first_feeder_exists(links, c, j);
    }
}

/// A feeder is named exactly when some link goes into capture stream `c`,
/// and it is the output node of the smallest such link.
pub proof fn lemma_feeder_exists(links: Map<u32, LinkInfo>, c: u32)
    ensures
        input_feeder(links, c) is Some <==> exists|k: u32| #[trigger] links.contains_key(k) && links[k].input_node == c,
        input_feeder(links, c) matches Some(o) ==> exists|k: u32| is_first_feeder(links, c, k) && links[k].output_node == o,
{
    if exists|k: u32| #[trigger] links.contains_key(k) && links[k].input_node == c {
        let k = choose|k: u32| #[trigger] links.contains_key(k) && links[k].input_node == c;
        lemma_first_feeder_exists(links, c, k);
    }
    if input_feeder(links, c) is Some {
        let w = choose|j: u32| is_first_feeder(links, c, j);
        assert(links.contains_key(w));
    }
}

/// The output nodes of the links from `from`, once each.
pub open spec fn link_targets(links: Map<u32, LinkInfo>, from: u32) -> Set<u32> {
    Set::new(
        |d: u32|
            exists|k: u32|
                #[trigger] links.contains_key(k) && links[k].output_node == from
                    && links[k].input_node == d,
    )
}

impl MixerState {
    fn nodes_of_kinds(&self, first: NodeType, second: NodeType) -> (r: Vec<&AudioNode>)
        ensures
            lists_nodes_of(self.nodes@, r@, first, second),
    {
        let keys = walk_keys(&self.nodes);
        let mut r: Vec<&AudioNode> = Vec::new();
        let ghost mut ks: Seq<u32> = Seq::empty();
        let mut i: usize = 0;
        while i < keys.len()
            invariant
                i <= keys.len(),
                keys@.no_duplicates(),
                forall|k: u32| keys@.contains(k) <==> self.nodes@.contains_key(k),
                ks.no_duplicates(),
                ks.len() == r@.len(),
                forall|k: u32|
                    #[trigger] ks.contains(k) <==> keys@.take(i as int).contains(k)
                        && is_kind(self.nodes@[k].node_type, first, second),
                forall|j: int| 0 <= j < r@.len() ==> *r@[j] == self.nodes@[#[trigger] ks[j]],
            decreases keys.len() - i,
        {
            let k = keys[i];
            assert(keys@.contains(k));
            let n = self.nodes.get(&k).unwrap();
            assert(keys@.take(i + 1) =~= keys@.take(i as int).push(k));
            assert(!keys@.take(i as int).contains(k));
            if n.node_type == first || n.node_type == second {
                r.push(n);
                proof {
                    lemma_push_no_duplicates(ks, k);
                    ks = ks.push(k);
                }
            }
            i = i + 1;
        }
        assert(keys@.take(keys.len() as int) =~= keys@);
        r
    }

    /// The applications playing audio.
    pub fn playback_apps(&self) -> (r: Vec<&AudioNode>)
        ensures
            lists_nodes_of(self.nodes@, r@, NodeType::App, NodeType::App),
    {
        self.nodes_of_kinds(NodeType::App, NodeType::App)
    }

    /// The sinks, the mixer's virtual buses included.
    pub fn output_devices(&self) -> (r: Vec<&AudioNode>)
        ensures
            lists_nodes_of(self.nodes@, r@, NodeType::OutputDevice, NodeType::VirtualBus),
    {
        self.nodes_of_kinds(NodeType::OutputDevice, NodeType::VirtualBus)
    }

    /// The sources.
    pub fn input_devices(&self) -> (r: Vec<&AudioNode>)
        ensures
            lists_nodes_of(self.nodes@, r@, NodeType::InputDevice, NodeType::InputDevice),
    {
        self.nodes_of_kinds(NodeType::InputDevice, NodeType::InputDevice)
    }

    /// The applications recording audio.
    pub fn app_inputs(&self) -> (r: Vec<&AudioNode>)
        ensures
            lists_nodes_of(self.nodes@, r@, NodeType::AppInput, NodeType::AppInput),
    {
        self.nodes_of_kinds(NodeType::AppInput, NodeType::AppInput)
    }

    /// The input device linked to a capture stream: capture links go from
    /// the device's output to the stream's input, so this is the output node
    /// of a link whose input node is `capture_id`. When several links feed
    /// the stream, the one with the smallest link id answers.
    pub fn capture_input_device(&self, capture_id: u32) -> (r: Option<u32>)
        ensures
            r == input_feeder(self.links@, capture_id),
    {
        let keys = walk_keys(&self.links);
        let mut best: Option<u32> = None;
        let mut i: usize = 0;
        while i < keys.len()
            invariant
                i <= keys.len(),
                forall|k: u32| keys@.contains(k) <==> self.links@.contains_key(k),
                match best {
                    None => forall|j: int|
                        0 <= j < i ==> self.links@[#[trigger] keys@[j]].input_node != capture_id,
                    Some(b) => self.links@.contains_key(b) && self.links@[b].input_node == capture_id
                        && forall|j: int|
                        0 <= j < i && self.links@[#[trigger] keys@[j]].input_node == capture_id ==> b
                            <= keys@[j],
                },
            decreases keys.len() - i,
        {
            let k = keys[i];
            assert(keys@.contains(k));
            let l = self.links.get(&k).unwrap();
            if l.input_node == capture_id {
                match best {
                    None => {
                        best = Some(k);
                    },
                    Some(b) => {
                        if k < b {
                            best = Some(k);
                        }
                    },
                }
            }
            i = i + 1;
        }
        proof {
            match best {
                None => {
                    assert forall|k: u32| !is_first_feeder(self.links@, capture_id, k) by {
                        if self.links@.contains_key(k) && self.links@[k].input_node == capture_id {
                            assert(keys@.contains(k));
                            let j = choose|j: int| 0 <= j < keys@.len() && keys@[j] == k;
                        }
                    }
                },
                Some(b) => {
                    assert forall|k: u32|
                        #[trigger] self.links@.contains_key(k) && self.links@[k].input_node == capture_id
                            implies b <= k by {
                        assert(keys@.contains(k));
                        let j = choose|j: int| 0 <= j < keys@.len() && keys@[j] == k;
                    }
                    assert(is_first_feeder(self.links@, capture_id, b));
                    lemma_first_feeder_unique(self.links@, capture_id, b);
                },
            }
        }
        match best {
            Some(b) => Some(self.links.get(&b).unwrap().output_node),
            None => None,
        }
    }

    /// The devices a playback stream is linked to, once each: PipeWire makes
    /// one link per channel, so the same device can be the target of several
    /// links.
    pub fn playback_output_devices(&self, playback_id: u32) -> (r: Vec<u32>)
        ensures
            r@.no_duplicates(),
            forall|d: u32| r@.contains(d) <==> link_targets(self.links@, playback_id).contains(d),
    {
        let keys = walk_keys(&self.links);
        let mut r: Vec<u32> = Vec::new();
        let mut i: usize = 0;
        while i < keys.len()
            invariant
                i <= keys.len(),
                forall|k: u32| keys@.contains(k) <==> self.links@.contains_key(k),
                r@.no_duplicates(),
                forall|d: u32|
                    r@.contains(d) <==> exists|j: int|
                        0 <= j < i && self.links@[#[trigger] keys@[j]].output_node == playback_id
                            && self.links@[keys@[j]].input_node == d,
            decreases keys.len() - i,
        {
            let k = keys[i];
            assert(keys@.contains(k));
            let l = self.links.get(&k).unwrap();
            if l.output_node == playback_id {
                let d = l.input_node;
                let mut seen = false;
                let mut j: usize = 0;
                while j < r.len()
                    invariant
                        j <= r.len(),
                        seen <==> r@.take(j as int).contains(d),
                    decreases r.len() - j,
                {
                    if r[j] == d {
                        seen = true;
                    }
                    assert(r@.take(j + 1) == r@.take(j as int).push(r@[j as int]));
                    j = j + 1;
                }
                assert(r@.take(r.len() as int) =~= r@);
                if !seen {
                    proof {
                        lemma_push_no_duplicates(r@, d);
                    }
                    r.push(d);
                }
                assert(self.links@[keys@[i as int]].input_node == d);
            }
            i = i + 1;
        }
        assert forall|x: u32| r@.contains(x) <==> link_targets(self.links@, playback_id).contains(x) by {
            if link_targets(self.links@, playback_id).contains(x) {
                let k = choose|k: u32|
                    #[trigger] self.links@.contains_key(k) && self.links@[k].output_node == playback_id
                        && self.links@[k].input_node == x;
                assert(keys@.contains(k));
                let j = choose|j: int| 0 <= j < keys@.len() && keys@[j] == k;
                assert(self.links@[keys@[j]].output_node == playback_id);
            }
            if r@.contains(x) {
                let j = choose|j: int|
                    0 <= j < keys@.len() && self.links@[#[trigger] keys@[j]].output_node == playback_id
                        && self.links@[keys@[j]].input_node == x;
                assert(keys@.contains(keys@[j]));
                assert(self.links@.contains_key(keys@[j]));
            }
        }
        r
    }
}

} // verus!
