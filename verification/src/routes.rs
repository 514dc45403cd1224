//! The links the user made from applications to devices, kept so that they
//! can be made again when a device comes back (headphones plugged in again)
//! and taken away when the mixer closes.
use vstd::prelude::*;
use crate::commands::{args_view, pairs_view, runs_view, unlink_args, unlink_run};
use crate::models::{AudioNode, EngineCommand, NodeType};

verus! {

/// A pair of node names: application first, device second.
pub type NamePair = (Seq<char>, Seq<char>);

/// `book` with every copy of `p` taken out, the rest in order.
pub open spec fn drop_pair(book: Seq<NamePair>, p: NamePair) -> Seq<NamePair>
    decreases book.len(),
{
    if book.len() == 0 {
        book
    } else if book.last() == p {
        drop_pair(book.drop_last(), p)
    } else {
        drop_pair(book.drop_last(), p).push(book.last())
    }
}

/// The pairs of `book` that lead to the device named `device`, in order.
pub open spec fn pairs_to(book: Seq<NamePair>, device: Seq<char>) -> Seq<NamePair>
    decreases book.len(),
{
    if book.len() == 0 {
        book
    } else if book.last().1 == device {
        pairs_to(book.drop_last(), device).push(book.last())
    } else {
        pairs_to(book.drop_last(), device)
    }
}

/// The book after the mixer sent `cmd`: a new link is written down once, a
/// removed one is struck out, every other command leaves the book alone.
pub open spec fn book_after(book: Seq<NamePair>, cmd: EngineCommand) -> Seq<NamePair> {
    match cmd {
        EngineCommand::CreateLink { from_name, to_name } => {
            if book.contains((from_name@, to_name@)) {
                book
            } else {
                book.push((from_name@, to_name@))
            }
        },
        EngineCommand::RemoveLink { from_name, to_name } => drop_pair(book, (from_name@, to_name@)),
        _ => book,
    }
}

/// No pair is written down twice.
pub open spec fn distinct_pairs(book: Seq<NamePair>) -> bool {
    forall|a: int, b: int| 0 <= a < b < book.len() ==> #[trigger] book[a] != #[trigger] book[b]
}

/// The `pw-link -d` invocations that take every link of the book away.
pub open spec fn unlink_all(book: Seq<NamePair>) -> Seq<Seq<Seq<char>>> {
    book.map_values(|p: NamePair| unlink_run(p.0, p.1))
}

/// The links the user asked for, as (application node name, device node
/// name), oldest first.
#[derive(Debug)]
pub struct RouteBook {
    pub pairs: Vec<(String, String)>,
}

impl View for RouteBook {
    type V = Seq<NamePair>;

    open spec fn view(&self) -> Seq<NamePair> {
        pairs_view(self.pairs@)
    }
}

impl RouteBook {
    pub fn new() -> (b: Self)
        ensures
            b@ == Seq::<NamePair>::empty(),
    {
        let b = RouteBook { pairs: Vec::new() };
        assert(b@ =~= Seq::<NamePair>::empty());
        b
    }

    /// Whether the pair (`from_name`, `to_name`) is written down.
    pub fn holds(&self, from_name: &String, to_name: &String) -> (r: bool)
        ensures
            r == self@.contains((from_name@, to_name@)),
    {
        let ghost v = self@;
        let ghost p = (from_name@, to_name@);
        let mut i: usize = 0;
        while i < self.pairs.len()
            invariant
                v == self@,
                v.len() == self.pairs@.len(),
                i <= self.pairs@.len(),
                p == (from_name@, to_name@),
                forall|j: int| 0 <= j < i ==> v[j] != p,
            decreases self.pairs.len() - i,
        {
            assert(v[i as int] == (self.pairs@[i as int].0@, self.pairs@[i as int].1@));
            let same_from = self.pairs[i].0 == *from_name;
            let same_to = self.pairs[i].1 == *to_name;
            if same_from && same_to {
                assert(v[i as int] == p);
                return true;
            }
            assert(v[i as int] != p);
            i = i + 1;
        }
        assert(!v.contains(p));
        false
    }

    /// Writes down what `cmd` does to the links between applications and
    /// devices.
    pub fn record(&mut self, cmd: &EngineCommand)
        ensures
            final(self)@ == book_after(old(self)@, *cmd),
    {
        match cmd {
            EngineCommand::CreateLink { from_name, to_name } => {
                if !self.holds(from_name, to_name) {
                    let ghost v = self@;
                    self.pairs.push((from_name.clone(), to_name.clone()));
                    assert(self@ =~= v.push((from_name@, to_name@)));
                }
            },
            EngineCommand::RemoveLink { from_name, to_name } => {
                let ghost v = self@;
                let ghost p = (from_name@, to_name@);
                let mut kept: Vec<(String, String)> = Vec::new();
                let mut i: usize = 0;
                while i < self.pairs.len()
                    invariant
                        v == self@,
                        v.len() == self.pairs@.len(),
                        i <= self.pairs@.len(),
                        p == (from_name@, to_name@),
                        pairs_view(kept@) == drop_pair(v.take(i as int), p),
                    decreases self.pairs.len() - i,
                {
                    assert(v.take(i + 1).drop_last() =~= v.take(i as int));
                    assert(v[i as int] == (self.pairs@[i as int].0@, self.pairs@[i as int].1@));
                    let same_from = self.pairs[i].0 == *from_name;
                    let same_to = self.pairs[i].1 == *to_name;
                    assert((same_from && same_to) <==> v[i as int] == p);
                    if !(same_from && same_to) {
                        let ghost before = kept@;
                        kept.push((self.pairs[i].0.clone(), self.pairs[i].1.clone()));
                        assert(pairs_view(kept@) =~= pairs_view(before).push(v[i as int]));
                    }
                    i = i + 1;
                }
                assert(v.take(v.len() as int) =~= v);
                self.pairs = kept;
            },
            _ => {},
        }
    }

    /// What to send when `device` appears in the graph: the links written
    /// down for it, if it is an output device and there are any.
    pub fn restore_for(&self, device: &AudioNode) -> (r: Option<EngineCommand>)
        ensures
            match r {
                Some(EngineCommand::RestoreLinks { pairs }) => {
                    &&& device.node_type == NodeType::OutputDevice
                    &&& pairs_to(self@, device.name@).len() > 0
                    &&& pairs_view(pairs@) == pairs_to(self@, device.name@)
                },
                Some(_) => false,
                None => device.node_type != NodeType::OutputDevice || pairs_to(self@, device.name@).len() == 0,
            },
    {
        if device.node_type != NodeType::OutputDevice {
            return None;
        }
        let ghost v = self@;
        let ghost d = device.name@;
        let mut found: Vec<(String, String)> = Vec::new();
        let mut i: usize = 0;
        while i < self.pairs.len()
            invariant
                v == self@,
                v.len() == self.pairs@.len(),
                i <= self.pairs@.len(),
                d == device.name@,
                pairs_view(found@) == pairs_to(v.take(i as int), d),
            decreases self.pairs.len() - i,
        {
            assert(v.take(i + 1).drop_last() =~= v.take(i as int));
            assert(v[i as int] == (self.pairs@[i as int].0@, self.pairs@[i as int].1@));
            if self.pairs[i].1 == device.name {
                let ghost before = found@;
                found.push((self.pairs[i].0.clone(), self.pairs[i].1.clone()));
                assert(pairs_view(found@) =~= pairs_view(before).push(v[i as int]));
            }
            i = i + 1;
        }
        assert(v.take(v.len() as int) =~= v);
        if found.len() == 0 {
            None
        } else {
            Some(EngineCommand::RestoreLinks { pairs: found })
        }
    }

    /// The invocations that take every written-down link away, oldest
    /// first, for when the mixer closes.
    pub fn unlink_runs(&self) -> (r: Vec<Vec<String>>)
        ensures
            runs_view(r@) == unlink_all(self@),
    {
        let ghost v = self@;
        let mut r: Vec<Vec<String>> = Vec::new();
        let mut i: usize = 0;
        while i < self.pairs.len()
            invariant
                v == self@,
                v.len() == self.pairs@.len(),
                i <= self.pairs@.len(),
                runs_view(r@) == unlink_all(v.take(i as int)),
            decreases self.pairs.len() - i,
        {
            assert(v[i as int] == (self.pairs@[i as int].0@, self.pairs@[i as int].1@));
            let ghost before = r@;
            let args = unlink_args(&self.pairs[i].0, &self.pairs[i].1);
            r.push(args);
            assert(runs_view(r@) =~= runs_view(before).push(args_view(args@)));
            assert(unlink_all(v.take(i + 1)) =~= unlink_all(v.take(i as int)).push(unlink_run(v[i as int].0, v[i as int].1)));
            i = i + 1;
        }
        assert(v.take(v.len() as int) =~= v);
        r
    }
}

} // verus!
