//! The chains of a record by the process in which they end.

use crate::aggregate::entry_views;
use crate::lex::{insert_sorted, strictly_sorted};
use crate::stats_rec::{EntryView, StatsRec};
use crate::text::string_views;
use vstd::prelude::*;

verus! {

/// The process in which the chain of an entry ends.
pub open spec fn leaf_of(e: EntryView) -> Seq<char> {
    e.key.chain.last().process
}

/// Whether some entry ends in the process.
pub open spec fn is_leaf_process(entries: Seq<EntryView>, process: Seq<char>) -> bool {
    exists|i: int| 0 <= i < entries.len() && leaf_of(#[trigger] entries[i]) == process
}

/// The places, among the first `n` entries, of those that end in the
/// process, in ascending order.
pub open spec fn places_of_leaf(entries: Seq<EntryView>, process: Seq<char>, n: int) -> Seq<usize>
    decreases n,
{
    if n <= 0 {
        Seq::<usize>::empty()
    } else {
        let front = places_of_leaf(entries, process, n - 1);
        if leaf_of(entries[n - 1]) == process {
            front.push((n - 1) as usize)
        } else {
            front
        }
    }
}

impl StatsRec {
    /// The processes in which the chains of the record end, each once, in
    /// the order of a dictionary.
    pub fn leaf_processes(&self) -> (r: Vec<String>)
        requires
            self.well_formed(),
        ensures
            strictly_sorted(string_views(r@)),
            forall|t: Seq<char>|
                #![trigger string_views(r@).contains(t)]
                string_views(r@).contains(t) <==> is_leaf_process(
                    entry_views(self.call_chains),
                    t,
                ),
    {
        let ghost entries = entry_views(self.call_chains);
        let mut r: Vec<String> = Vec::new();
        let mut i: usize = 0;
        assert(string_views(r@) =~= Seq::<Seq<char>>::empty());
        while i < self.call_chains.values.len()
            invariant
                i <= self.call_chains.values.len(),
                self.well_formed(),
                entries == entry_views(self.call_chains),
                strictly_sorted(string_views(r@)),
                forall|t: Seq<char>|
                    #![trigger string_views(r@).contains(t)]
                    string_views(r@).contains(t) <==> is_leaf_process(entries.take(i as int), t),
            decreases self.call_chains.values.len() - i,
        {
            let entry = &self.call_chains.values[i];
            let ghost seen = entries.take(i as int);
            let ghost next = entries.take(i + 1);
            let ghost before = string_views(r@);
            assert(entries[i as int] == entry@);
            let process = entry.key.get_leaf_process();
            insert_sorted(&mut r, process.as_str());
            proof {
                assert forall|t: Seq<char>|
                    #![trigger string_views(r@).contains(t)]
                    string_views(r@).contains(t) <==> is_leaf_process(next, t) by {
                    assert(string_views(r@).contains(t) <==> before.contains(t) || t == process@);
                    assert(before.contains(t) <==> is_leaf_process(seen, t));
                    if is_leaf_process(seen, t) {
                        let x = choose|x: int|
                            0 <= x < seen.len() && leaf_of(#[trigger] seen[x]) == t;
                        assert(next[x] == seen[x]);
                    }
                    if t == process@ {
                        assert(leaf_of(next[i as int]) == t);
                    }
                    if is_leaf_process(next, t) {
                        let x = choose|x: int|
                            0 <= x < next.len() && leaf_of(#[trigger] next[x]) == t;
                        if x < i {
                            assert(seen[x] == next[x]);
                        }
                    }
                }
            }
            i += 1;
        }
        assert(entries.take(self.call_chains.values.len() as int) =~= entries);
        r
    }

    /// The places of the chains that end in the process, in ascending order.
    pub fn chains_of_leaf(&self, process: &str) -> (r: Vec<usize>)
        requires
            self.well_formed(),
        ensures
            r@ == places_of_leaf(
                entry_views(self.call_chains),
                process@,
                self.call_chains.values.len() as int,
            ),
    {
        let ghost entries = entry_views(self.call_chains);
        let wanted = process.to_owned();
        let mut r: Vec<usize> = Vec::new();
        let mut i: usize = 0;
        while i < self.call_chains.values.len()
            invariant
                i <= self.call_chains.values.len(),
                self.well_formed(),
                wanted@ == process@,
                entries == entry_views(self.call_chains),
                r@ == places_of_leaf(entries, process@, i as int),
            decreases self.call_chains.values.len() - i,
        {
            let entry = &self.call_chains.values[i];
            assert(entries[i as int] == entry@);
            if entry.key.get_leaf_process() == wanted {
                r.push(i);
            }
            i += 1;
        }
        r
    }
}

} // verus!
