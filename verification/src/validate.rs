//! Checking that a record that came from outside is valid, before it is
//! worked on.

use crate::cchain_stats::value_well_formed;
use crate::keyed::{all_valid, distinct, Aggregate, Keyed};
use crate::stats_rec::{keys_match, ChainEntry, MethodStatsValue, StatsRec};
use crate::text::{find_name, lemma_index_of, string_views};
use crate::trace::Trace;
use vstd::prelude::*;

verus! {

/// Whether no key stands twice.
pub fn keys_distinct(keys: &Vec<String>) -> (r: bool)
    ensures
        r == distinct(string_views(keys@)),
{
    let ghost ks = string_views(keys@);
    let mut i: usize = 0;
    while i < keys.len()
        invariant
            i <= keys.len(),
            ks == string_views(keys@),
            forall|a: int, b: int| 0 <= a < b < ks.len() && b < i ==> ks[a] != ks[b],
        decreases keys.len() - i,
    {
        let first = find_name(keys, keys[i].as_str());
        proof {
            lemma_index_of(ks, ks[i as int]);
        }
        if first != i {
            assert(ks[first as int] == ks[i as int]);
            return false;
        }
        i += 1;
    }
    true
}

/// Whether the keys and values of a map of operations run in parallel, no
/// key stands twice, and every aggregate counts its calls.
pub fn operations_valid(operations: &Keyed<MethodStatsValue>) -> (r: bool)
    ensures
        r == all_valid(*operations),
{
    if operations.keys.len() != operations.values.len() {
        return false;
    }
    if !keys_distinct(&operations.keys) {
        return false;
    }
    let mut i: usize = 0;
    while i < operations.values.len()
        invariant
            i <= operations.values.len(),
            forall|j: int|
                0 <= j < i ==> <MethodStatsValue as Aggregate>::valid(
                    (#[trigger] operations.values@[j]).plain(),
                ),
        decreases operations.values.len() - i,
    {
        let v = &operations.values[i];
        if !(v.count == v.duration_micros.len() && v.count == v.start_dt_micros.len()
            && v.num_not_http_ok <= v.count && v.num_with_error_logs <= v.count) {
            return false;
        }
        i += 1;
    }
    true
}

/// Whether the keys and values of a chain map run in parallel, no key
/// stands twice, every chain holds a call, stands under the text of its
/// key, and counts its sightings.
pub fn chains_valid(chains: &Keyed<ChainEntry>) -> (r: bool)
    ensures
        r == (all_valid(*chains) && keys_match(*chains)),
{
    if chains.keys.len() != chains.values.len() {
        return false;
    }
    if !keys_distinct(&chains.keys) {
        return false;
    }
    let mut i: usize = 0;
    while i < chains.values.len()
        invariant
            i <= chains.values.len(),
            chains.keys.len() == chains.values.len(),
            forall|j: int|
                0 <= j < i ==> {
                    let e = #[trigger] chains.values@[j];
                    &&& <ChainEntry as Aggregate>::valid(e.plain())
                    &&& chains.keys@[j]@ == crate::chain_key::key_text(
                        e@.key.chain,
                        e@.key.caching_process,
                        e@.key.is_leaf,
                    )
                },
        decreases chains.values.len() - i,
    {
        let e = &chains.values[i];
        let v = &e.value;
        if e.key.call_chain.len() == 0 {
            assert(!<ChainEntry as Aggregate>::valid(chains.values@[i as int].plain()));
            return false;
        }
        if !(v.count == v.duration_micros.len() && v.count == v.start_dt_micros.len()
            && v.cc_not_http_ok <= v.count && v.cc_with_error_log <= v.count) {
            assert(!value_well_formed(chains.values@[i as int]@.value));
            return false;
        }
        if !(e.key.call_chain_key() == chains.keys[i]) {
            return false;
        }
        i += 1;
    }
    true
}

impl Trace {
    /// Whether the trace is valid.
    pub fn is_valid(&self) -> (r: bool)
        ensures
            r == self.well_formed(),
    {
        match self.root {
            Some(root) => {
                if root >= self.spans.len() {
                    return false;
                }
            },
            None => {},
        }
        let mut i: usize = 0;
        while i < self.spans.len()
            invariant
                i <= self.spans.len(),
                forall|j: int|
                    0 <= j < i ==> ((#[trigger] self.spans@[j]).parent matches Some(p) ==> p
                        < self.spans.len() && p != j),
            decreases self.spans.len() - i,
        {
            match self.spans[i].parent {
                Some(p) => {
                    if p >= self.spans.len() || p == i {
                        return false;
                    }
                },
                None => {},
            }
            i += 1;
        }
        true
    }
}

impl StatsRec {
    /// Whether the record is valid.
    pub fn is_valid(&self) -> (r: bool)
        ensures
            r == self.well_formed(),
    {
        self.num_files >= 0 && self.trace_id.len() == self.duration_micros.len()
            && self.trace_id.len() == self.start_dt_micros.len() && operations_valid(
            &self.operations,
        ) && chains_valid(&self.call_chains)
    }
}

} // verus!
