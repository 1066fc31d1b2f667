//! One call chain of a data set, as the graph projection sees it.

use crate::call::CallView;
use crate::chain_key::{CChainStatsKey, KeyView};
use crate::stats_rec::StatsRec;
use vstd::prelude::*;

verus! {

/// A chain with the text of its key and the number of its sightings.
#[derive(Debug)]
pub struct TraceData {
    pub full_key: String,
    pub trace_path: CChainStatsKey,
    pub count: usize,
}

/// A chain of a data set as plain values.
pub struct TraceDataView {
    pub full_key: Seq<char>,
    pub key: KeyView,
    pub count: nat,
}

impl View for TraceData {
    type V = TraceDataView;

    open spec fn view(&self) -> TraceDataView {
        TraceDataView { full_key: self.full_key@, key: self.trace_path@, count: self.count as nat }
    }
}

/// The plain values of a list of chains.
pub open spec fn paths_view(paths: Seq<TraceData>) -> Seq<TraceDataView> {
    paths.map_values(|p: TraceData| p@)
}

/// The calls of each chain of a list.
pub open spec fn path_chains(paths: Seq<TraceDataView>) -> Seq<Seq<CallView>> {
    paths.map_values(|p: TraceDataView| p.key.chain)
}

/// The chains of a record, in the order of the record.
pub open spec fn record_paths(rec: StatsRec) -> Seq<TraceDataView> {
    Seq::new(
        rec.call_chains.values@.len(),
        |i: int|
            TraceDataView {
                full_key: rec.call_chains.keys@[i]@,
                key: rec.call_chains.values@[i].key@,
                count: rec.call_chains.values@[i].value.count as nat,
            },
    )
}

/// The chains of a data set, from the chains of a record.
pub struct TracePaths(pub Vec<TraceData>);

impl TracePaths {
    /// The chains of a record.
    pub fn from_stats_rec(rec: &StatsRec) -> (r: Self)
        requires
            rec.call_chains.keys.len() == rec.call_chains.values.len(),
        ensures
            paths_view(r.0@) == record_paths(*rec),
    {
        let mut paths: Vec<TraceData> = Vec::new();
        let mut i: usize = 0;
        while i < rec.call_chains.values.len()
            invariant
                i <= rec.call_chains.values.len(),
                rec.call_chains.keys.len() == rec.call_chains.values.len(),
                paths_view(paths@) == record_paths(*rec).take(i as int),
            decreases rec.call_chains.values.len() - i,
        {
            let entry = &rec.call_chains.values[i];
            let ghost before = paths@;
            let item = TraceData {
                full_key: rec.call_chains.keys[i].clone(),
                trace_path: entry.key.clone(),
                count: entry.value.count,
            };
            paths.push(item);
            assert(paths_view(paths@) =~= paths_view(before).push(item@));
            assert(paths_view(paths@) =~= record_paths(*rec).take(i + 1));
            i += 1;
        }
        assert(record_paths(*rec).take(rec.call_chains.values.len() as int) =~= record_paths(
            *rec,
        ));
        TracePaths(paths)
    }
}

} // verus!
