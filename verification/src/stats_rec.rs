//! The statistics of one input file or folder: its traces and, for each call
//! chain seen in them, the aggregate of that chain.

use crate::cchain_stats::{
    append_micros, append_names, merged_value, one_if, value_well_formed, CChainStatsValue,
    ValueView,
};
use crate::chain_key::{key_text, CChainStatsKey, KeyView};
use crate::keyed::{all_valid, combined_map, merge_keyed, plain_map, Aggregate, Keyed};
use crate::text::{index_of, lemma_index_of, string_views};
use vstd::multiset::Multiset;
use vstd::prelude::*;
use vstd::seq_lib::lemma_multiset_commutative;

verus! {

/// A chain key with its aggregate.
#[derive(Debug)]
pub struct ChainEntry {
    pub key: CChainStatsKey,
    pub value: CChainStatsValue,
}

/// What a chain entry holds, as plain values.
pub struct EntryView {
    pub key: KeyView,
    pub value: ValueView,
}

impl View for ChainEntry {
    type V = EntryView;

    open spec fn view(&self) -> EntryView {
        EntryView { key: self.key@, value: self.value@ }
    }
}

impl Clone for ChainEntry {
    fn clone(&self) -> (r: Self)
        ensures
            r@ == self@,
    {
        ChainEntry { key: self.key.clone(), value: self.value.clone() }
    }
}

impl Aggregate for ChainEntry {
    type Plain = EntryView;

    open spec fn plain(&self) -> EntryView {
        self@
    }

    open spec fn valid(plain: EntryView) -> bool {
        plain.key.chain.len() > 0 && value_well_formed(plain.value)
    }

    open spec fn combined(a: EntryView, b: EntryView) -> EntryView {
        EntryView { key: a.key, value: merged_value(a.value, b.value) }
    }

    fn copy(&self) -> (r: Self) {
        self.clone()
    }

    fn absorb(&mut self, other: &Self) {
        self.value.merge(&other.value);
    }
}

/// Two chain maps taken together: a chain of both has the key of the first
/// and the sightings of both, a chain of one is as it is there.
pub open spec fn merged_entries(a: Map<Seq<char>, EntryView>, b: Map<Seq<char>, EntryView>) -> Map<
    Seq<char>,
    EntryView,
> {
    combined_map::<ChainEntry>(a, b)
}

/// How often a chain was seen, and how long it took each time, in no order.
pub struct Totals {
    pub count: nat,
    pub durations: Multiset<i64>,
}

/// The totals of each chain of a map.
pub open spec fn totals_of(m: Map<Seq<char>, EntryView>) -> Map<Seq<char>, Totals> {
    m.map_values(
        |e: EntryView|
            Totals { count: e.value.count, durations: e.value.duration_micros.to_multiset() },
    )
}

/// The totals of two records taken together: counts add up, durations are
/// thrown together.
pub open spec fn merged_totals(a: Map<Seq<char>, Totals>, b: Map<Seq<char>, Totals>) -> Map<
    Seq<char>,
    Totals,
> {
    Map::new(
        |k: Seq<char>| a.dom().contains(k) || b.dom().contains(k),
        |k: Seq<char>|
            if a.dom().contains(k) && b.dom().contains(k) {
                Totals { count: a[k].count + b[k].count, durations: a[k].durations.add(b[k].durations) }
            } else if a.dom().contains(k) {
                a[k]
            } else {
                b[k]
            },
    )
}

/// The totals of merged chain maps are the merged totals of the two.
pub proof fn lemma_totals_of_merged(a: Map<Seq<char>, EntryView>, b: Map<Seq<char>, EntryView>)
    ensures
        totals_of(merged_entries(a, b)) == merged_totals(totals_of(a), totals_of(b)),
{
    let l = totals_of(merged_entries(a, b));
    let r = merged_totals(totals_of(a), totals_of(b));
    assert forall|k: Seq<char>| l.dom().contains(k) implies #[trigger] l[k] == r[k] by {
        if a.dom().contains(k) && b.dom().contains(k) {
            lemma_multiset_commutative(a[k].value.duration_micros, b[k].value.duration_micros);
        }
    }
    assert(l =~= r);
}

/// Merging two records gives the same counts and the same durations whichever
/// of the two comes first.
pub proof fn lemma_merged_totals_commute(a: Map<Seq<char>, Totals>, b: Map<Seq<char>, Totals>)
    ensures
        merged_totals(a, b) == merged_totals(b, a),
{
    let l = merged_totals(a, b);
    let r = merged_totals(b, a);
    assert forall|k: Seq<char>| l.dom().contains(k) implies #[trigger] l[k] == r[k] by {
        if a.dom().contains(k) && b.dom().contains(k) {
            assert(a[k].durations.add(b[k].durations) =~= b[k].durations.add(a[k].durations));
        }
    }
    assert(l =~= r);
}

/// Merging three records gives the same counts and the same durations
/// however the merges are grouped.
pub proof fn lemma_merged_totals_associate(
    a: Map<Seq<char>, Totals>,
    b: Map<Seq<char>, Totals>,
    c: Map<Seq<char>, Totals>,
)
    ensures
        merged_totals(merged_totals(a, b), c) == merged_totals(a, merged_totals(b, c)),
{
    let l = merged_totals(merged_totals(a, b), c);
    let r = merged_totals(a, merged_totals(b, c));
    assert forall|k: Seq<char>| l.dom().contains(k) implies #[trigger] l[k] == r[k] by {
        if a.dom().contains(k) && b.dom().contains(k) && c.dom().contains(k) {
            assert(a[k].durations.add(b[k].durations).add(c[k].durations) =~= a[k].durations.add(
                b[k].durations.add(c[k].durations),
            ));
        }
    }
    assert(l =~= r);
}

/// The aggregate of one operation of one process.
#[derive(Debug)]
pub struct MethodStatsValue {
    pub count: usize,
    pub duration_micros: Vec<i64>,
    /// Start times, in microseconds since the epoch.
    pub start_dt_micros: Vec<i64>,
    /// How many calls ended in an HTTP status outside 200..=299.
    pub num_not_http_ok: usize,
    /// How many calls wrote an error log line.
    pub num_with_error_logs: usize,
}

/// What the aggregate of an operation holds, as plain values.
pub struct MethodView {
    pub count: nat,
    pub duration_micros: Seq<i64>,
    pub start_dt_micros: Seq<i64>,
    pub num_not_http_ok: nat,
    pub num_with_error_logs: nat,
}

impl View for MethodStatsValue {
    type V = MethodView;

    open spec fn view(&self) -> MethodView {
        MethodView {
            count: self.count as nat,
            duration_micros: self.duration_micros@,
            start_dt_micros: self.start_dt_micros@,
            num_not_http_ok: self.num_not_http_ok as nat,
            num_with_error_logs: self.num_with_error_logs as nat,
        }
    }
}

/// The aggregate of an operation after one more call.
pub open spec fn method_recorded(
    v: MethodView,
    duration: i64,
    start: i64,
    not_http_ok: bool,
    error_log: bool,
) -> MethodView {
    MethodView {
        count: v.count + 1,
        duration_micros: v.duration_micros.push(duration),
        start_dt_micros: v.start_dt_micros.push(start),
        num_not_http_ok: v.num_not_http_ok + one_if(not_http_ok),
        num_with_error_logs: v.num_with_error_logs + one_if(error_log),
    }
}

/// An aggregate without calls.
pub open spec fn method_empty() -> MethodView {
    MethodView {
        count: 0,
        duration_micros: Seq::<i64>::empty(),
        start_dt_micros: Seq::<i64>::empty(),
        num_not_http_ok: 0,
        num_with_error_logs: 0,
    }
}

impl MethodStatsValue {
    /// An aggregate without calls.
    pub fn new() -> (r: Self)
        ensures
            r@ == method_empty(),
    {
        MethodStatsValue {
            count: 0,
            duration_micros: Vec::new(),
            start_dt_micros: Vec::new(),
            num_not_http_ok: 0,
            num_with_error_logs: 0,
        }
    }

    /// Takes in one more call of the operation.
    pub fn record(&mut self, duration: i64, start: i64, not_http_ok: bool, error_log: bool)
        requires
            <MethodStatsValue as Aggregate>::valid(old(self)@),
        ensures
            final(self)@ == method_recorded(old(self)@, duration, start, not_http_ok, error_log),
            <MethodStatsValue as Aggregate>::valid(final(self)@),
    {
        self.duration_micros.push(duration);
        self.start_dt_micros.push(start);
        self.count = self.duration_micros.len();
        if not_http_ok {
            self.num_not_http_ok = self.num_not_http_ok + 1;
        }
        if error_log {
            self.num_with_error_logs = self.num_with_error_logs + 1;
        }
    }
}

impl Aggregate for MethodStatsValue {
    type Plain = MethodView;

    open spec fn plain(&self) -> MethodView {
        self@
    }

    open spec fn valid(plain: MethodView) -> bool {
        &&& plain.count == plain.duration_micros.len()
        &&& plain.count == plain.start_dt_micros.len()
        &&& plain.num_not_http_ok <= plain.count
        &&& plain.num_with_error_logs <= plain.count
    }

    open spec fn combined(a: MethodView, b: MethodView) -> MethodView {
        MethodView {
            count: a.count + b.count,
            duration_micros: a.duration_micros + b.duration_micros,
            start_dt_micros: a.start_dt_micros + b.start_dt_micros,
            num_not_http_ok: a.num_not_http_ok + b.num_not_http_ok,
            num_with_error_logs: a.num_with_error_logs + b.num_with_error_logs,
        }
    }

    fn copy(&self) -> (r: Self) {
        MethodStatsValue {
            count: self.count,
            duration_micros: self.duration_micros.clone(),
            start_dt_micros: self.start_dt_micros.clone(),
            num_not_http_ok: self.num_not_http_ok,
            num_with_error_logs: self.num_with_error_logs,
        }
    }

    fn absorb(&mut self, other: &Self) {
        append_micros(&mut self.duration_micros, &other.duration_micros);
        append_micros(&mut self.start_dt_micros, &other.start_dt_micros);
        self.count = self.duration_micros.len();
        self.num_not_http_ok = self.num_not_http_ok + other.num_not_http_ok;
        self.num_with_error_logs = self.num_with_error_logs + other.num_with_error_logs;
    }
}

/// The statistics of one input file or folder.
#[derive(Debug)]
pub struct StatsRec {
    /// The number of files that the record was made from.
    pub num_files: i32,
    /// The identifiers of the traces, in the order in which they came.
    pub trace_id: Vec<String>,
    /// The duration of each trace, in microseconds.
    pub duration_micros: Vec<i64>,
    /// The start of each trace, in microseconds since the epoch.
    pub start_dt_micros: Vec<i64>,
    /// The processes that are taken as caches when chains are labelled.
    pub caching_process: Vec<String>,
    /// The operations seen, each under `process/operation`.
    pub operations: Keyed<MethodStatsValue>,
    /// The chains seen, each under its key text.
    pub call_chains: Keyed<ChainEntry>,
}

/// Every chain stands under the text of its key.
pub open spec fn keys_match(chains: Keyed<ChainEntry>) -> bool {
    forall|i: int|
        0 <= i < chains.values.len() && i < chains.keys.len() ==> {
            let e = #[trigger] chains.values@[i];
            chains.keys@[i]@ == key_text(e@.key.chain, e@.key.caching_process, e@.key.is_leaf)
        }
}

impl StatsRec {
    /// The record is valid: one duration and one start per trace, valid
    /// aggregates, each chain under the text of its key, no key twice, and a
    /// number of files that is not negative.
    pub open spec fn well_formed(&self) -> bool {
        &&& self.num_files >= 0
        &&& self.trace_id.len() == self.duration_micros.len()
        &&& self.trace_id.len() == self.start_dt_micros.len()
        &&& all_valid(self.operations)
        &&& all_valid(self.call_chains)
        &&& keys_match(self.call_chains)
    }

    /// The chains of the record, as plain values by key text.
    pub open spec fn chains(&self) -> Map<Seq<char>, EntryView> {
        plain_map(self.call_chains.map())
    }

    /// The operations of the record, as plain values by `process/operation`.
    pub open spec fn methods(&self) -> Map<Seq<char>, MethodView> {
        plain_map(self.operations.map())
    }

    /// Count and durations of each chain of the record.
    pub open spec fn totals(&self) -> Map<Seq<char>, Totals> {
        totals_of(self.chains())
    }

    /// A record without traces.
    pub fn new(caching_process: Vec<String>, num_files: i32) -> (r: Self)
        requires
            num_files >= 0,
        ensures
            r.well_formed(),
            r.num_files == num_files,
            r.trace_id@.len() == 0,
            r.caching_process == caching_process,
            r.chains() == Map::<Seq<char>, EntryView>::empty(),
            r.methods() == Map::<Seq<char>, MethodView>::empty(),
    {
        let r = StatsRec {
            num_files,
            trace_id: Vec::new(),
            duration_micros: Vec::new(),
            start_dt_micros: Vec::new(),
            caching_process,
            operations: Keyed::new(),
            call_chains: Keyed::new(),
        };
        assert(r.chains() =~= Map::<Seq<char>, EntryView>::empty());
        assert(r.methods() =~= Map::<Seq<char>, MethodView>::empty());
        r
    }

    /// Takes in the traces, operations and chains of another record.
    pub fn merge(&mut self, other: &StatsRec)
        requires
            old(self).well_formed(),
            other.well_formed(),
            old(self).num_files + other.num_files <= i32::MAX,
        ensures
            final(self).well_formed(),
            final(self).num_files == old(self).num_files + other.num_files,
            string_views(final(self).trace_id@) == string_views(old(self).trace_id@) + string_views(
                other.trace_id@,
            ),
            final(self).duration_micros@ == old(self).duration_micros@ + other.duration_micros@,
            final(self).start_dt_micros@ == old(self).start_dt_micros@ + other.start_dt_micros@,
            final(self).caching_process == old(self).caching_process,
            final(self).chains() == merged_entries(old(self).chains(), other.chains()),
            final(self).methods() == combined_map::<MethodStatsValue>(
                old(self).methods(),
                other.methods(),
            ),
            final(self).totals() == merged_totals(old(self).totals(), other.totals()),
    {
        self.num_files = self.num_files + other.num_files;
        append_names(&mut self.trace_id, &other.trace_id);
        append_micros(&mut self.duration_micros, &other.duration_micros);
        append_micros(&mut self.start_dt_micros, &other.start_dt_micros);
        merge_keyed(&mut self.operations, &other.operations);
        let ghost before = self.call_chains;
        merge_keyed(&mut self.call_chains, &other.call_chains);
        proof {
            assert(string_views(self.trace_id@).len() == self.trace_id@.len());
            assert(string_views(old(self).trace_id@).len() == old(self).trace_id@.len());
            assert(string_views(other.trace_id@).len() == other.trace_id@.len());
            lemma_totals_of_merged(old(self).chains(), other.chains());
            lemma_merged_keys_match(before, other.call_chains, self.call_chains);
        }
    }
}

/// A chain map made of two maps in which every chain stands under the
/// text of its key holds every chain under the text of its key.
pub proof fn lemma_merged_keys_match(a: Keyed<ChainEntry>, b: Keyed<ChainEntry>, m: Keyed<ChainEntry>)
    requires
        all_valid(a),
        keys_match(a),
        all_valid(b),
        keys_match(b),
        all_valid(m),
        plain_map(m.map()) == merged_entries(plain_map(a.map()), plain_map(b.map())),
    ensures
        keys_match(m),
{
    assert forall|i: int| 0 <= i < m.values.len() && i < m.keys.len() implies {
        let e = #[trigger] m.values@[i];
        m.keys@[i]@ == key_text(e@.key.chain, e@.key.caching_process, e@.key.is_leaf)
    } by {
        let k = m.keys@[i]@;
        let mk = string_views(m.keys@);
        assert(mk[i] == k);
        crate::keyed::lemma_distinct_index(mk, i);
        assert(mk.contains(k));
        assert(m.map().dom().contains(k));
        assert(m.map()[k] == m.values@[i]);
        assert(plain_map(m.map()).dom().contains(k));
        assert(plain_map(m.map())[k] == m.values@[i]@);
        let merged = merged_entries(plain_map(a.map()), plain_map(b.map()));
        assert(merged.dom().contains(k));
        let ak = string_views(a.keys@);
        let bk = string_views(b.keys@);
        if plain_map(a.map()).dom().contains(k) {
            lemma_index_of(ak, k);
            let x = index_of(ak, k);
            assert(a.map()[k] == a.values@[x]);
            assert(a.keys@[x]@ == k);
        } else {
            assert(plain_map(b.map()).dom().contains(k));
            lemma_index_of(bk, k);
            let x = index_of(bk, k);
            assert(b.map()[k] == b.values@[x]);
            assert(b.keys@[x]@ == k);
        }
    }
}

} // verus!
