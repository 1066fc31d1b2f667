//! Taking the records of many files together, in whatever order they come.

use crate::keyed::combined_map;
use crate::stats_rec::{
    lemma_merged_totals_associate, lemma_merged_totals_commute, lemma_totals_of_merged,
    merged_entries, merged_totals, totals_of, EntryView, MethodStatsValue, MethodView, StatsRec,
    Totals,
};
use crate::text::string_views;
use vstd::prelude::*;

verus! {

/// What a record holds, as plain values.
pub struct RecView {
    pub num_files: int,
    pub trace_id: Seq<Seq<char>>,
    pub duration_micros: Seq<i64>,
    pub start_dt_micros: Seq<i64>,
    pub caching_process: Seq<Seq<char>>,
    pub methods: Map<Seq<char>, MethodView>,
    pub chains: Map<Seq<char>, EntryView>,
}

/// The plain values of a record.
pub open spec fn rec_view(r: StatsRec) -> RecView {
    RecView {
        num_files: r.num_files as int,
        trace_id: string_views(r.trace_id@),
        duration_micros: r.duration_micros@,
        start_dt_micros: r.start_dt_micros@,
        caching_process: string_views(r.caching_process@),
        methods: r.methods(),
        chains: r.chains(),
    }
}

/// The plain values of a list of records.
pub open spec fn recs_view(recs: Seq<StatsRec>) -> Seq<RecView> {
    recs.map_values(|r: StatsRec| rec_view(r))
}

/// Two records taken together: the files and the traces of both, the
/// caching processes of the first, and operations and chains taken
/// together key by key.
pub open spec fn merged_rec(a: RecView, b: RecView) -> RecView {
    RecView {
        num_files: a.num_files + b.num_files,
        trace_id: a.trace_id + b.trace_id,
        duration_micros: a.duration_micros + b.duration_micros,
        start_dt_micros: a.start_dt_micros + b.start_dt_micros,
        caching_process: a.caching_process,
        methods: combined_map::<MethodStatsValue>(a.methods, b.methods),
        chains: merged_entries(a.chains, b.chains),
    }
}

/// The record that comes of taking the others into `start`, one after the
/// other.
pub open spec fn merged_recs(start: RecView, others: Seq<RecView>) -> RecView
    decreases others.len(),
{
    if others.len() == 0 {
        start
    } else {
        merged_rec(merged_recs(start, others.drop_last()), others.last())
    }
}

/// The number of files of all the records.
pub open spec fn files_sum(recs: Seq<RecView>) -> int
    decreases recs.len(),
{
    if recs.len() == 0 {
        0
    } else {
        files_sum(recs.drop_last()) + recs.last().num_files
    }
}

/// The totals of each of the records.
pub open spec fn totals_list(recs: Seq<RecView>) -> Seq<Map<Seq<char>, Totals>> {
    recs.map_values(|r: RecView| totals_of(r.chains))
}

/// The totals that come of taking the others into `start`, one after the
/// other.
pub open spec fn merged_all(start: Map<Seq<char>, Totals>, others: Seq<Map<Seq<char>, Totals>>) -> Map<
    Seq<char>,
    Totals,
>
    decreases others.len(),
{
    if others.len() == 0 {
        start
    } else {
        merged_totals(merged_all(start, others.drop_last()), others.last())
    }
}

/// The totals of many records taken together are the totals of the records,
/// taken together.
pub proof fn lemma_totals_of_merged_recs(start: RecView, others: Seq<RecView>)
    ensures
        totals_of(merged_recs(start, others).chains) == merged_all(
            totals_of(start.chains),
            totals_list(others),
        ),
    decreases others.len(),
{
    if others.len() > 0 {
        let front = others.drop_last();
        lemma_totals_of_merged_recs(start, front);
        lemma_totals_of_merged(merged_recs(start, front).chains, others.last().chains);
        assert(totals_list(others).drop_last() =~= totals_list(front));
    }
}

/// Any one of the records can be taken in last.
proof fn lemma_merged_all_last(
    start: Map<Seq<char>, Totals>,
    s: Seq<Map<Seq<char>, Totals>>,
    i: int,
)
    requires
        0 <= i < s.len(),
    ensures
        merged_all(start, s) == merged_totals(merged_all(start, s.remove(i)), s[i]),
    decreases s.len(),
{
    if i == s.len() - 1 {
        assert(s.remove(i) =~= s.drop_last());
    } else {
        let front = s.drop_last();
        let last = s.last();
        lemma_merged_all_last(start, front, i);
        let x = merged_all(start, front.remove(i));
        assert(s.remove(i).drop_last() =~= front.remove(i));
        assert(s.remove(i).last() == last);
        assert(front[i] == s[i]);
        // ((x + s[i]) + last) is ((x + last) + s[i])
        lemma_merged_totals_associate(x, s[i], last);
        lemma_merged_totals_commute(s[i], last);
        lemma_merged_totals_associate(x, last, s[i]);
    }
}

/// Taking the same records together in any order gives the same count and
/// the same durations, in no order, for every chain.
pub proof fn lemma_merged_in_any_order(
    start: Map<Seq<char>, Totals>,
    a: Seq<Map<Seq<char>, Totals>>,
    b: Seq<Map<Seq<char>, Totals>>,
)
    requires
        a.to_multiset() == b.to_multiset(),
    ensures
        merged_all(start, a) == merged_all(start, b),
    decreases a.len(),
{
    broadcast use vstd::seq_lib::group_to_multiset_ensures;

    vstd::seq_lib::to_multiset_len(a);
    vstd::seq_lib::to_multiset_len(b);
    if a.len() == 0 {
        assert(b.len() == 0);
        assert(a =~= b);
    } else {
        let x = a.last();
        assert(a.contains(x)) by {
            assert(a[a.len() - 1] == x);
        }
        assert(a.to_multiset().count(x) > 0);
        assert(b.contains(x));
        let i = choose|i: int| 0 <= i < b.len() && b[i] == x;
        assert(a.remove(a.len() - 1) =~= a.drop_last());
        vstd::seq_lib::to_multiset_remove(a, a.len() - 1);
        vstd::seq_lib::to_multiset_remove(b, i);
        lemma_merged_in_any_order(start, a.drop_last(), b.remove(i));
        lemma_merged_all_last(start, b, i);
    }
}

/// The totals of the same records in another order are the same totals in
/// another order.
proof fn lemma_totals_list_reordered(a: Seq<RecView>, b: Seq<RecView>)
    requires
        a.to_multiset() == b.to_multiset(),
    ensures
        totals_list(a).to_multiset() == totals_list(b).to_multiset(),
    decreases a.len(),
{
    broadcast use vstd::seq_lib::group_to_multiset_ensures;

    vstd::seq_lib::to_multiset_len(a);
    vstd::seq_lib::to_multiset_len(b);
    if a.len() == 0 {
        assert(b.len() == 0);
        assert(totals_list(a) =~= totals_list(b));
    } else {
        let x = a.last();
        assert(a[a.len() - 1] == x);
        assert(a.contains(x));
        assert(a.to_multiset().count(x) > 0);
        assert(b.contains(x));
        let i = choose|i: int| 0 <= i < b.len() && b[i] == x;
        assert(a.remove(a.len() - 1) =~= a.drop_last());
        vstd::seq_lib::to_multiset_remove(a, a.len() - 1);
        vstd::seq_lib::to_multiset_remove(b, i);
        lemma_totals_list_reordered(a.drop_last(), b.remove(i));
        let ta = totals_list(a);
        let tb = totals_list(b);
        assert(ta.remove(ta.len() - 1) =~= totals_list(a.drop_last()));
        assert(tb.remove(i) =~= totals_list(b.remove(i)));
        assert(ta[ta.len() - 1] == tb[i]);
        vstd::seq_lib::to_multiset_remove(ta, ta.len() - 1);
        vstd::seq_lib::to_multiset_remove(tb, i);
        assert(ta.contains(ta[ta.len() - 1]));
        assert(tb.contains(tb[i]));
        assert(ta.to_multiset() =~= ta.to_multiset().remove(tb[i]).insert(tb[i]));
        assert(tb.to_multiset() =~= tb.to_multiset().remove(tb[i]).insert(tb[i]));
    }
}

/// Taking the same records into a record in any order gives, for every
/// chain, the same count and the same durations in no order.
pub proof fn lemma_records_in_any_order(start: RecView, a: Seq<RecView>, b: Seq<RecView>)
    requires
        a.to_multiset() == b.to_multiset(),
    ensures
        totals_of(merged_recs(start, a).chains) == totals_of(merged_recs(start, b).chains),
{
    lemma_totals_of_merged_recs(start, a);
    lemma_totals_of_merged_recs(start, b);
    lemma_totals_list_reordered(a, b);
    lemma_merged_in_any_order(totals_of(start.chains), totals_list(a), totals_list(b));
}

/// The sum of the files of the first records is no greater than that of
/// all, as no record has fewer than no files.
proof fn lemma_files_sum_grows(recs: Seq<RecView>, n: int)
    requires
        0 <= n <= recs.len(),
        forall|i: int| 0 <= i < recs.len() ==> (#[trigger] recs[i]).num_files >= 0,
    ensures
        0 <= files_sum(recs.take(n)) <= files_sum(recs),
    decreases recs.len() - n,
{
    if n == recs.len() {
        assert(recs.take(n) =~= recs);
        lemma_files_sum_positive(recs);
    } else {
        lemma_files_sum_grows(recs, n + 1);
        assert(recs.take(n + 1).drop_last() =~= recs.take(n));
        assert(recs.take(n + 1).last() == recs[n]);
        lemma_files_sum_positive(recs.take(n));
    }
}

proof fn lemma_files_sum_positive(recs: Seq<RecView>)
    requires
        forall|i: int| 0 <= i < recs.len() ==> (#[trigger] recs[i]).num_files >= 0,
    ensures
        files_sum(recs) >= 0,
    decreases recs.len(),
{
    if recs.len() > 0 {
        let front = recs.drop_last();
        assert forall|i: int| 0 <= i < front.len() implies (#[trigger] front[i]).num_files >= 0 by {
            assert(front[i] == recs[i]);
        }
        lemma_files_sum_positive(front);
    }
}

impl StatsRec {
    /// Takes in the traces, operations and chains of the other records, one
    /// record after the other. For every chain the count and the durations,
    /// in no order, are the same in whatever order the records come.
    pub fn merge_all(&mut self, others: &Vec<StatsRec>)
        requires
            old(self).well_formed(),
            forall|i: int| 0 <= i < others.len() ==> (#[trigger] others@[i]).well_formed(),
            old(self).num_files + files_sum(recs_view(others@)) <= i32::MAX,
        ensures
            final(self).well_formed(),
            rec_view(*final(self)) == merged_recs(rec_view(*old(self)), recs_view(others@)),
            final(self).totals() == merged_all(
                old(self).totals(),
                totals_list(recs_view(others@)),
            ),
    {
        let ghost start = rec_view(*self);
        let ghost views = recs_view(others@);
        let mut i: usize = 0;
        proof {
            assert(views.take(0) =~= Seq::<RecView>::empty());
        }
        while i < others.len()
            invariant
                i <= others.len(),
                views == recs_view(others@),
                forall|j: int| 0 <= j < others.len() ==> (#[trigger] others@[j]).well_formed(),
                start.num_files + files_sum(views) <= i32::MAX,
                self.well_formed(),
                rec_view(*self) == merged_recs(start, views.take(i as int)),
                self.num_files == start.num_files + files_sum(views.take(i as int)),
            decreases others.len() - i,
        {
            proof {
                assert forall|j: int| 0 <= j < views.len() implies (#[trigger] views[j]).num_files
                    >= 0 by {
                    assert(others@[j].well_formed());
                }
                lemma_files_sum_grows(views, i + 1);
                assert(views.take(i + 1).drop_last() =~= views.take(i as int));
                assert(views.take(i + 1).last() == rec_view(others@[i as int]));
            }
            let ghost before = *self;
            self.merge(&others[i]);
            proof {
                assert(string_views(self.caching_process@) == string_views(
                    before.caching_process@,
                ));
                assert(rec_view(*self) == merged_rec(rec_view(before), rec_view(others@[i as int])));
            }
            i += 1;
        }
        proof {
            assert(views.take(others.len() as int) =~= views);
            lemma_totals_of_merged_recs(start, views);
        }
    }
}

} // verus!
