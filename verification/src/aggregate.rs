//! Taking the chains of traces into a record, and moving chains that do not
//! start at a root onto the expected chains of their end point.

use crate::call::process_method_text;
use crate::call_chain::{endpoint_file_stem, endpoint_stem};
use crate::cchain_cache::CChainEndPointCache;
use crate::cchain_stats::{clone_names, one_if, recorded, CChainStatsValue, ValueView};
use crate::chain_key::{key_text, KeyView};
use crate::extract::{
    call_of, expected_for, extract_remapped_chains, not_ok, remapped_chains_of_trace,
    with_sighting_notes, SpanChain, SpanChainView,
};
use crate::keyed::{
    all_valid, combined_map, lemma_assoc_update, merge_keyed, plain_map, Keyed,
};
use crate::lex::{insert_sorted, strictly_sorted};
use crate::remap::{keys_view, remap_choice, remapped, with_remap_note};
use crate::report::Report;
use crate::span::SpanView;
use crate::stats_rec::{
    keys_match, lemma_merged_keys_match, method_empty, method_recorded, ChainEntry, EntryView, MethodStatsValue, MethodView,
    StatsRec,
};
use crate::text::string_views;
use crate::trace::Trace;
use vstd::prelude::*;

verus! {

/// An aggregate without sightings.
pub open spec fn empty_value(depth: nat, looped: Seq<Seq<char>>, rooted: bool) -> ValueView {
    ValueView {
        count: 0,
        depth,
        duration_micros: Seq::<i64>::empty(),
        start_dt_micros: Seq::<i64>::empty(),
        looped,
        rooted,
        cc_not_http_ok: 0,
        cc_with_error_log: 0,
        http_not_ok: Seq::<i16>::empty(),
        error_logs: Seq::<Seq<char>>::empty(),
    }
}

/// The text of the key of a chain.
pub open spec fn text_of_key(k: KeyView) -> Seq<char> {
    key_text(k.chain, k.caching_process, k.is_leaf)
}

/// The chain map with one more sighting: on the entry of the chain, or on
/// a new entry with the depth, the loops and the rootedness of the sighting.
pub open spec fn chain_recorded(m: Map<Seq<char>, EntryView>, c: SpanChainView) -> Map<
    Seq<char>,
    EntryView,
> {
    let k = text_of_key(c.key);
    let base = if m.dom().contains(k) {
        m[k]
    } else {
        EntryView { key: c.key, value: empty_value(c.key.chain.len(), c.looped, c.rooted) }
    };
    m.insert(
        k,
        EntryView {
            key: base.key,
            value: recorded(
                base.value,
                c.duration_micros,
                c.start_dt_micros,
                c.looped,
                c.http_not_ok,
                c.error_logs,
            ),
        },
    )
}

/// The chain map with the first `n` of the sightings.
pub open spec fn chains_recorded(m: Map<Seq<char>, EntryView>, chains: Seq<SpanChainView>, n: int) -> Map<
    Seq<char>,
    EntryView,
>
    decreases n,
{
    if n <= 0 {
        m
    } else {
        chain_recorded(chains_recorded(m, chains, n - 1), chains[n - 1])
    }
}

/// The map of the operations with one more call: that of the span.
pub open spec fn span_recorded(m: Map<Seq<char>, MethodView>, s: SpanView) -> Map<
    Seq<char>,
    MethodView,
> {
    let k = process_method_text(call_of(s));
    let base = if m.dom().contains(k) {
        m[k]
    } else {
        method_empty()
    };
    m.insert(
        k,
        method_recorded(
            base,
            s.duration_micros,
            s.start_dt_micros,
            s.http_status_code matches Some(c) && not_ok(c),
            s.error_logs.len() > 0,
        ),
    )
}

/// The map of the operations with the calls of the first `n` spans.
pub open spec fn spans_recorded(m: Map<Seq<char>, MethodView>, spans: Seq<SpanView>, n: int) -> Map<
    Seq<char>,
    MethodView,
>
    decreases n,
{
    if n <= 0 {
        m
    } else {
        span_recorded(spans_recorded(m, spans, n - 1), spans[n - 1])
    }
}

/// Takes one sighting of a chain into a chain map.
pub fn record_chain(chains: &mut Keyed<ChainEntry>, c: &SpanChain)
    requires
        all_valid(*old(chains)),
        keys_match(*old(chains)),
        c@.key.chain.len() >= 1,
    ensures
        all_valid(*final(chains)),
        keys_match(*final(chains)),
        plain_map(final(chains).map()) == chain_recorded(plain_map(old(chains).map()), c@),
{
    let text = c.key.call_chain_key();
    let ghost m = plain_map(chains.map());
    match chains.find(text.as_str()) {
        Some(i) => {
            let ghost before = chains.values@;
            chains.values[i].value.record(&c.seen);
            proof {
                let e = chains.values@[i as int];
                assert(chains.values@ =~= before.update(i as int, e));
                lemma_assoc_update(string_views(chains.keys@), before, i as int, e);
                assert(e@.key == before[i as int]@.key);
                assert(plain_map(chains.map()) =~= m.insert(text@, e@));
            }
        },
        None => {
            let mut value = CChainStatsValue::new(
                c.key.call_chain.len(),
                clone_names(&c.seen.looped),
                c.rooted,
            );
            value.record(&c.seen);
            let entry = ChainEntry { key: c.key.clone(), value };
            chains.push_new(text, entry);
            proof {
                assert(plain_map(chains.map()) =~= m.insert(text@, entry@));
            }
        },
    }
}

/// Takes the call of one span into the map of the operations.
pub fn record_span(operations: &mut Keyed<MethodStatsValue>, span: &crate::span::Span)
    requires
        all_valid(*old(operations)),
    ensures
        all_valid(*final(operations)),
        plain_map(final(operations).map()) == span_recorded(
            plain_map(old(operations).map()),
            span@,
        ),
{
    let mut buf = crate::text::chars_of(span.service_name.as_str());
    buf.push('/');
    crate::text::push_str_chars(&mut buf, span.operation_name.as_str());
    let text = crate::text::string_of(&buf);
    assert(text@ =~= process_method_text(call_of(span@)));
    let failed = match span.http_status_code {
        Some(c) => c < 200 || c > 299,
        None => false,
    };
    let logged = span.error_logs.len() > 0;
    assert(string_views(span.error_logs@).len() == span.error_logs@.len());
    let ghost m = plain_map(operations.map());
    match operations.find(text.as_str()) {
        Some(i) => {
            let ghost before = operations.values@;
            operations.values[i].record(
                span.duration_micros,
                span.start_dt_micros,
                failed,
                logged,
            );
            proof {
                let e = operations.values@[i as int];
                assert(operations.values@ =~= before.update(i as int, e));
                lemma_assoc_update(string_views(operations.keys@), before, i as int, e);
                assert(plain_map(operations.map()) =~= m.insert(text@, e@));
            }
        },
        None => {
            let mut value = MethodStatsValue::new();
            value.record(span.duration_micros, span.start_dt_micros, failed, logged);
            operations.push_new(text, value);
            proof {
                assert(plain_map(operations.map()) =~= m.insert(text@, value@));
            }
        },
    }
}

/// What becomes of a chain entry when the chains that do not start at a
/// root are moved: an entry that is not rooted, and whose end point has
/// expected chains of which one is chosen, takes the chain and the leaf
/// flag of that one, counts as rooted and has the depth of its new chain;
/// any other entry stays as it is.
pub open spec fn fix_target(e: EntryView, cache: CChainEndPointCache) -> EntryView {
    if e.value.rooted || e.key.chain.len() == 0 {
        e
    } else {
        match cache.entry(endpoint_stem(process_method_text(e.key.chain.first()))) {
            Some(Some(expected)) => if remap_choice(e.key, expected) is Some {
                let k = remapped(e.key, expected);
                EntryView {
                    key: k,
                    value: ValueView {
                        count: e.value.count,
                        depth: k.chain.len(),
                        duration_micros: e.value.duration_micros,
                        start_dt_micros: e.value.start_dt_micros,
                        looped: e.value.looped,
                        rooted: true,
                        cc_not_http_ok: e.value.cc_not_http_ok,
                        cc_with_error_log: e.value.cc_with_error_log,
                        http_not_ok: e.value.http_not_ok,
                        error_logs: e.value.error_logs,
                    },
                }
            } else {
                e
            },
            _ => e,
        }
    }
}

/// The report after the first `n` entries were looked at: with a note in
/// the details for each entry in whose chain three or more expected chains
/// end.
pub open spec fn with_fix_notes(
    chapters: Seq<Seq<Seq<char>>>,
    entries: Seq<EntryView>,
    cache: CChainEndPointCache,
    n: int,
) -> Seq<Seq<Seq<char>>>
    decreases n,
{
    if n <= 0 {
        chapters
    } else {
        let before = with_fix_notes(chapters, entries, cache, n - 1);
        let e = entries[n - 1];
        match expected_for(e.key, e.value.rooted, cache) {
            Some(expected) => with_remap_note(before, e.key, expected),
            None => before,
        }
    }
}

/// The chain map after the first `n` entries were moved where they could
/// be: each entry stands under the text of the key it has now, and entries
/// that come to stand under one key are taken together.
pub open spec fn fixed_chains(entries: Seq<EntryView>, cache: CChainEndPointCache, n: int) -> Map<
    Seq<char>,
    EntryView,
>
    decreases n,
{
    if n <= 0 {
        Map::<Seq<char>, EntryView>::empty()
    } else {
        let t = fix_target(entries[n - 1], cache);
        combined_map::<ChainEntry>(
            fixed_chains(entries, cache, n - 1),
            Map::<Seq<char>, EntryView>::empty().insert(text_of_key(t.key), t),
        )
    }
}

/// How many of the first `n` entries were moved.
pub open spec fn fixed_count(entries: Seq<EntryView>, cache: CChainEndPointCache, n: int) -> nat
    decreases n,
{
    if n <= 0 {
        0
    } else {
        fixed_count(entries, cache, n - 1) + one_if(
            fix_target(entries[n - 1], cache) != entries[n - 1],
        )
    }
}

/// The entries of a chain map, in their order, as plain values.
pub open spec fn entry_views(chains: Keyed<ChainEntry>) -> Seq<EntryView> {
    chains.values@.map_values(|e: ChainEntry| e@)
}

/// Whether the end point of some chain that is not rooted has the given
/// file stem and is not loaded.
pub open spec fn needs_loading(entries: Seq<EntryView>, cache: CChainEndPointCache, stem: Seq<char>) -> bool {
    exists|i: int|
        0 <= i < entries.len() && !(#[trigger] entries[i]).value.rooted && entries[i].key.chain.len()
            > 0 && endpoint_stem(process_method_text(entries[i].key.chain.first())) == stem
            && cache.entry(stem) is None
}

impl StatsRec {
    /// Takes in the spans of a trace: the trace itself, the call of each
    /// span, and the chain of each span. A chain that does not start at a
    /// root is first held against the expected chains of its end point, as
    /// far as the cache holds them.
    pub fn extend_statistics(
        &mut self,
        trace: &Trace,
        cache: &CChainEndPointCache,
        report: &mut Report,
    )
        requires
            old(self).well_formed(),
            trace.well_formed(),
        ensures
            final(self).well_formed(),
            final(self).num_files == old(self).num_files,
            final(self).caching_process == old(self).caching_process,
            string_views(final(self).trace_id@) == string_views(old(self).trace_id@).push(
                trace.trace_id@,
            ),
            final(self).duration_micros@ == old(self).duration_micros@.push(trace.duration_micros),
            final(self).start_dt_micros@ == old(self).start_dt_micros@.push(trace.start_dt_micros),
            final(self).chains() == chains_recorded(
                old(self).chains(),
                remapped_chains_of_trace(
                    *trace,
                    string_views(old(self).caching_process@),
                    *cache,
                    trace.spans.len() as int,
                ),
                trace.spans.len() as int,
            ),
            final(self).methods() == spans_recorded(
                old(self).methods(),
                trace.span_views(),
                trace.spans.len() as int,
            ),
            final(report)@ == with_sighting_notes(
                old(report)@,
                *trace,
                string_views(old(self).caching_process@),
                *cache,
                trace.spans.len() as int,
            ),
    {
        let ghost ids = self.trace_id@;
        self.trace_id.push(trace.trace_id.clone());
        assert(string_views(self.trace_id@) =~= string_views(ids).push(trace.trace_id@));
        self.duration_micros.push(trace.duration_micros);
        self.start_dt_micros.push(trace.start_dt_micros);
        let chains = extract_remapped_chains(trace, &self.caching_process, cache, report);
        let ghost cv = remapped_chains_of_trace(
            *trace,
            string_views(self.caching_process@),
            *cache,
            trace.spans.len() as int,
        );
        let ghost sv = trace.span_views();
        let mut i: usize = 0;
        while i < chains.len()
            invariant
                i <= chains.len(),
                chains.len() == trace.spans.len(),
                sv == trace.span_views(),
                cv == chains@.map_values(|c: SpanChain| c@),
                forall|j: int| 0 <= j < chains.len() ==> (#[trigger] chains@[j])@.key.chain.len() >= 1,
                all_valid(self.operations),
                all_valid(self.call_chains),
                keys_match(self.call_chains),
                self.num_files == old(self).num_files,
                self.caching_process == old(self).caching_process,
                self.trace_id@.len() == self.duration_micros@.len(),
                self.trace_id@.len() == self.start_dt_micros@.len(),
                string_views(self.trace_id@) == string_views(old(self).trace_id@).push(
                    trace.trace_id@,
                ),
                self.duration_micros@ == old(self).duration_micros@.push(trace.duration_micros),
                self.start_dt_micros@ == old(self).start_dt_micros@.push(trace.start_dt_micros),
                self.chains() == chains_recorded(old(self).chains(), cv, i as int),
                self.methods() == spans_recorded(old(self).methods(), sv, i as int),
            decreases chains.len() - i,
        {
            assert(cv[i as int] == chains@[i as int]@);
            assert(sv[i as int] == trace.spans@[i as int]@);
            record_span(&mut self.operations, &trace.spans[i]);
            record_chain(&mut self.call_chains, &chains[i]);
            i += 1;
        }
    }

    /// The file stems of the end points whose expected chains have to be
    /// loaded before the chains that are not rooted can be moved, each
    /// once, in the order of a dictionary.
    pub fn endpoints_to_load(&self, cache: &CChainEndPointCache) -> (stems: Vec<String>)
        requires
            self.well_formed(),
        ensures
            strictly_sorted(string_views(stems@)),
            forall|t: Seq<char>|
                #![trigger string_views(stems@).contains(t)]
                string_views(stems@).contains(t) <==> needs_loading(
                    entry_views(self.call_chains),
                    *cache,
                    t,
                ),
    {
        let ghost entries = entry_views(self.call_chains);
        let mut stems: Vec<String> = Vec::new();
        let mut i: usize = 0;
        assert(string_views(stems@) =~= Seq::<Seq<char>>::empty());
        while i < self.call_chains.values.len()
            invariant
                i <= self.call_chains.values.len(),
                entries == entry_views(self.call_chains),
                strictly_sorted(string_views(stems@)),
                forall|t: Seq<char>|
                    #![trigger string_views(stems@).contains(t)]
                    string_views(stems@).contains(t) <==> needs_loading(
                        entries.take(i as int),
                        *cache,
                        t,
                    ),
            decreases self.call_chains.values.len() - i,
        {
            let entry = &self.call_chains.values[i];
            let ghost seen = entries.take(i as int);
            let ghost next = entries.take(i + 1);
            let ghost e = entries[i as int];
            assert(e == entry@);
            let ghost before = string_views(stems@);
            if !entry.value.rooted && entry.key.call_chain.len() > 0 {
                let stem = endpoint_file_stem(entry.key.get_endpoint().as_str());
                if !cache.is_loaded(stem.as_str()) {
                    insert_sorted(&mut stems, stem.as_str());
                }
            }
            proof {
                let hit = !e.value.rooted && e.key.chain.len() > 0 && cache.entry(
                    endpoint_stem(process_method_text(e.key.chain.first())),
                ) is None;
                assert forall|t: Seq<char>|
                    #![trigger string_views(stems@).contains(t)]
                    string_views(stems@).contains(t) <==> needs_loading(next, *cache, t) by {
                    let mine = endpoint_stem(process_method_text(e.key.chain.first()));
                    assert(string_views(stems@).contains(t) <==> before.contains(t) || (hit && t
                        == mine));
                    assert(before.contains(t) <==> needs_loading(seen, *cache, t));
                    if needs_loading(seen, *cache, t) {
                        let x = choose|x: int|
                            0 <= x < seen.len() && !(#[trigger] seen[x]).value.rooted
                                && seen[x].key.chain.len() > 0 && endpoint_stem(
                                process_method_text(seen[x].key.chain.first()),
                            ) == t && cache.entry(t) is None;
                        assert(next[x] == seen[x]);
                    }
                    if hit && t == mine {
                        assert(next[i as int] == e);
                    }
                    if needs_loading(next, *cache, t) {
                        let x = choose|x: int|
                            0 <= x < next.len() && !(#[trigger] next[x]).value.rooted
                                && next[x].key.chain.len() > 0 && endpoint_stem(
                                process_method_text(next[x].key.chain.first()),
                            ) == t && cache.entry(t) is None;
                        if x < i {
                            assert(seen[x] == next[x]);
                        }
                    }
                }
            }
            i += 1;
        }
        assert(entries.take(self.call_chains.values.len() as int) =~= entries);
        stems
    }

    /// Moves the chains that do not start at a root onto the expected
    /// chains of their end points, as far as the cache holds them, and
    /// tells how many entries were moved.
    pub fn fix_cchain_stats(&mut self, cache: &CChainEndPointCache, report: &mut Report) -> (fixed:
        usize)
        requires
            old(self).well_formed(),
        ensures
            final(report)@ == with_fix_notes(
                old(report)@,
                entry_views(old(self).call_chains),
                *cache,
                old(self).call_chains.values.len() as int,
            ),
            final(self).well_formed(),
            final(self).num_files == old(self).num_files,
            final(self).trace_id == old(self).trace_id,
            final(self).duration_micros == old(self).duration_micros,
            final(self).start_dt_micros == old(self).start_dt_micros,
            final(self).caching_process == old(self).caching_process,
            final(self).operations == old(self).operations,
            final(self).chains() == fixed_chains(
                entry_views(old(self).call_chains),
                *cache,
                old(self).call_chains.values.len() as int,
            ),
            fixed == fixed_count(
                entry_views(old(self).call_chains),
                *cache,
                old(self).call_chains.values.len() as int,
            ),
    {
        let ghost entries = entry_views(self.call_chains);
        let mut acc: Keyed<ChainEntry> = Keyed::new();
        let mut fixed: usize = 0;
        let mut i: usize = 0;
        assert(plain_map(acc.map()) =~= Map::<Seq<char>, EntryView>::empty());
        while i < self.call_chains.values.len()
            invariant
                i <= self.call_chains.values.len(),
                self.well_formed(),
                *self == *old(self),
                entries == entry_views(self.call_chains),
                all_valid(acc),
                keys_match(acc),
                plain_map(acc.map()) == fixed_chains(entries, *cache, i as int),
                fixed == fixed_count(entries, *cache, i as int),
                fixed <= i,
                report@ == with_fix_notes(old(report)@, entries, *cache, i as int),
            decreases self.call_chains.values.len() - i,
        {
            let mut target = self.call_chains.values[i].clone();
            let ghost e = entries[i as int];
            assert(e == target@);
            if !target.value.rooted && target.key.call_chain.len() > 0 {
                let stem = endpoint_file_stem(target.key.get_endpoint().as_str());
                match cache.get_cchain_key(stem.as_str()) {
                    Some(expected) => {
                        if target.key.remap_callchain(expected, report) {
                            proof {
                                crate::remap::lemma_tail_matches(e.key.chain, keys_view(expected@));
                            }
                            target.value.rooted = true;
                            target.value.depth = target.key.call_chain.len();
                            fixed = fixed + 1;
                        }
                    },
                    None => {},
                }
            }
            assert(target@ == fix_target(e, *cache));
            let mut single: Keyed<ChainEntry> = Keyed::new();
            let text = target.key.call_chain_key();
            let ghost t = target@;
            single.push_new(text, target);
            proof {
                assert(plain_map(single.map()) =~= Map::<Seq<char>, EntryView>::empty().insert(
                    text_of_key(t.key),
                    t,
                ));
            }
            let ghost before = acc;
            merge_keyed(&mut acc, &single);
            proof {
                lemma_merged_keys_match(before, single, acc);
            }
            i += 1;
        }
        self.call_chains = acc;
        fixed
    }
}

} // verus!
