//! The call chain of each span of a trace: the calls from the top of its
//! line of parents down to the span, with what was seen along them.

use crate::call::{process_method_text, Call, CallView};
use crate::call_chain::{caching_label, caching_process_label, endpoint_file_stem, endpoint_stem};
use crate::cchain_cache::CChainEndPointCache;
use crate::cchain_stats::{append_names, clone_names, ChainObservation};
use crate::chain_key::{chain_view, CChainStatsKey, KeyView};
use crate::lex::{insert_sorted, strictly_sorted};
use crate::remap::{remap_choice, remapped, with_remap_note};
use crate::report::Report;
use crate::span::{Span, SpanView};
use crate::text::{find_name, lemma_index_of, string_views};
use crate::trace::{spans_view, Trace};
use vstd::prelude::*;

verus! {

/// The places of the spans from `i` upward: `i`, its parent, the parent of
/// that one, and so on, for at most `fuel` steps.
pub open spec fn walk_up(spans: Seq<SpanView>, i: usize, fuel: nat) -> Seq<usize>
    decreases fuel,
{
    if fuel == 0 {
        seq![i]
    } else {
        match spans[i as int].parent {
            Some(p) => seq![i] + walk_up(spans, p, (fuel - 1) as nat),
            None => seq![i],
        }
    }
}

/// The places of the spans from the top of the line of parents of `i` down
/// to `i`. The line is followed for as many steps as there are other spans.
pub open spec fn path_to(spans: Seq<SpanView>, i: usize) -> Seq<usize> {
    walk_up(spans, i, (spans.len() - 1) as nat).reverse()
}

/// The call that a span stands for.
pub open spec fn call_of(s: SpanView) -> CallView {
    CallView { process: s.service_name, method: s.operation_name, direction: s.call_direction }
}

/// The calls of the spans at the given places.
pub open spec fn calls_at(spans: Seq<SpanView>, path: Seq<usize>) -> Seq<CallView> {
    path.map_values(|p: usize| call_of(spans[p as int]))
}

/// Whether an HTTP status code tells of a failure: it is outside 200..=299.
pub open spec fn not_ok(code: i16) -> bool {
    code < 200 || code > 299
}

/// The status codes that tell of a failure, of the spans at the given
/// places.
pub open spec fn codes_at(spans: Seq<SpanView>, path: Seq<usize>) -> Seq<i16>
    decreases path.len(),
{
    if path.len() == 0 {
        Seq::<i16>::empty()
    } else {
        let front = codes_at(spans, path.drop_last());
        match spans[path.last() as int].http_status_code {
            Some(c) => if not_ok(c) {
                front.push(c)
            } else {
                front
            },
            None => front,
        }
    }
}

/// The error log lines of the spans at the given places.
pub open spec fn logs_at(spans: Seq<SpanView>, path: Seq<usize>) -> Seq<Seq<char>>
    decreases path.len(),
{
    if path.len() == 0 {
        Seq::<Seq<char>>::empty()
    } else {
        logs_at(spans, path.drop_last()) + spans[path.last() as int].error_logs
    }
}

/// The names that stand more than once in the list, each once, in the
/// order in which they come again.
pub open spec fn repeated(names: Seq<Seq<char>>) -> Seq<Seq<char>>
    decreases names.len(),
{
    if names.len() == 0 {
        Seq::<Seq<char>>::empty()
    } else {
        let front = repeated(names.drop_last());
        if names.drop_last().contains(names.last()) && !front.contains(names.last()) {
            front.push(names.last())
        } else {
            front
        }
    }
}

/// The processes of the calls.
pub open spec fn processes_of(calls: Seq<CallView>) -> Seq<Seq<char>> {
    calls.map_values(|c: CallView| c.process)
}

/// Whether some span has the span at `i` as its parent.
pub open spec fn has_child(spans: Seq<SpanView>, i: usize) -> bool {
    exists|j: int| 0 <= j < spans.len() && (#[trigger] spans[j]).parent == Some(i)
}

/// The chain of a span, with what was seen along it.
#[derive(Debug)]
pub struct SpanChain {
    /// The place of the span in its trace.
    pub span: usize,
    pub key: CChainStatsKey,
    /// Whether the span at the top of the chain has no reference to a parent.
    pub rooted: bool,
    pub seen: ChainObservation,
}

/// The chain of a span as plain values.
pub struct SpanChainView {
    pub span: usize,
    pub key: KeyView,
    pub rooted: bool,
    pub duration_micros: i64,
    pub start_dt_micros: i64,
    pub looped: Seq<Seq<char>>,
    pub http_not_ok: Seq<i16>,
    pub error_logs: Seq<Seq<char>>,
}

impl View for SpanChain {
    type V = SpanChainView;

    open spec fn view(&self) -> SpanChainView {
        SpanChainView {
            span: self.span,
            key: self.key@,
            rooted: self.rooted,
            duration_micros: self.seen.duration_micros,
            start_dt_micros: self.seen.start_dt_micros,
            looped: string_views(self.seen.looped@),
            http_not_ok: self.seen.http_not_ok@,
            error_logs: string_views(self.seen.error_logs@),
        }
    }
}

/// The chain of the span at `i`: the calls along its path, the label of
/// the caching processes among them, whether the span is a leaf, whether
/// the path starts at a span without a parent, and, with the times of the
/// trace, what was seen along the path.
pub open spec fn chain_of_span(trace: Trace, caching: Seq<Seq<char>>, i: usize) -> SpanChainView {
    let spans = trace.span_views();
    let path = path_to(spans, i);
    let calls = calls_at(spans, path);
    SpanChainView {
        span: i,
        key: KeyView {
            chain: calls,
            caching_process: caching_label(caching, calls),
            is_leaf: !has_child(spans, i),
        },
        rooted: spans[path[0] as int].parent_id is None,
        duration_micros: trace.duration_micros,
        start_dt_micros: trace.start_dt_micros,
        looped: repeated(processes_of(calls)),
        http_not_ok: codes_at(spans, path),
        error_logs: logs_at(spans, path),
    }
}

/// The chains of the first `n` spans of a trace.
pub open spec fn chains_of_trace(trace: Trace, caching: Seq<Seq<char>>, n: int) -> Seq<SpanChainView> {
    Seq::new(n as nat, |i: int| chain_of_span(trace, caching, i as usize))
}

/// Every place on the way up is the place of a span, and the way is not
/// empty.
proof fn lemma_walk_up(spans: Seq<Span>, i: usize, fuel: nat)
    requires
        i < spans.len(),
        forall|k: int|
            0 <= k < spans.len() ==> ((#[trigger] spans[k]).parent matches Some(p) ==> p
                < spans.len()),
    ensures
        walk_up(spans_view(spans), i, fuel).len() >= 1,
        walk_up(spans_view(spans), i, fuel).len() <= fuel + 1,
        walk_up(spans_view(spans), i, fuel)[0] == i,
        forall|k: int|
            0 <= k < walk_up(spans_view(spans), i, fuel).len() ==> #[trigger] walk_up(
                spans_view(spans),
                i,
                fuel,
            )[k] < spans.len(),
    decreases fuel,
{
    let sv = spans_view(spans);
    if fuel > 0 {
        assert(sv[i as int] == spans[i as int]@);
        match sv[i as int].parent {
            Some(p) => {
                lemma_walk_up(spans, p, (fuel - 1) as nat);
                let rest = walk_up(sv, p, (fuel - 1) as nat);
                let all = walk_up(sv, i, fuel);
                assert(all == seq![i] + rest);
                assert forall|k: int| 0 <= k < all.len() implies #[trigger] all[k] < spans.len() by {
                    if k > 0 {
                        assert(all[k] == rest[k - 1]);
                    }
                }
            },
            None => {},
        }
    }
}

/// The places of the spans from the top of the line of parents of `i` down
/// to `i`.
pub fn span_path(trace: &Trace, i: usize) -> (path: Vec<usize>)
    requires
        trace.well_formed(),
        i < trace.spans.len(),
    ensures
        path@ == path_to(trace.span_views(), i),
        path.len() >= 1,
        forall|k: int| 0 <= k < path.len() ==> #[trigger] path@[k] < trace.spans.len(),
{
    let ghost sv = trace.span_views();
    let n = trace.spans.len();
    let mut up: Vec<usize> = Vec::new();
    let mut cur: usize = i;
    let mut fuel: usize = n - 1;
    let ghost whole = walk_up(sv, i, (n - 1) as nat);
    proof {
        lemma_walk_up(trace.spans@, i, (n - 1) as nat);
    }
    loop
        invariant_except_break
            whole == up@ + walk_up(sv, cur, fuel as nat),
        invariant
            trace.well_formed(),
            n == trace.spans.len(),
            sv == trace.span_views(),
            cur < n,
            fuel < n,
            whole == walk_up(sv, i, (n - 1) as nat),
        ensures
            up@ == whole,
        decreases fuel,
    {
        assert(sv[cur as int] == trace.spans@[cur as int]@);
        up.push(cur);
        if fuel == 0 {
            assert(up@ =~= whole);
            break ;
        }
        match trace.spans[cur].parent {
            Some(p) => {
                assert(whole =~= up@ + walk_up(sv, p, (fuel - 1) as nat));
                cur = p;
                fuel = fuel - 1;
            },
            None => {
                assert(up@ =~= whole);
                break ;
            },
        }
    }
    let mut path: Vec<usize> = Vec::new();
    let mut k: usize = up.len();
    while k > 0
        invariant
            k <= up.len(),
            path.len() == up.len() - k,
            forall|x: int| 0 <= x < path.len() ==> path@[x] == up@[up.len() - 1 - x],
        decreases k,
    {
        k -= 1;
        path.push(up[k]);
    }
    assert(path@ =~= up@.reverse());
    path
}

/// The names that stand more than once in the list.
pub fn repeated_names(names: &Vec<String>) -> (r: Vec<String>)
    ensures
        string_views(r@) == repeated(string_views(names@)),
{
    let ghost all = string_views(names@);
    let mut r: Vec<String> = Vec::new();
    let mut front: Vec<String> = Vec::new();
    let mut i: usize = 0;
    assert(all.take(0) =~= Seq::<Seq<char>>::empty());
    assert(string_views(r@) =~= Seq::<Seq<char>>::empty());
    assert(string_views(front@) =~= all.take(0));
    while i < names.len()
        invariant
            i <= names.len(),
            all == string_views(names@),
            string_views(front@) == all.take(i as int),
            string_views(r@) == repeated(all.take(i as int)),
        decreases names.len() - i,
    {
        proof {
            assert(all.take(i + 1).drop_last() =~= all.take(i as int));
            assert(all.take(i + 1).last() == names@[i as int]@);
            lemma_index_of(string_views(front@), names@[i as int]@);
            lemma_index_of(string_views(r@), names@[i as int]@);
        }
        let name = &names[i];
        if find_name(&front, name.as_str()) < front.len() && find_name(&r, name.as_str())
            >= r.len() {
            let ghost before = r@;
            r.push(name.clone());
            assert(string_views(r@) =~= string_views(before).push(name@));
        }
        let ghost fb = front@;
        front.push(name.clone());
        assert(string_views(front@) =~= string_views(fb).push(name@));
        assert(string_views(front@) =~= all.take(i + 1));
        i += 1;
    }
    assert(all.take(names.len() as int) =~= all);
    r
}

/// Whether some span has the span at `i` as its parent.
pub fn span_has_child(trace: &Trace, i: usize) -> (r: bool)
    ensures
        r == has_child(trace.span_views(), i),
{
    let ghost sv = trace.span_views();
    let mut j: usize = 0;
    while j < trace.spans.len()
        invariant
            j <= trace.spans.len(),
            sv == trace.span_views(),
            forall|x: int| 0 <= x < j ==> (#[trigger] sv[x]).parent != Some(i),
        decreases trace.spans.len() - j,
    {
        assert(sv[j as int] == trace.spans@[j as int]@);
        match trace.spans[j].parent {
            Some(p) => {
                if p == i {
                    return true;
                }
            },
            None => {},
        }
        j += 1;
    }
    false
}

/// The chain of the span at `i`, with what was seen along it.
pub fn span_chain(trace: &Trace, caching_process: &Vec<String>, i: usize) -> (r: SpanChain)
    requires
        trace.well_formed(),
        i < trace.spans.len(),
    ensures
        r@ == chain_of_span(*trace, string_views(caching_process@), i),
        r@.key.chain.len() >= 1,
{
    let ghost sv = trace.span_views();
    let path = span_path(trace, i);
    let mut call_chain: Vec<Call> = Vec::new();
    let mut processes: Vec<String> = Vec::new();
    let mut http_not_ok: Vec<i16> = Vec::new();
    let mut error_logs: Vec<String> = Vec::new();
    let mut k: usize = 0;
    proof {
        assert(path@.take(0) =~= Seq::<usize>::empty());
        assert(chain_view(call_chain@) =~= calls_at(sv, path@.take(0)));
        assert(string_views(processes@) =~= processes_of(calls_at(sv, path@.take(0))));
        assert(string_views(error_logs@) =~= logs_at(sv, path@.take(0)));
    }
    while k < path.len()
        invariant
            k <= path.len(),
            sv == trace.span_views(),
            forall|x: int| 0 <= x < path.len() ==> #[trigger] path@[x] < trace.spans.len(),
            call_chain.len() == k,
            chain_view(call_chain@) == calls_at(sv, path@.take(k as int)),
            string_views(processes@) == processes_of(calls_at(sv, path@.take(k as int))),
            http_not_ok@ == codes_at(sv, path@.take(k as int)),
            string_views(error_logs@) == logs_at(sv, path@.take(k as int)),
        decreases path.len() - k,
    {
        let p = path[k];
        let span = &trace.spans[p];
        proof {
            assert(sv[p as int] == span@);
            assert(path@.take(k + 1).drop_last() =~= path@.take(k as int));
            assert(path@.take(k + 1).last() == p);
        }
        let call = Call {
            process: span.service_name.clone(),
            method: span.operation_name.clone(),
            call_direction: span.call_direction,
        };
        let ghost cb = call_chain@;
        let ghost pb = processes@;
        call_chain.push(call);
        processes.push(span.service_name.clone());
        proof {
            assert(chain_view(call_chain@) =~= chain_view(cb).push(call_of(span@)));
            assert(chain_view(call_chain@) =~= calls_at(sv, path@.take(k + 1)));
            assert(string_views(processes@) =~= string_views(pb).push(span.service_name@));
            assert(string_views(processes@) =~= processes_of(calls_at(sv, path@.take(k + 1))));
        }
        match span.http_status_code {
            Some(c) => {
                if c < 200 || c > 299 {
                    http_not_ok.push(c);
                }
            },
            None => {},
        }
        append_names(&mut error_logs, &span.error_logs);
        k += 1;
    }
    assert(path@.take(path.len() as int) =~= path@);
    let top = &trace.spans[path[0]];
    assert(sv[path@[0] as int] == top@);
    let caching = caching_process_label(caching_process, &call_chain);
    SpanChain {
        span: i,
        key: CChainStatsKey {
            call_chain,
            caching_process: caching,
            is_leaf: !span_has_child(trace, i),
        },
        rooted: top.parent_id.is_none(),
        seen: ChainObservation {
            duration_micros: trace.duration_micros,
            start_dt_micros: trace.start_dt_micros,
            looped: repeated_names(&processes),
            http_not_ok,
            error_logs,
        },
    }
}

/// The chains of the spans of a trace, one per span, in the order of the
/// spans.
pub fn extract_chains(trace: &Trace, caching_process: &Vec<String>) -> (r: Vec<SpanChain>)
    requires
        trace.well_formed(),
    ensures
        r.len() == trace.spans.len(),
        r@.map_values(|c: SpanChain| c@) == chains_of_trace(
            *trace,
            string_views(caching_process@),
            trace.spans.len() as int,
        ),
        forall|i: int| 0 <= i < r.len() ==> (#[trigger] r@[i])@.key.chain.len() >= 1,
{
    let mut r: Vec<SpanChain> = Vec::new();
    let mut i: usize = 0;
    let ghost caching = string_views(caching_process@);
    while i < trace.spans.len()
        invariant
            i <= trace.spans.len(),
            trace.well_formed(),
            caching == string_views(caching_process@),
            r.len() == i,
            r@.map_values(|c: SpanChain| c@) == chains_of_trace(*trace, caching, i as int),
            forall|j: int| 0 <= j < r.len() ==> (#[trigger] r@[j])@.key.chain.len() >= 1,
        decreases trace.spans.len() - i,
    {
        let c = span_chain(trace, caching_process, i);
        let ghost before = r@;
        r.push(c);
        assert(r@.map_values(|c: SpanChain| c@) =~= before.map_values(|c: SpanChain| c@).push(c@));
        assert(r@.map_values(|c: SpanChain| c@) =~= chains_of_trace(*trace, caching, i + 1));
        i += 1;
    }
    r
}

/// The expected chains that a chain is held against: those of its end
/// point, where the chain is not rooted and the cache holds chains for the
/// end point.
pub open spec fn expected_for(key: KeyView, rooted: bool, cache: CChainEndPointCache) -> Option<
    Seq<KeyView>,
> {
    if rooted || key.chain.len() == 0 {
        None
    } else {
        match cache.entry(endpoint_stem(process_method_text(key.chain.first()))) {
            Some(Some(expected)) => Some(expected),
            _ => None,
        }
    }
}

/// The chain of a span after it was held against the expected chains: a
/// chain for which one is chosen takes the chain and the leaf flag of that
/// one and counts as rooted; any other chain stays as it is.
pub open spec fn remapped_sighting(c: SpanChainView, cache: CChainEndPointCache) -> SpanChainView {
    match expected_for(c.key, c.rooted, cache) {
        Some(expected) => if remap_choice(c.key, expected) is Some {
            SpanChainView {
                span: c.span,
                key: remapped(c.key, expected),
                rooted: true,
                duration_micros: c.duration_micros,
                start_dt_micros: c.start_dt_micros,
                looped: c.looped,
                http_not_ok: c.http_not_ok,
                error_logs: c.error_logs,
            }
        } else {
            c
        },
        None => c,
    }
}

/// The report after a chain was held against the expected chains: with a
/// note in the details where three or more of them end in the chain.
pub open spec fn with_sighting_note(
    chapters: Seq<Seq<Seq<char>>>,
    c: SpanChainView,
    cache: CChainEndPointCache,
) -> Seq<Seq<Seq<char>>> {
    match expected_for(c.key, c.rooted, cache) {
        Some(expected) => with_remap_note(chapters, c.key, expected),
        None => chapters,
    }
}

/// The chains of the first `n` spans of a trace, each held against the
/// expected chains.
pub open spec fn remapped_chains_of_trace(
    trace: Trace,
    caching: Seq<Seq<char>>,
    cache: CChainEndPointCache,
    n: int,
) -> Seq<SpanChainView> {
    Seq::new(n as nat, |i: int| remapped_sighting(chain_of_span(trace, caching, i as usize), cache))
}

/// The report after the chains of the first `n` spans of a trace were held
/// against the expected chains.
pub open spec fn with_sighting_notes(
    chapters: Seq<Seq<Seq<char>>>,
    trace: Trace,
    caching: Seq<Seq<char>>,
    cache: CChainEndPointCache,
    n: int,
) -> Seq<Seq<Seq<char>>>
    decreases n,
{
    if n <= 0 {
        chapters
    } else {
        with_sighting_note(
            with_sighting_notes(chapters, trace, caching, cache, n - 1),
            chain_of_span(trace, caching, (n - 1) as usize),
            cache,
        )
    }
}

/// Whether the end point of some chain that is not rooted has the given
/// file stem and is not loaded.
pub open spec fn sighting_needs_loading(
    chains: Seq<SpanChainView>,
    cache: CChainEndPointCache,
    stem: Seq<char>,
) -> bool {
    exists|i: int|
        0 <= i < chains.len() && !(#[trigger] chains[i]).rooted && chains[i].key.chain.len() > 0
            && endpoint_stem(process_method_text(chains[i].key.chain.first())) == stem
            && cache.entry(stem) is None
}

/// Holds the chain of a span against the expected chains of its end point,
/// as far as the cache holds them, and notes in the report where three or
/// more of them end in the chain.
pub fn remap_sighting(c: &SpanChain, cache: &CChainEndPointCache, report: &mut Report) -> (r:
    SpanChain)
    ensures
        r@ == remapped_sighting(c@, *cache),
        final(report)@ == with_sighting_note(old(report)@, c@, *cache),
{
    let mut key = c.key.clone();
    let mut rooted = c.rooted;
    if !c.rooted && c.key.call_chain.len() > 0 {
        let stem = endpoint_file_stem(c.key.get_endpoint().as_str());
        match cache.get_cchain_key(stem.as_str()) {
            Some(expected) => {
                if key.remap_callchain(expected, report) {
                    rooted = true;
                }
            },
            None => {},
        }
    }
    SpanChain {
        span: c.span,
        key,
        rooted,
        seen: ChainObservation {
            duration_micros: c.seen.duration_micros,
            start_dt_micros: c.seen.start_dt_micros,
            looped: clone_names(&c.seen.looped),
            http_not_ok: c.seen.http_not_ok.clone(),
            error_logs: clone_names(&c.seen.error_logs),
        },
    }
}

/// The file stems of the end points whose expected chains have to be
/// loaded before the chains can be held against them, each once, in the
/// order of a dictionary.
pub fn stems_to_load(chains: &Vec<SpanChain>, cache: &CChainEndPointCache) -> (stems: Vec<String>)
    ensures
        strictly_sorted(string_views(stems@)),
        forall|t: Seq<char>|
            #![trigger string_views(stems@).contains(t)]
            string_views(stems@).contains(t) <==> sighting_needs_loading(
                chains@.map_values(|c: SpanChain| c@),
                *cache,
                t,
            ),
{
    let ghost all = chains@.map_values(|c: SpanChain| c@);
    let mut stems: Vec<String> = Vec::new();
    let mut i: usize = 0;
    assert(string_views(stems@) =~= Seq::<Seq<char>>::empty());
    while i < chains.len()
        invariant
            i <= chains.len(),
            all == chains@.map_values(|c: SpanChain| c@),
            strictly_sorted(string_views(stems@)),
            forall|t: Seq<char>|
                #![trigger string_views(stems@).contains(t)]
                string_views(stems@).contains(t) <==> sighting_needs_loading(
                    all.take(i as int),
                    *cache,
                    t,
                ),
        decreases chains.len() - i,
    {
        let c = &chains[i];
        let ghost seen = all.take(i as int);
        let ghost next = all.take(i + 1);
        let ghost e = all[i as int];
        assert(e == c@);
        let ghost before = string_views(stems@);
        if !c.rooted && c.key.call_chain.len() > 0 {
            let stem = endpoint_file_stem(c.key.get_endpoint().as_str());
            if !cache.is_loaded(stem.as_str()) {
                insert_sorted(&mut stems, stem.as_str());
            }
        }
        proof {
            let mine = endpoint_stem(process_method_text(e.key.chain.first()));
            let hit = !e.rooted && e.key.chain.len() > 0 && cache.entry(mine) is None;
            assert forall|t: Seq<char>|
                #![trigger string_views(stems@).contains(t)]
                string_views(stems@).contains(t) <==> sighting_needs_loading(next, *cache, t) by {
                assert(string_views(stems@).contains(t) <==> before.contains(t) || (hit && t
                    == mine));
                assert(before.contains(t) <==> sighting_needs_loading(seen, *cache, t));
                if sighting_needs_loading(seen, *cache, t) {
                    let x = choose|x: int|
                        0 <= x < seen.len() && !(#[trigger] seen[x]).rooted
                            && seen[x].key.chain.len() > 0 && endpoint_stem(
                            process_method_text(seen[x].key.chain.first()),
                        ) == t && cache.entry(t) is None;
                    assert(next[x] == seen[x]);
                }
                if hit && t == mine {
                    assert(next[i as int] == e);
                }
                if sighting_needs_loading(next, *cache, t) {
                    let x = choose|x: int|
                        0 <= x < next.len() && !(#[trigger] next[x]).rooted
                            && next[x].key.chain.len() > 0 && endpoint_stem(
                            process_method_text(next[x].key.chain.first()),
                        ) == t && cache.entry(t) is None;
                    if x < i {
                        assert(seen[x] == next[x]);
                    }
                }
            }
        }
        i += 1;
    }
    assert(all.take(chains.len() as int) =~= all);
    stems
}

/// The chains of the spans of a trace, one per span and in the order of
/// the spans, each held against the expected chains of its end point.
pub fn extract_remapped_chains(
    trace: &Trace,
    caching_process: &Vec<String>,
    cache: &CChainEndPointCache,
    report: &mut Report,
) -> (r: Vec<SpanChain>)
    requires
        trace.well_formed(),
    ensures
        r.len() == trace.spans.len(),
        r@.map_values(|c: SpanChain| c@) == remapped_chains_of_trace(
            *trace,
            string_views(caching_process@),
            *cache,
            trace.spans.len() as int,
        ),
        forall|i: int| 0 <= i < r.len() ==> (#[trigger] r@[i])@.key.chain.len() >= 1,
        final(report)@ == with_sighting_notes(
            old(report)@,
            *trace,
            string_views(caching_process@),
            *cache,
            trace.spans.len() as int,
        ),
{
    let plain = extract_chains(trace, caching_process);
    let ghost caching = string_views(caching_process@);
    let ghost pv = plain@.map_values(|c: SpanChain| c@);
    let mut r: Vec<SpanChain> = Vec::new();
    let mut i: usize = 0;
    while i < plain.len()
        invariant
            i <= plain.len(),
            plain.len() == trace.spans.len(),
            caching == string_views(caching_process@),
            pv == plain@.map_values(|c: SpanChain| c@),
            pv == chains_of_trace(*trace, caching, trace.spans.len() as int),
            forall|j: int| 0 <= j < plain.len() ==> (#[trigger] plain@[j])@.key.chain.len() >= 1,
            r.len() == i,
            r@.map_values(|c: SpanChain| c@) == remapped_chains_of_trace(
                *trace,
                caching,
                *cache,
                i as int,
            ),
            forall|j: int| 0 <= j < r.len() ==> (#[trigger] r@[j])@.key.chain.len() >= 1,
            report@ == with_sighting_notes(old(report)@, *trace, caching, *cache, i as int),
        decreases plain.len() - i,
    {
        assert(pv[i as int] == plain@[i as int]@);
        assert(pv[i as int] == chain_of_span(*trace, caching, i));
        let c = remap_sighting(&plain[i], cache, report);
        proof {
            let before = plain@[i as int]@;
            if c@ != before {
                let expected = expected_for(before.key, before.rooted, *cache)->0;
                crate::remap::lemma_tail_matches(before.key.chain, expected);
            }
        }
        let ghost done = r@;
        r.push(c);
        assert(r@.map_values(|c: SpanChain| c@) =~= done.map_values(|c: SpanChain| c@).push(c@));
        assert(r@.map_values(|c: SpanChain| c@) =~= remapped_chains_of_trace(
            *trace,
            caching,
            *cache,
            i + 1,
        ));
        i += 1;
    }
    r
}

} // verus!
