//! A trace: the spans of one request, each with its parent looked up, and
//! the span at which the request entered.

use crate::keyed::Keyed;
use crate::lex::{lex_lt, text_before};
use crate::raw_jaeger::{JaegerItem, JaegerProcess};
use crate::span::{
    normal_span, normalize_span, span_issues, IngestIssue, Span, SpanIssue, SpanView,
};
use crate::text::{chars_of, index_of, lemma_index_of_at};
use vstd::prelude::*;

verus! {

/// The spans of one request.
#[derive(Debug)]
pub struct Trace {
    pub trace_id: String,
    pub spans: Vec<Span>,
    /// The place of the root: of the spans without a reference to a parent,
    /// the one that started first; of two that started together, the one
    /// whose id comes first.
    pub root: Option<usize>,
    /// The start of the trace, in microseconds since the epoch: that of the
    /// root, or of the first span to start where there is no root.
    pub start_dt_micros: i64,
    /// The duration of the trace, in microseconds, taken as the start is.
    pub duration_micros: i64,
}

/// The plain values of a list of spans.
pub open spec fn spans_view(spans: Seq<Span>) -> Seq<SpanView> {
    spans.map_values(|s: Span| s@)
}

/// The ids of the spans.
pub open spec fn span_ids(spans: Seq<SpanView>) -> Seq<Seq<char>> {
    spans.map_values(|s: SpanView| s.span_id)
}

/// The name of the service of a process, where the process is listed.
pub open spec fn service_of(processes: Keyed<JaegerProcess>, id: Seq<char>) -> Option<Seq<char>> {
    if processes.map().dom().contains(id) {
        Some(processes.map()[id].service_name@)
    } else {
        None
    }
}

/// The place of the parent of the span at `i`: the first span with the id
/// that the span names as its parent, unless that is the span itself.
pub open spec fn parent_place(ids: Seq<Seq<char>>, i: int, parent_id: Option<Seq<char>>) -> Option<
    usize,
> {
    match parent_id {
        Some(p) => {
            let j = index_of(ids, p);
            if j < ids.len() && j != i {
                Some(j as usize)
            } else {
                None
            }
        },
        None => None,
    }
}

/// The span with its parent looked up among the ids.
pub open spec fn with_parent(s: SpanView, ids: Seq<Seq<char>>, i: int) -> SpanView {
    SpanView {
        trace_id: s.trace_id,
        span_id: s.span_id,
        operation_name: s.operation_name,
        service_name: s.service_name,
        start_dt_micros: s.start_dt_micros,
        duration_micros: s.duration_micros,
        parent_id: s.parent_id,
        parent: parent_place(ids, i, s.parent_id),
        call_direction: s.call_direction,
        http_status_code: s.http_status_code,
        error: s.error,
        warnings: s.warnings,
        error_logs: s.error_logs,
    }
}

/// The spans of a raw trace in normal form, parents not yet looked up.
pub open spec fn normal_spans(item: JaegerItem) -> Seq<SpanView> {
    Seq::new(
        item.spans@.len(),
        |i: int|
            normal_span(
                item.spans@[i],
                service_of(item.processes, item.spans@[i].process_id@),
                item.trace_id@,
            ),
    )
}

/// The spans of a raw trace in normal form, each with its parent.
pub open spec fn trace_spans(item: JaegerItem) -> Seq<SpanView> {
    let spans = normal_spans(item);
    Seq::new(spans.len(), |i: int| with_parent(spans[i], span_ids(spans), i))
}

/// Whether span `a` comes before span `b` as a start of the trace.
pub open spec fn starts_before(a: SpanView, b: SpanView) -> bool {
    a.start_dt_micros < b.start_dt_micros || (a.start_dt_micros == b.start_dt_micros && lex_lt(
        a.span_id,
        b.span_id,
    ))
}

/// Whether a span can be the start that is looked for: any span, or only
/// one without a reference to a parent.
pub open spec fn can_start(s: SpanView, roots_only: bool) -> bool {
    !roots_only || s.parent_id is None
}

/// Among the first `n` spans, the place of the one that starts the trace;
/// of several that do so alike, the first.
pub open spec fn first_start(spans: Seq<SpanView>, roots_only: bool, n: int) -> Option<usize>
    decreases n,
{
    if n <= 0 {
        None
    } else {
        let before = first_start(spans, roots_only, n - 1);
        if can_start(spans[n - 1], roots_only) && (before is None || starts_before(
            spans[n - 1],
            spans[before->0 as int],
        )) {
            Some((n - 1) as usize)
        } else {
            before
        }
    }
}

/// The span that starts the trace can start it, and no other span that can
/// comes before it.
pub proof fn lemma_first_start(spans: Seq<SpanView>, roots_only: bool, n: int)
    requires
        0 <= n <= spans.len(),
        n <= usize::MAX,
    ensures
        match first_start(spans, roots_only, n) {
            Some(r) => r < n && can_start(spans[r as int], roots_only) && forall|j: int|
                0 <= j < n && can_start(#[trigger] spans[j], roots_only) ==> !starts_before(
                    spans[j],
                    spans[r as int],
                ),
            None => forall|j: int| 0 <= j < n ==> !can_start(#[trigger] spans[j], roots_only),
        },
    decreases n,
{
    if n > 0 {
        lemma_first_start(spans, roots_only, n - 1);
        let before = first_start(spans, roots_only, n - 1);
        let s = spans[n - 1];
        if can_start(s, roots_only) && before is Some && starts_before(s, spans[before->0 as int]) {
            let b = spans[before->0 as int];
            assert forall|j: int|
                0 <= j < n && can_start(#[trigger] spans[j], roots_only) implies !starts_before(
                spans[j],
                s,
            ) by {
                if j < n - 1 && starts_before(spans[j], s) {
                    lemma_starts_before_transitive(spans[j], s, b);
                }
                if j == n - 1 {
                    crate::lex::lemma_lex_irreflexive(s.span_id);
                }
            }
        } else if can_start(s, roots_only) && before is None {
            crate::lex::lemma_lex_irreflexive(s.span_id);
        }
    }
}

proof fn lemma_starts_before_transitive(a: SpanView, b: SpanView, c: SpanView)
    requires
        starts_before(a, b),
        starts_before(b, c),
    ensures
        starts_before(a, c),
{
    if a.start_dt_micros == b.start_dt_micros && b.start_dt_micros == c.start_dt_micros {
        crate::lex::lemma_lex_transitive(a.span_id, b.span_id, c.span_id);
    }
}

/// What is wrong with the spans of a raw trace: for each span in turn, what
/// is wrong with its tags and references, and then whether its parent is
/// missing.
pub open spec fn trace_issues(item: JaegerItem, n: int) -> Seq<SpanIssue>
    decreases n,
{
    if n <= 0 {
        Seq::<SpanIssue>::empty()
    } else {
        let i = n - 1;
        let raw = item.spans@[i];
        let own = span_issues(
            raw,
            service_of(item.processes, raw.process_id@) is Some,
            item.trace_id@,
        );
        let tagged = Seq::new(own.len(), |k: int| SpanIssue { span: i as usize, issue: own[k] });
        let s = trace_spans(item)[i];
        let orphan = if s.parent_id is Some && s.parent is None {
            seq![SpanIssue { span: i as usize, issue: IngestIssue::Orphan }]
        } else {
            Seq::<SpanIssue>::empty()
        };
        trace_issues(item, n - 1) + tagged + orphan
    }
}

/// Whether a trace is the normal form of a raw trace: it has the spans of
/// the raw trace in normal form, each with its parent; its root is the span
/// without a reference to a parent that starts first; and its times are
/// those of the root, or of the span that starts first where there is no
/// root.
pub open spec fn is_normal_form(t: Trace, item: JaegerItem) -> bool {
    &&& t.well_formed()
    &&& t.trace_id@ == item.trace_id@
    &&& t.span_views() == trace_spans(item)
    &&& t.root == first_start(trace_spans(item), true, item.spans.len() as int)
    &&& match first_start(trace_spans(item), t.root is Some, item.spans.len() as int) {
        Some(top) => t.start_dt_micros == trace_spans(item)[top as int].start_dt_micros
            && t.duration_micros == trace_spans(item)[top as int].duration_micros,
        None => t.start_dt_micros == 0 && t.duration_micros == 0,
    }
}

/// The place of the first span with the given id, or the number of spans.
pub fn find_span(spans: &Vec<Span>, id: &String) -> (i: usize)
    ensures
        i == index_of(span_ids(spans_view(spans@)), id@),
        i <= spans.len(),
{
    let mut i: usize = 0;
    while i < spans.len() && !(spans[i].span_id == *id)
        invariant
            i <= spans.len(),
            forall|j: int| 0 <= j < i ==> span_ids(spans_view(spans@))[j] != id@,
        decreases spans.len() - i,
    {
        i += 1;
    }
    proof {
        lemma_index_of_at(span_ids(spans_view(spans@)), id@, i as int);
    }
    i
}

/// Whether span `a` comes before span `b` as a start of the trace.
pub fn span_starts_before(a: &Span, b: &Span) -> (r: bool)
    ensures
        r == starts_before(a@, b@),
{
    if a.start_dt_micros < b.start_dt_micros {
        true
    } else if a.start_dt_micros > b.start_dt_micros {
        false
    } else {
        text_before(&chars_of(a.span_id.as_str()), &chars_of(b.span_id.as_str()))
    }
}

/// The place of the span that starts the trace.
pub fn find_first_start(spans: &Vec<Span>, roots_only: bool) -> (r: Option<usize>)
    ensures
        r == first_start(spans_view(spans@), roots_only, spans.len() as int),
{
    let ghost sv = spans_view(spans@);
    let mut best: Option<usize> = None;
    let mut i: usize = 0;
    while i < spans.len()
        invariant
            i <= spans.len(),
            sv == spans_view(spans@),
            best == first_start(sv, roots_only, i as int),
            best matches Some(b) ==> b < i,
        decreases spans.len() - i,
    {
        let can = !roots_only || spans[i].parent_id.is_none();
        if can {
            let better = match best {
                None => true,
                Some(b) => span_starts_before(&spans[i], &spans[b]),
            };
            if better {
                best = Some(i);
            }
        }
        i += 1;
    }
    best
}

impl Trace {
    /// The spans as plain values.
    pub open spec fn span_views(&self) -> Seq<SpanView> {
        spans_view(self.spans@)
    }

    /// The trace is valid: the parent of a span is the place of another
    /// span, and the root is the place of a span.
    pub open spec fn well_formed(&self) -> bool {
        &&& forall|i: int|
            0 <= i < self.spans.len() ==> ((#[trigger] self.spans@[i]).parent matches Some(p)
                ==> p < self.spans.len() && p != i)
        &&& self.root matches Some(r) ==> r < self.spans.len()
    }

    /// Brings a raw trace into normal form, and lists what was found wrong
    /// with its spans.
    pub fn build(item: &JaegerItem) -> (r: (Trace, Vec<SpanIssue>))
        requires
            item.processes.keys.len() == item.processes.values.len(),
        ensures
            is_normal_form(r.0, *item),
            r.1@ == trace_issues(*item, item.spans.len() as int),
    {
        let ghost normal = normal_spans(*item);
        let ghost target = trace_spans(*item);
        let mut spans: Vec<Span> = Vec::new();
        let mut own: Vec<Vec<IngestIssue>> = Vec::new();
        let mut i: usize = 0;
        while i < item.spans.len()
            invariant
                i <= item.spans.len(),
                item.processes.keys.len() == item.processes.values.len(),
                normal == normal_spans(*item),
                spans.len() == i,
                own.len() == i,
                spans_view(spans@) == normal.take(i as int),
                forall|j: int|
                    0 <= j < i ==> (#[trigger] own@[j])@ == span_issues(
                        item.spans@[j],
                        service_of(item.processes, item.spans@[j].process_id@) is Some,
                        item.trace_id@,
                    ),
            decreases item.spans.len() - i,
        {
            let raw = &item.spans[i];
            let service = match item.processes.find(raw.process_id.as_str()) {
                Some(p) => Some(&item.processes.values[p].service_name),
                None => None,
            };
            let (span, issues) = normalize_span(raw, service, &item.trace_id);
            let ghost before = spans@;
            spans.push(span);
            own.push(issues);
            assert(spans_view(spans@) =~= spans_view(before).push(span@));
            assert(spans_view(spans@) =~= normal.take(i + 1));
            i += 1;
        }
        assert(normal.take(item.spans.len() as int) =~= normal);
        let ghost ids = span_ids(normal);
        let mut issues: Vec<SpanIssue> = Vec::new();
        let mut i: usize = 0;
        let n = spans.len();
        while i < n
            invariant
                i <= n,
                n == spans.len(),
                n == item.spans.len(),
                own.len() == n,
                normal == normal_spans(*item),
                target == trace_spans(*item),
                ids == span_ids(normal),
                span_ids(spans_view(spans@)) == ids,
                forall|j: int| 0 <= j < i ==> (#[trigger] spans_view(spans@)[j]) == target[j],
                forall|j: int| i <= j < n ==> (#[trigger] spans_view(spans@)[j]) == normal[j],
                forall|j: int|
                    0 <= j < n ==> (#[trigger] own@[j])@ == span_issues(
                        item.spans@[j],
                        service_of(item.processes, item.spans@[j].process_id@) is Some,
                        item.trace_id@,
                    ),
                issues@ == trace_issues(*item, i as int),
            decreases n - i,
        {
            let ghost before_spans = spans_view(spans@);
            let ghost before = spans@;
            assert(before_spans[i as int] == normal[i as int]);
            assert(before_spans[i as int] == before[i as int]@);
            let parent = match &spans[i].parent_id {
                Some(p) => {
                    let j = find_span(&spans, p);
                    if j < n && j != i {
                        Some(j)
                    } else {
                        None
                    }
                },
                None => None,
            };
            assert(parent == parent_place(ids, i as int, normal[i as int].parent_id));
            spans[i].parent = parent;
            proof {
                assert(spans@.len() == before.len());
                assert forall|j: int| 0 <= j < n && j != i implies spans@[j] == before[j] by {}
                assert forall|j: int| 0 <= j < n && j != i implies #[trigger] spans_view(spans@)[j]
                    == before_spans[j] by {
                    assert(spans_view(spans@)[j] == spans@[j]@);
                    assert(before_spans[j] == before[j]@);
                }
                assert(spans_view(spans@)[i as int] == spans@[i as int]@);
                assert(target[i as int] == with_parent(normal[i as int], ids, i as int));
                assert(spans_view(spans@)[i as int] == target[i as int]);
                assert(span_ids(spans_view(spans@)) =~= ids) by {
                    assert forall|j: int| 0 <= j < n implies span_ids(spans_view(spans@))[j]
                        == ids[j] by {
                        if j != i {
                            assert(spans_view(spans@)[j] == before_spans[j]);
                        }
                        assert(span_ids(before_spans)[j] == ids[j]);
                    }
                }
            }
            let ghost seen = issues@;
            let ghost own_i = own@[i as int]@;
            let mut k: usize = 0;
            while k < own[i].len()
                invariant
                    k <= own[i as int].len(),
                    i < own.len(),
                    own_i == own@[i as int]@,
                    issues@ == seen + Seq::new(
                        k as nat,
                        |x: int| SpanIssue { span: i, issue: own_i[x] },
                    ),
                decreases own[i as int].len() - k,
            {
                issues.push(SpanIssue { span: i, issue: own[i][k] });
                assert(issues@ =~= seen + Seq::new(
                    (k + 1) as nat,
                    |x: int| SpanIssue { span: i, issue: own_i[x] },
                ));
                k += 1;
            }
            let ghost tagged = issues@;
            if spans[i].parent_id.is_some() && parent.is_none() {
                issues.push(SpanIssue { span: i, issue: IngestIssue::Orphan });
            }
            proof {
                let s = target[i as int];
                let orphan = if s.parent_id is Some && s.parent is None {
                    seq![SpanIssue { span: i, issue: IngestIssue::Orphan }]
                } else {
                    Seq::<SpanIssue>::empty()
                };
                assert(issues@ =~= tagged + orphan);
            }
            i += 1;
        }
        assert(spans_view(spans@) =~= target);
        proof {
            assert forall|j: int| 0 <= j < spans.len() implies ((#[trigger] spans@[j]).parent matches Some(
                p,
            ) ==> p < spans.len() && p != j) by {
                assert(spans_view(spans@)[j] == spans@[j]@);
                assert(target[j] == with_parent(normal[j], ids, j));
                assert(ids.len() == spans.len());
                if normal[j].parent_id is Some {
                    crate::text::lemma_index_of(ids, normal[j].parent_id->0);
                }
            }
        }
        let root = find_first_start(&spans, true);
        let top = if root.is_some() {
            root
        } else {
            find_first_start(&spans, false)
        };
        proof {
            lemma_first_start(target, true, n as int);
            lemma_first_start(target, false, n as int);
        }
        let (start_dt_micros, duration_micros) = match top {
            Some(t) => (spans[t].start_dt_micros, spans[t].duration_micros),
            None => (0, 0),
        };
        let trace = Trace {
            trace_id: item.trace_id.clone(),
            spans,
            root,
            start_dt_micros,
            duration_micros,
        };
        (trace, issues)
    }
}

} // verus!
