use jaeger_stats::aggregate::record_chain;
use jaeger_stats::call::CallDirection;
use jaeger_stats::cchain_cache::CChainEndPointCache;
use jaeger_stats::extract::{
    extract_chains, extract_remapped_chains, remap_sighting, span_chain, span_path, stems_to_load,
};
use jaeger_stats::ingest::{extract_traces, issue_message, report_issues};
use jaeger_stats::keyed::Keyed;
use jaeger_stats::raw_jaeger::{
    JaegerItem, JaegerLog, JaegerProcess, JaegerReference, JaegerSpan, JaegerTag, JaegerTrace,
    TagValue,
};
use jaeger_stats::report::{Chapter, Report};
use jaeger_stats::span::{IngestIssue, SpanIssue};
use jaeger_stats::stats_rec::StatsRec;
use jaeger_stats::trace::Trace;

fn tag(key: &str, value: TagValue) -> JaegerTag {
    JaegerTag { key: key.to_string(), type_id: "string".to_string(), value }
}

fn text(value: &str) -> TagValue {
    TagValue::String(value.to_string())
}

fn child_of(trace: &str, span: &str) -> JaegerReference {
    JaegerReference {
        ref_type: "CHILD_OF".to_string(),
        trace_id: trace.to_string(),
        span_id: span.to_string(),
    }
}

fn span(
    id: &str,
    operation: &str,
    process: &str,
    start: u64,
    duration: u64,
    kind: Option<&str>,
    parent: Option<&str>,
) -> JaegerSpan {
    let mut tags = Vec::new();
    if let Some(k) = kind {
        tags.push(tag("span.kind", text(k)));
    }
    let mut references = Vec::new();
    if let Some(p) = parent {
        references.push(child_of("t1", p));
    }
    JaegerSpan {
        trace_id: "t1".to_string(),
        span_id: id.to_string(),
        flags: 1,
        operation_name: operation.to_string(),
        references,
        start_time: start,
        duration,
        tags,
        logs: Vec::new(),
        process_id: process.to_string(),
        warnings: None,
    }
}

fn processes() -> Keyed<JaegerProcess> {
    let mut p = Keyed::new();
    p.push_new("p1".to_string(), JaegerProcess { service_name: "svcA".to_string(), tags: Vec::new() });
    p.push_new("p2".to_string(), JaegerProcess { service_name: "svcB".to_string(), tags: Vec::new() });
    p
}

fn item(spans: Vec<JaegerSpan>) -> JaegerItem {
    JaegerItem { trace_id: "t1".to_string(), spans, processes: processes(), warnings: None }
}

fn two_span_item() -> JaegerItem {
    item(vec![
        span("a1", "POST", "p1", 1_000_000, 10_000, Some("server"), None),
        span("b1", "GET", "p2", 1_002_000, 4_000, Some("client"), Some("a1")),
    ])
}

fn orphan_item() -> JaegerItem {
    item(vec![span("b1", "GET", "p2", 1_002_000, 4_000, Some("client"), Some("a1"))])
}

fn extend(rec: &mut StatsRec, trace: &Trace) {
    let cache = CChainEndPointCache::new(String::new());
    let mut report = Report::new();
    rec.extend_statistics(trace, &cache, &mut report);
    assert_eq!(report.chapters(), 0);
}

const TWO_STEP: &str = "svcA/POST [Inbound] | svcB/GET [Outbound] & & *LEAF*";

#[test]
fn single_two_span_trace() {
    let (trace, issues) = Trace::build(&two_span_item());
    assert!(issues.is_empty());
    assert_eq!(trace.root, Some(0));
    assert_eq!(trace.duration_micros, 10_000);
    assert_eq!(trace.start_dt_micros, 1_000_000);
    assert_eq!(trace.spans[1].parent, Some(0));
    assert_eq!(trace.spans[0].call_direction, CallDirection::Inbound);
    assert_eq!(trace.spans[1].call_direction, CallDirection::Outbound);

    let mut rec = StatsRec::new(Vec::new(), 1);
    extend(&mut rec, &trace);
    assert_eq!(rec.trace_id, vec!["t1".to_string()]);
    assert_eq!(rec.duration_micros, vec![10_000]);
    assert_eq!(rec.call_chains.keys.len(), 2);

    let at = rec.call_chains.find(TWO_STEP).unwrap();
    let entry = &rec.call_chains.values[at];
    assert_eq!(entry.value.count, 1);
    assert_eq!(entry.value.depth, 2);
    assert!(entry.value.rooted);
    assert_eq!(entry.value.duration_micros, vec![10_000]);
    assert_eq!(entry.value.start_dt_micros, vec![1_000_000]);
    assert!(entry.value.looped.is_empty());
    assert!(entry.key.is_leaf);
    assert_eq!(entry.key.get_leaf(), "svcB/GET");
    assert_eq!(entry.key.get_leaf_process(), "svcB");
    assert_eq!(entry.key.get_endpoint(), "svcA/POST");

    let root = rec.call_chains.find("svcA/POST [Inbound] & &").unwrap();
    assert_eq!(rec.call_chains.values[root].value.count, 1);
    assert_eq!(rec.call_chains.values[root].value.depth, 1);
    assert!(!rec.call_chains.values[root].key.is_leaf);
}

#[test]
fn two_span_trace_counts_operations_with_their_own_times() {
    let (trace, _) = Trace::build(&two_span_item());
    let mut rec = StatsRec::new(Vec::new(), 1);
    extend(&mut rec, &trace);
    assert_eq!(rec.operations.keys, vec!["svcA/POST".to_string(), "svcB/GET".to_string()]);
    let b = rec.operations.find("svcB/GET").unwrap();
    assert_eq!(rec.operations.values[b].count, 1);
    assert_eq!(rec.operations.values[b].duration_micros, vec![4_000]);
    assert_eq!(rec.operations.values[b].start_dt_micros, vec![1_002_000]);
    assert_eq!(rec.operations.values[b].num_not_http_ok, 0);
}

#[test]
fn orphan_child_without_cache() {
    let (trace, issues) = Trace::build(&orphan_item());
    assert_eq!(issues, vec![SpanIssue { span: 0, issue: IngestIssue::Orphan }]);
    assert_eq!(trace.root, None);
    assert_eq!(trace.spans[0].parent, None);
    assert_eq!(trace.spans[0].parent_id, Some("a1".to_string()));
    assert_eq!(trace.duration_micros, 4_000);

    let mut report = Report::new();
    report_issues(&mut report, "t1", &issues);
    assert_eq!(
        report.messages(Chapter::Ingest),
        vec!["trace t1 span 0: parent is not in the trace".to_string()]
    );

    let mut rec = StatsRec::new(Vec::new(), 1);
    extend(&mut rec, &trace);
    let key = "svcB/GET [Outbound] & & *LEAF*";
    let at = rec.call_chains.find(key).unwrap();
    assert!(!rec.call_chains.values[at].value.rooted);
    assert!(rec.call_chains.values[at].value.looped.is_empty());

    let mut cache = CChainEndPointCache::new("CallChain/".to_string());
    assert_eq!(rec.endpoints_to_load(&cache), vec!["svcB_GET".to_string()]);
    cache.store_loaded(&mut report, "svcB_GET", None);
    assert!(rec.endpoints_to_load(&cache).is_empty());
    assert_eq!(rec.fix_cchain_stats(&cache, &mut report), 0);
    assert_eq!(
        report.messages(Chapter::Ingest),
        vec![
            "trace t1 span 0: parent is not in the trace".to_string(),
            "Could not find 'svcB_GET.cchain' so no call-chain available".to_string(),
        ]
    );
    let at = rec.call_chains.find(key).unwrap();
    assert!(!rec.call_chains.values[at].value.rooted);
    assert_eq!(rec.call_chains.values[at].value.count, 1);
    assert_eq!(rec.call_chains.keys.len(), 1);
}

#[test]
fn orphan_child_with_remap_hit() {
    let (trace, _) = Trace::build(&orphan_item());
    let mut rec = StatsRec::new(Vec::new(), 1);
    extend(&mut rec, &trace);

    let mut report = Report::new();
    let mut cache = CChainEndPointCache::new("CallChain/".to_string());
    let file = format!("{}\n", "svcA/POST [Inbound] | svcB/GET [Outbound] & &");
    cache.store_loaded(&mut report, "svcB_GET", Some(&file));
    assert_eq!(rec.fix_cchain_stats(&cache, &mut report), 1);
    assert_eq!(report.chapters(), 0);

    assert!(rec.call_chains.find("svcB/GET [Outbound] & & *LEAF*").is_none());
    assert_eq!(rec.call_chains.keys, vec!["svcA/POST [Inbound] | svcB/GET [Outbound] & &".to_string()]);
    let entry = &rec.call_chains.values[0];
    assert!(entry.value.rooted);
    assert!(!entry.key.is_leaf);
    assert_eq!(entry.value.count, 1);
    assert_eq!(entry.value.depth, 2);
    assert_eq!(entry.value.duration_micros, vec![4_000]);
}

#[test]
fn orphan_child_is_remapped_before_it_is_counted() {
    let (trace, _) = Trace::build(&orphan_item());
    let mut report = Report::new();
    let mut cache = CChainEndPointCache::new("CallChain/".to_string());
    let chains = extract_chains(&trace, &Vec::new());
    assert_eq!(stems_to_load(&chains, &cache), vec!["svcB_GET".to_string()]);
    cache.store_loaded(&mut report, "svcB_GET", Some(TWO_STEP));
    assert!(stems_to_load(&chains, &cache).is_empty());

    let mut rec = StatsRec::new(Vec::new(), 1);
    rec.extend_statistics(&trace, &cache, &mut report);
    assert_eq!(report.chapters(), 0);
    assert_eq!(rec.call_chains.keys, vec![TWO_STEP.to_string()]);
    let entry = &rec.call_chains.values[0];
    assert!(entry.value.rooted);
    assert!(entry.key.is_leaf);
    assert_eq!(entry.value.count, 1);
    assert_eq!(entry.value.depth, 2);
    assert!(rec.call_chains.find("svcB/GET [Outbound] & & *LEAF*").is_none());
    assert_eq!(rec.operations.keys, vec!["svcB/GET".to_string()]);
}

#[test]
fn sightings_are_held_against_the_expected_chains() {
    let (trace, _) = Trace::build(&orphan_item());
    let chains = extract_chains(&trace, &Vec::new());
    let mut report = Report::new();
    let mut cache = CChainEndPointCache::new(String::new());
    let same = remap_sighting(&chains[0], &cache, &mut report);
    assert!(!same.rooted);
    assert_eq!(same.key, chains[0].key);
    cache.store_loaded(
        &mut report,
        "svcB_GET",
        Some("a/1 | svcB/GET [Outbound] & &\nb/2 | svcB/GET [Outbound] & &\nc/3 | svcB/GET [Outbound] & &\n"),
    );
    let kept = remap_sighting(&chains[0], &cache, &mut report);
    assert!(!kept.rooted);
    assert_eq!(kept.key, chains[0].key);
    assert_eq!(
        report.messages(Chapter::Details),
        vec!["NO FIX: 3 matches found for non-rooted 'svcB/GET [Outbound] & & *LEAF*'".to_string()]
    );
    let all = extract_remapped_chains(&trace, &Vec::new(), &cache, &mut report);
    assert_eq!(all.len(), 1);
    assert_eq!(report.messages(Chapter::Details).len(), 2);

    let (whole, _) = Trace::build(&two_span_item());
    let rooted = extract_remapped_chains(&whole, &Vec::new(), &cache, &mut report);
    assert!(rooted.iter().all(|c| c.rooted));
    assert_eq!(report.messages(Chapter::Details).len(), 2);
    assert!(stems_to_load(&rooted, &CChainEndPointCache::new(String::new())).is_empty());
}

#[test]
fn remapped_chain_joins_the_rooted_one() {
    let (whole, _) = Trace::build(&two_span_item());
    let (part, _) = Trace::build(&orphan_item());
    let mut rec = StatsRec::new(Vec::new(), 1);
    extend(&mut rec, &whole);
    extend(&mut rec, &part);
    assert_eq!(rec.call_chains.keys.len(), 3);

    let mut report = Report::new();
    let mut cache = CChainEndPointCache::new(String::new());
    cache.store_loaded(&mut report, "svcB_GET", Some(TWO_STEP));
    assert_eq!(rec.fix_cchain_stats(&cache, &mut report), 1);
    assert_eq!(rec.call_chains.keys.len(), 2);
    let at = rec.call_chains.find(TWO_STEP).unwrap();
    assert_eq!(rec.call_chains.values[at].value.count, 2);
    assert_eq!(rec.call_chains.values[at].value.duration_micros, vec![10_000, 4_000]);
    assert!(rec.call_chains.values[at].value.rooted);
}

#[test]
fn ambiguous_remap_keeps_the_chain() {
    let (part, _) = Trace::build(&orphan_item());
    let mut rec = StatsRec::new(Vec::new(), 1);
    extend(&mut rec, &part);
    let mut report = Report::new();
    let mut cache = CChainEndPointCache::new(String::new());
    cache.store_loaded(
        &mut report,
        "svcB_GET",
        Some("a/1 | svcB/GET [Outbound] & &\nb/2 | svcB/GET [Outbound] & &\nc/3 | svcB/GET [Outbound] & &\n"),
    );
    assert_eq!(rec.fix_cchain_stats(&cache, &mut report), 0);
    assert!(rec.call_chains.find("svcB/GET [Outbound] & & *LEAF*").is_some());
    assert_eq!(
        report.messages(Chapter::Details),
        vec!["NO FIX: 3 matches found for non-rooted 'svcB/GET [Outbound] & & *LEAF*'".to_string()]
    );
}

#[test]
fn traces_are_checked_for_validity() {
    let (mut trace, _) = Trace::build(&two_span_item());
    assert!(trace.is_valid());
    trace.spans[1].parent = Some(1);
    assert!(!trace.is_valid());
    trace.spans[1].parent = Some(2);
    assert!(!trace.is_valid());
    trace.spans[1].parent = Some(0);
    trace.root = Some(2);
    assert!(!trace.is_valid());
    trace.root = None;
    assert!(trace.is_valid());
}

#[test]
fn root_is_earliest_span_without_parent() {
    let raw = item(vec![
        span("z9", "late", "p1", 500, 10, None, None),
        span("b2", "tie", "p1", 100, 10, None, None),
        span("a1", "first", "p1", 100, 20, None, None),
        span("c3", "child", "p2", 50, 5, None, Some("a1")),
    ]);
    let (trace, issues) = Trace::build(&raw);
    assert!(issues.is_empty());
    assert_eq!(trace.root, Some(2));
    assert_eq!(trace.start_dt_micros, 100);
    assert_eq!(trace.duration_micros, 20);
    assert_eq!(trace.spans[3].parent, Some(2));
}

#[test]
fn parent_is_first_child_of_reference_within_the_trace() {
    let mut child = span("b1", "GET", "p2", 10, 1, None, None);
    child.references = vec![
        JaegerReference {
            ref_type: "FOLLOWS_FROM".to_string(),
            trace_id: "t1".to_string(),
            span_id: "x".to_string(),
        },
        child_of("other", "y"),
        child_of("t1", "a1"),
        child_of("t1", "z"),
    ];
    let raw = item(vec![span("a1", "POST", "p1", 0, 20, None, None), child]);
    let (trace, issues) = Trace::build(&raw);
    assert_eq!(trace.spans[1].parent_id, Some("a1".to_string()));
    assert_eq!(trace.spans[1].parent, Some(0));
    assert_eq!(issues, vec![SpanIssue { span: 1, issue: IngestIssue::ForeignReference }]);
}

#[test]
fn span_that_names_itself_is_an_orphan() {
    let raw = item(vec![span("a1", "POST", "p1", 0, 20, None, Some("a1"))]);
    let (trace, issues) = Trace::build(&raw);
    assert_eq!(trace.spans[0].parent, None);
    assert_eq!(issues, vec![SpanIssue { span: 0, issue: IngestIssue::Orphan }]);
}

#[test]
fn malformed_span_is_kept_in_weaker_form() {
    let mut s = span("a1", "POST", "nowhere", 0, 20, Some("server"), Some("b1"));
    s.tags.push(tag("http.status_code", TagValue::Bool(true)));
    s.tags.push(tag("error", text("yes")));
    let raw = item(vec![s, span("b1", "GET", "p2", 1, 2, Some("producer"), None)]);
    let (trace, issues) = Trace::build(&raw);
    assert_eq!(trace.spans.len(), 2);
    assert_eq!(trace.spans[0].service_name, "");
    assert_eq!(trace.spans[0].call_direction, CallDirection::Unknown);
    assert_eq!(trace.spans[0].parent_id, None);
    assert_eq!(trace.spans[0].parent, None);
    assert_eq!(trace.spans[0].http_status_code, None);
    assert!(!trace.spans[0].error);
    assert_eq!(trace.spans[1].call_direction, CallDirection::Unknown);
    assert_eq!(
        issues,
        vec![
            SpanIssue { span: 0, issue: IngestIssue::UnknownProcess },
            SpanIssue { span: 0, issue: IngestIssue::BadStatusCode },
            SpanIssue { span: 0, issue: IngestIssue::BadErrorTag },
            SpanIssue { span: 1, issue: IngestIssue::UnknownSpanKind },
        ]
    );
}

#[test]
fn span_kind_that_is_no_string_is_dropped() {
    let mut s = span("a1", "POST", "p1", 0, 20, None, None);
    s.tags.push(tag("span.kind", TagValue::Number(Some(3))));
    let (trace, issues) = Trace::build(&item(vec![s]));
    assert_eq!(trace.spans[0].call_direction, CallDirection::Unknown);
    assert_eq!(issues, vec![SpanIssue { span: 0, issue: IngestIssue::BadSpanKind }]);
}

#[test]
fn status_codes_and_error_logs_are_kept() {
    let mut s = span("a1", "POST", "p1", 0, 20, Some("server"), None);
    s.tags.push(tag("http.status_code", TagValue::Number(Some(503))));
    s.tags.push(tag("error", TagValue::Bool(true)));
    s.warnings = Some(vec!["clock skew".to_string()]);
    s.logs = vec![
        JaegerLog { timestamp: 1, fields: vec![tag("level", text("INFO")), tag("message", text("fine"))] },
        JaegerLog { timestamp: 2, fields: vec![tag("level", text("ERROR")), tag("message", text("boom"))] },
        JaegerLog { timestamp: 3, fields: vec![tag("level", text("ERROR"))] },
    ];
    let mut t = span("b1", "GET", "p2", 1, 2, Some("client"), Some("a1"));
    t.tags.push(tag("http.status_code", text(" 200 ")));
    let (trace, issues) = Trace::build(&item(vec![s, t]));
    assert!(issues.is_empty());
    assert_eq!(trace.spans[0].http_status_code, Some(503));
    assert!(trace.spans[0].error);
    assert_eq!(trace.spans[0].warnings, vec!["clock skew".to_string()]);
    assert_eq!(trace.spans[0].error_logs, vec!["boom".to_string(), String::new()]);
    assert_eq!(trace.spans[1].http_status_code, Some(200));

    let mut rec = StatsRec::new(Vec::new(), 1);
    extend(&mut rec, &trace);
    let leaf = rec.call_chains.find(TWO_STEP).unwrap();
    let value = &rec.call_chains.values[leaf].value;
    assert_eq!(value.cc_not_http_ok, 1);
    assert_eq!(value.cc_with_error_log, 1);
    assert_eq!(value.http_not_ok, vec![503]);
    assert_eq!(value.error_logs, vec!["boom".to_string(), String::new()]);
    let a = rec.operations.find("svcA/POST").unwrap();
    assert_eq!(rec.operations.values[a].num_not_http_ok, 1);
    assert_eq!(rec.operations.values[a].num_with_error_logs, 1);
    let b = rec.operations.find("svcB/GET").unwrap();
    assert_eq!(rec.operations.values[b].num_not_http_ok, 0);
    assert_eq!(rec.operations.values[b].num_with_error_logs, 0);
}

#[test]
fn start_times_beyond_the_signed_range_are_held_at_its_end() {
    let raw = item(vec![span("a1", "POST", "p1", u64::MAX, u64::MAX, None, None)]);
    let (trace, _) = Trace::build(&raw);
    assert_eq!(trace.spans[0].start_dt_micros, i64::MAX);
    assert_eq!(trace.spans[0].duration_micros, i64::MAX);
}

#[test]
fn chain_marks_processes_that_come_again() {
    let raw = item(vec![
        span("a1", "POST", "p1", 0, 50, Some("server"), None),
        span("b1", "GET", "p2", 1, 40, Some("client"), Some("a1")),
        span("c1", "callback", "p1", 2, 30, None, Some("b1")),
        span("d1", "again", "p2", 3, 20, None, Some("c1")),
    ]);
    let (trace, _) = Trace::build(&raw);
    assert_eq!(span_path(&trace, 3), vec![0, 1, 2, 3]);
    let chain = span_chain(&trace, &vec!["svcB".to_string()], 3);
    assert_eq!(chain.seen.looped, vec!["svcA".to_string(), "svcB".to_string()]);
    assert_eq!(chain.key.call_chain.len(), 4);
    assert!(chain.key.is_leaf);
    assert!(chain.rooted);
    assert_eq!(chain.key.caching_process, " [svcB]");
    assert_eq!(chain.seen.duration_micros, 50);
    let all = extract_chains(&trace, &Vec::new());
    assert_eq!(all.len(), 4);
    assert!(!all[0].key.is_leaf);
    assert!(all[0].seen.looped.is_empty());
    assert_eq!(all[2].seen.looped, vec!["svcA".to_string()]);
}

#[test]
fn chain_of_spans_in_a_circle_ends() {
    let raw = item(vec![
        span("a1", "one", "p1", 0, 5, None, Some("b1")),
        span("b1", "two", "p2", 1, 5, None, Some("a1")),
    ]);
    let (trace, issues) = Trace::build(&raw);
    assert!(issues.is_empty());
    assert_eq!(trace.root, None);
    assert_eq!(span_path(&trace, 0), vec![1, 0]);
    let chain = span_chain(&trace, &Vec::new(), 0);
    assert!(!chain.rooted);
    assert_eq!(chain.key.call_chain.len(), 2);
}

#[test]
fn record_chain_counts_every_sighting() {
    let (trace, _) = Trace::build(&two_span_item());
    let chains = extract_chains(&trace, &Vec::new());
    let mut map = Keyed::new();
    record_chain(&mut map, &chains[1]);
    record_chain(&mut map, &chains[1]);
    record_chain(&mut map, &chains[0]);
    assert_eq!(map.keys.len(), 2);
    assert_eq!(map.values[0].value.count, 2);
    assert_eq!(map.values[0].value.duration_micros, vec![10_000, 10_000]);
    assert_eq!(map.values[1].value.count, 1);
}

#[test]
fn export_is_taken_trace_by_trace() {
    let jt = JaegerTrace {
        data: vec![two_span_item(), orphan_item()],
        total: 2,
        limit: 0,
        offset: 0,
        errors: None,
    };
    let mut report = Report::new();
    let traces = extract_traces(&jt, &mut report);
    assert_eq!(traces.len(), 2);
    assert_eq!(traces[0].spans.len(), 2);
    assert_eq!(traces[1].spans.len(), 1);
    assert_eq!(report.messages(Chapter::Ingest).len(), 1);
    assert!(report.messages(Chapter::Summary).is_empty());
}

#[test]
fn unknown_span_kind_is_noted_twice() {
    let issue = SpanIssue { span: 12, issue: IngestIssue::UnknownSpanKind };
    assert_eq!(issue_message("abc", &issue), "trace abc span 12: Invalid value for CallDirection");
    let mut report = Report::new();
    report_issues(&mut report, "abc", &vec![issue]);
    assert_eq!(
        report.messages(Chapter::Issues),
        vec!["trace abc span 12: Invalid value for CallDirection".to_string()]
    );
    assert_eq!(
        report.messages(Chapter::Ingest),
        vec!["Issue might be ingest issue: trace abc span 12: Invalid value for CallDirection".to_string()]
    );
}
