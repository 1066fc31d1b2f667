use jaeger_stats::cchain_stats::{add_names, CChainStatsValue, ChainObservation};
use jaeger_stats::chain_key::CChainStatsKey;
use jaeger_stats::keyed::{merge_keyed, Keyed};
use jaeger_stats::metrics::{
    avg_millis, avg_rate, fraction, max_micros, max_millis, median_millis, min_micros, min_millis,
    sort_micros, total_micros, Ratio,
};
use jaeger_stats::stats_rec::{ChainEntry, MethodStatsValue, StatsRec};

fn seen(duration: i64, start: i64) -> ChainObservation {
    ChainObservation {
        duration_micros: duration,
        start_dt_micros: start,
        looped: Vec::new(),
        http_not_ok: Vec::new(),
        error_logs: Vec::new(),
    }
}

fn entry(key: &str, durations: &[i64]) -> (String, ChainEntry) {
    let key = CChainStatsKey::parse(key).unwrap();
    let mut value = CChainStatsValue::new(key.call_chain.len(), Vec::new(), true);
    for (i, d) in durations.iter().enumerate() {
        value.record(&seen(*d, 100 * i as i64));
    }
    (key.call_chain_key(), ChainEntry { key, value })
}

fn record_with(entries: Vec<(String, ChainEntry)>, files: i32, traces: &[i64]) -> StatsRec {
    let mut rec = StatsRec::new(Vec::new(), files);
    for (i, d) in traces.iter().enumerate() {
        rec.trace_id.push(format!("t{}", i));
        rec.duration_micros.push(*d);
        rec.start_dt_micros.push(1_000 * i as i64);
    }
    for (k, e) in entries {
        rec.call_chains.push_new(k, e);
    }
    rec
}

fn sorted(mut v: Vec<i64>) -> Vec<i64> {
    v.sort();
    v
}

fn totals(rec: &StatsRec) -> Vec<(String, usize, Vec<i64>)> {
    let mut all: Vec<(String, usize, Vec<i64>)> = rec
        .call_chains
        .keys
        .iter()
        .zip(rec.call_chains.values.iter())
        .map(|(k, e)| (k.clone(), e.value.count, sorted(e.value.duration_micros.clone())))
        .collect();
    all.sort();
    all
}

#[test]
fn new_value_holds_no_sightings() {
    let v = CChainStatsValue::new(3, vec!["svcA".to_string()], false);
    assert_eq!(v.count, 0);
    assert_eq!(v.depth, 3);
    assert!(!v.rooted);
    assert_eq!(v.looped, vec!["svcA".to_string()]);
    assert!(v.duration_micros.is_empty());
    assert!(v.start_dt_micros.is_empty());
    assert_eq!(v.cc_not_http_ok, 0);
    assert_eq!(v.cc_with_error_log, 0);
    assert!(v.http_not_ok.is_empty());
    assert!(v.error_logs.is_empty());
}

#[test]
fn record_counts_failures_once_per_sighting() {
    let mut v = CChainStatsValue::new(2, Vec::new(), true);
    v.record(&ChainObservation {
        duration_micros: 7,
        start_dt_micros: 70,
        looped: vec!["svcA".to_string()],
        http_not_ok: vec![500, 404],
        error_logs: vec!["boom".to_string()],
    });
    v.record(&seen(9, 90));
    assert_eq!(v.count, 2);
    assert_eq!(v.duration_micros, vec![7, 9]);
    assert_eq!(v.start_dt_micros, vec![70, 90]);
    assert_eq!(v.cc_not_http_ok, 1);
    assert_eq!(v.cc_with_error_log, 1);
    assert_eq!(v.http_not_ok, vec![500, 404]);
    assert_eq!(v.error_logs, vec!["boom".to_string()]);
    assert_eq!(v.looped, vec!["svcA".to_string()]);
}

#[test]
fn names_are_added_once() {
    let mut names = vec!["a".to_string(), "b".to_string()];
    add_names(&mut names, &vec!["b".to_string(), "c".to_string(), "c".to_string(), "a".to_string()]);
    assert_eq!(names, vec!["a".to_string(), "b".to_string(), "c".to_string()]);
}

#[test]
fn merge_of_values_adds_up() {
    let (_, mut a) = entry("a/x & &", &[1, 2]);
    let (_, b) = entry("a/x & &", &[3]);
    a.value.merge(&b.value);
    assert_eq!(a.value.count, 3);
    assert_eq!(a.value.duration_micros, vec![1, 2, 3]);
    assert_eq!(a.value.start_dt_micros, vec![0, 100, 0]);
}

#[test]
fn merge_of_records_adds_counts_and_durations() {
    let mut a = record_with(vec![entry("a/x & &", &[5, 6]), entry("b/y & &", &[1])], 1, &[5, 6]);
    let b = record_with(vec![entry("b/y & &", &[2, 3]), entry("c/z & &", &[9])], 2, &[7]);
    a.merge(&b);
    assert_eq!(a.num_files, 3);
    assert_eq!(a.trace_id, vec!["t0".to_string(), "t1".to_string(), "t0".to_string()]);
    assert_eq!(a.duration_micros, vec![5, 6, 7]);
    assert_eq!(a.call_chains.keys, vec!["a/x & &".to_string(), "b/y & &".to_string(), "c/z & &".to_string()]);
    assert_eq!(a.call_chains.values[0].value.count, 2);
    assert_eq!(a.call_chains.values[1].value.count, 3);
    assert_eq!(a.call_chains.values[1].value.duration_micros, vec![1, 2, 3]);
    assert_eq!(a.call_chains.values[2].value.count, 1);
}

#[test]
fn merge_in_any_order_gives_the_same_totals() {
    let make_a = || record_with(vec![entry("a/x & &", &[5, 6]), entry("b/y & &", &[1])], 1, &[5]);
    let make_b = || record_with(vec![entry("b/y & &", &[3, 2]), entry("c/z & &", &[9])], 1, &[7]);
    let make_c = || record_with(vec![entry("c/z & &", &[4]), entry("a/x & &", &[8])], 1, &[1]);

    let mut abc = make_a();
    abc.merge(&make_b());
    abc.merge(&make_c());

    let mut cba = make_c();
    cba.merge(&make_b());
    cba.merge(&make_a());

    let mut bc = make_b();
    bc.merge(&make_c());
    let mut a_bc = make_a();
    a_bc.merge(&bc);

    assert_eq!(totals(&abc), totals(&cba));
    assert_eq!(totals(&abc), totals(&a_bc));
    assert_eq!(
        totals(&abc),
        vec![
            ("a/x & &".to_string(), 3, vec![5, 6, 8]),
            ("b/y & &".to_string(), 3, vec![1, 2, 3]),
            ("c/z & &".to_string(), 2, vec![4, 9]),
        ]
    );
}

#[test]
fn merge_of_operations() {
    let mut a: Keyed<MethodStatsValue> = Keyed::new();
    let mut v = MethodStatsValue::new();
    v.record(10, 1, true, false);
    a.push_new("svcA/POST".to_string(), v);
    let mut b: Keyed<MethodStatsValue> = Keyed::new();
    let mut w = MethodStatsValue::new();
    w.record(20, 2, false, true);
    w.record(30, 3, true, true);
    b.push_new("svcA/POST".to_string(), w);
    let mut x = MethodStatsValue::new();
    x.record(1, 1, false, false);
    b.push_new("svcB/GET".to_string(), x);
    merge_keyed(&mut a, &b);
    assert_eq!(a.keys, vec!["svcA/POST".to_string(), "svcB/GET".to_string()]);
    assert_eq!(a.values[0].count, 3);
    assert_eq!(a.values[0].duration_micros, vec![10, 20, 30]);
    assert_eq!(a.values[0].num_not_http_ok, 2);
    assert_eq!(a.values[0].num_with_error_logs, 2);
    assert_eq!(a.values[1].count, 1);
}

#[test]
fn keyed_finds_by_text() {
    let mut m: Keyed<u8> = Keyed::new();
    assert_eq!(m.len(), 0);
    assert_eq!(m.find("a"), None);
    m.push_new("a".to_string(), 1);
    m.push_new("b".to_string(), 2);
    assert_eq!(m.find("a"), Some(0));
    assert_eq!(m.find("b"), Some(1));
    assert_eq!(m.find("c"), None);
    assert_eq!(m.len(), 2);
}

#[test]
fn least_greatest_and_sum() {
    let v = vec![7, -3, 12, 0, 12];
    assert_eq!(min_micros(&v), -3);
    assert_eq!(max_micros(&v), 12);
    assert_eq!(total_micros(&v), 28);
    assert_eq!(sort_micros(&v), vec![-3, 0, 7, 12, 12]);
    assert_eq!(total_micros(&vec![i64::MAX, i64::MAX]), 2 * (i64::MAX as i128));
    assert_eq!(total_micros(&Vec::new()), 0);
}

#[test]
fn millisecond_figures_are_exact_fractions() {
    let v = vec![10_000, 4_000, 7_000];
    assert_eq!(min_millis(&v), Some(Ratio { num: 4_000, den: 1000 }));
    assert_eq!(max_millis(&v), Some(Ratio { num: 10_000, den: 1000 }));
    assert_eq!(avg_millis(&v), Some(Ratio { num: 21_000, den: 3000 }));
    assert_eq!(median_millis(&v), Some(Ratio { num: 14_000, den: 2000 }));
    assert_eq!(median_millis(&vec![1, 9, 3, 5]), Some(Ratio { num: 8, den: 2000 }));
    assert_eq!(median_millis(&vec![42]), Some(Ratio { num: 84, den: 2000 }));
}

#[test]
fn figures_of_nothing_are_absent() {
    let none: Vec<i64> = Vec::new();
    assert_eq!(min_millis(&none), None);
    assert_eq!(max_millis(&none), None);
    assert_eq!(avg_millis(&none), None);
    assert_eq!(median_millis(&none), None);
    assert_eq!(fraction(3, 0), None);
    assert_eq!(fraction(3, 4), Some(Ratio { num: 3, den: 4 }));
}

#[test]
fn rate_is_count_over_span_and_files() {
    let starts = vec![2_000_000, 0, 1_000_000, 500_000];
    assert_eq!(avg_rate(&starts, 1), Some(Ratio { num: 4_000_000, den: 2_000_000 }));
    assert_eq!(avg_rate(&starts, 4), Some(Ratio { num: 4_000_000, den: 8_000_000 }));
}

#[test]
fn rate_needs_two_samples_a_span_and_files() {
    assert_eq!(avg_rate(&vec![5], 1), None);
    assert_eq!(avg_rate(&Vec::new(), 1), None);
    assert_eq!(avg_rate(&vec![5, 5, 5], 1), None);
    assert_eq!(avg_rate(&vec![1, 2], 0), None);
    assert_eq!(avg_rate(&vec![i64::MIN, i64::MAX], i32::MAX).unwrap().num, 2_000_000);
}

#[test]
fn chains_by_the_process_they_end_in() {
    let rec = record_with(
        vec![
            entry("gw/POST | b/y & &", &[1]),
            entry("gw/POST | a/x & &", &[1]),
            entry("gw/POST | a/x | b/z & & *LEAF*", &[1]),
            entry("gw/POST & &", &[1]),
        ],
        1,
        &[1],
    );
    assert_eq!(rec.leaf_processes(), vec!["a".to_string(), "b".to_string(), "gw".to_string()]);
    assert_eq!(rec.chains_of_leaf("b"), vec![0, 2]);
    assert_eq!(rec.chains_of_leaf("a"), vec![1]);
    assert_eq!(rec.chains_of_leaf("gw"), vec![3]);
    assert!(rec.chains_of_leaf("nowhere").is_empty());
    for process in rec.leaf_processes() {
        for place in rec.chains_of_leaf(&process) {
            assert_eq!(rec.call_chains.values[place].key.get_leaf_process(), process);
        }
    }
}

#[test]
fn records_are_checked_for_validity() {
    let rec = record_with(vec![entry("a/x & &", &[5, 6]), entry("b/y & &", &[1])], 1, &[5, 6]);
    assert!(rec.is_valid());
    assert!(StatsRec::new(Vec::new(), 0).is_valid());

    let mut bad = record_with(vec![entry("a/x & &", &[5])], 1, &[5]);
    bad.num_files = -1;
    assert!(!bad.is_valid());

    let mut bad = record_with(vec![entry("a/x & &", &[5])], 1, &[5]);
    bad.duration_micros.push(7);
    assert!(!bad.is_valid());

    let mut bad = record_with(vec![entry("a/x & &", &[5])], 1, &[5]);
    bad.call_chains.values[0].value.count = 2;
    assert!(!bad.is_valid());

    let mut bad = record_with(vec![entry("a/x & &", &[5])], 1, &[5]);
    bad.call_chains.values[0].value.cc_with_error_log = 2;
    assert!(!bad.is_valid());

    let mut bad = record_with(vec![entry("a/x & &", &[5])], 1, &[5]);
    bad.call_chains.keys[0] = "b/y & &".to_string();
    assert!(!bad.is_valid());

    let mut bad = record_with(vec![entry("a/x & &", &[5])], 1, &[5]);
    bad.call_chains.values[0].key.call_chain.clear();
    bad.call_chains.keys[0] = bad.call_chains.values[0].key.call_chain_key();
    assert!(!bad.is_valid());

    let mut bad = record_with(vec![entry("a/x & &", &[5])], 1, &[5]);
    let (k, e) = entry("a/x & &", &[5]);
    bad.call_chains.keys.push(k);
    bad.call_chains.values.push(e);
    assert!(!bad.is_valid());

    let mut bad = record_with(vec![entry("a/x & &", &[5])], 1, &[5]);
    bad.operations.keys.push("a/x".to_string());
    assert!(!bad.is_valid());

    let mut bad = record_with(Vec::new(), 1, &[5]);
    let mut v = MethodStatsValue::new();
    v.record(1, 2, true, true);
    v.num_not_http_ok = 5;
    bad.operations.push_new("a/x".to_string(), v);
    assert!(!bad.is_valid());
}

#[test]
fn codes_and_lines_are_counted() {
    let mut v = CChainStatsValue::new(1, Vec::new(), true);
    for (codes, logs) in [
        (vec![503, 404], vec!["boom", "bang"]),
        (vec![404], vec!["boom"]),
        (vec![], vec![]),
        (vec![404, 500, 404], vec!["boom"]),
    ] {
        v.record(&ChainObservation {
            duration_micros: 1,
            start_dt_micros: 1,
            looped: Vec::new(),
            http_not_ok: codes,
            error_logs: logs.into_iter().map(|l| l.to_string()).collect(),
        });
    }
    let codes = v.counted_http_not_ok();
    assert_eq!(codes.codes, vec![404, 500, 503]);
    assert_eq!(codes.counts, vec![4, 1, 1]);
    let lines = v.counted_error_logs();
    assert_eq!(lines.lines, vec!["bang".to_string(), "boom".to_string()]);
    assert_eq!(lines.counts, vec![1, 3]);
    assert_eq!(v.cc_not_http_ok, 3);
    assert_eq!(v.cc_with_error_log, 3);
    let none = CChainStatsValue::new(1, Vec::new(), true);
    assert!(none.counted_http_not_ok().codes.is_empty());
    assert!(none.counted_error_logs().lines.is_empty());
}

#[test]
fn many_records_merge_to_the_same_totals_in_any_order() {
    let make = |i: usize| match i {
        0 => record_with(vec![entry("a/x & &", &[5, 6]), entry("b/y & &", &[1])], 1, &[5]),
        1 => record_with(vec![entry("b/y & &", &[3, 2]), entry("c/z & &", &[9])], 1, &[7]),
        2 => record_with(vec![entry("c/z & &", &[4]), entry("a/x & &", &[8])], 2, &[1]),
        _ => record_with(vec![entry("d/w & &", &[7, 7])], 1, &[2, 3]),
    };
    let orders = [[0, 1, 2, 3], [3, 2, 1, 0], [2, 0, 3, 1], [1, 3, 0, 2]];
    let mut seen = Vec::new();
    for order in orders {
        let mut all = StatsRec::new(Vec::new(), 0);
        all.merge_all(&order.iter().map(|i| make(*i)).collect());
        assert!(all.is_valid());
        assert_eq!(all.num_files, 5);
        assert_eq!(all.trace_id.len(), 5);
        seen.push(totals(&all));
    }
    assert!(seen.iter().all(|t| *t == seen[0]));
    assert_eq!(
        seen[0],
        vec![
            ("a/x & &".to_string(), 3, vec![5, 6, 8]),
            ("b/y & &".to_string(), 3, vec![1, 2, 3]),
            ("c/z & &".to_string(), 2, vec![4, 9]),
            ("d/w & &".to_string(), 2, vec![7, 7]),
        ]
    );
    let mut none = make(0);
    none.merge_all(&Vec::new());
    assert_eq!(totals(&none), totals(&make(0)));
}
