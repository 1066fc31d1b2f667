use jaeger_stats::cchain_stats::{CChainStatsValue, ChainObservation};
use jaeger_stats::chain_key::CChainStatsKey;
use jaeger_stats::metrics::Ratio;
use jaeger_stats::report::{Chapter, Report};
use jaeger_stats::stats_rec::{ChainEntry, MethodStatsValue, StatsRec};
use jaeger_stats::stitch::call_chain_reporter::{CCReportItem, CallChainReporter};
use jaeger_stats::stitch::key_rows::{collect_keys, TableKind};
use jaeger_stats::stitch::method_stats_reporter::{MSReportItem, MethodStatsReporter};
use jaeger_stats::stitch::stats_rec_reporter::{SRReportItem, StatsRecReporter};
use jaeger_stats::stitch::stitch_tables::{
    append_basic_stats, append_callchain_table, append_method_table, basic_report_items,
};
use jaeger_stats::stitch::stitched::{StitchList, StitchSource, Stitched};
use jaeger_stats::stitch::table::{
    add_table_tail_separator, basic_value, BasicMetric, Metric, TableLine, TableRow,
};

fn run(files: i32, traces: &[(i64, i64)], chains: &[(&str, &[i64])], ops: &[(&str, &[i64])]) -> StatsRec {
    let mut rec = StatsRec::new(Vec::new(), files);
    for (i, (start, duration)) in traces.iter().enumerate() {
        rec.trace_id.push(format!("t{}", i));
        rec.start_dt_micros.push(*start);
        rec.duration_micros.push(*duration);
    }
    for (key, durations) in chains {
        let key = CChainStatsKey::parse(key).unwrap();
        let mut value = CChainStatsValue::new(key.call_chain.len(), Vec::new(), true);
        for (i, d) in durations.iter().enumerate() {
            value.record(&ChainObservation {
                duration_micros: *d,
                start_dt_micros: 1_000_000 * i as i64,
                looped: Vec::new(),
                http_not_ok: if i == 0 { vec![500] } else { Vec::new() },
                error_logs: Vec::new(),
            });
        }
        rec.call_chains.push_new(key.call_chain_key(), ChainEntry { key, value });
    }
    for (key, durations) in ops {
        let mut value = MethodStatsValue::new();
        for (i, d) in durations.iter().enumerate() {
            value.record(*d, 2_000_000 * i as i64, false, i == 0);
        }
        rec.operations.push_new(key.to_string(), value);
    }
    rec
}

fn first_run() -> StatsRec {
    run(
        1,
        &[(0, 10_000), (1_000_000, 30_000)],
        &[("b/y & &", &[10_000, 30_000]), ("a/x & &", &[10_000])],
        &[("b/y", &[4_000, 6_000]), ("a/x", &[10_000])],
    )
}

fn third_run() -> StatsRec {
    run(
        2,
        &[(0, 20_000), (2_000_000, 40_000), (4_000_000, 60_000)],
        &[("c/z & &", &[5_000]), ("b/y & &", &[20_000])],
        &[("c/z", &[5_000])],
    )
}

fn middle_missing() -> Vec<Option<StatsRec>> {
    vec![Some(first_run()), None, Some(third_run())]
}

fn rows(lines: &[TableLine]) -> Vec<&TableRow> {
    lines
        .iter()
        .filter_map(|l| match l {
            TableLine::Row(r) => Some(r),
            _ => None,
        })
        .collect()
}

fn whole(n: i128) -> Option<Ratio> {
    Some(Ratio { num: n, den: 1 })
}

#[test]
fn stitch_three_runs_middle_missing() {
    let data = middle_missing();
    let mut buffer = Vec::new();
    append_basic_stats(&mut buffer, &data);
    assert!(matches!(&buffer[0], TableLine::Comment(t) if t == "# Basic statistics over alle stitched files"));
    let rows = rows(&buffer);
    assert_eq!(rows.len(), 7);
    for row in &rows {
        assert_eq!(row.cells.len(), 3);
        assert_eq!(row.cells[1], None);
    }
    assert_eq!(rows[0].key, "1");
    assert_eq!(rows[0].label, "num_files");
    assert_eq!(rows[0].cells, vec![whole(1), None, whole(2)]);
    assert_eq!(rows[1].label, "rate (req/sec)");
    assert_eq!(
        rows[1].cells,
        vec![
            Some(Ratio { num: 2_000_000, den: 1_000_000 }),
            None,
            Some(Ratio { num: 3_000_000, den: 8_000_000 }),
        ]
    );
    assert_eq!(rows[2].label, "num_traces");
    assert_eq!(rows[2].cells, vec![whole(2), None, whole(3)]);
    assert_eq!(rows[3].label, "min_duration_millis");
    assert_eq!(
        rows[3].cells,
        vec![Some(Ratio { num: 10_000, den: 1000 }), None, Some(Ratio { num: 20_000, den: 1000 })]
    );
    assert_eq!(rows[4].label, "median_duration_millis");
    assert_eq!(
        rows[4].cells,
        vec![Some(Ratio { num: 40_000, den: 2000 }), None, Some(Ratio { num: 80_000, den: 2000 })]
    );
    assert_eq!(rows[5].label, "avg_duration_millis");
    assert_eq!(
        rows[5].cells,
        vec![Some(Ratio { num: 40_000, den: 2000 }), None, Some(Ratio { num: 120_000, den: 3000 })]
    );
    assert_eq!(rows[6].key, "7");
    assert_eq!(rows[6].label, "max_duration_millis");
    assert!(matches!(buffer[buffer.len() - 1], TableLine::Blank));
    assert_eq!(buffer.len(), 1 + 7 + 3);
}

#[test]
fn every_row_has_one_cell_per_run() {
    for missing in 0..8u32 {
        let data: Vec<Option<StatsRec>> = (0..3)
            .map(|i| {
                if missing & (1 << i) != 0 {
                    None
                } else if i == 2 {
                    Some(third_run())
                } else {
                    Some(first_run())
                }
            })
            .collect();
        let mut buffer = Vec::new();
        append_basic_stats(&mut buffer, &data);
        append_method_table(&mut buffer, &data);
        append_callchain_table(&mut buffer, &data);
        for row in rows(&buffer) {
            assert_eq!(row.cells.len(), 3);
            for (i, cell) in row.cells.iter().enumerate() {
                if missing & (1 << i) != 0 {
                    assert_eq!(*cell, None);
                }
            }
        }
    }
}

#[test]
fn method_table_has_keys_in_order_and_nine_rows_each() {
    let data = middle_missing();
    let mut buffer = Vec::new();
    append_method_table(&mut buffer, &data);
    assert!(matches!(&buffer[0], TableLine::Comment(t) if t == "# Method table"));
    assert!(matches!(&buffer[1], TableLine::Comment(t) if t == "# statistics for a/x"));
    let rows = rows(&buffer);
    assert_eq!(rows.len(), 27);
    let keys: Vec<&str> = rows.iter().map(|r| r.key.as_str()).collect();
    assert!(keys[..9].iter().all(|k| *k == "a/x"));
    assert!(keys[9..18].iter().all(|k| *k == "b/y"));
    assert!(keys[18..].iter().all(|k| *k == "c/z"));
    let labels: Vec<&str> = rows[..9].iter().map(|r| r.label.as_str()).collect();
    assert_eq!(
        labels,
        vec![
            "count",
            "Occurance percentage",
            "rate (avg)",
            "min_millis",
            "median_millis",
            "avg_millis",
            "max_millis",
            "frac_not_http_ok",
            "frac_error_logs",
        ]
    );
    let by = &rows[9..18];
    assert_eq!(by[0].cells, vec![whole(2), None, None]);
    assert_eq!(by[1].cells, vec![Some(Ratio { num: 2, den: 2 }), None, None]);
    assert_eq!(by[2].cells, vec![Some(Ratio { num: 2_000_000, den: 2_000_000 }), None, None]);
    assert_eq!(by[3].cells, vec![Some(Ratio { num: 4_000, den: 1000 }), None, None]);
    assert_eq!(by[4].cells, vec![Some(Ratio { num: 10_000, den: 2000 }), None, None]);
    assert_eq!(by[5].cells, vec![Some(Ratio { num: 10_000, den: 2000 }), None, None]);
    assert_eq!(by[6].cells, vec![Some(Ratio { num: 6_000, den: 1000 }), None, None]);
    assert_eq!(by[7].cells, vec![Some(Ratio { num: 0, den: 2 }), None, None]);
    assert_eq!(by[8].cells, vec![Some(Ratio { num: 1, den: 2 }), None, None]);
    let cz = &rows[18..];
    assert_eq!(cz[0].cells, vec![None, None, whole(1)]);
    assert_eq!(cz[1].cells, vec![None, None, Some(Ratio { num: 1, den: 3 })]);
    assert_eq!(cz[2].cells, vec![None, None, None]);
}

#[test]
fn callchain_table_follows_each_chain_over_the_runs() {
    let data = middle_missing();
    let mut buffer = Vec::new();
    append_callchain_table(&mut buffer, &data);
    assert!(matches!(&buffer[0], TableLine::Comment(t) if t == "# Call-chain table"));
    let rows = rows(&buffer);
    assert_eq!(rows.len(), 27);
    assert_eq!(rows[0].key, "a/x & &");
    assert_eq!(rows[9].key, "b/y & &");
    assert_eq!(rows[18].key, "c/z & &");
    let labels: Vec<&str> = rows[..9].iter().map(|r| r.label.as_str()).collect();
    assert_eq!(
        labels,
        vec![
            "count",
            "Occurance percentage",
            "rate (avg)",
            "min_millis",
            "avg_millis",
            "median_millis",
            "max_millis",
            "http_not_ok_count",
            "num_error_logs",
        ]
    );
    assert_eq!(rows[9].cells, vec![whole(2), None, whole(1)]);
    assert_eq!(
        rows[13].cells,
        vec![Some(Ratio { num: 40_000, den: 2000 }), None, Some(Ratio { num: 20_000, den: 1000 })]
    );
    assert_eq!(rows[16].cells, vec![Some(Ratio { num: 1, den: 2 }), None, Some(Ratio { num: 1, den: 1 })]);
    assert_eq!(rows[17].cells, vec![Some(Ratio { num: 0, den: 2 }), None, Some(Ratio { num: 0, den: 1 })]);
}

#[test]
fn keys_are_collected_once_and_sorted() {
    let data = middle_missing();
    assert_eq!(
        collect_keys(&data, TableKind::CallChain),
        vec!["a/x & &".to_string(), "b/y & &".to_string(), "c/z & &".to_string()]
    );
    assert_eq!(
        collect_keys(&data, TableKind::Method),
        vec!["a/x".to_string(), "b/y".to_string(), "c/z".to_string()]
    );
    assert!(collect_keys(&vec![None, None], TableKind::Method).is_empty());
}

#[test]
fn reporters_write_what_they_are_given() {
    let data = middle_missing();
    let basic = StatsRecReporter::new(&data, vec![SRReportItem::new("traces", BasicMetric::NumTraces)]);
    let mut buffer = Vec::new();
    basic.append_report(&mut buffer);
    assert_eq!(buffer.len(), 1);
    assert!(matches!(&buffer[0], TableLine::Row(r) if r.key == "1" && r.label == "traces" && r.cells == vec![whole(2), None, whole(3)]));

    let chains = CallChainReporter::new(&data, vec![CCReportItem::new("n", Metric::Count)]);
    assert_eq!(chains.get_keys().len(), 3);
    chains.append_report(&mut buffer, "c/z & &");
    assert_eq!(buffer.len(), 3);
    assert!(matches!(&buffer[1], TableLine::Comment(t) if t == "# statistics for c/z & &"));
    assert!(matches!(&buffer[2], TableLine::Row(r) if r.key == "c/z & &" && r.label == "n" && r.cells == vec![None, None, whole(1)]));

    let methods = MethodStatsReporter::new(&data, vec![MSReportItem::new("n", Metric::Count)]);
    assert_eq!(methods.get_keys(), vec!["a/x".to_string(), "b/y".to_string(), "c/z".to_string()]);
    methods.append_report(&mut buffer, "nowhere");
    assert!(matches!(&buffer[4], TableLine::Row(r) if r.cells == vec![None, None, None]));
}

#[test]
fn basic_items_and_values() {
    let items = basic_report_items();
    assert_eq!(items.len(), 7);
    assert_eq!(items[5].label, "avg_duration_millis");
    let rec = first_run();
    assert_eq!(basic_value(&rec, BasicMetric::NumFiles), whole(1));
    assert_eq!(basic_value(&rec, BasicMetric::MaxDurationMillis), Some(Ratio { num: 30_000, den: 1000 }));
}

#[test]
fn table_tail_is_three_blank_lines() {
    let mut buffer = Vec::new();
    add_table_tail_separator(&mut buffer);
    assert_eq!(buffer.len(), 3);
    assert!(buffer.iter().all(|l| matches!(l, TableLine::Blank)));
}

#[test]
fn stitched_keeps_the_place_of_a_failed_run() {
    let mut report = Report::new();
    let mut stitched = Stitched::new();
    let source = |p: &str| StitchSource { path: p.to_string(), label: p.to_string() };
    assert!(stitched.add_run(&mut report, source("one.json"), Some(first_run())));
    assert!(!stitched.add_run(&mut report, source("two.json"), None));
    assert!(stitched.add_run(&mut report, source("three.json"), Some(third_run())));
    assert_eq!(stitched.runs(), 3);
    assert!(stitched.data[1].is_none());
    assert_eq!(report.messages(Chapter::Summary), vec!["Failed to load two.json".to_string()]);
    let lines = stitched.tables();
    let rows = rows(&lines);
    assert_eq!(rows.len(), 7 + 27 + 27);
    assert!(rows.iter().all(|r| r.cells.len() == 3 && r.cells[1].is_none()));
}

#[test]
fn stitch_list_names_runs_line_by_line() {
    let list = StitchList::read_stitch_list("# runs\nrun1/stats.json; first\n\n  run2/stats.json  \n");
    assert_eq!(list.sources.len(), 2);
    assert_eq!(list.sources[0].path, "run1/stats.json");
    assert_eq!(list.sources[0].label, "first");
    assert_eq!(list.sources[1].path, "run2/stats.json");
    assert_eq!(list.sources[1].label, "run2/stats.json");
}
