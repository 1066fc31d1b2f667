use jaeger_stats::cchain_stats::{CChainStatsValue, ChainObservation};
use jaeger_stats::format::{format_cell, format_ratio, MAX_DEN};
use jaeger_stats::metrics::Ratio;
use jaeger_stats::stitch::csv::{csv_lines, row_string, BadCell};
use jaeger_stats::stitch::series::{last_points, present_points, Point};
use jaeger_stats::stitch::table::{TableLine, TableRow};

fn ratio(num: i128, den: i128) -> Ratio {
    Ratio { num, den }
}

fn value(durations: &[i64], starts: &[i64], failed: usize) -> CChainStatsValue {
    let mut v = CChainStatsValue::new(1, Vec::new(), true);
    for (i, d) in durations.iter().enumerate() {
        v.record(&ChainObservation {
            duration_micros: *d,
            start_dt_micros: starts[i],
            looped: Vec::new(),
            http_not_ok: if i < failed { vec![500] } else { Vec::new() },
            error_logs: if i == 0 { vec!["boom".to_string()] } else { Vec::new() },
        });
    }
    v
}

#[test]
fn fractions_with_four_digits() {
    assert_eq!(format_ratio(ratio(10_000, 1000), false), "10.0000");
    assert_eq!(format_ratio(ratio(1_234, 1000), false), "1.2340");
    assert_eq!(format_ratio(ratio(1, 3), false), "0.3333");
    assert_eq!(format_ratio(ratio(2, 3), false), "0.6667");
    assert_eq!(format_ratio(ratio(0, 7), false), "0.0000");
    assert_eq!(format_ratio(ratio(123_456_789, 1), false), "123456789.0000");
    assert_eq!(format_ratio(ratio(1, 10_000), false), "0.0001");
    assert_eq!(format_ratio(ratio(99_999, 100_000), false), "1.0000");
    assert_eq!(format_ratio(ratio(999_994_999, 100_000_000), false), "9.9999");
}

#[test]
fn fractions_half_way_go_to_the_even_digit() {
    assert_eq!(format_ratio(ratio(1, 20_000), false), "0.0000");
    assert_eq!(format_ratio(ratio(3, 20_000), false), "0.0002");
    assert_eq!(format_ratio(ratio(5, 20_000), false), "0.0002");
    assert_eq!(format_ratio(ratio(199_999, 20_000), false), "10.0000");
    assert_eq!(format_ratio(ratio(100_001, 200_000), false), "0.5000");
    assert_eq!(format_ratio(ratio(100_011, 200_000), false), "0.5001");
}

#[test]
fn negative_fractions_and_the_comma() {
    assert_eq!(format_ratio(ratio(-1_500, 1000), false), "-1.5000");
    assert_eq!(format_ratio(ratio(-1_500, 1000), true), "-1,5000");
    assert_eq!(format_ratio(ratio(-1, 1_000_000), false), "-0.0000");
    assert_eq!(format_ratio(ratio(1_500, 1000), true), "1,5000");
}

#[test]
fn fractions_at_the_limits() {
    assert_eq!(
        format_ratio(ratio(i128::MAX, 1), false),
        "170141183460469231731687303715884105727.0000"
    );
    assert_eq!(
        format_ratio(ratio(i128::MIN, 1), false),
        "-170141183460469231731687303715884105728.0000"
    );
    assert_eq!(format_ratio(ratio(MAX_DEN, MAX_DEN), false), "1.0000");
    assert_eq!(format_ratio(ratio(MAX_DEN - 1, MAX_DEN), false), "1.0000");
    assert_eq!(format_ratio(ratio(1, MAX_DEN), false), "0.0000");
}

#[test]
fn cells_as_text() {
    assert_eq!(format_cell(Some(ratio(1, 4)), false, "--"), "0.2500");
    assert_eq!(format_cell(None, false, "--"), "--");
    assert_eq!(format_cell(None, true, ""), "");
}

#[test]
fn figures_of_a_chain_as_text() {
    let v = value(&[10_000, 4_000, 7_500], &[0, 1_000_000, 4_000_000], 1);
    assert_eq!(v.get_min_millis_str(false), "4.0000");
    assert_eq!(v.get_max_millis_str(false), "10.0000");
    assert_eq!(v.get_avg_millis_str(false), "7.1667");
    assert_eq!(v.get_avg_millis_str(true), "7,1667");
    assert_eq!(v.get_avg_rate_str(1, false), "0.7500");
    assert_eq!(v.get_avg_rate_str(3, false), "0.2500");
    assert_eq!(v.get_frac_not_http_ok_str(false), "0.3333");
    assert_eq!(v.get_frac_error_log_str(true), "0,3333");
}

#[test]
fn figures_of_nothing_as_text() {
    let v = CChainStatsValue::new(1, Vec::new(), true);
    assert_eq!(v.get_avg_millis_str(false), "NaN");
    assert_eq!(v.get_min_millis_str(false), "NaN");
    assert_eq!(v.get_max_millis_str(true), "NaN");
    assert_eq!(v.get_frac_not_http_ok_str(false), "NaN");
    assert_eq!(v.get_frac_error_log_str(false), "NaN");
    assert_eq!(v.get_avg_rate_str(1, false), "");
    let one = value(&[5], &[9], 0);
    assert_eq!(one.get_avg_rate_str(1, false), "");
    assert_eq!(one.get_min_millis_str(false), "0.0050");
}

#[test]
fn rows_as_text() {
    let row = TableRow {
        key: "a/x".to_string(),
        label: "avg_millis".to_string(),
        cells: vec![Some(ratio(10_000, 2000)), None, Some(ratio(1, 3))],
    };
    assert_eq!(row_string(&row, false), Ok("a/x; avg_millis; 5.0000; ; 0.3333".to_string()));
    assert_eq!(row_string(&row, true), Ok("a/x; avg_millis; 5,0000; ; 0,3333".to_string()));
    let empty = TableRow { key: "k".to_string(), label: "l".to_string(), cells: Vec::new() };
    assert_eq!(row_string(&empty, false), Ok("k; l; ".to_string()));
}

#[test]
fn lines_as_text() {
    let lines = vec![
        TableLine::Comment("# Method table".to_string()),
        TableLine::Row(TableRow {
            key: "1".to_string(),
            label: "num_files".to_string(),
            cells: vec![Some(ratio(2, 1))],
        }),
        TableLine::Blank,
    ];
    assert_eq!(
        csv_lines(&lines, false),
        Ok(vec!["# Method table".to_string(), "1; num_files; 2.0000".to_string(), String::new()])
    );
}

#[test]
fn cell_that_cannot_be_written_is_named() {
    let lines = vec![
        TableLine::Blank,
        TableLine::Row(TableRow {
            key: "1".to_string(),
            label: "x".to_string(),
            cells: vec![None, Some(ratio(1, 2)), Some(ratio(1, 0)), Some(ratio(1, -1))],
        }),
    ];
    assert_eq!(csv_lines(&lines, false), Err(BadCell { line: 1, cell: 2 }));
    let row = TableRow { key: "1".to_string(), label: "x".to_string(), cells: vec![Some(ratio(1, MAX_DEN + 1))] };
    assert_eq!(row_string(&row, false), Err(0));
}

#[test]
fn trend_uses_the_cells_that_are_there() {
    let cells = vec![Some(ratio(10, 1)), None, Some(ratio(100, 1))];
    assert_eq!(
        present_points(&cells, 0),
        vec![Point { run: 0, value: ratio(10, 1) }, Point { run: 2, value: ratio(100, 1) }]
    );
    assert_eq!(present_points(&cells, 1), vec![Point { run: 2, value: ratio(100, 1) }]);
    assert!(present_points(&cells, 3).is_empty());
    assert!(present_points(&cells, 10).is_empty());
}

#[test]
fn short_trend_uses_the_last_points() {
    let cells: Vec<Option<Ratio>> = [10, 10, 10, 10, 100].iter().map(|c| Some(ratio(*c, 1))).collect();
    let points = present_points(&cells, 0);
    let last = last_points(&points, 2);
    assert_eq!(last, vec![Point { run: 3, value: ratio(10, 1) }, Point { run: 4, value: ratio(100, 1) }]);
    assert_eq!(last_points(&points, 9), points);
    assert!(last_points(&points, 0).is_empty());
}
