//! The lines of a stitched table and the figures that fill its cells.

use crate::metrics::{
    avg_millis, avg_rate, fraction, fraction_of, max_millis, median_millis, millis_avg,
    millis_max, millis_median, millis_min, min_millis, rate_of, Ratio,
};
use crate::stats_rec::StatsRec;
use vstd::prelude::*;

verus! {

/// One row of a table: a key, the label of a figure, and one cell per run.
/// The cell of a run that is missing, or that has no such figure, is empty.
#[derive(Debug)]
pub struct TableRow {
    pub key: String,
    pub label: String,
    pub cells: Vec<Option<Ratio>>,
}

/// One line of the output of the tables.
#[derive(Debug)]
pub enum TableLine {
    /// A title or a remark.
    Comment(String),
    /// A row of figures.
    Row(TableRow),
    /// An empty line.
    Blank,
}

/// A row as plain values.
pub struct RowView {
    pub key: Seq<char>,
    pub label: Seq<char>,
    pub cells: Seq<Option<Ratio>>,
}

/// A line as plain values.
pub enum LineView {
    Comment(Seq<char>),
    Row(RowView),
    Blank,
}

impl View for TableRow {
    type V = RowView;

    open spec fn view(&self) -> RowView {
        RowView { key: self.key@, label: self.label@, cells: self.cells@ }
    }
}

impl View for TableLine {
    type V = LineView;

    open spec fn view(&self) -> LineView {
        match self {
            TableLine::Comment(t) => LineView::Comment(t@),
            TableLine::Row(r) => LineView::Row(r@),
            TableLine::Blank => LineView::Blank,
        }
    }
}

/// The plain values of a list of lines.
pub open spec fn lines_view(lines: Seq<TableLine>) -> Seq<LineView> {
    lines.map_values(|l: TableLine| l@)
}

/// Every row among the lines has `n` cells.
pub open spec fn rows_have_cells(lines: Seq<LineView>, n: nat) -> bool {
    forall|i: int|
        0 <= i < lines.len() ==> (#[trigger] lines[i] matches LineView::Row(r) ==> r.cells.len()
            == n)
}

/// A figure of a whole run.
#[derive(Clone, Copy, Debug, PartialEq, Eq, Structural)]
pub enum BasicMetric {
    NumFiles,
    Rate,
    NumTraces,
    MinDurationMillis,
    MedianDurationMillis,
    AvgDurationMillis,
    MaxDurationMillis,
}

/// A figure of one operation or one chain of a run.
#[derive(Clone, Copy, Debug, PartialEq, Eq, Structural)]
pub enum Metric {
    /// How often it was seen.
    Count,
    /// How often it was seen, per trace of the run.
    Occurrence,
    /// Its rate per second and per file.
    RateAvg,
    MinMillis,
    MedianMillis,
    AvgMillis,
    MaxMillis,
    /// The fraction of its sightings with a failed HTTP call.
    FracNotHttpOk,
    /// The fraction of its sightings with an error log line.
    FracErrorLogs,
}

/// The whole number `n` as a fraction.
pub open spec fn whole(n: int) -> Option<Ratio> {
    Some(Ratio { num: n as i128, den: 1 })
}

/// The value of a figure of a whole run.
pub open spec fn basic_cell(rec: StatsRec, m: BasicMetric) -> Option<Ratio> {
    match m {
        BasicMetric::NumFiles => whole(rec.num_files as int),
        BasicMetric::Rate => rate_of(rec.start_dt_micros@, rec.num_files as int),
        BasicMetric::NumTraces => whole(rec.trace_id.len() as int),
        BasicMetric::MinDurationMillis => millis_min(rec.duration_micros@),
        BasicMetric::MedianDurationMillis => millis_median(rec.duration_micros@),
        BasicMetric::AvgDurationMillis => millis_avg(rec.duration_micros@),
        BasicMetric::MaxDurationMillis => millis_max(rec.duration_micros@),
    }
}

/// What the figures of an operation or a chain are computed from.
pub struct Sample {
    pub count: nat,
    pub durations: Seq<i64>,
    pub starts: Seq<i64>,
    pub not_http_ok: nat,
    pub error_logs: nat,
    pub num_files: int,
    pub num_traces: nat,
}

/// The value of a figure of an operation or a chain.
pub open spec fn sample_cell(s: Sample, m: Metric) -> Option<Ratio> {
    match m {
        Metric::Count => whole(s.count as int),
        Metric::Occurrence => fraction_of(s.count, s.num_traces),
        Metric::RateAvg => rate_of(s.starts, s.num_files),
        Metric::MinMillis => millis_min(s.durations),
        Metric::MedianMillis => millis_median(s.durations),
        Metric::AvgMillis => millis_avg(s.durations),
        Metric::MaxMillis => millis_max(s.durations),
        Metric::FracNotHttpOk => fraction_of(s.not_http_ok, s.count),
        Metric::FracErrorLogs => fraction_of(s.error_logs, s.count),
    }
}

/// The value of a figure of a whole run.
pub fn basic_value(rec: &StatsRec, m: BasicMetric) -> (r: Option<Ratio>)
    ensures
        r == basic_cell(*rec, m),
{
    match m {
        BasicMetric::NumFiles => Some(Ratio { num: rec.num_files as i128, den: 1 }),
        BasicMetric::Rate => avg_rate(&rec.start_dt_micros, rec.num_files),
        BasicMetric::NumTraces => Some(Ratio { num: rec.trace_id.len() as i128, den: 1 }),
        BasicMetric::MinDurationMillis => min_millis(&rec.duration_micros),
        BasicMetric::MedianDurationMillis => median_millis(&rec.duration_micros),
        BasicMetric::AvgDurationMillis => avg_millis(&rec.duration_micros),
        BasicMetric::MaxDurationMillis => max_millis(&rec.duration_micros),
    }
}

/// The value of a figure computed from counts, durations and start times.
pub fn sample_value(
    m: Metric,
    count: usize,
    durations: &Vec<i64>,
    starts: &Vec<i64>,
    not_http_ok: usize,
    error_logs: usize,
    num_files: i32,
    num_traces: usize,
) -> (r: Option<Ratio>)
    ensures
        r == sample_cell(
            Sample {
                count: count as nat,
                durations: durations@,
                starts: starts@,
                not_http_ok: not_http_ok as nat,
                error_logs: error_logs as nat,
                num_files: num_files as int,
                num_traces: num_traces as nat,
            },
            m,
        ),
{
    match m {
        Metric::Count => Some(Ratio { num: count as i128, den: 1 }),
        Metric::Occurrence => fraction(count, num_traces),
        Metric::RateAvg => avg_rate(starts, num_files),
        Metric::MinMillis => min_millis(durations),
        Metric::MedianMillis => median_millis(durations),
        Metric::AvgMillis => avg_millis(durations),
        Metric::MaxMillis => max_millis(durations),
        Metric::FracNotHttpOk => fraction(not_http_ok, count),
        Metric::FracErrorLogs => fraction(error_logs, count),
    }
}

/// Three empty lines, which close a table.
pub fn add_table_tail_separator(buffer: &mut Vec<TableLine>)
    ensures
        lines_view(final(buffer)@) == lines_view(old(buffer)@) + seq![
            LineView::Blank,
            LineView::Blank,
            LineView::Blank,
        ],
{
    buffer.push(TableLine::Blank);
    buffer.push(TableLine::Blank);
    buffer.push(TableLine::Blank);
    assert(lines_view(buffer@) =~= lines_view(old(buffer)@) + seq![
        LineView::Blank,
        LineView::Blank,
        LineView::Blank,
    ]);
}

} // verus!
