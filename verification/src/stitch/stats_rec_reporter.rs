//! The rows of the figures of whole runs.

use crate::metrics::Ratio;
use crate::stats_rec::StatsRec;
use crate::stitch::table::{
    basic_cell, basic_value, lines_view, BasicMetric, LineView, RowView, TableLine, TableRow,
};
use crate::text::{decimal, decimal_string};
use vstd::prelude::*;

verus! {

/// A figure of a whole run, with the label of its row.
#[derive(Debug)]
pub struct SRReportItem {
    pub label: String,
    pub processor: BasicMetric,
}

impl SRReportItem {
    pub fn new(label: &str, processor: BasicMetric) -> (r: Self)
        ensures
            r.label@ == label@,
            r.processor == processor,
    {
        Self { label: label.to_owned(), processor }
    }
}

/// The cells of the row of a figure: one per run, empty for a missing run.
pub open spec fn basic_cells(data: Seq<Option<StatsRec>>, m: BasicMetric) -> Seq<Option<Ratio>> {
    Seq::new(
        data.len(),
        |i: int|
            match data[i] {
                Some(rec) => basic_cell(rec, m),
                None => None,
            },
    )
}

/// The labels of the items.
pub open spec fn sr_labels(items: Seq<SRReportItem>) -> Seq<Seq<char>> {
    items.map_values(|it: SRReportItem| it.label@)
}

/// The figures of the items.
pub open spec fn sr_metrics(items: Seq<SRReportItem>) -> Seq<BasicMetric> {
    items.map_values(|it: SRReportItem| it.processor)
}

/// The rows of the given figures, numbered from 1.
pub open spec fn basic_rows(
    data: Seq<Option<StatsRec>>,
    labels: Seq<Seq<char>>,
    metrics: Seq<BasicMetric>,
) -> Seq<LineView> {
    Seq::new(
        metrics.len(),
        |i: int|
            LineView::Row(
                RowView {
                    key: decimal((i + 1) as nat),
                    label: labels[i],
                    cells: basic_cells(data, metrics[i]),
                },
            ),
    )
}

/// Fills the cells of the row of a figure.
pub fn basic_row_cells(data: &Vec<Option<StatsRec>>, m: BasicMetric) -> (cells: Vec<Option<Ratio>>)
    ensures
        cells@ == basic_cells(data@, m),
        cells.len() == data.len(),
{
    let mut cells: Vec<Option<Ratio>> = Vec::new();
    let mut i: usize = 0;
    while i < data.len()
        invariant
            i <= data.len(),
            cells@ == basic_cells(data@, m).take(i as int),
        decreases data.len() - i,
    {
        let cell = match &data[i] {
            Some(rec) => basic_value(rec, m),
            None => None,
        };
        cells.push(cell);
        assert(cells@ =~= basic_cells(data@, m).take(i + 1));
        i += 1;
    }
    assert(basic_cells(data@, m).take(data.len() as int) =~= basic_cells(data@, m));
    cells
}

/// Writes the rows of the figures of whole runs.
pub struct StatsRecReporter<'a> {
    pub data: &'a Vec<Option<StatsRec>>,
    pub report_items: Vec<SRReportItem>,
}

impl<'a> StatsRecReporter<'a> {
    pub fn new(data: &'a Vec<Option<StatsRec>>, report_items: Vec<SRReportItem>) -> (r: Self)
        ensures
            r.data == data,
            r.report_items == report_items,
    {
        Self { data, report_items }
    }

    /// Appends one row per figure; each row has one cell per run.
    pub fn append_report(&self, buffer: &mut Vec<TableLine>)
        ensures
            lines_view(final(buffer)@) == lines_view(old(buffer)@) + basic_rows(
                self.data@,
                sr_labels(self.report_items@),
                sr_metrics(self.report_items@),
            ),
    {
        let ghost rows = basic_rows(
            self.data@,
            sr_labels(self.report_items@),
            sr_metrics(self.report_items@),
        );
        let mut idx: usize = 0;
        assert(lines_view(buffer@) =~= lines_view(old(buffer)@) + rows.take(0));
        while idx < self.report_items.len()
            invariant
                idx <= self.report_items.len(),
                rows == basic_rows(
                    self.data@,
                    sr_labels(self.report_items@),
                    sr_metrics(self.report_items@),
                ),
                lines_view(buffer@) == lines_view(old(buffer)@) + rows.take(idx as int),
            decreases self.report_items.len() - idx,
        {
            let item = &self.report_items[idx];
            let row = TableRow {
                key: decimal_string(idx + 1),
                label: item.label.clone(),
                cells: basic_row_cells(self.data, item.processor),
            };
            let ghost before = buffer@;
            buffer.push(TableLine::Row(row));
            proof {
                assert(lines_view(buffer@) =~= lines_view(before).push(LineView::Row(row@)));
                assert(rows.take(idx + 1) =~= rows.take(idx as int).push(rows[idx as int]));
                assert(lines_view(buffer@) =~= lines_view(old(buffer)@) + rows.take(idx + 1));
            }
            idx += 1;
        }
        assert(rows.take(self.report_items.len() as int) =~= rows);
    }
}

} // verus!
