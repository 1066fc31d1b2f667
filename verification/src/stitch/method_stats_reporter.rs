//! The rows of the figures of operations.

use crate::stats_rec::StatsRec;
use crate::stitch::key_rows::{
    append_key_lines, collect_keys, is_key_list, key_lines, runs_parallel, sorted_keys, TableKind,
};
use crate::stitch::table::{lines_view, Metric, TableLine};
use crate::text::string_views;
use vstd::prelude::*;

verus! {

/// A figure of a operation, with the label of its row.
#[derive(Debug)]
pub struct MSReportItem {
    pub label: String,
    pub processor: Metric,
}

impl MSReportItem {
    pub fn new(label: &str, processor: Metric) -> (r: Self)
        ensures
            r.label@ == label@,
            r.processor == processor,
    {
        Self { label: label.to_owned(), processor }
    }
}

/// The labels of the items.
pub open spec fn ms_labels(items: Seq<MSReportItem>) -> Seq<Seq<char>> {
    items.map_values(|it: MSReportItem| it.label@)
}

/// The figures of the items.
pub open spec fn ms_metrics(items: Seq<MSReportItem>) -> Seq<Metric> {
    items.map_values(|it: MSReportItem| it.processor)
}

/// Writes the rows of the figures of operations.
pub struct MethodStatsReporter<'a> {
    pub data: &'a Vec<Option<StatsRec>>,
    pub report_items: Vec<MSReportItem>,
}

impl<'a> MethodStatsReporter<'a> {
    pub fn new(data: &'a Vec<Option<StatsRec>>, report_items: Vec<MSReportItem>) -> (r: Self)
        ensures
            r.data == data,
            r.report_items == report_items,
    {
        Self { data, report_items }
    }

    /// The keys of all runs, each once, in the order of a
    /// dictionary.
    pub fn get_keys(&self) -> (keys: Vec<String>)
        ensures
            string_views(keys@) == sorted_keys(self.data@, TableKind::Method),
            is_key_list(string_views(keys@), self.data@, TableKind::Method),
    {
        collect_keys(self.data, TableKind::Method)
    }

    /// Appends the title of an operation and one row per figure; each row has one
    /// cell per run.
    pub fn append_report(&self, buffer: &mut Vec<TableLine>, key: &str)
        requires
            runs_parallel(self.data@),
        ensures
            lines_view(final(buffer)@) == lines_view(old(buffer)@) + key_lines(
                self.data@,
                TableKind::Method,
                key@,
                ms_labels(self.report_items@),
                ms_metrics(self.report_items@),
            ),
    {
        let mut labels: Vec<String> = Vec::new();
        let mut metrics: Vec<Metric> = Vec::new();
        let mut i: usize = 0;
        while i < self.report_items.len()
            invariant
                i <= self.report_items.len(),
                string_views(labels@) == ms_labels(self.report_items@).take(i as int),
                metrics@ == ms_metrics(self.report_items@).take(i as int),
            decreases self.report_items.len() - i,
        {
            let ghost before = labels@;
            labels.push(self.report_items[i].label.clone());
            metrics.push(self.report_items[i].processor);
            assert(string_views(labels@) =~= string_views(before).push(
                self.report_items@[i as int].label@,
            ));
            assert(string_views(labels@) =~= ms_labels(self.report_items@).take(i + 1));
            assert(metrics@ =~= ms_metrics(self.report_items@).take(i + 1));
            i += 1;
        }
        proof {
            let n = self.report_items.len() as int;
            assert(ms_labels(self.report_items@).take(n) =~= ms_labels(self.report_items@));
            assert(ms_metrics(self.report_items@).take(n) =~= ms_metrics(self.report_items@));
            assert(string_views(labels@).len() == labels@.len());
        }
        append_key_lines(buffer, self.data, TableKind::Method, key, &labels, &metrics);
    }
}

} // verus!
