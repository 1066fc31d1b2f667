//! The three tables of a stitched data set.

use crate::stats_rec::StatsRec;
use crate::stitch::call_chain_reporter::{cc_labels, cc_metrics, CCReportItem, CallChainReporter};
use crate::stitch::key_rows::{
    keys_lines, lemma_keys_lines_cells, runs_parallel, sorted_keys, TableKind,
};
use crate::stitch::method_stats_reporter::{
    ms_labels, ms_metrics, MSReportItem, MethodStatsReporter,
};
use crate::stitch::stats_rec_reporter::{
    basic_rows, sr_labels, sr_metrics, SRReportItem, StatsRecReporter,
};
use crate::stitch::table::{
    add_table_tail_separator, lines_view, rows_have_cells, BasicMetric, LineView, Metric,
    TableLine,
};
use crate::text::string_views;
use vstd::prelude::*;

verus! {

/// The labels of the rows of the table of whole runs.
pub open spec fn basic_labels() -> Seq<Seq<char>> {
    seq![
        "num_files"@,
        "rate (req/sec)"@,
        "num_traces"@,
        "min_duration_millis"@,
        "median_duration_millis"@,
        "avg_duration_millis"@,
        "max_duration_millis"@,
    ]
}

/// The figures of the rows of the table of whole runs.
pub open spec fn basic_figures() -> Seq<BasicMetric> {
    seq![
        BasicMetric::NumFiles,
        BasicMetric::Rate,
        BasicMetric::NumTraces,
        BasicMetric::MinDurationMillis,
        BasicMetric::MedianDurationMillis,
        BasicMetric::AvgDurationMillis,
        BasicMetric::MaxDurationMillis,
    ]
}

/// The labels of the rows of one operation.
pub open spec fn method_labels() -> Seq<Seq<char>> {
    seq![
        "count"@,
        "Occurance percentage"@,
        "rate (avg)"@,
        "min_millis"@,
        "median_millis"@,
        "avg_millis"@,
        "max_millis"@,
        "frac_not_http_ok"@,
        "frac_error_logs"@,
    ]
}

/// The figures of the rows of one operation.
pub open spec fn method_figures() -> Seq<Metric> {
    seq![
        Metric::Count,
        Metric::Occurrence,
        Metric::RateAvg,
        Metric::MinMillis,
        Metric::MedianMillis,
        Metric::AvgMillis,
        Metric::MaxMillis,
        Metric::FracNotHttpOk,
        Metric::FracErrorLogs,
    ]
}

/// The labels of the rows of one call chain.
pub open spec fn callchain_labels() -> Seq<Seq<char>> {
    seq![
        "count"@,
        "Occurance percentage"@,
        "rate (avg)"@,
        "min_millis"@,
        "avg_millis"@,
        "median_millis"@,
        "max_millis"@,
        "http_not_ok_count"@,
        "num_error_logs"@,
    ]
}

/// The figures of the rows of one call chain.
pub open spec fn callchain_figures() -> Seq<Metric> {
    seq![
        Metric::Count,
        Metric::Occurrence,
        Metric::RateAvg,
        Metric::MinMillis,
        Metric::AvgMillis,
        Metric::MedianMillis,
        Metric::MaxMillis,
        Metric::FracNotHttpOk,
        Metric::FracErrorLogs,
    ]
}

/// The figures of the table of whole runs, with their labels.
pub fn basic_report_items() -> (items: Vec<SRReportItem>)
    ensures
        sr_labels(items@) == basic_labels(),
        sr_metrics(items@) == basic_figures(),
{
    let mut items: Vec<SRReportItem> = Vec::new();
    items.push(SRReportItem::new("num_files", BasicMetric::NumFiles));
    items.push(SRReportItem::new("rate (req/sec)", BasicMetric::Rate));
    items.push(SRReportItem::new("num_traces", BasicMetric::NumTraces));
    items.push(SRReportItem::new("min_duration_millis", BasicMetric::MinDurationMillis));
    items.push(SRReportItem::new("median_duration_millis", BasicMetric::MedianDurationMillis));
    items.push(SRReportItem::new("avg_duration_millis", BasicMetric::AvgDurationMillis));
    items.push(SRReportItem::new("max_duration_millis", BasicMetric::MaxDurationMillis));
    assert(sr_labels(items@) =~= basic_labels());
    assert(sr_metrics(items@) =~= basic_figures());
    items
}

/// The figures of the table of operations, with their labels.
pub fn method_report_items() -> (items: Vec<MSReportItem>)
    ensures
        ms_labels(items@) == method_labels(),
        ms_metrics(items@) == method_figures(),
{
    let mut items: Vec<MSReportItem> = Vec::new();
    items.push(MSReportItem::new("count", Metric::Count));
    items.push(MSReportItem::new("Occurance percentage", Metric::Occurrence));
    items.push(MSReportItem::new("rate (avg)", Metric::RateAvg));
    items.push(MSReportItem::new("min_millis", Metric::MinMillis));
    items.push(MSReportItem::new("median_millis", Metric::MedianMillis));
    items.push(MSReportItem::new("avg_millis", Metric::AvgMillis));
    items.push(MSReportItem::new("max_millis", Metric::MaxMillis));
    items.push(MSReportItem::new("frac_not_http_ok", Metric::FracNotHttpOk));
    items.push(MSReportItem::new("frac_error_logs", Metric::FracErrorLogs));
    assert(ms_labels(items@) =~= method_labels());
    assert(ms_metrics(items@) =~= method_figures());
    items
}

/// The figures of the table of call chains, with their labels.
pub fn callchain_report_items() -> (items: Vec<CCReportItem>)
    ensures
        cc_labels(items@) == callchain_labels(),
        cc_metrics(items@) == callchain_figures(),
{
    let mut items: Vec<CCReportItem> = Vec::new();
    items.push(CCReportItem::new("count", Metric::Count));
    items.push(CCReportItem::new("Occurance percentage", Metric::Occurrence));
    items.push(CCReportItem::new("rate (avg)", Metric::RateAvg));
    items.push(CCReportItem::new("min_millis", Metric::MinMillis));
    items.push(CCReportItem::new("avg_millis", Metric::AvgMillis));
    items.push(CCReportItem::new("median_millis", Metric::MedianMillis));
    items.push(CCReportItem::new("max_millis", Metric::MaxMillis));
    items.push(CCReportItem::new("http_not_ok_count", Metric::FracNotHttpOk));
    items.push(CCReportItem::new("num_error_logs", Metric::FracErrorLogs));
    assert(cc_labels(items@) =~= callchain_labels());
    assert(cc_metrics(items@) =~= callchain_figures());
    items
}

/// The three empty lines that close a table.
pub open spec fn table_tail() -> Seq<LineView> {
    seq![LineView::Blank, LineView::Blank, LineView::Blank]
}

/// The lines of a table of whole runs: the title, one row per figure, and
/// the tail.
pub open spec fn basic_table(
    title: Seq<char>,
    data: Seq<Option<StatsRec>>,
    labels: Seq<Seq<char>>,
    metrics: Seq<BasicMetric>,
) -> Seq<LineView> {
    seq![LineView::Comment(title)] + basic_rows(data, labels, metrics) + table_tail()
}

/// The lines of a table by key: the title, the lines of each key of the
/// runs in the order of a dictionary, and the tail.
pub open spec fn keyed_table(
    title: Seq<char>,
    data: Seq<Option<StatsRec>>,
    kind: TableKind,
    labels: Seq<Seq<char>>,
    metrics: Seq<Metric>,
) -> Seq<LineView> {
    seq![LineView::Comment(title)] + keys_lines(
        data,
        kind,
        sorted_keys(data, kind),
        labels,
        metrics,
    ) + table_tail()
}

/// Every row of a table of whole runs has one cell per run, whichever runs
/// are missing.
pub proof fn lemma_basic_table_aligned(
    title: Seq<char>,
    data: Seq<Option<StatsRec>>,
    labels: Seq<Seq<char>>,
    metrics: Seq<BasicMetric>,
)
    ensures
        rows_have_cells(basic_table(title, data, labels, metrics), data.len()),
{
}

/// Every row of a table by key has one cell per run, whichever runs are
/// missing.
pub proof fn lemma_keyed_table_aligned(
    title: Seq<char>,
    data: Seq<Option<StatsRec>>,
    kind: TableKind,
    labels: Seq<Seq<char>>,
    metrics: Seq<Metric>,
)
    ensures
        rows_have_cells(keyed_table(title, data, kind, labels, metrics), data.len()),
{
    let lines = keys_lines(data, kind, sorted_keys(data, kind), labels, metrics);
    lemma_keys_lines_cells(data, kind, sorted_keys(data, kind), labels, metrics);
    let all = keyed_table(title, data, kind, labels, metrics);
    assert forall|i: int| 0 <= i < all.len() implies (#[trigger] all[i] matches LineView::Row(r)
        ==> r.cells.len() == data.len()) by {
        if 1 <= i < 1 + lines.len() {
            assert(all[i] == lines[i - 1]);
        }
    }
}

/// Appends the table of the figures of whole runs.
pub fn append_basic_stats(buffer: &mut Vec<TableLine>, data: &Vec<Option<StatsRec>>)
    ensures
        lines_view(final(buffer)@) == lines_view(old(buffer)@) + basic_table(
            "# Basic statistics over alle stitched files"@,
            data@,
            basic_labels(),
            basic_figures(),
        ),
        rows_have_cells(
            lines_view(final(buffer)@).skip(old(buffer)@.len() as int),
            data@.len(),
        ),
{
    let ghost start = lines_view(buffer@);
    let ghost before = buffer@;
    buffer.push(TableLine::Comment("# Basic statistics over alle stitched files".to_owned()));
    assert(lines_view(buffer@) =~= lines_view(before).push(buffer@.last()@));
    let reporter = StatsRecReporter::new(data, basic_report_items());
    reporter.append_report(buffer);
    add_table_tail_separator(buffer);
    proof {
        let title = "# Basic statistics over alle stitched files"@;
        let table = basic_table(title, data@, basic_labels(), basic_figures());
        assert(lines_view(buffer@) =~= start + table);
        lemma_basic_table_aligned(title, data@, basic_labels(), basic_figures());
        assert(lines_view(buffer@).skip(old(buffer)@.len() as int) =~= table);
    }
}

/// Appends the table of the figures of the operations.
pub fn append_method_table(buffer: &mut Vec<TableLine>, data: &Vec<Option<StatsRec>>)
    requires
        runs_parallel(data@),
    ensures
        lines_view(final(buffer)@) == lines_view(old(buffer)@) + keyed_table(
            "# Method table"@,
            data@,
            TableKind::Method,
            method_labels(),
            method_figures(),
        ),
        rows_have_cells(
            lines_view(final(buffer)@).skip(old(buffer)@.len() as int),
            data@.len(),
        ),
{
    let ghost start = lines_view(buffer@);
    let ghost before = buffer@;
    buffer.push(TableLine::Comment("# Method table".to_owned()));
    assert(lines_view(buffer@) =~= lines_view(before).push(buffer@.last()@));
    let reporter = MethodStatsReporter::new(data, method_report_items());
    let keys = reporter.get_keys();
    let ghost ks = string_views(keys@);
    let ghost labels = ms_labels(reporter.report_items@);
    let ghost metrics = ms_metrics(reporter.report_items@);
    let ghost title = "# Method table"@;
    let mut i: usize = 0;
    proof {
        assert(lines_view(buffer@) =~= start + seq![LineView::Comment(title)] + keys_lines(
            data@,
            TableKind::Method,
            ks.take(0),
            labels,
            metrics,
        ));
    }
    while i < keys.len()
        invariant
            i <= keys.len(),
            runs_parallel(data@),
            reporter.data == data,
            ks == string_views(keys@),
            labels == ms_labels(reporter.report_items@),
            metrics == ms_metrics(reporter.report_items@),
            lines_view(buffer@) == start + seq![LineView::Comment(title)] + keys_lines(
                data@,
                TableKind::Method,
                ks.take(i as int),
                labels,
                metrics,
            ),
        decreases keys.len() - i,
    {
        reporter.append_report(buffer, keys[i].as_str());
        proof {
            assert(ks.take(i + 1).drop_last() =~= ks.take(i as int));
            assert(ks.take(i + 1).last() == keys@[i as int]@);
        }
        i += 1;
    }
    add_table_tail_separator(buffer);
    proof {
        assert(ks.take(keys.len() as int) =~= ks);
        let table = keyed_table(title, data@, TableKind::Method, labels, metrics);
        assert(lines_view(buffer@) =~= start + table);
        lemma_keyed_table_aligned(title, data@, TableKind::Method, labels, metrics);
        assert(lines_view(buffer@).skip(old(buffer)@.len() as int) =~= table);
    }
}

/// Appends the table of the figures of the call chains.
pub fn append_callchain_table(buffer: &mut Vec<TableLine>, data: &Vec<Option<StatsRec>>)
    requires
        runs_parallel(data@),
    ensures
        lines_view(final(buffer)@) == lines_view(old(buffer)@) + keyed_table(
            "# Call-chain table"@,
            data@,
            TableKind::CallChain,
            callchain_labels(),
            callchain_figures(),
        ),
        rows_have_cells(
            lines_view(final(buffer)@).skip(old(buffer)@.len() as int),
            data@.len(),
        ),
{
    let ghost start = lines_view(buffer@);
    let ghost before = buffer@;
    buffer.push(TableLine::Comment("# Call-chain table".to_owned()));
    assert(lines_view(buffer@) =~= lines_view(before).push(buffer@.last()@));
    let reporter = CallChainReporter::new(data, callchain_report_items());
    let keys = reporter.get_keys();
    let ghost ks = string_views(keys@);
    let ghost labels = cc_labels(reporter.report_items@);
    let ghost metrics = cc_metrics(reporter.report_items@);
    let ghost title = "# Call-chain table"@;
    let mut i: usize = 0;
    proof {
        assert(lines_view(buffer@) =~= start + seq![LineView::Comment(title)] + keys_lines(
            data@,
            TableKind::CallChain,
            ks.take(0),
            labels,
            metrics,
        ));
    }
    while i < keys.len()
        invariant
            i <= keys.len(),
            runs_parallel(data@),
            reporter.data == data,
            ks == string_views(keys@),
            labels == cc_labels(reporter.report_items@),
            metrics == cc_metrics(reporter.report_items@),
            lines_view(buffer@) == start + seq![LineView::Comment(title)] + keys_lines(
                data@,
                TableKind::CallChain,
                ks.take(i as int),
                labels,
                metrics,
            ),
        decreases keys.len() - i,
    {
        reporter.append_report(buffer, keys[i].as_str());
        proof {
            assert(ks.take(i + 1).drop_last() =~= ks.take(i as int));
            assert(ks.take(i + 1).last() == keys@[i as int]@);
        }
        i += 1;
    }
    add_table_tail_separator(buffer);
    proof {
        assert(ks.take(keys.len() as int) =~= ks);
        let table = keyed_table(title, data@, TableKind::CallChain, labels, metrics);
        assert(lines_view(buffer@) =~= start + table);
        lemma_keyed_table_aligned(title, data@, TableKind::CallChain, labels, metrics);
        assert(lines_view(buffer@).skip(old(buffer)@.len() as int) =~= table);
    }
}

} // verus!
