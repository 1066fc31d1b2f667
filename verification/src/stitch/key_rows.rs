//! The keys of a table over all runs, and the rows of one key.

use crate::lex::{insert_sorted, lemma_sorted_same, strictly_sorted};
use crate::metrics::Ratio;
use crate::stats_rec::StatsRec;
use crate::stitch::table::{
    lines_view, rows_have_cells, sample_cell, sample_value, LineView, Metric, RowView, Sample,
    TableLine, TableRow,
};
use crate::text::{chars_of, push_str_chars, string_of, string_views};
use vstd::prelude::*;

verus! {

/// Which of the two keyed tables a row belongs to.
#[derive(Clone, Copy, Debug, PartialEq, Eq, Structural)]
pub enum TableKind {
    /// Rows by `process/operation`.
    Method,
    /// Rows by chain key.
    CallChain,
}

/// The keys that a run holds for a table.
pub open spec fn run_keys(rec: StatsRec, kind: TableKind) -> Seq<Seq<char>> {
    match kind {
        TableKind::Method => string_views(rec.operations.keys@),
        TableKind::CallChain => string_views(rec.call_chains.keys@),
    }
}

/// Whether some run among `data` holds `key`.
pub open spec fn key_in_runs(data: Seq<Option<StatsRec>>, kind: TableKind, key: Seq<char>) -> bool {
    exists|i: int|
        0 <= i < data.len() && (#[trigger] data[i] matches Some(rec) && run_keys(
            rec,
            kind,
        ).contains(key))
}

/// Whether `keys` holds the keys of all runs, each once, in the order of a
/// dictionary.
pub open spec fn is_key_list(keys: Seq<Seq<char>>, data: Seq<Option<StatsRec>>, kind: TableKind) -> bool {
    &&& strictly_sorted(keys)
    &&& forall|t: Seq<char>|
        #![trigger keys.contains(t)]
        #![trigger key_in_runs(data, kind, t)]
        keys.contains(t) <==> key_in_runs(data, kind, t)
}

/// The keys of all runs, each once, in the order of a dictionary.
pub open spec fn sorted_keys(data: Seq<Option<StatsRec>>, kind: TableKind) -> Seq<Seq<char>> {
    choose|keys: Seq<Seq<char>>| is_key_list(keys, data, kind)
}

/// There is one list of the keys of all runs.
pub proof fn lemma_key_list_unique(
    keys: Seq<Seq<char>>,
    data: Seq<Option<StatsRec>>,
    kind: TableKind,
)
    requires
        is_key_list(keys, data, kind),
    ensures
        keys == sorted_keys(data, kind),
{
    let chosen = sorted_keys(data, kind);
    assert(is_key_list(chosen, data, kind));
    lemma_sorted_same(keys, chosen);
}

/// What the figures of `key` are computed from in one run, if the run holds
/// the key.
pub open spec fn run_sample(rec: StatsRec, kind: TableKind, key: Seq<char>) -> Option<Sample> {
    match kind {
        TableKind::Method => if rec.operations.map().dom().contains(key) {
            let v = rec.operations.map()[key]@;
            Some(
                Sample {
                    count: v.count,
                    durations: v.duration_micros,
                    starts: v.start_dt_micros,
                    not_http_ok: v.num_not_http_ok,
                    error_logs: v.num_with_error_logs,
                    num_files: rec.num_files as int,
                    num_traces: rec.trace_id.len() as nat,
                },
            )
        } else {
            None
        },
        TableKind::CallChain => if rec.call_chains.map().dom().contains(key) {
            let v = rec.call_chains.map()[key]@.value;
            Some(
                Sample {
                    count: v.count,
                    durations: v.duration_micros,
                    starts: v.start_dt_micros,
                    not_http_ok: v.cc_not_http_ok,
                    error_logs: v.cc_with_error_log,
                    num_files: rec.num_files as int,
                    num_traces: rec.trace_id.len() as nat,
                },
            )
        } else {
            None
        },
    }
}

/// The cell of one run in the row of a figure of `key`.
pub open spec fn run_cell(run: Option<StatsRec>, kind: TableKind, key: Seq<char>, m: Metric) -> Option<
    Ratio,
> {
    match run {
        Some(rec) => match run_sample(rec, kind, key) {
            Some(s) => sample_cell(s, m),
            None => None,
        },
        None => None,
    }
}

/// The cells of the row of a figure of `key`: one per run.
pub open spec fn key_cells(
    data: Seq<Option<StatsRec>>,
    kind: TableKind,
    key: Seq<char>,
    m: Metric,
) -> Seq<Option<Ratio>> {
    Seq::new(data.len(), |i: int| run_cell(data[i], kind, key, m))
}

/// The words before the key in the title of its rows.
pub open spec fn key_title(key: Seq<char>) -> Seq<char> {
    "# statistics for "@ + key
}

/// The rows of `key`, one per figure, in the order of the figures.
pub open spec fn key_rows(
    data: Seq<Option<StatsRec>>,
    kind: TableKind,
    key: Seq<char>,
    labels: Seq<Seq<char>>,
    metrics: Seq<Metric>,
) -> Seq<LineView> {
    Seq::new(
        metrics.len(),
        |i: int|
            LineView::Row(
                RowView { key, label: labels[i], cells: key_cells(data, kind, key, metrics[i]) },
            ),
    )
}

/// The lines of `key`: a title and its rows.
pub open spec fn key_lines(
    data: Seq<Option<StatsRec>>,
    kind: TableKind,
    key: Seq<char>,
    labels: Seq<Seq<char>>,
    metrics: Seq<Metric>,
) -> Seq<LineView> {
    seq![LineView::Comment(key_title(key))] + key_rows(data, kind, key, labels, metrics)
}

/// The lines of the given keys, key after key.
pub open spec fn keys_lines(
    data: Seq<Option<StatsRec>>,
    kind: TableKind,
    keys: Seq<Seq<char>>,
    labels: Seq<Seq<char>>,
    metrics: Seq<Metric>,
) -> Seq<LineView>
    decreases keys.len(),
{
    if keys.len() == 0 {
        Seq::<LineView>::empty()
    } else {
        keys_lines(data, kind, keys.drop_last(), labels, metrics) + key_lines(
            data,
            kind,
            keys.last(),
            labels,
            metrics,
        )
    }
}

/// Every row of the lines of any keys has one cell per run.
pub proof fn lemma_keys_lines_cells(
    data: Seq<Option<StatsRec>>,
    kind: TableKind,
    keys: Seq<Seq<char>>,
    labels: Seq<Seq<char>>,
    metrics: Seq<Metric>,
)
    ensures
        rows_have_cells(keys_lines(data, kind, keys, labels, metrics), data.len()),
    decreases keys.len(),
{
    if keys.len() > 0 {
        lemma_keys_lines_cells(data, kind, keys.drop_last(), labels, metrics);
    }
}

/// The cell of one run in the row of a figure of `key`.
pub fn run_value(run: &Option<StatsRec>, kind: TableKind, key: &str, m: Metric) -> (r: Option<
    Ratio,
>)
    requires
        run matches Some(rec) ==> rec.operations.keys.len() == rec.operations.values.len()
            && rec.call_chains.keys.len() == rec.call_chains.values.len(),
    ensures
        r == run_cell(*run, kind, key@, m),
{
    match run {
        None => None,
        Some(rec) => match kind {
            TableKind::Method => match rec.operations.find(key) {
                None => None,
                Some(j) => {
                    let v = &rec.operations.values[j];
                    sample_value(
                        m,
                        v.count,
                        &v.duration_micros,
                        &v.start_dt_micros,
                        v.num_not_http_ok,
                        v.num_with_error_logs,
                        rec.num_files,
                        rec.trace_id.len(),
                    )
                },
            },
            TableKind::CallChain => match rec.call_chains.find(key) {
                None => None,
                Some(j) => {
                    let v = &rec.call_chains.values[j].value;
                    sample_value(
                        m,
                        v.count,
                        &v.duration_micros,
                        &v.start_dt_micros,
                        v.cc_not_http_ok,
                        v.cc_with_error_log,
                        rec.num_files,
                        rec.trace_id.len(),
                    )
                },
            },
        },
    }
}

/// The runs hold their keys and values in parallel.
pub open spec fn runs_parallel(data: Seq<Option<StatsRec>>) -> bool {
    forall|i: int|
        0 <= i < data.len() ==> (#[trigger] data[i] matches Some(rec)
            ==> rec.operations.keys.len() == rec.operations.values.len()
            && rec.call_chains.keys.len() == rec.call_chains.values.len())
}

/// Fills the cells of the row of a figure of `key`.
pub fn key_row_cells(data: &Vec<Option<StatsRec>>, kind: TableKind, key: &str, m: Metric) -> (cells:
    Vec<Option<Ratio>>)
    requires
        runs_parallel(data@),
    ensures
        cells@ == key_cells(data@, kind, key@, m),
        cells.len() == data.len(),
{
    let mut cells: Vec<Option<Ratio>> = Vec::new();
    let mut i: usize = 0;
    while i < data.len()
        invariant
            i <= data.len(),
            runs_parallel(data@),
            cells@ == key_cells(data@, kind, key@, m).take(i as int),
        decreases data.len() - i,
    {
        let cell = run_value(&data[i], kind, key, m);
        cells.push(cell);
        assert(cells@ =~= key_cells(data@, kind, key@, m).take(i + 1));
        i += 1;
    }
    assert(key_cells(data@, kind, key@, m).take(data.len() as int) =~= key_cells(
        data@,
        kind,
        key@,
        m,
    ));
    cells
}

/// Appends the title of `key` and one row per figure.
pub fn append_key_lines(
    buffer: &mut Vec<TableLine>,
    data: &Vec<Option<StatsRec>>,
    kind: TableKind,
    key: &str,
    labels: &Vec<String>,
    metrics: &Vec<Metric>,
)
    requires
        runs_parallel(data@),
        labels.len() == metrics.len(),
    ensures
        lines_view(final(buffer)@) == lines_view(old(buffer)@) + key_lines(
            data@,
            kind,
            key@,
            string_views(labels@),
            metrics@,
        ),
{
    let ghost rows = key_rows(data@, kind, key@, string_views(labels@), metrics@);
    let mut title = chars_of("# statistics for ");
    push_str_chars(&mut title, key);
    let ghost start = buffer@;
    buffer.push(TableLine::Comment(string_of(&title)));
    assert(lines_view(buffer@) =~= lines_view(start) + seq![LineView::Comment(key_title(key@))]
        + rows.take(0));
    let mut i: usize = 0;
    while i < metrics.len()
        invariant
            i <= metrics.len(),
            labels.len() == metrics.len(),
            runs_parallel(data@),
            rows == key_rows(data@, kind, key@, string_views(labels@), metrics@),
            lines_view(buffer@) == lines_view(start) + seq![LineView::Comment(key_title(key@))]
                + rows.take(i as int),
        decreases metrics.len() - i,
    {
        let row = TableRow {
            key: key.to_owned(),
            label: labels[i].clone(),
            cells: key_row_cells(data, kind, key, metrics[i]),
        };
        let ghost before = buffer@;
        buffer.push(TableLine::Row(row));
        proof {
            assert(lines_view(buffer@) =~= lines_view(before).push(LineView::Row(row@)));
            assert(rows.take(i + 1) =~= rows.take(i as int).push(rows[i as int]));
            assert(lines_view(buffer@) =~= lines_view(start) + seq![
                LineView::Comment(key_title(key@)),
            ] + rows.take(i + 1));
        }
        i += 1;
    }
    assert(rows.take(metrics.len() as int) =~= rows);
    assert(lines_view(buffer@) =~= lines_view(start) + (seq![LineView::Comment(key_title(key@))]
        + rows));
}

/// The keys of all runs, each once, in the order of a dictionary.
pub fn collect_keys(data: &Vec<Option<StatsRec>>, kind: TableKind) -> (keys: Vec<String>)
    ensures
        string_views(keys@) == sorted_keys(data@, kind),
        is_key_list(string_views(keys@), data@, kind),
{
    let mut keys: Vec<String> = Vec::new();
    let mut i: usize = 0;
    proof {
        assert(string_views(keys@) =~= Seq::<Seq<char>>::empty());
    }
    while i < data.len()
        invariant
            i <= data.len(),
            strictly_sorted(string_views(keys@)),
            forall|t: Seq<char>|
                #[trigger] string_views(keys@).contains(t) <==> key_in_runs(
                    data@.take(i as int),
                    kind,
                    t,
                ),
        decreases data.len() - i,
    {
        let ghost seen = data@.take(i as int);
        let ghost next = data@.take(i + 1);
        proof {
            assert forall|t: Seq<char>| key_in_runs(next, kind, t) <==> key_in_runs(seen, kind, t)
                || (data@[i as int] matches Some(rec) && run_keys(rec, kind).contains(t)) by {
                if key_in_runs(next, kind, t) {
                    let x = choose|x: int|
                        0 <= x < next.len() && (#[trigger] next[x] matches Some(rec) && run_keys(
                            rec,
                            kind,
                        ).contains(t));
                    if x < i {
                        assert(seen[x] == next[x]);
                    }
                }
                if key_in_runs(seen, kind, t) {
                    let x = choose|x: int|
                        0 <= x < seen.len() && (#[trigger] seen[x] matches Some(rec) && run_keys(
                            rec,
                            kind,
                        ).contains(t));
                    assert(next[x] == seen[x]);
                }
                if data@[i as int] matches Some(rec) && run_keys(rec, kind).contains(t) {
                    assert(next[i as int] == data@[i as int]);
                }
            }
        }
        match &data[i] {
            None => {},
            Some(rec) => {
                let names = match kind {
                    TableKind::Method => &rec.operations.keys,
                    TableKind::CallChain => &rec.call_chains.keys,
                };
                assert(string_views(names@) == run_keys(*rec, kind));
                let mut j: usize = 0;
                let ghost all = string_views(names@);
                while j < names.len()
                    invariant
                        j <= names.len(),
                        all == string_views(names@),
                        strictly_sorted(string_views(keys@)),
                        forall|t: Seq<char>|
                            #[trigger] string_views(keys@).contains(t) <==> key_in_runs(
                                seen,
                                kind,
                                t,
                            ) || all.take(j as int).contains(t),
                    decreases names.len() - j,
                {
                    let ghost before = string_views(keys@);
                    insert_sorted(&mut keys, names[j].as_str());
                    proof {
                        let a0 = all.take(j as int);
                        let a1 = all.take(j + 1);
                        assert forall|t: Seq<char>|
                            a1.contains(t) <==> a0.contains(t) || t == names@[j as int]@ by {
                            if a1.contains(t) {
                                let x = choose|x: int| 0 <= x < a1.len() && a1[x] == t;
                                if x < j {
                                    assert(a0[x] == t);
                                }
                            }
                            if a0.contains(t) {
                                let x = choose|x: int| 0 <= x < a0.len() && a0[x] == t;
                                assert(a1[x] == t);
                            }
                            if t == names@[j as int]@ {
                                assert(a1[j as int] == t);
                            }
                        }
                        assert forall|t: Seq<char>|
                            #[trigger] string_views(keys@).contains(t) <==> key_in_runs(
                                seen,
                                kind,
                                t,
                            ) || a1.contains(t) by {
                            assert(string_views(keys@).contains(t) <==> before.contains(t) || t
                                == names@[j as int]@);
                            assert(before.contains(t) <==> key_in_runs(seen, kind, t)
                                || a0.contains(t));
                        }
                    }
                    j += 1;
                }
                assert(all.take(names.len() as int) =~= all);
            },
        }
        proof {
            assert forall|t: Seq<char>| #[trigger]
                string_views(keys@).contains(t) <==> key_in_runs(next, kind, t) by {
                assert(key_in_runs(next, kind, t) <==> key_in_runs(seen, kind, t) || (
                data@[i as int] matches Some(rec) && run_keys(rec, kind).contains(t)));
            }
        }
        i += 1;
    }
    proof {
        assert(data@.take(data.len() as int) =~= data@);
        lemma_key_list_unique(string_views(keys@), data@, kind);
    }
    keys
}

} // verus!
