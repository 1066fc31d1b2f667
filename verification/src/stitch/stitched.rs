//! The records of the runs that are stitched, in the order of the runs.

use crate::report::{chapter_index, with_message, Chapter, Report};
use crate::stats_rec::StatsRec;
use crate::stitch::key_rows::{runs_parallel, TableKind};
use crate::stitch::stitch_tables::{
    append_basic_stats, append_callchain_table, append_method_table, basic_figures, basic_labels,
    basic_table, callchain_figures, callchain_labels, keyed_table, method_figures, method_labels,
};
use crate::stitch::table::{lines_view, rows_have_cells, LineView, TableLine};
use crate::text::{
    chars_of, find_char, index_of, push_str_chars, slice_chars, split, split_chars, string_of,
    trim, trim_chars, views,
};
use vstd::prelude::*;

verus! {

/// A run that is to be stitched: the file of its record and the label of
/// its column.
#[derive(Debug)]
pub struct StitchSource {
    pub path: String,
    pub label: String,
}

/// A run as plain values.
pub struct SourceView {
    pub path: Seq<char>,
    pub label: Seq<char>,
}

impl View for StitchSource {
    type V = SourceView;

    open spec fn view(&self) -> SourceView {
        SourceView { path: self.path@, label: self.label@ }
    }
}

/// The runs that are to be stitched, in their order.
#[derive(Debug)]
pub struct StitchList {
    pub sources: Vec<StitchSource>,
}

/// The run that a line names: the path before the first `;`, the label
/// behind it; a line without `;` has its path as its label.
pub open spec fn source_of_line(t: Seq<char>) -> SourceView {
    let i = index_of(t, ';');
    if i >= t.len() {
        SourceView { path: t, label: t }
    } else {
        SourceView { path: trim(t.take(i)), label: trim(t.skip(i + 1)) }
    }
}

/// The runs that the lines name: one per line that is neither empty nor a
/// comment, which starts with `#`.
pub open spec fn sources_of_lines(lines: Seq<Seq<char>>) -> Seq<SourceView>
    decreases lines.len(),
{
    if lines.len() == 0 {
        Seq::<SourceView>::empty()
    } else {
        let front = sources_of_lines(lines.drop_last());
        let t = trim(lines.last());
        if t.len() == 0 || t[0] == '#' {
            front
        } else {
            front.push(source_of_line(t))
        }
    }
}

/// The plain values of a list of runs.
pub open spec fn sources_view(sources: Seq<StitchSource>) -> Seq<SourceView> {
    sources.map_values(|s: StitchSource| s@)
}

impl StitchList {
    /// Reads the text of a list of runs, one run per line.
    pub fn read_stitch_list(content: &str) -> (r: Self)
        ensures
            sources_view(r.sources@) == sources_of_lines(split(content@, '\n')),
    {
        let lines = split_chars(&chars_of(content), '\n');
        let ghost all = views(lines@);
        let mut sources: Vec<StitchSource> = Vec::new();
        let mut i: usize = 0;
        assert(all.take(0) =~= Seq::<Seq<char>>::empty());
        assert(sources_view(sources@) =~= Seq::<SourceView>::empty());
        while i < lines.len()
            invariant
                i <= lines.len(),
                all == views(lines@),
                sources_view(sources@) == sources_of_lines(all.take(i as int)),
            decreases lines.len() - i,
        {
            proof {
                assert(all.take(i + 1).drop_last() =~= all.take(i as int));
                assert(all.take(i + 1).last() == lines@[i as int]@);
            }
            let t = trim_chars(&lines[i]);
            if t.len() != 0 && t[0] != '#' {
                let at = find_char(&t, ';');
                let source = if at >= t.len() {
                    StitchSource { path: string_of(&t), label: string_of(&t) }
                } else {
                    let path = trim_chars(&slice_chars(&t, 0, at));
                    let label = trim_chars(&slice_chars(&t, at + 1, t.len()));
                    assert(t@.subrange(0, at as int) == t@.take(at as int));
                    assert(t@.subrange(at + 1, t.len() as int) == t@.skip(at + 1));
                    StitchSource { path: string_of(&path), label: string_of(&label) }
                };
                let ghost before = sources@;
                sources.push(source);
                assert(sources_view(sources@) =~= sources_view(before).push(source@));
            }
            i += 1;
        }
        assert(all.take(lines.len() as int) =~= all);
        StitchList { sources }
    }
}

/// The records of the runs, one place per run. The place of a run that
/// could not be loaded is empty.
#[derive(Debug)]
pub struct Stitched {
    /// The runs that were taken in, in their order.
    pub sources: Vec<StitchSource>,
    /// The record of each run.
    pub data: Vec<Option<StatsRec>>,
}

/// The words before the path in the note on a run that could not be loaded.
pub open spec fn load_failure_text(path: Seq<char>) -> Seq<char> {
    "Failed to load "@ + path
}

/// The lines of the three tables of the runs.
pub open spec fn stitched_tables(data: Seq<Option<StatsRec>>) -> Seq<LineView> {
    basic_table(
        "# Basic statistics over alle stitched files"@,
        data,
        basic_labels(),
        basic_figures(),
    ) + keyed_table("# Method table"@, data, TableKind::Method, method_labels(), method_figures())
        + keyed_table(
        "# Call-chain table"@,
        data,
        TableKind::CallChain,
        callchain_labels(),
        callchain_figures(),
    )
}

impl Stitched {
    /// There is one place per run, and the records hold their keys and
    /// values in parallel.
    pub open spec fn well_formed(&self) -> bool {
        self.sources.len() == self.data.len() && runs_parallel(self.data@)
    }

    /// A data set without runs.
    pub fn new() -> (r: Self)
        ensures
            r.well_formed(),
            r.data@.len() == 0,
    {
        Stitched { sources: Vec::new(), data: Vec::new() }
    }

    /// Takes in the next run with what loading its record gave. A run that
    /// could not be loaded keeps its place and is noted in the summary of
    /// the report. Tells whether the run was loaded.
    pub fn add_run(&mut self, report: &mut Report, source: StitchSource, loaded: Option<StatsRec>) -> (ok:
        bool)
        requires
            old(self).well_formed(),
            loaded matches Some(rec) ==> rec.operations.keys.len() == rec.operations.values.len()
                && rec.call_chains.keys.len() == rec.call_chains.values.len(),
        ensures
            final(self).well_formed(),
            final(self).data@ == old(self).data@.push(loaded),
            final(self).sources@ == old(self).sources@.push(source),
            ok == loaded.is_some(),
            final(report)@ == if ok {
                old(report)@
            } else {
                with_message(
                    old(report)@,
                    chapter_index(Chapter::Summary),
                    load_failure_text(source.path@),
                )
            },
    {
        let ok = loaded.is_some();
        if !ok {
            let mut note = chars_of("Failed to load ");
            push_str_chars(&mut note, source.path.as_str());
            report.report(Chapter::Summary, string_of(&note));
        }
        self.sources.push(source);
        self.data.push(loaded);
        ok
    }

    /// The number of runs, loaded or not.
    pub fn runs(&self) -> (n: usize)
        ensures
            n == self.data@.len(),
    {
        self.data.len()
    }

    /// The lines of the three tables. Every row has one cell per run.
    pub fn tables(&self) -> (lines: Vec<TableLine>)
        requires
            self.well_formed(),
        ensures
            lines_view(lines@) == stitched_tables(self.data@),
            rows_have_cells(lines_view(lines@), self.data@.len()),
    {
        let mut lines: Vec<TableLine> = Vec::new();
        assert(lines_view(lines@) =~= Seq::<LineView>::empty());
        append_basic_stats(&mut lines, &self.data);
        let ghost a = lines_view(lines@);
        append_method_table(&mut lines, &self.data);
        let ghost b = lines_view(lines@);
        append_callchain_table(&mut lines, &self.data);
        let ghost c = lines_view(lines@);
        proof {
            assert(a.skip(0) =~= a);
            assert(c =~= stitched_tables(self.data@));
            assert forall|i: int| 0 <= i < c.len() implies (#[trigger] c[i] matches LineView::Row(r)
                ==> r.cells.len() == self.data@.len()) by {
                if i < a.len() {
                    assert(c[i] == a[i]);
                } else if i < b.len() {
                    assert(c[i] == b.skip(a.len() as int)[i - a.len()]);
                } else {
                    assert(c[i] == c.skip(b.len() as int)[i - b.len()]);
                }
            }
        }
        lines
    }
}

} // verus!
