//! Bringing a whole export into normal form, with a note in the report for
//! everything that was found wrong.

use crate::raw_jaeger::{JaegerItem, JaegerTrace};
use crate::report::{chapter_index, with_message, Chapter, Report};
use crate::span::{IngestIssue, SpanIssue};
use crate::text::{chars_of, decimal, push_decimal, push_str_chars, string_of};
use crate::trace::{is_normal_form, trace_issues, Trace};
use vstd::prelude::*;

verus! {

/// What an issue is called in the report.
pub open spec fn issue_name(issue: IngestIssue) -> Seq<char> {
    match issue {
        IngestIssue::UnknownProcess => "process is not listed"@,
        IngestIssue::BadSpanKind => "span.kind is no string"@,
        IngestIssue::UnknownSpanKind => "Invalid value for CallDirection"@,
        IngestIssue::BadStatusCode => "http.status_code holds no status code"@,
        IngestIssue::BadErrorTag => "error is no boolean"@,
        IngestIssue::ForeignReference => "reference to another trace dropped"@,
        IngestIssue::Orphan => "parent is not in the trace"@,
    }
}

/// The note on an issue: the trace, the place of the span, and what the
/// issue is called.
pub open spec fn issue_text(trace_id: Seq<char>, issue: SpanIssue) -> Seq<char> {
    "trace "@ + trace_id + " span "@ + decimal(issue.span as nat) + ": "@ + issue_name(issue.issue)
}

/// The report with the note on an issue in the ingest chapter. A kind of
/// span that is not known is noted among the issues as well.
pub open spec fn with_issue(chapters: Seq<Seq<Seq<char>>>, trace_id: Seq<char>, issue: SpanIssue) -> Seq<
    Seq<Seq<char>>,
> {
    let text = issue_text(trace_id, issue);
    if issue.issue == IngestIssue::UnknownSpanKind {
        with_message(
            with_message(chapters, chapter_index(Chapter::Issues), text),
            chapter_index(Chapter::Ingest),
            "Issue might be ingest issue: "@ + text,
        )
    } else {
        with_message(chapters, chapter_index(Chapter::Ingest), text)
    }
}

/// The report with the notes on the first `n` issues.
pub open spec fn with_issues(
    chapters: Seq<Seq<Seq<char>>>,
    trace_id: Seq<char>,
    issues: Seq<SpanIssue>,
    n: int,
) -> Seq<Seq<Seq<char>>>
    decreases n,
{
    if n <= 0 {
        chapters
    } else {
        with_issue(with_issues(chapters, trace_id, issues, n - 1), trace_id, issues[n - 1])
    }
}

/// What an issue is called in the report.
pub fn issue_label(issue: IngestIssue) -> (r: &'static str)
    ensures
        r@ == issue_name(issue),
{
    match issue {
        IngestIssue::UnknownProcess => "process is not listed",
        IngestIssue::BadSpanKind => "span.kind is no string",
        IngestIssue::UnknownSpanKind => "Invalid value for CallDirection",
        IngestIssue::BadStatusCode => "http.status_code holds no status code",
        IngestIssue::BadErrorTag => "error is no boolean",
        IngestIssue::ForeignReference => "reference to another trace dropped",
        IngestIssue::Orphan => "parent is not in the trace",
    }
}

/// The note on an issue.
pub fn issue_message(trace_id: &str, issue: &SpanIssue) -> (r: String)
    ensures
        r@ == issue_text(trace_id@, *issue),
{
    let mut buf = chars_of("trace ");
    push_str_chars(&mut buf, trace_id);
    push_str_chars(&mut buf, " span ");
    push_decimal(&mut buf, issue.span);
    push_str_chars(&mut buf, ": ");
    push_str_chars(&mut buf, issue_label(issue.issue));
    string_of(&buf)
}

/// Notes the issues of a trace in the report.
pub fn report_issues(report: &mut Report, trace_id: &str, issues: &Vec<SpanIssue>)
    ensures
        final(report)@ == with_issues(old(report)@, trace_id@, issues@, issues.len() as int),
{
    let mut i: usize = 0;
    while i < issues.len()
        invariant
            i <= issues.len(),
            report@ == with_issues(old(report)@, trace_id@, issues@, i as int),
        decreases issues.len() - i,
    {
        let text = issue_message(trace_id, &issues[i]);
        match issues[i].issue {
            IngestIssue::UnknownSpanKind => {
                let mut buf = chars_of("Issue might be ingest issue: ");
                push_str_chars(&mut buf, text.as_str());
                let second = string_of(&buf);
                report.report(Chapter::Issues, text);
                report.report(Chapter::Ingest, second);
            },
            _ => {
                report.report(Chapter::Ingest, text);
            },
        }
        i += 1;
    }
}

/// The raw traces hold their processes with keys and values in parallel.
pub open spec fn items_parallel(items: Seq<JaegerItem>) -> bool {
    forall|i: int|
        0 <= i < items.len() ==> (#[trigger] items[i]).processes.keys.len()
            == items[i].processes.values.len()
}

/// The report after the issues of the first `n` raw traces were noted.
pub open spec fn with_trace_issues(chapters: Seq<Seq<Seq<char>>>, items: Seq<JaegerItem>, n: int) -> Seq<
    Seq<Seq<char>>,
>
    decreases n,
{
    if n <= 0 {
        chapters
    } else {
        let item = items[n - 1];
        let issues = trace_issues(item, item.spans.len() as int);
        with_issues(
            with_trace_issues(chapters, items, n - 1),
            item.trace_id@,
            issues,
            issues.len() as int,
        )
    }
}

/// Brings the traces of an export into normal form, one trace per raw
/// trace and in the same order, and notes in the report what was found
/// wrong.
pub fn extract_traces(jt: &JaegerTrace, report: &mut Report) -> (traces: Vec<Trace>)
    requires
        items_parallel(jt.data@),
    ensures
        traces.len() == jt.data.len(),
        forall|i: int|
            0 <= i < traces.len() ==> is_normal_form(#[trigger] traces@[i], jt.data@[i]),
        final(report)@ == with_trace_issues(old(report)@, jt.data@, jt.data.len() as int),
{
    let mut traces: Vec<Trace> = Vec::new();
    let mut i: usize = 0;
    while i < jt.data.len()
        invariant
            i <= jt.data.len(),
            items_parallel(jt.data@),
            traces.len() == i,
            forall|j: int| 0 <= j < i ==> is_normal_form(#[trigger] traces@[j], jt.data@[j]),
            report@ == with_trace_issues(old(report)@, jt.data@, i as int),
        decreases jt.data.len() - i,
    {
        let item = &jt.data[i];
        let (trace, issues) = Trace::build(item);
        report_issues(report, item.trace_id.as_str(), &issues);
        traces.push(trace);
        i += 1;
    }
    traces
}

} // verus!
