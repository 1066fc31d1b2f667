//! Spans in the form in which the statistics are taken from them.
//!
//! A span that does not fit what is expected of it is kept in a weaker
//! form, never dropped: a tag of the wrong type counts as absent, a process
//! that is not listed gives an empty service name, an unknown direction
//! and no parent.

use crate::call::{direction_of_span_kind, is_known_span_kind, CallDirection};
use crate::cchain_stats::clone_names;
use crate::raw_jaeger::{
    parse_u32, parse_u32_chars, JaegerLog, JaegerReference, JaegerSpan, JaegerTag, TagValue,
};
use crate::text::{
    chars_of, index_of, lemma_index_of_at, same_chars, string_views, trim, trim_chars,
};
use vstd::prelude::*;

verus! {

/// What was found wrong with a span while it was brought into form.
#[derive(Clone, Copy, Debug, PartialEq, Eq, Structural)]
pub enum IngestIssue {
    /// The process of the span is not among the processes of the trace.
    UnknownProcess,
    /// The `span.kind` tag is no string.
    BadSpanKind,
    /// The `span.kind` tag is neither `server` nor `client`.
    UnknownSpanKind,
    /// The `http.status_code` tag holds no status code.
    BadStatusCode,
    /// The `error` tag is no boolean.
    BadErrorTag,
    /// A reference points into another trace.
    ForeignReference,
    /// The parent of the span is not among the spans of the trace.
    Orphan,
}

/// An issue, with the place of the span that it was found in.
#[derive(Clone, Copy, Debug, PartialEq, Eq, Structural)]
pub struct SpanIssue {
    pub span: usize,
    pub issue: IngestIssue,
}

/// A span in normal form.
#[derive(Debug)]
pub struct Span {
    pub trace_id: String,
    pub span_id: String,
    pub operation_name: String,
    pub service_name: String,
    /// Microseconds since the epoch.
    pub start_dt_micros: i64,
    pub duration_micros: i64,
    /// The span that the first `CHILD_OF` reference within the trace names.
    pub parent_id: Option<String>,
    /// The place of the parent among the spans of the trace, where the
    /// reference resolves.
    pub parent: Option<usize>,
    pub call_direction: CallDirection,
    pub http_status_code: Option<i16>,
    pub error: bool,
    pub warnings: Vec<String>,
    /// The messages of the log lines of level `ERROR`.
    pub error_logs: Vec<String>,
}

/// A span as plain values.
pub struct SpanView {
    pub trace_id: Seq<char>,
    pub span_id: Seq<char>,
    pub operation_name: Seq<char>,
    pub service_name: Seq<char>,
    pub start_dt_micros: i64,
    pub duration_micros: i64,
    pub parent_id: Option<Seq<char>>,
    pub parent: Option<usize>,
    pub call_direction: CallDirection,
    pub http_status_code: Option<i16>,
    pub error: bool,
    pub warnings: Seq<Seq<char>>,
    pub error_logs: Seq<Seq<char>>,
}

/// The plain value of a string that may be absent.
pub open spec fn text_view(s: Option<String>) -> Option<Seq<char>> {
    match s {
        Some(t) => Some(t@),
        None => None,
    }
}

impl View for Span {
    type V = SpanView;

    open spec fn view(&self) -> SpanView {
        SpanView {
            trace_id: self.trace_id@,
            span_id: self.span_id@,
            operation_name: self.operation_name@,
            service_name: self.service_name@,
            start_dt_micros: self.start_dt_micros,
            duration_micros: self.duration_micros,
            parent_id: text_view(self.parent_id),
            parent: self.parent,
            call_direction: self.call_direction,
            http_status_code: self.http_status_code,
            error: self.error,
            warnings: string_views(self.warnings@),
            error_logs: string_views(self.error_logs@),
        }
    }
}

/// The keys of the tags.
pub open spec fn tag_keys(tags: Seq<JaegerTag>) -> Seq<Seq<char>> {
    tags.map_values(|t: JaegerTag| t.key@)
}

/// The first tag with the given key, if there is one.
pub open spec fn tag_of(tags: Seq<JaegerTag>, key: Seq<char>) -> Option<JaegerTag> {
    let i = index_of(tag_keys(tags), key);
    if i < tags.len() {
        Some(tags[i])
    } else {
        None
    }
}

/// The text of the `span.kind` tag, where there is one and it is a string.
pub open spec fn span_kind_of(tags: Seq<JaegerTag>) -> Option<Seq<char>> {
    match tag_of(tags, "span.kind"@) {
        Some(t) => match t.value {
            TagValue::String(s) => Some(s@),
            _ => None,
        },
        None => None,
    }
}

/// The status code that a tag value holds: a whole number, or a string of
/// decimal digits, that 16 bits with a sign hold.
pub open spec fn status_code_of_value(v: TagValue) -> Option<i16> {
    match v {
        TagValue::Number(Some(n)) => if 0 <= n <= i16::MAX {
            Some(n as i16)
        } else {
            None
        },
        TagValue::String(s) => match parse_u32(trim(s@)) {
            Some(n) => if n <= i16::MAX {
                Some(n as i16)
            } else {
                None
            },
            None => None,
        },
        _ => None,
    }
}

/// The status code of the `http.status_code` tag.
pub open spec fn status_code_of(tags: Seq<JaegerTag>) -> Option<i16> {
    match tag_of(tags, "http.status_code"@) {
        Some(t) => status_code_of_value(t.value),
        None => None,
    }
}

/// Whether the `error` tag is there and true.
pub open spec fn error_flag_of(tags: Seq<JaegerTag>) -> bool {
    match tag_of(tags, "error"@) {
        Some(t) => t.value matches TagValue::Bool(b) && b,
        None => false,
    }
}

/// The text of the first tag with the given key, where it is a string.
pub open spec fn string_tag_of(tags: Seq<JaegerTag>, key: Seq<char>) -> Option<Seq<char>> {
    match tag_of(tags, key) {
        Some(t) => match t.value {
            TagValue::String(s) => Some(s@),
            _ => None,
        },
        None => None,
    }
}

/// Whether a log line is of level `ERROR`.
pub open spec fn is_error_log(log: JaegerLog) -> bool {
    string_tag_of(log.fields@, "level"@) == Some("ERROR"@)
}

/// The message of a log line; empty where it has none.
pub open spec fn log_message(log: JaegerLog) -> Seq<char> {
    match string_tag_of(log.fields@, "message"@) {
        Some(m) => m,
        None => Seq::<char>::empty(),
    }
}

/// The messages of the log lines of level `ERROR`, in their order.
pub open spec fn error_logs_of(logs: Seq<JaegerLog>) -> Seq<Seq<char>>
    decreases logs.len(),
{
    if logs.len() == 0 {
        Seq::<Seq<char>>::empty()
    } else {
        let front = error_logs_of(logs.drop_last());
        if is_error_log(logs.last()) {
            front.push(log_message(logs.last()))
        } else {
            front
        }
    }
}

/// Whether a reference names a parent within the trace.
pub open spec fn is_parent_ref(r: JaegerReference, trace_id: Seq<char>) -> bool {
    r.ref_type@ == "CHILD_OF"@ && r.trace_id@ == trace_id
}

/// The place of the first reference that names a parent within the trace,
/// or the number of references.
pub open spec fn parent_ref_index(refs: Seq<JaegerReference>, trace_id: Seq<char>) -> int
    decreases refs.len(),
{
    if refs.len() == 0 {
        0
    } else if is_parent_ref(refs[0], trace_id) {
        0
    } else {
        1 + parent_ref_index(refs.drop_first(), trace_id)
    }
}

/// The span that the first `CHILD_OF` reference within the trace names.
pub open spec fn parent_id_of(refs: Seq<JaegerReference>, trace_id: Seq<char>) -> Option<Seq<char>> {
    let i = parent_ref_index(refs, trace_id);
    if i < refs.len() {
        Some(refs[i].span_id@)
    } else {
        None
    }
}

/// A count of microseconds, held to what 64 bits with a sign can hold.
pub open spec fn clamp_micros(t: u64) -> i64 {
    if t > i64::MAX {
        i64::MAX
    } else {
        t as i64
    }
}

/// The warnings of a span; none where the list is absent.
pub open spec fn warnings_of(w: Option<Vec<String>>) -> Seq<Seq<char>> {
    match w {
        Some(list) => string_views(list@),
        None => Seq::<Seq<char>>::empty(),
    }
}

/// The normal form of a span, before its parent is looked up. `service` is
/// the name of the service of its process, where the process is listed.
pub open spec fn normal_span(raw: JaegerSpan, service: Option<Seq<char>>, trace_id: Seq<char>) -> SpanView {
    SpanView {
        trace_id: raw.trace_id@,
        span_id: raw.span_id@,
        operation_name: raw.operation_name@,
        service_name: match service {
            Some(s) => s,
            None => Seq::<char>::empty(),
        },
        start_dt_micros: clamp_micros(raw.start_time),
        duration_micros: clamp_micros(raw.duration),
        parent_id: if service is Some {
            parent_id_of(raw.references@, trace_id)
        } else {
            None
        },
        parent: None,
        call_direction: if service is Some {
            direction_of_span_kind(span_kind_of(raw.tags@))
        } else {
            CallDirection::Unknown
        },
        http_status_code: status_code_of(raw.tags@),
        error: error_flag_of(raw.tags@),
        warnings: warnings_of(raw.warnings),
        error_logs: error_logs_of(raw.logs@),
    }
}

/// The first tag with the given key.
pub fn find_tag<'a>(tags: &'a Vec<JaegerTag>, key: &str) -> (r: Option<&'a JaegerTag>)
    ensures
        match r {
            Some(t) => tag_of(tags@, key@) == Some(*t),
            None => tag_of(tags@, key@) is None,
        },
{
    let wanted = chars_of(key);
    let mut i: usize = 0;
    while i < tags.len() && !same_chars(&chars_of(tags[i].key.as_str()), &wanted)
        invariant
            i <= tags.len(),
            wanted@ == key@,
            forall|j: int| 0 <= j < i ==> tag_keys(tags@)[j] != key@,
        decreases tags.len() - i,
    {
        i += 1;
    }
    proof {
        lemma_index_of_at(tag_keys(tags@), key@, i as int);
    }
    if i < tags.len() {
        Some(&tags[i])
    } else {
        None
    }
}

/// The text of the first tag with the given key, where it is a string.
pub fn string_tag(tags: &Vec<JaegerTag>, key: &str) -> (r: Option<String>)
    ensures
        text_view(r) == string_tag_of(tags@, key@),
{
    match find_tag(tags, key) {
        Some(t) => match &t.value {
            TagValue::String(s) => Some(s.clone()),
            _ => None,
        },
        None => None,
    }
}

/// The status code that a tag value holds.
pub fn status_code_value(v: &TagValue) -> (r: Option<i16>)
    ensures
        r == status_code_of_value(*v),
{
    match v {
        TagValue::Number(Some(n)) => {
            if 0 <= *n && *n <= 0x7fff {
                Some(*n as i16)
            } else {
                None
            }
        },
        TagValue::String(s) => {
            match parse_u32_chars(&trim_chars(&chars_of(s.as_str()))) {
                Some(n) => {
                    if n <= 0x7fff {
                        Some(n as i16)
                    } else {
                        None
                    }
                },
                None => None,
            }
        },
        _ => None,
    }
}

/// The messages of the log lines of level `ERROR`.
pub fn error_logs(logs: &Vec<JaegerLog>) -> (r: Vec<String>)
    ensures
        string_views(r@) == error_logs_of(logs@),
{
    let mut r: Vec<String> = Vec::new();
    let mut i: usize = 0;
    let level = chars_of("ERROR");
    assert(logs@.take(0) =~= Seq::<JaegerLog>::empty());
    assert(string_views(r@) =~= Seq::<Seq<char>>::empty());
    while i < logs.len()
        invariant
            i <= logs.len(),
            level@ == "ERROR"@,
            string_views(r@) == error_logs_of(logs@.take(i as int)),
        decreases logs.len() - i,
    {
        proof {
            assert(logs@.take(i + 1).drop_last() =~= logs@.take(i as int));
            assert(logs@.take(i + 1).last() == logs@[i as int]);
        }
        let is_error = match string_tag(&logs[i].fields, "level") {
            Some(l) => same_chars(&chars_of(l.as_str()), &level),
            None => false,
        };
        if is_error {
            let msg = match string_tag(&logs[i].fields, "message") {
                Some(m) => m,
                None => String::new(),
            };
            let ghost before = r@;
            r.push(msg);
            assert(string_views(r@) =~= string_views(before).push(msg@));
        }
        i += 1;
    }
    assert(logs@.take(logs.len() as int) =~= logs@);
    r
}

/// A count of microseconds, held to what 64 bits with a sign can hold.
pub fn clamped_micros(t: u64) -> (r: i64)
    ensures
        r == clamp_micros(t),
{
    if t > 0x7fff_ffff_ffff_ffff {
        0x7fff_ffff_ffff_ffff
    } else {
        t as i64
    }
}

/// The place of the first reference that names a parent within the trace.
pub fn find_parent_ref(refs: &Vec<JaegerReference>, trace_id: &String) -> (i: usize)
    ensures
        i == parent_ref_index(refs@, trace_id@),
        i <= refs.len(),
{
    let child_of = chars_of("CHILD_OF");
    let mut i: usize = 0;
    while i < refs.len() && !(same_chars(&chars_of(refs[i].ref_type.as_str()), &child_of)
        && refs[i].trace_id == *trace_id)
        invariant
            i <= refs.len(),
            child_of@ == "CHILD_OF"@,
            forall|j: int| 0 <= j < i ==> !is_parent_ref(#[trigger] refs@[j], trace_id@),
        decreases refs.len() - i,
    {
        i += 1;
    }
    proof {
        lemma_parent_ref_at(refs@, trace_id@, i as int);
    }
    i
}

proof fn lemma_parent_ref_at(refs: Seq<JaegerReference>, trace_id: Seq<char>, k: int)
    requires
        0 <= k <= refs.len(),
        forall|j: int| 0 <= j < k ==> !is_parent_ref(#[trigger] refs[j], trace_id),
        k < refs.len() ==> is_parent_ref(refs[k], trace_id),
    ensures
        parent_ref_index(refs, trace_id) == k,
    decreases k,
{
    if k > 0 {
        let rest = refs.drop_first();
        assert forall|j: int| 0 <= j < k - 1 implies !is_parent_ref(#[trigger] rest[j], trace_id) by {
            assert(rest[j] == refs[j + 1]);
        }
        if k < refs.len() {
            assert(rest[k - 1] == refs[k]);
        }
        assert(!is_parent_ref(refs[0], trace_id));
        lemma_parent_ref_at(rest, trace_id, k - 1);
    }
}

/// Whether some reference of a span does not name a parent within the trace.
pub open spec fn has_foreign_ref(refs: Seq<JaegerReference>, trace_id: Seq<char>) -> bool {
    exists|j: int| 0 <= j < refs.len() && (#[trigger] refs[j]).trace_id@ != trace_id
}

/// What is wrong with the tags and references of a span, in a fixed order.
pub open spec fn span_issues(raw: JaegerSpan, known_process: bool, trace_id: Seq<char>) -> Seq<
    IngestIssue,
> {
    let a = if known_process {
        Seq::<IngestIssue>::empty()
    } else {
        seq![IngestIssue::UnknownProcess]
    };
    let b = match tag_of(raw.tags@, "span.kind"@) {
        Some(t) => match t.value {
            TagValue::String(s) => if is_known_span_kind(Some(s@)) {
                a
            } else {
                a.push(IngestIssue::UnknownSpanKind)
            },
            _ => a.push(IngestIssue::BadSpanKind),
        },
        None => a,
    };
    let c = match tag_of(raw.tags@, "http.status_code"@) {
        Some(t) => if status_code_of_value(t.value) is None {
            b.push(IngestIssue::BadStatusCode)
        } else {
            b
        },
        None => b,
    };
    let d = match tag_of(raw.tags@, "error"@) {
        Some(t) => if t.value is Bool {
            c
        } else {
            c.push(IngestIssue::BadErrorTag)
        },
        None => c,
    };
    if has_foreign_ref(raw.references@, trace_id) {
        d.push(IngestIssue::ForeignReference)
    } else {
        d
    }
}

/// Whether some reference of a span points into another trace.
pub fn any_foreign_ref(refs: &Vec<JaegerReference>, trace_id: &String) -> (r: bool)
    ensures
        r == has_foreign_ref(refs@, trace_id@),
{
    let mut i: usize = 0;
    while i < refs.len()
        invariant
            i <= refs.len(),
            forall|j: int| 0 <= j < i ==> (#[trigger] refs@[j]).trace_id@ == trace_id@,
        decreases refs.len() - i,
    {
        if !(refs[i].trace_id == *trace_id) {
            return true;
        }
        i += 1;
    }
    false
}

/// Brings a span into normal form and lists what is wrong with it. The
/// parent is looked up later, when all spans of the trace are there.
pub fn normalize_span(raw: &JaegerSpan, service: Option<&String>, trace_id: &String) -> (r: (
    Span,
    Vec<IngestIssue>,
))
    ensures
        r.0@ == normal_span(
            *raw,
            match service {
                Some(s) => Some(s@),
                None => None,
            },
            trace_id@,
        ),
        r.1@ == span_issues(*raw, service is Some, trace_id@),
{
    let mut issues: Vec<IngestIssue> = Vec::new();
    if service.is_none() {
        issues.push(IngestIssue::UnknownProcess);
    }
    let mut kind: Option<String> = None;
    match find_tag(&raw.tags, "span.kind") {
        Some(t) => match &t.value {
            TagValue::String(s) => {
                if !CallDirection::known_span_kind(Some(s)) {
                    issues.push(IngestIssue::UnknownSpanKind);
                }
                kind = Some(s.clone());
            },
            _ => {
                issues.push(IngestIssue::BadSpanKind);
            },
        },
        None => {},
    }
    assert(text_view(kind) == span_kind_of(raw.tags@));
    let http_status_code = match find_tag(&raw.tags, "http.status_code") {
        Some(t) => {
            let code = status_code_value(&t.value);
            if code.is_none() {
                issues.push(IngestIssue::BadStatusCode);
            }
            code
        },
        None => None,
    };
    let error = match find_tag(&raw.tags, "error") {
        Some(t) => match &t.value {
            TagValue::Bool(b) => *b,
            _ => {
                issues.push(IngestIssue::BadErrorTag);
                false
            },
        },
        None => false,
    };
    if any_foreign_ref(&raw.references, trace_id) {
        issues.push(IngestIssue::ForeignReference);
    }
    let (service_name, parent_id, call_direction) = match service {
        Some(s) => {
            let i = find_parent_ref(&raw.references, trace_id);
            let parent_id = if i < raw.references.len() {
                Some(raw.references[i].span_id.clone())
            } else {
                None
            };
            (s.clone(), parent_id, CallDirection::from_span_kind(kind.as_ref()))
        },
        None => (String::new(), None, CallDirection::Unknown),
    };
    let warnings = match &raw.warnings {
        Some(w) => clone_names(w),
        None => Vec::new(),
    };
    assert(string_views(warnings@) =~= warnings_of(raw.warnings));
    let span = Span {
        trace_id: raw.trace_id.clone(),
        span_id: raw.span_id.clone(),
        operation_name: raw.operation_name.clone(),
        service_name,
        start_dt_micros: clamped_micros(raw.start_time),
        duration_micros: clamped_micros(raw.duration),
        parent_id,
        parent: None,
        call_direction,
        http_status_code,
        error,
        warnings,
        error_logs: error_logs(&raw.logs),
    };
    (span, issues)
}

} // verus!
