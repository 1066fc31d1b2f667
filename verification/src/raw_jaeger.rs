//! The export of a Jaeger trace store, as it is read from a file.
//!
//! The value of a tag can be of any JSON type. It is held here by type, and
//! an accessor for one type fails, with an error, on a value of another.

use crate::keyed::Keyed;
use crate::text::{chars_of, trim, trim_chars};
use vstd::prelude::*;

verus! {

/// The value of a tag.
#[derive(Debug)]
pub enum TagValue {
    String(String),
    /// A number; the integer, where the number is held as an integer that
    /// 64 bits with a sign can hold.
    Number(Option<i64>),
    Bool(bool),
    Null,
    Array,
    Object,
}

/// Why a tag has no value of the type that was asked for.
#[derive(Clone, Copy, Debug, PartialEq, Eq, Structural)]
pub enum TagError {
    /// The value is no string.
    NotAString,
    /// The value is no number, or no whole number.
    NotANumber,
    /// The string is no decimal number that 32 bits without a sign can hold.
    NotAU32,
    /// The number does not fit 32 bits with a sign.
    OutOfRange,
}

/// A tag of a span, a process or a log line.
#[derive(Debug)]
pub struct JaegerTag {
    pub key: String,
    pub type_id: String,
    pub value: TagValue,
}

/// A JSON value of `serde_json`, which a tag holds in an export.
#[verifier::external_type_specification]
#[verifier::external_body]
pub struct ExJsonValue(serde_json::Value);

/// The tag value that a JSON value stands for: what `json_tag_value` makes
/// of it.
pub uninterp spec fn tag_value_of(value: serde_json::Value) -> TagValue;

/// Tells the variants of `serde_json::Value` apart and moves what they
/// hold into a `TagValue`; for a number, `serde_json::Number::as_i64` gives
/// the integer. The result depends on the value alone and is named
/// `tag_value_of`; nothing else is claimed of it.
#[verifier::external_body]
fn json_tag_value(value: &serde_json::Value) -> (r: TagValue)
    ensures
        r == tag_value_of(*value),
{
    match value {
        serde_json::Value::String(s) => TagValue::String(s.clone()),
        serde_json::Value::Number(n) => TagValue::Number(n.as_i64()),
        serde_json::Value::Bool(b) => TagValue::Bool(*b),
        serde_json::Value::Null => TagValue::Null,
        serde_json::Value::Array(_) => TagValue::Array,
        serde_json::Value::Object(_) => TagValue::Object,
    }
}

/// Whether `c` is a decimal digit.
pub open spec fn is_digit(c: char) -> bool {
    '0' <= c <= '9'
}

/// The number that a text of decimal digits stands for.
pub open spec fn digits_value(s: Seq<char>) -> nat
    decreases s.len(),
{
    if s.len() == 0 {
        0
    } else {
        digits_value(s.drop_last()) * 10 + (s.last() as u32 - '0' as u32) as nat
    }
}

/// The text without a `+` at its start.
pub open spec fn unsigned_part(s: Seq<char>) -> Seq<char> {
    if s.len() > 0 && s[0] == '+' {
        s.skip(1)
    } else {
        s
    }
}

/// The number that a text stands for: decimal digits, at least one, behind
/// at most one `+`, and no more than 32 bits hold.
pub open spec fn parse_u32(s: Seq<char>) -> Option<u32> {
    let t = unsigned_part(s);
    if t.len() == 0 || !(forall|i: int| 0 <= i < t.len() ==> is_digit(#[trigger] t[i]))
        || digits_value(t) > u32::MAX {
        None
    } else {
        Some(digits_value(t) as u32)
    }
}

/// A longer text of digits stands for no smaller number.
proof fn lemma_digits_grow(s: Seq<char>, n: int)
    requires
        0 <= n <= s.len(),
        forall|i: int| 0 <= i < s.len() ==> is_digit(#[trigger] s[i]),
    ensures
        digits_value(s.take(n)) <= digits_value(s),
    decreases s.len() - n,
{
    if n == s.len() {
        assert(s.take(n) =~= s);
    } else {
        lemma_digits_grow(s, n + 1);
        assert(s.take(n + 1).drop_last() =~= s.take(n));
        assert(is_digit(s[n]));
        assert(s.take(n + 1).last() == s[n]);
    }
}

/// Reads a decimal number that 32 bits hold.
pub fn parse_u32_chars(text: &Vec<char>) -> (r: Option<u32>)
    ensures
        r == parse_u32(text@),
{
    let start: usize = if text.len() > 0 && text[0] == '+' {
        1
    } else {
        0
    };
    let ghost t = unsigned_part(text@);
    assert(t == text@.skip(start as int));
    if start >= text.len() {
        return None;
    }
    let mut acc: u64 = 0;
    let mut i: usize = start;
    assert(t.take(0) =~= Seq::<char>::empty());
    while i < text.len()
        invariant
            start <= i <= text.len(),
            t == text@.skip(start as int),
            t == unsigned_part(text@),
            t.len() > 0,
            forall|j: int| 0 <= j < i - start ==> is_digit(#[trigger] t[j]),
            acc == digits_value(t.take(i - start)),
            acc <= u32::MAX,
        decreases text.len() - i,
    {
        let c = text[i];
        assert(t[i - start] == c);
        if !(c >= '0' && c <= '9') {
            assert(!is_digit(t[i - start]));
            return None;
        }
        let d: u64 = (c as u32 - '0' as u32) as u64;
        proof {
            assert(t.take(i - start + 1).drop_last() =~= t.take(i - start));
            assert(t.take(i - start + 1).last() == c);
        }
        let next: u64 = acc * 10 + d;
        if next > 0xffff_ffff {
            proof {
                // every further character either ends the number or makes it greater
                if forall|j: int| 0 <= j < t.len() ==> is_digit(#[trigger] t[j]) {
                    lemma_digits_grow(t, i - start + 1);
                    assert(digits_value(t) > u32::MAX);
                }
            }
            return None;
        }
        acc = next;
        i += 1;
    }
    assert(t.take(t.len() as int) =~= t);
    Some(acc as u32)
}

impl JaegerTag {
    /// A tag with the given key and type, and the value that the JSON value
    /// stands for.
    pub fn from_json(key: String, type_id: String, value: &serde_json::Value) -> (r: Self)
        ensures
            r.key == key,
            r.type_id == type_id,
            r.value == tag_value_of(*value),
    {
        JaegerTag { key, type_id, value: json_tag_value(value) }
    }

    /// The value, where it is a string.
    pub fn get_string(&self) -> (r: Result<String, TagError>)
        ensures
            match self.value {
                TagValue::String(s) => r matches Ok(t) && t@ == s@,
                _ => r == Err::<String, TagError>(TagError::NotAString),
            },
    {
        match &self.value {
            TagValue::String(s) => Ok(s.clone()),
            _ => Err(TagError::NotAString),
        }
    }

    /// The number that the value stands for, where it is a string of decimal
    /// digits with white space around it at most.
    pub fn to_u32(&self) -> (r: Result<u32, TagError>)
        ensures
            match self.value {
                TagValue::String(s) => match parse_u32(trim(s@)) {
                    Some(n) => r == Ok::<u32, TagError>(n),
                    None => r == Err::<u32, TagError>(TagError::NotAU32),
                },
                _ => r == Err::<u32, TagError>(TagError::NotAString),
            },
    {
        match &self.value {
            TagValue::String(s) => {
                let t = trim_chars(&chars_of(s.as_str()));
                match parse_u32_chars(&t) {
                    Some(n) => Ok(n),
                    None => Err(TagError::NotAU32),
                }
            },
            _ => Err(TagError::NotAString),
        }
    }

    /// The value, where it is a whole number that 32 bits with a sign hold.
    pub fn get_i32(&self) -> (r: Result<i32, TagError>)
        ensures
            match self.value {
                TagValue::Number(Some(v)) => if i32::MIN <= v <= i32::MAX {
                    r == Ok::<i32, TagError>(v as i32)
                } else {
                    r == Err::<i32, TagError>(TagError::OutOfRange)
                },
                _ => r == Err::<i32, TagError>(TagError::NotANumber),
            },
    {
        match &self.value {
            TagValue::Number(Some(v)) => {
                if *v < -0x8000_0000 || *v > 0x7fff_ffff {
                    Err(TagError::OutOfRange)
                } else {
                    Ok(*v as i32)
                }
            },
            _ => Err(TagError::NotANumber),
        }
    }
}

pub type JaegerTags = Vec<JaegerTag>;

/// A process that spans run in.
#[derive(Debug)]
pub struct JaegerProcess {
    pub service_name: String,
    pub tags: JaegerTags,
}

/// A log line of a span.
#[derive(Debug)]
pub struct JaegerLog {
    pub timestamp: u64,
    pub fields: JaegerTags,
}

/// A reference from a span to another one.
#[derive(Debug)]
pub struct JaegerReference {
    pub ref_type: String,
    pub trace_id: String,
    pub span_id: String,
}

/// A span as it is exported.
#[derive(Debug)]
pub struct JaegerSpan {
    pub trace_id: String,
    pub span_id: String,
    pub flags: i32,
    pub operation_name: String,
    pub references: Vec<JaegerReference>,
    /// Microseconds since the epoch.
    pub start_time: u64,
    /// Microseconds.
    pub duration: u64,
    pub tags: JaegerTags,
    pub logs: Vec<JaegerLog>,
    pub process_id: String,
    pub warnings: Option<Vec<String>>,
}

/// A trace as it is exported: its spans, and its processes by their id.
#[derive(Debug)]
pub struct JaegerItem {
    pub trace_id: String,
    pub spans: Vec<JaegerSpan>,
    pub processes: Keyed<JaegerProcess>,
    pub warnings: Option<Vec<String>>,
}

/// An error of the export.
#[derive(Debug)]
pub struct JaegerError {
}

/// A whole export.
#[derive(Debug)]
pub struct JaegerTrace {
    pub data: Vec<JaegerItem>,
    pub total: i32,
    pub limit: i32,
    pub offset: i32,
    pub errors: Option<Vec<JaegerError>>,
}

} // verus!
