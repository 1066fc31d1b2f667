//! A call: the process and method a span stands for, and its direction.

use crate::text::{chars_of, push_str_chars, same_chars, string_of};
use vstd::prelude::*;
use vstd::std_specs::cmp::PartialEqSpecImpl;

verus! {

/// Whether a span received a call or issued one.
#[derive(Clone, Copy, Debug, PartialEq, Eq, Structural, Hash, PartialOrd, Ord)]
pub enum CallDirection {
    Inbound,
    Outbound,
    Unknown,
}

impl Default for CallDirection {
    fn default() -> (r: Self)
        ensures
            r == CallDirection::Unknown,
    {
        CallDirection::Unknown
    }
}

/// The name under which a direction is written in a chain key.
pub open spec fn direction_text(d: CallDirection) -> Seq<char> {
    match d {
        CallDirection::Inbound => "Inbound"@,
        CallDirection::Outbound => "Outbound"@,
        CallDirection::Unknown => "Unknown"@,
    }
}

/// The direction a name stands for. A name that is none of the three is taken
/// as `Unknown`.
pub open spec fn direction_of(name: Seq<char>) -> CallDirection {
    if name == "Inbound"@ {
        CallDirection::Inbound
    } else if name == "Outbound"@ {
        CallDirection::Outbound
    } else {
        CallDirection::Unknown
    }
}

/// Whether `name` is one of the three direction names.
pub open spec fn is_direction_name(name: Seq<char>) -> bool {
    name == "Inbound"@ || name == "Outbound"@ || name == "Unknown"@
}

/// The direction that a `span.kind` tag gives: `server` is inbound, `client`
/// outbound, and anything else, or no tag, unknown.
pub open spec fn direction_of_span_kind(kind: Option<Seq<char>>) -> CallDirection {
    match kind {
        Some(k) => if k == "server"@ {
            CallDirection::Inbound
        } else if k == "client"@ {
            CallDirection::Outbound
        } else {
            CallDirection::Unknown
        },
        None => CallDirection::Unknown,
    }
}

/// Whether a `span.kind` tag is absent or one of the two known kinds.
pub open spec fn is_known_span_kind(kind: Option<Seq<char>>) -> bool {
    match kind {
        Some(k) => k == "server"@ || k == "client"@,
        None => true,
    }
}

pub proof fn lemma_direction_names()
    ensures
        "Inbound"@ != "Outbound"@,
        "Inbound"@ != "Unknown"@,
        "Outbound"@ != "Unknown"@,
        forall|d: CallDirection| direction_of(direction_text(d)) == d,
{
    reveal_strlit("Inbound");
    reveal_strlit("Outbound");
    reveal_strlit("Unknown");
    assert("Inbound"@.len() == 7);
    assert("Outbound"@.len() == 8);
    assert("Unknown"@[0] == 'U');
    assert("Inbound"@[0] == 'I');
}

impl CallDirection {
    /// The name of the direction.
    pub fn as_str(&self) -> (r: &'static str)
        ensures
            r@ == direction_text(*self),
    {
        match self {
            CallDirection::Inbound => "Inbound",
            CallDirection::Outbound => "Outbound",
            CallDirection::Unknown => "Unknown",
        }
    }

    /// Reads a direction name; an unknown name gives `Unknown`.
    pub fn from_name(name: &str) -> (r: Self)
        ensures
            r == direction_of(name@),
    {
        let n = chars_of(name);
        Self::from_chars(&n)
    }

    /// Reads a direction name; an unknown name gives `Unknown`.
    pub fn from_chars(name: &Vec<char>) -> (r: Self)
        ensures
            r == direction_of(name@),
    {
        if same_chars(name, &chars_of("Inbound")) {
            CallDirection::Inbound
        } else if same_chars(name, &chars_of("Outbound")) {
            CallDirection::Outbound
        } else {
            CallDirection::Unknown
        }
    }

    /// Whether `name` is the name of a direction.
    pub fn is_name(name: &str) -> (r: bool)
        ensures
            r == is_direction_name(name@),
    {
        let n = chars_of(name);
        same_chars(&n, &chars_of("Inbound")) || same_chars(&n, &chars_of("Outbound"))
            || same_chars(&n, &chars_of("Unknown"))
    }

    /// The direction for the value of a `span.kind` tag.
    pub fn from_span_kind(kind: Option<&String>) -> (r: Self)
        ensures
            r == direction_of_span_kind(
                match kind {
                    Some(k) => Some(k@),
                    None => None,
                },
            ),
    {
        match kind {
            Some(k) => {
                let n = chars_of(k.as_str());
                if same_chars(&n, &chars_of("server")) {
                    CallDirection::Inbound
                } else if same_chars(&n, &chars_of("client")) {
                    CallDirection::Outbound
                } else {
                    CallDirection::Unknown
                }
            },
            None => CallDirection::Unknown,
        }
    }

    /// Whether the value of a `span.kind` tag is one this library knows.
    pub fn known_span_kind(kind: Option<&String>) -> (r: bool)
        ensures
            r == is_known_span_kind(
                match kind {
                    Some(k) => Some(k@),
                    None => None,
                },
            ),
    {
        match kind {
            Some(k) => {
                let n = chars_of(k.as_str());
                same_chars(&n, &chars_of("server")) || same_chars(&n, &chars_of("client"))
            },
            None => true,
        }
    }
}

/// One step of a call chain.
#[derive(Debug, Hash, PartialOrd, Ord)]
pub struct Call {
    pub process: String,
    pub method: String,
    pub call_direction: CallDirection,
}

/// What a `Call` holds, as plain values.
pub struct CallView {
    pub process: Seq<char>,
    pub method: Seq<char>,
    pub direction: CallDirection,
}

impl View for Call {
    type V = CallView;

    open spec fn view(&self) -> CallView {
        CallView { process: self.process@, method: self.method@, direction: self.call_direction }
    }
}

impl Clone for Call {
    fn clone(&self) -> (r: Self)
        ensures
            r@ == self@,
    {
        Call {
            process: self.process.clone(),
            method: self.method.clone(),
            call_direction: self.call_direction,
        }
    }
}

impl PartialEq for Call {
    fn eq(&self, other: &Self) -> (r: bool) {
        self.process == other.process && self.method == other.method && self.call_direction
            == other.call_direction
    }
}

impl Eq for Call {

}

impl PartialEqSpecImpl for Call {
    open spec fn obeys_eq_spec() -> bool {
        true
    }

    open spec fn eq_spec(&self, other: &Self) -> bool {
        self.process@ == other.process@ && self.method@ == other.method@ && self.call_direction
            == other.call_direction
    }
}

/// `process/method`.
pub open spec fn process_method_text(c: CallView) -> Seq<char> {
    c.process + seq!['/'] + c.method
}

/// The text of a call in a chain key: `process/method`, followed by the
/// direction in square brackets unless it is unknown.
pub open spec fn call_text(c: CallView) -> Seq<char> {
    match c.direction {
        CallDirection::Unknown => process_method_text(c),
        _ => process_method_text(c) + seq![' ', '['] + direction_text(c.direction) + seq![']'],
    }
}

impl Call {
    /// `process/method`.
    pub fn get_process_method(&self) -> (r: String)
        ensures
            r@ == process_method_text(self@),
    {
        let mut buf = chars_of(self.process.as_str());
        buf.push('/');
        push_str_chars(&mut buf, self.method.as_str());
        string_of(&buf)
    }

    /// The process of the call.
    pub fn get_process(&self) -> (r: String)
        ensures
            r@ == self.process@,
    {
        self.process.clone()
    }

    /// The characters of the call's text in a chain key.
    pub fn to_chars(&self) -> (r: Vec<char>)
        ensures
            r@ == call_text(self@),
    {
        let mut buf = chars_of(self.process.as_str());
        buf.push('/');
        push_str_chars(&mut buf, self.method.as_str());
        match self.call_direction {
            CallDirection::Unknown => {},
            _ => {
                buf.push(' ');
                buf.push('[');
                push_str_chars(&mut buf, self.call_direction.as_str());
                buf.push(']');
            },
        }
        buf
    }

    /// The call's text in a chain key.
    pub fn to_string(&self) -> (r: String)
        ensures
            r@ == call_text(self@),
    {
        string_of(&self.to_chars())
    }
}

} // verus!
