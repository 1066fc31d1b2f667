//! Where a node stands relative to the service in focus, and which nodes a
//! scope keeps.

use vstd::prelude::*;

verus! {

/// Where a node stands relative to the service in focus.
#[derive(Clone, Copy, Debug, PartialEq, Eq, Structural)]
pub enum Position {
    /// On a path that leads to the focus.
    Inbound,
    /// On a path that leaves the focus.
    Outbound,
    /// In the service in focus.
    Center,
}

/// Whether a node is drawn plainly or stands out.
#[derive(Clone, Copy, Debug, PartialEq, Eq, Structural)]
pub enum ServiceOperationType {
    Default,
    Emphasized,
}

/// Whether a link is part of the selected call chain.
#[derive(Clone, Copy, Debug, PartialEq, Eq, Structural)]
pub enum LinkType {
    Default,
    Emphasized,
}

/// The part of the graph that is drawn.
#[derive(Clone, Copy, Debug, PartialEq, Eq, Structural)]
pub enum MermaidScope {
    /// Every node.
    Full,
    /// The focus and what leads to it.
    Inbound,
    /// The focus and what it calls.
    Outbound,
    /// The focus alone.
    Centered,
}

/// Whether `scope` keeps a node at `position`.
pub open spec fn scope_keeps(scope: MermaidScope, position: Position) -> bool {
    match scope {
        MermaidScope::Full => true,
        MermaidScope::Inbound => position == Position::Inbound || position == Position::Center,
        MermaidScope::Outbound => position == Position::Outbound || position == Position::Center,
        MermaidScope::Centered => position == Position::Center,
    }
}

/// The type of two links taken together: emphasized if either is.
pub open spec fn merged_link_type(a: LinkType, b: LinkType) -> LinkType {
    if a == LinkType::Emphasized || b == LinkType::Emphasized {
        LinkType::Emphasized
    } else {
        LinkType::Default
    }
}

impl LinkType {
    /// The type of two links taken together.
    pub fn merge(self, other: LinkType) -> (r: LinkType)
        ensures
            r == merged_link_type(self, other),
    {
        match self {
            LinkType::Emphasized => LinkType::Emphasized,
            LinkType::Default => other,
        }
    }
}

impl MermaidScope {
    /// Whether the scope keeps a node at `position`.
    pub fn keeps(self, position: Position) -> (r: bool)
        ensures
            r == scope_keeps(self, position),
    {
        match self {
            MermaidScope::Full => true,
            MermaidScope::Inbound => match position {
                Position::Outbound => false,
                _ => true,
            },
            MermaidScope::Outbound => match position {
                Position::Inbound => false,
                _ => true,
            },
            MermaidScope::Centered => match position {
                Position::Center => true,
                _ => false,
            },
        }
    }
}

} // verus!
