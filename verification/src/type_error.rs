use vstd::prelude::*;
use crate::node_id::MetaNodeId;
use crate::types::Type;

verus! {

#[derive(Debug, Clone)]
pub enum TypeErrorKind {
    InvalidReturn,
    Unsupported,
    UnboundVar(String),
    TypeMismatch { expected: Type, found: Type },
    /// A function called with several distinct concrete argument types across
    /// call sites.
    PolymorphicCall(String),
}

#[derive(Debug, Clone)]
pub struct TypeError {
    pub kind: TypeErrorKind,
    /// The node where the error occurred; `None` for generated nodes.
    pub node_id: Option<MetaNodeId>,
}

/// The location an error carries after `at(id)`: the one it had, if any.
pub open spec fn located_at(node_id: Option<MetaNodeId>, id: MetaNodeId) -> Option<MetaNodeId> {
    match node_id {
        Some(n) => Some(n),
        None => Some(id),
    }
}

impl TypeError {
    pub fn new(kind: TypeErrorKind) -> (e: Self)
        ensures
            e.kind == kind,
            e.node_id is None,
    {
        TypeError { kind, node_id: None }
    }

    /// Attaches a node ID if none is set yet, so the innermost location wins.
    pub fn at(self, id: MetaNodeId) -> (e: Self)
        ensures
            e.kind == self.kind,
            e.node_id == located_at(self.node_id, id),
    {
        let mut s = self;
        if s.node_id.is_none() {
            s.node_id = Some(id);
        }
        s
    }

    pub fn unbound_var(name: String) -> (e: Self)
        ensures
            e.kind == TypeErrorKind::UnboundVar(name),
            e.node_id is None,
    {
        Self::new(TypeErrorKind::UnboundVar(name))
    }

    pub fn type_mismatch(expected: Type, found: Type) -> (e: Self)
        ensures
            e.kind == (TypeErrorKind::TypeMismatch { expected, found }),
            e.node_id is None,
    {
        Self::new(TypeErrorKind::TypeMismatch { expected, found })
    }

    pub fn invalid_return() -> (e: Self)
        ensures
            e.kind == TypeErrorKind::InvalidReturn,
            e.node_id is None,
    {
        Self::new(TypeErrorKind::InvalidReturn)
    }

    pub fn unsupported() -> (e: Self)
        ensures
            e.kind == TypeErrorKind::Unsupported,
            e.node_id is None,
    {
        Self::new(TypeErrorKind::Unsupported)
    }

    pub fn polymorphic_call(name: String) -> (e: Self)
        ensures
            e.kind == TypeErrorKind::PolymorphicCall(name),
            e.node_id is None,
    {
        Self::new(TypeErrorKind::PolymorphicCall(name))
    }
}

/// Locating an error twice keeps the first (innermost) location: once an
/// error has a node, later `at` calls leave it as it is.
pub proof fn law_innermost_location_wins(node_id: Option<MetaNodeId>, inner: MetaNodeId, outer: MetaNodeId)
    ensures
        located_at(located_at(node_id, inner), outer) == located_at(node_id, inner),
        node_id is None ==> located_at(located_at(node_id, inner), outer) == Some(inner),
{
}

} // verus!
