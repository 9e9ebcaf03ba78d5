use vstd::prelude::*;

verus! {

/// A node ID in the `MetaAst` (before meta processing), produced by the parser.
#[derive(Debug, Clone, Copy, PartialEq, Eq, Hash, PartialOrd, Ord)]
pub struct MetaNodeId(pub usize);

/// A node ID in the `StagedAst`, produced by the meta stager.
#[derive(Debug, Clone, Copy, PartialEq, Eq, Hash, PartialOrd, Ord)]
pub struct StagedNodeId(pub usize);

/// A node ID in the `RuntimeAst` (after meta processing).
#[derive(Debug, Clone, Copy, PartialEq, Eq, Hash, PartialOrd, Ord)]
pub struct RuntimeNodeId(pub usize);

} // verus!
