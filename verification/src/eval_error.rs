use vstd::prelude::*;
use crate::node_id::RuntimeNodeId;
use crate::type_error::TypeError;

verus! {

/// An error raised while evaluating a program (meta code at compile time).
#[derive(Debug)]
pub enum EvalError {
    UndefinedVariable(String),
    NonFunctionCall,
    ArgumentMismatch,
    TypeCheckFailed(TypeError),
    TypeError(String),
    UnknownStructType(String),
    GenOutsideMetaContext,
    DivisionByZero,
    Internal(String),
    IoError(String),
    RuntimeError(String),
    ExprNotFound(RuntimeNodeId),
    StmtNotFound(RuntimeNodeId),
    Unimplemented,
    /// A `ctl` operation ended without resuming.
    EffectAborted,
    /// A continuation was resumed twice.
    MultiResumed,
    /// A `ctl` operation is waiting for its handler.
    CtlSuspend { op: String },
    /// `inner`, raised while evaluating node `node_id`.
    WithLocation { node_id: RuntimeNodeId, inner: Box<EvalError> },
}

impl From<String> for EvalError {
    /// A plain error message becomes an internal error.
    fn from(msg: String) -> (e: Self) {
        EvalError::Internal(msg)
    }
}

impl vstd::std_specs::convert::FromSpecImpl<String> for EvalError {
    open spec fn obeys_from_spec() -> bool {
        true
    }

    open spec fn from_spec(msg: String) -> Self {
        EvalError::Internal(msg)
    }
}

} // verus!
