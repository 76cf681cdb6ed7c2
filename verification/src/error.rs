use vstd::prelude::*;

verus! {

/// `capnp::Error`, the error of a remote call, declared by name only.
/// Nothing is claimed of what is inside: the library takes such a
/// value with a failing answer, hands the same value out with the failure of
/// the evaluation, and never looks at it.
#[verifier::external_type_specification]
#[verifier::external_body]
pub struct ExSubstrateError(capnp::Error);

/// Why an evaluation failed.
#[derive(Debug)]
pub enum EvalError {
    /// A function was called with `actual` parameters where it takes `expected`.
    ArityMismatch { expected: u32, actual: usize },
    /// A parameter node names position `index`, and the parameter list in
    /// scope is shorter than that or absent.
    BadParameterIndex { index: u32 },
    /// A node carries the tag `tag`, which is none of the known kinds.
    MalformedExpression { tag: u16 },
    /// An answer from outside was a failure; it is handed on as it came.
    SubstrateFailure(capnp::Error),
}

} // verus!
