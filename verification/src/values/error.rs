//! What can go wrong with a value.

use vstd::prelude::*;
use vstd::string::StringExecFns;

verus! {

/// An operation on a value that the value does not allow.
#[derive(Debug, Clone, PartialEq, Eq)]
pub enum ValueError {
    /// The operation `op` is not there for a value that prints as `typ`.
    OperationNotSupported { op: String, typ: String },
    /// The operation `op` is not there for these two operands.
    OperationNotSupportedBinary { op: String, left: String, right: String },
    /// An argument has the wrong type.
    IncorrectParameterType,
    /// The argument for the parameter `.0` has the wrong type.
    IncorrectParameterTypeNamed(String),
    /// An index lies outside the container.
    IndexOutOfBound(i32),
    /// A variable was read before it was assigned.
    UnboundVariable,
}

/// A change that the state of the heap forbids.
#[derive(Debug, Clone, Copy, PartialEq, Eq, Structural)]
pub enum ControlError {
    /// The value can never change.
    CannotMutateImmutableValue,
    /// The value is being iterated over.
    MutationDuringIteration,
    /// The value reaches itself, so it cannot be frozen.
    CyclicFreeze,
    /// The pointer leads to no value: to no entry at all, or to one that a
    /// collection or the profiler has left there.
    NotAValue,
}

/// Whatever an operation on a value can fail with.
#[derive(Debug, Clone, PartialEq, Eq)]
pub enum EvalError {
    /// The heap forbids the change.
    Control(ControlError),
    /// The value does not allow the operation.
    Value(ValueError),
}

impl ControlError {
    /// The text of the error.
    pub fn message(&self) -> (r: String)
        ensures
            r@ == match self {
                ControlError::CannotMutateImmutableValue => "Immutable"@,
                ControlError::MutationDuringIteration => "This operation mutate an iterable for an iterator while iterating."@,
                ControlError::CyclicFreeze => "Cannot freeze a value that contains itself"@,
                ControlError::NotAValue => "The pointer leads to no value"@,
            },
    {
        match self {
            ControlError::CannotMutateImmutableValue => String::from_str("Immutable"),
            ControlError::MutationDuringIteration => String::from_str(
                "This operation mutate an iterable for an iterator while iterating.",
            ),
            ControlError::CyclicFreeze => String::from_str(
                "Cannot freeze a value that contains itself",
            ),
            ControlError::NotAValue => String::from_str("The pointer leads to no value"),
        }
    }
}

} // verus!
