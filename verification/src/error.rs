//! Errors of parsing, validation, planning and execution.

use vstd::prelude::*;

verus! {

/// What can go wrong with an einsum expression.
#[derive(Debug, Clone)]
pub enum EinsumError {
    /// The notation string is not in the grammar.
    ParseError { message: String },
    /// The output names an index that no input has.
    OutputIndexNotInInputs { index: char },
    /// An index occurs more often than a contraction allows.
    IndexAppearsMoreThanTwice { index: char, count: usize },
    /// Some subscripts have an ellipsis and others have none.
    InconsistentEllipsis { message: String },
    /// One index is bound to two different sizes.
    ShapeMismatch { index: char, expected: usize, got: usize },
    /// An operand's rank does not fit its subscript.
    DimensionMismatch { subscript: String, expected: usize, got: usize },
    /// The ellipses of two operands stand for different numbers of axes.
    EllipsisDimensionMismatch { expected: usize, got: usize },
    /// A subscript is empty where one is required.
    EmptySubscript,
    /// There is no input.
    NoInputs,
    /// A kernel or the runtime failed.
    LaunchError { message: String },
    /// The notation is valid but cannot be executed.
    Unsupported { message: String },
    /// The workspace limit was exceeded, or an allocation failed.
    MemoryError { message: String },
    /// Shapes or strides do not fit together at execution time.
    ShapeError { message: String },
}

/// The result of an einsum operation.
pub type EinsumResult<T> = Result<T, EinsumError>;

impl EinsumError {
    pub fn parse(message: &str) -> (e: Self)
        ensures
            e matches EinsumError::ParseError { message: m } && m@ == message@,
    {
        EinsumError::ParseError { message: message.to_owned() }
    }

    pub fn unsupported(message: &str) -> (e: Self)
        ensures
            e matches EinsumError::Unsupported { message: m } && m@ == message@,
    {
        EinsumError::Unsupported { message: message.to_owned() }
    }

    pub fn launch(message: &str) -> (e: Self)
        ensures
            e matches EinsumError::LaunchError { message: m } && m@ == message@,
    {
        EinsumError::LaunchError { message: message.to_owned() }
    }

    pub fn memory(message: &str) -> (e: Self)
        ensures
            e matches EinsumError::MemoryError { message: m } && m@ == message@,
    {
        EinsumError::MemoryError { message: message.to_owned() }
    }

    pub fn shape(message: &str) -> (e: Self)
        ensures
            e matches EinsumError::ShapeError { message: m } && m@ == message@,
    {
        EinsumError::ShapeError { message: message.to_owned() }
    }
}

/// Two errors are the same error: the same kind, with the same index, numbers
/// and text.
pub open spec fn same_error(a: EinsumError, b: EinsumError) -> bool {
    match (a, b) {
        (EinsumError::ParseError { message: x }, EinsumError::ParseError { message: y }) => x@ == y@,
        (EinsumError::OutputIndexNotInInputs { index: x }, EinsumError::OutputIndexNotInInputs { index: y }) => x
            == y,
        (
            EinsumError::IndexAppearsMoreThanTwice { index: x, count: m },
            EinsumError::IndexAppearsMoreThanTwice { index: y, count: n },
        ) => x == y && m == n,
        (EinsumError::InconsistentEllipsis { message: x }, EinsumError::InconsistentEllipsis { message: y }) => x@
            == y@,
        (
            EinsumError::ShapeMismatch { index: x, expected: m, got: n },
            EinsumError::ShapeMismatch { index: y, expected: p, got: q },
        ) => x == y && m == p && n == q,
        (
            EinsumError::DimensionMismatch { subscript: x, expected: m, got: n },
            EinsumError::DimensionMismatch { subscript: y, expected: p, got: q },
        ) => x@ == y@ && m == p && n == q,
        (
            EinsumError::EllipsisDimensionMismatch { expected: m, got: n },
            EinsumError::EllipsisDimensionMismatch { expected: p, got: q },
        ) => m == p && n == q,
        (EinsumError::EmptySubscript, EinsumError::EmptySubscript) => true,
        (EinsumError::NoInputs, EinsumError::NoInputs) => true,
        (EinsumError::LaunchError { message: x }, EinsumError::LaunchError { message: y }) => x@ == y@,
        (EinsumError::Unsupported { message: x }, EinsumError::Unsupported { message: y }) => x@ == y@,
        (EinsumError::MemoryError { message: x }, EinsumError::MemoryError { message: y }) => x@ == y@,
        (EinsumError::ShapeError { message: x }, EinsumError::ShapeError { message: y }) => x@ == y@,
        _ => false,
    }
}

} // verus!
