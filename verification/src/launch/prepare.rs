//! From a notation and the shapes of the operands to a plan: what an einsum call
//! decides before it runs anything.

use crate::error::EinsumError;
use crate::launch::config::EinsumConfig;
use crate::notation::notation::EinsumNotation;
use crate::notation::parser::{parse_einsum, parse_spec, reports, token_lists, tokens, ParseFault};
use crate::notation::subscript::Index;
use crate::notation::validation::{
    notation_fault, reports_fault, shape_views, shapes_spec, validate_notation, validate_shapes,
};
use crate::dims::{element_count, product};
use crate::kernels::grid::same_shape;
use crate::launch::executor::{keep_dim, reduced_to_one};
use crate::launch::layout::all_below;
use crate::optimization::plan::{create_plan, planned, ExecutionPlan, ExecutionStep};
use crate::pattern::fast_path::FastPath;
use vstd::prelude::*;

verus! {

/// The string spells the notation with these subscripts.
pub open spec fn parsed_as(s: Seq<char>, ins: Seq<Seq<Index>>, out: Seq<Index>) -> bool {
    parse_spec(s) == Ok::<(Seq<Seq<Option<char>>>, Seq<Option<char>>), (ParseFault, char)>(
        (token_lists(ins), tokens(out)),
    )
}

/// The shapes are accepted for the notation: there is one for each input, and,
/// where shapes are validated, validation finds no fault.
pub open spec fn shapes_accepted(ins: Seq<Seq<Index>>, out: Seq<Index>, shapes: Seq<Seq<usize>>, validate: bool) -> bool {
    shapes.len() == ins.len() && (validate ==> shapes_spec(ins, out, shapes) is Ok)
}

/// The error reports why the shapes are not accepted.
pub open spec fn shapes_rejected(
    e: EinsumError,
    ins: Seq<Seq<Index>>,
    out: Seq<Index>,
    shapes: Seq<Seq<usize>>,
    validate: bool,
) -> bool {
    if validate {
        shapes_spec(ins, out, shapes) matches Err(f) && reports_fault(e, f, ins)
    } else {
        shapes.len() != ins.len() && e is ParseError
    }
}

/// The plan for an operation whose notation is parsed already. Shapes are
/// validated where the options ask for it; in any case there must be one shape
/// for each input.
pub fn prepare_with_notation(notation: &EinsumNotation, shapes: &[&[usize]], config: &EinsumConfig) -> (res: Result<
    ExecutionPlan,
    EinsumError,
>)
    requires
        notation.wf(),
    ensures
        match res {
            Ok(plan) => shapes_accepted(
                notation.spec_inputs(),
                notation.spec_output(),
                shape_views(shapes@),
                config.validate_shapes,
            ) && planned(plan, notation.spec_inputs(), notation.spec_output(), shape_views(shapes@), config.strategy),
            Err(e) => shapes_rejected(
                e,
                notation.spec_inputs(),
                notation.spec_output(),
                shape_views(shapes@),
                config.validate_shapes,
            ),
        },
{
    if config.validate_shapes {
        match validate_shapes(notation, shapes) {
            Ok(_) => {},
            Err(e) => {
                return Err(e);
            },
        }
    }
    if shapes.len() != notation.num_inputs() {
        return Err(EinsumError::parse("the number of shapes is not the number of inputs"));
    }
    Ok(create_plan(notation, shapes, config.strategy))
}

/// Why the preparation of an operation with the subscripts `ins` and `out`
/// fails with the error `e`: the notation has a fault, or the shapes are not
/// accepted.
pub open spec fn rejected_after_parsing(
    e: EinsumError,
    s: Seq<char>,
    ins: Seq<Seq<Index>>,
    out: Seq<Index>,
    shapes: Seq<Seq<usize>>,
    validate: bool,
) -> bool {
    &&& parsed_as(s, ins, out)
    &&& match notation_fault(ins, out) {
        Some(f) => reports_fault(e, f, ins),
        None => shapes_rejected(e, ins, out, shapes, validate),
    }
}

/// The notation and the plan of an einsum call: the string is parsed, the
/// notation is validated, the shapes are checked, and the plan is made. The
/// first stage that fails gives the error.
pub fn prepare_einsum(notation: &str, shapes: &[&[usize]], config: &EinsumConfig) -> (res: Result<
    (EinsumNotation, ExecutionPlan),
    EinsumError,
>)
    ensures
        match res {
            Ok(p) => {
                let ins = p.0.spec_inputs();
                let out = p.0.spec_output();
                &&& p.0.wf()
                &&& parsed_as(notation@, ins, out)
                &&& notation_fault(ins, out) is None
                &&& shapes_accepted(ins, out, shape_views(shapes@), config.validate_shapes)
                &&& planned(p.1, ins, out, shape_views(shapes@), config.strategy)
            },
            Err(e) => (parse_spec(notation@) matches Err(f) && reports(e, f)) || exists|
                ins: Seq<Seq<Index>>,
                out: Seq<Index>,
            | #[trigger]
                rejected_after_parsing(e, notation@, ins, out, shape_views(shapes@), config.validate_shapes),
        },
{
    let parsed = match parse_einsum(notation) {
        Ok(n) => n,
        Err(e) => {
            return Err(e);
        },
    };
    match validate_notation(&parsed) {
        Ok(_) => {},
        Err(e) => {
            proof {
                assert(rejected_after_parsing(
                    e,
                    notation@,
                    parsed.spec_inputs(),
                    parsed.spec_output(),
                    shape_views(shapes@),
                    config.validate_shapes,
                ));
            }
            return Err(e);
        },
    }
    match prepare_with_notation(&parsed, shapes, config) {
        Ok(plan) => Ok((parsed, plan)),
        Err(e) => {
            proof {
                assert(rejected_after_parsing(
                    e,
                    notation@,
                    parsed.spec_inputs(),
                    parsed.spec_output(),
                    shape_views(shapes@),
                    config.validate_shapes,
                ));
            }
            Err(e)
        },
    }
}

/// The number of inputs that a fast path reads.
pub open spec fn inputs_needed(p: FastPath) -> nat {
    match p {
        FastPath::Matmul { .. } | FastPath::BatchedMatmul { .. } | FastPath::Hadamard | FastPath::OuterProduct
        | FastPath::DotProduct => 2,
        FastPath::Reduce { .. } | FastPath::Transpose { .. } | FastPath::Trace | FastPath::DiagonalExtract => 1,
    }
}

/// Checks that a call has the inputs that its fast path reads.
pub fn check_fast_path_inputs(fast_path: &FastPath, num_inputs: usize) -> (res: Result<(), EinsumError>)
    ensures
        match res {
            Ok(_) => num_inputs >= inputs_needed(*fast_path),
            Err(e) => num_inputs < inputs_needed(*fast_path) && e is Unsupported,
        },
{
    let (needed, message): (usize, &str) = match fast_path {
        FastPath::Matmul { .. } => (2, "matmul requires 2 inputs"),
        FastPath::BatchedMatmul { .. } => (2, "matmul requires 2 inputs"),
        FastPath::Reduce { .. } => (1, "reduce requires at least 1 input"),
        FastPath::Transpose { .. } => (1, "transpose requires 1 input"),
        FastPath::Hadamard => (2, "hadamard requires 2 inputs"),
        FastPath::OuterProduct => (2, "outer product requires 2 inputs"),
        FastPath::DotProduct => (2, "dot product requires 2 inputs"),
        FastPath::Trace => (1, "trace requires 1 input"),
        FastPath::DiagonalExtract => (1, "diagonal extraction requires 1 input"),
    };
    if num_inputs < needed {
        Err(EinsumError::unsupported(message))
    } else {
        Ok(())
    }
}

/// What an einsum call does once it is planned.
#[derive(Debug, Clone, Copy, PartialEq, Eq, Structural)]
pub enum Admission {
    /// An operand has no element: the call returns without launching anything.
    Nothing,
    /// The plan is run.
    Run,
}

/// Some operand has an axis of size 0.
pub open spec fn any_empty(shapes: Seq<Seq<usize>>) -> bool {
    exists|i: int| 0 <= i < shapes.len() && product(#[trigger] shapes[i]) == 0
}

/// The plan is the fast path of a reduction of the first operand, and `output`
/// is the shape of that operand with size 1 for every reduced axis.
pub open spec fn keeps_reduced_axes(plan: ExecutionPlan, shapes: Seq<Seq<usize>>, output: Seq<usize>) -> bool {
    plan.spec_steps().len() == 1 && shapes.len() >= 1 && (plan.spec_steps()[0] matches ExecutionStep::FastPath(
        FastPath::Reduce { axes, .. },
    ) && all_below(axes@, shapes[0].len()) && output == reduced_to_one(shapes[0], axes@, axes@.len()))
}

/// The output of the caller has the shape that the plan gives. A scalar may
/// also come as any shape of one element, and the result of a reduction with
/// the reduced axes kept at size 1.
pub open spec fn output_accepted(plan: ExecutionPlan, shapes: Seq<Seq<usize>>, output: Seq<usize>) -> bool {
    ||| output == plan.spec_output_shape()
    ||| (plan.spec_output_shape().len() == 0 && product(output) == 1)
    ||| keeps_reduced_axes(plan, shapes, output)
}

/// Is the plan the fast path of a reduction into an output that keeps the
/// reduced axes?
fn is_kept_reduction(plan: &ExecutionPlan, shapes: &[&[usize]], output: &[usize]) -> (r: bool)
    ensures
        r == keeps_reduced_axes(*plan, shape_views(shapes@), output@),
{
    let steps = plan.steps();
    if steps.len() != 1 || shapes.len() == 0 {
        return false;
    }
    assert(shape_views(shapes@)[0] == shapes@[0]@);
    match &steps[0] {
        ExecutionStep::FastPath(FastPath::Reduce { axes, .. }) => match keep_dim(shapes[0], axes.as_slice()) {
            Some(keep) => same_shape(output, keep.as_slice()),
            None => false,
        },
        _ => false,
    }
}

/// Decides, before anything runs, whether a planned call has anything to
/// launch and whether the output of the caller has the shape of the result. A
/// call with an operand without elements launches nothing. Else the shape of
/// the output must be accepted.
pub fn check_call(plan: &ExecutionPlan, shapes: &[&[usize]], output: &[usize]) -> (res: Result<Admission, EinsumError>)
    ensures
        match res {
            Ok(Admission::Nothing) => any_empty(shape_views(shapes@)),
            Ok(Admission::Run) => !any_empty(shape_views(shapes@)) && output_accepted(
                *plan,
                shape_views(shapes@),
                output@,
            ),
            Err(e) => !any_empty(shape_views(shapes@)) && !output_accepted(*plan, shape_views(shapes@), output@)
                && e is ShapeError,
        },
{
    let ghost sv = shape_views(shapes@);
    let mut i: usize = 0;
    while i < shapes.len()
        invariant
            i <= shapes@.len(),
            sv == shape_views(shapes@),
            forall|q: int| 0 <= q < i ==> product(#[trigger] sv[q]) != 0,
        decreases shapes@.len() - i,
    {
        assert(sv[i as int] == shapes@[i as int]@);
        if element_count(shapes[i]) == 0 {
            return Ok(Admission::Nothing);
        }
        i += 1;
    }
    let expected = plan.output_shape();
    if same_shape(output, expected) {
        return Ok(Admission::Run);
    }
    if expected.len() == 0 && element_count(output) == 1 {
        return Ok(Admission::Run);
    }
    if is_kept_reduction(plan, shapes, output) {
        return Ok(Admission::Run);
    }
    Err(EinsumError::shape("the output does not have the shape of the result"))
}

} // verus!
