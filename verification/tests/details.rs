use cubek_einsum::kernels::broadcast_multiply::{plan_broadcast_multiply, plan_materialize, BroadcastPlan};
use cubek_einsum::kernels::diagonal::plan_diagonal;
use cubek_einsum::kernels::dot_product::{plan_dot_product, DotPasses};
use cubek_einsum::kernels::elementwise::{plan_copy_reshape, plan_hadamard};
use cubek_einsum::kernels::grid::Grid;
use cubek_einsum::launch::executor::{
    infer_input_indices, plan_broadcast_multiply as plan_broadcast_operands, plan_general_contraction, plan_matmul,
    plan_reduce, plan_transpose, plan_transpose_output, sort_descending, BroadcastOperands, ContractionPlan, OperandPrep, ReduceTarget,
};
use cubek_einsum::launch::layout::compute_strides;
use cubek_einsum::launch::prepare::{check_call, check_fast_path_inputs, prepare_einsum, Admission};
use cubek_einsum::launch::tracking::{identity_output, initial_tracking, next_action, StepAction};
use cubek_einsum::launch::workspace::{compute_contraction_output_shape, Allocation, Workspace};
use cubek_einsum::launch::{EinsumConfig, TensorLayout};
use cubek_einsum::notation::notation::generate_batch_indices;
use cubek_einsum::notation::parser::parse_einsum_chain;
use cubek_einsum::notation::validation::validate_shapes;
use cubek_einsum::notation::{parse_einsum, validate_notation, Index, Subscript};
use cubek_einsum::optimization::branch_bound::{
    branch_bound_path_with_limits, generate_candidates, sort_candidates,
};
use cubek_einsum::optimization::dynamic::{build_contraction_path, least_member, proper_subsets, subsets_of_size};
use cubek_einsum::optimization::path::TensorState;
use cubek_einsum::optimization::plan::{estimate_fast_path_flops, ExecutionStep, ReductionOp};
use cubek_einsum::optimization::{create_plan, ContractionCost, ContractionStrategy, CostModel};
use cubek_einsum::pattern::{
    extract_matmul_config, is_batched_matmul, is_diagonal_extract, recognize_pattern, FastPath, PatternMatcher,
};
use cubek_einsum::EinsumError;

#[test]
fn parse_errors_name_their_cause() {
    match parse_einsum("   ") {
        Err(EinsumError::ParseError { message }) => assert_eq!(message, "empty notation"),
        other => panic!("got {:?}", other.map(|n| n.to_string())),
    }
    match parse_einsum("i1j,jk->ik") {
        Err(EinsumError::ParseError { message }) => assert_eq!(message, "invalid character '1' in subscript"),
        other => panic!("got {:?}", other.map(|n| n.to_string())),
    }
    match parse_einsum("...i...,j->ij") {
        Err(EinsumError::ParseError { message }) => assert_eq!(message, "multiple ellipses in subscript"),
        other => panic!("got {:?}", other.map(|n| n.to_string())),
    }
    assert!(matches!(parse_einsum("->ij"), Err(EinsumError::NoInputs)));
    assert!(matches!(parse_einsum("ij->i->j"), Err(EinsumError::ParseError { .. })));
}

#[test]
fn empty_subscripts_are_scalars() {
    let notation = parse_einsum("ij,->ij").unwrap();
    assert_eq!(notation.num_inputs(), 2);
    assert!(notation.inputs()[1].is_empty());
    assert_eq!(notation.to_string(), "ij,->ij");
}

#[test]
fn the_notation_keeps_the_trimmed_string() {
    let notation = parse_einsum("\n ij , jk -> ik \t").unwrap();
    assert_eq!(notation.to_string(), "ij,jk->ik");
    assert_eq!(notation.count_in_inputs('j'), 2);
    assert_eq!(notation.count_in_inputs('z'), 0);
    assert_eq!(notation.inputs_containing('j'), vec![0, 1]);
    assert_eq!(notation.inputs_containing('k'), vec![1]);
    assert!(notation.is_contracted('j'));
    assert!(!notation.is_batch('i'));
    assert_eq!(notation.all_indices().to_vec(), vec!['i', 'j', 'k']);
}

#[test]
fn a_chain_is_split_at_semicolons() {
    let chain = parse_einsum_chain("ij,jk->ik; ik,kl->il").unwrap();
    assert_eq!(chain.len(), 2);
    assert_eq!(chain[0].to_string(), "ij,jk->ik");
    assert_eq!(chain[1].to_string(), "ik,kl->il");
    assert!(matches!(parse_einsum_chain("ij->ji;"), Err(EinsumError::ParseError { .. })));
}

#[test]
fn subscripts_keep_their_order() {
    let mut sub = Subscript::new();
    sub.push_named('b');
    sub.push_ellipsis();
    sub.push_ellipsis();
    sub.push_named('a');
    assert_eq!(sub.to_string(), "b...a");
    assert_eq!(sub.len(), 3);
    assert_eq!(sub.ellipsis_position(), Some(1));
    assert_eq!(sub.position('a'), Some(2));
    assert_eq!(sub.position('z'), None);
    assert_eq!(sub.named_indices(), vec!['b', 'a']);
    assert_eq!(sub.ndims(3), 5);
    assert_eq!(sub.iter(), vec![Index::Named('b'), Index::Ellipsis, Index::Named('a')]);
    assert_eq!(sub.expand_ellipsis(&['x', 'y']).to_string(), "bxya");
    assert_eq!(Index::Ellipsis.as_char(), None);
    assert_eq!(Index::Named('q').as_char(), Some('q'));
    assert!(Index::Ellipsis.is_ellipsis());
}

#[test]
fn ellipsis_axes_get_letters_of_their_own() {
    assert_eq!(generate_batch_indices(3), vec!['\u{2460}', '\u{2461}', '\u{2462}']);
    let notation = parse_einsum("...ij,...jk->...ik").unwrap();
    let result = validate_shapes(&notation, &[&[7, 8, 2, 3], &[7, 8, 3, 4]]).unwrap();
    assert_eq!(result.ellipsis_dims, 2);
    assert_eq!(result.dim_of('\u{2460}'), Some(7));
    assert_eq!(result.dim_of('\u{2461}'), Some(8));
    assert_eq!(result.output_shape, vec![7, 8, 2, 4]);
    assert_eq!(result.contracted_shape, vec![3]);
    assert_eq!(result.compute_flops(), 2 * (7 * 8 * 2 * 4) * 3);
    assert_eq!(
        result.compute_memory_elements(&[&[7, 8, 2, 3], &[7, 8, 3, 4]]),
        (7 * 8 * 2 * 3 + 7 * 8 * 3 * 4 + 7 * 8 * 2 * 4) as u64
    );
}

#[test]
fn validation_reports_rank_and_width() {
    let notation = parse_einsum("ij,jk->ik").unwrap();
    match validate_shapes(&notation, &[&[3, 4, 5], &[4, 5]]) {
        Err(EinsumError::DimensionMismatch { subscript, expected, got }) => {
            assert_eq!((subscript.as_str(), expected, got), ("ij", 2, 3));
        }
        other => panic!("got {:?}", other.map(|v| v.output_shape)),
    }
    assert!(matches!(validate_shapes(&notation, &[&[3, 4]]), Err(EinsumError::ParseError { .. })));
    let dotted = parse_einsum("...ij,...jk->...ik").unwrap();
    match validate_shapes(&dotted, &[&[9, 2, 3], &[3, 4]]) {
        Err(EinsumError::EllipsisDimensionMismatch { expected, got }) => assert_eq!((expected, got), (1, 0)),
        other => panic!("got {:?}", other.map(|v| v.output_shape)),
    }
    match validate_shapes(&dotted, &[&[3], &[3, 4]]) {
        Err(EinsumError::DimensionMismatch { subscript, expected, got }) => {
            assert_eq!((subscript.as_str(), expected, got), ("...ij", 2, 1));
        }
        other => panic!("got {:?}", other.map(|v| v.output_shape)),
    }
}

#[test]
fn notation_methods_compute_shape_and_operations() {
    let notation = parse_einsum("ij,jk->ik").unwrap();
    assert_eq!(notation.compute_output_shape(&[&[3, 4], &[4, 5]], 0).unwrap(), vec![3, 5]);
    assert!(matches!(
        notation.compute_output_shape(&[&[3, 4], &[6, 5]], 0),
        Err(EinsumError::ShapeMismatch { index: 'j', expected: 4, got: 6 })
    ));
    assert_eq!(notation.compute_flops(&[&[3, 4], &[4, 5]], 0), 2 * 3 * 5 * 4);
    let pair = parse_einsum("ij,jk,kl->il").unwrap().pairwise(0, 1);
    assert_eq!(pair.to_string(), "ij,jk->ik");
    let kept = parse_einsum("ij,jk,jl->il").unwrap().pairwise(0, 1);
    assert_eq!(kept.to_string(), "ij,jk->ijk");
}

#[test]
fn validation_accepts_a_valid_notation() {
    for text in ["ij,jk->ik", "ii->i", "...ij,...jk->...ik", "ab,bc,ca->"] {
        assert!(validate_notation(&parse_einsum(text).unwrap()).is_ok(), "{}", text);
    }
}

#[test]
fn costs_follow_the_formula() {
    let model = CostModel::gpu();
    let cost = model.compute_pairwise_cost(&[100, 200], &[200, 300], &['i', 'j'], &['j', 'k'], &['j']);
    assert_eq!(cost.flops, 12_000_000);
    assert_eq!(cost.memory, 100 * 200 + 200 * 300 + 100 * 300);
    assert_eq!(cost.total, 12_000_000 + 64 * 110_000);
    let batched = CostModel::cpu().compute_pairwise_cost(&[2, 3, 4], &[2, 4, 5], &['b', 'i', 'j'], &['b', 'j', 'k'], &['j']);
    assert_eq!(batched.flops, 2 * (2 * 3 * 5) * 4);
    assert_eq!(batched.memory, 24 + 40 + 30);
    assert_eq!(batched.total, 240 + 8 * 94);
    let empty = model.compute_pairwise_cost(&[0, 4], &[4, 5], &['i', 'j'], &['j', 'k'], &['j']);
    assert_eq!((empty.flops, empty.memory), (0, 20));
    let huge = model.compute_pairwise_cost(&[usize::MAX, usize::MAX], &[2], &['i', 'j'], &['k'], &[]);
    assert_eq!((huge.flops, huge.memory, huge.total), (u64::MAX, u64::MAX, u64::MAX));
    let multi = model.compute_multi_cost(
        &[vec![2, 3], vec![3, 4], vec![4, 5]],
        &[vec!['i', 'j'], vec!['j', 'k'], vec!['k', 'l']],
        &['i', 'l'],
    );
    assert_eq!(multi.flops, 2 * (2 * 5) * (3 * 4));
    assert_eq!(multi.memory, 6 + 12 + 20 + 10);
    let bound = model.optimistic_remaining_cost(&[vec![2, 3], vec![3, 4]], &[vec!['i', 'j'], vec!['j', 'k']]);
    assert_eq!((bound.flops, bound.memory, bound.total), (18, 18, 18 + 64 * 18));
    let none = model.optimistic_remaining_cost(&[vec![2, 3]], &[vec!['i', 'j']]);
    assert_eq!(none, ContractionCost::zero());
    assert_eq!(ContractionCost::new(3, 4, 5).plus(ContractionCost::new(u64::MAX, 1, 0)).flops, u64::MAX);
    assert_eq!(CostModel::default().alpha, 64);
}

#[test]
fn fast_path_estimates_follow_the_shapes() {
    let shapes: &[&[usize]] = &[&[2, 3, 4, 5], &[2, 3, 5, 6]];
    let batched = FastPath::BatchedMatmul { batch_dims: vec![0, 1], transpose_a: false, transpose_b: false };
    assert_eq!(estimate_fast_path_flops(&batched, shapes), 2 * (2 * 3) * 4 * 5 * 6);
    assert_eq!(estimate_fast_path_flops(&FastPath::Hadamard, shapes), 120);
    assert_eq!(estimate_fast_path_flops(&FastPath::OuterProduct, shapes), 120 * 180);
    assert_eq!(estimate_fast_path_flops(&FastPath::DotProduct, shapes), 240);
    assert_eq!(estimate_fast_path_flops(&FastPath::Trace, shapes), 2);
    assert_eq!(estimate_fast_path_flops(&FastPath::Trace, &[]), 0);
    assert_eq!(estimate_fast_path_flops(&FastPath::Matmul { transpose_a: false, transpose_b: false }, &[&[7]]), 0);
    assert_eq!(FastPath::Trace.name(), "trace");
    assert!(FastPath::Hadamard.is_binary());
    assert!(FastPath::DiagonalExtract.is_unary());
    assert!(batched.is_matmul());
}

#[test]
fn patterns_carry_their_parameters() {
    let swapped = parse_einsum("hbqd,hbkd->bhqk").unwrap();
    let config = is_batched_matmul(&swapped).unwrap();
    assert_eq!(config.batch_dims, vec![0, 1]);
    assert_eq!((config.m_dim, config.n_dim, config.k_index), (2, 3, 'd'));
    let plain = extract_matmul_config(&parse_einsum("ji,kj->ik").unwrap()).unwrap();
    assert!(plain.transpose_a && plain.transpose_b);
    assert_eq!((plain.m_dim, plain.n_dim), (0, 1));
    let diagonal = is_diagonal_extract(&parse_einsum("bii->bi").unwrap()).unwrap();
    assert_eq!((diagonal.diagonal_index, diagonal.diagonal_dim), ('i', 1));
    assert_eq!(
        PatternMatcher::recognize(&parse_einsum("ijk->kij").unwrap()),
        Some(FastPath::Transpose { permutation: vec![2, 0, 1] })
    );
    assert_eq!(recognize_pattern(&parse_einsum("ii->i").unwrap()), Some(FastPath::DiagonalExtract));
    assert_eq!(recognize_pattern(&parse_einsum("ij,ij->").unwrap()), Some(FastPath::DotProduct));
}

#[test]
fn strides_are_row_major() {
    assert_eq!(compute_strides(&[2, 3, 4]).unwrap(), vec![12, 4, 1]);
    assert_eq!(compute_strides(&[]).unwrap(), Vec::<usize>::new());
    assert_eq!(compute_strides(&[5]).unwrap(), vec![1]);
    assert_eq!(compute_strides(&[7, 0, 3]).unwrap(), vec![0, 3, 1]);
    assert!(matches!(compute_strides(&[2, usize::MAX, 2]), Err(EinsumError::ShapeError { .. })));
}

#[test]
fn layouts_of_the_fast_paths() {
    let a = TensorLayout::new(vec![2, 3, 4], vec![12, 4, 1]);
    let b = TensorLayout::new(vec![2, 4, 5], vec![20, 5, 1]);
    let (lhs, rhs) = plan_matmul(&[a.clone(), b.clone()], true, false).unwrap().unwrap();
    assert_eq!((lhs.shape, lhs.strides), (vec![2, 4, 3], vec![12, 1, 4]));
    assert_eq!(rhs, b);
    assert!(matches!(plan_matmul(&[a.clone()], false, false), Err(EinsumError::Unsupported { .. })));
    let moved = plan_transpose(&a, &[2, 0, 1]).unwrap();
    assert_eq!((moved.shape, moved.strides), (vec![4, 2, 3], vec![1, 12, 4]));
    assert!(matches!(plan_transpose(&a, &[3]), Err(EinsumError::ShapeError { .. })));
    assert!(check_fast_path_inputs(&FastPath::Hadamard, 2).is_ok());
    assert!(matches!(check_fast_path_inputs(&FastPath::Hadamard, 1), Err(EinsumError::Unsupported { .. })));
    assert!(check_fast_path_inputs(&FastPath::Trace, 1).is_ok());
}

#[test]
fn several_axes_are_reduced_from_the_highest_down() {
    assert_eq!(sort_descending(&[0, 2, 1, 2]), vec![2, 2, 1, 0]);
    let stages = plan_reduce(&[2, 3, 4], &[3], &[0, 2]).unwrap();
    assert_eq!(stages.len(), 2);
    assert_eq!((stages[0].axis, stages[0].keep_dim_shape.clone()), (2, vec![2, 3, 1]));
    assert_eq!(stages[0].target, ReduceTarget::Workspace);
    assert_eq!((stages[1].axis, stages[1].keep_dim_shape.clone()), (0, vec![1, 3, 1]));
    assert_eq!(stages[1].target, ReduceTarget::Rebind { output_strides: vec![1] });
    assert!(matches!(plan_reduce(&[2, 3], &[2], &[]), Err(EinsumError::Unsupported { .. })));
    assert!(matches!(plan_reduce(&[2, 3], &[2], &[5]), Err(EinsumError::ShapeError { .. })));
}

#[test]
fn a_contraction_becomes_a_matrix_product() {
    let lhs = TensorLayout::new(vec![2, 3, 4], vec![12, 4, 1]);
    let rhs = TensorLayout::new(vec![4, 2, 5], vec![10, 5, 1]);
    let out = TensorLayout::new(vec![2, 3, 5], vec![15, 5, 1]);
    let plan = plan_general_contraction(&lhs, &rhs, &out, &['b', 'i', 'j'], &['j', 'b', 'k'], &['j']).unwrap();
    match plan {
        ContractionPlan::Gemm(gemm) => {
            assert_eq!(gemm.lhs, OperandPrep::AsIs);
            assert_eq!(
                gemm.rhs,
                OperandPrep::View { layout: TensorLayout::new(vec![2, 4, 5], vec![5, 10, 1]) }
            );
            assert_eq!(gemm.output, None);
            assert_eq!(gemm.restored_strides, None);
        }
        other => panic!("got {:?}", other),
    }
    let a = TensorLayout::new(vec![2, 3, 4], vec![12, 4, 1]);
    let b = TensorLayout::new(vec![3, 2], vec![2, 1]);
    let o = TensorLayout::new(vec![4], vec![1]);
    match plan_general_contraction(&a, &b, &o, &['i', 'j', 'k'], &['j', 'i'], &['i', 'j']).unwrap() {
        ContractionPlan::Gemm(gemm) => {
            assert_eq!(
                gemm.lhs,
                OperandPrep::Materialize {
                    permuted: TensorLayout::new(vec![4, 2, 3], vec![1, 12, 4]),
                    target_shape: vec![4, 6],
                }
            );
            assert_eq!(
                gemm.rhs,
                OperandPrep::Materialize {
                    permuted: TensorLayout::new(vec![2, 3], vec![1, 2]),
                    target_shape: vec![6, 1],
                }
            );
            assert_eq!(gemm.output, Some(TensorLayout::new(vec![4, 1], vec![1, 1])));
            assert_eq!(gemm.restored_strides, Some(vec![1]));
        }
        other => panic!("got {:?}", other),
    }
}

#[test]
fn without_contraction_the_smaller_operand_is_broadcast() {
    let matrix = TensorLayout::new(vec![512, 1024], vec![1024, 1]);
    let vector = TensorLayout::new(vec![1024], vec![1]);
    match plan_broadcast_operands(&matrix, &vector, &['i', 'j'], &['j']).unwrap() {
        BroadcastOperands::Strided { lhs, rhs } => {
            assert_eq!(lhs, matrix);
            assert_eq!(rhs, TensorLayout::new(vec![512, 1024], vec![0, 1]));
        }
        other => panic!("got {:?}", other),
    }
    assert_eq!(
        plan_broadcast_operands(&matrix, &matrix, &['i', 'j'], &['i', 'j']).unwrap(),
        BroadcastOperands::Hadamard
    );
    let other = TensorLayout::new(vec![3, 1024], vec![1024, 1]);
    assert!(matches!(
        plan_broadcast_operands(&matrix, &other, &['i', 'j'], &['k', 'j']),
        Err(EinsumError::Unsupported { .. })
    ));
    let out = TensorLayout::new(vec![512, 1024], vec![1024, 1]);
    assert!(matches!(
        plan_general_contraction(&matrix, &vector, &out, &['i', 'j'], &['j'], &[]).unwrap(),
        ContractionPlan::Broadcast(BroadcastOperands::Strided { .. })
    ));
    let first = TensorLayout::new(vec![2, 3], vec![3, 1]);
    let turned = TensorLayout::new(vec![3, 2], vec![2, 1]);
    match plan_broadcast_operands(&first, &turned, &['i', 'j'], &['j', 'i']).unwrap() {
        BroadcastOperands::Strided { lhs, rhs } => {
            assert_eq!(lhs, first);
            assert_eq!(rhs, TensorLayout::new(vec![2, 3], vec![1, 2]));
        }
        other => panic!("got {:?}", other),
    }
    let longer = TensorLayout::new(vec![2, 4], vec![4, 1]);
    assert!(matches!(
        plan_broadcast_operands(&first, &longer, &['i', 'j'], &['i', 'j']),
        Err(EinsumError::ShapeError { .. })
    ));
}

#[test]
fn kernels_are_launched_in_blocks() {
    assert_eq!(plan_hadamard(&[16, 16], &[16, 16], &[16, 16]).unwrap(), Some(Grid { cubes: 1, elements: 256 }));
    assert_eq!(plan_hadamard(&[257], &[257], &[257]).unwrap(), Some(Grid { cubes: 2, elements: 257 }));
    assert!(matches!(plan_hadamard(&[2], &[3], &[2]), Err(EinsumError::LaunchError { .. })));
    assert!(matches!(plan_hadamard(&[2], &[2], &[3]), Err(EinsumError::LaunchError { .. })));
    assert!(matches!(plan_hadamard(&[1 << 33], &[1 << 33], &[1 << 33]), Err(EinsumError::Unsupported { .. })));
    assert!(matches!(plan_copy_reshape(&[2, 3], &[7]), Err(EinsumError::ShapeError { .. })));
    assert_eq!(plan_copy_reshape(&[2, 3], &[6]).unwrap(), Some(Grid { cubes: 1, elements: 6 }));
    assert_eq!(plan_dot_product(&[300], &[300], &[]).unwrap(), Some(DotPasses::TwoPass { elements: 300, blocks: 2 }));
    assert_eq!(
        plan_dot_product(&[70_000], &[70_000], &[1]).unwrap(),
        Some(DotPasses::ThreePass { elements: 70_000, blocks: 274, final_blocks: 2 })
    );
    let diagonal = plan_diagonal(&[3, 5, 5], &[25, 5, 1], &[3, 5]).unwrap().unwrap();
    assert_eq!((diagonal.n, diagonal.diag_stride, diagonal.matrix_size), (5, 6, 25));
    assert_eq!(diagonal.grid, Grid { cubes: 1, elements: 15 });
    assert!(matches!(plan_diagonal(&[5], &[1], &[5]), Err(EinsumError::LaunchError { .. })));
    assert!(matches!(plan_diagonal(&[4, 5], &[5, 1], &[4]), Err(EinsumError::LaunchError { .. })));
    assert!(matches!(plan_diagonal(&[5, 5], &[5, 1], &[4]), Err(EinsumError::LaunchError { .. })));
}

#[test]
fn broadcasting_kernels_take_strides() {
    match plan_broadcast_multiply(&[2, 3], &[3, 1], &[2, 3], &[0, 1], &[2, 3]).unwrap() {
        Some(BroadcastPlan::Direct { grid, shape, lhs_strides, rhs_strides }) => {
            assert_eq!(grid, Grid { cubes: 1, elements: 6 });
            assert_eq!((shape, lhs_strides, rhs_strides), (vec![2, 3], vec![3, 1], vec![0, 1]));
        }
        other => panic!("got {:?}", other),
    }
    assert_eq!(
        plan_broadcast_multiply(&[2, 3, 4], &[12, 4, 1], &[2, 3, 4], &[0, 4, 1], &[2, 3, 4]).unwrap(),
        Some(BroadcastPlan::Materialize { lhs: false, rhs: true })
    );
    assert!(matches!(
        plan_broadcast_multiply(&[2], &[1], &[2, 3], &[3, 1], &[2, 3]),
        Err(EinsumError::LaunchError { .. })
    ));
    let (grid, shape, strides) = plan_materialize(&[0, 4, 1], &[2, 3, 4]).unwrap().unwrap();
    assert_eq!((grid, shape, strides), (Grid { cubes: 1, elements: 24 }, vec![2, 3, 4], vec![0, 4, 1]));
    assert!(matches!(plan_materialize(&[0, 0, 0, 1], &[2, 2, 2, 2]), Err(EinsumError::LaunchError { .. })));
}

#[test]
fn the_workspace_reuses_what_fits() {
    let mut workspace = Workspace::new(100);
    assert!(workspace.is_empty());
    assert_eq!(workspace.allocate(vec![2, 3], 4, 1).unwrap(), (0, Allocation::Fresh));
    assert_eq!(workspace.allocate(vec![5], 4, 2).unwrap(), (1, Allocation::Fresh));
    assert_eq!(workspace.current_memory_usage(), 44);
    assert_eq!(workspace.allocate(vec![3, 2], 4, 3).unwrap(), (0, Allocation::Reused { from: 0 }));
    assert_eq!(workspace.get(0).unwrap().shape, vec![2, 3]);
    assert_eq!(workspace.get(1).unwrap().shape, vec![5]);
    assert!(workspace.get(2).is_none());
    match workspace.allocate(vec![4, 4], 4, 4) {
        Err(EinsumError::MemoryError { message }) => assert_eq!(message, "workspace limit exceeded: 44 + 64 > 100"),
        other => panic!("got {:?}", other),
    }
    assert_eq!(workspace.len(), 2);
    workspace.clear();
    assert_eq!(workspace.len(), 0);
}

#[test]
fn a_tensor_in_use_is_not_handed_out() {
    let mut workspace = Workspace::new(0);
    assert_eq!(workspace.allocate(vec![2, 3], 4, 0).unwrap(), (0, Allocation::Fresh));
    workspace.mark_used(0, 5);
    assert_eq!(workspace.allocate(vec![2, 3], 4, 1).unwrap(), (1, Allocation::Fresh));
    assert_eq!(workspace.allocate(vec![2, 3], 4, 1).unwrap(), (2, Allocation::Fresh));
    assert_eq!(workspace.allocate(vec![2, 3], 4, 5).unwrap(), (1, Allocation::Reused { from: 1 }));
    assert_eq!(workspace.allocate(vec![2, 3], 4, 5).unwrap(), (2, Allocation::Reused { from: 2 }));
    assert_eq!(workspace.allocate(vec![2, 3], 4, 5).unwrap(), (3, Allocation::Fresh));
    assert_eq!(workspace.allocate(vec![3, 2], 4, 6).unwrap(), (0, Allocation::Reused { from: 0 }));
    assert_eq!(workspace.len(), 4);
}

#[test]
fn tensors_are_free_after_their_last_use() {
    let mut workspace = Workspace::default();
    workspace.register_inputs(3);
    workspace.mark_used(0, 1);
    workspace.mark_used(1, 2);
    workspace.mark_used(5, 1);
    assert_eq!(workspace.find_freed_after_step(0), vec![2]);
    assert_eq!(workspace.find_freed_after_step(1), vec![0, 2, 5]);
    assert_eq!(workspace.find_freed_after_step(2), vec![0, 1, 2, 5]);
}

#[test]
fn a_missing_index_is_a_shape_error() {
    match compute_contraction_output_shape(&[2, 3], &[3, 4], &['i', 'j'], &['j', 'k'], &['i', 'z']) {
        Err(EinsumError::ShapeError { message }) => assert_eq!(message, "missing dimension for index 'z'"),
        other => panic!("got {:?}", other),
    }
}

#[test]
fn the_steps_of_a_chain_update_the_list() {
    let notation = parse_einsum("ij,jk,kl->il").unwrap();
    let shapes: &[&[usize]] = &[&[2, 3], &[3, 4], &[4, 5]];
    let plan = create_plan(&notation, shapes, ContractionStrategy::Greedy);
    let layouts: Vec<TensorLayout> =
        shapes.iter().map(|s| TensorLayout::new(s.to_vec(), compute_strides(s).unwrap())).collect();
    let mut tensors = initial_tracking(plan.input_indices(), &layouts);
    assert_eq!(tensors.len(), 3);
    assert_eq!(tensors[1].indices, vec!['j', 'k']);
    let output = TensorLayout::new(vec![2, 5], vec![5, 1]);
    let steps = plan.steps();
    assert_eq!(plan.output_indices(), &['i', 'l']);
    match next_action(&mut tensors, &steps[0], false, &output, plan.output_indices()).unwrap() {
        StepAction::Contract { lhs, rhs, into_output, target, plan } => {
            assert_eq!((lhs, rhs, into_output), (0, 1, false));
            assert_eq!(target, TensorLayout::new(vec![2, 4], vec![4, 1]));
            assert!(matches!(plan, ContractionPlan::Gemm(_)));
        }
        other => panic!("got {:?}", other),
    }
    assert_eq!(tensors.len(), 2);
    assert_eq!(tensors[0].indices, vec!['k', 'l']);
    assert_eq!(tensors[1].indices, vec!['i', 'k']);
    assert_eq!(tensors[1].layout, TensorLayout::new(vec![2, 4], vec![4, 1]));
    let mut again = initial_tracking(&[vec!['k', 'l'], vec!['i', 'k']], &[
        TensorLayout::new(vec![4, 5], vec![5, 1]),
        TensorLayout::new(vec![2, 4], vec![4, 1]),
    ]);
    assert!(matches!(
        next_action(&mut again, &steps[1], true, &output, &['i']),
        Err(EinsumError::Unsupported { .. })
    ));
    match next_action(&mut tensors, &steps[1], true, &output, plan.output_indices()).unwrap() {
        StepAction::Contract { lhs, rhs, into_output, target, .. } => {
            assert_eq!((lhs, rhs, into_output), (0, 1, true));
            assert_eq!(target, TensorLayout::new(vec![5, 2], vec![1, 5]));
        }
        other => panic!("got {:?}", other),
    }
    assert_eq!(tensors.len(), 2);
    assert_eq!(infer_input_indices(1, 3), vec!['e', 'f', 'g']);
    assert_eq!(infer_input_indices(6, 3), vec!['y', 'z', '?']);
}

#[test]
fn preparation_stops_at_the_first_fault() {
    let config = EinsumConfig::new();
    let (notation, plan) = prepare_einsum("ij,jk->ik", &[&[3, 4], &[4, 5]], &config).unwrap();
    assert_eq!(notation.to_string(), "ij,jk->ik");
    assert!(plan.uses_fast_path());
    assert!(matches!(prepare_einsum("ij,j k->i$", &[], &config), Err(EinsumError::ParseError { .. })));
    assert!(matches!(
        prepare_einsum("ij->ijk", &[&[3, 4]], &config),
        Err(EinsumError::OutputIndexNotInInputs { index: 'k' })
    ));
    assert!(matches!(
        prepare_einsum("ij,jk->ik", &[&[3, 4], &[5, 6]], &config),
        Err(EinsumError::ShapeMismatch { index: 'j', expected: 4, got: 5 })
    ));
    let fast = EinsumConfig::fast();
    assert!(prepare_einsum("ij,jk->ik", &[&[3, 4], &[5, 6]], &fast).is_ok());
    assert!(matches!(prepare_einsum("ij,jk->ik", &[&[3, 4]], &fast), Err(EinsumError::ParseError { .. })));
    let safe = EinsumConfig::safe().with_strategy(ContractionStrategy::BranchBound).with_autotune(false);
    assert_eq!(safe.strategy, ContractionStrategy::BranchBound);
    assert!(!safe.autotune && safe.validate_shapes && safe.use_tensor_cores);
    let plain = EinsumConfig::default().with_validation(false).with_tensor_cores(false);
    assert!(!plain.validate_shapes && !plain.use_tensor_cores && plain.autotune);
}

#[test]
fn subsets_are_listed_once_each() {
    let mut pairs = subsets_of_size(4, 2);
    assert_eq!(pairs, vec![0b0011, 0b0101, 0b1001, 0b0110, 0b1010, 0b1100]);
    pairs.sort();
    pairs.dedup();
    assert_eq!(pairs.len(), 6);
    assert_eq!(subsets_of_size(3, 0), vec![0]);
    assert_eq!(subsets_of_size(3, 3), vec![0b111]);
    assert!(subsets_of_size(3, 4).is_empty());
    assert_eq!(subsets_of_size(12, 6).len(), 924);
    assert_eq!(proper_subsets(0b1011), vec![0b1011, 0b1010, 0b1001, 0b1000, 0b0011, 0b0010, 0b0001]);
    assert!(proper_subsets(0).is_empty());
    assert_eq!(least_member(0b1100, 4), 2);
    assert_eq!(least_member(0b1100, 2), 2);
    assert_eq!(least_member(0, 5), 5);
}

#[test]
fn pairs_of_operands_become_steps() {
    let model = CostModel { alpha: 0 };
    let state = || TensorState::new(vec![vec![2, 3], vec![3, 4], vec![4, 5]], vec![vec!['i', 'j'], vec!['j', 'k'], vec!['k', 'l']]);
    let (path, cost) = build_contraction_path(&[(1, 2), (0, 1)], state(), &['i', 'l'], &model).unwrap();
    assert_eq!(path.to_pairs(), vec![(1, 2), (0, 1)]);
    assert_eq!(path.steps()[0].result_indices, vec!['j', 'l']);
    assert_eq!(path.steps()[1].result_indices, vec!['i', 'l']);
    assert_eq!(cost.flops, 2 * 3 * 5 * 4 + 2 * 2 * 5 * 3);
    assert_eq!(cost.total, cost.flops);
    let (again, _) = build_contraction_path(&[(0, 1), (1, 2)], state(), &['i', 'l'], &model).unwrap();
    assert_eq!(again.to_pairs(), vec![(0, 1), (0, 1)]);
    assert!(build_contraction_path(&[(0, 1)], state(), &['i', 'l'], &model).is_none());
    assert!(build_contraction_path(&[(0, 3), (0, 1)], state(), &['i', 'l'], &model).is_none());
    assert!(build_contraction_path(&[(0, 1), (0, 1)], state(), &['i', 'l'], &model).is_none());
    assert!(build_contraction_path(&[(2, 2), (0, 1)], state(), &['i', 'l'], &model).is_none());
}

#[test]
fn candidates_of_the_same_cost_keep_their_order() {
    let state = TensorState::new(vec![vec![2, 2], vec![2, 2], vec![2, 2]], vec![vec!['i', 'j'], vec!['j', 'k'], vec!['k', 'i']]);
    let model = CostModel { alpha: 0 };
    let found = generate_candidates(&state, &[], &model);
    let pairs: Vec<(usize, usize)> = found.iter().map(|c| (c.first, c.second)).collect();
    assert_eq!(pairs, vec![(0, 1), (0, 2), (1, 2)]);
    let sorted = sort_candidates(found);
    let pairs: Vec<(usize, usize)> = sorted.iter().map(|c| (c.first, c.second)).collect();
    assert_eq!(pairs, vec![(0, 1), (0, 2), (1, 2)]);
    let skewed = TensorState::new(vec![vec![9, 9], vec![9, 2], vec![2, 1]], vec![vec!['i', 'j'], vec!['j', 'k'], vec!['k', 'l']]);
    let sorted = sort_candidates(generate_candidates(&skewed, &['i', 'l'], &model));
    let totals: Vec<u64> = sorted.iter().map(|c| c.cost.total).collect();
    assert_eq!(totals, vec![2 * 9 * 2, 2 * 9 * 2 * 9, 2 * 9 * 9 * 2]);
    assert_eq!((sorted[0].first, sorted[0].second), (1, 2));
    assert_eq!((sorted[1].first, sorted[1].second), (0, 1));
    assert_eq!((sorted[2].first, sorted[2].second), (0, 2));
}

#[test]
fn merged_axes_of_equal_rank_are_reshaped() {
    let lhs = TensorLayout::new(vec![2, 3], vec![3, 1]);
    let rhs = TensorLayout::new(vec![2, 3, 4], vec![12, 4, 1]);
    let out = TensorLayout::new(vec![4], vec![1]);
    match plan_general_contraction(&lhs, &rhs, &out, &['i', 'j'], &['i', 'j', 'k'], &['i', 'j']).unwrap() {
        ContractionPlan::Gemm(gemm) => {
            assert_eq!(gemm.lhs, OperandPrep::View { layout: TensorLayout::new(vec![1, 6], vec![6, 1]) });
            assert_eq!(gemm.rhs, OperandPrep::View { layout: TensorLayout::new(vec![6, 4], vec![4, 1]) });
            assert_eq!(gemm.output, Some(TensorLayout::new(vec![1, 4], vec![4, 1])));
            assert_eq!(gemm.restored_strides, Some(vec![1]));
        }
        other => panic!("got {:?}", other),
    }
    let wide = TensorLayout::new(vec![usize::MAX, 2], vec![2, 1]);
    let other = TensorLayout::new(vec![2], vec![1]);
    assert!(matches!(
        plan_general_contraction(&wide, &other, &out, &['i', 'j'], &['k'], &['i', 'j']),
        Err(EinsumError::ShapeError { .. })
    ));
}

#[test]
fn steps_report_what_is_wrong_with_them() {
    let layouts = vec![TensorLayout::new(vec![2, 3], vec![3, 1]), TensorLayout::new(vec![3, 4], vec![4, 1])];
    let indices = vec![vec!['i', 'j'], vec!['j', 'k']];
    let output = TensorLayout::new(vec![2, 4], vec![4, 1]);
    let mut tensors = initial_tracking(&indices, &layouts);
    let same = ExecutionStep::Contraction { inputs: (1, 1), contracted: vec!['j'], result: vec!['i', 'k'], flops: 0 };
    assert!(matches!(next_action(&mut tensors, &same, true, &output, &['i', 'k']), Err(EinsumError::LaunchError { .. })));
    let missing = ExecutionStep::Permutation { input: 2, perm: vec![1, 0] };
    assert!(matches!(next_action(&mut tensors, &missing, false, &output, &['i', 'k']), Err(EinsumError::LaunchError { .. })));
    let wrong = ExecutionStep::Permutation { input: 0, perm: vec![1, 2] };
    assert!(matches!(next_action(&mut tensors, &wrong, false, &output, &['i', 'k']), Err(EinsumError::ShapeError { .. })));
    let product = ExecutionStep::Reduction { input: 0, axes: vec![1], op: ReductionOp::Prod };
    assert!(matches!(next_action(&mut tensors, &product, false, &output, &['i', 'k']), Err(EinsumError::Unsupported { .. })));
    let no_axis = ExecutionStep::Reduction { input: 0, axes: vec![], op: ReductionOp::Sum };
    assert!(matches!(next_action(&mut tensors, &no_axis, false, &output, &['i', 'k']), Err(EinsumError::Unsupported { .. })));
    let beyond = ExecutionStep::Reduction { input: 0, axes: vec![7], op: ReductionOp::Sum };
    assert!(matches!(next_action(&mut tensors, &beyond, false, &output, &['i', 'k']), Err(EinsumError::ShapeError { .. })));
    assert_eq!(tensors.len(), 2);
    assert_eq!(tensors[0].layout, layouts[0]);
    let swap = ExecutionStep::Permutation { input: 0, perm: vec![1, 0] };
    assert!(matches!(next_action(&mut tensors, &swap, false, &output, &['i', 'k']), Ok(StepAction::Permute { input: 0 })));
    assert_eq!(tensors[0].layout, TensorLayout::new(vec![3, 2], vec![1, 3]));
    assert_eq!(tensors[0].indices, vec!['j', 'i']);
    let sum = ExecutionStep::Reduction { input: 1, axes: vec![0], op: ReductionOp::Sum };
    match next_action(&mut tensors, &sum, false, &output, &['i', 'k']).unwrap() {
        StepAction::Reduce { input, into_output, result_shape, stages } => {
            assert_eq!((input, into_output), (1, false));
            assert_eq!(result_shape, vec![4]);
            assert_eq!(stages.len(), 1);
        }
        other => panic!("got {:?}", other),
    }
    assert_eq!(tensors[1].layout, TensorLayout::new(vec![4], vec![1]));
    assert_eq!(tensors[1].indices, vec!['k']);
    let fast = ExecutionStep::FastPath(FastPath::Hadamard);
    assert!(matches!(next_action(&mut tensors, &fast, true, &output, &['i', 'k']), Ok(StepAction::FastPath)));
}

#[test]
fn the_search_within_limits_starts_from_the_greedy_path() {
    let notation = parse_einsum("ij,jk,kl->il").unwrap();
    let shapes: &[&[usize]] = &[&[1, 1], &[1, 2], &[2, 1]];
    let model = CostModel { alpha: 64 };
    let greedy = cubek_einsum::optimization::greedy_path(&notation, shapes, &model);
    let one_node = branch_bound_path_with_limits(&notation, shapes, &model, 1, 8);
    assert_eq!(one_node.to_pairs(), greedy.to_pairs());
    let no_depth = branch_bound_path_with_limits(&notation, shapes, &model, 100, 0);
    assert_eq!(no_depth.to_pairs(), greedy.to_pairs());
    let searched = branch_bound_path_with_limits(&notation, shapes, &model, 100, 8);
    assert_eq!(searched.to_pairs(), vec![(1, 2), (0, 1)]);
    assert_eq!(greedy.to_pairs(), vec![(0, 1), (0, 1)]);
}

#[test]
fn a_call_is_checked_before_it_runs() {
    let notation = parse_einsum("ij,jk->ik").unwrap();
    let shapes: &[&[usize]] = &[&[3, 4], &[4, 5]];
    let plan = create_plan(&notation, shapes, ContractionStrategy::Auto);
    assert_eq!(check_call(&plan, shapes, &[3, 5]).unwrap(), Admission::Run);
    assert!(matches!(check_call(&plan, shapes, &[5, 3]), Err(EinsumError::ShapeError { .. })));
    assert!(matches!(check_call(&plan, shapes, &[3, 5, 1]), Err(EinsumError::ShapeError { .. })));
    let empty: &[&[usize]] = &[&[3, 0], &[0, 5]];
    let plan = create_plan(&notation, empty, ContractionStrategy::Auto);
    assert_eq!(check_call(&plan, empty, &[3, 5]).unwrap(), Admission::Nothing);
    let chain = parse_einsum("ij,jk,kl->il").unwrap();
    let with_empty: &[&[usize]] = &[&[2, 3], &[3, 0], &[0, 5]];
    let plan = create_plan(&chain, with_empty, ContractionStrategy::Greedy);
    assert_eq!(check_call(&plan, with_empty, &[2, 5]).unwrap(), Admission::Nothing);
    let dot = parse_einsum("i,i->").unwrap();
    let vectors: &[&[usize]] = &[&[4], &[4]];
    let plan = create_plan(&dot, vectors, ContractionStrategy::Auto);
    assert_eq!(check_call(&plan, vectors, &[]).unwrap(), Admission::Run);
    assert_eq!(check_call(&plan, vectors, &[1]).unwrap(), Admission::Run);
    assert!(matches!(check_call(&plan, vectors, &[2]), Err(EinsumError::ShapeError { .. })));
    let sum = parse_einsum("ij->i").unwrap();
    let square: &[&[usize]] = &[&[4, 4]];
    let plan = create_plan(&sum, square, ContractionStrategy::Auto);
    assert_eq!(check_call(&plan, square, &[4]).unwrap(), Admission::Run);
    assert_eq!(check_call(&plan, square, &[4, 1]).unwrap(), Admission::Run);
    assert!(matches!(check_call(&plan, square, &[7]), Err(EinsumError::ShapeError { .. })));
    assert!(matches!(check_call(&plan, square, &[1, 4]), Err(EinsumError::ShapeError { .. })));
    assert!(matches!(plan_reduce(&[4, 4], &[7], &[1]), Err(EinsumError::ShapeError { .. })));
}

#[test]
fn the_output_takes_the_buffer_where_nothing_is_computed() {
    let input = TensorLayout::new(vec![2, 3, 4], vec![12, 4, 1]);
    let rebind = plan_transpose_output(&[input.clone()], &[2, 0, 1]).unwrap();
    assert_eq!(rebind.source, 0);
    assert_eq!(rebind.layout, TensorLayout::new(vec![4, 2, 3], vec![1, 12, 4]));
    assert!(matches!(plan_transpose_output(&[], &[0]), Err(EinsumError::Unsupported { .. })));
    assert!(matches!(plan_transpose_output(&[input.clone()], &[3, 0, 1]), Err(EinsumError::ShapeError { .. })));
    let notation = parse_einsum("abc->abc").unwrap();
    let shapes: &[&[usize]] = &[&[2, 3, 4]];
    let plan = create_plan(&notation, shapes, ContractionStrategy::Auto);
    assert_eq!(plan.num_steps(), 0);
    assert!(!plan.uses_fast_path());
    let rebind = identity_output(plan.input_indices(), &[input.clone()], plan.output_indices()).unwrap();
    assert_eq!((rebind.source, rebind.layout), (0, input.clone()));
    assert!(matches!(
        identity_output(plan.input_indices(), &[input.clone()], &['a', 'c', 'b']),
        Err(EinsumError::Unsupported { .. })
    ));
    assert!(matches!(
        identity_output(plan.input_indices(), &[input.clone(), input], plan.output_indices()),
        Err(EinsumError::Unsupported { .. })
    ));
}

#[test]
fn the_number_of_shapes_is_reported_in_digits() {
    let notation = parse_einsum("ij,jk->ik").unwrap();
    match validate_shapes(&notation, &[&[3, 4]]) {
        Err(EinsumError::ParseError { message }) => assert_eq!(message, "expected 2 input shapes, got 1"),
        other => panic!("got {:?}", other.map(|v| v.output_shape)),
    }
    let one = parse_einsum("i->i").unwrap();
    let many: Vec<&[usize]> = vec![&[1]; 120];
    match validate_shapes(&one, &many) {
        Err(EinsumError::ParseError { message }) => assert_eq!(message, "expected 1 input shapes, got 120"),
        other => panic!("got {:?}", other.map(|v| v.output_shape)),
    }
    match validate_shapes(&one, &[]) {
        Err(EinsumError::ParseError { message }) => assert_eq!(message, "expected 1 input shapes, got 0"),
        other => panic!("got {:?}", other.map(|v| v.output_shape)),
    }
}

#[test]
fn operands_without_elements_launch_nothing() {
    let none = TensorLayout::new(vec![3, 0], vec![0, 1]);
    let some = TensorLayout::new(vec![0, 5], vec![5, 1]);
    let full = TensorLayout::new(vec![3, 5], vec![5, 1]);
    assert_eq!(plan_matmul(&[none.clone(), some.clone()], false, false).unwrap(), None);
    assert_eq!(plan_matmul(&[full.clone(), some.clone()], false, true).unwrap(), None);
    assert!(plan_matmul(&[full.clone(), full.clone()], false, true).unwrap().is_some());
    assert!(plan_reduce(&[3, 0], &[3], &[1]).unwrap().is_empty());
    assert!(plan_reduce(&[0, 4], &[9, 9], &[]).unwrap().is_empty());
    assert_eq!(plan_reduce(&[3, 4], &[3], &[1]).unwrap().len(), 1);
    assert_eq!(
        plan_general_contraction(&none, &some, &full, &['i', 'j'], &['j', 'k'], &['j']).unwrap(),
        ContractionPlan::Nothing
    );
    let mut tensors = initial_tracking(&[vec!['i', 'j'], vec!['j', 'k']], &[none, some]);
    let step = ExecutionStep::Contraction { inputs: (0, 1), contracted: vec!['j'], result: vec!['i', 'k'], flops: 0 };
    match next_action(&mut tensors, &step, true, &full, &['i', 'k']).unwrap() {
        StepAction::Contract { plan, into_output, .. } => {
            assert!(into_output);
            assert_eq!(plan, ContractionPlan::Nothing);
        }
        other => panic!("got {:?}", other),
    }
}
