use cubek_einsum::kernels::diagonal::plan_trace;
use cubek_einsum::kernels::dot_product::{plan_dot_product, DotPasses};
use cubek_einsum::kernels::elementwise::{plan_copy_reshape, plan_hadamard, plan_outer_product};
use cubek_einsum::launch::executor::{plan_reduce, ReduceTarget};
use cubek_einsum::notation::validation::validate_shapes;
use cubek_einsum::notation::{parse_einsum, validate_notation};
use cubek_einsum::optimization::branch_bound::compute_path_cost;
use cubek_einsum::optimization::{
    branch_bound_path, create_plan, greedy_path, optimal_path, ContractionPath, ContractionStrategy, CostModel,
    ExecutionStep,
};
use cubek_einsum::pattern::{recognize_pattern, FastPath};
use cubek_einsum::EinsumError;

fn path_total(path: &ContractionPath, shapes: &[&[usize]], indices: &[&str], alpha: u64) -> u64 {
    let shapes: Vec<Vec<usize>> = shapes.iter().map(|s| s.to_vec()).collect();
    let indices: Vec<Vec<char>> = indices.iter().map(|s| s.chars().collect()).collect();
    compute_path_cost(path, &shapes, &indices, &CostModel { alpha }).total
}

#[test]
fn display_strips_white_space() {
    let notation = parse_einsum("  i j ,\tjk ->  i k \n").unwrap();
    assert_eq!(notation.to_string(), "ij,jk->ik");
    let dotted = parse_einsum(" ... ij , ...jk -> ...ik").unwrap();
    assert_eq!(dotted.to_string(), "...ij,...jk->...ik");
}

#[test]
fn display_adds_the_implied_output() {
    assert_eq!(parse_einsum("ij,jk").unwrap().to_string(), "ij,jk->ik");
    assert_eq!(parse_einsum("ii").unwrap().to_string(), "ii->");
    assert_eq!(parse_einsum("ba").unwrap().to_string(), "ba->ab");
    assert_eq!(parse_einsum("...ij,...jk").unwrap().to_string(), "...ij,...jk->...ik");
}

#[test]
fn implied_output_parses_like_the_written_one() {
    for text in ["ij,jk", "ii", "ba", "...ij,...jk", " a b , c ", "Ba,aC"] {
        let implied = parse_einsum(text).unwrap();
        let written = parse_einsum(&implied.to_string()).unwrap();
        assert_eq!(implied.to_string(), written.to_string());
        assert_eq!(implied.num_inputs(), written.num_inputs());
        assert_eq!(implied.output_indices(), written.output_indices());
    }
}

#[test]
fn validation_gives_the_same_result_twice() {
    let notation = parse_einsum("bij,bjk->bik").unwrap();
    let shapes: &[&[usize]] = &[&[2, 3, 4], &[2, 4, 5]];
    let first = validate_shapes(&notation, shapes).unwrap();
    let second = validate_shapes(&notation, shapes).unwrap();
    assert_eq!(first.ellipsis_dims, second.ellipsis_dims);
    assert_eq!(first.output_shape, second.output_shape);
    assert_eq!(first.contracted_shape, second.contracted_shape);
    for c in ['b', 'i', 'j', 'k', 'x'] {
        assert_eq!(first.dim_of(c), second.dim_of(c));
    }
    assert_eq!(first.dim_of('j'), Some(4));
    assert_eq!(first.dim_of('x'), None);
}

#[test]
fn the_first_index_that_occurs_too_often_is_reported() {
    let notation = parse_einsum("zz,zz,aa,aa->").unwrap();
    for _ in 0..8 {
        match validate_notation(&notation) {
            Err(EinsumError::IndexAppearsMoreThanTwice { index, count }) => {
                assert_eq!(index, 'z');
                assert_eq!(count, 4);
            }
            other => panic!("expected an index that occurs too often, got {:?}", other),
        }
    }
}

#[test]
fn a_plan_has_one_step_exactly_if_it_is_a_fast_path() {
    let cases: &[(&str, &[&[usize]])] = &[
        ("ij->ji", &[&[2, 3]]),
        ("ij,jk,kl->il", &[&[2, 3], &[3, 4], &[4, 5]]),
        ("ij,jk,kl,lm->im", &[&[2, 3], &[3, 4], &[4, 5], &[5, 6]]),
        ("i->i", &[&[4]]),
    ];
    for (text, shapes) in cases {
        let notation = parse_einsum(text).unwrap();
        let plan = create_plan(&notation, shapes, ContractionStrategy::Auto);
        assert_eq!(plan.num_steps() == 1, plan.uses_fast_path(), "{}", text);
    }
}

#[test]
fn two_operands_without_fast_path_take_one_step() {
    let notation = parse_einsum("ij,jk->ijk").unwrap();
    let shapes: &[&[usize]] = &[&[2, 3], &[3, 4]];
    let plan = create_plan(&notation, shapes, ContractionStrategy::Greedy);
    assert!(!plan.uses_fast_path());
    assert_eq!(plan.num_steps(), 1);
}

#[test]
fn no_strategy_costs_more_than_the_greedy_one() {
    let cases: &[(&str, &[&str], &[&[usize]])] = &[
        ("ij,jk,kl->il", &["ij", "jk", "kl"], &[&[2, 10], &[10, 1000], &[1000, 3]]),
        ("ij,jk,kl->il", &["ij", "jk", "kl"], &[&[1, 1], &[1, 2], &[2, 1]]),
        ("ij,jk,kl,lm->im", &["ij", "jk", "kl", "lm"], &[&[10, 20], &[20, 30], &[30, 40], &[40, 50]]),
        ("ab,bc,ca->", &["ab", "bc", "ca"], &[&[3, 4], &[4, 5], &[5, 3]]),
    ];
    for alpha in [0u64, 8, 64] {
        for (text, indices, shapes) in cases {
            let notation = parse_einsum(text).unwrap();
            let model = CostModel { alpha };
            let greedy = path_total(&greedy_path(&notation, shapes, &model), shapes, indices, alpha);
            let optimal = path_total(&optimal_path(&notation, shapes, &model), shapes, indices, alpha);
            let bounded = path_total(&branch_bound_path(&notation, shapes, &model), shapes, indices, alpha);
            assert!(optimal <= greedy, "{} alpha {}", text, alpha);
            assert!(bounded <= greedy, "{} alpha {}", text, alpha);
        }
    }
}

#[test]
fn the_search_beats_the_greedy_strategy_where_the_cheapest_pair_misleads() {
    let notation = parse_einsum("ij,jk,kl->il").unwrap();
    let shapes: &[&[usize]] = &[&[1, 1], &[1, 2], &[2, 1]];
    let indices = ["ij", "jk", "kl"];
    let model = CostModel { alpha: 64 };
    let greedy = greedy_path(&notation, shapes, &model);
    let optimal = optimal_path(&notation, shapes, &model);
    let bounded = branch_bound_path(&notation, shapes, &model);
    assert_eq!(greedy.steps()[0].inputs, (0, 1));
    assert_eq!(path_total(&greedy, shapes, &indices, 64), 648);
    assert_eq!(optimal.steps()[0].inputs, (1, 2));
    assert_eq!(path_total(&optimal, shapes, &indices, 64), 518);
    assert_eq!(path_total(&bounded, shapes, &indices, 64), 518);
    let pure = CostModel { alpha: 0 };
    let greedy = greedy_path(&notation, shapes, &pure);
    let bounded = branch_bound_path(&notation, shapes, &pure);
    let optimal = optimal_path(&notation, shapes, &pure);
    assert_eq!(greedy.total_flops(), 8);
    assert_eq!(bounded.total_flops(), 6);
    assert_eq!(optimal.total_flops(), 6);
}

#[test]
fn the_plan_has_the_shape_that_validation_derives() {
    let cases: &[(&str, &[&[usize]])] = &[
        ("ij,jk->ik", &[&[3, 4], &[4, 5]]),
        ("bhqd,bhkd->bhqk", &[&[2, 3, 4, 5], &[2, 3, 4, 5]]),
        ("ij,jk,kl->il", &[&[2, 10], &[10, 7], &[7, 3]]),
        ("ii->i", &[&[6, 6]]),
        ("ij->", &[&[6, 7]]),
        ("...ij,...jk->...ik", &[&[7, 8, 2, 3], &[7, 8, 3, 4]]),
        ("i...j->j...", &[&[2, 5, 6, 3]]),
        ("...i,i->...", &[&[4, 5], &[5]]),
    ];
    for (text, shapes) in cases {
        let notation = parse_einsum(text).unwrap();
        let validated = validate_shapes(&notation, shapes).unwrap();
        let plan = create_plan(&notation, shapes, ContractionStrategy::Auto);
        assert_eq!(plan.output_shape(), validated.output_shape.as_slice(), "{}", text);
    }
}

#[test]
fn a_scalar_output_may_have_no_axis_or_one() {
    assert!(parse_einsum("ii->").unwrap().is_scalar_output());
    assert!(parse_einsum("i,i->").unwrap().is_scalar_output());
    for output in [&[][..], &[1][..], &[1, 1][..]] {
        assert_eq!(plan_dot_product(&[5], &[5], output).unwrap(), Some(DotPasses::Fused { elements: 5 }));
        let trace = plan_trace(&[4, 4], &[4, 1], output).unwrap().unwrap();
        assert_eq!(trace.diagonal_shape, vec![4]);
        assert_eq!(trace.reduce_axis, 0);
        assert_eq!(trace.diagonal.diag_stride, 5);
    }
    assert!(matches!(plan_dot_product(&[5], &[5], &[2]), Err(EinsumError::LaunchError { .. })));
}

#[test]
fn empty_tensors_launch_nothing() {
    assert_eq!(plan_hadamard(&[0, 3], &[0, 3], &[0, 3]).unwrap(), None);
    assert_eq!(plan_copy_reshape(&[3, 0], &[0]).unwrap(), None);
    assert_eq!(plan_outer_product(&[0], &[4], &[0, 4]).unwrap(), None);
    assert_eq!(plan_dot_product(&[0], &[0], &[]).unwrap(), None);
    assert!(plan_trace(&[0, 0], &[0, 1], &[]).unwrap().is_none());
}

#[test]
fn the_identity_has_no_fast_path() {
    for text in ["i->i", "ij->ij", "abc->abc"] {
        let notation = parse_einsum(text).unwrap();
        assert!(recognize_pattern(&notation).is_none(), "{}", text);
    }
}

#[test]
fn matmul_scenario() {
    let notation = parse_einsum("ij,jk->ik").unwrap();
    let shapes: &[&[usize]] = &[&[100, 200], &[200, 300]];
    let plan = create_plan(&notation, shapes, ContractionStrategy::Auto);
    assert!(plan.uses_fast_path());
    assert_eq!(plan.output_shape(), &[100, 300]);
    assert_eq!(plan.total_flops(), 2 * 100 * 200 * 300);
    match &plan.steps()[0] {
        ExecutionStep::FastPath(FastPath::Matmul { transpose_a, transpose_b }) => {
            assert!(!transpose_a);
            assert!(!transpose_b);
        }
        other => panic!("expected a matrix multiplication, got {:?}", other),
    }
}

#[test]
fn attention_scores_scenario() {
    let notation = parse_einsum("bhqd,bhkd->bhqk").unwrap();
    let shapes: &[&[usize]] = &[&[2, 3, 4, 5], &[2, 3, 4, 5]];
    let plan = create_plan(&notation, shapes, ContractionStrategy::Auto);
    assert_eq!(plan.output_shape(), &[2, 3, 4, 4]);
    match &plan.steps()[0] {
        ExecutionStep::FastPath(FastPath::BatchedMatmul { batch_dims, transpose_a, transpose_b }) => {
            assert_eq!(batch_dims, &vec![0, 1]);
            assert!(!transpose_a);
            assert!(transpose_b);
        }
        other => panic!("expected a batched matrix multiplication, got {:?}", other),
    }
    assert_eq!(plan.total_flops(), 2 * (2 * 3) * 4 * 5 * 5);
}

#[test]
fn chain_scenario() {
    let notation = parse_einsum("ij,jk,kl->il").unwrap();
    let shapes: &[&[usize]] = &[&[2, 10], &[10, 1000], &[1000, 3]];
    let model = CostModel { alpha: 0 };
    let path = optimal_path(&notation, shapes, &model);
    assert_eq!(path.to_pairs(), vec![(0, 1), (0, 1)]);
    assert_eq!(path.steps()[0].contracted_indices, vec!['j']);
    assert_eq!(path.steps()[0].result_indices, vec!['i', 'k']);
    assert_eq!(path.steps()[1].contracted_indices, vec!['k']);
    assert_eq!(path.steps()[1].result_indices, vec!['l', 'i']);
    assert_eq!(path.total_flops(), 2 * 26_000);
    assert_eq!(path_total(&path, shapes, &["ij", "jk", "kl"], 0), 2 * 26_000);
    let plan = create_plan(&notation, shapes, ContractionStrategy::Optimal);
    assert_eq!(plan.output_shape(), &[2, 3]);
    assert_eq!(plan.num_steps(), 2);
}

#[test]
fn trace_scenario() {
    let notation = parse_einsum("ii->").unwrap();
    assert_eq!(recognize_pattern(&notation), Some(FastPath::Trace));
    let plan = plan_trace(&[32, 32], &[32, 1], &[]).unwrap().unwrap();
    assert_eq!(plan.diagonal_shape, vec![32]);
    assert_eq!(plan.diagonal.n, 32);
    assert_eq!(plan.diagonal.diag_stride, 33);
    assert_eq!(plan.diagonal.matrix_size, 1024);
    assert_eq!(plan.diagonal.grid.elements, 32);
    assert_eq!(plan.diagonal.grid.cubes, 1);
}

#[test]
fn outer_product_scenario() {
    let notation = parse_einsum("i,j->ij").unwrap();
    assert_eq!(recognize_pattern(&notation), Some(FastPath::OuterProduct));
    let grid = plan_outer_product(&[3], &[2], &[3, 2]).unwrap().unwrap();
    assert_eq!((grid.lhs_size, grid.rhs_size, grid.cubes_x, grid.cubes_y), (3, 2, 1, 1));
    assert!(matches!(plan_outer_product(&[3], &[2], &[5]), Err(EinsumError::LaunchError { .. })));
}

#[test]
fn reduction_scenario_rebinds_the_output() {
    let notation = parse_einsum("ij->i").unwrap();
    match recognize_pattern(&notation) {
        Some(FastPath::Reduce { axes, .. }) => assert_eq!(axes, vec![1]),
        other => panic!("expected a reduction, got {:?}", other),
    }
    let stages = plan_reduce(&[2048, 2048], &[2048], &[1]).unwrap();
    assert_eq!(stages.len(), 1);
    assert_eq!(stages[0].axis, 1);
    assert_eq!(stages[0].keep_dim_shape, vec![2048, 1]);
    assert_eq!(stages[0].target, ReduceTarget::Rebind { output_strides: vec![1] });
    let direct = plan_reduce(&[2048, 2048], &[2048, 1], &[1]).unwrap();
    assert_eq!(direct[0].target, ReduceTarget::Output);
}

#[test]
fn shape_mismatch_scenario() {
    let notation = parse_einsum("ij,jk->ik").unwrap();
    match validate_shapes(&notation, &[&[3, 4], &[5, 6]]) {
        Err(EinsumError::ShapeMismatch { index, expected, got }) => {
            assert_eq!((index, expected, got), ('j', 4, 5));
        }
        other => panic!("expected a shape mismatch, got {:?}", other.map(|v| v.output_shape)),
    }
}

#[test]
fn unknown_output_index_scenario() {
    let notation = parse_einsum("ij->ijk").unwrap();
    match validate_notation(&notation) {
        Err(EinsumError::OutputIndexNotInInputs { index }) => assert_eq!(index, 'k'),
        other => panic!("expected an unknown output index, got {:?}", other),
    }
}

#[test]
fn two_dots_scenario() {
    match parse_einsum("..ij,jk->ik") {
        Err(EinsumError::ParseError { message }) => assert_eq!(message, "incomplete ellipsis, expected '...'"),
        other => panic!("expected a parse error, got {:?}", other.map(|n| n.to_string())),
    }
}

#[test]
fn one_ellipsis_scenario() {
    let notation = parse_einsum("...ij,jk->ik").unwrap();
    match validate_notation(&notation) {
        Err(EinsumError::InconsistentEllipsis { message }) => {
            assert_eq!(message, "if any input has ellipsis, all inputs should have ellipsis");
        }
        other => panic!("expected an inconsistent ellipsis, got {:?}", other),
    }
    let notation = parse_einsum("...ij,...jk->ik").unwrap();
    match validate_notation(&notation) {
        Err(EinsumError::InconsistentEllipsis { message }) => {
            assert_eq!(message, "output must have ellipsis when inputs do");
        }
        other => panic!("expected an inconsistent ellipsis, got {:?}", other),
    }
}
