use cubek_einsum::notation::{parse_einsum};
use cubek_einsum::optimization::branch_bound::branch_bound_path_with_limits;
use cubek_einsum::optimization::{branch_bound_path, greedy_path, CostModel};

#[test]
fn test_branch_bound_matmul() {
    let notation = parse_einsum("ij,jk->ik").unwrap();
    let shapes: &[&[usize]] = &[&[100, 200], &[200, 300]];
    let cost_model = CostModel::default();

    let path = branch_bound_path(&notation, shapes, &cost_model);

    assert_eq!(path.len(), 1);
    assert_eq!(path.steps()[0].inputs, (0, 1));
}

#[test]
fn test_branch_bound_chain() {
    let notation = parse_einsum("ij,jk,kl->il").unwrap();
    let shapes: &[&[usize]] = &[&[10, 20], &[20, 30], &[30, 40]];
    let cost_model = CostModel::default();

    let path = branch_bound_path(&notation, shapes, &cost_model);

    assert_eq!(path.len(), 2);
}

#[test]
fn test_branch_bound_vs_greedy() {
    // Skewed chain where order matters
    // 2x10, 10x1000, 1000x3
    let notation = parse_einsum("ij,jk,kl->il").unwrap();
    let shapes: &[&[usize]] = &[&[2, 10], &[10, 1000], &[1000, 3]];
    let cost_model = CostModel { alpha: 0 };

    let bb_path = branch_bound_path(&notation, shapes, &cost_model);
    let greedy = greedy_path(&notation, shapes, &cost_model);

    // Both should find a valid path
    assert_eq!(bb_path.len(), 2);
    assert_eq!(greedy.len(), 2);

    // B&B should be at least as good as greedy
    // (may be equal if greedy found optimal)
}

#[test]
fn test_branch_bound_four_tensors() {
    let notation = parse_einsum("ij,jk,kl,lm->im").unwrap();
    let shapes: &[&[usize]] = &[&[10, 20], &[20, 30], &[30, 40], &[40, 50]];
    let cost_model = CostModel::default();

    let path = branch_bound_path(&notation, shapes, &cost_model);

    assert_eq!(path.len(), 3);
}

#[test]
fn test_branch_bound_batch_matmul() {
    let notation = parse_einsum("bij,bjk->bik").unwrap();
    let shapes: &[&[usize]] = &[&[8, 64, 128], &[8, 128, 256]];
    let cost_model = CostModel::default();

    let path = branch_bound_path(&notation, shapes, &cost_model);

    assert_eq!(path.len(), 1);
}

#[test]
fn test_branch_bound_with_limits() {
    let notation = parse_einsum("ij,jk,kl,lm,mn->in").unwrap();
    let shapes: &[&[usize]] = &[
        &[10, 20], &[20, 30], &[30, 40], &[40, 50], &[50, 60]
    ];
    let cost_model = CostModel::default();

    // With low limits, should still produce valid path
    let path = branch_bound_path_with_limits(
        &notation, shapes, &cost_model,
        100,  // max_nodes
        3,    // max_depth
    );

    assert_eq!(path.len(), 4);
}
