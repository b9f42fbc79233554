use cubek_einsum::notation::{parse_einsum};
use cubek_einsum::optimization::{greedy_path, CostModel};

#[test]
fn test_greedy_matmul() {
    let notation = parse_einsum("ij,jk->ik").unwrap();
    let shapes: &[&[usize]] = &[&[100, 200], &[200, 300]];
    let cost_model = CostModel::default();

    let path = greedy_path(&notation, shapes, &cost_model);

    assert_eq!(path.len(), 1);
    assert_eq!(path.steps()[0].inputs, (0, 1));
    assert_eq!(path.steps()[0].contracted_indices, vec!['j']);
}

#[test]
fn test_greedy_chain() {
    // A @ B @ C: should contract in some order
    let notation = parse_einsum("ij,jk,kl->il").unwrap();
    let shapes: &[&[usize]] = &[&[10, 20], &[20, 30], &[30, 40]];
    let cost_model = CostModel::default();

    let path = greedy_path(&notation, shapes, &cost_model);

    assert_eq!(path.len(), 2); // Two contractions needed
}

#[test]
fn test_greedy_optimal_chain() {
    // Test that greedy finds good order for chain: 2x10, 10x1000, 1000x3
    // Optimal: (A @ B) @ C = 2*10*1000 + 2*1000*3 = 26,000
    // vs A @ (B @ C) = 10*1000*3 + 2*10*3 = 30,060
    let notation = parse_einsum("ij,jk,kl->il").unwrap();
    let shapes: &[&[usize]] = &[&[2, 10], &[10, 1000], &[1000, 3]];
    let cost_model = CostModel::default();

    let path = greedy_path(&notation, shapes, &cost_model);

    // Path should exist
    assert_eq!(path.len(), 2);
}

#[test]
fn test_greedy_batch_matmul() {
    let notation = parse_einsum("bij,bjk->bik").unwrap();
    let shapes: &[&[usize]] = &[&[8, 64, 128], &[8, 128, 256]];
    let cost_model = CostModel::default();

    let path = greedy_path(&notation, shapes, &cost_model);

    assert_eq!(path.len(), 1);
}
