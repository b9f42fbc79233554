use cubek_einsum::optimization::{ContractionCost, CostModel};

#[test]
fn test_matmul_cost() {
    let model = CostModel::default();

    // ij,jk->ik: A[100,200] @ B[200,300] -> C[100,300]
    let cost = model.compute_pairwise_cost(
        &[100, 200],
        &[200, 300],
        &['i', 'j'],
        &['j', 'k'],
        &['j'],
    );

    // FLOPs = 100 * 300 * 200 * 2 = 12,000,000
    assert_eq!(cost.flops, 12_000_000);
}

#[test]
fn test_cost_ordering() {
    let cheap = ContractionCost::new(100, 10, 64);
    let expensive = ContractionCost::new(1000, 100, 64);

    assert!(cheap < expensive);
}
