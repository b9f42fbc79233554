use cubek_einsum::notation::{parse_einsum};
use cubek_einsum::optimization::dynamic::{proper_subsets, subsets_of_size};
use cubek_einsum::optimization::{optimal_path, CostModel};

#[test]
fn test_optimal_matmul() {
    let notation = parse_einsum("ij,jk->ik").unwrap();
    let shapes: &[&[usize]] = &[&[100, 200], &[200, 300]];
    let cost_model = CostModel::default();

    let path = optimal_path(&notation, shapes, &cost_model);

    assert_eq!(path.len(), 1);
}

#[test]
fn test_optimal_chain() {
    let notation = parse_einsum("ij,jk,kl->il").unwrap();
    let shapes: &[&[usize]] = &[&[10, 20], &[20, 30], &[30, 40]];
    let cost_model = CostModel::default();

    let path = optimal_path(&notation, shapes, &cost_model);

    assert_eq!(path.len(), 2);
}

#[test]
fn test_optimal_skewed_chain() {
    // Skewed sizes should reveal optimal order matters
    // 2x10, 10x1000, 1000x3
    let notation = parse_einsum("ij,jk,kl->il").unwrap();
    let shapes: &[&[usize]] = &[&[2, 10], &[10, 1000], &[1000, 3]];
    let cost_model = CostModel { alpha: 0 }; // Pure FLOP cost

    let path = optimal_path(&notation, shapes, &cost_model);

    // Optimal should contract (0,1) first, then result with 2
    // or (1,2) first if that's cheaper
    assert_eq!(path.len(), 2);
}

#[test]
fn test_subsets_of_size() {
    let subs = subsets_of_size(4, 2);
    assert_eq!(subs.len(), 6); // C(4,2) = 6
}

#[test]
fn test_proper_subsets() {
    let set = 0b111u32; // {0, 1, 2}
    let subs: Vec<_> = proper_subsets(set);
    // Should have 7 proper non-empty subsets
    assert_eq!(subs.len(), 7);
}
