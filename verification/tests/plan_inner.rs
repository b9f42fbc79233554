use cubek_einsum::notation::{parse_einsum};
use cubek_einsum::optimization::{create_plan, ContractionStrategy};

#[test]
fn test_create_plan_matmul() {
    let notation = parse_einsum("ij,jk->ik").unwrap();
    let shapes: &[&[usize]] = &[&[100, 200], &[200, 300]];

    let plan = create_plan(&notation, shapes, ContractionStrategy::Auto);

    assert!(plan.uses_fast_path());
    assert_eq!(plan.output_shape(), &[100, 300]);
}

#[test]
fn test_create_plan_chain() {
    let notation = parse_einsum("ij,jk,kl->il").unwrap();
    let shapes: &[&[usize]] = &[&[10, 20], &[20, 30], &[30, 40]];

    let plan = create_plan(&notation, shapes, ContractionStrategy::Auto);

    // Chain of 3 doesn't match fast path, should use contraction
    assert!(!plan.uses_fast_path());
    assert_eq!(plan.num_steps(), 2);
}
