use cubek_einsum::launch::workspace::{can_reuse_shape, compute_contraction_output_shape};

#[test]
fn test_shape_compatibility() {
    assert!(can_reuse_shape(&[10, 20], &[10, 20]));
    assert!(can_reuse_shape(&[5, 40], &[10, 20])); // Same total elements
    assert!(!can_reuse_shape(&[10, 20], &[10]));   // Different rank
}

#[test]
fn test_output_shape_computation() {
    // Test: ij,jk->ik where i=10,j=20,k=30
    let lhs_shape = [10, 20];
    let rhs_shape = [20, 30];
    let lhs_indices = ['i', 'j'];
    let rhs_indices = ['j', 'k'];
    let result = ['i', 'k'];

    let output = compute_contraction_output_shape(
        &lhs_shape,
        &rhs_shape,
        &lhs_indices,
        &rhs_indices,
        &result
    ).unwrap();

    assert_eq!(output, vec![10, 30]);
}

#[test]
fn test_output_shape_computation_batched() {
    // Test: bij,bjk->bik where b=5,i=10,j=20,k=30
    let lhs_shape = [5, 10, 20];
    let rhs_shape = [5, 20, 30];
    let lhs_indices = ['b', 'i', 'j'];
    let rhs_indices = ['b', 'j', 'k'];
    let result = ['b', 'i', 'k'];

    let output = compute_contraction_output_shape(
        &lhs_shape,
        &rhs_shape,
        &lhs_indices,
        &rhs_indices,
        &result
    ).unwrap();

    assert_eq!(output, vec![5, 10, 30]);
}
