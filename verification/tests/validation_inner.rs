use cubek_einsum::notation::{parse_einsum};
use cubek_einsum::notation::validation::validate_shapes;

#[test]
fn test_validate_matmul() {
    let notation = parse_einsum("ij,jk->ik").unwrap();
    let result = validate_shapes(&notation, &[&[3, 4], &[4, 5]]).unwrap();

    assert_eq!(result.output_shape, vec![3, 5]);
    assert_eq!(result.contracted_shape, vec![4]);
}

#[test]
fn test_validate_batched_matmul() {
    let notation = parse_einsum("bij,bjk->bik").unwrap();
    let result = validate_shapes(&notation, &[&[2, 3, 4], &[2, 4, 5]]).unwrap();

    assert_eq!(result.output_shape, vec![2, 3, 5]);
    assert_eq!(result.contracted_shape, vec![4]);
}

#[test]
fn test_validate_shape_mismatch() {
    let notation = parse_einsum("ij,jk->ik").unwrap();
    let result = validate_shapes(&notation, &[&[3, 4], &[5, 6]]);  // j: 4 vs 5

    assert!(result.is_err());
}

#[test]
fn test_validate_dimension_mismatch() {
    let notation = parse_einsum("ij,jk->ik").unwrap();
    let result = validate_shapes(&notation, &[&[3, 4, 5], &[4, 5]]);  // wrong dims

    assert!(result.is_err());
}

#[test]
fn test_flops_matmul() {
    let notation = parse_einsum("ij,jk->ik").unwrap();
    let result = validate_shapes(&notation, &[&[100, 200], &[200, 300]]).unwrap();

    // FLOPs = M * N * K * 2 = 100 * 300 * 200 * 2 = 12,000,000
    assert_eq!(result.compute_flops(), 12_000_000);
}

#[test]
fn test_validate_ellipsis() {
    let notation = parse_einsum("...ij,...jk->...ik").unwrap();
    let result = validate_shapes(&notation, &[&[2, 3, 4, 5], &[2, 3, 5, 6]]).unwrap();

    assert_eq!(result.ellipsis_dims, 2);
    assert_eq!(result.output_shape, vec![2, 3, 4, 6]);
}
