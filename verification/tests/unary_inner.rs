use cubek_einsum::notation::{parse_einsum};
use cubek_einsum::pattern::{is_diagonal_extract, is_reduction, is_trace, is_transpose};

#[test]
fn test_transpose_2d() {
    let notation = parse_einsum("ij->ji").unwrap();
    let perm = is_transpose(&notation).unwrap();

    assert_eq!(perm, vec![1, 0]);
}

#[test]
fn test_transpose_3d() {
    let notation = parse_einsum("ijk->kji").unwrap();
    let perm = is_transpose(&notation).unwrap();

    assert_eq!(perm, vec![2, 1, 0]);
}

#[test]
fn test_transpose_partial() {
    let notation = parse_einsum("ijkl->jilk").unwrap();
    let perm = is_transpose(&notation).unwrap();

    assert_eq!(perm, vec![1, 0, 3, 2]);
}

#[test]
fn test_not_transpose_identity() {
    let notation = parse_einsum("ij->ij").unwrap();
    assert!(is_transpose(&notation).is_none());
}

#[test]
fn test_reduction_single_axis() {
    let notation = parse_einsum("ij->i").unwrap();
    let (axes, _) = is_reduction(&notation).unwrap();

    assert_eq!(axes, vec![1]);
}

#[test]
fn test_reduction_multiple_axes() {
    let notation = parse_einsum("ijk->j").unwrap();
    let (axes, _) = is_reduction(&notation).unwrap();

    assert_eq!(axes, vec![0, 2]);
}

#[test]
fn test_reduction_all() {
    let notation = parse_einsum("ijk->").unwrap();
    let (axes, _) = is_reduction(&notation).unwrap();

    assert_eq!(axes, vec![0, 1, 2]);
}

#[test]
fn test_trace() {
    let notation = parse_einsum("ii->").unwrap();
    assert!(is_trace(&notation));
}

#[test]
fn test_not_trace_with_output() {
    // iji->j is NOT a trace because output is not scalar
    // It's a reduction over repeated indices, but trace specifically means scalar output
    let notation = parse_einsum("iji->j").unwrap();
    assert!(!is_trace(&notation));
}

#[test]
fn test_trace_3d() {
    // ijj-> is a trace (contracts j, produces scalar)
    let notation = parse_einsum("ijj->").unwrap();
    assert!(is_trace(&notation));
}

#[test]
fn test_diagonal_extract() {
    let notation = parse_einsum("ii->i").unwrap();
    let config = is_diagonal_extract(&notation).unwrap();

    assert_eq!(config.diagonal_index, 'i');
}

#[test]
fn test_diagonal_extract_batched() {
    let notation = parse_einsum("bii->bi").unwrap();
    let config = is_diagonal_extract(&notation).unwrap();

    assert_eq!(config.diagonal_index, 'i');
}
