use cubek_einsum::notation::{parse_einsum};
use cubek_einsum::pattern::{is_dot_product, is_hadamard, is_outer_product};

#[test]
fn test_hadamard_2d() {
    let notation = parse_einsum("ij,ij->ij").unwrap();
    assert!(is_hadamard(&notation));
}

#[test]
fn test_hadamard_3d() {
    let notation = parse_einsum("ijk,ijk->ijk").unwrap();
    assert!(is_hadamard(&notation));
}

#[test]
fn test_not_hadamard_different_indices() {
    let notation = parse_einsum("ij,jk->ik").unwrap();
    assert!(!is_hadamard(&notation));
}

#[test]
fn test_outer_product_1d() {
    let notation = parse_einsum("i,j->ij").unwrap();
    assert!(is_outer_product(&notation));
}

#[test]
fn test_outer_product_2d() {
    let notation = parse_einsum("ij,kl->ijkl").unwrap();
    assert!(is_outer_product(&notation));
}

#[test]
fn test_not_outer_shared_index() {
    let notation = parse_einsum("ij,jk->ijk").unwrap();
    assert!(!is_outer_product(&notation));
}

#[test]
fn test_dot_product_1d() {
    let notation = parse_einsum("i,i->").unwrap();
    assert!(is_dot_product(&notation));
}

#[test]
fn test_frobenius_inner_product() {
    let notation = parse_einsum("ij,ij->").unwrap();
    assert!(is_dot_product(&notation));
}

#[test]
fn test_not_dot_product_with_output() {
    let notation = parse_einsum("i,i->i").unwrap();
    assert!(!is_dot_product(&notation));
}
