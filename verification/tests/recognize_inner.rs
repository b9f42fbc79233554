use cubek_einsum::notation::{parse_einsum};
use cubek_einsum::pattern::{recognize_pattern, FastPath};

#[test]
fn mod_test_recognize_matmul() {
    let notation = parse_einsum("ij,jk->ik").unwrap();
    let pattern = recognize_pattern(&notation);

    assert!(matches!(pattern, Some(FastPath::Matmul { .. })));
}

#[test]
fn mod_test_recognize_batched_matmul() {
    let notation = parse_einsum("bij,bjk->bik").unwrap();
    let pattern = recognize_pattern(&notation);

    assert!(matches!(pattern, Some(FastPath::BatchedMatmul { .. })));
}

#[test]
fn mod_test_recognize_transpose() {
    let notation = parse_einsum("ij->ji").unwrap();
    let pattern = recognize_pattern(&notation);

    assert!(matches!(pattern, Some(FastPath::Transpose { .. })));
}

#[test]
fn mod_test_recognize_hadamard() {
    let notation = parse_einsum("ij,ij->ij").unwrap();
    let pattern = recognize_pattern(&notation);

    assert!(matches!(pattern, Some(FastPath::Hadamard)));
}

#[test]
fn mod_test_recognize_outer_product() {
    let notation = parse_einsum("i,j->ij").unwrap();
    let pattern = recognize_pattern(&notation);

    assert!(matches!(pattern, Some(FastPath::OuterProduct)));
}

#[test]
fn mod_test_recognize_dot_product() {
    let notation = parse_einsum("i,i->").unwrap();
    let pattern = recognize_pattern(&notation);

    assert!(matches!(pattern, Some(FastPath::DotProduct)));
}

#[test]
fn mod_test_recognize_trace() {
    let notation = parse_einsum("ii->").unwrap();
    let pattern = recognize_pattern(&notation);

    assert!(matches!(pattern, Some(FastPath::Trace)));
}

#[test]
fn mod_test_recognize_reduction() {
    let notation = parse_einsum("ij->i").unwrap();
    let pattern = recognize_pattern(&notation);

    assert!(matches!(pattern, Some(FastPath::Reduce { .. })));
}

#[test]
fn test_no_pattern_for_complex() {
    let notation = parse_einsum("ijk,jkl,klm->im").unwrap();
    let pattern = recognize_pattern(&notation);

    assert!(pattern.is_none());
}
