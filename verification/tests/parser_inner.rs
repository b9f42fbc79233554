use cubek_einsum::notation::{parse_einsum};

#[test]
fn test_parse_matmul() {
    let notation = parse_einsum("ij,jk->ik").unwrap();
    assert_eq!(notation.num_inputs(), 2);
    assert_eq!(notation.inputs()[0].to_string(), "ij");
    assert_eq!(notation.inputs()[1].to_string(), "jk");
    assert_eq!(notation.output().to_string(), "ik");
}

#[test]
fn parser_test_parse_batched_matmul() {
    let notation = parse_einsum("bij,bjk->bik").unwrap();
    assert_eq!(notation.num_inputs(), 2);
    assert!(notation.batch_indices().contains(&'b'));
}

#[test]
fn parser_test_parse_ellipsis() {
    let notation = parse_einsum("...ij,...jk->...ik").unwrap();
    assert!(notation.has_ellipsis());
    assert!(notation.inputs()[0].has_ellipsis());
    assert!(notation.inputs()[1].has_ellipsis());
    assert!(notation.output().has_ellipsis());
}

#[test]
fn parser_test_parse_transpose() {
    let notation = parse_einsum("ij->ji").unwrap();
    assert_eq!(notation.num_inputs(), 1);
    assert!(notation.is_unary());
}

#[test]
fn parser_test_parse_trace() {
    let notation = parse_einsum("ii->").unwrap();
    assert!(notation.is_scalar_output());
    assert!(notation.contraction_indices().contains(&'i'));
}

#[test]
fn test_parse_hadamard() {
    let notation = parse_einsum("ij,ij->ij").unwrap();
    assert!(notation.is_permutation_only());
}

#[test]
fn test_parse_outer_product() {
    let notation = parse_einsum("i,j->ij").unwrap();
    assert!(!notation.contraction_indices().contains(&'i'));
    assert!(!notation.contraction_indices().contains(&'j'));
}

#[test]
fn test_parse_reduction() {
    let notation = parse_einsum("ij->i").unwrap();
    assert!(notation.contraction_indices().contains(&'j'));
}

#[test]
fn test_implicit_output() {
    // ij,jk should imply ->ik
    let notation = parse_einsum("ij,jk").unwrap();
    let output_str = notation.output().to_string();
    assert!(output_str.contains('i'));
    assert!(output_str.contains('k'));
    assert!(!output_str.contains('j'));  // j appears twice, so contracted
}

#[test]
fn test_implicit_trace() {
    // ii should imply -> (empty output)
    let notation = parse_einsum("ii").unwrap();
    assert!(notation.is_scalar_output());
}

#[test]
fn test_parse_dot_product() {
    let notation = parse_einsum("i,i->").unwrap();
    assert!(notation.is_scalar_output());
    assert!(notation.contraction_indices().contains(&'i'));
}

#[test]
fn test_parse_attention_scores() {
    let notation = parse_einsum("bhqd,bhkd->bhqk").unwrap();
    assert_eq!(notation.num_inputs(), 2);
    assert!(notation.batch_indices().contains(&'b'));
    assert!(notation.batch_indices().contains(&'h'));
    assert!(notation.contraction_indices().contains(&'d'));
}

#[test]
fn test_parse_whitespace() {
    let notation = parse_einsum(" ij , jk -> ik ").unwrap();
    assert_eq!(notation.num_inputs(), 2);
}

#[test]
fn test_parse_error_invalid_char() {
    let result = parse_einsum("i1j,jk->ik");
    assert!(result.is_err());
}

#[test]
fn test_parse_error_incomplete_ellipsis() {
    let result = parse_einsum("..ij,jk->ik");
    assert!(result.is_err());
}

#[test]
fn test_parse_error_empty() {
    let result = parse_einsum("");
    assert!(result.is_err());
}

#[test]
fn test_parse_three_inputs() {
    let notation = parse_einsum("ijk,jkl,klm->im").unwrap();
    assert_eq!(notation.num_inputs(), 3);
}

#[test]
fn test_parse_uppercase() {
    let notation = parse_einsum("IJ,JK->IK").unwrap();
    assert!(notation.contraction_indices().contains(&'J'));
}
