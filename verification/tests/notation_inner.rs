use cubek_einsum::notation::{EinsumNotation, Subscript};

#[test]
fn test_matmul_notation() {
    let a = Subscript::from_chars(&['i', 'j']);
    let b = Subscript::from_chars(&['j', 'k']);
    let c = Subscript::from_chars(&['i', 'k']);

    let notation = EinsumNotation::new(vec![a, b], c);

    assert_eq!(notation.num_inputs(), 2);
    assert!(notation.is_binary());
    assert!(!notation.is_permutation_only());
    assert!(notation.contraction_indices().contains(&'j'));
    assert!(!notation.contraction_indices().contains(&'i'));
    assert!(!notation.contraction_indices().contains(&'k'));
}

#[test]
fn test_trace_notation() {
    let a = Subscript::from_chars(&['i', 'i']);
    let out = Subscript::new();

    let notation = EinsumNotation::new(vec![a], out);

    assert!(notation.is_unary());
    assert!(notation.is_scalar_output());
    assert!(notation.contraction_indices().contains(&'i'));
}

#[test]
fn test_transpose_notation() {
    let a = Subscript::from_chars(&['i', 'j']);
    let out = Subscript::from_chars(&['j', 'i']);

    let notation = EinsumNotation::new(vec![a], out);

    assert!(notation.is_unary());
    assert!(notation.is_permutation_only());
    assert!(notation.contraction_indices().is_empty());
}

#[test]
fn test_display() {
    let a = Subscript::from_chars(&['i', 'j']);
    let b = Subscript::from_chars(&['j', 'k']);
    let c = Subscript::from_chars(&['i', 'k']);

    let notation = EinsumNotation::new(vec![a, b], c);

    assert_eq!(notation.to_string(), "ij,jk->ik");
}
