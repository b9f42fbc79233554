use cubek_einsum::notation::{parse_einsum};
use cubek_einsum::pattern::{is_batched_matmul, is_matmul};

#[test]
fn test_standard_matmul() {
    let notation = parse_einsum("ij,jk->ik").unwrap();
    let config = is_matmul(&notation).unwrap();

    assert!(!config.transpose_a);
    assert!(!config.transpose_b);
    assert!(config.batch_dims.is_empty());
    assert_eq!(config.k_index, 'j');
}

#[test]
fn test_matmul_transpose_a() {
    // ji,jk->ik means A^T @ B
    let notation = parse_einsum("ji,jk->ik").unwrap();
    let config = is_matmul(&notation).unwrap();

    assert!(config.transpose_a);
    assert!(!config.transpose_b);
}

#[test]
fn test_matmul_transpose_b() {
    // ij,kj->ik means A @ B^T
    let notation = parse_einsum("ij,kj->ik").unwrap();
    let config = is_matmul(&notation).unwrap();

    assert!(!config.transpose_a);
    assert!(config.transpose_b);
}

#[test]
fn test_batched_matmul() {
    let notation = parse_einsum("bij,bjk->bik").unwrap();
    let config = is_batched_matmul(&notation).unwrap();

    assert!(!config.transpose_a);
    assert!(!config.transpose_b);
    assert_eq!(config.batch_dims, vec![0]);
}

#[test]
fn test_multi_batch_matmul() {
    let notation = parse_einsum("abij,abjk->abik").unwrap();
    let config = is_batched_matmul(&notation).unwrap();

    assert_eq!(config.batch_dims.len(), 2);
}

#[test]
fn test_attention_scores() {
    // bhqd,bhkd->bhqk (Q @ K^T with batch dims b,h)
    let notation = parse_einsum("bhqd,bhkd->bhqk").unwrap();
    let config = is_batched_matmul(&notation).unwrap();

    assert!(!config.transpose_a);
    assert!(config.transpose_b);  // kd -> K^T
    assert_eq!(config.batch_dims.len(), 2);
    assert_eq!(config.k_index, 'd');
}

#[test]
fn test_not_matmul() {
    // Three inputs - not matmul
    let notation = parse_einsum("ij,jk,kl->il").unwrap();
    assert!(is_matmul(&notation).is_none());
    assert!(is_batched_matmul(&notation).is_none());
}
