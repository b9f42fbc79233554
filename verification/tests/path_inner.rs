use cubek_einsum::optimization::path::TensorState;
use cubek_einsum::optimization::{ContractionPath, ContractionStep};

#[test]
fn test_contraction_path() {
    let mut path = ContractionPath::new();

    path.push(ContractionStep::new(
        (0, 1),
        vec!['j'],
        vec!['i', 'k'],
        1000,
    ));

    assert_eq!(path.len(), 1);
    assert_eq!(path.total_flops(), 1000);
}

#[test]
fn test_tensor_state_contract() {
    let state = TensorState::new(
        vec![vec![3, 4], vec![4, 5], vec![5, 6]],
        vec![vec!['i', 'j'], vec!['j', 'k'], vec!['k', 'l']],
    );

    // Contract tensors 0 and 1 (ij,jk->ik)
    let new_state = state.contract(0, 1, &['i', 'k']);

    assert_eq!(new_state.len(), 2);
    assert_eq!(new_state.shapes[0], vec![5, 6]); // tensor 2, now at position 0
    assert_eq!(new_state.shapes[1], vec![3, 5]); // result of 0*1
}
