use eisen::scalar::Scalar;
use eisen::tensor::{
    bf16u_to_f32, copy_of, element_count, f32_to_bf16u, filled, halves_of, widened, Tensor,
};

#[test]
fn shorter_floats() {
    assert_eq!(f32_to_bf16u(1.0f32.to_bits()), 0x3f80);
    assert_eq!(bf16u_to_f32(0x3f80), 1.0f32.to_bits());
    assert_eq!(f32_to_bf16u(0x1234_5678), 0x1234);
    assert_eq!(bf16u_to_f32(f32_to_bf16u(0x1234_5678)), 0x1234_0000);
}

#[test]
fn strides_of_a_shape() {
    assert_eq!(Tensor::<u64>::compute_strides(&[2, 3, 4]), vec![12, 4, 1]);
    assert_eq!(Tensor::<u64>::compute_strides(&[]), Vec::<usize>::new());
}

#[test]
fn broadcasting() {
    assert_eq!(Tensor::<u64>::get_broadcasted_shape(&[2, 1, 4], &[3, 1]), vec![2, 3, 4]);
    assert_eq!(Tensor::<u64>::get_broadcasted_shape(&[3], &[2, 3]), vec![2, 3]);
    assert_eq!(
        Tensor::<u64>::get_broadcasted_strides(&[3, 1], &[1, 1], &[2, 3, 4]),
        vec![0, 1, 0]
    );
}

#[test]
fn positions_and_indices() {
    let shape = [2, 3, 4];
    let strides = Tensor::<u64>::compute_strides(&shape);
    for flat in 0..24 {
        let nd = Tensor::<u64>::flat_to_nd(flat, &shape);
        assert_eq!(Tensor::<u64>::nd_to_flat(&nd, &strides), flat);
    }
    assert_eq!(Tensor::<u64>::flat_to_nd(17, &shape), vec![1, 1, 1]);
}

#[test]
fn new_tensor() {
    let t = Tensor::new(5, vec![2, 2], vec![1u64, 2, 3, 4]);
    assert_eq!(t.id, 5);
    assert_eq!(t.size(), 4);
    assert_eq!(t.strides, vec![2, 1]);
    assert_eq!(t.data.as_cpu(), &vec![1, 2, 3, 4]);
    assert_eq!(t.grad.as_cpu(), &vec![0, 0, 0, 0]);
    assert!(t.name.is_none());
    assert!(!t.is_pooled);
}

#[test]
fn counted_elements() {
    assert_eq!(element_count(&[]), 1);
    assert_eq!(element_count(&[3, 0]), 0);
    assert_eq!(element_count(&[3, 5]), 15);
}

#[test]
fn copies_of_elements() {
    assert_eq!(copy_of(&vec![1u64, 2]), vec![1, 2]);
    assert_eq!(filled(7u64, 3), vec![7, 7, 7]);
    let h = halves_of(&vec![5u64, 6]);
    assert_eq!(widened::<u64>(&h).len(), 2);
}

#[test]
fn numbers_without_a_point() {
    assert_eq!(u64::zero().plus(u64::one()), 1);
    assert_eq!(u64::from_count(6).times(7), 42);
    assert_eq!(3u64.larger(9), 9);
    assert_eq!(3u64.smaller(9), 3);
    assert!(9u64.above(3));
    assert_eq!(2u64.power(5), 32);
    assert_eq!(12u64.over(5), 2);
    assert_eq!(8u64.ln(), 3);
    assert_eq!(3u64.exp(), 8);
    assert_eq!(u64::narrow(5u64.wide_add_square(u64::wide_zero())), 25);
}
