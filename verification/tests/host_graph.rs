use eisen::graph::ops::elementwise::Pairwise;
use eisen::graph::Graph;

#[test]
fn new_tensor_has_zero_gradient() {
    let mut g: Graph<u64> = Graph::default();
    let id = g.alloc_tensor(vec![2, 2], vec![1, 2, 3, 4]);
    assert_eq!(id, 0);
    assert_eq!(g.get_data(id), &vec![1, 2, 3, 4]);
    assert_eq!(g.get_grad(id), &vec![0, 0, 0, 0]);
}

/// The loss of two rows of two numbers times a matrix, summed, with the gradients of
/// both factors.
fn loss_of(a: &[u64], b: &[u64]) -> (u64, Vec<u64>, Vec<u64>) {
    let mut g: Graph<u64> = Graph::default();
    let x = g.alloc_tensor(vec![2, 2], a.to_vec());
    let w = g.alloc_tensor(vec![2, 2], b.to_vec());
    let y = g.matmul_host(x, w);
    let s = g.sum_host(y, 1);
    let l = g.sum_host(s, 0);
    g.backward_host(l);
    (g.get_data(l)[0], g.get_grad(x).clone(), g.get_grad(w).clone())
}

#[test]
fn gradients_give_the_change_of_the_loss() {
    let (a, b) = ([1, 2, 3, 4], [5, 6, 7, 8]);
    let da = [10, u64::MAX, 3, 7];
    let (was, ga, _) = loss_of(&a, &b);
    assert_eq!(was, 19 + 22 + 43 + 50);
    assert_eq!(ga, vec![11, 15, 11, 15]);
    let moved: Vec<u64> = (0..4).map(|i| a[i].wrapping_add(da[i])).collect();
    let (now, _, _) = loss_of(&moved, &b);
    let change = (0..4).fold(0u64, |s, i| s.wrapping_add(ga[i].wrapping_mul(da[i])));
    assert_eq!(now, was.wrapping_add(change));
}

#[test]
fn product_of_changed_matrices() {
    let (a, b) = ([1, 2, 3, 4], [5, 6, 7, 8]);
    let (da, db) = ([1, 0, 2, 5], [9, 1, u64::MAX, 4]);
    let (was, ga, gb) = loss_of(&a, &b);
    let ma: Vec<u64> = (0..4).map(|i| a[i].wrapping_add(da[i])).collect();
    let mb: Vec<u64> = (0..4).map(|i| b[i].wrapping_add(db[i])).collect();
    let (now, _, _) = loss_of(&ma, &mb);
    let (second, _, _) = loss_of(&da, &db);
    let first = (0..4).fold(0u64, |s, i| {
        s.wrapping_add(ga[i].wrapping_mul(da[i])).wrapping_add(gb[i].wrapping_mul(db[i]))
    });
    assert_eq!(now, was.wrapping_add(first).wrapping_add(second));
}

#[test]
fn earlier_gradients_are_kept() {
    let mut g: Graph<u64> = Graph::default();
    let x = g.alloc_tensor(vec![2, 2], vec![1, 2, 3, 4]);
    let w = g.alloc_tensor(vec![2, 2], vec![5, 6, 7, 8]);
    g.mark_params();
    for pass in 1..4 {
        let y = g.matmul_host(x, w);
        let s = g.sum_host(y, 1);
        let l = g.sum_host(s, 0);
        g.backward_host(l);
        assert_eq!(g.get_grad(x), &vec![11 * pass, 15 * pass, 11 * pass, 15 * pass]);
        assert_eq!(g.get_grad(w), &vec![4 * pass, 4 * pass, 6 * pass, 6 * pass]);
        g.clear_activations();
    }
}

#[test]
fn gradient_is_a_partial_derivative() {
    let (a, b) = ([1, 2, 3, 4], [5, 6, 7, 8]);
    let (was, ga, gb) = loss_of(&a, &b);
    for j in 0..4 {
        let mut m = a;
        m[j] += 1;
        assert_eq!(loss_of(&m, &b).0 - was, ga[j]);
        let mut m = b;
        m[j] += 1;
        assert_eq!(loss_of(&a, &m).0 - was, gb[j]);
    }
}

#[test]
fn product_with_columns_is_product_with_transposed() {
    let mut g: Graph<u64> = Graph::default();
    let a = g.alloc_tensor(vec![2, 2, 3], (1..13).collect());
    let b = g.alloc_tensor(vec![2, 4, 3], (1..25).collect());
    let bt = g.transpose(b, 1, 2);
    let x = g.bmm_host(a, b, true);
    let y = g.bmm_host(a, bt, false);
    assert_eq!(g.tensors[x].shape, vec![2, 2, 4]);
    assert_eq!(g.tensors[y].shape, vec![2, 2, 4]);
    assert_eq!(g.get_data(x), g.get_data(y));
    assert_eq!(g.get_data(x)[0], 1 + 4 + 9);
    assert_eq!(g.get_data(x)[15], 10 * 22 + 11 * 23 + 12 * 24);
    assert_eq!(g.get_data(a), &(1..13).collect::<Vec<u64>>());
    assert_eq!(g.get_data(b), &(1..25).collect::<Vec<u64>>());
}

#[test]
fn tape_is_tested() {
    let mut g: Graph<u64> = Graph::default();
    assert!(g.tape_can_go_back());
    let a = g.alloc_tensor(vec![2, 3], vec![1, 2, 3, 4, 5, 6]);
    let b = g.alloc_tensor(vec![3, 2], vec![1; 6]);
    let y = g.matmul_host(a, b);
    g.matmul_host(b, y);
    g.transpose(a, 0, 1);
    g.pairwise_host(Pairwise::Mul, a, a);
    g.sum_host(a, 1);
    g.max_host(a, 0);
    g.silu_host(a);
    g.softmax_host(a);
    g.cross_entropy_host(a, &[0, 2]);
    g.cross_entropy_masked_host(a, &[usize::MAX, 1]);
    g.reshape_host(a, vec![6]);
    let rows = g.alloc_tensor(vec![2], vec![2, 0]);
    g.gather_host(b, rows);
    let c = g.alloc_tensor(vec![1, 2, 2, 2], vec![1; 8]);
    g.transpose_0213_host(c);
    g.repeat_kv_host(c, 3);
    let d = g.alloc_tensor(vec![1, 2, 4], vec![1; 8]);
    g.rope_host(d, 2);
    g.bmm_host(d, d, true);
    let w = g.alloc_tensor(vec![4], vec![1; 4]);
    g.rms_norm_host(d, w, 1);
    assert_eq!(g.tape.nodes.len(), 17);
    assert!(g.tape_can_go_back());
    g.tape.nodes[0].inputs[1] = a;
    g.tape.nodes[0].inputs.push(b);
    assert!(!g.tape_can_go_back());
    g.tape.nodes.remove(0);
    assert!(g.tape_can_go_back());
    *g.tensors[a].grad.as_cpu_mut() = vec![0; 5];
    assert!(!g.tape_can_go_back());
}
