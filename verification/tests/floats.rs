use eisen::graph::operations::Outcome;
use eisen::graph::Graph;
use eisen::nn::attention::{Attention, GroupedQueryAttention, MultiHeadAttention};
use eisen::nn::embedding::Embedding;
use eisen::nn::linear::Linear;
use eisen::nn::optim::AdamW;
use eisen::nn::program::{initial_values, mask_of, Call, Dims, Init, Program, Val};
use eisen::nn::rmsnorm::RMSNorm;
use eisen::nn::scheduler::CosineScheduler;
use eisen::nn::transformer::TransformerLM;
use eisen::nn::Module;
use eisen::scalar::Scalar;
use eisen::tensor::Storage;

#[derive(Clone, Copy, Debug, PartialEq)]
struct F(f64);

impl Scalar for F {
    type Wide = f64;

    fn zero() -> Self {
        F(0.0)
    }
    fn one() -> Self {
        F(1.0)
    }
    fn lowest() -> Self {
        F(f64::NEG_INFINITY)
    }
    fn pi() -> Self {
        F(std::f64::consts::PI)
    }
    fn decimal(digits: usize, places: usize) -> Self {
        F(format!("{}e-{}", digits, places).parse().unwrap())
    }
    fn from_count(n: usize) -> Self {
        F(n as f64)
    }
    fn plus(self, other: Self) -> Self {
        F(self.0 + other.0)
    }
    fn minus(self, other: Self) -> Self {
        F(self.0 - other.0)
    }
    fn times(self, other: Self) -> Self {
        F(self.0 * other.0)
    }
    fn over(self, other: Self) -> Self {
        F(self.0 / other.0)
    }
    fn negated(self) -> Self {
        F(-self.0)
    }
    fn above(self, other: Self) -> bool {
        self.0 > other.0
    }
    fn larger(self, other: Self) -> Self {
        F(self.0.max(other.0))
    }
    fn smaller(self, other: Self) -> Self {
        F(self.0.min(other.0))
    }
    fn power(self, n: usize) -> Self {
        F(self.0.powi(n as i32))
    }
    fn raised(self, e: Self) -> Self {
        F(self.0.powf(e.0))
    }
    fn exp(self) -> Self {
        F(self.0.exp())
    }
    fn ln(self) -> Self {
        F(self.0.ln())
    }
    fn sqrt(self) -> Self {
        F(self.0.sqrt())
    }
    fn sin(self) -> Self {
        F(self.0.sin())
    }
    fn cos(self) -> Self {
        F(self.0.cos())
    }
    fn to_half(self) -> u16 {
        eisen::tensor::f32_to_bf16u((self.0 as f32).to_bits())
    }
    fn from_half(half: u16) -> Self {
        F(f32::from_bits(eisen::tensor::bf16u_to_f32(half)) as f64)
    }
    fn as_index(self) -> usize {
        self.0 as usize
    }
    fn wide_zero() -> f64 {
        0.0
    }
    fn wide_add_square(self, w: f64) -> f64 {
        w + self.0 * self.0
    }
    fn wide_sqrt(w: f64) -> f64 {
        w.sqrt()
    }
    fn narrow(w: f64) -> Self {
        F(w)
    }

    fn spec_zero() -> Self {
        Self::zero()
    }
    fn spec_one() -> Self {
        Self::one()
    }
    fn spec_lowest() -> Self {
        Self::lowest()
    }
    fn spec_pi() -> Self {
        Self::pi()
    }
    fn spec_decimal(digits: usize, places: usize) -> Self {
        Self::decimal(digits, places)
    }
    fn spec_from_count(n: usize) -> Self {
        Self::from_count(n)
    }
    fn spec_plus(self, other: Self) -> Self {
        self.plus(other)
    }
    fn spec_minus(self, other: Self) -> Self {
        self.minus(other)
    }
    fn spec_times(self, other: Self) -> Self {
        self.times(other)
    }
    fn spec_over(self, other: Self) -> Self {
        self.over(other)
    }
    fn spec_negated(self) -> Self {
        self.negated()
    }
    fn spec_above(self, other: Self) -> bool {
        self.above(other)
    }
    fn spec_larger(self, other: Self) -> Self {
        self.larger(other)
    }
    fn spec_smaller(self, other: Self) -> Self {
        self.smaller(other)
    }
    fn spec_power(self, n: usize) -> Self {
        self.power(n)
    }
    fn spec_raised(self, e: Self) -> Self {
        self.raised(e)
    }
    fn spec_exp(self) -> Self {
        self.exp()
    }
    fn spec_ln(self) -> Self {
        self.ln()
    }
    fn spec_sqrt(self) -> Self {
        self.sqrt()
    }
    fn spec_sin(self) -> Self {
        self.sin()
    }
    fn spec_cos(self) -> Self {
        self.cos()
    }
    fn spec_to_half(self) -> u16 {
        self.to_half()
    }
    fn spec_from_half(half: u16) -> Self {
        Self::from_half(half)
    }
    fn spec_as_index(self) -> usize {
        self.as_index()
    }
    fn spec_wide_zero() -> f64 {
        Self::wide_zero()
    }
    fn spec_wide_add_square(self, w: f64) -> f64 {
        self.wide_add_square(w)
    }
    fn spec_wide_sqrt(w: f64) -> f64 {
        Self::wide_sqrt(w)
    }
    fn spec_narrow(w: f64) -> Self {
        Self::narrow(w)
    }
}

fn fs(v: &[f64]) -> Vec<F> {
    v.iter().map(|x| F(*x)).collect()
}

fn plain(v: &Vec<F>) -> Vec<f64> {
    v.iter().map(|x| x.0).collect()
}

fn close(a: &[f64], b: &[f64]) {
    assert_eq!(a.len(), b.len());
    for i in 0..a.len() {
        assert!((a[i] - b[i]).abs() < 1e-5, "{} is not {}", a[i], b[i]);
    }
}

fn done(o: Outcome<F>) -> usize {
    match o {
        Outcome::Done(id) => id,
        _ => panic!("not on the host"),
    }
}

/// Numbers without a pattern.
fn numbers(n: usize, seed: u64) -> Vec<f64> {
    let mut s = seed.wrapping_mul(0x9e3779b97f4a7c15) | 1;
    (0..n)
        .map(|_| {
            s ^= s << 13;
            s ^= s >> 7;
            s ^= s << 17;
            (s >> 11) as f64 / (1u64 << 53) as f64 * 2.0 - 1.0
        })
        .collect()
}

fn count(shape: &[usize]) -> usize {
    shape.iter().product()
}

/// The weighted sum of the results of an operation, and the gradients of its operands.
fn weighed(
    op: &dyn Fn(&mut Graph<F>, &[usize]) -> usize,
    shapes: &[Vec<usize>],
    values: &[Vec<f64>],
) -> (f64, Vec<Vec<f64>>) {
    let mut g: Graph<F> = Graph::default();
    let mut ids = vec![];
    for i in 0..shapes.len() {
        ids.push(g.alloc_tensor(shapes[i].clone(), fs(&values[i])));
    }
    let y = op(&mut g, &ids);
    let shape = g.tensors[y].shape.clone();
    let w = numbers(count(&shape), 99);
    let wid = g.alloc_tensor(shape, fs(&w));
    assert!(g.can_mul(y, wid));
    let o = g.mul(y, wid);
    let l = done(o);
    let total: f64 = plain(g.get_data(l)).iter().sum();
    assert!(g.backward(l).is_none());
    let grads = ids.iter().map(|i| plain(g.get_grad(*i))).collect();
    (total, grads)
}

/// The way back gives the slopes of the way forth.
fn slopes_agree(op: &dyn Fn(&mut Graph<F>, &[usize]) -> usize, shapes: &[Vec<usize>]) {
    let values: Vec<Vec<f64>> =
        (0..shapes.len()).map(|i| numbers(count(&shapes[i]), 7 + i as u64)).collect();
    let (_, grads) = weighed(op, shapes, &values);
    let h = 1e-5;
    for t in 0..shapes.len() {
        for k in 0..values[t].len() {
            let mut up = values.clone();
            up[t][k] += h;
            let mut down = values.clone();
            down[t][k] -= h;
            let slope = (weighed(op, shapes, &up).0 - weighed(op, shapes, &down).0) / (2.0 * h);
            assert!(
                (slope - grads[t][k]).abs() < 1e-6,
                "operand {} element {}: {} is not {}",
                t,
                k,
                grads[t][k],
                slope
            );
        }
    }
}

#[test]
fn addition_repeats_the_smaller_operand() {
    let mut g: Graph<F> = Graph::default();
    let a = g.alloc_tensor(vec![2, 3], fs(&[1.0, 2.0, 3.0, 4.0, 5.0, 6.0]));
    let b = g.alloc_tensor(vec![3], fs(&[10.0, 20.0, 30.0]));
    assert!(g.can_add(a, b));
    let o = g.add(a, b);
    let y = done(o);
    assert_eq!(plain(g.get_data(y)), vec![11.0, 22.0, 33.0, 14.0, 25.0, 36.0]);
    g.backward(y);
    assert_eq!(plain(g.get_grad(b)), vec![2.0, 2.0, 2.0]);
}

#[test]
fn addition_slopes() {
    let op = |g: &mut Graph<F>, x: &[usize]| {
        let o = g.add(x[0], x[1]);
        done(o)
    };
    slopes_agree(&op, &[vec![2, 3], vec![2, 3]]);
    slopes_agree(&op, &[vec![2, 3], vec![3]]);
    slopes_agree(&op, &[vec![2, 1, 3], vec![4, 1]]);
}

#[test]
fn multiplication_slopes() {
    let op = |g: &mut Graph<F>, x: &[usize]| {
        let o = g.mul(x[0], x[1]);
        done(o)
    };
    slopes_agree(&op, &[vec![2, 3], vec![2, 3]]);
    slopes_agree(&op, &[vec![2, 3], vec![1, 3]]);
}

#[test]
fn silu_values_and_slopes() {
    let mut g: Graph<F> = Graph::default();
    let a = g.alloc_tensor(vec![3], fs(&[0.0, 1.0, -2.0]));
    let o = g.silu(a);
    let y = done(o);
    let e = |x: f64| x / (1.0 + (-x).exp());
    close(&plain(g.get_data(y)), &[0.0, e(1.0), e(-2.0)]);
    let op = |g: &mut Graph<F>, x: &[usize]| {
        let o = g.silu(x[0]);
        done(o)
    };
    slopes_agree(&op, &[vec![4]]);
}

#[test]
fn matrix_product_values_and_slopes() {
    let mut g: Graph<F> = Graph::default();
    let a = g.alloc_tensor(vec![2, 2], fs(&[1.0, 2.0, 3.0, 4.0]));
    let b = g.alloc_tensor(vec![2, 2], fs(&[5.0, 6.0, 7.0, 8.0]));
    assert!(g.can_matmul(a, b));
    let o = g.matmul(a, b);
    let y = done(o);
    assert_eq!(plain(g.get_data(y)), vec![19.0, 22.0, 43.0, 50.0]);
    let op = |g: &mut Graph<F>, x: &[usize]| {
        let o = g.matmul(x[0], x[1]);
        done(o)
    };
    slopes_agree(&op, &[vec![2, 3], vec![3, 4]]);
    slopes_agree(&op, &[vec![2, 2, 3], vec![3, 2]]);
    let op = |g: &mut Graph<F>, x: &[usize]| {
        let o = g.matmul_bf16(x[0], x[1]);
        done(o)
    };
    slopes_agree(&op, &[vec![2, 3], vec![3, 4]]);
}

#[test]
fn batched_product_values_and_slopes() {
    let mut g: Graph<F> = Graph::default();
    let a = g.alloc_tensor(vec![1, 1, 2], fs(&[1.0, 2.0]));
    let b = g.alloc_tensor(vec![1, 2, 2], fs(&[3.0, 4.0, 5.0, 6.0]));
    let o = g.bmm(a, b, false);
    let y = done(o);
    assert_eq!(plain(g.get_data(y)), vec![13.0, 16.0]);
    let o = g.bmm(a, b, true);
    let y = done(o);
    assert_eq!(plain(g.get_data(y)), vec![11.0, 17.0]);
    for trans in [false, true] {
        let op = move |g: &mut Graph<F>, x: &[usize]| {
            let o = g.bmm(x[0], x[1], trans);
            done(o)
        };
        let b = if trans { vec![2, 4, 3] } else { vec![2, 3, 4] };
        slopes_agree(&op, &[vec![2, 2, 3], b]);
    }
}

#[test]
fn sums_and_maxima() {
    let mut g: Graph<F> = Graph::default();
    let a = g.alloc_tensor(vec![2, 3], fs(&[1.0, 5.0, 3.0, 4.0, 2.0, 6.0]));
    let o = g.sum(a, 0);
    let s = done(o);
    assert_eq!(plain(g.get_data(s)), vec![5.0, 7.0, 9.0]);
    let o = g.max(a, 1);
    let m = done(o);
    assert_eq!(plain(g.get_data(m)), vec![5.0, 6.0]);
    g.backward(m);
    assert_eq!(plain(g.get_grad(a)), vec![0.0, 1.0, 0.0, 0.0, 0.0, 1.0]);
    for dim in [0, 1, 2] {
        let op = move |g: &mut Graph<F>, x: &[usize]| {
            let o = g.sum(x[0], dim);
            done(o)
        };
        slopes_agree(&op, &[vec![2, 3, 2]]);
        let op = move |g: &mut Graph<F>, x: &[usize]| {
            let o = g.max(x[0], dim);
            done(o)
        };
        slopes_agree(&op, &[vec![2, 3, 2]]);
    }
}

#[test]
fn softmax_of_equal_scores_is_even() {
    let mut g: Graph<F> = Graph::default();
    let a = g.alloc_tensor(vec![1, 4], fs(&[2.0, 2.0, 2.0, 2.0]));
    assert!(g.can_softmax(a));
    let o = g.softmax(a);
    let y = done(o);
    close(&plain(g.get_data(y)), &[0.25, 0.25, 0.25, 0.25]);
    let op = |g: &mut Graph<F>, x: &[usize]| {
        let o = g.softmax(x[0]);
        done(o)
    };
    slopes_agree(&op, &[vec![2, 3]]);
}

#[test]
fn loss_values_and_slopes() {
    let mut g: Graph<F> = Graph::default();
    let a = g.alloc_tensor(vec![2, 2], fs(&[0.0, 0.0, 0.0, 0.0]));
    assert!(g.can_cross_entropy(a, &[0, 1]));
    let o = g.cross_entropy(a, &[0, 1]);
    let l = done(o);
    close(&plain(g.get_data(l)), &[(2.0f64).ln()]);
    g.backward(l);
    close(&plain(g.get_grad(a)), &[-0.25, 0.25, 0.25, -0.25]);
    let op = |g: &mut Graph<F>, x: &[usize]| {
        let o = g.cross_entropy(x[0], &[1, 0, 2]);
        done(o)
    };
    slopes_agree(&op, &[vec![3, 4]]);
}

#[test]
fn masked_loss_counts_some_rows() {
    let skip = usize::MAX;
    let mut g: Graph<F> = Graph::default();
    let a = g.alloc_tensor(vec![2, 2], fs(&[1.0, 0.0, 5.0, 9.0]));
    assert!(g.can_cross_entropy_masked(a, &[0, skip]));
    let o = g.cross_entropy_masked(a, &[0, skip]);
    let l = done(o);
    let e = -((1.0f64).exp() / ((1.0f64).exp() + 1.0)).ln();
    close(&plain(g.get_data(l)), &[e]);
    g.backward(l);
    close(&plain(g.get_grad(a))[2..], &[0.0, 0.0]);
    let op = move |g: &mut Graph<F>, x: &[usize]| {
        let o = g.cross_entropy_masked(x[0], &[1, skip, 2]);
        done(o)
    };
    slopes_agree(&op, &[vec![3, 4]]);
}

#[test]
fn masked_loss_without_rows_is_zero() {
    let skip = usize::MAX;
    let mut g: Graph<F> = Graph::default();
    let a = g.alloc_tensor(vec![1, 2], fs(&[1.0, 0.0]));
    let o = g.cross_entropy_masked(a, &[skip]);
    let l = done(o);
    assert_eq!(plain(g.get_data(l)), vec![0.0]);
}

#[test]
fn masked_loss_without_rows_reads_no_logits() {
    let skip = usize::MAX;
    let mut g: Graph<F> = Graph::default();
    assert!(g.can_cross_entropy_masked(17, &[skip, skip]));
    let o = g.cross_entropy_masked(17, &[skip, skip]);
    let l = done(o);
    assert_eq!(plain(g.get_data(l)), vec![0.0]);
    assert!(!g.can_cross_entropy_masked(17, &[skip, 0]));
}

#[test]
fn ignored_rows_have_no_influence() {
    let skip = usize::MAX;
    let mut g: Graph<F> = Graph::default();
    let v = numbers(12, 5);
    let all = g.alloc_tensor(vec![4, 3], fs(&v));
    let o = g.cross_entropy_masked(all, &[2, skip, 0, skip]);
    let l = done(o);
    let rows: Vec<f64> = v[0..3].iter().chain(v[6..9].iter()).cloned().collect();
    let some = g.alloc_tensor(vec![2, 3], fs(&rows));
    let o = g.cross_entropy(some, &[2, 0]);
    let m = done(o);
    close(&plain(g.get_data(l)), &plain(g.get_data(m)));
    let mut other = v.clone();
    other[4] = 100.0;
    other[11] = -7.0;
    let all = g.alloc_tensor(vec![4, 3], fs(&other));
    let o = g.cross_entropy_masked(all, &[2, skip, 0, skip]);
    let k = done(o);
    assert_eq!(plain(g.get_data(k)), plain(g.get_data(l)));
    let o = g.cross_entropy_masked(some, &[2, 0]);
    let n = done(o);
    assert_eq!(plain(g.get_data(n)), plain(g.get_data(m)));
}

#[test]
fn masked_loss_is_mean_up_to_rounding() {
    let n = 7;
    let v = numbers(2 * n * 3, 11);
    let mut g: Graph<F> = Graph::default();
    let all = g.alloc_tensor(vec![2 * n, 3], fs(&v));
    let targets: Vec<usize> =
        (0..2 * n).map(|r| if r % 2 == 0 { r % 3 } else { usize::MAX }).collect();
    let o = g.cross_entropy_masked(all, &targets);
    let masked = done(o);
    let mut rows = vec![];
    let mut classes = vec![];
    let mut extent = 0.0;
    for r in (0..2 * n).step_by(2) {
        let row = v[3 * r..3 * r + 3].to_vec();
        let id = g.alloc_tensor(vec![1, 3], fs(&row));
        let o = g.cross_entropy(id, &[r % 3]);
        let l = done(o);
        extent += g.get_data(l)[0].0.abs();
        rows.extend(row);
        classes.push(r % 3);
    }
    let some = g.alloc_tensor(vec![n, 3], fs(&rows));
    let o = g.cross_entropy(some, &classes);
    let mean = done(o);
    let u = f64::EPSILON / 2.0;
    let bound = 2.0 * (n + 2) as f64 * u * extent / n as f64 * 1.001;
    let away = (g.get_data(masked)[0].0 - g.get_data(mean)[0].0).abs();
    assert!(away <= bound, "{} is above {}", away, bound);
}

#[test]
fn exchange_of_dimensions() {
    let mut g: Graph<F> = Graph::default();
    let v: Vec<f64> = (0..12).map(|x| x as f64).collect();
    let a = g.alloc_tensor(vec![1, 2, 3, 2], fs(&v));
    assert!(g.can_transpose_0213(a));
    let o = g.transpose_0213(a);
    let y = done(o);
    assert_eq!(g.tensors[y].shape, vec![1, 3, 2, 2]);
    let expected = vec![0.0, 1.0, 6.0, 7.0, 2.0, 3.0, 8.0, 9.0, 4.0, 5.0, 10.0, 11.0];
    assert_eq!(plain(g.get_data(y)), expected);
    let o = g.transpose_0213(y);
    let z = done(o);
    assert_eq!(plain(g.get_data(z)), v);
    assert_eq!(g.tensors[z].shape, vec![1, 2, 3, 2]);
    assert_eq!(plain(g.get_data(a)), v);
    let op = |g: &mut Graph<F>, x: &[usize]| {
        let o = g.transpose_0213(x[0]);
        done(o)
    };
    slopes_agree(&op, &[vec![1, 2, 3, 2]]);
}

#[test]
fn rows_are_gathered() {
    let mut g: Graph<F> = Graph::default();
    let w = g.alloc_tensor(vec![3, 2], fs(&[1.0, 2.0, 3.0, 4.0, 5.0, 6.0]));
    let i = g.alloc_tensor(vec![2], fs(&[2.0, 2.0]));
    assert!(g.can_gather(w, i));
    let o = g.gather(w, i);
    let y = done(o);
    assert_eq!(g.tensors[y].shape, vec![2, 2]);
    assert_eq!(plain(g.get_data(y)), vec![5.0, 6.0, 5.0, 6.0]);
    g.backward(y);
    assert_eq!(plain(g.get_grad(w)), vec![0.0, 0.0, 0.0, 0.0, 2.0, 2.0]);
    let j = g.alloc_tensor(vec![1], fs(&[3.0]));
    assert!(!g.can_gather(w, j));
}

#[test]
fn reshape_keeps_the_elements() {
    let op = |g: &mut Graph<F>, x: &[usize]| {
        let o = g.reshape(x[0], vec![6]);
        done(o)
    };
    slopes_agree(&op, &[vec![2, 3]]);
    let mut g: Graph<F> = Graph::default();
    let a = g.alloc_tensor(vec![2, 2], fs(&[1.0, 2.0, 3.0, 4.0]));
    assert!(g.can_reshape(a, &vec![4, 1]));
    let o = g.reshape(a, vec![4, 1]);
    let y = done(o);
    assert_eq!(g.tensors[y].shape, vec![4, 1]);
    assert_eq!(plain(g.get_data(y)), vec![1.0, 2.0, 3.0, 4.0]);
}

#[test]
fn rotation_of_positions() {
    let mut g: Graph<F> = Graph::default();
    let a = g.alloc_tensor(vec![1, 2, 2], fs(&[1.0, 0.0, 1.0, 0.0]));
    assert!(g.can_rope(a, 2));
    let o = g.rope(a, 2);
    let y = done(o);
    let v = plain(g.get_data(y));
    close(&v, &[1.0, 0.0, (1.0f64).cos(), (1.0f64).sin()]);
    let op = |g: &mut Graph<F>, x: &[usize]| {
        let o = g.rope(x[0], 4);
        done(o)
    };
    slopes_agree(&op, &[vec![2, 3, 8]]);
}

#[test]
fn repetition_of_heads() {
    let op = |g: &mut Graph<F>, x: &[usize]| {
        let o = g.repeat_kv(x[0], 2);
        done(o)
    };
    slopes_agree(&op, &[vec![1, 2, 2, 3]]);
    let mut g: Graph<F> = Graph::default();
    let a = g.alloc_tensor(vec![1, 1, 2, 1], fs(&[1.0, 2.0]));
    assert!(g.can_repeat_kv(a, 2));
    let o = g.repeat_kv(a, 1);
    assert_eq!(done(o), a);
    let o = g.repeat_kv(a, 2);
    let y = done(o);
    assert_eq!(g.tensors[y].shape.iter().product::<usize>(), 4);
}

#[test]
fn normalization_values_and_slopes() {
    let mut g: Graph<F> = Graph::default();
    let a = g.alloc_tensor(vec![1, 2], fs(&[3.0, 4.0]));
    let w = g.alloc_tensor(vec![2], fs(&[1.0, 2.0]));
    assert!(g.can_rms_norm(a, w));
    let o = g.rms_norm(a, w, F(0.0));
    let y = done(o);
    let r = (12.5f64).sqrt();
    close(&plain(g.get_data(y)), &[3.0 / r, 8.0 / r]);
    let op = |g: &mut Graph<F>, x: &[usize]| {
        let o = g.rms_norm(x[0], x[1], F(1e-5));
        done(o)
    };
    slopes_agree(&op, &[vec![2, 3], vec![3]]);
}

#[test]
fn exchange_of_two_dimensions() {
    let mut g: Graph<F> = Graph::default();
    let a = g.alloc_tensor(vec![2, 3], fs(&[1.0, 2.0, 3.0, 4.0, 5.0, 6.0]));
    let y = g.transpose(a, 0, 1);
    assert_eq!(g.tensors[y].shape, vec![3, 2]);
    assert_eq!(plain(g.get_data(y)), vec![1.0, 4.0, 2.0, 5.0, 3.0, 6.0]);
    let op = |g: &mut Graph<F>, x: &[usize]| g.transpose(x[0], 0, 2);
    slopes_agree(&op, &[vec![2, 3, 2]]);
}

#[test]
fn attention_in_one_go_is_attention_in_steps() {
    let shape = vec![2, 3, 4];
    let q = numbers(24, 1);
    let k = numbers(24, 2);
    let v = numbers(24, 3);
    let mut g: Graph<F> = Graph::default();
    g.no_grad = true;
    let qi = g.alloc_tensor(shape.clone(), fs(&q));
    let ki = g.alloc_tensor(shape.clone(), fs(&k));
    let vi = g.alloc_tensor(shape.clone(), fs(&v));
    assert!(g.can_flash_attention(qi, ki, vi));
    let o = g.flash_attention(qi, ki, vi, F(0.5), true);
    let y = done(o);
    let got = plain(g.get_data(y));
    let mut expected = vec![0.0; 24];
    for h in 0..2 {
        for i in 0..3 {
            let score = |j: usize| {
                let mut s = 0.0;
                for d in 0..4 {
                    s += q[(h * 3 + i) * 4 + d] * k[(h * 3 + j) * 4 + d];
                }
                (s * 0.5f64).exp()
            };
            let total: f64 = (0..i + 1).map(|j| score(j)).sum();
            for d in 0..4 {
                for j in 0..i + 1 {
                    expected[(h * 3 + i) * 4 + d] += score(j) / total * v[(h * 3 + j) * 4 + d];
                }
            }
        }
    }
    close(&got, &expected);
}

#[test]
fn chains_of_operations() {
    let op = |g: &mut Graph<F>, x: &[usize]| {
        let o = g.matmul(x[0], x[1]);
        let a = done(o);
        let o = g.silu(a);
        let b = done(o);
        let o = g.add(b, a);
        let c = done(o);
        let o = g.softmax(c);
        done(o)
    };
    slopes_agree(&op, &[vec![2, 3], vec![3, 4]]);
}

#[test]
fn nothing_is_recorded_without_gradients() {
    let mut g: Graph<F> = Graph::default();
    g.no_grad = true;
    let a = g.alloc_tensor(vec![2], fs(&[1.0, 2.0]));
    let o = g.add(a, a);
    let y = done(o);
    assert!(g.tape.nodes.is_empty());
    g.backward(y);
    assert_eq!(plain(g.get_grad(a)), vec![0.0, 0.0]);
}

#[test]
fn sixteen_bits_keep_the_upper_half() {
    assert_eq!(F(1.0).to_half(), 0x3f80);
    assert_eq!(F::from_half(0x4049), F(3.140625));
    assert_eq!(F(3.1415927).to_half(), 0x4049);
}

#[test]
fn learning_rate_rises_and_falls() {
    let s = CosineScheduler::new(F(1.0), F(0.1), 10, 110);
    close(&[s.get_lr(0).0, s.get_lr(5).0, s.get_lr(9).0], &[0.0, 0.5, 0.9]);
    close(&[s.get_lr(10).0, s.get_lr(60).0, s.get_lr(110).0], &[1.0, 0.55, 0.1]);
    close(&[s.get_lr(1000).0], &[0.1]);
    assert_eq!(CosineScheduler::new(F(1.0), F(0.0), 4, 8).get_lr(1).0, 0.25);
}

#[test]
fn initial_values_are_fixed() {
    let ones: Vec<F> = initial_values(Init::Ones, 3);
    assert_eq!(plain(&ones), vec![1.0, 1.0, 1.0]);
    let zeros: Vec<F> = initial_values(Init::Zeros, 2);
    assert_eq!(plain(&zeros), vec![0.0, 0.0]);
    let a: Vec<F> = initial_values(Init::Normal, 50);
    let b: Vec<F> = initial_values(Init::Normal, 50);
    assert_eq!(a, b);
    assert!(plain(&a).iter().any(|x| *x != a[0].0));
    assert!(plain(&a).iter().all(|x| x.abs() < 1.0));
}

#[test]
fn mask_hides_later_positions() {
    let m: Vec<F> = mask_of(3);
    for i in 0..3 {
        for j in 0..3 {
            if j > i {
                assert!(m[i * 3 + j].0 <= -1e19);
            } else {
                assert_eq!(m[i * 3 + j].0, 0.0);
            }
        }
    }
}

fn all_run(g: &mut Graph<F>, p: &Program<F>) {
    assert_eq!(g.run(p), p.calls.len());
    assert_eq!(g.tensors.len(), p.next);
}

fn set(g: &mut Graph<F>, id: usize, v: &[f64]) {
    *g.tensors[id].data.as_cpu_mut() = fs(v);
}

#[test]
fn linear_layer_values() {
    let mut g: Graph<F> = Graph::default();
    let mut p = Program::new(0);
    let mut l = Linear::new(&mut p, 2, 3, true, false);
    all_run(&mut g, &p);
    let ids = Module::<F>::params(&l);
    assert_eq!(ids.len(), 2);
    set(&mut g, ids[0], &[1.0, 2.0, 3.0, 4.0, 5.0, 6.0]);
    set(&mut g, ids[1], &[10.0, 20.0, 30.0]);
    let x = g.alloc_tensor(vec![1, 2], fs(&[1.0, 1.0]));
    let mut q = Program::new(g.tensors.len());
    let y = l.forward(&g, &mut q, Val { id: x, dims: Dims::Two(1, 2) });
    all_run(&mut g, &q);
    assert_eq!(plain(g.get_data(y.id)), vec![15.0, 27.0, 39.0]);
}

#[test]
fn linear_layer_without_bias() {
    let mut g: Graph<F> = Graph::default();
    let mut p: Program<F> = Program::new(0);
    let l = Linear::new(&mut p, 2, 3, false, false);
    assert_eq!(p.calls.len(), 1);
    assert!(l.bias_id.is_none());
    all_run(&mut g, &p);
    assert_eq!(g.tensors[l.weight_id].shape, vec![2, 3]);
    assert!(l.is_ready(&g));
    let empty: Graph<F> = Graph::default();
    assert!(!l.is_ready(&empty));
}

#[test]
fn embedding_picks_rows() {
    let mut g: Graph<F> = Graph::default();
    let mut p = Program::new(0);
    let mut e = Embedding::new(&mut p, 3, 2, false);
    all_run(&mut g, &p);
    set(&mut g, e.weight_id, &[1.0, 2.0, 3.0, 4.0, 5.0, 6.0]);
    let x = g.alloc_tensor(vec![1, 2], fs(&[2.0, 0.0]));
    let mut q = Program::new(g.tensors.len());
    let y = e.forward(&g, &mut q, Val { id: x, dims: Dims::Two(1, 2) });
    all_run(&mut g, &q);
    assert_eq!(g.tensors[y.id].shape, vec![1, 2, 2]);
    assert_eq!(plain(g.get_data(y.id)), vec![5.0, 6.0, 1.0, 2.0]);
}

#[test]
fn norm_starts_with_ones() {
    let mut g: Graph<F> = Graph::default();
    let mut p = Program::new(0);
    let mut n = RMSNorm::new(&mut p, 2, F(0.0), false);
    all_run(&mut g, &p);
    let x = g.alloc_tensor(vec![1, 2], fs(&[3.0, 4.0]));
    let mut q = Program::new(g.tensors.len());
    let y = n.forward(&g, &mut q, Val { id: x, dims: Dims::Two(1, 2) });
    all_run(&mut g, &q);
    let r = (12.5f64).sqrt();
    close(&plain(g.get_data(y.id)), &[3.0 / r, 4.0 / r]);
}

#[test]
fn attentions_agree_with_and_without_gradients() {
    let x = numbers(2 * 3 * 4, 11);
    let mut results = vec![];
    for no_grad in [false, true] {
        let mut g: Graph<F> = Graph::default();
        let mut p = Program::new(0);
        let mut m = MultiHeadAttention::new(&mut p, 4, 2, false);
        all_run(&mut g, &p);
        g.no_grad = no_grad;
        let id = g.alloc_tensor(vec![2, 3, 4], fs(&x));
        let mut q = Program::new(g.tensors.len());
        let y = m.forward_with_mask(&g, &mut q, Val { id, dims: Dims::Three(2, 3, 4) }, true);
        all_run(&mut g, &q);
        assert_eq!(g.tensors[y.id].shape, vec![2, 3, 4]);
        results.push(plain(g.get_data(y.id)));
    }
    close(&results[0], &results[1]);
}

#[test]
fn causal_attention_ignores_what_follows() {
    let mut first = vec![];
    for last in [1.0, -7.0] {
        let mut x = numbers(3 * 4, 5);
        x[11] = last;
        let mut g: Graph<F> = Graph::default();
        let mut p = Program::new(0);
        let mut m = Attention::new(&mut p, 4, false);
        all_run(&mut g, &p);
        let id = g.alloc_tensor(vec![1, 3, 4], fs(&x));
        let mut q = Program::new(g.tensors.len());
        let y = m.forward_with_mask(&g, &mut q, Val { id, dims: Dims::Three(1, 3, 4) }, true);
        all_run(&mut g, &q);
        first.push(plain(g.get_data(y.id))[0..8].to_vec());
    }
    close(&first[0], &first[1]);
}

#[test]
fn grouped_attention_with_all_heads_is_multi_head_attention() {
    let x = numbers(3 * 4, 23);
    let mut results = vec![];
    for grouped in [false, true] {
        let mut g: Graph<F> = Graph::default();
        let mut p = Program::new(0);
        let val = |id| Val { id, dims: Dims::Three(1, 3, 4) };
        let y;
        if grouped {
            let mut m = GroupedQueryAttention::new(&mut p, 4, 2, 2, false);
            all_run(&mut g, &p);
            let id = g.alloc_tensor(vec![1, 3, 4], fs(&x));
            let mut q = Program::new(g.tensors.len());
            y = m.forward_with_mask(&g, &mut q, val(id), true);
            all_run(&mut g, &q);
        } else {
            let mut m = MultiHeadAttention::new(&mut p, 4, 2, false);
            all_run(&mut g, &p);
            let id = g.alloc_tensor(vec![1, 3, 4], fs(&x));
            let mut q = Program::new(g.tensors.len());
            y = m.forward_with_mask(&g, &mut q, val(id), true);
            all_run(&mut g, &q);
        }
        results.push(plain(g.get_data(y.id)));
    }
    close(&results[0], &results[1]);
}

#[test]
fn grouped_attention_with_fewer_heads_has_the_same_shape() {
    let mut g: Graph<F> = Graph::default();
    let mut p = Program::new(0);
    let mut m = GroupedQueryAttention::new(&mut p, 8, 4, 2, false);
    all_run(&mut g, &p);
    assert_eq!(g.tensors[m.k_proj.weight_id].shape, vec![8, 4]);
    let id = g.alloc_tensor(vec![2, 3, 8], fs(&numbers(48, 3)));
    let mut q = Program::new(g.tensors.len());
    let y = m.forward(&g, &mut q, Val { id, dims: Dims::Three(2, 3, 8) });
    all_run(&mut g, &q);
    assert_eq!(g.tensors[y.id].shape, vec![2, 3, 8]);
}

#[test]
fn repeated_attention_reuses_scale_and_mask() {
    let mut g: Graph<F> = Graph::default();
    let mut p = Program::new(0);
    let mut m = MultiHeadAttention::new(&mut p, 4, 2, false);
    all_run(&mut g, &p);
    let id = g.alloc_tensor(vec![1, 3, 4], fs(&numbers(12, 3)));
    let x = Val { id, dims: Dims::Three(1, 3, 4) };
    let mut q = Program::new(g.tensors.len());
    m.forward_with_mask(&g, &mut q, x, true);
    all_run(&mut g, &q);
    let mut r = Program::new(g.tensors.len());
    m.forward_with_mask(&g, &mut r, x, true);
    assert_eq!(r.calls.len() + 2, q.calls.len());
    all_run(&mut g, &r);
}

#[test]
fn model_names_its_parameters() {
    let mut p: Program<F> = Program::new(0);
    let m = TransformerLM::new(&mut p, 7, 4, 2, 8, 2, false);
    let names = m.named_params();
    let ids = m.params();
    assert_eq!(names[0].0, "model.embed_tokens.weight");
    assert_eq!(names[8].0, "model.layers.0.mlp.up_proj.weight");
    assert_eq!(names[7].1, names[8].1);
    assert_eq!(names[names.len() - 1].0, "lm_head.weight");
    for (_, id) in &names {
        assert!(ids.contains(id));
    }
    for id in &ids {
        assert!(names.iter().any(|n| n.1 == *id));
    }
    let mut words: Vec<String> = names.iter().map(|n| n.0.clone()).collect();
    words.sort();
    words.dedup();
    assert_eq!(words.len(), 2 * 9 + 3);
}

#[test]
fn training_lowers_the_loss() {
    let mut g: Graph<F> = Graph::default();
    let mut p = Program::new(0);
    let mut m = TransformerLM::new(&mut p, 5, 8, 2, 16, 1, false);
    all_run(&mut g, &p);
    g.mark_params();
    let mut opt = AdamW::new(m.params(), F(0.01));
    opt.set_grad_clip_norm(F(1.0));
    let mut losses = vec![];
    for _ in 0..20 {
        let x = g.alloc_tensor(vec![1, 4], fs(&[0.0, 1.0, 2.0, 3.0]));
        let mut q = Program::new(g.tensors.len());
        let y = m.forward(&g, &mut q, Val { id: x, dims: Dims::Two(1, 4) });
        all_run(&mut g, &q);
        assert_eq!(g.tensors[y.id].shape, vec![1, 4, 5]);
        let o = g.reshape(y.id, vec![4, 5]);
        let z = done(o);
        assert!(g.can_cross_entropy(z, &[1, 2, 3, 4]));
        let o = g.cross_entropy(z, &[1, 2, 3, 4]);
        let l = done(o);
        losses.push(g.get_data(l)[0].0);
        g.backward(l);
        assert!(m.is_ready(&g));
        assert!(opt.can_step(&g, &vec![]));
        let work = opt.step(&mut g, &vec![]);
        assert!(work.scale.is_empty());
        assert!(work.params.is_empty());
        assert!(opt.last_grad_norm().0 > 0.0);
        opt.zero_grad(&mut g);
        g.clear_activations();
        for b in m.blocks.iter_mut() {
            b.attn.cached_scale = None;
            b.attn.cached_mask = None;
        }
    }
    assert!((losses[0] - (5.0f64).ln()).abs() < 0.5);
    assert!(losses[19] < losses[0] * 0.7, "{:?}", losses);
}

#[test]
fn optimizer_moves_against_the_gradient() {
    let mut g: Graph<F> = Graph::default();
    let w = g.alloc_tensor(vec![2], fs(&[1.0, -1.0]));
    *g.tensors[w].grad.as_cpu_mut() = fs(&[0.5, -0.5]);
    let mut opt = AdamW::new(vec![w], F(0.1));
    opt.init_moments(&g);
    opt.step(&mut g, &vec![]);
    assert_eq!(opt.t, 1);
    // The first step has the length of the rate, and the decay on top.
    let step = 0.1 * (0.5 / (0.5 + 1e-8) + 0.01);
    close(&plain(g.get_data(w)), &[1.0 - step, -1.0 + step]);
    close(&[opt.last_grad_scale().0], &[1.0]);
}

#[test]
fn weights_of_sixteen_bits_are_stepped_on_the_host() {
    let mut g: Graph<F> = Graph::default();
    let w = g.alloc_tensor(vec![2], fs(&[1.0, -1.0]));
    g.tensors[w].data = Storage::CpuBf16(vec![0x3f80, 0xbf80]);
    *g.tensors[w].grad.as_cpu_mut() = fs(&[0.5, -0.5]);
    let mut opt = AdamW::new(vec![w], F(0.5));
    opt.init_moments(&g);
    assert!(opt.can_step(&g, &vec![]));
    opt.step(&mut g, &vec![]);
    let step = 0.5 * (0.5 / (0.5 + 1e-8) + 0.01);
    match &g.tensors[w].data {
        Storage::CpuBf16(v) => {
            assert_eq!(v[0], F(1.0 - step).to_half());
            assert_eq!(v[1], F(-1.0 + step).to_half());
        },
        _ => panic!("the weights keep their form"),
    }
}

#[test]
fn gradients_are_clipped() {
    let mut g: Graph<F> = Graph::default();
    let a = g.alloc_tensor(vec![1], fs(&[0.0]));
    let b = g.alloc_tensor(vec![1], fs(&[0.0]));
    *g.tensors[a].grad.as_cpu_mut() = fs(&[3.0]);
    *g.tensors[b].grad.as_cpu_mut() = fs(&[4.0]);
    let opt = AdamW::new(vec![a, b], F(0.1));
    let (norm, scale, steps) = opt.clip_grad_norm(&mut g, F(1.0), &vec![]);
    close(&[norm.0], &[5.0]);
    assert!((scale.0 - 0.2).abs() < 1e-4);
    assert!(steps.is_empty());
    assert!((g.get_grad(a)[0].0 - 0.6).abs() < 1e-4);
    let (norm, scale, _) = opt.clip_grad_norm(&mut g, F(10.0), &vec![]);
    assert!((norm.0 - 1.0).abs() < 1e-3);
    assert_eq!(scale.0, 1.0);
}

#[test]
fn gradients_of_others_stay() {
    let mut g: Graph<F> = Graph::default();
    let a = g.alloc_tensor(vec![1], fs(&[0.0]));
    let b = g.alloc_tensor(vec![1], fs(&[0.0]));
    *g.tensors[a].grad.as_cpu_mut() = fs(&[3.0]);
    *g.tensors[b].grad.as_cpu_mut() = fs(&[4.0]);
    let opt = AdamW::new(vec![a], F(0.1));
    assert!(opt.zero_grad(&mut g).is_empty());
    assert_eq!(plain(g.get_grad(a)), vec![0.0]);
    assert_eq!(plain(g.get_grad(b)), vec![4.0]);
}

#[test]
fn calls_that_cannot_be_run_change_nothing() {
    let mut g: Graph<F> = Graph::default();
    let a = g.alloc_tensor(vec![2, 3], fs(&[0.0; 6]));
    assert!(!g.run_call(Call::Matmul { a, b: a }));
    assert!(!g.run_call(Call::Add { a, b: 17 }));
    assert!(!g.run_call(Call::Param { dims: Dims::One(3), init: Init::Ones, half: true }));
    assert_eq!(g.tensors.len(), 1);
    let mut p = Program::new(1);
    p.emit(Call::Silu { a });
    p.emit(Call::Matmul { a, b: a });
    assert_eq!(g.run(&p), 1);
}
