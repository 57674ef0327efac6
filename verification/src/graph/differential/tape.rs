//! A tape as a whole.
use crate::graph::backward::{grads_of, node_grads, node_ok, rewound, seeded, shapes_of};
use crate::graph::differential::moves::{
    gather_adjoint, gathered_at, lemma_inner_zero, max_adjoint, picked_from, plain_adjoint,
    repeat_kv_adjoint, strided_adjoint, sum_adjoint, transpose_0213_adjoint,
};
use crate::graph::differential::pointwise::{
    pairwise_adjoint, pairwise_self_adjoint, pairwise_tangent, silu_adjoint, silu_tangent,
};
use crate::graph::differential::products::{
    bmm_adjoint, bmm_self_adjoint, bmm_tangent, matmul_left_adjoint, matmul_right_adjoint,
    matmul_tangent, matmul_tangent_parts,
};
use crate::graph::differential::ring::{
    exact, plus_group, plus_negated, plus_pairs, plus_swap, plus_zero, times_one, times_zero,
};
use crate::graph::differential::rows::{
    all_turn, loss_adjoint, loss_tangent, rms_adjoint, rms_self_adjoint, rms_tangent, rope_adjoint,
    softmax_adjoint, softmax_tangent,
};
use crate::graph::differential::sums::{inner, same_inner, same_sum, sum, sum_of_zeros};
use crate::graph::host::{host_result, recorded};
use crate::graph::laws::operation_changes_operands;
use crate::graph::ops::gqa::repeat_kv_out;
use crate::graph::ops::linear::{matmul_grad_a, matmul_grad_b, matmul_out};
use crate::graph::ops::reduction::sum_to;
use crate::graph::ops::transform::{
    gather_out, rope_out, strided_index, swapped_index, transpose_0213_out,
};
use crate::graph::Graph;
use crate::scalar::Scalar;
use crate::tape::{Op, TapeNode};
use crate::tensor::{product, Tensor};
use vstd::prelude::*;

verus! {

/// The first `n` elements, zeros behind the end.
pub open spec fn prolonged<T: Scalar>(d: Seq<T>, n: nat) -> Seq<T> {
    Seq::new(
        n,
        |o: int|
            if o < d.len() {
                d[o]
            } else {
                T::spec_zero()
            },
    )
}

/// How the result of a recorded operation changes where every tensor `i` changes by `d[i]`: what
/// the rules for derivatives give, from the values that were recorded.
pub open spec fn node_tangent<T: Scalar>(
    node: TapeNode<T>,
    shapes: Seq<Seq<usize>>,
    d: Seq<Seq<T>>,
) -> Seq<T> {
    let da = d[node.inputs@[0] as int];
    let db = d[node.inputs@[1] as int];
    let size = d[node.output as int].len();
    match node.op {
        Op::Pairwise { op, a_shape, b_shape, a_fwd, b_fwd } => pairwise_tangent(
            op,
            a_fwd@,
            a_shape@,
            b_fwd@,
            b_shape@,
            da,
            db,
        ),
        Op::Silu { a_fwd } => silu_tangent(a_fwd@, da),
        Op::Matmul { a_fwd, b_fwd, m, k, n } => matmul_tangent(
            a_fwd@,
            b_fwd@,
            da,
            db,
            m as int,
            k as int,
            n as int,
        ),
        Op::Bmm { a_fwd, b_fwd, dims } => bmm_tangent(a_fwd@, b_fwd@, da, db, dims),
        Op::Sum { shape, dim } => sum_to(da, shape@, dim as int, product(shape@)),
        Op::Max { at } => picked_from(da, |j: int| at@[j] as int, at@.len()),
        Op::Softmax { out_fwd, b: rows, n } => softmax_tangent(out_fwd@, da, n as int),
        Op::CrossEntropy { probs, targets, b: rows, c, weight } => loss_tangent(
            probs@,
            targets@,
            c as int,
            weight,
            da,
            da.len(),
        ),
        Op::Transpose0213 { b: blocks, s, h, d: w } => transpose_0213_out(
            da,
            s as int,
            h as int,
            w as int,
        ),
        Op::Gather { rows, hidden } => gather_out(da, rows@, hidden as int),
        Op::Reshape => prolonged(da, size),
        Op::Transpose { strides } => picked_from(
            da,
            |o: int| strided_index(shapes[node.output as int], strides@, o),
            size,
        ),
        Op::Rope { dims } => rope_out(da, dims),
        Op::RepeatKv { dims } => repeat_kv_out(da, dims),
        Op::RmsNorm { x_fwd, w_fwd, rrms, n, dim } => rms_tangent(
            x_fwd@,
            w_fwd@,
            rrms@,
            dim as int,
            da,
            db,
        ),
        Op::Device(_) => Seq::empty(),
    }
}

/// The operation leaves no element out of its way back: a rotation turns every element.
pub open spec fn hands_all_back<T: Scalar>(node: TapeNode<T>, n: nat) -> bool {
    node.op matches Op::Rope { dims } ==> all_turn(dims, n)
}

/// Gradients and changes of the same sizes as the gradients of the tensors.
pub open spec fn sized<T: Scalar>(g: Seq<Seq<T>>, ts: Seq<Tensor<T>>) -> bool {
    &&& g.len() == ts.len()
    &&& forall|i: int| 0 <= i < ts.len() ==> (#[trigger] g[i]).len() == ts[i].grad.spec_len()
}

/// The gradients against the changes, those of the tensors that `spent` names left out.
pub open spec fn pairing<T: Scalar>(
    g: Seq<Seq<T>>,
    d: Seq<Seq<T>>,
    spent: spec_fn(int) -> bool,
) -> T {
    sum(
        |i: int|
            if spent(i) {
                T::spec_zero()
            } else {
                inner(g[i], d[i], g[i].len())
            },
        g.len(),
    )
}

proof fn lemma_prolonged<T: Scalar>(og: Seq<T>, d: Seq<T>, all: nat, n: nat)
    requires
        exact::<T>(),
        d.len() <= n <= all,
    ensures
        inner(og, prolonged(d, all), n) == inner(og, d, d.len()),
    decreases n - d.len(),
{
    let p = prolonged(d, all);
    if n == d.len() {
        same_inner(og, p, og, d, n);
    } else {
        lemma_prolonged(og, d, all, (n - 1) as nat);
        times_zero(og[n - 1]);
        plus_zero(inner(og, p, (n - 1) as nat));
    }
}

/// The operation changes the gradient of one operand.
spec fn takes_one<T>(op: Op<T>) -> bool {
    !(op is Pairwise) && !(op is Matmul) && !(op is Bmm) && !(op is RmsNorm) && !(op is Device)
}

/// An operation with one operand.
proof fn lemma_one<T: Scalar>(
    node: TapeNode<T>,
    ts: Seq<Tensor<T>>,
    g: Seq<Seq<T>>,
    d: Seq<Seq<T>>,
)
    requires
        exact::<T>(),
        node_ok(node, ts),
        takes_one(node.op),
        sized(g, ts),
        sized(d, ts),
        hands_all_back(node, g[node.inputs@[0] as int].len()),
    ensures
        ({
            let a = node.inputs@[0] as int;
            let out = node.output as int;
            let r = node_grads(node, shapes_of(ts), g);
            &&& r == g.update(a, r[a])
            &&& r[a].len() == g[a].len()
            &&& inner(r[a], d[a], g[a].len()) == inner(g[a], d[a], g[a].len()).spec_plus(
                inner(g[out], node_tangent(node, shapes_of(ts), d), g[out].len()),
            )
        }),
{
    let a = node.inputs@[0] as int;
    let out = node.output as int;
    let (og, ga, da) = (g[out], g[a], d[a]);
    assert(ga.len() == ts[a].grad.spec_len() && da.len() == ts[a].grad.spec_len());
    assert(og.len() == ts[out].grad.spec_len());
    assert(d[out].len() == og.len());
    let r = node_grads(node, shapes_of(ts), g);
    assert(r =~= g.update(a, r[a]));
    match node.op {
        Op::Silu { a_fwd } => {
            silu_adjoint(a_fwd@, og, ga, da, ga.len());
        },
        Op::Sum { shape, dim } => {
            sum_adjoint(shape@, dim as int, og, ga, da, ga.len());
        },
        Op::Max { at } => {
            max_adjoint(at@, og, ga, da);
        },
        Op::Softmax { out_fwd, b: rows, n } => {
            softmax_adjoint(out_fwd@, og, ga, da, rows, n);
        },
        Op::CrossEntropy { probs, targets, b: rows, c, weight } => {
            loss_adjoint(probs@, targets@, c as int, weight, og, ga, da);
        },
        Op::Transpose0213 { b: blocks, s, h, d: w } => {
            transpose_0213_adjoint(og, ga, da, blocks, s, h, w);
            assert(transpose_0213_out(da, s as int, h as int, w as int) =~= picked_from(
                da,
                |o: int| swapped_index(s as int, h as int, w as int, o),
                og.len(),
            ));
        },
        Op::Gather { rows, hidden } => {
            gather_adjoint(rows@, hidden, og, ga, da);
            assert(gather_out(da, rows@, hidden as int) =~= picked_from(
                da,
                gathered_at(rows@, hidden as int),
                og.len(),
            ));
        },
        Op::Reshape => {
            plain_adjoint(og, ga, da, ga.len());
            lemma_prolonged(og, da, og.len(), og.len());
        },
        Op::Transpose { strides } => {
            strided_adjoint(shapes_of(ts)[out], strides@, og, ga, da);
        },
        Op::Rope { dims } => {
            if ga.len() > 0 {
                assert(dims.turns(ga.len() - 1));
            }
            rope_adjoint(dims, og, ga, da, ga.len());
        },
        Op::RepeatKv { dims } => {
            repeat_kv_adjoint(dims, og, ga, da);
            assert(repeat_kv_out(da, dims) =~= picked_from(
                da,
                |o: int| dims.source(o),
                og.len(),
            ));
        },
        _ => {},
    }
}

/// A matrix product.
proof fn lemma_matmul<T: Scalar>(
    g: Seq<Seq<T>>,
    d: Seq<Seq<T>>,
    a: int,
    b: int,
    og: Seq<T>,
    x: Seq<T>,
    y: Seq<T>,
    m: usize,
    k: usize,
    n: usize,
)
    requires
        exact::<T>(),
        0 <= a < g.len(),
        0 <= b < g.len(),
        g.len() == d.len(),
        g[a].len() == m * k,
        g[b].len() == k * n,
        og.len() == m * n,
    ensures
        ({
            let h = g.update(a, matmul_grad_a(g[a], og, y, m as int, k as int, n as int));
            let r = h.update(b, matmul_grad_b(h[b], og, x, m as int, k as int, n as int));
            let t = inner(
                og,
                matmul_tangent(x, y, d[a], d[b], m as int, k as int, n as int),
                og.len(),
            );
            &&& r[a].len() == g[a].len()
            &&& r[b].len() == g[b].len()
            &&& a == b ==> inner(r[a], d[a], g[a].len()) == inner(g[a], d[a], g[a].len()).spec_plus(
                t,
            )
            &&& a != b ==> inner(r[a], d[a], g[a].len()).spec_plus(
                inner(r[b], d[b], g[b].len()),
            ) == inner(g[a], d[a], g[a].len()).spec_plus(
                inner(g[b], d[b], g[b].len()),
            ).spec_plus(t)
        }),
{
    let h = g.update(a, matmul_grad_a(g[a], og, y, m as int, k as int, n as int));
    let u = inner(og, matmul_out(d[a], y, m as int, k as int, n as int), og.len());
    let v = inner(og, matmul_out(x, d[b], m as int, k as int, n as int), og.len());
    matmul_left_adjoint(g[a], og, y, d[a], m, k, n);
    matmul_right_adjoint(h[b], og, x, d[b], m, k, n);
    matmul_tangent_parts(og, x, y, d[a], d[b], m, k, n);
    let (p, q) = (inner(g[a], d[a], g[a].len()), inner(g[b], d[b], g[b].len()));
    if a == b {
        plus_group(p, u, v);
    } else {
        plus_pairs(p, u, q, v);
    }
}

/// An operation with two operands.
proof fn lemma_two<T: Scalar>(
    node: TapeNode<T>,
    ts: Seq<Tensor<T>>,
    g: Seq<Seq<T>>,
    d: Seq<Seq<T>>,
)
    requires
        exact::<T>(),
        node_ok(node, ts),
        !takes_one(node.op),
        sized(g, ts),
        sized(d, ts),
    ensures
        ({
            let (a, b) = (node.inputs@[0] as int, node.inputs@[1] as int);
            let out = node.output as int;
            let r = node_grads(node, shapes_of(ts), g);
            let t = inner(g[out], node_tangent(node, shapes_of(ts), d), g[out].len());
            &&& node.inputs@.len() == 2
            &&& r == g.update(a, r[a]).update(b, r[b])
            &&& r[a].len() == g[a].len()
            &&& r[b].len() == g[b].len()
            &&& a == b ==> inner(r[a], d[a], g[a].len()) == inner(g[a], d[a], g[a].len()).spec_plus(
                t,
            )
            &&& a != b ==> inner(r[a], d[a], g[a].len()).spec_plus(
                inner(r[b], d[b], g[b].len()),
            ) == inner(g[a], d[a], g[a].len()).spec_plus(
                inner(g[b], d[b], g[b].len()),
            ).spec_plus(t)
        }),
{
    let (a, b) = (node.inputs@[0] as int, node.inputs@[1] as int);
    let out = node.output as int;
    let (og, ga, gb, da, db) = (g[out], g[a], g[b], d[a], d[b]);
    assert(ga.len() == ts[a].grad.spec_len() && da.len() == ts[a].grad.spec_len());
    assert(gb.len() == ts[b].grad.spec_len() && db.len() == ts[b].grad.spec_len());
    assert(og.len() == ts[out].grad.spec_len());
    let r = node_grads(node, shapes_of(ts), g);
    assert(r =~= g.update(a, r[a]).update(b, r[b]));
    match node.op {
        Op::Pairwise { op, a_shape, b_shape, a_fwd, b_fwd } => {
            if a == b {
                pairwise_self_adjoint(op, a_fwd@, b_fwd@, a_shape@, og, ga, da, og.len());
            } else {
                pairwise_adjoint(
                    op,
                    a_fwd@,
                    a_shape@,
                    b_fwd@,
                    b_shape@,
                    og,
                    (ga, gb),
                    da,
                    db,
                    og.len(),
                );
            }
        },
        Op::Matmul { a_fwd, b_fwd, m, k, n } => {
            lemma_matmul(g, d, a, b, og, a_fwd@, b_fwd@, m, k, n);
        },
        Op::Bmm { a_fwd, b_fwd, dims } => {
            let t = bmm_tangent(a_fwd@, b_fwd@, da, db, dims);
            plus_zero(T::spec_zero());
            times_zero(og[og.len() as int]);
            plus_zero(inner(og, t, og.len()));
            if a == b {
                bmm_self_adjoint(a_fwd@, b_fwd@, og, dims, ga, da, og.len(), 0);
            } else {
                bmm_adjoint(a_fwd@, b_fwd@, og, dims, (ga, gb), da, db, og.len(), 0);
            }
        },
        Op::RmsNorm { x_fwd, w_fwd, rrms, n, dim } => {
            if a == b {
                rms_self_adjoint(og, x_fwd@, w_fwd@, rrms@, ga, da, n, dim);
            } else {
                rms_adjoint(og, x_fwd@, w_fwd@, rrms@, (ga, gb), da, db, n, dim);
            }
        },
        _ => {},
    }
}

/// A sum is the sum without one of its terms, and that term.
proof fn lemma_sum_without<T: Scalar>(f: spec_fn(int) -> T, a: int, n: nat)
    requires
        exact::<T>(),
        0 <= a < n,
    ensures
        sum(f, n) == sum(
            |i: int|
                if i == a {
                    T::spec_zero()
                } else {
                    f(i)
                },
            n,
        ).spec_plus(f(a)),
    decreases n,
{
    let g = |i: int|
        if i == a {
            T::spec_zero()
        } else {
            f(i)
        };
    let m = (n - 1) as nat;
    if a == n - 1 {
        same_sum(f, g, m);
        plus_zero(sum(g, m));
    } else {
        lemma_sum_without(f, a, m);
        let (s, x, y) = (sum(g, m), f(a), f(n - 1));
        plus_group(s, x, y);
        plus_swap(x, y);
        plus_group(s, y, x);
    }
}

/// Where two sums differ in one term by `y`, they differ by `y`.
pub proof fn lemma_one_term<T: Scalar>(
    f: spec_fn(int) -> T,
    h: spec_fn(int) -> T,
    a: int,
    y: T,
    n: nat,
)
    requires
        exact::<T>(),
        0 <= a < n,
        forall|i: int| 0 <= i < n && i != a ==> #[trigger] h(i) == f(i),
        h(a) == f(a).spec_plus(y),
    ensures
        sum(h, n) == sum(f, n).spec_plus(y),
{
    lemma_sum_without(f, a, n);
    lemma_sum_without(h, a, n);
    let f0 = |i: int|
        if i == a {
            T::spec_zero()
        } else {
            f(i)
        };
    let h0 = |i: int|
        if i == a {
            T::spec_zero()
        } else {
            h(i)
        };
    assert forall|i: int| 0 <= i < n implies #[trigger] h0(i) == f0(i) by {
        if i != a {
            assert(h(i) == f(i));
        }
    }
    same_sum(h0, f0, n);
    plus_group(sum(f0, n), f(a), y);
}

/// Where two sums differ in two terms by `y` together, they differ by `y`.
proof fn lemma_two_terms<T: Scalar>(
    f: spec_fn(int) -> T,
    h: spec_fn(int) -> T,
    a: int,
    b: int,
    y: T,
    n: nat,
)
    requires
        exact::<T>(),
        0 <= a < n,
        0 <= b < n,
        a != b,
        forall|i: int| 0 <= i < n && i != a && i != b ==> #[trigger] h(i) == f(i),
        h(a).spec_plus(h(b)) == f(a).spec_plus(f(b)).spec_plus(y),
    ensures
        sum(h, n) == sum(f, n).spec_plus(y),
{
    // both terms gathered at `a`
    let f1 = |i: int|
        if i == a {
            f(a).spec_plus(f(b))
        } else if i == b {
            T::spec_zero()
        } else {
            f(i)
        };
    let h1 = |i: int|
        if i == a {
            h(a).spec_plus(h(b))
        } else if i == b {
            T::spec_zero()
        } else {
            h(i)
        };
    lemma_gathered(f, f1, a, b, n);
    lemma_gathered(h, h1, a, b, n);
    assert forall|i: int| 0 <= i < n && i != a implies #[trigger] h1(i) == f1(i) by {
        if i != b {
            assert(h(i) == f(i));
        }
    }
    lemma_one_term(f1, h1, a, y, n);
}

/// Moving a term to another does not change the sum.
proof fn lemma_gathered<T: Scalar>(
    f: spec_fn(int) -> T,
    f1: spec_fn(int) -> T,
    a: int,
    b: int,
    n: nat,
)
    requires
        exact::<T>(),
        0 <= a < n,
        0 <= b < n,
        a != b,
        f1(a) == f(a).spec_plus(f(b)),
        f1(b) == T::spec_zero(),
        forall|i: int| 0 <= i < n && i != a && i != b ==> #[trigger] f1(i) == f(i),
    ensures
        sum(f1, n) == sum(f, n),
{
    let f0 = |i: int|
        if i == b {
            T::spec_zero()
        } else {
            f(i)
        };
    lemma_sum_without(f, b, n);
    assert forall|i: int| 0 <= i < n && i != a implies #[trigger] f1(i) == f0(i) by {
        if i != b {
            assert(f1(i) == f(i));
        }
    }
    lemma_one_term(f0, f1, a, f(b), n);
}

/// What one recorded operation hands back, against any changes of the tensors, is the gradient of
/// its result against the change of the result.
pub proof fn operation_is_transpose<T: Scalar>(
    node: TapeNode<T>,
    ts: Seq<Tensor<T>>,
    g: Seq<Seq<T>>,
    d: Seq<Seq<T>>,
    spent: spec_fn(int) -> bool,
)
    requires
        exact::<T>(),
        node_ok(node, ts),
        sized(g, ts),
        sized(d, ts),
        hands_all_back(node, g[node.inputs@[0] as int].len()),
        forall|i: usize| #[trigger] node.inputs@.contains(i) ==> !spent(i as int),
    ensures
        sized(node_grads(node, shapes_of(ts), g), ts),
        pairing(node_grads(node, shapes_of(ts), g), d, spent) == pairing(g, d, spent).spec_plus(
            inner(
                g[node.output as int],
                node_tangent(node, shapes_of(ts), d),
                g[node.output as int].len(),
            ),
        ),
{
    let a = node.inputs@[0] as int;
    let out = node.output as int;
    let r = node_grads(node, shapes_of(ts), g);
    let t = inner(g[out], node_tangent(node, shapes_of(ts), d), g[out].len());
    let f = |i: int|
        if spent(i) {
            T::spec_zero()
        } else {
            inner(g[i], d[i], g[i].len())
        };
    let h = |i: int|
        if spent(i) {
            T::spec_zero()
        } else {
            inner(r[i], d[i], r[i].len())
        };
    assert(node.inputs@.contains(node.inputs@[0]));
    assert(!spent(a));
    if takes_one(node.op) {
        lemma_one(node, ts, g, d);
        lemma_one_term(f, h, a, t, g.len());
    } else {
        let b = node.inputs@[1] as int;
        lemma_two(node, ts, g, d);
        assert(node.inputs@.contains(node.inputs@[1]));
        assert(!spent(b));
        if a == b {
            lemma_one_term(f, h, a, t, g.len());
        } else {
            lemma_two_terms(f, h, a, b, t, g.len());
        }
    }
}

/// Tensors come before what is made of them, and no tensor is made twice.
pub open spec fn in_order<T: Scalar>(nodes: Seq<TapeNode<T>>, n: nat) -> bool {
    &&& forall|i: int, id: usize|
        0 <= i < n && #[trigger] nodes[i].inputs@.contains(id) ==> id < nodes[i].output
    &&& forall|i: int, j: int|
        0 <= i < j < n ==> #[trigger] nodes[i].output < #[trigger] nodes[j].output
}

/// Tensor `id` is the result of one of the first `n` operations.
pub open spec fn made_by<T: Scalar>(nodes: Seq<TapeNode<T>>, n: nat, id: int) -> bool {
    exists|i: int| 0 <= i < n && #[trigger] nodes[i].output == id
}

/// The changes of the results of the first `n` operations follow from those of their operands.
pub open spec fn follows<T: Scalar>(
    nodes: Seq<TapeNode<T>>,
    shapes: Seq<Seq<usize>>,
    d: Seq<Seq<T>>,
    n: nat,
) -> bool {
    forall|i: int|
        0 <= i < n ==> d[(#[trigger] nodes[i]).output as int] == node_tangent(nodes[i], shapes, d)
}

/// The first `n` operations can be gone back through, and leave no element out.
pub open spec fn goes_back<T: Scalar>(
    nodes: Seq<TapeNode<T>>,
    ts: Seq<Tensor<T>>,
    n: nat,
) -> bool {
    forall|i: int|
        0 <= i < n ==> {
            &&& node_ok(#[trigger] nodes[i], ts)
            &&& hands_all_back(nodes[i], ts[nodes[i].inputs@[0] as int].grad.spec_len())
        }
}

proof fn lemma_cancel<T: Scalar>(x: T, y: T, e: T)
    requires
        exact::<T>(),
        x.spec_plus(e) == y.spec_plus(e),
    ensures
        x == y,
{
    let n = e.spec_negated();
    plus_negated(e);
    plus_group(x, e, n);
    plus_group(y, e, n);
    plus_zero(x);
    plus_zero(y);
}

proof fn lemma_way_back<T: Scalar>(
    nodes: Seq<TapeNode<T>>,
    ts: Seq<Tensor<T>>,
    g: Seq<Seq<T>>,
    d: Seq<Seq<T>>,
    n: nat,
    spent: spec_fn(int) -> bool,
)
    requires
        exact::<T>(),
        n <= nodes.len(),
        goes_back(nodes, ts, n),
        in_order(nodes, n),
        follows(nodes, shapes_of(ts), d, n),
        sized(g, ts),
        sized(d, ts),
        forall|i: int, k: int|
            0 <= k < n && #[trigger] spent(i) ==> i > (#[trigger] nodes[k]).output,
    ensures
        sized(rewound(nodes, shapes_of(ts), g, n), ts),
        pairing(
            rewound(nodes, shapes_of(ts), g, n),
            d,
            |i: int| spent(i) || made_by(nodes, n, i),
        ) == pairing(g, d, spent),
    decreases n,
{
    let shapes = shapes_of(ts);
    let all = |i: int| spent(i) || made_by(nodes, n, i);
    if n == 0 {
        lemma_same_pairing(g, d, all, spent);
    } else {
        let m = (n - 1) as nat;
        let node = nodes[n - 1];
        let o = node.output as int;
        assert(node_ok(node, ts));
        assert(g[node.inputs@[0] as int].len()
            == ts[node.inputs@[0] as int].grad.spec_len());
        assert forall|i: usize| #[trigger] node.inputs@.contains(i) implies !spent(i as int) by {
            assert(nodes[n - 1].inputs@.contains(i));
            if spent(i as int) {
                assert(i > nodes[n - 1].output);
            }
        }
        operation_is_transpose(node, ts, g, d, spent);
        let r = node_grads(node, shapes, g);
        assert(!node.inputs@.contains(node.output)) by {
            if nodes[n - 1].inputs@.contains(node.output) {
                assert(node.output < nodes[n - 1].output);
            }
        }
        operation_changes_operands(node, ts, shapes, g, node.output);
        let spent2 = |i: int| spent(i) || i == o;
        let e = inner(g[o], d[o], g[o].len());
        assert(!spent(o)) by {
            if spent(o) {
                assert(o > nodes[n - 1].output);
            }
        }
        lemma_spend(r, d, spent, o);
        assert(pairing(r, d, spent) == pairing(r, d, spent2).spec_plus(e));
        lemma_cancel(pairing(r, d, spent2), pairing(g, d, spent), e);
        assert forall|i: int, k: int| 0 <= k < m && #[trigger] spent2(i) implies i
            > (#[trigger] nodes[k]).output by {
            if i == o {
                assert(nodes[k].output < nodes[n - 1].output);
            } else {
                assert(spent(i));
            }
        }
        lemma_way_back(nodes, ts, r, d, m, spent2);
        let all2 = |i: int| spent2(i) || made_by(nodes, m, i);
        assert forall|i: int| 0 <= i < g.len() implies #[trigger] all2(i) == all(i) by {
            if made_by(nodes, n, i) {
                let k = choose|k: int| 0 <= k < n && #[trigger] nodes[k].output == i;
                if k < m {
                    assert(made_by(nodes, m, i));
                }
            }
            if made_by(nodes, m, i) {
                let k = choose|k: int| 0 <= k < m && #[trigger] nodes[k].output == i;
                assert(nodes[k].output == i);
            }
            if i == o {
                assert(nodes[n - 1].output == i);
            }
        }
        lemma_same_pairing(rewound(nodes, shapes, g, n), d, all2, all);
    }
}

proof fn lemma_same_pairing<T: Scalar>(
    g: Seq<Seq<T>>,
    d: Seq<Seq<T>>,
    x: spec_fn(int) -> bool,
    y: spec_fn(int) -> bool,
)
    requires
        forall|i: int| 0 <= i < g.len() ==> #[trigger] x(i) == y(i),
    ensures
        pairing(g, d, x) == pairing(g, d, y),
{
    let f = |i: int|
        if x(i) {
            T::spec_zero()
        } else {
            inner(g[i], d[i], g[i].len())
        };
    let h = |i: int|
        if y(i) {
            T::spec_zero()
        } else {
            inner(g[i], d[i], g[i].len())
        };
    assert forall|i: int| 0 <= i < g.len() implies #[trigger] f(i) == h(i) by {
        assert(x(i) == y(i));
    }
    same_sum(f, h, g.len());
}

proof fn lemma_spend<T: Scalar>(
    g: Seq<Seq<T>>,
    d: Seq<Seq<T>>,
    spent: spec_fn(int) -> bool,
    o: int,
)
    requires
        exact::<T>(),
        0 <= o < g.len(),
        !spent(o),
    ensures
        pairing(g, d, spent) == pairing(g, d, |i: int| spent(i) || i == o).spec_plus(
            inner(g[o], d[o], g[o].len()),
        ),
{
    let spent2 = |i: int| spent(i) || i == o;
    let f = |i: int|
        if spent(i) {
            T::spec_zero()
        } else {
            inner(g[i], d[i], g[i].len())
        };
    let h = |i: int|
        if spent2(i) {
            T::spec_zero()
        } else {
            inner(g[i], d[i], g[i].len())
        };
    plus_zero(f(o));
    lemma_one_term(h, f, o, f(o), g.len());
}

/// In exact arithmetic the way back is the transpose of the way forth: whatever gradients it starts
/// from, and however the tensors change, the gradients that it leaves at the tensors that no
/// operation made, against their changes, are the gradients that it started from against the
/// changes of all tensors.
pub proof fn way_back_is_transpose<T: Scalar>(
    nodes: Seq<TapeNode<T>>,
    ts: Seq<Tensor<T>>,
    g: Seq<Seq<T>>,
    d: Seq<Seq<T>>,
)
    requires
        exact::<T>(),
        goes_back(nodes, ts, nodes.len()),
        in_order(nodes, nodes.len()),
        follows(nodes, shapes_of(ts), d, nodes.len()),
        sized(g, ts),
        sized(d, ts),
    ensures
        sized(rewound(nodes, shapes_of(ts), g, nodes.len()), ts),
        pairing(
            rewound(nodes, shapes_of(ts), g, nodes.len()),
            d,
            |i: int| made_by(nodes, nodes.len(), i),
        ) == pairing(g, d, |i: int| false),
{
    let none = |i: int| false;
    let n = nodes.len();
    lemma_way_back(nodes, ts, g, d, n, none);
    let r = rewound(nodes, shapes_of(ts), g, n);
    lemma_same_pairing(
        r,
        d,
        |i: int| none(i) || made_by(nodes, n, i),
        |i: int| made_by(nodes, n, i),
    );
}

/// In exact arithmetic, gradients that start from zero give the change of the loss: against any
/// changes of the tensors that no operation made, the gradients that the way back leaves there sum
/// up to the change of the elements of the loss.
pub proof fn gradients_give_change_of_loss<T: Scalar>(g: Graph<T>, loss_id: usize, d: Seq<Seq<T>>)
    requires
        exact::<T>(),
        loss_id < g.tensors@.len(),
        goes_back(g.tape.nodes@, g.tensors@, g.tape.nodes@.len()),
        in_order(g.tape.nodes@, g.tape.nodes@.len()),
        follows(g.tape.nodes@, shapes_of(g.tensors@), d, g.tape.nodes@.len()),
        sized(grads_of(g.tensors@), g.tensors@),
        sized(d, g.tensors@),
        forall|i: int, j: int|
            0 <= i < g.tensors@.len() && 0 <= j < grads_of(g.tensors@)[i].len()
                ==> #[trigger] grads_of(g.tensors@)[i][j] == T::spec_zero(),
    ensures
        pairing(
            rewound(
                g.tape.nodes@,
                shapes_of(g.tensors@),
                seeded(g.tensors@, loss_id as int),
                g.tape.nodes@.len(),
            ),
            d,
            |i: int| made_by(g.tape.nodes@, g.tape.nodes@.len(), i),
        ) == sum(|j: int| d[loss_id as int][j], d[loss_id as int].len()),
{
    let ts = g.tensors@;
    let l = loss_id as int;
    let s = seeded(ts, l);
    let z = grads_of(ts);
    assert(sized(s, ts)) by {
        assert forall|i: int| 0 <= i < ts.len() implies (#[trigger] s[i]).len()
            == ts[i].grad.spec_len() by {
            assert(z[i].len() == ts[i].grad.spec_len());
        }
    }
    way_back_is_transpose(g.tape.nodes@, ts, s, d);
    let none = |i: int| false;
    let one = |i: int| false || i == l;
    lemma_spend(s, d, none, l);
    let f = |i: int|
        if one(i) {
            T::spec_zero()
        } else {
            inner(s[i], d[i], s[i].len())
        };
    assert forall|i: int| 0 <= i < s.len() implies #[trigger] f(i) == T::spec_zero() by {
        if i != l {
            assert forall|j: int| 0 <= j < s[i].len() implies #[trigger] s[i][j]
                == T::spec_zero() by {
                assert(z[i][j] == T::spec_zero());
            }
            lemma_inner_zero(d[i], s[i], s[i].len());
        }
    }
    sum_of_zeros(f, s.len());
    lemma_same_pairing(s, d, |i: int| none(i) || i == l, one);
    lemma_inner_ones(s[l], d[l], s[l].len());
    plus_zero(inner(s[l], d[l], s[l].len()));
    assert(d[l].len() == ts[l].grad.spec_len());
}

proof fn lemma_inner_ones<T: Scalar>(x: Seq<T>, d: Seq<T>, n: nat)
    requires
        exact::<T>(),
        forall|j: int| 0 <= j < n ==> #[trigger] x[j] == T::spec_one(),
    ensures
        inner(x, d, n) == sum(|j: int| d[j], n),
    decreases n,
{
    if n > 0 {
        lemma_inner_ones(x, d, (n - 1) as nat);
        assert(x[n - 1] == T::spec_one());
        times_one(d[n - 1]);
    }
}

/// An operation that has been recorded leaves the tape in order.
pub proof fn recording_keeps_order<T: Scalar>(
    was: Graph<T>,
    now: Graph<T>,
    inputs: Seq<usize>,
    id: usize,
    shape: Seq<usize>,
    values: Seq<T>,
    op: spec_fn(Op<T>) -> bool,
)
    requires
        host_result(was, now, id, shape, values),
        recorded(was, now, inputs, id, op),
        forall|i: usize| #[trigger] inputs.contains(i) ==> i < was.tensors@.len(),
        in_order(was.tape.nodes@, was.tape.nodes@.len()),
        forall|i: int|
            0 <= i < was.tape.nodes@.len() ==> (#[trigger] was.tape.nodes@[i]).output
                < was.tensors@.len(),
    ensures
        in_order(now.tape.nodes@, now.tape.nodes@.len()),
        forall|i: int|
            0 <= i < now.tape.nodes@.len() ==> (#[trigger] now.tape.nodes@[i]).output
                < now.tensors@.len(),
{
    let (x, y) = (was.tape.nodes@, now.tape.nodes@);
    assert forall|i: int| 0 <= i < x.len() implies #[trigger] y[i] == x[i] by {
        if !was.no_grad {
            assert(y.take(x.len() as int)[i] == x[i]);
        }
    }
    assert forall|i: int, k: usize|
        0 <= i < y.len() && #[trigger] y[i].inputs@.contains(k) implies k < y[i].output by {
        if i < x.len() {
            assert(y[i] == x[i]);
            assert(x[i].inputs@.contains(k));
        } else {
            assert(inputs.contains(k));
        }
    }
    assert forall|i: int, j: int| 0 <= i < j < y.len() implies #[trigger] y[i].output
        < #[trigger] y[j].output by {
        assert(y[i] == x[i]);
        if j < x.len() {
            assert(y[j] == x[j]);
            assert(x[i].output < x[j].output);
        }
    }
}

} // verus!
