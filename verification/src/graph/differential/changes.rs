//! Changes of tensors, carried along a tape.
use crate::graph::backward::{grads_of, node_ok, rewound, seeded, shapes_of};
use crate::graph::differential::moves::{lemma_inner_zero, sum_adjoint};
use crate::graph::differential::ring::{exact, plus_zero, times_one, times_zero};
use crate::graph::differential::sums::{
    added, inner, inner_of_sum, same_sum, sum, sum_of_sums, sum_of_zeros,
};
use crate::graph::differential::tape::{
    follows, goes_back, gradients_give_change_of_loss, in_order, lemma_one_term, made_by,
    node_tangent, pairing, sized, way_back_is_transpose,
};
use crate::graph::Graph;
use crate::scalar::Scalar;
use crate::tape::{Op, TapeNode};
use crate::tensor::Tensor;
use vstd::prelude::*;

verus! {

/// The changes of all tensors after the first `n` operations, where those that no operation made
/// change by `d`.
pub open spec fn changed<T: Scalar>(
    nodes: Seq<TapeNode<T>>,
    shapes: Seq<Seq<usize>>,
    d: Seq<Seq<T>>,
    n: nat,
) -> Seq<Seq<T>>
    decreases n,
{
    if n == 0 {
        d
    } else {
        let before = changed(nodes, shapes, d, (n - 1) as nat);
        before.update(
            nodes[n - 1].output as int,
            node_tangent(nodes[n - 1], shapes, before),
        )
    }
}

/// A change has as many elements as the result that changes.
proof fn lemma_tangent_size<T: Scalar>(node: TapeNode<T>, ts: Seq<Tensor<T>>, d: Seq<Seq<T>>)
    requires
        exact::<T>(),
        node_ok(node, ts),
        sized(d, ts),
    ensures
        node_tangent(node, shapes_of(ts), d).len() == ts[node.output as int].grad.spec_len(),
{
    let a = node.inputs@[0] as int;
    let out = node.output as int;
    assert(d[a].len() == ts[a].grad.spec_len());
    assert(d[out].len() == ts[out].grad.spec_len());
    match node.op {
        Op::Sum { shape, dim } => {
            sum_adjoint(shape@, dim as int, d[out], d[a], d[a], d[a].len());
        },
        _ => {},
    }
}

/// A change follows from those of the operands alone.
proof fn lemma_tangent_local<T: Scalar>(
    node: TapeNode<T>,
    ts: Seq<Tensor<T>>,
    d: Seq<Seq<T>>,
    e: Seq<Seq<T>>,
)
    requires
        node_ok(node, ts),
        forall|i: usize| #[trigger] node.inputs@.contains(i) ==> d[i as int] == e[i as int],
        d[node.output as int].len() == e[node.output as int].len(),
    ensures
        node_tangent(node, shapes_of(ts), d) == node_tangent(node, shapes_of(ts), e),
{
    assert(node.inputs@.contains(node.inputs@[0]));
    if node.inputs@.len() >= 2 {
        assert(node.inputs@.contains(node.inputs@[1]));
    }
}

/// The changes keep their sizes, those of tensors that no operation made stay, and the others
/// follow.
pub proof fn changes_follow<T: Scalar>(
    nodes: Seq<TapeNode<T>>,
    ts: Seq<Tensor<T>>,
    d: Seq<Seq<T>>,
    n: nat,
)
    requires
        exact::<T>(),
        goes_back(nodes, ts, n),
        in_order(nodes, n),
        sized(d, ts),
    ensures
        sized(changed(nodes, shapes_of(ts), d, n), ts),
        follows(nodes, shapes_of(ts), changed(nodes, shapes_of(ts), d, n), n),
        forall|i: int|
            0 <= i < ts.len() && !#[trigger] made_by(nodes, n, i) ==> changed(
                nodes,
                shapes_of(ts),
                d,
                n,
            )[i] == d[i],
    decreases n,
{
    let shapes = shapes_of(ts);
    if n > 0 {
        let m = (n - 1) as nat;
        changes_follow(nodes, ts, d, m);
        let p = changed(nodes, shapes, d, m);
        let node = nodes[n - 1];
        let o = node.output as int;
        let e = changed(nodes, shapes, d, n);
        assert(node_ok(node, ts));
        lemma_tangent_size(node, ts, p);
        assert(o < ts.len());
        assert forall|i: int| 0 <= i < ts.len() implies (#[trigger] e[i]).len()
            == ts[i].grad.spec_len() by {
            assert(p[i].len() == ts[i].grad.spec_len());
        }
        assert forall|k: int| 0 <= k < n implies e[(#[trigger] nodes[k]).output as int]
            == node_tangent(nodes[k], shapes, e) by {
            assert(node_ok(nodes[k], ts));
            let w = nodes[k].output as int;
            assert(w < ts.len());
            assert(p[w].len() == ts[w].grad.spec_len() && e[w].len() == ts[w].grad.spec_len());
            assert forall|i: usize| #[trigger] nodes[k].inputs@.contains(i) implies p[i as int]
                == e[i as int] by {
                assert(i < nodes[k].output);
                if k < n - 1 {
                    assert(nodes[k].output < nodes[n - 1].output);
                }
            }
            lemma_tangent_local(nodes[k], ts, p, e);
            if k < n - 1 {
                assert(nodes[k].output < nodes[n - 1].output);
                assert(p[w] == node_tangent(nodes[k], shapes, p));
            }
        }
        assert forall|i: int| 0 <= i < ts.len() && !#[trigger] made_by(nodes, n, i) implies e[i]
            == d[i] by {
            if made_by(nodes, m, i) {
                let k = choose|k: int| 0 <= k < m && #[trigger] nodes[k].output == i;
                assert(nodes[k].output == i);
            }
            assert(nodes[n - 1].output != i);
        }
    }
}

/// Element `j` of tensor `id` changes by one, no other does.
pub open spec fn unit_change<T: Scalar>(ts: Seq<Tensor<T>>, id: int, j: int) -> Seq<Seq<T>> {
    Seq::new(
        ts.len(),
        |i: int|
            Seq::new(
                ts[i].grad.spec_len(),
                |k: int|
                    if i == id && k == j {
                        T::spec_one()
                    } else {
                        T::spec_zero()
                    },
            ),
    )
}

proof fn lemma_inner_unit<T: Scalar>(g: Seq<T>, d: Seq<T>, j: int, n: nat)
    requires
        exact::<T>(),
        forall|k: int|
            0 <= k < n ==> #[trigger] d[k] == (if k == j {
                T::spec_one()
            } else {
                T::spec_zero()
            }),
    ensures
        inner(g, d, n) == (if 0 <= j < n {
            g[j]
        } else {
            T::spec_zero()
        }),
    decreases n,
{
    if n > 0 {
        lemma_inner_unit(g, d, j, (n - 1) as nat);
        let k = n - 1;
        assert(d[k] == (if k == j {
            T::spec_one()
        } else {
            T::spec_zero()
        }));
        times_one(g[k]);
        times_zero(g[k]);
        plus_zero(g[k]);
        plus_zero(inner(g, d, (n - 1) as nat));
    }
}

/// An element of a gradient that the way back leaves, as a sum over the gradients that it started
/// from.
proof fn lemma_element<T: Scalar>(
    nodes: Seq<TapeNode<T>>,
    ts: Seq<Tensor<T>>,
    g: Seq<Seq<T>>,
    id: int,
    j: int,
)
    requires
        exact::<T>(),
        goes_back(nodes, ts, nodes.len()),
        in_order(nodes, nodes.len()),
        sized(g, ts),
        0 <= id < ts.len(),
        !made_by(nodes, nodes.len(), id),
        0 <= j < ts[id].grad.spec_len(),
    ensures
        rewound(nodes, shapes_of(ts), g, nodes.len())[id][j] == pairing(
            g,
            changed(nodes, shapes_of(ts), unit_change(ts, id, j), nodes.len()),
            |i: int| false,
        ),
{
    let n = nodes.len();
    let shapes = shapes_of(ts);
    let e = unit_change(ts, id, j);
    let d = changed(nodes, shapes, e, n);
    let r = rewound(nodes, shapes, g, n);
    assert(sized(e, ts));
    changes_follow(nodes, ts, e, n);
    way_back_is_transpose(nodes, ts, g, d);
    let made = |i: int| made_by(nodes, n, i);
    let f = |i: int|
        if made(i) {
            T::spec_zero()
        } else {
            inner(r[i], d[i], r[i].len())
        };
    let z = |i: int| T::spec_zero();
    assert forall|i: int| 0 <= i < r.len() && i != id implies #[trigger] f(i) == z(i) by {
        if !made_by(nodes, n, i) {
            assert(d[i] == e[i]);
            assert(r[i].len() == ts[i].grad.spec_len());
            lemma_inner_zero(r[i], d[i], r[i].len());
        }
    }
    assert(d[id] == e[id]);
    assert(r[id].len() == ts[id].grad.spec_len());
    lemma_inner_unit(r[id], d[id], j, r[id].len());
    plus_zero(r[id][j]);
    lemma_one_term(z, f, id, r[id][j], r.len());
    sum_of_zeros(z, r.len());
    assert(pairing(r, d, made) == sum(f, r.len()));
}

/// In exact arithmetic, where all gradients start from zero, element `j` of the gradient of a
/// tensor that no operation made is by how much the elements of the loss change together where
/// that element changes by one.
pub proof fn gradient_is_partial_derivative<T: Scalar>(
    g: Graph<T>,
    loss_id: usize,
    id: usize,
    j: int,
)
    requires
        exact::<T>(),
        loss_id < g.tensors@.len(),
        goes_back(g.tape.nodes@, g.tensors@, g.tape.nodes@.len()),
        in_order(g.tape.nodes@, g.tape.nodes@.len()),
        sized(grads_of(g.tensors@), g.tensors@),
        forall|i: int, k: int|
            0 <= i < g.tensors@.len() && 0 <= k < grads_of(g.tensors@)[i].len()
                ==> #[trigger] grads_of(g.tensors@)[i][k] == T::spec_zero(),
        id < g.tensors@.len(),
        !made_by(g.tape.nodes@, g.tape.nodes@.len(), id as int),
        0 <= j < g.tensors@[id as int].grad.spec_len(),
    ensures
        ({
            let nodes = g.tape.nodes@;
            let shapes = shapes_of(g.tensors@);
            let l = loss_id as int;
            let d = changed(nodes, shapes, unit_change(g.tensors@, id as int, j), nodes.len());
            rewound(nodes, shapes, seeded(g.tensors@, l), nodes.len())[id as int][j] == sum(
                |k: int| d[l][k],
                d[l].len(),
            )
        }),
{
    let ts = g.tensors@;
    let nodes = g.tape.nodes@;
    let n = nodes.len();
    let l = loss_id as int;
    let s = seeded(ts, l);
    let e = unit_change(ts, id as int, j);
    let d = changed(nodes, shapes_of(ts), e, n);
    assert(sized(e, ts));
    assert(sized(s, ts)) by {
        assert forall|i: int| 0 <= i < ts.len() implies (#[trigger] s[i]).len()
            == ts[i].grad.spec_len() by {
            assert(grads_of(ts)[i].len() == ts[i].grad.spec_len());
        }
    }
    lemma_element(nodes, ts, s, id as int, j);
    changes_follow(nodes, ts, e, n);
    gradients_give_change_of_loss(g, loss_id, d);
    way_back_is_transpose(nodes, ts, s, d);
}

/// Gradients added, tensor by tensor.
pub open spec fn all_added<T: Scalar>(g: Seq<Seq<T>>, h: Seq<Seq<T>>) -> Seq<Seq<T>> {
    Seq::new(g.len(), |i: int| added(g[i], h[i]))
}

/// In exact arithmetic the way back from a sum of gradients leaves the sum of what it leaves from
/// each of them.
pub proof fn gradients_add_up<T: Scalar>(
    nodes: Seq<TapeNode<T>>,
    ts: Seq<Tensor<T>>,
    g: Seq<Seq<T>>,
    h: Seq<Seq<T>>,
    id: int,
    j: int,
)
    requires
        exact::<T>(),
        goes_back(nodes, ts, nodes.len()),
        in_order(nodes, nodes.len()),
        sized(g, ts),
        sized(h, ts),
        0 <= id < ts.len(),
        !made_by(nodes, nodes.len(), id),
        0 <= j < ts[id].grad.spec_len(),
    ensures
        rewound(nodes, shapes_of(ts), all_added(g, h), nodes.len())[id][j] == rewound(
            nodes,
            shapes_of(ts),
            g,
            nodes.len(),
        )[id][j].spec_plus(rewound(nodes, shapes_of(ts), h, nodes.len())[id][j]),
{
    let n = nodes.len();
    let s = all_added(g, h);
    let d = changed(nodes, shapes_of(ts), unit_change(ts, id, j), n);
    assert forall|i: int| 0 <= i < ts.len() implies (#[trigger] s[i]).len()
        == ts[i].grad.spec_len() by {
        assert(g[i].len() == ts[i].grad.spec_len());
    }
    lemma_element(nodes, ts, g, id, j);
    lemma_element(nodes, ts, h, id, j);
    lemma_element(nodes, ts, s, id, j);
    let none = |i: int| false;
    let (fg, fh, fs) = (
        |i: int|
            if none(i) {
                T::spec_zero()
            } else {
                inner(g[i], d[i], g[i].len())
            },
        |i: int|
            if none(i) {
                T::spec_zero()
            } else {
                inner(h[i], d[i], h[i].len())
            },
        |i: int|
            if none(i) {
                T::spec_zero()
            } else {
                inner(s[i], d[i], s[i].len())
            },
    );
    let both = |i: int| fg(i).spec_plus(fh(i));
    assert forall|i: int| 0 <= i < ts.len() implies #[trigger] fs(i) == both(i) by {
        assert(g[i].len() == ts[i].grad.spec_len() && h[i].len() == ts[i].grad.spec_len());
        inner_of_sum(g[i], h[i], d[i], g[i].len());
    }
    same_sum(fs, both, ts.len());
    sum_of_sums(fg, fh, ts.len());
}

/// In exact arithmetic what was in the gradients of tensors that no operation made is kept, with
/// the new gradients added: steps can be taken after several ways back.
pub proof fn earlier_gradients_are_kept<T: Scalar>(
    nodes: Seq<TapeNode<T>>,
    ts: Seq<Tensor<T>>,
    g: Seq<Seq<T>>,
    h: Seq<Seq<T>>,
    id: int,
    j: int,
)
    requires
        exact::<T>(),
        goes_back(nodes, ts, nodes.len()),
        in_order(nodes, nodes.len()),
        sized(g, ts),
        sized(h, ts),
        forall|i: int, k: int|
            0 <= i < ts.len() && made_by(nodes, nodes.len(), i) && 0 <= k < h[i].len()
                ==> #[trigger] h[i][k] == T::spec_zero(),
        0 <= id < ts.len(),
        !made_by(nodes, nodes.len(), id),
        0 <= j < ts[id].grad.spec_len(),
    ensures
        rewound(nodes, shapes_of(ts), all_added(g, h), nodes.len())[id][j] == rewound(
            nodes,
            shapes_of(ts),
            g,
            nodes.len(),
        )[id][j].spec_plus(h[id][j]),
{
    let n = nodes.len();
    let e = unit_change(ts, id, j);
    let d = changed(nodes, shapes_of(ts), e, n);
    gradients_add_up(nodes, ts, g, h, id, j);
    lemma_element(nodes, ts, h, id, j);
    assert(sized(e, ts));
    changes_follow(nodes, ts, e, n);
    let none = |i: int| false;
    let f = |i: int|
        if none(i) {
            T::spec_zero()
        } else {
            inner(h[i], d[i], h[i].len())
        };
    let z = |i: int| T::spec_zero();
    assert forall|i: int| 0 <= i < h.len() && i != id implies #[trigger] f(i) == z(i) by {
        assert(h[i].len() == ts[i].grad.spec_len());
        if made_by(nodes, n, i) {
            lemma_inner_zero(d[i], h[i], h[i].len());
        } else {
            assert(d[i] == e[i]);
            lemma_inner_zero(h[i], d[i], h[i].len());
        }
    }
    assert(d[id] == e[id]);
    assert(h[id].len() == ts[id].grad.spec_len());
    lemma_inner_unit(h[id], d[id], j, h[id].len());
    plus_zero(h[id][j]);
    lemma_one_term(z, f, id, h[id][j], h.len());
    sum_of_zeros(z, h.len());
}

} // verus!
