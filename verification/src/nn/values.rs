//! What tensors hold after the calls of a program.
use crate::graph::host::{
    bmm_dims, flash_dims, matmul_shapes_ok, matmul_sizes, repeat_dims, repeat_shape, rope_dims,
    rope_ok, swap_shape, swap_sizes,
};
use crate::graph::ops::attention::flash_out;
use crate::graph::ops::elementwise::{broadcast_ok, pairwise_out, silu_out, Pairwise};
use crate::graph::ops::gqa::repeat_kv_out;
use crate::graph::ops::linear::{bmm_out, matmul_out};
use crate::graph::ops::normalization::{all_rrms, rms_out};
use crate::graph::ops::reduction::softmax_out;
use crate::graph::ops::transform::{as_rows, gather_out, rope_out, transpose_0213_out};
use crate::graph::Graph;
use crate::nn::program::{emit, init_values, makes, mask_values, Call, Draft};
use crate::nn::run::{call_done, call_ok, carried_out, mask_shape};
use crate::scalar::Scalar;
use crate::tensor::{broadcast_shape, product};
use vstd::prelude::*;

verus! {

/// The shape and the elements of a tensor.
pub struct Held<T> {
    pub shape: Seq<usize>,
    pub data: Seq<T>,
}

/// What the tensors of a graph on the host hold.
pub open spec fn held<T: Scalar>(g: Graph<T>) -> Seq<Held<T>> {
    Seq::new(
        g.tensors@.len(),
        |i: int| Held { shape: g.tensors@[i].shape@, data: g.tensors@[i].data->Cpu_0@ },
    )
}

/// The tensor that a call makes.
pub open spec fn made_by<T: Scalar>(s: Seq<Held<T>>, c: Call<T>) -> Held<T> {
    match c {
        Call::Param { dims, init, half } => Held {
            shape: dims.shape(),
            data: init_values::<T>(init, product(dims.shape())),
        },
        Call::Constant { dims, value, tag, pooled } => Held {
            shape: dims.shape(),
            data: Seq::new(product(dims.shape()), |i: int| value),
        },
        Call::Mask { seq, half } => Held { shape: mask_shape(seq), data: mask_values::<T>(seq) },
        Call::Gather { w, x } => {
            let (w, x) = (s[w as int], s[x as int]);
            Held {
                shape: x.shape.push(w.shape[1]),
                data: gather_out(w.data, as_rows(x.data), w.shape[1] as int),
            }
        },
        Call::Matmul { a, b } => product_of(s[a as int], s[b as int]),
        Call::MatmulBf16 { a, b } => product_of(s[a as int], s[b as int]),
        Call::Add { a, b } => pair_of(Pairwise::Add, s[a as int], s[b as int]),
        Call::Mul { a, b } => pair_of(Pairwise::Mul, s[a as int], s[b as int]),
        Call::Silu { a } => Held { shape: s[a as int].shape, data: silu_out(s[a as int].data) },
        Call::RmsNorm { x, w, eps } => {
            let (x, w) = (s[x as int], s[w as int]);
            let dim = x.shape.last() as int;
            let n = x.data.len() as int / dim;
            Held {
                shape: x.shape,
                data: rms_out(x.data, w.data, dim, all_rrms(x.data, dim, eps, n)),
            }
        },
        Call::Bmm { a, b, trans_b } => {
            let (a, b) = (s[a as int], s[b as int]);
            let d = bmm_dims(a.shape, b.shape, trans_b);
            Held { shape: seq![d.batch, d.m, d.n], data: bmm_out(a.data, b.data, d) }
        },
        Call::Softmax { a } => {
            let a = s[a as int];
            let n = a.shape.last() as int;
            Held { shape: a.shape, data: softmax_out(a.data, a.data.len() as int / n, n) }
        },
        Call::Rope { a, head_dim } => {
            let a = s[a as int];
            Held { shape: a.shape, data: rope_out(a.data, rope_dims(a.shape, head_dim)) }
        },
        Call::Reshape { a, dims } => Held { shape: dims.shape(), data: s[a as int].data },
        Call::Transpose0213 { a } => {
            let a = s[a as int];
            let (n, x, y, d) = swap_sizes(a.shape);
            Held { shape: swap_shape(a.shape), data: transpose_0213_out(a.data, x, y, d) }
        },
        Call::RepeatKv { x, repeats } => {
            let x = s[x as int];
            Held {
                shape: repeat_shape(x.shape, repeats),
                data: repeat_kv_out(x.data, repeat_dims(x.shape, repeats)),
            }
        },
        Call::FlashAttention { q, k, v, scale, causal } => {
            let (q, k, v) = (s[q as int], s[k as int], s[v as int]);
            Held {
                shape: q.shape,
                data: flash_out(
                    q.data,
                    k.data,
                    v.data,
                    flash_dims(q.shape, k.shape),
                    scale,
                    causal,
                ),
            }
        },
        Call::Reinterpret { id, dims } => s[id as int],
        Call::Demote(id) => s[id as int],
    }
}

/// The product of the rows of a tensor with a matrix.
pub open spec fn product_of<T: Scalar>(a: Held<T>, b: Held<T>) -> Held<T> {
    let (m, k, n) = matmul_sizes(a.shape, b.shape);
    Held { shape: seq![m as usize, n as usize], data: matmul_out(a.data, b.data, m, k, n) }
}

/// Two tensors taken together element by element.
pub open spec fn pair_of<T: Scalar>(op: Pairwise, a: Held<T>, b: Held<T>) -> Held<T> {
    Held {
        shape: broadcast_shape(a.shape, b.shape),
        data: pairwise_out(op, a.data, a.shape, b.data, b.shape),
    }
}

/// What tensors hold after a call.
pub open spec fn held_after<T: Scalar>(s: Seq<Held<T>>, c: Call<T>) -> Seq<Held<T>> {
    if makes(c) {
        s.push(made_by(s, c))
    } else {
        match c {
            Call::Reinterpret { id, dims } => s.update(
                id as int,
                Held { shape: dims.shape(), data: s[id as int].data },
            ),
            _ => s,
        }
    }
}

/// What tensors hold after calls.
pub open spec fn all_held<T: Scalar>(s: Seq<Held<T>>, calls: Seq<Call<T>>) -> Seq<Held<T>>
    decreases calls.len(),
{
    if calls.len() == 0 {
        s
    } else {
        held_after(all_held(s, calls.drop_last()), calls.last())
    }
}

/// What tensors hold after a draft.
pub open spec fn drafted<T: Scalar>(s: Seq<Held<T>>, d: Draft<T>) -> Seq<Held<T>> {
    all_held(s, d.calls)
}

/// The tensors that a call takes are there.
pub open spec fn operands_there<T: Scalar>(n: int, c: Call<T>) -> bool {
    match c {
        Call::Param { dims, init, half } => true,
        Call::Constant { dims, value, tag, pooled } => true,
        Call::Mask { seq, half } => true,
        Call::Gather { w, x } => w < n && x < n,
        Call::Matmul { a, b } => a < n && b < n,
        Call::MatmulBf16 { a, b } => a < n && b < n,
        Call::Add { a, b } => a < n && b < n,
        Call::Mul { a, b } => a < n && b < n,
        Call::Silu { a } => a < n,
        Call::RmsNorm { x, w, eps } => x < n && w < n,
        Call::Bmm { a, b, trans_b } => a < n && b < n,
        Call::Softmax { a } => a < n,
        Call::Rope { a, head_dim } => a < n,
        Call::Reshape { a, dims } => a < n,
        Call::Transpose0213 { a } => a < n,
        Call::RepeatKv { x, repeats } => x < n,
        Call::FlashAttention { q, k, v, scale, causal } => q < n && k < n && v < n,
        Call::Reinterpret { id, dims } => id < n,
        Call::Demote(id) => id < n,
    }
}

/// The tensors that a call takes are there, and their sizes go together.
pub open spec fn sizes_fit<T: Scalar>(s: Seq<Held<T>>, c: Call<T>) -> bool {
    operands_there(s.len() as int, c) && match c {
        Call::Matmul { a, b } => matmul_shapes_ok(s[a as int].shape, s[b as int].shape),
        Call::MatmulBf16 { a, b } => matmul_shapes_ok(s[a as int].shape, s[b as int].shape),
        Call::Add { a, b } => broadcast_ok(s[a as int].shape, s[b as int].shape),
        Call::Mul { a, b } => broadcast_ok(s[a as int].shape, s[b as int].shape),
        Call::Rope { a, head_dim } => rope_ok(s[a as int].shape, head_dim),
        _ => true,
    }
}

/// A call that is carried out leaves tensors that hold what is foretold.
pub proof fn call_gives_values<T: Scalar>(was: Graph<T>, now: Graph<T>, c: Call<T>)
    requires
        was.tensors@.len() <= usize::MAX,
        call_ok(was, c),
        call_done(was, now, c),
    ensures
        held(now) == held_after(held(was), c),
        sizes_fit(held(was), c),
{
    let n = was.tensors@.len() as int;
    let s = held(was);
    if makes(c) {
        assert(now.tensors@.len() == n + 1);
        assert(now.tensors@.take(n) == was.tensors@);
        assert forall|i: int| 0 <= i < n implies #[trigger] held(now)[i] == s[i] by {
            assert(now.tensors@.take(n)[i] == was.tensors@[i]);
        }
        assert(held(now)[n].shape == made_by(s, c).shape);
        assert(held(now)[n].data == made_by(s, c).data);
        assert(held(now) =~= s.push(made_by(s, c)));
    } else {
        assert(held(now) =~= held_after(s, c));
    }
}

/// A property of every call of a program and what the tensors hold before it.
pub open spec fn at_each_call<T: Scalar>(
    s: Seq<Held<T>>,
    calls: Seq<Call<T>>,
    f: spec_fn(Seq<Held<T>>, Call<T>) -> bool,
) -> bool
    decreases calls.len(),
{
    calls.len() > 0 ==> {
        &&& at_each_call(s, calls.drop_last(), f)
        &&& f(all_held(s, calls.drop_last()), calls.last())
    }
}

/// A program that is carried out leaves tensors that hold what is foretold, and what holds of every
/// state and call on the way, their sizes going together, holds of what is foretold for them.
pub proof fn program_gives_values<T: Scalar>(
    states: Seq<Graph<T>>,
    calls: Seq<Call<T>>,
    n: nat,
    f: spec_fn(Seq<Held<T>>, Call<T>) -> bool,
)
    requires
        carried_out(states, calls, n),
        forall|k: int| 0 <= k <= n ==> (#[trigger] states[k]).tensors@.len() <= usize::MAX,
        forall|k: int|
            0 <= k < n && sizes_fit(held(#[trigger] states[k]), calls[k]) ==> f(
                held(states[k]),
                calls[k],
            ),
    ensures
        held(states[n as int]) == all_held(held(states[0]), calls.take(n as int)),
        at_each_call(held(states[0]), calls.take(n as int), f),
    decreases n,
{
    if n > 0 {
        let before = states.drop_last();
        assert forall|k: int| 0 <= k < n - 1 implies call_ok(#[trigger] before[k], calls[k])
            && call_done(before[k], before[k + 1], calls[k]) by {
            assert(before[k] == states[k]);
            assert(before[k + 1] == states[k + 1]);
        }
        assert forall|k: int| 0 <= k <= n - 1 implies (#[trigger] before[k]).tensors@.len()
            <= usize::MAX by {
            assert(before[k] == states[k]);
        }
        assert forall|k: int|
            0 <= k < n - 1 && sizes_fit(held(#[trigger] before[k]), calls[k]) implies f(
            held(before[k]),
            calls[k],
        ) by {
            assert(before[k] == states[k]);
        }
        program_gives_values(before, calls, (n - 1) as nat, f);
        assert(states[n - 1].tensors@.len() <= usize::MAX);
        call_gives_values(states[n - 1], states[n as int], calls[n - 1]);
        assert(calls.take(n as int).drop_last() =~= calls.take(n - 1));
        assert(calls.take(n as int).last() == calls[n - 1]);
        assert(before[n - 1] == states[n - 1] && before[0] == states[0]);
    } else {
        assert(calls.take(0) =~= Seq::empty());
    }
}

/// The calls of the first draft are the first calls of the second.
pub open spec fn begins<T>(d: Draft<T>, e: Draft<T>) -> bool {
    &&& d.calls.len() <= e.calls.len()
    &&& e.calls.take(d.calls.len() as int) == d.calls
}

/// What holds at each call of a draft holds at each call of one that it goes on from.
pub proof fn at_each_call_before<T: Scalar>(
    s: Seq<Held<T>>,
    d: Draft<T>,
    e: Draft<T>,
    f: spec_fn(Seq<Held<T>>, Call<T>) -> bool,
)
    requires
        begins(d, e),
        at_each_call(s, e.calls, f),
    ensures
        at_each_call(s, d.calls, f),
    decreases e.calls.len(),
{
    if d.calls.len() == e.calls.len() {
        assert(e.calls.take(d.calls.len() as int) =~= e.calls);
    } else {
        let before = Draft { calls: e.calls.drop_last(), next: 0 };
        assert(before.calls.take(d.calls.len() as int) =~= e.calls.take(d.calls.len() as int));
        at_each_call_before(s, d, before, f);
    }
}

pub proof fn begins_emit<T>(d: Draft<T>, c: Call<T>)
    ensures
        begins(d, emit(d, c)),
{
    assert(emit(d, c).calls.take(d.calls.len() as int) =~= d.calls);
}

pub proof fn begins_with_itself<T>(d: Draft<T>)
    ensures
        begins(d, d),
{
    assert(d.calls.take(d.calls.len() as int) =~= d.calls);
}

pub proof fn begins_through<T>(a: Draft<T>, b: Draft<T>, c: Draft<T>)
    requires
        begins(a, b),
        begins(b, c),
    ensures
        begins(a, c),
{
    let n = a.calls.len() as int;
    assert(c.calls.take(n) =~= c.calls.take(b.calls.len() as int).take(n));
}

/// One call more.
pub proof fn drafted_emit<T: Scalar>(s: Seq<Held<T>>, d: Draft<T>, c: Call<T>)
    ensures
        drafted(s, emit(d, c)) == held_after(drafted(s, d), c),
        forall|f: spec_fn(Seq<Held<T>>, Call<T>) -> bool| #[trigger]
            at_each_call(s, emit(d, c).calls, f) ==> at_each_call(s, d.calls, f) && f(
                drafted(s, d),
                c,
            ),
{
    assert(emit(d, c).calls.drop_last() =~= d.calls);
    assert(emit(d, c).calls.last() == c);
}

} // verus!
