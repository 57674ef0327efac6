//! What holds of the graph as a whole.
use crate::graph::backward::{node_grads, node_ok, rewound};
use crate::graph::host::host_result;
use crate::graph::memory::{grad_bytes, tensor_bytes};
use crate::graph::pool::{
    lemma_stack_of_concat, lemma_stack_of_one, lemma_total_of_concat, stack_of, total_size,
};
use crate::graph::{full_entries, half_entries, min_of, reclaimed, Graph};
use crate::scalar::Scalar;
use crate::tape::TapeNode;
use crate::tensor::{product, DeviceBuffer, Storage, Tensor};
use vstd::prelude::*;

verus! {

/// An activation whose buffers have as many elements as its shape says.
pub open spec fn whole_activation<T: Scalar>(t: Tensor<T>) -> bool {
    &&& t.is_pooled
    &&& product(t.shape@) <= usize::MAX
    &&& (t.data matches Storage::Gpu(b) ==> b.len == product(t.shape@))
    &&& (t.data matches Storage::GpuBf16(b) ==> b.len == product(t.shape@))
    &&& (t.grad matches Storage::Gpu(b) ==> b.len == product(t.shape@))
}

proof fn lemma_entries_of_one<T: Scalar>(t: Tensor<T>)
    requires
        whole_activation(t),
    ensures
        total_size(full_entries(t)) * 4 + total_size(half_entries(t)) * 2 == t.data.device_bytes()
            + grad_bytes(t),
{
    reveal_with_fuel(total_size, 3);
    let size = product(t.shape@) as usize;
    let g = match t.grad {
        Storage::Gpu(b) => seq![(size, b)],
        _ => Seq::empty(),
    };
    let d = match t.data {
        Storage::Gpu(b) => seq![(size, b)],
        _ => Seq::empty(),
    };
    lemma_total_of_concat(g, d);
    match t.grad {
        Storage::Gpu(b) => {
            assert(g.drop_last() =~= Seq::empty());
        },
        _ => {},
    }
    match t.data {
        Storage::Gpu(b) => {
            assert(d.drop_last() =~= Seq::empty());
        },
        Storage::GpuBf16(b) => {
            assert(seq![(size, b)].drop_last() =~= Seq::empty());
        },
        _ => {},
    }
}

proof fn lemma_reclaimed<T: Scalar>(ts: Seq<Tensor<T>>, n: int)
    requires
        0 <= n <= ts.len(),
        forall|i: int| n <= i < ts.len() ==> whole_activation(#[trigger] ts[i]),
    ensures
        tensor_bytes(ts) == tensor_bytes(ts.take(n)) + total_size(
            reclaimed(ts, |t: Tensor<T>| full_entries(t), n),
        ) * 4 + total_size(reclaimed(ts, |t: Tensor<T>| half_entries(t), n)) * 2,
    decreases ts.len() - n,
{
    let full = |t: Tensor<T>| full_entries(t);
    let half = |t: Tensor<T>| half_entries(t);
    if n == ts.len() {
        assert(ts.take(n) =~= ts);
        assert(total_size(Seq::<(usize, DeviceBuffer)>::empty()) == 0);
    } else {
        lemma_reclaimed(ts, n + 1);
        lemma_entries_of_one(ts[n]);
        lemma_total_of_concat(reclaimed(ts, full, n + 1), full(ts[n]));
        lemma_total_of_concat(reclaimed(ts, half, n + 1), half(ts[n]));
        assert(ts.take(n + 1).drop_last() =~= ts.take(n));
        assert(ts.take(n + 1).last() == ts[n]);
    }
}

/// Going back to a save point loses no device memory and takes none: what the activations let go is
/// in the pools, byte for byte.
pub proof fn restoring_keeps_usage<T: Scalar>(was: Graph<T>, now: Graph<T>, save_point: usize)
    requires
        now.tensors@ == was.tensors@.take(
            min_of(was.tensors@.len() as int, save_point as int),
        ),
        now.vram_pool.entries@ == was.vram_pool.entries@ + reclaimed(
            was.tensors@,
            |t: Tensor<T>| full_entries(t),
            save_point as int,
        ),
        now.vram_pool_bf16.entries@ == was.vram_pool_bf16.entries@ + reclaimed(
            was.tensors@,
            |t: Tensor<T>| half_entries(t),
            save_point as int,
        ),
        forall|i: int|
            save_point <= i < was.tensors@.len() ==> whole_activation(#[trigger] was.tensors@[i]),
    ensures
        now.usage() == was.usage(),
{
    let ts = was.tensors@;
    let full = |t: Tensor<T>| full_entries(t);
    let half = |t: Tensor<T>| half_entries(t);
    if save_point >= ts.len() {
        assert(ts.take(ts.len() as int) =~= ts);
        assert(now.vram_pool.entries@ =~= was.vram_pool.entries@);
        assert(now.vram_pool_bf16.entries@ =~= was.vram_pool_bf16.entries@);
    } else {
        lemma_reclaimed(ts, save_point as int);
        lemma_total_of_concat(was.vram_pool.entries@, reclaimed(ts, full, save_point as int));
        lemma_total_of_concat(was.vram_pool_bf16.entries@, reclaimed(ts, half, save_point as int));
    }
}

/// Whatever tensors were made after a save point, going back to it leaves those from before, as
/// they were.
pub proof fn restoring_undoes_allocations<T: Scalar>(
    saved: Graph<T>,
    later: Graph<T>,
    restored: Graph<T>,
)
    requires
        saved.tensors@.len() <= later.tensors@.len(),
        later.tensors@.take(saved.tensors@.len() as int) == saved.tensors@,
        restored.tensors@ == later.tensors@.take(
            min_of(later.tensors@.len() as int, saved.tensors@.len() as int),
        ),
    ensures
        restored.tensors@ == saved.tensors@,
{
}

/// The buffer that came into a pool last is the first to be used again for its size.
pub proof fn last_buffer_is_reused_first(
    e: Seq<(usize, DeviceBuffer)>,
    size: usize,
    b: DeviceBuffer,
)
    ensures
        stack_of(e.push((size, b)), size) == stack_of(e, size).push(b),
        forall|other: usize|
            other != size ==> #[trigger] stack_of(e.push((size, b)), other) == stack_of(e, other),
{
    assert(e.push((size, b)).drop_last() =~= e);
}

/// How many of some requests are for `size` elements.
pub open spec fn wanted(requests: Seq<usize>, size: usize) -> nat
    decreases requests.len(),
{
    if requests.len() == 0 {
        0
    } else {
        wanted(requests.skip(1), size) + (if requests[0] == size {
            1nat
        } else {
            0
        })
    }
}

/// A buffer of `size` elements has been asked for: the last that came has left, where there was
/// one.
pub open spec fn asked(
    before: Seq<(usize, DeviceBuffer)>,
    after: Seq<(usize, DeviceBuffer)>,
    size: usize,
) -> bool {
    &&& stack_of(before, size).len() > 0 ==> stack_of(after, size) == stack_of(
        before,
        size,
    ).drop_last()
    &&& stack_of(before, size).len() == 0 ==> after == before
    &&& forall|other: usize|
        other != size ==> #[trigger] stack_of(after, other) == stack_of(before, other)
}

/// Buffers are asked for one after the other, and these are the pools before and after each.
pub open spec fn all_asked(
    requests: Seq<usize>,
    pools: Seq<Seq<(usize, DeviceBuffer)>>,
) -> bool {
    &&& pools.len() == requests.len() + 1
    &&& forall|k: int|
        0 <= k < requests.len() ==> asked(#[trigger] pools[k], pools[k + 1], requests[k])
}

/// The buffers of full precision that an activation like `t` takes: for its elements, unless they
/// have 16 bits, and for its gradient.
pub open spec fn full_wants<T: Scalar>(t: Tensor<T>) -> Seq<usize> {
    let size = product(t.shape@) as usize;
    if t.data is Gpu {
        seq![size, size]
    } else {
        seq![size]
    }
}

/// The buffers of 16 bits an element that it takes.
pub open spec fn half_wants<T: Scalar>(t: Tensor<T>) -> Seq<usize> {
    if t.data is GpuBf16 {
        seq![product(t.shape@) as usize]
    } else {
        Seq::empty()
    }
}

/// What activations like those from `n` on take, in order.
pub open spec fn requests_from<T: Scalar>(
    ts: Seq<Tensor<T>>,
    wants: spec_fn(Tensor<T>) -> Seq<usize>,
    n: int,
) -> Seq<usize>
    decreases ts.len() - n,
{
    if n >= ts.len() || n < 0 {
        Seq::empty()
    } else {
        wants(ts[n]) + requests_from(ts, wants, n + 1)
    }
}

/// An activation with both its buffers on the device.
pub open spec fn on_device<T: Scalar>(t: Tensor<T>) -> bool {
    t.is_pooled && t.data.on_device() && t.grad is Gpu
}

proof fn lemma_wanted_one(x: usize, r: Seq<usize>, size: usize)
    ensures
        wanted(seq![x] + r, size) == wanted(r, size) + (if x == size {
            1nat
        } else {
            0
        }),
{
    assert((seq![x] + r).skip(1) =~= r);
}

proof fn lemma_enough<T: Scalar>(ts: Seq<Tensor<T>>, n: int, size: usize)
    requires
        0 <= n <= ts.len(),
        forall|i: int| n <= i < ts.len() ==> on_device(#[trigger] ts[i]),
    ensures
        stack_of(reclaimed(ts, |t: Tensor<T>| full_entries(t), n), size).len() >= wanted(
            requests_from(ts, |t: Tensor<T>| full_wants(t), n),
            size,
        ),
        stack_of(reclaimed(ts, |t: Tensor<T>| half_entries(t), n), size).len() >= wanted(
            requests_from(ts, |t: Tensor<T>| half_wants(t), n),
            size,
        ),
    decreases ts.len() - n,
{
    let (full, half) = (|t: Tensor<T>| full_entries(t), |t: Tensor<T>| half_entries(t));
    let (fw, hw) = (|t: Tensor<T>| full_wants(t), |t: Tensor<T>| half_wants(t));
    if n < ts.len() {
        lemma_enough(ts, n + 1, size);
        let t = ts[n];
        let k = product(t.shape@) as usize;
        let rest = requests_from(ts, fw, n + 1);
        let halves = requests_from(ts, hw, n + 1);
        let g = (k, t.grad->Gpu_0);
        lemma_stack_of_concat(reclaimed(ts, full, n + 1), full(t), size);
        lemma_stack_of_concat(reclaimed(ts, half, n + 1), half(t), size);
        lemma_stack_of_one(g, size);
        lemma_wanted_one(k, rest, size);
        if t.data is Gpu {
            let d = (k, t.data->Gpu_0);
            assert(full(t) == seq![g] + seq![d]);
            lemma_stack_of_concat(seq![g], seq![d], size);
            lemma_stack_of_one(d, size);
            assert(fw(t) + rest =~= seq![k] + (seq![k] + rest));
            lemma_wanted_one(k, seq![k] + rest, size);
            assert(hw(t) + halves =~= halves);
        } else {
            let d = (k, t.data->GpuBf16_0);
            assert(full(t) =~= seq![g]);
            assert(half(t) =~= seq![d]);
            lemma_stack_of_one(d, size);
            lemma_wanted_one(k, halves, size);
        }
    }
}

proof fn lemma_served(
    requests: Seq<usize>,
    pools: Seq<Seq<(usize, DeviceBuffer)>>,
    i: int,
    size: usize,
)
    requires
        all_asked(requests, pools),
        forall|s: usize| stack_of(pools[0], s).len() >= #[trigger] wanted(requests, s),
        0 <= i <= requests.len(),
    ensures
        stack_of(pools[i], size).len() >= wanted(requests.skip(i), size),
    decreases i,
{
    if i == 0 {
        assert(requests.skip(0) =~= requests);
    } else {
        lemma_served(requests, pools, i - 1, size);
        assert(asked(pools[i - 1], pools[i - 1 + 1], requests[i - 1]));
        assert(requests.skip(i - 1).skip(1) =~= requests.skip(i));
    }
}

/// Where a pool has as many buffers of every size as are asked for, every request finds one.
pub proof fn enough_buffers_serve_all(
    requests: Seq<usize>,
    pools: Seq<Seq<(usize, DeviceBuffer)>>,
    i: int,
)
    requires
        all_asked(requests, pools),
        forall|s: usize| stack_of(pools[0], s).len() >= #[trigger] wanted(requests, s),
        0 <= i < requests.len(),
    ensures
        stack_of(pools[i], requests[i]).len() > 0,
{
    lemma_served(requests, pools, i, requests[i]);
    assert(requests.skip(i)[0] == requests[i]);
}

/// After going back to a save point, the same activations can be made again without a fresh buffer
/// for any of them, in full and in mixed precision: every request for elements and for gradients
/// finds a buffer in its pool.
pub proof fn released_buffers_serve_again<T: Scalar>(
    ts: Seq<Tensor<T>>,
    save_point: int,
    full: Seq<(usize, DeviceBuffer)>,
    half: Seq<(usize, DeviceBuffer)>,
    full_pools: Seq<Seq<(usize, DeviceBuffer)>>,
    half_pools: Seq<Seq<(usize, DeviceBuffer)>>,
)
    requires
        0 <= save_point <= ts.len(),
        forall|k: int| save_point <= k < ts.len() ==> on_device(#[trigger] ts[k]),
        full_pools.len() > 0,
        full_pools[0] == full + reclaimed(ts, |t: Tensor<T>| full_entries(t), save_point),
        half_pools.len() > 0,
        half_pools[0] == half + reclaimed(ts, |t: Tensor<T>| half_entries(t), save_point),
        all_asked(requests_from(ts, |t: Tensor<T>| full_wants(t), save_point), full_pools),
        all_asked(requests_from(ts, |t: Tensor<T>| half_wants(t), save_point), half_pools),
    ensures
        forall|i: int|
            0 <= i < full_pools.len() - 1 ==> stack_of(
                #[trigger] full_pools[i],
                requests_from(ts, |t: Tensor<T>| full_wants(t), save_point)[i],
            ).len() > 0,
        forall|i: int|
            0 <= i < half_pools.len() - 1 ==> stack_of(
                #[trigger] half_pools[i],
                requests_from(ts, |t: Tensor<T>| half_wants(t), save_point)[i],
            ).len() > 0,
{
    let fr = requests_from(ts, |t: Tensor<T>| full_wants(t), save_point);
    let hr = requests_from(ts, |t: Tensor<T>| half_wants(t), save_point);
    assert forall|s: usize| stack_of(full_pools[0], s).len() >= #[trigger] wanted(fr, s) by {
        lemma_enough(ts, save_point, s);
        lemma_stack_of_concat(full, reclaimed(ts, |t: Tensor<T>| full_entries(t), save_point), s);
    }
    assert forall|s: usize| stack_of(half_pools[0], s).len() >= #[trigger] wanted(hr, s) by {
        lemma_enough(ts, save_point, s);
        lemma_stack_of_concat(half, reclaimed(ts, |t: Tensor<T>| half_entries(t), save_point), s);
    }
    assert forall|i: int| 0 <= i < full_pools.len() - 1 implies stack_of(
        #[trigger] full_pools[i],
        fr[i],
    ).len() > 0 by {
        enough_buffers_serve_all(fr, full_pools, i);
    }
    assert forall|i: int| 0 <= i < half_pools.len() - 1 implies stack_of(
        #[trigger] half_pools[i],
        hr[i],
    ).len() > 0 by {
        enough_buffers_serve_all(hr, half_pools, i);
    }
}

/// Operations on the host keep gradients in full precision.
pub proof fn results_have_full_gradients<T: Scalar>(
    was: Graph<T>,
    now: Graph<T>,
    id: usize,
    shape: Seq<usize>,
    values: Seq<T>,
)
    requires
        host_result(was, now, id, shape, values),
        was.full_grads(),
    ensures
        now.full_grads(),
{
    assert forall|i: int| 0 <= i < now.tensors@.len() implies (#[trigger] now.tensors@[i]).grad is Cpu
        || now.tensors@[i].grad is Gpu by {
        if i < id {
            assert(now.tensors@.take(id as int)[i] == was.tensors@[i]);
        }
    }
}

/// An operation changes the gradients of its operands only.
pub proof fn operation_changes_operands<T: Scalar>(
    node: TapeNode<T>,
    ts: Seq<Tensor<T>>,
    shapes: Seq<Seq<usize>>,
    g: Seq<Seq<T>>,
    id: usize,
)
    requires
        node_ok(node, ts),
        g.len() == ts.len(),
        id < g.len(),
        !node.inputs@.contains(id),
    ensures
        node_grads(node, shapes, g)[id as int] == g[id as int],
        node_grads(node, shapes, g).len() == g.len(),
{
    assert(node.inputs@.len() > 0 ==> node.inputs@.contains(node.inputs@[0]));
    assert(node.inputs@.len() > 1 ==> node.inputs@.contains(node.inputs@[1]));
}

/// The way back leaves the gradient of a tensor alone that no recorded operation read.
pub proof fn unread_gradients_stay<T: Scalar>(
    nodes: Seq<TapeNode<T>>,
    ts: Seq<Tensor<T>>,
    shapes: Seq<Seq<usize>>,
    g: Seq<Seq<T>>,
    n: nat,
    id: usize,
)
    requires
        n <= nodes.len(),
        g.len() == ts.len(),
        id < g.len(),
        forall|i: int|
            0 <= i < n ==> node_ok(#[trigger] nodes[i], ts) && !nodes[i].inputs@.contains(id),
    ensures
        rewound(nodes, shapes, g, n)[id as int] == g[id as int],
    decreases n,
{
    if n > 0 {
        let node = nodes[n - 1];
        operation_changes_operands(node, ts, shapes, g, id);
        unread_gradients_stay(nodes, ts, shapes, node_grads(node, shapes, g), (n - 1) as nat, id);
    }
}

/// The way back of the first operations of a longer tape is the way back of their own tape.
pub proof fn way_back_of_prefix<T: Scalar>(
    nodes: Seq<TapeNode<T>>,
    shapes: Seq<Seq<usize>>,
    g: Seq<Seq<T>>,
    n: nat,
)
    requires
        n <= nodes.len(),
    ensures
        rewound(nodes, shapes, g, n) == rewound(nodes.take(n as int), shapes, g, n),
    decreases n,
{
    lemma_prefix(nodes, nodes.take(n as int), shapes, g, n);
}

proof fn lemma_prefix<T: Scalar>(
    x: Seq<TapeNode<T>>,
    y: Seq<TapeNode<T>>,
    shapes: Seq<Seq<usize>>,
    g: Seq<Seq<T>>,
    n: nat,
)
    requires
        forall|i: int| 0 <= i < n ==> #[trigger] x[i] == y[i],
    ensures
        rewound(x, shapes, g, n) == rewound(y, shapes, g, n),
    decreases n,
{
    if n > 0 {
        assert(x[n - 1] == y[n - 1]);
        lemma_prefix(x, y, shapes, node_grads(x[n - 1], shapes, g), (n - 1) as nat);
    }
}

} // verus!
