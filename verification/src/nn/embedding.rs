//! A row of weights for every token.
use crate::graph::host::shape_of;
use crate::graph::Graph;
use crate::nn::program::{emit, Call, Dims, Draft, Init, Program, Val};
use crate::nn::Module;
use crate::scalar::Scalar;
use vstd::prelude::*;

verus! {

/// The rows.
#[derive(Clone, Copy, Debug, PartialEq, Eq, Structural)]
pub struct Embedding {
    pub weight_id: usize,
}

/// The shape with another dimension behind it.
pub open spec fn widened_dims(x: Dims, hidden: usize) -> Dims {
    match x {
        Dims::One(a) => Dims::Two(a, hidden),
        Dims::Two(a, b) => Dims::Three(a, b, hidden),
        Dims::Three(a, b, c) => Dims::Four(a, b, c, hidden),
        Dims::Four(a, b, c, d) => Dims::Four(a, b, c, d),
    }
}

/// The calls that make an embedding.
pub open spec fn embedding_made<T: Scalar>(
    d: Draft<T>,
    vocab_size: usize,
    hidden_dim: usize,
    mixed: bool,
) -> (Draft<T>, Embedding) {
    (
        emit(
            d,
            Call::Param {
                dims: Dims::Two(vocab_size, hidden_dim),
                init: Init::Uniform,
                half: mixed,
            },
        ),
        Embedding { weight_id: d.next as usize },
    )
}

/// The call for an input.
pub open spec fn embedding_calls<T: Scalar>(e: Embedding, hidden: usize, d: Draft<T>, x: Val) -> (
    Draft<T>,
    Val,
) {
    (
        emit(d, Call::Gather { w: e.weight_id, x: x.id }),
        Val { id: d.next as usize, dims: widened_dims(x.dims, hidden) },
    )
}

impl Embedding {
    /// The rows are a matrix of the graph.
    pub open spec fn ready<T: Scalar>(self, g: Graph<T>) -> bool {
        self.weight_id < g.tensors@.len() && shape_of(g, self.weight_id).len() == 2
    }

    /// The length of a row.
    pub open spec fn columns<T: Scalar>(self, g: Graph<T>) -> usize {
        shape_of(g, self.weight_id)[1]
    }

    /// Writes down an embedding of `vocab_size` rows.
    pub fn new<T: Scalar>(
        p: &mut Program<T>,
        vocab_size: usize,
        hidden_dim: usize,
        mixed: bool,
    ) -> (r: Self)
        requires
            old(p).room(1),
        ensures
            (final(p)@, r) == embedding_made(old(p)@, vocab_size, hidden_dim, mixed),
            final(p).next == old(p).next + 1,
    {
        let weight_id: usize = p.emit(
            Call::Param {
                dims: Dims::Two(vocab_size, hidden_dim),
                init: Init::Uniform,
                half: mixed,
            },
        );
        Embedding { weight_id }
    }

    /// Writes down the call for an input.
    pub fn apply<T: Scalar>(&self, g: &Graph<T>, p: &mut Program<T>, x: Val) -> (y: Val)
        requires
            self.ready(*g),
            !(x.dims is Four),
            old(p).room(1),
        ensures
            (final(p)@, y) == embedding_calls(*self, self.columns(*g), old(p)@, x),
            final(p).next == old(p).next + 1,
    {
        let hidden: usize = g.tensors[self.weight_id].shape[1];
        let id: usize = p.emit(Call::Gather { w: self.weight_id, x: x.id });
        let dims = match x.dims {
            Dims::One(a) => Dims::Two(a, hidden),
            Dims::Two(a, b) => Dims::Three(a, b, hidden),
            Dims::Three(a, b, c) => Dims::Four(a, b, c, hidden),
            Dims::Four(a, b, c, d) => Dims::Four(a, b, c, d),
        };
        Val { id, dims }
    }
}

impl<T: Scalar> Module<T> for Embedding {
    open spec fn accepts(&self, g: Graph<T>, p: Program<T>, x: Val) -> bool {
        self.ready(g) && !(x.dims is Four) && p.room(1)
    }

    open spec fn passes(
        &self,
        after: Self,
        g: Graph<T>,
        was: Program<T>,
        x: Val,
        now: Program<T>,
        y: Val,
    ) -> bool {
        &&& after == *self
        &&& (now@, y) == embedding_calls(*self, self.columns(g), was@, x)
    }

    open spec fn param_ids(&self) -> Seq<usize> {
        seq![self.weight_id]
    }

    fn forward(&mut self, g: &Graph<T>, p: &mut Program<T>, x: Val) -> (y: Val) {
        self.apply(g, p, x)
    }

    fn params(&self) -> (r: Vec<usize>) {
        let mut r: Vec<usize> = Vec::new();
        r.push(self.weight_id);
        assert(r@ =~= <Self as Module<T>>::param_ids(self));
        r
    }
}

} // verus!
