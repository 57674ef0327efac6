//! Rows divided by their root mean square.
use crate::graph::Graph;
use crate::nn::program::{emit, Call, Dims, Draft, Init, Program, Val};
use crate::nn::Module;
use crate::scalar::Scalar;
use vstd::prelude::*;

verus! {

/// The weights of the elements, and what is added under the root.
pub struct RMSNorm<T> {
    pub weight_id: usize,
    pub eps: T,
}

impl<T: Copy> Clone for RMSNorm<T> {
    fn clone(&self) -> (r: Self)
        ensures
            r == *self,
    {
        *self
    }
}

impl<T: Copy> Copy for RMSNorm<T> {

}

/// The calls that make a layer.
pub open spec fn norm_made<T: Scalar>(d: Draft<T>, dim: usize, eps: T, mixed: bool) -> (
    Draft<T>,
    RMSNorm<T>,
) {
    (
        emit(d, Call::Param { dims: Dims::One(dim), init: Init::Ones, half: mixed }),
        RMSNorm { weight_id: d.next as usize, eps },
    )
}

/// The call for an input.
pub open spec fn norm_calls<T: Scalar>(n: RMSNorm<T>, d: Draft<T>, x: Val) -> (Draft<T>, Val) {
    (
        emit(d, Call::RmsNorm { x: x.id, w: n.weight_id, eps: n.eps }),
        Val { id: d.next as usize, dims: x.dims },
    )
}

impl<T: Scalar> RMSNorm<T> {
    /// Writes down a layer for rows of `dim` elements.
    pub fn new(p: &mut Program<T>, dim: usize, eps: T, mixed: bool) -> (r: Self)
        requires
            old(p).room(1),
        ensures
            (final(p)@, r) == norm_made(old(p)@, dim, eps, mixed),
            final(p).next == old(p).next + 1,
    {
        let weight_id: usize = p.emit(
            Call::Param { dims: Dims::One(dim), init: Init::Ones, half: mixed },
        );
        RMSNorm { weight_id, eps }
    }

    /// Writes down the call for an input.
    pub fn apply(&self, p: &mut Program<T>, x: Val) -> (y: Val)
        requires
            old(p).room(1),
        ensures
            (final(p)@, y) == norm_calls(*self, old(p)@, x),
            final(p).next == old(p).next + 1,
    {
        let id: usize = p.emit(Call::RmsNorm { x: x.id, w: self.weight_id, eps: self.eps });
        Val { id, dims: x.dims }
    }
}

impl<T: Scalar> Module<T> for RMSNorm<T> {
    open spec fn accepts(&self, g: Graph<T>, p: Program<T>, x: Val) -> bool {
        p.room(1)
    }

    open spec fn passes(
        &self,
        after: Self,
        g: Graph<T>,
        was: Program<T>,
        x: Val,
        now: Program<T>,
        y: Val,
    ) -> bool {
        &&& after == *self
        &&& (now@, y) == norm_calls(*self, was@, x)
    }

    open spec fn param_ids(&self) -> Seq<usize> {
        seq![self.weight_id]
    }

    fn forward(&mut self, g: &Graph<T>, p: &mut Program<T>, x: Val) -> (y: Val) {
        self.apply(p, x)
    }

    fn params(&self) -> (r: Vec<usize>) {
        let mut r: Vec<usize> = Vec::new();
        r.push(self.weight_id);
        assert(r@ =~= self.param_ids());
        r
    }
}

} // verus!
