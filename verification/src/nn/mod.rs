//! Layers, their training and their learning rate.
pub mod attention;
pub mod block_laws;
pub mod causality;
pub mod checks;
pub mod embedding;
pub mod head_laws;
pub mod laws;
pub mod linear;
pub mod made_laws;
pub mod masking;
pub mod naming;
pub mod optim;
pub mod optim_laws;
pub mod program;
pub mod rmsnorm;
pub mod run;
pub mod scaling_laws;
pub mod scheduler;
pub mod transformer;
pub mod values;

use crate::graph::Graph;
use crate::nn::program::{Program, Val};
use crate::scalar::Scalar;
use vstd::prelude::*;

verus! {

/// A layer: it writes down what it has a graph do, and knows its parameters.
pub trait Module<T: Scalar>: Sized {
    /// The layer can take this input.
    spec fn accepts(&self, g: Graph<T>, p: Program<T>, x: Val) -> bool;

    /// What the layer writes down for an input, what comes out, and what becomes of the layer.
    spec fn passes(
        &self,
        after: Self,
        g: Graph<T>,
        was: Program<T>,
        x: Val,
        now: Program<T>,
        y: Val,
    ) -> bool;

    spec fn param_ids(&self) -> Seq<usize>;

    /// Writes down the calls for an input.
    fn forward(&mut self, g: &Graph<T>, p: &mut Program<T>, x: Val) -> (y: Val)
        requires
            old(self).accepts(*g, *old(p), x),
        ensures
            old(self).passes(*final(self), *g, *old(p), x, *final(p), y),
    ;

    /// The numbers of the parameters.
    fn params(&self) -> (r: Vec<usize>)
        ensures
            r@ == self.param_ids(),
    ;
}

/// A list and another behind it.
pub(crate) fn append_ids(a: &mut Vec<usize>, b: &Vec<usize>)
    ensures
        final(a)@ == old(a)@ + b@,
{
    let mut i: usize = 0;
    while i < b.len()
        invariant
            i <= b@.len(),
            a@ == old(a)@ + b@.take(i as int),
        decreases b@.len() - i,
    {
        a.push(b[i]);
        assert(a@ =~= old(a)@ + b@.take(i + 1));
        i += 1;
    }
    assert(b@.take(b@.len() as int) =~= b@);
}

} // verus!
