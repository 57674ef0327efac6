//! A product with a matrix of weights.
use crate::graph::host::shape_of;
use crate::graph::Graph;
use crate::nn::program::{emit, Call, Dims, Draft, Init, Program, Val};
use crate::nn::Module;
use crate::scalar::Scalar;
use vstd::prelude::*;

verus! {

/// Weights, and what is added to the result.
#[derive(Clone, Copy, Debug, PartialEq, Eq, Structural)]
pub struct Linear {
    pub weight_id: usize,
    pub bias_id: Option<usize>,
}

/// The calls that make a layer.
pub open spec fn linear_made<T: Scalar>(
    d: Draft<T>,
    in_features: usize,
    out_features: usize,
    use_bias: bool,
    mixed: bool,
) -> (Draft<T>, Linear) {
    let w = emit(
        d,
        Call::Param { dims: Dims::Two(in_features, out_features), init: Init::Normal, half: mixed },
    );
    if use_bias {
        (
            emit(w, Call::Param { dims: Dims::One(out_features), init: Init::Zeros, half: false }),
            Linear { weight_id: d.next as usize, bias_id: Some(w.next as usize) },
        )
    } else {
        (w, Linear { weight_id: d.next as usize, bias_id: None })
    }
}

/// The calls for an input: a product, the bias, and the shape of the input but for the last
/// dimension, where it has three.
pub open spec fn linear_calls<T: Scalar>(
    l: Linear,
    out: usize,
    mixed: bool,
    d: Draft<T>,
    x: Val,
) -> (
    Draft<T>,
    Val,
) {
    let p = emit(
        d,
        if mixed {
            Call::MatmulBf16 { a: x.id, b: l.weight_id }
        } else {
            Call::Matmul { a: x.id, b: l.weight_id }
        },
    );
    let (q, id) = match l.bias_id {
        Some(b) => (emit(p, Call::Add { a: d.next as usize, b }), p.next as usize),
        None => (p, d.next as usize),
    };
    match x.dims {
        Dims::Three(b, s, _) => {
            let dims = Dims::Three(b, s, out);
            (emit(q, Call::Reinterpret { id, dims }), Val { id, dims })
        },
        Dims::Four(a, b, c, _) => (q, Val { id, dims: Dims::Two((a * b * c) as usize, out) }),
        Dims::Two(b, _) => (q, Val { id, dims: Dims::Two(b, out) }),
        Dims::One(_) => (q, Val { id, dims: Dims::One(out) }),
    }
}

/// The input has rows, and they can be counted.
pub open spec fn rows_ok(x: Val) -> bool {
    match x.dims {
        Dims::One(_) => false,
        Dims::Four(a, b, c, _) => a * b <= usize::MAX && a * b * c <= usize::MAX,
        _ => true,
    }
}

impl Linear {
    /// The weights are a matrix of the graph.
    pub open spec fn ready<T: Scalar>(self, g: Graph<T>) -> bool {
        self.weight_id < g.tensors@.len() && shape_of(g, self.weight_id).len() == 2
    }

    /// The number of columns of the result.
    pub open spec fn columns<T: Scalar>(self, g: Graph<T>) -> usize {
        shape_of(g, self.weight_id)[1]
    }

    /// Writes down a layer from `in_features` to `out_features` numbers.
    pub fn new<T: Scalar>(
        p: &mut Program<T>,
        in_features: usize,
        out_features: usize,
        use_bias: bool,
        mixed: bool,
    ) -> (r: Self)
        requires
            old(p).room(2),
        ensures
            (final(p)@, r) == linear_made(old(p)@, in_features, out_features, use_bias, mixed),
            final(p).next == old(p).next + (if use_bias {
                2int
            } else {
                1int
            }),
    {
        let weight_id: usize = p.emit(
            Call::Param {
                dims: Dims::Two(in_features, out_features),
                init: Init::Normal,
                half: mixed,
            },
        );
        let bias_id = if use_bias {
            Some(
                p.emit(
                    Call::Param { dims: Dims::One(out_features), init: Init::Zeros, half: false },
                ),
            )
        } else {
            None
        };
        Linear { weight_id, bias_id }
    }

    /// Writes down the calls for an input.
    pub fn apply<T: Scalar>(&self, g: &Graph<T>, p: &mut Program<T>, x: Val) -> (y: Val)
        requires
            self.ready(*g),
            rows_ok(x),
            old(p).room(2),
        ensures
            (final(p)@, y) == linear_calls(*self, self.columns(*g), g.mixed(), old(p)@, x),
            final(p).next <= old(p).next + 2,
    {
        let id: usize = if g.uses_bf16_mixed_precision() {
            p.emit(Call::MatmulBf16 { a: x.id, b: self.weight_id })
        } else {
            p.emit(Call::Matmul { a: x.id, b: self.weight_id })
        };
        let id: usize = match self.bias_id {
            Some(b) => p.emit(Call::Add { a: id, b }),
            None => id,
        };
        let out: usize = g.tensors[self.weight_id].shape[1];
        match x.dims {
            Dims::Three(b, s, _) => {
                let dims = Dims::Three(b, s, out);
                p.change(Call::Reinterpret { id, dims });
                Val { id, dims }
            },
            Dims::Four(a, b, c, _) => Val { id, dims: Dims::Two(a * b * c, out) },
            Dims::Two(b, _) => Val { id, dims: Dims::Two(b, out) },
            Dims::One(_) => Val { id, dims: Dims::One(out) },
        }
    }
}

impl<T: Scalar> Module<T> for Linear {
    open spec fn accepts(&self, g: Graph<T>, p: Program<T>, x: Val) -> bool {
        self.ready(g) && rows_ok(x) && p.room(2)
    }

    open spec fn passes(
        &self,
        after: Self,
        g: Graph<T>,
        was: Program<T>,
        x: Val,
        now: Program<T>,
        y: Val,
    ) -> bool {
        &&& after == *self
        &&& (now@, y) == linear_calls(*self, self.columns(g), g.mixed(), was@, x)
    }

    open spec fn param_ids(&self) -> Seq<usize> {
        match self.bias_id {
            Some(b) => seq![self.weight_id, b],
            None => seq![self.weight_id],
        }
    }

    fn forward(&mut self, g: &Graph<T>, p: &mut Program<T>, x: Val) -> (y: Val) {
        self.apply(g, p, x)
    }

    fn params(&self) -> (r: Vec<usize>) {
        let mut r: Vec<usize> = Vec::new();
        r.push(self.weight_id);
        match self.bias_id {
            Some(b) => {
                r.push(b);
            },
            None => {},
        }
        assert(r@ =~= <Self as Module<T>>::param_ids(self));
        r
    }
}

} // verus!
