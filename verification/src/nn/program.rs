//! Programs: what layers have the graph do, call by call.
//!
//! The tensors of a graph are numbered as they come, so the numbers of the results are known before
//! anything is done: layers write down calls, and a graph carries them out.
use crate::scalar::Scalar;
use vstd::prelude::*;

verus! {

/// A shape of one to four dimensions.
#[derive(Clone, Copy, Debug, PartialEq, Eq, Structural)]
pub enum Dims {
    One(usize),
    Two(usize, usize),
    Three(usize, usize, usize),
    Four(usize, usize, usize, usize),
}

impl Dims {
    pub open spec fn shape(self) -> Seq<usize> {
        match self {
            Dims::One(a) => seq![a],
            Dims::Two(a, b) => seq![a, b],
            Dims::Three(a, b, c) => seq![a, b, c],
            Dims::Four(a, b, c, d) => seq![a, b, c, d],
        }
    }

    /// The shape as a list.
    pub fn to_vec(self) -> (r: Vec<usize>)
        ensures
            r@ == self.shape(),
    {
        match self {
            Dims::One(a) => {
                let mut r: Vec<usize> = Vec::new();
                r.push(a);
                assert(r@ =~= seq![a]);
                r
            },
            Dims::Two(a, b) => vec![a, b],
            Dims::Three(a, b, c) => vec![a, b, c],
            Dims::Four(a, b, c, d) => vec![a, b, c, d],
        }
    }
}

/// What a parameter holds at first.
#[derive(Clone, Copy, Debug, PartialEq, Eq, Structural)]
pub enum Init {
    /// Numbers scattered around zero like a bell.
    Normal,
    /// Numbers scattered evenly around zero.
    Uniform,
    Ones,
    Zeros,
}

/// A name for a constant.
#[derive(Clone, Copy, Debug, PartialEq, Eq, Structural)]
pub enum Tag {
    Plain,
    AttnScale,
    GqaAttnScale,
}

impl Tag {
    pub open spec fn words(self) -> Option<Seq<char>> {
        match self {
            Tag::Plain => None,
            Tag::AttnScale => Some("attn_scale"@),
            Tag::GqaAttnScale => Some("gqa_attn_scale"@),
        }
    }

    /// The name, where there is one.
    pub fn text(self) -> (r: Option<&'static str>)
        ensures
            r is Some == self.words() is Some,
            r matches Some(s) ==> Some(s@) == self.words(),
    {
        match self {
            Tag::Plain => None,
            Tag::AttnScale => Some("attn_scale"),
            Tag::GqaAttnScale => Some("gqa_attn_scale"),
        }
    }
}

/// One call.
#[allow(inconsistent_fields)]
pub enum Call<T> {
    /// A new parameter, of 16 bits an element or in full precision.
    Param { dims: Dims, init: Init, half: bool },
    /// A new tensor that holds one number everywhere.
    Constant { dims: Dims, value: T, tag: Tag, pooled: bool },
    /// A new mask for so many positions, of 16 bits an element or in full precision.
    Mask { seq: usize, half: bool },
    Gather { w: usize, x: usize },
    Matmul { a: usize, b: usize },
    MatmulBf16 { a: usize, b: usize },
    Add { a: usize, b: usize },
    Mul { a: usize, b: usize },
    Silu { a: usize },
    RmsNorm { x: usize, w: usize, eps: T },
    Bmm { a: usize, b: usize, trans_b: bool },
    Softmax { a: usize },
    Rope { a: usize, head_dim: usize },
    Reshape { a: usize, dims: Dims },
    Transpose0213 { a: usize },
    RepeatKv { x: usize, repeats: usize },
    FlashAttention { q: usize, k: usize, v: usize, scale: T, causal: bool },
    /// Another shape for a tensor, in place.
    Reinterpret { id: usize, dims: Dims },
    /// Move a tensor to the host.
    Demote(usize),
}

impl<T: Copy> Clone for Call<T> {
    fn clone(&self) -> (r: Self)
        ensures
            r == *self,
    {
        *self
    }
}

impl<T: Copy> Copy for Call<T> {

}

/// Whether a call makes a new tensor.
pub open spec fn makes<T>(c: Call<T>) -> bool {
    match c {
        Call::Reinterpret { .. } => false,
        Call::Demote(_) => false,
        _ => true,
    }
}

/// A tensor that there will be.
#[derive(Clone, Copy, Debug, PartialEq, Eq, Structural)]
pub struct Val {
    pub id: usize,
    pub dims: Dims,
}

/// Calls, and the number of the next tensor.
pub struct Draft<T> {
    pub calls: Seq<Call<T>>,
    pub next: int,
}

/// The draft with another call.
pub open spec fn emit<T>(d: Draft<T>, c: Call<T>) -> Draft<T> {
    Draft {
        calls: d.calls.push(c),
        next: if makes(c) {
            d.next + 1
        } else {
            d.next
        },
    }
}

/// Calls that are written down for a graph.
pub struct Program<T> {
    pub calls: Vec<Call<T>>,
    /// The number of the next tensor.
    pub next: usize,
}

impl<T> View for Program<T> {
    type V = Draft<T>;

    open spec fn view(&self) -> Draft<T> {
        Draft { calls: self.calls@, next: self.next as int }
    }
}

impl<T: Copy> Program<T> {
    /// No calls, for a graph of so many tensors.
    pub fn new(next: usize) -> (r: Self)
        ensures
            r@.calls.len() == 0,
            r@.next == next,
    {
        Program { calls: Vec::new(), next }
    }

    /// Room for the numbers of so many more tensors.
    pub open spec fn room(&self, n: int) -> bool {
        self.next + n <= usize::MAX
    }

    /// Writes down a call that makes a tensor, and gives its number.
    pub fn emit(&mut self, c: Call<T>) -> (id: usize)
        requires
            makes(c),
            old(self).room(1),
        ensures
            final(self)@ == emit(old(self)@, c),
            id == old(self)@.next,
    {
        let id: usize = self.next;
        self.calls.push(c);
        self.next = id + 1;
        id
    }

    /// Writes down a call that makes no tensor.
    pub fn change(&mut self, c: Call<T>)
        requires
            !makes(c),
        ensures
            final(self)@ == emit(old(self)@, c),
    {
        self.calls.push(c);
    }
}

// Numbers that parameters and masks hold at first.

/// The next number of a row of numbers that look random.
pub open spec fn lcg(seed: u32) -> u32 {
    ((seed * 1664525 + 1013904223) % 0x1_0000_0000) as u32
}

/// The number after so many steps.
pub open spec fn lcg_at(seed: u32, n: nat) -> u32
    decreases n,
{
    if n == 0 {
        seed
    } else {
        lcg(lcg_at(seed, (n - 1) as nat))
    }
}

fn lcg_next(seed: u32) -> (r: u32)
    ensures
        r == lcg(seed),
{
    ((seed as u64 * 1664525 + 1013904223) % 0x1_0000_0000) as u32
}

/// A number as a part of the largest of its kind.
pub open spec fn fraction<T: Scalar>(seed: u32) -> T {
    T::spec_from_count(seed as usize).spec_over(T::spec_from_count(0xFFFF_FFFF))
}

fn fraction_of<T: Scalar>(seed: u32) -> (r: T)
    ensures
        r == fraction::<T>(seed),
{
    T::from_count(seed as usize).over(T::from_count(0xFFFF_FFFF))
}

/// Two fractions turned into a number around zero.
pub open spec fn bell<T: Scalar>(a: u32, b: u32) -> T {
    let tiny = T::spec_decimal(1, 7);
    let top = T::spec_one().spec_minus(tiny);
    let two = T::spec_from_count(2);
    let u1 = fraction::<T>(a).spec_plus(tiny).spec_smaller(top);
    let u2 = fraction::<T>(b).spec_larger(tiny).spec_smaller(top);
    let mag = two.spec_negated().spec_times(u1.spec_ln()).spec_sqrt();
    mag.spec_times(two.spec_times(T::spec_pi()).spec_times(u2).spec_cos()).spec_times(
        T::spec_decimal(2, 2),
    )
}

fn bell_of<T: Scalar>(a: u32, b: u32) -> (r: T)
    ensures
        r == bell::<T>(a, b),
{
    let tiny: T = T::decimal(1, 7);
    let top: T = T::one().minus(tiny);
    let two: T = T::from_count(2);
    let u1: T = fraction_of::<T>(a).plus(tiny).smaller(top);
    let u2: T = fraction_of::<T>(b).larger(tiny).smaller(top);
    let mag: T = two.negated().times(u1.ln()).sqrt();
    mag.times(two.times(T::pi()).times(u2).cos()).times(T::decimal(2, 2))
}

/// A fraction turned into a number around zero.
pub open spec fn even<T: Scalar>(a: u32) -> T {
    fraction::<T>(a).spec_times(T::spec_from_count(2)).spec_minus(T::spec_one()).spec_times(
        T::spec_decimal(2, 2),
    )
}

fn even_of<T: Scalar>(a: u32) -> (r: T)
    ensures
        r == even::<T>(a),
{
    fraction_of::<T>(a).times(T::from_count(2)).minus(T::one()).times(T::decimal(2, 2))
}

/// Element `i` of a parameter at first.
pub open spec fn init_value<T: Scalar>(init: Init, i: int) -> T {
    match init {
        Init::Normal => bell::<T>(lcg_at(42, (2 * i) as nat), lcg_at(42, (2 * i + 1) as nat)),
        Init::Uniform => even::<T>(lcg_at(84, (i + 1) as nat)),
        Init::Ones => T::spec_one(),
        Init::Zeros => T::spec_zero(),
    }
}

/// The elements of a parameter at first.
pub open spec fn init_values<T: Scalar>(init: Init, n: nat) -> Seq<T> {
    Seq::new(n, |i: int| init_value::<T>(init, i))
}

/// The first elements of a parameter of `n` elements.
pub fn initial_values<T: Scalar>(init: Init, n: usize) -> (r: Vec<T>)
    ensures
        r@ == init_values::<T>(init, n as nat),
{
    let mut r: Vec<T> = Vec::new();
    let mut seed: u32 = match init {
        Init::Uniform => 84,
        _ => 42,
    };
    let mut i: usize = 0;
    while i < n
        invariant
            i <= n,
            r@ == init_values::<T>(init, i as nat),
            init is Normal ==> seed == lcg_at(42, (2 * i) as nat),
            init is Uniform ==> seed == lcg_at(84, i as nat),
        decreases n - i,
    {
        let x: T = match init {
            Init::Normal => {
                let next: u32 = lcg_next(seed);
                let x: T = bell_of::<T>(seed, next);
                seed = lcg_next(next);
                assert(lcg_at(42, (2 * i + 1) as nat) == next);
                assert(lcg_at(42, (2 * i + 2) as nat) == seed);
                x
            },
            Init::Uniform => {
                seed = lcg_next(seed);
                even_of::<T>(seed)
            },
            Init::Ones => T::one(),
            Init::Zeros => T::zero(),
        };
        r.push(x);
        i += 1;
        assert(r@ =~= init_values::<T>(init, i as nat));
    }
    r
}

/// A number so low that its exponential vanishes: minus one and twenty zeros.
pub open spec fn hidden_score<T: Scalar>() -> T {
    let e5 = T::spec_from_count(100_000);
    let e10 = e5.spec_times(e5);
    e10.spec_times(e10).spec_negated()
}

/// A mask: no position sees those behind it.
pub open spec fn mask_values<T: Scalar>(seq: usize) -> Seq<T> {
    Seq::new(
        (seq * seq) as nat,
        |i: int|
            if i % (seq as int) > i / (seq as int) {
                hidden_score::<T>()
            } else {
                T::spec_zero()
            },
    )
}

/// The elements of a mask.
pub fn mask_of<T: Scalar>(seq: usize) -> (r: Vec<T>)
    requires
        seq * seq <= usize::MAX,
    ensures
        r@ == mask_values::<T>(seq),
{
    let e5: T = T::from_count(100_000);
    let e10: T = e5.times(e5);
    let low: T = e10.times(e10).negated();
    let mut r: Vec<T> = Vec::new();
    let mut i: usize = 0;
    let n: usize = seq * seq;
    while i < n
        invariant
            i <= n,
            n == seq * seq,
            low == hidden_score::<T>(),
            r@ == mask_values::<T>(seq).take(i as int),
        decreases n - i,
    {
        assert(seq > 0) by (nonlinear_arith)
            requires
                i < seq * seq,
                i >= 0,
        ;
        let x: T = if i % seq > i / seq {
            low
        } else {
            T::zero()
        };
        r.push(x);
        assert(r@ =~= mask_values::<T>(seq).take(i + 1));
        i += 1;
    }
    assert(mask_values::<T>(seq).take(n as int) =~= mask_values::<T>(seq));
    r
}

/// Position `q` sees position `k` exactly where `k` is not behind it.
pub proof fn mask_hides_the_future<T: Scalar>(seq: usize, q: int, k: int)
    requires
        0 <= q < seq,
        0 <= k < seq,
    ensures
        q * seq + k < mask_values::<T>(seq).len(),
        mask_values::<T>(seq)[q * seq + k] == (if k > q {
            hidden_score::<T>()
        } else {
            T::spec_zero()
        }),
{
    crate::graph::index::lemma_cell(q, seq as int, k, seq as int);
}

} // verus!
