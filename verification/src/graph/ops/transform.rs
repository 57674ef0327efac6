//! Operations on the host that move elements: transposition, gathering and rotation.
use crate::graph::index::{lemma_cell, lemma_uncell};
use crate::graph::ops::elementwise::add_at;
use crate::scalar::Scalar;
use crate::tensor::{all_positive, ravel, unravel, Tensor};
use vstd::prelude::*;

verus! {

/// Where in `b` blocks of `s` by `h` rows of `d` elements the element lies that comes to position
/// `o` when the two middle dimensions are exchanged.
pub open spec fn swapped_index(s: int, h: int, d: int, o: int) -> int {
    let row = o / d;
    let block = row / s;
    (((block / h) * s + row % s) * h + block % h) * d + o % d
}

/// The four sizes can be multiplied.
pub open spec fn four_fit(b: int, s: int, h: int, d: int) -> bool {
    &&& 0 <= b
    &&& 0 <= s
    &&& 0 <= h
    &&& 0 <= d
    &&& b * s * h * d <= usize::MAX
}

/// Position `o` taken apart and put together again with the middle dimensions exchanged.
pub proof fn lemma_swapped(b: int, s: int, h: int, d: int, o: int)
    requires
        0 <= b,
        0 <= s,
        0 <= h,
        0 <= d,
        0 <= o < b * h * s * d,
    ensures
        d > 0,
        s > 0,
        h > 0,
        0 <= swapped_index(s, h, d, o) < b * s * h * d,
        swapped_index(h, s, d, swapped_index(s, h, d, o)) == o,
        0 <= (o / d / s / h) * s + o / d % s < b * s,
        0 <= ((o / d / s / h) * s + o / d % s) * h + o / d / s % h < b * s * h,
        0 <= (o / d / s / h) * s,
        0 <= ((o / d / s / h) * s + o / d % s) * h,
        0 <= (((o / d / s / h) * s + o / d % s) * h + o / d / s % h) * d <= swapped_index(s, h, d, o),
{
    assert(0 <= b * h && 0 <= b * h * s) by (nonlinear_arith)
        requires
            0 <= b,
            0 <= h,
            0 <= s,
    ;
    lemma_uncell(o, b * h * s, d);
    let row = o / d;
    let dd = o % d;
    lemma_uncell(row, b * h, s);
    let block = row / s;
    let ss = row % s;
    lemma_uncell(block, b, h);
    let bb = block / h;
    let hh = block % h;
    lemma_cell(bb, b, ss, s);
    let x = bb * s + ss;
    lemma_cell(x, b * s, hh, h);
    let y = x * h + hh;
    lemma_cell(y, b * s * h, dd, d);
    let z = y * d + dd;
    assert(z == swapped_index(s, h, d, o));
    assert(z / d == y && z % d == dd);
    assert(y / h == x && y % h == hh);
    assert(x / s == bb && x % s == ss);
    assert(swapped_index(h, s, d, z) == ((bb * h + hh) * s + ss) * d + dd);
}

/// Exchanging the middle dimensions twice brings every element back.
pub proof fn swapping_twice(b: int, s: int, h: int, d: int, o: int)
    requires
        0 <= b,
        0 <= s,
        0 <= h,
        0 <= d,
        0 <= o < b * h * s * d,
    ensures
        0 <= swapped_index(s, h, d, o) < b * s * h * d,
        swapped_index(h, s, d, swapped_index(s, h, d, o)) == o,
{
    lemma_swapped(b, s, h, d, o);
}

fn swapped_at(
    b: usize,
    s: usize,
    h: usize,
    d: usize,
    o: usize,
) -> (r: usize)
    requires
        four_fit(b as int, s as int, h as int, d as int),
        o < b * h * s * d,
    ensures
        r == swapped_index(s as int, h as int, d as int, o as int),
        r < b * s * h * d,
{
    proof {
        lemma_swapped(b as int, s as int, h as int, d as int, o as int);
    }
    let row: usize = o / d;
    let block: usize = row / s;
    proof {
        let x = (block / h) * s + row % s;
        let y = x * h + block % h;
        assert(x <= x * h && y <= y * d) by (nonlinear_arith)
            requires
                x >= 0,
                y >= 0,
                h >= 1,
                d >= 1,
        ;
    }
    (((block / h) * s + row % s) * h + block % h) * d + o % d
}

proof fn lemma_four(b: int, s: int, h: int, d: int)
    ensures
        b * s * h * d == b * h * s * d,
{
    assert(b * s * h == b * h * s) by (nonlinear_arith);
}

/// The elements with the middle dimensions exchanged.
pub open spec fn transpose_0213_out<T>(a: Seq<T>, s: int, h: int, d: int) -> Seq<T> {
    Seq::new(a.len(), |o: int| a[swapped_index(s, h, d, o)])
}

/// Exchanges the two middle dimensions of `b` blocks of `s` by `h` rows of `d` elements.
pub fn transpose_0213_forward<T: Scalar>(
    a: &Vec<T>,
    b: usize,
    s: usize,
    h: usize,
    d: usize,
) -> (r: Vec<T>)
    requires
        a@.len() == b * s * h * d,
    ensures
        r@ == transpose_0213_out(a@, s as int, h as int, d as int),
{
    let ghost goal = transpose_0213_out(a@, s as int, h as int, d as int);
    let n: usize = a.len();
    let mut r: Vec<T> = Vec::new();
    let mut o: usize = 0;
    while o < n
        invariant
            o <= n,
            n == a@.len(),
            n == b * s * h * d,
            goal == transpose_0213_out(a@, s as int, h as int, d as int),
            r@ == goal.take(o as int),
        decreases n - o,
    {
        proof {
            lemma_four(b as int, s as int, h as int, d as int);
        }
        let x: T = a[swapped_at(b, s, h, d, o)];
        assert(goal.take(o + 1) == goal.take(o as int).push(x));
        r.push(x);
        o += 1;
    }
    assert(goal.take(n as int) == goal);
    r
}

/// The gradient of the operand: every element gets the gradient of the element it became.
pub open spec fn transpose_0213_back<T: Scalar>(
    out_grad: Seq<T>,
    grad: Seq<T>,
    s: int,
    h: int,
    d: int,
) -> Seq<T> {
    Seq::new(grad.len(), |i: int| grad[i].spec_plus(out_grad[swapped_index(h, s, d, i)]))
}

/// Adds to the gradient of the operand.
pub fn transpose_0213_backward<T: Scalar>(
    out_grad: &Vec<T>,
    grad: &mut Vec<T>,
    b: usize,
    s: usize,
    h: usize,
    d: usize,
)
    requires
        old(grad)@.len() == b * s * h * d,
        out_grad@.len() == b * s * h * d,
    ensures
        final(grad)@ == transpose_0213_back(out_grad@, old(grad)@, s as int, h as int, d as int),
{
    let ghost goal = transpose_0213_back(out_grad@, grad@, s as int, h as int, d as int);
    let n: usize = grad.len();
    let mut i: usize = 0;
    while i < n
        invariant
            i <= n,
            n == b * s * h * d,
            grad@.len() == n,
            old(grad)@.len() == n,
            out_grad@.len() == n,
            goal == transpose_0213_back(out_grad@, old(grad)@, s as int, h as int, d as int),
            forall|x: int| 0 <= x < i ==> #[trigger] grad@[x] == goal[x],
            forall|x: int| i <= x < n ==> #[trigger] grad@[x] == old(grad)@[x],
        decreases n - i,
    {
        proof {
            lemma_four(b as int, s as int, h as int, d as int);
        }
        let x: T = grad[i].plus(out_grad[swapped_at(b, h, s, d, i)]);
        grad.set(i, x);
        i += 1;
    }
    assert(grad@ =~= goal);
}

/// Every row is there.
pub open spec fn rows_ok(rows: Seq<usize>, hidden: int, len: nat) -> bool {
    forall|i: int| 0 <= i < rows.len() ==> (#[trigger] rows[i] + 1) * hidden <= len
}

/// The rows of `w` that `rows` names, one after the other.
pub open spec fn gather_out<T>(w: Seq<T>, rows: Seq<usize>, hidden: int) -> Seq<T> {
    Seq::new((rows.len() * hidden) as nat, |o: int| w[rows[o / hidden] * hidden + o % hidden])
}

/// Gathers rows of `hidden` elements.
pub fn gather_forward<T: Scalar>(w: &Vec<T>, rows: &Vec<usize>, hidden: usize) -> (r: Vec<T>)
    requires
        rows_ok(rows@, hidden as int, w@.len()),
        rows@.len() * hidden <= usize::MAX,
    ensures
        r@ == gather_out(w@, rows@, hidden as int),
{
    let ghost goal = gather_out(w@, rows@, hidden as int);
    let n: usize = rows.len() * hidden;
    let mut r: Vec<T> = Vec::new();
    let mut o: usize = 0;
    while o < n
        invariant
            o <= n,
            n == rows@.len() * hidden,
            rows_ok(rows@, hidden as int, w@.len()),
            goal == gather_out(w@, rows@, hidden as int),
            r@ == goal.take(o as int),
        decreases n - o,
    {
        proof {
            lemma_uncell(o as int, rows@.len() as int, hidden as int);
        }
        assert(w@.len() == w.len());
        let at: usize = gather_at(rows[o / hidden], hidden, o % hidden, Ghost(w@.len()));
        let x: T = w[at];
        assert(goal.take(o + 1) == goal.take(o as int).push(x));
        r.push(x);
        o += 1;
    }
    assert(goal.take(n as int) == goal);
    r
}

fn gather_at(row: usize, hidden: usize, c: usize, Ghost(len): Ghost<nat>) -> (r: usize)
    requires
        (row + 1) * hidden <= len,
        len <= usize::MAX,
        c < hidden,
    ensures
        r == row * hidden + c,
        r < len,
{
    proof {
        lemma_cell(row as int, row + 1, c as int, hidden as int);
    }
    row * hidden + c
}

/// The gradient of the rows after the first `n` gathered elements have handed theirs back.
pub open spec fn gather_back<T: Scalar>(
    rows: Seq<usize>,
    hidden: int,
    out_grad: Seq<T>,
    grad: Seq<T>,
    n: nat,
) -> Seq<T>
    decreases n,
{
    if n == 0 {
        grad
    } else {
        let o = n - 1;
        add_at(
            gather_back(rows, hidden, out_grad, grad, o as nat),
            rows[o / hidden] * hidden + o % hidden,
            out_grad[o],
        )
    }
}

/// Adds to the gradient of the rows.
pub fn gather_backward<T: Scalar>(
    rows: &Vec<usize>,
    hidden: usize,
    out_grad: &Vec<T>,
    grad: &mut Vec<T>,
)
    requires
        rows_ok(rows@, hidden as int, old(grad)@.len()),
        out_grad@.len() == rows@.len() * hidden,
    ensures
        final(grad)@ == gather_back(rows@, hidden as int, out_grad@, old(grad)@, out_grad@.len()),
        final(grad)@.len() == old(grad)@.len(),
{
    let n: usize = out_grad.len();
    let mut o: usize = 0;
    while o < n
        invariant
            o <= n,
            n == out_grad@.len(),
            n == rows@.len() * hidden,
            grad@.len() == old(grad)@.len(),
            rows_ok(rows@, hidden as int, grad@.len()),
            grad@ == gather_back(rows@, hidden as int, out_grad@, old(grad)@, o as nat),
        decreases n - o,
    {
        proof {
            lemma_uncell(o as int, rows@.len() as int, hidden as int);
            assert(grad@.len() == grad.len());
        }
        let at: usize = gather_at(rows[o / hidden], hidden, o % hidden, Ghost(grad@.len()));
        let x: T = grad[at].plus(out_grad[o]);
        grad.set(at, x);
        o += 1;
    }
}

/// The indices that the elements of `a` stand for.
pub open spec fn as_rows<T: Scalar>(a: Seq<T>) -> Seq<usize> {
    a.map_values(|x: T| x.spec_as_index())
}

/// Reads elements as indices.
pub fn rows_of<T: Scalar>(a: &Vec<T>) -> (r: Vec<usize>)
    ensures
        r@ == as_rows(a@),
{
    let mut r: Vec<usize> = Vec::new();
    let ghost goal = as_rows(a@);
    let mut i: usize = 0;
    while i < a.len()
        invariant
            i <= a@.len(),
            goal == as_rows(a@),
            r@ == goal.take(i as int),
        decreases a@.len() - i,
    {
        let x: usize = a[i].as_index();
        assert(goal.take(i + 1) == goal.take(i as int).push(x));
        r.push(x);
        i += 1;
    }
    assert(goal.take(a@.len() as int) == goal);
    r
}

/// The gradients of two tensors with the same elements, added up.
pub open spec fn plain_back<T: Scalar>(out_grad: Seq<T>, grad: Seq<T>) -> Seq<T> {
    Seq::new(grad.len(), |i: int| grad[i].spec_plus(out_grad[i]))
}

/// Adds one gradient to another.
pub fn plain_backward<T: Scalar>(out_grad: &Vec<T>, grad: &mut Vec<T>)
    requires
        out_grad@.len() >= old(grad)@.len(),
    ensures
        final(grad)@ == plain_back(out_grad@, old(grad)@),
{
    let ghost goal = plain_back(out_grad@, grad@);
    let n: usize = grad.len();
    let mut i: usize = 0;
    while i < n
        invariant
            i <= n,
            grad@.len() == n,
            old(grad)@.len() == n,
            out_grad@.len() >= n,
            goal == plain_back(out_grad@, old(grad)@),
            forall|x: int| 0 <= x < i ==> #[trigger] grad@[x] == goal[x],
            forall|x: int| i <= x < n ==> #[trigger] grad@[x] == old(grad)@[x],
        decreases n - i,
    {
        let x: T = grad[i].plus(out_grad[i]);
        grad.set(i, x);
        i += 1;
    }
    assert(grad@ =~= goal);
}

/// `s` with the elements at `i` and `j` exchanged.
pub open spec fn swapped<A>(s: Seq<A>, i: int, j: int) -> Seq<A> {
    s.update(i, s[j]).update(j, s[i])
}

/// `v` with the elements at `i` and `j` exchanged.
pub fn with_swapped(v: &Vec<usize>, i: usize, j: usize) -> (r: Vec<usize>)
    requires
        i < v@.len(),
        j < v@.len(),
    ensures
        r@ == swapped(v@, i as int, j as int),
{
    let mut r = v.clone();
    let x: usize = v[i];
    let y: usize = v[j];
    r.set(i, y);
    r.set(j, x);
    assert(r@ =~= swapped(v@, i as int, j as int));
    r
}

/// Where the element that a strided view shows at position `i` of `shape` lies.
pub open spec fn strided_index(shape: Seq<usize>, strides: Seq<usize>, i: int) -> int {
    ravel(unravel(i, shape), strides) as int
}

/// All of the first `n` positions of the view lie within `len` elements.
pub open spec fn strided_ok(shape: Seq<usize>, strides: Seq<usize>, n: nat, len: nat) -> bool {
    forall|i: int| 0 <= i < n ==> #[trigger] strided_index(shape, strides, i) < len
}

/// The elements of a view in the order of its shape.
pub open spec fn strided_out<T>(a: Seq<T>, shape: Seq<usize>, strides: Seq<usize>) -> Seq<T> {
    Seq::new(a.len(), |i: int| a[strided_index(shape, strides, i)])
}

/// Writes the elements of a view one after the other.
pub fn strided_forward<T: Scalar>(a: &Vec<T>, shape: &Vec<usize>, strides: &Vec<usize>) -> (r: Vec<
    T,
>)
    requires
        a@.len() > 0 ==> all_positive(shape@),
        strided_ok(shape@, strides@, a@.len(), a@.len()),
    ensures
        r@ == strided_out(a@, shape@, strides@),
{
    let ghost goal = strided_out(a@, shape@, strides@);
    let n: usize = a.len();
    let mut r: Vec<T> = Vec::new();
    let mut i: usize = 0;
    while i < n
        invariant
            i <= n,
            n == a@.len(),
            n > 0 ==> all_positive(shape@),
            strided_ok(shape@, strides@, a@.len(), a@.len()),
            goal == strided_out(a@, shape@, strides@),
            r@ == goal.take(i as int),
        decreases n - i,
    {
        assert(strided_index(shape@, strides@, i as int) < a@.len());
        let nd = Tensor::<T>::flat_to_nd(i, shape.as_slice());
        let x: T = a[Tensor::<T>::nd_to_flat(nd.as_slice(), strides.as_slice())];
        assert(goal.take(i + 1) == goal.take(i as int).push(x));
        r.push(x);
        i += 1;
    }
    assert(goal.take(n as int) == goal);
    r
}

/// The gradient of the elements after the first `n` positions of a view have handed theirs back.
pub open spec fn strided_back<T: Scalar>(
    shape: Seq<usize>,
    strides: Seq<usize>,
    out_grad: Seq<T>,
    grad: Seq<T>,
    n: nat,
) -> Seq<T>
    decreases n,
{
    if n == 0 {
        grad
    } else {
        add_at(
            strided_back(shape, strides, out_grad, grad, (n - 1) as nat),
            strided_index(shape, strides, n - 1),
            out_grad[n - 1],
        )
    }
}

/// Adds to the gradient of the elements behind a view.
pub fn strided_backward<T: Scalar>(
    shape: &Vec<usize>,
    strides: &Vec<usize>,
    out_grad: &Vec<T>,
    grad: &mut Vec<T>,
)
    requires
        out_grad@.len() > 0 ==> all_positive(shape@),
        strided_ok(shape@, strides@, out_grad@.len(), old(grad)@.len()),
    ensures
        final(grad)@ == strided_back(shape@, strides@, out_grad@, old(grad)@, out_grad@.len()),
        final(grad)@.len() == old(grad)@.len(),
{
    let n: usize = out_grad.len();
    let mut i: usize = 0;
    while i < n
        invariant
            i <= n,
            n == out_grad@.len(),
            n > 0 ==> all_positive(shape@),
            grad@.len() == old(grad)@.len(),
            strided_ok(shape@, strides@, out_grad@.len(), grad@.len()),
            grad@ == strided_back(shape@, strides@, out_grad@, old(grad)@, i as nat),
        decreases n - i,
    {
        assert(strided_index(shape@, strides@, i as int) < grad@.len());
        assert(grad@.len() == grad.len());
        let nd = Tensor::<T>::flat_to_nd(i, shape.as_slice());
        let at: usize = Tensor::<T>::nd_to_flat(nd.as_slice(), strides.as_slice());
        let x: T = grad[at].plus(out_grad[i]);
        grad.set(at, x);
        i += 1;
    }
}

/// The sizes of a rotation: rows of `hidden` elements, `seq` of them to a sequence, the elements of
/// a row taken in heads of `head`.
#[derive(Clone, Copy, Debug, PartialEq, Eq, Structural)]
pub struct RopeDims {
    pub rows: usize,
    pub seq: usize,
    pub hidden: usize,
    pub head: usize,
}

impl RopeDims {
    pub open spec fn wf(self) -> bool {
        self.head > 0 && (self.rows > 0 ==> self.seq > 0)
    }

    /// The place of element `o` in its row.
    pub open spec fn column(self, o: int) -> int {
        o % self.hidden as int
    }

    /// The place of element `o` in its head.
    pub open spec fn within(self, o: int) -> int {
        self.column(o) % self.head as int
    }

    /// Whether element `o` is one of a pair that is turned. The last element of a head of odd size,
    /// and one whose partner would lie behind the row, are not.
    pub open spec fn turns(self, o: int) -> bool {
        &&& o < self.rows * self.hidden
        &&& (self.within(o) / 2) * 2 + 1 < self.head
        &&& self.column(o) - self.within(o) + (self.within(o) / 2) * 2 + 1 < self.hidden
    }

    /// The angle by which the pair of element `o` is turned.
    pub open spec fn angle<T: Scalar>(self, o: int) -> T {
        let pos = (o / self.hidden as int) % self.seq as int;
        let two = T::spec_from_count(2);
        T::spec_from_count(pos as usize).spec_over(
            T::spec_from_count(10000).spec_raised(
                two.spec_times(T::spec_from_count((self.within(o) / 2) as usize)).spec_over(
                    T::spec_from_count(self.head),
                ),
            ),
        )
    }
}

/// Every pair turned by the angle of its position.
pub open spec fn rope_out<T: Scalar>(a: Seq<T>, d: RopeDims) -> Seq<T> {
    Seq::new(
        a.len(),
        |o: int|
            if !d.turns(o) {
                a[o]
            } else {
                let (sin, cos) = (d.angle::<T>(o).spec_sin(), d.angle::<T>(o).spec_cos());
                if d.within(o) % 2 == 0 {
                    a[o].spec_times(cos).spec_minus(a[o + 1].spec_times(sin))
                } else {
                    a[o - 1].spec_times(sin).spec_plus(a[o].spec_times(cos))
                }
            },
    )
}

/// The gradient of the operand: that of every pair turned back and added.
pub open spec fn rope_back<T: Scalar>(out_grad: Seq<T>, grad: Seq<T>, d: RopeDims) -> Seq<T> {
    Seq::new(
        grad.len(),
        |o: int|
            if !d.turns(o) {
                grad[o]
            } else {
                let (sin, cos) = (d.angle::<T>(o).spec_sin(), d.angle::<T>(o).spec_cos());
                if d.within(o) % 2 == 0 {
                    grad[o].spec_plus(
                        out_grad[o].spec_times(cos).spec_plus(out_grad[o + 1].spec_times(sin)),
                    )
                } else {
                    grad[o].spec_plus(
                        out_grad[o - 1].spec_negated().spec_times(sin).spec_plus(
                            out_grad[o].spec_times(cos),
                        ),
                    )
                }
            },
    )
}

/// What happens to one element of a rotation.
enum Turn<T> {
    Stays,
    First(T, T),
    Second(T, T),
}

spec fn turn_of<T: Scalar>(d: RopeDims, o: int) -> Turn<T> {
    if !d.turns(o) {
        Turn::Stays
    } else if d.within(o) % 2 == 0 {
        Turn::First(d.angle::<T>(o).spec_sin(), d.angle::<T>(o).spec_cos())
    } else {
        Turn::Second(d.angle::<T>(o).spec_sin(), d.angle::<T>(o).spec_cos())
    }
}

proof fn lemma_partner(d: RopeDims, o: int)
    requires
        d.wf(),
        0 <= o,
        d.turns(o),
    ensures
        d.hidden > 0,
        d.rows > 0,
        d.within(o) % 2 == 0 ==> o + 1 < d.rows * d.hidden,
        d.within(o) % 2 != 0 ==> o >= 1,
        0 <= d.within(o) <= d.column(o) < d.hidden,
        0 <= o / d.hidden as int,
{
    lemma_uncell(o, d.rows as int, d.hidden as int);
    let c = d.column(o);
    let w = d.within(o);
    vstd::arithmetic::div_mod::lemma_fundamental_div_mod(c, d.head as int);
    assert(0 <= w <= c) by {
        assert(0 <= c / d.head as int * d.head) by (nonlinear_arith)
            requires
                c >= 0,
                d.head > 0,
        ;
        assert(d.head * (c / d.head as int) == c / d.head as int * d.head) by (nonlinear_arith);
    }
    if w % 2 == 0 {
        assert(c + 1 < d.hidden);
        lemma_cell(o / d.hidden as int, d.rows as int, c + 1, d.hidden as int);
    }
}

fn turn_at<T: Scalar>(d: RopeDims, o: usize, Ghost(len): Ghost<nat>) -> (r: Turn<T>)
    requires
        d.wf(),
        d.rows * d.hidden <= len,
        len <= usize::MAX,
        o < len,
    ensures
        r == turn_of::<T>(d, o as int),
        r is First ==> o + 1 < len,
        r is Second ==> o >= 1,
{
    if d.hidden == 0 || o >= d.rows * d.hidden {
        proof {
            assert(d.rows * 0 == 0) by (nonlinear_arith);
        }
        return Turn::Stays;
    }
    proof {
        lemma_uncell(o as int, d.rows as int, d.hidden as int);
    }
    let column: usize = o % d.hidden;
    let within: usize = column % d.head;
    proof {
        vstd::arithmetic::div_mod::lemma_fundamental_div_mod(column as int, d.head as int);
        assert(0 <= column as int / d.head as int * d.head) by (nonlinear_arith)
            requires
                column >= 0,
                d.head > 0,
        ;
        assert(d.head * (column as int / d.head as int) == column as int / d.head as int * d.head)
            by (nonlinear_arith);
        assert(within <= column);
    }
    let pair: usize = within / 2;
    if pair >= d.head / 2 || column - within >= d.hidden - 1 || pair * 2 + 1 >= d.hidden - (column
        - within) {
        return Turn::Stays;
    }
    assert(d.turns(o as int));
    proof {
        lemma_partner(d, o as int);
    }
    let pos: usize = (o / d.hidden) % d.seq;
    let angle: T = T::from_count(pos).over(
        T::from_count(10000).raised(
            T::from_count(2).times(T::from_count(pair)).over(T::from_count(d.head)),
        ),
    );
    if within % 2 == 0 {
        Turn::First(angle.sin(), angle.cos())
    } else {
        Turn::Second(angle.sin(), angle.cos())
    }
}

/// Turns the pairs.
pub fn rope_forward<T: Scalar>(a: &Vec<T>, d: RopeDims) -> (r: Vec<T>)
    requires
        d.wf(),
        d.rows * d.hidden <= a@.len(),
    ensures
        r@ == rope_out(a@, d),
{
    let ghost goal = rope_out(a@, d);
    let n: usize = a.len();
    let mut r: Vec<T> = Vec::new();
    let mut o: usize = 0;
    while o < n
        invariant
            o <= n,
            n == a@.len(),
            d.wf(),
            d.rows * d.hidden <= a@.len(),
            goal == rope_out(a@, d),
            r@ == goal.take(o as int),
        decreases n - o,
    {
        let x: T = match turn_at::<T>(d, o, Ghost(a@.len())) {
            Turn::Stays => a[o],
            Turn::First(sin, cos) => a[o].times(cos).minus(a[o + 1].times(sin)),
            Turn::Second(sin, cos) => a[o - 1].times(sin).plus(a[o].times(cos)),
        };
        assert(goal.take(o + 1) == goal.take(o as int).push(x));
        r.push(x);
        o += 1;
    }
    assert(goal.take(n as int) == goal);
    r
}

/// Adds to the gradient of the operand.
pub fn rope_backward<T: Scalar>(out_grad: &Vec<T>, grad: &mut Vec<T>, d: RopeDims)
    requires
        d.wf(),
        d.rows * d.hidden <= old(grad)@.len(),
        out_grad@.len() == old(grad)@.len(),
    ensures
        final(grad)@ == rope_back(out_grad@, old(grad)@, d),
{
    let ghost goal = rope_back(out_grad@, grad@, d);
    let n: usize = grad.len();
    let mut o: usize = 0;
    while o < n
        invariant
            o <= n,
            d.wf(),
            d.rows * d.hidden <= n,
            grad@.len() == n,
            old(grad)@.len() == n,
            out_grad@.len() == n,
            goal == rope_back(out_grad@, old(grad)@, d),
            forall|x: int| 0 <= x < o ==> #[trigger] grad@[x] == goal[x],
            forall|x: int| o <= x < n ==> #[trigger] grad@[x] == old(grad)@[x],
        decreases n - o,
    {
        let x: T = match turn_at::<T>(d, o, Ghost(n as nat)) {
            Turn::Stays => grad[o],
            Turn::First(sin, cos) => grad[o].plus(
                out_grad[o].times(cos).plus(out_grad[o + 1].times(sin)),
            ),
            Turn::Second(sin, cos) => grad[o].plus(
                out_grad[o - 1].negated().times(sin).plus(out_grad[o].times(cos)),
            ),
        };
        grad.set(o, x);
        o += 1;
    }
    assert(grad@ =~= goal);
}

} // verus!
