//! Shapes, strides and storage of tensors.
use crate::scalar::Scalar;
use vstd::arithmetic::div_mod::{
    lemma_div_denominator, lemma_div_multiples_vanish_fancy, lemma_fundamental_div_mod,
    lemma_mod_multiples_vanish,
};
use vstd::pervasive::unreached;
use vstd::prelude::*;

verus! {

/// The upper half of the bits of a number of 32 bits: a float in the shorter format.
pub fn f32_to_bf16u(bits: u32) -> (r: u16)
    ensures
        r == (bits >> 16u32) as u16,
        r == bits / 0x1_0000,
{
    assert((bits >> 16u32) == bits / 0x1_0000) by (bit_vector);
    (bits >> 16u32) as u16
}

/// The bits of a float given in the shorter format.
pub fn bf16u_to_f32(b: u16) -> (r: u32)
    ensures
        r == (b as u32) << 16u32,
        r == b * 0x1_0000,
{
    assert(((b as u32) << 16u32) == b * 0x1_0000) by (bit_vector);
    (b as u32) << 16u32
}

/// The shorter format loses the lower half of the bits and nothing else.
pub proof fn bf16_round_trip(bits: u32, b: u16)
    ensures
        (((b as u32) << 16u32) >> 16u32) as u16 == b,
        (((bits >> 16u32) as u16) as u32) << 16u32 == bits & 0xffff_0000u32,
{
    assert((((b as u32) << 16u32) >> 16u32) as u16 == b) by (bit_vector);
    assert((((bits >> 16u32) as u16) as u32) << 16u32 == bits & 0xffff_0000u32) by (bit_vector);
}

/// The number of elements of a tensor of shape `s`.
pub open spec fn product(s: Seq<usize>) -> nat
    decreases s.len(),
{
    if s.len() == 0 {
        1
    } else {
        s[0] as nat * product(s.skip(1))
    }
}

/// The elements from each dimension on can be counted.
pub open spec fn shape_fits(s: Seq<usize>) -> bool {
    forall|i: int| 0 <= i <= s.len() ==> product(#[trigger] s.skip(i)) <= usize::MAX
}

/// How far apart neighbours along each dimension lie when the elements follow each other with the
/// last index running fastest.
pub open spec fn strides_of(s: Seq<usize>) -> Seq<usize> {
    Seq::new(s.len(), |i: int| product(s.skip(i + 1)) as usize)
}

/// Dimension `i` of `s` seen as a shape of `n` dimensions: ones are put in front.
pub open spec fn padded(s: Seq<usize>, n: int, i: int) -> usize {
    if i < n - s.len() {
        1
    } else {
        s[i - (n - s.len())]
    }
}

pub open spec fn max_len(a: nat, b: nat) -> nat {
    if a >= b {
        a
    } else {
        b
    }
}

/// The greater of two dimensions each, aligned at the last one.
pub open spec fn broadcast_shape(a: Seq<usize>, b: Seq<usize>) -> Seq<usize> {
    let n = max_len(a.len(), b.len());
    Seq::new(
        n,
        |i: int|
            if padded(a, n as int, i) >= padded(b, n as int, i) {
                padded(a, n as int, i)
            } else {
                padded(b, n as int, i)
            },
    )
}

/// The strides that repeat a tensor of shape `shape` over `out`: zero along a dimension in which
/// the two differ.
pub open spec fn broadcast_strides(
    shape: Seq<usize>,
    strides: Seq<usize>,
    out: Seq<usize>,
) -> Seq<usize> {
    let pad = out.len() - shape.len();
    Seq::new(
        out.len(),
        |i: int|
            if i >= pad && shape[i - pad] == out[i] {
                strides[i - pad]
            } else {
                0
            },
    )
}

/// The indices of the element at position `flat`.
pub open spec fn unravel(flat: int, shape: Seq<usize>) -> Seq<usize> {
    Seq::new(
        shape.len(),
        |i: int| ((flat / product(shape.skip(i + 1)) as int) % shape[i] as int) as usize,
    )
}

/// The position of the element with indices `nd`, from dimension `i` on.
pub open spec fn ravel_from(nd: Seq<usize>, strides: Seq<usize>, i: int) -> nat
    decreases nd.len() - i,
{
    if i < 0 || i >= nd.len() || i >= strides.len() {
        0
    } else {
        nd[i] as nat * strides[i] as nat + ravel_from(nd, strides, i + 1)
    }
}

/// The position of the element with indices `nd`.
pub open spec fn ravel(nd: Seq<usize>, strides: Seq<usize>) -> nat {
    ravel_from(nd, strides, 0)
}

pub open spec fn all_positive(s: Seq<usize>) -> bool {
    forall|i: int| 0 <= i < s.len() ==> #[trigger] s[i] > 0
}

pub proof fn lemma_product_step(s: Seq<usize>, i: int)
    requires
        0 <= i < s.len(),
    ensures
        product(s.skip(i)) == s[i] as nat * product(s.skip(i + 1)),
{
    assert(s.skip(i).skip(1) == s.skip(i + 1));
}

pub proof fn lemma_product_end(s: Seq<usize>)
    ensures
        product(s.skip(s.len() as int)) == 1,
        s.skip(0) == s,
{
    assert(s.skip(s.len() as int).len() == 0);
}

pub proof fn lemma_product_positive(s: Seq<usize>)
    ensures
        product(s) > 0 <==> all_positive(s),
    decreases s.len(),
{
    if s.len() > 0 {
        let t = s.skip(1);
        lemma_product_positive(t);
        if all_positive(s) {
            assert forall|i: int| 0 <= i < t.len() implies #[trigger] t[i] > 0 by {
                assert(t[i] == s[i + 1]);
            }
            assert(s[0] as nat * product(t) > 0) by (nonlinear_arith)
                requires
                    s[0] > 0,
                    product(t) > 0,
            ;
        } else {
            let i = choose|i: int| 0 <= i < s.len() && s[i] == 0;
            if i == 0 {
                assert(s[0] as nat * product(t) == 0) by (nonlinear_arith)
                    requires
                        s[0] == 0,
                ;
            } else {
                assert(t[i - 1] == 0);
                assert(s[0] as nat * product(t) == 0) by (nonlinear_arith)
                    requires
                        product(t) == 0,
                ;
            }
        }
    }
}

/// A suffix product never exceeds the whole where no dimension is zero.
pub proof fn lemma_product_suffix(s: Seq<usize>, i: int)
    requires
        all_positive(s),
        0 <= i <= s.len(),
    ensures
        0 < product(s.skip(i)) <= product(s),
    decreases i,
{
    lemma_product_end(s);
    lemma_product_positive(s);
    if i > 0 {
        lemma_product_suffix(s, i - 1);
        lemma_product_step(s, i - 1);
        assert forall|j: int| 0 <= j < s.skip(i).len() implies #[trigger] s.skip(i)[j] > 0 by {
            assert(s.skip(i)[j] == s[j + i]);
        }
        lemma_product_positive(s.skip(i));
        assert(product(s.skip(i)) <= s[i - 1] as nat * product(s.skip(i))) by (nonlinear_arith)
            requires
                s[i - 1] > 0,
        ;
    }
}

pub proof fn lemma_fits_positive(s: Seq<usize>)
    requires
        all_positive(s),
        product(s) <= usize::MAX,
    ensures
        shape_fits(s),
{
    assert forall|i: int| 0 <= i <= s.len() implies product(#[trigger] s.skip(i)) <= usize::MAX by {
        lemma_product_suffix(s, i);
    }
}

/// The number of elements of a shape.
pub fn element_count(shape: &[usize]) -> (r: usize)
    requires
        shape_fits(shape@),
    ensures
        r == product(shape@),
{
    let mut n: usize = 1;
    let mut i: usize = shape.len();
    proof {
        lemma_product_end(shape@);
    }
    while i > 0
        invariant
            i <= shape@.len(),
            shape_fits(shape@),
            n == product(shape@.skip(i as int)),
        decreases i,
    {
        proof {
            lemma_product_step(shape@, i - 1);
            assert(product(shape@.skip(i - 1)) <= usize::MAX);
            assert(shape@[i - 1] as nat * n as nat == n * shape@[i - 1]) by (nonlinear_arith);
        }
        n = shape[i - 1] * n;
        i -= 1;
    }
    proof {
        lemma_product_end(shape@);
    }
    n
}

/// Where a tensor lives.
#[derive(Clone, Copy, Debug, PartialEq, Eq, Structural)]
pub enum Device {
    Cpu,
    Gpu,
}

/// A buffer in device memory: a handle to it and its number of elements.
#[derive(Clone, Copy, Debug, PartialEq, Eq, Structural)]
pub struct DeviceBuffer {
    pub handle: usize,
    pub len: usize,
}

/// The elements of a tensor, on the host or on the device, in full or in 16 bits each.
pub enum Storage<T> {
    Cpu(Vec<T>),
    Gpu(DeviceBuffer),
    GpuBf16(DeviceBuffer),
    /// Halves the memory of weights that are streamed. Gradients are never kept so.
    CpuBf16(Vec<u16>),
}

/// The elements of `v`, from 16 bits each.
pub open spec fn from_halves<T: Scalar>(v: Seq<u16>) -> Seq<T> {
    v.map_values(|h: u16| T::spec_from_half(h))
}

/// The elements of `v` in 16 bits each.
pub open spec fn to_halves<T: Scalar>(v: Seq<T>) -> Seq<u16> {
    v.map_values(|x: T| x.spec_to_half())
}

/// A copy of `v`.
pub fn copy_of<T: Scalar>(v: &Vec<T>) -> (r: Vec<T>)
    ensures
        r@ == v@,
{
    let mut r: Vec<T> = Vec::new();
    let mut i: usize = 0;
    while i < v.len()
        invariant
            i <= v@.len(),
            r@ == v@.take(i as int),
        decreases v@.len() - i,
    {
        assert(v@.take(i + 1) == v@.take(i as int).push(v@[i as int]));
        r.push(v[i]);
        i += 1;
    }
    assert(v@.take(v@.len() as int) == v@);
    r
}

/// `v` in 16 bits each.
pub fn halves_of<T: Scalar>(v: &Vec<T>) -> (r: Vec<u16>)
    ensures
        r@ == to_halves(v@),
{
    let mut r: Vec<u16> = Vec::new();
    let mut i: usize = 0;
    while i < v.len()
        invariant
            i <= v@.len(),
            r@ == to_halves(v@).take(i as int),
        decreases v@.len() - i,
    {
        assert(to_halves(v@).take(i + 1) == to_halves(v@).take(i as int).push(
            v@[i as int].spec_to_half(),
        ));
        r.push(v[i].to_half());
        i += 1;
    }
    assert(to_halves(v@).take(v@.len() as int) == to_halves(v@));
    r
}

/// The elements of `v` in full.
pub fn widened<T: Scalar>(v: &Vec<u16>) -> (r: Vec<T>)
    ensures
        r@ == from_halves::<T>(v@),
{
    let mut r: Vec<T> = Vec::new();
    let mut i: usize = 0;
    while i < v.len()
        invariant
            i <= v@.len(),
            r@ == from_halves::<T>(v@).take(i as int),
        decreases v@.len() - i,
    {
        assert(from_halves::<T>(v@).take(i + 1) == from_halves::<T>(v@).take(i as int).push(
            T::spec_from_half(v@[i as int]),
        ));
        r.push(T::from_half(v[i]));
        i += 1;
    }
    assert(from_halves::<T>(v@).take(v@.len() as int) == from_halves::<T>(v@));
    r
}

/// `n` times `x`.
pub fn filled<T: Scalar>(x: T, n: usize) -> (r: Vec<T>)
    ensures
        r@ == Seq::new(n as nat, |i: int| x),
{
    let mut r: Vec<T> = Vec::new();
    let mut i: usize = 0;
    while i < n
        invariant
            i <= n,
            r@ == Seq::new(i as nat, |i: int| x),
        decreases n - i,
    {
        r.push(x);
        i += 1;
        assert(r@ =~= Seq::new(i as nat, |i: int| x));
    }
    r
}

impl<T: Scalar> Storage<T> {
    pub open spec fn spec_len(&self) -> nat {
        match self {
            Storage::Cpu(v) => v@.len(),
            Storage::Gpu(b) => b.len as nat,
            Storage::GpuBf16(b) => b.len as nat,
            Storage::CpuBf16(v) => v@.len(),
        }
    }

    /// The elements, where they are on the host in full.
    pub open spec fn values(&self) -> Seq<T> {
        match self {
            Storage::Cpu(v) => v@,
            Storage::CpuBf16(v) => from_halves(v@),
            _ => Seq::empty(),
        }
    }

    /// Whether the elements are in device memory.
    pub open spec fn on_device(&self) -> bool {
        self is Gpu || self is GpuBf16
    }

    /// The bytes of device memory that the elements take.
    pub open spec fn device_bytes(&self) -> nat {
        match self {
            Storage::Gpu(b) => b.len as nat * 4,
            Storage::GpuBf16(b) => b.len as nat * 2,
            _ => 0,
        }
    }

    /// The number of elements.
    pub fn len(&self) -> (r: usize)
        ensures
            r == self.spec_len(),
    {
        match self {
            Storage::Cpu(v) => v.len(),
            Storage::Gpu(b) => b.len,
            Storage::GpuBf16(b) => b.len,
            Storage::CpuBf16(v) => v.len(),
        }
    }

    /// The elements on the host.
    pub fn as_cpu(&self) -> (r: &Vec<T>)
        requires
            self is Cpu,
        ensures
            *r == self->Cpu_0,
    {
        match self {
            Storage::Cpu(v) => v,
            _ => unreached(),
        }
    }

    /// The elements on the host, to be changed in place.
    pub fn as_cpu_mut(&mut self) -> (r: &mut Vec<T>)
        requires
            (*old(self)) is Cpu,
        ensures
            *r == (*old(self))->Cpu_0,
            *final(self) == Storage::Cpu(*final(r)),
    {
        match self {
            Storage::Cpu(v) => v,
            _ => unreached(),
        }
    }

    /// A copy of the elements on the host, in full.
    pub fn to_f32_vec(&self) -> (r: Vec<T>)
        requires
            !self.on_device(),
        ensures
            r@ == self.values(),
    {
        match self {
            Storage::Cpu(v) => copy_of(v),
            Storage::CpuBf16(v) => widened(v),
            _ => Vec::new(),
        }
    }

    /// How to read the elements.
    pub fn fetch(&self) -> (r: Fetch<T>)
        ensures
            fetches(*self, r),
    {
        match self {
            Storage::Cpu(v) => Fetch::Ready(copy_of(v)),
            Storage::CpuBf16(v) => Fetch::Ready(widened(v)),
            Storage::Gpu(b) => Fetch::Full(*b),
            Storage::GpuBf16(b) => Fetch::Half(*b),
        }
    }

    /// Whether the elements are on the host.
    pub fn is_cpu(&self) -> (r: bool)
        ensures
            r == !self.on_device(),
    {
        match self {
            Storage::Cpu(_) => true,
            Storage::CpuBf16(_) => true,
            _ => false,
        }
    }

    /// A short description: the kind of storage and the number of elements.
    pub fn kind(&self) -> (r: StorageKind)
        ensures
            r == self.spec_kind(),
    {
        match self {
            Storage::Cpu(_) => StorageKind::Cpu,
            Storage::Gpu(_) => StorageKind::Gpu,
            Storage::GpuBf16(_) => StorageKind::GpuBf16,
            Storage::CpuBf16(_) => StorageKind::CpuBf16,
        }
    }

    pub open spec fn spec_kind(&self) -> StorageKind {
        match self {
            Storage::Cpu(_) => StorageKind::Cpu,
            Storage::Gpu(_) => StorageKind::Gpu,
            Storage::GpuBf16(_) => StorageKind::GpuBf16,
            Storage::CpuBf16(_) => StorageKind::CpuBf16,
        }
    }
}

/// Elements on the host, or the buffer on the device to read them from.
pub enum Fetch<T> {
    Ready(Vec<T>),
    Full(DeviceBuffer),
    /// They are in 16 bits each.
    Half(DeviceBuffer),
}

/// `f` tells how to read the elements `s`.
pub open spec fn fetches<T: Scalar>(s: Storage<T>, f: Fetch<T>) -> bool {
    match s {
        Storage::Gpu(b) => f == Fetch::<T>::Full(b),
        Storage::GpuBf16(b) => f == Fetch::<T>::Half(b),
        _ => f matches Fetch::Ready(v) && v@ == s.values(),
    }
}

/// Where and how the elements of a tensor are kept.
#[derive(Clone, Copy, Debug, PartialEq, Eq, Structural)]
pub enum StorageKind {
    Cpu,
    Gpu,
    GpuBf16,
    CpuBf16,
}

/// Whether the elements are in device memory in 16 bits each.
pub fn is_bf16<T: Scalar>(s: &Storage<T>) -> (r: bool)
    ensures
        r == (s is GpuBf16),
{
    match s {
        Storage::GpuBf16(_) => true,
        _ => false,
    }
}

/// A tensor: its shape, its elements and its gradient.
pub struct Tensor<T> {
    pub id: usize,
    pub shape: Vec<usize>,
    pub strides: Vec<usize>,
    pub data: Storage<T>,
    pub grad: Storage<T>,
    pub device: Device,
    pub name: Option<String>,
    pub is_pooled: bool,
    pub is_param: bool,
}

impl<T: Scalar> Tensor<T> {
    /// Shape and strides go together, and the elements can be counted.
    pub open spec fn shape_wf(&self) -> bool {
        shape_fits(self.shape@) && self.strides@ == strides_of(self.shape@)
    }

    pub open spec fn elements(&self) -> nat {
        product(self.shape@)
    }

    /// A tensor wholly on the host.
    pub open spec fn wf_cpu(&self) -> bool {
        &&& self.shape_wf()
        &&& self.data is Cpu
        &&& self.grad is Cpu
        &&& self.data->Cpu_0@.len() == self.elements()
        &&& self.grad->Cpu_0@.len() == self.elements()
    }

    /// A tensor on the host with a gradient of zeros.
    pub fn new(id: usize, shape: Vec<usize>, data: Vec<T>) -> (r: Self)
        requires
            shape_fits(shape@),
        ensures
            r.id == id,
            r.shape == shape,
            r.strides@ == strides_of(shape@),
            r.data == Storage::Cpu(data),
            r.grad is Cpu,
            r.grad->Cpu_0@ == Seq::new(product(shape@), |i: int| T::spec_zero()),
            r.device == Device::Cpu,
            r.name is None,
            !r.is_pooled,
            !r.is_param,
    {
        let size: usize = element_count(shape.as_slice());
        let strides = Self::compute_strides(shape.as_slice());
        Tensor {
            id,
            shape,
            strides,
            data: Storage::Cpu(data),
            grad: Storage::Cpu(filled(T::zero(), size)),
            device: Device::Cpu,
            name: None,
            is_pooled: false,
            is_param: false,
        }
    }

    /// How to read the elements on the host.
    pub fn sync_to_cpu(&self) -> (r: Fetch<T>)
        ensures
            fetches(self.data, r),
    {
        self.data.fetch()
    }

    /// How to read the gradient on the host.
    pub fn sync_grad_to_cpu(&self) -> (r: Fetch<T>)
        ensures
            fetches(self.grad, r),
    {
        self.grad.fetch()
    }

    /// The strides of a shape whose elements follow each other.
    pub fn compute_strides(shape: &[usize]) -> (r: Vec<usize>)
        requires
            shape_fits(shape@),
        ensures
            r@ == strides_of(shape@),
    {
        let n: usize = shape.len();
        let mut strides: Vec<usize> = filled_with_zero(n);
        let mut current: usize = 1;
        let mut i: usize = n;
        proof {
            lemma_product_end(shape@);
        }
        while i > 0
            invariant
                i <= n,
                n == shape@.len(),
                shape_fits(shape@),
                strides@.len() == n,
                current == product(shape@.skip(i as int)),
                forall|j: int| i <= j < n ==> #[trigger] strides@[j] == strides_of(shape@)[j],
            decreases i,
        {
            i -= 1;
            strides.set(i, current);
            proof {
                lemma_product_step(shape@, i as int);
                assert(product(shape@.skip(i as int)) <= usize::MAX);
                assert(shape@[i as int] as nat * current as nat == current * shape@[i as int])
                    by (nonlinear_arith);
            }
            current = current * shape[i];
        }
        assert(strides@ =~= strides_of(shape@));
        strides
    }

    /// The shape that two shapes are brought to: the greater dimension each.
    pub fn get_broadcasted_shape(a: &[usize], b: &[usize]) -> (r: Vec<usize>)
        ensures
            r@ == broadcast_shape(a@, b@),
    {
        let n: usize = if a.len() >= b.len() {
            a.len()
        } else {
            b.len()
        };
        let pa: usize = n - a.len();
        let pb: usize = n - b.len();
        let mut out: Vec<usize> = Vec::new();
        let mut i: usize = 0;
        while i < n
            invariant
                i <= n,
                n == max_len(a@.len(), b@.len()),
                pa == n - a@.len(),
                pb == n - b@.len(),
                out@ == broadcast_shape(a@, b@).take(i as int),
            decreases n - i,
        {
            let da: usize = if i < pa {
                1
            } else {
                a[i - pa]
            };
            let db: usize = if i < pb {
                1
            } else {
                b[i - pb]
            };
            let d: usize = if da >= db {
                da
            } else {
                db
            };
            assert(broadcast_shape(a@, b@).take(i + 1)
                == broadcast_shape(a@, b@).take(i as int).push(d));
            out.push(d);
            i += 1;
        }
        assert(broadcast_shape(a@, b@).take(n as int) == broadcast_shape(a@, b@));
        out
    }

    /// The strides that repeat a tensor over a broadcast shape.
    pub fn get_broadcasted_strides(
        shape: &[usize],
        base_strides: &[usize],
        broadcasted_shape: &[usize],
    ) -> (r: Vec<usize>)
        requires
            shape@.len() <= broadcasted_shape@.len(),
            base_strides@.len() >= shape@.len(),
        ensures
            r@ == broadcast_strides(shape@, base_strides@, broadcasted_shape@),
    {
        let n: usize = broadcasted_shape.len();
        let pad: usize = n - shape.len();
        let mut r: Vec<usize> = Vec::new();
        let mut i: usize = 0;
        let ghost goal = broadcast_strides(shape@, base_strides@, broadcasted_shape@);
        while i < n
            invariant
                i <= n,
                n == broadcasted_shape@.len(),
                pad == n - shape@.len(),
                base_strides@.len() >= shape@.len(),
                goal == broadcast_strides(shape@, base_strides@, broadcasted_shape@),
                r@ == goal.take(i as int),
            decreases n - i,
        {
            let stride: usize = if i >= pad && shape[i - pad] == broadcasted_shape[i] {
                base_strides[i - pad]
            } else {
                0
            };
            assert(goal.take(i + 1) == goal.take(i as int).push(stride));
            r.push(stride);
            i += 1;
        }
        assert(goal.take(n as int) == goal);
        r
    }

    /// The indices of the element at position `flat`.
    pub fn flat_to_nd(flat: usize, shape: &[usize]) -> (r: Vec<usize>)
        requires
            all_positive(shape@),
        ensures
            r@ == unravel(flat as int, shape@),
    {
        let n: usize = shape.len();
        let mut nd: Vec<usize> = filled_with_zero(n);
        let mut rest: usize = flat;
        let mut i: usize = n;
        proof {
            lemma_product_end(shape@);
        }
        while i > 0
            invariant
                i <= n,
                n == shape@.len(),
                all_positive(shape@),
                nd@.len() == n,
                rest == flat as int / product(shape@.skip(i as int)) as int,
                product(shape@.skip(i as int)) > 0,
                forall|j: int| i <= j < n ==> #[trigger] nd@[j] == unravel(flat as int, shape@)[j],
            decreases i,
        {
            i -= 1;
            assert(shape@[i as int] > 0);
            nd.set(i, rest % shape[i]);
            proof {
                lemma_product_step(shape@, i as int);
                let p = product(shape@.skip(i + 1)) as int;
                let d = shape@[i as int] as int;
                assert(d * p > 0) by (nonlinear_arith)
                    requires
                        d > 0,
                        p > 0,
                ;
                lemma_div_denominator(flat as int, p, d);
                assert(p * d == d * p) by (nonlinear_arith);
            }
            rest = rest / shape[i];
        }
        assert(nd@ =~= unravel(flat as int, shape@));
        nd
    }

    /// The position of the element with indices `nd`.
    pub fn nd_to_flat(nd: &[usize], strides: &[usize]) -> (r: usize)
        requires
            ravel(nd@, strides@) <= usize::MAX,
        ensures
            r == ravel(nd@, strides@),
    {
        let n: usize = if nd.len() <= strides.len() {
            nd.len()
        } else {
            strides.len()
        };
        let mut sum: usize = 0;
        let mut i: usize = 0;
        while i < n
            invariant
                i <= n,
                n <= nd@.len(),
                n <= strides@.len(),
                n == nd@.len() || n == strides@.len(),
                sum + ravel_from(nd@, strides@, i as int) == ravel(nd@, strides@),
                ravel(nd@, strides@) <= usize::MAX,
            decreases n - i,
        {
            assert(nd@[i as int] as nat * strides@[i as int] as nat == nd@[i as int]
                * strides@[i as int]) by (nonlinear_arith);
            sum = sum + nd[i] * strides[i];
            i += 1;
        }
        sum
    }

    /// The number of elements.
    pub fn size(&self) -> (r: usize)
        requires
            shape_fits(self.shape@),
        ensures
            r == self.elements(),
    {
        element_count(self.shape.as_slice())
    }
}

fn filled_with_zero(n: usize) -> (r: Vec<usize>)
    ensures
        r@ == Seq::new(n as nat, |i: int| 0usize),
{
    let mut r: Vec<usize> = Vec::new();
    let mut i: usize = 0;
    while i < n
        invariant
            i <= n,
            r@ == Seq::new(i as nat, |i: int| 0usize),
        decreases n - i,
    {
        r.push(0);
        i += 1;
        assert(r@ =~= Seq::new(i as nat, |i: int| 0usize));
    }
    r
}

proof fn lemma_ravel_bound(nd: Seq<usize>, shape: Seq<usize>, i: int)
    requires
        nd.len() == shape.len(),
        0 <= i <= shape.len(),
        forall|j: int| 0 <= j < nd.len() ==> #[trigger] nd[j] < shape[j],
        shape_fits(shape),
    ensures
        ravel_from(nd, strides_of(shape), i) < product(shape.skip(i)),
    decreases shape.len() - i,
{
    if i == shape.len() {
        lemma_product_end(shape);
    } else {
        lemma_ravel_bound(nd, shape, i + 1);
        lemma_product_step(shape, i);
        let p = product(shape.skip(i + 1)) as int;
        let r = ravel_from(nd, strides_of(shape), i + 1) as int;
        assert(nd[i] < shape[i]);
        assert(strides_of(shape)[i] == p);
        assert(nd[i] * p + r < shape[i] * p) by (nonlinear_arith)
            requires
                nd[i] + 1 <= shape[i],
                0 <= r < p,
        ;
    }
}

/// Indices within the shape lead to a position within the tensor.
pub proof fn ravel_in_range(nd: Seq<usize>, shape: Seq<usize>)
    requires
        nd.len() == shape.len(),
        forall|j: int| 0 <= j < nd.len() ==> #[trigger] nd[j] < shape[j],
        shape_fits(shape),
    ensures
        ravel(nd, strides_of(shape)) < product(shape),
{
    lemma_ravel_bound(nd, shape, 0);
    lemma_product_end(shape);
}

pub proof fn lemma_unravel_in_range(flat: int, shape: Seq<usize>, i: int)
    requires
        all_positive(shape),
        0 <= i < shape.len(),
    ensures
        unravel(flat, shape)[i] < shape[i],
        unravel(flat, shape)[i] == (flat / product(shape.skip(i + 1)) as int) % shape[i] as int,
{
    assert(shape[i] > 0);
    let d = shape[i] as int;
    let q = flat / product(shape.skip(i + 1)) as int;
    lemma_fundamental_div_mod(q, d);
    assert(0 <= q % d < d) by (nonlinear_arith)
        requires
            d > 0,
    ;
}

proof fn lemma_unravel_ravel(flat: int, shape: Seq<usize>, i: int)
    requires
        all_positive(shape),
        product(shape) <= usize::MAX,
        0 <= flat,
        0 <= i <= shape.len(),
    ensures
        ravel_from(unravel(flat, shape), strides_of(shape), i) == flat % product(shape.skip(i)) as int,
        product(shape.skip(i)) > 0,
    decreases shape.len() - i,
{
    lemma_product_suffix(shape, i);
    if i == shape.len() {
        lemma_product_end(shape);
    } else {
        lemma_unravel_ravel(flat, shape, i + 1);
        lemma_product_step(shape, i);
        lemma_product_suffix(shape, i + 1);
        lemma_unravel_in_range(flat, shape, i);
        let p = product(shape.skip(i + 1)) as int;
        let d = shape[i] as int;
        assert(strides_of(shape)[i] == p);
        let x = (flat / p) % d;
        // flat % (d * p) == p * ((flat / p) % d) + flat % p
        vstd::arithmetic::div_mod::lemma_breakdown(flat, p, d);
        assert(p * d == d * p) by (nonlinear_arith);
        assert(x * p == p * x) by (nonlinear_arith);
        let u = unravel(flat, shape)[i] as nat;
        assert(u * p as nat == x * p) by (nonlinear_arith)
            requires
                u == x,
                p >= 0,
        ;
    }
}

/// Position to indices and back again is the identity.
pub proof fn ravel_of_unravel(flat: int, shape: Seq<usize>)
    requires
        all_positive(shape),
        0 <= flat < product(shape),
        product(shape) <= usize::MAX,
    ensures
        ravel(unravel(flat, shape), strides_of(shape)) == flat,
{
    lemma_unravel_ravel(flat, shape, 0);
    lemma_product_end(shape);
    vstd::arithmetic::div_mod::lemma_small_mod(flat as nat, product(shape));
}

proof fn lemma_ravel_digit(nd: Seq<usize>, shape: Seq<usize>, k: int, i: int)
    requires
        nd.len() == shape.len(),
        forall|j: int| 0 <= j < nd.len() ==> #[trigger] nd[j] < shape[j],
        product(shape) <= usize::MAX,
        0 <= k <= i < shape.len(),
    ensures
        (ravel_from(nd, strides_of(shape), k) as int / product(shape.skip(i + 1)) as int) % shape[i] as int
            == nd[i],
    decreases i - k,
{
    assert(all_positive(shape)) by {
        assert forall|j: int| 0 <= j < shape.len() implies #[trigger] shape[j] > 0 by {
            assert(nd[j] < shape[j]);
        }
    }
    lemma_fits_positive(shape);
    lemma_product_suffix(shape, i + 1);
    lemma_ravel_bound(nd, shape, k + 1);
    let p = product(shape.skip(i + 1)) as int;
    let d = shape[i] as int;
    assert(nd[i] < shape[i]);
    if k == i {
        let r = ravel_from(nd, strides_of(shape), i + 1) as int;
        assert(strides_of(shape)[i] == p);
        let x = nd[i] as int;
        assert((x * p + r) / p == x) by {
            assert(x * p == p * x) by (nonlinear_arith);
            lemma_div_multiples_vanish_fancy(x, r, p);
        }
        assert(x % d == x) by {
            vstd::arithmetic::div_mod::lemma_small_mod(x as nat, d as nat);
        }
        assert(ravel_from(nd, strides_of(shape), i) == x * p + r);
    } else {
        lemma_ravel_digit(nd, shape, k + 1, i);
        // The stride of dimension `k` is a multiple of the span of dimension `i`.
        let r = ravel_from(nd, strides_of(shape), k + 1) as int;
        let m = lemma_stride_multiple(shape, k, i);
        lemma_product_suffix(shape, k + 1);
        let x = nd[k] as int;
        let span = d * p;
        assert(strides_of(shape)[k] == m * span);
        assert(ravel_from(nd, strides_of(shape), k) == x * (m * span) + r);
        assert(x * (m * span) == p * (d * (x * m))) by (nonlinear_arith)
            requires
                span == d * p,
        ;
        vstd::arithmetic::div_mod::lemma_hoist_over_denominator(r, d * (x * m), p as nat);
        assert((p * (d * (x * m)) + r) / p == r / p + d * (x * m)) by {
            assert(p * (d * (x * m)) == (d * (x * m)) * p) by (nonlinear_arith);
        }
        lemma_mod_multiples_vanish(x * m, r / p, d);
    }
}

proof fn lemma_stride_multiple(shape: Seq<usize>, k: int, i: int) -> (m: int)
    requires
        0 <= k < i < shape.len(),
    ensures
        product(shape.skip(k + 1)) == m * (shape[i] as int * product(shape.skip(i + 1))),
    decreases i - k,
{
    lemma_product_step(shape, i);
    if k + 1 == i {
        1
    } else {
        let m = lemma_stride_multiple(shape, k + 1, i);
        lemma_product_step(shape, k + 1);
        let d = shape[k + 1] as int;
        let s = shape[i] as int * product(shape.skip(i + 1));
        assert(d * (m * s) == (d * m) * s) by (nonlinear_arith);
        d * m
    }
}

/// Indices to position and back again is the identity.
pub proof fn unravel_of_ravel(nd: Seq<usize>, shape: Seq<usize>)
    requires
        nd.len() == shape.len(),
        forall|j: int| 0 <= j < nd.len() ==> #[trigger] nd[j] < shape[j],
        product(shape) <= usize::MAX,
    ensures
        unravel(ravel(nd, strides_of(shape)) as int, shape) == nd,
{
    let u = unravel(ravel(nd, strides_of(shape)) as int, shape);
    assert forall|i: int| 0 <= i < nd.len() implies u[i] == nd[i] by {
        lemma_ravel_digit(nd, shape, 0, i);
        assert(nd[i] < shape[i]);
    }
    assert(u =~= nd);
}

} // verus!
