//! A small xorshift generator, and draws from it.
use rand::Rng;
use rand::RngCore;
use vstd::prelude::*;

verus! {

/// The state that follows `s`.
pub open spec fn xs_step(s: u64) -> u64 {
    let a = s ^ (s << 13u64);
    let b = a ^ (a >> 7u64);
    b ^ (b << 17u64)
}

/// The state after `n` steps.
pub open spec fn xs_steps(s: u64, n: nat) -> u64
    decreases n,
{
    if n == 0 {
        s
    } else {
        xs_step(xs_steps(s, (n - 1) as nat))
    }
}

/// The error that filling a buffer with random bytes may end in; this generator never gives it.
#[verifier::external_type_specification]
#[verifier::external_body]
pub struct ExRandError(rand::Error);

/// A xorshift generator of 64 bits.
pub struct XorShift64 {
    pub state: u64,
}

impl XorShift64 {
    /// Advances the generator and returns its new state.
    pub fn step(&mut self) -> (r: u64)
        ensures
            final(self).state == xs_step(old(self).state),
            r == final(self).state,
    {
        self.state = self.state ^ (self.state << 13u64);
        self.state = self.state ^ (self.state >> 7u64);
        self.state = self.state ^ (self.state << 17u64);
        self.state
    }
}

/// Byte number `i` of `v`, the lowest first.
pub open spec fn byte_of(v: u64, i: int) -> u8 {
    (v >> ((8 * i) as u64)) as u8
}

impl RngCore for XorShift64 {
    fn next_u32(&mut self) -> (r: u32)
        ensures
            final(self).state == xs_step(old(self).state),
            r == final(self).state as u32,
    {
        self.step() as u32
    }

    fn next_u64(&mut self) -> (r: u64)
        ensures
            final(self).state == xs_step(old(self).state),
            r == final(self).state,
    {
        self.step()
    }

    fn fill_bytes(&mut self, dest: &mut [u8])
        ensures
            final(dest)@.len() == old(dest)@.len(),
            final(self).state == xs_steps(old(self).state, 1 + (old(dest)@.len() + 7) as nat / 8),
            forall|i: int|
                0 <= i < final(dest)@.len() ==> #[trigger] final(dest)@[i] == byte_of(
                    xs_steps(old(self).state, 2 + i as nat / 8),
                    i % 8,
                ),
    {
        let mut v: u64 = self.step();
        let n: usize = dest.len();
        let mut i: usize = 0;
        assert(xs_steps(old(self).state, 0) == old(self).state);
        while i < n
            invariant
                i <= n,
                n == dest@.len(),
                n == old(dest)@.len(),
                self.state == xs_steps(old(self).state, 1 + (i + 7) as nat / 8),
                i % 8 != 0 ==> v == self.state,
                forall|j: int|
                    0 <= j < i ==> #[trigger] dest@[j] == byte_of(
                        xs_steps(old(self).state, 2 + j as nat / 8),
                        j % 8,
                    ),
            decreases n - i,
        {
            if i % 8 == 0 {
                v = self.step();
            }
            assert(v == xs_steps(old(self).state, 2 + i as nat / 8));
            dest[i] = (v >> (8 * (i % 8)) as u64) as u8;
            i += 1;
        }
    }

    fn try_fill_bytes(&mut self, dest: &mut [u8]) -> (r: Result<(), rand::Error>)
        ensures
            r is Ok,
            final(dest)@.len() == old(dest)@.len(),
            final(self).state == xs_steps(old(self).state, 1 + (old(dest)@.len() + 7) as nat / 8),
            forall|i: int|
                0 <= i < final(dest)@.len() ==> #[trigger] final(dest)@[i] == byte_of(
                    xs_steps(old(self).state, 2 + i as nat / 8),
                    i % 8,
                ),
    {
        self.fill_bytes(dest);
        Ok(())
    }
}

/// What `Rng::gen_range` draws between `lo` and `hi` from a xorshift generator in state `state`,
/// and the state that it leaves the generator in.
pub uninterp spec fn range_draw(state: u64, lo: u64, hi: u64) -> (u64, u64);

/// `Rng::gen_range` on the range `lo..hi`: the draw lies in the range, and it and the state that
/// follows depend on the state before and on the range alone.
#[verifier::external_body]
pub(crate) fn draw_range(rng: &mut XorShift64, lo: u64, hi: u64) -> (r: u64)
    requires
        lo < hi,
    ensures
        lo <= r < hi,
        (r, final(rng).state) == range_draw(old(rng).state, lo, hi),
{
    rng.gen_range(lo..hi)
}

} // verus!
