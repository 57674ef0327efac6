//! Whole numbers of 64 bits that wrap around.
use crate::graph::differential::ring::exact;
use crate::scalar::Scalar;
use vstd::arithmetic::div_mod::{
    lemma_add_mod_noop, lemma_mul_mod_noop_general, lemma_small_mod,
};
use vstd::prelude::*;

verus! {

const RANGE: u128 = 0x1_0000_0000_0000_0000;

proof fn lemma_plus(x: u64, y: u64)
    ensures
        x.spec_plus(y) == (x + y) % RANGE as int,
{
    if x + y > u64::MAX {
        vstd::arithmetic::div_mod::lemma_fundamental_div_mod_converse(
            x + y,
            RANGE as int,
            1,
            x + y - RANGE,
        );
    } else {
        lemma_small_mod((x + y) as nat, RANGE as nat);
    }
}

proof fn lemma_times(x: u64, y: u64)
    ensures
        x.spec_times(y) == (x * y) % RANGE as int,
{
    let p = x as nat * y as nat;
    assert(p % RANGE as nat <= u64::MAX);
}

proof fn lemma_times_swap(x: u64, y: u64)
    ensures
        x.spec_times(y) == y.spec_times(x),
{
    lemma_times(x, y);
    lemma_times(y, x);
    assert(x * y == y * x) by (nonlinear_arith);
}

proof fn lemma_plus_group(x: u64, y: u64, z: u64)
    ensures
        x.spec_plus(y).spec_plus(z) == x.spec_plus(y.spec_plus(z)),
{
}

proof fn lemma_times_group(x: u64, y: u64, z: u64)
    ensures
        x.spec_times(y).spec_times(z) == x.spec_times(y.spec_times(z)),
{
    let m = RANGE as int;
    lemma_times(x, y);
    lemma_times(y, z);
    lemma_times(x.spec_times(y), z);
    lemma_times(x, y.spec_times(z));
    lemma_mul_mod_noop_general(x * y, z as int, m);
    lemma_mul_mod_noop_general(x as int, y * z, m);
    assert((x * y) * z == x * (y * z)) by (nonlinear_arith);
}

proof fn lemma_times_plus(x: u64, y: u64, z: u64)
    ensures
        x.spec_times(y.spec_plus(z)) == x.spec_times(y).spec_plus(x.spec_times(z)),
{
    let m = RANGE as int;
    lemma_plus(y, z);
    lemma_times(x, y.spec_plus(z));
    lemma_times(x, y);
    lemma_times(x, z);
    lemma_plus(x.spec_times(y), x.spec_times(z));
    lemma_mul_mod_noop_general(x as int, y + z, m);
    lemma_add_mod_noop(x * y, x * z, m);
    assert(x * (y + z) == x * y + x * z) by (nonlinear_arith);
}

/// Arithmetic that wraps around is exact.
pub proof fn wrapping_numbers_are_exact()
    ensures
        exact::<u64>(),
{
    reveal(exact);
    assert forall|a: u64, b: u64, c: u64| #[trigger] a.spec_plus(b).spec_plus(c) == a.spec_plus(
        b.spec_plus(c),
    ) by {
        lemma_plus_group(a, b, c);
    }
    assert forall|a: u64, b: u64| #[trigger] a.spec_times(b) == b.spec_times(a) by {
        lemma_times_swap(a, b);
    }
    assert forall|a: u64, b: u64, c: u64| #[trigger] a.spec_times(b).spec_times(c) == a.spec_times(
        b.spec_times(c),
    ) by {
        lemma_times_group(a, b, c);
    }
    assert forall|a: u64, b: u64, c: u64| #[trigger] a.spec_times(b.spec_plus(c)) == a.spec_times(
        b,
    ).spec_plus(a.spec_times(c)) by {
        lemma_times_plus(a, b, c);
    }
    assert forall|a: u64| #[trigger] a.spec_times(u64::spec_zero()) == u64::spec_zero() by {
        lemma_times(a, 0);
        lemma_small_mod(0, RANGE as nat);
    }
    assert forall|a: u64| #[trigger] a.spec_times(u64::spec_one()) == a by {
        lemma_times(a, 1);
        lemma_small_mod(a as nat, RANGE as nat);
    }
}

} // verus!
