//! Arithmetic in the prime field of integers modulo `MODULUS`.
use vstd::prelude::*;

verus! {

/// The field's modulus, the prime 2^64 - 2^32 + 1.
pub const MODULUS: u64 = 0xffff_ffff_0000_0001;

/// A canonical field element: an integer in `[0, MODULUS)`.
pub open spec fn is_elem(x: int) -> bool {
    0 <= x < MODULUS as int
}

pub open spec fn add_spec(a: int, b: int) -> int {
    (a + b) % (MODULUS as int)
}

pub open spec fn sub_spec(a: int, b: int) -> int {
    (a - b) % (MODULUS as int)
}

pub open spec fn mul_spec(a: int, b: int) -> int {
    (a * b) % (MODULUS as int)
}

/// The element that an unsigned integer stands for.
pub fn from_u64(x: u64) -> (r: u64)
    ensures
        r as int == x as int % (MODULUS as int),
{
    x % MODULUS
}

pub fn add(a: u64, b: u64) -> (r: u64)
    requires
        is_elem(a as int),
        is_elem(b as int),
    ensures
        r as int == add_spec(a as int, b as int),
        is_elem(r as int),
{
    let s: u128 = a as u128 + b as u128;
    (s % (MODULUS as u128)) as u64
}

pub fn sub(a: u64, b: u64) -> (r: u64)
    requires
        is_elem(a as int),
        is_elem(b as int),
    ensures
        r as int == sub_spec(a as int, b as int),
        is_elem(r as int),
{
    let s: u128 = a as u128 + (MODULUS - b) as u128;
    proof {
        vstd::arithmetic::div_mod::lemma_mod_add_multiples_vanish(
            a as int - b as int,
            MODULUS as int,
        );
    }
    (s % (MODULUS as u128)) as u64
}

pub fn mul(a: u64, b: u64) -> (r: u64)
    requires
        is_elem(a as int),
        is_elem(b as int),
    ensures
        r as int == mul_spec(a as int, b as int),
        is_elem(r as int),
{
    proof {
        assert((a as int) * (b as int) < 0x1_0000_0000_0000_0000_0000_0000_0000_0000) by (nonlinear_arith)
            requires
                a < 0x1_0000_0000_0000_0000int,
                b < 0x1_0000_0000_0000_0000int,
                0 <= a,
                0 <= b,
        ;
    }
    let p: u128 = a as u128 * b as u128;
    (p % (MODULUS as u128)) as u64
}

} // verus!
