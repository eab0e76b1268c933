//! Double-width (256-bit) unsigned arithmetic on pairs of `u128` limbs.
//!
//! The exchange-rate engine multiplies two 128-bit quantities and divides the
//! product by a third. The 256-bit intermediate lives in a [`U256`], so no
//! step of a multiply-then-divide ever wraps.

use vstd::prelude::*;
use vstd::arithmetic::div_mod::{
    lemma_basic_div, lemma_div_is_ordered, lemma_fundamental_div_mod,
    lemma_fundamental_div_mod_converse_div, lemma_fundamental_div_mod_converse_mod,
    lemma_div_denominator,
};
use vstd::arithmetic::mul::{lemma_mul_basics, lemma_mul_upper_bound};
use vstd::arithmetic::power2::{
    lemma2_to64, lemma_pow2_adds, lemma_pow2_pos, lemma_pow2_strictly_increases, pow2,
};

verus! {

/// One past the largest `u128`: 2^128 as a mathematical integer.
#[verifier::inline]
pub open spec fn base128() -> int {
    0x100000000000000000000000000000000int
}

/// 2^256, the first value a [`U256`] cannot hold.
#[verifier::inline]
pub open spec fn base256() -> int {
    0x10000000000000000000000000000000000000000000000000000000000000000int
}

/// An unsigned 256-bit integer held as two 128-bit limbs.
pub struct U256 {
    pub hi: u128,
    pub lo: u128,
}

impl U256 {
    /// The mathematical integer this pair of limbs denotes.
    pub open spec fn value(self) -> int {
        self.hi * base128() + self.lo
    }
}

proof fn lemma_base_facts()
    ensures
        base256() == base128() * base128(),
        pow2(128) == base128(),
        pow2(127) * 2 == base128(),
{
    lemma2_to64();
    assert(pow2(64) == 0x10000000000000000) by {
        lemma_pow2_adds(32, 32);
        lemma2_to64();
    }
    assert(pow2(128) == base128()) by {
        lemma_pow2_adds(64, 64);
        assert(pow2(64) * pow2(64) == base128()) by (nonlinear_arith)
            requires
                pow2(64) == 0x10000000000000000,
                base128() == u128::MAX + 1,
        ;
    }
    assert(pow2(127) * 2 == base128()) by {
        lemma_pow2_adds(127, 1);
        assert(pow2(127) * pow2(1) == pow2(127) * 2) by (nonlinear_arith)
            requires
                pow2(1) == 2,
        ;
    }
}

/// Full 128x128 -> 256 bit multiplication; never overflows.
pub fn mul_wide(a: u128, b: u128) -> (r: U256)
    ensures
        r.value() == a * b,
{
    let a1 = a / 0x10000000000000000u128;
    let a0 = a % 0x10000000000000000u128;
    let b1 = b / 0x10000000000000000u128;
    let b0 = b % 0x10000000000000000u128;
    proof {
        lemma_fundamental_div_mod(a as int, 0x10000000000000000);
        lemma_fundamental_div_mod(b as int, 0x10000000000000000);
        lemma_div_is_ordered(a as int, u128::MAX as int, 0x10000000000000000);
        lemma_div_is_ordered(b as int, u128::MAX as int, 0x10000000000000000);
        lemma_mul_upper_bound(a1 as int, 0xffffffffffffffff, b1 as int, 0xffffffffffffffff);
        lemma_mul_upper_bound(a1 as int, 0xffffffffffffffff, b0 as int, 0xffffffffffffffff);
        lemma_mul_upper_bound(a0 as int, 0xffffffffffffffff, b1 as int, 0xffffffffffffffff);
        lemma_mul_upper_bound(a0 as int, 0xffffffffffffffff, b0 as int, 0xffffffffffffffff);
        assert(0xffffffffffffffff * 0xffffffffffffffff
            == 0xfffffffffffffffe0000000000000001) by (nonlinear_arith);
    }
    let p00 = a0 * b0;
    let p01 = a0 * b1;
    let p10 = a1 * b0;
    let p11 = a1 * b1;
    proof {
        lemma_fundamental_div_mod(p00 as int, 0x10000000000000000);
        lemma_div_is_ordered(p00 as int, u128::MAX as int, 0x10000000000000000);
    }
    let t = p01 + p00 / 0x10000000000000000u128;
    proof {
        lemma_fundamental_div_mod(t as int, 0x10000000000000000);
        lemma_div_is_ordered(t as int, u128::MAX as int, 0x10000000000000000);
    }
    let u = p10 + t % 0x10000000000000000u128;
    proof {
        lemma_fundamental_div_mod(u as int, 0x10000000000000000);
        lemma_div_is_ordered(u as int, u128::MAX as int, 0x10000000000000000);
    }
    let lo = (u % 0x10000000000000000u128) * 0x10000000000000000u128
        + p00 % 0x10000000000000000u128;
    let hi = p11 + t / 0x10000000000000000u128 + u / 0x10000000000000000u128;
    proof {
        let p00h = p00 as int / 0x10000000000000000;
        let p00l = p00 as int % 0x10000000000000000;
        let th = t as int / 0x10000000000000000;
        let tl = t as int % 0x10000000000000000;
        let uh = u as int / 0x10000000000000000;
        let ul = u as int % 0x10000000000000000;
        assert(hi * base128() + lo == a * b) by (nonlinear_arith)
            requires
                a == a1 * 0x10000000000000000 + a0,
                b == b1 * 0x10000000000000000 + b0,
                p00 == a0 * b0,
                p01 == a0 * b1,
                p10 == a1 * b0,
                p11 == a1 * b1,
                p00 == p00h * 0x10000000000000000 + p00l,
                t == p01 + p00h,
                t == th * 0x10000000000000000 + tl,
                u == p10 + tl,
                u == uh * 0x10000000000000000 + ul,
                lo == ul * 0x10000000000000000 + p00l,
                hi == p11 + th + uh,
                base128() == u128::MAX + 1,
        ;
    }
    U256 { hi, lo }
}

/// Adds a single limb into a 256-bit value.
pub fn wide_add(x: U256, y: u128) -> (r: U256)
    requires
        x.value() + y < base256(),
    ensures
        r.value() == x.value() + y,
{
    match x.lo.checked_add(y) {
        Some(lo2) => U256 { hi: x.hi, lo: lo2 },
        None => {
            proof {
                assert(x.hi < u128::MAX) by (nonlinear_arith)
                    requires
                        x.hi * base128() + x.lo + y < base128() * base128(),
                        x.lo + y > u128::MAX,
                        base128() == u128::MAX + 1,
                        x.hi <= u128::MAX,
                ;
            }
            let lo2 = y - (u128::MAX - x.lo) - 1;
            U256 { hi: x.hi + 1, lo: lo2 }
        },
    }
}

/// Divides `r1 * 2^128 + lo` by `c` when the quotient fits in one limb
/// (guaranteed by `r1 < c`), by binary long division over the bits of `lo`.
#[verifier::loop_isolation(false)]
fn div_rem_half(r1: u128, lo: u128, c: u128) -> (qr: (u128, u128))
    requires
        1 <= c,
        r1 < c,
    ensures
        qr.0 == (r1 * base128() + lo) / c as int,
        qr.1 == (r1 * base128() + lo) % c as int,
{
    let mut q: u128 = 0;
    let mut r: u128 = r1;
    let mut pow: u128 = 0x80000000000000000000000000000000;
    let ghost y: int = r1 * base128() + lo;
    let ghost mut prefix: int = r1 as int;
    proof {
        lemma_base_facts();
        lemma2_to64();
        lemma_mul_basics(r1 as int);
        lemma_basic_div(lo as int, pow2(128) as int);
        assert(pow == pow2(127)) by (nonlinear_arith)
            requires
                pow2(127) * 2 == u128::MAX + 1,
                pow == 0x80000000000000000000000000000000,
        ;
        assert(r1 * pow2(0) == r1) by (nonlinear_arith)
            requires
                pow2(0) == 1,
        ;
        assert(q * c + r == prefix) by (nonlinear_arith)
            requires
                q == 0,
                r == prefix,
        ;
    }
    for k in 0..128usize
        invariant
            r < c,
            k < 128 ==> pow == pow2((127 - k) as nat),
            q < pow2(k as nat),
            q * c + r == prefix,
            prefix == r1 * pow2(k as nat) + lo as int / pow2((128 - k) as nat) as int,
    {
        proof {
            lemma_pow2_pos((127 - k) as nat);
            lemma_pow2_pos((128 - k) as nat);
            lemma_pow2_pos(k as nat);
        }
        let ghost q0 = q;
        let ghost r0 = r;
        let ghost prefix0 = prefix;
        let bit = (lo / pow) % 2;
        proof {
            // Split the next bit off the unprocessed suffix of `lo`:
            // lo / 2^(127-k) == 2 * (lo / 2^(128-k)) + bit.
            lemma_pow2_adds((127 - k) as nat, 1);
            assert(pow2((128 - k) as nat) == pow * 2) by (nonlinear_arith)
                requires
                    pow2((128 - k) as nat) == pow2((127 - k) as nat) * pow2(1),
                    pow2(1) == 2,
                    pow == pow2((127 - k) as nat),
            ;
            lemma_div_denominator(lo as int, pow as int, 2);
            lemma_fundamental_div_mod(lo as int / pow as int, 2);
            lemma_pow2_adds(k as nat, 1);
            assert(r1 * pow2((k + 1) as nat) == 2 * (r1 * pow2(k as nat))) by (nonlinear_arith)
                requires
                    pow2((k + 1) as nat) == pow2(k as nat) * pow2(1),
                    pow2(1) == 2,
            ;
            assert(lo as int / pow2((128 - (k + 1)) as nat) as int == lo as int / pow as int);
            assert(2 * prefix + bit == r1 * pow2((k + 1) as nat) + lo as int / pow2(
                (128 - (k + 1)) as nat,
            ) as int);
        }
        let qbit: u128;
        if r >= 0x80000000000000000000000000000000u128 {
            // The shifted remainder reaches 2^128 > c, so the quotient bit is 1.
            let w = (r - 0x80000000000000000000000000000000u128) * 2 + bit;
            r = w + (u128::MAX - c) + 1;
            qbit = 1;
        } else {
            let v = r * 2 + bit;
            if v >= c {
                r = v - c;
                qbit = 1;
            } else {
                r = v;
                qbit = 0;
            }
        }
        proof {
            assert(r == 2 * r0 + bit - qbit * c) by (nonlinear_arith)
                requires
                    (qbit == 1 && r == 2 * r0 + bit - c) || (qbit == 0 && r == 2 * r0 + bit),
            ;
            lemma_pow2_adds(k as nat, 1);
            assert(pow2((k + 1) as nat) == pow2(k as nat) * 2) by (nonlinear_arith)
                requires
                    pow2((k + 1) as nat) == pow2(k as nat) * pow2(1),
                    pow2(1) == 2,
            ;
            if k < 127 {
                lemma_pow2_strictly_increases(k as nat, 127);
            }
            assert((2 * q0 + qbit) * c + r == 2 * prefix0 + bit) by (nonlinear_arith)
                requires
                    q0 * c + r0 == prefix0,
                    r == 2 * r0 + bit - qbit * c,
            ;
        }
        q = q * 2 + qbit;
        proof {
            prefix = 2 * prefix + bit;
            assert(q * c + r == prefix);
        }
        let new_pow = pow / 2;
        proof {
            if k + 1 < 128 {
                lemma_pow2_adds((126 - k) as nat, 1);
                assert(pow2((127 - k) as nat) == pow2((126 - k) as nat) * 2) by (nonlinear_arith)
                    requires
                        pow2((127 - k) as nat) == pow2((126 - k) as nat) * pow2(1),
                        pow2(1) == 2,
                ;
            }
        }
        pow = new_pow;
    }
    proof {
        lemma_base_facts();
        lemma2_to64();
        vstd::arithmetic::div_mod::lemma_div_basics_2(lo as int);
        assert(r1 * pow2(128) == r1 * base128()) by (nonlinear_arith)
            requires
                pow2(128) == base128(),
        ;
        assert(prefix == y);
        lemma_fundamental_div_mod_converse_div(y, c as int, q as int, r as int);
        lemma_fundamental_div_mod_converse_mod(y, c as int, q as int, r as int);
    }
    (q, r)
}

/// Divides a 256-bit value by a nonzero 128-bit divisor, returning the full
/// 256-bit quotient and the remainder.
pub fn div_rem(x: U256, c: u128) -> (res: (U256, u128))
    requires
        1 <= c,
    ensures
        res.0.value() == x.value() / c as int,
        res.1 == x.value() % c as int,
{
    let q_hi = x.hi / c;
    let r1 = x.hi % c;
    proof {
        lemma_fundamental_div_mod(x.hi as int, c as int);
    }
    let (q_lo, r) = div_rem_half(r1, x.lo, c);
    proof {
        lemma_fundamental_div_mod(r1 * base128() + x.lo, c as int);
        assert(x.value() == (q_hi * base128() + q_lo) * c + r) by (nonlinear_arith)
            requires
                x.value() == x.hi * base128() + x.lo,
                x.hi == c * q_hi + r1,
                q_lo == (r1 * base128() + x.lo) / c as int,
                r == (r1 * base128() + x.lo) % c as int,
                r1 * base128() + x.lo == c * ((r1 * base128() + x.lo) / c as int) + (r1
                    * base128() + x.lo) % c as int,
        ;
        lemma_fundamental_div_mod_converse_div(
            x.value(),
            c as int,
            q_hi * base128() + q_lo,
            r as int,
        );
        lemma_fundamental_div_mod_converse_mod(
            x.value(),
            c as int,
            q_hi * base128() + q_lo,
            r as int,
        );
    }
    (U256 { hi: q_hi, lo: q_lo }, r)
}

} // verus!
