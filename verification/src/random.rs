//! A seeded xoshiro256+ pseudo-random stream, with splitmix64 seed expansion
//! and Lemire's rejection method for unbiased bounded sampling.
//!
//! Every draw is pinned down exactly by the contracts: the state after
//! seeding, the state transition of each step, and the value and number of
//! candidates consumed by a bounded draw are all functions of the seed alone,
//! so two generators built from the same seed produce the same sequence.

use vstd::arithmetic::div_mod::{lemma_mod_bound, lemma_multiply_divide_lt};
use vstd::arithmetic::mul::{
    lemma_mul_nonnegative, lemma_mul_strict_inequality, lemma_mul_upper_bound,
};
use vstd::prelude::*;

verus! {

/// The splitmix64 state update: one step of the Weyl sequence.
pub open spec fn splitmix64_step(x: u64) -> u64 {
    x.wrapping_add(0x9e3779b97f4a7c15)
}

/// The splitmix64 output mix applied to a state value.
pub open spec fn splitmix64_mix(z: u64) -> u64 {
    let a = (z ^ (z >> 30u64)).wrapping_mul(0xbf58476d1ce4e5b9);
    let b = (a ^ (a >> 27u64)).wrapping_mul(0x94d049bb133111eb);
    b ^ (b >> 31u64)
}

/// Advances a splitmix64 state in place and returns the mixed output.
pub fn splitmix64_next(x: &mut u64) -> (r: u64)
    ensures
        *final(x) == splitmix64_step(*old(x)),
        r == splitmix64_mix(splitmix64_step(*old(x))),
{
    *x = x.wrapping_add(0x9e3779b97f4a7c15);
    let z: u64 = *x;
    let z: u64 = (z ^ (z >> 30)).wrapping_mul(0xbf58476d1ce4e5b9);
    let z: u64 = (z ^ (z >> 27)).wrapping_mul(0x94d049bb133111eb);
    z ^ (z >> 31)
}

/// 256 bits of xoshiro256+ state.
pub struct Rng {
    pub s0: u64,
    pub s1: u64,
    pub s2: u64,
    pub s3: u64,
}

/// The state a generator holds right after seeding: four successive
/// splitmix64 outputs of the seed.
pub open spec fn rng_seeded(seed: u64) -> Rng {
    let x0 = splitmix64_step(seed);
    let x1 = splitmix64_step(x0);
    let x2 = splitmix64_step(x1);
    let x3 = splitmix64_step(x2);
    Rng {
        s0: splitmix64_mix(x0),
        s1: splitmix64_mix(x1),
        s2: splitmix64_mix(x2),
        s3: splitmix64_mix(x3),
    }
}

/// Rotates a 64-bit word left by 45 bits.
pub open spec fn rotl45(x: u64) -> u64 {
    (x << 45u64) | (x >> 19u64)
}

/// What one xoshiro256+ step returns, as a function of the state.
pub open spec fn xoshiro_output(r: Rng) -> u64 {
    r.s0.wrapping_add(r.s3)
}

/// The xoshiro256+ state transition.
pub open spec fn xoshiro_step(r: Rng) -> Rng {
    let t = r.s1 << 17u64;
    let s2 = r.s2 ^ r.s0;
    let s3 = r.s3 ^ r.s1;
    let s1 = r.s1 ^ s2;
    let s0 = r.s0 ^ s3;
    Rng { s0: s0, s1: s1, s2: s2 ^ t, s3: rotl45(s3) }
}

/// The state after `n` xoshiro256+ steps.
pub open spec fn xoshiro_iter(r: Rng, n: nat) -> Rng
    decreases n,
{
    if n == 0 {
        r
    } else {
        xoshiro_step(xoshiro_iter(r, (n - 1) as nat))
    }
}

/// The `n`-th raw 64-bit draw of a generator whose current state is `r`.
pub open spec fn nth_draw(r: Rng, n: nat) -> u64 {
    xoshiro_output(xoshiro_iter(r, n))
}

/// The low 64 bits of the 128-bit product `x * s`: the part Lemire's method
/// compares against the rejection threshold.
pub open spec fn lemire_lo(x: u64, s: u64) -> int {
    (x * s) % 0x1_0000_0000_0000_0000
}

/// The high 64 bits of the 128-bit product `x * s`: the value a bounded draw
/// returns once a candidate is accepted.
pub open spec fn lemire_hi(x: u64, s: u64) -> int {
    (x * s) / 0x1_0000_0000_0000_0000
}

/// The rejection threshold `2^64 mod s` of Lemire's method.
pub open spec fn lemire_threshold(s: u64) -> int
    recommends
        s > 0,
{
    (0x1_0000_0000_0000_0000 - s) % (s as int)
}

/// Whether Lemire's method accepts the raw draw `x` for bound `s`.
pub open spec fn lemire_accepts(x: u64, s: u64) -> bool
    recommends
        s > 0,
{
    lemire_lo(x, s) >= lemire_threshold(s)
}

/// The most raw draws one bounded draw may consume. A candidate is rejected
/// with probability below one half, so the cap is unreachable in practice; it
/// exists to bound the rejection loop.
pub const MAX_DRAWS: u64 = 64;

/// One complete bounded draw for bound `s` from state `init`: raw draws
/// `0 .. n` were rejected, draw `n` was taken — because it was accepted, or
/// because it was the last one the cap allows — and yielded `r`, and the
/// generator stopped in state `end`. For a given `init` and `s` this relation
/// holds of exactly one triple `(n, r, end)`, so bounded draws are
/// deterministic; see [`lemma_bounded_draw_deterministic`].
pub open spec fn lemire_run(init: Rng, s: u64, n: nat, r: u64, end: Rng) -> bool {
    &&& n + 1 <= MAX_DRAWS
    &&& (forall|k: nat| k < n ==> !lemire_accepts(#[trigger] nth_draw(init, k), s))
    &&& (lemire_accepts(nth_draw(init, n), s) || n + 1 == MAX_DRAWS)
    &&& r == lemire_hi(nth_draw(init, n), s)
    &&& end == xoshiro_iter(init, n + 1)
}

/// The product of two 64-bit values fits in 128 bits.
proof fn lemma_mul_u64_fits(x: u64, s: u64)
    ensures
        0 <= x * s <= 0xfffffffffffffffe_0000000000000001,
{
    lemma_mul_upper_bound(x as int, 0xffffffffffffffff, s as int, 0xffffffffffffffff);
    lemma_mul_nonnegative(x as int, s as int);
}

/// A bounded draw is deterministic: from one starting state and bound, any
/// two complete draws consumed the same number of candidates, returned the
/// same value, and left the generator in the same state. Together with the
/// exact seeding contract of [`Rng::new`], this is why two generators built
/// from the same seed produce identical sequences.
pub proof fn lemma_bounded_draw_deterministic(
    init: Rng,
    s: u64,
    n1: nat,
    r1: u64,
    end1: Rng,
    n2: nat,
    r2: u64,
    end2: Rng,
)
    requires
        lemire_run(init, s, n1, r1, end1),
        lemire_run(init, s, n2, r2, end2),
    ensures
        n1 == n2,
        r1 == r2,
        end1 == end2,
{
    if n1 < n2 {
        assert(!lemire_accepts(nth_draw(init, n1), s));
        assert(n1 + 1 < MAX_DRAWS);
    }
    if n2 < n1 {
        assert(!lemire_accepts(nth_draw(init, n2), s));
        assert(n2 + 1 < MAX_DRAWS);
    }
}

impl Rng {
    /// Builds a generator from a 64-bit seed via splitmix64 expansion, so
    /// that distinct seeds give decorrelated streams.
    pub fn new(seed: u64) -> (rng: Rng)
        ensures
            rng == rng_seeded(seed),
    {
        let mut x: u64 = seed;
        let s0: u64 = splitmix64_next(&mut x);
        let s1: u64 = splitmix64_next(&mut x);
        let s2: u64 = splitmix64_next(&mut x);
        let s3: u64 = splitmix64_next(&mut x);
        Rng { s0, s1, s2, s3 }
    }

    /// One xoshiro256+ step: returns the sum of the first and last state
    /// words and advances the state.
    pub fn xoshiro256p_next(&mut self) -> (r: u64)
        ensures
            r == xoshiro_output(*old(self)),
            *final(self) == xoshiro_step(*old(self)),
    {
        let result: u64 = self.s0.wrapping_add(self.s3);

        let t: u64 = self.s1 << 17;

        self.s2 = self.s2 ^ self.s0;
        self.s3 = self.s3 ^ self.s1;
        self.s1 = self.s1 ^ self.s2;
        self.s0 = self.s0 ^ self.s3;

        self.s2 = self.s2 ^ t;

        self.s3 = (self.s3 << 45) | (self.s3 >> 19);

        result
    }

    /// An unbiased draw from `0 .. s` by Lemire's rejection method; a bound
    /// of zero yields zero after a single raw draw. The candidates consumed,
    /// the value returned and the state left behind are pinned down exactly,
    /// so the draw is a function of the starting state and the bound.
    pub fn random_u64(&mut self, s: u64) -> (r: u64)
        ensures
            s > 0 ==> r < s,
            s > 0 ==> exists|n: nat| lemire_run(*old(self), s, n, r, *final(self)),
            s == 0 ==> r == 0 && *final(self) == xoshiro_step(*old(self)),
    {
        let ghost init = *self;
        let ghost mut n: nat = 0;

        let mut x: u64 = self.xoshiro256p_next();
        proof {
            lemma_mul_u64_fits(x, s);
            assert(xoshiro_iter(init, 0) == init);
            assert(xoshiro_iter(init, 1) == xoshiro_step(xoshiro_iter(init, 0)));
        }
        let mut m: u128 = x as u128 * s as u128;
        proof {
            assert(m & 0xffff_ffff_ffff_ffff == m % 0x1_0000_0000_0000_0000) by (bit_vector);
            lemma_mod_bound(m as int, 0x1_0000_0000_0000_0000);
        }
        let mut l: u64 = (m & 0xffff_ffff_ffff_ffff) as u64;

        if l < s {
            let t: u64 = 0u64.wrapping_sub(s) % s;
            let mut draws: u64 = 1;
            proof {
                lemma_mod_bound(0x1_0000_0000_0000_0000 - s, s as int);
            }
            while l < t && draws < MAX_DRAWS
                invariant
                    0 < s,
                    0 <= t < s,
                    t == lemire_threshold(s),
                    1 <= draws <= MAX_DRAWS,
                    n + 1 == draws,
                    x == nth_draw(init, n),
                    *self == xoshiro_iter(init, n + 1),
                    m == x * s,
                    l == lemire_lo(x, s),
                    forall|k: nat| k < n ==> !lemire_accepts(#[trigger] nth_draw(init, k), s),
                decreases MAX_DRAWS - draws,
            {
                proof {
                    assert(!lemire_accepts(nth_draw(init, n), s));
                    n = n + 1;
                }
                x = self.xoshiro256p_next();
                proof {
                    lemma_mul_u64_fits(x, s);
                    assert(xoshiro_iter(init, n + 1) == xoshiro_step(xoshiro_iter(init, n)));
                }
                m = x as u128 * s as u128;
                proof {
                    assert(m & 0xffff_ffff_ffff_ffff == m % 0x1_0000_0000_0000_0000)
                        by (bit_vector);
                    lemma_mod_bound(m as int, 0x1_0000_0000_0000_0000);
                }
                l = (m & 0xffff_ffff_ffff_ffff) as u64;
                draws = draws + 1;
            }
        }

        proof {
            assert(m >> 64 <= 0xffff_ffff_ffff_ffff) by (bit_vector);
            assert(m >> 64 == m / 0x1_0000_0000_0000_0000) by (bit_vector);
        }
        let r: u64 = (m >> 64) as u64;
        proof {
            if s > 0 {
                lemma_mod_bound(0x1_0000_0000_0000_0000 - s, s as int);
                assert(lemire_accepts(nth_draw(init, n), s) || n + 1 == MAX_DRAWS);
                lemma_mul_strict_inequality(
                    x as int,
                    0x1_0000_0000_0000_0000,
                    s as int,
                );
                lemma_multiply_divide_lt(
                    x * s,
                    0x1_0000_0000_0000_0000,
                    s as int,
                );
                assert(lemire_run(init, s, n, r, *self));
            }
        }
        r
    }

    /// The integer numerator of a uniform sample in `[0, 1)`: dividing the
    /// result by `2^53 - 1` (the largest odd integer a double holds exactly)
    /// gives the uniform double of the renderer. The result stays strictly
    /// below `2^53 - 2`, so the quotient stays strictly below one.
    pub fn random_f64_bits(&mut self) -> (r: u64)
        ensures
            r < 0x1f_ffff_ffff_fffe,
            exists|n: nat|
                lemire_run(*old(self), 0x1f_ffff_ffff_fffe, n, r, *final(self)),
    {
        // 0x1f_ffff_ffff_ffff == (1 << 53) - 1
        let limit: u64 = 0x1f_ffff_ffff_ffff;
        self.random_u64(limit - 1)
    }
}

} // verus!
