//! Monotonic, invertible mappings between a user-facing quality value and the
//! internal search coordinate `q`.
//!
//! The search interpolates linearly over `q`, so a transform is chosen to
//! linearise the relationship between the tuning value and the measured
//! quality: `Linear` for bitrate-like values, `Sqrt` (squaring forward) for
//! constant-quality values, and `Ln` (exponentiating forward, here with base
//! two so the pair stays exact over the integers) for logarithmic
//! relationships.

use vstd::arithmetic::power2::{
    lemma2_to64, lemma2_to64_rest, lemma_pow2_pos, lemma_pow2_strictly_increases,
    lemma_pow2_unfold, pow2,
};
use vstd::prelude::*;

verus! {

/// Largest search coordinate any in-domain value maps to: `2^40`.
pub const MAX_Q: u64 = 0x100_0000_0000;

/// Largest in-domain value for the `Sqrt` transform: `2^20`, so its square
/// stays within [`MAX_Q`].
pub const MAX_SQRT_VALUE: u64 = 0x10_0000;

/// Largest in-domain value for the `Ln` transform, so `2^v` stays within
/// [`MAX_Q`].
pub const MAX_LN_VALUE: u64 = 40;

/// The monotone transform between value space and search-coordinate space.
#[derive(Clone, Copy, Debug)]
pub enum Transform {
    Linear,
    Sqrt,
    Ln,
}

/// Floor of the square root, defined by stepping up through the naturals.
pub open spec fn sqrt_floor(n: nat) -> nat
    decreases n,
{
    if n == 0 {
        0
    } else {
        let r = sqrt_floor((n - 1) as nat);
        if (r + 1) * (r + 1) <= n {
            r + 1
        } else {
            r
        }
    }
}

/// Floor of the base-two logarithm; zero below two.
pub open spec fn log2_floor(n: nat) -> nat
    decreases n,
{
    if n < 2 {
        0
    } else {
        1 + log2_floor(n / 2)
    }
}

/// `sqrt_floor(n)` is the unique `r` with `r^2 <= n < (r+1)^2`.
pub proof fn lemma_sqrt_floor_bounds(n: nat)
    ensures
        sqrt_floor(n) * sqrt_floor(n) <= n,
        n < (sqrt_floor(n) + 1) * (sqrt_floor(n) + 1),
    decreases n,
{
    if n == 0 {
        assert(sqrt_floor(n) == 0);
        assert(n < (sqrt_floor(n) + 1) * (sqrt_floor(n) + 1)) by (nonlinear_arith)
            requires
                n == 0,
                sqrt_floor(n) == 0,
        ;
    } else {
        lemma_sqrt_floor_bounds((n - 1) as nat);
        let r = sqrt_floor((n - 1) as nat);
        if (r + 1) * (r + 1) <= n {
            // n - 1 < (r+1)^2 <= n forces n == (r+1)^2.
            assert(n == (r + 1) * (r + 1));
            assert(sqrt_floor(n) == r + 1);
            assert(n < (r + 2) * (r + 2)) by (nonlinear_arith)
                requires
                    n == (r + 1) * (r + 1),
            ;
            assert(sqrt_floor(n) * sqrt_floor(n) <= n);
            assert(n < (sqrt_floor(n) + 1) * (sqrt_floor(n) + 1));
        } else {
            assert(sqrt_floor(n) == r);
            assert(sqrt_floor(n) * sqrt_floor(n) <= n);
            assert(n < (sqrt_floor(n) + 1) * (sqrt_floor(n) + 1));
        }
    }
}

/// Any `r` satisfying the square-root bracketing equals `sqrt_floor(n)`.
pub proof fn lemma_sqrt_floor_unique(n: nat, r: nat)
    requires
        r * r <= n,
        n < (r + 1) * (r + 1),
    ensures
        r == sqrt_floor(n),
{
    let s = sqrt_floor(n);
    lemma_sqrt_floor_bounds(n);
    if r < s {
        assert((r + 1) * (r + 1) <= s * s) by (nonlinear_arith)
            requires
                r + 1 <= s,
        ;
    }
    if s < r {
        assert((s + 1) * (s + 1) <= r * r) by (nonlinear_arith)
            requires
                s + 1 <= r,
        ;
    }
}

/// `log2_floor(n)` brackets `n` between consecutive powers of two.
pub proof fn lemma_log2_floor_bounds(n: nat)
    requires
        1 <= n,
    ensures
        pow2(log2_floor(n)) <= n,
        n < pow2(log2_floor(n) + 1),
    decreases n,
{
    if n < 2 {
        lemma_pow2_unfold(1);
        assert(pow2(0) == 1) by {
            lemma2_to64();
        }
    } else {
        lemma_log2_floor_bounds(n / 2);
        let l = log2_floor(n / 2);
        lemma_pow2_unfold(l + 1);
        lemma_pow2_unfold(l + 2);
        assert(n == 2 * (n / 2) + n % 2) by (nonlinear_arith);
    }
}

/// Any `e` bracketing `n` between `2^e` and `2^(e+1)` equals `log2_floor(n)`.
pub proof fn lemma_log2_floor_unique(n: nat, e: nat)
    requires
        pow2(e) <= n,
        n < pow2(e + 1),
    ensures
        e == log2_floor(n),
{
    lemma_pow2_pos(e);
    lemma_log2_floor_bounds(n);
    let l = log2_floor(n);
    if e < l {
        if e + 1 < l {
            lemma_pow2_strictly_increases(e + 1, l);
        }
        assert(pow2(e + 1) <= pow2(l));
    }
    if l < e {
        if l + 1 < e {
            lemma_pow2_strictly_increases(l + 1, e);
        }
        assert(pow2(l + 1) <= pow2(e));
    }
}

impl Transform {
    /// The forward map into search-coordinate space.
    pub open spec fn forward_spec(self, v: nat) -> nat {
        match self {
            Transform::Linear => v,
            Transform::Sqrt => v * v,
            Transform::Ln => pow2(v),
        }
    }

    /// The inverse map back into value space; floors where the forward map
    /// is not surjective.
    pub open spec fn inverse_spec(self, q: nat) -> nat {
        match self {
            Transform::Linear => q,
            Transform::Sqrt => sqrt_floor(q),
            Transform::Ln => log2_floor(q),
        }
    }

    /// The values this transform accepts: positive integers, bounded so
    /// every forward image fits in [`MAX_Q`]. The integer model takes one as
    /// its floor for every variant — a zero quality value or bitrate is
    /// meaningless, and the logarithmic variant is undefined there anyway —
    /// so a range starting at zero is rejected as an invalid configuration.
    pub open spec fn in_domain(self, v: u64) -> bool {
        match self {
            Transform::Linear => 1 <= v <= MAX_Q,
            Transform::Sqrt => 1 <= v <= MAX_SQRT_VALUE,
            Transform::Ln => 1 <= v <= MAX_LN_VALUE,
        }
    }

    /// In-domain values map into `1 ..= MAX_Q`.
    pub proof fn lemma_forward_in_range(self, v: u64)
        requires
            self.in_domain(v),
        ensures
            1 <= self.forward_spec(v as nat) <= MAX_Q,
    {
        match self {
            Transform::Linear => {},
            Transform::Sqrt => {
                assert(1 <= v * v <= MAX_SQRT_VALUE * MAX_SQRT_VALUE) by (nonlinear_arith)
                    requires
                        1 <= v <= MAX_SQRT_VALUE,
                ;
            },
            Transform::Ln => {
                lemma_pow2_pos(v as nat);
                if v < 40 {
                    lemma_pow2_strictly_increases(v as nat, 40);
                }
                assert(pow2(40) == 0x100_0000_0000) by {
                    lemma2_to64_rest();
                }
            },
        }
    }

    /// The inverse undoes the forward map exactly on the domain.
    pub proof fn lemma_round_trip(self, v: u64)
        requires
            self.in_domain(v),
        ensures
            self.inverse_spec(self.forward_spec(v as nat)) == v,
    {
        match self {
            Transform::Linear => {},
            Transform::Sqrt => {
                assert(v * v < (v + 1) * (v + 1)) by (nonlinear_arith);
                lemma_sqrt_floor_unique((v * v) as nat, v as nat);
            },
            Transform::Ln => {
                lemma_pow2_strictly_increases(v as nat, v as nat + 1);
                lemma_log2_floor_unique(pow2(v as nat), v as nat);
            },
        }
    }

    /// The forward map is strictly increasing on the domain.
    pub proof fn lemma_forward_strictly_monotonic(self, v1: u64, v2: u64)
        requires
            self.in_domain(v1),
            self.in_domain(v2),
            v1 < v2,
        ensures
            self.forward_spec(v1 as nat) < self.forward_spec(v2 as nat),
    {
        match self {
            Transform::Linear => {},
            Transform::Sqrt => {
                assert(v1 * v1 < v2 * v2) by (nonlinear_arith)
                    requires
                        1 <= v1 < v2,
                ;
            },
            Transform::Ln => {
                lemma_pow2_strictly_increases(v1 as nat, v2 as nat);
            },
        }
    }

    /// The inverse map never decreases.
    pub proof fn lemma_inverse_monotonic(self, q1: nat, q2: nat)
        requires
            q1 <= q2,
        ensures
            self.inverse_spec(q1) <= self.inverse_spec(q2),
    {
        match self {
            Transform::Linear => {},
            Transform::Sqrt => {
                let r1 = sqrt_floor(q1);
                let r2 = sqrt_floor(q2);
                lemma_sqrt_floor_bounds(q1);
                lemma_sqrt_floor_bounds(q2);
                if r2 < r1 {
                    assert((r2 + 1) * (r2 + 1) <= r1 * r1) by (nonlinear_arith)
                        requires
                            r2 + 1 <= r1,
                    ;
                }
            },
            Transform::Ln => {
                if q1 == 0 {
                } else {
                    let l1 = log2_floor(q1);
                    let l2 = log2_floor(q2);
                    lemma_log2_floor_bounds(q1);
                    lemma_log2_floor_bounds(q2);
                    if l2 < l1 {
                        lemma_pow2_strictly_increases(l2 + 1, l1);
                        assert(pow2(l2 + 1) <= pow2(l1));
                    }
                }
            },
        }
    }

    /// Decides `in_domain`.
    pub fn check_domain(self, v: u64) -> (b: bool)
        ensures
            b == self.in_domain(v),
    {
        match self {
            Transform::Linear => 1 <= v && v <= MAX_Q,
            Transform::Sqrt => 1 <= v && v <= MAX_SQRT_VALUE,
            Transform::Ln => 1 <= v && v <= MAX_LN_VALUE,
        }
    }

    /// Computes `forward_spec`.
    pub fn forward(self, v: u64) -> (q: u64)
        requires
            self.in_domain(v),
        ensures
            q == self.forward_spec(v as nat),
            1 <= q <= MAX_Q,
    {
        proof {
            self.lemma_forward_in_range(v);
        }
        match self {
            Transform::Linear => v,
            Transform::Sqrt => v * v,
            Transform::Ln => pow2_exec(v),
        }
    }

    /// Computes `inverse_spec`.
    pub fn inverse(self, q: u64) -> (v: u64)
        requires
            1 <= q <= MAX_Q,
        ensures
            v == self.inverse_spec(q as nat),
            v <= MAX_Q,
    {
        match self {
            Transform::Linear => q,
            Transform::Sqrt => isqrt(q),
            Transform::Ln => {
                let r = log2(q);
                proof {
                    if r > 40 {
                        lemma_pow2_strictly_increases(40, r as nat);
                        assert(pow2(40) == 0x100_0000_0000) by {
                            lemma2_to64_rest();
                        }
                    }
                }
                r
            },
        }
    }
}

/// Small powers of two stay within 32 bits.
pub proof fn lemma_pow2_le_32(e: nat)
    requires
        e <= 32,
    ensures
        pow2(e) <= 0x1_0000_0000,
{
    if e < 32 {
        lemma_pow2_strictly_increases(e, 32);
    }
    assert(pow2(32) == 0x1_0000_0000) by {
        lemma2_to64();
    }
}

/// Computes `pow2(e)` by repeated doubling.
pub(crate) fn pow2_exec(e: u64) -> (r: u64)
    requires
        e <= 63,
    ensures
        r == pow2(e as nat),
{
    let mut i: u64 = 0;
    let mut r: u64 = 1;
    proof {
        assert(pow2(0) == 1) by {
            lemma2_to64();
        }
    }
    while i < e
        invariant
            i <= e <= 63,
            r == pow2(i as nat),
        decreases e - i,
    {
        proof {
            if (i as nat) < 63 {
                lemma_pow2_strictly_increases(i as nat, 63);
            }
            assert(pow2(63) == 0x8000_0000_0000_0000) by {
                lemma2_to64_rest();
            }
            lemma_pow2_unfold(i as nat + 1);
        }
        r = r * 2;
        i = i + 1;
    }
    r
}

/// Computes `sqrt_floor(q)` by binary search on the root.
fn isqrt(q: u64) -> (r: u64)
    requires
        q <= MAX_Q,
    ensures
        r == sqrt_floor(q as nat),
        r <= MAX_SQRT_VALUE,
{
    let mut lo: u64 = 0;
    let mut hi: u64 = MAX_SQRT_VALUE + 1;
    proof {
        assert((MAX_SQRT_VALUE + 1) * (MAX_SQRT_VALUE + 1) > MAX_Q) by (nonlinear_arith);
    }
    while lo + 1 < hi
        invariant
            lo < hi <= MAX_SQRT_VALUE + 1,
            q <= MAX_Q,
            lo * lo <= q,
            q < hi * hi,
        decreases hi - lo,
    {
        let mid: u64 = lo + (hi - lo) / 2;
        proof {
            assert(mid as nat * mid as nat <= MAX_SQRT_VALUE as nat * MAX_SQRT_VALUE as nat)
                by (nonlinear_arith)
                requires
                    mid <= MAX_SQRT_VALUE,
            ;
            assert(MAX_SQRT_VALUE as nat * MAX_SQRT_VALUE as nat == MAX_Q) by (nonlinear_arith);
        }
        if mid * mid <= q {
            lo = mid;
        } else {
            hi = mid;
        }
    }
    proof {
        lemma_sqrt_floor_unique(q as nat, lo as nat);
    }
    lo
}

/// Computes `log2_floor(q)` by repeated halving.
fn log2(q: u64) -> (r: u64)
    requires
        1 <= q,
    ensures
        r == log2_floor(q as nat),
        pow2(r as nat) <= q as nat,
{
    let mut n: u64 = q;
    let mut r: u64 = 0;
    proof {
        assert(pow2(0) == 1) by {
            lemma2_to64();
        }
    }
    while n >= 2
        invariant
            1 <= n,
            n as nat * pow2(r as nat) <= q as nat,
            log2_floor(q as nat) == r + log2_floor(n as nat),
        decreases n,
    {
        proof {
            // q fits in u64, so the halving count stays far from overflow.
            assert(pow2(64) == 0x1_0000_0000_0000_0000) by {
                lemma2_to64();
            }
            assert(pow2(r as nat) <= n as nat * pow2(r as nat)) by (nonlinear_arith)
                requires
                    1 <= n,
            ;
            if r >= 64 {
                lemma_pow2_strictly_increases(64, r as nat);
                lemma_pow2_pos(r as nat);
            }
            lemma_pow2_unfold(r as nat + 1);
            assert((n as nat / 2) * (2 * pow2(r as nat)) <= n as nat * pow2(r as nat))
                by (nonlinear_arith);
        }
        n = n / 2;
        r = r + 1;
    }
    r
}

} // verus!
