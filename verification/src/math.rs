//! Integer vector geometry and the arithmetic helpers the resolution pass
//! needs: saturating accumulation, an integer square root, and the scaled
//! unit-direction force components.

use vstd::prelude::*;

verus! {

/// Largest magnitude allowed for a world coordinate, a box half-extent or a
/// maximum velocity. Keeps every intermediate product of the collision math
/// comfortably inside `i64`.
pub const COORD_LIMIT: i64 = 1_000_000;

/// Scale factor applied to a body's maximum velocity when a separating
/// impulse is computed.
pub const FORCE_FACTOR: i64 = 10;

/// A 2D vector with integer components. World positions, box half-extents
/// and force accumulators are all fixed-point values held in this type.
#[derive(Clone, Copy, Debug, PartialEq, Eq, Structural)]
pub struct Vec2i {
    pub x: i64,
    pub y: i64,
}

impl Vec2i {
    /// Builds a vector from its two components.
    pub fn new(x: i64, y: i64) -> (r: Vec2i)
        ensures
            r.x == x,
            r.y == y,
    {
        Vec2i { x, y }
    }

    /// The zero vector.
    pub fn zero() -> (r: Vec2i)
        ensures
            r.x == 0,
            r.y == 0,
    {
        Vec2i { x: 0, y: 0 }
    }
}

/// Mathematical result of adding `b` to `a` and clamping at the `i64` range.
pub open spec fn sat_add_spec(a: int, b: int) -> int {
    if a + b > i64::MAX {
        i64::MAX as int
    } else if a + b < i64::MIN {
        i64::MIN as int
    } else {
        a + b
    }
}

/// Saturating addition on `i64`.
pub fn sat_add(a: i64, b: i64) -> (r: i64)
    ensures
        r == sat_add_spec(a as int, b as int),
{
    match a.checked_add(b) {
        Some(c) => c,
        None => if b > 0 {
            i64::MAX
        } else {
            i64::MIN
        },
    }
}

/// The integer square root: the largest `r` with `r * r <= n`.
pub open spec fn isqrt_spec(n: nat) -> nat
    decreases n,
{
    if n == 0 {
        0
    } else {
        let p = isqrt_spec((n - 1) as nat);
        if (p + 1) * (p + 1) <= n {
            p + 1
        } else {
            p
        }
    }
}

/// `isqrt_spec(n)` is indeed the integer square root of `n`.
pub proof fn lemma_isqrt_bounds(n: nat)
    ensures
        isqrt_spec(n) * isqrt_spec(n) <= n,
        n < (isqrt_spec(n) + 1) * (isqrt_spec(n) + 1),
    decreases n,
{
    if n == 0 {
        assert(isqrt_spec(0) == 0);
        assert(isqrt_spec(n) * isqrt_spec(n) <= n && n < (isqrt_spec(n) + 1) * (isqrt_spec(n)
            + 1)) by (nonlinear_arith)
            requires
                n == 0,
                isqrt_spec(n) == 0,
        ;
    } else {
        lemma_isqrt_bounds((n - 1) as nat);
        let p = isqrt_spec((n - 1) as nat);
        assert(p * p <= n - 1);
        assert(n - 1 < (p + 1) * (p + 1));
        if (p + 1) * (p + 1) <= n {
            assert(isqrt_spec(n) == p + 1);
            assert(isqrt_spec(n) * isqrt_spec(n) <= n && n < (isqrt_spec(n) + 1) * (isqrt_spec(n)
                + 1)) by (nonlinear_arith)
                requires
                    isqrt_spec(n) == p + 1,
                    (p + 1) * (p + 1) <= n,
                    n - 1 < (p + 1) * (p + 1),
            ;
        } else {
            assert(isqrt_spec(n) == p);
            assert(isqrt_spec(n) * isqrt_spec(n) <= n && n < (isqrt_spec(n) + 1) * (isqrt_spec(n)
                + 1)) by (nonlinear_arith)
                requires
                    isqrt_spec(n) == p,
                    p * p <= n - 1,
                    n >= 1,
                    !((p + 1) * (p + 1) <= n),
            ;
        }
    }
}

/// Any `r` with `r * r <= n < (r + 1) * (r + 1)` equals `isqrt_spec(n)`.
pub proof fn lemma_isqrt_unique(n: nat, r: nat)
    requires
        r * r <= n,
        n < (r + 1) * (r + 1),
    ensures
        r == isqrt_spec(n),
{
    lemma_isqrt_bounds(n);
    let s = isqrt_spec(n);
    if r < s {
        assert(false) by (nonlinear_arith)
            requires
                r < s,
                s * s <= n,
                n < (r + 1) * (r + 1),
            ;
        }
    if s < r {
        assert(false) by (nonlinear_arith)
            requires
                s < r,
                r * r <= n,
                n < (s + 1) * (s + 1),
            ;
        }
}

/// The integer square root, computed by counting up.
pub fn isqrt(n: u64) -> (r: u64)
    requires
        n <= 0x4000_0000_0000_0000,
    ensures
        r == isqrt_spec(n as nat),
{
    let mut r: u64 = 0;
    loop
        invariant
            n <= 0x4000_0000_0000_0000,
            r * r <= n,
        decreases n - r,
    {
        assert(r <= 0x8000_0000) by (nonlinear_arith)
            requires
                r * r <= 0x4000_0000_0000_0000,
        ;
        assert((r + 1) * (r + 1) <= 0x4000_0002_0000_0001) by (nonlinear_arith)
            requires
                r <= 0x8000_0000,
        ;
        if (r + 1) * (r + 1) > n {
            proof {
                lemma_isqrt_unique(n as nat, r as nat);
            }
            return r;
        }
        assert(r < n) by (nonlinear_arith)
            requires
                (r + 1) * (r + 1) <= n,
        ;
        r = r + 1;
    }
}

/// One axis of the separating impulse: `FORCE_FACTOR * v * d / len`, computed
/// on magnitudes with the sign of `d` restored afterwards. `len` is the
/// length of the full displacement vector, so `|d| <= len` makes the quotient
/// a scaled component of a unit direction.
pub open spec fn axis_force_spec(v: int, d: int, len: int) -> int
    recommends
        len > 0,
        v >= 0,
{
    if d >= 0 {
        (FORCE_FACTOR * v * d) / len
    } else {
        -((FORCE_FACTOR * v * (-d)) / len)
    }
}

/// Computes one axis of the separating impulse.
pub fn axis_force(v: i64, d: i64, len: i64) -> (r: i64)
    requires
        0 <= v <= COORD_LIMIT,
        -2 * COORD_LIMIT <= d <= 2 * COORD_LIMIT,
        0 < len,
    ensures
        r == axis_force_spec(v as int, d as int, len as int),
        -20_000_000_000_000 <= r <= 20_000_000_000_000,
{
    let mag_d: i64 = if d >= 0 {
        d
    } else {
        -d
    };
    let vm: i64 = FORCE_FACTOR * v;
    proof {
        assert(vm * mag_d <= 20_000_000_000_000 && vm * mag_d >= 0) by (nonlinear_arith)
            requires
                0 <= vm <= 10_000_000,
                0 <= mag_d <= 2_000_000,
        ;
    }
    let num: i64 = vm * mag_d;
    let q: i64 = num / len;
    proof {
        assert(num / len >= 0 && num / len <= num) by (nonlinear_arith)
            requires
                num >= 0,
                len > 0,
        ;
    }
    if d >= 0 {
        q
    } else {
        -q
    }
}

} // verus!
