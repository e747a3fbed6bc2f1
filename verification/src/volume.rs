//! Volumes: cubed radii and their sums, held exactly.
//!
//! The cube of a scalar does not fit 128 bits, so a volume is kept in two
//! limbs. A sum of volumes is exact up to `volume_cap()`, which lies far above
//! the cube of the largest scalar, so that the cube root of a sum is exact
//! wherever it is a scalar at all.
use crate::fixed::{int_cbrt, is_cbrt, lemma_cbrt_exists, lemma_cbrt_is, sat, LIMIT};
use vstd::prelude::*;

verus! {

/// The weight of the upper limb of a volume: two to the power of 64.
pub const LIMB: u128 = 0x1_0000_0000_0000_0000;

/// The upper limb of the largest volume that a sum may reach.
pub const VOLUME_HI_CAP: u128 = 0x4000_0000_0000_0000_0000_0000_0000_0000;

/// A volume in cubed raw units: `hi` times two to the power of 64, plus `lo`.
#[derive(Clone, Copy, Debug, PartialEq, Eq, Structural)]
pub struct Volume {
    pub hi: u128,
    pub lo: u64,
}

/// The largest volume that a sum may reach: two to the power of 190.
pub open spec fn volume_cap() -> int {
    VOLUME_HI_CAP * 0x1_0000_0000_0000_0000
}

/// A sum of volumes, held at `volume_cap()`.
pub open spec fn vclamp(v: int) -> int {
    if v > volume_cap() {
        volume_cap()
    } else {
        v
    }
}

/// The volume that stands for the number `v`.
pub open spec fn spec_volume(v: int) -> Volume {
    Volume {
        hi: (v / 0x1_0000_0000_0000_0000) as u128,
        lo: (v % 0x1_0000_0000_0000_0000) as u64,
    }
}

/// The cube of `r`.
pub open spec fn spec_cube(r: int) -> int {
    r * r * r
}

/// The cube grows with its base.
pub proof fn lemma_cube_grows(a: int, b: int)
    requires
        0 <= a <= b,
    ensures
        spec_cube(a) <= spec_cube(b),
        0 <= spec_cube(a),
        a < b ==> spec_cube(a) < spec_cube(b),
{
    assert(0 <= a * a * a && a * a * a <= b * b * b) by (nonlinear_arith)
        requires
            0 <= a <= b,
    ;
    if a < b {
        assert(a * a * a < b * b * b) by (nonlinear_arith)
            requires
                0 <= a,
                a + 1 <= b,
        ;
    }
}

/// The cube root grows with the number it is taken of.
pub proof fn lemma_cbrt_grows(m: int, n: int)
    requires
        0 <= m <= n,
    ensures
        0 <= int_cbrt(m) <= int_cbrt(n),
{
    lemma_cbrt_exists(m);
    lemma_cbrt_exists(n);
    let a = int_cbrt(m);
    let b = int_cbrt(n);
    if b < a {
        lemma_cube_grows(b + 1, a);
    }
}

/// The cube root of a cube is its base.
pub proof fn lemma_cbrt_of_cube(r: int)
    requires
        0 <= r,
    ensures
        int_cbrt(spec_cube(r)) == r,
{
    lemma_cube_grows(r, r + 1);
    lemma_cbrt_is(spec_cube(r), r);
}

impl Volume {
    /// The number that this volume stands for.
    pub open spec fn view(self) -> int {
        self.hi * 0x1_0000_0000_0000_0000 + self.lo
    }

    /// The volume zero.
    pub fn zero() -> (v: Volume)
        ensures
            v == spec_volume(0),
            v@ == 0,
    {
        Volume { hi: 0, lo: 0 }
    }

    /// The volume that stands for `n`.
    pub fn from_u128(n: u128) -> (v: Volume)
        ensures
            v == spec_volume(n as int),
            v@ == n,
    {
        Volume { hi: n / LIMB, lo: (n % LIMB) as u64 }
    }

    /// The cube of the scalar `r`.
    pub fn cube_of(r: i64) -> (v: Volume)
        requires
            0 <= r,
        ensures
            v == spec_volume(spec_cube(r as int)),
            v@ == spec_cube(r as int),
            v.hi < VOLUME_HI_CAP,
    {
        let w: u128 = r as u128;
        assert(w * w <= 0x7FFF_FFFF_FFFF_FFFF * 0x7FFF_FFFF_FFFF_FFFF) by (nonlinear_arith)
            requires
                0 <= w <= 0x7FFF_FFFF_FFFF_FFFF,
        ;
        let square: u128 = w * w;
        let a: u128 = square / LIMB;
        let b: u128 = square % LIMB;
        assert(a * w <= 0x3FFF_FFFF_FFFF_FFFF * 0x7FFF_FFFF_FFFF_FFFF && b * w
            <= 0xFFFF_FFFF_FFFF_FFFF * 0x7FFF_FFFF_FFFF_FFFF) by (nonlinear_arith)
            requires
                0 <= w <= 0x7FFF_FFFF_FFFF_FFFF,
                0 <= a <= 0x3FFF_FFFF_FFFF_FFFF,
                0 <= b <= 0xFFFF_FFFF_FFFF_FFFF,
        ;
        let upper: u128 = a * w;
        let lower: u128 = b * w;
        let carry: u128 = lower / LIMB;
        let rest: u128 = lower % LIMB;
        assert((upper + carry) * 0x1_0000_0000_0000_0000 + rest == w * w * w) by (nonlinear_arith)
            requires
                square == w * w,
                square == a * 0x1_0000_0000_0000_0000 + b,
                upper == a * w,
                lower == b * w,
                lower == carry * 0x1_0000_0000_0000_0000 + rest,
        ;
        Volume { hi: upper + carry, lo: rest as u64 }
    }

    /// The sum of two volumes, held at `volume_cap()`.
    pub fn plus(self, other: Volume) -> (v: Volume)
        ensures
            v == spec_volume(vclamp(self@ + other@)),
            v@ == vclamp(self@ + other@),
            v.hi <= VOLUME_HI_CAP,
    {
        if self.hi >= VOLUME_HI_CAP || other.hi >= VOLUME_HI_CAP {
            return Volume { hi: VOLUME_HI_CAP, lo: 0 };
        }
        let low: u128 = self.lo as u128 + other.lo as u128;
        let hi: u128 = self.hi + other.hi + low / LIMB;
        if hi >= VOLUME_HI_CAP {
            Volume { hi: VOLUME_HI_CAP, lo: 0 }
        } else {
            Volume { hi, lo: (low % LIMB) as u64 }
        }
    }

    /// Whether this volume is at most `other`.
    pub fn at_most(self, other: Volume) -> (b: bool)
        ensures
            b == (self@ <= other@),
    {
        self.hi < other.hi || (self.hi == other.hi && self.lo <= other.lo)
    }

    /// The radius of this volume: its cube root, rounded down and clamped to
    /// the range of scalars.
    pub fn cbrt(self) -> (r: i64)
        ensures
            r == sat(int_cbrt(self@)),
            0 <= r <= LIMIT,
    {
        let top = Volume::cube_of(LIMIT + 1);
        proof {
            lemma_cbrt_exists(self@);
        }
        if top.at_most(self) {
            proof {
                let c = int_cbrt(self@);
                if c <= LIMIT {
                    lemma_cube_grows(c + 1, LIMIT + 1);
                }
            }
            return LIMIT;
        }
        let mut low: i64 = 0;
        let mut high: i64 = LIMIT + 1;
        proof {
            lemma_cube_grows(0, 0);
        }
        while high - low > 1
            invariant
                0 <= low < high <= LIMIT + 1,
                spec_cube(low as int) <= self@,
                self@ < spec_cube(high as int),
            decreases high - low,
        {
            let mid: i64 = low + (high - low) / 2;
            if Volume::cube_of(mid).at_most(self) {
                low = mid;
            } else {
                high = mid;
            }
        }
        proof {
            assert(high == low + 1);
            assert(is_cbrt(self@, low as int));
            lemma_cbrt_is(self@, low as int);
        }
        low
    }
}

/// The integer cube root of `n`.
pub fn icbrt(n: u128) -> (r: u128)
    ensures
        is_cbrt(n as int, r as int),
        r == int_cbrt(n as int),
{
    let r = Volume::from_u128(n).cbrt();
    proof {
        lemma_cbrt_exists(n as int);
        let c = int_cbrt(n as int);
        if c > LIMIT {
            lemma_cube_grows(LIMIT + 1, c);
            assert(spec_cube(LIMIT + 1) > 0xFFFF_FFFF_FFFF_FFFF_FFFF_FFFF_FFFF_FFFF) by (nonlinear_arith);
        }
    }
    r as u128
}

} // verus!
