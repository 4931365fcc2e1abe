//! Three-component fixed-point vectors, used for points and colors.

use vstd::prelude::*;
use crate::fixed::{
    SCALE, tdiv, sqrt_floor, is_sqrt_floor, tdiv_i128, isqrt_u128,
    lemma_sqrt_floor_unique, lemma_tdiv_bounds, lemma_tdiv_shrinks, lemma_mul_abs_bound,
};

verus! {

/// Largest coordinate magnitude the renderer admits: 256 wholes.
/// Keeping every coordinate inside this bound lets all intermediate
/// products of the intersection algebra fit in `i128`.
pub const VMAX: i64 = 16777216;

/// A fixed-point 3-vector; each component holds `value * SCALE`.
#[derive(Clone, Copy, PartialEq, Eq, Structural, Debug)]
pub struct Vec3 {
    pub x: i64,
    pub y: i64,
    pub z: i64,
}

/// Points and colors share the vector representation.
pub type Point3 = Vec3;
pub type Color = Vec3;

impl Vec3 {
    /// Every component within `[-b, b]`.
    pub open spec fn bounded(self, b: int) -> bool {
        &&& -b <= self.x <= b
        &&& -b <= self.y <= b
        &&& -b <= self.z <= b
    }

    /// The zero vector.
    pub open spec fn is_zero(self) -> bool {
        self.x == 0 && self.y == 0 && self.z == 0
    }

    /// Raw dot product: carries a factor `SCALE * SCALE`.
    pub open spec fn dot_s(self, other: Vec3) -> int {
        self.x * other.x + self.y * other.y + self.z * other.z
    }

    /// Component by position, for the indexed accessors.
    pub open spec fn comp(self, i: int) -> int {
        if i == 0 {
            self.x as int
        } else if i == 1 {
            self.y as int
        } else {
            self.z as int
        }
    }

    pub fn new(x: i64, y: i64, z: i64) -> (v: Vec3)
        ensures
            v.x == x,
            v.y == y,
            v.z == z,
    {
        Vec3 { x, y, z }
    }

    pub fn x(self) -> (r: i64)
        ensures
            r == self.x,
    {
        self.x
    }

    pub fn y(self) -> (r: i64)
        ensures
            r == self.y,
    {
        self.y
    }

    pub fn z(self) -> (r: i64)
        ensures
            r == self.z,
    {
        self.z
    }

    /// Read a component by index.
    pub fn get(self, i: usize) -> (r: i64)
        requires
            i < 3,
        ensures
            r == self.comp(i as int),
    {
        if i == 0 {
            self.x
        } else if i == 1 {
            self.y
        } else {
            self.z
        }
    }

    /// Replace a component by index.
    pub fn set(&mut self, i: usize, val: i64)
        requires
            i < 3,
        ensures
            final(self).comp(i as int) == val,
            forall|j: int| 0 <= j < 3 && j != i ==> final(self).comp(j) == old(self).comp(j),
    {
        if i == 0 {
            self.x = val;
        } else if i == 1 {
            self.y = val;
        } else {
            self.z = val;
        }
    }

    /// Component-wise sum.
    pub fn add(self, other: Vec3) -> (r: Vec3)
        requires
            i64::MIN <= self.x + other.x <= i64::MAX,
            i64::MIN <= self.y + other.y <= i64::MAX,
            i64::MIN <= self.z + other.z <= i64::MAX,
        ensures
            r.x == self.x + other.x,
            r.y == self.y + other.y,
            r.z == self.z + other.z,
    {
        Vec3 { x: self.x + other.x, y: self.y + other.y, z: self.z + other.z }
    }

    /// Component-wise difference.
    pub fn sub(self, other: Vec3) -> (r: Vec3)
        requires
            i64::MIN <= self.x - other.x <= i64::MAX,
            i64::MIN <= self.y - other.y <= i64::MAX,
            i64::MIN <= self.z - other.z <= i64::MAX,
        ensures
            r.x == self.x - other.x,
            r.y == self.y - other.y,
            r.z == self.z - other.z,
    {
        Vec3 { x: self.x - other.x, y: self.y - other.y, z: self.z - other.z }
    }

    /// Component-wise negation.
    pub fn neg(self) -> (r: Vec3)
        requires
            self.x > i64::MIN,
            self.y > i64::MIN,
            self.z > i64::MIN,
        ensures
            r.x == -self.x,
            r.y == -self.y,
            r.z == -self.z,
    {
        Vec3 { x: -self.x, y: -self.y, z: -self.z }
    }

    /// Multiply by a fixed-point scalar, truncating toward zero.
    pub fn scale(self, k: i64) -> (r: Vec3)
        requires
            self.bounded(VMAX as int),
            -VMAX <= k <= VMAX,
        ensures
            r.x == tdiv(self.x * k, SCALE as int),
            r.y == tdiv(self.y * k, SCALE as int),
            r.z == tdiv(self.z * k, SCALE as int),
            r.bounded(VMAX as int * VMAX as int / SCALE as int),
    {
        proof {
            lemma_mul_abs_bound(self.x as int, k as int, VMAX as int, VMAX as int);
            lemma_mul_abs_bound(self.y as int, k as int, VMAX as int, VMAX as int);
            lemma_mul_abs_bound(self.z as int, k as int, VMAX as int, VMAX as int);
        }
        let x: i64 = tdiv_i128((self.x as i128) * (k as i128), SCALE as i128) as i64;
        let y: i64 = tdiv_i128((self.y as i128) * (k as i128), SCALE as i128) as i64;
        let z: i64 = tdiv_i128((self.z as i128) * (k as i128), SCALE as i128) as i64;
        proof {
            lemma_tdiv_bounds(self.x as int * k as int, SCALE as int);
            lemma_tdiv_bounds(self.y as int * k as int, SCALE as int);
            lemma_tdiv_bounds(self.z as int * k as int, SCALE as int);
            lemma_tdiv_shrinks_signed(self.x as int * k as int, SCALE as int, VMAX as int * VMAX as int / SCALE as int);
            lemma_tdiv_shrinks_signed(self.y as int * k as int, SCALE as int, VMAX as int * VMAX as int / SCALE as int);
            lemma_tdiv_shrinks_signed(self.z as int * k as int, SCALE as int, VMAX as int * VMAX as int / SCALE as int);
        }
        Vec3 { x, y, z }
    }

    /// Divide by a positive fixed-point scalar, truncating toward
    /// zero.
    pub fn div(self, k: i64) -> (r: Vec3)
        requires
            self.bounded(VMAX as int),
            0 < k,
        ensures
            r.x == tdiv(self.x * SCALE, k as int),
            r.y == tdiv(self.y * SCALE, k as int),
            r.z == tdiv(self.z * SCALE, k as int),
    {
        proof {
            lemma_mul_abs_bound(self.x as int, SCALE as int, VMAX as int, SCALE as int);
            lemma_mul_abs_bound(self.y as int, SCALE as int, VMAX as int, SCALE as int);
            lemma_mul_abs_bound(self.z as int, SCALE as int, VMAX as int, SCALE as int);
            lemma_tdiv_bounds(self.x as int * SCALE as int, k as int);
            lemma_tdiv_bounds(self.y as int * SCALE as int, k as int);
            lemma_tdiv_bounds(self.z as int * SCALE as int, k as int);
        }
        Vec3 {
            x: tdiv_i128((self.x as i128) * (SCALE as i128), k as i128) as i64,
            y: tdiv_i128((self.y as i128) * (SCALE as i128), k as i128) as i64,
            z: tdiv_i128((self.z as i128) * (SCALE as i128), k as i128) as i64,
        }
    }

    /// Raw dot product of two bounded vectors.
    pub fn dot(self, other: Vec3) -> (r: i64)
        requires
            self.bounded(VMAX as int),
            other.bounded(VMAX as int),
        ensures
            r == self.dot_s(other),
    {
        proof {
            lemma_mul_abs_bound(self.x as int, other.x as int, VMAX as int, VMAX as int);
            lemma_mul_abs_bound(self.y as int, other.y as int, VMAX as int, VMAX as int);
            lemma_mul_abs_bound(self.z as int, other.z as int, VMAX as int, VMAX as int);
        }
        self.x * other.x + self.y * other.y + self.z * other.z
    }

    /// Cross product, with the usual fixed-point rescale of each
    /// component product.
    pub fn cross(self, other: Vec3) -> (r: Vec3)
        requires
            self.bounded(VMAX as int),
            other.bounded(VMAX as int),
        ensures
            r.x == tdiv(self.y * other.z - self.z * other.y, SCALE as int),
            r.y == tdiv(self.z * other.x - self.x * other.z, SCALE as int),
            r.z == tdiv(self.x * other.y - self.y * other.x, SCALE as int),
    {
        proof {
            lemma_mul_abs_bound(self.y as int, other.z as int, VMAX as int, VMAX as int);
            lemma_mul_abs_bound(self.z as int, other.y as int, VMAX as int, VMAX as int);
            lemma_mul_abs_bound(self.z as int, other.x as int, VMAX as int, VMAX as int);
            lemma_mul_abs_bound(self.x as int, other.z as int, VMAX as int, VMAX as int);
            lemma_mul_abs_bound(self.x as int, other.y as int, VMAX as int, VMAX as int);
            lemma_mul_abs_bound(self.y as int, other.x as int, VMAX as int, VMAX as int);
        }
        let cx: i128 = (self.y as i128) * (other.z as i128) - (self.z as i128) * (other.y as i128);
        let cy: i128 = (self.z as i128) * (other.x as i128) - (self.x as i128) * (other.z as i128);
        let cz: i128 = (self.x as i128) * (other.y as i128) - (self.y as i128) * (other.x as i128);
        let x: i64 = tdiv_i128(cx, SCALE as i128) as i64;
        let y: i64 = tdiv_i128(cy, SCALE as i128) as i64;
        let z: i64 = tdiv_i128(cz, SCALE as i128) as i64;
        Vec3 { x, y, z }
    }

    /// Fixed-point length: the floor square root of the raw squared
    /// length, which lands back on the `SCALE` of the components.
    pub fn length(self) -> (r: i64)
        requires
            self.bounded(VMAX as int),
        ensures
            r == sqrt_floor(self.dot_s(self)),
            is_sqrt_floor(self.dot_s(self), r as int),
            0 <= r,
    {
        let d: i64 = self.dot(self);
        proof {
            lemma_sq_nonneg(self.x as int);
            lemma_sq_nonneg(self.y as int);
            lemma_sq_nonneg(self.z as int);
            lemma_mul_abs_bound(self.x as int, self.x as int, VMAX as int, VMAX as int);
            lemma_mul_abs_bound(self.y as int, self.y as int, VMAX as int, VMAX as int);
            lemma_mul_abs_bound(self.z as int, self.z as int, VMAX as int, VMAX as int);
        }
        let r: u128 = isqrt_u128(d as u128);
        proof {
            lemma_sqrt_floor_unique(d as int, r as int);
            assert(r * r <= d);
            lemma_sqrt_le_linear(d as int, r as int);
        }
        r as i64
    }

    /// Scale to (floor) unit length.
    pub fn normalized(self) -> (r: Vec3)
        requires
            self.bounded(VMAX as int),
            self.dot_s(self) > 0,
        ensures
            r.x == tdiv(self.x * SCALE, sqrt_floor(self.dot_s(self))),
            r.y == tdiv(self.y * SCALE, sqrt_floor(self.dot_s(self))),
            r.z == tdiv(self.z * SCALE, sqrt_floor(self.dot_s(self))),
            r.bounded(SCALE as int),
    {
        let len: i64 = self.length();
        proof {
            if len == 0 {
                assert(self.dot_s(self) < (0 + 1) * (0 + 1));
                assert(false);
            }
            lemma_component_le_sqrt(self.x as int, self.y as int, self.z as int, len as int);
            lemma_component_le_sqrt(self.y as int, self.x as int, self.z as int, len as int);
            lemma_component_le_sqrt(self.z as int, self.x as int, self.y as int, len as int);
            lemma_mul_abs_bound(self.x as int, SCALE as int, VMAX as int, SCALE as int);
            lemma_mul_abs_bound(self.y as int, SCALE as int, VMAX as int, SCALE as int);
            lemma_mul_abs_bound(self.z as int, SCALE as int, VMAX as int, SCALE as int);
            lemma_tdiv_shrinks_signed(self.x as int * SCALE as int, len as int, SCALE as int);
            lemma_tdiv_shrinks_signed(self.y as int * SCALE as int, len as int, SCALE as int);
            lemma_tdiv_shrinks_signed(self.z as int * SCALE as int, len as int, SCALE as int);
        }
        let x: i64 = tdiv_i128((self.x as i128) * (SCALE as i128), len as i128) as i64;
        let y: i64 = tdiv_i128((self.y as i128) * (SCALE as i128), len as i128) as i64;
        let z: i64 = tdiv_i128((self.z as i128) * (SCALE as i128), len as i128) as i64;
        Vec3 { x, y, z }
    }
    /// Gather the pixel's channel values.
    pub fn color_components(self, samples_per_pixel: u64) -> (r: (u64, u64, u64))
        requires
            1 <= samples_per_pixel <= 0x7fff_ffff_ffff_ffff,
        ensures
            r.0 == channel_of(self.x as int, samples_per_pixel as int),
            r.1 == channel_of(self.y as int, samples_per_pixel as int),
            r.2 == channel_of(self.z as int, samples_per_pixel as int),
            r.0 <= 255 && r.1 <= 255 && r.2 <= 255,
    {
        (
            channel(self.x, samples_per_pixel),
            channel(self.y, samples_per_pixel),
            channel(self.z, samples_per_pixel),
        )
    }

    /// The pixel line for this color summed over `samples_per_pixel`
    /// samples: three channel values separated by spaces.
    pub fn format_color(self, samples_per_pixel: u64) -> String
        requires
            1 <= samples_per_pixel <= 0x7fff_ffff_ffff_ffff,
    {
        let (r, g, b) = self.color_components(samples_per_pixel);
        fmt_triple(r, g, b)
    }
}

/// A channel value: the summed channel averaged over the samples,
/// clamped to just under one whole, and mapped onto `[0, 255]`.
pub open spec fn channel_of(c: int, samples: int) -> int {
    let avg = tdiv(c, samples);
    let clamped = if avg < 0 {
        0
    } else if avg > SCALE - 1 {
        SCALE - 1
    } else {
        avg
    };
    256 * clamped / (SCALE as int)
}

/// One clamped, rescaled channel.
fn channel(c: i64, samples: u64) -> (r: u64)
    requires
        1 <= samples <= 0x7fff_ffff_ffff_ffff,
    ensures
        r == channel_of(c as int, samples as int),
        r <= 255,
{
    let avg: i64 = tdiv_i128(c as i128, samples as i128) as i64;
    let clamped: i64 = if avg < 0 {
        0
    } else if avg > SCALE - 1 {
        SCALE - 1
    } else {
        avg
    };
    let ch: u64 = ((256 * clamped) as u64) / (SCALE as u64);
    proof {
        vstd::arithmetic::div_mod::lemma_div_is_ordered(
            256 * clamped,
            256 * (SCALE - 1),
            SCALE as int,
        );
    }
    ch
}

/// Relies on std's `format!` to render the three channel values as
/// one space-separated line.
#[verifier::external_body]
fn fmt_triple(r: u64, g: u64, b: u64) -> String {
    format!("{} {} {}", r, g, b)
}

/// Component-wise negation, as a spec value.
pub open spec fn vneg(v: Vec3) -> Vec3 {
    Vec3 { x: (-v.x) as i64, y: (-v.y) as i64, z: (-v.z) as i64 }
}

/// Component-wise sum, as a spec value.
pub open spec fn vadd(a: Vec3, b: Vec3) -> Vec3 {
    Vec3 { x: (a.x + b.x) as i64, y: (a.y + b.y) as i64, z: (a.z + b.z) as i64 }
}

/// A square is never negative.
pub proof fn lemma_sq_nonneg(x: int)
    ensures
        x * x >= 0,
{
    assert(x * x >= 0) by (nonlinear_arith);
}

/// A nonzero integer has a square of at least one.
pub proof fn lemma_sq_pos(x: int)
    requires
        x != 0,
    ensures
        x * x >= 1,
{
    assert(x * x >= 1) by (nonlinear_arith)
        requires x != 0;
}

/// The floor square root of a number at most `n` is at most `n` when
/// it is a square root of something bounded by a square; specialized:
/// `r * r <= d` with `d` itself a raw square sum keeps `r` within the
/// coordinate bound, enough for the `i64` cast.
proof fn lemma_sqrt_le_linear(d: int, r: int)
    requires
        0 <= d <= 0x4000_0000_0000_0000,
        is_sqrt_floor(d, r),
    ensures
        r <= 0x8000_0000,
{
    if r > 0x8000_0000 {
        assert(r * r > 0x4000_0000_0000_0000) by (nonlinear_arith)
            requires r > 0x8000_0000;
        assert(false);
    }
}

/// Each component's magnitude is at most the floor length of the vector.
proof fn lemma_component_le_sqrt(a: int, b: int, c: int, len: int)
    requires
        is_sqrt_floor(a * a + b * b + c * c, len),
    ensures
        -len <= a <= len,
{
    lemma_sq_nonneg(b);
    lemma_sq_nonneg(c);
    if a > len {
        assert(a * a >= (len + 1) * (len + 1)) by (nonlinear_arith)
            requires 0 <= len + 1 <= a;
        assert(false);
    }
    if a < -len {
        assert(a * a >= (len + 1) * (len + 1)) by (nonlinear_arith)
            requires 0 <= len + 1 <= -a;
        assert(false);
    }
}

/// Truncating division by a positive divisor stays within a symmetric
/// bound when the numerator does, scaled by the divisor.
pub proof fn lemma_tdiv_shrinks_signed(n: int, d: int, bound: int)
    requires
        d > 0,
        0 <= bound,
        -(bound * d) <= n <= bound * d,
    ensures
        -bound <= tdiv(n, d) <= bound,
{
    if n >= 0 {
        lemma_tdiv_shrinks(n, d, bound);
    } else {
        lemma_tdiv_shrinks(-n, d, bound);
    }
}

} // verus!

