use vstd::prelude::*;
use crate::math::SCALE;
use crate::math::tdiv;
use crate::math::sqrt_floor;
use crate::math::isqrt;
use crate::math::lemma_sqrt_floor_bounds;
use crate::math::lemma_tdiv_magnitude;
use crate::math::lemma_tdiv_sign;
use crate::math::lemma_tdiv_bound;
use vstd::arithmetic::div_mod::lemma_div_is_ordered;
use vstd::arithmetic::div_mod::lemma_div_multiples_vanish;

verus! {

/// Largest component magnitude the vector operations accept; keeps every
/// intermediate product inside `i64` (and `x*x + y*y` inside `u64`).
pub const COMPONENT_LIMIT: i64 = 0x4000_0000;

/// An immutable two-component vector with fixed-point components at scale
/// `SCALE`: the mathematical vector (0.707, -0.707) is stored as
/// (707, -707). Used both for lattice gradients and for sample
/// displacements; operations return new values, never mutate.
#[derive(Clone, Copy, Debug, PartialEq, Eq, Structural)]
pub struct Vector2D {
    pub x: i64,
    pub y: i64,
}

impl Vector2D {
    /// Components small enough for overflow-free arithmetic.
    pub open spec fn bounded(self) -> bool {
        -COMPONENT_LIMIT <= self.x <= COMPONENT_LIMIT && -COMPONENT_LIMIT <= self.y
            <= COMPONENT_LIMIT
    }

    /// The fixed-point dot product: the exact integer dot product of the
    /// stored components, brought back to scale `SCALE`.
    pub open spec fn dot_fast_spec(self, other: Vector2D) -> int {
        tdiv(self.x * other.x + self.y * other.y, SCALE as int)
    }

    /// Squared Euclidean norm of the stored components.
    pub open spec fn norm_sq(self) -> int {
        self.x * self.x + self.y * self.y
    }

    /// Euclidean norm, rounded down; at scale `SCALE` like the components.
    pub open spec fn length_spec(self) -> int {
        sqrt_floor(self.norm_sq() as nat) as int
    }

    /// Normalization works on this widened copy: a vector shorter than half
    /// a fixed-point unit is first scaled up by `SCALE` (direction
    /// unchanged), so that the rounded length below carries enough digits to
    /// divide by. Longer vectors are used as they are.
    pub open spec fn prescaled_spec(self) -> Vector2D {
        if self.length_spec() < SCALE as int / 2 {
            Vector2D { x: (self.x * SCALE) as i64, y: (self.y * SCALE) as i64 }
        } else {
            self
        }
    }

    /// The same-direction vector rescaled to (nearly) unit length; the zero
    /// vector maps to itself. Short vectors are widened first (see
    /// `prescaled_spec`), so the direction survives for every nonzero input.
    pub open spec fn normalized_spec(self) -> Vector2D {
        if self.x == 0 && self.y == 0 {
            Vector2D { x: 0, y: 0 }
        } else {
            let w = self.prescaled_spec();
            Vector2D {
                x: tdiv(w.x * SCALE, w.length_spec()) as i64,
                y: tdiv(w.y * SCALE, w.length_spec()) as i64,
            }
        }
    }

    /// Dot product of two vectors assumed already unit length: no
    /// normalization, just the componentwise products. This is the noise
    /// kernel's hot path; on non-unit inputs it returns the plain scaled
    /// product sum, with nothing rescaled.
    pub fn dot_fast(&self, vector: &Vector2D) -> (r: i64)
        requires
            self.bounded(),
            vector.bounded(),
        ensures
            r == self.dot_fast_spec(*vector),
    {
        proof {
            let lim: int = COMPONENT_LIMIT as int;
            assert(-lim * lim <= self.x * vector.x <= lim * lim) by (nonlinear_arith)
                requires
                    -lim <= self.x <= lim,
                    -lim <= vector.x <= lim,
            ;
            assert(-lim * lim <= self.y * vector.y <= lim * lim) by (nonlinear_arith)
                requires
                    -lim <= self.y <= lim,
                    -lim <= vector.y <= lim,
            ;
        }
        (self.x * vector.x + self.y * vector.y) / SCALE
    }

    /// Euclidean norm of the vector; zero only for the zero vector.
    pub fn length(&self) -> (r: i64)
        requires
            self.bounded(),
        ensures
            r == self.length_spec(),
            r * r <= self.norm_sq(),
            self.norm_sq() < (r + 1) * (r + 1),
            0 <= r <= 0x1_0000_0000,
            r == 0 <==> (self.x == 0 && self.y == 0),
    {
        proof {
            let lim: int = COMPONENT_LIMIT as int;
            assert(0 <= self.x * self.x <= lim * lim) by (nonlinear_arith)
                requires
                    -lim <= self.x <= lim,
            ;
            assert(0 <= self.y * self.y <= lim * lim) by (nonlinear_arith)
                requires
                    -lim <= self.y <= lim,
            ;
        }
        let sq: u64 = (self.x * self.x + self.y * self.y) as u64;
        let root: u64 = isqrt(sq);
        proof {
            assert(root <= 0x1_0000_0000) by (nonlinear_arith)
                requires
                    root * root <= sq,
                    sq <= 2 * (COMPONENT_LIMIT as int) * (COMPONENT_LIMIT as int),
                    root >= 0,
            ;
            if self.x == 0 && self.y == 0 {
                assert(sq == 0) by (nonlinear_arith)
                    requires
                        sq == self.x * self.x + self.y * self.y,
                        self.x == 0,
                        self.y == 0,
                ;
                assert(root == 0) by (nonlinear_arith)
                    requires
                        root * root <= sq,
                        sq == 0,
                        root >= 0,
                ;
            }
            if root == 0 {
                assert(sq == 0) by (nonlinear_arith)
                    requires
                        (sq as int) < (root + 1) * (root + 1),
                        root == 0,
                        sq >= 0,
                ;
                assert(self.x == 0 && self.y == 0) by (nonlinear_arith)
                    requires
                        self.x * self.x + self.y * self.y == 0,
                ;
            }
        }
        root as i64
    }

    /// A unit vector in the same direction; the zero vector is returned
    /// unchanged rather than divided by its zero length. A nonzero vector
    /// shorter than half a unit is widened by `SCALE` before the division,
    /// so its direction is kept to the same tolerance as any other (see
    /// `lemma_normalized_unit_length`). Each component keeps its sign.
    pub fn normalized(&self) -> (r: Vector2D)
        requires
            self.bounded(),
        ensures
            r == self.normalized_spec(),
            -SCALE <= r.x <= SCALE,
            -SCALE <= r.y <= SCALE,
            self.x >= 0 ==> r.x >= 0,
            self.x <= 0 ==> r.x <= 0,
            self.y >= 0 ==> r.y >= 0,
            self.y <= 0 ==> r.y <= 0,
    {
        let length: i64 = self.length();
        if length == 0 {
            Vector2D { x: 0, y: 0 }
        } else {
            let w: Vector2D = if length < SCALE / 2 {
                proof {
                    lemma_component_le_length(self.x as int, self.y as int, length as int);
                    lemma_component_le_length(self.y as int, self.x as int, length as int);
                }
                Vector2D { x: self.x * SCALE, y: self.y * SCALE }
            } else {
                *self
            };
            proof {
                assert(w == self.prescaled_spec());
                if length < SCALE / 2 {
                    lemma_prescaled_nonzero_long(*self, length as int);
                }
            }
            let wlen: i64 = w.length();
            proof {
                lemma_component_le_length(w.x as int, w.y as int, wlen as int);
                lemma_component_le_length(w.y as int, w.x as int, wlen as int);
                lemma_scaled_quotient_bounded(w.x as int, wlen as int);
                lemma_scaled_quotient_bounded(w.y as int, wlen as int);
                lemma_tdiv_sign(w.x as int * SCALE as int, wlen as int);
                lemma_tdiv_sign(w.y as int * SCALE as int, wlen as int);
            }
            Vector2D { x: (w.x * SCALE) / wlen, y: (w.y * SCALE) / wlen }
        }
    }

    /// Dot product as a cosine similarity: both operands are normalized
    /// first, so the magnitudes of the inputs do not matter beyond
    /// fixed-point rounding; the result stays within a few thousandths of
    /// the cosine band `[-SCALE, SCALE]`.
    pub fn dot(&self, vector: &Vector2D) -> (r: i64)
        requires
            self.bounded(),
            vector.bounded(),
        ensures
            r == self.normalized_spec().dot_fast_spec(vector.normalized_spec()),
            -(SCALE + 5) <= r <= SCALE + 5,
    {
        proof {
            lemma_dot_cosine_bound(*self, *vector);
        }
        let a: Vector2D = self.normalized();
        let b: Vector2D = vector.normalized();
        a.dot_fast(&b)
    }
}

/// A nonzero vector shorter than half a unit, widened by `SCALE`, is
/// well-bounded, still nonzero, and at least a whole unit long.
proof fn lemma_prescaled_nonzero_long(v: Vector2D, len: int)
    requires
        !(v.x == 0 && v.y == 0),
        len == v.length_spec(),
        0 <= len < SCALE as int / 2,
        -(SCALE as int / 2) - 1 <= v.x <= SCALE as int / 2 + 1,
        -(SCALE as int / 2) - 1 <= v.y <= SCALE as int / 2 + 1,
    ensures
        (v.prescaled_spec()).bounded(),
        !(v.prescaled_spec().x == 0 && v.prescaled_spec().y == 0),
        v.prescaled_spec().length_spec() >= SCALE,
{
    let s: int = SCALE as int;
    let w = v.prescaled_spec();
    assert(w.x == v.x * SCALE && w.y == v.y * SCALE);
    assert(-(COMPONENT_LIMIT as int) <= v.x * s <= COMPONENT_LIMIT as int) by (nonlinear_arith)
        requires
            -(s / 2) - 1 <= v.x <= s / 2 + 1,
            s == 1000,
            COMPONENT_LIMIT == 0x4000_0000,
    ;
    assert(-(COMPONENT_LIMIT as int) <= v.y * s <= COMPONENT_LIMIT as int) by (nonlinear_arith)
        requires
            -(s / 2) - 1 <= v.y <= s / 2 + 1,
            s == 1000,
            COMPONENT_LIMIT == 0x4000_0000,
    ;
    assert(!(w.x == 0 && w.y == 0)) by (nonlinear_arith)
        requires
            w.x == v.x * s,
            w.y == v.y * s,
            s >= 1,
            !(v.x == 0 && v.y == 0),
    ;
    let n = v.norm_sq();
    assert(n >= 1) by (nonlinear_arith)
        requires
            n == v.x * v.x + v.y * v.y,
            !(v.x == 0 && v.y == 0),
    ;
    assert(w.norm_sq() == (s * s) * n) by (nonlinear_arith)
        requires
            w.x == v.x * s,
            w.y == v.y * s,
            n == v.x * v.x + v.y * v.y,
    ;
    assert(w.norm_sq() >= s * s) by (nonlinear_arith)
        requires
            w.norm_sq() == (s * s) * n,
            n >= 1,
            s >= 1,
    ;
    lemma_sqrt_floor_bounds(w.norm_sq() as nat);
    let wl = w.length_spec();
    assert(wl >= s) by (nonlinear_arith)
        requires
            w.norm_sq() < (wl + 1) * (wl + 1),
            w.norm_sq() >= s * s,
            wl >= 0,
            s >= 1,
    ;
}

/// Normalization really produces a (fixed-point) unit vector: for every
/// nonzero vector, whatever its magnitude, the length of `normalized()`
/// differs from `SCALE` by at most 3 parts in 1000. (The zero vector maps to
/// the zero vector by definition, with no division.)
pub proof fn lemma_normalized_unit_length(v: Vector2D)
    requires
        v.bounded(),
        !(v.x == 0 && v.y == 0),
    ensures
        SCALE - 3 <= v.normalized_spec().length_spec() <= SCALE + 1,
{
    let s: int = SCALE as int;
    let len = v.length_spec();
    let n = v.norm_sq();
    assert(n >= 1) by (nonlinear_arith)
        requires
            n == v.x * v.x + v.y * v.y,
            !(v.x == 0 && v.y == 0),
    ;
    lemma_sqrt_floor_bounds(n as nat);
    if len >= s / 2 {
        lemma_normalized_unit_core(v);
    } else {
        lemma_component_le_length(v.x as int, v.y as int, len);
        lemma_component_le_length(v.y as int, v.x as int, len);
        lemma_prescaled_nonzero_long(v, len);
        let w = v.prescaled_spec();
        lemma_normalized_unit_core(w);
        assert(w.prescaled_spec() == w);
        assert(v.normalized_spec() == w.normalized_spec());
    }
}

/// Core of the unit-length bound, for vectors already at least half a unit
/// long (prescaling leaves such a vector unchanged).
proof fn lemma_normalized_unit_core(v: Vector2D)
    requires
        v.bounded(),
        v.length_spec() >= SCALE / 2,
    ensures
        SCALE - 3 <= v.normalized_spec().length_spec() <= SCALE + 1,
{
    let s: int = SCALE as int;
    let len = v.length_spec();
    assert(v.prescaled_spec() == v);
    let n = v.norm_sq();
    assert(n >= 0) by (nonlinear_arith)
        requires
            n == v.x * v.x + v.y * v.y,
    ;
    lemma_sqrt_floor_bounds(n as nat);
    assert(len * len <= n < (len + 1) * (len + 1));
    assert(!(v.x == 0 && v.y == 0)) by (nonlinear_arith)
        requires
            n == v.x * v.x + v.y * v.y,
            n >= len * len,
            len >= 500,
    ;
    lemma_component_le_length(v.x as int, v.y as int, len);
    lemma_component_le_length(v.y as int, v.x as int, len);
    lemma_scaled_quotient_bounded(v.x as int, len);
    lemma_scaled_quotient_bounded(v.y as int, len);
    let nx = tdiv(v.x * SCALE, len);
    let ny = tdiv(v.y * SCALE, len);
    let r = v.normalized_spec();
    assert(r.x == nx as i64 && r.y == ny as i64);
    assert(r.x == nx && r.y == ny);
    let ax = vstd::math::abs(v.x as int) as int;
    let ay = vstd::math::abs(v.y as int) as int;
    let bx = vstd::math::abs(nx) as int;
    let by = vstd::math::abs(ny) as int;
    lemma_tdiv_magnitude(v.x * SCALE, len);
    lemma_tdiv_magnitude(v.y * SCALE, len);
    assert(vstd::math::abs(v.x * SCALE) == ax * s) by (nonlinear_arith)
        requires
            ax == vstd::math::abs(v.x as int),
            s == 1000,
    ;
    assert(vstd::math::abs(v.y * SCALE) == ay * s) by (nonlinear_arith)
        requires
            ay == vstd::math::abs(v.y as int),
            s == 1000,
    ;
    // magnitude characterization of the two quotients
    assert(bx * len <= ax * s < (bx + 1) * len);
    assert(by * len <= ay * s < (by + 1) * len);
    // components do not exceed the length, so quotients do not exceed SCALE
    assert(ax <= len && ay <= len);
    assert(bx <= s && by <= s) by (nonlinear_arith)
        requires
            bx * len <= ax * s,
            by * len <= ay * s,
            ax <= len,
            ay <= len,
            len >= 1,
            s >= 1,
            bx >= 0,
            by >= 0,
    ;
    let m = r.norm_sq();
    assert(m == bx * bx + by * by) by (nonlinear_arith)
        requires
            m == r.x * r.x + r.y * r.y,
            bx == vstd::math::abs(r.x as int),
            by == vstd::math::abs(r.y as int),
    ;
    assert(v.x * v.x == ax * ax && v.y * v.y == ay * ay) by (nonlinear_arith)
        requires
            ax == vstd::math::abs(v.x as int),
            ay == vstd::math::abs(v.y as int),
    ;
    // upper bound: m * len^2 <= n * s^2 < ((len+1) * s)^2
    lemma_sum_of_squares_le(bx, by, ax, ay, len, s);
    assert(m * (len * len) <= n * (s * s));
    assert(m <= (s + 2) * (s + 2) - 1) by (nonlinear_arith)
        requires
            m * (len * len) <= n * (s * s),
            n < (len + 1) * (len + 1),
            len >= 500,
            s == 1000,
            m >= 0,
    ;
    // lower bound: len^2 * s^2 <= n * s^2 < ((bx+1)^2 + (by+1)^2) * len^2
    lemma_sum_of_squares_lt(ax, ay, bx + 1, by + 1, s, len);
    assert(n * (s * s) < ((bx + 1) * (bx + 1) + (by + 1) * (by + 1)) * (len * len));
    assert(m > s * s - 4 * s - 2) by (nonlinear_arith)
        requires
            len * len <= n,
            n * (s * s) < ((bx + 1) * (bx + 1) + (by + 1) * (by + 1)) * (len * len),
            m == bx * bx + by * by,
            bx <= s,
            by <= s,
            len >= 1,
            s == 1000,
    ;
    // translate the squared-norm window into a window on the rounded length
    lemma_sqrt_floor_bounds(m as nat);
    let rl = r.length_spec();
    assert(rl * rl <= m < (rl + 1) * (rl + 1));
    assert(s - 3 <= rl <= s + 1) by (nonlinear_arith)
        requires
            rl * rl <= m,
            m < (rl + 1) * (rl + 1),
            s * s - 4 * s - 2 < m <= (s + 2) * (s + 2) - 1,
            rl >= 0,
            s == 1000,
    ;
}

/// The dot product of two vectors is bounded by any common bound on their
/// squared norms: componentwise, `2ab <= a^2 + b^2`.
proof fn lemma_dot_within_norms(ax: int, ay: int, bx: int, by: int, cap: int)
    requires
        ax * ax + ay * ay <= cap,
        bx * bx + by * by <= cap,
    ensures
        -cap <= ax * bx + ay * by <= cap,
{
    assert(2 * (ax * bx) <= ax * ax + bx * bx && -(ax * ax + bx * bx) <= 2 * (ax * bx))
        by (nonlinear_arith);
    assert(2 * (ay * by) <= ay * ay + by * by && -(ay * ay + by * by) <= 2 * (ay * by))
        by (nonlinear_arith);
}

/// The cosine similarity `dot` is honest: whatever the operands' magnitudes,
/// the normalized dot product stays within a few thousandths of the cosine
/// band `[-SCALE, SCALE]`.
pub proof fn lemma_dot_cosine_bound(a: Vector2D, b: Vector2D)
    requires
        a.bounded(),
        b.bounded(),
    ensures
        -(SCALE + 5) <= a.normalized_spec().dot_fast_spec(b.normalized_spec()) <= SCALE + 5,
{
    let s: int = SCALE as int;
    let na = a.normalized_spec();
    let nb = b.normalized_spec();
    let d = na.x * nb.x + na.y * nb.y;
    if (a.x == 0 && a.y == 0) || (b.x == 0 && b.y == 0) {
        assert(na.x == 0 && na.y == 0 || nb.x == 0 && nb.y == 0);
        assert(d == 0) by (nonlinear_arith)
            requires
                d == na.x * nb.x + na.y * nb.y,
                na.x == 0 && na.y == 0 || nb.x == 0 && nb.y == 0,
        ;
        assert(na.dot_fast_spec(nb) == tdiv(0, s));
    } else {
        lemma_normalized_unit_length(a);
        lemma_normalized_unit_length(b);
        lemma_norm_sq_window(na);
        lemma_norm_sq_window(nb);
        let cap: int = (s + 2) * (s + 2) - 1;
        lemma_dot_within_norms(na.x as int, na.y as int, nb.x as int, nb.y as int, cap);
        assert((s + 5) * s >= cap) by (nonlinear_arith)
            requires
                s == 1000,
                cap == (s + 2) * (s + 2) - 1,
        ;
        lemma_tdiv_bound(d, s, s + 5);
    }
}

/// The squared norm of a normalized nonzero vector sits just under
/// `(SCALE + 2)^2`: the squared-norm form of the unit-length bound.
proof fn lemma_norm_sq_window(n: Vector2D)
    requires
        SCALE - 3 <= n.length_spec() <= SCALE + 1,
    ensures
        0 <= n.norm_sq() <= (SCALE as int + 2) * (SCALE as int + 2) - 1,
{
    let s: int = SCALE as int;
    let m = n.norm_sq();
    assert(m >= 0) by (nonlinear_arith)
        requires
            m == n.x * n.x + n.y * n.y,
    ;
    lemma_sqrt_floor_bounds(m as nat);
    let rl = n.length_spec();
    assert(m < (rl + 1) * (rl + 1));
    assert(m <= (s + 2) * (s + 2) - 1) by (nonlinear_arith)
        requires
            m < (rl + 1) * (rl + 1),
            rl <= s + 1,
            rl >= 0,
            m >= 0,
    ;
}

/// Normalization is idempotent within rounding: normalizing an
/// already-normalized nonzero vector moves each component by at most 3
/// thousandths of a unit.
pub proof fn lemma_normalized_idempotent(v: Vector2D)
    requires
        v.bounded(),
        !(v.x == 0 && v.y == 0),
    ensures
        -3 <= v.normalized_spec().normalized_spec().x - v.normalized_spec().x <= 3,
        -3 <= v.normalized_spec().normalized_spec().y - v.normalized_spec().y <= 3,
{
    let s: int = SCALE as int;
    let n1 = v.normalized_spec();
    lemma_normalized_unit_length(v);
    let rl = n1.length_spec();
    let m = n1.norm_sq();
    assert(m >= 0) by (nonlinear_arith)
        requires
            m == n1.x * n1.x + n1.y * n1.y,
    ;
    lemma_sqrt_floor_bounds(m as nat);
    assert(!(n1.x == 0 && n1.y == 0)) by (nonlinear_arith)
        requires
            m == n1.x * n1.x + n1.y * n1.y,
            m >= rl * rl,
            rl >= SCALE as int - 3,
    ;
    lemma_component_le_length(n1.x as int, n1.y as int, rl);
    lemma_component_le_length(n1.y as int, n1.x as int, rl);
    assert(n1.prescaled_spec() == n1);
    let n2 = n1.normalized_spec();
    assert(n2.x == tdiv(n1.x * SCALE, rl) as i64);
    assert(n2.y == tdiv(n1.y * SCALE, rl) as i64);
    lemma_scaled_quotient_bounded(n1.x as int, rl);
    lemma_scaled_quotient_bounded(n1.y as int, rl);
    lemma_rescale_component_close(n1.x as int, rl);
    lemma_rescale_component_close(n1.y as int, rl);
}

/// Dividing `a * SCALE` by a length within 3 of `SCALE` moves `a` by at most
/// 3, whatever its sign.
proof fn lemma_rescale_component_close(a: int, rl: int)
    requires
        -(SCALE as int) - 1 <= a <= SCALE as int + 1,
        SCALE as int - 3 <= rl <= SCALE as int + 1,
    ensures
        -3 <= tdiv(a * SCALE, rl) - a <= 3,
{
    let s: int = SCALE as int;
    if a >= 0 {
        lemma_rescale_component_close_nonneg(a, rl);
    } else {
        lemma_rescale_component_close_nonneg(-a, rl);
        assert(-(a * s) == (-a) * s) by (nonlinear_arith);
        assert(tdiv(a * s, rl) == -tdiv((-a) * s, rl)) by (nonlinear_arith)
            requires
                a < 0,
                s >= 1,
                rl >= 1,
                -(a * s) == (-a) * s,
                tdiv(a * s, rl) == if a * s >= 0 {
                    (a * s) / rl
                } else {
                    -((-(a * s)) / rl)
                },
                tdiv((-a) * s, rl) == ((-a) * s) / rl,
    ;
    }
}

/// The nonnegative case of `lemma_rescale_component_close`.
proof fn lemma_rescale_component_close_nonneg(a: int, rl: int)
    requires
        0 <= a <= SCALE as int + 1,
        SCALE as int - 3 <= rl <= SCALE as int + 1,
    ensures
        -2 <= tdiv(a * SCALE, rl) - a <= 3,
{
    let s: int = SCALE as int;
    assert(a * s >= 0) by (nonlinear_arith)
        requires
            a >= 0,
            s >= 0,
    ;
    lemma_tdiv_magnitude(a * s, rl);
    let q = tdiv(a * s, rl);
    crate::math::lemma_tdiv_sign(a * s, rl);
    assert(vstd::math::abs(a * s) == a * s);
    assert(vstd::math::abs(q) == q);
    assert(q * rl <= a * s);
    assert(a * s < (q + 1) * rl);
    assert(q <= a + 3) by (nonlinear_arith)
        requires
            q * rl <= a * s,
            rl >= s - 3,
            0 <= a <= s + 1,
            q >= 0,
            s == 1000,
    ;
    assert(a <= q + 2) by (nonlinear_arith)
        requires
            a * s < (q + 1) * rl,
            rl <= s + 1,
            0 <= a <= s + 1,
            q >= 0,
            q <= a + 3,
            s == 1000,
    ;
}

/// Componentwise product bounds square and sum to a bound between weighted
/// sums of squares: from `bx * len <= ax * s` per component.
proof fn lemma_sum_of_squares_le(bx: int, by: int, ax: int, ay: int, len: int, s: int)
    requires
        bx >= 0,
        by >= 0,
        ax >= 0,
        ay >= 0,
        len >= 1,
        s >= 1,
        bx * len <= ax * s,
        by * len <= ay * s,
    ensures
        (bx * bx + by * by) * (len * len) <= (ax * ax + ay * ay) * (s * s),
{
    assert((bx * len) * (bx * len) <= (ax * s) * (ax * s)) by (nonlinear_arith)
        requires
            0 <= bx * len <= ax * s,
    ;
    assert((by * len) * (by * len) <= (ay * s) * (ay * s)) by (nonlinear_arith)
        requires
            0 <= by * len <= ay * s,
    ;
    assert((bx * len) * (bx * len) == (bx * bx) * (len * len)) by (nonlinear_arith);
    assert((by * len) * (by * len) == (by * by) * (len * len)) by (nonlinear_arith);
    assert((ax * s) * (ax * s) == (ax * ax) * (s * s)) by (nonlinear_arith);
    assert((ay * s) * (ay * s) == (ay * ay) * (s * s)) by (nonlinear_arith);
    assert((bx * bx + by * by) * (len * len) == (bx * bx) * (len * len) + (by * by) * (len * len))
        by (nonlinear_arith);
    assert((ax * ax + ay * ay) * (s * s) == (ax * ax) * (s * s) + (ay * ay) * (s * s))
        by (nonlinear_arith);
}

/// Strict counterpart: from `ax * s < cx * len` per component, the weighted
/// sums of squares are strictly ordered.
proof fn lemma_sum_of_squares_lt(ax: int, ay: int, cx: int, cy: int, s: int, len: int)
    requires
        ax >= 0,
        ay >= 0,
        cx >= 1,
        cy >= 1,
        len >= 1,
        s >= 1,
        ax * s < cx * len,
        ay * s < cy * len,
    ensures
        (ax * ax + ay * ay) * (s * s) < (cx * cx + cy * cy) * (len * len),
{
    assert((ax * s) * (ax * s) < (cx * len) * (cx * len)) by (nonlinear_arith)
        requires
            0 <= ax * s,
            ax * s < cx * len,
    ;
    assert((ay * s) * (ay * s) < (cy * len) * (cy * len)) by (nonlinear_arith)
        requires
            0 <= ay * s,
            ay * s < cy * len,
    ;
    assert((ax * s) * (ax * s) == (ax * ax) * (s * s)) by (nonlinear_arith);
    assert((ay * s) * (ay * s) == (ay * ay) * (s * s)) by (nonlinear_arith);
    assert((cx * len) * (cx * len) == (cx * cx) * (len * len)) by (nonlinear_arith);
    assert((cy * len) * (cy * len) == (cy * cy) * (len * len)) by (nonlinear_arith);
    assert((ax * ax + ay * ay) * (s * s) == (ax * ax) * (s * s) + (ay * ay) * (s * s))
        by (nonlinear_arith);
    assert((cx * cx + cy * cy) * (len * len) == (cx * cx) * (len * len) + (cy * cy) * (len * len))
        by (nonlinear_arith);
}

/// The fixed-point dot product of two vectors whose components all lie in
/// `[-SCALE, SCALE]` lies in `[-2 * SCALE, 2 * SCALE]`.
pub proof fn lemma_dot_fast_bounded(a: Vector2D, b: Vector2D)
    requires
        -SCALE <= a.x <= SCALE,
        -SCALE <= a.y <= SCALE,
        -SCALE <= b.x <= SCALE,
        -SCALE <= b.y <= SCALE,
    ensures
        -2 * SCALE <= a.dot_fast_spec(b) <= 2 * SCALE,
{
    let s: int = SCALE as int;
    assert(-(s * s) <= a.x * b.x <= s * s) by (nonlinear_arith)
        requires
            -s <= a.x <= s,
            -s <= b.x <= s,
    ;
    assert(-(s * s) <= a.y * b.y <= s * s) by (nonlinear_arith)
        requires
            -s <= a.y <= s,
            -s <= b.y <= s,
    ;
    assert((2 * s) * s == 2 * (s * s)) by (nonlinear_arith);
    crate::math::lemma_tdiv_bound(a.x * b.x + a.y * b.y, s, 2 * s);
}

/// A component is never longer than the whole vector: `x*x <= x*x + y*y`
/// bounds `|x|` by the rounded-down norm `len`.
proof fn lemma_component_le_length(x: int, y: int, len: int)
    requires
        len >= 0,
        x * x + y * y < (len + 1) * (len + 1),
    ensures
        -len <= x <= len,
{
    assert(x * x <= x * x + y * y) by (nonlinear_arith);
    assert(-len <= x <= len) by (nonlinear_arith)
        requires
            x * x < (len + 1) * (len + 1),
            len >= 0,
    ;
}

/// Scaling a component no longer than `len` up by `SCALE` and dividing by
/// `len` lands in `[-SCALE, SCALE]`.
proof fn lemma_scaled_quotient_bounded(x: int, len: int)
    requires
        1 <= len,
        -len <= x <= len,
    ensures
        -SCALE <= tdiv(x * SCALE, len) <= SCALE,
{
    let s: int = SCALE as int;
    if x >= 0 {
        assert(0 <= x * s <= len * s) by (nonlinear_arith)
            requires
                0 <= x <= len,
                s > 0,
        ;
        lemma_div_is_ordered(x * s, len * s, len);
        lemma_div_multiples_vanish(s, len);
        assert(len * s == s * len) by (nonlinear_arith);
    } else {
        assert(0 <= (-x) * s <= len * s) by (nonlinear_arith)
            requires
                0 <= -x <= len,
                s > 0,
        ;
        assert(-(x * s) == (-x) * s) by (nonlinear_arith);
        lemma_div_is_ordered((-x) * s, len * s, len);
        lemma_div_multiples_vanish(s, len);
        assert(len * s == s * len) by (nonlinear_arith);
    }
}

} // verus!
