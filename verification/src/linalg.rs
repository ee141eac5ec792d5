//! 3D vectors and 4x4 homogeneous matrices over fixed-point scalars.
//!
//! A [`Vec3`] holds three coordinates and a [`Mat4x4`] a 4x4 grid of entries,
//! all in the fixed-point representation of [`crate::fixed`]: an `i64` is the
//! real value times [`SCALE`]. Each operation carries its intermediate
//! products at 128 bits and rounds once, toward zero, so every contract below
//! states the exact result. The `*_ok` predicates say when an operation's
//! result fits the 64-bit representation; they are what the machine forces,
//! not a restriction of the mathematics.

use vstd::prelude::*;

verus! {

use crate::fixed::SCALE;
use crate::fixed::abs;
use crate::fixed::fits_i64;
use crate::fixed::fits_i128;
use crate::fixed::isqrt;
use crate::fixed::lemma_abs_mul_le;
use crate::fixed::lemma_sqrt_floor_bounds;
use crate::fixed::lemma_sqrt_floor_is_ordered;
use crate::fixed::lemma_sqrt_floor_unique;
use crate::fixed::lemma_tdiv_abs_le;
use crate::fixed::lemma_tdiv_mul_cancel;
use crate::fixed::sqrt_floor;
use crate::fixed::tdiv;
use vstd::arithmetic::div_mod::lemma_div_is_ordered;
use vstd::arithmetic::div_mod::lemma_div_by_multiple;

/// A vector of three fixed-point coordinates. The homogeneous fourth
/// component is implicit and fixed at one: it never contributes to length or
/// angle, and matrix application adds the translation column once.
#[derive(Clone, Copy, Debug)]
pub struct Vec3 {
    pub data: [i64; 3],
}

/// The mathematical value of a [`Vec3`]: its coordinates as unbounded
/// integers (still in fixed-point units).
pub ghost struct V3 {
    pub x: int,
    pub y: int,
    pub z: int,
}

impl View for Vec3 {
    type V = V3;

    open spec fn view(&self) -> V3 {
        V3 { x: self.data@[0] as int, y: self.data@[1] as int, z: self.data@[2] as int }
    }
}

impl PartialEq for Vec3 {
    fn eq(&self, other: &Self) -> (r: bool) {
        let r = self.data[0] == other.data[0] && self.data[1] == other.data[1] && self.data[2]
            == other.data[2];
        proof {
            if r {
                assert(self@ == other@);
            }
        }
        r
    }
}

impl vstd::std_specs::cmp::PartialEqSpecImpl for Vec3 {
    open spec fn obeys_eq_spec() -> bool {
        true
    }

    open spec fn eq_spec(&self, other: &Self) -> bool {
        self@ == other@
    }
}

/// Component-wise sum.
pub open spec fn v3_add(a: V3, b: V3) -> V3 {
    V3 { x: a.x + b.x, y: a.y + b.y, z: a.z + b.z }
}

/// Component-wise difference.
pub open spec fn v3_sub(a: V3, b: V3) -> V3 {
    V3 { x: a.x - b.x, y: a.y - b.y, z: a.z - b.z }
}

/// Product with a fixed-point scalar, one rounding per component.
pub open spec fn v3_scale(v: V3, k: int) -> V3 {
    V3 {
        x: tdiv(v.x * k, SCALE as int),
        y: tdiv(v.y * k, SCALE as int),
        z: tdiv(v.z * k, SCALE as int),
    }
}

/// Quotient by a fixed-point scalar, one rounding per component.
pub open spec fn v3_div(v: V3, k: int) -> V3 {
    V3 {
        x: tdiv(v.x * (SCALE as int), k),
        y: tdiv(v.y * (SCALE as int), k),
        z: tdiv(v.z * (SCALE as int), k),
    }
}

/// Dot product: the products are summed exactly, then rounded once.
pub open spec fn v3_dot(a: V3, b: V3) -> int {
    tdiv(a.x * b.x + a.y * b.y + a.z * b.z, SCALE as int)
}

/// Cross product, one rounding per component.
pub open spec fn v3_cross(a: V3, b: V3) -> V3 {
    V3 {
        x: tdiv(a.y * b.z - a.z * b.y, SCALE as int),
        y: tdiv(a.z * b.x - a.x * b.z, SCALE as int),
        z: tdiv(a.x * b.y - a.y * b.x, SCALE as int),
    }
}

/// Sum of the squared coordinates, exact (no fixed-point rounding). This is
/// the squared magnitude in units of `SCALE * SCALE`.
pub open spec fn v3_norm_sq(v: V3) -> int {
    v.x * v.x + v.y * v.y + v.z * v.z
}

/// Euclidean norm: because the squared sum is in units of `SCALE * SCALE`,
/// its integer square root is again a fixed-point number.
pub open spec fn v3_mag(v: V3) -> int {
    sqrt_floor(v3_norm_sq(v) as nat) as int
}

/// The unit vector of `v`: `v` divided by its magnitude.
pub open spec fn v3_unit(v: V3) -> V3 {
    v3_div(v, v3_mag(v))
}

/// Every coordinate of `v` is at most `c` in magnitude.
pub open spec fn v3_bounded(v: V3, c: int) -> bool {
    abs(v.x) <= c && abs(v.y) <= c && abs(v.z) <= c
}

/// Every coordinate of `v` fits in an `i64`.
pub open spec fn v3_fits(v: V3) -> bool {
    fits_i64(v.x) && fits_i64(v.y) && fits_i64(v.z)
}

/// The dot product of `a` and `b` is representable: the exact sum of
/// products fits the 128-bit intermediate and the result fits an `i64`.
pub open spec fn v3_dot_ok(a: V3, b: V3) -> bool {
    &&& abs(a.x * b.x) + abs(a.y * b.y) + abs(a.z * b.z) <= i128::MAX
    &&& fits_i64(v3_dot(a, b))
}

/// The cross product of `a` and `b` is representable.
pub open spec fn v3_cross_ok(a: V3, b: V3) -> bool {
    &&& abs(a.y * b.z) + abs(a.z * b.y) <= i128::MAX
    &&& abs(a.z * b.x) + abs(a.x * b.z) <= i128::MAX
    &&& abs(a.x * b.y) + abs(a.y * b.x) <= i128::MAX
    &&& v3_fits(v3_cross(a, b))
}

impl Vec3 {
    /// The Euclidean norm of the first three components; the homogeneous
    /// component, being implicit, never enters. Always nonnegative.
    pub fn get_magnitude(&self) -> (r: i64)
        requires
            v3_mag(self@) <= i64::MAX,
        ensures
            r == v3_mag(self@),
            r >= 0,
    {
        let x = self.data[0] as i128;
        let y = self.data[1] as i128;
        let z = self.data[2] as i128;
        proof {
            assert(x * x <= 0x4000_0000_0000_0000_0000_0000_0000_0000i128
                && y * y <= 0x4000_0000_0000_0000_0000_0000_0000_0000i128
                && z * z <= 0x4000_0000_0000_0000_0000_0000_0000_0000i128
                && x * x >= 0 && y * y >= 0 && z * z >= 0) by (nonlinear_arith)
                requires
                    -0x8000_0000_0000_0000i128 <= x <= 0x7fff_ffff_ffff_ffffi128,
                    -0x8000_0000_0000_0000i128 <= y <= 0x7fff_ffff_ffff_ffffi128,
                    -0x8000_0000_0000_0000i128 <= z <= 0x7fff_ffff_ffff_ffffi128,
            ;
        }
        let sq: u128 = (x * x) as u128 + (y * y) as u128 + (z * z) as u128;
        assert(sq == v3_norm_sq(self@));
        let r = isqrt(sq);
        r as i64
    }

    /// `v / magnitude(v)`. Normalizing the zero vector is the documented
    /// sharp edge of the design: it is excluded here, and callers (the render
    /// engine) must avoid it.
    pub fn get_unit(self) -> (r: Self)
        requires
            v3_mag(self@) <= i64::MAX,
            v3_mag(self@) != 0,
        ensures
            r@ == v3_unit(self@),
            v3_bounded(r@, SCALE as int),
    {
        proof {
            lemma_unit_bounded(self@);
        }
        let m = self.get_magnitude();
        self.div(m)
    }

    /// Dot product over the first three components.
    pub fn dot(&self, v: &Self) -> (r: i64)
        requires
            v3_dot_ok(self@, v@),
        ensures
            r == v3_dot(self@, v@),
    {
        let p: i128 = (self.data[0] as i128) * (v.data[0] as i128) + (self.data[1] as i128) * (
        v.data[1] as i128) + (self.data[2] as i128) * (v.data[2] as i128);
        (p / (SCALE as i128)) as i64
    }

    /// Cross product over the first three components.
    pub fn cross(&self, b: &Self) -> (r: Self)
        requires
            v3_cross_ok(self@, b@),
        ensures
            r@ == v3_cross(self@, b@),
    {
        let ax = self.data[0] as i128;
        let ay = self.data[1] as i128;
        let az = self.data[2] as i128;
        let bx = b.data[0] as i128;
        let by = b.data[1] as i128;
        let bz = b.data[2] as i128;
        let s = SCALE as i128;
        Vec3 {
            data: [
                ((ay * bz - az * by) / s) as i64,
                ((az * bx - ax * bz) / s) as i64,
                ((ax * by - ay * bx) / s) as i64,
            ],
        }
    }

    /// Component-wise sum.
    pub fn add(self, m: Self) -> (r: Self)
        requires
            v3_fits(v3_add(self@, m@)),
        ensures
            r@ == v3_add(self@, m@),
    {
        Vec3 {
            data: [
                self.data[0] + m.data[0],
                self.data[1] + m.data[1],
                self.data[2] + m.data[2],
            ],
        }
    }

    /// Component-wise difference.
    pub fn sub(self, m: Self) -> (r: Self)
        requires
            v3_fits(v3_sub(self@, m@)),
        ensures
            r@ == v3_sub(self@, m@),
    {
        Vec3 {
            data: [
                self.data[0] - m.data[0],
                self.data[1] - m.data[1],
                self.data[2] - m.data[2],
            ],
        }
    }

    /// Product with a fixed-point scalar.
    pub fn scale(self, k: i64) -> (r: Self)
        requires
            v3_fits(v3_scale(self@, k as int)),
        ensures
            r@ == v3_scale(self@, k as int),
    {
        let s = SCALE as i128;
        Vec3 {
            data: [
                (((self.data[0] as i128) * (k as i128)) / s) as i64,
                (((self.data[1] as i128) * (k as i128)) / s) as i64,
                (((self.data[2] as i128) * (k as i128)) / s) as i64,
            ],
        }
    }

    /// Quotient by a fixed-point scalar. Division by zero is excluded, as
    /// the design requires of callers.
    pub fn div(self, k: i64) -> (r: Self)
        requires
            k != 0,
            v3_fits(v3_div(self@, k as int)),
        ensures
            r@ == v3_div(self@, k as int),
    {
        let s = SCALE as i128;
        Vec3 {
            data: [
                (((self.data[0] as i128) * s) / (k as i128)) as i64,
                (((self.data[1] as i128) * s) / (k as i128)) as i64,
                (((self.data[2] as i128) * s) / (k as i128)) as i64,
            ],
        }
    }
}

/// Vector addition is commutative.
pub proof fn lemma_add_commutative(a: V3, b: V3)
    ensures
        v3_add(a, b) == v3_add(b, a),
{
}

/// Vector addition is associative.
pub proof fn lemma_add_associative(a: V3, b: V3, c: V3)
    ensures
        v3_add(v3_add(a, b), c) == v3_add(a, v3_add(b, c)),
{
}

/// The magnitude of a vector is at least the magnitude of each coordinate.
pub proof fn lemma_mag_ge_comp(v: V3)
    ensures
        v3_mag(v) >= abs(v.x),
        v3_mag(v) >= abs(v.y),
        v3_mag(v) >= abs(v.z),
{
    let n = v3_norm_sq(v) as nat;
    assert(v3_norm_sq(v) >= v.x * v.x && v3_norm_sq(v) >= v.y * v.y && v3_norm_sq(v) >= v.z * v.z
        && v.x * v.x >= 0 && v.y * v.y >= 0 && v.z * v.z >= 0) by (nonlinear_arith);
    lemma_sqrt_floor_bounds(n);
    let m = sqrt_floor(n);
    assert forall|c: int| c * c <= n implies abs(c) <= m by {
        if abs(c) > m {
            assert(c * c >= (m + 1) * (m + 1)) by (nonlinear_arith)
                requires
                    abs(c) >= m + 1,
            ;
        }
    }
    assert(v.x * v.x <= n && v.y * v.y <= n && v.z * v.z <= n);
}

/// Bound on the coordinates of a bounded vector's unit vector: they never
/// exceed one unit (`SCALE`).
pub proof fn lemma_unit_bounded(v: V3)
    requires
        v3_mag(v) != 0,
    ensures
        v3_bounded(v3_unit(v), SCALE as int),
        v3_fits(v3_unit(v)),
{
    let m = v3_mag(v);
    lemma_mag_ge_comp(v);
    lemma_unit_comp(v.x, m);
    lemma_unit_comp(v.y, m);
    lemma_unit_comp(v.z, m);
}

/// One coordinate of a unit vector: dividing a coordinate by a magnitude at
/// least as large keeps it within one unit.
proof fn lemma_unit_comp(c: int, m: int)
    requires
        m > 0,
        abs(c) <= m,
    ensures
        abs(tdiv(c * (SCALE as int), m)) <= SCALE as int,
{
    assert(abs(c * (SCALE as int)) == abs(c) * (SCALE as int)) by (nonlinear_arith);
    assert(abs(c) * (SCALE as int) <= m * (SCALE as int)) by (nonlinear_arith)
        requires
            abs(c) <= m,
    ;
    lemma_tdiv_abs_le(c * (SCALE as int), m * (SCALE as int), m);
    lemma_div_by_multiple(SCALE as int, m);
    assert(m * (SCALE as int) == (SCALE as int) * m) by (nonlinear_arith);
}

/// Magnitude of a bounded vector: at most twice the coordinate bound.
pub proof fn lemma_mag_of_bounded(v: V3, c: int)
    requires
        c >= 0,
        v3_bounded(v, c),
    ensures
        0 <= v3_mag(v) <= 2 * c,
{
    let n = v3_norm_sq(v) as nat;
    assert(0 <= v3_norm_sq(v) <= 3 * c * c) by (nonlinear_arith)
        requires
            abs(v.x) <= c && abs(v.y) <= c && abs(v.z) <= c,
    ;
    lemma_sqrt_floor_bounds(n);
    let m = sqrt_floor(n);
    if m > 2 * c {
        assert(m * m >= (2 * c + 1) * (2 * c + 1) && (2 * c + 1) * (2 * c + 1) > 3 * c * c)
            by (nonlinear_arith)
            requires
                m >= 2 * c + 1,
                c >= 0,
        ;
    }
}

/// The difference of two bounded vectors is bounded by the sum of the bounds.
pub proof fn lemma_sub_bounded(a: V3, b: V3, ca: int, cb: int)
    requires
        v3_bounded(a, ca),
        v3_bounded(b, cb),
    ensures
        v3_bounded(v3_sub(a, b), ca + cb),
        ca + cb <= i64::MAX ==> v3_fits(v3_sub(a, b)),
{
}

/// The sum of two bounded vectors is bounded by the sum of the bounds.
pub proof fn lemma_add_bounded(a: V3, b: V3, ca: int, cb: int)
    requires
        v3_bounded(a, ca),
        v3_bounded(b, cb),
    ensures
        v3_bounded(v3_add(a, b), ca + cb),
        ca + cb <= i64::MAX ==> v3_fits(v3_add(a, b)),
{
}

/// A cross product of bounded vectors is representable and bounded.
pub proof fn lemma_cross_ok(a: V3, b: V3, ca: int, cb: int)
    requires
        ca >= 0,
        cb >= 0,
        v3_bounded(a, ca),
        v3_bounded(b, cb),
        2 * (ca * cb) <= i64::MAX * (SCALE as int),
    ensures
        v3_cross_ok(a, b),
        v3_bounded(v3_cross(a, b), (2 * (ca * cb)) / (SCALE as int)),
{
    let cc = ca * cb;
    assert(ca * cb >= 0) by (nonlinear_arith)
        requires
            ca >= 0 && cb >= 0,
    ;
    lemma_abs_mul_le(a.y, b.z, ca, cb);
    lemma_abs_mul_le(a.z, b.y, ca, cb);
    lemma_abs_mul_le(a.z, b.x, ca, cb);
    lemma_abs_mul_le(a.x, b.z, ca, cb);
    lemma_abs_mul_le(a.x, b.y, ca, cb);
    lemma_abs_mul_le(a.y, b.x, ca, cb);
    lemma_tdiv_abs_le(a.y * b.z - a.z * b.y, 2 * cc, SCALE as int);
    lemma_tdiv_abs_le(a.z * b.x - a.x * b.z, 2 * cc, SCALE as int);
    lemma_tdiv_abs_le(a.x * b.y - a.y * b.x, 2 * cc, SCALE as int);
    lemma_div_is_ordered(2 * cc, i64::MAX * (SCALE as int), SCALE as int);
    lemma_div_by_multiple(i64::MAX as int, SCALE as int);
}

/// A dot product of bounded vectors is representable and bounded.
pub proof fn lemma_dot_ok(a: V3, b: V3, ca: int, cb: int)
    requires
        ca >= 0,
        cb >= 0,
        v3_bounded(a, ca),
        v3_bounded(b, cb),
        3 * ca * cb <= i64::MAX,
    ensures
        v3_dot_ok(a, b),
        abs(v3_dot(a, b)) <= 3 * ca * cb,
{
    let cc = ca * cb;
    assert(ca * cb >= 0) by (nonlinear_arith)
        requires
            ca >= 0 && cb >= 0,
    ;
    assert(3 * ca * cb == 3 * (ca * cb)) by (nonlinear_arith);
    lemma_abs_mul_le(a.x, b.x, ca, cb);
    lemma_abs_mul_le(a.y, b.y, ca, cb);
    lemma_abs_mul_le(a.z, b.z, ca, cb);
    lemma_tdiv_abs_le(a.x * b.x + a.y * b.y + a.z * b.z, 3 * cc, SCALE as int);
    lemma_div_is_ordered(3 * cc, 3 * cc * (SCALE as int), SCALE as int);
    assert(3 * cc <= 3 * cc * (SCALE as int)) by (nonlinear_arith)
        requires
            cc >= 0,
    ;
    lemma_div_by_multiple(3 * cc, SCALE as int);
    assert((3 * cc) * (SCALE as int) == 3 * cc * (SCALE as int)) by (nonlinear_arith);
}

/// Scaling a bounded vector by a bounded scalar is representable and bounded.
pub proof fn lemma_scale_ok(v: V3, k: int, cv: int, ck: int)
    requires
        cv >= 0,
        ck >= 0,
        v3_bounded(v, cv),
        abs(k) <= ck,
        cv * ck <= i64::MAX * (SCALE as int),
    ensures
        v3_fits(v3_scale(v, k)),
        v3_bounded(v3_scale(v, k), (cv * ck) / (SCALE as int)),
{
    let cc = cv * ck;
    assert(cv * ck >= 0) by (nonlinear_arith)
        requires
            cv >= 0 && ck >= 0,
    ;
    lemma_abs_mul_le(v.x, k, cv, ck);
    lemma_abs_mul_le(v.y, k, cv, ck);
    lemma_abs_mul_le(v.z, k, cv, ck);
    lemma_tdiv_abs_le(v.x * k, cc, SCALE as int);
    lemma_tdiv_abs_le(v.y * k, cc, SCALE as int);
    lemma_tdiv_abs_le(v.z * k, cc, SCALE as int);
    lemma_div_is_ordered(cc, i64::MAX * (SCALE as int), SCALE as int);
    lemma_div_by_multiple(i64::MAX as int, SCALE as int);
}


/// A 4x4 grid of fixed-point entries: an affine transform in homogeneous
/// coordinates.
#[derive(Clone, Copy, Debug)]
pub struct Mat4x4 {
    pub data: [[i64; 4]; 4],
}

impl View for Mat4x4 {
    type V = Seq<Seq<int>>;

    open spec fn view(&self) -> Seq<Seq<int>> {
        Seq::new(4, |i: int| Seq::new(4, |j: int| (self.data@[i])@[j] as int))
    }
}

/// Every entry of `m` is at most `c` in magnitude.
pub open spec fn mat_bounded(m: Seq<Seq<int>>, c: int) -> bool {
    forall|i: int, j: int| 0 <= i < 4 && 0 <= j < 4 ==> abs(#[trigger] m[i][j]) <= c
}

/// `m` has four rows of four entries.
pub open spec fn mat_wf(m: Seq<Seq<int>>) -> bool {
    m.len() == 4 && (forall|i: int| 0 <= i < 4 ==> (#[trigger] m[i]).len() == 4)
}

/// The identity transform: one on the diagonal, zero elsewhere.
pub open spec fn m_identity() -> Seq<Seq<int>> {
    Seq::new(4, |i: int| Seq::new(4, |j: int| if i == j { SCALE as int } else { 0 }))
}

/// Entry `(i, j)` of the matrix product: the four products summed exactly,
/// then rounded once.
pub open spec fn mm_ent(a: Seq<Seq<int>>, b: Seq<Seq<int>>, i: int, j: int) -> int {
    tdiv(a[i][0] * b[0][j] + a[i][1] * b[1][j] + a[i][2] * b[2][j] + a[i][3] * b[3][j], SCALE as int)
}

/// Matrix product.
pub open spec fn mm_mul(a: Seq<Seq<int>>, b: Seq<Seq<int>>) -> Seq<Seq<int>> {
    Seq::new(4, |i: int| Seq::new(4, |j: int| mm_ent(a, b, i, j)))
}

/// Entry `(i, j)` of the product is representable.
pub open spec fn mm_ent_ok(a: Seq<Seq<int>>, b: Seq<Seq<int>>, i: int, j: int) -> bool {
    &&& abs(a[i][0] * b[0][j]) + abs(a[i][1] * b[1][j]) + abs(a[i][2] * b[2][j]) + abs(
        a[i][3] * b[3][j],
    ) <= i128::MAX
    &&& fits_i64(mm_ent(a, b, i, j))
}

/// The whole matrix product is representable.
pub open spec fn mm_ok(a: Seq<Seq<int>>, b: Seq<Seq<int>>) -> bool {
    forall|i: int, j: int| 0 <= i < 4 && 0 <= j < 4 ==> #[trigger] mm_ent_ok(a, b, i, j)
}

/// Row `i` of a matrix applied to a point: the three coordinate products
/// plus the translation column (the implicit homogeneous component is one,
/// so the translation entry contributes once), summed exactly and rounded
/// once.
pub open spec fn mv_ent(m: Seq<Seq<int>>, v: V3, i: int) -> int {
    tdiv(m[i][0] * v.x + m[i][1] * v.y + m[i][2] * v.z + m[i][3] * (SCALE as int), SCALE as int)
}

/// A matrix applied to a point in the homogeneous-point convention.
pub open spec fn mv_mul(m: Seq<Seq<int>>, v: V3) -> V3 {
    V3 { x: mv_ent(m, v, 0), y: mv_ent(m, v, 1), z: mv_ent(m, v, 2) }
}

/// Row `i` of the matrix-point application is representable.
pub open spec fn mv_ent_ok(m: Seq<Seq<int>>, v: V3, i: int) -> bool {
    &&& abs(m[i][0] * v.x) + abs(m[i][1] * v.y) + abs(m[i][2] * v.z) + abs(
        m[i][3] * (SCALE as int),
    ) <= i128::MAX
    &&& fits_i64(mv_ent(m, v, i))
}

/// The whole matrix-point application is representable.
pub open spec fn mv_ok(m: Seq<Seq<int>>, v: V3) -> bool {
    mv_ent_ok(m, v, 0) && mv_ent_ok(m, v, 1) && mv_ent_ok(m, v, 2)
}

/// Entry `(i, j)` of the component-wise sum is representable.
pub open spec fn madd_ok(a: Seq<Seq<int>>, b: Seq<Seq<int>>) -> bool {
    forall|i: int, j: int| 0 <= i < 4 && 0 <= j < 4 ==> fits_i64(#[trigger] (a[i][j] + b[i][j]))
}

/// Component-wise sum of two matrices.
pub open spec fn mm_add(a: Seq<Seq<int>>, b: Seq<Seq<int>>) -> Seq<Seq<int>> {
    Seq::new(4, |i: int| Seq::new(4, |j: int| a[i][j] + b[i][j]))
}

/// Component-wise scalar product of a matrix.
pub open spec fn mm_scale(m: Seq<Seq<int>>, k: int) -> Seq<Seq<int>> {
    Seq::new(4, |i: int| Seq::new(4, |j: int| tdiv(m[i][j] * k, SCALE as int)))
}

/// Component-wise scalar quotient of a matrix.
pub open spec fn mm_div(m: Seq<Seq<int>>, k: int) -> Seq<Seq<int>> {
    Seq::new(4, |i: int| Seq::new(4, |j: int| tdiv(m[i][j] * (SCALE as int), k)))
}

impl PartialEq for Mat4x4 {
    fn eq(&self, other: &Self) -> (r: bool) {
        let r = self.data[0][0] == other.data[0][0] && self.data[0][1] == other.data[0][1]
            && self.data[0][2] == other.data[0][2] && self.data[0][3] == other.data[0][3]
            && self.data[1][0] == other.data[1][0] && self.data[1][1] == other.data[1][1]
            && self.data[1][2] == other.data[1][2] && self.data[1][3] == other.data[1][3]
            && self.data[2][0] == other.data[2][0] && self.data[2][1] == other.data[2][1]
            && self.data[2][2] == other.data[2][2] && self.data[2][3] == other.data[2][3]
            && self.data[3][0] == other.data[3][0] && self.data[3][1] == other.data[3][1]
            && self.data[3][2] == other.data[3][2] && self.data[3][3] == other.data[3][3];
        proof {
            if r {
                assert(self@ =~~= other@);
            } else {
                if self@ == other@ {
                    assert(self@[0][0] == other@[0][0] && self@[0][1] == other@[0][1] && self@[0][2]
                        == other@[0][2] && self@[0][3] == other@[0][3] && self@[1][0]
                        == other@[1][0] && self@[1][1] == other@[1][1] && self@[1][2]
                        == other@[1][2] && self@[1][3] == other@[1][3] && self@[2][0]
                        == other@[2][0] && self@[2][1] == other@[2][1] && self@[2][2]
                        == other@[2][2] && self@[2][3] == other@[2][3] && self@[3][0]
                        == other@[3][0] && self@[3][1] == other@[3][1] && self@[3][2]
                        == other@[3][2] && self@[3][3] == other@[3][3]);
                }
            }
        }
        r
    }
}

impl vstd::std_specs::cmp::PartialEqSpecImpl for Mat4x4 {
    open spec fn obeys_eq_spec() -> bool {
        true
    }

    open spec fn eq_spec(&self, other: &Self) -> bool {
        self@ == other@
    }
}

/// Entry `(i, j)` of the matrix product of `a` and `b`.
fn mat_ent_mul(a: &Mat4x4, b: &Mat4x4, i: usize, j: usize) -> (e: i64)
    requires
        i < 4,
        j < 4,
        mm_ent_ok(a@, b@, i as int, j as int),
    ensures
        e == mm_ent(a@, b@, i as int, j as int),
{
    let p: i128 = (a.data[i][0] as i128) * (b.data[0][j] as i128) + (a.data[i][1] as i128) * (
    b.data[1][j] as i128) + (a.data[i][2] as i128) * (b.data[2][j] as i128) + (
    a.data[i][3] as i128) * (b.data[3][j] as i128);
    (p / (SCALE as i128)) as i64
}

impl Mat4x4 {
    /// The multiplicative identity for both the matrix-matrix and the
    /// matrix-point product.
    pub fn identity() -> (r: Self)
        ensures
            r@ == m_identity(),
            mat_bounded(r@, SCALE as int),
    {
        let r = Mat4x4 {
            data: [
                [SCALE, 0, 0, 0],
                [0, SCALE, 0, 0],
                [0, 0, SCALE, 0],
                [0, 0, 0, SCALE],
            ],
        };
        proof {
            assert(r@ =~~= m_identity());
        }
        r
    }

    /// Component-wise sum.
    pub fn add(self, m: Self) -> (r: Self)
        requires
            madd_ok(self@, m@),
        ensures
            r@ == mm_add(self@, m@),
    {
        let mut out = Mat4x4 { data: [[0, 0, 0, 0], [0, 0, 0, 0], [0, 0, 0, 0], [0, 0, 0, 0]] };
        let mut i: usize = 0;
        while i < 4
            invariant
                i <= 4,
                madd_ok(self@, m@),
                forall|r: int, c: int|
                    0 <= r < i && 0 <= c < 4 ==> #[trigger] (out.data@[r])@[c] == self@[r][c]
                        + m@[r][c],
            decreases 4 - i,
        {
            let mut j: usize = 0;
            while j < 4
                invariant
                    i < 4,
                    j <= 4,
                    madd_ok(self@, m@),
                    forall|r: int, c: int|
                        0 <= r < i && 0 <= c < 4 ==> #[trigger] (out.data@[r])@[c] == self@[r][c]
                            + m@[r][c],
                    forall|c: int|
                        0 <= c < j ==> #[trigger] (out.data@[i as int])@[c] == self@[i as int][c]
                            + m@[i as int][c],
                decreases 4 - j,
            {
                proof {
                    assert(fits_i64(self@[i as int][j as int] + m@[i as int][j as int]));
                }
                out.data[i][j] = self.data[i][j] + m.data[i][j];
                j += 1;
            }
            i += 1;
        }
        proof {
            assert(out@ =~~= mm_add(self@, m@));
        }
        out
    }

    /// Matrix product; composition applies the right factor first.
    pub fn mul(self, m: Self) -> (r: Self)
        requires
            mm_ok(self@, m@),
        ensures
            r@ == mm_mul(self@, m@),
    {
        let mut out = Mat4x4 { data: [[0, 0, 0, 0], [0, 0, 0, 0], [0, 0, 0, 0], [0, 0, 0, 0]] };
        let mut i: usize = 0;
        while i < 4
            invariant
                i <= 4,
                mm_ok(self@, m@),
                forall|r: int, c: int|
                    0 <= r < i && 0 <= c < 4 ==> #[trigger] (out.data@[r])@[c] == mm_ent(
                        self@,
                        m@,
                        r,
                        c,
                    ),
            decreases 4 - i,
        {
            let mut j: usize = 0;
            while j < 4
                invariant
                    i < 4,
                    j <= 4,
                    mm_ok(self@, m@),
                    forall|r: int, c: int|
                        0 <= r < i && 0 <= c < 4 ==> #[trigger] (out.data@[r])@[c] == mm_ent(
                            self@,
                            m@,
                            r,
                            c,
                        ),
                    forall|c: int|
                        0 <= c < j ==> #[trigger] (out.data@[i as int])@[c] == mm_ent(
                            self@,
                            m@,
                            i as int,
                            c,
                        ),
                decreases 4 - j,
            {
                out.data[i][j] = mat_ent_mul(&self, &m, i, j);
                j += 1;
            }
            i += 1;
        }
        proof {
            assert(out@ =~~= mm_mul(self@, m@));
        }
        out
    }

    /// Apply the transform to a point (implicit homogeneous component one:
    /// the translation column is added once).
    pub fn mul_vec(self, v: Vec3) -> (r: Vec3)
        requires
            mv_ok(self@, v@),
        ensures
            r@ == mv_mul(self@, v@),
    {
        let s = SCALE as i128;
        let x = v.data[0] as i128;
        let y = v.data[1] as i128;
        let z = v.data[2] as i128;
        let r0: i128 = (self.data[0][0] as i128) * x + (self.data[0][1] as i128) * y + (
        self.data[0][2] as i128) * z + (self.data[0][3] as i128) * s;
        let r1: i128 = (self.data[1][0] as i128) * x + (self.data[1][1] as i128) * y + (
        self.data[1][2] as i128) * z + (self.data[1][3] as i128) * s;
        let r2: i128 = (self.data[2][0] as i128) * x + (self.data[2][1] as i128) * y + (
        self.data[2][2] as i128) * z + (self.data[2][3] as i128) * s;
        Vec3 { data: [(r0 / s) as i64, (r1 / s) as i64, (r2 / s) as i64] }
    }

    /// Component-wise product with a fixed-point scalar.
    pub fn scale(self, k: i64) -> (r: Self)
        requires
            forall|i: int, j: int|
                0 <= i < 4 && 0 <= j < 4 ==> fits_i64(tdiv(#[trigger] self@[i][j] * k, SCALE as int)),
        ensures
            r@ == mm_scale(self@, k as int),
    {
        let mut out = Mat4x4 { data: [[0, 0, 0, 0], [0, 0, 0, 0], [0, 0, 0, 0], [0, 0, 0, 0]] };
        let mut i: usize = 0;
        while i < 4
            invariant
                i <= 4,
                forall|r: int, c: int|
                    0 <= r < 4 && 0 <= c < 4 ==> fits_i64(
                        tdiv(#[trigger] self@[r][c] * k, SCALE as int),
                    ),
                forall|r: int, c: int|
                    0 <= r < i && 0 <= c < 4 ==> #[trigger] (out.data@[r])@[c] == tdiv(
                        self@[r][c] * k,
                        SCALE as int,
                    ),
            decreases 4 - i,
        {
            let mut j: usize = 0;
            while j < 4
                invariant
                    i < 4,
                    j <= 4,
                    forall|r: int, c: int|
                        0 <= r < 4 && 0 <= c < 4 ==> fits_i64(
                            tdiv(#[trigger] self@[r][c] * k, SCALE as int),
                        ),
                    forall|r: int, c: int|
                        0 <= r < i && 0 <= c < 4 ==> #[trigger] (out.data@[r])@[c] == tdiv(
                            self@[r][c] * k,
                            SCALE as int,
                        ),
                    forall|c: int|
                        0 <= c < j ==> #[trigger] (out.data@[i as int])@[c] == tdiv(
                            self@[i as int][c] * k,
                            SCALE as int,
                        ),
                decreases 4 - j,
            {
                proof {
                    let e = self@[i as int][j as int];
                    assert(fits_i64(tdiv(e * (k as int), SCALE as int)));
                    assert(fits_i128(e * (k as int))) by (nonlinear_arith)
                        requires
                            -0x8000_0000_0000_0000 <= e <= 0x7fff_ffff_ffff_ffff,
                            -0x8000_0000_0000_0000 <= k <= 0x7fff_ffff_ffff_ffff,
                    ;
                }
                out.data[i][j] = (((self.data[i][j] as i128) * (k as i128)) / (
                SCALE as i128)) as i64;
                j += 1;
            }
            i += 1;
        }
        proof {
            assert(out@ =~~= mm_scale(self@, k as int));
        }
        out
    }

    /// Component-wise quotient by a fixed-point scalar; zero is excluded.
    pub fn div(self, k: i64) -> (r: Self)
        requires
            k != 0,
            forall|i: int, j: int|
                0 <= i < 4 && 0 <= j < 4 ==> fits_i64(
                    tdiv(#[trigger] self@[i][j] * (SCALE as int), k as int),
                ),
        ensures
            r@ == mm_div(self@, k as int),
    {
        let mut out = Mat4x4 { data: [[0, 0, 0, 0], [0, 0, 0, 0], [0, 0, 0, 0], [0, 0, 0, 0]] };
        let mut i: usize = 0;
        while i < 4
            invariant
                i <= 4,
                k != 0,
                forall|r: int, c: int|
                    0 <= r < 4 && 0 <= c < 4 ==> fits_i64(
                        tdiv(#[trigger] self@[r][c] * (SCALE as int), k as int),
                    ),
                forall|r: int, c: int|
                    0 <= r < i && 0 <= c < 4 ==> #[trigger] (out.data@[r])@[c] == tdiv(
                        self@[r][c] * (SCALE as int),
                        k as int,
                    ),
            decreases 4 - i,
        {
            let mut j: usize = 0;
            while j < 4
                invariant
                    i < 4,
                    j <= 4,
                    k != 0,
                    forall|r: int, c: int|
                        0 <= r < 4 && 0 <= c < 4 ==> fits_i64(
                            tdiv(#[trigger] self@[r][c] * (SCALE as int), k as int),
                        ),
                    forall|r: int, c: int|
                        0 <= r < i && 0 <= c < 4 ==> #[trigger] (out.data@[r])@[c] == tdiv(
                            self@[r][c] * (SCALE as int),
                            k as int,
                        ),
                    forall|c: int|
                        0 <= c < j ==> #[trigger] (out.data@[i as int])@[c] == tdiv(
                            self@[i as int][c] * (SCALE as int),
                            k as int,
                        ),
                decreases 4 - j,
            {
                proof {
                    let e = self@[i as int][j as int];
                    assert(fits_i64(tdiv(e * (SCALE as int), k as int)));
                    assert(fits_i128(e * (SCALE as int))) by (nonlinear_arith)
                        requires
                            -0x8000_0000_0000_0000 <= e <= 0x7fff_ffff_ffff_ffff,
                    ;
                }
                out.data[i][j] = (((self.data[i][j] as i128) * (SCALE as i128)) / (
                k as i128)) as i64;
                j += 1;
            }
            i += 1;
        }
        proof {
            assert(out@ =~~= mm_div(self@, k as int));
        }
        out
    }
}


/// Tolerance of the containment test, in fixed-point units: the nearest
/// representation of one tenth of a unit.
pub const EPSILON: i64 = 6554;

/// Right-handed rotation about the x axis, from the sine and cosine of the
/// angle (fixed-point values in `[-SCALE, SCALE]`).
pub open spec fn rotx_view(s: int, c: int) -> Seq<Seq<int>> {
    seq![
        seq![SCALE as int, 0, 0, 0],
        seq![0, c, -s, 0],
        seq![0, s, c, 0],
        seq![0, 0, 0, SCALE as int],
    ]
}

/// Right-handed rotation about the y axis.
pub open spec fn roty_view(s: int, c: int) -> Seq<Seq<int>> {
    seq![
        seq![c, 0, s, 0],
        seq![0, SCALE as int, 0, 0],
        seq![-s, 0, c, 0],
        seq![0, 0, 0, SCALE as int],
    ]
}

/// Right-handed rotation about the z axis.
pub open spec fn rotz_view(s: int, c: int) -> Seq<Seq<int>> {
    seq![
        seq![c, -s, 0, 0],
        seq![s, c, 0, 0],
        seq![0, 0, SCALE as int, 0],
        seq![0, 0, 0, SCALE as int],
    ]
}

/// Rotation about the x axis by the angle whose sine and cosine are given.
/// The trigonometric evaluation itself is the caller's: this crate's
/// arithmetic is exact and takes the two fixed-point values as inputs.
pub fn get_rotx(sin_t: i64, cos_t: i64) -> (r: Mat4x4)
    requires
        -SCALE <= sin_t <= SCALE,
        -SCALE <= cos_t <= SCALE,
    ensures
        r@ == rotx_view(sin_t as int, cos_t as int),
        mat_bounded(r@, SCALE as int),
{
    let r = Mat4x4 {
        data: [
            [SCALE, 0, 0, 0],
            [0, cos_t, -sin_t, 0],
            [0, sin_t, cos_t, 0],
            [0, 0, 0, SCALE],
        ],
    };
    proof {
        assert(r@ =~~= rotx_view(sin_t as int, cos_t as int));
    }
    r
}

/// Rotation about the y axis by the angle whose sine and cosine are given.
pub fn get_roty(sin_t: i64, cos_t: i64) -> (r: Mat4x4)
    requires
        -SCALE <= sin_t <= SCALE,
        -SCALE <= cos_t <= SCALE,
    ensures
        r@ == roty_view(sin_t as int, cos_t as int),
        mat_bounded(r@, SCALE as int),
{
    let r = Mat4x4 {
        data: [
            [cos_t, 0, sin_t, 0],
            [0, SCALE, 0, 0],
            [-sin_t, 0, cos_t, 0],
            [0, 0, 0, SCALE],
        ],
    };
    proof {
        assert(r@ =~~= roty_view(sin_t as int, cos_t as int));
    }
    r
}

/// Rotation about the z axis by the angle whose sine and cosine are given.
pub fn get_rotz(sin_t: i64, cos_t: i64) -> (r: Mat4x4)
    requires
        -SCALE <= sin_t <= SCALE,
        -SCALE <= cos_t <= SCALE,
    ensures
        r@ == rotz_view(sin_t as int, cos_t as int),
        mat_bounded(r@, SCALE as int),
{
    let r = Mat4x4 {
        data: [
            [cos_t, -sin_t, 0, 0],
            [sin_t, cos_t, 0, 0],
            [0, 0, SCALE, 0],
            [0, 0, 0, SCALE],
        ],
    };
    proof {
        assert(r@ =~~= rotz_view(sin_t as int, cos_t as int));
    }
    r
}

/// The three corner normals of the containment test: cross products of the
/// vectors from the candidate point to consecutive triangle corners.
pub open spec fn corner_normals(p0: V3, p1: V3, p2: V3, p: V3) -> (V3, V3, V3) {
    (
        v3_cross(v3_sub(p0, p), v3_sub(p1, p)),
        v3_cross(v3_sub(p1, p), v3_sub(p2, p)),
        v3_cross(v3_sub(p2, p), v3_sub(p0, p)),
    )
}

/// The containment test's answer: a degenerate corner normal counts as
/// inside (the permissive edge policy); otherwise the unit normals must
/// agree pairwise within the tolerance.
pub open spec fn check_inside_spec(p0: V3, p1: V3, p2: V3, p: V3) -> bool {
    let (n1, n2, n3) = corner_normals(p0, p1, p2, p);
    if v3_mag(n1) <= 0 || v3_mag(n2) <= 0 || v3_mag(n3) <= 0 {
        true
    } else {
        v3_dot(v3_unit(n1), v3_unit(n2)) > SCALE - EPSILON && v3_dot(v3_unit(n2), v3_unit(n3))
            > SCALE - EPSILON
    }
}

/// The containment test is representable on these corners and point.
pub open spec fn check_inside_ok(p0: V3, p1: V3, p2: V3, p: V3) -> bool {
    let a = v3_sub(p0, p);
    let b = v3_sub(p1, p);
    let c = v3_sub(p2, p);
    &&& v3_fits(a)
    &&& v3_fits(b)
    &&& v3_fits(c)
    &&& v3_cross_ok(a, b)
    &&& v3_cross_ok(b, c)
    &&& v3_cross_ok(c, a)
    &&& v3_mag(v3_cross(a, b)) <= i64::MAX
    &&& v3_mag(v3_cross(b, c)) <= i64::MAX
    &&& v3_mag(v3_cross(c, a)) <= i64::MAX
}

/// Whether `point` lies inside the triangle `(p0, p1, p2)`: the hit test of
/// the ray marcher, in 3D. From each corner vector pair a normal is taken;
/// a zero normal (point on an edge or corner, or a degenerate triangle)
/// counts as inside, and otherwise the three unit normals must agree
/// pairwise within the tolerance [`EPSILON`]. An approximate same-winding
/// test with a deliberately wide tolerance, not an exact barycentric test.
pub fn check_inside(p0: &Vec3, p1: &Vec3, p2: &Vec3, point: &Vec3) -> (r: bool)
    requires
        check_inside_ok(p0@, p1@, p2@, point@),
    ensures
        r == check_inside_spec(p0@, p1@, p2@, point@),
{
    let n1 = (*p0).sub(*point).cross(&(*p1).sub(*point));
    let n2 = (*p1).sub(*point).cross(&(*p2).sub(*point));
    let n3 = (*p2).sub(*point).cross(&(*p0).sub(*point));
    let m1 = n1.get_magnitude();
    let m2 = n2.get_magnitude();
    let m3 = n3.get_magnitude();
    if m1 <= 0 || m2 <= 0 || m3 <= 0 {
        return true;
    }
    let u1 = n1.get_unit();
    let u2 = n2.get_unit();
    let u3 = n3.get_unit();
    proof {
        lemma_dot_ok(u1@, u2@, SCALE as int, SCALE as int);
        lemma_dot_ok(u2@, u3@, SCALE as int, SCALE as int);
    }
    u1.dot(&u2) > SCALE - EPSILON && u2.dot(&u3) > SCALE - EPSILON
}

/// The identity transform is the identity of the matrix-point product:
/// applying [`m_identity`] to any point returns the point.
pub proof fn lemma_identity_vec(v: V3)
    ensures
        mv_mul(m_identity(), v) == v,
{
    lemma_tdiv_mul_cancel(v.x, SCALE as int);
    lemma_tdiv_mul_cancel(v.y, SCALE as int);
    lemma_tdiv_mul_cancel(v.z, SCALE as int);
    assert((SCALE as int) * v.x == v.x * (SCALE as int)) by (nonlinear_arith);
    assert((SCALE as int) * v.y == v.y * (SCALE as int)) by (nonlinear_arith);
    assert((SCALE as int) * v.z == v.z * (SCALE as int)) by (nonlinear_arith);
}

/// The identity transform is the left identity of the matrix product:
/// multiplying any 4x4 matrix by [`m_identity`] returns the matrix.
pub proof fn lemma_identity_mat(m: Seq<Seq<int>>)
    requires
        mat_wf(m),
    ensures
        mm_mul(m_identity(), m) == m,
{
    assert forall|i: int, j: int| 0 <= i < 4 && 0 <= j < 4 implies mm_ent(m_identity(), m, i, j)
        == m[i][j] by {
        lemma_tdiv_mul_cancel(m[i][j], SCALE as int);
        assert((SCALE as int) * m[i][j] == m[i][j] * (SCALE as int)) by (nonlinear_arith);
    }
    assert(mm_mul(m_identity(), m) =~~= m);
}

/// The matrix product of bounded matrices is representable, and bounded by
/// four times the product of the bounds, scaled back down.
pub proof fn lemma_mm_mul_bounded(a: Seq<Seq<int>>, b: Seq<Seq<int>>, ca: int, cb: int)
    requires
        ca >= 0,
        cb >= 0,
        mat_bounded(a, ca),
        mat_bounded(b, cb),
        4 * (ca * cb) <= i64::MAX * (SCALE as int),
    ensures
        mm_ok(a, b),
        mat_bounded(mm_mul(a, b), (4 * (ca * cb)) / (SCALE as int)),
{
    let cc = ca * cb;
    assert(ca * cb >= 0) by (nonlinear_arith)
        requires
            ca >= 0 && cb >= 0,
    ;
    assert forall|i: int, j: int| 0 <= i < 4 && 0 <= j < 4 implies #[trigger] mm_ent_ok(a, b, i, j)
        && abs(mm_ent(a, b, i, j)) <= (4 * cc) / (SCALE as int) by {
        lemma_abs_mul_le(a[i][0], b[0][j], ca, cb);
        lemma_abs_mul_le(a[i][1], b[1][j], ca, cb);
        lemma_abs_mul_le(a[i][2], b[2][j], ca, cb);
        lemma_abs_mul_le(a[i][3], b[3][j], ca, cb);
        lemma_tdiv_abs_le(
            a[i][0] * b[0][j] + a[i][1] * b[1][j] + a[i][2] * b[2][j] + a[i][3] * b[3][j],
            4 * cc,
            SCALE as int,
        );
        lemma_div_is_ordered(4 * cc, i64::MAX * (SCALE as int), SCALE as int);
        lemma_div_by_multiple(i64::MAX as int, SCALE as int);
    }
    assert forall|i: int, j: int| 0 <= i < 4 && 0 <= j < 4 implies abs(
        #[trigger] mm_mul(a, b)[i][j],
    ) <= (4 * cc) / (SCALE as int) by {
        assert(mm_ent_ok(a, b, i, j));
        assert(mm_mul(a, b)[i][j] == mm_ent(a, b, i, j));
    }
}

/// A bounded matrix applied to a bounded point is representable, and the
/// result is bounded by the worst row sum, scaled back down.
pub proof fn lemma_mv_mul_bounded(m: Seq<Seq<int>>, v: V3, cm: int, cv: int)
    requires
        cm >= 0,
        cv >= 0,
        mat_bounded(m, cm),
        v3_bounded(v, cv),
        3 * (cm * cv) + cm * (SCALE as int) <= i64::MAX * (SCALE as int),
    ensures
        mv_ok(m, v),
        v3_bounded(mv_mul(m, v), (3 * (cm * cv) + cm * (SCALE as int)) / (SCALE as int)),
{
    let cc = 3 * (cm * cv) + cm * (SCALE as int);
    assert(cm * cv >= 0 && cm * (SCALE as int) >= 0) by (nonlinear_arith)
        requires
            cm >= 0 && cv >= 0,
    ;
    assert forall|i: int| 0 <= i < 3 implies mv_ent_ok(m, v, i) && abs(mv_ent(m, v, i)) <= cc / (
    SCALE as int) by {
        lemma_abs_mul_le(m[i][0], v.x, cm, cv);
        lemma_abs_mul_le(m[i][1], v.y, cm, cv);
        lemma_abs_mul_le(m[i][2], v.z, cm, cv);
        lemma_abs_mul_le(m[i][3], SCALE as int, cm, SCALE as int);
        lemma_tdiv_abs_le(
            m[i][0] * v.x + m[i][1] * v.y + m[i][2] * v.z + m[i][3] * (SCALE as int),
            cc,
            SCALE as int,
        );
        lemma_div_is_ordered(cc, i64::MAX * (SCALE as int), SCALE as int);
        lemma_div_by_multiple(i64::MAX as int, SCALE as int);
    }
    assert(mv_ent_ok(m, v, 0) && mv_ent_ok(m, v, 1) && mv_ent_ok(m, v, 2));
    assert(abs(mv_ent(m, v, 0)) <= cc / (SCALE as int) && abs(mv_ent(m, v, 1)) <= cc / (
    SCALE as int) && abs(mv_ent(m, v, 2)) <= cc / (SCALE as int));
}


/// The square root of a perfect square.
proof fn lemma_sqrt_floor_of_square(r: nat)
    ensures
        sqrt_floor(r * r) == r,
{
    assert((r + 1) * (r + 1) > r * r) by (nonlinear_arith);
    lemma_sqrt_floor_unique(r * r, r);
}

/// Floor-division bounds: `q * m <= a < (q + 1) * m` for `q == a / m`.
proof fn lemma_div_bounds(a: int, m: int)
    requires
        a >= 0,
        m > 0,
    ensures
        (a / m) * m <= a,
        a < (a / m + 1) * m,
        a / m >= 0,
{
    vstd::arithmetic::div_mod::lemma_fundamental_div_mod(a, m);
    vstd::arithmetic::div_mod::lemma_remainder_lower(a, m);
    vstd::arithmetic::div_mod::lemma_remainder_upper(a, m);
    lemma_div_is_ordered(0, a, m);
    assert((a / m + 1) * m == m * (a / m) + m) by (nonlinear_arith);
}

/// The magnitude of one normalized coordinate: `|tdiv(x * SCALE, m)|` is
/// the floor of `|x| * SCALE / m`.
proof fn lemma_unit_comp_abs(x: int, m: int)
    requires
        m > 0,
    ensures
        abs(tdiv(x * (SCALE as int), m)) == (abs(x) * (SCALE as int)) / m,
{
    if x < 0 {
        assert(-(x * (SCALE as int)) == (-x) * (SCALE as int)) by (nonlinear_arith);
    }
    assert(abs(x) * (SCALE as int) >= 0) by (nonlinear_arith)
        requires
            abs(x) >= 0,
    ;
    lemma_div_is_ordered(0, abs(x) * (SCALE as int), m);
}

/// Magnitude/unit invariant: normalizing a vector at least one unit long
/// gives a vector whose magnitude is one unit, up to the fixed-point
/// rounding of the three coordinates and of the square root (at most four
/// units of the last place short, never long). Vectors shorter than one
/// unit are excluded: their coordinates carry too few bits for the
/// quotient to land near one.
pub proof fn lemma_unit_magnitude(v: V3)
    requires
        v3_mag(v) >= SCALE as int,
    ensures
        SCALE as int - 4 <= v3_mag(v3_unit(v)) <= SCALE as int,
{
    let s = SCALE as int;
    let m = v3_mag(v);
    let n = v3_norm_sq(v);
    lemma_abs_mul_le(v.x, v.x, 0, 0);
    lemma_abs_mul_le(v.y, v.y, 0, 0);
    lemma_abs_mul_le(v.z, v.z, 0, 0);
    let bx = abs(v.x);
    let by = abs(v.y);
    let bz = abs(v.z);
    assert(v.x * v.x >= 0 && v.y * v.y >= 0 && v.z * v.z >= 0) by (nonlinear_arith);
    assert(bx * bx == v.x * v.x && by * by == v.y * v.y && bz * bz == v.z * v.z);
    lemma_sqrt_floor_bounds(n as nat);
    assert(m * m <= n < (m + 1) * (m + 1));
    assert((m + 1) * (m + 1) == m * m + 2 * m + 1) by (nonlinear_arith);
    lemma_mag_ge_comp(v);

    let ax = bx * s;
    let ay = by * s;
    let az = bz * s;
    assert(ax >= 0 && ay >= 0 && az >= 0) by (nonlinear_arith)
        requires
            ax == bx * s && ay == by * s && az == bz * s,
            bx >= 0 && by >= 0 && bz >= 0,
            s == 65536,
    ;
    lemma_unit_comp_abs(v.x, m);
    lemma_unit_comp_abs(v.y, m);
    lemma_unit_comp_abs(v.z, m);
    let qx = ax / m;
    let qy = ay / m;
    let qz = az / m;
    lemma_div_bounds(ax, m);
    lemma_div_bounds(ay, m);
    lemma_div_bounds(az, m);

    let u = v3_unit(v);
    assert(abs(u.x) == qx && abs(u.y) == qy && abs(u.z) == qz);
    assert(u.x == qx || u.x == -qx);
    assert(u.y == qy || u.y == -qy);
    assert(u.z == qz || u.z == -qz);
    assert(u.x * u.x == qx * qx) by (nonlinear_arith)
        requires
            u.x == qx || u.x == -qx,
    ;
    assert(u.y * u.y == qy * qy) by (nonlinear_arith)
        requires
            u.y == qy || u.y == -qy,
    ;
    assert(u.z * u.z == qz * qz) by (nonlinear_arith)
        requires
            u.z == qz || u.z == -qz,
    ;
    let qsum = qx * qx + qy * qy + qz * qz;
    assert(v3_norm_sq(u) == qsum);

    // The exact squared sum: (bx s)^2 + (by s)^2 + (bz s)^2 == s^2 n.
    assert(ax * ax == (bx * bx) * (s * s)) by (nonlinear_arith)
        requires
            ax == bx * s,
    ;
    assert(ay * ay == (by * by) * (s * s)) by (nonlinear_arith)
        requires
            ay == by * s,
    ;
    assert(az * az == (bz * bz) * (s * s)) by (nonlinear_arith)
        requires
            az == bz * s,
    ;
    assert(ax * ax + ay * ay + az * az == (s * s) * n) by (nonlinear_arith)
        requires
            ax * ax == (bx * bx) * (s * s),
            ay * ay == (by * by) * (s * s),
            az * az == (bz * bz) * (s * s),
            bx * bx + by * by + bz * bz == n,
    ;

    // Upper bound: qsum <= s^2 + 2 s, so the magnitude is at most s.
    assert((qx * qx) * (m * m) <= ax * ax) by (nonlinear_arith)
        requires
            0 <= qx && qx * m <= ax,
            m > 0,
    ;
    assert((qy * qy) * (m * m) <= ay * ay) by (nonlinear_arith)
        requires
            0 <= qy && qy * m <= ay,
            m > 0,
    ;
    assert((qz * qz) * (m * m) <= az * az) by (nonlinear_arith)
        requires
            0 <= qz && qz * m <= az,
            m > 0,
    ;
    assert(qsum * (m * m) <= (s * s) * n) by (nonlinear_arith)
        requires
            (qx * qx) * (m * m) <= ax * ax,
            (qy * qy) * (m * m) <= ay * ay,
            (qz * qz) * (m * m) <= az * az,
            ax * ax + ay * ay + az * az == (s * s) * n,
            qsum == qx * qx + qy * qy + qz * qz,
    ;
    assert(qsum >= 0) by (nonlinear_arith)
        requires
            qsum == qx * qx + qy * qy + qz * qz,
    ;
    assert(qsum <= s * s + 2 * s) by (nonlinear_arith)
        requires
            qsum * (m * m) <= (s * s) * n,
            n <= m * m + 2 * m,
            m >= s,
            s == 65536,
            qsum >= 0,
    ;
    assert(qsum < (s + 1) * (s + 1)) by (nonlinear_arith)
        requires
            qsum <= s * s + 2 * s,
    ;
    lemma_sqrt_floor_bounds(qsum as nat);
    let mu = sqrt_floor(qsum as nat);
    assert(mu <= s) by (nonlinear_arith)
        requires
            mu * mu <= qsum < (s + 1) * (s + 1),
            mu >= 0,
            s >= 0,
    ;

    // Lower bound: qsum >= s^2 - 6 s - 3, so the magnitude is at least
    // s - 4.
    let px = (qx + 1) * m;
    let py = (qy + 1) * m;
    let pz = (qz + 1) * m;
    assert(ax * ax <= px * px) by (nonlinear_arith)
        requires
            0 <= ax < px,
    ;
    assert(ay * ay <= py * py) by (nonlinear_arith)
        requires
            0 <= ay < py,
    ;
    assert(az * az <= pz * pz) by (nonlinear_arith)
        requires
            0 <= az < pz,
    ;
    assert(px * px == ((qx + 1) * (qx + 1)) * (m * m)) by (nonlinear_arith)
        requires
            px == (qx + 1) * m,
    ;
    assert(py * py == ((qy + 1) * (qy + 1)) * (m * m)) by (nonlinear_arith)
        requires
            py == (qy + 1) * m,
    ;
    assert(pz * pz == ((qz + 1) * (qz + 1)) * (m * m)) by (nonlinear_arith)
        requires
            pz == (qz + 1) * m,
    ;
    let rsum = (qx + 1) * (qx + 1) + (qy + 1) * (qy + 1) + (qz + 1) * (qz + 1);
    assert((s * s) * (m * m) <= rsum * (m * m)) by (nonlinear_arith)
        requires
            m * m <= n,
            s == 65536,
            (s * s) * n == ax * ax + ay * ay + az * az,
            ax * ax <= ((qx + 1) * (qx + 1)) * (m * m),
            ay * ay <= ((qy + 1) * (qy + 1)) * (m * m),
            az * az <= ((qz + 1) * (qz + 1)) * (m * m),
            rsum == (qx + 1) * (qx + 1) + (qy + 1) * (qy + 1) + (qz + 1) * (qz + 1),
    ;
    assert(s * s <= rsum) by (nonlinear_arith)
        requires
            (s * s) * (m * m) <= rsum * (m * m),
            m > 0,
    ;
    // Each quotient is at most s, because each coordinate is at most m.
    assert(qx <= s && qy <= s && qz <= s) by (nonlinear_arith)
        requires
            bx <= m && by <= m && bz <= m,
            ax == bx * s && ay == by * s && az == bz * s,
            qx * m <= ax && qy * m <= ay && qz * m <= az,
            qx >= 0 && qy >= 0 && qz >= 0,
            m > 0,
            s == 65536,
    ;
    assert(qsum >= s * s - 6 * s - 3) by (nonlinear_arith)
        requires
            s * s <= rsum,
            rsum == (qx + 1) * (qx + 1) + (qy + 1) * (qy + 1) + (qz + 1) * (qz + 1),
            qsum == qx * qx + qy * qy + qz * qz,
            0 <= qx <= s && 0 <= qy <= s && 0 <= qz <= s,
    ;
    assert((s - 4) * (s - 4) <= qsum) by (nonlinear_arith)
        requires
            qsum >= s * s - 6 * s - 3,
            s == 65536,
    ;
    lemma_sqrt_floor_of_square((s - 4) as nat);
    lemma_sqrt_floor_is_ordered(((s - 4) * (s - 4)) as nat, qsum as nat);
}


/// A row of a rotation matrix applied to a point: with all but one
/// coefficient zero (and a zero translation entry), the sum collapses to
/// the one surviving product.
proof fn lemma_single_term_row(e0: int, e1: int, e2: int, e3: int, x: int, y: int, z: int)
    by (nonlinear_arith)
    ensures
        e1 == 0 && e2 == 0 && e3 == 0 ==> e0 * x + e1 * y + e2 * z + e3 * (SCALE as int) == e0 * x,
        e0 == 0 && e2 == 0 && e3 == 0 ==> e0 * x + e1 * y + e2 * z + e3 * (SCALE as int) == e1 * y,
        e0 == 0 && e1 == 0 && e3 == 0 ==> e0 * x + e1 * y + e2 * z + e3 * (SCALE as int) == e2 * z,
{
}

/// `tdiv(k * a, SCALE) == a` when `k == SCALE`, and `== -a` when
/// `k == -SCALE`: the coordinate arithmetic of a quarter-turn rotation.
proof fn lemma_quarter_coord(k: int, a: int)
    requires
        k == SCALE as int || k == -(SCALE as int),
    ensures
        k == SCALE as int ==> tdiv(k * a, SCALE as int) == a,
        k == -(SCALE as int) ==> tdiv(k * a, SCALE as int) == -a,
{
    lemma_tdiv_mul_cancel(a, SCALE as int);
    lemma_tdiv_mul_cancel(-a, SCALE as int);
    assert((SCALE as int) * a == a * (SCALE as int)) by (nonlinear_arith);
    assert((-(SCALE as int)) * a == (-a) * (SCALE as int)) by (nonlinear_arith);
}

/// Two vectors whose coordinates agree up to sign and order have the same
/// magnitude.
proof fn lemma_mag_of_signs(a: V3, b: V3)
    requires
        a.x * a.x + a.y * a.y + a.z * a.z == b.x * b.x + b.y * b.y + b.z * b.z,
    ensures
        v3_mag(a) == v3_mag(b),
{
}

/// Rotation preserves length, in the exact part of the fixed-point world:
/// a quarter- or half-turn rotation about the x axis (sine and cosine zero
/// or one unit) keeps every vector's magnitude unchanged. For other
/// angles the sine and cosine themselves are rounded, and the preserved
/// length holds only within tolerance.
pub proof fn lemma_rotx_quarter_turn(s: int, c: int, v: V3)
    requires
        (s == 0 && abs(c) == SCALE as int) || (c == 0 && abs(s) == SCALE as int),
    ensures
        v3_mag(mv_mul(rotx_view(s, c), v)) == v3_mag(v),
{
    let r = mv_mul(rotx_view(s, c), v);
    let rv = rotx_view(s, c);
    assert(rv[0][0] == SCALE as int && rv[0][1] == 0 && rv[0][2] == 0 && rv[0][3] == 0 && rv[1][0]
        == 0 && rv[1][1] == c && rv[1][2] == -s && rv[1][3] == 0 && rv[2][0] == 0 && rv[2][1] == s
        && rv[2][2] == c && rv[2][3] == 0);
    lemma_single_term_row(rv[0][0], rv[0][1], rv[0][2], rv[0][3], v.x, v.y, v.z);
    lemma_single_term_row(rv[1][0], rv[1][1], rv[1][2], rv[1][3], v.x, v.y, v.z);
    lemma_single_term_row(rv[2][0], rv[2][1], rv[2][2], rv[2][3], v.x, v.y, v.z);
    lemma_quarter_coord(SCALE as int, v.x);
    if s == 0 {
        lemma_quarter_coord(c, v.y);
        lemma_quarter_coord(c, v.z);
    } else {
        lemma_quarter_coord(-s, v.z);
        lemma_quarter_coord(s, v.y);
    }
    assert(r.x == v.x);
    assert(r.x * r.x + r.y * r.y + r.z * r.z == v.x * v.x + v.y * v.y + v.z * v.z)
        by (nonlinear_arith)
        requires
            r.x == v.x,
            (r.y == v.y || r.y == -v.y || r.y == v.z || r.y == -v.z),
            (r.z == v.z || r.z == -v.z || r.z == v.y || r.z == -v.y),
            (r.y == v.y || r.y == -v.y) <==> (r.z == v.z || r.z == -v.z),
    ;
    lemma_mag_of_signs(r, v);
}

/// Rotation preserves length: a quarter- or half-turn rotation about the
/// y axis keeps every vector's magnitude unchanged.
pub proof fn lemma_roty_quarter_turn(s: int, c: int, v: V3)
    requires
        (s == 0 && abs(c) == SCALE as int) || (c == 0 && abs(s) == SCALE as int),
    ensures
        v3_mag(mv_mul(roty_view(s, c), v)) == v3_mag(v),
{
    let r = mv_mul(roty_view(s, c), v);
    let rv = roty_view(s, c);
    assert(rv[0][0] == c && rv[0][1] == 0 && rv[0][2] == s && rv[0][3] == 0 && rv[1][0] == 0
        && rv[1][1] == SCALE as int && rv[1][2] == 0 && rv[1][3] == 0 && rv[2][0] == -s && rv[2][1]
        == 0 && rv[2][2] == c && rv[2][3] == 0);
    lemma_single_term_row(rv[0][0], rv[0][1], rv[0][2], rv[0][3], v.x, v.y, v.z);
    lemma_single_term_row(rv[1][0], rv[1][1], rv[1][2], rv[1][3], v.x, v.y, v.z);
    lemma_single_term_row(rv[2][0], rv[2][1], rv[2][2], rv[2][3], v.x, v.y, v.z);
    lemma_quarter_coord(SCALE as int, v.y);
    if s == 0 {
        lemma_quarter_coord(c, v.x);
        lemma_quarter_coord(c, v.z);
    } else {
        lemma_quarter_coord(s, v.z);
        lemma_quarter_coord(-s, v.x);
    }
    assert(r.y == v.y);
    assert(r.x * r.x + r.y * r.y + r.z * r.z == v.x * v.x + v.y * v.y + v.z * v.z)
        by (nonlinear_arith)
        requires
            r.y == v.y,
            (r.x == v.x || r.x == -v.x || r.x == v.z || r.x == -v.z),
            (r.z == v.z || r.z == -v.z || r.z == v.x || r.z == -v.x),
            (r.x == v.x || r.x == -v.x) <==> (r.z == v.z || r.z == -v.z),
    ;
    lemma_mag_of_signs(r, v);
}

/// Rotation preserves length: a quarter- or half-turn rotation about the
/// z axis keeps every vector's magnitude unchanged.
pub proof fn lemma_rotz_quarter_turn(s: int, c: int, v: V3)
    requires
        (s == 0 && abs(c) == SCALE as int) || (c == 0 && abs(s) == SCALE as int),
    ensures
        v3_mag(mv_mul(rotz_view(s, c), v)) == v3_mag(v),
{
    let r = mv_mul(rotz_view(s, c), v);
    let rv = rotz_view(s, c);
    assert(rv[0][0] == c && rv[0][1] == -s && rv[0][2] == 0 && rv[0][3] == 0 && rv[1][0] == s
        && rv[1][1] == c && rv[1][2] == 0 && rv[1][3] == 0 && rv[2][0] == 0 && rv[2][1] == 0
        && rv[2][2] == SCALE as int && rv[2][3] == 0);
    lemma_single_term_row(rv[0][0], rv[0][1], rv[0][2], rv[0][3], v.x, v.y, v.z);
    lemma_single_term_row(rv[1][0], rv[1][1], rv[1][2], rv[1][3], v.x, v.y, v.z);
    lemma_single_term_row(rv[2][0], rv[2][1], rv[2][2], rv[2][3], v.x, v.y, v.z);
    lemma_quarter_coord(SCALE as int, v.z);
    if s == 0 {
        lemma_quarter_coord(c, v.x);
        lemma_quarter_coord(c, v.y);
    } else {
        lemma_quarter_coord(-s, v.y);
        lemma_quarter_coord(s, v.x);
    }
    assert(r.z == v.z);
    assert(r.x * r.x + r.y * r.y + r.z * r.z == v.x * v.x + v.y * v.y + v.z * v.z)
        by (nonlinear_arith)
        requires
            r.z == v.z,
            (r.x == v.x || r.x == -v.x || r.x == v.y || r.x == -v.y),
            (r.y == v.y || r.y == -v.y || r.y == v.x || r.y == -v.x),
            (r.x == v.x || r.x == -v.x) <==> (r.y == v.y || r.y == -v.y),
    ;
    lemma_mag_of_signs(r, v);
}

} // verus!
