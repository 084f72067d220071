//! Player state: position, facing direction and camera plane, with
//! collision-checked movement and incremental rotation.
//!
//! A rotation step is given as an exact rational `(cos, sin) = (c / h, s / h)`
//! with `c*c + s*s == h*h`, so the ideal rotation preserves vector magnitudes
//! exactly; the executable rotation rounds each component to the nearest
//! fixed-point unit, and the drift this rounding can cause in the squared
//! magnitude is proved bounded per step.

use vstd::prelude::*;
use crate::fixed::{
    FP_ONE, abs_i, div_round, div_round_spec, lemma_div_round_err, lemma_div_round_le,
};
use crate::grid::{Grid, tile_spec};
use crate::ray::{cell_of, lemma_cell_range};

verus! {

/// Default turn step: an exact rational angle with
/// `TURN_COS^2 + TURN_SIN^2 == TURN_HYP^2`, about 0.03 radians.
pub const TURN_COS: i64 = 4488;

/// Sine numerator of the default turn step.
pub const TURN_SIN: i64 = 134;

/// Common denominator of the default turn step.
pub const TURN_HYP: i64 = 4490;

/// Squared magnitude of a 2-D vector.
pub open spec fn norm2(x: int, y: int) -> int {
    x * x + y * y
}

/// Cap on the squared magnitude of the direction and camera-plane vectors
/// (two tiles, squared); keeps every product in the engine inside `i64`.
pub open spec fn norm2_cap() -> int {
    4 * FP_ONE * FP_ONE
}

/// A rotation step is a Pythagorean triple scaled into `i64` range.
pub open spec fn rot_ok(c: int, s: int, h: int) -> bool {
    0 < h <= 0x10000 && c * c + s * s == h * h
}

/// First component of the rounded rotation of `(x, y)` by `(c, s) / h`.
pub open spec fn rot_x_spec(x: int, y: int, c: int, s: int, h: int) -> int {
    div_round_spec(x * c - y * s, h)
}

/// Second component of the rounded rotation of `(x, y)` by `(c, s) / h`.
pub open spec fn rot_y_spec(x: int, y: int, c: int, s: int, h: int) -> int {
    div_round_spec(x * s + y * c, h)
}

/// Largest drift the rounded rotation can cause in a squared magnitude of
/// at most `norm2_cap()`.
pub open spec fn drift_step() -> int {
    6 * FP_ONE + 1
}

/// The legs of a Pythagorean triple are at most the hypotenuse, and their
/// sum at most one and a half hypotenuses.
proof fn lemma_triple_legs(c: int, s: int, h: int)
    requires
        rot_ok(c, s, h),
    ensures
        abs_i(c) <= h,
        abs_i(s) <= h,
        2 * (abs_i(c) + abs_i(s)) <= 3 * h,
{
    assert(abs_i(c) <= h && abs_i(s) <= h && 2 * (abs_i(c) + abs_i(s)) <= 3
        * h) by (nonlinear_arith)
        requires
            0 < h,
            c * c + s * s == h * h,
            abs_i(c) == if c < 0 { -c } else { c },
            abs_i(s) == if s < 0 { -s } else { s },
    ;
}

/// An ideal rational rotation scales the squared magnitude by exactly
/// `h * h`: magnitudes are preserved, and so is the field of view.
pub proof fn lemma_rotation_preserves_norm(x: int, y: int, c: int, s: int, h: int)
    requires
        c * c + s * s == h * h,
    ensures
        (x * c - y * s) * (x * c - y * s) + (x * s + y * c) * (x * s + y * c) == h * h * (x * x + y
            * y),
{
    lemma_rotation_expansion(x, y, c, s);
    assert((c * c + s * s) * (x * x + y * y) == h * h * (x * x + y * y)) by (nonlinear_arith)
        requires
            c * c + s * s == h * h,
    ;
}

/// Algebraic expansion behind the rotation-norm identity.
proof fn lemma_rotation_expansion(x: int, y: int, c: int, s: int)
    ensures
        (x * c - y * s) * (x * c - y * s) + (x * s + y * c) * (x * s + y * c) == (c * c + s * s) * (
        x * x + y * y),
{
    let a = x * c;
    let b = y * s;
    let d = x * s;
    let e = y * c;
    assert((a - b) * (a - b) == a * a - 2 * (a * b) + b * b) by (nonlinear_arith);
    assert((d + e) * (d + e) == d * d + 2 * (d * e) + e * e) by (nonlinear_arith);
    assert(a * b == d * e) by (nonlinear_arith)
        requires
            a == x * c,
            b == y * s,
            d == x * s,
            e == y * c,
    ;
    assert(a * a == (x * x) * (c * c) && b * b == (y * y) * (s * s) && d * d == (x * x) * (s * s)
        && e * e == (y * y) * (c * c)) by (nonlinear_arith)
        requires
            a == x * c,
            b == y * s,
            d == x * s,
            e == y * c,
    ;
    assert((c * c + s * s) * (x * x + y * y) == (x * x) * (c * c) + (y * y) * (s * s) + (x * x) * (s
        * s) + (y * y) * (c * c)) by (nonlinear_arith);
}

/// An ideal rational rotation applied to two vectors scales their dot
/// product by exactly `h * h`: the angle between the facing direction and
/// the camera plane — and with it the field of view — is preserved.  In
/// particular a perpendicular pair stays perpendicular.
pub proof fn lemma_rotation_preserves_dot(x: int, y: int, u: int, v: int, c: int, s: int, h: int)
    requires
        c * c + s * s == h * h,
    ensures
        (x * c - y * s) * (u * c - v * s) + (x * s + y * c) * (u * s + v * c) == h * h * (x * u + y
            * v),
{
    let a = x * c;
    let b = y * s;
    let d = x * s;
    let e = y * c;
    let a2 = u * c;
    let b2 = v * s;
    let d2 = u * s;
    let e2 = v * c;
    assert((a - b) * (a2 - b2) == a * a2 - a * b2 - b * a2 + b * b2) by (nonlinear_arith);
    assert((d + e) * (d2 + e2) == d * d2 + d * e2 + e * d2 + e * e2) by (nonlinear_arith);
    assert(a * a2 == (x * u) * (c * c) && b * b2 == (y * v) * (s * s) && d * d2 == (x * u) * (s * s)
        && e * e2 == (y * v) * (c * c) && a * b2 == (x * v) * (c * s) && b * a2 == (y * u) * (c * s)
        && d * e2 == (x * v) * (c * s) && e * d2 == (y * u) * (c * s)) by (nonlinear_arith)
        requires
            a == x * c,
            b == y * s,
            d == x * s,
            e == y * c,
            a2 == u * c,
            b2 == v * s,
            d2 == u * s,
            e2 == v * c,
    ;
    assert((x * u) * (c * c) + (x * u) * (s * s) == (x * u) * (h * h) && (y * v) * (s * s) + (y * v)
        * (c * c) == (y * v) * (h * h)) by (nonlinear_arith)
        requires
            c * c + s * s == h * h,
    ;
    assert(h * h * (x * u + y * v) == (x * u) * (h * h) + (y * v) * (h * h)) by (nonlinear_arith);
}

/// Bound on each component of the rounded rotation of a capped vector.
proof fn lemma_rot_component_bound(x: int, y: int, c: int, s: int, h: int)
    requires
        rot_ok(c, s, h),
        norm2(x, y) <= norm2_cap(),
    ensures
        abs_i(rot_x_spec(x, y, c, s, h)) <= 3 * FP_ONE,
        abs_i(rot_y_spec(x, y, c, s, h)) <= 3 * FP_ONE,
{
    lemma_triple_legs(c, s, h);
    assert(abs_i(x) <= 2 * FP_ONE && abs_i(y) <= 2 * FP_ONE) by (nonlinear_arith)
        requires
            x * x + y * y <= 4 * FP_ONE * FP_ONE,
            0 < FP_ONE,
            abs_i(x) == if x < 0 { -x } else { x },
            abs_i(y) == if y < 0 { -y } else { y },
    ;
    assert(-(3 * FP_ONE) * h <= x * c - y * s <= (3 * FP_ONE) * h && -(3 * FP_ONE) * h <= x * s + y
        * c <= (3 * FP_ONE) * h) by (nonlinear_arith)
        requires
            abs_i(x) <= 2 * FP_ONE,
            abs_i(y) <= 2 * FP_ONE,
            abs_i(c) <= h,
            abs_i(s) <= h,
            2 * (abs_i(c) + abs_i(s)) <= 3 * h,
            0 < h,
            0 < FP_ONE,
            abs_i(x) == if x < 0 { -x } else { x },
            abs_i(y) == if y < 0 { -y } else { y },
            abs_i(c) == if c < 0 { -c } else { c },
            abs_i(s) == if s < 0 { -s } else { s },
    ;
    lemma_div_round_le(x * c - y * s, h, 3 * FP_ONE);
    lemma_div_round_le(x * s + y * c, h, 3 * FP_ONE);
}

/// One rounded rotation moves the squared magnitude of a capped vector by
/// at most `drift_step()`.
pub proof fn lemma_rotation_drift(x: int, y: int, c: int, s: int, h: int)
    requires
        rot_ok(c, s, h),
        norm2(x, y) <= norm2_cap(),
    ensures
        abs_i(
            norm2(rot_x_spec(x, y, c, s, h), rot_y_spec(x, y, c, s, h)) - norm2(x, y),
        ) <= drift_step(),
{
    let va = x * c - y * s;
    let vb = x * s + y * c;
    let x2 = rot_x_spec(x, y, c, s, h);
    let y2 = rot_y_spec(x, y, c, s, h);
    let ex = x2 * h - va;
    let ey = y2 * h - vb;
    lemma_div_round_err(va, h);
    lemma_div_round_err(vb, h);
    lemma_triple_legs(c, s, h);
    lemma_rotation_preserves_norm(x, y, c, s, h);
    assert(abs_i(x) <= 2 * FP_ONE && abs_i(y) <= 2 * FP_ONE) by (nonlinear_arith)
        requires
            x * x + y * y <= 4 * FP_ONE * FP_ONE,
            0 < FP_ONE,
            abs_i(x) == if x < 0 { -x } else { x },
            abs_i(y) == if y < 0 { -y } else { y },
    ;
    // |va| <= |x||c| + |y||s|, |vb| <= |x||s| + |y||c|.
    assert(abs_i(va) <= abs_i(x) * abs_i(c) + abs_i(y) * abs_i(s) && abs_i(vb) <= abs_i(x) * abs_i(
        s,
    ) + abs_i(y) * abs_i(c)) by (nonlinear_arith)
        requires
            va == x * c - y * s,
            vb == x * s + y * c,
            abs_i(x) == if x < 0 { -x } else { x },
            abs_i(y) == if y < 0 { -y } else { y },
            abs_i(c) == if c < 0 { -c } else { c },
            abs_i(s) == if s < 0 { -s } else { s },
            abs_i(va) == if va < 0 { -va } else { va },
            abs_i(vb) == if vb < 0 { -vb } else { vb },
    ;
    // Summed: 2 * (|va| + |vb|) <= (|x| + |y|) * 2 * (|c| + |s|) <= 4F * 3h.
    assert(2 * (abs_i(x) * abs_i(c) + abs_i(y) * abs_i(s) + abs_i(x) * abs_i(s) + abs_i(y) * abs_i(
        c,
    )) <= 12 * FP_ONE * h) by (nonlinear_arith)
        requires
            0 <= abs_i(x) <= 2 * FP_ONE,
            0 <= abs_i(y) <= 2 * FP_ONE,
            0 <= abs_i(c),
            0 <= abs_i(s),
            2 * (abs_i(c) + abs_i(s)) <= 3 * h,
            0 < h,
            0 < FP_ONE,
    ;
    assert(2 * (abs_i(va) + abs_i(vb)) <= 12 * FP_ONE * h);
    // h^2 * (new norm2) == (va + ex)^2 + (vb + ey)^2.
    assert(h * h * (x2 * x2 + y2 * y2) == (va + ex) * (va + ex) + (vb + ey) * (vb
        + ey)) by (nonlinear_arith)
        requires
            ex == x2 * h - va,
            ey == y2 * h - vb,
    ;
    assert((va + ex) * (va + ex) + (vb + ey) * (vb + ey) == va * va + vb * vb + 2 * (va * ex + vb
        * ey) + (ex * ex + ey * ey)) by (nonlinear_arith);
    // Cross terms: |2 * (va*ex + vb*ey)| <= (|va| + |vb|) * h.
    assert(2 * (va * ex + vb * ey) <= (abs_i(va) + abs_i(vb)) * h && -((abs_i(va) + abs_i(vb)) * h)
        <= 2 * (va * ex + vb * ey)) by (nonlinear_arith)
        requires
            2 * ex <= h,
            -h < 2 * ex,
            2 * ey <= h,
            -h < 2 * ey,
            0 < h,
            abs_i(va) == if va < 0 { -va } else { va },
            abs_i(vb) == if vb < 0 { -vb } else { vb },
    ;
    // Rounding squares: ex^2 + ey^2 <= h^2 / 2.
    assert(0 <= ex * ex + ey * ey && 2 * (ex * ex + ey * ey) <= h * h) by (nonlinear_arith)
        requires
            2 * ex <= h,
            -h < 2 * ex,
            2 * ey <= h,
            -h < 2 * ey,
            0 < h,
    ;
    // (|va| + |vb|) * h <= 6F * h^2.
    assert((abs_i(va) + abs_i(vb)) * h <= 6 * FP_ONE * (h * h)) by (nonlinear_arith)
        requires
            2 * (abs_i(va) + abs_i(vb)) <= 12 * FP_ONE * h,
            0 < h,
            0 < FP_ONE,
    ;
    let delta = (x2 * x2 + y2 * y2) - (x * x + y * y);
    assert(h * h * delta == 2 * (va * ex + vb * ey) + (ex * ex + ey * ey)) by (nonlinear_arith)
        requires
            h * h * (x2 * x2 + y2 * y2) == va * va + vb * vb + 2 * (va * ex + vb * ey) + (ex * ex
                + ey * ey),
            va * va + vb * vb == h * h * (x * x + y * y),
            delta == (x2 * x2 + y2 * y2) - (x * x + y * y),
    ;
    assert(abs_i(delta) <= 6 * FP_ONE + 1) by (nonlinear_arith)
        requires
            h * h * delta == 2 * (va * ex + vb * ey) + (ex * ex + ey * ey),
            2 * (va * ex + vb * ey) <= 6 * FP_ONE * (h * h),
            -(6 * FP_ONE * (h * h)) <= 2 * (va * ex + vb * ey),
            0 <= ex * ex + ey * ey,
            2 * (ex * ex + ey * ey) <= h * h,
            0 < h,
            0 < FP_ONE,
            abs_i(delta) == if delta < 0 { -delta } else { delta },
    ;
}

/// One rounded rotation applied to two capped vectors moves their dot
/// product by at most `drift_step()`: across rounded rotations the facing
/// direction and the camera plane stay perpendicular up to a bounded error,
/// so the field of view does not drift unboundedly either.
pub proof fn lemma_rotation_dot_drift(x: int, y: int, u: int, v: int, c: int, s: int, h: int)
    requires
        rot_ok(c, s, h),
        norm2(x, y) <= norm2_cap(),
        norm2(u, v) <= norm2_cap(),
    ensures
        abs_i(
            rot_x_spec(x, y, c, s, h) * rot_x_spec(u, v, c, s, h) + rot_y_spec(x, y, c, s, h)
                * rot_y_spec(u, v, c, s, h) - (x * u + y * v),
        ) <= drift_step(),
{
    let av = x * c - y * s;
    let bv = x * s + y * c;
    let au = u * c - v * s;
    let bu = u * s + v * c;
    let x2 = rot_x_spec(x, y, c, s, h);
    let y2 = rot_y_spec(x, y, c, s, h);
    let u2 = rot_x_spec(u, v, c, s, h);
    let v2 = rot_y_spec(u, v, c, s, h);
    let exv = x2 * h - av;
    let eyv = y2 * h - bv;
    let exu = u2 * h - au;
    let eyu = v2 * h - bu;
    lemma_div_round_err(av, h);
    lemma_div_round_err(bv, h);
    lemma_div_round_err(au, h);
    lemma_div_round_err(bu, h);
    lemma_triple_legs(c, s, h);
    lemma_rotation_preserves_dot(x, y, u, v, c, s, h);
    lemma_pair_abs_sum(x, y, c, s, h);
    lemma_pair_abs_sum(u, v, c, s, h);
    // h^2 * (new dot) == (av + exv)(au + exu) + (bv + eyv)(bu + eyu),
    // one coordinate at a time.
    assert(h * h * (x2 * u2) == (av + exv) * (au + exu)) by (nonlinear_arith)
        requires
            exv == x2 * h - av,
            exu == u2 * h - au,
    ;
    assert(h * h * (y2 * v2) == (bv + eyv) * (bu + eyu)) by (nonlinear_arith)
        requires
            eyv == y2 * h - bv,
            eyu == v2 * h - bu,
    ;
    assert(h * h * (x2 * u2 + y2 * v2) == h * h * (x2 * u2) + h * h * (y2
        * v2)) by (nonlinear_arith);
    assert((av + exv) * (au + exu) + (bv + eyv) * (bu + eyu) == av * au + bv * bu + (av * exu + au
        * exv + bv * eyu + bu * eyv) + (exv * exu + eyv * eyu)) by (nonlinear_arith);
    // Each cross term: |2 * p * e| <= |p| * h when |2e| <= h.
    assert(2 * (av * exu) <= abs_i(av) * h && -(abs_i(av) * h) <= 2 * (av
        * exu)) by (nonlinear_arith)
        requires
            2 * exu <= h,
            -h < 2 * exu,
            0 < h,
            abs_i(av) == if av < 0 { -av } else { av },
    ;
    assert(2 * (au * exv) <= abs_i(au) * h && -(abs_i(au) * h) <= 2 * (au
        * exv)) by (nonlinear_arith)
        requires
            2 * exv <= h,
            -h < 2 * exv,
            0 < h,
            abs_i(au) == if au < 0 { -au } else { au },
    ;
    assert(2 * (bv * eyu) <= abs_i(bv) * h && -(abs_i(bv) * h) <= 2 * (bv
        * eyu)) by (nonlinear_arith)
        requires
            2 * eyu <= h,
            -h < 2 * eyu,
            0 < h,
            abs_i(bv) == if bv < 0 { -bv } else { bv },
    ;
    assert(2 * (bu * eyv) <= abs_i(bu) * h && -(abs_i(bu) * h) <= 2 * (bu
        * eyv)) by (nonlinear_arith)
        requires
            2 * eyv <= h,
            -h < 2 * eyv,
            0 < h,
            abs_i(bu) == if bu < 0 { -bu } else { bu },
    ;
    assert(abs_i(av) * h + abs_i(au) * h + abs_i(bv) * h + abs_i(bu) * h <= 12 * FP_ONE * (h
        * h)) by (nonlinear_arith)
        requires
            2 * (abs_i(av) + abs_i(bv)) <= 12 * FP_ONE * h,
            2 * (abs_i(au) + abs_i(bu)) <= 12 * FP_ONE * h,
            0 < h,
            0 < FP_ONE,
    ;
    // Error products: |exv*exu + eyv*eyu| <= h^2 / 2.
    assert(2 * (exv * exu + eyv * eyu) <= h * h && -(h * h) <= 2 * (exv * exu + eyv
        * eyu)) by (nonlinear_arith)
        requires
            2 * exv <= h,
            -h < 2 * exv,
            2 * eyv <= h,
            -h < 2 * eyv,
            2 * exu <= h,
            -h < 2 * exu,
            2 * eyu <= h,
            -h < 2 * eyu,
            0 < h,
    ;
    let delta = (x2 * u2 + y2 * v2) - (x * u + y * v);
    assert(h * h * delta == (av * exu + au * exv + bv * eyu + bu * eyv) + (exv * exu + eyv
        * eyu)) by (nonlinear_arith)
        requires
            h * h * (x2 * u2 + y2 * v2) == av * au + bv * bu + (av * exu + au * exv + bv * eyu + bu
                * eyv) + (exv * exu + eyv * eyu),
            av * au + bv * bu == h * h * (x * u + y * v),
            delta == (x2 * u2 + y2 * v2) - (x * u + y * v),
    ;
    assert(2 * (av * exu + au * exv + bv * eyu + bu * eyv) <= 12 * FP_ONE * (h * h) && -(12
        * FP_ONE * (h * h)) <= 2 * (av * exu + au * exv + bv * eyu + bu * eyv));
    assert(abs_i(delta) <= 6 * FP_ONE + 1) by (nonlinear_arith)
        requires
            h * h * delta == (av * exu + au * exv + bv * eyu + bu * eyv) + (exv * exu + eyv * eyu),
            2 * (av * exu + au * exv + bv * eyu + bu * eyv) <= 12 * FP_ONE * (h * h),
            -(12 * FP_ONE * (h * h)) <= 2 * (av * exu + au * exv + bv * eyu + bu * eyv),
            2 * (exv * exu + eyv * eyu) <= h * h,
            -(h * h) <= 2 * (exv * exu + eyv * eyu),
            0 < h,
            0 < FP_ONE,
            abs_i(delta) == if delta < 0 { -delta } else { delta },
    ;
}

/// For a capped vector, the rotated numerators satisfy
/// `2 * (|x*c - y*s| + |x*s + y*c|) <= 12 * FP_ONE * h`.
proof fn lemma_pair_abs_sum(x: int, y: int, c: int, s: int, h: int)
    requires
        rot_ok(c, s, h),
        norm2(x, y) <= norm2_cap(),
    ensures
        2 * (abs_i(x * c - y * s) + abs_i(x * s + y * c)) <= 12 * FP_ONE * h,
{
    lemma_triple_legs(c, s, h);
    assert(abs_i(x) <= 2 * FP_ONE && abs_i(y) <= 2 * FP_ONE) by (nonlinear_arith)
        requires
            x * x + y * y <= 4 * FP_ONE * FP_ONE,
            0 < FP_ONE,
            abs_i(x) == if x < 0 { -x } else { x },
            abs_i(y) == if y < 0 { -y } else { y },
    ;
    assert(abs_i(x * c - y * s) <= abs_i(x) * abs_i(c) + abs_i(y) * abs_i(s) && abs_i(
        x * s + y * c,
    ) <= abs_i(x) * abs_i(s) + abs_i(y) * abs_i(c)) by (nonlinear_arith)
        requires
            abs_i(x) == if x < 0 { -x } else { x },
            abs_i(y) == if y < 0 { -y } else { y },
            abs_i(c) == if c < 0 { -c } else { c },
            abs_i(s) == if s < 0 { -s } else { s },
            abs_i(x * c - y * s) == if (x * c - y * s) < 0 {
                -(x * c - y * s)
            } else {
                x * c - y * s
            },
            abs_i(x * s + y * c) == if (x * s + y * c) < 0 {
                -(x * s + y * c)
            } else {
                x * s + y * c
            },
    ;
    assert(2 * (abs_i(x) * abs_i(c) + abs_i(y) * abs_i(s) + abs_i(x) * abs_i(s) + abs_i(y) * abs_i(
        c,
    )) <= 12 * FP_ONE * h) by (nonlinear_arith)
        requires
            0 <= abs_i(x) <= 2 * FP_ONE,
            0 <= abs_i(y) <= 2 * FP_ONE,
            0 <= abs_i(c),
            0 <= abs_i(s),
            2 * (abs_i(c) + abs_i(s)) <= 3 * h,
            0 < h,
            0 < FP_ONE,
    ;
}

/// Over any sequence of rotation steps that starts far enough below the
/// magnitude cap for both vectors, the dot product of the pair drifts from
/// its initial value by at most `drift_step()` per step: a perpendicular
/// direction/camera-plane pair stays perpendicular up to `drift_step() * n`
/// after `n` rounded rotations, and with the magnitude bound of
/// `lemma_rotation_drift_seq` the field of view is preserved up to the same
/// tolerances.
pub proof fn lemma_rotation_dot_drift_seq(x: int, y: int, u: int, v: int, rots: Seq<(int, int, int)>)
    requires
        forall|i: int|
            0 <= i < rots.len() ==> rot_ok(#[trigger] rots[i].0, rots[i].1, rots[i].2),
        norm2(x, y) + drift_step() * rots.len() <= norm2_cap(),
        norm2(u, v) + drift_step() * rots.len() <= norm2_cap(),
        0 <= norm2(x, y),
        0 <= norm2(u, v),
    ensures
        abs_i(
            rotate_seq_spec(x, y, rots).0 * rotate_seq_spec(u, v, rots).0 + rotate_seq_spec(
                x,
                y,
                rots,
            ).1 * rotate_seq_spec(u, v, rots).1 - (x * u + y * v),
        ) <= drift_step() * rots.len(),
    decreases rots.len(),
{
    if rots.len() == 0 {
    } else {
        let r = rots[0];
        assert(rot_ok(r.0, r.1, r.2));
        lemma_rotation_drift(x, y, r.0, r.1, r.2);
        lemma_rotation_drift(u, v, r.0, r.1, r.2);
        lemma_rotation_dot_drift(x, y, u, v, r.0, r.1, r.2);
        let x1 = rot_x_spec(x, y, r.0, r.1, r.2);
        let y1 = rot_y_spec(x, y, r.0, r.1, r.2);
        let u1 = rot_x_spec(u, v, r.0, r.1, r.2);
        let v1 = rot_y_spec(u, v, r.0, r.1, r.2);
        let rest = rots.drop_first();
        assert(forall|i: int|
            0 <= i < rest.len() ==> rot_ok(#[trigger] rest[i].0, rest[i].1, rest[i].2)) by {
            assert(forall|i: int| 0 <= i < rest.len() ==> rest[i] == rots[i + 1]);
        }
        assert(0 <= norm2(x1, y1) && 0 <= norm2(u1, v1)) by (nonlinear_arith)
            requires
                norm2(x1, y1) == x1 * x1 + y1 * y1,
                norm2(u1, v1) == u1 * u1 + v1 * v1,
        ;
        assert(drift_step() * rots.len() == drift_step() + drift_step() * (
        rest.len() as int)) by (nonlinear_arith)
            requires
                rest.len() == rots.len() - 1,
        ;
        lemma_rotation_dot_drift_seq(x1, y1, u1, v1, rest);
    }
}

/// Rounded rotation of one vector, exact per `rot_x_spec` / `rot_y_spec`.
fn rotate_vec(x: i64, y: i64, c: i64, s: i64, h: i64) -> (r: (i64, i64))
    requires
        rot_ok(c as int, s as int, h as int),
        norm2(x as int, y as int) <= norm2_cap(),
    ensures
        r.0 == rot_x_spec(x as int, y as int, c as int, s as int, h as int),
        r.1 == rot_y_spec(x as int, y as int, c as int, s as int, h as int),
        abs_i(r.0 as int) <= 3 * FP_ONE,
        abs_i(r.1 as int) <= 3 * FP_ONE,
{
    proof {
        lemma_triple_legs(c as int, s as int, h as int);
        lemma_rot_component_bound(x as int, y as int, c as int, s as int, h as int);
        assert(abs_i(x as int) <= 2 * FP_ONE && abs_i(y as int) <= 2 * FP_ONE) by (nonlinear_arith)
            requires
                (x as int) * (x as int) + (y as int) * (y as int) <= 4 * FP_ONE * FP_ONE,
                0 < FP_ONE,
                abs_i(x as int) == if (x as int) < 0 { -(x as int) } else { x as int },
                abs_i(y as int) == if (y as int) < 0 { -(y as int) } else { y as int },
        ;
        assert(abs_i(x as int * c) <= 0x1000_0000_0000 && abs_i(y as int * s) <= 0x1000_0000_0000
            && abs_i(x as int * s) <= 0x1000_0000_0000 && abs_i(y as int * c)
            <= 0x1000_0000_0000) by (nonlinear_arith)
            requires
                abs_i(x as int) <= 2 * FP_ONE,
                abs_i(y as int) <= 2 * FP_ONE,
                abs_i(c as int) <= h,
                abs_i(s as int) <= h,
                0 < (h as int) <= 0x10000,
                FP_ONE == 0x100_0000,
                abs_i(x as int) == if (x as int) < 0 { -(x as int) } else { x as int },
                abs_i(y as int) == if (y as int) < 0 { -(y as int) } else { y as int },
                abs_i(c as int) == if (c as int) < 0 { -(c as int) } else { c as int },
                abs_i(s as int) == if (s as int) < 0 { -(s as int) } else { s as int },
                abs_i(x as int * c) == if (x as int * c) < 0 {
                    -(x as int * c)
                } else {
                    x as int * c
                },
                abs_i(y as int * s) == if (y as int * s) < 0 {
                    -(y as int * s)
                } else {
                    y as int * s
                },
                abs_i(x as int * s) == if (x as int * s) < 0 {
                    -(x as int * s)
                } else {
                    x as int * s
                },
                abs_i(y as int * c) == if (y as int * c) < 0 {
                    -(y as int * c)
                } else {
                    y as int * c
                },
        ;
    }
    let nx: i64 = div_round(x * c - y * s, h);
    let ny: i64 = div_round(x * s + y * c, h);
    (nx, ny)
}

/// The player: fixed-point position, facing direction and camera plane.
/// The camera plane is perpendicular to the direction and its magnitude
/// sets the field of view.
#[derive(Clone, Copy, Debug)]
pub struct Player {
    pub pos_x: i64,
    pub pos_y: i64,
    pub dir_x: i64,
    pub dir_y: i64,
    pub plane_x: i64,
    pub plane_y: i64,
}

impl Player {
    /// Well-formed for a grid of side `n`: position inside the grid and
    /// both vectors within the magnitude cap.
    pub open spec fn wf(&self, n: int) -> bool {
        &&& 0 <= self.pos_x < n * FP_ONE
        &&& 0 <= self.pos_y < n * FP_ONE
        &&& norm2(self.dir_x as int, self.dir_y as int) <= norm2_cap()
        &&& norm2(self.plane_x as int, self.plane_y as int) <= norm2_cap()
    }

    /// Builds a player if and only if the pose is well-formed for `g`.
    pub fn new(g: &Grid, pos_x: i64, pos_y: i64, dir_x: i64, dir_y: i64, plane_x: i64, plane_y: i64) -> (r:
        Option<Player>)
        requires
            g.wf(),
        ensures
            match r {
                Some(p) => {
                    &&& p.wf(g.dim())
                    &&& p == (Player { pos_x, pos_y, dir_x, dir_y, plane_x, plane_y })
                },
                None => !(Player { pos_x, pos_y, dir_x, dir_y, plane_x, plane_y }).wf(g.dim()),
            },
    {
        let n: usize = g.side();
        if pos_x < 0 || pos_y < 0 || pos_x >= (n as i64) * FP_ONE || pos_y >= (n as i64) * FP_ONE {
            return None;
        }
        if dir_x < -2 * FP_ONE || dir_x > 2 * FP_ONE || dir_y < -2 * FP_ONE || dir_y > 2 * FP_ONE
            || plane_x < -2 * FP_ONE || plane_x > 2 * FP_ONE || plane_y < -2 * FP_ONE || plane_y > 2
            * FP_ONE {
            proof {
                lemma_component_exceeds_cap(dir_x as int, dir_y as int);
                lemma_component_exceeds_cap(plane_x as int, plane_y as int);
            }
            return None;
        }
        proof {
            assert(0 <= dir_x * dir_x <= 0x10_0000_0000_0000 && 0 <= dir_y * dir_y
                <= 0x10_0000_0000_0000 && 0 <= plane_x * plane_x <= 0x10_0000_0000_0000 && 0
                <= plane_y * plane_y <= 0x10_0000_0000_0000) by (nonlinear_arith)
                requires
                    -2 * FP_ONE <= dir_x <= 2 * FP_ONE,
                    -2 * FP_ONE <= dir_y <= 2 * FP_ONE,
                    -2 * FP_ONE <= plane_x <= 2 * FP_ONE,
                    -2 * FP_ONE <= plane_y <= 2 * FP_ONE,
                    FP_ONE == 0x100_0000,
            ;
        }
        if dir_x * dir_x + dir_y * dir_y > 4 * FP_ONE * FP_ONE || plane_x * plane_x + plane_y
            * plane_y > 4 * FP_ONE * FP_ONE {
            return None;
        }
        Some(Player { pos_x, pos_y, dir_x, dir_y, plane_x, plane_y })
    }

    /// Rotates direction and camera plane together by the exact rational
    /// angle `(c, s) / h`; positive `s` turns one way, negative the other.
    ///
    /// Rounding could in principle push a vector's squared magnitude past
    /// the cap after very many steps; such a step is rejected, leaving the
    /// state unchanged, so well-formedness is preserved unconditionally.
    /// The drift lemmas show a step is never rejected until the magnitude
    /// has crept within `drift_step()` of the cap.
    pub fn rotate(&mut self, c: i64, s: i64, h: i64)
        requires
            rot_ok(c as int, s as int, h as int),
            norm2(old(self).dir_x as int, old(self).dir_y as int) <= norm2_cap(),
            norm2(old(self).plane_x as int, old(self).plane_y as int) <= norm2_cap(),
        ensures
            norm2(final(self).dir_x as int, final(self).dir_y as int) <= norm2_cap(),
            norm2(final(self).plane_x as int, final(self).plane_y as int) <= norm2_cap(),
            forall|n: int| old(self).wf(n) ==> final(self).wf(n),
            final(self).pos_x == old(self).pos_x,
            final(self).pos_y == old(self).pos_y,
            ({
                let ndx = rot_x_spec(
                    old(self).dir_x as int,
                    old(self).dir_y as int,
                    c as int,
                    s as int,
                    h as int,
                );
                let ndy = rot_y_spec(
                    old(self).dir_x as int,
                    old(self).dir_y as int,
                    c as int,
                    s as int,
                    h as int,
                );
                let npx = rot_x_spec(
                    old(self).plane_x as int,
                    old(self).plane_y as int,
                    c as int,
                    s as int,
                    h as int,
                );
                let npy = rot_y_spec(
                    old(self).plane_x as int,
                    old(self).plane_y as int,
                    c as int,
                    s as int,
                    h as int,
                );
                if norm2(ndx, ndy) <= norm2_cap() && norm2(npx, npy) <= norm2_cap() {
                    &&& final(self).dir_x == ndx
                    &&& final(self).dir_y == ndy
                    &&& final(self).plane_x == npx
                    &&& final(self).plane_y == npy
                } else {
                    *final(self) == *old(self)
                }
            }),
    {
        let (ndx, ndy) = rotate_vec(self.dir_x, self.dir_y, c, s, h);
        let (npx, npy) = rotate_vec(self.plane_x, self.plane_y, c, s, h);
        proof {
            assert(0 <= ndx * ndx <= 0x90_0000_0000_0000 && 0 <= ndy * ndy <= 0x90_0000_0000_0000
                && 0 <= npx * npx <= 0x90_0000_0000_0000 && 0 <= npy * npy
                <= 0x90_0000_0000_0000) by (nonlinear_arith)
                requires
                    abs_i(ndx as int) <= 3 * FP_ONE,
                    abs_i(ndy as int) <= 3 * FP_ONE,
                    abs_i(npx as int) <= 3 * FP_ONE,
                    abs_i(npy as int) <= 3 * FP_ONE,
                    FP_ONE == 0x100_0000,
                    abs_i(ndx as int) == if (ndx as int) < 0 { -(ndx as int) } else { ndx as int },
                    abs_i(ndy as int) == if (ndy as int) < 0 { -(ndy as int) } else { ndy as int },
                    abs_i(npx as int) == if (npx as int) < 0 { -(npx as int) } else { npx as int },
                    abs_i(npy as int) == if (npy as int) < 0 { -(npy as int) } else { npy as int },
            ;
        }
        if ndx * ndx + ndy * ndy <= 4 * FP_ONE * FP_ONE && npx * npx + npy * npy <= 4 * FP_ONE
            * FP_ONE {
            self.dir_x = ndx;
            self.dir_y = ndy;
            self.plane_x = npx;
            self.plane_y = npy;
        }
    }

    /// Turns by the default step toward negative angles.
    pub fn turn_left(&mut self)
        requires
            norm2(old(self).dir_x as int, old(self).dir_y as int) <= norm2_cap(),
            norm2(old(self).plane_x as int, old(self).plane_y as int) <= norm2_cap(),
        ensures
            norm2(final(self).dir_x as int, final(self).dir_y as int) <= norm2_cap(),
            norm2(final(self).plane_x as int, final(self).plane_y as int) <= norm2_cap(),
            forall|n: int| old(self).wf(n) ==> final(self).wf(n),
            final(self).pos_x == old(self).pos_x,
            final(self).pos_y == old(self).pos_y,
            ({
                let ndx = rot_x_spec(
                    old(self).dir_x as int,
                    old(self).dir_y as int,
                    TURN_COS as int,
                    (-TURN_SIN) as int,
                    TURN_HYP as int,
                );
                let ndy = rot_y_spec(
                    old(self).dir_x as int,
                    old(self).dir_y as int,
                    TURN_COS as int,
                    (-TURN_SIN) as int,
                    TURN_HYP as int,
                );
                let npx = rot_x_spec(
                    old(self).plane_x as int,
                    old(self).plane_y as int,
                    TURN_COS as int,
                    (-TURN_SIN) as int,
                    TURN_HYP as int,
                );
                let npy = rot_y_spec(
                    old(self).plane_x as int,
                    old(self).plane_y as int,
                    TURN_COS as int,
                    (-TURN_SIN) as int,
                    TURN_HYP as int,
                );
                if norm2(ndx, ndy) <= norm2_cap() && norm2(npx, npy) <= norm2_cap() {
                    &&& final(self).dir_x == ndx
                    &&& final(self).dir_y == ndy
                    &&& final(self).plane_x == npx
                    &&& final(self).plane_y == npy
                } else {
                    *final(self) == *old(self)
                }
            }),
    {
        proof {
            assert(4488int * 4488 + (-134int) * (-134) == 4490int * 4490) by (nonlinear_arith);
        }
        self.rotate(TURN_COS, -TURN_SIN, TURN_HYP);
    }

    /// Turns by the default step toward positive angles.
    pub fn turn_right(&mut self)
        requires
            norm2(old(self).dir_x as int, old(self).dir_y as int) <= norm2_cap(),
            norm2(old(self).plane_x as int, old(self).plane_y as int) <= norm2_cap(),
        ensures
            norm2(final(self).dir_x as int, final(self).dir_y as int) <= norm2_cap(),
            norm2(final(self).plane_x as int, final(self).plane_y as int) <= norm2_cap(),
            forall|n: int| old(self).wf(n) ==> final(self).wf(n),
            final(self).pos_x == old(self).pos_x,
            final(self).pos_y == old(self).pos_y,
            ({
                let ndx = rot_x_spec(
                    old(self).dir_x as int,
                    old(self).dir_y as int,
                    TURN_COS as int,
                    TURN_SIN as int,
                    TURN_HYP as int,
                );
                let ndy = rot_y_spec(
                    old(self).dir_x as int,
                    old(self).dir_y as int,
                    TURN_COS as int,
                    TURN_SIN as int,
                    TURN_HYP as int,
                );
                let npx = rot_x_spec(
                    old(self).plane_x as int,
                    old(self).plane_y as int,
                    TURN_COS as int,
                    TURN_SIN as int,
                    TURN_HYP as int,
                );
                let npy = rot_y_spec(
                    old(self).plane_x as int,
                    old(self).plane_y as int,
                    TURN_COS as int,
                    TURN_SIN as int,
                    TURN_HYP as int,
                );
                if norm2(ndx, ndy) <= norm2_cap() && norm2(npx, npy) <= norm2_cap() {
                    &&& final(self).dir_x == ndx
                    &&& final(self).dir_y == ndy
                    &&& final(self).plane_x == npx
                    &&& final(self).plane_y == npy
                } else {
                    *final(self) == *old(self)
                }
            }),
    {
        proof {
            assert(4488int * 4488 + 134int * 134 == 4490int * 4490) by (nonlinear_arith);
        }
        self.rotate(TURN_COS, TURN_SIN, TURN_HYP);
    }
}

/// Fixed-point displacement along one axis of a move at `speed` in the
/// direction `d`.
pub open spec fn move_delta_spec(d: int, speed: int) -> int {
    div_round_spec(d * speed, FP_ONE as int)
}

/// A candidate position is accepted exactly when both coordinates stay
/// inside the grid and the destination cell is empty.
pub open spec fn move_accepted(g: Seq<u8>, n: int, nx: int, ny: int) -> bool {
    &&& 0 <= nx < n * FP_ONE
    &&& 0 <= ny < n * FP_ONE
    &&& tile_spec(g, n, cell_of(nx), cell_of(ny)) == 0
}

impl Player {
    /// Attempts the displacement `(dx, dy)`: the move lands exactly on the
    /// candidate position if its cell is inside the grid and empty, and is
    /// rejected outright otherwise — no sliding, no partial movement.  A
    /// candidate with a negative coordinate is rejected.
    pub fn try_move(&mut self, g: &Grid, dx: i64, dy: i64)
        requires
            g.wf(),
            old(self).wf(g.dim()),
            -2 * FP_ONE <= dx <= 2 * FP_ONE,
            -2 * FP_ONE <= dy <= 2 * FP_ONE,
        ensures
            final(self).wf(g.dim()),
            final(self).dir_x == old(self).dir_x,
            final(self).dir_y == old(self).dir_y,
            final(self).plane_x == old(self).plane_x,
            final(self).plane_y == old(self).plane_y,
            ({
                let nx = old(self).pos_x + dx;
                let ny = old(self).pos_y + dy;
                if move_accepted(g.tiles(), g.dim(), nx, ny) {
                    final(self).pos_x == nx && final(self).pos_y == ny
                } else {
                    *final(self) == *old(self)
                }
            }),
            move_accepted(
                g.tiles(),
                g.dim(),
                old(self).pos_x + dx,
                old(self).pos_y + dy,
            ) ==> g.tile(cell_of(final(self).pos_x as int), cell_of(final(self).pos_y as int))
                == 0,
    {
        let n: usize = g.side();
        let nx: i64 = self.pos_x + dx;
        let ny: i64 = self.pos_y + dy;
        if nx >= 0 && ny >= 0 {
            proof {
                lemma_cell_range(nx as int, n as int);
                lemma_cell_range(ny as int, n as int);
            }
            let cx: i64 = nx / FP_ONE;
            let cy: i64 = ny / FP_ONE;
            if cx < n as i64 && cy < n as i64 {
                if g.tile_at(cx as usize, cy as usize) == 0 {
                    self.pos_x = nx;
                    self.pos_y = ny;
                }
            }
        }
    }

    /// Moves `speed` of a tile along the facing direction, subject to the
    /// collision check.
    pub fn move_forward(&mut self, g: &Grid, speed: i64)
        requires
            g.wf(),
            old(self).wf(g.dim()),
            0 <= speed <= FP_ONE,
        ensures
            final(self).wf(g.dim()),
            final(self).dir_x == old(self).dir_x,
            final(self).dir_y == old(self).dir_y,
            final(self).plane_x == old(self).plane_x,
            final(self).plane_y == old(self).plane_y,
            ({
                let nx = old(self).pos_x + move_delta_spec(old(self).dir_x as int, speed as int);
                let ny = old(self).pos_y + move_delta_spec(old(self).dir_y as int, speed as int);
                if move_accepted(g.tiles(), g.dim(), nx, ny) {
                    final(self).pos_x == nx && final(self).pos_y == ny
                } else {
                    *final(self) == *old(self)
                }
            }),
    {
        let dx: i64 = self.delta_component(self.dir_x, speed);
        let dy: i64 = self.delta_component(self.dir_y, speed);
        self.try_move(g, dx, dy);
    }

    /// Moves `speed` of a tile against the facing direction, subject to the
    /// collision check.
    pub fn move_backward(&mut self, g: &Grid, speed: i64)
        requires
            g.wf(),
            old(self).wf(g.dim()),
            0 <= speed <= FP_ONE,
        ensures
            final(self).wf(g.dim()),
            final(self).dir_x == old(self).dir_x,
            final(self).dir_y == old(self).dir_y,
            final(self).plane_x == old(self).plane_x,
            final(self).plane_y == old(self).plane_y,
            ({
                let nx = old(self).pos_x - move_delta_spec(old(self).dir_x as int, speed as int);
                let ny = old(self).pos_y - move_delta_spec(old(self).dir_y as int, speed as int);
                if move_accepted(g.tiles(), g.dim(), nx, ny) {
                    final(self).pos_x == nx && final(self).pos_y == ny
                } else {
                    *final(self) == *old(self)
                }
            }),
    {
        let dx: i64 = self.delta_component(self.dir_x, speed);
        let dy: i64 = self.delta_component(self.dir_y, speed);
        self.try_move(g, -dx, -dy);
    }

    /// One axis of the movement displacement: `d * speed`, rounded.
    fn delta_component(&self, d: i64, speed: i64) -> (r: i64)
        requires
            norm2(self.dir_x as int, self.dir_y as int) <= norm2_cap(),
            d == self.dir_x || d == self.dir_y,
            0 <= speed <= FP_ONE,
        ensures
            r == move_delta_spec(d as int, speed as int),
            -2 * FP_ONE <= r <= 2 * FP_ONE,
    {
        proof {
            lemma_cap_components(self.dir_x as int, self.dir_y as int);
            assert(-(2 * FP_ONE) * FP_ONE <= d * speed <= (2 * FP_ONE) * FP_ONE)
                by (nonlinear_arith)
                requires
                    abs_i(d as int) <= 2 * FP_ONE,
                    0 <= speed <= FP_ONE,
                    0 < FP_ONE,
                    abs_i(d as int) == if (d as int) < 0 { -(d as int) } else { d as int },
            ;
            lemma_div_round_le(d as int * speed as int, FP_ONE as int, 2 * FP_ONE);
        }
        div_round(d * speed, FP_ONE)
    }
}

/// Both components of a vector within the magnitude cap are at most two
/// tiles long.
pub proof fn lemma_cap_components(x: int, y: int)
    requires
        norm2(x, y) <= norm2_cap(),
    ensures
        abs_i(x) <= 2 * FP_ONE,
        abs_i(y) <= 2 * FP_ONE,
{
    assert(abs_i(x) <= 2 * FP_ONE && abs_i(y) <= 2 * FP_ONE) by (nonlinear_arith)
        requires
            x * x + y * y <= 4 * FP_ONE * FP_ONE,
            0 < FP_ONE,
            abs_i(x) == if x < 0 { -x } else { x },
            abs_i(y) == if y < 0 { -y } else { y },
    ;
}

/// Iterated rounded rotation of a vector by a sequence of rotation steps.
pub open spec fn rotate_seq_spec(x: int, y: int, rots: Seq<(int, int, int)>) -> (int, int)
    decreases rots.len(),
{
    if rots.len() == 0 {
        (x, y)
    } else {
        let r = rots[0];
        rotate_seq_spec(
            rot_x_spec(x, y, r.0, r.1, r.2),
            rot_y_spec(x, y, r.0, r.1, r.2),
            rots.drop_first(),
        )
    }
}

/// Over any sequence of rotation steps that starts far enough below the
/// magnitude cap, the squared magnitude of a vector drifts from its initial
/// value by at most `drift_step()` per step: there is no unbounded drift.
pub proof fn lemma_rotation_drift_seq(x: int, y: int, rots: Seq<(int, int, int)>)
    requires
        forall|i: int|
            0 <= i < rots.len() ==> rot_ok(#[trigger] rots[i].0, rots[i].1, rots[i].2),
        norm2(x, y) + drift_step() * rots.len() <= norm2_cap(),
        0 <= norm2(x, y),
    ensures
        abs_i(
            norm2(rotate_seq_spec(x, y, rots).0, rotate_seq_spec(x, y, rots).1) - norm2(x, y),
        ) <= drift_step() * rots.len(),
    decreases rots.len(),
{
    if rots.len() == 0 {
    } else {
        let r = rots[0];
        assert(rot_ok(r.0, r.1, r.2));
        lemma_rotation_drift(x, y, r.0, r.1, r.2);
        let x1 = rot_x_spec(x, y, r.0, r.1, r.2);
        let y1 = rot_y_spec(x, y, r.0, r.1, r.2);
        let rest = rots.drop_first();
        assert(forall|i: int|
            0 <= i < rest.len() ==> rot_ok(#[trigger] rest[i].0, rest[i].1, rest[i].2)) by {
            assert(forall|i: int| 0 <= i < rest.len() ==> rest[i] == rots[i + 1]);
        }
        assert(0 <= norm2(x1, y1)) by (nonlinear_arith)
            requires
                norm2(x1, y1) == x1 * x1 + y1 * y1,
        ;
        assert(drift_step() * rots.len() == drift_step() + drift_step() * (
        rest.len() as int)) by (nonlinear_arith)
            requires
                rest.len() == rots.len() - 1,
        ;
        lemma_rotation_drift_seq(x1, y1, rest);
    }
}

/// A vector with a component beyond `2 * FP_ONE` exceeds the magnitude cap.
proof fn lemma_component_exceeds_cap(x: int, y: int)
    ensures
        abs_i(x) > 2 * FP_ONE || abs_i(y) > 2 * FP_ONE ==> norm2(x, y) > norm2_cap(),
{
    assert(abs_i(x) > 2 * FP_ONE || abs_i(y) > 2 * FP_ONE ==> x * x + y * y > 4 * FP_ONE
        * FP_ONE) by (nonlinear_arith)
        requires
            0 < FP_ONE,
            abs_i(x) == if x < 0 { -x } else { x },
            abs_i(y) == if y < 0 { -y } else { y },
    ;
}

} // verus!
