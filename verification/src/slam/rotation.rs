//! Rotation between two orientation samples.
use crate::imu::{is_last_before, ImuSample, ImuState};
use vstd::arithmetic::mul::lemma_mul_is_associative;
use vstd::prelude::*;

verus! {

/// A quaternion in whole counts; its scale does not matter.
#[derive(Debug, Clone, Copy, PartialEq, Eq, Structural)]
pub struct RawQuat {
    pub w: i64,
    pub x: i64,
    pub y: i64,
    pub z: i64,
}

/// The sample's quaternion times the conjugate of an earlier one: the rotation
/// from the earlier orientation to the later, up to scale.
pub open spec fn is_turn(p: ImuSample, c: ImuSample, q: RawQuat) -> bool {
    let a = c.fusion;
    let b = p.fusion;
    &&& q.w == a.w * b.w + a.x * b.x + a.y * b.y + a.z * b.z
    &&& q.x == -(a.w * b.x) + a.x * b.w - a.y * b.z + a.z * b.y
    &&& q.y == -(a.w * b.y) + a.x * b.z + a.y * b.w - a.z * b.x
    &&& q.z == -(a.w * b.z) - a.x * b.y + a.y * b.x + a.z * b.w
}

fn times(a: i16, b: i16) -> (r: i64)
    ensures
        r == a * b,
        -0x4000_0000 <= r <= 0x4000_0000,
{
    assert(-0x4000_0000 <= a * b <= 0x4000_0000) by (nonlinear_arith)
        requires
            -0x8000 <= a <= 0x7fff,
            -0x8000 <= b <= 0x7fff,
    ;
    a as i64 * b as i64
}

/// Rotation from one sample to another; none if they are the same fusion frame,
/// because the sensor has not refreshed in between.
pub fn delta_rotation(prev: &ImuSample, curr: &ImuSample) -> (r: Option<RawQuat>)
    ensures
        match r {
            Some(q) => prev.sample_index != curr.sample_index && is_turn(*prev, *curr, q),
            None => prev.sample_index == curr.sample_index,
        },
{
    if prev.sample_index == curr.sample_index {
        return None;
    }
    let a = curr.fusion;
    let b = prev.fusion;
    Some(
        RawQuat {
            w: times(a.w, b.w) + times(a.x, b.x) + times(a.y, b.y) + times(a.z, b.z),
            x: -times(a.w, b.x) + times(a.x, b.w) - times(a.y, b.z) + times(a.z, b.y),
            y: -times(a.w, b.y) + times(a.x, b.z) + times(a.y, b.w) - times(a.z, b.x),
            z: -times(a.w, b.z) - times(a.x, b.y) + times(a.y, b.x) + times(a.z, b.w),
        },
    )
}

/// Rotation between two camera captures, from the latest sample at or before
/// each; none if there is no sample for one of them, or the same for both.
pub fn rotation_between(imu: &ImuState, t_prev_us: u64, t_curr_us: u64) -> (r: Option<RawQuat>)
    ensures
        match r {
            Some(q) => exists|i: int, j: int|
                {
                    &&& #[trigger] is_last_before(imu.ring@, t_prev_us, i)
                    &&& #[trigger] is_last_before(imu.ring@, t_curr_us, j)
                    &&& imu.ring@[i].sample_index != imu.ring@[j].sample_index
                    &&& is_turn(imu.ring@[i], imu.ring@[j], q)
                },
            None => {
                ||| forall|i: int|
                    0 <= i < imu.ring@.len() ==> (#[trigger] imu.ring@[i]).t_read_us > t_prev_us
                ||| forall|i: int|
                    0 <= i < imu.ring@.len() ==> (#[trigger] imu.ring@[i]).t_read_us > t_curr_us
                ||| exists|i: int, j: int|
                    {
                        &&& #[trigger] is_last_before(imu.ring@, t_prev_us, i)
                        &&& #[trigger] is_last_before(imu.ring@, t_curr_us, j)
                        &&& imu.ring@[i].sample_index == imu.ring@[j].sample_index
                    }
            },
        },
{
    match (imu.latest_before(t_prev_us), imu.latest_before(t_curr_us)) {
        (Some(p), Some(c)) => {
            assert(exists|i: int| #[trigger] is_last_before(imu.ring@, t_prev_us, i) && p
                == imu.ring@[i]);
            assert(exists|j: int| #[trigger] is_last_before(imu.ring@, t_curr_us, j) && c
                == imu.ring@[j]);
            delta_rotation(&p, &c)
        },
        _ => None,
    }
}

/// Two frames with the same orientation have no rotation between them: only the
/// scalar part is left.
pub proof fn law_same_orientation_is_identity(p: ImuSample, c: ImuSample, q: RawQuat)
    requires
        p.fusion == c.fusion,
        is_turn(p, c, q),
    ensures
        q.x == 0 && q.y == 0 && q.z == 0,
        q.w >= 0,
{
    let a = c.fusion;
    assert(a.w * a.w >= 0 && a.x * a.x >= 0 && a.y * a.y >= 0 && a.z * a.z >= 0)
        by (nonlinear_arith);
    assert(a.w * a.x == a.x * a.w && a.y * a.z == a.z * a.y && a.w * a.y == a.y * a.w && a.x * a.z
        == a.z * a.x && a.w * a.z == a.z * a.w && a.x * a.y == a.y * a.x) by (nonlinear_arith);
}

/// The rotation back is the conjugate of the rotation there.
pub proof fn law_reverse_is_conjugate(p: ImuSample, c: ImuSample, q: RawQuat, back: RawQuat)
    requires
        is_turn(p, c, q),
        is_turn(c, p, back),
    ensures
        back.w == q.w,
        back.x == -q.x,
        back.y == -q.y,
        back.z == -q.z,
{
    let a = c.fusion;
    let b = p.fusion;
    lemma_commute(a.w as int, b.w as int);
    lemma_commute(a.x as int, b.x as int);
    lemma_commute(a.y as int, b.y as int);
    lemma_commute(a.z as int, b.z as int);
    lemma_commute(a.w as int, b.x as int);
    lemma_commute(a.x as int, b.w as int);
    lemma_commute(a.y as int, b.z as int);
    lemma_commute(a.z as int, b.y as int);
    lemma_commute(a.w as int, b.y as int);
    lemma_commute(a.x as int, b.z as int);
    lemma_commute(a.y as int, b.w as int);
    lemma_commute(a.z as int, b.x as int);
    lemma_commute(a.w as int, b.z as int);
    lemma_commute(a.x as int, b.y as int);
    lemma_commute(a.y as int, b.x as int);
    lemma_commute(a.z as int, b.w as int);
}

proof fn lemma_commute(a: int, b: int)
    ensures
        a * b == b * a,
{
    assert(a * b == b * a) by (nonlinear_arith);
}

/// Expands a product of a sum of four products with a number.
proof fn lemma_expand(a: int, b: int, c: int, d: int, e: int, f: int, g: int, h: int, m: int)
    ensures
        (a * b + c * d + e * f + g * h) * m == a * (b * m) + c * (d * m) + e * (f * m) + g * (h * m),
{
    lemma_sum_times(a * b, c * d, e * f, g * h, m);
    lemma_mul_is_associative(a, b, m);
    lemma_mul_is_associative(c, d, m);
    lemma_mul_is_associative(e, f, m);
    lemma_mul_is_associative(g, h, m);
}

proof fn lemma_sum_times(a: int, b: int, c: int, d: int, m: int)
    ensures
        (a + b + c + d) * m == a * m + b * m + c * m + d * m,
{
    assert((a + b + c + d) * m == a * m + b * m + c * m + d * m) by (nonlinear_arith);
}

/// One component of a product with the squared length: the diagonal terms stay, and the
/// mixed ones cancel.
proof fn lemma_length_times(a: int, w: int, x: int, y: int, z: int)
    ensures
        a * (w * w) + a * (x * x) + a * (y * y) + a * (z * z) == a * (w * w + x * x + y * y + z * z),
{
    assert(a * (w * w) + a * (x * x) + a * (y * y) + a * (z * z) == a * (w * w + x * x + y * y + z
        * z)) by (nonlinear_arith);
}

/// The rotation leads from the earlier orientation to the later one: applied to the
/// earlier quaternion (Hamilton product, rotation on the left) it gives the later one,
/// times the squared length of the earlier.
pub proof fn law_turn_leads_to_the_later_orientation(p: ImuSample, c: ImuSample, q: RawQuat)
    requires
        is_turn(p, c, q),
    ensures
        ({
            let b = p.fusion;
            let n = b.w * b.w + b.x * b.x + b.y * b.y + b.z * b.z;
            &&& q.w * b.w - q.x * b.x - q.y * b.y - q.z * b.z == c.fusion.w * n
            &&& q.w * b.x + q.x * b.w + q.y * b.z - q.z * b.y == c.fusion.x * n
            &&& q.w * b.y - q.x * b.z + q.y * b.w + q.z * b.x == c.fusion.y * n
            &&& q.w * b.z + q.x * b.y - q.y * b.x + q.z * b.w == c.fusion.z * n
        }),
{
    let (aw, ax, ay, az) = (
        c.fusion.w as int,
        c.fusion.x as int,
        c.fusion.y as int,
        c.fusion.z as int,
    );
    let (bw, bx, by, bz) = (
        p.fusion.w as int,
        p.fusion.x as int,
        p.fusion.y as int,
        p.fusion.z as int,
    );
    let (qw, qx, qy, qz) = (q.w as int, q.x as int, q.y as int, q.z as int);
    let n = bw * bw + bx * bx + by * by + bz * bz;
    lemma_turn_back(aw, ax, ay, az, bw, bx, by, bz, qw, qx, qy, qz, n);
}

proof fn lemma_turn_back(
    aw: int,
    ax: int,
    ay: int,
    az: int,
    bw: int,
    bx: int,
    by: int,
    bz: int,
    qw: int,
    qx: int,
    qy: int,
    qz: int,
    n: int,
)
    requires
        qw == aw * bw + ax * bx + ay * by + az * bz,
        qx == -(aw * bx) + ax * bw - ay * bz + az * by,
        qy == -(aw * by) + ax * bz + ay * bw - az * bx,
        qz == -(aw * bz) - ax * by + ay * bx + az * bw,
        n == bw * bw + bx * bx + by * by + bz * bz,
    ensures
        qw * bw - qx * bx - qy * by - qz * bz == aw * n,
        qw * bx + qx * bw + qy * bz - qz * by == ax * n,
        qw * by - qx * bz + qy * bw + qz * bx == ay * n,
        qw * bz + qx * by - qy * bx + qz * bw == az * n,
{
    assert(qx == aw * (-bx) + ax * bw + ay * (-bz) + az * by) by (nonlinear_arith)
        requires
            qx == -(aw * bx) + ax * bw - ay * bz + az * by,
    ;
    assert(qy == aw * (-by) + ax * bz + ay * bw + az * (-bx)) by (nonlinear_arith)
        requires
            qy == -(aw * by) + ax * bz + ay * bw - az * bx,
    ;
    assert(qz == aw * (-bz) + ax * (-by) + ay * bx + az * bw) by (nonlinear_arith)
        requires
            qz == -(aw * bz) - ax * by + ay * bx + az * bw,
    ;
    lemma_component(aw, ax, ay, az, bw, bx, by, bz, qw, qx, qy, qz, n);
}

proof fn lemma_component(
    aw: int,
    ax: int,
    ay: int,
    az: int,
    bw: int,
    bx: int,
    by: int,
    bz: int,
    qw: int,
    qx: int,
    qy: int,
    qz: int,
    n: int,
)
    requires
        qw == aw * bw + ax * bx + ay * by + az * bz,
        qx == aw * (-bx) + ax * bw + ay * (-bz) + az * by,
        qy == aw * (-by) + ax * bz + ay * bw + az * (-bx),
        qz == aw * (-bz) + ax * (-by) + ay * bx + az * bw,
        n == bw * bw + bx * bx + by * by + bz * bz,
    ensures
        qw * bw - qx * bx - qy * by - qz * bz == aw * n,
        qw * bx + qx * bw + qy * bz - qz * by == ax * n,
        qw * by - qx * bz + qy * bw + qz * bx == ay * n,
        qw * bz + qx * by - qy * bx + qz * bw == az * n,
{
    lemma_expand(aw, bw, ax, bx, ay, by, az, bz, bw);
    lemma_expand(aw, bw, ax, bx, ay, by, az, bz, bx);
    lemma_expand(aw, bw, ax, bx, ay, by, az, bz, by);
    lemma_expand(aw, bw, ax, bx, ay, by, az, bz, bz);
    lemma_expand(aw, -bx, ax, bw, ay, -bz, az, by, bw);
    lemma_expand(aw, -bx, ax, bw, ay, -bz, az, by, bx);
    lemma_expand(aw, -bx, ax, bw, ay, -bz, az, by, by);
    lemma_expand(aw, -bx, ax, bw, ay, -bz, az, by, bz);
    lemma_expand(aw, -by, ax, bz, ay, bw, az, -bx, bw);
    lemma_expand(aw, -by, ax, bz, ay, bw, az, -bx, bx);
    lemma_expand(aw, -by, ax, bz, ay, bw, az, -bx, by);
    lemma_expand(aw, -by, ax, bz, ay, bw, az, -bx, bz);
    lemma_expand(aw, -bz, ax, -by, ay, bx, az, bw, bw);
    lemma_expand(aw, -bz, ax, -by, ay, bx, az, bw, bx);
    lemma_expand(aw, -bz, ax, -by, ay, bx, az, bw, by);
    lemma_expand(aw, -bz, ax, -by, ay, bx, az, bw, bz);
    lemma_negated(bw, bx);
    lemma_negated(bw, by);
    lemma_negated(bw, bz);
    lemma_negated(bx, by);
    lemma_negated(bx, bz);
    lemma_negated(by, bz);
    lemma_negated(bx, bx);
    lemma_negated(by, by);
    lemma_negated(bz, bz);
    lemma_spread(aw, bw, bx, by, bz);
    lemma_spread(ax, bw, bx, by, bz);
    lemma_spread(ay, bw, bx, by, bz);
    lemma_spread(az, bw, bx, by, bz);
    lemma_length_times(aw, bw, bx, by, bz);
    lemma_length_times(ax, bw, bx, by, bz);
    lemma_length_times(ay, bw, bx, by, bz);
    lemma_length_times(az, bw, bx, by, bz);
}

proof fn lemma_negated(a: int, b: int)
    ensures
        (-a) * b == -(a * b),
        a * (-b) == -(a * b),
        (-b) * a == -(a * b),
        b * (-a) == -(a * b),
        b * a == a * b,
{
    assert((-a) * b == -(a * b) && a * (-b) == -(a * b) && (-b) * a == -(a * b) && b * (-a) == -(a
        * b) && b * a == a * b) by (nonlinear_arith);
}

/// A negated product taken out of a product.
proof fn lemma_spread(a: int, w: int, x: int, y: int, z: int)
    ensures
        a * (-(w * x)) == -(a * (w * x)),
        a * (-(w * y)) == -(a * (w * y)),
        a * (-(w * z)) == -(a * (w * z)),
        a * (-(x * y)) == -(a * (x * y)),
        a * (-(x * z)) == -(a * (x * z)),
        a * (-(y * z)) == -(a * (y * z)),
        a * (-(x * x)) == -(a * (x * x)),
        a * (-(y * y)) == -(a * (y * y)),
        a * (-(z * z)) == -(a * (z * z)),
{
    lemma_negated(a, w * x);
    lemma_negated(a, w * y);
    lemma_negated(a, w * z);
    lemma_negated(a, x * y);
    lemma_negated(a, x * z);
    lemma_negated(a, y * z);
    lemma_negated(a, x * x);
    lemma_negated(a, y * y);
    lemma_negated(a, z * z);
}

/// Lengths multiply: the squared length of the rotation is that of the earlier
/// quaternion times that of the later.
pub proof fn law_turn_length(p: ImuSample, c: ImuSample, q: RawQuat)
    requires
        is_turn(p, c, q),
    ensures
        q.w * q.w + q.x * q.x + q.y * q.y + q.z * q.z == (p.fusion.w * p.fusion.w + p.fusion.x
            * p.fusion.x + p.fusion.y * p.fusion.y + p.fusion.z * p.fusion.z) * (c.fusion.w
            * c.fusion.w + c.fusion.x * c.fusion.x + c.fusion.y * c.fusion.y + c.fusion.z
            * c.fusion.z),
{
    let (aw, ax, ay, az) = (
        c.fusion.w as int,
        c.fusion.x as int,
        c.fusion.y as int,
        c.fusion.z as int,
    );
    let (bw, bx, by, bz) = (
        p.fusion.w as int,
        p.fusion.x as int,
        p.fusion.y as int,
        p.fusion.z as int,
    );
    let (qw, qx, qy, qz) = (q.w as int, q.x as int, q.y as int, q.z as int);
    let n = bw * bw + bx * bx + by * by + bz * bz;
    law_turn_leads_to_the_later_orientation(p, c, q);
    // The later quaternion in terms of the rotation, weighed with itself.
    assert(qw * (aw * bw + ax * bx + ay * by + az * bz) + qx * (-(aw * bx) + ax * bw - ay * bz + az
        * by) + qy * (-(aw * by) + ax * bz + ay * bw - az * bx) + qz * (-(aw * bz) - ax * by + ay
        * bx + az * bw) == aw * (qw * bw - qx * bx - qy * by - qz * bz) + ax * (qw * bx + qx * bw
        + qy * bz - qz * by) + ay * (qw * by - qx * bz + qy * bw + qz * bx) + az * (qw * bz + qx
        * by - qy * bx + qz * bw)) by {
        lemma_weigh(qw, aw, bw, ax, bx, ay, by, az, bz);
        lemma_weigh(qx, aw, -bx, ax, bw, ay, -bz, az, by);
        lemma_weigh(qy, aw, -by, ax, bz, ay, bw, az, -bx);
        lemma_weigh(qz, aw, -bz, ax, -by, ay, bx, az, bw);
        lemma_weigh(aw, qw, bw, qx, -bx, qy, -by, qz, -bz);
        lemma_weigh(ax, qw, bx, qx, bw, qy, bz, qz, -by);
        lemma_weigh(ay, qw, by, qx, -bz, qy, bw, qz, bx);
        lemma_weigh(az, qw, bz, qx, by, qy, -bx, qz, bw);
        lemma_negated(aw, bx);
        lemma_negated(ay, bz);
        lemma_negated(aw, by);
        lemma_negated(az, bx);
        lemma_negated(aw, bz);
        lemma_negated(ax, by);
        lemma_negated(qx, bx);
        lemma_negated(qy, by);
        lemma_negated(qz, bz);
        lemma_negated(qz, by);
        lemma_negated(qx, bz);
        lemma_negated(qy, bx);
        lemma_commute(qw, aw);
        lemma_commute(qw, ax);
        lemma_commute(qw, ay);
        lemma_commute(qw, az);
        lemma_commute(qx, aw);
        lemma_commute(qx, ax);
        lemma_commute(qx, ay);
        lemma_commute(qx, az);
        lemma_commute(qy, aw);
        lemma_commute(qy, ax);
        lemma_commute(qy, ay);
        lemma_commute(qy, az);
        lemma_commute(qz, aw);
        lemma_commute(qz, ax);
        lemma_commute(qz, ay);
        lemma_commute(qz, az);
    }
    lemma_sum_times(aw * aw, ax * ax, ay * ay, az * az, n);
    lemma_mul_is_associative(aw, aw, n);
    lemma_mul_is_associative(ax, ax, n);
    lemma_mul_is_associative(ay, ay, n);
    lemma_mul_is_associative(az, az, n);
    lemma_commute(n, aw * aw + ax * ax + ay * ay + az * az);
}

/// Weighs a sum of four products.
proof fn lemma_weigh(k: int, a: int, b: int, c: int, d: int, e: int, f: int, g: int, h: int)
    ensures
        k * (a * b + c * d + e * f + g * h) == (k * a) * b + (k * c) * d + (k * e) * f + (k * g) * h,
{
    lemma_sum_times(a * b, c * d, e * f, g * h, k);
    lemma_commute(a * b + c * d + e * f + g * h, k);
    lemma_commute(a * b, k);
    lemma_commute(c * d, k);
    lemma_commute(e * f, k);
    lemma_commute(g * h, k);
    lemma_mul_is_associative(k, a, b);
    lemma_mul_is_associative(k, c, d);
    lemma_mul_is_associative(k, e, f);
    lemma_mul_is_associative(k, g, h);
}

/// The sample before an instant is the newest of those read by then.
pub proof fn law_last_before_is_newest(ring: Seq<ImuSample>, at: u64, i: int, j: int)
    requires
        is_last_before(ring, at, i),
        0 <= j < ring.len(),
    ensures
        0 <= i < ring.len(),
        ring[i].t_read_us <= at,
        ring[j].t_read_us <= at ==> j <= i,
{
}

} // verus!
