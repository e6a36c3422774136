use vstd::prelude::*;

verus! {

/// One unit of length, angle or time in the fixed-point representation:
/// a stored integer `n` stands for the real number `n / UNIT`.
pub const UNIT: i64 = 1_000_000;

/// Largest magnitude of a coordinate or matrix entry that the operations accept.
pub const LIMIT: i64 = 1_000_000_000_000;

/// Segments whose determinant is below this magnitude (0.001 in squared
/// units) are treated as parallel.
pub const PARALLEL_EPSILON: i128 = 1_000_000_000;

/// Division that rounds toward zero, as Rust's `/` on integers does.
pub open spec fn div_trunc(n: int, d: int) -> int {
    if n >= 0 {
        n / d
    } else {
        -((-n) / d)
    }
}

/// Product of two fixed-point numbers.
pub open spec fn fx_mul(a: int, b: int) -> int {
    div_trunc(a * b, UNIT as int)
}

pub open spec fn in_limit(a: int) -> bool {
    -LIMIT <= a <= LIMIT
}

pub(crate) fn div_trunc_exec(n: i128, d: i128) -> (r: i128)
    requires
        d > 0,
        n > i128::MIN,
    ensures
        r == div_trunc(n as int, d as int),
        n >= 0 ==> 0 <= r <= n,
        n < 0 ==> n <= r <= 0,
{
    if n >= 0 {
        let q = n / d;
        assert(q <= n) by (nonlinear_arith)
            requires q == n / d, n >= 0, d > 0;
        q
    } else {
        let m: i128 = -n;
        let q = m / d;
        assert(q <= m) by (nonlinear_arith)
            requires q == m / d, m >= 0, d > 0;
        -q
    }
}

pub(crate) proof fn lemma_mul_bound(a: int, b: int, ma: int, mb: int)
    requires
        -ma <= a <= ma,
        -mb <= b <= mb,
    ensures
        -(ma * mb) <= a * b <= ma * mb,
{
    assert(-(ma * mb) <= a * b <= ma * mb) by (nonlinear_arith)
        requires -ma <= a <= ma, -mb <= b <= mb;
}

pub(crate) proof fn lemma_div_trunc_bound(n: int, d: int, m: int)
    requires
        d > 0,
        -m <= n <= m,
    ensures
        -(m / d) <= div_trunc(n, d) <= m / d,
{
    if n >= 0 {
        vstd::arithmetic::div_mod::lemma_div_is_ordered(n, m, d);
    } else {
        vstd::arithmetic::div_mod::lemma_div_is_ordered(-n, m, d);
    }
}

#[derive(Clone, Copy, Debug, PartialEq, Eq, Structural)]
pub struct Vec2 {
    pub x: i64,
    pub y: i64,
}

impl Vec2 {
    pub open spec fn in_limit(self) -> bool {
        in_limit(self.x as int) && in_limit(self.y as int)
    }

    pub fn new(x: i64, y: i64) -> (r: Vec2)
        ensures
            r.x == x,
            r.y == y,
    {
        Vec2 { x, y }
    }

    pub fn zero() -> (r: Vec2)
        ensures
            r.x == 0,
            r.y == 0,
    {
        Vec2 { x: 0, y: 0 }
    }

    pub fn add(self, rhs: Vec2) -> (r: Vec2)
        requires
            i64::MIN <= self.x + rhs.x <= i64::MAX,
            i64::MIN <= self.y + rhs.y <= i64::MAX,
        ensures
            r.x == self.x + rhs.x,
            r.y == self.y + rhs.y,
    {
        Vec2 { x: self.x + rhs.x, y: self.y + rhs.y }
    }

    pub fn sub(self, rhs: Vec2) -> (r: Vec2)
        requires
            i64::MIN <= self.x - rhs.x <= i64::MAX,
            i64::MIN <= self.y - rhs.y <= i64::MAX,
        ensures
            r.x == self.x - rhs.x,
            r.y == self.y - rhs.y,
    {
        Vec2 { x: self.x - rhs.x, y: self.y - rhs.y }
    }

    /// Multiplies both coordinates by the fixed-point scalar `k`.
    pub fn mul(self, k: i64) -> (r: Vec2)
        requires
            self.in_limit(),
            in_limit(k as int),
        ensures
            r.x == fx_mul(self.x as int, k as int),
            r.y == fx_mul(self.y as int, k as int),
    {
        Vec2 { x: fx_mul_exec(self.x, k), y: fx_mul_exec(self.y, k) }
    }
}

pub(crate) fn fx_mul_exec(a: i64, b: i64) -> (r: i64)
    requires
        in_limit(a as int),
        in_limit(b as int),
    ensures
        r == fx_mul(a as int, b as int),
        -1_000_000_000_000_000_000 <= r <= 1_000_000_000_000_000_000,
{
    proof {
        lemma_mul_bound(a as int, b as int, LIMIT as int, LIMIT as int);
    }
    let p: i128 = (a as i128) * (b as i128);
    let q = div_trunc_exec(p, UNIT as i128);
    proof {
        lemma_div_trunc_bound(p as int, UNIT as int, LIMIT * LIMIT);
    }
    q as i64
}

/// Numerator of the parameter along the first segment at the crossing of the
/// two lines (the standard determinant form, before division by `det`).
pub open spec fn t_num(a: (Vec2, Vec2), b: (Vec2, Vec2)) -> int {
    (a.0.x - b.0.x) * (b.0.y - b.1.y) - (a.0.y - b.0.y) * (b.0.x - b.1.x)
}

/// Numerator of the parameter along the second segment at the crossing.
pub open spec fn u_num(a: (Vec2, Vec2), b: (Vec2, Vec2)) -> int {
    (a.0.y - a.1.y) * (a.0.x - b.0.x) - (a.0.x - a.1.x) * (a.0.y - b.0.y)
}

/// Determinant of the two direction vectors; zero for parallel segments.
pub open spec fn det(a: (Vec2, Vec2), b: (Vec2, Vec2)) -> int {
    (a.0.x - a.1.x) * (b.0.y - b.1.y) - (a.0.y - a.1.y) * (b.0.x - b.1.x)
}

pub open spec fn abs(n: int) -> int {
    if n < 0 {
        -n
    } else {
        n
    }
}

/// `n / d` lies in the closed unit interval (with `d != 0`).
pub open spec fn ratio_in_unit(n: int, d: int) -> bool {
    if d > 0 {
        0 <= n <= d
    } else {
        d <= n <= 0
    }
}

/// The two segments are far from parallel and cross within both of them.
pub open spec fn segments_cross(a: (Vec2, Vec2), b: (Vec2, Vec2)) -> bool {
    abs(det(a, b)) >= PARALLEL_EPSILON && ratio_in_unit(t_num(a, b), det(a, b))
        && ratio_in_unit(u_num(a, b), det(a, b))
}

/// `v * n / d` rounded toward zero, with the sign of `d` moved onto `n`.
pub open spec fn scaled_ratio(v: int, n: int, d: int) -> int {
    if d > 0 {
        div_trunc(v * n, d)
    } else {
        div_trunc(v * (-n), -d)
    }
}

/// The crossing point, at parameter `t_num / det` along the first segment.
pub open spec fn crossing_x(a: (Vec2, Vec2), b: (Vec2, Vec2)) -> int {
    a.0.x + scaled_ratio(a.1.x - a.0.x, t_num(a, b), det(a, b))
}

pub open spec fn crossing_y(a: (Vec2, Vec2), b: (Vec2, Vec2)) -> int {
    a.0.y + scaled_ratio(a.1.y - a.0.y, t_num(a, b), det(a, b))
}

pub open spec fn segment_in_limit(s: (Vec2, Vec2)) -> bool {
    s.0.in_limit() && s.1.in_limit()
}

proof fn lemma_mul_swap(x: int, y: int, z: int)
    ensures
        x * (y * z) == y * (x * z),
{
    assert(x * (y * z) == y * (x * z)) by (nonlinear_arith);
}

proof fn lemma_div_trunc_close(n: int, d: int)
    requires
        d > 0,
    ensures
        -d < d * div_trunc(n, d) - n < d,
{
    if n >= 0 {
        vstd::arithmetic::div_mod::lemma_fundamental_div_mod(n, d);
        vstd::arithmetic::div_mod::lemma_mod_bound(n, d);
        assert(d * div_trunc(n, d) == d * (n / d));
    } else {
        let m = -n;
        vstd::arithmetic::div_mod::lemma_fundamental_div_mod(m, d);
        vstd::arithmetic::div_mod::lemma_mod_bound(m, d);
        let q = m / d;
        assert(div_trunc(n, d) == -q);
        assert(d * (-q) == -(d * q)) by (nonlinear_arith);
    }
}

proof fn lemma_frac_bound(v: int, t: int, d: int)
    requires
        d > 0,
        0 <= t <= d,
    ensures
        abs(div_trunc(v * t, d)) <= abs(v),
{
    if v >= 0 {
        vstd::arithmetic::mul::lemma_mul_inequality(t, d, v);
        assert(v * t <= v * d) by (nonlinear_arith)
            requires t * v <= d * v;
        assert(0 <= v * t) by (nonlinear_arith)
            requires v >= 0, t >= 0;
        vstd::arithmetic::div_mod::lemma_div_is_ordered(v * t, v * d, d);
        vstd::arithmetic::div_mod::lemma_div_by_multiple(v, d);
        vstd::arithmetic::div_mod::lemma_div_pos_is_pos(v * t, d);
    } else {
        let w = -v;
        vstd::arithmetic::mul::lemma_mul_inequality(t, d, w);
        assert(v * t == -(w * t)) by (nonlinear_arith)
            requires w == -v;
        assert(w * t <= w * d) by (nonlinear_arith)
            requires t * w <= d * w;
        assert(0 <= w * t) by (nonlinear_arith)
            requires w >= 0, t >= 0;
        vstd::arithmetic::div_mod::lemma_div_is_ordered(w * t, w * d, d);
        vstd::arithmetic::div_mod::lemma_div_by_multiple(w, d);
        vstd::arithmetic::div_mod::lemma_div_pos_is_pos(w * t, d);
    }
}

/// Where two segments cross: the point, when the segments are not (close to)
/// parallel and the crossing lies within both of them; `None` otherwise.
pub fn line_line_intersection(a: (Vec2, Vec2), b: (Vec2, Vec2)) -> (r: Option<Vec2>)
    requires
        segment_in_limit(a),
        segment_in_limit(b),
    ensures
        r.is_some() == segments_cross(a, b),
        r.is_some() ==> r.unwrap().x == crossing_x(a, b) && r.unwrap().y == crossing_y(a, b),
{
    let (p1, p2) = a;
    let (p3, p4) = b;
    let (x1, y1, x2, y2) = (p1.x as i128, p1.y as i128, p2.x as i128, p2.y as i128);
    let (x3, y3, x4, y4) = (p3.x as i128, p3.y as i128, p4.x as i128, p4.y as i128);
    proof {
        lemma_mul_bound(x1 - x3, y3 - y4, 2_000_000_000_000, 2_000_000_000_000);
        lemma_mul_bound(y1 - y3, x3 - x4, 2_000_000_000_000, 2_000_000_000_000);
        lemma_mul_bound(y1 - y2, x1 - x3, 2_000_000_000_000, 2_000_000_000_000);
        lemma_mul_bound(x1 - x2, y1 - y3, 2_000_000_000_000, 2_000_000_000_000);
        lemma_mul_bound(x1 - x2, y3 - y4, 2_000_000_000_000, 2_000_000_000_000);
        lemma_mul_bound(y1 - y2, x3 - x4, 2_000_000_000_000, 2_000_000_000_000);
    }
    let mut t = (x1 - x3) * (y3 - y4) - (y1 - y3) * (x3 - x4);
    let mut u = (y1 - y2) * (x1 - x3) - (x1 - x2) * (y1 - y3);
    let mut d = (x1 - x2) * (y3 - y4) - (y1 - y2) * (x3 - x4);
    if -PARALLEL_EPSILON < d && d < PARALLEL_EPSILON {
        return None;
    }
    if d < 0 {
        t = -t;
        u = -u;
        d = -d;
    }
    if t < 0 || t > d || u < 0 || u > d {
        return None;
    }
    let dx = x2 - x1;
    let dy = y2 - y1;
    proof {
        lemma_mul_bound(dx as int, t as int, 2_000_000_000_000, 8_000_000_000_000_000_000_000_000);
        lemma_mul_bound(dy as int, t as int, 2_000_000_000_000, 8_000_000_000_000_000_000_000_000);
        lemma_frac_bound(dx as int, t as int, d as int);
        lemma_frac_bound(dy as int, t as int, d as int);
    }
    let ox = div_trunc_exec(dx * t, d);
    let oy = div_trunc_exec(dy * t, d);
    Some(Vec2 { x: (x1 + ox) as i64, y: (y1 + oy) as i64 })
}

/// Whenever two segments cross, the exact crossing point lies on both of
/// them: it is `a.0 + t * (a.1 - a.0)` and `b.0 + u * (b.1 - b.0)` for
/// parameters `t`, `u` in the unit interval (scaled here by `det`), and the
/// returned point is that crossing rounded by less than one unit per axis.
pub proof fn lemma_crossing_on_both_segments(a: (Vec2, Vec2), b: (Vec2, Vec2))
    requires
        segments_cross(a, b),
    ensures
        ratio_in_unit(t_num(a, b), det(a, b)),
        ratio_in_unit(u_num(a, b), det(a, b)),
        det(a, b) * a.0.x + (a.1.x - a.0.x) * t_num(a, b) == det(a, b) * b.0.x + (b.1.x - b.0.x)
            * u_num(a, b),
        det(a, b) * a.0.y + (a.1.y - a.0.y) * t_num(a, b) == det(a, b) * b.0.y + (b.1.y - b.0.y)
            * u_num(a, b),
        abs(det(a, b) * (crossing_x(a, b) - a.0.x) - (a.1.x - a.0.x) * t_num(a, b)) < abs(
            det(a, b),
        ),
        abs(det(a, b) * (crossing_y(a, b) - a.0.y) - (a.1.y - a.0.y) * t_num(a, b)) < abs(
            det(a, b),
        ),
{
    let (x1, y1, x2, y2) = (a.0.x as int, a.0.y as int, a.1.x as int, a.1.y as int);
    let (x3, y3, x4, y4) = (b.0.x as int, b.0.y as int, b.1.x as int, b.1.y as int);
    let t = t_num(a, b);
    let u = u_num(a, b);
    let d = det(a, b);
    let (pa, pb, pp, pq, pr, ps) = (x1 - x3, y1 - y3, x1 - x2, y1 - y2, x3 - x4, y3 - y4);
    assert(pp * t == pp * (pa * ps) - pp * (pb * pr)) by (nonlinear_arith)
        requires t == pa * ps - pb * pr;
    assert(pr * u == pr * (pq * pa) - pr * (pp * pb)) by (nonlinear_arith)
        requires u == pq * pa - pp * pb;
    assert(pa * d == pa * (pp * ps) - pa * (pq * pr)) by (nonlinear_arith)
        requires d == pp * ps - pq * pr;
    lemma_mul_swap(pp, pa, ps);
    lemma_mul_swap(pp, pb, pr);
    lemma_mul_swap(pr, pq, pa);
    assert(pp * (pb * pr) == pr * (pp * pb)) by (nonlinear_arith);
    assert(pr * (pq * pa) == pa * (pq * pr)) by (nonlinear_arith);
    assert(pp * t - pr * u == pa * d);
    assert(pq * t == pq * (pa * ps) - pq * (pb * pr)) by (nonlinear_arith)
        requires t == pa * ps - pb * pr;
    assert(ps * u == ps * (pq * pa) - ps * (pp * pb)) by (nonlinear_arith)
        requires u == pq * pa - pp * pb;
    assert(pb * d == pb * (pp * ps) - pb * (pq * pr)) by (nonlinear_arith)
        requires d == pp * ps - pq * pr;
    assert(pq * (pa * ps) == ps * (pq * pa)) by (nonlinear_arith);
    assert(pq * (pb * pr) == pb * (pq * pr)) by (nonlinear_arith);
    assert(ps * (pp * pb) == pb * (pp * ps)) by (nonlinear_arith);
    assert(pq * t - ps * u == pb * d);
    assert((x2 - x1) * t == -(pp * t)) by (nonlinear_arith)
        requires pp == x1 - x2;
    assert((x4 - x3) * u == -(pr * u)) by (nonlinear_arith)
        requires pr == x3 - x4;
    assert((y2 - y1) * t == -(pq * t)) by (nonlinear_arith)
        requires pq == y1 - y2;
    assert((y4 - y3) * u == -(ps * u)) by (nonlinear_arith)
        requires ps == y3 - y4;
    assert(d * x1 - d * x3 == pa * d) by (nonlinear_arith)
        requires pa == x1 - x3;
    assert(d * y1 - d * y3 == pb * d) by (nonlinear_arith)
        requires pb == y1 - y3;
    if d > 0 {
        lemma_div_trunc_close((x2 - x1) * t, d);
        lemma_div_trunc_close((y2 - y1) * t, d);
    } else {
        lemma_div_trunc_close((x2 - x1) * (-t), -d);
        lemma_div_trunc_close((y2 - y1) * (-t), -d);
        assert((x2 - x1) * (-t) == -((x2 - x1) * t)) by (nonlinear_arith);
        assert((y2 - y1) * (-t) == -((y2 - y1) * t)) by (nonlinear_arith);
        assert(d * scaled_ratio(x2 - x1, t, d) == -((-d) * scaled_ratio(x2 - x1, t, d))) by (nonlinear_arith);
        assert(d * scaled_ratio(y2 - y1, t, d) == -((-d) * scaled_ratio(y2 - y1, t, d))) by (nonlinear_arith);
    }
}

/// A 2D affine transform in homogeneous form, entries in fixed point, row by
/// row: `mRC` is the entry of row `R` and column `C`.
#[derive(Clone, Copy, Debug, PartialEq, Eq, Structural)]
pub struct Mat3 {
    pub m00: i64,
    pub m01: i64,
    pub m02: i64,
    pub m10: i64,
    pub m11: i64,
    pub m12: i64,
    pub m20: i64,
    pub m21: i64,
    pub m22: i64,
}

impl Mat3 {
    pub open spec fn at(self, i: int, j: int) -> int {
        if i == 0 {
            if j == 0 { self.m00 as int } else if j == 1 { self.m01 as int } else { self.m02 as int }
        } else if i == 1 {
            if j == 0 { self.m10 as int } else if j == 1 { self.m11 as int } else { self.m12 as int }
        } else {
            if j == 0 { self.m20 as int } else if j == 1 { self.m21 as int } else { self.m22 as int }
        }
    }

    pub open spec fn in_limit(self) -> bool {
        forall|i: int, j: int| 0 <= i < 3 && 0 <= j < 3 ==> in_limit(#[trigger] self.at(i, j))
    }

    /// Entry `(i, j)` of the fixed-point product `a * b`.
    pub open spec fn product_at(a: Mat3, b: Mat3, i: int, j: int) -> int {
        div_trunc(a.at(i, 0) * b.at(0, j) + a.at(i, 1) * b.at(1, j) + a.at(i, 2) * b.at(2, j), UNIT as int)
    }

    fn from_rows(r0: [i64; 3], r1: [i64; 3], r2: [i64; 3]) -> (r: Mat3)
        ensures
            r.m00 == r0[0] && r.m01 == r0[1] && r.m02 == r0[2],
            r.m10 == r1[0] && r.m11 == r1[1] && r.m12 == r1[2],
            r.m20 == r2[0] && r.m21 == r2[1] && r.m22 == r2[2],
    {
        Mat3 {
            m00: r0[0], m01: r0[1], m02: r0[2],
            m10: r1[0], m11: r1[1], m12: r1[2],
            m20: r2[0], m21: r2[1], m22: r2[2],
        }
    }

    pub fn zero() -> (r: Mat3)
        ensures
            forall|i: int, j: int| 0 <= i < 3 && 0 <= j < 3 ==> #[trigger] r.at(i, j) == 0,
    {
        Mat3::from_rows([0, 0, 0], [0, 0, 0], [0, 0, 0])
    }

    pub fn identity() -> (r: Mat3)
        ensures
            forall|i: int, j: int|
                0 <= i < 3 && 0 <= j < 3 ==> #[trigger] r.at(i, j) == if i == j { UNIT as int } else { 0 },
    {
        Mat3::from_rows([UNIT, 0, 0], [0, UNIT, 0], [0, 0, UNIT])
    }

    pub fn get(&self, i: usize, j: usize) -> (r: i64)
        requires
            i < 3,
            j < 3,
        ensures
            r == self.at(i as int, j as int),
    {
        if i == 0 {
            if j == 0 { self.m00 } else if j == 1 { self.m01 } else { self.m02 }
        } else if i == 1 {
            if j == 0 { self.m10 } else if j == 1 { self.m11 } else { self.m12 }
        } else {
            if j == 0 { self.m20 } else if j == 1 { self.m21 } else { self.m22 }
        }
    }

    pub fn translate(t: Vec2) -> (r: Mat3)
        ensures
            r == Mat3::from_entries(UNIT as int, 0, t.x as int, 0, UNIT as int, t.y as int),
    {
        Mat3::from_rows([UNIT, 0, t.x], [0, UNIT, t.y], [0, 0, UNIT])
    }

    /// An affine matrix from its top two rows.
    pub open spec fn from_entries(a: int, b: int, c: int, d: int, e: int, f: int) -> Mat3 {
        Mat3 {
            m00: a as i64, m01: b as i64, m02: c as i64,
            m10: d as i64, m11: e as i64, m12: f as i64,
            m20: 0, m21: 0, m22: UNIT,
        }
    }

    /// The rotation whose cosine and sine are `rot.x` and `rot.y`.
    pub fn rotate(rot: Vec2) -> (r: Mat3)
        requires
            rot.in_limit(),
        ensures
            r == Mat3::from_entries(rot.x as int, -rot.y, 0, rot.y as int, rot.x as int, 0),
    {
        Mat3::from_rows([rot.x, -rot.y, 0], [rot.y, rot.x, 0], [0, 0, UNIT])
    }

    /// Non-uniform scaling along the axes; a valid homogeneous matrix.
    pub fn scale(s: Vec2) -> (r: Mat3)
        ensures
            r == Mat3::from_entries(s.x as int, 0, 0, 0, s.y as int, 0),
    {
        Mat3::from_rows([s.x, 0, 0], [0, s.y, 0], [0, 0, UNIT])
    }

    /// Scaling by `s`, then rotation by `rot` (cosine, sine), then translation by `t`.
    pub fn affine(t: Vec2, rot: Vec2, s: Vec2) -> (r: Mat3)
        requires
            t.in_limit(),
            rot.in_limit(),
            s.in_limit(),
        ensures
            r == Mat3::from_entries(
                fx_mul(s.x as int, rot.x as int),
                -fx_mul(s.y as int, rot.y as int),
                t.x as int,
                fx_mul(s.x as int, rot.y as int),
                fx_mul(s.y as int, rot.x as int),
                t.y as int,
            ),
    {
        let c0 = fx_mul_exec(s.x, rot.x);
        let c1 = fx_mul_exec(s.y, rot.y);
        let c2 = fx_mul_exec(s.x, rot.y);
        let c3 = fx_mul_exec(s.y, rot.x);
        Mat3::from_rows([c0, -c1, t.x], [c2, c3, t.y], [0, 0, UNIT])
    }

    fn product_entry(a: &Mat3, b: &Mat3, i: usize, j: usize) -> (r: i64)
        requires
            a.in_limit(),
            b.in_limit(),
            i < 3,
            j < 3,
        ensures
            r == Mat3::product_at(*a, *b, i as int, j as int),
    {
        let (x0, x1, x2) = (a.get(i, 0) as i128, a.get(i, 1) as i128, a.get(i, 2) as i128);
        let (y0, y1, y2) = (b.get(0, j) as i128, b.get(1, j) as i128, b.get(2, j) as i128);
        assert(in_limit(a.at(i as int, 0)) && in_limit(a.at(i as int, 1)) && in_limit(a.at(i as int, 2)));
        assert(in_limit(b.at(0, j as int)) && in_limit(b.at(1, j as int)) && in_limit(b.at(2, j as int)));
        proof {
            lemma_mul_bound(x0 as int, y0 as int, LIMIT as int, LIMIT as int);
            lemma_mul_bound(x1 as int, y1 as int, LIMIT as int, LIMIT as int);
            lemma_mul_bound(x2 as int, y2 as int, LIMIT as int, LIMIT as int);
        }
        let sum = x0 * y0 + x1 * y1 + x2 * y2;
        let q = div_trunc_exec(sum, UNIT as i128);
        proof {
            lemma_div_trunc_bound(sum as int, UNIT as int, 3 * LIMIT * LIMIT);
        }
        q as i64
    }

    /// The composition `self * rhs` (apply `rhs` first), as a true 3x3 product.
    pub fn mul(&self, rhs: &Mat3) -> (r: Mat3)
        requires
            self.in_limit(),
            rhs.in_limit(),
        ensures
            forall|i: int, j: int|
                0 <= i < 3 && 0 <= j < 3 ==> #[trigger] r.at(i, j) == Mat3::product_at(*self, *rhs, i, j),
    {
        let r = Mat3::from_rows(
            [Mat3::product_entry(self, rhs, 0, 0), Mat3::product_entry(self, rhs, 0, 1), Mat3::product_entry(self, rhs, 0, 2)],
            [Mat3::product_entry(self, rhs, 1, 0), Mat3::product_entry(self, rhs, 1, 1), Mat3::product_entry(self, rhs, 1, 2)],
            [Mat3::product_entry(self, rhs, 2, 0), Mat3::product_entry(self, rhs, 2, 1), Mat3::product_entry(self, rhs, 2, 2)],
        );
        r
    }

    /// Transforms the point `v` (homogeneous coordinate 1); the last row is not used.
    pub fn mul_vec(&self, v: Vec2) -> (r: Vec2)
        requires
            self.in_limit(),
            v.in_limit(),
        ensures
            r.x == Mat3::apply_x(*self, v),
            r.y == Mat3::apply_y(*self, v),
    {
        assert(in_limit(self.at(0, 0)) && in_limit(self.at(0, 1)) && in_limit(self.at(0, 2)));
        assert(in_limit(self.at(1, 0)) && in_limit(self.at(1, 1)) && in_limit(self.at(1, 2)));
        proof {
            lemma_mul_bound(self.m00 as int, v.x as int, LIMIT as int, LIMIT as int);
            lemma_mul_bound(self.m01 as int, v.y as int, LIMIT as int, LIMIT as int);
            lemma_mul_bound(self.m10 as int, v.x as int, LIMIT as int, LIMIT as int);
            lemma_mul_bound(self.m11 as int, v.y as int, LIMIT as int, LIMIT as int);
        }
        let sx = (self.m00 as i128) * (v.x as i128) + (self.m01 as i128) * (v.y as i128);
        let sy = (self.m10 as i128) * (v.x as i128) + (self.m11 as i128) * (v.y as i128);
        let qx = div_trunc_exec(sx, UNIT as i128);
        let qy = div_trunc_exec(sy, UNIT as i128);
        proof {
            lemma_div_trunc_bound(sx as int, UNIT as int, 2 * LIMIT * LIMIT);
            lemma_div_trunc_bound(sy as int, UNIT as int, 2 * LIMIT * LIMIT);
        }
        Vec2 { x: (qx + self.m02 as i128) as i64, y: (qy + self.m12 as i128) as i64 }
    }

    pub open spec fn apply_x(m: Mat3, v: Vec2) -> int {
        div_trunc(m.m00 * v.x + m.m01 * v.y, UNIT as int) + m.m02
    }

    pub open spec fn apply_y(m: Mat3, v: Vec2) -> int {
        div_trunc(m.m10 * v.x + m.m11 * v.y, UNIT as int) + m.m12
    }
}

/// On one axis, both ends of one segment (`a0`, `a1`) lie strictly below
/// both ends of the other (`b0`, `b1`).
pub open spec fn before(a0: int, a1: int, b0: int, b1: int) -> bool {
    a0 < b0 && a0 < b1 && a1 < b0 && a1 < b1
}

/// The bounding boxes of the two segments are apart along some axis.
pub open spec fn boxes_apart(a: (Vec2, Vec2), b: (Vec2, Vec2)) -> bool {
    before(a.0.x as int, a.1.x as int, b.0.x as int, b.1.x as int)
        || before(b.0.x as int, b.1.x as int, a.0.x as int, a.1.x as int)
        || before(a.0.y as int, a.1.y as int, b.0.y as int, b.1.y as int)
        || before(b.0.y as int, b.1.y as int, a.0.y as int, a.1.y as int)
}

/// A point at parameter `t / d` along a segment whose ends lie below both
/// ends of another stays below any point along that other segment.
proof fn lemma_points_apart(x1: int, x2: int, x3: int, x4: int, d: int, t: int, u: int)
    requires
        before(x1, x2, x3, x4),
        d > 0,
        0 <= t <= d,
        0 <= u <= d,
    ensures
        d * x1 + (x2 - x1) * t < d * x3 + (x4 - x3) * u,
{
    let m = if x1 < x2 { x2 } else { x1 };
    let n = if x3 < x4 { x3 } else { x4 };
    assert(d * x1 + (x2 - x1) * t == (d - t) * x1 + t * x2) by (nonlinear_arith);
    assert(d * x3 + (x4 - x3) * u == (d - u) * x3 + u * x4) by (nonlinear_arith);
    assert((d - t) * x1 <= (d - t) * m) by (nonlinear_arith)
        requires d - t >= 0, x1 <= m;
    assert(t * x2 <= t * m) by (nonlinear_arith)
        requires t >= 0, x2 <= m;
    assert((d - u) * x3 >= (d - u) * n) by (nonlinear_arith)
        requires d - u >= 0, x3 >= n;
    assert(u * x4 >= u * n) by (nonlinear_arith)
        requires u >= 0, x4 >= n;
    assert((d - t) * m + t * m == d * m) by (nonlinear_arith);
    assert((d - u) * n + u * n == d * n) by (nonlinear_arith);
    assert(d * m < d * n) by (nonlinear_arith)
        requires d > 0, m < n;
}

/// Segments whose bounding boxes are apart along an axis never intersect.
pub proof fn lemma_apart_segments_do_not_cross(a: (Vec2, Vec2), b: (Vec2, Vec2))
    requires
        boxes_apart(a, b),
    ensures
        !segments_cross(a, b),
{
    if segments_cross(a, b) {
        lemma_crossing_on_both_segments(a, b);
        let (t, u, d) = (t_num(a, b), u_num(a, b), det(a, b));
        let (x1, y1, x2, y2) = (a.0.x as int, a.0.y as int, a.1.x as int, a.1.y as int);
        let (x3, y3, x4, y4) = (b.0.x as int, b.0.y as int, b.1.x as int, b.1.y as int);
        let (dd, tt, uu) = if d > 0 { (d, t, u) } else { (-d, -t, -u) };
        assert(dd * x1 + (x2 - x1) * tt == dd * x3 + (x4 - x3) * uu) by (nonlinear_arith)
            requires
                d * x1 + (x2 - x1) * t == d * x3 + (x4 - x3) * u,
                (dd == d && tt == t && uu == u) || (dd == -d && tt == -t && uu == -u),
        ;
        assert(dd * y1 + (y2 - y1) * tt == dd * y3 + (y4 - y3) * uu) by (nonlinear_arith)
            requires
                d * y1 + (y2 - y1) * t == d * y3 + (y4 - y3) * u,
                (dd == d && tt == t && uu == u) || (dd == -d && tt == -t && uu == -u),
        ;
        if before(x1, x2, x3, x4) {
            lemma_points_apart(x1, x2, x3, x4, dd, tt, uu);
        } else if before(x3, x4, x1, x2) {
            lemma_points_apart(x3, x4, x1, x2, dd, uu, tt);
        } else if before(y1, y2, y3, y4) {
            lemma_points_apart(y1, y2, y3, y4, dd, tt, uu);
        } else {
            lemma_points_apart(y3, y4, y1, y2, dd, uu, tt);
        }
    }
}

} // verus!
