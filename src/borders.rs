use crate::game_maths::{fx_mul, fx_mul_exec, in_limit, line_line_intersection, segment_in_limit, segments_cross, Vec2, LIMIT, UNIT};
use vstd::prelude::*;

verus! {

/// Largest magnitude of a radius, ring gap or jitter.
pub const RADIUS_LIMIT: i64 = 250_000_000_000;

/// The point at distance `r` along the unit direction `d`.
pub open spec fn ring_point(d: Vec2, r: int) -> Vec2 {
    Vec2 { x: fx_mul(d.x as int, r) as i64, y: fx_mul(d.y as int, r) as i64 }
}

/// A closed ring: vertex `i` lies along `dirs[i]` at `radius + offs[i]`, and
/// the first vertex is repeated at the end.
pub open spec fn ring(dirs: Seq<Vec2>, offs: Seq<i64>, radius: int) -> Seq<Vec2> {
    Seq::new(
        dirs.len() + 1,
        |i: int|
            if i < dirs.len() {
                ring_point(dirs[i], radius + offs[i])
            } else {
                ring_point(dirs[0], radius + offs[0])
            },
    )
}

pub open spec fn unit_bounded(v: Vec2) -> bool {
    -UNIT <= v.x <= UNIT && -UNIT <= v.y <= UNIT
}

/// Some edge of the closed polyline `ring` crosses the segment `l`.
pub open spec fn hits_ring(ring: Seq<Vec2>, l: (Vec2, Vec2)) -> bool {
    exists|k: int| 0 <= k < ring.len() - 1 && #[trigger] segments_cross((ring[k], ring[k + 1]), l)
}

/// Some segment of `lines` crosses some edge of `ring`.
pub open spec fn any_hit(ring: Seq<Vec2>, lines: Seq<(Vec2, Vec2)>) -> bool {
    exists|i: int| 0 <= i < lines.len() && #[trigger] hits_ring(ring, lines[i])
}

pub open spec fn all_in_limit(s: Seq<Vec2>) -> bool {
    forall|i: int| 0 <= i < s.len() ==> (#[trigger] s[i]).in_limit()
}

/// The arena: an inner and an outer closed ring.
pub struct Border {
    inner: Vec<Vec2>,
    outer: Vec<Vec2>,
}

/// Relies on rand::random::<u32>: one value from the thread-local generator.
#[verifier::external_body]
fn random_u32() -> (r: u32) {
    rand::random::<u32>()
}

impl Border {
    pub closed spec fn inner_ring(&self) -> Seq<Vec2> {
        self.inner@
    }

    pub closed spec fn outer_ring(&self) -> Seq<Vec2> {
        self.outer@
    }

    pub open spec fn wf(&self) -> bool {
        self.inner_ring().len() >= 2 && all_in_limit(self.inner_ring()) && all_in_limit(self.outer_ring())
    }

    /// Builds both rings from unit directions and one radius offset per
    /// direction, shared by the two rings, which stay `offset` apart.
    pub fn from_jitters(directions: &Vec<Vec2>, jitters: &Vec<i64>, radius: i64, offset: i64) -> (r: Border)
        requires
            directions@.len() >= 3,
            jitters@.len() == directions@.len(),
            forall|i: int| 0 <= i < directions@.len() ==> unit_bounded(#[trigger] directions@[i]),
            forall|i: int| 0 <= i < jitters@.len() ==> -RADIUS_LIMIT <= #[trigger] jitters@[i] <= RADIUS_LIMIT,
            -RADIUS_LIMIT <= radius <= RADIUS_LIMIT,
            -RADIUS_LIMIT <= offset <= RADIUS_LIMIT,
        ensures
            r.inner_ring() == ring(directions@, jitters@, radius as int),
            r.outer_ring() == ring(directions@, jitters@, radius + offset),
            r.wf(),
    {
        let n = directions.len();
        let mut inner: Vec<Vec2> = Vec::new();
        let mut outer: Vec<Vec2> = Vec::new();
        let ghost want_in = ring(directions@, jitters@, radius as int);
        let ghost want_out = ring(directions@, jitters@, radius + offset);
        let mut i: usize = 0;
        while i < n
            invariant
                n == directions@.len(),
                n >= 3,
                jitters@.len() == n,
                forall|i: int| 0 <= i < directions@.len() ==> unit_bounded(#[trigger] directions@[i]),
                forall|i: int| 0 <= i < jitters@.len() ==> -RADIUS_LIMIT <= #[trigger] jitters@[i] <= RADIUS_LIMIT,
                -RADIUS_LIMIT <= radius <= RADIUS_LIMIT,
                -RADIUS_LIMIT <= offset <= RADIUS_LIMIT,
                i <= n,
                want_in == ring(directions@, jitters@, radius as int),
                want_out == ring(directions@, jitters@, radius + offset),
                inner@ =~= want_in.take(i as int),
                outer@ =~= want_out.take(i as int),
                all_in_limit(inner@),
                all_in_limit(outer@),
            decreases n - i,
        {
            let d = directions[i];
            let j = jitters[i];
            let x0 = fx_mul_exec(d.x, radius + j);
            let y0 = fx_mul_exec(d.y, radius + j);
            let x1 = fx_mul_exec(d.x, radius + offset + j);
            let y1 = fx_mul_exec(d.y, radius + offset + j);
            proof {
                lemma_unit_scaled(d.x as int, radius + j);
                lemma_unit_scaled(d.y as int, radius + j);
                lemma_unit_scaled(d.x as int, radius + offset + j);
                lemma_unit_scaled(d.y as int, radius + offset + j);
            }
            inner.push(Vec2 { x: x0, y: y0 });
            outer.push(Vec2 { x: x1, y: y1 });
            i = i + 1;
        }
        let first_in = inner[0];
        let first_out = outer[0];
        inner.push(first_in);
        outer.push(first_out);
        assert(inner@ =~= want_in);
        assert(outer@ =~= want_out);
        Border { inner, outer }
    }

    /// Builds the arena around the given unit directions with radius
    /// `radius`, ring gap `offset`, and a random offset in `[0, rand_jitter)`
    /// drawn for each direction and applied to both rings.
    pub fn new(directions: &Vec<Vec2>, radius: i64, offset: i64, rand_jitter: i64) -> (r: Border)
        requires
            directions@.len() >= 3,
            forall|i: int| 0 <= i < directions@.len() ==> unit_bounded(#[trigger] directions@[i]),
            -RADIUS_LIMIT <= radius <= RADIUS_LIMIT,
            -RADIUS_LIMIT <= offset <= RADIUS_LIMIT,
            0 <= rand_jitter <= RADIUS_LIMIT,
        ensures
            exists|js: Seq<i64>|
                js.len() == directions@.len()
                && (forall|i: int| 0 <= i < js.len() ==> jitter_drawn(#[trigger] js[i] as int, rand_jitter as int))
                && r.inner_ring() == ring(directions@, js, radius as int)
                && r.outer_ring() == ring(directions@, js, radius + offset),
            r.wf(),
    {
        let n = directions.len();
        let mut jitters: Vec<i64> = Vec::new();
        let mut i: usize = 0;
        while i < n
            invariant
                n == directions@.len(),
                0 <= rand_jitter <= RADIUS_LIMIT,
                i <= n,
                jitters@.len() == i,
                forall|k: int| 0 <= k < jitters@.len() ==> jitter_drawn(#[trigger] jitters@[k] as int, rand_jitter as int),
            decreases n - i,
        {
            let sample = random_u32() as i128;
            proof {
                crate::game_maths::lemma_mul_bound(sample as int, rand_jitter as int, 4_294_967_296, RADIUS_LIMIT as int);
            }
            let scaled = sample * (rand_jitter as i128);
            let j = scaled / 4_294_967_296;
            assert(0 <= j && (rand_jitter == 0 ==> j == 0) && (rand_jitter > 0 ==> j < rand_jitter)) by (nonlinear_arith)
                requires
                    0 <= sample < 4_294_967_296,
                    0 <= rand_jitter,
                    scaled == sample * rand_jitter,
                    j == scaled / 4_294_967_296,
            ;
            jitters.push(j as i64);
            i = i + 1;
        }
        let r = Border::from_jitters(directions, &jitters, radius, offset);
        assert(forall|i: int| 0 <= i < jitters@.len() ==> jitter_drawn(#[trigger] jitters@[i] as int, rand_jitter as int));
        r
    }

    /// Whether any of `lines` crosses an edge of the inner ring.
    pub fn check_collision(&self, lines: &[(Vec2, Vec2)]) -> (r: bool)
        requires
            self.wf(),
            forall|i: int| 0 <= i < lines@.len() ==> segment_in_limit(#[trigger] lines@[i]),
        ensures
            r == any_hit(self.inner_ring(), lines@),
    {
        let ghost ring = self.inner_ring();
        let mut i: usize = 0;
        while i < lines.len()
            invariant
                self.wf(),
                ring == self.inner@,
                forall|i: int| 0 <= i < lines@.len() ==> segment_in_limit(#[trigger] lines@[i]),
                i <= lines@.len(),
                forall|m: int| 0 <= m < i ==> !#[trigger] hits_ring(ring, lines@[m]),
            decreases lines@.len() - i,
        {
            let l = lines[i];
            let n = self.inner.len();
            let mut k: usize = 0;
            while k + 1 < n
                invariant
                    self.wf(),
                    ring == self.inner@,
                    n == ring.len(),
                    n >= 2,
                    i < lines@.len(),
                    segment_in_limit(l),
                    l == lines@[i as int],
                    k < n,
                    forall|m: int| 0 <= m < k ==> !#[trigger] segments_cross((ring[m], ring[m + 1]), l),
                decreases self.inner@.len() - k,
            {
                assert(ring[k as int].in_limit() && ring[k as int + 1].in_limit());
                if line_line_intersection((self.inner[k], self.inner[k + 1]), l).is_some() {
                    assert(segments_cross((ring[k as int], ring[k as int + 1]), l));
                    assert(hits_ring(ring, lines@[i as int]));
                    return true;
                }
                k = k + 1;
            }
            i = i + 1;
        }
        false
    }

    pub fn inner(&self) -> (r: &Vec<Vec2>)
        ensures
            r@ == self.inner_ring(),
    {
        &self.inner
    }

    pub fn outer(&self) -> (r: &Vec<Vec2>)
        ensures
            r@ == self.outer_ring(),
    {
        &self.outer
    }
}

/// `j` is a possible jitter for the bound `bound`: zero when the bound is
/// zero, else within `[0, bound)`.
pub open spec fn jitter_drawn(j: int, bound: int) -> bool {
    0 <= j && (bound == 0 ==> j == 0) && (bound > 0 ==> j < bound)
}

/// With a jitter bound of zero every drawn jitter is zero, so the rings are
/// exact: vertex `i` of the inner ring lies along `dirs[i]` at `radius`, the
/// same vertex of the outer ring at `radius + offset`, and both rings close
/// on their first vertex.
pub proof fn lemma_zero_jitter_rings(dirs: Seq<Vec2>, js: Seq<i64>, radius: int, offset: int)
    requires
        dirs.len() >= 1,
        js.len() == dirs.len(),
        forall|i: int| 0 <= i < js.len() ==> jitter_drawn(#[trigger] js[i] as int, 0),
    ensures
        forall|i: int|
            0 <= i < dirs.len() ==> #[trigger] ring(dirs, js, radius)[i] == ring_point(dirs[i], radius)
                && ring(dirs, js, radius + offset)[i] == ring_point(dirs[i], radius + offset),
        ring(dirs, js, radius)[dirs.len() as int] == ring_point(dirs[0], radius),
        ring(dirs, js, radius + offset)[dirs.len() as int] == ring_point(dirs[0], radius + offset),
{
    assert(js[0] == 0);
}

proof fn lemma_unit_scaled(u: int, r: int)
    requires
        -UNIT <= u <= UNIT,
        -LIMIT <= r <= LIMIT,
    ensures
        in_limit(fx_mul(u, r)),
{
    crate::game_maths::lemma_mul_bound(u, r, UNIT as int, LIMIT as int);
    crate::game_maths::lemma_div_trunc_bound(u * r, UNIT as int, UNIT * LIMIT);
    assert((UNIT * LIMIT) / (UNIT as int) == LIMIT) by (nonlinear_arith);
}

} // verus!
