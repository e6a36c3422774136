use crate::borders::{any_hit, unit_bounded, Border};
use crate::game_maths::{
    div_trunc, fx_mul, fx_mul_exec, lemma_div_trunc_bound, lemma_mul_bound, segment_in_limit, segments_cross,
    Mat3, Vec2, UNIT,
};
use vstd::prelude::*;

verus! {

/// Largest magnitude of a heading, in fixed-point radians.
pub const HEADING_LIMIT: i64 = 1_000_000_000_000_000;

/// Largest magnitude of a car coordinate after a tick.
pub const POS_LIMIT: i64 = 500_000_000_000;

/// The four corners of the car's outline, one pair per point.
pub type Outline = (Vec2, Vec2, Vec2, Vec2);

/// What a car is: its position, heading angle and the heading's (cosine,
/// sine), its smoothed speed and steering, and whether it has crashed.
#[derive(Clone, Copy)]
pub struct CarState {
    pub pos: Vec2,
    pub dir: i64,
    pub rot: Vec2,
    pub speed: i64,
    pub steering: i64,
    pub crashed: bool,
}

/// Corner `i` of the car in its own frame: half-width 1, half-length 2.
pub open spec fn base_corner(i: int) -> Vec2 {
    if i == 0 {
        Vec2 { x: 1_000_000, y: 2_000_000 }
    } else if i == 1 {
        Vec2 { x: 1_000_000, y: -2_000_000i64 }
    } else if i == 2 {
        Vec2 { x: -1_000_000i64, y: -2_000_000i64 }
    } else {
        Vec2 { x: -1_000_000i64, y: 2_000_000 }
    }
}

/// The transform from the car's frame to the world: rotation by `rot`,
/// unit scale, translation by `pos`.
pub open spec fn car_transform(pos: Vec2, rot: Vec2) -> Mat3 {
    Mat3::from_entries(
        fx_mul(UNIT as int, rot.x as int),
        -fx_mul(UNIT as int, rot.y as int),
        pos.x as int,
        fx_mul(UNIT as int, rot.y as int),
        fx_mul(UNIT as int, rot.x as int),
        pos.y as int,
    )
}

pub open spec fn place(pos: Vec2, rot: Vec2, v: Vec2) -> Vec2 {
    Vec2 {
        x: Mat3::apply_x(car_transform(pos, rot), v) as i64,
        y: Mat3::apply_y(car_transform(pos, rot), v) as i64,
    }
}

/// The car's outline in the world.
pub open spec fn car_outline(pos: Vec2, rot: Vec2) -> Outline {
    (
        place(pos, rot, base_corner(0)),
        place(pos, rot, base_corner(1)),
        place(pos, rot, base_corner(2)),
        place(pos, rot, base_corner(3)),
    )
}

/// The path of each corner during a tick: from its new place to its old one.
pub open spec fn movement(new: Outline, old: Outline) -> Seq<(Vec2, Vec2)> {
    seq![(new.0, old.0), (new.1, old.1), (new.2, old.2), (new.3, old.3)]
}

/// The state after the control step: smoothed speed and steering, and the
/// heading turned by steering times speed.
pub open spec fn steered(c: CarState, throttle: int, steering: int) -> CarState {
    let speed = div_trunc(c.speed * 50 + div_trunc(throttle, 2), 51);
    let steer = div_trunc(c.steering * 10 + steering, 11);
    CarState {
        speed: speed as i64,
        steering: steer as i64,
        dir: (c.dir + fx_mul(steer, speed)) as i64,
        ..c
    }
}

/// The state after moving by the current speed along the heading whose
/// (cosine, sine) is `rot`; forward is the heading turned by a quarter turn.
pub open spec fn moved(c: CarState, rot: Vec2) -> CarState {
    CarState {
        pos: Vec2 {
            x: (c.pos.x + fx_mul(-rot.y, c.speed as int)) as i64,
            y: (c.pos.y + fx_mul(rot.x as int, c.speed as int)) as i64,
        },
        rot,
        ..c
    }
}

pub open spec fn pos_bounded(v: Vec2, bound: int) -> bool {
    -bound <= v.x <= bound && -bound <= v.y <= bound
}

pub open spec fn state_wf(c: CarState) -> bool {
    pos_bounded(c.pos, POS_LIMIT as int) && unit_bounded(c.rot) && -HEADING_LIMIT <= c.dir <= HEADING_LIMIT
        && -UNIT / 2 <= c.speed <= UNIT / 2 && -UNIT <= c.steering <= UNIT
}

/// A car: its state and its outline, kept in step with position and heading.
pub struct Car {
    state: CarState,
    outline: Outline,
}

impl View for Car {
    type V = CarState;

    closed spec fn view(&self) -> CarState {
        self.state
    }
}

/// The car's corner `v` placed in the world, through the affine transform.
fn place_exec(pos: Vec2, rot: Vec2, v: Vec2) -> (r: Vec2)
    requires
        pos_bounded(pos, POS_LIMIT + UNIT),
        unit_bounded(rot),
        -UNIT <= v.x <= UNIT,
        -2 * UNIT <= v.y <= 2 * UNIT,
    ensures
        r == place(pos, rot, v),
        r.in_limit(),
{
    let m = Mat3::affine(pos, rot, Vec2::new(UNIT, UNIT));
    proof {
        lemma_unit_entry(rot.x as int);
        lemma_unit_entry(rot.y as int);
        assert(m.in_limit());
        lemma_mul_bound(m.m00 as int, v.x as int, UNIT as int, UNIT as int);
        lemma_mul_bound(m.m01 as int, v.y as int, UNIT as int, 2 * UNIT);
        lemma_mul_bound(m.m10 as int, v.x as int, UNIT as int, UNIT as int);
        lemma_mul_bound(m.m11 as int, v.y as int, UNIT as int, 2 * UNIT);
        lemma_div_trunc_bound(m.m00 * v.x + m.m01 * v.y, UNIT as int, 3 * UNIT * UNIT);
        lemma_div_trunc_bound(m.m10 * v.x + m.m11 * v.y, UNIT as int, 3 * UNIT * UNIT);
    }
    m.mul_vec(v)
}

proof fn lemma_unit_entry(c: int)
    requires
        -UNIT <= c <= UNIT,
    ensures
        -UNIT <= fx_mul(UNIT as int, c) <= UNIT,
{
    lemma_mul_bound(UNIT as int, c, UNIT as int, UNIT as int);
    lemma_div_trunc_bound(UNIT * c, UNIT as int, UNIT * UNIT);
}

fn outline_exec(pos: Vec2, rot: Vec2) -> (r: Outline)
    requires
        pos_bounded(pos, POS_LIMIT + UNIT),
        unit_bounded(rot),
    ensures
        r == car_outline(pos, rot),
        r.0.in_limit() && r.1.in_limit() && r.2.in_limit() && r.3.in_limit(),
{
    (
        place_exec(pos, rot, Vec2::new(UNIT, 2 * UNIT)),
        place_exec(pos, rot, Vec2::new(UNIT, -2 * UNIT)),
        place_exec(pos, rot, Vec2::new(-UNIT, -2 * UNIT)),
        place_exec(pos, rot, Vec2::new(-UNIT, 2 * UNIT)),
    )
}

pub open spec fn outline_in_limit(o: Outline) -> bool {
    o.0.in_limit() && o.1.in_limit() && o.2.in_limit() && o.3.in_limit()
}

impl Car {
    pub closed spec fn outline_of(&self) -> Outline {
        self.outline
    }

    pub open spec fn wf(&self) -> bool {
        state_wf(self@) && self.outline_of() == car_outline(self@.pos, self@.rot) && outline_in_limit(
            self.outline_of(),
        )
    }

    /// A car at rest at `pos`, with heading `dir` whose (cosine, sine) is `rot`.
    pub fn new(pos: Vec2, dir: i64, rot: Vec2) -> (r: Car)
        requires
            pos_bounded(pos, POS_LIMIT as int),
            unit_bounded(rot),
            -HEADING_LIMIT <= dir <= HEADING_LIMIT,
        ensures
            r@ == (CarState { pos, dir, rot, speed: 0, steering: 0, crashed: false }),
            r.wf(),
    {
        let outline = outline_exec(pos, rot);
        Car { state: CarState { pos, dir, rot, speed: 0, steering: 0, crashed: false }, outline }
    }

    /// The control step of a tick: smooths speed toward half the throttle
    /// and steering toward the input, and turns the heading by steering times
    /// speed. Returns the new heading. A crashed car does not change.
    pub fn steer(&mut self, throttle: i64, steering: i64) -> (heading: i64)
        requires
            old(self).wf(),
            -(HEADING_LIMIT - UNIT) <= old(self)@.dir <= HEADING_LIMIT - UNIT,
            -UNIT <= throttle <= UNIT,
            -UNIT <= steering <= UNIT,
        ensures
            final(self).wf(),
            old(self)@.crashed ==> final(self)@ == old(self)@,
            !old(self)@.crashed ==> final(self)@ == steered(old(self)@, throttle as int, steering as int),
            heading == final(self)@.dir,
            final(self).outline_of() == old(self).outline_of(),
    {
        if self.state.crashed {
            return self.state.dir;
        }
        let c = self.state;
        let target = throttle / 2;
        assert(target == div_trunc(throttle as int, 2));
        let sp = c.speed as i128 * 50 + target as i128;
        let speed = crate::game_maths::div_trunc_exec(sp, 51) as i64;
        let st = c.steering as i128 * 10 + steering as i128;
        let steer = crate::game_maths::div_trunc_exec(st, 11) as i64;
        assert(-UNIT / 2 <= speed <= UNIT / 2) by {
            lemma_div_trunc_bound(sp as int, 51, 51 * (UNIT / 2));
        }
        assert(-UNIT <= steer <= UNIT) by {
            lemma_div_trunc_bound(st as int, 11, 11 * UNIT);
        }
        let turn = fx_mul_exec(steer, speed);
        assert(-UNIT / 2 <= turn <= UNIT / 2) by {
            lemma_mul_bound(steer as int, speed as int, UNIT as int, UNIT / 2);
            lemma_div_trunc_bound(steer * speed, UNIT as int, UNIT * (UNIT / 2));
        }
        let dir = c.dir + turn;
        self.state = CarState { speed, steering: steer, dir, ..c };
        dir
    }

    /// The motion step of a tick: moves the car by its speed along the
    /// heading whose (cosine, sine) is `rot`, and marks it crashed when the
    /// path of a corner crosses the inner ring of `border`. A crashed car
    /// does not change.
    pub fn update(&mut self, rot: Vec2, border: &Border)
        requires
            old(self).wf(),
            pos_bounded(old(self)@.pos, (POS_LIMIT - UNIT) as int),
            unit_bounded(rot),
            border.wf(),
        ensures
            final(self).wf(),
            old(self)@.crashed ==> final(self)@ == old(self)@ && final(self).outline_of()
                == old(self).outline_of(),
            !old(self)@.crashed ==> final(self)@ == (CarState {
                crashed: any_hit(
                    border.inner_ring(),
                    movement(final(self).outline_of(), old(self).outline_of()),
                ),
                ..moved(old(self)@, rot)
            }),
    {
        if self.state.crashed {
            return;
        }
        let c = self.state;
        let old_outline = self.outline;
        let dx = fx_mul_exec(-rot.y, c.speed);
        let dy = fx_mul_exec(rot.x, c.speed);
        assert(-UNIT / 2 <= dx <= UNIT / 2 && -UNIT / 2 <= dy <= UNIT / 2) by {
            lemma_mul_bound(-rot.y, c.speed as int, UNIT as int, UNIT / 2);
            lemma_mul_bound(rot.x as int, c.speed as int, UNIT as int, UNIT / 2);
            lemma_div_trunc_bound(-rot.y * c.speed, UNIT as int, UNIT * (UNIT / 2));
            lemma_div_trunc_bound(rot.x * c.speed, UNIT as int, UNIT * (UNIT / 2));
        }
        let pos = Vec2 { x: c.pos.x + dx, y: c.pos.y + dy };
        let outline = outline_exec(pos, rot);
        let mut paths: Vec<(Vec2, Vec2)> = Vec::new();
        paths.push((outline.0, old_outline.0));
        paths.push((outline.1, old_outline.1));
        paths.push((outline.2, old_outline.2));
        paths.push((outline.3, old_outline.3));
        assert(paths@ =~= movement(outline, old_outline));
        assert forall|i: int| 0 <= i < paths@.len() implies segment_in_limit(#[trigger] paths@[i]) by {}
        let crashed = border.check_collision(paths.as_slice());
        self.state = CarState { pos, rot, crashed, ..c };
        self.outline = outline;
    }

    pub fn position(&self) -> (r: Vec2)
        ensures
            r == self@.pos,
    {
        self.state.pos
    }

    pub fn heading(&self) -> (r: i64)
        ensures
            r == self@.dir,
    {
        self.state.dir
    }

    pub fn is_crashed(&self) -> (r: bool)
        ensures
            r == self@.crashed,
    {
        self.state.crashed
    }

    /// The middle of the car's front edge, in the world.
    pub fn front(&self) -> (r: Vec2)
        requires
            self.wf(),
        ensures
            r == place(self@.pos, self@.rot, Vec2 { x: 0, y: 2_000_000 }),
    {
        place_exec(self.state.pos, self.state.rot, Vec2::new(0, 2 * UNIT))
    }

    pub fn outline(&self) -> (r: Outline)
        ensures
            r == self.outline_of(),
    {
        self.outline
    }
}

/// A car at rest that gets no throttle and no steering stays as it is: the
/// control step keeps its state, the motion step along its own heading keeps
/// its place, and the paths of its corners are single points, which cross
/// no ring.
pub proof fn lemma_idle_car_stays(c: CarState, ring: Seq<Vec2>)
    requires
        state_wf(c),
        c.speed == 0,
        c.steering == 0,
    ensures
        steered(c, 0, 0) == c,
        moved(c, c.rot) == c,
        !any_hit(ring, movement(car_outline(c.pos, c.rot), car_outline(c.pos, c.rot))),
{
    assert(div_trunc(0, 2) == 0);
    assert(div_trunc(c.speed * 50 + 0, 51) == 0);
    assert(div_trunc(c.steering * 10 + 0, 11) == 0);
    assert(fx_mul(0, 0) == 0);
    assert(fx_mul(-c.rot.y, 0) == 0);
    assert(fx_mul(c.rot.x as int, 0) == 0);
    assert(steered(c, 0, 0) =~= c);
    let o = car_outline(c.pos, c.rot);
    let paths = movement(o, o);
    assert forall|i: int| 0 <= i < paths.len() implies !#[trigger] crate::borders::hits_ring(ring, paths[i]) by {
        let p = paths[i].0;
        assert(paths[i] == (p, p));
        assert forall|k: int| 0 <= k < ring.len() - 1 implies !#[trigger] segments_cross((ring[k], ring[k + 1]), (p, p)) by {
            assert(crate::game_maths::det((ring[k], ring[k + 1]), (p, p)) == 0) by (nonlinear_arith);
        }
    }
}

} // verus!
