use driving_sim::borders::Border;
use driving_sim::cars::{Car, HEADING_LIMIT};
use driving_sim::game_maths::{Vec2, UNIT};
use driving_sim::interval::{Timer, TIME_LIMIT};

fn unit_from_angle(angle: f64) -> Vec2 {
    Vec2::new((angle.cos() * UNIT as f64).round() as i64, (angle.sin() * UNIT as f64).round() as i64)
}

fn directions(resolution: usize) -> Vec<Vec2> {
    (0..resolution)
        .map(|i| unit_from_angle(i as f64 / resolution as f64 * std::f64::consts::PI * 2.0))
        .collect()
}

fn length(v: Vec2) -> f64 {
    ((v.x as f64).powi(2) + (v.y as f64).powi(2)).sqrt() / UNIT as f64
}

fn rotation(heading: i64) -> Vec2 {
    unit_from_angle(heading as f64 / UNIT as f64)
}

fn tick(car: &mut Car, throttle: i64, steering: i64, border: &Border) {
    let heading = car.steer(throttle, steering);
    car.update(rotation(heading), border);
}

fn arena() -> Border {
    Border::new(&directions(15), 40 * UNIT, 15 * UNIT, 0)
}

#[test]
fn zero_jitter_rings_are_regular_polygons() {
    let b = arena();
    let inner = b.inner();
    let outer = b.outer();
    assert_eq!(inner.len(), 16);
    assert_eq!(outer.len(), 16);
    assert_eq!(inner[15], inner[0]);
    assert_eq!(outer[15], outer[0]);
    assert_eq!(inner[0], Vec2::new(40 * UNIT, 0));
    assert_eq!(outer[0], Vec2::new(55 * UNIT, 0));
    let side_in = length(inner[1].sub(inner[0]));
    let side_out = length(outer[1].sub(outer[0]));
    for i in 0..15 {
        assert!((length(inner[i]) - 40.0).abs() < 1e-3);
        assert!((length(outer[i]) - 55.0).abs() < 1e-3);
        assert!((length(inner[i + 1].sub(inner[i])) - side_in).abs() < 1e-3);
        assert!((length(outer[i + 1].sub(outer[i])) - side_out).abs() < 1e-3);
    }
}

#[test]
fn jitter_is_shared_by_both_rings_and_bounded() {
    let b = Border::new(&directions(15), 40 * UNIT, 15 * UNIT, 10 * UNIT);
    let inner = b.inner();
    let outer = b.outer();
    let mut distinct = false;
    for i in 0..15 {
        let r_in = length(inner[i]);
        let r_out = length(outer[i]);
        assert!(r_in > 40.0 - 1e-3 && r_in < 50.0 + 1e-3);
        assert!((r_out - r_in - 15.0).abs() < 1e-3);
        if (r_in - length(inner[0])).abs() > 1e-3 {
            distinct = true;
        }
    }
    assert!(distinct);
    assert_eq!(inner[15], inner[0]);
}

#[test]
fn from_jitters_places_each_vertex() {
    let dirs = vec![Vec2::new(UNIT, 0), Vec2::new(0, UNIT), Vec2::new(-UNIT, 0)];
    let b = Border::from_jitters(&dirs, &vec![0, UNIT, 2 * UNIT], 10 * UNIT, 5 * UNIT);
    assert_eq!(
        b.inner().clone(),
        vec![Vec2::new(10 * UNIT, 0), Vec2::new(0, 11 * UNIT), Vec2::new(-12 * UNIT, 0), Vec2::new(10 * UNIT, 0)]
    );
    assert_eq!(
        b.outer().clone(),
        vec![Vec2::new(15 * UNIT, 0), Vec2::new(0, 16 * UNIT), Vec2::new(-17 * UNIT, 0), Vec2::new(15 * UNIT, 0)]
    );
}

#[test]
fn collision_checks_the_inner_ring_only() {
    let b = arena();
    let across_inner = (Vec2::new(35 * UNIT, 0), Vec2::new(45 * UNIT, 0));
    let across_outer = (Vec2::new(50 * UNIT, 0), Vec2::new(60 * UNIT, 0));
    let inside = (Vec2::new(0, 0), Vec2::new(10 * UNIT, 0));
    assert!(b.check_collision(&[across_inner]));
    assert!(!b.check_collision(&[across_outer]));
    assert!(!b.check_collision(&[inside, across_outer]));
    assert!(b.check_collision(&[inside, across_inner]));
    assert!(!b.check_collision(&[]));
}

#[test]
fn idle_car_stays_put() {
    let b = arena();
    let mut car = Car::new(Vec2::new(3 * UNIT, -2 * UNIT), 500_000, rotation(500_000));
    let outline = car.outline();
    for _ in 0..200 {
        tick(&mut car, 0, 0, &b);
    }
    assert_eq!(car.position(), Vec2::new(3 * UNIT, -2 * UNIT));
    assert_eq!(car.heading(), 500_000);
    assert_eq!(car.outline(), outline);
    assert!(!car.is_crashed());
}

#[test]
fn car_outline_follows_position_and_heading() {
    let car = Car::new(Vec2::new(UNIT, UNIT), 0, Vec2::new(UNIT, 0));
    let o = car.outline();
    assert_eq!(o.0, Vec2::new(2 * UNIT, 3 * UNIT));
    assert_eq!(o.1, Vec2::new(2 * UNIT, -UNIT));
    assert_eq!(o.2, Vec2::new(0, -UNIT));
    assert_eq!(o.3, Vec2::new(0, 3 * UNIT));
    assert_eq!(car.front(), Vec2::new(UNIT, 3 * UNIT));
    let turned = Car::new(Vec2::new(0, 0), 1_570_796, Vec2::new(0, UNIT));
    // a quarter turn: the front points along -x
    assert_eq!(turned.front(), Vec2::new(-2 * UNIT, 0));
    assert_eq!(turned.outline().0, Vec2::new(-2 * UNIT, UNIT));
}

#[test]
fn straight_drive_inside_arena_does_not_crash() {
    let b = arena();
    let mut car = Car::new(Vec2::new(0, 0), 0, Vec2::new(UNIT, 0));
    let mut ticks = 0;
    // the inner ring is nowhere closer than 40 * cos(12 deg) > 39.1 to the centre
    while car.position().y + 3 * UNIT < 38 * UNIT {
        tick(&mut car, UNIT, 0, &b);
        assert!(!car.is_crashed());
        assert_eq!(car.position().x, 0);
        assert_eq!(car.heading(), 0);
        ticks += 1;
    }
    assert!(ticks > 10);
}

#[test]
fn straight_drive_through_ring_crashes_once_then_freezes() {
    let b = arena();
    let mut car = Car::new(Vec2::new(0, 0), 0, Vec2::new(UNIT, 0));
    let mut transitions = 0;
    let mut was_crashed = false;
    for _ in 0..2000 {
        tick(&mut car, UNIT, 0, &b);
        if car.is_crashed() && !was_crashed {
            transitions += 1;
        }
        was_crashed = car.is_crashed();
    }
    assert!(was_crashed);
    assert_eq!(transitions, 1);
    let pos = car.position();
    assert!(pos.y > 36 * UNIT && pos.y < 42 * UNIT);
    let heading = car.heading();
    let outline = car.outline();
    for _ in 0..10 {
        tick(&mut car, UNIT, UNIT, &b);
        assert_eq!(car.position(), pos);
        assert_eq!(car.heading(), heading);
        assert_eq!(car.outline(), outline);
        assert!(car.is_crashed());
    }
}

#[test]
fn smoothing_and_turning_values() {
    let b = arena();
    let mut car = Car::new(Vec2::new(0, 0), 0, Vec2::new(UNIT, 0));
    // speed: (0 * 50 + 500000) / 51 = 9803; steering: (0 * 10 + 100000) / 11 = 9090
    // heading: 9090 * 9803 / 1000000 = 89
    let heading = car.steer(UNIT, UNIT / 10);
    assert_eq!(heading, 89);
    car.update(Vec2::new(UNIT, 0), &b);
    // forward along (0, 1) by the speed
    assert_eq!(car.position(), Vec2::new(0, 9803));
}

#[test]
fn heading_integrates_without_wrapping() {
    let mut car = Car::new(Vec2::new(0, 0), 3_141_593, Vec2::new(-UNIT, 0));
    // speed: 500000 / 51 = 9803; steering: 1000000 / 11 = 90909;
    // turn: 90909 * 9803 / 1000000 = 891
    assert_eq!(car.steer(UNIT, UNIT), 3_142_484);
    let mut last = 3_142_484;
    for _ in 0..100 {
        let next = car.steer(UNIT, UNIT);
        assert!(next > last);
        last = next;
    }
    assert!(last > 6_283_185 && last < HEADING_LIMIT);
}

#[test]
fn one_shot_countdown_fires_once_and_is_removed() {
    let mut t = Timer::new();
    t.add(1, UNIT, false);
    assert_eq!(t.update(UNIT * 3 / 2), vec![1]);
    for _ in 0..5 {
        assert_eq!(t.update(UNIT), Vec::<usize>::new());
    }
}

#[test]
fn interval_fires_when_elapsed_reaches_period_and_repeats() {
    let mut t = Timer::new();
    t.add(2, UNIT, true);
    let step = UNIT * 2 / 5;
    assert_eq!(t.update(step), Vec::<usize>::new());
    assert_eq!(t.update(step), Vec::<usize>::new());
    assert_eq!(t.update(step), vec![2]);
    // 0.2 of overshoot carried over: 0.8 left, then 0.4, then 0
    assert_eq!(t.update(step), Vec::<usize>::new());
    assert_eq!(t.update(step), vec![2]);
}

#[test]
fn fired_ids_keep_insertion_order_and_duplicates() {
    let mut t = Timer::new();
    t.add(7, 2 * UNIT, false);
    t.add(3, UNIT, false);
    t.add(7, UNIT, true);
    assert_eq!(t.update(UNIT), vec![3, 7]);
    assert_eq!(t.update(UNIT), vec![7, 7]);
    assert_eq!(t.update(UNIT), vec![7]);
}

#[test]
fn interval_overshooting_a_period_stays_and_fires_again() {
    let mut t = Timer::new();
    t.add(5, UNIT, true);
    assert_eq!(t.update(UNIT * 5 / 2), vec![5]);
    // half a period behind: fires on the next tick, even one of length zero
    assert_eq!(t.update(0), vec![5]);
    assert_eq!(t.update(UNIT / 4), Vec::<usize>::new());
    assert_eq!(t.update(UNIT / 4), vec![5]);
}

#[test]
fn can_update_checks_the_tick() {
    let mut t = Timer::new();
    assert!(t.can_update(UNIT));
    assert!(t.can_update(-1));
    assert!(!t.can_update(-TIME_LIMIT - 1));
    t.add(1, UNIT, true);
    assert!(t.can_update(UNIT * 3));
    assert!(t.can_update(TIME_LIMIT));
    // a tick of TIME_LIMIT leaves the interval nearly TIME_LIMIT behind
    assert_eq!(t.update(TIME_LIMIT), vec![1]);
    assert!(t.can_update(UNIT));
    assert!(!t.can_update(TIME_LIMIT));
}

#[test]
fn negative_tick_gives_time_back() {
    let mut t = Timer::new();
    t.add(1, UNIT, false);
    assert_eq!(t.update(-UNIT / 2), Vec::<usize>::new());
    assert_eq!(t.update(UNIT), Vec::<usize>::new());
    assert_eq!(t.update(UNIT / 2), vec![1]);
    assert_eq!(t.update(UNIT), Vec::<usize>::new());
}
