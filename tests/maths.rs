use driving_sim::game_maths::{line_line_intersection, Mat3, Vec2, UNIT};

fn unit_from_angle(angle: f64) -> Vec2 {
    Vec2::new((angle.cos() * UNIT as f64).round() as i64, (angle.sin() * UNIT as f64).round() as i64)
}

fn v(x: f64, y: f64) -> Vec2 {
    Vec2::new((x * UNIT as f64).round() as i64, (y * UNIT as f64).round() as i64)
}

#[test]
fn test_maths() {
    let vup = Vec2::new(0, UNIT);
    let transform = Mat3::rotate(unit_from_angle(90f64.to_radians()));
    let vleft = transform.mul_vec(vup);
    assert!(vleft.x == -UNIT && vleft.y.abs() <= UNIT / 1000);

    let transform2 = Mat3::affine(Vec2::new(UNIT, 0), unit_from_angle(0f64.to_radians()), Vec2::new(UNIT, UNIT));
    let res2 = transform2.mul_vec(vup);
    assert_eq!(res2, Vec2::new(UNIT, UNIT));
}

#[test]
fn rotation_quarter_turn_of_up_is_left() {
    let r = Mat3::rotate(Vec2::new(0, UNIT)).mul_vec(Vec2::new(0, UNIT));
    assert_eq!(r, Vec2::new(-UNIT, 0));
}

#[test]
fn crossing_segments_meet_on_both() {
    let r = line_line_intersection((v(0.0, 0.0), v(2.0, 2.0)), (v(0.0, 2.0), v(2.0, 0.0)));
    assert_eq!(r, Some(v(1.0, 1.0)));
    let r = line_line_intersection((v(0.0, 0.0), v(4.0, 0.0)), (v(1.0, -1.0), v(1.0, 3.0)));
    assert_eq!(r, Some(v(1.0, 0.0)));
}

#[test]
fn crossing_is_on_second_segment_too() {
    // the lines cross at (1, 0), which is past the end of the second segment
    let r = line_line_intersection((v(0.0, 0.0), v(4.0, 0.0)), (v(1.0, 1.0), v(1.0, 3.0)));
    assert_eq!(r, None);
    let r = line_line_intersection((v(0.0, 0.0), v(4.0, 0.0)), (v(1.0, -3.0), v(1.0, -1.0)));
    assert_eq!(r, None);
}

#[test]
fn disjoint_parallel_and_outside_segments_do_not_meet() {
    assert_eq!(line_line_intersection((v(0.0, 0.0), v(1.0, 0.0)), (v(5.0, 5.0), v(6.0, 7.0))), None);
    assert_eq!(line_line_intersection((v(0.0, 0.0), v(1.0, 1.0)), (v(0.0, 1.0), v(1.0, 2.0))), None);
    assert_eq!(line_line_intersection((v(0.0, 0.0), v(1.0, 0.0)), (v(2.0, 0.0), v(3.0, 0.0))), None);
    // the lines cross at (3, 0), beyond the first segment
    assert_eq!(line_line_intersection((v(0.0, 0.0), v(1.0, 0.0)), (v(3.0, -1.0), v(3.0, 1.0))), None);
}

#[test]
fn touching_at_an_end_counts() {
    let r = line_line_intersection((v(0.0, 0.0), v(1.0, 0.0)), (v(1.0, 0.0), v(1.0, 1.0)));
    assert_eq!(r, Some(v(1.0, 0.0)));
}

#[test]
fn nearly_parallel_segments_are_treated_as_parallel() {
    // determinant 0.0005, below the threshold of 0.001
    let r = line_line_intersection((v(0.0, 0.0), v(1.0, 0.0)), (v(0.5, -0.0005), v(0.5, 0.0)));
    assert_eq!(r, None);
    let r = line_line_intersection((v(0.0, 0.0), v(1.0, 0.0)), (v(0.5, -0.002), v(0.5, 0.0)));
    assert_eq!(r, Some(v(0.5, 0.0)));
}

#[test]
fn vector_arithmetic() {
    let a = v(1.5, -2.0);
    let b = v(0.5, 4.0);
    assert_eq!(a.add(b), v(2.0, 2.0));
    assert_eq!(a.sub(b), v(1.0, -6.0));
    assert_eq!(a.mul(v(2.0, 0.0).x), v(3.0, -4.0));
    assert_eq!(Vec2::zero(), Vec2::new(0, 0));
}

#[test]
fn matrix_constructors_and_product() {
    let id = Mat3::identity();
    assert_eq!(id.get(0, 0), UNIT);
    assert_eq!(id.get(0, 1), 0);
    assert_eq!(id.get(2, 2), UNIT);
    assert_eq!(Mat3::zero().get(1, 1), 0);
    let s = Mat3::scale(v(2.0, 3.0));
    assert_eq!(s.get(2, 2), UNIT);
    let t = Mat3::translate(v(5.0, -1.0));
    assert_eq!(t.mul_vec(v(1.0, 1.0)), v(6.0, 0.0));
    // translate after scale: (1, 1) -> (2, 3) -> (7, 2)
    let ts = t.mul(&s);
    assert_eq!(ts.mul_vec(v(1.0, 1.0)), v(7.0, 2.0));
    assert_eq!(ts.get(2, 2), UNIT);
    assert_eq!(id.mul(&ts), ts);
    let a = Mat3::affine(v(1.0, 2.0), Vec2::new(0, UNIT), v(2.0, 3.0));
    // scale (1, 0) to (2, 0), rotate a quarter turn to (0, 2), move to (1, 4)
    assert_eq!(a.mul_vec(v(1.0, 0.0)), v(1.0, 4.0));
}
