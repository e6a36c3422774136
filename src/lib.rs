//! A small 2D driving simulation core in fixed-point arithmetic: vector and
//! affine-matrix math, segment intersection, a countdown timer, the arena
//! boundary and the car's kinematics with collision detection.

pub mod game_maths;
pub mod interval;
pub mod borders;
pub mod cars;
