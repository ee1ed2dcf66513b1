// The library visits the slots of the system; the arithmetic on a slot and
// the force between two bodies are the caller's.  These tests bring both,
// as a caller would, and drive whole steps through the library.

use nbody::body::{Body, BodyCfg};
use nbody::physics::{Point2, RK4Var, RK4Wrap};
use nbody::system::System;
use nbody::vector::{Color, Vec2};

fn stage_0(v: RK4Wrap<f64>, dt: f64) -> RK4Wrap<f64> {
    (v.0 + v.1 * dt * 0.5, v.1, v.1, v.0)
}

fn stage_1(v: RK4Wrap<f64>, dt: f64) -> RK4Wrap<f64> {
    (v.3 + v.1 * dt * 0.5, v.1, v.2 + v.1 * 2.0, v.3)
}

fn stage_2(v: RK4Wrap<f64>, dt: f64) -> RK4Wrap<f64> {
    (v.3 + v.1 * dt, v.1, v.2 + v.1 * 2.0, v.3)
}

fn stage_3(v: RK4Wrap<f64>, dt: f64) -> RK4Wrap<f64> {
    let sum = v.2 + v.1;
    (v.3 + sum * dt / 6.0, v.1, sum, v.3)
}

// Softened attraction: slopes of every body for the present stage values.
fn gravity(s: &mut System<f64>) {
    for i in 0..s.bodies.len() {
        let (left, right) = s.bodies.split_at_mut(i);
        let b0 = &mut right[0];
        b0.var.1.pos = b0.var.0.vel;
        b0.var.1.vel = Vec2 { x: 0.0, y: 0.0 };
        for b1 in left {
            let rx = b1.var.0.pos.x - b0.var.0.pos.x;
            let ry = b1.var.0.pos.y - b0.var.0.pos.y;
            let l = (rx * rx + ry * ry).sqrt();
            let soft = s.softening * (b0.mass + b1.mass);
            let pull = s.g / (l * l + soft * soft);
            b0.var.1.vel.x += rx / l * pull;
            b0.var.1.vel.y += ry / l * pull;
            b1.var.1.vel.x -= rx / l * pull;
            b1.var.1.vel.y -= ry / l * pull;
        }
    }
}

fn advance(s: &mut System<f64>, dt: f64) {
    gravity(s);
    s.step(dt, &stage_0);
    gravity(s);
    s.step(dt, &stage_1);
    gravity(s);
    s.step(dt, &stage_2);
    gravity(s);
    s.step(dt, &stage_3);
}

fn pair_system() -> System<f64> {
    let cfg = BodyCfg { track_len: 32, step_dur: 0.2 };
    let white = Color { r: 1.0, g: 1.0, b: 1.0, a: 1.0 };
    let a = Point2 { pos: Vec2 { x: 200.0, y: 300.0 }, vel: Vec2 { x: 0.0, y: 100.0 } };
    let b = Point2 { pos: Vec2 { x: 600.0, y: 300.0 }, vel: Vec2 { x: 0.0, y: -100.0 } };
    System {
        bodies: vec![Body::new(&a, 10.0, white, &cfg, -0.4), Body::new(&b, 10.0, white, &cfg, -0.4)],
        g: 2e7,
        softening: 4.0,
        body_cfg: cfg,
    }
}

fn momentum(s: &System<f64>) -> (f64, f64) {
    let mut p = (0.0, 0.0);
    for b in &s.bodies {
        p.0 += b.mass * b.var.0.vel.x;
        p.1 += b.mass * b.var.0.vel.y;
    }
    p
}

#[test]
fn two_bodies_pull_toward_each_other() {
    let mut s = pair_system();
    advance(&mut s, 0.01);
    gravity(&mut s);
    let acc = s.bodies[0].var.1.vel;
    let other = s.bodies[1].var.1.vel;
    // Body 0 is pulled toward body 1, which lies to its right.
    assert!(acc.x > 0.0);
    assert!(other.x < 0.0);
    let size = (acc.x * acc.x + acc.y * acc.y).sqrt();
    let expected = 2e7 / (400.0 * 400.0 + (4.0 * 20.0) * (4.0 * 20.0));
    assert!((size - expected).abs() < 0.01 * expected, "size {}", size);
    // Action and reaction.
    assert_eq!(acc.x, -other.x);
    assert_eq!(acc.y, -other.y);
}

#[test]
fn a_mirrored_pair_keeps_its_momentum() {
    let mut s = pair_system();
    assert_eq!(momentum(&s), (0.0, 0.0));
    for _ in 0..200 {
        advance(&mut s, 0.01);
        let p = momentum(&s);
        assert!(p.0.abs() < 1e-6 && p.1.abs() < 1e-6, "momentum {:?}", p);
    }
    // The bodies did move.
    assert!((s.bodies[0].var.0.pos.y - 300.0).abs() > 1.0);
}

#[test]
fn a_lone_body_moves_in_a_straight_line() {
    let mut s = pair_system();
    s.bodies.pop();
    let n = 16;
    for _ in 0..n {
        advance(&mut s, 0.32 / n as f64);
    }
    let p = s.bodies[0].var.0;
    assert!((p.pos.x - 200.0).abs() < 1e-9);
    assert!((p.pos.y - 332.0).abs() < 1e-9);
    assert_eq!(p.vel, Vec2 { x: 0.0, y: 100.0 });
}

#[test]
fn the_softened_pull_stays_bounded_as_bodies_meet() {
    let mut s = pair_system();
    let soft = 4.0 * 20.0;
    let bound = s.g / (soft * soft);
    for gap in [1e3, 1.0, 1e-3, 1e-6, 1e-9] {
        s.bodies[0].var.0.pos = Vec2 { x: 0.0, y: 0.0 };
        s.bodies[1].var.0.pos = Vec2 { x: gap, y: 0.0 };
        gravity(&mut s);
        let acc = s.bodies[1].var.1.vel;
        let size = (acc.x * acc.x + acc.y * acc.y).sqrt();
        assert!(size.is_finite());
        assert!(size <= bound);
        assert!(size <= s.g / (2.0 * soft));
    }
}
