use billard::rules::{approach, within_reach};
use billard::sweep::{first_pair, sweep_step};

const RADIUS: f32 = 1.0;

/// A ball as centre and velocity.
type Ball = ([f32; 3], [f32; 3]);

fn sub(a: [f32; 3], b: [f32; 3]) -> [f32; 3] {
    [a[0] - b[0], a[1] - b[1], a[2] - b[2]]
}

fn dot(a: [f32; 3], b: [f32; 3]) -> f32 {
    a[0] * b[0] + a[1] * b[1] + a[2] * b[2]
}

fn scale(s: f32, a: [f32; 3]) -> [f32; 3] {
    [s * a[0], s * a[1], s * a[2]]
}

fn add(a: [f32; 3], b: [f32; 3]) -> [f32; 3] {
    [a[0] + b[0], a[1] + b[1], a[2] + b[2]]
}

/// Tries one pair by the library's rules, exchanging the projected
/// velocities where they collide.
fn maybe_collide(balls: &mut [Ball], i: usize, j: usize) -> bool {
    let d = sub(balls[i].0, balls[j].0);
    let dist = dot(d, d).sqrt();
    assert!(dist != 0.0);
    if !within_reach(dist.to_bits(), (2.0 * RADIUS).to_bits()) {
        return false;
    }
    let x = scale(1.0 / dist, d);
    let s1 = dot(x, balls[i].1);
    let s2 = dot(x, balls[j].1);
    if !approach(s1.to_bits(), s2.to_bits()) {
        return false;
    }
    let v1 = add(sub(balls[i].1, scale(s1, x)), scale(s2, x));
    let v2 = add(sub(balls[j].1, scale(s2, x)), scale(s1, x));
    balls[i].1 = v1;
    balls[j].1 = v2;
    true
}

fn resolve(balls: &mut [Ball]) -> (u64, Vec<(usize, usize)>) {
    let n = balls.len();
    let mut tried = Vec::new();
    let mut count = 0;
    let mut next = first_pair(n);
    while let Some((i, j)) = next {
        tried.push((i, j));
        let collided = maybe_collide(balls, i, j);
        let (c, p) = sweep_step(n, i, j, count, collided);
        count = c;
        next = p;
    }
    (count, tried)
}

#[test]
fn resolve_collisions() {
    let mut balls = vec![
        ([2.0, 5.0, 5.0], [1.0, 0.0, 0.0]),
        ([3.9, 5.0, 5.0], [-1.0, 0.0, 0.0]),
    ];
    let (num_collisions, _) = resolve(&mut balls);
    assert_eq!(num_collisions, 1);

    // Collisions should be resolved now
    let (num_collisions, _) = resolve(&mut balls);
    assert_eq!(num_collisions, 0);
}

#[test]
fn sweep_tries_each_pair_once_in_order() {
    let mut balls = vec![([0.0, 0.0, 0.0], [0.0, 0.0, 0.0]); 4];
    for (k, b) in balls.iter_mut().enumerate() {
        b.0[0] = 10.0 * k as f32;
    }
    let (count, tried) = resolve(&mut balls);
    assert_eq!(count, 0);
    assert_eq!(tried, vec![(0, 1), (0, 2), (0, 3), (1, 2), (1, 3), (2, 3)]);
}

#[test]
fn sweep_of_fewer_than_two_balls_is_empty() {
    assert_eq!(first_pair(0), None);
    assert_eq!(first_pair(1), None);
    assert_eq!(first_pair(2), Some((0, 1)));
}

#[test]
fn sweep_step_counts_and_moves_on() {
    assert_eq!(sweep_step(3, 0, 1, 0, true), (1, Some((0, 2))));
    assert_eq!(sweep_step(3, 0, 2, 1, false), (1, Some((1, 2))));
    assert_eq!(sweep_step(3, 1, 2, 1, true), (2, None));
}
