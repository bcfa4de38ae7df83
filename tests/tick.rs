use trebody::tick::{neighbour, others, tick};

#[test]
fn neighbours_of_three_bodies_are_cyclic() {
    assert_eq!(neighbour(3, 0, 0), 1);
    assert_eq!(neighbour(3, 0, 1), 2);
    assert_eq!(neighbour(3, 1, 0), 2);
    assert_eq!(neighbour(3, 1, 1), 0);
    assert_eq!(neighbour(3, 2, 0), 0);
    assert_eq!(neighbour(3, 2, 1), 1);
}

#[test]
fn neighbour_of_two_bodies() {
    assert_eq!(neighbour(2, 0, 0), 1);
    assert_eq!(neighbour(2, 1, 0), 0);
}

#[test]
fn neighbour_near_the_largest_size() {
    let n = usize::MAX;
    assert_eq!(neighbour(n, n - 1, n - 2), n - 2);
    assert_eq!(neighbour(n, n - 1, 0), 0);
    assert_eq!(neighbour(n, 0, n - 2), n - 1);
}

#[test]
fn others_in_cyclic_order() {
    let v = vec![10u32, 20, 30];
    assert_eq!(others(&v, 0), vec![20, 30]);
    assert_eq!(others(&v, 1), vec![30, 10]);
    assert_eq!(others(&v, 2), vec![10, 20]);
}

#[test]
fn others_of_a_single_body_is_empty() {
    let v = vec![7u8];
    assert!(others(&v, 0).is_empty());
}

#[derive(Clone, Copy, Debug, PartialEq)]
struct LineBody {
    x: f64,
    v: f64,
    a: f64,
    m: f64,
}

const G: f64 = 6.674e-11;

fn pull(b: &LineBody, o: &LineBody) -> f64 {
    let d = o.x - b.x;
    G * o.m * d / (d.abs() * d * d)
}

fn update(b: &LineBody, o: &Vec<LineBody>) -> LineBody {
    let mut n = *b;
    n.a = pull(b, &o[0]) + pull(b, &o[1]);
    n
}

fn advance(b: &LineBody, dt: f64) -> LineBody {
    let mut n = *b;
    n.x = b.x + b.v * dt;
    n.v = b.v + b.a * dt;
    n
}

fn line_bodies() -> Vec<LineBody> {
    vec![
        LineBody { x: 0.0, v: 0.0, a: 0.0, m: 1.0e12 },
        LineBody { x: 10.0, v: 1.0, a: 0.0, m: 5.0e12 },
        LineBody { x: 25.0, v: -2.0, a: 0.0, m: 2.0e13 },
    ]
}

#[test]
fn tick_uses_the_snapshot_for_every_update() {
    let dt = 100.0;
    let start = line_bodies();

    let mut bodies = start.clone();
    tick(&mut bodies, |b: &LineBody, o: &Vec<LineBody>| update(b, o), |b: &LineBody| advance(b, dt));

    // Expected: all three updates from the untouched start, then all steps.
    let expected: Vec<LineBody> = (0..3)
        .map(|i| {
            let o = vec![start[(i + 1) % 3], start[(i + 2) % 3]];
            advance(&update(&start[i], &o), dt)
        })
        .collect();
    assert_eq!(bodies, expected);

    // Interleaving (update then step each body in turn) gives another result.
    let mut inter = start.clone();
    for i in 0..3 {
        let o = vec![inter[(i + 1) % 3], inter[(i + 2) % 3]];
        inter[i] = advance(&update(&inter[i], &o), dt);
    }
    assert_ne!(bodies, inter);
}

#[test]
fn tick_on_no_bodies_is_a_no_op() {
    let mut bodies: Vec<LineBody> = Vec::new();
    tick(&mut bodies, |b: &LineBody, o: &Vec<LineBody>| update(b, o), |b: &LineBody| advance(b, 1.0));
    assert!(bodies.is_empty());
}

#[test]
fn tick_passes_each_body_its_others_in_order() {
    let mut ids = vec![0u64, 1, 2];
    tick(
        &mut ids,
        |b: &u64, o: &Vec<u64>| b * 100 + o[0] * 10 + o[1],
        |u: &u64| u + 1000,
    );
    assert_eq!(ids, vec![1012, 1120, 1201]);
}
