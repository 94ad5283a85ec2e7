//! The integrator against a reference in machine floating point, and the
//! physical behaviour of small systems.

use gravsim::body::{SimObj, SimObjDerivative};
use gravsim::scalar::Scalar;
use gravsim::system::{check_duration, ConfigurationError, NBodySimulation, DEFAULT_G_BITS};
use gravsim::vec3::Vec3;

fn s(x: f64) -> Scalar {
    Scalar::from_bits(x.to_bits())
}

fn f(x: Scalar) -> f64 {
    f64::from_bits(x.to_bits())
}

fn row(r: [f64; 7]) -> [Scalar; 7] {
    [s(r[0]), s(r[1]), s(r[2]), s(r[3]), s(r[4]), s(r[5]), s(r[6])]
}

fn table(rows: &[[f64; 7]]) -> Vec<[Scalar; 7]> {
    rows.iter().map(|r| row(*r)).collect()
}

fn build<const N: usize>(rows: &[[f64; 7]], g: f64, dt: f64) -> NBodySimulation<N> {
    let mut sim = match NBodySimulation::<N>::from_matrix(&table(rows)) {
        Ok(sim) => sim,
        Err(e) => panic!("rejected: {:?}", e),
    };
    sim.set_g(s(g));
    assert_eq!(sim.set_dt(s(dt)), Ok(()));
    sim
}

// The reference: plain floating point, operation for operation.

#[derive(Clone, Copy)]
struct RefBody {
    p: [f64; 3],
    v: [f64; 3],
    m: f64,
}

fn ref_derivative(bodies: &[RefBody], g: f64) -> Vec<([f64; 3], [f64; 3])> {
    let mut d: Vec<([f64; 3], [f64; 3])> = bodies.iter().map(|b| (b.v, [0.0; 3])).collect();
    for i in 0..bodies.len() {
        for j in (i + 1)..bodies.len() {
            let (a, b) = (bodies[i], bodies[j]);
            let r_vec = [a.p[0] - b.p[0], a.p[1] - b.p[1], a.p[2] - b.p[2]];
            let r = (r_vec[0].powi(2) + r_vec[1].powi(2) + r_vec[2].powi(2)).sqrt();
            for c in 0..3 {
                let fc = r_vec[c] * g * a.m * b.m / r.powi(3);
                d[i].1[c] += -fc / a.m;
                d[j].1[c] += fc / b.m;
            }
        }
    }
    d
}

fn ref_displaced(bodies: &[RefBody], k: &[([f64; 3], [f64; 3])], h: f64) -> Vec<RefBody> {
    let mut out = bodies.to_vec();
    for i in 0..bodies.len() {
        for c in 0..3 {
            out[i].p[c] = bodies[i].p[c] + k[i].0[c] * h;
            out[i].v[c] = bodies[i].v[c] + k[i].1[c] * h;
        }
    }
    out
}

fn ref_update(bodies: &mut Vec<RefBody>, g: f64, dt: f64, t: &mut f64) {
    let k1 = ref_derivative(bodies, g);
    let k2 = ref_derivative(&ref_displaced(bodies, &k1, dt / 2.0), g);
    let k3 = ref_derivative(&ref_displaced(bodies, &k2, dt / 2.0), g);
    let k4 = ref_derivative(&ref_displaced(bodies, &k3, dt), g);
    let mut d = k1.clone();
    for i in 0..bodies.len() {
        for c in 0..3 {
            d[i].0[c] = (((k1[i].0[c] + k2[i].0[c] * 2.0) + k3[i].0[c] * 2.0) + k4[i].0[c])
                * (1.0 / 6.0);
            d[i].1[c] = (((k1[i].1[c] + k2[i].1[c] * 2.0) + k3[i].1[c] * 2.0) + k4[i].1[c])
                * (1.0 / 6.0);
        }
    }
    let next = ref_displaced(bodies, &d, dt);
    *bodies = next;
    *t += dt;
}

fn ref_bodies(rows: &[[f64; 7]]) -> Vec<RefBody> {
    rows.iter()
        .map(|r| RefBody { p: [r[0], r[1], r[2]], v: [r[3], r[4], r[5]], m: r[6] })
        .collect()
}

fn assert_same_state<const N: usize>(sim: &NBodySimulation<N>, bodies: &[RefBody], t: f64) {
    for i in 0..N {
        let b = sim.body(i);
        let got = [b.position.x, b.position.y, b.position.z, b.velocity.x, b.velocity.y, b.velocity.z];
        let want = [
            bodies[i].p[0], bodies[i].p[1], bodies[i].p[2],
            bodies[i].v[0], bodies[i].v[1], bodies[i].v[2],
        ];
        for c in 0..6 {
            assert_eq!(got[c].to_bits(), want[c].to_bits(), "body {} component {}", i, c);
        }
        assert_eq!(b.mass.to_bits(), bodies[i].m.to_bits());
    }
    assert_eq!(sim.t().to_bits(), t.to_bits());
}

const FIGURE_EIGHT: [[f64; 7]; 3] = [
    [-0.3092050, 0.0, 0.0, 0.0, -0.50436399, 0.0, 1.0 / 3.0],
    [0.1546025, -0.09875616, 0.0, -1.18437049, 0.25218199, 0.0, 1.0 / 3.0],
    [0.1546025, 0.09875616, 0.0, 1.18437049, 0.25218199, 0.0, 1.0 / 3.0],
];

const INNER_PLANETS: [[f64; 7]; 5] = [
    [1.81899E+8, 9.83630E+8, -1.58778E+8, -1.12474E+1, 7.54876E+0, 2.68723E-1, 1.98854E+30],
    [-5.67576E+10, -2.73592E+10, 2.89173E+9, 1.16497E+4, -4.14793E+4, -4.45952E+3, 3.30200E+23],
    [4.28480E+10, 1.00073E+11, -1.11872E+09, -3.22930E+04, 1.36960E+04, 2.05091E+03, 4.86850E+24],
    [-1.43778E+11, -4.00067E+10, -1.38875E+07, 7.65151E+03, -2.87514E+04, 2.08354E+00, 5.97219E+24],
    [-1.43842359E+11, -4.04035995E+10, 1.40544867E+07, 8.60820833E+03, -2.89425909E+04, -4.93064422E+01, 7.346E22],
];

#[test]
fn figure_eight_matches_floating_point_bit_for_bit() {
    let mut sim = build::<3>(&FIGURE_EIGHT, 1.0, 1e-3);
    let mut bodies = ref_bodies(&FIGURE_EIGHT);
    let mut t = 0.0;
    for _ in 0..300 {
        sim.update();
        ref_update(&mut bodies, 1.0, 1e-3, &mut t);
        assert_same_state(&sim, &bodies, t);
    }
}

#[test]
fn planets_match_floating_point_bit_for_bit() {
    let g = f64::from_bits(DEFAULT_G_BITS);
    let mut sim = build::<5>(&INNER_PLANETS, g, 60.0);
    let mut bodies = ref_bodies(&INNER_PLANETS);
    let mut t = 0.0;
    for _ in 0..200 {
        sim.update();
        ref_update(&mut bodies, g, 60.0, &mut t);
        assert_same_state(&sim, &bodies, t);
    }
}

#[test]
fn derivative_matches_floating_point_bit_for_bit() {
    let g = f64::from_bits(DEFAULT_G_BITS);
    let sim = build::<5>(&INNER_PLANETS, g, 60.0);
    let d = sim.derivative();
    let want = ref_derivative(&ref_bodies(&INNER_PLANETS), g);
    assert_eq!(d.len(), 5);
    for i in 0..5 {
        let got = d.get(i);
        assert_eq!(f(got.velocity.x).to_bits(), want[i].0[0].to_bits());
        assert_eq!(f(got.velocity.y).to_bits(), want[i].0[1].to_bits());
        assert_eq!(f(got.velocity.z).to_bits(), want[i].0[2].to_bits());
        assert_eq!(f(got.acceleration.x).to_bits(), want[i].1[0].to_bits());
        assert_eq!(f(got.acceleration.y).to_bits(), want[i].1[1].to_bits());
        assert_eq!(f(got.acceleration.z).to_bits(), want[i].1[2].to_bits());
    }
}

#[test]
fn default_gravitational_constant() {
    assert_eq!(f64::from_bits(DEFAULT_G_BITS), 6.674e-11);
    let sim = NBodySimulation::<2>::default();
    assert_eq!(f(sim.g()), 6.674e-11);
    assert_eq!(f(sim.dt()), 1.0);
    assert_eq!(f(sim.t()), 0.0);
    assert_eq!(sim.len(), 2);
    assert_eq!(f(sim.body(1).mass), 0.0);
}

#[test]
fn circular_orbit_keeps_its_radius() {
    // A light body around a heavy one at rest, at the speed sqrt(G M / r).
    let (g, big, r) = (1.0, 1.0e6, 10.0);
    let heavy = SimObj {
        position: Vec3::zero(),
        velocity: Vec3::zero(),
        mass: s(big),
    };
    let v = f(heavy.stable_orbit(s(g), s(r)));
    assert_eq!(v.to_bits(), (g * big / r).sqrt().to_bits());
    let rows = [[0.0, 0.0, 0.0, 0.0, 0.0, 0.0, big], [r, 0.0, 0.0, 0.0, v, 0.0, 1.0e-3]];
    let period = 2.0 * std::f64::consts::PI * r / v;
    let steps = 2000;
    let mut sim = build::<2>(&rows, g, period / steps as f64);
    for _ in 0..steps {
        sim.update();
        let (a, b) = (sim.body(0).position, sim.body(1).position);
        let d = b.sub(&a).l2_norm();
        assert!((f(d) - r).abs() <= 0.01 * r, "radius {}", f(d));
    }
    // After one period the body is back where it started.
    let end = sim.body(1).position;
    assert!((f(end.x) - r).abs() < 0.01 * r);
    assert!(f(end.y).abs() < 0.01 * r);
}

#[test]
fn equal_pair_returns_after_one_period() {
    let (g, m, r) = (1.0f64, 1.0f64, 1.0f64);
    let v = (g * (m + m) / (4.0 * r)).sqrt();
    let rows = [
        [-0.5, 0.0, 0.0, 0.0, -v, 0.0, m],
        [0.5, 0.0, 0.0, 0.0, v, 0.0, m],
    ];
    let mut sim = build::<2>(&rows, g, 0.001);
    let start = [0.5f64, 0.5f64];
    for _ in 0..1000 {
        sim.update();
    }
    let (a, b) = (sim.body(0), sim.body(1));
    let bary = [
        (f(a.position.x) + f(b.position.x)) / 2.0,
        (f(a.position.y) + f(b.position.y)) / 2.0,
        (f(a.position.z) + f(b.position.z)) / 2.0,
    ];
    for (body, want) in [(a, start[0]), (b, start[1])] {
        let d = ((f(body.position.x) - bary[0]).powi(2)
            + (f(body.position.y) - bary[1]).powi(2)
            + (f(body.position.z) - bary[2]).powi(2))
        .sqrt();
        assert!((d - want).abs() <= 0.01 * want, "distance {}", d);
    }
    assert!((f(sim.t()) - 1.0).abs() < 1e-9);
}

fn momentum<const N: usize>(sim: &NBodySimulation<N>) -> [f64; 3] {
    let mut p = [0.0; 3];
    for i in 0..N {
        let b = sim.body(i);
        p[0] += f(b.mass) * f(b.velocity.x);
        p[1] += f(b.mass) * f(b.velocity.y);
        p[2] += f(b.mass) * f(b.velocity.z);
    }
    p
}

#[test]
fn momentum_is_conserved() {
    let rows = [
        [-0.3, 0.0, 0.1, 0.0, -0.5, 0.0, 1.0],
        [0.2, -0.1, 0.0, -1.1, 0.25, 0.1, 0.5],
        [0.1, 0.3, -0.2, 0.7, 0.2, -0.3, 2.0],
    ];
    let mut sim = build::<3>(&rows, 1.0, 1e-3);
    let before = momentum(&sim);
    for _ in 0..500 {
        sim.update();
    }
    let after = momentum(&sim);
    for c in 0..3 {
        assert!((after[c] - before[c]).abs() < 1e-12, "component {}: {} -> {}", c, before[c], after[c]);
    }
}

#[test]
fn pair_accelerations_are_equal_and_opposite_in_force() {
    let rows = [[0.0, 0.0, 0.0, 0.0, 0.0, 0.0, 3.0], [1.0, 2.0, 2.0, 0.0, 0.0, 0.0, 5.0]];
    let sim = build::<2>(&rows, 1.0, 1.0);
    let d = sim.derivative();
    let (a, b) = (d.get(0), d.get(1));
    // r = 3, so the force has the size G m1 m2 / r^2 = 15 / 9 along (1, 2, 2) / 3.
    let pull = [f(a.acceleration.x), f(a.acceleration.y), f(a.acceleration.z)];
    let back = [f(b.acceleration.x), f(b.acceleration.y), f(b.acceleration.z)];
    for c in 0..3 {
        assert!((3.0 * pull[c] + 5.0 * back[c]).abs() < 1e-15);
        assert!(pull[c] > 0.0 && back[c] < 0.0);
    }
    let size = (pull[0] * pull[0] + pull[1] * pull[1] + pull[2] * pull[2]).sqrt();
    assert!((3.0 * size - 15.0 / 9.0).abs() < 1e-15);
    // Velocities pass through unchanged.
    assert_eq!(f(a.velocity.x), 0.0);
}

#[test]
fn equal_masses_get_exactly_opposite_accelerations() {
    let rows = [
        [0.3, -1.2, 0.7, 0.0, 0.0, 0.0, 4.25],
        [-2.1, 0.4, 1.9, 0.0, 0.0, 0.0, 4.25],
    ];
    let sim = build::<2>(&rows, 0.37, 1.0);
    let d = sim.derivative();
    let (a, b) = (d.get(0), d.get(1));
    assert_eq!(a.acceleration.x, b.acceleration.x.neg());
    assert_eq!(a.acceleration.y, b.acceleration.y.neg());
    assert_eq!(a.acceleration.z, b.acceleration.z.neg());
}

#[test]
fn single_body_moves_in_a_straight_line() {
    let rows = [[1.0, -2.0, 3.0, 0.25, 0.5, -0.125, 7.0]];
    let mut sim = build::<1>(&rows, 1.0, 0.5);
    let d = sim.derivative().get(0);
    assert_eq!(d.acceleration, Vec3::zero());
    assert_eq!(d.velocity, sim.body(0).velocity);
    for step in 1..=100 {
        sim.update();
        let b = sim.body(0);
        assert_eq!(f(b.velocity.x), 0.25);
        assert_eq!(f(b.velocity.y), 0.5);
        assert_eq!(f(b.velocity.z), -0.125);
        let t = 0.5 * step as f64;
        assert!((f(b.position.x) - (1.0 + 0.25 * t)).abs() < 1e-12);
        assert!((f(b.position.y) - (-2.0 + 0.5 * t)).abs() < 1e-12);
        assert!((f(b.position.z) - (3.0 - 0.125 * t)).abs() < 1e-12);
        assert_eq!(f(b.mass), 7.0);
    }
    assert_eq!(f(sim.t()), 50.0);
}

#[test]
fn two_runs_give_the_same_trajectory() {
    let mut a = build::<3>(&FIGURE_EIGHT, 1.0, 1e-3);
    let mut b = a.clone();
    for _ in 0..200 {
        a.update();
        b.update();
        for i in 0..3 {
            assert_eq!(a.body(i), b.body(i));
        }
        assert_eq!(a.t(), b.t());
    }
}

#[test]
fn coincident_bodies_give_no_number() {
    let rows = [[1.0, 1.0, 1.0, 0.0, 0.0, 0.0, 1.0], [1.0, 1.0, 1.0, 0.0, 0.0, 0.0, 1.0]];
    let mut sim = build::<2>(&rows, 1.0, 0.1);
    let d = sim.derivative();
    assert!(f(d.get(0).acceleration.x).is_nan());
    assert!(f(d.get(1).acceleration.x).is_nan());
    sim.update();
    assert!(f(sim.body(0).position.x).is_nan());
    assert!(f(sim.body(1).velocity.y).is_nan());
}

#[test]
fn wrong_row_count_is_rejected() {
    let rows = table(&FIGURE_EIGHT);
    match NBodySimulation::<4>::from_matrix(&rows) {
        Err(e) => assert_eq!(e, ConfigurationError::RowCount { expected: 4, found: 3 }),
        Ok(_) => panic!("accepted"),
    }
    match NBodySimulation::<2>::from_matrix(&rows) {
        Err(e) => assert_eq!(e, ConfigurationError::RowCount { expected: 2, found: 3 }),
        Ok(_) => panic!("accepted"),
    }
    assert!(NBodySimulation::<3>::from_matrix(&rows).is_ok());
    assert!(NBodySimulation::<0>::from_matrix(&[]).is_ok());
}

#[test]
fn non_positive_mass_is_rejected() {
    for bad in [0.0, -0.0, -1.0, f64::NAN, f64::NEG_INFINITY] {
        let mut rows = FIGURE_EIGHT;
        rows[1][6] = bad;
        rows[2][6] = bad;
        match NBodySimulation::<3>::from_matrix(&table(&rows)) {
            Err(e) => assert_eq!(e, ConfigurationError::NonPositiveMass { row: 1 }),
            Ok(_) => panic!("accepted the mass {}", bad),
        }
    }
}

#[test]
fn non_positive_timestep_is_rejected() {
    let mut sim = build::<3>(&FIGURE_EIGHT, 1.0, 0.25);
    for bad in [0.0, -0.0, -1.0, f64::NAN] {
        assert_eq!(sim.set_dt(s(bad)), Err(ConfigurationError::NonPositiveTimestep));
        assert_eq!(f(sim.dt()), 0.25);
    }
    assert_eq!(sim.set_dt(s(0.5)), Ok(()));
    assert_eq!(f(sim.dt()), 0.5);
}

#[test]
fn table_rows_become_bodies_in_order() {
    let sim = build::<3>(&FIGURE_EIGHT, 1.0, 1.0);
    for i in 0..3 {
        let b = sim.body(i);
        assert_eq!(f(b.position.x), FIGURE_EIGHT[i][0]);
        assert_eq!(f(b.position.y), FIGURE_EIGHT[i][1]);
        assert_eq!(f(b.position.z), FIGURE_EIGHT[i][2]);
        assert_eq!(f(b.velocity.x), FIGURE_EIGHT[i][3]);
        assert_eq!(f(b.velocity.y), FIGURE_EIGHT[i][4]);
        assert_eq!(f(b.velocity.z), FIGURE_EIGHT[i][5]);
        assert_eq!(f(b.mass), FIGURE_EIGHT[i][6]);
    }
    assert_eq!(f(sim.t()), 0.0);
}

#[test]
fn positions_are_exposed_in_order() {
    let mut sim = build::<5>(&INNER_PLANETS, 6.674e-11, 60.0);
    sim.update();
    let all = sim.positions();
    assert_eq!(all.len(), 5);
    for i in 0..5 {
        assert_eq!(all[i], sim.body(i).position);
    }
    let some = sim.positions_of(&[4, 0, 0, 2]).expect("all indices name a body");
    assert_eq!(some, vec![all[4], all[0], all[0], all[2]]);
    assert_eq!(sim.positions_of(&[1, 5]), None);
    assert_eq!(sim.positions_of(&[]), Some(vec![]));
}

#[test]
fn time_advances_by_the_timestep() {
    let mut sim = build::<3>(&FIGURE_EIGHT, 1.0, 0.125);
    for step in 1..=16 {
        sim.update();
        assert_eq!(f(sim.t()), 0.125 * step as f64);
        assert_eq!(f(sim.dt()), 0.125);
        assert_eq!(f(sim.g()), 1.0);
    }
}

#[test]
fn derivative_step_scales_both_rates() {
    let d = SimObjDerivative {
        velocity: Vec3::new(s(1.0), s(-2.0), s(0.5)),
        acceleration: Vec3::new(s(4.0), s(0.0), s(-8.0)),
    };
    let delta = d.step(s(0.25));
    assert_eq!(delta.position, Vec3::new(s(0.25), s(-0.5), s(0.125)));
    assert_eq!(delta.velocity, Vec3::new(s(1.0), s(0.0), s(-2.0)));
    assert_eq!(f(delta.mass), 0.0);

    let mut e = d;
    e.apply_acceleration(&Vec3::new(s(1.0), s(1.0), s(1.0)));
    assert_eq!(e.acceleration, Vec3::new(s(5.0), s(1.0), s(-7.0)));
    assert_eq!(e.velocity, d.velocity);
    e.mul_assign(s(2.0));
    assert_eq!(e.velocity, Vec3::new(s(2.0), s(-4.0), s(1.0)));
    assert_eq!(e.acceleration, Vec3::new(s(10.0), s(2.0), s(-14.0)));
    let sum = d.add(&d);
    assert_eq!(sum.velocity, Vec3::new(s(2.0), s(-4.0), s(1.0)));
}

#[test]
fn body_addition_keeps_the_mass() {
    let b = SimObj {
        position: Vec3::new(s(1.0), s(2.0), s(3.0)),
        velocity: Vec3::new(s(0.5), s(0.0), s(-0.5)),
        mass: s(9.0),
    };
    let delta = SimObj {
        position: Vec3::new(s(0.5), s(0.5), s(0.5)),
        velocity: Vec3::new(s(1.0), s(1.0), s(1.0)),
        mass: s(0.0),
    };
    let moved = b.add(&delta);
    assert_eq!(moved.position, Vec3::new(s(1.5), s(2.5), s(3.5)));
    assert_eq!(moved.velocity, Vec3::new(s(1.5), s(1.0), s(0.5)));
    assert_eq!(f(moved.mass), 9.0);
    let mut c = b;
    c.add_assign(&delta);
    assert_eq!(c, moved);
    let d = b.derivative();
    assert_eq!(d.velocity, b.velocity);
    assert_eq!(d.acceleration, Vec3::zero());
}

#[test]
fn vector_arithmetic() {
    let a = Vec3::new(s(3.0), s(4.0), s(12.0));
    let b = Vec3::new(s(1.0), s(-1.0), s(0.5));
    assert_eq!(f(a.l2_norm()), 13.0);
    assert_eq!(a.add(&b), Vec3::new(s(4.0), s(3.0), s(12.5)));
    assert_eq!(a.sub(&b), Vec3::new(s(2.0), s(5.0), s(11.5)));
    assert_eq!(a.mul(s(0.5)), Vec3::new(s(1.5), s(2.0), s(6.0)));
    assert_eq!(a.div(s(4.0)), Vec3::new(s(0.75), s(1.0), s(3.0)));
    assert_eq!(a.neg(), Vec3::new(s(-3.0), s(-4.0), s(-12.0)));
    let mut c = a;
    c.add_assign(&b);
    c.mul_assign(s(2.0));
    assert_eq!(c, Vec3::new(s(8.0), s(6.0), s(25.0)));
    assert!(f(Vec3::new(s(f64::NAN), s(0.0), s(0.0)).l2_norm()).is_nan());
    assert_eq!(f(Vec3::zero().l2_norm()), 0.0);
}

#[test]
fn system_addition_and_scaling_of_rates() {
    let sim = build::<3>(&FIGURE_EIGHT, 1.0, 0.5);
    let mut k = sim.derivative();
    let before = k.clone();
    k.mul_assign(s(2.0));
    let sum = before.add(&before);
    for i in 0..3 {
        assert_eq!(k.get(i), sum.get(i));
    }
    let delta = k.step(s(0.25));
    assert_eq!(f(delta.dt()), 1.0);
    assert_eq!(f(delta.g()), 6.674e-11);
    let moved = sim.add(&delta);
    assert_eq!(f(moved.dt()), 0.5);
    assert_eq!(f(moved.g()), 1.0);
    for i in 0..3 {
        assert_eq!(moved.body(i), sim.body(i).add(&k.get(i).step(s(0.25))));
    }
}

#[test]
fn duration_must_be_positive() {
    assert_eq!(check_duration(s(1.0e7)), Ok(()));
    assert_eq!(check_duration(s(f64::INFINITY)), Ok(()));
    for bad in [0.0, -0.0, -3.0, f64::NAN, f64::NEG_INFINITY] {
        assert_eq!(check_duration(s(bad)), Err(ConfigurationError::NonPositiveDuration));
    }
}

#[test]
fn errors_say_what_is_wrong() {
    assert_eq!(
        ConfigurationError::RowCount { expected: 2, found: 3 }.describe(),
        "the table must hold one row for each body"
    );
    assert_eq!(
        ConfigurationError::NonPositiveMass { row: 0 }.describe(),
        "a mass must be greater than zero"
    );
    assert_eq!(
        ConfigurationError::NonPositiveTimestep.describe(),
        "the timestep must be greater than zero"
    );
    assert_eq!(
        ConfigurationError::NonPositiveDuration.describe(),
        "the duration must be greater than zero"
    );
}

#[test]
fn run_stops_when_the_time_is_reached() {
    let mut sim = build::<3>(&FIGURE_EIGHT, 1.0, 0.25);
    let t_max = s(1.0);
    let mut steps = 0;
    while sim.is_before(t_max) {
        sim.update();
        steps += 1;
    }
    assert_eq!(steps, 4);
    assert_eq!(f(sim.t()), 1.0);
    assert!(!sim.is_before(s(f64::NAN)));
}

#[test]
fn pair_force_on_exact_values() {
    // Distance 2 along x, masses 2 and 8, G = 1: the force has the size
    // 2 * 8 / 4 = 4, so the accelerations are 4 / 2 and 4 / 8, towards each other.
    let rows = [[0.0, 0.0, 0.0, 0.0, 1.0, 0.0, 2.0], [2.0, 0.0, 0.0, 0.0, 0.0, -1.0, 8.0]];
    let sim = build::<2>(&rows, 1.0, 1.0);
    let d = sim.derivative();
    assert_eq!(d.get(0).acceleration, Vec3::new(s(2.0), s(0.0), s(0.0)));
    assert_eq!(d.get(1).acceleration, Vec3::new(s(-0.5), s(0.0), s(0.0)));
    assert_eq!(d.get(0).velocity, Vec3::new(s(0.0), s(1.0), s(0.0)));
    assert_eq!(d.get(1).velocity, Vec3::new(s(0.0), s(0.0), s(-1.0)));
}

#[test]
fn three_bodies_on_a_line_on_exact_values() {
    // Unit masses at 0, 1 and 2 with G = 1: the outer bodies are pulled inwards
    // by 1 + 1/4, the middle one is in balance.
    let rows = [
        [0.0, 0.0, 0.0, 0.0, 0.0, 0.0, 1.0],
        [1.0, 0.0, 0.0, 0.0, 0.0, 0.0, 1.0],
        [2.0, 0.0, 0.0, 0.0, 0.0, 0.0, 1.0],
    ];
    let sim = build::<3>(&rows, 1.0, 1.0);
    let d = sim.derivative();
    assert_eq!(f(d.get(0).acceleration.x), 1.25);
    assert_eq!(f(d.get(1).acceleration.x), 0.0);
    assert_eq!(f(d.get(2).acceleration.x), -1.25);
}

#[test]
fn single_body_step_on_exact_values() {
    let rows = [[0.0, 4.0, -8.0, 1.0, -2.0, 0.0, 1.0]];
    let mut sim = build::<1>(&rows, 1.0, 0.5);
    sim.update();
    let b = sim.body(0);
    assert_eq!(b.position, Vec3::new(s(0.5), s(3.0), s(-8.0)));
    assert_eq!(b.velocity, Vec3::new(s(1.0), s(-2.0), s(0.0)));
    assert_eq!(f(sim.t()), 0.5);
}

#[test]
fn time_stands_still_where_the_step_is_too_small_to_show() {
    let rows = [[0.0, 0.0, 0.0, 1.0, 0.0, 0.0, 1.0]];
    let mut sim = build::<1>(&rows, 1.0, 1.0);
    for _ in 0..4 {
        sim.update();
    }
    assert_eq!(f(sim.t()), 4.0);
    assert_eq!(sim.set_dt(s(1.0e-17)), Ok(()));
    let before = sim.t();
    sim.update();
    assert!(!sim.t().lt(before));
    assert_eq!(sim.t(), before);
}

#[test]
fn bodies_without_mass_divide_zero_by_zero() {
    // Two empty bodies lie in the same place and weigh nothing: the force between
    // them is zero over zero.
    let sim = NBodySimulation::<2>::default();
    let d = sim.derivative();
    assert!(f(d.get(0).acceleration.x).is_nan());
    assert!(f(d.get(1).acceleration.x).is_nan());
    // One empty body alone stays where it is.
    let mut alone = NBodySimulation::<1>::default();
    alone.update();
    assert_eq!(alone.body(0).position, Vec3::zero());
    assert_eq!(alone.body(0).velocity, Vec3::zero());
    assert_eq!(f(alone.t()), 1.0);
}

#[test]
fn equal_pair_has_exactly_zero_momentum() {
    let v = (0.5f64).sqrt();
    let rows = [
        [-0.5, 0.0, 0.0, 0.0, -v, 0.0, 1.0],
        [0.5, 0.0, 0.0, 0.0, v, 0.0, 1.0],
    ];
    let mut sim = build::<2>(&rows, 1.0, 0.001);
    for _ in 0..1000 {
        sim.update();
        let (a, b) = (sim.body(0).velocity, sim.body(1).velocity);
        assert_eq!(f(a.x), -f(b.x));
        assert_eq!(f(a.y), -f(b.y));
        assert_eq!(f(a.z), -f(b.z));
        assert_eq!(f(a.x) + f(b.x), 0.0);
        assert_eq!(f(a.y) + f(b.y), 0.0);
    }
}

#[test]
fn equal_pair_exchanges_momentum_exactly() {
    // Equal masses, but velocities that do not cancel: the changes of a step do.
    let rows = [
        [-0.5, 0.1, 0.0, 0.3, -0.7, 0.2, 2.5],
        [0.5, -0.2, 0.3, 0.1, 0.6, -0.4, 2.5],
    ];
    let sim = build::<2>(&rows, 1.0, 0.01);
    let k = sim.derivative();
    assert_eq!(f(k.get(0).acceleration.x), -f(k.get(1).acceleration.x));
    assert_eq!(f(k.get(0).acceleration.y), -f(k.get(1).acceleration.y));
    assert_eq!(f(k.get(0).acceleration.z), -f(k.get(1).acceleration.z));
}
