//! A fixed collection of bodies under mutual gravity, and its classical
//! fourth-order Runge-Kutta step.
//!
//! All arithmetic is binary64, carried out in a fixed order, so every function
//! here is an exact function of its inputs: the contracts give the result to the
//! last bit.

use crate::body::{
    accelerated, coasting, derivative_scaled, derivative_sum, moved, stepped, SimObj,
    SimObjDerivative,
};
use crate::product::product;
use crate::quotient::quotient;
use crate::scalar::Scalar;
use crate::sum::sum;
use crate::vec3::{norm, vec_difference, vec_divided, vec_negation, vec_scaled, Vec3};
use vstd::prelude::*;

verus! {

/// Bit pattern of the default gravitational constant, 6.674e-11 N m^2 / kg^2.
pub const DEFAULT_G_BITS: u64 = 0x3DD2_5868_F4DE_AE16;

/// Why a system could not be set up.
#[derive(Clone, Copy, Debug, PartialEq, Eq, Structural)]
pub enum ConfigurationError {
    /// The table does not have one row for each body.
    RowCount { expected: usize, found: usize },
    /// The mass in this row is zero, negative or not a number.
    NonPositiveMass { row: usize },
    /// The timestep is zero, negative or not a number.
    NonPositiveTimestep,
    /// The duration of the run is zero, negative or not a number.
    NonPositiveDuration,
}

impl ConfigurationError {
    /// What is wrong, in words.
    pub open spec fn description(self) -> Seq<char> {
        match self {
            ConfigurationError::RowCount { .. } => "the table must hold one row for each body"@,
            ConfigurationError::NonPositiveMass { .. } => "a mass must be greater than zero"@,
            ConfigurationError::NonPositiveTimestep => "the timestep must be greater than zero"@,
            ConfigurationError::NonPositiveDuration => "the duration must be greater than zero"@,
        }
    }

    /// What is wrong, in words.
    pub fn describe(&self) -> (text: &'static str)
        ensures
            text@ == self.description(),
    {
        match self {
            ConfigurationError::RowCount { .. } => "the table must hold one row for each body",
            ConfigurationError::NonPositiveMass { .. } => "a mass must be greater than zero",
            ConfigurationError::NonPositiveTimestep => "the timestep must be greater than zero",
            ConfigurationError::NonPositiveDuration => "the duration must be greater than zero",
        }
    }
}

/// Accepts the duration of a run if it is greater than zero.
pub fn check_duration(t_max: Scalar) -> (checked: Result<(), ConfigurationError>)
    ensures
        match checked {
            Ok(_) => t_max.is_positive(),
            Err(e) => !t_max.is_positive() && e == ConfigurationError::NonPositiveDuration,
        },
{
    if t_max.positive_check() {
        Ok(())
    } else {
        Err(ConfigurationError::NonPositiveDuration)
    }
}

/// What a system is, as a mathematical value.
pub struct SystemState {
    /// The bodies; the index of a body is its identity.
    pub bodies: Seq<SimObj>,
    /// Length of one step, in seconds.
    pub dt: Scalar,
    /// The gravitational constant.
    pub g: Scalar,
    /// Simulated time elapsed, in seconds.
    pub t: Scalar,
}

pub open spec fn one() -> Scalar {
    Scalar { bits: 0x3FF0_0000_0000_0000 }
}

pub open spec fn two() -> Scalar {
    Scalar { bits: 0x4000_0000_0000_0000 }
}

pub open spec fn six() -> Scalar {
    Scalar { bits: 0x4018_0000_0000_0000 }
}

/// `r * r * r`.
pub open spec fn cube(r: Scalar) -> Scalar {
    product(product(r, r), r)
}

/// The vector from `b` to `a`, scaled to the strength of the attraction between
/// the two: `(a.position - b.position) * g * a.mass * b.mass / r^3`, where `r` is
/// their distance.
pub open spec fn pair_force(g: Scalar, a: SimObj, b: SimObj) -> Vec3 {
    let r_vec = vec_difference(a.position, b.position);
    vec_divided(vec_scaled(vec_scaled(vec_scaled(r_vec, g), a.mass), b.mass), cube(norm(r_vec)))
}

/// The acceleration that `b` gives to `a`: towards `b`.
pub open spec fn pull_on_first(g: Scalar, a: SimObj, b: SimObj) -> Vec3 {
    vec_divided(vec_negation(pair_force(g, a, b)), a.mass)
}

/// The acceleration that `a` gives to `b`: towards `a`.
pub open spec fn pull_on_second(g: Scalar, a: SimObj, b: SimObj) -> Vec3 {
    vec_divided(pair_force(g, a, b), b.mass)
}

/// The rates of all bodies before any force is applied.
pub open spec fn coasting_all(bodies: Seq<SimObj>) -> Seq<SimObjDerivative> {
    Seq::new(bodies.len(), |i: int| coasting(bodies[i]))
}

/// The rates `d` after the pair `(i, j)` has acted: one force, applied to both
/// bodies in opposite directions.
pub open spec fn with_pair(
    bodies: Seq<SimObj>,
    g: Scalar,
    d: Seq<SimObjDerivative>,
    i: int,
    j: int,
) -> Seq<SimObjDerivative> {
    d.update(i, accelerated(d[i], pull_on_first(g, bodies[i], bodies[j]))).update(
        j,
        accelerated(d[j], pull_on_second(g, bodies[i], bodies[j])),
    )
}

/// The rates `d` after the pairs `(i, i + 1)`, ..., `(i, end - 1)` have acted,
/// in this order.
#[verifier::opaque]
pub open spec fn with_row(
    bodies: Seq<SimObj>,
    g: Scalar,
    d: Seq<SimObjDerivative>,
    i: int,
    end: int,
) -> Seq<SimObjDerivative>
    decreases end - i,
{
    if end <= i + 1 {
        d
    } else {
        with_pair(bodies, g, with_row(bodies, g, d, i, end - 1), i, end - 1)
    }
}

/// The rates `d` after all pairs `(i, j)` with `i < rows` and `i < j` have acted,
/// row by row.
#[verifier::opaque]
pub open spec fn with_rows(
    bodies: Seq<SimObj>,
    g: Scalar,
    d: Seq<SimObjDerivative>,
    rows: int,
) -> Seq<SimObjDerivative>
    decreases rows,
{
    if rows <= 0 {
        d
    } else {
        with_row(bodies, g, with_rows(bodies, g, d, rows - 1), rows - 1, bodies.len() as int)
    }
}

/// A row without pairs changes nothing; a longer row is the shorter one followed
/// by its last pair.
pub proof fn lemma_row_unfold(
    bodies: Seq<SimObj>,
    g: Scalar,
    d: Seq<SimObjDerivative>,
    i: int,
    end: int,
)
    ensures
        end <= i + 1 ==> with_row(bodies, g, d, i, end) == d,
        end > i + 1 ==> with_row(bodies, g, d, i, end) == with_pair(
            bodies,
            g,
            with_row(bodies, g, d, i, end - 1),
            i,
            end - 1,
        ),
{
    reveal(with_row);
}

/// No rows change nothing; more rows are the rows before followed by the last.
pub proof fn lemma_rows_unfold(bodies: Seq<SimObj>, g: Scalar, d: Seq<SimObjDerivative>, rows: int)
    ensures
        rows <= 0 ==> with_rows(bodies, g, d, rows) == d,
        rows > 0 ==> with_rows(bodies, g, d, rows) == with_row(
            bodies,
            g,
            with_rows(bodies, g, d, rows - 1),
            rows - 1,
            bodies.len() as int,
        ),
{
    reveal(with_rows);
}

/// Pairs of bodies that exist leave the number of rates as it is.
pub proof fn lemma_row_len(
    bodies: Seq<SimObj>,
    g: Scalar,
    d: Seq<SimObjDerivative>,
    i: int,
    end: int,
)
    requires
        0 <= i,
        end <= d.len(),
    ensures
        with_row(bodies, g, d, i, end).len() == d.len(),
    decreases end - i,
{
    lemma_row_unfold(bodies, g, d, i, end);
    if end > i + 1 {
        lemma_row_len(bodies, g, d, i, end - 1);
    }
}

/// The rows of the accumulator leave the number of rates as it is.
pub proof fn lemma_rows_len(bodies: Seq<SimObj>, g: Scalar, d: Seq<SimObjDerivative>, rows: int)
    requires
        d.len() == bodies.len(),
    ensures
        with_rows(bodies, g, d, rows).len() == d.len(),
    decreases rows,
{
    lemma_rows_unfold(bodies, g, d, rows);
    if rows > 0 {
        lemma_rows_len(bodies, g, d, rows - 1);
        lemma_row_len(bodies, g, with_rows(bodies, g, d, rows - 1), rows - 1, bodies.len() as int);
    }
}

/// There is one rate of change for each body.
pub proof fn lemma_derivatives_len(bodies: Seq<SimObj>, g: Scalar)
    ensures
        derivatives(bodies, g).len() == bodies.len(),
{
    lemma_rows_len(bodies, g, coasting_all(bodies), bodies.len() as int);
}

/// The rates of all bodies under their mutual gravity: every unordered pair acts
/// exactly once.
pub open spec fn derivatives(bodies: Seq<SimObj>, g: Scalar) -> Seq<SimObjDerivative> {
    with_rows(bodies, g, coasting_all(bodies), bodies.len() as int)
}

/// What the rates `k` change in each body over the time `h`.
pub open spec fn stepped_all(k: Seq<SimObjDerivative>, h: Scalar) -> Seq<SimObj> {
    Seq::new(k.len(), |i: int| stepped(k[i], h))
}

/// The bodies, each displaced by its entry of `delta`.
pub open spec fn moved_all(bodies: Seq<SimObj>, delta: Seq<SimObj>) -> Seq<SimObj> {
    Seq::new(bodies.len(), |i: int| moved(bodies[i], delta[i]))
}

/// The bodies after they have followed the rates `k` for the time `h`.
pub open spec fn displaced(bodies: Seq<SimObj>, k: Seq<SimObjDerivative>, h: Scalar) -> Seq<
    SimObj,
> {
    moved_all(bodies, stepped_all(k, h))
}

/// Entry by entry, `a + b`.
pub open spec fn sum_all(a: Seq<SimObjDerivative>, b: Seq<SimObjDerivative>) -> Seq<
    SimObjDerivative,
> {
    Seq::new(a.len(), |i: int| derivative_sum(a[i], b[i]))
}

/// Every entry times `k`.
pub open spec fn scaled_all(d: Seq<SimObjDerivative>, k: Scalar) -> Seq<SimObjDerivative> {
    Seq::new(d.len(), |i: int| derivative_scaled(d[i], k))
}

/// The weighted mean of the four stage rates: `(k1 + 2 k2 + 2 k3 + k4) * (1 / 6)`,
/// summed from the left.
pub open spec fn combined(
    k1: Seq<SimObjDerivative>,
    k2: Seq<SimObjDerivative>,
    k3: Seq<SimObjDerivative>,
    k4: Seq<SimObjDerivative>,
) -> Seq<SimObjDerivative> {
    scaled_all(
        sum_all(sum_all(sum_all(k1, scaled_all(k2, two())), scaled_all(k3, two())), k4),
        quotient(one(), six()),
    )
}

/// The rates at the first stage: those of the state itself.
pub open spec fn stage1(s: SystemState) -> Seq<SimObjDerivative> {
    derivatives(s.bodies, s.g)
}

/// The rates at the second stage: half a step along the first.
pub open spec fn stage2(s: SystemState) -> Seq<SimObjDerivative> {
    derivatives(displaced(s.bodies, stage1(s), quotient(s.dt, two())), s.g)
}

/// The rates at the third stage: half a step along the second.
pub open spec fn stage3(s: SystemState) -> Seq<SimObjDerivative> {
    derivatives(displaced(s.bodies, stage2(s), quotient(s.dt, two())), s.g)
}

/// The rates at the fourth stage: a whole step along the third.
pub open spec fn stage4(s: SystemState) -> Seq<SimObjDerivative> {
    derivatives(displaced(s.bodies, stage3(s), s.dt), s.g)
}

/// The state one step later. Every stage starts from the bodies of `s`
/// themselves; only the time and the bodies change.
pub open spec fn advanced(s: SystemState) -> SystemState {
    SystemState {
        bodies: displaced(s.bodies, combined(stage1(s), stage2(s), stage3(s), stage4(s)), s.dt),
        dt: s.dt,
        g: s.g,
        t: sum(s.t, s.dt),
    }
}

/// The state `steps` steps later.
pub open spec fn advanced_by(s: SystemState, steps: nat) -> SystemState
    decreases steps,
{
    if steps == 0 {
        s
    } else {
        advanced(advanced_by(s, (steps - 1) as nat))
    }
}

/// The body that a row `(px, py, pz, vx, vy, vz, mass)` describes.
pub open spec fn body_of_row(row: Seq<Scalar>) -> SimObj {
    SimObj {
        position: Vec3 { x: row[0], y: row[1], z: row[2] },
        velocity: Vec3 { x: row[3], y: row[4], z: row[5] },
        mass: row[6],
    }
}

/// A body at rest at the origin, without mass.
pub open spec fn empty_body() -> SimObj {
    SimObj {
        position: crate::vec3::zero_vector(),
        velocity: crate::vec3::zero_vector(),
        mass: Scalar::signed_zero(false),
    }
}

/// The state of a system of `n` empty bodies with the default constants: a step
/// of one second, the default gravitational constant, no time elapsed.
pub open spec fn empty_state(n: nat) -> SystemState {
    SystemState {
        bodies: Seq::new(n, |i: int| empty_body()),
        dt: one(),
        g: Scalar { bits: DEFAULT_G_BITS },
        t: Scalar::signed_zero(false),
    }
}

/// The rates of change of all `N` bodies of a system, in the order of the bodies.
#[derive(Debug)]
pub struct NBodySimulationDerivative<const N: usize> {
    bodies: Vec<SimObjDerivative>,
}

/// `N` bodies with the constants of their simulation. The number and the order of
/// the bodies never change.
#[derive(Debug)]
pub struct NBodySimulation<const N: usize> {
    bodies: Vec<SimObj>,
    dt: Scalar,
    g: Scalar,
    t: Scalar,
}

impl<const N: usize> View for NBodySimulationDerivative<N> {
    type V = Seq<SimObjDerivative>;

    closed spec fn view(&self) -> Seq<SimObjDerivative> {
        self.bodies@
    }
}

impl<const N: usize> View for NBodySimulation<N> {
    type V = SystemState;

    closed spec fn view(&self) -> SystemState {
        SystemState { bodies: self.bodies@, dt: self.dt, g: self.g, t: self.t }
    }
}

impl<const N: usize> NBodySimulationDerivative<N> {
    #[verifier::type_invariant]
    spec fn well_formed(self) -> bool {
        self.bodies.len() == N
    }

    /// The number of entries: one for each body.
    pub fn len(&self) -> (n: usize)
        ensures
            n == N,
            self@.len() == N,
    {
        proof {
            use_type_invariant(self);
        }
        self.bodies.len()
    }

    /// The rates of body `i`.
    pub fn get(&self, i: usize) -> (d: SimObjDerivative)
        requires
            i < N,
        ensures
            d == self@[i as int],
    {
        proof {
            use_type_invariant(self);
        }
        self.bodies[i]
    }

    /// What these rates change over the time `dt`, as a system of displacements
    /// with the default constants.
    pub fn step(&self, dt: Scalar) -> (delta: NBodySimulation<N>)
        ensures
            delta@.bodies == stepped_all(self@, dt),
            delta@.dt == empty_state(N as nat).dt,
            delta@.g == empty_state(N as nat).g,
            delta@.t == empty_state(N as nat).t,
    {
        proof {
            use_type_invariant(self);
        }
        let mut out: Vec<SimObj> = Vec::new();
        let mut i: usize = 0;
        while i < N
            invariant
                i <= N,
                self.bodies.len() == N,
                out.len() == i,
                forall|k: int| 0 <= k < i ==> out@[k] == stepped(self.bodies@[k], dt),
            decreases N - i,
        {
            out.push(self.bodies[i].step(dt));
            i = i + 1;
        }
        assert(out@ =~= stepped_all(self@, dt));
        NBodySimulation {
            bodies: out,
            dt: Scalar::one(),
            g: Scalar::from_bits(DEFAULT_G_BITS),
            t: Scalar::zero(),
        }
    }

    /// Scales every rate in place.
    pub fn mul_assign(&mut self, rhs: Scalar)
        ensures
            final(self)@ == scaled_all(old(self)@, rhs),
    {
        proof {
            use_type_invariant(&*self);
        }
        let mut out: Vec<SimObjDerivative> = Vec::new();
        let mut i: usize = 0;
        while i < N
            invariant
                i <= N,
                self.bodies.len() == N,
                out.len() == i,
                forall|k: int| 0 <= k < i ==> out@[k] == derivative_scaled(self.bodies@[k], rhs),
            decreases N - i,
        {
            let mut d: SimObjDerivative = self.bodies[i];
            d.mul_assign(rhs);
            out.push(d);
            i = i + 1;
        }
        assert(out@ =~= scaled_all(self@, rhs));
        self.bodies = out;
    }

    /// Entry by entry, `self + rhs`.
    pub fn add(&self, rhs: &NBodySimulationDerivative<N>) -> (total: NBodySimulationDerivative<N>)
        ensures
            total@ == sum_all(self@, rhs@),
    {
        proof {
            use_type_invariant(self);
            use_type_invariant(rhs);
        }
        let mut out: Vec<SimObjDerivative> = Vec::new();
        let mut i: usize = 0;
        while i < N
            invariant
                i <= N,
                self.bodies.len() == N,
                rhs.bodies.len() == N,
                out.len() == i,
                forall|k: int|
                    0 <= k < i ==> out@[k] == derivative_sum(self.bodies@[k], rhs.bodies@[k]),
            decreases N - i,
        {
            out.push(self.bodies[i].add(&rhs.bodies[i]));
            i = i + 1;
        }
        assert(out@ =~= sum_all(self@, rhs@));
        NBodySimulationDerivative { bodies: out }
    }
}

impl<const N: usize> Clone for NBodySimulationDerivative<N> {
    fn clone(&self) -> (copy: Self)
        ensures
            copy@ == self@,
    {
        proof {
            use_type_invariant(self);
        }
        let mut out: Vec<SimObjDerivative> = Vec::new();
        let mut i: usize = 0;
        while i < N
            invariant
                i <= N,
                self.bodies.len() == N,
                out.len() == i,
                forall|k: int| 0 <= k < i ==> out@[k] == self.bodies@[k],
            decreases N - i,
        {
            out.push(self.bodies[i]);
            i = i + 1;
        }
        assert(out@ =~= self.bodies@);
        NBodySimulationDerivative { bodies: out }
    }
}

impl<const N: usize> Clone for NBodySimulation<N> {
    fn clone(&self) -> (copy: Self)
        ensures
            copy@ == self@,
    {
        proof {
            use_type_invariant(self);
        }
        let mut out: Vec<SimObj> = Vec::new();
        let mut i: usize = 0;
        while i < N
            invariant
                i <= N,
                self.bodies.len() == N,
                out.len() == i,
                forall|k: int| 0 <= k < i ==> out@[k] == self.bodies@[k],
            decreases N - i,
        {
            out.push(self.bodies[i]);
            i = i + 1;
        }
        assert(out@ =~= self.bodies@);
        NBodySimulation { bodies: out, dt: self.dt, g: self.g, t: self.t }
    }
}

impl<const N: usize> Default for NBodySimulationDerivative<N> {
    /// No motion at all: every rate is zero.
    fn default() -> (d: Self)
        ensures
            d@ == coasting_all(empty_state(N as nat).bodies),
    {
        let rest = SimObjDerivative { velocity: Vec3::zero(), acceleration: Vec3::zero() };
        let mut out: Vec<SimObjDerivative> = Vec::new();
        let mut i: usize = 0;
        while i < N
            invariant
                i <= N,
                out.len() == i,
                rest == coasting(empty_body()),
                forall|k: int| 0 <= k < i ==> out@[k] == rest,
            decreases N - i,
        {
            out.push(rest);
            i = i + 1;
        }
        assert(out@ =~= coasting_all(empty_state(N as nat).bodies));
        NBodySimulationDerivative { bodies: out }
    }
}

impl<const N: usize> Default for NBodySimulation<N> {
    /// `N` empty bodies with the default constants.
    fn default() -> (sim: Self)
        ensures
            sim@ == empty_state(N as nat),
    {
        let body = SimObj { position: Vec3::zero(), velocity: Vec3::zero(), mass: Scalar::zero() };
        let mut out: Vec<SimObj> = Vec::new();
        let mut i: usize = 0;
        while i < N
            invariant
                i <= N,
                out.len() == i,
                body == empty_body(),
                forall|k: int| 0 <= k < i ==> out@[k] == body,
            decreases N - i,
        {
            out.push(body);
            i = i + 1;
        }
        assert(out@ =~= empty_state(N as nat).bodies);
        NBodySimulation {
            bodies: out,
            dt: Scalar::one(),
            g: Scalar::from_bits(DEFAULT_G_BITS),
            t: Scalar::zero(),
        }
    }
}

impl<const N: usize> NBodySimulation<N> {
    #[verifier::type_invariant]
    spec fn well_formed(self) -> bool {
        self.bodies.len() == N
    }

    /// The number of bodies.
    pub fn len(&self) -> (n: usize)
        ensures
            n == N,
            self@.bodies.len() == N,
    {
        proof {
            use_type_invariant(self);
        }
        self.bodies.len()
    }

    /// The system with every body displaced by the body of `rhs` at the same
    /// index. Constants and time are those of `self`.
    pub fn add(&self, rhs: &NBodySimulation<N>) -> (total: NBodySimulation<N>)
        ensures
            total@.bodies == moved_all(self@.bodies, rhs@.bodies),
            total@.dt == self@.dt,
            total@.g == self@.g,
            total@.t == self@.t,
    {
        proof {
            use_type_invariant(self);
            use_type_invariant(rhs);
        }
        let mut out: Vec<SimObj> = Vec::new();
        let mut i: usize = 0;
        while i < N
            invariant
                i <= N,
                self.bodies.len() == N,
                rhs.bodies.len() == N,
                out.len() == i,
                forall|k: int| 0 <= k < i ==> out@[k] == moved(self.bodies@[k], rhs.bodies@[k]),
            decreases N - i,
        {
            out.push(self.bodies[i].add(&rhs.bodies[i]));
            i = i + 1;
        }
        assert(out@ =~= moved_all(self@.bodies, rhs@.bodies));
        NBodySimulation { bodies: out, dt: self.dt, g: self.g, t: self.t }
    }

    /// Lets the pair `(i, j)` act on the rates `d`: one force, applied to both
    /// bodies in opposite directions.
    fn apply_pair(&self, d: &mut Vec<SimObjDerivative>, i: usize, j: usize)
        requires
            i < j < N,
            old(d).len() == N,
        ensures
            final(d)@ == with_pair(self@.bodies, self@.g, old(d)@, i as int, j as int),
            final(d).len() == N,
    {
        proof {
            use_type_invariant(self);
        }
        let a: SimObj = self.bodies[i];
        let b: SimObj = self.bodies[j];
        let r_vec: Vec3 = a.position.sub(&b.position);
        let r: Scalar = r_vec.l2_norm();
        let f: Vec3 = r_vec.mul(self.g).mul(a.mass).mul(b.mass).div(r.mul(r).mul(r));
        let mut ad: SimObjDerivative = d[i];
        ad.apply_acceleration(&f.neg().div(a.mass));
        let mut bd: SimObjDerivative = d[j];
        bd.apply_acceleration(&f.div(b.mass));
        d.set(i, ad);
        d.set(j, bd);
    }

    /// The rates of all bodies under their mutual gravity.
    ///
    /// The bodies are only read. Each unordered pair is visited once, and the one
    /// force computed for it accelerates its two bodies in opposite directions.
    /// Two bodies at the same place give a force that is not a number.
    pub fn derivative(&self) -> (d: NBodySimulationDerivative<N>)
        ensures
            d@ == derivatives(self@.bodies, self@.g),
            d@.len() == N,
    {
        proof {
            use_type_invariant(self);
        }
        let mut d: Vec<SimObjDerivative> = Vec::new();
        let mut i: usize = 0;
        while i < N
            invariant
                i <= N,
                self.bodies.len() == N,
                d.len() == i,
                forall|k: int| 0 <= k < i ==> d@[k] == coasting(self.bodies@[k]),
            decreases N - i,
        {
            d.push(self.bodies[i].derivative());
            i = i + 1;
        }
        assert(d@ =~= coasting_all(self.bodies@));
        let ghost start = d@;
        i = 0;
        proof {
            lemma_rows_unfold(self.bodies@, self.g, start, 0);
        }
        while i < N
            invariant
                i <= N,
                self.bodies.len() == N,
                d.len() == N,
                start.len() == N,
                d@ == with_rows(self.bodies@, self.g, start, i as int),
            decreases N - i,
        {
            let ghost before = d@;
            let mut j: usize = i + 1;
            proof {
                lemma_row_unfold(self.bodies@, self.g, before, i as int, i + 1);
                lemma_rows_unfold(self.bodies@, self.g, start, i + 1);
            }
            while j < N
                invariant
                    i < j <= N,
                    self.bodies.len() == N,
                    d.len() == N,
                    before.len() == N,
                    d@ == with_row(self.bodies@, self.g, before, i as int, j as int),
                decreases N - j,
            {
                proof {
                    lemma_row_unfold(self.bodies@, self.g, before, i as int, j + 1);
                }
                self.apply_pair(&mut d, i, j);
                j = j + 1;
            }
            i = i + 1;
        }
        NBodySimulationDerivative { bodies: d }
    }

    /// Advances the system by one step of length `dt`.
    ///
    /// The four stages all start from the bodies as they are at the call; the
    /// bodies change only at the end, all at once, and the time grows by `dt`.
    pub fn update(&mut self)
        ensures
            final(self)@ == advanced(old(self)@),
            final(self)@.bodies.len() == N,
    {
        proof {
            use_type_invariant(&*self);
        }
        let half: Scalar = self.dt.div(Scalar::two());
        let k1 = self.derivative();
        let mut k2 = self.add(&k1.step(half)).derivative();
        let mut k3 = self.add(&k2.step(half)).derivative();
        let k4 = self.add(&k3.step(self.dt)).derivative();
        assert(k1@ == stage1(self@));
        assert(k2@ == stage2(self@));
        assert(k3@ == stage3(self@));
        assert(k4@ == stage4(self@));

        k2.mul_assign(Scalar::two());
        k3.mul_assign(Scalar::two());

        let mut d = k1.add(&k2).add(&k3).add(&k4);
        d.mul_assign(Scalar::one().div(Scalar::six()));
        assert(d@ == combined(stage1(self@), stage2(self@), stage3(self@), stage4(self@)));
        let moved_system = self.add(&d.step(self.dt));
        self.bodies = moved_system.bodies;
        self.t = self.t.add(self.dt);
    }

    /// Sets up a system from a table with one row
    /// `(px, py, pz, vx, vy, vz, mass)` for each body, with the default constants.
    ///
    /// The table must have exactly `N` rows and every mass must be greater than
    /// zero; the first row in fault is reported.
    pub fn from_matrix(m: &[[Scalar; 7]]) -> (made: Result<NBodySimulation<N>, ConfigurationError>)
        ensures
            match made {
                Ok(sim) => {
                    &&& m@.len() == N
                    &&& forall|k: int| 0 <= k < N ==> (#[trigger] m@[k])@[6].is_positive()
                    &&& sim@.bodies == Seq::new(N as nat, |k: int| body_of_row(m@[k]@))
                    &&& sim@.dt == empty_state(N as nat).dt
                    &&& sim@.g == empty_state(N as nat).g
                    &&& sim@.t == empty_state(N as nat).t
                },
                Err(ConfigurationError::RowCount { expected, found }) => {
                    &&& m@.len() != N
                    &&& expected == N
                    &&& found == m@.len()
                },
                Err(ConfigurationError::NonPositiveMass { row }) => {
                    &&& m@.len() == N
                    &&& row < N
                    &&& !m@[row as int]@[6].is_positive()
                    &&& forall|k: int| 0 <= k < row ==> (#[trigger] m@[k])@[6].is_positive()
                },
                Err(ConfigurationError::NonPositiveTimestep) => false,
                Err(ConfigurationError::NonPositiveDuration) => false,
            },
    {
        if m.len() != N {
            return Err(ConfigurationError::RowCount { expected: N, found: m.len() });
        }
        let mut out: Vec<SimObj> = Vec::new();
        let mut i: usize = 0;
        while i < N
            invariant
                i <= N,
                m@.len() == N,
                out.len() == i,
                forall|k: int| 0 <= k < i ==> (#[trigger] m@[k])@[6].is_positive(),
                forall|k: int| 0 <= k < i ==> out@[k] == body_of_row(m@[k]@),
            decreases N - i,
        {
            let row: &[Scalar; 7] = &m[i];
            if !row[6].positive_check() {
                return Err(ConfigurationError::NonPositiveMass { row: i });
            }
            out.push(
                SimObj {
                    position: Vec3 { x: row[0], y: row[1], z: row[2] },
                    velocity: Vec3 { x: row[3], y: row[4], z: row[5] },
                    mass: row[6],
                },
            );
            i = i + 1;
        }
        assert(out@ =~= Seq::new(N as nat, |k: int| body_of_row(m@[k]@)));
        Ok(
            NBodySimulation {
                bodies: out,
                dt: Scalar::one(),
                g: Scalar::from_bits(DEFAULT_G_BITS),
                t: Scalar::zero(),
            },
        )
    }

    /// Body `i`, as it is now.
    pub fn body(&self, i: usize) -> (b: SimObj)
        requires
            i < N,
        ensures
            b == self@.bodies[i as int],
    {
        proof {
            use_type_invariant(self);
        }
        self.bodies[i]
    }

    /// The positions of all bodies, in the order of the bodies.
    pub fn positions(&self) -> (out: Vec<Vec3>)
        ensures
            out@ == Seq::new(N as nat, |k: int| self@.bodies[k].position),
    {
        proof {
            use_type_invariant(self);
        }
        let mut out: Vec<Vec3> = Vec::new();
        let mut i: usize = 0;
        while i < N
            invariant
                i <= N,
                self.bodies.len() == N,
                out.len() == i,
                forall|k: int| 0 <= k < i ==> out@[k] == self.bodies@[k].position,
            decreases N - i,
        {
            out.push(self.bodies[i].position);
            i = i + 1;
        }
        assert(out@ =~= Seq::new(N as nat, |k: int| self@.bodies[k].position));
        out
    }

    /// The positions of the bodies named by `indices`, in that order; `None` if an
    /// index names no body.
    pub fn positions_of(&self, indices: &[usize]) -> (out: Option<Vec<Vec3>>)
        ensures
            match out {
                Some(v) => {
                    &&& forall|k: int| 0 <= k < indices@.len() ==> indices@[k] < N
                    &&& v@ == Seq::new(
                        indices@.len(),
                        |k: int| self@.bodies[indices@[k] as int].position,
                    )
                },
                None => exists|k: int| 0 <= k < indices@.len() && indices@[k] >= N,
            },
    {
        proof {
            use_type_invariant(self);
        }
        let mut out: Vec<Vec3> = Vec::new();
        let mut i: usize = 0;
        while i < indices.len()
            invariant
                i <= indices@.len(),
                self.bodies.len() == N,
                out.len() == i,
                forall|k: int| 0 <= k < i ==> indices@[k] < N,
                forall|k: int|
                    0 <= k < i ==> out@[k] == self.bodies@[indices@[k] as int].position,
            decreases indices@.len() - i,
        {
            let index: usize = indices[i];
            if index >= N {
                return None;
            }
            out.push(self.bodies[index].position);
            i = i + 1;
        }
        assert(out@ =~= Seq::new(
            indices@.len(),
            |k: int| self@.bodies[indices@[k] as int].position,
        ));
        Some(out)
    }

    /// Whether the run has not yet reached the time `t_max`: the test that a
    /// caller makes before each step.
    pub fn is_before(&self, t_max: Scalar) -> (before: bool)
        ensures
            before == self@.t.less_than(t_max),
    {
        self.t.lt(t_max)
    }

    /// Simulated time elapsed.
    pub fn t(&self) -> (t: Scalar)
        ensures
            t == self@.t,
    {
        self.t
    }

    /// Length of one step.
    pub fn dt(&self) -> (dt: Scalar)
        ensures
            dt == self@.dt,
    {
        self.dt
    }

    /// The gravitational constant in use.
    pub fn g(&self) -> (g: Scalar)
        ensures
            g == self@.g,
    {
        self.g
    }

    /// Sets the length of a step. It must be greater than zero; otherwise nothing
    /// changes.
    pub fn set_dt(&mut self, dt: Scalar) -> (done: Result<(), ConfigurationError>)
        ensures
            match done {
                Ok(_) => dt.is_positive() && final(self)@ == (SystemState { dt, ..old(self)@ }),
                Err(e) => {
                    &&& !dt.is_positive()
                    &&& e == ConfigurationError::NonPositiveTimestep
                    &&& final(self)@ == old(self)@
                },
            },
    {
        proof {
            use_type_invariant(&*self);
        }
        if !dt.positive_check() {
            return Err(ConfigurationError::NonPositiveTimestep);
        }
        self.dt = dt;
        Ok(())
    }

    /// Sets the gravitational constant.
    pub fn set_g(&mut self, g: Scalar)
        ensures
            final(self)@ == (SystemState { g, ..old(self)@ }),
    {
        proof {
            use_type_invariant(&*self);
        }
        self.g = g;
    }
}

} // verus!
