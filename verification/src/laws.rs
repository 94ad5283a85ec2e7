//! What holds of every system, whatever its bodies.

use crate::body::{accelerated, coasting, moved, stepped, SimObj, SimObjDerivative};
use crate::product::{lemma_balanced_product, lemma_product_of_zero};
use crate::quotient::{lemma_quotient_of_negation, lemma_quotient_stays_finite, quotient};
use crate::scalar::{balanced, opposite, Scalar};
use crate::sum::{
    lemma_balanced_sum, lemma_sum_not_below, lemma_sum_with_zero, lemma_zero_plus, sum,
};
use crate::system::{
    advanced, advanced_by, coasting_all, combined, derivatives, displaced, lemma_derivatives_len,
    lemma_row_unfold, lemma_rows_unfold, one, pair_force, pull_on_first, pull_on_second, six, stage1, stage2, stage3,
    stage4, two, with_pair, SystemState,
};
use crate::vec3::{vec_scaled, vec_sum, zero_vector, Vec3};
use vstd::prelude::*;

verus! {

/// Newton's third law, as the accumulator applies it: the two bodies of a pair
/// are accelerated by one and the same force vector, each through its own mass
/// and in opposite directions. The acceleration of the first body is, in every
/// component, the opposite of that force component divided by its mass; the
/// acceleration of the second is the force component divided by its mass.
pub proof fn lemma_pair_symmetry(g: Scalar, a: SimObj, b: SimObj)
    ensures
        opposite(pull_on_first(g, a, b).x, quotient(pair_force(g, a, b).x, a.mass)),
        opposite(pull_on_first(g, a, b).y, quotient(pair_force(g, a, b).y, a.mass)),
        opposite(pull_on_first(g, a, b).z, quotient(pair_force(g, a, b).z, a.mass)),
        pull_on_second(g, a, b).x == quotient(pair_force(g, a, b).x, b.mass),
        pull_on_second(g, a, b).y == quotient(pair_force(g, a, b).y, b.mass),
        pull_on_second(g, a, b).z == quotient(pair_force(g, a, b).z, b.mass),
{
    let f = pair_force(g, a, b);
    lemma_quotient_of_negation(f.x, a.mass);
    lemma_quotient_of_negation(f.y, a.mass);
    lemma_quotient_of_negation(f.z, a.mass);
}

/// Two bodies of equal mass get exactly opposite accelerations from each other.
pub proof fn lemma_equal_masses_opposite_pulls(g: Scalar, a: SimObj, b: SimObj)
    requires
        a.mass == b.mass,
    ensures
        opposite(pull_on_first(g, a, b).x, pull_on_second(g, a, b).x),
        opposite(pull_on_first(g, a, b).y, pull_on_second(g, a, b).y),
        opposite(pull_on_first(g, a, b).z, pull_on_second(g, a, b).z),
{
    lemma_pair_symmetry(g, a, b);
}

/// A pair acts on its own two bodies only, and on their accelerations only.
pub proof fn lemma_pair_is_local(
    bodies: Seq<SimObj>,
    g: Scalar,
    d: Seq<SimObjDerivative>,
    i: int,
    j: int,
    k: int,
)
    requires
        0 <= i < j < d.len(),
        0 <= k < d.len(),
    ensures
        with_pair(bodies, g, d, i, j).len() == d.len(),
        with_pair(bodies, g, d, i, j)[k].velocity == d[k].velocity,
        k != i && k != j ==> with_pair(bodies, g, d, i, j)[k] == d[k],
{
}

/// In a system of two bodies the one pair acts once: each body ends with its own
/// velocity and with the pull of the other as its acceleration, added to zero.
pub proof fn lemma_two_bodies(bodies: Seq<SimObj>, g: Scalar)
    requires
        bodies.len() == 2,
    ensures
        derivatives(bodies, g).len() == 2,
        derivatives(bodies, g)[0] == accelerated(
            coasting(bodies[0]),
            pull_on_first(g, bodies[0], bodies[1]),
        ),
        derivatives(bodies, g)[1] == accelerated(
            coasting(bodies[1]),
            pull_on_second(g, bodies[0], bodies[1]),
        ),
{
    let start = coasting_all(bodies);
    lemma_rows_unfold(bodies, g, start, 0);
    lemma_rows_unfold(bodies, g, start, 1);
    lemma_rows_unfold(bodies, g, start, 2);
    lemma_row_unfold(bodies, g, start, 0, 1);
    lemma_row_unfold(bodies, g, start, 0, 2);
    let after = with_pair(bodies, g, start, 0, 1);
    lemma_row_unfold(bodies, g, after, 1, 2);
}

/// Opposite values stay balanced when each is added to zero.
pub proof fn lemma_balanced_from_zero(x: Scalar, y: Scalar)
    requires
        opposite(x, y),
    ensures
        balanced(sum(Scalar::signed_zero(false), x), sum(Scalar::signed_zero(false), y)),
{
    lemma_zero_plus(x);
    lemma_zero_plus(y);
}

/// Two bodies of equal mass, alone, accelerate each other at exactly opposite
/// rates: the total momentum of the pair has no rate of change at all.
pub proof fn lemma_equal_pair_balances(bodies: Seq<SimObj>, g: Scalar)
    requires
        bodies.len() == 2,
        bodies[0].mass == bodies[1].mass,
    ensures
        balanced_vec(derivatives(bodies, g)[0].acceleration, derivatives(bodies, g)[1].acceleration),
{
    let first = pull_on_first(g, bodies[0], bodies[1]);
    let second = pull_on_second(g, bodies[0], bodies[1]);
    lemma_two_bodies(bodies, g);
    lemma_equal_masses_opposite_pulls(g, bodies[0], bodies[1]);
    lemma_balanced_from_zero(first.x, second.x);
    lemma_balanced_from_zero(first.y, second.y);
    lemma_balanced_from_zero(first.z, second.z);
    assert(derivatives(bodies, g)[0].acceleration == vec_sum(zero_vector(), first));
    assert(derivatives(bodies, g)[1].acceleration == vec_sum(zero_vector(), second));
}

/// Balanced in every component.
pub open spec fn balanced_vec(u: Vec3, v: Vec3) -> bool {
    balanced(u.x, v.x) && balanced(u.y, v.y) && balanced(u.z, v.z)
}

/// Balanced vectors stay balanced when both are scaled alike.
pub proof fn lemma_balanced_vec_scaled(u: Vec3, v: Vec3, k: Scalar)
    requires
        balanced_vec(u, v),
    ensures
        balanced_vec(vec_scaled(u, k), vec_scaled(v, k)),
{
    lemma_balanced_product(u.x, v.x, k);
    lemma_balanced_product(u.y, v.y, k);
    lemma_balanced_product(u.z, v.z, k);
}

/// Balanced vectors stay balanced when a balanced pair is added to them.
pub proof fn lemma_balanced_vec_sum(u1: Vec3, v1: Vec3, u2: Vec3, v2: Vec3)
    requires
        balanced_vec(u1, v1),
        balanced_vec(u2, v2),
    ensures
        balanced_vec(vec_sum(u1, u2), vec_sum(v1, v2)),
{
    lemma_balanced_sum(u1.x, v1.x, u2.x, v2.x);
    lemma_balanced_sum(u1.y, v1.y, u2.y, v2.y);
    lemma_balanced_sum(u1.z, v1.z, u2.z, v2.z);
}

/// The weighted mean of four vectors: `(a1 + 2 a2 + 2 a3 + a4) * (1 / 6)`, summed
/// from the left.
pub open spec fn weighted_mean(a1: Vec3, a2: Vec3, a3: Vec3, a4: Vec3) -> Vec3 {
    vec_scaled(
        vec_sum(vec_sum(vec_sum(a1, vec_scaled(a2, two())), vec_scaled(a3, two())), a4),
        quotient(one(), six()),
    )
}

/// The weighted means of four balanced pairs are balanced.
pub proof fn lemma_balanced_weighted_mean(
    a1: Vec3,
    b1: Vec3,
    a2: Vec3,
    b2: Vec3,
    a3: Vec3,
    b3: Vec3,
    a4: Vec3,
    b4: Vec3,
)
    requires
        balanced_vec(a1, b1),
        balanced_vec(a2, b2),
        balanced_vec(a3, b3),
        balanced_vec(a4, b4),
    ensures
        balanced_vec(weighted_mean(a1, a2, a3, a4), weighted_mean(b1, b2, b3, b4)),
{
    let (c2, d2) = (vec_scaled(a2, two()), vec_scaled(b2, two()));
    let (c3, d3) = (vec_scaled(a3, two()), vec_scaled(b3, two()));
    lemma_balanced_vec_scaled(a2, b2, two());
    lemma_balanced_vec_scaled(a3, b3, two());
    lemma_balanced_vec_sum(a1, b1, c2, d2);
    lemma_balanced_vec_sum(vec_sum(a1, c2), vec_sum(b1, d2), c3, d3);
    lemma_balanced_vec_sum(
        vec_sum(vec_sum(a1, c2), c3),
        vec_sum(vec_sum(b1, d2), d3),
        a4,
        b4,
    );
    lemma_balanced_vec_scaled(
        vec_sum(vec_sum(vec_sum(a1, c2), c3), a4),
        vec_sum(vec_sum(vec_sum(b1, d2), d3), b4),
        quotient(one(), six()),
    );
}

/// What a step adds to the velocity of body `i`: the weighted mean of the four
/// stage accelerations, times the timestep.
pub open spec fn velocity_change(s: SystemState, i: int) -> Vec3 {
    vec_scaled(
        weighted_mean(
            stage1(s)[i].acceleration,
            stage2(s)[i].acceleration,
            stage3(s)[i].acceleration,
            stage4(s)[i].acceleration,
        ),
        s.dt,
    )
}

/// Every stage has one rate of change for each body.
pub proof fn lemma_stage_lens(s: SystemState)
    ensures
        stage1(s).len() == s.bodies.len(),
        stage2(s).len() == s.bodies.len(),
        stage3(s).len() == s.bodies.len(),
        stage4(s).len() == s.bodies.len(),
{
    let half = quotient(s.dt, two());
    lemma_derivatives_len(s.bodies, s.g);
    lemma_derivatives_len(displaced(s.bodies, stage1(s), half), s.g);
    lemma_derivatives_len(displaced(s.bodies, stage2(s), half), s.g);
    lemma_derivatives_len(displaced(s.bodies, stage3(s), s.dt), s.g);
}

/// The velocity after a step is the velocity before it plus the change.
pub proof fn lemma_velocity_after_step(s: SystemState, i: int)
    requires
        0 <= i < s.bodies.len(),
    ensures
        advanced(s).bodies[i].velocity == vec_sum(s.bodies[i].velocity, velocity_change(s, i)),
{
    lemma_stage_lens(s);
    let mean = combined(stage1(s), stage2(s), stage3(s), stage4(s));
    assert(mean[i].acceleration == weighted_mean(
        stage1(s)[i].acceleration,
        stage2(s)[i].acceleration,
        stage3(s)[i].acceleration,
        stage4(s)[i].acceleration,
    ));
    assert(advanced(s).bodies[i] == moved(s.bodies[i], stepped(mean[i], s.dt)));
}

/// In a system of two bodies of equal mass, a step changes the two velocities
/// by exactly opposite amounts: what one body gains in momentum, the other
/// loses, to the last bit.
pub proof fn lemma_equal_pair_exchanges_momentum(s: SystemState)
    requires
        s.bodies.len() == 2,
        s.bodies[0].mass == s.bodies[1].mass,
    ensures
        balanced_vec(velocity_change(s, 0), velocity_change(s, 1)),
{
    let half = quotient(s.dt, two());
    let k1 = stage1(s);
    let k2 = stage2(s);
    let k3 = stage3(s);
    let k4 = stage4(s);
    lemma_equal_pair_balances(s.bodies, s.g);
    lemma_equal_pair_balances(displaced(s.bodies, k1, half), s.g);
    lemma_equal_pair_balances(displaced(s.bodies, k2, half), s.g);
    lemma_equal_pair_balances(displaced(s.bodies, k3, s.dt), s.g);
    lemma_balanced_weighted_mean(
        k1[0].acceleration,
        k1[1].acceleration,
        k2[0].acceleration,
        k2[1].acceleration,
        k3[0].acceleration,
        k3[1].acceleration,
        k4[0].acceleration,
        k4[1].acceleration,
    );
    lemma_balanced_vec_scaled(
        weighted_mean(
            k1[0].acceleration,
            k2[0].acceleration,
            k3[0].acceleration,
            k4[0].acceleration,
        ),
        weighted_mean(
            k1[1].acceleration,
            k2[1].acceleration,
            k3[1].acceleration,
            k4[1].acceleration,
        ),
        s.dt,
    );
}

/// Two bodies of equal mass that move at exactly opposite velocities keep doing
/// so, step after step: the total momentum of such a pair is zero and stays
/// zero, with no rounding error at all.
pub proof fn lemma_equal_pair_keeps_balance(s: SystemState, steps: nat)
    requires
        s.bodies.len() == 2,
        s.bodies[0].mass == s.bodies[1].mass,
        balanced_vec(s.bodies[0].velocity, s.bodies[1].velocity),
    ensures
        advanced_by(s, steps).bodies.len() == 2,
        advanced_by(s, steps).bodies[0].mass == s.bodies[0].mass,
        advanced_by(s, steps).bodies[1].mass == s.bodies[1].mass,
        balanced_vec(
            advanced_by(s, steps).bodies[0].velocity,
            advanced_by(s, steps).bodies[1].velocity,
        ),
    decreases steps,
{
    if steps > 0 {
        let before = advanced_by(s, (steps - 1) as nat);
        lemma_equal_pair_keeps_balance(s, (steps - 1) as nat);
        lemma_equal_pair_exchanges_momentum(before);
        lemma_velocity_after_step(before, 0);
        lemma_velocity_after_step(before, 1);
        lemma_balanced_vec_sum(
            before.bodies[0].velocity,
            before.bodies[1].velocity,
            velocity_change(before, 0),
            velocity_change(before, 1),
        );
        lemma_step_keeps_configuration(before, 0);
        lemma_step_keeps_configuration(before, 1);
    }
}

/// A body alone feels no force: its rates are its own velocity and no
/// acceleration.
pub proof fn lemma_single_body_coasts(bodies: Seq<SimObj>, g: Scalar)
    requires
        bodies.len() == 1,
    ensures
        derivatives(bodies, g) == coasting_all(bodies),
{
    let start = coasting_all(bodies);
    lemma_rows_unfold(bodies, g, start, 1);
    lemma_rows_unfold(bodies, g, start, 0);
    lemma_row_unfold(bodies, g, start, 0, 1);
}

/// `v + 0` in every component: `v` itself, but for the sign of a zero.
pub open spec fn settled(v: Vec3) -> Vec3 {
    vec_sum(v, zero_vector())
}

/// Adding the zero vector changes no component that is a number.
pub proof fn lemma_settled_is_same(v: Vec3)
    ensures
        !v.x.is_nan() ==> settled(v).x.same_number(v.x),
        !v.y.is_nan() ==> settled(v).y.same_number(v.y),
        !v.z.is_nan() ==> settled(v).z.same_number(v.z),
{
    lemma_sum_with_zero(v.x);
    lemma_sum_with_zero(v.y);
    lemma_sum_with_zero(v.z);
}

/// The sum of the four stage velocities of a single body with their weights:
/// `v + 2 c + 2 c + c`, where `c` is `v + 0`.
pub open spec fn weighted_velocity(v: Vec3) -> Vec3 {
    let c = settled(v);
    vec_sum(vec_sum(vec_sum(v, vec_scaled(c, two())), vec_scaled(c, two())), c)
}

/// A single body is never accelerated. Over a step of positive finite length it
/// keeps its mass and its velocity, and its position moves along the velocity:
/// by `(v + 2 v + 2 v + v) * (1 / 6) * dt`, each operation rounded.
pub proof fn lemma_single_body_step(s: SystemState)
    requires
        s.bodies.len() == 1,
        s.dt.is_positive(),
        s.dt.is_finite(),
    ensures
        stage1(s)[0].acceleration == zero_vector(),
        stage2(s)[0].acceleration == zero_vector(),
        stage3(s)[0].acceleration == zero_vector(),
        stage4(s)[0].acceleration == zero_vector(),
        advanced(s).bodies.len() == 1,
        advanced(s).bodies[0].mass == s.bodies[0].mass,
        advanced(s).bodies[0].velocity == settled(s.bodies[0].velocity),
        advanced(s).bodies[0].position == vec_sum(
            s.bodies[0].position,
            vec_scaled(
                vec_scaled(weighted_velocity(s.bodies[0].velocity), quotient(one(), six())),
                s.dt,
            ),
        ),
{
    let b = s.bodies[0];
    let v = b.velocity;
    let c = settled(v);
    let zero = Scalar::signed_zero(false);
    let half = quotient(s.dt, two());
    let sixth = quotient(one(), six());
    lemma_quotient_stays_finite(s.dt, two());
    lemma_quotient_stays_finite(one(), six());
    lemma_product_of_zero(half);
    lemma_product_of_zero(s.dt);
    lemma_product_of_zero(two());
    lemma_product_of_zero(sixth);
    lemma_sum_with_zero(zero);
    assert(vec_scaled(zero_vector(), half) == zero_vector());
    assert(vec_scaled(zero_vector(), s.dt) == zero_vector());
    assert(vec_scaled(zero_vector(), two()) == zero_vector());
    assert(vec_scaled(zero_vector(), sixth) == zero_vector());
    assert(vec_sum(zero_vector(), zero_vector()) == zero_vector());

    let k1 = stage1(s);
    lemma_single_body_coasts(s.bodies, s.g);
    assert(k1[0] == coasting(b));

    let rest = SimObjDerivative { velocity: c, acceleration: zero_vector() };
    let b2 = displaced(s.bodies, k1, half);
    assert(b2.len() == 1);
    assert(b2[0] == moved(b, stepped(k1[0], half)));
    lemma_single_body_coasts(b2, s.g);
    let k2 = stage2(s);
    assert(k2[0] == rest);

    let b3 = displaced(s.bodies, k2, half);
    assert(b3.len() == 1);
    assert(b3[0] == moved(b, stepped(k2[0], half)));
    lemma_single_body_coasts(b3, s.g);
    let k3 = stage3(s);
    assert(k3[0] == rest);

    let b4 = displaced(s.bodies, k3, s.dt);
    assert(b4.len() == 1);
    assert(b4[0] == moved(b, stepped(k3[0], s.dt)));
    lemma_single_body_coasts(b4, s.g);
    let k4 = stage4(s);
    assert(k4[0] == rest);

    let mean = combined(k1, k2, k3, k4);
    assert(mean[0].acceleration == zero_vector());
    assert(mean[0].velocity == vec_scaled(weighted_velocity(v), sixth));
    assert(advanced(s).bodies[0] == moved(b, stepped(mean[0], s.dt)));
}

/// A single body keeps its velocity and its mass for ever, whatever the number
/// of steps.
pub proof fn lemma_single_body_forever(s: SystemState, steps: nat)
    requires
        s.bodies.len() == 1,
        s.dt.is_positive(),
        s.dt.is_finite(),
        steps >= 1,
    ensures
        advanced_by(s, steps).bodies.len() == 1,
        advanced_by(s, steps).dt == s.dt,
        advanced_by(s, steps).bodies[0].mass == s.bodies[0].mass,
        advanced_by(s, steps).bodies[0].velocity == settled(s.bodies[0].velocity),
    decreases steps,
{
    let v = s.bodies[0].velocity;
    lemma_sum_with_zero(v.x);
    lemma_sum_with_zero(v.y);
    lemma_sum_with_zero(v.z);
    assert(settled(settled(v)) == settled(v));
    if steps == 1 {
        assert(advanced_by(s, 0) == s);
        lemma_single_body_step(s);
    } else {
        lemma_single_body_forever(s, (steps - 1) as nat);
        lemma_single_body_step(advanced_by(s, (steps - 1) as nat));
    }
}

/// Time never runs backwards: with a timestep that is positive and finite, the
/// time after any number of steps is a number and is not below the time at the
/// start, nor below the time one step earlier. (It can stand still, where the
/// timestep is too small to show in the time reached.)
pub proof fn lemma_time_never_runs_back(s: SystemState, steps: nat)
    requires
        !s.t.is_nan(),
        s.dt.is_positive(),
        s.dt.is_finite(),
    ensures
        advanced_by(s, steps).dt == s.dt,
        !advanced_by(s, steps).t.is_nan(),
        !advanced_by(s, steps).t.less_than(s.t),
        !advanced_by(s, steps + 1).t.less_than(advanced_by(s, steps).t),
    decreases steps,
{
    if steps > 0 {
        let before = advanced_by(s, (steps - 1) as nat);
        lemma_time_never_runs_back(s, (steps - 1) as nat);
        lemma_sum_not_below(before.t, s.dt);
        assert(advanced_by(s, steps) == advanced(before));
    }
    let now = advanced_by(s, steps);
    lemma_sum_not_below(now.t, s.dt);
    assert(advanced_by(s, steps + 1) == advanced(now));
}

/// A step changes neither the number of bodies, nor a mass, nor a constant.
pub proof fn lemma_step_keeps_configuration(s: SystemState, i: int)
    requires
        0 <= i < s.bodies.len(),
    ensures
        advanced(s).bodies.len() == s.bodies.len(),
        advanced(s).bodies[i].mass == s.bodies[i].mass,
        advanced(s).dt == s.dt,
        advanced(s).g == s.g,
{
}

/// The same state has the same future: a run is a function of the initial
/// bodies, the gravitational constant, the timestep and the number of steps.
pub proof fn lemma_deterministic(a: SystemState, b: SystemState, steps: nat)
    requires
        a.bodies =~= b.bodies,
        a.dt == b.dt,
        a.g == b.g,
        a.t == b.t,
    ensures
        advanced_by(a, steps) == advanced_by(b, steps),
{
}

/// One more step after `steps` steps is `steps + 1` steps.
pub proof fn lemma_advanced_by_step(s: SystemState, steps: nat)
    ensures
        advanced_by(s, steps + 1) == advanced(advanced_by(s, steps)),
        advanced_by(s, 0) == s,
{
}

} // verus!
