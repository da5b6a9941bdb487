use vstd::prelude::*;

use crate::bundles::{
    away_pass, away_passes, away_step, circle_of_bundle, dist_spec, gravity_spec, hit_reported,
    hit_time, is_self_tagged, quad_a, quad_delta, reflect_spec, sep_nx, sep_ny, Circle, P_MAX,
    R_MAX, TOL_A, V_MAX,
};
use crate::ecs::{bundle_matches, matching_up_to, Bundle, ComponentType};
use crate::fixed::{sqrt_val, tdiv, SCALE};

verus! {

/// Multiplying by a positive divisor and dividing truncates nothing:
/// `tdiv(a * s, s) == a`.
pub proof fn lemma_tdiv_mul_exact(a: int, s: int)
    requires
        s >= 1,
    ensures
        tdiv(a * s, s) == a,
{
    if a >= 0 {
        assert(a * s >= 0) by (nonlinear_arith)
            requires
                a >= 0,
                s >= 1,
        ;
        vstd::arithmetic::div_mod::lemma_div_by_multiple(a, s);
    } else {
        assert(a * s < 0) by (nonlinear_arith)
            requires
                a < 0,
                s >= 1,
        ;
        assert(-(a * s) == (-a) * s) by (nonlinear_arith);
        vstd::arithmetic::div_mod::lemma_div_by_multiple(-a, s);
    }
}

/// The floor square root of a perfect square is its root.
pub proof fn lemma_sqrt_square(k: int)
    requires
        k >= 0,
    ensures
        sqrt_val(k * k) == k,
{
    assert(k * k < (k + 1) * (k + 1)) by (nonlinear_arith)
        requires
            k >= 0,
    ;
    crate::fixed::lemma_sqrt_unique(k * k, k);
}

/// Prefix filtering: the schema-filtered view selects an entity
/// exactly when its bundle prefix-matches the schema; an empty schema
/// matches every entity. `i` names the entity's store index.
pub proof fn lemma_prefix_filtering(es: Seq<Bundle>, sch: Seq<ComponentType>, i: int)
    requires
        0 <= i < es.len(),
        es.len() <= usize::MAX,
    ensures
        matching_up_to(es, sch, es.len() as int).contains(i as usize) <==> bundle_matches(
            es[i]@,
            sch,
        ),
        sch.len() == 0 ==> bundle_matches(es[i]@, sch),
{
    lemma_matching_membership(es, sch, es.len() as int, i);
}

/// Membership in the filtered view of the first `n` entities holds
/// exactly for matching indices below `n`.
proof fn lemma_matching_membership(es: Seq<Bundle>, sch: Seq<ComponentType>, n: int, i: int)
    requires
        0 <= i <= usize::MAX,
        0 <= n <= es.len(),
        es.len() <= usize::MAX,
    ensures
        matching_up_to(es, sch, n).contains(i as usize) <==> (i < n && bundle_matches(es[i]@, sch)),
    decreases n,
{
    if n == 0 {
        assert(matching_up_to(es, sch, 0).len() == 0);
    } else {
        lemma_matching_membership(es, sch, n - 1, i);
        let p = matching_up_to(es, sch, n - 1);
        let q = matching_up_to(es, sch, n);
        if bundle_matches(es[n - 1]@, sch) {
            assert(q == p.push((n - 1) as usize));
            if i < n && bundle_matches(es[i]@, sch) {
                if i < n - 1 {
                    let k = choose|k: int| 0 <= k < p.len() && p[k] == i as usize;
                    assert(q[k] == i as usize);
                } else {
                    assert(q[p.len() as int] == (n - 1) as usize);
                }
            }
            if q.contains(i as usize) {
                let k = choose|k: int| 0 <= k < q.len() && q[k] == i as usize;
                if k < p.len() {
                    assert(p[k] == i as usize);
                } else {
                    assert(i == n - 1);
                }
            }
        } else {
            assert(q == p);
        }
    }
}

/// Bounds of the swept-collision test: a reported time of impact
/// always lies inside this tick's motion window, near-parallel
/// relative motion never reports a collision, and neither does a
/// negative discriminant.
pub proof fn lemma_swept_collision_bounds(s: Circle, o: Circle)
    ensures
        hit_reported(s, o) ==> 0 <= hit_time(s, o) <= SCALE,
        quad_a(s, o) < TOL_A ==> !hit_reported(s, o),
        quad_delta(s, o) < 0 ==> !hit_reported(s, o),
{
}

/// The restitution law for a bounce along the x axis: after the
/// exchange, each body's normal speed is the other body's previous
/// normal speed scaled by the loss coefficient, and the tangential
/// components pass through unchanged.
pub proof fn lemma_restitution_head_on(c1: Circle, c2: Circle, loss: i64)
    requires
        -2 * V_MAX <= c1.vx <= 2 * V_MAX,
        -2 * V_MAX <= c1.vy <= 2 * V_MAX,
        -2 * V_MAX <= c2.vx <= 2 * V_MAX,
        -2 * V_MAX <= c2.vy <= 2 * V_MAX,
        0 <= loss <= SCALE,
    ensures
        ({
            let rr = reflect_spec(c1, c2, SCALE as int, 0, loss as int);
            &&& rr.0.vx == tdiv(c2.vx * loss, SCALE as int)
            &&& rr.1.vx == tdiv(c1.vx * loss, SCALE as int)
            &&& rr.0.vy == c1.vy
            &&& rr.1.vy == c2.vy
        }),
{
    lemma_tdiv_mul_exact(c1.vx as int, SCALE as int);
    lemma_tdiv_mul_exact(c2.vx as int, SCALE as int);
    lemma_tdiv_mul_exact(-(c1.vy as int), SCALE as int);
    lemma_tdiv_mul_exact(-(c2.vy as int), SCALE as int);
    assert(c1.vx * (SCALE as int) + c1.vy * 0 == c1.vx * (SCALE as int)) by (nonlinear_arith);
    assert(c2.vx * (SCALE as int) + c2.vy * 0 == c2.vx * (SCALE as int)) by (nonlinear_arith);
    let v1n = tdiv(c1.vx * (SCALE as int) + c1.vy * 0, SCALE as int);
    let v2n = tdiv(c2.vx * (SCALE as int) + c2.vy * 0, SCALE as int);
    assert(v1n == c1.vx);
    assert(v2n == c2.vx);
    assert(c1.vx * 0 - c1.vy * (SCALE as int) == (-(c1.vy as int)) * (SCALE as int))
        by (nonlinear_arith);
    assert(c2.vx * 0 - c2.vy * (SCALE as int) == (-(c2.vy as int)) * (SCALE as int))
        by (nonlinear_arith);
    let v1t = tdiv(c1.vx * 0 - c1.vy * (SCALE as int), SCALE as int);
    let v2t = tdiv(c2.vx * 0 - c2.vy * (SCALE as int), SCALE as int);
    assert(v1t == -c1.vy);
    assert(v2t == -c2.vy);
    let w1n = tdiv(v2n * (loss as int), SCALE as int);
    let w2n = tdiv(v1n * (loss as int), SCALE as int);
    crate::fixed::lemma_tdiv_scale_bound(v2n, loss as int, SCALE as int);
    crate::fixed::lemma_tdiv_scale_bound(v1n, loss as int, SCALE as int);
    lemma_tdiv_mul_exact(w1n, SCALE as int);
    lemma_tdiv_mul_exact(w2n, SCALE as int);
    assert(w1n * (SCALE as int) + v1t * 0 == w1n * (SCALE as int)) by (nonlinear_arith);
    assert(w2n * (SCALE as int) + v2t * 0 == w2n * (SCALE as int)) by (nonlinear_arith);
    assert(w1n * 0 - v1t * (SCALE as int) == (-v1t) * (SCALE as int)) by (nonlinear_arith);
    assert(w2n * 0 - v2t * (SCALE as int) == (-v2t) * (SCALE as int)) by (nonlinear_arith);
    lemma_tdiv_mul_exact(-v1t, SCALE as int);
    lemma_tdiv_mul_exact(-v2t, SCALE as int);
}

/// The degenerate-center guard: a body exactly at the origin receives
/// a well-defined, zero velocity delta from the gravity update.
pub proof fn lemma_gravity_origin(c: Circle, g: i64)
    requires
        c.x == 0,
        c.y == 0,
    ensures
        gravity_spec(c, g) == c,
{
    assert(c.x * c.x + c.y * c.y == 0) by (nonlinear_arith)
        requires
            c.x == 0,
            c.y == 0,
    ;
    assert(sqrt_val(0) == 0);
}

/// Separation convergence for two overlapping stationary bodies of
/// equal radius whose centers share an axis (a common line parallel
/// to x): one pass of the overlap correction pushes the updated body
/// to exactly the radii-sum distance, and the remaining passes leave
/// it there, so after the five passes the centers are no closer than
/// the radii sum.
pub proof fn lemma_separation_convergence_axis(c: Circle, b: Bundle)
    requires
        ({
            let o = circle_of_bundle(b@);
            &&& !is_self_tagged(b@)
            &&& c.y == o.y
            &&& c.x != o.x
            &&& c.r == o.r
            &&& 0 <= c.r <= R_MAX
            &&& -P_MAX <= c.x <= P_MAX
            &&& -P_MAX <= o.x <= P_MAX
            &&& dist_spec(c, o) < c.r + o.r
        }),
    ensures
        ({
            let o = circle_of_bundle(b@);
            dist_spec(away_passes(c, seq![b], 5), o) >= 2 * c.r
        }),
{
    let o = circle_of_bundle(b@);
    let es: Seq<Bundle> = seq![b];
    let dx = c.x - o.x;
    let adx = if dx >= 0 {
        dx
    } else {
        -dx
    };
    assert(dx * dx == adx * adx) by (nonlinear_arith)
        requires
            adx == dx || adx == -dx,
    ;
    assert(c.y - o.y == 0);
    assert((c.y - o.y) * (c.y - o.y) == 0) by (nonlinear_arith)
        requires
            c.y == o.y,
    ;
    lemma_sqrt_square(adx);
    let d = dist_spec(c, o);
    assert(d == adx);
    assert(d >= 1);
    let c1 = lemma_one_axis_step(c, b);
    assert(away_pass(c, es, 1) == away_step(away_pass(c, es, 0), es[0]@));
    assert(away_pass(c, es, 0) == c);
    assert(away_pass(c, es, 1) == c1);
    assert(dist_spec(c1, o) == 2 * c.r);
    let c2 = lemma_settled_step(c1, b);
    assert(c2 == c1);
    assert(away_passes(c, es, 0) == c);
    assert(away_passes(c, es, 1) == away_pass(away_passes(c, es, 0), es, 1));
    assert(away_passes(c, es, 1) == c1);
    assert(away_passes(c, es, 2) == away_pass(away_passes(c, es, 1), es, 1));
    assert(away_pass(c1, es, 1) == away_step(away_pass(c1, es, 0), es[0]@));
    assert(away_passes(c, es, 2) == c1);
    assert(away_passes(c, es, 3) == away_pass(away_passes(c, es, 2), es, 1));
    assert(away_passes(c, es, 3) == c1);
    assert(away_passes(c, es, 4) == away_pass(away_passes(c, es, 3), es, 1));
    assert(away_passes(c, es, 4) == c1);
    assert(away_passes(c, es, 5) == away_pass(away_passes(c, es, 4), es, 1));
    assert(away_passes(c, es, 5) == c1);
}

/// One separation step on an axis-aligned overlapping pair lands the
/// updated body exactly at the radii-sum distance.
proof fn lemma_one_axis_step(c: Circle, b: Bundle) -> (c1: Circle)
    requires
        ({
            let o = circle_of_bundle(b@);
            &&& !is_self_tagged(b@)
            &&& c.y == o.y
            &&& c.x != o.x
            &&& c.r == o.r
            &&& 0 <= c.r <= R_MAX
            &&& -P_MAX <= c.x <= P_MAX
            &&& -P_MAX <= o.x <= P_MAX
            &&& dist_spec(c, o) < c.r + o.r
        }),
    ensures
        c1 == away_step(c, b@),
        ({
            let o = circle_of_bundle(b@);
            &&& dist_spec(c1, o) == 2 * c.r
            &&& c1.y == c.y
            &&& c1.r == c.r
        }),
{
    let o = circle_of_bundle(b@);
    let dx = c.x - o.x;
    let adx = if dx >= 0 {
        dx
    } else {
        -dx
    };
    assert(dx * dx == adx * adx) by (nonlinear_arith)
        requires
            adx == dx || adx == -dx,
    ;
    assert((c.y - o.y) * (c.y - o.y) == 0) by (nonlinear_arith)
        requires
            c.y == o.y,
    ;
    lemma_sqrt_square(adx);
    let d = dist_spec(c, o);
    assert(d == adx);
    assert(d >= 1);
    assert(d - c.r - o.r < 0);
    if dx >= 0 {
        assert(dx * (SCALE as int) == d * (SCALE as int));
        assert(d * (SCALE as int) == (SCALE as int) * d) by (nonlinear_arith);
        lemma_tdiv_mul_exact(SCALE as int, d);
        assert(sep_nx(c, o) == SCALE as int);
    } else {
        assert(dx * (SCALE as int) == (-d) * (SCALE as int));
        assert((-d) * (SCALE as int) == (-(SCALE as int)) * d) by (nonlinear_arith);
        lemma_tdiv_mul_exact(-(SCALE as int), d);
        assert(sep_nx(c, o) == -(SCALE as int));
    }
    assert((c.y - o.y) * (SCALE as int) == 0) by (nonlinear_arith)
        requires
            c.y == o.y,
    ;
    assert(sep_ny(c, o) == 0);
    let m = d - c.r - o.r;
    if dx >= 0 {
        assert((SCALE as int) * m == m * (SCALE as int)) by (nonlinear_arith);
        lemma_tdiv_mul_exact(m, SCALE as int);
        assert(tdiv(sep_nx(c, o) * m, SCALE as int) == m);
    } else {
        assert((-(SCALE as int)) * m == (-m) * (SCALE as int)) by (nonlinear_arith);
        lemma_tdiv_mul_exact(-m, SCALE as int);
        assert(tdiv(sep_nx(c, o) * m, SCALE as int) == -m);
    }
    assert(0 * m == 0) by (nonlinear_arith);
    assert(tdiv(0, SCALE as int) == 0);
    let c1 = away_step(c, b@);
    let ndx = c1.x - o.x;
    if dx >= 0 {
        assert(c1.x == c.x - m);
        assert(ndx == 2 * c.r);
    } else {
        assert(c1.x == c.x + m);
        assert(ndx == -(2 * c.r));
    }
    assert(ndx * ndx == (2 * c.r) * (2 * c.r)) by (nonlinear_arith)
        requires
            ndx == 2 * c.r || ndx == -(2 * c.r),
    ;
    assert((c1.y - o.y) * (c1.y - o.y) == 0) by (nonlinear_arith)
        requires
            c1.y == c.y,
            c.y == o.y,
    ;
    lemma_sqrt_square(2 * c.r);
    c1
}

/// A body already at the radii-sum distance on the axis is left in
/// place by a separation step.
proof fn lemma_settled_step(c1: Circle, b: Bundle) -> (c2: Circle)
    requires
        ({
            let o = circle_of_bundle(b@);
            &&& !is_self_tagged(b@)
            &&& c1.y == o.y
            &&& dist_spec(c1, o) >= c1.r + o.r
        }),
    ensures
        c2 == away_step(c1, b@),
        c2 == c1,
{
    away_step(c1, b@)
}

} // verus!
