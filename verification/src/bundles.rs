use vstd::prelude::*;

use crate::ecs::{Bundle, Component, Rgba, Shape, ECS};
use crate::fixed::{abs_i, div_trunc, isqrt, sqrt_val, tdiv, SCALE};

verus! {

/// A boundary rectangle in fixed-point world coordinates.
#[derive(Clone, Copy, PartialEq, Eq, Structural, Debug)]
pub struct Borders {
    pub left: i64,
    pub bottom: i64,
    pub right: i64,
    pub top: i64,
}

/// Configuration of the physics behavior bound into an entity: a
/// fixed-point gravity magnitude and a boundary rectangle. The
/// boundary is recomputed every tick from the canvas size but never
/// enforced; positions are not clamped.
#[derive(Clone, Copy, PartialEq, Eq, Structural, Debug)]
pub struct PHYS {
    pub gravity: i64,
    pub borders: Borders,
}

} // verus!

verus! {

/// Largest position magnitude (thousandths) the physics engine
/// accepts; beyond it the fixed-point intermediates could overflow.
pub const P_MAX: i64 = 1_000_000_000;

/// Largest velocity magnitude (thousandths) the physics engine accepts.
pub const V_MAX: i64 = 100_000_000;

/// Largest radius (thousandths) the physics engine accepts.
pub const R_MAX: i64 = 100_000_000;

/// Relies on rand::random_range over a half-open integer range: the
/// result lies in `lo..hi`. The call panics on an empty range, which
/// the precondition rules out.
#[verifier::external_body]
fn rand_range(lo: i64, hi: i64) -> (r: i64)
    requires
        lo < hi,
    ensures
        lo <= r < hi,
{
    rand::random_range(lo..hi)
}

/// The conventional layout of a freshly spawned particle bundle:
/// identity tag, position, velocity, drawable circle, physics
/// behavior, with every coordinate inside the engine's fixed-point
/// working range.
pub open spec fn atom_shape(b: Seq<Component>) -> bool {
    &&& b.len() == 5
    &&& b[0] matches Component::Name(n) && n@ == Seq::<char>::empty()
    &&& b[1] matches Component::Vec2(x, y) && (*x) matches Component::Float(xv) && (*y) matches
        Component::Float(yv) && -P_MAX <= xv <= P_MAX && -P_MAX <= yv <= P_MAX
    &&& b[2] matches Component::Vec2(vx, vy) && (*vx) matches Component::Float(vxv)
        && (*vy) matches Component::Float(vyv) && -V_MAX <= vxv <= V_MAX && -V_MAX <= vyv <= V_MAX
    &&& b[3] matches Component::GRAPHICS(g) && g matches Shape::Circle { radius, .. } && 0 <= radius
        <= R_MAX
    &&& b[4] is FUNC
}

/// Spawns one particle bundle: position drawn uniformly from ten
/// thousand world units around the origin, velocity from up to twenty
/// units per tick, radius five units, a random fill color, and the
/// physics behavior with its default configuration.
pub fn atom() -> (b: Bundle)
    ensures
        atom_shape(b@),
        (b@[1] matches Component::Vec2(x, y) && (*x) matches Component::Float(xv) && (*y) matches
            Component::Float(yv) && -10_000_000 <= xv <= 10_000_000 && -10_000_000 <= yv
            <= 10_000_000),
        (b@[2] matches Component::Vec2(vx, vy) && (*vx) matches Component::Float(vxv)
            && (*vy) matches Component::Float(vyv) && 0 <= vxv < 20_000 && 0 <= vyv < 20_000),
        (b@[3] matches Component::GRAPHICS(g) && g matches Shape::Circle { radius, x, y, color }
            && radius == 5_000 && x == 0 && y == 0 && 0 <= color.r <= 1_000 && 0 <= color.g
            <= 1_000 && 0 <= color.b <= 1_000 && color.a == 1_000),
        (b@[4] matches Component::FUNC(p, nm) && p == default_phys() && nm@ == "PHYS"@),
{
    let px: i64 = rand_range(-10_000_000, 10_000_001);
    let py: i64 = rand_range(-10_000_000, 10_000_001);
    let vx: i64 = rand_range(0, 20_000);
    let vy: i64 = rand_range(0, 20_000);
    let cr: i64 = rand_range(0, 1_001);
    let cg: i64 = rand_range(0, 1_001);
    let cb: i64 = rand_range(0, 1_001);
    let mut b: Vec<Component> = Vec::new();
    b.push(Component::Name(String::new()));
    b.push(Component::Vec2(Box::new(Component::Float(px)), Box::new(Component::Float(py))));
    b.push(Component::Vec2(Box::new(Component::Float(vx)), Box::new(Component::Float(vy))));
    b.push(
        Component::GRAPHICS(
            Shape::Circle {
                radius: 5_000,
                color: (Rgba { r: cr, g: cg, b: cb, a: 1_000 }),
                x: 0,
                y: 0,
            },
        ),
    );
    b.push(
        Component::FUNC(
            PHYS {
                gravity: SCALE,
                borders: (Borders {
                    left: -500_000,
                    bottom: -500_000,
                    right: 500_000,
                    top: 500_000,
                }),
            },
            String::from_str("PHYS"),
        ),
    );
    b
}

} // verus!

verus! {

/// A typed view of one particle: position, velocity and radius in
/// fixed-point thousandths of a world unit, plus the fill color.
#[derive(Clone, Copy, PartialEq, Eq, Structural, Debug)]
pub struct Circle {
    pub x: i64,
    pub y: i64,
    pub vx: i64,
    pub vy: i64,
    pub r: i64,
    pub color: Rgba,
}

/// Working range of a stored particle: what the swept-collision
/// arithmetic needs so that no fixed-point intermediate overflows.
pub open spec fn fits(c: Circle) -> bool {
    &&& -P_MAX <= c.x <= P_MAX
    &&& -P_MAX <= c.y <= P_MAX
    &&& -V_MAX <= c.vx <= V_MAX
    &&& -V_MAX <= c.vy <= V_MAX
    &&& 0 <= c.r <= R_MAX
}

/// Velocity slack left for one gravity update on top of `V_MAX`.
pub const G_MAX: i64 = 100_000;

/// Velocity range of the entity being updated, after gravity.
pub open spec fn self_v_ok(c: Circle) -> bool {
    &&& -V_MAX - G_MAX <= c.vx <= V_MAX + G_MAX
    &&& -V_MAX - G_MAX <= c.vy <= V_MAX + G_MAX
}

/// Position range of the entity being updated while the overlap
/// correction pushes it around.
pub const X_LIM: i64 = 10_000_000_000_000_000;

/// Distance of the circle's center from the origin.
pub open spec fn origin_dist(c: Circle) -> int {
    sqrt_val(c.x * c.x + c.y * c.y)
}

/// The gravity update: a constant-magnitude pull toward the origin,
/// added to the velocity. A body exactly at the origin receives a
/// zero velocity delta rather than a division by zero.
pub open spec fn gravity_spec(c: Circle, g: i64) -> Circle {
    let d = origin_dist(c);
    if d == 0 {
        c
    } else {
        Circle {
            vx: (c.vx + tdiv(tdiv(-c.x * SCALE, d) * g, SCALE as int)) as i64,
            vy: (c.vy + tdiv(tdiv(-c.y * SCALE, d) * g, SCALE as int)) as i64,
            ..c
        }
    }
}

/// Plain position integration: one tick at the current velocity.
pub open spec fn integrate_spec(c: Circle) -> Circle {
    Circle { x: (c.x + c.vx) as i64, y: (c.y + c.vy) as i64, ..c }
}

/// Velocity exchange of a damped bounce along `(nx, ny)` (a
/// fixed-point unit vector): each body's normal velocity component
/// becomes the other body's, scaled by `loss`; the tangential
/// component passes through unchanged, because the recombination uses
/// the same perpendicular `(ny, -nx)` that the decomposition used.
pub open spec fn reflect_spec(c1: Circle, c2: Circle, nx: int, ny: int, loss: int) -> (
    Circle,
    Circle,
) {
    let v1n = tdiv(c1.vx * nx + c1.vy * ny, SCALE as int);
    let v2n = tdiv(c2.vx * nx + c2.vy * ny, SCALE as int);
    let v1t = tdiv(c1.vx * ny - c1.vy * nx, SCALE as int);
    let v2t = tdiv(c2.vx * ny - c2.vy * nx, SCALE as int);
    let w1n = tdiv(v2n * loss, SCALE as int);
    let w2n = tdiv(v1n * loss, SCALE as int);
    (
        Circle {
            vx: tdiv(w1n * nx + v1t * ny, SCALE as int) as i64,
            vy: tdiv(w1n * ny - v1t * nx, SCALE as int) as i64,
            ..c1
        },
        Circle {
            vx: tdiv(w2n * nx + v2t * ny, SCALE as int) as i64,
            vy: tdiv(w2n * ny - v2t * nx, SCALE as int) as i64,
            ..c2
        },
    )
}

impl Circle {
    /// Magnitude of the velocity vector, rounded down.
    pub fn get_speed(&self) -> (s: i64)
        requires
            self_v_ok(*self),
        ensures
            s == sqrt_val(self.vx * self.vx + self.vy * self.vy),
            0 <= s <= 150_000_000,
    {
        proof {
            assert(0 <= self.vx * self.vx <= 100_100_000i64 * 100_100_000i64) by (nonlinear_arith)
                requires
                    -100_100_000 <= self.vx <= 100_100_000,
            ;
            assert(0 <= self.vy * self.vy <= 100_100_000i64 * 100_100_000i64) by (nonlinear_arith)
                requires
                    -100_100_000 <= self.vy <= 100_100_000,
            ;
        }
        let q: u128 = ((self.vx as i128 * self.vx as i128) + (self.vy as i128 * self.vy as i128))
            as u128;
        let s: u128 = isqrt(q);
        proof {
            crate::fixed::lemma_sqrt_val(q as int);
            assert(150_000_001i128 * 150_000_001i128 > q) by (nonlinear_arith)
                requires
                    q <= 2 * (100_100_000i128 * 100_100_000i128),
            ;
            crate::fixed::lemma_sqrt_unique(q as int, sqrt_val(q as int));
            if s > 150_000_000 {
                assert(s * s <= q);
                assert(s * s >= 150_000_001i128 * 150_000_001i128) by (nonlinear_arith)
                    requires
                        s >= 150_000_001,
                ;
            }
        }
        s as i64
    }

    /// Straight-line distance between the two centers, rounded down.
    pub fn distance(&self, other: &Circle) -> (d: i64)
        requires
            -X_LIM <= self.x <= X_LIM,
            -X_LIM <= self.y <= X_LIM,
            -P_MAX <= other.x <= P_MAX,
            -P_MAX <= other.y <= P_MAX,
        ensures
            d == sqrt_val(
                (self.x - other.x) * (self.x - other.x) + (self.y - other.y) * (self.y - other.y),
            ),
            0 <= d <= 30_000_000_000_000_000,
    {
        let dx: i128 = self.x as i128 - other.x as i128;
        let dy: i128 = self.y as i128 - other.y as i128;
        proof {
            assert(0 <= (dx as int) * (dx as int) <= 10_001_000_000_000_000i128
                * 10_001_000_000_000_000i128) by (nonlinear_arith)
                requires
                    -10_001_000_000_000_000 <= dx as int <= 10_001_000_000_000_000,
            ;
            assert(0 <= (dy as int) * (dy as int) <= 10_001_000_000_000_000i128
                * 10_001_000_000_000_000i128) by (nonlinear_arith)
                requires
                    -10_001_000_000_000_000 <= dy as int <= 10_001_000_000_000_000,
            ;
        }
        let q: u128 = (dx * dx + dy * dy) as u128;
        let d: u128 = isqrt(q);
        proof {
            crate::fixed::lemma_sqrt_val(q as int);
            if d > 30_000_000_000_000_000 {
                assert(d * d <= q);
                assert(d * d > 2 * (10_001_000_000_000_000i128 * 10_001_000_000_000_000i128))
                    by (nonlinear_arith)
                    requires
                        d >= 30_000_000_000_000_001u128,
                ;
            }
        }
        d as i64
    }
}

} // verus!

verus! {

/// Restitution (loss) coefficient applied to exchanged normal
/// velocity components, in thousandths.
pub const LOSS: i64 = 800;

/// Result of a discrete overlap test: how deep the bodies overlap
/// (negative), their center distance, and the fixed-point unit normal
/// pointing from the other body toward this one.
#[derive(Clone, Copy, PartialEq, Eq, Structural, Debug)]
pub struct Overlap {
    pub mag: i64,
    pub distance: i64,
    pub nx: i64,
    pub ny: i64,
}

/// Center distance of two circles.
pub open spec fn dist_spec(a: Circle, b: Circle) -> int {
    sqrt_val((a.x - b.x) * (a.x - b.x) + (a.y - b.y) * (a.y - b.y))
}

/// Unit normal (in thousandths) from `b` toward `a`; the zero vector
/// when the centers coincide, so that a well-defined displacement
/// comes out of the guard rather than a division by zero.
pub open spec fn sep_nx(a: Circle, b: Circle) -> int {
    if dist_spec(a, b) == 0 {
        0
    } else {
        tdiv((a.x - b.x) * SCALE, dist_spec(a, b))
    }
}

/// See [`sep_nx`].
pub open spec fn sep_ny(a: Circle, b: Circle) -> int {
    if dist_spec(a, b) == 0 {
        0
    } else {
        tdiv((a.y - b.y) * SCALE, dist_spec(a, b))
    }
}

impl Circle {
    /// Applies the gravity update in place: a constant-magnitude pull
    /// toward the origin added to the velocity, with a zero delta when
    /// the body sits exactly at the origin.
    pub fn gravity(&mut self, g: i64)
        requires
            -X_LIM <= old(self).x <= X_LIM,
            -X_LIM <= old(self).y <= X_LIM,
            -V_MAX <= old(self).vx <= V_MAX,
            -V_MAX <= old(self).vy <= V_MAX,
            0 <= g <= G_MAX,
        ensures
            *final(self) == gravity_spec(*old(self), g),
            self_v_ok(*final(self)),
    {
        let x: i128 = self.x as i128;
        let y: i128 = self.y as i128;
        proof {
            assert(0 <= (x as int) * (x as int) <= 10_000_000_000_000_000i128
                * 10_000_000_000_000_000i128) by (nonlinear_arith)
                requires
                    -10_000_000_000_000_000 <= x as int <= 10_000_000_000_000_000,
            ;
            assert(0 <= (y as int) * (y as int) <= 10_000_000_000_000_000i128
                * 10_000_000_000_000_000i128) by (nonlinear_arith)
                requires
                    -10_000_000_000_000_000 <= y as int <= 10_000_000_000_000_000,
            ;
        }
        let q: u128 = (x * x + y * y) as u128;
        let d: u128 = isqrt(q);
        if d == 0 {
            return ;
        }
        proof {
            crate::fixed::lemma_sqrt_val(q as int);
            assert((d as int) * (d as int) <= q as int);
            assert(abs_i(x as int) <= d as int) by (nonlinear_arith)
                requires
                    (x as int) * (x as int) <= q as int,
                    q < ((d as int) + 1) * ((d as int) + 1),
                    d as int >= 0,
            ;
            assert(abs_i(y as int) <= d as int) by (nonlinear_arith)
                requires
                    (y as int) * (y as int) <= q as int,
                    q < ((d as int) + 1) * ((d as int) + 1),
                    d as int >= 0,
            ;
        }
        proof {
            assert(-((SCALE as int) * (d as int)) <= -(x as int) * SCALE <= (SCALE as int) * (
            d as int)) by (nonlinear_arith)
                requires
                    abs_i(x as int) <= d as int,
            ;
            assert(-((SCALE as int) * (d as int)) <= -(y as int) * SCALE <= (SCALE as int) * (
            d as int)) by (nonlinear_arith)
                requires
                    abs_i(y as int) <= d as int,
            ;
            assert(d as int <= 20_000_000_000_000_000) by (nonlinear_arith)
                requires
                    (d as int) * (d as int) <= q as int,
                    q as int <= 2 * (10_000_000_000_000_000i128 * 10_000_000_000_000_000i128),
                    d as int >= 0,
            ;
            crate::fixed::lemma_tdiv_bound_by(-(x as int) * SCALE, SCALE as int, d as int);
            crate::fixed::lemma_tdiv_bound_by(-(y as int) * SCALE, SCALE as int, d as int);
        }
        let ux: i128 = div_trunc(-x * (SCALE as i128), d as i128);
        let uy: i128 = div_trunc(-y * (SCALE as i128), d as i128);
        proof {
            assert(-((g as int) * (SCALE as int)) <= (ux as int) * (g as int) <= (g as int) * (
            SCALE as int)) by (nonlinear_arith)
                requires
                    -(SCALE as int) <= ux as int <= SCALE as int,
                    0 <= g,
            ;
            assert(-((g as int) * (SCALE as int)) <= (uy as int) * (g as int) <= (g as int) * (
            SCALE as int)) by (nonlinear_arith)
                requires
                    -(SCALE as int) <= uy as int <= SCALE as int,
                    0 <= g,
            ;
            crate::fixed::lemma_tdiv_bound_by((ux as int) * (g as int), g as int, SCALE as int);
            crate::fixed::lemma_tdiv_bound_by((uy as int) * (g as int), g as int, SCALE as int);
        }
        let gx: i128 = div_trunc(ux * (g as i128), SCALE as i128);
        let gy: i128 = div_trunc(uy * (g as i128), SCALE as i128);
        self.vx = self.vx + gx as i64;
        self.vy = self.vy + gy as i64;
    }

    /// Exchanges the normal velocity components of two bodies along
    /// the given fixed-point unit normal, scaling each swapped
    /// component by `loss`; tangential components pass through
    /// unchanged.
    #[verifier::rlimit(100)]
    pub fn reflect_velocities(circle1: &mut Circle, circle2: &mut Circle, nx: i64, ny: i64, loss: i64)
        requires
            -SCALE <= nx <= SCALE,
            -SCALE <= ny <= SCALE,
            0 <= loss <= SCALE,
            -2 * V_MAX <= old(circle1).vx <= 2 * V_MAX,
            -2 * V_MAX <= old(circle1).vy <= 2 * V_MAX,
            -2 * V_MAX <= old(circle2).vx <= 2 * V_MAX,
            -2 * V_MAX <= old(circle2).vy <= 2 * V_MAX,
        ensures
            (*final(circle1), *final(circle2)) == reflect_spec(
                *old(circle1),
                *old(circle2),
                nx as int,
                ny as int,
                loss as int,
            ),
            -8 * V_MAX <= final(circle1).vx <= 8 * V_MAX,
            -8 * V_MAX <= final(circle1).vy <= 8 * V_MAX,
            -8 * V_MAX <= final(circle2).vx <= 8 * V_MAX,
            -8 * V_MAX <= final(circle2).vy <= 8 * V_MAX,
    {
        let nxl: i128 = nx as i128;
        let nyl: i128 = ny as i128;
        proof {
            lemma_prod_small(old(circle1).vx as int, nx as int);
            lemma_prod_small(old(circle1).vy as int, ny as int);
            lemma_prod_small(old(circle2).vx as int, nx as int);
            lemma_prod_small(old(circle2).vy as int, ny as int);
            lemma_prod_small(old(circle1).vx as int, ny as int);
            lemma_prod_small(old(circle1).vy as int, nx as int);
            lemma_prod_small(old(circle2).vx as int, ny as int);
            lemma_prod_small(old(circle2).vy as int, nx as int);
        }
        let v1n: i128 = div_trunc(
            circle1.vx as i128 * nxl + circle1.vy as i128 * nyl,
            SCALE as i128,
        );
        let v2n: i128 = div_trunc(
            circle2.vx as i128 * nxl + circle2.vy as i128 * nyl,
            SCALE as i128,
        );
        let v1t: i128 = div_trunc(
            circle1.vx as i128 * nyl - circle1.vy as i128 * nxl,
            SCALE as i128,
        );
        let v2t: i128 = div_trunc(
            circle2.vx as i128 * nyl - circle2.vy as i128 * nxl,
            SCALE as i128,
        );
        proof {
            lemma_vn_bound(old(circle1).vx as int, old(circle1).vy as int, nx as int, ny as int);
            lemma_vn_bound(old(circle2).vx as int, old(circle2).vy as int, nx as int, ny as int);
            lemma_vn_bound(old(circle1).vx as int, -(old(circle1).vy as int), ny as int, nx as int);
            lemma_vn_bound(old(circle2).vx as int, -(old(circle2).vy as int), ny as int, nx as int);
            let a1 = old(circle1).vx as int;
            let b1 = old(circle1).vy as int;
            let a2 = old(circle2).vx as int;
            let b2 = old(circle2).vy as int;
            assert(a1 * ny - b1 * nx == a1 * ny + (-b1) * nx) by (nonlinear_arith);
            assert(a2 * ny - b2 * nx == a2 * ny + (-b2) * nx) by (nonlinear_arith);
            lemma_prod_small(v2n as int, loss as int);
            lemma_prod_small(v1n as int, loss as int);
        }
        let w1n: i128 = div_trunc(v2n * (loss as i128), SCALE as i128);
        let w2n: i128 = div_trunc(v1n * (loss as i128), SCALE as i128);
        proof {
            crate::fixed::lemma_tdiv_scale_bound(v2n as int, loss as int, SCALE as int);
            crate::fixed::lemma_tdiv_scale_bound(v1n as int, loss as int, SCALE as int);
            lemma_prod_small(w1n as int, nx as int);
            lemma_prod_small(v1t as int, ny as int);
            lemma_prod_small(w1n as int, ny as int);
            lemma_prod_small(v1t as int, nx as int);
            lemma_prod_small(w2n as int, nx as int);
            lemma_prod_small(v2t as int, ny as int);
            lemma_prod_small(w2n as int, ny as int);
            lemma_prod_small(v2t as int, nx as int);
        }
        let r1x: i128 = div_trunc(w1n * nxl + v1t * nyl, SCALE as i128);
        let r1y: i128 = div_trunc(w1n * nyl - v1t * nxl, SCALE as i128);
        let r2x: i128 = div_trunc(w2n * nxl + v2t * nyl, SCALE as i128);
        let r2y: i128 = div_trunc(w2n * nyl - v2t * nxl, SCALE as i128);
        proof {
            lemma_vn_bound(w1n as int, v1t as int, nx as int, ny as int);
            lemma_vn_bound(w1n as int, -(v1t as int), ny as int, nx as int);
            lemma_vn_bound(w2n as int, v2t as int, nx as int, ny as int);
            lemma_vn_bound(w2n as int, -(v2t as int), ny as int, nx as int);
            assert(w1n * ny - v1t * nx == w1n * ny + (-(v1t as int)) * nx) by (nonlinear_arith);
            assert(w2n * ny - v2t * nx == w2n * ny + (-(v2t as int)) * nx) by (nonlinear_arith);
        }
        circle1.vx = r1x as i64;
        circle1.vy = r1y as i64;
        circle2.vx = r2x as i64;
        circle2.vy = r2y as i64;
    }

    /// Discrete overlap test: when the center distance is below the
    /// radii sum, reports the (negative) penetration, the distance and
    /// the unit normal from `other` toward `self`; `None` otherwise.
    pub fn collides(&self, other: &Circle) -> (r: Option<Overlap>)
        requires
            -X_LIM <= self.x <= X_LIM,
            -X_LIM <= self.y <= X_LIM,
            0 <= self.r <= R_MAX,
            -P_MAX <= other.x <= P_MAX,
            -P_MAX <= other.y <= P_MAX,
            0 <= other.r <= R_MAX,
        ensures
            (dist_spec(*self, *other) - self.r - other.r >= 0) ==> r is None,
            (dist_spec(*self, *other) - self.r - other.r < 0) ==> (r matches Some(o)
                && o.mag == dist_spec(*self, *other) - self.r - other.r && o.distance == dist_spec(
                *self,
                *other,
            ) && o.nx == sep_nx(*self, *other) && o.ny == sep_ny(*self, *other)),
            r matches Some(o) ==> -SCALE <= o.nx <= SCALE && -SCALE <= o.ny <= SCALE && o.mag < 0
                && 0 <= o.distance <= 30_000_000_000_000_000,
    {
        let d: i64 = self.distance(other);
        let mag: i64 = d - self.r - other.r;
        if mag < 0 {
            if d == 0 {
                return Some(Overlap { mag, distance: d, nx: 0, ny: 0 });
            }
            proof {
                let q = (self.x - other.x) * (self.x - other.x) + (self.y - other.y) * (self.y
                    - other.y);
                assert((self.x - other.x) * (self.x - other.x) >= 0) by (nonlinear_arith);
                assert((self.y - other.y) * (self.y - other.y) >= 0) by (nonlinear_arith);
                crate::fixed::lemma_sqrt_val(q);
                assert(abs_i(self.x - other.x) <= d as int) by (nonlinear_arith)
                    requires
                        (self.x - other.x) * (self.x - other.x) <= q,
                        q < ((d as int) + 1) * ((d as int) + 1),
                        d as int >= 0,
                ;
                assert(abs_i(self.y - other.y) <= d as int) by (nonlinear_arith)
                    requires
                        (self.y - other.y) * (self.y - other.y) <= q,
                        q < ((d as int) + 1) * ((d as int) + 1),
                        d as int >= 0,
                ;
                crate::fixed::lemma_tdiv_bound_by(
                    (self.x - other.x) * SCALE,
                    SCALE as int,
                    d as int,
                );
                assert(-((SCALE as int) * (d as int)) <= (self.x - other.x) * SCALE <= (
                SCALE as int) * (d as int)) by (nonlinear_arith)
                    requires
                        abs_i(self.x - other.x) <= d as int,
                ;
                crate::fixed::lemma_tdiv_bound_by(
                    (self.y - other.y) * SCALE,
                    SCALE as int,
                    d as int,
                );
                assert(-((SCALE as int) * (d as int)) <= (self.y - other.y) * SCALE <= (
                SCALE as int) * (d as int)) by (nonlinear_arith)
                    requires
                        abs_i(self.y - other.y) <= d as int,
                ;
            }
            let nx: i128 = div_trunc(
                (self.x as i128 - other.x as i128) * (SCALE as i128),
                d as i128,
            );
            let ny: i128 = div_trunc(
                (self.y as i128 - other.y as i128) * (SCALE as i128),
                d as i128,
            );
            return Some(Overlap { mag, distance: d, nx: nx as i64, ny: ny as i64 });
        }
        None
    }
}

/// `|tdiv(a*p + b*q, SCALE)| <= |a| + |b|` whenever the two factors
/// `p`, `q` are fixed-point fractions of magnitude at most `SCALE`.
proof fn lemma_vn_bound(a: int, b: int, p: int, q: int)
    requires
        -(SCALE as int) <= p <= SCALE as int,
        -(SCALE as int) <= q <= SCALE as int,
    ensures
        -(abs_i(a) + abs_i(b)) <= tdiv(a * p + b * q, SCALE as int) <= abs_i(a) + abs_i(b),
{
    assert(-((abs_i(a) + abs_i(b)) * (SCALE as int)) <= a * p + b * q <= (abs_i(a) + abs_i(b)) * (
    SCALE as int)) by (nonlinear_arith)
        requires
            -(SCALE as int) <= p <= SCALE as int,
            -(SCALE as int) <= q <= SCALE as int,
    ;
    crate::fixed::lemma_tdiv_bound_by(a * p + b * q, abs_i(a) + abs_i(b), SCALE as int);
}

} // verus!

verus! {

/// Any product of a velocity-sized factor (magnitude at most one
/// billion) and a fixed-point fraction (magnitude at most `SCALE`)
/// stays far inside the `i128` range.
proof fn lemma_prod_small(a: int, n: int)
    requires
        -1_000_000_000 <= a <= 1_000_000_000,
        -(SCALE as int) <= n <= SCALE as int,
    ensures
        -1_000_000_000_000i128 <= a * n <= 1_000_000_000_000i128,
{
    assert(-1_000_000_000_000i128 <= a * n <= 1_000_000_000_000i128) by (nonlinear_arith)
        requires
            -1_000_000_000 <= a <= 1_000_000_000,
            -(SCALE as int) <= n <= SCALE as int,
    ;
}

} // verus!

verus! {

/// Below this value of the quadratic's leading coefficient the
/// relative motion counts as parallel and no collision is reported:
/// one ten-thousandth of a squared world unit, in squared
/// thousandths.
pub const TOL_A: i64 = 100;

/// Leading coefficient of the swept-collision quadratic: the squared
/// magnitude of the relative velocity.
pub open spec fn quad_a(s: Circle, o: Circle) -> int {
    (o.vx - s.vx) * (o.vx - s.vx) + (o.vy - s.vy) * (o.vy - s.vy)
}

/// Linear coefficient: twice the dot product of relative position and
/// relative velocity.
pub open spec fn quad_b(s: Circle, o: Circle) -> int {
    2 * ((o.x - s.x) * (o.vx - s.vx) + (o.y - s.y) * (o.vy - s.vy))
}

/// Constant coefficient: squared center distance minus squared radii
/// sum.
pub open spec fn quad_c(s: Circle, o: Circle) -> int {
    (o.x - s.x) * (o.x - s.x) + (o.y - s.y) * (o.y - s.y) - (s.r + o.r) * (s.r + o.r)
}

/// Discriminant of the swept-collision quadratic.
pub open spec fn quad_delta(s: Circle, o: Circle) -> int {
    quad_b(s, o) * quad_b(s, o) - 4 * quad_a(s, o) * quad_c(s, o)
}

/// Earliest root of the quadratic, as a fixed-point fraction of the
/// tick (0 = now, `SCALE` = the end of this tick's motion window).
pub open spec fn hit_time(s: Circle, o: Circle) -> int {
    tdiv((-quad_b(s, o) - sqrt_val(quad_delta(s, o))) * (SCALE as int), 2 * quad_a(s, o))
}

/// Relative displacement at contact time, x component (thousandths).
pub open spec fn cnx_raw(s: Circle, o: Circle) -> int {
    (o.x - s.x) + tdiv((o.vx - s.vx) * hit_time(s, o), SCALE as int)
}

/// Relative displacement at contact time, y component (thousandths).
pub open spec fn cny_raw(s: Circle, o: Circle) -> int {
    (o.y - s.y) + tdiv((o.vy - s.vy) * hit_time(s, o), SCALE as int)
}

/// Magnitude of the contact-time relative displacement.
pub open spec fn contact_mag(s: Circle, o: Circle) -> int {
    sqrt_val(cnx_raw(s, o) * cnx_raw(s, o) + cny_raw(s, o) * cny_raw(s, o))
}

/// Fixed-point unit normal at contact time, x component; zero when
/// the contact displacement has zero magnitude (the coincident-center
/// guard).
pub open spec fn unit_nx(s: Circle, o: Circle) -> int {
    if contact_mag(s, o) == 0 {
        0
    } else {
        tdiv(cnx_raw(s, o) * (SCALE as int), contact_mag(s, o))
    }
}

/// See [`unit_nx`].
pub open spec fn unit_ny(s: Circle, o: Circle) -> int {
    if contact_mag(s, o) == 0 {
        0
    } else {
        tdiv(cny_raw(s, o) * (SCALE as int), contact_mag(s, o))
    }
}

/// Straight-line distance this body would travel to reach its own
/// position at the hit time.
pub open spec fn travel_dist(s: Circle, o: Circle) -> int {
    let tx = tdiv(s.vx * hit_time(s, o), SCALE as int);
    let ty = tdiv(s.vy * hit_time(s, o), SCALE as int);
    sqrt_val(tx * tx + ty * ty)
}

/// The swept-collision test reports a hit exactly when the motion is
/// not parallel, the discriminant is non-negative and the earliest
/// root lies inside this tick.
pub open spec fn hit_reported(s: Circle, o: Circle) -> bool {
    quad_a(s, o) >= TOL_A && quad_delta(s, o) >= 0 && 0 <= hit_time(s, o) <= SCALE
}

/// What the swept-collision test reports: contact magnitude, travel
/// distance, fixed-point unit normal and hit time.
#[derive(Clone, Copy, PartialEq, Eq, Structural, Debug)]
pub struct Hit {
    pub mag: i64,
    pub distance: i64,
    pub nx: i64,
    pub ny: i64,
    pub t: i64,
}

impl Circle {
    /// Continuous (swept) collision detection against one other body:
    /// solves the quadratic for the earliest time within this tick at
    /// which the moving circles touch. Near-parallel relative motion
    /// and a negative discriminant report no collision; a reported
    /// time always lies inside the tick's motion window.
    #[verifier::rlimit(100)]
    pub fn intersects(&self, other: &Circle) -> (r: Option<Hit>)
        requires
            -P_MAX <= self.x <= P_MAX,
            -P_MAX <= self.y <= P_MAX,
            self_v_ok(*self),
            0 <= self.r <= R_MAX,
            fits(*other),
        ensures
            r is Some <==> hit_reported(*self, *other),
            r matches Some(h) ==> {
                &&& h.t == hit_time(*self, *other)
                &&& h.mag == contact_mag(*self, *other)
                &&& h.distance == travel_dist(*self, *other)
                &&& h.nx == unit_nx(*self, *other)
                &&& h.ny == unit_ny(*self, *other)
                &&& 0 <= h.t <= SCALE
                &&& -SCALE <= h.nx <= SCALE
                &&& -SCALE <= h.ny <= SCALE
                &&& 0 <= h.distance
                &&& 0 <= h.mag
            },
    {
        let dx: i128 = other.x as i128 - self.x as i128;
        let dy: i128 = other.y as i128 - self.y as i128;
        let dvx: i128 = other.vx as i128 - self.vx as i128;
        let dvy: i128 = other.vy as i128 - self.vy as i128;
        let dr: i128 = self.r as i128 + other.r as i128;
        proof {
            assert(0 <= dvx * dvx <= 400_000_000i128 * 400_000_000i128) by (nonlinear_arith)
                requires
                    -400_000_000 <= dvx <= 400_000_000,
            ;
            assert(0 <= dvy * dvy <= 400_000_000i128 * 400_000_000i128) by (nonlinear_arith)
                requires
                    -400_000_000 <= dvy <= 400_000_000,
            ;
            assert(-(2_000_000_000i128 * 400_000_000i128) <= dx * dvx <= 2_000_000_000i128
                * 400_000_000i128) by (nonlinear_arith)
                requires
                    -2_000_000_000 <= dx <= 2_000_000_000,
                    -400_000_000 <= dvx <= 400_000_000,
            ;
            assert(-(2_000_000_000i128 * 400_000_000i128) <= dy * dvy <= 2_000_000_000i128
                * 400_000_000i128) by (nonlinear_arith)
                requires
                    -2_000_000_000 <= dy <= 2_000_000_000,
                    -400_000_000 <= dvy <= 400_000_000,
            ;
            assert(0 <= dx * dx <= 2_000_000_000i128 * 2_000_000_000i128) by (nonlinear_arith)
                requires
                    -2_000_000_000 <= dx <= 2_000_000_000,
            ;
            assert(0 <= dy * dy <= 2_000_000_000i128 * 2_000_000_000i128) by (nonlinear_arith)
                requires
                    -2_000_000_000 <= dy <= 2_000_000_000,
            ;
            assert(0 <= dr * dr <= 200_000_000i128 * 200_000_000i128) by (nonlinear_arith)
                requires
                    0 <= dr <= 200_000_000,
            ;
        }
        let a: i128 = dvx * dvx + dvy * dvy;
        let b: i128 = 2 * (dx * dvx + dy * dvy);
        let c: i128 = dx * dx + dy * dy - dr * dr;
        proof {
            assert(a as int == quad_a(*self, *other));
            assert(b as int == quad_b(*self, *other));
            assert(c as int == quad_c(*self, *other));
        }
        if a < TOL_A as i128 {
            return None;
        }
        proof {
            assert(0 <= b * b <= 3_200_000_000_000_000_000i128 * 3_200_000_000_000_000_000i128)
                by (nonlinear_arith)
                requires
                    -3_200_000_000_000_000_000 <= b <= 3_200_000_000_000_000_000,
            ;
            assert(-(400_000_000_000_000_000i128 * 9_000_000_000_000_000_000i128) <= a * c
                && a * c <= 400_000_000_000_000_000i128 * 9_000_000_000_000_000_000i128)
                by (nonlinear_arith)
                requires
                    0 <= a <= 320_000_000_000_000_000,
                    -8_100_000_000_000_000_000 <= c <= 8_100_000_000_000_000_000,
            ;
        }
        let delta: i128 = b * b - 4 * (a * c);
        proof {
            let ga = quad_a(*self, *other);
            let gc = quad_c(*self, *other);
            assert(4 * ((a as int) * (c as int)) == 4 * ga * gc) by (nonlinear_arith)
                requires
                    a as int == ga,
                    c as int == gc,
            ;
            assert(delta as int == quad_delta(*self, *other));
        }
        if delta < 0 {
            return None;
        }
        let sd: u128 = isqrt(delta as u128);
        proof {
            crate::fixed::lemma_sqrt_val(delta as int);
            assert(sd as int <= 5_000_000_000_000_000_000i128) by (nonlinear_arith)
                requires
                    (sd as int) * (sd as int) <= delta as int,
                    delta as int <= 3_200_000_000_000_000_000i128 * 3_200_000_000_000_000_000i128
                        + 4 * (400_000_000_000_000_000i128 * 9_000_000_000_000_000_000i128),
                    0 <= sd as int,
            ;
        }
        let tnum: i128 = -b - sd as i128;
        proof {
            assert(-(8_200_000_000_000_000_000i128 * 1000i128) <= tnum * (SCALE as i128) && tnum
                * (SCALE as i128) <= 8_200_000_000_000_000_000i128 * 1000i128) by (nonlinear_arith)
                requires
                    -8_200_000_000_000_000_000i128 <= tnum <= 8_200_000_000_000_000_000i128,
                    SCALE as i128 == 1000,
            ;
        }
        let t: i128 = div_trunc(tnum * (SCALE as i128), 2 * a);
        if t < 0 || t > SCALE as i128 {
            return None;
        }
        proof {
            crate::fixed::lemma_tdiv_scale_bound(self.vx as int, t as int, SCALE as int);
            crate::fixed::lemma_tdiv_scale_bound(self.vy as int, t as int, SCALE as int);
            lemma_prod_small(self.vx as int, t as int);
            lemma_prod_small(self.vy as int, t as int);
        }
        let tx: i128 = div_trunc(self.vx as i128 * t, SCALE as i128);
        let ty: i128 = div_trunc(self.vy as i128 * t, SCALE as i128);
        proof {
            assert(0 <= tx * tx <= 400_000_000i128 * 400_000_000i128) by (nonlinear_arith)
                requires
                    -400_000_000 <= tx <= 400_000_000,
            ;
            assert(0 <= ty * ty <= 400_000_000i128 * 400_000_000i128) by (nonlinear_arith)
                requires
                    -400_000_000 <= ty <= 400_000_000,
            ;
        }
        let dq: u128 = (tx * tx + ty * ty) as u128;
        let distance: u128 = isqrt(dq);
        proof {
            crate::fixed::lemma_sqrt_val(dq as int);
            assert(distance as int <= 600_000_000i128) by (nonlinear_arith)
                requires
                    (distance as int) * (distance as int) <= dq as int,
                    dq as int <= 2 * (400_000_000i128 * 400_000_000i128),
                    0 <= distance as int,
            ;
            crate::fixed::lemma_tdiv_scale_bound(dvx as int, t as int, SCALE as int);
            crate::fixed::lemma_tdiv_scale_bound(dvy as int, t as int, SCALE as int);
            lemma_prod_small(dvx as int, t as int);
            lemma_prod_small(dvy as int, t as int);
        }
        let nx0: i128 = dx + div_trunc(dvx * t, SCALE as i128);
        let ny0: i128 = dy + div_trunc(dvy * t, SCALE as i128);
        proof {
            assert(0 <= nx0 * nx0 <= 2_400_000_000i128 * 2_400_000_000i128) by (nonlinear_arith)
                requires
                    -2_400_000_000 <= nx0 <= 2_400_000_000,
            ;
            assert(0 <= ny0 * ny0 <= 2_400_000_000i128 * 2_400_000_000i128) by (nonlinear_arith)
                requires
                    -2_400_000_000 <= ny0 <= 2_400_000_000,
            ;
        }
        let mq: u128 = (nx0 * nx0 + ny0 * ny0) as u128;
        let mag: u128 = isqrt(mq);
        if mag == 0 {
            return Some(
                Hit { mag: 0, distance: distance as i64, nx: 0, ny: 0, t: t as i64 },
            );
        }
        proof {
            crate::fixed::lemma_sqrt_val(mq as int);
            assert(mag as int <= 4_000_000_000i128) by (nonlinear_arith)
                requires
                    (mag as int) * (mag as int) <= mq as int,
                    mq as int <= 2 * (2_400_000_000i128 * 2_400_000_000i128),
                    0 <= mag as int,
            ;
            assert(abs_i(nx0 as int) <= mag as int) by (nonlinear_arith)
                requires
                    (nx0 as int) * (nx0 as int) <= mq as int,
                    (mq as int) < ((mag as int) + 1) * ((mag as int) + 1),
                    mag as int >= 0,
            ;
            assert(abs_i(ny0 as int) <= mag as int) by (nonlinear_arith)
                requires
                    (ny0 as int) * (ny0 as int) <= mq as int,
                    (mq as int) < ((mag as int) + 1) * ((mag as int) + 1),
                    mag as int >= 0,
            ;
            assert(-((SCALE as int) * (mag as int)) <= (nx0 as int) * SCALE <= (SCALE as int) * (
            mag as int)) by (nonlinear_arith)
                requires
                    abs_i(nx0 as int) <= mag as int,
            ;
            assert(-((SCALE as int) * (mag as int)) <= (ny0 as int) * SCALE <= (SCALE as int) * (
            mag as int)) by (nonlinear_arith)
                requires
                    abs_i(ny0 as int) <= mag as int,
            ;
            crate::fixed::lemma_tdiv_bound_by((nx0 as int) * SCALE, SCALE as int, mag as int);
            crate::fixed::lemma_tdiv_bound_by((ny0 as int) * SCALE, SCALE as int, mag as int);
        }
        let ux: i128 = div_trunc(nx0 * (SCALE as i128), mag as i128);
        let uy: i128 = div_trunc(ny0 * (SCALE as i128), mag as i128);
        Some(
            Hit {
                mag: mag as i64,
                distance: distance as i64,
                nx: ux as i64,
                ny: uy as i64,
                t: t as i64,
            },
        )
    }
}

} // verus!

verus! {

/// Fold state of the bundle scan: the circle accumulated so far and
/// whether the next two-vector of numbers is still the position (the
/// flag drops to false once a position y has been taken).
pub struct ScanState {
    pub c: Circle,
    pub pos: bool,
}

/// The all-zero circle the scan starts from; missing or malformed
/// slots keep these defaults rather than failing.
pub open spec fn scan_init() -> ScanState {
    ScanState {
        c: Circle { x: 0, y: 0, vx: 0, vy: 0, r: 0, color: Rgba { r: 0, g: 0, b: 0, a: 1000 } },
        pos: true,
    }
}

/// One step of the bundle scan, mirroring how a component updates the
/// derived circle: a two-vector of numbers feeds position first and
/// velocity second, a drawable feeds radius and color, anything else
/// is ignored.
pub open spec fn scan_step(st: ScanState, comp: Component) -> ScanState {
    match comp {
        Component::Vec2(a, b) => {
            let st1 = match *a {
                Component::Float(f) => if st.pos {
                    ScanState { c: Circle { x: f, ..st.c }, ..st }
                } else {
                    ScanState { c: Circle { vx: f, ..st.c }, ..st }
                },
                _ => st,
            };
            match *b {
                Component::Float(f2) => if st1.pos {
                    ScanState { c: Circle { y: f2, ..st1.c }, pos: false }
                } else {
                    ScanState { c: Circle { vy: f2, ..st1.c }, ..st1 }
                },
                _ => st1,
            }
        },
        Component::GRAPHICS(g) => match g {
            Shape::Circle { radius, color, .. } => ScanState {
                c: Circle { r: radius, color, ..st.c },
                ..st
            },
        },
        _ => st,
    }
}

/// The scan state after the first `n` components.
pub open spec fn scan_bundle(b: Seq<Component>, n: int) -> ScanState
    decreases n,
{
    if n <= 0 {
        scan_init()
    } else {
        scan_step(scan_bundle(b, n - 1), b[n - 1])
    }
}

/// The circle view a bundle yields.
pub open spec fn circle_of_bundle(b: Seq<Component>) -> Circle {
    scan_bundle(b, b.len() as int).c
}

/// The physics configuration that a written-back bundle carries:
/// unit gravity and the default boundary box.
pub open spec fn default_phys() -> PHYS {
    PHYS {
        gravity: SCALE,
        borders: Borders {
            left: -500_000i64,
            bottom: -500_000i64,
            right: 500_000i64,
            top: 500_000i64,
        },
    }
}

/// The exact shape of a bundle written back from a circle view: an
/// empty identity tag, position, velocity, the drawable at the
/// circle's position, and a fresh physics behavior with the default
/// configuration (whatever tag or configuration the entity held
/// before is discarded).
pub open spec fn circle_bundle(b: Seq<Component>, c: Circle) -> bool {
    &&& b.len() == 5
    &&& (b[0] matches Component::Name(n) && n@ == Seq::<char>::empty())
    &&& (b[1] matches Component::Vec2(a, y) && *a == Component::Float(c.x) && *y
        == Component::Float(c.y))
    &&& (b[2] matches Component::Vec2(a, y) && *a == Component::Float(c.vx) && *y
        == Component::Float(c.vy))
    &&& b[3] == Component::GRAPHICS(Shape::Circle { radius: c.r, color: c.color, x: c.x, y: c.y })
    &&& (b[4] matches Component::FUNC(p, nm) && p == default_phys() && nm@ == "PHYS"@)
}

/// Scanning a written-back bundle gives back exactly the circle it
/// was written from.
pub proof fn lemma_circle_bundle_roundtrip(b: Seq<Component>, c: Circle)
    requires
        circle_bundle(b, c),
    ensures
        circle_of_bundle(b) == c,
{
    assert(scan_bundle(b, 0) == scan_init());
    assert(scan_bundle(b, 1) == scan_step(scan_bundle(b, 0), b[0]));
    assert(scan_bundle(b, 2) == scan_step(scan_bundle(b, 1), b[1]));
    assert(scan_bundle(b, 3) == scan_step(scan_bundle(b, 2), b[2]));
    assert(scan_bundle(b, 4) == scan_step(scan_bundle(b, 3), b[3]));
    assert(scan_bundle(b, 5) == scan_step(scan_bundle(b, 4), b[4]));
}

impl Circle {
    /// Derives the typed circle view from a bundle: position and
    /// velocity from the first two two-vectors of numbers, radius and
    /// color from the drawable; missing or malformed slots keep their
    /// zero defaults.
    pub fn from_bundle(bundle: &Bundle) -> (c: Circle)
        ensures
            c == circle_of_bundle(bundle@),
    {
        let mut st = Circle { x: 0, y: 0, vx: 0, vy: 0, r: 0, color: Rgba { r: 0, g: 0, b: 0, a: 1000 } };
        let mut pos: bool = true;
        let mut i: usize = 0;
        while i < bundle.len()
            invariant
                0 <= i <= bundle@.len(),
                scan_bundle(bundle@, i as int) == (ScanState { c: st, pos }),
            decreases bundle@.len() - i,
        {
            match &bundle[i] {
                Component::Vec2(a, b) => {
                    match &**a {
                        Component::Float(f) => {
                            if pos {
                                st.x = *f;
                            } else {
                                st.vx = *f;
                            }
                        },
                        _ => {},
                    }
                    match &**b {
                        Component::Float(f2) => {
                            if pos {
                                st.y = *f2;
                                pos = false;
                            } else {
                                st.vy = *f2;
                            }
                        },
                        _ => {},
                    }
                },
                Component::GRAPHICS(g) => {
                    match g {
                        Shape::Circle { radius, color, .. } => {
                            st.r = *radius;
                            st.color = *color;
                        },
                    }
                },
                _ => {},
            }
            i = i + 1;
        }
        st
    }

    /// Writes the circle view back into a fresh bundle, overwriting
    /// the identity tag with an empty one and re-attaching a physics
    /// behavior with the default configuration.
    pub fn to_bundle(&self) -> (b: Bundle)
        ensures
            circle_bundle(b@, *self),
    {
        let mut b: Vec<Component> = Vec::new();
        b.push(Component::Name(String::new()));
        b.push(
            Component::Vec2(
                Box::new(Component::Float(self.x)),
                Box::new(Component::Float(self.y)),
            ),
        );
        b.push(
            Component::Vec2(
                Box::new(Component::Float(self.vx)),
                Box::new(Component::Float(self.vy)),
            ),
        );
        b.push(
            Component::GRAPHICS(
                Shape::Circle { radius: self.r, color: self.color, x: self.x, y: self.y },
            ),
        );
        b.push(
            Component::FUNC(
                PHYS {
                    gravity: SCALE,
                    borders: (Borders {
                        left: -500_000,
                        bottom: -500_000,
                        right: 500_000,
                        top: 500_000,
                    }),
                },
                String::from_str("PHYS"),
            ),
        );
        b
    }
}

} // verus!

verus! {

/// Largest entity count the per-tick physics accepts, so that the
/// accumulated overlap pushes stay inside the working range.
pub const N_MAX: usize = 1_000_000;

/// The bundle carries the active-update marker as its identity tag,
/// which excludes it (the entity being updated) from collision and
/// separation scans.
pub open spec fn is_self_tagged(b: Seq<Component>) -> bool {
    b.len() > 0 && (b[0] matches Component::Name(n) && n@ == "SELF"@)
}

/// Position-and-radius part of the working range: what the overlap
/// scans need of the other bodies.
pub open spec fn placed(c: Circle) -> bool {
    &&& -P_MAX <= c.x <= P_MAX
    &&& -P_MAX <= c.y <= P_MAX
    &&& 0 <= c.r <= R_MAX
}

/// Every stored entity has an identity slot and a circle view inside
/// the working range, and the store is not too large.
pub open spec fn wf_store(es: Seq<Bundle>) -> bool {
    &&& es.len() <= N_MAX
    &&& forall|k: int|
        0 <= k < es.len() ==> (#[trigger] es[k])@.len() >= 1 && fits(circle_of_bundle(es[k]@))
}

/// As [`wf_store`], but asking only for position and radius: what one
/// separation pass needs after a neighbor's velocity has been bounced.
pub open spec fn placed_store(es: Seq<Bundle>) -> bool {
    &&& es.len() <= N_MAX
    &&& forall|k: int|
        0 <= k < es.len() ==> (#[trigger] es[k])@.len() >= 1 && placed(circle_of_bundle(es[k]@))
}

/// One separation step against one stored entity: if the (current,
/// not swept) centers are closer than the radii sum, the updating
/// body is pushed straight away from the other by the penetration
/// depth (the radii sum minus the distance); the active-update marker
/// is skipped.
pub open spec fn away_step(c: Circle, b: Seq<Component>) -> Circle {
    if is_self_tagged(b) {
        c
    } else {
        let o = circle_of_bundle(b);
        let d = dist_spec(c, o);
        if d - c.r - o.r < 0 {
            Circle {
                x: (c.x - tdiv(sep_nx(c, o) * (d - c.r - o.r), SCALE as int)) as i64,
                y: (c.y - tdiv(sep_ny(c, o) * (d - c.r - o.r), SCALE as int)) as i64,
                ..c
            }
        } else {
            c
        }
    }
}

/// One full separation pass over the first `n` stored entities, in
/// store order (the correction is sequential and order-dependent).
pub open spec fn away_pass(c: Circle, es: Seq<Bundle>, n: int) -> Circle
    decreases n,
{
    if n <= 0 {
        c
    } else {
        away_step(away_pass(c, es, n - 1), es[n - 1]@)
    }
}

/// `p` repetitions of the full separation pass.
pub open spec fn away_passes(c: Circle, es: Seq<Bundle>, p: int) -> Circle
    decreases p,
{
    if p <= 0 {
        c
    } else {
        away_pass(away_passes(c, es, p - 1), es, es.len() as int)
    }
}

/// A stored entity takes part in the swept-collision search when it
/// is not the active-update marker, survives the broad-phase prune
/// (its current distance is within the body's speed plus twice its
/// radius) and the quadratic reports a hit.
pub open spec fn eligible(c: Circle, b: Seq<Component>) -> bool {
    &&& !is_self_tagged(b)
    &&& dist_spec(c, circle_of_bundle(b)) <= sqrt_val(c.vx * c.vx + c.vy * c.vy) + 2 * c.r
    &&& hit_reported(c, circle_of_bundle(b))
}

/// Index of the collision selected among the first `n` stored
/// entities: the eligible entity with the smallest travel distance,
/// the earliest such index winning ties.
pub open spec fn pick(c: Circle, es: Seq<Bundle>, n: int) -> Option<int>
    decreases n,
{
    if n <= 0 {
        None
    } else {
        match pick(c, es, n - 1) {
            None => if eligible(c, es[n - 1]@) {
                Some(n - 1)
            } else {
                None
            },
            Some(j) => if eligible(c, es[n - 1]@) && travel_dist(c, circle_of_bundle(es[n - 1]@))
                < travel_dist(c, circle_of_bundle(es[j]@)) {
                Some(n - 1)
            } else {
                Some(j)
            },
        }
    }
}

/// A selected collision index always lies among the entities that
/// were scanned, and the selected entity is eligible (in particular it
/// does not carry the active-update marker).
pub proof fn lemma_pick_range(c: Circle, es: Seq<Bundle>, n: int)
    ensures
        pick(c, es, n) matches Some(j) ==> 0 <= j < n && eligible(c, es[j]@),
    decreases n,
{
    if n > 0 {
        lemma_pick_range(c, es, n - 1);
    }
}

impl Circle {
    /// One overlap-separation pass: scans every stored entity in
    /// order and pushes this body away from each one it currently
    /// overlaps. Only this body moves; the store is read-only here.
    pub fn move_away(&mut self, ecs: &ECS)
        requires
            placed_store(ecs.entitys@),
            -2_000_000_000_000_000 <= old(self).x <= 2_000_000_000_000_000,
            -2_000_000_000_000_000 <= old(self).y <= 2_000_000_000_000_000,
            0 <= old(self).r <= R_MAX,
        ensures
            *final(self) == away_pass(*old(self), ecs.entitys@, ecs.entitys@.len() as int),
            old(self).x - 200_000_000_000_000 <= final(self).x <= old(self).x
                + 200_000_000_000_000,
            old(self).y - 200_000_000_000_000 <= final(self).y <= old(self).y
                + 200_000_000_000_000,
            final(self).vx == old(self).vx,
            final(self).vy == old(self).vy,
            final(self).r == old(self).r,
            final(self).color == old(self).color,
    {
        let ghost es: Seq<Bundle> = ecs.entitys@;
        let mut k: usize = 0;
        let self_tag = String::from_str("SELF");
        while k < ecs.entitys.len()
            invariant
                0 <= k <= es.len(),
                es == ecs.entitys@,
                placed_store(es),
                self_tag@ == "SELF"@,
                -2_000_000_000_000_000 <= old(self).x <= 2_000_000_000_000_000,
                -2_000_000_000_000_000 <= old(self).y <= 2_000_000_000_000_000,
                0 <= old(self).r <= R_MAX,
                *self == away_pass(*old(self), es, k as int),
                old(self).x - 200 * (k as int) * 1_000_000 <= self.x <= old(self).x + 200 * (
                k as int) * 1_000_000,
                old(self).y - 200 * (k as int) * 1_000_000 <= self.y <= old(self).y + 200 * (
                k as int) * 1_000_000,
                self.vx == old(self).vx,
                self.vy == old(self).vy,
                self.r == old(self).r,
                self.color == old(self).color,
            decreases es.len() - k,
        {
            let b = &ecs.entitys[k];
            let mut tagged: bool = false;
            match &b[0] {
                Component::Name(n) => {
                    if *n == self_tag {
                        tagged = true;
                    }
                },
                _ => {},
            }
            if !tagged {
                let o = Circle::from_bundle(b);
                match self.collides(&o) {
                    Some(ov) => {
                        let dmr: i64 = ov.mag;
                        proof {
                            assert(-200_000_000 <= dmr <= 200_000_000);
                            assert(-(200_000_000i128 * 1000i128) <= (ov.nx as int) * (dmr as int)
                                && (ov.nx as int) * (dmr as int) <= 200_000_000i128 * 1000i128)
                                by (nonlinear_arith)
                                requires
                                    -1000 <= ov.nx as int <= 1000,
                                    -200_000_000 <= dmr as int <= 200_000_000,
                            ;
                            crate::fixed::lemma_tdiv_bound_by(
                                (ov.nx as int) * (dmr as int),
                                200_000_000,
                                SCALE as int,
                            );
                            assert(-(200_000_000i128 * 1000i128) <= (ov.ny as int) * (dmr as int)
                                && (ov.ny as int) * (dmr as int) <= 200_000_000i128 * 1000i128)
                                by (nonlinear_arith)
                                requires
                                    -1000 <= ov.ny as int <= 1000,
                                    -200_000_000 <= dmr as int <= 200_000_000,
                            ;
                            crate::fixed::lemma_tdiv_bound_by(
                                (ov.ny as int) * (dmr as int),
                                200_000_000,
                                SCALE as int,
                            );
                        }
                        let px: i128 = div_trunc(ov.nx as i128 * dmr as i128, SCALE as i128);
                        let py: i128 = div_trunc(ov.ny as i128 * dmr as i128, SCALE as i128);
                        self.x = self.x - px as i64;
                        self.y = self.y - py as i64;
                    },
                    None => {},
                }
            }
            k = k + 1;
        }
    }

    /// Swept-collision search over the whole store: skips the
    /// active-update marker and anything outside the broad-phase
    /// radius, and keeps the hit with the smallest travel distance
    /// (earliest store index winning ties). Returns that hit and the
    /// index of the struck entity.
    pub fn collision(&self, ecs: &ECS) -> (r: Option<(Hit, usize)>)
        requires
            -P_MAX <= self.x <= P_MAX,
            -P_MAX <= self.y <= P_MAX,
            self_v_ok(*self),
            0 <= self.r <= R_MAX,
            wf_store(ecs.entitys@),
        ensures
            r is None <==> pick(*self, ecs.entitys@, ecs.entitys@.len() as int) is None,
            r matches Some((h, j)) ==> {
                let es = ecs.entitys@;
                &&& pick(*self, es, es.len() as int) == Some(j as int)
                &&& j < es.len()
                &&& eligible(*self, es[j as int]@)
                &&& h.t == hit_time(*self, circle_of_bundle(es[j as int]@))
                &&& h.mag == contact_mag(*self, circle_of_bundle(es[j as int]@))
                &&& h.distance == travel_dist(*self, circle_of_bundle(es[j as int]@))
                &&& h.nx == unit_nx(*self, circle_of_bundle(es[j as int]@))
                &&& h.ny == unit_ny(*self, circle_of_bundle(es[j as int]@))
                &&& -SCALE <= h.nx <= SCALE
                &&& -SCALE <= h.ny <= SCALE
            },
    {
        let ghost es: Seq<Bundle> = ecs.entitys@;
        let mut best: Option<(Hit, usize)> = None;
        let mut k: usize = 0;
        let self_tag = String::from_str("SELF");
        let speed: i64 = self.get_speed();
        let reach: i64 = speed + 2 * self.r;
        while k < ecs.entitys.len()
            invariant
                0 <= k <= es.len(),
                es == ecs.entitys@,
                wf_store(es),
                self_tag@ == "SELF"@,
                reach as int == sqrt_val(self.vx * self.vx + self.vy * self.vy) + 2 * self.r,
                -P_MAX <= self.x <= P_MAX,
                -P_MAX <= self.y <= P_MAX,
                self_v_ok(*self),
                0 <= self.r <= R_MAX,
                best is None <==> pick(*self, es, k as int) is None,
                best matches Some((h, j)) ==> {
                    &&& pick(*self, es, k as int) == Some(j as int)
                    &&& j < es.len()
                    &&& eligible(*self, es[j as int]@)
                    &&& h.t == hit_time(*self, circle_of_bundle(es[j as int]@))
                    &&& h.mag == contact_mag(*self, circle_of_bundle(es[j as int]@))
                    &&& h.distance == travel_dist(*self, circle_of_bundle(es[j as int]@))
                    &&& h.nx == unit_nx(*self, circle_of_bundle(es[j as int]@))
                    &&& h.ny == unit_ny(*self, circle_of_bundle(es[j as int]@))
                    &&& -SCALE <= h.nx <= SCALE
                    &&& -SCALE <= h.ny <= SCALE
                },
            decreases es.len() - k,
        {
            let b = &ecs.entitys[k];
            let mut tagged: bool = false;
            match &b[0] {
                Component::Name(n) => {
                    if *n == self_tag {
                        tagged = true;
                    }
                },
                _ => {},
            }
            if !tagged {
                let o = Circle::from_bundle(b);
                let d: i64 = self.distance(&o);
                if d <= reach {
                    match self.intersects(&o) {
                        Some(h) => {
                            match &best {
                                None => {
                                    best = Some((h, k));
                                },
                                Some((bh, _bj)) => {
                                    if h.distance < bh.distance {
                                        best = Some((h, k));
                                    }
                                },
                            }
                        },
                        None => {},
                    }
                } else {
                    proof {
                        assert(!eligible(*self, es[k as int]@));
                    }
                }
            }
            k = k + 1;
        }
        best
    }
}

} // verus!

verus! {

impl Circle {
    /// One full physics tick for this body: gravity toward the
    /// origin, swept-collision search over the store, resolution
    /// (velocity exchange with the struck neighbor, whose bundle is
    /// rewritten; position integration when nothing is struck), and
    /// five overlap-separation passes.
    #[verifier::rlimit(100)]
    pub fn physics(&mut self, ecs: &mut ECS, phys: &PHYS)
        requires
            fits(*old(self)),
            0 <= phys.gravity <= G_MAX,
            wf_store(old(ecs).entitys@),
        ensures
            final(ecs).entitys@.len() == old(ecs).entitys@.len(),
            final(ecs).systems@ == old(ecs).systems@,
            final(ecs).size == old(ecs).size,
            ({
                let c1 = gravity_spec(*old(self), phys.gravity);
                let es0 = old(ecs).entitys@;
                match pick(c1, es0, es0.len() as int) {
                    None => final(ecs).entitys@ == es0 && *final(self) == away_passes(
                        integrate_spec(c1),
                        es0,
                        5,
                    ),
                    Some(j) => ({
                        let o = circle_of_bundle(es0[j]@);
                        let rr = reflect_spec(c1, o, unit_nx(c1, o), unit_ny(c1, o), LOSS as int);
                        &&& circle_bundle(final(ecs).entitys@[j]@, rr.1)
                        &&& forall|k: int|
                            0 <= k < es0.len() && k != j ==> final(ecs).entitys@[k] == es0[k]
                        &&& *final(self) == away_passes(rr.0, final(ecs).entitys@, 5)
                    }),
                }
            }),
    {
        self.gravity(phys.gravity);
        let hit = self.collision(ecs);
        match hit {
            Some((h, j)) => {
                let mut circle = Circle::from_bundle(&ecs.entitys[j]);
                Circle::reflect_velocities(self, &mut circle, h.nx, h.ny, LOSS);
                let nb = circle.to_bundle();
                proof {
                    lemma_circle_bundle_roundtrip(nb@, circle);
                }
                ecs.entitys[j] = nb;
                proof {
                    let es1 = ecs.entitys@;
                    assert forall|k: int|
                        0 <= k < es1.len() implies (#[trigger] es1[k])@.len() >= 1 && placed(
                        circle_of_bundle(es1[k]@),
                    ) by {
                        if k != j {
                            assert(es1[k] == old(ecs).entitys@[k]);
                        }
                    }
                    assert(placed_store(es1));
                }
            },
            None => {
                self.x = self.x + self.vx;
                self.y = self.y + self.vy;
            },
        }
        let ghost es_f: Seq<Bundle> = ecs.entitys@;
        let ghost cmid: Circle = *self;
        let mut p: usize = 0;
        while p < 5
            invariant
                0 <= p <= 5,
                ecs.entitys@ == es_f,
                placed_store(es_f),
                *self == away_passes(cmid, es_f, p as int),
                cmid.x - (p as int) * 200_000_000_000_000 <= self.x <= cmid.x + (p as int)
                    * 200_000_000_000_000,
                cmid.y - (p as int) * 200_000_000_000_000 <= self.y <= cmid.y + (p as int)
                    * 200_000_000_000_000,
                -2_000_000_000 <= cmid.x <= 2_000_000_000,
                -2_000_000_000 <= cmid.y <= 2_000_000_000,
                self.r == cmid.r,
                0 <= cmid.r <= R_MAX,
            decreases 5 - p,
        {
            self.move_away(&*ecs);
            p = p + 1;
        }
    }
}

impl PHYS {
    /// Registered name of the physics behavior.
    pub fn name(&self) -> (r: String)
        ensures
            r@ == "PHYS"@,
    {
        String::from_str("PHYS")
    }
}

/// Decides [`wf_store`].
pub fn store_ok(ecs: &ECS) -> (r: bool)
    ensures
        r == wf_store(ecs.entitys@),
{
    if ecs.entitys.len() > N_MAX {
        return false;
    }
    let mut k: usize = 0;
    while k < ecs.entitys.len()
        invariant
            0 <= k <= ecs.entitys@.len(),
            ecs.entitys@.len() <= N_MAX,
            forall|i: int|
                0 <= i < k ==> (#[trigger] ecs.entitys@[i])@.len() >= 1 && fits(
                    circle_of_bundle(ecs.entitys@[i]@),
                ),
        decreases ecs.entitys@.len() - k,
    {
        if ecs.entitys[k].len() == 0 {
            return false;
        }
        let c = Circle::from_bundle(&ecs.entitys[k]);
        if c.x < -P_MAX || c.x > P_MAX || c.y < -P_MAX || c.y > P_MAX || c.vx < -V_MAX || c.vx
            > V_MAX || c.vy < -V_MAX || c.vy > V_MAX || c.r < 0 || c.r > R_MAX {
            return false;
        }
        k = k + 1;
    }
    true
}

} // verus!

verus! {

/// The boundary box derived from the canvas size: half the size on
/// each side of the origin (computed every call, never enforced).
pub open spec fn borders_of(size: (i64, i64)) -> Borders {
    Borders {
        left: (-tdiv(size.0 as int, 2)) as i64,
        bottom: (-tdiv(size.1 as int, 2)) as i64,
        right: tdiv(size.0 as int, 2) as i64,
        top: tdiv(size.1 as int, 2) as i64,
    }
}

/// `t` is `es` with slot `i` replaced by a bundle carrying the
/// active-update marker (and everything else unchanged).
pub open spec fn tagged_at(t: Seq<Bundle>, es: Seq<Bundle>, i: int) -> bool {
    &&& t.len() == es.len()
    &&& is_self_tagged(t[i]@)
    &&& forall|k: int| 0 <= k < es.len() && k != i ==> t[k] == es[k]
}

/// The full physics relation of one behavior call on entity `i`,
/// stated through the tagged intermediate store `t` and, when a
/// neighbor is struck, the store `t2` after that neighbor's rewrite:
/// gravity is applied to the entity's circle view, the swept-collision
/// pick over `t` either selects nothing (the body integrates and no
/// other entity changes) or selects neighbor `j` (whose bundle is
/// rewritten from the exchanged velocities while the body keeps its
/// position), and the written-back entity is the five separation
/// passes applied to the resolved view.
pub open spec fn call_outcome(
    es0: Seq<Bundle>,
    es1: Seq<Bundle>,
    i: int,
    g: i64,
    t: Seq<Bundle>,
    t2: Seq<Bundle>,
) -> bool {
    let c1 = gravity_spec(circle_of_bundle(es0[i]@), g);
    match pick(c1, t, t.len() as int) {
        None => {
            &&& t2 == t
            &&& circle_bundle(es1[i]@, away_passes(integrate_spec(c1), t, 5))
            &&& forall|k: int| 0 <= k < es0.len() && k != i ==> es1[k] == es0[k]
        },
        Some(j) => {
            let o = circle_of_bundle(t[j]@);
            let rr = reflect_spec(c1, o, unit_nx(c1, o), unit_ny(c1, o), LOSS as int);
            &&& 0 <= j < es0.len()
            &&& j != i
            &&& t2.len() == t.len()
            &&& (forall|k: int| 0 <= k < t.len() && k != j ==> t2[k] == t[k])
            &&& circle_bundle(t2[j]@, rr.1)
            &&& es1[j] == t2[j]
            &&& circle_bundle(es1[i]@, away_passes(rr.0, t2, 5))
            &&& forall|k: int| 0 <= k < es0.len() && k != i && k != j ==> es1[k] == es0[k]
        },
    }
}

impl PHYS {
    /// The per-tick behavior call: refreshes the boundary box from
    /// the canvas size, marks entity `i` as the one being updated,
    /// derives its circle view, runs one physics tick against the
    /// store and writes the view back (empty tag, fresh default
    /// behavior); [`call_outcome`] states the whole relation. A store
    /// outside the working range, a bad index or a gravity outside
    /// the working range leaves every entity unchanged instead of
    /// overflowing.
    pub fn call(&mut self, ecs: &mut ECS, i: usize)
        ensures
            final(ecs).entitys@.len() == old(ecs).entitys@.len(),
            final(ecs).systems@ == old(ecs).systems@,
            final(ecs).size == old(ecs).size,
            final(self).gravity == old(self).gravity,
            final(self).borders == borders_of(old(ecs).size),
            !(i < old(ecs).entitys@.len() && wf_store(old(ecs).entitys@) && 0 <= old(self).gravity
                <= G_MAX) ==> final(ecs).entitys@ == old(ecs).entitys@,
            (i < old(ecs).entitys@.len() && wf_store(old(ecs).entitys@) && 0 <= old(self).gravity
                <= G_MAX) ==> {
                &&& circle_bundle(
                    final(ecs).entitys@[i as int]@,
                    circle_of_bundle(final(ecs).entitys@[i as int]@),
                )
                &&& (forall|k: int|
                    0 <= k < old(ecs).entitys@.len() && k != i ==> final(ecs).entitys@[k] == old(
                        ecs,
                    ).entitys@[k] || circle_bundle(
                        (#[trigger] final(ecs).entitys@[k])@,
                        circle_of_bundle(final(ecs).entitys@[k]@),
                    ))
                &&& exists|t: Seq<Bundle>, t2: Seq<Bundle>|
                    tagged_at(t, old(ecs).entitys@, i as int) && #[trigger] call_outcome(
                        old(ecs).entitys@,
                        final(ecs).entitys@,
                        i as int,
                        old(self).gravity,
                        t,
                        t2,
                    )
            },
    {
        let hx: i64 = div_trunc(ecs.size.0 as i128, 2) as i64;
        let hy: i64 = div_trunc(ecs.size.1 as i128, 2) as i64;
        proof {
            crate::fixed::lemma_tdiv_magnitude(ecs.size.0 as int, 2);
            crate::fixed::lemma_tdiv_magnitude(ecs.size.1 as int, 2);
        }
        self.borders = Borders { left: -hx, bottom: -hy, right: hx, top: hy };
        if i >= ecs.entitys.len() {
            return ;
        }
        if self.gravity < 0 || self.gravity > G_MAX {
            return ;
        }
        if !store_ok(ecs) {
            return ;
        }
        let mut circle = Circle::from_bundle(&ecs.entitys[i]);
        let mut tagged: Vec<Component> = Vec::new();
        tagged.push(Component::Name(String::from_str("SELF")));
        ecs.entitys[i] = tagged;
        proof {
            let es1 = ecs.entitys@;
            assert(es1[i as int]@.len() == 1);
            assert(scan_bundle(es1[i as int]@, 0) == scan_init());
            assert(scan_bundle(es1[i as int]@, 1) == scan_step(
                scan_bundle(es1[i as int]@, 0),
                es1[i as int]@[0],
            ));
            assert forall|k: int|
                0 <= k < es1.len() implies (#[trigger] es1[k])@.len() >= 1 && fits(
                circle_of_bundle(es1[k]@),
            ) by {
                if k != i {
                    assert(es1[k] == old(ecs).entitys@[k]);
                }
            }
            assert(wf_store(es1));
        }
        let ghost es_tag: Seq<Bundle> = ecs.entitys@;
        let ghost c0: Circle = circle;
        circle.physics(ecs, self);
        let ghost es_f: Seq<Bundle> = ecs.entitys@;
        let nb = circle.to_bundle();
        proof {
            lemma_circle_bundle_roundtrip(nb@, circle);
        }
        ecs.entitys[i] = nb;
        proof {
            let es0 = old(ecs).entitys@;
            let es1 = ecs.entitys@;
            let c1 = gravity_spec(c0, old(self).gravity);
            lemma_pick_range(c1, es_tag, es_tag.len() as int);
            assert(tagged_at(es_tag, es0, i as int));
            match pick(c1, es_tag, es_tag.len() as int) {
                None => {
                    assert(forall|k: int| 0 <= k < es0.len() && k != i ==> es1[k] == es0[k]);
                    assert(call_outcome(
                        es0,
                        es1,
                        i as int,
                        old(self).gravity,
                        es_tag,
                        es_f,
                    ));
                },
                Some(jp) => {
                    assert(eligible(c1, es_tag[jp]@));
                    assert(jp != i);
                    assert(forall|k: int|
                        0 <= k < es_tag.len() && k != jp ==> es_f[k] == es_tag[k]);
                    assert(forall|k: int|
                        0 <= k < es0.len() && k != i ==> es_tag[k] == es0[k]);
                    assert(forall|k: int| 0 <= k < es0.len() && k != i ==> es1[k] == es_f[k]);
                    let o = circle_of_bundle(es_tag[jp]@);
                    let rr = reflect_spec(c1, o, unit_nx(c1, o), unit_ny(c1, o), LOSS as int);
                    assert(circle_bundle(es_f[jp]@, rr.1));
                    lemma_circle_bundle_roundtrip(es_f[jp]@, rr.1);
                    assert(es1[jp] == es_f[jp]);
                    assert(circle_bundle(es1[jp]@, circle_of_bundle(es1[jp]@)));
                    assert(call_outcome(
                        es0,
                        es1,
                        i as int,
                        old(self).gravity,
                        es_tag,
                        es_f,
                    ));
                },
            }
        }
    }
}

} // verus!
