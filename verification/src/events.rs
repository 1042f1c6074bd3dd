//! Events: one variant per physical occurrence. Each candidate knows how to
//! compute its own time-until-occurrence against the current state, and how
//! to mutate state when it fires.
//!
//! An event time is found on the exact integer model: the contact predicate
//! (distance reaches the threshold) is scanned tick by tick across the
//! ball's remaining rolling window, so the time reported is provably the
//! smallest admissible first-contact instant, and "no time" provably means
//! no such instant exists in the window. A candidate is admissible only if
//! it lies strictly beyond the configured epsilon and the tick before it is
//! contact-free, so the event that just fired is never selected again and a
//! stalled zero-progress loop is impossible.

use vstd::prelude::*;

use crate::ball::{lemma_vel_of_zero, pos_after_comp, stop_ticks, stop_ticks_exec};
use crate::ball::{spec_reflect, spec_set_vel, Ball, BallState, PhysicsConfig, SPEED_LIMIT};
use crate::num::{abs_i, clamp_spec, lemma_mul_bounds, lemma_square_nonneg, tdiv};
use crate::num::{clamp_i128, mul_i128, mul_mid_i128, tdiv_i128};
use crate::pool_table::{line_l0, line_lx, line_ly, Cushion, CushionType, GEOM_LIMIT};
use crate::vec2::Vec2;
use crate::SimObjects;

verus! {

/// Sentinel for "this candidate does not occur".
pub const TIME_NEVER: i64 = 9_223_372_036_854_775_807;

// ------------------------------------------------------------------
// Contact predicates
// ------------------------------------------------------------------

/// Position coordinates of a ball `t` ticks ahead on its trajectory.
pub open spec fn pos_x_at(b: Ball, cfg: PhysicsConfig, t: int) -> int {
    pos_after_comp(b.r.x as int, b.speed as int, cfg.mu_g as int, b.dir.x as int, t)
}

pub open spec fn pos_y_at(b: Ball, cfg: PhysicsConfig, t: int) -> int {
    pos_after_comp(b.r.y as int, b.speed as int, cfg.mu_g as int, b.dir.y as int, t)
}

/// What a rolling ball can run into.
#[derive(Clone, Copy)]
pub enum Probe {
    AtPocket(Vec2),
    WithBall(Ball),
    AtCushion(Cushion),
}

pub open spec fn probe_wf(pr: Probe, cfg: PhysicsConfig) -> bool {
    match pr {
        Probe::AtPocket(q) => -GEOM_LIMIT <= q.x <= GEOM_LIMIT && -GEOM_LIMIT <= q.y
            <= GEOM_LIMIT,
        Probe::WithBall(b2) => b2.wf(cfg),
        Probe::AtCushion(c) => c.wf(),
    }
}

/// The contact condition at `t` ticks ahead: the ball center is within the
/// capture radius of a pocket, within one diameter of another ball's center,
/// or within one radius of a cushion's supporting line.
pub open spec fn probe_contact(b: Ball, pr: Probe, cfg: PhysicsConfig, t: int) -> bool {
    match pr {
        Probe::AtPocket(q) => {
            let dx = pos_x_at(b, cfg, t) - q.x;
            let dy = pos_y_at(b, cfg, t) - q.y;
            dx * dx + dy * dy <= (cfg.radius as int) * (cfg.radius as int)
        },
        Probe::WithBall(b2) => {
            let dx = pos_x_at(b, cfg, t) - pos_x_at(b2, cfg, t);
            let dy = pos_y_at(b, cfg, t) - pos_y_at(b2, cfg, t);
            dx * dx + dy * dy <= (2 * cfg.radius) * (2 * cfg.radius)
        },
        Probe::AtCushion(c) => {
            let d = line_lx(c) * pos_x_at(b, cfg, t) + line_ly(c) * pos_y_at(b, cfg, t) + line_l0(
                c,
            );
            let lsq = line_lx(c) * line_lx(c) + line_ly(c) * line_ly(c);
            lsq > 0 && d * d <= (cfg.radius as int) * (cfg.radius as int) * lsq
        },
    }
}

/// The first instant of a contact: contact holds at `t` but not at `t - 1`.
pub open spec fn probe_entry(b: Ball, pr: Probe, cfg: PhysicsConfig, t: int) -> bool {
    probe_contact(b, pr, cfg, t) && !probe_contact(b, pr, cfg, t - 1)
}

/// Exact evaluation of the contact condition.
fn probe_contact_at(b: &Ball, pr: &Probe, cfg: PhysicsConfig, t: i64) -> (res: bool)
    requires
        cfg.wf(),
        b.wf(cfg),
        probe_wf(*pr, cfg),
        0 <= t,
    ensures
        res == probe_contact(*b, *pr, cfg, t as int),
{
    let p = b.r_t(cfg, t);
    match pr {
        Probe::AtPocket(q) => {
            let dx: i128 = (p.x as i128) - (q.x as i128);
            let dy: i128 = (p.y as i128) - (q.y as i128);
            let sx = mul_i128(dx, dx);
            let sy = mul_i128(dy, dy);
            proof {
                lemma_square_nonneg(dx as int);
                lemma_square_nonneg(dy as int);
                lemma_mul_bounds(dx as int, dx as int, 140_737_488_355_328, 140_737_488_355_328);
                lemma_mul_bounds(dy as int, dy as int, 140_737_488_355_328, 140_737_488_355_328);
            }
            let rr = mul_i128(cfg.radius as i128, cfg.radius as i128);
            sx + sy <= rr
        },
        Probe::WithBall(b2) => {
            let p2 = b2.r_t(cfg, t);
            let dx: i128 = (p.x as i128) - (p2.x as i128);
            let dy: i128 = (p.y as i128) - (p2.y as i128);
            let sx = mul_i128(dx, dx);
            let sy = mul_i128(dy, dy);
            proof {
                lemma_square_nonneg(dx as int);
                lemma_square_nonneg(dy as int);
                lemma_mul_bounds(dx as int, dx as int, 281_474_976_710_656, 281_474_976_710_656);
                lemma_mul_bounds(dy as int, dy as int, 281_474_976_710_656, 281_474_976_710_656);
            }
            let diam: i128 = 2 * (cfg.radius as i128);
            let rr = mul_i128(diam, diam);
            sx + sy <= rr
        },
        Probe::AtCushion(c) => {
            let lx: i128 = -((c.r2.y as i128) - (c.r1.y as i128));
            let ly: i128 = (c.r2.x as i128) - (c.r1.x as i128);
            let lr1 = mul_i128(lx, c.r1.x as i128);
            let lr2 = mul_i128(ly, c.r1.y as i128);
            proof {
                lemma_mul_bounds(lx as int, c.r1.x as int, 2_147_483_648, GEOM_LIMIT as int);
                lemma_mul_bounds(ly as int, c.r1.y as int, 2_147_483_648, GEOM_LIMIT as int);
            }
            let l0: i128 = -(lr1 + lr2);
            let d1 = mul_i128(lx, p.x as i128);
            let d2 = mul_i128(ly, p.y as i128);
            proof {
                lemma_mul_bounds(lx as int, p.x as int, 2_147_483_648, 70_368_744_177_664);
                lemma_mul_bounds(ly as int, p.y as int, 2_147_483_648, 70_368_744_177_664);
            }
            let d: i128 = d1 + d2 + l0;
            let q1 = mul_i128(lx, lx);
            let q2 = mul_i128(ly, ly);
            proof {
                lemma_square_nonneg(lx as int);
                lemma_square_nonneg(ly as int);
                lemma_mul_bounds(lx as int, lx as int, 2_147_483_648, 2_147_483_648);
                lemma_mul_bounds(ly as int, ly as int, 2_147_483_648, 2_147_483_648);
            }
            let lsq: i128 = q1 + q2;
            let rr = mul_i128(cfg.radius as i128, cfg.radius as i128);
            proof {
                lemma_mul_bounds(cfg.radius as int, cfg.radius as int, 16_777_216, 16_777_216);
            }
            let rhs = mul_i128(rr, lsq);
            proof {
                lemma_mul_bounds(rr as int, lsq as int, 281_474_976_710_656, 9_223_372_036_854_775_808i128 as int);
            }
            if lsq == 0 {
                return false;
            }
            if d >= 0x2000_0000_0000_0000i128 || d <= -0x2000_0000_0000_0000i128 {
                proof {
                    assert((d as int) * (d as int) > rhs) by (nonlinear_arith)
                        requires
                            abs_i(d as int) >= 0x2000_0000_0000_0000i128,
                            rhs <= 281_474_976_710_656i128 * 9_223_372_036_854_775_808i128,
                    ;
                }
                false
            } else {
                let dsq = mul_i128(d, d);
                dsq <= rhs
            }
        },
    }
}

/// Search the window `(eps_ticks, hi]` for the first tick at which contact
/// with the probe begins, scanning every tick of the window. `Some(e)` is
/// the exact smallest admissible first-contact instant; `None` means no
/// first-contact instant exists anywhere in the window.
fn find_entry(b: &Ball, pr: &Probe, cfg: PhysicsConfig, hi: i64) -> (res: Option<i64>)
    requires
        cfg.wf(),
        b.wf(cfg),
        probe_wf(*pr, cfg),
        0 <= hi <= 335_544_320_000i64,
    ensures
        match res {
            Some(e) => cfg.eps_ticks < e <= hi && probe_entry(*b, *pr, cfg, e as int) && forall|
                t: int,
            |
                cfg.eps_ticks < t < e ==> !(#[trigger] probe_entry(*b, *pr, cfg, t)),
            None => forall|t: int|
                cfg.eps_ticks < t <= hi ==> !(#[trigger] probe_entry(*b, *pr, cfg, t)),
        },
{
    let lo: i64 = cfg.eps_ticks + 1;
    if hi < lo {
        return None;
    }
    let mut prev: bool = probe_contact_at(b, pr, cfg, lo - 1);
    let mut t: i64 = lo;
    while t <= hi
        invariant
            cfg.wf(),
            b.wf(cfg),
            probe_wf(*pr, cfg),
            lo == cfg.eps_ticks + 1,
            lo <= t <= hi + 1,
            0 <= hi <= 335_544_320_000i64,
            prev == probe_contact(*b, *pr, cfg, t - 1),
            forall|u: int| cfg.eps_ticks < u < t ==> !(#[trigger] probe_entry(*b, *pr, cfg, u)),
        decreases hi + 1 - t,
    {
        let cur = probe_contact_at(b, pr, cfg, t);
        if cur && !prev {
            return Some(t);
        }
        proof {
            assert(!probe_entry(*b, *pr, cfg, t as int));
        }
        prev = cur;
        t = t + 1;
    }
    None
}

// ------------------------------------------------------------------
// Event effects on single balls
// ------------------------------------------------------------------

/// A stopped ball: zero velocity, everything else kept.
pub open spec fn spec_stop_effect(b: Ball) -> Ball {
    Ball { v: Vec2::zero_spec(), speed: 0, bstate: BallState::STATIONARY, ..b }
}

/// A pocketed ball: wiped to rest at the origin and taken off the table.
pub open spec fn spec_pocket_effect(b: Ball) -> Ball {
    Ball {
        r: Vec2::zero_spec(),
        v: Vec2::zero_spec(),
        dir: Vec2::zero_spec(),
        speed: 0,
        bstate: BallState::POCKETED,
        ..b
    }
}

/// Whether a cushion's reflection flips the `y` velocity component.
pub open spec fn flips_y(ct: CushionType) -> bool {
    ct is TOP || ct is BOTTOM
}

// ------------------------------------------------------------------
// Elastic collision
// ------------------------------------------------------------------

/// Squared distance between the two centers.
pub open spec fn pair_dd(b1: Ball, b2: Ball) -> int {
    let dx = (b2.r.x as int) - (b1.r.x as int);
    let dy = (b2.r.y as int) - (b1.r.y as int);
    dx * dx + dy * dy
}

/// Scaled component of the relative velocity along the line of centers.
pub open spec fn pair_k(b1: Ball, b2: Ball) -> int {
    let dx = (b2.r.x as int) - (b1.r.x as int);
    let dy = (b2.r.y as int) - (b1.r.y as int);
    ((b1.v.x as int) - (b2.v.x as int)) * dx + ((b1.v.y as int) - (b2.v.y as int)) * dy
}

/// The along-centers velocity transfer, one coordinate at a time:
/// `k * d / |d|^2`, rounded toward zero.
pub open spec fn transfer_x(b1: Ball, b2: Ball) -> int {
    tdiv(pair_k(b1, b2) * ((b2.r.x as int) - (b1.r.x as int)), pair_dd(b1, b2))
}

pub open spec fn transfer_y(b1: Ball, b2: Ball) -> int {
    tdiv(pair_k(b1, b2) * ((b2.r.y as int) - (b1.r.y as int)), pair_dd(b1, b2))
}

/// Post-collision velocity vector of the incoming ball: its along-centers
/// component is handed to the struck ball (equal masses, ideal elastic
/// exchange). Coincident centers are a degenerate geometry and leave both
/// velocities unchanged.
pub open spec fn collide_w1(b1: Ball, b2: Ball) -> Vec2 {
    if pair_dd(b1, b2) == 0 {
        b1.v
    } else {
        Vec2 {
            x: clamp_spec((b1.v.x as int) - transfer_x(b1, b2), SPEED_LIMIT as int) as i64,
            y: clamp_spec((b1.v.y as int) - transfer_y(b1, b2), SPEED_LIMIT as int) as i64,
        }
    }
}

/// Post-collision velocity vector of the struck ball.
pub open spec fn collide_w2(b1: Ball, b2: Ball) -> Vec2 {
    if pair_dd(b1, b2) == 0 {
        b2.v
    } else {
        Vec2 {
            x: clamp_spec((b2.v.x as int) + transfer_x(b1, b2), SPEED_LIMIT as int) as i64,
            y: clamp_spec((b2.v.y as int) + transfer_y(b1, b2), SPEED_LIMIT as int) as i64,
        }
    }
}

/// Resolve a two-dimensional equal-mass elastic collision between the two
/// balls' velocity vectors, along the line of their centers.
pub fn elastic_collision(b1: &Ball, b2: &Ball, cfg: PhysicsConfig) -> (r: (Vec2, Vec2))
    requires
        cfg.wf(),
        b1.wf(cfg),
        b2.wf(cfg),
    ensures
        r.0 == collide_w1(*b1, *b2),
        r.1 == collide_w2(*b1, *b2),
        -SPEED_LIMIT <= r.0.x <= SPEED_LIMIT,
        -SPEED_LIMIT <= r.0.y <= SPEED_LIMIT,
        -SPEED_LIMIT <= r.1.x <= SPEED_LIMIT,
        -SPEED_LIMIT <= r.1.y <= SPEED_LIMIT,
{
    let dx: i128 = (b2.r.x as i128) - (b1.r.x as i128);
    let dy: i128 = (b2.r.y as i128) - (b1.r.y as i128);
    let sx = mul_i128(dx, dx);
    let sy = mul_i128(dy, dy);
    proof {
        lemma_square_nonneg(dx as int);
        lemma_square_nonneg(dy as int);
        lemma_mul_bounds(dx as int, dx as int, 140_737_488_355_328, 140_737_488_355_328);
        lemma_mul_bounds(dy as int, dy as int, 140_737_488_355_328, 140_737_488_355_328);
    }
    let dd: i128 = sx + sy;
    if dd == 0 {
        (b1.v, b2.v)
    } else {
        let kx: i128 = (b1.v.x as i128) - (b2.v.x as i128);
        let ky: i128 = (b1.v.y as i128) - (b2.v.y as i128);
        let k1 = mul_i128(kx, dx);
        let k2 = mul_i128(ky, dy);
        proof {
            lemma_mul_bounds(kx as int, dx as int, 67_108_864, 140_737_488_355_328);
            lemma_mul_bounds(ky as int, dy as int, 67_108_864, 140_737_488_355_328);
        }
        let k: i128 = k1 + k2;
        let txn = mul_mid_i128(k, dx);
        let tyn = mul_mid_i128(k, dy);
        proof {
            lemma_mul_bounds(k as int, dx as int, 18_889_465_931_478_580_854_784, 140_737_488_355_328);
            lemma_mul_bounds(k as int, dy as int, 18_889_465_931_478_580_854_784, 140_737_488_355_328);
        }
        let tx = tdiv_i128(txn, dd);
        let ty = tdiv_i128(tyn, dd);
        let w1x = clamp_i128((b1.v.x as i128) - tx, SPEED_LIMIT as i128);
        let w1y = clamp_i128((b1.v.y as i128) - ty, SPEED_LIMIT as i128);
        let w2x = clamp_i128((b2.v.x as i128) + tx, SPEED_LIMIT as i128);
        let w2y = clamp_i128((b2.v.y as i128) + ty, SPEED_LIMIT as i128);
        (Vec2 { x: w1x as i64, y: w1y as i64 }, Vec2 { x: w2x as i64, y: w2y as i64 })
    }
}

/// Law: the ideal equal-mass elastic exchange conserves total momentum and
/// total kinetic energy. Stated over the `dd`-scaled integer velocities
/// `W = dd * v -+ k * d`, that is, before the final division that the
/// implementation rounds: `W1 + W2 == dd * (v1 + v2)` componentwise, and
/// `|W1|^2 + |W2|^2 == dd^2 * (|v1|^2 + |v2|^2)`.
pub proof fn lemma_elastic_conserves(
    v1x: int,
    v1y: int,
    v2x: int,
    v2y: int,
    dx: int,
    dy: int,
    dd: int,
    k: int,
    w1x: int,
    w1y: int,
    w2x: int,
    w2y: int,
)
    requires
        dd == dx * dx + dy * dy,
        k == (v1x - v2x) * dx + (v1y - v2y) * dy,
        w1x == dd * v1x - k * dx,
        w1y == dd * v1y - k * dy,
        w2x == dd * v2x + k * dx,
        w2y == dd * v2y + k * dy,
    ensures
        w1x + w2x == dd * (v1x + v2x),
        w1y + w2y == dd * (v1y + v2y),
        w1x * w1x + w1y * w1y + w2x * w2x + w2y * w2y == dd * dd * (v1x * v1x + v1y * v1y + v2x
            * v2x + v2y * v2y),
{
    assert(dd * (v1x + v2x) == dd * v1x + dd * v2x) by (nonlinear_arith);
    assert(dd * (v1y + v2y) == dd * v1y + dd * v2y) by (nonlinear_arith);
    lemma_sq_diff(dd * v1x, k * dx, w1x);
    lemma_sq_diff(dd * v1y, k * dy, w1y);
    lemma_sq_sum(dd * v2x, k * dx, w2x);
    lemma_sq_sum(dd * v2y, k * dy, w2y);
    lemma_mul_swap(dd, v1x, dd, v1x);
    lemma_mul_swap(dd, v1y, dd, v1y);
    lemma_mul_swap(dd, v2x, dd, v2x);
    lemma_mul_swap(dd, v2y, dd, v2y);
    lemma_mul_swap(dd, v1x, k, dx);
    lemma_mul_swap(dd, v1y, k, dy);
    lemma_mul_swap(dd, v2x, k, dx);
    lemma_mul_swap(dd, v2y, k, dy);
    lemma_mul_swap(k, dx, k, dx);
    lemma_mul_swap(k, dy, k, dy);
    assert((k * k) * (dx * dx) + (k * k) * (dy * dy) == (k * k) * dd) by (nonlinear_arith)
        requires
            dd == dx * dx + dy * dy,
    ;
    assert((v1x - v2x) * dx == v1x * dx - v2x * dx) by (nonlinear_arith);
    assert((v1y - v2y) * dy == v1y * dy - v2y * dy) by (nonlinear_arith);
    lemma_distrib4(dd * k, v1x * dx, v1y * dy, v2x * dx, v2y * dy);
    assert((dd * k) * k == (k * k) * dd) by (nonlinear_arith);
    assert((dd * k) * ((v1x * dx) + (v1y * dy) - (v2x * dx) - (v2y * dy)) == (dd * k) * k);
    lemma_distrib4p(dd * dd, v1x * v1x, v1y * v1y, v2x * v2x, v2y * v2y);
}

/// Law, instantiated for two balls: with `dd` and `k` the scaled geometry
/// of their collision, the `dd`-scaled exchanged velocities that
/// `collide_w1` and `collide_w2` round sum to `dd` times the incoming
/// momentum, and their squared norms to `dd^2` times the incoming energy.
pub proof fn lemma_collision_conserves(b1: Ball, b2: Ball)
    ensures
        ({
            let dx = (b2.r.x as int) - (b1.r.x as int);
            let dy = (b2.r.y as int) - (b1.r.y as int);
            let dd = pair_dd(b1, b2);
            let k = pair_k(b1, b2);
            let w1x = dd * (b1.v.x as int) - k * dx;
            let w1y = dd * (b1.v.y as int) - k * dy;
            let w2x = dd * (b2.v.x as int) + k * dx;
            let w2y = dd * (b2.v.y as int) + k * dy;
            w1x + w2x == dd * (b1.v.x + b2.v.x) && w1y + w2y == dd * (b1.v.y + b2.v.y) && w1x
                * w1x + w1y * w1y + w2x * w2x + w2y * w2y == dd * dd * (b1.v.x * b1.v.x + b1.v.y
                * b1.v.y + b2.v.x * b2.v.x + b2.v.y * b2.v.y)
        }),
{
    let dx = (b2.r.x as int) - (b1.r.x as int);
    let dy = (b2.r.y as int) - (b1.r.y as int);
    let dd = pair_dd(b1, b2);
    let k = pair_k(b1, b2);
    lemma_elastic_conserves(
        b1.v.x as int,
        b1.v.y as int,
        b2.v.x as int,
        b2.v.y as int,
        dx,
        dy,
        dd,
        k,
        dd * (b1.v.x as int) - k * dx,
        dd * (b1.v.y as int) - k * dy,
        dd * (b2.v.x as int) + k * dx,
        dd * (b2.v.y as int) + k * dy,
    );
}

/// `(a - b)^2` expanded.
proof fn lemma_sq_diff(a: int, b: int, w: int)
    requires
        w == a - b,
    ensures
        w * w == a * a - 2 * (a * b) + b * b,
{
    assert(w * w == a * a - 2 * (a * b) + b * b) by (nonlinear_arith)
        requires
            w == a - b,
    ;
}

/// `(a + b)^2` expanded.
proof fn lemma_sq_sum(a: int, b: int, w: int)
    requires
        w == a + b,
    ensures
        w * w == a * a + 2 * (a * b) + b * b,
{
    assert(w * w == a * a + 2 * (a * b) + b * b) by (nonlinear_arith)
        requires
            w == a + b,
    ;
}

/// Products regroup: `(p*q)*(r*s) == (p*r)*(q*s)`.
proof fn lemma_mul_swap(p: int, q: int, r: int, s: int)
    ensures
        (p * q) * (r * s) == (p * r) * (q * s),
{
    assert((p * q) * (r * s) == (p * r) * (q * s)) by (nonlinear_arith);
}

/// Multiplication distributes over a four-term sum with mixed signs.
proof fn lemma_distrib4(m: int, a: int, b: int, c: int, d: int)
    ensures
        m * (a + b - c - d) == m * a + m * b - m * c - m * d,
{
    assert(m * (a + b - c - d) == m * a + m * b - m * c - m * d) by (nonlinear_arith);
}

/// Multiplication distributes over a four-term sum.
proof fn lemma_distrib4p(m: int, a: int, b: int, c: int, d: int)
    ensures
        m * (a + b + c + d) == m * a + m * b + m * c + m * d,
{
    assert(m * (a + b + c + d) == m * a + m * b + m * c + m * d) by (nonlinear_arith);
}

// ------------------------------------------------------------------
// The event variants
// ------------------------------------------------------------------

pub struct NullEvent {
    pub time_delta: i64,
}

pub struct StopRolling {
    pub ball_id: usize,
    pub time_delta: i64,
}

pub struct HitPocket {
    pub ball_id: usize,
    pub pocket_id: usize,
    pub time_delta: i64,
}

pub struct HitCushion {
    pub ball_id: usize,
    pub cushion_id: usize,
    pub time_delta: i64,
}

pub struct HitBall {
    pub ball_id: usize,
    pub other_ball_id: usize,
    pub time_delta: i64,
}

/// A predicted future instant at which state changes discontinuously, as a
/// closed tagged union: one variant per physical occurrence, plus the
/// never-occurring sentinel that event selection starts from.
pub enum EventEnum {
    StopRolling(StopRolling),
    HitBall(HitBall),
    HitCushion(HitCushion),
    HitPocket(HitPocket),
    NullEvent(NullEvent),
}

impl NullEvent {
    pub fn new() -> (e: NullEvent)
        ensures
            e.time_delta == TIME_NEVER,
    {
        NullEvent { time_delta: TIME_NEVER }
    }
}

impl StopRolling {
    pub fn new(ball_id: usize) -> (e: StopRolling)
        ensures
            e.ball_id == ball_id,
            e.time_delta == TIME_NEVER,
    {
        StopRolling { ball_id, time_delta: TIME_NEVER }
    }
}

impl HitPocket {
    pub fn new(ball_id: usize, pocket_id: usize) -> (e: HitPocket)
        ensures
            e.ball_id == ball_id,
            e.pocket_id == pocket_id,
            e.time_delta == TIME_NEVER,
    {
        HitPocket { ball_id, pocket_id, time_delta: TIME_NEVER }
    }
}

impl HitCushion {
    pub fn new(ball_id: usize, cushion_id: usize) -> (e: HitCushion)
        ensures
            e.ball_id == ball_id,
            e.cushion_id == cushion_id,
            e.time_delta == TIME_NEVER,
    {
        HitCushion { ball_id, cushion_id, time_delta: TIME_NEVER }
    }
}

impl HitBall {
    pub fn new(ball_id: usize, other_ball_id: usize) -> (e: HitBall)
        ensures
            e.ball_id == ball_id,
            e.other_ball_id == other_ball_id,
            e.time_delta == TIME_NEVER,
    {
        HitBall { ball_id, other_ball_id, time_delta: TIME_NEVER }
    }
}

impl EventEnum {
    /// The event's time-until-occurrence, `TIME_NEVER` when not yet computed
    /// or not occurring.
    pub open spec fn time_spec(self) -> int {
        match self {
            EventEnum::StopRolling(e) => e.time_delta as int,
            EventEnum::HitBall(e) => e.time_delta as int,
            EventEnum::HitCushion(e) => e.time_delta as int,
            EventEnum::HitPocket(e) => e.time_delta as int,
            EventEnum::NullEvent(e) => e.time_delta as int,
        }
    }

    pub fn get_time_until(&self) -> (t: i64)
        ensures
            t as int == self.time_spec(),
    {
        match self {
            EventEnum::StopRolling(e) => e.time_delta,
            EventEnum::HitBall(e) => e.time_delta,
            EventEnum::HitCushion(e) => e.time_delta,
            EventEnum::HitPocket(e) => e.time_delta,
            EventEnum::NullEvent(e) => e.time_delta,
        }
    }

    /// Keep the earlier of the two candidates; ties keep the current one, so
    /// the first candidate seen in evaluation order wins.
    pub fn mut_compare(&mut self, other: EventEnum)
        ensures
            other.time_spec() < old(self).time_spec() ==> *final(self) == other,
            other.time_spec() >= old(self).time_spec() ==> *final(self) == *old(self),
    {
        if other.get_time_until() < self.get_time_until() {
            *self = other;
        }
    }
}

impl Default for EventEnum {
    /// The never-occurring sentinel that event selection starts from.
    fn default() -> (e: Self)
        ensures
            e is NullEvent,
            e.time_spec() == TIME_NEVER as int,
    {
        EventEnum::NullEvent(NullEvent::new())
    }
}

// ------------------------------------------------------------------
// Validity of an event against a simulation state
// ------------------------------------------------------------------

/// The identifiers an event carries are in range for this state, and the
/// balls it concerns are still on the table.
pub open spec fn event_applicable(e: EventEnum, s: SimObjects) -> bool {
    match e {
        EventEnum::NullEvent(_) => true,
        EventEnum::StopRolling(x) => x.ball_id < s.balls@.len() && !s.balls@[
            x.ball_id as int
        ].is_pocketed_spec(),
        EventEnum::HitPocket(x) => x.ball_id < s.balls@.len() && x.pocket_id < s.pockets@.len()
            && !s.balls@[x.ball_id as int].is_pocketed_spec(),
        EventEnum::HitCushion(x) => x.ball_id < s.balls@.len() && x.cushion_id
            < s.cushions@.len() && !s.balls@[x.ball_id as int].is_pocketed_spec(),
        EventEnum::HitBall(x) => x.ball_id < s.balls@.len() && x.other_ball_id < s.balls@.len()
            && x.ball_id != x.other_ball_id && !s.balls@[x.ball_id as int].is_pocketed_spec()
            && !s.balls@[x.other_ball_id as int].is_pocketed_spec(),
    }
}

/// The exact outcome of a first-contact search over the window
/// `(eps_ticks, hi]`: `TIME_NEVER` holds exactly when no admissible
/// first-contact instant exists in the window, and any other value is the
/// smallest admissible first-contact instant.
pub open spec fn entry_outcome(
    b: Ball,
    pr: Probe,
    cfg: PhysicsConfig,
    hi: int,
    td: int,
) -> bool {
    if td == TIME_NEVER {
        forall|t: int| cfg.eps_ticks < t <= hi ==> !(#[trigger] probe_entry(b, pr, cfg, t))
    } else {
        &&& cfg.eps_ticks < td <= hi
        &&& probe_entry(b, pr, cfg, td)
        &&& forall|t: int| cfg.eps_ticks < t < td ==> !(#[trigger] probe_entry(b, pr, cfg, t))
    }
}

/// The window in which a pair of balls can still newly touch: until the
/// later of their stop times.
pub open spec fn pair_window(b1: Ball, b2: Ball, cfg: PhysicsConfig) -> int {
    let s1 = stop_ticks(b1.speed as int, cfg.mu_g as int);
    let s2 = stop_ticks(b2.speed as int, cfg.mu_g as int);
    if s1 < s2 {
        s2
    } else {
        s1
    }
}

/// What `calculate_time_until` establishes: for `StopRolling` the exact stop
/// time of a moving ball, and for the three geometric kinds the exact
/// first-contact outcome over the ball's rolling window — `TIME_NEVER` if
/// and only if no admissible first-contact instant exists there, and the
/// smallest such instant otherwise.
pub open spec fn event_computed(e: EventEnum, s: SimObjects) -> bool {
    match e {
        EventEnum::NullEvent(x) => x.time_delta == TIME_NEVER,
        EventEnum::StopRolling(x) => x.ball_id < s.balls@.len() && (if s.balls@[
            x.ball_id as int
        ].is_moving_spec() {
            x.time_delta as int == stop_ticks(
                s.balls@[x.ball_id as int].speed as int,
                s.cfg.mu_g as int,
            )
        } else {
            x.time_delta == TIME_NEVER
        }),
        EventEnum::HitPocket(x) => x.ball_id < s.balls@.len() && x.pocket_id < s.pockets@.len()
            && (if s.balls@[x.ball_id as int].is_moving_spec() {
            entry_outcome(
                s.balls@[x.ball_id as int],
                Probe::AtPocket(s.pockets@[x.pocket_id as int].r),
                s.cfg,
                stop_ticks(s.balls@[x.ball_id as int].speed as int, s.cfg.mu_g as int),
                x.time_delta as int,
            )
        } else {
            x.time_delta == TIME_NEVER
        }),
        EventEnum::HitCushion(x) => x.ball_id < s.balls@.len() && x.cushion_id
            < s.cushions@.len() && (if s.balls@[x.ball_id as int].is_moving_spec() {
            entry_outcome(
                s.balls@[x.ball_id as int],
                Probe::AtCushion(s.cushions@[x.cushion_id as int]),
                s.cfg,
                stop_ticks(s.balls@[x.ball_id as int].speed as int, s.cfg.mu_g as int),
                x.time_delta as int,
            )
        } else {
            x.time_delta == TIME_NEVER
        }),
        EventEnum::HitBall(x) => x.ball_id < s.balls@.len() && x.other_ball_id
            < s.balls@.len() && x.ball_id != x.other_ball_id && (if s.balls@[
            x.ball_id as int
        ].is_moving_spec() && !s.balls@[x.other_ball_id as int].is_pocketed_spec() {
            entry_outcome(
                s.balls@[x.ball_id as int],
                Probe::WithBall(s.balls@[x.other_ball_id as int]),
                s.cfg,
                pair_window(s.balls@[x.ball_id as int], s.balls@[x.other_ball_id as int], s.cfg),
                x.time_delta as int,
            )
        } else {
            x.time_delta == TIME_NEVER
        }),
    }
}

/// The candidate's identity: same variant, same identifiers.
pub open spec fn same_candidate(a: EventEnum, b: EventEnum) -> bool {
    match (a, b) {
        (EventEnum::NullEvent(_), EventEnum::NullEvent(_)) => true,
        (EventEnum::StopRolling(x), EventEnum::StopRolling(y)) => x.ball_id == y.ball_id,
        (EventEnum::HitPocket(x), EventEnum::HitPocket(y)) => x.ball_id == y.ball_id
            && x.pocket_id == y.pocket_id,
        (EventEnum::HitCushion(x), EventEnum::HitCushion(y)) => x.ball_id == y.ball_id
            && x.cushion_id == y.cushion_id,
        (EventEnum::HitBall(x), EventEnum::HitBall(y)) => x.ball_id == y.ball_id
            && x.other_ball_id == y.other_ball_id,
        _ => false,
    }
}

/// The new ball collection after an event's discrete effect fires.
pub open spec fn event_effect(
    e: EventEnum,
    cfg: PhysicsConfig,
    cushions: Seq<Cushion>,
    balls: Seq<Ball>,
) -> Seq<Ball> {
    match e {
        EventEnum::NullEvent(_) => balls,
        EventEnum::StopRolling(x) => balls.update(
            x.ball_id as int,
            spec_stop_effect(balls[x.ball_id as int]),
        ),
        EventEnum::HitPocket(x) => balls.update(
            x.ball_id as int,
            spec_pocket_effect(balls[x.ball_id as int]),
        ),
        EventEnum::HitCushion(x) => balls.update(
            x.ball_id as int,
            spec_reflect(
                balls[x.ball_id as int],
                flips_y(cushions[x.cushion_id as int].ctype),
            ),
        ),
        EventEnum::HitBall(x) => balls.update(
            x.ball_id as int,
            spec_set_vel(
                balls[x.ball_id as int],
                collide_w1(balls[x.ball_id as int], balls[x.other_ball_id as int]),
                cfg,
            ),
        ).update(
            x.other_ball_id as int,
            spec_set_vel(
                balls[x.other_ball_id as int],
                collide_w2(balls[x.ball_id as int], balls[x.other_ball_id as int]),
                cfg,
            ),
        ),
    }
}

// ------------------------------------------------------------------
// Computing each candidate's time
// ------------------------------------------------------------------

impl StopRolling {
    /// A moving ball stops after `speed / mu_g`, rounded up; no root-finding.
    pub fn calculate_time_until(&mut self, objects: &SimObjects)
        requires
            objects.wf(),
            old(self).ball_id < objects.balls@.len(),
        ensures
            final(self).ball_id == old(self).ball_id,
            event_computed(EventEnum::StopRolling(*final(self)), *objects),
    {
        let b = objects.balls[self.ball_id];
        if b.is_moving() {
            self.time_delta = stop_ticks_exec(b.speed, objects.cfg.mu_g);
        } else {
            self.time_delta = TIME_NEVER;
        }
    }
}

impl HitPocket {
    /// First tick at which the ball center enters the pocket's capture
    /// radius, within the ball's remaining rolling window.
    pub fn calculate_time_until(&mut self, objects: &SimObjects)
        requires
            objects.wf(),
            old(self).ball_id < objects.balls@.len(),
            old(self).pocket_id < objects.pockets@.len(),
        ensures
            final(self).ball_id == old(self).ball_id,
            final(self).pocket_id == old(self).pocket_id,
            event_computed(EventEnum::HitPocket(*final(self)), *objects),
    {
        let b = objects.balls[self.ball_id];
        if b.is_moving() {
            let hi = stop_ticks_exec(b.speed, objects.cfg.mu_g);
            let pr = Probe::AtPocket(objects.pockets[self.pocket_id].r);
            match find_entry(&b, &pr, objects.cfg, hi) {
                Some(t) => {
                    self.time_delta = t;
                },
                None => {
                    self.time_delta = TIME_NEVER;
                },
            }
        } else {
            self.time_delta = TIME_NEVER;
        }
    }
}

impl HitCushion {
    /// First tick at which the ball center comes within one radius of the
    /// cushion's supporting line.
    pub fn calculate_time_until(&mut self, objects: &SimObjects)
        requires
            objects.wf(),
            old(self).ball_id < objects.balls@.len(),
            old(self).cushion_id < objects.cushions@.len(),
        ensures
            final(self).ball_id == old(self).ball_id,
            final(self).cushion_id == old(self).cushion_id,
            event_computed(EventEnum::HitCushion(*final(self)), *objects),
    {
        let b = objects.balls[self.ball_id];
        if b.is_moving() {
            let hi = stop_ticks_exec(b.speed, objects.cfg.mu_g);
            let pr = Probe::AtCushion(objects.cushions[self.cushion_id]);
            match find_entry(&b, &pr, objects.cfg, hi) {
                Some(t) => {
                    self.time_delta = t;
                },
                None => {
                    self.time_delta = TIME_NEVER;
                },
            }
        } else {
            self.time_delta = TIME_NEVER;
        }
    }
}

impl HitBall {
    /// First tick at which the two centers come within one ball diameter;
    /// both trajectories move, so the window runs to the later stop time.
    pub fn calculate_time_until(&mut self, objects: &SimObjects)
        requires
            objects.wf(),
            old(self).ball_id < objects.balls@.len(),
            old(self).other_ball_id < objects.balls@.len(),
            old(self).ball_id != old(self).other_ball_id,
        ensures
            final(self).ball_id == old(self).ball_id,
            final(self).other_ball_id == old(self).other_ball_id,
            event_computed(EventEnum::HitBall(*final(self)), *objects),
    {
        let b = objects.balls[self.ball_id];
        let b2 = objects.balls[self.other_ball_id];
        if b.is_moving() && !b2.is_pocketed() {
            let hi1 = stop_ticks_exec(b.speed, objects.cfg.mu_g);
            let hi2 = stop_ticks_exec(b2.speed, objects.cfg.mu_g);
            let hi = if hi1 < hi2 {
                hi2
            } else {
                hi1
            };
            let pr = Probe::WithBall(b2);
            match find_entry(&b, &pr, objects.cfg, hi) {
                Some(t) => {
                    self.time_delta = t;
                },
                None => {
                    self.time_delta = TIME_NEVER;
                },
            }
        } else {
            self.time_delta = TIME_NEVER;
        }
    }
}

impl EventEnum {
    /// Compute this candidate's time against the current state.
    pub fn calculate_time_until(&mut self, objects: &SimObjects)
        requires
            objects.wf(),
            event_applicable(*old(self), *objects),
        ensures
            same_candidate(*old(self), *final(self)),
            event_computed(*final(self), *objects),
    {
        match self {
            EventEnum::NullEvent(e) => {
                e.time_delta = TIME_NEVER;
            },
            EventEnum::StopRolling(e) => e.calculate_time_until(objects),
            EventEnum::HitPocket(e) => e.calculate_time_until(objects),
            EventEnum::HitCushion(e) => e.calculate_time_until(objects),
            EventEnum::HitBall(e) => e.calculate_time_until(objects),
        }
    }
}

// ------------------------------------------------------------------
// Applying an event's discrete effect
// ------------------------------------------------------------------

impl StopRolling {
    /// Force the ball's velocity to zero; it comes to rest where it is.
    pub fn apply(&self, objects: &mut SimObjects)
        requires
            old(objects).wf(),
            event_applicable(EventEnum::StopRolling(*self), *old(objects)),
        ensures
            final(objects).wf(),
            final(objects).cfg == old(objects).cfg,
            final(objects).pockets == old(objects).pockets,
            final(objects).cushions == old(objects).cushions,
            final(objects).balls@ == event_effect(
                EventEnum::StopRolling(*self),
                old(objects).cfg,
                old(objects).cushions@,
                old(objects).balls@,
            ),
    {
        let mut b = objects.balls[self.ball_id];
        b.v = Vec2::zero();
        b.speed = 0;
        b.bstate = BallState::STATIONARY;
        proof {
            lemma_vel_of_zero(b.dir);
        }
        objects.balls.set(self.ball_id, b);
    }
}

impl HitPocket {
    /// The ball is captured: wiped to rest at the origin and marked
    /// pocketed, a terminal state.
    pub fn apply(&self, objects: &mut SimObjects)
        requires
            old(objects).wf(),
            event_applicable(EventEnum::HitPocket(*self), *old(objects)),
        ensures
            final(objects).wf(),
            final(objects).cfg == old(objects).cfg,
            final(objects).pockets == old(objects).pockets,
            final(objects).cushions == old(objects).cushions,
            final(objects).balls@ == event_effect(
                EventEnum::HitPocket(*self),
                old(objects).cfg,
                old(objects).cushions@,
                old(objects).balls@,
            ),
    {
        let mut b = objects.balls[self.ball_id];
        b.reset();
        b.bstate = BallState::POCKETED;
        proof {
            lemma_vel_of_zero(b.dir);
        }
        objects.balls.set(self.ball_id, b);
    }
}

impl HitCushion {
    /// Reflect the ball: the velocity component along the cushion's normal
    /// axis is negated, the tangential component is unchanged.
    pub fn apply(&self, objects: &mut SimObjects)
        requires
            old(objects).wf(),
            event_applicable(EventEnum::HitCushion(*self), *old(objects)),
        ensures
            final(objects).wf(),
            final(objects).cfg == old(objects).cfg,
            final(objects).pockets == old(objects).pockets,
            final(objects).cushions == old(objects).cushions,
            final(objects).balls@ == event_effect(
                EventEnum::HitCushion(*self),
                old(objects).cfg,
                old(objects).cushions@,
                old(objects).balls@,
            ),
    {
        let c = objects.cushions[self.cushion_id];
        let flip = matches!(c.ctype, CushionType::TOP | CushionType::BOTTOM);
        let cfg = objects.cfg;
        let mut b = objects.balls[self.ball_id];
        b.reflect(flip, cfg);
        objects.balls.set(self.ball_id, b);
    }
}

impl HitBall {
    /// Resolve the elastic collision between the two balls: the along-centers
    /// velocity component is exchanged (equal masses); the struck ball starts
    /// moving if it gained speed.
    pub fn apply(&self, objects: &mut SimObjects)
        requires
            old(objects).wf(),
            event_applicable(EventEnum::HitBall(*self), *old(objects)),
        ensures
            final(objects).wf(),
            final(objects).cfg == old(objects).cfg,
            final(objects).pockets == old(objects).pockets,
            final(objects).cushions == old(objects).cushions,
            final(objects).balls@ == event_effect(
                EventEnum::HitBall(*self),
                old(objects).cfg,
                old(objects).cushions@,
                old(objects).balls@,
            ),
    {
        let cfg = objects.cfg;
        let b1 = objects.balls[self.ball_id];
        let b2 = objects.balls[self.other_ball_id];
        let (w1, w2) = elastic_collision(&b1, &b2, cfg);
        let mut nb1 = b1;
        nb1.set_velocity(w1, cfg);
        let mut nb2 = b2;
        nb2.set_velocity(w2, cfg);
        objects.balls.set(self.ball_id, nb1);
        objects.balls.set(self.other_ball_id, nb2);
    }
}

impl EventEnum {
    /// Dispatch the event's discrete effect; the null event does nothing.
    pub fn apply(&self, objects: &mut SimObjects)
        requires
            old(objects).wf(),
            event_applicable(*self, *old(objects)),
        ensures
            final(objects).wf(),
            final(objects).cfg == old(objects).cfg,
            final(objects).pockets == old(objects).pockets,
            final(objects).cushions == old(objects).cushions,
            final(objects).balls@ == event_effect(
                *self,
                old(objects).cfg,
                old(objects).cushions@,
                old(objects).balls@,
            ),
    {
        match self {
            EventEnum::NullEvent(_) => {},
            EventEnum::StopRolling(e) => e.apply(objects),
            EventEnum::HitPocket(e) => e.apply(objects),
            EventEnum::HitCushion(e) => e.apply(objects),
            EventEnum::HitBall(e) => e.apply(objects),
        }
    }
}

// ------------------------------------------------------------------
// Bridging lemmas for the step loop
// ------------------------------------------------------------------

/// Applicability only reads identifiers and pocketed-ness, so it survives
/// advancing every ball along its trajectory.
pub proof fn lemma_applicable_after_advance(e: EventEnum, s_old: SimObjects, s_new: SimObjects)
    requires
        event_applicable(e, s_old),
        s_new.balls@.len() == s_old.balls@.len(),
        s_new.pockets@.len() == s_old.pockets@.len(),
        s_new.cushions@.len() == s_old.cushions@.len(),
        forall|j: int|
            0 <= j < s_old.balls@.len() ==> (#[trigger] s_new.balls@[j]).is_pocketed_spec()
                == s_old.balls@[j].is_pocketed_spec(),
    ensures
        event_applicable(e, s_new),
{
}

/// A computed candidate that does occur concerns balls that are on the
/// table, so it can be applied.
pub proof fn lemma_computed_applicable(e: EventEnum, s: SimObjects)
    requires
        s.wf(),
        event_computed(e, s),
        !(e is NullEvent),
        e.time_spec() != TIME_NEVER as int,
    ensures
        event_applicable(e, s),
{
}

/// Law: a moving ball whose trajectory meets no pocket, no cushion and no
/// other ball at any admissible instant can only resolve by rolling to a
/// stop. If no first-contact instant exists anywhere, the computed event
/// that occurs is a `StopRolling`.
pub proof fn lemma_no_contact_stops(e: EventEnum, s: SimObjects)
    requires
        event_computed(e, s),
        !(e is NullEvent),
        e.time_spec() != TIME_NEVER as int,
        forall|i: int, j: int, t: int|
            0 <= i < s.balls@.len() && 0 <= j < s.pockets@.len() ==> !(#[trigger] probe_entry(
                s.balls@[i],
                Probe::AtPocket(s.pockets@[j].r),
                s.cfg,
                t,
            )),
        forall|i: int, j: int, t: int|
            0 <= i < s.balls@.len() && 0 <= j < s.cushions@.len() ==> !(#[trigger] probe_entry(
                s.balls@[i],
                Probe::AtCushion(s.cushions@[j]),
                s.cfg,
                t,
            )),
        forall|i: int, j: int, t: int|
            0 <= i < s.balls@.len() && 0 <= j < s.balls@.len() ==> !(#[trigger] probe_entry(
                s.balls@[i],
                Probe::WithBall(s.balls@[j]),
                s.cfg,
                t,
            )),
    ensures
        e is StopRolling,
{
}

} // verus!
