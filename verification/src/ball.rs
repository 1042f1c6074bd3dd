//! Ball kinematics.
//!
//! All quantities are fixed-point integers:
//! - positions in `0.0001 cm` units,
//! - time in ticks of `0.0001 s`,
//! - speeds in units per second,
//! - directions as unit vectors scaled by `DIR_SCALE`.
//!
//! A ball moving with speed `m0` along direction `u` decelerates at the
//! constant rate `mu_g` until it stops; its closed-form trajectory is
//! `r(t) = r0 + (m0*t - mu_g*t^2/2) * u` and `v(t) = (m0 - mu_g*t) * u`,
//! evaluated here with explicit truncating divisions and clamped to rest
//! beyond the stop time `m0 / mu_g`, never extrapolated.

use vstd::prelude::*;

use crate::num::{abs_i, clamp_spec, lemma_mul_bounds, lemma_tdiv_shrinks, min_i, sqrt_floor, tdiv};
use crate::num::{clamp_i128, isqrt_u128, mul_i128, mul_wide_i128, tdiv_i128};
use crate::num::{lemma_div_mono, lemma_div_nonneg, lemma_mul_div_exact, lemma_square_nonneg};
use crate::num::lemma_tdiv_neg;
use crate::vec2::Vec2;

verus! {

/// Ticks per second: time resolution of the simulation.
pub const TICKS_PER_SECOND: i64 = 10_000;

/// Fixed-point scale of direction unit vectors.
pub const DIR_SCALE: i64 = 1_000_000;

/// Largest admissible speed (units per second).
pub const SPEED_LIMIT: i64 = 33_554_432;

/// Positions are saturated into `[-POS_LIMIT, POS_LIMIT]`.
pub const POS_LIMIT: i64 = 70_368_744_177_664;

/// Upper bound on the physical parameters of a configuration.
pub const PARAM_LIMIT: i64 = 16_777_216;

/// Bound on the components of an aiming vector handed to `Ball::hit`.
pub const AIM_LIMIT: i64 = 1_099_511_627_776;

/// Divisor turning `disp_numer` into a displacement in position units:
/// `2 * TICKS_PER_SECOND^2 * DIR_SCALE`.
pub const DISP_DIVISOR: i64 = 200_000_000_000_000;

/// The physical parameters of one table, fixed for a session.
#[derive(Clone, Copy, PartialEq, Eq, Structural, Debug)]
pub struct PhysicsConfig {
    /// Deceleration from rolling friction, in speed units per second
    /// (the product of the friction coefficient and gravity).
    pub mu_g: i64,
    /// Ball radius, in position units.
    pub radius: i64,
    /// Speeds below this threshold are numerical zero.
    pub eps_speed: i64,
    /// Candidate event times at or below this many ticks are discarded,
    /// so that the event that just fired is never selected again.
    pub eps_ticks: i64,
    /// Bound on the number of events resolved in one turn.
    pub max_steps: u64,
}

impl PhysicsConfig {
    pub open spec fn wf(self) -> bool {
        &&& 1 <= self.mu_g <= PARAM_LIMIT
        &&& 1 <= self.radius <= PARAM_LIMIT
        &&& 1 <= self.eps_speed <= PARAM_LIMIT
        &&& 1 <= self.eps_ticks <= PARAM_LIMIT
    }
}

#[derive(Clone, Copy, PartialEq, Eq, Structural, Debug)]
pub enum BallType {
    SOLID,
    EIGHT,
    STRIPED,
    CUE,
}

#[derive(Clone, Copy, PartialEq, Eq, Structural, Debug)]
pub enum BallState {
    STATIONARY,
    MOVING,
    POCKETED,
}

/// Ticks until a ball with this speed stops: `ceil(speed * TICKS_PER_SECOND / mu_g)`.
pub open spec fn stop_ticks(speed: int, mu_g: int) -> int {
    (speed * (TICKS_PER_SECOND as int) + mu_g - 1) / mu_g
}

/// Speed lost to friction after `t` ticks.
pub open spec fn speed_drop(mu_g: int, t: int) -> int {
    (mu_g * t) / (TICKS_PER_SECOND as int)
}

/// Speed after `t` ticks: `max(0, speed - mu_g * t)`, in integer form.
pub open spec fn raw_speed_after(speed: int, mu_g: int, t: int) -> int {
    if speed - speed_drop(mu_g, t) >= 0 {
        speed - speed_drop(mu_g, t)
    } else {
        0
    }
}

/// Speeds below the numerical-zero threshold collapse to exactly zero.
pub open spec fn snap_speed(s: int, eps: int) -> int {
    if s < eps {
        0
    } else {
        s
    }
}

/// `t` clamped to the stop time, beyond which the trajectory is at rest.
pub open spec fn clamped_ticks(speed: int, mu_g: int, t: int) -> int {
    min_i(t, stop_ticks(speed, mu_g))
}

/// Scaled displacement numerator: `2 * TICKS_PER_SECOND * speed * t - mu_g * t^2`,
/// which over `DISP_DIVISOR / DIR_SCALE` is the rolled distance `speed*t - mu_g*t^2/2`.
pub open spec fn disp_numer(speed: int, mu_g: int, t: int) -> int {
    2 * (TICKS_PER_SECOND as int) * speed * t - mu_g * t * t
}

/// Signed displacement along one axis whose direction component is `d`.
pub open spec fn delta_along(speed: int, mu_g: int, d: int, t: int) -> int {
    tdiv(disp_numer(speed, mu_g, clamped_ticks(speed, mu_g, t)) * d, DISP_DIVISOR as int)
}

/// One coordinate of the closed-form position after `t` ticks, saturated.
pub open spec fn pos_after_comp(r0: int, speed: int, mu_g: int, d: int, t: int) -> int {
    clamp_spec(r0 + delta_along(speed, mu_g, d, t), POS_LIMIT as int)
}

/// One component of the velocity vector of a ball with this speed and
/// direction component.
pub open spec fn vel_comp(speed: int, d: int) -> int {
    tdiv(speed * d, DIR_SCALE as int)
}

/// The velocity vector derived from a direction and a speed.
pub open spec fn vel_of(dir: Vec2, speed: int) -> Vec2 {
    Vec2 { x: vel_comp(speed, dir.x as int) as i64, y: vel_comp(speed, dir.y as int) as i64 }
}

/// A disc on the table, with its identity and kinematic state.
#[derive(Clone, Copy, PartialEq, Eq, Structural, Debug)]
pub struct Ball {
    pub id: usize,
    pub btype: BallType,
    pub bstate: BallState,
    /// Position of the center.
    pub r: Vec2,
    /// Velocity vector; always `vel_of(dir, speed)`.
    pub v: Vec2,
    /// Direction of travel as a `DIR_SCALE`-scaled unit vector.
    pub dir: Vec2,
    /// Magnitude of the velocity, in speed units; always `>= 0`.
    pub speed: i64,
}

impl Ball {
    /// Well-formedness: bounded fields, a coherent cached velocity vector,
    /// and a state tag that agrees with the speed.
    pub open spec fn wf(self, cfg: PhysicsConfig) -> bool {
        &&& -POS_LIMIT <= self.r.x <= POS_LIMIT
        &&& -POS_LIMIT <= self.r.y <= POS_LIMIT
        &&& 0 <= self.speed <= SPEED_LIMIT
        &&& -DIR_SCALE <= self.dir.x <= DIR_SCALE
        &&& -DIR_SCALE <= self.dir.y <= DIR_SCALE
        &&& self.v == vel_of(self.dir, self.speed as int)
        &&& -SPEED_LIMIT <= self.v.x <= SPEED_LIMIT
        &&& -SPEED_LIMIT <= self.v.y <= SPEED_LIMIT
        &&& (self.bstate is MOVING ==> self.speed >= cfg.eps_speed)
        &&& (!(self.bstate is MOVING) ==> self.speed == 0)
    }

    pub open spec fn is_moving_spec(self) -> bool {
        self.bstate is MOVING
    }

    pub open spec fn is_pocketed_spec(self) -> bool {
        self.bstate is POCKETED
    }
}

/// The value of a ball advanced by `t` ticks: closed-form position and speed,
/// direction unchanged, state recomputed from the new speed. Pocketed balls
/// are frozen. This is the meaning of `Ball::update_state`.
pub open spec fn spec_advance(b: Ball, cfg: PhysicsConfig, t: int) -> Ball {
    if b.bstate is POCKETED {
        b
    } else {
        let raw = raw_speed_after(b.speed as int, cfg.mu_g as int, t);
        let s2 = snap_speed(raw, cfg.eps_speed as int);
        let nx = pos_after_comp(b.r.x as int, b.speed as int, cfg.mu_g as int, b.dir.x as int, t);
        let ny = pos_after_comp(b.r.y as int, b.speed as int, cfg.mu_g as int, b.dir.y as int, t);
        Ball {
            r: (Vec2 { x: nx as i64, y: ny as i64 }),
            v: vel_of(b.dir, s2),
            speed: s2 as i64,
            bstate: if s2 == 0 {
                BallState::STATIONARY
            } else {
                BallState::MOVING
            },
            ..b
        }
    }
}

/// The value of a ball struck along `aim` with speed `force`: the direction is
/// `aim` normalized to the fixed-point unit scale, position is unchanged.
/// This is the meaning of `Ball::hit`.
pub open spec fn spec_hit(b: Ball, aim: Vec2, force: int, eps_speed: int) -> Ball {
    let n = sqrt_floor(((aim.x as int) * (aim.x as int) + (aim.y as int) * (aim.y as int)) as nat);
    let ux = tdiv((aim.x as int) * (DIR_SCALE as int), n as int);
    let uy = tdiv((aim.y as int) * (DIR_SCALE as int), n as int);
    let s2 = snap_speed(force, eps_speed);
    let d = Vec2 { x: ux as i64, y: uy as i64 };
    Ball {
        dir: d,
        speed: s2 as i64,
        v: vel_of(d, s2),
        bstate: if s2 == 0 {
            BallState::STATIONARY
        } else {
            BallState::MOVING
        },
        ..b
    }
}

/// The value of a ball wiped to rest at the origin; identity is kept.
/// This is the meaning of `Ball::reset`.
pub open spec fn spec_reset(b: Ball) -> Ball {
    Ball {
        r: Vec2::zero_spec(),
        v: Vec2::zero_spec(),
        dir: Vec2::zero_spec(),
        speed: 0,
        bstate: BallState::STATIONARY,
        ..b
    }
}

/// Exec computation of `raw_speed_after`.
fn raw_speed_exec(speed: i64, mu_g: i64, t: i64) -> (s: i64)
    requires
        0 <= speed <= SPEED_LIMIT,
        1 <= mu_g <= PARAM_LIMIT,
        0 <= t,
    ensures
        s as int == raw_speed_after(speed as int, mu_g as int, t as int),
        0 <= s <= speed,
{
    let prod: i128 = mul_i128(mu_g as i128, t as i128);
    proof {
        lemma_mul_bounds(mu_g as int, t as int, PARAM_LIMIT as int, i64::MAX as int);
    }
    let drop: i128 = prod / (TICKS_PER_SECOND as i128);
    let raw: i128 = (speed as i128) - drop;
    if raw >= 0 {
        raw as i64
    } else {
        0
    }
}

/// Exec computation of `vel_of`.
fn vel_exec(dir: Vec2, speed: i64) -> (v: Vec2)
    requires
        -DIR_SCALE <= dir.x <= DIR_SCALE,
        -DIR_SCALE <= dir.y <= DIR_SCALE,
        0 <= speed <= SPEED_LIMIT,
    ensures
        v == vel_of(dir, speed as int),
        -SPEED_LIMIT <= v.x <= SPEED_LIMIT,
        -SPEED_LIMIT <= v.y <= SPEED_LIMIT,
{
    let px: i128 = mul_i128(speed as i128, dir.x as i128);
    let py: i128 = mul_i128(speed as i128, dir.y as i128);
    proof {
        assert(abs_i((speed as int) * (dir.x as int)) <= (speed as int) * (DIR_SCALE as int))
            by (nonlinear_arith)
            requires
                0 <= speed,
                -DIR_SCALE <= dir.x <= DIR_SCALE,
        ;
        assert(abs_i((speed as int) * (dir.y as int)) <= (speed as int) * (DIR_SCALE as int))
            by (nonlinear_arith)
            requires
                0 <= speed,
                -DIR_SCALE <= dir.y <= DIR_SCALE,
        ;
        lemma_tdiv_shrinks((speed as int) * (dir.x as int), DIR_SCALE as int, speed as int);
        lemma_tdiv_shrinks((speed as int) * (dir.y as int), DIR_SCALE as int, speed as int);
    }
    let vx = tdiv_i128(px, DIR_SCALE as i128);
    let vy = tdiv_i128(py, DIR_SCALE as i128);
    Vec2 { x: vx as i64, y: vy as i64 }
}

/// Exec computation of the clamped stop time in ticks.
pub fn stop_ticks_exec(speed: i64, mu_g: i64) -> (t: i64)
    requires
        0 <= speed <= SPEED_LIMIT,
        1 <= mu_g <= PARAM_LIMIT,
    ensures
        t as int == stop_ticks(speed as int, mu_g as int),
        0 <= t <= 335_544_320_000i64,
{
    let prod: i128 = mul_i128(speed as i128, TICKS_PER_SECOND as i128);
    proof {
        lemma_mul_bounds(speed as int, TICKS_PER_SECOND as int, SPEED_LIMIT as int, TICKS_PER_SECOND as int);
    }
    let num: i128 = prod + (mu_g as i128) - 1;
    let st: i128 = num / (mu_g as i128);
    proof {
        assert(st <= 335_544_320_000i128) by (nonlinear_arith)
            requires
                st == (num as int) / (mu_g as int),
                0 <= num <= 335_544_320_000i128 + mu_g - 1,
                1 <= mu_g,
        ;
        assert(st >= 0);
    }
    st as i64
}

/// Exec computation of one position coordinate of the closed-form trajectory.
fn pos_comp_exec(r0: i64, speed: i64, mu_g: i64, d: i64, t: i64) -> (p: i64)
    requires
        -POS_LIMIT <= r0 <= POS_LIMIT,
        0 <= speed <= SPEED_LIMIT,
        1 <= mu_g <= PARAM_LIMIT,
        -DIR_SCALE <= d <= DIR_SCALE,
        0 <= t,
    ensures
        p as int == pos_after_comp(r0 as int, speed as int, mu_g as int, d as int, t as int),
        -POS_LIMIT <= p <= POS_LIMIT,
{
    let stop: i64 = stop_ticks_exec(speed, mu_g);
    let tc: i128 = if t < stop {
        t as i128
    } else {
        stop as i128
    };
    proof {
        assert(tc == clamped_ticks(speed as int, mu_g as int, t as int));
        assert(0 <= tc <= 335_544_320_000i128);
    }
    let head: i128 = mul_i128(2 * (TICKS_PER_SECOND as i128), speed as i128);
    proof {
        lemma_mul_bounds(
            2 * (TICKS_PER_SECOND as int),
            speed as int,
            20_000,
            SPEED_LIMIT as int,
        );
    }
    let lin: i128 = mul_i128(head, tc);
    proof {
        lemma_mul_bounds(head as int, tc as int, 671_088_640_000, 335_544_320_000);
    }
    let gt: i128 = mul_i128(mu_g as i128, tc);
    proof {
        lemma_mul_bounds(mu_g as int, tc as int, PARAM_LIMIT as int, 335_544_320_000);
    }
    let quad: i128 = mul_i128(gt, tc);
    proof {
        lemma_mul_bounds(gt as int, tc as int, 5_629_499_534_213_120_000, 335_544_320_000);
    }
    let dn: i128 = lin - quad;
    proof {
        assert(dn == disp_numer(speed as int, mu_g as int, tc as int));
        assert(abs_i(dn as int) <= 2535301200456458802993406410752i128);
    }
    let prod: i128 = mul_wide_i128(dn, d as i128);
    proof {
        lemma_mul_bounds(dn as int, d as int, 2535301200456458802993406410752, 2097152);
    }
    let dx: i128 = tdiv_i128(prod, DISP_DIVISOR as i128);
    let px: i128 = clamp_i128((r0 as i128) + dx, POS_LIMIT as i128);
    px as i64
}

impl Ball {
    pub fn new(id: usize, btype: BallType) -> (b: Ball)
        ensures
            b.id == id,
            b.btype == btype,
            b == (Ball {
                id,
                btype,
                bstate: BallState::STATIONARY,
                r: Vec2::zero_spec(),
                v: Vec2::zero_spec(),
                dir: Vec2::zero_spec(),
                speed: 0,
            }),
            forall|cfg: PhysicsConfig| cfg.wf() ==> #[trigger] b.wf(cfg),
    {
        let b = Ball {
            id,
            btype,
            bstate: BallState::STATIONARY,
            r: Vec2::zero(),
            v: Vec2::zero(),
            dir: Vec2::zero(),
            speed: 0,
        };
        proof {
            assert(vel_comp(0, 0) == 0);
            assert forall|cfg: PhysicsConfig| cfg.wf() implies #[trigger] b.wf(cfg) by {
                assert(b.v == vel_of(b.dir, b.speed as int));
            }
        }
        b
    }

    /// Advance this ball's state `t` ticks along its closed-form trajectory:
    /// position and velocity are re-evaluated, the speed decays under
    /// friction, and the state becomes `STATIONARY` once the speed reaches
    /// numerical zero.
    pub fn update_state(&mut self, cfg: PhysicsConfig, t: i64)
        requires
            cfg.wf(),
            old(self).wf(cfg),
            0 <= t,
        ensures
            *final(self) == spec_advance(*old(self), cfg, t as int),
            final(self).wf(cfg),
    {
        if matches!(self.bstate, BallState::POCKETED) {
            return ;
        }
        let nx = pos_comp_exec(self.r.x, self.speed, cfg.mu_g, self.dir.x, t);
        let ny = pos_comp_exec(self.r.y, self.speed, cfg.mu_g, self.dir.y, t);
        let raw = raw_speed_exec(self.speed, cfg.mu_g, t);
        let s2: i64 = if raw < cfg.eps_speed {
            0
        } else {
            raw
        };
        self.r = Vec2 { x: nx, y: ny };
        self.speed = s2;
        self.v = vel_exec(self.dir, s2);
        self.bstate = if s2 == 0 {
            BallState::STATIONARY
        } else {
            BallState::MOVING
        };
    }

    /// Strike this ball: it starts moving along `aim` with speed `force`.
    pub fn hit(&mut self, aim: Vec2, force: i64, cfg: PhysicsConfig)
        requires
            cfg.wf(),
            old(self).wf(cfg),
            !(old(self).bstate is POCKETED),
            0 <= force <= SPEED_LIMIT,
            (aim.x as int) * (aim.x as int) + (aim.y as int) * (aim.y as int) > 0,
            -AIM_LIMIT <= aim.x <= AIM_LIMIT,
            -AIM_LIMIT <= aim.y <= AIM_LIMIT,
        ensures
            *final(self) == spec_hit(*old(self), aim, force as int, cfg.eps_speed as int),
            final(self).wf(cfg),
    {
        let xx: i128 = mul_i128(aim.x as i128, aim.x as i128);
        let yy: i128 = mul_i128(aim.y as i128, aim.y as i128);
        proof {
            lemma_square_nonneg(aim.x as int);
            lemma_square_nonneg(aim.y as int);
            lemma_mul_bounds(aim.x as int, aim.x as int, AIM_LIMIT as int, AIM_LIMIT as int);
            lemma_mul_bounds(aim.y as int, aim.y as int, AIM_LIMIT as int, AIM_LIMIT as int);
        }
        let sq: i128 = xx + yy;
        let n: u128 = isqrt_u128(sq as u128);
        proof {
            assert(n >= 1) by (nonlinear_arith)
                requires
                    (n as int + 1) * (n as int + 1) > sq,
                    sq >= 1,
            ;
            assert(n as int <= 2_199_023_255_552) by (nonlinear_arith)
                requires
                    (n as int) * (n as int) <= sq,
                    0 <= sq <= 2 * 1_099_511_627_776 * 1_099_511_627_776,
            ;
        }
        let ni: i128 = n as i128;
        let axs: i128 = mul_i128(aim.x as i128, DIR_SCALE as i128);
        let ays: i128 = mul_i128(aim.y as i128, DIR_SCALE as i128);
        proof {
            assert(abs_i(aim.x as int) <= n as int) by (nonlinear_arith)
                requires
                    (aim.x as int) * (aim.x as int) <= sq,
                    sq < (n as int + 1) * (n as int + 1),
                    n >= 0,
            ;
            assert(abs_i(aim.y as int) <= n as int) by (nonlinear_arith)
                requires
                    (aim.y as int) * (aim.y as int) <= sq,
                    sq < (n as int + 1) * (n as int + 1),
                    n >= 0,
            ;
            assert(abs_i((aim.x as int) * (DIR_SCALE as int)) <= (DIR_SCALE as int) * (ni as int))
                by (nonlinear_arith)
                requires
                    abs_i(aim.x as int) <= ni,
                    0 < ni,
            ;
            assert(abs_i((aim.y as int) * (DIR_SCALE as int)) <= (DIR_SCALE as int) * (ni as int))
                by (nonlinear_arith)
                requires
                    abs_i(aim.y as int) <= ni,
                    0 < ni,
            ;
            lemma_tdiv_shrinks((aim.x as int) * (DIR_SCALE as int), ni as int, DIR_SCALE as int);
            lemma_tdiv_shrinks((aim.y as int) * (DIR_SCALE as int), ni as int, DIR_SCALE as int);
        }
        let ux = tdiv_i128(axs, ni);
        let uy = tdiv_i128(ays, ni);
        let d = Vec2 { x: ux as i64, y: uy as i64 };
        let s2: i64 = if force < cfg.eps_speed {
            0
        } else {
            force
        };
        self.dir = d;
        self.speed = s2;
        self.v = vel_exec(d, s2);
        self.bstate = if s2 == 0 {
            BallState::STATIONARY
        } else {
            BallState::MOVING
        };
    }

    /// Wipe this ball to rest at the origin (used when it is pocketed).
    pub fn reset(&mut self)
        ensures
            *final(self) == spec_reset(*old(self)),
            forall|cfg: PhysicsConfig| cfg.wf() ==> #[trigger] final(self).wf(cfg),
    {
        self.r = Vec2::zero();
        self.v = Vec2::zero();
        self.dir = Vec2::zero();
        self.speed = 0;
        self.bstate = BallState::STATIONARY;
        proof {
            assert(vel_comp(0, 0) == 0);
        }
    }

    /// The closed-form position `r(t)`, without mutating the ball.
    pub fn r_t(&self, cfg: PhysicsConfig, t: i64) -> (p: Vec2)
        requires
            cfg.wf(),
            self.wf(cfg),
            0 <= t,
        ensures
            p.x as int == pos_after_comp(
                self.r.x as int,
                self.speed as int,
                cfg.mu_g as int,
                self.dir.x as int,
                t as int,
            ),
            p.y as int == pos_after_comp(
                self.r.y as int,
                self.speed as int,
                cfg.mu_g as int,
                self.dir.y as int,
                t as int,
            ),
    {
        let nx = pos_comp_exec(self.r.x, self.speed, cfg.mu_g, self.dir.x, t);
        let ny = pos_comp_exec(self.r.y, self.speed, cfg.mu_g, self.dir.y, t);
        Vec2 { x: nx, y: ny }
    }

    /// The closed-form velocity `v(t)`, without mutating the ball.
    pub fn v_t(&self, cfg: PhysicsConfig, t: i64) -> (v: Vec2)
        requires
            cfg.wf(),
            self.wf(cfg),
            0 <= t,
        ensures
            v == vel_of(
                self.dir,
                raw_speed_after(self.speed as int, cfg.mu_g as int, t as int),
            ),
    {
        let raw = raw_speed_exec(self.speed, cfg.mu_g, t);
        vel_exec(self.dir, raw)
    }

    pub fn is_pocketed(&self) -> (r: bool)
        ensures
            r == self.is_pocketed_spec(),
    {
        matches!(self.bstate, BallState::POCKETED)
    }

    pub fn is_moving(&self) -> (r: bool)
        ensures
            r == self.is_moving_spec(),
    {
        matches!(self.bstate, BallState::MOVING)
    }
}

/// Law: after `update_state(t)`, the speed is `max(0, m0 - mu_g*t)` — snapped
/// to zero below the numerical threshold — and the position is the saturated
/// closed-form `r(t)`; the direction is untouched.
pub proof fn lemma_advance_closed_form(b: Ball, cfg: PhysicsConfig, t: int)
    requires
        cfg.wf(),
        b.wf(cfg),
        !(b.bstate is POCKETED),
        0 <= t,
    ensures
        spec_advance(b, cfg, t).speed as int == snap_speed(
            raw_speed_after(b.speed as int, cfg.mu_g as int, t),
            cfg.eps_speed as int,
        ),
        raw_speed_after(b.speed as int, cfg.mu_g as int, t) >= cfg.eps_speed
            ==> spec_advance(b, cfg, t).speed as int == b.speed - speed_drop(cfg.mu_g as int, t),
        spec_advance(b, cfg, t).r.x as int == pos_after_comp(
            b.r.x as int,
            b.speed as int,
            cfg.mu_g as int,
            b.dir.x as int,
            t,
        ),
        spec_advance(b, cfg, t).r.y as int == pos_after_comp(
            b.r.y as int,
            b.speed as int,
            cfg.mu_g as int,
            b.dir.y as int,
            t,
        ),
        spec_advance(b, cfg, t).dir == b.dir,
{
}

/// Law: advancing by zero ticks changes nothing.
pub proof fn lemma_advance_zero(b: Ball, cfg: PhysicsConfig)
    requires
        cfg.wf(),
        b.wf(cfg),
    ensures
        spec_advance(b, cfg, 0) == b,
{
    if !(b.bstate is POCKETED) {
        let g = cfg.mu_g as int;
        let m = b.speed as int;
        assert(g * 0 == 0);
        assert(speed_drop(g, 0) == 0);
        assert(raw_speed_after(m, g, 0) == m);
        lemma_div_nonneg(m * (TICKS_PER_SECOND as int) + g - 1, g);
        assert(stop_ticks(m, g) >= 0);
        assert(clamped_ticks(m, g, 0) == 0);
        assert(2 * (TICKS_PER_SECOND as int) * m * 0 - g * 0 * 0 == 0) by (nonlinear_arith);
        assert(disp_numer(m, g, 0) == 0);
        assert(disp_numer(m, g, clamped_ticks(m, g, 0)) * (b.dir.x as int) == 0)
            by (nonlinear_arith)
            requires
                disp_numer(m, g, clamped_ticks(m, g, 0)) == 0,
        ;
        assert(disp_numer(m, g, clamped_ticks(m, g, 0)) * (b.dir.y as int) == 0)
            by (nonlinear_arith)
            requires
                disp_numer(m, g, clamped_ticks(m, g, 0)) == 0,
        ;
        assert(delta_along(m, g, b.dir.x as int, 0) == 0);
        assert(delta_along(m, g, b.dir.y as int, 0) == 0);
        assert(spec_advance(b, cfg, 0).r == b.r);
        assert(spec_advance(b, cfg, 0).speed == b.speed);
        assert(spec_advance(b, cfg, 0).bstate == b.bstate);
        assert(spec_advance(b, cfg, 0).v == b.v);
    }
}

/// Law: at the predicted stop time the speed is exactly zero, and a stopped
/// ball is a fixed point of `update_state` — applying the stop a second time
/// changes nothing.
pub proof fn lemma_stop_rolling(b: Ball, cfg: PhysicsConfig, t: int)
    requires
        cfg.wf(),
        b.wf(cfg),
        !(b.bstate is POCKETED),
        t >= stop_ticks(b.speed as int, cfg.mu_g as int),
    ensures
        spec_advance(b, cfg, t).speed == 0,
        spec_advance(b, cfg, t).bstate is STATIONARY,
        forall|u: int|
            0 <= u ==> #[trigger] spec_advance(spec_advance(b, cfg, t), cfg, u) == spec_advance(
                b,
                cfg,
                t,
            ),
{
    let m = b.speed as int;
    let g = cfg.mu_g as int;
    let ts = TICKS_PER_SECOND as int;
    assert(g * t >= m * ts) by (nonlinear_arith)
        requires
            t >= (m * ts + g - 1) / g,
            g >= 1,
            m >= 0,
            ts >= 1,
    ;
    assert(m * ts >= 0);
    lemma_div_mono(m * ts, g * t, ts);
    lemma_mul_div_exact(m, ts);
    assert(speed_drop(g, t) >= m);
    assert(raw_speed_after(m, g, t) == 0);
    let b2 = spec_advance(b, cfg, t);
    assert(b2.speed == 0);
    assert forall|u: int| 0 <= u implies #[trigger] spec_advance(b2, cfg, u) == b2 by {
        lemma_advance_stationary(b2, cfg, u);
    }
}

/// Law: a ball at rest is unchanged by any advance — `update_state` is a
/// no-op on stationary and pocketed balls.
pub proof fn lemma_advance_stationary(b: Ball, cfg: PhysicsConfig, t: int)
    requires
        cfg.wf(),
        b.wf(cfg),
        !(b.bstate is MOVING),
        t >= 0,
    ensures
        spec_advance(b, cfg, t) == b,
{
    if !(b.bstate is POCKETED) {
        let g = cfg.mu_g as int;
        let ts = TICKS_PER_SECOND as int;
        assert(b.speed == 0);
        assert(g * t >= 0) by (nonlinear_arith)
            requires
                g >= 1,
                t >= 0,
        ;
        lemma_div_nonneg(g * t, ts);
        assert(speed_drop(g, t) >= 0);
        assert(raw_speed_after(0, g, t) == 0);
        assert((g - 1) / g == 0) by (nonlinear_arith)
            requires
                g >= 1,
        ;
        assert(stop_ticks(0, g) == 0);
        let tc = clamped_ticks(0, g, t);
        assert(tc == 0);
        assert(2 * (TICKS_PER_SECOND as int) * 0 * 0 - g * 0 * 0 == 0) by (nonlinear_arith);
        assert(disp_numer(0, g, 0) == 0);
        assert(disp_numer(0, g, clamped_ticks(0, g, t)) * (b.dir.x as int) == 0)
            by (nonlinear_arith)
            requires
                disp_numer(0, g, clamped_ticks(0, g, t)) == 0,
        ;
        assert(disp_numer(0, g, clamped_ticks(0, g, t)) * (b.dir.y as int) == 0)
            by (nonlinear_arith)
            requires
                disp_numer(0, g, clamped_ticks(0, g, t)) == 0,
        ;
        assert(delta_along(0, g, b.dir.x as int, t) == 0);
        assert(delta_along(0, g, b.dir.y as int, t) == 0);
        assert(spec_advance(b, cfg, t).r == b.r);
        assert(spec_advance(b, cfg, t).v == b.v);
        assert(spec_advance(b, cfg, t).bstate == b.bstate);
    }
}

/// The value of a ball whose velocity vector is replaced by `w`: the speed is
/// `|w|` (capped and snapped), the direction is `w` normalized, the position
/// is unchanged. This is the meaning of `Ball::set_velocity`, used by the
/// collision responses.
pub open spec fn spec_set_vel(b: Ball, w: Vec2, cfg: PhysicsConfig) -> Ball {
    let nn = sqrt_floor(((w.x as int) * (w.x as int) + (w.y as int) * (w.y as int)) as nat) as int;
    let m = min_i(nn, SPEED_LIMIT as int);
    let m2 = snap_speed(m, cfg.eps_speed as int);
    if m2 == 0 {
        Ball {
            v: Vec2::zero_spec(),
            dir: Vec2::zero_spec(),
            speed: 0,
            bstate: BallState::STATIONARY,
            ..b
        }
    } else {
        let d = Vec2 {
            x: tdiv((w.x as int) * (DIR_SCALE as int), nn) as i64,
            y: tdiv((w.y as int) * (DIR_SCALE as int), nn) as i64,
        };
        Ball { v: vel_of(d, m2), dir: d, speed: m2 as i64, bstate: BallState::MOVING, ..b }
    }
}

/// The value of a ball bounced off a cushion: the direction component along
/// the cushion's normal axis is negated, the other is kept, and the velocity
/// vector is rederived; speed and position are unchanged.
pub open spec fn spec_reflect(b: Ball, flip_y: bool) -> Ball {
    let d2 = if flip_y {
        Vec2 { x: b.dir.x, y: (-(b.dir.y as int)) as i64 }
    } else {
        Vec2 { x: (-(b.dir.x as int)) as i64, y: b.dir.y }
    };
    Ball { dir: d2, v: vel_of(d2, b.speed as int), ..b }
}

impl Ball {
    /// Replace this ball's velocity vector (after a collision).
    pub fn set_velocity(&mut self, w: Vec2, cfg: PhysicsConfig)
        requires
            cfg.wf(),
            old(self).wf(cfg),
            !(old(self).bstate is POCKETED),
            -SPEED_LIMIT <= w.x <= SPEED_LIMIT,
            -SPEED_LIMIT <= w.y <= SPEED_LIMIT,
        ensures
            *final(self) == spec_set_vel(*old(self), w, cfg),
            final(self).wf(cfg),
    {
        let xx = mul_i128(w.x as i128, w.x as i128);
        let yy = mul_i128(w.y as i128, w.y as i128);
        proof {
            lemma_square_nonneg(w.x as int);
            lemma_square_nonneg(w.y as int);
            lemma_mul_bounds(w.x as int, w.x as int, SPEED_LIMIT as int, SPEED_LIMIT as int);
            lemma_mul_bounds(w.y as int, w.y as int, SPEED_LIMIT as int, SPEED_LIMIT as int);
        }
        let sq: i128 = xx + yy;
        let nnu: u128 = isqrt_u128(sq as u128);
        proof {
            assert(nnu as int <= 67_108_864) by (nonlinear_arith)
                requires
                    (nnu as int) * (nnu as int) <= sq,
                    0 <= sq <= 2 * 33_554_432 * 33_554_432,
            ;
        }
        let nn: i64 = nnu as i64;
        let m: i64 = if nn > SPEED_LIMIT {
            SPEED_LIMIT
        } else {
            nn
        };
        let m2: i64 = if m < cfg.eps_speed {
            0
        } else {
            m
        };
        if m2 == 0 {
            self.v = Vec2::zero();
            self.dir = Vec2::zero();
            self.speed = 0;
            self.bstate = BallState::STATIONARY;
        } else {
            let wx = mul_i128(w.x as i128, DIR_SCALE as i128);
            let wy = mul_i128(w.y as i128, DIR_SCALE as i128);
            proof {
                lemma_mul_bounds(w.x as int, DIR_SCALE as int, SPEED_LIMIT as int, DIR_SCALE as int);
                lemma_mul_bounds(w.y as int, DIR_SCALE as int, SPEED_LIMIT as int, DIR_SCALE as int);
                assert(abs_i(w.x as int) <= nn as int) by (nonlinear_arith)
                    requires
                        (w.x as int) * (w.x as int) <= sq,
                        sq < (nnu as int + 1) * (nnu as int + 1),
                        nnu >= 0,
                        nn == nnu,
                ;
                assert(abs_i(w.y as int) <= nn as int) by (nonlinear_arith)
                    requires
                        (w.y as int) * (w.y as int) <= sq,
                        sq < (nnu as int + 1) * (nnu as int + 1),
                        nnu >= 0,
                        nn == nnu,
                ;
                assert(abs_i((w.x as int) * (DIR_SCALE as int)) <= (DIR_SCALE as int) * (nn as int))
                    by (nonlinear_arith)
                    requires
                        abs_i(w.x as int) <= nn,
                        0 < nn,
                ;
                assert(abs_i((w.y as int) * (DIR_SCALE as int)) <= (DIR_SCALE as int) * (nn as int))
                    by (nonlinear_arith)
                    requires
                        abs_i(w.y as int) <= nn,
                        0 < nn,
                ;
                lemma_tdiv_shrinks((w.x as int) * (DIR_SCALE as int), nn as int, DIR_SCALE as int);
                lemma_tdiv_shrinks((w.y as int) * (DIR_SCALE as int), nn as int, DIR_SCALE as int);
            }
            let dx = tdiv_i128(wx, nn as i128);
            let dy = tdiv_i128(wy, nn as i128);
            let d = Vec2 { x: dx as i64, y: dy as i64 };
            self.dir = d;
            self.speed = m2;
            self.v = vel_exec(d, m2);
            self.bstate = BallState::MOVING;
        }
    }

    /// Bounce this ball off a cushion whose reflection flips the given axis.
    pub fn reflect(&mut self, flip_y: bool, cfg: PhysicsConfig)
        requires
            cfg.wf(),
            old(self).wf(cfg),
        ensures
            *final(self) == spec_reflect(*old(self), flip_y),
            final(self).wf(cfg),
    {
        let d2 = if flip_y {
            Vec2 { x: self.dir.x, y: -self.dir.y }
        } else {
            Vec2 { x: -self.dir.x, y: self.dir.y }
        };
        self.dir = d2;
        self.v = vel_exec(d2, self.speed);
    }
}

/// At speed zero the derived velocity vector is zero, whatever the direction.
pub proof fn lemma_vel_of_zero(dir: Vec2)
    ensures
        vel_of(dir, 0) == Vec2::zero_spec(),
{
    assert(0 * (dir.x as int) == 0) by (nonlinear_arith);
    assert(0 * (dir.y as int) == 0) by (nonlinear_arith);
    assert(vel_comp(0, dir.x as int) == tdiv(0, DIR_SCALE as int));
    assert(vel_comp(0, dir.y as int) == tdiv(0, DIR_SCALE as int));
}

/// One velocity component of a flipped direction is the flipped component.
pub proof fn lemma_vel_comp_neg(m: int, d: int)
    requires
        m >= 0,
    ensures
        vel_comp(m, -d) == -vel_comp(m, d),
{
    assert(m * (-d) == -(m * d)) by (nonlinear_arith);
    lemma_tdiv_neg(m * d, DIR_SCALE as int);
}

/// Law: a cushion reflection negates exactly the velocity component along
/// the cushion's normal axis, keeps the other component, keeps the speed,
/// and so preserves the squared norm of the velocity vector.
pub proof fn lemma_reflect_velocity(b: Ball, cfg: PhysicsConfig, flip_y: bool)
    requires
        cfg.wf(),
        b.wf(cfg),
    ensures
        spec_reflect(b, flip_y).speed == b.speed,
        spec_reflect(b, flip_y).r == b.r,
        flip_y ==> spec_reflect(b, flip_y).v == (Vec2 {
            x: b.v.x,
            y: (-(b.v.y as int)) as i64,
        }),
        !flip_y ==> spec_reflect(b, flip_y).v == (Vec2 {
            x: (-(b.v.x as int)) as i64,
            y: b.v.y,
        }),
        spec_reflect(b, flip_y).v.norm_sq() == b.v.norm_sq(),
{
    let m = b.speed as int;
    lemma_vel_comp_neg(m, b.dir.x as int);
    lemma_vel_comp_neg(m, b.dir.y as int);
    assert(abs_i(m * (b.dir.x as int)) <= m * (DIR_SCALE as int)) by (nonlinear_arith)
        requires
            0 <= m,
            -DIR_SCALE <= b.dir.x <= DIR_SCALE,
    ;
    assert(abs_i(m * (b.dir.y as int)) <= m * (DIR_SCALE as int)) by (nonlinear_arith)
        requires
            0 <= m,
            -DIR_SCALE <= b.dir.y <= DIR_SCALE,
    ;
    lemma_tdiv_shrinks(m * (b.dir.x as int), DIR_SCALE as int, m);
    lemma_tdiv_shrinks(m * (b.dir.y as int), DIR_SCALE as int, m);
    let w = spec_reflect(b, flip_y).v;
    assert((-(b.v.x as int)) * (-(b.v.x as int)) == (b.v.x as int) * (b.v.x as int))
        by (nonlinear_arith);
    assert((-(b.v.y as int)) * (-(b.v.y as int)) == (b.v.y as int) * (b.v.y as int))
        by (nonlinear_arith);
}

} // verus!
