//! An event-driven simulation of billiard balls on a bounded table with
//! pockets and reflective cushions, under rolling friction.
//!
//! From any instant, the simulation determines the exact time and nature of
//! the next physical event — a ball stopping, two balls colliding, a ball
//! striking a cushion, a ball falling into a pocket — advances every ball's
//! state to that instant, applies the event's consequence, and repeats until
//! no ball moves.
//!
//! All physics runs on a fixed-point integer model (see `ball`): positions
//! in ten-thousandths of a centimeter, time in ten-thousandths of a second,
//! so that every trajectory, contact condition and state transition is an
//! exact integer computation with a proved contract.

use vstd::prelude::*;

pub mod ball;
pub mod events;
pub mod game;
pub mod num;
pub mod pool_balls;
pub mod pool_table;
pub mod vec2;

verus! {

use crate::ball::{spec_advance, spec_hit, Ball, PhysicsConfig, SPEED_LIMIT};
use crate::events::{event_applicable, event_effect, EventEnum, TIME_NEVER};
use crate::pool_table::{Cushion, Pocket};
use crate::vec2::Vec2;

/// The parameters of a standard table: friction deceleration 980.665
/// cm/s^2, ball radius 2.8575 cm, numerical-zero speed 0.001 cm/s, a
/// one-tick event epsilon, and a generous event budget per turn.
pub fn standard_config() -> (cfg: PhysicsConfig)
    ensures
        cfg == (PhysicsConfig {
            mu_g: 9_806_650,
            radius: 28_575,
            eps_speed: 10,
            eps_ticks: 1,
            max_steps: 10_000,
        }),
        cfg.wf(),
{
    PhysicsConfig { mu_g: 9_806_650, radius: 28_575, eps_speed: 10, eps_ticks: 1, max_steps: 10_000 }
}

/// Every ball advanced along its trajectory by `t` ticks.
pub open spec fn advance_all(balls: Seq<Ball>, cfg: PhysicsConfig, t: int) -> Seq<Ball> {
    Seq::new(balls.len(), |i: int| spec_advance(balls[i], cfg, t))
}

/// Everything the simulation owns: the configuration, the balls, and the
/// immutable table geometry.
pub struct SimObjects {
    pub cfg: PhysicsConfig,
    pub balls: Vec<Ball>,
    pub pockets: Vec<Pocket>,
    pub cushions: Vec<Cushion>,
}

impl SimObjects {
    pub open spec fn wf(self) -> bool {
        &&& self.cfg.wf()
        &&& forall|i: int|
            0 <= i < self.balls@.len() ==> (#[trigger] self.balls@[i]).wf(self.cfg)
        &&& forall|i: int| 0 <= i < self.pockets@.len() ==> (#[trigger] self.pockets@[i]).wf()
        &&& forall|i: int| 0 <= i < self.cushions@.len() ==> (#[trigger] self.cushions@[i]).wf()
    }

    /// No ball is moving; the turn is over.
    pub open spec fn quiescent(self) -> bool {
        forall|i: int|
            0 <= i < self.balls@.len() ==> !(#[trigger] self.balls@[i]).is_moving_spec()
    }

    /// A fresh table: a racked set of sixteen balls, six pockets, four
    /// cushions, under the given physical parameters.
    pub fn new(cfg: PhysicsConfig) -> (s: SimObjects)
        requires
            cfg.wf(),
        ensures
            s.wf(),
            s.cfg == cfg,
            s.balls@.len() == 16,
            s.pockets@.len() == 6,
            s.cushions@.len() == 4,
            s.quiescent(),
            s.balls@[15].btype == crate::ball::BallType::CUE,
            crate::pool_table::standard_pockets(s.pockets@),
            crate::pool_table::standard_cushions(s.cushions@),
    {
        let balls = crate::pool_balls::rack(cfg.radius);
        let pockets = crate::pool_table::init_pockets();
        let cushions = crate::pool_table::init_cushions();
        SimObjects { cfg, balls, pockets, cushions }
    }

    pub fn num_balls(&self) -> (n: usize)
        ensures
            n == self.balls@.len(),
    {
        self.balls.len()
    }

    pub fn get_ball(&self, ball_id: usize) -> (b: &Ball)
        requires
            ball_id < self.balls@.len(),
        ensures
            *b == self.balls@[ball_id as int],
    {
        &self.balls[ball_id]
    }

    pub fn get_mut_ball(&mut self, ball_id: usize) -> (b: &mut Ball)
        requires
            ball_id < old(self).balls@.len(),
        ensures
            *b == old(self).balls@[ball_id as int],
            final(self).balls@ == old(self).balls@.update(ball_id as int, *final(b)),
            final(self).cfg == old(self).cfg,
            final(self).pockets == old(self).pockets,
            final(self).cushions == old(self).cushions,
    {
        &mut self.balls[ball_id]
    }

    pub fn get_mut_cue(&mut self) -> (b: &mut Ball)
        requires
            old(self).balls@.len() >= 16,
        ensures
            *b == old(self).balls@[15],
            final(self).balls@ == old(self).balls@.update(15, *final(b)),
            final(self).cfg == old(self).cfg,
            final(self).pockets == old(self).pockets,
            final(self).cushions == old(self).cushions,
    {
        &mut self.balls[15]
    }

    pub fn get_pocket(&self, pocket_id: usize) -> (p: &Pocket)
        requires
            pocket_id < self.pockets@.len(),
        ensures
            *p == self.pockets@[pocket_id as int],
    {
        &self.pockets[pocket_id]
    }

    pub fn get_cushion(&self, cushion_id: usize) -> (c: &Cushion)
        requires
            cushion_id < self.cushions@.len(),
        ensures
            *c == self.cushions@[cushion_id as int],
    {
        &self.cushions[cushion_id]
    }

    pub fn num_pockets(&self) -> (n: usize)
        ensures
            n == self.pockets@.len(),
    {
        self.pockets.len()
    }

    pub fn num_cushions(&self) -> (n: usize)
        ensures
            n == self.cushions@.len(),
    {
        self.cushions.len()
    }

    /// Apply an impulse to one ball: it starts moving along `aim` with speed
    /// `force`.
    pub fn strike(&mut self, ball_id: usize, aim: Vec2, force: i64)
        requires
            old(self).wf(),
            ball_id < old(self).balls@.len(),
            !old(self).balls@[ball_id as int].is_pocketed_spec(),
            0 <= force <= SPEED_LIMIT,
            (aim.x as int) * (aim.x as int) + (aim.y as int) * (aim.y as int) > 0,
            -crate::ball::AIM_LIMIT <= aim.x <= crate::ball::AIM_LIMIT,
            -crate::ball::AIM_LIMIT <= aim.y <= crate::ball::AIM_LIMIT,
        ensures
            final(self).wf(),
            final(self).cfg == old(self).cfg,
            final(self).pockets == old(self).pockets,
            final(self).cushions == old(self).cushions,
            final(self).balls@ == old(self).balls@.update(
                ball_id as int,
                spec_hit(
                    old(self).balls@[ball_id as int],
                    aim,
                    force as int,
                    old(self).cfg.eps_speed as int,
                ),
            ),
    {
        let cfg = self.cfg;
        let mut b = self.balls[ball_id];
        b.hit(aim, force, cfg);
        self.balls.set(ball_id, b);
    }

    /// Fire an event: every ball — moving or not — is first advanced to the
    /// event's instant (stationary balls are no-ops under the kinematic
    /// formulas), then the event's discrete consequence is applied to the
    /// ball(s) it concerns.
    pub fn apply_event(&mut self, event: EventEnum)
        requires
            old(self).wf(),
            event_applicable(event, *old(self)),
            0 <= event.time_spec() < TIME_NEVER,
        ensures
            final(self).wf(),
            final(self).cfg == old(self).cfg,
            final(self).pockets == old(self).pockets,
            final(self).cushions == old(self).cushions,
            final(self).balls@.len() == old(self).balls@.len(),
            final(self).balls@ == event_effect(
                event,
                old(self).cfg,
                old(self).cushions@,
                advance_all(old(self).balls@, old(self).cfg, event.time_spec()),
            ),
    {
        let dt = event.get_time_until();
        let n = self.balls.len();
        let mut i: usize = 0;
        while i < n
            invariant
                self.cfg == old(self).cfg,
                self.pockets == old(self).pockets,
                self.cushions == old(self).cushions,
                self.balls@.len() == n,
                old(self).balls@.len() == n,
                old(self).wf(),
                i <= n,
                0 <= dt,
                dt as int == event.time_spec(),
                forall|j: int|
                    0 <= j < i ==> #[trigger] self.balls@[j] == spec_advance(
                        old(self).balls@[j],
                        old(self).cfg,
                        dt as int,
                    ),
                forall|j: int| i <= j < n ==> #[trigger] self.balls@[j] == old(self).balls@[j],
                forall|j: int| 0 <= j < n ==> (#[trigger] self.balls@[j]).wf(self.cfg),
            decreases n - i,
        {
            let cfg = self.cfg;
            let mut b = self.balls[i];
            b.update_state(cfg, dt);
            self.balls.set(i, b);
            i += 1;
        }
        proof {
            assert(self.balls@ =~= advance_all(old(self).balls@, old(self).cfg, dt as int));
            assert forall|j: int| 0 <= j < n implies (#[trigger] self.balls@[j]).is_pocketed_spec()
                == old(self).balls@[j].is_pocketed_spec() by {
                assert(self.balls@[j] == spec_advance(old(self).balls@[j], old(self).cfg, dt as int));
            }
            crate::events::lemma_applicable_after_advance(event, *old(self), *self);
        }
        event.apply(self);
    }
}

} // verus!
