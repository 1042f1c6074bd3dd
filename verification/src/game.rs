//! The simulation step loop: enumerate every candidate event against the
//! current state, pick the one that fires first, advance to it, apply it,
//! and repeat until the table is quiescent.

use vstd::prelude::*;

use crate::ball::{spec_hit, stop_ticks, PhysicsConfig, SPEED_LIMIT};
use crate::events::{entry_outcome, event_computed, event_effect, pair_window, probe_entry, Probe};
use crate::events::{lemma_computed_applicable, EventEnum, HitBall, HitCushion, HitPocket,
    StopRolling, TIME_NEVER};
use crate::vec2::Vec2;
use crate::{advance_all, SimObjects};

verus! {

/// The step loop could not settle within the configured event budget.
#[derive(Debug, PartialEq, Eq)]
pub struct SimulationFault;

/// The game-facing surface: it owns the simulation state, injects strikes,
/// and drives the step loop until the table is quiescent.
pub struct Game {
    pub sim_objects: SimObjects,
}

/// The selected event never fires later than any moving ball's stop time.
pub open spec fn bounds_all_stops(e: EventEnum, s: SimObjects) -> bool {
    forall|j: int|
        0 <= j < s.balls@.len() && (#[trigger] s.balls@[j]).is_moving_spec()
            ==> e.time_spec() <= stop_ticks(s.balls@[j].speed as int, s.cfg.mu_g as int)
}

/// Ball `i` has no admissible pocket-capture instant strictly before `lim`
/// within its rolling window.
pub open spec fn no_pocket_entry_before(s: SimObjects, i: int, lim: int) -> bool {
    forall|j: int, t: int|
        0 <= j < s.pockets@.len() && s.cfg.eps_ticks < t < lim && t <= stop_ticks(
            s.balls@[i].speed as int,
            s.cfg.mu_g as int,
        ) ==> !(#[trigger] probe_entry(s.balls@[i], Probe::AtPocket(s.pockets@[j].r), s.cfg, t))
}

/// Ball `i` has no admissible cushion-contact instant strictly before `lim`
/// within its rolling window.
pub open spec fn no_cushion_entry_before(s: SimObjects, i: int, lim: int) -> bool {
    forall|j: int, t: int|
        0 <= j < s.cushions@.len() && s.cfg.eps_ticks < t < lim && t <= stop_ticks(
            s.balls@[i].speed as int,
            s.cfg.mu_g as int,
        ) ==> !(#[trigger] probe_entry(s.balls@[i], Probe::AtCushion(s.cushions@[j]), s.cfg, t))
}

/// Ball `i` has no admissible collision instant with a lower-numbered,
/// unpocketed ball strictly before `lim` within the pair's rolling window.
pub open spec fn no_pair_entry_before(s: SimObjects, i: int, lim: int) -> bool {
    forall|j: int, t: int|
        0 <= j < i && !s.balls@[j].is_pocketed_spec() && s.cfg.eps_ticks < t < lim && t
            <= pair_window(s.balls@[i], s.balls@[j], s.cfg) ==> !(#[trigger] probe_entry(
            s.balls@[i],
            Probe::WithBall(s.balls@[j]),
            s.cfg,
            t,
        ))
}

/// No candidate of ball `i` — pocket, cushion, or lower-numbered pair —
/// has an admissible first-contact instant strictly before `lim`.
pub open spec fn no_earlier_candidate(s: SimObjects, i: int, lim: int) -> bool {
    &&& no_pocket_entry_before(s, i, lim)
    &&& no_cushion_entry_before(s, i, lim)
    &&& no_pair_entry_before(s, i, lim)
}

/// Everything event selection guarantees of its result: a computed,
/// occurring candidate whose time is the minimum over every candidate — it
/// never exceeds any moving ball's stop time, and no moving ball has a
/// pocket, cushion or pair first-contact instant strictly earlier.
pub open spec fn event_selected(e: EventEnum, s: SimObjects) -> bool {
    &&& event_computed(e, s)
    &&& !(e is NullEvent)
    &&& 0 <= e.time_spec() < TIME_NEVER
    &&& bounds_all_stops(e, s)
    &&& forall|i: int|
        0 <= i < s.balls@.len() && (#[trigger] s.balls@[i]).is_moving_spec()
            ==> no_earlier_candidate(s, i, e.time_spec())
}

/// One tick of the event loop: some selected event fired, every ball was
/// advanced to its instant, and its discrete effect was applied; the
/// geometry and configuration never change.
pub open spec fn step_rel(s: SimObjects, s2: SimObjects) -> bool {
    exists|e: EventEnum|
        #[trigger] event_selected(e, s) && s2.cfg == s.cfg && s2.pockets@ == s.pockets@
            && s2.cushions@ == s.cushions@ && s2.balls@ == event_effect(
            e,
            s.cfg,
            s.cushions@,
            advance_all(s.balls@, s.cfg, e.time_spec()),
        )
}

/// `tr` is a run of the event loop from `s0` to `s2`: a chain of states,
/// each arising from the previous by one selected event.
pub open spec fn is_run(s0: SimObjects, tr: Seq<SimObjects>, s2: SimObjects) -> bool {
    &&& tr.len() >= 1
    &&& tr[0] == s0
    &&& tr[tr.len() - 1] == s2
    &&& forall|k: int| 0 <= k < tr.len() - 1 ==> #[trigger] step_rel(tr[k], tr[k + 1])
}

/// Law: on a table with a single ball and no pockets or cushions, the event
/// loop can only stop the ball. Any completed run (one that ends quiescent)
/// leaves a resting ball untouched, and takes a moving ball in exactly one
/// event to its stop time — its straight-line stopping distance — and halts
/// it there.
pub proof fn lemma_lone_ball_resolves_by_stopping(
    s0: SimObjects,
    tr: Seq<SimObjects>,
    s1: SimObjects,
)
    requires
        s0.wf(),
        s0.balls@.len() == 1,
        s0.pockets@.len() == 0,
        s0.cushions@.len() == 0,
        is_run(s0, tr, s1),
        s1.quiescent(),
    ensures
        !s0.balls@[0].is_moving_spec() ==> s1.balls@ == s0.balls@,
        s0.balls@[0].is_moving_spec() ==> s1.balls@ == advance_all(
            s0.balls@,
            s0.cfg,
            stop_ticks(s0.balls@[0].speed as int, s0.cfg.mu_g as int),
        ).update(
            0,
            crate::events::spec_stop_effect(
                crate::ball::spec_advance(
                    s0.balls@[0],
                    s0.cfg,
                    stop_ticks(s0.balls@[0].speed as int, s0.cfg.mu_g as int),
                ),
            ),
        ),
{
    if tr.len() == 1 {
        assert(s1 == s0);
        if s0.balls@[0].is_moving_spec() {
            assert(!s1.quiescent());
        }
    } else {
        let k0: int = 0;
        assert(step_rel(tr[k0], tr[k0 + 1]));
        assert(step_rel(tr[0], tr[1]));
        let e = choose|e: EventEnum|
            #[trigger] event_selected(e, s0) && tr[1].cfg == s0.cfg && tr[1].pockets@
                == s0.pockets@ && tr[1].cushions@ == s0.cushions@ && tr[1].balls@ == event_effect(
                e,
                s0.cfg,
                s0.cushions@,
                advance_all(s0.balls@, s0.cfg, e.time_spec()),
            );
        match e {
            EventEnum::StopRolling(x) => {
                assert(x.ball_id == 0);
                assert(s0.balls@[0].is_moving_spec());
                assert(x.time_delta as int == stop_ticks(
                    s0.balls@[0].speed as int,
                    s0.cfg.mu_g as int,
                ));
                assert(tr[1].balls@.len() == 1);
                assert(tr[1].balls@[0] == crate::events::spec_stop_effect(
                    crate::ball::spec_advance(s0.balls@[0], s0.cfg, x.time_delta as int),
                ));
                assert(!tr[1].balls@[0].is_moving_spec());
                if tr.len() > 2 {
                    let k1: int = 1;
                    assert(step_rel(tr[k1], tr[k1 + 1]));
                    assert(step_rel(tr[1], tr[2]));
                    let e2 = choose|e2: EventEnum|
                        #[trigger] event_selected(e2, tr[1]) && tr[2].cfg == tr[1].cfg
                            && tr[2].pockets@ == tr[1].pockets@ && tr[2].cushions@
                            == tr[1].cushions@ && tr[2].balls@ == event_effect(
                            e2,
                            tr[1].cfg,
                            tr[1].cushions@,
                            advance_all(tr[1].balls@, tr[1].cfg, e2.time_spec()),
                        );
                    match e2 {
                        EventEnum::StopRolling(y) => {
                            assert(y.ball_id == 0);
                            assert(y.time_delta == TIME_NEVER);
                            assert(false);
                        },
                        EventEnum::HitPocket(y) => {
                            assert(false);
                        },
                        EventEnum::HitCushion(y) => {
                            assert(false);
                        },
                        EventEnum::HitBall(y) => {
                            assert(false);
                        },
                        EventEnum::NullEvent(y) => {
                            assert(false);
                        },
                    }
                }
                assert(tr.len() == 2);
                assert(s1 == tr[1]);
                assert(s1.balls@ =~= advance_all(
                    s0.balls@,
                    s0.cfg,
                    stop_ticks(s0.balls@[0].speed as int, s0.cfg.mu_g as int),
                ).update(
                    0,
                    crate::events::spec_stop_effect(
                        crate::ball::spec_advance(
                            s0.balls@[0],
                            s0.cfg,
                            stop_ticks(s0.balls@[0].speed as int, s0.cfg.mu_g as int),
                        ),
                    ),
                ));
            },
            EventEnum::HitPocket(x) => {
                assert(false);
            },
            EventEnum::HitCushion(x) => {
                assert(false);
            },
            EventEnum::HitBall(x) => {
                assert(false);
            },
            EventEnum::NullEvent(x) => {
                assert(false);
            },
        }
    }
}

/// Law: on a table with a single moving ball and a single pocket and no
/// cushions, if the ball's path enters the pocket's capture radius strictly
/// before its stop time, the event loop can only capture it: any completed
/// run ends with the ball pocketed, wiped to rest at the origin.
pub proof fn lemma_aimed_pocket_captures(
    s0: SimObjects,
    tr: Seq<SimObjects>,
    s1: SimObjects,
    t_entry: int,
)
    requires
        s0.wf(),
        s0.balls@.len() == 1,
        s0.pockets@.len() == 1,
        s0.cushions@.len() == 0,
        s0.balls@[0].is_moving_spec(),
        s0.cfg.eps_ticks < t_entry < stop_ticks(s0.balls@[0].speed as int, s0.cfg.mu_g as int),
        probe_entry(s0.balls@[0], Probe::AtPocket(s0.pockets@[0].r), s0.cfg, t_entry),
        is_run(s0, tr, s1),
        s1.quiescent(),
    ensures
        s1.balls@.len() == 1,
        s1.balls@[0].is_pocketed_spec(),
        s1.balls@[0].r == Vec2::zero_spec(),
        s1.balls@[0].v == Vec2::zero_spec(),
        s1.balls@[0].speed == 0,
{
    assert(tr.len() >= 2) by {
        if tr.len() == 1 {
            assert(s1 == s0);
            assert(!s1.quiescent());
        }
    }
    let k0: int = 0;
    assert(step_rel(tr[k0], tr[k0 + 1]));
    assert(step_rel(tr[0], tr[1]));
    let e = choose|e: EventEnum|
        #[trigger] event_selected(e, s0) && tr[1].cfg == s0.cfg && tr[1].pockets@ == s0.pockets@
            && tr[1].cushions@ == s0.cushions@ && tr[1].balls@ == event_effect(
            e,
            s0.cfg,
            s0.cushions@,
            advance_all(s0.balls@, s0.cfg, e.time_spec()),
        );
    match e {
        EventEnum::StopRolling(x) => {
            assert(x.ball_id == 0);
            assert(x.time_delta as int == stop_ticks(
                s0.balls@[0].speed as int,
                s0.cfg.mu_g as int,
            ));
            assert(no_pocket_entry_before(s0, 0, e.time_spec()));
            assert(!probe_entry(s0.balls@[0], Probe::AtPocket(s0.pockets@[0].r), s0.cfg, t_entry));
            assert(false);
        },
        EventEnum::HitPocket(x) => {
            assert(x.ball_id == 0 && x.pocket_id == 0);
            assert(tr[1].balls@.len() == 1);
            assert(tr[1].balls@[0] == crate::events::spec_pocket_effect(
                crate::ball::spec_advance(s0.balls@[0], s0.cfg, x.time_delta as int),
            ));
            assert(tr[1].balls@[0].is_pocketed_spec());
            if tr.len() > 2 {
                let k1: int = 1;
                assert(step_rel(tr[k1], tr[k1 + 1]));
                assert(step_rel(tr[1], tr[2]));
                let e2 = choose|e2: EventEnum|
                    #[trigger] event_selected(e2, tr[1]) && tr[2].cfg == tr[1].cfg && tr[2].pockets@
                        == tr[1].pockets@ && tr[2].cushions@ == tr[1].cushions@ && tr[2].balls@
                        == event_effect(
                        e2,
                        tr[1].cfg,
                        tr[1].cushions@,
                        advance_all(tr[1].balls@, tr[1].cfg, e2.time_spec()),
                    );
                match e2 {
                    EventEnum::StopRolling(y) => {
                        assert(y.ball_id == 0);
                        assert(y.time_delta == TIME_NEVER);
                        assert(false);
                    },
                    EventEnum::HitPocket(y) => {
                        assert(y.ball_id == 0);
                        assert(y.time_delta == TIME_NEVER);
                        assert(false);
                    },
                    EventEnum::HitCushion(y) => {
                        assert(false);
                    },
                    EventEnum::HitBall(y) => {
                        assert(false);
                    },
                    EventEnum::NullEvent(y) => {
                        assert(false);
                    },
                }
            }
            assert(tr.len() == 2);
            assert(s1 == tr[1]);
        },
        EventEnum::HitCushion(x) => {
            assert(false);
        },
        EventEnum::HitBall(x) => {
            assert(false);
        },
        EventEnum::NullEvent(x) => {
            assert(false);
        },
    }
}

/// Law: on a table of two balls and no pockets or cushions — one moving,
/// the other at rest in its path — if their surfaces meet strictly before
/// the moving ball's stop time, the first event of any run is their
/// collision, fired at the pair's exact first-contact instant (no later
/// than the given one), with the elastic exchange applied to both.
pub proof fn lemma_collision_preempts_stopping(
    s0: SimObjects,
    tr: Seq<SimObjects>,
    s1: SimObjects,
    t_entry: int,
)
    requires
        s0.wf(),
        s0.balls@.len() == 2,
        s0.pockets@.len() == 0,
        s0.cushions@.len() == 0,
        s0.balls@[1].is_moving_spec(),
        !s0.balls@[0].is_moving_spec(),
        !s0.balls@[0].is_pocketed_spec(),
        s0.cfg.eps_ticks < t_entry < stop_ticks(s0.balls@[1].speed as int, s0.cfg.mu_g as int),
        probe_entry(s0.balls@[1], Probe::WithBall(s0.balls@[0]), s0.cfg, t_entry),
        is_run(s0, tr, s1),
        tr.len() >= 2,
    ensures
        exists|tc: int|
            {
                &&& s0.cfg.eps_ticks < tc <= t_entry
                &&& #[trigger] probe_entry(s0.balls@[1], Probe::WithBall(s0.balls@[0]), s0.cfg, tc)
                &&& tr[1].balls@ == event_effect(
                    EventEnum::HitBall(
                        crate::events::HitBall {
                            ball_id: 1,
                            other_ball_id: 0,
                            time_delta: tc as i64,
                        },
                    ),
                    s0.cfg,
                    s0.cushions@,
                    advance_all(s0.balls@, s0.cfg, tc),
                )
            },
{
    let k0: int = 0;
    assert(step_rel(tr[k0], tr[k0 + 1]));
    assert(step_rel(tr[0], tr[1]));
    let e = choose|e: EventEnum|
        #[trigger] event_selected(e, s0) && tr[1].cfg == s0.cfg && tr[1].pockets@ == s0.pockets@
            && tr[1].cushions@ == s0.cushions@ && tr[1].balls@ == event_effect(
            e,
            s0.cfg,
            s0.cushions@,
            advance_all(s0.balls@, s0.cfg, e.time_spec()),
        );
    assert(pair_window(s0.balls@[1], s0.balls@[0], s0.cfg) >= stop_ticks(
        s0.balls@[1].speed as int,
        s0.cfg.mu_g as int,
    ));
    match e {
        EventEnum::StopRolling(x) => {
            assert(x.ball_id == 1);
            assert(x.time_delta as int == stop_ticks(
                s0.balls@[1].speed as int,
                s0.cfg.mu_g as int,
            ));
            assert(no_pair_entry_before(s0, 1, e.time_spec()));
            assert(!probe_entry(
                s0.balls@[1],
                Probe::WithBall(s0.balls@[0]),
                s0.cfg,
                t_entry,
            ));
            assert(false);
        },
        EventEnum::HitBall(x) => {
            assert(x.ball_id == 1 && x.other_ball_id == 0);
            let td = x.time_delta as int;
            assert(entry_outcome(
                s0.balls@[1],
                Probe::WithBall(s0.balls@[0]),
                s0.cfg,
                pair_window(s0.balls@[1], s0.balls@[0], s0.cfg),
                td,
            ));
            assert(td != TIME_NEVER);
            assert(td <= t_entry) by {
                if td > t_entry {
                    assert(!probe_entry(
                        s0.balls@[1],
                        Probe::WithBall(s0.balls@[0]),
                        s0.cfg,
                        t_entry,
                    ));
                }
            }
            assert(probe_entry(s0.balls@[1], Probe::WithBall(s0.balls@[0]), s0.cfg, td));
            assert(x == (crate::events::HitBall {
                ball_id: 1,
                other_ball_id: 0,
                time_delta: td as i64,
            }));
        },
        EventEnum::HitPocket(x) => {
            assert(false);
        },
        EventEnum::HitCushion(x) => {
            assert(false);
        },
        EventEnum::NullEvent(x) => {
            assert(false);
        },
    }
}

impl Game {
    pub fn new(cfg: PhysicsConfig) -> (g: Game)
        requires
            cfg.wf(),
        ensures
            g.sim_objects.wf(),
            g.sim_objects.cfg == cfg,
            g.sim_objects.balls@.len() == 16,
            g.sim_objects.quiescent(),
            crate::pool_table::standard_pockets(g.sim_objects.pockets@),
            crate::pool_table::standard_cushions(g.sim_objects.cushions@),
    {
        Game { sim_objects: SimObjects::new(cfg) }
    }

    /// Evaluate every candidate event — for each moving ball: its stop, each
    /// pocket, each cushion, and each lower-numbered other ball — and keep
    /// the running minimum by time, first seen winning ties. `None` means no
    /// ball is moving; `Some` is a minimum-time candidate (`event_selected`).
    pub fn get_next_event(&self) -> (r: Option<EventEnum>)
        requires
            self.sim_objects.wf(),
        ensures
            (r is None) <==> self.sim_objects.quiescent(),
            match r {
                Some(e) => event_selected(e, self.sim_objects),
                None => true,
            },
    {
        let n = self.sim_objects.num_balls();
        let mut next_event = EventEnum::default();
        let mut ball_id: usize = 0;
        while ball_id < n
            invariant
                self.sim_objects.wf(),
                n == self.sim_objects.balls@.len(),
                ball_id <= n,
                next_event is NullEvent ==> next_event.time_spec() == TIME_NEVER,
                next_event is NullEvent <==> (forall|j: int|
                    0 <= j < ball_id ==> !(#[trigger] self.sim_objects.balls@[j]).is_moving_spec()),
                !(next_event is NullEvent) ==> event_computed(next_event, self.sim_objects) && 0
                    <= next_event.time_spec() < TIME_NEVER,
                forall|j: int|
                    0 <= j < ball_id && (#[trigger] self.sim_objects.balls@[j]).is_moving_spec()
                        ==> next_event.time_spec() <= stop_ticks(
                        self.sim_objects.balls@[j].speed as int,
                        self.sim_objects.cfg.mu_g as int,
                    ),
                forall|j: int|
                    0 <= j < ball_id && (#[trigger] self.sim_objects.balls@[j]).is_moving_spec()
                        ==> no_earlier_candidate(
                        self.sim_objects,
                        j,
                        next_event.time_spec(),
                    ),
            decreases n - ball_id,
        {
            if self.sim_objects.get_ball(ball_id).is_moving() {
                let mut stop = StopRolling::new(ball_id);
                stop.calculate_time_until(&self.sim_objects);
                let event = EventEnum::StopRolling(stop);
                next_event.mut_compare(event);

                let num_pockets = self.sim_objects.num_pockets();
                let mut pocket_id: usize = 0;
                while pocket_id < num_pockets
                    invariant
                        self.sim_objects.wf(),
                        n == self.sim_objects.balls@.len(),
                        num_pockets == self.sim_objects.pockets@.len(),
                        ball_id < n,
                        self.sim_objects.balls@[ball_id as int].is_moving_spec(),
                        pocket_id <= num_pockets,
                        !(next_event is NullEvent),
                        event_computed(next_event, self.sim_objects),
                        0 <= next_event.time_spec() < TIME_NEVER,
                        forall|j: int|
                            0 <= j <= ball_id && (
                            #[trigger] self.sim_objects.balls@[j]).is_moving_spec()
                                ==> next_event.time_spec() <= stop_ticks(
                                self.sim_objects.balls@[j].speed as int,
                                self.sim_objects.cfg.mu_g as int,
                            ),
                        forall|j: int|
                            0 <= j < ball_id && (
                            #[trigger] self.sim_objects.balls@[j]).is_moving_spec()
                                ==> no_earlier_candidate(
                                self.sim_objects,
                                j,
                                next_event.time_spec(),
                            ),
                        forall|j: int, t: int|
                            0 <= j < pocket_id && self.sim_objects.cfg.eps_ticks < t
                                < next_event.time_spec() && t <= stop_ticks(
                                self.sim_objects.balls@[ball_id as int].speed as int,
                                self.sim_objects.cfg.mu_g as int,
                            ) ==> !(#[trigger] probe_entry(
                                self.sim_objects.balls@[ball_id as int],
                                Probe::AtPocket(self.sim_objects.pockets@[j].r),
                                self.sim_objects.cfg,
                                t,
                            )),
                    decreases num_pockets - pocket_id,
                {
                    let mut ev = HitPocket::new(ball_id, pocket_id);
                    ev.calculate_time_until(&self.sim_objects);
                    next_event.mut_compare(EventEnum::HitPocket(ev));
                    pocket_id += 1;
                }

                let num_cushions = self.sim_objects.num_cushions();
                let mut cushion_id: usize = 0;
                while cushion_id < num_cushions
                    invariant
                        self.sim_objects.wf(),
                        n == self.sim_objects.balls@.len(),
                        num_cushions == self.sim_objects.cushions@.len(),
                        ball_id < n,
                        self.sim_objects.balls@[ball_id as int].is_moving_spec(),
                        cushion_id <= num_cushions,
                        !(next_event is NullEvent),
                        event_computed(next_event, self.sim_objects),
                        0 <= next_event.time_spec() < TIME_NEVER,
                        forall|j: int|
                            0 <= j <= ball_id && (
                            #[trigger] self.sim_objects.balls@[j]).is_moving_spec()
                                ==> next_event.time_spec() <= stop_ticks(
                                self.sim_objects.balls@[j].speed as int,
                                self.sim_objects.cfg.mu_g as int,
                            ),
                        forall|j: int|
                            0 <= j < ball_id && (
                            #[trigger] self.sim_objects.balls@[j]).is_moving_spec()
                                ==> no_earlier_candidate(
                                self.sim_objects,
                                j,
                                next_event.time_spec(),
                            ),
                        no_pocket_entry_before(
                            self.sim_objects,
                            ball_id as int,
                            next_event.time_spec(),
                        ),
                        forall|j: int, t: int|
                            0 <= j < cushion_id && self.sim_objects.cfg.eps_ticks < t
                                < next_event.time_spec() && t <= stop_ticks(
                                self.sim_objects.balls@[ball_id as int].speed as int,
                                self.sim_objects.cfg.mu_g as int,
                            ) ==> !(#[trigger] probe_entry(
                                self.sim_objects.balls@[ball_id as int],
                                Probe::AtCushion(self.sim_objects.cushions@[j]),
                                self.sim_objects.cfg,
                                t,
                            )),
                    decreases num_cushions - cushion_id,
                {
                    let mut ev = HitCushion::new(ball_id, cushion_id);
                    ev.calculate_time_until(&self.sim_objects);
                    next_event.mut_compare(EventEnum::HitCushion(ev));
                    cushion_id += 1;
                }

                let mut other_ball_id: usize = 0;
                while other_ball_id < ball_id
                    invariant
                        self.sim_objects.wf(),
                        n == self.sim_objects.balls@.len(),
                        ball_id < n,
                        self.sim_objects.balls@[ball_id as int].is_moving_spec(),
                        other_ball_id <= ball_id,
                        !(next_event is NullEvent),
                        event_computed(next_event, self.sim_objects),
                        0 <= next_event.time_spec() < TIME_NEVER,
                        forall|j: int|
                            0 <= j <= ball_id && (
                            #[trigger] self.sim_objects.balls@[j]).is_moving_spec()
                                ==> next_event.time_spec() <= stop_ticks(
                                self.sim_objects.balls@[j].speed as int,
                                self.sim_objects.cfg.mu_g as int,
                            ),
                        forall|j: int|
                            0 <= j < ball_id && (
                            #[trigger] self.sim_objects.balls@[j]).is_moving_spec()
                                ==> no_earlier_candidate(
                                self.sim_objects,
                                j,
                                next_event.time_spec(),
                            ),
                        no_pocket_entry_before(
                            self.sim_objects,
                            ball_id as int,
                            next_event.time_spec(),
                        ),
                        no_cushion_entry_before(
                            self.sim_objects,
                            ball_id as int,
                            next_event.time_spec(),
                        ),
                        forall|j: int, t: int|
                            0 <= j < other_ball_id && !self.sim_objects.balls@[
                                j
                            ].is_pocketed_spec() && self.sim_objects.cfg.eps_ticks < t
                                < next_event.time_spec() && t <= pair_window(
                                self.sim_objects.balls@[ball_id as int],
                                self.sim_objects.balls@[j],
                                self.sim_objects.cfg,
                            ) ==> !(#[trigger] probe_entry(
                                self.sim_objects.balls@[ball_id as int],
                                Probe::WithBall(self.sim_objects.balls@[j]),
                                self.sim_objects.cfg,
                                t,
                            )),
                    decreases ball_id - other_ball_id,
                {
                    let mut ev = HitBall::new(ball_id, other_ball_id);
                    ev.calculate_time_until(&self.sim_objects);
                    next_event.mut_compare(EventEnum::HitBall(ev));
                    other_ball_id += 1;
                }
            }
            ball_id += 1;
        }
        match next_event {
            EventEnum::NullEvent(_) => Option::None,
            _ => Option::Some(next_event),
        }
    }

    /// Run the event loop until no ball moves, or fail with a simulation
    /// fault after exactly the configured number of events if the table has
    /// still not settled. The final state is the end of a run of selected
    /// events from the initial one, the geometry and
    /// configuration never change, and a table that is already quiescent is
    /// returned untouched.
    pub fn step_until_quiescent(&mut self) -> (r: Result<(), SimulationFault>)
        requires
            old(self).sim_objects.wf(),
        ensures
            final(self).sim_objects.wf(),
            final(self).sim_objects.cfg == old(self).sim_objects.cfg,
            final(self).sim_objects.pockets@ == old(self).sim_objects.pockets@,
            final(self).sim_objects.cushions@ == old(self).sim_objects.cushions@,
            r is Ok ==> final(self).sim_objects.quiescent(),
            r is Err ==> !final(self).sim_objects.quiescent(),
            old(self).sim_objects.quiescent() ==> r is Ok && *final(self) == *old(self),
            exists|tr: Seq<SimObjects>|
                #[trigger] is_run(old(self).sim_objects, tr, final(self).sim_objects) && tr.len()
                    - 1 <= old(self).sim_objects.cfg.max_steps && (r is Err ==> tr.len() - 1
                    == old(self).sim_objects.cfg.max_steps),
    {
        let max_steps: u64 = self.sim_objects.cfg.max_steps;
        let mut steps: u64 = max_steps;
        let ghost mut tr: Seq<SimObjects> = seq![old(self).sim_objects];
        loop
            invariant
                self.sim_objects.wf(),
                steps <= max_steps,
                max_steps == old(self).sim_objects.cfg.max_steps,
                self.sim_objects.cfg == old(self).sim_objects.cfg,
                self.sim_objects.pockets@ == old(self).sim_objects.pockets@,
                self.sim_objects.cushions@ == old(self).sim_objects.cushions@,
                is_run(old(self).sim_objects, tr, self.sim_objects),
                tr.len() - 1 == max_steps - steps,
                old(self).sim_objects.quiescent() ==> *self == *old(self) && steps == max_steps,
            decreases steps,
        {
            let next = self.get_next_event();
            match next {
                Option::None => {
                    return Result::Ok(());
                },
                Option::Some(event) => {
                    if steps == 0 {
                        return Result::Err(SimulationFault);
                    }
                    steps = steps - 1;
                    proof {
                        lemma_computed_applicable(event, self.sim_objects);
                    }
                    let ghost pre = self.sim_objects;
                    self.sim_objects.apply_event(event);
                    proof {
                        assert(event_selected(event, pre));
                        assert(step_rel(pre, self.sim_objects));
                        tr = tr.push(self.sim_objects);
                        assert(tr[tr.len() - 2] == pre);
                        assert forall|k: int| 0 <= k < tr.len() - 1 implies #[trigger] step_rel(
                            tr[k],
                            tr[k + 1],
                        ) by {
                            if k < tr.len() - 2 {
                                assert(step_rel(tr[k], tr[k + 1]));
                            }
                        }
                    }
                },
            }
        }
    }

    /// One full turn: strike the cue ball along `aim` with speed `force`,
    /// then resolve events until the table is quiescent or the event budget
    /// runs out. The final state is the end of a run of selected events from
    /// the struck state.
    pub fn play_turn(&mut self, aim: Vec2, force: i64) -> (r: Result<(), SimulationFault>)
        requires
            old(self).sim_objects.wf(),
            old(self).sim_objects.balls@.len() >= 16,
            !old(self).sim_objects.balls@[15].is_pocketed_spec(),
            0 <= force <= SPEED_LIMIT,
            (aim.x as int) * (aim.x as int) + (aim.y as int) * (aim.y as int) > 0,
            -crate::ball::AIM_LIMIT <= aim.x <= crate::ball::AIM_LIMIT,
            -crate::ball::AIM_LIMIT <= aim.y <= crate::ball::AIM_LIMIT,
        ensures
            final(self).sim_objects.wf(),
            final(self).sim_objects.cfg == old(self).sim_objects.cfg,
            final(self).sim_objects.pockets@ == old(self).sim_objects.pockets@,
            final(self).sim_objects.cushions@ == old(self).sim_objects.cushions@,
            r is Ok ==> final(self).sim_objects.quiescent(),
            r is Err ==> !final(self).sim_objects.quiescent(),
            exists|tr: Seq<SimObjects>|
                {
                    &&& #[trigger] is_run(tr[0], tr, final(self).sim_objects)
                    &&& tr[0].cfg == old(self).sim_objects.cfg
                    &&& tr[0].pockets@ == old(self).sim_objects.pockets@
                    &&& tr[0].cushions@ == old(self).sim_objects.cushions@
                    &&& tr[0].balls@ == old(self).sim_objects.balls@.update(
                        15,
                        spec_hit(
                            old(self).sim_objects.balls@[15],
                            aim,
                            force as int,
                            old(self).sim_objects.cfg.eps_speed as int,
                        ),
                    )
                    &&& tr.len() - 1 <= old(self).sim_objects.cfg.max_steps
                    &&& (r is Err ==> tr.len() - 1 == old(self).sim_objects.cfg.max_steps)
                },
    {
        self.sim_objects.strike(15, aim, force);
        let ghost mid = self.sim_objects;
        let r = self.step_until_quiescent();
        proof {
            let tr = choose|tr: Seq<SimObjects>|
                #[trigger] is_run(mid, tr, self.sim_objects) && tr.len() - 1 <= mid.cfg.max_steps
                    && (r is Err ==> tr.len() - 1 == mid.cfg.max_steps);
            assert(tr[0] == mid);
            assert(is_run(tr[0], tr, self.sim_objects));
        }
        r
    }
}

} // verus!
