//! Rotate scene with lag: one relay chases around the set; the relay it
//! leaves stays on for `lag` ticks before it is turned off.
use vstd::prelude::*;

use crate::config::RELAY_COUNT;
use crate::engine::{low_decimal_digits, Display, TickCommand};
use crate::scene::{
    adjusted_speed, first_on, first_on_index, rotated_index, Scene, SceneContext, SceneId,
};

verus! {

/// Rotating relay scene with a configurable speed and lag.
pub struct RotateScene {
    speed: u32,
    lag: u32,
    active_idx: usize,
    pending_off: [Option<u32>; RELAY_COUNT],
}

/// The state of the rotate scene as plain values.
pub struct RotateModel {
    pub speed: u32,
    pub lag: u32,
    pub active_idx: int,
    pub pending_off: Seq<Option<u32>>,
}

/// The model of a fresh rotate scene: stepping every `speed` ticks (a speed
/// of zero counts as one), turn-off lag `lag`, at relay 0, nothing
/// scheduled.
pub open spec fn fresh_model(speed: u32, lag: u32) -> RotateModel {
    RotateModel {
        speed: if speed >= 1 {
            speed
        } else {
            1
        },
        lag,
        active_idx: 0,
        pending_off: Seq::new(RELAY_COUNT as nat, |i: int| None::<u32>),
    }
}

/// A rotate scene made with speed zero is the one made with speed one.
pub proof fn lemma_zero_speed_is_speed_one(lag: u32)
    ensures
        fresh_model(0, lag) == fresh_model(1, lag),
{
}

/// Whether the scheduled turn-off time `p` has come at tick `tick`.
pub open spec fn expired(p: Option<u32>, tick: u32) -> bool {
    match p {
        Some(off_at) => tick >= off_at,
        None => false,
    }
}

/// Whether this tick is a rotation step for the adjusted speed.
pub open spec fn is_step(m: RotateModel, ctx: SceneContext) -> bool {
    ctx.current.tick % adjusted_speed(m.speed, ctx.current) == 0
}

/// The relay the rotation moves to on a step.
pub open spec fn step_target(m: RotateModel, ctx: SceneContext) -> int {
    rotated_index(m.active_idx, ctx.current.input_state@[0])
}

/// The turn-off schedule after the rotation step of this tick (before expired
/// entries are cleared): the new relay has none; the relay left behind turns
/// off at once when there is no lag, otherwise `lag` ticks from now.
pub open spec fn scheduled(m: RotateModel, ctx: SceneContext) -> Seq<Option<u32>> {
    if is_step(m, ctx) {
        let next = step_target(m, ctx);
        let idx = m.active_idx;
        let p = m.pending_off.update(next, None);
        if next != idx {
            if m.lag == 0 {
                p.update(idx, None)
            } else {
                p.update(idx, Some(((ctx.current.tick as int + m.lag as int) % 0x1_0000_0000) as u32))
            }
        } else {
            p
        }
    } else {
        m.pending_off
    }
}

/// The relay targets after the rotation step of this tick (before expired
/// entries turn their relays off).
pub open spec fn stepped_relays(m: RotateModel, ctx: SceneContext) -> Seq<bool> {
    let cur = ctx.current.relay_state@;
    if is_step(m, ctx) {
        let next = step_target(m, ctx);
        let idx = m.active_idx;
        let r = cur.update(next, true);
        if next != idx && m.lag == 0 {
            r.update(idx, false)
        } else {
            r
        }
    } else {
        cur
    }
}

/// One update of the rotate scene from state `m` to state `n` with command
/// `c`: the speed follows the speed buttons, a due step moves the rotation,
/// every relay whose scheduled time has come is turned off and unscheduled,
/// the other relays keep their stepped targets, and the display shows the
/// speed.
pub open spec fn rotate_update(m: RotateModel, ctx: SceneContext, n: RotateModel, c: TickCommand) -> bool {
    let sched = scheduled(m, ctx);
    let stepped = stepped_relays(m, ctx);
    &&& n.speed == adjusted_speed(m.speed, ctx.current)
    &&& n.lag == m.lag
    &&& n.active_idx == (if is_step(m, ctx) {
        step_target(m, ctx)
    } else {
        m.active_idx
    })
    &&& forall|i: int|
        0 <= i < RELAY_COUNT ==> #[trigger] c.relay_state@[i] == (stepped[i] && !expired(
            sched[i],
            ctx.current.tick,
        ))
    &&& forall|i: int|
        0 <= i < RELAY_COUNT ==> #[trigger] n.pending_off[i] == (if expired(
            sched[i],
            ctx.current.tick,
        ) {
            None
        } else {
            sched[i]
        })
    &&& n.pending_off.len() == RELAY_COUNT
    &&& c.display.0 == low_decimal_digits((n.speed % 10000) as u16)
}

/// The state after the scene is entered: the rotation starts from the first
/// relay that is on (or relay 0) and nothing is scheduled.
pub open spec fn entered_model(m: RotateModel, ctx: SceneContext) -> RotateModel {
    RotateModel {
        active_idx: first_on(ctx.current.relay_state@),
        pending_off: Seq::new(RELAY_COUNT as nat, |i: int| None),
        ..m
    }
}

impl RotateScene {
    #[verifier::type_invariant]
    spec fn inv(self) -> bool {
        &&& self.speed >= 1
        &&& self.active_idx < RELAY_COUNT
    }

    /// The scene's state.
    pub closed spec fn model(&self) -> RotateModel {
        RotateModel {
            speed: self.speed,
            lag: self.lag,
            active_idx: self.active_idx as int,
            pending_off: self.pending_off@,
        }
    }

    /// A rotate scene stepping every `speed` ticks (at least one), turning
    /// left relays off `lag` ticks late, starting at relay 0 with nothing
    /// scheduled.
    pub fn new(speed: u32, lag: u32) -> (s: Self)
        ensures
            s.model().speed == (if speed >= 1 {
                speed
            } else {
                1
            }),
            s.model().lag == lag,
            s.model().active_idx == 0,
            s.model().pending_off.len() == RELAY_COUNT,
            forall|i: int| 0 <= i < RELAY_COUNT ==> #[trigger] s.model().pending_off[i] == None::<u32>,
            s.model() == fresh_model(speed, lag),
    {
        let s = Self {
            speed: if speed >= 1 {
                speed
            } else {
                1
            },
            lag,
            active_idx: 0,
            pending_off: [None;RELAY_COUNT],
        };
        assert(s.model().pending_off =~= fresh_model(speed, lag).pending_off);
        s
    }
}

impl Scene for RotateScene {
    fn id(&self) -> (id: SceneId)
        ensures
            id == SceneId::Rotate,
    {
        SceneId::Rotate
    }

    /// Start from the first relay that is on (or relay 0) with nothing
    /// scheduled.
    fn on_enter(&mut self, ctx: &SceneContext)
        ensures
            final(self).model() == entered_model(old(self).model(), *ctx),
    {
        proof {
            use_type_invariant(&*self);
        }
        self.active_idx = first_on_index(&ctx.current.relay_state);
        self.pending_off = [None;RELAY_COUNT];
        assert(self.model().pending_off =~= entered_model(old(self).model(), *ctx).pending_off);
    }

    fn on_exit(&mut self, _ctx: &SceneContext)
        ensures
            *final(self) == *old(self),
    {
    }

    /// Adjust the speed, take the rotation step when one is due, turn off
    /// every relay whose scheduled time has come, and show the speed.
    fn update(&mut self, ctx: &SceneContext) -> (c: TickCommand)
        ensures
            rotate_update(old(self).model(), *ctx, final(self).model(), c),
    {
        proof {
            use_type_invariant(&*self);
        }
        let ghost m = self.model();
        let mut command = ctx.current.identity_command();
        if ctx.current.input_state[1] {
            let faster = self.speed.saturating_add(1);
            self.speed = if faster < 5000 {
                faster
            } else {
                5000
            };
        } else if ctx.current.input_state[2] {
            let slower = self.speed.saturating_sub(1);
            self.speed = if slower > 1 {
                slower
            } else {
                1
            };
        }
        if ctx.current.tick % self.speed == 0 {
            let idx = self.active_idx;
            let next_idx = if ctx.current.input_state[0] {
                (idx + 1) % RELAY_COUNT
            } else {
                (idx + RELAY_COUNT - 1) % RELAY_COUNT
            };
            command.relay_state[next_idx] = true;
            self.pending_off[next_idx] = None;
            if next_idx != idx {
                if self.lag == 0 {
                    command.relay_state[idx] = false;
                    self.pending_off[idx] = None;
                } else {
                    self.pending_off[idx] = Some(ctx.current.tick.wrapping_add(self.lag));
                }
            }
            self.active_idx = next_idx;
        }
        let ghost sched = self.pending_off@;
        let ghost stepped = command.relay_state@;
        assert(sched =~= scheduled(m, *ctx));
        assert(stepped =~= stepped_relays(m, *ctx));
        let ghost speed1 = self.speed;
        let ghost lag1 = self.lag;
        let ghost active1 = self.active_idx;
        let mut relay_idx: usize = 0;
        while relay_idx < RELAY_COUNT
            invariant
                0 <= relay_idx <= RELAY_COUNT,
                self.speed == speed1,
                self.lag == lag1,
                self.active_idx == active1,
                speed1 >= 1,
                active1 < RELAY_COUNT,
                sched.len() == RELAY_COUNT,
                stepped.len() == RELAY_COUNT,
                forall|i: int|
                    0 <= i < relay_idx ==> #[trigger] command.relay_state@[i] == (stepped[i]
                        && !expired(sched[i], ctx.current.tick)),
                forall|i: int|
                    0 <= i < relay_idx ==> #[trigger] self.pending_off@[i] == (if expired(
                        sched[i],
                        ctx.current.tick,
                    ) {
                        None
                    } else {
                        sched[i]
                    }),
                forall|i: int|
                    relay_idx <= i < RELAY_COUNT ==> #[trigger] command.relay_state@[i] == stepped[i],
                forall|i: int| relay_idx <= i < RELAY_COUNT ==> #[trigger] self.pending_off@[i] == sched[i],
            decreases RELAY_COUNT - relay_idx,
        {
            let ghost prev_relays = command.relay_state@;
            let ghost prev_pending = self.pending_off@;
            if let Some(off_at) = self.pending_off[relay_idx] {
                if ctx.current.tick >= off_at {
                    command.relay_state[relay_idx] = false;
                    self.pending_off[relay_idx] = None;
                }
            }
            assert(command.relay_state@[relay_idx as int] == (stepped[relay_idx as int] && !expired(
                sched[relay_idx as int],
                ctx.current.tick,
            )));
            assert forall|i: int| 0 <= i < RELAY_COUNT && i != relay_idx implies #[trigger] command.relay_state@[i]
                == prev_relays[i] by {}
            assert forall|i: int| 0 <= i < RELAY_COUNT && i != relay_idx implies #[trigger] self.pending_off@[i]
                == prev_pending[i] by {}
            relay_idx = relay_idx + 1;
        }
        command.display = Display::from((self.speed % 10_000) as u16);
        command
    }
}

/// Without lag, a step leaves exactly one relay on: the new one (unless its
/// own turn-off time has come); the relay left behind is off and nothing is
/// scheduled for either of them.
pub proof fn lemma_step_without_lag(m: RotateModel, ctx: SceneContext)
    requires
        m.lag == 0,
        0 <= m.active_idx < RELAY_COUNT,
        m.pending_off.len() == RELAY_COUNT,
        ctx.current.relay_state@.len() == RELAY_COUNT,
        is_step(m, ctx),
    ensures
        stepped_relays(m, ctx)[step_target(m, ctx)],
        !stepped_relays(m, ctx)[m.active_idx],
        scheduled(m, ctx)[step_target(m, ctx)] is None,
        scheduled(m, ctx)[m.active_idx] is None,
{
}

} // verus!
