//! Scenes: behaviour units that turn each tick's snapshots into a command,
//! a selector that decides which scene runs, and a manager that switches
//! between them.
use vstd::prelude::*;

use crate::config::{DIGIT_COUNT, RELAY_COUNT};
use crate::debug::spec_digits;
use crate::engine::{Display, Snapshot, TickCommand, INPUTS};

verus! {

/// Identifier of each available scene.
#[derive(Copy, Clone, Debug, PartialEq, Eq, Structural)]
pub enum SceneId {
    /// No-op scene: all outputs stay at their defaults.
    Idle,
    /// One relay chases around the set at a configurable speed.
    Rotate,
}

/// Input passed to every scene update.
#[derive(Copy, Clone)]
pub struct SceneContext {
    /// Snapshot produced by the tick being processed.
    pub current: Snapshot,
    /// Snapshot of the preceding tick.
    pub previous: Snapshot,
}

/// A behaviour unit: owns its state and produces a command each tick.
pub trait Scene {
    /// The scene's identifier.
    fn id(&self) -> SceneId;

    /// Called once when the scene becomes active.
    fn on_enter(&mut self, ctx: &SceneContext) {
    }

    /// Called once just before the scene is deactivated.
    fn on_exit(&mut self, ctx: &SceneContext) {
    }

    /// The command for the current tick.
    fn update(&mut self, ctx: &SceneContext) -> TickCommand;
}

/// Decides which scene should be active, every tick.
pub trait SceneSelector: Sized {
    /// The scene this selector answers, in its present state, for the tick
    /// `ctx` while `current` runs.
    spec fn choice(&self, ctx: SceneContext, current: SceneId) -> SceneId;

    /// The selector's state after answering for the tick `ctx` while
    /// `current` runs.
    spec fn answered(&self, ctx: SceneContext, current: SceneId) -> Self;

    /// The scene that should be active this tick; `current` keeps the
    /// running one.
    fn next_scene(&mut self, ctx: &SceneContext, current: SceneId) -> (next: SceneId)
        ensures
            next == old(self).choice(*ctx, current),
            *final(self) == old(self).answered(*ctx, current),
    ;
}

/// The other scene.
pub open spec fn other_scene(s: SceneId) -> SceneId {
    match s {
        SceneId::Idle => SceneId::Rotate,
        SceneId::Rotate => SceneId::Idle,
    }
}

/// Cycles through the scenes in order on every rising edge of one logical
/// input.
pub struct ButtonCycleSelector {
    index: usize,
    last_state: bool,
}

impl ButtonCycleSelector {
    #[verifier::type_invariant]
    spec fn inv(self) -> bool {
        self.index < INPUTS
    }

    /// The logical input that drives the selector.
    pub closed spec fn spec_index(&self) -> usize {
        self.index
    }

    /// The level of that input on the previous tick.
    pub closed spec fn spec_last_state(&self) -> bool {
        self.last_state
    }

    /// A selector driven by logical input `index`, which must be one of the
    /// engine's inputs.
    pub fn new(index: usize) -> (s: Self)
        requires
            index < INPUTS,
        ensures
            s.spec_index() == index,
            !s.spec_last_state(),
    {
        Self { index, last_state: false }
    }
}

impl SceneSelector for ButtonCycleSelector {
    closed spec fn choice(&self, ctx: SceneContext, current: SceneId) -> SceneId {
        if ctx.current.input_state@[self.index as int] && !self.last_state {
            other_scene(current)
        } else {
            current
        }
    }

    closed spec fn answered(&self, ctx: SceneContext, current: SceneId) -> Self {
        ButtonCycleSelector {
            index: self.index,
            last_state: ctx.current.input_state@[self.index as int],
        }
    }

    fn next_scene(&mut self, ctx: &SceneContext, current: SceneId) -> (next: SceneId)
        ensures
            final(self).spec_index() == old(self).spec_index(),
            final(self).spec_last_state() == ctx.current.input_state@[old(self).spec_index() as int],
            next == (if ctx.current.input_state@[old(self).spec_index() as int]
                && !old(self).spec_last_state() {
                other_scene(current)
            } else {
                current
            }),
    {
        proof {
            use_type_invariant(&*self);
        }
        let now = ctx.current.input_state[self.index];
        let mut next = current;
        if now && !self.last_state {
            next = match current {
                SceneId::Idle => SceneId::Rotate,
                SceneId::Rotate => SceneId::Idle,
            };
        }
        self.last_state = now;
        next
    }
}

/// Whether a command turns every relay off and shows zeros.
pub open spec fn is_blank_command(c: TickCommand) -> bool {
    &&& forall|i: int| 0 <= i < RELAY_COUNT ==> !#[trigger] c.relay_state@[i]
    &&& forall|i: int| 0 <= i < DIGIT_COUNT ==> #[trigger] c.display.0@[i] == 0
}

/// Scene that emits the blank command every tick, leaving all outputs off.
pub struct IdleScene;

impl Scene for IdleScene {
    fn id(&self) -> (id: SceneId)
        ensures
            id == SceneId::Idle,
    {
        SceneId::Idle
    }

    fn on_enter(&mut self, _ctx: &SceneContext)
        ensures
            *final(self) == *old(self),
    {
    }

    fn on_exit(&mut self, _ctx: &SceneContext)
        ensures
            *final(self) == *old(self),
    {
    }

    fn update(&mut self, _ctx: &SceneContext) -> (c: TickCommand)
        ensures
            is_blank_command(c),
    {
        TickCommand::default()
    }
}

/// The rotation speed after the speed buttons of this tick: input 1 slows
/// the rotation period up (longer, at most 5000 ticks), otherwise input 2
/// shortens it (at least 1 tick).
pub open spec fn adjusted_speed(speed: u32, snap: Snapshot) -> u32 {
    if snap.input_state@[1] {
        if speed + 1 <= 5000 {
            (speed + 1) as u32
        } else {
            5000
        }
    } else if snap.input_state@[2] {
        if speed - 1 >= 1 {
            (speed - 1) as u32
        } else {
            1
        }
    } else {
        speed
    }
}

/// The speed buttons keep the rotation period between 1 and 5000 ticks, and
/// never move it by more than one tick per update.
pub proof fn lemma_adjusted_speed_in_range(speed: u32, snap: Snapshot)
    requires
        1 <= speed <= 5000,
    ensures
        1 <= adjusted_speed(speed, snap) <= 5000,
        adjusted_speed(speed, snap) - speed <= 1,
        speed - adjusted_speed(speed, snap) <= 1,
{
}

/// The speed buttons: input 1 lengthens the rotation period by one tick (to
/// at most 5000); otherwise input 2 shortens it by one tick (to at least 1);
/// with neither the period is kept.
pub proof fn lemma_speed_buttons(speed: u32, snap: Snapshot)
    ensures
        snap.input_state@[1] && speed < 5000 ==> adjusted_speed(speed, snap) == speed + 1,
        snap.input_state@[1] && speed >= 5000 ==> adjusted_speed(speed, snap) == 5000,
        !snap.input_state@[1] && snap.input_state@[2] && speed > 1 ==> adjusted_speed(speed, snap)
            + 1 == speed,
        !snap.input_state@[1] && snap.input_state@[2] && speed <= 1 ==> adjusted_speed(speed, snap)
            == 1,
        !snap.input_state@[1] && !snap.input_state@[2] ==> adjusted_speed(speed, snap) == speed,
{
}

/// Index of the first relay that is on, or 0 when none is.
pub open spec fn first_on(relays: Seq<bool>) -> int {
    if exists|i: int| 0 <= i < relays.len() && relays[i] {
        choose|i: int| 0 <= i < relays.len() && relays[i] && forall|j: int| 0 <= j < i ==> !relays[j]
    } else {
        0
    }
}

/// The relay after `idx` in the rotation direction: forward while input 0 is
/// on, backward otherwise.
pub open spec fn rotated_index(idx: int, forward: bool) -> int {
    if forward {
        (idx + 1) % (RELAY_COUNT as int)
    } else {
        (idx + RELAY_COUNT - 1) % (RELAY_COUNT as int)
    }
}

/// Index of the first relay that is on, or 0 when none is.
pub(crate) fn first_on_index(relays: &[bool; RELAY_COUNT]) -> (idx: usize)
    ensures
        idx == first_on(relays@),
        idx < RELAY_COUNT,
{
    let mut i: usize = 0;
    while i < RELAY_COUNT
        invariant
            0 <= i <= RELAY_COUNT,
            forall|j: int| 0 <= j < i ==> !relays@[j],
        decreases RELAY_COUNT - i,
    {
        if relays[i] {
            assert(forall|k: int|
                0 <= k < RELAY_COUNT && relays@[k] && (forall|j: int| 0 <= j < k ==> !relays@[j])
                    ==> k == i);
            return i;
        }
        i = i + 1;
    }
    0
}

/// Scene in which one relay chases around the set, one step every `speed`
/// ticks, and the display shows the speed.
pub struct RotateScene {
    speed: u32,
}

impl RotateScene {
    #[verifier::type_invariant]
    spec fn inv(self) -> bool {
        self.speed >= 1
    }

    /// The rotation period in ticks.
    pub closed spec fn spec_speed(&self) -> u32 {
        self.speed
    }

    /// A rotate scene stepping every `speed` ticks (at least one).
    pub fn new(speed: u32) -> (s: Self)
        ensures
            s.spec_speed() == (if speed >= 1 {
                speed
            } else {
                1
            }),
    {
        Self { speed: if speed >= 1 { speed } else { 1 } }
    }
}

/// The command of the rotate scene for one tick, after its speed became
/// `speed`: on a step tick exactly the next relay after the first one that is
/// on; otherwise the current outputs. The display shows the speed.
pub open spec fn rotate_command(speed: u32, snap: Snapshot, c: TickCommand) -> bool {
    &&& if snap.tick % speed == 0 {
        let next = rotated_index(first_on(snap.relay_state@), snap.input_state@[0]);
        forall|i: int| 0 <= i < RELAY_COUNT ==> #[trigger] c.relay_state@[i] == (i == next)
    } else {
        c.relay_state == snap.relay_state
    }
    &&& c.display.0@ == spec_digits((speed % 10000) as u16)
}

impl Scene for RotateScene {
    fn id(&self) -> (id: SceneId)
        ensures
            id == SceneId::Rotate,
    {
        SceneId::Rotate
    }

    fn on_enter(&mut self, _ctx: &SceneContext)
        ensures
            *final(self) == *old(self),
    {
    }

    fn on_exit(&mut self, _ctx: &SceneContext)
        ensures
            *final(self) == *old(self),
    {
    }

    fn update(&mut self, ctx: &SceneContext) -> (c: TickCommand)
        ensures
            final(self).spec_speed() == adjusted_speed(old(self).spec_speed(), ctx.current),
            rotate_command(final(self).spec_speed(), ctx.current, c),
    {
        proof {
            use_type_invariant(&*self);
        }
        let mut command = ctx.current.identity_command();
        if ctx.current.input_state[1] {
            let faster = self.speed.saturating_add(1);
            self.speed = if faster < 5000 { faster } else { 5000 };
        } else if ctx.current.input_state[2] {
            let slower = self.speed.saturating_sub(1);
            self.speed = if slower > 1 { slower } else { 1 };
        }
        if ctx.current.tick % self.speed == 0 {
            let idx = first_on_index(&ctx.current.relay_state);
            let next_idx = if ctx.current.input_state[0] {
                (idx + 1) % RELAY_COUNT
            } else {
                (idx + RELAY_COUNT - 1) % RELAY_COUNT
            };
            command.relay_state = [false;RELAY_COUNT];
            command.relay_state[next_idx] = true;
        }
        command.display = Display(digits_from_u16((self.speed % 10_000) as u16));
        command
    }
}

/// Split a value into four decimal digits (thousands..ones), left to right.
fn digits_from_u16(value: u16) -> (d: [u8; DIGIT_COUNT])
    ensures
        d@ == spec_digits(value),
{
    let ghost v0 = value;
    let mut value = value;
    let mut digits = [0u8;DIGIT_COUNT];
    digits[0] = (value / 1000) as u8;
    value = value % 1000;
    digits[1] = (value / 100) as u8;
    value = value % 100;
    digits[2] = (value / 10) as u8;
    digits[3] = (value % 10) as u8;
    assert(digits@ =~= spec_digits(v0));
    digits
}

/// Runs the active scene each tick and switches scenes when the selector
/// asks for it.
pub struct SceneManager<S> where S: SceneSelector {
    selector: S,
    active: SceneId,
    initialized: bool,
    idle: IdleScene,
    rotate: RotateScene,
}

impl<S> SceneManager<S> where S: SceneSelector {
    /// The active scene.
    pub closed spec fn spec_active(&self) -> SceneId {
        self.active
    }

    /// Whether the first scene has been entered.
    pub closed spec fn spec_initialized(&self) -> bool {
        self.initialized
    }

    /// The selector.
    pub closed spec fn spec_selector(&self) -> S {
        self.selector
    }

    /// The rotation period of the rotate scene.
    pub closed spec fn rotate_speed(&self) -> u32 {
        self.rotate.spec_speed()
    }

    /// A manager that starts with scene `initial` and a rotate scene stepping
    /// every `rotate_speed` ticks (at least one).
    pub fn new(selector: S, initial: SceneId, rotate_speed: u32) -> (m: Self)
        ensures
            m.spec_selector() == selector,
            m.spec_active() == initial,
            !m.spec_initialized(),
            m.rotate_speed() == (if rotate_speed >= 1 {
                rotate_speed
            } else {
                1
            }),
    {
        Self {
            selector,
            active: initial,
            initialized: false,
            idle: IdleScene,
            rotate: RotateScene::new(rotate_speed),
        }
    }

    /// Run one tick: enter the initial scene on the first call, switch to the
    /// scene the selector asks for (leaving the old and entering the new one),
    /// and return the command of the active scene.
    pub fn update(&mut self, ctx: &SceneContext) -> (c: TickCommand)
        ensures
            final(self).spec_initialized(),
            final(self).spec_selector() == old(self).spec_selector().answered(
                *ctx,
                old(self).spec_active(),
            ),
            final(self).spec_active() == old(self).spec_selector().choice(
                *ctx,
                old(self).spec_active(),
            ),
            final(self).spec_active() == SceneId::Idle ==> is_blank_command(c)
                && final(self).rotate_speed() == old(self).rotate_speed(),
            final(self).spec_active() == SceneId::Rotate ==> final(self).rotate_speed()
                == adjusted_speed(old(self).rotate_speed(), ctx.current) && rotate_command(
                final(self).rotate_speed(),
                ctx.current,
                c,
            ),
    {
        if !self.initialized {
            match self.active {
                SceneId::Idle => self.idle.on_enter(ctx),
                SceneId::Rotate => self.rotate.on_enter(ctx),
            }
            self.initialized = true;
        }
        let next = self.selector.next_scene(ctx, self.active);
        if next != self.active {
            match self.active {
                SceneId::Idle => self.idle.on_exit(ctx),
                SceneId::Rotate => self.rotate.on_exit(ctx),
            }
            self.active = next;
            match self.active {
                SceneId::Idle => self.idle.on_enter(ctx),
                SceneId::Rotate => self.rotate.on_enter(ctx),
            }
        }
        match self.active {
            SceneId::Idle => self.idle.update(ctx),
            SceneId::Rotate => self.rotate.update(ctx),
        }
    }

    /// The active scene.
    pub fn active_scene(&self) -> (id: SceneId)
        ensures
            id == self.spec_active(),
    {
        self.active
    }
}

} // verus!
