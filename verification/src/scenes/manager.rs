//! Scene manager for the split scene modules: runs the active scene each
//! tick and switches scenes when the selector asks for it.
use vstd::prelude::*;

use crate::engine::TickCommand;
use crate::scenes::idle::IdleScene;
use crate::scenes::rotate::{entered_model, rotate_update, RotateScene};
use crate::scenes::types::{Scene, SceneContext, SceneId, SceneSelector};

verus! {

/// Runs the active scene each tick and switches scenes when the selector
/// asks for it.
pub struct SceneManager<S> where S: SceneSelector {
    selector: S,
    active: SceneId,
    initialized: bool,
    idle: IdleScene,
    rotate: RotateScene,
}

impl<S> SceneManager<S> where S: SceneSelector {
    /// The active scene.
    pub closed spec fn spec_active(&self) -> SceneId {
        self.active
    }

    /// Whether the first scene has been entered.
    pub closed spec fn spec_initialized(&self) -> bool {
        self.initialized
    }

    /// The selector.
    pub closed spec fn spec_selector(&self) -> S {
        self.selector
    }

    /// The rotate scene.
    pub closed spec fn spec_rotate(&self) -> RotateScene {
        self.rotate
    }

    /// A manager that starts with scene `initial` and a rotate scene stepping
    /// every `rotate_speed` ticks with lag `rotate_lag`.
    pub fn new(selector: S, initial: SceneId, rotate_speed: u32, rotate_lag: u32) -> (m: Self)
        ensures
            m.spec_selector() == selector,
            m.spec_active() == initial,
            !m.spec_initialized(),
            m.spec_rotate().model().speed == (if rotate_speed >= 1 {
                rotate_speed
            } else {
                1
            }),
            m.spec_rotate().model().lag == rotate_lag,
    {
        Self {
            selector,
            active: initial,
            initialized: false,
            idle: IdleScene,
            rotate: RotateScene::new(rotate_speed, rotate_lag),
        }
    }

    /// Run one tick: enter the initial scene on the first call, switch to the
    /// scene the selector asks for (leaving the old and entering the new one),
    /// and return the command of the active scene. The rotate scene changes
    /// only while it is entered or active.
    pub fn update(&mut self, ctx: &SceneContext) -> (c: TickCommand)
        ensures
            final(self).spec_initialized(),
            final(self).spec_selector() == old(self).spec_selector().answered(
                *ctx,
                old(self).spec_active(),
            ),
            final(self).spec_active() == old(self).spec_selector().choice(
                *ctx,
                old(self).spec_active(),
            ),
            final(self).spec_active() == SceneId::Idle ==> crate::scene::is_blank_command(c)
                && final(self).spec_rotate().model() == (if !old(self).spec_initialized()
                && old(self).spec_active() == SceneId::Rotate {
                entered_model(old(self).spec_rotate().model(), *ctx)
            } else {
                old(self).spec_rotate().model()
            }),
            final(self).spec_active() == SceneId::Rotate ==> rotate_update(
                if old(self).spec_initialized() && old(self).spec_active() == SceneId::Rotate {
                    old(self).spec_rotate().model()
                } else {
                    entered_model(old(self).spec_rotate().model(), *ctx)
                },
                *ctx,
                final(self).spec_rotate().model(),
                c,
            ),
    {
        if !self.initialized {
            match self.active {
                SceneId::Idle => self.idle.on_enter(ctx),
                SceneId::Rotate => self.rotate.on_enter(ctx),
            }
            self.initialized = true;
        }
        let next = self.selector.next_scene(ctx, self.active);
        if next != self.active {
            match self.active {
                SceneId::Idle => self.idle.on_exit(ctx),
                SceneId::Rotate => self.rotate.on_exit(ctx),
            }
            self.active = next;
            match self.active {
                SceneId::Idle => self.idle.on_enter(ctx),
                SceneId::Rotate => self.rotate.on_enter(ctx),
            }
        }
        match self.active {
            SceneId::Idle => self.idle.update(ctx),
            SceneId::Rotate => self.rotate.update(ctx),
        }
    }

    /// The active scene.
    pub fn active_scene(&self) -> (id: SceneId)
        ensures
            id == self.spec_active(),
    {
        self.active
    }
}

} // verus!
