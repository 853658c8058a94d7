use vstd::prelude::*;

use crate::err::Error;
use crate::scene::{Scene, SceneManager};
use crate::timer::Timer;

verus! {

/// The interval of the fixed-rate physics tick, in nanoseconds: sixty
/// ticks per second.
pub const PHYSICS_TICK_NANOS: u64 = 1_000_000_000 / 60;

/// The engine: the scenes of one run and the fixed-rate physics timer.
///
/// The frame loop itself lives with the caller, who reads the monotonic
/// clock and drives `physics_tick`, the scene manager's swap, frame and
/// cull steps once per iteration.
pub struct Engine<V, S> {
    scene_manager: SceneManager<V, S>,
    physics_timer: Timer,
}

impl<V, S> Engine<V, S> {
    /// The scene manager of this engine.
    pub closed spec fn sm(&self) -> SceneManager<V, S> {
        self.scene_manager
    }

    /// The physics timer of this engine.
    pub closed spec fn timer(&self) -> Timer {
        self.physics_timer
    }

    /// Validity of the engine: its scene manager is valid.
    pub open spec fn wf(&self) -> bool {
        self.sm().wf()
    }

    pub fn new() -> (r: Self)
        ensures
            r.wf(),
            r.sm().ids_seq() == Seq::<u32>::empty(),
            r.sm().current_spec() is None,
            r.sm().next_spec() is None,
            r.timer().interval_nanos() == PHYSICS_TICK_NANOS,
            r.timer().pending_first(),
    {
        Engine { scene_manager: SceneManager::new(), physics_timer: Timer::new(PHYSICS_TICK_NANOS) }
    }

    /// A mutable borrow of the scene manager, through which scenes are set
    /// up, selected and driven.
    pub fn scenes(&mut self) -> (r: &mut SceneManager<V, S>)
        ensures
            *r == old(self).sm(),
            final(self).sm() == *final(r),
            final(self).timer() == old(self).timer(),
    {
        &mut self.scene_manager
    }

    /// Creates a new, empty scene and returns its handle. Fails with
    /// `SceneMaxReached` once the scene id space is exhausted.
    pub fn create_scene(&mut self) -> (r: Result<Scene, Error>)
        requires
            old(self).wf(),
        ensures
            final(self).wf(),
            final(self).timer() == old(self).timer(),
            final(self).sm().current_spec() == old(self).sm().current_spec(),
            final(self).sm().next_spec() == old(self).sm().next_spec(),
            old(self).sm().next_id() < u32::MAX ==> (r matches Ok(s) && s@ == old(
                self,
            ).sm().next_id()),
            old(self).sm().next_id() == u32::MAX ==> (r matches Err(e) && e.kind_spec()
                == crate::err::ErrorKind::SceneMaxReached),
    {
        self.scene_manager.create_scene()
    }

    /// Ticks the physics timer at timestamp `now_nanos` and reports
    /// whether this frame carries a physics tick.
    pub fn physics_tick(&mut self, now_nanos: u64) -> (fire: bool)
        ensures
            final(self).sm() == old(self).sm(),
            fire == old(self).timer().spec_fires(now_nanos),
            final(self).timer().interval_nanos() == old(self).timer().interval_nanos(),
            !final(self).timer().pending_first(),
            final(self).timer().last_nanos() == old(self).timer().spec_next_last(now_nanos),
    {
        self.physics_timer.tick(now_nanos)
    }

    /// Resets the physics timer: the next tick fires regardless of its
    /// timestamp.
    pub fn reset_physics_timer(&mut self, now_nanos: u64)
        ensures
            final(self).sm() == old(self).sm(),
            final(self).timer().interval_nanos() == old(self).timer().interval_nanos(),
            final(self).timer().pending_first(),
            final(self).timer().last_nanos() == now_nanos,
    {
        self.physics_timer.reset(now_nanos)
    }
}

} // verus!
