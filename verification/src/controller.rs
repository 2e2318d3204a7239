//! The control loop's state: which fan is serviced next, and how the state
//! moves when a fan has been serviced. The running state can only be entered
//! with at least one fan, and a failed speed write never stalls the loop.

use crate::config::Config;
use crate::curve::curve_speed;
use crate::fan::DiscoveryError;
use crate::fan::Fan;
use vstd::prelude::*;

verus! {

/// The running control loop: the immutable settings, the fans in discovery
/// order, and the index of the fan to be serviced next.
pub struct Controller {
    pub config: Config,
    pub fans: Vec<Fan>,
    pub next_fan: usize,
}

impl Controller {
    /// A running controller has a usable window, at least one fan, every fan
    /// well-formed, and its cursor within the collection.
    pub open spec fn wf(&self) -> bool {
        &&& self.config.wf()
        &&& self.fans@.len() > 0
        &&& self.next_fan < self.fans@.len()
        &&& forall|i: int| 0 <= i < self.fans@.len() ==> (#[trigger] self.fans@[i]).wf()
    }

    /// The state after the current fan has been serviced: the cursor moves to
    /// the next fan in discovery order, wrapping into the next iteration, and
    /// nothing else changes — whatever the speed write returned.
    pub open spec fn stepped(self, write_ok: bool) -> Controller {
        Controller {
            next_fan: if self.next_fan + 1 == self.fans@.len() {
                0
            } else {
                (self.next_fan + 1) as usize
            },
            ..self
        }
    }

    /// Enters the running state, which exists only with at least one fan.
    pub fn new(config: Config, fans: Vec<Fan>) -> (r: Result<Controller, DiscoveryError>)
        requires
            config.wf(),
            forall|i: int| 0 <= i < fans@.len() ==> (#[trigger] fans@[i]).wf(),
        ensures
            match r {
                Ok(c) => {
                    &&& fans@.len() > 0
                    &&& c.wf()
                    &&& c.config == config
                    &&& c.fans@ == fans@
                    &&& c.next_fan == 0
                },
                Err(e) => e == DiscoveryError::NoFans && fans@.len() == 0,
            },
    {
        if fans.len() == 0 {
            return Err(DiscoveryError::NoFans);
        }
        Ok(Controller { config, fans, next_fan: 0 })
    }

    /// The fan about to be serviced.
    pub fn current_fan(&self) -> (f: &Fan)
        requires
            self.wf(),
        ensures
            *f == self.fans@[self.next_fan as int],
    {
        &self.fans[self.next_fan]
    }

    /// Target speed for the fan about to be serviced at the given reading.
    pub fn plan_speed(&self, current_temp: u32) -> (speed: u32)
        requires
            self.wf(),
        ensures
            speed == curve_speed(
                self.fans@[self.next_fan as int].speed_curve,
                current_temp,
                self.config.min_temp,
                self.config.max_temp,
                self.fans@[self.next_fan as int].min_speed,
                self.fans@[self.next_fan as int].max_speed,
            ),
    {
        let f = &self.fans[self.next_fan];
        f.calc_speed(current_temp, &self.config)
    }

    /// Records that the current fan has been serviced and moves on. The
    /// outcome of the speed write is taken, and provably ignored: a failure
    /// is absorbed, never propagated into the state.
    pub fn advance(&mut self, write_ok: bool)
        requires
            old(self).wf(),
        ensures
            *final(self) == old(self).stepped(write_ok),
            final(self).wf(),
    {
        let n: usize = self.fans.len();
        if self.next_fan + 1 == n {
            self.next_fan = 0;
        } else {
            self.next_fan = self.next_fan + 1;
        }
    }
}

/// One fan's speed-write failure does not prevent the next fan in the same
/// iteration, nor the next iteration, from being serviced: the controller's
/// successor state after a failed write is exactly the one after a
/// successful write.
pub proof fn lemma_write_outcome_ignored(c: Controller)
    ensures
        c.stepped(false) == c.stepped(true),
{
}

} // verus!
