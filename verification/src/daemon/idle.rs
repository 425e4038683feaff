//! When an idle daemon may exit.

use vstd::prelude::*;

verus! {

/// The connections that are open and the time of the last activity.
#[derive(Debug, Clone, Copy)]
pub struct IdleExitTracker {
    pub active: usize,
    pub last_activity: u64,
}

impl IdleExitTracker {
    /// Whether a daemon in this state may exit: no connection is open and the
    /// last activity is at least the timeout ago.
    pub open spec fn idle(self, now: u64, timeout: u64) -> bool {
        self.active == 0 && (if now >= self.last_activity {
            now - self.last_activity
        } else {
            0
        }) >= timeout
    }

    pub fn new(now_millis: u64) -> (r: Self)
        ensures
            r.active == 0,
            r.last_activity == now_millis,
    {
        IdleExitTracker { active: 0, last_activity: now_millis }
    }

    pub fn note_connect(&mut self, now_millis: u64)
        requires
            old(self).active < usize::MAX,
        ensures
            final(self).active == old(self).active + 1,
            final(self).last_activity == now_millis,
    {
        self.active = self.active + 1;
        self.last_activity = now_millis;
    }

    /// A disconnect that no connect matches is ignored, but for the time.
    pub fn note_disconnect(&mut self, now_millis: u64)
        ensures
            final(self).active == (if old(self).active > 0 {
                old(self).active - 1
            } else {
                0
            }),
            final(self).last_activity == now_millis,
    {
        self.active = self.active.saturating_sub(1);
        self.last_activity = now_millis;
    }

    pub fn note_activity(&mut self, now_millis: u64)
        ensures
            final(self).active == old(self).active,
            final(self).last_activity == now_millis,
    {
        self.last_activity = now_millis;
    }

    pub fn active_connections(&self) -> (r: usize)
        ensures
            r == self.active,
    {
        self.active
    }

    pub fn should_exit(&self, now_millis: u64, idle_timeout_millis: u64) -> (r: bool)
        ensures
            r == self.idle(now_millis, idle_timeout_millis),
    {
        self.active == 0 && now_millis.saturating_sub(self.last_activity) >= idle_timeout_millis
    }
}

/// A daemon with an open connection does not exit; one that may exit may still
/// exit later; and activity puts the exit off by the whole timeout.
pub proof fn law_idle_exit(t: IdleExitTracker, now: u64, later: u64, timeout: u64)
    requires
        now <= later,
    ensures
        t.active > 0 ==> !t.idle(now, timeout),
        t.idle(now, timeout) ==> t.idle(later, timeout),
        t.last_activity == now && later - now < timeout ==> !t.idle(later, timeout),
{
}

} // verus!
