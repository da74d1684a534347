//! A lock that is waited for by spinning.

use vstd::prelude::*;

use crate::backoff::{Backoff, BackoffConfig, Pause, DEFAULT_LIMIT, SPIN_LIMIT};

verus! {

/// What one who wants the lock has to do after a try.
#[derive(Debug, Clone, Copy, PartialEq, Eq, Structural)]
pub enum LockStep {
    /// Nothing: the lock is held.
    Locked,
    /// Nothing: the lock is no longer wanted.
    Skipped,
    /// To yield if the pause says so, and to try again.
    Pause(Pause),
}

/// The wait for a lock that somebody else holds.
pub struct SpinWait {
    backoff: Backoff,
    tried: bool,
}

impl SpinWait {
    pub closed spec fn wf(self) -> bool {
        self.backoff.wf()
    }

    /// How many pauses there were, as far as they are counted.
    pub closed spec fn steps(self) -> nat {
        self.backoff.steps()
    }

    pub closed spec fn conf(self) -> BackoffConfig {
        self.backoff.conf()
    }

    /// Whether there was a try.
    pub closed spec fn has_tried(self) -> bool {
        self.tried
    }

    /// A wait that only the lock ends.
    pub fn new() -> (wait: Self)
        ensures
            wait.wf(),
            wait.steps() == 0,
            !wait.has_tried(),
            wait.conf() == (BackoffConfig { spin_limit: SPIN_LIMIT, limit: 7 }),
    {
        SpinWait {
            backoff: Backoff::new(
                BackoffConfig { spin_limit: SPIN_LIMIT, limit: SPIN_LIMIT + 1 },
            ),
            tried: false,
        }
    }

    /// A wait that the caller may call off.
    pub fn new_conditional() -> (wait: Self)
        ensures
            wait.wf(),
            wait.steps() == 0,
            !wait.has_tried(),
            wait.conf() == (BackoffConfig { spin_limit: SPIN_LIMIT, limit: DEFAULT_LIMIT }),
    {
        SpinWait { backoff: Backoff::new(BackoffConfig::default()), tried: false }
    }

    /// What a try comes to, whose outcome is `acquired`. The wait is called off by
    /// `skip`, but not before the lock was tried twice.
    pub open spec fn step_for(self, acquired: bool, skip: bool) -> LockStep {
        if acquired {
            LockStep::Locked
        } else if self.has_tried() && skip {
            LockStep::Skipped
        } else {
            LockStep::Pause(self.conf().pause_at(self.steps()))
        }
    }

    /// Goes on after a try.
    pub fn after_try(&mut self, acquired: bool, skip: bool) -> (step: LockStep)
        requires
            old(self).wf(),
        ensures
            final(self).wf(),
            final(self).has_tried(),
            final(self).conf() == old(self).conf(),
            step == old(self).step_for(acquired, skip),
            final(self).steps() == (if step is Pause {
                crate::backoff::step_after(old(self).steps())
            } else {
                old(self).steps()
            }),
    {
        let tried = self.tried;
        self.tried = true;
        if acquired {
            return LockStep::Locked;
        }
        if tried && skip {
            return LockStep::Skipped;
        }
        LockStep::Pause(self.backoff.snooze())
    }
}

/// A value behind a lock.
pub struct Spinlock<T> {
    pub lock: bool,
    pub inner: T,
}

/// Access to the value of a lock that is held.
pub struct SpinlockGuard<'a, T> {
    pub inner: &'a mut Spinlock<T>,
}

impl<'a, T> SpinlockGuard<'a, T> {
    pub fn get(&self) -> (value: &T)
        ensures
            *value == old(self.inner).inner,
    {
        &self.inner.inner
    }

    pub fn get_mut(&mut self) -> (value: &mut T)
        ensures
            *value == old(self).inner.inner,
            *final(self).inner == (Spinlock { inner: *final(value), ..*old(self).inner }),
            *final(final(self).inner) == *final(old(self).inner),
    {
        &mut self.inner.inner
    }

    /// Gives the lock back.
    pub fn release(self)
        ensures
            *final(self.inner) == (Spinlock { lock: false, ..*old(self.inner) }),
    {
        self.inner.lock = false;
    }
}

impl<T> Spinlock<T> {
    pub fn new(inner: T) -> (lock: Self)
        ensures
            lock == (Spinlock { lock: false, inner }),
    {
        Spinlock { lock: false, inner }
    }

    fn guard<'a>(&'a mut self) -> (guard: SpinlockGuard<'a, T>)
        ensures
            *guard.inner == *old(self),
            *final(self) == *final(guard.inner),
    {
        SpinlockGuard { inner: self }
    }

    fn try_acquire(&mut self) -> (acquired: bool)
        ensures
            acquired == !old(self).lock,
            *final(self) == (Spinlock { lock: true, ..*old(self) }),
    {
        let acquired = !self.lock;
        self.lock = true;
        acquired
    }

    /// Takes the lock. One who has the lock to themselves cannot wait for another
    /// to give it back, so it has to be free; where it is shared, see [`SpinWait`].
    pub fn lock<'a>(&'a mut self) -> (guard: SpinlockGuard<'a, T>)
        requires
            !old(self).lock,
        ensures
            *guard.inner == (Spinlock { lock: true, ..*old(self) }),
            *final(self) == *final(guard.inner),
    {
        self.try_acquire();
        self.guard()
    }

    /// Takes the lock unless it is held and no longer wanted (`skip`).
    pub fn lock_condition<'a>(&'a mut self, skip: bool) -> (guard: Option<SpinlockGuard<'a, T>>)
        requires
            !old(self).lock || skip,
        ensures
            match guard {
                Some(g) => {
                    &&& !old(self).lock
                    &&& *g.inner == (Spinlock { lock: true, ..*old(self) })
                    &&& *final(self) == *final(g.inner)
                },
                None => old(self).lock && *final(self) == *old(self),
            },
    {
        let mut wait = SpinWait::new_conditional();
        let acquired = self.try_acquire();
        if let LockStep::Locked = wait.after_try(acquired, skip) {
            return Some(self.guard());
        }
        let acquired = self.try_acquire();
        match wait.after_try(acquired, skip) {
            LockStep::Locked => Some(self.guard()),
            _ => None,
        }
    }
}

/// One who gets the lock has it. One who does not, and no longer wants it, is let go from the
/// second try on; else it pauses for as long as its backoff says.
pub proof fn law_waits_for_lock(wait: SpinWait, acquired: bool, skip: bool)
    ensures
        acquired ==> wait.step_for(acquired, skip) == LockStep::Locked,
        !acquired && wait.has_tried() && skip ==> wait.step_for(acquired, skip)
            == LockStep::Skipped,
        !acquired && !(wait.has_tried() && skip) ==> wait.step_for(acquired, skip)
            == LockStep::Pause(wait.conf().pause_at(wait.steps())),
{
}

} // verus!
