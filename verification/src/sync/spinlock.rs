//! A spinlock for kernel-free locking, intended to circumvent the need for
//! system calls in data-plane threads.
//!
//! [`SpinLock`] guards a value of a type that states what holds of every value
//! left in a lock. It provides interior mutability through its `with` method,
//! which takes a closure that gets exclusive access to the data while the lock
//! is held. Waiting is a spin on an atomic.

use vstd::prelude::*;
use vstd::rwlock::{RwLock, RwLockPredicate, WriteHandle};

verus! {

/// What holds of every value that a lock guards whenever it is not held.
pub trait Guarded: Sized {
    /// `self` can be found in a lock that was made with `origin`.
    spec fn guarded(self, origin: Self) -> bool;
}

/// The predicate of a [`SpinLock`]: the guarded type's own, for the value that
/// the lock was made with.
pub struct GuardedInv<T> {
    pub origin: T,
}

impl<T: Guarded> RwLockPredicate<T> for GuardedInv<T> {
    open spec fn inv(self, v: T) -> bool {
        v.guarded(self.origin)
    }
}

/// A minimal spinlock.
pub struct SpinLock<T: Guarded> {
    inner: RwLock<T, GuardedInv<T>>,
}

impl<T: Guarded> SpinLock<T> {
    /// The value that the lock was made with.
    pub closed spec fn made_with(self) -> T {
        self.inner.pred().origin
    }

    /// A lock that guards `value`.
    pub fn new(value: T) -> (r: Self)
        requires
            value.guarded(value),
        ensures
            r.made_with() == value,
    {
        let ghost origin = value;
        SpinLock { inner: RwLock::new(value, Ghost(GuardedInv { origin })) }
    }

    /// Run `f` on the guarded value while holding the lock. What `f` found is
    /// any value that the lock may hold; what it returned is what it returns
    /// for that value.
    pub fn with<R, F: FnOnce(&mut T) -> R>(&self, f: F) -> (r: R)
        requires
            forall|x: &mut T| (*x).guarded(self.made_with()) ==> #[trigger] f.requires((x,)),
            forall|x: &mut T, r: R| #[trigger]
                f.ensures((x,), r) && (*x).guarded(self.made_with()) ==> (*final(x)).guarded(
                    self.made_with(),
                ),
        ensures
            exists|x: &mut T|
                (*x).guarded(self.made_with()) && #[trigger] f.ensures((x,), r),
    {
        let (mut value, handle) = self.inner.acquire_write();
        let r = f(&mut value);
        handle.release_write(value);
        r
    }

    /// Take the lock. It is held until the guard is given back with
    /// [`Guard::unlock`].
    #[must_use]
    pub fn lock(&self) -> (r: Guard<'_, T>)
        ensures
            r.made_with() == self.made_with(),
            r.value().guarded(self.made_with()),
    {
        let (value, handle) = self.inner.acquire_write();
        Guard { value, handle }
    }
}

/// Exclusive access to the value that a held [`SpinLock`] guards. It is given
/// back with [`Guard::unlock`]: a guard that is merely dropped leaves the lock
/// held.
#[must_use]
pub struct Guard<'a, T: Guarded> {
    value: T,
    handle: WriteHandle<'a, T, GuardedInv<T>>,
}

impl<'a, T: Guarded> Guard<'a, T> {
    /// The guarded value as it stands.
    pub closed spec fn value(self) -> T {
        self.value
    }

    /// The value that the lock was made with.
    pub closed spec fn made_with(self) -> T {
        self.handle.rwlock().pred().origin
    }

    pub fn as_ref(&self) -> (r: &T)
        ensures
            *r == self.value(),
    {
        &self.value
    }

    pub fn as_mut(&mut self) -> (r: &mut T)
        ensures
            *r == old(self).value(),
            final(self).value() == *final(r),
            final(self).made_with() == old(self).made_with(),
    {
        &mut self.value
    }

    /// Release the lock, leaving the value in it.
    pub fn unlock(self)
        requires
            self.value().guarded(self.made_with()),
    {
        self.handle.release_write(self.value);
    }
}

} // verus!
