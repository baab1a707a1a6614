//! A thread-safe container: exclusive-write / shared-read access to a
//! value shared across threads, built on a verified reader-writer lock.
//! The lock itself cannot be poisoned: readers and writers follow the
//! lock discipline by proof, so no recovery path is needed.

use vstd::prelude::*;
use vstd::rwlock::RwLock;

verus! {

/// A value of type `T` behind a reader-writer lock. Readers run
/// concurrently; a writer excludes everyone else.
#[verifier::reject_recursive_types(T)]
pub struct ThreadSafe<T> {
    lock: RwLock<T, spec_fn(T) -> bool>,
}

impl<T> ThreadSafe<T> {
    /// The lock admits every value of `T`.
    pub closed spec fn wf(&self) -> bool {
        forall|t: T| self.lock.inv(t)
    }

    /// Wrap a value for shared use.
    pub fn new(value: T) -> (r: ThreadSafe<T>)
        ensures
            r.wf(),
    {
        let lock = RwLock::new(value, Ghost(|t: T| true));
        ThreadSafe { lock }
    }

    /// Run `f` over a shared view of the value and return its result.
    /// Concurrent readers may hold the value at the same time.
    pub fn read<R, F: FnOnce(&T) -> R>(&self, f: F) -> (r: R)
        requires
            self.wf(),
            forall|t: T| call_requires(f, (&t,)),
        ensures
            exists|t: T| call_ensures(f, (&t, ), r),
    {
        let handle = self.lock.acquire_read();
        let result = f(handle.borrow());
        handle.release_read();
        result
    }

    /// Run `f` over exclusive ownership of the value; the value it
    /// returns replaces the stored one, and `f`'s second result is
    /// handed back. Blocks out all other readers and writers.
    pub fn write<R, F: FnOnce(T) -> (T, R)>(&self, f: F) -> (r: R)
        requires
            self.wf(),
            forall|t: T| call_requires(f, (t,)),
        ensures
            exists|t: T, t2: T| call_ensures(f, (t,), (t2, r)),
    {
        let (value, handle) = self.lock.acquire_write();
        let (value2, result) = f(value);
        proof {
            assert(self.lock.inv(value2));
        }
        handle.release_write(value2);
        result
    }
}

} // verus!
