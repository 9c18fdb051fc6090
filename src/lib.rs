//! A container for process-wide values that are shared across cores.
//!
//! A [`Singleton`] holds its value behind a reader-writer lock and hands it out
//! only for the duration of a callback. Its value may be given up front or
//! produced on first access by an initializer that runs exactly once.
use vstd::prelude::*;
use ruspiro_lock::{RWLock, ReadLockGuard, WriteLockGuard};

pub mod lazy;

pub use lazy::LazyValue;

verus! {

#[verifier::external_type_specification]
#[verifier::external_body]
#[verifier::reject_recursive_types(T)]
pub struct ExRWLock<T: ?Sized>(RWLock<T>);

#[verifier::external_type_specification]
#[verifier::external_body]
#[verifier::reject_recursive_types(T)]
pub struct ExWriteLockGuard<'a, T: ?Sized + 'a>(WriteLockGuard<'a, T>);

#[verifier::external_type_specification]
#[verifier::external_body]
#[verifier::reject_recursive_types(T)]
pub struct ExReadLockGuard<'a, T: ?Sized + 'a>(ReadLockGuard<'a, T>);

/// Relies on RWLock::new: a released lock around `value`.
pub assume_specification<T>[ RWLock::<T>::new ](value: T) -> RWLock<T>;

/// Relies on RWLock::write: spins until it finds no reader counted and sets the
/// writer flag, then hands out a guard that clears the flag when dropped.
pub assume_specification<T: ?Sized>[ RWLock::<T>::write ](lock: &RWLock<T>) -> WriteLockGuard<'_, T>;

/// Relies on RWLock::read: spins until it finds the writer flag clear and
/// counts itself as a reader, then hands out a guard that uncounts it when
/// dropped.
pub assume_specification<T: ?Sized>[ RWLock::<T>::read ](lock: &RWLock<T>) -> ReadLockGuard<'_, T>;

/// Relies on WriteLockGuard's DerefMut: the data the guard locks, for modification.
#[verifier::external_body]
fn write_access<'b, 'a, T>(guard: &'b mut WriteLockGuard<'a, T>) -> &'b mut T {
    &mut **guard
}

/// Relies on ReadLockGuard's Deref: the data the guard locks, for reading.
#[verifier::external_body]
fn read_access<'b, 'a, T>(guard: &'b ReadLockGuard<'a, T>) -> &'b T {
    &**guard
}

/// A value shared across cores, handed out only inside a callback that holds
/// the appropriate lock.
///
/// The value is either given up front ([`Singleton::new`]) or produced on first
/// access by an initializer ([`Singleton::lazy`]), which then runs exactly once.
/// There is no reentrant locking: an exclusive access started from within
/// another access on the same singleton, or any access started from within an
/// exclusive one, deadlocks. Reads may nest once the value exists.
#[verifier::reject_recursive_types(T)]
#[verifier::reject_recursive_types(F)]
pub struct Singleton<T, F: Fn() -> T = fn() -> T> {
    /// the cell, behind a lock that admits many readers or one writer
    inner: RWLock<LazyValue<T, F>>,
    /// the cell as it was when the singleton was built
    built: Ghost<LazyValue<T, F>>,
}

impl<T, F: Fn() -> T> Singleton<T, F> {
    /// The cell as it was when the singleton was built. Its initializer is
    /// the singleton's for its whole life: no access replaces it.
    pub closed spec fn initial(self) -> LazyValue<T, F> {
        self.built@
    }

    /// A singleton that holds `value` from the start; no initializer exists.
    pub fn new(value: T) -> (r: Self)
        ensures
            r.initial().value() == Some(value),
            r.initial().initializer() is None,
            r.initial().runs() == 0,
    {
        let cell = LazyValue::with_value(value);
        let built = Ghost(cell);
        Singleton { inner: RWLock::new(cell), built }
    }

    /// A singleton whose value `init` produces on first access; `init` is
    /// not invoked here.
    pub fn lazy(init: F) -> (r: Self)
        requires
            init.requires(()),
        ensures
            r.initial().value() is None,
            r.initial().initializer() == Some(init),
            r.initial().runs() == 0,
    {
        let cell = LazyValue::with_init(init);
        let built = Ghost(cell);
        Singleton { inner: RWLock::new(cell), built }
    }

    /// Runs `f` on the value with exclusive access, producing the value first
    /// if this is the first access, and returns what `f` returns. The lock is
    /// released before returning.
    pub fn with_mut<R, G: FnOnce(&mut T) -> R>(&self, f: G) -> (r: R)
        requires
            forall|v: &mut T| f.requires((v,)),
        ensures
            exists|v: &mut T| f.ensures((v,), r),
    {
        let mut guard = self.inner.write();
        let cell = write_access(&mut guard);
        let value = cell.get_mut();
        f(value)
    }

    /// Runs `f` on the value with exclusive access, exactly as
    /// [`Singleton::with_mut`] does; kept for callers that make no
    /// distinction between reading and writing.
    pub fn take_for<R, G: FnOnce(&mut T) -> R>(&self, f: G) -> (r: R)
        requires
            forall|v: &mut T| f.requires((v,)),
        ensures
            exists|v: &mut T| f.ensures((v,), r),
    {
        self.with_mut(f)
    }

    /// Runs `f` on the value with shared access and returns what `f` returns.
    /// Once the value exists, concurrent readers do not wait for each other;
    /// the first access produces the value under exclusive access.
    pub fn with_ref<R, G: FnOnce(&T) -> R>(&self, f: G) -> (r: R)
        requires
            forall|v: T| f.requires((&v,)),
        ensures
            exists|v: T| f.ensures((&v,), r),
    {
        {
            let guard = self.inner.read();
            let cell = read_access(&guard);
            if let Some(value) = cell.try_get() {
                return f(value);
            }
        }
        let mut guard = self.inner.write();
        let cell = write_access(&mut guard);
        let value = cell.get();
        f(value)
    }
}

} // verus!
