//! A value that is built on first access, at most once.
use vstd::prelude::*;
use ruspiro_lock::Spinlock;

verus! {

#[verifier::external_type_specification]
#[verifier::external_body]
pub struct ExSpinlock(Spinlock);

/// Relies on Spinlock::new: a lock that starts released.
pub assume_specification[ Spinlock::new ]() -> Spinlock;

/// Relies on Spinlock::aquire: returns once this core holds the lock.
pub assume_specification[ Spinlock::aquire ](lock: &Spinlock);

/// Relies on Spinlock::release: gives the lock up.
pub assume_specification[ Spinlock::release ](lock: &Spinlock);

/// A cell that holds a value of `T`, either from the start or produced by its
/// initializer `F` on first access.
///
/// The initializer is invoked only to fill an empty slot, so at most once over
/// the cell's lifetime, and once the slot is populated it never becomes empty
/// again.
#[verifier::reject_recursive_types(T)]
#[verifier::reject_recursive_types(F)]
pub struct LazyValue<T, F: Fn() -> T> {
    /// the value, once it exists
    inner: Option<T>,
    /// what produces the value on first access
    init: Option<F>,
    /// how many times the slot has been filled after construction
    runs: Ghost<nat>,
    /// serialises the one-time population of `inner`
    lock: Spinlock,
}

/// Populates an empty slot and counts the fill.
fn fill<T>(slot: &mut Option<T>, runs: &mut Ghost<nat>, value: T)
    ensures
        *final(slot) == Some(value),
        final(runs)@ == old(runs)@ + 1,
    no_unwind
{
    *slot = Some(value);
    *runs = Ghost(runs@ + 1);
}

/// The value held by a slot that is known to be populated.
fn populated_mut<T>(slot: &mut Option<T>) -> (r: &mut T)
    requires
        *old(slot) is Some,
    ensures
        Some(*r) == *old(slot),
        *final(slot) == Some(*final(r)),
    no_unwind
{
    match slot {
        Some(v) => v,
        None => unreached(),
    }
}

impl<T, F: Fn() -> T> LazyValue<T, F> {
    /// The value in the slot, if it has been populated.
    pub closed spec fn value(self) -> Option<T> {
        self.inner
    }

    /// The initializer the cell was built with, if any.
    pub closed spec fn initializer(self) -> Option<F> {
        self.init
    }

    /// How many times the slot has been filled after construction, by
    /// [`LazyValue::set`] or by an access that ran the initializer.
    pub closed spec fn runs(self) -> nat {
        self.runs@
    }

    /// Every cell satisfies this: an eager cell holds its value and is never
    /// filled again; a lazy cell has been filled, once, exactly when its slot
    /// is populated.
    pub open spec fn well_formed(self) -> bool {
        &&& self.runs() <= 1
        &&& self.initializer() is None ==> self.value() is Some && self.runs() == 0
        &&& self.initializer() is Some ==> (self.value() is Some <==> self.runs() == 1)
        &&& self.initializer() matches Some(f) ==> f.requires(())
    }

    /// `v` is a value that the initializer may produce.
    pub open spec fn produces(self, v: T) -> bool {
        self.initializer() matches Some(f) && f.ensures((), v)
    }

    /// `v` is what an access to this cell finds: the value in the slot, or
    /// else one that the initializer produces.
    pub open spec fn first_value(self, v: T) -> bool {
        match self.value() {
            Some(x) => v == x,
            None => self.produces(v),
        }
    }

    /// `next` is this cell after one access: the slot is populated, it was
    /// filled iff it was empty, and the initializer is kept.
    pub open spec fn forced_to(self, next: Self) -> bool {
        &&& next.value() is Some
        &&& next.initializer() == self.initializer()
        &&& next.runs() == if self.value() is Some { self.runs() } else { self.runs() + 1 }
    }

    /// `next` is this cell after one read-only access: forced, and holding
    /// what that access found.
    pub open spec fn read_to(self, next: Self) -> bool {
        &&& self.forced_to(next)
        &&& self.first_value(next.value()->0)
    }

    #[verifier::type_invariant]
    spec fn inv(self) -> bool {
        self.well_formed()
    }

    /// A cell that already holds `value` and has no initializer.
    pub fn with_value(value: T) -> (r: Self)
        ensures
            r.value() == Some(value),
            r.initializer() is None,
            r.runs() == 0,
    {
        LazyValue { inner: Some(value), init: None, runs: Ghost(0), lock: Spinlock::new() }
    }

    /// An empty cell whose value `init` will produce on first access.
    pub fn with_init(init: F) -> (r: Self)
        requires
            init.requires(()),
        ensures
            r.value() is None,
            r.initializer() == Some(init),
            r.runs() == 0,
    {
        LazyValue { inner: None, init: Some(init), runs: Ghost(0), lock: Spinlock::new() }
    }

    /// Populates the slot with `value` if it is empty; a populated slot is
    /// never overwritten, and `value` is handed back instead.
    pub fn set(&mut self, value: T) -> (r: Result<(), T>)
        ensures
            old(self).value() is Some ==> r == Err::<(), T>(value) && *final(self) == *old(self),
            old(self).value() is None ==> r is Ok && final(self).value() == Some(value)
                && final(self).runs() == old(self).runs() + 1
                && final(self).initializer() == old(self).initializer(),
    {
        proof { use_type_invariant(&*self); }
        if self.inner.is_some() {
            return Err(value);
        }
        fill(&mut self.inner, &mut self.runs, value);
        Ok(())
    }

    /// Runs the initializer under the cell's lock and stores its value,
    /// unless the slot was populated meanwhile. The attempt to store never
    /// finds the slot populated: that is proved, not checked at run time.
    pub fn init(&mut self)
        ensures
            old(self).forced_to(*final(self)),
            old(self).first_value(final(self).value()->0),
            old(self).value() is Some ==> *final(self) == *old(self),
    {
        proof { use_type_invariant(&*self); }
        self.lock.aquire();
        if self.inner.is_none() {
            let value = match &self.init {
                Some(f) => f(),
                None => unreached(),
            };
            let outcome = self.set(value);
            proof { assert(outcome is Ok); }
        }
        self.lock.release();
    }

    /// The value, if the slot is already populated; no initializer runs.
    pub fn try_get(&self) -> (r: Option<&T>)
        ensures
            r is None <==> self.value() is None,
            r matches Some(v) ==> self.value() == Some(*v),
    {
        match &self.inner {
            Some(v) => Some(v),
            None => None,
        }
    }

    /// The value, produced by the initializer if this is the first access.
    pub fn get(&mut self) -> (r: &T)
        ensures
            old(self).read_to(*final(self)),
            final(self).value() == Some(*r),
    {
        if self.inner.is_none() {
            self.init();
        }
        proof { use_type_invariant(&*self); }
        match &self.inner {
            Some(v) => v,
            None => unreached(),
        }
    }

    /// The value for modification, produced by the initializer if this is
    /// the first access. What is written through the result is the cell's
    /// value afterwards.
    pub fn get_mut(&mut self) -> (r: &mut T)
        ensures
            old(self).forced_to(*final(self)),
            old(self).first_value(*r),
            final(self).value() == Some(*final(r)),
    {
        if self.inner.is_none() {
            self.init();
        }
        proof { use_type_invariant(&*self); }
        populated_mut(&mut self.inner)
    }
}

/// Whatever the order in which accesses reach a cell, each one forces it
/// once: a cell that starts empty has been filled exactly once after any
/// number of accesses, and never again; the slot stays populated. An access
/// calls the initializer only on the path that fills the empty slot.
pub proof fn lemma_filled_once<T, F: Fn() -> T>(cells: Seq<LazyValue<T, F>>)
    requires
        cells.len() > 0,
        cells[0].well_formed(),
        forall|i: int| 0 <= i < cells.len() - 1 ==> #[trigger] cells[i].forced_to(cells[i + 1]),
    ensures
        forall|i: int| 1 <= i < cells.len() ==> #[trigger] cells[i].value() is Some,
        forall|i: int|
            1 <= i < cells.len() ==> #[trigger] cells[i].runs() == if cells[0].value() is Some {
                cells[0].runs()
            } else {
                1
            },
        forall|i: int| 0 <= i < cells.len() ==> #[trigger] cells[i].runs() <= 1,
    decreases cells.len(),
{
    if cells.len() > 1 {
        let prefix = cells.drop_last();
        assert forall|i: int| 0 <= i < prefix.len() - 1 implies #[trigger] prefix[i].forced_to(
            prefix[i + 1],
        ) by {
            assert(cells[i].forced_to(cells[i + 1]));
        }
        lemma_filled_once(prefix);
        let n = cells.len() - 1;
        let k = n - 1;
        assert(cells[k].forced_to(cells[k + 1]));
        assert(prefix[n - 1] == cells[n - 1]);
        assert forall|i: int| 1 <= i < cells.len() implies #[trigger] cells[i].value() is Some by {
            if i < n {
                assert(prefix[i] == cells[i]);
            }
        }
        assert forall|i: int| 1 <= i < cells.len() implies #[trigger] cells[i].runs() == if cells[0].value() is Some {
            cells[0].runs()
        } else {
            1
        } by {
            if i < n {
                assert(prefix[i] == cells[i]);
            } else if n > 1 {
                assert(prefix[n - 1].value() is Some);
            }
        }
        assert forall|i: int| 0 <= i < cells.len() implies #[trigger] cells[i].runs() <= 1 by {
            if i < n {
                assert(prefix[i] == cells[i]);
            }
        }
    }
}

/// Once a cell has been accessed, read-only accesses keep finding one and the
/// same value: the one it held from the start, or else the one its first
/// access produced.
pub proof fn lemma_reads_keep_value<T, F: Fn() -> T>(cells: Seq<LazyValue<T, F>>)
    requires
        cells.len() > 1,
        forall|i: int| 0 <= i < cells.len() - 1 ==> #[trigger] cells[i].read_to(cells[i + 1]),
    ensures
        forall|i: int| 1 <= i < cells.len() ==> #[trigger] cells[i].value() == cells[1].value(),
        cells[0].value() is Some ==> cells[1].value() == cells[0].value(),
    decreases cells.len(),
{
    let z: int = 0;
    assert(cells[z].read_to(cells[z + 1]));
    if cells.len() > 2 {
        let prefix = cells.drop_last();
        assert forall|i: int| 0 <= i < prefix.len() - 1 implies #[trigger] prefix[i].read_to(
            prefix[i + 1],
        ) by {
            assert(cells[i].read_to(cells[i + 1]));
        }
        lemma_reads_keep_value(prefix);
        let k = cells.len() - 2;
        assert(cells[k].read_to(cells[k + 1]));
        assert(prefix[k] == cells[k]);
        assert forall|i: int| 1 <= i < cells.len() implies #[trigger] cells[i].value() == cells[1].value() by {
            if i <= k {
                assert(prefix[i] == cells[i]);
            }
        }
    }
}

/// Every access after the first finds exactly the value that the access
/// before it left in the cell, changes made through [`LazyValue::get_mut`]
/// included: there are no stale reads.
pub proof fn lemma_accesses_see_latest<T, F: Fn() -> T>(
    cells: Seq<LazyValue<T, F>>,
    seen: Seq<T>,
)
    requires
        cells.len() == seen.len() + 1,
        forall|i: int|
            0 <= i < seen.len() ==> #[trigger] cells[i].forced_to(cells[i + 1])
                && cells[i].first_value(seen[i]),
    ensures
        forall|i: int| 1 <= i < seen.len() ==> cells[i].value() == Some(#[trigger] seen[i]),
{
    assert forall|i: int| 1 <= i < seen.len() implies cells[i].value() == Some(#[trigger] seen[i]) by {
        let k = i - 1;
        assert(cells[k].forced_to(cells[k + 1]));
        assert(cells[i].forced_to(cells[i + 1]) && cells[i].first_value(seen[i]));
    }
}

/// A cell built with its value is never filled again, so it never runs an
/// initializer, however often it is accessed.
pub proof fn lemma_eager_never_filled<T, F: Fn() -> T>(cells: Seq<LazyValue<T, F>>)
    requires
        cells.len() > 0,
        cells[0].well_formed(),
        cells[0].initializer() is None,
        forall|i: int| 0 <= i < cells.len() - 1 ==> #[trigger] cells[i].forced_to(cells[i + 1]),
    ensures
        forall|i: int| 0 <= i < cells.len() ==> #[trigger] cells[i].runs() == 0,
{
    lemma_filled_once(cells);
}

} // verus!
