//! One-time initialisation.
use vstd::prelude::*;

verus! {

/// A cell that is written once, by the first call of `call_once`, and read
/// after that.
pub struct Once<T> {
    initialized: bool,
    value: Option<T>,
}

impl<T> Once<T> {
    /// The value held, once written.
    pub closed spec fn get_spec(&self) -> Option<T> {
        self.value
    }

    /// The cell's invariant: it is marked written exactly when it holds a
    /// value.
    pub closed spec fn wf(&self) -> bool {
        self.initialized == self.value is Some
    }

    /// An empty cell.
    pub fn new() -> (r: Self)
        ensures
            r.wf(),
            r.get_spec() is None,
    {
        Once { initialized: false, value: None }
    }

    /// The value of the cell; the first call writes it with the result of
    /// `init`, later calls leave it as it is and do not call `init`.
    pub fn call_once<F: FnOnce() -> T>(&mut self, init: F) -> (r: &T)
        requires
            old(self).wf(),
            old(self).get_spec() is None ==> init.requires(()),
        ensures
            final(self).wf(),
            final(self).get_spec() == Some(*r),
            old(self).get_spec() is Some ==> final(self).get_spec() == old(self).get_spec(),
            old(self).get_spec() is None ==> init.ensures((), *r),
    {
        if !self.initialized {
            self.value = Some(init());
            self.initialized = true;
        }
        self.value.as_ref().unwrap()
    }
}

} // verus!

verus! {

/// A value computed by `init` the first time it is needed.
pub struct Lazy<T, F> {
    init: F,
    once: Once<T>,
}

impl<T, F: Fn() -> T> Lazy<T, F> {
    /// The value, once computed.
    pub closed spec fn get_spec(&self) -> Option<T> {
        self.once.get_spec()
    }

    /// The function that computes the value.
    pub closed spec fn init_fn(&self) -> F {
        self.init
    }

    /// The invariant.
    pub closed spec fn wf(&self) -> bool {
        self.once.wf()
    }

    /// A value to be computed by `init` when first needed.
    pub fn new(init: F) -> (r: Self)
        ensures
            r.wf(),
            r.get_spec() is None,
            r.init_fn() == init,
    {
        Lazy { init, once: Once::new() }
    }

    /// The value: computed by the first call, the same on every later call.
    pub fn force(&mut self) -> (r: &T)
        requires
            old(self).wf(),
            old(self).get_spec() is None ==> old(self).init_fn().requires(()),
        ensures
            final(self).wf(),
            final(self).init_fn() == old(self).init_fn(),
            final(self).get_spec() == Some(*r),
            old(self).get_spec() is Some ==> final(self).get_spec() == old(self).get_spec(),
            old(self).get_spec() is None ==> old(self).init_fn().ensures((), *r),
    {
        self.once.call_once(&self.init)
    }
}


/// Once a cell is written it keeps its first value: if a first `call_once`
/// left the cell holding `r1` (its result), a second call, whatever its
/// initialiser, returns `r1` again and leaves the cell as it was, and its
/// initialiser is not called (its contract asks nothing of it then).
pub proof fn lemma_once_first_value_stays<T>(
    before: Option<T>,
    after_first: Option<T>,
    r1: T,
    after_second: Option<T>,
    r2: T,
)
    requires
        after_first == Some(r1),
        before is Some ==> after_first == before,
        after_second == Some(r2),
        after_first is Some ==> after_second == after_first,
    ensures
        r2 == r1,
        after_second == after_first,
        before is Some ==> r1 == before->Some_0,
{
}

} // verus!
