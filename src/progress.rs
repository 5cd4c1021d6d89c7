use vstd::prelude::*;

verus! {

/// Hands progress values to a reporting function.
pub struct Progress<F> {
    pub func: F,
}

impl<F> Progress<F> {
    pub fn new(func: F) -> (r: Progress<F>)
        ensures
            r.func == func,
    {
        Progress { func }
    }

    /// Reports one value.
    pub fn report<T>(&self, value: T)
        where
            F: Fn(T),
        requires
            call_requires(self.func, (value,)),
        ensures
            call_ensures(self.func, (value,), ()),
    {
        (self.func)(value);
    }
}

} // verus!
