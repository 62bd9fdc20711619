use vstd::prelude::*;

verus! {

/// The callbacks a task was submitted with: at most one progress callback.
pub struct TaskCallbacks<F> {
    progress_cb: Option<F>,
}

impl<F> TaskCallbacks<F> {
    pub closed spec fn spec_progress_cb(&self) -> Option<F> {
        self.progress_cb
    }

    pub fn new(progress_cb: Option<F>) -> (c: Self)
        ensures
            c.spec_progress_cb() == progress_cb,
    {
        TaskCallbacks { progress_cb }
    }

    /// No callbacks.
    pub fn empty() -> (c: Self)
        ensures
            c.spec_progress_cb() is None,
    {
        TaskCallbacks { progress_cb: None }
    }

    pub fn progress_cb(&self) -> (cb: &Option<F>)
        ensures
            *cb == self.spec_progress_cb(),
    {
        &self.progress_cb
    }
}

} // verus!
