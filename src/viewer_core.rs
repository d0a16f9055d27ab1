//! A minimal viewer core holding one piece of state.

use vstd::prelude::*;

verus! {

/// A viewer core that remembers the last state handed to it.
pub struct CosViewerCore {
    state: Option<String>,
}

impl CosViewerCore {
    /// The state last handed to the viewer, if any.
    pub closed spec fn state(&self) -> Option<String> {
        self.state
    }

    /// A viewer with no state.
    pub fn new() -> (core: Self)
        ensures
            core.state() is None,
    {
        CosViewerCore { state: None }
    }

    /// The sum of `a` and `b`.
    pub fn add(a: i32, b: i32) -> (sum: i32)
        requires
            i32::MIN <= a + b <= i32::MAX,
        ensures
            sum == a + b,
    {
        a + b
    }

    /// Replaces the viewer's state.
    pub fn set_state(&mut self, state: String)
        ensures
            final(self).state() == Some(state),
    {
        self.state = Some(state);
    }

    /// The viewer's state, if one was set.
    pub fn get_state(&self) -> (state: Option<&String>)
        ensures
            match self.state() {
                Some(s) => state is Some && *state->Some_0 == s,
                None => state is None,
            },
    {
        match &self.state {
            Some(s) => Some(s),
            None => None,
        }
    }
}

} // verus!
