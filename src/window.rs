use vstd::prelude::*;

verus! {

/// What an event handler asks of the window loop after an event.
#[derive(Debug, Clone, Copy, PartialEq, Eq, Structural)]
pub enum ControlFlow {
    Continue,
    Quit,
}

impl ControlFlow {
    /// Whether the window should be closed once all events were handled.
    pub fn should_close(&self) -> (r: bool)
        ensures
            r == (*self == ControlFlow::Quit),
    {
        match self {
            ControlFlow::Quit => true,
            ControlFlow::Continue => false,
        }
    }
}

} // verus!
