//! What the session is asked to do over its D-Bus interface.

use vstd::prelude::*;

verus! {

/// How the running session is to end.
#[derive(Debug, Clone, Copy, PartialEq, Eq, Structural)]
pub enum SessionRequest {
    Exit,
    Restart,
}

/// The object that serves the session's interface; `session_tx` is its way to the session.
pub struct SessionService<T> {
    pub session_tx: T,
}

impl<T> SessionService<T> {
    /// The request to send when a caller asks the session to exit.
    pub fn exit(&mut self) -> (r: SessionRequest)
        ensures
            r == SessionRequest::Exit,
            *final(self) == *old(self),
    {
        SessionRequest::Exit
    }

    /// The request to send when a caller asks the session to restart.
    pub fn restart(&self) -> (r: SessionRequest)
        ensures
            r == SessionRequest::Restart,
    {
        SessionRequest::Restart
    }
}

} // verus!
