//! The accept loop of an inbound: it takes work until it is told to stop, and ends when the work it
//! has taken is done.

use vstd::prelude::*;
use vstd::string::*;

use crate::error::{protocol_error, ProxyError, Result};

verus! {

/// The state of an accept loop.
#[derive(Debug)]
pub struct ServeLoop {
    shutting_down: bool,
    active: usize,
}

/// An accept loop as mathematical values.
#[verifier::ext_equal]
pub struct ServeView {
    pub shutting_down: bool,
    pub active: nat,
}

impl View for ServeLoop {
    type V = ServeView;

    closed spec fn view(&self) -> ServeView {
        ServeView { shutting_down: self.shutting_down, active: self.active as nat }
    }
}

impl ServeView {
    /// Whether the loop ends: it was told to stop and nothing is left to wait for.
    pub open spec fn ended(self) -> bool {
        self.shutting_down && self.active == 0
    }

    /// Whether the loop accepts, and listens for being told to stop.
    pub open spec fn accepts(self) -> bool {
        !self.shutting_down
    }

    /// Whether the loop waits for work to be done.
    pub open spec fn waits(self) -> bool {
        self.active > 0
    }
}

impl ServeLoop {
    /// A loop that has taken nothing yet.
    pub fn new() -> (r: Self)
        ensures
            r@ == (ServeView { shutting_down: false, active: 0 }),
    {
        ServeLoop { shutting_down: false, active: 0 }
    }

    /// Whether the loop ends.
    pub fn has_ended(&self) -> (r: bool)
        ensures
            r == self@.ended(),
    {
        self.shutting_down && self.active == 0
    }

    /// Whether the loop accepts.
    pub fn is_accepting(&self) -> (r: bool)
        ensures
            r == self@.accepts(),
    {
        !self.shutting_down
    }

    /// Whether the loop waits for work to be done.
    pub fn is_waiting(&self) -> (r: bool)
        ensures
            r == self@.waits(),
    {
        self.active > 0
    }

    /// Tells the loop to stop.
    pub fn on_shutdown(&mut self)
        ensures
            final(self)@ == (ServeView { shutting_down: true, ..old(self)@ }),
    {
        self.shutting_down = true;
    }

    /// Takes a piece of work.
    pub fn on_accepted(&mut self)
        requires
            old(self)@.accepts(),
            old(self)@.active < usize::MAX,
        ensures
            final(self)@ == (ServeView { active: old(self)@.active + 1, ..old(self)@ }),
    {
        self.active = self.active + 1;
    }

    /// Notes that a piece of work is done. One that broke down ends the loop with an error, which
    /// `context` introduces.
    pub fn on_task_ended(
        &mut self,
        outcome: core::result::Result<(), String>,
        context: &str,
    ) -> (r: Result<()>)
        requires
            old(self)@.waits(),
        ensures
            final(self)@ == (ServeView { active: (old(self)@.active - 1) as nat, ..old(self)@ }),
            match outcome {
                Ok(_) => r is Ok,
                Err(cause) => r matches Err(err) && err@ == protocol_error(
                    context@ + ": "@ + cause@,
                ),
            },
    {
        self.active = self.active - 1;
        match outcome {
            Ok(_) => Ok(()),
            Err(cause) => Err(
                ProxyError::protocol(
                    context.to_owned().concat(": ").concat(cause.as_str()).as_str(),
                ),
            ),
        }
    }
}

/// A loop that was told to stop takes nothing more and ends as soon as its work is done; until then
/// there is something it waits for.
pub proof fn law_shutdown_drains(state: ServeView)
    requires
        state.shutting_down,
    ensures
        !state.accepts(),
        state.ended() <==> !state.waits(),
{
}

/// A loop accepts exactly while it was not told to stop, waits exactly while work is under way, and
/// ends exactly when it was told to stop and no work is.
pub proof fn law_loop_is_told_by_its_work(state: ServeView)
    ensures
        state.accepts() <==> !state.shutting_down,
        state.waits() <==> state.active >= 1,
        state.ended() <==> !state.accepts() && !state.waits(),
{
}

} // verus!
