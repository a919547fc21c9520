//! The per-listener accept loop's decision core, and the start-up rule.
//!
//! One accept loop runs per listening socket.  The host performs the
//! accepts; each outcome is handed to `accept_step`, which registers a
//! successful connection and says whether a session must be spawned.  A
//! failed accept is transient: the loop keeps listening.  At start-up,
//! `plan_accept_loops` refuses to run with no listening socket at all.

use vstd::prelude::*;
use crate::registry::{Address, Registry};

verus! {

/// The outcome of one accept on a listening socket: a new connection
/// (its peer address and the token under which the host keeps its
/// handle), or a transient failure.
#[derive(Clone, Copy, PartialEq, Eq, Structural, Debug)]
pub enum AcceptEvent {
    Accepted(Address, u64),
    Failed,
}

/// What the host must do after one accept: spawn the session loop for a
/// newly registered peer, or simply keep listening.
#[derive(Clone, Copy, PartialEq, Eq, Structural, Debug)]
pub enum AcceptAction {
    RunSession(Address),
    KeepListening,
}

/// One step of the accept loop.  A successful accept registers the
/// connection (TCP yields a fresh address/port pair, so the address must
/// be absent) and asks for its session to be spawned; a failed accept
/// leaves the registry untouched and the loop listening.
pub fn accept_step(reg: &mut Registry, event: AcceptEvent) -> (r: AcceptAction)
    requires
        old(reg).inv(),
        event matches AcceptEvent::Accepted(a, h) ==> !old(reg)@.contains_key(a),
    ensures
        final(reg).inv(),
        match event {
            AcceptEvent::Accepted(a, h) => final(reg)@ == old(reg)@.insert(a, h) && r
                == AcceptAction::RunSession(a),
            AcceptEvent::Failed => final(reg)@ == old(reg)@ && r == AcceptAction::KeepListening,
        },
{
    match event {
        AcceptEvent::Accepted(a, h) => {
            reg.insert(a, h);
            AcceptAction::RunSession(a)
        },
        AcceptEvent::Failed => AcceptAction::KeepListening,
    }
}

/// Start-up refused: not one listening address could be bound, so no
/// accept loop can run.
#[derive(Clone, Copy, PartialEq, Eq, Structural, Debug)]
pub enum StartError {
    NoListeners,
}

/// How many accept loops to run: one per bound listening socket.  With
/// no listening socket the relay refuses to start; with listeners but
/// no peers yet it runs normally (broadcasts are simply no-ops).
pub fn plan_accept_loops(n_listeners: usize) -> (r: Result<usize, StartError>)
    ensures
        n_listeners == 0 ==> r == Err::<usize, StartError>(StartError::NoListeners),
        n_listeners > 0 ==> r == Ok::<usize, StartError>(n_listeners),
{
    if n_listeners == 0 {
        Err(StartError::NoListeners)
    } else {
        Ok(n_listeners)
    }
}

} // verus!
