//! Host-registered callables.
//!
//! The runtime itself executes no scripted code here; every callable a
//! program calls through the protected-call protocol is a function the
//! host registered.  The host hands the runtime one dispatcher and pushes
//! `Fn` values carrying the tokens it dispatches on.

use vstd::prelude::*;

use crate::state::State;

verus! {

/// A dispatcher for host-registered callables, the runtime's native
/// calling convention.
///
/// During a protected call the runtime hands `invoke` a borrowed handle
/// whose stack holds exactly the call's arguments, in order.  The borrow
/// is scoped to the invocation: an implementation must not retain it and
/// must not replace the handle wholesale.  It reads its argument count
/// from the stack height, leaves its results on the stack top, and
/// returns how many it left — or a message to raise, which the protected
/// call turns into a runtime-class error.  Tables may be created or
/// updated, but never freed, so the arena only grows.
pub trait Host {
    /// Runs the callable registered under the token `fid`.
    fn invoke(&self, lua: &mut State, fid: u64) -> (r: Result<usize, String>)
        requires
            old(lua)@.wf(),
        ensures
            final(lua)@.wf(),
            old(lua)@.tables.len() <= final(lua)@.tables.len(),
    ;
}

} // verus!
