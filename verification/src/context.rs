//! The process-wide registry: what the handshake stores for the rest of
//! the process.
//!
//! The handshake is the one-time transfer of control and data from the
//! host to the application: the host hands over the call table, an
//! argument vector, and then invokes the application's entry point.  The
//! call table travels as the host value itself (any implementation of
//! [`crate::api::Api`]); everything else lands here, in a [`Context`]
//! built exactly once before any application code runs and never cleared.
//! Single assignment is enforced by ownership: there is no way to write a
//! `Context` a second time, only to read it (or to step its random
//! state).

use vstd::prelude::*;

verus! {

/// The data half of the process-wide registry: the argument vector
/// (program name already excluded) and the state of the 16-bit
/// pseudo-random generator offered to applications.
#[derive(Debug)]
pub struct Context {
    /// The arguments the host passed at the handshake, in order, without
    /// the program name.
    pub args: Vec<String>,
    /// The current state of the pseudo-random generator.
    pub rand_state: u16,
}

impl Context {
    /// Populate the registry: performed exactly once, during the
    /// handshake, before any wrapper operation runs.
    pub fn new(args: Vec<String>) -> (c: Context)
        ensures
            c.args == args,
            c.rand_state == 0,
    {
        Context { args, rand_state: 0 }
    }
}

/// Get a command line argument by zero-based index.
///
/// Index 0 is the first argument after the program name; the program
/// name itself is never returned.  An index past the end of the vector
/// is absent, not an error.
pub fn arg<'a>(ctx: &'a Context, n: usize) -> (r: Option<&'a str>)
    ensures
        n < ctx.args@.len() ==> (r matches Some(s) && s@ == ctx.args@[n as int]@),
        n >= ctx.args@.len() ==> r is None,
{
    if n < ctx.args.len() {
        Some(ctx.args[n].as_str())
    } else {
        None
    }
}

/// One step of the 16-bit linear-feedback shift register behind
/// [`rand`]: the new state, fed back from taps 0, 2, 3 and 5.
pub open spec fn next_rand(state: u16) -> u16 {
    (state >> 1) | (((state ^ (state >> 2) ^ (state >> 3) ^ (state >> 5)) & 1) << 15)
}

/// Seed the pseudo-random generator.
pub fn srand(ctx: &mut Context, seed: u16)
    ensures
        final(ctx).rand_state == seed,
        final(ctx).args == old(ctx).args,
{
    ctx.rand_state = seed;
}

/// Step the pseudo-random generator and return its new state.
pub fn rand(ctx: &mut Context) -> (r: u16)
    ensures
        r == next_rand(old(ctx).rand_state),
        final(ctx).rand_state == next_rand(old(ctx).rand_state),
        final(ctx).args == old(ctx).args,
{
    let state = ctx.rand_state;
    let bit = (state ^ (state >> 2) ^ (state >> 3) ^ (state >> 5)) & 1;
    let next = (state >> 1) | (bit << 15);
    ctx.rand_state = next;
    next
}

} // verus!
