//! Polling for a key press.
//!
//! Reads never block: a read with no data available returns a count of
//! zero, and a caller that wants to wait must poll in an explicit loop
//! with its own delay.  This module provides one round of the classic
//! "press Space for more, q to quit" poll: print the prompt with a
//! spinner, attempt one single-byte read, and classify what arrived.
//! The retry-with-delay loop around it stays with the caller, which
//! performs the delay between rounds.

use vstd::prelude::*;
use vstd::string::StringSliceAdditionalSpecFns;

use crate::api::Api;
use crate::api::HostCall;
use crate::error::Error;
use crate::ffi::FfiResult;
use crate::file::stdin;
use crate::file::stdout;
use crate::file::WaitForKey;
use crate::handle::STDIN_HANDLE;
use crate::handle::STDOUT_HANDLE;

verus! {

/// The spinner byte shown in round `spin`: the characters `|`, `/`, `-`
/// and `\` in turn.
pub open spec fn spinner_byte(spin: nat) -> u8 {
    if spin % 4 == 0 {
        124u8
    } else if spin % 4 == 1 {
        47u8
    } else if spin % 4 == 2 {
        45u8
    } else {
        92u8
    }
}

/// The bytes of the prompt shown in round `spin`.
pub open spec fn prompt_seq(spin: nat) -> Seq<u8> {
    "\rPress Space for more, 'q' to quit... ".spec_bytes() + seq![spinner_byte(spin)]
}

/// The bytes that wipe the prompt line once polling is over.
pub open spec fn prompt_clear_seq() -> Seq<u8> {
    "\r                                         \r".spec_bytes()
}

/// What a key byte decides: Space asks for more, `q` or `Q` asks to
/// quit, anything else decides nothing and the poll goes on.
pub open spec fn key_decision(byte: u8) -> Option<WaitForKey> {
    if byte == 32 {
        Some(WaitForKey::More)
    } else if byte == 113 || byte == 81 {
        Some(WaitForKey::Quit)
    } else {
        None
    }
}

/// Classify one key byte by the [`key_decision`] rule.
pub fn classify_key(byte: u8) -> (r: Option<WaitForKey>)
    ensures
        r == key_decision(byte),
{
    if byte == 32 {
        Some(WaitForKey::More)
    } else if byte == 113 || byte == 81 {
        Some(WaitForKey::Quit)
    } else {
        None
    }
}

/// What one poll round decides from the whole read outcome: a read
/// error ends the poll with a decision to quit, a count of zero decides
/// nothing, and a delivered byte decides by the [`key_decision`] rule.
pub open spec fn poll_decision(outcome: Result<usize, Error>, first_byte: u8) -> Option<
    WaitForKey,
> {
    match outcome {
        Err(_) => Some(WaitForKey::Quit),
        Ok(n) => if n == 0 {
            None
        } else {
            key_decision(first_byte)
        },
    }
}

/// Decide one poll round by the [`poll_decision`] rule.
pub fn decide_poll(outcome: Result<usize, Error>, first_byte: u8) -> (r: Option<WaitForKey>)
    ensures
        r == poll_decision(outcome, first_byte),
{
    match outcome {
        Err(_) => Some(WaitForKey::Quit),
        Ok(n) => {
            if n == 0 {
                None
            } else {
                classify_key(first_byte)
            }
        },
    }
}

/// Build the prompt bytes for round `spin`.
pub fn prompt_bytes(spin: usize) -> (v: Vec<u8>)
    ensures
        v@ == prompt_seq(spin as nat),
{
    let text = "\rPress Space for more, 'q' to quit... ";
    let mut v = vstd::slice::slice_to_vec(text.as_bytes());
    let tick: u8 = if spin % 4 == 0 {
        124u8
    } else if spin % 4 == 1 {
        47u8
    } else if spin % 4 == 2 {
        45u8
    } else {
        92u8
    };
    v.push(tick);
    proof {
        assert(v@ =~= prompt_seq(spin as nat));
    }
    v
}

/// One round of waiting for a key: show the prompt for round `spin` on
/// standard output, attempt one single-byte read from standard input,
/// and decide from what arrived.
///
/// Exactly two host calls are performed — the prompt write and the
/// single-byte read — and neither touches any handle other than the two
/// reserved streams.  The decision returned is [`poll_decision`] of the
/// logged read outcome and the logged buffer byte: a decision of `None`
/// means no byte was available or the byte decided nothing (poll again
/// after a delay), and a read error ends the poll with a decision to
/// quit.
pub fn wait_for_key_step<H: Api>(host: &mut H, spin: usize) -> (r: Option<WaitForKey>)
    ensures
        exists|wr: FfiResult<(), Error>, rr: FfiResult<usize, Error>, delivered: Seq<u8>|
            final(host).log() == old(host).log().push(
                HostCall::Write(STDOUT_HANDLE, prompt_seq(spin as nat), wr),
            ).push(HostCall::Read(STDIN_HANDLE, 1, delivered, rr)) && delivered.len() == 1 && r
                == poll_decision(rr.decoded(), delivered[0]),
{
    let prompt = prompt_bytes(spin);
    let out = stdout();
    let inp = stdin();
    let prompt_outcome = out.write(host, prompt.as_slice());
    let mut buffer: Vec<u8> = Vec::new();
    buffer.push(0u8);
    let outcome = inp.read(host, &mut buffer);
    let first = buffer[0];
    let r = decide_poll(outcome, first);
    proof {
        let wr = FfiResult::<(), Error>::encoded(prompt_outcome);
        let rr = FfiResult::<usize, Error>::encoded(outcome);
        assert(host.log() == old(host).log().push(
            HostCall::Write(STDOUT_HANDLE, prompt_seq(spin as nat), wr),
        ).push(HostCall::Read(STDIN_HANDLE, 1, buffer@, rr)));
        assert(rr.decoded() == outcome);
        assert(r == poll_decision(rr.decoded(), buffer@[0]));
    }
    r
}

/// Wipe the prompt line: one write of the [`prompt_clear_seq`] bytes to
/// standard output, whatever the host answers.
pub fn wait_for_key_clear<H: Api>(host: &mut H)
    ensures
        exists|wr: FfiResult<(), Error>|
            final(host).log() == old(host).log().push(
                HostCall::Write(STDOUT_HANDLE, prompt_clear_seq(), wr),
            ),
{
    let text = "\r                                         \r";
    let out = stdout();
    let cleared = out.write(host, text.as_bytes());
    proof {
        let wr = FfiResult::<(), Error>::encoded(cleared);
        assert(host.log() == old(host).log().push(
            HostCall::Write(STDOUT_HANDLE, prompt_clear_seq(), wr),
        ));
    }
}

} // verus!
