//! How a write on the websocket ends: the bytes are handed to a task that
//! sends them, and the write completes when that task signals back.

use vstd::prelude::*;

verus! {

/// What came back from the task that sends a message on the socket.
#[derive(Debug, Clone, Copy, PartialEq, Eq)]
pub enum WriteSignal {
    /// The socket took the message.
    Sent,
    /// The socket refused the message.
    SendFailed,
    /// The task went away without signalling.
    SenderGone,
}

/// Why a write failed.
#[derive(Debug, Clone, Copy, PartialEq, Eq)]
pub enum WriteError {
    /// The sending task went away before it signalled.
    SenderGone,
}

/// The result of a write of `len` bytes, once its signal is in: the whole
/// buffer counts as written whenever the sending task signalled, whether or
/// not the socket took it; the write fails only when no signal came.
pub fn write_completion(signal: WriteSignal, len: usize) -> (r: Result<usize, WriteError>)
    ensures
        signal == WriteSignal::SenderGone ==> r == Err::<usize, WriteError>(WriteError::SenderGone),
        signal != WriteSignal::SenderGone ==> r == Ok::<usize, WriteError>(len),
{
    match signal {
        WriteSignal::Sent => Ok(len),
        WriteSignal::SendFailed => Ok(len),
        WriteSignal::SenderGone => Err(WriteError::SenderGone),
    }
}

} // verus!
