//! Calls that wait in the kernel.
use crate::error::Error;
use vstd::prelude::*;

verus! {

/// The notification that a message was queued to a server.
pub const EVENT_SERVER_MSG: usize = 0x1;

/// A call that waits.
#[derive(Clone, Copy, PartialEq, Eq, Structural, Debug)]
pub enum KernelFuture {
    /// Waits for a message of the server in a slot.
    ReceiveMessage { sidx: usize },
}

/// What a poll gives.
pub enum PollResult<M> {
    /// The call is over.
    Ready(Result<M, Error>),
    /// The thread goes on waiting.
    Pending,
}

/// What a poll starts with.
#[derive(Clone, Copy, PartialEq, Eq, Structural, Debug)]
pub enum PollStart {
    /// The call is over: there is no such server, or it is not the caller's.
    Failed(Error),
    /// The next message of the server is to be taken.
    Take { sidx: usize },
}

/// Threads that wait because the queue of a server was full try again, up to `limit`
/// of them.
#[derive(Clone, Copy, PartialEq, Eq, Structural, Debug)]
pub struct WakeSenders {
    pub sidx: usize,
    pub limit: usize,
}

impl KernelFuture {
    /// The slot of the server that the call waits for.
    pub open spec fn server(self) -> usize {
        match self {
            KernelFuture::ReceiveMessage { sidx } => sidx,
        }
    }

    /// Starts a poll for process `pid`. `owner` is the process of the server, where
    /// there is one.
    pub fn poll(&self, owner: Option<u8>, pid: u8) -> (r: PollStart)
        ensures
            r == (if owner == Some(pid) {
                PollStart::Take { sidx: self.server() }
            } else {
                PollStart::Failed(Error::ServerNotFound)
            }),
    {
        match self {
            KernelFuture::ReceiveMessage { sidx } => match owner {
                Some(o) => if o == pid {
                    PollStart::Take { sidx: *sidx }
                } else {
                    PollStart::Failed(Error::ServerNotFound)
                },
                None => PollStart::Failed(Error::ServerNotFound),
            },
        }
    }

    /// Ends a poll that took `message`: what it gives, and whom to wake because the
    /// queue was full and is so no longer.
    pub fn taken<M>(&self, was_full: bool, message: Option<M>, is_full: bool) -> (r: (
        PollResult<M>,
        Option<WakeSenders>,
    ))
        ensures
            match message {
                Some(m) => {
                    &&& r.0 == PollResult::Ready(Ok::<M, Error>(m))
                    &&& r.1 == (if was_full && !is_full {
                        Some(WakeSenders { sidx: self.server(), limit: usize::MAX })
                    } else {
                        None
                    })
                },
                None => r.0 is Pending && r.1 is None,
            },
    {
        match message {
            Some(m) => {
                let wake: Option<WakeSenders> = if was_full && !is_full {
                    match self {
                        KernelFuture::ReceiveMessage { sidx } => Some(
                            WakeSenders { sidx: *sidx, limit: usize::MAX },
                        ),
                    }
                } else {
                    None
                };
                (PollResult::Ready(Ok(m)), wake)
            },
            None => (PollResult::Pending, None),
        }
    }
}

} // verus!
