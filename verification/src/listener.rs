use vstd::prelude::*;
use crate::net::IoAttempt;
use crate::reactor::{Change, read_change};

verus! {

/// What a readiness-driven listener task does after one accept attempt.
#[derive(PartialEq, Eq, Structural, Clone, Copy, Debug)]
pub enum ListenerPoll {
    /// A connection was taken (keep it); the task re-queued itself to try
    /// for the next one right away.
    Accepted,
    /// Nothing pending: submit `Some` change, if any, and wait.
    Wait(Option<Change>),
    /// The accept failed: report it and wait for the next readiness event.
    Failed,
}

/// A listener task of a readiness-driven task list: it is polled whenever
/// its id is in the ready list, and re-queues itself while connections keep
/// coming.
pub struct TcpListenerFuture {
    pub id: usize,
    pub registered: bool,
}

impl TcpListenerFuture {
    /// The task for a bound, non-blocking listener whose descriptor is `fd`;
    /// the descriptor doubles as the task's id.
    pub fn new(fd: usize) -> (t: TcpListenerFuture)
        ensures
            t.id == fd,
            !t.registered,
    {
        TcpListenerFuture { id: fd, registered: false }
    }

    pub fn poll(&mut self, attempt: IoAttempt, ready: &mut Vec<usize>) -> (r: ListenerPoll)
        ensures
            final(self).id == old(self).id,
            match attempt {
                IoAttempt::Done(_) => {
                    &&& r == ListenerPoll::Accepted
                    &&& !final(self).registered
                    &&& final(ready)@ == old(ready)@.push(old(self).id)
                },
                IoAttempt::WouldBlock => {
                    &&& r == ListenerPoll::Wait(
                        if old(self).registered { None } else { Some(read_change(old(self).id)) },
                    )
                    &&& final(self).registered
                    &&& final(ready)@ == old(ready)@
                },
                IoAttempt::Failed => {
                    &&& r == ListenerPoll::Failed
                    &&& final(self).registered == old(self).registered
                    &&& final(ready)@ == old(ready)@
                },
            },
    {
        match attempt {
            IoAttempt::Done(_) => {
                self.registered = false;
                ready.push(self.id);
                ListenerPoll::Accepted
            },
            IoAttempt::WouldBlock => {
                if !self.registered {
                    self.registered = true;
                    ListenerPoll::Wait(Some(Change::read(self.id)))
                } else {
                    ListenerPoll::Wait(None)
                }
            },
            IoAttempt::Failed => ListenerPoll::Failed,
        }
    }
}

} // verus!
