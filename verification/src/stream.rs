use vstd::prelude::*;
use crate::net::IoAttempt;
use crate::reactor::{Change, read_change};

verus! {

/// What a readiness-driven echo task does after one read attempt.
#[derive(PartialEq, Eq, Structural, Clone, Copy, Debug)]
pub enum StreamPoll {
    /// The peer closed the connection: the task is done.
    Closed,
    /// Write back the first `n` bytes read; the task re-queued itself to
    /// read again right away.
    Echo(usize),
    /// Nothing to read: submit `Some` change, if any, and wait.
    Wait(Option<Change>),
    /// The read failed: report it; the task is done.
    Failed,
}

/// An echo task of a readiness-driven task list, for one connection.
pub struct TcpStreamFuture {
    pub id: usize,
    pub registered: bool,
}

impl TcpStreamFuture {
    /// The task for a non-blocking connection whose descriptor is `fd`; the
    /// descriptor doubles as the task's id.
    pub fn new(fd: usize) -> (t: TcpStreamFuture)
        ensures
            t.id == fd,
            !t.registered,
    {
        TcpStreamFuture { id: fd, registered: false }
    }

    pub fn poll(&mut self, attempt: IoAttempt, ready: &mut Vec<usize>) -> (r: StreamPoll)
        ensures
            final(self).id == old(self).id,
            match attempt {
                IoAttempt::Done(0) => {
                    &&& r == StreamPoll::Closed
                    &&& final(self).registered == old(self).registered
                    &&& final(ready)@ == old(ready)@
                },
                IoAttempt::Done(n) => {
                    &&& r == StreamPoll::Echo(n)
                    &&& !final(self).registered
                    &&& final(ready)@ == old(ready)@.push(old(self).id)
                },
                IoAttempt::WouldBlock => {
                    &&& r == StreamPoll::Wait(
                        if old(self).registered { None } else { Some(read_change(old(self).id)) },
                    )
                    &&& final(self).registered
                    &&& final(ready)@ == old(ready)@
                },
                IoAttempt::Failed => {
                    &&& r == StreamPoll::Failed
                    &&& final(self).registered == old(self).registered
                    &&& final(ready)@ == old(ready)@
                },
            },
    {
        match attempt {
            IoAttempt::Done(0) => StreamPoll::Closed,
            IoAttempt::Done(n) => {
                self.registered = false;
                ready.push(self.id);
                StreamPoll::Echo(n)
            },
            IoAttempt::WouldBlock => {
                if !self.registered {
                    self.registered = true;
                    StreamPoll::Wait(Some(Change::read(self.id)))
                } else {
                    StreamPoll::Wait(None)
                }
            },
            IoAttempt::Failed => StreamPoll::Failed,
        }
    }
}

} // verus!
