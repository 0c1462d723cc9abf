use vstd::prelude::*;
use crate::reactor::{Change, read_change};

verus! {

/// How a non-blocking socket call came out.
#[derive(PartialEq, Eq, Structural, Clone, Copy, Debug)]
pub enum IoAttempt {
    /// It succeeded; for a read, with this many bytes.
    Done(usize),
    /// It would have blocked: nothing to do yet.
    WouldBlock,
    /// It failed with another error.
    Failed,
}

/// Arming read interest once per future: the first call asks for the
/// registration (and marks it made), later calls ask for nothing.
pub open spec fn arm_step(registered: bool, fd: usize) -> (bool, Option<Change>) {
    if registered {
        (true, None)
    } else {
        (true, Some(read_change(fd)))
    }
}

/// What polling an accept asks for.
#[derive(PartialEq, Eq, Structural, Clone, Copy, Debug)]
pub enum AcceptPoll {
    /// A connection was accepted: the future is done.
    Ready,
    /// No connection yet, or a transient error (`failed`, to be reported):
    /// submit `arm` if it is there, then park. The listener is never torn
    /// down.
    Pending { arm: Option<Change>, failed: bool },
}

/// The state of a future for the next connection on a listening socket.
pub struct Accept {
    fd: usize,
    registered: bool,
}

impl View for Accept {
    type V = (usize, bool);

    /// The listener's descriptor and whether read interest is armed.
    closed spec fn view(&self) -> (usize, bool) {
        (self.fd, self.registered)
    }
}

/// One poll of an accept whose socket call came out as `attempt`.
pub open spec fn accept_step(s: (usize, bool), attempt: IoAttempt) -> ((usize, bool), AcceptPoll) {
    match attempt {
        IoAttempt::Done(_) => (s, AcceptPoll::Ready),
        IoAttempt::WouldBlock => {
            let (registered, arm) = arm_step(s.1, s.0);
            ((s.0, registered), AcceptPoll::Pending { arm, failed: false })
        },
        IoAttempt::Failed => {
            let (registered, arm) = arm_step(s.1, s.0);
            ((s.0, registered), AcceptPoll::Pending { arm, failed: true })
        },
    }
}

impl Accept {
    pub fn new(fd: usize) -> (a: Accept)
        ensures
            a@ == (fd, false),
    {
        Accept { fd, registered: false }
    }

    /// Asks for read interest in the listener the first time only.
    fn arm(&mut self) -> (c: Option<Change>)
        ensures
            (final(self)@.1, c) == arm_step(old(self)@.1, old(self)@.0),
            final(self)@.0 == old(self)@.0,
    {
        if !self.registered {
            self.registered = true;
            Some(Change::read(self.fd))
        } else {
            None
        }
    }

    pub fn poll(&mut self, attempt: IoAttempt) -> (r: AcceptPoll)
        ensures
            (final(self)@, r) == accept_step(old(self)@, attempt),
    {
        match attempt {
            IoAttempt::Done(_) => AcceptPoll::Ready,
            IoAttempt::WouldBlock => AcceptPoll::Pending { arm: self.arm(), failed: false },
            // Transient errors (a connection aborted before it was taken): report
            // and re-arm rather than tearing the listener down.
            IoAttempt::Failed => AcceptPoll::Pending { arm: self.arm(), failed: true },
        }
    }
}

/// What polling a read asks for.
#[derive(PartialEq, Eq, Structural, Clone, Copy, Debug)]
pub enum ReadPoll {
    /// The read filled this many bytes (0: the peer closed the connection).
    Done(usize),
    /// The read failed: the future is done with the error.
    Failed,
    /// Nothing to read yet: submit `arm` if it is there, then park.
    Pending(Option<Change>),
}

/// The state of a future for one read on a connected socket.
pub struct ReadFut {
    fd: usize,
    registered: bool,
}

impl View for ReadFut {
    type V = (usize, bool);

    /// The socket's descriptor and whether read interest is armed.
    closed spec fn view(&self) -> (usize, bool) {
        (self.fd, self.registered)
    }
}

/// One poll of a read whose socket call came out as `attempt`.
pub open spec fn read_step(s: (usize, bool), attempt: IoAttempt) -> ((usize, bool), ReadPoll) {
    match attempt {
        IoAttempt::Done(n) => (s, ReadPoll::Done(n)),
        IoAttempt::WouldBlock => {
            let (registered, arm) = arm_step(s.1, s.0);
            ((s.0, registered), ReadPoll::Pending(arm))
        },
        IoAttempt::Failed => (s, ReadPoll::Failed),
    }
}

impl ReadFut {
    pub fn new(fd: usize) -> (r: ReadFut)
        ensures
            r@ == (fd, false),
    {
        ReadFut { fd, registered: false }
    }

    pub fn poll(&mut self, attempt: IoAttempt) -> (r: ReadPoll)
        ensures
            (final(self)@, r) == read_step(old(self)@, attempt),
    {
        match attempt {
            IoAttempt::Done(n) => ReadPoll::Done(n),
            IoAttempt::WouldBlock => {
                if !self.registered {
                    self.registered = true;
                    ReadPoll::Pending(Some(Change::read(self.fd)))
                } else {
                    ReadPoll::Pending(None)
                }
            },
            IoAttempt::Failed => ReadPoll::Failed,
        }
    }
}

/// What an echo task does with the outcome of one read.
#[derive(PartialEq, Eq, Structural, Clone, Copy, Debug)]
pub enum EchoStep {
    /// The peer closed the connection: the task ends.
    Closed,
    /// Write back the first `n` bytes of the buffer, then read again.
    Echo(usize),
    /// The read failed: report it and end the task.
    Stop,
}

/// Reads `Some(n)` bytes, or `None` when the read failed.
pub fn echo_step(read: Option<usize>) -> (s: EchoStep)
    ensures
        s == (match read {
            Some(0) => EchoStep::Closed,
            Some(n) => EchoStep::Echo(n),
            None => EchoStep::Stop,
        }),
{
    match read {
        Some(0) => EchoStep::Closed,
        Some(n) => EchoStep::Echo(n),
        None => EchoStep::Stop,
    }
}

/// An accept and a read each ask for read interest at most once: a pending
/// poll leaves the interest armed, and an armed future never asks again.
pub proof fn law_socket_futures_arm_once(s: (usize, bool), first: IoAttempt, later: IoAttempt)
    ensures
        accept_step(s, first).1 is Pending ==> accept_step(s, first).0.1,
        read_step(s, first).1 is Pending ==> read_step(s, first).0.1,
        s.1 ==> match accept_step(s, later).1 {
            AcceptPoll::Pending { arm, failed: _ } => arm is None,
            AcceptPoll::Ready => true,
        },
        s.1 ==> !(read_step(s, later).1 matches ReadPoll::Pending(Some(_))),
        accept_step(s, first).0.0 == s.0 && read_step(s, first).0.0 == s.0,
{
}

/// A listener survives errors: whatever a socket call did, an accept is
/// either done with a connection or still pending.
pub proof fn law_accept_survives_errors(s: (usize, bool))
    ensures
        accept_step(s, IoAttempt::Failed).1 is Pending,
        accept_step(s, IoAttempt::WouldBlock).1 is Pending,
        forall|n: usize| #[trigger] accept_step(s, IoAttempt::Done(n)).1 == AcceptPoll::Ready,
{
}

/// What a read's poll answers, whether or not its read interest is armed: a
/// read that returned `n` bytes (0: the peer closed) completes with `n`; a
/// failed read completes with the failure; only a read that would block
/// parks, asking for read interest on its own descriptor if and only if it
/// has not asked before. A completed poll leaves the future's state as it
/// was.
pub proof fn law_read_completes_unless_it_would_block(s: (usize, bool), n: usize)
    ensures
        read_step(s, IoAttempt::Done(n)) == (s, ReadPoll::Done(n)),
        read_step(s, IoAttempt::Failed) == (s, ReadPoll::Failed),
        read_step(s, IoAttempt::WouldBlock).0 == (s.0, true),
        read_step(s, IoAttempt::WouldBlock).1 == ReadPoll::Pending(
            if s.1 { None } else { Some(read_change(s.0)) },
        ),
{
}

/// What an accept's poll answers, whether or not its read interest is
/// armed: a taken connection completes it; anything else parks it, failures
/// flagged for reporting, asking for read interest on the listener if and
/// only if it has not asked before.
pub proof fn law_accept_completes_only_with_a_connection(s: (usize, bool), n: usize, attempt: IoAttempt)
    ensures
        accept_step(s, IoAttempt::Done(n)) == (s, AcceptPoll::Ready),
        !(attempt is Done) ==> accept_step(s, attempt) == (
            (s.0, true),
            AcceptPoll::Pending {
                arm: if s.1 { None } else { Some(read_change(s.0)) },
                failed: attempt is Failed,
            },
        ),
{
}

} // verus!
