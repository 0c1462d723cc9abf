use vstd::prelude::*;
use std::collections::HashMap;

verus! {

/// The kernel event filter a registration asks for.
#[derive(PartialEq, Eq, Structural, Clone, Copy, Debug)]
pub enum Filter {
    /// A kernel timer (`EVFILT_TIMER`) whose `data` is a delay in milliseconds.
    Timer,
    /// Readability of a file descriptor (`EVFILT_READ`).
    Read,
}

/// One change record handed to the kernel event queue. Every change adds and
/// enables its registration; `oneshot` asks the kernel to drop it after its
/// first event, `clear` to reset its state after each delivery.
#[derive(PartialEq, Eq, Structural, Clone, Copy, Debug)]
pub struct Change {
    pub ident: usize,
    pub filter: Filter,
    pub oneshot: bool,
    pub clear: bool,
    pub data: isize,
}

/// The change that arms a one-shot timer of `millis` milliseconds on
/// `ident`. The delay is stored as the kernel's signed word, truncated as
/// `as` truncates.
pub open spec fn timer_change(ident: usize, millis: u128) -> Change {
    Change { ident, filter: Filter::Timer, oneshot: true, clear: false, data: millis as isize }
}

/// The change that registers lasting read interest in `ident`.
pub open spec fn read_change(ident: usize) -> Change {
    Change { ident, filter: Filter::Read, oneshot: false, clear: true, data: 0 }
}

impl Change {
    /// A one-shot timer that fires once after `millis` milliseconds. Without
    /// `oneshot` a kernel timer is periodic and would keep firing after its
    /// task is gone.
    pub fn timer(ident: usize, millis: u128) -> (c: Change)
        ensures
            c == timer_change(ident, millis),
    {
        Change { ident, filter: Filter::Timer, oneshot: true, clear: false, data: millis as isize }
    }

    /// Edge-style read interest in `ident`: it stays registered and its
    /// state is cleared after each delivery.
    pub fn read(ident: usize) -> (c: Change)
        ensures
            c == read_change(ident),
    {
        Change { ident, filter: Filter::Read, oneshot: false, clear: true, data: 0 }
    }
}

/// The reactor's table: for each registered ident, the waker of the task
/// waiting on it and whether the kernel drops the registration after its
/// first event.
pub struct ReactorState<W> {
    pub kq: i32,
    pub wakers: Map<usize, (W, bool)>,
}

/// Delivering a batch of fired idents, in order: each ident with a
/// registration wakes its waker; a one-shot registration is dropped once it
/// has fired, as the kernel drops it. Returns the table afterwards and the
/// registrations woken, in order.
pub open spec fn fire<W>(wakers: Map<usize, (W, bool)>, idents: Seq<usize>) -> (Map<usize, (W, bool)>, Seq<(W, bool)>)
    decreases idents.len(),
{
    if idents.len() == 0 {
        (wakers, Seq::empty())
    } else {
        let (m, woken) = fire(wakers, idents.drop_last());
        let id = idents.last();
        if m.contains_key(id) {
            (if m[id].1 { m.remove(id) } else { m }, woken.push(m[id]))
        } else {
            (m, woken)
        }
    }
}

/// The idents a `kevent` wait reported: `None` when the call failed
/// (returned -1), otherwise the first `nevents` entries of the buffer.
pub fn fired_idents(buffer: &[usize], nevents: i32) -> (r: Option<Vec<usize>>)
    requires
        -1 <= nevents <= buffer@.len(),
    ensures
        nevents == -1 ==> r is None,
        nevents != -1 ==> r is Some && r->0@ == buffer@.take(nevents as int),
{
    if nevents == -1 {
        return None;
    }
    let n = nevents as usize;
    let mut idents: Vec<usize> = Vec::new();
    let mut i: usize = 0;
    while i < n
        invariant
            n == nevents,
            n <= buffer@.len(),
            i <= n,
            idents@ == buffer@.take(i as int),
        decreases n - i,
    {
        idents.push(buffer[i]);
        i = i + 1;
        assert(idents@ =~= buffer@.take(i as int));
    }
    Some(idents)
}

/// The readiness side of the runtime: one kernel event queue and the table
/// from idents registered on it to the wakers of the tasks waiting on them.
pub struct Reactor<W> {
    pub kq: i32,
    wakers: HashMap<usize, (W, bool)>,
}

impl<W> View for Reactor<W> {
    type V = ReactorState<W>;

    closed spec fn view(&self) -> ReactorState<W> {
        ReactorState { kq: self.kq, wakers: self.wakers@ }
    }
}

impl<W> Reactor<W> {
    /// A reactor over the kernel event queue `kq`, with nothing registered.
    pub fn new(kq: i32) -> (r: Reactor<W>)
        ensures
            r@.kq == kq,
            r@.wakers == Map::<usize, (W, bool)>::empty(),
    {
        Reactor { kq, wakers: HashMap::new() }
    }

    /// Records `waker` for the change just submitted to the kernel, whose
    /// `kevent` call returned `status`. A failed submission (-1) records
    /// nothing; a successful one replaces any earlier waker for the ident.
    pub fn register(&mut self, change: Change, waker: W, status: i32) -> (ok: bool)
        ensures
            ok == (status != -1),
            final(self)@.kq == old(self)@.kq,
            final(self)@.wakers == (if ok {
                old(self)@.wakers.insert(change.ident, (waker, change.oneshot))
            } else {
                old(self)@.wakers
            }),
    {
        if status == -1 {
            return false;
        }
        self.wakers.insert(change.ident, (waker, change.oneshot));
        true
    }
}

impl<W: Clone> Reactor<W> {
    /// Delivers the idents of a wait: returns, in order, the wakers to wake
    /// (see `fire`). A one-shot registration hands over its waker; a lasting
    /// one stays in the table and hands over a clone.
    pub fn fired(&mut self, idents: &Vec<usize>) -> (woken: Vec<W>)
        ensures
            final(self)@.kq == old(self)@.kq,
            final(self)@.wakers == fire(old(self)@.wakers, idents@).0,
            woken@.len() == fire(old(self)@.wakers, idents@).1.len(),
            forall|i: int|
                0 <= i < woken@.len() ==> {
                    let (w, oneshot) = #[trigger] fire(old(self)@.wakers, idents@).1[i];
                    if oneshot {
                        woken@[i] == w
                    } else {
                        cloned(w, woken@[i])
                    }
                },
    {
        let ghost w0 = self@.wakers;
        let mut woken: Vec<W> = Vec::new();
        let mut i: usize = 0;
        while i < idents.len()
            invariant
                i <= idents@.len(),
                self@.kq == old(self)@.kq,
                w0 == old(self)@.wakers,
                self@.wakers == fire(w0, idents@.take(i as int)).0,
                woken@.len() == fire(w0, idents@.take(i as int)).1.len(),
                forall|j: int|
                    0 <= j < woken@.len() ==> {
                        let (w, oneshot) = #[trigger] fire(w0, idents@.take(i as int)).1[j];
                        if oneshot {
                            woken@[j] == w
                        } else {
                            cloned(w, woken@[j])
                        }
                    },
            decreases idents@.len() - i,
        {
            let id = idents[i];
            let ghost before = fire(w0, idents@.take(i as int));
            assert(idents@.take(i + 1).drop_last() =~= idents@.take(i as int));
            let registered = match self.wakers.get(&id) {
                Some(entry) => Some(entry.1),
                None => None,
            };
            match registered {
                Some(true) => {
                    // One-shot: the kernel has dropped it, so the table does too.
                    if let Some(entry) = self.wakers.remove(&id) {
                        woken.push(entry.0);
                    }
                },
                Some(false) => {
                    if let Some(entry) = self.wakers.get(&id) {
                        woken.push(entry.0.clone());
                    }
                },
                None => {},
            }
            i = i + 1;
        }
        assert(idents@.take(idents@.len() as int) =~= idents@);
        woken
    }
}

/// A registration is woken by the event of its own ident: a one-shot
/// registration is then gone, a lasting one stays.
pub proof fn law_registration_woken_by_its_event<W>(
    wakers: Map<usize, (W, bool)>,
    ident: usize,
    waker: W,
    oneshot: bool,
)
    ensures
        ({
            let registered = wakers.insert(ident, (waker, oneshot));
            fire(registered, seq![ident]) == (
                if oneshot { registered.remove(ident) } else { registered },
                seq![(waker, oneshot)],
            )
        }),
{
    let registered = wakers.insert(ident, (waker, oneshot));
    assert(seq![ident].drop_last() =~= Seq::<usize>::empty());
    assert(fire(registered, Seq::<usize>::empty()) == (registered, Seq::<(W, bool)>::empty()));
    assert(Seq::<(W, bool)>::empty().push((waker, oneshot)) =~= seq![(waker, oneshot)]);
}

/// A one-shot registration fires once: a second event for its ident wakes
/// nobody.
pub proof fn law_oneshot_fires_once<W>(wakers: Map<usize, (W, bool)>, ident: usize, waker: W)
    ensures
        fire(wakers.insert(ident, (waker, true)), seq![ident, ident]).1 == seq![(waker, true)],
{
    let registered = wakers.insert(ident, (waker, true));
    law_registration_woken_by_its_event(wakers, ident, waker, true);
    assert(seq![ident, ident].drop_last() =~= seq![ident]);
    assert(!registered.remove(ident).contains_key(ident));
}

/// Events only wake what is registered under their idents: each event wakes
/// at most one waker, and registrations of other idents are left as they
/// were.
pub proof fn law_events_touch_only_their_idents<W>(wakers: Map<usize, (W, bool)>, idents: Seq<usize>, other: usize)
    requires
        !idents.contains(other),
    ensures
        fire(wakers, idents).1.len() <= idents.len(),
        fire(wakers, idents).0.contains_key(other) == wakers.contains_key(other),
        wakers.contains_key(other) ==> fire(wakers, idents).0[other] == wakers[other],
        fire(wakers, idents).0.dom().subset_of(wakers.dom()),
    decreases idents.len(),
{
    if idents.len() > 0 {
        assert(!idents.drop_last().contains(other)) by {
            if idents.drop_last().contains(other) {
                let j = choose|j: int| 0 <= j < idents.drop_last().len() && idents.drop_last()[j] == other;
                assert(idents[j] == other);
            }
        }
        law_events_touch_only_their_idents(wakers, idents.drop_last(), other);
        assert(idents.last() != other) by {
            assert(idents[idents.len() - 1] == idents.last());
        }
    }
}

/// Events for idents that nobody registered wake nobody and change nothing.
pub proof fn law_unregistered_events_wake_nobody<W>(wakers: Map<usize, (W, bool)>, idents: Seq<usize>)
    requires
        forall|i: int| 0 <= i < idents.len() ==> !wakers.contains_key(#[trigger] idents[i]),
    ensures
        fire(wakers, idents) == (wakers, Seq::<(W, bool)>::empty()),
    decreases idents.len(),
{
    if idents.len() > 0 {
        law_unregistered_events_wake_nobody(wakers, idents.drop_last());
        assert(!wakers.contains_key(idents[idents.len() - 1]));
    }
}

/// A lasting registration (read interest) survives any batch of events,
/// its own included, with the same waker; a one-shot registration whose
/// ident is in the batch is gone afterwards.
pub proof fn law_lasting_registrations_survive_events<W>(wakers: Map<usize, (W, bool)>, idents: Seq<usize>, i: usize)
    ensures
        wakers.contains_key(i) && !wakers[i].1 ==> fire(wakers, idents).0.contains_key(i) && fire(
            wakers,
            idents,
        ).0[i] == wakers[i],
        wakers.contains_key(i) && wakers[i].1 && idents.contains(i) ==> !fire(wakers, idents).0.contains_key(i),
        !wakers.contains_key(i) ==> !fire(wakers, idents).0.contains_key(i),
    decreases idents.len(),
{
    if idents.len() > 0 {
        let prefix = idents.drop_last();
        law_lasting_registrations_survive_events(wakers, prefix, i);
        if wakers.contains_key(i) && wakers[i].1 && idents.contains(i) && !prefix.contains(i) {
            let j = choose|j: int| 0 <= j < idents.len() && idents[j] == i;
            if j < prefix.len() {
                assert(prefix[j] == i);
            }
            assert(idents.last() == i);
            law_events_touch_only_their_idents(wakers, prefix, i);
        }
    }
}

/// A batch of distinct idents, each with a registration, wakes each of
/// their wakers once, in the order of the batch.
pub proof fn law_batch_wakes_each_registration_in_order<W>(wakers: Map<usize, (W, bool)>, idents: Seq<usize>)
    requires
        idents.no_duplicates(),
        forall|k: int| 0 <= k < idents.len() ==> wakers.contains_key(#[trigger] idents[k]),
    ensures
        fire(wakers, idents).1 == idents.map_values(|id: usize| wakers[id]),
    decreases idents.len(),
{
    if idents.len() > 0 {
        let prefix = idents.drop_last();
        let last = idents.last();
        assert(last == idents[idents.len() - 1]);
        assert(!prefix.contains(last)) by {
            if prefix.contains(last) {
                let j = choose|j: int| 0 <= j < prefix.len() && prefix[j] == last;
                assert(idents[j] == idents[idents.len() - 1]);
            }
        }
        assert forall|k: int| 0 <= k < prefix.len() implies wakers.contains_key(#[trigger] prefix[k]) by {
            assert(prefix[k] == idents[k]);
        }
        law_batch_wakes_each_registration_in_order(wakers, prefix);
        law_events_touch_only_their_idents(wakers, prefix, last);
        assert(fire(wakers, idents).1 =~= idents.map_values(|id: usize| wakers[id]));
    }
}

/// The change records: a timer change is a one-shot timer on its ident
/// carrying the delay (as the kernel's signed word); a read change is
/// lasting, cleared read interest with no data.
pub proof fn law_change_records(ident: usize, millis: u128)
    ensures
        timer_change(ident, millis).ident == ident,
        timer_change(ident, millis).filter == Filter::Timer,
        timer_change(ident, millis).oneshot,
        !timer_change(ident, millis).clear,
        timer_change(ident, millis).data == millis as isize,
        read_change(ident).ident == ident,
        read_change(ident).filter == Filter::Read,
        !read_change(ident).oneshot,
        read_change(ident).clear,
        read_change(ident).data == 0,
{
}

} // verus!
