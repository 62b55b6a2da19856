//! Event bus.
//!
//! A bus holds a set of event flags. Components that do not know one another
//! communicate through it: one changes the flags, others are called back.

use vstd::prelude::*;

use crate::utils::rest::{is_rest, lemma_rest_grows, lemma_rest_of_nothing};

verus! {

/// No more callbacks than this are kept; the oldest gives way.
pub const MAX_EVENT_CALLBACKS: usize = 4096;

/// File: is readable.
pub const READABLE: u32 = 0x1;
/// File: is writable.
pub const WRITABLE: u32 = 0x2;
/// File: has an error.
pub const ERROR: u32 = 0x4;
/// File: is closed.
pub const CLOSED: u32 = 0x8;
/// Process: has quit.
pub const PROCESS_QUIT: u32 = 0x400;
/// Process: a child process has quit.
pub const CHILD_PROCESS_QUIT: u32 = 0x800;
/// Process: has received a signal.
pub const RECEIVE_SIGNAL: u32 = 0x1000;
/// Semaphore: is removed.
pub const SEMAPHORE_REMOVED: u32 = 0x10_0000;
/// Semaphore: a resource can be acquired.
pub const SEMAPHORE_CAN_ACQUIRE: u32 = 0x20_0000;

/// A set of event flags.
#[derive(Clone, Copy, Debug, PartialEq, Eq, Structural)]
pub struct Event {
    pub bits: u32,
}

impl Event {
    pub open spec fn spec_empty() -> Self {
        Event { bits: 0 }
    }

    pub open spec fn spec_is_empty(self) -> bool {
        self.bits == 0
    }

    pub open spec fn spec_intersection(self, other: Self) -> Self {
        Event { bits: self.bits & other.bits }
    }

    /// The flags of `self` without those of `reset`, and with those of `set`.
    pub open spec fn changed(self, reset: Self, set: Self) -> Self {
        Event { bits: (self.bits & !reset.bits) | set.bits }
    }

    /// Whether the two sets have a flag in common.
    pub open spec fn meets(self, other: Self) -> bool {
        !self.spec_intersection(other).spec_is_empty()
    }

    pub fn empty() -> (event: Self)
        ensures
            event == Self::spec_empty(),
    {
        Event { bits: 0 }
    }

    pub fn from_bits(bits: u32) -> (event: Self)
        ensures
            event == (Event { bits }),
    {
        Event { bits }
    }

    pub fn is_empty(&self) -> (yes: bool)
        ensures
            yes == self.spec_is_empty(),
    {
        self.bits == 0
    }

    pub fn intersection(self, other: Self) -> (common: Self)
        ensures
            common == self.spec_intersection(other),
    {
        Event { bits: self.bits & other.bits }
    }

    pub fn remove(&mut self, other: Self)
        ensures
            *final(self) == (Event { bits: old(self).bits & !other.bits }),
    {
        self.bits = self.bits & !other.bits;
    }

    pub fn insert(&mut self, other: Self)
        ensures
            *final(self) == (Event { bits: old(self).bits | other.bits }),
    {
        self.bits = self.bits | other.bits;
    }
}

impl Default for Event {
    fn default() -> (event: Self)
        ensures
            event == Self::spec_empty(),
    {
        Event { bits: 0 }
    }
}

/// A callback. It returns whether it is done and can be dropped.
pub trait EventHandler {
    /// Whether `done` is what the callback says about `event`.
    open spec fn says(&self, event: Event, done: bool) -> bool {
        true
    }

    /// Deals with `event`. A call leaves no mark on the callback, so the contracts say that
    /// a callback was called, and not how often.
    fn handle(&self, event: Event) -> (done: bool)
        ensures
            self.says(event, done),
    ;
}

/// Something that can be woken up.
pub trait Wake {
    /// Whether it has been woken up. What that means is its own affair.
    open spec fn woken(&self) -> bool {
        true
    }

    fn wake_by_ref(&self)
        ensures
            self.woken(),
    ;
}

/// What is registered on a bus.
pub enum Handler<C: EventHandler, W: Wake> {
    /// A callback.
    Callback(C),
    /// A waker that waits for one of the flags in the mask.
    Waker(Event, W),
}

/// A registered handler and its subscription id.
pub struct Registered<C: EventHandler, W: Wake> {
    pub id: u64,
    pub handler: Handler<C, W>,
}

/// Something that the bus did to a handler.
pub enum Notice<C, W> {
    /// A callback was called with an event and gave an answer.
    Called(C, Event, bool),
    /// A waker was woken.
    Woke(W),
}

impl<C: EventHandler, W: Wake> Handler<C, W> {
    /// What asking the handler about `event` leads to: a callback decides for
    /// itself, and a waker is woken and done if a flag that it waits for is set.
    pub open spec fn answers(
        self,
        event: Event,
        notices: Seq<Notice<C, W>>,
        done: bool,
    ) -> bool {
        match self {
            Handler::Callback(c) => {
                &&& c.says(event, done)
                &&& notices == seq![Notice::<C, W>::Called(c, event, done)]
            },
            Handler::Waker(mask, w) => {
                &&& done == event.meets(mask)
                &&& done ==> w.woken()
                &&& notices == if done {
                    seq![Notice::<C, W>::Woke(w)]
                } else {
                    Seq::empty()
                }
            },
        }
    }
}

/// `notices` asks each of `regs` about `event`, in order; `done` holds the
/// answers.
pub open spec fn asked<C: EventHandler, W: Wake>(
    regs: Seq<Registered<C, W>>,
    event: Event,
    notices: Seq<Notice<C, W>>,
    done: Seq<bool>,
) -> bool
    decreases regs.len(),
{
    if regs.len() == 0 {
        notices.len() == 0 && done.len() == 0
    } else {
        &&& done.len() == regs.len()
        &&& exists|n: int|
            {
                &&& 0 <= n <= notices.len()
                &&& #[trigger] regs.last().handler.answers(event, notices.skip(n), done.last())
                &&& asked(regs.drop_last(), event, notices.take(n), done.drop_last())
            }
    }
}

/// Those of `regs` that are not done, in order.
pub open spec fn unfinished<C: EventHandler, W: Wake>(
    regs: Seq<Registered<C, W>>,
    done: Seq<bool>,
) -> Seq<Registered<C, W>>
    decreases regs.len(),
{
    if regs.len() == 0 {
        Seq::empty()
    } else if done.last() {
        unfinished(regs.drop_last(), done.drop_last())
    } else {
        unfinished(regs.drop_last(), done.drop_last()).push(regs.last())
    }
}

/// Every id is one of the first `n`.
pub open spec fn ids_below<C: EventHandler, W: Wake>(regs: Seq<Registered<C, W>>, n: nat) -> bool {
    forall|i: int| 0 <= i < regs.len() ==> (#[trigger] regs[i]).id < n
}

/// Those of `regs` that do not have the given id, in order.
pub open spec fn without<C: EventHandler, W: Wake>(
    regs: Seq<Registered<C, W>>,
    id: u64,
) -> Seq<Registered<C, W>>
    decreases regs.len(),
{
    if regs.len() == 0 {
        Seq::empty()
    } else if regs.last().id == id {
        without(regs.drop_last(), id)
    } else {
        without(regs.drop_last(), id).push(regs.last())
    }
}

/// An event bus.
pub struct EventBus<C: EventHandler, W: Wake> {
    event: Event,
    callbacks: Vec<Registered<C, W>>,
    next_id: u64,
    issued: Ghost<nat>,
    notices: Ghost<Seq<Notice<C, W>>>,
}

impl<C: EventHandler, W: Wake> EventBus<C, W> {
    /// The flags that are set.
    pub closed spec fn event(&self) -> Event {
        self.event
    }

    /// The registered handlers, oldest first.
    pub closed spec fn regs(&self) -> Seq<Registered<C, W>> {
        self.callbacks@
    }

    /// The id of the next subscription.
    pub closed spec fn next_id(&self) -> u64 {
        self.next_id
    }

    /// Everything that the bus did to handlers so far, oldest first.
    pub closed spec fn notices(&self) -> Seq<Notice<C, W>> {
        self.notices@
    }

    /// How many ids have been handed out. They are handed out in order, and come
    /// round only when the counter runs over.
    pub closed spec fn issued(&self) -> nat {
        self.issued@
    }

    /// No more handlers are registered than allowed. Every handler has an id that was
    /// handed out, and nobody will get it again before the counter has run over.
    pub open spec fn wf(&self) -> bool {
        &&& self.regs().len() <= MAX_EVENT_CALLBACKS
        &&& self.next_id() == self.issued() % 0x1_0000_0000_0000_0000
        &&& self.issued() <= u64::MAX ==> ids_below(self.regs(), self.issued())
    }

    /// What changing the flags leads to. Handlers are asked only if the flags are
    /// different afterwards; those that are done are dropped.
    pub open spec fn changes(self, after: Self, reset: Event, set: Event) -> bool {
        let now = self.event().changed(reset, set);
        &&& after.event() == now
        &&& after.next_id() == self.next_id()
        &&& after.issued() == self.issued()
        &&& if now == self.event() {
            after.regs() == self.regs() && after.notices() == self.notices()
        } else {
            exists|done: Seq<bool>|
                {
                    &&& #[trigger] asked(
                        self.regs(),
                        now,
                        after.notices().skip(self.notices().len() as int),
                        done,
                    )
                    &&& self.notices().len() <= after.notices().len()
                    &&& self.notices() == after.notices().take(self.notices().len() as int)
                    &&& after.regs() == unfinished(self.regs(), done)
                }
        }
    }

    /// The bus once `handler` is registered: if the bus is full the oldest handler
    /// is asked one last time and gives way.
    pub open spec fn registers(
        self,
        after: Self,
        handler: Handler<C, W>,
        notices: Seq<Notice<C, W>>,
    ) -> bool {
        let reg = Registered { id: self.next_id(), handler };
        &&& after.event() == self.event()
        &&& after.next_id() == (self.next_id() + 1) % 0x1_0000_0000_0000_0000
        &&& after.issued() == self.issued() + 1
        &&& if self.regs().len() >= MAX_EVENT_CALLBACKS {
            &&& after.regs() == self.regs().skip(1).push(reg)
            &&& exists|done: bool|
                #[trigger] self.regs()[0].handler.answers(self.event(), notices, done)
        } else {
            after.regs() == self.regs().push(reg) && notices.len() == 0
        }
    }

    /// What a subscription leads to. If flags are set already the handler is asked
    /// right away, and is not registered if it is done.
    pub open spec fn subscribes(
        self,
        after: Self,
        handler: Handler<C, W>,
        id: Option<u64>,
    ) -> bool {
        let notices = after.notices().skip(self.notices().len() as int);
        &&& self.notices().len() <= after.notices().len()
        &&& self.notices() == after.notices().take(self.notices().len() as int)
        &&& if self.event().spec_is_empty() {
            id == Some(self.next_id()) && self.registers(after, handler, notices)
        } else if id is None {
            &&& handler.answers(self.event(), notices, true)
            &&& after.event() == self.event()
            &&& after.regs() == self.regs()
            &&& after.next_id() == self.next_id()
            &&& after.issued() == self.issued()
        } else {
            &&& id == Some(self.next_id())
            &&& exists|n: int|
                {
                    &&& 0 <= n <= notices.len()
                    &&& #[trigger] handler.answers(self.event(), notices.take(n), false)
                    &&& self.registers(after, handler, notices.skip(n))
                }
        }
    }

    /// Creates a bus without flags and handlers.
    pub fn new() -> (bus: Self)
        ensures
            bus.wf(),
            bus.event() == Event::spec_empty(),
            bus.regs() == Seq::<Registered<C, W>>::empty(),
            bus.next_id() == 0,
            bus.issued() == 0,
            bus.notices() == Seq::<Notice<C, W>>::empty(),
    {
        EventBus {
            event: Event::empty(),
            callbacks: Vec::new(),
            next_id: 0,
            issued: Ghost(0),
            notices: Ghost(Seq::empty()),
        }
    }

    /// Asks a handler about an event.
    fn ask(&mut self, handler: &Handler<C, W>, event: Event) -> (done: bool)
        ensures
            final(self).event() == old(self).event(),
            final(self).regs() == old(self).regs(),
            final(self).next_id() == old(self).next_id(),
            final(self).issued() == old(self).issued(),
            old(self).notices().len() <= final(self).notices().len(),
            final(self).notices().take(old(self).notices().len() as int) == old(self).notices(),
            handler.answers(
                event,
                final(self).notices().skip(old(self).notices().len() as int),
                done,
            ),
    {
        let ghost before = self.notices@;
        let ghost n = before.len() as int;
        let done: bool = match handler {
            Handler::Callback(c) => {
                let done: bool = c.handle(event);
                self.notices = Ghost(self.notices@.push(Notice::Called(*c, event, done)));
                assert(self.notices@.skip(n) =~= seq![Notice::<C, W>::Called(*c, event, done)]);
                done
            },
            Handler::Waker(mask, w) => {
                let done: bool = !event.intersection(*mask).is_empty();
                if done {
                    w.wake_by_ref();
                    self.notices = Ghost(self.notices@.push(Notice::Woke(*w)));
                    assert(self.notices@.skip(n) =~= seq![Notice::<C, W>::Woke(*w)]);
                } else {
                    assert(self.notices@.skip(n) =~= Seq::<Notice<C, W>>::empty());
                }
                done
            },
        };
        assert(self.notices@.take(n) =~= before);
        done
    }

    /// Sets flags.
    pub fn set(&mut self, set: Event)
        requires
            old(self).wf(),
        ensures
            final(self).wf(),
            old(self).changes(*final(self), Event::spec_empty(), set),
    {
        self.change(Event::empty(), set);
    }

    /// Clears flags.
    pub fn clear(&mut self, set: Event)
        requires
            old(self).wf(),
        ensures
            final(self).wf(),
            old(self).changes(*final(self), set, Event::spec_empty()),
    {
        self.change(set, Event::empty());
    }

    /// Removes the flags in `reset` and inserts those in `set`.
    pub fn change(&mut self, reset: Event, set: Event)
        requires
            old(self).wf(),
        ensures
            final(self).wf(),
            old(self).changes(*final(self), reset, set),
    {
        let orig: Event = self.event;
        let mut new: Event = self.event;
        new.remove(reset);
        new.insert(set);
        self.event = new;
        if new != orig {
            let mut pending: Vec<Registered<C, W>> = Vec::new();
            std::mem::swap(&mut pending, &mut self.callbacks);
            let ghost regs = pending@;
            let ghost before = self.notices();
            let ghost mut done: Seq<bool> = Seq::empty();
            let mut kept: Vec<Registered<C, W>> = Vec::new();
            proof {
                assert(regs.take(0) =~= Seq::<Registered<C, W>>::empty());
                assert(before.take(before.len() as int) =~= before);
                assert(before.skip(before.len() as int) =~= Seq::<Notice<C, W>>::empty());
            }
            for reg in it: pending.into_iter()
                invariant
                    it.seq() == regs,
                    self.event() == new,
                    self.regs().len() == 0,
                    self.next_id() == old(self).next_id(),
                    self.issued() == old(self).issued(),
                    before.len() <= self.notices().len(),
                    self.notices().take(before.len() as int) == before,
                    asked(
                        regs.take(it.index() as int),
                        new,
                        self.notices().skip(before.len() as int),
                        done,
                    ),
                    kept@ == unfinished(regs.take(it.index() as int), done),
                    kept@.len() <= it.index(),
            {
                let ghost i = it.index() as int;
                let ghost notices0 = self.notices();
                let finished: bool = self.ask(&reg.handler, new);
                proof {
                    let more = regs.take(i + 1);
                    assert(more.drop_last() =~= regs.take(i));
                    assert(more.last() == reg);
                    let more_done = done.push(finished);
                    assert(more_done.drop_last() =~= done);
                    let b = before.len() as int;
                    let all = self.notices().skip(b);
                    let n = notices0.len() - b;
                    assert forall|k: int| 0 <= k < notices0.len() implies self.notices()[k]
                        == notices0[k] by {
                        assert(self.notices().take(notices0.len() as int)[k] == notices0[k]);
                    }
                    assert(all.take(n) =~= notices0.skip(b));
                    assert(all.skip(n) =~= self.notices().skip(notices0.len() as int));
                    assert(self.notices().take(b) =~= notices0.take(b));
                    assert(more.last().handler.answers(new, all.skip(n), more_done.last()));
                    assert(asked(more, new, all, more_done));
                    done = more_done;
                }
                if !finished {
                    kept.push(reg);
                }
            }
            assert(regs.take(regs.len() as int) =~= regs);
            let mut late: Vec<Registered<C, W>> = Vec::new();
            std::mem::swap(&mut late, &mut self.callbacks);
            kept.append(&mut late);
            self.callbacks = kept;
            proof {
                lemma_unfinished_keeps(regs, done, self.issued());
                assert(self.regs() =~= unfinished(regs, done));
                assert(regs == old(self).regs());
                assert(before == old(self).notices());
                assert(asked(
                    old(self).regs(),
                    new,
                    self.notices().skip(old(self).notices().len() as int),
                    done,
                ));
            }
        }
    }

    /// The flags that are set.
    pub fn events(&self) -> (event: Event)
        ensures
            event == self.event(),
    {
        self.event
    }

    /// Registers a handler and returns its subscription id, unless it is done
    /// already.
    pub fn subscribe(&mut self, handler: Handler<C, W>) -> (id: Option<u64>)
        requires
            old(self).wf(),
        ensures
            final(self).wf(),
            old(self).subscribes(*final(self), handler, id),
    {
        let ghost first = *self;
        let ghost b = self.notices().len() as int;
        proof {
            assert(self.notices().take(b) =~= self.notices());
            assert(self.notices().skip(b) =~= Seq::<Notice<C, W>>::empty());
        }
        let event: Event = self.event;
        if !event.is_empty() {
            let done: bool = self.ask(&handler, event);
            if done {
                return None;
            }
        }
        let ghost mid = *self;
        let ghost mut last_done = false;
        if self.callbacks.len() >= MAX_EVENT_CALLBACKS {
            let oldest: Registered<C, W> = self.callbacks.remove(0);
            assert(self.regs() =~= first.regs().skip(1));
            let done: bool = self.ask(&oldest.handler, event);
            proof {
                let m = mid.notices().len() as int;
                assert forall|k: int| 0 <= k < m implies self.notices()[k] == mid.notices()[k] by {
                    assert(self.notices().take(m)[k] == mid.notices()[k]);
                }
                assert(first.regs()[0].handler.answers(event, self.notices().skip(m), done));
                last_done = done;
            }
        } else {
            assert(self.notices().skip(mid.notices().len() as int) =~= Seq::<Notice<C, W>>::empty());
        }
        let id: u64 = self.next_id;
        self.next_id = self.next_id.wrapping_add(1);
        self.issued = Ghost((self.issued@ + 1) as nat);
        self.callbacks.push(Registered { id, handler });
        proof {
            lemma_next_id(first.issued());
            assert forall|i: int| first.issued() < u64::MAX && 0 <= i < self.regs().len() implies (
            #[trigger] self.regs()[i]).id < self.issued() by {
                if first.regs().len() >= MAX_EVENT_CALLBACKS && i < self.regs().len() - 1 {
                    assert(self.regs()[i] == first.regs()[i + 1]);
                } else if i < self.regs().len() - 1 {
                    assert(self.regs()[i] == first.regs()[i]);
                }
            }
            let notices = self.notices().skip(b);
            let m = mid.notices().len() - b;
            assert(self.notices().take(b) =~= mid.notices().take(b));
            assert(notices.take(m) =~= mid.notices().skip(b));
            assert(notices.skip(m) =~= self.notices().skip(mid.notices().len() as int));
            if first.regs().len() >= MAX_EVENT_CALLBACKS {
                assert(first.regs()[0].handler.answers(
                    first.event(),
                    notices.skip(m),
                    last_done,
                ));
                assert(self.regs() =~= first.regs().skip(1).push(
                    Registered { id: first.next_id(), handler },
                ));
            }
            assert(first.registers(*self, handler, notices.skip(m)));
            if first.event().spec_is_empty() {
                assert(notices.skip(0) =~= notices);
            } else {
                assert(handler.answers(first.event(), notices.take(m), false));
            }
        }
        Some(id)
    }

    /// Removes a handler by its subscription id. Nothing happens if it is gone.
    pub fn unsubscribe(&mut self, id: u64)
        requires
            old(self).wf(),
        ensures
            final(self).wf(),
            final(self).event() == old(self).event(),
            final(self).regs() == without(old(self).regs(), id),
            final(self).next_id() == old(self).next_id(),
            final(self).issued() == old(self).issued(),
            final(self).notices() == old(self).notices(),
    {
        let mut pending: Vec<Registered<C, W>> = Vec::new();
        std::mem::swap(&mut pending, &mut self.callbacks);
        let ghost regs = pending@;
        let mut kept: Vec<Registered<C, W>> = Vec::new();
        assert(regs.take(0) =~= Seq::<Registered<C, W>>::empty());
        for reg in it: pending.into_iter()
            invariant
                it.seq() == regs,
                kept@ == without(regs.take(it.index() as int), id),
                kept@.len() <= it.index(),
        {
            let ghost i = it.index() as int;
            assert(regs.take(i + 1).drop_last() =~= regs.take(i));
            assert(regs.take(i + 1).last() == reg);
            if reg.id != id {
                kept.push(reg);
            }
        }
        assert(regs.take(regs.len() as int) =~= regs);
        self.callbacks = kept;
        proof {
            lemma_without_keeps(regs, id, self.issued());
        }
    }

    /// The number of registered handlers.
    pub fn get_callback_len(&self) -> (len: usize)
        ensures
            len == self.regs().len(),
    {
        self.callbacks.len()
    }
}

/// Something that is to be done. Doing it uses it up, so it is done once at most.
pub trait Cleanup: Sized {
    /// Whether it has been done. What that means is its own affair.
    open spec fn ran(&self) -> bool {
        true
    }

    fn run(self)
        ensures
            self.ran(),
    ;
}

/// A handle on something that has to be cleaned up once the handle is given up: `U`
/// says what.
pub struct ReadinessSub<U: Cleanup> {
    pub unsub: Option<U>,
}

impl<U: Cleanup> ReadinessSub<U> {
    /// A subscription with something to clean up.
    pub fn new(unsub: U) -> (sub: Self)
        ensures
            sub.unsub == Some(unsub),
    {
        ReadinessSub { unsub: Some(unsub) }
    }

    /// A subscription with nothing to clean up.
    pub fn noop() -> (sub: Self)
        ensures
            sub.unsub is None,
    {
        ReadinessSub { unsub: None }
    }

    /// What there is to clean up. It is handed out once.
    pub fn take(&mut self) -> (unsub: Option<U>)
        ensures
            unsub == old(self).unsub,
            final(self).unsub is None,
    {
        self.unsub.take()
    }

    /// Gives the handle up: what there is to clean up is cleaned up, and nothing is left
    /// that could be cleaned up a second time.
    pub fn clean_up(&mut self)
        ensures
            old(self).unsub matches Some(unsub) ==> unsub.ran(),
            final(self).unsub is None,
    {
        match self.take() {
            Some(unsub) => unsub.run(),
            None => {},
        }
    }
}

/// Where subscriptions can be taken back, from anywhere.
pub trait Source {
    /// Whether subscription `id` has been taken back.
    open spec fn unsubscribed(&self, id: u64) -> bool {
        true
    }

    fn unsubscribe(&self, id: u64)
        ensures
            self.unsubscribed(id),
    ;
}

/// A subscription that is to be taken back.
pub struct Parked<S: Source> {
    pub source: S,
    pub id: u64,
}

impl<S: Source> Cleanup for Parked<S> {
    open spec fn ran(&self) -> bool {
        self.source.unsubscribed(self.id)
    }

    fn run(self) {
        self.source.unsubscribe(self.id);
    }
}

impl<S: Source> ReadinessSub<Parked<S>> {
    /// The subscription that the handle stands for, if there is one.
    pub open spec fn id(self) -> Option<u64> {
        match self.unsub {
            Some(parked) => Some(parked.id),
            None => None,
        }
    }
}

/// Parks a waker on a bus until one of the flags in `mask` is set.
pub fn subscribe_waker<C: EventHandler, W: Wake>(
    bus: &mut EventBus<C, W>,
    mask: Event,
    waker: W,
) -> (id: Option<u64>)
    requires
        old(bus).wf(),
    ensures
        final(bus).wf(),
        old(bus).subscribes(*final(bus), Handler::Waker(mask, waker), id),
{
    bus.subscribe(Handler::Waker(mask, waker))
}

/// Parks a waker on a bus, and returns a handle that takes it off again: the bus can be
/// reached through `source`.
pub fn subscribe_readiness_on<C: EventHandler, W: Wake, S: Source>(
    bus: &mut EventBus<C, W>,
    source: S,
    mask: Event,
    waker: W,
) -> (sub: ReadinessSub<Parked<S>>)
    requires
        old(bus).wf(),
    ensures
        final(bus).wf(),
        old(bus).subscribes(*final(bus), Handler::Waker(mask, waker), sub.id()),
        sub.unsub matches Some(parked) ==> parked.source == source,
{
    match subscribe_waker(bus, mask, waker) {
        Some(id) => ReadinessSub::new(Parked { source, id }),
        None => ReadinessSub::noop(),
    }
}

/// Gives a handle up where the bus is at hand: the waker is taken off the bus.
pub fn release<C: EventHandler, W: Wake, S: Source>(
    bus: &mut EventBus<C, W>,
    sub: &mut ReadinessSub<Parked<S>>,
)
    requires
        old(bus).wf(),
    ensures
        final(bus).wf(),
        final(sub).unsub is None,
        final(bus).event() == old(bus).event(),
        final(bus).next_id() == old(bus).next_id(),
        final(bus).issued() == old(bus).issued(),
        final(bus).notices() == old(bus).notices(),
        final(bus).regs() == match old(sub).id() {
            Some(id) => without(old(bus).regs(), id),
            None => old(bus).regs(),
        },
{
    if let Some(parked) = sub.take() {
        bus.unsubscribe(parked.id);
    }
}

/// Somebody who waits for one of the flags in a mask.
pub struct EventBusFuture {
    pub mask: Event,
    pub sub_id: Option<u64>,
}

/// Starts waiting for one of the flags in `mask`.
pub fn wait_for_event(mask: Event) -> (future: EventBusFuture)
    ensures
        future.mask == mask,
        future.sub_id is None,
{
    EventBusFuture { mask, sub_id: None }
}

impl EventBusFuture {
    /// Looks whether the wait is over. If it is, the flags are returned and the
    /// waker is taken off the bus; if not, a waker is parked unless one is already.
    pub fn poll<C: EventHandler, W: Wake>(&mut self, bus: &mut EventBus<C, W>, waker: W) -> (ready:
        Option<Event>)
        requires
            old(bus).wf(),
        ensures
            final(bus).wf(),
            final(self).mask == old(self).mask,
            ready == (if old(bus).event().meets(old(self).mask) {
                Some(old(bus).event())
            } else {
                None
            }),
            if ready is Some {
                &&& final(self).sub_id is None
                &&& final(bus).event() == old(bus).event()
                &&& final(bus).next_id() == old(bus).next_id()
                &&& final(bus).issued() == old(bus).issued()
                &&& final(bus).notices() == old(bus).notices()
                &&& final(bus).regs() == match old(self).sub_id {
                    Some(id) => without(old(bus).regs(), id),
                    None => old(bus).regs(),
                }
            } else if old(self).sub_id is Some {
                *final(self) == *old(self) && *final(bus) == *old(bus)
            } else {
                old(bus).subscribes(
                    *final(bus),
                    Handler::Waker(old(self).mask, waker),
                    final(self).sub_id,
                )
            },
    {
        let event: Event = bus.events();
        if !event.intersection(self.mask).is_empty() {
            if let Some(id) = self.sub_id.take() {
                bus.unsubscribe(id);
            }
            return Some(event);
        }
        if self.sub_id.is_none() {
            self.sub_id = bus.subscribe(Handler::Waker(self.mask, waker));
        }
        None
    }

    /// Gives the wait up: the waker is taken off the bus.
    pub fn cancel<C: EventHandler, W: Wake>(&mut self, bus: &mut EventBus<C, W>)
        requires
            old(bus).wf(),
        ensures
            final(bus).wf(),
            final(self).mask == old(self).mask,
            final(self).sub_id is None,
            final(bus).event() == old(bus).event(),
            final(bus).next_id() == old(bus).next_id(),
            final(bus).issued() == old(bus).issued(),
            final(bus).notices() == old(bus).notices(),
            final(bus).regs() == match old(self).sub_id {
                Some(id) => without(old(bus).regs(), id),
                None => old(bus).regs(),
            },
    {
        if let Some(id) = self.sub_id.take() {
            bus.unsubscribe(id);
        }
    }
}

/// After a removal no handler has the removed id.
pub proof fn law_unsubscribed_is_gone<C: EventHandler, W: Wake>(
    regs: Seq<Registered<C, W>>,
    id: u64,
)
    ensures
        forall|i: int|
            0 <= i < without(regs, id).len() ==> (#[trigger] without(regs, id)[i]).id != id,
    decreases regs.len(),
{
    if regs.len() > 0 {
        law_unsubscribed_is_gone(regs.drop_last(), id);
        let rest = without(regs.drop_last(), id);
        assert forall|i: int| 0 <= i < without(regs, id).len() implies (#[trigger] without(
            regs,
            id,
        )[i]).id != id by {
            if i < rest.len() {
                assert(without(regs, id)[i] == rest[i]);
            }
        }
    }
}

/// Removing an id that no handler has changes nothing.
pub proof fn law_stranger_cannot_unsubscribe<C: EventHandler, W: Wake>(
    regs: Seq<Registered<C, W>>,
    id: u64,
)
    requires
        forall|i: int| 0 <= i < regs.len() ==> (#[trigger] regs[i]).id != id,
    ensures
        without(regs, id) == regs,
    decreases regs.len(),
{
    if regs.len() > 0 {
        assert forall|i: int| 0 <= i < regs.drop_last().len() implies (
        #[trigger] regs.drop_last()[i]).id != id by {
            assert(regs[i].id != id);
        }
        law_stranger_cannot_unsubscribe(regs.drop_last(), id);
        assert(regs[regs.len() - 1].id != id);
        assert(without(regs, id) =~= regs);
    }
}

/// A subscription gets an id that nobody on the bus has, until the counter runs
/// over.
pub proof fn law_ids_are_unique<C: EventHandler, W: Wake>(
    before: EventBus<C, W>,
    after: EventBus<C, W>,
    handler: Handler<C, W>,
    id: u64,
)
    requires
        before.wf(),
        before.issued() <= u64::MAX,
        before.subscribes(after, handler, Some(id)),
    ensures
        id == before.issued(),
        forall|i: int| 0 <= i < before.regs().len() ==> (#[trigger] before.regs()[i]).id != id,
{
}

/// A subscription that is taken back leaves the handlers as they were, if the bus had
/// room for it: those who were there are there, in the same order and with the same
/// ids. `mid` is the bus with the subscription, and the handlers of `after` are those
/// of `mid` without it.
pub proof fn law_subscription_can_be_taken_back<C: EventHandler, W: Wake>(
    before: EventBus<C, W>,
    mid: EventBus<C, W>,
    after: EventBus<C, W>,
    handler: Handler<C, W>,
    id: u64,
)
    requires
        before.wf(),
        before.issued() <= u64::MAX,
        before.regs().len() < MAX_EVENT_CALLBACKS,
        before.subscribes(mid, handler, Some(id)),
        after.event() == mid.event(),
        after.regs() == without(mid.regs(), id),
    ensures
        after.regs() == before.regs(),
        after.event() == before.event(),
{
    law_ids_are_unique(before, mid, handler, id);
    law_stranger_cannot_unsubscribe(before.regs(), id);
    assert(mid.regs().drop_last() =~= before.regs());
}

/// A handle on a parked waker stands for one registration if none of the flags was
/// set, and for none otherwise; the waker is then woken at once. Releasing the handle
/// leaves the handlers as they were, if the bus had room. `after` is `mid` once the
/// handle is released.
pub proof fn law_readiness_can_be_released<C: EventHandler, W: Wake, S: Source>(
    before: EventBus<C, W>,
    mid: EventBus<C, W>,
    after: EventBus<C, W>,
    mask: Event,
    waker: W,
    sub: ReadinessSub<Parked<S>>,
)
    requires
        before.wf(),
        before.issued() <= u64::MAX,
        before.regs().len() < MAX_EVENT_CALLBACKS,
        before.subscribes(mid, Handler::Waker(mask, waker), sub.id()),
        after.event() == mid.event(),
        after.regs() == match sub.id() {
            Some(id) => without(mid.regs(), id),
            None => mid.regs(),
        },
    ensures
        sub.id() is Some <==> !before.event().meets(mask),
        mid.regs().len() == before.regs().len() + if sub.id() is Some {
            1int
        } else {
            0
        },
        sub.id() is None ==> waker.woken(),
        after.regs() == before.regs(),
{
    match sub.id() {
        Some(id) => {
            law_subscription_can_be_taken_back(
                before,
                mid,
                after,
                Handler::Waker(mask, waker),
                id,
            );
            if before.event().meets(mask) {
                law_ready_waker_is_woken(before, mid, mask, waker, sub.id());
            }
        },
        None => {},
    }
}

/// Changing flags to what they are already disturbs nobody.
pub proof fn law_no_change_no_notice<C: EventHandler, W: Wake>(
    before: EventBus<C, W>,
    after: EventBus<C, W>,
    reset: Event,
    set: Event,
)
    requires
        before.changes(after, reset, set),
        before.event().changed(reset, set) == before.event(),
    ensures
        after.regs() == before.regs(),
        after.notices() == before.notices(),
{
}

/// Setting flags sets them, clearing flags clears them, and neither touches the
/// others.
pub proof fn law_set_and_clear(event: Event, flags: Event, flag: u32)
    ensures
        event.changed(Event::spec_empty(), flags).bits & flag == (event.bits & flag) | (flags.bits
            & flag),
        event.changed(flags, Event::spec_empty()).bits & flag == (event.bits & flag)
            & !flags.bits,
{
    let e = event.bits;
    let f = flags.bits;
    assert(((e & !0u32) | f) & flag == (e & flag) | (f & flag)) by (bit_vector);
    assert(((e & !f) | 0u32) & flag == (e & flag) & !f) by (bit_vector);
}

/// A waker that is parked for flags of which one is set is woken and not kept.
pub proof fn law_ready_waker_is_woken<C: EventHandler, W: Wake>(
    before: EventBus<C, W>,
    after: EventBus<C, W>,
    mask: Event,
    waker: W,
    id: Option<u64>,
)
    requires
        before.subscribes(after, Handler::Waker(mask, waker), id),
        before.event().meets(mask),
    ensures
        id is None,
        after.regs() == before.regs(),
        after.notices() == before.notices().push(Notice::Woke(waker)),
{
    let e = before.event().bits;
    let m = mask.bits;
    assert(e & m != 0 ==> e != 0) by (bit_vector);
    let n = before.notices().len() as int;
    assert(after.notices() =~= after.notices().take(n) + after.notices().skip(n));
    assert(after.notices() =~= before.notices().push(Notice::Woke(waker)));
}

proof fn lemma_without_keeps<C: EventHandler, W: Wake>(
    regs: Seq<Registered<C, W>>,
    id: u64,
    n: nat,
)
    ensures
        without(regs, id).len() <= regs.len(),
        ids_below(regs, n) ==> ids_below(without(regs, id), n),
    decreases regs.len(),
{
    if regs.len() > 0 {
        lemma_without_keeps(regs.drop_last(), id, n);
        if ids_below(regs, n) {
            lemma_ids_below_drop_last(regs, n);
        }
    }
}

proof fn lemma_unfinished_keeps<C: EventHandler, W: Wake>(
    regs: Seq<Registered<C, W>>,
    done: Seq<bool>,
    n: nat,
)
    ensures
        unfinished(regs, done).len() <= regs.len(),
        ids_below(regs, n) ==> ids_below(unfinished(regs, done), n),
    decreases regs.len(),
{
    if regs.len() > 0 {
        lemma_unfinished_keeps(regs.drop_last(), done.drop_last(), n);
        if ids_below(regs, n) {
            lemma_ids_below_drop_last(regs, n);
        }
    }
}

proof fn lemma_ids_below_drop_last<C: EventHandler, W: Wake>(regs: Seq<Registered<C, W>>, n: nat)
    requires
        regs.len() > 0,
        ids_below(regs, n),
    ensures
        ids_below(regs.drop_last(), n),
        regs.last().id < n,
{
    assert forall|i: int| 0 <= i < regs.drop_last().len() implies (
    #[trigger] regs.drop_last()[i]).id < n by {
        assert(regs[i].id < n);
    }
    assert(regs[regs.len() - 1].id < n);
}

proof fn lemma_next_id(issued: nat)
    ensures
        (issued + 1) % 0x1_0000_0000_0000_0000 == (issued % 0x1_0000_0000_0000_0000 + 1)
            % 0x1_0000_0000_0000_0000,
{
}

/// A flag is set after a change if it was to be set, or if it was set before and was not
/// to be cleared.
pub proof fn law_flags_change(event: Event, reset: Event, set: Event, i: u32)
    requires
        i < 32,
    ensures
        ({
            let before = (event.bits >> i) & 1 == 1;
            let cleared = (reset.bits >> i) & 1 == 1;
            let wanted = (set.bits >> i) & 1 == 1;
            let after = (event.changed(reset, set).bits >> i) & 1 == 1;
            after == (wanted || (before && !cleared))
        }),
{
    let e = event.bits;
    let r = reset.bits;
    let s = set.bits;
    assert((((e & !r) | s) >> i) & 1 == 1 <==> ((s >> i) & 1 == 1 || ((e >> i) & 1 == 1 && (r >> i)
        & 1 != 1))) by (bit_vector)
        requires
            i < 32,
    ;
}

/// Whether the handler at place `i` is told of `event`, and what comes of it: a callback
/// is called with it and decides, and a waker is woken and done if one of the flags that
/// it waits for is set.
pub open spec fn hears<C: EventHandler, W: Wake>(
    handler: Handler<C, W>,
    event: Event,
    notices: Seq<Notice<C, W>>,
    done: bool,
) -> bool {
    match handler {
        Handler::Callback(c) => notices.contains(Notice::Called(c, event, done)),
        Handler::Waker(mask, w) => {
            &&& done == (event.bits & mask.bits != 0)
            &&& done ==> notices.contains(Notice::Woke(w)) && w.woken()
        },
    }
}

/// Whether `notice` is for `handler` and tells it of `event`.
pub open spec fn is_for<C: EventHandler, W: Wake>(
    notice: Notice<C, W>,
    handler: Handler<C, W>,
    event: Event,
) -> bool {
    match (notice, handler) {
        (Notice::Called(c, e, _), Handler::Callback(d)) => c == d && e == event,
        (Notice::Woke(w), Handler::Waker(mask, v)) => w == v && event.bits & mask.bits != 0,
        _ => false,
    }
}

/// Whether `notice` is for one of `regs` and tells it of `event`.
pub open spec fn is_for_one<C: EventHandler, W: Wake>(
    notice: Notice<C, W>,
    regs: Seq<Registered<C, W>>,
    event: Event,
) -> bool {
    exists|i: int| 0 <= i < regs.len() && #[trigger] is_for(notice, regs[i].handler, event)
}

proof fn lemma_all_hear<C: EventHandler, W: Wake>(
    regs: Seq<Registered<C, W>>,
    event: Event,
    notices: Seq<Notice<C, W>>,
    done: Seq<bool>,
)
    requires
        asked(regs, event, notices, done),
    ensures
        done.len() == regs.len(),
        notices.len() <= regs.len(),
        forall|i: int|
            0 <= i < regs.len() ==> hears(
                (#[trigger] regs[i]).handler,
                event,
                notices,
                done[i],
            ),
        forall|j: int| 0 <= j < notices.len() ==> is_for_one(#[trigger] notices[j], regs, event),
        is_rest(regs, done, unfinished(regs, done)),
    decreases regs.len(), 1nat,
{
    if regs.len() == 0 {
        lemma_rest_of_nothing(regs, done);
    } else {
        lemma_all_hear_more(regs, event, notices, done);
    }
}

proof fn lemma_all_hear_more<C: EventHandler, W: Wake>(
    regs: Seq<Registered<C, W>>,
    event: Event,
    notices: Seq<Notice<C, W>>,
    done: Seq<bool>,
)
    requires
        asked(regs, event, notices, done),
        regs.len() > 0,
    ensures
        done.len() == regs.len(),
        notices.len() <= regs.len(),
        forall|i: int|
            0 <= i < regs.len() ==> hears(
                (#[trigger] regs[i]).handler,
                event,
                notices,
                done[i],
            ),
        forall|j: int| 0 <= j < notices.len() ==> is_for_one(#[trigger] notices[j], regs, event),
        is_rest(regs, done, unfinished(regs, done)),
    decreases regs.len(), 0nat,
{
    let n = choose|n: int|
        {
            &&& 0 <= n <= notices.len()
            &&& #[trigger] regs.last().handler.answers(event, notices.skip(n), done.last())
            &&& asked(regs.drop_last(), event, notices.take(n), done.drop_last())
        };
    let before = notices.take(n);
    let last = notices.skip(n);
    lemma_all_hear(regs.drop_last(), event, before, done.drop_last());
    lemma_rest_grows(regs, done, unfinished(regs.drop_last(), done.drop_last()));
    assert(notices =~= before + last);
    assert forall|i: int| 0 <= i < regs.len() implies hears(
        (#[trigger] regs[i]).handler,
        event,
        notices,
        done[i],
    ) by {
        if i < regs.len() - 1 {
            assert(regs.drop_last()[i] == regs[i]);
            assert(done.drop_last()[i] == done[i]);
            match regs[i].handler {
                Handler::Callback(c) => {
                    let told = Notice::<C, W>::Called(c, event, done[i]);
                    assert(before.contains(told));
                    assert(notices[before.index_of(told)] == told);
                },
                Handler::Waker(mask, w) => {
                    if done[i] {
                        let told = Notice::<C, W>::Woke(w);
                        assert(before.contains(told));
                        assert(notices[before.index_of(told)] == told);
                    }
                },
            }
        } else if last.len() > 0 {
            assert(notices[n] == last[0]);
        }
    }
    assert forall|j: int| 0 <= j < notices.len() implies is_for_one(
        #[trigger] notices[j],
        regs,
        event,
    ) by {
        if j < n {
            assert(before[j] == notices[j]);
            assert(is_for_one(before[j], regs.drop_last(), event));
            let i = choose|i: int|
                0 <= i < regs.drop_last().len() && #[trigger] is_for(
                    before[j],
                    regs.drop_last()[i].handler,
                    event,
                );
            assert(is_for(notices[j], regs[i].handler, event));
        } else {
            assert(last[j - n] == notices[j]);
            assert(is_for(notices[j], regs[regs.len() - 1].handler, event));
        }
    }
}

/// A change of flags is told to everybody whom it concerns: every callback is called
/// with the flags as they are now, and every waker that waits for one of them is woken.
/// Nobody else is disturbed. Who is done is dropped, and all others stay in the order in
/// which they were.
pub proof fn law_change_is_told<C: EventHandler, W: Wake>(
    before: EventBus<C, W>,
    after: EventBus<C, W>,
    reset: Event,
    set: Event,
)
    requires
        before.changes(after, reset, set),
        after.event() != before.event(),
    ensures
        before.notices().is_prefix_of(after.notices()),
        ({
            let told = after.notices().skip(before.notices().len() as int);
            &&& forall|j: int|
                0 <= j < told.len() ==> is_for_one(
                    #[trigger] told[j],
                    before.regs(),
                    after.event(),
                )
            &&& told.len() <= before.regs().len()
            &&& exists|done: Seq<bool>|
                {
                    &&& #[trigger] is_rest(before.regs(), done, after.regs())
                    &&& forall|i: int|
                        0 <= i < before.regs().len() ==> hears(
                            (#[trigger] before.regs()[i]).handler,
                            after.event(),
                            told,
                            done[i],
                        )
                }
        }),
{
    let told = after.notices().skip(before.notices().len() as int);
    let done = choose|done: Seq<bool>|
        {
            &&& #[trigger] asked(before.regs(), after.event(), told, done)
            &&& before.notices().len() <= after.notices().len()
            &&& before.notices() == after.notices().take(before.notices().len() as int)
            &&& after.regs() == unfinished(before.regs(), done)
        };
    lemma_all_hear(before.regs(), after.event(), told, done);
    assert(is_rest(before.regs(), done, after.regs()));
}

/// Those who stay after a removal are exactly those with another id, in the order in
/// which they were.
pub proof fn law_others_stay_after_a_removal<C: EventHandler, W: Wake>(
    regs: Seq<Registered<C, W>>,
    id: u64,
)
    ensures
        is_rest(regs, regs.map_values(|reg: Registered<C, W>| reg.id == id), without(regs, id)),
    decreases regs.len(),
{
    let gone = regs.map_values(|reg: Registered<C, W>| reg.id == id);
    if regs.len() == 0 {
        lemma_rest_of_nothing(regs, gone);
    } else {
        law_others_stay_after_a_removal(regs.drop_last(), id);
        assert(gone.drop_last() =~= regs.drop_last().map_values(
            |reg: Registered<C, W>| reg.id == id,
        ));
        lemma_rest_grows(regs, gone, without(regs.drop_last(), id));
    }
}

/// A subscription that is kept comes behind all others and can be found by its id. It
/// makes nobody go unless the bus is full, and then the oldest one only.
pub proof fn law_newcomer_is_last<C: EventHandler, W: Wake>(
    before: EventBus<C, W>,
    after: EventBus<C, W>,
    handler: Handler<C, W>,
    id: u64,
)
    requires
        before.subscribes(after, handler, Some(id)),
        before.regs().len() <= 4096,
    ensures
        after.regs().last().id == id,
        after.regs().last().handler == handler,
        before.regs().len() < 4096 ==> after.regs().drop_last() == before.regs(),
        before.regs().len() == 4096 ==> after.regs().drop_last() == before.regs().drop_first(),
{
    assert(after.regs().drop_last() =~= before.regs() || after.regs().drop_last()
        =~= before.regs().drop_first());
    if before.regs().len() < 4096 {
        assert(after.regs().drop_last() =~= before.regs());
    } else {
        assert(after.regs().drop_last() =~= before.regs().drop_first());
    }
}

} // verus!
