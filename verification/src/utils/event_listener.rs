//! Listeners to events of a device.

use vstd::prelude::*;

use crate::utils::rest::{is_rest, lemma_rest_grows, lemma_rest_of_nothing};

verus! {

/// No more handlers than this wait for a single event.
pub const MAX_ONCE_HANDLERS: usize = 64;

/// What is to be done about an event.
pub trait EventHandler<T> {
    /// Whether the handler has seen to `event`. What that means is its own affair.
    open spec fn handled(&self, event: &T) -> bool {
        true
    }

    /// Deals with `event`. A call leaves no mark on the handler, so the contracts say that
    /// a handler was called, and not how often.
    fn handle(&self, event: &T)
        ensures
            self.handled(event),
    ;
}

/// A handler with its subscription id.
pub struct Subscriber<F> {
    pub id: u64,
    pub handler: F,
    /// The handler is dropped after its first event.
    pub once: bool,
}

/// A listener: handlers of events of one type, in order of subscription.
pub struct EventListener<T, F: EventHandler<T>> {
    events: Vec<Subscriber<F>>,
    next_id: u64,
    issued: Ghost<nat>,
    calls: Ghost<Seq<(F, T)>>,
}

/// The number of subscribers that wait for a single event.
pub open spec fn once_count<F>(subs: Seq<Subscriber<F>>) -> nat
    decreases subs.len(),
{
    if subs.len() == 0 {
        0
    } else {
        once_count(subs.drop_last()) + if subs.last().once {
            1nat
        } else {
            0
        }
    }
}

/// `subs` without the subscriber at `pos`, which is the first that waits for a
/// single event.
pub open spec fn is_first_once<F>(subs: Seq<Subscriber<F>>, pos: int) -> bool {
    &&& 0 <= pos < subs.len()
    &&& subs[pos].once
    &&& forall|i: int| 0 <= i < pos ==> !(#[trigger] subs[i]).once
}

/// Every id is one of the first `n`.
pub open spec fn ids_below<F>(subs: Seq<Subscriber<F>>, n: nat) -> bool {
    forall|i: int| 0 <= i < subs.len() ==> (#[trigger] subs[i]).id < n
}

/// The subscribers other than the one with the given id, in order.
pub open spec fn without<F>(subs: Seq<Subscriber<F>>, id: u64) -> Seq<Subscriber<F>>
    decreases subs.len(),
{
    if subs.len() == 0 {
        Seq::empty()
    } else if subs.last().id == id {
        without(subs.drop_last(), id)
    } else {
        without(subs.drop_last(), id).push(subs.last())
    }
}

/// The subscribers that stay after an event, in order.
pub open spec fn lasting<F>(subs: Seq<Subscriber<F>>) -> Seq<Subscriber<F>>
    decreases subs.len(),
{
    if subs.len() == 0 {
        Seq::empty()
    } else if subs.last().once {
        lasting(subs.drop_last())
    } else {
        lasting(subs.drop_last()).push(subs.last())
    }
}

/// The calls that hand `event` to each subscriber in order.
pub open spec fn notified<T, F>(subs: Seq<Subscriber<F>>, event: T) -> Seq<(F, T)> {
    Seq::new(subs.len(), |i: int| (subs[i].handler, event))
}

impl<T, F: EventHandler<T>> EventListener<T, F> {
    /// The subscribers, in order of subscription.
    pub closed spec fn subs(&self) -> Seq<Subscriber<F>> {
        self.events@
    }

    /// The id of the next subscriber.
    pub closed spec fn next_id(&self) -> u64 {
        self.next_id
    }

    /// How many ids have been handed out. They are handed out in order, and come
    /// round only when the counter runs over.
    pub closed spec fn issued(&self) -> nat {
        self.issued@
    }

    /// No more subscribers wait for a single event than allowed. Every subscriber has
    /// an id that was handed out, and nobody will get it again before the counter has
    /// run over.
    pub open spec fn wf(&self) -> bool {
        &&& once_count(self.subs()) <= MAX_ONCE_HANDLERS
        &&& self.next_id() == self.issued() % 0x1_0000_0000_0000_0000
        &&& self.issued() <= u64::MAX ==> ids_below(self.subs(), self.issued())
    }

    /// Every call of a handler made so far, oldest first.
    pub closed spec fn calls(&self) -> Seq<(F, T)> {
        self.calls@
    }

    /// Creates a listener without subscribers.
    pub fn new() -> (listener: Self)
        ensures
            listener.wf(),
            listener.subs() == Seq::<Subscriber<F>>::empty(),
            listener.next_id() == 0,
            listener.issued() == 0,
            listener.calls() == Seq::<(F, T)>::empty(),
    {
        EventListener {
            events: Vec::new(),
            next_id: 0,
            issued: Ghost(0),
            calls: Ghost(Seq::empty()),
        }
    }

    /// Counts the subscribers that wait for a single event, and finds the first of
    /// them.
    fn survey(&self) -> (found: (usize, Option<usize>))
        ensures
            found.0 == once_count(self.subs()),
            match found.1 {
                Some(pos) => is_first_once(self.subs(), pos as int),
                None => found.0 == 0,
            },
    {
        let mut count: usize = 0;
        let mut first: Option<usize> = None;
        let mut i: usize = 0;
        assert(self.events@.take(0) =~= Seq::<Subscriber<F>>::empty());
        while i < self.events.len()
            invariant
                i <= self.events@.len(),
                count <= i,
                count == once_count(self.events@.take(i as int)),
                match first {
                    Some(pos) => pos < i && is_first_once(self.events@, pos as int),
                    None => count == 0 && forall|k: int|
                        0 <= k < i ==> !(#[trigger] self.events@[k]).once,
                },
            decreases self.events.len() - i,
        {
            assert(self.events@.take(i + 1).drop_last() =~= self.events@.take(i as int));
            assert(self.events@.take(i + 1).last() == self.events@[i as int]);
            if self.events[i].once {
                count += 1;
                if first.is_none() {
                    first = Some(i);
                }
            }
            i += 1;
        }
        assert(self.events@.take(i as int) =~= self.events@);
        (count, first)
    }

    /// Registers a handler, and returns the id under which it can be removed. A
    /// handler that is to run `once` makes the oldest such handler give way when
    /// there are too many of them.
    pub fn subscribe(&mut self, handler: F, once: bool) -> (id: Option<u64>)
        requires
            old(self).wf(),
        ensures
            final(self).wf(),
            id == Some(old(self).next_id()),
            final(self).next_id() == (old(self).next_id() + 1) % 0x1_0000_0000_0000_0000,
            final(self).issued() == old(self).issued() + 1,
            final(self).calls() == old(self).calls(),
            ({
                let sub = Subscriber { id: old(self).next_id(), handler, once };
                if once && once_count(old(self).subs()) >= MAX_ONCE_HANDLERS {
                    exists|pos: int|
                        #[trigger] is_first_once(old(self).subs(), pos) && final(self).subs()
                            == old(self).subs().remove(pos).push(sub)
                } else {
                    final(self).subs() == old(self).subs().push(sub)
                }
            }),
    {
        let ghost subs = self.subs();
        let ghost mut rest = subs;
        if once {
            let (count, first): (usize, Option<usize>) = self.survey();
            if count >= MAX_ONCE_HANDLERS {
                if let Some(pos) = first {
                    let _oldest: Subscriber<F> = self.events.remove(pos);
                    proof {
                        rest = subs.remove(pos as int);
                        lemma_remove_once(subs, pos as int);
                        lemma_ids_below_remove(subs, pos as int, self.issued());
                    }
                }
            }
        }
        let id: u64 = self.next_id;
        self.next_id = self.next_id.wrapping_add(1);
        self.issued = Ghost((self.issued@ + 1) as nat);
        self.events.push(Subscriber { id, handler, once });
        proof {
            assert(self.subs().drop_last() =~= rest);
            lemma_next_id((self.issued() - 1) as nat);
        }
        Some(id)
    }

    /// Removes a handler by its id. Nothing happens if it is gone already.
    pub fn unsubscribe(&mut self, id: u64)
        requires
            old(self).wf(),
        ensures
            final(self).wf(),
            final(self).subs() == without(old(self).subs(), id),
            final(self).next_id() == old(self).next_id(),
            final(self).issued() == old(self).issued(),
            final(self).calls() == old(self).calls(),
    {
        let mut pending: Vec<Subscriber<F>> = Vec::new();
        std::mem::swap(&mut pending, &mut self.events);
        let ghost subs = pending@;
        let mut kept: Vec<Subscriber<F>> = Vec::new();
        assert(subs.take(0) =~= Seq::<Subscriber<F>>::empty());
        for sub in it: pending.into_iter()
            invariant
                it.seq() == subs,
                kept@ == without(subs.take(it.index() as int), id),
        {
            let ghost i = it.index() as int;
            assert(subs.take(i + 1).drop_last() =~= subs.take(i));
            assert(subs.take(i + 1).last() == sub);
            if sub.id != id {
                kept.push(sub);
            }
        }
        assert(subs.take(subs.len() as int) =~= subs);
        self.events = kept;
        proof {
            lemma_without_keeps(subs, id, self.issued());
        }
    }

    /// Takes all subscribers out, so that handlers can subscribe anew while an
    /// event is handed around.
    pub fn begin(&mut self) -> (drained: Vec<Subscriber<F>>)
        requires
            old(self).wf(),
        ensures
            final(self).wf(),
            drained@ == old(self).subs(),
            final(self).subs() == Seq::<Subscriber<F>>::empty(),
            final(self).next_id() == old(self).next_id(),
            final(self).issued() == old(self).issued(),
            final(self).calls() == old(self).calls(),
    {
        let mut drained: Vec<Subscriber<F>> = Vec::new();
        std::mem::swap(&mut drained, &mut self.events);
        drained
    }

    /// Hands an event to each of `drained`, and returns those that stay.
    pub fn notify(&mut self, drained: Vec<Subscriber<F>>, event: &T) -> (kept: Vec<Subscriber<F>>)
        ensures
            kept@ == lasting(drained@),
            final(self).subs() == old(self).subs(),
            final(self).next_id() == old(self).next_id(),
            final(self).issued() == old(self).issued(),
            final(self).calls() == old(self).calls() + notified(drained@, *event),
            forall|i: int|
                0 <= i < drained@.len() ==> (#[trigger] drained@[i]).handler.handled(event),
    {
        let ghost subs = drained@;
        let ghost before = self.calls();
        let mut kept: Vec<Subscriber<F>> = Vec::new();
        assert(subs.take(0) =~= Seq::<Subscriber<F>>::empty());
        assert(before =~= before + notified(subs.take(0), *event));
        for sub in it: drained.into_iter()
            invariant
                it.seq() == subs,
                self.subs() == old(self).subs(),
                self.next_id() == old(self).next_id(),
                self.issued() == old(self).issued(),
                before == old(self).calls(),
                forall|k: int|
                    0 <= k < it.index() ==> (#[trigger] subs[k]).handler.handled(event),
                self.calls() == before + notified(subs.take(it.index() as int), *event),
                kept@ == lasting(subs.take(it.index() as int)),
        {
            let ghost i = it.index() as int;
            assert(subs.take(i + 1).drop_last() =~= subs.take(i));
            assert(subs.take(i + 1).last() == sub);
            sub.handler.handle(event);
            self.calls = Ghost(self.calls@.push((sub.handler, *event)));
            assert(self.calls() =~= before + notified(subs.take(i + 1), *event));
            if !sub.once {
                kept.push(sub);
            }
        }
        assert(subs.take(subs.len() as int) =~= subs);
        kept
    }

    /// Puts the subscribers that stay back, before those that came in the
    /// meantime.
    pub fn finish(&mut self, kept: Vec<Subscriber<F>>)
        requires
            old(self).wf(),
            once_count(kept@) == 0,
            old(self).issued() <= u64::MAX ==> ids_below(kept@, old(self).issued()),
        ensures
            final(self).wf(),
            final(self).subs() == kept@ + old(self).subs(),
            final(self).next_id() == old(self).next_id(),
            final(self).issued() == old(self).issued(),
            final(self).calls() == old(self).calls(),
    {
        let ghost staying = kept@;
        let ghost late = self.subs();
        let mut kept = kept;
        kept.append(&mut self.events);
        self.events = kept;
        proof {
            lemma_once_count_add(staying, late);
            assert(self.subs() =~= staying + late);
        }
    }

    /// Hands an event to every subscriber, in order of subscription.
    pub fn trigger(&mut self, event: T)
        requires
            old(self).wf(),
        ensures
            final(self).wf(),
            final(self).subs() == lasting(old(self).subs()),
            final(self).next_id() == old(self).next_id(),
            final(self).issued() == old(self).issued(),
            final(self).calls() == old(self).calls() + notified(old(self).subs(), event),
            forall|i: int|
                0 <= i < old(self).subs().len() ==> (
                #[trigger] old(self).subs()[i]).handler.handled(&event),
    {
        proof {
            lemma_lasting(self.subs(), self.issued());
        }
        let drained: Vec<Subscriber<F>> = self.begin();
        let kept: Vec<Subscriber<F>> = self.notify(drained, &event);
        self.finish(kept);
        assert(self.subs() =~= lasting(old(self).subs()));
    }
}

impl<T, F: EventHandler<T>> Default for EventListener<T, F> {
    fn default() -> (listener: Self)
        ensures
            listener.wf(),
            listener.subs() == Seq::<Subscriber<F>>::empty(),
            listener.next_id() == 0,
            listener.issued() == 0,
            listener.calls() == Seq::<(F, T)>::empty(),
    {
        Self::new()
    }
}

/// After a removal nobody has the removed id, and everybody else is still there,
/// in the same order.
pub proof fn law_unsubscribed_is_gone<F>(subs: Seq<Subscriber<F>>, id: u64)
    ensures
        forall|i: int|
            0 <= i < without(subs, id).len() ==> (#[trigger] without(subs, id)[i]).id != id,
        (forall|i: int| 0 <= i < subs.len() ==> (#[trigger] subs[i]).id != id) ==> without(subs, id)
            == subs,
    decreases subs.len(),
{
    if subs.len() > 0 {
        law_unsubscribed_is_gone(subs.drop_last(), id);
        let rest = without(subs.drop_last(), id);
        assert forall|i: int| 0 <= i < without(subs, id).len() implies (#[trigger] without(
            subs,
            id,
        )[i]).id != id by {
            if i < rest.len() {
                assert(without(subs, id)[i] == rest[i]);
            }
        }
        if forall|i: int| 0 <= i < subs.len() ==> (#[trigger] subs[i]).id != id {
            assert forall|i: int| 0 <= i < subs.drop_last().len() implies (
            #[trigger] subs.drop_last()[i]).id != id by {
                assert(subs[i].id != id);
            }
            assert(subs.last() == subs[subs.len() - 1]);
            assert(without(subs, id) =~= subs);
        }
    }
}

/// No subscriber that waits for a single event stays after an event, and an event
/// changes nothing about the others.
pub proof fn law_once_is_gone<F>(subs: Seq<Subscriber<F>>)
    ensures
        forall|i: int| 0 <= i < lasting(subs).len() ==> !(#[trigger] lasting(subs)[i]).once,
        lasting(lasting(subs)) == lasting(subs),
    decreases subs.len(),
{
    if subs.len() > 0 {
        law_once_is_gone(subs.drop_last());
        let rest = lasting(subs.drop_last());
        if !subs.last().once {
            assert(lasting(subs).drop_last() =~= rest);
        }
    }
}

/// Nobody on a listener has the id that the next subscriber gets, so a subscription
/// that is taken back at once leaves everybody else as they were: those who were there,
/// but for the one who may have had to give way.
pub proof fn law_subscription_can_be_taken_back<F>(
    subs: Seq<Subscriber<F>>,
    issued: nat,
    sub: Subscriber<F>,
)
    requires
        issued <= u64::MAX,
        ids_below(subs, issued),
        sub.id == issued,
    ensures
        forall|i: int| 0 <= i < subs.len() ==> (#[trigger] subs[i]).id != sub.id,
        without(subs.push(sub), sub.id) == subs,
{
    law_unsubscribed_is_gone(subs, sub.id);
    assert(subs.push(sub).drop_last() =~= subs);
}

proof fn lemma_remove_once<F>(subs: Seq<Subscriber<F>>, pos: int)
    requires
        0 <= pos < subs.len(),
        subs[pos].once,
    ensures
        once_count(subs.remove(pos)) + 1 == once_count(subs),
    decreases subs.len(),
{
    if pos == subs.len() - 1 {
        assert(subs.remove(pos) =~= subs.drop_last());
    } else {
        lemma_remove_once(subs.drop_last(), pos);
        assert(subs.remove(pos).drop_last() =~= subs.drop_last().remove(pos));
        assert(subs.remove(pos).last() == subs.last());
    }
}

proof fn lemma_ids_below_remove<F>(subs: Seq<Subscriber<F>>, pos: int, n: nat)
    requires
        0 <= pos < subs.len(),
    ensures
        ids_below(subs, n) ==> ids_below(subs.remove(pos), n),
{
    if ids_below(subs, n) {
        assert forall|i: int| 0 <= i < subs.remove(pos).len() implies (#[trigger] subs.remove(
            pos,
        )[i]).id < n by {
            if i < pos {
                assert(subs.remove(pos)[i] == subs[i]);
            } else {
                assert(subs.remove(pos)[i] == subs[i + 1]);
            }
        }
    }
}

proof fn lemma_without_keeps<F>(subs: Seq<Subscriber<F>>, id: u64, n: nat)
    ensures
        once_count(without(subs, id)) <= once_count(subs),
        ids_below(subs, n) ==> ids_below(without(subs, id), n),
    decreases subs.len(),
{
    if subs.len() > 0 {
        lemma_without_keeps(subs.drop_last(), id, n);
        let rest = without(subs.drop_last(), id);
        assert(rest.push(subs.last()).drop_last() =~= rest);
        if ids_below(subs, n) {
            assert forall|i: int| 0 <= i < subs.drop_last().len() implies (
            #[trigger] subs.drop_last()[i]).id < n by {
                assert(subs[i].id < n);
            }
            assert(subs[subs.len() - 1].id < n);
        }
    }
}

proof fn lemma_lasting<F>(subs: Seq<Subscriber<F>>, n: nat)
    ensures
        once_count(lasting(subs)) == 0,
        ids_below(subs, n) ==> ids_below(lasting(subs), n),
    decreases subs.len(),
{
    if subs.len() > 0 {
        lemma_lasting(subs.drop_last(), n);
        let rest = lasting(subs.drop_last());
        assert(rest.push(subs.last()).drop_last() =~= rest);
        if ids_below(subs, n) {
            assert forall|i: int| 0 <= i < subs.drop_last().len() implies (
            #[trigger] subs.drop_last()[i]).id < n by {
                assert(subs[i].id < n);
            }
            assert(subs[subs.len() - 1].id < n);
        }
    }
}

proof fn lemma_once_count_add<F>(a: Seq<Subscriber<F>>, b: Seq<Subscriber<F>>)
    ensures
        once_count(a + b) == once_count(a) + once_count(b),
    decreases b.len(),
{
    if b.len() == 0 {
        assert(a + b =~= a);
    } else {
        lemma_once_count_add(a, b.drop_last());
        assert((a + b).drop_last() =~= a + b.drop_last());
        assert((a + b).last() == b.last());
    }
}

proof fn lemma_next_id(issued: nat)
    ensures
        (issued + 1) % 0x1_0000_0000_0000_0000 == (issued % 0x1_0000_0000_0000_0000 + 1)
            % 0x1_0000_0000_0000_0000,
{
}

/// An event reaches every subscriber, in order of subscription and once.
pub proof fn law_everybody_is_told<T, F>(subs: Seq<Subscriber<F>>, event: T, i: int)
    requires
        0 <= i < subs.len(),
    ensures
        notified(subs, event).len() == subs.len(),
        notified(subs, event)[i] == (subs[i].handler, event),
{
}

/// Those who stay after an event are exactly those who wait for more than one, in the
/// order in which they were.
pub proof fn law_others_stay_after_an_event<F>(subs: Seq<Subscriber<F>>)
    ensures
        is_rest(subs, subs.map_values(|sub: Subscriber<F>| sub.once), lasting(subs)),
    decreases subs.len(),
{
    let gone = subs.map_values(|sub: Subscriber<F>| sub.once);
    if subs.len() == 0 {
        lemma_rest_of_nothing(subs, gone);
    } else {
        law_others_stay_after_an_event(subs.drop_last());
        assert(gone.drop_last() =~= subs.drop_last().map_values(|sub: Subscriber<F>| sub.once));
        lemma_rest_grows(subs, gone, lasting(subs.drop_last()));
    }
}

/// Those who stay after a removal are exactly those with another id, in the order in
/// which they were.
pub proof fn law_others_stay_after_a_removal<F>(subs: Seq<Subscriber<F>>, id: u64)
    ensures
        is_rest(subs, subs.map_values(|sub: Subscriber<F>| sub.id == id), without(subs, id)),
    decreases subs.len(),
{
    let gone = subs.map_values(|sub: Subscriber<F>| sub.id == id);
    if subs.len() == 0 {
        lemma_rest_of_nothing(subs, gone);
    } else {
        law_others_stay_after_a_removal(subs.drop_last(), id);
        assert(gone.drop_last() =~= subs.drop_last().map_values(
            |sub: Subscriber<F>| sub.id == id,
        ));
        lemma_rest_grows(subs, gone, without(subs.drop_last(), id));
    }
}

} // verus!
