use std::cell::RefCell;
use std::rc::Rc;

use zcore::sync::event_bus::{
    release, subscribe_readiness_on, subscribe_waker, wait_for_event, Event, EventBus,
    EventHandler, Handler, Parked, ReadinessSub, Source, Wake, CLOSED, MAX_EVENT_CALLBACKS, READABLE, WRITABLE,
};
use zcore::utils::event_listener::{EventListener, MAX_ONCE_HANDLERS};

#[derive(Clone)]
struct Counter {
    seen: Rc<RefCell<Vec<u32>>>,
    done: bool,
}

impl Counter {
    fn new(done: bool) -> Self {
        Counter { seen: Rc::new(RefCell::new(Vec::new())), done }
    }
}

impl EventHandler for Counter {
    fn handle(&self, event: Event) -> bool {
        self.seen.borrow_mut().push(event.bits);
        self.done
    }
}

impl zcore::utils::event_listener::EventHandler<u32> for Counter {
    fn handle(&self, event: &u32) {
        self.seen.borrow_mut().push(*event);
    }
}

#[derive(Clone)]
struct Bell(Rc<RefCell<usize>>);

impl Wake for Bell {
    fn wake_by_ref(&self) {
        *self.0.borrow_mut() += 1;
    }
}

fn bell() -> Bell {
    Bell(Rc::new(RefCell::new(0)))
}

type TestBus = EventBus<Counter, Bell>;

#[test]
fn flags_are_set_and_cleared() {
    let mut bus: TestBus = EventBus::new();
    bus.set(Event::from_bits(READABLE | CLOSED));
    bus.clear(Event::from_bits(CLOSED));
    assert_eq!(bus.events().bits, READABLE);
    bus.change(Event::from_bits(READABLE), Event::from_bits(WRITABLE));
    assert_eq!(bus.events().bits, WRITABLE);
    assert!(Event::empty().is_empty());
}

#[test]
fn callbacks_hear_of_changes_only() {
    let mut bus: TestBus = EventBus::new();
    let keep = Counter::new(false);
    let once = Counter::new(true);
    assert!(bus.subscribe(Handler::Callback(keep.clone())).is_some());
    assert!(bus.subscribe(Handler::Callback(once.clone())).is_some());
    bus.set(Event::from_bits(READABLE));
    bus.set(Event::from_bits(READABLE));
    bus.clear(Event::from_bits(WRITABLE));
    bus.clear(Event::from_bits(READABLE));
    assert_eq!(*keep.seen.borrow(), vec![READABLE, 0]);
    assert_eq!(*once.seen.borrow(), vec![READABLE]);
    assert_eq!(bus.get_callback_len(), 1);
}

#[test]
fn unsubscribed_handlers_are_gone() {
    let mut bus: TestBus = EventBus::new();
    let first = Counter::new(false);
    let second = Counter::new(false);
    let id = bus.subscribe(Handler::Callback(first.clone())).unwrap();
    let other = bus.subscribe(Handler::Callback(second.clone())).unwrap();
    assert_ne!(id, other);
    bus.unsubscribe(id);
    bus.set(Event::from_bits(CLOSED));
    assert!(first.seen.borrow().is_empty());
    assert_eq!(second.seen.borrow().len(), 1);
}

#[test]
fn subscription_is_taken_back() {
    let mut bus: TestBus = EventBus::new();
    let first = Counter::new(false);
    let id = bus.subscribe(Handler::Callback(first.clone())).unwrap();
    let second = bus.subscribe(Handler::Callback(Counter::new(false))).unwrap();
    bus.unsubscribe(second);
    bus.unsubscribe(second);
    assert_eq!(bus.get_callback_len(), 1);
    assert!(first.seen.borrow().is_empty());
    let third = bus.subscribe(Handler::Callback(Counter::new(false))).unwrap();
    assert!(id < second && second < third);
    bus.set(Event::from_bits(READABLE));
    assert_eq!(*first.seen.borrow(), vec![READABLE]);
}

#[test]
fn lasting_handlers_do_not_give_way() {
    let mut listener: EventListener<u32, Counter> = EventListener::new();
    let always = Counter::new(false);
    listener.subscribe(always.clone(), false);
    let mut ids = Vec::new();
    for _ in 0..2 * MAX_ONCE_HANDLERS {
        ids.push(listener.subscribe(Counter::new(false), true).unwrap());
    }
    ids.dedup();
    assert_eq!(ids.len(), 2 * MAX_ONCE_HANDLERS);
    listener.trigger(8);
    assert_eq!(*always.seen.borrow(), vec![8]);
}

#[test]
fn waker_of_a_set_flag_is_woken_at_once() {
    let mut bus: TestBus = EventBus::new();
    bus.set(Event::from_bits(READABLE));
    let rings = bell();
    assert_eq!(subscribe_waker(&mut bus, Event::from_bits(READABLE), rings.clone()), None);
    assert_eq!(*rings.0.borrow(), 1);
    assert_eq!(bus.get_callback_len(), 0);
    assert!(subscribe_waker(&mut bus, Event::from_bits(WRITABLE), rings.clone()).is_some());
    assert_eq!(*rings.0.borrow(), 1);
    bus.set(Event::from_bits(CLOSED));
    assert_eq!(*rings.0.borrow(), 1);
    bus.set(Event::from_bits(WRITABLE));
    assert_eq!(*rings.0.borrow(), 2);
    assert_eq!(bus.get_callback_len(), 0);
}

struct Desk(Rc<RefCell<Vec<u64>>>);

impl Source for Desk {
    fn unsubscribe(&self, id: u64) {
        self.0.borrow_mut().push(id);
    }
}

#[test]
fn readiness_is_released() {
    let mut bus: TestBus = EventBus::new();
    let ids = Rc::new(RefCell::new(Vec::new()));
    let desk = || Desk(ids.clone());
    let mask = Event::from_bits(READABLE);
    let mut sub = subscribe_readiness_on(&mut bus, desk(), mask, bell());
    assert_eq!(bus.get_callback_len(), 1);
    release(&mut bus, &mut sub);
    assert_eq!(bus.get_callback_len(), 0);
    sub.clean_up();
    assert!(ids.borrow().is_empty());
    bus.set(mask);
    let sub = subscribe_readiness_on(&mut bus, desk(), mask, bell());
    assert!(sub.unsub.is_none());
    assert_eq!(bus.get_callback_len(), 0);
}

#[test]
fn cleanup_runs_once() {
    let ids = Rc::new(RefCell::new(Vec::new()));
    let mut sub = ReadinessSub::new(Parked { source: Desk(ids.clone()), id: 7 });
    assert!(ids.borrow().is_empty());
    sub.clean_up();
    sub.clean_up();
    assert_eq!(*ids.borrow(), vec![7]);
    let mut none: ReadinessSub<Parked<Desk>> = ReadinessSub::noop();
    assert!(none.take().is_none());
    none.clean_up();
    assert_eq!(*ids.borrow(), vec![7]);
}

#[test]
fn future_waits_for_its_flags() {
    let mut bus: TestBus = EventBus::new();
    let rings = bell();
    let mut future = wait_for_event(Event::from_bits(READABLE));
    assert!(future.poll(&mut bus, rings.clone()).is_none());
    assert!(future.poll(&mut bus, rings.clone()).is_none());
    assert_eq!(bus.get_callback_len(), 1);
    bus.set(Event::from_bits(READABLE | WRITABLE));
    assert_eq!(*rings.0.borrow(), 1);
    assert_eq!(future.poll(&mut bus, rings.clone()).unwrap().bits, READABLE | WRITABLE);
    assert_eq!(bus.get_callback_len(), 0);
    let mut dropped = wait_for_event(Event::from_bits(CLOSED));
    assert!(dropped.poll(&mut bus, rings).is_none());
    dropped.cancel(&mut bus);
    assert_eq!(bus.get_callback_len(), 0);
}

#[test]
fn subscriptions_are_limited() {
    let mut bus: TestBus = EventBus::new();
    for _ in 0..MAX_EVENT_CALLBACKS + 5 {
        bus.subscribe(Handler::Callback(Counter::new(false)));
    }
    assert_eq!(bus.get_callback_len(), MAX_EVENT_CALLBACKS);
}

#[test]
fn listener_calls_in_order_and_drops_once() {
    let mut listener: EventListener<u32, Counter> = EventListener::new();
    let always = Counter::new(false);
    let once = Counter::new(false);
    listener.subscribe(once.clone(), true);
    let id = listener.subscribe(always.clone(), false).unwrap();
    listener.trigger(3);
    listener.trigger(4);
    assert_eq!(*once.seen.borrow(), vec![3]);
    assert_eq!(*always.seen.borrow(), vec![3, 4]);
    listener.unsubscribe(id);
    listener.trigger(5);
    assert_eq!(*always.seen.borrow(), vec![3, 4]);
}

#[test]
fn once_handlers_are_limited() {
    let mut listener: EventListener<u32, Counter> = EventListener::new();
    let all: Vec<Counter> = (0..MAX_ONCE_HANDLERS + 2).map(|_| Counter::new(false)).collect();
    for handler in &all {
        listener.subscribe(handler.clone(), true);
    }
    listener.trigger(1);
    let called = all.iter().filter(|h| !h.seen.borrow().is_empty()).count();
    assert_eq!(called, MAX_ONCE_HANDLERS);
    assert!(all[0].seen.borrow().is_empty());
    assert!(!all[MAX_ONCE_HANDLERS + 1].seen.borrow().is_empty());
}
