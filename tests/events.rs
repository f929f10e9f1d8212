use viewer_core::event::{AsyncEvent, Event, EventControl, EventManager, HandlerId};

#[test]
fn trigger_hands_out_handlers_in_registration_order() {
    let mut m = EventManager::new();
    let e: Event<u32> = Event::new(&mut m);
    e.add(&mut m, HandlerId(3));
    e.add(&mut m, HandlerId(1));
    e.add(&mut m, HandlerId(2));
    let d = e.trigger(&m, Some(7));
    assert_eq!(d.handlers, vec![HandlerId(3), HandlerId(1), HandlerId(2)]);
    assert_eq!(d.data, Some(7));
    assert_eq!(d.event, e.control_handle());
}

#[test]
fn remove_takes_out_every_entry_of_a_handler() {
    let mut m = EventManager::new();
    let e: Event<()> = Event::new(&mut m);
    e.add(&mut m, HandlerId(1));
    e.add(&mut m, HandlerId(2));
    e.add(&mut m, HandlerId(1));
    e.remove(&mut m, HandlerId(1));
    assert_eq!(e.trigger(&m, None).handlers, vec![HandlerId(2)]);
    e.remove(&mut m, HandlerId(9));
    assert_eq!(e.trigger(&m, None).handlers, vec![HandlerId(2)]);
}

#[test]
fn reset_clears_handlers_and_keeps_flag() {
    let mut m = EventManager::new();
    let e: Event<()> = Event::new(&mut m);
    e.add(&mut m, HandlerId(1));
    e.control_handle().set_enabled(&mut m, false);
    e.reset(&mut m);
    assert!(!e.enabled(&m));
    assert!(e.trigger_with(&m, None, Some(true)).handlers.is_empty());
}

#[test]
fn override_decides_in_place_of_the_flag() {
    let mut m = EventManager::new();
    let e: Event<u8> = Event::new(&mut m);
    e.add(&mut m, HandlerId(4));
    assert!(e.trigger_with(&m, Some(1), Some(false)).handlers.is_empty());
    e.control_handle().set_enabled(&mut m, false);
    assert!(e.trigger(&m, Some(1)).handlers.is_empty());
    assert_eq!(e.trigger_with(&m, Some(1), Some(true)).handlers, vec![HandlerId(4)]);
}

#[test]
fn group_disable_then_enable() {
    let mut m = EventManager::new();
    let e1: Event<u32> = Event::new(&mut m);
    let e2: Event<u32> = Event::new(&mut m);
    e1.add(&mut m, HandlerId(10));
    e1.add(&mut m, HandlerId(11));
    e2.add(&mut m, HandlerId(20));
    m.add(vec![e1.control_handle(), e2.control_handle()]);
    m.set(false);
    assert!(e1.trigger(&m, Some(5)).handlers.is_empty());
    assert!(e2.trigger(&m, Some(5)).handlers.is_empty());
    m.set(true);
    assert_eq!(e1.trigger(&m, Some(5)).handlers, vec![HandlerId(10), HandlerId(11)]);
}

#[test]
fn group_acts_only_on_members() {
    let mut m = EventManager::new();
    let e1: Event<u32> = Event::new(&mut m);
    let e2: Event<u32> = Event::new(&mut m);
    e1.add(&mut m, HandlerId(1));
    e2.add(&mut m, HandlerId(2));
    m.add(vec![e1.control_handle(), e1.control_handle()]);
    m.set(false);
    assert!(!e1.enabled(&m));
    assert!(e2.enabled(&m));
    m.reset();
    assert!(e1.trigger_with(&m, None, Some(true)).handlers.is_empty());
    assert_eq!(e2.trigger(&m, None).handlers, vec![HandlerId(2)]);
    m.remove(vec![e1.control_handle()]);
    m.set(true);
    assert!(!e1.enabled(&m));
}

#[test]
fn async_event_dispatches_like_event() {
    let mut m = EventManager::new();
    let e: AsyncEvent<String> = AsyncEvent::new(&mut m);
    e.add(&mut m, HandlerId(1));
    e.add(&mut m, HandlerId(2));
    e.remove(&mut m, HandlerId(1));
    let d = e.trigger(&m, Some("x".to_string()));
    assert_eq!(d.handlers, vec![HandlerId(2)]);
    assert_eq!(d.data, Some("x".to_string()));
    e.reset(&mut m);
    assert!(e.enabled(&m));
    assert!(e.trigger(&m, None).handlers.is_empty());
}
