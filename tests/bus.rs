use yewchat::bus::SessionBus;

#[test]
fn publish_reaches_subscribers_in_order() {
    let mut bus = SessionBus::new();
    assert!(bus.recipients().is_empty());
    let a = bus.subscribe().unwrap();
    let b = bus.subscribe().unwrap();
    let c = bus.subscribe().unwrap();
    assert_ne!(a, b);
    assert_ne!(b, c);
    assert_eq!(bus.recipients(), vec![a, b, c]);
}

#[test]
fn unsubscribe_keeps_order_of_others() {
    let mut bus = SessionBus::new();
    let a = bus.subscribe().unwrap();
    let b = bus.subscribe().unwrap();
    let c = bus.subscribe().unwrap();
    bus.unsubscribe(b);
    assert_eq!(bus.recipients(), vec![a, c]);
    bus.unsubscribe(b);
    assert_eq!(bus.recipients(), vec![a, c]);
    let d = bus.subscribe().unwrap();
    assert_ne!(d, b);
    assert_eq!(bus.recipients(), vec![a, c, d]);
}

#[test]
fn subscribe_succeeds_on_a_new_bus() {
    let mut bus = SessionBus::new();
    for _ in 0..100 {
        assert!(bus.subscribe().is_some());
    }
    assert_eq!(bus.recipients().len(), 100);
}
