use vidcast::registry::ClientAddr;
use vidcast::registry::ClientRegistry;

fn addr(ip: u128, port: u16) -> ClientAddr {
    ClientAddr { ip, port }
}

#[test]
fn registry_lifecycle() {
    let a = addr(0x7F000001, 5000);
    let b = addr(0x7F000001, 5001);
    let mut registry = ClientRegistry::new();
    assert_eq!(registry.snapshot().len(), 0);

    registry.subscribe(a);
    let snap = registry.snapshot();
    assert_eq!(snap.len(), 1);
    assert!(snap.contains(&a));

    registry.subscribe(b);
    assert_eq!(registry.snapshot().len(), 2);

    let removed = registry.unsubscribe(a);
    assert!(removed);
    let snap = registry.snapshot();
    assert_eq!(snap.len(), 1);
    assert!(snap.contains(&b));
    assert!(!snap.contains(&a));

    let removed_again = registry.unsubscribe(a);
    assert!(!removed_again);
    let snap = registry.snapshot();
    assert_eq!(snap.len(), 1);
    assert!(snap.contains(&b));
}

#[test]
fn duplicate_subscribe_creates_duplicate_entries() {
    let a = addr(10, 4000);
    let mut registry = ClientRegistry::new();
    registry.subscribe(a);
    registry.subscribe(a);
    let snap = registry.snapshot();
    assert_eq!(snap.len(), 2);
    assert_eq!(snap[0], a);
    assert_eq!(snap[1], a);

    // Unsubscribing removes only the first matching entry.
    registry.unsubscribe(a);
    assert_eq!(registry.snapshot().len(), 1);
}

#[test]
fn control_datagram_lengths_drive_the_registry() {
    let a = addr(1, 1);
    let b = addr(2, 2);
    let mut registry = ClientRegistry::new();

    // One byte subscribes and reports the new count.
    assert_eq!(registry.apply_control(1, a), Some(1));
    assert_eq!(registry.apply_control(1, b), Some(2));

    // Two bytes unsubscribe; a miss reports nothing.
    assert_eq!(registry.apply_control(2, a), Some(1));
    assert_eq!(registry.apply_control(2, a), None);

    // Any other length is ignored.
    assert_eq!(registry.apply_control(3, a), None);
    assert_eq!(registry.apply_control(0, a), None);
    let snap = registry.snapshot();
    assert_eq!(snap.len(), 1);
    assert!(snap.contains(&b));
}
