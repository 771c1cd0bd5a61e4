use wireguard_keepalived::stale_set::{StaleInterfaceSet, StalePeer};

fn peer(interface: &str, keepalive: u64, age: u64) -> StalePeer {
    StalePeer { interface: interface.to_string(), keepalive, age }
}

#[test]
fn new_set_is_empty() {
    let set = StaleInterfaceSet::new();
    assert_eq!(set.len(), 0);
    assert!(set.is_empty());
    assert!(!set.contains("wg0"));
    assert!(!set.contains(""));
    assert_eq!(set.interfaces(), Vec::<String>::new());
    assert_eq!(set.entries(), &Vec::<StalePeer>::new());
}

#[test]
fn insert_adds_an_interface_once() {
    let mut set = StaleInterfaceSet::new();
    assert!(set.insert(peer("wg0", 25, 200)));
    assert!(set.contains("wg0"));
    assert!(!set.contains("wg"));
    assert!(!set.contains("wg00"));
    assert_eq!(set.len(), 1);
    assert!(!set.is_empty());

    assert!(!set.insert(peer("wg0", 30, 900)));
    assert_eq!(set.len(), 1);
    assert_eq!(set.entries(), &vec![peer("wg0", 25, 200)]);

    assert!(set.insert(peer("wg1", 30, 900)));
    assert!(set.insert(peer("", 1, 1)));
    assert!(!set.insert(peer("wg1", 25, 200)));
    assert_eq!(set.len(), 3);
    assert_eq!(set.interfaces(), vec!["wg0", "wg1", ""]);
    assert_eq!(set.entries(), &vec![peer("wg0", 25, 200), peer("wg1", 30, 900), peer("", 1, 1)]);
}

#[test]
fn insert_tells_names_apart_by_every_character() {
    let mut set = StaleInterfaceSet::new();
    assert!(set.insert(peer("wg0", 1, 1)));
    assert!(set.insert(peer("WG0", 2, 2)));
    assert!(set.insert(peer("wg0 ", 3, 3)));
    assert!(set.insert(peer("wg\u{f8}", 4, 4)));
    assert!(!set.insert(peer("wg\u{f8}", 5, 5)));
    assert_eq!(set.len(), 4);
}
