use repo_catalog::registry::WatchSlot;
use repo_catalog::registry::WatcherRegistry;

#[test]
fn register_is_exclusive() {
    let mut reg: WatcherRegistry<String> = WatcherRegistry::new();
    let mut successes = 0;
    let mut i = 0;
    while i < 5 {
        if reg.try_register("/music") {
            successes += 1;
        }
        i += 1;
    }
    assert_eq!(successes, 1);
    assert_eq!(reg.len(), 1);
    assert!(reg.contains("/music"));
}

#[test]
fn register_distinguishes_folders() {
    let mut reg: WatcherRegistry<u32> = WatcherRegistry::new();
    assert!(reg.try_register("/a"));
    assert!(reg.try_register("/b"));
    assert!(!reg.try_register("/a"));
    assert_eq!(reg.len(), 2);
}

#[test]
fn activate_and_deregister_hand_back_the_handle() {
    let mut reg: WatcherRegistry<String> = WatcherRegistry::new();
    assert!(reg.try_register("/music"));
    reg.activate("/music", "handle-1".to_string());
    match reg.deregister("/music") {
        Some(WatchSlot::Active(h)) => assert_eq!(h, "handle-1"),
        _ => panic!("expected the active handle back"),
    }
    assert!(!reg.contains("/music"));
    assert_eq!(reg.len(), 0);
}

#[test]
fn deregister_absent_folder_is_a_warning_not_an_error() {
    let mut reg: WatcherRegistry<u32> = WatcherRegistry::new();
    assert!(reg.deregister("/nowhere").is_none());
}

#[test]
fn deregister_pending_slot_returns_placeholder() {
    let mut reg: WatcherRegistry<u32> = WatcherRegistry::new();
    assert!(reg.try_register("/music"));
    match reg.deregister("/music") {
        Some(WatchSlot::Pending) => {},
        _ => panic!("expected the pending slot back"),
    }
}
