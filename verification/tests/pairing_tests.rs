use iris::pairing::{ConnectionManager, PairError};

fn manager_with_open(devices: &[u128]) -> ConnectionManager {
    let mut cm = ConnectionManager::new();
    for d in devices {
        cm.add_open_device(*d);
    }
    cm
}

#[test]
fn new_manager_is_empty() {
    let cm = ConnectionManager::new();
    assert!(cm.get_open_devices().is_empty());
    assert_eq!(cm.get_device_user(1), None);
    assert_eq!(cm.get_user_devices(1), None);
    assert!(!cm.is_user_device(1, 2));
}

#[test]
fn connect_pairs_an_open_device() {
    let mut cm = manager_with_open(&[1]);
    assert_eq!(cm.connect(10, 1), Ok(()));
    assert!(cm.is_user_device(10, 1));
    assert_eq!(cm.get_device_user(1), Some(10));
    assert_eq!(cm.get_user_devices(10), Some(vec![1]));
    assert!(cm.get_open_devices().is_empty());
}

#[test]
fn connect_is_exclusive() {
    let mut cm = manager_with_open(&[1]);
    assert_eq!(cm.connect(10, 1), Ok(()));
    assert_eq!(cm.connect(11, 1), Err(PairError::AlreadyPaired));
    // the device remains paired to the first user and nothing changed
    assert_eq!(cm.get_device_user(1), Some(10));
    assert!(cm.is_user_device(10, 1));
    assert!(!cm.is_user_device(11, 1));
    assert!(cm.get_open_devices().is_empty());
}

#[test]
fn connect_same_pair_is_idempotent() {
    let mut cm = manager_with_open(&[1]);
    assert_eq!(cm.connect(10, 1), Ok(()));
    assert_eq!(cm.connect(10, 1), Ok(()));
    assert_eq!(cm.get_user_devices(10), Some(vec![1]));
    assert_eq!(cm.get_device_user(1), Some(10));
}

#[test]
fn connect_then_disconnect_round_trip() {
    let mut cm = manager_with_open(&[1]);
    assert_eq!(cm.connect(10, 1), Ok(()));
    assert_eq!(cm.disconnect(10, 1), Ok(()));
    assert_eq!(cm.get_open_devices(), vec![1]);
    assert_eq!(cm.get_device_user(1), None);
    assert_eq!(cm.get_user_devices(10), None);
}

#[test]
fn disconnect_open_device_fails_not_paired() {
    let mut cm = manager_with_open(&[1]);
    assert_eq!(cm.disconnect(10, 1), Err(PairError::NotPaired));
    // the repair action keeps the device available and nothing corrupts
    assert_eq!(cm.get_open_devices(), vec![1]);
    assert_eq!(cm.get_device_user(1), None);
}

#[test]
fn disconnect_wrong_user_fails_and_keeps_pairing() {
    let mut cm = manager_with_open(&[1]);
    assert_eq!(cm.connect(10, 1), Ok(()));
    assert_eq!(cm.disconnect(11, 1), Err(PairError::NotPaired));
    assert_eq!(cm.get_device_user(1), Some(10));
    assert!(cm.get_open_devices().is_empty());
}

#[test]
fn disconnect_unknown_device_repairs_into_open() {
    let mut cm = ConnectionManager::new();
    assert_eq!(cm.disconnect(10, 7), Err(PairError::NotPaired));
    assert_eq!(cm.get_open_devices(), vec![7]);
}

#[test]
fn remove_device_returns_paired_user() {
    let mut cm = manager_with_open(&[1, 2]);
    assert_eq!(cm.connect(10, 1), Ok(()));
    assert_eq!(cm.remove_device(1), Some(10));
    assert_eq!(cm.get_device_user(1), None);
    assert_eq!(cm.get_user_devices(10), None);
    // the open device is simply dropped from the open set
    assert_eq!(cm.remove_device(2), None);
    assert!(cm.get_open_devices().is_empty());
}

#[test]
fn remove_device_unknown_is_noop() {
    let mut cm = manager_with_open(&[1]);
    assert_eq!(cm.remove_device(9), None);
    assert_eq!(cm.get_open_devices(), vec![1]);
}

#[test]
fn remove_user_frees_all_devices() {
    let mut cm = manager_with_open(&[1, 2, 3]);
    assert_eq!(cm.connect(10, 1), Ok(()));
    assert_eq!(cm.connect(10, 2), Ok(()));
    let mut freed = cm.remove_user(10).expect("user held devices");
    freed.sort();
    assert_eq!(freed, vec![1, 2]);
    let mut open = cm.get_open_devices();
    open.sort();
    assert_eq!(open, vec![1, 2, 3]);
    assert_eq!(cm.get_device_user(1), None);
    assert_eq!(cm.get_device_user(2), None);
    assert_eq!(cm.get_user_devices(10), None);
}

#[test]
fn remove_user_unknown_is_noop() {
    let mut cm = manager_with_open(&[1]);
    assert_eq!(cm.remove_user(42), None);
    assert_eq!(cm.get_open_devices(), vec![1]);
}

#[test]
fn remove_user_twice_is_idempotent() {
    let mut cm = manager_with_open(&[1]);
    assert_eq!(cm.connect(10, 1), Ok(()));
    assert!(cm.remove_user(10).is_some());
    assert_eq!(cm.remove_user(10), None);
    assert_eq!(cm.get_open_devices(), vec![1]);
}
