use iris::commands::{DeviceCommand, Effect, ServerCommand, UserCommand};
use iris::entities::DeviceState;
use iris::pairing::PairError;
use iris::server::ConnectionServer;

fn signal(text: &str) -> serde_json::Value {
    serde_json::Value::String(text.to_string())
}

#[test]
fn register_device_announces_and_replies() {
    let mut server = ConnectionServer::new();
    let effects = server.register_device_with_id(1, "phone".to_string());
    assert_eq!(effects.len(), 2);
    match &effects[0] {
        Effect::ToAllUsers { cmd: UserCommand::UpdateDevices { devices } } => {
            assert_eq!(devices.len(), 1);
            assert_eq!(devices[0].id, 1);
            assert_eq!(devices[0].name, "phone");
            assert_eq!(devices[0].state, DeviceState::Open);
        }
        other => panic!("unexpected first effect: {:?}", other),
    }
    match &effects[1] {
        Effect::Reply { id } => assert_eq!(*id, 1),
        other => panic!("unexpected second effect: {:?}", other),
    }
}

#[test]
fn register_user_receives_open_device_list() {
    let mut server = ConnectionServer::new();
    server.register_device_with_id(1, "phone".to_string());
    let effects = server.register_user_with_id(100);
    assert_eq!(effects.len(), 2);
    match &effects[0] {
        Effect::ToUser { user_id, cmd: UserCommand::UpdateDevices { devices } } => {
            assert_eq!(*user_id, 100);
            assert_eq!(devices.len(), 1);
            assert_eq!(devices[0].id, 1);
            assert_eq!(devices[0].state, DeviceState::Open);
        }
        other => panic!("unexpected first effect: {:?}", other),
    }
    assert!(matches!(&effects[1], Effect::Reply { id: 100 }));
}

#[test]
fn scenario_register_connect_unregister() {
    let mut server = ConnectionServer::new();
    server.register_device_with_id(1, "phone".to_string());
    server.register_user_with_id(100);

    let effects = server.connect(100, 1);
    assert_eq!(effects.len(), 2);
    assert!(matches!(
        &effects[0],
        Effect::ToAllUsers { cmd: UserCommand::RemoveDevice { device_id: 1 } }
    ));
    match &effects[1] {
        Effect::ToUser { user_id, cmd: UserCommand::UpdateConnectedDevice { device } } => {
            assert_eq!(*user_id, 100);
            assert_eq!(device.id, 1);
            assert_eq!(device.name, "phone");
            assert_eq!(device.state, DeviceState::Connected);
        }
        other => panic!("unexpected second effect: {:?}", other),
    }

    let effects = server.unregister_device(1);
    assert_eq!(effects.len(), 1);
    assert!(matches!(
        &effects[0],
        Effect::ToUser { user_id: 100, cmd: UserCommand::RemoveConnectedDevice { device_id: 1 } }
    ));

    // a device re-registered under the same name gets a new, distinct id
    let (id, effects) = server.register_device("phone".to_string());
    let id = id.expect("fresh id");
    assert_ne!(id, 1);
    assert_eq!(effects.len(), 2);
    assert!(matches!(&effects[1], Effect::Reply { id: r } if *r == id));
}

#[test]
fn device_registration_is_broadcast_to_all_present_users() {
    let mut server = ConnectionServer::new();
    server.register_user_with_id(100);
    server.register_user_with_id(200);
    let effects = server.register_device_with_id(1, "cam".to_string());
    // one broadcast reaches every registered user the moment the device appears
    match &effects[0] {
        Effect::ToAllUsers { cmd: UserCommand::UpdateDevices { devices } } => {
            assert_eq!(devices.len(), 1);
            assert_eq!(devices[0].id, 1);
        }
        other => panic!("unexpected first effect: {:?}", other),
    }
}

#[test]
fn second_connect_gets_already_paired_error() {
    let mut server = ConnectionServer::new();
    server.register_device_with_id(1, "phone".to_string());
    server.register_user_with_id(100);
    server.register_user_with_id(200);
    assert_eq!(server.connect(100, 1).len(), 2);
    let effects = server.connect(200, 1);
    assert_eq!(effects.len(), 1);
    assert!(matches!(
        &effects[0],
        Effect::ToUser { user_id: 200, cmd: UserCommand::Error { error: PairError::AlreadyPaired } }
    ));
}

#[test]
fn connect_unknown_device_is_silent() {
    let mut server = ConnectionServer::new();
    server.register_user_with_id(100);
    assert!(server.connect(100, 9).is_empty());
}

#[test]
fn connect_unknown_user_is_silent() {
    let mut server = ConnectionServer::new();
    server.register_device_with_id(1, "phone".to_string());
    assert!(server.connect(999, 1).is_empty());
}

#[test]
fn disconnect_restores_the_device_to_open() {
    let mut server = ConnectionServer::new();
    server.register_device_with_id(1, "phone".to_string());
    server.register_user_with_id(100);
    server.connect(100, 1);

    let effects = server.disconnect(100, 1);
    assert_eq!(effects.len(), 2);
    // the optimistic removal notice comes before anything else
    assert!(matches!(
        &effects[0],
        Effect::ToUser { user_id: 100, cmd: UserCommand::RemoveConnectedDevice { device_id: 1 } }
    ));
    match &effects[1] {
        Effect::ToAllUsers { cmd: UserCommand::UpdateDevices { devices } } => {
            assert_eq!(devices.len(), 1);
            assert_eq!(devices[0].id, 1);
            assert_eq!(devices[0].state, DeviceState::Open);
        }
        other => panic!("unexpected second effect: {:?}", other),
    }
}

#[test]
fn disconnect_unpaired_device_reports_not_paired() {
    let mut server = ConnectionServer::new();
    server.register_device_with_id(1, "phone".to_string());
    server.register_user_with_id(100);
    let effects = server.disconnect(100, 1);
    assert_eq!(effects.len(), 2);
    assert!(matches!(
        &effects[0],
        Effect::ToUser { user_id: 100, cmd: UserCommand::RemoveConnectedDevice { device_id: 1 } }
    ));
    assert!(matches!(
        &effects[1],
        Effect::ToUser { user_id: 100, cmd: UserCommand::Error { error: PairError::NotPaired } }
    ));
}

#[test]
fn user_signaling_reaches_only_a_held_device() {
    let mut server = ConnectionServer::new();
    server.register_device_with_id(1, "phone".to_string());
    server.register_user_with_id(100);
    server.register_user_with_id(200);
    server.connect(100, 1);

    let effects = server.user_signaling(100, 1, signal("offer"));
    assert_eq!(effects.len(), 1);
    match &effects[0] {
        Effect::ToDevice { device_id, cmd: DeviceCommand::UserSignaling { signal } } => {
            assert_eq!(*device_id, 1);
            assert_eq!(signal, &serde_json::Value::String("offer".to_string()));
        }
        other => panic!("unexpected effect: {:?}", other),
    }

    // a user that does not hold the device gets nothing delivered
    assert!(server.user_signaling(200, 1, signal("steal")).is_empty());
    // and signaling to an unknown device is a no-op too
    assert!(server.user_signaling(100, 9, signal("void")).is_empty());
}

#[test]
fn device_signaling_reaches_the_paired_user() {
    let mut server = ConnectionServer::new();
    server.register_device_with_id(1, "phone".to_string());
    server.register_user_with_id(100);
    server.connect(100, 1);

    let effects = server.device_signaling(1, signal("answer"));
    assert_eq!(effects.len(), 1);
    match &effects[0] {
        Effect::ToUser { user_id, cmd: UserCommand::DeviceSignaling { device_id, signal } } => {
            assert_eq!(*user_id, 100);
            assert_eq!(*device_id, 1);
            assert_eq!(signal, &serde_json::Value::String("answer".to_string()));
        }
        other => panic!("unexpected effect: {:?}", other),
    }

    // an unpaired device's payload is dropped
    server.disconnect(100, 1);
    assert!(server.device_signaling(1, signal("late")).is_empty());
}

#[test]
fn unregister_user_frees_its_devices_for_everyone() {
    let mut server = ConnectionServer::new();
    server.register_device_with_id(1, "phone".to_string());
    server.register_device_with_id(2, "cam".to_string());
    server.register_user_with_id(100);
    server.connect(100, 1);
    server.connect(100, 2);

    let effects = server.unregister_user(100);
    assert_eq!(effects.len(), 1);
    match &effects[0] {
        Effect::ToAllUsers { cmd: UserCommand::UpdateDevices { devices } } => {
            let mut ids: Vec<u128> = devices.iter().map(|d| d.id).collect();
            ids.sort();
            assert_eq!(ids, vec![1, 2]);
            for dev in devices {
                assert_eq!(dev.state, DeviceState::Open);
            }
        }
        other => panic!("unexpected effect: {:?}", other),
    }
}

#[test]
fn unregister_unknown_ids_is_a_quiet_noop() {
    let mut server = ConnectionServer::new();
    assert!(server.unregister_user(42).is_empty());
    let effects = server.unregister_device(42);
    // the removal broadcast is still sent; no state existed to corrupt
    assert_eq!(effects.len(), 1);
    assert!(matches!(
        &effects[0],
        Effect::ToAllUsers { cmd: UserCommand::RemoveDevice { device_id: 42 } }
    ));
}

#[test]
fn unregister_open_device_broadcasts_removal() {
    let mut server = ConnectionServer::new();
    server.register_device_with_id(1, "phone".to_string());
    let effects = server.unregister_device(1);
    assert_eq!(effects.len(), 1);
    assert!(matches!(
        &effects[0],
        Effect::ToAllUsers { cmd: UserCommand::RemoveDevice { device_id: 1 } }
    ));
}

#[test]
fn register_user_draws_a_fresh_id() {
    let mut server = ConnectionServer::new();
    let (first, effects) = server.register_user();
    let first = first.expect("fresh id");
    assert_eq!(effects.len(), 2);
    assert!(matches!(&effects[1], Effect::Reply { id } if *id == first));
    let (second, _) = server.register_user();
    let second = second.expect("fresh id");
    assert_ne!(first, second);
}

#[test]
fn registration_succeeds_on_a_fresh_server() {
    // with nothing issued yet, a refusal is contractually impossible
    let mut server = ConnectionServer::new();
    let (user_id, effects) = server.register_user();
    assert!(user_id.is_some());
    assert_eq!(effects.len(), 2);
    let (device_id, effects) = server.register_device("phone".to_string());
    assert!(device_id.is_some());
    assert_eq!(effects.len(), 2);
    assert_ne!(user_id.unwrap(), device_id.unwrap());
}

#[test]
fn released_device_id_is_never_reissued() {
    let mut server = ConnectionServer::new();
    server.register_device_with_id(1, "phone".to_string());
    server.unregister_device(1);
    // the id stays issued after the device is gone, so a fresh draw
    // can never hand it out again
    let (id, _) = server.register_device("phone".to_string());
    assert_ne!(id.expect("fresh id"), 1);
    let (id, _) = server.register_user();
    assert_ne!(id.expect("fresh id"), 1);
}

#[test]
fn apply_dispatches_commands() {
    let mut server = ConnectionServer::new();
    server.register_device_with_id(1, "phone".to_string());
    server.register_user_with_id(100);
    let effects = server.apply(ServerCommand::Connect { user_id: 100, device_id: 1 });
    assert_eq!(effects.len(), 2);
    let effects = server.apply(ServerCommand::UserSignaling {
        user_id: 100,
        device_id: 1,
        signal: signal("hello"),
    });
    assert_eq!(effects.len(), 1);
    let effects = server.apply(ServerCommand::UnregisterDevice { device_id: 1 });
    assert!(matches!(
        &effects[0],
        Effect::ToUser { user_id: 100, cmd: UserCommand::RemoveConnectedDevice { device_id: 1 } }
    ));
}
