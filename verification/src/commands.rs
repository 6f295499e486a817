use vstd::prelude::*;
use crate::entities::{Device, DeviceId, UserId};
use crate::pairing::PairError;

verus! {

/// `serde_json::Value` carries signaling payloads through the relay. The
/// relay never inspects a payload; it only routes it to the paired
/// counterpart, so the type stays opaque here.
#[verifier::external_type_specification]
#[verifier::external_body]
pub struct ExValue(serde_json::Value);

/// A command submitted to the connection server. Registration replies and
/// notifications come back as [`Effect`]s; the transport adapter owns the
/// sinks and the registration rendezvous.
#[derive(Debug)]
pub enum ServerCommand {
    RegisterUser,
    UnregisterUser { user_id: UserId },
    RegisterDevice { name: String },
    UnregisterDevice { device_id: DeviceId },
    Connect { user_id: UserId, device_id: DeviceId },
    Disconnect { user_id: UserId, device_id: DeviceId },
    UserSignaling { user_id: UserId, device_id: DeviceId, signal: serde_json::Value },
    DeviceSignaling { device_id: DeviceId, signal: serde_json::Value },
}

/// A notification for a user connection.
#[derive(Debug)]
pub enum UserCommand {
    /// Devices that are (newly or again) open for pairing.
    UpdateDevices { devices: Vec<Device> },
    /// An open device disappeared from the open list.
    RemoveDevice { device_id: DeviceId },
    /// A device is now paired to the receiving user.
    UpdateConnectedDevice { device: Device },
    /// A paired device was removed from the receiving user.
    RemoveConnectedDevice { device_id: DeviceId },
    /// A signaling payload from a paired device.
    DeviceSignaling { device_id: DeviceId, signal: serde_json::Value },
    /// A pairing operation requested by the receiving user failed.
    Error { error: PairError },
}

/// A notification for a device connection.
#[derive(Debug)]
pub enum DeviceCommand {
    /// A signaling payload from the paired user.
    UserSignaling { signal: serde_json::Value },
    /// An operation involving the receiving device failed.
    Error { error: PairError },
}

/// One delivery decided by the connection server: the recipient and the
/// message. Performing the sends is the transport adapter's task; a closed
/// sink is silently ignored there.
#[derive(Debug)]
pub enum Effect {
    /// Reply to the registration rendezvous with the freshly generated id.
    Reply { id: u128 },
    /// Notify one registered user.
    ToUser { user_id: UserId, cmd: UserCommand },
    /// Notify every registered user.
    ToAllUsers { cmd: UserCommand },
    /// Notify one registered device.
    ToDevice { device_id: DeviceId, cmd: DeviceCommand },
}

} // verus!
