use vstd::prelude::*;

verus! {

/// Identifier of a registered user connection. Identifiers are opaque
/// 128-bit tokens; the user and device id spaces are distinct by role but
/// overlap in representation.
pub type UserId = u128;

/// Identifier of a registered device connection.
pub type DeviceId = u128;

/// Whether a device is available for pairing or currently paired to a user.
#[derive(Clone, Copy, PartialEq, Eq, Structural, Debug)]
pub enum DeviceState {
    Open,
    Connected,
}

/// The authoritative record of a registered device. The name is immutable
/// after creation; the state is mutated only by the connection server.
#[derive(Debug)]
pub struct Device {
    pub id: DeviceId,
    pub name: String,
    pub state: DeviceState,
}

impl Device {
    /// Creates a device record in the `Open` state.
    pub fn new(id: DeviceId, name: String) -> (dev: Device)
        ensures
            dev.id == id,
            dev.name == name,
            dev.state == DeviceState::Open,
    {
        Device { id, name, state: DeviceState::Open }
    }
}

impl Clone for Device {
    fn clone(&self) -> (res: Self)
        ensures
            res == *self,
    {
        Device { id: self.id, name: self.name.clone(), state: self.state }
    }
}

/// The authoritative record of a registered user. A user has no state of
/// its own: its pairing status is derived from the pairing state machine,
/// and its outbound sink lives with the transport adapter, so the record
/// reduces to the id.
#[derive(Debug)]
pub struct User {
    pub id: UserId,
}

impl User {
    pub fn new(id: UserId) -> (user: User)
        ensures
            user.id == id,
    {
        User { id }
    }
}

} // verus!
