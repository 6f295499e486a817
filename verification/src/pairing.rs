use vstd::prelude::*;
use std::collections::HashMap;
use crate::entities::{DeviceId, UserId};

verus! {

/// Errors of the pairing state machine.
#[derive(Clone, Copy, PartialEq, Eq, Structural, Debug)]
pub enum PairError {
    /// Connect was attempted on a device already paired to a different user.
    AlreadyPaired,
    /// Disconnect was attempted against a pairing that does not exist.
    NotPaired,
}

/// Abstract state of the pairing state machine: the forward map from a user
/// to the set of devices it holds, the inverse map from a device to its one
/// user, and the set of registered-but-unpaired devices.
#[verifier::ext_equal]
pub ghost struct PairState {
    pub user_to_devices: Map<UserId, Set<DeviceId>>,
    pub device_to_user: Map<DeviceId, UserId>,
    pub open_devices: Set<DeviceId>,
}

impl PairState {
    pub open spec fn empty() -> PairState {
        PairState {
            user_to_devices: Map::empty(),
            device_to_user: Map::empty(),
            open_devices: Set::empty(),
        }
    }

    /// Device `device_id` is currently paired to user `user_id`.
    pub open spec fn paired(self, user_id: UserId, device_id: DeviceId) -> bool {
        self.device_to_user.contains_key(device_id) && self.device_to_user[device_id] == user_id
    }

    /// The devices a user currently holds (empty if the user holds none).
    pub open spec fn devices_of(self, user_id: UserId) -> Set<DeviceId> {
        if self.user_to_devices.contains_key(user_id) {
            self.user_to_devices[user_id]
        } else {
            Set::empty()
        }
    }

    /// `device_to_user` is the exact right-inverse of `user_to_devices`.
    pub open spec fn inverse_ok(self) -> bool {
        &&& forall|u: UserId, d: DeviceId|
            self.user_to_devices.contains_key(u) && #[trigger] self.user_to_devices[u].contains(d)
                ==> self.paired(u, d)
        &&& forall|d: DeviceId| #[trigger] self.device_to_user.contains_key(d)
                ==> self.user_to_devices.contains_key(self.device_to_user[d])
                    && self.user_to_devices[self.device_to_user[d]].contains(d)
    }

    /// No device is both open and paired.
    pub open spec fn exclusive_ok(self) -> bool {
        forall|d: DeviceId| #[trigger] self.open_devices.contains(d)
            ==> !self.device_to_user.contains_key(d)
    }

    /// A user is never present with an empty device set.
    pub open spec fn no_empty_entries(self) -> bool {
        forall|u: UserId| #[trigger] self.user_to_devices.contains_key(u)
            ==> !self.user_to_devices[u].is_empty()
    }

    /// The pairing state machine's invariant: the two maps are exact
    /// inverses of each other, no device is both open and paired, and no
    /// user is recorded with an empty device set.
    pub open spec fn wf(self) -> bool {
        self.inverse_ok() && self.exclusive_ok() && self.no_empty_entries()
    }

    /// Connect succeeds unless the device is already paired to a different
    /// user.
    pub open spec fn connect_allowed(self, user_id: UserId, device_id: DeviceId) -> bool {
        !(self.device_to_user.contains_key(device_id) && self.device_to_user[device_id] != user_id)
    }

    /// The state after a successful connect: the device leaves the open set
    /// and both sides of the pairing map gain the edge.
    pub open spec fn connect_next(self, user_id: UserId, device_id: DeviceId) -> PairState {
        PairState {
            user_to_devices: self.user_to_devices.insert(
                user_id,
                self.devices_of(user_id).insert(device_id),
            ),
            device_to_user: self.device_to_user.insert(device_id, user_id),
            open_devices: self.open_devices.remove(device_id),
        }
    }

    /// Disconnect succeeds only for the user the device is paired to.
    pub open spec fn disconnect_allowed(self, user_id: UserId, device_id: DeviceId) -> bool {
        self.paired(user_id, device_id)
    }

    /// The state after a successful disconnect: both sides of the pairing
    /// map lose the edge (the user's entry disappears when the device was
    /// its last) and the device returns to the open set.
    pub open spec fn disconnect_next(self, user_id: UserId, device_id: DeviceId) -> PairState {
        let remaining = self.devices_of(user_id).remove(device_id);
        PairState {
            user_to_devices: if remaining.is_empty() {
                self.user_to_devices.remove(user_id)
            } else {
                self.user_to_devices.insert(user_id, remaining)
            },
            device_to_user: self.device_to_user.remove(device_id),
            open_devices: self.open_devices.insert(device_id),
        }
    }

    /// The state after a failed disconnect of an unpaired device: the device
    /// is placed into the open set as a repair action. (A device paired to a
    /// different user stays with that user and the state is unchanged.)
    pub open spec fn disconnect_repair(self, device_id: DeviceId) -> PairState {
        if self.device_to_user.contains_key(device_id) {
            self
        } else {
            PairState { open_devices: self.open_devices.insert(device_id), ..self }
        }
    }

    /// The state after a device is unregistered: it is cleared from
    /// whichever structure it occupies.
    pub open spec fn remove_device_next(self, device_id: DeviceId) -> PairState {
        if self.device_to_user.contains_key(device_id) {
            let u = self.device_to_user[device_id];
            let remaining = self.devices_of(u).remove(device_id);
            PairState {
                user_to_devices: if remaining.is_empty() {
                    self.user_to_devices.remove(u)
                } else {
                    self.user_to_devices.insert(u, remaining)
                },
                device_to_user: self.device_to_user.remove(device_id),
                open_devices: self.open_devices,
            }
        } else {
            PairState { open_devices: self.open_devices.remove(device_id), ..self }
        }
    }

    /// A successful connect preserves the invariant.
    pub proof fn lemma_connect_preserves_wf(self, user_id: UserId, device_id: DeviceId)
        requires
            self.wf(),
            self.connect_allowed(user_id, device_id),
        ensures
            self.connect_next(user_id, device_id).wf(),
    {
        let next = self.connect_next(user_id, device_id);
        assert forall|u: UserId, d: DeviceId|
            next.user_to_devices.contains_key(u) && #[trigger] next.user_to_devices[u].contains(
                d,
            ) implies next.paired(u, d) by {
            if u == user_id {
                if d != device_id {
                    assert(self.user_to_devices.contains_key(u)
                        && self.user_to_devices[u].contains(d));
                }
            } else {
                assert(self.user_to_devices[u].contains(d));
                assert(self.paired(u, d));
            }
        }
        assert forall|d: DeviceId| #[trigger] next.device_to_user.contains_key(d) implies next
            .user_to_devices.contains_key(next.device_to_user[d]) && next.user_to_devices[next
            .device_to_user[d]].contains(d) by {
            if d != device_id {
                let u = self.device_to_user[d];
                assert(self.user_to_devices[u].contains(d));
            }
        }
        assert(next.no_empty_entries()) by {
            assert(next.user_to_devices[user_id].contains(device_id));
        }
    }

    /// A successful disconnect preserves the invariant.
    pub proof fn lemma_disconnect_preserves_wf(self, user_id: UserId, device_id: DeviceId)
        requires
            self.wf(),
            self.disconnect_allowed(user_id, device_id),
        ensures
            self.disconnect_next(user_id, device_id).wf(),
    {
        let next = self.disconnect_next(user_id, device_id);
        let remaining = self.devices_of(user_id).remove(device_id);
        assert forall|u: UserId, d: DeviceId|
            next.user_to_devices.contains_key(u) && #[trigger] next.user_to_devices[u].contains(
                d,
            ) implies next.paired(u, d) by {
            assert(self.user_to_devices[u].contains(d));
            assert(self.paired(u, d));
        }
        assert forall|d: DeviceId| #[trigger] next.device_to_user.contains_key(d) implies next
            .user_to_devices.contains_key(next.device_to_user[d]) && next.user_to_devices[next
            .device_to_user[d]].contains(d) by {
            let u = self.device_to_user[d];
            assert(self.user_to_devices[u].contains(d));
            if u == user_id {
                assert(remaining.contains(d));
            }
        }
    }

    /// A failed disconnect's repair action preserves the invariant.
    pub proof fn lemma_disconnect_repair_preserves_wf(self, device_id: DeviceId)
        requires
            self.wf(),
        ensures
            self.disconnect_repair(device_id).wf(),
    {
    }

    /// Unregistering a device preserves the invariant.
    pub proof fn lemma_remove_device_preserves_wf(self, device_id: DeviceId)
        requires
            self.wf(),
        ensures
            self.remove_device_next(device_id).wf(),
    {
        if self.device_to_user.contains_key(device_id) {
            let user_id = self.device_to_user[device_id];
            let next = self.remove_device_next(device_id);
            let remaining = self.devices_of(user_id).remove(device_id);
            assert forall|u: UserId, d: DeviceId|
                next.user_to_devices.contains_key(u) && #[trigger] next.user_to_devices[u]
                    .contains(d) implies next.paired(u, d) by {
                assert(self.user_to_devices[u].contains(d));
                assert(self.paired(u, d));
            }
            assert forall|d: DeviceId| #[trigger] next.device_to_user.contains_key(d) implies next
                .user_to_devices.contains_key(next.device_to_user[d]) && next.user_to_devices[next
                .device_to_user[d]].contains(d) by {
                let u = self.device_to_user[d];
                assert(self.user_to_devices[u].contains(d));
                if u == user_id {
                    assert(remaining.contains(d));
                }
            }
        }
    }

    /// Unregistering a user preserves the invariant.
    pub proof fn lemma_remove_user_preserves_wf(self, user_id: UserId)
        requires
            self.wf(),
        ensures
            self.remove_user_next(user_id).wf(),
    {
        if self.user_to_devices.contains_key(user_id) {
            let next = self.remove_user_next(user_id);
            let freed = self.user_to_devices[user_id];
            assert forall|u: UserId, d: DeviceId|
                next.user_to_devices.contains_key(u) && #[trigger] next.user_to_devices[u]
                    .contains(d) implies next.paired(u, d) by {
                assert(self.user_to_devices[u].contains(d));
                assert(self.paired(u, d));
                if freed.contains(d) {
                    assert(self.paired(user_id, d));
                }
            }
            assert forall|d: DeviceId| #[trigger] next.device_to_user.contains_key(d) implies next
                .user_to_devices.contains_key(next.device_to_user[d]) && next.user_to_devices[next
                .device_to_user[d]].contains(d) by {
                let u = self.device_to_user[d];
                assert(self.user_to_devices[u].contains(d));
            }
            assert forall|d: DeviceId| #[trigger] next.open_devices.contains(d) implies !next
                .device_to_user.contains_key(d) by {
                if freed.contains(d) {
                    assert(self.paired(user_id, d));
                }
            }
        }
    }

    /// The state after a user is unregistered: all of its pairings are
    /// cleared and every formerly paired device returns to the open set.
    pub open spec fn remove_user_next(self, user_id: UserId) -> PairState {
        if self.user_to_devices.contains_key(user_id) {
            PairState {
                user_to_devices: self.user_to_devices.remove(user_id),
                device_to_user: self.device_to_user.remove_keys(self.user_to_devices[user_id]),
                open_devices: self.open_devices.union(self.user_to_devices[user_id]),
            }
        } else {
            self
        }
    }

    /// Connect exclusivity: once an open device has been claimed by one
    /// user, a connect by any different user is refused, and the device
    /// remains paired to the first user. (A refused connect changes
    /// nothing, as `connect` ensures.)
    pub proof fn lemma_connect_exclusive(
        self,
        first_user: UserId,
        second_user: UserId,
        device_id: DeviceId,
    )
        requires
            self.wf(),
            self.open_devices.contains(device_id),
            first_user != second_user,
        ensures
            self.connect_allowed(first_user, device_id),
            !self.connect_next(first_user, device_id).connect_allowed(second_user, device_id),
            self.connect_next(first_user, device_id).paired(first_user, device_id),
    {
    }

    /// Round trip: connecting an open device and then disconnecting it
    /// returns the pairing state, the device included, exactly to what it
    /// was before the connect.
    pub proof fn lemma_connect_disconnect_round_trip(self, user_id: UserId, device_id: DeviceId)
        requires
            self.wf(),
            self.open_devices.contains(device_id),
        ensures
            self.connect_allowed(user_id, device_id),
            self.connect_next(user_id, device_id).disconnect_allowed(user_id, device_id),
            self.connect_next(user_id, device_id).disconnect_next(user_id, device_id) == self,
    {
        let s1 = self.connect_next(user_id, device_id);
        let s2 = s1.disconnect_next(user_id, device_id);
        assert(!self.devices_of(user_id).contains(device_id)) by {
            if self.user_to_devices.contains_key(user_id) && self.user_to_devices[user_id]
                .contains(device_id) {
                assert(self.paired(user_id, device_id));
            }
        }
        let remaining = s1.devices_of(user_id).remove(device_id);
        assert(remaining =~= self.devices_of(user_id));
        if self.user_to_devices.contains_key(user_id) {
            assert(!remaining.is_empty()) by {
                assert(!self.user_to_devices[user_id].is_empty());
            }
            assert(s2.user_to_devices =~~= self.user_to_devices);
        } else {
            assert(remaining.is_empty());
            assert(s2.user_to_devices =~~= self.user_to_devices);
        }
        assert(s2.device_to_user =~= self.device_to_user);
        assert(s2.open_devices =~= self.open_devices);
        assert(s2.user_to_devices == self.user_to_devices && s2.device_to_user
            == self.device_to_user && s2.open_devices == self.open_devices);
        assert(s2 == self);
    }

    /// Idempotence: unregistering an id that no structure holds changes
    /// nothing.
    pub proof fn lemma_remove_unknown_noop(self, user_id: UserId, device_id: DeviceId)
        requires
            !self.user_to_devices.contains_key(user_id),
            !self.device_to_user.contains_key(device_id),
            !self.open_devices.contains(device_id),
        ensures
            self.remove_user_next(user_id) == self,
            self.remove_device_next(device_id) == self,
    {
        assert(self.remove_device_next(device_id).open_devices =~= self.open_devices);
        assert(self.remove_device_next(device_id) == self);
    }

    /// Idempotence: disconnecting a device that is already open is refused,
    /// and the repair action changes nothing.
    pub proof fn lemma_disconnect_open_noop(self, user_id: UserId, device_id: DeviceId)
        requires
            self.wf(),
            self.open_devices.contains(device_id),
        ensures
            !self.disconnect_allowed(user_id, device_id),
            self.disconnect_repair(device_id) == self,
    {
        assert(self.disconnect_repair(device_id).open_devices =~= self.open_devices);
        assert(self.disconnect_repair(device_id) == self);
    }
}

/// The pairing state machine: tracks which device is paired to which user
/// and which devices are unpaired, as two synchronized maps plus the open
/// set, so that forward and inverse lookups both avoid linear scans.
#[derive(Debug)]
pub struct ConnectionManager {
    user_connections: HashMap<UserId, Vec<DeviceId>>,
    device_connection: HashMap<DeviceId, UserId>,
    open_devices: Vec<DeviceId>,
}

impl View for ConnectionManager {
    type V = PairState;

    closed spec fn view(&self) -> PairState {
        PairState {
            user_to_devices: Map::new(
                |u: UserId| self.user_connections@.contains_key(u),
                |u: UserId| self.user_connections@[u]@.to_set(),
            ),
            device_to_user: self.device_connection@,
            open_devices: self.open_devices@.to_set(),
        }
    }
}

impl ConnectionManager {
    /// Representation invariant: the abstract state is well formed and the
    /// backing vectors are duplicate-free.
    pub open spec fn inv(self) -> bool {
        self@.wf() && self.rep_inv()
    }

    /// The representation part of the invariant: the backing vectors hold
    /// no duplicates.
    pub closed spec fn rep_inv(self) -> bool {
        &&& self.open_devices@.no_duplicates()
        &&& forall|u: UserId| #[trigger] self.user_connections@.contains_key(u)
                ==> self.user_connections@[u]@.no_duplicates()
    }

    pub fn new() -> (cm: ConnectionManager)
        ensures
            cm.inv(),
            cm@ == PairState::empty(),
    {
        let cm = ConnectionManager {
            user_connections: HashMap::new(),
            device_connection: HashMap::new(),
            open_devices: Vec::new(),
        };
        proof {
            assert(cm@ =~= PairState::empty());
        }
        cm
    }

    /// The user a device is currently paired to, if any.
    pub fn get_device_user(&self, device_id: DeviceId) -> (r: Option<UserId>)
        ensures
            r == (if self@.device_to_user.contains_key(device_id) {
                Some(self@.device_to_user[device_id])
            } else {
                None::<UserId>
            }),
    {
        match self.device_connection.get(&device_id) {
            Some(u) => Some(*u),
            None => None,
        }
    }

    /// Whether `device_id` is currently held by `user_id`; this is the check
    /// that signaling routing relies on.
    pub fn is_user_device(&self, user_id: UserId, device_id: DeviceId) -> (r: bool)
        ensures
            r == self@.paired(user_id, device_id),
    {
        match self.device_connection.get(&device_id) {
            Some(u) => *u == user_id,
            None => false,
        }
    }

    /// The devices a user currently holds, if it holds any.
    pub fn get_user_devices(&self, user_id: UserId) -> (r: Option<Vec<DeviceId>>)
        requires
            self.inv(),
        ensures
            match r {
                Some(v) => {
                    &&& self@.user_to_devices.contains_key(user_id)
                    &&& v@.to_set() == self@.user_to_devices[user_id]
                    &&& v@.no_duplicates()
                },
                None => !self@.user_to_devices.contains_key(user_id),
            },
    {
        match self.user_connections.get(&user_id) {
            Some(v) => {
                let copy = clone_id_vec(v);
                Some(copy)
            },
            None => None,
        }
    }

    /// Pairs `device_id` to `user_id`. Fails with `AlreadyPaired`, changing
    /// nothing, when the device is already paired to a different user;
    /// succeeds (idempotently) when it is open, unpaired, or already paired
    /// to the same user.
    pub fn connect(&mut self, user_id: UserId, device_id: DeviceId) -> (r: Result<(), PairError>)
        requires
            old(self).inv(),
        ensures
            final(self).inv(),
            old(self)@.connect_allowed(user_id, device_id) ==> r == Ok::<(), PairError>(())
                && final(self)@ == old(self)@.connect_next(user_id, device_id),
            !old(self)@.connect_allowed(user_id, device_id) ==> r == Err::<(), PairError>(
                PairError::AlreadyPaired,
            ) && final(self)@ == old(self)@,
    {
        match self.device_connection.get(&device_id) {
            Some(existing) => {
                if *existing != user_id {
                    return Err(PairError::AlreadyPaired);
                }
            },
            None => {},
        }
        let ghost pre = self@;
        remove_id(&mut self.open_devices, device_id);
        let ghost uc0 = self.user_connections@;
        let mut devs: Vec<DeviceId> = match self.user_connections.remove(&user_id) {
            Some(v) => v,
            None => Vec::new(),
        };
        proof {
            assert(devs@.to_set() =~= pre.devices_of(user_id));
        }
        if !contains_id(&devs, device_id) {
            push_id(&mut devs, device_id);
        } else {
            proof {
                assert(devs@.to_set() =~= devs@.to_set().insert(device_id));
            }
        }
        let ghost dseq = devs@;
        self.user_connections.insert(user_id, devs);
        self.device_connection.insert(device_id, user_id);
        proof {
            let next = pre.connect_next(user_id, device_id);
            assert(self.user_connections@[user_id]@ == dseq);
            assert(self@.user_to_devices =~~= next.user_to_devices);
            assert(self@.open_devices =~= next.open_devices);
            assert(self@.user_to_devices == next.user_to_devices
                && self@.open_devices == next.open_devices
                && self@.device_to_user == next.device_to_user);
            assert(self@ == next);
            pre.lemma_connect_preserves_wf(user_id, device_id);
        }
        Ok(())
    }

    /// Unpairs `device_id` from `user_id` and returns the device to the
    /// open set. Fails with `NotPaired` when the device is not currently
    /// paired to this user; an unpaired device is nonetheless placed into
    /// the open set as a repair action, while a device paired to a
    /// different user stays with that user untouched.
    pub fn disconnect(&mut self, user_id: UserId, device_id: DeviceId) -> (r: Result<
        (),
        PairError,
    >)
        requires
            old(self).inv(),
        ensures
            final(self).inv(),
            old(self)@.disconnect_allowed(user_id, device_id) ==> r == Ok::<(), PairError>(())
                && final(self)@ == old(self)@.disconnect_next(user_id, device_id),
            !old(self)@.disconnect_allowed(user_id, device_id) ==> r == Err::<(), PairError>(
                PairError::NotPaired,
            ) && final(self)@ == old(self)@.disconnect_repair(device_id),
    {
        let ghost pre = self@;
        let mapped_user: Option<UserId> = match self.device_connection.get(&device_id) {
            Some(u) => Some(*u),
            None => None,
        };
        match mapped_user {
            Some(u) => {
                if u != user_id {
                    proof {
                        assert(self@ =~= pre.disconnect_repair(device_id));
                    }
                    return Err(PairError::NotPaired);
                }
                self.device_connection.remove(&device_id);
                let mut devs: Vec<DeviceId> = match self.user_connections.remove(&user_id) {
                    Some(v) => v,
                    None => Vec::new(),
                };
                proof {
                    assert(pre.paired(user_id, device_id));
                    assert(pre.wf());
                    assert(pre.user_to_devices.contains_key(user_id)
                        && pre.user_to_devices[user_id].contains(device_id));
                    assert(devs@.to_set() =~= pre.devices_of(user_id));
                }
                remove_id(&mut devs, device_id);
                let ghost remaining = pre.devices_of(user_id).remove(device_id);
                proof {
                    assert(devs@.to_set() == remaining);
                }
                if devs.len() > 0 {
                    proof {
                        assert(!remaining.is_empty()) by {
                            assert(remaining.contains(devs@[0]));
                        }
                    }
                    let ghost dseq = devs@;
                    self.user_connections.insert(user_id, devs);
                    proof {
                        assert(self.user_connections@[user_id]@ == dseq);
                    }
                } else {
                    proof {
                        assert(remaining.is_empty()) by {
                            assert(remaining =~= Set::empty());
                        }
                    }
                }
                proof {
                    assert(!pre.open_devices.contains(device_id));
                }
                push_id(&mut self.open_devices, device_id);
                proof {
                    let next = pre.disconnect_next(user_id, device_id);
                    assert(self@.user_to_devices =~~= next.user_to_devices);
                    assert(self@.open_devices =~= next.open_devices);
                    assert(self@.user_to_devices == next.user_to_devices
                        && self@.open_devices == next.open_devices
                        && self@.device_to_user == next.device_to_user);
                    assert(self@ == next);
                    pre.lemma_disconnect_preserves_wf(user_id, device_id);
                }
                Ok(())
            },
            None => {
                if !contains_id(&self.open_devices, device_id) {
                    push_id(&mut self.open_devices, device_id);
                } else {
                    proof {
                        assert(pre.open_devices =~= pre.open_devices.insert(device_id));
                    }
                }
                proof {
                    assert(self@ =~= pre.disconnect_repair(device_id));
                    pre.lemma_disconnect_repair_preserves_wf(device_id);
                }
                Err(PairError::NotPaired)
            },
        }
    }

    /// Adds a newly registered device to the open set.
    pub fn add_open_device(&mut self, device_id: DeviceId)
        requires
            old(self).inv(),
            !old(self)@.open_devices.contains(device_id),
            !old(self)@.device_to_user.contains_key(device_id),
        ensures
            final(self).inv(),
            final(self)@ == (PairState {
                open_devices: old(self)@.open_devices.insert(device_id),
                ..old(self)@
            }),
    {
        let ghost pre = self@;
        push_id(&mut self.open_devices, device_id);
        proof {
            assert(self@ =~= (PairState {
                open_devices: pre.open_devices.insert(device_id),
                ..pre
            }));
        }
    }

    /// Unregisters a device, clearing it from whichever structure it
    /// occupies, and returns the user it was paired to, if any. Never
    /// errors; removing an unknown id is a no-op.
    pub fn remove_device(&mut self, device_id: DeviceId) -> (r: Option<UserId>)
        requires
            old(self).inv(),
        ensures
            final(self).inv(),
            final(self)@ == old(self)@.remove_device_next(device_id),
            r == (if old(self)@.device_to_user.contains_key(device_id) {
                Some(old(self)@.device_to_user[device_id])
            } else {
                None::<UserId>
            }),
    {
        let ghost pre = self@;
        match self.device_connection.remove(&device_id) {
            Some(user_id) => {
                let mut devs: Vec<DeviceId> = match self.user_connections.remove(&user_id) {
                    Some(v) => v,
                    None => Vec::new(),
                };
                proof {
                    assert(pre.paired(user_id, device_id));
                    assert(pre.wf());
                    assert(pre.user_to_devices.contains_key(user_id)
                        && pre.user_to_devices[user_id].contains(device_id));
                    assert(devs@.to_set() =~= pre.devices_of(user_id));
                }
                remove_id(&mut devs, device_id);
                let ghost remaining = pre.devices_of(user_id).remove(device_id);
                if devs.len() > 0 {
                    proof {
                        assert(!remaining.is_empty()) by {
                            assert(remaining.contains(devs@[0]));
                        }
                    }
                    let ghost dseq = devs@;
                    self.user_connections.insert(user_id, devs);
                    proof {
                        assert(self.user_connections@[user_id]@ == dseq);
                    }
                } else {
                    proof {
                        assert(remaining.is_empty()) by {
                            assert(remaining =~= Set::empty());
                        }
                    }
                }
                proof {
                    let next = pre.remove_device_next(device_id);
                    assert(self@.user_to_devices =~~= next.user_to_devices);
                    assert(self@.open_devices =~= next.open_devices);
                    assert(self@.user_to_devices == next.user_to_devices
                        && self@.open_devices == next.open_devices
                        && self@.device_to_user == next.device_to_user);
                    assert(self@ == next);
                    pre.lemma_remove_device_preserves_wf(device_id);
                }
                Some(user_id)
            },
            None => {
                remove_id(&mut self.open_devices, device_id);
                proof {
                    let next = pre.remove_device_next(device_id);
                    assert(self@.user_to_devices =~~= next.user_to_devices);
                    assert(self@.user_to_devices == next.user_to_devices
                        && self@.open_devices == next.open_devices
                        && self@.device_to_user == next.device_to_user);
                    assert(self@ == next);
                    pre.lemma_remove_device_preserves_wf(device_id);
                }
                None
            },
        }
    }

    /// Unregisters a user, clearing all of its pairings and moving every
    /// formerly paired device back into the open set; returns the affected
    /// device ids, if there were any. Never errors; removing an unknown id
    /// is a no-op.
    pub fn remove_user(&mut self, user_id: UserId) -> (r: Option<Vec<DeviceId>>)
        requires
            old(self).inv(),
        ensures
            final(self).inv(),
            final(self)@ == old(self)@.remove_user_next(user_id),
            match r {
                Some(v) => {
                    &&& old(self)@.user_to_devices.contains_key(user_id)
                    &&& v@.to_set() == old(self)@.user_to_devices[user_id]
                    &&& v@.no_duplicates()
                },
                None => !old(self)@.user_to_devices.contains_key(user_id),
            },
    {
        let ghost pre = self@;
        match self.user_connections.remove(&user_id) {
            Some(devs) => {
                let ghost freed = pre.user_to_devices[user_id];
                proof {
                    assert(pre.user_to_devices.contains_key(user_id));
                    assert(devs@.to_set() =~= freed);
                    assert forall|j: int| 0 <= j < devs@.len() implies pre.paired(
                        user_id,
                        devs@[j],
                    ) by {
                        assert(pre.user_to_devices[user_id].contains(devs@[j]));
                    }
                }
                let ghost uc1 = self.user_connections@;
                let mut i: usize = 0;
                while i < devs.len()
                    invariant
                        i <= devs.len(),
                        pre.wf(),
                        devs@.no_duplicates(),
                        forall|j: int| 0 <= j < devs@.len() ==> pre.paired(user_id, devs@[j]),
                        self.user_connections@ == uc1,
                        self.device_connection@ == pre.device_to_user.remove_keys(
                            devs@.subrange(0, i as int).to_set(),
                        ),
                        self.open_devices@.no_duplicates(),
                        self.open_devices@.to_set() == pre.open_devices.union(
                            devs@.subrange(0, i as int).to_set(),
                        ),
                    decreases devs.len() - i,
                {
                    let d = devs[i];
                    let ghost dc_prev = self.device_connection@;
                    let ghost open_prev = self.open_devices@.to_set();
                    self.device_connection.remove(&d);
                    proof {
                        assert(!self.open_devices@.contains(d)) by {
                            assert(pre.paired(user_id, d));
                            assert(!pre.open_devices.contains(d));
                            assert(!devs@.subrange(0, i as int).contains(d)) by {
                                if devs@.subrange(0, i as int).contains(d) {
                                    let j = choose|j: int|
                                        0 <= j < i && devs@.subrange(0, i as int)[j] == d;
                                    assert(devs@[j] == devs@[i as int]);
                                }
                            }
                            if self.open_devices@.contains(d) {
                                assert(self.open_devices@.to_set().contains(d));
                            }
                        }
                    }
                    push_id(&mut self.open_devices, d);
                    i += 1;
                    proof {
                        let sub_new = devs@.subrange(0, i as int);
                        let sub_old = devs@.subrange(0, i as int - 1);
                        assert forall|y: DeviceId| sub_new.contains(y) implies sub_old.contains(y)
                            || y == d by {
                            let k = choose|k: int| 0 <= k < sub_new.len() && sub_new[k] == y;
                            if k < sub_old.len() {
                                assert(sub_old[k] == y);
                            } else {
                                assert(sub_new[k] == devs@[k]);
                            }
                        }
                        assert forall|y: DeviceId| sub_old.contains(y) || y == d implies sub_new
                            .contains(y) by {
                            if y == d {
                                assert(sub_new[i as int - 1] == d);
                            } else {
                                let k = choose|k: int| 0 <= k < sub_old.len() && sub_old[k] == y;
                                assert(sub_new[k] == y);
                            }
                        }
                        assert(sub_new.to_set() =~= sub_old.to_set().insert(d));
                        assert(self.device_connection@ =~= pre.device_to_user.remove_keys(
                            sub_new.to_set(),
                        ));
                        assert(self.open_devices@.to_set() =~= pre.open_devices.union(
                            sub_new.to_set(),
                        ));
                    }
                }
                proof {
                    assert(devs@.subrange(0, devs@.len() as int) =~= devs@);
                    let next = pre.remove_user_next(user_id);
                    assert(self@.user_to_devices =~~= next.user_to_devices);
                    assert(self@.device_to_user =~= next.device_to_user);
                    assert(self@.open_devices =~= next.open_devices);
                    assert(self@.user_to_devices == next.user_to_devices
                        && self@.open_devices == next.open_devices
                        && self@.device_to_user == next.device_to_user);
                    assert(self@ == next);
                    pre.lemma_remove_user_preserves_wf(user_id);
                }
                Some(devs)
            },
            None => {
                proof {
                    assert(self@ =~= pre.remove_user_next(user_id));
                }
                None
            },
        }
    }

    /// All currently open devices.
    pub fn get_open_devices(&self) -> (r: Vec<DeviceId>)
        requires
            self.inv(),
        ensures
            r@.to_set() == self@.open_devices,
            r@.no_duplicates(),
    {
        clone_id_vec(&self.open_devices)
    }
}

/// Appends `x`, which must not already occur, keeping the vector
/// duplicate-free.
pub(crate) fn push_id(v: &mut Vec<DeviceId>, x: DeviceId)
    requires
        old(v)@.no_duplicates(),
        !old(v)@.contains(x),
    ensures
        final(v)@.no_duplicates(),
        final(v)@.to_set() == old(v)@.to_set().insert(x),
{
    let ghost d0 = v@;
    v.push(x);
    proof {
        assert forall|y: DeviceId| v@.contains(y) implies d0.contains(y) || y == x by {
            let k = choose|k: int| 0 <= k < v@.len() && v@[k] == y;
            if k < d0.len() {
                assert(d0[k] == y);
            }
        }
        assert forall|y: DeviceId| d0.contains(y) || y == x implies v@.contains(y) by {
            if y == x {
                assert(v@[d0.len() as int] == x);
            } else {
                let k = choose|k: int| 0 <= k < d0.len() && d0[k] == y;
                assert(v@[k] == y);
            }
        }
        assert(v@.to_set() =~= d0.to_set().insert(x));
        assert forall|k1: int, k2: int|
            0 <= k1 < v@.len() && 0 <= k2 < v@.len() && k1 != k2 implies v@[k1] != v@[k2] by {
            if k1 < d0.len() && k2 < d0.len() {
                assert(d0[k1] != d0[k2]);
            } else if k1 < d0.len() {
                assert(d0[k1] == v@[k1] && v@[k2] == x);
                assert(d0.contains(v@[k1])) by { assert(d0[k1] == v@[k1]); }
            } else {
                assert(d0[k2] == v@[k2] && v@[k1] == x);
                assert(d0.contains(v@[k2])) by { assert(d0[k2] == v@[k2]); }
            }
        }
    }
}

/// Whether `x` occurs in `v`.
pub(crate) fn contains_id(v: &Vec<DeviceId>, x: DeviceId) -> (r: bool)
    ensures
        r == v@.contains(x),
{
    let mut i: usize = 0;
    while i < v.len()
        invariant
            i <= v.len(),
            forall|j: int| 0 <= j < i ==> v@[j] != x,
        decreases v.len() - i,
    {
        if v[i] == x {
            return true;
        }
        i += 1;
    }
    false
}

/// Removes `x` from `v` if present. Callers keep their vectors
/// duplicate-free, so the first occurrence is also the only one.
pub(crate) fn remove_id(v: &mut Vec<DeviceId>, x: DeviceId)
    requires
        old(v)@.no_duplicates(),
    ensures
        final(v)@.no_duplicates(),
        final(v)@.to_set() == old(v)@.to_set().remove(x),
        !old(v)@.contains(x) ==> final(v)@ == old(v)@,
{
    let ghost s0 = v@;
    let mut i: usize = 0;
    while i < v.len()
        invariant
            i <= v.len(),
            v@ == s0,
            s0 == old(v)@,
            s0.no_duplicates(),
            forall|j: int| 0 <= j < i ==> v@[j] != x,
        decreases v.len() - i,
    {
        if v[i] == x {
            v.remove(i);
            proof {
                let s1 = v@;
                let k0 = i as int;
                assert(s0.contains(x)) by { assert(s0[k0] == x); }
                s0.remove_ensures(k0);
                assert forall|y: DeviceId| s1.contains(y) implies s0.contains(y) && y != x by {
                    let k = choose|k: int| 0 <= k < s1.len() && s1[k] == y;
                    if k < k0 {
                        assert(s0[k] == y);
                        assert(y != x) by { assert(s0[k] != s0[k0]); }
                    } else {
                        assert(s0[k + 1] == y);
                        assert(y != x) by { assert(s0[k + 1] != s0[k0]); }
                    }
                }
                assert forall|y: DeviceId| s0.contains(y) && y != x implies s1.contains(y) by {
                    let j = choose|j: int| 0 <= j < s0.len() && s0[j] == y;
                    if j < k0 {
                        assert(s1[j] == y);
                    } else {
                        assert(j != k0);
                        assert(s1[j - 1] == y);
                    }
                }
                assert(s1.to_set() =~= s0.to_set().remove(x));
                assert forall|k1: int, k2: int|
                    0 <= k1 < s1.len() && 0 <= k2 < s1.len() && k1 != k2 implies s1[k1]
                    != s1[k2] by {
                    let j1: int = if k1 < k0 { k1 } else { k1 + 1 };
                    let j2: int = if k2 < k0 { k2 } else { k2 + 1 };
                    assert(s1[k1] == s0[j1]);
                    assert(s1[k2] == s0[j2]);
                }
            }
            return;
        }
        i += 1;
    }
    proof {
        assert(!s0.contains(x));
        assert(v@.to_set() =~= s0.to_set().remove(x));
    }
}

/// Copies a vector of identifiers.
fn clone_id_vec(v: &Vec<DeviceId>) -> (r: Vec<DeviceId>)
    ensures
        r@ == v@,
{
    let mut r: Vec<DeviceId> = Vec::new();
    let mut i: usize = 0;
    while i < v.len()
        invariant
            i <= v.len(),
            r@ == v@.subrange(0, i as int),
        decreases v.len() - i,
    {
        r.push(v[i]);
        i += 1;
    }
    proof {
        assert(r@ =~= v@);
    }
    r
}

} // verus!
