use vstd::prelude::*;
use std::collections::HashMap;
use crate::commands::{DeviceCommand, Effect, ServerCommand, UserCommand};
use crate::entities::{Device, DeviceId, DeviceState, UserId};
use crate::pairing::{ConnectionManager, PairError, PairState};

verus! {

/// Relies on `uuid::Uuid::new_v4`: draws a random 128-bit identifier.
/// Nothing is promised of the value; the caller checks freshness against
/// the registries.
#[verifier::external_body]
fn fresh_id() -> u128 {
    uuid::Uuid::new_v4().as_u128()
}

/// Abstract state of the connection server: the registered users, the
/// device records, the pairing state, and every id ever issued. Issued ids
/// outlive their entity: an id is never reused, so the set only grows.
#[verifier::ext_equal]
pub ghost struct ServerView {
    pub users: Set<UserId>,
    pub devices: Map<DeviceId, Device>,
    pub pairs: PairState,
    pub issued: Set<u128>,
}

/// `dev` with its state replaced.
pub open spec fn with_state(dev: Device, state: DeviceState) -> Device {
    Device { state, ..dev }
}

impl ServerView {
    pub open spec fn empty() -> ServerView {
        ServerView {
            users: Set::empty(),
            devices: Map::empty(),
            pairs: PairState::empty(),
            issued: Set::empty(),
        }
    }

    /// The id is known, as a user or as a device.
    pub open spec fn has_id(self, id: u128) -> bool {
        self.users.contains(id) || self.devices.contains_key(id)
    }

    /// The connection server's invariant: the pairing state is well formed,
    /// every registered device is in exactly one of the open set and the
    /// paired map, a device record says `Connected` exactly when the device
    /// is paired, the pairing structures reference only registered ids, and
    /// every registered id was issued.
    pub open spec fn wf(self) -> bool {
        &&& self.pairs.wf()
        &&& forall|x: u128| #[trigger] self.users.contains(x) ==> self.issued.contains(x)
        &&& forall|d: DeviceId| #[trigger] self.devices.contains_key(d)
                ==> self.issued.contains(d)
        &&& forall|d: DeviceId| #[trigger] self.devices.contains_key(d) ==> self.devices[d].id == d
        &&& forall|d: DeviceId| #[trigger] self.devices.contains_key(d)
                ==> self.pairs.open_devices.contains(d) || self.pairs.device_to_user.contains_key(d)
        &&& forall|d: DeviceId| #[trigger] self.pairs.open_devices.contains(d)
                ==> self.devices.contains_key(d)
        &&& forall|d: DeviceId| #[trigger] self.pairs.device_to_user.contains_key(d)
                ==> self.devices.contains_key(d)
        &&& forall|d: DeviceId| #[trigger] self.devices.contains_key(d)
                ==> ((self.devices[d].state == DeviceState::Connected)
                    <==> self.pairs.device_to_user.contains_key(d))
        &&& forall|u: UserId| #[trigger] self.pairs.user_to_devices.contains_key(u)
                ==> self.users.contains(u)
    }

    /// The state after a user registers under a fresh id: the id is marked
    /// issued for good.
    pub open spec fn register_user_next(self, user_id: UserId) -> ServerView {
        ServerView {
            users: self.users.insert(user_id),
            issued: self.issued.insert(user_id),
            ..self
        }
    }

    /// The state after a device registers under a fresh id: its record is
    /// created in the `Open` state, it joins the open set, and the id is
    /// marked issued for good.
    pub open spec fn register_device_next(self, device_id: DeviceId, name: String) -> ServerView {
        ServerView {
            devices: self.devices.insert(
                device_id,
                Device { id: device_id, name, state: DeviceState::Open },
            ),
            pairs: PairState {
                open_devices: self.pairs.open_devices.insert(device_id),
                ..self.pairs
            },
            issued: self.issued.insert(device_id),
            ..self
        }
    }

    /// The state after a user unregisters: its pairings are cleared and
    /// every freed device returns to the open set, its record set back to
    /// `Open`.
    pub open spec fn unregister_user_next(self, user_id: UserId) -> ServerView {
        let freed = self.pairs.devices_of(user_id);
        ServerView {
            users: self.users.remove(user_id),
            devices: Map::new(
                |d: DeviceId| self.devices.contains_key(d),
                |d: DeviceId|
                    if freed.contains(d) {
                        with_state(self.devices[d], DeviceState::Open)
                    } else {
                        self.devices[d]
                    },
            ),
            pairs: self.pairs.remove_user_next(user_id),
            issued: self.issued,
        }
    }

    /// The state after a device unregisters: its record disappears and the
    /// pairing state is cleared of it.
    pub open spec fn unregister_device_next(self, device_id: DeviceId) -> ServerView {
        ServerView {
            devices: self.devices.remove(device_id),
            pairs: self.pairs.remove_device_next(device_id),
            ..self
        }
    }

    /// The state after a successful connect: the pairing is recorded and
    /// the device record turns `Connected`.
    pub open spec fn connect_next(self, user_id: UserId, device_id: DeviceId) -> ServerView {
        ServerView {
            devices: self.devices.insert(
                device_id,
                with_state(self.devices[device_id], DeviceState::Connected),
            ),
            pairs: self.pairs.connect_next(user_id, device_id),
            ..self
        }
    }

    /// The state after a successful disconnect: the pairing is cleared and
    /// the device record turns `Open` again.
    pub open spec fn disconnect_next(self, user_id: UserId, device_id: DeviceId) -> ServerView {
        ServerView {
            devices: self.devices.insert(
                device_id,
                with_state(self.devices[device_id], DeviceState::Open),
            ),
            pairs: self.pairs.disconnect_next(user_id, device_id),
            ..self
        }
    }
}

/// `l` lists, without repetition, exactly one current record for every id
/// in `ids`.
pub open spec fn records_for(l: Seq<Device>, ids: Set<DeviceId>, devices: Map<DeviceId, Device>) -> bool {
    &&& forall|i: int| #![trigger l[i]] 0 <= i < l.len()
            ==> ids.contains(l[i].id) && devices.contains_key(l[i].id) && l[i]
                == devices[l[i].id]
    &&& forall|d: DeviceId| #[trigger] ids.contains(d)
            ==> exists|i: int| #![trigger l[i]] 0 <= i < l.len() && l[i].id == d
    &&& forall|i: int, j: int| #![trigger l[i], l[j]] 0 <= i < l.len() && 0 <= j < l.len() && i != j
            ==> l[i].id != l[j].id
}

/// What registering a user under fresh id `user_id` does: the user is
/// added, it is sent the current open-device list, and the rendezvous is
/// answered with the id.
pub open spec fn register_user_outcome(
    pre: ServerView,
    post: ServerView,
    user_id: UserId,
    effects: Seq<Effect>,
) -> bool {
    &&& post == pre.register_user_next(user_id)
    &&& effects.len() == 2
    &&& (effects[0] matches Effect::ToUser {
        user_id: u,
        cmd: UserCommand::UpdateDevices { devices },
    } && u == user_id && records_for(devices@, pre.pairs.open_devices, pre.devices))
    &&& effects[1] == (Effect::Reply { id: user_id })
}

/// What registering a device under fresh id `device_id` does: its record
/// is created open, every user is told, and the rendezvous is answered.
pub open spec fn register_device_outcome(
    pre: ServerView,
    post: ServerView,
    device_id: DeviceId,
    name: String,
    effects: Seq<Effect>,
) -> bool {
    &&& post == pre.register_device_next(device_id, name)
    &&& effects.len() == 2
    &&& (effects[0] matches Effect::ToAllUsers { cmd: UserCommand::UpdateDevices { devices } }
        && devices@.len() == 1 && devices@[0] == (Device {
        id: device_id,
        name,
        state: DeviceState::Open,
    }))
    &&& effects[1] == (Effect::Reply { id: device_id })
}

/// What unregistering a user does: its pairings are cleared, and if any
/// devices were freed, everyone is sent the batch that became open again.
pub open spec fn unregister_user_outcome(
    pre: ServerView,
    post: ServerView,
    user_id: UserId,
    effects: Seq<Effect>,
) -> bool {
    &&& post == pre.unregister_user_next(user_id)
    &&& if pre.pairs.user_to_devices.contains_key(user_id) {
        &&& effects.len() == 1
        &&& (effects[0] matches Effect::ToAllUsers { cmd: UserCommand::UpdateDevices { devices } }
            && records_for(devices@, pre.pairs.user_to_devices[user_id], post.devices))
    } else {
        effects == Seq::<Effect>::empty()
    }
}

/// What unregistering a device does: its record disappears; its paired
/// user, if any, is told it lost the device, otherwise everyone is told
/// the open device disappeared.
pub open spec fn unregister_device_outcome(
    pre: ServerView,
    post: ServerView,
    device_id: DeviceId,
    effects: Seq<Effect>,
) -> bool {
    &&& post == pre.unregister_device_next(device_id)
    &&& effects.len() == 1
    &&& if pre.pairs.device_to_user.contains_key(device_id) {
        effects[0] == (Effect::ToUser {
            user_id: pre.pairs.device_to_user[device_id],
            cmd: UserCommand::RemoveConnectedDevice { device_id },
        })
    } else {
        effects[0] == (Effect::ToAllUsers { cmd: UserCommand::RemoveDevice { device_id } })
    }
}

/// What a connect command does. A command naming an unknown user or device
/// is a silent no-op; a refused connect changes nothing and the requesting
/// user is sent the error; a successful connect turns the device record
/// `Connected`, withdraws the device from everyone's open list and hands
/// its record to the new holder.
pub open spec fn connect_outcome(
    pre: ServerView,
    post: ServerView,
    user_id: UserId,
    device_id: DeviceId,
    effects: Seq<Effect>,
) -> bool {
    if !pre.users.contains(user_id) || !pre.devices.contains_key(device_id) {
        post == pre && effects == Seq::<Effect>::empty()
    } else if pre.pairs.connect_allowed(user_id, device_id) {
        &&& post == pre.connect_next(user_id, device_id)
        &&& effects.len() == 2
        &&& effects[0] == (Effect::ToAllUsers { cmd: UserCommand::RemoveDevice { device_id } })
        &&& effects[1] == (Effect::ToUser {
            user_id,
            cmd: UserCommand::UpdateConnectedDevice {
                device: with_state(pre.devices[device_id], DeviceState::Connected),
            },
        })
    } else {
        &&& post == pre
        &&& effects.len() == 1
        &&& effects[0] == (Effect::ToUser {
            user_id,
            cmd: UserCommand::Error { error: PairError::AlreadyPaired },
        })
    }
}

/// What a disconnect command does. The requesting user is optimistically
/// told the device is gone before validation; on success the device record
/// turns `Open` again and everyone learns it is available; on failure the
/// user is sent the error and the state is unchanged. A command naming an
/// unknown user is a silent no-op.
pub open spec fn disconnect_outcome(
    pre: ServerView,
    post: ServerView,
    user_id: UserId,
    device_id: DeviceId,
    effects: Seq<Effect>,
) -> bool {
    let optimistic = Effect::ToUser {
        user_id,
        cmd: UserCommand::RemoveConnectedDevice { device_id },
    };
    let refused = Effect::ToUser {
        user_id,
        cmd: UserCommand::Error { error: PairError::NotPaired },
    };
    if !pre.users.contains(user_id) {
        post == pre && effects == Seq::<Effect>::empty()
    } else if !pre.devices.contains_key(device_id) {
        post == pre && effects.len() == 2 && effects[0] == optimistic && effects[1] == refused
    } else if pre.pairs.disconnect_allowed(user_id, device_id) {
        &&& post == pre.disconnect_next(user_id, device_id)
        &&& effects.len() == 2
        &&& effects[0] == optimistic
        &&& (effects[1] matches Effect::ToAllUsers { cmd: UserCommand::UpdateDevices { devices } }
            && devices@.len() == 1 && devices@[0] == with_state(
            pre.devices[device_id],
            DeviceState::Open,
        ))
    } else {
        post == pre && effects.len() == 2 && effects[0] == optimistic && effects[1] == refused
    }
}

/// What a user-signaling command does: pure routing. The payload reaches
/// the device's sink exactly when the device is currently held by the
/// sending user; otherwise nothing is delivered and no error is raised.
pub open spec fn user_signaling_outcome(
    pre: ServerView,
    user_id: UserId,
    device_id: DeviceId,
    signal: serde_json::Value,
    effects: Seq<Effect>,
) -> bool {
    if pre.pairs.paired(user_id, device_id) {
        effects.len() == 1 && effects[0] == (Effect::ToDevice {
            device_id,
            cmd: DeviceCommand::UserSignaling { signal },
        })
    } else {
        effects == Seq::<Effect>::empty()
    }
}

/// What a device-signaling command does: pure routing to the paired user,
/// if there is one.
pub open spec fn device_signaling_outcome(
    pre: ServerView,
    device_id: DeviceId,
    signal: serde_json::Value,
    effects: Seq<Effect>,
) -> bool {
    if pre.pairs.device_to_user.contains_key(device_id) {
        effects.len() == 1 && effects[0] == (Effect::ToUser {
            user_id: pre.pairs.device_to_user[device_id],
            cmd: UserCommand::DeviceSignaling { device_id, signal },
        })
    } else {
        effects == Seq::<Effect>::empty()
    }
}

/// The connection server: the authoritative registries of users and
/// devices together with the pairing state machine. It applies one command
/// at a time and returns the notifications to deliver, so every observable
/// state change is serialized through it.
#[derive(Debug)]
pub struct ConnectionServer {
    devices: HashMap<DeviceId, Device>,
    users: Vec<UserId>,
    connections: ConnectionManager,
    issued: Vec<u128>,
}

impl View for ConnectionServer {
    type V = ServerView;

    closed spec fn view(&self) -> ServerView {
        ServerView {
            users: self.users@.to_set(),
            devices: self.devices@,
            pairs: self.connections@,
            issued: self.issued@.to_set(),
        }
    }
}

impl ConnectionServer {
    /// Representation invariant: the abstract state is well formed and the
    /// backing structures are duplicate-free.
    pub open spec fn inv(self) -> bool {
        self@.wf() && self.rep_inv()
    }

    /// The representation part of the invariant.
    pub closed spec fn rep_inv(self) -> bool {
        self.users@.no_duplicates() && self.connections.inv() && self.issued@.no_duplicates()
    }

    pub fn new() -> (server: ConnectionServer)
        ensures
            server.inv(),
            server@ == ServerView::empty(),
    {
        let server = ConnectionServer {
            devices: HashMap::new(),
            users: Vec::new(),
            connections: ConnectionManager::new(),
            issued: Vec::new(),
        };
        proof {
            assert(server@ =~= ServerView::empty());
        }
        server
    }

    /// One current record for every open device.
    fn open_device_records(&self) -> (records: Vec<Device>)
        requires
            self.inv(),
        ensures
            records_for(records@, self@.pairs.open_devices, self@.devices),
    {
        let ids = self.connections.get_open_devices();
        let mut records: Vec<Device> = Vec::new();
        let mut i: usize = 0;
        while i < ids.len()
            invariant
                i <= ids.len(),
                self.inv(),
                ids@.no_duplicates(),
                ids@.to_set() == self@.pairs.open_devices,
                records@.len() == i,
                forall|j: int| 0 <= j < i
                    ==> #[trigger] records@[j] == self@.devices[ids@[j]] && records@[j].id
                        == ids@[j],
            decreases ids.len() - i,
        {
            proof {
                assert(self@.pairs.open_devices.contains(ids@[i as int])) by {
                    assert(ids@.contains(ids@[i as int]));
                }
            }
            match self.devices.get(&ids[i]) {
                Some(dev) => {
                    records.push(dev.clone());
                },
                None => {
                    proof {
                        assert(false);
                    }
                },
            }
            i += 1;
        }
        proof {
            assert forall|d: DeviceId| self@.pairs.open_devices.contains(d) implies exists|k: int|
                0 <= k < records@.len() && #[trigger] records@[k].id == d by {
                assert(ids@.to_set().contains(d));
                let j = choose|j: int| 0 <= j < ids@.len() && ids@[j] == d;
                assert(records@[j].id == d);
            }
        }
        records
    }

    /// Registers a user under a given id that was never issued before. The
    /// new user is sent the current open-device list, and the registration
    /// rendezvous is answered with the id.
    pub fn register_user_with_id(&mut self, user_id: UserId) -> (effects: Vec<Effect>)
        requires
            old(self).inv(),
            !old(self)@.issued.contains(user_id),
        ensures
            final(self).inv(),
            register_user_outcome(old(self)@, final(self)@, user_id, effects@),
    {
        let ghost pre = self@;
        proof {
            assert(!pre.has_id(user_id));
        }
        let records = self.open_device_records();
        push_user(&mut self.users, user_id);
        crate::pairing::push_id(&mut self.issued, user_id);
        proof {
            assert(self@ =~= pre.register_user_next(user_id));
            assert forall|u: UserId| #[trigger] self@.pairs.user_to_devices.contains_key(u)
                implies self@.users.contains(u) by {}
        }
        let mut effects: Vec<Effect> = Vec::new();
        effects.push(Effect::ToUser {
            user_id,
            cmd: UserCommand::UpdateDevices { devices: records },
        });
        effects.push(Effect::Reply { id: user_id });
        effects
    }

    /// Registers a device under a given id that was never issued before.
    /// Its record is created in the `Open` state, every user is told about
    /// the new open device, and the registration rendezvous is answered
    /// with the id.
    pub fn register_device_with_id(&mut self, device_id: DeviceId, name: String) -> (effects: Vec<
        Effect,
    >)
        requires
            old(self).inv(),
            !old(self)@.issued.contains(device_id),
        ensures
            final(self).inv(),
            register_device_outcome(old(self)@, final(self)@, device_id, name, effects@),
    {
        let ghost pre = self@;
        proof {
            assert(!pre.has_id(device_id));
        }
        let dev = Device::new(device_id, name);
        let announce = dev.clone();
        self.devices.insert(device_id, dev);
        self.connections.add_open_device(device_id);
        crate::pairing::push_id(&mut self.issued, device_id);
        proof {
            assert(self@ =~= pre.register_device_next(device_id, announce.name));
        }
        let mut effects: Vec<Effect> = Vec::new();
        let mut listed: Vec<Device> = Vec::new();
        listed.push(announce);
        effects.push(Effect::ToAllUsers { cmd: UserCommand::UpdateDevices { devices: listed } });
        effects.push(Effect::Reply { id: device_id });
        effects
    }

    /// Unregisters a user: all of its pairings are cleared, every freed
    /// device returns to the open set with its record set back to `Open`,
    /// and if any devices were freed the batch that became available again
    /// is broadcast. Removing an unknown id changes no state.
    pub fn unregister_user(&mut self, user_id: UserId) -> (effects: Vec<Effect>)
        requires
            old(self).inv(),
        ensures
            final(self).inv(),
            unregister_user_outcome(old(self)@, final(self)@, user_id, effects@),
    {
        let ghost pre = self@;
        crate::pairing::remove_id(&mut self.users, user_id);
        match self.connections.remove_user(user_id) {
            Some(freed) => {
                let ghost freed_set = pre.pairs.user_to_devices[user_id];
                proof {
                    assert(pre.pairs.user_to_devices.contains_key(user_id));
                    assert(freed@.to_set() == freed_set);
                    assert forall|j: int| 0 <= j < freed@.len() implies pre.pairs.paired(
                        user_id,
                        #[trigger] freed@[j],
                    ) by {
                        assert(freed@.to_set().contains(freed@[j]));
                        assert(pre.pairs.user_to_devices[user_id].contains(freed@[j]));
                    }
                }
                let mut records: Vec<Device> = Vec::new();
                let mut i: usize = 0;
                while i < freed.len()
                    invariant
                        i <= freed.len(),
                        pre.wf(),
                        freed@.no_duplicates(),
                        pre.pairs.user_to_devices.contains_key(user_id),
                        freed@.to_set() == pre.pairs.devices_of(user_id),
                        forall|j: int| 0 <= j < freed@.len() ==> pre.pairs.paired(
                            user_id,
                            #[trigger] freed@[j],
                        ),
                        self.users@.to_set() == pre.users.remove(user_id),
                        self.users@.no_duplicates(),
                        self.issued@.to_set() == pre.issued,
                        self.issued@.no_duplicates(),
                        self.connections.inv(),
                        self.connections@ == pre.pairs.remove_user_next(user_id),
                        records@.len() == i,
                        forall|j: int| 0 <= j < i ==> #[trigger] records@[j] == with_state(
                            pre.devices[freed@[j]],
                            DeviceState::Open,
                        ),
                        self.devices@ == Map::new(
                            |d: DeviceId| pre.devices.contains_key(d),
                            |d: DeviceId|
                                if freed@.subrange(0, i as int).to_set().contains(d) {
                                    with_state(pre.devices[d], DeviceState::Open)
                                } else {
                                    pre.devices[d]
                                },
                        ),
                    decreases freed.len() - i,
                {
                    let d = freed[i];
                    proof {
                        assert(pre.pairs.paired(user_id, d));
                        assert(pre.devices.contains_key(d));
                        assert(!freed@.subrange(0, i as int).to_set().contains(d)) by {
                            if freed@.subrange(0, i as int).contains(d) {
                                let j = choose|j: int|
                                    0 <= j < i && freed@.subrange(0, i as int)[j] == d;
                                assert(freed@[j] == freed@[i as int]);
                            }
                        }
                    }
                    match self.devices.remove(&d) {
                        Some(mut dev) => {
                            proof {
                                assert(dev == pre.devices[d]);
                            }
                            dev.state = DeviceState::Open;
                            let rec = dev.clone();
                            self.devices.insert(d, dev);
                            records.push(rec);
                        },
                        None => {
                            proof {
                                assert(false);
                            }
                        },
                    }
                    i += 1;
                    proof {
                        let sub_new = freed@.subrange(0, i as int);
                        let sub_old = freed@.subrange(0, i as int - 1);
                        assert forall|y: DeviceId| sub_new.contains(y) implies sub_old.contains(y)
                            || y == d by {
                            let k = choose|k: int| 0 <= k < sub_new.len() && sub_new[k] == y;
                            if k < sub_old.len() {
                                assert(sub_old[k] == y);
                            } else {
                                assert(sub_new[k] == freed@[k]);
                            }
                        }
                        assert forall|y: DeviceId| sub_old.contains(y) || y == d implies sub_new
                            .contains(y) by {
                            if y == d {
                                assert(sub_new[i as int - 1] == d);
                            } else {
                                let k = choose|k: int| 0 <= k < sub_old.len() && sub_old[k] == y;
                                assert(sub_new[k] == y);
                            }
                        }
                        assert(sub_new.to_set() =~= sub_old.to_set().insert(d));
                        assert(self.devices@ =~= Map::new(
                            |dd: DeviceId| pre.devices.contains_key(dd),
                            |dd: DeviceId|
                                if sub_new.to_set().contains(dd) {
                                    with_state(pre.devices[dd], DeviceState::Open)
                                } else {
                                    pre.devices[dd]
                                },
                        ));
                    }
                }
                proof {
                    assert(freed@.subrange(0, freed@.len() as int) =~= freed@);
                    let target = pre.unregister_user_next(user_id);
                    assert(self@.devices =~= target.devices);
                    assert(self@.users =~= target.users);
                    assert(self@.devices == target.devices && self@.users == target.users
                        && self@.pairs == target.pairs && self@.issued == target.issued);
                    assert(self@ == target);
                    pre.pairs.lemma_remove_user_preserves_wf(user_id);
                    let post = self@;
                    assert forall|d: DeviceId| #[trigger] post.devices.contains_key(d) implies
                        post.pairs.open_devices.contains(d) || post.pairs.device_to_user
                        .contains_key(d) by {
                        if pre.pairs.device_to_user.contains_key(d) && pre.pairs.device_to_user[d]
                            != user_id {
                            assert(pre.pairs.user_to_devices[pre.pairs.device_to_user[d]].contains(
                                d,
                            ));
                            if freed_set.contains(d) {
                                assert(pre.pairs.paired(user_id, d));
                            }
                        }
                    }
                    assert forall|d: DeviceId| #[trigger] post.devices.contains_key(d) implies (
                    (post.devices[d].state == DeviceState::Connected)
                        <==> post.pairs.device_to_user.contains_key(d)) by {
                        if freed_set.contains(d) {
                            assert(pre.pairs.paired(user_id, d));
                        } else {
                            assert(post.devices[d] == pre.devices[d]);
                            if pre.pairs.device_to_user.contains_key(d) {
                                let pu = pre.pairs.device_to_user[d];
                                assert(pre.pairs.user_to_devices[pu].contains(d));
                                if pu == user_id {
                                    assert(freed_set.contains(d));
                                }
                            }
                        }
                    }
                    assert forall|u: UserId| #[trigger] post.pairs.user_to_devices.contains_key(
                        u,
                    ) implies post.users.contains(u) by {}
                    assert forall|dd: DeviceId| #[trigger] freed_set.contains(dd) implies exists|
                        k: int,
                    |
                        0 <= k < records@.len() && #[trigger] records@[k].id == dd by {
                        assert(freed@.to_set().contains(dd));
                        let j = choose|j: int| 0 <= j < freed@.len() && freed@[j] == dd;
                        assert(pre.pairs.paired(user_id, freed@[j]));
                        assert(records@[j].id == dd);
                    }
                    assert(records_for(records@, freed_set, post.devices));
                }
                let mut effects: Vec<Effect> = Vec::new();
                effects.push(Effect::ToAllUsers {
                    cmd: UserCommand::UpdateDevices { devices: records },
                });
                effects
            },
            None => {
                proof {
                    assert(!pre.pairs.user_to_devices.contains_key(user_id));
                    let target = pre.unregister_user_next(user_id);
                    assert(self@.devices =~= target.devices);
                    assert(self@.users =~= target.users);
                    assert(self@.pairs =~= target.pairs);
                    assert(self@.devices == target.devices && self@.users == target.users
                        && self@.pairs == target.pairs && self@.issued == target.issued);
                    assert(self@ == target);
                    assert forall|u: UserId| #[trigger] self@.pairs.user_to_devices.contains_key(
                        u,
                    ) implies self@.users.contains(u) by {}
                }
                Vec::new()
            },
        }
    }

    /// Unregisters a device; its paired user, if any, is told it lost the
    /// device, otherwise its removal from the open list is broadcast.
    /// Removing an unknown id changes no state.
    pub fn unregister_device(&mut self, device_id: DeviceId) -> (effects: Vec<Effect>)
        requires
            old(self).inv(),
        ensures
            final(self).inv(),
            unregister_device_outcome(old(self)@, final(self)@, device_id, effects@),
    {
        let ghost pre = self@;
        self.devices.remove(&device_id);
        let effects: Vec<Effect> = match self.connections.remove_device(device_id) {
            Some(user_id) => vec![
                Effect::ToUser {
                    user_id,
                    cmd: UserCommand::RemoveConnectedDevice { device_id },
                },
            ],
            None => vec![Effect::ToAllUsers { cmd: UserCommand::RemoveDevice { device_id } }],
        };
        proof {
            assert(self@ =~= pre.unregister_device_next(device_id));
            pre.pairs.lemma_remove_device_preserves_wf(device_id);
            let post = self@;
            assert forall|d: DeviceId| #[trigger] post.devices.contains_key(d) implies post.pairs
                .open_devices.contains(d) || post.pairs.device_to_user.contains_key(d) by {
                if pre.pairs.device_to_user.contains_key(device_id) {
                    assert(pre.pairs.paired(pre.pairs.device_to_user[device_id], device_id));
                }
            }
            assert forall|d: DeviceId| #[trigger] post.devices.contains_key(d) implies (
            (post.devices[d].state == DeviceState::Connected)
                <==> post.pairs.device_to_user.contains_key(d)) by {
                assert(pre.devices.contains_key(d));
            }
        }
        effects
    }

    /// Pairs an existing device to a registered user. On success the device
    /// record turns `Connected`, the device is withdrawn from everyone's
    /// open list and its record goes to the new holder; a connect refused
    /// as `AlreadyPaired` changes nothing and the requesting user is sent
    /// the error. A command naming an unknown user or device is dropped,
    /// since the entity's own unregistration already cleaned up.
    pub fn connect(&mut self, user_id: UserId, device_id: DeviceId) -> (effects: Vec<Effect>)
        requires
            old(self).inv(),
        ensures
            final(self).inv(),
            connect_outcome(old(self)@, final(self)@, user_id, device_id, effects@),
    {
        let ghost pre = self@;
        if !contains_user(&self.users, user_id) {
            return Vec::new();
        }
        if self.devices.get(&device_id).is_none() {
            return Vec::new();
        }
        match self.connections.connect(user_id, device_id) {
            Ok(()) => {
                let dev = match self.devices.remove(&device_id) {
                    Some(mut dev) => {
                        dev.state = DeviceState::Connected;
                        dev
                    },
                    None => {
                        proof {
                            assert(false);
                        }
                        Device::new(device_id, String::new())
                    },
                };
                let rec = dev.clone();
                self.devices.insert(device_id, dev);
                proof {
                    assert(self@ =~= pre.connect_next(user_id, device_id));
                    pre.pairs.lemma_connect_preserves_wf(user_id, device_id);
                    let post = self@;
                    assert forall|d: DeviceId| #[trigger] post.devices.contains_key(d) implies (
                    (post.devices[d].state == DeviceState::Connected)
                        <==> post.pairs.device_to_user.contains_key(d)) by {}
                }
                vec![
                    Effect::ToAllUsers { cmd: UserCommand::RemoveDevice { device_id } },
                    Effect::ToUser {
                        user_id,
                        cmd: UserCommand::UpdateConnectedDevice { device: rec },
                    },
                ]
            },
            Err(error) => {
                proof {
                    assert(self@ =~= pre);
                }
                vec![Effect::ToUser { user_id, cmd: UserCommand::Error { error } }]
            },
        }
    }

    /// Unpairs a device from the requesting user. The user is told the
    /// device is gone before validation; on success the device record
    /// turns `Open` again and its availability is broadcast; on failure
    /// the user is sent the `NotPaired` error and nothing changes. A
    /// command naming an unknown user is dropped.
    pub fn disconnect(&mut self, user_id: UserId, device_id: DeviceId) -> (effects: Vec<Effect>)
        requires
            old(self).inv(),
        ensures
            final(self).inv(),
            disconnect_outcome(old(self)@, final(self)@, user_id, device_id, effects@),
    {
        let ghost pre = self@;
        if !contains_user(&self.users, user_id) {
            return Vec::new();
        }
        let mut effects: Vec<Effect> = Vec::new();
        effects.push(Effect::ToUser {
            user_id,
            cmd: UserCommand::RemoveConnectedDevice { device_id },
        });
        if self.devices.get(&device_id).is_none() {
            effects.push(Effect::ToUser {
                user_id,
                cmd: UserCommand::Error { error: PairError::NotPaired },
            });
            return effects;
        }
        match self.connections.disconnect(user_id, device_id) {
            Ok(()) => {
                let dev = match self.devices.remove(&device_id) {
                    Some(mut dev) => {
                        dev.state = DeviceState::Open;
                        dev
                    },
                    None => {
                        proof {
                            assert(false);
                        }
                        Device::new(device_id, String::new())
                    },
                };
                let rec = dev.clone();
                self.devices.insert(device_id, dev);
                proof {
                    assert(self@ =~= pre.disconnect_next(user_id, device_id));
                    pre.pairs.lemma_disconnect_preserves_wf(user_id, device_id);
                    let post = self@;
                    assert forall|d: DeviceId| #[trigger] post.devices.contains_key(d) implies (
                    (post.devices[d].state == DeviceState::Connected)
                        <==> post.pairs.device_to_user.contains_key(d)) by {
                        if d != device_id {
                            assert(pre.devices.contains_key(d));
                        }
                    }
                }
                let mut listed: Vec<Device> = Vec::new();
                listed.push(rec);
                effects.push(Effect::ToAllUsers {
                    cmd: UserCommand::UpdateDevices { devices: listed },
                });
                effects
            },
            Err(error) => {
                proof {
                    if !pre.pairs.device_to_user.contains_key(device_id) {
                        pre.pairs.lemma_disconnect_open_noop(user_id, device_id);
                    }
                    assert(self@ =~= pre);
                }
                effects.push(Effect::ToUser { user_id, cmd: UserCommand::Error { error } });
                effects
            },
        }
    }

    /// Routes a signaling payload from a user to a device it holds; a
    /// payload for a device the user does not hold is dropped without an
    /// error.
    pub fn user_signaling(
        &self,
        user_id: UserId,
        device_id: DeviceId,
        signal: serde_json::Value,
    ) -> (effects: Vec<Effect>)
        ensures
            user_signaling_outcome(self@, user_id, device_id, signal, effects@),
    {
        if self.connections.is_user_device(user_id, device_id) {
            vec![Effect::ToDevice { device_id, cmd: DeviceCommand::UserSignaling { signal } }]
        } else {
            Vec::new()
        }
    }

    /// Routes a signaling payload from a device to its paired user; a
    /// payload from an unpaired device is dropped without an error.
    pub fn device_signaling(&self, device_id: DeviceId, signal: serde_json::Value) -> (effects:
        Vec<Effect>)
        ensures
            device_signaling_outcome(self@, device_id, signal, effects@),
    {
        match self.connections.get_device_user(device_id) {
            Some(user_id) => vec![
                Effect::ToUser {
                    user_id,
                    cmd: UserCommand::DeviceSignaling { device_id, signal },
                },
            ],
            None => Vec::new(),
        }
    }

    /// Whether an id was ever issued. Registered ids are issued too, so a
    /// never-issued id is known to neither registry.
    fn id_issued(&self, id: u128) -> (r: bool)
        ensures
            r == self@.issued.contains(id),
    {
        crate::pairing::contains_id(&self.issued, id)
    }

    /// Registers a user under a freshly drawn random id, never issued
    /// before. In the vanishingly unlikely case that the drawn id collides
    /// with one already issued, nothing changes and no id is returned — so
    /// a refusal can only happen once some id has been issued — and the
    /// transport adapter treats the unanswered rendezvous as a recoverable
    /// failure.
    pub fn register_user(&mut self) -> (r: (Option<UserId>, Vec<Effect>))
        requires
            old(self).inv(),
        ensures
            final(self).inv(),
            (r.0 matches Some(id) ==> !old(self)@.issued.contains(id) && register_user_outcome(
                old(self)@,
                final(self)@,
                id,
                r.1@,
            )),
            r.0 is None ==> final(self)@ == old(self)@ && r.1@ == Seq::<Effect>::empty() && (exists|
                taken: u128,
            | old(self)@.issued.contains(taken)),
    {
        let id = fresh_id();
        if self.id_issued(id) {
            let empty: Vec<Effect> = Vec::new();
            proof {
                assert(empty@ =~= Seq::<Effect>::empty());
                assert(self@.issued.contains(id));
            }
            (None, empty)
        } else {
            let effects = self.register_user_with_id(id);
            (Some(id), effects)
        }
    }

    /// Registers a device under a freshly drawn random id, never issued
    /// before; see `register_user` for the collision case.
    pub fn register_device(&mut self, name: String) -> (r: (Option<DeviceId>, Vec<Effect>))
        requires
            old(self).inv(),
        ensures
            final(self).inv(),
            (r.0 matches Some(id) ==> !old(self)@.issued.contains(id) && register_device_outcome(
                old(self)@,
                final(self)@,
                id,
                name,
                r.1@,
            )),
            r.0 is None ==> final(self)@ == old(self)@ && r.1@ == Seq::<Effect>::empty() && (exists|
                taken: u128,
            | old(self)@.issued.contains(taken)),
    {
        let id = fresh_id();
        if self.id_issued(id) {
            let empty: Vec<Effect> = Vec::new();
            proof {
                assert(empty@ =~= Seq::<Effect>::empty());
                assert(self@.issued.contains(id));
            }
            (None, empty)
        } else {
            let effects = self.register_device_with_id(id, name);
            (Some(id), effects)
        }
    }

    /// Applies one command. This is the single serialized decision point of
    /// the relay: state changes take effect atomically per command, and the
    /// returned notifications are delivered before the next command is
    /// taken, so no observer sees a notification ahead of the state change
    /// that produced it.
    pub fn apply(&mut self, cmd: ServerCommand) -> (effects: Vec<Effect>)
        requires
            old(self).inv(),
        ensures
            final(self).inv(),
            match cmd {
                ServerCommand::RegisterUser => (final(self)@ == old(self)@ && effects@
                    == Seq::<Effect>::empty() && (exists|taken: u128|
                    old(self)@.issued.contains(taken))) || (exists|id: u128|
                    !old(self)@.issued.contains(id) && #[trigger] register_user_outcome(
                        old(self)@,
                        final(self)@,
                        id,
                        effects@,
                    )),
                ServerCommand::RegisterDevice { name } => (final(self)@ == old(self)@ && effects@
                    == Seq::<Effect>::empty() && (exists|taken: u128|
                    old(self)@.issued.contains(taken))) || (exists|id: u128|
                    !old(self)@.issued.contains(id) && #[trigger] register_device_outcome(
                        old(self)@,
                        final(self)@,
                        id,
                        name,
                        effects@,
                    )),
                ServerCommand::UnregisterUser { user_id } => unregister_user_outcome(
                    old(self)@,
                    final(self)@,
                    user_id,
                    effects@,
                ),
                ServerCommand::UnregisterDevice { device_id } => unregister_device_outcome(
                    old(self)@,
                    final(self)@,
                    device_id,
                    effects@,
                ),
                ServerCommand::Connect { user_id, device_id } => connect_outcome(
                    old(self)@,
                    final(self)@,
                    user_id,
                    device_id,
                    effects@,
                ),
                ServerCommand::Disconnect { user_id, device_id } => disconnect_outcome(
                    old(self)@,
                    final(self)@,
                    user_id,
                    device_id,
                    effects@,
                ),
                ServerCommand::UserSignaling { user_id, device_id, signal } => final(self)@
                    == old(self)@ && user_signaling_outcome(
                    old(self)@,
                    user_id,
                    device_id,
                    signal,
                    effects@,
                ),
                ServerCommand::DeviceSignaling { device_id, signal } => final(self)@ == old(
                    self,
                )@ && device_signaling_outcome(old(self)@, device_id, signal, effects@),
            },
    {
        match cmd {
            ServerCommand::RegisterUser => {
                let r = self.register_user();
                r.1
            },
            ServerCommand::RegisterDevice { name } => {
                let r = self.register_device(name);
                r.1
            },
            ServerCommand::UnregisterUser { user_id } => self.unregister_user(user_id),
            ServerCommand::UnregisterDevice { device_id } => self.unregister_device(device_id),
            ServerCommand::Connect { user_id, device_id } => self.connect(user_id, device_id),
            ServerCommand::Disconnect { user_id, device_id } => self.disconnect(
                user_id,
                device_id,
            ),
            ServerCommand::UserSignaling { user_id, device_id, signal } => self.user_signaling(
                user_id,
                device_id,
                signal,
            ),
            ServerCommand::DeviceSignaling { device_id, signal } => self.device_signaling(
                device_id,
                signal,
            ),
        }
    }
}

/// Round trip at the server level: connecting an open device and then
/// disconnecting it returns the pairing state and the device record, its
/// `Open` state included, exactly to what they were before the connect.
pub proof fn lemma_server_connect_disconnect_round_trip(
    s: ServerView,
    user_id: UserId,
    device_id: DeviceId,
)
    requires
        s.wf(),
        s.pairs.open_devices.contains(device_id),
    ensures
        s.pairs.connect_allowed(user_id, device_id),
        s.connect_next(user_id, device_id).pairs.disconnect_allowed(user_id, device_id),
        s.connect_next(user_id, device_id).disconnect_next(user_id, device_id) == s,
{
    let s1 = s.connect_next(user_id, device_id);
    let s2 = s1.disconnect_next(user_id, device_id);
    s.pairs.lemma_connect_disconnect_round_trip(user_id, device_id);
    assert(s.devices.contains_key(device_id));
    assert(s.devices[device_id].state == DeviceState::Open);
    assert(s1.devices[device_id] == with_state(s.devices[device_id], DeviceState::Connected));
    assert(with_state(s1.devices[device_id], DeviceState::Open) == s.devices[device_id]);
    assert(s2.devices =~= s.devices);
    assert(s2.users =~= s.users);
    assert(s2.devices == s.devices && s2.users == s.users && s2.pairs == s.pairs && s2.issued
        == s.issued);
    assert(s2 == s);
}

/// Idempotence at the server level: unregistering an id that is not
/// registered, whether as a user or as a device, changes nothing.
pub proof fn lemma_server_unregister_unknown_noop(s: ServerView, id: u128)
    requires
        s.wf(),
        !s.has_id(id),
    ensures
        s.unregister_user_next(id) == s,
        s.unregister_device_next(id) == s,
{
    assert(!s.pairs.user_to_devices.contains_key(id));
    assert(!s.pairs.device_to_user.contains_key(id));
    assert(!s.pairs.open_devices.contains(id));
    s.pairs.lemma_remove_unknown_noop(id, id);
    let su = s.unregister_user_next(id);
    assert(su.users =~= s.users);
    assert(su.devices =~= s.devices);
    assert(su.users == s.users && su.devices == s.devices && su.pairs == s.pairs && su.issued
        == s.issued);
    assert(su == s);
    let sd = s.unregister_device_next(id);
    assert(sd.devices =~= s.devices);
    assert(sd.devices == s.devices && sd.users == s.users && sd.pairs == s.pairs && sd.issued
        == s.issued);
    assert(sd == s);
}

/// Whether `user_id` is in the user list.
fn contains_user(v: &Vec<UserId>, user_id: UserId) -> (r: bool)
    ensures
        r == v@.to_set().contains(user_id),
{
    crate::pairing::contains_id(v, user_id)
}

/// Appends a fresh user id, keeping the vector duplicate-free.
fn push_user(v: &mut Vec<UserId>, user_id: UserId)
    requires
        old(v)@.no_duplicates(),
        !old(v)@.to_set().contains(user_id),
    ensures
        final(v)@.no_duplicates(),
        final(v)@.to_set() == old(v)@.to_set().insert(user_id),
{
    proof {
        assert(!old(v)@.contains(user_id));
    }
    crate::pairing::push_id(v, user_id);
}

} // verus!
