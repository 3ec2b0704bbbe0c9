//! Server replication loop: per-tick connection lifecycle handling, input
//! and command ingestion, and full-world snapshot construction.
//!
//! The harness drains transport events and channel messages each tick and
//! hands them to this module in order: lifecycle events first, then the
//! queued commands and inputs of every connected client; it then sends
//! whatever this module says must go out, and broadcasts the snapshot
//! built here, every tick, whether or not anything moved.

use vstd::prelude::*;

use crate::registry::{IdMap, lemma_as_map_update};
use crate::wire::{
    spec_quat_identity, NetworkedEntities, PlayerCommand, PlayerInput, QuatBits, ServerMessages,
    Transform, Vec3Bits,
};

verus! {

/// One player's authoritative state.
#[derive(Clone, Copy, Debug)]
pub struct ServerPlayer {
    /// The network client this entity belongs to.
    pub client_id: u64,
    /// The input directives last received from that client.
    pub input: PlayerInput,
    /// Body transform, written each tick by the physics engine.
    pub transform: Transform,
    /// The four wheel sub-entity transforms, by index.
    pub wheels: [Transform; 4],
}

/// `p` with its stored input replaced.
pub open spec fn with_input(p: ServerPlayer, input: PlayerInput) -> ServerPlayer {
    ServerPlayer { client_id: p.client_id, input, transform: p.transform, wheels: p.wheels }
}

/// `p` with its transforms replaced.
pub open spec fn with_transforms(
    p: ServerPlayer,
    transform: Transform,
    wheels: [Transform; 4],
) -> ServerPlayer {
    ServerPlayer { client_id: p.client_id, input: p.input, transform, wheels }
}

/// What a freshly spawned player looks like: default (all released)
/// input, body at the spawn position with the identity orientation, and
/// the four wheels starting at the body transform.
pub open spec fn spawned_player_matches(
    p: ServerPlayer,
    client_id: u64,
    translation: Vec3Bits,
) -> bool {
    let t = Transform { translation, rotation: spec_quat_identity() };
    &&& p.client_id == client_id
    &&& p.input == (PlayerInput { up: false, down: false, left: false, right: false })
    &&& p.transform == t
    &&& p.wheels@ == seq![t, t, t, t]
}

/// Where an outbound lifecycle message goes.
#[derive(Clone, Copy, Debug, PartialEq, Eq, Structural)]
pub enum Destination {
    /// To one client only.
    Client { id: u64 },
    /// To every connected client.
    AllClients,
}

/// One lifecycle message the harness must send this tick, in order.
#[derive(Clone, Copy, Debug, PartialEq, Eq, Structural)]
pub struct OutboundMessage {
    pub to: Destination,
    pub message: ServerMessages,
}

/// An attack a player commanded; its effect is carried out by the
/// harness.
#[derive(Clone, Copy, Debug, PartialEq, Eq, Structural)]
pub struct AttackEvent {
    pub client_id: u64,
    pub cast_at: Vec3Bits,
}

/// Control magnitudes handed to the physics engine: full throttle or
/// none, full brake or none, and steering full left (-1), centred (0) or
/// full right (1).
#[derive(Clone, Copy, Debug, PartialEq, Eq, Structural)]
pub struct CarControls {
    pub gas_on: bool,
    pub brake_on: bool,
    pub steering: i8,
}

/// Maps stored directives to control magnitudes, exactly as the
/// simulation applies them: up drives, down brakes, right steers right
/// and wins over left, neither steers centred.
pub fn controls_from_input(input: &PlayerInput) -> (r: CarControls)
    ensures
        r.gas_on == input.up,
        r.brake_on == input.down,
        r.steering == (if input.right {
            1i8
        } else if input.left {
            -1i8
        } else {
            0i8
        }),
{
    let mut c = CarControls { gas_on: false, brake_on: false, steering: 0 };
    if input.up {
        c.gas_on = true;
    } else {
        c.gas_on = false;
    }
    if input.down {
        c.brake_on = true;
    } else {
        c.brake_on = false;
    }
    if input.left {
        c.steering = -1;
    }
    if input.right {
        c.steering = 1;
    }
    if !input.left && !input.right {
        c.steering = 0;
    }
    c
}

/// Drains one client's queued commands: each is processed exactly once,
/// in arrival order.
pub fn drain_commands(client_id: u64, commands: &Vec<PlayerCommand>) -> (r: Vec<AttackEvent>)
    ensures
        r@.len() == commands@.len(),
        forall|i: int|
            0 <= i < commands@.len() ==> r@[i] == (match commands@[i] {
                PlayerCommand::BasicAttack { cast_at } => AttackEvent { client_id, cast_at },
            }),
{
    let mut r: Vec<AttackEvent> = Vec::new();
    let n = commands.len();
    let mut i: usize = 0;
    while i < n
        invariant
            i <= n,
            n == commands@.len(),
            r@.len() == i,
            forall|j: int|
                0 <= j < i ==> r@[j] == (match commands@[j] {
                    PlayerCommand::BasicAttack { cast_at } => AttackEvent { client_id, cast_at },
                }),
        decreases n - i,
    {
        match commands[i] {
            PlayerCommand::BasicAttack { cast_at } => {
                r.push(AttackEvent { client_id, cast_at });
            },
        }
        i += 1;
    }
    r
}

/// The server-side lobby: network client identifier to the entity spawned
/// for that player.  Entries track the connect/disconnect lifecycle
/// exactly.
pub type ServerLobby = IdMap<u64>;

/// The server's replication state.
pub struct ServerContext {
    /// Lobby: network client identifier to that player's entity.
    pub lobby: ServerLobby,
    /// Authoritative player entities, in spawn order.
    pub world: IdMap<ServerPlayer>,
    /// Next entity identifier to hand out; identifiers are never reused.
    pub next_entity: u64,
}

impl ServerContext {
    /// Well-formedness: unique keys in both tables, lobby and world
    /// mutually consistent, and every entity below the allocation counter.
    pub open spec fn wf(&self) -> bool {
        &&& self.lobby.wf()
        &&& self.world.wf()
        &&& forall|id: u64|
            #[trigger] self.lobby.as_map().contains_key(id) ==> {
                &&& self.world.as_map().contains_key(self.lobby.as_map()[id])
                &&& self.world.as_map()[self.lobby.as_map()[id]].client_id == id
            }
        &&& forall|e: u64|
            #[trigger] self.world.as_map().contains_key(e) ==> {
                &&& e < self.next_entity
                &&& self.lobby.as_map().contains_key(self.world.as_map()[e].client_id)
                &&& self.lobby.as_map()[self.world.as_map()[e].client_id] == e
            }
    }

    /// A server with no connected players.
    pub fn new() -> (r: ServerContext)
        ensures
            r.wf(),
            r.lobby@.len() == 0,
            r.world@.len() == 0,
            r.next_entity == 0,
    {
        ServerContext { lobby: IdMap::new(), world: IdMap::new(), next_entity: 0 }
    }

    /// Handles a connect event.  First, one `PlayerCreate` per existing
    /// player goes to the newcomer alone, in spawn order — the backlog it
    /// needs before its own creation notice.  Then a fresh entity is
    /// spawned at the given position with default input, recorded in the
    /// lobby, and announced to every client, the newcomer included.
    pub fn handle_connect(&mut self, client_id: u64, spawn_translation: Vec3Bits) -> (out: Vec<
        OutboundMessage,
    >)
        requires
            old(self).wf(),
            !old(self).lobby.as_map().contains_key(client_id),
            old(self).next_entity < u64::MAX,
        ensures
            final(self).wf(),
            final(self).next_entity == old(self).next_entity + 1,
            final(self).lobby@ == old(self).lobby@.push((client_id, old(self).next_entity)),
            final(self).world@.len() == old(self).world@.len() + 1,
            forall|i: int|
                0 <= i < old(self).world@.len() ==> final(self).world@[i] == old(self).world@[i],
            final(self).world@.last().0 == old(self).next_entity,
            spawned_player_matches(final(self).world@.last().1, client_id, spawn_translation),
            out@.len() == old(self).world@.len() + 1,
            forall|i: int|
                0 <= i < old(self).world@.len() ==> out@[i] == (OutboundMessage {
                    to: Destination::Client { id: client_id },
                    message: ServerMessages::PlayerCreate {
                        entity: old(self).world@[i].0,
                        id: old(self).world@[i].1.client_id,
                        translation: old(self).world@[i].1.transform.translation,
                    },
                }),
            out@.last() == (OutboundMessage {
                to: Destination::AllClients,
                message: ServerMessages::PlayerCreate {
                    entity: old(self).next_entity,
                    id: client_id,
                    translation: spawn_translation,
                },
            }),
    {
        let mut out: Vec<OutboundMessage> = Vec::new();
        let n = self.world.len();
        let mut i: usize = 0;
        while i < n
            invariant
                i <= n,
                n == self.world@.len(),
                out@.len() == i,
                forall|j: int|
                    0 <= j < i ==> out@[j] == (OutboundMessage {
                        to: Destination::Client { id: client_id },
                        message: ServerMessages::PlayerCreate {
                            entity: self.world@[j].0,
                            id: self.world@[j].1.client_id,
                            translation: self.world@[j].1.transform.translation,
                        },
                    }),
            decreases n - i,
        {
            let entity = self.world.key_at(i);
            let p = self.world.value_at(i);
            out.push(OutboundMessage {
                to: Destination::Client { id: client_id },
                message: ServerMessages::PlayerCreate {
                    entity,
                    id: p.client_id,
                    translation: p.transform.translation,
                },
            });
            i += 1;
        }
        let entity = self.next_entity;
        let t = Transform { translation: spawn_translation, rotation: QuatBits::identity() };
        let player = ServerPlayer {
            client_id,
            input: PlayerInput::default(),
            transform: t,
            wheels: [t, t, t, t],
        };
        proof {
            assert(!self.world.as_map().contains_key(entity));
            assert(player.wheels@ =~= seq![t, t, t, t]);
        }
        self.world.insert(entity, player);
        self.lobby.insert(client_id, entity);
        self.next_entity = entity + 1;
        out.push(OutboundMessage {
            to: Destination::AllClients,
            message: ServerMessages::PlayerCreate {
                entity,
                id: client_id,
                translation: spawn_translation,
            },
        });
        proof {
            assert forall|id: u64| #[trigger] self.lobby.as_map().contains_key(id) implies {
                &&& self.world.as_map().contains_key(self.lobby.as_map()[id])
                &&& self.world.as_map()[self.lobby.as_map()[id]].client_id == id
            } by {
                if id != client_id {
                    assert(old(self).lobby.as_map().contains_key(id));
                    assert(old(self).lobby.as_map()[id] < old(self).next_entity);
                }
            }
            assert forall|e: u64| #[trigger] self.world.as_map().contains_key(e) implies {
                &&& e < self.next_entity
                &&& self.lobby.as_map().contains_key(self.world.as_map()[e].client_id)
                &&& self.lobby.as_map()[self.world.as_map()[e].client_id] == e
            } by {
                if e != entity {
                    assert(old(self).world.as_map().contains_key(e));
                    assert(old(self).world.as_map()[e].client_id != client_id);
                }
            }
        }
        out
    }

    /// Handles a disconnect event: despawns the player's entity and erases
    /// the lobby entry — both no-ops when the client is unknown — and
    /// always announces the departure to every client.
    pub fn handle_disconnect(&mut self, client_id: u64) -> (out: Vec<OutboundMessage>)
        requires
            old(self).wf(),
        ensures
            final(self).wf(),
            final(self).next_entity == old(self).next_entity,
            final(self).lobby.as_map() == old(self).lobby.as_map().remove(client_id),
            final(self).world.as_map() == (if old(self).lobby.as_map().contains_key(client_id) {
                old(self).world.as_map().remove(old(self).lobby.as_map()[client_id])
            } else {
                old(self).world.as_map()
            }),
            out@ == seq![
                (OutboundMessage {
                    to: Destination::AllClients,
                    message: ServerMessages::PlayerRemove { id: client_id },
                }),
            ],
    {
        let removed = self.lobby.remove(client_id);
        match removed {
            Some(entity) => {
                let _ = self.world.remove(entity);
            },
            None => {},
        }
        let mut out: Vec<OutboundMessage> = Vec::new();
        out.push(OutboundMessage {
            to: Destination::AllClients,
            message: ServerMessages::PlayerRemove { id: client_id },
        });
        proof {
            assert(out@ =~= seq![
                (OutboundMessage {
                    to: Destination::AllClients,
                    message: ServerMessages::PlayerRemove { id: client_id },
                }),
            ]);
            assert forall|id: u64| #[trigger] self.lobby.as_map().contains_key(id) implies {
                &&& self.world.as_map().contains_key(self.lobby.as_map()[id])
                &&& self.world.as_map()[self.lobby.as_map()[id]].client_id == id
            } by {
                assert(old(self).lobby.as_map().contains_key(id));
                if old(self).lobby.as_map().contains_key(client_id) {
                    let e = old(self).lobby.as_map()[client_id];
                    assert(old(self).lobby.as_map()[id] != e);
                }
            }
            assert forall|e: u64| #[trigger] self.world.as_map().contains_key(e) implies {
                &&& e < self.next_entity
                &&& self.lobby.as_map().contains_key(self.world.as_map()[e].client_id)
                &&& self.lobby.as_map()[self.world.as_map()[e].client_id] == e
            } by {
                assert(old(self).world.as_map().contains_key(e));
                assert(old(self).world.as_map()[e].client_id != client_id);
            }
        }
        out
    }

    /// Drains one client's queued input messages for the tick, overwriting
    /// the player's stored input with each in turn, so that only the last
    /// one received affects the resulting control state; earlier ones are
    /// superseded and discarded.  Inputs from a client without a lobby
    /// entry are dropped.
    pub fn ingest_inputs(&mut self, client_id: u64, inputs: &Vec<PlayerInput>)
        requires
            old(self).wf(),
        ensures
            final(self).wf(),
            final(self).next_entity == old(self).next_entity,
            final(self).lobby@ == old(self).lobby@,
            final(self).world.as_map() == (if old(self).lobby.as_map().contains_key(client_id)
                && inputs@.len() > 0 {
                old(self).world.as_map().insert(
                    old(self).lobby.as_map()[client_id],
                    with_input(
                        old(self).world.as_map()[old(self).lobby.as_map()[client_id]],
                        inputs@.last(),
                    ),
                )
            } else {
                old(self).world.as_map()
            }),
    {
        let entity = match self.lobby.get(client_id) {
            Some(e) => *e,
            None => {
                return ;
            },
        };
        if inputs.len() == 0 {
            proof {
                assert(final(self).world.as_map() =~= old(self).world.as_map());
            }
            return ;
        }
        let k = match self.world.index_of(entity) {
            Some(k) => k,
            None => {
                proof {
                    assert(false);
                }
                return ;
            },
        };
        let ghost w0 = self.world@;
        let ghost p0 = self.world.as_map()[entity];
        let n = inputs.len();
        let mut j: usize = 0;
        while j < n
            invariant
                j <= n,
                n == inputs@.len(),
                n > 0,
                k < w0.len(),
                w0[k as int].0 == entity,
                w0[k as int].1 == p0,
                crate::registry::distinct_keys(w0),
                self.lobby@ == old(self).lobby@,
                self.next_entity == old(self).next_entity,
                self.world@ == (if j == 0 {
                    w0
                } else {
                    w0.update(k as int, (entity, with_input(p0, inputs@[j - 1])))
                }),
            decreases n - j,
        {
            let input = inputs[j];
            let p = self.world.get_mut_at(k);
            p.input = input;
            proof {
                assert(self.world@ =~= w0.update(
                    k as int,
                    (entity, with_input(p0, inputs@[j as int])),
                ));
            }
            j += 1;
        }
        proof {
            lemma_as_map_update(w0, k as int, with_input(p0, inputs@.last()));
            assert(crate::registry::distinct_keys(self.world@)) by {
                assert(forall|x: int| 0 <= x < self.world@.len() ==> self.world@[x].0 == w0[x].0);
            }
            assert forall|id: u64| #[trigger] self.lobby.as_map().contains_key(id) implies {
                &&& self.world.as_map().contains_key(self.lobby.as_map()[id])
                &&& self.world.as_map()[self.lobby.as_map()[id]].client_id == id
            } by {
                assert(old(self).lobby.as_map().contains_key(id));
            }
            assert forall|e: u64| #[trigger] self.world.as_map().contains_key(e) implies {
                &&& e < self.next_entity
                &&& self.lobby.as_map().contains_key(self.world.as_map()[e].client_id)
                &&& self.lobby.as_map()[self.world.as_map()[e].client_id] == e
            } by {
                assert(old(self).world.as_map().contains_key(e));
            }
        }
    }

    /// Writes the transforms the physics engine computed this tick back
    /// onto a player entity; an unknown entity is ignored, and the result
    /// says whether the entity was found.
    pub fn set_player_transforms(
        &mut self,
        entity: u64,
        transform: Transform,
        wheels: [Transform; 4],
    ) -> (r: bool)
        requires
            old(self).wf(),
        ensures
            final(self).wf(),
            final(self).next_entity == old(self).next_entity,
            final(self).lobby@ == old(self).lobby@,
            r == old(self).world.as_map().contains_key(entity),
            final(self).world.as_map() == (if old(self).world.as_map().contains_key(entity) {
                old(self).world.as_map().insert(
                    entity,
                    with_transforms(old(self).world.as_map()[entity], transform, wheels),
                )
            } else {
                old(self).world.as_map()
            }),
    {
        let ghost w0 = self.world@;
        match self.world.index_of(entity) {
            None => false,
            Some(k) => {
                let p = self.world.get_mut_at(k);
                p.transform = transform;
                p.wheels = wheels;
                proof {
                    assert(self.world@ =~= w0.update(
                        k as int,
                        (entity, with_transforms(old(self).world.as_map()[entity], transform,
                        wheels)),
                    ));
                    lemma_as_map_update(
                        w0,
                        k as int,
                        with_transforms(old(self).world.as_map()[entity], transform, wheels),
                    );
                    assert(crate::registry::distinct_keys(self.world@)) by {
                        assert(forall|x: int|
                            0 <= x < self.world@.len() ==> self.world@[x].0 == w0[x].0);
                    }
                    assert forall|id: u64| #[trigger] self.lobby.as_map().contains_key(
                        id,
                    ) implies {
                        &&& self.world.as_map().contains_key(self.lobby.as_map()[id])
                        &&& self.world.as_map()[self.lobby.as_map()[id]].client_id == id
                    } by {
                        assert(old(self).lobby.as_map().contains_key(id));
                    }
                    assert forall|e: u64| #[trigger] self.world.as_map().contains_key(e) implies {
                        &&& e < self.next_entity
                        &&& self.lobby.as_map().contains_key(self.world.as_map()[e].client_id)
                        &&& self.lobby.as_map()[self.world.as_map()[e].client_id] == e
                    } by {
                        assert(old(self).world.as_map().contains_key(e));
                    }
                }
                true
            },
        }
    }

    /// Builds the full-state snapshot for this tick: one row per player
    /// entity, in spawn order, each row carrying the entity, its
    /// transform, and its four wheel transforms by index.  Row order is
    /// stable within one call.
    pub fn build_snapshot(&self) -> (r: NetworkedEntities)
        requires
            self.wf(),
        ensures
            r.wf(),
            r@.len() == self.world@.len(),
            forall|i: int|
                0 <= i < self.world@.len() ==> {
                    &&& r@[i].entity == self.world@[i].0
                    &&& r@[i].translation == self.world@[i].1.transform.translation
                    &&& r@[i].rotation == self.world@[i].1.transform.rotation
                    &&& r@[i].wheels_translation == Seq::new(
                        4,
                        |j: int| self.world@[i].1.wheels@[j].translation,
                    )
                    &&& r@[i].wheels_rotation == Seq::new(
                        4,
                        |j: int| self.world@[i].1.wheels@[j].rotation,
                    )
                },
    {
        let mut r = NetworkedEntities::new();
        let n = self.world.len();
        let mut i: usize = 0;
        while i < n
            invariant
                i <= n,
                n == self.world@.len(),
                self.wf(),
                r.aligned(),
                r.entities@.len() == i,
                forall|j: int| 0 <= j < i ==> r.entities@[j] == self.world@[j].0,
                forall|j: int|
                    0 <= j < i ==> {
                        &&& r.translations@[j] == self.world@[j].1.transform.translation
                        &&& r.rotations@[j] == self.world@[j].1.transform.rotation
                        &&& r.wheels_translations@[j]@ == Seq::new(
                            4,
                            |l: int| self.world@[j].1.wheels@[l].translation,
                        )
                        &&& r.wheels_rotations@[j]@ == Seq::new(
                            4,
                            |l: int| self.world@[j].1.wheels@[l].rotation,
                        )
                    },
            decreases n - i,
        {
            let entity = self.world.key_at(i);
            let p = self.world.value_at(i);
            r.entities.push(entity);
            r.translations.push(p.transform.translation);
            r.rotations.push(p.transform.rotation);
            let wt: [Vec3Bits; 4] = [
                p.wheels[0].translation,
                p.wheels[1].translation,
                p.wheels[2].translation,
                p.wheels[3].translation,
            ];
            let wr: [QuatBits; 4] = [
                p.wheels[0].rotation,
                p.wheels[1].rotation,
                p.wheels[2].rotation,
                p.wheels[3].rotation,
            ];
            r.wheels_translations.push(wt);
            r.wheels_rotations.push(wr);
            proof {
                assert(wt@ =~= Seq::new(4, |l: int| self.world@[i as int].1.wheels@[l].translation));
                assert(wr@ =~= Seq::new(4, |l: int| self.world@[i as int].1.wheels@[l].rotation));
            }
            i += 1;
        }
        proof {
            assert forall|x: int, y: int|
                0 <= x < y < r.entities@.len() implies r.entities@[x] != r.entities@[y] by {
                assert(r.entities@[x] == self.world@[x].0);
                assert(r.entities@[y] == self.world@[y].0);
            }
            assert forall|j: int| 0 <= j < self.world@.len() implies {
                &&& r@[j].entity == self.world@[j].0
                &&& r@[j].translation == self.world@[j].1.transform.translation
                &&& r@[j].rotation == self.world@[j].1.transform.rotation
                &&& r@[j].wheels_translation == Seq::new(
                    4,
                    |l: int| self.world@[j].1.wheels@[l].translation,
                )
                &&& r@[j].wheels_rotation == Seq::new(
                    4,
                    |l: int| self.world@[j].1.wheels@[l].rotation,
                )
            } by {
                assert(r@[j].entity == r.entities@[j]);
                assert(r@[j].translation == r.translations@[j]);
                assert(r@[j].rotation == r.rotations@[j]);
                assert(r@[j].wheels_translation == r.wheels_translations@[j]@);
                assert(r@[j].wheels_rotation == r.wheels_rotations@[j]@);
            }
        }
        r
    }

    /// The control magnitudes every player entity should drive with this
    /// tick, from its stored input, in spawn order.
    pub fn desired_controls(&self) -> (r: Vec<(u64, CarControls)>)
        requires
            self.wf(),
        ensures
            r@.len() == self.world@.len(),
            forall|i: int|
                0 <= i < self.world@.len() ==> {
                    &&& r@[i].0 == self.world@[i].0
                    &&& r@[i].1.gas_on == self.world@[i].1.input.up
                    &&& r@[i].1.brake_on == self.world@[i].1.input.down
                    &&& r@[i].1.steering == (if self.world@[i].1.input.right {
                        1i8
                    } else if self.world@[i].1.input.left {
                        -1i8
                    } else {
                        0i8
                    })
                },
    {
        let mut r: Vec<(u64, CarControls)> = Vec::new();
        let n = self.world.len();
        let mut i: usize = 0;
        while i < n
            invariant
                i <= n,
                n == self.world@.len(),
                self.wf(),
                r@.len() == i,
                forall|j: int|
                    0 <= j < i ==> {
                        &&& r@[j].0 == self.world@[j].0
                        &&& r@[j].1.gas_on == self.world@[j].1.input.up
                        &&& r@[j].1.brake_on == self.world@[j].1.input.down
                        &&& r@[j].1.steering == (if self.world@[j].1.input.right {
                            1i8
                        } else if self.world@[j].1.input.left {
                            -1i8
                        } else {
                            0i8
                        })
                    },
            decreases n - i,
        {
            let entity = self.world.key_at(i);
            let p = self.world.value_at(i);
            let controls = controls_from_input(&p.input);
            r.push((entity, controls));
            i += 1;
        }
        r
    }
}

} // verus!
