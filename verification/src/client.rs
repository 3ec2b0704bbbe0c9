//! Client reconciliation loop: applying lifecycle announcements and world
//! snapshots against the local entity registry and entity mapping.
//!
//! The harness drains the two server-to-client channels each tick and
//! hands every decoded message to this module, lifecycle messages first,
//! then snapshots in arrival order.

use vstd::prelude::*;

use crate::mapping::NetworkMapping;
use crate::registry::IdMap;
use crate::wire::{spec_quat_identity, NetworkedEntities, PlayerInput, QuatBits, ServerMessages, SnapRow, Transform, Vec3Bits};

verus! {

/// The two identifiers a client keeps per connected player.
#[derive(Clone, Copy, Debug, PartialEq, Eq, Structural)]
pub struct PlayerInfo {
    pub client_entity: u64,
    pub server_entity: u64,
}

/// A locally spawned representation of one player: its transform, the
/// transforms of its wheel sub-entities (by index), and whether it is the
/// input-driven entity of this client.
pub struct LocalEntity {
    pub transform: Transform,
    pub wheels: Vec<Transform>,
    pub controlled: bool,
}

/// Mathematical value of a `LocalEntity`.
#[verifier::ext_equal]
pub struct LocalEntityView {
    pub transform: Transform,
    pub wheels: Seq<Transform>,
    pub controlled: bool,
}

impl View for LocalEntity {
    type V = LocalEntityView;

    open spec fn view(&self) -> LocalEntityView {
        LocalEntityView {
            transform: self.transform,
            wheels: self.wheels@,
            controlled: self.controlled,
        }
    }
}

/// Mathematical state of one client process.
#[verifier::ext_equal]
pub struct ClientView {
    /// This client's own network identity.
    pub own_id: u64,
    /// Network client identifier to the player's two entity identifiers.
    pub lobby: Map<u64, PlayerInfo>,
    /// Server entity identifier to local entity identifier.
    pub mapping: Map<u64, u64>,
    /// Local entity identifier to the spawned representation.
    pub world: Map<u64, LocalEntityView>,
    /// Next local entity identifier to hand out; never reused.
    pub next_entity: u64,
}

/// A freshly spawned local representation: body at the announced position
/// with the identity orientation, four wheel sub-entities starting at the
/// body transform.
pub open spec fn spec_spawned_entity(translation: Vec3Bits, controlled: bool) -> LocalEntityView {
    let t = Transform { translation, rotation: spec_quat_identity() };
    LocalEntityView { transform: t, wheels: seq![t, t, t, t], controlled }
}

/// Effect of a `PlayerCreate` announcement: ignored if the server entity
/// is already mapped or the client identifier already has a lobby entry;
/// otherwise a fresh local entity is spawned and both tables gain the new
/// player.
pub open spec fn spec_apply_create(
    m: ClientView,
    entity: u64,
    id: u64,
    translation: Vec3Bits,
) -> ClientView {
    if m.mapping.contains_key(entity) || m.lobby.contains_key(id) {
        m
    } else {
        let c = m.next_entity;
        ClientView {
            own_id: m.own_id,
            lobby: m.lobby.insert(id, PlayerInfo { client_entity: c, server_entity: entity }),
            mapping: m.mapping.insert(entity, c),
            world: m.world.insert(c, spec_spawned_entity(translation, id == m.own_id)),
            next_entity: (m.next_entity + 1) as u64,
        }
    }
}

/// Effect of a `PlayerRemove` announcement: the player's local entity is
/// despawned and both table entries erased; an unknown identifier is a
/// no-op.
pub open spec fn spec_apply_remove(m: ClientView, id: u64) -> ClientView {
    if m.lobby.contains_key(id) {
        let info = m.lobby[id];
        ClientView {
            own_id: m.own_id,
            lobby: m.lobby.remove(id),
            mapping: m.mapping.remove(info.server_entity),
            world: m.world.remove(info.client_entity),
            next_entity: m.next_entity,
        }
    } else {
        m
    }
}

/// Effect of one lifecycle message.
pub open spec fn spec_apply_message(m: ClientView, msg: ServerMessages) -> ClientView {
    match msg {
        ServerMessages::PlayerCreate { entity, id, translation } => spec_apply_create(
            m,
            entity,
            id,
            translation,
        ),
        ServerMessages::PlayerRemove { id } => spec_apply_remove(m, id),
    }
}

/// Effect of a sequence of lifecycle messages applied in order.
pub open spec fn spec_apply_messages(m: ClientView, msgs: Seq<ServerMessages>) -> ClientView
    decreases msgs.len(),
{
    if msgs.len() == 0 {
        m
    } else {
        spec_apply_messages(spec_apply_message(m, msgs[0]), msgs.skip(1))
    }
}

/// The state a client starts in: empty tables, no entities.
pub open spec fn spec_initial_client(own_id: u64) -> ClientView {
    ClientView {
        own_id,
        lobby: Map::empty(),
        mapping: Map::empty(),
        world: Map::empty(),
        next_entity: 0,
    }
}

/// Consistency of a client state: the mapping's keys are exactly the
/// server entities of lobby entries, each lobby entry's entities agree
/// with the mapping and exist in the world, no two lobby entries share an
/// entity, and every spawned entity is below the allocation counter.
pub open spec fn client_inv(m: ClientView) -> bool {
    &&& forall|se: u64|
        #[trigger] m.mapping.contains_key(se) ==> exists|id: u64|
            #[trigger] m.lobby.contains_key(id) && m.lobby[id].server_entity == se
    &&& forall|id: u64|
        #[trigger] m.lobby.contains_key(id) ==> {
            &&& m.mapping.contains_key(m.lobby[id].server_entity)
            &&& m.mapping[m.lobby[id].server_entity] == m.lobby[id].client_entity
            &&& m.world.contains_key(m.lobby[id].client_entity)
        }
    &&& forall|id1: u64, id2: u64|
        #[trigger] m.lobby.contains_key(id1) && #[trigger] m.lobby.contains_key(id2)
            && m.lobby[id1].server_entity == m.lobby[id2].server_entity ==> id1 == id2
    &&& forall|id1: u64, id2: u64|
        #[trigger] m.lobby.contains_key(id1) && #[trigger] m.lobby.contains_key(id2)
            && m.lobby[id1].client_entity == m.lobby[id2].client_entity ==> id1 == id2
    &&& forall|c: u64| #[trigger] m.world.contains_key(c) ==> c < m.next_entity
}

/// The world of local entities as a map of mathematical values.
pub open spec fn world_model_of(s: Map<u64, LocalEntity>) -> Map<u64, LocalEntityView> {
    Map::new(|c: u64| s.contains_key(c), |c: u64| s[c]@)
}

/// One client process's replication state.
pub struct ClientContext {
    /// This client's own network identity.
    pub own_id: u64,
    /// Lobby: network client identifier to the player's entities.
    pub lobby: IdMap<PlayerInfo>,
    /// Entity mapping layer.
    pub mapping: NetworkMapping,
    /// Registry of locally spawned entities.
    pub world: IdMap<LocalEntity>,
    /// Next local entity identifier; identifiers are never reused.
    pub next_entity: u64,
}

impl ClientContext {
    /// The mathematical state.
    pub open spec fn model(&self) -> ClientView {
        ClientView {
            own_id: self.own_id,
            lobby: self.lobby.as_map(),
            mapping: self.mapping@,
            world: world_model_of(self.world.as_map()),
            next_entity: self.next_entity,
        }
    }

    /// Well-formedness: the three tables have unique keys and the state is
    /// consistent.
    pub open spec fn wf(&self) -> bool {
        &&& self.lobby.wf()
        &&& self.mapping.wf()
        &&& self.world.wf()
        &&& client_inv(self.model())
    }

    /// A client that has not yet heard from the server.
    pub fn new(own_id: u64) -> (r: ClientContext)
        ensures
            r.wf(),
            r.model() == spec_initial_client(own_id),
    {
        let r = ClientContext {
            own_id,
            lobby: IdMap::new(),
            mapping: NetworkMapping::new(),
            world: IdMap::new(),
            next_entity: 0,
        };
        proof {
            assert(world_model_of(r.world.as_map()) =~= Map::<u64, LocalEntityView>::empty());
            assert(r.model() =~= spec_initial_client(own_id));
        }
        r
    }

    /// Applies one lifecycle announcement, as `spec_apply_message` says:
    /// `PlayerCreate` spawns a local representation (tagged as controlled
    /// when it announces this client itself) and records it in the lobby
    /// and the mapping; `PlayerRemove` despawns it and erases both
    /// entries, tolerating an unknown identifier.
    pub fn apply_server_message(&mut self, msg: &ServerMessages)
        requires
            old(self).wf(),
            old(self).next_entity < u64::MAX,
        ensures
            final(self).wf(),
            final(self).model() == spec_apply_message(old(self).model(), *msg),
    {
        match *msg {
            ServerMessages::PlayerCreate { entity, id, translation } => {
                let mapped = self.mapping.resolve(entity).is_some();
                let known = self.lobby.contains(id);
                if mapped || known {
                    return ;
                }
                let c = self.next_entity;
                let t = Transform { translation, rotation: QuatBits::identity() };
                let mut wheels: Vec<Transform> = Vec::new();
                wheels.push(t);
                wheels.push(t);
                wheels.push(t);
                wheels.push(t);
                let controlled = id == self.own_id;
                let spawned = LocalEntity { transform: t, wheels, controlled };
                proof {
                    assert(spawned@.wheels =~= seq![t, t, t, t]);
                    assert(spawned@ =~= spec_spawned_entity(translation, controlled));
                    assert(!self.world.as_map().contains_key(c)) by {
                        if self.world.as_map().contains_key(c) {
                            assert(world_model_of(self.world.as_map()).contains_key(c));
                        }
                    }
                }
                self.world.insert(c, spawned);
                let _recorded = self.mapping.record(entity, c);
                self.lobby.insert(id, PlayerInfo { client_entity: c, server_entity: entity });
                self.next_entity = c + 1;
                proof {
                    let pre = old(self).model();
                    let post = self.model();
                    let goal = spec_apply_create(pre, entity, id, translation);
                    assert(post.world =~= goal.world) by {
                        assert(world_model_of(self.world.as_map()) =~= world_model_of(
                            old(self).world.as_map(),
                        ).insert(c, spec_spawned_entity(translation, controlled)));
                    }
                    assert(post =~= goal);
                    assert(client_inv(post)) by {
                        client_inv_create_preserved(pre, entity, id, translation);
                    }
                }
            },
            ServerMessages::PlayerRemove { id } => {
                let removed = self.lobby.remove(id);
                match removed {
                    Some(info) => {
                        let _ = self.world.remove(info.client_entity);
                        self.mapping.erase(info.server_entity);
                        proof {
                            let pre = old(self).model();
                            let post = self.model();
                            let goal = spec_apply_remove(pre, id);
                            assert(post.world =~= goal.world) by {
                                assert(world_model_of(self.world.as_map()) =~= world_model_of(
                                    old(self).world.as_map(),
                                ).remove(info.client_entity));
                            }
                            assert(post =~= goal);
                            assert(client_inv(post)) by {
                                client_inv_remove_preserved(pre, id);
                            }
                        }
                    },
                    None => {
                        proof {
                            assert(self.model() =~= spec_apply_remove(old(self).model(), id));
                        }
                    },
                }
            },
        }
    }
}

// ---------------------------------------------------------------------
// Snapshot application
// ---------------------------------------------------------------------

/// The representation of a resolved entity after one snapshot row: the
/// body transform is overwritten outright; the four wheel transforms are
/// overwritten by index when the entity exposes exactly four wheel
/// sub-entities, and left alone otherwise.
pub open spec fn spec_written(e: LocalEntityView, row: SnapRow) -> LocalEntityView {
    LocalEntityView {
        transform: Transform { translation: row.translation, rotation: row.rotation },
        wheels: if e.wheels.len() == 4 {
            Seq::new(
                4,
                |j: int|
                    Transform {
                        translation: row.wheels_translation[j],
                        rotation: row.wheels_rotation[j],
                    },
            )
        } else {
            e.wheels
        },
        controlled: e.controlled,
    }
}

/// Effect of one snapshot row: resolve the server entity through the
/// mapping; an unresolved or despawned entity leaves the state untouched.
pub open spec fn spec_apply_row(m: ClientView, row: SnapRow) -> ClientView {
    if m.mapping.contains_key(row.entity) && m.world.contains_key(m.mapping[row.entity]) {
        let c = m.mapping[row.entity];
        ClientView {
            own_id: m.own_id,
            lobby: m.lobby,
            mapping: m.mapping,
            world: m.world.insert(c, spec_written(m.world[c], row)),
            next_entity: m.next_entity,
        }
    } else {
        m
    }
}

/// Effect of a whole snapshot, row by row in order.
pub open spec fn spec_apply_snapshot(m: ClientView, rows: Seq<SnapRow>) -> ClientView
    decreases rows.len(),
{
    if rows.len() == 0 {
        m
    } else {
        spec_apply_snapshot(spec_apply_row(m, rows[0]), rows.skip(1))
    }
}

/// Appending one more row applies it after the rest.
pub proof fn lemma_apply_snapshot_push(m: ClientView, rows: Seq<SnapRow>, r: SnapRow)
    ensures
        spec_apply_snapshot(m, rows.push(r)) == spec_apply_row(spec_apply_snapshot(m, rows), r),
    decreases rows.len(),
{
    if rows.len() == 0 {
        assert(rows.push(r)[0] == r);
        assert(rows.push(r).skip(1) =~= Seq::<SnapRow>::empty());
        assert(spec_apply_snapshot(m, rows.push(r)) == spec_apply_snapshot(
            spec_apply_row(m, r),
            Seq::<SnapRow>::empty(),
        ));
        assert(spec_apply_snapshot(spec_apply_row(m, r), Seq::<SnapRow>::empty())
            == spec_apply_row(m, r));
        assert(spec_apply_snapshot(m, rows) == m);
    } else {
        assert(rows.push(r)[0] == rows[0]);
        assert(rows.push(r).skip(1) =~= rows.skip(1).push(r));
        lemma_apply_snapshot_push(spec_apply_row(m, rows[0]), rows.skip(1), r);
        assert(spec_apply_snapshot(m, rows.push(r)) == spec_apply_snapshot(
            spec_apply_row(m, rows[0]),
            rows.skip(1).push(r),
        ));
        assert(spec_apply_snapshot(m, rows) == spec_apply_snapshot(
            spec_apply_row(m, rows[0]),
            rows.skip(1),
        ));
    }
}

impl ClientContext {
    /// Applies a full-state snapshot: for each row, resolve the server
    /// entity through the mapping; skip unresolved rows; overwrite the
    /// resolved entity's transform, and its four wheel transforms by index
    /// when it exposes exactly four.  Last snapshot wins — there is no
    /// smoothing.
    pub fn apply_snapshot(&mut self, snap: &NetworkedEntities)
        requires
            old(self).wf(),
            snap.aligned(),
        ensures
            final(self).wf(),
            final(self).model() == spec_apply_snapshot(old(self).model(), snap@),
    {
        let n = snap.entities.len();
        let mut i: usize = 0;
        while i < n
            invariant
                i <= n,
                n == snap.entities@.len(),
                snap.aligned(),
                self.wf(),
                self.model() == spec_apply_snapshot(old(self).model(), snap@.take(i as int)),
            decreases n - i,
        {
            let ghost pre = self.model();
            let ghost row = snap@[i as int];
            let se = snap.entities[i];
            match self.mapping.resolve(se) {
                None => {
                    proof {
                        assert(spec_apply_row(pre, row) =~= pre);
                    }
                },
                Some(c) => {
                    match self.world.index_of(c) {
                        None => {
                            proof {
                                assert(!pre.world.contains_key(c));
                                assert(spec_apply_row(pre, row) =~= pre);
                            }
                        },
                        Some(k) => {
                            let ghost w0 = self.world@;
                            let ghost wm0 = self.world.as_map();
                            let ghost e0 = wm0[c]@;
                            let t = Transform {
                                translation: snap.translations[i],
                                rotation: snap.rotations[i],
                            };
                            let wt = snap.wheels_translations[i];
                            let wr = snap.wheels_rotations[i];
                            let e = self.world.get_mut_at(k);
                            e.transform = t;
                            if e.wheels.len() == 4 {
                                let mut nw: Vec<Transform> = Vec::new();
                                nw.push(Transform { translation: wt[0], rotation: wr[0] });
                                nw.push(Transform { translation: wt[1], rotation: wr[1] });
                                nw.push(Transform { translation: wt[2], rotation: wr[2] });
                                nw.push(Transform { translation: wt[3], rotation: wr[3] });
                                e.wheels = nw;
                            }
                            proof {
                                let en = self.world@[k as int].1;
                                assert(w0[k as int].0 == c);
                                assert(w0[k as int].1 == wm0[c]);
                                assert(en@ =~= spec_written(e0, row)) by {
                                    assert(row.wheels_translation == wt@);
                                    assert(row.wheels_rotation == wr@);
                                    if e0.wheels.len() == 4 {
                                        assert(en@.wheels =~= spec_written(e0, row).wheels);
                                    }
                                }
                                crate::registry::lemma_as_map_update(w0, k as int, en);
                                assert(crate::registry::distinct_keys(self.world@)) by {
                                    assert(forall|x: int|
                                        0 <= x < self.world@.len() ==> self.world@[x].0 == w0[x].0);
                                }
                                assert(self.world.as_map() == wm0.insert(c, en));
                                assert(world_model_of(self.world.as_map()) =~= pre.world.insert(
                                    c,
                                    spec_written(e0, row),
                                ));
                                assert(self.model() =~= spec_apply_row(pre, row));
                                assert(client_inv(self.model())) by {
                                    assert(self.model().world.dom() =~= pre.world.dom());
                                    assert(self.model().lobby == pre.lobby);
                                    assert(self.model().mapping == pre.mapping);
                                }
                            }
                        },
                    }
                },
            }
            i += 1;
            proof {
                assert(snap@.take(i as int) =~= snap@.take(i as int - 1).push(row));
                lemma_apply_snapshot_push(old(self).model(), snap@.take(i as int - 1), row);
            }
        }
        proof {
            assert(snap@.take(n as int) =~= snap@);
        }
    }
}

/// Reads the current directive states into a fresh input message.  The
/// harness samples the input device and calls this every tick, regardless
/// of connection state; the result is sent whole on the input channel.
pub fn sample_player_input(up: bool, down: bool, left: bool, right: bool) -> (r: PlayerInput)
    ensures
        r == (PlayerInput { up, down, left, right }),
{
    PlayerInput { up, down, left, right }
}

// ---------------------------------------------------------------------
// Laws
// ---------------------------------------------------------------------

/// No two rows of a snapshot name the same server entity.
pub open spec fn rows_distinct(rows: Seq<SnapRow>) -> bool {
    forall|i: int, j: int| 0 <= i < j < rows.len() ==> rows[i].entity != rows[j].entity
}

/// No two server entities resolve to the same local entity.
pub open spec fn mapping_injective(mp: Map<u64, u64>) -> bool {
    forall|s1: u64, s2: u64|
        #[trigger] mp.contains_key(s1) && #[trigger] mp.contains_key(s2) && mp[s1] == mp[s2]
            ==> s1 == s2
}

/// A consistent client state resolves distinct server entities to
/// distinct local entities.
pub proof fn lemma_inv_mapping_injective(m: ClientView)
    requires
        client_inv(m),
    ensures
        mapping_injective(m.mapping),
{
    assert forall|s1: u64, s2: u64|
        #[trigger] m.mapping.contains_key(s1) && #[trigger] m.mapping.contains_key(s2)
            && m.mapping[s1] == m.mapping[s2] implies s1 == s2 by {
        let id1 = choose|id: u64|
            #[trigger] m.lobby.contains_key(id) && m.lobby[id].server_entity == s1;
        let id2 = choose|id: u64|
            #[trigger] m.lobby.contains_key(id) && m.lobby[id].server_entity == s2;
        assert(m.mapping[s1] == m.lobby[id1].client_entity);
        assert(m.mapping[s2] == m.lobby[id2].client_entity);
        assert(id1 == id2);
    }
}

/// Row `row` writes to local entity `c`.
pub open spec fn row_touches(m: ClientView, row: SnapRow, c: u64) -> bool {
    &&& m.mapping.contains_key(row.entity)
    &&& m.mapping[row.entity] == c
    &&& m.world.contains_key(c)
}

/// No row of the snapshot writes to local entity `c`.
pub open spec fn untouched(m: ClientView, rows: Seq<SnapRow>, c: u64) -> bool {
    forall|i: int| 0 <= i < rows.len() ==> !row_touches(m, #[trigger] rows[i], c)
}

/// One row changes nothing but the entity it resolves to.
proof fn lemma_apply_row_frame(m: ClientView, row: SnapRow)
    ensures
        spec_apply_row(m, row).own_id == m.own_id,
        spec_apply_row(m, row).lobby == m.lobby,
        spec_apply_row(m, row).mapping == m.mapping,
        spec_apply_row(m, row).next_entity == m.next_entity,
        spec_apply_row(m, row).world.dom() == m.world.dom(),
        forall|c: u64|
            !row_touches(m, row, c) ==> #[trigger] spec_apply_row(m, row).world.index_opt(c)
                == m.world.index_opt(c),
        forall|c: u64|
            row_touches(m, row, c) ==> #[trigger] spec_apply_row(m, row).world[c] == spec_written(
                m.world[c],
                row,
            ),
{
    if m.mapping.contains_key(row.entity) && m.world.contains_key(m.mapping[row.entity]) {
        assert(spec_apply_row(m, row).world.dom() =~= m.world.dom());
    }
}

/// What a snapshot leaves behind, entity by entity: rows only write, in
/// row order, to the entities they resolve to.
proof fn lemma_apply_snapshot_frame(m: ClientView, rows: Seq<SnapRow>)
    requires
        rows_distinct(rows),
        mapping_injective(m.mapping),
    ensures
        spec_apply_snapshot(m, rows).own_id == m.own_id,
        spec_apply_snapshot(m, rows).lobby == m.lobby,
        spec_apply_snapshot(m, rows).mapping == m.mapping,
        spec_apply_snapshot(m, rows).next_entity == m.next_entity,
        spec_apply_snapshot(m, rows).world.dom() == m.world.dom(),
        forall|c: u64|
            untouched(m, rows, c) ==> #[trigger] spec_apply_snapshot(m, rows).world.index_opt(c)
                == m.world.index_opt(c),
        forall|i: int, c: u64|
            0 <= i < rows.len() && row_touches(m, #[trigger] rows[i], c)
                ==> #[trigger] spec_apply_snapshot(m, rows).world[c] == spec_written(
                m.world[c],
                rows[i],
            ),
    decreases rows.len(),
{
    if rows.len() == 0 {
    } else {
        let r0 = rows[0];
        let m1 = spec_apply_row(m, r0);
        let f = spec_apply_snapshot(m, rows);
        lemma_apply_row_frame(m, r0);
        assert(rows_distinct(rows.skip(1))) by {
            assert(forall|x: int, y: int|
                0 <= x < y < rows.len() - 1 ==> rows.skip(1)[x] == rows[x + 1] && rows.skip(1)[y]
                    == rows[y + 1]);
        }
        lemma_apply_snapshot_frame(m1, rows.skip(1));
        assert(f == spec_apply_snapshot(m1, rows.skip(1)));
        assert forall|c: u64| untouched(m, rows, c) implies #[trigger] f.world.index_opt(c)
            == m.world.index_opt(c) by {
            assert(!row_touches(m, rows[0], c));
            assert(untouched(m1, rows.skip(1), c)) by {
                assert forall|j: int| 0 <= j < rows.skip(1).len() implies !row_touches(
                    m1,
                    #[trigger] rows.skip(1)[j],
                    c,
                ) by {
                    assert(rows.skip(1)[j] == rows[j + 1]);
                    assert(!row_touches(m, rows[j + 1], c));
                }
            }
        }
        assert forall|i: int, c: u64|
            0 <= i < rows.len() && row_touches(m, #[trigger] rows[i], c) implies #[trigger] f.world[c]
            == spec_written(m.world[c], rows[i]) by {
            if i == 0 {
                assert(m1.world[c] == spec_written(m.world[c], r0));
                assert(untouched(m1, rows.skip(1), c)) by {
                    assert forall|j: int| 0 <= j < rows.skip(1).len() implies !row_touches(
                        m1,
                        #[trigger] rows.skip(1)[j],
                        c,
                    ) by {
                        let rj = rows.skip(1)[j];
                        assert(rj == rows[j + 1]);
                        if row_touches(m1, rj, c) {
                            assert(m.mapping.contains_key(rj.entity));
                            assert(m.mapping[rj.entity] == c == m.mapping[r0.entity]);
                            assert(rj.entity == r0.entity);
                            assert(false);
                        }
                    }
                }
                assert(f.world.index_opt(c) == m1.world.index_opt(c));
                assert(m1.world.contains_key(c));
            } else {
                assert(rows.skip(1)[i - 1] == rows[i]);
                assert(!row_touches(m, r0, c)) by {
                    if row_touches(m, r0, c) {
                        assert(m.mapping[r0.entity] == c == m.mapping[rows[i].entity]);
                        assert(r0.entity == rows[i].entity);
                        assert(false);
                    }
                }
                assert(m1.world.index_opt(c) == m.world.index_opt(c));
                assert(m.world.contains_key(c));
                assert(row_touches(m1, rows[i], c));
                assert(f.world[c] == spec_written(m1.world[c], rows[i]));
            }
        }
    }
}

/// Writing the same row twice gives what writing it once gives.
proof fn lemma_written_idempotent(e: LocalEntityView, row: SnapRow)
    ensures
        spec_written(spec_written(e, row), row) == spec_written(e, row),
{
    if e.wheels.len() == 4 {
        assert(spec_written(spec_written(e, row), row) =~= spec_written(e, row));
    } else {
        assert(spec_written(spec_written(e, row), row) =~= spec_written(e, row));
    }
}

/// Snapshot idempotence: applying one snapshot twice in succession, with
/// no lifecycle change in between, leaves exactly the state of applying
/// it once.  Holds for any snapshot whose rows name distinct server
/// entities, from any state whose mapping sends distinct server entities
/// to distinct local entities.
pub proof fn lemma_snapshot_idempotent(m: ClientView, rows: Seq<SnapRow>)
    requires
        rows_distinct(rows),
        mapping_injective(m.mapping),
    ensures
        spec_apply_snapshot(spec_apply_snapshot(m, rows), rows) == spec_apply_snapshot(m, rows),
{
    let m1 = spec_apply_snapshot(m, rows);
    let m2 = spec_apply_snapshot(m1, rows);
    lemma_apply_snapshot_frame(m, rows);
    lemma_apply_snapshot_frame(m1, rows);
    assert forall|c: u64| #[trigger] m1.world.contains_key(c) implies m2.world.index_opt(c)
        == m1.world.index_opt(c) by {
        assert(m.world.contains_key(c));
        if untouched(m, rows, c) {
            assert(untouched(m1, rows, c)) by {
                assert forall|j: int| 0 <= j < rows.len() implies !row_touches(
                    m1,
                    #[trigger] rows[j],
                    c,
                ) by {
                    assert(!row_touches(m, rows[j], c));
                }
            }
        } else {
            assert(exists|i: int| 0 <= i < rows.len() && row_touches(m, #[trigger] rows[i], c));
            let i = choose|i: int| 0 <= i < rows.len() && row_touches(m, #[trigger] rows[i], c);
            assert(row_touches(m1, rows[i], c));
            assert(m1.world[c] == spec_written(m.world[c], rows[i]));
            assert(m2.world[c] == spec_written(m1.world[c], rows[i]));
            lemma_written_idempotent(m.world[c], rows[i]);
        }
    }
    assert(m2.world =~= m1.world) by {
        assert(m2.world.dom() == m1.world.dom());
        assert forall|c: u64| #[trigger] m1.world.contains_key(c) implies m2.world[c]
            == m1.world[c] by {
            assert(m2.world.index_opt(c) == m1.world.index_opt(c));
        }
    }
    assert(m2 =~= m1);
}

/// Every well-formed snapshot names each server entity at most once.
pub proof fn lemma_wf_snapshot_rows_distinct(m: &NetworkedEntities)
    requires
        m.wf(),
    ensures
        rows_distinct(m@),
{
    assert forall|i: int, j: int| 0 <= i < j < m@.len() implies m@[i].entity != m@[j].entity by {
        assert(m@[i].entity == m.entities@[i]);
        assert(m@[j].entity == m.entities@[j]);
    }
}

/// Snapshot idempotence at the client: applying one well-formed snapshot
/// twice in succession, with no lifecycle change in between, leaves a
/// well-formed client exactly as applying it once does.
pub proof fn lemma_client_snapshot_idempotent(c: &ClientContext, snap: &NetworkedEntities)
    requires
        c.wf(),
        snap.wf(),
    ensures
        spec_apply_snapshot(spec_apply_snapshot(c.model(), snap@), snap@) == spec_apply_snapshot(
            c.model(),
            snap@,
        ),
{
    lemma_wf_snapshot_rows_distinct(snap);
    lemma_inv_mapping_injective(c.model());
    lemma_snapshot_idempotent(c.model(), snap@);
}

/// Unresolved-entity tolerance: a row naming a server entity this client
/// was never told about changes nothing at all.
pub proof fn lemma_unresolved_row_skipped(m: ClientView, row: SnapRow)
    requires
        !m.mapping.contains_key(row.entity),
    ensures
        spec_apply_row(m, row) == m,
{
}

/// Wheel updates go by index: a row applied to a resolved entity that
/// exposes exactly four wheel sub-entities overwrites all four wheel
/// transforms, the `j`-th wheel from the `j`-th wheel column.
pub proof fn lemma_wheels_updated_by_index(m: ClientView, row: SnapRow)
    requires
        m.mapping.contains_key(row.entity),
        m.world.contains_key(m.mapping[row.entity]),
        m.world[m.mapping[row.entity]].wheels.len() == 4,
    ensures
        ({
            let w = spec_apply_row(m, row).world[m.mapping[row.entity]].wheels;
            &&& w.len() == 4
            &&& forall|j: int|
                0 <= j < 4 ==> w[j] == (Transform {
                    translation: row.wheels_translation[j],
                    rotation: row.wheels_rotation[j],
                })
        }),
{
}

/// Every row of a well-formed snapshot carries exactly four wheel
/// positions and four wheel orientations.
pub proof fn lemma_snapshot_row_shape(m: &NetworkedEntities, i: int)
    requires
        m.aligned(),
        0 <= i < m@.len(),
    ensures
        m@[i].wheels_translation.len() == 4,
        m@[i].wheels_rotation.len() == 4,
{
}

// ---------------------------------------------------------------------
// Mapping consistency
// ---------------------------------------------------------------------

/// The lobby reduced to what was announced: client identifier to server
/// entity.
pub open spec fn lobby_alive(lobby: Map<u64, PlayerInfo>) -> Map<u64, u64> {
    Map::new(|id: u64| lobby.contains_key(id), |id: u64| lobby[id].server_entity)
}

/// The table of players announced by `PlayerCreate` and not yet
/// `PlayerRemove`d, after the given lifecycle messages.
pub open spec fn spec_alive(alive: Map<u64, u64>, msgs: Seq<ServerMessages>) -> Map<u64, u64>
    decreases msgs.len(),
{
    if msgs.len() == 0 {
        alive
    } else {
        let next = match msgs[0] {
            ServerMessages::PlayerCreate { entity, id, translation } => alive.insert(id, entity),
            ServerMessages::PlayerRemove { id } => alive.remove(id),
        };
        spec_alive(next, msgs.skip(1))
    }
}

/// Lifecycle sequences a correct server produces: every `PlayerCreate`
/// announces a server entity not currently mapped and a client identifier
/// not currently in the lobby.
pub open spec fn spec_events_admissible(m: ClientView, msgs: Seq<ServerMessages>) -> bool
    decreases msgs.len(),
{
    msgs.len() == 0 || {
        let ok = match msgs[0] {
            ServerMessages::PlayerCreate { entity, id, translation } => !m.mapping.contains_key(
                entity,
            ) && !m.lobby.contains_key(id),
            ServerMessages::PlayerRemove { id } => true,
        };
        ok && spec_events_admissible(spec_apply_message(m, msgs[0]), msgs.skip(1))
    }
}

/// A consistent state's mapping keys are exactly the announced server
/// entities of its lobby.
pub proof fn lemma_inv_mapping_dom(m: ClientView)
    requires
        client_inv(m),
    ensures
        m.mapping.dom() == lobby_alive(m.lobby).values(),
{
    assert forall|se: u64| #[trigger] m.mapping.dom().contains(se) implies lobby_alive(
        m.lobby,
    ).values().contains(se) by {
        let id = choose|id: u64|
            #[trigger] m.lobby.contains_key(id) && m.lobby[id].server_entity == se;
        assert(lobby_alive(m.lobby).dom().contains(id) && lobby_alive(m.lobby)[id] == se);
    }
    assert forall|se: u64| #[trigger] lobby_alive(m.lobby).values().contains(se) implies m
        .mapping.dom().contains(se) by {
        let id = choose|id: u64|
            #[trigger] lobby_alive(m.lobby).dom().contains(id) && lobby_alive(m.lobby)[id] == se;
        assert(m.lobby.contains_key(id));
    }
    assert(m.mapping.dom() =~= lobby_alive(m.lobby).values());
}

/// Applying one admissible lifecycle message keeps the state consistent.
proof fn client_inv_apply_message(m: ClientView, msg: ServerMessages)
    requires
        client_inv(m),
        m.next_entity < u64::MAX,
    ensures
        client_inv(spec_apply_message(m, msg)),
{
    match msg {
        ServerMessages::PlayerCreate { entity, id, translation } => {
            client_inv_create_preserved(m, entity, id, translation);
        },
        ServerMessages::PlayerRemove { id } => {
            client_inv_remove_preserved(m, id);
        },
    }
}

/// Applying admissible lifecycle messages to a consistent state keeps it
/// consistent, and the lobby tracks the alive table exactly.
proof fn lemma_lifecycle_alive(m: ClientView, msgs: Seq<ServerMessages>)
    requires
        client_inv(m),
        spec_events_admissible(m, msgs),
        m.next_entity + msgs.len() <= u64::MAX,
    ensures
        client_inv(spec_apply_messages(m, msgs)),
        lobby_alive(spec_apply_messages(m, msgs).lobby) == spec_alive(lobby_alive(m.lobby), msgs),
    decreases msgs.len(),
{
    if msgs.len() == 0 {
    } else {
        let m1 = spec_apply_message(m, msgs[0]);
        client_inv_apply_message(m, msgs[0]);
        match msgs[0] {
            ServerMessages::PlayerCreate { entity, id, translation } => {
                assert(lobby_alive(m1.lobby) =~= lobby_alive(m.lobby).insert(id, entity));
            },
            ServerMessages::PlayerRemove { id } => {
                assert(lobby_alive(m1.lobby) =~= lobby_alive(m.lobby).remove(id));
            },
        }
        lemma_lifecycle_alive(m1, msgs.skip(1));
        assert(spec_alive(lobby_alive(m.lobby), msgs) == spec_alive(
            lobby_alive(m1.lobby),
            msgs.skip(1),
        ));
    }
}

/// Mapping consistency: after any admissible sequence of lifecycle
/// messages applied in order, starting from a fresh client, the entity
/// mapping's keys are exactly the server entities announced by
/// `PlayerCreate` and not yet `PlayerRemove`d.
pub proof fn lemma_mapping_consistency(own_id: u64, msgs: Seq<ServerMessages>)
    requires
        msgs.len() <= u64::MAX,
        spec_events_admissible(spec_initial_client(own_id), msgs),
    ensures
        spec_apply_messages(spec_initial_client(own_id), msgs).mapping.dom() == spec_alive(
            Map::empty(),
            msgs,
        ).values(),
{
    let m0 = spec_initial_client(own_id);
    lemma_lifecycle_alive(m0, msgs);
    lemma_inv_mapping_dom(spec_apply_messages(m0, msgs));
    assert(lobby_alive(m0.lobby) =~= Map::<u64, u64>::empty());
}

/// A `PlayerCreate` keeps the state consistent.
proof fn client_inv_create_preserved(m: ClientView, entity: u64, id: u64, translation: Vec3Bits)
    requires
        client_inv(m),
        m.next_entity < u64::MAX,
    ensures
        client_inv(spec_apply_create(m, entity, id, translation)),
{
    if m.mapping.contains_key(entity) || m.lobby.contains_key(id) {
    } else {
        let c = m.next_entity;
        let p = spec_apply_create(m, entity, id, translation);
        assert forall|se: u64| #[trigger] p.mapping.contains_key(se) implies exists|i: u64|
            #[trigger] p.lobby.contains_key(i) && p.lobby[i].server_entity == se by {
            if se == entity {
                assert(p.lobby.contains_key(id) && p.lobby[id].server_entity == se);
            } else {
                let i = choose|i: u64|
                    #[trigger] m.lobby.contains_key(i) && m.lobby[i].server_entity == se;
                assert(p.lobby.contains_key(i) && p.lobby[i].server_entity == se);
            }
        }
        assert forall|i: u64| #[trigger] p.lobby.contains_key(i) implies {
            &&& p.mapping.contains_key(p.lobby[i].server_entity)
            &&& p.mapping[p.lobby[i].server_entity] == p.lobby[i].client_entity
            &&& p.world.contains_key(p.lobby[i].client_entity)
        } by {
            if i != id {
                assert(m.lobby.contains_key(i));
                assert(m.lobby[i].server_entity != entity);
                assert(m.world.contains_key(m.lobby[i].client_entity));
                assert(m.lobby[i].client_entity < m.next_entity);
            }
        }
        assert forall|i1: u64, i2: u64|
            #[trigger] p.lobby.contains_key(i1) && #[trigger] p.lobby.contains_key(i2)
                && p.lobby[i1].server_entity == p.lobby[i2].server_entity implies i1 == i2 by {
            if i1 != i2 {
                if i1 == id {
                    assert(m.lobby.contains_key(i2));
                    assert(m.mapping.contains_key(m.lobby[i2].server_entity));
                } else if i2 == id {
                    assert(m.lobby.contains_key(i1));
                    assert(m.mapping.contains_key(m.lobby[i1].server_entity));
                }
            }
        }
        assert forall|i1: u64, i2: u64|
            #[trigger] p.lobby.contains_key(i1) && #[trigger] p.lobby.contains_key(i2)
                && p.lobby[i1].client_entity == p.lobby[i2].client_entity implies i1 == i2 by {
            if i1 != i2 {
                if i1 == id {
                    assert(m.lobby.contains_key(i2));
                    assert(m.world.contains_key(m.lobby[i2].client_entity));
                    assert(m.lobby[i2].client_entity < c);
                } else if i2 == id {
                    assert(m.lobby.contains_key(i1));
                    assert(m.world.contains_key(m.lobby[i1].client_entity));
                    assert(m.lobby[i1].client_entity < c);
                }
            }
        }
    }
}

/// A `PlayerRemove` keeps the state consistent.
proof fn client_inv_remove_preserved(m: ClientView, id: u64)
    requires
        client_inv(m),
    ensures
        client_inv(spec_apply_remove(m, id)),
{
    if m.lobby.contains_key(id) {
        let info = m.lobby[id];
        let p = spec_apply_remove(m, id);
        assert forall|se: u64| #[trigger] p.mapping.contains_key(se) implies exists|i: u64|
            #[trigger] p.lobby.contains_key(i) && p.lobby[i].server_entity == se by {
            let i = choose|i: u64|
                #[trigger] m.lobby.contains_key(i) && m.lobby[i].server_entity == se;
            assert(i != id);
            assert(p.lobby.contains_key(i) && p.lobby[i].server_entity == se);
        }
        assert forall|i: u64| #[trigger] p.lobby.contains_key(i) implies {
            &&& p.mapping.contains_key(p.lobby[i].server_entity)
            &&& p.mapping[p.lobby[i].server_entity] == p.lobby[i].client_entity
            &&& p.world.contains_key(p.lobby[i].client_entity)
        } by {
            assert(i != id);
            assert(m.lobby.contains_key(i));
            assert(m.lobby[i].server_entity != info.server_entity);
            assert(m.lobby[i].client_entity != info.client_entity);
        }
    }
}

} // verus!
