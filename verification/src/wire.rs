//! Wire protocol definitions: message schemas shared by client and server,
//! and the channel table with its reliability policy.
//!
//! Positions and orientations travel as raw 32-bit patterns of the
//! single-precision components the physics engine works with.  The
//! replication core never does arithmetic on them — it only copies them
//! between the wire and the per-entity state — so the bit pattern is the
//! exact value being replicated.

use vstd::prelude::*;

verus! {

/// A three-component vector, each component the bit pattern of a
/// single-precision float.
#[derive(Clone, Copy, Debug, PartialEq, Eq, Structural)]
pub struct Vec3Bits {
    pub x: u32,
    pub y: u32,
    pub z: u32,
}

/// A four-component quaternion, each component the bit pattern of a
/// single-precision float.
#[derive(Clone, Copy, Debug, PartialEq, Eq, Structural)]
pub struct QuatBits {
    pub x: u32,
    pub y: u32,
    pub z: u32,
    pub w: u32,
}

/// Bit pattern of the single-precision float `0.0`.
pub const F32_ZERO_BITS: u32 = 0;

/// Bit pattern of the single-precision float `1.0`.
pub const F32_ONE_BITS: u32 = 0x3F80_0000;

/// The identity orientation `(0, 0, 0, 1)`.
pub open spec fn spec_quat_identity() -> QuatBits {
    QuatBits { x: F32_ZERO_BITS, y: F32_ZERO_BITS, z: F32_ZERO_BITS, w: F32_ONE_BITS }
}

impl QuatBits {
    /// The identity orientation `(0, 0, 0, 1)`.
    pub fn identity() -> (r: QuatBits)
        ensures
            r == spec_quat_identity(),
    {
        QuatBits { x: F32_ZERO_BITS, y: F32_ZERO_BITS, z: F32_ZERO_BITS, w: F32_ONE_BITS }
    }
}

/// Position and orientation of one entity.
#[derive(Clone, Copy, Debug, PartialEq, Eq, Structural)]
pub struct Transform {
    pub translation: Vec3Bits,
    pub rotation: QuatBits,
}

/// Marks an authoritative entity as belonging to the given network client.
#[derive(Clone, Copy, Debug, PartialEq, Eq, Structural)]
pub struct Player {
    pub id: u64,
}

/// Four independent directive flags, resent whole by each client every
/// tick; the server overwrites its stored copy wholesale on each receipt.
#[derive(Clone, Copy, Debug, PartialEq, Eq, Structural)]
pub struct PlayerInput {
    pub up: bool,
    pub down: bool,
    pub left: bool,
    pub right: bool,
}

impl Default for PlayerInput {
    /// All directives released.
    fn default() -> (r: Self)
        ensures
            r == (PlayerInput { up: false, down: false, left: false, right: false }),
    {
        PlayerInput { up: false, down: false, left: false, right: false }
    }
}

/// A discrete player-issued action, delivered reliably and in order and
/// processed by the server exactly once per message.
#[derive(Clone, Copy, Debug, PartialEq, Eq, Structural)]
pub enum PlayerCommand {
    BasicAttack { cast_at: Vec3Bits },
}

/// Client-to-server channels.
#[derive(Clone, Copy, Debug)]
pub enum ClientChannel {
    Input,
    Command,
}

/// Server-to-client channels.
#[derive(Clone, Copy, Debug)]
pub enum ServerChannel {
    ServerMessages,
    NetworkedEntities,
}

impl vstd::std_specs::convert::FromSpecImpl<ClientChannel> for u8 {
    open spec fn obeys_from_spec() -> bool {
        true
    }

    open spec fn from_spec(channel_id: ClientChannel) -> u8 {
        match channel_id {
            ClientChannel::Command => 0,
            ClientChannel::Input => 1,
        }
    }
}

impl From<ClientChannel> for u8 {
    fn from(channel_id: ClientChannel) -> (r: Self) {
        match channel_id {
            ClientChannel::Command => 0,
            ClientChannel::Input => 1,
        }
    }
}

impl vstd::std_specs::convert::FromSpecImpl<ServerChannel> for u8 {
    open spec fn obeys_from_spec() -> bool {
        true
    }

    open spec fn from_spec(channel_id: ServerChannel) -> u8 {
        match channel_id {
            ServerChannel::NetworkedEntities => 0,
            ServerChannel::ServerMessages => 1,
        }
    }
}

impl From<ServerChannel> for u8 {
    fn from(channel_id: ServerChannel) -> (r: Self) {
        match channel_id {
            ServerChannel::NetworkedEntities => 0,
            ServerChannel::ServerMessages => 1,
        }
    }
}

/// Memory budget for unacknowledged messages on each client channel.
pub const CLIENT_CHANNEL_MAX_BYTES: u64 = 5 * 1024 * 1024;

/// Memory budget for unacknowledged messages on each server channel.
pub const SERVER_CHANNEL_MAX_BYTES: u64 = 10 * 1024 * 1024;

/// Byte budget the connection may send per tick.
pub const AVAILABLE_BYTES_PER_TICK: u64 = 1024 * 1024;

/// Reliability policy of one channel.
#[derive(Clone, Copy, Debug, PartialEq, Eq, Structural)]
pub enum SendKind {
    /// Delivered, and in send order; resent after the given delay while
    /// unacknowledged (zero means resend as soon as possible).
    ReliableOrdered { resend_time_ms: u64 },
    /// May be dropped or reordered by the network.
    Unreliable,
}

/// Configuration of one logical channel: its numeric index, the memory
/// budget for messages not yet acknowledged, and the reliability policy.
#[derive(Clone, Copy, Debug, PartialEq, Eq, Structural)]
pub struct ChannelPolicy {
    pub channel_id: u8,
    pub max_memory_usage_bytes: u64,
    pub send: SendKind,
}

impl ClientChannel {
    /// The two client-to-server channels: input and commands, both
    /// reliable-ordered with no resend delay.
    pub fn channels_config() -> (r: Vec<ChannelPolicy>)
        ensures
            r@ =~= seq![
                (ChannelPolicy {
                    channel_id: 1,
                    max_memory_usage_bytes: CLIENT_CHANNEL_MAX_BYTES,
                    send: SendKind::ReliableOrdered { resend_time_ms: 0 },
                }),
                (ChannelPolicy {
                    channel_id: 0,
                    max_memory_usage_bytes: CLIENT_CHANNEL_MAX_BYTES,
                    send: SendKind::ReliableOrdered { resend_time_ms: 0 },
                }),
            ],
    {
        let mut r: Vec<ChannelPolicy> = Vec::new();
        r.push(ChannelPolicy {
            channel_id: ClientChannel::Input.into(),
            max_memory_usage_bytes: CLIENT_CHANNEL_MAX_BYTES,
            send: SendKind::ReliableOrdered { resend_time_ms: 0 },
        });
        r.push(ChannelPolicy {
            channel_id: ClientChannel::Command.into(),
            max_memory_usage_bytes: CLIENT_CHANNEL_MAX_BYTES,
            send: SendKind::ReliableOrdered { resend_time_ms: 0 },
        });
        r
    }
}

impl ServerChannel {
    /// The two server-to-client channels: unreliable snapshots and
    /// reliable-ordered lifecycle messages resent after 200 ms.
    pub fn channels_config() -> (r: Vec<ChannelPolicy>)
        ensures
            r@ =~= seq![
                (ChannelPolicy {
                    channel_id: 0,
                    max_memory_usage_bytes: SERVER_CHANNEL_MAX_BYTES,
                    send: SendKind::Unreliable,
                }),
                (ChannelPolicy {
                    channel_id: 1,
                    max_memory_usage_bytes: SERVER_CHANNEL_MAX_BYTES,
                    send: SendKind::ReliableOrdered { resend_time_ms: 200 },
                }),
            ],
    {
        let mut r: Vec<ChannelPolicy> = Vec::new();
        r.push(ChannelPolicy {
            channel_id: ServerChannel::NetworkedEntities.into(),
            max_memory_usage_bytes: SERVER_CHANNEL_MAX_BYTES,
            send: SendKind::Unreliable,
        });
        r.push(ChannelPolicy {
            channel_id: ServerChannel::ServerMessages.into(),
            max_memory_usage_bytes: SERVER_CHANNEL_MAX_BYTES,
            send: SendKind::ReliableOrdered { resend_time_ms: 200 },
        });
        r
    }
}

/// Whole-connection configuration: the per-tick byte budget and both
/// channel tables.
pub struct ConnectionPolicy {
    pub available_bytes_per_tick: u64,
    pub client_channels_config: Vec<ChannelPolicy>,
    pub server_channels_config: Vec<ChannelPolicy>,
}

/// The connection configuration used by both sides.
pub fn connection_config() -> (r: ConnectionPolicy)
    ensures
        r.available_bytes_per_tick == AVAILABLE_BYTES_PER_TICK,
        r.client_channels_config@ =~= seq![
            (ChannelPolicy {
                channel_id: 1,
                max_memory_usage_bytes: CLIENT_CHANNEL_MAX_BYTES,
                send: SendKind::ReliableOrdered { resend_time_ms: 0 },
            }),
            (ChannelPolicy {
                channel_id: 0,
                max_memory_usage_bytes: CLIENT_CHANNEL_MAX_BYTES,
                send: SendKind::ReliableOrdered { resend_time_ms: 0 },
            }),
        ],
        r.server_channels_config@ =~= seq![
            (ChannelPolicy {
                channel_id: 0,
                max_memory_usage_bytes: SERVER_CHANNEL_MAX_BYTES,
                send: SendKind::Unreliable,
            }),
            (ChannelPolicy {
                channel_id: 1,
                max_memory_usage_bytes: SERVER_CHANNEL_MAX_BYTES,
                send: SendKind::ReliableOrdered { resend_time_ms: 200 },
            }),
        ],
{
    ConnectionPolicy {
        available_bytes_per_tick: AVAILABLE_BYTES_PER_TICK,
        client_channels_config: ClientChannel::channels_config(),
        server_channels_config: ServerChannel::channels_config(),
    }
}

/// Lifecycle announcements, sent on the reliable server-messages channel.
#[derive(Clone, Copy, Debug, PartialEq, Eq, Structural)]
pub enum ServerMessages {
    /// Announces an authoritative entity: either an existing player told to
    /// a newcomer, or a newly joined player broadcast to everyone.
    PlayerCreate { entity: u64, id: u64, translation: Vec3Bits },
    /// Announces a departure; receivers release everything tied to `id`.
    PlayerRemove { id: u64 },
}

/// A full-state snapshot: parallel, index-aligned columns with one row per
/// tracked entity.  Each row carries the entity's transform and the
/// transforms of its four wheel sub-entities.
#[derive(Debug, PartialEq)]
pub struct NetworkedEntities {
    pub entities: Vec<u64>,
    pub translations: Vec<Vec3Bits>,
    pub rotations: Vec<QuatBits>,
    pub wheels_translations: Vec<[Vec3Bits; 4]>,
    pub wheels_rotations: Vec<[QuatBits; 4]>,
}

/// One snapshot row as a mathematical value: the five columns of
/// `NetworkedEntities` read at a single index.
#[verifier::ext_equal]
pub struct SnapRow {
    pub entity: u64,
    pub translation: Vec3Bits,
    pub rotation: QuatBits,
    pub wheels_translation: Seq<Vec3Bits>,
    pub wheels_rotation: Seq<QuatBits>,
}

impl View for NetworkedEntities {
    type V = Seq<SnapRow>;

    /// A snapshot viewed as its sequence of rows.
    open spec fn view(&self) -> Seq<SnapRow> {
        Seq::new(
            self.entities@.len(),
            |i: int|
                SnapRow {
                    entity: self.entities@[i],
                    translation: self.translations@[i],
                    rotation: self.rotations@[i],
                    wheels_translation: self.wheels_translations@[i]@,
                    wheels_rotation: self.wheels_rotations@[i]@,
                },
        )
    }
}

impl NetworkedEntities {
    /// The five columns are index-aligned.
    pub open spec fn aligned(&self) -> bool {
        &&& self.translations@.len() == self.entities@.len()
        &&& self.rotations@.len() == self.entities@.len()
        &&& self.wheels_translations@.len() == self.entities@.len()
        &&& self.wheels_rotations@.len() == self.entities@.len()
    }

    /// Well-formedness: the five columns are index-aligned and no entity
    /// identifier appears twice.
    pub open spec fn wf(&self) -> bool {
        &&& self.aligned()
        &&& forall|i: int, j: int|
            0 <= i < j < self.entities@.len() ==> self.entities@[i] != self.entities@[j]
    }

    /// An empty snapshot.
    pub fn new() -> (r: NetworkedEntities)
        ensures
            r.wf(),
            r.entities@.len() == 0,
    {
        NetworkedEntities {
            entities: Vec::new(),
            translations: Vec::new(),
            rotations: Vec::new(),
            wheels_translations: Vec::new(),
            wheels_rotations: Vec::new(),
        }
    }
}

} // verus!
