//! Canonical binary encoding of the wire messages.
//!
//! Every message type has a fixed little-endian layout; `decode` is the
//! exact inverse of `encode` (the round-trip lemmas at the end of this
//! module), and rejects any byte string that no `encode` produces.

use vstd::bytes::{
    spec_u32_from_le_bytes, spec_u32_to_le_bytes, spec_u64_from_le_bytes, spec_u64_to_le_bytes,
    u32_from_le_bytes, u32_to_le_bytes, u64_from_le_bytes, u64_to_le_bytes,
    lemma_auto_spec_u32_to_from_le_bytes, lemma_auto_spec_u64_to_from_le_bytes,
};
use vstd::prelude::*;
use vstd::slice::slice_subrange;

use crate::wire::{NetworkedEntities, PlayerCommand, PlayerInput, QuatBits, ServerMessages, SnapRow, Vec3Bits};

verus! {

// ---------------------------------------------------------------------
// Byte-level primitives
// ---------------------------------------------------------------------

/// Appends the four little-endian bytes of `x`.
pub fn push_u32_le(out: &mut Vec<u8>, x: u32)
    ensures
        final(out)@ == old(out)@ + spec_u32_to_le_bytes(x),
{
    let mut b = u32_to_le_bytes(x);
    out.append(&mut b);
}

/// Appends the eight little-endian bytes of `x`.
pub fn push_u64_le(out: &mut Vec<u8>, x: u64)
    ensures
        final(out)@ == old(out)@ + spec_u64_to_le_bytes(x),
{
    let mut b = u64_to_le_bytes(x);
    out.append(&mut b);
}

/// Reads a little-endian `u32` at byte offset `off`.
pub fn read_u32_le(b: &[u8], off: usize) -> (x: u32)
    requires
        off + 4 <= b@.len(),
    ensures
        x == spec_u32_from_le_bytes(b@.subrange(off as int, off as int + 4)),
{
    let _len = b.len();
    let s = slice_subrange(b, off, off + 4);
    u32_from_le_bytes(s)
}

/// Reads a little-endian `u64` at byte offset `off`.
pub fn read_u64_le(b: &[u8], off: usize) -> (x: u64)
    requires
        off + 8 <= b@.len(),
    ensures
        x == spec_u64_from_le_bytes(b@.subrange(off as int, off as int + 8)),
{
    let _len = b.len();
    let s = slice_subrange(b, off, off + 8);
    u64_from_le_bytes(s)
}

// ---------------------------------------------------------------------
// Element layouts
// ---------------------------------------------------------------------

/// One byte per flag: `1` for pressed, `0` for released.
pub open spec fn spec_bool_byte(b: bool) -> u8 {
    if b {
        1u8
    } else {
        0u8
    }
}

/// Twelve bytes: the three components in order, each little-endian.
pub open spec fn spec_enc_vec3(v: Vec3Bits) -> Seq<u8> {
    spec_u32_to_le_bytes(v.x) + spec_u32_to_le_bytes(v.y) + spec_u32_to_le_bytes(v.z)
}

/// Sixteen bytes: the four components in order, each little-endian.
pub open spec fn spec_enc_quat(q: QuatBits) -> Seq<u8> {
    spec_u32_to_le_bytes(q.x) + spec_u32_to_le_bytes(q.y) + spec_u32_to_le_bytes(q.z)
        + spec_u32_to_le_bytes(q.w)
}

/// The vector read back from offset `off`.
pub open spec fn spec_dec_vec3_at(s: Seq<u8>, off: int) -> Vec3Bits {
    Vec3Bits {
        x: spec_u32_from_le_bytes(s.subrange(off, off + 4)),
        y: spec_u32_from_le_bytes(s.subrange(off + 4, off + 8)),
        z: spec_u32_from_le_bytes(s.subrange(off + 8, off + 12)),
    }
}

/// The quaternion read back from offset `off`.
pub open spec fn spec_dec_quat_at(s: Seq<u8>, off: int) -> QuatBits {
    QuatBits {
        x: spec_u32_from_le_bytes(s.subrange(off, off + 4)),
        y: spec_u32_from_le_bytes(s.subrange(off + 4, off + 8)),
        z: spec_u32_from_le_bytes(s.subrange(off + 8, off + 12)),
        w: spec_u32_from_le_bytes(s.subrange(off + 12, off + 16)),
    }
}

/// Appends the twelve bytes of `v`.
pub fn push_vec3(out: &mut Vec<u8>, v: Vec3Bits)
    ensures
        final(out)@ == old(out)@ + spec_enc_vec3(v),
{
    push_u32_le(out, v.x);
    push_u32_le(out, v.y);
    push_u32_le(out, v.z);
    proof {
        assert(final(out)@ =~= old(out)@ + spec_enc_vec3(v));
    }
}

/// Appends the sixteen bytes of `q`.
pub fn push_quat(out: &mut Vec<u8>, q: QuatBits)
    ensures
        final(out)@ == old(out)@ + spec_enc_quat(q),
{
    push_u32_le(out, q.x);
    push_u32_le(out, q.y);
    push_u32_le(out, q.z);
    push_u32_le(out, q.w);
    proof {
        assert(final(out)@ =~= old(out)@ + spec_enc_quat(q));
    }
}

/// Reads a vector at offset `off`.
pub fn read_vec3(b: &[u8], off: usize) -> (v: Vec3Bits)
    requires
        off + 12 <= b@.len(),
    ensures
        v == spec_dec_vec3_at(b@, off as int),
{
    let _len = b.len();
    let x = read_u32_le(b, off);
    let y = read_u32_le(b, off + 4);
    let z = read_u32_le(b, off + 8);
    Vec3Bits { x, y, z }
}

/// Reads a quaternion at offset `off`.
pub fn read_quat(b: &[u8], off: usize) -> (q: QuatBits)
    requires
        off + 16 <= b@.len(),
    ensures
        q == spec_dec_quat_at(b@, off as int),
{
    let _len = b.len();
    let x = read_u32_le(b, off);
    let y = read_u32_le(b, off + 4);
    let z = read_u32_le(b, off + 8);
    let w = read_u32_le(b, off + 12);
    QuatBits { x, y, z, w }
}

/// If the bytes at `off` are exactly `spec_enc_vec3(v)`, reading a vector
/// there gives `v` back.
proof fn lemma_dec_vec3_of_enc(s: Seq<u8>, off: int, v: Vec3Bits)
    requires
        0 <= off,
        off + 12 <= s.len(),
        s.subrange(off, off + 12) == spec_enc_vec3(v),
    ensures
        spec_dec_vec3_at(s, off) == v,
{
    lemma_auto_spec_u32_to_from_le_bytes();
    let e = spec_enc_vec3(v);
    assert(s.subrange(off, off + 4) =~= e.subrange(0, 4));
    assert(s.subrange(off + 4, off + 8) =~= e.subrange(4, 8));
    assert(s.subrange(off + 8, off + 12) =~= e.subrange(8, 12));
    assert(e.subrange(0, 4) =~= spec_u32_to_le_bytes(v.x));
    assert(e.subrange(4, 8) =~= spec_u32_to_le_bytes(v.y));
    assert(e.subrange(8, 12) =~= spec_u32_to_le_bytes(v.z));
}

/// If the bytes at `off` are exactly `spec_enc_quat(q)`, reading a
/// quaternion there gives `q` back.
proof fn lemma_dec_quat_of_enc(s: Seq<u8>, off: int, q: QuatBits)
    requires
        0 <= off,
        off + 16 <= s.len(),
        s.subrange(off, off + 16) == spec_enc_quat(q),
    ensures
        spec_dec_quat_at(s, off) == q,
{
    lemma_auto_spec_u32_to_from_le_bytes();
    let e = spec_enc_quat(q);
    assert(s.subrange(off, off + 4) =~= e.subrange(0, 4));
    assert(s.subrange(off + 4, off + 8) =~= e.subrange(4, 8));
    assert(s.subrange(off + 8, off + 12) =~= e.subrange(8, 12));
    assert(s.subrange(off + 12, off + 16) =~= e.subrange(12, 16));
    assert(e.subrange(0, 4) =~= spec_u32_to_le_bytes(q.x));
    assert(e.subrange(4, 8) =~= spec_u32_to_le_bytes(q.y));
    assert(e.subrange(8, 12) =~= spec_u32_to_le_bytes(q.z));
    assert(e.subrange(12, 16) =~= spec_u32_to_le_bytes(q.w));
}

// ---------------------------------------------------------------------
// PlayerInput: four flag bytes
// ---------------------------------------------------------------------

/// Layout of a `PlayerInput` message: four flag bytes, in the order
/// up, down, left, right.
pub open spec fn spec_enc_player_input(m: PlayerInput) -> Seq<u8> {
    seq![
        spec_bool_byte(m.up),
        spec_bool_byte(m.down),
        spec_bool_byte(m.left),
        spec_bool_byte(m.right),
    ]
}

/// Inverse of `spec_enc_player_input`; `None` on any byte string that no
/// encoding produces.
pub open spec fn spec_dec_player_input(s: Seq<u8>) -> Option<PlayerInput> {
    if s.len() == 4 && s[0] <= 1 && s[1] <= 1 && s[2] <= 1 && s[3] <= 1 {
        Some(
            PlayerInput {
                up: s[0] == 1,
                down: s[1] == 1,
                left: s[2] == 1,
                right: s[3] == 1,
            },
        )
    } else {
        None
    }
}

/// Encodes an input message.
pub fn encode_player_input(m: &PlayerInput) -> (r: Vec<u8>)
    ensures
        r@ == spec_enc_player_input(*m),
{
    let mut out: Vec<u8> = Vec::new();
    out.push(if m.up { 1 } else { 0 });
    out.push(if m.down { 1 } else { 0 });
    out.push(if m.left { 1 } else { 0 });
    out.push(if m.right { 1 } else { 0 });
    proof {
        assert(out@ =~= spec_enc_player_input(*m));
    }
    out
}

/// Decodes an input message; `None` means the payload is malformed.
pub fn decode_player_input(b: &[u8]) -> (r: Option<PlayerInput>)
    ensures
        r == spec_dec_player_input(b@),
{
    if b.len() != 4 {
        return None;
    }
    let b0 = *vstd::slice::slice_index_get(b, 0);
    let b1 = *vstd::slice::slice_index_get(b, 1);
    let b2 = *vstd::slice::slice_index_get(b, 2);
    let b3 = *vstd::slice::slice_index_get(b, 3);
    if b0 > 1 || b1 > 1 || b2 > 1 || b3 > 1 {
        return None;
    }
    Some(PlayerInput { up: b0 == 1, down: b1 == 1, left: b2 == 1, right: b3 == 1 })
}

/// Round trip: decoding an encoded input message gives it back.
pub proof fn lemma_player_input_round_trip(m: PlayerInput)
    ensures
        spec_dec_player_input(spec_enc_player_input(m)) == Some(m),
{
}

// ---------------------------------------------------------------------
// PlayerCommand: tag byte, then the payload
// ---------------------------------------------------------------------

/// Tag of the basic-attack command.
pub const TAG_BASIC_ATTACK: u8 = 0;

/// Layout of a `PlayerCommand` message: the variant tag, then the target
/// point.
pub open spec fn spec_enc_player_command(m: PlayerCommand) -> Seq<u8> {
    match m {
        PlayerCommand::BasicAttack { cast_at } => seq![TAG_BASIC_ATTACK] + spec_enc_vec3(cast_at),
    }
}

/// Inverse of `spec_enc_player_command`.
pub open spec fn spec_dec_player_command(s: Seq<u8>) -> Option<PlayerCommand> {
    if s.len() == 13 && s[0] == TAG_BASIC_ATTACK {
        Some(PlayerCommand::BasicAttack { cast_at: spec_dec_vec3_at(s, 1) })
    } else {
        None
    }
}

/// Encodes a command message.
pub fn encode_player_command(m: &PlayerCommand) -> (r: Vec<u8>)
    ensures
        r@ == spec_enc_player_command(*m),
{
    let mut out: Vec<u8> = Vec::new();
    match m {
        PlayerCommand::BasicAttack { cast_at } => {
            out.push(TAG_BASIC_ATTACK);
            push_vec3(&mut out, *cast_at);
            proof {
                assert(out@ =~= spec_enc_player_command(*m));
            }
        },
    }
    out
}

/// Decodes a command message; `None` means the payload is malformed.
pub fn decode_player_command(b: &[u8]) -> (r: Option<PlayerCommand>)
    ensures
        r == spec_dec_player_command(b@),
{
    if b.len() != 13 {
        return None;
    }
    let tag = *vstd::slice::slice_index_get(b, 0);
    if tag != TAG_BASIC_ATTACK {
        return None;
    }
    let cast_at = read_vec3(b, 1);
    Some(PlayerCommand::BasicAttack { cast_at })
}

/// Round trip: decoding an encoded command gives it back.
pub proof fn lemma_player_command_round_trip(m: PlayerCommand)
    ensures
        spec_dec_player_command(spec_enc_player_command(m)) == Some(m),
{
    lemma_auto_spec_u32_to_from_le_bytes();
    match m {
        PlayerCommand::BasicAttack { cast_at } => {
            let e = spec_enc_player_command(m);
            assert(e.subrange(1, 13) =~= spec_enc_vec3(cast_at));
            lemma_dec_vec3_of_enc(e, 1, cast_at);
        },
    }
}

// ---------------------------------------------------------------------
// ServerMessages: tag byte, then the variant fields
// ---------------------------------------------------------------------

/// Tag of the player-create announcement.
pub const TAG_PLAYER_CREATE: u8 = 0;

/// Tag of the player-remove announcement.
pub const TAG_PLAYER_REMOVE: u8 = 1;

/// Layout of a lifecycle message: the variant tag, then the fields in
/// declaration order.
pub open spec fn spec_enc_server_message(m: ServerMessages) -> Seq<u8> {
    match m {
        ServerMessages::PlayerCreate { entity, id, translation } => seq![TAG_PLAYER_CREATE]
            + spec_u64_to_le_bytes(entity) + spec_u64_to_le_bytes(id) + spec_enc_vec3(translation),
        ServerMessages::PlayerRemove { id } => seq![TAG_PLAYER_REMOVE] + spec_u64_to_le_bytes(id),
    }
}

/// Inverse of `spec_enc_server_message`.
pub open spec fn spec_dec_server_message(s: Seq<u8>) -> Option<ServerMessages> {
    if s.len() == 29 && s[0] == TAG_PLAYER_CREATE {
        Some(
            ServerMessages::PlayerCreate {
                entity: spec_u64_from_le_bytes(s.subrange(1, 9)),
                id: spec_u64_from_le_bytes(s.subrange(9, 17)),
                translation: spec_dec_vec3_at(s, 17),
            },
        )
    } else if s.len() == 9 && s[0] == TAG_PLAYER_REMOVE {
        Some(ServerMessages::PlayerRemove { id: spec_u64_from_le_bytes(s.subrange(1, 9)) })
    } else {
        None
    }
}

/// Encodes a lifecycle message.
pub fn encode_server_message(m: &ServerMessages) -> (r: Vec<u8>)
    ensures
        r@ == spec_enc_server_message(*m),
{
    let mut out: Vec<u8> = Vec::new();
    match m {
        ServerMessages::PlayerCreate { entity, id, translation } => {
            out.push(TAG_PLAYER_CREATE);
            push_u64_le(&mut out, *entity);
            push_u64_le(&mut out, *id);
            push_vec3(&mut out, *translation);
            proof {
                assert(out@ =~= spec_enc_server_message(*m));
            }
        },
        ServerMessages::PlayerRemove { id } => {
            out.push(TAG_PLAYER_REMOVE);
            push_u64_le(&mut out, *id);
            proof {
                assert(out@ =~= spec_enc_server_message(*m));
            }
        },
    }
    out
}

/// Decodes a lifecycle message; `None` means the payload is malformed.
pub fn decode_server_message(b: &[u8]) -> (r: Option<ServerMessages>)
    ensures
        r == spec_dec_server_message(b@),
{
    if b.len() == 29 {
        let tag = *vstd::slice::slice_index_get(b, 0);
        if tag != TAG_PLAYER_CREATE {
            return None;
        }
        let entity = read_u64_le(b, 1);
        let id = read_u64_le(b, 9);
        let translation = read_vec3(b, 17);
        Some(ServerMessages::PlayerCreate { entity, id, translation })
    } else if b.len() == 9 {
        let tag = *vstd::slice::slice_index_get(b, 0);
        if tag != TAG_PLAYER_REMOVE {
            return None;
        }
        let id = read_u64_le(b, 1);
        Some(ServerMessages::PlayerRemove { id })
    } else {
        None
    }
}

/// Round trip: decoding an encoded lifecycle message gives it back.
pub proof fn lemma_server_message_round_trip(m: ServerMessages)
    ensures
        spec_dec_server_message(spec_enc_server_message(m)) == Some(m),
{
    lemma_auto_spec_u32_to_from_le_bytes();
    lemma_auto_spec_u64_to_from_le_bytes();
    let e = spec_enc_server_message(m);
    match m {
        ServerMessages::PlayerCreate { entity, id, translation } => {
            assert(e.subrange(1, 9) =~= spec_u64_to_le_bytes(entity));
            assert(e.subrange(9, 17) =~= spec_u64_to_le_bytes(id));
            assert(e.subrange(17, 29) =~= spec_enc_vec3(translation));
            lemma_dec_vec3_of_enc(e, 17, translation);
        },
        ServerMessages::PlayerRemove { id } => {
            assert(e.subrange(1, 9) =~= spec_u64_to_le_bytes(id));
        },
    }
}

// ---------------------------------------------------------------------
// NetworkedEntities: a row count, then fixed-size rows
// ---------------------------------------------------------------------

/// Bytes of one snapshot row: 8 for the entity, 12 for its translation,
/// 16 for its rotation, 48 for the four wheel translations and 64 for the
/// four wheel rotations.
pub const ROW_BYTES: u64 = 148;

/// The four wheel translations of a row, in index order.
pub open spec fn spec_enc_wheels_vec3(w: Seq<Vec3Bits>) -> Seq<u8> {
    spec_enc_vec3(w[0]) + spec_enc_vec3(w[1]) + spec_enc_vec3(w[2]) + spec_enc_vec3(w[3])
}

/// The four wheel rotations of a row, in index order.
pub open spec fn spec_enc_wheels_quat(w: Seq<QuatBits>) -> Seq<u8> {
    spec_enc_quat(w[0]) + spec_enc_quat(w[1]) + spec_enc_quat(w[2]) + spec_enc_quat(w[3])
}

/// Layout of one row.
pub open spec fn spec_enc_row(r: SnapRow) -> Seq<u8> {
    spec_u64_to_le_bytes(r.entity) + spec_enc_vec3(r.translation) + spec_enc_quat(r.rotation)
        + spec_enc_wheels_vec3(r.wheels_translation) + spec_enc_wheels_quat(r.wheels_rotation)
}

/// The rows one after another.
pub open spec fn spec_enc_rows(rows: Seq<SnapRow>) -> Seq<u8>
    decreases rows.len(),
{
    if rows.len() == 0 {
        Seq::empty()
    } else {
        spec_enc_row(rows[0]) + spec_enc_rows(rows.skip(1))
    }
}

/// Layout of a snapshot: the row count as a little-endian `u32`, then the
/// rows.
pub open spec fn spec_enc_snapshot(rows: Seq<SnapRow>) -> Seq<u8> {
    spec_u32_to_le_bytes(rows.len() as u32) + spec_enc_rows(rows)
}

/// The row read back from offset `off`.
pub open spec fn spec_dec_row(s: Seq<u8>, off: int) -> SnapRow {
    SnapRow {
        entity: spec_u64_from_le_bytes(s.subrange(off, off + 8)),
        translation: spec_dec_vec3_at(s, off + 8),
        rotation: spec_dec_quat_at(s, off + 20),
        wheels_translation: Seq::new(4, |j: int| spec_dec_vec3_at(s, off + 36 + 12 * j)),
        wheels_rotation: Seq::new(4, |j: int| spec_dec_quat_at(s, off + 84 + 16 * j)),
    }
}

/// Inverse of `spec_enc_snapshot`: the row count must match the byte
/// length exactly.
pub open spec fn spec_dec_snapshot(s: Seq<u8>) -> Option<Seq<SnapRow>> {
    if s.len() < 4 {
        None
    } else {
        let n = spec_u32_from_le_bytes(s.subrange(0, 4)) as int;
        if s.len() != 4 + (ROW_BYTES as int) * n {
            None
        } else {
            Some(Seq::new(n as nat, |i: int| spec_dec_row(s, 4 + (ROW_BYTES as int) * i)))
        }
    }
}

/// Every row encodes to exactly `ROW_BYTES` bytes.
proof fn lemma_enc_row_len(r: SnapRow)
    ensures
        spec_enc_row(r).len() == ROW_BYTES as int,
{
    lemma_auto_spec_u32_to_from_le_bytes();
    lemma_auto_spec_u64_to_from_le_bytes();
}

/// Concatenated row sequences encode to the concatenation of their
/// encodings.
proof fn lemma_enc_rows_concat(a: Seq<SnapRow>, b: Seq<SnapRow>)
    ensures
        spec_enc_rows(a + b) == spec_enc_rows(a) + spec_enc_rows(b),
    decreases a.len(),
{
    if a.len() == 0 {
        assert(a + b =~= b);
        assert(spec_enc_rows(a) + spec_enc_rows(b) =~= spec_enc_rows(b));
    } else {
        assert((a + b)[0] == a[0]);
        assert((a + b).skip(1) =~= a.skip(1) + b);
        lemma_enc_rows_concat(a.skip(1), b);
        assert(spec_enc_rows(a + b) =~= spec_enc_rows(a) + spec_enc_rows(b));
    }
}

/// Length of an encoded row sequence.
proof fn lemma_enc_rows_len(rows: Seq<SnapRow>)
    ensures
        spec_enc_rows(rows).len() == (ROW_BYTES as int) * rows.len(),
    decreases rows.len(),
{
    if rows.len() == 0 {
    } else {
        lemma_enc_row_len(rows[0]);
        lemma_enc_rows_len(rows.skip(1));
        assert((ROW_BYTES as int) * rows.len() == ROW_BYTES as int + (ROW_BYTES as int) * (rows.len()
            - 1)) by (nonlinear_arith);
    }
}

/// The bytes of row `i` inside an encoded row sequence.
proof fn lemma_enc_rows_index(rows: Seq<SnapRow>, i: int)
    requires
        0 <= i < rows.len(),
    ensures
        spec_enc_rows(rows).subrange(
            (ROW_BYTES as int) * i,
            (ROW_BYTES as int) * (i + 1),
        ) == spec_enc_row(rows[i]),
    decreases i,
{
    let w = ROW_BYTES as int;
    lemma_enc_row_len(rows[0]);
    lemma_enc_rows_len(rows.skip(1));
    lemma_enc_rows_len(rows);
    if i == 0 {
        assert(spec_enc_rows(rows).subrange(0, w) =~= spec_enc_row(rows[0]));
    } else {
        lemma_enc_rows_index(rows.skip(1), i - 1);
        assert(w * (i - 1) == w * i - w) by (nonlinear_arith);
        assert(w * ((i - 1) + 1) == w * (i + 1) - w) by (nonlinear_arith);
        assert(w * i - w >= 0) by (nonlinear_arith)
            requires
                i >= 1,
                w == 148,
        ;
        assert(w * (i + 1) <= spec_enc_rows(rows).len()) by (nonlinear_arith)
            requires
                i + 1 <= rows.len(),
                w == 148,
                spec_enc_rows(rows).len() == w * rows.len(),
        ;
        assert(spec_enc_rows(rows).subrange(w * i, w * (i + 1)) =~= spec_enc_rows(
            rows.skip(1),
        ).subrange(w * (i - 1), w * ((i - 1) + 1)));
        assert(rows.skip(1)[i - 1] == rows[i]);
    }
}

/// If the bytes at `off` are exactly `spec_enc_row(r)` for a row with four
/// wheel entries, reading a row there gives `r` back.
proof fn lemma_dec_row_of_enc(s: Seq<u8>, off: int, r: SnapRow)
    requires
        0 <= off,
        off + ROW_BYTES as int <= s.len(),
        r.wheels_translation.len() == 4,
        r.wheels_rotation.len() == 4,
        s.subrange(off, off + ROW_BYTES as int) == spec_enc_row(r),
    ensures
        spec_dec_row(s, off) == r,
{
    lemma_auto_spec_u32_to_from_le_bytes();
    lemma_auto_spec_u64_to_from_le_bytes();
    let e = spec_enc_row(r);
    assert(s.subrange(off, off + 8) =~= e.subrange(0, 8));
    assert(e.subrange(0, 8) =~= spec_u64_to_le_bytes(r.entity));
    assert(s.subrange(off + 8, off + 20) =~= e.subrange(8, 20));
    assert(e.subrange(8, 20) =~= spec_enc_vec3(r.translation));
    lemma_dec_vec3_of_enc(s, off + 8, r.translation);
    assert(s.subrange(off + 20, off + 36) =~= e.subrange(20, 36));
    assert(e.subrange(20, 36) =~= spec_enc_quat(r.rotation));
    lemma_dec_quat_of_enc(s, off + 20, r.rotation);
    assert forall|j: int| 0 <= j < 4 implies spec_dec_vec3_at(s, off + 36 + 12 * j)
        == r.wheels_translation[j] by {
        assert(s.subrange(off + 36 + 12 * j, off + 36 + 12 * j + 12) =~= e.subrange(
            36 + 12 * j,
            36 + 12 * j + 12,
        ));
        assert(e.subrange(36 + 12 * j, 36 + 12 * j + 12) =~= spec_enc_vec3(
            r.wheels_translation[j],
        ));
        lemma_dec_vec3_of_enc(s, off + 36 + 12 * j, r.wheels_translation[j]);
    }
    assert forall|j: int| 0 <= j < 4 implies spec_dec_quat_at(s, off + 84 + 16 * j)
        == r.wheels_rotation[j] by {
        assert(s.subrange(off + 84 + 16 * j, off + 84 + 16 * j + 16) =~= e.subrange(
            84 + 16 * j,
            84 + 16 * j + 16,
        ));
        assert(e.subrange(84 + 16 * j, 84 + 16 * j + 16) =~= spec_enc_quat(r.wheels_rotation[j]));
        lemma_dec_quat_of_enc(s, off + 84 + 16 * j, r.wheels_rotation[j]);
    }
    assert(spec_dec_row(s, off).wheels_translation =~= r.wheels_translation);
    assert(spec_dec_row(s, off).wheels_rotation =~= r.wheels_rotation);
    assert(spec_dec_row(s, off) =~= r);
}

/// Appends the bytes of row `i` of the snapshot.
#[verifier::rlimit(60)]
fn push_row(out: &mut Vec<u8>, m: &NetworkedEntities, i: usize)
    requires
        m.aligned(),
        i < m.entities@.len(),
    ensures
        final(out)@ == old(out)@ + spec_enc_row(m@[i as int]),
{
    push_u64_le(out, m.entities[i]);
    push_vec3(out, m.translations[i]);
    push_quat(out, m.rotations[i]);
    let wt = m.wheels_translations[i];
    push_vec3(out, wt[0]);
    push_vec3(out, wt[1]);
    push_vec3(out, wt[2]);
    push_vec3(out, wt[3]);
    let wr = m.wheels_rotations[i];
    push_quat(out, wr[0]);
    push_quat(out, wr[1]);
    push_quat(out, wr[2]);
    push_quat(out, wr[3]);
    proof {
        assert(final(out)@ =~= old(out)@ + spec_enc_row(m@[i as int]));
    }
}

/// Encodes a snapshot.  The row count is bounded by the wire's 32-bit
/// count field.
pub fn encode_networked_entities(m: &NetworkedEntities) -> (r: Vec<u8>)
    requires
        m.aligned(),
        m.entities@.len() <= u32::MAX,
    ensures
        r@ == spec_enc_snapshot(m@),
{
    let n = m.entities.len();
    let mut out: Vec<u8> = Vec::new();
    push_u32_le(&mut out, n as u32);
    let mut i: usize = 0;
    while i < n
        invariant
            i <= n,
            n == m.entities@.len(),
            n <= u32::MAX,
            m.aligned(),
            out@ == spec_u32_to_le_bytes(n as u32) + spec_enc_rows(m@.take(i as int)),
        decreases n - i,
    {
        push_row(&mut out, m, i);
        proof {
            assert(m@.take(i + 1) =~= m@.take(i as int) + seq![m@[i as int]]);
            lemma_enc_rows_concat(m@.take(i as int), seq![m@[i as int]]);
            assert(seq![m@[i as int]].skip(1) =~= Seq::<SnapRow>::empty());
            assert(spec_enc_rows(seq![m@[i as int]]) == spec_enc_row(m@[i as int])
                + spec_enc_rows(Seq::<SnapRow>::empty()));
            assert(spec_enc_rows(seq![m@[i as int]]) =~= spec_enc_row(m@[i as int]));
            assert(out@ =~= spec_u32_to_le_bytes(n as u32) + spec_enc_rows(m@.take(i + 1)));
        }
        i += 1;
    }
    proof {
        assert(m@.take(n as int) =~= m@);
    }
    out
}

/// Decodes a snapshot; `None` means the payload is malformed.  A decoded
/// snapshot has aligned columns; it is not checked for repeated entity
/// identifiers.
#[verifier::rlimit(60)]
pub fn decode_networked_entities(b: &[u8]) -> (r: Option<NetworkedEntities>)
    ensures
        match r {
            Some(m) => m.aligned() && spec_dec_snapshot(b@) == Some(m@),
            None => spec_dec_snapshot(b@) is None,
        },
{
    let l = b.len();
    if l < 4 {
        return None;
    }
    let n32 = read_u32_le(b, 0);
    if (l as u64) != 4u64 + ROW_BYTES * (n32 as u64) {
        return None;
    }
    let n = n32 as usize;
    let mut entities: Vec<u64> = Vec::new();
    let mut translations: Vec<Vec3Bits> = Vec::new();
    let mut rotations: Vec<QuatBits> = Vec::new();
    let mut wheels_translations: Vec<[Vec3Bits; 4]> = Vec::new();
    let mut wheels_rotations: Vec<[QuatBits; 4]> = Vec::new();
    let mut i: usize = 0;
    while i < n
        invariant
            i <= n,
            l == b@.len(),
            l as int == 4 + (ROW_BYTES as int) * (n as int),
            entities@.len() == i,
            translations@.len() == i,
            rotations@.len() == i,
            wheels_translations@.len() == i,
            wheels_rotations@.len() == i,
            forall|j: int|
                0 <= j < i ==> {
                    let row = #[trigger] spec_dec_row(b@, 4 + (ROW_BYTES as int) * j);
                    &&& entities@[j] == row.entity
                    &&& translations@[j] == row.translation
                    &&& rotations@[j] == row.rotation
                    &&& wheels_translations@[j]@ == row.wheels_translation
                    &&& wheels_rotations@[j]@ == row.wheels_rotation
                },
        decreases n - i,
    {
        proof {
            assert((ROW_BYTES as int) * (i as int) + ROW_BYTES as int <= (ROW_BYTES as int) * (
            n as int)) by (nonlinear_arith)
                requires
                    i < n,
            ;
            assert((ROW_BYTES as int) * (i as int) >= 0) by (nonlinear_arith);
        }
        let off = 4 + (ROW_BYTES as usize) * i;
        let entity = read_u64_le(b, off);
        let translation = read_vec3(b, off + 8);
        let rotation = read_quat(b, off + 20);
        let wt: [Vec3Bits; 4] = [
            read_vec3(b, off + 36),
            read_vec3(b, off + 48),
            read_vec3(b, off + 60),
            read_vec3(b, off + 72),
        ];
        let wr: [QuatBits; 4] = [
            read_quat(b, off + 84),
            read_quat(b, off + 100),
            read_quat(b, off + 116),
            read_quat(b, off + 132),
        ];
        proof {
            let row = spec_dec_row(b@, off as int);
            assert(wt@ =~= row.wheels_translation);
            assert(wr@ =~= row.wheels_rotation);
        }
        entities.push(entity);
        translations.push(translation);
        rotations.push(rotation);
        wheels_translations.push(wt);
        wheels_rotations.push(wr);
        i += 1;
    }
    let m = NetworkedEntities { entities, translations, rotations, wheels_translations,
        wheels_rotations };
    proof {
        let target = spec_dec_snapshot(b@).unwrap();
        assert(m@.len() == target.len());
        assert forall|j: int| 0 <= j < n implies m@[j] == target[j] by {
            assert(m@[j] =~= spec_dec_row(b@, 4 + (ROW_BYTES as int) * j));
        }
        assert(m@ =~= target);
    }
    Some(m)
}

/// Round trip: decoding an encoded snapshot gives its rows back, for any
/// row sequence the wire can carry (each row with exactly four wheel
/// entries, and a count that fits the 32-bit count field).
pub proof fn lemma_networked_entities_round_trip(rows: Seq<SnapRow>)
    requires
        rows.len() <= u32::MAX,
        forall|i: int|
            0 <= i < rows.len() ==> (#[trigger] rows[i]).wheels_translation.len() == 4
                && rows[i].wheels_rotation.len() == 4,
    ensures
        spec_dec_snapshot(spec_enc_snapshot(rows)) == Some(rows),
{
    lemma_auto_spec_u32_to_from_le_bytes();
    let w = ROW_BYTES as int;
    let s = spec_enc_snapshot(rows);
    let n = rows.len() as int;
    lemma_enc_rows_len(rows);
    assert(s.subrange(0, 4) =~= spec_u32_to_le_bytes(rows.len() as u32));
    assert(spec_u32_from_le_bytes(s.subrange(0, 4)) as int == n);
    assert(s.len() == 4 + w * n);
    let dec = spec_dec_snapshot(s).unwrap();
    assert forall|i: int| 0 <= i < n implies dec[i] == rows[i] by {
        lemma_enc_rows_index(rows, i);
        assert(w * i >= 0) by (nonlinear_arith)
            requires
                i >= 0,
                w == 148,
        ;
        assert(w * (i + 1) <= w * n) by (nonlinear_arith)
            requires
                i + 1 <= n,
                w == 148,
        ;
        assert(s.subrange(4 + w * i, 4 + w * i + w) =~= spec_enc_rows(rows).subrange(
            w * i,
            w * (i + 1),
        ));
        lemma_dec_row_of_enc(s, 4 + w * i, rows[i]);
    }
    assert(dec =~= rows);
}

} // verus!
