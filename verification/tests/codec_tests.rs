use garage_arena::codec::{
    decode_networked_entities, decode_player_command, decode_player_input, decode_server_message,
    encode_networked_entities, encode_player_command, encode_player_input, encode_server_message,
};
use garage_arena::wire::{NetworkedEntities, PlayerCommand, PlayerInput, QuatBits, ServerMessages, Vec3Bits};

fn v3(x: u32, y: u32, z: u32) -> Vec3Bits {
    Vec3Bits { x, y, z }
}

fn q4(x: u32, y: u32, z: u32, w: u32) -> QuatBits {
    QuatBits { x, y, z, w }
}

#[test]
fn player_input_round_trip() {
    let cases = [
        PlayerInput { up: false, down: false, left: false, right: false },
        PlayerInput { up: true, down: false, left: true, right: false },
        PlayerInput { up: true, down: true, left: true, right: true },
    ];
    for m in cases {
        let bytes = encode_player_input(&m);
        assert_eq!(decode_player_input(&bytes), Some(m));
    }
}

#[test]
fn player_input_exact_bytes() {
    let m = PlayerInput { up: true, down: false, left: true, right: false };
    assert_eq!(encode_player_input(&m), vec![1u8, 0, 1, 0]);
}

#[test]
fn player_input_rejects_malformed() {
    assert_eq!(decode_player_input(&[1, 0, 1]), None);
    assert_eq!(decode_player_input(&[1, 0, 1, 0, 0]), None);
    assert_eq!(decode_player_input(&[2, 0, 0, 0]), None);
    assert_eq!(decode_player_input(&[]), None);
}

#[test]
fn player_command_round_trip() {
    let m = PlayerCommand::BasicAttack { cast_at: v3(0x3F800000, 0, 0xC0490FDB) };
    let bytes = encode_player_command(&m);
    assert_eq!(bytes.len(), 13);
    assert_eq!(decode_player_command(&bytes), Some(m));
}

#[test]
fn player_command_zero_payload_round_trip() {
    let m = PlayerCommand::BasicAttack { cast_at: v3(0, 0, 0) };
    let bytes = encode_player_command(&m);
    assert_eq!(decode_player_command(&bytes), Some(m));
}

#[test]
fn player_command_rejects_malformed() {
    assert_eq!(decode_player_command(&[]), None);
    assert_eq!(decode_player_command(&[1u8; 13]), None);
    assert_eq!(decode_player_command(&[0u8; 12]), None);
}

#[test]
fn server_message_create_round_trip() {
    let m = ServerMessages::PlayerCreate {
        entity: 0xDEAD_BEEF_0102_0304,
        id: 77,
        translation: v3(1, 2, 3),
    };
    let bytes = encode_server_message(&m);
    assert_eq!(bytes.len(), 29);
    assert_eq!(decode_server_message(&bytes), Some(m));
}

#[test]
fn server_message_remove_round_trip() {
    let m = ServerMessages::PlayerRemove { id: u64::MAX };
    let bytes = encode_server_message(&m);
    assert_eq!(bytes.len(), 9);
    assert_eq!(decode_server_message(&bytes), Some(m));
}

#[test]
fn server_message_remove_exact_bytes() {
    let m = ServerMessages::PlayerRemove { id: 7 };
    assert_eq!(encode_server_message(&m), vec![1u8, 7, 0, 0, 0, 0, 0, 0, 0]);
}

#[test]
fn server_message_rejects_malformed() {
    assert_eq!(decode_server_message(&[]), None);
    // Right length for a remove, wrong tag.
    assert_eq!(decode_server_message(&[9u8, 0, 0, 0, 0, 0, 0, 0, 0]), None);
    // Right length for a create, wrong tag.
    assert_eq!(decode_server_message(&[1u8; 29]), None);
    assert_eq!(decode_server_message(&[0u8; 10]), None);
}

fn sample_snapshot() -> NetworkedEntities {
    NetworkedEntities {
        entities: vec![4, 9],
        translations: vec![v3(10, 20, 30), v3(40, 50, 60)],
        rotations: vec![q4(1, 2, 3, 4), q4(5, 6, 7, 8)],
        wheels_translations: vec![
            [v3(1, 1, 1), v3(2, 2, 2), v3(3, 3, 3), v3(4, 4, 4)],
            [v3(5, 5, 5), v3(6, 6, 6), v3(7, 7, 7), v3(8, 8, 8)],
        ],
        wheels_rotations: vec![
            [q4(1, 0, 0, 1), q4(0, 1, 0, 1), q4(0, 0, 1, 1), q4(1, 1, 0, 1)],
            [q4(2, 0, 0, 1), q4(0, 2, 0, 1), q4(0, 0, 2, 1), q4(2, 2, 0, 1)],
        ],
    }
}

#[test]
fn networked_entities_round_trip() {
    let m = sample_snapshot();
    let bytes = encode_networked_entities(&m);
    assert_eq!(bytes.len(), 4 + 2 * 148);
    let back = decode_networked_entities(&bytes).unwrap();
    assert_eq!(back, m);
}

#[test]
fn networked_entities_empty_round_trip() {
    let m = NetworkedEntities::new();
    let bytes = encode_networked_entities(&m);
    assert_eq!(bytes, vec![0u8, 0, 0, 0]);
    let back = decode_networked_entities(&bytes).unwrap();
    assert_eq!(back.entities.len(), 0);
    assert_eq!(back, m);
}

#[test]
fn networked_entities_rejects_malformed() {
    assert_eq!(decode_networked_entities(&[]), None);
    assert_eq!(decode_networked_entities(&[0, 0, 0]), None);
    // Count says one row but no row bytes follow.
    assert_eq!(decode_networked_entities(&[1, 0, 0, 0]), None);
    // One spare byte after an empty snapshot.
    assert_eq!(decode_networked_entities(&[0, 0, 0, 0, 0]), None);
    // Count says one row, one byte short.
    let mut b = vec![1u8, 0, 0, 0];
    b.extend_from_slice(&[0u8; 147]);
    assert_eq!(decode_networked_entities(&b), None);
}

#[test]
fn networked_entities_row_carries_four_wheels() {
    let m = sample_snapshot();
    let bytes = encode_networked_entities(&m);
    let back = decode_networked_entities(&bytes).unwrap();
    for i in 0..back.entities.len() {
        assert_eq!(back.wheels_translations[i].len(), 4);
        assert_eq!(back.wheels_rotations[i].len(), 4);
    }
}
