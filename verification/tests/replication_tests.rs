use garage_arena::client::{ClientContext, LocalEntity};
use garage_arena::mapping::NetworkMapping;
use garage_arena::server::{
    controls_from_input, drain_commands, Destination, OutboundMessage, ServerContext,
};
use garage_arena::wire::{
    connection_config, ChannelPolicy, ClientChannel, NetworkedEntities, PlayerCommand,
    PlayerInput, QuatBits, SendKind, ServerChannel, ServerMessages, Transform, Vec3Bits,
};

fn v3(x: u32, y: u32, z: u32) -> Vec3Bits {
    Vec3Bits { x, y, z }
}

fn q4(x: u32, y: u32, z: u32, w: u32) -> QuatBits {
    QuatBits { x, y, z, w }
}

fn tf(t: Vec3Bits, r: QuatBits) -> Transform {
    Transform { translation: t, rotation: r }
}

/// Hands a tick's outbound lifecycle messages to one client, keeping only
/// what that client would receive.
fn deliver(client: &mut ClientContext, client_id: u64, out: &[OutboundMessage]) {
    for m in out {
        match m.to {
            Destination::Client { id } => {
                if id == client_id {
                    client.apply_server_message(&m.message);
                }
            }
            Destination::AllClients => client.apply_server_message(&m.message),
        }
    }
}

#[test]
fn join_sequence() {
    let mut server = ServerContext::new();
    let mut client_a = ClientContext::new(100);

    // Client A connects; the server has no existing players.
    let out_a = server.handle_connect(100, v3(1, 2, 3));
    assert_eq!(out_a.len(), 1);
    assert_eq!(out_a[0].to, Destination::AllClients);
    assert_eq!(
        out_a[0].message,
        ServerMessages::PlayerCreate { entity: 0, id: 100, translation: v3(1, 2, 3) }
    );
    deliver(&mut client_a, 100, &out_a);

    // A spawned exactly one controlled entity and mapped it.
    assert_eq!(client_a.mapping.len(), 1);
    assert_eq!(client_a.mapping.resolve(0), Some(0));
    let car_a = client_a.world.get(0).unwrap();
    assert!(car_a.controlled);
    assert_eq!(car_a.transform.translation, v3(1, 2, 3));
    assert_eq!(car_a.wheels.len(), 4);

    // Client B connects; it must hear about A, then about itself.
    let mut client_b = ClientContext::new(200);
    let out_b = server.handle_connect(200, v3(4, 5, 6));
    assert_eq!(out_b.len(), 2);
    assert_eq!(out_b[0].to, Destination::Client { id: 200 });
    assert_eq!(
        out_b[0].message,
        ServerMessages::PlayerCreate { entity: 0, id: 100, translation: v3(1, 2, 3) }
    );
    assert_eq!(out_b[1].to, Destination::AllClients);
    assert_eq!(
        out_b[1].message,
        ServerMessages::PlayerCreate { entity: 1, id: 200, translation: v3(4, 5, 6) }
    );
    deliver(&mut client_a, 100, &out_b);
    deliver(&mut client_b, 200, &out_b);

    // Two entries in B's mapping; the second car is its own.
    assert_eq!(client_b.mapping.len(), 2);
    assert!(!client_b.world.get(client_b.mapping.resolve(0).unwrap()).unwrap().controlled);
    assert!(client_b.world.get(client_b.mapping.resolve(1).unwrap()).unwrap().controlled);

    // A received one broadcast for B: two entries in A's mapping.
    assert_eq!(client_a.mapping.len(), 2);
    assert!(!client_a.world.get(client_a.mapping.resolve(1).unwrap()).unwrap().controlled);
}

#[test]
fn disconnect_cleanup() {
    let mut server = ServerContext::new();
    let mut client_a = ClientContext::new(100);
    let mut client_b = ClientContext::new(200);
    let out = server.handle_connect(100, v3(0, 0, 0));
    deliver(&mut client_a, 100, &out);
    deliver(&mut client_b, 200, &out);
    let out = server.handle_connect(200, v3(9, 9, 9));
    deliver(&mut client_a, 100, &out);
    deliver(&mut client_b, 200, &out);
    assert_eq!(client_a.mapping.len(), 2);
    assert_eq!(client_b.mapping.len(), 2);

    // B disconnects: everyone hears one PlayerRemove for B.
    let out = server.handle_disconnect(200);
    assert_eq!(out.len(), 1);
    assert_eq!(out[0].to, Destination::AllClients);
    assert_eq!(out[0].message, ServerMessages::PlayerRemove { id: 200 });
    let b_local_in_a = client_a.mapping.resolve(1).unwrap();
    deliver(&mut client_a, 100, &out);
    deliver(&mut client_b, 200, &out);

    // B's entity is despawned everywhere; mapping entries are erased.
    assert_eq!(client_a.mapping.len(), 1);
    assert_eq!(client_a.mapping.resolve(1), None);
    assert!(client_a.world.get(b_local_in_a).is_none());
    assert!(client_a.lobby.get(200).is_none());
    assert_eq!(client_b.mapping.len(), 1);
    assert_eq!(client_b.mapping.resolve(1), None);
    assert!(client_b.lobby.get(200).is_none());

    // Disconnecting an unknown client is a no-op on the lobby.
    let out = server.handle_disconnect(999);
    assert_eq!(out.len(), 1);
    assert_eq!(out[0].message, ServerMessages::PlayerRemove { id: 999 });
    // Removing an unknown player on a client is tolerated too.
    deliver(&mut client_a, 100, &out);
    assert_eq!(client_a.mapping.len(), 1);
}

#[test]
fn snapshot_applies_transforms_and_wheels_by_index() {
    let mut server = ServerContext::new();
    let mut client = ClientContext::new(100);
    let out = server.handle_connect(100, v3(0, 0, 0));
    deliver(&mut client, 100, &out);

    // The physics engine moved the car and its wheels.
    let body = tf(v3(11, 12, 13), q4(1, 2, 3, 4));
    let wheels = [
        tf(v3(21, 0, 0), q4(1, 0, 0, 1)),
        tf(v3(22, 0, 0), q4(2, 0, 0, 1)),
        tf(v3(23, 0, 0), q4(3, 0, 0, 1)),
        tf(v3(24, 0, 0), q4(4, 0, 0, 1)),
    ];
    assert!(server.set_player_transforms(0, body, wheels));
    let snap = server.build_snapshot();
    assert_eq!(snap.entities, vec![0]);
    assert_eq!(snap.translations, vec![v3(11, 12, 13)]);
    assert_eq!(snap.wheels_translations[0].len(), 4);

    client.apply_snapshot(&snap);
    let car = client.world.get(0).unwrap();
    assert_eq!(car.transform, body);
    assert_eq!(car.wheels.len(), 4);
    for j in 0..4 {
        assert_eq!(car.wheels[j], wheels[j]);
    }
}

#[test]
fn snapshot_applied_twice_is_idempotent() {
    let mut server = ServerContext::new();
    let mut client = ClientContext::new(100);
    let out = server.handle_connect(100, v3(0, 0, 0));
    deliver(&mut client, 100, &out);
    server.set_player_transforms(
        0,
        tf(v3(7, 8, 9), q4(0, 0, 0, 1)),
        [tf(v3(1, 0, 0), q4(0, 0, 0, 1)); 4],
    );
    let snap = server.build_snapshot();

    client.apply_snapshot(&snap);
    let once_transform = client.world.get(0).unwrap().transform;
    let once_wheels = client.world.get(0).unwrap().wheels.clone();
    client.apply_snapshot(&snap);
    let twice = client.world.get(0).unwrap();
    assert_eq!(twice.transform, once_transform);
    assert_eq!(twice.wheels, once_wheels);
}

#[test]
fn unresolved_snapshot_row_is_skipped() {
    let mut server = ServerContext::new();
    let mut client = ClientContext::new(100);
    let out = server.handle_connect(100, v3(1, 1, 1));
    deliver(&mut client, 100, &out);
    let before = client.world.get(0).unwrap().transform;

    // A row for server entity 42, never announced to this client.
    let snap = NetworkedEntities {
        entities: vec![42],
        translations: vec![v3(99, 99, 99)],
        rotations: vec![q4(9, 9, 9, 9)],
        wheels_translations: vec![[v3(0, 0, 0); 4]],
        wheels_rotations: vec![[q4(0, 0, 0, 1); 4]],
    };
    client.apply_snapshot(&snap);
    assert_eq!(client.world.get(0).unwrap().transform, before);
    assert_eq!(client.mapping.len(), 1);

    // A mixed snapshot still applies the resolved row.
    let snap = NetworkedEntities {
        entities: vec![42, 0],
        translations: vec![v3(99, 99, 99), v3(5, 5, 5)],
        rotations: vec![q4(9, 9, 9, 9), q4(0, 0, 0, 1)],
        wheels_translations: vec![[v3(0, 0, 0); 4]; 2],
        wheels_rotations: vec![[q4(0, 0, 0, 1); 4]; 2],
    };
    client.apply_snapshot(&snap);
    assert_eq!(client.world.get(0).unwrap().transform.translation, v3(5, 5, 5));
}

#[test]
fn entity_without_four_wheels_keeps_wheels() {
    let mut server = ServerContext::new();
    let mut client = ClientContext::new(100);
    let out = server.handle_connect(100, v3(1, 1, 1));
    deliver(&mut client, 100, &out);

    // Strip the local car down to one wheel sub-entity.
    let lone_wheel = tf(v3(77, 0, 0), q4(0, 0, 0, 1));
    {
        let e: &mut LocalEntity = client.world.get_mut_at(0);
        e.wheels = vec![lone_wheel];
    }
    server.set_player_transforms(
        0,
        tf(v3(7, 8, 9), q4(0, 0, 0, 1)),
        [tf(v3(1, 2, 3), q4(0, 0, 0, 1)); 4],
    );
    let snap = server.build_snapshot();
    client.apply_snapshot(&snap);
    let car = client.world.get(0).unwrap();
    // Top-level transform is still applied; wheels are left alone.
    assert_eq!(car.transform.translation, v3(7, 8, 9));
    assert_eq!(car.wheels, vec![lone_wheel]);
}

#[test]
fn duplicate_create_is_ignored() {
    let mut client = ClientContext::new(100);
    let create = ServerMessages::PlayerCreate { entity: 5, id: 100, translation: v3(1, 1, 1) };
    client.apply_server_message(&create);
    assert_eq!(client.mapping.len(), 1);
    let again = ServerMessages::PlayerCreate { entity: 5, id: 100, translation: v3(2, 2, 2) };
    client.apply_server_message(&again);
    assert_eq!(client.mapping.len(), 1);
    // The first spawn position stands: the duplicate did not respawn it.
    let local = client.mapping.resolve(5).unwrap();
    assert_eq!(client.world.get(local).unwrap().transform.translation, v3(1, 1, 1));
}

#[test]
fn input_coalescing_keeps_only_last() {
    let mut server = ServerContext::new();
    let _ = server.handle_connect(100, v3(0, 0, 0));
    let queued = vec![
        PlayerInput { up: true, down: false, left: false, right: false },
        PlayerInput { up: false, down: true, left: false, right: false },
        PlayerInput { up: false, down: false, left: true, right: false },
    ];
    server.ingest_inputs(100, &queued);
    let controls = server.desired_controls();
    assert_eq!(controls.len(), 1);
    assert_eq!(controls[0].0, 0);
    // Only the last queued input shapes the control state.
    assert!(!controls[0].1.gas_on);
    assert!(!controls[0].1.brake_on);
    assert_eq!(controls[0].1.steering, -1);
}

#[test]
fn inputs_for_unknown_client_are_dropped() {
    let mut server = ServerContext::new();
    let _ = server.handle_connect(100, v3(0, 0, 0));
    let queued = vec![PlayerInput { up: true, down: false, left: false, right: false }];
    server.ingest_inputs(999, &queued);
    let controls = server.desired_controls();
    assert!(!controls[0].1.gas_on);
}

#[test]
fn controls_mapping() {
    let c = controls_from_input(&PlayerInput { up: true, down: false, left: false, right: false });
    assert!(c.gas_on && !c.brake_on && c.steering == 0);
    let c = controls_from_input(&PlayerInput { up: false, down: true, left: true, right: false });
    assert!(!c.gas_on && c.brake_on && c.steering == -1);
    let c = controls_from_input(&PlayerInput { up: false, down: false, left: false, right: true });
    assert_eq!(c.steering, 1);
    // Both directions held: right wins, as the simulation applies them.
    let c = controls_from_input(&PlayerInput { up: false, down: false, left: true, right: true });
    assert_eq!(c.steering, 1);
    let c = controls_from_input(&PlayerInput { up: false, down: false, left: false, right: false });
    assert_eq!(c.steering, 0);
}

#[test]
fn commands_drain_in_order() {
    let commands = vec![
        PlayerCommand::BasicAttack { cast_at: v3(1, 0, 0) },
        PlayerCommand::BasicAttack { cast_at: v3(2, 0, 0) },
        PlayerCommand::BasicAttack { cast_at: v3(3, 0, 0) },
    ];
    let events = drain_commands(42, &commands);
    assert_eq!(events.len(), 3);
    for (i, e) in events.iter().enumerate() {
        assert_eq!(e.client_id, 42);
        assert_eq!(e.cast_at, v3(i as u32 + 1, 0, 0));
    }
}

#[test]
fn mapping_record_resolve_erase() {
    let mut m = NetworkMapping::new();
    assert!(m.record(10, 0));
    assert_eq!(m.resolve(10), Some(0));
    // A second record for the same server id is refused, not overwritten.
    assert!(!m.record(10, 7));
    assert_eq!(m.resolve(10), Some(0));
    assert_eq!(m.resolve(11), None);
    m.erase(10);
    assert_eq!(m.resolve(10), None);
    // Erasing a missing key is a no-op.
    m.erase(10);
    assert_eq!(m.len(), 0);
}

#[test]
fn channel_tables() {
    assert_eq!(u8::from(ClientChannel::Command), 0);
    assert_eq!(u8::from(ClientChannel::Input), 1);
    assert_eq!(u8::from(ServerChannel::NetworkedEntities), 0);
    assert_eq!(u8::from(ServerChannel::ServerMessages), 1);

    let cc = ClientChannel::channels_config();
    assert_eq!(
        cc,
        vec![
            ChannelPolicy {
                channel_id: 1,
                max_memory_usage_bytes: 5 * 1024 * 1024,
                send: SendKind::ReliableOrdered { resend_time_ms: 0 },
            },
            ChannelPolicy {
                channel_id: 0,
                max_memory_usage_bytes: 5 * 1024 * 1024,
                send: SendKind::ReliableOrdered { resend_time_ms: 0 },
            },
        ]
    );
    let sc = ServerChannel::channels_config();
    assert_eq!(
        sc,
        vec![
            ChannelPolicy {
                channel_id: 0,
                max_memory_usage_bytes: 10 * 1024 * 1024,
                send: SendKind::Unreliable,
            },
            ChannelPolicy {
                channel_id: 1,
                max_memory_usage_bytes: 10 * 1024 * 1024,
                send: SendKind::ReliableOrdered { resend_time_ms: 200 },
            },
        ]
    );

    let conn = connection_config();
    assert_eq!(conn.available_bytes_per_tick, 1024 * 1024);
    assert_eq!(conn.client_channels_config, cc);
    assert_eq!(conn.server_channels_config, sc);
    assert_eq!(garage_arena::PROTOCOL_ID, 7);
}

#[test]
fn sampled_input_matches_directives() {
    let m = garage_arena::client::sample_player_input(true, false, false, true);
    assert_eq!(m, PlayerInput { up: true, down: false, left: false, right: true });
}
