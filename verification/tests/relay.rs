use smo_relay::packet::{ConnectionType, Content, Packet};
use smo_relay::server::{
    HandshakeOutcome, Server, ServerError, StepOutcome, Termination, MAX_PLAYER,
};
use smo_relay::settings::{BanList, Settings};

fn permissive(merge: bool) -> Settings {
    Settings {
        is_merge_enabled: merge,
        ban_list: BanList {
            addresses: Vec::new(),
            ids: Vec::new(),
        },
    }
}

fn connect_packet(id: u128, name: &str) -> Packet {
    Packet::new(
        id,
        Content::Connect {
            connection_type: ConnectionType::First,
            max_player: MAX_PLAYER,
            client_name: name.to_owned(),
        },
    )
}

fn game_packet(id: u128, is_2d: bool, scenario: u8, stage: &str) -> Packet {
    Packet::new(
        id,
        Content::Game {
            is_2d,
            scenario,
            stage: stage.to_owned(),
        },
    )
}

fn join(server: &mut Server, id: u128, addr: u128, name: &str) -> HandshakeOutcome {
    server.process_handshake(addr, &connect_packet(id, name))
}

#[test]
fn init_packet_advertises_capacity() {
    let p = Server::init_packet(42);
    assert_eq!(p.id, 42);
    match p.content {
        Content::Init { max_player } => assert_eq!(max_player, 10),
        _ => panic!("the first advertisement must be an init"),
    }
}

#[test]
fn capacity_gate_rejects_extra_handshake() {
    let mut server = Server::new(permissive(false));
    for i in 0..u128::from(MAX_PLAYER) {
        match join(&mut server, i + 1, 1000 + i, "P") {
            HandshakeOutcome::Created { .. } => {}
            _ => panic!("handshake {} should have been admitted", i),
        }
    }
    assert_eq!(server.registry.count_connected(), usize::from(MAX_PLAYER));
    match join(&mut server, 999, 2000, "Late") {
        HandshakeOutcome::Rejected(e) => assert_eq!(e, ServerError::CapacityExceeded),
        _ => panic!("handshake beyond capacity must be rejected"),
    }
    // a slot freed by a disconnect can be taken again
    server.disconnect_peer(1);
    match join(&mut server, 999, 2000, "Late") {
        HandshakeOutcome::Created { .. } => {}
        _ => panic!("freed slot must be usable"),
    }
}

#[test]
fn disconnected_identity_can_reconnect_at_full_house() {
    let mut server = Server::new(permissive(false));
    for i in 0..u128::from(MAX_PLAYER) {
        join(&mut server, i + 1, 1000 + i, "P");
    }
    server.disconnect_peer(3);
    // nine connected peers remain, so the freed identity fits again
    match join(&mut server, 3, 1003, "P") {
        HandshakeOutcome::Reconnected => {}
        _ => panic!("a disconnected identity must be able to return"),
    }
    assert_eq!(server.registry.count_connected(), usize::from(MAX_PLAYER));
}

#[test]
fn first_message_must_be_connect() {
    let mut server = Server::new(permissive(false));
    let outcome = server.process_handshake(7, &game_packet(1, false, 1, "AnyStage"));
    match outcome {
        HandshakeOutcome::Rejected(e) => assert_eq!(e, ServerError::ProtocolViolation),
        _ => panic!("non-connect first message must be rejected"),
    }
    assert_eq!(server.registry.peers.len(), 0);
    assert_eq!(server.players.players.len(), 0);
}

#[test]
fn reconnect_reuses_player_record() {
    let mut server = Server::new(permissive(false));
    join(&mut server, 1, 10, "Mario");
    let costume = Packet::new(
        1,
        Content::Costume {
            body: "Builder".to_owned(),
            cap: "Cap1".to_owned(),
        },
    );
    server.process_packet(1, &costume);
    server.process_packet(1, &game_packet(1, true, 3, "SandWorldHomeStage"));
    server.disconnect_peer(1);
    assert!(!server.registry.peers[0].connected);

    match join(&mut server, 1, 11, "Mario") {
        HandshakeOutcome::Reconnected => {}
        _ => panic!("existing identity must take the reconnect path"),
    }
    assert_eq!(server.players.players.len(), 1, "no duplicate record");
    let player = &server.players.players[0];
    let c = player.costume.as_ref().expect("costume kept");
    assert_eq!(c.body, "Builder");
    assert_eq!(c.cap, "Cap1");
    assert_eq!(player.scenario, Some(3));
    assert!(player.is_2d);
    assert!(!player.is_speedrun);
    assert_eq!(server.registry.peers.len(), 1);
    assert!(server.registry.peers[0].connected);
    assert_eq!(server.registry.peers[0].address, 11);
}

#[test]
fn broadcast_reaches_all_but_sender() {
    let mut server = Server::new(permissive(false));
    join(&mut server, 1, 10, "Mario");
    join(&mut server, 2, 20, "Luigi");
    join(&mut server, 3, 30, "Wario");
    let packet = game_packet(2, false, 1, "MetroWorldHomeStage");
    let deliveries = server.broadcast(&packet);
    let recipients: Vec<u128> = deliveries.iter().map(|d| d.recipient).collect();
    assert_eq!(recipients, vec![1, 3]);
    for d in &deliveries {
        assert_ne!(d.recipient, 2, "a sender never receives its own packet");
        assert_eq!(d.packet.id, 2);
    }
}

#[test]
fn merge_mode_substitutes_recipient_scenario() {
    let mut server = Server::new(permissive(true));
    join(&mut server, 1, 10, "Mario");
    join(&mut server, 2, 20, "Luigi");
    join(&mut server, 3, 30, "Wario");
    // recipient 2 has a known scenario, recipient 3 has none
    server.process_packet(2, &game_packet(2, true, 5, "LakeWorldHomeStage"));

    let outcome: StepOutcome = server.process_packet(1, &game_packet(1, false, 1, "SnowWorldHomeStage"));
    // merged copies to 2 and 3, then the plain relay to 2 and 3
    assert_eq!(outcome.deliveries.len(), 4);

    let merged_to_2 = &outcome.deliveries[0];
    assert_eq!(merged_to_2.recipient, 2);
    match &merged_to_2.packet.content {
        Content::Game {
            is_2d,
            scenario,
            stage,
        } => {
            assert!(!is_2d, "2d flag stays the sender's");
            assert_eq!(*scenario, 5, "scenario becomes the recipient's own");
            assert_eq!(stage, "SnowWorldHomeStage", "stage stays the sender's");
        }
        _ => panic!("merged copy must stay a game packet"),
    }

    let merged_to_3 = &outcome.deliveries[1];
    assert_eq!(merged_to_3.recipient, 3);
    match &merged_to_3.packet.content {
        Content::Game { scenario, .. } => {
            assert_eq!(*scenario, 200, "default scenario when none is known")
        }
        _ => panic!("merged copy must stay a game packet"),
    }

    let plain_to_2 = &outcome.deliveries[2];
    assert_eq!(plain_to_2.recipient, 2);
    match &plain_to_2.packet.content {
        Content::Game { scenario, .. } => assert_eq!(*scenario, 1, "plain relay is unmodified"),
        _ => panic!("relay must keep the content"),
    }
    assert_eq!(outcome.deliveries[3].recipient, 3);
}

#[test]
fn merge_fallback_without_sender_record() {
    let mut server = Server::new(permissive(true));
    join(&mut server, 1, 10, "Mario");
    join(&mut server, 2, 20, "Luigi");
    let stray = game_packet(77, true, 9, "CityWorldHomeStage");
    let deliveries = server.broadcast_map(&stray);
    assert_eq!(deliveries.len(), 2);
    for d in &deliveries {
        match &d.packet.content {
            Content::Game { scenario, .. } => {
                assert_eq!(*scenario, 9, "unknown sender: packet passes unmodified")
            }
            _ => panic!("content must be kept"),
        }
    }
}

#[test]
fn speedrun_flag_follows_stage_rules() {
    let mut server = Server::new(permissive(false));
    join(&mut server, 1, 10, "Mario");
    server.process_packet(1, &game_packet(1, false, 2, "SandWorldHomeStage"));
    {
        let player = &server.players.players[0];
        assert!(!player.is_speedrun);
    }

    let outcome = server.process_packet(1, &game_packet(1, false, 0, "CapWorldHomeStage"));
    assert!(outcome.persist_shines, "emptied shine set must be persisted");
    {
        let player = &server.players.players[0];
        assert!(player.is_speedrun);
        assert!(player.shine_sync.is_empty());
        assert_eq!(player.scenario, Some(0));
    }

    // the cap stage at another scenario does not trigger the rule
    let outcome = server.process_packet(1, &game_packet(1, false, 1, "CapWorldHomeStage"));
    assert!(!outcome.persist_shines);
    assert!(server.players.players[0].is_speedrun, "flag stays set");

    let outcome = server.process_packet(1, &game_packet(1, false, 1, "WaterfallWorldHomeStage"));
    assert!(!outcome.persist_shines);
    assert!(!server.players.players[0].is_speedrun, "waterfall clears it");
}

#[test]
fn denylisted_peer_is_never_registered() {
    let mut server = Server::new(Settings {
        is_merge_enabled: false,
        ban_list: BanList {
            addresses: vec![66],
            ids: vec![9],
        },
    });
    match join(&mut server, 9, 10, "BannedId") {
        HandshakeOutcome::Rejected(e) => assert_eq!(e, ServerError::PolicyRejected),
        _ => panic!("banned id must be rejected"),
    }
    assert_eq!(server.registry.peers.len(), 0, "never inserted");
    assert_eq!(server.players.players.len(), 0, "no record is left behind");

    // a second attempt by the same banned id finds no planted record and
    // is rejected again, never taking the reconnect path
    match join(&mut server, 9, 10, "BannedId") {
        HandshakeOutcome::Rejected(e) => assert_eq!(e, ServerError::PolicyRejected),
        _ => panic!("a banned id must stay banned on retry"),
    }
    assert_eq!(server.registry.peers.len(), 0, "never inserted");
    assert_eq!(server.players.players.len(), 0, "no record is left behind");

    match join(&mut server, 2, 66, "BannedAddr") {
        HandshakeOutcome::Rejected(e) => assert_eq!(e, ServerError::PolicyRejected),
        _ => panic!("banned address must be rejected"),
    }
    assert_eq!(server.registry.peers.len(), 0, "never inserted");
    assert_eq!(server.players.players.len(), 0, "no record is left behind");

    // a banned peer also receives no packets: it is no broadcast target
    join(&mut server, 3, 30, "Fine");
    let deliveries = server.broadcast(&game_packet(3, false, 1, "AnyStage"));
    assert!(deliveries.is_empty());
}

#[test]
fn id_mismatch_terminates_only_its_connection() {
    let mut server = Server::new(permissive(false));
    join(&mut server, 1, 10, "Mario");
    join(&mut server, 2, 20, "Luigi");
    let spoof = game_packet(2, false, 1, "AnyStage");
    let outcome = server.process_packet(1, &spoof);
    assert_eq!(
        outcome.terminate,
        Some(Termination::Fault(ServerError::ProtocolViolation))
    );
    assert!(outcome.deliveries.is_empty());
    // every other connection stays active
    assert!(server.registry.peers.iter().all(|p| p.connected));
    assert_eq!(server.players.players.len(), 2);
}

#[test]
fn missing_player_record_is_a_consistency_violation() {
    let mut server = Server::new(permissive(false));
    let packet = game_packet(5, false, 1, "AnyStage");
    let outcome = server.process_packet(5, &packet);
    assert_eq!(
        outcome.terminate,
        Some(Termination::Fault(ServerError::ConsistencyViolation))
    );
    assert!(outcome.deliveries.is_empty());
}

#[test]
fn join_catch_up_carries_last_game_packets() {
    let mut server = Server::new(permissive(false));
    join(&mut server, 1, 10, "Mario");
    server.process_packet(1, &game_packet(1, true, 4, "LuncheonWorldHomeStage"));
    match join(&mut server, 2, 20, "Luigi") {
        HandshakeOutcome::Created { catch_up } => {
            assert_eq!(catch_up.len(), 1);
            assert_eq!(catch_up[0].id, 1);
            match &catch_up[0].content {
                Content::Game {
                    is_2d,
                    scenario,
                    stage,
                } => {
                    assert!(*is_2d);
                    assert_eq!(*scenario, 4);
                    assert_eq!(stage, "LuncheonWorldHomeStage");
                }
                _ => panic!("catch-up must be the last game packet"),
            }
        }
        _ => panic!("fresh identity must take the create path"),
    }
}

#[test]
fn join_announcements_reach_other_peers() {
    let mut server = Server::new(permissive(false));
    join(&mut server, 1, 10, "Mario");
    join(&mut server, 2, 20, "Luigi");
    let costume = Packet::new(
        2,
        Content::Costume {
            body: "Builder".to_owned(),
            cap: "Cap1".to_owned(),
        },
    );
    server.process_packet(2, &costume);

    let announcements = server.join_announcements(2);
    // one connect announcement and one costume packet, to the one other peer
    assert_eq!(announcements.len(), 2);
    assert_eq!(announcements[0].recipient, 1);
    match &announcements[0].packet.content {
        Content::Connect {
            connection_type,
            client_name,
            ..
        } => {
            assert_eq!(*connection_type, ConnectionType::First);
            assert_eq!(client_name, "Luigi");
        }
        _ => panic!("first announcement must be a connect"),
    }
    assert_eq!(announcements[1].recipient, 1);
    match &announcements[1].packet.content {
        Content::Costume { body, cap } => {
            assert_eq!(body, "Builder");
            assert_eq!(cap, "Cap1");
        }
        _ => panic!("second announcement must be the costume"),
    }
}

#[test]
fn count_skips_disconnected_entries_in_the_middle() {
    let mut server = Server::new(permissive(false));
    join(&mut server, 1, 10, "Mario");
    join(&mut server, 2, 20, "Luigi");
    join(&mut server, 3, 30, "Wario");
    // the disconnected entry sits between two connected ones
    server.disconnect_peer(2);
    assert_eq!(server.registry.count_connected(), 2);
}

#[test]
fn session_of_three_with_disconnect() {
    let mut server = Server::new(permissive(false));
    join(&mut server, 1, 10, "Mario");
    join(&mut server, 2, 20, "Luigi");
    join(&mut server, 3, 30, "Wario");

    let costume = Packet::new(
        2,
        Content::Costume {
            body: "Builder".to_owned(),
            cap: "Cap1".to_owned(),
        },
    );
    let outcome = server.process_packet(2, &costume);
    assert_eq!(outcome.terminate, None);
    let to_1: Vec<_> = outcome.deliveries.iter().filter(|d| d.recipient == 1).collect();
    let to_2: Vec<_> = outcome.deliveries.iter().filter(|d| d.recipient == 2).collect();
    let to_3: Vec<_> = outcome.deliveries.iter().filter(|d| d.recipient == 3).collect();
    assert_eq!(to_1.len(), 1, "exactly one relayed costume for Mario");
    assert_eq!(to_3.len(), 1, "exactly one relayed costume for Wario");
    assert!(to_2.is_empty(), "Luigi never sees its own packet");
    assert_eq!(to_1[0].packet.id, 2, "tagged with the sender's id");
    assert_eq!(to_3[0].packet.id, 2);

    let bye = Packet::new(1, Content::Disconnect);
    let outcome = server.process_packet(1, &bye);
    assert_eq!(outcome.terminate, Some(Termination::CleanDisconnect));
    let observers: Vec<u128> = outcome.deliveries.iter().map(|d| d.recipient).collect();
    assert_eq!(observers, vec![2, 3], "the others observe the disconnect");
    server.disconnect_peer(1);
    assert!(!server.registry.peers[0].connected);
    assert!(server.registry.peers[1].connected);
    assert!(server.registry.peers[2].connected);

    match join(&mut server, 4, 40, "Peach") {
        HandshakeOutcome::Created { .. } => {}
        _ => panic!("a new connection can join after the disconnect"),
    }
}

#[test]
fn tag_and_unknown_content_relay_without_mutation() {
    let mut server = Server::new(permissive(false));
    join(&mut server, 1, 10, "Mario");
    join(&mut server, 2, 20, "Luigi");
    let tag = Packet::new(
        1,
        Content::Tag {
            update_type: 1,
            is_it: true,
            seconds: 30,
            minutes: 2,
        },
    );
    let outcome = server.process_packet(1, &tag);
    assert_eq!(outcome.terminate, None);
    assert_eq!(outcome.deliveries.len(), 1);
    assert_eq!(outcome.deliveries[0].recipient, 2);

    let opaque = Packet::new(
        1,
        Content::Other {
            kind: 42,
            data: vec![1, 2, 3],
        },
    );
    let outcome = server.process_packet(1, &opaque);
    assert_eq!(outcome.deliveries.len(), 1);
    match &outcome.deliveries[0].packet.content {
        Content::Other { kind, data } => {
            assert_eq!(*kind, 42);
            assert_eq!(data, &vec![1, 2, 3]);
        }
        _ => panic!("opaque content passes through unchanged"),
    }
    // no mutation from either packet
    let player = &server.players.players[0];
    assert_eq!(player.scenario, None);
    assert!(player.costume.is_none());
}
