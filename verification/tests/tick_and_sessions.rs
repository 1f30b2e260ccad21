use lobby_core::maps::{MapConfig, MapDefinition, TeamColor, TeamConfig};
use lobby_core::messages::{ClientType, FirstContactData, MessageTarget, NetworkMessageType};
use lobby_core::server::{process_tick_sim, GameServer, SimStep};
use lobby_core::session::{AwaitingFirstContact, SessionRegistry};

fn small_config() -> MapConfig {
    MapConfig {
        teams: vec![(
            String::from("red"),
            TeamConfig {
                color: TeamColor { r: 255, g: 0, b: 0 },
                max_players: 4,
                players: Vec::new(),
            },
        )],
        map: MapDefinition {
            width: 2,
            height: 2,
            tiles: Vec::new(),
            layers: Vec::new(),
            markers: Vec::new(),
        },
    }
}

fn player_handshake(name: &str, lobby: &str, map: Option<&str>) -> FirstContactData {
    FirstContactData {
        bot_name: String::from(name),
        lobby_name: String::from(lobby),
        map_name: map.map(String::from),
        team_name: Some(String::from("red")),
        client_type: ClientType::Player,
    }
}

#[test]
fn expired_handshake_countdown_disconnects_the_session() {
    let mut registry = SessionRegistry::new(50);
    let a = registry.register(String::from("10.0.0.1:4000")).0;
    let b = registry.register(String::from("10.0.0.2:4000")).0;
    // not yet expired: both survive with less time left
    let gone = registry.handle_awaiting_first_contact(20);
    assert!(gone.is_empty());
    assert_eq!(
        registry.get_client(a).unwrap().awaiting_first_contact,
        Some(AwaitingFirstContact(30))
    );
    // session b shakes hands in time; session a runs out
    assert!(registry.bind_handshake(b, String::from("botB"), None, ClientType::Spectator));
    assert!(registry.clear_awaiting_and_bind(b, 0));
    let gone = registry.handle_awaiting_first_contact(30);
    assert_eq!(gone.len(), 1);
    assert_eq!(gone[0].0, a);
    assert!(registry.get_client(a).is_none());
    assert!(registry.get_client(b).is_some());
}

#[test]
fn outbound_queue_keeps_send_order() {
    let mut registry = SessionRegistry::new(50);
    let a = registry.register(String::from("10.0.0.1:4000")).0;
    let first = lobby_core::messages::MessageContainer::new_sent(
        MessageTarget::AllInLobby,
        NetworkMessageType::SimpleTextMessage(lobby_core::messages::TextDataWrapper {
            message: String::from("one"),
        }),
        1,
    );
    let second = lobby_core::messages::MessageContainer::new_sent(
        MessageTarget::AllInLobby,
        NetworkMessageType::SimpleTextMessage(lobby_core::messages::TextDataWrapper {
            message: String::from("two"),
        }),
        2,
    );
    assert!(registry.push_message(a, first));
    assert!(registry.push_message(a, second));
    let drained = registry.take_outgoing(a);
    assert_eq!(drained.len(), 2);
    assert_eq!(drained[0].tick_sent, 1);
    assert_eq!(drained[1].tick_sent, 2);
    assert!(registry.take_outgoing(a).is_empty());
}

#[test]
fn a_tick_advances_every_lobby_and_plans_one_sim_step_each() {
    let mut server = GameServer::new(100);
    let a = server.accept_connection(String::from("10.0.0.1:4000"));
    let _ = server
        .handle_first_contact_message(a, &player_handshake("botA", "L1", Some("forest")), Some(small_config()))
        .unwrap();
    let b = server.accept_connection(String::from("10.0.0.2:4000"));
    let _ = server
        .handle_first_contact_message(b, &player_handshake("botB", "L2", Some("forest")), Some(small_config()))
        .unwrap();
    let lobby1 = server.lobby_management.lobby_resource.lobbies[0].1;
    let lobby2 = server.lobby_management.lobby_resource.lobbies[1].1;

    let (gone, steps) = server.run_tick(10);
    assert!(gone.is_empty());
    // one step per lobby, in directory order, at the advanced tick
    assert_eq!(steps, vec![SimStep { lobby: lobby1, tick: 1 }, SimStep { lobby: lobby2, tick: 1 }]);
    assert_eq!(server.lobby_management.lobby_entities[0].1.tick, 1);
    assert_eq!(server.lobby_management.lobby_entities[1].1.tick, 1);

    let (_, steps2) = server.run_tick(10);
    assert_eq!(steps2.len(), 2);
    assert_eq!(steps2[0].tick, 2);
    assert_eq!(steps2[1].tick, 2);
}

#[test]
fn the_broadcast_phase_queues_the_snapshot_for_every_member() {
    let mut server = GameServer::new(100);
    let a = server.accept_connection(String::from("10.0.0.1:4000"));
    let _ = server
        .handle_first_contact_message(a, &player_handshake("botA", "L1", Some("forest")), Some(small_config()))
        .unwrap();
    let b = server.accept_connection(String::from("10.0.0.2:4000"));
    let _ = server
        .handle_first_contact_message(b, &player_handshake("botB", "L1", None), None)
        .unwrap();

    let _ = server.run_tick(10);
    for session in [a, b] {
        let queued = server.clients.take_outgoing(session);
        assert_eq!(queued.len(), 1);
        assert_eq!(queued[0].target, MessageTarget::AllInLobby);
        assert_eq!(queued[0].tick_sent, 1);
        match &queued[0].message {
            NetworkMessageType::GameState(g) => assert_eq!(g.tick, 1),
            _ => panic!("a tick broadcast must carry the game state"),
        }
    }
}

#[test]
fn the_placeholder_simulation_reports_the_step_tick() {
    let state = process_tick_sim(&SimStep { lobby: 3, tick: 9 });
    assert_eq!(state.tick, 9);
    assert!(state.projectile_states.is_empty());
    assert!(state.player_states.is_empty());
}

#[test]
fn sessions_with_finished_handshake_survive_ticks() {
    let mut server = GameServer::new(15);
    let a = server.accept_connection(String::from("10.0.0.1:4000"));
    let _ = server
        .handle_first_contact_message(a, &player_handshake("botA", "L1", Some("forest")), Some(small_config()))
        .unwrap();
    let b = server.accept_connection(String::from("10.0.0.2:4000"));
    // b never shakes hands and times out after two ticks
    let (gone1, _) = server.run_tick(10);
    assert!(gone1.is_empty());
    let (gone2, _) = server.run_tick(10);
    assert_eq!(gone2.len(), 1);
    assert_eq!(gone2[0].0, b);
    assert!(server.clients.get_client(a).is_some());
    assert!(server.clients.get_client(b).is_none());
}
