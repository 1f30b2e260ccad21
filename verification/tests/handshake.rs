use lobby_core::lobby::{InLobby, LobbyState};
use lobby_core::maps::{MapConfig, MapDefinition, TeamColor, TeamConfig};
use lobby_core::messages::{ClientType, FirstContactData};
use lobby_core::server::{FirstContactError, GameServer};
use lobby_core::session::AwaitingFirstContact;

fn forest_config() -> MapConfig {
    MapConfig {
        teams: vec![
            (
                String::from("red"),
                TeamConfig {
                    color: TeamColor { r: 200, g: 40, b: 40 },
                    max_players: 3,
                    players: Vec::new(),
                },
            ),
            (
                String::from("blue"),
                TeamConfig {
                    color: TeamColor { r: 40, g: 40, b: 200 },
                    max_players: 3,
                    players: Vec::new(),
                },
            ),
        ],
        map: MapDefinition {
            width: 8,
            height: 8,
            tiles: Vec::new(),
            layers: Vec::new(),
            markers: Vec::new(),
        },
    }
}

fn handshake(
    name: &str,
    lobby: &str,
    map: Option<&str>,
    team: Option<&str>,
    client_type: ClientType,
) -> FirstContactData {
    FirstContactData {
        bot_name: String::from(name),
        lobby_name: String::from(lobby),
        map_name: map.map(String::from),
        team_name: team.map(String::from),
        client_type,
    }
}

#[test]
fn first_handshake_creates_and_resolves_the_lobby() {
    let mut server = GameServer::new(100);
    let a = server.accept_connection(String::from("10.0.0.1:4000"));
    let msg = handshake("botA", "L1", Some("forest"), Some("red"), ClientType::Player);
    let e = server
        .handle_first_contact_message(a, &msg, Some(forest_config()))
        .unwrap();
    // the lobby exists, is setting up, and botA is its roster
    assert_eq!(server.lobby_management.lobby_resource.lobbies.len(), 1);
    assert_eq!(server.lobby_management.lobby_resource.lobbies[0].0, String::from("L1"));
    let lobby = &server.lobby_management.lobby_entities[0].1;
    assert_eq!(lobby.state, LobbyState::SettingUp);
    assert_eq!(lobby.players, vec![a]);
    assert_eq!(lobby.map_name, String::from("forest"));
    // the map resolved, so botA sits in team red
    let mc = lobby.map_config.as_ref().unwrap();
    assert_eq!(mc.teams[0].0, String::from("red"));
    assert_eq!(mc.teams[0].1.players, vec![a]);
    // and botA's handshake countdown is cleared, its session bound
    let client = server.clients.get_client(a).unwrap();
    assert!(client.awaiting_first_contact.is_none());
    assert_eq!(client.in_lobby, Some(InLobby(e)));
    assert_eq!(client.name, Some(String::from("botA")));
}

#[test]
fn second_handshake_joins_the_existing_lobby() {
    let mut server = GameServer::new(100);
    let a = server.accept_connection(String::from("10.0.0.1:4000"));
    let first = handshake("botA", "L1", Some("forest"), Some("red"), ClientType::Player);
    let e = server
        .handle_first_contact_message(a, &first, Some(forest_config()))
        .unwrap();
    let b = server.accept_connection(String::from("10.0.0.2:4000"));
    // no map name: the directory returns the existing lobby
    let second = handshake("botB", "L1", None, Some("blue"), ClientType::Player);
    let e2 = server.handle_first_contact_message(b, &second, None).unwrap();
    assert_eq!(e, e2);
    let lobby = &server.lobby_management.lobby_entities[0].1;
    assert_eq!(lobby.players, vec![a, b]);
    // the configuration is already resolved, so team blue fills at once
    let mc = lobby.map_config.as_ref().unwrap();
    assert_eq!(mc.teams[1].0, String::from("blue"));
    assert_eq!(mc.teams[1].1.players, vec![b]);
    let client = server.clients.get_client(b).unwrap();
    assert!(client.awaiting_first_contact.is_none());
    assert_eq!(client.in_lobby, Some(InLobby(e)));
}

#[test]
fn removal_returns_players_to_the_awaiting_state() {
    let mut server = GameServer::new(100);
    let a = server.accept_connection(String::from("10.0.0.1:4000"));
    let e = server
        .handle_first_contact_message(
            a,
            &handshake("botA", "L1", Some("forest"), Some("red"), ClientType::Player),
            Some(forest_config()),
        )
        .unwrap();
    let b = server.accept_connection(String::from("10.0.0.2:4000"));
    let _ = server
        .handle_first_contact_message(
            b,
            &handshake("botB", "L1", None, Some("blue"), ClientType::Player),
            None,
        )
        .unwrap();
    // botA leaves: the lobby survives, botA re-enters the awaiting state
    assert!(server.remove_player_from_lobby(a, e));
    assert_eq!(server.lobby_management.lobby_resource.lobbies.len(), 1);
    let client_a = server.clients.get_client(a).unwrap();
    assert_eq!(client_a.awaiting_first_contact, Some(AwaitingFirstContact(100)));
    assert!(client_a.in_lobby.is_none());
    // back in the pre-lobby state: the team choice is cleared too
    assert!(client_a.team_name.is_none());
    assert_eq!(client_a.name, Some(String::from("botA")));
    // botB leaves too: the lobby is garbage-collected by the next cleanup
    assert!(server.remove_player_from_lobby(b, e));
    assert_eq!(server.lobby_management.lobby_resource.lobbies.len(), 0);
    assert_eq!(server.lobby_management.lobby_entities.len(), 0);
}

#[test]
fn empty_bot_name_is_rejected() {
    let mut server = GameServer::new(100);
    let a = server.accept_connection(String::from("10.0.0.1:4000"));
    let msg = handshake("", "L1", Some("forest"), Some("red"), ClientType::Player);
    let r = server.handle_first_contact_message(a, &msg, Some(forest_config()));
    assert_eq!(r, Err(FirstContactError::EmptyBotName));
    assert_eq!(server.lobby_management.lobby_resource.lobbies.len(), 0);
}

#[test]
fn playing_client_needs_a_team_name() {
    let mut server = GameServer::new(100);
    let a = server.accept_connection(String::from("10.0.0.1:4000"));
    let msg = handshake("botA", "L1", Some("forest"), None, ClientType::Player);
    let r = server.handle_first_contact_message(a, &msg, Some(forest_config()));
    assert_eq!(r, Err(FirstContactError::MissingTeamName));
}

#[test]
fn spectator_may_omit_the_team_name() {
    let mut server = GameServer::new(100);
    let a = server.accept_connection(String::from("10.0.0.1:4000"));
    let msg = handshake("watcher", "L1", Some("forest"), None, ClientType::Spectator);
    let e = server
        .handle_first_contact_message(a, &msg, Some(forest_config()))
        .unwrap();
    let lobby = &server.lobby_management.lobby_entities[0].1;
    assert_eq!(lobby.spectators, vec![a]);
    assert!(lobby.players.is_empty());
    let client = server.clients.get_client(a).unwrap();
    assert_eq!(client.in_lobby, Some(InLobby(e)));
}

#[test]
fn unknown_session_is_rejected() {
    let mut server = GameServer::new(100);
    let msg = handshake("botA", "L1", Some("forest"), Some("red"), ClientType::Player);
    let r = server.handle_first_contact_message(99, &msg, Some(forest_config()));
    assert_eq!(r, Err(FirstContactError::UnknownSession));
}

#[test]
fn missing_map_name_for_a_new_lobby_is_rejected() {
    let mut server = GameServer::new(100);
    let a = server.accept_connection(String::from("10.0.0.1:4000"));
    let msg = handshake("botA", "L1", None, Some("red"), ClientType::Player);
    let r = server.handle_first_contact_message(a, &msg, None);
    assert_eq!(r, Err(FirstContactError::MissingMapName));
    assert_eq!(server.lobby_management.lobby_resource.lobbies.len(), 0);
    // the identity binding made before assembly survives the failure
    let client = server.clients.get_client(a).unwrap();
    assert_eq!(client.name, Some(String::from("botA")));
    assert_eq!(client.team_name, Some(String::from("red")));
    assert!(client.in_lobby.is_none());
    assert_eq!(client.awaiting_first_contact, Some(AwaitingFirstContact(100)));
}

#[test]
fn failed_map_lookup_tears_the_fresh_lobby_down() {
    let mut server = GameServer::new(100);
    let a = server.accept_connection(String::from("10.0.0.1:4000"));
    let msg = handshake("botA", "L1", Some("nowhere"), Some("red"), ClientType::Player);
    let r = server.handle_first_contact_message(a, &msg, None);
    assert_eq!(r, Err(FirstContactError::MapNotFound));
    assert_eq!(server.lobby_management.lobby_resource.lobbies.len(), 0);
    // the would-be member is back in the awaiting state, its team
    // choice cleared, its name binding kept
    let client = server.clients.get_client(a).unwrap();
    assert_eq!(client.awaiting_first_contact, Some(AwaitingFirstContact(100)));
    assert!(client.in_lobby.is_none());
    assert!(client.team_name.is_none());
    assert_eq!(client.name, Some(String::from("botA")));
}
