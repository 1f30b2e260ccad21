use lobby_core::lobby_management::{LobbyError, LobbyManagementSystemParam};
use lobby_core::maps::{MapConfig, MapDefinition, TeamColor, TeamConfig};
use lobby_core::messages::ClientType;

fn empty_map_definition() -> MapDefinition {
    MapDefinition { width: 4, height: 4, tiles: Vec::new(), layers: Vec::new(), markers: Vec::new() }
}

fn two_team_config() -> MapConfig {
    MapConfig {
        teams: vec![
            (
                String::from("red"),
                TeamConfig {
                    color: TeamColor { r: 255, g: 0, b: 0 },
                    max_players: 4,
                    players: Vec::new(),
                },
            ),
            (
                String::from("blue"),
                TeamConfig {
                    color: TeamColor { r: 0, g: 0, b: 255 },
                    max_players: 4,
                    players: Vec::new(),
                },
            ),
        ],
        map: empty_map_definition(),
    }
}

#[test]
fn get_or_create_is_idempotent() {
    let mut dir = LobbyManagementSystemParam::new();
    let first = dir
        .get_or_insert_lobby_entity(&String::from("L1"), 7, Some(&String::from("forest")), ClientType::Player)
        .unwrap();
    // second call with a different map name returns the same lobby
    let second = dir
        .get_or_insert_lobby_entity(&String::from("L1"), 8, Some(&String::from("desert")), ClientType::Player)
        .unwrap();
    assert_eq!(first, second);
    // and a third call without any map name still returns it
    let third = dir
        .get_or_insert_lobby_entity(&String::from("L1"), 9, None, ClientType::Player)
        .unwrap();
    assert_eq!(first, third);
    assert_eq!(dir.lobby_resource.lobbies.len(), 1);
    // the existing lobby kept its original map name
    assert_eq!(dir.lobby_entities[0].1.map_name, String::from("forest"));
}

#[test]
fn unused_id_without_map_name_creates_nothing() {
    let mut dir = LobbyManagementSystemParam::new();
    let r = dir.get_or_insert_lobby_entity(&String::from("L1"), 7, None, ClientType::Player);
    assert_eq!(r, Err(LobbyError::MissingMapName));
    assert_eq!(dir.lobby_resource.lobbies.len(), 0);
    assert_eq!(dir.lobby_entities.len(), 0);
}

#[test]
fn joining_adds_to_the_requested_roster() {
    let mut dir = LobbyManagementSystemParam::new();
    let e = dir
        .get_or_insert_lobby_entity(&String::from("L1"), 7, Some(&String::from("forest")), ClientType::Player)
        .unwrap();
    let e2 = dir
        .get_or_insert_lobby_entity(&String::from("L1"), 8, Some(&String::from("forest")), ClientType::Spectator)
        .unwrap();
    assert_eq!(e, e2);
    assert_eq!(dir.lobby_entities[0].1.players, vec![7]);
    assert_eq!(dir.lobby_entities[0].1.spectators, vec![8]);
    // joining twice does not duplicate the roster entry
    let e3 = dir
        .get_or_insert_lobby_entity(&String::from("L1"), 7, None, ClientType::Player)
        .unwrap();
    assert_eq!(e, e3);
    assert_eq!(dir.lobby_entities[0].1.players, vec![7]);
}

#[test]
fn team_rosters_stay_inside_the_lobby_roster() {
    let mut dir = LobbyManagementSystemParam::new();
    let e = dir
        .get_or_insert_lobby_entity(&String::from("L1"), 7, Some(&String::from("forest")), ClientType::Player)
        .unwrap();
    let player_teams = vec![(7u64, String::from("red"))];
    assert!(dir.apply_map_config(e, two_team_config(), &player_teams));
    let _ = dir.get_or_insert_lobby_entity(&String::from("L1"), 8, None, ClientType::Player);
    assert!(dir.insert_player_into_lobby_team(e, &String::from("blue"), 8));
    // every team member is a lobby roster member, after each mutation
    let lobby = &dir.lobby_entities[0].1;
    let mc = lobby.map_config.as_ref().unwrap();
    for (_, team) in mc.teams.iter() {
        for p in team.players.iter() {
            assert!(lobby.players.contains(p));
        }
    }
    assert_eq!(mc.teams[0].1.players, vec![7]);
    assert_eq!(mc.teams[1].1.players, vec![8]);
}

#[test]
fn removing_the_last_member_garbage_collects_the_lobby() {
    let mut dir = LobbyManagementSystemParam::new();
    let e = dir
        .get_or_insert_lobby_entity(&String::from("L1"), 7, Some(&String::from("forest")), ClientType::Player)
        .unwrap();
    let _ = dir.get_or_insert_lobby_entity(&String::from("L1"), 8, None, ClientType::Player);
    assert!(dir.remove_player_from_lobby(7, e));
    // a member is left, so the lobby survives
    assert_eq!(dir.lobby_resource.lobbies.len(), 1);
    assert_eq!(dir.lobby_entities[0].1.players, vec![8]);
    assert!(dir.remove_player_from_lobby(8, e));
    // the last member left: the cleanup pass dropped the lobby
    assert_eq!(dir.lobby_resource.lobbies.len(), 0);
    assert_eq!(dir.lobby_entities.len(), 0);
}

#[test]
fn cleanup_drops_exactly_the_empty_lobbies() {
    let mut dir = LobbyManagementSystemParam::new();
    let _ = dir
        .get_or_insert_lobby_entity(&String::from("L1"), 7, Some(&String::from("forest")), ClientType::Player)
        .unwrap();
    let _ = dir
        .get_or_insert_lobby_entity(&String::from("L2"), 8, Some(&String::from("forest")), ClientType::Player)
        .unwrap();
    dir.cleanup_lobbies();
    assert_eq!(dir.lobby_resource.lobbies.len(), 2);
    assert_eq!(dir.lobby_resource.lobbies[0].0, String::from("L1"));
    assert_eq!(dir.lobby_resource.lobbies[1].0, String::from("L2"));
}

#[test]
fn setup_completion_leaves_a_resolved_lobby_alone() {
    let mut dir = LobbyManagementSystemParam::new();
    let e = dir
        .get_or_insert_lobby_entity(&String::from("L1"), 7, Some(&String::from("forest")), ClientType::Player)
        .unwrap();
    let player_teams = vec![(7u64, String::from("red"))];
    assert!(dir.apply_map_config(e, two_team_config(), &player_teams));
    // a second completion attempt with different records changes nothing
    let other_teams = vec![(7u64, String::from("blue"))];
    assert!(dir.apply_map_config(e, two_team_config(), &other_teams));
    let mc = dir.lobby_entities[0].1.map_config.as_ref().unwrap();
    assert_eq!(mc.teams[0].1.players, vec![7]);
    assert!(mc.teams[1].1.players.is_empty());
}

#[test]
fn remove_lobby_hands_back_every_member() {
    let mut dir = LobbyManagementSystemParam::new();
    let e = dir
        .get_or_insert_lobby_entity(&String::from("L1"), 7, Some(&String::from("forest")), ClientType::Player)
        .unwrap();
    let _ = dir.get_or_insert_lobby_entity(&String::from("L1"), 8, None, ClientType::Player);
    let _ = dir.get_or_insert_lobby_entity(&String::from("L1"), 9, None, ClientType::Spectator);
    let members = dir.remove_lobby(e);
    assert_eq!(members, vec![7, 8, 9]);
    assert_eq!(dir.lobby_resource.lobbies.len(), 0);
}

#[test]
fn removing_a_player_strikes_the_team_roster_too() {
    let mut dir = LobbyManagementSystemParam::new();
    let e = dir
        .get_or_insert_lobby_entity(&String::from("L1"), 7, Some(&String::from("forest")), ClientType::Player)
        .unwrap();
    let player_teams = vec![(7u64, String::from("red"))];
    assert!(dir.apply_map_config(e, two_team_config(), &player_teams));
    let _ = dir.get_or_insert_lobby_entity(&String::from("L1"), 8, None, ClientType::Player);
    assert!(dir.insert_player_into_lobby_team(e, &String::from("red"), 8));
    assert!(dir.remove_player_from_lobby(7, e));
    let lobby = &dir.lobby_entities[0].1;
    assert_eq!(lobby.players, vec![8]);
    let mc = lobby.map_config.as_ref().unwrap();
    assert_eq!(mc.teams[0].1.players, vec![8]);
}
