use lobby_core::lobby_management::{LobbyManagementArgument, LobbyManagementSystemParam};
use lobby_core::maps::{MapConfig, MapDefinition, TeamColor, TeamConfig};
use lobby_core::messages::{ClientType, MessageTarget};
use lobby_core::targets::TargetError;

fn arg(
    lobby: Option<u64>,
    sender: Option<u64>,
    target_player: Option<u64>,
    team_name: Option<&str>,
) -> LobbyManagementArgument {
    LobbyManagementArgument {
        lobby,
        sender,
        target_player,
        team_name: team_name.map(String::from),
        team: None,
    }
}

/// A directory with one lobby of players 1, 2, 3 (1 and 2 on team red,
/// 3 on team blue) and spectator 4; returns it with the lobby entity.
fn populated_directory() -> (LobbyManagementSystemParam, u64) {
    let mut dir = LobbyManagementSystemParam::new();
    let e = dir
        .get_or_insert_lobby_entity(&String::from("L1"), 1, Some(&String::from("forest")), ClientType::Player)
        .unwrap();
    let config = MapConfig {
        teams: vec![
            (
                String::from("red"),
                TeamConfig {
                    color: TeamColor { r: 255, g: 0, b: 0 },
                    max_players: 4,
                    players: Vec::new(),
                },
            ),
            (
                String::from("blue"),
                TeamConfig {
                    color: TeamColor { r: 0, g: 0, b: 255 },
                    max_players: 4,
                    players: Vec::new(),
                },
            ),
        ],
        map: MapDefinition {
            width: 2,
            height: 2,
            tiles: Vec::new(),
            layers: Vec::new(),
            markers: Vec::new(),
        },
    };
    assert!(dir.apply_map_config(e, config, &vec![(1u64, String::from("red"))]));
    let _ = dir.get_or_insert_lobby_entity(&String::from("L1"), 2, None, ClientType::Player);
    assert!(dir.insert_player_into_lobby_team(e, &String::from("red"), 2));
    let _ = dir.get_or_insert_lobby_entity(&String::from("L1"), 3, None, ClientType::Player);
    assert!(dir.insert_player_into_lobby_team(e, &String::from("blue"), 3));
    let _ = dir.get_or_insert_lobby_entity(&String::from("L1"), 4, None, ClientType::Spectator);
    (dir, e)
}

#[test]
fn all_in_lobby_excludes_the_sender() {
    let (dir, e) = populated_directory();
    let r = dir
        .resolve_targets(&MessageTarget::AllInLobby, &arg(Some(e), Some(2), None, None))
        .unwrap();
    assert_eq!(r, vec![1, 3]);
}

#[test]
fn team_targeting_excludes_the_sender() {
    let (dir, e) = populated_directory();
    let r = dir
        .resolve_targets(&MessageTarget::Team, &arg(Some(e), Some(1), None, Some("red")))
        .unwrap();
    assert_eq!(r, vec![2]);
}

#[test]
fn server_only_resolves_to_nobody() {
    let (dir, e) = populated_directory();
    let r = dir
        .resolve_targets(&MessageTarget::ServerOnly, &arg(Some(e), Some(1), None, None))
        .unwrap();
    assert!(r.is_empty());
}

#[test]
fn client_target_resolves_to_the_named_recipient() {
    let (dir, e) = populated_directory();
    let r = dir
        .resolve_targets(&MessageTarget::Client(3), &arg(Some(e), Some(1), Some(3), None))
        .unwrap();
    assert_eq!(r, vec![3]);
}

#[test]
fn to_lobby_directly_resolves_to_the_lobby_itself() {
    let (dir, e) = populated_directory();
    let r = dir
        .resolve_targets(&MessageTarget::ToLobbyDirectly, &arg(Some(e), Some(1), None, None))
        .unwrap();
    assert_eq!(r, vec![e]);
}

#[test]
fn missing_lobby_context_is_reported() {
    let (dir, _) = populated_directory();
    let r = dir.resolve_targets(&MessageTarget::AllInLobby, &arg(None, Some(1), None, None));
    assert_eq!(r, Err(TargetError::NoLobbyContext));
}

#[test]
fn unknown_lobby_entity_is_reported() {
    let (dir, _) = populated_directory();
    let r = dir.resolve_targets(&MessageTarget::AllInLobby, &arg(Some(999), Some(1), None, None));
    assert_eq!(r, Err(TargetError::LobbyNotFound));
}

#[test]
fn missing_recipient_is_reported() {
    let (dir, _) = populated_directory();
    let r = dir.get_single_player(&arg(None, Some(1), None, None));
    assert_eq!(r, Err(TargetError::RecipientNotFound));
}

#[test]
fn absent_recipient_is_reported() {
    let (dir, e) = populated_directory();
    // 99 is a member of no lobby: the named recipient is not present
    let r = dir.resolve_targets(&MessageTarget::Client(99), &arg(Some(e), Some(1), Some(99), None));
    assert_eq!(r, Err(TargetError::RecipientNotFound));
    let r2 = dir.get_single_player(&arg(Some(e), Some(1), Some(99), None));
    assert_eq!(r2, Err(TargetError::RecipientNotFound));
}

#[test]
fn the_sender_cannot_target_itself() {
    let (dir, e) = populated_directory();
    let r = dir.resolve_targets(&MessageTarget::Client(2), &arg(Some(e), Some(2), Some(2), None));
    assert_eq!(r, Err(TargetError::TargetIsSender));
    let r2 = dir.get_single_player(&arg(Some(e), Some(2), Some(2), None));
    assert_eq!(r2, Err(TargetError::TargetIsSender));
}

#[test]
fn team_targeting_needs_a_team_name() {
    let (dir, e) = populated_directory();
    let r = dir.resolve_targets(&MessageTarget::Team, &arg(Some(e), Some(1), None, None));
    assert_eq!(r, Err(TargetError::NoTeamName));
}

#[test]
fn unknown_team_is_reported() {
    let (dir, e) = populated_directory();
    let r = dir.resolve_targets(&MessageTarget::Team, &arg(Some(e), Some(1), None, Some("green")));
    assert_eq!(r, Err(TargetError::TeamNotFound));
}

#[test]
fn unresolved_map_config_is_reported() {
    let mut dir = LobbyManagementSystemParam::new();
    let e = dir
        .get_or_insert_lobby_entity(&String::from("L1"), 1, Some(&String::from("forest")), ClientType::Player)
        .unwrap();
    let r = dir.resolve_targets(&MessageTarget::Team, &arg(Some(e), Some(1), None, Some("red")));
    assert_eq!(r, Err(TargetError::MapConfigMissing));
}

#[test]
fn spectators_resolve_without_the_sender_too() {
    let (dir, e) = populated_directory();
    let r = dir.get_spectators_in_lobby(&arg(Some(e), Some(4), None, None)).unwrap();
    assert!(r.is_empty());
    let r2 = dir.get_spectators_in_lobby(&arg(Some(e), Some(1), None, None)).unwrap();
    assert_eq!(r2, vec![4]);
}

#[test]
fn lobby_lookup_by_player_finds_the_roster() {
    let (dir, e) = populated_directory();
    let (found, lobby) = dir.get_lobby_from_player(2).unwrap();
    assert_eq!(found, e);
    assert_eq!(lobby.lobby_name, String::from("L1"));
    assert!(dir.get_lobby_from_player(99).is_none());
}
