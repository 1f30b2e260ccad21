use lobby_core::maps::{
    AllMapsAsset, MapConfig, MapConfigSystemParam, MapDefinition, TeamColor, TeamConfig,
};

fn named_config(width: usize) -> MapConfig {
    MapConfig {
        teams: vec![(
            String::from("red"),
            TeamConfig {
                color: TeamColor { r: 255, g: 0, b: 0 },
                max_players: 2,
                players: Vec::new(),
            },
        )],
        map: MapDefinition {
            width,
            height: width,
            tiles: Vec::new(),
            layers: Vec::new(),
            markers: Vec::new(),
        },
    }
}

fn store() -> MapConfigSystemParam {
    MapConfigSystemParam {
        maps_asset: AllMapsAsset {
            maps: vec![
                (String::from("forest.map"), named_config(8)),
                (String::from("desert.map"), named_config(16)),
            ],
        },
    }
}

#[test]
fn lookup_accepts_the_bare_map_name() {
    let store = store();
    let config = store.get_map_config_from_name(&String::from("forest")).unwrap();
    assert_eq!(config.map.width, 8);
}

#[test]
fn lookup_accepts_the_suffixed_map_name() {
    let store = store();
    let config = store.get_map_config_from_name(&String::from("desert.map")).unwrap();
    assert_eq!(config.map.width, 16);
}

#[test]
fn lookup_misses_unknown_maps() {
    let store = store();
    assert!(store.get_map_config_from_name(&String::from("tundra")).is_none());
}

#[test]
fn listed_map_names_drop_the_suffix() {
    let store = store();
    let names = store.list_map_names();
    assert_eq!(names, vec![String::from("forest"), String::from("desert")]);
}

#[test]
fn team_roster_operations_work_by_name() {
    let mut config = named_config(8);
    assert!(config.insert_player_into_team(&String::from("red"), 5));
    assert!(!config.insert_player_into_team(&String::from("green"), 5));
    assert_eq!(config.get_team(&String::from("red")).unwrap().players, vec![5]);
    let (name, team) = config.get_team_of_player(5).unwrap();
    assert_eq!(name, &String::from("red"));
    assert_eq!(team.players, vec![5]);
    config.remove_player_from_team(5);
    assert!(config.get_team_of_player(5).is_none());
    assert!(config.get_team(&String::from("red")).unwrap().players.is_empty());
}
