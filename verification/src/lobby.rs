//! A lobby: one named match instance grouping players and spectators under
//! one map and one tick clock.

use vstd::prelude::*;

use crate::maps::{contains_u64, MapConfig};

verus! {

/// Lifecycle of a lobby.
#[derive(Clone, Copy, PartialEq, Eq, Structural, Debug)]
pub enum LobbyState {
    SettingUp,
    InProgress,
    Finished,
}

/// Carried by a session that is bound to a lobby: the lobby's entity handle.
#[derive(Clone, Copy, PartialEq, Eq, Structural, Debug)]
pub struct InLobby(pub u64);

/// One match instance. The rosters hold player handles; the map
/// configuration is filled in once the named map resolves.
pub struct MyLobby {
    pub state: LobbyState,
    pub lobby_name: String,
    pub players: Vec<u64>,
    pub spectators: Vec<u64>,
    pub map_name: String,
    pub map_config: Option<MapConfig>,
    pub tick: u64,
}

impl MyLobby {
    /// Every team roster of the resolved map lists only players of the
    /// lobby roster, and team names are unique.
    pub open spec fn wf(self) -> bool {
        match self.map_config {
            Some(mc) => mc.wf() && forall|i: int, p: u64|
                0 <= i < mc.teams@.len() && #[trigger] mc.team_at_has_player(i, p)
                    ==> self.players@.contains(p),
            None => true,
        }
    }

    pub open spec fn is_player(self, p: u64) -> bool {
        self.players@.contains(p)
    }

    pub open spec fn is_spectator(self, p: u64) -> bool {
        self.spectators@.contains(p)
    }

    /// Membership: players and spectators together.
    pub open spec fn is_member(self, p: u64) -> bool {
        self.is_player(p) || self.is_spectator(p)
    }

    pub open spec fn member_count(self) -> int {
        self.players@.len() as int + self.spectators@.len() as int
    }

    /// A fresh lobby: setting up, empty rosters, unresolved map, tick zero.
    pub fn new(name: String, map_name: String) -> (r: Self)
        ensures
            r.state == LobbyState::SettingUp,
            r.lobby_name == name,
            r.players@ == Seq::<u64>::empty(),
            r.spectators@ == Seq::<u64>::empty(),
            r.map_name == map_name,
            r.map_config == None::<MapConfig>,
            r.tick == 0,
            r.wf(),
    {
        MyLobby {
            state: LobbyState::SettingUp,
            lobby_name: name,
            players: Vec::new(),
            spectators: Vec::new(),
            map_name,
            map_config: None,
            tick: 0,
        }
    }

    /// The lobby with `player` appended to its player roster.
    pub fn with_player(self, player: u64) -> (r: Self)
        ensures
            r.state == self.state,
            r.lobby_name == self.lobby_name,
            r.players@ == self.players@.push(player),
            r.spectators@ == self.spectators@,
            r.map_name == self.map_name,
            r.map_config == self.map_config,
            r.tick == self.tick,
    {
        let mut l = self;
        l.players.push(player);
        l
    }

    /// The lobby with `spectator` appended to its spectator roster.
    pub fn with_spectator(self, spectator: u64) -> (r: Self)
        ensures
            r.state == self.state,
            r.lobby_name == self.lobby_name,
            r.players@ == self.players@,
            r.spectators@ == self.spectators@.push(spectator),
            r.map_name == self.map_name,
            r.map_config == self.map_config,
            r.tick == self.tick,
    {
        let mut l = self;
        l.spectators.push(spectator);
        l
    }

    /// Whether `p` is on a roster of this lobby.
    pub fn has_member(&self, p: u64) -> (r: bool)
        ensures
            r == self.is_member(p),
    {
        contains_u64(&self.players, p) || contains_u64(&self.spectators, p)
    }

    /// The roster of the named team, when the map has resolved and lists it.
    pub fn get_team(&self, team_name: &String) -> (r: Option<&Vec<u64>>)
        requires
            self.wf(),
        ensures
            match r {
                Some(v) => match self.map_config {
                    Some(mc) => mc.has_team(team_name@) && v@ == mc.teams@[mc.team_index(
                        team_name@,
                    )].1.players@,
                    None => false,
                },
                None => match self.map_config {
                    Some(mc) => !mc.has_team(team_name@),
                    None => true,
                },
            },
    {
        match &self.map_config {
            Some(mc) => match mc.get_team(team_name) {
                Some(t) => {
                    proof {
                        let i = choose|i: int|
                            0 <= i < mc.teams@.len() && mc.teams@[i].0@ == team_name@ && *t
                                == mc.teams@[i].1;
                        assert(mc.team_index(team_name@) == i);
                    }
                    Some(&t.players)
                },
                None => None,
            },
            None => None,
        }
    }
}

} // verus!
