//! Message target resolution: a pure read of directory state that maps an
//! abstract target specification to the concrete recipient set.
//!
//! `Team` and `AllInLobby` mean "everyone else": the sender is never part
//! of the resolved set. `ServerOnly` always resolves to no recipient.

use vstd::prelude::*;

use crate::lobby::MyLobby;
use crate::lobby_management::{LobbyManagementArgument, LobbyManagementSystemParam};
use crate::maps::contains_u64;
use crate::messages::MessageTarget;

verus! {

/// Why a target did not resolve. The specific send is dropped; the caller
/// goes on with its other recipients.
#[derive(Clone, Copy, PartialEq, Eq, Structural, Debug)]
pub enum TargetError {
    /// `Team`, `AllInLobby` or `ToLobbyDirectly` was used without a lobby
    /// context.
    NoLobbyContext,
    /// The lobby entity of the context is not in the directory.
    LobbyNotFound,
    /// `Client` targeting named no recipient, or one that is a member of
    /// no lobby.
    RecipientNotFound,
    /// `Client` targeting named the sender itself.
    TargetIsSender,
    /// `Team` targeting without a team name in the context.
    NoTeamName,
    /// The lobby has no resolved map configuration yet.
    MapConfigMissing,
    /// The named team is not in the lobby's map configuration.
    TeamNotFound,
}

/// The predicate keeping everyone but the sender.
pub open spec fn not_sender(s: Option<u64>) -> spec_fn(u64) -> bool {
    |p: u64| Some(p) != s
}

/// A copy of `v` without the sender, order kept.
fn filter_not_sender(v: &Vec<u64>, sender: Option<u64>) -> (r: Vec<u64>)
    ensures
        r@ == v@.filter(not_sender(sender)),
{
    let n = v.len();
    let mut out: Vec<u64> = Vec::new();
    let mut i: usize = 0;
    proof {
        assert(v@.take(0int).filter(not_sender(sender)) =~= Seq::<u64>::empty());
    }
    while i < n
        invariant
            i <= n,
            n == v@.len(),
            out@ == v@.take(i as int).filter(not_sender(sender)),
        decreases n - i,
    {
        proof {
            crate::util::lemma_filter_take_step(v@, not_sender(sender), i as int);
        }
        let keep: bool = match sender {
            Some(s) => v[i] != s,
            None => true,
        };
        if keep {
            out.push(v[i]);
        }
        i = i + 1;
    }
    proof {
        assert(v@.take(n as int) =~= v@);
    }
    out
}

impl LobbyManagementSystemParam {
    /// The lobby of the argument's context.
    pub fn get_lobby(&self, arg: &LobbyManagementArgument) -> (r: Result<(u64, &MyLobby), TargetError>)
        requires
            self.wf(),
        ensures
            match r {
                Ok(p) => arg.lobby == Some(p.0) && self.has_entity(p.0) && *p.1
                    == self.lobby_for_entity(p.0),
                Err(e) => {
                    ||| (e == TargetError::NoLobbyContext && arg.lobby is None)
                    ||| (e == TargetError::LobbyNotFound && arg.lobby is Some && !self.has_entity(
                        arg.lobby.unwrap(),
                    ))
                },
            },
            r is Ok <==> arg.lobby is Some && self.has_entity(arg.lobby.unwrap()),
    {
        match arg.lobby {
            None => Err(TargetError::NoLobbyContext),
            Some(e) => match self.find_entity_index(e) {
                None => Err(TargetError::LobbyNotFound),
                Some(i) => {
                    proof {
                        crate::lobby_management::lemma_entity_index_unique(*self, e, i as int);
                    }
                    Ok((e, &self.lobby_entities[i].1))
                },
            },
        }
    }

    /// The first lobby whose player roster lists `player`.
    pub fn get_lobby_from_player(&self, player: u64) -> (r: Option<(u64, &MyLobby)>)
        requires
            self.wf(),
        ensures
            match r {
                Some(p) => self.has_entity(p.0) && *p.1 == self.lobby_for_entity(p.0)
                    && p.1.is_player(player),
                None => forall|k: int|
                    0 <= k < self.arena().len() ==> !(#[trigger] self.arena()[k]).1.is_player(
                        player,
                    ),
            },
    {
        let n = self.lobby_entities.len();
        let mut i: usize = 0;
        while i < n
            invariant
                i <= n,
                n == self.arena().len(),
                self.wf(),
                forall|k: int| 0 <= k < i ==> !(#[trigger] self.arena()[k]).1.is_player(player),
            decreases n - i,
        {
            if contains_u64(&self.lobby_entities[i].1.players, player) {
                let e = self.lobby_entities[i].0;
                proof {
                    crate::lobby_management::lemma_entity_index_unique(*self, e, i as int);
                }
                return Some((e, &self.lobby_entities[i].1));
            }
            i = i + 1;
        }
        None
    }

    /// All players of the context's lobby, without the sender.
    pub fn get_players_in_lobby(&self, arg: &LobbyManagementArgument) -> (r: Result<
        Vec<u64>,
        TargetError,
    >)
        requires
            self.wf(),
        ensures
            r is Ok <==> arg.lobby is Some && self.has_entity(arg.lobby.unwrap()),
            r matches Err(e) ==> {
                ||| (e == TargetError::NoLobbyContext && arg.lobby is None)
                ||| (e == TargetError::LobbyNotFound && arg.lobby is Some && !self.has_entity(
                    arg.lobby.unwrap(),
                ))
            },
            r matches Ok(v) ==> v@ == self.lobby_for_entity(arg.lobby.unwrap()).players@.filter(
                not_sender(arg.sender),
            ),
    {
        match self.get_lobby(arg) {
            Err(e) => Err(e),
            Ok((_e, lobby)) => Ok(filter_not_sender(&lobby.players, arg.sender)),
        }
    }

    /// All spectators of the context's lobby, without the sender.
    pub fn get_spectators_in_lobby(&self, arg: &LobbyManagementArgument) -> (r: Result<
        Vec<u64>,
        TargetError,
    >)
        requires
            self.wf(),
        ensures
            r is Ok <==> arg.lobby is Some && self.has_entity(arg.lobby.unwrap()),
            r matches Err(e) ==> {
                ||| (e == TargetError::NoLobbyContext && arg.lobby is None)
                ||| (e == TargetError::LobbyNotFound && arg.lobby is Some && !self.has_entity(
                    arg.lobby.unwrap(),
                ))
            },
            r matches Ok(v) ==> v@ == self.lobby_for_entity(arg.lobby.unwrap()).spectators@.filter(
                not_sender(arg.sender),
            ),
    {
        match self.get_lobby(arg) {
            Err(e) => Err(e),
            Ok((_e, lobby)) => Ok(filter_not_sender(&lobby.spectators, arg.sender)),
        }
    }

    /// All players sharing the named team in the context's lobby, without
    /// the sender.
    pub fn get_players_in_lobby_team(&self, arg: &LobbyManagementArgument) -> (r: Result<
        Vec<u64>,
        TargetError,
    >)
        requires
            self.wf(),
        ensures
            r matches Err(e) ==> {
                ||| (e == TargetError::NoTeamName && arg.team_name is None)
                ||| (e == TargetError::NoLobbyContext && arg.lobby is None)
                ||| (e == TargetError::LobbyNotFound && arg.lobby is Some && !self.has_entity(
                    arg.lobby.unwrap(),
                ))
                ||| (e == TargetError::MapConfigMissing && arg.team_name is Some && arg.lobby
                    is Some && self.has_entity(arg.lobby.unwrap()) && self.lobby_for_entity(
                    arg.lobby.unwrap(),
                ).map_config is None)
                ||| (e == TargetError::TeamNotFound && arg.team_name is Some && arg.lobby
                    is Some && self.has_entity(arg.lobby.unwrap()) && self.lobby_for_entity(
                    arg.lobby.unwrap(),
                ).map_config is Some && !self.lobby_for_entity(
                    arg.lobby.unwrap(),
                ).map_config.unwrap().has_team(arg.team_name.unwrap()@))
            },
            r matches Ok(v) ==> arg.team_name is Some && arg.lobby is Some && self.has_entity(
                arg.lobby.unwrap(),
            ) && {
                let lobby = self.lobby_for_entity(arg.lobby.unwrap());
                &&& lobby.map_config is Some
                &&& lobby.map_config.unwrap().has_team(arg.team_name.unwrap()@)
                &&& v@ == lobby.map_config.unwrap().teams@[lobby.map_config.unwrap().team_index(
                    arg.team_name.unwrap()@,
                )].1.players@.filter(not_sender(arg.sender))
            },
    {
        let team_name = match &arg.team_name {
            None => {
                return Err(TargetError::NoTeamName);
            },
            Some(tn) => tn,
        };
        match self.get_lobby(arg) {
            Err(e) => Err(e),
            Ok((_e, lobby)) => match &lobby.map_config {
                None => Err(TargetError::MapConfigMissing),
                Some(mc) => match mc.get_team(team_name) {
                    None => Err(TargetError::TeamNotFound),
                    Some(team) => {
                        proof {
                            let i = choose|i: int|
                                0 <= i < mc.teams@.len() && mc.teams@[i].0@ == team_name@
                                    && *team == mc.teams@[i].1;
                            assert(mc.team_index(team_name@) == i);
                        }
                        Ok(filter_not_sender(&team.players, arg.sender))
                    },
                },
            },
        }
    }

    /// Whether some lobby of the directory lists `p` as a member.
    pub open spec fn some_lobby_has_member(self, p: u64) -> bool {
        exists|k: int| 0 <= k < self.arena().len() && (#[trigger] self.arena()[k]).1.is_member(p)
    }

    /// Whether `p` is a member of any lobby in the directory.
    fn member_of_any_lobby(&self, p: u64) -> (r: bool)
        ensures
            r == self.some_lobby_has_member(p),
    {
        let n = self.lobby_entities.len();
        let mut i: usize = 0;
        while i < n
            invariant
                i <= n,
                n == self.arena().len(),
                forall|k: int| 0 <= k < i ==> !(#[trigger] self.arena()[k]).1.is_member(p),
            decreases n - i,
        {
            if self.lobby_entities[i].1.has_member(p) {
                return true;
            }
            i = i + 1;
        }
        false
    }

    /// The named recipient as a one-element set: present — a member of
    /// some lobby — and not the sender itself.
    fn resolve_single(&self, sender: Option<u64>, target: u64) -> (r: Result<
        Vec<u64>,
        TargetError,
    >)
        ensures
            match r {
                Ok(v) => Some(target) != sender && self.some_lobby_has_member(target) && v@
                    =~= seq![target],
                Err(e) => {
                    ||| (e == TargetError::TargetIsSender && Some(target) == sender)
                    ||| (e == TargetError::RecipientNotFound && Some(target) != sender
                        && !self.some_lobby_has_member(target))
                },
            },
    {
        let is_sender: bool = match sender {
            Some(s) => s == target,
            None => false,
        };
        if is_sender {
            return Err(TargetError::TargetIsSender);
        }
        if !self.member_of_any_lobby(target) {
            return Err(TargetError::RecipientNotFound);
        }
        let mut v: Vec<u64> = Vec::new();
        v.push(target);
        Ok(v)
    }

    /// The single player the context names, as a one-element recipient
    /// set: the recipient must be present — a member of some lobby — and
    /// must not be the sender itself.
    pub fn get_single_player(&self, arg: &LobbyManagementArgument) -> (r: Result<
        Vec<u64>,
        TargetError,
    >)
        ensures
            match r {
                Ok(v) => arg.target_player is Some && arg.target_player != arg.sender
                    && self.some_lobby_has_member(arg.target_player.unwrap()) && v@
                    =~= seq![arg.target_player.unwrap()],
                Err(e) => {
                    ||| (e == TargetError::RecipientNotFound && arg.target_player is None)
                    ||| (e == TargetError::TargetIsSender && arg.target_player is Some
                        && arg.target_player == arg.sender)
                    ||| (e == TargetError::RecipientNotFound && arg.target_player is Some
                        && arg.target_player != arg.sender && !self.some_lobby_has_member(
                        arg.target_player.unwrap(),
                    ))
                },
            },
    {
        match arg.target_player {
            None => Err(TargetError::RecipientNotFound),
            Some(p) => self.resolve_single(arg.sender, p),
        }
    }

    /// The empty recipient set: a message for the server is handled by the
    /// server itself and never forwarded.
    pub fn get_empty(&self, _arg: &LobbyManagementArgument) -> (r: Result<Vec<u64>, TargetError>)
        ensures
            r is Ok && r.unwrap()@ =~= Seq::<u64>::empty(),
    {
        Ok(Vec::new())
    }

    /// Resolve an abstract target against the context: the recipient set a
    /// message with this target fans out to. `Team` and `AllInLobby` never
    /// include the sender; `ServerOnly` is always the empty set; `Client`
    /// resolves to the single named recipient when it is present and not
    /// the sender itself; `ToLobbyDirectly` resolves to the lobby entity
    /// itself.
    pub fn resolve_targets(&self, target: &MessageTarget, arg: &LobbyManagementArgument) -> (r:
        Result<Vec<u64>, TargetError>)
        requires
            self.wf(),
        ensures
            target is ServerOnly ==> r is Ok && r.unwrap()@.len() == 0,
            (target is Team || target is AllInLobby) && r is Ok ==> forall|k: int|
                0 <= k < r.unwrap()@.len() ==> Some(#[trigger] r.unwrap()@[k]) != arg.sender,
            target is AllInLobby ==> (r matches Ok(v) ==> v@ == self.lobby_for_entity(
                arg.lobby.unwrap(),
            ).players@.filter(not_sender(arg.sender))),
            target is Team ==> (r matches Ok(v) ==> {
                let mc = self.lobby_for_entity(arg.lobby.unwrap()).map_config.unwrap();
                v@ == mc.teams@[mc.team_index(arg.team_name.unwrap()@)].1.players@.filter(
                    not_sender(arg.sender),
                )
            }),
            (*target) matches MessageTarget::Client(id) ==> match r {
                Ok(v) => Some(id) != arg.sender && self.some_lobby_has_member(id) && v@
                    =~= seq![id],
                Err(e) => {
                    ||| (e == TargetError::TargetIsSender && Some(id) == arg.sender)
                    ||| (e == TargetError::RecipientNotFound && Some(id) != arg.sender
                        && !self.some_lobby_has_member(id))
                },
            },
            target is ToLobbyDirectly ==> match r {
                Ok(v) => arg.lobby is Some && self.has_entity(arg.lobby.unwrap()) && v@
                    =~= seq![arg.lobby.unwrap()],
                Err(e) => {
                    ||| (e == TargetError::NoLobbyContext && arg.lobby is None)
                    ||| (e == TargetError::LobbyNotFound && arg.lobby is Some && !self.has_entity(
                        arg.lobby.unwrap(),
                    ))
                },
            },
    {
        match target {
            MessageTarget::Team => {
                let r = self.get_players_in_lobby_team(arg);
                proof {
                    if r is Ok {
                        let v = r.unwrap()@;
                        let mc = self.lobby_for_entity(arg.lobby.unwrap()).map_config.unwrap();
                        let roster = mc.teams@[mc.team_index(arg.team_name.unwrap()@)].1.players@;
                        assert forall|k: int| 0 <= k < v.len() implies Some(#[trigger] v[k])
                            != arg.sender by {
                            roster.lemma_filter_pred(not_sender(arg.sender), k);
                        }
                    }
                }
                r
            },
            MessageTarget::ServerOnly => self.get_empty(arg),
            MessageTarget::AllInLobby => {
                let r = self.get_players_in_lobby(arg);
                proof {
                    if r is Ok {
                        let v = r.unwrap()@;
                        let roster = self.lobby_for_entity(arg.lobby.unwrap()).players@;
                        assert forall|k: int| 0 <= k < v.len() implies Some(#[trigger] v[k])
                            != arg.sender by {
                            roster.lemma_filter_pred(not_sender(arg.sender), k);
                        }
                    }
                }
                r
            },
            MessageTarget::Client(id) => self.resolve_single(arg.sender, *id),
            MessageTarget::ToLobbyDirectly => match self.get_lobby(arg) {
                Err(e) => Err(e),
                Ok((e, _lobby)) => {
                    let mut v: Vec<u64> = Vec::new();
                    v.push(e);
                    Ok(v)
                },
            },
        }
    }
}

} // verus!
