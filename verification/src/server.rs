//! The server engine: the session registry and the lobby directory driven
//! through handshakes and the globally ordered per-tick phase sequence.
//!
//! Each tick runs, in order and across the whole lobby population: timer
//! processing, tick increment, one simulation step per lobby, the
//! per-lobby finalization hook, and the snapshot broadcast. The
//! simulation itself and the map store are external collaborators: their
//! results come in as plain values.

use vstd::prelude::*;
use vstd::string::StrSliceExecFns;

use crate::lobby::{LobbyState, MyLobby};
use crate::lobby_management::{concat_u64, LobbyManagementSystemParam};
use crate::maps::MapConfig;
use crate::messages::{
    ClientType, FirstContactData, GameState, MessageContainer, MessageTarget, NetworkMessageType,
};
use crate::session::{
    survivor_row, ticked_row, ClientDisconnectedTrigger, MyNetworkClient, SessionRegistry,
};

verus! {

/// Why a handshake was rejected.
#[derive(Clone, Copy, PartialEq, Eq, Structural, Debug)]
pub enum FirstContactError {
    /// The handshake carried an empty bot name.
    EmptyBotName,
    /// A playing client gave no team name.
    MissingTeamName,
    /// The sending session is not registered.
    UnknownSession,
    /// The lobby id is unused and the handshake named no map.
    MissingMapName,
    /// The named map is not in the store; the fresh lobby was torn down.
    MapNotFound,
}

/// One simulation step the scheduler orders: which lobby, at which tick.
#[derive(Clone, Copy, PartialEq, Eq, Structural, Debug)]
pub struct SimStep {
    pub lobby: u64,
    pub tick: u64,
}

/// The placeholder simulation step: what the external simulation
/// collaborator is invoked with, exactly once per lobby per tick. It
/// computes nothing yet and yields an empty authoritative snapshot for
/// the step's tick.
pub fn process_tick_sim(step: &SimStep) -> (r: GameState)
    ensures
        r.tick == step.tick,
        r.player_states@.len() == 0,
        r.projectile_states@.len() == 0,
{
    let mut state = GameState::empty();
    state.tick = step.tick;
    state
}

/// The per-lobby finalization hook run after a lobby's simulation step:
/// the intended extension point for consuming simulation results. It
/// currently passes the authoritative snapshot through unchanged.
pub fn process_tick_sim_finished(_step: &SimStep, state: GameState) -> (r: GameState)
    ensures
        r.tick == state.tick,
        r.player_states@ == state.player_states@,
        r.projectile_states@ == state.projectile_states@,
{
    state
}

/// Rows `post` extend rows `pre` by authoritative snapshot broadcasts
/// only: same sessions in the same order, identity fields untouched, and
/// every appended queue entry is a sent `GameState` envelope targeted
/// `AllInLobby` whose sent stamp is its snapshot's tick.
pub open spec fn gamestate_broadcasts_appended(
    pre: Seq<(u64, MyNetworkClient)>,
    post: Seq<(u64, MyNetworkClient)>,
) -> bool {
    &&& post.len() == pre.len()
    &&& forall|k: int|
        0 <= k < pre.len() ==> {
            let c0 = (#[trigger] pre[k]).1;
            let c1 = (#[trigger] post[k]).1;
            &&& post[k].0 == pre[k].0
            &&& c1.name == c0.name
            &&& c1.address == c0.address
            &&& c1.team_name == c0.team_name
            &&& c1.client_type == c0.client_type
            &&& c1.in_lobby == c0.in_lobby
            &&& c1.awaiting_first_contact == c0.awaiting_first_contact
            &&& c1.outgoing_messages_queue@.len() >= c0.outgoing_messages_queue@.len()
            &&& c1.outgoing_messages_queue@.take(c0.outgoing_messages_queue@.len() as int)
                == c0.outgoing_messages_queue@
            &&& forall|q: int|
                c0.outgoing_messages_queue@.len() <= q < c1.outgoing_messages_queue@.len()
                    ==> is_gamestate_broadcast(#[trigger] c1.outgoing_messages_queue@[q])
        }
}

/// A sent snapshot envelope: `AllInLobby`, no sender, stamped with its
/// snapshot's tick.
pub open spec fn is_gamestate_broadcast(m: MessageContainer) -> bool {
    &&& m.target == MessageTarget::AllInLobby
    &&& m.sender is None
    &&& m.tick_received == 0
    &&& match m.message {
        NetworkMessageType::GameState(g) => m.tick_sent == g.tick,
        _ => false,
    }
}

/// Whether the session's queue holds a snapshot broadcast sent on `tick`.
pub open spec fn got_snapshot(c: MyNetworkClient, tick: u64) -> bool {
    exists|q: int|
        0 <= q < c.outgoing_messages_queue@.len() && (#[trigger] c.outgoing_messages_queue@[
            q
        ]).tick_sent == tick && c.outgoing_messages_queue@[q].target == MessageTarget::AllInLobby
            && c.outgoing_messages_queue@[q].message is GameState
}

/// The predicate selecting one session handle.
pub open spec fn id_eq(id: u64) -> spec_fn(u64) -> bool {
    |x: u64| x == id
}

/// The snapshot broadcast queued for a member: `AllInLobby`, no sender,
/// stamped with and filled from exactly this snapshot.
pub open spec fn is_snapshot_broadcast_of(m: MessageContainer, state: GameState) -> bool {
    &&& m.target == MessageTarget::AllInLobby
    &&& m.sender is None
    &&& m.tick_received == 0
    &&& m.tick_sent == state.tick
    &&& match m.message {
        NetworkMessageType::GameState(g) => g.tick == state.tick && g.player_states@
            == state.player_states@ && g.projectile_states@ == state.projectile_states@,
        _ => false,
    }
}

/// The broadcast relation is reflexive.
pub proof fn lemma_broadcasts_appended_refl(rows: Seq<(u64, MyNetworkClient)>)
    ensures
        gamestate_broadcasts_appended(rows, rows),
{
    assert forall|k: int| 0 <= k < rows.len() implies {
        let c0 = (#[trigger] rows[k]).1;
        c0.outgoing_messages_queue@.take(c0.outgoing_messages_queue@.len() as int)
            == c0.outgoing_messages_queue@
    } by {
        let c0 = rows[k].1;
        assert(c0.outgoing_messages_queue@.take(c0.outgoing_messages_queue@.len() as int)
            =~= c0.outgoing_messages_queue@);
    }
}

/// The broadcast relation composes.
pub proof fn lemma_broadcasts_appended_trans(
    a: Seq<(u64, MyNetworkClient)>,
    b: Seq<(u64, MyNetworkClient)>,
    c: Seq<(u64, MyNetworkClient)>,
)
    requires
        gamestate_broadcasts_appended(a, b),
        gamestate_broadcasts_appended(b, c),
    ensures
        gamestate_broadcasts_appended(a, c),
{
    assert forall|k: int| 0 <= k < a.len() implies {
        let c0 = (#[trigger] a[k]).1;
        let c2 = (#[trigger] c[k]).1;
        &&& c[k].0 == a[k].0
        &&& c2.name == c0.name
        &&& c2.address == c0.address
        &&& c2.team_name == c0.team_name
        &&& c2.client_type == c0.client_type
        &&& c2.in_lobby == c0.in_lobby
        &&& c2.awaiting_first_contact == c0.awaiting_first_contact
        &&& c2.outgoing_messages_queue@.len() >= c0.outgoing_messages_queue@.len()
        &&& c2.outgoing_messages_queue@.take(c0.outgoing_messages_queue@.len() as int)
            == c0.outgoing_messages_queue@
        &&& forall|q: int|
            c0.outgoing_messages_queue@.len() <= q < c2.outgoing_messages_queue@.len()
                ==> is_gamestate_broadcast(#[trigger] c2.outgoing_messages_queue@[q])
    } by {
        let q0 = a[k].1.outgoing_messages_queue@;
        let q1 = b[k].1.outgoing_messages_queue@;
        let q2 = c[k].1.outgoing_messages_queue@;
        assert(q1.take(q0.len() as int) == q0);
        assert(q2.take(q1.len() as int) == q1);
        assert(q2.take(q0.len() as int) =~= q0);
        assert forall|q: int| q0.len() <= q < q2.len() implies is_gamestate_broadcast(
            #[trigger] q2[q],
        ) by {
            if q < q1.len() {
                assert(q2[q] == q2.take(q1.len() as int)[q]);
                assert(q1[q] == q1.take(q0.len() as int)[q] || q >= q0.len());
            }
        }
    }
}

/// A lobby one tick later: the counter advanced, everything else stays.
pub open spec fn lobby_ticked(pre: MyLobby, post: MyLobby) -> bool {
    &&& post.state == pre.state
    &&& post.lobby_name == pre.lobby_name
    &&& post.players@ == pre.players@
    &&& post.spectators@ == pre.spectators@
    &&& post.map_name == pre.map_name
    &&& post.map_config == pre.map_config
    &&& post.tick == pre.tick + 1
}

impl LobbyManagementSystemParam {
    /// The tick-increment phase: every lobby's counter advances by one,
    /// and the scheduler hands back one simulation step per lobby, in
    /// directory order, each at its lobby's new tick.
    pub fn increment_ticks(&mut self) -> (steps: Vec<SimStep>)
        requires
            old(self).wf(),
            forall|k: int|
                0 <= k < old(self).arena().len() ==> (#[trigger] old(self).arena()[k]).1.tick
                    < u64::MAX,
        ensures
            final(self).wf(),
            final(self).next_entity == old(self).next_entity,
            final(self).dir() == old(self).dir(),
            final(self).arena().len() == old(self).arena().len(),
            forall|k: int|
                0 <= k < old(self).arena().len() ==> (#[trigger] final(self).arena()[k]).0 == old(
                    self,
                ).arena()[k].0 && lobby_ticked(old(self).arena()[k].1, final(self).arena()[k].1),
            steps@.len() == old(self).arena().len(),
            forall|k: int|
                0 <= k < steps@.len() ==> #[trigger] steps@[k] == (SimStep {
                    lobby: old(self).arena()[k].0,
                    tick: (old(self).arena()[k].1.tick + 1) as u64,
                }),
    {
        let n = self.lobby_entities.len();
        let mut steps: Vec<SimStep> = Vec::new();
        let mut i: usize = 0;
        while i < n
            invariant
                i <= n,
                n == old(self).arena().len(),
                old(self).wf(),
                forall|k: int|
                    0 <= k < n ==> (#[trigger] old(self).arena()[k]).1.tick < u64::MAX,
                self.next_entity == old(self).next_entity,
                self.dir() == old(self).dir(),
                self.arena().len() == n,
                steps@.len() == i,
                forall|k: int| i <= k < n ==> #[trigger] self.arena()[k] == old(self).arena()[k],
                forall|k: int|
                    0 <= k < i ==> (#[trigger] self.arena()[k]).0 == old(self).arena()[k].0
                        && lobby_ticked(old(self).arena()[k].1, self.arena()[k].1),
                forall|k: int|
                    0 <= k < i ==> #[trigger] steps@[k] == (SimStep {
                        lobby: old(self).arena()[k].0,
                        tick: (old(self).arena()[k].1.tick + 1) as u64,
                    }),
            decreases n - i,
        {
            let ghost before = self.lobby_entities@;
            let (e, mut lob) = self.lobby_entities.remove(i);
            let new_tick = lob.tick + 1;
            lob.tick = new_tick;
            self.lobby_entities.insert(i, (e, lob));
            steps.push(SimStep { lobby: e, tick: new_tick });
            proof {
                assert(self.lobby_entities@ =~= before.update(i as int, (e, lob)));
                assert(self.arena()[i as int] == (e, lob));
            }
            i = i + 1;
        }
        proof {
            assert forall|k: int| 0 <= k < self.dir().len() implies {
                &&& (#[trigger] self.arena()[k]).0 == self.dir()[k].1
                &&& self.arena()[k].1.lobby_name@ == self.dir()[k].0@
                &&& self.arena()[k].0 < self.next_entity
                &&& self.arena()[k].1.wf()
                &&& self.arena()[k].1.member_count() > 0
            } by {
                assert(lobby_ticked(old(self).arena()[k].1, self.arena()[k].1));
                assert(old(self).arena()[k].1.wf());
            }
        }
        steps
    }

    /// Every member of the named lobby: players first, then spectators.
    pub fn members_of(&self, lobby: u64) -> (r: Vec<u64>)
        requires
            self.wf(),
        ensures
            self.has_entity(lobby) ==> r@ == self.lobby_for_entity(lobby).players@
                + self.lobby_for_entity(lobby).spectators@,
            !self.has_entity(lobby) ==> r@ == Seq::<u64>::empty(),
    {
        match self.find_entity_index(lobby) {
            None => Vec::new(),
            Some(i) => {
                proof {
                    crate::lobby_management::lemma_entity_index_unique(*self, lobby, i as int);
                }
                concat_u64(&self.lobby_entities[i].1.players, &self.lobby_entities[i].1.spectators)
            },
        }
    }
}

/// Whether a session's recorded team choice equals the handshake's,
/// letter for letter.
pub open spec fn team_matches(recorded: Option<String>, wanted: Option<String>) -> bool {
    match (recorded, wanted) {
        (Some(a), Some(b)) => a@ == b@,
        (None, None) => true,
        _ => false,
    }
}

/// The server: the session registry beside the lobby directory. Every
/// lobby held by the directory has a resolved map configuration — a
/// lobby whose map fails to resolve never survives its handshake.
pub struct GameServer {
    pub clients: SessionRegistry,
    pub lobby_management: LobbyManagementSystemParam,
}

impl GameServer {
    pub open spec fn all_lobbies_resolved(self) -> bool {
        forall|k: int|
            0 <= k < self.lobby_management.arena().len() ==> (
            #[trigger] self.lobby_management.arena()[k]).1.map_config is Some
    }

    pub open spec fn wf(self) -> bool {
        &&& self.clients.wf()
        &&& self.lobby_management.wf()
        &&& self.all_lobbies_resolved()
    }

    /// A fresh server arming new sessions with the given handshake
    /// timeout.
    pub fn new(timeout_first_contact: u64) -> (r: Self)
        ensures
            r.wf(),
            r.clients.rows().len() == 0,
            r.lobby_management.dir().len() == 0,
    {
        GameServer {
            clients: SessionRegistry::new(timeout_first_contact),
            lobby_management: LobbyManagementSystemParam::new(),
        }
    }

    /// Accept a connection: register the session, which starts its
    /// handshake countdown.
    pub fn accept_connection(&mut self, address: String) -> (r: u64)
        requires
            old(self).wf(),
            old(self).clients.next_session < u64::MAX,
        ensures
            final(self).wf(),
            final(self).lobby_management == old(self).lobby_management,
            r == old(self).clients.next_session,
            final(self).clients.has_session(r),
            final(self).clients.client_for(r).awaiting_first_contact == Some(
                crate::session::AwaitingFirstContact(old(self).clients.timeout_first_contact),
            ),
            final(self).clients.rows().len() == old(self).clients.rows().len() + 1,
            forall|k: int|
                0 <= k < old(self).clients.rows().len() ==> final(self).clients.rows()[k] == old(
                    self,
                ).clients.rows()[k],
    {
        let trigger = self.clients.register(address);
        trigger.0
    }

    /// Whether the handshake payload passes validation: a non-empty bot
    /// name, and a team name whenever the client wants to play.
    pub open spec fn handshake_valid(message: FirstContactData) -> bool {
        &&& message.bot_name@.len() > 0
        &&& (message.client_type == ClientType::Player ==> message.team_name is Some)
    }

    /// Handle a handshake: validate the payload, record the sender's
    /// identity, then assemble the lobby. An existing lobby is joined as
    /// it is — the handshake's map name is ignored. A fresh lobby needs a
    /// map name and the map store's lookup result for it (`map_lookup`,
    /// supplied by the caller from the external store): on a hit the
    /// configuration is installed and the roster batch-assigned to teams;
    /// on a miss the fresh lobby is torn down and its would-be members
    /// return to the pre-lobby state. On success the sender's countdown
    /// is cleared and its session bound to the lobby.
    pub fn handle_first_contact_message(
        &mut self,
        sender: u64,
        message: &FirstContactData,
        map_lookup: Option<MapConfig>,
    ) -> (r: Result<u64, FirstContactError>)
        requires
            old(self).wf(),
            old(self).lobby_management.next_entity < u64::MAX,
            map_lookup matches Some(c) ==> c.wf() && forall|t: int|
                0 <= t < c.teams@.len() ==> (#[trigger] c.teams@[t]).1.players@.len() == 0,
        ensures
            final(self).wf(),
            // protocol validation, checked in this order, rejects and
            // changes nothing
            message.bot_name@.len() == 0 ==> r == Err::<u64, FirstContactError>(
                FirstContactError::EmptyBotName,
            ) && *final(self) == *old(self),
            message.bot_name@.len() > 0 && message.client_type == ClientType::Player
                && message.team_name is None ==> r == Err::<u64, FirstContactError>(
                FirstContactError::MissingTeamName,
            ) && *final(self) == *old(self),
            Self::handshake_valid(*message) && !old(self).clients.has_session(sender) ==> r
                == Err::<u64, FirstContactError>(FirstContactError::UnknownSession) && *final(self) == *old(self),
            // an unused lobby id without a map name creates nothing
            Self::handshake_valid(*message) && old(self).clients.has_session(sender) && !old(
                self,
            ).lobby_management.has_lobby_id(message.lobby_name@) && message.map_name is None
                ==> {
                &&& r == Err::<u64, FirstContactError>(FirstContactError::MissingMapName)
                &&& final(self).lobby_management.dir() == old(self).lobby_management.dir()
                &&& final(self).lobby_management.arena() == old(self).lobby_management.arena()
                // the identity binding made before assembly survives the
                // failed attempt; lobby and countdown state are untouched
                &&& final(self).clients.has_session(sender)
                &&& final(self).clients.client_for(sender).name matches Some(nm) && nm@
                    == message.bot_name@
                &&& final(self).clients.client_for(sender).client_type == message.client_type
                &&& team_matches(
                    final(self).clients.client_for(sender).team_name,
                    message.team_name,
                )
                &&& final(self).clients.client_for(sender).in_lobby == old(
                    self,
                ).clients.client_for(sender).in_lobby
                &&& final(self).clients.client_for(sender).awaiting_first_contact == old(
                    self,
                ).clients.client_for(sender).awaiting_first_contact
            },
            // a failed map lookup tears the fresh lobby down again
            Self::handshake_valid(*message) && old(self).clients.has_session(sender) && !old(
                self,
            ).lobby_management.has_lobby_id(message.lobby_name@) && message.map_name is Some
                && map_lookup is None ==> {
                &&& r == Err::<u64, FirstContactError>(FirstContactError::MapNotFound)
                &&& final(self).lobby_management.dir() == old(self).lobby_management.dir()
                &&& final(self).lobby_management.arena() == old(self).lobby_management.arena()
                // the torn-down lobby's only would-be member, the sender,
                // is back in the pre-lobby state: unbound, team choice
                // cleared, handshake countdown re-armed; the name binding
                // survives
                &&& final(self).clients.has_session(sender)
                &&& final(self).clients.client_for(sender).name matches Some(nm) && nm@
                    == message.bot_name@
                &&& final(self).clients.client_for(sender).client_type == message.client_type
                &&& final(self).clients.client_for(sender).team_name is None
                &&& final(self).clients.client_for(sender).in_lobby is None
                &&& final(self).clients.client_for(sender).awaiting_first_contact == Some(
                    crate::session::AwaitingFirstContact(old(self).clients.timeout_first_contact),
                )
            },
            // the cases on which success is owed
            r is Ok <==> Self::handshake_valid(*message) && old(self).clients.has_session(sender)
                && (old(self).lobby_management.has_lobby_id(message.lobby_name@) || (
            message.map_name is Some && map_lookup is Some)),
            // what success delivers
            r matches Ok(e) ==> {
                let lobby = final(self).lobby_management.lobby_for_entity(e);
                &&& final(self).lobby_management.has_lobby_id(message.lobby_name@)
                &&& final(self).lobby_management.entity_for_id(message.lobby_name@) == e
                &&& final(self).lobby_management.has_entity(e)
                &&& (message.client_type == ClientType::Player ==> lobby.is_player(sender))
                &&& (message.client_type == ClientType::Spectator ==> lobby.is_spectator(
                    sender,
                ))
                &&& lobby.map_config is Some
                &&& (message.client_type == ClientType::Player
                    && lobby.map_config.unwrap().has_team(message.team_name.unwrap()@)
                    ==> lobby.map_config.unwrap().team_at_has_player(
                    lobby.map_config.unwrap().team_index(message.team_name.unwrap()@),
                    sender,
                ))
                &&& final(self).clients.has_session(sender)
                &&& final(self).clients.client_for(sender).in_lobby == Some(
                    crate::lobby::InLobby(e),
                )
                &&& final(self).clients.client_for(sender).awaiting_first_contact is None
                &&& final(self).clients.client_for(sender).name matches Some(nm) && nm@
                    == message.bot_name@
                &&& final(self).clients.client_for(sender).client_type == message.client_type
                &&& team_matches(
                    final(self).clients.client_for(sender).team_name,
                    message.team_name,
                )
            },
            // a join of an existing lobby id returns the previously
            // registered entity, adds no directory entry, and changes the
            // lobby only by the join itself: the sender enters its
            // requested roster and, when the resolved map lists its
            // recorded team, that team's roster
            Self::handshake_valid(*message) && old(self).clients.has_session(sender) && old(
                self,
            ).lobby_management.has_lobby_id(message.lobby_name@) ==> {
                let i = old(self).lobby_management.id_index(message.lobby_name@);
                let pre = old(self).lobby_management.arena()[i].1;
                let post = final(self).lobby_management.arena()[i].1;
                &&& r == Ok::<u64, FirstContactError>(
                    old(self).lobby_management.entity_for_id(message.lobby_name@),
                )
                &&& final(self).lobby_management.dir() == old(self).lobby_management.dir()
                &&& final(self).lobby_management.arena().len() == old(
                    self,
                ).lobby_management.arena().len()
                &&& forall|k: int|
                    0 <= k < old(self).lobby_management.arena().len() && k != i ==> final(self).lobby_management.arena()[k] == old(self).lobby_management.arena()[k]
                &&& post.state == pre.state
                &&& post.lobby_name == pre.lobby_name
                &&& post.map_name == pre.map_name
                &&& post.tick == pre.tick
                &&& (message.client_type == ClientType::Player ==> post.players@ == (
                if pre.players@.contains(sender) {
                    pre.players@
                } else {
                    pre.players@.push(sender)
                }) && post.spectators@ == pre.spectators@)
                &&& (message.client_type == ClientType::Spectator ==> post.players@
                    == pre.players@ && post.spectators@ == (if pre.spectators@.contains(
                    sender,
                ) {
                    pre.spectators@
                } else {
                    pre.spectators@.push(sender)
                }))
                &&& pre.map_config is Some
                &&& post.map_config is Some
                &&& {
                    let mc0 = pre.map_config.unwrap();
                    let mc1 = post.map_config.unwrap();
                    &&& mc1.map == mc0.map
                    &&& mc1.teams@.len() == mc0.teams@.len()
                    &&& forall|t: int|
                        0 <= t < mc0.teams@.len() ==> (#[trigger] mc1.teams@[t]).0
                            == mc0.teams@[t].0 && mc1.teams@[t].1.color == mc0.teams@[t].1.color
                            && mc1.teams@[t].1.max_players == mc0.teams@[t].1.max_players
                    &&& (message.client_type == ClientType::Player && mc0.has_team(
                        message.team_name.unwrap()@,
                    ) ==> {
                        let t = mc0.team_index(message.team_name.unwrap()@);
                        &&& mc1.teams@[t].1.players@ == mc0.teams@[t].1.players@.push(sender)
                        &&& forall|k: int|
                            0 <= k < mc0.teams@.len() && k != t ==> (
                            #[trigger] mc1.teams@[k]).1.players@ == mc0.teams@[k].1.players@
                    })
                    &&& (message.client_type == ClientType::Spectator || !mc0.has_team(
                        message.team_name.unwrap()@,
                    ) ==> forall|t: int|
                        0 <= t < mc0.teams@.len() ==> (#[trigger] mc1.teams@[t]).1.players@
                            == mc0.teams@[t].1.players@)
                }
            },
            // a fresh lobby is created exactly: registered under the
            // handshake's lobby id at a fresh entity, setting up at tick
            // zero with the sender as its only member, the named map
            // recorded, and the supplied configuration installed with the
            // sender placed in its recorded team
            Self::handshake_valid(*message) && old(self).clients.has_session(sender) && !old(
                self,
            ).lobby_management.has_lobby_id(message.lobby_name@) && message.map_name is Some
                && map_lookup is Some ==> {
                let n = old(self).lobby_management.dir().len() as int;
                let config = map_lookup.unwrap();
                let lobby = final(self).lobby_management.arena()[n].1;
                &&& r == Ok::<u64, FirstContactError>(old(self).lobby_management.next_entity)
                &&& final(self).lobby_management.dir().len() == n + 1
                &&& final(self).lobby_management.arena().len() == n + 1
                &&& forall|k: int|
                    0 <= k < n ==> final(self).lobby_management.dir()[k] == old(
                        self,
                    ).lobby_management.dir()[k] && final(self).lobby_management.arena()[k] == old(
                        self,
                    ).lobby_management.arena()[k]
                &&& final(self).lobby_management.dir()[n].0@ == message.lobby_name@
                &&& final(self).lobby_management.dir()[n].1 == old(
                    self,
                ).lobby_management.next_entity
                &&& final(self).lobby_management.arena()[n].0 == old(
                    self,
                ).lobby_management.next_entity
                &&& lobby.state == LobbyState::SettingUp
                &&& lobby.lobby_name@ == message.lobby_name@
                &&& lobby.map_name@ == message.map_name.unwrap()@
                &&& lobby.tick == 0
                &&& (message.client_type == ClientType::Player ==> lobby.players@
                    =~= seq![sender] && lobby.spectators@.len() == 0)
                &&& (message.client_type == ClientType::Spectator ==> lobby.spectators@
                    =~= seq![sender] && lobby.players@.len() == 0)
                &&& lobby.map_config is Some
                &&& {
                    let mc = lobby.map_config.unwrap();
                    &&& mc.map == config.map
                    &&& mc.teams@.len() == config.teams@.len()
                    &&& forall|t: int|
                        0 <= t < config.teams@.len() ==> {
                            &&& (#[trigger] mc.teams@[t]).0 == config.teams@[t].0
                            &&& mc.teams@[t].1.color == config.teams@[t].1.color
                            &&& mc.teams@[t].1.max_players == config.teams@[t].1.max_players
                            &&& mc.teams@[t].1.players@ == (if message.client_type
                                == ClientType::Player && message.team_name.unwrap()@
                                == config.teams@[t].0@ {
                                seq![sender]
                            } else {
                                Seq::<u64>::empty()
                            })
                        }
                }
            },
    {
        if message.bot_name.as_str().unicode_len() == 0 {
            return Err(FirstContactError::EmptyBotName);
        }
        let is_player = match message.client_type {
            ClientType::Player => true,
            ClientType::Spectator => false,
        };
        if is_player {
            match &message.team_name {
                None => {
                    return Err(FirstContactError::MissingTeamName);
                },
                Some(_) => {},
            }
        }
        let team_clone: Option<String> = match &message.team_name {
            Some(t) => Some(t.clone()),
            None => None,
        };
        let bound = self.clients.bind_handshake(
            sender,
            message.bot_name.clone(),
            team_clone,
            message.client_type,
        );
        if !bound {
            return Err(FirstContactError::UnknownSession);
        }
        let ghost reg_after_bind = self.clients;
        let existed = self.lobby_management.contains_lobby_id(&message.lobby_name);
        let ghost dir_before = self.lobby_management;
        let entity = match self.lobby_management.get_or_insert_lobby_entity(
            &message.lobby_name,
            sender,
            message.map_name.as_ref(),
            message.client_type,
        ) {
            Ok(e) => e,
            Err(_) => {
                proof {
                    let i0 = old(self).clients.session_index(sender);
                    assert(0 <= i0 < old(self).clients.rows().len() && old(self).clients.rows()[
                        i0
                    ].0 == sender);
                    assert(self.clients.rows()[i0].0 == sender);
                    crate::session::lemma_session_index_unique(self.clients, sender, i0);
                }
                return Err(FirstContactError::MissingMapName);
            },
        };
        if existed {
            let ghost dir_joined = self.lobby_management;
            if is_player {
                match &message.team_name {
                    Some(tn) => {
                        let _ = self.lobby_management.insert_player_into_lobby_team(
                            entity,
                            tn,
                            sender,
                        );
                    },
                    None => {},
                }
            }
            let _ = self.clients.clear_awaiting_and_bind(sender, entity);
            proof {
                let i = dir_before.id_index(message.lobby_name@);
                assert(dir_before.entity_for_id(message.lobby_name@) == dir_before.dir()[i].1);
                assert(dir_joined.arena()[i].0 == dir_before.arena()[i].0);
                assert(dir_before.arena()[i].0 == dir_before.dir()[i].1);
                assert(entity == dir_before.dir()[i].1);
                crate::lobby_management::lemma_same_dir_id_lookup(
                    dir_joined,
                    self.lobby_management,
                    message.lobby_name@,
                );
                crate::lobby_management::lemma_entity_index_unique(
                    self.lobby_management,
                    entity,
                    i,
                );
                assert forall|k: int|
                    0 <= k < self.lobby_management.arena().len() implies (
                #[trigger] self.lobby_management.arena()[k]).1.map_config is Some by {
                    if k != i {
                        assert(self.lobby_management.arena()[k] == dir_before.arena()[k]);
                    } else {
                        assert(crate::lobby_management::lobby_joined(
                            dir_before.arena()[i].1,
                            dir_joined.arena()[i].1,
                            sender,
                            message.client_type,
                        ));
                    }
                }
                // the sender joined the roster it asked for
                let pre_join = dir_before.arena()[i].1;
                let joined = dir_joined.arena()[i].1;
                match message.client_type {
                    ClientType::Player => {
                        if !pre_join.players@.contains(sender) {
                            assert(joined.players@ == pre_join.players@.push(sender));
                            assert(joined.players@[joined.players@.len() - 1] == sender);
                        }
                        assert(joined.is_player(sender));
                        assert(self.lobby_management.arena()[i].1.players@ == joined.players@);
                        assert(self.lobby_management.arena()[i].1.is_player(sender));
                    },
                    ClientType::Spectator => {
                        if !pre_join.spectators@.contains(sender) {
                            assert(joined.spectators@ == pre_join.spectators@.push(sender));
                            assert(joined.spectators@[joined.spectators@.len() - 1] == sender);
                        }
                        assert(joined.is_spectator(sender));
                        assert(self.lobby_management.arena()[i].1.spectators@
                            == joined.spectators@);
                        assert(self.lobby_management.arena()[i].1.is_spectator(sender));
                    },
                }
                // team placement: the join-time insert pushed the sender
                if is_player {
                    let lobby = self.lobby_management.arena()[i].1;
                    let tn = message.team_name.unwrap()@;
                    let mc1 = lobby.map_config.unwrap();
                    let mc0 = joined.map_config.unwrap();
                    if mc1.has_team(tn) {
                        let t1 = mc1.team_index(tn);
                        assert(mc1.teams@[t1].0@ == tn);
                        if joined.is_player(sender) && mc0.has_team(tn) {
                            let t0 = mc0.team_index(tn);
                            assert(mc0.teams@[t0].0@ == tn);
                            assert(mc1.teams@[t0].1.players@ == mc0.teams@[
                                t0
                            ].1.players@.push(sender));
                            assert(mc1.teams@[t0].0 == mc0.teams@[t0].0);
                            assert(t1 == t0);
                            assert(mc1.teams@[t1].1.players@[mc1.teams@[t1].1.players@.len()
                                - 1] == sender);
                            assert(mc1.team_at_has_player(t1, sender));
                        } else {
                            // a team exists after the insert only if it
                            // existed before it
                            assert(mc1 == mc0);
                            assert(false);
                        }
                    }
                }
                // the sender's session is bound to the lobby
                let i0 = old(self).clients.session_index(sender);
                assert(0 <= i0 < old(self).clients.rows().len() && old(self).clients.rows()[
                    i0
                ].0 == sender);
                assert(reg_after_bind.rows()[i0].0 == sender);
                crate::session::lemma_session_index_unique(reg_after_bind, sender, i0);
                assert(self.clients.rows()[i0].0 == sender);
                crate::session::lemma_session_index_unique(self.clients, sender, i0);
                // the joined row relates to the old row exactly: the join
                // itself, then at most the recorded team's insertion
                let pre = dir_before.arena()[i].1;
                let joined = dir_joined.arena()[i].1;
                let post = self.lobby_management.arena()[i].1;
                assert(crate::lobby_management::lobby_joined(
                    pre,
                    joined,
                    sender,
                    message.client_type,
                ));
                assert(pre.map_config is Some);
                assert forall|k: int|
                    0 <= k < dir_before.arena().len() && k != i implies #[trigger] self.lobby_management.arena()[k]
                        == dir_before.arena()[k] by {
                    assert(dir_joined.arena()[k] == dir_before.arena()[k]);
                }
                if is_player {
                    crate::lobby_management::lemma_entity_index_unique(dir_joined, entity, i);
                    assert(joined.map_config == pre.map_config);
                    let mc0 = pre.map_config.unwrap();
                    if mc0.has_team(message.team_name.unwrap()@) {
                        assert(joined.is_player(sender));
                    } else {
                        assert(post.map_config == joined.map_config);
                    }
                } else {
                    assert(post == joined);
                }
            }
            Ok(entity)
        } else {
            match map_lookup {
                None => {
                    let ghost dir_created = self.lobby_management;
                    let members = self.lobby_management.remove_lobby(entity);
                    proof {
                        let n0 = dir_before.dir().len() as int;
                        crate::lobby_management::lemma_entity_index_unique(
                            dir_created,
                            entity,
                            n0,
                        );
                        // the fresh lobby held exactly the sender
                        assert(members@ =~= seq![sender]);
                        assert(self.lobby_management.dir() =~= dir_before.dir());
                        assert(self.lobby_management.arena() =~= dir_before.arena());
                        assert forall|k: int|
                            0 <= k < self.lobby_management.arena().len() implies (
                        #[trigger] self.lobby_management.arena()[k]).1.map_config is Some by {
                            assert(self.lobby_management.arena()[k] == dir_before.arena()[k]);
                        }
                    }
                    let _ = self.clients.re_arm_awaiting(members[0]);
                    proof {
                        let i0 = old(self).clients.session_index(sender);
                        assert(0 <= i0 < old(self).clients.rows().len() && old(
                            self,
                        ).clients.rows()[i0].0 == sender);
                        assert(reg_after_bind.rows()[i0].0 == sender);
                        crate::session::lemma_session_index_unique(reg_after_bind, sender, i0);
                        assert(self.clients.rows()[i0].0 == sender);
                        crate::session::lemma_session_index_unique(self.clients, sender, i0);
                    }
                    Err(FirstContactError::MapNotFound)
                },
                Some(config) => {
                    let mut player_teams: Vec<(u64, String)> = Vec::new();
                    if is_player {
                        match &message.team_name {
                            Some(tn) => {
                                player_teams.push((sender, tn.clone()));
                            },
                            None => {},
                        }
                    }
                    let ghost dir_created = self.lobby_management;
                    let _ = self.lobby_management.apply_map_config(
                        entity,
                        config,
                        &player_teams,
                    );
                    let _ = self.clients.clear_awaiting_and_bind(sender, entity);
                    proof {
                        let n0 = dir_before.dir().len() as int;
                        crate::lobby_management::lemma_entity_index_unique(
                            dir_created,
                            entity,
                            n0,
                        );
                        crate::lobby_management::lemma_same_dir_id_lookup(
                            dir_created,
                            self.lobby_management,
                            message.lobby_name@,
                        );
                        crate::lobby_management::lemma_entity_index_unique(
                            self.lobby_management,
                            entity,
                            n0,
                        );
                        assert forall|k: int|
                            0 <= k < self.lobby_management.arena().len() implies (
                        #[trigger] self.lobby_management.arena()[k]).1.map_config is Some by {
                            if k != n0 {
                                assert(self.lobby_management.arena()[k] == dir_created.arena()[
                                    k
                                ]);
                                assert(dir_created.arena()[k] == dir_before.arena()[k]);
                            }
                        }
                        let lobby = self.lobby_management.arena()[n0].1;
                        if is_player {
                            let tn = message.team_name.unwrap()@;
                            let mc = lobby.map_config.unwrap();
                            assert(lobby.players@ =~= seq![sender]);
                            if mc.has_team(tn) {
                                let t = mc.team_index(tn);
                                assert(mc.teams@[t].0@ == tn);
                                let pred = crate::lobby_management::team_pred(
                                    player_teams@,
                                    config.teams@[t].0@,
                                );
                                assert(crate::lobby_management::recorded_team(
                                    player_teams@,
                                    sender,
                                ) == Some(tn));
                                assert(pred(sender));
                                assert(mc.teams@[t].1.players@ == dir_created.arena()[
                                    n0
                                ].1.players@.filter(pred));
                                assert(dir_created.arena()[n0].1.players@ =~= seq![sender]);
                                crate::util::lemma_filter_all_true(seq![sender], pred);
                                assert(mc.teams@[t].1.players@ =~= seq![sender]);
                                assert(mc.teams@[t].1.players@[0] == sender);
                                assert(mc.team_at_has_player(t, sender));
                            }
                        }
                        // the sender stands on the fresh lobby's roster
                        match message.client_type {
                            ClientType::Player => {
                                assert(dir_created.arena()[n0].1.players@ =~= seq![sender]);
                                assert(lobby.players@ == dir_created.arena()[n0].1.players@);
                                assert(lobby.players@[0] == sender);
                                assert(lobby.is_player(sender));
                            },
                            ClientType::Spectator => {
                                assert(dir_created.arena()[n0].1.spectators@ =~= seq![sender]);
                                assert(lobby.spectators@ == dir_created.arena()[
                                    n0
                                ].1.spectators@);
                                assert(lobby.spectators@[0] == sender);
                                assert(lobby.is_spectator(sender));
                            },
                        }
                        // the sender's session is bound to the lobby
                        let i0 = old(self).clients.session_index(sender);
                        assert(0 <= i0 < old(self).clients.rows().len() && old(
                            self,
                        ).clients.rows()[i0].0 == sender);
                        assert(reg_after_bind.rows()[i0].0 == sender);
                        crate::session::lemma_session_index_unique(reg_after_bind, sender, i0);
                        assert(self.clients.rows()[i0].0 == sender);
                        crate::session::lemma_session_index_unique(self.clients, sender, i0);
                        // the fresh row is exactly the created lobby with
                        // the supplied configuration installed
                        assert forall|k: int|
                            0 <= k < n0 implies #[trigger] self.lobby_management.dir()[k]
                            == dir_before.dir()[k] && self.lobby_management.arena()[k]
                            == dir_before.arena()[k] by {
                            assert(dir_created.dir()[k] == dir_before.dir()[k]);
                            assert(dir_created.arena()[k] == dir_before.arena()[k]);
                        }
                        let created = dir_created.arena()[n0].1;
                        assert(lobby.state == created.state);
                        assert(lobby.map_name == created.map_name);
                        assert(lobby.tick == created.tick);
                        let tn_seq = message.team_name.unwrap()@;
                        let mc = lobby.map_config.unwrap();
                        assert forall|t: int|
                            0 <= t < config.teams@.len() implies (
                        #[trigger] mc.teams@[t]).1.players@ == (if message.client_type
                            == ClientType::Player && tn_seq == config.teams@[t].0@ {
                            seq![sender]
                        } else {
                            Seq::<u64>::empty()
                        }) by {
                            let pred = crate::lobby_management::team_pred(
                                player_teams@,
                                config.teams@[t].0@,
                            );
                            assert(mc.teams@[t].1.players@ == created.players@.filter(pred));
                            if is_player {
                                assert(created.players@ =~= seq![sender]);
                                assert(crate::lobby_management::recorded_team(
                                    player_teams@,
                                    sender,
                                ) == Some(tn_seq));
                                if tn_seq == config.teams@[t].0@ {
                                    assert(pred(sender));
                                    crate::util::lemma_filter_all_true(seq![sender], pred);
                                    assert(created.players@.filter(pred) == seq![sender]);
                                } else {
                                    assert(!pred(sender));
                                    crate::util::lemma_filter_all_false(seq![sender], pred);
                                    assert(created.players@.filter(pred) == Seq::<u64>::empty());
                                }
                            } else {
                                assert(created.players@ =~= Seq::<u64>::empty());
                                crate::util::lemma_filter_all_false(
                                    Seq::<u64>::empty(),
                                    pred,
                                );
                                assert(created.players@.filter(pred) == Seq::<u64>::empty());
                            }
                        }
                    }
                    Ok(entity)
                },
            }
        }
    }

    /// The broadcast phase for one lobby: queue the authoritative
    /// snapshot, targeted `AllInLobby`, for every member session.
    pub fn broadcast_game_state(&mut self, lobby: u64, state: &GameState)
        requires
            old(self).wf(),
        ensures
            final(self).wf(),
            final(self).lobby_management == old(self).lobby_management,
            gamestate_broadcasts_appended(old(self).clients.rows(), final(self).clients.rows()),
            !old(self).lobby_management.has_entity(lobby) ==> *final(self) == *old(self),
            old(self).lobby_management.has_entity(lobby) ==> {
                let members = old(self).lobby_management.lobby_for_entity(lobby).players@ + old(
                    self,
                ).lobby_management.lobby_for_entity(lobby).spectators@;
                forall|k: int|
                    0 <= k < old(self).clients.rows().len() ==> {
                        let q0 = (
                        #[trigger] old(self).clients.rows()[k]).1.outgoing_messages_queue@;
                        let q1 = final(self).clients.rows()[k].1.outgoing_messages_queue@;
                        &&& q1.len() == q0.len() + members.filter(
                            id_eq(old(self).clients.rows()[k].0),
                        ).len()
                        &&& forall|q: int|
                            q0.len() <= q < q1.len() ==> is_snapshot_broadcast_of(
                                #[trigger] q1[q],
                                *state,
                            )
                    }
            },
    {
        let members = self.lobby_management.members_of(lobby);
        if members.len() == 0 {
            // an unknown lobby, which is the only way to have no member
            proof {
                lemma_broadcasts_appended_refl(self.clients.rows());
            }
            return;
        }
        let ghost membersv = members@;
        let n = members.len();
        let mut i: usize = 0;
        proof {
            lemma_broadcasts_appended_refl(self.clients.rows());
            assert forall|k: int| 0 <= k < old(self).clients.rows().len() implies membersv.take(
                0int,
            ).filter(id_eq((#[trigger] old(self).clients.rows()[k]).0)).len() == 0 by {
                assert(membersv.take(0int).filter(id_eq(old(self).clients.rows()[k].0)) =~= Seq::<
                    u64,
                >::empty());
            }
        }
        while i < n
            invariant
                i <= n,
                n == membersv.len(),
                membersv == members@,
                self.lobby_management == old(self).lobby_management,
                old(self).wf(),
                self.clients.wf(),
                gamestate_broadcasts_appended(old(self).clients.rows(), self.clients.rows()),
                forall|k: int|
                    0 <= k < old(self).clients.rows().len() ==> {
                        let q0 = (
                        #[trigger] old(self).clients.rows()[k]).1.outgoing_messages_queue@;
                        let q1 = self.clients.rows()[k].1.outgoing_messages_queue@;
                        &&& q1.len() == q0.len() + membersv.take(i as int).filter(
                            id_eq(old(self).clients.rows()[k].0),
                        ).len()
                        &&& forall|q: int|
                            q0.len() <= q < q1.len() ==> is_snapshot_broadcast_of(
                                #[trigger] q1[q],
                                *state,
                            )
                    },
            decreases n - i,
        {
            let m = members[i];
            let msg = MessageContainer::new_sent(
                MessageTarget::AllInLobby,
                NetworkMessageType::GameState(state.duplicate()),
                state.tick,
            );
            let ghost rows_before = self.clients.rows();
            let ghost reg_before = self.clients;
            let ghost msgg = msg;
            let found = self.clients.push_message(m, msg);
            proof {
                assert(is_snapshot_broadcast_of(msgg, *state));
                assert(is_gamestate_broadcast(msgg));
                let rows0 = old(self).clients.rows();
                if found {
                    let idx = reg_before.session_index(m);
                    // hold the registry rows to the broadcast relation
                    assert forall|k: int| 0 <= k < rows_before.len() implies {
                        let c0 = (#[trigger] rows_before[k]).1;
                        let c1 = (#[trigger] self.clients.rows()[k]).1;
                        &&& self.clients.rows()[k].0 == rows_before[k].0
                        &&& c1.name == c0.name
                        &&& c1.address == c0.address
                        &&& c1.team_name == c0.team_name
                        &&& c1.client_type == c0.client_type
                        &&& c1.in_lobby == c0.in_lobby
                        &&& c1.awaiting_first_contact == c0.awaiting_first_contact
                        &&& c1.outgoing_messages_queue@.len()
                            >= c0.outgoing_messages_queue@.len()
                        &&& c1.outgoing_messages_queue@.take(
                            c0.outgoing_messages_queue@.len() as int,
                        ) == c0.outgoing_messages_queue@
                        &&& forall|q: int|
                            c0.outgoing_messages_queue@.len() <= q
                                < c1.outgoing_messages_queue@.len() ==> is_gamestate_broadcast(
                                #[trigger] c1.outgoing_messages_queue@[q],
                            )
                    } by {
                        let c0 = rows_before[k].1;
                        let c1 = self.clients.rows()[k].1;
                        if k == idx {
                            assert(c1.outgoing_messages_queue@ == c0.outgoing_messages_queue@.push(
                                msgg,
                            ));
                            assert(c1.outgoing_messages_queue@.take(
                                c0.outgoing_messages_queue@.len() as int,
                            ) =~= c0.outgoing_messages_queue@);
                        } else {
                            assert(self.clients.rows()[k] == rows_before[k]);
                            assert(c1.outgoing_messages_queue@.take(
                                c0.outgoing_messages_queue@.len() as int,
                            ) =~= c0.outgoing_messages_queue@);
                        }
                    }
                    lemma_broadcasts_appended_trans(rows0, rows_before, self.clients.rows());
                }
                // one more queued message exactly where the member's
                // session row stands
                assert forall|k: int| 0 <= k < rows0.len() implies {
                    let q0 = (#[trigger] rows0[k]).1.outgoing_messages_queue@;
                    let q1 = self.clients.rows()[k].1.outgoing_messages_queue@;
                    &&& q1.len() == q0.len() + membersv.take(i + 1int).filter(
                        id_eq(rows0[k].0),
                    ).len()
                    &&& forall|q: int|
                        q0.len() <= q < q1.len() ==> is_snapshot_broadcast_of(
                            #[trigger] q1[q],
                            *state,
                        )
                } by {
                    crate::util::lemma_filter_take_step(membersv, id_eq(rows0[k].0), i as int);
                    let q0 = rows0[k].1.outgoing_messages_queue@;
                    let qb = rows_before[k].1.outgoing_messages_queue@;
                    let q1 = self.clients.rows()[k].1.outgoing_messages_queue@;
                    if found {
                        let idx = reg_before.session_index(m);
                        assert(rows_before[k].0 == rows0[k].0);
                        if k == idx {
                            assert(rows0[k].0 == m);
                            assert(id_eq(rows0[k].0)(membersv[i as int]));
                            assert(q1 == qb.push(msgg));
                        } else {
                            // only one registry row carries the member's id
                            assert(reg_before.rows()[idx].0 == m);
                            assert(rows_before[k].0 != m);
                            assert(!id_eq(rows0[k].0)(membersv[i as int]));
                            assert(self.clients.rows()[k] == rows_before[k]);
                        }
                    } else {
                        // the member has no registered session at all
                        assert(!reg_before.has_session(m));
                        if rows0[k].0 == m {
                            assert(reg_before.rows()[k].0 == m);
                            assert(false);
                        }
                        assert(!id_eq(rows0[k].0)(membersv[i as int]));
                    }
                }
            }
            i = i + 1;
        }
        proof {
            if old(self).lobby_management.has_entity(lobby) {
                assert(membersv.take(n as int) =~= membersv);
            }
        }
    }

    /// One global tick: advance the handshake timers (disconnecting the
    /// sessions whose countdown ran out), then advance every lobby's tick
    /// counter — each of these runs for the whole lobby population before
    /// the next phase starts. After that, each lobby in directory order
    /// runs its simulation step exactly once, its finalization hook, and
    /// the broadcast of its authoritative snapshot to its members; a
    /// lobby's later phases follow its own earlier ones, and different
    /// lobbies' simulation steps are independent of one another.
    pub fn run_tick(&mut self, elapsed: u64) -> (r: (
        Vec<ClientDisconnectedTrigger>,
        Vec<SimStep>,
    ))
        requires
            old(self).wf(),
            forall|k: int|
                0 <= k < old(self).lobby_management.arena().len() ==> (#[trigger] old(
                    self,
                ).lobby_management.arena()[k]).1.tick < u64::MAX,
        ensures
            final(self).wf(),
            // phase 1: expired sessions are disconnected and reported
            forall|k: int|
                0 <= k < r.0@.len() ==> old(self).clients.has_session((#[trigger] r.0@[k]).0)
                    && !crate::session::survives_tick(
                    old(self).clients.client_for(r.0@[k].0),
                    elapsed,
                ),
            r.0@.len() + old(self).clients.rows().filter(survivor_row(elapsed)).len() == old(
                self,
            ).clients.rows().len(),
            // phase 2: every lobby's tick advances by one, nothing else moves
            final(self).lobby_management.dir() == old(self).lobby_management.dir(),
            final(self).lobby_management.arena().len() == old(
                self,
            ).lobby_management.arena().len(),
            forall|k: int|
                0 <= k < old(self).lobby_management.arena().len() ==> (#[trigger] final(self).lobby_management.arena()[k]).0 == old(self).lobby_management.arena()[k].0
                    && lobby_ticked(
                    old(self).lobby_management.arena()[k].1,
                    final(self).lobby_management.arena()[k].1,
                ),
            // phase 3: exactly one simulation step per lobby, in directory
            // order, at the lobby's new tick
            r.1@.len() == old(self).lobby_management.arena().len(),
            forall|k: int|
                0 <= k < r.1@.len() ==> #[trigger] r.1@[k] == (SimStep {
                    lobby: old(self).lobby_management.arena()[k].0,
                    tick: (old(self).lobby_management.arena()[k].1.tick + 1) as u64,
                }),
            // phase 5: the surviving sessions gained snapshot broadcasts only
            gamestate_broadcasts_appended(
                old(self).clients.rows().filter(survivor_row(elapsed)).map_values(
                    ticked_row(elapsed),
                ),
                final(self).clients.rows(),
            ),
            // phase 5: every lobby member whose session is registered
            // received that lobby's snapshot for the new tick
            forall|l: int, k: int|
                0 <= l < old(self).lobby_management.arena().len() && 0 <= k < final(self).clients.rows().len() && (#[trigger] old(
                    self,
                ).lobby_management.arena()[l]).1.is_member(
                    (#[trigger] final(self).clients.rows()[k]).0,
                ) ==> got_snapshot(
                    final(self).clients.rows()[k].1,
                    (old(self).lobby_management.arena()[l].1.tick + 1) as u64,
                ),
    {
        let disconnected = self.clients.handle_awaiting_first_contact(elapsed);
        let steps = self.lobby_management.increment_ticks();
        let ghost mid_rows = self.clients.rows();
        let ghost dir_after = self.lobby_management;
        let ghost dir_pre = old(self).lobby_management;
        proof {
            lemma_broadcasts_appended_refl(self.clients.rows());
        }
        let n = steps.len();
        let mut i: usize = 0;
        while i < n
            invariant
                i <= n,
                n == steps@.len(),
                n == dir_pre.arena().len(),
                self.clients.wf(),
                self.lobby_management == dir_after,
                self.lobby_management.wf(),
                self.all_lobbies_resolved(),
                dir_after.arena().len() == n,
                forall|l: int|
                    0 <= l < n ==> (#[trigger] dir_after.arena()[l]).0 == dir_pre.arena()[l].0
                        && lobby_ticked(dir_pre.arena()[l].1, dir_after.arena()[l].1),
                forall|l: int|
                    0 <= l < n ==> #[trigger] steps@[l] == (SimStep {
                        lobby: dir_pre.arena()[l].0,
                        tick: (dir_pre.arena()[l].1.tick + 1) as u64,
                    }),
                gamestate_broadcasts_appended(mid_rows, self.clients.rows()),
                forall|l: int, k: int|
                    0 <= l < i && 0 <= k < self.clients.rows().len() && (#[trigger] dir_pre.arena()[
                        l
                    ]).1.is_member((#[trigger] self.clients.rows()[k]).0) ==> got_snapshot(
                        self.clients.rows()[k].1,
                        steps@[l].tick,
                    ),
            decreases n - i,
        {
            let step = steps[i];
            let sim_result = process_tick_sim(&step);
            let snapshot = process_tick_sim_finished(&step, sim_result);
            let ghost rows_before = self.clients.rows();
            let ghost reg_before = self.clients;
            self.broadcast_game_state(step.lobby, &snapshot);
            proof {
                lemma_broadcasts_appended_trans(mid_rows, rows_before, self.clients.rows());
                crate::lobby_management::lemma_entity_index_unique(
                    dir_after,
                    step.lobby,
                    i as int,
                );
                let lob = dir_after.arena()[i as int].1;
                let members = lob.players@ + lob.spectators@;
                assert forall|l: int, k: int|
                    0 <= l < i + 1 && 0 <= k < self.clients.rows().len() && (
                #[trigger] dir_pre.arena()[l]).1.is_member(
                    (#[trigger] self.clients.rows()[k]).0,
                ) implies got_snapshot(self.clients.rows()[k].1, steps@[l].tick) by {
                    let id = self.clients.rows()[k].0;
                    let qb = rows_before[k].1.outgoing_messages_queue@;
                    let q1 = self.clients.rows()[k].1.outgoing_messages_queue@;
                    if l < i {
                        // the earlier snapshot is still in the queue: the
                        // broadcast only appended behind it
                        assert(rows_before[k].0 == id);
                        assert(dir_pre.arena()[l].1.is_member(rows_before[k].0));
                        assert(got_snapshot(rows_before[k].1, steps@[l].tick));
                        let q = choose|q: int|
                            0 <= q < qb.len() && (#[trigger] qb[q]).tick_sent == steps@[l].tick
                                && qb[q].target == MessageTarget::AllInLobby && qb[q].message
                                is GameState;
                        assert(q1.take(qb.len() as int) == qb);
                        assert(q1[q] == qb[q]);
                    } else {
                        // this very broadcast queued the new snapshot
                        assert(lob.players@ == dir_pre.arena()[l].1.players@);
                        assert(lob.spectators@ == dir_pre.arena()[l].1.spectators@);
                        if dir_pre.arena()[l].1.is_player(id) {
                            let j = choose|j: int|
                                0 <= j < lob.players@.len() && lob.players@[j] == id;
                            assert(members[j] == id);
                        } else {
                            let j = choose|j: int|
                                0 <= j < lob.spectators@.len() && lob.spectators@[j] == id;
                            assert(members[lob.players@.len() + j] == id);
                        }
                        assert(members.contains(id));
                        let jm = choose|jm: int| 0 <= jm < members.len() && members[jm] == id;
                        members.lemma_filter_contains(id_eq(id), jm);
                        assert(members.filter(id_eq(id)).len() >= 1);
                        assert(q1.len() >= qb.len() + 1);
                        assert(is_snapshot_broadcast_of(q1[qb.len() as int], snapshot));
                        assert(snapshot.tick == steps@[i as int].tick);
                        assert(q1[qb.len() as int].tick_sent == steps@[l].tick);
                    }
                }
            }
            i = i + 1;
        }
        proof {
            assert forall|l: int, k: int|
                0 <= l < dir_pre.arena().len() && 0 <= k < self.clients.rows().len() && (
            #[trigger] dir_pre.arena()[l]).1.is_member(
                (#[trigger] self.clients.rows()[k]).0,
            ) implies got_snapshot(
                self.clients.rows()[k].1,
                (dir_pre.arena()[l].1.tick + 1) as u64,
            ) by {
                assert(steps@[l].tick == (dir_pre.arena()[l].1.tick + 1) as u64);
            }
        }
        (disconnected, steps)
    }

    /// Strike a player from the named lobby and return it to the
    /// pre-lobby state: unbound, its team choice cleared, with a fresh
    /// handshake countdown. The cleanup that follows every removal drops
    /// the lobby once its last member is gone.
    pub fn remove_player_from_lobby(&mut self, player: u64, lobby: u64) -> (found: bool)
        requires
            old(self).wf(),
        ensures
            final(self).wf(),
            found == old(self).lobby_management.has_entity(lobby),
            !found ==> *final(self) == *old(self),
            found && crate::lobby_management::struck_empty(
                old(self).lobby_management.arena()[old(self).lobby_management.entity_index(
                    lobby,
                )].1,
                player,
            ) ==> !final(self).lobby_management.has_entity(lobby),
            found && old(self).clients.has_session(player) ==> {
                let i = old(self).clients.session_index(player);
                &&& final(self).clients.rows().len() == old(self).clients.rows().len()
                &&& final(self).clients.rows()[i].1.in_lobby is None
                &&& final(self).clients.rows()[i].1.team_name is None
                &&& final(self).clients.rows()[i].1.awaiting_first_contact == Some(
                    crate::session::AwaitingFirstContact(old(self).clients.timeout_first_contact),
                )
            },
    {
        let found = self.lobby_management.remove_player_from_lobby(player, lobby);
        if found {
            let _ = self.clients.re_arm_awaiting(player);
            proof {
                if !(crate::lobby_management::struck_empty(
                    old(self).lobby_management.arena()[old(
                        self,
                    ).lobby_management.entity_index(lobby)].1,
                    player,
                )) {
                } else {
                    let i = old(self).lobby_management.entity_index(lobby);
                    assert(self.lobby_management.arena() == old(
                        self,
                    ).lobby_management.arena().remove(i));
                    assert forall|k: int|
                        0 <= k < self.lobby_management.arena().len() implies (
                    #[trigger] self.lobby_management.arena()[k]).0 != lobby by {
                        let k0 = if k < i {
                            k
                        } else {
                            k + 1
                        };
                        assert(self.lobby_management.arena()[k] == old(
                            self,
                        ).lobby_management.arena()[k0]);
                        assert(old(self).lobby_management.arena()[k0].0 == old(
                            self,
                        ).lobby_management.dir()[k0].1);
                        assert(old(self).lobby_management.arena()[i].0 == old(
                            self,
                        ).lobby_management.dir()[i].1);
                    }
                }
                assert forall|k: int|
                    0 <= k < self.lobby_management.arena().len() implies (
                #[trigger] self.lobby_management.arena()[k]).1.map_config is Some by {
                    let pre = old(self).lobby_management;
                    let i = pre.entity_index(lobby);
                    if crate::lobby_management::struck_empty(pre.arena()[i].1, player) {
                        let k0 = if k < i {
                            k
                        } else {
                            k + 1
                        };
                        assert(self.lobby_management.arena()[k] == pre.arena()[k0]);
                    } else {
                        if k != i {
                            assert(self.lobby_management.arena()[k] == pre.arena()[k]);
                        } else {
                            assert(crate::lobby_management::lobby_struck(
                                pre.arena()[i].1,
                                self.lobby_management.arena()[i].1,
                                player,
                            ));
                        }
                    }
                }
            }
        }
        found
    }

    /// Remove the named lobby outright: every member returns to the
    /// pre-lobby state, then the record leaves the directory whatever its
    /// roster size.
    pub fn remove_lobby(&mut self, lobby: u64) -> (found: bool)
        requires
            old(self).wf(),
        ensures
            final(self).wf(),
            found == old(self).lobby_management.has_entity(lobby),
            !found ==> *final(self) == *old(self),
            found ==> !final(self).lobby_management.has_entity(lobby),
    {
        let found_before = self.lobby_management.find_entity_index(lobby);
        let members = self.lobby_management.remove_lobby(lobby);
        match found_before {
            None => false,
            Some(_) => {
                proof {
                    let pre = old(self).lobby_management;
                    let i = pre.entity_index(lobby);
                    assert forall|k: int|
                        0 <= k < self.lobby_management.arena().len() implies (
                    #[trigger] self.lobby_management.arena()[k]).0 != lobby && (
                    self.lobby_management.arena()[k]).1.map_config is Some by {
                        let k0 = if k < i {
                            k
                        } else {
                            k + 1
                        };
                        assert(self.lobby_management.arena()[k] == pre.arena()[k0]);
                        assert(pre.arena()[k0].0 == pre.dir()[k0].1);
                        assert(pre.arena()[i].0 == pre.dir()[i].1);
                    }
                }
                let n = members.len();
                let mut i: usize = 0;
                while i < n
                    invariant
                        i <= n,
                        n == members@.len(),
                        self.clients.wf(),
                        self.lobby_management.wf(),
                        self.all_lobbies_resolved(),
                        !self.lobby_management.has_entity(lobby),
                    decreases n - i,
                {
                    let _ = self.clients.re_arm_awaiting(members[i]);
                    i = i + 1;
                }
                true
            },
        }
    }
}

} // verus!
