//! The lobby directory: an owned registry mapping human-readable lobby ids
//! to lobby entities, with the arena holding the lobby records themselves.
//!
//! Every mutation — create, join, player removal, cleanup, whole-lobby
//! removal — goes through this component, one serialized operation at a
//! time, so no caller can observe a half-updated roster.

use vstd::prelude::*;

use crate::lobby::{LobbyState, MyLobby};
use crate::maps::{contains_u64, MapConfig};
use crate::messages::ClientType;
use crate::util::{lemma_filter_take_step, ne_pred};

verus! {

/// Why a lobby could not be returned or created.
#[derive(Clone, Copy, PartialEq, Eq, Structural, Debug)]
pub enum LobbyError {
    /// The lobby id is unused and no map name came with the request.
    MissingMapName,
}

/// The directory resource: lobby ids in creation order, each with the
/// entity handle of its lobby.
pub struct MyLobbies {
    pub lobbies: Vec<(String, u64)>,
}

/// The arguments a message target resolution draws on.
pub struct LobbyManagementArgument {
    pub lobby: Option<u64>,
    pub sender: Option<u64>,
    pub target_player: Option<u64>,
    pub team_name: Option<String>,
    pub team: Option<u64>,
}

/// The lobby directory together with the arena of lobby records and the
/// entity allocator.
pub struct LobbyManagementSystemParam {
    pub lobby_resource: MyLobbies,
    pub lobby_entities: Vec<(u64, MyLobby)>,
    pub next_entity: u64,
}

/// One directory row: the id entry beside its arena record.
pub open spec fn entry_nonempty(e: ((String, u64), (u64, MyLobby))) -> bool {
    e.1.1.member_count() > 0
}

/// How a lobby roster changes when `p` joins as `ct`: the joining roster
/// gains `p` unless it already lists it; everything else stays.
pub open spec fn lobby_joined(pre: MyLobby, post: MyLobby, p: u64, ct: ClientType) -> bool {
    &&& post.state == pre.state
    &&& post.lobby_name == pre.lobby_name
    &&& post.map_name == pre.map_name
    &&& post.map_config == pre.map_config
    &&& post.tick == pre.tick
    &&& match ct {
        ClientType::Player => {
            &&& post.players@ == (if pre.players@.contains(p) {
                pre.players@
            } else {
                pre.players@.push(p)
            })
            &&& post.spectators@ == pre.spectators@
        },
        ClientType::Spectator => {
            &&& post.players@ == pre.players@
            &&& post.spectators@ == (if pre.spectators@.contains(p) {
                pre.spectators@
            } else {
                pre.spectators@.push(p)
            })
        },
    }
}

impl LobbyManagementSystemParam {
    /// An empty directory; entity handles start at zero.
    pub fn new() -> (r: Self)
        ensures
            r.dir().len() == 0,
            r.arena().len() == 0,
            r.next_entity == 0,
            r.wf(),
    {
        LobbyManagementSystemParam {
            lobby_resource: MyLobbies { lobbies: Vec::new() },
            lobby_entities: Vec::new(),
            next_entity: 0,
        }
    }

    pub open spec fn dir(self) -> Seq<(String, u64)> {
        self.lobby_resource.lobbies@
    }

    pub open spec fn arena(self) -> Seq<(u64, MyLobby)> {
        self.lobby_entities@
    }

    /// The directory rows: each id entry paired with its arena record.
    pub open spec fn entries(self) -> Seq<((String, u64), (u64, MyLobby))> {
        Seq::new(self.dir().len(), |i: int| (self.dir()[i], self.arena()[i]))
    }

    /// Structural well-formedness: the id list and the arena are aligned
    /// row by row, ids and entities are unique, every entity is below the
    /// allocator mark, and every lobby keeps its own roster invariant.
    pub open spec fn wf_basic(self) -> bool {
        &&& self.dir().len() == self.arena().len()
        &&& forall|i: int|
            0 <= i < self.dir().len() ==> {
                &&& (#[trigger] self.arena()[i]).0 == self.dir()[i].1
                &&& self.arena()[i].1.lobby_name@ == self.dir()[i].0@
                &&& self.arena()[i].0 < self.next_entity
                &&& self.arena()[i].1.wf()
            }
        &&& forall|i: int, j: int|
            0 <= i < j < self.dir().len() ==> (#[trigger] self.dir()[i]).0@ != (
            #[trigger] self.dir()[j]).0@ && self.dir()[i].1 != self.dir()[j].1
    }

    /// No directory row holds an empty lobby: cleanup runs after every
    /// removal, so emptiness never outlives the operation that caused it.
    pub open spec fn no_empty_lobby(self) -> bool {
        forall|i: int|
            0 <= i < self.arena().len() ==> (#[trigger] self.arena()[i]).1.member_count() > 0
    }

    pub open spec fn wf(self) -> bool {
        self.wf_basic() && self.no_empty_lobby()
    }

    pub open spec fn has_lobby_id(self, id: Seq<char>) -> bool {
        exists|i: int| 0 <= i < self.dir().len() && (#[trigger] self.dir()[i]).0@ == id
    }

    pub open spec fn id_index(self, id: Seq<char>) -> int {
        choose|i: int| 0 <= i < self.dir().len() && (#[trigger] self.dir()[i]).0@ == id
    }

    /// The entity registered under a lobby id.
    pub open spec fn entity_for_id(self, id: Seq<char>) -> u64 {
        self.dir()[self.id_index(id)].1
    }

    pub open spec fn has_entity(self, e: u64) -> bool {
        exists|i: int| 0 <= i < self.arena().len() && (#[trigger] self.arena()[i]).0 == e
    }

    pub open spec fn entity_index(self, e: u64) -> int {
        choose|i: int| 0 <= i < self.arena().len() && (#[trigger] self.arena()[i]).0 == e
    }

    /// The lobby record behind an entity handle.
    pub open spec fn lobby_for_entity(self, e: u64) -> MyLobby {
        self.arena()[self.entity_index(e)].1
    }

    /// Index of the directory row registered under `lobby_id`.
    fn find_id_index(&self, lobby_id: &String) -> (r: Option<usize>)
        ensures
            match r {
                Some(i) => i < self.dir().len() && self.dir()[i as int].0@ == lobby_id@
                    && self.has_lobby_id(lobby_id@),
                None => !self.has_lobby_id(lobby_id@),
            },
    {
        let n = self.lobby_resource.lobbies.len();
        let mut i: usize = 0;
        while i < n
            invariant
                i <= n,
                n == self.dir().len(),
                forall|k: int| 0 <= k < i ==> (#[trigger] self.dir()[k]).0@ != lobby_id@,
            decreases n - i,
        {
            if self.lobby_resource.lobbies[i].0 == *lobby_id {
                return Some(i);
            }
            i = i + 1;
        }
        None
    }

    /// Index of the arena row holding entity `e`.
    pub(crate) fn find_entity_index(&self, e: u64) -> (r: Option<usize>)
        ensures
            match r {
                Some(i) => i < self.arena().len() && self.arena()[i as int].0 == e
                    && self.has_entity(e),
                None => !self.has_entity(e),
            },
    {
        let n = self.lobby_entities.len();
        let mut i: usize = 0;
        while i < n
            invariant
                i <= n,
                n == self.arena().len(),
                forall|k: int| 0 <= k < i ==> (#[trigger] self.arena()[k]).0 != e,
            decreases n - i,
        {
            if self.lobby_entities[i].0 == e {
                return Some(i);
            }
            i = i + 1;
        }
        None
    }

    /// Return the lobby registered under `lobby_id`, joining `player` to
    /// it; or create it when the id is unused and a map name was supplied.
    /// An unused id without a map name fails and creates nothing.
    pub fn get_or_insert_lobby_entity(
        &mut self,
        lobby_id: &String,
        player: u64,
        map_name: Option<&String>,
        client_type: ClientType,
    ) -> (r: Result<u64, LobbyError>)
        requires
            old(self).wf(),
            old(self).next_entity < u64::MAX,
        ensures
            final(self).wf(),
            r is Ok ==> final(self).has_lobby_id(lobby_id@) && final(self).entity_for_id(
                lobby_id@,
            ) == r.unwrap(),
            old(self).has_lobby_id(lobby_id@) ==> {
                let i = old(self).id_index(lobby_id@);
                &&& r == Ok::<u64, LobbyError>(old(self).entity_for_id(lobby_id@))
                &&& final(self).dir() == old(self).dir()
                &&& final(self).next_entity == old(self).next_entity
                &&& final(self).arena().len() == old(self).arena().len()
                &&& forall|k: int|
                    0 <= k < old(self).arena().len() && k != i ==> final(self).arena()[k] == old(
                        self,
                    ).arena()[k]
                &&& final(self).arena()[i].0 == old(self).arena()[i].0
                &&& lobby_joined(old(self).arena()[i].1, final(self).arena()[i].1, player,
                client_type)
            },
            !old(self).has_lobby_id(lobby_id@) && map_name is None ==> {
                &&& r == Err::<u64, LobbyError>(LobbyError::MissingMapName)
                &&& *final(self) == *old(self)
            },
            !old(self).has_lobby_id(lobby_id@) && map_name is Some ==> {
                let n = old(self).dir().len() as int;
                &&& r == Ok::<u64, LobbyError>(old(self).next_entity)
                &&& final(self).next_entity == old(self).next_entity + 1
                &&& final(self).dir().len() == n + 1
                &&& final(self).arena().len() == n + 1
                &&& forall|k: int|
                    0 <= k < n ==> final(self).dir()[k] == old(self).dir()[k]
                        && final(self).arena()[k] == old(self).arena()[k]
                &&& final(self).dir()[n].0@ == lobby_id@
                &&& final(self).dir()[n].1 == old(self).next_entity
                &&& final(self).arena()[n].0 == old(self).next_entity
                &&& final(self).arena()[n].1.state == LobbyState::SettingUp
                &&& final(self).arena()[n].1.lobby_name@ == lobby_id@
                &&& final(self).arena()[n].1.map_name@ == map_name.unwrap()@
                &&& final(self).arena()[n].1.map_config is None
                &&& final(self).arena()[n].1.tick == 0
                &&& (client_type == ClientType::Player ==> final(self).arena()[n].1.players@
                    =~= seq![player] && final(self).arena()[n].1.spectators@ =~= Seq::<
                    u64,
                >::empty())
                &&& (client_type == ClientType::Spectator ==> final(self).arena()[n].1.players@
                    =~= Seq::<u64>::empty() && final(self).arena()[n].1.spectators@
                    =~= seq![player])
            },
    {
        match self.find_id_index(lobby_id) {
            Some(i) => {
                proof {
                    assert(old(self).id_index(lobby_id@) == i as int);
                }
                let entity = self.lobby_resource.lobbies[i].1;
                let (e, mut lob) = self.lobby_entities.remove(i);
                match client_type {
                    ClientType::Player => {
                        if !contains_u64(&lob.players, player) {
                            lob.players.push(player);
                        }
                    },
                    ClientType::Spectator => {
                        if !contains_u64(&lob.spectators, player) {
                            lob.spectators.push(player);
                        }
                    },
                }
                self.lobby_entities.insert(i, (e, lob));
                proof {
                    let idx = i as int;
                    assert(self.lobby_entities@ =~= old(self).lobby_entities@.update(
                        idx,
                        (e, lob),
                    ));
                    assert(lobby_joined(old(self).arena()[idx].1, lob, player, client_type));
                    assert forall|k: int| 0 <= k < self.dir().len() implies {
                        &&& (#[trigger] self.arena()[k]).0 == self.dir()[k].1
                        &&& self.arena()[k].1.lobby_name@ == self.dir()[k].0@
                        &&& self.arena()[k].0 < self.next_entity
                        &&& self.arena()[k].1.wf()
                        &&& self.arena()[k].1.member_count() > 0
                    } by {
                        if k == idx {
                            let pre = old(self).arena()[idx].1;
                            assert(pre.wf());
                            assert forall|q: u64| pre.players@.contains(q) implies lob.players@.contains(
                                q,
                            ) by {
                                let j = choose|j: int|
                                    0 <= j < pre.players@.len() && pre.players@[j] == q;
                                assert(lob.players@[j] == q);
                            }
                            assert(lob.wf());
                        }
                    }
                    assert(self.wf());
                    let i1 = self.id_index(lobby_id@);
                    assert(self.dir()[idx].0@ == lobby_id@);
                    assert(self.has_lobby_id(lobby_id@));
                    assert(0 <= i1 < self.dir().len() && self.dir()[i1].0@ == lobby_id@);
                    assert(i1 == idx);
                    assert(self.entity_for_id(lobby_id@) == entity);
                }
                Ok(entity)
            },
            None => {
                match map_name {
                    None => Err(LobbyError::MissingMapName),
                    Some(m) => {
                        let entity = self.next_entity;
                        let lobby = MyLobby::new(lobby_id.clone(), m.clone());
                        let lobby = match client_type {
                            ClientType::Player => lobby.with_player(player),
                            ClientType::Spectator => lobby.with_spectator(player),
                        };
                        self.lobby_resource.lobbies.push((lobby_id.clone(), entity));
                        self.lobby_entities.push((entity, lobby));
                        self.next_entity = self.next_entity + 1;
                        proof {
                            let n = old(self).dir().len() as int;
                            assert forall|k: int| 0 <= k < n implies (
                            #[trigger] self.dir()[k]).0@ != lobby_id@ by {
                                assert(old(self).dir()[k] == self.dir()[k]);
                            }
                            assert forall|k: int| 0 <= k < self.dir().len() implies {
                                &&& (#[trigger] self.arena()[k]).0 == self.dir()[k].1
                                &&& self.arena()[k].1.lobby_name@ == self.dir()[k].0@
                                &&& self.arena()[k].0 < self.next_entity
                                &&& self.arena()[k].1.wf()
                                &&& self.arena()[k].1.member_count() > 0
                            } by {
                                if k < n {
                                    assert(old(self).arena()[k] == self.arena()[k]);
                                    assert(old(self).dir()[k] == self.dir()[k]);
                                }
                            }
                            assert forall|a: int, b: int|
                                0 <= a < b < self.dir().len() implies (
                            #[trigger] self.dir()[a]).0@ != (#[trigger] self.dir()[b]).0@ && self.dir()[a].1
                                != self.dir()[b].1 by {
                                if b == n {
                                    assert(old(self).dir()[a] == self.dir()[a]);
                                    assert(self.dir()[a].0@ != lobby_id@);
                                    assert(old(self).arena()[a].0 == old(self).dir()[a].1);
                                    assert(old(self).arena()[a].0 < old(self).next_entity);
                                } else {
                                    assert(old(self).dir()[a] == self.dir()[a]);
                                    assert(old(self).dir()[b] == self.dir()[b]);
                                }
                            }
                            assert(self.wf());
                            let i1 = self.id_index(lobby_id@);
                            assert(self.dir()[n].0@ == lobby_id@);
                            assert(self.has_lobby_id(lobby_id@));
                            assert(0 <= i1 < self.dir().len() && self.dir()[i1].0@ == lobby_id@);
                            assert(i1 == n);
                            assert(self.entity_for_id(lobby_id@) == entity);
                        }
                        Ok(entity)
                    },
                }
            },
        }
    }
}

/// The id entry of each row beside its arena record.
pub open spec fn pairs_of(d: Seq<(String, u64)>, a: Seq<(u64, MyLobby)>) -> Seq<
    ((String, u64), (u64, MyLobby)),
> {
    Seq::new(d.len(), |i: int| (d[i], a[i]))
}

/// The team recorded for `p` at handshake time: the first entry for `p`
/// in the record list, if any.
pub open spec fn recorded_team(pt: Seq<(u64, String)>, p: u64) -> Option<Seq<char>>
    decreases pt.len(),
{
    if pt.len() == 0 {
        None
    } else if pt[0].0 == p {
        Some(pt[0].1@)
    } else {
        recorded_team(pt.skip(1), p)
    }
}

/// The predicate keeping the roster players recorded for team `name`.
pub open spec fn team_pred(pt: Seq<(u64, String)>, name: Seq<char>) -> spec_fn(u64) -> bool {
    |p: u64| recorded_team(pt, p) == Some(name)
}

/// The team name recorded for `p`, if any.
fn lookup_team<'a>(pt: &'a Vec<(u64, String)>, p: u64) -> (r: Option<&'a String>)
    ensures
        match r {
            Some(tn) => recorded_team(pt@, p) == Some(tn@),
            None => recorded_team(pt@, p) == None::<Seq<char>>,
        },
{
    let n = pt.len();
    let mut k: usize = 0;
    proof {
        assert(pt@.skip(0int) =~= pt@);
    }
    while k < n
        invariant
            k <= n,
            n == pt@.len(),
            recorded_team(pt@.skip(k as int), p) == recorded_team(pt@, p),
        decreases n - k,
    {
        if pt[k].0 == p {
            proof {
                assert(pt@.skip(k as int)[0] == pt@[k as int]);
            }
            return Some(&pt[k].1);
        }
        proof {
            assert(pt@.skip(k as int)[0] == pt@[k as int]);
            assert(pt@.skip(k as int).skip(1) =~= pt@.skip(k + 1int));
        }
        k = k + 1;
    }
    None
}

/// The rows of a directory are pairwise distinct in id and in entity.
pub open spec fn rows_distinct(s: Seq<((String, u64), (u64, MyLobby))>) -> bool {
    forall|a: int, b: int|
        0 <= a < b < s.len() ==> (#[trigger] s[a]).0.0@ != (#[trigger] s[b]).0.0@ && s[a].0.1
            != s[b].0.1
}

/// The predicate the cleanup pass keeps rows by.
pub open spec fn nonempty_row() -> spec_fn(((String, u64), (u64, MyLobby))) -> bool {
    |e: ((String, u64), (u64, MyLobby))| entry_nonempty(e)
}

/// Filtering directory rows keeps them pairwise distinct, and every kept
/// row is one of the source rows.
pub proof fn lemma_filter_rows(
    s: Seq<((String, u64), (u64, MyLobby))>,
    pred: spec_fn(((String, u64), (u64, MyLobby))) -> bool,
)
    requires
        rows_distinct(s),
    ensures
        rows_distinct(s.filter(pred)),
        forall|k: int|
            0 <= k < s.filter(pred).len() ==> exists|j: int|
                0 <= j < s.len() && #[trigger] s.filter(pred)[k] == s[j],
    decreases s.len(),
{
    reveal(Seq::filter);
    let f = s.filter(pred);
    if s.len() == 0 {
    } else {
        let d = s.drop_last();
        assert(rows_distinct(d));
        lemma_filter_rows(d, pred);
        let fd = d.filter(pred);
        assert forall|k: int| 0 <= k < f.len() implies exists|j: int|
            0 <= j < s.len() && #[trigger] f[k] == s[j] by {
            if k < fd.len() {
                let j = choose|j: int| 0 <= j < d.len() && fd[k] == d[j];
                assert(f[k] == s[j]);
            } else {
                assert(pred(s.last()));
                assert(f[k] == s[s.len() - 1]);
            }
        }
        assert forall|a: int, b: int| 0 <= a < b < f.len() implies (#[trigger] f[a]).0.0@ != (
        #[trigger] f[b]).0.0@ && f[a].0.1 != f[b].0.1 by {
            if b < fd.len() {
                assert(fd[a] == f[a] && fd[b] == f[b]);
            } else {
                assert(pred(s.last()));
                assert(f[b] == s[s.len() - 1]);
                let j = choose|j: int| 0 <= j < d.len() && fd[a] == d[j];
                assert(f[a] == s[j]);
            }
        }
    }
}

/// How a lobby changes when `p` is struck from it: the player roster, the
/// spectator roster and every team roster lose `p`; all else stays.
pub open spec fn lobby_struck(pre: MyLobby, post: MyLobby, p: u64) -> bool {
    &&& post.state == pre.state
    &&& post.lobby_name == pre.lobby_name
    &&& post.map_name == pre.map_name
    &&& post.tick == pre.tick
    &&& post.players@ == pre.players@.filter(ne_pred(p))
    &&& post.spectators@ == pre.spectators@.filter(ne_pred(p))
    &&& match (pre.map_config, post.map_config) {
        (None, None) => true,
        (Some(mc0), Some(mc1)) => {
            &&& mc1.map == mc0.map
            &&& mc1.teams@.len() == mc0.teams@.len()
            &&& forall|i: int|
                0 <= i < mc0.teams@.len() ==> {
                    &&& (#[trigger] mc1.teams@[i]).0 == mc0.teams@[i].0
                    &&& mc1.teams@[i].1.color == mc0.teams@[i].1.color
                    &&& mc1.teams@[i].1.max_players == mc0.teams@[i].1.max_players
                    &&& mc1.teams@[i].1.players@ == mc0.teams@[i].1.players@.filter(ne_pred(p))
                }
        },
        _ => false,
    }
}

/// Whether striking `p` leaves the lobby with no member at all.
pub open spec fn struck_empty(pre: MyLobby, p: u64) -> bool {
    pre.players@.filter(ne_pred(p)).len() + pre.spectators@.filter(ne_pred(p)).len() == 0
}

/// A copy of `a` followed by a copy of `b`.
pub fn concat_u64(a: &Vec<u64>, b: &Vec<u64>) -> (r: Vec<u64>)
    ensures
        r@ == a@ + b@,
{
    let mut out: Vec<u64> = Vec::new();
    let mut i: usize = 0;
    while i < a.len()
        invariant
            i <= a@.len(),
            out@ == a@.take(i as int),
        decreases a@.len() - i,
    {
        out.push(a[i]);
        proof {
            assert(out@ =~= a@.take(i + 1int));
        }
        i = i + 1;
    }
    let mut j: usize = 0;
    while j < b.len()
        invariant
            j <= b@.len(),
            out@ == a@.take(a@.len() as int) + b@.take(j as int),
        decreases b@.len() - j,
    {
        out.push(b[j]);
        proof {
            assert(out@ =~= a@.take(a@.len() as int) + b@.take(j + 1int));
        }
        j = j + 1;
    }
    proof {
        assert(a@.take(a@.len() as int) + b@.take(b@.len() as int) =~= a@ + b@);
    }
    out
}

/// Two directory states with the same id rows answer id lookups alike.
pub proof fn lemma_same_dir_id_lookup(
    a: LobbyManagementSystemParam,
    b: LobbyManagementSystemParam,
    id: Seq<char>,
)
    requires
        a.dir() == b.dir(),
        a.wf_basic(),
        a.has_lobby_id(id),
    ensures
        b.has_lobby_id(id),
        b.entity_for_id(id) == a.entity_for_id(id),
{
    let ia = a.id_index(id);
    assert(0 <= ia < a.dir().len() && a.dir()[ia].0@ == id);
    assert(b.dir()[ia].0@ == id);
    assert(b.has_lobby_id(id));
    let ib = b.id_index(id);
    assert(0 <= ib < b.dir().len() && b.dir()[ib].0@ == id);
    assert(a.dir()[ib].0@ == id);
    assert(ib == ia);
}

/// An arena row holding entity `e` is the unique one: the entity lookup
/// functions agree with it.
pub proof fn lemma_entity_index_unique(s: LobbyManagementSystemParam, e: u64, i: int)
    requires
        s.wf_basic(),
        0 <= i < s.arena().len(),
        s.arena()[i].0 == e,
    ensures
        s.has_entity(e),
        s.entity_index(e) == i,
{
    assert forall|a: int, b: int| 0 <= a < b < s.arena().len() implies (#[trigger] s.arena()[a]).0
        != (#[trigger] s.arena()[b]).0 by {
        assert(s.arena()[a].0 == s.dir()[a].1);
        assert(s.arena()[b].0 == s.dir()[b].1);
    }
    assert(s.has_entity(e));
    let c = s.entity_index(e);
    assert(0 <= c < s.arena().len() && s.arena()[c].0 == e);
    assert(c == i);
}

/// Dropping one directory row of a well-formed directory, all of whose
/// other rows are nonempty, leaves a well-formed directory.
proof fn lemma_remove_row_wf(
    pre: LobbyManagementSystemParam,
    post: LobbyManagementSystemParam,
    i: int,
)
    requires
        pre.wf_basic(),
        forall|k: int|
            0 <= k < pre.arena().len() && k != i ==> (#[trigger] pre.arena()[k]).1.member_count()
                > 0,
        0 <= i < pre.dir().len(),
        post.dir() == pre.dir().remove(i),
        post.arena() == pre.arena().remove(i),
        post.next_entity == pre.next_entity,
    ensures
        post.wf(),
{
    assert forall|k: int| 0 <= k < post.dir().len() implies {
        &&& (#[trigger] post.arena()[k]).0 == post.dir()[k].1
        &&& post.arena()[k].1.lobby_name@ == post.dir()[k].0@
        &&& post.arena()[k].0 < post.next_entity
        &&& post.arena()[k].1.wf()
        &&& post.arena()[k].1.member_count() > 0
    } by {
        if k < i {
            assert(post.dir()[k] == pre.dir()[k]);
            assert(post.arena()[k] == pre.arena()[k]);
        } else {
            assert(post.dir()[k] == pre.dir()[k + 1]);
            assert(post.arena()[k] == pre.arena()[k + 1]);
        }
    }
    assert forall|a: int, b: int| 0 <= a < b < post.dir().len() implies (
    #[trigger] post.dir()[a]).0@ != (#[trigger] post.dir()[b]).0@ && post.dir()[a].1
        != post.dir()[b].1 by {
        let a0 = if a < i {
            a
        } else {
            a + 1
        };
        let b0 = if b < i {
            b
        } else {
            b + 1
        };
        assert(post.dir()[a] == pre.dir()[a0]);
        assert(post.dir()[b] == pre.dir()[b0]);
        assert(pre.dir()[a0].0@ != pre.dir()[b0].0@ && pre.dir()[a0].1 != pre.dir()[b0].1);
    }
}

impl LobbyManagementSystemParam {
    /// The cleanup pass: every directory row whose lobby has no player and
    /// no spectator left is dropped, in place, keeping the order of the
    /// surviving rows. Runs after every removal.
    pub fn cleanup_lobbies(&mut self)
        requires
            old(self).wf_basic(),
        ensures
            final(self).wf(),
            final(self).next_entity == old(self).next_entity,
            final(self).entries() == old(self).entries().filter(nonempty_row()),
    {
        let n = self.lobby_resource.lobbies.len();
        let mut new_dir: Vec<(String, u64)> = Vec::new();
        let mut new_arena: Vec<(u64, MyLobby)> = Vec::new();
        let mut i: usize = 0;
        proof {
            assert(old(self).entries().take(0int).filter(nonempty_row()) =~= Seq::<
                ((String, u64), (u64, MyLobby)),
            >::empty());
            assert(pairs_of(new_dir@, new_arena@) =~= Seq::<
                ((String, u64), (u64, MyLobby)),
            >::empty());
        }
        while i < n
            invariant
                i <= n,
                n == old(self).dir().len(),
                n == old(self).arena().len(),
                old(self).wf_basic(),
                self.next_entity == old(self).next_entity,
                self.dir() == old(self).dir().skip(i as int),
                self.arena() == old(self).arena().skip(i as int),
                new_dir@.len() == new_arena@.len(),
                pairs_of(new_dir@, new_arena@) == old(self).entries().take(i as int).filter(
                    nonempty_row(),
                ),
            decreases n - i,
        {
            let (id, ent) = self.lobby_resource.lobbies.remove(0);
            let (ent2, lob) = self.lobby_entities.remove(0);
            proof {
                assert(old(self).dir().skip(i as int)[0] == old(self).dir()[i as int]);
                assert(old(self).arena().skip(i as int)[0] == old(self).arena()[i as int]);
                assert(self.dir() =~= old(self).dir().skip(i + 1int));
                assert(self.arena() =~= old(self).arena().skip(i + 1int));
                lemma_filter_take_step(old(self).entries(), nonempty_row(), i as int);
                assert(old(self).entries()[i as int] == ((id, ent), (ent2, lob)));
            }
            if lob.players.len() == 0 && lob.spectators.len() == 0 {
                proof {
                    assert(!nonempty_row()(old(self).entries()[i as int]));
                    assert(pairs_of(new_dir@, new_arena@) =~= old(self).entries().take(
                        i + 1int,
                    ).filter(nonempty_row()));
                }
            } else {
                let ghost prev_pairs = pairs_of(new_dir@, new_arena@);
                new_dir.push((id, ent));
                new_arena.push((ent2, lob));
                proof {
                    assert(nonempty_row()(old(self).entries()[i as int]));
                    assert(pairs_of(new_dir@, new_arena@) =~= prev_pairs.push(
                        ((id, ent), (ent2, lob)),
                    ));
                    assert(pairs_of(new_dir@, new_arena@) =~= old(self).entries().take(
                        i + 1int,
                    ).filter(nonempty_row()));
                }
            }
            i = i + 1;
        }
        self.lobby_resource.lobbies = new_dir;
        self.lobby_entities = new_arena;
        proof {
            let oe = old(self).entries();
            let fe = oe.filter(nonempty_row());
            assert(oe.take(n as int) =~= oe);
            assert(self.entries() =~= pairs_of(self.dir(), self.arena()));
            assert(self.entries() == fe);
            assert forall|a: int, b: int| 0 <= a < b < oe.len() implies (#[trigger] oe[a]).0.0@
                != (#[trigger] oe[b]).0.0@ && oe[a].0.1 != oe[b].0.1 by {
                assert(oe[a].0 == old(self).dir()[a]);
                assert(oe[b].0 == old(self).dir()[b]);
            }
            lemma_filter_rows(oe, nonempty_row());
            assert forall|k: int| 0 <= k < self.dir().len() implies {
                &&& (#[trigger] self.arena()[k]).0 == self.dir()[k].1
                &&& self.arena()[k].1.lobby_name@ == self.dir()[k].0@
                &&& self.arena()[k].0 < self.next_entity
                &&& self.arena()[k].1.wf()
                &&& self.arena()[k].1.member_count() > 0
            } by {
                assert(self.entries()[k] == (self.dir()[k], self.arena()[k]));
                let j = choose|j: int| 0 <= j < oe.len() && fe[k] == oe[j];
                assert(oe[j] == (old(self).dir()[j], old(self).arena()[j]));
                oe.lemma_filter_pred(nonempty_row(), k);
            }
            assert forall|a: int, b: int| 0 <= a < b < self.dir().len() implies (
            #[trigger] self.dir()[a]).0@ != (#[trigger] self.dir()[b]).0@ && self.dir()[a].1
                != self.dir()[b].1 by {
                assert(self.entries()[a] == (self.dir()[a], self.arena()[a]));
                assert(self.entries()[b] == (self.dir()[b], self.arena()[b]));
                assert((fe[a]).0.0@ != (fe[b]).0.0@ && fe[a].0.1 != fe[b].0.1);
            }
        }
    }

    /// Strike `player` from the named lobby: the lobby roster, the
    /// spectator roster and the team rosters all lose the player; a lobby
    /// left without members is dropped from the directory by the cleanup
    /// that follows every removal. Reports whether the lobby was found.
    pub fn remove_player_from_lobby(&mut self, player: u64, lobby: u64) -> (found: bool)
        requires
            old(self).wf(),
        ensures
            final(self).wf(),
            final(self).next_entity == old(self).next_entity,
            found == old(self).has_entity(lobby),
            !found ==> *final(self) == *old(self),
            found && !struck_empty(
                old(self).arena()[old(self).entity_index(lobby)].1,
                player,
            ) ==> {
                let i = old(self).entity_index(lobby);
                &&& final(self).dir() == old(self).dir()
                &&& final(self).arena().len() == old(self).arena().len()
                &&& forall|k: int|
                    0 <= k < old(self).arena().len() && k != i ==> final(self).arena()[k] == old(
                        self,
                    ).arena()[k]
                &&& final(self).arena()[i].0 == lobby
                &&& lobby_struck(old(self).arena()[i].1, final(self).arena()[i].1, player)
            },
            found && struck_empty(old(self).arena()[old(self).entity_index(lobby)].1, player)
                ==> {
                let i = old(self).entity_index(lobby);
                &&& final(self).dir() == old(self).dir().remove(i)
                &&& final(self).arena() == old(self).arena().remove(i)
            },
    {
        match self.find_entity_index(lobby) {
            None => false,
            Some(i) => {
                proof {
                    assert forall|a: int, b: int|
                        0 <= a < b < old(self).arena().len() implies (
                    #[trigger] old(self).arena()[a]).0 != (#[trigger] old(self).arena()[b]).0 by {
                        assert(old(self).arena()[a].0 == old(self).dir()[a].1);
                        assert(old(self).arena()[b].0 == old(self).dir()[b].1);
                    }
                    assert(old(self).entity_index(lobby) == i as int);
                }
                let (e, mut lob) = self.lobby_entities.remove(i);
                let new_players = crate::maps::remove_all_u64(&lob.players, player);
                lob.players = new_players;
                let new_spectators = crate::maps::remove_all_u64(&lob.spectators, player);
                lob.spectators = new_spectators;
                lob.map_config = match lob.map_config {
                    Some(mut mc) => {
                        mc.remove_player_from_team(player);
                        Some(mc)
                    },
                    None => None,
                };
                proof {
                    let pre = old(self).arena()[i as int].1;
                    assert(lobby_struck(pre, lob, player));
                    assert(pre.wf());
                    let ghost lobg = lob;
                    match (pre.map_config, lobg.map_config) {
                        (Some(mc0), Some(mc1)) => {
                            assert forall|t: int, q: u64|
                                0 <= t < mc1.teams@.len() && #[trigger] mc1.team_at_has_player(
                                    t,
                                    q,
                                ) implies lobg.players@.contains(q) by {
                                let roster1 = mc1.teams@[t].1.players@;
                                let roster0 = mc0.teams@[t].1.players@;
                                let j = choose|j: int|
                                    0 <= j < roster1.len() && roster1[j] == q;
                                crate::util::lemma_filter_elem(roster0, ne_pred(player), j);
                                roster0.lemma_filter_pred(ne_pred(player), j);
                                assert(mc0.team_at_has_player(t, q));
                                assert(pre.players@.contains(q) && q != player);
                                let j2 = choose|j2: int|
                                    0 <= j2 < pre.players@.len() && pre.players@[j2] == q;
                                pre.players@.lemma_filter_contains(ne_pred(player), j2);
                            }
                            assert(lobg.wf());
                        },
                        _ => {
                            assert(lobg.wf());
                        },
                    }
                }
                if lob.players.len() == 0 && lob.spectators.len() == 0 {
                    let (_dropped_id, _dropped_ent) = self.lobby_resource.lobbies.remove(i);
                    proof {
                        lemma_remove_row_wf(*old(self), *self, i as int);
                    }
                } else {
                    self.lobby_entities.insert(i, (e, lob));
                    proof {
                        let idx = i as int;
                        assert(self.lobby_entities@ =~= old(self).lobby_entities@.update(
                            idx,
                            (e, lob),
                        ));
                        assert(lob.wf());
                        assert forall|k: int| 0 <= k < self.dir().len() implies {
                            &&& (#[trigger] self.arena()[k]).0 == self.dir()[k].1
                            &&& self.arena()[k].1.lobby_name@ == self.dir()[k].0@
                            &&& self.arena()[k].0 < self.next_entity
                            &&& self.arena()[k].1.wf()
                            &&& self.arena()[k].1.member_count() > 0
                        } by {
                            if k != idx {
                                assert(self.arena()[k] == old(self).arena()[k]);
                            }
                        }
                    }
                }
                true
            },
        }
    }

    /// Remove the named lobby outright: every member (players first, then
    /// spectators) is handed back so the caller can return them to their
    /// pre-lobby state, and the record leaves the directory whatever its
    /// roster size.
    pub fn remove_lobby(&mut self, lobby: u64) -> (members: Vec<u64>)
        requires
            old(self).wf(),
        ensures
            final(self).wf(),
            final(self).next_entity == old(self).next_entity,
            !old(self).has_entity(lobby) ==> *final(self) == *old(self) && members@ == Seq::<
                u64,
            >::empty(),
            old(self).has_entity(lobby) ==> {
                let i = old(self).entity_index(lobby);
                &&& final(self).dir() == old(self).dir().remove(i)
                &&& final(self).arena() == old(self).arena().remove(i)
                &&& members@ == old(self).arena()[i].1.players@ + old(self).arena()[i].1.spectators@
            },
    {
        match self.find_entity_index(lobby) {
            None => Vec::new(),
            Some(i) => {
                proof {
                    assert forall|a: int, b: int|
                        0 <= a < b < old(self).arena().len() implies (
                    #[trigger] old(self).arena()[a]).0 != (#[trigger] old(self).arena()[b]).0 by {
                        assert(old(self).arena()[a].0 == old(self).dir()[a].1);
                        assert(old(self).arena()[b].0 == old(self).dir()[b].1);
                    }
                    assert(old(self).entity_index(lobby) == i as int);
                }
                let (_ent, lob) = self.lobby_entities.remove(i);
                let (_id, _ent2) = self.lobby_resource.lobbies.remove(i);
                let members = concat_u64(&lob.players, &lob.spectators);
                proof {
                    lemma_remove_row_wf(*old(self), *self, i as int);
                }
                members
            },
        }
    }

    /// Whether a lobby is registered under `lobby_id`.
    pub fn contains_lobby_id(&self, lobby_id: &String) -> (r: bool)
        ensures
            r == self.has_lobby_id(lobby_id@),
    {
        match self.find_id_index(lobby_id) {
            Some(_) => true,
            None => false,
        }
    }

    /// Insert a roster player of the named lobby into the named team of
    /// its resolved map configuration. Nothing happens when the lobby is
    /// missing, its map is unresolved, the team is unknown, or the player
    /// is not on the lobby roster.
    pub fn insert_player_into_lobby_team(
        &mut self,
        lobby: u64,
        team_name: &String,
        player: u64,
    ) -> (found: bool)
        requires
            old(self).wf(),
        ensures
            final(self).wf(),
            final(self).next_entity == old(self).next_entity,
            found == old(self).has_entity(lobby),
            !found ==> *final(self) == *old(self),
            found ==> {
                let i = old(self).entity_index(lobby);
                let pre = old(self).arena()[i].1;
                let post = final(self).arena()[i].1;
                &&& final(self).dir() == old(self).dir()
                &&& final(self).arena().len() == old(self).arena().len()
                &&& forall|k: int|
                    0 <= k < old(self).arena().len() && k != i ==> final(self).arena()[k] == old(
                        self,
                    ).arena()[k]
                &&& final(self).arena()[i].0 == lobby
                &&& post.state == pre.state
                &&& post.lobby_name == pre.lobby_name
                &&& post.map_name == pre.map_name
                &&& post.tick == pre.tick
                &&& post.players@ == pre.players@
                &&& post.spectators@ == pre.spectators@
                &&& (post.map_config is Some <==> pre.map_config is Some)
                &&& match (pre.map_config, post.map_config) {
                    (Some(mc0), Some(mc1)) => {
                        if pre.is_player(player) && mc0.has_team(team_name@) {
                            let t = mc0.team_index(team_name@);
                            &&& mc1.map == mc0.map
                            &&& mc1.teams@.len() == mc0.teams@.len()
                            &&& forall|k: int|
                                0 <= k < mc0.teams@.len() && k != t ==> mc1.teams@[k]
                                    == mc0.teams@[k]
                            &&& mc1.teams@[t].0 == mc0.teams@[t].0
                            &&& mc1.teams@[t].1.color == mc0.teams@[t].1.color
                            &&& mc1.teams@[t].1.max_players == mc0.teams@[t].1.max_players
                            &&& mc1.teams@[t].1.players@ == mc0.teams@[t].1.players@.push(player)
                        } else {
                            mc1 == mc0
                        }
                    },
                    (None, None) => true,
                    _ => false,
                }
            },
    {
        match self.find_entity_index(lobby) {
            None => false,
            Some(i) => {
                proof {
                    lemma_entity_index_unique(*old(self), lobby, i as int);
                }
                let (e, mut lob) = self.lobby_entities.remove(i);
                let on_roster = contains_u64(&lob.players, player);
                lob.map_config = match lob.map_config {
                    Some(mut mc) => {
                        if on_roster {
                            let _ = mc.insert_player_into_team(team_name, player);
                        }
                        Some(mc)
                    },
                    None => None,
                };
                proof {
                    let pre = old(self).arena()[i as int].1;
                    let ghost lobg = lob;
                    match (pre.map_config, lobg.map_config) {
                        (Some(mc0), Some(mc1)) => {
                            assert(pre.wf());
                            assert forall|t: int, q: u64|
                                0 <= t < mc1.teams@.len() && #[trigger] mc1.team_at_has_player(
                                    t,
                                    q,
                                ) implies lobg.players@.contains(q) by {
                                let roster1 = mc1.teams@[t].1.players@;
                                let j = choose|j: int|
                                    0 <= j < roster1.len() && roster1[j] == q;
                                if pre.is_player(player) && mc0.has_team(team_name@) && t
                                    == mc0.team_index(team_name@) {
                                    if j == roster1.len() - 1 {
                                        assert(q == player);
                                    } else {
                                        assert(mc0.teams@[t].1.players@[j] == q);
                                        assert(mc0.team_at_has_player(t, q));
                                    }
                                } else {
                                    assert(mc1.teams@[t] == mc0.teams@[t]);
                                    assert(mc0.team_at_has_player(t, q));
                                }
                            }
                            assert(lobg.wf());
                        },
                        _ => {
                            assert(lobg.wf());
                        },
                    }
                }
                self.lobby_entities.insert(i, (e, lob));
                proof {
                    let idx = i as int;
                    assert(self.lobby_entities@ =~= old(self).lobby_entities@.update(
                        idx,
                        (e, lob),
                    ));
                    assert forall|k: int| 0 <= k < self.dir().len() implies {
                        &&& (#[trigger] self.arena()[k]).0 == self.dir()[k].1
                        &&& self.arena()[k].1.lobby_name@ == self.dir()[k].0@
                        &&& self.arena()[k].0 < self.next_entity
                        &&& self.arena()[k].1.wf()
                        &&& self.arena()[k].1.member_count() > 0
                    } by {
                        if k != idx {
                            assert(self.arena()[k] == old(self).arena()[k]);
                        }
                    }
                }
                true
            },
        }
    }

    /// Setup completion: install a freshly resolved map configuration on
    /// the named lobby and insert every roster player into the team
    /// recorded for it at handshake time — one batch directory update, no
    /// interleaved external calls. A player whose recorded team the map
    /// does not list, or who has no recorded team, joins no team roster.
    /// Reports whether the lobby was found.
    pub fn apply_map_config(
        &mut self,
        lobby: u64,
        config: MapConfig,
        player_teams: &Vec<(u64, String)>,
    ) -> (found: bool)
        requires
            old(self).wf(),
            config.wf(),
            forall|t: int|
                0 <= t < config.teams@.len() ==> (#[trigger] config.teams@[t]).1.players@.len()
                    == 0,
        ensures
            final(self).wf(),
            final(self).next_entity == old(self).next_entity,
            found == old(self).has_entity(lobby),
            !found ==> *final(self) == *old(self),
            // setup completion only runs while the map is unresolved: an
            // already-resolved lobby is left exactly as it is
            found && old(self).lobby_for_entity(lobby).map_config is Some ==> *final(self)
                == *old(self),
            found && old(self).lobby_for_entity(lobby).map_config is None ==> {
                let i = old(self).entity_index(lobby);
                let pre = old(self).arena()[i].1;
                let post = final(self).arena()[i].1;
                &&& final(self).dir() == old(self).dir()
                &&& final(self).arena().len() == old(self).arena().len()
                &&& forall|k: int|
                    0 <= k < old(self).arena().len() && k != i ==> final(self).arena()[k] == old(
                        self,
                    ).arena()[k]
                &&& final(self).arena()[i].0 == lobby
                &&& post.state == pre.state
                &&& post.lobby_name == pre.lobby_name
                &&& post.map_name == pre.map_name
                &&& post.tick == pre.tick
                &&& post.players@ == pre.players@
                &&& post.spectators@ == pre.spectators@
                &&& post.map_config is Some
                &&& {
                    let mc = post.map_config.unwrap();
                    &&& mc.map == config.map
                    &&& mc.teams@.len() == config.teams@.len()
                    &&& forall|t: int|
                        0 <= t < config.teams@.len() ==> {
                            &&& (#[trigger] mc.teams@[t]).0 == config.teams@[t].0
                            &&& mc.teams@[t].1.color == config.teams@[t].1.color
                            &&& mc.teams@[t].1.max_players == config.teams@[t].1.max_players
                            &&& mc.teams@[t].1.players@ == pre.players@.filter(
                                team_pred(player_teams@, config.teams@[t].0@),
                            )
                        }
                }
            },
    {
        let ghost config0 = config;
        match self.find_entity_index(lobby) {
            None => false,
            Some(i) => {
                proof {
                    assert forall|a: int, b: int|
                        0 <= a < b < old(self).arena().len() implies (
                    #[trigger] old(self).arena()[a]).0 != (#[trigger] old(self).arena()[b]).0 by {
                        assert(old(self).arena()[a].0 == old(self).dir()[a].1);
                        assert(old(self).arena()[b].0 == old(self).dir()[b].1);
                    }
                    assert(old(self).entity_index(lobby) == i as int);
                }
                if self.lobby_entities[i].1.map_config.is_some() {
                    return true;
                }
                let (e, mut lob) = self.lobby_entities.remove(i);
                let mut mc = config;
                let np = lob.players.len();
                let mut j: usize = 0;
                proof {
                    assert forall|t: int|
                        0 <= t < config0.teams@.len() implies (#[trigger] mc.teams@[t]).1.players@
                        =~= lob.players@.take(0int).filter(
                        team_pred(player_teams@, config0.teams@[t].0@),
                    ) by {
                        assert(lob.players@.take(0int) =~= Seq::<u64>::empty());
                        reveal(Seq::filter);
                    }
                }
                while j < np
                    invariant
                        j <= np,
                        np == lob.players@.len(),
                        mc.wf(),
                        mc.map == config0.map,
                        mc.teams@.len() == config0.teams@.len(),
                        forall|t: int|
                            0 <= t < config0.teams@.len() ==> {
                                &&& (#[trigger] mc.teams@[t]).0 == config0.teams@[t].0
                                &&& mc.teams@[t].1.color == config0.teams@[t].1.color
                                &&& mc.teams@[t].1.max_players == config0.teams@[t].1.max_players
                                &&& mc.teams@[t].1.players@ == lob.players@.take(j as int).filter(
                                    team_pred(player_teams@, config0.teams@[t].0@),
                                )
                            },
                    decreases np - j,
                {
                    let p = lob.players[j];
                    let ghost mc_before = mc;
                    let inserted: bool = match lookup_team(player_teams, p) {
                        Some(tn) => mc.insert_player_into_team(tn, p),
                        None => false,
                    };
                    proof {
                        assert forall|t: int|
                            0 <= t < config0.teams@.len() implies (
                        #[trigger] mc.teams@[t]).1.players@ == lob.players@.take(
                            j + 1int,
                        ).filter(team_pred(player_teams@, config0.teams@[t].0@)) by {
                            let pred = team_pred(player_teams@, config0.teams@[t].0@);
                            lemma_filter_take_step(lob.players@, pred, j as int);
                            if pred(p) {
                                // p's recorded team is exactly this team's name,
                                // so the lookup found it and the insert targeted
                                // this very index
                                assert(recorded_team(player_teams@, p) == Some(
                                    config0.teams@[t].0@,
                                ));
                                assert(mc_before.teams@[t].0@ == config0.teams@[t].0@);
                                assert(mc_before.has_team(config0.teams@[t].0@));
                                assert(inserted);
                                let ti = mc_before.team_index(
                                    recorded_team(player_teams@, p).unwrap(),
                                );
                                assert(mc_before.teams@[ti].0@ == config0.teams@[t].0@);
                                assert(ti == t);
                                assert(mc.teams@[t].1.players@ == mc_before.teams@[
                                    t
                                ].1.players@.push(p));
                            } else {
                                if inserted {
                                    let tn = recorded_team(player_teams@, p).unwrap();
                                    let ti = mc_before.team_index(tn);
                                    assert(mc_before.teams@[ti].0@ == tn);
                                    if ti == t {
                                        assert(recorded_team(player_teams@, p) == Some(
                                            config0.teams@[t].0@,
                                        ));
                                        assert(false);
                                    }
                                    assert(mc.teams@[t] == mc_before.teams@[t]);
                                } else {
                                    assert(mc.teams@[t] == mc_before.teams@[t]);
                                }
                            }
                        }
                    }
                    j = j + 1;
                }
                proof {
                    assert(lob.players@.take(np as int) =~= lob.players@);
                }
                lob.map_config = Some(mc);
                proof {
                    let ghost lobg = lob;
                    assert forall|t: int, q: u64|
                        0 <= t < mc.teams@.len() && #[trigger] mc.team_at_has_player(
                            t,
                            q,
                        ) implies lobg.players@.contains(q) by {
                        let roster = mc.teams@[t].1.players@;
                        let k = choose|k: int| 0 <= k < roster.len() && roster[k] == q;
                        crate::util::lemma_filter_elem(
                            lobg.players@,
                            team_pred(player_teams@, config0.teams@[t].0@),
                            k,
                        );
                    }
                    assert(lobg.wf());
                }
                self.lobby_entities.insert(i, (e, lob));
                proof {
                    let idx = i as int;
                    assert(self.lobby_entities@ =~= old(self).lobby_entities@.update(
                        idx,
                        (e, lob),
                    ));
                    assert forall|k: int| 0 <= k < self.dir().len() implies {
                        &&& (#[trigger] self.arena()[k]).0 == self.dir()[k].1
                        &&& self.arena()[k].1.lobby_name@ == self.dir()[k].0@
                        &&& self.arena()[k].0 < self.next_entity
                        &&& self.arena()[k].1.wf()
                        &&& self.arena()[k].1.member_count() > 0
                    } by {
                        if k != idx {
                            assert(self.arena()[k] == old(self).arena()[k]);
                        }
                    }
                }
                true
            },
        }
    }
}

} // verus!
