//! The session registry: one record per accepted connection, its
//! negotiated identity, its FIFO outbound queue, and the handshake
//! countdown that disconnects a silent connection.

use vstd::prelude::*;

use crate::lobby::InLobby;
use crate::messages::{ClientType, MessageContainer};
use crate::util::lemma_filter_take_step;

verus! {

/// The countdown attached to a session that has not shaken hands yet: the
/// time units left before the session is disconnected.
#[derive(Clone, Copy, PartialEq, Eq, Structural, Debug)]
pub struct AwaitingFirstContact(pub u64);

/// Raised when a connection is accepted; carries the fresh session handle.
#[derive(Clone, Copy, PartialEq, Eq, Structural, Debug)]
pub struct ClientConnectedTrigger(pub u64);

/// Raised when a session is disconnected; carries the session handle.
#[derive(Clone, Copy, PartialEq, Eq, Structural, Debug)]
pub struct ClientDisconnectedTrigger(pub u64);

/// Raised when a session's record has been dropped from the registry.
#[derive(Clone, Copy, PartialEq, Eq, Structural, Debug)]
pub struct ClientHasBeenDespawnedTrigger(pub u64);

/// Raised when a player has been removed from a lobby; carries the
/// player handle so the host can return it to the pre-lobby state.
#[derive(Clone, Copy, PartialEq, Eq, Structural, Debug)]
pub struct PlayerRemovedFromLobbyTrigger(pub u64);

/// The local stand-in a spectator client keeps for one of the server's
/// network clients.
#[derive(Clone, Copy, PartialEq, Eq, Structural, Debug)]
pub struct MyLocalClient {
    pub network_client: u64,
}

/// One session: the connection's identity state and its outbound queue.
/// Broadcasts append to the queue; the transport drains it from the
/// front, so delivery order matches send order. The transport handle
/// itself stays with the host.
pub struct MyNetworkClient {
    pub name: Option<String>,
    pub address: String,
    pub team_name: Option<String>,
    pub client_type: ClientType,
    pub in_lobby: Option<InLobby>,
    pub outgoing_messages_queue: Vec<MessageContainer>,
    pub awaiting_first_contact: Option<AwaitingFirstContact>,
}

impl MyNetworkClient {
    /// A fresh session: unnamed, lobby-less, empty queue, counting down
    /// from the handshake timeout.
    pub fn new(address: String, timeout: u64) -> (r: Self)
        ensures
            r.name is None,
            r.address == address,
            r.team_name is None,
            r.client_type == ClientType::Player,
            r.in_lobby is None,
            r.outgoing_messages_queue@ == Seq::<MessageContainer>::empty(),
            r.awaiting_first_contact == Some(AwaitingFirstContact(timeout)),
    {
        MyNetworkClient {
            name: None,
            address,
            team_name: None,
            client_type: ClientType::Player,
            in_lobby: None,
            outgoing_messages_queue: Vec::new(),
            awaiting_first_contact: Some(AwaitingFirstContact(timeout)),
        }
    }
}

/// Whether the session's countdown survives `elapsed` time units.
pub open spec fn survives_tick(c: MyNetworkClient, elapsed: u64) -> bool {
    match c.awaiting_first_contact {
        Some(t) => t.0 > elapsed,
        None => true,
    }
}

/// The predicate keeping the registry rows that survive `elapsed`.
pub open spec fn survivor_row(elapsed: u64) -> spec_fn((u64, MyNetworkClient)) -> bool {
    |row: (u64, MyNetworkClient)| survives_tick(row.1, elapsed)
}

/// The session after `elapsed` time units: a running countdown loses
/// `elapsed`; everything else stays.
pub open spec fn ticked_client(c: MyNetworkClient, elapsed: u64) -> MyNetworkClient {
    match c.awaiting_first_contact {
        Some(t) => MyNetworkClient {
            awaiting_first_contact: Some(AwaitingFirstContact((t.0 - elapsed) as u64)),
            ..c
        },
        None => c,
    }
}

/// The registry row after `elapsed` time units.
pub open spec fn ticked_row(elapsed: u64) -> spec_fn((u64, MyNetworkClient)) -> (
    u64,
    MyNetworkClient,
) {
    |row: (u64, MyNetworkClient)| (row.0, ticked_client(row.1, elapsed))
}

/// The registry: one record per session, keyed by the session handle the
/// registry itself issues, plus the handshake timeout it arms new
/// sessions with.
pub struct SessionRegistry {
    pub clients: Vec<(u64, MyNetworkClient)>,
    pub next_session: u64,
    pub timeout_first_contact: u64,
}

impl SessionRegistry {
    pub open spec fn rows(self) -> Seq<(u64, MyNetworkClient)> {
        self.clients@
    }

    /// Session handles are unique and below the allocator mark.
    pub open spec fn wf(self) -> bool {
        &&& forall|i: int|
            0 <= i < self.rows().len() ==> (#[trigger] self.rows()[i]).0 < self.next_session
        &&& forall|i: int, j: int|
            0 <= i < j < self.rows().len() ==> (#[trigger] self.rows()[i]).0 != (
            #[trigger] self.rows()[j]).0
    }

    pub open spec fn has_session(self, id: u64) -> bool {
        exists|i: int| 0 <= i < self.rows().len() && (#[trigger] self.rows()[i]).0 == id
    }

    pub open spec fn session_index(self, id: u64) -> int {
        choose|i: int| 0 <= i < self.rows().len() && (#[trigger] self.rows()[i]).0 == id
    }

    /// The session record behind a handle.
    pub open spec fn client_for(self, id: u64) -> MyNetworkClient {
        self.rows()[self.session_index(id)].1
    }

    /// An empty registry arming new sessions with the given timeout.
    pub fn new(timeout_first_contact: u64) -> (r: Self)
        ensures
            r.rows().len() == 0,
            r.next_session == 0,
            r.timeout_first_contact == timeout_first_contact,
            r.wf(),
    {
        SessionRegistry { clients: Vec::new(), next_session: 0, timeout_first_contact }
    }

    /// Index of the row holding session `id`.
    pub(crate) fn find_session_index(&self, id: u64) -> (r: Option<usize>)
        ensures
            match r {
                Some(i) => i < self.rows().len() && self.rows()[i as int].0 == id
                    && self.has_session(id),
                None => !self.has_session(id),
            },
    {
        let n = self.clients.len();
        let mut i: usize = 0;
        while i < n
            invariant
                i <= n,
                n == self.rows().len(),
                forall|k: int| 0 <= k < i ==> (#[trigger] self.rows()[k]).0 != id,
            decreases n - i,
        {
            if self.clients[i].0 == id {
                return Some(i);
            }
            i = i + 1;
        }
        None
    }

    /// Register a freshly accepted connection: a new session in the
    /// awaiting-handshake state, under a fresh handle.
    pub fn register(&mut self, address: String) -> (r: ClientConnectedTrigger)
        requires
            old(self).wf(),
            old(self).next_session < u64::MAX,
        ensures
            final(self).wf(),
            r.0 == old(self).next_session,
            final(self).next_session == old(self).next_session + 1,
            final(self).timeout_first_contact == old(self).timeout_first_contact,
            final(self).rows().len() == old(self).rows().len() + 1,
            forall|k: int|
                0 <= k < old(self).rows().len() ==> final(self).rows()[k] == old(self).rows()[k],
            final(self).rows().last().0 == r.0,
            final(self).rows().last().1.name is None,
            final(self).rows().last().1.address == address,
            final(self).rows().last().1.in_lobby is None,
            final(self).rows().last().1.outgoing_messages_queue@ == Seq::<
                MessageContainer,
            >::empty(),
            final(self).rows().last().1.awaiting_first_contact == Some(
                AwaitingFirstContact(old(self).timeout_first_contact),
            ),
            final(self).has_session(r.0),
            final(self).client_for(r.0) == final(self).rows().last().1,
    {
        let id = self.next_session;
        let client = MyNetworkClient::new(address, self.timeout_first_contact);
        self.clients.push((id, client));
        self.next_session = self.next_session + 1;
        proof {
            let n = old(self).rows().len() as int;
            assert forall|k: int| 0 <= k < n implies (#[trigger] self.rows()[k]) == old(
                self,
            ).rows()[k] by {}
            assert(self.rows()[n].0 == id);
            assert(self.has_session(id));
            let c = self.session_index(id);
            assert(0 <= c < self.rows().len() && self.rows()[c].0 == id);
            assert forall|a: int, b: int| 0 <= a < b < self.rows().len() implies (
            #[trigger] self.rows()[a]).0 != (#[trigger] self.rows()[b]).0 by {
                if b == n {
                    assert(old(self).rows()[a].0 < old(self).next_session);
                }
            }
            assert(c == n);
        }
        ClientConnectedTrigger(id)
    }

    /// The record of session `id`, if it is registered.
    pub fn get_client(&self, id: u64) -> (r: Option<&MyNetworkClient>)
        requires
            self.wf(),
        ensures
            match r {
                Some(c) => self.has_session(id) && *c == self.client_for(id),
                None => !self.has_session(id),
            },
    {
        match self.find_session_index(id) {
            None => None,
            Some(i) => {
                proof {
                    lemma_session_index_unique(*self, id, i as int);
                }
                Some(&self.clients[i].1)
            },
        }
    }

    /// Advance every pending handshake countdown by `elapsed`: a session
    /// whose countdown runs out is disconnected — dropped from the
    /// registry and reported — and a surviving countdown keeps the
    /// remaining time. Sessions past their handshake are untouched.
    pub fn handle_awaiting_first_contact(&mut self, elapsed: u64) -> (disconnected: Vec<
        ClientDisconnectedTrigger,
    >)
        requires
            old(self).wf(),
        ensures
            final(self).wf(),
            final(self).next_session == old(self).next_session,
            final(self).timeout_first_contact == old(self).timeout_first_contact,
            final(self).rows() == old(self).rows().filter(survivor_row(elapsed)).map_values(
                ticked_row(elapsed),
            ),
            disconnected@.len() + final(self).rows().len() == old(self).rows().len(),
            forall|k: int|
                0 <= k < disconnected@.len() ==> old(self).has_session(
                    (#[trigger] disconnected@[k]).0,
                ) && !survives_tick(
                    old(self).client_for(disconnected@[k].0),
                    elapsed,
                ),
    {
        let n = self.clients.len();
        let mut kept: Vec<(u64, MyNetworkClient)> = Vec::new();
        let mut disconnected: Vec<ClientDisconnectedTrigger> = Vec::new();
        let mut i: usize = 0;
        proof {
            assert(old(self).rows().take(0int).filter(survivor_row(elapsed)) =~= Seq::<
                (u64, MyNetworkClient),
            >::empty());
            assert(kept@ =~= old(self).rows().take(0int).filter(survivor_row(elapsed)).map_values(
                ticked_row(elapsed),
            ));
        }
        while i < n
            invariant
                i <= n,
                n == old(self).rows().len(),
                old(self).wf(),
                self.next_session == old(self).next_session,
                self.timeout_first_contact == old(self).timeout_first_contact,
                self.rows() == old(self).rows().skip(i as int),
                kept@ == old(self).rows().take(i as int).filter(survivor_row(elapsed)).map_values(
                    ticked_row(elapsed),
                ),
                disconnected@.len() + kept@.len() == i,
                forall|k: int|
                    0 <= k < disconnected@.len() ==> old(self).has_session(
                        (#[trigger] disconnected@[k]).0,
                    ) && !survives_tick(
                        old(self).client_for(disconnected@[k].0),
                        elapsed,
                    ),
            decreases n - i,
        {
            let (id, mut client) = self.clients.remove(0);
            proof {
                assert(old(self).rows().skip(i as int)[0] == old(self).rows()[i as int]);
                assert(self.rows() =~= old(self).rows().skip(i + 1int));
                lemma_filter_take_step(old(self).rows(), survivor_row(elapsed), i as int);
            }
            let ghost prev_kept = kept@;
            let expired: bool = match &client.awaiting_first_contact {
                Some(t) => t.0 <= elapsed,
                None => false,
            };
            if expired {
                proof {
                    lemma_session_index_unique(*old(self), id, i as int);
                    assert(!survivor_row(elapsed)(old(self).rows()[i as int]));
                }
                disconnected.push(ClientDisconnectedTrigger(id));
                proof {
                    assert(kept@ =~= old(self).rows().take(i + 1int).filter(
                        survivor_row(elapsed),
                    ).map_values(ticked_row(elapsed)));
                }
            } else {
                match &client.awaiting_first_contact {
                    Some(t) => {
                        let remaining = t.0 - elapsed;
                        client.awaiting_first_contact = Some(AwaitingFirstContact(remaining));
                    },
                    None => {},
                }
                proof {
                    assert(survivor_row(elapsed)(old(self).rows()[i as int]));
                    assert((id, client) == ticked_row(elapsed)(old(self).rows()[i as int]));
                }
                kept.push((id, client));
                proof {
                    let pre_filter = old(self).rows().take(i as int).filter(
                        survivor_row(elapsed),
                    );
                    assert(pre_filter.push(old(self).rows()[i as int]).map_values(
                        ticked_row(elapsed),
                    ) =~= pre_filter.map_values(ticked_row(elapsed)).push(
                        ticked_row(elapsed)(old(self).rows()[i as int]),
                    ));
                    assert(kept@ =~= old(self).rows().take(i + 1int).filter(
                        survivor_row(elapsed),
                    ).map_values(ticked_row(elapsed)));
                }
            }
            i = i + 1;
        }
        self.clients = kept;
        proof {
            assert(old(self).rows().take(n as int) =~= old(self).rows());
            let f = old(self).rows().filter(survivor_row(elapsed));
            assert forall|a: int, b: int| 0 <= a < b < self.rows().len() implies (
            #[trigger] self.rows()[a]).0 != (#[trigger] self.rows()[b]).0 by {
                crate::util::lemma_filter_elem(old(self).rows(), survivor_row(elapsed), a);
                crate::util::lemma_filter_elem(old(self).rows(), survivor_row(elapsed), b);
                let ja = choose|j: int|
                    0 <= j < old(self).rows().len() && old(self).rows()[j] == f[a];
                let jb = choose|j: int|
                    0 <= j < old(self).rows().len() && old(self).rows()[j] == f[b];
                assert(self.rows()[a] == ticked_row(elapsed)(f[a]));
                assert(self.rows()[b] == ticked_row(elapsed)(f[b]));
                if f[a].0 == f[b].0 {
                    if ja == jb {
                        lemma_filter_rows_injective(old(self).rows(), survivor_row(elapsed), a, b);
                    } else {
                        assert(old(self).rows()[ja].0 != old(self).rows()[jb].0);
                    }
                }
            }
            assert forall|k: int| 0 <= k < self.rows().len() implies (#[trigger] self.rows()[
                k
            ]).0 < self.next_session by {
                crate::util::lemma_filter_elem(old(self).rows(), survivor_row(elapsed), k);
                let j = choose|j: int|
                    0 <= j < old(self).rows().len() && old(self).rows()[j] == f[k];
                assert(self.rows()[k] == ticked_row(elapsed)(f[k]));
            }
        }
        disconnected
    }
}

/// The registry after one session record changed: row `i` keeps its
/// handle and holds `c`; everything else stays.
pub open spec fn row_updated(
    pre: SessionRegistry,
    post: SessionRegistry,
    i: int,
    c: MyNetworkClient,
) -> bool {
    &&& post.rows().len() == pre.rows().len()
    &&& forall|k: int|
        0 <= k < pre.rows().len() && k != i ==> post.rows()[k] == pre.rows()[k]
    &&& post.rows()[i].0 == pre.rows()[i].0
    &&& post.rows()[i].1 == c
    &&& post.next_session == pre.next_session
    &&& post.timeout_first_contact == pre.timeout_first_contact
}

/// A session equal to `pre` but for one more queued message.
pub open spec fn queue_appended(
    pre: MyNetworkClient,
    post: MyNetworkClient,
    m: MessageContainer,
) -> bool {
    &&& post.name == pre.name
    &&& post.address == pre.address
    &&& post.team_name == pre.team_name
    &&& post.client_type == pre.client_type
    &&& post.in_lobby == pre.in_lobby
    &&& post.awaiting_first_contact == pre.awaiting_first_contact
    &&& post.outgoing_messages_queue@ == pre.outgoing_messages_queue@.push(m)
}

/// A session equal to `pre` but with its queue drained.
pub open spec fn queue_drained(pre: MyNetworkClient, post: MyNetworkClient) -> bool {
    &&& post.name == pre.name
    &&& post.address == pre.address
    &&& post.team_name == pre.team_name
    &&& post.client_type == pre.client_type
    &&& post.in_lobby == pre.in_lobby
    &&& post.awaiting_first_contact == pre.awaiting_first_contact
    &&& post.outgoing_messages_queue@ == Seq::<MessageContainer>::empty()
}

impl SessionRegistry {
    /// The handshake handler's identity binding: record the session's
    /// name, team choice and client type. Only this path sets them.
    pub fn bind_handshake(
        &mut self,
        id: u64,
        name: String,
        team_name: Option<String>,
        client_type: ClientType,
    ) -> (found: bool)
        requires
            old(self).wf(),
        ensures
            final(self).wf(),
            found == old(self).has_session(id),
            !found ==> *final(self) == *old(self),
            found ==> row_updated(
                *old(self),
                *final(self),
                old(self).session_index(id),
                MyNetworkClient {
                    name: Some(name),
                    team_name,
                    client_type,
                    ..old(self).client_for(id)
                },
            ),
    {
        match self.find_session_index(id) {
            None => false,
            Some(i) => {
                proof {
                    lemma_session_index_unique(*old(self), id, i as int);
                }
                let (e, mut client) = self.clients.remove(i);
                client.name = Some(name);
                client.team_name = team_name;
                client.client_type = client_type;
                self.clients.insert(i, (e, client));
                proof {
                    assert(self.clients@ =~= old(self).clients@.update(i as int, (e, client)));
                }
                true
            },
        }
    }

    /// Setup completion for one member: the handshake countdown is
    /// cleared and the session is bound to its lobby.
    pub fn clear_awaiting_and_bind(&mut self, id: u64, lobby: u64) -> (found: bool)
        requires
            old(self).wf(),
        ensures
            final(self).wf(),
            found == old(self).has_session(id),
            !found ==> *final(self) == *old(self),
            found ==> row_updated(
                *old(self),
                *final(self),
                old(self).session_index(id),
                MyNetworkClient {
                    in_lobby: Some(InLobby(lobby)),
                    awaiting_first_contact: None,
                    ..old(self).client_for(id)
                },
            ),
    {
        match self.find_session_index(id) {
            None => false,
            Some(i) => {
                proof {
                    lemma_session_index_unique(*old(self), id, i as int);
                }
                let (e, mut client) = self.clients.remove(i);
                client.in_lobby = Some(InLobby(lobby));
                client.awaiting_first_contact = None;
                self.clients.insert(i, (e, client));
                proof {
                    assert(self.clients@ =~= old(self).clients@.update(i as int, (e, client)));
                }
                true
            },
        }
    }

    /// A member removed from its lobby returns to the pre-lobby state:
    /// unbound, its team choice cleared, with a fresh handshake countdown
    /// armed.
    pub fn re_arm_awaiting(&mut self, id: u64) -> (found: bool)
        requires
            old(self).wf(),
        ensures
            final(self).wf(),
            found == old(self).has_session(id),
            !found ==> *final(self) == *old(self),
            found ==> row_updated(
                *old(self),
                *final(self),
                old(self).session_index(id),
                MyNetworkClient {
                    in_lobby: None,
                    team_name: None,
                    awaiting_first_contact: Some(
                        AwaitingFirstContact(old(self).timeout_first_contact),
                    ),
                    ..old(self).client_for(id)
                },
            ),
    {
        match self.find_session_index(id) {
            None => false,
            Some(i) => {
                proof {
                    lemma_session_index_unique(*old(self), id, i as int);
                }
                let (e, mut client) = self.clients.remove(i);
                client.in_lobby = None;
                client.team_name = None;
                client.awaiting_first_contact = Some(
                    AwaitingFirstContact(self.timeout_first_contact),
                );
                self.clients.insert(i, (e, client));
                proof {
                    assert(self.clients@ =~= old(self).clients@.update(i as int, (e, client)));
                }
                true
            },
        }
    }

    /// Queue an outbound message for the session: appended at the back,
    /// so a recipient sees messages in send order.
    pub fn push_message(&mut self, id: u64, message: MessageContainer) -> (found: bool)
        requires
            old(self).wf(),
        ensures
            final(self).wf(),
            found == old(self).has_session(id),
            !found ==> *final(self) == *old(self),
            found ==> {
                let i = old(self).session_index(id);
                &&& final(self).rows().len() == old(self).rows().len()
                &&& forall|k: int|
                    0 <= k < old(self).rows().len() && k != i ==> final(self).rows()[k] == old(
                        self,
                    ).rows()[k]
                &&& final(self).rows()[i].0 == old(self).rows()[i].0
                &&& queue_appended(old(self).client_for(id), final(self).rows()[i].1, message)
                &&& final(self).next_session == old(self).next_session
                &&& final(self).timeout_first_contact == old(self).timeout_first_contact
            },
    {
        match self.find_session_index(id) {
            None => false,
            Some(i) => {
                proof {
                    lemma_session_index_unique(*old(self), id, i as int);
                }
                let (e, mut client) = self.clients.remove(i);
                client.outgoing_messages_queue.push(message);
                self.clients.insert(i, (e, client));
                proof {
                    assert(self.clients@ =~= old(self).clients@.update(i as int, (e, client)));
                }
                true
            },
        }
    }

    /// Drain the session's outbound queue for the transport: the queued
    /// messages leave in send order and the queue is empty afterwards.
    pub fn take_outgoing(&mut self, id: u64) -> (r: Vec<MessageContainer>)
        requires
            old(self).wf(),
        ensures
            final(self).wf(),
            !old(self).has_session(id) ==> *final(self) == *old(self) && r@.len() == 0,
            old(self).has_session(id) ==> {
                let i = old(self).session_index(id);
                &&& r@ == old(self).client_for(id).outgoing_messages_queue@
                &&& final(self).rows().len() == old(self).rows().len()
                &&& forall|k: int|
                    0 <= k < old(self).rows().len() && k != i ==> final(self).rows()[k] == old(
                        self,
                    ).rows()[k]
                &&& final(self).rows()[i].0 == old(self).rows()[i].0
                &&& queue_drained(old(self).client_for(id), final(self).rows()[i].1)
                &&& final(self).next_session == old(self).next_session
                &&& final(self).timeout_first_contact == old(self).timeout_first_contact
            },
    {
        match self.find_session_index(id) {
            None => Vec::new(),
            Some(i) => {
                proof {
                    lemma_session_index_unique(*old(self), id, i as int);
                }
                let (e, mut client) = self.clients.remove(i);
                let queue = client.outgoing_messages_queue;
                client.outgoing_messages_queue = Vec::new();
                self.clients.insert(i, (e, client));
                proof {
                    assert(self.clients@ =~= old(self).clients@.update(i as int, (e, client)));
                }
                queue
            },
        }
    }

    /// Disconnect: drop the session record, discarding whatever was still
    /// queued for it.
    pub fn remove_session(&mut self, id: u64) -> (found: bool)
        requires
            old(self).wf(),
        ensures
            final(self).wf(),
            found == old(self).has_session(id),
            !found ==> *final(self) == *old(self),
            found ==> {
                &&& final(self).rows() == old(self).rows().remove(old(self).session_index(id))
                &&& final(self).next_session == old(self).next_session
                &&& final(self).timeout_first_contact == old(self).timeout_first_contact
            },
    {
        match self.find_session_index(id) {
            None => false,
            Some(i) => {
                proof {
                    lemma_session_index_unique(*old(self), id, i as int);
                }
                let _ = self.clients.remove(i);
                proof {
                    assert forall|a: int, b: int| 0 <= a < b < self.rows().len() implies (
                    #[trigger] self.rows()[a]).0 != (#[trigger] self.rows()[b]).0 by {
                        let a0 = if a < i as int {
                            a
                        } else {
                            a + 1
                        };
                        let b0 = if b < i as int {
                            b
                        } else {
                            b + 1
                        };
                        assert(self.rows()[a] == old(self).rows()[a0]);
                        assert(self.rows()[b] == old(self).rows()[b0]);
                    }
                    assert forall|k: int| 0 <= k < self.rows().len() implies (
                    #[trigger] self.rows()[k]).0 < self.next_session by {
                        let k0 = if k < i as int {
                            k
                        } else {
                            k + 1
                        };
                        assert(self.rows()[k] == old(self).rows()[k0]);
                    }
                }
                true
            },
        }
    }
}

/// A registry row holding session `id` is the unique one: the lookup
/// functions agree with it.
pub proof fn lemma_session_index_unique(s: SessionRegistry, id: u64, i: int)
    requires
        s.wf(),
        0 <= i < s.rows().len(),
        s.rows()[i].0 == id,
    ensures
        s.has_session(id),
        s.session_index(id) == i,
{
    assert(s.has_session(id));
    let c = s.session_index(id);
    assert(0 <= c < s.rows().len() && s.rows()[c].0 == id);
    assert(c == i);
}

/// Two distinct positions of a filtered row sequence cannot be the same
/// source row twice unless the source repeats it.
proof fn lemma_filter_rows_injective(
    s: Seq<(u64, MyNetworkClient)>,
    pred: spec_fn((u64, MyNetworkClient)) -> bool,
    a: int,
    b: int,
)
    requires
        forall|i: int, j: int|
            0 <= i < j < s.len() ==> (#[trigger] s[i]).0 != (#[trigger] s[j]).0,
        0 <= a < b < s.filter(pred).len(),
    ensures
        s.filter(pred)[a].0 != s.filter(pred)[b].0,
    decreases s.len(),
{
    reveal(Seq::filter);
    if s.len() == 0 {
    } else {
        let d = s.drop_last();
        let fd = d.filter(pred);
        if pred(s.last()) && b == s.filter(pred).len() - 1 && s.filter(pred).len() == fd.len()
            + 1 {
            crate::util::lemma_filter_elem(d, pred, a);
            let j = choose|j: int| 0 <= j < d.len() && d[j] == fd[a];
            assert(s[j].0 != s[s.len() - 1].0);
        } else {
            lemma_filter_rows_injective(d, pred, a, b);
        }
    }
}

} // verus!
