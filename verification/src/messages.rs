//! The message envelope and its tagged payload and target unions.
//!
//! Every payload kind and every target carries a stable wire tag string; the
//! target union additionally round-trips through its tag plus the recipient
//! field that accompanies a `CLIENT` tag.

use vstd::prelude::*;
use vstd::string::StringExecFns;

use crate::maps::{MapDefinition, TeamColor};

verus! {

/// What a connecting client wants to be: a playing bot or a spectator.
#[derive(Clone, Copy, PartialEq, Eq, Structural, Debug)]
pub enum ClientType {
    Player,
    Spectator,
}

/// The handshake payload: who the client is, which lobby it wants, and
/// optionally which map that lobby should be created with.
pub struct FirstContactData {
    pub bot_name: String,
    pub lobby_name: String,
    pub map_name: Option<String>,
    pub team_name: Option<String>,
    pub client_type: ClientType,
}

/// A position and orientation, in thousandths of a world unit and of a turn.
#[derive(Clone, Copy, PartialEq, Eq, Structural, Debug)]
pub struct TransformData {
    pub x: i64,
    pub y: i64,
    pub z: i64,
    pub rotation: i64,
}

/// The authoritative per-tick snapshot of one lobby: entity states keyed by
/// server-side entity handle.
pub struct GameState {
    pub tick: u64,
    pub player_states: Vec<(u64, TransformData)>,
    pub projectile_states: Vec<(u64, TransformData)>,
}

impl GameState {
    pub fn empty() -> (r: GameState)
        ensures
            r.tick == 0,
            r.player_states@ == Seq::<(u64, TransformData)>::empty(),
            r.projectile_states@ == Seq::<(u64, TransformData)>::empty(),
    {
        GameState { tick: 0, player_states: Vec::new(), projectile_states: Vec::new() }
    }

    /// A field-for-field copy of the snapshot.
    pub fn duplicate(&self) -> (r: GameState)
        ensures
            r.tick == self.tick,
            r.player_states@ == self.player_states@,
            r.projectile_states@ == self.projectile_states@,
    {
        GameState {
            tick: self.tick,
            player_states: copy_pairs(&self.player_states),
            projectile_states: copy_pairs(&self.projectile_states),
        }
    }
}

/// A copy of a vector of keyed transforms.
fn copy_pairs(v: &Vec<(u64, TransformData)>) -> (r: Vec<(u64, TransformData)>)
    ensures
        r@ == v@,
{
    let n = v.len();
    let mut out: Vec<(u64, TransformData)> = Vec::new();
    let mut i: usize = 0;
    while i < n
        invariant
            i <= n,
            n == v@.len(),
            out@ == v@.take(i as int),
        decreases n - i,
    {
        out.push(v[i]);
        proof {
            assert(out@ =~= v@.take(i + 1int));
        }
        i = i + 1;
    }
    proof {
        assert(v@.take(n as int) =~= v@);
    }
    out
}

/// A plain text payload.
pub struct TextDataWrapper {
    pub message: String,
}

/// The error payloads a server can send back on a failed request.
#[derive(Clone, Copy, PartialEq, Eq, Structural, Debug)]
pub enum ErrorMessageTypes {
    MalformedPayload,
    HandshakeRejected,
    TargetingFailed,
}

/// One client as the game-start configuration announces it.
pub struct ConnectedClientConfig {
    pub client_id: u64,
    pub client_name: String,
    pub client_team: String,
    pub assigned_spawn_point: usize,
}

/// The configuration broadcast when a lobby's game starts.
pub struct GameStarts {
    pub tick_rate: u64,
    pub team_configs: Vec<(String, TeamColor)>,
    pub map_definition: MapDefinition,
    pub connected_clients: Vec<ConnectedClientConfig>,
}

/// The command a client sends at a lobby to start its game.
pub struct StartGameConfig {
    pub countdown_ticks: u64,
}

/// The abstract recipient specification of a message.
#[derive(Clone, Copy, PartialEq, Eq, Structural, Debug)]
pub enum MessageTarget {
    /// Everyone sharing the sender's team in the sender's lobby, without
    /// the sender.
    Team,
    /// The server itself; resolves to no recipient at all.
    ServerOnly,
    /// Everyone in the sender's lobby, without the sender.
    AllInLobby,
    /// The single named recipient.
    Client(u64),
    /// The lobby entity itself, for lobby-level commands.
    ToLobbyDirectly,
}

impl MessageTarget {
    /// The stable tag written for this target on the wire.
    pub open spec fn spec_wire_tag(self) -> Seq<char> {
        match self {
            MessageTarget::Team => "TEAM"@,
            MessageTarget::ServerOnly => "SERVER_ONLY"@,
            MessageTarget::AllInLobby => "ALL_IN_LOBBY"@,
            MessageTarget::Client(_) => "CLIENT"@,
            MessageTarget::ToLobbyDirectly => "TO_LOBBY_DIRECTLY"@,
        }
    }

    pub fn wire_tag(&self) -> (r: &'static str)
        ensures
            r@ == self.spec_wire_tag(),
    {
        match self {
            MessageTarget::Team => "TEAM",
            MessageTarget::ServerOnly => "SERVER_ONLY",
            MessageTarget::AllInLobby => "ALL_IN_LOBBY",
            MessageTarget::Client(_) => "CLIENT",
            MessageTarget::ToLobbyDirectly => "TO_LOBBY_DIRECTLY",
        }
    }

    /// The recipient field accompanying the tag: filled for `CLIENT` only.
    pub open spec fn spec_client_field(self) -> Option<u64> {
        match self {
            MessageTarget::Client(id) => Some(id),
            _ => None,
        }
    }

    pub fn client_field(&self) -> (r: Option<u64>)
        ensures
            r == self.spec_client_field(),
    {
        match self {
            MessageTarget::Client(id) => Some(*id),
            _ => None,
        }
    }

    /// The target a wire tag and its accompanying recipient field stand for:
    /// unknown tags, and a `CLIENT` tag without a recipient, stand for none.
    pub open spec fn spec_from_wire(tag: Seq<char>, client_field: Option<u64>) -> Option<
        MessageTarget,
    > {
        if tag == "TEAM"@ {
            Some(MessageTarget::Team)
        } else if tag == "SERVER_ONLY"@ {
            Some(MessageTarget::ServerOnly)
        } else if tag == "ALL_IN_LOBBY"@ {
            Some(MessageTarget::AllInLobby)
        } else if tag == "CLIENT"@ {
            match client_field {
                Some(id) => Some(MessageTarget::Client(id)),
                None => None,
            }
        } else if tag == "TO_LOBBY_DIRECTLY"@ {
            Some(MessageTarget::ToLobbyDirectly)
        } else {
            None
        }
    }

    /// Rebuild a target from its wire tag and the accompanying recipient
    /// field.
    pub fn from_wire(tag: &String, client_field: Option<u64>) -> (r: Option<MessageTarget>)
        ensures
            r == MessageTarget::spec_from_wire(tag@, client_field),
    {
        if tag_matches(tag, "TEAM") {
            Some(MessageTarget::Team)
        } else if tag_matches(tag, "SERVER_ONLY") {
            Some(MessageTarget::ServerOnly)
        } else if tag_matches(tag, "ALL_IN_LOBBY") {
            Some(MessageTarget::AllInLobby)
        } else if tag_matches(tag, "CLIENT") {
            match client_field {
                Some(id) => Some(MessageTarget::Client(id)),
                None => None,
            }
        } else if tag_matches(tag, "TO_LOBBY_DIRECTLY") {
            Some(MessageTarget::ToLobbyDirectly)
        } else {
            None
        }
    }
}

/// Whether a wire tag equals the given literal.
fn tag_matches(tag: &String, lit: &str) -> (r: bool)
    ensures
        r == (tag@ == lit@),
{
    let owned = String::from_str(lit);
    *tag == owned
}

/// Every target comes back unchanged from its own wire tag and recipient
/// field.
pub proof fn lemma_target_wire_round_trip(t: MessageTarget)
    ensures
        MessageTarget::spec_from_wire(t.spec_wire_tag(), t.spec_client_field()) == Some(t),
{
    reveal_strlit("TEAM");
    reveal_strlit("SERVER_ONLY");
    reveal_strlit("ALL_IN_LOBBY");
    reveal_strlit("CLIENT");
    reveal_strlit("TO_LOBBY_DIRECTLY");
    // the five tags have five different lengths
    assert("TEAM"@.len() == 4);
    assert("SERVER_ONLY"@.len() == 11);
    assert("ALL_IN_LOBBY"@.len() == 12);
    assert("CLIENT"@.len() == 6);
    assert("TO_LOBBY_DIRECTLY"@.len() == 17);
}

/// The payload union; each variant is one wire payload kind.
pub enum NetworkMessageType {
    FirstContact(FirstContactData),
    GameState(GameState),
    SimpleTextMessage(TextDataWrapper),
    MessageError(ErrorMessageTypes),
    GameStarts(GameStarts),
    StartGame(StartGameConfig),
    SuccessFullyJoinedLobby(TextDataWrapper),
}

impl NetworkMessageType {
    /// The stable tag written for this payload kind on the wire.
    pub open spec fn spec_wire_tag(self) -> Seq<char> {
        match self {
            NetworkMessageType::FirstContact(_) => "FIRST_CONTACT"@,
            NetworkMessageType::GameState(_) => "GAME_STATE"@,
            NetworkMessageType::SimpleTextMessage(_) => "SIMPLE_TEXT_MESSAGE"@,
            NetworkMessageType::MessageError(_) => "MESSAGE_ERROR"@,
            NetworkMessageType::GameStarts(_) => "GAME_CONFIG"@,
            NetworkMessageType::StartGame(_) => "START_GAME"@,
            NetworkMessageType::SuccessFullyJoinedLobby(_) => "SUCCESSFULLY_JOINED_LOBBY"@,
        }
    }

    pub fn wire_tag(&self) -> (r: &'static str)
        ensures
            r@ == self.spec_wire_tag(),
    {
        match self {
            NetworkMessageType::FirstContact(_) => "FIRST_CONTACT",
            NetworkMessageType::GameState(_) => "GAME_STATE",
            NetworkMessageType::SimpleTextMessage(_) => "SIMPLE_TEXT_MESSAGE",
            NetworkMessageType::MessageError(_) => "MESSAGE_ERROR",
            NetworkMessageType::GameStarts(_) => "GAME_CONFIG",
            NetworkMessageType::StartGame(_) => "START_GAME",
            NetworkMessageType::SuccessFullyJoinedLobby(_) => "SUCCESSFULLY_JOINED_LOBBY",
        }
    }
}

impl Default for NetworkMessageType {
    /// The default payload is an empty snapshot.
    fn default() -> (r: Self)
        ensures
            match r {
                NetworkMessageType::GameState(g) => g.tick == 0 && g.player_states@.len() == 0
                    && g.projectile_states@.len() == 0,
                _ => false,
            },
    {
        NetworkMessageType::GameState(GameState::empty())
    }
}

/// The message envelope: a payload, its target specification, the optional
/// sender, and the ticks it was sent and received on.
pub struct MessageContainer {
    pub target: MessageTarget,
    pub message: NetworkMessageType,
    pub sender: Option<u64>,
    pub tick_sent: u64,
    pub tick_received: u64,
}

impl MessageContainer {
    /// A fresh envelope with no sender and zeroed tick stamps.
    pub fn new(target: MessageTarget, message: NetworkMessageType) -> (r: Self)
        ensures
            r.target == target,
            r.message == message,
            r.sender == None::<u64>,
            r.tick_sent == 0,
            r.tick_received == 0,
    {
        MessageContainer { target, message, sender: None, tick_sent: 0, tick_received: 0 }
    }

    /// An envelope stamped as sent on `tick`.
    pub fn new_sent(target: MessageTarget, message: NetworkMessageType, tick: u64) -> (r: Self)
        ensures
            r.target == target,
            r.message == message,
            r.sender == None::<u64>,
            r.tick_sent == tick,
            r.tick_received == 0,
    {
        let mut message = MessageContainer::new(target, message);
        message.with_sent(tick);
        message
    }

    /// An envelope stamped as received on `tick` from `sender`.
    pub fn new_received(
        target: MessageTarget,
        message: NetworkMessageType,
        tick: u64,
        sender: u64,
    ) -> (r: Self)
        ensures
            r.target == target,
            r.message == message,
            r.sender == Some(sender),
            r.tick_sent == 0,
            r.tick_received == tick,
    {
        let mut message = MessageContainer::new(target, message);
        message.with_received(tick, sender);
        message
    }

    /// Stamp the envelope as received on `tick` from `sender`.
    pub fn with_received(&mut self, tick: u64, sender: u64)
        ensures
            *final(self) == (MessageContainer {
                tick_received: tick,
                sender: Some(sender),
                ..*old(self)
            }),
    {
        self.tick_received = tick;
        self.sender = Some(sender);
    }

    /// Stamp the envelope as sent on `tick`.
    pub fn with_sent(&mut self, tick: u64)
        ensures
            *final(self) == (MessageContainer { tick_sent: tick, ..*old(self) }),
    {
        self.tick_sent = tick;
    }
}

} // verus!
