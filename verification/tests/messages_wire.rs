use lobby_core::maps::MarkerType;
use lobby_core::messages::{
    ErrorMessageTypes, GameState, MessageContainer, MessageTarget, NetworkMessageType,
    TextDataWrapper,
};

#[test]
fn payload_wire_tags_are_stable() {
    let text = || TextDataWrapper { message: String::from("hi") };
    assert_eq!(
        NetworkMessageType::GameState(GameState::empty()).wire_tag(),
        "GAME_STATE"
    );
    assert_eq!(NetworkMessageType::SimpleTextMessage(text()).wire_tag(), "SIMPLE_TEXT_MESSAGE");
    assert_eq!(
        NetworkMessageType::MessageError(ErrorMessageTypes::MalformedPayload).wire_tag(),
        "MESSAGE_ERROR"
    );
    assert_eq!(
        NetworkMessageType::SuccessFullyJoinedLobby(text()).wire_tag(),
        "SUCCESSFULLY_JOINED_LOBBY"
    );
}

#[test]
fn target_wire_tags_are_stable() {
    assert_eq!(MessageTarget::Team.wire_tag(), "TEAM");
    assert_eq!(MessageTarget::ServerOnly.wire_tag(), "SERVER_ONLY");
    assert_eq!(MessageTarget::AllInLobby.wire_tag(), "ALL_IN_LOBBY");
    assert_eq!(MessageTarget::Client(9).wire_tag(), "CLIENT");
    assert_eq!(MessageTarget::ToLobbyDirectly.wire_tag(), "TO_LOBBY_DIRECTLY");
}

#[test]
fn every_target_round_trips_through_the_wire() {
    let targets = vec![
        MessageTarget::Team,
        MessageTarget::ServerOnly,
        MessageTarget::AllInLobby,
        MessageTarget::Client(42),
        MessageTarget::ToLobbyDirectly,
    ];
    for t in targets {
        let tag = String::from(t.wire_tag());
        let back = MessageTarget::from_wire(&tag, t.client_field());
        assert_eq!(back, Some(t));
    }
}

#[test]
fn unknown_tags_and_missing_recipients_are_rejected() {
    assert_eq!(MessageTarget::from_wire(&String::from("NOWHERE"), None), None);
    assert_eq!(MessageTarget::from_wire(&String::from("CLIENT"), None), None);
    assert_eq!(
        MessageTarget::from_wire(&String::from("CLIENT"), Some(5)),
        Some(MessageTarget::Client(5))
    );
}

#[test]
fn envelopes_carry_their_tick_stamps() {
    let sent = MessageContainer::new_sent(
        MessageTarget::AllInLobby,
        NetworkMessageType::GameState(GameState::empty()),
        12,
    );
    assert_eq!(sent.tick_sent, 12);
    assert_eq!(sent.tick_received, 0);
    assert_eq!(sent.sender, None);

    let received = MessageContainer::new_received(
        MessageTarget::ServerOnly,
        NetworkMessageType::GameState(GameState::empty()),
        30,
        7,
    );
    assert_eq!(received.tick_received, 30);
    assert_eq!(received.tick_sent, 0);
    assert_eq!(received.sender, Some(7));

    let mut plain = MessageContainer::new(
        MessageTarget::ServerOnly,
        NetworkMessageType::GameState(GameState::empty()),
    );
    plain.with_sent(3);
    plain.with_received(4, 9);
    assert_eq!(plain.tick_sent, 3);
    assert_eq!(plain.tick_received, 4);
    assert_eq!(plain.sender, Some(9));
}

#[test]
fn default_payload_is_an_empty_snapshot() {
    match NetworkMessageType::default() {
        NetworkMessageType::GameState(g) => {
            assert_eq!(g.tick, 0);
            assert!(g.player_states.is_empty());
            assert!(g.projectile_states.is_empty());
        },
        _ => panic!("the default payload kind changed"),
    }
}

#[test]
fn default_marker_is_the_first_spawn() {
    assert_eq!(MarkerType::default(), MarkerType::Spawn { spawn_number: 0 });
}
