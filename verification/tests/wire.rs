use artbabo::broker::{
    EventWorkPacket, EventWorkSendMessages, EventWorkSender, EventWorkServer, Frame, NetworkEvent,
    ReadStep,
};
use artbabo::codec::{decode_envelope, encode_envelope, DecodeError, NetworkPacket};
use artbabo::messages::ConnectionId;

#[test]
fn envelope_has_two_length_prefixed_parts() {
    let bytes = encode_envelope("ab", &vec![7, 8, 9]);
    assert_eq!(
        bytes,
        vec![2, 0, 0, 0, 0, 0, 0, 0, b'a', b'b', 3, 0, 0, 0, 0, 0, 0, 0, 7, 8, 9]
    );
}

#[test]
fn envelope_agrees_with_bincode() {
    for (kind, data) in [
        ("RoomState", vec![1u8, 2, 3, 4, 5]),
        ("", vec![]),
        ("GameActionRequest", vec![0u8; 300]),
        ("gr\u{f6}\u{df}e \u{2713}", vec![255u8]),
    ] {
        let ours = encode_envelope(kind, &data);
        let theirs = bincode::serialize(&(kind.to_string(), data.clone())).expect("serializes");
        assert_eq!(ours, theirs);
        let back: (String, Vec<u8>) = bincode::deserialize(&ours).expect("deserializes");
        assert_eq!(back, (kind.to_string(), data));
    }
}

#[test]
fn envelope_round_trip() {
    let data = vec![9u8, 8, 7, 6];
    let bytes = encode_envelope("StartGameRequest", &data);
    let packet = decode_envelope(&bytes).expect("decodes");
    assert_eq!(packet.kind, "StartGameRequest");
    assert_eq!(packet.data, data);
}

#[test]
fn envelope_ignores_trailing_bytes() {
    let mut bytes = encode_envelope("k", &vec![1]);
    bytes.extend_from_slice(&[5, 5, 5]);
    let packet = decode_envelope(&bytes).expect("decodes");
    assert_eq!(packet.kind, "k");
    assert_eq!(packet.data, vec![1]);
}

#[test]
fn short_input_is_unexpected_end() {
    assert_eq!(decode_envelope(&[]).err(), Some(DecodeError::UnexpectedEnd));
    assert_eq!(decode_envelope(&[1, 0, 0]).err(), Some(DecodeError::UnexpectedEnd));
    assert_eq!(
        decode_envelope(&[2, 0, 0, 0, 0, 0, 0, 0, b'a']).err(),
        Some(DecodeError::UnexpectedEnd)
    );
    assert_eq!(
        decode_envelope(&[1, 0, 0, 0, 0, 0, 0, 0, b'a']).err(),
        Some(DecodeError::UnexpectedEnd)
    );
    assert_eq!(
        decode_envelope(&[1, 0, 0, 0, 0, 0, 0, 0, b'a', 1, 0, 0, 0, 0, 0, 0, 0]).err(),
        Some(DecodeError::UnexpectedEnd)
    );
    let huge = [255u8, 255, 255, 255, 255, 255, 255, 255, 1, 2];
    assert_eq!(decode_envelope(&huge).err(), Some(DecodeError::UnexpectedEnd));
}

#[test]
fn tag_that_is_not_utf8_is_rejected() {
    let bytes = [2u8, 0, 0, 0, 0, 0, 0, 0, 0xc3, 0x28, 0, 0, 0, 0, 0, 0, 0, 0];
    assert_eq!(decode_envelope(&bytes).err(), Some(DecodeError::InvalidUtf8));
    let bytes = [1u8, 0, 0, 0, 0, 0, 0, 0, 0xff];
    assert_eq!(decode_envelope(&bytes).err(), Some(DecodeError::InvalidUtf8));
}

#[test]
fn decoding_agrees_with_bincode_on_failures() {
    let inputs: Vec<Vec<u8>> = vec![
        vec![],
        vec![1, 0, 0, 0, 0, 0, 0, 0, b'a'],
        vec![2, 0, 0, 0, 0, 0, 0, 0, 0xc3, 0x28, 0, 0, 0, 0, 0, 0, 0, 0],
        vec![1, 0, 0, 0, 0, 0, 0, 0, b'a', 0, 0, 0, 0, 0, 0, 0, 0],
    ];
    for input in inputs {
        let theirs: Result<(String, Vec<u8>), _> = bincode::deserialize(&input);
        let ours = decode_envelope(&input);
        assert_eq!(ours.is_ok(), theirs.is_ok());
    }
}

#[test]
fn packets_carry_the_envelope() {
    let payload = vec![1u8, 2];
    let p = EventWorkSender::from_message_to_packet(5, false, "RoomState", &payload);
    assert_eq!(p.id, 5);
    assert!(!p.broadcast);
    assert_eq!(p.serialized_packet, encode_envelope("RoomState", &payload));
    let sender = EventWorkSender {
        packet_input: NetworkPacket { kind: "x".to_string(), data: vec![4, 2] },
        connection_id: 3,
    };
    assert_eq!(sender.get_network_data(), &vec![4u8, 2]);
    let p = sender.send_message(8, "GameEndInfo", &payload);
    assert_eq!((p.id, p.broadcast), (8, false));
    assert_eq!(p.serialized_packet, encode_envelope("GameEndInfo", &payload));
    let p = sender.broadcast("GameEndInfo", &payload);
    assert_eq!((p.id, p.broadcast), (0, true));
    let server = EventWorkServer::default();
    let p = server.send_message(2, "RoundEndInfo", &payload);
    assert_eq!((p.id, p.broadcast), (2, false));
    let p = server.broadcast("RoundEndInfo", &payload);
    assert_eq!((p.id, p.broadcast), (0, true));
    assert_eq!(p.serialized_packet, encode_envelope("RoundEndInfo", &payload));
}

#[test]
fn connections_get_rising_ids() {
    let mut server = EventWorkServer::default();
    let (a, ea) = server.handle_new_connection();
    let (b, eb) = server.handle_new_connection();
    let (c, _) = server.handle_new_connection();
    assert_eq!((a, b, c), (0, 1, 2));
    assert_eq!(ea, NetworkEvent::Connected(ConnectionId { id: 0 }));
    assert_eq!(eb, NetworkEvent::Connected(ConnectionId { id: 1 }));
    server.on_network_event(&NetworkEvent::Disconnected(ConnectionId { id: 1 }));
    let (d, _) = server.handle_new_connection();
    assert_eq!(d, 3);
}

#[test]
fn removal_of_a_connection_is_idempotent() {
    let mut server = EventWorkServer::default();
    server.handle_new_connection();
    server.handle_new_connection();
    let gone = EventWorkServer::connection_closed(0);
    assert_eq!(gone, NetworkEvent::Disconnected(ConnectionId { id: 0 }));
    server.on_network_event(&gone);
    server.on_network_event(&gone);
    server.on_network_event(&NetworkEvent::Connected(ConnectionId { id: 0 }));
    let all = EventWorkPacket { id: 0, broadcast: true, serialized_packet: vec![] };
    assert_eq!(server.recipients(&all), Ok(vec![1]));
}

#[test]
fn recipients_of_a_packet() {
    let mut server = EventWorkServer::default();
    for _ in 0..4 {
        server.handle_new_connection();
    }
    server.on_network_event(&NetworkEvent::Disconnected(ConnectionId { id: 2 }));
    let one = EventWorkPacket { id: 3, broadcast: false, serialized_packet: vec![1] };
    assert_eq!(server.recipients(&one), Ok(vec![3]));
    let gone = EventWorkPacket { id: 2, broadcast: false, serialized_packet: vec![1] };
    assert_eq!(
        server.recipients(&gone),
        Err("Failed to find connection with id: 2".to_string())
    );
    let never = EventWorkPacket { id: 77, broadcast: false, serialized_packet: vec![1] };
    assert_eq!(
        server.recipients(&never),
        Err("Failed to find connection with id: 77".to_string())
    );
    let all = EventWorkPacket { id: 0, broadcast: true, serialized_packet: vec![1] };
    let mut ids = server.recipients(&all).expect("broadcast");
    ids.sort();
    assert_eq!(ids, vec![0, 1, 3]);
}

#[test]
fn broadcast_to_nobody_is_empty() {
    let server = EventWorkServer::default();
    let all = EventWorkPacket { id: 0, broadcast: true, serialized_packet: vec![] };
    assert_eq!(server.recipients(&all), Ok(vec![]));
}

#[test]
fn registration_is_idempotent() {
    let mut server = EventWorkServer::default();
    assert!(!server.is_registered("StartGameRequest"));
    server.register_message("StartGameRequest");
    server.register_message("StartGameRequest");
    server.register_message("GameActionRequest");
    assert!(server.is_registered("StartGameRequest"));
    assert!(server.is_registered("GameActionRequest"));
    assert!(!server.is_registered("startgamerequest"));
}

#[test]
fn read_loop_dispatches_known_kinds_and_closes_otherwise() {
    let mut server = EventWorkServer::default();
    server.register_message("StartGameRequest");
    let good = encode_envelope("StartGameRequest", &vec![1, 0, 0, 0]);
    match server.read_step(6, Frame::Binary(good)) {
        ReadStep::Dispatch(sender) => {
            assert_eq!(sender.connection_id, 6);
            assert_eq!(sender.packet_input.kind, "StartGameRequest");
            assert_eq!(sender.packet_input.data, vec![1, 0, 0, 0]);
        }
        ReadStep::Close => panic!("a known kind is dispatched"),
    }
    let unknown = encode_envelope("Nope", &vec![]);
    assert!(matches!(server.read_step(6, Frame::Binary(unknown)), ReadStep::Close));
    assert!(matches!(server.read_step(6, Frame::Binary(vec![1, 2, 3])), ReadStep::Close));
    assert!(matches!(server.read_step(6, Frame::Other), ReadStep::Close));
    assert!(matches!(server.read_step(6, Frame::Failed), ReadStep::Close));
}
