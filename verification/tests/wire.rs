use bytes::{BufMut, Bytes, BytesMut};
use fut::domain::{SessionId, TerminalSize};
use fut::protocol::remote::{
    check_handshake, lists, Capabilities, Capability, EndpointError, RemoteHello, RemoteWelcome,
    CODEC, GENERATION, MAX_CAPABILITIES, MAX_NAME_BYTES, MAX_VERSION_BYTES,
};
use fut::protocol::{
    codec, decode_frame, encode_frame, validate_payload_len, AcknowledgedCommand, ClientMessage,
    ClientMode, ClientPresenceSnapshot, FrameError, ServerMessage, SessionPresence, MAX_FRAME_LEN,
};
use serde_json::Value;
use tokio_util::codec::{Decoder, Encoder};

fn ping(request_id: Option<&str>) -> Vec<u8> {
    let text = match request_id {
        None => String::from("{\"message\":{\"type\":\"ping\"}}"),
        Some(id) => format!("{{\"request_id\":\"{id}\",\"message\":{{\"type\":\"ping\"}}}}"),
    };
    let value: Value = serde_json::from_str(&text).unwrap();
    rmp_serde::to_vec_named(&value).unwrap()
}

const REQUEST: &str = "6ba7b810-9dad-41d1-80b4-00c04fd430c8";

#[test]
fn codec_handles_fragmented_and_multiple_frames() {
    let first = ping(None);
    let second = ping(Some(REQUEST));
    let mut wire = BytesMut::new();
    wire.put_u32(first.len() as u32);
    wire.extend_from_slice(&first);
    wire.put_u32(second.len() as u32);
    wire.extend_from_slice(&second);

    let mut decoder = codec();
    let mut incoming = wire.split_to(3);
    assert!(decoder.decode(&mut incoming).unwrap().is_none());
    incoming.extend_from_slice(&wire);
    let decoded_first = decoder.decode(&mut incoming).unwrap().unwrap();
    let decoded_second = decoder.decode(&mut incoming).unwrap().unwrap();
    assert_eq!(&decoded_first[..], &first[..]);
    assert_eq!(&decoded_second[..], &second[..]);
    assert!(decoder.decode(&mut incoming).unwrap().is_none());
}

#[test]
fn codec_accepts_exact_limit_and_rejects_oversized_header() {
    let mut exact = BytesMut::with_capacity(4 + MAX_FRAME_LEN);
    exact.put_u32(MAX_FRAME_LEN as u32);
    exact.resize(4 + MAX_FRAME_LEN, b' ');
    let decoded = codec().decode(&mut exact).unwrap().unwrap();
    assert_eq!(decoded.len(), MAX_FRAME_LEN);

    let mut oversized = BytesMut::new();
    oversized.put_u32((MAX_FRAME_LEN + 1) as u32);
    assert!(codec().decode(&mut oversized).is_err());
}

#[test]
fn codec_encoder_and_payload_codec_round_trip() {
    let payload = ping(Some(REQUEST));
    let mut wire = BytesMut::new();
    codec()
        .encode(Bytes::from(payload.clone()), &mut wire)
        .unwrap();
    let decoded = codec().decode(&mut wire).unwrap().unwrap();
    assert_eq!(&decoded[..], &payload[..]);
}

#[test]
fn codec_waits_for_incomplete_headers_and_payloads() {
    let mut short_header = BytesMut::from(&[0, 0][..]);
    assert!(codec().decode(&mut short_header).unwrap().is_none());

    let mut short_payload = BytesMut::from(&[0, 0, 0, 2, b'{'][..]);
    assert!(codec().decode(&mut short_payload).unwrap().is_none());
}

#[test]
fn frames_carry_their_length_and_read_back() {
    let frame = encode_frame(b"payload").unwrap();
    assert_eq!(&frame[..4], &[0, 0, 0, 7]);
    assert_eq!(&frame[4..], b"payload");

    let mut wire = frame.clone();
    wire.extend_from_slice(b"rest");
    let (payload, rest) = decode_frame(&wire).unwrap().unwrap();
    assert_eq!(payload, b"payload");
    assert_eq!(rest, b"rest");

    assert_eq!(decode_frame(&frame[..3]), Ok(None));
    assert_eq!(decode_frame(&frame[..10]), Ok(None));
    assert!(decode_frame(&[255, 255, 255, 255]).is_err());
}

#[test]
fn payload_lengths_are_bounded() {
    assert_eq!(validate_payload_len(0), Err(FrameError::Empty));
    assert_eq!(validate_payload_len(1), Ok(()));
    assert_eq!(validate_payload_len(MAX_FRAME_LEN), Ok(()));
    assert_eq!(
        validate_payload_len(MAX_FRAME_LEN + 1),
        Err(FrameError::TooLarge {
            actual: MAX_FRAME_LEN + 1,
            maximum: MAX_FRAME_LEN
        })
    );
    assert_eq!(encode_frame(&[]), Ok(vec![0, 0, 0, 0]));
    assert!(matches!(
        encode_frame(&vec![0; MAX_FRAME_LEN + 1]),
        Err(FrameError::TooLarge { .. })
    ));
}

#[test]
fn presence_counts_by_session() {
    let presence = ClientPresenceSnapshot {
        revision: 4,
        sessions: vec![
            SessionPresence {
                session_id: SessionId(1),
                clients: 3,
            },
            SessionPresence {
                session_id: SessionId(2),
                clients: 1,
            },
        ],
    };
    assert_eq!(presence.client_count(SessionId(1)), 3);
    assert_eq!(presence.client_count(SessionId(2)), 1);
    assert_eq!(presence.client_count(SessionId(3)), 0);
    assert_eq!(ClientPresenceSnapshot::default().sessions.len(), 0);
}

#[test]
fn offers_validate_bounds_duplicates_and_diagnostic_versions() {
    let hello = RemoteHello::new(ClientMode::Control, "0.1.0");
    for version in [
        "",
        "0.1.0\n",
        "\x1b[2J",
        "version with spaces",
        "v\u{202e}1",
        &"x".repeat(MAX_VERSION_BYTES + 1),
    ] {
        let mut bad = hello.clone();
        bad.client_version = version.into();
        assert_eq!(
            bad.negotiate(Capabilities::all(), true),
            Err(EndpointError::InvalidHandshake)
        );
    }
    for name in [
        "",
        "invalid_name",
        "CAP",
        "\x1b",
        &"x".repeat(MAX_NAME_BYTES + 1),
    ] {
        let mut bad = hello.clone();
        bad.optional = vec![name.into()];
        assert_eq!(
            bad.negotiate(Capabilities::all(), true),
            Err(EndpointError::InvalidHandshake)
        );
    }
    let mut bad = hello.clone();
    bad.optional.push("metadata.v1".into());
    assert_eq!(
        bad.negotiate(Capabilities::all(), true),
        Err(EndpointError::InvalidHandshake)
    );
    bad.optional = (0..MAX_CAPABILITIES)
        .map(|i| format!("future-{i}"))
        .collect();
    assert_eq!(
        bad.negotiate(Capabilities::all(), true),
        Err(EndpointError::InvalidHandshake)
    );
    bad.optional.pop();
    assert!(bad.negotiate(Capabilities::all(), true).is_ok());
    bad.required.push("future-required.v1".into());
    bad.optional.clear();
    assert_eq!(
        bad.negotiate(Capabilities::all(), true),
        Err(EndpointError::MissingRequiredCapability)
    );
    let mut bad = RemoteHello::new(ClientMode::Control, "0.1.0");
    bad.optional.push(Capability::Interactive.name().into());
    assert_eq!(
        bad.negotiate(Capabilities::all(), true),
        Err(EndpointError::InvalidHandshake)
    );
    assert!(
        Capabilities::all().allows_server(&ServerMessage::CommandCompleted {
            command: AcknowledgedCommand::RenameTarget,
        })
    );
}

#[test]
fn capability_selection_is_an_exact_known_subset_and_optional_features_are_independent() {
    let hello = RemoteHello::new(ClientMode::Control, "0.1.0");
    let mut welcome = RemoteWelcome {
        generation: GENERATION,
        codec: CODEC.into(),
        server_version: "0.999.0".into(),
        capabilities: hello.required.clone(),
        selected: None,
        extension_catalog: None,
    };
    let caps = hello.accept(&welcome).unwrap();
    assert!(caps.allows_client(&ClientMessage::WatchResources));
    assert!(!caps.allows_client(&ClientMessage::Ping));
    assert!(!caps.allows_client(&ClientMessage::GetExtensionCatalog));
    assert!(!caps.allows_server(&ServerMessage::AlertsChanged));
    welcome.capabilities.push("health.v1".into());
    let caps = hello.accept(&welcome).unwrap();
    assert!(caps.allows_client(&ClientMessage::Ping));
    assert!(!caps.allows_client(&ClientMessage::GetExtensionCatalog));
    assert!(!caps.allows_client(&ClientMessage::Shutdown));
    assert!(!Capabilities::all().allows_client(&ClientMessage::Shutdown));
    assert!(!Capabilities::all().allows_client(&ClientMessage::ReloadExtensions));
    welcome.capabilities.push("interactive.v1".into()); // Known but not offered.
    assert_eq!(hello.accept(&welcome), Err(EndpointError::InvalidHandshake));
    welcome.capabilities.pop();
    welcome.capabilities.push("extension-catalog.v1".into()); // Missing its payload.
    assert_eq!(hello.accept(&welcome), Err(EndpointError::InvalidHandshake));
}

#[test]
fn negotiation_names_each_disagreement() {
    let supported = Capabilities::all();
    let mut hello = RemoteHello::new(ClientMode::Control, "0.1.0");
    let caps = hello.negotiate(supported, true).unwrap();
    assert!(caps.contains(Capability::Metadata));
    assert!(lists(&caps.names(), "metadata.v1"));
    hello.generation = GENERATION + 1;
    assert_eq!(
        hello.negotiate(supported, true),
        Err(EndpointError::IncompatibleGeneration {
            client: GENERATION + 1,
            server: GENERATION
        })
    );
    hello.generation = GENERATION;
    hello.codec = "json".into();
    assert_eq!(
        hello.negotiate(supported, true),
        Err(EndpointError::UnsupportedCodec)
    );
    let interactive = RemoteHello::new(
        ClientMode::Interactive {
            size: TerminalSize {
                columns: 80,
                rows: 24,
            },
            selector: None,
        },
        "0.1.0",
    );
    assert!(interactive.negotiate(supported, true).is_ok());
    assert_eq!(
        interactive.negotiate(supported, false),
        Err(EndpointError::InvalidHandshake)
    );
}

#[test]
fn handshakes_are_read_to_their_end() {
    assert_eq!(check_handshake(12, Some(12)), Ok(()));
    for (length, consumed) in [
        (0, Some(0)),
        (12, Some(11)),
        (12, None),
        (MAX_FRAME_LEN + 1, Some(8 * 1024 * 1024 + 1)),
    ] {
        assert_eq!(
            check_handshake(length, consumed),
            Err(EndpointError::InvalidHandshake)
        );
    }
}

#[test]
fn an_ungiven_capability_grants_nothing() {
    let none = Capabilities::default();
    assert!(none.names().is_empty());
    assert!(!none.allows_client(&ClientMessage::Ping));
    assert!(!none.contains(Capability::Health));
}

#[test]
fn refused_frames_and_handshakes_are_put_into_words() {
    assert_eq!(FrameError::Empty.message(), "frame payload is empty");
    let large = FrameError::TooLarge {
        actual: 9,
        maximum: 8,
    };
    assert_eq!(large.message(), "frame payload is 9 bytes; maximum is 8");
    for (error, words) in [
        (
            EndpointError::IncompatibleGeneration {
                client: 2,
                server: 1,
            },
            "incompatible remote generation: client 2, server 1",
        ),
        (EndpointError::UnsupportedCodec, "unsupported remote codec"),
        (
            EndpointError::MissingRequiredCapability,
            "remote endpoint is missing a required capability",
        ),
        (EndpointError::InvalidHandshake, "invalid remote handshake"),
        (
            EndpointError::MethodNotNegotiated,
            "remote method was not negotiated",
        ),
    ] {
        assert_eq!(error.message(), words);
    }
}
