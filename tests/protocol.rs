use westiny::codec::{decode, encode, DecodeError};
use westiny::network::{
    ClientInitialData, EntityState, Error, ErrorKind, Input, NetworkId, PacketType, INPUT_FORWARD,
    INPUT_SHOOT,
};

fn sample_packets() -> Vec<PacketType> {
    vec![
        PacketType::ConnectionRequest { player_name: "Foo".to_string() },
        PacketType::ConnectionRequest { player_name: String::new() },
        PacketType::ConnectionRequest { player_name: "Narancsos_Feco árvíztűrő ✓".to_string() },
        PacketType::ConnectionResponse(Ok(ClientInitialData { player_network_id: 1 })),
        PacketType::ConnectionResponse(Ok(ClientInitialData { player_network_id: u64::MAX })),
        PacketType::ConnectionResponse(Err(Error::new(ErrorKind::AlreadyConnected))),
        PacketType::ConnectionResponse(Err(Error::new(ErrorKind::Other))),
        PacketType::InputState {
            input: Input {
                flags: INPUT_FORWARD | INPUT_SHOOT,
                cursor_x_bits: 12.5f32.to_bits(),
                cursor_y_bits: (-3.0f32).to_bits(),
            },
        },
        PacketType::EntityStateUpdate(EntityState {
            network_id: NetworkId { id: 42 },
            position_x_bits: 100.0f32.to_bits(),
            position_y_bits: 200.5f32.to_bits(),
            rotation_bits: 3.5f32.to_bits(),
        }),
    ]
}

#[test]
fn round_trip_every_variant() {
    for p in sample_packets() {
        let bytes = encode(&p);
        assert_eq!(decode(&bytes), Ok(p));
    }
}

#[test]
fn connection_request_layout() {
    let bytes = encode(&PacketType::ConnectionRequest { player_name: "Foo".to_string() });
    assert_eq!(bytes, vec![0, 0, 0, 0, 3, 0, 0, 0, 0, 0, 0, 0, b'F', b'o', b'o']);
}

#[test]
fn layout_matches_bincode() {
    let request = encode(&PacketType::ConnectionRequest { player_name: "Foo".to_string() });
    assert_eq!(request, bincode::serialize(&(0u32, "Foo".to_string())).unwrap());

    let accepted =
        encode(&PacketType::ConnectionResponse(Ok(ClientInitialData { player_network_id: 1 })));
    assert_eq!(accepted, bincode::serialize(&(1u32, 0u32, 1u64)).unwrap());

    let refused = encode(&PacketType::ConnectionResponse(Err(Error::new(ErrorKind::Other))));
    assert_eq!(refused, bincode::serialize(&(1u32, 1u32, 1u32)).unwrap());

    let input = encode(&PacketType::InputState {
        input: Input { flags: 5, cursor_x_bits: 1.5f32.to_bits(), cursor_y_bits: 2.5f32.to_bits() },
    });
    assert_eq!(input, bincode::serialize(&(2u32, 5u8, 1.5f32, 2.5f32)).unwrap());

    let update = encode(&PacketType::EntityStateUpdate(EntityState {
        network_id: NetworkId { id: 7 },
        position_x_bits: 1.0f32.to_bits(),
        position_y_bits: (-2.0f32).to_bits(),
        rotation_bits: 0.25f32.to_bits(),
    }));
    assert_eq!(update, bincode::serialize(&(3u32, 7u64, 1.0f32, -2.0f32, 0.25f32)).unwrap());
}

#[test]
fn every_truncation_is_rejected() {
    for p in sample_packets() {
        let bytes = encode(&p);
        for k in 0..bytes.len() {
            assert_eq!(decode(&bytes[..k]), Err(DecodeError));
        }
    }
}

#[test]
fn trailing_byte_is_rejected() {
    for p in sample_packets() {
        let mut bytes = encode(&p);
        bytes.push(0);
        assert_eq!(decode(&bytes), Err(DecodeError));
    }
}

#[test]
fn unknown_tag_is_rejected() {
    assert_eq!(decode(&[4, 0, 0, 0]), Err(DecodeError));
    assert_eq!(decode(&[0, 0, 0, 1, 0, 0, 0, 0, 0, 0, 0, 0]), Err(DecodeError));
}

#[test]
fn empty_buffer_is_rejected() {
    assert_eq!(decode(&[]), Err(DecodeError));
}

#[test]
fn invalid_utf8_name_is_rejected() {
    let bytes = vec![0, 0, 0, 0, 2, 0, 0, 0, 0, 0, 0, 0, 0xc3, 0x28];
    assert_eq!(decode(&bytes), Err(DecodeError));
}

#[test]
fn length_field_must_match() {
    let bytes = vec![0, 0, 0, 0, 4, 0, 0, 0, 0, 0, 0, 0, b'F', b'o', b'o'];
    assert_eq!(decode(&bytes), Err(DecodeError));
}

#[test]
fn unknown_error_kind_is_rejected() {
    assert_eq!(decode(&[1, 0, 0, 0, 1, 0, 0, 0, 2, 0, 0, 0]), Err(DecodeError));
    assert_eq!(decode(&[1, 0, 0, 0, 2, 0, 0, 0, 0, 0, 0, 0]), Err(DecodeError));
}

#[test]
fn decodes_handwritten_response() {
    let bytes = vec![1, 0, 0, 0, 0, 0, 0, 0, 0x2a, 0x01, 0, 0, 0, 0, 0, 0];
    assert_eq!(
        decode(&bytes),
        Ok(PacketType::ConnectionResponse(Ok(ClientInitialData { player_network_id: 298 })))
    );
}

#[test]
fn error_messages() {
    assert_eq!(ErrorKind::AlreadyConnected.message(), "Client already connected");
    assert_eq!(ErrorKind::Other.message(), "Other error");
    assert_eq!(
        Error::new(ErrorKind::AlreadyConnected).message(),
        "Westiny network error: Client already connected"
    );
    assert_eq!(Error::new(ErrorKind::Other).message(), "Westiny network error: Other error");
    assert_eq!(Error::new(ErrorKind::Other).error_kind(), ErrorKind::Other);
}

#[test]
fn clone_keeps_packet() {
    for p in sample_packets() {
        assert_eq!(p.clone(), p);
    }
}
