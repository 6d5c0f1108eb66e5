use westiny::codec::{decode, encode};
use westiny::handshake::{
    input_state_message, ClientConnectSystem, ClientEvent, HandshakeState, RETRY_INTERVAL_MS,
};
use westiny::identity::NetworkIdSupplier;
use westiny::network::{ClientInitialData, Error, ErrorKind, Input, PacketType};
use westiny::registry::ClientRegistry;
use westiny::server::{handle_client_message, ServerEvent};
use westiny::transport::{Address, Delivery};

fn server() -> Address {
    Address { ip: 0xffff_0a00_0001, port: 4557 }
}

fn client_addr() -> Address {
    Address { ip: 0xffff_0a00_0002, port: 4558 }
}

fn request_bytes(name: &str) -> Vec<u8> {
    encode(&PacketType::ConnectionRequest { player_name: name.to_string() })
}

#[test]
fn request_is_resent_until_answered() {
    let mut c = ClientConnectSystem::new(server(), "Foo".to_string());
    assert!(c.on_tick(0).is_none());
    assert!(c.on_tick(RETRY_INTERVAL_MS - 1).is_none());
    let first = c.on_tick(RETRY_INTERVAL_MS).unwrap();
    assert_eq!(first.to, server());
    assert_eq!(first.delivery, Delivery::ReliableOrdered);
    assert_eq!(first.payload, request_bytes("Foo"));
    assert_eq!(c.state, HandshakeState::AwaitingResponse);
    assert!(c.on_tick(RETRY_INTERVAL_MS + 500).is_none());
    let second = c.on_tick(2 * RETRY_INTERVAL_MS).unwrap();
    assert_eq!(second.payload, first.payload);
    assert_eq!(second.to, first.to);

    let response =
        encode(&PacketType::ConnectionResponse(Ok(ClientInitialData { player_network_id: 7 })));
    assert_eq!(
        c.on_message(server(), &response),
        ClientEvent::Connection(Ok(ClientInitialData { player_network_id: 7 }))
    );
    assert_eq!(c.state, HandshakeState::Connected { player_network_id: 7 });
    assert!(c.on_tick(3 * RETRY_INTERVAL_MS).is_none());
    assert!(c.on_tick(100 * RETRY_INTERVAL_MS).is_none());
    // A later response is no longer taken as the answer.
    assert_eq!(c.on_message(server(), &response), ClientEvent::Ignored);
    assert_eq!(c.state, HandshakeState::Connected { player_network_id: 7 });
}

#[test]
fn time_going_back_sends_nothing() {
    let mut c = ClientConnectSystem::new(server(), "Foo".to_string());
    assert!(c.on_tick(5000).is_some());
    assert!(c.on_tick(10).is_none());
    assert_eq!(c.last_run_ms, 5000);
}

#[test]
fn rejection_ends_the_handshake() {
    let mut c = ClientConnectSystem::new(server(), "Foo".to_string());
    c.on_tick(RETRY_INTERVAL_MS).unwrap();
    let refused =
        encode(&PacketType::ConnectionResponse(Err(Error::new(ErrorKind::AlreadyConnected))));
    assert_eq!(
        c.on_message(server(), &refused),
        ClientEvent::Connection(Err(Error::new(ErrorKind::AlreadyConnected)))
    );
    assert_eq!(
        c.state,
        HandshakeState::Rejected { error: Error::new(ErrorKind::AlreadyConnected) }
    );
    assert!(c.on_tick(10 * RETRY_INTERVAL_MS).is_none());
}

#[test]
fn messages_from_other_addresses_are_ignored() {
    let mut c = ClientConnectSystem::new(server(), "Foo".to_string());
    let response =
        encode(&PacketType::ConnectionResponse(Ok(ClientInitialData { player_network_id: 1 })));
    assert_eq!(c.on_message(client_addr(), &response), ClientEvent::UnexpectedSender);
    assert_eq!(c.state, HandshakeState::Disconnected);
}

#[test]
fn malformed_message_changes_nothing() {
    let mut c = ClientConnectSystem::new(server(), "Foo".to_string());
    c.on_tick(RETRY_INTERVAL_MS).unwrap();
    let mut response =
        encode(&PacketType::ConnectionResponse(Ok(ClientInitialData { player_network_id: 1 })));
    response.truncate(10);
    assert_eq!(c.on_message(server(), &response), ClientEvent::Malformed);
    assert_eq!(c.state, HandshakeState::AwaitingResponse);
    assert_eq!(c.last_run_ms, RETRY_INTERVAL_MS);
    // The retry timer is not reset.
    assert!(c.on_tick(2 * RETRY_INTERVAL_MS).is_some());
}

#[test]
fn other_packets_are_ignored_during_handshake() {
    let mut c = ClientConnectSystem::new(server(), "Foo".to_string());
    assert_eq!(c.on_message(server(), &request_bytes("x")), ClientEvent::Ignored);
    assert_eq!(c.state, HandshakeState::Disconnected);
}

#[test]
fn input_is_sent_unreliably() {
    let input = Input { flags: 9, cursor_x_bits: 1.0f32.to_bits(), cursor_y_bits: 0 };
    let o = input_state_message(server(), input);
    assert_eq!(o.to, server());
    assert_eq!(o.delivery, Delivery::UnreliableSequenced);
    assert_eq!(decode(&o.payload), Ok(PacketType::InputState { input }));
}

#[test]
fn end_to_end_connection() {
    let mut registry = ClientRegistry::new();
    let mut ids = NetworkIdSupplier::new();
    let mut client = ClientConnectSystem::new(server(), "Foo".to_string());

    let request = client.on_tick(RETRY_INTERVAL_MS).unwrap();
    assert_eq!(decode(&request.payload), Ok(PacketType::ConnectionRequest { player_name: "Foo".to_string() }));
    let reply = match handle_client_message(&mut registry, &mut ids, client_addr(), &request.payload) {
        ServerEvent::Reply(o) => o,
        other => panic!("expected a reply, got {:?}", other),
    };
    assert_eq!(reply.to, client_addr());
    assert_eq!(
        decode(&reply.payload),
        Ok(PacketType::ConnectionResponse(Ok(ClientInitialData { player_network_id: 1 })))
    );
    assert_eq!(
        client.on_message(server(), &reply.payload),
        ClientEvent::Connection(Ok(ClientInitialData { player_network_id: 1 }))
    );
    assert_eq!(client.state, HandshakeState::Connected { player_network_id: 1 });

    // A second client behind the same address is refused.
    let mut second = ClientConnectSystem::new(server(), "Foo".to_string());
    let request = second.on_tick(RETRY_INTERVAL_MS).unwrap();
    let reply = match handle_client_message(&mut registry, &mut ids, client_addr(), &request.payload) {
        ServerEvent::Reply(o) => o,
        other => panic!("expected a reply, got {:?}", other),
    };
    assert_eq!(
        second.on_message(server(), &reply.payload),
        ClientEvent::Connection(Err(Error::new(ErrorKind::AlreadyConnected)))
    );
    assert_eq!(registry.client_count(), 1);
}
