use rust_game_networking::channel::ChannelErrorLevel;
use rust_game_networking::client::{
    client_state_from_netcode_state, Client, ClientState, ConnectOutcome, TickAction,
};
use rust_game_networking::config::{ChannelType, ClientServerConfig};
use rust_game_networking::connection::{Connection, ConnectionErrorLevel};
use rust_game_networking::message::NetworkMessage;
use rust_game_networking::network_simulator::NetworkSimulatorConfig;
use rust_game_networking::server::Server;
use rust_game_networking::BindingsLogLevel;

/// A message of one byte. The byte 0xff does not go on the wire.
#[derive(Debug, Clone, Copy, PartialEq, Eq)]
struct Byte(u8);

impl NetworkMessage for Byte {
    type Error = ();

    fn serialize(&self, writer: &mut Vec<u8>) -> Result<(), Self::Error> {
        if self.0 == 0xff {
            return Err(());
        }
        writer.push(self.0);
        Ok(())
    }

    fn deserialize(reader: &[u8]) -> Result<(Self, usize), Self::Error> {
        match reader.first() {
            Some(0xff) | None => Err(()),
            Some(byte) => Ok((Byte(*byte), 1)),
        }
    }
}

const CONNECTED: i32 = 3;

fn small_config(channels: usize) -> ClientServerConfig {
    let mut config = ClientServerConfig::new(channels);
    for channel in config.connection.channels.iter_mut() {
        channel.sent_packet_buffer_size = 16;
        channel.message_send_queue_size = 16;
        channel.message_receive_queue_size = 16;
        channel.max_messages_per_packet = 8;
    }
    config
}

fn connected_client(config: ClientServerConfig) -> Client<Byte> {
    let mut client = Client::new(config, 0);
    client.insecure_connect(1234, ConnectOutcome::Started(40001));
    assert!(!client.is_connected());
    assert!(!client.is_disconnected());
    assert!(!client.poll_state(CONNECTED));
    assert!(client.is_connected());
    client
}

#[test]
fn transport_states_map_to_client_states() {
    assert_eq!(ClientState::try_from_netcode_client_state_i32(3), Some(ClientState::Connected));
    assert_eq!(ClientState::try_from_netcode_client_state_i32(2), Some(ClientState::Connecting));
    assert_eq!(ClientState::try_from_netcode_client_state_i32(1), Some(ClientState::Connecting));
    assert_eq!(ClientState::try_from_netcode_client_state_i32(0), Some(ClientState::Disconnected));
    assert_eq!(ClientState::try_from_netcode_client_state_i32(-1), Some(ClientState::Error));
    assert_eq!(ClientState::try_from_netcode_client_state_i32(-6), Some(ClientState::Error));
    assert_eq!(ClientState::try_from_netcode_client_state_i32(-7), None);
    assert_eq!(ClientState::try_from_netcode_client_state_i32(4), None);

    assert_eq!(client_state_from_netcode_state(-100), ClientState::Error);
    assert_eq!(client_state_from_netcode_state(-1), ClientState::Error);
    assert_eq!(client_state_from_netcode_state(0), ClientState::Disconnected);
    assert_eq!(client_state_from_netcode_state(1), ClientState::Connecting);
    assert_eq!(client_state_from_netcode_state(2), ClientState::Connecting);
    assert_eq!(client_state_from_netcode_state(3), ClientState::Connected);
    assert_eq!(client_state_from_netcode_state(100), ClientState::Connected);
}

#[test]
fn log_levels_have_their_numbers() {
    assert_eq!(BindingsLogLevel::Off.to_raw(), 0);
    assert_eq!(BindingsLogLevel::Error.to_raw(), 1);
    assert_eq!(BindingsLogLevel::Info.to_raw(), 2);
    assert_eq!(BindingsLogLevel::Debug.to_raw(), 3);
}

#[test]
fn default_client_server_configuration() {
    let config = ClientServerConfig::new(2);
    assert_eq!(config.connection.channels.len(), 2);
    assert_eq!(config.protocol_id, 0);
    assert_eq!(config.timeout, 5);
    assert_eq!(config.client_memory, 10 * 1024 * 1024);
    assert_eq!(config.server_global_memory, 10 * 1024 * 1024);
    assert_eq!(config.server_per_client_memory, 10 * 1024 * 1024);
    assert!(config.network_simulator.is_none());
    assert_eq!(config.fragment_packets_above, 1024);
    assert_eq!(config.packet_fragment_size, 1024);
    // A packet of 8192 bytes splits into 8 fragments of 1024 bytes.
    assert_eq!(config.max_packet_fragments, 8);
    assert_eq!(config.packet_reassembly_buffer_size, 64);
    assert_eq!(config.acked_packets_buffer_size, 256);
    assert_eq!(config.received_packets_buffer_size, 256);
    assert_eq!(config.rtt_smoothing_factor, 2500);
}

#[test]
fn client_connects_and_disconnects() {
    let mut client: Client<Byte> = Client::new(small_config(1), 5);
    assert_eq!(client.time(), 5);
    assert!(client.is_disconnected());
    assert!(!client.is_connected());
    assert!(!client.connection_failed());
    assert_eq!(client.bound_port(), None);
    assert!(!client.can_send_message(0));
    assert!(!client.has_messages_to_send(0));
    assert!(client.channel_counters(0).is_none());
    assert_eq!(client.advance_time(6), TickAction::Idle);
    assert!(!client.process_packet(0, &[1, 0, 0, 0, 0]));
    let mut packet = vec![1, 2, 3];
    assert_eq!(client.send_packets(0, &mut packet), 0);

    // The transport could not be set up: the client stays disconnected.
    client.insecure_connect(1234, ConnectOutcome::TransportFailed);
    assert!(client.is_disconnected());
    assert!(!client.connection_failed());
    assert_eq!(client.client_id(), 0);

    // No token could be made: the client is in the state `Error`.
    client.insecure_connect(1234, ConnectOutcome::TokenFailed(40001));
    assert!(client.connection_failed());
    assert!(client.is_disconnected());
    assert_eq!(client.bound_port(), Some(40001));
    // The next tick tears down.
    assert_eq!(client.advance_time(7), TickAction::TearDown);
    assert!(client.connection_failed());
    assert_eq!(client.advance_time(8), TickAction::Idle);

    let mut client = connected_client(small_config(1));
    assert_eq!(client.client_id(), 1234);
    assert_eq!(client.bound_port(), Some(40001));
    assert!(client.can_send_message(0));
    assert_eq!(client.advance_time(1), TickAction::Poll);

    // A connecting client generates no packets.
    let mut connecting: Client<Byte> = Client::new(small_config(1), 0);
    connecting.insecure_connect(1, ConnectOutcome::Started(1));
    connecting.send_message(0, Byte(1));
    assert_eq!(connecting.send_packets(0, &mut packet), 0);
    assert!(packet.is_empty());

    // The transport reports that it is disconnected: the connection is dropped.
    assert!(client.poll_state(0));
    assert!(client.is_disconnected());
    assert!(!client.connection_failed());
    assert!(!client.can_send_message(0));
    assert_eq!(client.client_id(), 0);

    // The transport reports an error: the client fails, and tears down with the next tick.
    let mut client = connected_client(small_config(1));
    assert!(!client.poll_state(-4));
    assert!(client.connection_failed());
    assert!(client.is_disconnected());
    assert_eq!(client.advance_time(1), TickAction::TearDown);
    assert!(!client.can_send_message(0));

    let mut client = connected_client(small_config(1));
    client.disconnect();
    assert!(client.is_disconnected());
    assert_eq!(client.config().connection.channels.len(), 1);
}

#[test]
fn send_queue_overflow_disconnects_the_client() {
    let mut client = connected_client(small_config(1));
    for i in 0..16 {
        assert!(client.can_send_message(0));
        client.send_message(0, Byte(i));
    }
    assert!(client.has_messages_to_send(0));
    assert!(!client.can_send_message(0));
    assert_eq!(client.channel_counters(0).unwrap().sent, 16);
    assert_eq!(client.advance_time(16_000), TickAction::Poll);
    assert!(client.is_connected());

    // The 17th message overflows the send queue of 16.
    client.send_message(0, Byte(16));
    assert_eq!(client.channel_counters(0).unwrap().sent, 16);
    assert!(client.is_connected());

    // The connection reports the error on the next tick, and the client disconnects.
    assert_eq!(client.advance_time(32_000), TickAction::TearDown);
    assert!(client.is_disconnected());
    assert!(!client.is_connected());
    assert!(!client.connection_failed());
    assert!(client.channel_counters(0).is_none());
}

#[test]
fn send_queue_overflow_is_a_connection_error() {
    let mut connection: Connection<Byte> = Connection::new(small_config(2).connection, 0);
    assert_eq!(connection.channel_count(), 2);
    for i in 0..17 {
        connection.send_message(1, Byte(i));
    }
    assert_eq!(connection.channel_error_level(0), ChannelErrorLevel::NoError);
    assert_eq!(connection.channel_error_level(1), ChannelErrorLevel::SendQueueFull);
    // The connection takes note with the next tick.
    assert_eq!(connection.error_level(), ConnectionErrorLevel::NoError);
    connection.advance_time(16_000);
    assert_eq!(connection.error_level(), ConnectionErrorLevel::Channel);
}

#[test]
fn receive_queue_overrun_is_a_desync() {
    let mut sender_config = small_config(1).connection;
    sender_config.channels[0].message_send_queue_size = 64;
    sender_config.channels[0].message_receive_queue_size = 64;
    let receiver_config = small_config(1).connection;
    let mut sender: Connection<Byte> = Connection::new(sender_config, 0);
    let mut receiver: Connection<Byte> = Connection::new(receiver_config, 0);
    for i in 0..24 {
        sender.send_message(0, Byte(i));
    }

    // The receiver never takes a message off its queue of 16.
    let mut packet = Vec::new();
    for sequence in 0..2u16 {
        assert!(sender.generate_packet(sequence, &mut packet) > 0);
        assert!(receiver.process_packet(sequence, &packet));
        assert_eq!(receiver.error_level(), ConnectionErrorLevel::NoError);
    }
    // Ids 0 to 15 have arrived. The third packet brings ids 16 to 23.
    assert!(sender.generate_packet(2, &mut packet) > 0);
    assert!(!receiver.process_packet(2, &packet));
    assert_eq!(receiver.channel_error_level(0), ChannelErrorLevel::Desync);
    assert_eq!(receiver.error_level(), ConnectionErrorLevel::Channel);
}

#[test]
fn connection_error_is_sticky() {
    let mut connection: Connection<Byte> = Connection::new(small_config(1).connection, 0);
    connection.send_message(0, Byte(1));

    // A payload that cannot be read puts the connection into an error state.
    assert!(!connection.process_packet(0, &[9]));
    assert_eq!(connection.error_level(), ConnectionErrorLevel::ReadPacketFailed);

    // It refuses packets, generates nothing, and keeps its error.
    assert!(!connection.process_packet(1, &[1, 0, 0, 0, 0]));
    let mut packet = vec![1, 2, 3];
    assert_eq!(connection.generate_packet(0, &mut packet), 0);
    assert!(packet.is_empty());
    connection.process_acks(&[0, 1]);
    connection.advance_time(1_000_000);
    connection.send_message(0, Byte(2));
    assert_eq!(connection.receive_message(0), None);
    assert_eq!(connection.error_level(), ConnectionErrorLevel::ReadPacketFailed);

    // Only a reset clears it.
    connection.reset();
    assert_eq!(connection.error_level(), ConnectionErrorLevel::NoError);
    assert!(!connection.has_messages_to_send(0));
    assert_eq!(connection.channel_counters(0).sent, 0);
}

#[test]
fn unreadable_message_fails_its_channel() {
    let mut connection: Connection<Byte> = Connection::new(small_config(2).connection, 0);
    // One share of channel 1 with one message, id 0, whose body is not a message.
    assert!(!connection.process_packet(0, &[1, 0, 1, 0, 1, 0, 0, 0, 0xff]));
    assert_eq!(connection.channel_error_level(0), ChannelErrorLevel::NoError);
    assert_eq!(connection.channel_error_level(1), ChannelErrorLevel::FailedToSerialize);
    assert_eq!(connection.error_level(), ConnectionErrorLevel::Channel);
}

#[test]
fn share_of_an_unknown_channel_is_dropped() {
    let mut connection: Connection<Byte> = Connection::new(small_config(1).connection, 0);
    // Two shares: one without messages of channel 9, one of channel 0 with message 0.
    assert!(connection.process_packet(0, &[2, 0, 9, 0, 0, 0, 0, 1, 0, 0, 0, 42]));
    assert_eq!(connection.error_level(), ConnectionErrorLevel::NoError);
    assert_eq!(connection.receive_message(0), Some((0, Byte(42))));
}

#[test]
fn generated_packet_layout_and_budget() {
    let mut config = small_config(2).connection;
    config.channels[1].kind = ChannelType::UnreliableUnordered;
    let mut connection: Connection<Byte> = Connection::new(config.clone(), 0);
    let mut packet = Vec::new();
    // Nothing to send: nothing is written.
    assert_eq!(connection.generate_packet(3, &mut packet), 0);

    connection.send_message(1, Byte(7));
    connection.send_message(0, Byte(5));
    connection.send_message(0, Byte(6));
    assert_eq!(connection.generate_packet(3, &mut packet), 17);
    assert_eq!(packet, vec![2, 0, 0, 0, 1, 1, 0, 0, 1, 0, 5, 6, 1, 0, 1, 0, 7]);
    assert!(connection.can_send_message(0));
    assert!(connection.has_messages_to_send(0));
    assert!(!connection.has_messages_to_send(1));

    // A small packet size holds back what does not fit.
    config.max_packet_size = 12;
    let mut connection: Connection<Byte> = Connection::new(config, 0);
    for i in 0..8 {
        connection.send_message(0, Byte(i));
        connection.send_message(1, Byte(i));
    }
    for sequence in 0..4 {
        let written = connection.generate_packet(sequence, &mut packet);
        assert!(written <= 12);
        assert_eq!(written, packet.len());
    }
}

#[test]
fn server_slots_are_independent() {
    let mut server: Server<Byte> = Server::new(small_config(1), 0);
    assert!(!server.running());
    assert_eq!(server.bound_port(), None);
    assert_eq!(server.max_clients(), 0);
    assert!(server.advance_time(1).is_empty());
    assert!(server.network_simulator_mut().is_none());

    server.start(2, 40000);
    assert!(server.running());
    assert_eq!(server.bound_port(), Some(40000));
    assert_eq!(server.max_clients(), 2);
    assert_eq!(server.time(), 1);
    // No simulator is configured: a running server has none to hand out.
    assert!(server.network_simulator_mut().is_none());
    assert_eq!(server.config().connection.channels.len(), 1);

    let mut client = connected_client(small_config(1));
    let mut packet = Vec::new();

    // Client to server, slot 1.
    client.send_message(0, Byte(11));
    let written = client.send_packets(0, &mut packet);
    assert!(written > 0);
    assert!(server.process_packet(1, 0, &packet));
    client.process_acks(&[0]);
    assert!(!client.has_messages_to_send(0));
    assert_eq!(server.receive_message(0, 0), None);
    assert_eq!(server.receive_message(1, 0), Some(Byte(11)));
    assert_eq!(server.channel_counters(1, 0).unwrap().received, 1);
    assert_eq!(server.channel_counters(0, 0).unwrap().received, 0);

    // Server to client.
    assert!(server.can_send_message(1, 0));
    server.send_message(1, 0, Byte(22));
    assert!(server.has_messages_to_send(1, 0));
    assert!(!server.has_messages_to_send(0, 0));
    assert_eq!(server.send_packets(0, 0, &mut packet), 0);
    assert!(server.send_packets(1, 0, &mut packet) > 0);
    assert!(!server.transmit_packet(1, &packet));
    assert!(client.process_packet(0, &packet));
    server.process_acks(1, &[0]);
    assert!(!server.has_messages_to_send(1, 0));
    assert_eq!(client.receive_message(0), Some(Byte(22)));

    // An overflowing slot is to be disconnected; the other slot is not.
    for i in 0..17 {
        server.send_message(0, 0, Byte(i));
    }
    assert!(server.advance_client_time(0, 16_000));
    assert!(!server.advance_client_time(1, 16_000));

    // A client that leaves has its slot reset.
    server.handle_connect_disconnect(0, true);
    assert!(server.has_messages_to_send(0, 0));
    server.handle_connect_disconnect(0, false);
    assert!(!server.has_messages_to_send(0, 0));
    assert!(!server.advance_client_time(0, 32_000));
    assert_eq!(server.channel_counters(0, 0).unwrap().sent, 0);

    server.stop();
    assert!(!server.running());
}

#[test]
fn server_simulator_holds_packets_back() {
    let mut config = small_config(1);
    config.network_simulator = Some(NetworkSimulatorConfig { max_simulator_packets: 8 });
    let mut server: Server<Byte> = Server::new(config, 0);
    server.start(2, 40000);

    // A running server with a simulator configured hands it out, inactive.
    assert!(!server.network_simulator_mut().unwrap().active());
    assert_eq!(server.network_simulator_mut().unwrap().capacity(), 8);

    // An inactive simulator takes nothing.
    assert!(!server.transmit_packet(0, &[1, 2, 3]));

    server.network_simulator_mut().unwrap().set_latency(50_000);
    assert!(server.transmit_packet(0, &[1, 2, 3]));
    assert!(server.transmit_packet(1, &[4]));
    assert!(server.advance_time(50_000).is_empty());
    // The packets of a client that has left are dropped.
    server.handle_connect_disconnect(1, false);
    assert_eq!(server.advance_time(50_001), vec![(0usize, vec![1u8, 2, 3])]);
    assert!(server.advance_time(50_002).is_empty());
}
