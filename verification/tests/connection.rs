use byteorder::{LittleEndian, ReadBytesExt, WriteBytesExt};
use rust_game_networking::config::{ChannelType, ClientServerConfig, ConnectionConfig};
use rust_game_networking::connection::{Connection, ConnectionErrorLevel};
use rust_game_networking::message::NetworkMessage;

#[derive(Debug, Clone, Copy, PartialEq, Eq)]
struct TestMessage {
    value: u64,
}

impl NetworkMessage for TestMessage {
    type Error = std::io::Error;

    fn serialize(&self, writer: &mut Vec<u8>) -> Result<(), Self::Error> {
        writer.write_u64::<LittleEndian>(self.value)?;

        Ok(())
    }

    fn deserialize(reader: &[u8]) -> Result<(Self, usize), Self::Error> {
        let mut rest = reader;
        let value = rest.read_u64::<LittleEndian>()?;

        Ok((TestMessage { value }, reader.len() - rest.len()))
    }
}

/// Seconds as the whole microseconds that the library counts in.
fn micros(seconds: f64) -> i64 {
    (seconds * 1_000_000.0).round() as i64
}

#[test]
fn test_send_receive_unreliable_messages() {
    let mut time = 100.0;
    let delta_time = 0.016;

    let config = ClientServerConfig::new(1);
    let mut config = config.connection;
    let messages_per_packet = 8;
    config.channels[0].max_messages_per_packet = messages_per_packet;
    config.channels[0].kind = ChannelType::UnreliableUnordered;

    let mut sender = Connection::new(config.clone(), micros(time));
    let mut receiver = Connection::new(config.clone(), micros(time));

    let mut sender_sequence = 0;
    let mut receiver_sequence = 0;

    let messages_sent = 1024;
    assert!(messages_sent <= config.channels[0].message_send_queue_size);
    for i in 0..messages_sent {
        let message = TestMessage { value: i as u64 };
        sender.send_message(0, message);
    }

    let expected_iterations = messages_sent / messages_per_packet;
    let mut expect_value = 0;
    for iter in 0..expected_iterations {
        pump_connection_update(
            &config,
            &mut time,
            &mut sender,
            &mut receiver,
            &mut sender_sequence,
            &mut receiver_sequence,
            delta_time,
            0.0,
        );

        loop {
            let Some((_id, message)) = receiver.receive_message(0) else { break };
            assert_eq!(
                message.value, expect_value,
                "actual message value {}, expected {}; iter: {}",
                message.value, expect_value, iter
            );
            expect_value += 1;
        }
    }

    assert_eq!(
        receiver.channel_counters(0).received,
        messages_sent as usize,
        "left==recieved; right==sent; expected iterations: {}",
        expected_iterations
    );
}

#[test]
fn test_send_receive_reliable_messages() {
    let mut time = 100.0;
    let delta_time = 0.016;

    let config = ClientServerConfig::new(1);
    let mut config = config.connection;
    let messages_per_packet = 8;
    config.channels[0].max_messages_per_packet = messages_per_packet;
    config.channels[0].sent_packet_buffer_size = 16; // severely constrain this
    config.channels[0].kind = ChannelType::ReliableOrdered;

    let mut sender = Connection::new(config.clone(), micros(time));
    let mut receiver = Connection::new(config.clone(), micros(time));

    let mut sender_sequence = 0;
    let mut receiver_sequence = 0;

    let messages_sent = 1024;
    assert!(messages_sent <= config.channels[0].message_send_queue_size);
    for i in 0..messages_sent {
        let message = TestMessage { value: i as u64 };
        sender.send_message(0, message);
    }

    let mut expect_value = 0;
    let mut iter = 0;
    let max_iter = 15 * messages_sent / messages_per_packet;
    loop {
        pump_connection_update(
            &config,
            &mut time,
            &mut sender,
            &mut receiver,
            &mut sender_sequence,
            &mut receiver_sequence,
            delta_time,
            0.90,
        );

        loop {
            let Some((_id, message)) = receiver.receive_message(0) else { break };
            assert_eq!(
                message.value, expect_value,
                "actual message value {}, expected {}; iter: {}",
                message.value, expect_value, iter
            );
            expect_value += 1;
        }

        if receiver.channel_counters(0).received >= messages_sent {
            break;
        }

        if iter > max_iter {
            panic!("exceeded maximum iterations allowed: {}", iter);
        }

        iter += 1;
    }

    assert_eq!(
        receiver.channel_counters(0).received,
        messages_sent as usize,
        "left==recieved; right==sent; iterations: {}",
        iter
    );
}

#[test]
fn test_duplex_reliable_messages() {
    let mut time = 100.0;
    let delta_time = 0.016;

    let config = ClientServerConfig::new(1);
    let mut config = config.connection;
    let messages_per_packet = 8;
    config.channels[0].max_messages_per_packet = messages_per_packet;
    config.channels[0].sent_packet_buffer_size = 16; // severely constrain this
    config.channels[0].kind = ChannelType::ReliableOrdered;

    let mut sender = Connection::new(config.clone(), micros(time));
    let mut receiver = Connection::new(config.clone(), micros(time));

    let mut sender_sequence = 0;
    let mut receiver_sequence = 0;

    let messages_sent = 1024;
    assert!(messages_sent <= config.channels[0].message_send_queue_size);
    for i in 0..messages_sent {
        let message = TestMessage { value: i as u64 };
        sender.send_message(0, message);
        receiver.send_message(0, message);
    }

    let mut sender_expect_value = 0;
    let mut receiver_expect_value = 0;
    let mut iter = 0;
    let max_iter = 15 * messages_sent / messages_per_packet;
    loop {
        pump_connection_update(
            &config,
            &mut time,
            &mut sender,
            &mut receiver,
            &mut sender_sequence,
            &mut receiver_sequence,
            delta_time,
            0.90,
        );

        loop {
            let Some((_id, message)) = sender.receive_message(0) else { break };
            assert_eq!(
                message.value, sender_expect_value,
                "actual message value {}, expected {}; iter: {}",
                message.value, sender_expect_value, iter
            );
            sender_expect_value += 1;
        }

        loop {
            let Some((_id, message)) = receiver.receive_message(0) else { break };
            assert_eq!(
                message.value, receiver_expect_value,
                "actual message value {}, expected {}; iter: {}",
                message.value, receiver_expect_value, iter
            );
            receiver_expect_value += 1;
        }

        if receiver.channel_counters(0).received >= messages_sent
            && sender.channel_counters(0).received >= messages_sent
        {
            break;
        }

        if iter > max_iter {
            panic!("exceeded maximum iterations allowed: {}", iter);
        }

        iter += 1;
    }

    assert_eq!(
        receiver.channel_counters(0).received,
        messages_sent as usize,
        "left==recieved; right==sent; iterations: {}",
        iter
    );
    assert_eq!(
        sender.channel_counters(0).received,
        messages_sent as usize,
        "left==recieved; right==sent; iterations: {}",
        iter
    );
}

#[test]
fn test_send_receive_reliable_messages_multiple_channels() {
    let mut time = 100.0;
    let delta_time = 0.016;

    let config = ClientServerConfig::new(2);
    let mut config = config.connection;
    let messages_per_packet = 8;
    for i in 0..2 {
        config.channels[i].max_messages_per_packet = messages_per_packet;
        config.channels[i].sent_packet_buffer_size = 16; // severely constrain this
        config.channels[i].kind = ChannelType::ReliableOrdered;
    }

    let mut sender = Connection::new(config.clone(), micros(time));
    let mut receiver = Connection::new(config.clone(), micros(time));

    let mut sender_sequence = 0;
    let mut receiver_sequence = 0;

    let channel_0_messages = 1024;
    let channel_1_messages = 400;

    for i in 0..channel_0_messages {
        let message = TestMessage { value: i as u64 };
        sender.send_message(0, message);
    }
    for i in 0..channel_1_messages {
        let message = TestMessage {
            value: 3 * i as u64,
        };
        sender.send_message(1, message);
    }

    let mut iter = 0;
    let max_iter = 20 * (channel_0_messages + channel_1_messages) / (2 * messages_per_packet);
    loop {
        pump_connection_update(
            &config,
            &mut time,
            &mut sender,
            &mut receiver,
            &mut sender_sequence,
            &mut receiver_sequence,
            delta_time,
            0.90,
        );

        loop {
            let Some(_) = receiver.receive_message(0) else { break };
        }

        loop {
            let Some(_) = receiver.receive_message(1) else { break };
        }

        if receiver.channel_counters(0).received >= channel_0_messages
            && receiver.channel_counters(1).received >= channel_1_messages
        {
            break;
        }

        if iter > max_iter {
            panic!("exceeded maximum iterations allowed: {}", iter);
        }

        iter += 1;
    }

    assert_eq!(
        receiver.channel_counters(0).received,
        channel_0_messages,
        "left==recieved; right==sent; iterations: {}",
        iter
    );
    assert_eq!(
        receiver.channel_counters(1).received,
        channel_1_messages,
        "left==recieved; right==sent; iterations: {}",
        iter
    );
}

fn pump_connection_update(
    config: &ConnectionConfig,
    time: &mut f64,
    sender: &mut Connection<TestMessage>,
    receiver: &mut Connection<TestMessage>,
    sender_sequence: &mut u16,
    receiver_sequence: &mut u16,
    delta_time: f64,
    packet_loss: f32,
) {
    let mut packet = Vec::with_capacity(config.max_packet_size);

    let mut bytes_written = sender.generate_packet(*sender_sequence, &mut packet);
    assert!(bytes_written <= config.max_packet_size);
    if bytes_written > 0 {
        if rand::random::<f32>() > packet_loss {
            receiver.process_packet(*sender_sequence, &packet[..bytes_written]);
            sender.process_acks(&[*sender_sequence]);
        }
    }

    bytes_written = receiver.generate_packet(*receiver_sequence, &mut packet);
    assert!(bytes_written <= config.max_packet_size);
    if bytes_written > 0 {
        if rand::random::<f32>() > packet_loss {
            sender.process_packet(*receiver_sequence, &packet[..bytes_written]);
            receiver.process_acks(&[*receiver_sequence]);
        }
    }

    *time += delta_time;

    sender.advance_time(micros(*time));
    receiver.advance_time(micros(*time));

    *sender_sequence = sender_sequence.wrapping_add(1);
    *receiver_sequence = receiver_sequence.wrapping_add(1);

    assert!(sender.error_level() == ConnectionErrorLevel::NoError);
    assert!(receiver.error_level() == ConnectionErrorLevel::NoError);
}
