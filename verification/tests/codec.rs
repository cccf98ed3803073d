use rust_game_networking::channel::channel_packet_data::{ChannelPacketData, ReadError};
use rust_game_networking::config::{ChannelConfig, ChannelType, ConnectionConfig};
use rust_game_networking::connection::ConnectionPacket;
use rust_game_networking::message::NetworkMessage;

/// A message of one byte. The byte 0xff does not go on the wire.
#[derive(Debug, Clone, Copy, PartialEq, Eq)]
struct Byte(u8);

impl NetworkMessage for Byte {
    type Error = String;

    fn serialize(&self, writer: &mut Vec<u8>) -> Result<(), Self::Error> {
        if self.0 == 0xff {
            return Err(format!("cannot write {}", self.0));
        }
        writer.push(self.0);
        Ok(())
    }

    fn deserialize(reader: &[u8]) -> Result<(Self, usize), Self::Error> {
        match reader.first() {
            Some(0xff) => Err(format!("cannot read {}", 0xff)),
            Some(byte) => Ok((Byte(*byte), 1)),
            None => Err(format!("nothing to read")),
        }
    }
}

/// A message type that claims more bytes than it is given.
#[derive(Debug, Clone, Copy, PartialEq, Eq)]
struct Greedy;

impl NetworkMessage for Greedy {
    type Error = ();

    fn serialize(&self, _writer: &mut Vec<u8>) -> Result<(), Self::Error> {
        Ok(())
    }

    fn deserialize(reader: &[u8]) -> Result<(Self, usize), Self::Error> {
        Ok((Greedy, reader.len() + 1))
    }
}

fn config(kinds: &[ChannelType], check: bool) -> ConnectionConfig {
    let mut config = ConnectionConfig::new(kinds.len());
    for (channel, kind) in config.channels.iter_mut().zip(kinds) {
        channel.kind = *kind;
        channel.serialize_check = check;
        channel.max_messages_per_packet = 4;
    }
    config
}

fn outgoing(channel_index: usize, messages: &[(u16, &[u8])]) -> ChannelPacketData<Vec<u8>> {
    ChannelPacketData {
        channel_index,
        messages: messages.iter().map(|(id, body)| (*id, body.to_vec())).collect(),
    }
}

#[test]
fn reliable_share_layout() {
    let config = config(&[ChannelType::ReliableOrdered, ChannelType::ReliableOrdered], false);
    let data = outgoing(1, &[(0x0102, &[9]), (0xfffe, &[8])]);
    let mut bytes = vec![0xaa];
    data.serialize(&config, &mut bytes);
    assert_eq!(bytes, vec![0xaa, 1, 0, 1, 1, 0x02, 0x01, 0xfe, 0xff, 9, 8]);
}

#[test]
fn unreliable_share_layout_writes_no_ids() {
    let config = config(&[ChannelType::UnreliableUnordered], false);
    let data = outgoing(0, &[(0x0102, &[9]), (0x0102, &[8, 7])]);
    let mut bytes = Vec::new();
    data.serialize(&config, &mut bytes);
    assert_eq!(bytes, vec![0, 0, 1, 1, 9, 8, 7]);
}

#[test]
fn share_without_messages_is_three_bytes() {
    let config = config(&[ChannelType::ReliableOrdered], true);
    let data = outgoing(0, &[]);
    let mut bytes = Vec::new();
    data.serialize(&config, &mut bytes);
    assert_eq!(bytes, vec![0, 0, 0]);

    let (read, taken) = ChannelPacketData::<Byte>::deserialize(&config, &bytes).unwrap();
    assert_eq!(taken, 3);
    assert_eq!(read.channel_index, 0);
    assert!(read.messages.is_empty());
}

#[test]
fn check_values_follow_ids_and_bodies() {
    let config = config(&[ChannelType::ReliableOrdered], true);
    let data = outgoing(0, &[(5, &[9])]);
    let mut bytes = Vec::new();
    data.serialize(&config, &mut bytes);
    assert_eq!(
        bytes,
        vec![0, 0, 1, 0, 5, 0, 0x78, 0x56, 0x34, 0x12, 9, 0x78, 0x56, 0x34, 0x12]
    );

    let (read, taken) = ChannelPacketData::<Byte>::deserialize(&config, &bytes).unwrap();
    assert_eq!(taken, bytes.len());
    assert_eq!(read.messages, vec![(5, Byte(9))]);

    // A check value that is off makes the payload malformed.
    let mut off = bytes.clone();
    off[6] = 0x79;
    assert!(matches!(
        ChannelPacketData::<Byte>::deserialize(&config, &off),
        Err(ReadError::Malformed)
    ));
    let mut off = bytes.clone();
    off[14] = 0x13;
    assert!(matches!(
        ChannelPacketData::<Byte>::deserialize(&config, &off),
        Err(ReadError::Malformed)
    ));

    let unreliable = self::config(&[ChannelType::UnreliableUnordered], true);
    let mut bytes = Vec::new();
    outgoing(0, &[(5, &[9])]).serialize(&unreliable, &mut bytes);
    assert_eq!(bytes, vec![0, 0, 1, 0, 9, 0x78, 0x56, 0x34, 0x12]);
}

#[test]
fn share_round_trip() {
    for check in [false, true] {
        let config = config(
            &[ChannelType::ReliableOrdered, ChannelType::UnreliableUnordered],
            check,
        );
        let data = outgoing(0, &[(65535, &[1]), (0, &[2]), (1, &[3])]);
        let mut bytes = Vec::new();
        data.serialize(&config, &mut bytes);
        bytes.extend_from_slice(&[0xee, 0xee]);
        let (read, taken) = ChannelPacketData::<Byte>::deserialize(&config, &bytes).unwrap();
        assert_eq!(taken, bytes.len() - 2);
        assert_eq!(read.channel_index, 0);
        assert_eq!(read.messages, vec![(65535, Byte(1)), (0, Byte(2)), (1, Byte(3))]);

        // An unreliable channel writes no ids: they read back as 0.
        let data = outgoing(1, &[(77, &[1]), (77, &[2])]);
        let mut bytes = Vec::new();
        data.serialize(&config, &mut bytes);
        let (read, taken) = ChannelPacketData::<Byte>::deserialize(&config, &bytes).unwrap();
        assert_eq!(taken, bytes.len());
        assert_eq!(read.channel_index, 1);
        assert_eq!(read.messages, vec![(0, Byte(1)), (0, Byte(2))]);
    }
}

#[test]
fn malformed_shares_are_refused() {
    let config = config(&[ChannelType::ReliableOrdered], false);
    let read = |bytes: &[u8]| ChannelPacketData::<Byte>::deserialize(&config, bytes).err();

    // Too short for a header.
    assert_eq!(read(&[]), Some(ReadError::Malformed));
    assert_eq!(read(&[0, 0]), Some(ReadError::Malformed));
    // Messages, but no count.
    assert_eq!(read(&[0, 0, 1]), Some(ReadError::Malformed));
    // Messages of a channel that is not configured.
    assert_eq!(read(&[1, 0, 1, 0, 5, 0, 9]), Some(ReadError::Malformed));
    // More messages than the channel allows.
    assert_eq!(
        read(&[0, 0, 1, 4, 1, 0, 2, 0, 3, 0, 4, 0, 5, 0, 1, 2, 3, 4, 5]),
        Some(ReadError::Malformed)
    );
    // Ids that end too early.
    assert_eq!(read(&[0, 0, 1, 1, 5, 0, 6]), Some(ReadError::Malformed));
    // A message that its type does not accept.
    assert_eq!(read(&[0, 0, 1, 0, 5, 0, 0xff]), Some(ReadError::Message(0)));
    // A body that is missing.
    assert_eq!(read(&[0, 0, 1, 0, 5, 0]), Some(ReadError::Message(0)));

    // A share without messages is read whatever its channel is.
    let (data, taken) = ChannelPacketData::<Byte>::deserialize(&config, &[7, 0, 0]).unwrap();
    assert_eq!((data.channel_index, data.messages.len(), taken), (7, 0, 3));
    // Any other value than 1 means no messages.
    let (data, taken) = ChannelPacketData::<Byte>::deserialize(&config, &[0, 0, 2, 9]).unwrap();
    assert_eq!((data.channel_index, data.messages.len(), taken), (0, 0, 3));
}

#[test]
fn a_message_cannot_take_more_than_there_is() {
    let config = config(&[ChannelType::UnreliableUnordered], false);
    assert!(matches!(
        ChannelPacketData::<Greedy>::deserialize(&config, &[0, 0, 1, 0, 1, 2]),
        Err(ReadError::Malformed)
    ));
}

#[test]
fn empty_packet_data_names_no_channel() {
    let empty = ChannelPacketData::<Byte>::empty();
    assert_eq!(empty.channel_index, usize::MAX);
    assert!(empty.messages.is_empty());
}

#[test]
fn packet_layout_and_round_trip() {
    let config = config(
        &[ChannelType::ReliableOrdered, ChannelType::UnreliableUnordered],
        false,
    );
    let packet = ConnectionPacket::new(vec![
        outgoing(1, &[(0, &[4])]),
        outgoing(0, &[(258, &[5]), (259, &[6])]),
    ]);
    let mut bytes = Vec::new();
    let written = packet.serialize(&config, &mut bytes);
    assert_eq!(written, bytes.len());
    assert_eq!(
        bytes,
        vec![2, 0, 1, 0, 1, 0, 4, 0, 0, 1, 1, 2, 1, 3, 1, 5, 6]
    );

    let read = ConnectionPacket::<Byte>::deserialize(&config, &bytes).unwrap();
    assert_eq!(read.channel_data.len(), 2);
    assert_eq!(read.channel_data[0].channel_index, 1);
    assert_eq!(read.channel_data[0].messages, vec![(0, Byte(4))]);
    assert_eq!(read.channel_data[1].channel_index, 0);
    assert_eq!(read.channel_data[1].messages, vec![(258, Byte(5)), (259, Byte(6))]);

    // Fewer shares than the count says.
    assert!(matches!(
        ConnectionPacket::<Byte>::deserialize(&config, &bytes[..7]),
        Err(ReadError::Malformed)
    ));
    // No count at all.
    assert!(matches!(
        ConnectionPacket::<Byte>::deserialize(&config, &[2]),
        Err(ReadError::Malformed)
    ));
    // A message that its type does not accept names its channel.
    assert!(matches!(
        ConnectionPacket::<Byte>::deserialize(&config, &[1, 0, 1, 0, 1, 0, 0xff]),
        Err(ReadError::Message(1))
    ));
}

#[test]
fn default_configuration() {
    let channel = ChannelConfig::new(ChannelType::UnreliableUnordered);
    assert_eq!(channel.kind, ChannelType::UnreliableUnordered);
    assert_eq!(channel.sent_packet_buffer_size, 1024);
    assert_eq!(channel.message_send_queue_size, 1024);
    assert_eq!(channel.message_receive_queue_size, 1024);
    assert_eq!(channel.max_messages_per_packet, 256);
    assert_eq!(channel.packet_budget, None);
    assert_eq!(channel.message_resend_time, 100_000);
    assert!(!channel.serialize_check);
    assert!(channel.is_valid());

    let connection = ConnectionConfig::new(3);
    assert_eq!(connection.max_packet_size, 8192);
    assert_eq!(connection.channels.len(), 3);
    assert!(connection.channels.iter().all(|c| c.kind == ChannelType::ReliableOrdered));
    assert!(connection.is_valid());
    assert!(!ConnectionConfig::new(0).is_valid());

    let mut bad = ConnectionConfig::new(1);
    bad.channels[0].max_messages_per_packet = 257;
    assert!(!bad.is_valid());
    bad.channels[0].max_messages_per_packet = 256;
    bad.channels[0].message_send_queue_size = 65536;
    assert!(!bad.is_valid());
    bad.channels[0].kind = ChannelType::UnreliableUnordered;
    assert!(bad.is_valid());
    bad.max_packet_size = 0;
    assert!(!bad.is_valid());

    let copy = connection.duplicate();
    assert_eq!(copy.max_packet_size, connection.max_packet_size);
    assert_eq!(copy.channels.len(), connection.channels.len());
}
