use rust_game_networking::channel::channel_packet_data::ChannelPacketData;
use rust_game_networking::channel::reliable::Reliable;
use rust_game_networking::channel::sequence_buffer::{sequence_greater_than, sequence_less_than};
use rust_game_networking::channel::unreliable::Unreliable;
use rust_game_networking::channel::{Channel, ChannelCounters, ChannelErrorLevel};
use rust_game_networking::config::{ChannelConfig, ChannelType};
use rust_game_networking::message::NetworkMessage;

/// A message of one byte. The byte 0xff does not go on the wire.
#[derive(Debug, Clone, Copy, PartialEq, Eq)]
struct Byte(u8);

impl NetworkMessage for Byte {
    type Error = ();

    fn serialize(&self, writer: &mut Vec<u8>) -> Result<(), Self::Error> {
        if self.0 == 0xff {
            return Err(());
        }
        writer.push(self.0);
        Ok(())
    }

    fn deserialize(reader: &[u8]) -> Result<(Self, usize), Self::Error> {
        match reader.first() {
            Some(0xff) | None => Err(()),
            Some(byte) => Ok((Byte(*byte), 1)),
        }
    }
}

const PLENTY: usize = 8 * 8192 - 16;

fn reliable_config() -> ChannelConfig {
    let mut config = ChannelConfig::new(ChannelType::ReliableOrdered);
    config.sent_packet_buffer_size = 16;
    config.message_send_queue_size = 64;
    config.message_receive_queue_size = 64;
    config.max_messages_per_packet = 8;
    config
}

fn reliable_with(config: ChannelConfig, messages: usize) -> Reliable<Byte> {
    let mut channel = Reliable::new(config, 0);
    for i in 0..messages {
        assert!(channel.can_send_message());
        channel.send_message(vec![i as u8; 8]);
    }
    channel
}

fn incoming(messages: &[(u16, u8)]) -> ChannelPacketData<Byte> {
    ChannelPacketData {
        channel_index: 0,
        messages: messages.iter().map(|(id, byte)| (*id, Byte(*byte))).collect(),
    }
}

fn ids<T>(data: &ChannelPacketData<T>) -> Vec<u16> {
    data.messages.iter().map(|(id, _)| *id).collect()
}

#[test]
fn reliable_packs_in_id_order_and_counts_bits() {
    let mut channel = reliable_with(reliable_config(), 3);
    assert!(channel.has_messages_to_send());
    assert_eq!(channel.send_message_id(), 3);

    let (data, bits) = channel.packet_data(5, 0, PLENTY);
    assert_eq!(data.channel_index, 5);
    assert_eq!(data.messages, vec![(0, vec![0; 8]), (1, vec![1; 8]), (2, vec![2; 8])]);
    // 32 bits of header, and per message 64 bits of body and 16 bits of id.
    assert_eq!(bits, 32 + 3 * (64 + 16));
}

#[test]
fn reliable_counts_check_values() {
    let mut config = reliable_config();
    config.serialize_check = true;
    let mut channel = reliable_with(config, 2);
    let (_, bits) = channel.packet_data(0, 0, PLENTY);
    // One check value after the ids, and one after every body.
    assert_eq!(bits, 32 + 32 + 2 * (64 + 16 + 32));
}

#[test]
fn reliable_stops_at_messages_per_packet() {
    let mut channel = reliable_with(reliable_config(), 20);
    let (data, _) = channel.packet_data(0, 0, PLENTY);
    assert_eq!(ids(&data), (0..8).collect::<Vec<u16>>());
    // The next packet takes the messages that were never sent.
    let (data, _) = channel.packet_data(0, 1, PLENTY);
    assert_eq!(ids(&data), (8..16).collect::<Vec<u16>>());
}

#[test]
fn reliable_resends_after_the_resend_time() {
    let mut channel = reliable_with(reliable_config(), 2);
    let (data, _) = channel.packet_data(0, 0, PLENTY);
    assert_eq!(ids(&data), vec![0, 1]);

    // Nothing is due right after.
    let (data, bits) = channel.packet_data(0, 1, PLENTY);
    assert!(data.messages.is_empty());
    assert_eq!(data.channel_index, usize::MAX);
    assert_eq!(bits, 0);

    channel.advance_time(99_999);
    let (data, _) = channel.packet_data(0, 2, PLENTY);
    assert!(data.messages.is_empty());

    channel.advance_time(100_000);
    let (data, _) = channel.packet_data(0, 3, PLENTY);
    assert_eq!(ids(&data), vec![0, 1]);
}

#[test]
fn reliable_first_send_waits_for_a_long_resend_time() {
    let mut config = reliable_config();
    config.message_resend_time = 200_000_000;
    let mut channel: Reliable<Byte> = Reliable::new(config, 100_000_000);
    channel.send_message(vec![1]);

    // A message that was never sent counts as sent one second before time zero.
    let (data, _) = channel.packet_data(0, 0, PLENTY);
    assert!(data.messages.is_empty());
    channel.advance_time(198_999_999);
    let (data, _) = channel.packet_data(0, 1, PLENTY);
    assert!(data.messages.is_empty());
    channel.advance_time(199_000_000);
    let (data, _) = channel.packet_data(0, 2, PLENTY);
    assert_eq!(ids(&data), vec![0]);
}

#[test]
fn reliable_respects_the_bits_available() {
    // One message of 8 bytes takes 32 + 64 + 16 = 112 bits.
    let mut channel = reliable_with(reliable_config(), 2);
    let (data, bits) = channel.packet_data(0, 0, 111);
    assert!(data.messages.is_empty());
    assert_eq!(bits, 0);

    let (data, bits) = channel.packet_data(0, 1, 112);
    assert_eq!(ids(&data), vec![0]);
    assert_eq!(bits, 112);

    // Fewer than 32 bits left after the first message: the second is not looked at.
    let mut channel = reliable_with(reliable_config(), 2);
    let (data, _) = channel.packet_data(0, 0, 112 + 31);
    assert_eq!(ids(&data), vec![0]);

    // The channel's own budget caps what is available: 14 bytes are 112 bits.
    let mut config = reliable_config();
    config.packet_budget = Some(14);
    let mut channel = reliable_with(config, 2);
    let (data, bits) = channel.packet_data(0, 0, PLENTY);
    assert_eq!(ids(&data), vec![0]);
    assert_eq!(bits, 112);
}

#[test]
fn reliable_passes_over_a_message_that_does_not_fit() {
    let mut channel: Reliable<Byte> = Reliable::new(reliable_config(), 0);
    channel.send_message(vec![0; 4]);
    channel.send_message(vec![0; 100]);
    channel.send_message(vec![0; 4]);
    // 32 + (32 + 16) + (32 + 16) = 128 bits for the two small ones, and 32 to
    // spare so that the walk goes on after the first.
    let (data, bits) = channel.packet_data(0, 0, 160);
    assert_eq!(ids(&data), vec![0, 2]);
    assert_eq!(bits, 128);
}

#[test]
fn reliable_ack_frees_the_send_queue() {
    let mut channel = reliable_with(reliable_config(), 3);
    let (data, _) = channel.packet_data(0, 10, PLENTY);
    assert_eq!(ids(&data), vec![0, 1, 2]);
    assert_eq!(channel.oldest_unacked_message_id(), 0);

    // A packet that the channel does not remember changes nothing.
    channel.process_ack(11);
    assert_eq!(channel.oldest_unacked_message_id(), 0);
    assert!(channel.has_messages_to_send());

    channel.process_ack(10);
    assert_eq!(channel.oldest_unacked_message_id(), 3);
    assert!(!channel.has_messages_to_send());

    // A second ack of the same packet changes nothing.
    channel.process_ack(10);
    assert_eq!(channel.oldest_unacked_message_id(), 3);

    // Nothing is left to send.
    channel.advance_time(1_000_000);
    let (data, bits) = channel.packet_data(0, 12, PLENTY);
    assert!(data.messages.is_empty());
    assert_eq!(bits, 0);
}

#[test]
fn reliable_oldest_unacked_never_moves_backward() {
    let mut channel = reliable_with(reliable_config(), 16);
    let (first, _) = channel.packet_data(0, 0, PLENTY);
    let (second, _) = channel.packet_data(0, 1, PLENTY);
    assert_eq!(ids(&first), (0..8).collect::<Vec<u16>>());
    assert_eq!(ids(&second), (8..16).collect::<Vec<u16>>());

    // The later packet is acked first: the oldest unacked message stays.
    let mut last = channel.oldest_unacked_message_id();
    channel.process_ack(1);
    assert_eq!(channel.oldest_unacked_message_id(), 0);
    assert!(!sequence_less_than(channel.oldest_unacked_message_id(), last));
    last = channel.oldest_unacked_message_id();

    // Then the earlier one: the oldest unacked message jumps past both.
    channel.process_ack(0);
    assert_eq!(channel.oldest_unacked_message_id(), 16);
    assert!(sequence_greater_than(channel.oldest_unacked_message_id(), last));
    assert_eq!(channel.oldest_unacked_message_id(), channel.send_message_id());
}

#[test]
fn reliable_forgets_packets_older_than_its_buffer() {
    let mut channel = reliable_with(reliable_config(), 1);
    let (data, _) = channel.packet_data(0, 0, PLENTY);
    assert_eq!(ids(&data), vec![0]);
    // Sixteen more packets push packet 0 out of the sent-packet buffer.
    for sequence in 1..=16u16 {
        channel.advance_time(sequence as i64 * 100_000);
        let (data, _) = channel.packet_data(0, sequence, PLENTY);
        assert_eq!(ids(&data), vec![0]);
    }
    channel.process_ack(0);
    assert!(channel.has_messages_to_send());
    channel.process_ack(16);
    assert!(!channel.has_messages_to_send());
}

#[test]
fn reliable_hands_out_in_id_order() {
    let mut channel: Reliable<Byte> = Reliable::new(reliable_config(), 0);
    assert_eq!(
        channel.process_packet_data(incoming(&[(2, 12), (1, 11)]), 0),
        ChannelErrorLevel::NoError
    );
    // Message 0 has not arrived: nothing is handed out.
    assert_eq!(channel.receive_message(), None);
    assert_eq!(channel.receive_message_id(), 0);

    assert_eq!(channel.process_packet_data(incoming(&[(0, 10)]), 1), ChannelErrorLevel::NoError);
    assert_eq!(channel.receive_message(), Some((0, Byte(10))));
    assert_eq!(channel.receive_message(), Some((1, Byte(11))));
    assert_eq!(channel.receive_message(), Some((2, Byte(12))));
    assert_eq!(channel.receive_message(), None);
    assert_eq!(channel.receive_message_id(), 3);
}

#[test]
fn reliable_replay_delivers_at_most_once() {
    let mut channel: Reliable<Byte> = Reliable::new(reliable_config(), 0);
    let packet = [(0u16, 10u8), (1, 11)];

    // A replay before the messages are handed out.
    assert_eq!(channel.process_packet_data(incoming(&packet), 7), ChannelErrorLevel::NoError);
    assert_eq!(channel.process_packet_data(incoming(&packet), 7), ChannelErrorLevel::NoError);
    assert_eq!(channel.receive_message(), Some((0, Byte(10))));
    assert_eq!(channel.receive_message(), Some((1, Byte(11))));
    assert_eq!(channel.receive_message(), None);

    // A replay after the messages were handed out.
    assert_eq!(channel.process_packet_data(incoming(&packet), 7), ChannelErrorLevel::NoError);
    assert_eq!(channel.receive_message(), None);
    assert_eq!(channel.receive_message_id(), 2);
}

#[test]
fn reliable_desyncs_beyond_the_receive_queue() {
    let mut channel: Reliable<Byte> = Reliable::new(reliable_config(), 0);
    // The receive queue has 64 slots: ids 0 to 63 have room.
    assert_eq!(channel.process_packet_data(incoming(&[(63, 1)]), 0), ChannelErrorLevel::NoError);
    assert_eq!(
        channel.process_packet_data(incoming(&[(5, 1), (64, 1), (6, 1)]), 1),
        ChannelErrorLevel::Desync
    );
}

#[test]
fn reliable_reset_starts_over() {
    let mut channel = reliable_with(reliable_config(), 3);
    channel.packet_data(0, 0, PLENTY);
    channel.process_packet_data(incoming(&[(0, 1)]), 0);
    channel.reset();
    assert_eq!(channel.send_message_id(), 0);
    assert_eq!(channel.receive_message_id(), 0);
    assert_eq!(channel.oldest_unacked_message_id(), 0);
    assert!(!channel.has_messages_to_send());
    assert!(channel.can_send_message());
    assert_eq!(channel.receive_message(), None);
}

#[test]
fn reliable_send_queue_fills_up() {
    let mut config = reliable_config();
    config.message_send_queue_size = 4;
    let channel = reliable_with(config, 4);
    assert!(!channel.can_send_message());
}

fn unreliable_config() -> ChannelConfig {
    let mut config = ChannelConfig::new(ChannelType::UnreliableUnordered);
    config.message_send_queue_size = 4;
    config.message_receive_queue_size = 3;
    config.max_messages_per_packet = 2;
    config
}

#[test]
fn unreliable_packs_from_the_front() {
    let config = unreliable_config();
    let mut channel: Unreliable<Byte> = Unreliable::new(&config);
    assert!(!channel.has_messages_to_send());
    for i in 0..4u8 {
        assert!(channel.can_send_message());
        channel.send_message(vec![i; 3]);
    }
    assert!(!channel.can_send_message());
    // A full queue drops what it is given.
    channel.send_message(vec![9; 3]);
    assert!(channel.has_messages_to_send());

    let (data, bits) = channel.packet_data(&config, 1, 77, PLENTY);
    assert_eq!(data.channel_index, 1);
    assert_eq!(data.messages, vec![(77, vec![0; 3]), (77, vec![1; 3])]);
    assert_eq!(bits, 32 + 2 * 24);

    // A message is looked at only while 32 bits are left after the header:
    // with 63 bits there are 31 left, with 64 there are 32.
    let (data, bits) = channel.packet_data(&config, 1, 78, 63);
    assert!(data.messages.is_empty());
    assert_eq!(data.channel_index, usize::MAX);
    assert_eq!(bits, 0);
    let (data, bits) = channel.packet_data(&config, 1, 78, 64);
    assert_eq!(data.messages, vec![(78, vec![2; 3])]);
    assert_eq!(bits, 56);

    // What was not packed is still there.
    let (data, _) = channel.packet_data(&config, 1, 79, PLENTY);
    assert_eq!(data.messages, vec![(79, vec![3; 3])]);
    let (data, bits) = channel.packet_data(&config, 1, 80, PLENTY);
    assert!(data.messages.is_empty());
    assert_eq!(bits, 0);
    assert!(!channel.has_messages_to_send());
}

#[test]
fn unreliable_counts_check_values() {
    let mut config = unreliable_config();
    config.serialize_check = true;
    let mut channel: Unreliable<Byte> = Unreliable::new(&config);
    channel.send_message(vec![1; 3]);
    let (_, bits) = channel.packet_data(&config, 0, 0, PLENTY);
    assert_eq!(bits, 32 + 24 + 32);
}

#[test]
fn unreliable_receive_queue_drops_when_full() {
    let config = unreliable_config();
    let mut channel: Unreliable<Byte> = Unreliable::new(&config);
    channel.process_packet_data(incoming(&[(0, 1), (0, 2)]), 40);
    channel.process_packet_data(incoming(&[(0, 3), (0, 4)]), 41);
    // Messages carry the sequence number of their packet; the fourth found no room.
    assert_eq!(channel.receive_message(), Some((40, Byte(1))));
    assert_eq!(channel.receive_message(), Some((40, Byte(2))));
    assert_eq!(channel.receive_message(), Some((41, Byte(3))));
    assert_eq!(channel.receive_message(), None);

    channel.process_packet_data(incoming(&[(0, 5)]), 42);
    channel.process_ack(42);
    channel.advance_time(5);
    channel.reset();
    assert_eq!(channel.receive_message(), None);
}

#[test]
fn channel_send_queue_full_is_an_error() {
    let mut config = reliable_config();
    config.message_send_queue_size = 16;
    let mut channel: Channel<Byte> = Channel::new(config, 0, 0);
    for i in 0..16 {
        channel.send_message(Byte(i));
        assert_eq!(channel.error_level(), ChannelErrorLevel::NoError);
    }
    assert_eq!(channel.counters().sent, 16);
    assert!(!channel.can_send_message());

    // The 17th message finds no room.
    channel.send_message(Byte(16));
    assert_eq!(channel.error_level(), ChannelErrorLevel::SendQueueFull);
    assert_eq!(channel.counters().sent, 16);
}

#[test]
fn channel_error_is_sticky() {
    let mut channel: Channel<Byte> = Channel::new(reliable_config(), 0, 0);
    channel.send_message(Byte(1));
    channel.process_packet_data(incoming(&[(0, 7)]), 0);
    channel.send_message(Byte(0xff));
    assert_eq!(channel.error_level(), ChannelErrorLevel::FailedToSerialize);
    assert_eq!(channel.counters().sent, 1);

    // Whatever is asked of the channel, the error stays and no work is done.
    channel.send_message(Byte(2));
    assert_eq!(channel.counters().sent, 1);
    assert_eq!(channel.receive_message(), None);
    let (data, bits) = channel.packet_data(0, PLENTY);
    assert!(data.messages.is_empty());
    assert_eq!(bits, 0);
    channel.process_packet_data(incoming(&[(1, 8)]), 1);
    channel.process_ack(0);
    channel.advance_time(1_000_000);
    channel.reset_counters();
    assert_eq!(channel.error_level(), ChannelErrorLevel::FailedToSerialize);

    // Only a reset clears it.
    channel.reset();
    assert_eq!(channel.error_level(), ChannelErrorLevel::NoError);
    assert_eq!(channel.receive_message(), None);
    assert!(!channel.has_messages_to_send());
}

#[test]
fn channel_desync_is_an_error() {
    let mut channel: Channel<Byte> = Channel::new(reliable_config(), 0, 0);
    channel.process_packet_data(incoming(&[(64, 1)]), 0);
    assert_eq!(channel.error_level(), ChannelErrorLevel::Desync);
}

#[test]
fn channel_counts_messages() {
    let mut channel: Channel<Byte> = Channel::new(unreliable_config(), 3, 0);
    channel.send_message(Byte(1));
    channel.send_message(Byte(2));
    channel.process_packet_data(incoming(&[(0, 5)]), 9);
    assert_eq!(channel.receive_message(), Some((9, Byte(5))));
    assert_eq!(channel.receive_message(), None);
    assert_eq!((channel.counters().sent, channel.counters().received), (2, 1));

    let (data, bits) = channel.packet_data(4, PLENTY);
    assert_eq!(data.channel_index, 3);
    assert_eq!(data.messages, vec![(4, vec![1]), (4, vec![2])]);
    assert_eq!(bits, 32 + 16);

    channel.reset_counters();
    assert_eq!((channel.counters().sent, channel.counters().received), (0, 0));

    let mut counters = ChannelCounters { sent: 3, received: 4 };
    counters.reset();
    assert_eq!((counters.sent, counters.received), (0, 0));
    let fresh = ChannelCounters::default();
    assert_eq!((fresh.sent, fresh.received), (0, 0));
}
