//! The unreliable, unordered channel: two bounded queues, pack and forget.

use crate::channel::{
    cap_budget,
    capped_budget,
    check_bits,
    check_value_bits,
    message_bits,
    CONSERVATIVE_MESSAGE_HEADER_BITS,
    GIVE_UP_BITS,
};
use crate::channel::channel_packet_data::{payloads_of, ChannelPacketData};
use crate::config::ChannelConfig;
use std::collections::VecDeque;
use vstd::prelude::*;

verus! {

/// What an unreliable channel holds.
pub struct UnreliableView<M> {
    /// The bodies of the messages that wait to be sent, oldest first.
    pub send_queue: Seq<Seq<u8>>,
    /// The received messages that wait for the application, oldest first, each
    /// with the sequence number of the packet that brought it.
    pub receive_queue: Seq<(u16, M)>,
    /// The most messages that can wait to be sent.
    pub send_capacity: int,
    /// The most received messages that can wait for the application.
    pub receive_capacity: int,
}

/// How many messages from the front of `queue` go into one packet, and the
/// bits used once they are in.
///
/// Packing stops at the end of the queue, at `max_messages`, when fewer than
/// 32 bits are left of `available`, or at the first message that does not fit
/// into what is left. Messages that are not packed stay in the queue. Each
/// message takes the bits of its body and `overhead` bits more.
pub open spec fn packed(
    queue: Seq<Seq<u8>>,
    available: int,
    used: int,
    max_messages: int,
    overhead: int,
) -> (int, int)
    decreases queue.len(),
{
    if queue.len() == 0 || max_messages <= 0 || available - used < GIVE_UP_BITS || used + 8
        * queue[0].len() + overhead > available {
        (0, used)
    } else {
        let (count, bits) = packed(
            queue.skip(1),
            available,
            used + 8 * queue[0].len() + overhead,
            max_messages - 1,
            overhead,
        );
        (count + 1, bits)
    }
}

/// The first `count` bodies of `queue` as the messages of a packet, each
/// under the id `packet_sequence`.
pub open spec fn tagged(queue: Seq<Seq<u8>>, count: int, packet_sequence: u16) -> Seq<
    (u16, Seq<u8>),
> {
    Seq::new(count as nat, |i: int| (packet_sequence, queue[i]))
}

impl<M> UnreliableView<M> {
    /// The number of messages that the next packet takes, given the bits that
    /// are left of it.
    pub open spec fn packed_count(self, config: ChannelConfig, available_bits: int) -> int {
        packed(
            self.send_queue,
            capped_budget(available_bits, config.packet_budget),
            CONSERVATIVE_MESSAGE_HEADER_BITS as int,
            config.max_messages_per_packet as int,
            check_bits(config.serialize_check),
        ).0
    }

    /// The bits that the next packet uses for this channel, its own header
    /// allowance of 32 bits included, or 0 if it takes no message.
    pub open spec fn packed_bits(self, config: ChannelConfig, available_bits: int) -> int {
        if self.packed_count(config, available_bits) == 0 {
            0
        } else {
            packed(
                self.send_queue,
                capped_budget(available_bits, config.packet_budget),
                CONSERVATIVE_MESSAGE_HEADER_BITS as int,
                config.max_messages_per_packet as int,
                check_bits(config.serialize_check),
            ).1
        }
    }

    /// The channel after the messages of a received packet have been queued
    /// under `packet_sequence`: as many as the receive queue has room for, the
    /// rest is dropped.
    pub open spec fn received(self, messages: Seq<(u16, M)>, packet_sequence: u16) -> Self {
        let room = if self.receive_capacity > self.receive_queue.len() {
            self.receive_capacity - self.receive_queue.len()
        } else {
            0
        };
        let count = if messages.len() < room {
            messages.len() as int
        } else {
            room
        };
        UnreliableView {
            receive_queue: self.receive_queue + Seq::new(
                count as nat,
                |i: int| (packet_sequence, messages[i].1),
            ),
            ..self
        }
    }
}

/// Messages sent across this channel are not guaranteed to arrive, and may be
/// received in a different order than they were sent. This channel type is
/// best used for time critical data like snapshots and object state.
pub struct Unreliable<M> {
    message_send_queue: VecDeque<Vec<u8>>,
    message_receive_queue: VecDeque<(u16, M)>,
    send_capacity: usize,
    receive_capacity: usize,
}

impl<M> View for Unreliable<M> {
    type V = UnreliableView<M>;

    closed spec fn view(&self) -> UnreliableView<M> {
        UnreliableView {
            send_queue: self.message_send_queue@.map_values(|body: Vec<u8>| body@),
            receive_queue: self.message_receive_queue@,
            send_capacity: self.send_capacity as int,
            receive_capacity: self.receive_capacity as int,
        }
    }
}

impl<M> Unreliable<M> {
    /// An unreliable channel with empty queues of the configured sizes.
    pub fn new(config: &ChannelConfig) -> (channel: Unreliable<M>)
        ensures
            channel@.send_queue.len() == 0,
            channel@.receive_queue.len() == 0,
            channel@.send_capacity == config.message_send_queue_size,
            channel@.receive_capacity == config.message_receive_queue_size,
    {
        Unreliable {
            message_send_queue: VecDeque::new(),
            message_receive_queue: VecDeque::new(),
            send_capacity: config.message_send_queue_size,
            receive_capacity: config.message_receive_queue_size,
        }
    }

    /// Time means nothing to an unreliable channel.
    pub fn advance_time(&mut self, _new_time: i64)
        ensures
            final(self)@ == old(self)@,
    {
    }

    /// Empties both queues.
    pub fn reset(&mut self)
        ensures
            final(self)@ == (UnreliableView {
                send_queue: Seq::empty(),
                receive_queue: Seq::empty(),
                ..old(self)@
            }),
    {
        self.message_send_queue.clear();
        self.message_receive_queue.clear();
        assert(self@.send_queue =~= Seq::<Seq<u8>>::empty());
    }

    /// Whether the send queue has room for one more message.
    pub fn can_send_message(&self) -> (room: bool)
        ensures
            room == (self@.send_queue.len() < self@.send_capacity),
    {
        self.message_send_queue.len() < self.send_capacity
    }

    /// Whether a message waits to be sent.
    pub fn has_messages_to_send(&self) -> (waiting: bool)
        ensures
            waiting == (self@.send_queue.len() > 0),
    {
        self.message_send_queue.len() > 0
    }

    /// Queues the body of a message for sending. A full queue drops it.
    pub fn send_message(&mut self, message: Vec<u8>)
        ensures
            final(self)@ == (if old(self)@.send_queue.len() < old(self)@.send_capacity {
                UnreliableView { send_queue: old(self)@.send_queue.push(message@), ..old(self)@ }
            } else {
                old(self)@
            }),
    {
        if self.message_send_queue.len() < self.send_capacity {
            self.message_send_queue.push_back(message);
            assert(self@.send_queue =~= old(self)@.send_queue.push(message@));
        }
    }

    /// Hands out the oldest received message, with the sequence number of the
    /// packet that brought it.
    pub fn receive_message(&mut self) -> (message: Option<(u16, M)>)
        ensures
            match message {
                Some(m) => {
                    &&& old(self)@.receive_queue.len() > 0
                    &&& m == old(self)@.receive_queue[0]
                    &&& final(self)@ == (UnreliableView {
                        receive_queue: old(self)@.receive_queue.skip(1),
                        ..old(self)@
                    })
                },
                None => old(self)@.receive_queue.len() == 0 && final(self)@ == old(self)@,
            },
    {
        let message = self.message_receive_queue.pop_front();
        proof {
            if message is Some {
                assert(self@.receive_queue =~= old(self)@.receive_queue.skip(1));
            }
        }
        message
    }

    /// Takes messages off the front of the send queue for the packet
    /// `packet_sequence`, as many as fit into `available_bits` and the
    /// channel's own limits, and returns them with the bits they use. With no
    /// message taken the packet data is empty and the bits are 0.
    pub fn packet_data(
        &mut self,
        config: &ChannelConfig,
        channel_index: usize,
        packet_sequence: u16,
        available_bits: usize,
    ) -> (result: (ChannelPacketData<Vec<u8>>, usize))
        ensures
            ({
                let count = old(self)@.packed_count(*config, available_bits as int);
                &&& 0 <= count <= old(self)@.send_queue.len()
                &&& count <= config.max_messages_per_packet
                &&& result.0.payloads() == tagged(old(self)@.send_queue, count, packet_sequence)
                &&& result.0.channel_index == if count == 0 {
                    usize::MAX
                } else {
                    channel_index
                }
                &&& result.1 == old(self)@.packed_bits(*config, available_bits as int)
                &&& result.1 <= available_bits
                &&& result.0.messages@.len() == count
                &&& result.0.payloads().len() == count
                &&& count > 0 ==> result.1 == CONSERVATIVE_MESSAGE_HEADER_BITS + message_bits(
                    result.0.payloads(),
                    check_bits(config.serialize_check),
                )
                &&& final(self)@ == (UnreliableView {
                    send_queue: old(self)@.send_queue.skip(count),
                    ..old(self)@
                })
            }),
    {
        let available: usize = cap_budget(available_bits, config.packet_budget);
        let mut used_bits: usize = CONSERVATIVE_MESSAGE_HEADER_BITS;
        let mut messages: Vec<(u16, Vec<u8>)> = Vec::new();
        let ghost queue = self@.send_queue;
        let overhead: usize = check_value_bits(config.serialize_check);
        let ghost goal = packed(
            queue,
            available as int,
            CONSERVATIVE_MESSAGE_HEADER_BITS as int,
            config.max_messages_per_packet as int,
            overhead as int,
        );
        assert(queue.skip(0) =~= queue);
        assert(payloads_of(messages@) =~= tagged(queue, 0, packet_sequence));
        loop
            invariant
                available <= available_bits,
                messages@.len() <= queue.len(),
                self@ == (UnreliableView { send_queue: queue.skip(messages@.len() as int), ..old(self)@ }),
                queue == old(self)@.send_queue,
                payloads_of(messages@) == tagged(queue, messages@.len() as int, packet_sequence),
                messages@.len() <= config.max_messages_per_packet,
                used_bits >= CONSERVATIVE_MESSAGE_HEADER_BITS,
                messages@.len() > 0 ==> used_bits <= available,
                used_bits == CONSERVATIVE_MESSAGE_HEADER_BITS + message_bits(
                    payloads_of(messages@),
                    overhead as int,
                ),
                overhead == check_bits(config.serialize_check),
                ({
                    let (count, bits) = packed(
                        queue.skip(messages@.len() as int),
                        available as int,
                        used_bits as int,
                        config.max_messages_per_packet - messages@.len(),
                        overhead as int,
                    );
                    goal == (messages@.len() + count, bits)
                }),
            ensures
                messages@.len() <= queue.len(),
                self@ == (UnreliableView { send_queue: queue.skip(messages@.len() as int), ..old(self)@ }),
                payloads_of(messages@) == tagged(queue, messages@.len() as int, packet_sequence),
                messages@.len() <= config.max_messages_per_packet,
                messages@.len() > 0 ==> used_bits <= available,
                overhead == check_bits(config.serialize_check),
                used_bits == CONSERVATIVE_MESSAGE_HEADER_BITS + message_bits(
                    payloads_of(messages@),
                    overhead as int,
                ),
                goal == (messages@.len() as int, used_bits as int),
            decreases queue.len() - messages@.len(),
        {
            let ghost left = queue.skip(messages@.len() as int);
            if self.message_send_queue.len() == 0 {
                break ;
            }
            if messages.len() >= config.max_messages_per_packet {
                break ;
            }
            if used_bits > available || available - used_bits < GIVE_UP_BITS {
                break ;
            }
            let room: usize = available - used_bits;
            let length: usize = self.message_send_queue[0].len();
            assert(length == left[0].len());
            if room < overhead || length > (room - overhead) / 8 {
                break ;
            }
            let message = match self.message_send_queue.pop_front() {
                Some(message) => message,
                None => { break ; },
            };
            used_bits = used_bits + 8 * length + overhead;
            let ghost before = messages@;
            messages.push((packet_sequence, message));
            proof {
                assert(message@ == left[0]);
                assert(left[0] == queue[before.len() as int]);
                assert(left.skip(1) =~= queue.skip(messages@.len() as int));
                assert(self@.send_queue =~= queue.skip(messages@.len() as int));
                assert(payloads_of(messages@) =~= payloads_of(before).push(
                    (packet_sequence, message@),
                ));
                assert(payloads_of(messages@).drop_last() =~= payloads_of(before));
                assert(payloads_of(messages@) =~= tagged(
                    queue,
                    messages@.len() as int,
                    packet_sequence,
                ));
            }
        }
        if messages.len() == 0 {
            let empty = ChannelPacketData::empty();
            assert(empty.payloads() =~= tagged(queue, 0, packet_sequence));
            return (empty, 0);
        }
        (ChannelPacketData { channel_index, messages }, used_bits)
    }

    /// Queues the messages of a received packet for the application, each
    /// under the sequence number of the packet. When the receive queue is
    /// full, the rest of the messages is dropped.
    pub fn process_packet_data(&mut self, packet_data: ChannelPacketData<M>, packet_sequence: u16)
        ensures
            final(self)@ == old(self)@.received(packet_data.messages@, packet_sequence),
    {
        let ghost all = packet_data.messages@;
        let ghost mut queued: int = 0;
        assert(self@.receive_queue =~= old(self)@.receive_queue + Seq::new(
            0nat,
            |i: int| (packet_sequence, all[i].1),
        ));
        for item in it: packet_data.messages.into_iter()
            invariant
                it.seq() == all,
                0 <= queued <= it.index() <= all.len(),
                self@.send_queue == old(self)@.send_queue,
                self@.send_capacity == old(self)@.send_capacity,
                self@.receive_capacity == old(self)@.receive_capacity,
                self@.receive_queue == old(self)@.receive_queue + Seq::new(
                    queued as nat,
                    |i: int| (packet_sequence, all[i].1),
                ),
                self@.receive_queue.len() == old(self)@.receive_queue.len() + queued,
                queued < it.index() ==> self@.receive_queue.len() >= self@.receive_capacity,
                queued > 0 ==> self@.receive_queue.len() <= self@.receive_capacity,
        {
            let (_, message) = item;
            if self.message_receive_queue.len() < self.receive_capacity {
                self.message_receive_queue.push_back((packet_sequence, message));
                proof {
                    assert(self@.receive_queue =~= old(self)@.receive_queue + Seq::new(
                        (queued + 1) as nat,
                        |i: int| (packet_sequence, all[i].1),
                    ));
                    queued = queued + 1;
                }
            }
        }
        assert(self@.receive_queue =~= old(self)@.received(all, packet_sequence).receive_queue);
    }

    /// Acks mean nothing to an unreliable channel.
    pub fn process_ack(&mut self, _ack: u16)
        ensures
            final(self)@ == old(self)@,
    {
    }
}

} // verus!
