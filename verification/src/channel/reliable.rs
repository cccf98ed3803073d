//! The reliable, ordered channel.
//!
//! Every message gets a 16-bit id. A message stays in the send queue, and is
//! sent again and again, until a packet that carried it is acked. The channel
//! remembers for each sent packet which message ids went into it, so that the
//! ack of a packet can be turned into the acks of its messages. The receiver
//! queues messages by id and hands them out in id order.

use crate::channel::{
    cap_budget,
    capped_budget,
    check_bits,
    check_value_bits,
    message_bits,
    ChannelErrorLevel,
    CONSERVATIVE_MESSAGE_HEADER_BITS,
    GIVE_UP_BITS,
};
use crate::channel::channel_packet_data::{payloads_of, ChannelPacketData};
use crate::channel::sequence_buffer::{
    lemma_distance,
    lemma_distance_chain,
    lemma_distance_step,
    sequence_add,
    sequence_distance,
    sequence_greater_than,
    sequence_less_than,
    SequenceBuffer,
    SequenceBufferView,
};
use crate::config::{ChannelConfig, ChannelType};
use vstd::prelude::*;

verus! {

/// The time that a message that was never sent counts as last sent at: one
/// second before time zero.
pub const NEVER_SENT: i64 = -1_000_000;

/// The bits that the id of a message takes in a packet.
pub const MESSAGE_ID_BITS: usize = 16;

/// A message that waits in the send queue to be acked.
pub struct MessageSendQueueEntry {
    pub message_id: u16,
    /// The body of the message as it goes on the wire.
    pub message: Vec<u8>,
    /// When the message was last put into a packet (microseconds).
    pub time_last_sent: i64,
    /// The size of the body in bits.
    pub measured_bits: usize,
}

/// A received message that waits for its turn to be handed out.
pub struct MessageReceiveQueueEntry<M> {
    pub message_id: u16,
    pub message: M,
}

/// What the channel remembers of a packet that it has put messages into.
#[derive(Clone, Copy)]
pub struct SentPacketEntry {
    /// The time the packet was sent (microseconds).
    pub time_sent: i64,
    /// Where the ids of the packet's messages stand in the flat id buffer:
    /// start index and run length.
    pub message_ids: (usize, usize),
    /// True if this packet has been acked.
    pub acked: bool,
}

/// How far the choice of messages for one packet has come.
pub struct Selection {
    /// The ids of the messages taken so far, in the order they were taken.
    pub ids: Seq<u16>,
    /// The bits used so far, header included.
    pub used_bits: int,
    /// How many due messages did not fit.
    pub give_up_counter: int,
    /// The send queue, in which the messages taken count as sent now.
    pub queue: SequenceBufferView<MessageSendQueueEntry>,
}

/// What a reliable channel holds.
pub struct ReliableView<M> {
    /// The current time (microseconds).
    pub time: i64,
    pub config: ChannelConfig,
    /// Id of the next message to be added to the send queue.
    pub send_message_id: u16,
    /// Id of the next message to be handed to the application.
    pub receive_message_id: u16,
    /// Id of the oldest message in the send queue that is not acked yet.
    pub oldest_unacked_message_id: u16,
    /// The message ids of the sent packets, one stride of
    /// `max_messages_per_packet` ids per slot of `sent_packets`.
    pub sent_packet_message_ids: Seq<u16>,
    pub sent_packets: SequenceBufferView<SentPacketEntry>,
    pub message_send_queue: SequenceBufferView<MessageSendQueueEntry>,
    pub message_receive_queue: SequenceBufferView<MessageReceiveQueueEntry<M>>,
}

impl<M> ReliableView<M> {
    /// The buffers have the configured sizes, the send queue's cursor is the
    /// next message id, and every entry agrees with the key it is stored under:
    /// a message with its id and its size in bits, a sent packet with its
    /// stride of the flat id buffer.
    pub open spec fn wf(self) -> bool {
        &&& self.config.valid()
        &&& self.config.kind == ChannelType::ReliableOrdered
        &&& self.sent_packets.wf()
        &&& self.message_send_queue.wf()
        &&& self.message_receive_queue.wf()
        &&& self.sent_packets.capacity() == self.config.sent_packet_buffer_size
        &&& self.message_send_queue.capacity() == self.config.message_send_queue_size
        &&& self.message_receive_queue.capacity() == self.config.message_receive_queue_size
        &&& self.sent_packet_message_ids.len() == self.config.max_messages_per_packet
            * self.config.sent_packet_buffer_size
        &&& self.message_send_queue.sequence == self.send_message_id
        &&& forall|i: int|
            0 <= i < self.message_send_queue.capacity() ==> match #[trigger] self.message_send_queue.slots[i] {
                Some((k, e)) => e.message_id == k && e.measured_bits == 8 * e.message@.len(),
                None => true,
            }
        &&& forall|i: int|
            0 <= i < self.message_receive_queue.capacity() ==> match #[trigger] self.message_receive_queue.slots[i] {
                Some((k, e)) => e.message_id == k,
                None => true,
            }
        &&& forall|i: int|
            0 <= i < self.sent_packets.capacity() ==> match #[trigger] self.sent_packets.slots[i] {
                Some((k, e)) => e.message_ids.0 == i * self.config.max_messages_per_packet
                    && e.message_ids.1 <= self.config.max_messages_per_packet,
                None => true,
            }
    }

    /// Whether any message waits to be acked.
    pub open spec fn has_messages_to_send(self) -> bool {
        self.oldest_unacked_message_id != self.send_message_id
    }

    /// Whether the slot of the next message id is free in the send queue.
    pub open spec fn can_send_message(self) -> bool {
        self.message_send_queue.available(self.send_message_id)
    }

    /// The channel after `message` has been queued under the next message id.
    pub open spec fn sent(self, message: Vec<u8>) -> Self {
        ReliableView {
            send_message_id: sequence_add(self.send_message_id, 1),
            message_send_queue: self.message_send_queue.insert(
                self.send_message_id,
                MessageSendQueueEntry {
                    message_id: self.send_message_id,
                    message,
                    time_last_sent: NEVER_SENT,
                    measured_bits: (8 * message@.len()) as usize,
                },
            ),
            ..self
        }
    }

    /// The message that the application gets next, if it has arrived.
    pub open spec fn next_message(self) -> Option<(u16, M)> {
        match self.message_receive_queue.get(self.receive_message_id) {
            Some(entry) => Some((entry.message_id, entry.message)),
            None => None,
        }
    }

    /// The channel after the next message has been handed out, if it has arrived.
    pub open spec fn received(self) -> Self {
        if self.message_receive_queue.contains(self.receive_message_id) {
            ReliableView {
                receive_message_id: sequence_add(self.receive_message_id, 1),
                message_receive_queue: self.message_receive_queue.take(self.receive_message_id),
                ..self
            }
        } else {
            self
        }
    }

    /// The number of message ids, from the oldest unacked one on, that the
    /// channel looks at for one packet: the smaller of the two queue sizes.
    pub open spec fn message_limit(self) -> int {
        if self.message_receive_queue.capacity() < self.message_send_queue.capacity() {
            self.message_receive_queue.capacity()
        } else {
            self.message_send_queue.capacity()
        }
    }

    /// The bits that a message takes in a packet beside its body: its id, and
    /// its check value if the channel writes check values.
    pub open spec fn message_overhead(self) -> int {
        MESSAGE_ID_BITS + check_bits(self.config.serialize_check)
    }

    /// The bits that a packet with messages takes beside the messages: the
    /// channel's header allowance, and the check value after the ids.
    pub open spec fn header_bits(self) -> int {
        CONSERVATIVE_MESSAGE_HEADER_BITS + check_bits(self.config.serialize_check)
    }

    /// A message is due when its resend time has passed since it was last
    /// sent, and its body alone would fit into the bits available.
    pub open spec fn is_due(self, entry: MessageSendQueueEntry, available: int) -> bool {
        entry.time_last_sent + self.config.message_resend_time <= self.time && available
            >= entry.measured_bits
    }

    /// Where the choice of messages for a packet ends up, from the `i`-th id
    /// after the oldest unacked one on, having come as far as `s`.
    ///
    /// The walk ends at the message limit, when fewer than 32 bits are left,
    /// when the give-up counter has passed the send queue's size, or when the
    /// packet is full. An id without a message, or whose message is not due,
    /// is passed over. A due message that does not fit any more counts towards
    /// giving up. A due message that fits is taken: its id is noted, its bits
    /// are used, and it counts as sent now.
    pub open spec fn select_from(self, available: int, i: int, s: Selection) -> Selection
        decreases self.message_limit() - i,
    {
        if i >= self.message_limit() || available - s.used_bits < GIVE_UP_BITS || s.give_up_counter
            > self.message_send_queue.capacity() {
            s
        } else {
            let id = sequence_add(self.oldest_unacked_message_id, i);
            match s.queue.get(id) {
                None => self.select_from(available, i + 1, s),
                Some(entry) => if !self.is_due(entry, available) {
                    self.select_from(available, i + 1, s)
                } else if s.used_bits + entry.measured_bits + self.message_overhead() > available {
                    self.select_from(
                        available,
                        i + 1,
                        Selection { give_up_counter: s.give_up_counter + 1, ..s },
                    )
                } else {
                    let taken = Selection {
                        ids: s.ids.push(id),
                        used_bits: s.used_bits + entry.measured_bits + self.message_overhead(),
                        give_up_counter: s.give_up_counter,
                        queue: s.queue.replace(
                            id,
                            MessageSendQueueEntry { time_last_sent: self.time, ..entry },
                        ),
                    };
                    if taken.ids.len() >= self.config.max_messages_per_packet {
                        taken
                    } else {
                        self.select_from(available, i + 1, taken)
                    }
                },
            }
        }
    }

    /// The choice of messages for a packet that has `available_bits` left.
    pub open spec fn selection(self, available_bits: int) -> Selection {
        self.select_from(
            capped_budget(available_bits, self.config.packet_budget),
            0,
            Selection {
                ids: Seq::empty(),
                used_bits: self.header_bits(),
                give_up_counter: 0,
                queue: self.message_send_queue,
            },
        )
    }

    /// The messages with the given ids as they go into a packet: each id with
    /// the body that the send queue holds under it.
    pub open spec fn messages_of(self, ids: Seq<u16>) -> Seq<(u16, Seq<u8>)> {
        Seq::new(ids.len(), |j: int| (ids[j], self.message_send_queue.get(ids[j]).unwrap().message@))
    }

    /// Where the ids of the packet `packet_sequence` start in the flat id buffer.
    pub open spec fn stride_start(self, packet_sequence: u16) -> int {
        self.sent_packets.index_of(packet_sequence) * self.config.max_messages_per_packet
    }

    /// The channel after it has noted that the messages `ids` went into the
    /// packet `packet_sequence`. A packet too old for the sent-packet buffer
    /// is not noted.
    pub open spec fn recorded(self, ids: Seq<u16>, packet_sequence: u16) -> Self {
        if self.sent_packets.accepts(packet_sequence) {
            let start = self.stride_start(packet_sequence);
            ReliableView {
                sent_packets: self.sent_packets.insert(
                    packet_sequence,
                    SentPacketEntry {
                        time_sent: self.time,
                        message_ids: (start as usize, ids.len() as usize),
                        acked: false,
                    },
                ),
                sent_packet_message_ids: Seq::new(
                    self.sent_packet_message_ids.len(),
                    |j: int|
                        if start <= j < start + ids.len() {
                            ids[j - start]
                        } else {
                            self.sent_packet_message_ids[j]
                        },
                ),
                ..self
            }
        } else {
            self
        }
    }

    /// The channel after it has made its share of the packet `packet_sequence`
    /// out of `available_bits`: the chosen messages count as sent now, and the
    /// packet is noted with their ids.
    pub open spec fn packed(self, packet_sequence: u16, available_bits: int) -> Self {
        if !self.has_messages_to_send() {
            self
        } else {
            let s = self.selection(available_bits);
            let chosen = ReliableView { message_send_queue: s.queue, ..self };
            if s.ids.len() == 0 {
                chosen
            } else {
                chosen.recorded(s.ids, packet_sequence)
            }
        }
    }

    /// The messages of the channel's share of a packet out of `available_bits`.
    pub open spec fn packed_messages(self, available_bits: int) -> Seq<(u16, Seq<u8>)> {
        if !self.has_messages_to_send() {
            Seq::empty()
        } else {
            let s = self.selection(available_bits);
            (ReliableView { message_send_queue: s.queue, ..self }).messages_of(s.ids)
        }
    }

    /// The bits that the channel's share of a packet uses, or 0 for a share
    /// without messages.
    pub open spec fn packed_bits(self, available_bits: int) -> int {
        if !self.has_messages_to_send() || self.selection(available_bits).ids.len() == 0 {
            0
        } else {
            self.selection(available_bits).used_bits
        }
    }

    /// The last message id that the receive queue has room for.
    pub open spec fn max_receivable_id(self) -> u16 {
        sequence_add(self.receive_message_id, self.message_receive_queue.capacity() - 1)
    }

    /// The channel after one received message, and whether the message put the
    /// channel out of sync.
    ///
    /// A message older than the next one to hand out is a resend of a message
    /// that was handed out already, and is dropped. A message beyond the room
    /// of the receive queue, or one that the receive queue refuses, means that
    /// the receiver has fallen behind. Any other message is queued under its id.
    pub open spec fn process_message(self, id: u16, message: M) -> (Self, bool) {
        if sequence_less_than(id, self.receive_message_id) {
            (self, false)
        } else if sequence_greater_than(id, self.max_receivable_id()) {
            (self, true)
        } else if !self.message_receive_queue.accepts(id) {
            (self, true)
        } else {
            (
                ReliableView {
                    message_receive_queue: self.message_receive_queue.insert(
                        id,
                        MessageReceiveQueueEntry { message_id: id, message },
                    ),
                    ..self
                },
                false,
            )
        }
    }

    /// The channel after the messages of a received packet, in order, and the
    /// error that they leave it in. The first message that puts the channel
    /// out of sync ends the processing.
    #[verifier::opaque]
    pub open spec fn processed(self, messages: Seq<(u16, M)>) -> (Self, ChannelErrorLevel)
        decreases messages.len(),
    {
        if messages.len() == 0 {
            (self, ChannelErrorLevel::NoError)
        } else {
            let (next, desync) = self.process_message(messages[0].0, messages[0].1);
            if desync {
                (next, ChannelErrorLevel::Desync)
            } else {
                next.processed(messages.skip(1))
            }
        }
    }

    /// Processing no message changes nothing; processing some messages is
    /// processing the first and then, unless it put the channel out of sync,
    /// the rest.
    pub proof fn lemma_processed_step(self, messages: Seq<(u16, M)>)
        ensures
            messages.len() == 0 ==> self.processed(messages) == (self, ChannelErrorLevel::NoError),
            messages.len() > 0 ==> self.processed(messages) == (if self.process_message(
                messages[0].0,
                messages[0].1,
            ).1 {
                (
                    self.process_message(messages[0].0, messages[0].1).0,
                    ChannelErrorLevel::Desync,
                )
            } else {
                self.process_message(messages[0].0, messages[0].1).0.processed(messages.skip(1))
            }),
    {
        reveal_with_fuel(ReliableView::processed, 2);
    }

    /// The channel after the message `id` has been acked: it leaves the send
    /// queue, and the oldest unacked id moves on to the next message that is
    /// still queued. A message that has left already changes nothing.
    pub open spec fn ack_message(self, id: u16) -> Self {
        if self.message_send_queue.contains(id) {
            let queue = self.message_send_queue.take(id);
            ReliableView {
                message_send_queue: queue,
                oldest_unacked_message_id: advance_oldest(queue, self.oldest_unacked_message_id),
                ..self
            }
        } else {
            self
        }
    }

    /// The channel after the messages `ids` have been acked, in order.
    pub open spec fn ack_messages(self, ids: Seq<u16>) -> Self
        decreases ids.len(),
    {
        if ids.len() == 0 {
            self
        } else {
            self.ack_message(ids[0]).ack_messages(ids.skip(1))
        }
    }

    /// The message ids that the sent packet `entry` carried.
    pub open spec fn ids_of(self, entry: SentPacketEntry) -> Seq<u16> {
        self.sent_packet_message_ids.subrange(
            entry.message_ids.0 as int,
            entry.message_ids.0 + entry.message_ids.1,
        )
    }

    /// The channel after the packet `ack` has been acked. A packet that the
    /// channel does not remember changes nothing: it is too old, or carried
    /// nothing of this channel. Else the packet is marked as acked and its
    /// messages are acked.
    pub open spec fn acked(self, ack: u16) -> Self {
        match self.sent_packets.get(ack) {
            None => self,
            Some(entry) => (ReliableView {
                sent_packets: self.sent_packets.replace(
                    ack,
                    SentPacketEntry { acked: true, ..entry },
                ),
                ..self
            }).ack_messages(self.ids_of(entry)),
        }
    }

    /// The channel in its initial state, at the same time and with the same
    /// configuration. The flat id buffer keeps what it holds.
    pub open spec fn reset(self) -> Self {
        ReliableView {
            send_message_id: 0,
            receive_message_id: 0,
            oldest_unacked_message_id: 0,
            sent_packets: self.sent_packets.reset(),
            message_send_queue: self.message_send_queue.reset(),
            message_receive_queue: self.message_receive_queue.reset(),
            ..self
        }
    }
}

/// Messages sent across this channel arrive, and in the order they were sent.
pub struct Reliable<M> {
    time: i64,
    config: ChannelConfig,
    send_message_id: u16,
    receive_message_id: u16,
    oldest_unacked_message_id: u16,
    sent_packet_message_ids: Vec<u16>,
    sent_packets: SequenceBuffer<SentPacketEntry>,
    message_send_queue: SequenceBuffer<MessageSendQueueEntry>,
    message_receive_queue: SequenceBuffer<MessageReceiveQueueEntry<M>>,
}

impl<M> View for Reliable<M> {
    type V = ReliableView<M>;

    closed spec fn view(&self) -> ReliableView<M> {
        ReliableView {
            time: self.time,
            config: self.config,
            send_message_id: self.send_message_id,
            receive_message_id: self.receive_message_id,
            oldest_unacked_message_id: self.oldest_unacked_message_id,
            sent_packet_message_ids: self.sent_packet_message_ids@,
            sent_packets: self.sent_packets@,
            message_send_queue: self.message_send_queue@,
            message_receive_queue: self.message_receive_queue@,
        }
    }
}

impl<M> Reliable<M> {
    /// The representation is consistent, and so is what it stands for.
    pub closed spec fn wf(&self) -> bool {
        &&& self.sent_packets.wf()
        &&& self.message_send_queue.wf()
        &&& self.message_receive_queue.wf()
        &&& self@.wf()
    }

    /// A consistent channel has a well-formed view.
    pub proof fn lemma_wf_view(&self)
        requires
            self.wf(),
        ensures
            self@.wf(),
    {
    }

    /// A reliable channel with empty queues, at the given time.
    pub fn new(config: ChannelConfig, time: i64) -> (channel: Reliable<M>)
        requires
            config.valid(),
            config.kind == ChannelType::ReliableOrdered,
        ensures
            channel.wf(),
            channel@.time == time,
            channel@.config == config,
            channel@.send_message_id == 0,
            channel@.receive_message_id == 0,
            channel@.oldest_unacked_message_id == 0,
            channel@.sent_packets == channel@.sent_packets.reset(),
            channel@.message_send_queue == channel@.message_send_queue.reset(),
            channel@.message_receive_queue == channel@.message_receive_queue.reset(),
    {
        let sent_packets: SequenceBuffer<SentPacketEntry> = SequenceBuffer::new(
            config.sent_packet_buffer_size,
        );
        assert(config.max_messages_per_packet * config.sent_packet_buffer_size <= 256 * 65535)
            by (nonlinear_arith)
            requires
                config.max_messages_per_packet <= 256,
                config.sent_packet_buffer_size <= 65535,
        ;
        let total: usize = config.max_messages_per_packet * config.sent_packet_buffer_size;
        let mut sent_packet_message_ids: Vec<u16> = Vec::new();
        let mut i: usize = 0;
        while i < total
            invariant
                i <= total,
                sent_packet_message_ids@.len() == i,
            decreases total - i,
        {
            sent_packet_message_ids.push(0);
            i += 1;
        }
        let message_send_queue: SequenceBuffer<MessageSendQueueEntry> = SequenceBuffer::new(
            config.message_send_queue_size,
        );
        let message_receive_queue: SequenceBuffer<MessageReceiveQueueEntry<M>> =
            SequenceBuffer::new(config.message_receive_queue_size);
        let channel = Reliable {
            time,
            config,
            send_message_id: 0,
            receive_message_id: 0,
            oldest_unacked_message_id: 0,
            sent_packet_message_ids,
            sent_packets,
            message_send_queue,
            message_receive_queue,
        };
        proof {
            channel.sent_packets.lemma_wf_view();
            channel.message_send_queue.lemma_wf_view();
            channel.message_receive_queue.lemma_wf_view();
            assert(channel@.sent_packets.slots =~= channel@.sent_packets.reset().slots);
            assert(channel@.message_send_queue.slots =~= channel@.message_send_queue.reset().slots);
            assert(channel@.message_receive_queue.slots
                =~= channel@.message_receive_queue.reset().slots);
        }
        channel
    }

    /// Stores the new time.
    pub fn advance_time(&mut self, new_time: i64)
        requires
            old(self).wf(),
        ensures
            final(self).wf(),
            final(self)@ == (ReliableView { time: new_time, ..old(self)@ }),
    {
        self.time = new_time;
    }

    /// Puts the channel back into its initial state.
    pub fn reset(&mut self)
        requires
            old(self).wf(),
        ensures
            final(self).wf(),
            final(self)@ == old(self)@.reset(),
    {
        self.send_message_id = 0;
        self.receive_message_id = 0;
        self.oldest_unacked_message_id = 0;
        self.sent_packets.reset();
        self.message_send_queue.reset();
        self.message_receive_queue.reset();
        proof {
            self.sent_packets.lemma_wf_view();
            self.message_send_queue.lemma_wf_view();
            self.message_receive_queue.lemma_wf_view();
        }
    }

    /// Id of the next message to be added to the send queue.
    pub fn send_message_id(&self) -> (id: u16)
        ensures
            id == self@.send_message_id,
    {
        self.send_message_id
    }

    /// Id of the next message to be handed to the application.
    pub fn receive_message_id(&self) -> (id: u16)
        ensures
            id == self@.receive_message_id,
    {
        self.receive_message_id
    }

    /// Id of the oldest message in the send queue that is not acked yet.
    pub fn oldest_unacked_message_id(&self) -> (id: u16)
        ensures
            id == self@.oldest_unacked_message_id,
    {
        self.oldest_unacked_message_id
    }

    /// There are messages to send if the oldest unacked message id is not the
    /// next message id.
    pub fn has_messages_to_send(&self) -> (waiting: bool)
        ensures
            waiting == self@.has_messages_to_send(),
    {
        self.oldest_unacked_message_id != self.send_message_id
    }

    /// New messages can be sent if the slot of the next message id is free in
    /// the send queue.
    pub fn can_send_message(&self) -> (room: bool)
        requires
            self.wf(),
        ensures
            room == self@.can_send_message(),
    {
        self.message_send_queue.available(self.send_message_id)
    }

    /// Queues the body of a message under the next message id.
    pub fn send_message(&mut self, message: Vec<u8>)
        requires
            old(self).wf(),
            old(self)@.can_send_message(),
            8 * message@.len() <= usize::MAX,
        ensures
            final(self).wf(),
            final(self)@ == old(self)@.sent(message),
            final(self)@.message_send_queue.get(old(self)@.send_message_id) is Some,
    {
        let length: usize = message.len();
        let entry = MessageSendQueueEntry {
            message_id: self.send_message_id,
            message,
            time_last_sent: NEVER_SENT,
            measured_bits: 8 * length,
        };
        proof {
            self.message_send_queue.lemma_wf_view();
        }
        let inserted = self.message_send_queue.insert(self.send_message_id, entry);
        assert(inserted);
        self.send_message_id = self.send_message_id.wrapping_add(1);
        proof {
            self.message_send_queue.lemma_wf_view();
        }
    }

    /// Hands out the message with the next id, if it has arrived.
    pub fn receive_message(&mut self) -> (message: Option<(u16, M)>)
        requires
            old(self).wf(),
        ensures
            final(self).wf(),
            message == old(self)@.next_message(),
            final(self)@ == old(self)@.received(),
            message matches Some((id, _)) ==> id == old(self)@.receive_message_id,
    {
        proof {
            self.message_receive_queue.lemma_wf_view();
        }
        let entry = match self.message_receive_queue.take(self.receive_message_id) {
            Some(entry) => entry,
            None => { return None; },
        };
        self.receive_message_id = self.receive_message_id.wrapping_add(1);
        proof {
            self.message_receive_queue.lemma_wf_view();
        }
        Some((entry.message_id, entry.message))
    }

    /// Find all messages in the send queue that need to be sent, from the
    /// oldest unacked one on, and mark them as sent now.
    ///
    /// A message is taken if its resend time has passed since it was last
    /// sent (or it has never been sent), and it fits into the bits that are
    /// left. Returns the ids taken and the bits used, header included.
    pub fn get_messages_to_send(&mut self, available_bits: usize) -> (result: (Vec<u16>, usize))
        requires
            old(self).wf(),
        ensures
            final(self).wf(),
            result.0@ == old(self)@.selection(available_bits as int).ids,
            result.1 == old(self)@.selection(available_bits as int).used_bits,
            final(self)@ == (ReliableView {
                message_send_queue: old(self)@.selection(available_bits as int).queue,
                ..old(self)@
            }),
            result.0@.len() <= old(self)@.config.max_messages_per_packet,
            forall|j: int|
                0 <= j < result.0@.len() ==> final(self)@.message_send_queue.contains(
                    #[trigger] result.0@[j],
                ),
            result.0@.len() > 0 ==> result.1 <= available_bits,
            result.1 == old(self)@.header_bits() + message_bits(
                final(self)@.messages_of(result.0@),
                old(self)@.message_overhead(),
            ),
    {
        let available: usize = cap_budget(available_bits, self.config.packet_budget);
        let check: usize = check_value_bits(self.config.serialize_check);
        let overhead: usize = MESSAGE_ID_BITS + check;
        let receive_capacity: usize = self.message_receive_queue.capacity();
        let send_capacity: usize = self.message_send_queue.capacity();
        let message_limit: usize = if receive_capacity < send_capacity {
            receive_capacity
        } else {
            send_capacity
        };
        let mut used_bits: usize = CONSERVATIVE_MESSAGE_HEADER_BITS + check;
        let mut give_up_counter: usize = 0;
        let mut message_ids: Vec<u16> = Vec::new();
        let mut i: usize = 0;
        let ghost before = self@;
        let ghost goal = before.selection(available_bits as int);
        proof {
            self.message_send_queue.lemma_wf_view();
            assert(before.messages_of(message_ids@) =~= Seq::<(u16, Seq<u8>)>::empty());
        }
        while i < message_limit
            invariant_except_break
                goal == before.select_from(
                    available as int,
                    i as int,
                    Selection {
                        ids: message_ids@,
                        used_bits: used_bits as int,
                        give_up_counter: give_up_counter as int,
                        queue: self@.message_send_queue,
                    },
                ),
                message_ids@.len() < before.config.max_messages_per_packet,
            invariant
                self.wf(),
                before == old(self)@,
                before.wf(),
                i <= message_limit == before.message_limit(),
                send_capacity == before.message_send_queue.capacity(),
                available == capped_budget(available_bits as int, before.config.packet_budget),
                available <= available_bits,
                check == check_bits(before.config.serialize_check),
                overhead == before.message_overhead(),
                give_up_counter <= i,
                self@ == (ReliableView { message_send_queue: self@.message_send_queue, ..before }),
                message_ids@.len() <= before.config.max_messages_per_packet,
                forall|j: int|
                    0 <= j < message_ids@.len() ==> self@.message_send_queue.contains(
                        #[trigger] message_ids@[j],
                    ),
                message_ids@.len() > 0 ==> used_bits <= available,
                message_ids@.len() == 0 ==> used_bits == before.header_bits(),
                used_bits == before.header_bits() + message_bits(
                    self@.messages_of(message_ids@),
                    before.message_overhead(),
                ),
            ensures
                goal == (Selection {
                    ids: message_ids@,
                    used_bits: used_bits as int,
                    give_up_counter: give_up_counter as int,
                    queue: self@.message_send_queue,
                }),
            decreases message_limit - i,
        {
            if used_bits > available || available - used_bits < GIVE_UP_BITS {
                break ;
            }
            if give_up_counter > send_capacity {
                break ;
            }
            let message_id: u16 = self.oldest_unacked_message_id.wrapping_add(i as u16);
            assert(message_id == sequence_add(before.oldest_unacked_message_id, i as int));
            let ghost queue = self@.message_send_queue;
            let found: Option<(i64, usize)> = match self.message_send_queue.get(message_id) {
                Some(entry) => Some((entry.time_last_sent, entry.measured_bits)),
                None => None,
            };
            match found {
                None => {},
                Some((time_last_sent, measured_bits)) => {
                    let ghost entry = queue.get(message_id).unwrap();
                    if resend_due(time_last_sent, self.config.message_resend_time, self.time)
                        && available >= measured_bits {
                        let room: usize = available - used_bits;
                        if room < overhead || measured_bits > room - overhead {
                            give_up_counter += 1;
                        } else {
                            let ghost picked = self@.messages_of(message_ids@);
                            used_bits = used_bits + measured_bits + overhead;
                            message_ids.push(message_id);
                            Self::mark_sent(&mut self.message_send_queue, message_id, self.time);
                            proof {
                                self.message_send_queue.lemma_wf_view();
                                let after = self@.message_send_queue;
                                assert(after == queue.replace(
                                    message_id,
                                    MessageSendQueueEntry { time_last_sent: before.time, ..entry },
                                ));
                                assert forall|j: int| 0 <= j < message_ids@.len() implies (
                                after.contains(#[trigger] message_ids@[j]) && after.get(
                                    message_ids@[j],
                                ).unwrap().message@ == queue.get(
                                    message_ids@[j],
                                ).unwrap().message@) by {
                                    if j < message_ids@.len() - 1 {
                                        assert(queue.contains(message_ids@.drop_last()[j]));
                                    }
                                }
                                let now = self@.messages_of(message_ids@);
                                assert(now.drop_last() =~= picked);
                                assert(now.last().1 == entry.message@);
                                assert(self@.wf());
                            }
                            if message_ids.len() >= self.config.max_messages_per_packet {
                                break ;
                            }
                        }
                    }
                },
            }
            i += 1;
        }
        (message_ids, used_bits)
    }

    /// Notes in the send queue that the message `message_id` was sent at `time`.
    fn mark_sent(queue: &mut SequenceBuffer<MessageSendQueueEntry>, message_id: u16, time: i64)
        requires
            old(queue).wf(),
            old(queue)@.contains(message_id),
        ensures
            final(queue).wf(),
            final(queue)@ == old(queue)@.replace(
                message_id,
                MessageSendQueueEntry {
                    time_last_sent: time,
                    ..old(queue)@.get(message_id).unwrap()
                },
            ),
    {
        match queue.get_mut(message_id) {
            Some(entry) => {
                entry.time_last_sent = time;
            },
            None => {},
        }
    }

    /// Generate packet data by copying the messages in the send queue with an
    /// id in `message_ids`.
    pub fn get_message_packet_data(&self, channel_index: usize, message_ids: &Vec<u16>) -> (data:
        ChannelPacketData<Vec<u8>>)
        requires
            self.wf(),
            forall|j: int|
                0 <= j < message_ids@.len() ==> self@.message_send_queue.contains(
                    #[trigger] message_ids@[j],
                ),
        ensures
            data.channel_index == channel_index,
            data.payloads() == self@.messages_of(message_ids@),
    {
        let mut messages: Vec<(u16, Vec<u8>)> = Vec::new();
        let mut j: usize = 0;
        while j < message_ids.len()
            invariant
                self.wf(),
                j <= message_ids@.len(),
                forall|k: int|
                    0 <= k < message_ids@.len() ==> self@.message_send_queue.contains(
                        #[trigger] message_ids@[k],
                    ),
                payloads_of(messages@) == self@.messages_of(
                    message_ids@.take(j as int),
                ),
            decreases message_ids@.len() - j,
        {
            let id: u16 = message_ids[j];
            assert(self@.message_send_queue.contains(message_ids@[j as int]));
            let ghost so_far = messages@;
            match self.message_send_queue.get(id) {
                Some(entry) => {
                    let body = vstd::slice::slice_to_vec(entry.message.as_slice());
                    messages.push((id, body));
                    assert(payloads_of(messages@)
                        =~= payloads_of(so_far).push(
                        (id, entry.message@),
                    ));
                },
                None => {},
            }
            assert(payloads_of(messages@)
                =~= self@.messages_of(message_ids@.take(j + 1)));
            j += 1;
        }
        assert(message_ids@.take(message_ids@.len() as int) =~= message_ids@);
        ChannelPacketData { channel_index, messages }
    }

    /// Add an entry for this sequence number to the sent packets, and write
    /// the ids of its messages into its stride of the flat id buffer.
    pub fn add_message_packet_entry(&mut self, message_ids: &Vec<u16>, packet_sequence: u16)
        requires
            old(self).wf(),
            message_ids@.len() <= old(self)@.config.max_messages_per_packet,
        ensures
            final(self).wf(),
            final(self)@ == old(self)@.recorded(message_ids@, packet_sequence),
    {
        proof {
            self.sent_packets.lemma_wf_view();
        }
        let slot: usize = self.sent_packets.sequence_index(packet_sequence);
        let stride: usize = self.config.max_messages_per_packet;
        let total: usize = self.sent_packet_message_ids.len();
        assert(slot * stride + stride <= total) by (nonlinear_arith)
            requires
                slot < self.config.sent_packet_buffer_size,
                stride == self.config.max_messages_per_packet,
                total == self.config.max_messages_per_packet * self.config.sent_packet_buffer_size,
        ;
        let message_ids_index: usize = slot * stride;
        let entry = SentPacketEntry {
            acked: false,
            time_sent: self.time,
            message_ids: (message_ids_index, message_ids.len()),
        };
        if !self.sent_packets.insert(packet_sequence, entry) {
            return ;
        }
        let mut j: usize = 0;
        while j < message_ids.len()
            invariant
                j <= message_ids@.len() <= stride,
                message_ids_index + stride <= total,
                total == self.sent_packet_message_ids@.len(),
                self.sent_packet_message_ids@.len() == old(self).sent_packet_message_ids@.len(),
                self.time == old(self).time,
                self.config == old(self).config,
                self.send_message_id == old(self).send_message_id,
                self.receive_message_id == old(self).receive_message_id,
                self.oldest_unacked_message_id == old(self).oldest_unacked_message_id,
                self.message_send_queue == old(self).message_send_queue,
                self.message_receive_queue == old(self).message_receive_queue,
                self.sent_packets.wf(),
                self.sent_packets@ == old(self).sent_packets@.insert(packet_sequence, entry),
                forall|k: int|
                    0 <= k < self.sent_packet_message_ids@.len()
                        ==> #[trigger] self.sent_packet_message_ids@[k] == if message_ids_index <= k
                        < message_ids_index + j {
                        message_ids@[k - message_ids_index]
                    } else {
                        old(self).sent_packet_message_ids@[k]
                    },
            decreases message_ids@.len() - j,
        {
            self.sent_packet_message_ids.set(message_ids_index + j, message_ids[j]);
            j += 1;
        }
        proof {
            self.sent_packets.lemma_wf_view();
            assert(self@.sent_packet_message_ids =~= old(self)@.recorded(
                message_ids@,
                packet_sequence,
            ).sent_packet_message_ids);
            assert(self@.wf()) by {
                let n = self@.sent_packets.capacity();
                let stride_len = self@.config.max_messages_per_packet as int;
                assert forall|i: int| 0 <= i < n implies match #[trigger] self@.sent_packets.slots[i] {
                    Some((k, e)) => e.message_ids.0 == i * stride_len && e.message_ids.1
                        <= stride_len,
                    None => true,
                } by {
                    if i != slot {
                        if old(self)@.sent_packets.advances(packet_sequence) {
                            let cleared = old(self)@.sent_packets.remove_entries(
                                old(self)@.sent_packets.sequence,
                                packet_sequence,
                            );
                            assert(cleared.slots[i] is None || cleared.slots[i] == old(
                                self,
                            )@.sent_packets.slots[i]);
                        }
                        assert(self@.sent_packets.slots[i] is None || self@.sent_packets.slots[i]
                            == old(self)@.sent_packets.slots[i]);
                    }
                }
            }
        }
    }

    /// Makes the channel's share of the packet `packet_sequence` out of
    /// `available_bits`, and returns it with the bits it uses. With nothing
    /// to send, or nothing that is due and fits, the share is empty and the
    /// bits are 0.
    pub fn packet_data(
        &mut self,
        channel_index: usize,
        packet_sequence: u16,
        available_bits: usize,
    ) -> (result: (ChannelPacketData<Vec<u8>>, usize))
        requires
            old(self).wf(),
        ensures
            final(self).wf(),
            final(self)@ == old(self)@.packed(packet_sequence, available_bits as int),
            result.0.payloads() == old(self)@.packed_messages(available_bits as int),
            result.1 == old(self)@.packed_bits(available_bits as int),
            result.0.channel_index == if result.0.messages@.len() == 0 {
                usize::MAX
            } else {
                channel_index
            },
            result.0.messages@.len() <= old(self)@.config.max_messages_per_packet,
            result.0.payloads().len() == result.0.messages@.len(),
            final(self)@.config == old(self)@.config,
            result.1 <= available_bits,
            result.0.messages@.len() == 0 ==> result.1 == 0,
            result.0.messages@.len() > 0 ==> result.1 == old(self)@.header_bits() + message_bits(
                result.0.payloads(),
                old(self)@.message_overhead(),
            ),
    {
        if !self.has_messages_to_send() {
            let empty = ChannelPacketData::empty();
            assert(empty.payloads() =~= Seq::<(u16, Seq<u8>)>::empty());
            return (empty, 0);
        }
        let (message_ids, message_bits) = self.get_messages_to_send(available_bits);
        if message_ids.len() > 0 {
            let packet_data = self.get_message_packet_data(channel_index, &message_ids);
            let ghost chosen = self@;
            self.add_message_packet_entry(&message_ids, packet_sequence);
            proof {
                assert(old(self)@.packed_messages(available_bits as int) =~= chosen.messages_of(
                    message_ids@,
                ));
            }
            (packet_data, message_bits)
        } else {
            let empty = ChannelPacketData::empty();
            assert(empty.payloads() =~= old(self)@.packed_messages(available_bits as int));
            (empty, 0)
        }
    }
    /// Queues the messages of a received packet by their ids, and returns the
    /// error that they leave the channel in: none, or `Desync` from the first
    /// message on that the receive queue has no room for.
    pub fn process_packet_data(
        &mut self,
        packet_data: ChannelPacketData<M>,
        _packet_sequence: u16,
    ) -> (error: ChannelErrorLevel)
        requires
            old(self).wf(),
        ensures
            final(self).wf(),
            final(self)@ == old(self)@.processed(packet_data.messages@).0,
            error == old(self)@.processed(packet_data.messages@).1,
            error == ChannelErrorLevel::NoError || error == ChannelErrorLevel::Desync,
            final(self)@ == (ReliableView {
                message_receive_queue: final(self)@.message_receive_queue,
                ..old(self)@
            }),
    {
        let ghost all = packet_data.messages@;
        assert(all.skip(0) =~= all);
        for item in it: packet_data.messages.into_iter()
            invariant
                it.seq() == all,
                self.wf(),
                old(self)@.processed(all) == self@.processed(all.skip(it.index() as int)),
                self@ == (ReliableView {
                    message_receive_queue: self@.message_receive_queue,
                    ..old(self)@
                }),
        {
            let ghost rest = all.skip(it.index() as int);
            let (id, message) = item;
            proof {
                assert(rest[0] == (id, message));
                assert(rest.skip(1) =~= all.skip(it.index() + 1));
                self@.lemma_processed_step(rest);
            }
            if self.queue_message(id, message) {
                return ChannelErrorLevel::Desync;
            }
        }
        proof {
            self@.lemma_processed_step(all.skip(all.len() as int));
        }
        ChannelErrorLevel::NoError
    }

    /// Queues one received message under its id, unless it is a resend of a
    /// message that was handed out already. Returns true if the receive queue
    /// has no room for the message: the channel is out of sync.
    fn queue_message(&mut self, id: u16, message: M) -> (desync: bool)
        requires
            old(self).wf(),
        ensures
            final(self).wf(),
            final(self)@ == old(self)@.process_message(id, message).0,
            desync == old(self)@.process_message(id, message).1,
    {
        proof {
            self.message_receive_queue.lemma_wf_view();
        }
        let capacity: usize = self.message_receive_queue.capacity();
        let max_message_id: u16 = self.receive_message_id.wrapping_add((capacity - 1) as u16);
        assert(max_message_id == self@.max_receivable_id());
        if sequence_less_than(id, self.receive_message_id) {
            return false;
        }
        if sequence_greater_than(id, max_message_id) {
            return true;
        }
        let ghost entry = MessageReceiveQueueEntry { message_id: id, message };
        let inserted = self.message_receive_queue.insert(
            id,
            MessageReceiveQueueEntry { message_id: id, message },
        );
        proof {
            self.message_receive_queue.lemma_wf_view();
            old(self)@.message_receive_queue.lemma_insert_slots(id, entry);
        }
        !inserted
    }

    /// Marks the sent packet `ack` as acked and tells where its message ids
    /// stand in the flat id buffer, if the channel remembers the packet.
    fn mark_acked(sent_packets: &mut SequenceBuffer<SentPacketEntry>, ack: u16) -> (run: Option<
        (usize, usize),
    >)
        requires
            old(sent_packets).wf(),
        ensures
            final(sent_packets).wf(),
            match old(sent_packets)@.get(ack) {
                Some(entry) => run == Some(entry.message_ids) && final(sent_packets)@ == old(
                    sent_packets,
                )@.replace(ack, SentPacketEntry { acked: true, ..entry }),
                None => run is None && final(sent_packets)@ == old(sent_packets)@,
            },
    {
        match sent_packets.get_mut(ack) {
            Some(entry) => {
                entry.acked = true;
                Some(entry.message_ids)
            },
            None => None,
        }
    }

    /// Takes note that the packet `ack` has arrived: the messages that it
    /// carried leave the send queue, and the oldest unacked message id moves on.
    pub fn process_ack(&mut self, ack: u16)
        requires
            old(self).wf(),
        ensures
            final(self).wf(),
            final(self)@ == old(self)@.acked(ack),
            final(self)@ == (ReliableView {
                oldest_unacked_message_id: final(self)@.oldest_unacked_message_id,
                sent_packets: final(self)@.sent_packets,
                message_send_queue: final(self)@.message_send_queue,
                ..old(self)@
            }),
    {
        proof {
            self.sent_packets.lemma_wf_view();
            self.message_send_queue.lemma_wf_view();
        }
        let ghost slot = self@.sent_packets.index_of(ack);
        let (first_message, message_count) = match Self::mark_acked(&mut self.sent_packets, ack) {
            Some(run) => run,
            None => { return ; },
        };
        proof {
            self.sent_packets.lemma_wf_view();
            let stride = self@.config.max_messages_per_packet as int;
            assert(old(self)@.sent_packets.slots[slot] is Some);
            assert(first_message == slot * stride);
            assert(slot * stride + stride <= self.sent_packet_message_ids@.len())
                by (nonlinear_arith)
                requires
                    0 <= slot < self@.config.sent_packet_buffer_size,
                    stride == self@.config.max_messages_per_packet,
                    self.sent_packet_message_ids@.len() == self@.config.max_messages_per_packet
                        * self@.config.sent_packet_buffer_size,
            ;
            assert(self@.wf());
        }
        let ghost marked = self@;
        let ghost ids = marked.sent_packet_message_ids.subrange(
            first_message as int,
            first_message + message_count,
        );
        assert(ids.skip(0) =~= ids);
        let total: usize = self.sent_packet_message_ids.len();
        let mut j: usize = 0;
        while j < message_count
            invariant
                self.wf(),
                j <= message_count,
                first_message + message_count <= total,
                total == self.sent_packet_message_ids@.len(),
                self@.sent_packet_message_ids == marked.sent_packet_message_ids,
                ids == marked.sent_packet_message_ids.subrange(
                    first_message as int,
                    first_message + message_count,
                ),
                marked.ack_messages(ids) == self@.ack_messages(ids.skip(j as int)),
                self@ == (ReliableView {
                    oldest_unacked_message_id: self@.oldest_unacked_message_id,
                    message_send_queue: self@.message_send_queue,
                    ..marked
                }),
            decreases message_count - j,
        {
            let message_id: u16 = self.sent_packet_message_ids[first_message + j];
            assert(ids.skip(j as int)[0] == message_id);
            assert(ids.skip(j as int).skip(1) =~= ids.skip(j + 1));
            proof {
                self.message_send_queue.lemma_wf_view();
            }
            match self.message_send_queue.take(message_id) {
                Some(_) => {
                    self.oldest_unacked_message_id = update_oldest_unacked_message_id(
                        self.oldest_unacked_message_id,
                        &self.message_send_queue,
                    );
                    proof {
                        self.message_send_queue.lemma_wf_view();
                    }
                },
                None => {},
            }
            j += 1;
        }
    }

}

/// The oldest unacked message id, moved forward from `oldest` until it names
/// a message that is still in the send queue, or reaches the queue's cursor,
/// which is the id of the next message to be sent.
pub open spec fn advance_oldest(queue: SequenceBufferView<MessageSendQueueEntry>, oldest: u16) -> u16
    decreases sequence_distance(oldest, queue.sequence),
{
    if oldest == queue.sequence || queue.contains(oldest) {
        oldest
    } else {
        advance_oldest(queue, sequence_add(oldest, 1))
    }
}

/// Advance `oldest_unacked_message_id` until it references something still in
/// the send queue or refers to the next message id to be used.
///
/// `oldest_unacked_message_id` is the current, possibly stale, value. Returns
/// the updated value.
pub fn update_oldest_unacked_message_id(
    oldest_unacked_message_id: u16,
    message_send_queue: &SequenceBuffer<MessageSendQueueEntry>,
) -> (updated: u16)
    requires
        message_send_queue.wf(),
    ensures
        updated == advance_oldest(message_send_queue@, oldest_unacked_message_id),
{
    let stop_message_id: u16 = message_send_queue.sequence_pointer();
    let mut oldest: u16 = oldest_unacked_message_id;
    loop
        invariant
            message_send_queue.wf(),
            stop_message_id == message_send_queue@.sequence,
            advance_oldest(message_send_queue@, oldest) == advance_oldest(
                message_send_queue@,
                oldest_unacked_message_id,
            ),
        ensures
            oldest == advance_oldest(message_send_queue@, oldest_unacked_message_id),
        decreases sequence_distance(oldest, stop_message_id),
    {
        if oldest == stop_message_id || message_send_queue.contains(oldest) {
            break ;
        }
        oldest = oldest.wrapping_add(1);
    }
    oldest
}

/// The oldest unacked message id only moves forward, and never past the
/// cursor of the send queue: the steps from the old id to the new one and on
/// to the cursor are together the steps from the old id to the cursor.
pub proof fn lemma_advance_oldest_forward(
    queue: SequenceBufferView<MessageSendQueueEntry>,
    oldest: u16,
)
    ensures
        sequence_distance(oldest, advance_oldest(queue, oldest)) + sequence_distance(
            advance_oldest(queue, oldest),
            queue.sequence,
        ) == sequence_distance(oldest, queue.sequence),
    decreases sequence_distance(oldest, queue.sequence),
{
    if oldest == queue.sequence || queue.contains(oldest) {
        lemma_distance(oldest, oldest);
    } else {
        let next = sequence_add(oldest, 1);
        lemma_distance_step(oldest, queue.sequence);
        lemma_advance_oldest_forward(queue, next);
        lemma_distance_chain(oldest, next, advance_oldest(queue, next), queue.sequence);
    }
}

impl<M> ReliableView<M> {
    /// Received messages touch nothing but the receive queue.
    pub proof fn lemma_processed_keeps(self, messages: Seq<(u16, M)>)
        ensures
            self.processed(messages).0 == (ReliableView {
                message_receive_queue: self.processed(messages).0.message_receive_queue,
                ..self
            }),
            self.processed(messages).1 == ChannelErrorLevel::NoError || self.processed(messages).1
                == ChannelErrorLevel::Desync,
        decreases messages.len(),
    {
        self.lemma_processed_step(messages);
        if messages.len() > 0 {
            let (next, desync) = self.process_message(messages[0].0, messages[0].1);
            if !desync {
                next.lemma_processed_keeps(messages.skip(1));
            }
        }
    }

    /// At most once: a message that has been handed out is not taken again.
    /// Messages whose ids are older than the next id to hand out, as the
    /// messages of a replayed packet are once the application has received
    /// them, are dropped and leave the channel as it is.
    pub proof fn lemma_replay_is_dropped(self, messages: Seq<(u16, M)>)
        requires
            forall|i: int|
                0 <= i < messages.len() ==> sequence_less_than(
                    (#[trigger] messages[i]).0,
                    self.receive_message_id,
                ),
        ensures
            self.processed(messages) == (self, ChannelErrorLevel::NoError),
        decreases messages.len(),
    {
        self.lemma_processed_step(messages);
        if messages.len() > 0 {
            assert(sequence_less_than(messages[0].0, self.receive_message_id));
            assert forall|i: int| 0 <= i < messages.skip(1).len() implies sequence_less_than(
                (#[trigger] messages.skip(1)[i]).0,
                self.receive_message_id,
            ) by {
                assert(messages.skip(1)[i] == messages[i + 1]);
            }
            self.lemma_replay_is_dropped(messages.skip(1));
        }
    }

    /// What the application is handed carries the next id, and the next id
    /// moves past it: handing out never repeats an id until the ids wrap.
    pub proof fn lemma_received_moves_on(self)
        requires
            self.wf(),
        ensures
            match self.next_message() {
                Some((id, _)) => {
                    &&& id == self.receive_message_id
                    &&& self.received().receive_message_id == sequence_add(id, 1)
                    &&& !self.received().message_receive_queue.contains(id)
                },
                None => self.received() == self,
            },
    {
        let queue = self.message_receive_queue;
        if queue.contains(self.receive_message_id) {
            assert(queue.slots[queue.index_of(self.receive_message_id)] is Some);
        }
    }

    /// Idempotence: a message that arrives a second time, before or after it
    /// was handed out, leaves the channel as the first arrival left it. This
    /// holds for receive queues of up to 32768 slots.
    pub proof fn lemma_process_message_twice(self, id: u16, message: M)
        requires
            self.wf(),
            self.message_receive_queue.capacity() <= 32768,
        ensures
            self.process_message(id, message).0.process_message(id, message)
                == self.process_message(id, message),
    {
        let entry = MessageReceiveQueueEntry { message_id: id, message };
        self.message_receive_queue.lemma_insert_twice(id, entry);
        self.message_receive_queue.lemma_insert_slots(id, entry);
        let once = self.process_message(id, message).0;
        if !self.process_message(id, message).1 && !sequence_less_than(
            id,
            self.receive_message_id,
        ) {
            assert(once.message_receive_queue == self.message_receive_queue.insert(id, entry));
            assert(once.message_receive_queue.accepts(id));
        }
    }

    /// Acking a message moves the oldest unacked id forward, if at all, and
    /// never past the next message id.
    pub proof fn lemma_ack_message_forward(self, id: u16)
        requires
            self.message_send_queue.sequence == self.send_message_id,
        ensures
            self.ack_message(id).send_message_id == self.send_message_id,
            self.ack_message(id).message_send_queue.sequence == self.send_message_id,
            sequence_distance(
                self.oldest_unacked_message_id,
                self.ack_message(id).oldest_unacked_message_id,
            ) + sequence_distance(
                self.ack_message(id).oldest_unacked_message_id,
                self.send_message_id,
            ) == sequence_distance(self.oldest_unacked_message_id, self.send_message_id),
    {
        if self.message_send_queue.contains(id) {
            lemma_advance_oldest_forward(
                self.message_send_queue.take(id),
                self.oldest_unacked_message_id,
            );
        } else {
            lemma_distance(self.oldest_unacked_message_id, self.oldest_unacked_message_id);
        }
    }

    /// Acking messages moves the oldest unacked id forward, if at all, and
    /// never past the next message id.
    pub proof fn lemma_ack_messages_forward(self, ids: Seq<u16>)
        requires
            self.message_send_queue.sequence == self.send_message_id,
        ensures
            self.ack_messages(ids).send_message_id == self.send_message_id,
            sequence_distance(
                self.oldest_unacked_message_id,
                self.ack_messages(ids).oldest_unacked_message_id,
            ) + sequence_distance(
                self.ack_messages(ids).oldest_unacked_message_id,
                self.send_message_id,
            ) == sequence_distance(self.oldest_unacked_message_id, self.send_message_id),
        decreases ids.len(),
    {
        if ids.len() > 0 {
            let next = self.ack_message(ids[0]);
            self.lemma_ack_message_forward(ids[0]);
            next.lemma_ack_messages_forward(ids.skip(1));
            lemma_distance_chain(
                self.oldest_unacked_message_id,
                next.oldest_unacked_message_id,
                next.ack_messages(ids.skip(1)).oldest_unacked_message_id,
                self.send_message_id,
            );
        } else {
            lemma_distance(self.oldest_unacked_message_id, self.oldest_unacked_message_id);
        }
    }

    /// Ack monotonicity: an acked packet moves the oldest unacked message id
    /// forward, if at all, and never past the next message id. With fewer
    /// than 32768 messages in flight, the new id is not less than the old one
    /// in the wrap-aware order.
    pub proof fn lemma_ack_is_monotonic(self, ack: u16)
        requires
            self.wf(),
        ensures
            self.acked(ack).send_message_id == self.send_message_id,
            sequence_distance(
                self.oldest_unacked_message_id,
                self.acked(ack).oldest_unacked_message_id,
            ) + sequence_distance(self.acked(ack).oldest_unacked_message_id, self.send_message_id)
                == sequence_distance(self.oldest_unacked_message_id, self.send_message_id),
            sequence_distance(self.oldest_unacked_message_id, self.send_message_id) < 32768
                ==> !sequence_less_than(
                self.acked(ack).oldest_unacked_message_id,
                self.oldest_unacked_message_id,
            ),
    {
        lemma_distance(self.oldest_unacked_message_id, self.oldest_unacked_message_id);
        lemma_distance(self.oldest_unacked_message_id, self.acked(ack).oldest_unacked_message_id);
        lemma_distance(self.acked(ack).oldest_unacked_message_id, self.oldest_unacked_message_id);
        match self.sent_packets.get(ack) {
            None => {},
            Some(entry) => {
                let marked = ReliableView {
                    sent_packets: self.sent_packets.replace(
                        ack,
                        SentPacketEntry { acked: true, ..entry },
                    ),
                    ..self
                };
                marked.lemma_ack_messages_forward(self.ids_of(entry));
            },
        }
    }

    /// Nothing but acks and a reset moves the oldest unacked message id:
    /// sending, packing, receiving and handing out leave it where it is.
    pub proof fn lemma_oldest_unacked_stays(
        self,
        message: Vec<u8>,
        packet_sequence: u16,
        available_bits: int,
        messages: Seq<(u16, M)>,
    )
        ensures
            self.sent(message).oldest_unacked_message_id == self.oldest_unacked_message_id,
            self.packed(packet_sequence, available_bits).oldest_unacked_message_id
                == self.oldest_unacked_message_id,
            self.processed(messages).0.oldest_unacked_message_id == self.oldest_unacked_message_id,
            self.received().oldest_unacked_message_id == self.oldest_unacked_message_id,
    {
        self.lemma_processed_keeps(messages);
    }
}

/// Whether the resend time has passed since a message was last sent.
pub fn resend_due(time_last_sent: i64, resend_time: i64, time: i64) -> (due: bool)
    ensures
        due == (time_last_sent + resend_time <= time),
{
    (time_last_sent as i128) + (resend_time as i128) <= (time as i128)
}

} // verus!
