//! Channels: the per-connection queues and their reliability bookkeeping.

use crate::channel::channel_packet_data::ChannelPacketData;
use crate::channel::reliable::{Reliable, ReliableView};
use crate::channel::unreliable::{tagged, Unreliable, UnreliableView};
use crate::config::{ChannelConfig, ChannelType};
use crate::message::NetworkMessage;
use vstd::prelude::*;

pub mod channel_packet_data;
pub mod reliable;
pub mod sequence_buffer;
pub mod unreliable;

verus! {

/// Bits set aside in a channel's budget for its own header.
pub const CONSERVATIVE_MESSAGE_HEADER_BITS: usize = 32;

/// Bits that a connection sets aside for each channel that contributes to a packet.
pub const CONSERVATIVE_CHANNEL_HEADER_BITS: usize = 32;

/// Bits that a connection sets aside for the channel count at the start of a packet.
pub const CONSERVATIVE_PACKET_HEADER_BITS: usize = 16;

/// A channel stops packing messages once fewer bits than this are left of its budget.
pub const GIVE_UP_BITS: usize = 32;

/// The bits that a check value takes in a packet, if the channel writes check values.
pub open spec fn check_bits(check: bool) -> int {
    if check {
        32
    } else {
        0
    }
}

/// The bits that a check value takes in a packet, if the channel writes check values.
pub fn check_value_bits(check: bool) -> (bits: usize)
    ensures
        bits == check_bits(check),
{
    if check {
        32
    } else {
        0
    }
}

/// The bits that the messages of a packet take together: for each message
/// the bits of its body and `overhead` bits more.
pub open spec fn message_bits(messages: Seq<(u16, Seq<u8>)>, overhead: int) -> int
    decreases messages.len(),
{
    if messages.len() == 0 {
        0
    } else {
        message_bits(messages.drop_last(), overhead) + 8 * messages.last().1.len() + overhead
    }
}

/// The bits that a channel may use of the `available_bits` of a packet: all
/// of them, or the channel's own budget in bytes if that is less.
pub open spec fn capped_budget(available_bits: int, packet_budget: Option<usize>) -> int {
    match packet_budget {
        Some(bytes) => if bytes * 8 < available_bits {
            bytes * 8
        } else {
            available_bits
        },
        None => available_bits,
    }
}

/// Caps the bits that are left of a packet by the channel's own budget.
pub fn cap_budget(available_bits: usize, packet_budget: Option<usize>) -> (capped: usize)
    ensures
        capped == capped_budget(available_bits as int, packet_budget),
{
    match packet_budget {
        Some(bytes) => if bytes <= available_bits / 8 {
            bytes * 8
        } else {
            available_bits
        },
        None => available_bits,
    }
}

/// The error state of a channel. Once a channel has left `NoError`, it refuses
/// work until it is reset.
#[derive(Debug, Clone, Copy, PartialEq, Eq, Structural)]
pub enum ChannelErrorLevel {
    /// No error. All is well.
    NoError,
    /// This channel has desynced: the reliability window was overrun and the
    /// protocol cannot recover. The client should be disconnected.
    ///
    /// This happens mainly when received messages are not taken off the
    /// channel. The channel falls behind and has to reject messages, which it
    /// cannot drop without breaking its promise of delivery.
    Desync,
    /// A message was sent while the send queue was full.
    ///
    /// Messages are sent too fast, or, on a reliable channel, no acks come
    /// back for them: the receiver has to send something, on any channel, for
    /// acks to flow and the send queue to drain.
    SendQueueFull,
    /// The channel received data for blocks, but blocks are disabled.
    BlocksDisabled,
    /// A message could not be serialized, or a received one could not be read.
    FailedToSerialize,
    /// The channel tried to allocate some memory but couldn't.
    OutOfMemory,
}

/// How many messages a channel has accepted for sending and handed out to
/// the application.
#[derive(Debug, Copy, Clone)]
pub struct ChannelCounters {
    /// Messages accepted by `send_message`.
    pub sent: usize,
    /// Messages handed out by `receive_message`.
    pub received: usize,
}

impl Default for ChannelCounters {
    fn default() -> (counters: ChannelCounters)
        ensures
            counters.sent == 0,
            counters.received == 0,
    {
        ChannelCounters { sent: 0, received: 0 }
    }
}

impl ChannelCounters {
    /// Sets both counters back to zero.
    pub fn reset(&mut self)
        ensures
            final(self).sent == 0,
            final(self).received == 0,
    {
        self.sent = 0;
        self.received = 0;
    }
}

/// The queues of a channel, by its kind.
pub enum Processor<M> {
    Reliable(Reliable<M>),
    Unreliable(Unreliable<M>),
}

/// What the queues of a channel hold, by its kind.
pub enum ProcessorView<M> {
    Reliable(ReliableView<M>),
    Unreliable(UnreliableView<M>),
}

/// What a channel holds.
pub struct ChannelView<M> {
    pub config: ChannelConfig,
    /// The place of the channel among the channels of its connection.
    pub channel_index: usize,
    pub error_level: ChannelErrorLevel,
    pub processor: ProcessorView<M>,
    pub counters: ChannelCounters,
}

impl<M> ChannelView<M> {
    /// The configuration is valid, the queues are of the configured kind, and
    /// a reliable channel's queues are well-formed under the same configuration.
    pub open spec fn wf(self) -> bool {
        &&& self.config.valid()
        &&& self.channel_index <= 65535
        &&& match self.processor {
            ProcessorView::Reliable(reliable) => {
                &&& self.config.kind == ChannelType::ReliableOrdered
                &&& reliable.wf()
                &&& reliable.config == self.config
            },
            ProcessorView::Unreliable(unreliable) => {
                &&& self.config.kind == ChannelType::UnreliableUnordered
                &&& unreliable.send_capacity == self.config.message_send_queue_size
                &&& unreliable.receive_capacity == self.config.message_receive_queue_size
            },
        }
    }

    /// Whether the send queue has room for one more message.
    pub open spec fn can_send_message(self) -> bool {
        match self.processor {
            ProcessorView::Reliable(reliable) => reliable.can_send_message(),
            ProcessorView::Unreliable(unreliable) => unreliable.send_queue.len()
                < unreliable.send_capacity,
        }
    }

    /// Whether a message waits to be sent, or to be acked.
    pub open spec fn has_messages_to_send(self) -> bool {
        match self.processor {
            ProcessorView::Reliable(reliable) => reliable.has_messages_to_send(),
            ProcessorView::Unreliable(unreliable) => unreliable.send_queue.len() > 0,
        }
    }

    /// The channel in the given error state.
    pub open spec fn failed(self, level: ChannelErrorLevel) -> Self {
        ChannelView { error_level: level, ..self }
    }

    /// The channel with one more message body in its send queue, and one more
    /// message counted as sent.
    pub open spec fn queued(self, payload: Vec<u8>) -> Self {
        ChannelView {
            processor: match self.processor {
                ProcessorView::Reliable(reliable) => ProcessorView::Reliable(
                    reliable.sent(payload),
                ),
                ProcessorView::Unreliable(unreliable) => ProcessorView::Unreliable(
                    UnreliableView { send_queue: unreliable.send_queue.push(payload@), ..unreliable },
                ),
            },
            counters: ChannelCounters {
                sent: if self.counters.sent < usize::MAX {
                    (self.counters.sent + 1) as usize
                } else {
                    usize::MAX
                },
                ..self.counters
            },
            ..self
        }
    }

    /// The channel after it was asked to send a message with the given body.
    ///
    /// A channel in an error state does nothing. A full send queue puts the
    /// channel into `SendQueueFull`. A body whose size in bits goes beyond the
    /// machine's numbers puts it into `FailedToSerialize`. Any other body is queued.
    pub open spec fn send_payload(self, payload: Vec<u8>) -> Self {
        if self.error_level != ChannelErrorLevel::NoError {
            self
        } else if !self.can_send_message() {
            self.failed(ChannelErrorLevel::SendQueueFull)
        } else if 8 * payload@.len() > usize::MAX {
            self.failed(ChannelErrorLevel::FailedToSerialize)
        } else {
            self.queued(payload)
        }
    }

    /// The message that the application gets next: none from a channel in an
    /// error state, else the next that the queues hand out.
    pub open spec fn next_message(self) -> Option<(u16, M)> {
        if self.error_level != ChannelErrorLevel::NoError {
            None
        } else {
            match self.processor {
                ProcessorView::Reliable(reliable) => reliable.next_message(),
                ProcessorView::Unreliable(unreliable) => if unreliable.receive_queue.len() > 0 {
                    Some(unreliable.receive_queue[0])
                } else {
                    None
                },
            }
        }
    }

    /// The channel after the next message has been handed out, if there is one.
    pub open spec fn received(self) -> Self {
        if self.next_message() is None {
            self
        } else {
            ChannelView {
                processor: match self.processor {
                    ProcessorView::Reliable(reliable) => ProcessorView::Reliable(
                        reliable.received(),
                    ),
                    ProcessorView::Unreliable(unreliable) => ProcessorView::Unreliable(
                        UnreliableView {
                            receive_queue: unreliable.receive_queue.skip(1),
                            ..unreliable
                        },
                    ),
                },
                counters: ChannelCounters {
                    received: if self.counters.received < usize::MAX {
                        (self.counters.received + 1) as usize
                    } else {
                        usize::MAX
                    },
                    ..self.counters
                },
                ..self
            }
        }
    }

    /// The messages of the channel's share of a packet out of `available_bits`.
    /// A channel in an error state has none.
    pub open spec fn packed_messages(self, packet_sequence: u16, available_bits: int) -> Seq<
        (u16, Seq<u8>),
    > {
        if self.error_level != ChannelErrorLevel::NoError {
            Seq::empty()
        } else {
            match self.processor {
                ProcessorView::Reliable(reliable) => reliable.packed_messages(available_bits),
                ProcessorView::Unreliable(unreliable) => tagged(
                    unreliable.send_queue,
                    unreliable.packed_count(self.config, available_bits),
                    packet_sequence,
                ),
            }
        }
    }

    /// The bits that the channel's share of a packet uses.
    pub open spec fn packed_bits(self, available_bits: int) -> int {
        if self.error_level != ChannelErrorLevel::NoError {
            0
        } else {
            match self.processor {
                ProcessorView::Reliable(reliable) => reliable.packed_bits(available_bits),
                ProcessorView::Unreliable(unreliable) => unreliable.packed_bits(
                    self.config,
                    available_bits,
                ),
            }
        }
    }

    /// The channel after it has made its share of the packet `packet_sequence`.
    pub open spec fn packed(self, packet_sequence: u16, available_bits: int) -> Self {
        if self.error_level != ChannelErrorLevel::NoError {
            self
        } else {
            ChannelView {
                processor: match self.processor {
                    ProcessorView::Reliable(reliable) => ProcessorView::Reliable(
                        reliable.packed(packet_sequence, available_bits),
                    ),
                    ProcessorView::Unreliable(unreliable) => ProcessorView::Unreliable(
                        UnreliableView {
                            send_queue: unreliable.send_queue.skip(
                                unreliable.packed_count(self.config, available_bits),
                            ),
                            ..unreliable
                        },
                    ),
                },
                ..self
            }
        }
    }

    /// The bits that the header of a share with messages counts for, and the
    /// bits that each message counts for beside its body.
    pub open spec fn share_overheads(self) -> (int, int) {
        match self.config.kind {
            ChannelType::ReliableOrdered => (
                CONSERVATIVE_MESSAGE_HEADER_BITS + check_bits(self.config.serialize_check),
                16 + check_bits(self.config.serialize_check),
            ),
            ChannelType::UnreliableUnordered => (
                CONSERVATIVE_MESSAGE_HEADER_BITS as int,
                check_bits(self.config.serialize_check),
            ),
        }
    }

    /// The channel after the messages of a received packet. A channel in an
    /// error state drops them. A reliable channel that they put out of sync
    /// goes into `Desync`.
    pub open spec fn processed(self, messages: Seq<(u16, M)>, packet_sequence: u16) -> Self {
        if self.error_level != ChannelErrorLevel::NoError {
            self
        } else {
            match self.processor {
                ProcessorView::Reliable(reliable) => ChannelView {
                    processor: ProcessorView::Reliable(reliable.processed(messages).0),
                    error_level: reliable.processed(messages).1,
                    ..self
                },
                ProcessorView::Unreliable(unreliable) => ChannelView {
                    processor: ProcessorView::Unreliable(
                        unreliable.received(messages, packet_sequence),
                    ),
                    ..self
                },
            }
        }
    }

    /// The channel after the packet `packet_sequence` has been acked.
    pub open spec fn acked(self, packet_sequence: u16) -> Self {
        match self.processor {
            ProcessorView::Reliable(reliable) => ChannelView {
                processor: ProcessorView::Reliable(reliable.acked(packet_sequence)),
                ..self
            },
            ProcessorView::Unreliable(_) => self,
        }
    }

    /// The channel at the given time.
    pub open spec fn advanced(self, time: i64) -> Self {
        match self.processor {
            ProcessorView::Reliable(reliable) => ChannelView {
                processor: ProcessorView::Reliable(ReliableView { time, ..reliable }),
                ..self
            },
            ProcessorView::Unreliable(_) => self,
        }
    }

    /// The channel in its initial state: no error, empty queues, counters at zero.
    pub open spec fn reset(self) -> Self {
        ChannelView {
            error_level: ChannelErrorLevel::NoError,
            processor: match self.processor {
                ProcessorView::Reliable(reliable) => ProcessorView::Reliable(reliable.reset()),
                ProcessorView::Unreliable(unreliable) => ProcessorView::Unreliable(
                    UnreliableView {
                        send_queue: Seq::empty(),
                        receive_queue: Seq::empty(),
                        ..unreliable
                    },
                ),
            },
            counters: ChannelCounters { sent: 0, received: 0 },
            ..self
        }
    }
}

impl<M> ChannelView<M> {
    /// Error stickiness: a channel in an error state refuses work and stays
    /// in its error state, whatever is asked of it. Only a reset clears it.
    pub proof fn lemma_error_is_sticky(
        self,
        payload: Vec<u8>,
        messages: Seq<(u16, M)>,
        packet_sequence: u16,
        available_bits: int,
        time: i64,
    )
        requires
            self.error_level != ChannelErrorLevel::NoError,
        ensures
            self.send_payload(payload) == self,
            self.received() == self,
            self.next_message() is None,
            self.packed(packet_sequence, available_bits) == self,
            self.packed_messages(packet_sequence, available_bits).len() == 0,
            self.processed(messages, packet_sequence) == self,
            self.acked(packet_sequence).error_level == self.error_level,
            self.advanced(time).error_level == self.error_level,
            self.reset().error_level == ChannelErrorLevel::NoError,
    {
    }
}

/// Error stickiness: sending a message on a channel in an error state
/// changes nothing.
pub proof fn lemma_send_keeps_error<M: NetworkMessage>(
    before: ChannelView<M>,
    message: M,
    after: ChannelView<M>,
)
    requires
        sends(before, message, after),
        before.error_level != ChannelErrorLevel::NoError,
    ensures
        after == before,
{
}

/// A subchannel of a connection, with queues of its own and a reliability
/// policy of its own.
pub struct Channel<M> {
    config: ChannelConfig,
    channel_index: usize,
    error_level: ChannelErrorLevel,
    processor: Processor<M>,
    counters: ChannelCounters,
}

impl<M> View for Channel<M> {
    type V = ChannelView<M>;

    closed spec fn view(&self) -> ChannelView<M> {
        ChannelView {
            config: self.config,
            channel_index: self.channel_index,
            error_level: self.error_level,
            processor: match self.processor {
                Processor::Reliable(reliable) => ProcessorView::Reliable(reliable@),
                Processor::Unreliable(unreliable) => ProcessorView::Unreliable(unreliable@),
            },
            counters: self.counters,
        }
    }
}

impl<M> Channel<M> {
    /// The representation is consistent, and so is what it stands for.
    pub closed spec fn wf(&self) -> bool {
        &&& self@.wf()
        &&& match self.processor {
            Processor::Reliable(reliable) => reliable.wf(),
            Processor::Unreliable(_) => true,
        }
    }

    /// A consistent channel has a well-formed view.
    pub proof fn lemma_wf_view(&self)
        requires
            self.wf(),
        ensures
            self@.wf(),
    {
    }

    /// A channel of the configured kind with empty queues and no error.
    pub fn new(config: ChannelConfig, channel_index: usize, time: i64) -> (channel: Channel<M>)
        requires
            config.valid(),
            channel_index <= 65535,
        ensures
            channel.wf(),
            channel@.config == config,
            channel@.channel_index == channel_index,
            channel@ == channel@.reset(),
            channel@ == channel@.advanced(time),
    {
        let processor = match config.kind {
            ChannelType::ReliableOrdered => Processor::Reliable(Reliable::new(config, time)),
            ChannelType::UnreliableUnordered => Processor::Unreliable(Unreliable::new(&config)),
        };
        let channel = Channel {
            config,
            channel_index,
            error_level: ChannelErrorLevel::NoError,
            processor,
            counters: ChannelCounters { sent: 0, received: 0 },
        };
        proof {
            match &channel.processor {
                Processor::Reliable(reliable) => {
                    reliable.lemma_wf_view();
                },
                Processor::Unreliable(unreliable) => {
                    assert(unreliable@.send_queue =~= Seq::<Seq<u8>>::empty());
                    assert(unreliable@.receive_queue =~= Seq::<(u16, M)>::empty());
                },
            }
        }
        channel
    }

    /// Puts the channel back into its initial state.
    pub fn reset(&mut self)
        requires
            old(self).wf(),
        ensures
            final(self).wf(),
            final(self)@ == old(self)@.reset(),
    {
        self.set_error_level(ChannelErrorLevel::NoError);
        match &mut self.processor {
            Processor::Reliable(reliable) => {
                reliable.reset();
                proof {
                    reliable.lemma_wf_view();
                }
            },
            Processor::Unreliable(unreliable) => {
                unreliable.reset();
            },
        }
        self.reset_counters();
    }

    /// The counters of the channel.
    pub fn counters(&self) -> (counters: &ChannelCounters)
        ensures
            *counters == self@.counters,
    {
        &self.counters
    }

    /// Sets the counters of the channel back to zero.
    pub fn reset_counters(&mut self)
        ensures
            final(self)@ == (ChannelView {
                counters: ChannelCounters { sent: 0, received: 0 },
                ..old(self)@
            }),
            old(self).wf() ==> final(self).wf(),
    {
        self.counters.reset();
    }

    /// Advance channel time.
    pub fn advance_time(&mut self, time: i64)
        requires
            old(self).wf(),
        ensures
            final(self).wf(),
            final(self)@ == old(self)@.advanced(time),
    {
        match &mut self.processor {
            Processor::Reliable(reliable) => {
                reliable.advance_time(time);
                proof {
                    reliable.lemma_wf_view();
                }
            },
            Processor::Unreliable(unreliable) => {
                unreliable.advance_time(time);
            },
        }
    }

    /// Get channel packet data for this channel: its share of the packet
    /// `packet_sequence` out of `available_bits`, and the bits that the share
    /// counts for. A channel in an error state has nothing to give.
    pub fn packet_data(&mut self, packet_sequence: u16, available_bits: usize) -> (result: (
        ChannelPacketData<Vec<u8>>,
        usize,
    ))
        requires
            old(self).wf(),
        ensures
            final(self).wf(),
            final(self)@ == old(self)@.packed(packet_sequence, available_bits as int),
            result.0.payloads() == old(self)@.packed_messages(
                packet_sequence,
                available_bits as int,
            ),
            result.1 == old(self)@.packed_bits(available_bits as int),
            result.0.channel_index == if result.0.messages@.len() == 0 {
                usize::MAX
            } else {
                old(self)@.channel_index
            },
            result.0.messages@.len() <= old(self)@.config.max_messages_per_packet,
            result.1 <= available_bits,
            result.0.messages@.len() == 0 ==> result.1 == 0,
            result.0.messages@.len() > 0 ==> result.1 == old(self)@.share_overheads().0
                + message_bits(result.0.payloads(), old(self)@.share_overheads().1),
    {
        if self.error_level != ChannelErrorLevel::NoError {
            let empty = ChannelPacketData::empty();
            assert(empty.payloads() =~= Seq::<(u16, Seq<u8>)>::empty());
            return (empty, 0);
        }
        match &mut self.processor {
            Processor::Reliable(reliable) => {
                let result = reliable.packet_data(
                    self.channel_index,
                    packet_sequence,
                    available_bits,
                );
                proof {
                    reliable.lemma_wf_view();
                }
                result
            },
            Processor::Unreliable(unreliable) => {
                let result = unreliable.packet_data(
                    &self.config,
                    self.channel_index,
                    packet_sequence,
                    available_bits,
                );
                result
            },
        }
    }

    /// Hands the messages of a received packet to the queues. A channel in an
    /// error state drops them.
    pub fn process_packet_data(&mut self, packet_data: ChannelPacketData<M>, packet_sequence: u16)
        requires
            old(self).wf(),
        ensures
            final(self).wf(),
            final(self)@ == old(self)@.processed(packet_data.messages@, packet_sequence),
    {
        if self.error_level != ChannelErrorLevel::NoError {
            return ;
        }
        let error = match &mut self.processor {
            Processor::Reliable(reliable) => {
                let error = reliable.process_packet_data(packet_data, packet_sequence);
                proof {
                    reliable.lemma_wf_view();
                }
                error
            },
            Processor::Unreliable(unreliable) => {
                unreliable.process_packet_data(packet_data, packet_sequence);
                ChannelErrorLevel::NoError
            },
        };
        self.set_error_level(error);
    }

    /// Tells the queues that the packet `packet_sequence` has arrived.
    pub fn process_ack(&mut self, packet_sequence: u16)
        requires
            old(self).wf(),
        ensures
            final(self).wf(),
            final(self)@ == old(self)@.acked(packet_sequence),
    {
        match &mut self.processor {
            Processor::Reliable(reliable) => {
                reliable.process_ack(packet_sequence);
                proof {
                    reliable.lemma_wf_view();
                }
            },
            Processor::Unreliable(unreliable) => {
                unreliable.process_ack(packet_sequence);
            },
        }
    }

    /// The error state of the channel.
    pub fn error_level(&self) -> (level: ChannelErrorLevel)
        ensures
            level == self@.error_level,
    {
        self.error_level
    }

    /// Whether the send queue has room for one more message.
    pub fn can_send_message(&self) -> (room: bool)
        requires
            self.wf(),
        ensures
            room == self@.can_send_message(),
    {
        match &self.processor {
            Processor::Reliable(reliable) => reliable.can_send_message(),
            Processor::Unreliable(unreliable) => unreliable.can_send_message(),
        }
    }

    /// Whether a message waits to be sent, or to be acked.
    pub fn has_messages_to_send(&self) -> (waiting: bool)
        ensures
            waiting == self@.has_messages_to_send(),
    {
        match &self.processor {
            Processor::Reliable(reliable) => reliable.has_messages_to_send(),
            Processor::Unreliable(unreliable) => unreliable.has_messages_to_send(),
        }
    }

    /// Queues the body of a message for sending, unless the channel is in an
    /// error state, the send queue is full, or the body is too large to count
    /// its bits. The latter two put the channel into an error state.
    pub fn send_payload(&mut self, payload: Vec<u8>)
        requires
            old(self).wf(),
        ensures
            final(self).wf(),
            final(self)@ == old(self)@.send_payload(payload),
    {
        if self.error_level != ChannelErrorLevel::NoError {
            return ;
        }
        if !self.can_send_message() {
            self.set_error_level(ChannelErrorLevel::SendQueueFull);
            return ;
        }
        if payload.len() > usize::MAX / 8 {
            self.set_error_level(ChannelErrorLevel::FailedToSerialize);
            return ;
        }
        match &mut self.processor {
            Processor::Reliable(reliable) => {
                reliable.send_message(payload);
                proof {
                    reliable.lemma_wf_view();
                }
            },
            Processor::Unreliable(unreliable) => {
                unreliable.send_message(payload);
            },
        }
        self.counters.sent = self.counters.sent.saturating_add(1);
    }

    /// Pops the next message off the receive queue if one is available, with
    /// its id. A channel in an error state hands out nothing.
    pub fn receive_message(&mut self) -> (message: Option<(u16, M)>)
        requires
            old(self).wf(),
        ensures
            final(self).wf(),
            message == old(self)@.next_message(),
            final(self)@ == old(self)@.received(),
    {
        if self.error_level != ChannelErrorLevel::NoError {
            return None;
        }
        let message = match &mut self.processor {
            Processor::Reliable(reliable) => {
                let message = reliable.receive_message();
                proof {
                    reliable.lemma_wf_view();
                }
                message
            },
            Processor::Unreliable(unreliable) => unreliable.receive_message(),
        };
        if message.is_some() {
            self.counters.received = self.counters.received.saturating_add(1);
        }
        message
    }

    /// All changes of the error state go through this function.
    pub(crate) fn set_error_level(&mut self, level: ChannelErrorLevel)
        ensures
            final(self)@ == old(self)@.failed(level),
            old(self).wf() ==> final(self).wf(),
    {
        self.error_level = level;
    }
}

/// What sending `message` on a channel in the state `before` may lead to.
///
/// A channel in an error state does nothing. A full send queue puts the
/// channel into `SendQueueFull`. Else the message is serialized: a message
/// that cannot be serialized puts the channel into `FailedToSerialize`, any
/// other is queued as its bytes. Where the message type keeps to what it says
/// of its encoding, the bytes are that encoding.
pub open spec fn sends<M: NetworkMessage>(
    before: ChannelView<M>,
    message: M,
    after: ChannelView<M>,
) -> bool {
    if before.error_level != ChannelErrorLevel::NoError {
        after == before
    } else if !before.can_send_message() {
        after == before.failed(ChannelErrorLevel::SendQueueFull)
    } else {
        &&& {
            ||| after == before.failed(ChannelErrorLevel::FailedToSerialize)
            ||| exists|payload: Vec<u8>| #[trigger] before.send_payload(payload) == after
        }
        &&& M::obeys_wire_spec() ==> match message.encoding() {
            Some(bytes) => exists|payload: Vec<u8>| #[trigger]
                before.send_payload(payload) == after && payload@ == bytes,
            None => after == before.failed(ChannelErrorLevel::FailedToSerialize),
        }
    }
}

impl<M: NetworkMessage> Channel<M> {
    /// Queue a message to be sent across this channel.
    ///
    /// A channel in an error state does nothing. A full send queue puts the
    /// channel into `SendQueueFull`. A message that cannot be serialized puts
    /// it into `FailedToSerialize`.
    pub fn send_message(&mut self, message: M)
        requires
            old(self).wf(),
        ensures
            final(self).wf(),
            sends(old(self)@, message, final(self)@),
            final(self)@.config == old(self)@.config,
            final(self)@.channel_index == old(self)@.channel_index,
    {
        if self.error_level != ChannelErrorLevel::NoError {
            return ;
        }
        if !self.can_send_message() {
            self.set_error_level(ChannelErrorLevel::SendQueueFull);
            return ;
        }
        let mut payload: Vec<u8> = Vec::new();
        match message.serialize(&mut payload) {
            Ok(_) => {
                assert(M::obeys_wire_spec() ==> payload@ =~= message.encoding().unwrap());
                self.send_payload(payload);
                assert(old(self)@.send_payload(payload) == self@);
            },
            Err(_) => {
                self.set_error_level(ChannelErrorLevel::FailedToSerialize);
            },
        }
    }
}

} // verus!
