//! A connection: a set of channels multiplexed onto one packet payload.
//!
//! A packet payload is the number of channel shares, two bytes little-endian,
//! and then the shares, each laid out as its channel's kind says.

use crate::byte_order::{get_u16, lemma_u16_round_trip, put_u16, u16_from_le_bytes, u16_le_bytes};
use crate::channel::{
    sends,
    Channel,
    ChannelCounters,
    ChannelErrorLevel,
    ChannelView,
    CONSERVATIVE_CHANNEL_HEADER_BITS,
    CONSERVATIVE_PACKET_HEADER_BITS,
};
use crate::channel::channel_packet_data::{
    all_decode_to,
    decode_channel_data,
    encode_channel_data,
    ids_read_back,
    lemma_channel_data_round_trip,
    lemma_share_size,
    with_ids,
    ChannelPacketData,
    ReadError,
};
use crate::config::{ChannelConfig, ConnectionConfig};
use crate::message::NetworkMessage;
use vstd::prelude::*;

verus! {

/// The error state of a connection. Once a connection has left `NoError`, its
/// operations change nothing until it is reset.
#[derive(Debug, Copy, Clone, PartialEq, Eq, Structural)]
pub enum ConnectionErrorLevel {
    /// No error. All is well.
    NoError,
    /// A channel is in an error state.
    Channel,
    /// Failed to read packet. Received an invalid packet?
    ReadPacketFailed,
}

/// The shares of a packet as plain values: for each share its channel index
/// and its messages.
pub type Shares<T> = Seq<(int, Seq<(u16, T)>)>;

/// The shares one after the other, each laid out as its channel's kind says.
pub open spec fn encode_shares(channels: Seq<ChannelConfig>, shares: Shares<Seq<u8>>) -> Seq<u8>
    decreases shares.len(),
{
    if shares.len() == 0 {
        Seq::empty()
    } else {
        encode_channel_data(channels[shares[0].0], shares[0].0, shares[0].1) + encode_shares(
            channels,
            shares.skip(1),
        )
    }
}

/// The bytes of a packet payload: the number of shares and the shares.
pub open spec fn encode_packet(channels: Seq<ChannelConfig>, shares: Shares<Seq<u8>>) -> Seq<u8> {
    u16_le_bytes(shares.len() as u16) + encode_shares(channels, shares)
}

/// The first `count` shares at the start of `bytes`, and the number of bytes
/// that they take.
pub open spec fn decode_shares<M: NetworkMessage>(
    channels: Seq<ChannelConfig>,
    bytes: Seq<u8>,
    count: int,
) -> Result<(Shares<M>, int), ReadError>
    decreases count,
{
    if count <= 0 {
        Ok((Seq::empty(), 0))
    } else {
        match decode_channel_data::<M>(channels, bytes) {
            Err(e) => Err(e),
            Ok((index, messages, taken)) => match decode_shares::<M>(
                channels,
                bytes.skip(taken),
                count - 1,
            ) {
                Err(e) => Err(e),
                Ok((rest, more)) => Ok((seq![(index, messages)] + rest, taken + more)),
            },
        }
    }
}

/// The shares that a packet payload holds. What follows the last share is
/// not looked at.
pub open spec fn decode_packet<M: NetworkMessage>(channels: Seq<ChannelConfig>, bytes: Seq<u8>)
    -> Result<Shares<M>, ReadError> {
    if bytes.len() < 2 {
        Err(ReadError::Malformed)
    } else {
        match decode_shares::<M>(channels, bytes.skip(2), u16_from_le_bytes(bytes) as int) {
            Err(e) => Err(e),
            Ok((shares, _)) => Ok(shares),
        }
    }
}

/// Writing one more share at the end appends its bytes.
pub proof fn lemma_encode_shares_push(
    channels: Seq<ChannelConfig>,
    shares: Shares<Seq<u8>>,
    last: (int, Seq<(u16, Seq<u8>)>),
)
    ensures
        encode_shares(channels, shares.push(last)) == encode_shares(channels, shares)
            + encode_channel_data(channels[last.0], last.0, last.1),
    decreases shares.len(),
{
    if shares.len() == 0 {
        assert(shares.push(last).skip(1) =~= Shares::<Seq<u8>>::empty());
        assert(encode_shares(channels, shares.push(last).skip(1)) =~= Seq::<u8>::empty());
        assert(encode_shares(channels, shares.push(last)) =~= encode_shares(channels, shares)
            + encode_channel_data(channels[last.0], last.0, last.1));
    } else {
        lemma_encode_shares_push(channels, shares.skip(1), last);
        assert(shares.push(last).skip(1) =~= shares.skip(1).push(last));
        assert(encode_shares(channels, shares.push(last)) =~= encode_shares(channels, shares)
            + encode_channel_data(channels[last.0], last.0, last.1));
    }
}

/// The shares can be written and read back as `messages`: each names a
/// configured channel, holds no more messages than the channel allows, and
/// each of its bodies is read back as the message in the same place.
pub open spec fn shares_decode_to<M: NetworkMessage>(
    channels: Seq<ChannelConfig>,
    shares: Shares<Seq<u8>>,
    messages: Seq<Seq<M>>,
) -> bool {
    &&& shares.len() == messages.len()
    &&& forall|i: int|
        0 <= i < shares.len() ==> {
            &&& 0 <= (#[trigger] shares[i]).0 < channels.len()
            &&& shares[i].0 <= 65535
            &&& shares[i].1.len() <= 256
            &&& shares[i].1.len() <= channels[shares[i].0].max_messages_per_packet
            &&& all_decode_to(shares[i].1, messages[i])
        }
}

/// What the shares are read back as: the same channel indices and the
/// messages, under their ids on a reliable channel and under 0 on an
/// unreliable one.
pub open spec fn read_back<M>(
    channels: Seq<ChannelConfig>,
    shares: Shares<Seq<u8>>,
    messages: Seq<Seq<M>>,
) -> Shares<M> {
    Seq::new(
        shares.len(),
        |i: int|
            (
                shares[i].0,
                with_ids(ids_read_back(channels[shares[i].0].kind, shares[i].1), messages[i]),
            ),
    )
}

/// Shares that were written are read back as they were, whatever follows them.
pub proof fn lemma_shares_round_trip<M: NetworkMessage>(
    channels: Seq<ChannelConfig>,
    shares: Shares<Seq<u8>>,
    messages: Seq<Seq<M>>,
    rest: Seq<u8>,
)
    requires
        shares_decode_to(channels, shares, messages),
    ensures
        decode_shares::<M>(channels, encode_shares(channels, shares) + rest, shares.len() as int)
            == Ok::<(Shares<M>, int), ReadError>(
            (read_back(channels, shares, messages), encode_shares(channels, shares).len() as int),
        ),
    decreases shares.len(),
{
    if shares.len() == 0 {
        assert(read_back(channels, shares, messages) =~= Shares::<M>::empty());
    } else {
        let first = encode_channel_data(channels[shares[0].0], shares[0].0, shares[0].1);
        let tail = shares.skip(1);
        let after = encode_shares(channels, tail) + rest;
        assert(encode_shares(channels, shares) + rest =~= first + after);
        lemma_channel_data_round_trip::<M>(channels, shares[0].0, shares[0].1, messages[0], after);
        assert((first + after).skip(first.len() as int) =~= after);
        assert(shares_decode_to(channels, tail, messages.skip(1))) by {
            assert forall|i: int| 0 <= i < tail.len() implies {
                &&& 0 <= (#[trigger] tail[i]).0 < channels.len()
                &&& tail[i].0 <= 65535
                &&& tail[i].1.len() <= 256
                &&& tail[i].1.len() <= channels[tail[i].0].max_messages_per_packet
                &&& all_decode_to(tail[i].1, messages.skip(1)[i])
            } by {
                assert(tail[i] == shares[i + 1]);
            }
        }
        lemma_shares_round_trip::<M>(channels, tail, messages.skip(1), rest);
        assert(seq![read_back(channels, shares, messages)[0]] + read_back(
            channels,
            tail,
            messages.skip(1),
        ) =~= read_back(channels, shares, messages));
    }
}

/// Round trip of a packet payload: what a connection writes for its shares,
/// another connection of the same configuration reads back as the same
/// channel indices and messages, and, on reliable channels, message ids.
pub proof fn lemma_packet_round_trip<M: NetworkMessage>(
    channels: Seq<ChannelConfig>,
    shares: Shares<Seq<u8>>,
    messages: Seq<Seq<M>>,
)
    requires
        shares.len() <= 65535,
        shares_decode_to(channels, shares, messages),
    ensures
        decode_packet::<M>(channels, encode_packet(channels, shares)) == Ok::<
            Shares<M>,
            ReadError,
        >(read_back(channels, shares, messages)),
{
    let bytes = encode_packet(channels, shares);
    lemma_u16_round_trip(shares.len() as u16);
    assert(bytes[0] == u16_le_bytes(shares.len() as u16)[0]);
    assert(bytes[1] == u16_le_bytes(shares.len() as u16)[1]);
    assert(bytes.skip(2) =~= encode_shares(channels, shares) + Seq::<u8>::empty());
    lemma_shares_round_trip::<M>(channels, shares, messages, Seq::empty());
}

/// The shares of all channels that go into one packet.
pub struct ConnectionPacket<T> {
    pub channel_data: Vec<ChannelPacketData<T>>,
}

impl<T> ConnectionPacket<T> {
    /// A packet of the given shares.
    pub fn new(channel_data: Vec<ChannelPacketData<T>>) -> (packet: ConnectionPacket<T>)
        ensures
            packet.channel_data == channel_data,
    {
        ConnectionPacket { channel_data }
    }
}

/// The shares of an outgoing packet as plain values.
pub open spec fn shares_of(channel_data: Seq<ChannelPacketData<Vec<u8>>>) -> Shares<Seq<u8>> {
    Seq::new(
        channel_data.len(),
        |i: int| (channel_data[i].channel_index as int, channel_data[i].payloads()),
    )
}

/// The shares of an incoming packet as plain values.
pub open spec fn messages_of<M>(channel_data: Seq<ChannelPacketData<M>>) -> Shares<M> {
    Seq::new(
        channel_data.len(),
        |i: int| (channel_data[i].channel_index as int, channel_data[i].messages@),
    )
}

impl ConnectionPacket<Vec<u8>> {
    /// The shares as plain values.
    pub open spec fn shares(&self) -> Shares<Seq<u8>> {
        shares_of(self.channel_data@)
    }

    /// Every share names a configured channel and holds at most 256 messages,
    /// and there are fewer than 65535 shares.
    pub open spec fn fits(&self, config: &ConnectionConfig) -> bool {
        &&& self.channel_data@.len() < 65535
        &&& forall|i: int|
            0 <= i < self.channel_data@.len() ==> {
                &&& (#[trigger] self.channel_data@[i]).channel_index < config.channels@.len()
                &&& self.channel_data@[i].channel_index <= 65535
                &&& self.channel_data@[i].messages@.len() <= 256
            }
    }

    /// Appends the packet payload to `dest` and returns the number of bytes written.
    pub fn serialize(&self, config: &ConnectionConfig, dest: &mut Vec<u8>) -> (written: usize)
        requires
            self.fits(config),
        ensures
            final(dest)@ == old(dest)@ + encode_packet(config.channels@, self.shares()),
            written == encode_packet(config.channels@, self.shares()).len(),
    {
        let start: usize = dest.len();
        put_u16(dest, self.channel_data.len() as u16);
        let ghost head = dest@;
        let mut i: usize = 0;
        assert(self.shares().take(0) =~= Shares::<Seq<u8>>::empty());
        while i < self.channel_data.len()
            invariant
                i <= self.channel_data@.len(),
                self.fits(config),
                dest@ == head + encode_shares(config.channels@, self.shares().take(i as int)),
            decreases self.channel_data@.len() - i,
        {
            let ghost before = dest@;
            let ghost share = self.shares()[i as int];
            self.channel_data[i].serialize(config, dest);
            proof {
                lemma_encode_shares_push(config.channels@, self.shares().take(i as int), share);
                assert(self.shares().take(i as int).push(share) =~= self.shares().take(i + 1));
                assert(dest@ =~= head + encode_shares(
                    config.channels@,
                    self.shares().take(i + 1),
                ));
            }
            i += 1;
        }
        assert(self.shares().take(self.channel_data@.len() as int) =~= self.shares());
        assert(dest@ =~= old(dest)@ + encode_packet(config.channels@, self.shares()));
        dest.len() - start
    }
}

impl<M: NetworkMessage> ConnectionPacket<M> {
    /// Reads the shares of a packet payload.
    pub fn deserialize(config: &ConnectionConfig, src: &[u8]) -> (result: Result<
        ConnectionPacket<M>,
        ReadError,
    >)
        ensures
            result matches Ok(packet) ==> forall|i: int|
                0 <= i < packet.channel_data@.len() ==> {
                    &&& (#[trigger] packet.channel_data@[i]).channel_index <= 65535
                    &&& packet.channel_data@[i].messages@.len() > 0
                        ==> packet.channel_data@[i].channel_index < config.channels@.len()
                },
            result matches Err(ReadError::Message(index)) ==> index < config.channels@.len(),
            M::obeys_wire_spec() ==> match decode_packet::<M>(config.channels@, src@) {
                Ok(shares) => result matches Ok(packet) && messages_of(packet.channel_data@)
                    == shares,
                Err(e) => result matches Err(found) && found == e,
            },
    {
        let count: usize = match get_u16(src, 0) {
            Some(count) => count as usize,
            None => { return Err(ReadError::Malformed); },
        };
        assert(src@.skip(0) =~= src@);
        let mut channel_data: Vec<ChannelPacketData<M>> = Vec::new();
        let mut pos: usize = 2;
        let mut i: usize = 0;
        assert(messages_of(channel_data@) =~= Shares::<M>::empty());
        while i < count
            invariant
                i <= count,
                count == u16_from_le_bytes(src@),
                2 <= pos <= src@.len(),
                channel_data@.len() == i,
                forall|j: int|
                    0 <= j < channel_data@.len() ==> {
                        &&& (#[trigger] channel_data@[j]).channel_index <= 65535
                        &&& channel_data@[j].messages@.len() > 0 ==> channel_data@[j].channel_index
                            < config.channels@.len()
                    },
                M::obeys_wire_spec() ==> decode_shares::<M>(
                    config.channels@,
                    src@.skip(2),
                    count as int,
                ) == (match decode_shares::<M>(config.channels@, src@.skip(pos as int), count - i) {
                    Ok((rest, more)) => Ok::<(Shares<M>, int), ReadError>(
                        (messages_of(channel_data@) + rest, pos - 2 + more),
                    ),
                    Err(e) => Err(e),
                }),
            decreases count - i,
        {
            let rest = vstd::slice::slice_subrange(src, pos, src.len());
            assert(rest@ =~= src@.skip(pos as int));
            let ghost so_far = messages_of(channel_data@);
            match ChannelPacketData::<M>::deserialize(config, rest) {
                Err(e) => {
                    return Err(e);
                },
                Ok((data, taken)) => {
                    let ghost share = (data.channel_index as int, data.messages@);
                    channel_data.push(data);
                    proof {
                        assert(src@.skip(pos as int).skip(taken as int) =~= src@.skip(pos + taken));
                        assert(messages_of(channel_data@) =~= so_far.push(share));
                        if M::obeys_wire_spec() {
                            match decode_shares::<M>(
                                config.channels@,
                                src@.skip(pos + taken),
                                count - i - 1,
                            ) {
                                Ok((rest2, more)) => {
                                    assert(so_far + (seq![share] + rest2) =~= so_far.push(share)
                                        + rest2);
                                },
                                Err(_) => {},
                            }
                        }
                    }
                    pos = pos + taken;
                    i += 1;
                },
            }
        }
        proof {
            if M::obeys_wire_spec() {
                assert(messages_of(channel_data@) + Shares::<M>::empty() =~= messages_of(
                    channel_data@,
                ));
            }
        }
        Ok(ConnectionPacket { channel_data })
    }
}

/// The bits that are left of a packet after a channel has used `bits` of
/// `available`: a channel that contributes costs 32 bits for its share's
/// header on top of what it counts itself.
pub open spec fn bits_left(available: int, bits: int) -> int {
    if bits <= 0 {
        available
    } else if available - CONSERVATIVE_CHANNEL_HEADER_BITS - bits < 0 {
        0
    } else {
        available - CONSERVATIVE_CHANNEL_HEADER_BITS - bits
    }
}

/// What a connection holds.
pub struct ConnectionView<M> {
    /// Largest packet payload that the connection writes (bytes).
    pub max_packet_size: usize,
    /// The configurations of the channels, in order.
    pub channel_configs: Seq<ChannelConfig>,
    /// The channels, in order.
    pub channels: Seq<ChannelView<M>>,
    pub error_level: ConnectionErrorLevel,
}

impl<M> ConnectionView<M> {
    /// At least one channel and fewer than 65535, each well-formed, in its
    /// place and under its configuration; and a packet size of at least one
    /// byte whose bit count fits the machine.
    pub open spec fn wf(self) -> bool {
        &&& 1 <= self.channels.len() < 65535
        &&& self.channel_configs.len() == self.channels.len()
        &&& 1 <= self.max_packet_size
        &&& self.max_packet_size * 8 <= usize::MAX
        &&& forall|i: int|
            0 <= i < self.channels.len() ==> {
                &&& (#[trigger] self.channels[i]).wf()
                &&& self.channels[i].config == self.channel_configs[i]
                &&& self.channels[i].channel_index == i
            }
    }

    /// The bits of a packet that the channels share: all but the 16 bits of
    /// the share count.
    pub open spec fn packet_bits(self) -> int {
        if self.max_packet_size * 8 >= CONSERVATIVE_PACKET_HEADER_BITS {
            self.max_packet_size * 8 - CONSERVATIVE_PACKET_HEADER_BITS
        } else {
            0
        }
    }

    /// The connection with the channel `index` replaced.
    pub open spec fn with_channel(self, index: int, channel: ChannelView<M>) -> Self {
        ConnectionView { channels: self.channels.update(index, channel), ..self }
    }

    /// What the channels from `i` on make of the packet `packet_sequence`,
    /// each out of the bits that the channels before it have left: the
    /// channels afterwards, and the shares of those that contribute.
    pub open spec fn gather_from(self, packet_sequence: u16, i: int, available: int) -> (
        Seq<ChannelView<M>>,
        Shares<Seq<u8>>,
    )
        decreases self.channels.len() - i,
    {
        if i < 0 || i >= self.channels.len() {
            (Seq::empty(), Seq::empty())
        } else {
            let channel = self.channels[i];
            let bits = channel.packed_bits(available);
            let (channels, shares) = self.gather_from(
                packet_sequence,
                i + 1,
                bits_left(available, bits),
            );
            (
                seq![channel.packed(packet_sequence, available)] + channels,
                if bits > 0 {
                    seq![(i, channel.packed_messages(packet_sequence, available))] + shares
                } else {
                    shares
                },
            )
        }
    }

    /// The connection after it has generated the packet `packet_sequence`,
    /// and the payload: empty if the connection is in an error state or no
    /// channel contributes.
    pub open spec fn generated(self, packet_sequence: u16) -> (Self, Seq<u8>) {
        if self.error_level != ConnectionErrorLevel::NoError {
            (self, Seq::empty())
        } else {
            let (channels, shares) = self.gather_from(packet_sequence, 0, self.packet_bits());
            (
                ConnectionView { channels, ..self },
                if shares.len() == 0 {
                    Seq::empty()
                } else {
                    encode_packet(self.channel_configs, shares)
                },
            )
        }
    }

    /// The connection after the shares of a received packet have been handed
    /// to their channels, in order, and whether all went well.
    ///
    /// A share of a channel that is not configured is dropped. A channel that
    /// is in an error state after its share puts the connection into the
    /// error state `Channel` and ends the processing.
    pub open spec fn deliver(self, shares: Shares<M>, packet_sequence: u16) -> (Self, bool)
        decreases shares.len(),
    {
        if shares.len() == 0 {
            (self, true)
        } else {
            let (index, messages) = shares[0];
            if index < 0 || index >= self.channels.len() {
                self.deliver(shares.skip(1), packet_sequence)
            } else {
                let channel = self.channels[index].processed(messages, packet_sequence);
                let next = self.with_channel(index, channel);
                if channel.error_level != ChannelErrorLevel::NoError {
                    (ConnectionView { error_level: ConnectionErrorLevel::Channel, ..next }, false)
                } else {
                    next.deliver(shares.skip(1), packet_sequence)
                }
            }
        }
    }

    /// The connection after a received packet, given what the payload reads
    /// as, and whether all went well.
    ///
    /// A connection in an error state refuses the packet. A malformed payload
    /// puts the connection into `ReadPacketFailed`. A message that its type
    /// does not accept puts its channel into `FailedToSerialize` and the
    /// connection into `Channel`. In both cases no share is processed.
    pub open spec fn processed(self, packet_sequence: u16, decoded: Result<Shares<M>, ReadError>)
        -> (Self, bool) {
        if self.error_level != ConnectionErrorLevel::NoError {
            (self, false)
        } else {
            match decoded {
                Err(ReadError::Malformed) => (
                    ConnectionView { error_level: ConnectionErrorLevel::ReadPacketFailed, ..self },
                    false,
                ),
                Err(ReadError::Message(index)) => (
                    ConnectionView {
                        error_level: ConnectionErrorLevel::Channel,
                        ..self.with_channel(
                            index as int,
                            self.channels[index as int].failed(
                                ChannelErrorLevel::FailedToSerialize,
                            ),
                        )
                    },
                    false,
                ),
                Ok(shares) => self.deliver(shares, packet_sequence),
            }
        }
    }

    /// The connection after every channel has been told of the acked packets, in order.
    pub open spec fn acked(self, acks: Seq<u16>) -> Self
        decreases acks.len(),
    {
        if acks.len() == 0 {
            self
        } else {
            (ConnectionView {
                channels: Seq::new(self.channels.len(), |i: int| self.channels[i].acked(acks[0])),
                ..self
            }).acked(acks.skip(1))
        }
    }

    /// The connection after the channels from `i` on have been told the time,
    /// one after the other. The first of them that is in an error state puts
    /// the connection into the error state `Channel`, and the channels after
    /// it are not told.
    pub open spec fn advanced_from(self, time: i64, i: int) -> Self
        decreases self.channels.len() - i,
    {
        if i < 0 || i >= self.channels.len() {
            self
        } else {
            let channel = self.channels[i].advanced(time);
            let next = self.with_channel(i, channel);
            if channel.error_level != ChannelErrorLevel::NoError {
                ConnectionView { error_level: ConnectionErrorLevel::Channel, ..next }
            } else {
                next.advanced_from(time, i + 1)
            }
        }
    }

    /// The connection in its initial state: no error, every channel reset.
    pub open spec fn reset(self) -> Self {
        ConnectionView {
            error_level: ConnectionErrorLevel::NoError,
            channels: Seq::new(self.channels.len(), |i: int| self.channels[i].reset()),
            ..self
        }
    }
}

impl<M> ConnectionView<M> {
    /// Telling the channels the time leaves a connection that is in an error
    /// state in an error state.
    pub proof fn lemma_advanced_keeps_error(self, time: i64, i: int)
        requires
            self.error_level != ConnectionErrorLevel::NoError,
        ensures
            self.advanced_from(time, i).error_level != ConnectionErrorLevel::NoError,
        decreases self.channels.len() - i,
    {
        if 0 <= i < self.channels.len() {
            let channel = self.channels[i].advanced(time);
            if channel.error_level == ChannelErrorLevel::NoError {
                self.with_channel(i, channel).lemma_advanced_keeps_error(time, i + 1);
            }
        }
    }

    /// Acks leave the error state of a connection as it is.
    pub proof fn lemma_acked_keeps_error(self, acks: Seq<u16>)
        ensures
            self.acked(acks).error_level == self.error_level,
        decreases acks.len(),
    {
        if acks.len() > 0 {
            (ConnectionView {
                channels: Seq::new(self.channels.len(), |i: int| self.channels[i].acked(acks[0])),
                ..self
            }).lemma_acked_keeps_error(acks.skip(1));
        }
    }

    /// Error stickiness: a connection in an error state stays in an error
    /// state, whatever is asked of it: it refuses received packets, generates
    /// nothing, and neither acks nor the time clear the error. Only a reset does.
    pub proof fn lemma_error_is_sticky(
        self,
        packet_sequence: u16,
        decoded: Result<Shares<M>, ReadError>,
        acks: Seq<u16>,
        time: i64,
    )
        requires
            self.error_level != ConnectionErrorLevel::NoError,
        ensures
            self.processed(packet_sequence, decoded) == (self, false),
            self.generated(packet_sequence) == (self, Seq::<u8>::empty()),
            self.acked(acks).error_level == self.error_level,
            self.advanced_from(time, 0).error_level != ConnectionErrorLevel::NoError,
            self.reset().error_level == ConnectionErrorLevel::NoError,
    {
        self.lemma_advanced_keeps_error(time, 0);
        self.lemma_acked_keeps_error(acks);
    }
}

/// Sends and receives messages across a set of user defined channels.
pub struct Connection<M> {
    config: ConnectionConfig,
    channels: Vec<Channel<M>>,
    error_level: ConnectionErrorLevel,
}

impl<M> View for Connection<M> {
    type V = ConnectionView<M>;

    closed spec fn view(&self) -> ConnectionView<M> {
        ConnectionView {
            max_packet_size: self.config.max_packet_size,
            channel_configs: self.config.channels@,
            channels: self.channels@.map_values(|channel: Channel<M>| channel@),
            error_level: self.error_level,
        }
    }
}

impl<M> Connection<M> {
    /// The representation is consistent, and so is what it stands for.
    pub closed spec fn wf(&self) -> bool {
        &&& self.config.valid()
        &&& self@.wf()
        &&& forall|i: int| 0 <= i < self.channels@.len() ==> (#[trigger] self.channels@[i]).wf()
    }

    /// A consistent connection has a well-formed view.
    pub proof fn lemma_wf_view(&self)
        requires
            self.wf(),
        ensures
            self@.wf(),
    {
    }

    /// A connection with the configured channels, all empty, and no error.
    pub fn new(config: ConnectionConfig, time: i64) -> (connection: Connection<M>)
        requires
            config.valid(),
        ensures
            connection.wf(),
            connection@.max_packet_size == config.max_packet_size,
            connection@.channel_configs == config.channels@,
            connection@.error_level == ConnectionErrorLevel::NoError,
            connection@ == connection@.reset(),
            forall|i: int|
                0 <= i < connection@.channels.len() ==> (#[trigger] connection@.channels[i])
                    == connection@.channels[i].advanced(time),
    {
        let mut channels: Vec<Channel<M>> = Vec::new();
        let mut i: usize = 0;
        while i < config.channels.len()
            invariant
                config.valid(),
                i <= config.channels@.len(),
                channels@.len() == i,
                forall|j: int|
                    0 <= j < i ==> {
                        &&& (#[trigger] channels@[j]).wf()
                        &&& channels@[j]@.config == config.channels@[j]
                        &&& channels@[j]@.channel_index == j
                        &&& channels@[j]@ == channels@[j]@.reset()
                        &&& channels@[j]@ == channels@[j]@.advanced(time)
                    },
            decreases config.channels@.len() - i,
        {
            let channel = Channel::new(config.channels[i], i, time);
            channels.push(channel);
            i += 1;
        }
        let connection = Connection {
            config,
            channels,
            error_level: ConnectionErrorLevel::NoError,
        };
        proof {
            assert forall|j: int| 0 <= j < connection@.channels.len() implies (
            #[trigger] connection@.channels[j]).wf() by {
                connection.channels@[j].lemma_wf_view();
            }
            assert(connection@.channels =~= connection@.reset().channels);
        }
        connection
    }

    /// The error state of the connection.
    pub fn error_level(&self) -> (level: ConnectionErrorLevel)
        ensures
            level == self@.error_level,
    {
        self.error_level
    }

    /// Tells every channel the new time. A channel that is in an error state
    /// puts the connection into the error state `Channel`.
    pub fn advance_time(&mut self, new_time: i64)
        requires
            old(self).wf(),
        ensures
            final(self).wf(),
            final(self)@ == old(self)@.advanced_from(new_time, 0),
            final(self)@.channel_configs == old(self)@.channel_configs,
            final(self)@.max_packet_size == old(self)@.max_packet_size,
            old(self)@.error_level != ConnectionErrorLevel::NoError ==> final(self)@.error_level
                != ConnectionErrorLevel::NoError,
    {
        let mut i: usize = 0;
        while i < self.channels.len()
            invariant
                self.wf(),
                i <= self.channels@.len(),
                self@.error_level == old(self)@.error_level,
                old(self)@.advanced_from(new_time, 0) == self@.advanced_from(new_time, i as int),
                self@.channel_configs == old(self)@.channel_configs,
                self@.max_packet_size == old(self)@.max_packet_size,
            decreases self.channels@.len() - i,
        {
            let ghost before = self@;
            self.channels[i].advance_time(new_time);
            let failed = self.channels[i].error_level() != ChannelErrorLevel::NoError;
            proof {
                self.channels@[i as int].lemma_wf_view();
                assert(self@.channels =~= before.channels.update(
                    i as int,
                    before.channels[i as int].advanced(new_time),
                ));
            }
            if failed {
                self.error_level = ConnectionErrorLevel::Channel;
                return ;
            }
            i += 1;
        }
    }

    /// Tells every channel of every acked packet, in the order of the acks.
    pub fn process_acks(&mut self, acks: &[u16])
        requires
            old(self).wf(),
        ensures
            final(self).wf(),
            final(self)@ == old(self)@.acked(acks@),
            final(self)@.channel_configs == old(self)@.channel_configs,
            final(self)@.max_packet_size == old(self)@.max_packet_size,
            final(self)@.error_level == old(self)@.error_level,
    {
        let mut i: usize = 0;
        assert(acks@.skip(0) =~= acks@);
        while i < acks.len()
            invariant
                self.wf(),
                i <= acks@.len(),
                self@.error_level == old(self)@.error_level,
                old(self)@.acked(acks@) == self@.acked(acks@.skip(i as int)),
                self@.channel_configs == old(self)@.channel_configs,
                self@.max_packet_size == old(self)@.max_packet_size,
            decreases acks@.len() - i,
        {
            let ack: u16 = acks[i];
            let ghost before = self@;
            let mut j: usize = 0;
            while j < self.channels.len()
                invariant
                    self.wf(),
                    j <= self.channels@.len(),
                    self@.channels.len() == before.channels.len(),
                    self@.error_level == before.error_level,
                    self@.max_packet_size == before.max_packet_size,
                    self@.channel_configs == before.channel_configs,
                    forall|k: int|
                        0 <= k < self@.channels.len() ==> #[trigger] self@.channels[k] == if k < j {
                            before.channels[k].acked(ack)
                        } else {
                            before.channels[k]
                        },
                decreases self.channels@.len() - j,
            {
                let ghost inner = self@;
                self.channels[j].process_ack(ack);
                proof {
                    self.channels@[j as int].lemma_wf_view();
                    assert(self@.channels =~= inner.channels.update(
                        j as int,
                        inner.channels[j as int].acked(ack),
                    ));
                }
                j += 1;
            }
            proof {
                assert(acks@.skip(i as int)[0] == ack);
                assert(acks@.skip(i as int).skip(1) =~= acks@.skip(i + 1));
                assert(self@.channels =~= Seq::new(
                    before.channels.len(),
                    |k: int| before.channels[k].acked(ack),
                ));
            }
            i += 1;
        }
    }

    /// Hands the shares of a received packet to their channels, in order.
    /// Returns false, with the connection in the error state `Channel`, as
    /// soon as a channel is in an error state after its share.
    pub fn process_shares(&mut self, packet_sequence: u16, packet: ConnectionPacket<M>) -> (ok:
        bool)
        requires
            old(self).wf(),
        ensures
            final(self).wf(),
            final(self)@ == old(self)@.deliver(messages_of(packet.channel_data@), packet_sequence).0,
            ok == old(self)@.deliver(messages_of(packet.channel_data@), packet_sequence).1,
            final(self)@.channel_configs == old(self)@.channel_configs,
            final(self)@.max_packet_size == old(self)@.max_packet_size,
            !ok ==> final(self)@.error_level != ConnectionErrorLevel::NoError,
            ok ==> final(self)@.error_level == old(self)@.error_level,
    {
        let ghost entries = packet.channel_data@;
        let ghost all = messages_of(entries);
        assert(all.skip(0) =~= all);
        for entry in it: packet.channel_data.into_iter()
            invariant
                it.seq() == entries,
                all == messages_of(entries),
                self.wf(),
                self@.error_level == old(self)@.error_level,
                self@.channel_configs == old(self)@.channel_configs,
                self@.max_packet_size == old(self)@.max_packet_size,
                old(self)@.deliver(all, packet_sequence) == self@.deliver(
                    all.skip(it.index() as int),
                    packet_sequence,
                ),
        {
            let ghost rest = all.skip(it.index() as int);
            let ghost before = self@;
            proof {
                assert(rest[0] == (entry.channel_index as int, entry.messages@));
                assert(rest.skip(1) =~= all.skip(it.index() + 1));
            }
            let channel_index: usize = entry.channel_index;
            if channel_index < self.channels.len() {
                self.channels[channel_index].process_packet_data(entry, packet_sequence);
                let failed = self.channels[channel_index].error_level()
                    != ChannelErrorLevel::NoError;
                proof {
                    self.channels@[channel_index as int].lemma_wf_view();
                    assert(self@.channels =~= before.channels.update(
                        channel_index as int,
                        before.channels[channel_index as int].processed(
                            entry.messages@,
                            packet_sequence,
                        ),
                    ));
                }
                if failed {
                    self.error_level = ConnectionErrorLevel::Channel;
                    return false;
                }
            }
        }
        true
    }

    /// Generate a packet, writing its payload to `packet_data` in place of
    /// what was there.
    ///
    /// Returns the number of bytes written, which is never more than the
    /// connection's packet size. It is 0, and nothing should be sent, when no
    /// channel has anything to send or the connection is in an error state.
    pub fn generate_packet(&mut self, packet_sequence: u16, packet_data: &mut Vec<u8>) -> (written:
        usize)
        requires
            old(self).wf(),
        ensures
            final(self).wf(),
            final(self)@ == old(self)@.generated(packet_sequence).0,
            final(packet_data)@ == old(self)@.generated(packet_sequence).1,
            written == final(packet_data)@.len(),
            written <= old(self)@.max_packet_size,
            final(self)@.error_level == old(self)@.error_level,
    {
        packet_data.clear();
        if self.error_level != ConnectionErrorLevel::NoError {
            return 0;
        }
        let mut channel_data: Vec<ChannelPacketData<Vec<u8>>> = Vec::new();
        let total_bits: usize = self.config.max_packet_size * 8;
        let mut available_bits: usize = if total_bits >= CONSERVATIVE_PACKET_HEADER_BITS {
            total_bits - CONSERVATIVE_PACKET_HEADER_BITS
        } else {
            0
        };
        let ghost goal = old(self)@.gather_from(packet_sequence, 0, available_bits as int);
        let ghost start_bits = available_bits;
        let mut i: usize = 0;
        proof {
            assert(shares_of(channel_data@) =~= Shares::<Seq<u8>>::empty());
            assert(self@.channels.take(0) =~= Seq::<ChannelView<M>>::empty());
            assert(Seq::<ChannelView<M>>::empty() + goal.0 =~= goal.0);
            assert(Shares::<Seq<u8>>::empty() + goal.1 =~= goal.1);
        }
        while i < self.channels.len()
            invariant
                self.wf(),
                i <= self.channels@.len(),
                self@.channels.len() == old(self)@.channels.len(),
                self@.error_level == old(self)@.error_level,
                self@.max_packet_size == old(self)@.max_packet_size,
                self@.channel_configs == old(self)@.channel_configs,
                start_bits == old(self)@.packet_bits(),
                forall|k: int|
                    i <= k < self@.channels.len() ==> #[trigger] self@.channels[k] == old(
                        self,
                    )@.channels[k],
                goal == old(self)@.gather_from(packet_sequence, 0, start_bits as int),
                goal.0 == self@.channels.take(i as int) + old(self)@.gather_from(
                    packet_sequence,
                    i as int,
                    available_bits as int,
                ).0,
                goal.1 == shares_of(channel_data@) + old(self)@.gather_from(
                    packet_sequence,
                    i as int,
                    available_bits as int,
                ).1,
                channel_data@.len() <= i,
                forall|k: int|
                    0 <= k < channel_data@.len() ==> {
                        &&& (#[trigger] channel_data@[k]).channel_index < self@.channels.len()
                        &&& channel_data@[k].messages@.len() <= 256
                    },
                8 * encode_shares(self@.channel_configs, shares_of(channel_data@)).len()
                    + available_bits <= start_bits,
            decreases self.channels@.len() - i,
        {
            let ghost before = self@;
            let ghost shares_before = shares_of(channel_data@);
            proof {
                self.channels@[i as int].lemma_wf_view();
            }
            let (data, bits) = self.channels[i].packet_data(packet_sequence, available_bits);
            proof {
                self.channels@[i as int].lemma_wf_view();
                assert(self@.channels =~= before.channels.update(
                    i as int,
                    before.channels[i as int].packed(packet_sequence, available_bits as int),
                ));
                assert(self@.channels.take(i + 1) =~= before.channels.take(i as int).push(
                    self@.channels[i as int],
                ));
                let rest = old(self)@.gather_from(
                    packet_sequence,
                    i + 1,
                    bits_left(available_bits as int, bits as int),
                );
                assert(before.channels.take(i as int) + (seq![self@.channels[i as int]] + rest.0)
                    =~= self@.channels.take(i + 1) + rest.0);
            }
            if bits > 0 {
                let ghost share = (data.channel_index as int, data.payloads());
                proof {
                    let config = self@.channel_configs[i as int];
                    lemma_share_size(config, i as int, data.payloads());
                    lemma_encode_shares_push(self@.channel_configs, shares_before, share);
                    let rest = old(self)@.gather_from(
                        packet_sequence,
                        i + 1,
                        bits_left(available_bits as int, bits as int),
                    );
                    assert(shares_before + (seq![share] + rest.1) =~= shares_before.push(share)
                        + rest.1);
                }
                available_bits = if available_bits >= CONSERVATIVE_CHANNEL_HEADER_BITS {
                    available_bits - CONSERVATIVE_CHANNEL_HEADER_BITS
                } else {
                    0
                };
                available_bits = if available_bits >= bits {
                    available_bits - bits
                } else {
                    0
                };
                channel_data.push(data);
                assert(shares_of(channel_data@) =~= shares_before.push(share));
            }
            i += 1;
        }
        proof {
            assert(self@.channels.take(self@.channels.len() as int) =~= self@.channels);
            assert(self@.channels + Seq::<ChannelView<M>>::empty() =~= self@.channels);
            assert(shares_of(channel_data@) + Shares::<Seq<u8>>::empty() =~= shares_of(
                channel_data@,
            ));
        }
        if channel_data.len() > 0 {
            let packet = ConnectionPacket::new(channel_data);
            let written = packet.serialize(&self.config, packet_data);
            assert(packet_data@ =~= encode_packet(self@.channel_configs, packet.shares()));
            written
        } else {
            0
        }
    }

    /// Puts the connection back into its initial state.
    pub fn reset(&mut self)
        requires
            old(self).wf(),
        ensures
            final(self).wf(),
            final(self)@ == old(self)@.reset(),
    {
        self.error_level = ConnectionErrorLevel::NoError;
        let mut i: usize = 0;
        while i < self.channels.len()
            invariant
                self.wf(),
                i <= self.channels@.len(),
                self@.channels.len() == old(self)@.channels.len(),
                self@.error_level == ConnectionErrorLevel::NoError,
                self@.max_packet_size == old(self)@.max_packet_size,
                self@.channel_configs == old(self)@.channel_configs,
                forall|k: int|
                    0 <= k < self@.channels.len() ==> #[trigger] self@.channels[k] == if k < i {
                        old(self)@.channels[k].reset()
                    } else {
                        old(self)@.channels[k]
                    },
            decreases self.channels@.len() - i,
        {
            let ghost before = self@;
            self.channels[i].reset();
            proof {
                self.channels@[i as int].lemma_wf_view();
                assert(self@.channels =~= before.channels.update(
                    i as int,
                    before.channels[i as int].reset(),
                ));
            }
            i += 1;
        }
        assert(self@.channels =~= old(self)@.reset().channels);
    }

    /// The counters of the channel `channel`.
    pub fn channel_counters(&self, channel: usize) -> (counters: &ChannelCounters)
        requires
            channel < self@.channels.len(),
        ensures
            *counters == self@.channels[channel as int].counters,
    {
        self.channels[channel].counters()
    }

    /// Whether the send queue of the channel `channel` has room for one more message.
    pub fn can_send_message(&self, channel: usize) -> (room: bool)
        requires
            self.wf(),
            channel < self@.channels.len(),
        ensures
            room == self@.channels[channel as int].can_send_message(),
    {
        self.channels[channel].can_send_message()
    }

    /// Whether a message of the channel `channel` waits to be sent, or to be acked.
    pub fn has_messages_to_send(&self, channel: usize) -> (waiting: bool)
        requires
            channel < self@.channels.len(),
        ensures
            waiting == self@.channels[channel as int].has_messages_to_send(),
    {
        self.channels[channel].has_messages_to_send()
    }

    /// Hands out the next message of the channel `channel_index`, with its
    /// id, if there is one.
    pub fn receive_message(&mut self, channel_index: usize) -> (message: Option<(u16, M)>)
        requires
            old(self).wf(),
            channel_index < old(self)@.channels.len(),
        ensures
            final(self).wf(),
            message == old(self)@.channels[channel_index as int].next_message(),
            final(self)@ == old(self)@.with_channel(
                channel_index as int,
                old(self)@.channels[channel_index as int].received(),
            ),
    {
        let ghost before = self@;
        let message = self.channels[channel_index].receive_message();
        proof {
            self.channels@[channel_index as int].lemma_wf_view();
            assert(self@.channels =~= before.channels.update(
                channel_index as int,
                before.channels[channel_index as int].received(),
            ));
        }
        message
    }

    /// The error state of the channel `channel`.
    pub fn channel_error_level(&self, channel: usize) -> (level: ChannelErrorLevel)
        requires
            channel < self@.channels.len(),
        ensures
            level == self@.channels[channel as int].error_level,
    {
        self.channels[channel].error_level()
    }

    /// The number of channels.
    pub fn channel_count(&self) -> (count: usize)
        ensures
            count == self@.channels.len(),
    {
        self.channels.len()
    }
}

impl<M: NetworkMessage> Connection<M> {
    /// Reads the payload of a received packet and hands its shares to their
    /// channels. Returns whether all went well.
    ///
    /// A connection in an error state refuses the packet. A payload that
    /// cannot be read puts the connection into an error state, and none of
    /// its shares is processed.
    pub fn process_packet(&mut self, packet_sequence: u16, packet_data: &[u8]) -> (ok: bool)
        requires
            old(self).wf(),
        ensures
            final(self).wf(),
            old(self)@.error_level != ConnectionErrorLevel::NoError ==> !ok && final(self)@ == old(
                self,
            )@,
            ok ==> final(self)@.error_level == ConnectionErrorLevel::NoError,
            !ok ==> final(self)@.error_level != ConnectionErrorLevel::NoError,
            final(self)@.channel_configs == old(self)@.channel_configs,
            final(self)@.max_packet_size == old(self)@.max_packet_size,
            M::obeys_wire_spec() ==> {
                &&& final(self)@ == old(self)@.processed(
                    packet_sequence,
                    decode_packet::<M>(old(self)@.channel_configs, packet_data@),
                ).0
                &&& ok == old(self)@.processed(
                    packet_sequence,
                    decode_packet::<M>(old(self)@.channel_configs, packet_data@),
                ).1
            },
    {
        if self.error_level != ConnectionErrorLevel::NoError {
            return false;
        }
        let ghost before = self@;
        match ConnectionPacket::<M>::deserialize(&self.config, packet_data) {
            Err(ReadError::Malformed) => {
                self.error_level = ConnectionErrorLevel::ReadPacketFailed;
                false
            },
            Err(ReadError::Message(channel_index)) => {
                self.channels[channel_index].set_error_level(ChannelErrorLevel::FailedToSerialize);
                self.error_level = ConnectionErrorLevel::Channel;
                proof {
                    self.channels@[channel_index as int].lemma_wf_view();
                    assert(self@.channels =~= before.channels.update(
                        channel_index as int,
                        before.channels[channel_index as int].failed(
                            ChannelErrorLevel::FailedToSerialize,
                        ),
                    ));
                }
                false
            },
            Ok(packet) => self.process_shares(packet_sequence, packet),
        }
    }

    /// Queues a message to be sent across the channel `channel_index`.
    pub fn send_message(&mut self, channel_index: usize, message: M)
        requires
            old(self).wf(),
            channel_index < old(self)@.channels.len(),
        ensures
            final(self).wf(),
            sends(
                old(self)@.channels[channel_index as int],
                message,
                final(self)@.channels[channel_index as int],
            ),
            final(self)@ == old(self)@.with_channel(
                channel_index as int,
                final(self)@.channels[channel_index as int],
            ),
    {
        let ghost before = self@;
        self.channels[channel_index].send_message(message);
        proof {
            let channel = self.channels@[channel_index as int];
            channel.lemma_wf_view();
            assert(self@.channels[channel_index as int] == channel@);
            assert(before.channels[channel_index as int].config == channel@.config);
            assert(self@.channels =~= before.channels.update(channel_index as int, channel@));
        }
    }
}

} // verus!
