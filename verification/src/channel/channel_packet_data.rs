//! The share of one channel in a packet payload, and its layout on the wire.
//!
//! All integers are little-endian and tightly packed:
//!
//! ```text
//! u16  channel_index
//! u8   has_messages  (0 or 1)
//! if has_messages:
//!   u8   message_count_minus_one
//!   if channel is reliable:
//!     message_count x u16   message_ids
//!     (check value, if the connection writes check values)
//!   message_count x message bytes
//!     (each followed by a check value, if the connection writes them)
//! ```
//!
//! Message bodies carry no length: the message type itself finds the end of a
//! body. On the way out a message is its bytes; on the way in it is the
//! user's type again.

use crate::byte_order::{
    lemma_u16_round_trip,
    lemma_u32_round_trip,
    get_u16,
    get_u32,
    put_bytes,
    put_u16,
    put_u32,
    u16_from_le_bytes,
    u16_le_bytes,
    u32_from_le_bytes,
    u32_le_bytes,
};
use crate::channel::{check_bits, message_bits, CONSERVATIVE_MESSAGE_HEADER_BITS};
use crate::config::{ChannelConfig, ChannelType, ConnectionConfig};
use crate::message::NetworkMessage;
use vstd::prelude::*;

verus! {

/// The value that follows the message ids and each message body when the
/// connection writes check values.
pub const SERIALIZE_CHECK_VALUE: u32 = 0x12345678;

/// Why a payload could not be read.
#[derive(Debug, Clone, Copy, PartialEq, Eq, Structural)]
pub enum ReadError {
    /// The bytes do not follow the layout: they end too early, name a channel
    /// that is not configured, hold more messages than the channel allows, or
    /// miss a check value.
    Malformed,
    /// The message type did not find a message where one of the given channel
    /// should start.
    Message(usize),
}

/// Contains a series of messages sent on `channel_index`.
pub struct ChannelPacketData<M> {
    pub channel_index: usize,
    /// List of `(message_id, message)`.
    ///
    /// For a reliable channel the id counts the messages sent on the channel;
    /// it is written to the wire and read back. For an unreliable channel the
    /// id is the sequence number of the packet that carries the message; it is
    /// not written, and reads back as 0 until the receiving channel fills it in.
    pub messages: Vec<(u16, M)>,
}

/// The messages of outgoing packet data as plain values: ids and bodies.
pub open spec fn payloads_of(messages: Seq<(u16, Vec<u8>)>) -> Seq<(u16, Seq<u8>)> {
    messages.map_values(|m: (u16, Vec<u8>)| (m.0, m.1@))
}

/// The bytes of a check value, if the connection writes check values.
pub open spec fn check_bytes(check: bool) -> Seq<u8> {
    if check {
        u32_le_bytes(SERIALIZE_CHECK_VALUE)
    } else {
        Seq::empty()
    }
}

/// The ids of the messages, two bytes each.
pub open spec fn encode_ids(messages: Seq<(u16, Seq<u8>)>) -> Seq<u8>
    decreases messages.len(),
{
    if messages.len() == 0 {
        Seq::empty()
    } else {
        u16_le_bytes(messages[0].0) + encode_ids(messages.skip(1))
    }
}

/// The bodies of the messages back to back, each followed by its check value.
pub open spec fn encode_bodies(messages: Seq<(u16, Seq<u8>)>, check: bool) -> Seq<u8>
    decreases messages.len(),
{
    if messages.len() == 0 {
        Seq::empty()
    } else {
        messages[0].1 + check_bytes(check) + encode_bodies(messages.skip(1), check)
    }
}

/// What follows the message count: for a reliable channel the ids, their
/// check value and the bodies; for an unreliable channel the bodies alone.
pub open spec fn encode_messages(kind: ChannelType, messages: Seq<(u16, Seq<u8>)>, check: bool) -> Seq<
    u8,
> {
    match kind {
        ChannelType::ReliableOrdered => encode_ids(messages) + check_bytes(check) + encode_bodies(
            messages,
            check,
        ),
        ChannelType::UnreliableUnordered => encode_bodies(messages, check),
    }
}

/// The bytes of one channel's share of a packet.
pub open spec fn encode_channel_data(
    channel: ChannelConfig,
    channel_index: int,
    messages: Seq<(u16, Seq<u8>)>,
) -> Seq<u8> {
    u16_le_bytes(channel_index as u16) + (if messages.len() == 0 {
        seq![0u8]
    } else {
        seq![1u8, (messages.len() - 1) as u8] + encode_messages(
            channel.kind,
            messages,
            channel.serialize_check,
        )
    })
}

/// The number of bytes that a check value takes at the start of `bytes`:
/// none if the connection writes no check values, four if the value is there,
/// and `None` if it should be there and is not.
pub open spec fn decode_check(bytes: Seq<u8>, check: bool) -> Option<int> {
    if !check {
        Some(0)
    } else if bytes.len() >= 4 && u32_from_le_bytes(bytes) == SERIALIZE_CHECK_VALUE {
        Some(4)
    } else {
        None
    }
}

/// The first `count` message ids at the start of `bytes`.
pub open spec fn decode_ids(bytes: Seq<u8>, count: int) -> Seq<u16> {
    Seq::new(count as nat, |i: int| u16_from_le_bytes(bytes.skip(2 * i)))
}

/// The ids that the messages of an unreliable channel are read under: all 0.
pub open spec fn zero_ids(count: int) -> Seq<u16> {
    Seq::new(count as nat, |i: int| 0u16)
}

/// One message body per id from the start of `bytes`, each followed by its
/// check value, and the number of bytes that they take together.
///
/// The message type is handed all the bytes that are left, and says how many
/// of them the message takes.
pub open spec fn decode_bodies<M: NetworkMessage>(
    bytes: Seq<u8>,
    ids: Seq<u16>,
    check: bool,
    channel_index: usize,
) -> Result<(Seq<(u16, M)>, int), ReadError>
    decreases ids.len(),
{
    if ids.len() == 0 {
        Ok((Seq::empty(), 0))
    } else {
        match M::decoding(bytes) {
            None => Err(ReadError::Message(channel_index)),
            Some((message, taken)) => if taken < 0 || taken > bytes.len() {
                Err(ReadError::Malformed)
            } else {
                match decode_check(bytes.skip(taken), check) {
                    None => Err(ReadError::Malformed),
                    Some(c) => match decode_bodies::<M>(
                        bytes.skip(taken + c),
                        ids.skip(1),
                        check,
                        channel_index,
                    ) {
                        Err(e) => Err(e),
                        Ok((rest, more)) => Ok((seq![(ids[0], message)] + rest, taken + c + more)),
                    },
                }
            },
        }
    }
}

/// What the start of `bytes` holds as one channel's share of a packet: the
/// channel index, the messages, and the number of bytes taken.
///
/// A share without messages is read whatever its channel index is. A share
/// with messages must name a configured channel, whose kind decides the layout.
pub open spec fn decode_channel_data<M: NetworkMessage>(
    channels: Seq<ChannelConfig>,
    bytes: Seq<u8>,
) -> Result<(int, Seq<(u16, M)>, int), ReadError> {
    if bytes.len() < 3 {
        Err(ReadError::Malformed)
    } else {
        let index = u16_from_le_bytes(bytes) as int;
        if bytes[2] != 1 {
            Ok((index, Seq::empty(), 3))
        } else if index >= channels.len() || bytes.len() < 4 {
            Err(ReadError::Malformed)
        } else {
            let count = bytes[3] as int + 1;
            let check = channels[index].serialize_check;
            if count > channels[index].max_messages_per_packet {
                Err(ReadError::Malformed)
            } else {
                match channels[index].kind {
                    ChannelType::UnreliableUnordered => match decode_bodies::<M>(
                        bytes.skip(4),
                        zero_ids(count),
                        check,
                        index as usize,
                    ) {
                        Err(e) => Err(e),
                        Ok((messages, taken)) => Ok((index, messages, 4 + taken)),
                    },
                    ChannelType::ReliableOrdered => if bytes.len() < 4 + 2 * count {
                        Err(ReadError::Malformed)
                    } else {
                        match decode_check(bytes.skip(4 + 2 * count), check) {
                            None => Err(ReadError::Malformed),
                            Some(c) => match decode_bodies::<M>(
                                bytes.skip(4 + 2 * count + c),
                                decode_ids(bytes.skip(4), count),
                                check,
                                index as usize,
                            ) {
                                Err(e) => Err(e),
                                Ok((messages, taken)) => Ok(
                                    (index, messages, 4 + 2 * count + c + taken),
                                ),
                            },
                        }
                    },
                }
            }
        }
    }
}

/// Writing one more message at the end appends its id.
pub proof fn lemma_encode_ids_push(messages: Seq<(u16, Seq<u8>)>, last: (u16, Seq<u8>))
    ensures
        encode_ids(messages.push(last)) == encode_ids(messages) + u16_le_bytes(last.0),
    decreases messages.len(),
{
    if messages.len() == 0 {
        assert(messages.push(last).skip(1) =~= Seq::<(u16, Seq<u8>)>::empty());
        assert(encode_ids(messages.push(last).skip(1)) =~= Seq::<u8>::empty());
        assert(encode_ids(messages.push(last)) =~= encode_ids(messages) + u16_le_bytes(last.0));
    } else {
        lemma_encode_ids_push(messages.skip(1), last);
        assert(messages.push(last).skip(1) =~= messages.skip(1).push(last));
        assert(encode_ids(messages.push(last)) =~= encode_ids(messages) + u16_le_bytes(last.0));
    }
}

/// Writing one more message at the end appends its body and check value.
pub proof fn lemma_encode_bodies_push(
    messages: Seq<(u16, Seq<u8>)>,
    last: (u16, Seq<u8>),
    check: bool,
)
    ensures
        encode_bodies(messages.push(last), check) == encode_bodies(messages, check) + last.1
            + check_bytes(check),
    decreases messages.len(),
{
    if messages.len() == 0 {
        assert(messages.push(last).skip(1) =~= Seq::<(u16, Seq<u8>)>::empty());
        assert(encode_bodies(messages.push(last).skip(1), check) =~= Seq::<u8>::empty());
        assert(encode_bodies(messages.push(last), check) =~= encode_bodies(messages, check)
            + last.1 + check_bytes(check));
    } else {
        lemma_encode_bodies_push(messages.skip(1), last, check);
        assert(messages.push(last).skip(1) =~= messages.skip(1).push(last));
        assert(encode_bodies(messages.push(last), check) =~= encode_bodies(messages, check)
            + last.1 + check_bytes(check));
    }
}

/// The bits that a channel counts for its share of a packet: nothing for a
/// share without messages; else 32 bits for the header and the bits of each
/// message body, on a reliable channel 16 bits more per message for its id,
/// and 32 bits for every check value that is written.
pub open spec fn share_bits(channel: ChannelConfig, messages: Seq<(u16, Seq<u8>)>) -> int {
    if messages.len() == 0 {
        0
    } else {
        match channel.kind {
            ChannelType::ReliableOrdered => CONSERVATIVE_MESSAGE_HEADER_BITS + check_bits(
                channel.serialize_check,
            ) + message_bits(messages, 16 + check_bits(channel.serialize_check)),
            ChannelType::UnreliableUnordered => CONSERVATIVE_MESSAGE_HEADER_BITS + message_bits(
                messages,
                check_bits(channel.serialize_check),
            ),
        }
    }
}

/// The ids take two bytes each.
pub proof fn lemma_encode_ids_len(messages: Seq<(u16, Seq<u8>)>)
    ensures
        encode_ids(messages).len() == 2 * messages.len(),
    decreases messages.len(),
{
    if messages.len() > 0 {
        lemma_encode_ids_len(messages.drop_last());
        lemma_encode_ids_push(messages.drop_last(), messages.last());
        assert(messages.drop_last().push(messages.last()) =~= messages);
    }
}

/// The bodies with their check values take the bits that the channel counts
/// for them.
pub proof fn lemma_encode_bodies_len(messages: Seq<(u16, Seq<u8>)>, check: bool)
    ensures
        8 * encode_bodies(messages, check).len() == message_bits(messages, check_bits(check)),
    decreases messages.len(),
{
    if messages.len() > 0 {
        lemma_encode_bodies_len(messages.drop_last(), check);
        lemma_encode_bodies_push(messages.drop_last(), messages.last(), check);
        assert(messages.drop_last().push(messages.last()) =~= messages);
    }
}

/// More overhead per message adds up over the messages.
pub proof fn lemma_message_bits_overhead(messages: Seq<(u16, Seq<u8>)>, overhead: int, more: int)
    ensures
        message_bits(messages, overhead + more) == message_bits(messages, overhead) + more
            * messages.len(),
    decreases messages.len(),
{
    if messages.len() > 0 {
        lemma_message_bits_overhead(messages.drop_last(), overhead, more);
        assert(more * messages.len() == more * messages.drop_last().len() + more)
            by (nonlinear_arith)
            requires
                messages.len() == messages.drop_last().len() + 1,
        ;
    }
}

/// A share with messages takes on the wire exactly the bits that its channel
/// counts for it.
pub proof fn lemma_share_size(channel: ChannelConfig, channel_index: int, messages: Seq<
    (u16, Seq<u8>),
>)
    requires
        messages.len() > 0,
    ensures
        8 * encode_channel_data(channel, channel_index, messages).len() == share_bits(
            channel,
            messages,
        ),
{
    let check = channel.serialize_check;
    lemma_encode_ids_len(messages);
    lemma_encode_bodies_len(messages, check);
    lemma_message_bits_overhead(messages, check_bits(check), 16);
    assert(16 * messages.len() == 8 * (2 * messages.len())) by (nonlinear_arith);
}

impl ChannelPacketData<Vec<u8>> {
    /// The messages as plain values.
    pub open spec fn payloads(&self) -> Seq<(u16, Seq<u8>)> {
        payloads_of(self.messages@)
    }

    /// Appends this channel's share of a packet to `dest`.
    pub fn serialize(&self, config: &ConnectionConfig, dest: &mut Vec<u8>)
        requires
            self.channel_index < config.channels@.len(),
            self.channel_index <= 65535,
            self.messages@.len() <= 256,
        ensures
            final(dest)@ == old(dest)@ + encode_channel_data(
                config.channels@[self.channel_index as int],
                self.channel_index as int,
                self.payloads(),
            ),
    {
        put_u16(dest, self.channel_index as u16);
        let channel = &config.channels[self.channel_index];
        let has_messages = self.messages.len() > 0;
        if !has_messages {
            dest.push(0);
            assert(dest@ =~= old(dest)@ + encode_channel_data(
                *channel,
                self.channel_index as int,
                self.payloads(),
            ));
            return ;
        }
        dest.push(1);
        dest.push((self.messages.len() - 1) as u8);
        let ghost head = dest@;
        match channel.kind {
            ChannelType::UnreliableUnordered => self.serialize_unordered(
                dest,
                channel.serialize_check,
            ),
            ChannelType::ReliableOrdered => self.serialize_ordered(dest, channel.serialize_check),
        }
        assert(head =~= old(dest)@ + u16_le_bytes(self.channel_index as u16) + seq![
            1u8,
            (self.messages@.len() - 1) as u8,
        ]);
        assert(dest@ =~= old(dest)@ + encode_channel_data(
            *channel,
            self.channel_index as int,
            self.payloads(),
        ));
    }

    /// Appends the message bodies to `dest`, as an unreliable channel lays them out.
    pub fn serialize_unordered(&self, dest: &mut Vec<u8>, check: bool)
        ensures
            final(dest)@ == old(dest)@ + encode_bodies(self.payloads(), check),
    {
        let mut i: usize = 0;
        while i < self.messages.len()
            invariant
                i <= self.messages@.len(),
                dest@ == old(dest)@ + encode_bodies(self.payloads().take(i as int), check),
            decreases self.messages@.len() - i,
        {
            let ghost before = dest@;
            put_bytes(dest, self.messages[i].1.as_slice());
            Self::serialize_check(dest, check);
            proof {
                let all = self.payloads();
                lemma_encode_bodies_push(all.take(i as int), all[i as int], check);
                assert(all.take(i as int).push(all[i as int]) =~= all.take(i as int + 1));
                assert(dest@ =~= before + all[i as int].1 + check_bytes(check));
            }
            i += 1;
        }
        assert(self.payloads().take(self.messages@.len() as int) =~= self.payloads());
    }

    /// Appends the message ids and then the message bodies to `dest`, as a
    /// reliable channel lays them out.
    ///
    /// The ids come first so that a reader knows them all before it reads a body.
    pub fn serialize_ordered(&self, dest: &mut Vec<u8>, check: bool)
        ensures
            final(dest)@ == old(dest)@ + encode_ids(self.payloads()) + check_bytes(check)
                + encode_bodies(self.payloads(), check),
    {
        let mut i: usize = 0;
        while i < self.messages.len()
            invariant
                i <= self.messages@.len(),
                dest@ == old(dest)@ + encode_ids(self.payloads().take(i as int)),
            decreases self.messages@.len() - i,
        {
            let ghost before = dest@;
            put_u16(dest, self.messages[i].0);
            proof {
                let all = self.payloads();
                lemma_encode_ids_push(all.take(i as int), all[i as int]);
                assert(all.take(i as int).push(all[i as int]) =~= all.take(i as int + 1));
                assert(dest@ =~= before + u16_le_bytes(all[i as int].0));
            }
            i += 1;
        }
        assert(self.payloads().take(self.messages@.len() as int) =~= self.payloads());
        Self::serialize_check(dest, check);
        self.serialize_unordered(dest, check);
    }

    /// Appends a check value to `dest`, if the connection writes check values.
    pub fn serialize_check(dest: &mut Vec<u8>, check: bool)
        ensures
            final(dest)@ == old(dest)@ + check_bytes(check),
    {
        if check {
            put_u32(dest, SERIALIZE_CHECK_VALUE);
        } else {
            assert(dest@ =~= old(dest)@ + check_bytes(check));
        }
    }
}

impl<M: NetworkMessage> ChannelPacketData<M> {
    /// Reads one channel's share of a packet from the start of `src`, and says
    /// how many bytes it took.
    ///
    /// The whole of what is left of the packet is handed in: each message is
    /// offered all the bytes from its start on.
    pub fn deserialize(config: &ConnectionConfig, src: &[u8]) -> (result: Result<
        (ChannelPacketData<M>, usize),
        ReadError,
    >)
        ensures
            result matches Ok((data, taken)) ==> {
                &&& taken <= src@.len()
                &&& data.channel_index <= 65535
                &&& data.messages@.len() <= 256
                &&& data.messages@.len() > 0 ==> data.channel_index < config.channels@.len()
            },
            result matches Err(ReadError::Message(index)) ==> index < config.channels@.len(),
            M::obeys_wire_spec() ==> match decode_channel_data::<M>(config.channels@, src@) {
                Ok((index, messages, size)) => {
                    &&& result matches Ok((data, taken))
                    &&& data.channel_index == index
                    &&& data.messages@ == messages
                    &&& taken == size
                },
                Err(e) => result matches Err(found) && found == e,
            },
    {
        if src.len() < 3 {
            return Err(ReadError::Malformed);
        }
        let channel_index: usize = match get_u16(src, 0) {
            Some(index) => index as usize,
            None => { return Err(ReadError::Malformed); },
        };
        assert(src@.skip(0) =~= src@);
        let has_messages = src[2] == 1;
        if !has_messages {
            return Ok((ChannelPacketData { channel_index, messages: Vec::new() }, 3));
        }
        if channel_index >= config.channels.len() || src.len() < 4 {
            return Err(ReadError::Malformed);
        }
        let message_count: usize = src[3] as usize + 1;
        let channel = &config.channels[channel_index];
        if message_count > channel.max_messages_per_packet {
            return Err(ReadError::Malformed);
        }
        let mut messages: Vec<(u16, M)> = Vec::new();
        let end = match channel.kind {
            ChannelType::UnreliableUnordered => Self::deserialize_unordered(
                src,
                4,
                message_count,
                channel.serialize_check,
                channel_index,
                &mut messages,
            ),
            ChannelType::ReliableOrdered => Self::deserialize_ordered(
                src,
                4,
                message_count,
                channel.serialize_check,
                channel_index,
                &mut messages,
            ),
        };
        proof {
            if M::obeys_wire_spec() {
                match decode_channel_data::<M>(config.channels@, src@) {
                    Ok((index, list, size)) => {
                        assert(Seq::<(u16, M)>::empty() + list =~= list);
                    },
                    Err(_) => {},
                }
            }
        }
        match end {
            Ok(next) => Ok((ChannelPacketData { channel_index, messages }, next)),
            Err(e) => Err(e),
        }
    }

    /// Reads `message_count` message bodies from `src` at `start`, as an
    /// unreliable channel lays them out, and appends them to `messages` under
    /// the id 0. Returns the position after the last of them.
    pub fn deserialize_unordered(
        src: &[u8],
        start: usize,
        message_count: usize,
        check: bool,
        channel_index: usize,
        messages: &mut Vec<(u16, M)>,
    ) -> (result: Result<usize, ReadError>)
        requires
            start <= src@.len(),
        ensures
            result matches Ok(next) ==> start <= next <= src@.len() && final(messages)@.len()
                == old(messages)@.len() + message_count,
            result matches Err(ReadError::Message(index)) ==> index == channel_index,
            M::obeys_wire_spec() ==> match decode_bodies::<M>(
                src@.skip(start as int),
                zero_ids(message_count as int),
                check,
                channel_index,
            ) {
                Ok((list, taken)) => {
                    &&& result matches Ok(next)
                    &&& next == start + taken
                    &&& final(messages)@ == old(messages)@ + list
                },
                Err(e) => result == Err::<usize, ReadError>(e),
            },
    {
        let mut ids: Vec<u16> = Vec::new();
        let mut i: usize = 0;
        while i < message_count
            invariant
                i <= message_count,
                ids@ == zero_ids(i as int),
            decreases message_count - i,
        {
            ids.push(0);
            assert(ids@ =~= zero_ids(i + 1));
            i += 1;
        }
        Self::deserialize_bodies(src, start, &ids, check, channel_index, messages)
    }

    /// Reads `message_count` message ids and then as many message bodies from
    /// `src` at `start`, as a reliable channel lays them out, and appends them
    /// to `messages`. Returns the position after the last of them.
    pub fn deserialize_ordered(
        src: &[u8],
        start: usize,
        message_count: usize,
        check: bool,
        channel_index: usize,
        messages: &mut Vec<(u16, M)>,
    ) -> (result: Result<usize, ReadError>)
        requires
            start <= src@.len(),
            message_count <= 256,
        ensures
            result matches Ok(next) ==> start <= next <= src@.len() && final(messages)@.len()
                == old(messages)@.len() + message_count,
            result matches Err(ReadError::Message(index)) ==> index == channel_index,
            M::obeys_wire_spec() ==> (if src@.len() - start < 2 * message_count {
                result == Err::<usize, ReadError>(ReadError::Malformed)
            } else {
                match decode_check(src@.skip(start + 2 * message_count), check) {
                    None => result == Err::<usize, ReadError>(ReadError::Malformed),
                    Some(c) => match decode_bodies::<M>(
                        src@.skip(start + 2 * message_count + c),
                        decode_ids(src@.skip(start as int), message_count as int),
                        check,
                        channel_index,
                    ) {
                        Ok((list, taken)) => {
                            &&& result matches Ok(next)
                            &&& next == start + 2 * message_count + c + taken
                            &&& final(messages)@ == old(messages)@ + list
                        },
                        Err(e) => result == Err::<usize, ReadError>(e),
                    },
                }
            }),
    {
        if src.len() - start < 2 * message_count {
            return Err(ReadError::Malformed);
        }
        let mut ids: Vec<u16> = Vec::new();
        let mut i: usize = 0;
        while i < message_count
            invariant
                i <= message_count <= 256,
                start + 2 * message_count <= src@.len() <= usize::MAX,
                ids@ == decode_ids(src@.skip(start as int), i as int),
            decreases message_count - i,
        {
            let id: u16 = match get_u16(src, start + 2 * i) {
                Some(id) => id,
                None => { return Err(ReadError::Malformed); },
            };
            ids.push(id);
            proof {
                assert(src@.skip(start as int).skip(2 * i as int) =~= src@.skip(start + 2 * i));
                assert(ids@ =~= decode_ids(src@.skip(start as int), i as int + 1));
            }
            i += 1;
        }
        let after_ids: usize = start + 2 * message_count;
        let after_check: usize = match Self::deserialize_check(src, after_ids, check) {
            Some(next) => next,
            None => { return Err(ReadError::Malformed); },
        };
        Self::deserialize_bodies(src, after_check, &ids, check, channel_index, messages)
    }

    /// Reads one message body per id from `src` at `start`, each followed by
    /// its check value, and appends the messages to `messages`. Returns the
    /// position after the last of them.
    fn deserialize_bodies(
        src: &[u8],
        start: usize,
        ids: &Vec<u16>,
        check: bool,
        channel_index: usize,
        messages: &mut Vec<(u16, M)>,
    ) -> (result: Result<usize, ReadError>)
        requires
            start <= src@.len(),
        ensures
            result matches Ok(next) ==> start <= next <= src@.len() && final(messages)@.len()
                == old(messages)@.len() + ids@.len(),
            result matches Err(ReadError::Message(index)) ==> index == channel_index,
            M::obeys_wire_spec() ==> match decode_bodies::<M>(
                src@.skip(start as int),
                ids@,
                check,
                channel_index,
            ) {
                Ok((list, taken)) => {
                    &&& result matches Ok(next)
                    &&& next == start + taken
                    &&& final(messages)@ == old(messages)@ + list
                },
                Err(e) => result == Err::<usize, ReadError>(e),
            },
    {
        let mut pos: usize = start;
        let mut i: usize = 0;
        let ghost mut parsed: Seq<(u16, M)> = Seq::empty();
        assert(ids@.skip(0) =~= ids@);
        assert(messages@ =~= old(messages)@ + parsed);
        while i < ids.len()
            invariant
                i <= ids@.len(),
                start <= pos <= src@.len(),
                parsed.len() == i,
                messages@ == old(messages)@ + parsed,
                M::obeys_wire_spec() ==> decode_bodies::<M>(
                    src@.skip(start as int),
                    ids@,
                    check,
                    channel_index,
                ) == (match decode_bodies::<M>(
                    src@.skip(pos as int),
                    ids@.skip(i as int),
                    check,
                    channel_index,
                ) {
                    Ok((rest, more)) => Ok::<(Seq<(u16, M)>, int), ReadError>(
                        (parsed + rest, pos - start + more),
                    ),
                    Err(e) => Err(e),
                }),
            decreases ids@.len() - i,
        {
            let rest = vstd::slice::slice_subrange(src, pos, src.len());
            assert(rest@ =~= src@.skip(pos as int));
            let ghost here = src@.skip(pos as int);
            let ghost left = ids@.skip(i as int);
            assert(left.len() > 0 && left[0] == ids@[i as int]);
            assert(left.skip(1) =~= ids@.skip(i + 1));
            match M::deserialize(rest) {
                Err(_) => {
                    return Err(ReadError::Message(channel_index));
                },
                Ok((message, taken)) => {
                    if taken > src.len() - pos {
                        return Err(ReadError::Malformed);
                    }
                    let after: usize = pos + taken;
                    assert(here.skip(taken as int) =~= src@.skip(after as int));
                    let next: usize = match Self::deserialize_check(src, after, check) {
                        Some(next) => next,
                        None => { return Err(ReadError::Malformed); },
                    };
                    assert(here.skip(next - pos) =~= src@.skip(next as int));
                    messages.push((ids[i], message));
                    proof {
                        let added = seq![(ids@[i as int], message)];
                        assert(messages@ =~= old(messages)@ + (parsed + added));
                        if M::obeys_wire_spec() {
                            match decode_bodies::<M>(
                                src@.skip(next as int),
                                ids@.skip(i + 1),
                                check,
                                channel_index,
                            ) {
                                Ok((rest2, more)) => {
                                    assert(parsed + (added + rest2) =~= (parsed + added) + rest2);
                                },
                                Err(_) => {},
                            }
                        }
                        parsed = parsed + added;
                    }
                    pos = next;
                    i += 1;
                },
            }
        }
        proof {
            assert(ids@.skip(i as int) =~= Seq::<u16>::empty());
            assert(parsed + Seq::<(u16, M)>::empty() =~= parsed);
        }
        Ok(pos)
    }

    /// Reads the check value from `src` at `at`, if the connection writes
    /// check values. Returns the position after it, or `None` if the value
    /// should be there and is not.
    pub fn deserialize_check(src: &[u8], at: usize, check: bool) -> (result: Option<usize>)
        requires
            at <= src@.len(),
        ensures
            match decode_check(src@.skip(at as int), check) {
                Some(c) => result matches Some(next) && next == at + c && next <= src@.len(),
                None => result is None,
            },
    {
        if !check {
            return Some(at);
        }
        match get_u32(src, at) {
            Some(value) => if value == SERIALIZE_CHECK_VALUE {
                Some(at + 4)
            } else {
                None
            },
            None => None,
        }
    }
}

impl<M> ChannelPacketData<M> {
    /// Packet data of no channel, without messages: what a channel hands out
    /// when it has nothing to send.
    pub fn empty() -> (data: ChannelPacketData<M>)
        ensures
            data.channel_index == usize::MAX,
            data.messages@.len() == 0,
    {
        ChannelPacketData { channel_index: usize::MAX, messages: Vec::new() }
    }
}

/// `message` is read back from `payload`, whatever follows the payload, and
/// takes exactly the payload.
pub open spec fn decodes_to<M: NetworkMessage>(payload: Seq<u8>, message: M) -> bool {
    forall|rest: Seq<u8>| #[trigger]
        M::decoding(payload + rest) == Some((message, payload.len() as int))
}

/// Every body in `payloads` is read back as the message in the same place of `messages`.
pub open spec fn all_decode_to<M: NetworkMessage>(
    payloads: Seq<(u16, Seq<u8>)>,
    messages: Seq<M>,
) -> bool {
    &&& payloads.len() == messages.len()
    &&& forall|i: int| 0 <= i < payloads.len() ==> decodes_to(payloads[i].1, #[trigger] messages[i])
}

/// The messages under the given ids.
pub open spec fn with_ids<M>(ids: Seq<u16>, messages: Seq<M>) -> Seq<(u16, M)> {
    Seq::new(messages.len(), |i: int| (ids[i], messages[i]))
}

/// The ids of outgoing messages.
pub open spec fn ids_of(payloads: Seq<(u16, Seq<u8>)>) -> Seq<u16> {
    Seq::new(payloads.len(), |i: int| payloads[i].0)
}

/// The ids that messages are read back under: their own on a reliable
/// channel, 0 on an unreliable channel, which does not write ids.
pub open spec fn ids_read_back(kind: ChannelType, payloads: Seq<(u16, Seq<u8>)>) -> Seq<u16> {
    match kind {
        ChannelType::ReliableOrdered => ids_of(payloads),
        ChannelType::UnreliableUnordered => zero_ids(payloads.len() as int),
    }
}

/// A check value that was written is found when it is read.
pub proof fn lemma_check_round_trip(check: bool, rest: Seq<u8>)
    ensures
        decode_check(check_bytes(check) + rest, check) == Some(check_bytes(check).len() as int),
{
    if check {
        lemma_u32_round_trip(SERIALIZE_CHECK_VALUE);
        let bytes = check_bytes(check) + rest;
        assert(bytes[0] == check_bytes(check)[0]);
        assert(bytes[1] == check_bytes(check)[1]);
        assert(bytes[2] == check_bytes(check)[2]);
        assert(bytes[3] == check_bytes(check)[3]);
    }
}

/// Ids that were written are the ids that are read.
pub proof fn lemma_ids_round_trip(payloads: Seq<(u16, Seq<u8>)>, rest: Seq<u8>)
    ensures
        decode_ids(encode_ids(payloads) + rest, payloads.len() as int) == ids_of(payloads),
    decreases payloads.len(),
{
    let bytes = encode_ids(payloads) + rest;
    lemma_encode_ids_len(payloads);
    assert forall|i: int| 0 <= i < payloads.len() implies u16_from_le_bytes(bytes.skip(2 * i))
        == payloads[i].0 by {
        lemma_ids_at(payloads, rest, i);
    }
    assert(decode_ids(bytes, payloads.len() as int) =~= ids_of(payloads));
}

/// The `i`-th id stands at the byte `2 * i` of the written ids.
proof fn lemma_ids_at(payloads: Seq<(u16, Seq<u8>)>, rest: Seq<u8>, i: int)
    requires
        0 <= i < payloads.len(),
    ensures
        u16_from_le_bytes((encode_ids(payloads) + rest).skip(2 * i)) == payloads[i].0,
    decreases i,
{
    let bytes = encode_ids(payloads) + rest;
    let tail = payloads.skip(1);
    lemma_encode_ids_len(payloads);
    lemma_encode_ids_len(tail);
    lemma_u16_round_trip(payloads[0].0);
    if i == 0 {
        assert(bytes.skip(0) =~= bytes);
        assert(bytes[0] == u16_le_bytes(payloads[0].0)[0]);
        assert(bytes[1] == u16_le_bytes(payloads[0].0)[1]);
    } else {
        lemma_ids_at(tail, rest, i - 1);
        assert(bytes.skip(2 * i) =~= (encode_ids(tail) + rest).skip(2 * (i - 1)));
    }
}

/// Message bodies that were written are read back as the messages that they
/// stand for, under the ids that the reader has for them.
pub proof fn lemma_bodies_round_trip<M: NetworkMessage>(
    payloads: Seq<(u16, Seq<u8>)>,
    messages: Seq<M>,
    ids: Seq<u16>,
    check: bool,
    channel_index: usize,
    rest: Seq<u8>,
)
    requires
        all_decode_to(payloads, messages),
        ids.len() == payloads.len(),
    ensures
        decode_bodies::<M>(encode_bodies(payloads, check) + rest, ids, check, channel_index) == Ok::<
            (Seq<(u16, M)>, int),
            ReadError,
        >((with_ids(ids, messages), encode_bodies(payloads, check).len() as int)),
    decreases payloads.len(),
{
    let bytes = encode_bodies(payloads, check) + rest;
    if payloads.len() == 0 {
        assert(with_ids(ids, messages) =~= Seq::<(u16, M)>::empty());
    } else {
        let body = payloads[0].1;
        let tail = payloads.skip(1);
        let after_body = check_bytes(check) + encode_bodies(tail, check) + rest;
        let after_check = encode_bodies(tail, check) + rest;
        assert(bytes =~= body + after_body);
        assert(decodes_to(body, messages[0]));
        assert(M::decoding(body + after_body) == Some((messages[0], body.len() as int)));
        assert(bytes.skip(body.len() as int) =~= check_bytes(check) + after_check);
        lemma_check_round_trip(check, after_check);
        let c = check_bytes(check).len() as int;
        assert(bytes.skip(body.len() + c) =~= after_check);
        assert(all_decode_to(tail, messages.skip(1))) by {
            assert forall|i: int| 0 <= i < tail.len() implies decodes_to(
                tail[i].1,
                #[trigger] messages.skip(1)[i],
            ) by {
                assert(decodes_to(payloads[i + 1].1, messages[i + 1]));
            }
        }
        lemma_bodies_round_trip::<M>(tail, messages.skip(1), ids.skip(1), check, channel_index, rest);
        assert(seq![(ids[0], messages[0])] + with_ids(ids.skip(1), messages.skip(1)) =~= with_ids(
            ids,
            messages,
        ));
    }
}

/// What was written for the messages of an unreliable channel is read back.
proof fn lemma_unreliable_round_trip<M: NetworkMessage>(
    channels: Seq<ChannelConfig>,
    channel_index: int,
    payloads: Seq<(u16, Seq<u8>)>,
    messages: Seq<M>,
    rest: Seq<u8>,
)
    requires
        0 <= channel_index < channels.len(),
        channel_index <= 65535,
        0 < payloads.len() <= 256,
        payloads.len() <= channels[channel_index].max_messages_per_packet,
        channels[channel_index].kind == ChannelType::UnreliableUnordered,
        all_decode_to(payloads, messages),
    ensures
        decode_channel_data::<M>(
            channels,
            encode_channel_data(channels[channel_index], channel_index, payloads) + rest,
        ) == Ok::<(int, Seq<(u16, M)>, int), ReadError>(
            (
                channel_index,
                with_ids(zero_ids(payloads.len() as int), messages),
                encode_channel_data(channels[channel_index], channel_index, payloads).len() as int,
            ),
        ),
{
    let channel = channels[channel_index];
    let check = channel.serialize_check;
    let bodies = encode_bodies(payloads, check);
    let head = u16_le_bytes(channel_index as u16) + seq![1u8, (payloads.len() - 1) as u8];
    let bytes = encode_channel_data(channel, channel_index, payloads) + rest;
    assert(bytes =~= head + (bodies + rest));
    lemma_u16_round_trip(channel_index as u16);
    assert(bytes[0] == head[0] && bytes[1] == head[1] && bytes[2] == 1 && bytes[3] == (
    payloads.len() - 1) as u8);
    assert(bytes.skip(4) =~= bodies + rest);
    lemma_bodies_round_trip::<M>(
        payloads,
        messages,
        zero_ids(payloads.len() as int),
        check,
        channel_index as usize,
        rest,
    );
    assert(encode_channel_data(channel, channel_index, payloads).len() == 4 + bodies.len());
}

/// What was written for the messages of a reliable channel is read back.
proof fn lemma_reliable_round_trip<M: NetworkMessage>(
    channels: Seq<ChannelConfig>,
    channel_index: int,
    payloads: Seq<(u16, Seq<u8>)>,
    messages: Seq<M>,
    rest: Seq<u8>,
)
    requires
        0 <= channel_index < channels.len(),
        channel_index <= 65535,
        0 < payloads.len() <= 256,
        payloads.len() <= channels[channel_index].max_messages_per_packet,
        channels[channel_index].kind == ChannelType::ReliableOrdered,
        all_decode_to(payloads, messages),
    ensures
        decode_channel_data::<M>(
            channels,
            encode_channel_data(channels[channel_index], channel_index, payloads) + rest,
        ) == Ok::<(int, Seq<(u16, M)>, int), ReadError>(
            (
                channel_index,
                with_ids(ids_of(payloads), messages),
                encode_channel_data(channels[channel_index], channel_index, payloads).len() as int,
            ),
        ),
{
    let channel = channels[channel_index];
    let check = channel.serialize_check;
    let count = payloads.len() as int;
    let ids = encode_ids(payloads);
    let bodies = encode_bodies(payloads, check);
    let head = u16_le_bytes(channel_index as u16) + seq![1u8, (payloads.len() - 1) as u8];
    let bytes = encode_channel_data(channel, channel_index, payloads) + rest;
    let after_ids = check_bytes(check) + (bodies + rest);
    assert(bytes =~= head + (ids + after_ids));
    lemma_u16_round_trip(channel_index as u16);
    assert(bytes[0] == head[0] && bytes[1] == head[1] && bytes[2] == 1 && bytes[3] == (
    payloads.len() - 1) as u8);
    lemma_encode_ids_len(payloads);
    assert(bytes.skip(4) =~= ids + after_ids);
    lemma_ids_round_trip(payloads, after_ids);
    assert(bytes.skip(4 + 2 * count) =~= check_bytes(check) + (bodies + rest));
    lemma_check_round_trip(check, bodies + rest);
    let c = check_bytes(check).len() as int;
    assert(bytes.skip(4 + 2 * count + c) =~= bodies + rest);
    lemma_bodies_round_trip::<M>(
        payloads,
        messages,
        ids_of(payloads),
        check,
        channel_index as usize,
        rest,
    );
    assert(encode_channel_data(channel, channel_index, payloads).len() == 4 + 2 * count + c
        + bodies.len());
}

/// Round trip of one channel's share of a packet: what was written for
/// messages on a configured channel is read back, whatever follows it, as the
/// same channel index and the same messages, and takes exactly the bytes
/// written. On a reliable channel the message ids come back too; an
/// unreliable channel does not write ids, and its messages come back under 0.
pub proof fn lemma_channel_data_round_trip<M: NetworkMessage>(
    channels: Seq<ChannelConfig>,
    channel_index: int,
    payloads: Seq<(u16, Seq<u8>)>,
    messages: Seq<M>,
    rest: Seq<u8>,
)
    requires
        0 <= channel_index < channels.len(),
        channel_index <= 65535,
        payloads.len() <= 256,
        payloads.len() <= channels[channel_index].max_messages_per_packet,
        all_decode_to(payloads, messages),
    ensures
        decode_channel_data::<M>(
            channels,
            encode_channel_data(channels[channel_index], channel_index, payloads) + rest,
        ) == Ok::<(int, Seq<(u16, M)>, int), ReadError>(
            (
                channel_index,
                with_ids(ids_read_back(channels[channel_index].kind, payloads), messages),
                encode_channel_data(channels[channel_index], channel_index, payloads).len() as int,
            ),
        ),
{
    let channel = channels[channel_index];
    if payloads.len() == 0 {
        let bytes = encode_channel_data(channel, channel_index, payloads) + rest;
        lemma_u16_round_trip(channel_index as u16);
        assert(bytes[0] == u16_le_bytes(channel_index as u16)[0]);
        assert(bytes[1] == u16_le_bytes(channel_index as u16)[1]);
        assert(bytes[2] == 0);
        assert(with_ids(ids_read_back(channel.kind, payloads), messages) =~= Seq::<
            (u16, M),
        >::empty());
    } else {
        match channel.kind {
            ChannelType::UnreliableUnordered => {
                lemma_unreliable_round_trip::<M>(channels, channel_index, payloads, messages, rest);
            },
            ChannelType::ReliableOrdered => {
                lemma_reliable_round_trip::<M>(channels, channel_index, payloads, messages, rest);
            },
        }
    }
}

} // verus!
