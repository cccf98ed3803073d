//! Configuration of channels, connections, clients and servers.
//!
//! Times are whole microseconds throughout the crate.

use crate::network_simulator::NetworkSimulatorConfig;
use vstd::prelude::*;

verus! {

/// The transport's timeout, in seconds, unless configured otherwise.
pub const DEFAULT_TIMEOUT: i32 = 5;

/// Determines the reliability and ordering guarantees for a channel.
#[derive(Debug, Clone, Copy, PartialEq, Eq, Structural)]
pub enum ChannelType {
    /// Messages arrive, and in the order they were sent.
    ReliableOrdered,
    /// Messages may be lost, and may arrive in any order.
    UnreliableUnordered,
}

/// How one channel of a connection is set up.
#[derive(Debug, Clone, Copy)]
pub struct ChannelConfig {
    pub kind: ChannelType,
    /// Number of sent packets that a reliable channel remembers the messages of.
    pub sent_packet_buffer_size: usize,
    /// Number of messages that can wait to be sent, or to be acked.
    pub message_send_queue_size: usize,
    /// Number of received messages that can wait for the application.
    pub message_receive_queue_size: usize,
    /// Maximum number of messages per packet.
    ///
    /// At most 256, since the count minus one is written as one byte.
    pub max_messages_per_packet: usize,
    /// Maximum amount of message data to write to the packet for this channel
    /// (bytes). `None` lets the channel use what is left of the packet.
    pub packet_budget: Option<usize>,
    /// Time after which an unacked message is sent again (microseconds).
    pub message_resend_time: i64,
    /// Time after which an unacked block fragment is sent again (microseconds).
    pub block_fragment_resend_time: i64,
    /// Whether a check value follows the message ids and each message body of
    /// this channel on the wire, to catch a reader that drifts away from the
    /// writer. Both sides must agree on it.
    pub serialize_check: bool,
}

impl ChannelConfig {
    /// The sizes are in range: at least one and at most 256 messages per
    /// packet, and for a reliable channel between 1 and 65535 slots in each of
    /// its buffers.
    pub open spec fn valid(&self) -> bool {
        &&& 1 <= self.max_messages_per_packet <= 256
        &&& self.kind == ChannelType::ReliableOrdered ==> {
            &&& 1 <= self.sent_packet_buffer_size <= 65535
            &&& 1 <= self.message_send_queue_size <= 65535
            &&& 1 <= self.message_receive_queue_size <= 65535
        }
    }

    /// The defaults for a channel of the given kind: buffers of 1024 slots,
    /// up to 256 messages per packet, no budget of its own, a tenth of a second
    /// before a message is sent again, and no check values.
    pub open spec fn spec_new(kind: ChannelType) -> ChannelConfig {
        ChannelConfig {
            kind,
            sent_packet_buffer_size: 1024,
            message_send_queue_size: 1024,
            message_receive_queue_size: 1024,
            max_messages_per_packet: 256,
            packet_budget: None,
            message_resend_time: 100_000,
            block_fragment_resend_time: 250_000,
            serialize_check: false,
        }
    }

    /// A channel of the given kind with the default sizes and times.
    #[verifier::when_used_as_spec(spec_new)]
    pub fn new(kind: ChannelType) -> (config: ChannelConfig)
        ensures
            config.valid(),
            config == Self::spec_new(kind),
    {
        ChannelConfig {
            kind,
            sent_packet_buffer_size: 1024,
            message_send_queue_size: 1024,
            message_receive_queue_size: 1024,
            max_messages_per_packet: 256,
            packet_budget: None,
            message_resend_time: 100_000,
            block_fragment_resend_time: 250_000,
            serialize_check: false,
        }
    }

    /// Tests whether the configuration is valid.
    pub fn is_valid(&self) -> (valid: bool)
        ensures
            valid == self.valid(),
    {
        if self.max_messages_per_packet < 1 || self.max_messages_per_packet > 256 {
            return false;
        }
        match self.kind {
            ChannelType::ReliableOrdered => {
                1 <= self.sent_packet_buffer_size && self.sent_packet_buffer_size <= 65535 && 1
                    <= self.message_send_queue_size && self.message_send_queue_size <= 65535 && 1
                    <= self.message_receive_queue_size && self.message_receive_queue_size <= 65535
            },
            ChannelType::UnreliableUnordered => true,
        }
    }
}

/// How a connection is set up: the packet size and the channels, in order.
#[derive(Debug, Clone)]
pub struct ConnectionConfig {
    /// Largest packet payload that the connection writes (bytes).
    pub max_packet_size: usize,
    /// The channels. A connection has at least one.
    pub channels: Vec<ChannelConfig>,
}

impl ConnectionConfig {
    /// At least one channel and fewer than 65535, each of them valid, and a
    /// packet size of at least one byte whose bit count fits the machine.
    pub open spec fn valid(&self) -> bool {
        &&& 1 <= self.channels@.len() < 65535
        &&& 1 <= self.max_packet_size
        &&& self.max_packet_size * 8 <= usize::MAX
        &&& forall|i: int| 0 <= i < self.channels@.len() ==> (#[trigger] self.channels@[i]).valid()
    }

    /// A connection of `channels` reliable channels with the default sizes,
    /// and packets of up to 8192 bytes.
    pub fn new(channels: usize) -> (config: ConnectionConfig)
        ensures
            config.max_packet_size == 8192,
            config.channels@.len() == channels,
            forall|i: int|
                0 <= i < channels ==> #[trigger] config.channels@[i] == ChannelConfig::new(
                    ChannelType::ReliableOrdered,
                ),
            1 <= channels < 65535 ==> config.valid(),
    {
        let mut list: Vec<ChannelConfig> = Vec::new();
        let mut i: usize = 0;
        while i < channels
            invariant
                i <= channels,
                list@.len() == i,
                forall|j: int|
                    0 <= j < i ==> #[trigger] list@[j] == ChannelConfig::new(
                        ChannelType::ReliableOrdered,
                    ),
            decreases channels - i,
        {
            list.push(ChannelConfig::new(ChannelType::ReliableOrdered));
            i += 1;
        }
        ConnectionConfig { max_packet_size: 8 * 1024, channels: list }
    }

    /// Tests whether the configuration is valid.
    pub fn is_valid(&self) -> (valid: bool)
        ensures
            valid == self.valid(),
    {
        if self.channels.len() < 1 || self.channels.len() >= 65535 {
            return false;
        }
        if self.max_packet_size < 1 || self.max_packet_size > usize::MAX / 8 {
            return false;
        }
        let mut i: usize = 0;
        while i < self.channels.len()
            invariant
                i <= self.channels@.len(),
                forall|j: int| 0 <= j < i ==> (#[trigger] self.channels@[j]).valid(),
            decreases self.channels@.len() - i,
        {
            if !self.channels[i].is_valid() {
                return false;
            }
            i += 1;
        }
        true
    }

    /// A copy of the configuration.
    pub fn duplicate(&self) -> (copy: ConnectionConfig)
        ensures
            copy.max_packet_size == self.max_packet_size,
            copy.channels@ == self.channels@,
            copy.valid() == self.valid(),
    {
        let mut list: Vec<ChannelConfig> = Vec::new();
        let mut i: usize = 0;
        while i < self.channels.len()
            invariant
                i <= self.channels@.len(),
                list@ == self.channels@.take(i as int),
            decreases self.channels@.len() - i,
        {
            list.push(self.channels[i]);
            assert(self.channels@.take(i as int).push(self.channels@[i as int])
                == self.channels@.take(i as int + 1));
            i += 1;
        }
        assert(self.channels@.take(self.channels@.len() as int) == self.channels@);
        ConnectionConfig { max_packet_size: self.max_packet_size, channels: list }
    }
}

/// How a client or a server is set up: the connection, and what the
/// transport needs to know.
#[derive(Debug, Clone)]
pub struct ClientServerConfig {
    pub connection: ConnectionConfig,
    /// Clients can only connect to servers with the same protocol id. Use this for versioning.
    pub protocol_id: u64,
    /// Timeout value in seconds. Set to negative value to disable timeouts (for debugging only).
    pub timeout: i32,
    /// Memory allocated inside a client for packets, messages and stream allocations (bytes).
    pub client_memory: usize,
    /// Memory allocated inside a server for global connection request and challenge response packets (bytes).
    pub server_global_memory: usize,
    /// Memory allocated inside a server for packets, messages and stream allocations per client (bytes).
    pub server_per_client_memory: usize,
    /// If `Some`, a network simulator is set up for simulating latency,
    /// jitter, packet loss and duplicates; if `None`, there is none.
    ///
    /// A simulator is inactive until one of its properties is set.
    pub network_simulator: Option<NetworkSimulatorConfig>,
    /// Packets above this size (bytes) are split apart into fragments and reassembled on the other side.
    pub fragment_packets_above: usize,
    /// Size of each packet fragment (bytes).
    pub packet_fragment_size: usize,
    /// Maximum number of fragments a packet can be split up into.
    pub max_packet_fragments: usize,
    /// Number of packet entries in the fragmentation reassembly buffer.
    pub packet_reassembly_buffer_size: usize,
    /// Number of packet entries in the acked packet buffer.
    pub acked_packets_buffer_size: usize,
    /// Number of packet entries in the received packet sequence buffer.
    pub received_packets_buffer_size: usize,
    /// Round-trip time smoothing factor over time, in millionths.
    pub rtt_smoothing_factor: u32,
}

impl ClientServerConfig {
    /// The default setup with `channels` reliable channels. A packet of the
    /// largest size splits into as many fragments as it takes, rounded up.
    pub fn new(channels: usize) -> (config: ClientServerConfig)
        ensures
            config.connection.max_packet_size == 8192,
            config.connection.channels@.len() == channels,
            forall|i: int|
                0 <= i < channels ==> #[trigger] config.connection.channels@[i]
                    == ChannelConfig::new(ChannelType::ReliableOrdered),
            1 <= channels < 65535 ==> config.connection.valid(),
            config.protocol_id == 0,
            config.timeout == DEFAULT_TIMEOUT,
            config.client_memory == 10 * 1024 * 1024,
            config.server_global_memory == 10 * 1024 * 1024,
            config.server_per_client_memory == 10 * 1024 * 1024,
            config.network_simulator is None,
            config.fragment_packets_above == 1024,
            config.packet_fragment_size == 1024,
            config.max_packet_fragments == 8,
            config.packet_reassembly_buffer_size == 64,
            config.acked_packets_buffer_size == 256,
            config.received_packets_buffer_size == 256,
            config.rtt_smoothing_factor == 2500,
    {
        let connection = ConnectionConfig::new(channels);
        let packet_fragment_size: usize = 1024;
        let max_packet_fragments: usize = (connection.max_packet_size + packet_fragment_size - 1)
            / packet_fragment_size;
        ClientServerConfig {
            connection,
            protocol_id: 0,
            timeout: DEFAULT_TIMEOUT,
            client_memory: 10 * 1024 * 1024,
            server_global_memory: 10 * 1024 * 1024,
            server_per_client_memory: 10 * 1024 * 1024,
            network_simulator: None,
            fragment_packets_above: 1024,
            packet_fragment_size,
            max_packet_fragments,
            packet_reassembly_buffer_size: 64,
            acked_packets_buffer_size: 256,
            received_packets_buffer_size: 256,
            rtt_smoothing_factor: 2500,
        }
    }
}

} // verus!
