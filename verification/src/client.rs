//! The client side: connection state and the decisions of one tick.

use crate::channel::{sends, ChannelCounters};
use crate::config::{ChannelConfig, ClientServerConfig};
use crate::connection::{decode_packet, Connection, ConnectionErrorLevel, ConnectionView};
use crate::message::NetworkMessage;
use vstd::prelude::*;

verus! {

/// Where a client stands in the life of its connection.
#[derive(Debug, Clone, Copy, PartialEq, Eq, Structural)]
pub enum ClientState {
    /// The transport gave up: a token was invalid or expired, or a timeout
    /// hit. The next tick tears the connection down.
    Error,
    /// Not connected and not trying to connect.
    Disconnected,
    /// The handshake with the server is under way.
    Connecting,
    /// The handshake is done; messages can be sent and received.
    Connected,
}

/// The transport's client state `Connected`.
pub const TRANSPORT_STATE_CONNECTED: i32 = 3;

/// The transport's client state while it sends its connection response.
pub const TRANSPORT_STATE_SENDING_CONNECTION_RESPONSE: i32 = 2;

/// The transport's client state while it sends its connection request.
pub const TRANSPORT_STATE_SENDING_CONNECTION_REQUEST: i32 = 1;

/// The transport's client state `Disconnected`.
pub const TRANSPORT_STATE_DISCONNECTED: i32 = 0;

/// The lowest of the transport's client states, all negative, that report an error.
pub const TRANSPORT_STATE_LOWEST_ERROR: i32 = -6;

impl ClientState {
    /// The client state that a state number of the transport stands for, as
    /// far as the number is one the transport is known to use.
    pub open spec fn of_transport_state(val: i32) -> Option<ClientState> {
        if val == TRANSPORT_STATE_CONNECTED {
            Some(ClientState::Connected)
        } else if val == TRANSPORT_STATE_SENDING_CONNECTION_REQUEST || val
            == TRANSPORT_STATE_SENDING_CONNECTION_RESPONSE {
            Some(ClientState::Connecting)
        } else if val == TRANSPORT_STATE_DISCONNECTED {
            Some(ClientState::Disconnected)
        } else if TRANSPORT_STATE_LOWEST_ERROR <= val < 0 {
            Some(ClientState::Error)
        } else {
            None
        }
    }

    /// Maps a state number of the transport to a client state, and refuses a
    /// number that the transport does not use.
    pub fn try_from_netcode_client_state_i32(val: i32) -> (state: Option<ClientState>)
        ensures
            state == Self::of_transport_state(val),
    {
        if val == TRANSPORT_STATE_CONNECTED {
            Some(ClientState::Connected)
        } else if val == TRANSPORT_STATE_SENDING_CONNECTION_REQUEST || val
            == TRANSPORT_STATE_SENDING_CONNECTION_RESPONSE {
            Some(ClientState::Connecting)
        } else if val == TRANSPORT_STATE_DISCONNECTED {
            Some(ClientState::Disconnected)
        } else if val < 0 && val >= TRANSPORT_STATE_LOWEST_ERROR {
            Some(ClientState::Error)
        } else {
            None
        }
    }
}

/// The client state that any state number of the transport is taken for:
/// below `Disconnected` an error, above the two handshake states connected.
pub open spec fn client_state_of(state: i32) -> ClientState {
    if state < TRANSPORT_STATE_DISCONNECTED {
        ClientState::Error
    } else if state == TRANSPORT_STATE_DISCONNECTED {
        ClientState::Disconnected
    } else if state == TRANSPORT_STATE_SENDING_CONNECTION_REQUEST || state
        == TRANSPORT_STATE_SENDING_CONNECTION_RESPONSE {
        ClientState::Connecting
    } else {
        ClientState::Connected
    }
}

/// Maps any state number of the transport to a client state.
pub fn client_state_from_netcode_state(state: i32) -> (client_state: ClientState)
    ensures
        client_state == client_state_of(state),
{
    if state < TRANSPORT_STATE_DISCONNECTED {
        ClientState::Error
    } else if state == TRANSPORT_STATE_DISCONNECTED {
        ClientState::Disconnected
    } else if state == TRANSPORT_STATE_SENDING_CONNECTION_REQUEST || state
        == TRANSPORT_STATE_SENDING_CONNECTION_RESPONSE {
        ClientState::Connecting
    } else {
        ClientState::Connected
    }
}

/// On the state numbers that the transport is known to use, the two mappings agree.
pub proof fn lemma_state_mappings_agree(state: i32)
    requires
        ClientState::of_transport_state(state) is Some,
    ensures
        ClientState::of_transport_state(state) == Some(client_state_of(state)),
{
}

/// How the outside work of a connect attempt went.
#[derive(Debug, Clone, Copy, PartialEq, Eq, Structural)]
pub enum ConnectOutcome {
    /// The transport could not be set up.
    TransportFailed,
    /// The transport is set up and bound to the given port, but no connect
    /// token could be made.
    TokenFailed(u16),
    /// The transport is set up and bound to the given port, and has begun to connect.
    Started(u16),
}

/// What the caller has to do with the transport after the client has
/// advanced its time.
#[derive(Debug, Clone, Copy, PartialEq, Eq, Structural)]
pub enum TickAction {
    /// Nothing: the client has no connection.
    Idle,
    /// Update the transport, hand its acks and then its state to the client.
    Poll,
    /// Destroy the transport's objects: the client has dropped its connection.
    TearDown,
}

/// What a client holds.
pub struct ClientView<M> {
    /// The configurations of the channels of a connection of this client.
    pub channel_configs: Seq<ChannelConfig>,
    /// The largest packet payload of a connection of this client.
    pub max_packet_size: usize,
    /// The current time (microseconds).
    pub time: i64,
    pub client_state: ClientState,
    /// The connection, while the client connects or is connected.
    pub connection: Option<ConnectionView<M>>,
    pub bound_port: Option<u16>,
    pub client_id: u64,
}

impl<M> ClientView<M> {
    /// A connection, where there is one, is well-formed and configured as the
    /// client is.
    pub open spec fn wf(self) -> bool {
        match self.connection {
            Some(connection) => {
                &&& connection.wf()
                &&& connection.channel_configs == self.channel_configs
                &&& connection.max_packet_size == self.max_packet_size
            },
            None => true,
        }
    }

    /// The client without its connection, in the state `Disconnected`.
    pub open spec fn disconnected(self) -> Self {
        ClientView {
            client_state: ClientState::Disconnected,
            connection: None,
            client_id: 0,
            ..self
        }
    }

    /// The client after it has advanced its time.
    ///
    /// A client in the state `Error` drops its connection. Else the
    /// connection advances its time, and a connection that is in an error
    /// state afterwards is dropped, which leaves the client disconnected.
    pub open spec fn advanced(self, new_time: i64) -> Self {
        let timed = ClientView { time: new_time, ..self };
        match self.connection {
            None => timed,
            Some(connection) => if self.client_state == ClientState::Error {
                ClientView { connection: None, ..timed }
            } else if connection.advanced_from(new_time, 0).error_level
                != ConnectionErrorLevel::NoError {
                timed.disconnected()
            } else {
                ClientView { connection: Some(connection.advanced_from(new_time, 0)), ..timed }
            },
        }
    }

    /// What the caller has to do after the client has advanced its time.
    pub open spec fn tick_action(self, new_time: i64) -> TickAction {
        match self.connection {
            None => TickAction::Idle,
            Some(connection) => if self.client_state == ClientState::Error
                || connection.advanced_from(new_time, 0).error_level
                != ConnectionErrorLevel::NoError {
                TickAction::TearDown
            } else {
                TickAction::Poll
            },
        }
    }

    /// The client after the transport has reported its state.
    ///
    /// A transport that is disconnected leaves the client disconnected, with
    /// its connection dropped. A transport in an error state puts the client
    /// into the state `Error`; its connection is dropped when it next
    /// advances its time.
    pub open spec fn polled(self, transport_state: i32) -> Self {
        match client_state_of(transport_state) {
            ClientState::Disconnected => self.disconnected(),
            state => ClientView { client_state: state, ..self },
        }
    }
}

/// Drives one connection against the client side of the transport.
///
/// The client holds the state and takes the decisions. The transport is the
/// caller's: per tick the caller sends packets, receives packets and
/// advances the time, in this order, and does with the transport what the
/// client tells it to.
pub struct Client<M> {
    config: ClientServerConfig,
    connection: Option<Connection<M>>,
    client_state: ClientState,
    time: i64,
    bound_port: Option<u16>,
    client_id: u64,
}

impl<M> View for Client<M> {
    type V = ClientView<M>;

    closed spec fn view(&self) -> ClientView<M> {
        ClientView {
            channel_configs: self.config.connection.channels@,
            max_packet_size: self.config.connection.max_packet_size,
            time: self.time,
            client_state: self.client_state,
            connection: match self.connection {
                Some(connection) => Some(connection@),
                None => None,
            },
            bound_port: self.bound_port,
            client_id: self.client_id,
        }
    }
}

impl<M> Client<M> {
    /// The representation is consistent, and so is what it stands for.
    pub closed spec fn wf(&self) -> bool {
        &&& self.config.connection.valid()
        &&& self@.wf()
        &&& match self.connection {
            Some(connection) => connection.wf(),
            None => true,
        }
    }

    /// A consistent client has a well-formed view.
    pub proof fn lemma_wf_view(&self)
        requires
            self.wf(),
        ensures
            self@.wf(),
    {
    }

    /// A disconnected client.
    pub fn new(config: ClientServerConfig, time: i64) -> (client: Client<M>)
        requires
            config.connection.valid(),
        ensures
            client.wf(),
            client@.channel_configs == config.connection.channels@,
            client@.max_packet_size == config.connection.max_packet_size,
            client@.time == time,
            client@.client_state == ClientState::Disconnected,
            client@.connection is None,
            client@.bound_port is None,
            client@.client_id == 0,
    {
        Client {
            config,
            connection: None,
            client_state: ClientState::Disconnected,
            time,
            bound_port: None,
            client_id: 0,
        }
    }

    /// The configuration of the client.
    pub fn config(&self) -> (config: &ClientServerConfig)
        ensures
            config.connection.channels@ == self@.channel_configs,
            config.connection.max_packet_size == self@.max_packet_size,
    {
        &self.config
    }

    /// The current time of the client (microseconds).
    pub fn time(&self) -> (time: i64)
        ensures
            time == self@.time,
    {
        self.time
    }

    /// Advances the time of the client and of its connection, and tells what
    /// the caller has to do with the transport.
    pub fn advance_time(&mut self, new_time: i64) -> (action: TickAction)
        requires
            old(self).wf(),
        ensures
            final(self).wf(),
            final(self)@ == old(self)@.advanced(new_time),
            action == old(self)@.tick_action(new_time),
    {
        self.time = new_time;
        if self.connection.is_none() {
            return TickAction::Idle;
        }
        if self.client_state == ClientState::Error {
            self.connection = None;
            return TickAction::TearDown;
        }
        let failed = match &mut self.connection {
            Some(connection) => {
                connection.advance_time(new_time);
                proof {
                    connection.lemma_wf_view();
                }
                connection.error_level() != ConnectionErrorLevel::NoError
            },
            None => false,
        };
        if failed {
            self.disconnect();
            TickAction::TearDown
        } else {
            TickAction::Poll
        }
    }

    /// Hands the acks that the transport has gathered to the connection.
    pub fn process_acks(&mut self, acks: &[u16])
        requires
            old(self).wf(),
        ensures
            final(self).wf(),
            final(self)@ == (ClientView {
                connection: match old(self)@.connection {
                    Some(connection) => Some(connection.acked(acks@)),
                    None => None,
                },
                ..old(self)@
            }),
    {
        match &mut self.connection {
            Some(connection) => {
                connection.process_acks(acks);
                proof {
                    connection.lemma_wf_view();
                }
            },
            None => {},
        }
    }

    /// Takes note of the state that the transport reports. Returns true if
    /// the client has dropped its connection and the transport's objects are
    /// to be destroyed.
    pub fn poll_state(&mut self, transport_state: i32) -> (tear_down: bool)
        requires
            old(self).wf(),
        ensures
            final(self).wf(),
            final(self)@ == old(self)@.polled(transport_state),
            tear_down == (client_state_of(transport_state) == ClientState::Disconnected),
    {
        let state = client_state_from_netcode_state(transport_state);
        match state {
            ClientState::Disconnected => {
                self.disconnect();
                true
            },
            _ => {
                self.client_state = state;
                false
            },
        }
    }

    /// Begins to connect, after the caller has destroyed what was left of an
    /// earlier connection and has set up the transport anew.
    ///
    /// If the transport could not be set up, the client stays disconnected.
    /// Else it gets a fresh connection, and is `Connecting`, or in the state
    /// `Error` if no connect token could be made.
    pub fn insecure_connect(&mut self, client_id: u64, outcome: ConnectOutcome)
        requires
            old(self).wf(),
        ensures
            final(self).wf(),
            final(self)@.channel_configs == old(self)@.channel_configs,
            final(self)@.max_packet_size == old(self)@.max_packet_size,
            final(self)@.time == old(self)@.time,
            match outcome {
                ConnectOutcome::TransportFailed => final(self)@ == old(self)@.disconnected(),
                ConnectOutcome::TokenFailed(port) => {
                    &&& final(self)@.client_state == ClientState::Error
                    &&& final(self)@.bound_port == Some(port)
                    &&& final(self)@.client_id == client_id
                    &&& final(self)@.connection is Some
                },
                ConnectOutcome::Started(port) => {
                    &&& final(self)@.client_state == ClientState::Connecting
                    &&& final(self)@.bound_port == Some(port)
                    &&& final(self)@.client_id == client_id
                    &&& final(self)@.connection is Some
                },
            },
            final(self)@.connection matches Some(connection) ==> {
                &&& connection.error_level == ConnectionErrorLevel::NoError
                &&& connection == connection.reset()
                &&& forall|i: int|
                    0 <= i < connection.channels.len() ==> (#[trigger] connection.channels[i])
                        == connection.channels[i].advanced(old(self)@.time)
            },
    {
        self.disconnect();
        match outcome {
            ConnectOutcome::TransportFailed => {},
            ConnectOutcome::TokenFailed(port) => {
                self.connect_internal();
                self.client_id = client_id;
                self.bound_port = Some(port);
                self.client_state = ClientState::Error;
            },
            ConnectOutcome::Started(port) => {
                self.connect_internal();
                self.client_id = client_id;
                self.bound_port = Some(port);
                self.client_state = ClientState::Connecting;
            },
        }
    }

    /// Gives the client a fresh connection, at the client's time.
    fn connect_internal(&mut self)
        requires
            old(self).wf(),
        ensures
            final(self).wf(),
            final(self)@.connection matches Some(connection) && connection.error_level
                == ConnectionErrorLevel::NoError && connection == connection.reset() && (forall|
                i: int,
            |
                0 <= i < connection.channels.len() ==> (#[trigger] connection.channels[i])
                    == connection.channels[i].advanced(old(self)@.time)),
            final(self)@ == (ClientView { connection: final(self)@.connection, ..old(self)@ }),
    {
        let connection = Connection::new(self.config.connection.duplicate(), self.time);
        proof {
            connection.lemma_wf_view();
        }
        self.connection = Some(connection);
    }

    /// Generates the payload of the packet `packet_sequence` into
    /// `packet_data`, if the client is connected, and returns its size: the
    /// caller sends it if it is not 0.
    pub fn send_packets(&mut self, packet_sequence: u16, packet_data: &mut Vec<u8>) -> (written:
        usize)
        requires
            old(self).wf(),
        ensures
            final(self).wf(),
            written == final(packet_data)@.len(),
            written <= old(self)@.max_packet_size,
            match old(self)@.connection {
                Some(connection) if old(self)@.client_state == ClientState::Connected => {
                    &&& final(self)@ == (ClientView {
                        connection: Some(connection.generated(packet_sequence).0),
                        ..old(self)@
                    })
                    &&& final(packet_data)@ == connection.generated(packet_sequence).1
                },
                _ => final(self)@ == old(self)@ && written == 0,
            },
    {
        if !self.is_connected() {
            packet_data.clear();
            return 0;
        }
        match &mut self.connection {
            Some(connection) => {
                let written = connection.generate_packet(packet_sequence, packet_data);
                proof {
                    connection.lemma_wf_view();
                }
                written
            },
            None => {
                packet_data.clear();
                0
            },
        }
    }

    /// Check if this client is currently successfully connected.
    ///
    /// This means the client has finished the handshake and is able to send
    /// and receive messages.
    pub fn is_connected(&self) -> (connected: bool)
        ensures
            connected == (self@.client_state == ClientState::Connected),
    {
        match self.client_state {
            ClientState::Connected => true,
            ClientState::Connecting => false,
            ClientState::Disconnected => false,
            ClientState::Error => false,
        }
    }

    /// Check if this client is currently disconnected and not connecting.
    ///
    /// This means the client has errored-out, lost connection, or
    /// disconnected and is not in the process of handshaking or sending and
    /// receiving messages.
    pub fn is_disconnected(&self) -> (disconnected: bool)
        ensures
            disconnected == (self@.client_state == ClientState::Disconnected
                || self@.client_state == ClientState::Error),
    {
        match self.client_state {
            ClientState::Connected => false,
            ClientState::Connecting => false,
            ClientState::Disconnected => true,
            ClientState::Error => true,
        }
    }

    /// Whether the channel `channel` can take one more message. A client
    /// without a connection cannot send.
    pub fn can_send_message(&self, channel: usize) -> (room: bool)
        requires
            self.wf(),
            channel < self@.channel_configs.len(),
        ensures
            room == match self@.connection {
                Some(connection) => connection.channels[channel as int].can_send_message(),
                None => false,
            },
    {
        match &self.connection {
            Some(connection) => {
                proof {
                    connection.lemma_wf_view();
                }
                connection.can_send_message(channel)
            },
            None => false,
        }
    }

    /// Whether a message of the channel `channel` waits to be sent, or to be acked.
    pub fn has_messages_to_send(&self, channel: usize) -> (waiting: bool)
        requires
            self.wf(),
            channel < self@.channel_configs.len(),
        ensures
            waiting == match self@.connection {
                Some(connection) => connection.channels[channel as int].has_messages_to_send(),
                None => false,
            },
    {
        match &self.connection {
            Some(connection) => {
                proof {
                    connection.lemma_wf_view();
                }
                connection.has_messages_to_send(channel)
            },
            None => false,
        }
    }

    /// Hands out the next message of the channel `channel_index`, if the
    /// client has a connection and a message has arrived.
    pub fn receive_message(&mut self, channel_index: usize) -> (message: Option<M>)
        requires
            old(self).wf(),
            channel_index < old(self)@.channel_configs.len(),
        ensures
            final(self).wf(),
            match old(self)@.connection {
                Some(connection) => {
                    &&& message == match connection.channels[channel_index as int].next_message() {
                        Some((_, m)) => Some(m),
                        None => None,
                    }
                    &&& final(self)@ == (ClientView {
                        connection: Some(
                            connection.with_channel(
                                channel_index as int,
                                connection.channels[channel_index as int].received(),
                            ),
                        ),
                        ..old(self)@
                    })
                },
                None => message is None && final(self)@ == old(self)@,
            },
    {
        match &mut self.connection {
            Some(connection) => {
                proof {
                    connection.lemma_wf_view();
                }
                let message = connection.receive_message(channel_index);
                proof {
                    connection.lemma_wf_view();
                }
                match message {
                    Some((_, m)) => Some(m),
                    None => None,
                }
            },
            None => None,
        }
    }

    /// Get the counters for channel `channel_index`.
    pub fn channel_counters(&self, channel_index: usize) -> (counters: Option<&ChannelCounters>)
        requires
            self.wf(),
            channel_index < self@.channel_configs.len(),
        ensures
            match self@.connection {
                Some(connection) => counters matches Some(c) && *c
                    == connection.channels[channel_index as int].counters,
                None => counters is None,
            },
    {
        match &self.connection {
            Some(connection) => {
                proof {
                    connection.lemma_wf_view();
                }
                Some(connection.channel_counters(channel_index))
            },
            None => None,
        }
    }

    /// Whether the client has a connection: it connects or is connected, or
    /// has failed and not yet advanced its time.
    pub fn has_connection(&self) -> (present: bool)
        ensures
            present == (self@.connection is Some),
    {
        self.connection.is_some()
    }

    /// Whether the transport has given up on the connection.
    pub fn connection_failed(&self) -> (failed: bool)
        ensures
            failed == (self@.client_state == ClientState::Error),
    {
        match self.client_state {
            ClientState::Error => true,
            _ => false,
        }
    }

    /// The port that the transport is bound to, once it has been set up.
    pub fn bound_port(&self) -> (port: Option<u16>)
        ensures
            port == self@.bound_port,
    {
        self.bound_port
    }

    /// The id that the client connects under.
    pub fn client_id(&self) -> (id: u64)
        ensures
            id == self@.client_id,
    {
        self.client_id
    }

    /// Drops the connection and leaves the client disconnected. The caller
    /// destroys the transport's objects.
    pub fn disconnect(&mut self)
        ensures
            final(self)@ == old(self)@.disconnected(),
            old(self).wf() ==> final(self).wf(),
    {
        self.client_state = ClientState::Disconnected;
        self.connection = None;
        self.client_id = 0;
    }
}

impl<M: NetworkMessage> Client<M> {
    /// Hands the payload of a received packet to the connection. Returns
    /// whether all went well; a client without a connection refuses the packet.
    pub fn process_packet(&mut self, packet_sequence: u16, packet_data: &[u8]) -> (ok: bool)
        requires
            old(self).wf(),
        ensures
            final(self).wf(),
            old(self)@.connection is None ==> !ok && final(self)@ == old(self)@,
            final(self)@ == (ClientView { connection: final(self)@.connection, ..old(self)@ }),
            M::obeys_wire_spec() ==> match old(self)@.connection {
                Some(connection) => {
                    &&& final(self)@.connection == Some(
                        connection.processed(
                            packet_sequence,
                            decode_packet::<M>(connection.channel_configs, packet_data@),
                        ).0,
                    )
                    &&& ok == connection.processed(
                        packet_sequence,
                        decode_packet::<M>(connection.channel_configs, packet_data@),
                    ).1
                },
                None => true,
            },
    {
        match &mut self.connection {
            Some(connection) => {
                let ok = connection.process_packet(packet_sequence, packet_data);
                proof {
                    connection.lemma_wf_view();
                }
                ok
            },
            None => false,
        }
    }

    /// Queues a message to be sent across the channel `channel_index`.
    pub fn send_message(&mut self, channel_index: usize, message: M)
        requires
            old(self).wf(),
            old(self)@.connection is Some,
            channel_index < old(self)@.channel_configs.len(),
        ensures
            final(self).wf(),
            final(self)@.connection is Some,
            sends(
                old(self)@.connection.unwrap().channels[channel_index as int],
                message,
                final(self)@.connection.unwrap().channels[channel_index as int],
            ),
            final(self)@ == (ClientView {
                connection: Some(
                    old(self)@.connection.unwrap().with_channel(
                        channel_index as int,
                        final(self)@.connection.unwrap().channels[channel_index as int],
                    ),
                ),
                ..old(self)@
            }),
    {
        match &mut self.connection {
            Some(connection) => {
                proof {
                    connection.lemma_wf_view();
                }
                connection.send_message(channel_index, message);
                proof {
                    connection.lemma_wf_view();
                }
            },
            None => {},
        }
    }
}

} // verus!
