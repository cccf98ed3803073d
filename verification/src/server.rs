//! The server side: one connection per client slot, and the decisions of one tick.

use crate::channel::{sends, ChannelCounters};
use crate::config::{ChannelConfig, ClientServerConfig};
use crate::connection::{decode_packet, Connection, ConnectionErrorLevel, ConnectionView};
use crate::message::NetworkMessage;
use crate::network_simulator::{
    deliveries,
    Draws,
    NetworkSimulator,
    NetworkSimulatorView,
};
use vstd::prelude::*;

verus! {

/// What a running server holds.
pub struct ServerRuntimeView<M> {
    /// The port the transport is listening on.
    pub bound_port: u16,
    /// The network simulator, if one is configured.
    pub network_simulator: Option<NetworkSimulatorView>,
    /// The connections, one per client slot.
    pub connections: Seq<ConnectionView<M>>,
}

/// What a server holds.
pub struct ServerView<M> {
    /// The configurations of the channels of every connection of this server.
    pub channel_configs: Seq<ChannelConfig>,
    /// The largest packet payload of a connection of this server.
    pub max_packet_size: usize,
    /// The current time (microseconds).
    pub time: i64,
    /// The most packets that the network simulator of this server can hold,
    /// if one is configured.
    pub max_simulator_packets: Option<usize>,
    /// What the server holds while it is running.
    pub runtime: Option<ServerRuntimeView<M>>,
}

impl<M> ServerView<M> {
    /// Every connection is well-formed and configured as the server is.
    pub open spec fn wf(self) -> bool {
        match self.runtime {
            Some(runtime) => forall|i: int|
                0 <= i < runtime.connections.len() ==> {
                    &&& (#[trigger] runtime.connections[i]).wf()
                    &&& runtime.connections[i].channel_configs == self.channel_configs
                    &&& runtime.connections[i].max_packet_size == self.max_packet_size
                },
            None => true,
        }
    }

    /// Whether the server is running.
    pub open spec fn running(self) -> bool {
        self.runtime is Some
    }

    /// The number of client slots of a running server.
    pub open spec fn max_clients(self) -> int {
        match self.runtime {
            Some(runtime) => runtime.connections.len() as int,
            None => 0,
        }
    }

    /// The connection of the client slot `client_index` of a running server.
    pub open spec fn connection(self, client_index: int) -> ConnectionView<M> {
        self.runtime.unwrap().connections[client_index]
    }

    /// The running server with the connection of one client slot replaced.
    pub open spec fn with_connection(self, client_index: int, connection: ConnectionView<M>)
        -> Self {
        ServerView {
            runtime: Some(
                ServerRuntimeView {
                    connections: self.runtime.unwrap().connections.update(client_index, connection),
                    ..self.runtime.unwrap()
                },
            ),
            ..self
        }
    }

    /// The running server with its network simulator replaced.
    pub open spec fn with_simulator(self, simulator: Option<NetworkSimulatorView>) -> Self {
        ServerView {
            runtime: Some(
                ServerRuntimeView { network_simulator: simulator, ..self.runtime.unwrap() },
            ),
            ..self
        }
    }

    /// Whether the server is running and holds a network simulator.
    pub open spec fn has_simulator(self) -> bool {
        match self.runtime {
            Some(runtime) => runtime.network_simulator is Some,
            None => false,
        }
    }

    /// Whether packets are held back by an active network simulator.
    pub open spec fn simulates(self) -> bool {
        match self.runtime {
            Some(runtime) => match runtime.network_simulator {
                Some(simulator) => simulator.active,
                None => false,
            },
            None => false,
        }
    }
}

/// What a server holds while it is running.
pub struct ServerRuntime<M> {
    /// The port the transport is listening on.
    bound_port: u16,
    /// The network simulator used to simulate packet loss, latency, jitter etc. Optional.
    network_simulator: Option<NetworkSimulator>,
    /// Per-client connections. This is how messages are exchanged with clients.
    client_connection: Vec<Connection<M>>,
}

/// Drives one connection per client slot against the server side of the
/// transport.
///
/// The server holds the state and takes the decisions. The transport is the
/// caller's: per tick the caller sends packets, receives packets and advances
/// the time, in this order, slot by slot.
pub struct Server<M> {
    /// Base client/server config.
    config: ClientServerConfig,
    /// Current server time (microseconds).
    time: i64,
    runtime: Option<ServerRuntime<M>>,
}

impl<M> View for Server<M> {
    type V = ServerView<M>;

    closed spec fn view(&self) -> ServerView<M> {
        ServerView {
            channel_configs: self.config.connection.channels@,
            max_packet_size: self.config.connection.max_packet_size,
            time: self.time,
            max_simulator_packets: match self.config.network_simulator {
                Some(simulator) => Some(simulator.max_simulator_packets),
                None => None,
            },
            runtime: match self.runtime {
                Some(runtime) => Some(
                    ServerRuntimeView {
                        bound_port: runtime.bound_port,
                        network_simulator: match runtime.network_simulator {
                            Some(simulator) => Some(simulator@),
                            None => None,
                        },
                        connections: runtime.client_connection@.map_values(
                            |connection: Connection<M>| connection@,
                        ),
                    },
                ),
                None => None,
            },
        }
    }
}

impl<M> Server<M> {
    /// The representation is consistent, and so is what it stands for.
    pub closed spec fn wf(&self) -> bool {
        &&& self.config.connection.valid()
        &&& self@.wf()
        &&& match self.runtime {
            Some(runtime) => forall|i: int|
                0 <= i < runtime.client_connection@.len() ==> (
                #[trigger] runtime.client_connection@[i]).wf(),
            None => true,
        }
    }

    /// A consistent server has a well-formed view.
    pub proof fn lemma_wf_view(&self)
        requires
            self.wf(),
        ensures
            self@.wf(),
    {
    }

    /// A server that is not running.
    pub fn new(config: ClientServerConfig, time: i64) -> (server: Server<M>)
        requires
            config.connection.valid(),
        ensures
            server.wf(),
            server@.channel_configs == config.connection.channels@,
            server@.max_packet_size == config.connection.max_packet_size,
            server@.time == time,
            server@.max_simulator_packets == match config.network_simulator {
                Some(simulator) => Some(simulator.max_simulator_packets),
                None => None,
            },
            !server@.running(),
    {
        Server { config, time, runtime: None }
    }

    /// The configuration of the server.
    pub fn config(&self) -> (config: &ClientServerConfig)
        ensures
            config.connection.channels@ == self@.channel_configs,
            config.connection.max_packet_size == self@.max_packet_size,
    {
        &self.config
    }

    /// The current time of the server (microseconds).
    pub fn time(&self) -> (time: i64)
        ensures
            time == self@.time,
    {
        self.time
    }

    /// Starts the server with `max_clients` client slots, each with a fresh
    /// connection, after the caller has started the transport on `bound_port`.
    /// A server that is running is stopped first.
    pub fn start(&mut self, max_clients: usize, bound_port: u16)
        requires
            old(self).wf(),
        ensures
            final(self).wf(),
            final(self)@.running(),
            final(self)@.max_clients() == max_clients,
            final(self)@.channel_configs == old(self)@.channel_configs,
            final(self)@.max_packet_size == old(self)@.max_packet_size,
            final(self)@.time == old(self)@.time,
            final(self)@.max_simulator_packets == old(self)@.max_simulator_packets,
            final(self)@.runtime.unwrap().bound_port == bound_port,
            final(self)@.runtime.unwrap().network_simulator == match old(
                self,
            )@.max_simulator_packets {
                Some(max_packets) => Some(
                    NetworkSimulatorView {
                        latency: 0,
                        jitter: 0,
                        packet_loss: 0,
                        duplicates: 0,
                        active: false,
                        time: old(self)@.time,
                        max_packets,
                        entries: Seq::empty(),
                    },
                ),
                None => None,
            },
            forall|i: int|
                0 <= i < max_clients ==> {
                    &&& (#[trigger] final(self)@.connection(i)).error_level
                        == ConnectionErrorLevel::NoError
                    &&& final(self)@.connection(i) == final(self)@.connection(i).reset()
                    &&& forall|c: int|
                        0 <= c < final(self)@.connection(i).channels.len() ==> (
                        #[trigger] final(self)@.connection(i).channels[c])
                            == final(self)@.connection(i).channels[c].advanced(old(self)@.time)
                },
    {
        self.stop();
        let network_simulator = match self.config.network_simulator {
            Some(simulator) => Some(
                NetworkSimulator::new(simulator.max_simulator_packets, self.time),
            ),
            None => None,
        };
        let mut client_connection: Vec<Connection<M>> = Vec::new();
        let mut i: usize = 0;
        while i < max_clients
            invariant
                self.config.connection.valid(),
                i <= max_clients,
                client_connection@.len() == i,
                forall|j: int|
                    0 <= j < i ==> {
                        &&& (#[trigger] client_connection@[j]).wf()
                        &&& client_connection@[j]@.channel_configs
                            == self.config.connection.channels@
                        &&& client_connection@[j]@.max_packet_size
                            == self.config.connection.max_packet_size
                        &&& client_connection@[j]@.error_level == ConnectionErrorLevel::NoError
                        &&& client_connection@[j]@ == client_connection@[j]@.reset()
                        &&& forall|c: int|
                            0 <= c < client_connection@[j]@.channels.len() ==> (
                            #[trigger] client_connection@[j]@.channels[c])
                                == client_connection@[j]@.channels[c].advanced(self.time)
                    },
            decreases max_clients - i,
        {
            let connection = Connection::new(self.config.connection.duplicate(), self.time);
            client_connection.push(connection);
            i += 1;
        }
        let runtime = ServerRuntime { bound_port, network_simulator, client_connection };
        proof {
            assert forall|j: int| 0 <= j < max_clients implies (
            #[trigger] runtime.client_connection@[j])@.wf() by {
                runtime.client_connection@[j].lemma_wf_view();
            }
        }
        self.runtime = Some(runtime);
    }

    /// Stops the server and drops its connections. The caller stops the transport.
    pub fn stop(&mut self)
        ensures
            final(self)@ == (ServerView { runtime: None, ..old(self)@ }),
            old(self).wf() ==> final(self).wf(),
    {
        self.runtime = None;
    }

    /// Whether the server is running.
    pub fn running(&self) -> (running: bool)
        ensures
            running == self@.running(),
    {
        self.runtime.is_some()
    }

    /// The port that the transport is listening on, while the server is running.
    pub fn bound_port(&self) -> (port: Option<u16>)
        ensures
            port == match self@.runtime {
                Some(runtime) => Some(runtime.bound_port),
                None => None,
            },
    {
        match &self.runtime {
            Some(runtime) => Some(runtime.bound_port),
            None => None,
        }
    }

    /// The number of client slots, 0 while the server is not running.
    pub fn max_clients(&self) -> (count: usize)
        ensures
            count == self@.max_clients(),
    {
        match &self.runtime {
            Some(runtime) => runtime.client_connection.len(),
            None => 0,
        }
    }

    /// Sets the time of the server, and of its network simulator, which
    /// forgets the packets that it has delivered. Returns the packets that
    /// an active simulator delivers now: the caller sends each to its client.
    pub fn advance_time(&mut self, new_time: i64) -> (packets: Vec<(usize, Vec<u8>)>)
        requires
            old(self).wf(),
        ensures
            final(self).wf(),
            final(self)@.channel_configs == old(self)@.channel_configs,
            final(self)@.max_packet_size == old(self)@.max_packet_size,
            final(self)@.max_simulator_packets == old(self)@.max_simulator_packets,
            final(self)@.time == new_time,
            match old(self)@.runtime {
                None => final(self)@.runtime is None && packets@.len() == 0,
                Some(runtime) => match runtime.network_simulator {
                    None => {
                        &&& final(self)@.runtime == Some(runtime)
                        &&& packets@.len() == 0
                    },
                    Some(simulator) => if simulator.active {
                        &&& final(self)@ == (ServerView { time: new_time, ..old(self)@ })
                            .with_simulator(Some(simulator.advanced(new_time).received()))
                        &&& packets@.map_values(|p: (usize, Vec<u8>)| (p.0, p.1@)) == deliveries(
                            simulator.advanced(new_time).entries,
                            new_time,
                        )
                    } else {
                        &&& final(self)@ == (ServerView { time: new_time, ..old(self)@ })
                            .with_simulator(Some(simulator.advanced(new_time)))
                        &&& packets@.len() == 0
                    },
                },
            },
    {
        self.time = new_time;
        match &mut self.runtime {
            Some(runtime) => match &mut runtime.network_simulator {
                Some(simulator) => {
                    simulator.advance_time(new_time);
                    if simulator.active() {
                        simulator.receive_packets()
                    } else {
                        Vec::new()
                    }
                },
                None => Vec::new(),
            },
            None => Vec::new(),
        }
    }

    /// Advances the time of the connection of one client slot. Returns true
    /// if the connection is in an error state afterwards: the caller
    /// disconnects the client. Else the caller updates the transport of the
    /// slot and hands its acks to the server.
    pub fn advance_client_time(&mut self, client_index: usize, new_time: i64) -> (disconnect: bool)
        requires
            old(self).wf(),
            client_index < old(self)@.max_clients(),
        ensures
            final(self).wf(),
            final(self)@ == old(self)@.with_connection(
                client_index as int,
                old(self)@.connection(client_index as int).advanced_from(new_time, 0),
            ),
            disconnect == (final(self)@.connection(client_index as int).error_level
                != ConnectionErrorLevel::NoError),
    {
        let ghost before = self@;
        match &mut self.runtime {
            Some(runtime) => {
                runtime.client_connection[client_index].advance_time(new_time);
                let failed = runtime.client_connection[client_index].error_level()
                    != ConnectionErrorLevel::NoError;
                proof {
                    runtime.client_connection@[client_index as int].lemma_wf_view();
                    assert(before.connection(client_index as int).wf());
                    assert(self@.runtime.unwrap().connections =~= before.runtime.unwrap().connections.update(
                        client_index as int,
                        before.connection(client_index as int).advanced_from(new_time, 0),
                    ));
                }
                failed
            },
            None => false,
        }
    }

    /// Hands the acks that the transport of one client slot has gathered to
    /// the connection of the slot.
    pub fn process_acks(&mut self, client_index: usize, acks: &[u16])
        requires
            old(self).wf(),
            client_index < old(self)@.max_clients(),
        ensures
            final(self).wf(),
            final(self)@ == old(self)@.with_connection(
                client_index as int,
                old(self)@.connection(client_index as int).acked(acks@),
            ),
    {
        let ghost before = self@;
        match &mut self.runtime {
            Some(runtime) => {
                runtime.client_connection[client_index].process_acks(acks);
                proof {
                    runtime.client_connection@[client_index as int].lemma_wf_view();
                    assert(before.connection(client_index as int).wf());
                    assert(self@.runtime.unwrap().connections =~= before.runtime.unwrap().connections.update(
                        client_index as int,
                        before.connection(client_index as int).acked(acks@),
                    ));
                }
            },
            None => {},
        }
    }

    /// Generates the payload of the packet `packet_sequence` for one client
    /// slot into `packet_data`, and returns its size: the caller sends it if
    /// it is not 0.
    pub fn send_packets(
        &mut self,
        client_index: usize,
        packet_sequence: u16,
        packet_data: &mut Vec<u8>,
    ) -> (written: usize)
        requires
            old(self).wf(),
            client_index < old(self)@.max_clients(),
        ensures
            final(self).wf(),
            written == final(packet_data)@.len(),
            written <= old(self)@.max_packet_size,
            final(packet_data)@ == old(self)@.connection(client_index as int).generated(
                packet_sequence,
            ).1,
            final(self)@ == old(self)@.with_connection(
                client_index as int,
                old(self)@.connection(client_index as int).generated(packet_sequence).0,
            ),
    {
        let ghost before = self@;
        match &mut self.runtime {
            Some(runtime) => {
                proof {
                    runtime.client_connection@[client_index as int].lemma_wf_view();
                    assert(before.connection(client_index as int).wf());
                }
                let written = runtime.client_connection[client_index].generate_packet(
                    packet_sequence,
                    packet_data,
                );
                proof {
                    runtime.client_connection@[client_index as int].lemma_wf_view();
                    assert(self@.runtime.unwrap().connections =~= before.runtime.unwrap().connections.update(
                        client_index as int,
                        before.connection(client_index as int).generated(packet_sequence).0,
                    ));
                    assert(self@.wf()) by {
                        assert forall|i: int|
                            0 <= i < self@.runtime.unwrap().connections.len() implies {
                            &&& (#[trigger] self@.runtime.unwrap().connections[i]).wf()
                            &&& self@.runtime.unwrap().connections[i].channel_configs
                                == self@.channel_configs
                            &&& self@.runtime.unwrap().connections[i].max_packet_size
                                == self@.max_packet_size
                        } by {
                            if i != client_index {
                                assert(self@.runtime.unwrap().connections[i]
                                    == before.runtime.unwrap().connections[i]);
                            }
                        }
                    }
                }
                written
            },
            None => {
                packet_data.clear();
                0
            },
        }
    }

    /// Decides what becomes of a packet that the transport is about to send
    /// to a client: an active network simulator takes it and holds it back,
    /// and the caller does not send it now. Returns whether the packet was taken.
    pub fn transmit_packet(&mut self, client_index: usize, packet_data: &[u8]) -> (held: bool)
        requires
            old(self).wf(),
        ensures
            final(self).wf(),
            held == old(self)@.simulates(),
            !held ==> final(self)@ == old(self)@,
            held ==> exists|draws: Draws|
                final(self)@ == old(self)@.with_simulator(
                    Some(
                        #[trigger] old(self)@.runtime.unwrap().network_simulator.unwrap().sent(
                            client_index,
                            packet_data@,
                            draws,
                        ),
                    ),
                ),
    {
        match &mut self.runtime {
            Some(runtime) => match &mut runtime.network_simulator {
                Some(simulator) => {
                    if simulator.active() {
                        simulator.send_packet(client_index, packet_data);
                        true
                    } else {
                        false
                    }
                },
                None => false,
            },
            None => false,
        }
    }

    /// Takes note that a client has connected to a slot or has left it. The
    /// connection of a slot that a client has left is reset, and the packets
    /// that the network simulator holds for the slot are dropped.
    pub fn handle_connect_disconnect(&mut self, client_index: usize, connected: bool)
        requires
            old(self).wf(),
            client_index < old(self)@.max_clients(),
        ensures
            final(self).wf(),
            connected ==> final(self)@ == old(self)@,
            !connected ==> final(self)@ == old(self)@.with_connection(
                client_index as int,
                old(self)@.connection(client_index as int).reset(),
            ).with_simulator(
                match old(self)@.runtime.unwrap().network_simulator {
                    Some(simulator) => Some(
                        NetworkSimulatorView {
                            entries: crate::network_simulator::without_client(
                                simulator.entries,
                                client_index,
                            ),
                            ..simulator
                        },
                    ),
                    None => None,
                },
            ),
    {
        if connected {
            return ;
        }
        let ghost before = self@;
        match &mut self.runtime {
            Some(runtime) => {
                runtime.client_connection[client_index].reset();
                match &mut runtime.network_simulator {
                    Some(simulator) => {
                        simulator.discard_client_packets(client_index);
                    },
                    None => {},
                }
                proof {
                    runtime.client_connection@[client_index as int].lemma_wf_view();
                    assert(before.connection(client_index as int).wf());
                    assert(self@.runtime.unwrap().connections =~= before.runtime.unwrap().connections.update(
                        client_index as int,
                        before.connection(client_index as int).reset(),
                    ));
                }
            },
            None => {},
        }
    }

    /// Hands out the next message of a channel of one client slot, if one has arrived.
    pub fn receive_message(&mut self, client_index: usize, channel_index: usize) -> (message:
        Option<M>)
        requires
            old(self).wf(),
            client_index < old(self)@.max_clients(),
            channel_index < old(self)@.channel_configs.len(),
        ensures
            final(self).wf(),
            message == match old(self)@.connection(
                client_index as int,
            ).channels[channel_index as int].next_message() {
                Some((_, m)) => Some(m),
                None => None,
            },
            final(self)@ == old(self)@.with_connection(
                client_index as int,
                old(self)@.connection(client_index as int).with_channel(
                    channel_index as int,
                    old(self)@.connection(
                        client_index as int,
                    ).channels[channel_index as int].received(),
                ),
            ),
    {
        let ghost before = self@;
        match &mut self.runtime {
            Some(runtime) => {
                proof {
                    runtime.client_connection@[client_index as int].lemma_wf_view();
                    assert(before.connection(client_index as int).wf());
                }
                let message = runtime.client_connection[client_index].receive_message(
                    channel_index,
                );
                proof {
                    runtime.client_connection@[client_index as int].lemma_wf_view();
                    assert(self@.runtime.unwrap().connections =~= before.runtime.unwrap().connections.update(
                        client_index as int,
                        self@.connection(client_index as int),
                    ));
                }
                match message {
                    Some((_, m)) => Some(m),
                    None => None,
                }
            },
            None => None,
        }
    }

    /// Whether a channel of one client slot can take one more message.
    pub fn can_send_message(&self, client_index: usize, channel_index: usize) -> (room: bool)
        requires
            self.wf(),
            client_index < self@.max_clients(),
            channel_index < self@.channel_configs.len(),
        ensures
            room == self@.connection(
                client_index as int,
            ).channels[channel_index as int].can_send_message(),
    {
        match &self.runtime {
            Some(runtime) => {
                proof {
                    runtime.client_connection@[client_index as int].lemma_wf_view();
                    assert(self@.connection(client_index as int).wf());
                }
                runtime.client_connection[client_index].can_send_message(channel_index)
            },
            None => false,
        }
    }

    /// Whether a message of a channel of one client slot waits to be sent,
    /// or to be acked.
    pub fn has_messages_to_send(&self, client_index: usize, channel_index: usize) -> (waiting:
        bool)
        requires
            self.wf(),
            client_index < self@.max_clients(),
            channel_index < self@.channel_configs.len(),
        ensures
            waiting == self@.connection(
                client_index as int,
            ).channels[channel_index as int].has_messages_to_send(),
    {
        match &self.runtime {
            Some(runtime) => {
                proof {
                    runtime.client_connection@[client_index as int].lemma_wf_view();
                    assert(self@.connection(client_index as int).wf());
                }
                runtime.client_connection[client_index].has_messages_to_send(channel_index)
            },
            None => false,
        }
    }

    /// Get the counters for client `client_index` and channel `channel_index`.
    pub fn channel_counters(&self, client_index: usize, channel_index: usize) -> (counters: Option<
        &ChannelCounters,
    >)
        requires
            self.wf(),
            client_index < self@.max_clients(),
            channel_index < self@.channel_configs.len(),
        ensures
            counters matches Some(c) && *c == self@.connection(
                client_index as int,
            ).channels[channel_index as int].counters,
    {
        match &self.runtime {
            Some(runtime) => {
                proof {
                    runtime.client_connection@[client_index as int].lemma_wf_view();
                    assert(self@.connection(client_index as int).wf());
                }
                Some(runtime.client_connection[client_index].channel_counters(channel_index))
            },
            None => None,
        }
    }

    /// The network simulator, to set its properties, if the server is running
    /// and one is configured: then, and only then, it is handed out.
    pub fn network_simulator_mut(&mut self) -> (simulator: Option<&mut NetworkSimulator>)
        ensures
            simulator is Some <==> old(self)@.has_simulator(),
            match simulator {
                Some(s) => {
                    &&& old(self)@.runtime is Some
                    &&& old(self)@.runtime.unwrap().network_simulator == Some(s@)
                    &&& final(self)@ == old(self)@.with_simulator(Some(final(s)@))
                },
                None => final(self)@ == old(self)@,
            },
    {
        match &mut self.runtime {
            Some(runtime) => runtime.network_simulator.as_mut(),
            None => None,
        }
    }
}

impl<M: NetworkMessage> Server<M> {
    /// Hands the payload of a packet received from one client to the
    /// connection of its slot. Returns whether all went well.
    pub fn process_packet(&mut self, client_index: usize, packet_sequence: u16, packet_data: &[u8])
        -> (ok: bool)
        requires
            old(self).wf(),
            client_index < old(self)@.max_clients(),
        ensures
            final(self).wf(),
            final(self)@ == old(self)@.with_connection(
                client_index as int,
                final(self)@.connection(client_index as int),
            ),
            M::obeys_wire_spec() ==> {
                &&& final(self)@.connection(client_index as int) == old(self)@.connection(
                    client_index as int,
                ).processed(
                    packet_sequence,
                    decode_packet::<M>(old(self)@.channel_configs, packet_data@),
                ).0
                &&& ok == old(self)@.connection(client_index as int).processed(
                    packet_sequence,
                    decode_packet::<M>(old(self)@.channel_configs, packet_data@),
                ).1
            },
    {
        let ghost before = self@;
        match &mut self.runtime {
            Some(runtime) => {
                proof {
                    assert(before.connection(client_index as int).wf());
                }
                let ok = runtime.client_connection[client_index].process_packet(
                    packet_sequence,
                    packet_data,
                );
                proof {
                    runtime.client_connection@[client_index as int].lemma_wf_view();
                    assert(self@.runtime.unwrap().connections =~= before.runtime.unwrap().connections.update(
                        client_index as int,
                        self@.connection(client_index as int),
                    ));
                }
                ok
            },
            None => false,
        }
    }

    /// Queues a message to be sent to one client across the channel `channel_index`.
    pub fn send_message(&mut self, client_index: usize, channel_index: usize, message: M)
        requires
            old(self).wf(),
            client_index < old(self)@.max_clients(),
            channel_index < old(self)@.channel_configs.len(),
        ensures
            final(self).wf(),
            sends(
                old(self)@.connection(client_index as int).channels[channel_index as int],
                message,
                final(self)@.connection(client_index as int).channels[channel_index as int],
            ),
            final(self)@ == old(self)@.with_connection(
                client_index as int,
                old(self)@.connection(client_index as int).with_channel(
                    channel_index as int,
                    final(self)@.connection(client_index as int).channels[channel_index as int],
                ),
            ),
    {
        let ghost before = self@;
        match &mut self.runtime {
            Some(runtime) => {
                proof {
                    runtime.client_connection@[client_index as int].lemma_wf_view();
                    assert(before.connection(client_index as int).wf());
                }
                runtime.client_connection[client_index].send_message(channel_index, message);
                proof {
                    runtime.client_connection@[client_index as int].lemma_wf_view();
                    assert(self@.runtime.unwrap().connections =~= before.runtime.unwrap().connections.update(
                        client_index as int,
                        self@.connection(client_index as int),
                    ));
                }
            },
            None => {},
        }
    }
}

} // verus!
