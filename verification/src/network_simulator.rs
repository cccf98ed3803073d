//! A simulator of bad network conditions on the sending side.
//!
//! Packets that are handed to an active simulator are held back for a while,
//! dropped, or doubled, as its settings say. Times are whole microseconds,
//! and chances are parts per million.

use rand::Rng;
use std::collections::VecDeque;
use vstd::prelude::*;

verus! {

/// A chance of one: a million parts per million.
pub const CERTAIN: u32 = 1_000_000;

/// The most that a duplicate is held back longer than the packet that it
/// doubles: one second, in microseconds.
pub const DUPLICATE_DELAY: u32 = 1_000_000;

/// How a network simulator is set up.
#[derive(Debug, Clone, Copy)]
pub struct NetworkSimulatorConfig {
    /// Maximum number of packets that can be stored in the network simulator.
    /// When it is full, the oldest packet makes room for a new one.
    pub max_simulator_packets: usize,
}

impl Default for NetworkSimulatorConfig {
    fn default() -> (config: NetworkSimulatorConfig)
        ensures
            config.max_simulator_packets == 4096,
    {
        NetworkSimulatorConfig { max_simulator_packets: 4096 }
    }
}

/// A packet that waits in the simulator.
pub struct PacketEntry {
    pub destination_client_index: usize,
    /// The time from which on the packet is delivered (microseconds).
    pub delivery_time: i64,
    pub packet_data: Vec<u8>,
    /// True if this packet has been received.
    pub consumed: bool,
}

/// A packet that waits in the simulator, as plain values.
pub struct PacketEntryView {
    pub destination_client_index: usize,
    pub delivery_time: i64,
    pub packet_data: Seq<u8>,
    pub consumed: bool,
}

impl View for PacketEntry {
    type V = PacketEntryView;

    open spec fn view(&self) -> PacketEntryView {
        PacketEntryView {
            destination_client_index: self.destination_client_index,
            delivery_time: self.delivery_time,
            packet_data: self.packet_data@,
            consumed: self.consumed,
        }
    }
}

/// What the random draws for one sent packet came out as.
#[derive(Clone, Copy)]
pub struct Draws {
    /// Below the chance of loss, the packet is lost. Less than a million.
    pub loss: u32,
    /// Added to the latency. Between minus and plus the jitter.
    pub jitter: i64,
    /// Below the chance of a duplicate, the packet is doubled. Less than a million.
    pub duplicate: u32,
    /// How much longer the duplicate is held back. Less than a second.
    pub duplicate_delay: u32,
}

/// The sum of two times, kept within the range of times.
pub open spec fn clamped_sum(a: i64, b: i64) -> i64 {
    if a + b > i64::MAX {
        i64::MAX
    } else if a + b < i64::MIN {
        i64::MIN
    } else {
        (a + b) as i64
    }
}

/// The entries that have not been received, in order.
pub open spec fn unconsumed(entries: Seq<PacketEntryView>) -> Seq<PacketEntryView>
    decreases entries.len(),
{
    if entries.len() == 0 {
        Seq::empty()
    } else if entries[0].consumed {
        unconsumed(entries.skip(1))
    } else {
        seq![entries[0]] + unconsumed(entries.skip(1))
    }
}

/// The entries that are not on their way to the client `client_index`, in order.
pub open spec fn without_client(entries: Seq<PacketEntryView>, client_index: usize) -> Seq<
    PacketEntryView,
>
    decreases entries.len(),
{
    if entries.len() == 0 {
        Seq::empty()
    } else if entries[0].destination_client_index == client_index {
        without_client(entries.skip(1), client_index)
    } else {
        seq![entries[0]] + without_client(entries.skip(1), client_index)
    }
}

/// Whether an entry is delivered at `time`: it has not been received, and
/// its delivery time has passed.
pub open spec fn is_due(entry: PacketEntryView, time: i64) -> bool {
    !entry.consumed && entry.delivery_time < time
}

/// The entries after a delivery at `time`: those that are due count as received.
pub open spec fn delivered(entries: Seq<PacketEntryView>, time: i64) -> Seq<PacketEntryView> {
    Seq::new(
        entries.len(),
        |i: int|
            if is_due(entries[i], time) {
                PacketEntryView { consumed: true, ..entries[i] }
            } else {
                entries[i]
            },
    )
}

/// The packets that a delivery at `time` yields: those of the entries that
/// are due, in order, each with the client that it goes to.
pub open spec fn deliveries(entries: Seq<PacketEntryView>, time: i64) -> Seq<(usize, Seq<u8>)>
    decreases entries.len(),
{
    if entries.len() == 0 {
        Seq::empty()
    } else if is_due(entries[0], time) {
        seq![(entries[0].destination_client_index, entries[0].packet_data)] + deliveries(
            entries.skip(1),
            time,
        )
    } else {
        deliveries(entries.skip(1), time)
    }
}

/// What a network simulator holds.
pub struct NetworkSimulatorView {
    /// Time that every packet is held back (microseconds).
    pub latency: i64,
    /// The most that the time a packet is held back is off the latency,
    /// either way (microseconds).
    pub jitter: i64,
    /// The chance that a packet is lost (parts per million).
    pub packet_loss: u32,
    /// The chance that a packet is doubled (parts per million).
    pub duplicates: u32,
    pub active: bool,
    /// The current time (microseconds).
    pub time: i64,
    /// The most packets that can wait.
    pub max_packets: usize,
    /// The packets that wait, oldest first.
    pub entries: Seq<PacketEntryView>,
}

impl NetworkSimulatorView {
    /// The chances are at most certain, and the jitter is not negative.
    pub open spec fn wf(self) -> bool {
        &&& self.packet_loss <= CERTAIN
        &&& self.duplicates <= CERTAIN
    }

    /// A simulator is active as soon as one of its settings is not zero.
    pub open spec fn should_be_active(self) -> bool {
        self.latency != 0 || self.jitter != 0 || self.packet_loss != 0 || self.duplicates != 0
    }

    /// The simulator after a change of its settings: it is active if a
    /// setting is not zero, and one that stops being active forgets its packets.
    pub open spec fn updated_active(self) -> Self {
        NetworkSimulatorView {
            active: self.should_be_active(),
            entries: if self.active && !self.should_be_active() {
                Seq::empty()
            } else {
                self.entries
            },
            ..self
        }
    }

    /// The simulator with one more packet. A full simulator drops its oldest
    /// packet first; one that can hold no packet at all drops the new one.
    pub open spec fn pushed(self, entry: PacketEntryView) -> Self {
        NetworkSimulatorView {
            entries: if self.max_packets == 0 {
                self.entries
            } else if self.entries.len() >= self.max_packets {
                self.entries.skip(1).push(entry)
            } else {
                self.entries.push(entry)
            },
            ..self
        }
    }

    /// The time that a packet is held back, given the draw for the jitter.
    pub open spec fn delay(self, draws: Draws) -> i64 {
        if self.jitter > 0 {
            clamped_sum(self.latency, draws.jitter)
        } else {
            self.latency
        }
    }

    /// The simulator after a packet was sent through it, given how the random
    /// draws came out.
    ///
    /// A packet whose loss draw is below the chance of loss is dropped. Any
    /// other is queued, to be delivered once the latency has passed, give or
    /// take the jitter. If its duplicate draw is below the chance of
    /// duplicates, a second copy is queued, held back longer by the
    /// duplicate delay drawn.
    pub open spec fn sent(self, client_index: usize, packet_data: Seq<u8>, draws: Draws) -> Self {
        if draws.loss < self.packet_loss {
            self
        } else {
            let first = PacketEntryView {
                destination_client_index: client_index,
                delivery_time: clamped_sum(self.time, self.delay(draws)),
                packet_data,
                consumed: false,
            };
            if draws.duplicate < self.duplicates {
                self.pushed(first).pushed(
                    PacketEntryView {
                        delivery_time: clamped_sum(
                            first.delivery_time,
                            draws.duplicate_delay as i64,
                        ),
                        ..first
                    },
                )
            } else {
                self.pushed(first)
            }
        }
    }

    /// The simulator at the given time, without the packets that were
    /// received since the time was last set.
    pub open spec fn advanced(self, time: i64) -> Self {
        NetworkSimulatorView { time, entries: unconsumed(self.entries), ..self }
    }

    /// The simulator after a delivery: the packets that were due count as received.
    pub open spec fn received(self) -> Self {
        NetworkSimulatorView { entries: delivered(self.entries, self.time), ..self }
    }
}

/// Network simulator to simulate latency, jitter, packet loss and duplicates.
pub struct NetworkSimulator {
    latency: i64,
    jitter: i64,
    packet_loss: u32,
    duplicates: u32,
    active: bool,
    time: i64,
    max_packets: usize,
    entries: VecDeque<PacketEntry>,
}

impl View for NetworkSimulator {
    type V = NetworkSimulatorView;

    closed spec fn view(&self) -> NetworkSimulatorView {
        NetworkSimulatorView {
            latency: self.latency,
            jitter: self.jitter,
            packet_loss: self.packet_loss,
            duplicates: self.duplicates,
            active: self.active,
            time: self.time,
            max_packets: self.max_packets,
            entries: self.entries@.map_values(|entry: PacketEntry| entry@),
        }
    }
}

/// Calls `rand::Rng::gen_range` on the thread's generator with the range from
/// 0 up to, not including, `bound`. The crate panics on an empty range, and
/// else returns a number of the range; which one is chance.
#[verifier::external_body]
fn random_below(bound: u32) -> (drawn: u32)
    requires
        bound > 0,
    ensures
        drawn < bound,
{
    rand::thread_rng().gen_range(0..bound)
}

/// Calls `rand::Rng::gen_range` on the thread's generator with the range from
/// `low` to `high`, both included. The crate panics on an empty range, and
/// else returns a number of the range; which one is chance.
#[verifier::external_body]
fn random_between(low: i64, high: i64) -> (drawn: i64)
    requires
        low <= high,
    ensures
        low <= drawn <= high,
{
    rand::thread_rng().gen_range(low..=high)
}

/// Adds two times, and stops at the ends of the range of times.
pub fn add_times(a: i64, b: i64) -> (sum: i64)
    ensures
        sum == clamped_sum(a, b),
{
    let sum: i128 = a as i128 + b as i128;
    if sum > i64::MAX as i128 {
        i64::MAX
    } else if sum < i64::MIN as i128 {
        i64::MIN
    } else {
        sum as i64
    }
}

impl NetworkSimulator {
    /// Create an inactive network simulator, which can store up to `max_packets`.
    pub fn new(max_packets: usize, time: i64) -> (simulator: NetworkSimulator)
        ensures
            simulator@ == (NetworkSimulatorView {
                latency: 0,
                jitter: 0,
                packet_loss: 0,
                duplicates: 0,
                active: false,
                time,
                max_packets,
                entries: Seq::empty(),
            }),
            simulator@.wf(),
    {
        let simulator = NetworkSimulator {
            entries: VecDeque::new(),
            max_packets,
            time,
            latency: 0,
            jitter: 0,
            packet_loss: 0,
            duplicates: 0,
            active: false,
        };
        assert(simulator@.entries =~= Seq::<PacketEntryView>::empty());
        simulator
    }

    /// Set the latency in microseconds.
    ///
    /// This latency is added on packet send. To simulate a round trip time of
    /// 100ms, add 50ms of latency to both sides of the connection.
    pub fn set_latency(&mut self, microseconds: i64)
        ensures
            final(self)@ == (NetworkSimulatorView {
                latency: microseconds,
                ..old(self)@
            }).updated_active(),
    {
        self.latency = microseconds;
        self.update_active();
    }

    /// Set the packet jitter in microseconds.
    ///
    /// Jitter is applied +/- this amount. To be truly effective, jitter must
    /// be applied together with some latency.
    pub fn set_jitter(&mut self, microseconds: i64)
        ensures
            final(self)@ == (NetworkSimulatorView {
                jitter: microseconds,
                ..old(self)@
            }).updated_active(),
    {
        self.jitter = microseconds;
        self.update_active();
    }

    /// Set the amount of packet loss to apply on send, in parts per million.
    ///
    /// 0 = no packet loss, 1000000 = all packets are dropped.
    pub fn set_packet_loss(&mut self, parts_per_million: u32)
        requires
            parts_per_million <= CERTAIN,
        ensures
            final(self)@ == (NetworkSimulatorView {
                packet_loss: parts_per_million,
                ..old(self)@
            }).updated_active(),
    {
        self.packet_loss = parts_per_million;
        self.update_active();
    }

    /// Set the chance of packet duplicates, in parts per million.
    ///
    /// If the duplicate chance succeeds, a duplicate packet is added to the
    /// queue with a random delay of up to 1 second.
    ///
    /// 0 = no duplicate packets, 1000000 = all packets have a duplicate sent.
    pub fn set_duplicates(&mut self, parts_per_million: u32)
        requires
            parts_per_million <= CERTAIN,
        ensures
            final(self)@ == (NetworkSimulatorView {
                duplicates: parts_per_million,
                ..old(self)@
            }).updated_active(),
    {
        self.duplicates = parts_per_million;
        self.update_active();
    }

    /// Returns true if the network simulator is active, false otherwise.
    pub fn active(&self) -> (active: bool)
        ensures
            active == self@.active,
    {
        self.active
    }

    /// The current time of the simulator (microseconds).
    pub fn time(&self) -> (time: i64)
        ensures
            time == self@.time,
    {
        self.time
    }

    /// The number of packets that wait in the simulator.
    pub fn pending(&self) -> (count: usize)
        ensures
            count == self@.entries.len(),
    {
        self.entries.len()
    }

    /// The most packets that can wait in the simulator.
    pub fn capacity(&self) -> (capacity: usize)
        ensures
            capacity == self@.max_packets,
    {
        self.max_packets
    }

    /// Brings the `active` flag up to date after a change of the settings.
    fn update_active(&mut self)
        ensures
            final(self)@ == old(self)@.updated_active(),
    {
        let previous = self.active;
        self.active = self.latency != 0 || self.jitter != 0 || self.packet_loss != 0
            || self.duplicates != 0;
        if previous && !self.active {
            self.entries.clear();
        }
        assert(self@.entries =~= old(self)@.updated_active().entries);
    }

    /// Sets the time, and forgets the packets that were received since the
    /// time was last set.
    pub fn advance_time(&mut self, time: i64)
        ensures
            final(self)@ == old(self)@.advanced(time),
    {
        self.time = time;
        let mut kept: VecDeque<PacketEntry> = VecDeque::new();
        let ghost all = self@.entries;
        proof {
            assert(kept@.map_values(|entry: PacketEntry| entry@) =~= Seq::<
                PacketEntryView,
            >::empty());
            assert(Seq::<PacketEntryView>::empty() + unconsumed(all) =~= unconsumed(all));
        }
        loop
            invariant
                self@ == (NetworkSimulatorView { time, entries: self@.entries, ..old(self)@ }),
                all == old(self)@.entries,
                unconsumed(all) == kept@.map_values(|entry: PacketEntry| entry@) + unconsumed(
                    self@.entries,
                ),
            ensures
                self@ == (NetworkSimulatorView { time, entries: Seq::empty(), ..old(self)@ }),
                unconsumed(all) == kept@.map_values(|entry: PacketEntry| entry@),
            decreases self@.entries.len(),
        {
            let ghost left = self@.entries;
            let ghost so_far = kept@.map_values(|entry: PacketEntry| entry@);
            let entry = match self.entries.pop_front() {
                Some(entry) => entry,
                None => {
                    assert(left =~= Seq::<PacketEntryView>::empty());
                    assert(so_far + Seq::<PacketEntryView>::empty() =~= so_far);
                    break ;
                },
            };
            assert(left[0] == entry@);
            assert(self@.entries =~= left.skip(1));
            if !entry.consumed {
                kept.push_back(entry);
                assert(kept@.map_values(|entry: PacketEntry| entry@) =~= so_far.push(left[0]));
                assert(so_far + (seq![left[0]] + unconsumed(left.skip(1))) =~= so_far.push(
                    left[0],
                ) + unconsumed(left.skip(1)));
            }
        }
        self.entries = kept;
    }

    /// Draws the chances for one packet.
    pub fn draw(&self) -> (draws: Draws)
        ensures
            draws.loss < CERTAIN,
            draws.duplicate < CERTAIN,
            draws.duplicate_delay < DUPLICATE_DELAY,
            self@.jitter > 0 ==> -self@.jitter <= draws.jitter <= self@.jitter,
    {
        let loss: u32 = random_below(CERTAIN);
        let jitter: i64 = if self.jitter > 0 {
            random_between(-self.jitter, self.jitter)
        } else {
            0
        };
        let duplicate: u32 = random_below(CERTAIN);
        let duplicate_delay: u32 = random_below(DUPLICATE_DELAY);
        Draws { loss, jitter, duplicate, duplicate_delay }
    }

    /// Queue a packet to send to a given client, subject to chance.
    ///
    /// A client passes anything for `client_index`, and ignores the client
    /// index of the packets that it receives.
    pub fn send_packet(&mut self, client_index: usize, packet_data: &[u8])
        ensures
            exists|draws: Draws|
                final(self)@ == #[trigger] old(self)@.sent(client_index, packet_data@, draws),
    {
        let draws = self.draw();
        self.send_packet_with(client_index, packet_data, draws);
    }

    /// Queue a packet to send to a given client, with the chances drawn already.
    pub fn send_packet_with(&mut self, client_index: usize, packet_data: &[u8], draws: Draws)
        ensures
            final(self)@ == old(self)@.sent(client_index, packet_data@, draws),
    {
        if draws.loss < self.packet_loss {
            return ;
        }
        let mut delay: i64 = self.latency;
        if self.jitter > 0 {
            delay = add_times(delay, draws.jitter);
        }
        let delivery_time: i64 = add_times(self.time, delay);
        let entry = PacketEntry {
            destination_client_index: client_index,
            delivery_time,
            packet_data: vstd::slice::slice_to_vec(packet_data),
            consumed: false,
        };
        self.push_packet(entry);
        if draws.duplicate < self.duplicates {
            let copy = PacketEntry {
                destination_client_index: client_index,
                delivery_time: add_times(delivery_time, draws.duplicate_delay as i64),
                packet_data: vstd::slice::slice_to_vec(packet_data),
                consumed: false,
            };
            self.push_packet(copy);
        }
    }

    /// Adds a packet to the queue. A full queue drops its oldest packet first.
    pub fn push_packet(&mut self, entry: PacketEntry)
        ensures
            final(self)@ == old(self)@.pushed(entry@),
    {
        if self.max_packets == 0 {
            return ;
        }
        if self.entries.len() >= self.max_packets {
            let _ = self.entries.pop_front();
        }
        self.entries.push_back(entry);
        assert(self@.entries =~= old(self)@.pushed(entry@).entries);
    }

    /// Receive all the packets currently available: those that have not been
    /// received yet and whose delivery time has passed. They stay in the
    /// queue, marked as received, until the time is set again.
    ///
    /// Returns the client index and the data of each packet.
    pub fn receive_packets(&mut self) -> (packets: Vec<(usize, Vec<u8>)>)
        ensures
            final(self)@ == old(self)@.received(),
            packets@.map_values(|p: (usize, Vec<u8>)| (p.0, p.1@)) == deliveries(
                old(self)@.entries,
                old(self)@.time,
            ),
    {
        let time: i64 = self.time;
        let mut packets: Vec<(usize, Vec<u8>)> = Vec::new();
        let mut seen: VecDeque<PacketEntry> = VecDeque::new();
        let ghost all = self@.entries;
        proof {
            assert(seen@.map_values(|entry: PacketEntry| entry@) =~= delivered(all, time).take(0));
            assert(all.skip(0) =~= all);
            assert(packets@.map_values(|p: (usize, Vec<u8>)| (p.0, p.1@)) + deliveries(all, time)
                =~= deliveries(all, time));
        }
        loop
            invariant
                self@ == (NetworkSimulatorView { entries: self@.entries, ..old(self)@ }),
                all == old(self)@.entries,
                time == old(self)@.time,
                seen@.len() <= all.len(),
                self@.entries == all.skip(seen@.len() as int),
                seen@.map_values(|entry: PacketEntry| entry@) == delivered(all, time).take(
                    seen@.len() as int,
                ),
                deliveries(all, time) == packets@.map_values(|p: (usize, Vec<u8>)| (p.0, p.1@))
                    + deliveries(self@.entries, time),
            ensures
                self@ == (NetworkSimulatorView { entries: Seq::empty(), ..old(self)@ }),
                seen@.map_values(|entry: PacketEntry| entry@) == delivered(all, time),
                deliveries(all, time) == packets@.map_values(|p: (usize, Vec<u8>)| (p.0, p.1@)),
            decreases self@.entries.len(),
        {
            let ghost left = self@.entries;
            let ghost done = seen@.map_values(|entry: PacketEntry| entry@);
            let ghost out = packets@.map_values(|p: (usize, Vec<u8>)| (p.0, p.1@));
            let ghost count = seen@.len() as int;
            let mut entry = match self.entries.pop_front() {
                Some(entry) => entry,
                None => {
                    assert(left =~= Seq::<PacketEntryView>::empty());
                    assert(delivered(all, time).take(count) =~= delivered(all, time));
                    assert(out + Seq::<(usize, Seq<u8>)>::empty() =~= out);
                    break ;
                },
            };
            assert(left[0] == entry@);
            assert(left[0] == all[count]);
            assert(self@.entries =~= left.skip(1));
            assert(self@.entries =~= all.skip(count + 1));
            if !entry.consumed && entry.delivery_time < time {
                entry.consumed = true;
                packets.push(
                    (
                        entry.destination_client_index,
                        vstd::slice::slice_to_vec(entry.packet_data.as_slice()),
                    ),
                );
                proof {
                    let item = (left[0].destination_client_index, left[0].packet_data);
                    assert(packets@.map_values(|p: (usize, Vec<u8>)| (p.0, p.1@)) =~= out.push(
                        item,
                    ));
                    assert(out + (seq![item] + deliveries(left.skip(1), time)) =~= out.push(item)
                        + deliveries(left.skip(1), time));
                }
            }
            let ghost placed = entry@;
            seen.push_back(entry);
            proof {
                assert(placed == delivered(all, time)[count]);
                assert(seen@.map_values(|entry: PacketEntry| entry@) =~= done.push(placed));
                assert(done.push(placed) =~= delivered(all, time).take(count + 1));
            }
        }
        self.entries = seen;
        packets
    }

    /// Discard all packets in the network simulator.
    pub fn discard_packets(&mut self)
        ensures
            final(self)@ == (NetworkSimulatorView { entries: Seq::empty(), ..old(self)@ }),
    {
        self.entries.clear();
        assert(self@.entries =~= Seq::<PacketEntryView>::empty());
    }

    /// Discard packets sent to a particular client index.
    ///
    /// This is called when a client disconnects from the server.
    pub fn discard_client_packets(&mut self, client_index: usize)
        ensures
            final(self)@ == (NetworkSimulatorView {
                entries: without_client(old(self)@.entries, client_index),
                ..old(self)@
            }),
    {
        let mut kept: VecDeque<PacketEntry> = VecDeque::new();
        let ghost all = self@.entries;
        proof {
            assert(kept@.map_values(|entry: PacketEntry| entry@) =~= Seq::<
                PacketEntryView,
            >::empty());
            assert(Seq::<PacketEntryView>::empty() + without_client(all, client_index)
                =~= without_client(all, client_index));
        }
        loop
            invariant
                self@ == (NetworkSimulatorView { entries: self@.entries, ..old(self)@ }),
                all == old(self)@.entries,
                without_client(all, client_index) == kept@.map_values(
                    |entry: PacketEntry| entry@,
                ) + without_client(self@.entries, client_index),
            ensures
                self@ == (NetworkSimulatorView { entries: Seq::empty(), ..old(self)@ }),
                without_client(all, client_index) == kept@.map_values(|entry: PacketEntry| entry@),
            decreases self@.entries.len(),
        {
            let ghost left = self@.entries;
            let ghost so_far = kept@.map_values(|entry: PacketEntry| entry@);
            let entry = match self.entries.pop_front() {
                Some(entry) => entry,
                None => {
                    assert(left =~= Seq::<PacketEntryView>::empty());
                    assert(so_far + Seq::<PacketEntryView>::empty() =~= so_far);
                    break ;
                },
            };
            assert(left[0] == entry@);
            assert(self@.entries =~= left.skip(1));
            if entry.destination_client_index != client_index {
                kept.push_back(entry);
                assert(kept@.map_values(|entry: PacketEntry| entry@) =~= so_far.push(left[0]));
                assert(so_far + (seq![left[0]] + without_client(left.skip(1), client_index))
                    =~= so_far.push(left[0]) + without_client(left.skip(1), client_index));
            }
        }
        self.entries = kept;
    }
}

} // verus!
