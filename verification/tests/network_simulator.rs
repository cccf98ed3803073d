use rust_game_networking::network_simulator::{
    Draws, NetworkSimulator, NetworkSimulatorConfig,
};

/// Seconds as the whole microseconds that the library counts in.
fn micros(seconds: f64) -> i64 {
    (seconds * 1_000_000.0).round() as i64
}

/// Milliseconds as whole microseconds.
fn millis(milliseconds: f64) -> i64 {
    (milliseconds * 1_000.0).round() as i64
}

/// A chance between 0 and 1 as parts per million.
fn chance(percent: f32) -> u32 {
    (percent as f64 * 1_000_000.0).round() as u32
}

#[test]
fn sets_active() {
    let mut n;
    n = NetworkSimulator::new(100, micros(100.0));
    assert!(!n.active());

    n.set_latency(millis(0.0));
    n.set_jitter(millis(0.0));
    n.set_packet_loss(chance(0.0));
    n.set_duplicates(chance(0.0));

    assert!(!n.active());

    n = NetworkSimulator::new(100, micros(100.0));
    assert!(!n.active());
    n.set_latency(millis(32.0));
    assert!(n.active());

    n = NetworkSimulator::new(100, micros(100.0));
    assert!(!n.active());
    n.set_jitter(millis(7.0));
    assert!(n.active());

    n = NetworkSimulator::new(100, micros(100.0));
    assert!(!n.active());
    n.set_packet_loss(chance(0.5));
    assert!(n.active());

    n = NetworkSimulator::new(100, micros(100.0));
    assert!(!n.active());
    n.set_duplicates(chance(0.5));
    assert!(n.active());
}

#[test]
fn does_not_exceed_capacity() {
    let capacity = 100;
    let mut n = NetworkSimulator::new(capacity, micros(100.0));
    n.set_latency(millis(16.0));

    for _ in 0..(2 * capacity) {
        n.send_packet(0, &[0; 8]);
    }

    n.advance_time(n.time() + micros(1.0));
    let count = n.receive_packets().len();
    assert_eq!(count, capacity);
    assert_eq!(n.capacity(), capacity);
}

#[test]
fn discards_packets_on_inactive() {
    let mut n = NetworkSimulator::new(100, micros(100.0));
    n.set_latency(millis(16.0));

    let sent = 50;
    for _ in 0..sent {
        n.send_packet(0, &[0; 8]);
    }

    n.advance_time(n.time() + micros(1.0));
    assert_eq!(n.receive_packets().len(), sent);

    n.set_latency(millis(0.0));
    assert!(!n.active());

    assert_eq!(n.pending(), 0);
}

#[test]
fn drops_packets() {
    let mut n = NetworkSimulator::new(100, micros(100.0));
    n.set_latency(millis(16.0));
    check_send_recieve(&mut n, 1.0, 50, 50);

    n.set_packet_loss(chance(1.0));
    check_send_recieve(&mut n, 1.0, 50, 0);
}

#[test]
fn duplicates_packets() {
    let mut n = NetworkSimulator::new(100, micros(100.0));
    n.set_latency(millis(16.0));
    check_send_recieve(&mut n, 1.0, 50, 50);

    n.set_duplicates(chance(1.0));
    check_send_recieve(&mut n, 4.0, 50, 100);

    // check that duplicates don't extend the buffer
    check_send_recieve(&mut n, 4.0, 75, 100);
}

#[test]
fn adds_latency_to_packets() {
    let mut n = NetworkSimulator::new(100, micros(100.0));
    n.set_latency(millis(16.0));
    check_send_recieve(&mut n, 1.0, 50, 50);

    // check that 1500ms latency packets are not recieved within 1s
    n.set_latency(millis(1500.0));
    check_send_recieve(&mut n, 1.0, 50, 0);

    // check that they are all recieved within the next 1s
    check_send_recieve(&mut n, 1.0, 0, 50);
}

fn check_send_recieve(n: &mut NetworkSimulator, dt: f64, send: usize, expect_received: usize) {
    for _ in 0..send {
        n.send_packet(0, &[0; 8]);
    }
    n.advance_time(n.time() + micros(dt));
    assert_eq!(n.receive_packets().len(), expect_received);
    n.advance_time(n.time()); // remove the consumed entries
}

#[test]
fn default_config_holds_4096_packets() {
    assert_eq!(NetworkSimulatorConfig::default().max_simulator_packets, 4096);
}

#[test]
fn send_with_draws_is_exact() {
    let mut n = NetworkSimulator::new(4, 1_000);
    n.set_latency(500);
    n.set_jitter(100);
    n.set_packet_loss(250_000);
    n.set_duplicates(250_000);

    // A loss draw below the chance of loss drops the packet.
    let lost = Draws { loss: 249_999, jitter: 0, duplicate: 999_999, duplicate_delay: 0 };
    n.send_packet_with(7, &[1, 2, 3], lost);
    assert_eq!(n.pending(), 0);

    // A loss draw at the chance of loss keeps it; the jitter shifts the delivery time.
    let kept = Draws { loss: 250_000, jitter: -100, duplicate: 250_000, duplicate_delay: 0 };
    n.send_packet_with(7, &[1, 2, 3], kept);
    assert_eq!(n.pending(), 1);

    // Delivery time is 1000 + 500 - 100 = 1400: not yet delivered at 1400, delivered at 1401.
    n.advance_time(1_400);
    assert!(n.receive_packets().is_empty());
    n.advance_time(1_401);
    assert_eq!(n.receive_packets(), vec![(7usize, vec![1u8, 2, 3])]);
    // A delivered packet is not delivered again, and leaves with the next tick.
    assert!(n.receive_packets().is_empty());
    assert_eq!(n.pending(), 1);
    n.advance_time(1_402);
    assert_eq!(n.pending(), 0);

    // A duplicate draw below the chance of duplicates queues a second copy, held back longer.
    let doubled = Draws { loss: 999_999, jitter: 0, duplicate: 0, duplicate_delay: 50 };
    n.send_packet_with(3, &[9], doubled);
    assert_eq!(n.pending(), 2);
    n.advance_time(1_402 + 500 + 1);
    assert_eq!(n.receive_packets(), vec![(3usize, vec![9u8])]);
    n.advance_time(1_402 + 500 + 50 + 1);
    assert_eq!(n.receive_packets(), vec![(3usize, vec![9u8])]);
}

#[test]
fn full_simulator_drops_the_oldest_packet() {
    let mut n = NetworkSimulator::new(2, 0);
    n.set_latency(1);
    let plain = Draws { loss: 999_999, jitter: 0, duplicate: 999_999, duplicate_delay: 0 };
    n.send_packet_with(0, &[1], plain);
    n.send_packet_with(1, &[2], plain);
    n.send_packet_with(2, &[3], plain);
    assert_eq!(n.pending(), 2);
    n.advance_time(10);
    assert_eq!(n.receive_packets(), vec![(1usize, vec![2u8]), (2usize, vec![3u8])]);

    // A simulator that can hold nothing drops what it is given.
    let mut none = NetworkSimulator::new(0, 0);
    none.set_latency(1);
    none.send_packet_with(0, &[1], plain);
    assert_eq!(none.pending(), 0);
}

#[test]
fn discards_the_packets_of_one_client() {
    let mut n = NetworkSimulator::new(8, 0);
    n.set_latency(1);
    let plain = Draws { loss: 999_999, jitter: 0, duplicate: 999_999, duplicate_delay: 0 };
    n.send_packet_with(0, &[1], plain);
    n.send_packet_with(1, &[2], plain);
    n.send_packet_with(0, &[3], plain);
    n.discard_client_packets(0);
    assert_eq!(n.pending(), 1);
    n.advance_time(10);
    assert_eq!(n.receive_packets(), vec![(1usize, vec![2u8])]);
    n.discard_packets();
    assert_eq!(n.pending(), 0);
}

#[test]
fn drawn_chances_are_in_range() {
    let mut n = NetworkSimulator::new(8, 0);
    n.set_jitter(5);
    for _ in 0..1000 {
        let draws = n.draw();
        assert!(draws.loss < 1_000_000);
        assert!(draws.duplicate < 1_000_000);
        assert!(draws.duplicate_delay < 1_000_000);
        assert!(-5 <= draws.jitter && draws.jitter <= 5);
    }
}
