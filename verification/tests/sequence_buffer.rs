use rust_game_networking::channel::sequence_buffer::{
    sequence_greater_than, sequence_less_than, SequenceBuffer,
};

#[derive(Debug, Clone, Copy, PartialEq, Eq)]
struct SeqData {
    seq: u16,
    value: usize,
}

#[test]
fn test_sequence_greater_than() {
    assert!(!sequence_greater_than(0, 1));
    assert!(sequence_greater_than(1, 0));
    assert!(sequence_greater_than(0, 65535));

    // floor(65535 / 2) + 1 should be the largest value with respect to 0
    assert!(!sequence_greater_than(0, 65535 / 2 + 1));
    assert!(sequence_greater_than(0, 65535 / 2 + 2));
}

#[test]
fn test_sequence_less_than() {
    assert!(!sequence_less_than(1, 0));
    assert!(sequence_less_than(0, 1));
    assert!(!sequence_less_than(0, 65535));

    // floor(65535 / 2) + 1 should be the largest value with respect to 0
    assert!(sequence_less_than(0, 65535 / 2 + 1));
    assert!(!sequence_less_than(0, 65535 / 2 + 2));
}

#[test]
fn test_sequence_comparisons() {
    for x in 0u16..=65535 {
        assert!(!sequence_greater_than(x, x.wrapping_add(25)));
        assert!(sequence_greater_than(x, x.wrapping_sub(25)));

        assert!(sequence_less_than(x, x.wrapping_add(25)));
        assert!(!sequence_less_than(x, x.wrapping_sub(25)));

        // test transitivity
        let left = x.wrapping_sub(15000);
        let right = x.wrapping_add(15000);

        assert!(sequence_less_than(left, x));
        assert!(sequence_less_than(x, right));
        assert!(sequence_less_than(left, right));

        assert!(sequence_greater_than(right, x));
        assert!(sequence_greater_than(x, left));
        assert!(sequence_greater_than(right, left));
    }
}

#[test]
fn test_sequence_buffer() {
    let size = 256;

    let mut buffer = SequenceBuffer::new(size);

    for i in 0..(5 * size) as u16 {
        // assert that the buffer is empty
        assert!(buffer.available(i));
        assert!(buffer.get(i).is_none());
    }

    // check that we can continuously enter values
    let total_entries = 100_000;
    let mut seq = 0;
    for value in 0..total_entries {
        let entry = SeqData { seq, value };

        assert!(buffer.insert_with(seq, || entry));

        // verify we cannot insert something too old
        assert!(!buffer.insert_with(seq.wrapping_sub(size as u16), || entry));

        if value == 0 {
            // the previous entry will not exist for the first value
            assert!(buffer.available(seq.wrapping_sub(1)));
        } else {
            // otherwise the previous entry will always fail to insert
            assert!(buffer.contains(seq.wrapping_sub(1)));
        }

        assert_eq!(buffer.sequence_pointer(), seq.wrapping_add(1));
        assert_eq!(buffer.get(seq).cloned(), Some(entry));

        seq = seq.wrapping_add(1);
    }

    // check that the buffer remembers everything within range of `size`
    assert!(total_entries > size);
    for i in 1..size {
        assert!(buffer.contains(seq.wrapping_sub(i as u16)), "seq: {}", i);
    }
    // ...and that it forgot about `seq - (size + 1)`
    let forgotten_seq = seq.wrapping_sub((size + 1) as u16);
    assert!(!buffer.contains(forgotten_seq));
    assert_eq!(buffer.get(forgotten_seq), None);

    assert_eq!(buffer.capacity(), size);

    buffer.reset();
    assert_eq!(buffer.sequence_pointer(), 0);
    for i in 0..(5 * size) as u16 {
        // assert that the buffer is empty
        assert!(buffer.available(i));
        assert!(buffer.get(i).is_none());
    }
}

#[test]
fn test_sequence_buffer_take() {
    let size = 256;

    let mut buffer = SequenceBuffer::new(size);

    let total_entries = 100_000;
    let mut seq = 0;
    for value in 0..total_entries {
        let entry = SeqData { seq, value };
        assert!(buffer.insert_with(seq, || entry));
        seq = seq.wrapping_add(1);
    }

    for i in 1..=size {
        let expect_seq = seq - (i as u16);
        let expect_value = total_entries - i;
        assert!(buffer.contains(expect_seq));
        assert!(!buffer.available(expect_seq));
        assert_eq!(
            buffer.take(expect_seq),
            Some(SeqData {
                seq: expect_seq,
                value: expect_value
            })
        );
        assert!(buffer.available(expect_seq));
    }
}

#[test]
fn successor_is_greater_for_every_sequence_number() {
    for s in 0u16..=65535 {
        assert!(sequence_greater_than(s.wrapping_add(1), s));
        assert!(!sequence_greater_than(s, s.wrapping_add(1)));
        assert!(!sequence_greater_than(s, s));
    }
}

#[test]
fn greater_mirrors_less() {
    let samples = [0u16, 1, 2, 25, 15000, 32767, 32768, 32769, 50000, 65534, 65535];
    for s1 in samples {
        for s2 in samples {
            assert_eq!(sequence_greater_than(s1, s2), sequence_less_than(s2, s1));
            if s1 != s2 {
                // Of two different numbers exactly one is the greater.
                assert_ne!(sequence_greater_than(s1, s2), sequence_greater_than(s2, s1));
            }
        }
    }
    // Exactly half the range apart, the larger number is the greater.
    assert!(sequence_greater_than(32768, 0));
    assert!(!sequence_greater_than(0, 32768));
}

#[test]
fn insert_refuses_keys_that_are_too_old() {
    let mut buffer: SequenceBuffer<u32> = SequenceBuffer::new(4);
    assert!(buffer.insert(10, 100));
    assert_eq!(buffer.sequence_pointer(), 11);
    // The window of four keys before the cursor is 7 to 10.
    assert!(buffer.insert(7, 70));
    assert!(!buffer.insert(6, 60));
    assert!(!buffer.contains(6));
    assert_eq!(buffer.sequence_pointer(), 11);
    assert_eq!(buffer.get(7), Some(&70));
    assert_eq!(buffer.get(10), Some(&100));

    // The producer of a refused insert is not called.
    let mut called = false;
    assert!(!buffer.insert_with(5, || {
        called = true;
        50
    }));
    assert!(!called);
    assert!(buffer.insert_with(8, || {
        called = true;
        80
    }));
    assert!(called);
}

#[test]
fn slot_of_another_key_is_neither_available_nor_present() {
    let mut buffer: SequenceBuffer<u32> = SequenceBuffer::new(4);
    assert!(buffer.insert(2, 20));
    // Key 6 shares the slot of key 2.
    assert_eq!(buffer.sequence_index(2), buffer.sequence_index(6));
    assert!(!buffer.available(6));
    assert!(!buffer.contains(6));
    assert_eq!(buffer.get(6), None);
    assert_eq!(buffer.take(6), None);
    assert!(buffer.contains(2));
}

#[test]
fn moving_forward_frees_the_range_passed() {
    let mut buffer: SequenceBuffer<u32> = SequenceBuffer::new(8);
    for key in 0..8u16 {
        assert!(buffer.insert(key, key as u32));
    }
    // From cursor 8 to key 10: the slots of the keys 8, 9 and 10 are freed,
    // which held the keys 0, 1 and 2.
    assert!(buffer.insert(10, 10));
    for key in [0u16, 1, 2, 8, 9] {
        assert!(!buffer.contains(key));
    }
    for key in [3u16, 4, 5, 6, 7, 10] {
        assert!(buffer.contains(key));
    }
    // A jump by more than the capacity frees everything.
    assert!(buffer.insert(100, 1));
    for key in 3..11u16 {
        assert!(!buffer.contains(key));
    }
    assert!(buffer.contains(100));
    assert_eq!(buffer.sequence_pointer(), 101);
}

#[test]
fn remove_entries_wraps_around() {
    let mut buffer: SequenceBuffer<u32> = SequenceBuffer::new(8);
    buffer.insert(65533, 1);
    buffer.insert(65534, 2);
    buffer.insert(65535, 3);
    buffer.insert(0, 4);
    buffer.insert(1, 5);
    buffer.remove_entries(65535, 0);
    assert!(buffer.contains(65533));
    assert!(buffer.contains(65534));
    assert!(!buffer.contains(65535));
    assert!(!buffer.contains(0));
    assert!(buffer.contains(1));
    assert_eq!(buffer.sequence_pointer(), 2);

    // The keys 10 to 12 live in the slots 2 to 4, which hold nothing.
    buffer.remove_entries(10, 12);
    assert!(buffer.contains(65533));
    assert!(buffer.contains(65534));
    assert!(buffer.contains(1));
    // A range of more keys than there are slots frees every slot.
    buffer.remove_entries(10, 18);
    assert!(!buffer.contains(65533));
    assert!(!buffer.contains(1));
}

#[test]
fn keys_meet_at_the_wrap_where_the_capacity_is_odd() {
    // 65535 and 0 follow each other and share slot 0 of three.
    let mut buffer: SequenceBuffer<u32> = SequenceBuffer::new(3);
    assert!(buffer.insert(65534, 1));
    assert!(buffer.insert(65535, 2));
    assert!(buffer.insert(0, 3));
    assert!(buffer.contains(65534));
    assert!(!buffer.contains(65535));
    assert!(buffer.contains(0));
    assert_eq!(buffer.capacity(), 3);
}

#[test]
fn get_mut_changes_the_entry_in_place() {
    let mut buffer: SequenceBuffer<u32> = SequenceBuffer::new(4);
    buffer.insert(1, 10);
    assert!(buffer.get_mut(2).is_none());
    *buffer.get_mut(1).unwrap() += 5;
    assert_eq!(buffer.get(1), Some(&15));
    assert_eq!(buffer.take(1), Some(15));
    assert!(buffer.get_mut(1).is_none());
    assert!(buffer.available(1));
}
