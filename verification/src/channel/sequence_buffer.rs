//! A fixed-capacity buffer indexed by wrapping 16-bit sequence numbers.
//!
//! The buffer is the foundation of the packet-level ack bookkeeping and of the
//! reliable message send and receive queues.

use vstd::arithmetic::div_mod::{
    lemma_add_mod_noop,
    lemma_add_mod_noop_right,
    lemma_fundamental_div_mod,
    lemma_mod_add_multiples_vanish,
    lemma_mod_mod,
    lemma_small_mod,
};
use vstd::prelude::*;

verus! {

/// Wrap-aware "greater than" on 16-bit sequence numbers.
///
/// Two numbers that are close together compare as usual; two numbers more than
/// half the range apart are taken to have wrapped around.
pub open spec fn sequence_greater_than_spec(s1: u16, s2: u16) -> bool {
    (s1 > s2 && s1 - s2 <= 32768) || (s1 < s2 && s2 - s1 > 32768)
}

/// Wrap-aware "less than" on 16-bit sequence numbers.
pub open spec fn sequence_less_than_spec(s1: u16, s2: u16) -> bool {
    sequence_greater_than_spec(s2, s1)
}

/// The sequence number `n` steps after `s`, wrapping at 65536. `n` may be negative.
pub open spec fn sequence_add(s: u16, n: int) -> u16 {
    ((s as int + n) % 65536) as u16
}

/// How many steps forward lead from `from` to `to`, in `0..65536`.
pub open spec fn sequence_distance(from: u16, to: u16) -> int {
    (to as int - from as int) % 65536
}

/// Compares two 16 bit sequence numbers and returns true if the first one is
/// greater than the second, considering wrapping. This is not `s1 > s2`:
/// `sequence_greater_than(1, 0)` holds, and so does
/// `sequence_greater_than(0, 65535)`.
#[verifier::when_used_as_spec(sequence_greater_than_spec)]
pub fn sequence_greater_than(s1: u16, s2: u16) -> (r: bool)
    ensures
        r == sequence_greater_than_spec(s1, s2),
{
    ((s1 > s2) && (s1 - s2 <= 32768)) || ((s1 < s2) && (s2 - s1 > 32768))
}

/// Compares two 16 bit sequence numbers and returns true if the first one is
/// less than the second, considering wrapping. This is not `s1 < s2`:
/// `sequence_less_than(0, 1)` holds, and so does `sequence_less_than(65535, 0)`.
#[verifier::when_used_as_spec(sequence_less_than_spec)]
pub fn sequence_less_than(s1: u16, s2: u16) -> (r: bool)
    ensures
        r == sequence_less_than_spec(s1, s2),
{
    sequence_greater_than(s2, s1)
}

/// The successor of a sequence number is greater than it, and never the other
/// way round, also across the wrap from 65535 to 0.
pub proof fn lemma_successor_is_greater(s: u16)
    ensures
        sequence_greater_than(sequence_add(s, 1), s),
        !sequence_greater_than(s, sequence_add(s, 1)),
{
}

/// "Greater than" and "less than" mirror each other.
pub proof fn lemma_greater_mirrors_less(s1: u16, s2: u16)
    ensures
        sequence_greater_than(s1, s2) <==> sequence_less_than(s2, s1),
{
}

/// Of two different sequence numbers exactly one is greater than the other.
pub proof fn lemma_greater_is_total(s1: u16, s2: u16)
    ensures
        s1 != s2 ==> (sequence_greater_than(s1, s2) <==> !sequence_greater_than(s2, s1)),
        !sequence_greater_than(s1, s1),
{
}

/// The order is transitive over a half window: three numbers that lie within
/// fewer than 32768 steps of each other, in this order, compare in this order.
pub proof fn lemma_greater_is_transitive_in_half_window(a: u16, b: u16, c: u16)
    requires
        sequence_less_than(a, b),
        sequence_less_than(b, c),
        sequence_distance(a, b) + sequence_distance(b, c) < 32768,
    ensures
        sequence_less_than(a, c),
        sequence_greater_than(c, a),
{
}

/// The steps from one sequence number to another without the modulus: the
/// difference, plus 65536 if it is negative.
pub proof fn lemma_distance(from: u16, to: u16)
    ensures
        sequence_distance(from, to) == if to >= from {
            to - from
        } else {
            to - from + 65536
        },
        sequence_add(from, sequence_distance(from, to)) == to,
{
}

/// The successor without the modulus, and what a step does to distances.
pub proof fn lemma_distance_step(from: u16, to: u16)
    ensures
        sequence_add(from, 1) == if from == 65535 {
            0
        } else {
            from + 1
        },
        from != to ==> sequence_distance(sequence_add(from, 1), to) == sequence_distance(from, to)
            - 1,
        from != to ==> sequence_distance(from, sequence_add(from, 1)) == 1,
{
}

/// Steps add up along the way: if `b` lies on the way from `a` to `end`, and
/// `c` on the way from `b` to `end`, then `c` lies on the way from `a` to `end`.
pub proof fn lemma_distance_chain(a: u16, b: u16, c: u16, end: u16)
    requires
        sequence_distance(a, b) + sequence_distance(b, end) == sequence_distance(a, end),
        sequence_distance(b, c) + sequence_distance(c, end) == sequence_distance(b, end),
    ensures
        sequence_distance(a, c) + sequence_distance(c, end) == sequence_distance(a, end),
        sequence_distance(a, c) == sequence_distance(a, b) + sequence_distance(b, c),
{
    lemma_distance(a, b);
    lemma_distance(b, end);
    lemma_distance(a, end);
    lemma_distance(b, c);
    lemma_distance(c, end);
    lemma_distance(a, c);
}

/// What a sequence buffer holds: the cursor and, per slot, the key that
/// occupies it with its entry.
pub struct SequenceBufferView<T> {
    /// One past the most recently inserted key, in the wrap-aware order.
    pub sequence: u16,
    /// Slot `i` holds `Some((k, e))` when key `k` is present with entry `e`.
    pub slots: Seq<Option<(u16, T)>>,
}

impl<T> SequenceBufferView<T> {
    /// The number of slots.
    pub open spec fn capacity(self) -> int {
        self.slots.len() as int
    }

    /// The slot that key `k` lives in.
    pub open spec fn index_of(self, k: u16) -> int {
        k as int % self.capacity()
    }

    /// Between 1 and 65535 slots, and every present key sits in its own slot.
    pub open spec fn wf(self) -> bool {
        &&& 1 <= self.capacity() <= 65535
        &&& forall|i: int|
            0 <= i < self.capacity() ==> match #[trigger] self.slots[i] {
                Some((k, _)) => self.index_of(k) == i,
                None => true,
            }
    }

    /// Key `k` is present.
    pub open spec fn contains(self, k: u16) -> bool {
        match self.slots[self.index_of(k)] {
            Some((key, _)) => key == k,
            None => false,
        }
    }

    /// The slot of key `k` is free. A slot taken by another key is neither
    /// available for `k` nor does `k` exist.
    pub open spec fn available(self, k: u16) -> bool {
        self.slots[self.index_of(k)] is None
    }

    /// The entry stored under key `k`, if `k` is present.
    pub open spec fn get(self, k: u16) -> Option<T> {
        match self.slots[self.index_of(k)] {
            Some((key, e)) => if key == k {
                Some(e)
            } else {
                None
            },
            None => None,
        }
    }

    /// The buffer without key `k`.
    pub open spec fn take(self, k: u16) -> Self {
        if self.contains(k) {
            SequenceBufferView { sequence: self.sequence, slots: self.slots.update(self.index_of(k), None) }
        } else {
            self
        }
    }

    /// The buffer with the entry of the present key `k` replaced by `e`.
    pub open spec fn replace(self, k: u16, e: T) -> Self {
        if self.contains(k) {
            SequenceBufferView {
                sequence: self.sequence,
                slots: self.slots.update(self.index_of(k), Some((k, e))),
            }
        } else {
            self
        }
    }

    /// The empty buffer of the same capacity, cursor at 0.
    pub open spec fn reset(self) -> Self {
        SequenceBufferView { sequence: 0, slots: Seq::new(self.slots.len(), |i: int| None) }
    }

    /// Slot `i` is the slot of one of the `count` keys that start at `start`.
    pub open spec fn slot_in_run(self, start: u16, count: int, i: int) -> bool {
        exists|j: int| 0 <= j < count && #[trigger] self.index_of(sequence_add(start, j)) == i
    }

    /// The buffer with the slots of the keys `start ..= end` (wrapping) freed.
    /// A range of more keys than there are slots frees every slot.
    pub open spec fn remove_entries(self, start: u16, end: u16) -> Self {
        let count = sequence_distance(start, end) + 1;
        SequenceBufferView {
            sequence: self.sequence,
            slots: Seq::new(
                self.slots.len(),
                |i: int|
                    if count > self.capacity() || self.slot_in_run(start, count, i) {
                        None
                    } else {
                        self.slots[i]
                    },
            ),
        }
    }

    /// Inserting key `k` moves the cursor forward.
    pub open spec fn advances(self, k: u16) -> bool {
        sequence_greater_than(sequence_add(k, 1), self.sequence)
    }

    /// Key `k` can be inserted: it moves the cursor forward, or it is not older
    /// than the cursor minus the capacity.
    pub open spec fn accepts(self, k: u16) -> bool {
        self.advances(k) || !sequence_less_than(k, sequence_add(self.sequence, -self.capacity()))
    }

    /// The buffer after inserting `e` under key `k`. A refused insert changes
    /// nothing. An insert that moves the cursor forward first frees the slots
    /// of the keys from the old cursor up to `k`, then places the entry.
    pub open spec fn insert(self, k: u16, e: T) -> Self {
        if !self.accepts(k) {
            self
        } else {
            let base = if self.advances(k) {
                SequenceBufferView {
                    sequence: sequence_add(k, 1),
                    slots: self.remove_entries(self.sequence, k).slots,
                }
            } else {
                self
            };
            SequenceBufferView {
                sequence: base.sequence,
                slots: base.slots.update(self.index_of(k), Some((k, e))),
            }
        }
    }
}

impl<T> SequenceBufferView<T> {
    /// An insert leaves in each slot nothing, what was there, or the new entry
    /// in the slot of its key; and it keeps the buffer well-formed.
    pub proof fn lemma_insert_slots(self, k: u16, e: T)
        requires
            self.wf(),
        ensures
            self.insert(k, e).wf(),
            self.insert(k, e).capacity() == self.capacity(),
            self.accepts(k) ==> self.insert(k, e).slots[self.index_of(k)] == Some((k, e)),
            forall|i: int|
                0 <= i < self.capacity() ==> {
                    ||| (#[trigger] self.insert(k, e).slots[i]) is None
                    ||| self.insert(k, e).slots[i] == self.slots[i]
                    ||| (i == self.index_of(k) && self.accepts(k))
                },
    {
        if self.accepts(k) && self.advances(k) {
            let cleared = self.remove_entries(self.sequence, k);
            assert forall|i: int| 0 <= i < self.capacity() implies (cleared.slots[i] is None
                || cleared.slots[i] == self.slots[i]) by {}
            assert forall|i: int| 0 <= i < self.capacity() implies {
                ||| (#[trigger] self.insert(k, e).slots[i]) is None
                ||| self.insert(k, e).slots[i] == self.slots[i]
                ||| (i == self.index_of(k) && self.accepts(k))
            } by {
                assert(cleared.slots[i] is None || cleared.slots[i] == self.slots[i]);
            }
        }
    }
}

impl<T> SequenceBufferView<T> {
    /// Inserting the same entry under the same key a second time changes nothing.
    pub proof fn lemma_insert_twice(self, k: u16, e: T)
        requires
            self.wf(),
        ensures
            self.insert(k, e).insert(k, e) == self.insert(k, e),
    {
        let once = self.insert(k, e);
        self.lemma_insert_slots(k, e);
        if self.accepts(k) {
            assert(once.index_of(k) == self.index_of(k));
            assert(!once.advances(k) || !self.advances(k));
            if self.advances(k) {
                assert(once.sequence == sequence_add(k, 1));
                assert(!once.advances(k));
            }
            assert(once.insert(k, e).slots =~= once.slots);
        }
    }
}

/// Steps add up: going `a` steps and then `b` steps is going `a + b` steps.
pub proof fn lemma_add_add(s: u16, a: int, b: int)
    ensures
        sequence_add(sequence_add(s, a), b) == sequence_add(s, a + b),
{
    lemma_add_mod_noop_right(b, s as int + a, 65536);
    assert(((s as int + a) % 65536 + b) % 65536 == (s as int + a + b) % 65536) by {
        assert(b + (s as int + a) % 65536 == (s as int + a) % 65536 + b);
        assert(b + (s as int + a) == s as int + a + b);
    }
}

/// Going on from a sequence number by fewer than 65536 steps gets that many
/// steps away from it.
pub proof fn lemma_add_distance(s: u16, steps: int)
    requires
        0 <= steps < 65536,
    ensures
        sequence_distance(s, sequence_add(s, steps)) == steps,
{
    lemma_distance(s, sequence_add(s, steps));
}

/// A key that is accepted without moving the cursor is one of the `n` keys
/// before the cursor.
pub proof fn lemma_placed_in_window(cursor: u16, k: u16, n: int)
    requires
        2 <= n <= 32768,
        !sequence_greater_than(sequence_add(k, 1), cursor),
        !sequence_less_than(k, sequence_add(cursor, -n)),
    ensures
        sequence_distance(k, sequence_add(cursor, -1)) < n,
{
    lemma_distance(k, sequence_add(cursor, -1));
    lemma_distance(k, sequence_add(cursor, -n));
}

/// When the cursor moves forward to just after `k`, a key `q` of the old
/// window that is not in the new window lies a whole capacity before one of
/// the keys that the cursor passes.
pub proof fn lemma_passed_in_window(cursor: u16, k: u16, q: u16, n: int)
    requires
        2 <= n <= 32768,
        sequence_distance(q, sequence_add(cursor, -1)) < n,
        sequence_distance(cursor, k) + 1 <= n,
        sequence_distance(q, k) >= n,
    ensures
        0 <= n - 1 - sequence_distance(q, sequence_add(cursor, -1)) < sequence_distance(cursor, k)
            + 1,
        sequence_add(cursor, n - 1 - sequence_distance(q, sequence_add(cursor, -1)))
            == sequence_add(q, n),
{
    lemma_distance(q, sequence_add(cursor, -1));
    lemma_distance(cursor, k);
    lemma_distance(q, k);
}

/// Where the capacity divides 65536, the slot of a key that lies `steps`
/// after another is `steps` slots after the other's slot, around the buffer,
/// also where the keys wrap.
pub proof fn lemma_index_shift(capacity: int, k: u16, steps: int)
    requires
        1 <= capacity <= 65535,
        65536int % capacity == 0,
        0 <= steps,
    ensures
        sequence_add(k, steps) as int % capacity == (k as int % capacity + steps) % capacity,
{
    let times = 65536int / capacity;
    lemma_fundamental_div_mod(65536, capacity);
    assert(capacity * times == 65536);
    assert(times > 0) by (nonlinear_arith)
        requires
            capacity * times == 65536,
            capacity > 0,
    ;
    lemma_mod_mod(k as int + steps, capacity, times);
    lemma_add_mod_noop(k as int, steps, capacity);
    lemma_add_mod_noop_right(k as int % capacity, steps, capacity);
}

/// Where the capacity divides 65536, two different keys that are less than
/// the capacity apart live in different slots.
pub proof fn lemma_near_keys_differ(capacity: int, q: u16, k: u16)
    requires
        1 <= capacity <= 65535,
        65536int % capacity == 0,
        0 < sequence_distance(q, k) < capacity,
    ensures
        q as int % capacity != k as int % capacity,
{
    let d = sequence_distance(q, k);
    let r = q as int % capacity;
    lemma_distance(q, k);
    lemma_index_shift(capacity, q, d);
    if r + d < capacity {
        lemma_small_mod((r + d) as nat, capacity as nat);
    } else {
        lemma_mod_add_multiples_vanish(r + d - capacity, capacity);
        lemma_small_mod((r + d - capacity) as nat, capacity as nat);
    }
}

/// Where the capacity divides 65536, the key that lies a whole capacity after
/// another lives in the same slot.
pub proof fn lemma_far_keys_meet(capacity: int, q: u16)
    requires
        1 <= capacity <= 65535,
        65536int % capacity == 0,
    ensures
        sequence_add(q, capacity) as int % capacity == q as int % capacity,
{
    let r = q as int % capacity;
    lemma_index_shift(capacity, q, capacity);
    lemma_mod_add_multiples_vanish(r, capacity);
    lemma_small_mod(r as nat, capacity as nat);
}

impl<T> SequenceBufferView<T> {
    /// The capacity divides 65536, so that keys a whole capacity apart share
    /// a slot, also where the keys wrap.
    pub open spec fn aligned(self) -> bool {
        65536int % self.capacity() == 0
    }

    /// Every present key is one of the `capacity` keys before the cursor.
    pub open spec fn in_window(self) -> bool {
        forall|i: int|
            0 <= i < self.capacity() ==> match #[trigger] self.slots[i] {
                Some((k, _)) => sequence_distance(k, sequence_add(self.sequence, -1))
                    < self.capacity(),
                None => true,
            }
    }

    /// The buffer after the entries have been inserted, in order, under the
    /// keys that follow each other from `first` on.
    pub open spec fn insert_run(self, first: u16, entries: Seq<T>) -> Self
        decreases entries.len(),
    {
        if entries.len() == 0 {
            self
        } else {
            self.insert_run(first, entries.drop_last()).insert(
                sequence_add(first, entries.len() - 1),
                entries.last(),
            )
        }
    }

    /// An empty buffer holds its keys in the window: it holds none.
    pub proof fn lemma_reset_in_window(self)
        requires
            self.wf(),
        ensures
            self.reset().wf(),
            self.reset().in_window(),
    {
    }

    /// An entry that was inserted is retrievable.
    pub proof fn lemma_inserted_is_retrievable(self, k: u16, e: T)
        requires
            self.wf(),
            self.accepts(k),
        ensures
            self.insert(k, e).contains(k),
            self.insert(k, e).get(k) == Some(e),
    {
        self.lemma_insert_slots(k, e);
    }

    /// Keys older than the cursor minus the capacity are not retrievable
    /// from a buffer that holds its keys in the window.
    pub proof fn lemma_window_drops_old_keys(self, k: u16)
        requires
            self.wf(),
            self.in_window(),
            self.capacity() <= 32768,
            sequence_less_than(k, sequence_add(self.sequence, -self.capacity())),
        ensures
            !self.contains(k),
            self.get(k) is None,
    {
        if self.contains(k) {
            let i = self.index_of(k);
            assert(self.slots[i] is Some);
            lemma_distance(k, sequence_add(self.sequence, -1));
            lemma_distance(k, sequence_add(self.sequence, -self.capacity()));
        }
    }

    /// An insert keeps the keys in the window, where the capacity divides
    /// 65536 and is at most 32768.
    pub proof fn lemma_insert_keeps_window(self, k: u16, e: T)
        requires
            self.wf(),
            self.aligned(),
            2 <= self.capacity() <= 32768,
            self.in_window(),
        ensures
            self.insert(k, e).wf(),
            self.insert(k, e).in_window(),
    {
        let after = self.insert(k, e);
        let n = self.capacity();
        self.lemma_insert_slots(k, e);
        if self.accepts(k) {
            lemma_add_add(k, 1, -1);
            assert forall|i: int| 0 <= i < n implies match #[trigger] after.slots[i] {
                Some((q, _)) => sequence_distance(q, sequence_add(after.sequence, -1)) < n,
                None => true,
            } by {
                if i == self.index_of(k) {
                    if self.advances(k) {
                        lemma_distance(k, k);
                    } else {
                        lemma_placed_in_window(self.sequence, k, n);
                    }
                } else if after.slots[i] is Some {
                    assert(after.slots[i] == self.slots[i]);
                    let q = match self.slots[i] {
                        Some((key, _)) => key,
                        None => 0u16,
                    };
                    if self.advances(k) {
                        let count = sequence_distance(self.sequence, k) + 1;
                        assert(count <= n);
                        if sequence_distance(q, k) >= n {
                            let j = n - 1 - sequence_distance(q, sequence_add(self.sequence, -1));
                            lemma_passed_in_window(self.sequence, k, q, n);
                            lemma_far_keys_meet(n, q);
                            assert(self.index_of(sequence_add(self.sequence, j)) == i);
                            assert(self.slot_in_run(self.sequence, count, i));
                            assert(false);
                        }
                    }
                }
            }
        }
    }

    /// An insert at the cursor moves the cursor on by one and leaves the
    /// entries of the keys shortly before it alone: those less than the
    /// capacity behind, where the capacity divides 65536.
    pub proof fn lemma_cursor_insert_keeps(self, k: u16, e: T, q: u16)
        requires
            self.wf(),
            self.aligned(),
            self.sequence == k,
            0 < sequence_distance(q, k) < self.capacity(),
        ensures
            self.advances(k),
            self.insert(k, e).sequence == sequence_add(k, 1),
            self.insert(k, e).get(q) == self.get(q),
    {
        let i = self.index_of(q);
        lemma_near_keys_differ(self.capacity(), q, k);
        lemma_distance(k, k);
        assert(!self.slot_in_run(k, 1, i)) by {
            if self.slot_in_run(k, 1, i) {
                let w = choose|w: int|
                    0 <= w < 1 && #[trigger] self.index_of(sequence_add(k, w)) == i;
                assert(sequence_add(k, w) == k);
            }
        }
        assert(self.remove_entries(k, k).slots[i] == self.slots[i]);
    }

    /// Of keys inserted one after the other, the last ones are retrievable, as
    /// many as the buffer has slots, each with its entry; and the keys stay in
    /// the window, so that older keys are not retrievable. This holds where
    /// the capacity divides 65536 and is at most 32768, and the first key
    /// moves the cursor forward.
    pub proof fn lemma_run_is_retrievable(self, first: u16, entries: Seq<T>)
        requires
            self.wf(),
            self.aligned(),
            2 <= self.capacity() <= 32768,
            self.in_window(),
            self.advances(first),
        ensures
            self.insert_run(first, entries).wf(),
            self.insert_run(first, entries).in_window(),
            self.insert_run(first, entries).capacity() == self.capacity(),
            entries.len() > 0 ==> self.insert_run(first, entries).sequence == sequence_add(
                first,
                entries.len() as int,
            ),
            forall|j: int|
                0 <= j < entries.len() && entries.len() - self.capacity() <= j
                    ==> #[trigger] self.insert_run(first, entries).get(sequence_add(first, j))
                    == Some(entries[j]),
        decreases entries.len(),
    {
        if entries.len() > 0 {
            let m = entries.len() as int;
            let n = self.capacity();
            let before = self.insert_run(first, entries.drop_last());
            let k = sequence_add(first, m - 1);
            let after = before.insert(k, entries.last());
            self.lemma_run_is_retrievable(first, entries.drop_last());
            before.lemma_insert_keeps_window(k, entries.last());
            assert(after == self.insert_run(first, entries));
            lemma_add_add(first, m - 1, 1);
            if m == 1 {
                assert(before == self);
                assert(k == first);
                before.lemma_inserted_is_retrievable(k, entries.last());
            } else {
                assert(before.sequence == k);
                lemma_successor_is_greater(k);
                before.lemma_inserted_is_retrievable(k, entries.last());
                assert forall|j: int| 0 <= j < m && m - n <= j implies #[trigger] after.get(
                    sequence_add(first, j),
                ) == Some(entries[j]) by {
                    let q = sequence_add(first, j);
                    if j < m - 1 {
                        assert(before.get(q) == Some(entries.drop_last()[j]));
                        lemma_add_add(first, j, m - 1 - j);
                        lemma_add_distance(q, m - 1 - j);
                        before.lemma_cursor_insert_keeps(k, entries.last(), q);
                    }
                }
            }
        }
    }
}

/// Data structure that stores entries indexed by sequence number.
///
/// An entry may or may not exist under a key. Presence is tracked apart from
/// the payload, so that a reset or a range clear does not touch payloads.
pub struct SequenceBuffer<T> {
    /// One past the most recent sequence number added to the buffer.
    sequence: u16,
    /// The key of each entry in `entries` at the same index, `None` if the slot is free.
    entry_sequence: Vec<Option<u16>>,
    /// The entries. A slot whose key is `None` may still hold a stale payload.
    entries: Vec<Option<T>>,
}

impl<T> View for SequenceBuffer<T> {
    type V = SequenceBufferView<T>;

    closed spec fn view(&self) -> SequenceBufferView<T> {
        SequenceBufferView {
            sequence: self.sequence,
            slots: Seq::new(
                self.entry_sequence@.len(),
                |i: int|
                    match self.entry_sequence@[i] {
                        Some(k) => Some((k, self.entries@[i].unwrap())),
                        None => None,
                    },
            ),
        }
    }
}

impl<T> SequenceBuffer<T> {
    /// The representation is consistent: both arrays have the same length,
    /// between 1 and 65535, and a slot with a key holds that key's payload.
    pub closed spec fn wf(&self) -> bool {
        &&& self.entries@.len() == self.entry_sequence@.len()
        &&& 1 <= self.entry_sequence@.len() <= 65535
        &&& forall|i: int|
            0 <= i < self.entry_sequence@.len() ==> match #[trigger] self.entry_sequence@[i] {
                Some(k) => k as int % self.entry_sequence@.len() as int == i && self.entries@[i] is Some,
                None => true,
            }
    }

    /// A consistent buffer has a well-formed view.
    pub proof fn lemma_wf_view(&self)
        requires
            self.wf(),
        ensures
            self@.wf(),
    {
    }

    /// An empty buffer of `size` slots, cursor at 0.
    pub fn new(size: usize) -> (buffer: SequenceBuffer<T>)
        requires
            1 <= size <= 65535,
        ensures
            buffer.wf(),
            buffer@.sequence == 0,
            buffer@.capacity() == size,
            forall|i: int| 0 <= i < size ==> buffer@.slots[i] is None,
    {
        let mut entries: Vec<Option<T>> = Vec::with_capacity(size);
        let mut entry_sequence: Vec<Option<u16>> = Vec::with_capacity(size);
        let mut i: usize = 0;
        while i < size
            invariant
                i <= size,
                entries@.len() == i,
                entry_sequence@.len() == i,
                forall|j: int| 0 <= j < i ==> entry_sequence@[j] is None,
            decreases size - i,
        {
            entries.push(None);
            entry_sequence.push(None);
            i += 1;
        }
        SequenceBuffer { sequence: 0, entry_sequence, entries }
    }

    /// Reset the sequence buffer.
    ///
    /// Removes all entries from the sequence buffer and restores it to its
    /// initial state. Payloads are left where they are.
    pub fn reset(&mut self)
        requires
            old(self).wf(),
        ensures
            final(self).wf(),
            final(self)@ == old(self)@.reset(),
    {
        self.sequence = 0;
        self.clear_keys();
        assert(self@.slots =~= old(self)@.reset().slots);
    }

    /// The "current" sequence number, which advances when entries are added.
    ///
    /// It wraps around: at 65535, adding an entry under 65535 makes 0 the new
    /// current sequence number.
    pub fn sequence_pointer(&self) -> (sequence: u16)
        ensures
            sequence == self@.sequence,
    {
        self.sequence
    }

    /// Insert an entry into the sequence buffer, made by `f`.
    ///
    /// If another entry lives in the slot of `sequence`, it is overwritten.
    /// Returns true if the insert was successful, or false if the entry could
    /// not be added because the sequence number is too old. `f` is called only
    /// on success, after the cursor has moved.
    pub fn insert_with<F: FnOnce() -> T>(&mut self, sequence: u16, f: F) -> (inserted: bool)
        requires
            old(self).wf(),
            f.requires(()),
        ensures
            final(self).wf(),
            inserted == old(self)@.accepts(sequence),
            inserted ==> f.ensures((), final(self)@.get(sequence).unwrap()),
            inserted ==> final(self)@ == old(self)@.insert(
                sequence,
                final(self)@.get(sequence).unwrap(),
            ),
            !inserted ==> final(self)@ == old(self)@,
    {
        if !self.make_room(sequence) {
            return false;
        }
        let entry = f();
        self.place(sequence, entry);
        true
    }

    /// Insert `entry` under `sequence`, as [`Self::insert_with`] does.
    pub fn insert(&mut self, sequence: u16, entry: T) -> (inserted: bool)
        requires
            old(self).wf(),
        ensures
            final(self).wf(),
            inserted == old(self)@.accepts(sequence),
            final(self)@ == old(self)@.insert(sequence, entry),
    {
        if !self.make_room(sequence) {
            return false;
        }
        self.place(sequence, entry);
        true
    }

    /// The first half of an insert: refuses a key that is too old, and for a
    /// key that moves the cursor forward frees the range it passes over.
    fn make_room(&mut self, sequence: u16) -> (accepted: bool)
        requires
            old(self).wf(),
        ensures
            final(self).wf(),
            accepted == old(self)@.accepts(sequence),
            !accepted ==> final(self)@ == old(self)@,
            accepted && old(self)@.advances(sequence) ==> final(self)@ == (SequenceBufferView {
                sequence: sequence_add(sequence, 1),
                slots: old(self)@.remove_entries(old(self)@.sequence, sequence).slots,
            }),
            accepted && !old(self)@.advances(sequence) ==> final(self)@ == old(self)@,
    {
        let next_sequence: u16 = sequence.wrapping_add(1);
        if sequence_greater_than(next_sequence, self.sequence) {
            let start: u16 = self.sequence;
            self.remove_entries(start, sequence);
            self.sequence = next_sequence;
            true
        } else {
            let capacity: usize = self.capacity();
            let oldest: u16 = self.sequence.wrapping_sub(capacity as u16);
            !sequence_less_than(sequence, oldest)
        }
    }

    /// The second half of an insert: puts `entry` into the slot of `sequence`.
    fn place(&mut self, sequence: u16, entry: T)
        requires
            old(self).wf(),
        ensures
            final(self).wf(),
            final(self)@ == (SequenceBufferView {
                sequence: old(self)@.sequence,
                slots: old(self)@.slots.update(old(self)@.index_of(sequence), Some((sequence, entry))),
            }),
    {
        let index: usize = self.sequence_index(sequence);
        self.entries.set(index, Some(entry));
        self.entry_sequence.set(index, Some(sequence));
        assert(self@.slots =~= old(self)@.slots.update(
            old(self)@.index_of(sequence),
            Some((sequence, entry)),
        ));
    }

    /// Take an entry from the buffer with matching `sequence`.
    ///
    /// Returns `None` if the sequence entry does not exist, else returns
    /// `Some(entry)`, and removes it from the buffer.
    pub fn take(&mut self, sequence: u16) -> (entry: Option<T>)
        requires
            old(self).wf(),
        ensures
            final(self).wf(),
            entry == old(self)@.get(sequence),
            final(self)@ == old(self)@.take(sequence),
    {
        if self.contains(sequence) {
            let index: usize = self.sequence_index(sequence);
            self.entry_sequence.set(index, None);
            let entry = self.entries[index].take();
            assert(self@.slots =~= old(self)@.take(sequence).slots);
            entry
        } else {
            None
        }
    }

    /// The entry stored under `sequence`, if that very key is present.
    pub fn get(&self, sequence: u16) -> (entry: Option<&T>)
        requires
            self.wf(),
        ensures
            match entry {
                Some(e) => self@.get(sequence) == Some(*e),
                None => self@.get(sequence) is None,
            },
    {
        if self.contains(sequence) {
            self.entries[self.sequence_index(sequence)].as_ref()
        } else {
            None
        }
    }

    /// The entry stored under `sequence`, to be changed in place, if that very
    /// key is present.
    pub fn get_mut(&mut self, sequence: u16) -> (entry: Option<&mut T>)
        requires
            old(self).wf(),
        ensures
            final(self).wf(),
            match entry {
                Some(e) => {
                    &&& old(self)@.get(sequence) == Some(*e)
                    &&& final(self)@.sequence == old(self)@.sequence
                    &&& final(self)@.slots =~= old(self)@.replace(sequence, *final(e)).slots
                },
                None => {
                    &&& old(self)@.get(sequence) is None
                    &&& final(self)@ == old(self)@
                },
            },
    {
        if self.contains(sequence) {
            let index: usize = self.sequence_index(sequence);
            self.entries[index].as_mut()
        } else {
            None
        }
    }

    /// Returns true if the slot of `sequence` is free, false if it is occupied,
    /// by this key or by another key of the same slot.
    pub fn available(&self, sequence: u16) -> (free: bool)
        requires
            self.wf(),
        ensures
            free == self@.available(sequence),
    {
        self.entry_sequence[self.sequence_index(sequence)].is_none()
    }

    /// Returns true if an entry is stored under exactly this `sequence`.
    pub fn contains(&self, sequence: u16) -> (present: bool)
        requires
            self.wf(),
        ensures
            present == self@.contains(sequence),
    {
        match self.entry_sequence[self.sequence_index(sequence)] {
            Some(key) => key == sequence,
            None => false,
        }
    }

    /// The slot that `sequence` lives in.
    pub fn sequence_index(&self, sequence: u16) -> (index: usize)
        requires
            self.wf(),
        ensures
            index == self@.index_of(sequence),
            index < self@.capacity(),
    {
        sequence as usize % self.capacity()
    }

    /// The number of slots.
    pub fn capacity(&self) -> (capacity: usize)
        requires
            self.wf(),
        ensures
            capacity == self@.capacity(),
            1 <= capacity <= 65535,
    {
        self.entries.len()
    }

    /// Remove the entries of the keys from `start_sequence` to `end_sequence`,
    /// both included, wrapping at 65536.
    ///
    /// This frees old entries as the buffer moves forward. Entries are added
    /// with holes under packet loss, and without this clearing an entry of the
    /// previous wrap could still sit in the buffer and be taken for a new one.
    /// A range of more keys than there are slots frees all slots at once.
    pub fn remove_entries(&mut self, start_sequence: u16, end_sequence: u16)
        requires
            old(self).wf(),
        ensures
            final(self).wf(),
            final(self)@ == old(self)@.remove_entries(start_sequence, end_sequence),
    {
        let capacity: usize = self.capacity();
        let distance: usize = end_sequence.wrapping_sub(start_sequence) as usize;
        assert(distance == sequence_distance(start_sequence, end_sequence));
        if distance < capacity {
            let mut done: usize = 0;
            while done <= distance
                invariant
                    done <= distance + 1,
                    distance < capacity,
                    capacity == old(self)@.capacity(),
                    1 <= capacity <= 65535,
                    self.sequence == old(self).sequence,
                    self.entries == old(self).entries,
                    self.entry_sequence@.len() == capacity,
                    forall|i: int|
                        0 <= i < capacity ==> #[trigger] self.entry_sequence@[i] == if old(
                            self,
                        )@.slot_in_run(start_sequence, done as int, i) {
                            None
                        } else {
                            old(self).entry_sequence@[i]
                        },
                decreases distance + 1 - done,
            {
                let key: u16 = start_sequence.wrapping_add(done as u16);
                assert(key == sequence_add(start_sequence, done as int));
                let index: usize = key as usize % capacity;
                let ghost before = old(self)@;
                let ghost keys = self.entry_sequence@;
                self.entry_sequence.set(index, None);
                assert forall|i: int| 0 <= i < capacity implies #[trigger] self.entry_sequence@[i]
                    == if before.slot_in_run(start_sequence, done as int + 1, i) {
                    None
                } else {
                    old(self).entry_sequence@[i]
                } by {
                    assert(keys[i] == if before.slot_in_run(start_sequence, done as int, i) {
                        None
                    } else {
                        old(self).entry_sequence@[i]
                    });
                    if i == index {
                        assert(before.index_of(sequence_add(start_sequence, done as int)) == i);
                    } else if before.slot_in_run(start_sequence, done as int + 1, i) {
                        let j = choose|j: int|
                            0 <= j < done as int + 1 && #[trigger] before.index_of(
                                sequence_add(start_sequence, j),
                            ) == i;
                        assert(j < done as int);
                    } else if before.slot_in_run(start_sequence, done as int, i) {
                        let j = choose|j: int|
                            0 <= j < done as int && #[trigger] before.index_of(
                                sequence_add(start_sequence, j),
                            ) == i;
                        assert(before.index_of(sequence_add(start_sequence, j)) == i);
                    }
                }
                done += 1;
            }
            assert(self@.slots =~= old(self)@.remove_entries(start_sequence, end_sequence).slots);
        } else {
            self.clear_keys();
            assert(self@.slots =~= old(self)@.remove_entries(start_sequence, end_sequence).slots);
        }
    }

    /// Frees every slot, and leaves the cursor and the payloads alone.
    fn clear_keys(&mut self)
        requires
            old(self).entries@.len() == old(self).entry_sequence@.len(),
        ensures
            final(self).sequence == old(self).sequence,
            final(self).entries == old(self).entries,
            final(self).entry_sequence@.len() == old(self).entry_sequence@.len(),
            forall|i: int|
                0 <= i < final(self).entry_sequence@.len() ==> final(self).entry_sequence@[i] is None,
    {
        let n: usize = self.entry_sequence.len();
        let mut i: usize = 0;
        while i < n
            invariant
                i <= n,
                n == self.entry_sequence@.len(),
                self.sequence == old(self).sequence,
                self.entries == old(self).entries,
                forall|j: int| 0 <= j < i ==> self.entry_sequence@[j] is None,
            decreases n - i,
        {
            self.entry_sequence.set(i, None);
            i += 1;
        }
    }
}

} // verus!
