//! Fixed-capacity ring buffer in the style of the LMAX Disruptor: one
//! producer publishes items under increasing sequence numbers, each consumer
//! reads by sequence number and keeps its own read cursor.
use vstd::prelude::*;

verus! {

/// `n` is a power of two.
pub open spec fn is_power_of_two(n: usize) -> bool {
    n > 0 && n & ((n - 1) as usize) == 0
}

/// Smallest element of a non-empty sequence of cursors.
pub open spec fn seq_min(s: Seq<u64>) -> u64
    decreases s.len(),
{
    if s.len() <= 1 {
        if s.len() == 0 {
            0
        } else {
            s[0]
        }
    } else {
        let m = seq_min(s.drop_last());
        if s.last() < m {
            s.last()
        } else {
            m
        }
    }
}

proof fn lemma_seq_min(s: Seq<u64>)
    requires
        s.len() > 0,
    ensures
        forall|i: int| 0 <= i < s.len() ==> seq_min(s) <= s[i],
        exists|i: int| 0 <= i < s.len() && seq_min(s) == s[i],
    decreases s.len(),
{
    if s.len() > 1 {
        lemma_seq_min(s.drop_last());
        assert forall|i: int| 0 <= i < s.len() implies seq_min(s) <= s[i] by {
            if i < s.len() - 1 {
                assert(s[i] == s.drop_last()[i]);
            }
        }
        let j = choose|j: int| 0 <= j < s.drop_last().len() && seq_min(s.drop_last()) == s.drop_last()[j];
        assert(s.drop_last()[j] == s[j]);
        assert(s[s.len() - 1] == s.last());
    } else {
        assert(s[0] == seq_min(s));
    }
}

proof fn lemma_mod_le_self(x: int, m: int)
    requires
        x >= 0,
        m > 0,
    ensures
        0 <= x % m <= x,
        x % m < m,
{
    vstd::arithmetic::div_mod::lemma_fundamental_div_mod(x, m);
    assert(x / m >= 0) by (nonlinear_arith)
        requires
            x >= 0,
            m > 0,
    ;
    assert(x % m <= x) by (nonlinear_arith)
        requires
            x == m * (x / m) + x % m,
            x / m >= 0,
            m > 0,
            x % m >= 0,
    ;
}

proof fn lemma_mod_distinct(s: int, w: int, cap: int)
    requires
        cap > 0,
        0 <= s < w,
        w - s < cap,
    ensures
        s % cap != w % cap,
{
    vstd::arithmetic::div_mod::lemma_fundamental_div_mod(s, cap);
    vstd::arithmetic::div_mod::lemma_fundamental_div_mod(w, cap);
    let qs = s / cap;
    let qw = w / cap;
    if s % cap == w % cap {
        assert((qw - qs) * cap == w - s) by (nonlinear_arith)
            requires
                s == cap * qs + s % cap,
                w == cap * qw + w % cap,
                s % cap == w % cap,
        ;
        assert(false) by (nonlinear_arith)
            requires
                (qw - qs) * cap == w - s,
                0 < w - s < cap,
                cap > 0,
        ;
    }
}

/// Ring buffer of `Copy` items with a fixed power-of-two capacity.
pub struct RingBuffer<T: Copy> {
    buffer: Vec<Option<T>>,
    capacity: usize,
    index_mask: u64,
    write_cursor: u64,
    read_cursors: Vec<u64>,
    min_read_cursor: u64,
    /// Every item published so far, by sequence number.
    published: Ghost<Seq<T>>,
}

impl<T: Copy> RingBuffer<T> {
    /// Items published so far, indexed by sequence number.
    pub closed spec fn published(&self) -> Seq<T> {
        self.published@
    }

    /// Next sequence number to be written.
    pub closed spec fn write_seq(&self) -> u64 {
        self.write_cursor
    }

    /// Read cursor of each consumer.
    pub closed spec fn cursors(&self) -> Seq<u64> {
        self.read_cursors@
    }

    pub closed spec fn spec_capacity(&self) -> usize {
        self.capacity
    }

    /// What the slot holding sequence `seq` contains.
    pub closed spec fn slot(&self, seq: u64) -> Option<T> {
        self.buffer@[(seq % (self.capacity as u64)) as int]
    }

    pub closed spec fn wf(&self) -> bool {
        &&& self.capacity == self.buffer@.len()
        &&& is_power_of_two(self.capacity)
        &&& self.index_mask == (self.capacity - 1) as u64
        &&& self.read_cursors@.len() > 0
        &&& self.published@.len() == self.write_cursor
        &&& forall|i: int| 0 <= i < self.read_cursors@.len() ==> self.read_cursors@[i] <= self.write_cursor
        &&& forall|s: int|
            0 <= s < self.write_cursor && self.write_cursor <= s + self.capacity ==> #[trigger] self.buffer@[s
                % (self.capacity as int)] == Some(self.published@[s])
        &&& forall|i: int| 0 <= i < self.capacity && i < self.write_cursor ==> #[trigger] self.buffer@[i] is Some
    }

    /// What a well-formed ring buffer keeps: one published item per sequence
    /// number written, a power-of-two capacity, at least one consumer, and
    /// no consumer's cursor beyond the write cursor.
    pub proof fn lemma_wf_facts(&self)
        requires
            self.wf(),
        ensures
            self.published().len() == self.write_seq(),
            is_power_of_two(self.spec_capacity()),
            self.spec_capacity() > 0,
            self.cursors().len() > 0,
            forall|i: int| 0 <= i < self.cursors().len() ==> self.cursors()[i] <= self.write_seq(),
    {
    }

    /// Read after publish: after `publish(item)` took a well-formed buffer
    /// `before` to `after`, the item's sequence number is written and still
    /// within the buffer's capacity, and the item published under it is
    /// `item`; so `read` of that sequence number gives back `Some(item)`.
    pub proof fn law_publish_then_read(before: RingBuffer<T>, after: RingBuffer<T>, item: T)
        requires
            before.wf(),
            after.wf(),
            after.published() == before.published().push(item),
            after.write_seq() == before.write_seq() + 1,
            after.spec_capacity() == before.spec_capacity(),
        ensures
            before.write_seq() < after.write_seq(),
            after.write_seq() <= before.write_seq() + after.spec_capacity(),
            after.published()[before.write_seq() as int] == item,
    {
    }

    /// A ring buffer of the given power-of-two capacity with `num_consumers` readers.
    pub fn new(capacity: usize, num_consumers: usize) -> (rb: Self)
        requires
            is_power_of_two(capacity),
            num_consumers > 0,
        ensures
            rb.wf(),
            rb.spec_capacity() == capacity,
            rb.cursors() == Seq::new(num_consumers as nat, |i: int| 0u64),
            rb.write_seq() == 0,
            rb.published() == Seq::<T>::empty(),
    {
        let mut buffer: Vec<Option<T>> = Vec::new();
        let mut i: usize = 0;
        while i < capacity
            invariant
                i <= capacity,
                buffer@.len() == i,
            decreases capacity - i,
        {
            buffer.push(None);
            i = i + 1;
        }
        let mut read_cursors: Vec<u64> = Vec::new();
        let mut j: usize = 0;
        while j < num_consumers
            invariant
                j <= num_consumers,
                read_cursors@ == Seq::new(j as nat, |i: int| 0u64),
            decreases num_consumers - j,
        {
            read_cursors.push(0);
            j = j + 1;
            assert(read_cursors@ =~= Seq::new(j as nat, |i: int| 0u64));
        }
        RingBuffer {
            buffer,
            capacity,
            index_mask: (capacity - 1) as u64,
            write_cursor: 0,
            read_cursors,
            min_read_cursor: 0,
            published: Ghost(Seq::empty()),
        }
    }

    fn index_of(&self, sequence: u64) -> (i: usize)
        requires
            self.wf(),
        ensures
            i as int == sequence % (self.capacity as u64),
            i < self.capacity,
    {
        let c = self.capacity as u64;
        (sequence % c) as usize
    }

    /// Refresh the cached slowest read cursor.
    fn update_min_read_cursor(&mut self)
        requires
            old(self).wf(),
        ensures
            final(self).wf(),
            final(self).min_read_cursor == seq_min(old(self).read_cursors@),
            final(self).published() == old(self).published(),
            final(self).write_seq() == old(self).write_seq(),
            final(self).cursors() == old(self).cursors(),
            final(self).spec_capacity() == old(self).spec_capacity(),
            final(self).buffer@ == old(self).buffer@,
            final(self).capacity == old(self).capacity,
            final(self).index_mask == old(self).index_mask,
    {
        let mut m = self.read_cursors[0];
        let mut i: usize = 1;
        proof {
            assert(self.read_cursors@.take(1) =~= seq![self.read_cursors@[0]]);
        }
        while i < self.read_cursors.len()
            invariant
                1 <= i <= self.read_cursors@.len(),
                m == seq_min(self.read_cursors@.take(i as int)),
            decreases self.read_cursors.len() - i,
        {
            assert(self.read_cursors@.take(i + 1).drop_last() =~= self.read_cursors@.take(
                i as int,
            ));
            if self.read_cursors[i] < m {
                m = self.read_cursors[i];
            }
            i = i + 1;
        }
        assert(self.read_cursors@.take(i as int) =~= self.read_cursors@);
        self.min_read_cursor = m;
    }

    /// Claim the next sequence number, waiting until no unread item would be overwritten.
    fn claim_next(&mut self) -> (next: u64)
        requires
            old(self).wf(),
            old(self).write_seq() < u64::MAX,
            old(self).write_seq() < seq_min(old(self).cursors()) + old(self).spec_capacity(),
        ensures
            next == old(self).write_seq(),
            final(self).write_seq() == old(self).write_seq() + 1,
            final(self).published() == old(self).published(),
            final(self).cursors() == old(self).cursors(),
            final(self).spec_capacity() == old(self).spec_capacity(),
            final(self).buffer@ == old(self).buffer@,
            final(self).capacity == old(self).capacity,
            final(self).index_mask == old(self).index_mask,
    {
        let next = self.write_cursor;
        if !((next as u128) < self.min_read_cursor as u128 + self.capacity as u128) {
            self.update_min_read_cursor();
        }
        self.write_cursor = next + 1;
        next
    }

    fn write(&mut self, sequence: u64, item: T)
        requires
            old(self).capacity == old(self).buffer@.len(),
            old(self).capacity > 0,
        ensures
            final(self).buffer@ == old(self).buffer@.update(
                (sequence % (old(self).capacity as u64)) as int,
                Some(item),
            ),
            final(self).capacity == old(self).capacity,
            final(self).index_mask == old(self).index_mask,
            final(self).write_cursor == old(self).write_cursor,
            final(self).read_cursors == old(self).read_cursors,
            final(self).published == old(self).published,
    {
        let c = self.capacity as u64;
        let index = (sequence % c) as usize;
        self.buffer.set(index, Some(item));
    }

    /// Publish an item; returns its sequence number.
    ///
    /// The producer waits while the slot would overwrite an item that the
    /// slowest consumer has not read, so the buffer must have room for it.
    pub fn publish(&mut self, item: T) -> (sequence: u64)
        requires
            old(self).wf(),
            old(self).write_seq() < u64::MAX,
            old(self).write_seq() < seq_min(old(self).cursors()) + old(self).spec_capacity(),
        ensures
            final(self).wf(),
            sequence == old(self).write_seq(),
            final(self).write_seq() == old(self).write_seq() + 1,
            final(self).published() == old(self).published().push(item),
            final(self).cursors() == old(self).cursors(),
            final(self).spec_capacity() == old(self).spec_capacity(),
    {
        let ghost old_pub = self.published@;
        let sequence = self.claim_next();
        self.write(sequence, item);
        self.published = Ghost(old_pub.push(item));
        proof {
            let cap = self.capacity as int;
            let w = self.write_cursor as int;
            assert forall|s: int| 0 <= s < w && w <= s + cap implies #[trigger] self.buffer@[s
                % cap] == Some(self.published@[s]) by {
                if s < w - 1 {
                    lemma_mod_distinct(s, w - 1, cap);
                }
            }
            assert forall|i: int| 0 <= i < cap && i < w implies #[trigger] self.buffer@[i] is Some by {
                if i != (w - 1) % cap {
                    if i == w - 1 {
                        vstd::arithmetic::div_mod::lemma_small_mod(i as nat, cap as nat);
                    }
                    assert(i < w - 1);
                    assert(old(self).buffer@[i] is Some);
                }
            }
        }
        self.commit(sequence);
        sequence
    }

    /// Make a write visible to consumers (a no-op for a single owner).
    fn commit(&self, _sequence: u64) {
    }

    /// Read sequence `sequence` as consumer `consumer_id`: `None` when it has
    /// not been published yet; otherwise the slot's item, and the consumer's
    /// cursor moves just past it.
    pub fn read(&mut self, consumer_id: usize, sequence: u64) -> (r: Option<T>)
        requires
            old(self).wf(),
            consumer_id < old(self).cursors().len(),
        ensures
            final(self).wf(),
            final(self).published() == old(self).published(),
            final(self).write_seq() == old(self).write_seq(),
            final(self).spec_capacity() == old(self).spec_capacity(),
            sequence >= old(self).write_seq() ==> r is None && final(self).cursors() == old(
                self,
            ).cursors(),
            sequence < old(self).write_seq() ==> r == old(self).slot(sequence) && r is Some
                && final(self).cursors() == old(self).cursors().update(
                consumer_id as int,
                (sequence + 1) as u64,
            ),
            sequence < old(self).write_seq() && old(self).write_seq() <= sequence
                + old(self).spec_capacity() ==> r == Some(old(self).published()[sequence as int]),
    {
        let write_seq = self.write_cursor;
        if sequence >= write_seq {
            return None;
        }
        let index = self.index_of(sequence);
        let item = self.buffer[index];
        proof {
            let cap = self.capacity as int;
            vstd::arithmetic::div_mod::lemma_mod_bound(sequence as int, cap);
            lemma_mod_le_self(sequence as int, cap);
            assert(self.buffer@[index as int] is Some);
            if write_seq <= sequence + cap {
                assert(self.buffer@[(sequence as int) % cap] == Some(self.published@[sequence as int]));
            }
        }
        self.read_cursors.set(consumer_id, sequence + 1);
        item
    }

    /// Read up to `max_items` items from consumer `consumer_id`'s cursor on,
    /// stopping at the write cursor; the cursor moves past the items read.
    pub fn read_batch(&mut self, consumer_id: usize, max_items: usize) -> (items: Vec<T>)
        requires
            old(self).wf(),
            consumer_id < old(self).cursors().len(),
            old(self).cursors()[consumer_id as int] + max_items <= u64::MAX,
        ensures
            final(self).wf(),
            final(self).published() == old(self).published(),
            final(self).write_seq() == old(self).write_seq(),
            final(self).spec_capacity() == old(self).spec_capacity(),
            ({
                let start = old(self).cursors()[consumer_id as int];
                let end = if start + max_items < old(self).write_seq() {
                    (start + max_items) as u64
                } else {
                    old(self).write_seq()
                };
                &&& items@.len() == end - start
                &&& forall|k: int|
                    0 <= k < items@.len() ==> Some(#[trigger] items@[k]) == old(self).slot(
                        (start + k) as u64,
                    )
                &&& forall|k: int|
                    0 <= k < items@.len() && old(self).write_seq() <= start + k
                        + old(self).spec_capacity() ==> #[trigger] items@[k] == old(
                        self,
                    ).published()[start + k]
                &&& final(self).cursors() == (if items@.len() > 0 {
                    old(self).cursors().update(consumer_id as int, end)
                } else {
                    old(self).cursors()
                })
            }),
    {
        let mut items: Vec<T> = Vec::new();
        let start_seq = self.read_cursors[consumer_id];
        let available = self.write_cursor;
        let wanted = start_seq + max_items as u64;
        let end_seq = if wanted < available {
            wanted
        } else {
            available
        };
        assert(start_seq <= available);
        let mut seq = start_seq;
        while seq < end_seq
            invariant
                self.wf(),
                self == old(self),
                start_seq <= seq <= end_seq <= available,
                available == self.write_cursor,
                items@.len() == seq - start_seq,
                forall|k: int|
                    0 <= k < items@.len() ==> Some(#[trigger] items@[k]) == self.slot(
                        (start_seq + k) as u64,
                    ),
            decreases end_seq - seq,
        {
            let index = self.index_of(seq);
            proof {
                let cap = self.capacity as int;
                lemma_mod_le_self(seq as int, cap);
                assert(self.buffer@[index as int] is Some);
            }
            let item = self.buffer[index];
            match item {
                Some(x) => {
                    items.push(x);
                },
                None => {},
            }
            seq = seq + 1;
        }
        proof {
            let cap = self.capacity as int;
            assert forall|k: int|
                0 <= k < items@.len() && self.write_cursor <= start_seq + k
                    + cap implies #[trigger] items@[k] == self.published@[start_seq + k] by {
                assert(Some(items@[k]) == self.slot((start_seq + k) as u64));
                assert(0 <= start_seq + k < self.write_cursor);
                assert(self.buffer@[(start_seq + k) % cap] == Some(self.published@[start_seq + k]));
            }
        }
        if items.len() > 0 {
            self.read_cursors.set(consumer_id, end_seq);
        }
        items
    }

    /// Next sequence number the producer will write.
    pub fn write_position(&self) -> (p: u64)
        ensures
            p == self.write_seq(),
    {
        self.write_cursor
    }

    /// Read cursor of a consumer.
    pub fn read_position(&self, consumer_id: usize) -> (p: u64)
        requires
            consumer_id < self.cursors().len(),
        ensures
            p == self.cursors()[consumer_id as int],
    {
        self.read_cursors[consumer_id]
    }

    pub fn capacity(&self) -> (c: usize)
        ensures
            c == self.spec_capacity(),
    {
        self.capacity
    }

    pub fn num_consumers(&self) -> (n: usize)
        ensures
            n == self.cursors().len(),
    {
        self.read_cursors.len()
    }

    /// The consumer has published items it has not read.
    pub fn has_available(&self, consumer_id: usize) -> (b: bool)
        requires
            consumer_id < self.cursors().len(),
        ensures
            b == (self.cursors()[consumer_id as int] < self.write_seq()),
    {
        self.read_cursors[consumer_id] < self.write_cursor
    }

    /// Number of published items past the consumer's cursor.
    pub fn available_count(&self, consumer_id: usize) -> (n: u64)
        requires
            consumer_id < self.cursors().len(),
        ensures
            n == (if self.cursors()[consumer_id as int] < self.write_seq() {
                self.write_seq() - self.cursors()[consumer_id as int]
            } else {
                0
            }),
    {
        let read_pos = self.read_cursors[consumer_id];
        let write_pos = self.write_cursor;
        if read_pos < write_pos {
            write_pos - read_pos
        } else {
            0
        }
    }
}

/// Example event carried through the ring buffer.
#[derive(Debug, Clone, Copy, PartialEq, Eq, Structural)]
pub enum OrderEvent {
    NewOrder { order_id: u64, price: i64, quantity: i64 },
    OrderCancelled { order_id: u64 },
    OrderModified { order_id: u64, new_quantity: i64 },
    Trade { order_id: u64, price: i64, quantity: i64 },
}

} // verus!
