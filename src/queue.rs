//! Single-producer, single-consumer ring of fixed-size order records over one
//! queue segment: the control block followed by `capacity` record slots.
//!
//! The producer index counts records ever written and the consumer index
//! records ever read; both only grow. Record `i` lives in slot `i % capacity`.
use crate::codec::{decode, encode, lemma_decode_encode, record_of, Order, RECORD_SIZE};
use crate::header::{
    decode_header, encode_header, header_of, indices_consistent, initial_header, initialize,
    header_error, segment_size, validate, Header, OpenError, HEADER_SIZE, QUEUE_MAGIC,
};
use vstd::bytes::{spec_u64_to_le_bytes, u64_to_le_bytes};
use vstd::prelude::*;
use vstd::slice::{slice_subrange, slice_to_vec};

verus! {

/// Why an operation on an attached queue did not take place.
#[derive(Clone, Copy, Debug, PartialEq, Eq)]
pub enum QueueError {
    /// No free slot: the record was not stored. `depth` is the number of unread records.
    QueueFull { depth: u64 },
}

/// The bytes of slot `k` in a segment.
pub open spec fn slot_in_segment(seg: Seq<u8>, k: int) -> Seq<u8> {
    seg.subrange(HEADER_SIZE + 48 * k, HEADER_SIZE + 48 * k + 48)
}

/// The unread records of a segment, oldest first.
pub open spec fn segment_records(seg: Seq<u8>) -> Seq<Order> {
    let h = header_of(seg);
    Seq::new(
        (h.producer_index - h.consumer_index) as nat,
        |i: int| record_of(slot_in_segment(seg, (h.consumer_index + i) % (h.capacity as int))),
    )
}

/// Relies on std::hint::spin_loop: a processor hint for busy-wait loops, with no effect on memory.
#[verifier::external_body]
fn spin_hint() {
    std::hint::spin_loop()
}

/// Positions fewer than `m` apart land in different slots.
proof fn lemma_slots_differ(a: int, d: int, m: int)
    requires
        0 <= a,
        0 < d < m,
    ensures
        a % m != (a + d) % m,
{
    vstd::arithmetic::div_mod::lemma_fundamental_div_mod(a, m);
    vstd::arithmetic::div_mod::lemma_fundamental_div_mod(a + d, m);
    vstd::arithmetic::div_mod::lemma_mod_bound(a, m);
    vstd::arithmetic::div_mod::lemma_mod_bound(a + d, m);
    if a % m == (a + d) % m {
        assert(m * ((a + d) / m) - m * (a / m) == d);
        vstd::arithmetic::mul::lemma_mul_is_distributive_sub(m, (a + d) / m, a / m);
        let q = (a + d) / m - a / m;
        assert(m * q == d);
        if q <= 0 {
            assert(m * q <= 0) by (nonlinear_arith)
                requires
                    m > 0,
                    q <= 0,
            ;
        } else {
            assert(m * q >= m) by (nonlinear_arith)
                requires
                    m > 0,
                    q > 0,
            ;
        }
    }
}

/// `after` holds the unread records of `before` with `o` behind them.
pub open spec fn appended(before: Queue, after: Queue, o: Order) -> bool {
    after@ == before@.push(o)
}

/// `r` was the oldest unread record of `before`, and `after` holds the others.
pub open spec fn took_front(before: Queue, after: Queue, r: Order) -> bool {
    before@.len() > 0 && r == before@[0] && after@ == before@.drop_first()
}

/// One successful operation on a queue.
pub enum Step {
    /// An enqueue of the record that returned `Ok`.
    Enqueued(Order),
    /// A dequeue that returned the record.
    Dequeued(Order),
}

/// `after` follows from `before` by the step `s`, as `enqueue` and `dequeue` ensure.
pub open spec fn step_taken(before: Queue, after: Queue, s: Step) -> bool {
    match s {
        Step::Enqueued(o) => appended(before, after, o),
        Step::Dequeued(r) => took_front(before, after, r),
    }
}

/// The records enqueued along `steps`, in order.
pub open spec fn enqueued_in(steps: Seq<Step>) -> Seq<Order>
    decreases steps.len(),
{
    if steps.len() == 0 {
        Seq::empty()
    } else {
        let rest = enqueued_in(steps.drop_last());
        match steps.last() {
            Step::Enqueued(o) => rest.push(o),
            Step::Dequeued(_) => rest,
        }
    }
}

/// The records dequeued along `steps`, in order.
pub open spec fn dequeued_in(steps: Seq<Step>) -> Seq<Order>
    decreases steps.len(),
{
    if steps.len() == 0 {
        Seq::empty()
    } else {
        let rest = dequeued_in(steps.drop_last());
        match steps.last() {
            Step::Enqueued(_) => rest,
            Step::Dequeued(r) => rest.push(r),
        }
    }
}

proof fn lemma_run_prefix(qs: Seq<Queue>, steps: Seq<Step>, n: int)
    requires
        qs.len() == steps.len() + 1,
        qs[0]@.len() == 0,
        forall|i: int| 0 <= i < steps.len() ==> step_taken(qs[i], qs[i + 1], #[trigger] steps[i]),
        0 <= n <= steps.len(),
    ensures
        enqueued_in(steps.take(n)) == dequeued_in(steps.take(n)) + qs[n]@,
    decreases n,
{
    if n == 0 {
        assert(steps.take(0) =~= Seq::<Step>::empty());
        assert(Seq::<Order>::empty() + qs[0]@ =~= qs[0]@);
        assert(qs[0]@ =~= Seq::<Order>::empty());
    } else {
        lemma_run_prefix(qs, steps, n - 1);
        let t = steps.take(n);
        assert(t.drop_last() =~= steps.take(n - 1));
        assert(t.last() == steps[n - 1]);
        assert(step_taken(qs[n - 1], qs[n], steps[n - 1]));
        let enq = enqueued_in(steps.take(n - 1));
        let deq = dequeued_in(steps.take(n - 1));
        match steps[n - 1] {
            Step::Enqueued(o) => {
                assert((deq + qs[n - 1]@).push(o) =~= deq + qs[n - 1]@.push(o));
            },
            Step::Dequeued(r) => {
                assert(deq + qs[n - 1]@ =~= deq.push(r) + qs[n - 1]@.drop_first());
            },
        }
    }
}

/// Records come out in the order they went in. Along any run of a queue that
/// starts empty, where each state follows from the one before by a successful
/// enqueue or dequeue, the records dequeued are the first of those enqueued, in
/// the same order and each once, and the records left unread are the rest.
pub proof fn lemma_fifo(qs: Seq<Queue>, steps: Seq<Step>)
    requires
        qs.len() == steps.len() + 1,
        qs[0]@.len() == 0,
        forall|i: int| 0 <= i < steps.len() ==> step_taken(qs[i], qs[i + 1], #[trigger] steps[i]),
    ensures
        enqueued_in(steps) == dequeued_in(steps) + qs.last()@,
        dequeued_in(steps) == enqueued_in(steps).take(dequeued_in(steps).len() as int),
        qs.last()@ == enqueued_in(steps).skip(dequeued_in(steps).len() as int),
{
    lemma_run_prefix(qs, steps, steps.len() as int);
    assert(steps.take(steps.len() as int) =~= steps);
    let enq = enqueued_in(steps);
    let deq = dequeued_in(steps);
    assert(enq.take(deq.len() as int) =~= deq);
    assert(enq.skip(deq.len() as int) =~= qs.last()@);
}

/// After `k` successful enqueues and `j` successful dequeues on a queue that
/// starts empty, its depth is `k - j`, and never more than its capacity.
pub proof fn lemma_depth_accounting(qs: Seq<Queue>, steps: Seq<Step>)
    requires
        qs.len() == steps.len() + 1,
        qs[0]@.len() == 0,
        forall|i: int| 0 <= i < steps.len() ==> step_taken(qs[i], qs[i + 1], #[trigger] steps[i]),
        qs.last().wf(),
    ensures
        dequeued_in(steps).len() <= enqueued_in(steps).len(),
        qs.last().spec_depth() == enqueued_in(steps).len() - dequeued_in(steps).len(),
        qs.last().spec_depth() <= qs.last().spec_capacity(),
{
    lemma_fifo(qs, steps);
    qs.last().lemma_wf_facts();
}

/// A handle on one queue segment.
pub struct Queue {
    header: Header,
    slots: Vec<Vec<u8>>,
}

impl Queue {
    /// The control block as the handle holds it.
    pub closed spec fn spec_header(&self) -> Header {
        self.header
    }

    /// The bytes of slot `k`.
    pub closed spec fn spec_slot(&self, k: int) -> Seq<u8> {
        self.slots@[k]@
    }

    pub open spec fn spec_capacity(&self) -> nat {
        self.spec_header().capacity as nat
    }

    pub open spec fn producer_index(&self) -> u64 {
        self.spec_header().producer_index
    }

    pub open spec fn consumer_index(&self) -> u64 {
        self.spec_header().consumer_index
    }

    /// Number of unread records.
    pub open spec fn spec_depth(&self) -> nat {
        (self.producer_index() - self.consumer_index()) as nat
    }

    /// A well-formed handle: an initialized control block with consistent
    /// indices, and one 48-byte slot per unit of capacity.
    pub closed spec fn wf(&self) -> bool {
        &&& self.header.magic == QUEUE_MAGIC
        &&& indices_consistent(self.header)
        &&& self.slots@.len() == self.header.capacity
        &&& forall|k: int| 0 <= k < self.slots@.len() ==> (#[trigger] self.slots@[k])@.len() == RECORD_SIZE
    }

    /// The unread records, oldest first.
    pub open spec fn view(&self) -> Seq<Order> {
        Seq::new(
            self.spec_depth(),
            |i: int|
                record_of(self.spec_slot((self.consumer_index() + i) % (self.spec_capacity() as int))),
        )
    }

    proof fn lemma_wf_facts(&self)
        requires
            self.wf(),
        ensures
            self.spec_header().magic == QUEUE_MAGIC,
            indices_consistent(self.spec_header()),
            forall|k: int| 0 <= k < self.spec_capacity() ==> (#[trigger] self.spec_slot(k)).len() == RECORD_SIZE,
    {
        assert forall|k: int| 0 <= k < self.spec_capacity() implies (#[trigger] self.spec_slot(k)).len() == RECORD_SIZE by {
            assert(self.slots@[k]@.len() == RECORD_SIZE);
        }
    }

    /// Builds a queue of `capacity` zeroed slots behind a freshly initialized control block.
    pub fn create(capacity: u32) -> (q: Queue)
        ensures
            q.wf(),
            q.spec_header() == initial_header(capacity),
            q@ == Seq::<Order>::empty(),
            forall|k: int| 0 <= k < capacity ==> #[trigger] q.spec_slot(k) == Seq::new(48, |i: int| 0u8),
    {
        let header = initialize(capacity);
        let mut slots: Vec<Vec<u8>> = Vec::new();
        let mut k: u32 = 0;
        while k < capacity
            invariant
                0 <= k <= capacity,
                slots@.len() == k,
                forall|j: int| 0 <= j < k ==> (#[trigger] slots@[j])@ == Seq::new(48, |i: int| 0u8),
            decreases capacity - k,
        {
            let mut slot: Vec<u8> = Vec::new();
            let mut b: usize = 0;
            while b < RECORD_SIZE
                invariant
                    0 <= b <= RECORD_SIZE,
                    slot@ == Seq::new(b as nat, |i: int| 0u8),
                decreases RECORD_SIZE - b,
            {
                slot.push(0u8);
                assert(slot@ =~= Seq::new(b as nat + 1, |i: int| 0u8));
                b = b + 1;
            }
            assert(slot@ =~= Seq::new(48, |i: int| 0u8));
            slots.push(slot);
            k = k + 1;
        }
        let q = Queue { header, slots };
        assert(q@ =~= Seq::<Order>::empty());
        q
    }

    /// Appends `o` behind the unread records. Refused, with nothing changed, when every
    /// slot holds an unread record, or when the producer index can grow no further.
    pub fn enqueue(&mut self, o: Order) -> (r: Result<(), QueueError>)
        requires
            old(self).wf(),
        ensures
            final(self).wf(),
            final(self).spec_capacity() == old(self).spec_capacity(),
            final(self).consumer_index() == old(self).consumer_index(),
            r is Ok <==> (old(self).spec_depth() < old(self).spec_capacity()
                && old(self).producer_index() < u64::MAX),
            r is Ok ==> appended(*old(self), *final(self), o)
                && final(self).producer_index() == old(self).producer_index() + 1,
            r is Err ==> *final(self) == *old(self)
                && r == Err::<(), QueueError>(QueueError::QueueFull { depth: old(self).spec_depth() as u64 }),
    {
        let p = self.header.producer_index;
        let c = self.header.consumer_index;
        let cap = self.header.capacity as u64;
        if p - c >= cap || p == u64::MAX {
            return Err(QueueError::QueueFull { depth: p - c });
        }
        let k = (p % cap) as usize;
        let ghost before = self@;
        let ghost old_slots = self.slots@;
        let bytes = encode(&o);
        self.slots.set(k, bytes);
        self.header.producer_index = p + 1;
        proof {
            lemma_decode_encode(o);
            assert forall|i: int| 0 <= i < before.len() implies #[trigger] self@[i] == before[i] by {
                lemma_slots_differ(c + i, (p - c - i) as int, cap as int);
                assert(c + i + (p - c - i) == p);
                assert(self.slots@[(c + i) % (cap as int)] == old_slots[(c + i) % (cap as int)]);
            }
            assert(c + before.len() == p);
            assert(self@ =~= before.push(o));
        }
        Ok(())
    }

    /// Takes the oldest unread record, or `None` when there is none; an empty
    /// queue is left as it was.
    pub fn dequeue(&mut self) -> (r: Option<Order>)
        requires
            old(self).wf(),
        ensures
            final(self).wf(),
            final(self).spec_capacity() == old(self).spec_capacity(),
            final(self).producer_index() == old(self).producer_index(),
            old(self)@.len() == 0 ==> r is None && *final(self) == *old(self),
            old(self)@.len() > 0 ==> r == Some(old(self)@[0])
                && took_front(*old(self), *final(self), r.unwrap())
                && final(self).consumer_index() == old(self).consumer_index() + 1,
    {
        let p = self.header.producer_index;
        let c = self.header.consumer_index;
        if p == c {
            return None;
        }
        let cap = self.header.capacity as u64;
        let k = (c % cap) as usize;
        let ghost before = self@;
        let o = decode(self.slots[k].as_slice());
        self.header.consumer_index = c + 1;
        proof {
            assert forall|i: int| 0 <= i < before.len() - 1 implies #[trigger] self@[i] == before[i + 1] by {
                assert(c + 1 + i == c + (i + 1));
            }
            assert(self@ =~= before.drop_first());
        }
        Some(o)
    }

    /// Tries `dequeue` up to `attempts` times, with a spin hint between
    /// unsuccessful tries, and returns the first record taken. Never sleeps.
    pub fn dequeue_spin(&mut self, attempts: u32) -> (r: Option<Order>)
        requires
            old(self).wf(),
        ensures
            final(self).wf(),
            final(self).spec_capacity() == old(self).spec_capacity(),
            final(self).producer_index() == old(self).producer_index(),
            (attempts == 0 || old(self)@.len() == 0) ==> r is None && *final(self) == *old(self),
            (attempts > 0 && old(self)@.len() > 0) ==> r == Some(old(self)@[0])
                && took_front(*old(self), *final(self), r.unwrap())
                && final(self).consumer_index() == old(self).consumer_index() + 1,
    {
        let mut tried: u32 = 0;
        while tried < attempts
            invariant
                0 <= tried <= attempts,
                self.wf(),
                *self == *old(self),
                tried > 0 ==> old(self)@.len() == 0,
            decreases attempts - tried,
        {
            let r = self.dequeue();
            if r.is_some() {
                return r;
            }
            tried = tried + 1;
            if tried < attempts {
                spin_hint();
            }
        }
        None
    }

    /// Attaches to what a backing store holds: `None` when no store has the
    /// name. The control block is read and validated; nothing is created.
    pub fn attach(segment: Option<&[u8]>) -> (r: Result<Queue, OpenError>)
        ensures
            segment is None ==> r == Err::<Queue, OpenError>(OpenError::NotFound),
            segment is Some && segment.unwrap()@.len() < HEADER_SIZE ==> r == Err::<Queue, OpenError>(
                OpenError::SizeMismatch {
                    expected_len: HEADER_SIZE as u64,
                    found_len: segment.unwrap()@.len() as u64,
                },
            ),
            segment is Some && segment.unwrap()@.len() >= HEADER_SIZE ==> {
                let seg = segment.unwrap()@;
                let err = header_error(header_of(seg), seg.len() as int);
                &&& err is Some ==> r == Err::<Queue, OpenError>(err.unwrap())
                &&& err is None ==> r is Ok && r.unwrap().wf()
                    && r.unwrap().spec_header() == header_of(seg)
                    && r.unwrap()@ == segment_records(seg)
            },
    {
        let seg = match segment {
            None => return Err(OpenError::NotFound),
            Some(seg) => seg,
        };
        if seg.len() < HEADER_SIZE {
            return Err(OpenError::SizeMismatch { expected_len: HEADER_SIZE as u64, found_len: seg.len() as u64 });
        }
        let header = decode_header(seg);
        match validate(&header, seg.len()) {
            Err(e) => return Err(e),
            Ok(()) => {},
        }
        let cap = header.capacity;
        let mut slots: Vec<Vec<u8>> = Vec::new();
        let mut k: u32 = 0;
        let mut off: usize = HEADER_SIZE;
        let len = seg.len();
        while k < cap
            invariant
                len == seg@.len(),
                0 <= k <= cap,
                cap == header.capacity,
                seg@.len() == segment_size(cap),
                off == HEADER_SIZE + 48 * k,
                slots@.len() == k,
                forall|j: int| 0 <= j < k ==> (#[trigger] slots@[j])@ == slot_in_segment(seg@, j),
            decreases cap - k,
        {
            assert(48 * k + 48 <= 48 * cap) by (nonlinear_arith)
                requires
                    k < cap,
            ;
            let slot = slice_to_vec(slice_subrange(seg, off, off + RECORD_SIZE));
            slots.push(slot);
            k = k + 1;
            off = off + RECORD_SIZE;
        }
        let q = Queue { header, slots };
        proof {
            let c = header.consumer_index as int;
            assert forall|i: int| 0 <= i < q@.len() implies #[trigger] q@[i] == segment_records(seg@)[i] by {
                vstd::arithmetic::div_mod::lemma_mod_bound(c + i, cap as int);
            }
            assert(q@ =~= segment_records(seg@));
        }
        Ok(q)
    }

    /// The segment that holds this queue: control block, then every slot.
    pub fn to_segment(&self) -> (r: Vec<u8>)
        requires
            self.wf(),
        ensures
            r@.len() == segment_size(self.spec_header().capacity),
            r@.subrange(0, HEADER_SIZE as int) == crate::header::header_bytes(self.spec_header()),
            header_of(r@) == self.spec_header(),
            forall|k: int| 0 <= k < self.spec_capacity() ==> #[trigger] slot_in_segment(r@, k) == self.spec_slot(k),
            header_error(header_of(r@), r@.len() as int) is None,
            segment_records(r@) == self@,
    {
        let mut r = encode_header(&self.header);
        let ghost hb = r@;
        let cap = self.header.capacity;
        let mut k: u32 = 0;
        while k < cap
            invariant
                self.wf(),
                0 <= k <= cap,
                cap == self.header.capacity,
                r@.len() == HEADER_SIZE + 48 * k,
                r@.subrange(0, HEADER_SIZE as int) == hb,
                hb == crate::header::header_bytes(self.header),
                forall|j: int| 0 <= j < k ==> #[trigger] slot_in_segment(r@, j) == self.slots@[j]@,
            decreases cap - k,
        {
            let ghost before = r@;
            let mut slot = slice_to_vec(self.slots[k as usize].as_slice());
            assert(self.slots@[k as int]@.len() == RECORD_SIZE);
            r.append(&mut slot);
            proof {
                assert(r@.subrange(0, HEADER_SIZE as int) =~= before.subrange(0, HEADER_SIZE as int));
                assert forall|j: int| 0 <= j < k + 1 implies #[trigger] slot_in_segment(r@, j) == self.slots@[j]@ by {
                    if j < k {
                        assert(48 * j + 48 <= 48 * k) by (nonlinear_arith)
                            requires
                                j < k,
                        ;
                        assert(slot_in_segment(r@, j) =~= slot_in_segment(before, j));
                    } else {
                        assert(slot_in_segment(r@, j) =~= self.slots@[j]@);
                    }
                }
            }
            k = k + 1;
        }
        proof {
            crate::header::lemma_header_round_trip(self.header);
            assert(r@.subrange(0, 136).subrange(0, 8) =~= r@.subrange(0, 8));
            assert(r@.subrange(0, 136).subrange(64, 72) =~= r@.subrange(64, 72));
            assert(r@.subrange(0, 136).subrange(128, 132) =~= r@.subrange(128, 132));
            assert(r@.subrange(0, 136).subrange(132, 136) =~= r@.subrange(132, 136));
            let c = self.header.consumer_index as int;
            assert forall|i: int| 0 <= i < self@.len() implies #[trigger] segment_records(r@)[i] == self@[i] by {
                vstd::arithmetic::div_mod::lemma_mod_bound(c + i, cap as int);
            }
            assert(segment_records(r@) =~= self@);
        }
        r
    }

    /// What the producer writes into the shared segment after record `index`
    /// is enqueued: the offset of its slot and the slot's bytes. These are
    /// written before the producer index is published.
    pub fn slot_write(&self, index: u64) -> (r: (u64, Vec<u8>))
        requires
            self.wf(),
            self.spec_capacity() > 0,
        ensures
            r.0 == HEADER_SIZE + 48 * ((index as int) % (self.spec_header().capacity as int)),
            r.1@ == self.spec_slot((index as int) % (self.spec_header().capacity as int)),
    {
        let k = index % (self.header.capacity as u64);
        proof {
            self.lemma_wf_facts();
            assert(48 * k + 48 <= 48 * self.header.capacity) by (nonlinear_arith)
                requires
                    k < self.header.capacity,
            ;
        }
        (HEADER_SIZE as u64 + 48 * k, slice_to_vec(self.slots[k as usize].as_slice()))
    }

    /// What the producer publishes: the offset of the producer index and its bytes.
    pub fn producer_write(&self) -> (r: (u64, Vec<u8>))
        ensures
            r.0 == crate::header::PRODUCER_INDEX_OFFSET,
            r.1@ == spec_u64_to_le_bytes(self.producer_index()),
    {
        (crate::header::PRODUCER_INDEX_OFFSET as u64, u64_to_le_bytes(self.header.producer_index))
    }

    /// What the consumer publishes: the offset of the consumer index and its bytes.
    pub fn consumer_write(&self) -> (r: (u64, Vec<u8>))
        ensures
            r.0 == crate::header::CONSUMER_INDEX_OFFSET,
            r.1@ == spec_u64_to_le_bytes(self.consumer_index()),
    {
        (crate::header::CONSUMER_INDEX_OFFSET as u64, u64_to_le_bytes(self.header.consumer_index))
    }

    /// The producer index: records ever enqueued.
    pub fn records_written(&self) -> (r: u64)
        ensures
            r == self.producer_index(),
    {
        self.header.producer_index
    }

    /// The consumer index: records ever dequeued.
    pub fn records_read(&self) -> (r: u64)
        ensures
            r == self.consumer_index(),
    {
        self.header.consumer_index
    }

    /// Number of unread records.
    pub fn depth(&self) -> (d: u64)
        requires
            self.wf(),
        ensures
            d == self.spec_depth(),
            d <= self.spec_capacity(),
    {
        self.header.producer_index - self.header.consumer_index
    }

    /// Number of slots, fixed at creation.
    pub fn capacity(&self) -> (c: u64)
        ensures
            c == self.spec_capacity(),
    {
        self.header.capacity as u64
    }
}

} // verus!
