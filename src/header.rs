//! The 136-byte control block at the start of a queue segment, little-endian.
//!
//! | offset | field          | width |
//! |--------|----------------|-------|
//! | 0      | producer_index | 8     |
//! | 8      | padding        | 56    |
//! | 64     | consumer_index | 8     |
//! | 72     | padding        | 56    |
//! | 128    | magic          | 4     |
//! | 132    | capacity       | 4     |
//!
//! The padding keeps the two indices on separate 64-byte cache lines.
use vstd::bytes::*;
use vstd::prelude::*;
use vstd::slice::slice_subrange;

verus! {

/// Size in bytes of the control block.
pub const HEADER_SIZE: usize = 136;

/// Offset of the producer index, the only field the producer writes.
pub const PRODUCER_INDEX_OFFSET: usize = 0;

/// Offset of the consumer index, the only field the consumer writes.
pub const CONSUMER_INDEX_OFFSET: usize = 64;

/// Marks a segment whose control block has been initialized.
pub const QUEUE_MAGIC: u32 = 0x5153_4d48;

/// Slot count used by the deployed order and status channels.
pub const DEFAULT_CAPACITY: u32 = 65536;

/// The control block's fields.
#[derive(Clone, Copy, Debug, PartialEq, Eq)]
pub struct Header {
    pub producer_index: u64,
    pub consumer_index: u64,
    pub magic: u32,
    pub capacity: u32,
}

/// Fifty-six zero bytes of cache-line padding.
pub open spec fn padding() -> Seq<u8> {
    Seq::new(56, |i: int| 0u8)
}

/// The 136 bytes that stand for `h`.
pub open spec fn header_bytes(h: Header) -> Seq<u8> {
    spec_u64_to_le_bytes(h.producer_index) + padding() + spec_u64_to_le_bytes(h.consumer_index)
        + padding() + spec_u32_to_le_bytes(h.magic) + spec_u32_to_le_bytes(h.capacity)
}

/// The control block that the first 136 bytes of `b` stand for; padding is not read.
pub open spec fn header_of(b: Seq<u8>) -> Header {
    Header {
        producer_index: spec_u64_from_le_bytes(b.subrange(0, 8)),
        consumer_index: spec_u64_from_le_bytes(b.subrange(64, 72)),
        magic: spec_u32_from_le_bytes(b.subrange(128, 132)),
        capacity: spec_u32_from_le_bytes(b.subrange(132, 136)),
    }
}

/// Size in bytes of a segment with `capacity` slots.
pub open spec fn segment_size(capacity: u32) -> int {
    HEADER_SIZE + 48 * capacity
}

/// The header's indices describe a ring of its capacity: the consumer never
/// passes the producer, and at most `capacity` records are outstanding.
pub open spec fn indices_consistent(h: Header) -> bool {
    h.consumer_index <= h.producer_index && h.producer_index - h.consumer_index <= h.capacity
}

/// Why a segment cannot be attached.
#[derive(Clone, Copy, Debug, PartialEq, Eq)]
pub enum OpenError {
    /// No backing store has the name.
    NotFound,
    /// The segment's length is not the one its control block calls for.
    SizeMismatch { expected_len: u64, found_len: u64 },
    /// The control block does not carry the queue's magic constant.
    BadMagic { expected: u32, found: u32 },
    /// The indices cannot come from a ring of the recorded capacity.
    BadIndices { producer: u64, consumer: u64 },
    /// The operating system refused to map the segment.
    MappingFailed,
}

/// Why the control block `h`, read from a segment of `len` bytes, cannot be
/// used; `None` when it can.
pub open spec fn header_error(h: Header, len: int) -> Option<OpenError> {
    if h.magic != QUEUE_MAGIC {
        Some(OpenError::BadMagic { expected: QUEUE_MAGIC, found: h.magic })
    } else if len != segment_size(h.capacity) {
        Some(OpenError::SizeMismatch { expected_len: segment_size(h.capacity) as u64, found_len: len as u64 })
    } else if !indices_consistent(h) {
        Some(OpenError::BadIndices { producer: h.producer_index, consumer: h.consumer_index })
    } else {
        None
    }
}

/// A freshly initialized control block.
pub open spec fn initial_header(capacity: u32) -> Header {
    Header { producer_index: 0, consumer_index: 0, magic: QUEUE_MAGIC, capacity }
}

/// Reading back the bytes of a control block gives the control block.
pub proof fn lemma_header_round_trip(h: Header)
    ensures
        header_bytes(h).len() == HEADER_SIZE,
        header_of(header_bytes(h)) == h,
{
    lemma_auto_spec_u64_to_from_le_bytes();
    lemma_auto_spec_u32_to_from_le_bytes();
    let b = header_bytes(h);
    assert(b.subrange(0, 8) =~= spec_u64_to_le_bytes(h.producer_index));
    assert(b.subrange(64, 72) =~= spec_u64_to_le_bytes(h.consumer_index));
    assert(b.subrange(128, 132) =~= spec_u32_to_le_bytes(h.magic));
    assert(b.subrange(132, 136) =~= spec_u32_to_le_bytes(h.capacity));
}

/// The control block written by the initializer: magic and capacity set, both indices zero.
pub fn initialize(capacity: u32) -> (h: Header)
    ensures
        h == initial_header(capacity),
{
    Header { producer_index: 0, consumer_index: 0, magic: QUEUE_MAGIC, capacity }
}

fn push_padding(r: &mut Vec<u8>)
    ensures
        final(r)@ == old(r)@ + padding(),
{
    let mut i: usize = 0;
    while i < 56
        invariant
            0 <= i <= 56,
            r@ == old(r)@ + padding().subrange(0, i as int),
        decreases 56 - i,
    {
        r.push(0u8);
        assert(padding().subrange(0, i as int + 1) =~= padding().subrange(0, i as int).push(0u8));
        i = i + 1;
    }
    assert(padding().subrange(0, 56) =~= padding());
}

/// Writes `h` as its 136 bytes.
pub fn encode_header(h: &Header) -> (r: Vec<u8>)
    ensures
        r@ == header_bytes(*h),
        r@.len() == HEADER_SIZE,
{
    let mut r = u64_to_le_bytes(h.producer_index);
    push_padding(&mut r);
    let mut consumer = u64_to_le_bytes(h.consumer_index);
    r.append(&mut consumer);
    push_padding(&mut r);
    let mut magic = u32_to_le_bytes(h.magic);
    r.append(&mut magic);
    let mut capacity = u32_to_le_bytes(h.capacity);
    r.append(&mut capacity);
    proof {
        lemma_header_round_trip(*h);
    }
    r
}

/// Reads the control block at the start of `b`.
pub fn decode_header(b: &[u8]) -> (h: Header)
    requires
        b@.len() >= HEADER_SIZE,
    ensures
        h == header_of(b@),
{
    Header {
        producer_index: u64_from_le_bytes(slice_subrange(b, 0, 8)),
        consumer_index: u64_from_le_bytes(slice_subrange(b, 64, 72)),
        magic: u32_from_le_bytes(slice_subrange(b, 128, 132)),
        capacity: u32_from_le_bytes(slice_subrange(b, 132, 136)),
    }
}

/// Checks a control block read from a segment of `len` bytes: the magic
/// constant, the segment's size against the recorded capacity, and the indices.
pub fn validate(h: &Header, len: usize) -> (r: Result<(), OpenError>)
    ensures
        r is Ok <==> header_error(*h, len as int) is None,
        r is Err ==> r == Err::<(), OpenError>(header_error(*h, len as int).unwrap()),
{
    if h.magic != QUEUE_MAGIC {
        return Err(OpenError::BadMagic { expected: QUEUE_MAGIC, found: h.magic });
    }
    let expected: u64 = HEADER_SIZE as u64 + 48 * (h.capacity as u64);
    if len as u64 != expected {
        return Err(OpenError::SizeMismatch { expected_len: expected, found_len: len as u64 });
    }
    if h.consumer_index > h.producer_index || h.producer_index - h.consumer_index > h.capacity as u64 {
        return Err(OpenError::BadIndices { producer: h.producer_index, consumer: h.consumer_index });
    }
    Ok(())
}

} // verus!
