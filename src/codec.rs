//! Fixed 48-byte record layout of an order, in explicit little-endian byte order.
//!
//! | offset | field     | width |
//! |--------|-----------|-------|
//! | 0      | order_id  | 8     |
//! | 8      | client_id | 4     |
//! | 12     | symbol    | 16    |
//! | 28     | quantity  | 4     |
//! | 32     | price     | 8     |
//! | 40     | side      | 1     |
//! | 41     | status    | 1     |
//! | 42     | reserved  | 6     |
use vstd::bytes::*;
use vstd::prelude::*;
use vstd::slice::slice_subrange;

verus! {

broadcast use vstd::array::group_array_axioms;

/// Size in bytes of one encoded record.
pub const RECORD_SIZE: usize = 48;

/// Width in bytes of the zero-padded ASCII ticker.
pub const SYMBOL_LEN: usize = 16;

pub const SIDE_BUY: u8 = 0;

pub const SIDE_SELL: u8 = 1;

pub const STATUS_PENDING: u8 = 0;

pub const STATUS_EXECUTED: u8 = 1;

pub const STATUS_REJECTED: u8 = 2;

/// One trade order, or its execution status on the return channel.
#[derive(Clone, Copy, Debug, PartialEq, Eq)]
pub struct Order {
    pub order_id: u64,
    pub client_id: u32,
    pub symbol: [u8; 16],
    pub quantity: u32,
    pub price: u64,
    pub side: u8,
    pub status: u8,
}

/// The six reserved bytes at the end of a record.
pub open spec fn reserved_bytes() -> Seq<u8> {
    seq![0u8, 0u8, 0u8, 0u8, 0u8, 0u8]
}

/// The 48 bytes that stand for `o`.
pub open spec fn record_bytes(o: Order) -> Seq<u8> {
    spec_u64_to_le_bytes(o.order_id) + spec_u32_to_le_bytes(o.client_id) + o.symbol@
        + spec_u32_to_le_bytes(o.quantity) + spec_u64_to_le_bytes(o.price) + seq![
        o.side,
        o.status,
    ] + reserved_bytes()
}

/// The order that 48 bytes stand for; the reserved bytes are not read.
pub open spec fn record_of(b: Seq<u8>) -> Order {
    Order {
        order_id: spec_u64_from_le_bytes(b.subrange(0, 8)),
        client_id: spec_u32_from_le_bytes(b.subrange(8, 12)),
        symbol: choose|a: [u8; 16]| a@ == b.subrange(12, 28),
        quantity: spec_u32_from_le_bytes(b.subrange(28, 32)),
        price: spec_u64_from_le_bytes(b.subrange(32, 40)),
        side: b[40],
        status: b[41],
    }
}

/// Decoding the bytes of a record gives the record back, for every field value.
pub proof fn lemma_decode_encode(o: Order)
    ensures
        record_bytes(o).len() == RECORD_SIZE,
        record_of(record_bytes(o)) == o,
{
    lemma_auto_spec_u64_to_from_le_bytes();
    lemma_auto_spec_u32_to_from_le_bytes();
    let b = record_bytes(o);
    assert(b.subrange(0, 8) =~= spec_u64_to_le_bytes(o.order_id));
    assert(b.subrange(8, 12) =~= spec_u32_to_le_bytes(o.client_id));
    assert(b.subrange(12, 28) =~= o.symbol@);
    assert(b.subrange(28, 32) =~= spec_u32_to_le_bytes(o.quantity));
    assert(b.subrange(32, 40) =~= spec_u64_to_le_bytes(o.price));
    let a = choose|a: [u8; 16]| a@ == b.subrange(12, 28);
    assert(a@ =~= o.symbol@);
    assert(a == o.symbol);
}

/// Writes `o` as its 48 record bytes.
pub fn encode(o: &Order) -> (r: Vec<u8>)
    ensures
        r@ == record_bytes(*o),
        r@.len() == RECORD_SIZE,
{
    let mut r = u64_to_le_bytes(o.order_id);
    let mut client = u32_to_le_bytes(o.client_id);
    r.append(&mut client);
    let mut i: usize = 0;
    while i < SYMBOL_LEN
        invariant
            0 <= i <= SYMBOL_LEN,
            r@ == spec_u64_to_le_bytes(o.order_id) + spec_u32_to_le_bytes(o.client_id)
                + o.symbol@.subrange(0, i as int),
        decreases SYMBOL_LEN - i,
    {
        r.push(o.symbol[i]);
        assert(o.symbol@.subrange(0, i as int + 1) =~= o.symbol@.subrange(0, i as int).push(
            o.symbol[i as int],
        ));
        i = i + 1;
    }
    assert(o.symbol@.subrange(0, 16) =~= o.symbol@);
    let mut quantity = u32_to_le_bytes(o.quantity);
    r.append(&mut quantity);
    let mut price = u64_to_le_bytes(o.price);
    r.append(&mut price);
    r.push(o.side);
    r.push(o.status);
    let mut k: usize = 0;
    while k < 6
        invariant
            0 <= k <= 6,
            r@ == spec_u64_to_le_bytes(o.order_id) + spec_u32_to_le_bytes(o.client_id) + o.symbol@
                + spec_u32_to_le_bytes(o.quantity) + spec_u64_to_le_bytes(o.price) + seq![
                o.side,
                o.status,
            ] + reserved_bytes().subrange(0, k as int),
        decreases 6 - k,
    {
        r.push(0u8);
        assert(reserved_bytes().subrange(0, k as int + 1) =~= reserved_bytes().subrange(
            0,
            k as int,
        ).push(0u8));
        k = k + 1;
    }
    assert(reserved_bytes().subrange(0, 6) =~= reserved_bytes());
    proof {
        lemma_decode_encode(*o);
    }
    r
}

/// Reads the order that 48 record bytes stand for. Every byte pattern is a record.
pub fn decode(b: &[u8]) -> (r: Order)
    requires
        b@.len() == RECORD_SIZE,
    ensures
        r == record_of(b@),
{
    let order_id = u64_from_le_bytes(slice_subrange(b, 0, 8));
    let client_id = u32_from_le_bytes(slice_subrange(b, 8, 12));
    let mut symbol = [0u8; 16];
    let mut i: usize = 0;
    while i < SYMBOL_LEN
        invariant
            0 <= i <= SYMBOL_LEN,
            b@.len() == RECORD_SIZE,
            forall|j: int| 0 <= j < i ==> symbol@[j] == b@[12 + j],
        decreases SYMBOL_LEN - i,
    {
        symbol[i] = b[12 + i];
        i = i + 1;
    }
    assert(symbol@ =~= b@.subrange(12, 28));
    let quantity = u32_from_le_bytes(slice_subrange(b, 28, 32));
    let price = u64_from_le_bytes(slice_subrange(b, 32, 40));
    let r = Order { order_id, client_id, symbol, quantity, price, side: b[40], status: b[41] };
    proof {
        let a = choose|a: [u8; 16]| a@ == b@.subrange(12, 28);
        assert(a@ =~= symbol@);
        assert(a == symbol);
    }
    r
}

} // verus!
