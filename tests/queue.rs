use rust_me::codec::{RECORD_SIZE, SIDE_BUY, SIDE_SELL, STATUS_EXECUTED, STATUS_PENDING, STATUS_REJECTED};
use rust_me::engine::{execute_order, status_record};
use rust_me::header::{
    decode_header, encode_header, initialize, validate, Header, DEFAULT_CAPACITY, HEADER_SIZE, QUEUE_MAGIC,
};
use rust_me::stats::{symbol_text, TestStats};
use rust_me::{decode, encode, OpenError, Order, Queue, QueueError};

fn sym(s: &str) -> [u8; 16] {
    let mut b = [0u8; 16];
    b[..s.len()].copy_from_slice(s.as_bytes());
    b
}

fn order(id: u64) -> Order {
    Order {
        order_id: id,
        client_id: 7,
        symbol: sym("AAPL"),
        quantity: 100,
        price: 15_000,
        side: SIDE_BUY,
        status: STATUS_PENDING,
    }
}

#[test]
fn concrete_capacity_four_scenario() {
    let (a, b, c, d, e, f) = (order(1), order(2), order(3), order(4), order(5), order(6));
    let mut q = Queue::create(4);
    for o in [a, b, c, d] {
        assert_eq!(q.enqueue(o), Ok(()));
    }
    assert_eq!(q.depth(), 4);
    assert_eq!(q.enqueue(e), Err(QueueError::QueueFull { depth: 4 }));
    assert_eq!(q.depth(), 4);
    assert_eq!(q.dequeue(), Some(a));
    assert_eq!(q.dequeue(), Some(b));
    assert_eq!(q.depth(), 2);
    assert_eq!(q.enqueue(e), Ok(()));
    assert_eq!(q.enqueue(f), Ok(()));
    assert_eq!(q.depth(), 4);
    assert_eq!(q.dequeue(), Some(c));
    assert_eq!(q.dequeue(), Some(d));
    assert_eq!(q.dequeue(), Some(e));
    assert_eq!(q.dequeue(), Some(f));
    assert_eq!(q.depth(), 0);
}

#[test]
fn open_missing_store_is_not_found() {
    assert_eq!(Queue::attach(None).err(), Some(OpenError::NotFound));
}

#[test]
fn open_with_wrong_magic_is_bad_magic() {
    let mut seg = Queue::create(2).to_segment();
    seg[128] ^= 0xff;
    let found = u32::from_le_bytes([seg[128], seg[129], seg[130], seg[131]]);
    assert_eq!(
        Queue::attach(Some(&seg)).err(),
        Some(OpenError::BadMagic { expected: QUEUE_MAGIC, found })
    );
}

#[test]
fn open_with_wrong_size_is_size_mismatch() {
    let mut seg = Queue::create(2).to_segment();
    seg.push(0);
    assert_eq!(
        Queue::attach(Some(&seg)).err(),
        Some(OpenError::SizeMismatch { expected_len: 136 + 2 * 48, found_len: 136 + 2 * 48 + 1 })
    );
    let short = vec![0u8; 100];
    assert_eq!(
        Queue::attach(Some(&short)).err(),
        Some(OpenError::SizeMismatch { expected_len: 136, found_len: 100 })
    );
}

#[test]
fn open_with_crossed_indices_is_bad_indices() {
    let mut seg = Queue::create(2).to_segment();
    seg[64] = 3;
    assert_eq!(
        Queue::attach(Some(&seg)).err(),
        Some(OpenError::BadIndices { producer: 0, consumer: 3 })
    );
    let mut seg = Queue::create(2).to_segment();
    seg[0] = 3;
    assert_eq!(
        Queue::attach(Some(&seg)).err(),
        Some(OpenError::BadIndices { producer: 3, consumer: 0 })
    );
}

#[test]
fn segment_round_trip_keeps_records_and_indices() {
    let mut q = Queue::create(3);
    for id in 1..=3 {
        q.enqueue(order(id)).unwrap();
    }
    assert_eq!(q.dequeue(), Some(order(1)));
    q.enqueue(order(4)).unwrap();
    let seg = q.to_segment();
    assert_eq!(seg.len(), 136 + 3 * 48);
    assert_eq!(&seg[0..8], &4u64.to_le_bytes());
    assert_eq!(&seg[64..72], &1u64.to_le_bytes());
    assert_eq!(&seg[132..136], &3u32.to_le_bytes());
    let mut r = Queue::attach(Some(&seg)).unwrap();
    assert_eq!(r.depth(), 3);
    assert_eq!(r.capacity(), 3);
    assert_eq!(r.dequeue(), Some(order(2)));
    assert_eq!(r.dequeue(), Some(order(3)));
    assert_eq!(r.dequeue(), Some(order(4)));
    assert_eq!(r.dequeue(), None);
}

#[test]
fn fifo_order_across_wraparound() {
    let mut q = Queue::create(3);
    let mut next_in = 0u64;
    let mut next_out = 0u64;
    for round in 0..20u64 {
        for _ in 0..(round % 3 + 1) {
            if q.enqueue(order(next_in)).is_ok() {
                next_in += 1;
            }
        }
        for _ in 0..(round % 2 + 1) {
            if let Some(o) = q.dequeue() {
                assert_eq!(o.order_id, next_out);
                next_out += 1;
            }
        }
        assert_eq!(q.depth(), next_in - next_out);
        assert!(q.depth() <= q.capacity());
    }
}

#[test]
fn depth_counts_enqueues_minus_dequeues() {
    let mut q = Queue::create(8);
    for id in 0..5 {
        q.enqueue(order(id)).unwrap();
    }
    for _ in 0..2 {
        q.dequeue().unwrap();
    }
    assert_eq!(q.depth(), 3);
    assert_eq!(q.capacity(), 8);
}

#[test]
fn empty_dequeue_is_none_and_changes_nothing() {
    let mut q = Queue::create(2);
    assert_eq!(q.dequeue(), None);
    assert_eq!(q.depth(), 0);
    let seg = q.to_segment();
    assert_eq!(&seg[64..72], &0u64.to_le_bytes());
    assert_eq!(q.dequeue_spin(50), None);
    assert_eq!(q.to_segment(), seg);
}

#[test]
fn spin_returns_first_available_record() {
    let mut q = Queue::create(2);
    assert_eq!(q.dequeue_spin(0), None);
    q.enqueue(order(9)).unwrap();
    assert_eq!(q.dequeue_spin(0), None);
    assert_eq!(q.depth(), 1);
    assert_eq!(q.dequeue_spin(100), Some(order(9)));
    assert_eq!(q.depth(), 0);
}

#[test]
fn zero_capacity_queue_is_always_full_and_empty() {
    let mut q = Queue::create(0);
    assert_eq!(q.enqueue(order(1)), Err(QueueError::QueueFull { depth: 0 }));
    assert_eq!(q.dequeue(), None);
    assert_eq!(q.to_segment().len(), 136);
}

#[test]
fn codec_round_trip_boundary_values() {
    let mut full = [0u8; 16];
    for (i, b) in full.iter_mut().enumerate() {
        *b = b'A' + i as u8;
    }
    let cases = [
        Order { order_id: u64::MAX, client_id: u32::MAX, symbol: full, quantity: u32::MAX, price: u64::MAX, side: SIDE_SELL, status: STATUS_REJECTED },
        Order { order_id: 0, client_id: 0, symbol: [0u8; 16], quantity: 0, price: 0, side: SIDE_BUY, status: STATUS_PENDING },
        Order { order_id: 42, client_id: 3, symbol: sym("MSFT"), quantity: 1, price: 1, side: SIDE_BUY, status: STATUS_EXECUTED },
        Order { order_id: 1, client_id: 1, symbol: [0xffu8; 16], quantity: 7, price: 8, side: 0xff, status: 0xff },
    ];
    for o in cases {
        let bytes = encode(&o);
        assert_eq!(bytes.len(), RECORD_SIZE);
        assert_eq!(decode(&bytes), o);
    }
}

#[test]
fn codec_layout_is_little_endian() {
    let o = Order {
        order_id: 0x0102_0304_0506_0708,
        client_id: 0x1112_1314,
        symbol: sym("IBM"),
        quantity: 0x2122_2324,
        price: 0x3132_3334_3536_3738,
        side: SIDE_SELL,
        status: STATUS_EXECUTED,
    };
    let b = encode(&o);
    assert_eq!(&b[0..8], &[8, 7, 6, 5, 4, 3, 2, 1]);
    assert_eq!(&b[8..12], &[0x14, 0x13, 0x12, 0x11]);
    assert_eq!(&b[12..15], b"IBM");
    assert!(b[15..28].iter().all(|&x| x == 0));
    assert_eq!(&b[28..32], &[0x24, 0x23, 0x22, 0x21]);
    assert_eq!(&b[32..40], &[0x38, 0x37, 0x36, 0x35, 0x34, 0x33, 0x32, 0x31]);
    assert_eq!(b[40], 1);
    assert_eq!(b[41], 1);
    assert!(b[42..48].iter().all(|&x| x == 0));
}

#[test]
fn decode_ignores_reserved_bytes() {
    let mut b = encode(&order(5));
    for x in b[42..48].iter_mut() {
        *x = 0xaa;
    }
    assert_eq!(decode(&b), order(5));
}

#[test]
fn header_layout_and_round_trip() {
    let h = Header { producer_index: 10, consumer_index: 7, magic: QUEUE_MAGIC, capacity: 65536 };
    let b = encode_header(&h);
    assert_eq!(b.len(), HEADER_SIZE);
    assert_eq!(&b[0..8], &10u64.to_le_bytes());
    assert!(b[8..64].iter().all(|&x| x == 0));
    assert_eq!(&b[64..72], &7u64.to_le_bytes());
    assert!(b[72..128].iter().all(|&x| x == 0));
    assert_eq!(&b[128..132], &QUEUE_MAGIC.to_le_bytes());
    assert_eq!(&b[132..136], &65536u32.to_le_bytes());
    assert_eq!(decode_header(&b), h);
}

#[test]
fn initialize_and_validate() {
    let h = initialize(4);
    assert_eq!(h, Header { producer_index: 0, consumer_index: 0, magic: QUEUE_MAGIC, capacity: 4 });
    assert_eq!(validate(&h, 136 + 4 * 48), Ok(()));
    assert_eq!(
        validate(&h, 136),
        Err(OpenError::SizeMismatch { expected_len: 136 + 4 * 48, found_len: 136 })
    );
    let bad = Header { magic: 0, ..h };
    assert_eq!(validate(&bad, 136 + 4 * 48), Err(OpenError::BadMagic { expected: QUEUE_MAGIC, found: 0 }));
    let crossed = Header { producer_index: 9, consumer_index: 4, ..h };
    assert_eq!(validate(&crossed, 136 + 4 * 48), Err(OpenError::BadIndices { producer: 9, consumer: 4 }));
}

#[test]
fn execute_order_rule() {
    assert!(execute_order(&order(7)));
    assert!(!execute_order(&order(10)));
    assert!(!execute_order(&Order { quantity: 0, ..order(7) }));
    assert!(!execute_order(&Order { price: 0, ..order(7) }));
}

#[test]
fn status_record_sets_only_status() {
    let o = order(3);
    assert_eq!(status_record(&o, true), Order { status: STATUS_EXECUTED, ..o });
    assert_eq!(status_record(&o, false), Order { status: STATUS_REJECTED, ..o });
}

#[test]
fn stats_count_distinct_clients_and_symbols() {
    let mut s = TestStats::new();
    assert_eq!((s.dequeued(), s.empty_checks(), s.errors()), (0, 0, 0));
    s.record_success(&order(1));
    s.record_success(&Order { client_id: 8, ..order(2) });
    s.record_success(&Order { symbol: sym("MSFT"), ..order(3) });
    s.record_success(&Order { symbol: [0u8; 16], ..order(4) });
    s.record_error("invalid_quantity");
    s.record_empty_check();
    assert_eq!(s.dequeued(), 4);
    assert_eq!(s.errors(), 1);
    assert_eq!(s.empty_checks(), 1);
    assert_eq!(s.unique_clients(), 2);
    assert_eq!(s.unique_symbols(), 2);
}

fn chars(s: &str) -> Vec<char> {
    s.chars().collect()
}

#[test]
fn symbol_text_drops_only_trailing_padding() {
    assert_eq!(symbol_text(&sym("AAPL")), chars("AAPL"));
    assert_eq!(symbol_text(&[0u8; 16]), Vec::<char>::new());
    let mut inner = sym("AB");
    inner[3] = b'C';
    assert_eq!(symbol_text(&inner), vec!['A', 'B', '\0', 'C']);
}

#[test]
fn symbol_text_decodes_lossily() {
    assert_eq!(symbol_text(&[0xffu8; 16]), vec!['\u{FFFD}'; 16]);
    let mut s = sym("A");
    s[1] = 0xc3;
    s[2] = 0xa9;
    assert_eq!(symbol_text(&s), chars("A\u{e9}"));
}

#[test]
fn invalid_symbols_with_same_text_count_once() {
    let mut s = TestStats::new();
    s.record_success(&Order { symbol: [0xffu8; 16], ..order(1) });
    s.record_success(&Order { symbol: [0xfeu8; 16], ..order(2) });
    assert_eq!(s.unique_symbols(), 1);
}

#[test]
fn check_order_counts_invalid_fields() {
    let mut s = TestStats::new();
    s.check_order(&order(5));
    assert_eq!((s.dequeued(), s.errors()), (1, 0));
    s.check_order(&Order { order_id: 0, quantity: 0, ..order(0) });
    assert_eq!((s.dequeued(), s.errors()), (2, 2));
    s.check_order(&Order { quantity: 0, ..order(6) });
    assert_eq!((s.dequeued(), s.errors()), (3, 3));
    assert!(!s.passed());
}

#[test]
fn passed_needs_no_error_and_over_a_hundred_records() {
    let mut s = TestStats::new();
    for id in 1..=100 {
        s.check_order(&order(id));
    }
    assert!(!s.passed());
    s.check_order(&order(101));
    assert!(s.passed());
    s.record_error("dequeue");
    assert!(!s.passed());
}

#[test]
fn publish_writes_match_segment() {
    let mut q = Queue::create(3);
    for id in 1..=4 {
        let _ = q.enqueue(order(id));
    }
    q.dequeue().unwrap();
    q.enqueue(order(4)).unwrap();
    let seg = q.to_segment();
    let (off, bytes) = q.slot_write(3);
    assert_eq!(off, 136);
    assert_eq!(bytes, encode(&order(4)));
    assert_eq!(&seg[off as usize..off as usize + 48], &bytes[..]);
    let (poff, pbytes) = q.producer_write();
    assert_eq!((poff, pbytes), (0, 4u64.to_le_bytes().to_vec()));
    let (coff, cbytes) = q.consumer_write();
    assert_eq!((coff, cbytes), (64, 1u64.to_le_bytes().to_vec()));
}

#[test]
fn reference_capacity_segment_size() {
    let mut q = Queue::create(DEFAULT_CAPACITY);
    assert_eq!(q.capacity(), 65536);
    assert_eq!(q.to_segment().len(), 136 + 65536 * 48);
    for id in 0..65536u64 {
        assert_eq!(q.enqueue(order(id)), Ok(()));
    }
    assert_eq!(q.enqueue(order(0)), Err(QueueError::QueueFull { depth: 65536 }));
    assert_eq!(q.dequeue(), Some(order(0)));
}
