//! Tallies kept by a consumer that checks what it reads from a queue.
use crate::codec::{Order, SYMBOL_LEN};
use std::collections::HashSet;
use vstd::prelude::*;

verus! {

broadcast use vstd::std_specs::hash::group_hash_axioms;

/// What `String::from_utf8_lossy` makes of the bytes `b`, as characters.
pub uninterp spec fn lossy_of(b: Seq<u8>) -> Seq<char>;

/// Relies on String::from_utf8_lossy: the text of `b`, each invalid sequence
/// replaced by U+FFFD; bytes that are all ASCII come out as the same characters.
#[verifier::external_body]
fn lossy_chars(b: &[u8]) -> (r: Vec<char>)
    ensures
        r@ == lossy_of(b@),
        (forall|i: int| 0 <= i < b@.len() ==> b@[i] < 128) ==> r@ == Seq::new(
            b@.len(),
            |i: int| b@[i] as char,
        ),
{
    String::from_utf8_lossy(b).chars().collect()
}

/// `s` without its trailing NUL characters.
pub open spec fn trim_nuls(s: Seq<char>) -> Seq<char>
    decreases s.len(),
{
    if s.len() > 0 && s.last() == '\0' {
        trim_nuls(s.drop_last())
    } else {
        s
    }
}

/// The ticker of a symbol buffer: its lossy UTF-8 text, up to the NUL padding.
pub open spec fn symbol_of(symbol: Seq<u8>) -> Seq<char> {
    trim_nuls(lossy_of(symbol))
}

/// The text `t` without its trailing NUL characters.
pub fn trim_trailing_nuls(t: &Vec<char>) -> (r: Vec<char>)
    ensures
        r@ == trim_nuls(t@),
{
    let mut end: usize = t.len();
    assert(t@.subrange(0, end as int) =~= t@);
    while end > 0 && t[end - 1] == '\0'
        invariant
            0 <= end <= t@.len(),
            trim_nuls(t@.subrange(0, end as int)) == trim_nuls(t@),
        decreases end,
    {
        assert(t@.subrange(0, end as int).drop_last() =~= t@.subrange(0, end - 1));
        end = end - 1;
    }
    let mut r: Vec<char> = Vec::new();
    let mut i: usize = 0;
    while i < end
        invariant
            0 <= i <= end <= t@.len(),
            r@ == t@.subrange(0, i as int),
        decreases end - i,
    {
        r.push(t[i]);
        assert(t@.subrange(0, i as int + 1) =~= t@.subrange(0, i as int).push(t@[i as int]));
        i = i + 1;
    }
    r
}

/// The ticker of a symbol buffer: its lossy UTF-8 text, up to the NUL padding.
pub fn symbol_text(symbol: &[u8; 16]) -> (r: Vec<char>)
    ensures
        r@ == symbol_of(symbol@),
{
    let text = lossy_chars(symbol.as_slice());
    trim_trailing_nuls(&text)
}

fn chars_equal(a: &Vec<char>, b: &Vec<char>) -> (r: bool)
    ensures
        r == (a@ == b@),
{
    if a.len() != b.len() {
        return false;
    }
    let mut i: usize = 0;
    while i < a.len()
        invariant
            0 <= i <= a@.len(),
            a@.len() == b@.len(),
            forall|j: int| 0 <= j < i ==> a@[j] == b@[j],
        decreases a@.len() - i,
    {
        if a[i] != b[i] {
            return false;
        }
        i = i + 1;
    }
    assert(a@ =~= b@);
    true
}

/// Counts of records read, empty polls and errors, with the distinct clients
/// and distinct non-empty symbols seen.
pub struct TestStats {
    dequeued: u64,
    empty_checks: u64,
    errors: u64,
    clients: HashSet<u32>,
    symbols: Vec<Vec<char>>,
}

impl TestStats {
    pub closed spec fn spec_dequeued(&self) -> u64 {
        self.dequeued
    }

    pub closed spec fn spec_empty_checks(&self) -> u64 {
        self.empty_checks
    }

    pub closed spec fn spec_errors(&self) -> u64 {
        self.errors
    }

    /// The distinct clients seen.
    pub closed spec fn client_set(&self) -> Set<u32> {
        self.clients@
    }

    /// The distinct non-empty symbols seen, as lossy UTF-8 text without NUL padding.
    pub closed spec fn symbol_set(&self) -> Set<Seq<char>> {
        Set::new(|s: Seq<char>| exists|k: int| 0 <= k < self.symbols@.len() && self.symbols@[k]@ == s)
    }

    /// Each symbol is held once.
    pub closed spec fn wf(&self) -> bool {
        forall|a: int, b: int|
            0 <= a < b < self.symbols@.len() ==> #[trigger] self.symbols@[a]@ != #[trigger] self.symbols@[b]@
    }

    /// No record, poll or error counted yet.
    pub fn new() -> (r: TestStats)
        ensures
            r.wf(),
            r.spec_dequeued() == 0,
            r.spec_empty_checks() == 0,
            r.spec_errors() == 0,
            r.client_set() == Set::<u32>::empty(),
            r.symbol_set() == Set::<Seq<char>>::empty(),
    {
        let r = TestStats { dequeued: 0, empty_checks: 0, errors: 0, clients: HashSet::new(), symbols: Vec::new() };
        assert(r.symbol_set() =~= Set::<Seq<char>>::empty());
        r
    }

    /// Counts one record read, and notes its client and its symbol, if the
    /// symbol is not all padding.
    pub fn record_success(&mut self, order: &Order)
        requires
            old(self).wf(),
            old(self).spec_dequeued() < u64::MAX,
        ensures
            final(self).wf(),
            final(self).spec_dequeued() == old(self).spec_dequeued() + 1,
            final(self).spec_empty_checks() == old(self).spec_empty_checks(),
            final(self).spec_errors() == old(self).spec_errors(),
            final(self).client_set() == old(self).client_set().insert(order.client_id),
            final(self).symbol_set() == if symbol_of(order.symbol@).len() == 0 {
                old(self).symbol_set()
            } else {
                old(self).symbol_set().insert(symbol_of(order.symbol@))
            },
    {
        self.dequeued = self.dequeued + 1;
        self.clients.insert(order.client_id);
        let symbol = symbol_text(&order.symbol);
        if symbol.len() > 0 {
            let ghost old_syms = self.symbol_set();
            let ghost old_vec = self.symbols@;
            let mut found = false;
            let mut k: usize = 0;
            while k < self.symbols.len()
                invariant
                    0 <= k <= self.symbols@.len(),
                    self.symbols@ == old_vec,
                    found == exists|j: int| 0 <= j < k && self.symbols@[j]@ == symbol@,
                decreases self.symbols@.len() - k,
            {
                if chars_equal(&self.symbols[k], &symbol) {
                    found = true;
                }
                k = k + 1;
            }
            if !found {
                self.symbols.push(symbol);
                proof {
                    assert(self.symbol_set() =~= old_syms.insert(symbol@)) by {
                        assert forall|s: Seq<char>| self.symbol_set().contains(s) <==> old_syms.insert(symbol@).contains(s) by {
                            if self.symbol_set().contains(s) {
                                let j = choose|j: int| 0 <= j < self.symbols@.len() && self.symbols@[j]@ == s;
                                if j < old_vec.len() {
                                    assert(old_vec[j]@ == s);
                                }
                            }
                            if old_syms.contains(s) {
                                let j = choose|j: int| 0 <= j < old_vec.len() && old_vec[j]@ == s;
                                assert(self.symbols@[j]@ == s);
                            }
                            if s == symbol@ {
                                assert(self.symbols@[old_vec.len() as int]@ == s);
                            }
                        }
                    }
                }
            } else {
                proof {
                    assert(old_syms.insert(symbol@) =~= old_syms);
                }
            }
        }
    }

    /// Counts one error; what went wrong is not kept.
    pub fn record_error(&mut self, _error: &str)
        requires
            old(self).spec_errors() < u64::MAX,
        ensures
            final(self).spec_errors() == old(self).spec_errors() + 1,
            final(self).spec_dequeued() == old(self).spec_dequeued(),
            final(self).spec_empty_checks() == old(self).spec_empty_checks(),
            final(self).client_set() == old(self).client_set(),
            final(self).symbol_set() == old(self).symbol_set(),
            final(self).wf() == old(self).wf(),
    {
        self.errors = self.errors + 1;
    }

    /// Counts one record read, as `record_success` does, and one error for a
    /// zero order id and one for a zero quantity.
    pub fn check_order(&mut self, order: &Order)
        requires
            old(self).wf(),
            old(self).spec_dequeued() < u64::MAX,
            old(self).spec_errors() <= u64::MAX - 2,
        ensures
            final(self).wf(),
            final(self).spec_dequeued() == old(self).spec_dequeued() + 1,
            final(self).spec_empty_checks() == old(self).spec_empty_checks(),
            final(self).spec_errors() == old(self).spec_errors() + (if order.order_id == 0 { 1int } else { 0int })
                + (if order.quantity == 0 { 1int } else { 0int }),
            final(self).client_set() == old(self).client_set().insert(order.client_id),
            final(self).symbol_set() == if symbol_of(order.symbol@).len() == 0 {
                old(self).symbol_set()
            } else {
                old(self).symbol_set().insert(symbol_of(order.symbol@))
            },
    {
        self.record_success(order);
        if order.order_id == 0 {
            self.record_error("invalid_order_id");
        }
        if order.quantity == 0 {
            self.record_error("invalid_quantity");
        }
    }

    /// A run passes when it saw no error and read more than a hundred records.
    pub fn passed(&self) -> (r: bool)
        ensures
            r == (self.spec_errors() == 0 && self.spec_dequeued() > 100),
    {
        self.errors == 0 && self.dequeued > 100
    }

    /// Counts one poll that found the queue empty.
    pub fn record_empty_check(&mut self)
        requires
            old(self).spec_empty_checks() < u64::MAX,
        ensures
            final(self).spec_empty_checks() == old(self).spec_empty_checks() + 1,
            final(self).spec_dequeued() == old(self).spec_dequeued(),
            final(self).spec_errors() == old(self).spec_errors(),
            final(self).client_set() == old(self).client_set(),
            final(self).symbol_set() == old(self).symbol_set(),
            final(self).wf() == old(self).wf(),
    {
        self.empty_checks = self.empty_checks + 1;
    }

    pub fn dequeued(&self) -> (r: u64)
        ensures
            r == self.spec_dequeued(),
    {
        self.dequeued
    }

    pub fn empty_checks(&self) -> (r: u64)
        ensures
            r == self.spec_empty_checks(),
    {
        self.empty_checks
    }

    pub fn errors(&self) -> (r: u64)
        ensures
            r == self.spec_errors(),
    {
        self.errors
    }

    /// Number of distinct clients seen.
    pub fn unique_clients(&self) -> (r: usize)
        requires
            self.wf(),
        ensures
            r == self.client_set().len(),
    {
        self.clients.len()
    }

    /// Number of distinct non-empty symbols seen.
    pub fn unique_symbols(&self) -> (r: usize)
        requires
            self.wf(),
        ensures
            r == self.symbol_set().len(),
    {
        proof {
            let views = Seq::new(self.symbols@.len(), |k: int| self.symbols@[k]@);
            assert(views.no_duplicates()) by {
                assert forall|a: int, b: int| 0 <= a < views.len() && 0 <= b < views.len() && a != b implies views[a] != views[b] by {
                    if a < b {
                        assert(self.symbols@[a]@ != self.symbols@[b]@);
                    } else {
                        assert(self.symbols@[b]@ != self.symbols@[a]@);
                    }
                }
            }
            assert(views.to_set() =~= self.symbol_set()) by {
                assert forall|s: Seq<char>| views.contains(s) <==> self.symbol_set().contains(s) by {
                    if self.symbol_set().contains(s) {
                        let k = choose|k: int| 0 <= k < self.symbols@.len() && self.symbols@[k]@ == s;
                        assert(views[k] == s);
                    }
                }
            }
            views.unique_seq_to_set();
        }
        self.symbols.len()
    }
}

} // verus!
