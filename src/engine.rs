//! The matching engine's placeholder decision on an incoming order, and the
//! status record it sends back.
use crate::codec::{Order, STATUS_EXECUTED, STATUS_REJECTED};
use vstd::prelude::*;

verus! {

/// An order is executed when its quantity and price are non-zero and its id
/// is not a multiple of ten; otherwise it is rejected.
pub open spec fn executes(o: Order) -> bool {
    o.quantity != 0 && o.price != 0 && o.order_id % 10 != 0
}

/// Decides whether `order` is executed.
pub fn execute_order(order: &Order) -> (r: bool)
    ensures
        r == executes(*order),
{
    if order.quantity == 0 || order.price == 0 {
        return false;
    }
    order.order_id % 10 != 0
}

/// The record sent back on the status channel: `order` with its status set to
/// executed or rejected, every other field kept.
pub fn status_record(order: &Order, executed: bool) -> (r: Order)
    ensures
        r == (Order { status: if executed { STATUS_EXECUTED } else { STATUS_REJECTED }, ..*order }),
{
    let mut r = *order;
    r.status = if executed { STATUS_EXECUTED } else { STATUS_REJECTED };
    r
}

} // verus!
