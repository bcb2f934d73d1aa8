//! The order channel: the ordered boundary between the matcher (sole
//! producer) and the application loop (sole consumer).
//!
//! The producer appends resolved orders at the end; the consumer drains
//! everything accumulated so far. Orders are observed in exactly the
//! order they were emitted, none lost, none duplicated: appending extends
//! the backlog by one order at the end, and a drain hands the whole
//! backlog over unchanged. The backlog is unbounded, so an append never
//! waits on a slow or absent consumer. Sharing the channel between the
//! worker and the application loop, under whatever lock or thread glue
//! the host program uses, is the host's business.

use vstd::prelude::*;

use crate::matcher::Order;

verus! {

/// The ordered backlog of resolved orders, oldest first.
pub struct OrderChannel {
    orders: Vec<Order>,
}

impl View for OrderChannel {
    type V = Seq<Order>;

    closed spec fn view(&self) -> Seq<Order> {
        self.orders@
    }
}

impl OrderChannel {
    /// An empty channel.
    pub fn new() -> (c: OrderChannel)
        ensures
            c@ == Seq::<Order>::empty(),
    {
        let c = OrderChannel { orders: Vec::new() };
        proof {
            assert(c@ =~= Seq::<Order>::empty());
        }
        c
    }

    /// Appends one resolved order at the end of the backlog; no order
    /// already emitted is lost or reordered.
    pub fn push(&mut self, order: Order)
        ensures
            final(self)@ == old(self)@.push(order),
    {
        self.orders.push(order);
    }

    /// Hands the whole backlog to the consumer, in emission order, and
    /// leaves the channel empty.
    pub fn drain(&mut self) -> (r: Vec<Order>)
        ensures
            r@ == old(self)@,
            final(self)@ == Seq::<Order>::empty(),
    {
        let r = self.orders.split_off(0);
        proof {
            assert(r@ =~= old(self)@);
            assert(self@ =~= Seq::<Order>::empty());
        }
        r
    }

    /// How many orders are waiting.
    pub fn len(&self) -> (n: usize)
        ensures
            n == self@.len(),
    {
        self.orders.len()
    }
}

/// What the application loop owns once the worker is running: its end of
/// the order channel.
pub struct AppContainer {
    pub orders: OrderChannel,
}

impl AppContainer {
    /// Wraps the consumer's end of the channel.
    pub fn new(orders: OrderChannel) -> (c: AppContainer)
        ensures
            c.orders@ == orders@,
    {
        AppContainer { orders }
    }
}

} // verus!
