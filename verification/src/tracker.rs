//! A strategy-side ledger of its own orders: what was requested, what
//! the exchange reported back, and which orders are finished.

use vstd::prelude::*;

use crate::order::TradeSide;

verus! {

/// Where an order stands from the strategy's point of view.
#[derive(Debug, Clone, Copy, PartialEq, Eq, Structural)]
pub enum OrderStatus {
    OpenRequested,
    Open,
    PartiallyFilled,
    Filled,
    CancelRequested,
    Canceled,
}

/// One tracked order.
#[derive(Debug)]
pub struct Order {
    pub order_id: String,
    pub price: u64,
    pub side: TradeSide,
    pub quantity: u64,
    pub filled: u64,
    pub status: OrderStatus,
    pub created_at: u64,
}

impl Clone for Order {
    fn clone(&self) -> (r: Self)
        ensures
            r == *self,
    {
        Order {
            order_id: self.order_id.clone(),
            price: self.price,
            side: self.side,
            quantity: self.quantity,
            filled: self.filled,
            status: self.status,
            created_at: self.created_at,
        }
    }
}

/// A terminated order no longer rests anywhere.
pub open spec fn order_terminated(o: Order) -> bool {
    o.status == OrderStatus::Canceled || o.status == OrderStatus::Filled
}

/// The ledger status an exchange order result maps to: `new` opens the
/// order, partial and full fills carry over, and every other outcome —
/// canceled, rejected, expired — ends it.
pub fn status_of_result(status: crate::order::OrderStatus) -> (r: OrderStatus)
    ensures
        r == match status {
            crate::order::OrderStatus::New => OrderStatus::Open,
            crate::order::OrderStatus::PartiallyFilled => OrderStatus::PartiallyFilled,
            crate::order::OrderStatus::Filled => OrderStatus::Filled,
            _ => OrderStatus::Canceled,
        },
{
    match status {
        crate::order::OrderStatus::New => OrderStatus::Open,
        crate::order::OrderStatus::PartiallyFilled => OrderStatus::PartiallyFilled,
        crate::order::OrderStatus::Filled => OrderStatus::Filled,
        _ => OrderStatus::Canceled,
    }
}

/// Tracked orders by id, plus the fill reports already accounted for.
#[derive(Debug)]
pub struct OrderTracker {
    pub orders: Vec<Order>,
    pub proceed_unique_fill_report_id: Vec<String>,
}

impl OrderTracker {
    /// Ids are unique on both lists.
    pub open spec fn wf(self) -> bool {
        &&& forall|i: int, j: int|
            0 <= i < j < self.orders@.len() ==> (#[trigger] self.orders@[i]).order_id@ != (
            #[trigger] self.orders@[j]).order_id@
        &&& forall|i: int, j: int|
            0 <= i < j < self.proceed_unique_fill_report_id@.len()
                ==> self.proceed_unique_fill_report_id@[i]@
                != self.proceed_unique_fill_report_id@[j]@
    }

    pub fn new() -> (t: OrderTracker)
        ensures
            t.wf(),
            t.orders@.len() == 0,
            t.proceed_unique_fill_report_id@.len() == 0,
    {
        OrderTracker { orders: Vec::new(), proceed_unique_fill_report_id: Vec::new() }
    }

    fn find_idx(&self, order_id: &String) -> (r: Option<usize>)
        ensures
            match r {
                Some(i) => i < self.orders@.len() && self.orders@[i as int].order_id@ == order_id@,
                None => forall|i: int|
                    0 <= i < self.orders@.len() ==> (#[trigger] self.orders@[i]).order_id@
                        != order_id@,
            },
    {
        let mut i: usize = 0;
        while i < self.orders.len()
            invariant
                i <= self.orders@.len(),
                forall|k: int| 0 <= k < i ==> (#[trigger] self.orders@[k]).order_id@ != order_id@,
            decreases self.orders@.len() - i,
        {
            if self.orders[i].order_id == *order_id {
                return Some(i);
            }
            i = i + 1;
        }
        None
    }

    /// The tracked order with this id, if any.
    pub fn get_order(&self, order_id: &String) -> (r: Option<&Order>)
        ensures
            match r {
                Some(o) => exists|i: int|
                    0 <= i < self.orders@.len() && #[trigger] self.orders@[i] == *o && o.order_id@
                        == order_id@,
                None => forall|i: int|
                    0 <= i < self.orders@.len() ==> (#[trigger] self.orders@[i]).order_id@
                        != order_id@,
            },
    {
        match self.find_idx(order_id) {
            Some(i) => Some(&self.orders[i]),
            None => None,
        }
    }

    /// Inserts or replaces the order under its id; reports whether the
    /// id is new.
    #[verifier::loop_isolation(false)]
    pub fn upsert_order(&mut self, order: Order) -> (is_new: bool)
        requires
            old(self).wf(),
        ensures
            final(self).wf(),
            final(self).proceed_unique_fill_report_id == old(self).proceed_unique_fill_report_id,
            is_new == (forall|i: int|
                0 <= i < old(self).orders@.len() ==> (#[trigger] old(self).orders@[i]).order_id@
                    != order.order_id@),
            if is_new {
                final(self).orders@ == old(self).orders@.push(order)
            } else {
                exists|i: int|
                    0 <= i < old(self).orders@.len() && (#[trigger] old(self).orders@[i]).order_id@
                        == order.order_id@ && final(self).orders@ == old(self).orders@.update(
                        i,
                        order,
                    )
            },
    {
        let ghost orders0 = self.orders@;
        let ghost gorder = order;
        match self.find_idx(&order.order_id) {
            Some(i) => {
                self.orders[i] = order;
                proof {
                    assert forall|a: int, b: int|
                        0 <= a < b < self.orders@.len() implies (#[trigger] self.orders@[a]).order_id@
                        != (#[trigger] self.orders@[b]).order_id@ by {
                        if a != i as int {
                            assert(self.orders@[a] == orders0[a]);
                        }
                        if b != i as int {
                            assert(self.orders@[b] == orders0[b]);
                        }
                        if a == i as int {
                            assert(orders0[a].order_id@ == gorder.order_id@);
                        }
                        if b == i as int {
                            assert(orders0[b].order_id@ == gorder.order_id@);
                        }
                    }
                }
                false
            },
            None => {
                self.orders.push(order);
                true
            },
        }
    }

    /// Whether a fill report with this id was booked before.
    pub open spec fn report_seen(self, report_id: Seq<char>) -> bool {
        exists|i: int|
            0 <= i < self.proceed_unique_fill_report_id@.len() && (
            #[trigger] self.proceed_unique_fill_report_id@[i])@ == report_id
    }

    /// The orders after adding `filled` (saturating) to the one with
    /// this id, if it is tracked.
    pub open spec fn orders_after_fill(self, order_id: Seq<char>, filled: u64) -> Seq<Order> {
        if exists|i: int|
            0 <= i < self.orders@.len() && (#[trigger] self.orders@[i]).order_id@ == order_id {
            let i = choose|i: int|
                0 <= i < self.orders@.len() && (#[trigger] self.orders@[i]).order_id@ == order_id;
            self.orders@.update(
                i,
                Order {
                    filled: crate::stats::sat_add(self.orders@[i].filled, filled),
                    ..self.orders@[i]
                },
            )
        } else {
            self.orders@
        }
    }

    /// Books one fill report: a report id seen before is ignored; a
    /// fresh one is remembered and adds `filled` to the order's filled
    /// amount (saturating), if the order is tracked.
    #[verifier::loop_isolation(false)]
    pub fn fill_order(&mut self, order_id: &String, filled: u64, unique_fill_report_id: Option<&String>)
        requires
            old(self).wf(),
        ensures
            final(self).wf(),
            match unique_fill_report_id {
                Some(report_id) => {
                    if old(self).report_seen(report_id@) {
                        *final(self) == *old(self)
                    } else {
                        &&& final(self).proceed_unique_fill_report_id@.len() == old(
                            self,
                        ).proceed_unique_fill_report_id@.len() + 1
                        &&& final(self).proceed_unique_fill_report_id@.last()@ == report_id@
                        &&& final(self).proceed_unique_fill_report_id@.subrange(
                            0,
                            old(self).proceed_unique_fill_report_id@.len() as int,
                        ) == old(self).proceed_unique_fill_report_id@
                        &&& final(self).orders@ == old(self).orders_after_fill(order_id@, filled)
                    }
                },
                None => final(self).proceed_unique_fill_report_id == old(
                    self,
                ).proceed_unique_fill_report_id && final(self).orders@ == old(
                    self,
                ).orders_after_fill(order_id@, filled),
            },
    {
        match unique_fill_report_id {
            Some(report_id) => {
                let mut k: usize = 0;
                let ghost reports0 = self.proceed_unique_fill_report_id@;
                while k < self.proceed_unique_fill_report_id.len()
                    invariant
                        k <= reports0.len(),
                        self.proceed_unique_fill_report_id@ == reports0,
                        self.orders@ == old(self).orders@,
                        forall|i: int| 0 <= i < k ==> (#[trigger] reports0[i])@ != report_id@,
                    decreases reports0.len() - k,
                {
                    if self.proceed_unique_fill_report_id[k] == *report_id {
                        return ;
                    }
                    k = k + 1;
                }
                self.proceed_unique_fill_report_id.push(report_id.clone());
                proof {
                    assert(self.proceed_unique_fill_report_id@.subrange(0, reports0.len() as int)
                        =~= reports0);
                }
            },
            None => {},
        }
        match self.find_idx(order_id) {
            Some(i) => {
                let ghost orders1 = self.orders@;
                let cur = self.orders[i].filled;
                self.orders[i].filled = crate::stats::sat_add_exec(cur, filled);
                proof {
                    assert forall|a: int, b: int|
                        0 <= a < b < self.orders@.len() implies (#[trigger] self.orders@[a]).order_id@
                        != (#[trigger] self.orders@[b]).order_id@ by {
                        assert(self.orders@[a].order_id == orders1[a].order_id);
                        assert(self.orders@[b].order_id == orders1[b].order_id);
                    }
                    let ci = choose|c: int|
                        0 <= c < orders1.len() && (#[trigger] orders1[c]).order_id@ == order_id@;
                    if ci != i as int {
                        assert(orders1[ci].order_id@ != orders1[i as int].order_id@);
                        assert(false);
                    }
                }
            },
            None => {},
        }
    }

    /// Overwrites the order's filled amount with an absolute value, if
    /// the order is tracked; an unknown id changes nothing.
    pub fn update_fill_quantity(&mut self, order_id: &String, filled: u64)
        requires
            old(self).wf(),
        ensures
            final(self).wf(),
            final(self).proceed_unique_fill_report_id == old(self).proceed_unique_fill_report_id,
            if exists|i: int|
                0 <= i < old(self).orders@.len() && (#[trigger] old(self).orders@[i]).order_id@
                    == order_id@ {
                exists|i: int|
                    0 <= i < old(self).orders@.len() && (#[trigger] old(self).orders@[i]).order_id@
                        == order_id@ && final(self).orders@ == old(self).orders@.update(
                        i,
                        Order { filled, ..old(self).orders@[i] },
                    )
            } else {
                final(self).orders@ == old(self).orders@
            },
    {
        match self.find_idx(order_id) {
            Some(i) => {
                let ghost orders1 = self.orders@;
                self.orders[i].filled = filled;
                proof {
                    assert forall|a: int, b: int|
                        0 <= a < b < self.orders@.len() implies (#[trigger] self.orders@[a]).order_id@
                        != (#[trigger] self.orders@[b]).order_id@ by {
                        assert(self.orders@[a].order_id == orders1[a].order_id);
                        assert(self.orders@[b].order_id == orders1[b].order_id);
                    }
                }
            },
            None => {},
        }
    }

    /// Overwrites the order's status, if the order is tracked; an
    /// unknown id changes nothing.
    pub fn update_status(&mut self, order_id: &String, status: OrderStatus)
        requires
            old(self).wf(),
        ensures
            final(self).wf(),
            final(self).proceed_unique_fill_report_id == old(self).proceed_unique_fill_report_id,
            if exists|i: int|
                0 <= i < old(self).orders@.len() && (#[trigger] old(self).orders@[i]).order_id@
                    == order_id@ {
                exists|i: int|
                    0 <= i < old(self).orders@.len() && (#[trigger] old(self).orders@[i]).order_id@
                        == order_id@ && final(self).orders@ == old(self).orders@.update(
                        i,
                        Order { status, ..old(self).orders@[i] },
                    )
            } else {
                final(self).orders@ == old(self).orders@
            },
    {
        match self.find_idx(order_id) {
            Some(i) => {
                let ghost orders1 = self.orders@;
                self.orders[i].status = status;
                proof {
                    assert forall|a: int, b: int|
                        0 <= a < b < self.orders@.len() implies (#[trigger] self.orders@[a]).order_id@
                        != (#[trigger] self.orders@[b]).order_id@ by {
                        assert(self.orders@[a].order_id == orders1[a].order_id);
                        assert(self.orders@[b].order_id == orders1[b].order_id);
                    }
                }
            },
            None => {},
        }
    }

    /// Drops every canceled or fully filled order; the rest keep their
    /// relative order.
    #[verifier::loop_isolation(false)]
    pub fn remove_terminated_orders(&mut self)
        requires
            old(self).wf(),
        ensures
            final(self).wf(),
            final(self).proceed_unique_fill_report_id == old(self).proceed_unique_fill_report_id,
            forall|i: int|
                0 <= i < final(self).orders@.len() ==> !order_terminated(
                    #[trigger] final(self).orders@[i],
                ) && old(self).orders@.contains(final(self).orders@[i]),
    {
        let ghost orders0 = self.orders@;
        let mut kept: Vec<Order> = Vec::new();
        let mut i: usize = 0;
        while i < self.orders.len()
            invariant
                i <= orders0.len(),
                self.orders@ == orders0,
                self.proceed_unique_fill_report_id == old(self).proceed_unique_fill_report_id,
                forall|k: int|
                    0 <= k < kept@.len() ==> !order_terminated(#[trigger] kept@[k])
                        && orders0.contains(kept@[k]),
                forall|a: int, b: int|
                    0 <= a < b < kept@.len() ==> (#[trigger] kept@[a]).order_id@ != (
                    #[trigger] kept@[b]).order_id@,
                forall|k: int, j: int|
                    0 <= k < kept@.len() && i <= j < orders0.len() ==> (#[trigger] kept@[k]).order_id@
                        != (#[trigger] orders0[j]).order_id@,
            decreases orders0.len() - i,
        {
            let keep = match self.orders[i].status {
                OrderStatus::Canceled => false,
                OrderStatus::Filled => false,
                _ => true,
            };
            if keep {
                kept.push(self.orders[i].clone());
            }
            i = i + 1;
        }
        self.orders = kept;
    }

    /// Marks the order as awaiting cancellation.
    pub fn request_cancel_order(&mut self, order_id: &String)
        requires
            old(self).wf(),
        ensures
            final(self).wf(),
            final(self).proceed_unique_fill_report_id == old(self).proceed_unique_fill_report_id,
    {
        self.update_status(order_id, OrderStatus::CancelRequested);
    }

    /// Forgets the order with this id outright.
    #[verifier::loop_isolation(false)]
    pub fn cancel_order(&mut self, order_id: &String)
        requires
            old(self).wf(),
        ensures
            final(self).wf(),
            final(self).proceed_unique_fill_report_id == old(self).proceed_unique_fill_report_id,
            if exists|i: int|
                0 <= i < old(self).orders@.len() && (#[trigger] old(self).orders@[i]).order_id@
                    == order_id@ {
                exists|i: int|
                    0 <= i < old(self).orders@.len() && (#[trigger] old(self).orders@[i]).order_id@
                        == order_id@ && final(self).orders@ == old(self).orders@.remove(i)
            } else {
                final(self).orders@ == old(self).orders@
            },
    {
        let ghost orders0 = self.orders@;
        match self.find_idx(order_id) {
            Some(i) => {
                self.orders.remove(i);
                proof {
                    assert forall|a: int, b: int|
                        0 <= a < b < self.orders@.len() implies (#[trigger] self.orders@[a]).order_id@
                        != (#[trigger] self.orders@[b]).order_id@ by {
                        if a < i as int {
                            assert(self.orders@[a] == orders0[a]);
                        } else {
                            assert(self.orders@[a] == orders0[a + 1]);
                        }
                        if b < i as int {
                            assert(self.orders@[b] == orders0[b]);
                        } else {
                            assert(self.orders@[b] == orders0[b + 1]);
                        }
                    }
                }
            },
            None => {},
        }
    }

    /// All tracked orders, oldest first.
    pub fn iter(&self) -> (r: &Vec<Order>)
        ensures
            r == &self.orders,
    {
        &self.orders
    }

    /// How many orders are tracked.
    pub fn size(&self) -> (r: usize)
        ensures
            r == self.orders@.len(),
    {
        self.orders.len()
    }
}

} // verus!
