//! Counters the matching engine keeps about order flow.
//!
//! Quantities accumulate with saturating addition: a counter that would
//! overflow sticks at the largest representable value.

use vstd::prelude::*;

verus! {

/// `a + b`, saturating at the largest `u64`.
pub open spec fn sat_add(a: u64, b: u64) -> u64 {
    if a + b > u64::MAX {
        u64::MAX
    } else {
        (a + b) as u64
    }
}

/// The count recorded for `name` (zero if never counted).
pub open spec fn seq_count(entries: Seq<(String, u64)>, name: Seq<char>) -> u64
    decreases entries.len(),
{
    if entries.len() == 0 {
        0
    } else if entries.last().0@ == name {
        entries.last().1
    } else {
        seq_count(entries.drop_last(), name)
    }
}

#[derive(Debug)]
pub struct MarketStats {
    pub total_order_num: u64,
    pub total_order_buy_quantity: u64,
    pub total_order_sell_quantity: u64,
    pub total_order_cancel_num: u64,
    pub total_filled_buy_quantity: u64,
    pub total_filled_sell_quantity: u64,
    pub total_filled_buy_vol: u64,
    pub total_filled_sell_vol: u64,
    pub event_count: Vec<(String, u64)>,
}

impl MarketStats {
    pub open spec fn wf(self) -> bool {
        forall|i: int, j: int|
            0 <= i < j < self.event_count@.len() ==> self.event_count@[i].0@
                != self.event_count@[j].0@
    }

    pub open spec fn count_of(self, name: Seq<char>) -> u64 {
        seq_count(self.event_count@, name)
    }

    pub fn new() -> (s: MarketStats)
        ensures
            s.wf(),
            s.total_order_num == 0,
            s.total_order_buy_quantity == 0,
            s.total_order_sell_quantity == 0,
            s.total_order_cancel_num == 0,
            s.total_filled_buy_quantity == 0,
            s.total_filled_sell_quantity == 0,
            s.total_filled_buy_vol == 0,
            s.total_filled_sell_vol == 0,
            s.event_count@.len() == 0,
    {
        MarketStats {
            total_order_num: 0,
            total_order_buy_quantity: 0,
            total_order_sell_quantity: 0,
            total_order_cancel_num: 0,
            total_filled_buy_quantity: 0,
            total_filled_sell_quantity: 0,
            total_filled_buy_vol: 0,
            total_filled_sell_vol: 0,
            event_count: Vec::new(),
        }
    }

    pub fn on_order_cancel(&mut self)
        ensures
            *final(self) == (MarketStats {
                total_order_cancel_num: sat_add(old(self).total_order_cancel_num, 1),
                ..*old(self)
            }),
    {
        self.total_order_cancel_num = sat_add_exec(self.total_order_cancel_num, 1);
    }

    pub fn on_order_submitted(&mut self, quantity: u64, is_buy: bool)
        ensures
            *final(self) == (MarketStats {
                total_order_num: sat_add(old(self).total_order_num, 1),
                total_order_buy_quantity: if is_buy {
                    sat_add(old(self).total_order_buy_quantity, quantity)
                } else {
                    old(self).total_order_buy_quantity
                },
                total_order_sell_quantity: if is_buy {
                    old(self).total_order_sell_quantity
                } else {
                    sat_add(old(self).total_order_sell_quantity, quantity)
                },
                ..*old(self)
            }),
    {
        self.total_order_num = sat_add_exec(self.total_order_num, 1);
        if is_buy {
            self.total_order_buy_quantity = sat_add_exec(self.total_order_buy_quantity, quantity);
        } else {
            self.total_order_sell_quantity = sat_add_exec(self.total_order_sell_quantity, quantity);
        }
    }

    pub fn on_order_filled(&mut self, quantity: u64, vol: u64, is_buy: bool)
        ensures
            *final(self) == (MarketStats {
                total_filled_buy_quantity: if is_buy {
                    sat_add(old(self).total_filled_buy_quantity, quantity)
                } else {
                    old(self).total_filled_buy_quantity
                },
                total_filled_buy_vol: if is_buy {
                    sat_add(old(self).total_filled_buy_vol, vol)
                } else {
                    old(self).total_filled_buy_vol
                },
                total_filled_sell_quantity: if is_buy {
                    old(self).total_filled_sell_quantity
                } else {
                    sat_add(old(self).total_filled_sell_quantity, quantity)
                },
                total_filled_sell_vol: if is_buy {
                    old(self).total_filled_sell_vol
                } else {
                    sat_add(old(self).total_filled_sell_vol, vol)
                },
                ..*old(self)
            }),
    {
        if is_buy {
            self.total_filled_buy_quantity = sat_add_exec(self.total_filled_buy_quantity, quantity);
            self.total_filled_buy_vol = sat_add_exec(self.total_filled_buy_vol, vol);
        } else {
            self.total_filled_sell_quantity = sat_add_exec(
                self.total_filled_sell_quantity,
                quantity,
            );
            self.total_filled_sell_vol = sat_add_exec(self.total_filled_sell_vol, vol);
        }
    }

    /// Bumps the named counter by one.
    #[verifier::loop_isolation(false)]
    pub fn on_event(&mut self, event: &String)
        requires
            old(self).wf(),
        ensures
            final(self).wf(),
            final(self).count_of(event@) == sat_add(old(self).count_of(event@), 1),
            forall|n: Seq<char>| n != event@ ==> final(self).count_of(n) == old(self).count_of(n),
            final(self).total_order_num == old(self).total_order_num,
            final(self).total_order_buy_quantity == old(self).total_order_buy_quantity,
            final(self).total_order_sell_quantity == old(self).total_order_sell_quantity,
            final(self).total_order_cancel_num == old(self).total_order_cancel_num,
            final(self).total_filled_buy_quantity == old(self).total_filled_buy_quantity,
            final(self).total_filled_sell_quantity == old(self).total_filled_sell_quantity,
            final(self).total_filled_buy_vol == old(self).total_filled_buy_vol,
            final(self).total_filled_sell_vol == old(self).total_filled_sell_vol,
    {
        let ghost entries0 = self.event_count@;
        let mut i: usize = 0;
        while i < self.event_count.len()
            invariant
                i <= entries0.len(),
                self.event_count@ == entries0,
                self.total_order_num == old(self).total_order_num,
                self.total_order_buy_quantity == old(self).total_order_buy_quantity,
                self.total_order_sell_quantity == old(self).total_order_sell_quantity,
                self.total_order_cancel_num == old(self).total_order_cancel_num,
                self.total_filled_buy_quantity == old(self).total_filled_buy_quantity,
                self.total_filled_sell_quantity == old(self).total_filled_sell_quantity,
                self.total_filled_buy_vol == old(self).total_filled_buy_vol,
                self.total_filled_sell_vol == old(self).total_filled_sell_vol,
                forall|k: int| 0 <= k < i ==> (#[trigger] entries0[k]).0@ != event@,
            decreases entries0.len() - i,
        {
            if self.event_count[i].0 == *event {
                let c = self.event_count[i].1;
                let c2 = sat_add_exec(c, 1);
                self.event_count[i].1 = c2;
                proof {
                    assert(self.event_count@ == entries0.update(i as int, (entries0[i as int].0, c2)));
                    lemma_seq_count_at(entries0, i as int);
                    assert forall|n: Seq<char>| #[trigger]
                        seq_count(self.event_count@, n) == if entries0[i as int].0@ == n {
                            c2
                        } else {
                            seq_count(entries0, n)
                        } by {
                        lemma_seq_count_update(entries0, i as int, c2, n);
                    }
                }
                return ;
            }
            i = i + 1;
        }
        let entry = (event.clone(), 1u64);
        let ghost e = entry;
        self.event_count.push(entry);
        proof {
            assert(self.event_count@ == entries0.push(e));
            assert forall|n: Seq<char>| #[trigger]
                seq_count(self.event_count@, n) == if e.0@ == n {
                    1u64
                } else {
                    seq_count(entries0, n)
                } by {
                assert(self.event_count@.last() == e);
                assert(self.event_count@.drop_last() =~= entries0);
            }
            lemma_seq_count_absent(entries0, e.0@);
        }
    }
}

/// `a + b`, saturating at the largest `u64`.
pub fn sat_add_exec(a: u64, b: u64) -> (r: u64)
    ensures
        r == sat_add(a, b),
{
    if b <= u64::MAX - a {
        a + b
    } else {
        u64::MAX
    }
}

/// `a * b`, saturating at the largest `u64`.
pub open spec fn sat_mul(a: u64, b: u64) -> u64 {
    if a * b > u64::MAX {
        u64::MAX
    } else {
        (a * b) as u64
    }
}

/// `a * b`, saturating at the largest `u64`.
pub fn sat_mul_exec(a: u64, b: u64) -> (r: u64)
    ensures
        r == sat_mul(a, b),
{
    match a.checked_mul(b) {
        Some(v) => v,
        None => u64::MAX,
    }
}

proof fn lemma_seq_count_absent(entries: Seq<(String, u64)>, name: Seq<char>)
    requires
        forall|i: int| 0 <= i < entries.len() ==> (#[trigger] entries[i]).0@ != name,
    ensures
        seq_count(entries, name) == 0,
    decreases entries.len(),
{
    if entries.len() > 0 {
        lemma_seq_count_absent(entries.drop_last(), name);
    }
}

proof fn lemma_seq_count_at(entries: Seq<(String, u64)>, i: int)
    requires
        forall|k: int, j: int| 0 <= k < j < entries.len() ==> entries[k].0@ != entries[j].0@,
        0 <= i < entries.len(),
    ensures
        seq_count(entries, entries[i].0@) == entries[i].1,
    decreases entries.len(),
{
    if i < entries.len() - 1 {
        assert(entries.last().0@ != entries[i].0@);
        assert(entries.drop_last()[i] == entries[i]);
        lemma_seq_count_at(entries.drop_last(), i);
    }
}

proof fn lemma_seq_count_update(entries: Seq<(String, u64)>, i: int, v: u64, name: Seq<char>)
    requires
        forall|k: int, j: int| 0 <= k < j < entries.len() ==> entries[k].0@ != entries[j].0@,
        0 <= i < entries.len(),
    ensures
        seq_count(entries.update(i, (entries[i].0, v)), name) == if entries[i].0@ == name {
            v
        } else {
            seq_count(entries, name)
        },
    decreases entries.len(),
{
    let e2 = entries.update(i, (entries[i].0, v));
    if i == entries.len() - 1 {
        assert(e2.last() == (entries[i].0, v));
        assert(e2.drop_last() =~= entries.drop_last());
    } else {
        assert(e2.last() == entries.last());
        assert(e2.drop_last() =~= entries.drop_last().update(i, (entries.drop_last()[i].0, v)));
        lemma_seq_count_update(entries.drop_last(), i, v, name);
    }
}

} // verus!
