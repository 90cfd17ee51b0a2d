//! Balance bookkeeping with a free/locked split.
//!
//! Amounts are fixed-point integers. The central invariant is that the
//! locked portion of an asset never exceeds the balance held; every
//! operation here preserves it exactly (no tolerance is needed).

use vstd::prelude::*;

verus! {

/// The holdings of one asset: total `balance` and the `locked` part
/// reserved against open orders.
#[derive(Debug, Clone, Copy, PartialEq, Eq, Structural)]
pub struct AssetBalance {
    pub balance: u64,
    pub locked: u64,
}

impl AssetBalance {
    /// Locked funds never exceed the balance.
    pub open spec fn wf(self) -> bool {
        self.locked <= self.balance
    }

    pub open spec fn zero() -> AssetBalance {
        AssetBalance { balance: 0, locked: 0 }
    }

    pub open spec fn spec_free(self) -> int {
        self.balance - self.locked
    }

    pub fn new() -> (b: AssetBalance)
        ensures
            b == AssetBalance::zero(),
    {
        AssetBalance { balance: 0, locked: 0 }
    }

    /// Reserves `amount` if it is still uncommitted; reports whether the
    /// reservation happened.
    pub fn try_lock_balance(&mut self, amount: u64) -> (r: bool)
        requires
            old(self).wf(),
        ensures
            final(self).wf(),
            r == (amount <= old(self).spec_free()),
            r ==> *final(self) == (AssetBalance {
                locked: (old(self).locked + amount) as u64,
                ..*old(self)
            }),
            !r ==> *final(self) == *old(self),
    {
        if self.balance - self.locked >= amount {
            self.locked = self.locked + amount;
            true
        } else {
            false
        }
    }

    /// Releases a reservation.
    pub fn unlock_balance(&mut self, amount: u64)
        requires
            amount <= old(self).locked,
        ensures
            *final(self) == (AssetBalance { locked: (old(self).locked - amount) as u64, ..*old(self) }),
            old(self).wf() ==> final(self).wf(),
    {
        self.locked = self.locked - amount;
    }

    /// Spends reserved funds: both the balance and the lock shrink.
    pub fn consume_locked(&mut self, amount: u64)
        requires
            amount <= old(self).locked,
            old(self).wf(),
        ensures
            final(self).wf(),
            *final(self) == (AssetBalance {
                balance: (old(self).balance - amount) as u64,
                locked: (old(self).locked - amount) as u64,
            }),
    {
        self.locked = self.locked - amount;
        self.balance = self.balance - amount;
    }

    /// Removes unreserved funds.
    pub fn deduce_balance(&mut self, amount: u64)
        requires
            old(self).locked + amount <= old(self).balance,
        ensures
            *final(self) == (AssetBalance { balance: (old(self).balance - amount) as u64, ..*old(self) }),
            old(self).wf() ==> final(self).wf(),
    {
        self.balance = self.balance - amount;
    }

    /// Adds funds.
    pub fn add_balance(&mut self, amount: u64)
        requires
            old(self).balance + amount <= u64::MAX,
        ensures
            *final(self) == (AssetBalance { balance: (old(self).balance + amount) as u64, ..*old(self) }),
            old(self).wf() ==> final(self).wf(),
    {
        self.balance = self.balance + amount;
    }
}

/// Holdings per asset. Assets are created lazily on first use; each asset
/// name appears at most once.
#[derive(Debug)]
pub struct Account {
    pub asset_to_balance: Vec<(String, AssetBalance)>,
}

/// The balance recorded for `asset` in `entries`, or zero holdings if the
/// asset has no entry yet.
pub open spec fn seq_bal(entries: Seq<(String, AssetBalance)>, asset: Seq<char>) -> AssetBalance
    decreases entries.len(),
{
    if entries.len() == 0 {
        AssetBalance::zero()
    } else if entries.last().0@ == asset {
        entries.last().1
    } else {
        seq_bal(entries.drop_last(), asset)
    }
}

impl Account {
    /// What the account holds of `asset` (zero if never touched).
    pub open spec fn bal(self, asset: Seq<char>) -> AssetBalance {
        seq_bal(self.asset_to_balance@, asset)
    }

    /// Each asset appears once, and every entry keeps its lock within its
    /// balance.
    pub open spec fn wf(self) -> bool {
        &&& forall|i: int, j: int|
            0 <= i < j < self.asset_to_balance@.len() ==> self.asset_to_balance@[i].0@
                != self.asset_to_balance@[j].0@
        &&& forall|i: int|
            0 <= i < self.asset_to_balance@.len() ==> (#[trigger] self.asset_to_balance@[i].1).wf()
    }

    pub fn new() -> (a: Account)
        ensures
            a.wf(),
            a.asset_to_balance@.len() == 0,
            forall|a2: Seq<char>| self_bal_is_zero(a, a2),
    {
        let a = Account { asset_to_balance: Vec::new() };
        proof {
            assert forall|a2: Seq<char>| self_bal_is_zero(a, a2) by {
                lemma_seq_bal_absent(a.asset_to_balance@, a2);
            }
        }
        a
    }
}

/// Helper for stating that an account records nothing for an asset.
pub open spec fn self_bal_is_zero(acc: Account, asset: Seq<char>) -> bool {
    acc.bal(asset) == AssetBalance::zero()
}

/// An asset with no entry has zero holdings.
pub proof fn lemma_seq_bal_absent(entries: Seq<(String, AssetBalance)>, asset: Seq<char>)
    requires
        forall|i: int| 0 <= i < entries.len() ==> (#[trigger] entries[i]).0@ != asset,
    ensures
        seq_bal(entries, asset) == AssetBalance::zero(),
    decreases entries.len(),
{
    if entries.len() > 0 {
        lemma_seq_bal_absent(entries.drop_last(), asset);
    }
}

/// With unique asset names, the recorded holding is the entry's value.
pub proof fn lemma_seq_bal_at(entries: Seq<(String, AssetBalance)>, i: int)
    requires
        forall|k: int, j: int| 0 <= k < j < entries.len() ==> entries[k].0@ != entries[j].0@,
        0 <= i < entries.len(),
    ensures
        seq_bal(entries, entries[i].0@) == entries[i].1,
    decreases entries.len(),
{
    if i == entries.len() - 1 {
    } else {
        assert(entries.last().0@ != entries[i].0@);
        assert(entries.drop_last()[i] == entries[i]);
        lemma_seq_bal_at(entries.drop_last(), i);
    }
}

/// Replacing the value at one entry changes the holdings of that entry's
/// asset alone.
pub proof fn lemma_seq_bal_update(
    entries: Seq<(String, AssetBalance)>,
    i: int,
    v: AssetBalance,
    asset: Seq<char>,
)
    requires
        forall|k: int, j: int| 0 <= k < j < entries.len() ==> entries[k].0@ != entries[j].0@,
        0 <= i < entries.len(),
    ensures
        seq_bal(entries.update(i, (entries[i].0, v)), asset) == if entries[i].0@ == asset {
            v
        } else {
            seq_bal(entries, asset)
        },
    decreases entries.len(),
{
    let e2 = entries.update(i, (entries[i].0, v));
    if i == entries.len() - 1 {
        assert(e2.last() == (entries[i].0, v));
        assert(e2.drop_last() =~= entries.drop_last());
    } else {
        assert(e2.last() == entries.last());
        assert(e2.drop_last() =~= entries.drop_last().update(i, (entries.drop_last()[i].0, v)));
        lemma_seq_bal_update(entries.drop_last(), i, v, asset);
    }
}

/// Appending an entry changes the holdings of its asset alone.
pub proof fn lemma_seq_bal_push(
    entries: Seq<(String, AssetBalance)>,
    e: (String, AssetBalance),
    asset: Seq<char>,
)
    ensures
        seq_bal(entries.push(e), asset) == if e.0@ == asset {
            e.1
        } else {
            seq_bal(entries, asset)
        },
{
    assert(entries.push(e).last() == e);
    assert(entries.push(e).drop_last() =~= entries);
}

impl Account {
    /// Index of the entry for `asset`, if one exists.
    fn find_idx(&self, asset: &String) -> (r: Option<usize>)
        ensures
            match r {
                Some(i) => i < self.asset_to_balance@.len() && self.asset_to_balance@[i as int].0@
                    == asset@,
                None => forall|i: int|
                    0 <= i < self.asset_to_balance@.len() ==> (
                    #[trigger] self.asset_to_balance@[i]).0@ != asset@,
            },
    {
        let mut i: usize = 0;
        while i < self.asset_to_balance.len()
            invariant
                i <= self.asset_to_balance@.len(),
                forall|k: int|
                    0 <= k < i ==> (#[trigger] self.asset_to_balance@[k]).0@ != asset@,
            decreases self.asset_to_balance@.len() - i,
        {
            if self.asset_to_balance[i].0 == *asset {
                return Some(i);
            }
            i = i + 1;
        }
        None
    }

    /// Index of the entry for `asset`, creating a zero entry if the asset
    /// was never touched. Holdings are unchanged for every asset.
    fn ensure_entry(&mut self, asset: &String) -> (i: usize)
        requires
            old(self).wf(),
        ensures
            final(self).wf(),
            i < final(self).asset_to_balance@.len(),
            final(self).asset_to_balance@[i as int].0@ == asset@,
            forall|a: Seq<char>| final(self).bal(a) == old(self).bal(a),
    {
        match self.find_idx(asset) {
            Some(i) => i,
            None => {
                let ghost entries0 = self.asset_to_balance@;
                let i = self.asset_to_balance.len();
                let key = asset.clone();
                let entry = (key, AssetBalance::new());
                let ghost e = entry;
                self.asset_to_balance.push(entry);
                proof {
                    assert(self.asset_to_balance@ == entries0.push(e));
                    assert forall|a: Seq<char>|
                        seq_bal(self.asset_to_balance@, a) == seq_bal(entries0, a) by {
                        lemma_seq_bal_push(entries0, e, a);
                        if e.0@ == a {
                            lemma_seq_bal_absent(entries0, a);
                        }
                    }
                }
                i
            },
        }
    }

    /// Current holdings of `asset` (zero if never touched).
    pub fn get(&self, asset: &String) -> (r: AssetBalance)
        requires
            self.wf(),
        ensures
            r == self.bal(asset@),
    {
        match self.find_idx(asset) {
            Some(i) => {
                proof {
                    lemma_seq_bal_at(self.asset_to_balance@, i as int);
                }
                self.asset_to_balance[i].1
            },
            None => {
                proof {
                    lemma_seq_bal_absent(self.asset_to_balance@, asset@);
                }
                AssetBalance::new()
            },
        }
    }

    /// Reserves `amount` of `asset` if that much is uncommitted; reports
    /// whether the reservation happened. Other assets are untouched.
    pub fn try_lock_balance(&mut self, asset: &String, amount: u64) -> (r: bool)
        requires
            old(self).wf(),
        ensures
            final(self).wf(),
            r == (amount <= old(self).bal(asset@).spec_free()),
            r ==> final(self).bal(asset@) == (AssetBalance {
                locked: (old(self).bal(asset@).locked + amount) as u64,
                ..old(self).bal(asset@)
            }),
            !r ==> final(self).bal(asset@) == old(self).bal(asset@),
            forall|a: Seq<char>| a != asset@ ==> final(self).bal(a) == old(self).bal(a),
    {
        let i = self.ensure_entry(asset);
        let ghost entries1 = self.asset_to_balance@;
        proof {
            lemma_seq_bal_at(entries1, i as int);
        }
        let mut b = self.asset_to_balance[i].1;
        let r = b.try_lock_balance(amount);
        self.asset_to_balance[i].1 = b;
        proof {
            self.lemma_after_entry_update(entries1, i as int, b);
        }
        r
    }

    /// Releases a reservation on `asset`. Other assets are untouched.
    pub fn unlock_balance(&mut self, asset: &String, amount: u64)
        requires
            old(self).wf(),
            amount <= old(self).bal(asset@).locked,
        ensures
            final(self).wf(),
            final(self).bal(asset@) == (AssetBalance {
                locked: (old(self).bal(asset@).locked - amount) as u64,
                ..old(self).bal(asset@)
            }),
            forall|a: Seq<char>| a != asset@ ==> final(self).bal(a) == old(self).bal(a),
    {
        let i = self.ensure_entry(asset);
        let ghost entries1 = self.asset_to_balance@;
        proof {
            lemma_seq_bal_at(entries1, i as int);
        }
        let mut b = self.asset_to_balance[i].1;
        b.unlock_balance(amount);
        self.asset_to_balance[i].1 = b;
        proof {
            self.lemma_after_entry_update(entries1, i as int, b);
        }
    }

    /// Spends reserved funds of `asset`: balance and lock both shrink.
    pub fn consume_locked(&mut self, asset: &String, amount: u64)
        requires
            old(self).wf(),
            amount <= old(self).bal(asset@).locked,
        ensures
            final(self).wf(),
            final(self).bal(asset@) == (AssetBalance {
                balance: (old(self).bal(asset@).balance - amount) as u64,
                locked: (old(self).bal(asset@).locked - amount) as u64,
            }),
            forall|a: Seq<char>| a != asset@ ==> final(self).bal(a) == old(self).bal(a),
    {
        let i = self.ensure_entry(asset);
        let ghost entries1 = self.asset_to_balance@;
        proof {
            lemma_seq_bal_at(entries1, i as int);
        }
        let mut b = self.asset_to_balance[i].1;
        b.consume_locked(amount);
        self.asset_to_balance[i].1 = b;
        proof {
            self.lemma_after_entry_update(entries1, i as int, b);
        }
    }

    /// Adds funds of `asset`. Other assets are untouched.
    pub fn add_balance(&mut self, asset: &String, amount: u64)
        requires
            old(self).wf(),
            old(self).bal(asset@).balance + amount <= u64::MAX,
        ensures
            final(self).wf(),
            final(self).bal(asset@) == (AssetBalance {
                balance: (old(self).bal(asset@).balance + amount) as u64,
                ..old(self).bal(asset@)
            }),
            forall|a: Seq<char>| a != asset@ ==> final(self).bal(a) == old(self).bal(a),
    {
        let i = self.ensure_entry(asset);
        let ghost entries1 = self.asset_to_balance@;
        proof {
            lemma_seq_bal_at(entries1, i as int);
        }
        let mut b = self.asset_to_balance[i].1;
        b.add_balance(amount);
        self.asset_to_balance[i].1 = b;
        proof {
            self.lemma_after_entry_update(entries1, i as int, b);
        }
    }

    /// Adds funds of `asset`, capping at the largest representable
    /// amount. Other assets are untouched.
    pub fn add_balance_capped(&mut self, asset: &String, amount: u64)
        requires
            old(self).wf(),
        ensures
            final(self).wf(),
            final(self).bal(asset@) == (AssetBalance {
                balance: crate::stats::sat_add(old(self).bal(asset@).balance, amount),
                ..old(self).bal(asset@)
            }),
            forall|a: Seq<char>| a != asset@ ==> final(self).bal(a) == old(self).bal(a),
    {
        let i = self.ensure_entry(asset);
        let ghost entries1 = self.asset_to_balance@;
        proof {
            lemma_seq_bal_at(entries1, i as int);
        }
        let mut b = self.asset_to_balance[i].1;
        b.balance = crate::stats::sat_add_exec(b.balance, amount);
        self.asset_to_balance[i].1 = b;
        proof {
            self.lemma_after_entry_update(entries1, i as int, b);
        }
    }

    /// Releases a reservation on `asset` as far as one is held: the lock
    /// shrinks by `amount`, but never below zero.
    pub fn unlock_balance_capped(&mut self, asset: &String, amount: u64)
        requires
            old(self).wf(),
        ensures
            final(self).wf(),
            final(self).bal(asset@) == (AssetBalance {
                locked: if amount <= old(self).bal(asset@).locked {
                    (old(self).bal(asset@).locked - amount) as u64
                } else {
                    0
                },
                ..old(self).bal(asset@)
            }),
            forall|a: Seq<char>| a != asset@ ==> final(self).bal(a) == old(self).bal(a),
    {
        let i = self.ensure_entry(asset);
        let ghost entries1 = self.asset_to_balance@;
        proof {
            lemma_seq_bal_at(entries1, i as int);
        }
        let mut b = self.asset_to_balance[i].1;
        if amount <= b.locked {
            b.locked = b.locked - amount;
        } else {
            b.locked = 0;
        }
        self.asset_to_balance[i].1 = b;
        proof {
            self.lemma_after_entry_update(entries1, i as int, b);
        }
    }

    /// Spends reserved funds of `asset` as far as the reservation goes:
    /// balance and lock both shrink by the smaller of `amount` and the
    /// lock held.
    pub fn consume_locked_capped(&mut self, asset: &String, amount: u64)
        requires
            old(self).wf(),
        ensures
            final(self).wf(),
            final(self).bal(asset@) == ({
                let d: u64 = if amount <= old(self).bal(asset@).locked {
                    amount
                } else {
                    old(self).bal(asset@).locked
                };
                AssetBalance {
                    balance: (old(self).bal(asset@).balance - d) as u64,
                    locked: (old(self).bal(asset@).locked - d) as u64,
                }
            }),
            forall|a: Seq<char>| a != asset@ ==> final(self).bal(a) == old(self).bal(a),
    {
        let i = self.ensure_entry(asset);
        let ghost entries1 = self.asset_to_balance@;
        proof {
            lemma_seq_bal_at(entries1, i as int);
        }
        let mut b = self.asset_to_balance[i].1;
        let d = if amount <= b.locked {
            amount
        } else {
            b.locked
        };
        b.locked = b.locked - d;
        b.balance = b.balance - d;
        self.asset_to_balance[i].1 = b;
        proof {
            self.lemma_after_entry_update(entries1, i as int, b);
        }
    }

    /// After writing balance `b` into the entry at `i`, the holdings of
    /// that entry's asset are `b` and every other asset is unchanged.
    proof fn lemma_after_entry_update(
        &self,
        entries1: Seq<(String, AssetBalance)>,
        i: int,
        b: AssetBalance,
    )
        requires
            forall|k: int, j: int| 0 <= k < j < entries1.len() ==> entries1[k].0@ != entries1[j].0@,
            forall|k: int| 0 <= k < entries1.len() ==> (#[trigger] entries1[k].1).wf(),
            0 <= i < entries1.len(),
            b.wf(),
            self.asset_to_balance@ == entries1.update(i, (entries1[i].0, b)),
        ensures
            self.wf(),
            self.bal(entries1[i].0@) == b,
            forall|a: Seq<char>| a != entries1[i].0@ ==> self.bal(a) == seq_bal(entries1, a),
    {
        assert forall|a: Seq<char>| #[trigger]
            self.bal(a) == if entries1[i].0@ == a {
                b
            } else {
                seq_bal(entries1, a)
            } by {
            lemma_seq_bal_update(entries1, i, b, a);
        }
        assert forall|k: int, j: int|
            0 <= k < j < self.asset_to_balance@.len() implies self.asset_to_balance@[k].0@
            != self.asset_to_balance@[j].0@ by {
            assert(self.asset_to_balance@[k].0 == entries1[k].0);
            assert(self.asset_to_balance@[j].0 == entries1[j].0);
        }
        assert forall|k: int|
            0 <= k < self.asset_to_balance@.len() implies (#[trigger] self.asset_to_balance@[k].1).wf() by {
            if k != i {
                assert(self.asset_to_balance@[k].1 == entries1[k].1);
            }
        }
    }
}

/// For every asset in a well-formed account, the locked part never
/// exceeds the balance held.
pub proof fn lemma_locked_within_balance(acc: Account, asset: Seq<char>)
    requires
        acc.wf(),
    ensures
        acc.bal(asset).locked <= acc.bal(asset).balance,
{
    lemma_seq_bal_wf(acc.asset_to_balance@, asset);
}

proof fn lemma_seq_bal_wf(entries: Seq<(String, AssetBalance)>, asset: Seq<char>)
    requires
        forall|k: int| 0 <= k < entries.len() ==> (#[trigger] entries[k].1).wf(),
    ensures
        seq_bal(entries, asset).wf(),
    decreases entries.len(),
{
    if entries.len() > 0 && entries.last().0@ != asset {
        lemma_seq_bal_wf(entries.drop_last(), asset);
    }
}

} // verus!
