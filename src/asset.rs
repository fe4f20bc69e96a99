//! Fungible-asset balances: the custody side of commitments.

use vstd::prelude::*;

use crate::types::Address;

verus! {

/// Why an asset movement was refused.
#[derive(Clone, Copy, Debug, PartialEq, Eq, Structural)]
pub enum AssetError {
    /// A negative amount was given.
    InvalidAmount,
    /// The payer holds less than the amount.
    InsufficientBalance,
    /// The receiver's balance would leave the `i128` range.
    Overflow,
}

/// The balance of one holder in one asset.
#[derive(Clone, Copy, Debug, PartialEq, Eq, Structural)]
pub struct Account {
    pub asset: Address,
    pub holder: Address,
    pub balance: i128,
}

/// Balance of `holder` in `asset`: the last matching account, or zero.
pub open spec fn balance_in(accounts: Seq<Account>, asset: Address, holder: Address) -> int
    decreases accounts.len(),
{
    if accounts.len() == 0 {
        0
    } else if accounts.last().asset == asset && accounts.last().holder == holder {
        accounts.last().balance as int
    } else {
        balance_in(accounts.drop_last(), asset, holder)
    }
}

proof fn lemma_balance_at(accounts: Seq<Account>, i: int)
    requires
        0 <= i < accounts.len(),
        forall|j: int|
            0 <= j < accounts.len() && j != i ==> !(#[trigger] accounts[j].asset
                == accounts[i].asset && accounts[j].holder == accounts[i].holder),
    ensures
        balance_in(accounts, accounts[i].asset, accounts[i].holder) == accounts[i].balance,
    decreases accounts.len(),
{
    if i != accounts.len() - 1 {
        let p = accounts.drop_last();
        assert forall|j: int| 0 <= j < p.len() && j != i implies !(#[trigger] p[j].asset
            == p[i].asset && p[j].holder == p[i].holder) by {
            assert(p[j] == accounts[j]);
        }
        lemma_balance_at(p, i);
    }
}

proof fn lemma_balance_absent(accounts: Seq<Account>, asset: Address, holder: Address)
    requires
        forall|j: int|
            0 <= j < accounts.len() ==> !(#[trigger] accounts[j].asset == asset
                && accounts[j].holder == holder),
    ensures
        balance_in(accounts, asset, holder) == 0,
    decreases accounts.len(),
{
    if accounts.len() > 0 {
        let p = accounts.drop_last();
        assert forall|j: int| 0 <= j < p.len() implies !(#[trigger] p[j].asset == asset
            && p[j].holder == holder) by {
            assert(p[j] == accounts[j]);
        }
        lemma_balance_absent(p, asset, holder);
    }
}

/// Balances of every holder in every asset.
pub struct AssetBook {
    pub accounts: Vec<Account>,
}

impl AssetBook {
    /// One account per (asset, holder), none negative.
    pub open spec fn wf(&self) -> bool {
        &&& forall|i: int, j: int|
            0 <= i < self.accounts@.len() && 0 <= j < self.accounts@.len() && i != j ==> !(
            #[trigger] self.accounts@[i].asset == #[trigger] self.accounts@[j].asset
                && self.accounts@[i].holder == self.accounts@[j].holder)
        &&& forall|i: int| 0 <= i < self.accounts@.len() ==> #[trigger] self.accounts@[i].balance >= 0
    }

    pub open spec fn spec_balance(&self, asset: Address, holder: Address) -> int {
        balance_in(self.accounts@, asset, holder)
    }

    /// No balances at all.
    pub fn new() -> (r: Self)
        ensures
            r.wf(),
            forall|a: Address, h: Address| #[trigger] r.spec_balance(a, h) == 0,
    {
        let r = AssetBook { accounts: Vec::new() };
        assert forall|a: Address, h: Address| #[trigger] r.spec_balance(a, h) == 0 by {
            lemma_balance_absent(r.accounts@, a, h);
        }
        r
    }

    proof fn lemma_balance_nonneg(&self, asset: Address, holder: Address)
        requires
            self.wf(),
        ensures
            self.spec_balance(asset, holder) >= 0,
    {
        if exists|j: int|
            0 <= j < self.accounts@.len() && #[trigger] self.accounts@[j].asset == asset
                && self.accounts@[j].holder == holder {
            let j = choose|j: int|
                0 <= j < self.accounts@.len() && #[trigger] self.accounts@[j].asset == asset
                    && self.accounts@[j].holder == holder;
            lemma_balance_at(self.accounts@, j);
        } else {
            lemma_balance_absent(self.accounts@, asset, holder);
        }
    }

    /// Index of the account of `holder` in `asset`, if there is one.
    fn find(&self, asset: Address, holder: Address) -> (r: Option<usize>)
        requires
            self.wf(),
        ensures
            match r {
                Some(i) => i < self.accounts@.len() && self.accounts@[i as int].asset == asset
                    && self.accounts@[i as int].holder == holder && self.spec_balance(asset, holder)
                    == self.accounts@[i as int].balance,
                None => self.spec_balance(asset, holder) == 0 && forall|j: int|
                    0 <= j < self.accounts@.len() ==> !(#[trigger] self.accounts@[j].asset == asset
                        && self.accounts@[j].holder == holder),
            },
    {
        let mut i: usize = 0;
        while i < self.accounts.len()
            invariant
                self.wf(),
                i <= self.accounts@.len(),
                forall|j: int|
                    0 <= j < i ==> !(#[trigger] self.accounts@[j].asset == asset
                        && self.accounts@[j].holder == holder),
            decreases self.accounts@.len() - i,
        {
            if self.accounts[i].asset == asset && self.accounts[i].holder == holder {
                proof {
                    lemma_balance_at(self.accounts@, i as int);
                }
                return Some(i);
            }
            i = i + 1;
        }
        proof {
            lemma_balance_absent(self.accounts@, asset, holder);
        }
        None
    }

    /// Balance of `holder` in `asset`.
    pub fn balance(&self, asset: Address, holder: Address) -> (r: i128)
        requires
            self.wf(),
        ensures
            r == self.spec_balance(asset, holder),
    {
        match self.find(asset, holder) {
            Some(i) => self.accounts[i].balance,
            None => 0,
        }
    }

    /// Sets the balance of one account, creating it if needed.
    fn set_balance(&mut self, asset: Address, holder: Address, value: i128)
        requires
            old(self).wf(),
            value >= 0,
        ensures
            final(self).wf(),
            final(self).spec_balance(asset, holder) == value,
            forall|a: Address, h: Address|
                !(a == asset && h == holder) ==> #[trigger] final(self).spec_balance(a, h)
                    == old(self).spec_balance(a, h),
    {
        let ghost pre = self.accounts@;
        let acct = Account { asset, holder, balance: value };
        match self.find(asset, holder) {
            Some(i) => {
                self.accounts.set(i, acct);
                proof {
                    assert(self.accounts@ == pre.update(i as int, acct));
                    lemma_balance_at(self.accounts@, i as int);
                    assert forall|a: Address, h: Address|
                        !(a == asset && h == holder) implies #[trigger] self.spec_balance(a, h)
                        == balance_in(pre, a, h) by {
                        lemma_balance_other(pre, i as int, acct, a, h);
                    }
                }
            },
            None => {
                self.accounts.push(acct);
                proof {
                    assert(self.accounts@.drop_last() =~= pre);
                }
            },
        }
    }

    /// Credits `amount` of `asset` to `holder` out of nothing (issuance).
    pub fn deposit(&mut self, asset: Address, holder: Address, amount: i128) -> (r: Result<
        (),
        AssetError,
    >)
        requires
            old(self).wf(),
        ensures
            final(self).wf(),
            r == if amount < 0 {
                Err::<(), AssetError>(AssetError::InvalidAmount)
            } else if old(self).spec_balance(asset, holder) + amount > i128::MAX {
                Err(AssetError::Overflow)
            } else {
                Ok(())
            },
            r is Err ==> *final(self) == *old(self),
            r is Ok ==> final(self).spec_balance(asset, holder) == old(self).spec_balance(
                asset,
                holder,
            ) + amount,
            r is Ok ==> forall|a: Address, h: Address|
                !(a == asset && h == holder) ==> #[trigger] final(self).spec_balance(a, h)
                    == old(self).spec_balance(a, h),
    {
        if amount < 0 {
            return Err(AssetError::InvalidAmount);
        }
        let current = self.balance(asset, holder);
        proof {
            self.lemma_balance_nonneg(asset, holder);
        }
        match current.checked_add(amount) {
            Some(v) => {
                self.set_balance(asset, holder, v);
                Ok(())
            },
            None => Err(AssetError::Overflow),
        }
    }

    /// Moves `amount` of `asset` from `from` to `to`.
    pub fn transfer(&mut self, asset: Address, from: Address, to: Address, amount: i128) -> (r:
        Result<(), AssetError>)
        requires
            old(self).wf(),
        ensures
            final(self).wf(),
            r == if amount < 0 {
                Err::<(), AssetError>(AssetError::InvalidAmount)
            } else if old(self).spec_balance(asset, from) < amount {
                Err(AssetError::InsufficientBalance)
            } else if from != to && old(self).spec_balance(asset, to) + amount > i128::MAX {
                Err(AssetError::Overflow)
            } else {
                Ok(())
            },
            r is Err ==> *final(self) == *old(self),
            r is Ok && from != to ==> final(self).spec_balance(asset, from) == old(
                self,
            ).spec_balance(asset, from) - amount && final(self).spec_balance(asset, to) == old(
                self,
            ).spec_balance(asset, to) + amount,
            r is Ok ==> forall|a: Address, h: Address|
                !(a == asset && (h == from || h == to)) ==> #[trigger] final(self).spec_balance(a, h)
                    == old(self).spec_balance(a, h),
            r is Ok && from == to ==> final(self).spec_balance(asset, from) == old(
                self,
            ).spec_balance(asset, from),
    {
        if amount < 0 {
            return Err(AssetError::InvalidAmount);
        }
        let from_balance = self.balance(asset, from);
        if from_balance < amount {
            return Err(AssetError::InsufficientBalance);
        }
        if from == to {
            return Ok(());
        }
        let to_balance = self.balance(asset, to);
        proof {
            self.lemma_balance_nonneg(asset, to);
        }
        let credited = match to_balance.checked_add(amount) {
            Some(v) => v,
            None => {
                return Err(AssetError::Overflow);
            },
        };
        self.set_balance(asset, from, from_balance - amount);
        self.set_balance(asset, to, credited);
        Ok(())
    }
}

proof fn lemma_balance_other(accounts: Seq<Account>, i: int, acct: Account, a: Address, h: Address)
    requires
        0 <= i < accounts.len(),
        accounts[i].asset == acct.asset && accounts[i].holder == acct.holder,
        !(a == acct.asset && h == acct.holder),
    ensures
        balance_in(accounts.update(i, acct), a, h) == balance_in(accounts, a, h),
    decreases accounts.len(),
{
    let u = accounts.update(i, acct);
    if i == accounts.len() - 1 {
        assert(u.drop_last() =~= accounts.drop_last());
    } else {
        assert(u.drop_last() =~= accounts.drop_last().update(i, acct));
        lemma_balance_other(accounts.drop_last(), i, acct, a, h);
    }
}

} // verus!
