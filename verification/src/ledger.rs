use crate::store::Store;
use crate::{AccountId, Balance, CurrencyId, DispatchError, LIQUID_CURRENCY_ID, STAKING_CURRENCY_ID};
use vstd::prelude::*;

verus! {

/// What the ledger holds for one account: free balances of both currencies
/// and the liquid amount currently reserved for voting.
#[derive(Clone, Copy, Debug, PartialEq, Eq, Structural)]
pub struct AccountData {
    pub staking_free: Balance,
    pub liquid_free: Balance,
    pub liquid_reserved: Balance,
}

impl AccountData {
    /// The balances of an account the ledger has never touched.
    pub open spec fn empty_spec() -> AccountData {
        AccountData { staking_free: 0, liquid_free: 0, liquid_reserved: 0 }
    }
}

/// The multi-currency ledger collaborator, modelled as per-account balances
/// plus the tracked total issuance of each currency.
pub struct Ledger {
    pub accounts: Store<AccountData>,
    pub staking_issuance: Balance,
    pub liquid_issuance: Balance,
}

/// The balances of `a` after moving `amount` of staking currency from `from`
/// to `to`.
pub open spec fn staking_moved(
    pre: Ledger,
    from: AccountId,
    to: AccountId,
    amount: Balance,
    a: AccountId,
) -> AccountData {
    if from == to {
        pre.acct(a)
    } else if a == from {
        AccountData { staking_free: (pre.staking_free(from) - amount) as Balance, ..pre.acct(from) }
    } else if a == to {
        AccountData { staking_free: (pre.staking_free(to) + amount) as Balance, ..pre.acct(to) }
    } else {
        pre.acct(a)
    }
}

/// The balances of `a` after moving `amount` of liquid currency from `from`'s
/// free balance to `to`'s.
pub open spec fn liquid_moved(
    pre: Ledger,
    from: AccountId,
    to: AccountId,
    amount: Balance,
    a: AccountId,
) -> AccountData {
    if from == to {
        pre.acct(a)
    } else if a == from {
        AccountData { liquid_free: (pre.liquid_free(from) - amount) as Balance, ..pre.acct(from) }
    } else if a == to {
        AccountData { liquid_free: (pre.liquid_free(to) + amount) as Balance, ..pre.acct(to) }
    } else {
        pre.acct(a)
    }
}

impl Ledger {
    /// The account table holds each account once, and no account's liquid
    /// holdings (free plus reserved) exceed the balance width.
    pub open spec fn wf(&self) -> bool {
        &&& self.accounts.wf()
        &&& forall|a: AccountId|
            #[trigger] self.acct(a).liquid_free + self.acct(a).liquid_reserved <= Balance::MAX
    }

    /// The balances recorded for `a`; an untouched account holds nothing.
    pub open spec fn acct(&self, a: AccountId) -> AccountData {
        if self.accounts@.contains_key(a) {
            self.accounts@[a]
        } else {
            AccountData::empty_spec()
        }
    }

    pub open spec fn staking_free(&self, a: AccountId) -> Balance {
        self.acct(a).staking_free
    }

    pub open spec fn liquid_free(&self, a: AccountId) -> Balance {
        self.acct(a).liquid_free
    }

    pub open spec fn liquid_reserved(&self, a: AccountId) -> Balance {
        self.acct(a).liquid_reserved
    }

    /// The recorded free balance of `currency`, zero for a currency the
    /// ledger does not track.
    pub open spec fn spec_free_balance(&self, currency: CurrencyId, a: AccountId) -> Balance {
        if currency == STAKING_CURRENCY_ID {
            self.staking_free(a)
        } else if currency == LIQUID_CURRENCY_ID {
            self.liquid_free(a)
        } else {
            0
        }
    }

    /// The recorded reserved balance of `currency`; only the liquid currency
    /// can be reserved.
    pub open spec fn spec_reserved_balance(&self, currency: CurrencyId, a: AccountId) -> Balance {
        if currency == LIQUID_CURRENCY_ID {
            self.liquid_reserved(a)
        } else {
            0
        }
    }

    /// The tracked total issuance of `currency`.
    pub open spec fn spec_total_issuance(&self, currency: CurrencyId) -> Balance {
        if currency == STAKING_CURRENCY_ID {
            self.staking_issuance
        } else if currency == LIQUID_CURRENCY_ID {
            self.liquid_issuance
        } else {
            0
        }
    }

    pub fn new() -> (r: Ledger)
        ensures
            r.wf(),
            forall|a: AccountId| #[trigger] r.acct(a) == AccountData::empty_spec(),
            r.staking_issuance == 0,
            r.liquid_issuance == 0,
    {
        Ledger { accounts: Store::new(), staking_issuance: 0, liquid_issuance: 0 }
    }

    /// The balances recorded for `a`, as the ledger reports them.
    pub fn account(&self, a: AccountId) -> (r: AccountData)
        requires
            self.wf(),
        ensures
            r == self.acct(a),
    {
        match self.accounts.get(a) {
            Some(d) => *d,
            None => AccountData { staking_free: 0, liquid_free: 0, liquid_reserved: 0 },
        }
    }

    pub fn free_balance(&self, currency: CurrencyId, a: AccountId) -> (r: Balance)
        requires
            self.wf(),
        ensures
            r == self.spec_free_balance(currency, a),
    {
        let d = self.account(a);
        if currency == STAKING_CURRENCY_ID {
            d.staking_free
        } else if currency == LIQUID_CURRENCY_ID {
            d.liquid_free
        } else {
            0
        }
    }

    pub fn reserved_balance(&self, currency: CurrencyId, a: AccountId) -> (r: Balance)
        requires
            self.wf(),
        ensures
            r == self.spec_reserved_balance(currency, a),
    {
        if currency == LIQUID_CURRENCY_ID {
            self.account(a).liquid_reserved
        } else {
            0
        }
    }

    pub fn total_issuance(&self, currency: CurrencyId) -> (r: Balance)
        requires
            self.wf(),
        ensures
            r == self.spec_total_issuance(currency),
    {
        if currency == STAKING_CURRENCY_ID {
            self.staking_issuance
        } else if currency == LIQUID_CURRENCY_ID {
            self.liquid_issuance
        } else {
            0
        }
    }

    fn set_acct(&mut self, a: AccountId, d: AccountData)
        requires
            old(self).accounts.wf(),
        ensures
            final(self).accounts.wf(),
            forall|b: AccountId| #[trigger]
                final(self).acct(b) == if b == a {
                    d
                } else {
                    old(self).acct(b)
                },
            final(self).staking_issuance == old(self).staking_issuance,
            final(self).liquid_issuance == old(self).liquid_issuance,
    {
        self.accounts.set(a, d);
    }

    /// Moves `amount` of staking currency from `from` to `to`; fails without
    /// effect when `from` holds less, or when the receiver's balance would
    /// overflow.
    pub fn transfer_staking(&mut self, from: AccountId, to: AccountId, amount: Balance) -> (r:
        Result<(), DispatchError>)
        requires
            old(self).wf(),
        ensures
            final(self).wf(),
            ({
                let pre = *old(self);
                let post = *final(self);
                if pre.staking_free(from) < amount {
                    r == Err::<(), DispatchError>(DispatchError::InsufficientBalance) && post == pre
                } else if from != to && pre.staking_free(to) + amount > Balance::MAX {
                    r == Err::<(), DispatchError>(DispatchError::Arithmetic) && post == pre
                } else {
                    &&& r == Ok::<(), DispatchError>(())
                    &&& post.staking_issuance == pre.staking_issuance
                    &&& post.liquid_issuance == pre.liquid_issuance
                    &&& forall|b: AccountId| #[trigger]
                        post.acct(b) == staking_moved(pre, from, to, amount, b)
                }
            }),
    {
        let from_d = self.account(from);
        if from_d.staking_free < amount {
            return Err(DispatchError::InsufficientBalance);
        }
        if from == to {
            return Ok(());
        }
        let to_d = self.account(to);
        match to_d.staking_free.checked_add(amount) {
            None => Err(DispatchError::Arithmetic),
            Some(new_to) => {
                self.set_acct(
                    from,
                    AccountData { staking_free: from_d.staking_free - amount, ..from_d },
                );
                self.set_acct(to, AccountData { staking_free: new_to, ..to_d });
                Ok(())
            },
        }
    }

    /// Moves `amount` of liquid currency from `from`'s free balance to `to`'s;
    /// fails without effect when `from` holds less, or when the receiver's
    /// liquid holdings would overflow.
    pub fn transfer_liquid(&mut self, from: AccountId, to: AccountId, amount: Balance) -> (r:
        Result<(), DispatchError>)
        requires
            old(self).wf(),
        ensures
            final(self).wf(),
            ({
                let pre = *old(self);
                let post = *final(self);
                if pre.liquid_free(from) < amount {
                    r == Err::<(), DispatchError>(DispatchError::InsufficientBalance) && post == pre
                } else if from != to && pre.liquid_free(to) + pre.liquid_reserved(to) + amount
                    > Balance::MAX {
                    r == Err::<(), DispatchError>(DispatchError::Arithmetic) && post == pre
                } else {
                    &&& r == Ok::<(), DispatchError>(())
                    &&& post.staking_issuance == pre.staking_issuance
                    &&& post.liquid_issuance == pre.liquid_issuance
                    &&& forall|b: AccountId| #[trigger]
                        post.acct(b) == liquid_moved(pre, from, to, amount, b)
                }
            }),
    {
        let from_d = self.account(from);
        if from_d.liquid_free < amount {
            return Err(DispatchError::InsufficientBalance);
        }
        if from == to {
            return Ok(());
        }
        let to_d = self.account(to);
        let headroom = (Balance::MAX - to_d.liquid_free) - to_d.liquid_reserved;
        if amount > headroom {
            return Err(DispatchError::Arithmetic);
        }
        self.set_acct(from, AccountData { liquid_free: from_d.liquid_free - amount, ..from_d });
        self.set_acct(to, AccountData { liquid_free: to_d.liquid_free + amount, ..to_d });
        Ok(())
    }

    /// Mints `amount` of liquid currency into `to`'s free balance; fails
    /// without effect when the account or the tracked issuance would overflow.
    pub fn deposit_liquid(&mut self, to: AccountId, amount: Balance) -> (r: Result<
        (),
        DispatchError,
    >)
        requires
            old(self).wf(),
        ensures
            final(self).wf(),
            ({
                let pre = *old(self);
                let post = *final(self);
                if pre.liquid_free(to) + pre.liquid_reserved(to) + amount > Balance::MAX
                    || pre.liquid_issuance + amount > Balance::MAX {
                    r == Err::<(), DispatchError>(DispatchError::Arithmetic) && post == pre
                } else {
                    &&& r == Ok::<(), DispatchError>(())
                    &&& post.staking_issuance == pre.staking_issuance
                    &&& post.liquid_issuance == pre.liquid_issuance + amount
                    &&& forall|b: AccountId| #[trigger]
                        post.acct(b) == if b == to {
                            AccountData {
                                liquid_free: (pre.liquid_free(to) + amount) as Balance,
                                ..pre.acct(to)
                            }
                        } else {
                            pre.acct(b)
                        }
                }
            }),
    {
        let to_d = self.account(to);
        let headroom = (Balance::MAX - to_d.liquid_free) - to_d.liquid_reserved;
        if amount > headroom {
            return Err(DispatchError::Arithmetic);
        }
        match self.liquid_issuance.checked_add(amount) {
            None => Err(DispatchError::Arithmetic),
            Some(new_issuance) => {
                self.liquid_issuance = new_issuance;
                self.set_acct(to, AccountData { liquid_free: to_d.liquid_free + amount, ..to_d });
                proof {
                    assert forall|a: AccountId| #[trigger] self.acct(a).liquid_free + self.acct(
                        a,
                    ).liquid_reserved <= Balance::MAX by {
                        assert(old(self).acct(a).liquid_free + old(self).acct(a).liquid_reserved
                            <= Balance::MAX);
                    }
                }
                Ok(())
            },
        }
    }

    /// Mints `amount` of staking currency into `to`'s free balance; fails
    /// without effect when the account or the tracked issuance would overflow.
    pub fn deposit_staking(&mut self, to: AccountId, amount: Balance) -> (r: Result<
        (),
        DispatchError,
    >)
        requires
            old(self).wf(),
        ensures
            final(self).wf(),
            ({
                let pre = *old(self);
                let post = *final(self);
                if pre.staking_free(to) + amount > Balance::MAX || pre.staking_issuance + amount
                    > Balance::MAX {
                    r == Err::<(), DispatchError>(DispatchError::Arithmetic) && post == pre
                } else {
                    &&& r == Ok::<(), DispatchError>(())
                    &&& post.staking_issuance == pre.staking_issuance + amount
                    &&& post.liquid_issuance == pre.liquid_issuance
                    &&& forall|b: AccountId| #[trigger]
                        post.acct(b) == if b == to {
                            AccountData {
                                staking_free: (pre.staking_free(to) + amount) as Balance,
                                ..pre.acct(to)
                            }
                        } else {
                            pre.acct(b)
                        }
                }
            }),
    {
        let to_d = self.account(to);
        if amount > Balance::MAX - to_d.staking_free {
            return Err(DispatchError::Arithmetic);
        }
        match self.staking_issuance.checked_add(amount) {
            None => Err(DispatchError::Arithmetic),
            Some(new_issuance) => {
                self.staking_issuance = new_issuance;
                self.set_acct(to, AccountData { staking_free: to_d.staking_free + amount, ..to_d });
                proof {
                    assert forall|a: AccountId| #[trigger] self.acct(a).liquid_free + self.acct(
                        a,
                    ).liquid_reserved <= Balance::MAX by {
                        assert(old(self).acct(a).liquid_free + old(self).acct(a).liquid_reserved
                            <= Balance::MAX);
                    }
                }
                Ok(())
            },
        }
    }

    /// Burns `amount` of liquid currency from `from`'s free balance; fails
    /// without effect when `from` holds less.
    pub fn withdraw_liquid(&mut self, from: AccountId, amount: Balance) -> (r: Result<
        (),
        DispatchError,
    >)
        requires
            old(self).wf(),
        ensures
            final(self).wf(),
            ({
                let pre = *old(self);
                let post = *final(self);
                if pre.liquid_free(from) < amount {
                    r == Err::<(), DispatchError>(DispatchError::InsufficientBalance) && post == pre
                } else if pre.liquid_issuance < amount {
                    r == Err::<(), DispatchError>(DispatchError::Arithmetic) && post == pre
                } else {
                    &&& r == Ok::<(), DispatchError>(())
                    &&& post.staking_issuance == pre.staking_issuance
                    &&& post.liquid_issuance == pre.liquid_issuance - amount
                    &&& forall|b: AccountId| #[trigger]
                        post.acct(b) == if b == from {
                            AccountData {
                                liquid_free: (pre.liquid_free(from) - amount) as Balance,
                                ..pre.acct(from)
                            }
                        } else {
                            pre.acct(b)
                        }
                }
            }),
    {
        let from_d = self.account(from);
        if from_d.liquid_free < amount {
            return Err(DispatchError::InsufficientBalance);
        }
        if self.liquid_issuance < amount {
            return Err(DispatchError::Arithmetic);
        }
        self.liquid_issuance = self.liquid_issuance - amount;
        self.set_acct(from, AccountData { liquid_free: from_d.liquid_free - amount, ..from_d });
        proof {
            assert forall|a: AccountId| #[trigger] self.acct(a).liquid_free + self.acct(
                a,
            ).liquid_reserved <= Balance::MAX by {
                assert(old(self).acct(a).liquid_free + old(self).acct(a).liquid_reserved
                    <= Balance::MAX);
            }
        }
        Ok(())
    }

    /// Places a hold on `amount` of `who`'s free liquid balance; fails
    /// without effect when the free balance is smaller.
    pub fn reserve_liquid(&mut self, who: AccountId, amount: Balance) -> (r: Result<
        (),
        DispatchError,
    >)
        requires
            old(self).wf(),
        ensures
            final(self).wf(),
            ({
                let pre = *old(self);
                let post = *final(self);
                if pre.liquid_free(who) < amount {
                    r == Err::<(), DispatchError>(DispatchError::InsufficientBalance) && post == pre
                } else {
                    &&& r == Ok::<(), DispatchError>(())
                    &&& post.staking_issuance == pre.staking_issuance
                    &&& post.liquid_issuance == pre.liquid_issuance
                    &&& forall|b: AccountId| #[trigger]
                        post.acct(b) == if b == who {
                            AccountData {
                                liquid_free: (pre.liquid_free(who) - amount) as Balance,
                                liquid_reserved: (pre.liquid_reserved(who) + amount) as Balance,
                                ..pre.acct(who)
                            }
                        } else {
                            pre.acct(b)
                        }
                }
            }),
    {
        let d = self.account(who);
        if d.liquid_free < amount {
            return Err(DispatchError::InsufficientBalance);
        }
        self.set_acct(
            who,
            AccountData {
                liquid_free: d.liquid_free - amount,
                liquid_reserved: d.liquid_reserved + amount,
                ..d
            },
        );
        Ok(())
    }

    /// Releases up to `amount` of `who`'s held liquid balance back to the free
    /// balance; returns how much could not be released.
    pub fn unreserve_liquid(&mut self, who: AccountId, amount: Balance) -> (leftover: Balance)
        requires
            old(self).wf(),
        ensures
            final(self).wf(),
            ({
                let pre = *old(self);
                let post = *final(self);
                let moved = if amount > pre.liquid_reserved(who) {
                    pre.liquid_reserved(who)
                } else {
                    amount
                };
                &&& leftover == amount - moved
                &&& post.staking_issuance == pre.staking_issuance
                &&& post.liquid_issuance == pre.liquid_issuance
                &&& forall|b: AccountId| #[trigger]
                    post.acct(b) == if b == who {
                        AccountData {
                            liquid_free: (pre.liquid_free(who) + moved) as Balance,
                            liquid_reserved: (pre.liquid_reserved(who) - moved) as Balance,
                            ..pre.acct(who)
                        }
                    } else {
                        pre.acct(b)
                    }
            }),
    {
        let d = self.account(who);
        let moved = if amount > d.liquid_reserved {
            d.liquid_reserved
        } else {
            amount
        };
        self.set_acct(
            who,
            AccountData {
                liquid_free: d.liquid_free + moved,
                liquid_reserved: d.liquid_reserved - moved,
                ..d
            },
        );
        amount - moved
    }
}

} // verus!
