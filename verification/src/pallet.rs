use crate::ledger::{AccountData, Ledger};
use crate::rate::{mul_rate, rational_inner, reciprocal_inner, MintRate};
use crate::staking::StakingModel;
use crate::store::Store;
use crate::{
    AccountId, Balance, CurrencyId, DispatchError, EraIndex, Error, Origin, LIQUID_CURRENCY_ID,
    STAKING_CURRENCY_ID,
};
use vstd::prelude::*;

verus! {

/// Static configuration of the system, fixed at construction.
#[derive(Clone, Copy, Debug, PartialEq, Eq, Structural)]
pub struct Config {
    /// The derived account that holds the pooled stake.
    pub pot_account: AccountId,
    /// Rate used whenever no rate can be computed from live state; must be
    /// strictly positive.
    pub default_mint_rate: MintRate,
    /// Minimum stake deposit that mints liquid currency.
    pub bond_threshold: Balance,
    /// Minimum liquid amount for unstaking staked currency.
    pub unbond_threshold: Balance,
    /// How many validators a nomination set may name at most.
    pub max_validator_count: u32,
    /// Eras to wait between an unbonding request and its withdrawal.
    pub unbond_wait: EraIndex,
}

/// A domain event recorded by a completed operation.
#[derive(Debug, PartialEq, Eq)]
pub enum Event {
    BondAndMint(Balance, AccountId),
    RequestUnbond(Balance, AccountId),
    Withdraw(AccountId),
    Voted(AccountId, AccountId, Balance),
    NominationsApplied(Vec<AccountId>),
}

/// One staker's pending unbonding request: the stake owed, the liquid amount
/// held in custody, and the era the request was made.
pub type UnbondingRequest = (Balance, Balance, EraIndex);

/// The liquid-staking system: its own storage, and the modelled state of the
/// ledger and consensus collaborators it instructs.
pub struct Pallet {
    pub config: Config,
    pub ledger: Ledger,
    pub staking: StakingModel,
    /// Liquid units minted by this system and not yet burned.
    pub total_liquid_issuance: Balance,
    /// At most one pending unbonding request per staker.
    pub unbonding_requests: Store<UnbondingRequest>,
    /// Accumulated liquid-weighted votes per validator target.
    pub liquid_vote_count: Store<Balance>,
    /// The liquid amount each voter has committed to their current vote.
    pub voters: Store<Balance>,
    /// Every event emitted so far, oldest first.
    pub events: Vec<Event>,
    /// All liquid units ever minted by this system.
    pub total_minted: Ghost<int>,
    /// All liquid units ever burned by this system.
    pub total_burned: Ghost<int>,
}

/// The mint rate derived from a liquid issuance and a pot balance: their
/// ratio, or the default wherever that ratio cannot be computed or would not
/// be a usable (strictly positive, representable) rate.
pub open spec fn spec_rate_of(
    total_liquid: Balance,
    total_staking: Balance,
    default_inner: Balance,
) -> Balance {
    if total_liquid == 0 || total_staking == 0 {
        default_inner
    } else {
        let r = rational_inner(total_liquid as int, total_staking as int);
        if r == 0 || r > Balance::MAX as int {
            default_inner
        } else {
            r as Balance
        }
    }
}

/// The account that signed an operation; meaningful only for signed origins.
pub open spec fn signer_of(origin: Origin) -> AccountId {
    match origin {
        Origin::Signed(s) => s,
        Origin::Root => 0,
    }
}

/// The pot's staking balance once the deposit transfer of `bond_and_mint`
/// has settled.
pub open spec fn bond_pot_staking(pre: Pallet, staker: AccountId, amount: Balance) -> int {
    if staker == pre.config.pot_account {
        pre.ledger.staking_free(staker) as int
    } else {
        pre.ledger.staking_free(pre.config.pot_account) + amount
    }
}

/// The rate in force for a deposit of `amount` by `staker`: the transfer
/// into the pot settles before the conversion, so the pot balance already
/// includes the deposit.
pub open spec fn bond_rate(pre: Pallet, staker: AccountId, amount: Balance) -> Balance {
    spec_rate_of(
        pre.total_liquid_issuance,
        bond_pot_staking(pre, staker, amount) as Balance,
        pre.config.default_mint_rate.inner,
    )
}

/// The exact number of liquid units a deposit of `amount` by `staker` mints.
pub open spec fn bond_liquid(pre: Pallet, staker: AccountId, amount: Balance) -> int {
    mul_rate(bond_rate(pre, staker, amount) as int, amount as int)
}

/// Whether `bond_and_mint` succeeds, and with which error it fails first.
pub open spec fn bond_outcome(pre: Pallet, origin: Origin, amount: Balance) -> Result<
    (),
    DispatchError,
> {
    match origin {
        Origin::Root => Err(DispatchError::BadOrigin),
        Origin::Signed(staker) => {
            let pot = pre.config.pot_account;
            if amount < pre.config.bond_threshold {
                Err(DispatchError::Module(Error::BelowBondThreshold))
            } else if pre.ledger.staking_free(staker) < amount {
                Err(DispatchError::InsufficientBalance)
            } else if staker != pot && pre.ledger.staking_free(pot) + amount > Balance::MAX {
                Err(DispatchError::Arithmetic)
            } else {
                let liquid = bond_liquid(pre, staker, amount);
                if liquid > Balance::MAX as int {
                    Err(DispatchError::Arithmetic)
                } else if pre.ledger.liquid_free(staker) + pre.ledger.liquid_reserved(staker)
                    + liquid > Balance::MAX || pre.ledger.liquid_issuance + liquid > Balance::MAX {
                    Err(DispatchError::Arithmetic)
                } else if pre.total_liquid_issuance + liquid > Balance::MAX {
                    Err(DispatchError::Arithmetic)
                } else if pre.staking.active + pre.staking.unlocking + amount > Balance::MAX {
                    Err(DispatchError::Arithmetic)
                } else {
                    Ok(())
                }
            }
        },
    }
}

/// Whether `vote` succeeds, and with which error it fails first. A re-vote
/// releases the voter's previous lock, so the amount available to lock is
/// the free balance plus the lock being replaced.
pub open spec fn vote_outcome(
    pre: Pallet,
    origin: Origin,
    target: AccountId,
    liquid_amount: Balance,
) -> Result<(), DispatchError> {
    match origin {
        Origin::Root => Err(DispatchError::BadOrigin),
        Origin::Signed(voter) => {
            if pre.ledger.liquid_free(voter) + pre.lock_of(voter) < liquid_amount {
                Err(DispatchError::InsufficientBalance)
            } else if pre.tally_of(target) + liquid_amount > Balance::MAX {
                Err(DispatchError::Arithmetic)
            } else {
                Ok(())
            }
        },
    }
}

/// The exact stake owed for unbonding `liquid_amount` at the reciprocal of
/// the rate in force when the request is made.
pub open spec fn unbond_stake(pre: Pallet, liquid_amount: Balance) -> int {
    mul_rate(reciprocal_inner(pre.spec_current_rate() as int), liquid_amount as int)
}

/// Whether `request_unbond` succeeds, and with which error it fails first.
pub open spec fn request_unbond_outcome(
    pre: Pallet,
    origin: Origin,
    liquid_amount: Balance,
) -> Result<(), DispatchError> {
    match origin {
        Origin::Root => Err(DispatchError::BadOrigin),
        Origin::Signed(who) => {
            let pot = pre.config.pot_account;
            if pre.unbonding_requests@.contains_key(who) {
                Err(DispatchError::Module(Error::UnclaimedRedeemRequestAlreadyExist))
            } else if pre.staking.current_era is None {
                Err(DispatchError::Module(Error::CurrentEraNotSet))
            } else if pre.ledger.liquid_free(who) < liquid_amount {
                Err(DispatchError::InsufficientBalance)
            } else if who != pot && pre.ledger.liquid_free(pot) + pre.ledger.liquid_reserved(pot)
                + liquid_amount > Balance::MAX {
                Err(DispatchError::Arithmetic)
            } else if unbond_stake(pre, liquid_amount) > Balance::MAX as int {
                Err(DispatchError::Arithmetic)
            } else if !pre.staking.bonded {
                Err(DispatchError::NotBonded)
            } else {
                Ok(())
            }
        },
    }
}

/// Whether `withdraw_unbonded` succeeds, and with which error it fails
/// first.
pub open spec fn withdraw_outcome(pre: Pallet, origin: Origin) -> Result<(), DispatchError> {
    match origin {
        Origin::Root => Err(DispatchError::BadOrigin),
        Origin::Signed(who) => {
            let pot = pre.config.pot_account;
            if !pre.unbonding_requests@.contains_key(who) {
                Err(DispatchError::Module(Error::UnbondingRequestNotExist))
            } else {
                let req = pre.unbonding_requests@[who];
                match pre.staking.current_era {
                    None => Err(DispatchError::Module(Error::CurrentEraNotSet)),
                    Some(now) => {
                        if req.2 + pre.config.unbond_wait > now {
                            Err(DispatchError::Module(Error::UnbondingWaitNotComplete))
                        } else if pre.ledger.liquid_free(pot) < req.1 {
                            Err(DispatchError::InsufficientBalance)
                        } else if pre.ledger.liquid_issuance < req.1 {
                            Err(DispatchError::Arithmetic)
                        } else if pre.ledger.staking_free(pot) < req.0 {
                            Err(DispatchError::InsufficientBalance)
                        } else if who != pot && pre.ledger.staking_free(who) + req.0 > Balance::MAX {
                            Err(DispatchError::Arithmetic)
                        } else if pre.total_liquid_issuance < req.1 {
                            Err(DispatchError::Arithmetic)
                        } else {
                            Ok(())
                        }
                    },
                }
            }
        },
    }
}

/// Whether some entry before position `k` of a drained table carries
/// account `a`.
pub open spec fn among_first(s: Seq<(AccountId, Balance)>, k: int, a: AccountId) -> bool {
    exists|j: int| 0 <= j < k && s[j].0 == a
}

/// The balances of `a` once `who`'s matured request for `stake` staked units
/// against `liquid` liquid units has been paid out: the liquid custody burns
/// in the pot and the stake returns to `who`.
pub open spec fn withdraw_acct(
    pre: Pallet,
    who: AccountId,
    stake: Balance,
    liquid: Balance,
    a: AccountId,
) -> AccountData {
    let pot = pre.config.pot_account;
    let d = pre.ledger.acct(a);
    if who == pot {
        if a == pot {
            AccountData { liquid_free: (d.liquid_free - liquid) as Balance, ..d }
        } else {
            d
        }
    } else {
        if a == pot {
            AccountData {
                liquid_free: (d.liquid_free - liquid) as Balance,
                staking_free: (d.staking_free - stake) as Balance,
                ..d
            }
        } else if a == who {
            AccountData { staking_free: (d.staking_free + stake) as Balance, ..d }
        } else {
            d
        }
    }
}

/// The balances of `a` once `staker`'s deposit of `amount` has settled and
/// minted `liquid`.
pub open spec fn bond_acct(
    pre: Pallet,
    staker: AccountId,
    amount: Balance,
    liquid: Balance,
    a: AccountId,
) -> AccountData {
    let mid = crate::ledger::staking_moved(pre.ledger, staker, pre.config.pot_account, amount, a);
    if a == staker {
        AccountData { liquid_free: (mid.liquid_free + liquid) as Balance, ..mid }
    } else {
        mid
    }
}

impl Pallet {
    /// Everything the operations preserve: well-formed components, a strictly
    /// positive default rate, voting reservations that mirror the recorded
    /// locks exactly, and an issuance counter that equals mints minus burns.
    pub open spec fn wf(&self) -> bool {
        &&& self.ledger.wf()
        &&& self.staking.wf()
        &&& self.unbonding_requests.wf()
        &&& self.liquid_vote_count.wf()
        &&& self.voters.wf()
        &&& self.config.default_mint_rate.inner > 0
        &&& forall|a: AccountId| #[trigger] self.ledger.liquid_reserved(a) == self.lock_of(a)
        &&& self.total_liquid_issuance == self.total_minted@ - self.total_burned@
        &&& 0 <= self.total_burned@
    }

    /// The liquid amount `a` has locked behind their current vote.
    pub open spec fn lock_of(&self, a: AccountId) -> Balance {
        if self.voters@.contains_key(a) {
            self.voters@[a]
        } else {
            0
        }
    }

    /// The accumulated vote weight recorded for target `t`.
    pub open spec fn tally_of(&self, t: AccountId) -> Balance {
        if self.liquid_vote_count@.contains_key(t) {
            self.liquid_vote_count@[t]
        } else {
            0
        }
    }

    /// The rate the exchange engine reports for the current state.
    pub open spec fn spec_current_rate(&self) -> Balance {
        spec_rate_of(
            self.total_liquid_issuance,
            self.ledger.staking_free(self.config.pot_account),
            self.config.default_mint_rate.inner,
        )
    }

    /// A fresh system around empty collaborator state; the consensus protocol
    /// may or may not already report an era.
    pub fn new(config: Config, initial_era: Option<EraIndex>) -> (r: Pallet)
        requires
            config.default_mint_rate.inner > 0,
        ensures
            r.wf(),
            r.config == config,
            r.total_liquid_issuance == 0,
            r.staking.current_era == initial_era,
            !r.staking.bonded,
            r.staking.nominations@ == Seq::<AccountId>::empty(),
            r.unbonding_requests@ == Map::<AccountId, UnbondingRequest>::empty(),
            r.liquid_vote_count@ == Map::<AccountId, Balance>::empty(),
            r.voters@ == Map::<AccountId, Balance>::empty(),
            r.events@ == Seq::<Event>::empty(),
            forall|a: AccountId| #[trigger] r.ledger.acct(a) == AccountData::empty_spec(),
            r.ledger.staking_issuance == 0,
            r.ledger.liquid_issuance == 0,
            r.total_minted@ == 0,
            r.total_burned@ == 0,
    {
        Pallet {
            config,
            ledger: Ledger::new(),
            staking: StakingModel::new(initial_era),
            total_liquid_issuance: 0,
            unbonding_requests: Store::new(),
            liquid_vote_count: Store::new(),
            voters: Store::new(),
            events: Vec::new(),
            total_minted: Ghost(0),
            total_burned: Ghost(0),
        }
    }

    /// Endows `who` with `amount` of `currency` at genesis, outside this
    /// system's own issuance accounting.
    pub fn genesis_deposit(&mut self, who: AccountId, currency: CurrencyId, amount: Balance) -> (r:
        Result<(), DispatchError>)
        requires
            old(self).wf(),
        ensures
            final(self).wf(),
            ({
                let pre = *old(self);
                let post = *final(self);
                &&& post.config == pre.config
                &&& post.staking == pre.staking
                &&& post.total_liquid_issuance == pre.total_liquid_issuance
                &&& post.unbonding_requests == pre.unbonding_requests
                &&& post.liquid_vote_count == pre.liquid_vote_count
                &&& post.voters == pre.voters
                &&& post.events == pre.events
                &&& post.total_minted == pre.total_minted
                &&& post.total_burned == pre.total_burned
                &&& if currency == STAKING_CURRENCY_ID {
                    if pre.ledger.staking_free(who) + amount > Balance::MAX
                        || pre.ledger.staking_issuance + amount > Balance::MAX {
                        r == Err::<(), DispatchError>(DispatchError::Arithmetic) && post.ledger
                            == pre.ledger
                    } else {
                        &&& r == Ok::<(), DispatchError>(())
                        &&& post.ledger.staking_issuance == pre.ledger.staking_issuance + amount
                        &&& post.ledger.liquid_issuance == pre.ledger.liquid_issuance
                        &&& forall|b: AccountId| #[trigger]
                            post.ledger.acct(b) == if b == who {
                                AccountData {
                                    staking_free: (pre.ledger.staking_free(who) + amount) as Balance,
                                    ..pre.ledger.acct(who)
                                }
                            } else {
                                pre.ledger.acct(b)
                            }
                    }
                } else if currency == LIQUID_CURRENCY_ID {
                    if pre.ledger.liquid_free(who) + pre.ledger.liquid_reserved(who) + amount
                        > Balance::MAX || pre.ledger.liquid_issuance + amount > Balance::MAX {
                        r == Err::<(), DispatchError>(DispatchError::Arithmetic) && post.ledger
                            == pre.ledger
                    } else {
                        &&& r == Ok::<(), DispatchError>(())
                        &&& post.ledger.staking_issuance == pre.ledger.staking_issuance
                        &&& post.ledger.liquid_issuance == pre.ledger.liquid_issuance + amount
                        &&& forall|b: AccountId| #[trigger]
                            post.ledger.acct(b) == if b == who {
                                AccountData {
                                    liquid_free: (pre.ledger.liquid_free(who) + amount) as Balance,
                                    ..pre.ledger.acct(who)
                                }
                            } else {
                                pre.ledger.acct(b)
                            }
                    }
                } else {
                    r == Err::<(), DispatchError>(DispatchError::UnknownCurrency) && post.ledger
                        == pre.ledger
                }
            }),
    {
        let r = if currency == STAKING_CURRENCY_ID {
            self.ledger.deposit_staking(who, amount)
        } else if currency == LIQUID_CURRENCY_ID {
            self.ledger.deposit_liquid(who, amount)
        } else {
            return Err(DispatchError::UnknownCurrency);
        };
        proof {
            assert forall|a: AccountId| #[trigger]
                self.ledger.liquid_reserved(a) == self.lock_of(a) by {
                assert(old(self).ledger.liquid_reserved(a) == old(self).lock_of(a));
            }
        }
        r
    }

    /// The consensus protocol advancing to `era`.
    pub fn set_current_era(&mut self, era: EraIndex)
        requires
            old(self).wf(),
        ensures
            final(self).wf(),
            *final(self) == (Pallet {
                staking: StakingModel { current_era: Some(era), ..old(self).staking },
                ..*old(self)
            }),
    {
        self.staking.set_current_era(era);
        proof {
            assert forall|a: AccountId| #[trigger]
                self.ledger.liquid_reserved(a) == self.lock_of(a) by {
                assert(old(self).ledger.liquid_reserved(a) == old(self).lock_of(a));
            }
        }
    }

    /// The pool's derived custodial account.
    pub fn account_id(&self) -> (r: AccountId)
        ensures
            r == self.config.pot_account,
    {
        self.config.pot_account
    }

    /// The era the consensus protocol currently reports, if any.
    pub fn current_era(&self) -> (r: Option<EraIndex>)
        ensures
            r == self.staking.current_era,
    {
        self.staking.current_era()
    }

    /// Liquid units minted by this system and not yet burned.
    pub fn total_liquid_issuance(&self) -> (r: Balance)
        ensures
            r == self.total_liquid_issuance,
    {
        self.total_liquid_issuance
    }

    /// The pending unbonding request of `who`, if one is recorded.
    pub fn unbonding_requests(&self, who: AccountId) -> (r: Option<UnbondingRequest>)
        requires
            self.wf(),
        ensures
            match r {
                Some(req) => self.unbonding_requests@.contains_key(who)
                    && self.unbonding_requests@[who] == req,
                None => !self.unbonding_requests@.contains_key(who),
            },
    {
        match self.unbonding_requests.get(who) {
            Some(req) => Some(*req),
            None => None,
        }
    }

    /// The accumulated vote weight recorded for `target`; zero when none is.
    pub fn liquid_vote_count(&self, target: AccountId) -> (r: Balance)
        requires
            self.wf(),
        ensures
            r == self.tally_of(target),
    {
        match self.liquid_vote_count.get(target) {
            Some(w) => *w,
            None => 0,
        }
    }

    /// The liquid amount `who` has locked behind their current vote; zero
    /// when they have none.
    pub fn voters(&self, who: AccountId) -> (r: Balance)
        requires
            self.wf(),
        ensures
            r == self.lock_of(who),
    {
        match self.voters.get(who) {
            Some(l) => *l,
            None => 0,
        }
    }

    /// The validator targets currently nominated on the pool's behalf.
    pub fn nominations(&self) -> (r: Vec<AccountId>)
        ensures
            r@ == self.staking.nominations@,
    {
        self.staking.nominations.clone()
    }

    /// Every event emitted so far, oldest first.
    pub fn events(&self) -> (r: &Vec<Event>)
        ensures
            r@ == self.events@,
    {
        &self.events
    }

    /// The mint rate derived from `total_liquid` and `total_staking`, falling
    /// back to the configured default wherever the ratio cannot be computed
    /// or would be zero — every reported rate is strictly positive, so its
    /// reciprocal always exists.
    fn rate_from(total_liquid: Balance, total_staking: Balance, default_rate: MintRate) -> (r:
        MintRate)
        requires
            default_rate.inner > 0,
        ensures
            r.inner == spec_rate_of(total_liquid, total_staking, default_rate.inner),
            r.inner > 0,
    {
        if total_liquid == 0 || total_staking == 0 {
            default_rate
        } else {
            match MintRate::checked_from_rational(total_liquid, total_staking) {
                Some(rate) => {
                    if rate.is_zero() {
                        default_rate
                    } else {
                        rate
                    }
                },
                None => default_rate,
            }
        }
    }

    /// The conversion factor between staked and liquid units, recomputed
    /// fresh from the pot's balance and the liquid issuance.
    pub fn current_mint_rate(&self) -> (r: MintRate)
        requires
            self.wf(),
        ensures
            r.inner == self.spec_current_rate(),
            r.inner > 0,
    {
        let total_staking = self.ledger.free_balance(STAKING_CURRENCY_ID, self.config.pot_account);
        Self::rate_from(self.total_liquid_issuance, total_staking, self.config.default_mint_rate)
    }

    /// Bonds `staking_amount` of the signer's stake into the pool and mints
    /// the corresponding liquid amount to them: the stake moves to the pot,
    /// liquid currency is minted at the rate in force after that transfer,
    /// the issuance counter grows by the minted amount, and the pool's bond
    /// is created or extended. All of it happens, or none.
    pub fn bond_and_mint(&mut self, origin: Origin, staking_amount: Balance) -> (r: Result<
        (),
        DispatchError,
    >)
        requires
            old(self).wf(),
        ensures
            final(self).wf(),
            r == bond_outcome(*old(self), origin, staking_amount),
            r is Err ==> *final(self) == *old(self),
            r is Ok ==> ({
                let pre = *old(self);
                let post = *final(self);
                let staker = signer_of(origin);
                let liquid = bond_liquid(pre, staker, staking_amount) as Balance;
                &&& post.config == pre.config
                &&& forall|b: AccountId| #[trigger]
                    post.ledger.acct(b) == bond_acct(pre, staker, staking_amount, liquid, b)
                &&& post.ledger.staking_issuance == pre.ledger.staking_issuance
                &&& post.ledger.liquid_issuance == pre.ledger.liquid_issuance + liquid
                &&& post.total_liquid_issuance == pre.total_liquid_issuance + liquid
                &&& post.staking == (StakingModel {
                    bonded: true,
                    active: (pre.staking.active + staking_amount) as Balance,
                    ..pre.staking
                })
                &&& post.unbonding_requests == pre.unbonding_requests
                &&& post.liquid_vote_count == pre.liquid_vote_count
                &&& post.voters == pre.voters
                &&& post.events@ == pre.events@.push(Event::BondAndMint(staking_amount, staker))
                &&& post.total_minted@ == pre.total_minted@ + liquid
                &&& post.total_burned@ == pre.total_burned@
            }),
    {
        let ghost pre = *self;
        let staker = match origin {
            Origin::Signed(s) => s,
            Origin::Root => {
                return Err(DispatchError::BadOrigin);
            },
        };
        if staking_amount < self.config.bond_threshold {
            return Err(DispatchError::Module(Error::BelowBondThreshold));
        }
        let pot = self.config.pot_account;
        if self.ledger.free_balance(STAKING_CURRENCY_ID, staker) < staking_amount {
            return Err(DispatchError::InsufficientBalance);
        }
        let pot_staking = self.ledger.free_balance(STAKING_CURRENCY_ID, pot);
        let pot_after = if staker == pot {
            pot_staking
        } else {
            match pot_staking.checked_add(staking_amount) {
                Some(v) => v,
                None => {
                    return Err(DispatchError::Arithmetic);
                },
            }
        };
        let rate = Self::rate_from(
            self.total_liquid_issuance,
            pot_after,
            self.config.default_mint_rate,
        );
        let liquid = match rate.checked_mul_int(staking_amount) {
            Some(l) => l,
            None => {
                return Err(DispatchError::Arithmetic);
            },
        };
        let staker_acct = self.ledger.account(staker);
        if liquid > (Balance::MAX - staker_acct.liquid_free) - staker_acct.liquid_reserved {
            return Err(DispatchError::Arithmetic);
        }
        if liquid > Balance::MAX - self.ledger.liquid_issuance {
            return Err(DispatchError::Arithmetic);
        }
        let new_issuance = match self.total_liquid_issuance.checked_add(liquid) {
            Some(v) => v,
            None => {
                return Err(DispatchError::Arithmetic);
            },
        };
        if staking_amount > (Balance::MAX - self.staking.active) - self.staking.unlocking {
            return Err(DispatchError::Arithmetic);
        }
        let _transferred = self.ledger.transfer_staking(staker, pot, staking_amount);
        let ghost mid1 = self.ledger;
        let _minted = self.ledger.deposit_liquid(staker, liquid);
        let ghost mid2 = self.ledger;
        self.total_liquid_issuance = new_issuance;
        let _bonded = if self.staking.has_bond() {
            self.staking.bond_extra(staking_amount)
        } else {
            self.staking.bond(staking_amount)
        };
        self.events.push(Event::BondAndMint(staking_amount, staker));
        self.total_minted = Ghost(self.total_minted@ + liquid as int);
        proof {
            assert forall|b: AccountId| #[trigger]
                self.ledger.acct(b) == bond_acct(pre, staker, staking_amount, liquid, b) by {
                assert(mid1.acct(b) == crate::ledger::staking_moved(
                    pre.ledger,
                    staker,
                    pot,
                    staking_amount,
                    b,
                ));
                assert(mid1.acct(staker) == crate::ledger::staking_moved(
                    pre.ledger,
                    staker,
                    pot,
                    staking_amount,
                    staker,
                ));
                assert(mid2.acct(b) == if b == staker {
                    AccountData {
                        liquid_free: (mid1.liquid_free(staker) + liquid) as Balance,
                        ..mid1.acct(staker)
                    }
                } else {
                    mid1.acct(b)
                });
                assert(self.ledger == mid2);
            }
            assert forall|a: AccountId| #[trigger]
                self.ledger.liquid_reserved(a) == self.lock_of(a) by {
                assert(self.ledger.acct(a) == bond_acct(pre, staker, staking_amount, liquid, a));
                assert(pre.ledger.liquid_reserved(a) == pre.lock_of(a));
            }
        }
        Ok(())
    }

    /// Locks `liquid_amount` of the signer's liquid balance behind a vote
    /// for `target`: the amount joins the target's tally, and it replaces
    /// whatever lock the voter held before — the old lock is released, the
    /// new amount reserved, and the voter's lock record overwritten.
    pub fn vote(&mut self, origin: Origin, target: AccountId, liquid_amount: Balance) -> (r: Result<
        (),
        DispatchError,
    >)
        requires
            old(self).wf(),
        ensures
            final(self).wf(),
            r == vote_outcome(*old(self), origin, target, liquid_amount),
            r is Err ==> *final(self) == *old(self),
            r is Ok ==> ({
                let pre = *old(self);
                let post = *final(self);
                let voter = signer_of(origin);
                &&& post.config == pre.config
                &&& forall|b: AccountId| #[trigger]
                    post.ledger.acct(b) == if b == voter {
                        AccountData {
                            liquid_free: (pre.ledger.liquid_free(voter) + pre.lock_of(voter)
                                - liquid_amount) as Balance,
                            liquid_reserved: liquid_amount,
                            ..pre.ledger.acct(voter)
                        }
                    } else {
                        pre.ledger.acct(b)
                    }
                &&& post.ledger.staking_issuance == pre.ledger.staking_issuance
                &&& post.ledger.liquid_issuance == pre.ledger.liquid_issuance
                &&& post.liquid_vote_count@ == pre.liquid_vote_count@.insert(
                    target,
                    (pre.tally_of(target) + liquid_amount) as Balance,
                )
                &&& post.voters@ == pre.voters@.insert(voter, liquid_amount)
                &&& post.staking == pre.staking
                &&& post.total_liquid_issuance == pre.total_liquid_issuance
                &&& post.unbonding_requests == pre.unbonding_requests
                &&& post.events@ == pre.events@.push(Event::Voted(voter, target, liquid_amount))
                &&& post.total_minted@ == pre.total_minted@
                &&& post.total_burned@ == pre.total_burned@
            }),
    {
        let ghost pre = *self;
        let voter = match origin {
            Origin::Signed(v) => v,
            Origin::Root => {
                return Err(DispatchError::BadOrigin);
            },
        };
        let old_lock = self.voters(voter);
        let free = self.ledger.free_balance(LIQUID_CURRENCY_ID, voter);
        proof {
            assert(self.ledger.liquid_reserved(voter) == self.lock_of(voter));
        }
        let available = free + old_lock;
        if available < liquid_amount {
            return Err(DispatchError::InsufficientBalance);
        }
        let current_tally = self.liquid_vote_count(target);
        let new_tally = match current_tally.checked_add(liquid_amount) {
            Some(v) => v,
            None => {
                return Err(DispatchError::Arithmetic);
            },
        };
        let _released = self.ledger.unreserve_liquid(voter, old_lock);
        let ghost mid1 = self.ledger;
        let _reserved = self.ledger.reserve_liquid(voter, liquid_amount);
        let ghost mid2 = self.ledger;
        self.liquid_vote_count.set(target, new_tally);
        self.voters.set(voter, liquid_amount);
        self.events.push(Event::Voted(voter, target, liquid_amount));
        proof {
            assert forall|b: AccountId| #[trigger]
                self.ledger.acct(b) == if b == voter {
                    AccountData {
                        liquid_free: (pre.ledger.liquid_free(voter) + pre.lock_of(voter)
                            - liquid_amount) as Balance,
                        liquid_reserved: liquid_amount,
                        ..pre.ledger.acct(voter)
                    }
                } else {
                    pre.ledger.acct(b)
                } by {
                assert(mid1.acct(b) == if b == voter {
                    AccountData {
                        liquid_free: (pre.ledger.liquid_free(voter) + old_lock) as Balance,
                        liquid_reserved: 0,
                        ..pre.ledger.acct(voter)
                    }
                } else {
                    pre.ledger.acct(b)
                });
                assert(mid1.acct(voter) == AccountData {
                    liquid_free: (pre.ledger.liquid_free(voter) + old_lock) as Balance,
                    liquid_reserved: 0,
                    ..pre.ledger.acct(voter)
                });
                assert(mid2.acct(b) == if b == voter {
                    AccountData {
                        liquid_free: (mid1.liquid_free(voter) - liquid_amount) as Balance,
                        liquid_reserved: (mid1.liquid_reserved(voter) + liquid_amount) as Balance,
                        ..mid1.acct(voter)
                    }
                } else {
                    mid1.acct(b)
                });
                assert(self.ledger == mid2);
            }
            assert forall|a: AccountId| #[trigger]
                self.ledger.liquid_reserved(a) == self.lock_of(a) by {
                assert(pre.ledger.liquid_reserved(a) == pre.lock_of(a));
            }
        }
        Ok(())
    }

    /// Applies the era's votes, callable only by the governing authority:
    /// nominates the top `min(MaxValidatorCount, targets)` tallied targets —
    /// ordered by weight descending, ties broken by target identifier
    /// ascending — clears the tally entirely, and releases every voter's
    /// lock.
    #[verifier::loop_isolation(false)]
    pub fn apply_votes(&mut self, origin: Origin) -> (r: Result<(), DispatchError>)
        requires
            old(self).wf(),
        ensures
            final(self).wf(),
            origin != Origin::Root ==> r == Err::<(), DispatchError>(DispatchError::BadOrigin)
                && *final(self) == *old(self),
            origin == Origin::Root ==> r == Ok::<(), DispatchError>(()) && ({
                let pre = *old(self);
                let post = *final(self);
                let m = pre.liquid_vote_count@;
                let sel = post.staking.nominations@;
                &&& post.config == pre.config
                &&& post.liquid_vote_count@ == Map::<AccountId, Balance>::empty()
                &&& post.voters@ == Map::<AccountId, Balance>::empty()
                &&& sel.len() == if (pre.config.max_validator_count as int) < m.dom().len() {
                    pre.config.max_validator_count as int
                } else {
                    m.dom().len() as int
                }
                &&& forall|i: int| 0 <= i < sel.len() ==> m.dom().contains(#[trigger] sel[i])
                &&& forall|i: int, j: int|
                    0 <= i < j < sel.len() ==> crate::ranking::ranks_before(
                        (sel[i], m[sel[i]]),
                        (sel[j], m[sel[j]]),
                    )
                &&& forall|i: int, k: AccountId|
                    #![trigger sel[i], m.dom().contains(k)]
                    0 <= i < sel.len() && m.dom().contains(k) && !sel.contains(k)
                        ==> crate::ranking::ranks_before((sel[i], m[sel[i]]), (k, m[k]))
                &&& forall|b: AccountId| #[trigger]
                    post.ledger.acct(b) == (AccountData {
                        liquid_free: (pre.ledger.liquid_free(b) + pre.lock_of(b)) as Balance,
                        liquid_reserved: 0,
                        ..pre.ledger.acct(b)
                    })
                &&& post.ledger.staking_issuance == pre.ledger.staking_issuance
                &&& post.ledger.liquid_issuance == pre.ledger.liquid_issuance
                &&& post.staking.bonded == pre.staking.bonded
                &&& post.staking.active == pre.staking.active
                &&& post.staking.unlocking == pre.staking.unlocking
                &&& post.staking.current_era == pre.staking.current_era
                &&& post.total_liquid_issuance == pre.total_liquid_issuance
                &&& post.unbonding_requests == pre.unbonding_requests
                &&& post.events@.len() == pre.events@.len() + 1
                &&& forall|i: int| 0 <= i < pre.events@.len() ==> post.events@[i] == pre.events@[i]
                &&& (post.events@.last() matches Event::NominationsApplied(ts) && ts@ == sel)
                &&& post.total_minted@ == pre.total_minted@
                &&& post.total_burned@ == pre.total_burned@
            }),
    {
        let ghost pre = *self;
        match origin {
            Origin::Root => {},
            Origin::Signed(_) => {
                return Err(DispatchError::BadOrigin);
            },
        }
        let ghost m = pre.liquid_vote_count@;
        let votes = self.liquid_vote_count.take_entries();
        let sorted = crate::ranking::sort_by_rank(&votes);
        proof {
            broadcast use vstd::seq_lib::group_to_multiset_ensures;

            crate::ranking::lemma_permutation_keys_distinct(votes@, sorted@);
            assert forall|q: int| 0 <= q < sorted@.len() implies m.contains_key(
                #[trigger] sorted@[q].0,
            ) && m[sorted@[q].0] == sorted@[q].1 by {
                assert(sorted@.contains(sorted@[q]));
                assert(sorted@.to_multiset().count(sorted@[q]) > 0);
                assert(votes@.to_multiset().count(sorted@[q]) > 0);
                assert(votes@.contains(sorted@[q]));
                let p = choose|p: int| 0 <= p < votes@.len() && votes@[p] == sorted@[q];
                assert(m.contains_key(votes@[p].0) && m[votes@[p].0] == votes@[p].1);
            }
            assert forall|k: AccountId| #[trigger] m.contains_key(k) implies sorted@.contains(
                (k, m[k]),
            ) by {
                let p = choose|p: int| 0 <= p < votes@.len() && votes@[p].0 == k;
                assert(m.contains_key(votes@[p].0) && m[votes@[p].0] == votes@[p].1);
                assert(votes@[p] == (k, m[k]));
                assert(votes@.contains((k, m[k])));
                assert(votes@.to_multiset().count((k, m[k])) > 0);
                assert(sorted@.to_multiset().count((k, m[k])) > 0);
            }
        }
        let max = self.config.max_validator_count as usize;
        let n = if max < sorted.len() {
            max
        } else {
            sorted.len()
        };
        let mut targets: Vec<AccountId> = Vec::new();
        let mut i: usize = 0;
        while i < n
            invariant
                0 <= i <= n,
                n <= sorted@.len(),
                targets@.len() == i,
                forall|p: int| 0 <= p < i ==> targets@[p] == sorted@[p].0,
            decreases n - i,
        {
            let t = sorted[i].0;
            targets.push(t);
            i += 1;
        }
        let ghost sel = targets@;
        let emitted = targets.clone();
        proof {
            assert(emitted@ =~= sel);
        }
        self.staking.nominate(targets);
        let ghost voters0 = self.voters;
        let locks = self.voters.take_entries();
        let ghost staking_mid = self.staking;
        let mut k: usize = 0;
        while k < locks.len()
            invariant
                0 <= k <= locks@.len(),
                self.ledger.wf(),
                self.config == pre.config,
                self.staking == staking_mid,
                self.total_liquid_issuance == pre.total_liquid_issuance,
                self.unbonding_requests == pre.unbonding_requests,
                self.liquid_vote_count@ == Map::<AccountId, Balance>::empty(),
                self.liquid_vote_count.wf(),
                self.voters@ == Map::<AccountId, Balance>::empty(),
                self.voters.wf(),
                self.events@ == pre.events@,
                self.total_minted == pre.total_minted,
                self.total_burned == pre.total_burned,
                self.ledger.staking_issuance == pre.ledger.staking_issuance,
                self.ledger.liquid_issuance == pre.ledger.liquid_issuance,
                forall|a: AccountId| #[trigger]
                    self.ledger.acct(a) == if among_first(locks@, k as int, a) {
                        AccountData {
                            liquid_free: (pre.ledger.liquid_free(a) + pre.lock_of(a)) as Balance,
                            liquid_reserved: 0,
                            ..pre.ledger.acct(a)
                        }
                    } else {
                        pre.ledger.acct(a)
                    },
            decreases locks@.len() - k,
        {
            let (voter, amount) = locks[k];
            proof {
                assert(locks@[k as int].0 == voter);
                assert(!among_first(locks@, k as int, voter));
                assert(voters0@.contains_key(locks@[k as int].0) && voters0@[locks@[k as int].0]
                    == locks@[k as int].1);
                assert(voters0@ == pre.voters@);
                assert(pre.voters@.contains_key(voter) && pre.voters@[voter] == amount);
                assert(pre.ledger.liquid_reserved(voter) == pre.lock_of(voter));
                assert(self.ledger.acct(voter) == pre.ledger.acct(voter));
            }
            let ghost led_before = self.ledger;
            let _leftover = self.ledger.unreserve_liquid(voter, amount);
            proof {
                assert forall|a: AccountId| #[trigger]
                    self.ledger.acct(a) == if among_first(locks@, k + 1, a) {
                        AccountData {
                            liquid_free: (pre.ledger.liquid_free(a) + pre.lock_of(a)) as Balance,
                            liquid_reserved: 0,
                            ..pre.ledger.acct(a)
                        }
                    } else {
                        pre.ledger.acct(a)
                    } by {
                    assert(led_before.acct(a) == if among_first(locks@, k as int, a) {
                        AccountData {
                            liquid_free: (pre.ledger.liquid_free(a) + pre.lock_of(a)) as Balance,
                            liquid_reserved: 0,
                            ..pre.ledger.acct(a)
                        }
                    } else {
                        pre.ledger.acct(a)
                    });
                    assert(led_before.acct(voter) == pre.ledger.acct(voter));
                    if a == voter {
                        assert(among_first(locks@, k + 1, voter));
                    } else {
                        assert(among_first(locks@, k + 1, a) == among_first(locks@, k as int, a));
                    }
                }
            }
            k += 1;
        }
        let ghost led_done = self.ledger;
        proof {
            assert forall|a: AccountId| #[trigger]
                led_done.acct(a) == (AccountData {
                    liquid_free: (pre.ledger.liquid_free(a) + pre.lock_of(a)) as Balance,
                    liquid_reserved: 0,
                    ..pre.ledger.acct(a)
                }) by {
                assert(self.ledger.acct(a) == led_done.acct(a));
                if !among_first(locks@, locks@.len() as int, a) {
                    assert(voters0@ == pre.voters@);
                    if pre.voters@.contains_key(a) {
                        assert(voters0@.contains_key(a));
                        let ii = choose|ii: int| 0 <= ii < locks@.len() && locks@[ii].0 == a;
                        assert(among_first(locks@, locks@.len() as int, a));
                    }
                    assert(pre.lock_of(a) == 0);
                    assert(pre.ledger.liquid_reserved(a) == pre.lock_of(a));
                }
            }
        }
        self.events.push(Event::NominationsApplied(emitted));
        proof {
            assert(self.ledger == led_done);
            assert forall|b: AccountId| #[trigger]
                self.ledger.acct(b) == (AccountData {
                    liquid_free: (pre.ledger.liquid_free(b) + pre.lock_of(b)) as Balance,
                    liquid_reserved: 0,
                    ..pre.ledger.acct(b)
                }) by {
                assert(led_done.acct(b) == (AccountData {
                    liquid_free: (pre.ledger.liquid_free(b) + pre.lock_of(b)) as Balance,
                    liquid_reserved: 0,
                    ..pre.ledger.acct(b)
                }));
            }
            assert(sorted@.len() == m.dom().len());
            assert forall|i2: int, j2: int| 0 <= i2 < j2 < sel.len() implies
                crate::ranking::ranks_before((sel[i2], m[sel[i2]]), (sel[j2], m[sel[j2]])) by {
                assert(sel[i2] == sorted@[i2].0 && sel[j2] == sorted@[j2].0);
                assert(crate::ranking::ranks_at_or_before(sorted@[i2], sorted@[j2]));
                assert(sorted@[i2].0 != sorted@[j2].0);
                assert(m[sel[i2]] == sorted@[i2].1 && m[sel[j2]] == sorted@[j2].1);
            }
            assert forall|i2: int, k2: AccountId|
                0 <= i2 < sel.len() && m.dom().contains(k2) && !sel.contains(k2) implies
                crate::ranking::ranks_before((sel[i2], m[sel[i2]]), (k2, m[k2])) by {
                assert(sorted@.contains((k2, m[k2])));
                let q = choose|q: int| 0 <= q < sorted@.len() && sorted@[q] == (k2, m[k2]);
                assert(q >= sel.len()) by {
                    if q < sel.len() {
                        assert(sel[q] == sorted@[q].0);
                        assert(sel[q] == k2);
                        assert(sel.contains(k2));
                    }
                }
                assert(sel[i2] == sorted@[i2].0);
                assert(m[sel[i2]] == sorted@[i2].1);
                assert(crate::ranking::ranks_at_or_before(sorted@[i2], sorted@[q]));
                assert(sorted@[i2].0 != k2) by {
                    if sorted@[i2].0 == k2 {
                        assert(sel.contains(k2));
                    }
                }
            }
            assert forall|a: AccountId| #[trigger]
                self.ledger.liquid_reserved(a) == self.lock_of(a) by {
                assert(self.ledger.acct(a) == (AccountData {
                    liquid_free: (pre.ledger.liquid_free(a) + pre.lock_of(a)) as Balance,
                    liquid_reserved: 0,
                    ..pre.ledger.acct(a)
                }));
            }
        }
        Ok(())
    }

    /// Begins unbonding: the signer hands `liquid_amount` of liquid currency
    /// into the pot's custody (to be burned only at withdrawal), the stake
    /// equivalent at the current rate is recorded together with the current
    /// era, and the protocol is instructed to start releasing that stake.
    /// Only one request may be pending per staker.
    pub fn request_unbond(&mut self, origin: Origin, liquid_amount: Balance) -> (r: Result<
        (),
        DispatchError,
    >)
        requires
            old(self).wf(),
        ensures
            final(self).wf(),
            r == request_unbond_outcome(*old(self), origin, liquid_amount),
            r is Err ==> *final(self) == *old(self),
            r is Ok ==> ({
                let pre = *old(self);
                let post = *final(self);
                let who = signer_of(origin);
                let stake = unbond_stake(pre, liquid_amount) as Balance;
                let moved = if stake > pre.staking.active {
                    pre.staking.active
                } else {
                    stake
                };
                &&& post.config == pre.config
                &&& forall|b: AccountId| #[trigger]
                    post.ledger.acct(b) == crate::ledger::liquid_moved(
                        pre.ledger,
                        who,
                        pre.config.pot_account,
                        liquid_amount,
                        b,
                    )
                &&& post.ledger.staking_issuance == pre.ledger.staking_issuance
                &&& post.ledger.liquid_issuance == pre.ledger.liquid_issuance
                &&& post.unbonding_requests@ == pre.unbonding_requests@.insert(
                    who,
                    (stake, liquid_amount, pre.staking.current_era->0),
                )
                &&& post.staking == (StakingModel {
                    active: (pre.staking.active - moved) as Balance,
                    unlocking: (pre.staking.unlocking + moved) as Balance,
                    ..pre.staking
                })
                &&& post.total_liquid_issuance == pre.total_liquid_issuance
                &&& post.liquid_vote_count == pre.liquid_vote_count
                &&& post.voters == pre.voters
                &&& post.events@ == pre.events@.push(Event::RequestUnbond(liquid_amount, who))
                &&& post.total_minted@ == pre.total_minted@
                &&& post.total_burned@ == pre.total_burned@
            }),
    {
        let ghost pre = *self;
        let who = match origin {
            Origin::Signed(s) => s,
            Origin::Root => {
                return Err(DispatchError::BadOrigin);
            },
        };
        if self.unbonding_requests.contains_key(who) {
            return Err(DispatchError::Module(Error::UnclaimedRedeemRequestAlreadyExist));
        }
        let current_era = match self.staking.current_era() {
            Some(e) => e,
            None => {
                return Err(DispatchError::Module(Error::CurrentEraNotSet));
            },
        };
        let pot = self.config.pot_account;
        if self.ledger.free_balance(LIQUID_CURRENCY_ID, who) < liquid_amount {
            return Err(DispatchError::InsufficientBalance);
        }
        if who != pot {
            let pot_acct = self.ledger.account(pot);
            if liquid_amount > (Balance::MAX - pot_acct.liquid_free) - pot_acct.liquid_reserved {
                return Err(DispatchError::Arithmetic);
            }
        }
        let staking_amount = match self.liquid_to_staking(liquid_amount) {
            Ok(s) => s,
            Err(e) => {
                return Err(e);
            },
        };
        if !self.staking.has_bond() {
            return Err(DispatchError::NotBonded);
        }
        let _custody = self.ledger.transfer_liquid(who, pot, liquid_amount);
        self.unbonding_requests.set(who, (staking_amount, liquid_amount, current_era));
        let _unbonded = self.staking.unbond(staking_amount);
        self.events.push(Event::RequestUnbond(liquid_amount, who));
        proof {
            assert forall|a: AccountId| #[trigger]
                self.ledger.liquid_reserved(a) == self.lock_of(a) by {
                assert(self.ledger.acct(a) == crate::ledger::liquid_moved(
                    pre.ledger,
                    who,
                    pot,
                    liquid_amount,
                    a,
                ));
                assert(pre.ledger.liquid_reserved(a) == pre.lock_of(a));
            }
        }
        Ok(())
    }

    /// Pays out the signer's matured unbonding request: after the configured
    /// wait has elapsed, the protocol's released stake is collected, the
    /// liquid custody is burned, the recorded stake returns to the staker,
    /// the issuance counter shrinks by the burned amount, and the request is
    /// deleted.
    pub fn withdraw_unbonded(&mut self, origin: Origin) -> (r: Result<(), DispatchError>)
        requires
            old(self).wf(),
        ensures
            final(self).wf(),
            r == withdraw_outcome(*old(self), origin),
            r is Err ==> *final(self) == *old(self),
            r is Ok ==> ({
                let pre = *old(self);
                let post = *final(self);
                let who = signer_of(origin);
                let req = pre.unbonding_requests@[who];
                &&& post.config == pre.config
                &&& forall|b: AccountId| #[trigger]
                    post.ledger.acct(b) == withdraw_acct(pre, who, req.0, req.1, b)
                &&& post.ledger.staking_issuance == pre.ledger.staking_issuance
                &&& post.ledger.liquid_issuance == pre.ledger.liquid_issuance - req.1
                &&& post.unbonding_requests@ == pre.unbonding_requests@.remove(who)
                &&& post.staking == (StakingModel { unlocking: 0, ..pre.staking })
                &&& post.total_liquid_issuance == pre.total_liquid_issuance - req.1
                &&& post.liquid_vote_count == pre.liquid_vote_count
                &&& post.voters == pre.voters
                &&& post.events@ == pre.events@.push(Event::Withdraw(who))
                &&& post.total_minted@ == pre.total_minted@
                &&& post.total_burned@ == pre.total_burned@ + req.1
            }),
    {
        let ghost pre = *self;
        let who = match origin {
            Origin::Signed(s) => s,
            Origin::Root => {
                return Err(DispatchError::BadOrigin);
            },
        };
        let req = match self.unbonding_requests.get(who) {
            Some(r) => *r,
            None => {
                return Err(DispatchError::Module(Error::UnbondingRequestNotExist));
            },
        };
        let (stake_amount, liquid_amount, old_era) = req;
        let now = match self.staking.current_era() {
            Some(e) => e,
            None => {
                return Err(DispatchError::Module(Error::CurrentEraNotSet));
            },
        };
        if (old_era as u64) + (self.config.unbond_wait as u64) > (now as u64) {
            return Err(DispatchError::Module(Error::UnbondingWaitNotComplete));
        }
        let pot = self.config.pot_account;
        let pot_acct = self.ledger.account(pot);
        if pot_acct.liquid_free < liquid_amount {
            return Err(DispatchError::InsufficientBalance);
        }
        if self.ledger.liquid_issuance < liquid_amount {
            return Err(DispatchError::Arithmetic);
        }
        if pot_acct.staking_free < stake_amount {
            return Err(DispatchError::InsufficientBalance);
        }
        if who != pot {
            let who_acct = self.ledger.account(who);
            if stake_amount > Balance::MAX - who_acct.staking_free {
                return Err(DispatchError::Arithmetic);
            }
        }
        let new_issuance = match self.total_liquid_issuance.checked_sub(liquid_amount) {
            Some(v) => v,
            None => {
                return Err(DispatchError::Arithmetic);
            },
        };
        self.staking.withdraw_unbonded();
        let _burned = self.ledger.withdraw_liquid(pot, liquid_amount);
        let ghost mid1 = self.ledger;
        let _returned = self.ledger.transfer_staking(pot, who, stake_amount);
        let ghost mid2 = self.ledger;
        self.total_liquid_issuance = new_issuance;
        self.unbonding_requests.remove(who);
        self.events.push(Event::Withdraw(who));
        self.total_burned = Ghost(self.total_burned@ + liquid_amount as int);
        proof {
            assert forall|b: AccountId| #[trigger]
                self.ledger.acct(b) == withdraw_acct(pre, who, stake_amount, liquid_amount, b) by {
                assert(mid1.acct(b) == if b == pot {
                    AccountData {
                        liquid_free: (pre.ledger.liquid_free(pot) - liquid_amount) as Balance,
                        ..pre.ledger.acct(pot)
                    }
                } else {
                    pre.ledger.acct(b)
                });
                assert(mid1.acct(pot) == AccountData {
                    liquid_free: (pre.ledger.liquid_free(pot) - liquid_amount) as Balance,
                    ..pre.ledger.acct(pot)
                });
                assert(mid2.acct(b) == crate::ledger::staking_moved(
                    mid1,
                    pot,
                    who,
                    stake_amount,
                    b,
                ));
                assert(mid2.acct(pot) == crate::ledger::staking_moved(
                    mid1,
                    pot,
                    who,
                    stake_amount,
                    pot,
                ));
                assert(mid2.acct(who) == crate::ledger::staking_moved(
                    mid1,
                    pot,
                    who,
                    stake_amount,
                    who,
                ));
                assert(self.ledger == mid2);
            }
            assert forall|a: AccountId| #[trigger]
                self.ledger.liquid_reserved(a) == self.lock_of(a) by {
                assert(self.ledger.acct(a) == withdraw_acct(
                    pre,
                    who,
                    stake_amount,
                    liquid_amount,
                    a,
                ));
                assert(pre.ledger.liquid_reserved(a) == pre.lock_of(a));
            }
        }
        Ok(())
    }

    /// Converts a staked amount into liquid units at the current rate,
    /// rounding down; fails exactly when the result does not fit the balance
    /// width.
    pub fn staking_to_liquid(&self, staking_amount: Balance) -> (r: Result<Balance, DispatchError>)
        requires
            self.wf(),
        ensures
            ({
                let exact = mul_rate(self.spec_current_rate() as int, staking_amount as int);
                if exact <= Balance::MAX as int {
                    r == Ok::<Balance, DispatchError>(exact as Balance)
                } else {
                    r == Err::<Balance, DispatchError>(DispatchError::Arithmetic)
                }
            }),
    {
        match self.current_mint_rate().checked_mul_int(staking_amount) {
            Some(liquid) => Ok(liquid),
            None => Err(DispatchError::Arithmetic),
        }
    }

    /// Converts a liquid amount into staked units at the reciprocal of the
    /// current rate, rounding down; fails exactly when the result does not
    /// fit the balance width.
    pub fn liquid_to_staking(&self, liquid_amount: Balance) -> (r: Result<Balance, DispatchError>)
        requires
            self.wf(),
        ensures
            ({
                let exact = mul_rate(
                    reciprocal_inner(self.spec_current_rate() as int),
                    liquid_amount as int,
                );
                if exact <= Balance::MAX as int {
                    r == Ok::<Balance, DispatchError>(exact as Balance)
                } else {
                    r == Err::<Balance, DispatchError>(DispatchError::Arithmetic)
                }
            }),
    {
        let rate = self.current_mint_rate();
        let recip = match rate.reciprocal() {
            Some(recip) => recip,
            None => {
                return Err(DispatchError::Arithmetic);
            },
        };
        match recip.checked_mul_int(liquid_amount) {
            Some(staking) => Ok(staking),
            None => Err(DispatchError::Arithmetic),
        }
    }
}

} // verus!
