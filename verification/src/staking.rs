use crate::{AccountId, Balance, DispatchError, EraIndex};
use vstd::prelude::*;

verus! {

/// The consensus/staking collaborator, modelled by exactly what this system
/// reads of it: the pool's bonding ledger, the era counter it advances on its
/// own, and the nomination set last handed to it.
pub struct StakingModel {
    /// Whether the pool account has a bonding ledger.
    pub bonded: bool,
    /// Stake actively bonded for the pool.
    pub active: Balance,
    /// Stake whose release has begun and has not been withdrawn yet.
    pub unlocking: Balance,
    /// The era the protocol currently reports, if it reports one.
    pub current_era: Option<EraIndex>,
    /// The validator targets last nominated on the pool's behalf.
    pub nominations: Vec<AccountId>,
}

impl StakingModel {
    /// The pool's total stake held by the protocol stays representable.
    pub open spec fn wf(&self) -> bool {
        self.active + self.unlocking <= Balance::MAX
    }

    pub fn new(current_era: Option<EraIndex>) -> (r: StakingModel)
        ensures
            r.wf(),
            !r.bonded,
            r.active == 0,
            r.unlocking == 0,
            r.current_era == current_era,
            r.nominations@ == Seq::<AccountId>::empty(),
    {
        StakingModel { bonded: false, active: 0, unlocking: 0, current_era, nominations: Vec::new() }
    }

    /// The era the protocol reports, if any.
    pub fn current_era(&self) -> (r: Option<EraIndex>)
        ensures
            r == self.current_era,
    {
        self.current_era
    }

    /// The protocol advancing to a new era; nothing of the pool's own state
    /// moves with it.
    pub fn set_current_era(&mut self, era: EraIndex)
        ensures
            *final(self) == (StakingModel { current_era: Some(era), ..*old(self) }),
    {
        self.current_era = Some(era);
    }

    /// Whether the pool already has a bonding ledger.
    pub fn has_bond(&self) -> (r: bool)
        ensures
            r == self.bonded,
    {
        self.bonded
    }

    /// Creates the pool's bond; fails without effect when one already exists
    /// or the protocol's stake accounting would overflow.
    pub fn bond(&mut self, amount: Balance) -> (r: Result<(), DispatchError>)
        requires
            old(self).wf(),
        ensures
            final(self).wf(),
            old(self).bonded ==> r == Err::<(), DispatchError>(DispatchError::AlreadyBonded)
                && *final(self) == *old(self),
            !old(self).bonded && old(self).active + old(self).unlocking + amount > Balance::MAX
                ==> r == Err::<(), DispatchError>(DispatchError::Arithmetic) && *final(self) == *old(self),
            !old(self).bonded && old(self).active + old(self).unlocking + amount <= Balance::MAX
                ==> r == Ok::<(), DispatchError>(()) && *final(self) == (StakingModel {
                bonded: true,
                active: (old(self).active + amount) as Balance,
                ..*old(self)
            }),
    {
        if self.bonded {
            return Err(DispatchError::AlreadyBonded);
        }
        if amount > Balance::MAX - self.active - self.unlocking {
            return Err(DispatchError::Arithmetic);
        }
        self.bonded = true;
        self.active = self.active + amount;
        Ok(())
    }

    /// Adds stake to the pool's existing bond; fails without effect when no
    /// bond exists or the protocol's stake accounting would overflow.
    pub fn bond_extra(&mut self, amount: Balance) -> (r: Result<(), DispatchError>)
        requires
            old(self).wf(),
        ensures
            final(self).wf(),
            !old(self).bonded ==> r == Err::<(), DispatchError>(DispatchError::NotBonded) && *final(self) == *old(self),
            old(self).bonded && old(self).active + old(self).unlocking + amount > Balance::MAX ==> r
                == Err::<(), DispatchError>(DispatchError::Arithmetic) && *final(self) == *old(self),
            old(self).bonded && old(self).active + old(self).unlocking + amount <= Balance::MAX
                ==> r == Ok::<(), DispatchError>(()) && *final(self) == (StakingModel {
                active: (old(self).active + amount) as Balance,
                ..*old(self)
            }),
    {
        if !self.bonded {
            return Err(DispatchError::NotBonded);
        }
        if amount > Balance::MAX - self.active - self.unlocking {
            return Err(DispatchError::Arithmetic);
        }
        self.active = self.active + amount;
        Ok(())
    }

    /// Begins releasing stake from the pool's bond; the protocol caps the
    /// amount at what is actively bonded. Fails without effect when no bond
    /// exists.
    pub fn unbond(&mut self, amount: Balance) -> (r: Result<(), DispatchError>)
        requires
            old(self).wf(),
        ensures
            final(self).wf(),
            !old(self).bonded ==> r == Err::<(), DispatchError>(DispatchError::NotBonded) && *final(self) == *old(self),
            old(self).bonded ==> r == Ok::<(), DispatchError>(()) && *final(self) == ({
                let moved = if amount > old(self).active {
                    old(self).active
                } else {
                    amount
                };
                StakingModel {
                    active: (old(self).active - moved) as Balance,
                    unlocking: (old(self).unlocking + moved) as Balance,
                    ..*old(self)
                }
            }),
    {
        if !self.bonded {
            return Err(DispatchError::NotBonded);
        }
        let moved = if amount > self.active {
            self.active
        } else {
            amount
        };
        self.active = self.active - moved;
        self.unlocking = self.unlocking + moved;
        Ok(())
    }

    /// Finalises the withdrawal of released stake; a no-op when nothing has
    /// been released.
    pub fn withdraw_unbonded(&mut self)
        requires
            old(self).wf(),
        ensures
            final(self).wf(),
            *final(self) == (StakingModel { unlocking: 0, ..*old(self) }),
    {
        self.unlocking = 0;
    }

    /// Replaces the pool's nomination set with exactly `targets`.
    pub fn nominate(&mut self, targets: Vec<AccountId>)
        requires
            old(self).wf(),
        ensures
            final(self).wf(),
            final(self).nominations@ == targets@,
            final(self).bonded == old(self).bonded,
            final(self).active == old(self).active,
            final(self).unlocking == old(self).unlocking,
            final(self).current_era == old(self).current_era,
    {
        self.nominations = targets;
    }
}

} // verus!
