use liquid_staking::pallet::{Config, Event, Pallet};
use liquid_staking::rate::MintRate;
use liquid_staking::{
    DispatchError, Error, Origin, LIQUID_CURRENCY_ID, STAKING_CURRENCY_ID,
};

const POT_ACCOUNT: u64 = 9999;

fn config_with_thresholds(bond_threshold: u128) -> Config {
    Config {
        pot_account: POT_ACCOUNT,
        default_mint_rate: MintRate::checked_from_rational(10, 1).unwrap(),
        bond_threshold,
        unbond_threshold: 0,
        max_validator_count: 2,
        unbond_wait: 3,
    }
}

fn funded_pallet() -> Pallet {
    let mut p = Pallet::new(config_with_thresholds(0), Some(0));
    p.genesis_deposit(101, STAKING_CURRENCY_ID, 1000).unwrap();
    p.genesis_deposit(102, STAKING_CURRENCY_ID, 2000).unwrap();
    p
}

#[test]
fn bond_below_threshold_is_rejected() {
    let mut p = Pallet::new(config_with_thresholds(100), Some(0));
    p.genesis_deposit(101, STAKING_CURRENCY_ID, 1000).unwrap();
    assert_eq!(
        p.bond_and_mint(Origin::Signed(101), 50),
        Err(DispatchError::Module(Error::BelowBondThreshold))
    );
    assert_eq!(p.ledger.free_balance(STAKING_CURRENCY_ID, 101), 1000);
    assert_eq!(p.total_liquid_issuance(), 0);
}

#[test]
fn bond_without_funds_is_rejected() {
    let mut p = funded_pallet();
    assert_eq!(
        p.bond_and_mint(Origin::Signed(101), 5000),
        Err(DispatchError::InsufficientBalance)
    );
}

#[test]
fn bond_needs_a_signed_origin() {
    let mut p = funded_pallet();
    assert_eq!(p.bond_and_mint(Origin::Root, 200), Err(DispatchError::BadOrigin));
}

#[test]
fn apply_votes_needs_the_root_origin() {
    let mut p = funded_pallet();
    assert_eq!(p.apply_votes(Origin::Signed(101)), Err(DispatchError::BadOrigin));
}

#[test]
fn second_request_while_pending_is_rejected() {
    let mut p = funded_pallet();
    assert!(p.bond_and_mint(Origin::Signed(101), 200).is_ok());
    assert!(p.request_unbond(Origin::Signed(101), 100).is_ok());
    assert_eq!(
        p.request_unbond(Origin::Signed(101), 50),
        Err(DispatchError::Module(Error::UnclaimedRedeemRequestAlreadyExist))
    );
}

#[test]
fn request_without_known_era_is_rejected() {
    let mut p = Pallet::new(config_with_thresholds(0), None);
    p.genesis_deposit(101, STAKING_CURRENCY_ID, 1000).unwrap();
    assert!(p.bond_and_mint(Origin::Signed(101), 200).is_ok());
    assert_eq!(
        p.request_unbond(Origin::Signed(101), 100),
        Err(DispatchError::Module(Error::CurrentEraNotSet))
    );
}

#[test]
fn withdraw_without_request_is_rejected() {
    let mut p = funded_pallet();
    assert_eq!(
        p.withdraw_unbonded(Origin::Signed(101)),
        Err(DispatchError::Module(Error::UnbondingRequestNotExist))
    );
}

#[test]
fn conversion_overflow_is_surfaced() {
    let p = funded_pallet();
    // At the default rate of ten liquid per stake, this product cannot fit
    // the balance width.
    assert_eq!(p.staking_to_liquid(u128::MAX), Err(DispatchError::Arithmetic));
}

#[test]
fn genesis_deposit_rejects_unknown_currency() {
    let mut p = funded_pallet();
    assert_eq!(p.genesis_deposit(1, 3, 5), Err(DispatchError::UnknownCurrency));
}

#[test]
fn rate_follows_pool_drift() {
    let mut p = funded_pallet();
    assert!(p.bond_and_mint(Origin::Signed(101), 200).is_ok());
    // Rewards accrue to the pot: 2000 liquid now back 400 staked units, so
    // the rate halves from ten to five liquid per stake.
    p.genesis_deposit(POT_ACCOUNT, STAKING_CURRENCY_ID, 200).unwrap();
    assert_eq!(p.current_mint_rate(), MintRate::checked_from_rational(5, 1).unwrap());
    assert_eq!(p.staking_to_liquid(10).unwrap(), 50);
    assert_eq!(p.liquid_to_staking(1000).unwrap(), 200);
}

#[test]
fn round_trip_at_default_rate_is_exact() {
    let mut p = funded_pallet();
    assert!(p.bond_and_mint(Origin::Signed(101), 200).is_ok());
    let liquid = p.staking_to_liquid(123).unwrap();
    assert_eq!(liquid, 1230);
    assert_eq!(p.liquid_to_staking(liquid).unwrap(), 123);
}

#[test]
fn revote_replaces_the_lock_and_adds_weight() {
    let mut p = funded_pallet();
    assert!(p.bond_and_mint(Origin::Signed(101), 200).is_ok());
    assert!(p.vote(Origin::Signed(101), 30, 300).is_ok());
    assert_eq!(p.ledger.reserved_balance(LIQUID_CURRENCY_ID, 101), 300);
    assert!(p.vote(Origin::Signed(101), 20, 200).is_ok());
    // The lock is replaced, not accumulated; the tallies keep both weights.
    assert_eq!(p.ledger.reserved_balance(LIQUID_CURRENCY_ID, 101), 200);
    assert_eq!(p.voters(101), 200);
    assert_eq!(p.liquid_vote_count(30), 300);
    assert_eq!(p.liquid_vote_count(20), 200);
}

#[test]
fn vote_without_balance_is_rejected() {
    let mut p = funded_pallet();
    assert!(p.bond_and_mint(Origin::Signed(101), 200).is_ok());
    assert_eq!(
        p.vote(Origin::Signed(101), 30, 2001),
        Err(DispatchError::InsufficientBalance)
    );
}

#[test]
fn apply_votes_with_no_tallies_nominates_nobody() {
    let mut p = funded_pallet();
    assert!(p.apply_votes(Origin::Root).is_ok());
    assert_eq!(p.nominations(), Vec::<u64>::new());
}

#[test]
fn apply_votes_with_one_tally_nominates_one() {
    let mut p = funded_pallet();
    assert!(p.bond_and_mint(Origin::Signed(101), 200).is_ok());
    assert!(p.vote(Origin::Signed(101), 30, 300).is_ok());
    assert!(p.apply_votes(Origin::Root).is_ok());
    assert_eq!(p.nominations(), vec![30]);
}

#[test]
fn equal_weights_break_ties_by_target_ascending() {
    let mut p = funded_pallet();
    assert!(p.bond_and_mint(Origin::Signed(101), 200).is_ok());
    assert!(p.bond_and_mint(Origin::Signed(102), 200).is_ok());
    assert!(p.vote(Origin::Signed(101), 30, 100).is_ok());
    assert!(p.vote(Origin::Signed(102), 20, 100).is_ok());
    assert!(p.apply_votes(Origin::Root).is_ok());
    assert_eq!(p.nominations(), vec![20, 30]);
}

#[test]
fn apply_votes_unlocks_every_voter() {
    let mut p = funded_pallet();
    assert!(p.bond_and_mint(Origin::Signed(101), 200).is_ok());
    assert!(p.bond_and_mint(Origin::Signed(102), 200).is_ok());
    assert!(p.vote(Origin::Signed(101), 30, 300).is_ok());
    assert!(p.vote(Origin::Signed(102), 20, 200).is_ok());
    assert!(p.apply_votes(Origin::Root).is_ok());
    assert_eq!(p.ledger.reserved_balance(LIQUID_CURRENCY_ID, 101), 0);
    assert_eq!(p.ledger.reserved_balance(LIQUID_CURRENCY_ID, 102), 0);
    assert_eq!(p.ledger.free_balance(LIQUID_CURRENCY_ID, 101), 2000);
    // The second deposit settled against a pot of 400 staked units, so it
    // minted at the drifted rate of five liquid per stake.
    assert_eq!(p.ledger.free_balance(LIQUID_CURRENCY_ID, 102), 1000);
    assert_eq!(p.liquid_vote_count(30), 0);
    assert_eq!(p.liquid_vote_count(20), 0);
    assert_eq!(p.voters(101), 0);
    assert_eq!(p.voters(102), 0);
}

#[test]
fn issuance_tracks_mints_and_burns() {
    let mut p = funded_pallet();
    assert_eq!(p.total_liquid_issuance(), 0);
    assert!(p.bond_and_mint(Origin::Signed(101), 200).is_ok());
    assert_eq!(p.total_liquid_issuance(), 2000);
    // The second deposit settles first, so it mints at 2000 liquid over a
    // pot of 400: five liquid per stake.
    assert!(p.bond_and_mint(Origin::Signed(102), 200).is_ok());
    assert_eq!(p.total_liquid_issuance(), 3000);
    assert!(p.request_unbond(Origin::Signed(101), 100).is_ok());
    // Custody, not burning: the counter holds until withdrawal.
    assert_eq!(p.total_liquid_issuance(), 3000);
    p.set_current_era(3);
    assert!(p.withdraw_unbonded(Origin::Signed(101)).is_ok());
    assert_eq!(p.total_liquid_issuance(), 2900);
}

#[test]
fn default_rate_scenario_plays_out() {
    let mut p = funded_pallet();
    assert!(p.bond_and_mint(Origin::Signed(101), 200).is_ok());
    assert_eq!(p.ledger.free_balance(LIQUID_CURRENCY_ID, 101), 2000);
    assert_eq!(p.total_liquid_issuance(), 2000);
    assert_eq!(
        p.events().last(),
        Some(&Event::BondAndMint(200, 101))
    );

    assert!(p.request_unbond(Origin::Signed(101), 100).is_ok());
    assert_eq!(p.unbonding_requests(101), Some((10, 100, 0)));

    p.set_current_era(2);
    assert_eq!(
        p.withdraw_unbonded(Origin::Signed(101)),
        Err(DispatchError::Module(Error::UnbondingWaitNotComplete))
    );
    p.set_current_era(3);
    assert!(p.withdraw_unbonded(Origin::Signed(101)).is_ok());
    assert_eq!(p.ledger.free_balance(STAKING_CURRENCY_ID, 101), 810);
    assert_eq!(p.total_liquid_issuance(), 1900);
    assert_eq!(p.unbonding_requests(101), None);
}
