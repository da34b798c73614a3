use liquid_staking::pallet::{Config, Pallet};
use liquid_staking::rate::MintRate;
use liquid_staking::{
    DispatchError, Error, Origin, LIQUID_CURRENCY_ID, STAKING_CURRENCY_ID,
};

const POT_ACCOUNT: u64 = 9999;

fn test_config() -> Config {
    Config {
        pot_account: POT_ACCOUNT,
        default_mint_rate: MintRate::checked_from_rational(10, 1).unwrap(),
        bond_threshold: 0,
        unbond_threshold: 0,
        max_validator_count: 2,
        unbond_wait: 3,
    }
}

/// Genesis balances: 18400 staking units and 2000 liquid units in total,
/// with the nominator accounts 101 and 102 funded as the scenarios expect.
fn new_test_pallet() -> Pallet {
    let mut p = Pallet::new(test_config(), Some(0));
    let staking_balances: [(u64, u128); 17] = [
        (1, 100),
        (2, 100),
        (3, 300),
        (4, 400),
        (5, 460),
        (10, 10),
        (20, 10),
        (30, 10),
        (40, 10),
        (11, 2000),
        (21, 2000),
        (31, 3000),
        (41, 3000),
        (100, 1000),
        (101, 1000),
        (102, 2000),
        (103, 3000),
    ];
    for (who, amount) in staking_balances {
        p.genesis_deposit(who, STAKING_CURRENCY_ID, amount).unwrap();
    }
    let liquid_balances: [(u64, u128); 2] = [(1, 1000), (2, 1000)];
    for (who, amount) in liquid_balances {
        p.genesis_deposit(who, LIQUID_CURRENCY_ID, amount).unwrap();
    }
    p
}

#[test]
fn total_issuance() {
    let p = new_test_pallet();
    assert_eq!(p.ledger.total_issuance(STAKING_CURRENCY_ID), 18400);
    assert_eq!(p.ledger.total_issuance(LIQUID_CURRENCY_ID), 2000);
}

#[test]
fn bonding_works() {
    let mut p = new_test_pallet();
    assert_eq!(p.ledger.free_balance(STAKING_CURRENCY_ID, 101), 1000);
    assert_eq!(p.ledger.free_balance(LIQUID_CURRENCY_ID, 101), 0);

    assert!(p.bond_and_mint(Origin::Signed(101), 200).is_ok());

    assert_eq!(p.ledger.free_balance(STAKING_CURRENCY_ID, 101), 800);
    let pot_account = p.account_id();
    let total_liquid_issuance = p.total_liquid_issuance();

    assert_eq!(p.ledger.free_balance(STAKING_CURRENCY_ID, pot_account), 200);

    assert_eq!(total_liquid_issuance, 2000);

    assert_eq!(p.ledger.free_balance(LIQUID_CURRENCY_ID, 101), 2000);
}

#[test]
fn staking_to_liquid_works() {
    let p = new_test_pallet();
    assert_eq!(p.staking_to_liquid(10).unwrap(), 100);
}

#[test]
fn liquid_to_staking_works() {
    let p = new_test_pallet();
    assert_eq!(p.liquid_to_staking(1000).unwrap(), 100);
}

#[test]
fn voting_works() {
    let mut p = new_test_pallet();
    assert_eq!(p.current_era().unwrap(), 0);
    p.set_current_era(1);

    // stakers minting
    assert!(p.bond_and_mint(Origin::Signed(101), 200).is_ok());
    assert!(p.bond_and_mint(Origin::Signed(102), 200).is_ok());
    // stakers voting for their favourite nomination
    // highest votes
    assert!(p.vote(Origin::Signed(101), 30, 300).is_ok());
    assert_eq!(p.ledger.reserved_balance(LIQUID_CURRENCY_ID, 101), 300);
    // second highest
    assert!(p.vote(Origin::Signed(102), 20, 200).is_ok());
    // bottom
    assert!(p.vote(Origin::Signed(102), 10, 150).is_ok());

    // verify vote counts
    assert_eq!(p.liquid_vote_count(30), 300);
    assert_eq!(p.liquid_vote_count(20), 200);
    assert_eq!(p.liquid_vote_count(10), 150);
    let expected_set = vec![30, 20];
    assert!(p.apply_votes(Origin::Root).is_ok());
    assert_eq!(expected_set, p.nominations());

    // vote apply should clear votes
    // verify vote counts
    assert_eq!(p.liquid_vote_count(30), 0);
    assert_eq!(p.liquid_vote_count(20), 0);
    assert_eq!(p.liquid_vote_count(10), 0);
    // vote apply should also have unreserved the balances
    assert_eq!(p.ledger.reserved_balance(LIQUID_CURRENCY_ID, 101), 0);

    // Lets try to vote again
    p.set_current_era(5);
    // highest votes
    assert!(p.vote(Origin::Signed(101), 10, 200).is_ok());
    // second highest
    assert!(p.vote(Origin::Signed(102), 20, 180).is_ok());
    // bottom
    assert!(p.vote(Origin::Signed(101), 30, 150).is_ok());

    assert_eq!(p.liquid_vote_count(10), 200);
    assert_eq!(p.liquid_vote_count(20), 180);
    assert_eq!(p.liquid_vote_count(30), 150);

    let expected_set = vec![10, 20];
    assert!(p.apply_votes(Origin::Root).is_ok());
    assert_eq!(expected_set, p.nominations());
}

#[test]
fn request_unbond_works() {
    let mut p = new_test_pallet();
    assert!(p.bond_and_mint(Origin::Signed(101), 200).is_ok());
    assert_eq!(p.ledger.free_balance(LIQUID_CURRENCY_ID, 101), 2000);
    assert_eq!(p.liquid_to_staking(100).unwrap(), 10);

    assert!(p.request_unbond(Origin::Signed(101), 100).is_ok());
    let unbond_req = p.unbonding_requests(101);
    assert_eq!(unbond_req.is_some(), true);
    assert_eq!(unbond_req.unwrap(), (10, 100, 0));
}

#[test]
fn mint_rate_is_consistent() {
    let mut p = new_test_pallet();
    assert_eq!(p.current_mint_rate(), MintRate::saturating_from_rational(10, 1));

    assert!(p.bond_and_mint(Origin::Signed(101), 200).is_ok());
    assert_eq!(p.current_mint_rate(), MintRate::saturating_from_rational(10, 1));

    assert!(p.request_unbond(Origin::Signed(101), 100).is_ok());
    assert_eq!(p.current_mint_rate(), MintRate::saturating_from_rational(10, 1));
}

#[test]
fn request_unbond_before_unbond_duration_not_works() {
    let mut p = new_test_pallet();
    assert!(p.bond_and_mint(Origin::Signed(101), 200).is_ok());

    assert!(p.request_unbond(Origin::Signed(101), 100).is_ok());

    assert_eq!(
        p.withdraw_unbonded(Origin::Signed(101)),
        Err(DispatchError::Module(Error::UnbondingWaitNotComplete))
    );
}

#[test]
fn request_unbond_after_unbond_duration_works() {
    let mut p = new_test_pallet();
    assert_eq!(p.total_liquid_issuance(), 0);

    p.set_current_era(2);
    assert!(p.bond_and_mint(Origin::Signed(101), 200).is_ok());
    assert_eq!(p.ledger.free_balance(STAKING_CURRENCY_ID, 101), 800);
    assert_eq!(p.ledger.free_balance(LIQUID_CURRENCY_ID, 101), 2000);
    // liquid tokens are minted
    assert_eq!(p.total_liquid_issuance(), 2000);

    p.set_current_era(3);
    // liquid currency used to get back staking currency
    let burn_amount = 100;
    assert!(p.request_unbond(Origin::Signed(101), burn_amount).is_ok());

    assert_eq!(p.ledger.free_balance(STAKING_CURRENCY_ID, 101), 800);
    assert_eq!(p.ledger.free_balance(LIQUID_CURRENCY_ID, 101), 1900);

    // unbond request at era 3, should unlock at era 6
    let unbond_req = p.unbonding_requests(101);
    assert_eq!(unbond_req.unwrap(), (10, 100, 3));
    assert_eq!(
        p.withdraw_unbonded(Origin::Signed(101)),
        Err(DispatchError::Module(Error::UnbondingWaitNotComplete))
    );

    p.set_current_era(5);
    // locked at era 5
    assert_eq!(
        p.withdraw_unbonded(Origin::Signed(101)),
        Err(DispatchError::Module(Error::UnbondingWaitNotComplete))
    );

    p.set_current_era(6);
    // user free to withdraw unbond at era 6
    assert!(p.withdraw_unbonded(Origin::Signed(101)).is_ok());
    assert_eq!(p.ledger.free_balance(STAKING_CURRENCY_ID, 101), 810);
    assert_eq!(p.ledger.free_balance(LIQUID_CURRENCY_ID, 101), 1900);
    // liquid token is burnt
    assert_eq!(p.total_liquid_issuance(), 2000 - burn_amount);
}
