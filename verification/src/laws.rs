use crate::pallet::{request_unbond_outcome, withdraw_outcome, Pallet};
use crate::ranking::ranks_before;
use crate::rate::{mul_rate, reciprocal_inner, SCALE};
use crate::{AccountId, Balance, DispatchError, Error, Origin};
use vstd::arithmetic::div_mod::{
    lemma_div_is_ordered, lemma_div_multiples_vanish, lemma_fundamental_div_mod,
};
use vstd::arithmetic::mul::lemma_mul_inequality;
use vstd::prelude::*;

verus! {

/// Issuance conservation: in every well-formed state — and the operations
/// take well-formed states to well-formed states — the issuance counter
/// equals exactly the liquid units ever minted minus those ever burned, and
/// never goes negative.
pub proof fn lemma_issuance_conservation(p: Pallet)
    requires
        p.wf(),
    ensures
        p.total_liquid_issuance == p.total_minted@ - p.total_burned@,
        p.total_minted@ - p.total_burned@ >= 0,
{
}

/// Single pending request: a second request by a staker fails while one of
/// theirs is pending, and a withdrawal finds nothing when none is.
pub proof fn lemma_single_pending_request(p: Pallet, who: AccountId, liquid_amount: Balance)
    ensures
        p.unbonding_requests@.contains_key(who) ==> request_unbond_outcome(
            p,
            Origin::Signed(who),
            liquid_amount,
        ) == Err::<(), DispatchError>(
            DispatchError::Module(Error::UnclaimedRedeemRequestAlreadyExist),
        ),
        !p.unbonding_requests@.contains_key(who) ==> withdraw_outcome(p, Origin::Signed(who))
            == Err::<(), DispatchError>(DispatchError::Module(Error::UnbondingRequestNotExist)),
{
}

/// Wait-period enforcement: with a request pending, the era known, and the
/// pot able to pay, withdrawal succeeds exactly when the current era has
/// reached the request era plus the configured wait, and fails with
/// `UnbondingWaitNotComplete` in every earlier era.
pub proof fn lemma_wait_period_enforcement(p: Pallet, who: AccountId)
    requires
        p.wf(),
        p.unbonding_requests@.contains_key(who),
        p.staking.current_era is Some,
        p.ledger.liquid_free(p.config.pot_account) >= p.unbonding_requests@[who].1,
        p.ledger.liquid_issuance >= p.unbonding_requests@[who].1,
        p.ledger.staking_free(p.config.pot_account) >= p.unbonding_requests@[who].0,
        who != p.config.pot_account ==> p.ledger.staking_free(who) + p.unbonding_requests@[who].0
            <= Balance::MAX,
        p.total_liquid_issuance >= p.unbonding_requests@[who].1,
    ensures
        p.unbonding_requests@[who].2 + p.config.unbond_wait <= p.staking.current_era->0
            ==> withdraw_outcome(p, Origin::Signed(who)) == Ok::<(), DispatchError>(()),
        p.unbonding_requests@[who].2 + p.config.unbond_wait > p.staking.current_era->0
            ==> withdraw_outcome(p, Origin::Signed(who)) == Err::<(), DispatchError>(
            DispatchError::Module(Error::UnbondingWaitNotComplete),
        ),
{
}

/// Rate round trip, downward direction: converting stake to liquid and the
/// result back to stake never returns more than was put in, whatever the
/// (positive) rate.
pub proof fn lemma_round_trip_never_gains(rate_inner: int, x: int)
    requires
        rate_inner >= 1,
        x >= 0,
    ensures
        mul_rate(reciprocal_inner(rate_inner), mul_rate(rate_inner, x)) <= x,
{
    let s = SCALE as int;
    let y = mul_rate(rate_inner, x);
    let q = reciprocal_inner(rate_inner);
    assert(s > 0);
    lemma_fundamental_div_mod(rate_inner * x, s);
    lemma_fundamental_div_mod(s * s, rate_inner);
    assert(y * s <= rate_inner * x) by {
        assert(rate_inner * x == s * ((rate_inner * x) / s) + ((rate_inner * x) % s));
        assert((rate_inner * x) % s >= 0);
    }
    assert(q * rate_inner <= s * s) by {
        assert(s * s == rate_inner * ((s * s) / rate_inner) + ((s * s) % rate_inner));
        assert((s * s) % rate_inner >= 0);
    }
    assert(y >= 0) by {
        assert(rate_inner * x >= 0) by (nonlinear_arith)
            requires
                rate_inner >= 1,
                x >= 0,
        ;
        vstd::arithmetic::div_mod::lemma_div_pos_is_pos(rate_inner * x, s);
    }
    assert(q >= 0) by {
        assert(s * s >= 0);
        vstd::arithmetic::div_mod::lemma_div_pos_is_pos(s * s, rate_inner);
    }
    assert(y * q <= s * x) by (nonlinear_arith)
        requires
            y * s <= rate_inner * x,
            q * rate_inner <= s * s,
            rate_inner >= 1,
            s > 0,
            y >= 0,
            q >= 0,
            x >= 0,
    ;
    assert(mul_rate(q, y) == (q * y) / s);
    lemma_div_is_ordered(q * y, s * x, s);
    lemma_div_multiples_vanish(x, s);
    assert((s * x) / s == x);
}

/// Rate round trip, exactness: when the rate is a whole number of liquid
/// units per staked unit that divides the fixed-point scale — such as any
/// rate `n` with `n` a divisor of a power of ten up to the scale — the round
/// trip returns the stake exactly.
pub proof fn lemma_round_trip_exact(n: int, x: int)
    requires
        1 <= n,
        (SCALE as int) % n == 0,
        x >= 0,
    ensures
        mul_rate(reciprocal_inner(n * (SCALE as int)), mul_rate(n * (SCALE as int), x)) == x,
{
    let s = SCALE as int;
    let rate = n * s;
    assert(s > 0);
    assert(n * s > 0) by (nonlinear_arith)
        requires
            n >= 1,
            s > 0,
    ;
    assert(rate > 0);
    let y = mul_rate(rate, x);
    assert(y == (rate * x) / s);
    assert((n * s) * x == s * (n * x)) by (nonlinear_arith);
    assert(rate * x == s * (n * x));
    assert(y == n * x) by {
        lemma_div_multiples_vanish(n * x, s);
    }
    let q = reciprocal_inner(rate);
    assert(q == (s * s) / rate);
    lemma_fundamental_div_mod(s, n);
    let sn = s / n;
    assert(s == n * sn);
    assert(s * s == sn * (n * s)) by (nonlinear_arith)
        requires
            s == n * sn,
    ;
    assert(q == sn) by {
        assert((s * s) / rate == ((n * s) * sn) / (n * s)) by {
            assert(s * s == (n * s) * sn) by (nonlinear_arith)
                requires
                    s * s == sn * (n * s),
            ;
        }
        lemma_div_multiples_vanish(sn, n * s);
    }
    assert(mul_rate(q, y) == (q * y) / s);
    assert(q * y == s * x) by (nonlinear_arith)
        requires
            q == sn,
            y == n * x,
            s == n * sn,
    ;
    lemma_div_multiples_vanish(x, s);
}

/// Rate round trip at a live system's rate: whatever `staking_to_liquid`
/// mints for a stake `x`, `liquid_to_staking` values it back at no more
/// than `x` — the pool never pays out more stake than was put in.
pub proof fn lemma_rate_round_trip(p: Pallet, x: Balance)
    requires
        p.wf(),
    ensures
        mul_rate(
            reciprocal_inner(p.spec_current_rate() as int),
            mul_rate(p.spec_current_rate() as int, x as int),
        ) <= x as int,
{
    assert(p.spec_current_rate() >= 1);
    lemma_round_trip_never_gains(p.spec_current_rate() as int, x as int);
}

/// Top-N determinism: the properties `apply_votes` promises of its selection
/// — every entry drawn from the tallies, ordered by weight descending with
/// ties broken by target ascending, and outranking everything unselected —
/// pin the selection down completely: two sequences of the same length with
/// those properties over the same tallies are equal.
pub proof fn lemma_selection_unique(
    m: Map<AccountId, Balance>,
    sel1: Seq<AccountId>,
    sel2: Seq<AccountId>,
)
    requires
        sel1.len() == sel2.len(),
        forall|i: int| 0 <= i < sel1.len() ==> m.dom().contains(#[trigger] sel1[i]),
        forall|i: int| 0 <= i < sel2.len() ==> m.dom().contains(#[trigger] sel2[i]),
        forall|i: int, j: int|
            0 <= i < j < sel1.len() ==> ranks_before((sel1[i], m[sel1[i]]), (sel1[j], m[sel1[j]])),
        forall|i: int, j: int|
            0 <= i < j < sel2.len() ==> ranks_before((sel2[i], m[sel2[i]]), (sel2[j], m[sel2[j]])),
        forall|i: int, k: AccountId|
            #![trigger sel1[i], m.dom().contains(k)]
            0 <= i < sel1.len() && m.dom().contains(k) && !sel1.contains(k) ==> ranks_before(
                (sel1[i], m[sel1[i]]),
                (k, m[k]),
            ),
        forall|i: int, k: AccountId|
            #![trigger sel2[i], m.dom().contains(k)]
            0 <= i < sel2.len() && m.dom().contains(k) && !sel2.contains(k) ==> ranks_before(
                (sel2[i], m[sel2[i]]),
                (k, m[k]),
            ),
    ensures
        sel1 == sel2,
{
    lemma_selection_unique_from(m, sel1, sel2, 0);
    assert(sel1 =~= sel2);
}

proof fn lemma_selection_unique_from(
    m: Map<AccountId, Balance>,
    sel1: Seq<AccountId>,
    sel2: Seq<AccountId>,
    i: int,
)
    requires
        0 <= i <= sel1.len(),
        sel1.len() == sel2.len(),
        forall|p: int| 0 <= p < i ==> sel1[p] == sel2[p],
        forall|p: int| 0 <= p < sel1.len() ==> m.dom().contains(#[trigger] sel1[p]),
        forall|p: int| 0 <= p < sel2.len() ==> m.dom().contains(#[trigger] sel2[p]),
        forall|p: int, q: int|
            0 <= p < q < sel1.len() ==> ranks_before((sel1[p], m[sel1[p]]), (sel1[q], m[sel1[q]])),
        forall|p: int, q: int|
            0 <= p < q < sel2.len() ==> ranks_before((sel2[p], m[sel2[p]]), (sel2[q], m[sel2[q]])),
        forall|p: int, k: AccountId|
            #![trigger sel1[p], m.dom().contains(k)]
            0 <= p < sel1.len() && m.dom().contains(k) && !sel1.contains(k) ==> ranks_before(
                (sel1[p], m[sel1[p]]),
                (k, m[k]),
            ),
        forall|p: int, k: AccountId|
            #![trigger sel2[p], m.dom().contains(k)]
            0 <= p < sel2.len() && m.dom().contains(k) && !sel2.contains(k) ==> ranks_before(
                (sel2[p], m[sel2[p]]),
                (k, m[k]),
            ),
    ensures
        forall|p: int| 0 <= p < sel1.len() ==> sel1[p] == sel2[p],
    decreases sel1.len() - i,
{
    if i == sel1.len() {
        return ;
    }
    let k1 = sel1[i];
    let k2 = sel2[i];
    if k1 != k2 {
        assert(ranks_before((k2, m[k2]), (k1, m[k1]))) by {
            if sel2.contains(k1) {
                let j = choose|j: int| 0 <= j < sel2.len() && sel2[j] == k1;
                if j < i {
                    assert(sel1[j] == k1);
                    assert(ranks_before((sel1[j], m[sel1[j]]), (sel1[i], m[sel1[i]])));
                    assert(false);
                } else if j == i {
                    assert(false);
                } else {
                    assert(ranks_before((sel2[i], m[sel2[i]]), (sel2[j], m[sel2[j]])));
                }
            } else {
                assert(m.dom().contains(k1));
                assert(ranks_before((sel2[i], m[sel2[i]]), (k1, m[k1])));
            }
        }
        assert(ranks_before((k1, m[k1]), (k2, m[k2]))) by {
            if sel1.contains(k2) {
                let j = choose|j: int| 0 <= j < sel1.len() && sel1[j] == k2;
                if j < i {
                    assert(sel2[j] == k2);
                    assert(ranks_before((sel2[j], m[sel2[j]]), (sel2[i], m[sel2[i]])));
                    assert(false);
                } else if j == i {
                    assert(false);
                } else {
                    assert(ranks_before((sel1[i], m[sel1[i]]), (sel1[j], m[sel1[j]])));
                }
            } else {
                assert(m.dom().contains(k2));
                assert(ranks_before((sel1[i], m[sel1[i]]), (k2, m[k2])));
            }
        }
        assert(false);
    }
    lemma_selection_unique_from(m, sel1, sel2, i + 1);
}

} // verus!
