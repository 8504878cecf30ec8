use crate::accounts::{
    credit_entry, credited, keys_unique, lemma_credited, lemma_entry_le_sum, lemma_sum_nonneg,
    lemma_sum_push, sum_amounts, amount_of, has_key, index_of,
};
use crate::audit::{record_liquidity, recorded};
use crate::eventlog::Event;
use crate::state::{collateral_ratio, CoreState};
use crate::{low_u64, mul_e8s, E8S, ICP_TRANSFER_FEE};
use candid::Principal;
use icrc_ledger_types::icrc1::transfer::TransferError;
use vstd::prelude::*;

verus! {

/// Collateral ratio above which liquidity is withdrawn without slippage (120%).
pub const UPPER_COLLATERAL_RATIO: u64 = 120_000_000;

/// Slope of the slippage curve: 100% at the upper ratio, 0% at a ratio of zero.
pub const SLOPE: u64 = 83_333_333;

#[derive(Debug)]
pub enum LiquidityError {
    NotEnoughLiquidity(u64),
    AlreadyProcessing,
    LedgerError(TransferError),
    TemporarilyUnavailable(String),
    NoClaimableReward,
    NoLiquidityProvided,
    AmountTooSmall,
}

#[derive(Clone, Copy, Debug, PartialEq, Eq, Structural)]
pub enum LiquidityType {
    Add,
    Remove,
}

#[derive(Clone, Copy, Debug, PartialEq, Eq)]
pub struct Liquidity {
    pub caller: Principal,
    pub operation_type: LiquidityType,
    pub amount: u64,
    pub block_index: u64,
    pub timestamp: u64,
    pub fee: u64,
}

/// Pro-rata share of `fee` for a provider holding `amount` out of `total`,
/// truncated toward zero; nothing when there is no liquidity at all. The share is the
/// exact integer quotient `amount * fee / total`, not a truncated floating-point
/// product `(amount / total) * fee`: the two rules can differ by one unit, and only the
/// exact one guarantees that the shares never exceed the fee.
pub open spec fn share_of(amount: int, fee: int, total: int) -> int {
    if total == 0 {
        0
    } else {
        amount * fee / total
    }
}

/// Each provider's share of `fee`, in the providers' order.
pub open spec fn fee_shares(providers: Seq<(Principal, u64)>, fee: int, total: int) -> Seq<
    (Principal, u64),
>
    decreases providers.len(),
{
    if providers.len() == 0 {
        Seq::empty()
    } else {
        fee_shares(providers.drop_last(), fee, total).push(
            (providers.last().0, share_of(providers.last().1 as int, fee, total) as u64),
        )
    }
}

/// `rewards` after crediting each share in turn.
pub open spec fn credit_all(rewards: Seq<(Principal, u64)>, shares: Seq<(Principal, u64)>) -> Seq<
    (Principal, u64),
>
    decreases shares.len(),
{
    if shares.len() == 0 {
        rewards
    } else {
        credited(credit_all(rewards, shares.drop_last()), shares.last().0, shares.last().1 as int)
    }
}

/// Withdrawable part of `amount_to_claim` at `collateral_ratio`.
pub open spec fn claimable(amount_to_claim: int, collateral_ratio: int) -> int {
    if collateral_ratio > UPPER_COLLATERAL_RATIO {
        amount_to_claim
    } else {
        mul_e8s(amount_to_claim, mul_e8s(SLOPE as int, collateral_ratio))
    }
}

proof fn lemma_fee_shares_shape(providers: Seq<(Principal, u64)>, fee: int, total: int)
    ensures
        fee_shares(providers, fee, total).len() == providers.len(),
        forall|i: int|
            0 <= i < providers.len() ==> #[trigger] fee_shares(providers, fee, total)[i] == (
                providers[i].0,
                share_of(providers[i].1 as int, fee, total) as u64,
            ),
    decreases providers.len(),
{
    if providers.len() > 0 {
        lemma_fee_shares_shape(providers.drop_last(), fee, total);
    }
}

/// Scaled bound on the shares of a prefix of the providers: the shares times the
/// total never exceed the prefix's liquidity times the fee.
proof fn lemma_fee_shares_scaled(providers: Seq<(Principal, u64)>, fee: int, total: int)
    requires
        0 <= fee <= u64::MAX,
        total > 0,
        forall|i: int| 0 <= i < providers.len() ==> (#[trigger] providers[i]).1 <= total,
    ensures
        sum_amounts(fee_shares(providers, fee, total)) * total <= sum_amounts(providers) * fee,
        sum_amounts(fee_shares(providers, fee, total)) >= 0,
    decreases providers.len(),
{
    if providers.len() > 0 {
        let rest = providers.drop_last();
        let a = providers.last().1 as int;
        lemma_fee_shares_scaled(rest, fee, total);
        let s = sum_amounts(fee_shares(rest, fee, total));
        let sh = a * fee / total;
        assert(0 <= sh && sh * total <= a * fee) by (nonlinear_arith)
            requires total > 0, a >= 0, fee >= 0, sh == a * fee / total;
        assert(sh <= fee) by (nonlinear_arith)
            requires total > 0, 0 <= a <= total, fee >= 0, sh == a * fee / total;
        lemma_sum_push(fee_shares(rest, fee, total), (providers.last().0, sh as u64));
        assert(sum_amounts(providers) == sum_amounts(rest) + a) by {
            assert(providers.drop_last() =~= rest);
        }
        assert((s + sh) * total <= (sum_amounts(rest) + a) * fee) by (nonlinear_arith)
            requires s * total <= sum_amounts(rest) * fee, sh * total <= a * fee;
    }
}

/// Fee distribution, share by share: one share per provider, in the providers' order
/// and under their principals, summing to at most the fee, and a provider who holds
/// no less than another receives no less.
pub proof fn lemma_fee_shares_law(providers: Seq<(Principal, u64)>, fee: int)
    requires
        0 <= fee <= u64::MAX,
    ensures
        ({
            let sh = fee_shares(providers, fee, sum_amounts(providers));
            &&& sh.len() == providers.len()
            &&& forall|i: int| 0 <= i < sh.len() ==> (#[trigger] sh[i]).0 == providers[i].0
            &&& 0 <= sum_amounts(sh) <= fee
            &&& forall|i: int, j: int|
                0 <= i < sh.len() && 0 <= j < sh.len() && providers[i].1 <= providers[j].1
                    ==> #[trigger] sh[i].1 <= #[trigger] sh[j].1
        }),
{
    let t = sum_amounts(providers);
    lemma_fee_shares_shape(providers, fee, t);
    lemma_fee_conservation(providers, fee);
    lemma_sum_nonneg(providers);
    let sh = fee_shares(providers, fee, t);
    assert forall|i: int, j: int|
        0 <= i < sh.len() && 0 <= j < sh.len() && providers[i].1 <= providers[j].1
            implies #[trigger] sh[i].1 <= #[trigger] sh[j].1 by {
        if t > 0 {
            lemma_entry_le_sum(providers, i);
            lemma_entry_le_sum(providers, j);
            let a = providers[i].1 as int;
            let b = providers[j].1 as int;
            assert(a * fee / t <= b * fee / t && b * fee / t <= fee && a * fee / t >= 0) by (nonlinear_arith)
                requires 0 <= a <= b <= t, t > 0, 0 <= fee;
        }
    }
}

/// Crediting shares never lowers an account, and only principals that receive a share
/// gain anything.
pub proof fn lemma_credit_all_amounts(rewards: Seq<(Principal, u64)>, shares: Seq<(Principal, u64)>, room: int)
    requires
        keys_unique(rewards),
        0 <= sum_amounts(shares) <= room,
        sum_amounts(rewards) + room <= u64::MAX,
    ensures
        forall|q: Principal| amount_of(credit_all(rewards, shares), q) >= amount_of(rewards, q),
        forall|q: Principal| !has_key(shares, q) ==> amount_of(credit_all(rewards, shares), q)
            == amount_of(rewards, q),
    decreases shares.len(),
{
    if shares.len() > 0 {
        let rest = shares.drop_last();
        let x = shares.last();
        lemma_sum_nonneg(rest);
        lemma_credit_all_amounts(rewards, rest, room);
        crate::book::lemma_credit_all(rewards, rest, room);
        let mid = credit_all(rewards, rest);
        lemma_amount_le_sum(mid, x.0);
        lemma_credited(mid, x.0, x.1 as int);
        assert forall|q: Principal| !has_key(shares, q) implies !has_key(rest, q) && q != x.0 by {
            if has_key(rest, q) {
                let k = choose|k: int| 0 <= k < rest.len() && #[trigger] rest[k].0 == q;
                assert(shares[k] == rest[k]);
            }
            assert(shares[shares.len() - 1] == x);
        }
    }
}

/// Fee conservation: whatever the providers' balances, the shares handed out sum to
/// at most the fee pool; with no provider nothing is handed out.
pub proof fn lemma_fee_conservation(providers: Seq<(Principal, u64)>, fee: int)
    requires
        0 <= fee <= u64::MAX,
    ensures
        0 <= sum_amounts(fee_shares(providers, fee, sum_amounts(providers))) <= fee,
        providers.len() == 0 ==> sum_amounts(fee_shares(providers, fee, sum_amounts(providers)))
            == 0,
{
    let total = sum_amounts(providers);
    lemma_sum_nonneg(providers);
    if total == 0 {
        lemma_zero_shares(providers, fee);
    } else {
        assert forall|i: int| 0 <= i < providers.len() implies (#[trigger] providers[i]).1
            <= total by {
            lemma_entry_le_sum(providers, i);
        }
        lemma_fee_shares_scaled(providers, fee, total);
        let s = sum_amounts(fee_shares(providers, fee, total));
        assert(s <= fee) by (nonlinear_arith)
            requires s * total <= total * fee, total > 0;
    }
}

proof fn lemma_zero_shares(providers: Seq<(Principal, u64)>, fee: int)
    ensures
        sum_amounts(fee_shares(providers, fee, 0)) == 0,
    decreases providers.len(),
{
    if providers.len() > 0 {
        lemma_zero_shares(providers.drop_last(), fee);
        lemma_sum_push(fee_shares(providers.drop_last(), fee, 0), (providers.last().0, 0u64));
    }
}

/// Splits `fee_amount` among the providers pro rata to what each provided. The shares
/// are exact integer quotients truncated toward zero, so their sum never exceeds the
/// fee; what is left stays in the pool.
pub fn build_distribute_fee(fee_amount: u64, liquidity_provided: Vec<(Principal, u64)>) -> (r: Vec<
    (Principal, u64),
>)
    requires
        sum_amounts(liquidity_provided@) <= u64::MAX,
    ensures
        r@ == fee_shares(liquidity_provided@, fee_amount as int, sum_amounts(liquidity_provided@)),
        r@.len() == liquidity_provided@.len(),
        forall|i: int| 0 <= i < r@.len() ==> (#[trigger] r@[i]).0 == liquidity_provided@[i].0,
        sum_amounts(r@) <= fee_amount,
        forall|i: int, j: int|
            0 <= i < r@.len() && 0 <= j < r@.len() && liquidity_provided@[i].1
                <= liquidity_provided@[j].1 ==> #[trigger] r@[i].1 <= #[trigger] r@[j].1,
{
    proof {
        lemma_fee_shares_law(liquidity_provided@, fee_amount as int);
    }
    let total = crate::accounts::total_amount(&liquidity_provided);
    let mut out: Vec<(Principal, u64)> = Vec::new();
    let mut i: usize = 0;
    while i < liquidity_provided.len()
        invariant
            i <= liquidity_provided@.len(),
            total == sum_amounts(liquidity_provided@),
            out@ == fee_shares(liquidity_provided@.take(i as int), fee_amount as int, total as int),
        decreases liquidity_provided@.len() - i,
    {
        let (p, a) = liquidity_provided[i];
        proof {
            lemma_entry_le_sum(liquidity_provided@, i as int);
        }
        let share: u64 = if total == 0 {
            0
        } else {
            assert((a as int) * (fee_amount as int) / (total as int) <= fee_amount) by (
            nonlinear_arith)
                requires a <= total, total > 0;
            assert((a as int) * (fee_amount as int) <= u64::MAX as int * u64::MAX as int) by (
            nonlinear_arith)
                requires a <= u64::MAX, fee_amount <= u64::MAX;
            ((a as u128) * (fee_amount as u128) / (total as u128)) as u64
        };
        proof {
            assert(liquidity_provided@.take(i as int + 1).drop_last() =~= liquidity_provided@.take(
                i as int,
            ));
        }
        out.push((p, share));
        i = i + 1;
    }
    proof {
        assert(liquidity_provided@.take(i as int) =~= liquidity_provided@);
    }
    out
}

/// Hands the whole fee pool out to the liquidity providers, pro rata, and keeps in the
/// pool only what truncation left over.
pub fn distribute_protocol_rewards(state: &mut CoreState)
    requires
        old(state).wf(),
    ensures
        ({
            let b = old(state).book();
            let shares = fee_shares(
                b.liquidity_provided,
                b.available_fees,
                sum_amounts(b.liquidity_provided),
            );
            &&& final(state).book() == (crate::state::Book {
                liquidity_rewards: credit_all(b.liquidity_rewards, shares),
                available_fees: b.available_fees - sum_amounts(shares),
                ..b
            })
            &&& final(state).wf()
            &&& final(state).same_outside_book(old(state))
        }),
        forall|q: Principal| amount_of(final(state).liquidity_rewards@, q) >= amount_of(old(state).liquidity_rewards@, q),
        forall|q: Principal| !has_key(old(state).liquidity_provided@, q) ==> amount_of(
            final(state).liquidity_rewards@,
            q,
        ) == amount_of(old(state).liquidity_rewards@, q),
        sum_amounts(final(state).liquidity_rewards@) - sum_amounts(old(state).liquidity_rewards@)
            == old(state).total_available_fees - final(state).total_available_fees,
        final(state).total_available_fees <= old(state).total_available_fees,
{
    proof {
        let b = old(state).book();
        let sh = fee_shares(b.liquidity_provided, b.available_fees, sum_amounts(b.liquidity_provided));
        lemma_fee_conservation(b.liquidity_provided, b.available_fees);
        lemma_fee_shares_shape(b.liquidity_provided, b.available_fees, sum_amounts(b.liquidity_provided));
        lemma_sum_nonneg(b.liquidity_rewards);
        lemma_credit_all_amounts(b.liquidity_rewards, sh, b.available_fees);
        crate::book::lemma_credit_all(b.liquidity_rewards, sh, b.available_fees);
        assert forall|q: Principal| has_key(sh, q) implies has_key(b.liquidity_provided, q) by {
            let k = choose|k: int| 0 <= k < sh.len() && #[trigger] sh[k].0 == q;
            assert(b.liquidity_provided[k].0 == q);
        }
    }
    let pool = state.total_available_fees;
    let providers = crate::accounts::copy_entries(&state.liquidity_provided);
    let shares = build_distribute_fee(pool, providers);
    proof {
        lemma_fee_conservation(state.liquidity_provided@, pool as int);
        lemma_fee_shares_shape(state.liquidity_provided@, pool as int, sum_amounts(state.liquidity_provided@));
        lemma_sum_nonneg(state.liquidity_rewards@);
    }
    let ghost rewards0 = state.liquidity_rewards@;
    let mut rewards = crate::accounts::copy_entries(&state.liquidity_rewards);
    let mut distributed: u64 = 0;
    let mut i: usize = 0;
    while i < shares.len()
        invariant
            i <= shares@.len(),
            keys_unique(rewards0),
            sum_amounts(rewards0) + pool <= u64::MAX,
            0 <= sum_amounts(shares@) <= pool,
            keys_unique(rewards@),
            rewards@ == credit_all(rewards0, shares@.take(i as int)),
            distributed == sum_amounts(shares@.take(i as int)),
            sum_amounts(rewards@) == sum_amounts(rewards0) + distributed,
        decreases shares@.len() - i,
    {
        let (p, a) = shares[i];
        proof {
            crate::accounts::lemma_prefix_sum_le(shares@, i as int + 1);
            assert(shares@.take(i as int + 1).drop_last() =~= shares@.take(i as int));
            lemma_sum_push(shares@.take(i as int), shares@[i as int]);
            assert(shares@.take(i as int + 1) =~= shares@.take(i as int).push(shares@[i as int]));
            lemma_amount_le_sum(rewards@, p);
            lemma_credited(rewards@, p, a as int);
        }
        credit_entry(&mut rewards, p, a);
        distributed = distributed + a;
        i = i + 1;
    }
    proof {
        assert(shares@.take(i as int) =~= shares@);
    }
    state.liquidity_rewards = rewards;
    state.total_available_fees = pool - distributed;
}

pub proof fn lemma_amount_le_sum(s: Seq<(Principal, u64)>, p: Principal)
    ensures
        0 <= amount_of(s, p) <= sum_amounts(s),
{
    lemma_sum_nonneg(s);
    if has_key(s, p) {
        lemma_entry_le_sum(s, index_of(s, p));
    }
}

/// Withdrawable amount after slippage: the full amount above a 120% collateral ratio,
/// otherwise scaled linearly from 0% at a ratio of zero to 100% at 120%.
pub fn compute_liquidity_claimable(amount_to_claim: u64, collateral_ratio: u64) -> (r: u64)
    ensures
        r == claimable(amount_to_claim as int, collateral_ratio as int),
        r <= amount_to_claim,
{
    if collateral_ratio > UPPER_COLLATERAL_RATIO {
        amount_to_claim
    } else {
        assert(mul_e8s(SLOPE as int, collateral_ratio as int) <= E8S) by (nonlinear_arith)
            requires collateral_ratio <= UPPER_COLLATERAL_RATIO;
        let slippage = crate::multiply_e8s(SLOPE, collateral_ratio);
        assert(mul_e8s(amount_to_claim as int, slippage as int) <= amount_to_claim) by (
        nonlinear_arith)
            requires slippage <= E8S;
        crate::multiply_e8s(amount_to_claim, slippage)
    }
}

/// Validates a deposit of liquidity before it is transferred.
pub fn check_add_liquidity(state: &CoreState, amount: u64) -> (r: Result<(), LiquidityError>)
    ensures
        r is Ok <==> amount >= state.min_amount_liquidity,
        r matches Err(e) ==> e is AmountTooSmall,
{
    if amount < state.min_amount_liquidity {
        return Err(LiquidityError::AmountTooSmall);
    }
    Ok(())
}

pub open spec fn liquidity_for(
    s: &CoreState,
    caller: Principal,
    operation_type: LiquidityType,
    amount: u64,
    block_index: u64,
    now: u64,
) -> Liquidity {
    Liquidity {
        caller,
        operation_type,
        amount,
        block_index,
        timestamp: now,
        fee: low_u64(mul_e8s(s.fees.base_fee as int, amount as int)) as u64,
    }
}

/// Records a movement of liquidity once its transfer settled in block `block_index`,
/// charging the base fee on `amount` and handing it to the providers.
pub fn apply_liquidity(
    state: &mut CoreState,
    log: &mut Vec<Event>,
    caller: Principal,
    operation_type: LiquidityType,
    amount: u64,
    block_index: u64,
    now: u64,
) -> (r: bool)
    requires
        old(state).wf(),
    ensures
        recorded(
            old(state),
            final(state),
            old(log)@,
            final(log)@,
            Event::Liquidity(liquidity_for(old(state), caller, operation_type, amount, block_index, now)),
            r,
        ),
{
    let fee = crate::multiply_e8s(state.fees.base_fee, amount);
    let liquidity = Liquidity { caller, operation_type, amount, block_index, timestamp: now, fee };
    record_liquidity(state, log, liquidity)
}

/// What a withdrawal of liquidity pays and charges.
#[derive(Clone, Copy, Debug, PartialEq, Eq, Structural)]
pub struct WithdrawalPlan {
    /// Sent to the provider, after slippage and the network fee.
    pub amount_to_transfer: u64,
    /// Base fee charged on the withdrawn amount.
    pub protocol_fee: u64,
}

/// Validates a withdrawal of `amount` from `caller`'s pooled balance and says what it
/// pays: the amount net of the fee, scaled by the slippage curve at the current
/// collateral ratio, less the network fee.
pub fn check_remove_liquidity(state: &CoreState, caller: Principal, amount: u64) -> (r: Result<
    WithdrawalPlan,
    LiquidityError,
>)
    requires
        state.wf(),
    ensures
        ({
            let lp = state.liquidity_provided@;
            let fee = low_u64(mul_e8s(state.fees.base_fee as int, amount as int));
            &&& !has_key(lp, caller) ==> (r matches Err(LiquidityError::NoLiquidityProvided))
            &&& has_key(lp, caller) && amount > amount_of(lp, caller) ==> r == Err::<
                WithdrawalPlan,
                LiquidityError,
            >(LiquidityError::NotEnoughLiquidity(amount_of(lp, caller) as u64))
            &&& has_key(lp, caller) && amount <= amount_of(lp, caller) && amount < fee
                + ICP_TRANSFER_FEE ==> (r matches Err(LiquidityError::AmountTooSmall))
            &&& r matches Ok(plan) ==> {
                &&& has_key(lp, caller) && amount <= amount_of(lp, caller)
                &&& state.icp_prices@.len() > 0
                &&& plan.protocol_fee == fee
                &&& plan.amount_to_transfer == claimable(
                    amount - fee,
                    collateral_ratio(state.book(), state.icp_prices@.last().1.rate as int),
                ) - ICP_TRANSFER_FEE
            }
            &&& has_key(lp, caller) && amount <= amount_of(lp, caller) && amount >= fee
                + ICP_TRANSFER_FEE && state.icp_prices@.len() > 0 && claimable(
                amount - fee,
                collateral_ratio(state.book(), state.icp_prices@.last().1.rate as int),
            ) >= ICP_TRANSFER_FEE ==> r is Ok
        }),
{
    let balance = match crate::accounts::lookup_amount(&state.liquidity_provided, &caller) {
        Some(b) => b,
        None => {
            return Err(LiquidityError::NoLiquidityProvided);
        },
    };
    if amount > balance {
        return Err(LiquidityError::NotEnoughLiquidity(balance));
    }
    let protocol_fee = crate::multiply_e8s(state.fees.base_fee, amount);
    if protocol_fee > u64::MAX - ICP_TRANSFER_FEE || amount < protocol_fee + ICP_TRANSFER_FEE {
        return Err(LiquidityError::AmountTooSmall);
    }
    if state.icp_prices.len() == 0 {
        return Err(LiquidityError::TemporarilyUnavailable("no price data".to_string()));
    }
    let ratio = state.get_collateral_ratio();
    let to_withdraw = compute_liquidity_claimable(amount - protocol_fee, ratio);
    if to_withdraw < ICP_TRANSFER_FEE {
        return Err(LiquidityError::AmountTooSmall);
    }
    Ok(WithdrawalPlan { amount_to_transfer: to_withdraw - ICP_TRANSFER_FEE, protocol_fee })
}

/// The rewards `caller` can claim; there must be some.
pub fn check_claim_liquidity_rewards(state: &CoreState, caller: Principal) -> (r: Result<
    u64,
    LiquidityError,
>)
    requires
        state.wf(),
    ensures
        amount_of(state.liquidity_rewards@, caller) > 0 ==> r == Ok::<u64, LiquidityError>(
            amount_of(state.liquidity_rewards@, caller) as u64,
        ),
        amount_of(state.liquidity_rewards@, caller) == 0 ==> (r matches Err(
            LiquidityError::NoClaimableReward,
        )),
{
    match crate::accounts::lookup_amount(&state.liquidity_rewards, &caller) {
        Some(a) => {
            if a == 0 {
                Err(LiquidityError::NoClaimableReward)
            } else {
                Ok(a)
            }
        },
        None => Err(LiquidityError::NoClaimableReward),
    }
}

} // verus!
