use crate::audit::{record_open_leverage_position, recorded};
use crate::eventlog::Event;
use crate::state::{coverable, has_position, position_index, CoreState, IcpPrice, LeveragePosition};
use crate::{div_e8s, low_u64, mul_e8s, E8S, ICP_TRANSFER_FEE, ONE_HOUR_NANOS};
use candid::Principal;
use icrc_ledger_types::icrc1::transfer::TransferError;
use vstd::prelude::*;

verus! {

/// Price ratio `entry / current` in e8s, over the integers.
pub open spec fn price_ratio(entry: int, current: int) -> int {
    div_e8s(entry, current)
}

/// Signed profit of a position at `current`: `covered * (1 - entry / current)`, each
/// fixed-point step truncated toward zero.
pub open spec fn pnl(p: LeveragePosition, current: int) -> int {
    let diff = E8S as int - price_ratio(p.icp_entry_price.rate as int, current);
    if diff > 0 {
        mul_e8s(p.covered_amount as int, diff)
    } else {
        -mul_e8s(-diff, p.covered_amount as int)
    }
}

/// The profit can be computed: the price is not zero, the price ratio fits in 64 bits
/// and the profit fits in an `i64`.
pub open spec fn pnl_in_range(p: LeveragePosition, current: int) -> bool {
    &&& current > 0
    &&& price_ratio(p.icp_entry_price.rate as int, current) <= u64::MAX
    &&& i64::MIN < pnl(p, current) <= i64::MAX
}

/// What closing the position pays out before fees: margin net of the opening fee,
/// plus the profit or minus the loss.
pub open spec fn cash_out(p: LeveragePosition, current: int) -> int {
    p.amount - p.fee + pnl(p, current)
}

pub open spec fn cash_out_in_range(p: LeveragePosition, current: int) -> bool {
    &&& pnl_in_range(p, current)
    &&& p.fee <= p.amount
    &&& 0 <= cash_out(p, current) <= u64::MAX
}

/// The price at or below which a position is liquidated:
/// `entry * covered / (covered + margin)`, in fixed point.
pub open spec fn liquidation_price(p: LeveragePosition) -> int {
    mul_e8s(
        div_e8s(p.covered_amount as int, p.covered_amount + p.amount),
        p.icp_entry_price.rate as int,
    )
}

/// The profit of `position` at `current_icp_price`, when it can be computed.
pub fn checked_pnl(position: &LeveragePosition, current_icp_price: u64) -> (r: Option<i64>)
    ensures
        r matches Some(v) ==> pnl_in_range(*position, current_icp_price as int) && v == pnl(
            *position,
            current_icp_price as int,
        ),
        r is None ==> !pnl_in_range(*position, current_icp_price as int),
{
    if current_icp_price == 0 {
        return None;
    }
    let entry = position.icp_entry_price.rate as u128;
    let ratio: u128 = entry * 100_000_000u128 / (current_icp_price as u128);
    if ratio > u64::MAX as u128 {
        return None;
    }
    let covered = position.covered_amount as u128;
    if ratio < 100_000_000u128 {
        let diff: u128 = 100_000_000u128 - ratio;
        assert(covered * diff <= u64::MAX as int * 100_000_000) by (nonlinear_arith)
            requires covered <= u64::MAX, diff <= 100_000_000;
        let gain: u128 = covered * diff / 100_000_000u128;
        assert(gain == pnl(*position, current_icp_price as int));
        if gain > i64::MAX as u128 {
            return None;
        }
        Some(gain as i64)
    } else {
        let diff: u128 = ratio - 100_000_000u128;
        assert(diff * covered <= u64::MAX as int * u64::MAX as int) by (nonlinear_arith)
            requires covered <= u64::MAX, diff <= u64::MAX;
        let loss: u128 = diff * covered / 100_000_000u128;
        assert(-loss == pnl(*position, current_icp_price as int));
        if loss > i64::MAX as u128 {
            return None;
        }
        Some(-(loss as i64))
    }
}

/// The profit (positive) or loss (negative) of `position` at `current_icp_price`.
pub fn compute_pnl(position: &LeveragePosition, current_icp_price: u64) -> (r: i64)
    requires
        pnl_in_range(*position, current_icp_price as int),
    ensures
        r == pnl(*position, current_icp_price as int),
{
    match checked_pnl(position, current_icp_price) {
        Some(v) => v,
        None => 0,
    }
}

/// The cash-out amount of `position`, when it is neither negative nor too large.
pub fn checked_cash_out_amount(position: &LeveragePosition, current_icp_price: u64) -> (r: Option<
    u64,
>)
    ensures
        r matches Some(v) ==> cash_out_in_range(*position, current_icp_price as int) && v
            == cash_out(*position, current_icp_price as int),
        r is None ==> !cash_out_in_range(*position, current_icp_price as int),
{
    let diff = match checked_pnl(position, current_icp_price) {
        Some(v) => v,
        None => {
            return None;
        },
    };
    if position.fee > position.amount {
        return None;
    }
    let net = position.amount - position.fee;
    if diff > 0 {
        let gain = diff as u64;
        if net > u64::MAX - gain {
            return None;
        }
        Some(net + gain)
    } else {
        let loss = (-diff) as u64;
        if loss > net {
            return None;
        }
        Some(net - loss)
    }
}

/// Margin net of fee, plus profit or minus loss, at `current_icp_price`.
pub fn compute_cash_out_amount(position: &LeveragePosition, current_icp_price: u64) -> (r: u64)
    requires
        cash_out_in_range(*position, current_icp_price as int),
    ensures
        r == cash_out(*position, current_icp_price as int),
{
    match checked_cash_out_amount(position, current_icp_price) {
        Some(v) => v,
        None => 0,
    }
}

/// Whether `position` must be liquidated at `current_price`.
pub fn should_liquidate(position: LeveragePosition, current_price: u64) -> (r: bool)
    requires
        position.covered_amount + position.amount > 0,
        position.covered_amount + position.amount <= u64::MAX,
    ensures
        r == (current_price <= liquidation_price(position)),
{
    let total = position.covered_amount + position.amount;
    let liquidation_ratio = crate::divide_e8s(position.covered_amount, total);
    assert(div_e8s(position.covered_amount as int, total as int) <= E8S) by (nonlinear_arith)
        requires position.covered_amount <= total, total > 0;
    assert(mul_e8s(liquidation_ratio as int, position.icp_entry_price.rate as int) <= u64::MAX)
        by (nonlinear_arith)
        requires liquidation_ratio <= E8S, position.icp_entry_price.rate <= u64::MAX;
    let liquidation_price = crate::multiply_e8s(liquidation_ratio, position.icp_entry_price.rate);
    current_price <= liquidation_price
}

/// Smallest margin a position may be opened with.
pub const MIN_LEVERAGE_AMOUNT: u64 = 10_000_000;

pub struct OpenLeveragePositionArg {
    pub amount: u64,
    pub take_profit: u64,
    pub covered_amount: u64,
}

#[derive(Debug)]
pub enum LeveragePositionError {
    LedgerError(TransferError),
    IndexNotFound,
    AlreadyProcessing,
    AmountTooSmall,
    PositionNotFound,
    CallerNotOwner,
    NotEnoughFundsToCover,
    TemporarilyUnavailable(String),
    TooEarlyToClose,
}

/// How a position is wound down, and what leaves the protocol.
#[derive(Clone, Copy, Debug, PartialEq, Eq, Structural)]
pub struct ClosePlan {
    /// Sent to the owner.
    pub amount_to_transfer: u64,
    /// Kept by the protocol and handed to the liquidity providers.
    pub protocol_fee: u64,
    /// Price the position is settled at.
    pub icp_price: IcpPrice,
}

/// Protocol fee on a payout: the base fee rate times the payout.
pub open spec fn fee_on(base_fee: u64, amount: int) -> int {
    low_u64(mul_e8s(base_fee as int, amount))
}

/// Closing `p` at `price` pays `cash_out - fee - network_fee` and keeps `fee`, when that
/// payout is not negative.
pub open spec fn close_plan_of(p: LeveragePosition, price: IcpPrice, base_fee: u64, network_fee: u64) -> Option<
    ClosePlan,
> {
    if !cash_out_in_range(p, price.rate as int) {
        None
    } else {
        let cash = cash_out(p, price.rate as int);
        let fee = fee_on(base_fee, cash);
        if fee + network_fee > cash {
            None
        } else {
            Some(
                ClosePlan {
                    amount_to_transfer: (cash - fee - network_fee) as u64,
                    protocol_fee: fee as u64,
                    icp_price: price,
                },
            )
        }
    }
}

pub fn compute_close_plan(
    position: &LeveragePosition,
    price: IcpPrice,
    base_fee: u64,
    network_fee: u64,
) -> (r: Option<ClosePlan>)
    ensures
        r == close_plan_of(*position, price, base_fee, network_fee),
{
    let cash = match checked_cash_out_amount(position, price.rate) {
        Some(c) => c,
        None => {
            return None;
        },
    };
    let fee = crate::multiply_e8s(base_fee, cash);
    if fee > cash || network_fee > cash - fee {
        return None;
    }
    Some(ClosePlan { amount_to_transfer: cash - fee - network_fee, protocol_fee: fee, icp_price: price })
}

/// Validates a request to open a position before the margin is transferred.
pub fn check_open_leverage_position(state: &CoreState, arg: &OpenLeveragePositionArg) -> (r: Result<
    (),
    LeveragePositionError,
>)
    requires
        state.wf(),
    ensures
        r is Ok <==> arg.covered_amount <= coverable(state.book()) && arg.amount
            >= MIN_LEVERAGE_AMOUNT && state.icp_prices@.len() > 0,
        r matches Err(e) ==> {
            &&& e is NotEnoughFundsToCover <==> arg.covered_amount > coverable(state.book())
            &&& e is AmountTooSmall <==> arg.covered_amount <= coverable(state.book()) && arg.amount
                < MIN_LEVERAGE_AMOUNT
            &&& e is TemporarilyUnavailable <==> arg.covered_amount <= coverable(state.book())
                && arg.amount >= MIN_LEVERAGE_AMOUNT
        },
{
    let available = state.get_leverage_coverable_amount();
    if arg.covered_amount > available {
        return Err(LeveragePositionError::NotEnoughFundsToCover);
    }
    if arg.amount < MIN_LEVERAGE_AMOUNT {
        return Err(LeveragePositionError::AmountTooSmall);
    }
    if state.icp_prices.len() == 0 {
        return Err(LeveragePositionError::TemporarilyUnavailable("no price data".to_string()));
    }
    Ok(())
}

/// The position opened by `owner` once its margin arrived in block `block_index`: entry
/// at the last price, base fee withheld from the margin.
pub open spec fn position_for(
    s: &CoreState,
    owner: Principal,
    arg: OpenLeveragePositionArg,
    block_index: u64,
    now: u64,
) -> LeveragePosition {
    LeveragePosition {
        owner,
        amount: arg.amount,
        covered_amount: arg.covered_amount,
        take_profit: arg.take_profit,
        timestamp: now,
        icp_entry_price: s.icp_prices@.last().1,
        deposit_block_index: block_index,
        fee: fee_on(s.fees.base_fee, arg.amount as int) as u64,
    }
}

/// Records the position once its margin arrived, and hands its fee to the liquidity
/// providers.
pub fn open_position(
    state: &mut CoreState,
    log: &mut Vec<Event>,
    owner: Principal,
    arg: OpenLeveragePositionArg,
    block_index: u64,
    now: u64,
) -> (r: bool)
    requires
        old(state).wf(),
        old(state).icp_prices@.len() > 0,
    ensures
        recorded(
            old(state),
            final(state),
            old(log)@,
            final(log)@,
            Event::OpenLeveragePosition(position_for(old(state), owner, arg, block_index, now)),
            r,
        ),
{
    let entry = state.icp_prices[state.icp_prices.len() - 1].1;
    let fee = crate::multiply_e8s(state.fees.base_fee, arg.amount);
    let position = LeveragePosition {
        owner,
        amount: arg.amount,
        covered_amount: arg.covered_amount,
        take_profit: arg.take_profit,
        timestamp: now,
        icp_entry_price: entry,
        deposit_block_index: block_index,
        fee,
    };
    record_open_leverage_position(state, log, position)
}

/// Validates a caller's request to close position `deposit_block_index` at `now`, and
/// says what to pay: the owner bears the network fee.
pub fn check_close_leverage_position(
    state: &CoreState,
    caller: Principal,
    deposit_block_index: u64,
    now: u64,
) -> (r: Result<ClosePlan, LeveragePositionError>)
    requires
        state.wf(),
    ensures
        ({
            let ps = state.leverage_positions@;
            let p = ps[position_index(ps, deposit_block_index)];
            &&& !has_position(ps, deposit_block_index) ==> (r matches Err(LeveragePositionError::PositionNotFound))
            &&& has_position(ps, deposit_block_index) && p.owner != caller ==> (r matches Err(LeveragePositionError::CallerNotOwner))
            &&& has_position(ps, deposit_block_index) && p.owner == caller && now < p.timestamp
                + ONE_HOUR_NANOS ==> (r matches Err(LeveragePositionError::TooEarlyToClose))
            &&& r is Ok ==> has_position(ps, deposit_block_index) && p.owner == caller && now
                >= p.timestamp + ONE_HOUR_NANOS && state.icp_prices@.len() > 0 && r == Ok::<
                ClosePlan,
                LeveragePositionError,
            >(
                close_plan_of(
                    p,
                    state.icp_prices@.last().1,
                    state.fees.base_fee,
                    ICP_TRANSFER_FEE,
                ).unwrap(),
            )
            &&& has_position(ps, deposit_block_index) && p.owner == caller && now >= p.timestamp
                + ONE_HOUR_NANOS && state.icp_prices@.len() > 0 && close_plan_of(
                p,
                state.icp_prices@.last().1,
                state.fees.base_fee,
                ICP_TRANSFER_FEE,
            ) is Some ==> r is Ok
        }),
{
    let position = match state.get_leverage_position(deposit_block_index) {
        Some(p) => p,
        None => {
            return Err(LeveragePositionError::PositionNotFound);
        },
    };
    if !crate::accounts::same_principal(&position.owner, &caller) {
        return Err(LeveragePositionError::CallerNotOwner);
    }
    if (now as u128) < position.timestamp as u128 + ONE_HOUR_NANOS as u128 {
        return Err(LeveragePositionError::TooEarlyToClose);
    }
    let price = match state.get_last_icp_price() {
        Some(p) => p,
        None => {
            return Err(LeveragePositionError::TemporarilyUnavailable("no price data".to_string()));
        },
    };
    match compute_close_plan(&position, price, state.fees.base_fee, ICP_TRANSFER_FEE) {
        Some(plan) => Ok(plan),
        None => Err(LeveragePositionError::AmountTooSmall),
    }
}

/// What the periodic sweep does with one position.
#[derive(Clone, Copy, Debug, PartialEq, Eq, Structural)]
pub enum SweepAction {
    /// Close at market: the take-profit price was reached.
    TakeProfit(ClosePlan),
    /// Remove the position without paying anything out.
    Liquidate,
    /// Leave the position open.
    Keep,
}

/// The sweep's decision for `p` at `price`: close at market once the take-profit price
/// is reached and the cash-out covers the network fee; otherwise liquidate at or below
/// the liquidation price.
pub open spec fn sweep_action_of(p: LeveragePosition, price: IcpPrice, base_fee: u64) -> SweepAction {
    if p.take_profit <= price.rate {
        if cash_out_in_range(p, price.rate as int) && cash_out(p, price.rate as int)
            >= ICP_TRANSFER_FEE && close_plan_of(p, price, base_fee, 0) is Some {
            SweepAction::TakeProfit(close_plan_of(p, price, base_fee, 0).unwrap())
        } else {
            SweepAction::Keep
        }
    } else if 0 < p.covered_amount + p.amount <= u64::MAX && price.rate <= liquidation_price(p) {
        SweepAction::Liquidate
    } else {
        SweepAction::Keep
    }
}

pub fn sweep_action(position: &LeveragePosition, price: IcpPrice, base_fee: u64) -> (r: SweepAction)
    ensures
        r == sweep_action_of(*position, price, base_fee),
{
    if position.take_profit <= price.rate {
        match checked_cash_out_amount(position, price.rate) {
            Some(cash) => {
                if cash < ICP_TRANSFER_FEE {
                    return SweepAction::Keep;
                }
                match compute_close_plan(position, price, base_fee, 0) {
                    Some(plan) => SweepAction::TakeProfit(plan),
                    None => SweepAction::Keep,
                }
            },
            None => SweepAction::Keep,
        }
    } else if position.covered_amount as u128 + position.amount as u128 > 0
        && position.covered_amount as u128 + position.amount as u128 <= u64::MAX as u128
        && should_liquidate(*position, price.rate) {
        SweepAction::Liquidate
    } else {
        SweepAction::Keep
    }
}

/// The sweep's decision for every open position at the last price, in the order the
/// positions are kept.
pub fn plan_leverage_sweep(state: &CoreState) -> (r: Vec<(LeveragePosition, SweepAction)>)
    requires
        state.wf(),
        state.icp_prices@.len() > 0,
    ensures
        r@.len() == state.leverage_positions@.len(),
        forall|i: int|
            0 <= i < r@.len() ==> #[trigger] r@[i] == (
                state.leverage_positions@[i],
                sweep_action_of(
                    state.leverage_positions@[i],
                    state.icp_prices@.last().1,
                    state.fees.base_fee,
                ),
            ),
{
    let price = state.icp_prices[state.icp_prices.len() - 1].1;
    let mut out: Vec<(LeveragePosition, SweepAction)> = Vec::new();
    let mut i: usize = 0;
    while i < state.leverage_positions.len()
        invariant
            i <= state.leverage_positions@.len(),
            price == state.icp_prices@.last().1,
            out@.len() == i,
            forall|k: int|
                0 <= k < i ==> #[trigger] out@[k] == (
                    state.leverage_positions@[k],
                    sweep_action_of(state.leverage_positions@[k], price, state.fees.base_fee),
                ),
        decreases state.leverage_positions@.len() - i,
    {
        let p = state.leverage_positions[i];
        let action = sweep_action(&p, price, state.fees.base_fee);
        out.push((p, action));
        i = i + 1;
    }
    out
}

} // verus!
