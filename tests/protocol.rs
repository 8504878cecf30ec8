use candid::Principal;
use core_canister::audit::{record_liquidate_leverage_position, record_swap_success};
use core_canister::eventlog::{replay, Event, ReplayLogError};
use core_canister::guard::{convert_update_guard, leverage_update_guard, Guard, GuardError, GuardKind, TimerLogicGuard};
use core_canister::leverage::{
    check_close_leverage_position, check_open_leverage_position, compute_cash_out_amount, compute_pnl,
    open_position, plan_leverage_sweep, should_liquidate, LeveragePositionError, OpenLeveragePositionArg,
    SweepAction,
};
use core_canister::lifecycle::InitArgs;
use core_canister::liquidity::{
    apply_liquidity, check_add_liquidity, check_claim_liquidity_rewards, check_remove_liquidity, LiquidityError,
    LiquidityType,
};
use core_canister::state::{Asset, CoreState, IcpPrice, LeveragePosition, Mode};
use core_canister::swap::{check_swap, compute_settlement, maybe_close_leverage_position, open_swap, pending_settlements, Settlement, SwapError};
use core_canister::tasks::{TaskQueue, TaskType};

fn init_args() -> InitArgs {
    InitArgs {
        mode: Mode::GeneralAvailability,
        eusd_ledger_principal: None,
        xrc_principal: None,
        icp_ledger_principal: None,
        min_amount_to_stable: None,
        min_amount_from_stable: None,
        min_amount_leverage: None,
        min_amount_liquidity: None,
    }
}

fn user(k: u8) -> Principal {
    Principal::from_slice(&[k; 29])
}

fn position(amount: u64, covered_amount: u64, entry: u64, fee: u64) -> LeveragePosition {
    LeveragePosition {
        owner: Principal::anonymous(),
        amount,
        covered_amount,
        take_profit: u64::MAX,
        timestamp: 0,
        icp_entry_price: IcpPrice { rate: entry },
        deposit_block_index: 0,
        fee,
    }
}

/// A deposit of 1,000,000,000 less the 10,000 network fee, swapped at 1.0, then a
/// second participant's leveraged position.
fn scenario(log: &mut Vec<Event>) -> CoreState {
    let mut state = CoreState::new(init_args());
    log.push(Event::Init(init_args()));
    state.insert_price(1, IcpPrice { rate: 100_000_000 });
    assert!(check_swap(&state, Asset::ICP, 999_990_000).is_ok());
    assert!(open_swap(&mut state, log, user(1), Asset::ICP, 11, 999_990_000, 5));
    assert!(record_swap_success(&mut state, log, 11, 1));
    state
}

#[test]
fn reference_scenario_swap_then_leverage() {
    let mut log = Vec::new();
    let mut state = scenario(&mut log);
    assert_eq!(state.total_eusd_minted, 997_490_025);
    assert_eq!(state.icp_collateral_amount, 997_490_025);
    assert_eq!(state.total_available_fees, 2_499_975);

    let too_big = OpenLeveragePositionArg { amount: 499_990_000, take_profit: u64::MAX, covered_amount: 1_000_000_000 };
    assert!(matches!(
        check_open_leverage_position(&state, &too_big),
        Err(LeveragePositionError::NotEnoughFundsToCover)
    ));
    let arg = OpenLeveragePositionArg { amount: 499_990_000, take_profit: u64::MAX, covered_amount: 500_000_000 };
    assert!(check_open_leverage_position(&state, &arg).is_ok());
    assert!(open_position(&mut state, &mut log, user(2), arg, 12, 6));
    assert_eq!(state.icp_leverage_margin_amount, 499_990_000 - 1_249_975);
    assert_eq!(state.icp_collateral_covered_amount, 500_000_000);
    // TVL 1,496,230,050 over 997,490,025 outstanding.
    assert_eq!(state.get_tvl(), 1_496_230_050);
    assert_eq!(state.get_collateral_ratio(), 149_999_499);
    assert_eq!(state.get_leverage_coverable_amount(), 497_490_025);
}

#[test]
fn leverage_is_refused_before_any_collateral_exists() {
    let mut state = CoreState::new(init_args());
    state.insert_price(1, IcpPrice { rate: 100_000_000 });
    let arg = OpenLeveragePositionArg { amount: 499_990_000, take_profit: 0, covered_amount: 500_000_000 };
    assert!(matches!(
        check_open_leverage_position(&state, &arg),
        Err(LeveragePositionError::NotEnoughFundsToCover)
    ));
    let small = OpenLeveragePositionArg { amount: 9_999_999, take_profit: 0, covered_amount: 0 };
    assert!(matches!(check_open_leverage_position(&state, &small), Err(LeveragePositionError::AmountTooSmall)));
}

#[test]
fn replaying_the_log_twice_gives_the_live_state() {
    let mut log = Vec::new();
    let live = scenario(&mut log);
    let mut again = Vec::new();
    let _ = scenario(&mut again);
    let first = replay(log).unwrap();
    let second = replay(again).unwrap();
    assert!(first.check_semantically_eq(&second).is_ok());
    assert!(first.check_semantically_eq(&live).is_ok());
    assert_eq!(first.get_last_icp_price(), Some(IcpPrice { rate: 100_000_000 }));
}

#[test]
fn replay_rejects_empty_and_headless_logs() {
    assert!(matches!(replay(vec![]), Err(ReplayLogError::EmptyLog)));
    let log = vec![Event::ClaimLiquidityRewards { owner: user(1) }];
    assert!(matches!(replay(log), Err(ReplayLogError::InconsistentLog(_))));
    let bad_close = vec![
        Event::Init(init_args()),
        Event::CloseLeveragePosition {
            deposit_block_index: 4,
            output_block_index: None,
            fee: 0,
            timestamp: 1,
            icp_price: IcpPrice { rate: 1 },
        },
    ];
    assert!(matches!(replay(bad_close), Err(ReplayLogError::InconsistentLog(_))));
}

#[test]
fn swap_requests_are_validated() {
    let mut state = CoreState::new(init_args());
    assert!(matches!(check_swap(&state, Asset::ICP, 1_000_000_000), Err(SwapError::NoPriceData)));
    state.insert_price(1, IcpPrice { rate: 500_000_000 });
    assert!(matches!(check_swap(&state, Asset::EUSD, 99_999_999), Err(SwapError::AmountTooSmall)));
    assert!(check_swap(&state, Asset::EUSD, 100_000_000).is_ok());
}

#[test]
fn swap_round_trip_at_one_rate() {
    let mut state = CoreState::new(init_args());
    let mut log = vec![Event::Init(init_args())];
    state.insert_price(1, IcpPrice { rate: 500_000_000 });
    assert!(open_swap(&mut state, &mut log, user(1), Asset::ICP, 1, 1_000_000_000, 2));
    let pending = pending_settlements(&state);
    assert_eq!(pending.len(), 1);
    assert_eq!(pending[0].1, Settlement::MintEusd(4_987_500_000));
    assert!(record_swap_success(&mut state, &mut log, 1, 100));
    assert!(open_swap(&mut state, &mut log, user(1), Asset::EUSD, 2, 4_987_500_000, 3));
    let pending = pending_settlements(&state);
    assert_eq!(pending[0].1, Settlement::TransferIcp(995_006_250));
    assert_eq!(compute_settlement(&pending[0].0), Settlement::TransferIcp(995_006_250));
    assert!(record_swap_success(&mut state, &mut log, 2, 101));
    assert_eq!(state.total_eusd_burned, 4_987_500_000);
    assert_eq!(state.icp_collateral_amount, 997_500_000 - 995_006_250);
    assert!(state.open_swaps.is_empty());
}

#[test]
fn test_should_liquidate() {
    let mut current_price = IcpPrice { rate: 100_000_000 };
    let initial = IcpPrice { rate: 10_000_000 };
    let leverage_positon = LeveragePosition {
        owner: Principal::anonymous(),
        amount: 10,
        take_profit: 10,
        timestamp: 0,
        fee: 100,
        covered_amount: 10,
        icp_entry_price: initial,
        deposit_block_index: 0,
    };
    let liquidate = should_liquidate(leverage_positon.clone(), current_price.rate);
    assert_eq!(liquidate, false);
    current_price = IcpPrice { rate: 1_000_000 };
    let liquidate = should_liquidate(leverage_positon, current_price.rate);
    assert_eq!(liquidate, true);
}

#[test]
fn liquidation_boundary_one_unit_either_side() {
    // margin 5 ICP, covered 10 ICP, entry 4.0: threshold 4.0 * 10 / 15, in fixed point.
    let p = position(500_000_000, 1_000_000_000, 400_000_000, 0);
    assert!(should_liquidate(p, 266_666_664));
    assert!(should_liquidate(p, 266_666_663));
    assert!(!should_liquidate(p, 266_666_665));
}

#[test]
fn test_pnl_computation() {
    let leverage_position = LeveragePosition {
        owner: Principal::anonymous(),
        amount: 500_000_000,
        covered_amount: 1_000_000_000,
        take_profit: 600_000_000,
        timestamp: 0,
        icp_entry_price: IcpPrice { rate: 400_000_000 },
        deposit_block_index: 0,
        fee: 0,
    };
    // leverage 3x
    let pnl = compute_pnl(&leverage_position, 500_000_000);
    let cash_out_amount = compute_cash_out_amount(&leverage_position, 500_000_000);
    assert!(pnl == 200_000_000);
    assert!(cash_out_amount == 700_000_000);
}

#[test]
fn losses_reduce_the_cash_out() {
    let p = position(500_000_000, 1_000_000_000, 400_000_000, 1_000_000);
    // ratio 4/3.2 = 1.25: a loss of a quarter of the covered amount.
    assert_eq!(compute_pnl(&p, 320_000_000), -250_000_000);
    assert_eq!(compute_cash_out_amount(&p, 320_000_000), 249_000_000);
}

#[test]
fn sweep_takes_profit_or_liquidates() {
    let mut log = Vec::new();
    let mut state = scenario(&mut log);
    let arg = OpenLeveragePositionArg { amount: 200_000_000, take_profit: 150_000_000, covered_amount: 100_000_000 };
    assert!(open_position(&mut state, &mut log, user(2), arg, 12, 6));
    state.insert_price(7, IcpPrice { rate: 200_000_000 });
    let plan = plan_leverage_sweep(&state);
    assert_eq!(plan.len(), 1);
    match plan[0].1 {
        SweepAction::TakeProfit(close) => {
            // cash-out 199,500,000 + 50,000,000 profit, less 0.25%.
            assert_eq!(close.protocol_fee, 623_750);
            assert_eq!(close.amount_to_transfer, 249_500_000 - 623_750);
        }
        _ => panic!("expected a take-profit close"),
    }
    state.insert_price(8, IcpPrice { rate: 30_000_000 });
    let plan = plan_leverage_sweep(&state);
    assert_eq!(plan[0].1, SweepAction::Liquidate);
    let covered_before = state.icp_collateral_covered_amount;
    assert!(record_liquidate_leverage_position(&mut state, &mut log, 12, 0, 9, IcpPrice { rate: 30_000_000 }));
    assert_eq!(state.icp_collateral_covered_amount, covered_before - 100_000_000);
    assert_eq!(state.icp_leverage_margin_amount, 0);
    assert!(state.check_invariants().is_ok());
    let replayed = replay(log).unwrap();
    assert!(replayed.check_semantically_eq(&state).is_ok());
}

#[test]
fn closing_checks_owner_age_and_existence() {
    let mut log = Vec::new();
    let mut state = scenario(&mut log);
    let arg = OpenLeveragePositionArg { amount: 200_000_000, take_profit: u64::MAX, covered_amount: 100_000_000 };
    assert!(open_position(&mut state, &mut log, user(2), arg, 12, 1_000));
    assert!(matches!(check_close_leverage_position(&state, user(2), 99, 1_000), Err(LeveragePositionError::PositionNotFound)));
    assert!(matches!(check_close_leverage_position(&state, user(3), 12, 1_000), Err(LeveragePositionError::CallerNotOwner)));
    let hour = 3_600_000_000_000u64;
    assert!(matches!(
        check_close_leverage_position(&state, user(2), 12, 1_000 + hour - 1),
        Err(LeveragePositionError::TooEarlyToClose)
    ));
    let plan = check_close_leverage_position(&state, user(2), 12, 1_000 + hour).unwrap();
    // no price move: the margin net of its fee, less 0.25% and the network fee.
    assert_eq!(plan.protocol_fee, 498_750);
    assert_eq!(plan.amount_to_transfer, 199_500_000 - 498_750 - 10_000);
}

#[test]
fn margin_call_closes_riskiest_first() {
    let mut log = Vec::new();
    let mut state = scenario(&mut log);
    let a = OpenLeveragePositionArg { amount: 100_000_000, take_profit: u64::MAX, covered_amount: 400_000_000 };
    let b = OpenLeveragePositionArg { amount: 400_000_000, take_profit: u64::MAX, covered_amount: 400_000_000 };
    assert!(open_position(&mut state, &mut log, user(2), a, 20, 6));
    assert!(open_position(&mut state, &mut log, user(3), b, 21, 6));
    assert!(maybe_close_leverage_position(&state).is_empty());
    // a redemption takes collateral below the covered 800,000,000
    assert!(open_swap(&mut state, &mut log, user(1), Asset::EUSD, 30, 300_000_000, 7));
    assert!(record_swap_success(&mut state, &mut log, 30, 2));
    assert!(state.icp_collateral_amount < state.icp_collateral_covered_amount);
    let to_close = maybe_close_leverage_position(&state);
    assert_eq!(to_close.len(), 1);
    // the second position has the lower margin ratio (1.0 against 4.0)
    assert_eq!(to_close[0].deposit_block_index, 21);
}

#[test]
fn covered_ratio_at_one_fails_the_invariant_check() {
    let mut log = Vec::new();
    let mut state = scenario(&mut log);
    let coverable = state.get_leverage_coverable_amount();
    let arg = OpenLeveragePositionArg { amount: 100_000_000, take_profit: u64::MAX, covered_amount: coverable };
    assert!(check_open_leverage_position(&state, &arg).is_ok());
    assert!(open_position(&mut state, &mut log, user(2), arg, 20, 6));
    assert_eq!(state.get_coverered_ratio(), 100_000_000);
    assert!(state.check_invariants().is_err());
}

#[test]
fn liquidity_add_remove_and_claim() {
    let mut log = Vec::new();
    let mut state = scenario(&mut log);
    assert!(matches!(check_add_liquidity(&state, 99_999_999), Err(LiquidityError::AmountTooSmall)));
    assert!(check_add_liquidity(&state, 1_000_000_000).is_ok());
    assert!(apply_liquidity(&mut state, &mut log, user(3), LiquidityType::Add, 1_000_000_000, 40, 8));
    assert_eq!(state.icp_liqudity_amount, 997_500_000);
    // the whole pool went to the only provider
    assert_eq!(check_claim_liquidity_rewards(&state, user(3)).unwrap(), 2_499_975 + 2_500_000);
    assert_eq!(state.total_available_fees, 0);
    assert!(matches!(check_claim_liquidity_rewards(&state, user(4)), Err(LiquidityError::NoClaimableReward)));
    assert!(matches!(check_remove_liquidity(&state, user(4), 1), Err(LiquidityError::NoLiquidityProvided)));
    assert!(matches!(
        check_remove_liquidity(&state, user(3), 997_500_001),
        Err(LiquidityError::NotEnoughLiquidity(997_500_000))
    ));
    assert!(matches!(check_remove_liquidity(&state, user(3), 10_000), Err(LiquidityError::AmountTooSmall)));
    let plan = check_remove_liquidity(&state, user(3), 500_000_000).unwrap();
    assert_eq!(plan.protocol_fee, 1_250_000);
    assert!(apply_liquidity(&mut state, &mut log, user(3), LiquidityType::Remove, 500_000_000, 41, 9));
    assert_eq!(state.icp_liqudity_amount, 497_500_000);
    assert!(core_canister::audit::record_claim_liquidity_rewards(&mut state, &mut log, user(3)));
    assert!(matches!(check_claim_liquidity_rewards(&state, user(3)), Err(LiquidityError::NoClaimableReward)));
    let replayed = replay(log).unwrap();
    assert!(replayed.check_semantically_eq(&state).is_ok());
}

#[test]
fn guard_is_exclusive_per_principal_and_family() {
    let mut state = CoreState::new(init_args());
    let g = leverage_update_guard(&mut state, user(1)).unwrap();
    assert_eq!(leverage_update_guard(&mut state, user(1)).err(), Some(GuardError::AlreadyProcessing));
    // another family is independent
    let c = convert_update_guard(&mut state, user(1)).unwrap();
    g.release(&mut state);
    let again = leverage_update_guard(&mut state, user(1)).unwrap();
    again.release(&mut state);
    c.release(&mut state);
    assert!(state.leverage_principals_lock.is_empty());
    assert!(state.convert_principals_lock.is_empty());
}

#[test]
fn guard_family_is_capped() {
    let mut state = CoreState::new(init_args());
    let mut held = Vec::new();
    for k in 0..100u8 {
        held.push(Guard::new(&mut state, GuardKind::Liquidity, Principal::from_slice(&[k, 1])).unwrap());
    }
    let refused = Guard::new(&mut state, GuardKind::Liquidity, Principal::from_slice(&[200, 1]));
    assert_eq!(refused.err(), Some(GuardError::TooManyConcurrentRequests));
    held.pop().unwrap().release(&mut state);
    assert!(Guard::new(&mut state, GuardKind::Liquidity, Principal::from_slice(&[200, 1])).is_ok());
}

#[test]
fn timer_guard_is_single_slot() {
    let mut state = CoreState::new(init_args());
    let g = TimerLogicGuard::new(&mut state).unwrap();
    assert!(TimerLogicGuard::new(&mut state).is_none());
    g.release(&mut state);
    assert!(TimerLogicGuard::new(&mut state).is_some());
}

#[test]
fn task_queue_pops_earliest_ready_task() {
    let mut q = TaskQueue::new();
    q.schedule_at(50, TaskType::FetchPrice);
    q.schedule_at(10, TaskType::ProcessLogic);
    q.schedule_at(10, TaskType::CheckLeveragePositions);
    assert!(q.pop_if_ready(5).is_none());
    assert_eq!(q.pop_if_ready(20).unwrap().task_type, TaskType::ProcessLogic);
    assert_eq!(q.pop_if_ready(20).unwrap().task_type, TaskType::CheckLeveragePositions);
    assert!(q.pop_if_ready(20).is_none());
    assert_eq!(q.get_task_vec().len(), 1);
}
