use candid::Principal;
use core_canister::diagnostics::self_check;
use core_canister::eventlog::Event;
use core_canister::leverage::{open_position, OpenLeveragePositionArg};
use core_canister::lifecycle::InitArgs;
use core_canister::liquidity::{apply_liquidity, LiquidityType};
use core_canister::state::{CoreState, IcpPrice, Mode};
use core_canister::swap::open_swap;
use core_canister::audit::record_swap_success;
use core_canister::state::Asset;
use core_canister::tasks::{TaskQueue, TaskType};
use core_canister::timer::{on_price_fetched, ExchangeRate, FETCH_PRICE_DELAY_NANOS};

fn args() -> InitArgs {
    InitArgs {
        mode: Mode::RestrictedTo(vec![Principal::from_slice(&[9])]),
        eusd_ledger_principal: None,
        xrc_principal: None,
        icp_ledger_principal: None,
        min_amount_to_stable: Some(1),
        min_amount_from_stable: None,
        min_amount_leverage: None,
        min_amount_liquidity: Some(5),
    }
}

fn build(log: &mut Vec<Event>) -> CoreState {
    let mut state = CoreState::new(args());
    log.push(Event::Init(args()));
    state.insert_price(1, IcpPrice { rate: 200_000_000 });
    let p = Principal::from_slice(&[1]);
    assert!(open_swap(&mut state, log, p, Asset::ICP, 1, 1_000_000_000, 2));
    assert!(record_swap_success(&mut state, log, 1, 1));
    assert!(apply_liquidity(&mut state, log, p, LiquidityType::Add, 400_000_000, 2, 3));
    let arg = OpenLeveragePositionArg { amount: 300_000_000, take_profit: u64::MAX, covered_amount: 200_000_000 };
    assert!(open_position(&mut state, log, p, arg, 3, 4));
    state
}

#[test]
fn self_check_accepts_a_state_and_its_log() {
    let mut log = Vec::new();
    let state = build(&mut log);
    let mut copy = Vec::new();
    let _ = build(&mut copy);
    assert!(self_check(&state, copy).is_ok());
    assert!(self_check(&state, vec![]).is_err());
}

#[test]
fn self_check_catches_a_diverging_log() {
    let mut log = Vec::new();
    let state = build(&mut log);
    let other = vec![Event::Init(args())];
    assert!(self_check(&state, other).is_err());
}

#[test]
fn user_data_and_protocol_status() {
    let mut log = Vec::new();
    let state = build(&mut log);
    let p = Principal::from_slice(&[1]);
    let data = state.get_user_data(p);
    assert_eq!(data.liquidity_provided, 399_000_000);
    let positions = data.leverage_positions.unwrap();
    assert_eq!(positions.len(), 1);
    assert_eq!(positions[0].deposit_block_index, 3);
    assert!(state.get_user_data(Principal::from_slice(&[2])).leverage_positions.is_none());
    let status = state.get_protocol_status();
    assert_eq!(status.icp_price, 200_000_000);
    assert_eq!(status.coverable_amount, 997_500_000 - 200_000_000);
    assert_eq!(status.coverered_ratio, 20_050_125);
    // fees handed out so far: 2,500,000 + 1,000,000 + 750,000, all to the only provider
    assert_eq!(data.claimable_liquidity_rewards + state.total_available_fees, 4_250_000);
}

#[test]
fn fetched_prices_are_normalised_and_fetching_repeats() {
    let mut state = CoreState::new(args());
    let mut q = TaskQueue::new();
    on_price_fetched(&mut state, &mut q, Some(ExchangeRate { rate: 5_123_456_789, decimals: 9, timestamp: 77 }), 1_000);
    assert_eq!(state.get_last_icp_price(), Some(IcpPrice { rate: 512_345_678 }));
    assert_eq!(state.get_last_icp_price_timestamp(), Some(77));
    let tasks = q.get_task_vec();
    assert_eq!(tasks.len(), 2);
    assert_eq!(tasks[0].task_type, TaskType::CheckLeveragePositions);
    assert_eq!(tasks[1].task_type, TaskType::FetchPrice);
    assert_eq!(tasks[1].execute_at, 1_000 + FETCH_PRICE_DELAY_NANOS);
    on_price_fetched(&mut state, &mut q, None, 2_000);
    assert_eq!(q.get_task_vec().len(), 3);
    assert_eq!(state.icp_prices.len(), 1);
}

#[test]
fn prices_stay_ordered_and_replace_equal_times() {
    let mut state = CoreState::new(args());
    state.insert_price(30, IcpPrice { rate: 3 });
    state.insert_price(10, IcpPrice { rate: 1 });
    state.insert_price(20, IcpPrice { rate: 2 });
    state.insert_price(20, IcpPrice { rate: 22 });
    let times: Vec<u64> = state.icp_prices.iter().map(|(t, _)| *t).collect();
    assert_eq!(times, vec![10, 20, 30]);
    assert_eq!(state.icp_prices[1].1, IcpPrice { rate: 22 });
    assert_eq!(state.get_last_icp_price(), Some(IcpPrice { rate: 3 }));
}

#[test]
fn a_rate_that_converts_to_zero_is_not_recorded() {
    let mut state = CoreState::new(args());
    let mut q = TaskQueue::new();
    on_price_fetched(&mut state, &mut q, Some(ExchangeRate { rate: 7, decimals: 40, timestamp: 5 }), 1_000);
    assert!(state.icp_prices.is_empty());
    let tasks = q.get_task_vec();
    assert_eq!(tasks.len(), 1);
    assert_eq!(tasks[0].task_type, TaskType::FetchPrice);
    assert!(matches!(
        core_canister::swap::check_swap(&state, Asset::ICP, 1_000),
        Err(core_canister::swap::SwapError::NoPriceData)
    ));
}

#[test]
fn below_minimum_with_a_price_is_too_small() {
    let mut state = CoreState::new(args());
    state.insert_price(3, IcpPrice { rate: 1 });
    assert!(matches!(
        core_canister::swap::check_swap(&state, Asset::EUSD, 99_999_999),
        Err(core_canister::swap::SwapError::AmountTooSmall)
    ));
    assert!(core_canister::swap::check_swap(&state, Asset::ICP, 1).is_ok());
}

#[test]
fn a_fresh_state_has_zero_totals() {
    let state = CoreState::new(args());
    assert_eq!(state.protocol_balance, 0);
    assert_eq!(state.icp_collateral_amount, 0);
    assert_eq!(state.total_available_fees, 0);
    assert!(state.check_invariants().is_ok());
}
