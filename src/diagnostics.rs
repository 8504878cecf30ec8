use crate::accounts::same_principal;
use crate::book::initial_book;
use crate::eventlog::{replay, replay_book, Event, ReplayLogError};
use crate::lifecycle::InitArgs;
use crate::state::{covered_ratio, Book, CoreState, LeveragePosition, Mode};
use crate::E8S;
use crate::swap::Swap;
use candid::Principal;
use vstd::prelude::*;

verus! {

pub open spec fn same_mode(a: Mode, b: Mode) -> bool {
    match (a, b) {
        (Mode::ReadOnly, Mode::ReadOnly) => true,
        (Mode::RestrictedTo(x), Mode::RestrictedTo(y)) => x@ == y@,
        (Mode::DepositsRestrictedTo(x), Mode::DepositsRestrictedTo(y)) => x@ == y@,
        (Mode::GeneralAvailability, Mode::GeneralAvailability) => true,
        (Mode::NoHttpOutCalls, Mode::NoHttpOutCalls) => true,
        _ => false,
    }
}

/// Two books hold the same data: settings, balances, positions, open swaps and totals.
pub open spec fn semantically_eq(a: Book, b: Book) -> bool {
    &&& a.eusd_ledger_principal == b.eusd_ledger_principal
    &&& a.icp_ledger_principal == b.icp_ledger_principal
    &&& a.xrc_principal == b.xrc_principal
    &&& a.liquidity_provided == b.liquidity_provided
    &&& a.liquidity_rewards == b.liquidity_rewards
    &&& a.positions == b.positions
    &&& a.fees == b.fees
    &&& a.open_swaps == b.open_swaps
    &&& a.collateral == b.collateral
    &&& a.liquidity == b.liquidity
    &&& a.margin == b.margin
    &&& a.covered == b.covered
    &&& a.minted == b.minted
    &&& a.burned == b.burned
    &&& a.available_fees == b.available_fees
    &&& same_mode(a.mode, b.mode)
    &&& a.min_amount_to_stable == b.min_amount_to_stable
    &&& a.min_amount_from_stable == b.min_amount_from_stable
    &&& a.min_amount_leverage == b.min_amount_leverage
    &&& a.min_amount_liquidity == b.min_amount_liquidity
}

fn same_opt_principal(a: &Option<Principal>, b: &Option<Principal>) -> (r: bool)
    ensures
        r == (*a == *b),
{
    match (a, b) {
        (Some(x), Some(y)) => same_principal(x, y),
        (None, None) => true,
        _ => false,
    }
}

fn same_principals(a: &Vec<Principal>, b: &Vec<Principal>) -> (r: bool)
    ensures
        r == (a@ == b@),
{
    if a.len() != b.len() {
        return false;
    }
    let mut i: usize = 0;
    while i < a.len()
        invariant
            i <= a@.len(),
            a@.len() == b@.len(),
            forall|k: int| 0 <= k < i ==> a@[k] == b@[k],
        decreases a@.len() - i,
    {
        if !same_principal(&a[i], &b[i]) {
            return false;
        }
        i = i + 1;
    }
    assert(a@ =~= b@);
    true
}

fn same_mode_exec(a: &Mode, b: &Mode) -> (r: bool)
    ensures
        r == same_mode(*a, *b),
{
    match (a, b) {
        (Mode::ReadOnly, Mode::ReadOnly) => true,
        (Mode::RestrictedTo(x), Mode::RestrictedTo(y)) => same_principals(x, y),
        (Mode::DepositsRestrictedTo(x), Mode::DepositsRestrictedTo(y)) => same_principals(x, y),
        (Mode::GeneralAvailability, Mode::GeneralAvailability) => true,
        (Mode::NoHttpOutCalls, Mode::NoHttpOutCalls) => true,
        _ => false,
    }
}

fn same_entries(a: &Vec<(Principal, u64)>, b: &Vec<(Principal, u64)>) -> (r: bool)
    ensures
        r == (a@ == b@),
{
    if a.len() != b.len() {
        return false;
    }
    let mut i: usize = 0;
    while i < a.len()
        invariant
            i <= a@.len(),
            a@.len() == b@.len(),
            forall|k: int| 0 <= k < i ==> a@[k] == b@[k],
        decreases a@.len() - i,
    {
        if !same_principal(&a[i].0, &b[i].0) || a[i].1 != b[i].1 {
            return false;
        }
        i = i + 1;
    }
    assert(a@ =~= b@);
    true
}

fn same_position(a: &LeveragePosition, b: &LeveragePosition) -> (r: bool)
    ensures
        r == (*a == *b),
{
    same_principal(&a.owner, &b.owner) && a.amount == b.amount && a.covered_amount
        == b.covered_amount && a.take_profit == b.take_profit && a.timestamp == b.timestamp
        && a.icp_entry_price == b.icp_entry_price && a.deposit_block_index == b.deposit_block_index
        && a.fee == b.fee
}

fn same_positions(a: &Vec<LeveragePosition>, b: &Vec<LeveragePosition>) -> (r: bool)
    ensures
        r == (a@ == b@),
{
    if a.len() != b.len() {
        return false;
    }
    let mut i: usize = 0;
    while i < a.len()
        invariant
            i <= a@.len(),
            a@.len() == b@.len(),
            forall|k: int| 0 <= k < i ==> a@[k] == b@[k],
        decreases a@.len() - i,
    {
        if !same_position(&a[i], &b[i]) {
            return false;
        }
        i = i + 1;
    }
    assert(a@ =~= b@);
    true
}

fn same_swap(a: &Swap, b: &Swap) -> (r: bool)
    ensures
        r == (*a == *b),
{
    same_principal(&a.caller, &b.caller) && a.from == b.from && a.from_block_index
        == b.from_block_index && a.from_amount == b.from_amount && a.to == b.to && a.rate == b.rate
        && a.fee == b.fee && a.timestamp == b.timestamp
}

fn same_swaps(a: &Vec<Swap>, b: &Vec<Swap>) -> (r: bool)
    ensures
        r == (a@ == b@),
{
    if a.len() != b.len() {
        return false;
    }
    let mut i: usize = 0;
    while i < a.len()
        invariant
            i <= a@.len(),
            a@.len() == b@.len(),
            forall|k: int| 0 <= k < i ==> a@[k] == b@[k],
        decreases a@.len() - i,
    {
        if !same_swap(&a[i], &b[i]) {
            return false;
        }
        i = i + 1;
    }
    assert(a@ =~= b@);
    true
}

impl CoreState {
    /// Checks that `other` holds the same data as this state; the price history and the
    /// guards are not compared.
    pub fn check_semantically_eq(&self, other: &Self) -> (r: Result<(), String>)
        ensures
            r is Ok <==> semantically_eq(self.book(), other.book()),
    {
        if !same_opt_principal(&self.eusd_ledger_principal, &other.eusd_ledger_principal)
            || !same_opt_principal(&self.icp_ledger_principal, &other.icp_ledger_principal)
            || !same_opt_principal(&self.xrc_principal, &other.xrc_principal) {
            return Err("ledger or oracle principals do not match".to_string());
        }
        if !same_entries(&self.liquidity_provided, &other.liquidity_provided) {
            return Err("liquidity_provided does not match".to_string());
        }
        if !same_entries(&self.liquidity_rewards, &other.liquidity_rewards) {
            return Err("liquidity_rewards does not match".to_string());
        }
        if !same_positions(&self.leverage_positions, &other.leverage_positions) {
            return Err("leverage_positions do not match".to_string());
        }
        if self.fees != other.fees {
            return Err("fees do not match".to_string());
        }
        if !same_swaps(&self.open_swaps, &other.open_swaps) {
            return Err("open_swaps do not match".to_string());
        }
        if self.icp_collateral_amount != other.icp_collateral_amount
            || self.icp_liqudity_amount != other.icp_liqudity_amount
            || self.icp_leverage_margin_amount != other.icp_leverage_margin_amount
            || self.icp_collateral_covered_amount != other.icp_collateral_covered_amount
            || self.total_eusd_minted != other.total_eusd_minted
            || self.total_eusd_burned != other.total_eusd_burned
            || self.total_available_fees != other.total_available_fees {
            return Err("running totals do not match".to_string());
        }
        if !same_mode_exec(&self.mode, &other.mode) {
            return Err("mode does not match".to_string());
        }
        if self.min_amount_to_stable != other.min_amount_to_stable
            || self.min_amount_from_stable != other.min_amount_from_stable
            || self.min_amount_leverage != other.min_amount_leverage
            || self.min_amount_liquidity != other.min_amount_liquidity {
            return Err("minimum amounts do not match".to_string());
        }
        Ok(())
    }
}

/// A log holding only `Init` describes the state that `CoreState::new` builds from the
/// same arguments: the starting point of the live path.
pub proof fn lemma_init_log(args: InitArgs)
    ensures
        replay_book(seq![Event::Init(args)]) == Some(initial_book(args)),
{
}

/// Live state and replay agree: a live state that its log describes (the `record_*`
/// functions keep it so from `CoreState::new` on) is semantically equal to the state
/// that `replay` rebuilds from that log.
pub proof fn lemma_live_matches_replay(log: Seq<Event>, live: CoreState, rebuilt: CoreState)
    requires
        replay_book(log) == Some(live.book()),
        rebuilt.book() == replay_book(log).unwrap(),
    ensures
        semantically_eq(rebuilt.book(), live.book()),
{
}

/// Self-diagnosis: the live state satisfies the invariants, and, unless a sweep is in
/// flight, matches the state rebuilt from its log.
pub fn self_check(state: &CoreState, events: Vec<Event>) -> (r: Result<(), String>)
    requires
        state.wf(),
    ensures
        r is Ok <==> {
            &&& covered_ratio(state.book()) < E8S
            &&& state.book().burned <= state.book().minted
            &&& replay_book(events@) is Some
            &&& covered_ratio(replay_book(events@).unwrap()) < E8S
            &&& replay_book(events@).unwrap().burned <= replay_book(events@).unwrap().minted
            &&& !state.is_timer_running ==> semantically_eq(state.book(), replay_book(events@).unwrap())
        },
{
    state.check_invariants()?;
    let recovered = match replay(events) {
        Ok(s) => s,
        Err(ReplayLogError::EmptyLog) => {
            return Err("the event log is empty".to_string());
        },
        Err(ReplayLogError::InconsistentLog(msg)) => {
            return Err(msg);
        },
    };
    recovered.check_invariants()?;
    if !state.is_timer_running {
        state.check_semantically_eq(&recovered)?;
    }
    Ok(())
}

} // verus!
