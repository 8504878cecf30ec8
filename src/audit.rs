use crate::eventlog::{apply_event, lemma_replay_push, replay_book, Event};
use crate::liquidity::Liquidity;
use crate::state::{stepped, CoreState, IcpPrice, LeveragePosition};
use crate::swap::{Swap, SwapSuccess};
use candid::Principal;
use vstd::prelude::*;

verus! {

/// `e` was applied to the state and appended to the log, or, when it cannot apply,
/// neither changed. A state that the log described before still matches it after.
pub open spec fn recorded(
    pre: &CoreState,
    post: &CoreState,
    pre_log: Seq<Event>,
    post_log: Seq<Event>,
    e: Event,
    r: bool,
) -> bool {
    &&& stepped(pre, post, apply_event(pre.book(), e), r)
    &&& r ==> post_log == pre_log.push(e)
    &&& !r ==> post_log == pre_log
    &&& replay_book(pre_log) == Some(pre.book()) ==> replay_book(post_log) == Some(post.book())
}

proof fn lemma_recorded(pre_log: Seq<Event>, e: Event)
    requires
        replay_book(pre_log) is Some,
    ensures
        replay_book(pre_log.push(e)) == apply_event(replay_book(pre_log).unwrap(), e),
{
    lemma_replay_push(pre_log, e);
}

pub fn record_swap(state: &mut CoreState, log: &mut Vec<Event>, swap: Swap) -> (r: bool)
    requires
        old(state).wf(),
    ensures
        recorded(old(state), final(state), old(log)@, final(log)@, Event::Swap(swap), r),
{
    proof {
        if replay_book(log@) is Some {
            lemma_recorded(log@, Event::Swap(swap));
        }
    }
    if !state.apply_event(Event::Swap(swap)) {
        return false;
    }
    log.push(Event::Swap(swap));
    true
}

pub fn record_swap_success(
    state: &mut CoreState,
    log: &mut Vec<Event>,
    from_block_index: u64,
    to_block_index: u64,
) -> (r: bool)
    requires
        old(state).wf(),
    ensures
        recorded(
            old(state),
            final(state),
            old(log)@,
            final(log)@,
            Event::SwapSuccess(SwapSuccess { from_block_index, to_block_index }),
            r,
        ),
{
    let e = SwapSuccess { from_block_index, to_block_index };
    proof {
        if replay_book(log@) is Some {
            lemma_recorded(log@, Event::SwapSuccess(e));
        }
    }
    if !state.apply_event(Event::SwapSuccess(e)) {
        return false;
    }
    log.push(Event::SwapSuccess(e));
    true
}

pub fn record_open_leverage_position(
    state: &mut CoreState,
    log: &mut Vec<Event>,
    leverage_position: LeveragePosition,
) -> (r: bool)
    requires
        old(state).wf(),
    ensures
        recorded(
            old(state),
            final(state),
            old(log)@,
            final(log)@,
            Event::OpenLeveragePosition(leverage_position),
            r,
        ),
{
    proof {
        if replay_book(log@) is Some {
            lemma_recorded(log@, Event::OpenLeveragePosition(leverage_position));
        }
    }
    if !state.apply_event(Event::OpenLeveragePosition(leverage_position)) {
        return false;
    }
    log.push(Event::OpenLeveragePosition(leverage_position));
    true
}

pub open spec fn close_event(
    deposit_block_index: u64,
    output_block_index: Option<u64>,
    fee: u64,
    timestamp: u64,
    icp_price: IcpPrice,
) -> Event {
    Event::CloseLeveragePosition { deposit_block_index, output_block_index, fee, timestamp, icp_price }
}

fn record_close(
    state: &mut CoreState,
    log: &mut Vec<Event>,
    deposit_block_index: u64,
    output_block_index: Option<u64>,
    fee: u64,
    timestamp: u64,
    icp_price: IcpPrice,
) -> (r: bool)
    requires
        old(state).wf(),
    ensures
        recorded(
            old(state),
            final(state),
            old(log)@,
            final(log)@,
            close_event(deposit_block_index, output_block_index, fee, timestamp, icp_price),
            r,
        ),
{
    proof {
        if replay_book(log@) is Some {
            lemma_recorded(
                log@,
                close_event(deposit_block_index, output_block_index, fee, timestamp, icp_price),
            );
        }
    }
    let applied = state.apply_event(
        Event::CloseLeveragePosition {
            deposit_block_index,
            output_block_index,
            fee,
            timestamp,
            icp_price,
        },
    );
    if !applied {
        return false;
    }
    log.push(
        Event::CloseLeveragePosition {
            deposit_block_index,
            output_block_index,
            fee,
            timestamp,
            icp_price,
        },
    );
    true
}

/// Records a close whose payout was made in block `output_block_index`.
pub fn record_close_leverage_position(
    state: &mut CoreState,
    log: &mut Vec<Event>,
    output_block_index: u64,
    deposit_block_index: u64,
    fee: u64,
    timestamp: u64,
    icp_price: IcpPrice,
) -> (r: bool)
    requires
        old(state).wf(),
    ensures
        recorded(
            old(state),
            final(state),
            old(log)@,
            final(log)@,
            close_event(deposit_block_index, Some(output_block_index), fee, timestamp, icp_price),
            r,
        ),
{
    record_close(state, log, deposit_block_index, Some(output_block_index), fee, timestamp, icp_price)
}

/// Records a liquidation: a close with no payout.
pub fn record_liquidate_leverage_position(
    state: &mut CoreState,
    log: &mut Vec<Event>,
    deposit_block_index: u64,
    fee: u64,
    timestamp: u64,
    icp_price: IcpPrice,
) -> (r: bool)
    requires
        old(state).wf(),
    ensures
        recorded(
            old(state),
            final(state),
            old(log)@,
            final(log)@,
            close_event(deposit_block_index, None, fee, timestamp, icp_price),
            r,
        ),
{
    record_close(state, log, deposit_block_index, None, fee, timestamp, icp_price)
}

pub fn record_liquidity(state: &mut CoreState, log: &mut Vec<Event>, liquidity: Liquidity) -> (r:
    bool)
    requires
        old(state).wf(),
    ensures
        recorded(old(state), final(state), old(log)@, final(log)@, Event::Liquidity(liquidity), r),
{
    proof {
        if replay_book(log@) is Some {
            lemma_recorded(log@, Event::Liquidity(liquidity));
        }
    }
    if !state.apply_event(Event::Liquidity(liquidity)) {
        return false;
    }
    log.push(Event::Liquidity(liquidity));
    true
}

/// Records that `owner`'s accrued rewards were paid out.
pub fn record_claim_liquidity_rewards(state: &mut CoreState, log: &mut Vec<Event>, owner: Principal) -> (r: bool)
    requires
        old(state).wf(),
    ensures
        recorded(
            old(state),
            final(state),
            old(log)@,
            final(log)@,
            Event::ClaimLiquidityRewards { owner },
            r,
        ),
{
    proof {
        if replay_book(log@) is Some {
            lemma_recorded(log@, Event::ClaimLiquidityRewards { owner });
        }
    }
    if !state.apply_event(Event::ClaimLiquidityRewards { owner }) {
        return false;
    }
    log.push(Event::ClaimLiquidityRewards { owner });
    true
}

} // verus!
