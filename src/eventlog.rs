use crate::accounts::sum_amounts;
use crate::book::{initial_book, lemma_initial_wf};
use crate::lifecycle::{InitArgs, UpgradeArgs};
use crate::liquidity::{Liquidity, LiquidityType};
use crate::state::{has_swap, price_inserted, stepped, swap_index, Asset, Book, CoreState, IcpPrice, LeveragePosition};
use crate::swap::{Swap, SwapSuccess};
use candid::Principal;
use vstd::prelude::*;

verus! {

pub struct GetEventsArg {
    pub start: u64,
    pub length: u64,
}

/// One entry of the append-only log. The first entry of a log is `Init`; every later
/// entry is a change to the state.
pub enum Event {
    Init(InitArgs),
    Upgrade(UpgradeArgs),
    OpenLeveragePosition(LeveragePosition),
    CloseLeveragePosition {
        /// Block index of the deposit that opened the position.
        deposit_block_index: u64,
        /// Block index of the payout; `None` when the position was liquidated.
        output_block_index: Option<u64>,
        /// Fee collected by the protocol.
        fee: u64,
        /// Time of the close.
        timestamp: u64,
        /// Price used to settle the position.
        icp_price: IcpPrice,
    },
    Swap(Swap),
    SwapSuccess(SwapSuccess),
    Liquidity(Liquidity),
    ClaimLiquidityRewards { owner: Principal },
}

#[derive(Debug)]
pub enum ReplayLogError {
    /// There are no events in the event log.
    EmptyLog,
    /// The event log is inconsistent.
    InconsistentLog(String),
}

pub open spec fn then_distribute(b: Option<Book>, fee: int) -> Option<Book> {
    match b {
        Some(b) => b.distribute_fee(fee),
        None => None,
    }
}

/// The book after `e`, or `None` when `e` cannot follow `b`.
pub open spec fn apply_event(b: Book, e: Event) -> Option<Book> {
    match e {
        Event::Init(args) => Some(b.reinit(args)),
        Event::Upgrade(_) => Some(b),
        Event::OpenLeveragePosition(p) => then_distribute(b.open_position(p), p.fee as int),
        Event::CloseLeveragePosition { deposit_block_index, output_block_index, fee, icp_price, .. } =>
            then_distribute(
            b.close_position(deposit_block_index, icp_price.rate as int, output_block_index is None),
            fee as int,
        ),
        Event::Swap(s) => then_distribute(b.open_swap(s), s.fee as int),
        Event::SwapSuccess(s) => b.finish_swap(s.from_block_index),
        Event::Liquidity(l) => match l.operation_type {
            LiquidityType::Add => then_distribute(b.add_liquidity(l), l.fee as int),
            LiquidityType::Remove => then_distribute(b.remove_liquidity(l), l.fee as int),
        },
        Event::ClaimLiquidityRewards { owner } => Some(b.claim_rewards(owner)),
    }
}

/// The book that a log describes: `Init` first, then each event in order; `None` for
/// an empty log, a log that does not start with `Init`, or an event that cannot apply.
pub open spec fn replay_book(events: Seq<Event>) -> Option<Book>
    decreases events.len(),
{
    if events.len() == 0 {
        None
    } else if events.len() == 1 {
        match events[0] {
            Event::Init(args) => Some(initial_book(args)),
            _ => None,
        }
    } else {
        match replay_book(events.drop_last()) {
            Some(b) => apply_event(b, events.last()),
            None => None,
        }
    }
}

/// Appending an event to a log that describes `b` gives a log that describes `b`
/// with the event applied: the state kept alongside a log follows the log.
pub proof fn lemma_replay_push(log: Seq<Event>, e: Event)
    requires
        log.len() >= 1,
    ensures
        replay_book(log.push(e)) == match replay_book(log) {
            Some(b) => apply_event(b, e),
            None => None,
        },
{
    assert(log.push(e).drop_last() =~= log);
}

/// Replay is idempotent: two states rebuilt from the same log hold the same book, and
/// a state kept alongside the log (see the `record_*` functions) holds that book too.
pub proof fn lemma_replay_deterministic(log: Seq<Event>, a: Book, b: Book)
    requires
        replay_book(log) == Some(a),
        replay_book(log) == Some(b),
    ensures
        a == b,
        a.wf(),
{
    lemma_replay_wf(log);
}

/// Once a prefix of a log fails to replay, the whole log fails to replay.
pub proof fn lemma_replay_prefix_none(log: Seq<Event>, m: int)
    requires
        1 <= m <= log.len(),
        replay_book(log.take(m)) is None,
    ensures
        replay_book(log) is None,
    decreases log.len() - m,
{
    if m < log.len() {
        assert(log.take(m + 1).drop_last() =~= log.take(m));
        lemma_replay_prefix_none(log, m + 1);
    } else {
        assert(log.take(m) =~= log);
    }
}

/// Replaying a log yields a well-formed book: the tracked totals equal the sums over
/// providers and positions after any sequence of events that applies.
pub proof fn lemma_replay_wf(log: Seq<Event>)
    requires
        replay_book(log) is Some,
    ensures
        replay_book(log).unwrap().wf(),
    decreases log.len(),
{
    if log.len() == 1 {
        if let Event::Init(args) = log[0] {
            lemma_initial_wf(args);
        }
    } else {
        lemma_replay_wf(log.drop_last());
        lemma_apply_wf(replay_book(log.drop_last()).unwrap(), log.last());
    }
}

/// Every event that applies to a well-formed book leaves it well-formed.
pub proof fn lemma_apply_wf(b: Book, e: Event)
    requires
        b.wf(),
        apply_event(b, e) is Some,
    ensures
        apply_event(b, e).unwrap().wf(),
{
    match e {
        Event::Init(args) => {},
        Event::Upgrade(_) => {},
        Event::OpenLeveragePosition(p) => {
            crate::book::lemma_open_position_wf(b, p);
            crate::book::lemma_distribute_wf(b.open_position(p).unwrap(), p.fee as int);
        },
        Event::CloseLeveragePosition { deposit_block_index, output_block_index, fee, icp_price, .. } => {
            let liq = output_block_index is None;
            crate::book::lemma_close_position_wf(b, deposit_block_index, icp_price.rate as int, liq);
            crate::book::lemma_distribute_wf(
                b.close_position(deposit_block_index, icp_price.rate as int, liq).unwrap(),
                fee as int,
            );
        },
        Event::Swap(s) => {
            crate::book::lemma_open_swap_wf(b, s);
            crate::book::lemma_distribute_wf(b.open_swap(s).unwrap(), s.fee as int);
        },
        Event::SwapSuccess(s) => {
            crate::book::lemma_finish_swap_wf(b, s.from_block_index);
        },
        Event::Liquidity(l) => match l.operation_type {
            LiquidityType::Add => {
                crate::book::lemma_add_liquidity_wf(b, l);
                crate::book::lemma_distribute_wf(b.add_liquidity(l).unwrap(), l.fee as int);
            },
            LiquidityType::Remove => {
                crate::book::lemma_remove_liquidity_wf(b, l);
                crate::book::lemma_distribute_wf(b.remove_liquidity(l).unwrap(), l.fee as int);
            },
        },
        Event::ClaimLiquidityRewards { owner } => {
            crate::book::lemma_claim_wf(b, owner);
        },
    }
}

/// Covered collateral stays below the collateral (or both are zero), and no more
/// synthetic units were burned than minted.
pub open spec fn solvent(b: Book) -> bool {
    &&& (b.covered < b.collateral || (b.covered == 0 && b.collateral == 0))
    &&& b.burned <= b.minted
}

/// `e` settles an open synthetic-to-ICP swap: ICP leaves the collateral.
pub open spec fn is_redemption(b: Book, e: Event) -> bool {
    match e {
        Event::SwapSuccess(s) => has_swap(b.open_swaps, s.from_block_index)
            && b.open_swaps[swap_index(b.open_swaps, s.from_block_index)].from == Asset::EUSD,
        _ => false,
    }
}

/// `e` opens a position that covers all the collateral still free.
pub open spec fn covers_all(b: Book, e: Event) -> bool {
    match e {
        Event::OpenLeveragePosition(p) => p.covered_amount > 0 && b.covered + p.covered_amount
            >= b.collateral,
        _ => false,
    }
}

/// Invariant preservation, one event at a time: every event but a redemption and an
/// opening that covers all the free collateral keeps the book solvent.
pub proof fn lemma_apply_keeps_solvency(b: Book, e: Event)
    requires
        b.wf(),
        solvent(b),
        apply_event(b, e) is Some,
        !is_redemption(b, e),
        !covers_all(b, e),
    ensures
        solvent(apply_event(b, e).unwrap()),
{
    match e {
        Event::CloseLeveragePosition { deposit_block_index, output_block_index, fee, icp_price, .. } => {
            let i = crate::state::position_index(b.positions, deposit_block_index);
            let p = b.positions[i];
            let cv = |q: LeveragePosition| crate::state::covered_of(q);
            assert forall|k: int| 0 <= k < b.positions.len() implies cv(#[trigger] b.positions[k]) >= 0 by {}
            crate::state::lemma_sum_positions_entry(b.positions, i, cv);
            if output_block_index is Some {
                let price = icp_price.rate as int;
                let diff = crate::E8S as int - crate::leverage::price_ratio(
                    p.icp_entry_price.rate as int,
                    price,
                );
                if diff > 0 {
                    assert(crate::mul_e8s(p.covered_amount as int, diff) <= p.covered_amount) by (
                    nonlinear_arith)
                        requires diff <= crate::E8S, diff > 0, p.covered_amount >= 0;
                } else {
                    assert(crate::mul_e8s(-diff, p.covered_amount as int) >= 0) by (nonlinear_arith)
                        requires -diff >= 0, p.covered_amount >= 0;
                }
            }
        },
        Event::SwapSuccess(s) => {
            if has_swap(b.open_swaps, s.from_block_index) {
                let w = b.open_swaps[swap_index(b.open_swaps, s.from_block_index)];
                let net = w.from_amount - w.fee;
                assert(crate::mul_e8s(net, w.rate as int) >= 0) by (nonlinear_arith)
                    requires net >= 0, w.rate >= 0;
            }
        },
        _ => {},
    }
}

/// Invariant preservation over a whole log: replaying a log in which no event is a
/// redemption or an opening that covers all the free collateral yields a solvent book.
pub proof fn lemma_replay_keeps_solvency(log: Seq<Event>)
    requires
        replay_book(log) is Some,
        forall|k: int|
            1 <= k < log.len() ==> !is_redemption(replay_book(#[trigger] log.take(k)).unwrap(), log[k])
                && !covers_all(replay_book(log.take(k)).unwrap(), log[k]),
    ensures
        solvent(replay_book(log).unwrap()),
    decreases log.len(),
{
    if log.len() > 1 {
        let prev = log.drop_last();
        assert forall|k: int| 1 <= k < prev.len() implies !is_redemption(
            replay_book(#[trigger] prev.take(k)).unwrap(),
            prev[k],
        ) && !covers_all(replay_book(prev.take(k)).unwrap(), prev[k]) by {
            assert(prev.take(k) =~= log.take(k));
            assert(prev[k] == log[k]);
        }
        if replay_book(prev) is None {
            assert(replay_book(log) is None);
        }
        lemma_replay_keeps_solvency(prev);
        lemma_replay_wf(prev);
        assert(log.take(log.len() - 1) =~= prev);
        lemma_apply_keeps_solvency(replay_book(prev).unwrap(), log.last());
    }
}

impl CoreState {
    /// Whether `fee` can join the fee pool without the rewards and the pool together
    /// leaving 64 bits.
    pub fn fee_fits(&self, fee: u64) -> (r: bool)
        requires
            self.wf(),
        ensures
            r == (sum_amounts(self.liquidity_rewards@) + self.total_available_fees + fee
                <= u64::MAX),
    {
        proof {
            crate::accounts::lemma_sum_nonneg(self.liquidity_rewards@);
        }
        let rewards_total = crate::accounts::total_amount(&self.liquidity_rewards);
        fee <= u64::MAX - self.total_available_fees - rewards_total
    }

    /// Applies one event with the same mutation as when it was first recorded; nothing
    /// changes when it cannot apply.
    pub fn apply_event(&mut self, event: Event) -> (r: bool)
        requires
            old(self).wf(),
        ensures
            stepped(old(self), final(self), apply_event(old(self).book(), event), r),
    {
        match event {
            Event::Init(args) => {
                self.reinit(args);
                true
            },
            Event::Upgrade(_) => true,
            Event::OpenLeveragePosition(p) => {
                if !self.fee_fits(p.fee) {
                    return false;
                }
                if !self.open_leverage_position(p) {
                    return false;
                }
                self.distribute_fee(p.fee)
            },
            Event::CloseLeveragePosition {
                deposit_block_index,
                output_block_index,
                fee,
                timestamp: _,
                icp_price,
            } => {
                if !self.fee_fits(fee) {
                    return false;
                }
                if !self.close_leverage_position(
                    deposit_block_index,
                    icp_price,
                    output_block_index.is_none(),
                ) {
                    return false;
                }
                self.distribute_fee(fee)
            },
            Event::Swap(s) => {
                if !self.fee_fits(s.fee) {
                    return false;
                }
                if !self.insert_open_swap(s) {
                    return false;
                }
                self.distribute_fee(s.fee)
            },
            Event::SwapSuccess(s) => self.finish_swap(s.from_block_index),
            Event::Liquidity(l) => {
                if !self.fee_fits(l.fee) {
                    return false;
                }
                let applied = match l.operation_type {
                    LiquidityType::Add => self.add_liquidity(&l),
                    LiquidityType::Remove => self.remove_liquidity(&l),
                };
                if !applied {
                    return false;
                }
                self.distribute_fee(l.fee)
            },
            Event::ClaimLiquidityRewards { owner } => {
                self.remove_liquidity_rewards(&owner);
                true
            },
        }
    }
}

/// The price an event was settled at, with its time, if it carries one.
pub open spec fn event_price(e: Event) -> Option<(u64, IcpPrice)> {
    match e {
        Event::OpenLeveragePosition(p) => Some((p.timestamp, p.icp_entry_price)),
        Event::CloseLeveragePosition { timestamp, icp_price, .. } => Some((timestamp, icp_price)),
        Event::Swap(s) => Some((s.timestamp, IcpPrice { rate: s.rate })),
        _ => None,
    }
}

/// The price history that replaying `events` builds: each non-zero price carried by an
/// event after `Init`, recorded in order.
pub open spec fn replay_prices(events: Seq<Event>) -> Seq<(u64, IcpPrice)>
    decreases events.len(),
{
    if events.len() <= 1 {
        Seq::empty()
    } else {
        let prev = replay_prices(events.drop_last());
        match event_price(events.last()) {
            Some((t, p)) => if p.rate > 0 {
                price_inserted(prev, t, p)
            } else {
                prev
            },
            None => prev,
        }
    }
}

fn price_of_event(e: &Event) -> (r: Option<(u64, IcpPrice)>)
    ensures
        r == event_price(*e),
{
    match e {
        Event::OpenLeveragePosition(p) => Some((p.timestamp, p.icp_entry_price)),
        Event::CloseLeveragePosition { timestamp, icp_price, .. } => Some((*timestamp, *icp_price)),
        Event::Swap(s) => Some((s.timestamp, IcpPrice { rate: s.rate })),
        _ => None,
    }
}

/// Rebuilds the state from its log. The result is a function of the log alone: it
/// fails on an empty log, on a log that does not start with `Init` and on an event that
/// cannot apply, and otherwise holds the book that the log describes, with the prices
/// that its events carry and no guard held.
pub fn replay(events: Vec<Event>) -> (r: Result<CoreState, ReplayLogError>)
    ensures
        events@.len() == 0 <==> r matches Err(ReplayLogError::EmptyLog),
        r is Ok <==> replay_book(events@) is Some,
        r matches Ok(s) ==> {
            &&& s.wf()
            &&& s.book() == replay_book(events@).unwrap()
            &&& s.icp_prices@ == replay_prices(events@)
            &&& s.protocol_balance == 0
            &&& !s.is_timer_running
            &&& s.liquidity_principals_lock@.len() == 0
            &&& s.leverage_principals_lock@.len() == 0
            &&& s.convert_principals_lock@.len() == 0
        },
{
    let ghost all = events@;
    let n = events.len();
    if n == 0 {
        return Err(ReplayLogError::EmptyLog);
    }
    let mut remaining = events;
    let mut pending: Vec<Event> = Vec::new();
    while remaining.len() > 0
        invariant
            remaining@ == all.take(all.len() - pending@.len()),
            pending@.len() <= all.len(),
            all.len() > 0,
            forall|k: int| 0 <= k < pending@.len() ==> #[trigger] pending@[k] == all[all.len() - 1 - k],
        decreases remaining@.len(),
    {
        let e = remaining.pop().unwrap();
        proof {
            assert(remaining@ =~= all.take(all.len() - pending@.len() - 1));
        }
        pending.push(e);
    }
    let first = pending.pop().unwrap();
    assert(first == all[0]);
    let mut state = match first {
        Event::Init(args) => CoreState::new(args),
        _ => {
            proof {
                assert(all.take(1) =~= seq![all[0]]);
                lemma_replay_prefix_none(all, 1);
            }
            return Err(ReplayLogError::InconsistentLog("the first event is not Init".to_string()));
        },
    };
    proof {
        assert(all.take(1) =~= seq![all[0]]);
        assert(replay_book(all.take(1)) == Some(state.book()));
        assert(state.icp_prices@ =~= replay_prices(all.take(1)));
    }
    let mut j: usize = 1;
    while pending.len() > 0
        invariant
            1 <= j <= all.len(),
            all.len() > 0,
            all == events@,
            all.len() == n,
            pending@.len() == all.len() - j,
            forall|k: int| 0 <= k < pending@.len() ==> #[trigger] pending@[k] == all[all.len() - 1 - k],
            state.wf(),
            replay_book(all.take(j as int)) == Some(state.book()),
            state.icp_prices@ == replay_prices(all.take(j as int)),
            state.protocol_balance == 0,
            !state.is_timer_running,
            state.liquidity_principals_lock@.len() == 0,
            state.leverage_principals_lock@.len() == 0,
            state.convert_principals_lock@.len() == 0,
        decreases pending@.len(),
    {
        let e = pending.pop().unwrap();
        assert(e == all[j as int]);
        proof {
            assert(all.take(j as int + 1).drop_last() =~= all.take(j as int));
        }
        match price_of_event(&e) {
            Some((t, p)) => {
                if p.rate > 0 {
                    state.insert_price(t, p);
                }
            },
            None => {},
        }
        if !state.apply_event(e) {
            proof {
                lemma_replay_prefix_none(all, j as int + 1);
            }
            return Err(ReplayLogError::InconsistentLog("an event does not apply".to_string()));
        }
        j = j + 1;
    }
    proof {
        assert(all.take(j as int) =~= all);
    }
    Ok(state)
}

} // verus!
