use crate::audit::{record_swap, recorded};
use crate::eventlog::Event;
use crate::state::{covered_of, sum_positions, Asset, CoreState, LeveragePosition};
use crate::{div_e8s, low_u64, mul_e8s, E8S};
use candid::Principal;
use icrc_ledger_types::icrc1::transfer::TransferError;
use vstd::prelude::*;

verus! {

/// A conversion whose inbound leg has settled, keyed by that leg's block index.
#[derive(Clone, Copy, Debug, PartialEq, Eq)]
pub struct Swap {
    pub caller: Principal,
    pub from: Asset,
    pub from_block_index: u64,
    pub from_amount: u64,
    pub to: Asset,
    pub rate: u64,
    pub fee: u64,
    pub timestamp: u64,
}

#[derive(Clone, Copy, Debug, PartialEq, Eq, Structural)]
pub struct SwapSuccess {
    pub from_block_index: u64,
    pub to_block_index: u64,
}

#[derive(Clone, Copy, Debug, PartialEq, Eq, Structural)]
pub struct SwapArg {
    pub from_asset: Asset,
    pub to_asset: Asset,
    pub amount: u64,
}

#[derive(Debug)]
pub enum SwapError {
    ICPLedgerError(TransferError),
    EUSDLedgerError(TransferError),
    NoPriceData,
    AlreadyProcessing,
    TemporarilyUnavailable(String),
    AmountTooSmall,
}

/// The outbound leg of an open swap.
#[derive(Clone, Copy, Debug, PartialEq, Eq, Structural)]
pub enum Settlement {
    /// Mint this many synthetic units to the caller.
    MintEusd(u64),
    /// Transfer this many ICP units to the caller.
    TransferIcp(u64),
}

pub open spec fn other_asset(a: Asset) -> Asset {
    match a {
        Asset::ICP => Asset::EUSD,
        Asset::EUSD => Asset::ICP,
    }
}

/// Smallest amount that may be converted from `from`.
pub open spec fn min_amount_from(s: &CoreState, from: Asset) -> u64 {
    match from {
        Asset::ICP => s.min_amount_to_stable,
        Asset::EUSD => s.min_amount_from_stable,
    }
}

/// A price was recorded; in a well-formed state it is not zero.
pub open spec fn has_price(s: &CoreState) -> bool {
    s.icp_prices@.len() > 0
}

/// The swap recorded once the inbound leg of `amount` from `from` settled in block
/// `from_block_index`: priced at the last price, charged the base fee.
pub open spec fn swap_for(
    s: &CoreState,
    caller: Principal,
    from: Asset,
    from_block_index: u64,
    amount: u64,
    now: u64,
) -> Swap {
    Swap {
        caller,
        from,
        from_block_index,
        from_amount: amount,
        to: other_asset(from),
        rate: s.icp_prices@.last().1.rate,
        fee: low_u64(mul_e8s(s.fees.base_fee as int, amount as int)) as u64,
        timestamp: now,
    }
}

/// Validates a conversion request before any transfer is attempted.
pub fn check_swap(state: &CoreState, from: Asset, amount: u64) -> (r: Result<(), SwapError>)
    requires
        state.wf(),
    ensures
        r is Ok <==> has_price(state) && amount >= min_amount_from(state, from),
        r matches Err(e) ==> (e is NoPriceData <==> !has_price(state)) && (e is AmountTooSmall
            <==> has_price(state)),
{
    let n = state.icp_prices.len();
    if n == 0 {
        return Err(SwapError::NoPriceData);
    }
    let min = match from {
        Asset::ICP => state.min_amount_to_stable,
        Asset::EUSD => state.min_amount_from_stable,
    };
    if amount < min {
        return Err(SwapError::AmountTooSmall);
    }
    Ok(())
}

/// Records the swap once its inbound leg settled, and hands its fee to the liquidity
/// providers. The swap is then open until its outbound leg settles.
pub fn open_swap(
    state: &mut CoreState,
    log: &mut Vec<Event>,
    caller: Principal,
    from: Asset,
    from_block_index: u64,
    amount: u64,
    now: u64,
) -> (r: bool)
    requires
        old(state).wf(),
        old(state).icp_prices@.len() > 0,
    ensures
        recorded(
            old(state),
            final(state),
            old(log)@,
            final(log)@,
            Event::Swap(swap_for(old(state), caller, from, from_block_index, amount, now)),
            r,
        ),
{
    let rate = state.icp_prices[state.icp_prices.len() - 1].1.rate;
    let fee = crate::multiply_e8s(state.fees.base_fee, amount);
    let to = match from {
        Asset::ICP => Asset::EUSD,
        Asset::EUSD => Asset::ICP,
    };
    let swap = Swap {
        caller,
        from,
        from_block_index,
        from_amount: amount,
        to,
        rate,
        fee,
        timestamp: now,
    };
    record_swap(state, log, swap)
}

/// What the outbound leg of `swap` delivers: `rate * (amount - fee)` synthetic units
/// for ICP, `(amount - fee) / rate` ICP for synthetic units, in fixed point.
pub open spec fn settlement_of(swap: Swap) -> Settlement {
    let net = swap.from_amount - swap.fee;
    match swap.from {
        Asset::ICP => Settlement::MintEusd(low_u64(mul_e8s(net, swap.rate as int)) as u64),
        Asset::EUSD => Settlement::TransferIcp(low_u64(div_e8s(net, swap.rate as int)) as u64),
    }
}

pub fn compute_settlement(swap: &Swap) -> (r: Settlement)
    requires
        swap.fee <= swap.from_amount,
        swap.rate > 0,
    ensures
        r == settlement_of(*swap),
{
    let net = swap.from_amount - swap.fee;
    match swap.from {
        Asset::ICP => Settlement::MintEusd(crate::multiply_e8s(net, swap.rate)),
        Asset::EUSD => Settlement::TransferIcp(crate::divide_e8s(net, swap.rate)),
    }
}

/// The outbound legs still owed, one per open swap, in the order the swaps are kept.
pub fn pending_settlements(state: &CoreState) -> (r: Vec<(Swap, Settlement)>)
    requires
        state.wf(),
    ensures
        r@.len() == state.open_swaps@.len(),
        forall|i: int|
            0 <= i < r@.len() ==> #[trigger] r@[i] == (
                state.open_swaps@[i],
                settlement_of(state.open_swaps@[i]),
            ),
{
    let mut out: Vec<(Swap, Settlement)> = Vec::new();
    let mut i: usize = 0;
    while i < state.open_swaps.len()
        invariant
            i <= state.open_swaps@.len(),
            state.wf(),
            out@.len() == i,
            forall|k: int|
                0 <= k < i ==> #[trigger] out@[k] == (
                    state.open_swaps@[k],
                    settlement_of(state.open_swaps@[k]),
                ),
        decreases state.open_swaps@.len() - i,
    {
        let swap = state.open_swaps[i];
        assert(state.book().open_swaps[i as int] == swap);
        let settlement = compute_settlement(&swap);
        out.push((swap, settlement));
        i = i + 1;
    }
    out
}

/// Round trip: minting at rate `r` and redeeming the minted amount at the same rate
/// gives back at most what was put in, and less only by truncation: the shortfall
/// times the rate stays under `10^8 + r`.
pub proof fn lemma_swap_round_trip(x: int, r: int)
    requires
        x >= 0,
        r > 0,
    ensures
        div_e8s(mul_e8s(x, r), r) <= x,
        (x - div_e8s(mul_e8s(x, r), r)) * r < E8S + r,
{
    let e = E8S as int;
    let y = mul_e8s(x, r);
    let z = div_e8s(y, r);
    assert(y * e <= x * r && x * r < y * e + e) by (nonlinear_arith)
        requires y == x * r / e, e > 0, x >= 0, r > 0;
    assert(z * r <= y * e && y * e < z * r + r) by (nonlinear_arith)
        requires z == y * e / r, r > 0, y >= 0, e > 0;
    assert(z <= x) by (nonlinear_arith)
        requires z * r <= y * e, y * e <= x * r, r > 0;
    assert((x - z) * r < e + r) by (nonlinear_arith)
        requires x * r < y * e + e, y * e < z * r + r;
}

/// Margin ratio of a position, e8s: `((margin + covered) * current - margin * entry) /
/// (margin * entry)`; the lower, the closer to liquidation.
pub fn compute_margin_ratio(current_price: u64, entry_price: u64, amount: u64, covered_amount: u64) -> (r:
    u64)
    requires
        amount + covered_amount <= u64::MAX,
        mul_e8s(amount + covered_amount, current_price as int) <= u64::MAX,
        mul_e8s(amount as int, entry_price as int) > 0,
        mul_e8s(amount + covered_amount, current_price as int) >= mul_e8s(
            amount as int,
            entry_price as int,
        ),
    ensures
        r == low_u64(
            div_e8s(
                mul_e8s(amount + covered_amount, current_price as int) - mul_e8s(
                    amount as int,
                    entry_price as int,
                ),
                mul_e8s(amount as int, entry_price as int),
            ),
        ),
{
    let total_position_value = crate::multiply_e8s(amount + covered_amount, current_price);
    assert(mul_e8s(amount as int, entry_price as int) <= u64::MAX);
    let margin = crate::multiply_e8s(amount, entry_price);
    let equity = total_position_value - margin;
    crate::divide_e8s(equity, margin)
}

/// Rank of a position in a margin call: its margin ratio, zero when the position has no
/// margin or no equity left, capped at the largest `u64`; a position whose margin and
/// covered amount together exceed 64 bits ranks last.
pub open spec fn margin_score(p: LeveragePosition, price: int) -> int {
    if p.amount + p.covered_amount > u64::MAX {
        u64::MAX as int
    } else {
        let total = mul_e8s(p.amount + p.covered_amount, price);
        let margin = mul_e8s(p.amount as int, p.icp_entry_price.rate as int);
        if margin == 0 || total <= margin {
            0
        } else if div_e8s(total - margin, margin) > u64::MAX {
            u64::MAX as int
        } else {
            div_e8s(total - margin, margin)
        }
    }
}

fn compute_margin_score(p: &LeveragePosition, price: u64) -> (r: u64)
    ensures
        r == margin_score(*p, price as int),
{
    if p.amount > u64::MAX - p.covered_amount {
        return u64::MAX;
    }
    let size = (p.amount + p.covered_amount) as u128;
    assert(size * price <= u64::MAX as int * u64::MAX as int) by (nonlinear_arith)
        requires size <= u64::MAX, price <= u64::MAX;
    let total: u128 = size * price as u128 / 100_000_000u128;
    let a = p.amount as u128;
    assert(a * p.icp_entry_price.rate <= u64::MAX as int * u64::MAX as int) by (nonlinear_arith)
        requires a <= u64::MAX, p.icp_entry_price.rate <= u64::MAX;
    let margin: u128 = a * p.icp_entry_price.rate as u128 / 100_000_000u128;
    if margin == 0 || total <= margin {
        return 0;
    }
    let d: u128 = total - margin;
    assert(d * 100_000_000 <= u64::MAX as int * u64::MAX as int) by (nonlinear_arith)
        requires d <= total, total == size * price / 100_000_000, size <= u64::MAX, price <= u64::MAX;
    let ratio: u128 = d * 100_000_000u128 / margin;
    if ratio > u64::MAX as u128 {
        u64::MAX
    } else {
        ratio as u64
    }
}

/// Strict order of a margin call: by margin ratio, then by amount, covered amount,
/// take-profit price, opening time, entry price and deposit block index.
#[verifier::opaque]
pub open spec fn ranks_before(a: LeveragePosition, b: LeveragePosition, price: int) -> bool {
    let sa = margin_score(a, price);
    let sb = margin_score(b, price);
    if sa != sb {
        sa < sb
    } else if a.amount != b.amount {
        a.amount < b.amount
    } else if a.covered_amount != b.covered_amount {
        a.covered_amount < b.covered_amount
    } else if a.take_profit != b.take_profit {
        a.take_profit < b.take_profit
    } else if a.timestamp != b.timestamp {
        a.timestamp < b.timestamp
    } else if a.icp_entry_price.rate != b.icp_entry_price.rate {
        a.icp_entry_price.rate < b.icp_entry_price.rate
    } else {
        a.deposit_block_index < b.deposit_block_index
    }
}

/// The margin-call order is a strict total order on positions with distinct deposit
/// block indices.
pub proof fn lemma_ranks_before_order(a: LeveragePosition, b: LeveragePosition, c: LeveragePosition, price: int)
    ensures
        a.deposit_block_index != b.deposit_block_index ==> ranks_before(a, b, price) || ranks_before(b, a, price),
        !(ranks_before(a, b, price) && ranks_before(b, a, price)),
        ranks_before(a, b, price) && ranks_before(b, c, price) ==> ranks_before(a, c, price),
{
    reveal(ranks_before);
}

fn ranks_before_exec(a: &LeveragePosition, sa: u64, b: &LeveragePosition, sb: u64, price: u64) -> (r: bool)
    requires
        sa == margin_score(*a, price as int),
        sb == margin_score(*b, price as int),
    ensures
        r == ranks_before(*a, *b, price as int),
{
    proof {
        reveal(ranks_before);
    }
    if sa != sb {
        sa < sb
    } else if a.amount != b.amount {
        a.amount < b.amount
    } else if a.covered_amount != b.covered_amount {
        a.covered_amount < b.covered_amount
    } else if a.take_profit != b.take_profit {
        a.take_profit < b.take_profit
    } else if a.timestamp != b.timestamp {
        a.timestamp < b.timestamp
    } else if a.icp_entry_price.rate != b.icp_entry_price.rate {
        a.icp_entry_price.rate < b.icp_entry_price.rate
    } else {
        a.deposit_block_index < b.deposit_block_index
    }
}

/// `p` may follow `last` in a margin call: it ranks after it, or nothing came before.
pub open spec fn after(last: Option<LeveragePosition>, p: LeveragePosition, price: int) -> bool {
    match last {
        Some(l) => ranks_before(l, p, price),
        None => true,
    }
}

/// The lowest-ranked position that may follow `last`, if any.
fn find_next(ps: &Vec<LeveragePosition>, scores: &Vec<u64>, last: Option<LeveragePosition>, last_score: u64, price: u64) -> (r: Option<usize>)
    requires
        scores@.len() == ps@.len(),
        forall|k: int| 0 <= k < ps@.len() ==> #[trigger] scores@[k] == margin_score(ps@[k], price as int),
        last matches Some(l) ==> last_score == margin_score(l, price as int),
        crate::state::position_indices_unique(ps@),
    ensures
        r is None ==> forall|k: int| 0 <= k < ps@.len() ==> !after(last, #[trigger] ps@[k], price as int),
        r matches Some(b) ==> b < ps@.len() && after(last, ps@[b as int], price as int) && forall|k: int|
            0 <= k < ps@.len() && after(last, #[trigger] ps@[k], price as int) ==> ps@[k] == ps@[b as int]
                || ranks_before(ps@[b as int], ps@[k], price as int),
{
    let n = ps.len();
    let mut best: usize = n;
    let mut j: usize = 0;
    while j < n
        invariant
            j <= n,
            n == ps@.len(),
            scores@.len() == n,
            forall|k: int| 0 <= k < n ==> #[trigger] scores@[k] == margin_score(ps@[k], price as int),
            last matches Some(l) ==> last_score == margin_score(l, price as int),
            best == n || (best < j && after(last, ps@[best as int], price as int)),
            best == n ==> forall|k: int| 0 <= k < j ==> !after(last, #[trigger] ps@[k], price as int),
            best < n ==> forall|k: int| 0 <= k < j && after(last, #[trigger] ps@[k], price as int) ==> ps@[k] == ps@[best as int]
                || ranks_before(ps@[best as int], ps@[k], price as int),
            crate::state::position_indices_unique(ps@),
        decreases n - j,
    {
        let candidate = match last {
            Some(l) => ranks_before_exec(&l, last_score, &ps[j], scores[j], price),
            None => true,
        };
        if candidate {
            if best == n {
                best = j;
            } else if ranks_before_exec(&ps[j], scores[j], &ps[best], scores[best], price) {
                proof {
                    assert forall|k: int| 0 <= k < j && after(last, #[trigger] ps@[k], price as int) implies ps@[k] == ps@[j as int]
                        || ranks_before(ps@[j as int], ps@[k], price as int) by {
                        if ps@[k] != ps@[best as int] {
                            lemma_ranks_before_order(ps@[j as int], ps@[best as int], ps@[k], price as int);
                        }
                    }
                }
                best = j;
            } else {
                proof {
                    if j as int != best as int {
                        assert(ps@[j as int].deposit_block_index != ps@[best as int].deposit_block_index);
                    }
                    lemma_ranks_before_order(ps@[j as int], ps@[best as int], ps@[best as int], price as int);
                }
            }
        }
        j = j + 1;
    }
    if best == n {
        None
    } else {
        Some(best)
    }
}

/// The positions to close when covered collateral exceeds the collateral, riskiest
/// first: each is the lowest-ranked position after the one before it, and the run
/// stops as soon as closing it brings the covered collateral back within the
/// collateral, or when no position is left. Nothing is closed while the collateral
/// covers the exposure.
pub fn maybe_close_leverage_position(state: &CoreState) -> (r: Vec<LeveragePosition>)
    requires
        state.wf(),
        state.icp_prices@.len() > 0,
    ensures
        ({
            let ps = state.leverage_positions@;
            let price = state.icp_prices@.last().1.rate as int;
            let collateral = state.icp_collateral_amount as int;
            let covered = state.icp_collateral_covered_amount as int;
            &&& r@.len() <= ps.len()
            &&& forall|k: int| 0 <= k < r@.len() ==> ps.contains(#[trigger] r@[k])
            &&& forall|k: int, j: int|
                #![trigger r@[k], ps[j]]
                0 <= k < r@.len() && 0 <= j < ps.len() && after(if k == 0 { None } else { Some(r@[k - 1]) }, ps[j], price)
                    ==> ps[j] == r@[k] || ranks_before(r@[k], ps[j], price)
            &&& forall|k: int| 0 < k < r@.len() ==> ranks_before(r@[k - 1], #[trigger] r@[k], price)
            &&& covered - sum_positions(r@, |p| covered_of(p)) <= collateral || r@.len() == ps.len()
                || forall|j: int| 0 <= j < ps.len() ==> !after(if r@.len() == 0 { None } else { Some(r@.last()) }, #[trigger] ps[j], price)
            &&& r@.len() > 0 ==> covered - sum_positions(r@.drop_last(), |p| covered_of(p)) > collateral
        }),
{
    let price = state.icp_prices[state.icp_prices.len() - 1].1.rate;
    let ghost ps = state.leverage_positions@;
    let n = state.leverage_positions.len();
    let collateral = state.icp_collateral_amount;
    let covered = state.icp_collateral_covered_amount;
    let mut scores: Vec<u64> = Vec::new();
    let mut i: usize = 0;
    while i < n
        invariant
            i <= n,
            n == ps.len(),
            ps == state.leverage_positions@,
            scores@.len() == i,
            forall|k: int| 0 <= k < i ==> #[trigger] scores@[k] == margin_score(ps[k], price as int),
        decreases n - i,
    {
        let sc = compute_margin_score(&state.leverage_positions[i], price);
        scores.push(sc);
        i = i + 1;
    }
    let mut chosen: Vec<LeveragePosition> = Vec::new();
    let mut last: Option<LeveragePosition> = None;
    let mut last_score: u64 = 0;
    let mut remaining: u64 = covered;
    proof {
        assert(sum_positions(chosen@, |p| covered_of(p)) == 0);
    }
    while remaining > collateral && chosen.len() < n
        invariant
            n == ps.len(),
            ps == state.leverage_positions@,
            scores@.len() == n,
            forall|k: int| 0 <= k < n ==> #[trigger] scores@[k] == margin_score(ps[k], price as int),
            chosen@.len() <= n,
            crate::state::position_indices_unique(ps),
            last == (if chosen@.len() == 0 { None } else { Some(chosen@.last()) }),
            last matches Some(l) ==> last_score == margin_score(l, price as int),
            remaining as int == if covered - sum_positions(chosen@, |p| covered_of(p)) >= 0 {
                covered - sum_positions(chosen@, |p| covered_of(p))
            } else {
                0
            },
            chosen@.len() > 0 ==> covered - sum_positions(chosen@.drop_last(), |p| covered_of(p)) > collateral,
            forall|k: int| 0 <= k < chosen@.len() ==> ps.contains(#[trigger] chosen@[k]),
            forall|k: int, j: int|
                #![trigger chosen@[k], ps[j]]
                0 <= k < chosen@.len() && 0 <= j < ps.len() && after(if k == 0 { None } else { Some(chosen@[k - 1]) }, ps[j], price as int)
                    ==> ps[j] == chosen@[k] || ranks_before(chosen@[k], ps[j], price as int),
            forall|k: int| 0 < k < chosen@.len() ==> ranks_before(chosen@[k - 1], #[trigger] chosen@[k], price as int),
        ensures
            covered - sum_positions(chosen@, |p| covered_of(p)) <= collateral || chosen@.len() == n
                || forall|j: int| 0 <= j < ps.len() ==> !after(last, #[trigger] ps[j], price as int),
        decreases n - chosen@.len(),
    {
        let b = match find_next(&state.leverage_positions, &scores, last, last_score, price) {
            Some(b) => b,
            None => {
                break;
            },
        };
        let p = state.leverage_positions[b];
        let ghost old_chosen = chosen@;
        chosen.push(p);
        proof {
            crate::state::lemma_sum_positions_push(old_chosen, p, |q| covered_of(q));
            assert(chosen@.drop_last() =~= old_chosen);
            assert(ps[b as int] == p);
            assert(ps.contains(p));
            assert forall|k: int| 0 <= k < chosen@.len() implies ps.contains(#[trigger] chosen@[k]) by {
                if k < old_chosen.len() {
                    assert(chosen@[k] == old_chosen[k]);
                }
            }
            assert forall|k: int, j: int|
                #![trigger chosen@[k], ps[j]]
                0 <= k < chosen@.len() && 0 <= j < ps.len() && after(if k == 0 { None } else { Some(chosen@[k - 1]) }, ps[j], price as int)
                    implies ps[j] == chosen@[k] || ranks_before(chosen@[k], ps[j], price as int) by {
                if k < old_chosen.len() {
                    assert(chosen@[k] == old_chosen[k]);
                    if k > 0 {
                        assert(chosen@[k - 1] == old_chosen[k - 1]);
                    }
                }
            }
            assert forall|k: int| 0 < k < chosen@.len() implies ranks_before(chosen@[k - 1], #[trigger] chosen@[k], price as int) by {
                if k < old_chosen.len() {
                    assert(chosen@[k] == old_chosen[k] && chosen@[k - 1] == old_chosen[k - 1]);
                }
            }
        }
        last = Some(p);
        last_score = scores[b];
        remaining = remaining.saturating_sub(p.covered_amount);
    }
    chosen
}

} // verus!
