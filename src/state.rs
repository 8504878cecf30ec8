use crate::accounts::{amount_of, keys_unique, sum_amounts};
use crate::book::initial_book;
use crate::liquidity::Liquidity;
use crate::lifecycle::InitArgs;
use crate::swap::Swap;
use candid::Principal;
use vstd::prelude::*;

verus! {

pub const DEFAULT_MIN_AMOUNT_FROM_STABLE: u64 = 100_000_000;

pub const DEFAULT_MIN_AMOUNT_TO_STABLE: u64 = 100_000_000;

pub const DEFAULT_MIN_AMOUNT_LEVERAGE: u64 = 100_000_000;

pub const DEFAULT_MIN_AMOUNT_LIQUIDITY: u64 = 100_000_000;

/// Base protocol fee: 0.25% in e8s.
pub const DEFAULT_BASE_FEE: u64 = 250_000;

pub const DEFAULT_LIQUIDATION_FEE: u64 = 2_500_000;

/// An ICP price in e8s.
#[derive(Clone, Copy, Debug, PartialEq, Eq, Structural)]
pub struct IcpPrice {
    pub rate: u64,
}

#[derive(Clone, Copy, Debug, PartialEq, Eq, Structural)]
pub struct ProtocolStatus {
    /// Collateral ratio of the protocol, e8s.
    pub collateral_ratio: u64,
    /// Share of the collateral covered by leverage positions, e8s.
    pub coverered_ratio: u64,
    /// Last ICP price, e8s.
    pub icp_price: u64,
    /// Total value locked, e8s.
    pub tvl: u64,
    /// Collateral still free to cover new leverage positions, e8s.
    pub coverable_amount: u64,
}

#[derive(Debug)]
pub struct UserData {
    pub claimable_liquidity_rewards: u64,
    pub liquidity_provided: u64,
    pub leverage_positions: Option<Vec<LeveragePosition>>,
}

/// A leveraged position; `deposit_block_index` is its identity.
#[derive(Clone, Copy, Debug, PartialEq, Eq)]
pub struct LeveragePosition {
    pub owner: Principal,
    pub amount: u64,
    pub covered_amount: u64,
    pub take_profit: u64,
    pub timestamp: u64,
    pub icp_entry_price: IcpPrice,
    pub deposit_block_index: u64,
    pub fee: u64,
}

#[derive(Clone, Copy, Debug, PartialEq, Eq, Structural)]
pub struct FeesPerAction {
    pub base_fee: u64,
    pub liquidation_fee: u64,
    pub stability_fee: u64,
}

#[derive(Clone, Copy, Debug, PartialEq, Eq, Structural)]
pub enum ConversionType {
    SendIcp(u64),
    ReceiveIcp(u64),
    MinteUSD(u64),
    BurneUSD(u64),
}

#[derive(Clone, Copy, Debug, PartialEq, Eq, Structural)]
pub enum Asset {
    ICP,
    EUSD,
}

#[derive(Clone, Debug)]
pub enum Mode {
    ReadOnly,
    RestrictedTo(Vec<Principal>),
    DepositsRestrictedTo(Vec<Principal>),
    GeneralAvailability,
    NoHttpOutCalls,
}

pub struct CoreState {
    /// Ledger and oracle canisters; `None` stands for the well-known default.
    pub eusd_ledger_principal: Option<Principal>,
    pub icp_ledger_principal: Option<Principal>,
    pub xrc_principal: Option<Principal>,
    pub liquidity_provided: Vec<(Principal, u64)>,
    pub liquidity_rewards: Vec<(Principal, u64)>,
    /// Open positions, at most one per deposit block index.
    pub leverage_positions: Vec<LeveragePosition>,
    pub fees: FeesPerAction,
    /// Swaps whose outbound leg is not settled yet, one per inbound block index.
    pub open_swaps: Vec<Swap>,
    pub icp_collateral_amount: u64,
    pub icp_liqudity_amount: u64,
    pub icp_leverage_margin_amount: u64,
    pub icp_collateral_covered_amount: u64,
    pub protocol_balance: u64,
    pub total_eusd_minted: u64,
    pub total_eusd_burned: u64,
    pub total_available_fees: u64,
    pub mode: Mode,
    pub min_amount_to_stable: u64,
    pub min_amount_from_stable: u64,
    pub min_amount_leverage: u64,
    pub min_amount_liquidity: u64,
    /// Recorded prices as (timestamp, price), strictly increasing in timestamp.
    pub icp_prices: Vec<(u64, IcpPrice)>,
    pub is_timer_running: bool,
    pub liquidity_principals_lock: Vec<Principal>,
    pub leverage_principals_lock: Vec<Principal>,
    pub convert_principals_lock: Vec<Principal>,
}

/// The part of the state that the event log determines: everything but the price
/// history and the guards.
pub ghost struct Book {
    pub eusd_ledger_principal: Option<Principal>,
    pub icp_ledger_principal: Option<Principal>,
    pub xrc_principal: Option<Principal>,
    pub liquidity_provided: Seq<(Principal, u64)>,
    pub liquidity_rewards: Seq<(Principal, u64)>,
    pub positions: Seq<LeveragePosition>,
    pub fees: FeesPerAction,
    pub open_swaps: Seq<Swap>,
    pub collateral: int,
    pub liquidity: int,
    pub margin: int,
    pub covered: int,
    pub minted: int,
    pub burned: int,
    pub available_fees: int,
    pub mode: Mode,
    pub min_amount_to_stable: u64,
    pub min_amount_from_stable: u64,
    pub min_amount_leverage: u64,
    pub min_amount_liquidity: u64,
}

// ---------------------------------------------------------------------------
// Positions and swaps as keyed sequences.
pub open spec fn position_indices_unique(s: Seq<LeveragePosition>) -> bool {
    forall|i: int, j: int|
        0 <= i < s.len() && 0 <= j < s.len() && #[trigger] s[i].deposit_block_index
            == #[trigger] s[j].deposit_block_index ==> i == j
}

pub open spec fn has_position(s: Seq<LeveragePosition>, idx: u64) -> bool {
    exists|i: int| 0 <= i < s.len() && #[trigger] s[i].deposit_block_index == idx
}

pub open spec fn position_index(s: Seq<LeveragePosition>, idx: u64) -> int {
    choose|i: int| 0 <= i < s.len() && #[trigger] s[i].deposit_block_index == idx
}

/// Margin that a position keeps in the margin pool: its deposit net of the fee.
pub open spec fn net_margin(p: LeveragePosition) -> int {
    p.amount - p.fee
}

pub open spec fn covered_of(p: LeveragePosition) -> int {
    p.covered_amount as int
}

pub open spec fn sum_positions(s: Seq<LeveragePosition>, f: spec_fn(LeveragePosition) -> int) -> int
    decreases s.len(),
{
    if s.len() == 0 {
        0
    } else {
        sum_positions(s.drop_last(), f) + f(s.last())
    }
}

pub proof fn lemma_sum_positions_push(
    s: Seq<LeveragePosition>,
    x: LeveragePosition,
    f: spec_fn(LeveragePosition) -> int,
)
    ensures
        sum_positions(s.push(x), f) == sum_positions(s, f) + f(x),
{
    assert(s.push(x).drop_last() =~= s);
}

pub proof fn lemma_sum_positions_remove(
    s: Seq<LeveragePosition>,
    i: int,
    f: spec_fn(LeveragePosition) -> int,
)
    requires
        0 <= i < s.len(),
    ensures
        sum_positions(s.remove(i), f) == sum_positions(s, f) - f(s[i]),
    decreases s.len(),
{
    if i == s.len() - 1 {
        assert(s.remove(i) =~= s.drop_last());
    } else {
        lemma_sum_positions_remove(s.drop_last(), i, f);
        assert(s.remove(i).drop_last() =~= s.drop_last().remove(i));
    }
}

pub proof fn lemma_sum_positions_entry(
    s: Seq<LeveragePosition>,
    i: int,
    f: spec_fn(LeveragePosition) -> int,
)
    requires
        0 <= i < s.len(),
        forall|k: int| 0 <= k < s.len() ==> f(#[trigger] s[k]) >= 0,
    ensures
        0 <= f(s[i]) <= sum_positions(s, f),
    decreases s.len(),
{
    lemma_sum_positions_nonneg(s.drop_last(), f);
    if i < s.len() - 1 {
        lemma_sum_positions_entry(s.drop_last(), i, f);
    }
}

pub proof fn lemma_sum_positions_nonneg(s: Seq<LeveragePosition>, f: spec_fn(LeveragePosition) -> int)
    requires
        forall|k: int| 0 <= k < s.len() ==> f(#[trigger] s[k]) >= 0,
    ensures
        sum_positions(s, f) >= 0,
    decreases s.len(),
{
    if s.len() > 0 {
        lemma_sum_positions_nonneg(s.drop_last(), f);
    }
}

pub open spec fn swap_keys_unique(s: Seq<Swap>) -> bool {
    forall|i: int, j: int|
        0 <= i < s.len() && 0 <= j < s.len() && #[trigger] s[i].from_block_index
            == #[trigger] s[j].from_block_index ==> i == j
}

pub open spec fn has_swap(s: Seq<Swap>, idx: u64) -> bool {
    exists|i: int| 0 <= i < s.len() && #[trigger] s[i].from_block_index == idx
}

pub open spec fn swap_index(s: Seq<Swap>, idx: u64) -> int {
    choose|i: int| 0 <= i < s.len() && #[trigger] s[i].from_block_index == idx
}

pub open spec fn prices_sorted(s: Seq<(u64, IcpPrice)>) -> bool {
    forall|i: int, j: int| 0 <= i < j < s.len() ==> #[trigger] s[i].0 < #[trigger] s[j].0
}

/// The price history is ordered by timestamp and holds no zero price.
pub open spec fn prices_ok(s: Seq<(u64, IcpPrice)>) -> bool {
    &&& prices_sorted(s)
    &&& forall|k: int| 0 <= k < s.len() ==> (#[trigger] s[k]).1.rate > 0
}

/// Where a price taken at `ts` goes in an ordered history: after every earlier price.
pub open spec fn price_slot(s: Seq<(u64, IcpPrice)>, ts: u64) -> int
    decreases s.len(),
{
    if s.len() == 0 {
        0
    } else if s.last().0 < ts {
        s.len() as int
    } else {
        price_slot(s.drop_last(), ts)
    }
}

/// The history after recording `p` at `ts`: it replaces a price of the same time, or is
/// inserted in timestamp order.
pub open spec fn price_inserted(s: Seq<(u64, IcpPrice)>, ts: u64, p: IcpPrice) -> Seq<(u64, IcpPrice)> {
    let k = price_slot(s, ts);
    if k < s.len() && s[k].0 == ts {
        s.update(k, (ts, p))
    } else {
        s.insert(k, (ts, p))
    }
}

proof fn lemma_price_slot(s: Seq<(u64, IcpPrice)>, ts: u64, i: int)
    requires
        prices_sorted(s),
        0 <= i <= s.len(),
        forall|k: int| 0 <= k < i ==> s[k].0 < ts,
        i < s.len() ==> s[i].0 >= ts,
    ensures
        price_slot(s, ts) == i,
    decreases s.len(),
{
    if s.len() > 0 {
        if i == s.len() {
            assert(s.last().0 < ts);
        } else {
            assert(s.last().0 >= ts) by {
                if i < s.len() - 1 {
                    assert(s[i].0 < s[s.len() - 1].0);
                }
            }
            let t = s.drop_last();
            assert forall|a: int, b: int| 0 <= a < b < t.len() implies #[trigger] t[a].0 < #[trigger] t[b].0 by {
                assert(t[a] == s[a] && t[b] == s[b]);
            }
            lemma_price_slot(t, ts, i);
        }
    }
}

/// A guard set holds each principal at most once, and at most `MAX_CONCURRENT` of them.
pub open spec fn guard_set_ok(s: Seq<Principal>) -> bool {
    &&& s.len() <= crate::guard::MAX_CONCURRENT
    &&& forall|i: int, j: int|
        0 <= i < s.len() && 0 <= j < s.len() && #[trigger] s[i] == #[trigger] s[j] ==> i == j
}

impl Book {
    /// The running totals agree with the entities they summarise, and the per-entity
    /// collections are maps keyed by their identities.
    pub open spec fn wf(self) -> bool {
        &&& keys_unique(self.liquidity_provided)
        &&& sum_amounts(self.liquidity_provided) == self.liquidity
        &&& keys_unique(self.liquidity_rewards)
        &&& sum_amounts(self.liquidity_rewards) + self.available_fees <= u64::MAX
        &&& position_indices_unique(self.positions)
        &&& forall|k: int|
            0 <= k < self.positions.len() ==> (#[trigger] self.positions[k]).fee
                <= self.positions[k].amount
        &&& sum_positions(self.positions, |p| net_margin(p)) == self.margin
        &&& sum_positions(self.positions, |p| covered_of(p)) == self.covered
        &&& swap_keys_unique(self.open_swaps)
        &&& forall|k: int|
            0 <= k < self.open_swaps.len() ==> (#[trigger] self.open_swaps[k]).fee
                <= self.open_swaps[k].from_amount && self.open_swaps[k].rate > 0
        &&& 0 <= self.collateral <= u64::MAX
        &&& 0 <= self.liquidity <= u64::MAX
        &&& 0 <= self.margin <= u64::MAX
        &&& 0 <= self.covered <= u64::MAX
        &&& 0 <= self.minted <= u64::MAX
        &&& 0 <= self.burned <= u64::MAX
        &&& 0 <= self.available_fees <= u64::MAX
    }
}

impl CoreState {
    pub open spec fn book(&self) -> Book {
        Book {
            eusd_ledger_principal: self.eusd_ledger_principal,
            icp_ledger_principal: self.icp_ledger_principal,
            xrc_principal: self.xrc_principal,
            liquidity_provided: self.liquidity_provided@,
            liquidity_rewards: self.liquidity_rewards@,
            positions: self.leverage_positions@,
            fees: self.fees,
            open_swaps: self.open_swaps@,
            collateral: self.icp_collateral_amount as int,
            liquidity: self.icp_liqudity_amount as int,
            margin: self.icp_leverage_margin_amount as int,
            covered: self.icp_collateral_covered_amount as int,
            minted: self.total_eusd_minted as int,
            burned: self.total_eusd_burned as int,
            available_fees: self.total_available_fees as int,
            mode: self.mode,
            min_amount_to_stable: self.min_amount_to_stable,
            min_amount_from_stable: self.min_amount_from_stable,
            min_amount_leverage: self.min_amount_leverage,
            min_amount_liquidity: self.min_amount_liquidity,
        }
    }

    pub open spec fn wf(&self) -> bool {
        &&& self.book().wf()
        &&& prices_ok(self.icp_prices@)
        &&& guard_set_ok(self.liquidity_principals_lock@)
        &&& guard_set_ok(self.leverage_principals_lock@)
        &&& guard_set_ok(self.convert_principals_lock@)
    }

    /// Everything but the book is left as it was.
    pub open spec fn same_outside_book(&self, other: &CoreState) -> bool {
        &&& self.icp_prices@ == other.icp_prices@
        &&& self.is_timer_running == other.is_timer_running
        &&& self.protocol_balance == other.protocol_balance
        &&& self.liquidity_principals_lock@ == other.liquidity_principals_lock@
        &&& self.leverage_principals_lock@ == other.leverage_principals_lock@
        &&& self.convert_principals_lock@ == other.convert_principals_lock@
    }
}

/// The state moved from `pre` to `post` by `step`: if the step applies, the book is its
/// result, otherwise nothing changed; all else is untouched either way.
pub open spec fn stepped(pre: &CoreState, post: &CoreState, step: Option<Book>, r: bool) -> bool {
    &&& post.wf()
    &&& post.same_outside_book(pre)
    &&& r == step is Some
    &&& r ==> post.book() == step.unwrap()
    &&& !r ==> post.book() == pre.book()
}

/// Position of the leverage position with deposit block index `idx`, if any.
pub fn find_position(v: &Vec<LeveragePosition>, idx: u64) -> (r: Option<usize>)
    requires
        position_indices_unique(v@),
    ensures
        r matches Some(i) ==> i < v@.len() && has_position(v@, idx) && position_index(v@, idx)
            == i,
        r is None ==> !has_position(v@, idx),
{
    let mut i: usize = 0;
    while i < v.len()
        invariant
            i <= v@.len(),
            position_indices_unique(v@),
            forall|k: int| 0 <= k < i ==> v@[k].deposit_block_index != idx,
        decreases v@.len() - i,
    {
        if v[i].deposit_block_index == idx {
            assert(has_position(v@, idx));
            let ghost j = position_index(v@, idx);
            assert(v@[j].deposit_block_index == v@[i as int].deposit_block_index);
            return Some(i);
        }
        i = i + 1;
    }
    None
}

/// Position of the open swap with inbound block index `idx`, if any.
pub fn find_swap(v: &Vec<Swap>, idx: u64) -> (r: Option<usize>)
    requires
        swap_keys_unique(v@),
    ensures
        r matches Some(i) ==> i < v@.len() && has_swap(v@, idx) && swap_index(v@, idx) == i,
        r is None ==> !has_swap(v@, idx),
{
    let mut i: usize = 0;
    while i < v.len()
        invariant
            i <= v@.len(),
            swap_keys_unique(v@),
            forall|k: int| 0 <= k < i ==> v@[k].from_block_index != idx,
        decreases v@.len() - i,
    {
        if v[i].from_block_index == idx {
            assert(has_swap(v@, idx));
            let ghost j = swap_index(v@, idx);
            assert(v@[j].from_block_index == v@[i as int].from_block_index);
            return Some(i);
        }
        i = i + 1;
    }
    None
}

impl CoreState {
    /// A fresh state for a new deployment.
    pub fn new(args: InitArgs) -> (r: CoreState)
        ensures
            r.wf(),
            r.book() == initial_book(args),
            r.icp_prices@.len() == 0,
            r.protocol_balance == 0,
            !r.is_timer_running,
            r.liquidity_principals_lock@.len() == 0,
            r.leverage_principals_lock@.len() == 0,
            r.convert_principals_lock@.len() == 0,
    {
        let r = CoreState {
            eusd_ledger_principal: args.eusd_ledger_principal,
            icp_ledger_principal: args.icp_ledger_principal,
            xrc_principal: args.xrc_principal,
            liquidity_provided: Vec::new(),
            liquidity_rewards: Vec::new(),
            leverage_positions: Vec::new(),
            fees: FeesPerAction {
                base_fee: DEFAULT_BASE_FEE,
                liquidation_fee: DEFAULT_LIQUIDATION_FEE,
                stability_fee: 0,
            },
            open_swaps: Vec::new(),
            icp_collateral_amount: 0,
            icp_liqudity_amount: 0,
            icp_leverage_margin_amount: 0,
            icp_collateral_covered_amount: 0,
            protocol_balance: 0,
            total_eusd_minted: 0,
            total_eusd_burned: 0,
            total_available_fees: 0,
            mode: args.mode,
            min_amount_to_stable: match args.min_amount_to_stable {
                Some(v) => v,
                None => DEFAULT_MIN_AMOUNT_TO_STABLE,
            },
            min_amount_from_stable: match args.min_amount_from_stable {
                Some(v) => v,
                None => DEFAULT_MIN_AMOUNT_FROM_STABLE,
            },
            min_amount_leverage: match args.min_amount_leverage {
                Some(v) => v,
                None => DEFAULT_MIN_AMOUNT_LEVERAGE,
            },
            min_amount_liquidity: match args.min_amount_liquidity {
                Some(v) => v,
                None => DEFAULT_MIN_AMOUNT_LIQUIDITY,
            },
            icp_prices: Vec::new(),
            is_timer_running: false,
            liquidity_principals_lock: Vec::new(),
            leverage_principals_lock: Vec::new(),
            convert_principals_lock: Vec::new(),
        };
        assert(r.book() =~= initial_book(args));
        r
    }

    /// Applies new deployment settings; balances are kept.
    pub fn reinit(&mut self, args: InitArgs)
        requires
            old(self).wf(),
        ensures
            final(self).wf(),
            final(self).same_outside_book(old(self)),
            final(self).book() == old(self).book().reinit(args),
    {
        self.mode = args.mode;
        self.eusd_ledger_principal = args.eusd_ledger_principal;
        self.xrc_principal = args.xrc_principal;
        self.icp_ledger_principal = args.icp_ledger_principal;
        self.min_amount_to_stable = match args.min_amount_to_stable {
            Some(v) => v,
            None => DEFAULT_MIN_AMOUNT_TO_STABLE,
        };
        self.min_amount_from_stable = match args.min_amount_from_stable {
            Some(v) => v,
            None => DEFAULT_MIN_AMOUNT_FROM_STABLE,
        };
        self.min_amount_leverage = match args.min_amount_leverage {
            Some(v) => v,
            None => DEFAULT_MIN_AMOUNT_LEVERAGE,
        };
        self.min_amount_liquidity = match args.min_amount_liquidity {
            Some(v) => v,
            None => DEFAULT_MIN_AMOUNT_LIQUIDITY,
        };
        assert(self.book() =~= old(self).book().reinit(args));
    }

    /// Adds `fee` to the pool of available fees and distributes the pool to the
    /// liquidity providers.
    pub fn distribute_fee(&mut self, fee: u64) -> (r: bool)
        requires
            old(self).wf(),
        ensures
            stepped(old(self), final(self), old(self).book().distribute_fee(fee as int), r),
    {
        proof {
            crate::accounts::lemma_sum_nonneg(self.liquidity_rewards@);
        }
        let rewards_total = crate::accounts::total_amount(&self.liquidity_rewards);
        let room = u64::MAX - self.total_available_fees - rewards_total;
        if fee > room {
            return false;
        }
        self.total_available_fees = self.total_available_fees + fee;
        crate::liquidity::distribute_protocol_rewards(self);
        true
    }

    /// Credits a liquidity deposit, net of its fee, to its provider.
    pub fn add_liquidity(&mut self, liquidity: &Liquidity) -> (r: bool)
        requires
            old(self).wf(),
        ensures
            stepped(old(self), final(self), old(self).book().add_liquidity(*liquidity), r),
    {
        if liquidity.fee > liquidity.amount {
            return false;
        }
        let net = liquidity.amount - liquidity.fee;
        if self.icp_liqudity_amount > u64::MAX - net {
            return false;
        }
        proof {
            crate::book::lemma_add_liquidity_wf(self.book(), *liquidity);
            crate::liquidity::lemma_amount_le_sum(self.liquidity_provided@, liquidity.caller);
        }
        crate::accounts::credit_entry(&mut self.liquidity_provided, liquidity.caller, net);
        self.icp_liqudity_amount = self.icp_liqudity_amount + net;
        assert(self.book() =~= old(self).book().add_liquidity(*liquidity).unwrap());
        true
    }

    /// Takes a withdrawal from its provider's pooled balance.
    pub fn remove_liquidity(&mut self, liquidity: &Liquidity) -> (r: bool)
        requires
            old(self).wf(),
        ensures
            stepped(old(self), final(self), old(self).book().remove_liquidity(*liquidity), r),
    {
        match crate::accounts::lookup_amount(&self.liquidity_provided, &liquidity.caller) {
            None => {
                return false;
            },
            Some(balance) => {
                if liquidity.amount > balance {
                    return false;
                }
            },
        }
        proof {
            crate::book::lemma_remove_liquidity_wf(self.book(), *liquidity);
            crate::liquidity::lemma_amount_le_sum(self.liquidity_provided@, liquidity.caller);
        }
        crate::accounts::debit_entry(&mut self.liquidity_provided, liquidity.caller, liquidity.amount);
        self.icp_liqudity_amount = self.icp_liqudity_amount - liquidity.amount;
        assert(self.book() =~= old(self).book().remove_liquidity(*liquidity).unwrap());
        true
    }

    /// Drops the accrued rewards of `owner`.
    pub fn remove_liquidity_rewards(&mut self, owner: &Principal)
        requires
            old(self).wf(),
        ensures
            final(self).wf(),
            final(self).same_outside_book(old(self)),
            final(self).book() == old(self).book().claim_rewards(*owner),
    {
        proof {
            crate::book::lemma_claim_wf(self.book(), *owner);
        }
        crate::accounts::remove_entry(&mut self.liquidity_rewards, owner);
        assert(self.book() =~= old(self).book().claim_rewards(*owner));
    }

    /// Adds a new position and moves its margin and covered amount into the totals.
    pub fn open_leverage_position(&mut self, leverage_position: LeveragePosition) -> (r: bool)
        requires
            old(self).wf(),
        ensures
            stepped(old(self), final(self), old(self).book().open_position(leverage_position), r),
    {
        if leverage_position.fee > leverage_position.amount {
            return false;
        }
        if find_position(&self.leverage_positions, leverage_position.deposit_block_index).is_some() {
            return false;
        }
        let net = leverage_position.amount - leverage_position.fee;
        if self.icp_collateral_covered_amount > u64::MAX - leverage_position.covered_amount {
            return false;
        }
        if self.icp_leverage_margin_amount > u64::MAX - net {
            return false;
        }
        proof {
            crate::book::lemma_open_position_wf(self.book(), leverage_position);
        }
        self.icp_collateral_covered_amount = self.icp_collateral_covered_amount
            + leverage_position.covered_amount;
        self.icp_leverage_margin_amount = self.icp_leverage_margin_amount + net;
        self.leverage_positions.push(leverage_position);
        assert(self.book() =~= old(self).book().open_position(leverage_position).unwrap());
        true
    }

    /// Removes position `deposit_block_index` and settles its margin against the
    /// collateral, at `last_icp_price` or, when liquidated, with nothing paid out.
    pub fn close_leverage_position(
        &mut self,
        deposit_block_index: u64,
        last_icp_price: IcpPrice,
        liquidated: bool,
    ) -> (r: bool)
        requires
            old(self).wf(),
        ensures
            stepped(
                old(self),
                final(self),
                old(self).book().close_position(
                    deposit_block_index,
                    last_icp_price.rate as int,
                    liquidated,
                ),
                r,
            ),
    {
        let i = match find_position(&self.leverage_positions, deposit_block_index) {
            Some(i) => i,
            None => {
                return false;
            },
        };
        let position = self.leverage_positions[i];
        let paid: u64 = if liquidated {
            0
        } else {
            match crate::leverage::checked_cash_out_amount(&position, last_icp_price.rate) {
                Some(v) => v,
                None => {
                    return false;
                },
            }
        };
        let net = position.amount - position.fee;
        let available: u128 = self.icp_collateral_amount as u128 + net as u128;
        if (paid as u128) > available {
            return false;
        }
        let collateral: u128 = available - paid as u128;
        if collateral > u64::MAX as u128 {
            return false;
        }
        proof {
            crate::book::lemma_close_position_wf(
                self.book(),
                deposit_block_index,
                last_icp_price.rate as int,
                liquidated,
            );
            let nm = |q: LeveragePosition| net_margin(q);
            let cv = |q: LeveragePosition| covered_of(q);
            assert forall|k: int| 0 <= k < self.leverage_positions@.len() implies nm(
                #[trigger] self.leverage_positions@[k],
            ) >= 0 by {}
            assert forall|k: int| 0 <= k < self.leverage_positions@.len() implies cv(
                #[trigger] self.leverage_positions@[k],
            ) >= 0 by {}
            lemma_sum_positions_entry(self.leverage_positions@, i as int, nm);
            lemma_sum_positions_entry(self.leverage_positions@, i as int, cv);
        }
        self.leverage_positions.remove(i);
        self.icp_leverage_margin_amount = self.icp_leverage_margin_amount - net;
        self.icp_collateral_covered_amount = self.icp_collateral_covered_amount
            - position.covered_amount;
        self.icp_collateral_amount = collateral as u64;
        assert(self.book() =~= old(self).book().close_position(
            deposit_block_index,
            last_icp_price.rate as int,
            liquidated,
        ).unwrap());
        true
    }

    /// Records a swap whose inbound leg has settled.
    pub fn insert_open_swap(&mut self, swap: Swap) -> (r: bool)
        requires
            old(self).wf(),
        ensures
            stepped(old(self), final(self), old(self).book().open_swap(swap), r),
    {
        if swap.fee > swap.from_amount || swap.rate == 0 {
            return false;
        }
        proof {
            crate::book::lemma_open_swap_wf(self.book(), swap);
        }
        match find_swap(&self.open_swaps, swap.from_block_index) {
            Some(i) => {
                self.open_swaps.set(i, swap);
            },
            None => {
                self.open_swaps.push(swap);
            },
        }
        assert(self.book() =~= old(self).book().open_swap(swap).unwrap());
        true
    }

    /// Settles the open swap `from_block_index`, if there is one, into the collateral
    /// and the synthetic supply.
    pub fn finish_swap(&mut self, from_block_index: u64) -> (r: bool)
        requires
            old(self).wf(),
        ensures
            stepped(old(self), final(self), old(self).book().finish_swap(from_block_index), r),
    {
        let i = match find_swap(&self.open_swaps, from_block_index) {
            Some(i) => i,
            None => {
                assert(self.book() =~= old(self).book().finish_swap(from_block_index).unwrap());
                return true;
            },
        };
        let swap = self.open_swaps[i];
        let net = swap.from_amount - swap.fee;
        proof {
            crate::book::lemma_swaps_remove(self.open_swaps@, i as int);
        }
        match swap.from {
            Asset::EUSD => {
                if self.total_eusd_burned > u64::MAX - swap.from_amount {
                    return false;
                }
                let out_wide: u128 = net as u128 * 100_000_000u128 / swap.rate as u128;
                if out_wide > self.icp_collateral_amount as u128 {
                    return false;
                }
                let out = out_wide as u64;
                self.open_swaps.remove(i);
                self.total_eusd_burned = self.total_eusd_burned + swap.from_amount;
                self.icp_collateral_amount = self.icp_collateral_amount - out;
            },
            Asset::ICP => {
                assert(net as int * swap.rate as int <= u64::MAX as int * u64::MAX as int) by (nonlinear_arith)
                    requires net <= u64::MAX, swap.rate <= u64::MAX;
                let minted_wide: u128 = net as u128 * swap.rate as u128 / 100_000_000u128;
                if minted_wide > (u64::MAX - self.total_eusd_minted) as u128 {
                    return false;
                }
                let minted = minted_wide as u64;
                if self.icp_collateral_amount > u64::MAX - net {
                    return false;
                }
                self.open_swaps.remove(i);
                self.total_eusd_minted = self.total_eusd_minted + minted;
                self.icp_collateral_amount = self.icp_collateral_amount + net;
            },
        }
        proof {
            crate::book::lemma_finish_swap_wf(old(self).book(), from_block_index);
        }
        assert(self.book() =~= old(self).book().finish_swap(from_block_index).unwrap());
        true
    }
}

impl CoreState {
    /// Records `price` at `timestamp`, replacing a price recorded at that same time;
    /// the history stays ordered by timestamp.
    pub fn insert_price(&mut self, timestamp: u64, price: IcpPrice)
        requires
            old(self).wf(),
            price.rate > 0,
        ensures
            final(self).wf(),
            final(self).icp_prices@ == price_inserted(old(self).icp_prices@, timestamp, price),
            final(self).book() == old(self).book(),
            final(self).protocol_balance == old(self).protocol_balance,
            final(self).is_timer_running == old(self).is_timer_running,
            final(self).liquidity_principals_lock@ == old(self).liquidity_principals_lock@,
            final(self).leverage_principals_lock@ == old(self).leverage_principals_lock@,
            final(self).convert_principals_lock@ == old(self).convert_principals_lock@,
            final(self).icp_prices@.contains((timestamp, price)),
            forall|e: (u64, IcpPrice)|
                old(self).icp_prices@.contains(e) && e.0 != timestamp
                    ==> final(self).icp_prices@.contains(e),
            forall|e: (u64, IcpPrice)|
                #[trigger] final(self).icp_prices@.contains(e) ==> e == (timestamp, price)
                    || (old(self).icp_prices@.contains(e) && e.0 != timestamp),
    {
        let ghost s = self.icp_prices@;
        let mut i: usize = 0;
        while i < self.icp_prices.len() && self.icp_prices[i].0 < timestamp
            invariant
                i <= s.len(),
                self.icp_prices@ == s,
                forall|k: int| 0 <= k < i ==> s[k].0 < timestamp,
            decreases s.len() - i,
        {
            i = i + 1;
        }
        proof {
            lemma_price_slot(s, timestamp, i as int);
        }
        if i < self.icp_prices.len() && self.icp_prices[i].0 == timestamp {
            self.icp_prices.set(i, (timestamp, price));
            let ghost t = self.icp_prices@;
            assert(t[i as int] == (timestamp, price));
            assert forall|k: int| 0 <= k < t.len() implies (#[trigger] t[k]).1.rate > 0 by {
                if k != i {
                    assert(t[k] == s[k]);
                }
            }
            assert forall|e: (u64, IcpPrice)| s.contains(e) && e.0 != timestamp implies t.contains(
                e,
            ) by {
                let k = choose|k: int| 0 <= k < s.len() && s[k] == e;
                assert(t[k] == e);
            }
            assert forall|e: (u64, IcpPrice)| #[trigger] t.contains(e) implies e == (timestamp, price)
                || (s.contains(e) && e.0 != timestamp) by {
                let k = choose|k: int| 0 <= k < t.len() && t[k] == e;
                if k != i {
                    assert(s[k] == e);
                    if k < i {
                        assert(s[k].0 < s[i as int].0);
                    } else {
                        assert(s[i as int].0 < s[k].0);
                    }
                }
            }
        } else {
            self.icp_prices.insert(i, (timestamp, price));
            let ghost t = self.icp_prices@;
            assert(t[i as int] == (timestamp, price));
            assert forall|k: int| 0 <= k < t.len() implies (#[trigger] t[k]).1.rate > 0 by {
                if k < i {
                    assert(t[k] == s[k]);
                } else if k > i {
                    assert(t[k] == s[k - 1]);
                }
            }
            assert forall|a: int, b: int| 0 <= a < b < t.len() implies #[trigger] t[a].0
                < #[trigger] t[b].0 by {
                if b < i {
                    assert(t[a] == s[a] && t[b] == s[b]);
                } else if b == i {
                    assert(t[a] == s[a]);
                } else if a < i {
                    assert(t[a] == s[a] && t[b] == s[b - 1]);
                    if i < s.len() {
                        assert(s[i as int].0 >= timestamp);
                        assert(s[i as int].0 <= s[b - 1].0);
                    }
                } else if a == i {
                    assert(t[b] == s[b - 1]);
                    assert(s[i as int].0 >= timestamp);
                    assert(s[i as int].0 != timestamp);
                    assert(s[i as int].0 <= s[b - 1].0);
                } else {
                    assert(t[a] == s[a - 1] && t[b] == s[b - 1]);
                }
            }
            assert forall|e: (u64, IcpPrice)| s.contains(e) && e.0 != timestamp implies t.contains(
                e,
            ) by {
                let k = choose|k: int| 0 <= k < s.len() && s[k] == e;
                if k < i {
                    assert(t[k] == e);
                } else {
                    assert(t[k + 1] == e);
                }
            }
            assert forall|e: (u64, IcpPrice)| #[trigger] t.contains(e) implies e == (timestamp, price)
                || (s.contains(e) && e.0 != timestamp) by {
                let k = choose|k: int| 0 <= k < t.len() && t[k] == e;
                if k < i {
                    assert(s[k] == e);
                } else if k > i {
                    assert(s[k - 1] == e);
                    assert(s[i as int].0 >= timestamp && s[i as int].0 != timestamp);
                    assert(s[i as int].0 <= s[k - 1].0);
                }
            }
        }
    }

    /// The most recent price, if any was recorded.
    pub fn get_last_icp_price(&self) -> (r: Option<IcpPrice>)
        ensures
            self.icp_prices@.len() == 0 ==> r is None,
            self.icp_prices@.len() > 0 ==> r == Some(self.icp_prices@.last().1),
    {
        let n = self.icp_prices.len();
        if n == 0 {
            None
        } else {
            Some(self.icp_prices[n - 1].1)
        }
    }

    /// The time of the most recent price, if any was recorded.
    pub fn get_last_icp_price_timestamp(&self) -> (r: Option<u64>)
        ensures
            self.icp_prices@.len() == 0 ==> r is None,
            self.icp_prices@.len() > 0 ==> r == Some(self.icp_prices@.last().0),
    {
        let n = self.icp_prices.len();
        if n == 0 {
            None
        } else {
            Some(self.icp_prices[n - 1].0)
        }
    }
}

/// Value locked in ICP at `rate`: collateral, margin and liquidity together.
pub open spec fn tvl_at(b: Book, rate: int) -> int {
    crate::low_u64(crate::mul_e8s(b.collateral + b.margin + b.liquidity, rate))
}

/// Collateral ratio: value locked over the synthetic supply outstanding, or the largest
/// value when nothing is outstanding.
pub open spec fn collateral_ratio(b: Book, rate: int) -> int {
    if b.minted <= b.burned {
        u64::MAX as int
    } else {
        crate::low_u64(crate::div_e8s(tvl_at(b, rate), b.minted - b.burned))
    }
}

/// Share of the collateral covered by leverage positions: zero when both are zero, the
/// largest value when there is covered exposure but no collateral.
pub open spec fn covered_ratio(b: Book) -> int {
    if b.collateral == 0 && b.covered == 0 {
        0
    } else if b.collateral == 0 {
        u64::MAX as int
    } else {
        crate::low_u64(crate::div_e8s(b.covered, b.collateral))
    }
}

/// Collateral not yet covered by leverage positions.
pub open spec fn coverable(b: Book) -> int {
    if b.collateral > b.covered {
        b.collateral - b.covered
    } else {
        0
    }
}

impl CoreState {
    pub fn get_total_liquidity_amount(&self) -> (r: u64)
        requires
            self.wf(),
        ensures
            r == sum_amounts(self.liquidity_provided@),
    {
        crate::accounts::total_amount(&self.liquidity_provided)
    }

    /// Sum of the positions' margins net of fees, which the margin total tracks.
    pub fn get_total_leverage_amount(&self) -> (r: u64)
        requires
            self.wf(),
        ensures
            r == sum_positions(self.leverage_positions@, |p| net_margin(p)),
    {
        self.icp_leverage_margin_amount
    }

    /// Sum of the positions' covered amounts, which the covered total tracks.
    pub fn get_leverage_covered_amount(&self) -> (r: u64)
        requires
            self.wf(),
        ensures
            r == sum_positions(self.leverage_positions@, |p| covered_of(p)),
    {
        self.icp_collateral_covered_amount
    }

    pub fn get_leverage_coverable_amount(&self) -> (r: u64)
        requires
            self.wf(),
        ensures
            r == coverable(self.book()),
    {
        self.icp_collateral_amount.saturating_sub(self.icp_collateral_covered_amount)
    }

    /// Total value locked at the last price.
    pub fn get_tvl(&self) -> (r: u64)
        requires
            self.icp_prices@.len() > 0,
        ensures
            r == tvl_at(self.book(), self.icp_prices@.last().1.rate as int),
    {
        let rate = self.icp_prices[self.icp_prices.len() - 1].1.rate;
        let locked: u128 = self.icp_collateral_amount as u128 + self.icp_leverage_margin_amount as u128
            + self.icp_liqudity_amount as u128;
        // locked * rate may not fit in 128 bits: split locked at 10^8.
        let q: u128 = locked / 100_000_000u128;
        let m: u128 = locked % 100_000_000u128;
        assert(q * rate <= 3 * u64::MAX as int * u64::MAX as int / 100_000_000) by (nonlinear_arith)
            requires q == locked / 100_000_000, locked <= 3 * u64::MAX as int, rate <= u64::MAX;
        assert(m * rate < 100_000_000 * u64::MAX as int + 1) by (nonlinear_arith)
            requires m < 100_000_000, rate <= u64::MAX;
        let product: u128 = q * rate as u128 + m * rate as u128 / 100_000_000u128;
        proof {
            vstd::arithmetic::div_mod::lemma_fundamental_div_mod(locked as int, 100_000_000);
            assert(locked * rate == (q * rate) * 100_000_000 + m * rate) by (nonlinear_arith)
                requires locked == 100_000_000 * q + m;
            vstd::arithmetic::div_mod::lemma_hoist_over_denominator(
                m * rate,
                q * rate,
                100_000_000,
            );
            assert(m * rate + (q * rate) * 100_000_000 == locked * rate);
        }
        (product % 0x1_0000_0000_0000_0000u128) as u64
    }

    pub fn get_collateral_ratio(&self) -> (r: u64)
        requires
            self.icp_prices@.len() > 0,
        ensures
            r == collateral_ratio(self.book(), self.icp_prices@.last().1.rate as int),
    {
        let tvl = self.get_tvl();
        let diff = self.total_eusd_minted.saturating_sub(self.total_eusd_burned);
        if diff == 0 {
            return u64::MAX;
        }
        crate::divide_e8s(tvl, diff)
    }

    pub fn get_coverered_ratio(&self) -> (r: u64)
        ensures
            r == covered_ratio(self.book()),
    {
        if self.icp_collateral_amount == 0 && self.icp_collateral_covered_amount == 0 {
            return 0;
        }
        if self.icp_collateral_amount == 0 {
            return u64::MAX;
        }
        crate::divide_e8s(self.icp_collateral_covered_amount, self.icp_collateral_amount)
    }

    /// Diagnostic check of the protocol's invariants. The totals agree with the
    /// per-entity sums in every well-formed state; what remains to check at run time is
    /// that the covered ratio is below 100% and that no more was burned than minted.
    pub fn check_invariants(&self) -> (r: Result<(), String>)
        requires
            self.wf(),
        ensures
            r is Ok <==> covered_ratio(self.book()) < crate::E8S && self.book().burned
                <= self.book().minted,
            r is Ok ==> self.book().liquidity == sum_amounts(self.book().liquidity_provided)
                && self.book().margin == sum_positions(self.book().positions, |p| net_margin(p)),
    {
        if self.get_coverered_ratio() >= 100_000_000 {
            return Err("the covered ratio is not below 1".to_string());
        }
        if self.total_eusd_burned > self.total_eusd_minted {
            return Err("more eUSD was burned than minted".to_string());
        }
        if self.get_total_liquidity_amount() != self.icp_liqudity_amount {
            return Err("liquidity total differs from the providers' sum".to_string());
        }
        if self.get_total_leverage_amount() != self.icp_leverage_margin_amount {
            return Err("margin total differs from the positions' sum".to_string());
        }
        Ok(())
    }

    /// The position with deposit block index `deposit_block_index`, if it is open.
    pub fn get_leverage_position(&self, deposit_block_index: u64) -> (r: Option<LeveragePosition>)
        requires
            self.wf(),
        ensures
            r is Some <==> has_position(self.leverage_positions@, deposit_block_index),
            r matches Some(p) ==> p == self.leverage_positions@[position_index(
                self.leverage_positions@,
                deposit_block_index,
            )],
    {
        match find_position(&self.leverage_positions, deposit_block_index) {
            Some(i) => Some(self.leverage_positions[i]),
            None => None,
        }
    }
}

/// The positions of `owner`, in the order they are kept.
pub open spec fn owned_by(s: Seq<LeveragePosition>, owner: Principal) -> Seq<LeveragePosition>
    decreases s.len(),
{
    if s.len() == 0 {
        Seq::empty()
    } else if s.last().owner == owner {
        owned_by(s.drop_last(), owner).push(s.last())
    } else {
        owned_by(s.drop_last(), owner)
    }
}

impl CoreState {
    /// The open positions of `principal`, or `None` when it has none.
    pub fn get_leverage_position_of(&self, principal: Principal) -> (r: Option<Vec<LeveragePosition>>)
        ensures
            owned_by(self.leverage_positions@, principal).len() == 0 ==> r is None,
            owned_by(self.leverage_positions@, principal).len() > 0 ==> (r matches Some(v) && v@
                == owned_by(self.leverage_positions@, principal)),
    {
        let mut out: Vec<LeveragePosition> = Vec::new();
        let mut i: usize = 0;
        while i < self.leverage_positions.len()
            invariant
                i <= self.leverage_positions@.len(),
                out@ == owned_by(self.leverage_positions@.take(i as int), principal),
            decreases self.leverage_positions@.len() - i,
        {
            let p = self.leverage_positions[i];
            proof {
                assert(self.leverage_positions@.take(i as int + 1).drop_last() =~= self.leverage_positions@.take(i as int));
            }
            if crate::accounts::same_principal(&p.owner, &principal) {
                out.push(p);
            }
            i = i + 1;
        }
        proof {
            assert(self.leverage_positions@.take(i as int) =~= self.leverage_positions@);
        }
        if out.len() == 0 {
            None
        } else {
            Some(out)
        }
    }

    /// What `principal` holds in the protocol.
    pub fn get_user_data(&self, principal: Principal) -> (r: UserData)
        requires
            self.wf(),
        ensures
            r.claimable_liquidity_rewards == amount_of(self.liquidity_rewards@, principal),
            r.liquidity_provided == amount_of(self.liquidity_provided@, principal),
            owned_by(self.leverage_positions@, principal).len() == 0 ==> r.leverage_positions is None,
            owned_by(self.leverage_positions@, principal).len() > 0 ==> (r.leverage_positions matches Some(
                v,
            ) && v@ == owned_by(self.leverage_positions@, principal)),
    {
        let rewards = match crate::accounts::lookup_amount(&self.liquidity_rewards, &principal) {
            Some(a) => a,
            None => 0,
        };
        let provided = match crate::accounts::lookup_amount(&self.liquidity_provided, &principal) {
            Some(a) => a,
            None => 0,
        };
        UserData {
            claimable_liquidity_rewards: rewards,
            liquidity_provided: provided,
            leverage_positions: self.get_leverage_position_of(principal),
        }
    }

    /// The protocol's ratios and totals at the last price; all zero but the ratios when
    /// no price was recorded yet.
    pub fn get_protocol_status(&self) -> (r: ProtocolStatus)
        requires
            self.wf(),
        ensures
            r.coverered_ratio == covered_ratio(self.book()),
            r.coverable_amount == coverable(self.book()),
            self.icp_prices@.len() > 0 ==> {
                let rate = self.icp_prices@.last().1.rate as int;
                &&& r.icp_price == rate
                &&& r.tvl == tvl_at(self.book(), rate)
                &&& r.collateral_ratio == collateral_ratio(self.book(), rate)
            },
            self.icp_prices@.len() == 0 ==> r.icp_price == 0 && r.tvl == 0 && r.collateral_ratio
                == (if self.total_eusd_minted <= self.total_eusd_burned { u64::MAX } else { 0 }),
    {
        let (icp_price, tvl, collateral_ratio) = if self.icp_prices.len() == 0 {
            let cr = if self.total_eusd_minted <= self.total_eusd_burned {
                u64::MAX
            } else {
                0
            };
            (0, 0, cr)
        } else {
            (self.icp_prices[self.icp_prices.len() - 1].1.rate, self.get_tvl(), self.get_collateral_ratio())
        };
        ProtocolStatus {
            collateral_ratio,
            coverered_ratio: self.get_coverered_ratio(),
            icp_price,
            tvl,
            coverable_amount: self.get_leverage_coverable_amount(),
        }
    }
}

} // verus!
