use crate::accounts::{
    amount_of, credited, debited, has_key, keys_unique, lemma_credited, lemma_debited,
    lemma_without_key, sum_amounts, without_key,
};
use crate::leverage::{cash_out, cash_out_in_range};
use crate::lifecycle::InitArgs;
use crate::liquidity::{credit_all, fee_shares, Liquidity};
use crate::state::{
    covered_of, has_position, has_swap, lemma_sum_positions_push, lemma_sum_positions_remove,
    net_margin, position_index, position_indices_unique, swap_index,
    swap_keys_unique, Asset, Book, FeesPerAction, LeveragePosition, DEFAULT_BASE_FEE,
    DEFAULT_LIQUIDATION_FEE, DEFAULT_MIN_AMOUNT_FROM_STABLE, DEFAULT_MIN_AMOUNT_LEVERAGE,
    DEFAULT_MIN_AMOUNT_LIQUIDITY, DEFAULT_MIN_AMOUNT_TO_STABLE,
};
use crate::swap::Swap;
use crate::{div_e8s, mul_e8s};
use candid::Principal;
use vstd::prelude::*;

verus! {

pub open spec fn or_default(v: Option<u64>, d: u64) -> u64 {
    match v {
        Some(x) => x,
        None => d,
    }
}

/// The book of a fresh deployment.
pub open spec fn initial_book(args: InitArgs) -> Book {
    Book {
        eusd_ledger_principal: args.eusd_ledger_principal,
        icp_ledger_principal: args.icp_ledger_principal,
        xrc_principal: args.xrc_principal,
        liquidity_provided: Seq::empty(),
        liquidity_rewards: Seq::empty(),
        positions: Seq::empty(),
        fees: FeesPerAction {
            base_fee: DEFAULT_BASE_FEE,
            liquidation_fee: DEFAULT_LIQUIDATION_FEE,
            stability_fee: 0,
        },
        open_swaps: Seq::empty(),
        collateral: 0,
        liquidity: 0,
        margin: 0,
        covered: 0,
        minted: 0,
        burned: 0,
        available_fees: 0,
        mode: args.mode,
        min_amount_to_stable: or_default(args.min_amount_to_stable, DEFAULT_MIN_AMOUNT_TO_STABLE),
        min_amount_from_stable: or_default(
            args.min_amount_from_stable,
            DEFAULT_MIN_AMOUNT_FROM_STABLE,
        ),
        min_amount_leverage: or_default(args.min_amount_leverage, DEFAULT_MIN_AMOUNT_LEVERAGE),
        min_amount_liquidity: or_default(args.min_amount_liquidity, DEFAULT_MIN_AMOUNT_LIQUIDITY),
    }
}

impl Book {
    /// New settings over the same balances.
    pub open spec fn reinit(self, args: InitArgs) -> Book {
        Book {
            eusd_ledger_principal: args.eusd_ledger_principal,
            icp_ledger_principal: args.icp_ledger_principal,
            xrc_principal: args.xrc_principal,
            mode: args.mode,
            min_amount_to_stable: or_default(args.min_amount_to_stable, DEFAULT_MIN_AMOUNT_TO_STABLE),
            min_amount_from_stable: or_default(
                args.min_amount_from_stable,
                DEFAULT_MIN_AMOUNT_FROM_STABLE,
            ),
            min_amount_leverage: or_default(args.min_amount_leverage, DEFAULT_MIN_AMOUNT_LEVERAGE),
            min_amount_liquidity: or_default(
                args.min_amount_liquidity,
                DEFAULT_MIN_AMOUNT_LIQUIDITY,
            ),
            ..self
        }
    }

    /// Adds `fee` to the pool and hands the whole pool out pro rata; `None` if the
    /// rewards and the pool together would no longer fit in 64 bits.
    pub open spec fn distribute_fee(self, fee: int) -> Option<Book> {
        if sum_amounts(self.liquidity_rewards) + self.available_fees + fee > u64::MAX {
            None
        } else {
            let pool = self.available_fees + fee;
            let shares = fee_shares(
                self.liquidity_provided,
                pool,
                sum_amounts(self.liquidity_provided),
            );
            Some(
                Book {
                    liquidity_rewards: credit_all(self.liquidity_rewards, shares),
                    available_fees: pool - sum_amounts(shares),
                    ..self
                },
            )
        }
    }

    /// Credits the deposit net of its fee to the provider.
    pub open spec fn add_liquidity(self, l: Liquidity) -> Option<Book> {
        let net = l.amount - l.fee;
        if l.fee > l.amount || self.liquidity + net > u64::MAX {
            None
        } else {
            Some(
                Book {
                    liquidity_provided: credited(self.liquidity_provided, l.caller, net),
                    liquidity: self.liquidity + net,
                    ..self
                },
            )
        }
    }

    /// Takes the withdrawn amount from the provider, who must hold that much.
    pub open spec fn remove_liquidity(self, l: Liquidity) -> Option<Book> {
        if !has_key(self.liquidity_provided, l.caller) || l.amount > amount_of(
            self.liquidity_provided,
            l.caller,
        ) {
            None
        } else {
            Some(
                Book {
                    liquidity_provided: debited(self.liquidity_provided, l.caller, l.amount as int),
                    liquidity: self.liquidity - l.amount,
                    ..self
                },
            )
        }
    }

    /// Adds a position with a new deposit block index; its net margin joins the margin
    /// pool and its covered amount the covered collateral.
    pub open spec fn open_position(self, p: LeveragePosition) -> Option<Book> {
        if p.fee > p.amount || has_position(self.positions, p.deposit_block_index) || self.covered
            + p.covered_amount > u64::MAX || self.margin + net_margin(p) > u64::MAX {
            None
        } else {
            Some(
                Book {
                    positions: self.positions.push(p),
                    covered: self.covered + p.covered_amount,
                    margin: self.margin + net_margin(p),
                    ..self
                },
            )
        }
    }

    /// Removes position `idx`. Its net margin leaves the margin pool; what is paid out
    /// beyond it comes from the collateral, what is paid out short of it goes to the
    /// collateral. A liquidated position pays nothing out.
    pub open spec fn close_position(self, idx: u64, price: int, liquidated: bool) -> Option<Book> {
        if !has_position(self.positions, idx) {
            None
        } else {
            let i = position_index(self.positions, idx);
            let p = self.positions[i];
            let paid = if liquidated {
                0
            } else {
                cash_out(p, price)
            };
            let collateral = self.collateral + net_margin(p) - paid;
            if (!liquidated && !cash_out_in_range(p, price)) || collateral < 0 || collateral
                > u64::MAX {
                None
            } else {
                Some(
                    Book {
                        positions: self.positions.remove(i),
                        margin: self.margin - net_margin(p),
                        covered: self.covered - p.covered_amount,
                        collateral,
                        ..self
                    },
                )
            }
        }
    }

    /// Records an open swap under its inbound block index, replacing one recorded there.
    pub open spec fn open_swap(self, s: Swap) -> Option<Book> {
        if s.fee > s.from_amount || s.rate == 0 {
            None
        } else if has_swap(self.open_swaps, s.from_block_index) {
            Some(
                Book {
                    open_swaps: self.open_swaps.update(
                        swap_index(self.open_swaps, s.from_block_index),
                        s,
                    ),
                    ..self
                },
            )
        } else {
            Some(Book { open_swaps: self.open_swaps.push(s), ..self })
        }
    }

    /// Settles swap `idx`: a mint adds the net deposit to the collateral and the minted
    /// amount to the supply; a redemption burns the synthetic amount and takes the paid
    /// out ICP from the collateral. An unknown index changes nothing.
    pub open spec fn finish_swap(self, idx: u64) -> Option<Book> {
        if !has_swap(self.open_swaps, idx) {
            Some(self)
        } else {
            let i = swap_index(self.open_swaps, idx);
            let s = self.open_swaps[i];
            let net = s.from_amount - s.fee;
            match s.from {
                Asset::EUSD => {
                    let out = div_e8s(net, s.rate as int);
                    if self.burned + s.from_amount > u64::MAX || out > self.collateral {
                        None
                    } else {
                        Some(
                            Book {
                                open_swaps: self.open_swaps.remove(i),
                                burned: self.burned + s.from_amount,
                                collateral: self.collateral - out,
                                ..self
                            },
                        )
                    }
                },
                Asset::ICP => {
                    let minted = mul_e8s(net, s.rate as int);
                    if self.minted + minted > u64::MAX || self.collateral + net > u64::MAX {
                        None
                    } else {
                        Some(
                            Book {
                                open_swaps: self.open_swaps.remove(i),
                                minted: self.minted + minted,
                                collateral: self.collateral + net,
                                ..self
                            },
                        )
                    }
                },
            }
        }
    }

    /// Drops the owner's accrued rewards, which have been paid out.
    pub open spec fn claim_rewards(self, owner: Principal) -> Book {
        Book { liquidity_rewards: without_key(self.liquidity_rewards, owner), ..self }
    }
}

pub proof fn lemma_initial_wf(args: InitArgs)
    ensures
        initial_book(args).wf(),
{
}

pub proof fn lemma_distribute_wf(b: Book, fee: int)
    requires
        b.wf(),
        0 <= fee,
        b.distribute_fee(fee) is Some,
    ensures
        b.distribute_fee(fee).unwrap().wf(),
{
    let pool = b.available_fees + fee;
    crate::accounts::lemma_sum_nonneg(b.liquidity_rewards);
    crate::liquidity::lemma_fee_conservation(b.liquidity_provided, pool);
    let shares = fee_shares(b.liquidity_provided, pool, sum_amounts(b.liquidity_provided));
    lemma_credit_all(b.liquidity_rewards, shares, pool);
}

/// Crediting a list of shares that sums to at most `room` keeps the keys unique and adds
/// exactly the shares' sum.
pub proof fn lemma_credit_all(rewards: Seq<(Principal, u64)>, shares: Seq<(Principal, u64)>, room: int)
    requires
        keys_unique(rewards),
        0 <= sum_amounts(shares) <= room,
        sum_amounts(rewards) + room <= u64::MAX,
    ensures
        keys_unique(credit_all(rewards, shares)),
        sum_amounts(credit_all(rewards, shares)) == sum_amounts(rewards) + sum_amounts(shares),
    decreases shares.len(),
{
    if shares.len() > 0 {
        let rest = shares.drop_last();
        let x = shares.last();
        crate::accounts::lemma_sum_nonneg(rest);
        assert(sum_amounts(shares) == sum_amounts(rest) + x.1);
        lemma_credit_all(rewards, rest, room);
        let mid = credit_all(rewards, rest);
        crate::liquidity::lemma_amount_le_sum(mid, x.0);
        lemma_credited(mid, x.0, x.1 as int);
    }
}

pub proof fn lemma_add_liquidity_wf(b: Book, l: Liquidity)
    requires
        b.wf(),
        b.add_liquidity(l) is Some,
    ensures
        b.add_liquidity(l).unwrap().wf(),
{
    crate::liquidity::lemma_amount_le_sum(b.liquidity_provided, l.caller);
    lemma_credited(b.liquidity_provided, l.caller, l.amount - l.fee);
}

pub proof fn lemma_remove_liquidity_wf(b: Book, l: Liquidity)
    requires
        b.wf(),
        b.remove_liquidity(l) is Some,
    ensures
        b.remove_liquidity(l).unwrap().wf(),
{
    lemma_debited(b.liquidity_provided, l.caller, l.amount as int);
    crate::liquidity::lemma_amount_le_sum(b.liquidity_provided, l.caller);
}

pub proof fn lemma_claim_wf(b: Book, owner: Principal)
    requires
        b.wf(),
    ensures
        b.claim_rewards(owner).wf(),
{
    lemma_without_key(b.liquidity_rewards, owner);
    crate::liquidity::lemma_amount_le_sum(b.liquidity_rewards, owner);
}

pub proof fn lemma_open_position_wf(b: Book, p: LeveragePosition)
    requires
        b.wf(),
        b.open_position(p) is Some,
    ensures
        b.open_position(p).unwrap().wf(),
{
    let s = b.positions.push(p);
    lemma_sum_positions_push(b.positions, p, |q| net_margin(q));
    lemma_sum_positions_push(b.positions, p, |q| covered_of(q));
    assert forall|i: int, j: int|
        0 <= i < s.len() && 0 <= j < s.len() && #[trigger] s[i].deposit_block_index
            == #[trigger] s[j].deposit_block_index implies i == j by {
        if i < b.positions.len() && j == b.positions.len() {
            assert(has_position(b.positions, p.deposit_block_index));
        }
        if j < b.positions.len() && i == b.positions.len() {
            assert(has_position(b.positions, p.deposit_block_index));
        }
    }
    assert forall|k: int| 0 <= k < s.len() implies (#[trigger] s[k]).fee <= s[k].amount by {
        if k < b.positions.len() {
            assert(s[k] == b.positions[k]);
        }
    }
}

pub proof fn lemma_remove_keeps_unique(s: Seq<LeveragePosition>, i: int)
    requires
        position_indices_unique(s),
        forall|k: int| 0 <= k < s.len() ==> (#[trigger] s[k]).fee <= s[k].amount,
        0 <= i < s.len(),
    ensures
        position_indices_unique(s.remove(i)),
        forall|k: int| 0 <= k < s.remove(i).len() ==> (#[trigger] s.remove(i)[k]).fee <= s.remove(
            i,
        )[k].amount,
        !has_position(s.remove(i), s[i].deposit_block_index),
{
    let t = s.remove(i);
    assert forall|k: int| 0 <= k < t.len() implies t[k] == (if k < i {
        s[k]
    } else {
        s[k + 1]
    }) by {}
    assert forall|a: int, c: int|
        0 <= a < t.len() && 0 <= c < t.len() && #[trigger] t[a].deposit_block_index
            == #[trigger] t[c].deposit_block_index implies a == c by {
        let a2 = if a < i {
            a
        } else {
            a + 1
        };
        let c2 = if c < i {
            c
        } else {
            c + 1
        };
        assert(s[a2].deposit_block_index == s[c2].deposit_block_index);
    }
    assert forall|k: int| 0 <= k < t.len() implies (#[trigger] t[k]).fee <= t[k].amount by {
        let k2 = if k < i {
            k
        } else {
            k + 1
        };
        assert(t[k] == s[k2]);
    }
    if has_position(t, s[i].deposit_block_index) {
        let k = choose|k: int| 0 <= k < t.len() && #[trigger] t[k].deposit_block_index
            == s[i].deposit_block_index;
        let k2 = if k < i {
            k
        } else {
            k + 1
        };
        assert(s[k2].deposit_block_index == s[i].deposit_block_index);
    }
}

pub proof fn lemma_close_position_wf(b: Book, idx: u64, price: int, liquidated: bool)
    requires
        b.wf(),
        b.close_position(idx, price, liquidated) is Some,
    ensures
        b.close_position(idx, price, liquidated).unwrap().wf(),
{
    let i = position_index(b.positions, idx);
    lemma_sum_positions_remove(b.positions, i, |q| net_margin(q));
    lemma_sum_positions_remove(b.positions, i, |q| covered_of(q));
    lemma_remove_keeps_unique(b.positions, i);
    let nm = |q: LeveragePosition| net_margin(q);
    let cv = |q: LeveragePosition| covered_of(q);
    assert forall|k: int| 0 <= k < b.positions.len() implies nm(#[trigger] b.positions[k]) >= 0 by {}
    assert forall|k: int| 0 <= k < b.positions.len() implies cv(#[trigger] b.positions[k]) >= 0 by {}
    crate::state::lemma_sum_positions_nonneg(b.positions.remove(i), nm);
    crate::state::lemma_sum_positions_nonneg(b.positions.remove(i), cv);
    assert(forall|k: int| 0 <= k < b.positions.remove(i).len() ==> nm(#[trigger] b.positions.remove(i)[k]) >= 0);
}

pub proof fn lemma_swaps_remove(s: Seq<Swap>, i: int)
    requires
        swap_keys_unique(s),
        forall|k: int| 0 <= k < s.len() ==> (#[trigger] s[k]).fee <= s[k].from_amount && s[k].rate > 0,
        0 <= i < s.len(),
    ensures
        swap_keys_unique(s.remove(i)),
        forall|k: int| 0 <= k < s.remove(i).len() ==> (#[trigger] s.remove(i)[k]).fee <= s.remove(
            i,
        )[k].from_amount && s.remove(i)[k].rate > 0,
{
    let t = s.remove(i);
    assert forall|a: int, c: int|
        0 <= a < t.len() && 0 <= c < t.len() && #[trigger] t[a].from_block_index
            == #[trigger] t[c].from_block_index implies a == c by {
        let a2 = if a < i {
            a
        } else {
            a + 1
        };
        let c2 = if c < i {
            c
        } else {
            c + 1
        };
        assert(t[a] == s[a2]);
        assert(t[c] == s[c2]);
    }
    assert forall|k: int| 0 <= k < t.len() implies (#[trigger] t[k]).fee <= t[k].from_amount
        && t[k].rate > 0 by {
        let k2 = if k < i {
            k
        } else {
            k + 1
        };
        assert(t[k] == s[k2]);
    }
}

pub proof fn lemma_open_swap_wf(b: Book, s: Swap)
    requires
        b.wf(),
        b.open_swap(s) is Some,
    ensures
        b.open_swap(s).unwrap().wf(),
{
    let t = b.open_swap(s).unwrap().open_swaps;
    if has_swap(b.open_swaps, s.from_block_index) {
        let i = swap_index(b.open_swaps, s.from_block_index);
        assert forall|a: int, c: int|
            0 <= a < t.len() && 0 <= c < t.len() && #[trigger] t[a].from_block_index
                == #[trigger] t[c].from_block_index implies a == c by {
            if a != i && c != i {
                assert(t[a] == b.open_swaps[a]);
                assert(t[c] == b.open_swaps[c]);
            } else if a == i && c != i {
                assert(t[c] == b.open_swaps[c]);
            } else if a != i && c == i {
                assert(t[a] == b.open_swaps[a]);
            }
        }
        assert forall|k: int| 0 <= k < t.len() implies (#[trigger] t[k]).fee <= t[k].from_amount
            && t[k].rate > 0 by {
            if k != i {
                assert(t[k] == b.open_swaps[k]);
            }
        }
    } else {
        assert forall|a: int, c: int|
            0 <= a < t.len() && 0 <= c < t.len() && #[trigger] t[a].from_block_index
                == #[trigger] t[c].from_block_index implies a == c by {
            if a < b.open_swaps.len() && c == b.open_swaps.len() {
                assert(has_swap(b.open_swaps, s.from_block_index));
            }
            if c < b.open_swaps.len() && a == b.open_swaps.len() {
                assert(has_swap(b.open_swaps, s.from_block_index));
            }
        }
        assert forall|k: int| 0 <= k < t.len() implies (#[trigger] t[k]).fee <= t[k].from_amount
            && t[k].rate > 0 by {
            if k < b.open_swaps.len() {
                assert(t[k] == b.open_swaps[k]);
            }
        }
    }
}

pub proof fn lemma_finish_swap_wf(b: Book, idx: u64)
    requires
        b.wf(),
        b.finish_swap(idx) is Some,
    ensures
        b.finish_swap(idx).unwrap().wf(),
{
    if has_swap(b.open_swaps, idx) {
        let i = swap_index(b.open_swaps, idx);
        lemma_swaps_remove(b.open_swaps, i);
        let s = b.open_swaps[i];
        let net = s.from_amount - s.fee;
        assert(div_e8s(net, s.rate as int) >= 0) by (nonlinear_arith)
            requires net >= 0, s.rate > 0;
        assert(mul_e8s(net, s.rate as int) >= 0) by (nonlinear_arith)
            requires net >= 0, s.rate >= 0;
    }
}

} // verus!
