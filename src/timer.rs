use crate::state::{price_inserted, CoreState, IcpPrice};
use crate::tasks::{TaskQueue, TaskType, Task};
use crate::SEC_NANOS;
use vstd::prelude::*;

verus! {

/// Delay between two price fetches, whether or not the last one succeeded.
pub const FETCH_PRICE_DELAY_NANOS: u64 = 600 * SEC_NANOS;

/// Delay between two runs of the settlement sweep.
pub const PROCESS_LOGIC_DELAY_NANOS: u64 = 5 * SEC_NANOS;

pub open spec fn pow10(n: nat) -> nat
    decreases n,
{
    if n == 0 {
        1
    } else {
        10 * pow10((n - 1) as nat)
    }
}

/// `amount` with `decimals` decimals, brought to 8 decimals, truncating toward zero.
pub open spec fn to_8_decimals(amount: nat, decimals: nat) -> nat {
    if decimals >= 8 {
        amount / pow10((decimals - 8) as nat)
    } else {
        amount * pow10((8 - decimals) as nat)
    }
}

proof fn lemma_pow10_pos(n: nat)
    ensures
        pow10(n) >= 1,
    decreases n,
{
    if n > 0 {
        lemma_pow10_pos((n - 1) as nat);
    }
}

/// Brings an oracle rate with `decimals` decimals to e8s; `None` if it does not fit in
/// 64 bits.
pub fn convert_to_8_decimals(amount: u64, decimals: u32) -> (r: Option<u64>)
    ensures
        r matches Some(v) ==> v == to_8_decimals(amount as nat, decimals as nat),
        r is None ==> to_8_decimals(amount as nat, decimals as nat) > u64::MAX,
{
    if decimals >= 8 {
        let mut v: u64 = amount;
        let mut k: u32 = 0;
        assert(pow10(0) == 1);
        while k < decimals - 8
            invariant
                decimals >= 8,
                k <= decimals - 8,
                v == amount as nat / pow10(k as nat),
            decreases decimals - 8 - k,
        {
            proof {
                lemma_pow10_pos(k as nat);
                vstd::arithmetic::div_mod::lemma_div_denominator(amount as int, pow10(k as nat) as int, 10);
                assert(pow10((k + 1) as nat) == pow10(k as nat) * 10);
            }
            v = v / 10;
            k = k + 1;
        }
        Some(v)
    } else {
        let mut v: u64 = amount;
        let mut k: u32 = 0;
        assert(pow10(0) == 1);
        while k < 8 - decimals
            invariant
                decimals < 8,
                k <= 8 - decimals,
                v == amount as nat * pow10(k as nat),
            decreases 8 - decimals - k,
        {
            proof {
                lemma_pow10_pos(k as nat);
                assert(pow10((k + 1) as nat) == pow10(k as nat) * 10);
                assert(amount as nat * pow10((k + 1) as nat) == v * 10) by (nonlinear_arith)
                    requires v == amount as nat * pow10(k as nat), pow10((k + 1) as nat) == pow10(k as nat) * 10;
            }
            if v > u64::MAX / 10 {
                proof {
                    lemma_pow_mono(amount as nat, (k + 1) as nat, (8 - decimals) as nat);
                }
                return None;
            }
            v = v * 10;
            k = k + 1;
        }
        Some(v)
    }
}

proof fn lemma_pow_mono(a: nat, m: nat, n: nat)
    requires
        m <= n,
    ensures
        a * pow10(m) <= a * pow10(n),
    decreases n - m,
{
    if m < n {
        lemma_pow_mono(a, m, (n - 1) as nat);
        lemma_pow10_pos((n - 1) as nat);
        assert(a * pow10((n - 1) as nat) <= a * pow10(n)) by (nonlinear_arith)
            requires pow10(n) == 10 * pow10((n - 1) as nat), pow10((n - 1) as nat) >= 1;
    }
}

/// An oracle answer: the rate with its number of decimals, and the time it was taken.
#[derive(Clone, Copy, Debug, PartialEq, Eq, Structural)]
pub struct ExchangeRate {
    pub rate: u64,
    pub decimals: u32,
    pub timestamp: u64,
}

/// Handles the outcome of a price fetch: a usable rate (one that converts to a positive
/// e8s value) joins the price history and triggers a check of the leverage positions;
/// the next fetch is scheduled either way.
pub fn on_price_fetched(
    state: &mut CoreState,
    queue: &mut TaskQueue,
    fetched: Option<ExchangeRate>,
    now: u64,
)
    requires
        old(state).wf(),
    ensures
        final(state).wf(),
        final(state).book() == old(state).book(),
        final(state).protocol_balance == old(state).protocol_balance,
        final(state).is_timer_running == old(state).is_timer_running,
        final(state).liquidity_principals_lock@ == old(state).liquidity_principals_lock@,
        final(state).leverage_principals_lock@ == old(state).leverage_principals_lock@,
        final(state).convert_principals_lock@ == old(state).convert_principals_lock@,
        ({
            let next = Task {
                execute_at: if now <= u64::MAX - FETCH_PRICE_DELAY_NANOS {
                    (now + FETCH_PRICE_DELAY_NANOS) as u64
                } else {
                    u64::MAX
                },
                task_type: TaskType::FetchPrice,
            };
            match fetched {
                Some(x) => if 0 < to_8_decimals(x.rate as nat, x.decimals as nat) <= u64::MAX {
                    &&& final(state).icp_prices@ == price_inserted(
                        old(state).icp_prices@,
                        x.timestamp,
                        IcpPrice { rate: to_8_decimals(x.rate as nat, x.decimals as nat) as u64 },
                    )
                    &&& final(queue).tasks@ == old(queue).tasks@.push(
                        Task { execute_at: now, task_type: TaskType::CheckLeveragePositions },
                    ).push(next)
                } else {
                    &&& final(state).icp_prices@ == old(state).icp_prices@
                    &&& final(queue).tasks@ == old(queue).tasks@.push(next)
                },
                None => {
                    &&& final(state).icp_prices@ == old(state).icp_prices@
                    &&& final(queue).tasks@ == old(queue).tasks@.push(next)
                },
            }
        }),
{
    match fetched {
        Some(x) => {
            match convert_to_8_decimals(x.rate, x.decimals) {
                Some(rate) => {
                    if rate > 0 {
                        state.insert_price(x.timestamp, IcpPrice { rate });
                        queue.schedule_at(now, TaskType::CheckLeveragePositions);
                    }
                },
                None => {},
            }
        },
        None => {},
    }
    queue.schedule_at(now.saturating_add(FETCH_PRICE_DELAY_NANOS), TaskType::FetchPrice);
}

} // verus!
