use crate::state::{guard_set_ok, CoreState};
use candid::Principal;
use vstd::prelude::*;

verus! {

/// Most guards that one family may hold at once.
pub const MAX_CONCURRENT: usize = 100;

#[derive(Clone, Copy, Debug, PartialEq, Eq, Structural)]
pub enum GuardError {
    AlreadyProcessing,
    TooManyConcurrentRequests,
}

/// The operation families, each with its own set of principals in flight.
#[derive(Clone, Copy, Debug, PartialEq, Eq, Structural)]
pub enum GuardKind {
    Liquidity,
    Leverage,
    Convert,
}

/// Proof that `principal` holds the guard of `kind`; hand it back with `release`.
pub struct Guard {
    pub kind: GuardKind,
    pub principal: Principal,
}

/// The single slot that keeps the settlement sweep from running twice at once.
pub struct TimerLogicGuard {
    _private: (),
}

pub open spec fn pending(s: &CoreState, kind: GuardKind) -> Seq<Principal> {
    match kind {
        GuardKind::Liquidity => s.liquidity_principals_lock@,
        GuardKind::Leverage => s.leverage_principals_lock@,
        GuardKind::Convert => s.convert_principals_lock@,
    }
}

/// What acquiring a guard for `p` does to a family whose set is `set`.
pub open spec fn acquire_outcome(set: Seq<Principal>, p: Principal) -> Result<Seq<Principal>, GuardError> {
    if set.contains(p) {
        Err(GuardError::AlreadyProcessing)
    } else if set.len() >= MAX_CONCURRENT {
        Err(GuardError::TooManyConcurrentRequests)
    } else {
        Ok(set.push(p))
    }
}

/// The family's set once `p`'s guard is released.
pub open spec fn released(set: Seq<Principal>, p: Principal) -> Seq<Principal> {
    if set.contains(p) {
        set.remove(choose|i: int| 0 <= i < set.len() && set[i] == p)
    } else {
        set
    }
}

/// Every family other than `kind` is left as it was.
pub open spec fn others_unchanged(pre: &CoreState, post: &CoreState, kind: GuardKind) -> bool {
    forall|k: GuardKind| k != kind ==> pending(post, k) == pending(pre, k)
}

/// Guard exclusivity: while `p` holds the guard of a family, acquiring it again fails
/// with `AlreadyProcessing`; once released, acquiring it succeeds.
pub proof fn lemma_guard_exclusive(set: Seq<Principal>, p: Principal)
    requires
        guard_set_ok(set),
        set.contains(p),
    ensures
        acquire_outcome(set, p) == Err::<Seq<Principal>, GuardError>(GuardError::AlreadyProcessing),
        guard_set_ok(released(set, p)),
        acquire_outcome(released(set, p), p) is Ok,
{
    let i = choose|i: int| 0 <= i < set.len() && set[i] == p;
    let t = set.remove(i);
    assert forall|k: int| 0 <= k < t.len() implies t[k] != p by {
        let k2 = if k < i {
            k
        } else {
            k + 1
        };
        assert(t[k] == set[k2]);
    }
    lemma_remove_keeps_set(set, i);
}

proof fn lemma_remove_keeps_set(set: Seq<Principal>, i: int)
    requires
        guard_set_ok(set),
        0 <= i < set.len(),
    ensures
        guard_set_ok(set.remove(i)),
{
    let t = set.remove(i);
    assert forall|a: int, b: int|
        0 <= a < t.len() && 0 <= b < t.len() && #[trigger] t[a] == #[trigger] t[b] implies a
            == b by {
        let a2 = if a < i {
            a
        } else {
            a + 1
        };
        let b2 = if b < i {
            b
        } else {
            b + 1
        };
        assert(t[a] == set[a2] && t[b] == set[b2]);
    }
}

fn acquire_in(set: &mut Vec<Principal>, principal: Principal) -> (r: Result<(), GuardError>)
    requires
        guard_set_ok(old(set)@),
    ensures
        guard_set_ok(final(set)@),
        match acquire_outcome(old(set)@, principal) {
            Ok(s) => r is Ok && final(set)@ == s,
            Err(e) => r == Err::<(), GuardError>(e) && final(set)@ == old(set)@,
        },
{
    let mut i: usize = 0;
    while i < set.len()
        invariant
            i <= set@.len(),
            set@ == old(set)@,
            guard_set_ok(set@),
            forall|k: int| 0 <= k < i ==> set@[k] != principal,
        decreases set@.len() - i,
    {
        if crate::accounts::same_principal(&set[i], &principal) {
            assert(set@[i as int] == principal);
            return Err(GuardError::AlreadyProcessing);
        }
        i = i + 1;
    }
    if set.len() >= MAX_CONCURRENT {
        return Err(GuardError::TooManyConcurrentRequests);
    }
    let ghost s0 = set@;
    set.push(principal);
    proof {
        assert forall|a: int, b: int|
            0 <= a < set@.len() && 0 <= b < set@.len() && #[trigger] set@[a] == #[trigger] set@[b]
            implies a == b by {
            if a < s0.len() && b < s0.len() {
                assert(set@[a] == s0[a] && set@[b] == s0[b]);
            }
        }
    }
    Ok(())
}

fn release_in(set: &mut Vec<Principal>, principal: &Principal)
    requires
        guard_set_ok(old(set)@),
    ensures
        guard_set_ok(final(set)@),
        final(set)@ == released(old(set)@, *principal),
{
    let mut i: usize = 0;
    while i < set.len()
        invariant
            i <= set@.len(),
            set@ == old(set)@,
            guard_set_ok(set@),
            forall|k: int| 0 <= k < i ==> set@[k] != *principal,
        decreases set@.len() - i,
    {
        if crate::accounts::same_principal(&set[i], principal) {
            let ghost s0 = set@;
            proof {
                let j = choose|j: int| 0 <= j < s0.len() && s0[j] == *principal;
                assert(s0[j] == s0[i as int]);
                lemma_remove_keeps_set(s0, i as int);
            }
            set.remove(i);
            return;
        }
        i = i + 1;
    }
}

impl Guard {
    /// Acquires the guard of `kind` for `principal`: fails if `principal` already holds
    /// it, or if the family already has `MAX_CONCURRENT` guards out.
    pub fn new(state: &mut CoreState, kind: GuardKind, principal: Principal) -> (r: Result<
        Guard,
        GuardError,
    >)
        requires
            old(state).wf(),
        ensures
            final(state).wf(),
            final(state).book() == old(state).book(),
            final(state).icp_prices@ == old(state).icp_prices@,
            final(state).is_timer_running == old(state).is_timer_running,
            final(state).protocol_balance == old(state).protocol_balance,
            others_unchanged(old(state), final(state), kind),
            match acquire_outcome(pending(old(state), kind), principal) {
                Ok(s) => r == Ok::<Guard, GuardError>(Guard { kind, principal }) && pending(
                    final(state),
                    kind,
                ) == s,
                Err(e) => r == Err::<Guard, GuardError>(e) && pending(final(state), kind) == pending(
                    old(state),
                    kind,
                ),
            },
    {
        let res = match kind {
            GuardKind::Liquidity => acquire_in(&mut state.liquidity_principals_lock, principal),
            GuardKind::Leverage => acquire_in(&mut state.leverage_principals_lock, principal),
            GuardKind::Convert => acquire_in(&mut state.convert_principals_lock, principal),
        };
        match res {
            Ok(()) => Ok(Guard { kind, principal }),
            Err(e) => Err(e),
        }
    }

    /// Releases the guard, on every exit path of the guarded operation.
    pub fn release(self, state: &mut CoreState)
        requires
            old(state).wf(),
        ensures
            final(state).wf(),
            final(state).book() == old(state).book(),
            final(state).icp_prices@ == old(state).icp_prices@,
            final(state).is_timer_running == old(state).is_timer_running,
            final(state).protocol_balance == old(state).protocol_balance,
            others_unchanged(old(state), final(state), self.kind),
            pending(final(state), self.kind) == released(pending(old(state), self.kind), self.principal),
    {
        match self.kind {
            GuardKind::Liquidity => release_in(&mut state.liquidity_principals_lock, &self.principal),
            GuardKind::Leverage => release_in(&mut state.leverage_principals_lock, &self.principal),
            GuardKind::Convert => release_in(&mut state.convert_principals_lock, &self.principal),
        }
    }
}

pub fn leverage_update_guard(state: &mut CoreState, p: Principal) -> (r: Result<Guard, GuardError>)
    requires
        old(state).wf(),
    ensures
        final(state).wf(),
        final(state).book() == old(state).book(),
        final(state).icp_prices@ == old(state).icp_prices@,
        final(state).is_timer_running == old(state).is_timer_running,
        final(state).protocol_balance == old(state).protocol_balance,
        others_unchanged(old(state), final(state), GuardKind::Leverage),
        match acquire_outcome(pending(old(state), GuardKind::Leverage), p) {
            Ok(s) => r == Ok::<Guard, GuardError>(Guard { kind: GuardKind::Leverage, principal: p })
                && pending(final(state), GuardKind::Leverage) == s,
            Err(e) => r == Err::<Guard, GuardError>(e) && pending(final(state), GuardKind::Leverage) == pending(old(state), GuardKind::Leverage),
        },
{
    Guard::new(state, GuardKind::Leverage, p)
}

pub fn liquidity_update_guard(state: &mut CoreState, p: Principal) -> (r: Result<Guard, GuardError>)
    requires
        old(state).wf(),
    ensures
        final(state).wf(),
        final(state).book() == old(state).book(),
        final(state).icp_prices@ == old(state).icp_prices@,
        final(state).is_timer_running == old(state).is_timer_running,
        final(state).protocol_balance == old(state).protocol_balance,
        others_unchanged(old(state), final(state), GuardKind::Liquidity),
        match acquire_outcome(pending(old(state), GuardKind::Liquidity), p) {
            Ok(s) => r == Ok::<Guard, GuardError>(Guard { kind: GuardKind::Liquidity, principal: p })
                && pending(final(state), GuardKind::Liquidity) == s,
            Err(e) => r == Err::<Guard, GuardError>(e) && pending(final(state), GuardKind::Liquidity) == pending(old(state), GuardKind::Liquidity),
        },
{
    Guard::new(state, GuardKind::Liquidity, p)
}

pub fn convert_update_guard(state: &mut CoreState, p: Principal) -> (r: Result<Guard, GuardError>)
    requires
        old(state).wf(),
    ensures
        final(state).wf(),
        final(state).book() == old(state).book(),
        final(state).icp_prices@ == old(state).icp_prices@,
        final(state).is_timer_running == old(state).is_timer_running,
        final(state).protocol_balance == old(state).protocol_balance,
        others_unchanged(old(state), final(state), GuardKind::Convert),
        match acquire_outcome(pending(old(state), GuardKind::Convert), p) {
            Ok(s) => r == Ok::<Guard, GuardError>(Guard { kind: GuardKind::Convert, principal: p })
                && pending(final(state), GuardKind::Convert) == s,
            Err(e) => r == Err::<Guard, GuardError>(e) && pending(final(state), GuardKind::Convert) == pending(old(state), GuardKind::Convert),
        },
{
    Guard::new(state, GuardKind::Convert, p)
}

impl TimerLogicGuard {
    /// Takes the sweep's slot, or `None` while a sweep is running.
    pub fn new(state: &mut CoreState) -> (r: Option<TimerLogicGuard>)
        requires
            old(state).wf(),
        ensures
            final(state).wf(),
            final(state).book() == old(state).book(),
            r is Some <==> !old(state).is_timer_running,
            final(state).is_timer_running,
            final(state).icp_prices@ == old(state).icp_prices@,
            final(state).protocol_balance == old(state).protocol_balance,
            final(state).liquidity_principals_lock@ == old(state).liquidity_principals_lock@,
            final(state).leverage_principals_lock@ == old(state).leverage_principals_lock@,
            final(state).convert_principals_lock@ == old(state).convert_principals_lock@,
    {
        if state.is_timer_running {
            return None;
        }
        state.is_timer_running = true;
        Some(TimerLogicGuard { _private: () })
    }

    /// Frees the sweep's slot.
    pub fn release(self, state: &mut CoreState)
        requires
            old(state).wf(),
        ensures
            final(state).wf(),
            final(state).book() == old(state).book(),
            !final(state).is_timer_running,
            final(state).icp_prices@ == old(state).icp_prices@,
            final(state).protocol_balance == old(state).protocol_balance,
            final(state).liquidity_principals_lock@ == old(state).liquidity_principals_lock@,
            final(state).leverage_principals_lock@ == old(state).leverage_principals_lock@,
            final(state).convert_principals_lock@ == old(state).convert_principals_lock@,
    {
        state.is_timer_running = false;
    }
}

} // verus!
