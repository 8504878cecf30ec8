use candid::Principal;
use vstd::prelude::*;

verus! {

#[verifier::external_type_specification]
#[verifier::external_body]
pub struct ExPrincipal(candid::Principal);

/// Error of an ICRC-1 ledger transfer, carried through to callers unchanged.
#[verifier::external_type_specification]
#[verifier::external_body]
pub struct ExTransferError(icrc_ledger_types::icrc1::transfer::TransferError);

/// Relies on the `PartialEq` that `candid::Principal` derives over its length and
/// byte buffer: two principals compare equal exactly when they are the same value.
#[verifier::external_body]
pub(crate) fn same_principal(a: &Principal, b: &Principal) -> (r: bool)
    ensures
        r == (*a == *b),
{
    *a == *b
}

/// A list of per-principal amounts is a map as long as no principal occurs twice.
pub open spec fn keys_unique(s: Seq<(Principal, u64)>) -> bool {
    forall|i: int, j: int|
        0 <= i < s.len() && 0 <= j < s.len() && #[trigger] s[i].0 == #[trigger] s[j].0 ==> i == j
}

pub open spec fn has_key(s: Seq<(Principal, u64)>, p: Principal) -> bool {
    exists|i: int| 0 <= i < s.len() && #[trigger] s[i].0 == p
}

pub open spec fn index_of(s: Seq<(Principal, u64)>, p: Principal) -> int {
    choose|i: int| 0 <= i < s.len() && #[trigger] s[i].0 == p
}

/// The amount recorded for `p`, zero when `p` has no entry.
pub open spec fn amount_of(s: Seq<(Principal, u64)>, p: Principal) -> int {
    if has_key(s, p) {
        s[index_of(s, p)].1 as int
    } else {
        0
    }
}

pub open spec fn sum_amounts(s: Seq<(Principal, u64)>) -> int
    decreases s.len(),
{
    if s.len() == 0 {
        0
    } else {
        sum_amounts(s.drop_last()) + s.last().1
    }
}

/// Adds `a` to the entry of `p`, creating the entry when there is none.
pub open spec fn credited(s: Seq<(Principal, u64)>, p: Principal, a: int) -> Seq<(Principal, u64)> {
    if has_key(s, p) {
        s.update(index_of(s, p), (p, (s[index_of(s, p)].1 + a) as u64))
    } else {
        s.push((p, a as u64))
    }
}

/// Takes `a` from the existing entry of `p`; the entry stays, possibly at zero.
pub open spec fn debited(s: Seq<(Principal, u64)>, p: Principal, a: int) -> Seq<(Principal, u64)> {
    s.update(index_of(s, p), (p, (s[index_of(s, p)].1 - a) as u64))
}

/// The list without the entry of `p`, if there is one.
pub open spec fn without_key(s: Seq<(Principal, u64)>, p: Principal) -> Seq<(Principal, u64)> {
    if has_key(s, p) {
        s.remove(index_of(s, p))
    } else {
        s
    }
}

pub proof fn lemma_sum_nonneg(s: Seq<(Principal, u64)>)
    ensures
        sum_amounts(s) >= 0,
    decreases s.len(),
{
    if s.len() > 0 {
        lemma_sum_nonneg(s.drop_last());
    }
}

pub proof fn lemma_sum_push(s: Seq<(Principal, u64)>, x: (Principal, u64))
    ensures
        sum_amounts(s.push(x)) == sum_amounts(s) + x.1,
{
    assert(s.push(x).drop_last() =~= s);
}

pub proof fn lemma_sum_update(s: Seq<(Principal, u64)>, i: int, x: (Principal, u64))
    requires
        0 <= i < s.len(),
    ensures
        sum_amounts(s.update(i, x)) == sum_amounts(s) - s[i].1 + x.1,
    decreases s.len(),
{
    if i == s.len() - 1 {
        assert(s.update(i, x).drop_last() =~= s.drop_last());
    } else {
        lemma_sum_update(s.drop_last(), i, x);
        assert(s.update(i, x).drop_last() =~= s.drop_last().update(i, x));
    }
}

pub proof fn lemma_sum_remove(s: Seq<(Principal, u64)>, i: int)
    requires
        0 <= i < s.len(),
    ensures
        sum_amounts(s.remove(i)) == sum_amounts(s) - s[i].1,
    decreases s.len(),
{
    if i == s.len() - 1 {
        assert(s.remove(i) =~= s.drop_last());
    } else {
        lemma_sum_remove(s.drop_last(), i);
        assert(s.remove(i).drop_last() =~= s.drop_last().remove(i));
    }
}

pub proof fn lemma_entry_le_sum(s: Seq<(Principal, u64)>, i: int)
    requires
        0 <= i < s.len(),
    ensures
        s[i].1 <= sum_amounts(s),
    decreases s.len(),
{
    lemma_sum_nonneg(s.drop_last());
    if i < s.len() - 1 {
        lemma_entry_le_sum(s.drop_last(), i);
    }
}

pub proof fn lemma_index_of(s: Seq<(Principal, u64)>, p: Principal, i: int)
    requires
        keys_unique(s),
        0 <= i < s.len(),
        s[i].0 == p,
    ensures
        has_key(s, p),
        index_of(s, p) == i,
{
    assert(has_key(s, p));
}

pub proof fn lemma_credited(s: Seq<(Principal, u64)>, p: Principal, a: int)
    requires
        keys_unique(s),
        0 <= a,
        amount_of(s, p) + a <= u64::MAX,
    ensures
        keys_unique(credited(s, p, a)),
        sum_amounts(credited(s, p, a)) == sum_amounts(s) + a,
        amount_of(credited(s, p, a), p) == amount_of(s, p) + a,
        forall|q: Principal| q != p ==> amount_of(credited(s, p, a), q) == amount_of(s, q),
{
    let t = credited(s, p, a);
    if has_key(s, p) {
        let i = index_of(s, p);
        lemma_sum_update(s, i, (p, (s[i].1 + a) as u64));
        lemma_index_of(t, p, i);
        assert forall|q: Principal| q != p implies amount_of(t, q) == amount_of(s, q) by {
            if has_key(s, q) {
                lemma_index_of(t, q, index_of(s, q));
            } else {
                assert(!has_key(t, q));
            }
        }
    } else {
        lemma_sum_push(s, (p, a as u64));
        lemma_index_of(t, p, s.len() as int);
        assert forall|q: Principal| q != p implies amount_of(t, q) == amount_of(s, q) by {
            if has_key(s, q) {
                lemma_index_of(t, q, index_of(s, q));
            } else {
                assert(!has_key(t, q));
            }
        }
    }
}

pub proof fn lemma_debited(s: Seq<(Principal, u64)>, p: Principal, a: int)
    requires
        keys_unique(s),
        has_key(s, p),
        0 <= a <= amount_of(s, p),
    ensures
        keys_unique(debited(s, p, a)),
        has_key(debited(s, p, a), p),
        sum_amounts(debited(s, p, a)) == sum_amounts(s) - a,
        amount_of(debited(s, p, a), p) == amount_of(s, p) - a,
        forall|q: Principal| q != p ==> amount_of(debited(s, p, a), q) == amount_of(s, q),
{
    let t = debited(s, p, a);
    let i = index_of(s, p);
    lemma_sum_update(s, i, (p, (s[i].1 - a) as u64));
    lemma_index_of(t, p, i);
    assert forall|q: Principal| q != p implies amount_of(t, q) == amount_of(s, q) by {
        if has_key(s, q) {
            lemma_index_of(t, q, index_of(s, q));
        } else {
            assert(!has_key(t, q));
        }
    }
}

pub proof fn lemma_without_key(s: Seq<(Principal, u64)>, p: Principal)
    requires
        keys_unique(s),
    ensures
        keys_unique(without_key(s, p)),
        !has_key(without_key(s, p), p),
        sum_amounts(without_key(s, p)) == sum_amounts(s) - amount_of(s, p),
{
    if has_key(s, p) {
        let i = index_of(s, p);
        lemma_sum_remove(s, i);
        let t = s.remove(i);
        assert forall|k: int| 0 <= k < t.len() implies t[k].0 != p by {
            if k < i {
                assert(t[k] == s[k]);
            } else {
                assert(t[k] == s[k + 1]);
            }
        }
    }
}

/// Position of the entry of `p`, if any.
pub fn find_entry(v: &Vec<(Principal, u64)>, p: &Principal) -> (r: Option<usize>)
    requires
        keys_unique(v@),
    ensures
        r matches Some(i) ==> i < v@.len() && v@[i as int].0 == *p && has_key(v@, *p)
            && index_of(v@, *p) == i,
        r is None ==> !has_key(v@, *p),
{
    let mut i: usize = 0;
    while i < v.len()
        invariant
            i <= v@.len(),
            keys_unique(v@),
            forall|k: int| 0 <= k < i ==> v@[k].0 != *p,
        decreases v@.len() - i,
    {
        if same_principal(&v[i].0, p) {
            proof {
                lemma_index_of(v@, *p, i as int);
            }
            return Some(i);
        }
        i = i + 1;
    }
    None
}

/// The amount recorded for `p`, if `p` has an entry.
pub fn lookup_amount(v: &Vec<(Principal, u64)>, p: &Principal) -> (r: Option<u64>)
    requires
        keys_unique(v@),
    ensures
        r matches Some(a) ==> has_key(v@, *p) && a == amount_of(v@, *p),
        r is None ==> !has_key(v@, *p) && amount_of(v@, *p) == 0,
{
    match find_entry(v, p) {
        Some(i) => Some(v[i].1),
        None => None,
    }
}

pub fn credit_entry(v: &mut Vec<(Principal, u64)>, p: Principal, a: u64)
    requires
        keys_unique(old(v)@),
        amount_of(old(v)@, p) + a <= u64::MAX,
    ensures
        final(v)@ == credited(old(v)@, p, a as int),
{
    match find_entry(v, &p) {
        Some(i) => {
            let cur = v[i].1;
            v.set(i, (p, cur + a));
        },
        None => {
            v.push((p, a));
        },
    }
}

pub fn debit_entry(v: &mut Vec<(Principal, u64)>, p: Principal, a: u64)
    requires
        keys_unique(old(v)@),
        has_key(old(v)@, p),
        a <= amount_of(old(v)@, p),
    ensures
        final(v)@ == debited(old(v)@, p, a as int),
{
    match find_entry(v, &p) {
        Some(i) => {
            let cur = v[i].1;
            v.set(i, (p, cur - a));
        },
        None => {},
    }
}

pub fn remove_entry(v: &mut Vec<(Principal, u64)>, p: &Principal)
    requires
        keys_unique(old(v)@),
    ensures
        final(v)@ == without_key(old(v)@, *p),
{
    match find_entry(v, p) {
        Some(i) => {
            v.remove(i);
        },
        None => {},
    }
}

/// An entry-by-entry copy of the list.
pub fn copy_entries(v: &Vec<(Principal, u64)>) -> (r: Vec<(Principal, u64)>)
    ensures
        r@ == v@,
{
    let mut out: Vec<(Principal, u64)> = Vec::new();
    let mut i: usize = 0;
    while i < v.len()
        invariant
            i <= v@.len(),
            out@ == v@.take(i as int),
        decreases v@.len() - i,
    {
        out.push(v[i]);
        proof {
            assert(out@ =~= v@.take(i as int + 1));
        }
        i = i + 1;
    }
    proof {
        assert(v@.take(i as int) =~= v@);
    }
    out
}

/// Sum of the amounts, for a list whose sum is known to fit.
pub fn total_amount(v: &Vec<(Principal, u64)>) -> (r: u64)
    requires
        sum_amounts(v@) <= u64::MAX,
    ensures
        r == sum_amounts(v@),
{
    let mut acc: u64 = 0;
    let mut i: usize = 0;
    while i < v.len()
        invariant
            i <= v@.len(),
            sum_amounts(v@) <= u64::MAX,
            acc == sum_amounts(v@.take(i as int)),
        decreases v@.len() - i,
    {
        proof {
            assert(v@.take(i as int + 1).drop_last() =~= v@.take(i as int));
            lemma_prefix_sum_le(v@, i as int + 1);
        }
        acc = acc + v[i].1;
        i = i + 1;
    }
    proof {
        assert(v@.take(i as int) =~= v@);
    }
    acc
}

pub proof fn lemma_prefix_sum_le(s: Seq<(Principal, u64)>, n: int)
    requires
        0 <= n <= s.len(),
    ensures
        sum_amounts(s.take(n)) <= sum_amounts(s),
    decreases s.len(),
{
    if n < s.len() {
        lemma_prefix_sum_le(s.drop_last(), n);
        assert(s.drop_last().take(n) =~= s.take(n));
        lemma_sum_nonneg(s);
    } else {
        assert(s.take(n) =~= s);
    }
}

} // verus!
