//! Service fee arithmetic and the per-currency fee ledger.
use vstd::prelude::*;

use crate::payout::copy_token;

verus! {

pub const SERVICE_FEE_NUMERATOR: u128 = 100;

pub const SERVICE_FEE_DENOMINATOR: u128 = 10000;

/// Largest fee charged for a single event, whatever its rewards.
pub const MAX_SERVICE_FEE: u128 = 10_000_000_000_000_000_000_000_000;

/// The fee owed on a reward total: the proportional share, truncated, capped
/// at `MAX_SERVICE_FEE`.
pub open spec fn compute_fee(total: int) -> int {
    let share = total * SERVICE_FEE_NUMERATOR as int / SERVICE_FEE_DENOMINATOR as int;
    if share < MAX_SERVICE_FEE as int {
        share
    } else {
        MAX_SERVICE_FEE as int
    }
}

/// Computes the service fee for a reward total; exact for every `u128`,
/// including totals whose scaled value would not fit in 128 bits.
pub fn get_service_fee(total: &u128) -> (r: u128)
    ensures
        r as int == compute_fee(*total as int),
        r <= MAX_SERVICE_FEE,
{
    if *total > u128::MAX / SERVICE_FEE_NUMERATOR {
        assert(*total as int * 100 / 10000 >= MAX_SERVICE_FEE as int) by (nonlinear_arith)
            requires
                *total as int > 3402823669209384634633746074317682114,
        ;
        MAX_SERVICE_FEE
    } else {
        let share = *total * SERVICE_FEE_NUMERATOR / SERVICE_FEE_DENOMINATOR;
        if share < MAX_SERVICE_FEE {
            share
        } else {
            MAX_SERVICE_FEE
        }
    }
}

/// Accumulated fees of one currency; `None` names the native currency.
#[derive(Clone, Debug)]
pub struct FeeEntry {
    pub token_id: Option<String>,
    pub amount: u128,
}

pub open spec fn fee_entries_view(v: Seq<FeeEntry>) -> Seq<(Option<Seq<char>>, u128)> {
    v.map_values(|e: FeeEntry| (e.token_id.deep_view(), e.amount))
}

/// The total recorded for `token`: the first entry with that currency.
pub open spec fn fee_lookup(entries: Seq<(Option<Seq<char>>, u128)>, token: Option<Seq<char>>) -> Option<
    u128,
>
    decreases entries.len(),
{
    if entries.len() == 0 {
        None
    } else if entries[0].0 == token {
        Some(entries[0].1)
    } else {
        fee_lookup(entries.drop_first(), token)
    }
}

/// The total recorded for `token`, zero when there is none.
pub open spec fn fee_total(entries: Seq<(Option<Seq<char>>, u128)>, token: Option<Seq<char>>) -> int {
    match fee_lookup(entries, token) {
        Some(a) => a as int,
        None => 0,
    }
}

proof fn lemma_lookup_first(entries: Seq<(Option<Seq<char>>, u128)>, token: Option<Seq<char>>, i: int)
    requires
        0 <= i < entries.len(),
        entries[i].0 == token,
        forall|j: int| 0 <= j < i ==> entries[j].0 != token,
    ensures
        fee_lookup(entries, token) == Some(entries[i].1),
    decreases i,
{
    if i > 0 {
        lemma_lookup_first(entries.drop_first(), token, i - 1);
    }
}

proof fn lemma_lookup_absent(entries: Seq<(Option<Seq<char>>, u128)>, token: Option<Seq<char>>)
    requires
        forall|j: int| 0 <= j < entries.len() ==> entries[j].0 != token,
    ensures
        fee_lookup(entries, token) is None,
    decreases entries.len(),
{
    if entries.len() > 0 {
        lemma_lookup_absent(entries.drop_first(), token);
    }
}

proof fn lemma_lookup_same_keys(
    a: Seq<(Option<Seq<char>>, u128)>,
    b: Seq<(Option<Seq<char>>, u128)>,
    token: Option<Seq<char>>,
)
    requires
        a.len() == b.len(),
        forall|j: int| 0 <= j < a.len() ==> a[j].0 == b[j].0,
        forall|j: int| 0 <= j < a.len() && a[j].0 == token ==> a[j].1 == b[j].1,
    ensures
        fee_lookup(a, token) == fee_lookup(b, token),
    decreases a.len(),
{
    if a.len() > 0 {
        lemma_lookup_same_keys(a.drop_first(), b.drop_first(), token);
    }
}

proof fn lemma_lookup_push(
    entries: Seq<(Option<Seq<char>>, u128)>,
    e: (Option<Seq<char>>, u128),
    token: Option<Seq<char>>,
)
    requires
        e.0 != token,
    ensures
        fee_lookup(entries.push(e), token) == fee_lookup(entries, token),
    decreases entries.len(),
{
    if entries.len() > 0 {
        assert(entries.push(e).drop_first() =~= entries.drop_first().push(e));
        lemma_lookup_push(entries.drop_first(), e, token);
    } else {
        assert(entries.push(e).drop_first() =~= entries);
    }
}

/// Whether two currencies are the same.
pub fn same_token(a: &Option<String>, b: &Option<String>) -> (r: bool)
    ensures
        r == (a.deep_view() == b.deep_view()),
{
    match (a, b) {
        (None, None) => true,
        (Some(x), Some(y)) => *x == *y,
        _ => false,
    }
}

/// The recorded total for `token` in a fee ledger.
pub fn lookup_fee(entries: &Vec<FeeEntry>, token: &Option<String>) -> (r: Option<u128>)
    ensures
        r == fee_lookup(fee_entries_view(entries@), token.deep_view()),
{
    let ghost view = fee_entries_view(entries@);
    let mut i: usize = 0;
    while i < entries.len()
        invariant
            i <= entries.len(),
            view == fee_entries_view(entries@),
            forall|j: int| 0 <= j < i ==> view[j].0 != token.deep_view(),
        decreases entries.len() - i,
    {
        if same_token(&entries[i].token_id, token) {
            proof {
                lemma_lookup_first(view, token.deep_view(), i as int);
            }
            return Some(entries[i].amount);
        }
        i = i + 1;
    }
    proof {
        lemma_lookup_absent(view, token.deep_view());
    }
    None
}

/// Adds `amount` to the total of `token`, creating its entry when absent.
pub fn accrue_fee(entries: &mut Vec<FeeEntry>, token: &Option<String>, amount: u128)
    requires
        fee_total(fee_entries_view(old(entries)@), token.deep_view()) + amount <= u128::MAX,
    ensures
        fee_lookup(fee_entries_view(final(entries)@), token.deep_view()) == Some(
            (fee_total(fee_entries_view(old(entries)@), token.deep_view()) + amount) as u128,
        ),
        forall|t: Option<Seq<char>>|
            t != token.deep_view() ==> fee_lookup(fee_entries_view(final(entries)@), t)
                == fee_lookup(fee_entries_view(old(entries)@), t),
{
    let ghost before = fee_entries_view(entries@);
    let mut i: usize = 0;
    while i < entries.len()
        invariant
            i <= entries.len(),
            entries@ == old(entries)@,
            before == fee_entries_view(entries@),
            fee_total(before, token.deep_view()) + amount <= u128::MAX,
            forall|j: int| 0 <= j < i ==> before[j].0 != token.deep_view(),
        decreases entries.len() - i,
    {
        if same_token(&entries[i].token_id, token) {
            proof {
                lemma_lookup_first(before, token.deep_view(), i as int);
                assert(before[i as int].1 == entries[i as int].amount);
            }
            let total = entries[i].amount + amount;
            entries[i].amount = total;
            proof {
                let after = fee_entries_view(entries@);
                assert(after =~= before.update(i as int, (before[i as int].0, total)));
                lemma_lookup_first(after, token.deep_view(), i as int);
                assert forall|t: Option<Seq<char>>| t != token.deep_view() implies fee_lookup(
                    after,
                    t,
                ) == fee_lookup(before, t) by {
                    lemma_lookup_same_keys(after, before, t);
                }
            }
            return;
        }
        i = i + 1;
    }
    proof {
        lemma_lookup_absent(before, token.deep_view());
    }
    entries.push(FeeEntry { token_id: copy_token(token), amount });
    proof {
        let after = fee_entries_view(entries@);
        assert(after =~= before.push((token.deep_view(), amount)));
        lemma_lookup_first(after, token.deep_view(), before.len() as int);
        assert forall|t: Option<Seq<char>>| t != token.deep_view() implies fee_lookup(after, t)
            == fee_lookup(before, t) by {
            lemma_lookup_push(before, (token.deep_view(), amount), t);
        }
    }
}

/// Sum of a list of amounts.
pub open spec fn total_of(amounts: Seq<u128>) -> int
    decreases amounts.len(),
{
    if amounts.len() == 0 {
        0
    } else {
        total_of(amounts.drop_last()) + amounts.last()
    }
}

/// What an organizer must deposit for these rewards: their sum plus the fee.
pub open spec fn required_deposit(rewards: Seq<u128>) -> int {
    total_of(rewards) + compute_fee(total_of(rewards))
}

/// A prefix never sums to more than the whole list.
pub proof fn lemma_prefix_total(amounts: Seq<u128>, i: int)
    requires
        0 <= i <= amounts.len(),
    ensures
        0 <= total_of(amounts.subrange(0, i)) <= total_of(amounts),
    decreases amounts.len() - i,
{
    if i < amounts.len() {
        lemma_prefix_total(amounts, i + 1);
        assert(amounts.subrange(0, i + 1).drop_last() =~= amounts.subrange(0, i));
        lemma_total_nonneg(amounts.subrange(0, i));
    } else {
        assert(amounts.subrange(0, i) =~= amounts);
        lemma_total_nonneg(amounts);
    }
}

proof fn lemma_total_nonneg(amounts: Seq<u128>)
    ensures
        total_of(amounts) >= 0,
    decreases amounts.len(),
{
    if amounts.len() > 0 {
        lemma_total_nonneg(amounts.drop_last());
    }
}

} // verus!
