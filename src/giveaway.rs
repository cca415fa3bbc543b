//! The giveaway state and its operations: event creation, registration,
//! the draw, batched distribution and settlement.
//!
//! Whatever the host supplies (the caller, the block time, the attached
//! deposit, the random seed, the outcome of a dispatched batch) comes in as
//! an argument; whatever must go out (a refund, a batch to transfer) comes
//! back in the result.
use vstd::prelude::*;

use crate::draw::{contains_account, draw, draw_winners};
use crate::event::{
    append_participants, register_participants, status_rank, Event, EventInput,
    EventOutput, EventStatus, EventView,
};
use crate::fee::{
    accrue_fee, compute_fee, fee_entries_view, fee_lookup, fee_total, get_service_fee,
    lemma_prefix_total, lookup_fee, required_deposit, total_of, FeeEntry,
};
use crate::multisender::{
    transfers_total, transfers_view, MultisenderPayout, TransferBatch, TransferView,
};
use std::collections::HashMap;

use crate::payout::{copy_payouts, copy_token, payouts_view, Payout, PayoutStatus, PayoutView};
use crate::{MAX_DESCRIPTION_LENGTH, MAX_GIVEAWAY_WINNERS, MAX_TITLE_LENGTH, MIN_DEPOSIT_AMOUNT};

verus! {

/// Why an operation was refused. A refused operation leaves the state as it
/// was.
#[derive(Clone, Copy, Debug, PartialEq, Eq, Structural)]
pub enum GiveawayError {
    /// The contract is switched off.
    ContractDisabled,
    /// The reward currency is not whitelisted.
    TokenNotAllowed,
    /// The caller may not perform this operation.
    NoAccess,
    TooManyRewards,
    MissingRewards,
    /// The deposit is under `MIN_DEPOSIT_AMOUNT`.
    NotEnoughDeposit,
    DescriptionTooLong,
    TitleTooLong,
    /// The registration window has closed and no participants were given.
    ParticipantsUnreachable,
    /// The registration window ends before it starts.
    InvalidParticipantsWindow,
    /// The deposit does not cover the rewards and the service fee.
    InsufficientPayment,
    /// Every event id has been issued.
    EventIdsExhausted,
    /// The fee total of the currency would no longer fit in 128 bits.
    ServiceFeeOverflow,
    NoEvent,
    AlreadyFinalized,
    TooEarlyToAddParticipants,
    TooLateToAddParticipants,
    EventDatePassed,
    ParticipantsMissing,
    TooEarlyToFinalize,
    RandomSeedMissing,
    /// Distribution needs a drawn, unsettled event.
    DistributionUnavailable,
    /// Closing needs a drawn, unsettled event.
    CloseUnavailable,
    PayoutsPending,
}

/// Outcome of a successful event creation. `refund` is the part of the
/// deposit beyond what the event requires; it is owed back to the owner.
#[derive(Clone, Copy, Debug, PartialEq, Eq, Structural)]
pub struct EventCreated {
    pub event_id: u64,
    pub refund: u128,
}

pub struct Giveaway {
    owner_id: String,
    active: bool,
    next_event_id: u64,
    events: Vec<Event>,
    payouts: Vec<Vec<Payout>>,
    whitelisted_tokens: Vec<String>,
    multisender_contract: String,
    total_service_fee: Vec<FeeEntry>,
}

/// The state of a giveaway contract, as values.
pub struct GiveawayView {
    pub owner_id: Seq<char>,
    pub active: bool,
    /// Events by id.
    pub events: Seq<EventView>,
    /// Payout lists by event id; empty until the event's draw.
    pub payouts: Seq<Seq<PayoutView>>,
    pub whitelisted_tokens: Seq<Seq<char>>,
    pub multisender_contract: Seq<char>,
    /// Fee ledger; see `fee_lookup`.
    pub service_fees: Seq<(Option<Seq<char>>, u128)>,
}

impl View for Giveaway {
    type V = GiveawayView;

    closed spec fn view(&self) -> GiveawayView {
        GiveawayView {
            owner_id: self.owner_id@,
            active: self.active,
            events: self.events@.map_values(|e: Event| e@),
            payouts: self.payouts@.map_values(|ps: Vec<Payout>| payouts_view(ps@)),
            whitelisted_tokens: self.whitelisted_tokens.deep_view(),
            multisender_contract: self.multisender_contract@,
            service_fees: fee_entries_view(self.total_service_fee@),
        }
    }
}

/// Byte length of a text in UTF-8.
pub open spec fn byte_len(s: Seq<char>) -> usize {
    vstd::utf8::encode_utf8(s).len() as usize
}

/// The sum of the rewards, or `None` when it does not fit in 128 bits.
pub fn sum_rewards(rewards: &Vec<u128>) -> (r: Option<u128>)
    ensures
        match r {
            Some(t) => t == total_of(rewards@),
            None => total_of(rewards@) > u128::MAX,
        },
{
    let mut total: u128 = 0;
    let mut i: usize = 0;
    while i < rewards.len()
        invariant
            i <= rewards.len(),
            total == total_of(rewards@.subrange(0, i as int)),
        decreases rewards.len() - i,
    {
        proof {
            assert(rewards@.subrange(0, i + 1).drop_last() =~= rewards@.subrange(0, i as int));
            lemma_prefix_total(rewards@, i + 1);
        }
        match total.checked_add(rewards[i]) {
            Some(t) => total = t,
            None => {
                return None;
            },
        }
        i = i + 1;
    }
    assert(rewards@.subrange(0, i as int) =~= rewards@);
    Some(total)
}

/// Every payout is complete.
pub open spec fn all_complete(ps: Seq<PayoutView>) -> bool {
    forall|j: int| 0 <= j < ps.len() ==> #[trigger] ps[j].status == PayoutStatus::Complete
}

/// What holds of every event and its payouts.
pub open spec fn event_wf(e: EventView, ps: Seq<PayoutView>) -> bool {
    &&& 0 < e.rewards.len() < MAX_GIVEAWAY_WINNERS
    &&& total_of(e.rewards) <= u128::MAX
    &&& e.add_participants_start_timestamp <= e.add_participants_end_timestamp
    &&& !e.allow_duplicate_participants ==> e.participants.no_duplicates()
    &&& (e.finalized_timestamp is None <==> e.status == EventStatus::Pending)
    &&& e.status == EventStatus::Pending ==> ps.len() == 0
    &&& e.status == EventStatus::Distributed ==> all_complete(ps)
    &&& ps.len() <= e.rewards.len()
    &&& forall|j: int| 0 <= j < ps.len() ==> #[trigger] payout_fits(e, ps[j], j)
}

/// Payout `j` of event `e` pays reward `j`, in the event's currency, to a
/// participant; a complete payout is not in flight.
pub open spec fn payout_fits(e: EventView, p: PayoutView, j: int) -> bool {
    &&& p.amount == e.rewards[j]
    &&& p.token_id == e.rewards_token_id
    &&& e.participants.contains(p.account_id)
    &&& p.status == PayoutStatus::Complete ==> !p.in_flight
}

pub open spec fn state_wf(v: GiveawayView) -> bool {
    &&& v.events.len() == v.payouts.len()
    &&& forall|id: int| 0 <= id < v.events.len() ==> #[trigger] event_wf(v.events[id], v.payouts[id])
}

/// How the state may change in one operation: events are only added, each
/// in `Pending`; a status moves at most one step forward; once drawn, a
/// payout list keeps its entries, and a complete payout stays complete.
pub open spec fn state_step(a: GiveawayView, b: GiveawayView) -> bool {
    &&& a.events.len() <= b.events.len()
    &&& forall|id: int|
        a.events.len() <= id < b.events.len() ==> #[trigger] b.events[id].status
            == EventStatus::Pending
    &&& forall|id: int|
        0 <= id < a.events.len() ==> {
            &&& status_rank(a.events[id].status) <= #[trigger] status_rank(b.events[id].status)
            &&& status_rank(b.events[id].status) <= status_rank(a.events[id].status) + 1
            &&& a.events[id].status != EventStatus::Pending ==> payouts_step(
                a.payouts[id],
                b.payouts[id],
            )
        }
}

/// One step of a drawn payout list: same entries, completion kept.
pub open spec fn payouts_step(a: Seq<PayoutView>, b: Seq<PayoutView>) -> bool {
    &&& a.len() == b.len()
    &&& forall|j: int|
        0 <= j < a.len() ==> {
            &&& #[trigger] b[j].account_id == a[j].account_id
            &&& b[j].amount == a[j].amount
            &&& b[j].token_id == a[j].token_id
            &&& a[j].status == PayoutStatus::Complete ==> b[j].status == PayoutStatus::Complete
        }
}

/// The event that `add_event` records for `input` and `owner`.
pub open spec fn created_event(input: EventInput, owner: Seq<char>) -> EventView {
    EventView {
        owner_account_id: owner,
        status: EventStatus::Pending,
        rewards: input.rewards@,
        rewards_token_id: input.rewards_token_id.deep_view(),
        participants: append_participants(
            Seq::empty(),
            input.participants.deep_view(),
            input.allow_duplicate_participants,
        ),
        allow_duplicate_participants: input.allow_duplicate_participants,
        add_participants_start_timestamp: input.add_participants_start_timestamp,
        add_participants_end_timestamp: input.add_participants_end_timestamp,
        event_timestamp: input.event_timestamp,
        finalized_timestamp: None,
        title: input.title@,
        description: input.description@,
    }
}

/// Why `add_event` refuses `input` in state `v`, if it does; the checks are
/// made in this order.
pub open spec fn add_event_error(v: GiveawayView, input: EventInput, now: u64, deposit: u128) -> Option<
    GiveawayError,
> {
    let token = input.rewards_token_id.deep_view();
    if !v.active {
        Some(GiveawayError::ContractDisabled)
    } else if token matches Some(t) && !v.whitelisted_tokens.contains(t) {
        Some(GiveawayError::TokenNotAllowed)
    } else if input.rewards@.len() >= MAX_GIVEAWAY_WINNERS {
        Some(GiveawayError::TooManyRewards)
    } else if input.rewards@.len() == 0 {
        Some(GiveawayError::MissingRewards)
    } else if deposit < MIN_DEPOSIT_AMOUNT {
        Some(GiveawayError::NotEnoughDeposit)
    } else if byte_len(input.description@) >= MAX_DESCRIPTION_LENGTH {
        Some(GiveawayError::DescriptionTooLong)
    } else if byte_len(input.title@) >= MAX_TITLE_LENGTH {
        Some(GiveawayError::TitleTooLong)
    } else if now >= input.add_participants_end_timestamp && input.participants@.len() == 0 {
        Some(GiveawayError::ParticipantsUnreachable)
    } else if input.add_participants_start_timestamp > input.add_participants_end_timestamp {
        Some(GiveawayError::InvalidParticipantsWindow)
    } else if required_deposit(input.rewards@) > deposit {
        Some(GiveawayError::InsufficientPayment)
    } else if v.events.len() >= u64::MAX {
        Some(GiveawayError::EventIdsExhausted)
    } else if fee_total(v.service_fees, token) + compute_fee(total_of(input.rewards@)) > u128::MAX {
        Some(GiveawayError::ServiceFeeOverflow)
    } else {
        None
    }
}

/// How many seed bytes the draw walks through before wrapping: the whole
/// seed, up to `MAX_GIVEAWAY_WINNERS` bytes.
pub open spec fn seed_window(len: nat) -> nat {
    if len < MAX_GIVEAWAY_WINNERS {
        len
    } else {
        MAX_GIVEAWAY_WINNERS as nat
    }
}

/// The payout list of a draw: winner `j` receives reward `j`, all pending.
pub open spec fn payouts_for(winners: Seq<Seq<char>>, rewards: Seq<u128>, token: Option<Seq<char>>) -> Seq<
    PayoutView,
> {
    Seq::new(
        winners.len(),
        |j: int|
            PayoutView {
                account_id: winners[j],
                amount: rewards[j],
                token_id: token,
                status: PayoutStatus::Pending,
                in_flight: false,
            },
    )
}

/// The payouts that finalizing `e` with `seed` produces.
pub open spec fn drawn_payouts(e: EventView, seed: Seq<u8>) -> Seq<PayoutView> {
    payouts_for(
        draw(e.participants, e.rewards.len(), seed, seed_window(seed.len())),
        e.rewards,
        e.rewards_token_id,
    )
}

/// `e` after its draw at time `now`.
pub open spec fn finalized_event(e: EventView, now: u64) -> EventView {
    EventView { status: EventStatus::Calculated, finalized_timestamp: Some(now), ..e }
}

/// Why `finalize_event` refuses, if it does; the checks are made in this
/// order.
pub open spec fn finalize_error(v: GiveawayView, event_id: u64, now: u64, seed: Seq<u8>) -> Option<
    GiveawayError,
> {
    if !v.active {
        Some(GiveawayError::ContractDisabled)
    } else if event_id >= v.events.len() {
        Some(GiveawayError::NoEvent)
    } else if v.events[event_id as int].status != EventStatus::Pending {
        Some(GiveawayError::AlreadyFinalized)
    } else if v.events[event_id as int].participants.len() == 0 {
        Some(GiveawayError::ParticipantsMissing)
    } else if now < v.events[event_id as int].event_timestamp {
        Some(GiveawayError::TooEarlyToFinalize)
    } else if seed.len() == 0 {
        Some(GiveawayError::RandomSeedMissing)
    } else {
        None
    }
}

/// Builds the payout list of a draw.
pub fn build_payouts(winners: &Vec<String>, rewards: &Vec<u128>, token: &Option<String>) -> (r: Vec<
    Payout,
>)
    requires
        winners.len() <= rewards.len(),
    ensures
        payouts_view(r@) == payouts_for(winners.deep_view(), rewards@, token.deep_view()),
{
    let ghost goal = payouts_for(winners.deep_view(), rewards@, token.deep_view());
    let mut r: Vec<Payout> = Vec::new();
    let mut k: usize = 0;
    while k < winners.len()
        invariant
            k <= winners.len() <= rewards.len(),
            goal == payouts_for(winners.deep_view(), rewards@, token.deep_view()),
            payouts_view(r@) =~= goal.subrange(0, k as int),
        decreases winners.len() - k,
    {
        let ghost prev = r@;
        r.push(
            Payout {
                account_id: winners[k].clone(),
                amount: rewards[k],
                token_id: copy_token(token),
                status: PayoutStatus::Pending,
                in_flight: false,
            },
        );
        assert(payouts_view(r@) =~= payouts_view(prev).push(goal[k as int]));
        k = k + 1;
    }
    assert(goal.subrange(0, k as int) =~= goal);
    r
}

/// A payout that a new batch may carry: not complete, not already in flight.
pub open spec fn dispatchable(p: PayoutView) -> bool {
    p.status == PayoutStatus::Pending && !p.in_flight
}

/// The transfer that pays `p`.
pub open spec fn transfer_of(p: PayoutView) -> TransferView {
    TransferView { account_id: p.account_id, token_id: p.token_id, amount: p.amount }
}

/// First index of the range `[from_index, from_index + limit)` of a list of
/// `len` payouts; `from_index` defaults to 0.
pub open spec fn range_start(from_index: Option<u64>) -> int {
    match from_index {
        Some(f) => f as int,
        None => 0,
    }
}

/// End (exclusive) of that range, clipped to the list; `limit` defaults to
/// the whole list.
pub open spec fn range_end(from_index: Option<u64>, limit: Option<u64>, len: int) -> int {
    let lim = match limit {
        Some(l) => l as int,
        None => len,
    };
    if range_start(from_index) + lim < len {
        range_start(from_index) + lim
    } else {
        len
    }
}

/// Whether payout `j` of `ps` goes into the batch of a `distribute_payouts`
/// call over that range.
pub open spec fn in_batch(ps: Seq<PayoutView>, from_index: Option<u64>, limit: Option<u64>, j: int) -> bool {
    &&& range_start(from_index) <= j < range_end(from_index, limit, ps.len() as int)
    &&& dispatchable(ps[j])
}

/// `ps` after a `distribute_payouts` call over that range: the batched
/// payouts are in flight.
pub open spec fn dispatched(ps: Seq<PayoutView>, from_index: Option<u64>, limit: Option<u64>) -> Seq<
    PayoutView,
> {
    Seq::new(
        ps.len(),
        |j: int|
            if in_batch(ps, from_index, limit, j) {
                PayoutView { in_flight: true, ..ps[j] }
            } else {
                ps[j]
            },
    )
}

/// Whether `batch` carries exactly the payouts of `ps` that `in_batch`
/// selects, in index order.
pub open spec fn batch_matches(
    batch: TransferBatch,
    event_id: u64,
    ps: Seq<PayoutView>,
    from_index: Option<u64>,
    limit: Option<u64>,
) -> bool {
    let idx = batch.payout_indices@;
    let tv = transfers_view(batch.accounts@);
    &&& batch.event_id == event_id
    &&& idx.len() == tv.len()
    &&& forall|k: int|
        0 <= k < idx.len() ==> in_batch(ps, from_index, limit, #[trigger] idx[k] as int) && tv[k]
            == transfer_of(ps[idx[k] as int])
    &&& forall|k1: int, k2: int| 0 <= k1 < k2 < idx.len() ==> idx[k1] < idx[k2]
    &&& forall|j: int| 0 <= j < ps.len() && in_batch(ps, from_index, limit, j) ==> idx.contains(j as u64)
    &&& batch.total == transfers_total(tv)
}

/// Why `distribute_payouts` or `close_event` refuses on event state alone.
pub open spec fn settle_error(v: GiveawayView, event_id: u64, unavailable: GiveawayError) -> Option<
    GiveawayError,
> {
    if !v.active {
        Some(GiveawayError::ContractDisabled)
    } else if event_id >= v.events.len() {
        Some(GiveawayError::NoEvent)
    } else if v.events[event_id as int].status != EventStatus::Calculated {
        Some(unavailable)
    } else {
        None
    }
}

/// `p` after the transfer service reported on a batch that carried it: on
/// success it is complete; either way it is no longer in flight.
pub open spec fn settled(p: PayoutView, success: bool) -> PayoutView {
    if success {
        PayoutView { status: PayoutStatus::Complete, in_flight: false, ..p }
    } else {
        PayoutView { in_flight: false, ..p }
    }
}

/// `ps` after a report on the batch of payouts `indices`.
pub open spec fn after_transfer(ps: Seq<PayoutView>, indices: Seq<u64>, success: bool) -> Seq<PayoutView> {
    Seq::new(
        ps.len(),
        |j: int|
            if indices.contains(j as u64) {
                settled(ps[j], success)
            } else {
                ps[j]
            },
    )
}

/// Why `insert_participants` refuses, if it does; the checks are made in
/// this order.
pub open spec fn insert_error(v: GiveawayView, event_id: u64, caller: Seq<char>, now: u64) -> Option<
    GiveawayError,
> {
    if !v.active {
        Some(GiveawayError::ContractDisabled)
    } else if event_id >= v.events.len() {
        Some(GiveawayError::NoEvent)
    } else if v.events[event_id as int].status != EventStatus::Pending {
        Some(GiveawayError::AlreadyFinalized)
    } else if now < v.events[event_id as int].add_participants_start_timestamp {
        Some(GiveawayError::TooEarlyToAddParticipants)
    } else if now >= v.events[event_id as int].add_participants_end_timestamp {
        Some(GiveawayError::TooLateToAddParticipants)
    } else if now >= v.events[event_id as int].event_timestamp {
        Some(GiveawayError::EventDatePassed)
    } else if caller != v.events[event_id as int].owner_account_id {
        Some(GiveawayError::NoAccess)
    } else {
        None
    }
}

/// Whether every payout of the list is complete.
pub fn all_payouts_complete(ps: &Vec<Payout>) -> (r: bool)
    ensures
        r == all_complete(payouts_view(ps@)),
{
    let ghost pv = payouts_view(ps@);
    let mut j: usize = 0;
    while j < ps.len()
        invariant
            pv == payouts_view(ps@),
            j <= ps.len(),
            forall|i: int| 0 <= i < j ==> #[trigger] pv[i].status == PayoutStatus::Complete,
        decreases ps.len() - j,
    {
        if ps[j].status != PayoutStatus::Complete {
            assert(pv[j as int].status != PayoutStatus::Complete);
            return false;
        }
        j = j + 1;
    }
    true
}

/// Whether event `id` is listed by a query over `[from_index, from_index +
/// limit)`; with `only_ready`, only events awaiting their draw at `now`.
pub open spec fn listed(v: GiveawayView, from_index: u64, limit: u64, only_ready: bool, now: u64, id: u64) -> bool {
    &&& from_index <= id < from_index + limit
    &&& id < v.events.len()
    &&& only_ready ==> v.events[id as int].status == EventStatus::Pending && now
        >= v.events[id as int].event_timestamp
}

/// Whether `m` lists exactly the events that `listed` selects, each with its
/// current record.
pub open spec fn listing_matches(
    m: Map<u64, Option<EventOutput>>,
    v: GiveawayView,
    from_index: u64,
    limit: u64,
    only_ready: bool,
    now: u64,
) -> bool {
    &&& forall|id: u64| m.contains_key(id) <==> listed(v, from_index, limit, only_ready, now, id)
    &&& forall|id: u64| #[trigger]
        m.contains_key(id) ==> (m[id] matches Some(o) && o@ == v.events[id as int])
}

/// The whole state as plain values, for keeping it in outside storage
/// between operations.
pub struct GiveawayState {
    pub owner_id: String,
    pub active: bool,
    pub events: Vec<Event>,
    pub payouts: Vec<Vec<Payout>>,
    pub whitelisted_tokens: Vec<String>,
    pub multisender_contract: String,
    pub total_service_fee: Vec<FeeEntry>,
}

pub open spec fn state_view(s: GiveawayState) -> GiveawayView {
    GiveawayView {
        owner_id: s.owner_id@,
        active: s.active,
        events: s.events@.map_values(|e: Event| e@),
        payouts: s.payouts@.map_values(|ps: Vec<Payout>| payouts_view(ps@)),
        whitelisted_tokens: s.whitelisted_tokens.deep_view(),
        multisender_contract: s.multisender_contract@,
        service_fees: fee_entries_view(s.total_service_fee@),
    }
}

/// Whether no account occurs twice in `v`.
pub fn no_repeats(v: &Vec<String>) -> (r: bool)
    ensures
        r == v.deep_view().no_duplicates(),
{
    let ghost dv = v.deep_view();
    let mut i: usize = 0;
    while i < v.len()
        invariant
            dv == v.deep_view(),
            i <= v.len(),
            forall|a: int, b: int| 0 <= a < b < i ==> dv[a] != dv[b],
        decreases v.len() - i,
    {
        let mut k: usize = 0;
        while k < i
            invariant
                dv == v.deep_view(),
                k <= i < v.len(),
                forall|a: int| 0 <= a < k ==> dv[a] != dv[i as int],
            decreases i - k,
        {
            if v[k] == v[i] {
                assert(dv[k as int] == dv[i as int]);
                return false;
            }
            k = k + 1;
        }
        i = i + 1;
    }
    true
}

/// Whether an event and its payout list satisfy `event_wf`.
pub fn event_ok(e: &Event, ps: &Vec<Payout>) -> (r: bool)
    ensures
        r == event_wf(e@, payouts_view(ps@)),
{
    let ghost ev = e@;
    let ghost pv = payouts_view(ps@);
    let n = e.rewards.len();
    if n == 0 || n >= MAX_GIVEAWAY_WINNERS {
        return false;
    }
    if sum_rewards(&e.rewards).is_none() {
        return false;
    }
    if e.add_participants_start_timestamp > e.add_participants_end_timestamp {
        return false;
    }
    if !e.allow_duplicate_participants && !no_repeats(&e.participants) {
        return false;
    }
    if e.finalized_timestamp.is_none() != (e.status == EventStatus::Pending) {
        return false;
    }
    if e.status == EventStatus::Pending && ps.len() > 0 {
        return false;
    }
    if e.status == EventStatus::Distributed && !all_payouts_complete(ps) {
        return false;
    }
    if ps.len() > n {
        return false;
    }
    let mut j: usize = 0;
    while j < ps.len()
        invariant
            ev == e@,
            pv == payouts_view(ps@),
            ps.len() <= n == e.rewards.len(),
            j <= ps.len(),
            0 < ev.rewards.len() < MAX_GIVEAWAY_WINNERS,
            total_of(ev.rewards) <= u128::MAX,
            ev.add_participants_start_timestamp <= ev.add_participants_end_timestamp,
            !ev.allow_duplicate_participants ==> ev.participants.no_duplicates(),
            (ev.finalized_timestamp is None <==> ev.status == EventStatus::Pending),
            ev.status == EventStatus::Pending ==> pv.len() == 0,
            ev.status == EventStatus::Distributed ==> all_complete(pv),
            forall|i: int| 0 <= i < j ==> #[trigger] payout_fits(ev, pv[i], i),
        decreases ps.len() - j,
    {
        let p = &ps[j];
        assert(pv[j as int] == p@);
        if p.amount != e.rewards[j] || !crate::fee::same_token(&p.token_id, &e.rewards_token_id)
            || !contains_account(&e.participants, &p.account_id) || (p.status
            == PayoutStatus::Complete && p.in_flight) {
            assert(!payout_fits(ev, pv[j as int], j as int));
            return false;
        }
        assert(payout_fits(ev, pv[j as int], j as int));
        j = j + 1;
    }
    true
}

/// The payout list of a draw names each winner once, holds at most one
/// payout per reward and per participant, and pays only participants.
pub proof fn lemma_drawn_payouts_distinct(e: EventView, seed: Seq<u8>)
    requires
        e.participants.len() > 0,
        seed.len() > 0,
    ensures
        ({
            let ps = drawn_payouts(e, seed);
            &&& ps.map_values(|p: PayoutView| p.account_id).no_duplicates()
            &&& ps.len() <= e.rewards.len()
            &&& ps.len() <= e.participants.len()
            &&& forall|j: int| 0 <= j < ps.len() ==> e.participants.contains(#[trigger] ps[j].account_id)
        }),
{
    let w = draw(e.participants, e.rewards.len(), seed, seed_window(seed.len()));
    crate::draw::lemma_draw_distinct_winners(
        e.participants,
        e.rewards.len(),
        seed,
        seed_window(seed.len()),
    );
    let ps = drawn_payouts(e, seed);
    assert(ps.map_values(|p: PayoutView| p.account_id) =~= w);
    assert forall|j: int| 0 <= j < ps.len() implies e.participants.contains(
        #[trigger] ps[j].account_id,
    ) by {
        assert(w.contains(w[j]));
    }
}

impl Giveaway {
    /// Internal consistency of the state.
    pub closed spec fn wf(&self) -> bool {
        &&& self.next_event_id == self.events.len()
        &&& self.events.len() == self.payouts.len()
        &&& state_wf(self@)
    }

    /// The consistency facts of a well-formed state, stated over its view.
    pub proof fn lemma_wf(&self)
        requires
            self.wf(),
        ensures
            state_wf(self@),
    {
    }

    proof fn lemma_view_index(&self, id: int)
        requires
            0 <= id < self.events.len(),
            self.events.len() == self.payouts.len(),
        ensures
            self@.events[id] == self.events@[id]@,
            self@.payouts[id] == payouts_view(self.payouts@[id]@),
            self@.events.len() == self.events.len(),
            self@.payouts.len() == self.payouts.len(),
    {
    }

    /// A fresh giveaway with no events, switched on. Without a transfer
    /// service account, the public multisender is used.
    pub fn new(owner_id: String, multisender_contract: Option<String>) -> (r: Giveaway)
        ensures
            r.wf(),
            r@.owner_id == owner_id@,
            r@.active,
            r@.events.len() == 0,
            r@.whitelisted_tokens.len() == 0,
            r@.service_fees.len() == 0,
            multisender_contract matches Some(m) ==> r@.multisender_contract == m@,
            multisender_contract is None ==> r@.multisender_contract
                == "multisender.app.near"@,
    {
        let multisender = match multisender_contract {
            Some(m) => m,
            None => "multisender.app.near".to_string(),
        };
        let r = Giveaway {
            owner_id,
            active: true,
            next_event_id: 0,
            events: Vec::new(),
            payouts: Vec::new(),
            whitelisted_tokens: Vec::new(),
            multisender_contract: multisender,
            total_service_fee: Vec::new(),
        };
        assert(r@.events =~= Seq::<EventView>::empty());
        assert(r@.payouts =~= Seq::<Seq<PayoutView>>::empty());
        r
    }

    /// Creates an event for `caller`, who attached `deposit`; `now` is the
    /// block time. The deposit must cover the rewards and the service fee,
    /// which is added to the fee ledger of the reward currency; the rest is
    /// returned as the refund. Participants are registered by the rule of
    /// `append_participants`.
    pub fn add_event(&mut self, event_input: EventInput, caller: String, now: u64, deposit: u128) -> (r:
        Result<EventCreated, GiveawayError>)
        requires
            old(self).wf(),
        ensures
            final(self).wf(),
            state_step(old(self)@, final(self)@),
            match add_event_error(old(self)@, event_input, now, deposit) {
                Some(e) => r == Err::<EventCreated, GiveawayError>(e) && final(self)@ == old(self)@,
                None => {
                    let token = event_input.rewards_token_id.deep_view();
                    &&& r == Ok::<EventCreated, GiveawayError>(
                        EventCreated {
                            event_id: old(self)@.events.len() as u64,
                            refund: (deposit - required_deposit(event_input.rewards@)) as u128,
                        },
                    )
                    &&& final(self)@.events == old(self)@.events.push(
                        created_event(event_input, caller@),
                    )
                    &&& final(self)@.payouts == old(self)@.payouts.push(Seq::empty())
                    &&& fee_lookup(final(self)@.service_fees, token) == Some(
                        (fee_total(old(self)@.service_fees, token) + compute_fee(
                            total_of(event_input.rewards@),
                        )) as u128,
                    )
                    &&& forall|t: Option<Seq<char>>|
                        t != token ==> fee_lookup(final(self)@.service_fees, t) == fee_lookup(
                            old(self)@.service_fees,
                            t,
                        )
                    &&& final(self)@.owner_id == old(self)@.owner_id
                    &&& final(self)@.active == old(self)@.active
                    &&& final(self)@.whitelisted_tokens == old(self)@.whitelisted_tokens
                    &&& final(self)@.multisender_contract == old(self)@.multisender_contract
                },
            },
    {
        if let Err(e) = self.assert_active() {
            return Err(e);
        }
        if let Err(e) = self.assert_whitelisted_token(&event_input.rewards_token_id) {
            return Err(e);
        }
        let n = event_input.rewards.len();
        if n >= MAX_GIVEAWAY_WINNERS {
            return Err(GiveawayError::TooManyRewards);
        }
        if n == 0 {
            return Err(GiveawayError::MissingRewards);
        }
        if deposit < MIN_DEPOSIT_AMOUNT {
            return Err(GiveawayError::NotEnoughDeposit);
        }
        if event_input.description.as_str().len() >= MAX_DESCRIPTION_LENGTH {
            return Err(GiveawayError::DescriptionTooLong);
        }
        if event_input.title.as_str().len() >= MAX_TITLE_LENGTH {
            return Err(GiveawayError::TitleTooLong);
        }
        if now >= event_input.add_participants_end_timestamp && event_input.participants.len()
            == 0 {
            return Err(GiveawayError::ParticipantsUnreachable);
        }
        if event_input.add_participants_start_timestamp
            > event_input.add_participants_end_timestamp {
            return Err(GiveawayError::InvalidParticipantsWindow);
        }
        let total = match sum_rewards(&event_input.rewards) {
            Some(t) => t,
            None => {
                return Err(GiveawayError::InsufficientPayment);
            },
        };
        let fee = get_service_fee(&total);
        let payment = match total.checked_add(fee) {
            Some(p) => p,
            None => {
                return Err(GiveawayError::InsufficientPayment);
            },
        };
        if payment > deposit {
            return Err(GiveawayError::InsufficientPayment);
        }
        if self.next_event_id == u64::MAX {
            return Err(GiveawayError::EventIdsExhausted);
        }
        let prev_fee = match lookup_fee(&self.total_service_fee, &event_input.rewards_token_id) {
            Some(a) => a,
            None => 0,
        };
        if prev_fee > u128::MAX - fee {
            return Err(GiveawayError::ServiceFeeOverflow);
        }
        let ghost old_view = self@;
        accrue_fee(&mut self.total_service_fee, &event_input.rewards_token_id, fee);
        let mut participants: Vec<String> = Vec::new();
        let allow = event_input.allow_duplicate_participants;
        assert(participants.deep_view() =~= Seq::<Seq<char>>::empty());
        proof {
            crate::event::lemma_append_keeps_unique(
                Seq::empty(),
                event_input.participants.deep_view(),
                false,
            );
        }
        register_participants(&mut participants, event_input.participants, allow);
        let event = Event {
            owner_account_id: caller,
            status: EventStatus::Pending,
            rewards: event_input.rewards,
            rewards_token_id: event_input.rewards_token_id,
            participants,
            allow_duplicate_participants: allow,
            add_participants_start_timestamp: event_input.add_participants_start_timestamp,
            add_participants_end_timestamp: event_input.add_participants_end_timestamp,
            event_timestamp: event_input.event_timestamp,
            finalized_timestamp: None,
            title: event_input.title,
            description: event_input.description,
        };
        let event_id = self.next_event_id;
        let ghost ev = event@;
        self.events.push(event);
        let no_payouts: Vec<Payout> = Vec::new();
        assert(payouts_view(no_payouts@) =~= Seq::<PayoutView>::empty());
        self.payouts.push(no_payouts);
        self.next_event_id = event_id + 1;
        proof {
            assert(self@.events =~= old_view.events.push(ev));
            assert(self@.payouts =~= old_view.payouts.push(Seq::empty()));
            assert(event_wf(ev, Seq::empty()));
            assert forall|id: int| 0 <= id < self@.events.len() implies #[trigger] event_wf(
                self@.events[id],
                self@.payouts[id],
            ) by {
                if id < old_view.events.len() {
                    assert(event_wf(old_view.events[id], old_view.payouts[id]));
                }
            }
        }
        Ok(EventCreated { event_id, refund: deposit - payment })
    }

    /// Runs the draw of an event whose time has come, with `seed` from the
    /// host's randomness source and `now` the block time; the event moves to
    /// `Calculated` and receives its payout list.
    pub fn finalize_event(&mut self, event_id: u64, now: u64, seed: &Vec<u8>) -> (r: Result<
        (),
        GiveawayError,
    >)
        requires
            old(self).wf(),
        ensures
            final(self).wf(),
            state_step(old(self)@, final(self)@),
            match finalize_error(old(self)@, event_id, now, seed@) {
                Some(e) => r == Err::<(), GiveawayError>(e) && final(self)@ == old(self)@,
                None => {
                    let e = old(self)@.events[event_id as int];
                    &&& r is Ok
                    &&& final(self)@.events == old(self)@.events.update(
                        event_id as int,
                        finalized_event(e, now),
                    )
                    &&& final(self)@.payouts == old(self)@.payouts.update(
                        event_id as int,
                        drawn_payouts(e, seed@),
                    )
                    &&& final(self)@.owner_id == old(self)@.owner_id
                    &&& final(self)@.active == old(self)@.active
                    &&& final(self)@.whitelisted_tokens == old(self)@.whitelisted_tokens
                    &&& final(self)@.multisender_contract == old(self)@.multisender_contract
                    &&& final(self)@.service_fees == old(self)@.service_fees
                },
            },
    {
        if !self.active {
            return Err(GiveawayError::ContractDisabled);
        }
        if event_id >= self.next_event_id {
            return Err(GiveawayError::NoEvent);
        }
        let id = event_id as usize;
        let ghost old_view = self@;
        proof {
            self.lemma_view_index(id as int);
        }
        if self.events[id].status != EventStatus::Pending {
            return Err(GiveawayError::AlreadyFinalized);
        }
        if self.events[id].participants.len() == 0 {
            return Err(GiveawayError::ParticipantsMissing);
        }
        if now < self.events[id].event_timestamp {
            return Err(GiveawayError::TooEarlyToFinalize);
        }
        if seed.len() == 0 {
            return Err(GiveawayError::RandomSeedMissing);
        }
        let wrap: usize = if seed.len() < MAX_GIVEAWAY_WINNERS {
            seed.len()
        } else {
            MAX_GIVEAWAY_WINNERS
        };
        let ghost e = self@.events[id as int];
        let winners = draw_winners(
            &self.events[id].participants,
            self.events[id].rewards.len(),
            seed,
            wrap,
        );
        proof {
            crate::draw::lemma_draw_distinct_winners(
                e.participants,
                e.rewards.len(),
                seed@,
                wrap as nat,
            );
        }
        let payouts = build_payouts(&winners, &self.events[id].rewards, &self.events[id].rewards_token_id);
        self.events[id].status = EventStatus::Calculated;
        self.events[id].finalized_timestamp = Some(now);
        self.payouts[id] = payouts;
        proof {
            let ne = finalized_event(e, now);
            let nps = drawn_payouts(e, seed@);
            assert(self@.events =~= old_view.events.update(id as int, ne));
            assert(self@.payouts =~= old_view.payouts.update(id as int, nps));
            assert(event_wf(old_view.events[id as int], old_view.payouts[id as int]));
            assert(event_wf(ne, nps));
            assert forall|i: int| 0 <= i < self@.events.len() implies #[trigger] event_wf(
                self@.events[i],
                self@.payouts[i],
            ) by {
                if i != id {
                    assert(event_wf(old_view.events[i], old_view.payouts[i]));
                }
            }
        }
        Ok(())
    }

    /// Dispatches the pending payouts of the range `[from_index, from_index +
    /// limit)` (clipped; by default the whole list) of a drawn event: they
    /// are marked in flight and returned as one batch for the transfer
    /// service. Payouts that are complete or already in flight are skipped,
    /// so a repeated call yields an empty batch rather than a second payment.
    pub fn distribute_payouts(&mut self, event_id: u64, from_index: Option<u64>, limit: Option<u64>) -> (r:
        Result<TransferBatch, GiveawayError>)
        requires
            old(self).wf(),
        ensures
            final(self).wf(),
            state_step(old(self)@, final(self)@),
            match settle_error(old(self)@, event_id, GiveawayError::DistributionUnavailable) {
                Some(e) => r == Err::<TransferBatch, GiveawayError>(e) && final(self)@ == old(self)@,
                None => {
                    let ps = old(self)@.payouts[event_id as int];
                    &&& r matches Ok(batch) && batch_matches(batch, event_id, ps, from_index, limit)
                    &&& final(self)@.payouts == old(self)@.payouts.update(
                        event_id as int,
                        dispatched(ps, from_index, limit),
                    )
                    &&& final(self)@.events == old(self)@.events
                    &&& final(self)@.owner_id == old(self)@.owner_id
                    &&& final(self)@.active == old(self)@.active
                    &&& final(self)@.whitelisted_tokens == old(self)@.whitelisted_tokens
                    &&& final(self)@.multisender_contract == old(self)@.multisender_contract
                    &&& final(self)@.service_fees == old(self)@.service_fees
                },
            },
    {
        if !self.active {
            return Err(GiveawayError::ContractDisabled);
        }
        if event_id >= self.next_event_id {
            return Err(GiveawayError::NoEvent);
        }
        let id = event_id as usize;
        let ghost old_view = self@;
        proof {
            self.lemma_view_index(id as int);
            assert(event_wf(old_view.events[id as int], old_view.payouts[id as int]));
        }
        if self.events[id].status != EventStatus::Calculated {
            return Err(GiveawayError::DistributionUnavailable);
        }
        let mut ps = copy_payouts(&self.payouts[id]);
        let ghost ps0 = payouts_view(ps@);
        let ghost rw = old_view.events[id as int].rewards;
        let len = ps.len();
        let from: u64 = match from_index {
            Some(f) => f,
            None => 0,
        };
        let lim: u64 = match limit {
            Some(l) => l,
            None => len as u64,
        };
        let start: usize;
        let end: usize;
        if from >= len as u64 {
            start = len;
            end = len;
        } else if lim >= len as u64 - from {
            start = from as usize;
            end = len;
        } else {
            start = from as usize;
            end = (from + lim) as usize;
        }
        assert(forall|j: int|
            0 <= j < len ==> (in_batch(ps0, from_index, limit, j) <==> (start <= j < end
                && dispatchable(ps0[j]))));
        let mut indices: Vec<u64> = Vec::new();
        let mut accounts: Vec<MultisenderPayout> = Vec::new();
        let mut total: u128 = 0;
        let mut j: usize = start;
        proof {
            lemma_prefix_total(rw, start as int);
            assert forall|i: int| 0 <= i < len implies #[trigger] ps0[i].amount == rw[i] by {
                assert(payout_fits(old_view.events[id as int], ps0[i], i));
            }
        }
        while j < end
            invariant
                start <= j <= end <= len,
                len == ps0.len() == ps.len(),
                len <= rw.len(),
                total_of(rw) <= u128::MAX,
                forall|i: int| 0 <= i < len ==> #[trigger] ps0[i].amount == rw[i],
                forall|i: int|
                    0 <= i < len ==> (in_batch(ps0, from_index, limit, i) <==> (start <= i < end
                        && dispatchable(ps0[i]))),
                payouts_view(ps@) == Seq::new(
                    len as nat,
                    |i: int|
                        if start <= i < j && dispatchable(ps0[i]) {
                            PayoutView { in_flight: true, ..ps0[i] }
                        } else {
                            ps0[i]
                        },
                ),
                indices@.len() == accounts@.len(),
                forall|k: int|
                    0 <= k < indices@.len() ==> start <= #[trigger] indices@[k] < j && dispatchable(
                        ps0[indices@[k] as int],
                    ) && transfers_view(accounts@)[k] == transfer_of(ps0[indices@[k] as int]),
                forall|k1: int, k2: int|
                    0 <= k1 < k2 < indices@.len() ==> indices@[k1] < indices@[k2],
                forall|i: int| start <= i < j && dispatchable(ps0[i]) ==> indices@.contains(i as u64),
                total == transfers_total(transfers_view(accounts@)),
                total <= total_of(rw.subrange(0, j as int)),
            decreases end - j,
        {
            proof {
                assert(rw.subrange(0, j + 1).drop_last() =~= rw.subrange(0, j as int));
                lemma_prefix_total(rw, j + 1);
                assert(payouts_view(ps@)[j as int] == ps0[j as int]);
            }
            if ps[j].status == PayoutStatus::Pending && !ps[j].in_flight {
                let ghost prev_accounts = transfers_view(accounts@);
                let ghost prev_indices = indices@;
                let ghost prev_ps = payouts_view(ps@);
                accounts.push(
                    MultisenderPayout {
                        account_id: ps[j].account_id.clone(),
                        token_id: copy_token(&ps[j].token_id),
                        amount: ps[j].amount,
                    },
                );
                indices.push(j as u64);
                total = total + ps[j].amount;
                ps[j].in_flight = true;
                proof {
                    let tv = transfers_view(accounts@);
                    assert(tv =~= prev_accounts.push(transfer_of(ps0[j as int])));
                    assert(tv.drop_last() =~= prev_accounts);
                    assert(indices@ =~= prev_indices.push(j as u64));
                    assert(payouts_view(ps@) =~= prev_ps.update(
                        j as int,
                        PayoutView { in_flight: true, ..ps0[j as int] },
                    ));
                    assert forall|i: int|
                        start <= i < j + 1 && dispatchable(ps0[i]) implies indices@.contains(
                        i as u64,
                    ) by {
                        if i < j {
                            let k = choose|k: int| 0 <= k < prev_indices.len() && prev_indices[k] == i as u64;
                            assert(indices@[k] == i as u64);
                        } else {
                            assert(indices@[indices@.len() - 1] == i as u64);
                        }
                    }
                }
            }
            j = j + 1;
            proof {
                assert(payouts_view(ps@) =~= Seq::new(
                    len as nat,
                    |i: int|
                        if start <= i < j && dispatchable(ps0[i]) {
                            PayoutView { in_flight: true, ..ps0[i] }
                        } else {
                            ps0[i]
                        },
                ));
            }
        }
        self.payouts[id] = ps;
        let batch = TransferBatch { event_id, payout_indices: indices, accounts, total };
        proof {
            let nps = dispatched(ps0, from_index, limit);
            assert(payouts_view(self.payouts@[id as int]@) =~= nps);
            assert(self@.payouts =~= old_view.payouts.update(id as int, nps));
            assert(self@.events =~= old_view.events);
            assert forall|q: int| 0 <= q < nps.len() implies #[trigger] payout_fits(
                self@.events[id as int],
                nps[q],
                q,
            ) by {
                assert(payout_fits(old_view.events[id as int], ps0[q], q));
            }
            assert(event_wf(self@.events[id as int], nps));
            assert forall|i: int| 0 <= i < self@.events.len() implies #[trigger] event_wf(
                self@.events[i],
                self@.payouts[i],
            ) by {
                if i != id {
                    assert(event_wf(old_view.events[i], old_view.payouts[i]));
                }
            }
        }
        Ok(batch)
    }

    /// Records the transfer service's report on a dispatched batch of event
    /// `event_id`, naming its payouts by index. On success they become
    /// complete; on failure they return to pending, to be dispatched again.
    /// A complete payout stays complete, so a repeated report is harmless.
    /// Indices outside the payout list, and unknown events, are ignored.
    /// Returns `success`.
    pub fn after_multisend_attached_tokens(
        &mut self,
        event_id: u64,
        payout_indices: &Vec<u64>,
        success: bool,
    ) -> (r: bool)
        requires
            old(self).wf(),
        ensures
            final(self).wf(),
            state_step(old(self)@, final(self)@),
            r == success,
            event_id < old(self)@.events.len() ==> final(self)@.payouts == old(self)@.payouts.update(
                event_id as int,
                after_transfer(old(self)@.payouts[event_id as int], payout_indices@, success),
            ),
            event_id >= old(self)@.events.len() ==> final(self)@ == old(self)@,
            final(self)@.events == old(self)@.events,
            final(self)@.owner_id == old(self)@.owner_id,
            final(self)@.active == old(self)@.active,
            final(self)@.whitelisted_tokens == old(self)@.whitelisted_tokens,
            final(self)@.multisender_contract == old(self)@.multisender_contract,
            final(self)@.service_fees == old(self)@.service_fees,
    {
        if event_id >= self.next_event_id {
            return success;
        }
        let id = event_id as usize;
        let ghost old_view = self@;
        proof {
            self.lemma_view_index(id as int);
            assert(event_wf(old_view.events[id as int], old_view.payouts[id as int]));
        }
        let mut ps = copy_payouts(&self.payouts[id]);
        let ghost ps0 = payouts_view(ps@);
        let len = ps.len();
        let mut k: usize = 0;
        while k < payout_indices.len()
            invariant
                k <= payout_indices.len(),
                len == ps0.len() == ps.len(),
                payouts_view(ps@) == Seq::new(
                    len as nat,
                    |i: int|
                        if payout_indices@.subrange(0, k as int).contains(i as u64) {
                            settled(ps0[i], success)
                        } else {
                            ps0[i]
                        },
                ),
            decreases payout_indices.len() - k,
        {
            let j = payout_indices[k];
            let ghost prev = payouts_view(ps@);
            if j < len as u64 {
                let ju = j as usize;
                assert(prev[ju as int] == if payout_indices@.subrange(0, k as int).contains(
                    ju as u64,
                ) {
                    settled(ps0[ju as int], success)
                } else {
                    ps0[ju as int]
                });
                if success {
                    ps[ju].status = PayoutStatus::Complete;
                }
                ps[ju].in_flight = false;
                assert(payouts_view(ps@) =~= prev.update(ju as int, settled(ps0[ju as int], success)));
            }
            k = k + 1;
            proof {
                let before = payout_indices@.subrange(0, k - 1);
                let now_seen = payout_indices@.subrange(0, k as int);
                assert(now_seen =~= before.push(j));
                assert forall|i: int| 0 <= i < len implies (#[trigger] now_seen.contains(i as u64) <==> (
                before.contains(i as u64) || j == i as u64)) by {
                    if now_seen.contains(i as u64) && !before.contains(i as u64) {
                        let q = choose|q: int| 0 <= q < now_seen.len() && now_seen[q] == i as u64;
                        if q < before.len() {
                            assert(before[q] == i as u64);
                        }
                    }
                    if before.contains(i as u64) {
                        let q = choose|q: int| 0 <= q < before.len() && before[q] == i as u64;
                        assert(now_seen[q] == i as u64);
                    }
                    if j == i as u64 {
                        assert(now_seen[k - 1] == i as u64);
                    }
                }
                assert(payouts_view(ps@) =~= Seq::new(
                    len as nat,
                    |i: int|
                        if now_seen.contains(i as u64) {
                            settled(ps0[i], success)
                        } else {
                            ps0[i]
                        },
                ));
            }
        }
        assert(payout_indices@.subrange(0, k as int) =~= payout_indices@);
        self.payouts[id] = ps;
        proof {
            let nps = after_transfer(ps0, payout_indices@, success);
            assert(payouts_view(self.payouts@[id as int]@) =~= nps);
            assert(self@.payouts =~= old_view.payouts.update(id as int, nps));
            assert(self@.events =~= old_view.events);
            assert forall|q: int| 0 <= q < nps.len() implies #[trigger] payout_fits(
                self@.events[id as int],
                nps[q],
                q,
            ) by {
                assert(payout_fits(old_view.events[id as int], ps0[q], q));
            }
            assert(event_wf(self@.events[id as int], nps));
            assert forall|i: int| 0 <= i < self@.events.len() implies #[trigger] event_wf(
                self@.events[i],
                self@.payouts[i],
            ) by {
                if i != id {
                    assert(event_wf(old_view.events[i], old_view.payouts[i]));
                }
            }
        }
        success
    }

    /// Settles a drawn event whose payouts are all complete: it moves to
    /// `Distributed`, its terminal state.
    pub fn close_event(&mut self, event_id: u64) -> (r: Result<(), GiveawayError>)
        requires
            old(self).wf(),
        ensures
            final(self).wf(),
            state_step(old(self)@, final(self)@),
            r is Ok <==> old(self)@.active && event_id < old(self)@.events.len()
                && old(self)@.events[event_id as int].status == EventStatus::Calculated
                && all_complete(old(self)@.payouts[event_id as int]),
            match settle_error(old(self)@, event_id, GiveawayError::CloseUnavailable) {
                Some(e) => r == Err::<(), GiveawayError>(e) && final(self)@ == old(self)@,
                None => if all_complete(old(self)@.payouts[event_id as int]) {
                    &&& final(self)@.events == old(self)@.events.update(
                        event_id as int,
                        EventView {
                            status: EventStatus::Distributed,
                            ..old(self)@.events[event_id as int]
                        },
                    )
                    &&& final(self)@.payouts == old(self)@.payouts
                    &&& final(self)@.owner_id == old(self)@.owner_id
                    &&& final(self)@.active == old(self)@.active
                    &&& final(self)@.whitelisted_tokens == old(self)@.whitelisted_tokens
                    &&& final(self)@.multisender_contract == old(self)@.multisender_contract
                    &&& final(self)@.service_fees == old(self)@.service_fees
                } else {
                    r == Err::<(), GiveawayError>(GiveawayError::PayoutsPending) && final(self)@
                        == old(self)@
                },
            },
    {
        if !self.active {
            return Err(GiveawayError::ContractDisabled);
        }
        if event_id >= self.next_event_id {
            return Err(GiveawayError::NoEvent);
        }
        let id = event_id as usize;
        let ghost old_view = self@;
        proof {
            self.lemma_view_index(id as int);
        }
        if self.events[id].status != EventStatus::Calculated {
            return Err(GiveawayError::CloseUnavailable);
        }
        let ghost ps = old_view.payouts[id as int];
        if !all_payouts_complete(&self.payouts[id]) {
            return Err(GiveawayError::PayoutsPending);
        }
        self.events[id].status = EventStatus::Distributed;
        proof {
            let ne = EventView { status: EventStatus::Distributed, ..old_view.events[id as int] };
            assert(self@.events =~= old_view.events.update(id as int, ne));
            assert(self@.payouts =~= old_view.payouts);
            assert(event_wf(old_view.events[id as int], ps));
            assert(all_complete(ps));
            assert forall|q: int| 0 <= q < ps.len() implies #[trigger] payout_fits(ne, ps[q], q) by {
                assert(payout_fits(old_view.events[id as int], ps[q], q));
            }
            assert(event_wf(ne, ps));
            assert forall|i: int| 0 <= i < self@.events.len() implies #[trigger] event_wf(
                self@.events[i],
                self@.payouts[i],
            ) by {
                assert(event_wf(old_view.events[i], old_view.payouts[i]));
            }
        }
        Ok(())
    }

    /// Registers `participants` for a pending event of `caller`, within its
    /// registration window and before its event time (`now` is the block
    /// time). Without duplicates allowed, accounts already registered are
    /// skipped.
    pub fn insert_participants(
        &mut self,
        event_id: u64,
        participants: Vec<String>,
        caller: &String,
        now: u64,
    ) -> (r: Result<(), GiveawayError>)
        requires
            old(self).wf(),
        ensures
            final(self).wf(),
            state_step(old(self)@, final(self)@),
            match insert_error(old(self)@, event_id, caller@, now) {
                Some(e) => r == Err::<(), GiveawayError>(e) && final(self)@ == old(self)@,
                None => {
                    let e = old(self)@.events[event_id as int];
                    &&& r is Ok
                    &&& final(self)@.events == old(self)@.events.update(
                        event_id as int,
                        EventView {
                            participants: append_participants(
                                e.participants,
                                participants.deep_view(),
                                e.allow_duplicate_participants,
                            ),
                            ..e
                        },
                    )
                    &&& final(self)@.payouts == old(self)@.payouts
                    &&& final(self)@.owner_id == old(self)@.owner_id
                    &&& final(self)@.active == old(self)@.active
                    &&& final(self)@.whitelisted_tokens == old(self)@.whitelisted_tokens
                    &&& final(self)@.multisender_contract == old(self)@.multisender_contract
                    &&& final(self)@.service_fees == old(self)@.service_fees
                },
            },
    {
        if !self.active {
            return Err(GiveawayError::ContractDisabled);
        }
        if event_id >= self.next_event_id {
            return Err(GiveawayError::NoEvent);
        }
        let id = event_id as usize;
        let ghost old_view = self@;
        proof {
            self.lemma_view_index(id as int);
        }
        if self.events[id].status != EventStatus::Pending {
            return Err(GiveawayError::AlreadyFinalized);
        }
        if now < self.events[id].add_participants_start_timestamp {
            return Err(GiveawayError::TooEarlyToAddParticipants);
        }
        if now >= self.events[id].add_participants_end_timestamp {
            return Err(GiveawayError::TooLateToAddParticipants);
        }
        if now >= self.events[id].event_timestamp {
            return Err(GiveawayError::EventDatePassed);
        }
        if let Err(e) = self.assert_event_owner(&self.events[id], caller) {
            return Err(e);
        }
        let ghost e = old_view.events[id as int];
        let allow = self.events[id].allow_duplicate_participants;
        proof {
            assert(event_wf(e, old_view.payouts[id as int]));
            if !allow {
                crate::event::lemma_append_keeps_unique(
                    e.participants,
                    participants.deep_view(),
                    allow,
                );
            }
        }
        register_participants(&mut self.events[id].participants, participants, allow);
        proof {
            let ne = EventView {
                participants: append_participants(
                    e.participants,
                    participants.deep_view(),
                    allow,
                ),
                ..e
            };
            assert(self@.events =~= old_view.events.update(id as int, ne));
            assert(self@.payouts =~= old_view.payouts);
            assert forall|i: int| 0 <= i < self@.events.len() implies #[trigger] event_wf(
                self@.events[i],
                self@.payouts[i],
            ) by {
                assert(event_wf(old_view.events[i], old_view.payouts[i]));
            }
        }
        Ok(())
    }

    /// The record of event `event_id`.
    pub fn internal_get_event(&self, event_id: u64) -> (r: Result<&Event, GiveawayError>)
        requires
            self.wf(),
        ensures
            event_id < self@.events.len() ==> (r matches Ok(e) && e@ == self@.events[event_id as int]),
            event_id >= self@.events.len() ==> r == Err::<&Event, GiveawayError>(GiveawayError::NoEvent),
    {
        if event_id >= self.next_event_id {
            return Err(GiveawayError::NoEvent);
        }
        proof {
            self.lemma_view_index(event_id as int);
        }
        Ok(&self.events[event_id as usize])
    }

    /// A copy of event `event_id`, if it exists.
    pub fn get_event(&self, event_id: u64) -> (r: Option<EventOutput>)
        requires
            self.wf(),
        ensures
            event_id < self@.events.len() ==> (r matches Some(o) && o@ == self@.events[event_id as int]),
            event_id >= self@.events.len() ==> r is None,
    {
        match self.internal_get_event(event_id) {
            Ok(e) => Some(e.to_output()),
            Err(_) => None,
        }
    }

    fn events_in_range(&self, from_index: u64, limit: u64, only_ready: bool, now: u64) -> (r: HashMap<
        u64,
        Option<EventOutput>,
    >)
        requires
            self.wf(),
        ensures
            listing_matches(r@, self@, from_index, limit, only_ready, now),
    {
        broadcast use vstd::std_specs::hash::group_hash_axioms;

        let mut r: HashMap<u64, Option<EventOutput>> = HashMap::new();
        let len = self.next_event_id;
        let end: u64 = if from_index >= len {
            from_index
        } else if limit >= len - from_index {
            len
        } else {
            from_index + limit
        };
        let mut k: u64 = from_index;
        while k < end
            invariant
                self.wf(),
                len == self@.events.len(),
                from_index <= k <= end,
                end as int == if from_index >= len {
                    from_index as int
                } else if from_index + limit < len {
                    from_index + limit
                } else {
                    len as int
                },
                forall|id: u64|
                    r@.contains_key(id) <==> (from_index <= id < k && listed(
                        self@,
                        from_index,
                        limit,
                        only_ready,
                        now,
                        id,
                    )),
                forall|id: u64| #[trigger]
                    r@.contains_key(id) ==> (r@[id] matches Some(o) && o@ == self@.events[id as int]),
            decreases end - k,
        {
            proof {
                self.lemma_view_index(k as int);
            }
            let e = &self.events[k as usize];
            if !only_ready || (e.status == EventStatus::Pending && now >= e.event_timestamp) {
                r.insert(k, Some(e.to_output()));
            }
            k = k + 1;
        }
        r
    }

    /// The events with ids in `[from_index, from_index + limit)`, clipped to
    /// the events that exist.
    pub fn get_events(&self, from_index: u64, limit: u64) -> (r: HashMap<u64, Option<EventOutput>>)
        requires
            self.wf(),
        ensures
            listing_matches(r@, self@, from_index, limit, false, 0),
    {
        self.events_in_range(from_index, limit, false, 0)
    }

    /// The events of that range that are pending and whose time has come at
    /// `now`: those ready for their draw.
    pub fn get_events_to_finalize(&self, from_index: u64, limit: u64, now: u64) -> (r: HashMap<
        u64,
        Option<EventOutput>,
    >)
        requires
            self.wf(),
        ensures
            listing_matches(r@, self@, from_index, limit, true, now),
    {
        self.events_in_range(from_index, limit, true, now)
    }

    /// A copy of the payout list of event `event_id`; empty when the event
    /// does not exist or has not been drawn.
    pub fn internal_get_payouts(&self, event_id: u64) -> (r: Vec<Payout>)
        requires
            self.wf(),
        ensures
            event_id < self@.events.len() ==> payouts_view(r@) == self@.payouts[event_id as int],
            event_id >= self@.events.len() ==> r@.len() == 0,
    {
        if event_id >= self.next_event_id {
            return Vec::new();
        }
        proof {
            self.lemma_view_index(event_id as int);
        }
        copy_payouts(&self.payouts[event_id as usize])
    }

    /// The payouts of event `event_id` in `[from_index, from_index + limit)`,
    /// clipped to the list; `from_index` defaults to 0 and `limit` to the
    /// whole list.
    pub fn get_payouts(&self, event_id: u64, from_index: Option<u64>, limit: Option<u64>) -> (r: Vec<
        Payout,
    >)
        requires
            self.wf(),
        ensures
            event_id < self@.events.len() ==> {
                let ps = self@.payouts[event_id as int];
                let start = range_start(from_index);
                let end = range_end(from_index, limit, ps.len() as int);
                &&& start < end ==> payouts_view(r@) == ps.subrange(start, end)
                &&& start >= end ==> r@.len() == 0
            },
            event_id >= self@.events.len() ==> r@.len() == 0,
    {
        let all = self.internal_get_payouts(event_id);
        let len = all.len();
        let from: u64 = match from_index {
            Some(f) => f,
            None => 0,
        };
        let lim: u64 = match limit {
            Some(l) => l,
            None => len as u64,
        };
        if from >= len as u64 {
            return Vec::new();
        }
        let end: usize = if lim >= len as u64 - from {
            len
        } else {
            (from + lim) as usize
        };
        let ghost pv = payouts_view(all@);
        let mut r: Vec<Payout> = Vec::new();
        let mut j: usize = from as usize;
        while j < end
            invariant
                from <= j <= end <= len,
                len == all.len(),
                pv == payouts_view(all@),
                payouts_view(r@) =~= pv.subrange(from as int, j as int),
            decreases end - j,
        {
            let ghost prev = r@;
            r.push(all[j].duplicate());
            assert(payouts_view(r@) =~= payouts_view(prev).push(pv[j as int]));
            j = j + 1;
        }
        r
    }

    /// Adds `fee` to the fee ledger of currency `token_id`.
    pub fn internal_add_service_fee(&mut self, token_id: &Option<String>, fee: u128)
        requires
            old(self).wf(),
            fee_total(old(self)@.service_fees, token_id.deep_view()) + fee <= u128::MAX,
        ensures
            final(self).wf(),
            fee_lookup(final(self)@.service_fees, token_id.deep_view()) == Some(
                (fee_total(old(self)@.service_fees, token_id.deep_view()) + fee) as u128,
            ),
            forall|t: Option<Seq<char>>|
                t != token_id.deep_view() ==> fee_lookup(final(self)@.service_fees, t) == fee_lookup(
                    old(self)@.service_fees,
                    t,
                ),
            final(self)@ == (GiveawayView { service_fees: final(self)@.service_fees, ..old(self)@ }),
    {
        accrue_fee(&mut self.total_service_fee, token_id, fee);
    }

    /// The accumulated fees of currency `token_id`, if any were recorded.
    pub fn get_total_service_fee(&self, token_id: Option<String>) -> (r: Option<u128>)
        ensures
            r == fee_lookup(self@.service_fees, token_id.deep_view()),
    {
        lookup_fee(&self.total_service_fee, &token_id)
    }

    /// Fails unless the contract is switched on.
    pub fn assert_active(&self) -> (r: Result<(), GiveawayError>)
        ensures
            r == if self@.active {
                Ok::<(), GiveawayError>(())
            } else {
                Err(GiveawayError::ContractDisabled)
            },
    {
        if self.active {
            Ok(())
        } else {
            Err(GiveawayError::ContractDisabled)
        }
    }

    /// Fails unless the currency is native or whitelisted.
    pub fn assert_whitelisted_token(&self, token_id: &Option<String>) -> (r: Result<(), GiveawayError>)
        ensures
            r == match token_id.deep_view() {
                Some(t) => if self@.whitelisted_tokens.contains(t) {
                    Ok::<(), GiveawayError>(())
                } else {
                    Err(GiveawayError::TokenNotAllowed)
                },
                None => Ok(()),
            },
    {
        if let Some(t) = token_id {
            if !self.is_whitelisted_token(t) {
                return Err(GiveawayError::TokenNotAllowed);
            }
        }
        Ok(())
    }

    /// Fails unless `caller` owns `event`.
    pub fn assert_event_owner(&self, event: &Event, caller: &String) -> (r: Result<(), GiveawayError>)
        ensures
            r == if caller@ == event.owner_account_id@ {
                Ok::<(), GiveawayError>(())
            } else {
                Err(GiveawayError::NoAccess)
            },
    {
        if *caller == event.owner_account_id {
            Ok(())
        } else {
            Err(GiveawayError::NoAccess)
        }
    }

    /// Fails unless `caller` owns the contract.
    pub fn assert_contract_owner(&self, caller: &String) -> (r: Result<(), GiveawayError>)
        ensures
            r == if caller@ == self@.owner_id {
                Ok::<(), GiveawayError>(())
            } else {
                Err(GiveawayError::NoAccess)
            },
    {
        if *caller == self.owner_id {
            Ok(())
        } else {
            Err(GiveawayError::NoAccess)
        }
    }

    /// Switches the contract on or off.
    pub fn set_active(&mut self, active: bool)
        requires
            old(self).wf(),
        ensures
            final(self).wf(),
            state_step(old(self)@, final(self)@),
            final(self)@ == (GiveawayView { active, ..old(self)@ }),
    {
        self.active = active;
    }

    /// The id the next event will receive.
    pub fn get_next_event_id(&self) -> (r: u64)
        requires
            self.wf(),
        ensures
            r == self@.events.len(),
    {
        self.next_event_id
    }

    /// The account of the bulk-transfer service.
    pub fn get_multisender_contract(&self) -> (r: String)
        ensures
            r@ == self@.multisender_contract,
    {
        self.multisender_contract.clone()
    }

    /// Whitelists a reward currency; only the contract owner may.
    pub fn whitelist_token(&mut self, caller: &String, token_id: String) -> (r: Result<
        (),
        GiveawayError,
    >)
        requires
            old(self).wf(),
        ensures
            final(self).wf(),
            state_step(old(self)@, final(self)@),
            caller@ != old(self)@.owner_id ==> r == Err::<(), GiveawayError>(GiveawayError::NoAccess)
                && final(self)@ == old(self)@,
            caller@ == old(self)@.owner_id ==> r is Ok && final(self)@ == (GiveawayView {
                whitelisted_tokens: if old(self)@.whitelisted_tokens.contains(token_id@) {
                    old(self)@.whitelisted_tokens
                } else {
                    old(self)@.whitelisted_tokens.push(token_id@)
                },
                ..old(self)@
            }),
    {
        if *caller != self.owner_id {
            return Err(GiveawayError::NoAccess);
        }
        if !contains_account(&self.whitelisted_tokens, &token_id) {
            let ghost prev = self.whitelisted_tokens.deep_view();
            self.whitelisted_tokens.push(token_id);
            assert(self.whitelisted_tokens.deep_view() =~= prev.push(token_id@));
        }
        Ok(())
    }

    /// Whether a currency is whitelisted.
    pub fn is_whitelisted_token(&self, token_id: &String) -> (r: bool)
        ensures
            r == self@.whitelisted_tokens.contains(token_id@),
    {
        contains_account(&self.whitelisted_tokens, token_id)
    }

    /// Hands out the whole state as plain values.
    pub fn into_state(self) -> (r: GiveawayState)
        ensures
            state_view(r) == self@,
    {
        GiveawayState {
            owner_id: self.owner_id,
            active: self.active,
            events: self.events,
            payouts: self.payouts,
            whitelisted_tokens: self.whitelisted_tokens,
            multisender_contract: self.multisender_contract,
            total_service_fee: self.total_service_fee,
        }
    }

    /// Takes a state back from plain values; `None` when they are not a
    /// consistent state.
    pub fn from_state(state: GiveawayState) -> (r: Option<Giveaway>)
        ensures
            r is Some <==> state_wf(state_view(state)),
            r matches Some(g) ==> g.wf() && g@ == state_view(state),
    {
        let ghost v = state_view(state);
        let len = state.events.len();
        if len != state.payouts.len() {
            return None;
        }
        let mut i: usize = 0;
        while i < len
            invariant
                v == state_view(state),
                len == state.events.len() == state.payouts.len(),
                v.events.len() == len,
                v.payouts.len() == len,
                i <= len,
                forall|id: int| 0 <= id < i ==> #[trigger] event_wf(v.events[id], v.payouts[id]),
            decreases len - i,
        {
            if !event_ok(&state.events[i], &state.payouts[i]) {
                assert(!event_wf(v.events[i as int], v.payouts[i as int]));
                return None;
            }
            i = i + 1;
        }
        let g = Giveaway {
            owner_id: state.owner_id,
            active: state.active,
            next_event_id: len as u64,
            events: state.events,
            payouts: state.payouts,
            whitelisted_tokens: state.whitelisted_tokens,
            multisender_contract: state.multisender_contract,
            total_service_fee: state.total_service_fee,
        };
        Some(g)
    }
}

} // verus!
