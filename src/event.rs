//! Events: the record of one giveaway, from creation to settlement.
use vstd::prelude::*;

use crate::draw::contains_account;
use crate::payout::copy_token;

verus! {

/// Event lifecycle. Moves only forward: `Pending`, then `Calculated` once
/// the draw ran, then `Distributed` once every payout is complete.
#[derive(Clone, Copy, Debug, PartialEq, Eq, Structural)]
pub enum EventStatus {
    Pending,
    Calculated,
    Distributed,
}

/// Position of a status in the lifecycle.
pub open spec fn status_rank(s: EventStatus) -> nat {
    match s {
        EventStatus::Pending => 0,
        EventStatus::Calculated => 1,
        EventStatus::Distributed => 2,
    }
}

#[derive(Clone, Debug)]
pub struct Event {
    pub owner_account_id: String,
    pub status: EventStatus,
    /// Reward amounts, in draw order.
    pub rewards: Vec<u128>,
    /// Currency of every reward; `None` for the native currency.
    pub rewards_token_id: Option<String>,
    /// Registered participants, in registration order.
    pub participants: Vec<String>,
    pub allow_duplicate_participants: bool,
    pub add_participants_start_timestamp: u64,
    pub add_participants_end_timestamp: u64,
    pub event_timestamp: u64,
    /// Set exactly when the draw runs.
    pub finalized_timestamp: Option<u64>,
    pub title: String,
    pub description: String,
}

pub struct EventView {
    pub owner_account_id: Seq<char>,
    pub status: EventStatus,
    pub rewards: Seq<u128>,
    pub rewards_token_id: Option<Seq<char>>,
    pub participants: Seq<Seq<char>>,
    pub allow_duplicate_participants: bool,
    pub add_participants_start_timestamp: u64,
    pub add_participants_end_timestamp: u64,
    pub event_timestamp: u64,
    pub finalized_timestamp: Option<u64>,
    pub title: Seq<char>,
    pub description: Seq<char>,
}

impl View for Event {
    type V = EventView;

    open spec fn view(&self) -> EventView {
        EventView {
            owner_account_id: self.owner_account_id@,
            status: self.status,
            rewards: self.rewards@,
            rewards_token_id: self.rewards_token_id.deep_view(),
            participants: self.participants.deep_view(),
            allow_duplicate_participants: self.allow_duplicate_participants,
            add_participants_start_timestamp: self.add_participants_start_timestamp,
            add_participants_end_timestamp: self.add_participants_end_timestamp,
            event_timestamp: self.event_timestamp,
            finalized_timestamp: self.finalized_timestamp,
            title: self.title@,
            description: self.description@,
        }
    }
}

/// What an organizer supplies to create an event.
#[derive(Clone, Debug)]
pub struct EventInput {
    pub rewards: Vec<u128>,
    pub rewards_token_id: Option<String>,
    pub participants: Vec<String>,
    pub allow_duplicate_participants: bool,
    pub add_participants_start_timestamp: u64,
    pub add_participants_end_timestamp: u64,
    pub event_timestamp: u64,
    pub title: String,
    pub description: String,
}

/// An event as handed out to readers.
#[derive(Clone, Debug)]
pub struct EventOutput {
    pub owner_account_id: String,
    pub status: EventStatus,
    pub rewards: Vec<u128>,
    pub rewards_token_id: Option<String>,
    pub participants: Vec<String>,
    pub allow_duplicate_participants: bool,
    pub add_participants_start_timestamp: u64,
    pub add_participants_end_timestamp: u64,
    pub event_timestamp: u64,
    pub finalized_timestamp: Option<u64>,
    pub title: String,
    pub description: String,
}

impl View for EventOutput {
    type V = EventView;

    open spec fn view(&self) -> EventView {
        EventView {
            owner_account_id: self.owner_account_id@,
            status: self.status,
            rewards: self.rewards@,
            rewards_token_id: self.rewards_token_id.deep_view(),
            participants: self.participants.deep_view(),
            allow_duplicate_participants: self.allow_duplicate_participants,
            add_participants_start_timestamp: self.add_participants_start_timestamp,
            add_participants_end_timestamp: self.add_participants_end_timestamp,
            event_timestamp: self.event_timestamp,
            finalized_timestamp: self.finalized_timestamp,
            title: self.title@,
            description: self.description@,
        }
    }
}

/// Versioned envelope in which events are stored; read back through `From`.
pub enum VEvent {
    Current(Event),
}

impl From<VEvent> for Event {
    fn from(v: VEvent) -> (r: Event) {
        match v {
            VEvent::Current(e) => e,
        }
    }
}

impl vstd::std_specs::convert::FromSpecImpl<VEvent> for Event {
    open spec fn obeys_from_spec() -> bool {
        true
    }

    open spec fn from_spec(v: VEvent) -> Event {
        match v {
            VEvent::Current(e) => e,
        }
    }
}

pub open spec fn output_of(e: Event) -> EventOutput {
    EventOutput {
        owner_account_id: e.owner_account_id,
        status: e.status,
        rewards: e.rewards,
        rewards_token_id: e.rewards_token_id,
        participants: e.participants,
        allow_duplicate_participants: e.allow_duplicate_participants,
        add_participants_start_timestamp: e.add_participants_start_timestamp,
        add_participants_end_timestamp: e.add_participants_end_timestamp,
        event_timestamp: e.event_timestamp,
        finalized_timestamp: e.finalized_timestamp,
        title: e.title,
        description: e.description,
    }
}

impl From<VEvent> for EventOutput {
    fn from(v: VEvent) -> (r: EventOutput) {
        match v {
            VEvent::Current(e) => EventOutput {
                owner_account_id: e.owner_account_id,
                status: e.status,
                rewards: e.rewards,
                rewards_token_id: e.rewards_token_id,
                participants: e.participants,
                allow_duplicate_participants: e.allow_duplicate_participants,
                add_participants_start_timestamp: e.add_participants_start_timestamp,
                add_participants_end_timestamp: e.add_participants_end_timestamp,
                event_timestamp: e.event_timestamp,
                finalized_timestamp: e.finalized_timestamp,
                title: e.title,
                description: e.description,
            },
        }
    }
}

impl vstd::std_specs::convert::FromSpecImpl<VEvent> for EventOutput {
    open spec fn obeys_from_spec() -> bool {
        true
    }

    open spec fn from_spec(v: VEvent) -> EventOutput {
        match v {
            VEvent::Current(e) => output_of(e),
        }
    }
}

/// Copies a list of accounts.
pub fn copy_accounts(v: &Vec<String>) -> (r: Vec<String>)
    ensures
        r.deep_view() == v.deep_view(),
{
    let mut r: Vec<String> = Vec::new();
    let mut i: usize = 0;
    while i < v.len()
        invariant
            i <= v.len(),
            r.deep_view() =~= v.deep_view().subrange(0, i as int),
        decreases v.len() - i,
    {
        let ghost prev = r.deep_view();
        r.push(v[i].clone());
        assert(r.deep_view() =~= prev.push(v.deep_view()[i as int]));
        i = i + 1;
    }
    assert(r.deep_view() =~= v.deep_view());
    r
}

/// Copies a list of amounts.
pub fn copy_amounts(v: &Vec<u128>) -> (r: Vec<u128>)
    ensures
        r@ == v@,
{
    let mut r: Vec<u128> = Vec::new();
    let mut i: usize = 0;
    while i < v.len()
        invariant
            i <= v.len(),
            r@ =~= v@.subrange(0, i as int),
        decreases v.len() - i,
    {
        r.push(v[i]);
        i = i + 1;
    }
    assert(r@ =~= v@);
    r
}

impl Event {
    /// This event as handed out to readers.
    pub fn to_output(&self) -> (r: EventOutput)
        ensures
            r@ == self@,
    {
        EventOutput {
            owner_account_id: self.owner_account_id.clone(),
            status: self.status,
            rewards: copy_amounts(&self.rewards),
            rewards_token_id: copy_token(&self.rewards_token_id),
            participants: copy_accounts(&self.participants),
            allow_duplicate_participants: self.allow_duplicate_participants,
            add_participants_start_timestamp: self.add_participants_start_timestamp,
            add_participants_end_timestamp: self.add_participants_end_timestamp,
            event_timestamp: self.event_timestamp,
            finalized_timestamp: self.finalized_timestamp,
            title: self.title.clone(),
            description: self.description.clone(),
        }
    }
}

/// Registers `incoming` after `current`, in order; when duplicates are not
/// allowed, an account already registered (also earlier in `incoming`) is
/// skipped.
pub open spec fn append_participants(
    current: Seq<Seq<char>>,
    incoming: Seq<Seq<char>>,
    allow_duplicates: bool,
) -> Seq<Seq<char>>
    decreases incoming.len(),
{
    if incoming.len() == 0 {
        current
    } else {
        let next = if allow_duplicates || !current.contains(incoming[0]) {
            current.push(incoming[0])
        } else {
            current
        };
        append_participants(next, incoming.drop_first(), allow_duplicates)
    }
}

/// With duplicates disallowed, registration keeps the list free of repeats.
pub proof fn lemma_append_keeps_unique(
    current: Seq<Seq<char>>,
    incoming: Seq<Seq<char>>,
    allow_duplicates: bool,
)
    requires
        !allow_duplicates,
        current.no_duplicates(),
    ensures
        append_participants(current, incoming, allow_duplicates).no_duplicates(),
    decreases incoming.len(),
{
    if incoming.len() > 0 {
        let next = if !current.contains(incoming[0]) {
            current.push(incoming[0])
        } else {
            current
        };
        assert(next.no_duplicates()) by {
            if !current.contains(incoming[0]) {
                assert forall|a: int, b: int|
                    0 <= a < next.len() && 0 <= b < next.len() && a != b implies next[a]
                    != next[b] by {
                    if a < current.len() && b < current.len() {
                    } else if a < current.len() {
                        assert(current.contains(current[a]));
                    } else {
                        assert(current.contains(current[b]));
                    }
                }
            }
        }
        lemma_append_keeps_unique(next, incoming.drop_first(), allow_duplicates);
    }
}

/// Appends `incoming` to `participants` by the registration rule.
pub fn register_participants(
    participants: &mut Vec<String>,
    incoming: Vec<String>,
    allow_duplicates: bool,
)
    ensures
        final(participants).deep_view() == append_participants(
            old(participants).deep_view(),
            incoming.deep_view(),
            allow_duplicates,
        ),
{
    let ghost goal = append_participants(
        old(participants).deep_view(),
        incoming.deep_view(),
        allow_duplicates,
    );
    let mut i: usize = 0;
    assert(incoming.deep_view().subrange(0, incoming.len() as int) =~= incoming.deep_view());
    while i < incoming.len()
        invariant
            i <= incoming.len(),
            append_participants(
                participants.deep_view(),
                incoming.deep_view().subrange(i as int, incoming.len() as int),
                allow_duplicates,
            ) == goal,
        decreases incoming.len() - i,
    {
        let ghost rest = incoming.deep_view().subrange(i as int, incoming.len() as int);
        assert(rest.drop_first() =~= incoming.deep_view().subrange(
            i + 1,
            incoming.len() as int,
        ));
        let ghost prev = participants.deep_view();
        assert(rest[0] == incoming[i as int]@);
        if allow_duplicates || !contains_account(participants, &incoming[i]) {
            participants.push(incoming[i].clone());
            assert(participants.deep_view() =~= prev.push(rest[0]));
        }
        i = i + 1;
    }
    assert(incoming.deep_view().subrange(i as int, incoming.len() as int) =~= Seq::<
        Seq<char>,
    >::empty());
}

} // verus!
