use giveaway::draw::draw_winners;
use giveaway::event::{EventInput, EventStatus};
use giveaway::fee::{get_service_fee, MAX_SERVICE_FEE};
use giveaway::giveaway::{sum_rewards, EventCreated, Giveaway, GiveawayError};
use giveaway::payout::PayoutStatus;
use giveaway::{MAX_GIVEAWAY_WINNERS, MIN_DEPOSIT_AMOUNT};

const OWNER: &str = "owner.near";
const ORGANIZER: &str = "alice.near";

fn s(x: &str) -> String {
    x.to_string()
}

fn accounts(xs: &[&str]) -> Vec<String> {
    xs.iter().map(|x| x.to_string()).collect()
}

fn seed(prefix: &[u8]) -> Vec<u8> {
    let mut v = prefix.to_vec();
    v.resize(MAX_GIVEAWAY_WINNERS, 0);
    v
}

fn input(rewards: Vec<u128>, participants: Vec<String>) -> EventInput {
    EventInput {
        rewards,
        rewards_token_id: None,
        participants,
        allow_duplicate_participants: false,
        add_participants_start_timestamp: 0,
        add_participants_end_timestamp: 100,
        event_timestamp: 200,
        title: s("Spring giveaway"),
        description: s("Three prizes for early supporters"),
    }
}

fn contract() -> Giveaway {
    Giveaway::new(s(OWNER), None)
}

/// Creates an event and runs its draw at time 300.
fn drawn(participants: &[&str], rewards: Vec<u128>, seed_bytes: &[u8]) -> (Giveaway, u64) {
    let mut g = contract();
    let created = g
        .add_event(input(rewards, accounts(participants)), s(ORGANIZER), 10, MIN_DEPOSIT_AMOUNT)
        .unwrap();
    g.finalize_event(created.event_id, 300, &seed(seed_bytes)).unwrap();
    (g, created.event_id)
}

fn winners(g: &Giveaway, id: u64) -> Vec<(String, u128)> {
    g.get_payouts(id, None, None).into_iter().map(|p| (p.account_id, p.amount)).collect()
}

#[test]
fn service_fee_is_one_percent_truncated() {
    assert_eq!(get_service_fee(&0), 0);
    assert_eq!(get_service_fee(&99), 0);
    assert_eq!(get_service_fee(&12_345), 123);
    assert_eq!(get_service_fee(&1_000_000_000_000_000_000_000_000), 10_000_000_000_000_000_000_000);
}

#[test]
fn service_fee_is_capped() {
    assert_eq!(get_service_fee(&1_000_000_000_000_000_000_000_000_000), MAX_SERVICE_FEE);
    assert_eq!(get_service_fee(&2_000_000_000_000_000_000_000_000_000), MAX_SERVICE_FEE);
    assert_eq!(get_service_fee(&u128::MAX), MAX_SERVICE_FEE);
}

#[test]
fn creation_charges_rewards_plus_fee_and_refunds_the_rest() {
    let mut g = contract();
    let rewards: Vec<u128> = vec![30_000_000_000_000_000_000_000, 20_000_000_000_000_000_000_000];
    let total: u128 = 50_000_000_000_000_000_000_000;
    let fee = get_service_fee(&total);
    assert_eq!(fee, 500_000_000_000_000_000_000);
    let deposit: u128 = 60_000_000_000_000_000_000_000;
    let r = g.add_event(input(rewards, accounts(&["a", "b"])), s(ORGANIZER), 10, deposit);
    assert_eq!(r, Ok(EventCreated { event_id: 0, refund: deposit - total - fee }));
    assert_eq!(g.get_total_service_fee(None), Some(fee));
    assert_eq!(g.get_next_event_id(), 1);
    let e = g.get_event(0).unwrap();
    assert_eq!(e.status, EventStatus::Pending);
    assert_eq!(e.owner_account_id, ORGANIZER);
    assert_eq!(e.finalized_timestamp, None);
}

#[test]
fn fees_accumulate_per_currency() {
    let mut g = contract();
    g.whitelist_token(&s(OWNER), s("usdc.near")).unwrap();
    let big: u128 = 10_000_000_000_000_000_000_000;
    g.add_event(input(vec![big], accounts(&["a"])), s(ORGANIZER), 10, 2 * big).unwrap();
    g.add_event(input(vec![big], accounts(&["a"])), s(ORGANIZER), 10, 2 * big).unwrap();
    let mut usdc = input(vec![big], accounts(&["a"]));
    usdc.rewards_token_id = Some(s("usdc.near"));
    g.add_event(usdc, s(ORGANIZER), 10, 2 * big).unwrap();
    assert_eq!(g.get_total_service_fee(None), Some(2 * (big / 100)));
    assert_eq!(g.get_total_service_fee(Some(s("usdc.near"))), Some(big / 100));
    assert_eq!(g.get_total_service_fee(Some(s("dai.near"))), None);
}

#[test]
fn creation_rejects_short_payment() {
    let mut g = contract();
    let total: u128 = 10_000_000_000_000_000_000_000;
    let r = g.add_event(input(vec![total], accounts(&["a"])), s(ORGANIZER), 10, total);
    assert_eq!(r, Err(GiveawayError::InsufficientPayment));
    assert_eq!(g.get_next_event_id(), 0);
    assert_eq!(g.get_total_service_fee(None), None);
    let r = g.add_event(input(vec![u128::MAX, 1], accounts(&["a"])), s(ORGANIZER), 10, u128::MAX);
    assert_eq!(r, Err(GiveawayError::InsufficientPayment));
    let exact = total + get_service_fee(&total);
    let r = g.add_event(input(vec![total], accounts(&["a"])), s(ORGANIZER), 10, exact);
    assert_eq!(r, Ok(EventCreated { event_id: 0, refund: 0 }));
}

#[test]
fn creation_checks_in_order() {
    let mut g = contract();
    let d = MIN_DEPOSIT_AMOUNT;
    let rewards = || vec![5u128];
    let mut token = input(rewards(), accounts(&["a"]));
    token.rewards_token_id = Some(s("usdc.near"));
    assert_eq!(g.add_event(token, s(ORGANIZER), 10, d), Err(GiveawayError::TokenNotAllowed));
    let many: Vec<u128> = vec![1; MAX_GIVEAWAY_WINNERS];
    assert_eq!(
        g.add_event(input(many, accounts(&["a"])), s(ORGANIZER), 10, d),
        Err(GiveawayError::TooManyRewards)
    );
    assert_eq!(
        g.add_event(input(vec![], accounts(&["a"])), s(ORGANIZER), 10, d),
        Err(GiveawayError::MissingRewards)
    );
    assert_eq!(
        g.add_event(input(rewards(), accounts(&["a"])), s(ORGANIZER), 10, d - 1),
        Err(GiveawayError::NotEnoughDeposit)
    );
    let mut long = input(rewards(), accounts(&["a"]));
    long.description = "x".repeat(280);
    assert_eq!(g.add_event(long, s(ORGANIZER), 10, d), Err(GiveawayError::DescriptionTooLong));
    let mut long = input(rewards(), accounts(&["a"]));
    long.title = "é".repeat(64);
    assert_eq!(g.add_event(long, s(ORGANIZER), 10, d), Err(GiveawayError::TitleTooLong));
    assert_eq!(
        g.add_event(input(rewards(), vec![]), s(ORGANIZER), 100, d),
        Err(GiveawayError::ParticipantsUnreachable)
    );
    let mut window = input(rewards(), accounts(&["a"]));
    window.add_participants_start_timestamp = 101;
    assert_eq!(
        g.add_event(window, s(ORGANIZER), 10, d),
        Err(GiveawayError::InvalidParticipantsWindow)
    );
    g.set_active(false);
    assert_eq!(
        g.add_event(input(rewards(), accounts(&["a"])), s(ORGANIZER), 10, d),
        Err(GiveawayError::ContractDisabled)
    );
    assert_eq!(g.get_next_event_id(), 0);
}

#[test]
fn title_just_under_cap_is_accepted() {
    let mut g = contract();
    let mut ok = input(vec![5], accounts(&["a"]));
    ok.title = "x".repeat(127);
    ok.description = "y".repeat(279);
    assert!(g.add_event(ok, s(ORGANIZER), 10, MIN_DEPOSIT_AMOUNT).is_ok());
}

#[test]
fn creation_without_participants_while_window_open() {
    let mut g = contract();
    let r = g.add_event(input(vec![5], vec![]), s(ORGANIZER), 99, MIN_DEPOSIT_AMOUNT);
    assert!(r.is_ok());
    assert_eq!(g.get_event(0).unwrap().participants.len(), 0);
    assert_eq!(g.finalize_event(0, 300, &seed(&[0])), Err(GiveawayError::ParticipantsMissing));
}

#[test]
fn creation_drops_repeated_participants_unless_allowed() {
    let mut g = contract();
    g.add_event(input(vec![5], accounts(&["a", "b", "a"])), s(ORGANIZER), 10, MIN_DEPOSIT_AMOUNT)
        .unwrap();
    let mut dup = input(vec![5], accounts(&["a", "b", "a"]));
    dup.allow_duplicate_participants = true;
    g.add_event(dup, s(ORGANIZER), 10, MIN_DEPOSIT_AMOUNT).unwrap();
    assert_eq!(g.get_event(0).unwrap().participants, accounts(&["a", "b"]));
    assert_eq!(g.get_event(1).unwrap().participants, accounts(&["a", "b", "a"]));
}

#[test]
fn registration_appends_in_order_and_skips_known_accounts() {
    let mut g = contract();
    g.add_event(input(vec![5], accounts(&["a"])), s(ORGANIZER), 10, MIN_DEPOSIT_AMOUNT).unwrap();
    let r = g.insert_participants(0, accounts(&["b", "a", "c", "b"]), &s(ORGANIZER), 50);
    assert_eq!(r, Ok(()));
    assert_eq!(g.get_event(0).unwrap().participants, accounts(&["a", "b", "c"]));
}

#[test]
fn registration_refusals() {
    let mut g = contract();
    let mut late_start = input(vec![5], accounts(&["a"]));
    late_start.add_participants_start_timestamp = 20;
    late_start.event_timestamp = 80;
    g.add_event(late_start, s(ORGANIZER), 10, MIN_DEPOSIT_AMOUNT).unwrap();
    let more = || accounts(&["b"]);
    assert_eq!(g.insert_participants(1, more(), &s(ORGANIZER), 50), Err(GiveawayError::NoEvent));
    assert_eq!(
        g.insert_participants(0, more(), &s(ORGANIZER), 19),
        Err(GiveawayError::TooEarlyToAddParticipants)
    );
    assert_eq!(
        g.insert_participants(0, more(), &s(ORGANIZER), 100),
        Err(GiveawayError::TooLateToAddParticipants)
    );
    assert_eq!(
        g.insert_participants(0, more(), &s(ORGANIZER), 80),
        Err(GiveawayError::EventDatePassed)
    );
    assert_eq!(g.insert_participants(0, more(), &s("mallory.near"), 50), Err(GiveawayError::NoAccess));
    g.finalize_event(0, 80, &seed(&[0])).unwrap();
    assert_eq!(
        g.insert_participants(0, more(), &s(ORGANIZER), 50),
        Err(GiveawayError::AlreadyFinalized)
    );
    assert_eq!(g.get_event(0).unwrap().participants, accounts(&["a"]));
}

#[test]
fn draw_example_three_participants_two_rewards() {
    let (g, id) = drawn(&["A", "B", "C"], vec![5, 3], &[2, 0]);
    assert_eq!(winners(&g, id), vec![(s("C"), 5), (s("A"), 3)]);
}

#[test]
fn draw_skips_a_repeated_winner() {
    let (g, id) = drawn(&["A", "B", "C"], vec![5, 3], &[2, 5, 4]);
    assert_eq!(winners(&g, id), vec![(s("C"), 5), (s("B"), 3)]);
}

#[test]
fn draw_stops_when_participants_run_out() {
    let (g, id) = drawn(&["A"], vec![5, 3], &[7, 9]);
    assert_eq!(winners(&g, id), vec![(s("A"), 5)]);
    assert_eq!(g.get_event(id).unwrap().status, EventStatus::Calculated);
}

#[test]
fn draw_every_participant_wins_once_when_rewards_exceed_them() {
    let (g, id) = drawn(&["A", "B", "C"], vec![9, 8, 7, 6, 5], &[0, 1, 2]);
    assert_eq!(winners(&g, id), vec![(s("A"), 9), (s("B"), 8), (s("C"), 7)]);
}

#[test]
fn draw_wraps_around_the_seed_window() {
    let parts = accounts(&["A", "B", "C"]);
    let w = draw_winners(&parts, 3, &vec![1, 0, 0, 2], 3);
    assert_eq!(w, accounts(&["B", "A"]));
    let w = draw_winners(&parts, 3, &vec![1, 0, 2, 0], 3);
    assert_eq!(w, accounts(&["B", "A", "C"]));
    let w = draw_winners(&parts, 2, &vec![0, 0, 0, 1], 4);
    assert_eq!(w, accounts(&["A", "B"]));
}

#[test]
fn draw_is_deterministic() {
    let bytes: Vec<u8> = (0..MAX_GIVEAWAY_WINNERS as u32).map(|i| (i * 37 % 251) as u8).collect();
    let parts = ["ann", "ben", "cal", "dee", "eve", "fay", "gus"];
    let (g1, id1) = drawn(&parts, vec![10, 9, 8, 7], &bytes);
    let (g2, id2) = drawn(&parts, vec![10, 9, 8, 7], &bytes);
    assert_eq!(winners(&g1, id1), winners(&g2, id2));
    let w = winners(&g1, id1);
    assert_eq!(w.len(), 4);
    for i in 0..w.len() {
        for j in i + 1..w.len() {
            assert_ne!(w[i].0, w[j].0);
        }
    }
}

#[test]
fn draw_with_short_seed_uses_the_whole_seed() {
    let mut g = contract();
    g.add_event(input(vec![5, 3], accounts(&["A", "B"])), s(ORGANIZER), 10, MIN_DEPOSIT_AMOUNT)
        .unwrap();
    g.finalize_event(0, 300, &vec![1, 1, 0]).unwrap();
    assert_eq!(winners(&g, 0), vec![(s("B"), 5), (s("A"), 3)]);
}

#[test]
fn finalize_refusals() {
    let mut g = contract();
    g.add_event(input(vec![5], accounts(&["a"])), s(ORGANIZER), 10, MIN_DEPOSIT_AMOUNT).unwrap();
    assert_eq!(g.finalize_event(1, 300, &seed(&[0])), Err(GiveawayError::NoEvent));
    assert_eq!(g.finalize_event(0, 199, &seed(&[0])), Err(GiveawayError::TooEarlyToFinalize));
    assert_eq!(g.finalize_event(0, 300, &vec![]), Err(GiveawayError::RandomSeedMissing));
    assert_eq!(g.finalize_event(0, 200, &seed(&[0])), Ok(()));
    assert_eq!(g.get_event(0).unwrap().finalized_timestamp, Some(200));
    assert_eq!(g.finalize_event(0, 300, &seed(&[0])), Err(GiveawayError::AlreadyFinalized));
}

#[test]
fn distribution_retries_after_failure_then_closes() {
    let (mut g, id) = drawn(&["A", "B", "C"], vec![5, 3], &[2, 0]);
    let first = g.distribute_payouts(id, None, None).unwrap();
    assert_eq!(first.payout_indices, vec![0, 1]);
    assert_eq!(first.total, 8);
    assert_eq!(first.accounts[0].account_id, "C");
    assert_eq!(first.accounts[1].amount, 3);
    assert_eq!(g.close_event(id), Err(GiveawayError::PayoutsPending));
    assert!(!g.after_multisend_attached_tokens(id, &first.payout_indices, false));
    assert!(g.get_payouts(id, None, None).iter().all(|p| p.status == PayoutStatus::Pending));
    let second = g.distribute_payouts(id, None, None).unwrap();
    assert_eq!(second.payout_indices, first.payout_indices);
    assert_eq!(second.total, 8);
    assert!(g.after_multisend_attached_tokens(id, &second.payout_indices, true));
    assert!(g.get_payouts(id, None, None).iter().all(|p| p.status == PayoutStatus::Complete));
    assert_eq!(g.close_event(id), Ok(()));
    assert_eq!(g.get_event(id).unwrap().status, EventStatus::Distributed);
    assert_eq!(g.close_event(id), Err(GiveawayError::CloseUnavailable));
    assert_eq!(g.distribute_payouts(id, None, None).err(), Some(GiveawayError::DistributionUnavailable));
}

#[test]
fn payouts_in_flight_are_not_dispatched_twice() {
    let (mut g, id) = drawn(&["A", "B", "C"], vec![5, 3, 1], &[0, 1, 2]);
    let first = g.distribute_payouts(id, Some(0), Some(2)).unwrap();
    assert_eq!(first.payout_indices, vec![0, 1]);
    let overlap = g.distribute_payouts(id, Some(1), Some(5)).unwrap();
    assert_eq!(overlap.payout_indices, vec![2]);
    assert_eq!(overlap.total, 1);
    let again = g.distribute_payouts(id, None, None).unwrap();
    assert!(again.payout_indices.is_empty());
    assert_eq!(again.total, 0);
    g.after_multisend_attached_tokens(id, &first.payout_indices, true);
    g.after_multisend_attached_tokens(id, &overlap.payout_indices, true);
    assert_eq!(g.close_event(id), Ok(()));
}

#[test]
fn repeated_success_report_is_harmless() {
    let (mut g, id) = drawn(&["A", "B"], vec![5, 3], &[0, 1]);
    let batch = g.distribute_payouts(id, None, None).unwrap();
    g.after_multisend_attached_tokens(id, &batch.payout_indices, true);
    g.after_multisend_attached_tokens(id, &batch.payout_indices, true);
    g.after_multisend_attached_tokens(id, &batch.payout_indices, false);
    assert!(g.get_payouts(id, None, None).iter().all(|p| p.status == PayoutStatus::Complete && !p.in_flight));
    assert!(g.distribute_payouts(id, None, None).unwrap().payout_indices.is_empty());
    assert_eq!(g.close_event(id), Ok(()));
}

#[test]
fn report_ignores_unknown_indices_and_events() {
    let (mut g, id) = drawn(&["A", "B"], vec![5, 3], &[0, 1]);
    g.distribute_payouts(id, None, None).unwrap();
    assert!(g.after_multisend_attached_tokens(id, &vec![1, 7], true));
    assert!(g.after_multisend_attached_tokens(9, &vec![0], true));
    let ps = g.get_payouts(id, None, None);
    assert_eq!(ps[0].status, PayoutStatus::Pending);
    assert!(ps[0].in_flight);
    assert_eq!(ps[1].status, PayoutStatus::Complete);
}

#[test]
fn close_needs_a_drawn_event() {
    let mut g = contract();
    g.add_event(input(vec![5], accounts(&["a"])), s(ORGANIZER), 10, MIN_DEPOSIT_AMOUNT).unwrap();
    assert_eq!(g.close_event(0), Err(GiveawayError::CloseUnavailable));
    assert_eq!(g.close_event(3), Err(GiveawayError::NoEvent));
    assert_eq!(g.distribute_payouts(0, None, None).err(), Some(GiveawayError::DistributionUnavailable));
}

#[test]
fn status_moves_forward_only() {
    let (mut g, id) = drawn(&["A"], vec![5], &[0]);
    assert_eq!(g.get_event(id).unwrap().status, EventStatus::Calculated);
    assert_eq!(g.finalize_event(id, 400, &seed(&[0])), Err(GiveawayError::AlreadyFinalized));
    let b = g.distribute_payouts(id, None, None).unwrap();
    g.after_multisend_attached_tokens(id, &b.payout_indices, true);
    g.close_event(id).unwrap();
    assert_eq!(g.get_event(id).unwrap().status, EventStatus::Distributed);
    g.after_multisend_attached_tokens(id, &b.payout_indices, false);
    assert_eq!(g.get_event(id).unwrap().status, EventStatus::Distributed);
    assert_eq!(g.get_payouts(id, None, None)[0].status, PayoutStatus::Complete);
}

#[test]
fn disabled_contract_refuses_operations() {
    let (mut g, id) = drawn(&["A"], vec![5], &[0]);
    g.set_active(false);
    assert_eq!(g.assert_active(), Err(GiveawayError::ContractDisabled));
    assert_eq!(g.distribute_payouts(id, None, None).err(), Some(GiveawayError::ContractDisabled));
    assert_eq!(g.close_event(id), Err(GiveawayError::ContractDisabled));
    g.set_active(true);
    assert_eq!(g.assert_active(), Ok(()));
}

#[test]
fn payout_pages_are_clipped() {
    let (g, id) = drawn(&["A", "B", "C"], vec![5, 3, 1], &[0, 1, 2]);
    let amounts = |from: Option<u64>, limit: Option<u64>| -> Vec<u128> {
        g.get_payouts(id, from, limit).iter().map(|p| p.amount).collect()
    };
    assert_eq!(amounts(None, None), vec![5, 3, 1]);
    assert_eq!(amounts(Some(1), None), vec![3, 1]);
    assert_eq!(amounts(Some(1), Some(1)), vec![3]);
    assert_eq!(amounts(Some(2), Some(u64::MAX)), vec![1]);
    assert_eq!(amounts(Some(5), Some(2)), Vec::<u128>::new());
    assert!(g.get_payouts(7, None, None).is_empty());
    assert!(g.internal_get_payouts(7).is_empty());
}

#[test]
fn event_listings() {
    let mut g = contract();
    for _ in 0..3 {
        g.add_event(input(vec![5], accounts(&["a"])), s(ORGANIZER), 10, MIN_DEPOSIT_AMOUNT).unwrap();
    }
    g.finalize_event(1, 300, &seed(&[0])).unwrap();
    let all = g.get_events(1, 10);
    assert_eq!(all.len(), 2);
    assert_eq!(all[&1].as_ref().unwrap().status, EventStatus::Calculated);
    assert!(all.contains_key(&2));
    let ready = g.get_events_to_finalize(0, 3, 250);
    let mut ids: Vec<u64> = ready.keys().copied().collect();
    ids.sort();
    assert_eq!(ids, vec![0, 2]);
    assert!(g.get_events_to_finalize(0, 3, 150).is_empty());
    assert!(g.get_events(u64::MAX, u64::MAX).is_empty());
    assert!(g.get_event(3).is_none());
    assert_eq!(g.internal_get_event(3).err(), Some(GiveawayError::NoEvent));
}

#[test]
fn whitelist_is_owner_only() {
    let mut g = Giveaway::new(s(OWNER), Some(s("sender.near")));
    assert_eq!(g.get_multisender_contract(), "sender.near");
    assert_eq!(g.whitelist_token(&s(ORGANIZER), s("usdc.near")), Err(GiveawayError::NoAccess));
    assert!(!g.is_whitelisted_token(&s("usdc.near")));
    assert_eq!(g.assert_contract_owner(&s(OWNER)), Ok(()));
    g.whitelist_token(&s(OWNER), s("usdc.near")).unwrap();
    g.whitelist_token(&s(OWNER), s("usdc.near")).unwrap();
    assert!(g.is_whitelisted_token(&s("usdc.near")));
    assert_eq!(g.assert_whitelisted_token(&Some(s("usdc.near"))), Ok(()));
    assert_eq!(g.assert_whitelisted_token(&Some(s("dai.near"))), Err(GiveawayError::TokenNotAllowed));
    assert_eq!(g.assert_whitelisted_token(&None), Ok(()));
    assert_eq!(Giveaway::new(s(OWNER), None).get_multisender_contract(), "multisender.app.near");
}

#[test]
fn event_owner_check() {
    let mut g = contract();
    g.add_event(input(vec![5], accounts(&["a"])), s(ORGANIZER), 10, MIN_DEPOSIT_AMOUNT).unwrap();
    let e = g.internal_get_event(0).unwrap();
    assert_eq!(g.assert_event_owner(e, &s(ORGANIZER)), Ok(()));
    assert_eq!(g.assert_event_owner(e, &s(OWNER)), Err(GiveawayError::NoAccess));
}

#[test]
fn reward_sum_detects_overflow() {
    assert_eq!(sum_rewards(&vec![1, 2, 3]), Some(6));
    assert_eq!(sum_rewards(&vec![]), Some(0));
    assert_eq!(sum_rewards(&vec![u128::MAX, 1]), None);
}
