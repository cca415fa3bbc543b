//! The seeded draw: assigns rewards, in order, to distinct participants.
//!
//! A cursor walks the seed bytes; each byte picks the participant at
//! `byte % participants.len()`. Bytes that pick someone who already won are
//! skipped. The cursor wraps to the start after `wrap` bytes. When a full lap
//! of the seed window finds nobody new, the draw stops and the remaining
//! rewards are left without a winner.
use vstd::prelude::*;

verus! {

/// The participant that seed byte number `cursor` picks.
pub open spec fn candidate(parts: Seq<Seq<char>>, seed: Seq<u8>, cursor: nat) -> Seq<char> {
    parts[(seed[cursor as int] as nat % parts.len()) as int]
}

/// The cursor position after `cursor` in a window of `wrap` seed bytes.
pub open spec fn next_cursor(cursor: nat, wrap: nat) -> nat {
    if cursor + 1 >= wrap {
        0
    } else {
        cursor + 1
    }
}

/// Searches at most `tries` seed positions, starting at `cursor`, for a
/// participant not in `won`; yields the position where one was found.
pub open spec fn probe(
    parts: Seq<Seq<char>>,
    seed: Seq<u8>,
    wrap: nat,
    won: Seq<Seq<char>>,
    cursor: nat,
    tries: nat,
) -> Option<nat>
    decreases tries,
{
    if tries == 0 {
        None
    } else if !won.contains(candidate(parts, seed, cursor)) {
        Some(cursor)
    } else {
        probe(parts, seed, wrap, won, next_cursor(cursor, wrap), (tries - 1) as nat)
    }
}

/// Continues a draw of `rewards` rewards whose winners so far are `won`, with
/// the cursor at `cursor`. Winner `k` receives reward `k`.
pub open spec fn draw_from(
    parts: Seq<Seq<char>>,
    rewards: nat,
    seed: Seq<u8>,
    wrap: nat,
    cursor: nat,
    won: Seq<Seq<char>>,
) -> Seq<Seq<char>>
    decreases rewards - won.len(),
{
    if won.len() >= rewards {
        won
    } else {
        match probe(parts, seed, wrap, won, cursor, wrap) {
            None => won,
            Some(c) => draw_from(
                parts,
                rewards,
                seed,
                wrap,
                next_cursor(c, wrap),
                won.push(candidate(parts, seed, c)),
            ),
        }
    }
}

/// The winners of a draw of `rewards` rewards among `parts`, in reward order.
pub open spec fn draw(parts: Seq<Seq<char>>, rewards: nat, seed: Seq<u8>, wrap: nat) -> Seq<
    Seq<char>,
> {
    draw_from(parts, rewards, seed, wrap, 0, Seq::empty())
}

/// Some byte among the first `wrap` of the seed picks position `p` of `n`.
pub open spec fn picked_in_window(seed: Seq<u8>, wrap: nat, n: nat, p: nat) -> bool {
    exists|j: nat| j < wrap && #[trigger] (seed[j as int] as nat % n) == p
}

/// Every participant position is picked by some byte of the seed window.
pub open spec fn seed_covers(seed: Seq<u8>, wrap: nat, n: nat) -> bool {
    forall|p: nat| p < n ==> #[trigger] picked_in_window(seed, wrap, n, p)
}

/// Whether `s` occurs in `v`.
pub fn contains_account(v: &Vec<String>, s: &String) -> (r: bool)
    ensures
        r == v.deep_view().contains(s@),
{
    let mut i: usize = 0;
    while i < v.len()
        invariant
            i <= v.len(),
            forall|j: int| 0 <= j < i ==> v.deep_view()[j] != s@,
        decreases v.len() - i,
    {
        if v[i] == *s {
            assert(v.deep_view()[i as int] == s@);
            return true;
        }
        i = i + 1;
    }
    false
}

/// Runs the draw: the winners for `rewards` rewards, in reward order.
/// The result is a function of the participants, the reward count, the
/// seed and the window alone.
pub fn draw_winners(participants: &Vec<String>, rewards: usize, seed: &Vec<u8>, wrap: usize) -> (winners:
    Vec<String>)
    requires
        participants.len() > 0,
        0 < wrap <= seed.len(),
    ensures
        winners.deep_view() == draw(participants.deep_view(), rewards as nat, seed@, wrap as nat),
{
    let ghost parts = participants.deep_view();
    let mut winners: Vec<String> = Vec::new();
    let mut cursor: usize = 0;
    assert(winners.deep_view() =~= Seq::<Seq<char>>::empty());
    while winners.len() < rewards
        invariant
            parts == participants.deep_view(),
            participants.len() > 0,
            0 < wrap <= seed.len(),
            cursor < wrap,
            winners.len() <= rewards,
            draw_from(parts, rewards as nat, seed@, wrap as nat, cursor as nat, winners.deep_view())
                == draw(parts, rewards as nat, seed@, wrap as nat),
        decreases rewards - winners.len(),
    {
        let ghost won = winners.deep_view();
        let mut c: usize = cursor;
        let mut tries: usize = 0;
        let mut pick: usize = 0;
        let mut found = false;
        while tries < wrap
            invariant
                parts == participants.deep_view(),
                participants.len() > 0,
                0 < wrap <= seed.len(),
                won == winners.deep_view(),
                c < wrap,
                tries <= wrap,
                found ==> pick < participants.len() && parts[pick as int] == candidate(
                    parts,
                    seed@,
                    c as nat,
                ) && !won.contains(parts[pick as int]) && probe(
                    parts,
                    seed@,
                    wrap as nat,
                    won,
                    cursor as nat,
                    wrap as nat,
                ) == Some(c as nat),
                !found ==> probe(parts, seed@, wrap as nat, won, c as nat, (wrap - tries) as nat)
                    == probe(parts, seed@, wrap as nat, won, cursor as nat, wrap as nat),
            ensures
                c < wrap,
                found ==> pick < participants.len() && parts[pick as int] == candidate(
                    parts,
                    seed@,
                    c as nat,
                ) && !won.contains(parts[pick as int]) && probe(
                    parts,
                    seed@,
                    wrap as nat,
                    won,
                    cursor as nat,
                    wrap as nat,
                ) == Some(c as nat),
                !found ==> probe(parts, seed@, wrap as nat, won, cursor as nat, wrap as nat)
                    is None,
            decreases wrap - tries,
        {
            let idx: usize = (seed[c] as usize) % participants.len();
            if !contains_account(&winners, &participants[idx]) {
                pick = idx;
                found = true;
                break;
            }
            c = if c + 1 >= wrap {
                0
            } else {
                c + 1
            };
            tries = tries + 1;
        }
        if !found {
            assert(probe(parts, seed@, wrap as nat, won, cursor as nat, wrap as nat) is None);
            return winners;
        }
        winners.push(participants[pick].clone());
        assert(winners.deep_view() =~= won.push(candidate(parts, seed@, c as nat)));
        cursor = if c + 1 >= wrap {
            0
        } else {
            c + 1
        };
    }
    winners
}

/// Whether a probe of `tries` positions starting at `cursor` passes position
/// `j` of a window of `wrap` bytes.
pub open spec fn visits(cursor: nat, tries: nat, wrap: nat, j: nat) -> bool {
    if j >= cursor {
        j - cursor < tries
    } else {
        j + wrap - cursor < tries
    }
}

proof fn lemma_probe_found(
    parts: Seq<Seq<char>>,
    seed: Seq<u8>,
    wrap: nat,
    won: Seq<Seq<char>>,
    cursor: nat,
    tries: nat,
)
    requires
        cursor < wrap,
    ensures
        probe(parts, seed, wrap, won, cursor, tries) matches Some(c) ==> c < wrap
            && !won.contains(candidate(parts, seed, c)),
    decreases tries,
{
    if tries > 0 && won.contains(candidate(parts, seed, cursor)) {
        lemma_probe_found(parts, seed, wrap, won, next_cursor(cursor, wrap), (tries - 1) as nat);
    }
}

proof fn lemma_probe_none(
    parts: Seq<Seq<char>>,
    seed: Seq<u8>,
    wrap: nat,
    won: Seq<Seq<char>>,
    cursor: nat,
    tries: nat,
)
    requires
        cursor < wrap,
        tries <= wrap,
        probe(parts, seed, wrap, won, cursor, tries) is None,
    ensures
        forall|j: nat|
            j < wrap && #[trigger] visits(cursor, tries, wrap, j) ==> won.contains(
                candidate(parts, seed, j),
            ),
    decreases tries,
{
    if tries > 0 {
        let next = next_cursor(cursor, wrap);
        lemma_probe_none(parts, seed, wrap, won, next, (tries - 1) as nat);
        assert forall|j: nat| j < wrap && #[trigger] visits(cursor, tries, wrap, j) implies won.contains(
            candidate(parts, seed, j),
        ) by {
            if j != cursor {
                assert(visits(next, (tries - 1) as nat, wrap, j));
            }
        }
    }
}

proof fn lemma_draw_from(
    parts: Seq<Seq<char>>,
    rewards: nat,
    seed: Seq<u8>,
    wrap: nat,
    cursor: nat,
    won: Seq<Seq<char>>,
)
    requires
        parts.len() > 0,
        0 < wrap <= seed.len(),
        cursor < wrap,
        won.len() <= rewards,
        won.no_duplicates(),
        forall|w: Seq<char>| won.contains(w) ==> parts.contains(w),
    ensures
        ({
            let r = draw_from(parts, rewards, seed, wrap, cursor, won);
            &&& r.no_duplicates()
            &&& r.len() <= rewards
            &&& forall|w: Seq<char>| r.contains(w) ==> parts.contains(w)
            &&& r.len() < rewards ==> forall|j: nat|
                j < wrap ==> r.contains(#[trigger] candidate(parts, seed, j))
        }),
    decreases rewards - won.len(),
{
    if won.len() < rewards {
        lemma_probe_found(parts, seed, wrap, won, cursor, wrap);
        match probe(parts, seed, wrap, won, cursor, wrap) {
            None => {
                lemma_probe_none(parts, seed, wrap, won, cursor, wrap);
                assert forall|j: nat| j < wrap implies won.contains(
                    #[trigger] candidate(parts, seed, j),
                ) by {
                    assert(visits(cursor, wrap, wrap, j));
                }
            },
            Some(c) => {
                let w = candidate(parts, seed, c);
                let idx = (seed[c as int] as nat % parts.len()) as int;
                assert(parts[idx] == w);
                let won2 = won.push(w);
                assert forall|x: Seq<char>| won2.contains(x) implies parts.contains(x) by {
                    if x != w {
                        let k = choose|k: int| 0 <= k < won2.len() && won2[k] == x;
                        assert(won[k] == x);
                    }
                }
                assert(won2.no_duplicates()) by {
                    assert forall|a: int, b: int|
                        0 <= a < won2.len() && 0 <= b < won2.len() && a != b implies won2[a]
                        != won2[b] by {
                        if a < won.len() && b < won.len() {
                        } else if a < won.len() {
                            assert(won.contains(won[a]));
                        } else {
                            assert(won.contains(won[b]));
                        }
                    }
                }
                lemma_draw_from(parts, rewards, seed, wrap, next_cursor(c, wrap), won2);
            },
        }
    }
}

/// A draw never names a winner twice, never exceeds the reward count or the
/// participant count, and only names participants. When every participant
/// position is reachable from the seed window, a draw that leaves rewards
/// unassigned has already named every participant; with participants listed
/// once each, it then assigns exactly `min(rewards, participants)` rewards.
pub proof fn lemma_draw_distinct_winners(
    parts: Seq<Seq<char>>,
    rewards: nat,
    seed: Seq<u8>,
    wrap: nat,
)
    requires
        parts.len() > 0,
        0 < wrap <= seed.len(),
    ensures
        ({
            let r = draw(parts, rewards, seed, wrap);
            &&& r.no_duplicates()
            &&& r.len() <= rewards
            &&& r.len() <= parts.len()
            &&& forall|w: Seq<char>| r.contains(w) ==> parts.contains(w)
            &&& seed_covers(seed, wrap, parts.len()) && r.len() < rewards ==> forall|p: int|
                0 <= p < parts.len() ==> r.contains(#[trigger] parts[p])
            &&& seed_covers(seed, wrap, parts.len()) && parts.no_duplicates() ==> r.len() == if rewards
                < parts.len() {
                rewards
            } else {
                parts.len()
            }
        }),
{
    let r = draw(parts, rewards, seed, wrap);
    lemma_draw_from(parts, rewards, seed, wrap, 0, Seq::empty());
    r.unique_seq_to_set();
    parts.lemma_cardinality_of_set();
    assert(r.to_set().subset_of(parts.to_set()));
    vstd::set_lib::lemma_len_subset(r.to_set(), parts.to_set());
    if seed_covers(seed, wrap, parts.len()) && r.len() < rewards {
        assert forall|p: int| 0 <= p < parts.len() implies r.contains(#[trigger] parts[p]) by {
            assert(picked_in_window(seed, wrap, parts.len(), p as nat));
            let j = choose|j: nat| j < wrap && #[trigger] (seed[j as int] as nat % parts.len()) == p;
            assert(r.contains(candidate(parts, seed, j)));
        }
        if parts.no_duplicates() {
            parts.unique_seq_to_set();
            assert(parts.to_set().subset_of(r.to_set()));
            vstd::set_lib::lemma_len_subset(parts.to_set(), r.to_set());
        }
    }
}

/// The draw is a function of its inputs: the same participants, reward
/// count, seed and window always give the same winners in the same order.
pub proof fn lemma_draw_deterministic(
    parts1: Seq<Seq<char>>,
    parts2: Seq<Seq<char>>,
    rewards: nat,
    seed1: Seq<u8>,
    seed2: Seq<u8>,
    wrap: nat,
)
    requires
        parts1 == parts2,
        seed1 == seed2,
    ensures
        draw(parts1, rewards, seed1, wrap) == draw(parts2, rewards, seed2, wrap),
{
}

} // verus!
