//! Reward giveaways: an organizer deposits funds and registers participants,
//! a seeded draw picks distinct winners, and the payouts are delivered in
//! resumable batches through an outside bulk-transfer service.
use vstd::prelude::*;

pub mod draw;
pub mod event;
pub mod fee;
pub mod giveaway;
pub mod lifecycle;
pub mod multisender;
pub mod payout;

verus! {

/// Upper bound (exclusive) on the number of rewards of one event; also the
/// largest number of seed bytes the draw walks through before wrapping.
pub const MAX_GIVEAWAY_WINNERS: usize = 128;

/// Smallest deposit accepted when an event is created.
pub const MIN_DEPOSIT_AMOUNT: u128 = 10_000_000_000_000_000_000_000;

/// Exclusive cap on the byte length of an event description.
pub const MAX_DESCRIPTION_LENGTH: usize = 280;

/// Exclusive cap on the byte length of an event title.
pub const MAX_TITLE_LENGTH: usize = 128;

} // verus!
