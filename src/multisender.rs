//! What is handed to the outside bulk-transfer service, and what it reports.
use vstd::prelude::*;

verus! {

/// One transfer of a batch: `amount` of `token_id` (`None`: native) to
/// `account_id`.
#[derive(Clone, Debug)]
pub struct MultisenderPayout {
    pub account_id: String,
    pub token_id: Option<String>,
    pub amount: u128,
}

pub struct TransferView {
    pub account_id: Seq<char>,
    pub token_id: Option<Seq<char>>,
    pub amount: u128,
}

impl View for MultisenderPayout {
    type V = TransferView;

    open spec fn view(&self) -> TransferView {
        TransferView {
            account_id: self.account_id@,
            token_id: self.token_id.deep_view(),
            amount: self.amount,
        }
    }
}

/// A batch of payouts dispatched together. `payout_indices[k]` is the index,
/// in the event's payout list, of the payout that `accounts[k]` carries; the
/// event id and the indices correlate the later completion report with the
/// payouts it settles.
#[derive(Clone, Debug)]
pub struct TransferBatch {
    pub event_id: u64,
    pub payout_indices: Vec<u64>,
    pub accounts: Vec<MultisenderPayout>,
    /// Sum of the amounts of `accounts`.
    pub total: u128,
}

pub open spec fn transfers_view(v: Seq<MultisenderPayout>) -> Seq<TransferView> {
    v.map_values(|m: MultisenderPayout| m@)
}

/// Sum of the amounts of a list of transfers.
pub open spec fn transfers_total(v: Seq<TransferView>) -> int
    decreases v.len(),
{
    if v.len() == 0 {
        0
    } else {
        transfers_total(v.drop_last()) + v.last().amount
    }
}

} // verus!
