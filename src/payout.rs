//! Payouts: one reward assigned to one winner, with its delivery status.
use vstd::prelude::*;

verus! {

/// Delivery state of a payout. `Complete` is reached only after the transfer
/// service confirmed the batch that carried the payout, and is never left.
#[derive(Clone, Copy, Debug, PartialEq, Eq, Structural)]
pub enum PayoutStatus {
    Pending,
    Complete,
}

/// One reward paid to one winner.
#[derive(Clone, Debug)]
pub struct Payout {
    pub account_id: String,
    pub amount: u128,
    /// Currency of the reward; `None` for the native currency.
    pub token_id: Option<String>,
    pub status: PayoutStatus,
    /// Set while the payout travels in a dispatched batch whose outcome has
    /// not been reported yet.
    pub in_flight: bool,
}

pub struct PayoutView {
    pub account_id: Seq<char>,
    pub amount: u128,
    pub token_id: Option<Seq<char>>,
    pub status: PayoutStatus,
    pub in_flight: bool,
}

impl View for Payout {
    type V = PayoutView;

    open spec fn view(&self) -> PayoutView {
        PayoutView {
            account_id: self.account_id@,
            amount: self.amount,
            token_id: self.token_id.deep_view(),
            status: self.status,
            in_flight: self.in_flight,
        }
    }
}

pub open spec fn payouts_view(ps: Seq<Payout>) -> Seq<PayoutView> {
    ps.map_values(|p: Payout| p@)
}

pub fn copy_token(t: &Option<String>) -> (r: Option<String>)
    ensures
        r.deep_view() == t.deep_view(),
{
    match t {
        Some(s) => Some(s.clone()),
        None => None,
    }
}

impl Payout {
    /// A copy of this payout.
    pub fn duplicate(&self) -> (r: Payout)
        ensures
            r@ == self@,
    {
        Payout {
            account_id: self.account_id.clone(),
            amount: self.amount,
            token_id: copy_token(&self.token_id),
            status: self.status,
            in_flight: self.in_flight,
        }
    }
}

/// Copies a list of payouts.
pub fn copy_payouts(ps: &Vec<Payout>) -> (r: Vec<Payout>)
    ensures
        payouts_view(r@) == payouts_view(ps@),
{
    let mut r: Vec<Payout> = Vec::new();
    let mut i: usize = 0;
    while i < ps.len()
        invariant
            i <= ps.len(),
            payouts_view(r@) =~= payouts_view(ps@).subrange(0, i as int),
        decreases ps.len() - i,
    {
        let ghost prev = r@;
        let d = ps[i].duplicate();
        r.push(d);
        assert(payouts_view(r@) =~= payouts_view(prev).push(ps@[i as int]@));
        i = i + 1;
    }
    assert(payouts_view(ps@).subrange(0, ps.len() as int) =~= payouts_view(ps@));
    r
}

/// Versioned envelope in which payouts are stored.
pub enum VPayout {
    Current(Payout),
}

impl From<VPayout> for Payout {
    fn from(v: VPayout) -> (r: Payout) {
        match v {
            VPayout::Current(p) => p,
        }
    }
}

impl vstd::std_specs::convert::FromSpecImpl<VPayout> for Payout {
    open spec fn obeys_from_spec() -> bool {
        true
    }

    open spec fn from_spec(v: VPayout) -> Payout {
        match v {
            VPayout::Current(p) => p,
        }
    }
}

} // verus!
