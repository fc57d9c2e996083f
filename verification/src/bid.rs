//! A single offer on a listing.

use vstd::prelude::*;

verus! {

/// What a [`Bid`] holds, as plain mathematical values.
pub struct BidView {
    pub owner_id: Seq<char>,
    pub price: u128,
    pub start: Option<u64>,
    pub end: Option<u64>,
}

impl BidView {
    /// The bid is inside its validity window at time `now`: strictly after
    /// `start` and strictly before `end`, as far as either is set.
    pub open spec fn in_limits(self, now: u64) -> bool {
        &&& (self.start matches Some(start) ==> start < now)
        &&& (self.end matches Some(end) ==> now < end)
    }

    /// The bid has an end and that end has been reached at time `now`.
    pub open spec fn is_finished(self, now: u64) -> bool {
        self.end matches Some(end) && now >= end
    }
}

/// The plain values of a bid made by `owner_id` for `price`.
pub open spec fn bid_view(
    owner_id: Seq<char>,
    price: u128,
    start: Option<u64>,
    end: Option<u64>,
) -> BidView {
    BidView { owner_id, price, start, end }
}

/// One offer: who made it, for how much, and the optional window in which
/// it is valid. A bid is never changed once made; it is only ever removed
/// as a whole.
#[derive(Debug, PartialEq, Eq)]
pub struct Bid {
    pub owner_id: String,
    pub price: u128,
    pub start: Option<u64>,
    pub end: Option<u64>,
}

impl View for Bid {
    type V = BidView;

    open spec fn view(&self) -> BidView {
        BidView { owner_id: self.owner_id@, price: self.price, start: self.start, end: self.end }
    }
}

impl Clone for Bid {
    fn clone(&self) -> (res: Self)
        ensures
            res == *self,
    {
        Bid { owner_id: self.owner_id.clone(), price: self.price, start: self.start, end: self.end }
    }
}

impl Bid {
    /// Whether `now` lies inside the bid's validity window.
    pub fn in_limits(&self, now: u64) -> (res: bool)
        ensures
            res == self@.in_limits(now),
    {
        let mut res = true;
        if let Some(start) = self.start {
            res = res && start < now;
        }
        if let Some(end) = self.end {
            res = res && now < end;
        }
        res
    }

    /// Whether the bid's window has ended at `now`. A bid without an end
    /// never finishes.
    pub fn is_finished(&self, now: u64) -> (res: bool)
        ensures
            res == self@.is_finished(now),
    {
        match self.end {
            Some(end) => now >= end,
            None => false,
        }
    }

    /// Whether two bids hold the same values in every field.
    pub fn same_as(&self, other: &Bid) -> (res: bool)
        ensures
            res == (self@ == other@),
    {
        self.owner_id == other.owner_id && self.price == other.price && self.start == other.start
            && self.end == other.end
    }
}

} // verus!
