//! Why a ledger operation was refused.

use vstd::prelude::*;

verus! {

/// A refusal. Every refusal is decided before anything is changed: the
/// ledger is left exactly as it was and no transfer is owed.
#[derive(Clone, Copy, Debug, PartialEq, Eq, Structural)]
pub enum BidError {
    /// The offered amount is not strictly greater than the current top bid.
    InvalidBid,
    /// A withdrawal was asked for by someone other than the bid's owner.
    NotBidOwner,
    /// The bid is not in the stack (any more).
    BidNotFound,
    /// The bid has no end, or its end has not been reached yet.
    NotYetExpired,
    /// There is no such listing, or it has no bids in that currency.
    NoSuchListingOrCurrency,
}

impl BidError {
    /// The message that goes with the refusal.
    pub fn message(&self) -> (res: &'static str)
        ensures
            res@ == self.message_text(),
    {
        match self {
            BidError::InvalidBid => "Can't pay less than or equal to current bid price",
            BidError::NotBidOwner => "Must be bid owner",
            BidError::BidNotFound => "Bid not found",
            BidError::NotYetExpired => "The bid hasn't ended yet",
            BidError::NoSuchListingOrCurrency => "No sale or no bids for this token",
        }
    }

    /// The text of [`BidError::message`].
    pub open spec fn message_text(self) -> Seq<char> {
        match self {
            BidError::InvalidBid => "Can't pay less than or equal to current bid price"@,
            BidError::NotBidOwner => "Must be bid owner"@,
            BidError::BidNotFound => "Bid not found"@,
            BidError::NotYetExpired => "The bid hasn't ended yet"@,
            BidError::NoSuchListingOrCurrency => "No sale or no bids for this token"@,
        }
    }
}

} // verus!
