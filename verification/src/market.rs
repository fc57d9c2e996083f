//! The ledger: the operations that change the bids of a listing and say
//! which refunds are owed for it.

use crate::assoc::lemma_entry;
use crate::bid::{bid_view, Bid, BidView};
use crate::bids::{bounded, set_stack, stack_of, well_stacked, Bids, BidsView};
use crate::error::BidError;
use crate::sale::{ContractAndTokenId, Sale, SaleIdView, Sales, SalesView};
use crate::stack::{
    accepts, copy_stack, differs_from, expired, holds_bid, lemma_filter_increasing,
    lemma_with_bid_increasing, live_at, push_bid, remove_matching, split_expired, stack_view,
    unexpired, with_bid, without,
};
use crate::transfer::{
    all_refunds, is_native, refund_of, refunds_of, transfers_view, Transfer, TransferView,
    FT_TRANSFER_DEPOSIT, GAS_FOR_FT_TRANSFER,
};
use vstd::prelude::*;

verus! {

/// What a [`Market`] holds, as plain mathematical values.
pub struct MarketView {
    pub bid_history_length: u64,
    pub sales: SalesView,
}

impl MarketView {
    /// The bids on listing `id` in currency `ft_token_id`; none if there is
    /// no such listing or it has no stack in that currency.
    pub open spec fn stack(self, id: SaleIdView, ft_token_id: Seq<char>) -> Seq<BidView> {
        if self.sales.dom().contains(id) {
            stack_of(self.sales[id], ft_token_id)
        } else {
            Seq::empty()
        }
    }

    /// Listing `id` is known and has bids in currency `ft_token_id`.
    pub open spec fn has_stack(self, id: SaleIdView, ft_token_id: Seq<char>) -> bool {
        self.sales.dom().contains(id) && self.sales[id].dom().contains(ft_token_id)
    }

    /// Why taking `bid` off listing `id` in currency `ft_token_id` is
    /// refused, if it is: there is no such stack, or the bid is not in it.
    pub open spec fn removal_refusal(
        self,
        id: SaleIdView,
        ft_token_id: Seq<char>,
        bid: BidView,
    ) -> Option<BidError> {
        if !self.has_stack(id, ft_token_id) {
            Some(BidError::NoSuchListingOrCurrency)
        } else if !self.sales[id][ft_token_id].contains(bid) {
            Some(BidError::BidNotFound)
        } else {
            None
        }
    }

    /// Why `caller_id` may not withdraw `bid`, if so: it is not the bid's
    /// owner, or the removal itself is refused.
    pub open spec fn withdrawal_refusal(
        self,
        id: SaleIdView,
        ft_token_id: Seq<char>,
        bid: BidView,
        caller_id: Seq<char>,
    ) -> Option<BidError> {
        if caller_id != bid.owner_id {
            Some(BidError::NotBidOwner)
        } else {
            self.removal_refusal(id, ft_token_id, bid)
        }
    }

    /// Why `bid` cannot be cancelled as expired at time `now`, if so: its
    /// window has not ended, or the removal itself is refused.
    pub open spec fn cancellation_refusal(
        self,
        id: SaleIdView,
        ft_token_id: Seq<char>,
        bid: BidView,
        now: u64,
    ) -> Option<BidError> {
        if !bid.is_finished(now) {
            Some(BidError::NotYetExpired)
        } else {
            self.removal_refusal(id, ft_token_id, bid)
        }
    }

    /// In every listing every stack holds at least one bid, and its prices
    /// strictly increase.
    pub open spec fn well_stacked(self) -> bool {
        forall|id: SaleIdView| #[trigger]
            self.sales.dom().contains(id) ==> well_stacked(self.sales[id])
    }

    /// No stack of any listing holds more bids than the history length.
    pub open spec fn within_history(self) -> bool {
        forall|id: SaleIdView| #[trigger]
            self.sales.dom().contains(id) ==> bounded(self.sales[id], self.bid_history_length)
    }

    /// The market with `bids` as the stacks of listing `id`.
    pub open spec fn with_sale(self, id: SaleIdView, bids: BidsView) -> MarketView {
        MarketView { sales: self.sales.insert(id, bids), ..self }
    }

    /// The market with `stack` as the bids on listing `id` in currency
    /// `ft_token_id`.
    pub open spec fn with_stack(
        self,
        id: SaleIdView,
        ft_token_id: Seq<char>,
        stack: Seq<BidView>,
    ) -> MarketView {
        self.with_sale(id, set_stack(self.sales[id], ft_token_id, stack))
    }
}

/// The market's ledger: how much bid history a stack keeps, and the
/// listings with their bids.
#[derive(Debug)]
pub struct Market {
    pub bid_history_length: u64,
    pub sales: Sales,
}

impl View for Market {
    type V = MarketView;

    open spec fn view(&self) -> MarketView {
        MarketView { bid_history_length: self.bid_history_length, sales: self.sales@ }
    }
}

impl Market {
    /// The table of listings is well-formed.
    pub open spec fn wf(&self) -> bool {
        self.sales.wf()
    }

    /// A market without listings whose stacks keep `bid_history_length`
    /// bids.
    pub fn new(bid_history_length: u64) -> (res: Market)
        ensures
            res.wf(),
            res@.bid_history_length == bid_history_length,
            res@.sales == SalesView::empty(),
    {
        Market { bid_history_length, sales: Sales::new() }
    }

    /// Whether the table of listings is well-formed.
    pub fn is_wf(&self) -> (res: bool)
        ensures
            res == self.wf(),
    {
        self.sales.is_wf()
    }

    /// In a well-formed market every stack of every listing holds at least
    /// one bid, and its prices strictly increase.
    pub proof fn lemma_wf_view(&self)
        requires
            self.wf(),
        ensures
            self@.well_stacked(),
    {
        let s = self.sales.entries();
        assert forall|id: SaleIdView| #[trigger]
            self@.sales.dom().contains(id) implies well_stacked(self@.sales[id]) by {
            let i = choose|i: int| 0 <= i < s.len() && (#[trigger] s[i]).0 == id;
            lemma_entry(s, i);
            self.sales.records@[i].sale.bids.lemma_wf_view();
        }
    }

    /// Takes a bid of `amount` by `buyer_id` on `sale` in currency
    /// `ft_token_id`, valid from `start` to `end` as far as these are set,
    /// and stores `sale` under `contract_and_token_id`.
    ///
    /// The bid is taken if the currency has no bids yet or `amount` is
    /// strictly above its top bid; the displaced top bid is then owed its
    /// refund, which is handed back. The stack keeps its most recent
    /// `bid_history_length` bids: the oldest one is dropped without a
    /// refund, having been refunded when it was displaced. A bid that is not
    /// taken is refused with `InvalidBid`, and nothing changes.
    ///
    /// The ledger does not collect the amount: the caller has.
    pub fn add_bid(
        &mut self,
        contract_and_token_id: ContractAndTokenId,
        amount: u128,
        ft_token_id: String,
        buyer_id: String,
        sale: &mut Sale,
        start: Option<u64>,
        end: Option<u64>,
    ) -> (res: Result<Option<Transfer>, BidError>)
        requires
            old(self).wf(),
            old(sale).wf(),
        ensures
            final(self).wf(),
            final(sale).wf(),
            !accepts(stack_of(old(sale)@, ft_token_id@), amount) ==> {
                &&& res == Err::<Option<Transfer>, BidError>(BidError::InvalidBid)
                &&& *final(self) == *old(self)
                &&& *final(sale) == *old(sale)
            },
            accepts(stack_of(old(sale)@, ft_token_id@), amount) ==> {
                &&& final(sale)@ == set_stack(
                    old(sale)@,
                    ft_token_id@,
                    with_bid(
                        stack_of(old(sale)@, ft_token_id@),
                        bid_view(buyer_id@, amount, start, end),
                        old(self).bid_history_length,
                    ),
                )
                &&& final(self)@ == old(self)@.with_sale(contract_and_token_id@, final(sale)@)
                &&& match res {
                    Ok(Some(refund)) => stack_of(old(sale)@, ft_token_id@).len() > 0 && refund@
                        == refund_of(ft_token_id@, stack_of(old(sale)@, ft_token_id@).last()),
                    Ok(None) => stack_of(old(sale)@, ft_token_id@).len() == 0,
                    Err(_) => false,
                }
            },
    {
        let new_bid = Bid { owner_id: buyer_id, price: amount, start, end };
        proof {
            sale.bids.lemma_wf_view();
        }
        let mut stack = match sale.bids.get(&ft_token_id) {
            Some(bids) => copy_stack(bids),
            None => Vec::new(),
        };
        let ghost before = stack_view(stack@);
        assert(before =~= stack_of(old(sale)@, ft_token_id@));
        let mut refund: Option<Transfer> = None;
        if stack.len() > 0 {
            let current_bid = &stack[stack.len() - 1];
            assert(current_bid@ == before.last());
            if amount <= current_bid.price {
                return Err(BidError::InvalidBid);
            }
            refund = Some(self.refund_bid(ft_token_id.clone(), current_bid));
        }
        push_bid(&mut stack, new_bid, self.bid_history_length);
        proof {
            lemma_with_bid_increasing(before, new_bid@, self.bid_history_length);
        }
        sale.bids.put(ft_token_id, stack);
        self.sales.insert(contract_and_token_id, sale.clone());
        Ok(refund)
    }

    /// Takes `bid` off the stack of listing (`nft_contract_id`, `token_id`)
    /// in currency `ft_token_id`. The other bids keep their order; a stack
    /// left empty takes its currency out of the listing.
    pub fn internal_remove_bid(
        &mut self,
        nft_contract_id: String,
        ft_token_id: &String,
        token_id: String,
        bid: &Bid,
    ) -> (res: Result<(), BidError>)
        requires
            old(self).wf(),
        ensures
            final(self).wf(),
            match old(self)@.removal_refusal((nft_contract_id@, token_id@), ft_token_id@, bid@) {
                Some(refusal) => res == Err::<(), BidError>(refusal) && *final(self) == *old(self),
                None => res.is_ok() && final(self)@ == old(self)@.with_stack(
                    (nft_contract_id@, token_id@),
                    ft_token_id@,
                    without(old(self)@.stack((nft_contract_id@, token_id@), ft_token_id@), bid@),
                ),
            },
    {
        let id = ContractAndTokenId { nft_contract_id, token_id };
        let i = match self.sales.position(&id) {
            Some(i) => i,
            None => {
                return Err(BidError::NoSuchListingOrCurrency);
            },
        };
        proof {
            lemma_entry(self.sales.entries(), i as int);
            self.sales.records@[i as int].sale.bids.lemma_wf_view();
        }
        let stack = match self.sales.records[i].sale.bids.get(ft_token_id) {
            Some(stack) => stack,
            None => {
                return Err(BidError::NoSuchListingOrCurrency);
            },
        };
        if !holds_bid(stack, bid) {
            return Err(BidError::BidNotFound);
        }
        let rest = remove_matching(stack, bid);
        proof {
            lemma_filter_increasing(stack_view(stack@), differs_from(bid@));
        }
        self.sales.put_stack(i, ft_token_id.clone(), rest);
        Ok(())
    }

    /// Withdraws `bid` from listing (`nft_contract_id`, `token_id`) in
    /// currency `ft_token_id` on behalf of `caller_id`, and hands back the
    /// refund that the bid is owed.
    ///
    /// Only the bid's owner may withdraw it, and may do so wherever the bid
    /// stands in its stack. A refusal leaves the ledger unchanged.
    pub fn remove_bid(
        &mut self,
        nft_contract_id: String,
        token_id: String,
        ft_token_id: String,
        bid: Bid,
        caller_id: &String,
    ) -> (res: Result<Transfer, BidError>)
        requires
            old(self).wf(),
        ensures
            final(self).wf(),
            caller_id@ != bid@.owner_id ==> res == Err::<Transfer, BidError>(BidError::NotBidOwner),
            res.is_ok() ==> caller_id@ == bid@.owner_id,
            res.is_err() ==> *final(self) == *old(self),
            match old(self)@.withdrawal_refusal(
                (nft_contract_id@, token_id@),
                ft_token_id@,
                bid@,
                caller_id@,
            ) {
                Some(refusal) => res == Err::<Transfer, BidError>(refusal) && *final(self) == *old(
                    self,
                ),
                None => {
                    &&& res matches Ok(refund)
                    &&& refund@ == refund_of(ft_token_id@, bid@)
                    &&& final(self)@ == old(self)@.with_stack(
                        (nft_contract_id@, token_id@),
                        ft_token_id@,
                        without(
                            old(self)@.stack((nft_contract_id@, token_id@), ft_token_id@),
                            bid@,
                        ),
                    )
                },
            },
    {
        if *caller_id != bid.owner_id {
            return Err(BidError::NotBidOwner);
        }
        match self.internal_remove_bid(nft_contract_id, &ft_token_id, token_id, &bid) {
            Ok(()) => Ok(self.refund_bid(ft_token_id, &bid)),
            Err(refusal) => Err(refusal),
        }
    }

    /// Cancels `bid` on listing (`nft_contract_id`, `token_id`) in currency
    /// `ft_token_id` because its window has ended at time `now`, and hands
    /// back the refund that the bid is owed.
    ///
    /// Anyone may ask for this. A bid without an end can never be cancelled
    /// this way. A refusal leaves the ledger unchanged.
    pub fn cancel_bid(
        &mut self,
        nft_contract_id: String,
        token_id: String,
        ft_token_id: String,
        bid: Bid,
        now: u64,
    ) -> (res: Result<Transfer, BidError>)
        requires
            old(self).wf(),
        ensures
            final(self).wf(),
            !bid@.is_finished(now) ==> res == Err::<Transfer, BidError>(BidError::NotYetExpired),
            res.is_ok() ==> bid@.is_finished(now),
            res.is_err() ==> *final(self) == *old(self),
            match old(self)@.cancellation_refusal(
                (nft_contract_id@, token_id@),
                ft_token_id@,
                bid@,
                now,
            ) {
                Some(refusal) => res == Err::<Transfer, BidError>(refusal) && *final(self) == *old(
                    self,
                ),
                None => {
                    &&& res matches Ok(refund)
                    &&& refund@ == refund_of(ft_token_id@, bid@)
                    &&& final(self)@ == old(self)@.with_stack(
                        (nft_contract_id@, token_id@),
                        ft_token_id@,
                        without(
                            old(self)@.stack((nft_contract_id@, token_id@), ft_token_id@),
                            bid@,
                        ),
                    )
                },
            },
    {
        if !bid.is_finished(now) {
            return Err(BidError::NotYetExpired);
        }
        match self.internal_remove_bid(nft_contract_id, &ft_token_id, token_id, &bid) {
            Ok(()) => Ok(self.refund_bid(ft_token_id, &bid)),
            Err(refusal) => Err(refusal),
        }
    }

    /// Cancels every bid on listing (`nft_contract_id`, `token_id`) in
    /// currency `ft_token_id` whose window has ended at time `now`, and
    /// hands back their refunds, oldest bid first.
    ///
    /// The other bids stay as they are, in their order. If none is left the
    /// currency is taken out of the listing. The listing is stored once,
    /// after the whole sweep.
    pub fn cancel_expired_bids(
        &mut self,
        nft_contract_id: String,
        token_id: String,
        ft_token_id: String,
        now: u64,
    ) -> (res: Result<Vec<Transfer>, BidError>)
        requires
            old(self).wf(),
        ensures
            final(self).wf(),
            !old(self)@.has_stack((nft_contract_id@, token_id@), ft_token_id@) ==> {
                &&& res matches Err(refusal)
                &&& refusal == BidError::NoSuchListingOrCurrency
                &&& *final(self) == *old(self)
            },
            old(self)@.has_stack((nft_contract_id@, token_id@), ft_token_id@) ==> {
                &&& res matches Ok(refunds)
                &&& transfers_view(refunds@) == refunds_of(
                    ft_token_id@,
                    expired(old(self)@.stack((nft_contract_id@, token_id@), ft_token_id@), now),
                )
                &&& final(self)@ == old(self)@.with_stack(
                    (nft_contract_id@, token_id@),
                    ft_token_id@,
                    unexpired(old(self)@.stack((nft_contract_id@, token_id@), ft_token_id@), now),
                )
            },
    {
        let id = ContractAndTokenId { nft_contract_id, token_id };
        let i = match self.sales.position(&id) {
            Some(i) => i,
            None => {
                return Err(BidError::NoSuchListingOrCurrency);
            },
        };
        proof {
            lemma_entry(self.sales.entries(), i as int);
            self.sales.records@[i as int].sale.bids.lemma_wf_view();
        }
        let stack = match self.sales.records[i].sale.bids.get(&ft_token_id) {
            Some(stack) => stack,
            None => {
                return Err(BidError::NoSuchListingOrCurrency);
            },
        };
        let (kept, gone) = split_expired(stack, now);
        proof {
            lemma_filter_increasing(stack_view(stack@), live_at(now));
        }
        let refunds = self.refund_stack(&ft_token_id, &gone);
        self.sales.put_stack(i, ft_token_id, kept);
        Ok(refunds)
    }

    /// The refunds of all bids in `bids_map`, which is then emptied: stack
    /// after stack, and within a stack oldest bid first. With no bids there
    /// is nothing to refund and nothing to empty.
    pub fn refund_all_bids(&self, bids_map: &mut Bids) -> (res: Vec<Transfer>)
        ensures
            transfers_view(res@) == all_refunds(old(bids_map).entries()),
            final(bids_map).wf(),
            final(bids_map).entries().len() == 0,
            final(bids_map)@ == BidsView::empty(),
    {
        let ghost entries = bids_map.entries();
        let ghost per_stack = entries.map_values(
            |e: (Seq<char>, Seq<BidView>)| refunds_of(e.0, e.1),
        );
        let mut all: Vec<Transfer> = Vec::new();
        let mut i: usize = 0;
        assert(per_stack.take(0) =~= Seq::<Seq<TransferView>>::empty());
        assert(transfers_view(all@) =~= per_stack.take(0).flatten());
        while i < bids_map.stacks.len()
            invariant
                i <= bids_map.stacks.len(),
                bids_map.entries() == entries,
                per_stack == entries.map_values(
                    |e: (Seq<char>, Seq<BidView>)| refunds_of(e.0, e.1),
                ),
                transfers_view(all@) == per_stack.take(i as int).flatten(),
            decreases bids_map.stacks.len() - i,
        {
            let ghost before = all@;
            let mut refunds = self.refund_stack(
                &bids_map.stacks[i].ft_token_id,
                &bids_map.stacks[i].bids,
            );
            let ghost added = refunds@;
            all.append(&mut refunds);
            proof {
                assert(per_stack[i as int] == transfers_view(added));
                assert(transfers_view(all@) =~= transfers_view(before) + transfers_view(added));
                assert(per_stack.take(i + 1) =~= per_stack.take(i as int).push(
                    per_stack[i as int],
                ));
                per_stack.take(i as int).lemma_flatten_push(per_stack[i as int]);
            }
            i += 1;
        }
        assert(per_stack.take(i as int) =~= per_stack);
        *bids_map = Bids::new();
        all
    }

    /// The refunds of the bids in `bids`, all made in currency `bid_ft`, in
    /// their order.
    pub fn refund_stack(&self, bid_ft: &String, bids: &Vec<Bid>) -> (res: Vec<Transfer>)
        ensures
            transfers_view(res@) == refunds_of(bid_ft@, stack_view(bids@)),
    {
        let mut refunds: Vec<Transfer> = Vec::new();
        let mut i: usize = 0;
        while i < bids.len()
            invariant
                i <= bids.len(),
                refunds@.len() == i,
                forall|j: int|
                    0 <= j < i ==> (#[trigger] refunds@[j])@ == refund_of(bid_ft@, bids@[j]@),
            decreases bids.len() - i,
        {
            refunds.push(self.refund_bid(bid_ft.clone(), &bids[i]));
            i += 1;
        }
        assert(transfers_view(refunds@) =~= refunds_of(bid_ft@, stack_view(bids@)));
        refunds
    }

    /// The refund that `bid`, made in currency `bid_ft`, is owed: its price
    /// to its owner, as a plain transfer of the native asset or as a
    /// transfer by the currency's token contract, called with the fixed
    /// deposit and gas.
    pub fn refund_bid(&self, bid_ft: String, bid: &Bid) -> (res: Transfer)
        ensures
            res@ == refund_of(bid_ft@, bid@),
    {
        if is_native(&bid_ft) {
            Transfer::Native { receiver_id: bid.owner_id.clone(), amount: bid.price }
        } else {
            Transfer::Fungible {
                ft_token_id: bid_ft,
                receiver_id: bid.owner_id.clone(),
                amount: bid.price,
                deposit: FT_TRANSFER_DEPOSIT,
                gas: GAS_FOR_FT_TRANSFER,
            }
        }
    }
}

} // verus!
