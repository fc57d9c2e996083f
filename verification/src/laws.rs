//! What holds of the ledger whatever is asked of it.

use crate::bid::BidView;
use crate::bids::{bounded, set_stack, stack_of, well_stacked, BidsView};
use crate::error::BidError;
use crate::market::MarketView;
use crate::sale::SaleIdView;
use crate::stack::{
    accepts, differs_from, ended_at, expired, lemma_filter_increasing, lemma_with_bid_increasing,
    live_at, strictly_increasing, unexpired, with_bid, without,
};
use vstd::prelude::*;

verus! {

/// The stack that `start` becomes when `offers` are made one after the
/// other: an offer that is accepted goes on top, one that is not leaves the
/// stack as it is.
pub open spec fn after_offers(
    start: Seq<BidView>,
    offers: Seq<BidView>,
    bid_history_length: u64,
) -> Seq<BidView>
    decreases offers.len(),
{
    if offers.len() == 0 {
        start
    } else {
        let so_far = after_offers(start, offers.drop_last(), bid_history_length);
        if accepts(so_far, offers.last().price) {
            with_bid(so_far, offers.last(), bid_history_length)
        } else {
            so_far
        }
    }
}

/// Whatever offers are made in whatever order, the prices of a stack stay
/// strictly increasing.
pub proof fn lemma_offers_keep_prices_increasing(
    start: Seq<BidView>,
    offers: Seq<BidView>,
    bid_history_length: u64,
)
    requires
        strictly_increasing(start),
    ensures
        strictly_increasing(after_offers(start, offers, bid_history_length)),
    decreases offers.len(),
{
    if offers.len() > 0 {
        let so_far = after_offers(start, offers.drop_last(), bid_history_length);
        lemma_offers_keep_prices_increasing(start, offers.drop_last(), bid_history_length);
        if accepts(so_far, offers.last().price) {
            lemma_with_bid_increasing(so_far, offers.last(), bid_history_length);
        }
    }
}

/// A stack that is within the history length stays within it when a bid is
/// added. A stack that was full has then exactly that length, having lost
/// its oldest bid and no other; a stack that was not full has lost none.
pub proof fn lemma_history_is_bounded(s: Seq<BidView>, bid: BidView, bid_history_length: u64)
    requires
        s.len() <= bid_history_length,
    ensures
        with_bid(s, bid, bid_history_length).len() <= bid_history_length,
        s.len() < bid_history_length ==> with_bid(s, bid, bid_history_length) == s.push(bid),
        s.len() == bid_history_length ==> {
            &&& with_bid(s, bid, bid_history_length).len() == bid_history_length
            &&& with_bid(s, bid, bid_history_length) == s.push(bid).drop_first()
        },
{
}

/// Taking a bid leaves a listing's stacks well-stacked and, if they were
/// within the history length, within it.
pub proof fn lemma_add_bid_keeps_stacks(
    bids: BidsView,
    ft_token_id: Seq<char>,
    bid: BidView,
    bid_history_length: u64,
)
    requires
        well_stacked(bids),
        accepts(stack_of(bids, ft_token_id), bid.price),
    ensures
        well_stacked(
            set_stack(
                bids,
                ft_token_id,
                with_bid(stack_of(bids, ft_token_id), bid, bid_history_length),
            ),
        ),
        bounded(bids, bid_history_length) ==> bounded(
            set_stack(
                bids,
                ft_token_id,
                with_bid(stack_of(bids, ft_token_id), bid, bid_history_length),
            ),
            bid_history_length,
        ),
{
    let s = stack_of(bids, ft_token_id);
    assert(strictly_increasing(s)) by {
        if bids.dom().contains(ft_token_id) {
        }
    }
    lemma_with_bid_increasing(s, bid, bid_history_length);
    if bounded(bids, bid_history_length) {
        assert(s.len() <= bid_history_length) by {
            if bids.dom().contains(ft_token_id) {
            }
        }
        lemma_history_is_bounded(s, bid, bid_history_length);
    }
}

/// Taking bids out of a stack, by whatever rule, leaves a listing's stacks
/// well-stacked and, if they were within the history length, within it.
pub proof fn lemma_removal_keeps_stacks(
    bids: BidsView,
    ft_token_id: Seq<char>,
    keep: spec_fn(BidView) -> bool,
    bid_history_length: u64,
)
    requires
        well_stacked(bids),
    ensures
        well_stacked(set_stack(bids, ft_token_id, stack_of(bids, ft_token_id).filter(keep))),
        bounded(bids, bid_history_length) ==> bounded(
            set_stack(bids, ft_token_id, stack_of(bids, ft_token_id).filter(keep)),
            bid_history_length,
        ),
{
    let s = stack_of(bids, ft_token_id);
    assert(strictly_increasing(s)) by {
        if bids.dom().contains(ft_token_id) {
        }
    }
    lemma_filter_increasing(s, keep);
    s.lemma_filter_len(keep);
    if bounded(bids, bid_history_length) {
        assert(s.len() <= bid_history_length) by {
            if bids.dom().contains(ft_token_id) {
            }
        }
    }
}

/// A market in which every stack is well-stacked stays so when a bid is
/// taken on a well-stacked listing and the listing is stored; and if all
/// stacks, the listing's too, were within the history length, they stay
/// within it.
pub proof fn lemma_add_bid_keeps_market(
    market: MarketView,
    id: SaleIdView,
    bids: BidsView,
    ft_token_id: Seq<char>,
    bid: BidView,
)
    requires
        market.well_stacked(),
        well_stacked(bids),
        accepts(stack_of(bids, ft_token_id), bid.price),
    ensures
        market.with_sale(
            id,
            set_stack(
                bids,
                ft_token_id,
                with_bid(stack_of(bids, ft_token_id), bid, market.bid_history_length),
            ),
        ).well_stacked(),
        market.within_history() && bounded(bids, market.bid_history_length) ==> market.with_sale(
            id,
            set_stack(
                bids,
                ft_token_id,
                with_bid(stack_of(bids, ft_token_id), bid, market.bid_history_length),
            ),
        ).within_history(),
{
    lemma_add_bid_keeps_stacks(bids, ft_token_id, bid, market.bid_history_length);
}

/// A market in which every stack is well-stacked stays so when bids are
/// taken out of one of its stacks, by whatever rule; and if all stacks were
/// within the history length, they stay within it.
pub proof fn lemma_removal_keeps_market(
    market: MarketView,
    id: SaleIdView,
    ft_token_id: Seq<char>,
    keep: spec_fn(BidView) -> bool,
)
    requires
        market.well_stacked(),
        market.sales.dom().contains(id),
    ensures
        market.with_stack(
            id,
            ft_token_id,
            market.stack(id, ft_token_id).filter(keep),
        ).well_stacked(),
        market.within_history() ==> market.with_stack(
            id,
            ft_token_id,
            market.stack(id, ft_token_id).filter(keep),
        ).within_history(),
{
    lemma_removal_keeps_stacks(market.sales[id], ft_token_id, keep, market.bid_history_length);
}

/// A sweep at time `now` parts a stack in two: every bid is either
/// cancelled or kept, never both and never neither. The cancelled ones are
/// exactly those whose window has ended, the kept ones exactly the others.
pub proof fn lemma_sweep_parts_the_stack(s: Seq<BidView>, now: u64)
    ensures
        expired(s, now).len() + unexpired(s, now).len() == s.len(),
        forall|b: BidView| #[trigger]
            expired(s, now).contains(b) <==> s.contains(b) && b.is_finished(now),
        forall|b: BidView| #[trigger]
            unexpired(s, now).contains(b) <==> s.contains(b) && !b.is_finished(now),
    decreases s.len(),
{
    lemma_filter_members(s, ended_at(now));
    lemma_filter_members(s, live_at(now));
    lemma_filter_lengths(s, now);
}

/// A withdrawn or cancelled bid is gone from its stack, and only it.
pub proof fn lemma_removal_takes_only_the_bid(s: Seq<BidView>, bid: BidView)
    ensures
        !without(s, bid).contains(bid),
        forall|b: BidView| b != bid ==> (#[trigger] without(s, bid).contains(b) <==> s.contains(b)),
        strictly_increasing(s) && s.contains(bid) ==> without(s, bid).len() == s.len() - 1,
{
    lemma_filter_members(s, differs_from(bid));
    if strictly_increasing(s) && s.contains(bid) {
        lemma_one_less(s, bid);
    }
}

/// The owner of a bid that is still in its stack is never refused its
/// withdrawal, wherever in the stack the bid stands.
pub proof fn lemma_owner_may_always_withdraw(
    market: MarketView,
    id: SaleIdView,
    ft_token_id: Seq<char>,
    bid: BidView,
)
    requires
        market.stack(id, ft_token_id).contains(bid),
    ensures
        market.withdrawal_refusal(id, ft_token_id, bid, bid.owner_id) is None,
{
}

/// A bid whose window has ended and that is still in its stack can be
/// cancelled by anyone; one whose window has not ended, by no one.
pub proof fn lemma_cancellation_goes_by_time(
    market: MarketView,
    id: SaleIdView,
    ft_token_id: Seq<char>,
    bid: BidView,
    now: u64,
)
    requires
        market.stack(id, ft_token_id).contains(bid),
    ensures
        market.cancellation_refusal(id, ft_token_id, bid, now) is None <==> bid.is_finished(now),
        !bid.is_finished(now) ==> market.cancellation_refusal(id, ft_token_id, bid, now) == Some(
            BidError::NotYetExpired,
        ),
{
}

/// What is in a filtered sequence: the elements of the sequence that the
/// filter lets through.
proof fn lemma_filter_members(s: Seq<BidView>, pred: spec_fn(BidView) -> bool)
    ensures
        forall|b: BidView| #[trigger] s.filter(pred).contains(b) <==> s.contains(b) && pred(b),
{
    assert forall|b: BidView| #[trigger] s.filter(pred).contains(b) <==> s.contains(b) && pred(
        b,
    ) by {
        if s.filter(pred).contains(b) {
            s.lemma_filter_contains_rev(pred, b);
            let i = choose|i: int| 0 <= i < s.filter(pred).len() && s.filter(pred)[i] == b;
            s.lemma_filter_pred(pred, i);
        }
        if s.contains(b) && pred(b) {
            let i = choose|i: int| 0 <= i < s.len() && s[i] == b;
            s.lemma_filter_contains(pred, i);
        }
    }
}

/// The ended and the live bids of a stack are as many as the stack has.
proof fn lemma_filter_lengths(s: Seq<BidView>, now: u64)
    ensures
        expired(s, now).len() + unexpired(s, now).len() == s.len(),
    decreases s.len(),
{
    reveal(Seq::filter);
    if s.len() > 0 {
        lemma_filter_lengths(s.drop_last(), now);
    }
}

/// In a stack with strictly increasing prices a bid occurs once, so taking
/// it out makes the stack one shorter.
proof fn lemma_one_less(s: Seq<BidView>, bid: BidView)
    requires
        strictly_increasing(s),
        s.contains(bid),
    ensures
        without(s, bid).len() == s.len() - 1,
    decreases s.len(),
{
    reveal(Seq::filter);
    let differs = differs_from(bid);
    let front = s.drop_last();
    assert forall|i: int, j: int| 0 <= i < j < front.len() implies front[i].price
        < front[j].price by {
        assert(front[i] == s[i] && front[j] == s[j]);
    }
    if s.last() == bid {
        assert forall|i: int| 0 <= i < front.len() implies differs(#[trigger] front[i]) by {
            assert(s[i].price < s[s.len() - 1].price);
        }
        lemma_filter_all(front, differs);
    } else {
        let i = choose|i: int| 0 <= i < s.len() && s[i] == bid;
        assert(front[i] == bid);
        lemma_one_less(front, bid);
    }
}

/// A filter that lets every element through changes nothing.
proof fn lemma_filter_all(s: Seq<BidView>, pred: spec_fn(BidView) -> bool)
    requires
        forall|i: int| 0 <= i < s.len() ==> pred(#[trigger] s[i]),
    ensures
        s.filter(pred) == s,
    decreases s.len(),
{
    reveal(Seq::filter);
    if s.len() > 0 {
        let front = s.drop_last();
        assert forall|i: int| 0 <= i < front.len() implies pred(#[trigger] front[i]) by {
            assert(front[i] == s[i]);
        }
        lemma_filter_all(front, pred);
        assert(front.push(s.last()) =~= s);
    }
}

} // verus!
