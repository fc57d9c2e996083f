//! The bids of one listing in one currency: oldest first, highest last.

use crate::bid::{Bid, BidView};
use vstd::prelude::*;

verus! {

/// The bids of a stack as plain values, in the stack's order.
pub open spec fn stack_view(bids: Seq<Bid>) -> Seq<BidView> {
    bids.map_values(|b: Bid| b@)
}

/// Every bid is priced strictly above all bids before it.
pub open spec fn strictly_increasing(s: Seq<BidView>) -> bool {
    forall|i: int, j: int| 0 <= i < j < s.len() ==> s[i].price < s[j].price
}

/// A new offer of `amount` is taken: the stack is empty, or the offer is
/// strictly above the top bid.
pub open spec fn accepts(s: Seq<BidView>, amount: u128) -> bool {
    s.len() == 0 || amount > s.last().price
}

/// The stack after `bid` was put on top with room for `bid_history_length`
/// bids: if the stack has grown beyond that, its oldest bid is dropped.
pub open spec fn with_bid(s: Seq<BidView>, bid: BidView, bid_history_length: u64) -> Seq<BidView> {
    let t = s.push(bid);
    if t.len() > bid_history_length {
        t.drop_first()
    } else {
        t
    }
}

/// The test that a bid's window has ended at `now`.
pub open spec fn ended_at(now: u64) -> spec_fn(BidView) -> bool {
    |b: BidView| b.is_finished(now)
}

/// The test that a bid's window has not ended at `now`.
pub open spec fn live_at(now: u64) -> spec_fn(BidView) -> bool {
    |b: BidView| !b.is_finished(now)
}

/// The test that a bid is another one than `bid`.
pub open spec fn differs_from(bid: BidView) -> spec_fn(BidView) -> bool {
    |b: BidView| b != bid
}

/// The bids whose window has ended at `now`, in the stack's order.
pub open spec fn expired(s: Seq<BidView>, now: u64) -> Seq<BidView> {
    s.filter(ended_at(now))
}

/// The bids whose window has not ended at `now`, in the stack's order.
pub open spec fn unexpired(s: Seq<BidView>, now: u64) -> Seq<BidView> {
    s.filter(live_at(now))
}

/// The stack without the bids equal to `bid`, the others in their order.
pub open spec fn without(s: Seq<BidView>, bid: BidView) -> Seq<BidView> {
    s.filter(differs_from(bid))
}

/// Puts `bid` on top of `stack` and drops the oldest bid if the stack has
/// then more than `bid_history_length` bids.
pub fn push_bid(stack: &mut Vec<Bid>, bid: Bid, bid_history_length: u64)
    ensures
        stack_view(final(stack)@) == with_bid(stack_view(old(stack)@), bid@, bid_history_length),
{
    stack.push(bid);
    assert(stack_view(stack@) =~= stack_view(old(stack)@).push(bid@));
    if stack.len() as u64 > bid_history_length {
        let ghost before = stack@;
        stack.remove(0);
        assert(stack_view(stack@) =~= stack_view(before).drop_first());
    }
}

/// Whether the prices of `stack` strictly increase from each bid to the
/// next.
pub fn is_strictly_increasing(stack: &Vec<Bid>) -> (res: bool)
    ensures
        res == strictly_increasing(stack_view(stack@)),
{
    if stack.len() < 2 {
        return true;
    }
    let mut i: usize = 1;
    while i < stack.len()
        invariant
            1 <= i <= stack.len(),
            forall|a: int, b: int| 0 <= a < b < i ==> stack@[a].price < stack@[b].price,
        decreases stack.len() - i,
    {
        if stack[i - 1].price >= stack[i].price {
            assert(stack_view(stack@)[i - 1].price >= stack_view(stack@)[i as int].price);
            return false;
        }
        assert forall|a: int, b: int| 0 <= a < b < i + 1 implies stack@[a].price
            < stack@[b].price by {
            if b == i && a < i - 1 {
                assert(stack@[a].price < stack@[i - 1].price);
            }
        }
        i += 1;
    }
    true
}

/// Whether a bid equal to `bid` is in `stack`.
pub fn holds_bid(stack: &Vec<Bid>, bid: &Bid) -> (res: bool)
    ensures
        res == stack_view(stack@).contains(bid@),
{
    let mut i: usize = 0;
    while i < stack.len()
        invariant
            i <= stack.len(),
            forall|j: int| 0 <= j < i ==> stack_view(stack@)[j] != bid@,
        decreases stack.len() - i,
    {
        if stack[i].same_as(bid) {
            assert(stack_view(stack@)[i as int] == bid@);
            return true;
        }
        i += 1;
    }
    false
}

/// Copies of the bids of `stack` that differ from `bid`, in their order.
pub fn remove_matching(stack: &Vec<Bid>, bid: &Bid) -> (res: Vec<Bid>)
    ensures
        stack_view(res@) == without(stack_view(stack@), bid@),
{
    let ghost differs = differs_from(bid@);
    let mut rest: Vec<Bid> = Vec::new();
    let mut i: usize = 0;
    assert(stack@.take(0) =~= Seq::<Bid>::empty());
    assert(stack_view(stack@.take(0)).filter(differs) =~= Seq::<BidView>::empty()) by {
        reveal(Seq::filter);
    }
    while i < stack.len()
        invariant
            i <= stack.len(),
            differs == differs_from(bid@),
            stack_view(rest@) == stack_view(stack@.take(i as int)).filter(differs),
        decreases stack.len() - i,
    {
        proof {
            lemma_view_take_next(stack@, i as int);
            stack_view(stack@.take(i as int)).lemma_filter_push(stack@[i as int]@, differs);
        }
        if !stack[i].same_as(bid) {
            let ghost before = rest@;
            rest.push(stack[i].clone());
            assert(stack_view(rest@) =~= stack_view(before).push(stack@[i as int]@));
        }
        i += 1;
    }
    assert(stack@.take(i as int) =~= stack@);
    rest
}

/// Splits `stack` at time `now`: copies of the bids whose window has not
/// ended, and copies of those whose window has, each in the stack's order.
pub fn split_expired(stack: &Vec<Bid>, now: u64) -> (res: (Vec<Bid>, Vec<Bid>))
    ensures
        stack_view(res.0@) == unexpired(stack_view(stack@), now),
        stack_view(res.1@) == expired(stack_view(stack@), now),
{
    let ghost ended = ended_at(now);
    let ghost live = live_at(now);
    let mut kept: Vec<Bid> = Vec::new();
    let mut gone: Vec<Bid> = Vec::new();
    let mut i: usize = 0;
    assert(stack@.take(0) =~= Seq::<Bid>::empty());
    assert(stack_view(stack@.take(0)).filter(ended) =~= Seq::<BidView>::empty()
        && stack_view(stack@.take(0)).filter(live) =~= Seq::<BidView>::empty()) by {
        reveal(Seq::filter);
    }
    while i < stack.len()
        invariant
            i <= stack.len(),
            ended == ended_at(now),
            live == live_at(now),
            stack_view(kept@) == stack_view(stack@.take(i as int)).filter(live),
            stack_view(gone@) == stack_view(stack@.take(i as int)).filter(ended),
        decreases stack.len() - i,
    {
        proof {
            lemma_view_take_next(stack@, i as int);
            stack_view(stack@.take(i as int)).lemma_filter_push(stack@[i as int]@, live);
            stack_view(stack@.take(i as int)).lemma_filter_push(stack@[i as int]@, ended);
        }
        if stack[i].is_finished(now) {
            let ghost before = gone@;
            gone.push(stack[i].clone());
            assert(stack_view(gone@) =~= stack_view(before).push(stack@[i as int]@));
        } else {
            let ghost before = kept@;
            kept.push(stack[i].clone());
            assert(stack_view(kept@) =~= stack_view(before).push(stack@[i as int]@));
        }
        i += 1;
    }
    assert(stack@.take(i as int) =~= stack@);
    (kept, gone)
}

/// Copies of all bids of `stack`, in order.
pub fn copy_stack(stack: &Vec<Bid>) -> (res: Vec<Bid>)
    ensures
        res@ == stack@,
{
    let mut copy: Vec<Bid> = Vec::new();
    let mut i: usize = 0;
    while i < stack.len()
        invariant
            i <= stack.len(),
            copy@ == stack@.take(i as int),
        decreases stack.len() - i,
    {
        copy.push(stack[i].clone());
        assert(copy@ =~= stack@.take(i + 1));
        i += 1;
    }
    assert(stack@.take(i as int) =~= stack@);
    copy
}

/// An accepted bid keeps the prices strictly increasing, whether or not
/// the oldest bid is dropped for it.
pub proof fn lemma_with_bid_increasing(s: Seq<BidView>, bid: BidView, bid_history_length: u64)
    requires
        strictly_increasing(s),
        accepts(s, bid.price),
    ensures
        strictly_increasing(with_bid(s, bid, bid_history_length)),
{
    let t = s.push(bid);
    assert forall|i: int, j: int| 0 <= i < j < t.len() implies t[i].price < t[j].price by {
        if j == s.len() && i < s.len() - 1 {
            assert(s[i].price < s[s.len() - 1].price);
        }
    }
    let d = t.drop_first();
    assert forall|i: int, j: int| 0 <= i < j < d.len() implies d[i].price < d[j].price by {
        assert(d[i] == t[i + 1] && d[j] == t[j + 1]);
    }
}

/// Taking bids out of a stack keeps the prices of the others strictly
/// increasing.
pub proof fn lemma_filter_increasing(s: Seq<BidView>, pred: spec_fn(BidView) -> bool)
    requires
        strictly_increasing(s),
    ensures
        strictly_increasing(s.filter(pred)),
    decreases s.len(),
{
    reveal(Seq::filter);
    if s.len() > 0 {
        let front = s.drop_last();
        assert forall|i: int, j: int| 0 <= i < j < front.len() implies front[i].price
            < front[j].price by {
            assert(front[i] == s[i] && front[j] == s[j]);
        }
        lemma_filter_increasing(front, pred);
        let f = front.filter(pred);
        if pred(s.last()) {
            let g = f.push(s.last());
            assert forall|i: int, j: int| 0 <= i < j < g.len() implies g[i].price
                < g[j].price by {
                if j == f.len() {
                    assert(f.contains(f[i]));
                    front.lemma_filter_contains_rev(pred, f[i]);
                    let k = choose|k: int| 0 <= k < front.len() && front[k] == f[i];
                    assert(s[k].price < s[s.len() - 1].price);
                }
            }
        }
    }
}

/// The view of the first `i + 1` bids is the view of the first `i` with the
/// view of the next one pushed.
proof fn lemma_view_take_next(bids: Seq<Bid>, i: int)
    requires
        0 <= i < bids.len(),
    ensures
        stack_view(bids.take(i + 1)) == stack_view(bids.take(i)).push(bids[i]@),
{
    assert(stack_view(bids.take(i + 1)) =~= stack_view(bids.take(i)).push(bids[i]@));
}

} // verus!
