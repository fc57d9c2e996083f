//! The bid stacks of one listing, one per currency.

use crate::assoc::{
    distinct_keys, has_key, lemma_empty, lemma_entry, lemma_push, lemma_remove, lemma_update,
    to_map,
};
use crate::bid::{Bid, BidView};
use crate::stack::{copy_stack, is_strictly_increasing, stack_view, strictly_increasing};
use vstd::prelude::*;

verus! {

/// The stacks of a listing as plain values: currency to bids, oldest first.
/// A currency without bids is not in the map.
pub type BidsView = Map<Seq<char>, Seq<BidView>>;

/// The bids in currency `ft_token_id`; none if the currency has no stack.
pub open spec fn stack_of(bids: BidsView, ft_token_id: Seq<char>) -> Seq<BidView> {
    if bids.dom().contains(ft_token_id) {
        bids[ft_token_id]
    } else {
        Seq::empty()
    }
}

/// The stacks with the one of `ft_token_id` replaced by `stack`. A stack
/// that has become empty takes its currency out of the map.
pub open spec fn set_stack(
    bids: BidsView,
    ft_token_id: Seq<char>,
    stack: Seq<BidView>,
) -> BidsView {
    if stack.len() == 0 {
        bids.remove(ft_token_id)
    } else {
        bids.insert(ft_token_id, stack)
    }
}

/// Every stack holds at least one bid and its prices strictly increase.
pub open spec fn well_stacked(bids: BidsView) -> bool {
    forall|c: Seq<char>| #[trigger]
        bids.dom().contains(c) ==> bids[c].len() > 0 && strictly_increasing(bids[c])
}

/// No stack holds more than `bid_history_length` bids.
pub open spec fn bounded(bids: BidsView, bid_history_length: u64) -> bool {
    forall|c: Seq<char>| #[trigger] bids.dom().contains(c) ==> bids[c].len() <= bid_history_length
}

/// The bids of a listing in one currency.
#[derive(Debug)]
pub struct BidStack {
    pub ft_token_id: String,
    pub bids: Vec<Bid>,
}

/// All bids of a listing: one stack for each currency that has bids.
#[derive(Debug)]
pub struct Bids {
    pub stacks: Vec<BidStack>,
}

impl View for Bids {
    type V = BidsView;

    open spec fn view(&self) -> BidsView {
        to_map(self.entries())
    }
}

impl Bids {
    /// The stacks in the order in which they are kept.
    pub open spec fn entries(&self) -> Seq<(Seq<char>, Seq<BidView>)> {
        self.stacks@.map_values(|e: BidStack| (e.ft_token_id@, stack_view(e.bids@)))
    }

    /// No currency has two stacks, no stack is empty, and in every stack
    /// the prices strictly increase.
    pub open spec fn wf(&self) -> bool {
        &&& distinct_keys(self.entries())
        &&& forall|i: int|
            0 <= i < self.entries().len() ==> (#[trigger] self.entries()[i]).1.len() > 0
                && strictly_increasing(self.entries()[i].1)
    }

    /// A well-formed value stands for a well-stacked map.
    pub proof fn lemma_wf_view(&self)
        requires
            self.wf(),
        ensures
            well_stacked(self@),
    {
        let s = self.entries();
        assert forall|c: Seq<char>| #[trigger] self@.dom().contains(c) implies self@[c].len() > 0
            && strictly_increasing(self@[c]) by {
            let i = choose|i: int| 0 <= i < s.len() && (#[trigger] s[i]).0 == c;
            lemma_entry(s, i);
        }
    }

    /// No bids in any currency.
    pub fn new() -> (res: Bids)
        ensures
            res.wf(),
            res@ == BidsView::empty(),
            res.entries().len() == 0,
    {
        let res = Bids { stacks: Vec::new() };
        proof {
            lemma_empty(res.entries());
        }
        res
    }

    /// The number of currencies that have bids.
    pub fn len(&self) -> (res: usize)
        ensures
            res == self.entries().len(),
    {
        self.stacks.len()
    }

    /// Whether no currency has bids.
    pub fn is_empty(&self) -> (res: bool)
        ensures
            res == (self.entries().len() == 0),
            self.wf() ==> res == (self@ == BidsView::empty()),
    {
        proof {
            if self.wf() {
                if self.entries().len() == 0 {
                    lemma_empty(self.entries());
                } else {
                    lemma_entry(self.entries(), 0);
                }
            }
        }
        self.stacks.len() == 0
    }

    /// Where the stack of `ft_token_id` is kept, if it has one.
    pub fn position(&self, ft_token_id: &String) -> (res: Option<usize>)
        ensures
            match res {
                Some(i) => i < self.entries().len() && self.entries()[i as int].0 == ft_token_id@,
                None => !has_key(self.entries(), ft_token_id@),
            },
    {
        let mut i: usize = 0;
        while i < self.stacks.len()
            invariant
                i <= self.stacks.len(),
                forall|j: int| 0 <= j < i ==> (#[trigger] self.entries()[j]).0 != ft_token_id@,
            decreases self.stacks.len() - i,
        {
            if self.stacks[i].ft_token_id == *ft_token_id {
                return Some(i);
            }
            i += 1;
        }
        None
    }

    /// The bids in currency `ft_token_id`, oldest first.
    pub fn get(&self, ft_token_id: &String) -> (res: Option<&Vec<Bid>>)
        requires
            self.wf(),
        ensures
            match res {
                Some(stack) => self@.dom().contains(ft_token_id@) && stack_view(stack@)
                    == self@[ft_token_id@],
                None => !self@.dom().contains(ft_token_id@),
            },
    {
        match self.position(ft_token_id) {
            Some(i) => {
                proof {
                    lemma_entry(self.entries(), i as int);
                }
                Some(&self.stacks[i].bids)
            },
            None => None,
        }
    }

    /// Makes `stack` the bids in currency `ft_token_id`. An empty `stack`
    /// takes the currency out.
    pub fn put(&mut self, ft_token_id: String, stack: Vec<Bid>)
        requires
            old(self).wf(),
            strictly_increasing(stack_view(stack@)),
        ensures
            final(self).wf(),
            final(self)@ == set_stack(old(self)@, ft_token_id@, stack_view(stack@)),
    {
        let ghost before = self.entries();
        let ghost key = ft_token_id@;
        let ghost value = stack_view(stack@);
        match self.position(&ft_token_id) {
            Some(i) => {
                proof {
                    lemma_entry(before, i as int);
                }
                if stack.len() == 0 {
                    self.stacks.remove(i);
                    proof {
                        lemma_remove(before, i as int);
                        assert(self.entries() =~= before.remove(i as int));
                    }
                } else {
                    self.stacks.remove(i);
                    self.stacks.insert(i, BidStack { ft_token_id, bids: stack });
                    proof {
                        lemma_update(before, i as int, value);
                        assert(self.entries() =~= before.update(i as int, (key, value)));
                    }
                }
            },
            None => {
                if stack.len() == 0 {
                    assert(old(self)@.remove(key) =~= old(self)@);
                } else {
                    self.stacks.push(BidStack { ft_token_id, bids: stack });
                    proof {
                        lemma_push(before, key, value);
                        assert(self.entries() =~= before.push((key, value)));
                    }
                }
            },
        }
    }

    /// Whether the value is well-formed.
    pub fn is_wf(&self) -> (res: bool)
        ensures
            res == self.wf(),
    {
        let mut i: usize = 0;
        while i < self.stacks.len()
            invariant
                i <= self.stacks.len(),
                forall|a: int, b: int|
                    0 <= a < b < i ==> (#[trigger] self.entries()[a]).0 != (
                    #[trigger] self.entries()[b]).0,
                forall|a: int|
                    0 <= a < i ==> (#[trigger] self.entries()[a]).1.len() > 0
                        && strictly_increasing(self.entries()[a].1),
            decreases self.stacks.len() - i,
        {
            if self.stacks[i].bids.len() == 0 || !is_strictly_increasing(&self.stacks[i].bids) {
                assert(!(self.entries()[i as int].1.len() > 0 && strictly_increasing(
                    self.entries()[i as int].1,
                )));
                return false;
            }
            let mut j: usize = 0;
            while j < i
                invariant
                    j <= i < self.stacks.len(),
                    forall|a: int|
                        0 <= a < j ==> (#[trigger] self.entries()[a]).0
                            != self.entries()[i as int].0,
                decreases i - j,
            {
                if self.stacks[j].ft_token_id == self.stacks[i].ft_token_id {
                    assert(self.entries()[j as int].0 == self.entries()[i as int].0);
                    return false;
                }
                j += 1;
            }
            i += 1;
        }
        true
    }
}

impl Clone for Bids {
    /// A copy that holds the same stacks in the same order.
    fn clone(&self) -> (res: Bids)
        ensures
            res.entries() == self.entries(),
            res@ == self@,
            res.wf() == self.wf(),
    {
        let mut stacks: Vec<BidStack> = Vec::new();
        let mut i: usize = 0;
        while i < self.stacks.len()
            invariant
                i <= self.stacks.len(),
                stacks@.len() == i,
                forall|j: int|
                    0 <= j < i ==> (#[trigger] stacks@[j]).ft_token_id@
                        == self.stacks@[j].ft_token_id@
                        && stacks@[j].bids@ == self.stacks@[j].bids@,
            decreases self.stacks.len() - i,
        {
            stacks.push(
                BidStack {
                    ft_token_id: self.stacks[i].ft_token_id.clone(),
                    bids: copy_stack(&self.stacks[i].bids),
                },
            );
            i += 1;
        }
        let res = Bids { stacks };
        assert(res.entries() =~= self.entries());
        res
    }
}

} // verus!
