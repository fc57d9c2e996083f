//! Listings and the table that holds them.

use crate::assoc::{
    distinct_keys, has_key, lemma_empty, lemma_entry, lemma_push, lemma_remove, lemma_update,
    to_map,
};
use crate::bid::Bid;
use crate::bids::{set_stack, Bids, BidsView};
use crate::stack::{stack_view, strictly_increasing};
use vstd::prelude::*;

verus! {

/// A listing's identity as plain values: the asset's contract and its id.
pub type SaleIdView = (Seq<char>, Seq<char>);

/// The table of listings as plain values: identity to bid stacks.
pub type SalesView = Map<SaleIdView, BidsView>;

/// Which asset a listing offers: the contract that holds it, and its id
/// there.
#[derive(Debug)]
pub struct ContractAndTokenId {
    pub nft_contract_id: String,
    pub token_id: String,
}

impl View for ContractAndTokenId {
    type V = SaleIdView;

    open spec fn view(&self) -> SaleIdView {
        (self.nft_contract_id@, self.token_id@)
    }
}

impl ContractAndTokenId {
    /// Whether both name the same asset.
    pub fn same_as(&self, other: &ContractAndTokenId) -> (res: bool)
        ensures
            res == (self@ == other@),
    {
        self.nft_contract_id == other.nft_contract_id && self.token_id == other.token_id
    }
}

/// One listing, as far as the ledger is concerned: its bids.
#[derive(Debug)]
pub struct Sale {
    pub bids: Bids,
}

impl View for Sale {
    type V = BidsView;

    open spec fn view(&self) -> BidsView {
        self.bids@
    }
}

impl Sale {
    /// The listing's bids are well-formed.
    pub open spec fn wf(&self) -> bool {
        self.bids.wf()
    }

    /// A listing without bids.
    pub fn new() -> (res: Sale)
        ensures
            res.wf(),
            res@ == BidsView::empty(),
    {
        Sale { bids: Bids::new() }
    }

    /// Whether the listing is well-formed.
    pub fn is_wf(&self) -> (res: bool)
        ensures
            res == self.wf(),
    {
        self.bids.is_wf()
    }

}

impl Clone for Sale {
    /// A copy with the same bids.
    fn clone(&self) -> (res: Sale)
        ensures
            res.bids.entries() == self.bids.entries(),
            res@ == self@,
            res.wf() == self.wf(),
    {
        Sale { bids: self.bids.clone() }
    }
}

/// A listing under its identity.
#[derive(Debug)]
pub struct SaleRecord {
    pub id: ContractAndTokenId,
    pub sale: Sale,
}

/// The listings that the market knows, each identity at most once.
#[derive(Debug)]
pub struct Sales {
    pub records: Vec<SaleRecord>,
}

impl View for Sales {
    type V = SalesView;

    open spec fn view(&self) -> SalesView {
        to_map(self.entries())
    }
}

impl Sales {
    /// The listings in the order in which they are kept.
    pub open spec fn entries(&self) -> Seq<(SaleIdView, BidsView)> {
        self.records@.map_values(|r: SaleRecord| (r.id@, r.sale@))
    }

    /// No identity occurs twice and every listing is well-formed.
    pub open spec fn wf(&self) -> bool {
        &&& distinct_keys(self.entries())
        &&& forall|i: int| 0 <= i < self.records@.len() ==> (#[trigger] self.records@[i]).sale.wf()
    }

    /// No listings.
    pub fn new() -> (res: Sales)
        ensures
            res.wf(),
            res@ == SalesView::empty(),
    {
        let res = Sales { records: Vec::new() };
        proof {
            lemma_empty(res.entries());
        }
        res
    }

    /// The number of listings.
    pub fn len(&self) -> (res: usize)
        ensures
            res == self.entries().len(),
    {
        self.records.len()
    }

    /// Whether the table is well-formed.
    pub fn is_wf(&self) -> (res: bool)
        ensures
            res == self.wf(),
    {
        let mut i: usize = 0;
        while i < self.records.len()
            invariant
                i <= self.records.len(),
                forall|a: int, b: int|
                    0 <= a < b < i ==> (#[trigger] self.entries()[a]).0 != (
                    #[trigger] self.entries()[b]).0,
                forall|a: int| 0 <= a < i ==> (#[trigger] self.records@[a]).sale.wf(),
            decreases self.records.len() - i,
        {
            if !self.records[i].sale.is_wf() {
                return false;
            }
            let mut j: usize = 0;
            while j < i
                invariant
                    j <= i < self.records.len(),
                    forall|a: int|
                        0 <= a < j ==> (#[trigger] self.entries()[a]).0
                            != self.entries()[i as int].0,
                decreases i - j,
            {
                if self.records[j].id.same_as(&self.records[i].id) {
                    assert(self.entries()[j as int].0 == self.entries()[i as int].0);
                    return false;
                }
                j += 1;
            }
            i += 1;
        }
        true
    }

    /// Where the listing `id` is kept, if it is there.
    pub fn position(&self, id: &ContractAndTokenId) -> (res: Option<usize>)
        ensures
            match res {
                Some(i) => i < self.entries().len() && self.entries()[i as int].0 == id@,
                None => !has_key(self.entries(), id@),
            },
    {
        let mut i: usize = 0;
        while i < self.records.len()
            invariant
                i <= self.records.len(),
                forall|j: int| 0 <= j < i ==> (#[trigger] self.entries()[j]).0 != id@,
            decreases self.records.len() - i,
        {
            if self.records[i].id.same_as(id) {
                return Some(i);
            }
            i += 1;
        }
        None
    }

    /// The listing `id`.
    pub fn get(&self, id: &ContractAndTokenId) -> (res: Option<&Sale>)
        requires
            self.wf(),
        ensures
            match res {
                Some(sale) => self@.dom().contains(id@) && sale@ == self@[id@] && sale.wf(),
                None => !self@.dom().contains(id@),
            },
    {
        match self.position(id) {
            Some(i) => {
                proof {
                    lemma_entry(self.entries(), i as int);
                }
                Some(&self.records[i].sale)
            },
            None => None,
        }
    }

    /// Puts `sale` under `id`, in place of the listing that was there.
    pub fn insert(&mut self, id: ContractAndTokenId, sale: Sale)
        requires
            old(self).wf(),
            sale.wf(),
        ensures
            final(self).wf(),
            final(self)@ == old(self)@.insert(id@, sale@),
    {
        let ghost before = self.entries();
        let ghost key = id@;
        let ghost value = sale@;
        match self.position(&id) {
            Some(i) => {
                self.records.remove(i);
                self.records.insert(i, SaleRecord { id, sale });
                proof {
                    lemma_update(before, i as int, value);
                    assert(self.entries() =~= before.update(i as int, (key, value)));
                }
            },
            None => {
                self.records.push(SaleRecord { id, sale });
                proof {
                    lemma_push(before, key, value);
                    assert(self.entries() =~= before.push((key, value)));
                }
            },
        }
    }

    /// Takes the listing `id` out and hands it back.
    pub fn remove(&mut self, id: &ContractAndTokenId) -> (res: Option<Sale>)
        requires
            old(self).wf(),
        ensures
            final(self).wf(),
            final(self)@ == old(self)@.remove(id@),
            match res {
                Some(sale) => old(self)@.dom().contains(id@) && sale@ == old(self)@[id@]
                    && sale.wf(),
                None => !old(self)@.dom().contains(id@),
            },
    {
        let ghost before = self.entries();
        match self.position(id) {
            Some(i) => {
                let record = self.records.remove(i);
                proof {
                    lemma_entry(before, i as int);
                    lemma_remove(before, i as int);
                    assert(self.entries() =~= before.remove(i as int));
                }
                Some(record.sale)
            },
            None => {
                assert(old(self)@.remove(id@) =~= old(self)@);
                None
            },
        }
    }

    /// Makes `stack` the bids of listing number `i` in currency
    /// `ft_token_id`; an empty `stack` takes the currency out of it.
    pub fn put_stack(&mut self, i: usize, ft_token_id: String, stack: Vec<Bid>)
        requires
            old(self).wf(),
            i < old(self).entries().len(),
            strictly_increasing(stack_view(stack@)),
        ensures
            final(self).wf(),
            final(self)@ == old(self)@.insert(
                old(self).entries()[i as int].0,
                set_stack(old(self).entries()[i as int].1, ft_token_id@, stack_view(stack@)),
            ),
    {
        let ghost before = self.entries();
        let mut record = self.records.remove(i);
        record.sale.bids.put(ft_token_id, stack);
        let ghost value = record.sale@;
        self.records.insert(i, record);
        proof {
            lemma_update(before, i as int, value);
            assert(self.entries() =~= before.update(i as int, (before[i as int].0, value)));
        }
    }
}

} // verus!
