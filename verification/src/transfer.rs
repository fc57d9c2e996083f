//! Refunds, as instructions for whoever sends them.

use crate::bid::BidView;
use vstd::prelude::*;
use vstd::string::StringExecFns;

verus! {

/// The identifier that stands for the chain's native asset. Every other
/// currency identifier is the account of a fungible-token contract.
pub open spec fn native_token_id() -> Seq<char> {
    "near"@
}

/// The amount attached to a call to a token contract: one unit of the
/// smallest denomination, which token contracts ask for with a transfer.
pub const FT_TRANSFER_DEPOSIT: u128 = 1;

/// The gas that a call to a token contract may spend.
pub const GAS_FOR_FT_TRANSFER: u64 = 5_000_000_000_000;

/// What a [`Transfer`] holds, as plain mathematical values.
pub enum TransferView {
    Native { receiver_id: Seq<char>, amount: u128 },
    Fungible {
        ft_token_id: Seq<char>,
        receiver_id: Seq<char>,
        amount: u128,
        deposit: u128,
        gas: u64,
    },
}

/// One outbound payment. The ledger only decides that it is owed; it is
/// sent afterwards, and the ledger never learns whether it arrived.
#[derive(Debug, PartialEq, Eq)]
pub enum Transfer {
    /// Send `amount` of the native asset straight to `receiver_id`.
    Native { receiver_id: String, amount: u128 },
    /// Ask the token contract `ft_token_id` to move `amount` to
    /// `receiver_id`, in a call that carries `deposit` and may spend `gas`.
    Fungible { ft_token_id: String, receiver_id: String, amount: u128, deposit: u128, gas: u64 },
}

impl View for Transfer {
    type V = TransferView;

    open spec fn view(&self) -> TransferView {
        match self {
            Transfer::Native { receiver_id, amount } => TransferView::Native {
                receiver_id: receiver_id@,
                amount: *amount,
            },
            Transfer::Fungible {
                ft_token_id,
                receiver_id,
                amount,
                deposit,
                gas,
            } => TransferView::Fungible {
                ft_token_id: ft_token_id@,
                receiver_id: receiver_id@,
                amount: *amount,
                deposit: *deposit,
                gas: *gas,
            },
        }
    }
}

/// The refund that a bid in currency `ft_token_id` is owed: its full price,
/// to its owner, by the path that the currency calls for. A call to a token
/// contract always carries the same deposit and the same gas.
pub open spec fn refund_of(ft_token_id: Seq<char>, bid: BidView) -> TransferView {
    if ft_token_id == native_token_id() {
        TransferView::Native { receiver_id: bid.owner_id, amount: bid.price }
    } else {
        TransferView::Fungible {
            ft_token_id,
            receiver_id: bid.owner_id,
            amount: bid.price,
            deposit: FT_TRANSFER_DEPOSIT,
            gas: GAS_FOR_FT_TRANSFER,
        }
    }
}

/// The transfers of a list as plain values, in order.
pub open spec fn transfers_view(transfers: Seq<Transfer>) -> Seq<TransferView> {
    transfers.map_values(|t: Transfer| t@)
}

/// The refunds of a whole sequence of bids in one currency, in order.
pub open spec fn refunds_of(ft_token_id: Seq<char>, bids: Seq<BidView>) -> Seq<TransferView> {
    bids.map_values(|b: BidView| refund_of(ft_token_id, b))
}

/// The refunds of every bid of every stack: stack after stack in the
/// order given, and within a stack oldest bid first.
pub open spec fn all_refunds(entries: Seq<(Seq<char>, Seq<BidView>)>) -> Seq<TransferView> {
    entries.map_values(|e: (Seq<char>, Seq<BidView>)| refunds_of(e.0, e.1)).flatten()
}

/// Whether `ft_token_id` stands for the native asset.
pub fn is_native(ft_token_id: &String) -> (res: bool)
    ensures
        res == (ft_token_id@ == native_token_id()),
{
    let native = String::from_str("near");
    *ft_token_id == native
}

} // verus!
