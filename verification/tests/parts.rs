use market::bid::Bid;
use market::bids::{BidStack, Bids};
use market::error::BidError;
use market::market::Market;
use market::royalty::royalty_within;
use market::sale::{ContractAndTokenId, Sale, Sales};
use market::stack::{
    copy_stack, holds_bid, is_strictly_increasing, push_bid, remove_matching, split_expired,
};
use market::transfer::{is_native, Transfer};

fn bid(owner: &str, price: u128, end: Option<u64>) -> Bid {
    Bid { owner_id: owner.to_string(), price, start: None, end }
}

fn stack_of_prices(prices: &[u128]) -> Vec<Bid> {
    prices.iter().map(|p| bid("o", *p, None)).collect()
}

fn prices(stack: &[Bid]) -> Vec<u128> {
    stack.iter().map(|b| b.price).collect()
}

fn key(contract: &str, token: &str) -> ContractAndTokenId {
    ContractAndTokenId { nft_contract_id: contract.to_string(), token_id: token.to_string() }
}

#[test]
fn push_below_the_history_length_keeps_all() {
    let mut stack = stack_of_prices(&[1, 2]);
    push_bid(&mut stack, bid("n", 3, None), 3);
    assert_eq!(prices(&stack), vec![1, 2, 3]);
}

#[test]
fn push_onto_a_full_stack_drops_the_oldest() {
    let mut stack = stack_of_prices(&[1, 2, 3]);
    push_bid(&mut stack, bid("n", 4, None), 3);
    assert_eq!(prices(&stack), vec![2, 3, 4]);
    assert_eq!(stack[2].owner_id, "n");
}

#[test]
fn push_onto_an_overlong_stack_drops_one_bid_only() {
    let mut stack = stack_of_prices(&[1, 2, 3]);
    push_bid(&mut stack, bid("n", 4, None), 1);
    assert_eq!(prices(&stack), vec![2, 3, 4]);
}

#[test]
fn strictly_increasing_needs_every_step_to_rise() {
    assert!(is_strictly_increasing(&stack_of_prices(&[])));
    assert!(is_strictly_increasing(&stack_of_prices(&[5])));
    assert!(is_strictly_increasing(&stack_of_prices(&[1, 2, 3])));
    assert!(!is_strictly_increasing(&stack_of_prices(&[1, 1])));
    assert!(!is_strictly_increasing(&stack_of_prices(&[1, 3, 2])));
    assert!(!is_strictly_increasing(&stack_of_prices(&[2, 1, 3])));
    assert!(is_strictly_increasing(&stack_of_prices(&[0, u128::MAX])));
}

#[test]
fn holds_bid_compares_every_field() {
    let stack = vec![bid("a", 1, None), bid("b", 2, Some(9))];
    assert!(holds_bid(&stack, &bid("b", 2, Some(9))));
    assert!(!holds_bid(&stack, &bid("b", 2, None)));
    assert!(!holds_bid(&stack, &bid("a", 2, Some(9))));
    assert!(!holds_bid(&stack, &bid("b", 3, Some(9))));
    let with_start = Bid { owner_id: "a".to_string(), price: 1, start: Some(0), end: None };
    assert!(!holds_bid(&stack, &with_start));
    assert!(!holds_bid(&Vec::new(), &bid("a", 1, None)));
}

#[test]
fn remove_matching_keeps_the_others_in_order() {
    let stack = vec![bid("a", 1, None), bid("b", 2, None), bid("c", 3, None)];
    let rest = remove_matching(&stack, &bid("b", 2, None));
    assert_eq!(rest, vec![bid("a", 1, None), bid("c", 3, None)]);
    let same = remove_matching(&stack, &bid("z", 2, None));
    assert_eq!(same, stack);
}

#[test]
fn split_expired_parts_by_the_end() {
    let stack = vec![
        bid("a", 1, Some(10)),
        bid("b", 2, None),
        bid("c", 3, Some(11)),
        bid("d", 4, Some(9)),
    ];
    let (kept, gone) = split_expired(&stack, 10);
    assert_eq!(kept, vec![bid("b", 2, None), bid("c", 3, Some(11))]);
    assert_eq!(gone, vec![bid("a", 1, Some(10)), bid("d", 4, Some(9))]);
    assert_eq!(kept.len() + gone.len(), stack.len());
}

#[test]
fn copy_stack_copies_every_bid() {
    let stack = vec![bid("a", 1, Some(10)), bid("b", 2, None)];
    assert_eq!(copy_stack(&stack), stack);
    assert_eq!(stack[0].clone(), stack[0]);
}

#[test]
fn same_as_is_equality_of_all_fields() {
    let b = Bid { owner_id: "a".to_string(), price: 1, start: Some(1), end: Some(2) };
    assert!(b.same_as(&b.clone()));
    assert!(!b.same_as(&Bid { owner_id: "a".to_string(), price: 1, start: None, end: Some(2) }));
    assert!(!b.same_as(&Bid { owner_id: "a".to_string(), price: 1, start: Some(1), end: Some(3) }));
    assert!(key("c", "1").same_as(&key("c", "1")));
    assert!(!key("c", "1").same_as(&key("c", "2")));
    assert!(!key("c", "1").same_as(&key("d", "1")));
    assert!(!key("c1", "").same_as(&key("c", "1")));
}

#[test]
fn only_near_is_native() {
    assert!(is_native(&"near".to_string()));
    assert!(!is_native(&"NEAR".to_string()));
    assert!(!is_native(&"near ".to_string()));
    assert!(!is_native(&"wrap.near".to_string()));
    assert!(!is_native(&String::new()));
}

#[test]
fn bids_put_sets_replaces_and_removes() {
    let mut bids = Bids::new();
    assert!(bids.is_empty());
    bids.put("X".to_string(), stack_of_prices(&[1, 2]));
    bids.put("Y".to_string(), stack_of_prices(&[5]));
    assert_eq!(bids.len(), 2);
    assert_eq!(prices(bids.get(&"X".to_string()).unwrap()), vec![1, 2]);
    bids.put("X".to_string(), stack_of_prices(&[7]));
    assert_eq!(prices(bids.get(&"X".to_string()).unwrap()), vec![7]);
    assert_eq!(prices(bids.get(&"Y".to_string()).unwrap()), vec![5]);
    assert_eq!(bids.position(&"X".to_string()), Some(0));
    assert_eq!(bids.position(&"Y".to_string()), Some(1));
    assert_eq!(bids.position(&"Z".to_string()), None);
    bids.put("X".to_string(), Vec::new());
    assert!(bids.get(&"X".to_string()).is_none());
    assert_eq!(bids.len(), 1);
    bids.put("Z".to_string(), Vec::new());
    assert_eq!(bids.len(), 1);
    assert!(bids.is_wf());
}

#[test]
fn bids_clone_holds_the_same_stacks() {
    let mut bids = Bids::new();
    bids.put("X".to_string(), stack_of_prices(&[1, 2]));
    bids.put("near".to_string(), stack_of_prices(&[5]));
    let copy = bids.clone();
    assert_eq!(copy.len(), 2);
    assert_eq!(copy.stacks[0].ft_token_id, "X");
    assert_eq!(copy.stacks[0].bids, bids.stacks[0].bids);
    assert_eq!(copy.stacks[1].ft_token_id, "near");
    assert_eq!(copy.stacks[1].bids, bids.stacks[1].bids);
}

#[test]
fn sales_insert_get_remove() {
    let mut sales = Sales::new();
    assert_eq!(sales.len(), 0);
    assert!(sales.get(&key("c", "1")).is_none());
    let mut first = Sale::new();
    first.bids.put("X".to_string(), stack_of_prices(&[1]));
    sales.insert(key("c", "1"), first);
    sales.insert(key("c", "2"), Sale::new());
    assert_eq!(sales.len(), 2);
    assert_eq!(sales.position(&key("c", "2")), Some(1));
    assert_eq!(sales.get(&key("c", "1")).unwrap().bids.len(), 1);
    assert!(sales.get(&key("c", "2")).unwrap().bids.is_empty());
    let mut again = Sale::new();
    again.bids.put("Y".to_string(), stack_of_prices(&[3, 4]));
    sales.insert(key("c", "1"), again);
    assert_eq!(sales.len(), 2);
    assert!(sales.get(&key("c", "1")).unwrap().bids.get(&"X".to_string()).is_none());
    let taken = sales.remove(&key("c", "1")).unwrap();
    assert_eq!(prices(taken.bids.get(&"Y".to_string()).unwrap()), vec![3, 4]);
    assert_eq!(sales.len(), 1);
    assert!(sales.remove(&key("c", "1")).is_none());
    assert!(sales.is_wf());
}

#[test]
fn sales_put_stack_changes_one_currency_of_one_listing() {
    let mut sales = Sales::new();
    let mut first = Sale::new();
    first.bids.put("X".to_string(), stack_of_prices(&[1]));
    first.bids.put("Y".to_string(), stack_of_prices(&[2]));
    sales.insert(key("c", "1"), first);
    sales.insert(key("c", "2"), Sale::new());
    sales.put_stack(0, "X".to_string(), stack_of_prices(&[8, 9]));
    let listing = sales.get(&key("c", "1")).unwrap();
    assert_eq!(prices(listing.bids.get(&"X".to_string()).unwrap()), vec![8, 9]);
    assert_eq!(prices(listing.bids.get(&"Y".to_string()).unwrap()), vec![2]);
    assert!(sales.get(&key("c", "2")).unwrap().bids.is_empty());
}

#[test]
fn sales_with_a_listing_twice_are_ill_formed() {
    let sales = Sales {
        records: vec![
            market::sale::SaleRecord { id: key("c", "1"), sale: Sale::new() },
            market::sale::SaleRecord { id: key("c", "1"), sale: Sale::new() },
        ],
    };
    assert!(!sales.is_wf());
    let bad_sale = Sale {
        bids: Bids { stacks: vec![BidStack { ft_token_id: "X".to_string(), bids: vec![] }] },
    };
    assert!(!bad_sale.is_wf());
    let sales = Sales { records: vec![market::sale::SaleRecord { id: key("c", "1"), sale: bad_sale }] };
    assert!(!sales.is_wf());
    assert!(!Market { bid_history_length: 1, sales }.is_wf());
}

#[test]
fn internal_remove_refuses_before_it_changes_anything() {
    let mut market = Market::new(4);
    let mut sale = Sale::new();
    market
        .add_bid(key("c", "1"), 5, "X".to_string(), "a".to_string(), &mut sale, None, None)
        .unwrap();
    let res =
        market.internal_remove_bid("c".to_string(), &"X".to_string(), "1".to_string(), &bid("a", 6, None));
    assert_eq!(res, Err(BidError::BidNotFound));
    let res =
        market.internal_remove_bid("c".to_string(), &"Y".to_string(), "1".to_string(), &bid("a", 5, None));
    assert_eq!(res, Err(BidError::NoSuchListingOrCurrency));
    assert_eq!(market.sales.get(&key("c", "1")).unwrap().bids.len(), 1);
    let res =
        market.internal_remove_bid("c".to_string(), &"X".to_string(), "1".to_string(), &bid("a", 5, None));
    assert_eq!(res, Ok(()));
    assert!(market.sales.get(&key("c", "1")).unwrap().bids.is_empty());
}

#[test]
fn refund_stack_refunds_in_order() {
    let market = Market::new(4);
    let stack = vec![bid("a", 1, None), bid("b", 2, None)];
    assert_eq!(
        market.refund_stack(&"near".to_string(), &stack),
        vec![
            Transfer::Native { receiver_id: "a".to_string(), amount: 1 },
            Transfer::Native { receiver_id: "b".to_string(), amount: 2 },
        ]
    );
    assert_eq!(market.refund_stack(&"near".to_string(), &Vec::new()), vec![]);
}

#[test]
fn prices_stay_strictly_increasing_whatever_is_offered() {
    let mut market = Market::new(4);
    let mut sale = Sale::new();
    let offers: [u128; 10] = [5, 3, 5, 9, 9, 1, 12, 11, 40, 40];
    let mut accepted = Vec::new();
    for (n, amount) in offers.iter().enumerate() {
        let res = market.add_bid(
            key("c", "1"),
            *amount,
            "X".to_string(),
            format!("bidder{}", n),
            &mut sale,
            None,
            None,
        );
        if res.is_ok() {
            accepted.push(*amount);
        }
        let stack = sale.bids.get(&"X".to_string()).unwrap();
        assert!(is_strictly_increasing(stack));
        assert!(stack.len() <= 4);
    }
    assert_eq!(accepted, vec![5, 9, 12, 40]);
    assert_eq!(prices(sale.bids.get(&"X".to_string()).unwrap()), vec![5, 9, 12, 40]);
    market
        .add_bid(key("c", "1"), 41, "X".to_string(), "last".to_string(), &mut sale, None, None)
        .unwrap();
    assert_eq!(prices(sale.bids.get(&"X".to_string()).unwrap()), vec![9, 12, 40, 41]);
}

#[test]
fn royalties_up_to_the_maximum_pass() {
    assert!(royalty_within(&vec![], 0));
    assert!(royalty_within(&vec![0, 0], 0));
    assert!(royalty_within(&vec![1000, 4000], 5000));
    assert!(!royalty_within(&vec![1000, 4001], 5000));
    assert!(!royalty_within(&vec![6000, 0], 5000));
    assert!(royalty_within(&vec![u32::MAX], u32::MAX));
}

#[test]
fn royalties_that_overflow_are_over_the_maximum() {
    assert!(!royalty_within(&vec![u32::MAX, 1], u32::MAX));
    assert!(!royalty_within(&vec![u32::MAX, u32::MAX, 2], 0));
    assert!(!royalty_within(&vec![1 << 31, 1 << 31], 10));
}
