use secondary_market::books::{
    remove_buy, remove_sell, select_buys_matching, select_buys_under, select_sells_matching,
    select_sells_over, sort_buys, sort_sells,
};
use secondary_market::types::{BuyOrder, SellOrder};

fn buy(price: u128, amount: u64, tag: u8) -> BuyOrder {
    BuyOrder { firm: 10, owner: 20, max_price: price, amount, order_id: [tag; 32] }
}

fn sell(price: u128, amount: u64, tag: u8) -> SellOrder {
    SellOrder { firm: 10, owner: 10, min_price: price, amount, order_id: [tag; 32] }
}

#[test]
fn buys_are_sorted_by_ascending_bid_stably() {
    let book = vec![buy(5, 1, 1), buy(3, 1, 2), buy(5, 1, 3), buy(1, 1, 4), buy(3, 1, 5)];
    let sorted = sort_buys(&book);
    let tags: Vec<u8> = sorted.iter().map(|o| o.order_id[0]).collect();
    assert_eq!(tags, vec![4, 2, 5, 1, 3]);
}

#[test]
fn sells_are_sorted_by_descending_ask_stably() {
    let book = vec![sell(5, 1, 1), sell(3, 1, 2), sell(5, 1, 3), sell(9, 1, 4), sell(3, 1, 5)];
    let sorted = sort_sells(&book);
    let tags: Vec<u8> = sorted.iter().map(|o| o.order_id[0]).collect();
    assert_eq!(tags, vec![4, 1, 3, 2, 5]);
}

#[test]
fn buy_book_is_split_by_price() {
    let book = vec![buy(5, 1, 1), buy(3, 0, 2), buy(7, 0, 3), buy(2, 4, 4)];
    let under = select_buys_under(&book, 4);
    let matching = select_buys_matching(&book, 4);
    assert_eq!(under, vec![buy(3, 0, 2), buy(2, 4, 4)]);
    assert_eq!(matching, vec![buy(5, 1, 1)]);
}

#[test]
fn sell_book_is_split_by_price() {
    let book = vec![sell(5, 1, 1), sell(3, 0, 2), sell(7, 2, 3), sell(2, 4, 4)];
    let over = select_sells_over(&book, 5);
    let matching = select_sells_matching(&book, 5);
    assert_eq!(over, vec![sell(7, 2, 3)]);
    assert_eq!(matching, vec![sell(5, 1, 1), sell(2, 4, 4)]);
}

#[test]
fn removing_an_id_removes_every_order_with_it() {
    let book = vec![buy(5, 1, 1), buy(3, 1, 2), buy(4, 1, 1)];
    assert_eq!(remove_buy(&book, &[1u8; 32]), vec![buy(3, 1, 2)]);
    let sells = vec![sell(5, 1, 1), sell(3, 1, 2)];
    assert_eq!(remove_sell(&sells, &[2u8; 32]), vec![sell(5, 1, 1)]);
}
