use secondary_market::hashing::order_id;
use secondary_market::market::Module;
use secondary_market::types::{BuyOrder, Call, CurrencyError, Event, MarketError, Origin, SellOrder};

const SUDO: u64 = 1;
const FIRM: u64 = 10;
const BUYER: u64 = 20;
const BUYER2: u64 = 21;
const SEED: [u8; 32] = [0u8; 32];

/// A market in which FIRM may issue up to 1000 shares and has issued 500.
fn listed_firm() -> Module {
    let mut m = Module::new(SUDO);
    assert_eq!(m.give_issue_rights(Origin::Signed(SUDO), FIRM, 1000), Ok(()));
    assert_eq!(m.issue_shares(Origin::Signed(FIRM), 500), Ok(()));
    m
}

#[test]
fn new_module_is_empty_and_open() {
    let m = Module::new(SUDO);
    assert!(!m.market_closed());
    assert_eq!(m.issuer_list(), Vec::<u64>::new());
    assert_eq!(m.nonce(), 0);
    assert_eq!(m.floating_shares(FIRM), 0);
    assert_eq!(m.authorized_shares(FIRM), 0);
    assert!(!m.is_allowed_issue(FIRM));
    assert!(m.events().is_empty());
    assert!(m.sell_order_list(FIRM).is_empty());
    assert!(m.buy_orders_list(FIRM).is_empty());
}

#[test]
fn give_rights_and_issue() {
    let m = listed_firm();
    assert!(m.is_allowed_issue(FIRM));
    assert_eq!(m.authorized_shares(FIRM), 1000);
    assert_eq!(m.floating_shares(FIRM), 500);
    assert_eq!(m.owned_shares((FIRM, FIRM)), 500);
    assert_eq!(m.issuer_list(), vec![FIRM]);
    assert!(m.is_firm(FIRM));
    assert_eq!(
        m.events().clone(),
        vec![Event::GaveFirmIssueRight(FIRM, 1000), Event::IssuedShares(FIRM, 500)]
    );
}

#[test]
fn issuing_again_adds_to_the_firm_holding() {
    let mut m = listed_firm();
    assert_eq!(m.issue_shares(Origin::Signed(FIRM), 100), Ok(()));
    assert_eq!(m.floating_shares(FIRM), 600);
    assert_eq!(m.owned_shares((FIRM, FIRM)), 600);
    assert_eq!(m.issuer_list(), vec![FIRM]);
}

#[test]
fn issue_errors() {
    let mut m = listed_firm();
    assert_eq!(m.issue_shares(Origin::Signed(BUYER), 1), Err(MarketError::IssueNotAllowed));
    assert_eq!(m.issue_shares(Origin::Signed(FIRM), u64::MAX), Err(MarketError::IssueOverflow));
    assert_eq!(m.issue_shares(Origin::Signed(FIRM), 500), Err(MarketError::AuthorizedReached));
    assert_eq!(m.issue_shares(Origin::Root, 1), Err(MarketError::BadOrigin));
    assert_eq!(m.floating_shares(FIRM), 500);
}

#[test]
fn rights_errors() {
    let mut m = listed_firm();
    assert_eq!(m.give_issue_rights(Origin::Signed(BUYER), 30, 10), Err(MarketError::NotSudo));
    assert_eq!(m.give_issue_rights(Origin::Signed(SUDO), SUDO, 10), Err(MarketError::SelfGrant));
    assert_eq!(m.give_issue_rights(Origin::Signed(SUDO), FIRM, 10), Err(MarketError::AlreadyAllowed));
    assert_eq!(m.give_issue_rights(Origin::Signed(SUDO), 30, 0), Err(MarketError::ZeroLimit));
    assert_eq!(m.give_issue_rights(Origin::Unsigned, 30, 10), Err(MarketError::BadOrigin));
    assert_eq!(m.revoke_issue_rights(Origin::Signed(BUYER), FIRM), Err(MarketError::NotSudo));
    assert_eq!(m.revoke_issue_rights(Origin::Signed(SUDO), SUDO), Err(MarketError::SelfRevoke));
    assert_eq!(m.revoke_issue_rights(Origin::Signed(SUDO), 30), Err(MarketError::AlreadyNotAllowed));
}

#[test]
fn revoking_keeps_limit_and_regranting_keeps_old_limit() {
    let mut m = listed_firm();
    assert_eq!(m.revoke_issue_rights(Origin::Signed(SUDO), FIRM), Ok(()));
    assert!(!m.is_allowed_issue(FIRM));
    assert_eq!(m.authorized_shares(FIRM), 1000);
    assert_eq!(m.floating_shares(FIRM), 500);
    assert_eq!(m.issue_shares(Origin::Signed(FIRM), 1), Err(MarketError::IssueNotAllowed));
    assert_eq!(m.give_issue_rights(Origin::Signed(SUDO), FIRM, 7), Ok(()));
    assert_eq!(m.authorized_shares(FIRM), 1000);
    assert_eq!(m.events().last(), Some(&Event::GaveFirmIssueRight(FIRM, 7)));
}

#[test]
fn change_authorized_shares_works_above_floating() {
    let mut m = listed_firm();
    assert_eq!(m.change_authorized_shares(Origin::Signed(SUDO), FIRM, 500), Err(MarketError::LimitBelowIssued));
    assert_eq!(m.change_authorized_shares(Origin::Signed(SUDO), 30, 900), Err(MarketError::FirmNotAllowed));
    assert_eq!(m.change_authorized_shares(Origin::Signed(FIRM), FIRM, 900), Err(MarketError::NotSudo));
    assert_eq!(m.change_authorized_shares(Origin::Signed(SUDO), FIRM, 501), Ok(()));
    assert_eq!(m.authorized_shares(FIRM), 501);
    assert_eq!(m.events().last(), Some(&Event::AdjustedAuthorizedStock(FIRM, 501)));
    assert_eq!(m.issue_shares(Origin::Signed(FIRM), 1), Err(MarketError::AuthorizedReached));
}

#[test]
fn retire_all_shares_leaves_issuer_list() {
    let mut m = listed_firm();
    assert_eq!(m.retire_shares(Origin::Signed(FIRM), 501), Err(MarketError::RetireNotEnough));
    assert_eq!(m.retire_shares(Origin::Signed(FIRM), 200), Ok(()));
    assert_eq!(m.issuer_list(), vec![FIRM]);
    assert_eq!(m.retire_shares(Origin::Signed(FIRM), 300), Ok(()));
    assert_eq!(m.floating_shares(FIRM), 0);
    assert_eq!(m.owned_shares((FIRM, FIRM)), 0);
    assert_eq!(m.issuer_list(), Vec::<u64>::new());
    assert_eq!(m.events().last(), Some(&Event::RetiredShares(FIRM, 300)));
}

#[test]
fn issue_then_retire_restores_shares() {
    let mut m = listed_firm();
    assert_eq!(m.issue_shares(Origin::Signed(FIRM), 250), Ok(()));
    assert_eq!(m.retire_shares(Origin::Signed(FIRM), 250), Ok(()));
    assert_eq!(m.floating_shares(FIRM), 500);
    assert_eq!(m.owned_shares((FIRM, FIRM)), 500);
}

#[test]
fn close_and_open_market() {
    let mut m = listed_firm();
    assert_eq!(m.close_market(Origin::Signed(FIRM)), Err(MarketError::NotSudo));
    assert_eq!(m.open_market(Origin::Signed(SUDO)), Err(MarketError::AlreadyOpen));
    assert_eq!(m.close_market(Origin::Signed(SUDO)), Ok(()));
    assert!(m.market_closed());
    assert_eq!(m.close_market(Origin::Signed(SUDO)), Err(MarketError::AlreadyFrozen));
    assert_eq!(m.put_sell_order(Origin::Signed(FIRM), FIRM, 10, 5), Err(MarketError::MarketFrozen));
    assert_eq!(m.put_buy_order(Origin::Signed(BUYER), FIRM, 10, 5), Err(MarketError::MarketFrozen));
    assert_eq!(m.open_market(Origin::Signed(SUDO)), Ok(()));
    assert!(!m.market_closed());
    let n = m.events().len();
    assert_eq!(m.events()[n - 2], Event::MarketFrozen(SUDO, true));
    assert_eq!(m.events()[n - 1], Event::MarketFrozen(SUDO, false));
}

#[test]
fn sell_without_buyers_lists_and_locks() {
    let mut m = listed_firm();
    assert_eq!(m.put_sell_order(Origin::Signed(FIRM), FIRM, 100, 5), Ok(()));
    let id = order_id(SEED, FIRM, 0);
    assert_eq!(
        m.sell_order_list(FIRM),
        vec![SellOrder { firm: FIRM, owner: FIRM, min_price: 5, amount: 100, order_id: id }]
    );
    assert_eq!(m.owned_shares((FIRM, FIRM)), 400);
    assert_eq!(m.locked_shares((FIRM, FIRM)), 100);
    assert_eq!(m.nonce(), 1);
    let n = m.events().len();
    assert_eq!(m.events()[n - 2], Event::LockedShares(FIRM, FIRM, 100));
    assert_eq!(m.events()[n - 1], Event::SubmittedSellOrder(FIRM, FIRM, 100, 5, id));
}

#[test]
fn two_sell_orders_lock_both_amounts() {
    let mut m = listed_firm();
    assert_eq!(m.put_sell_order(Origin::Signed(FIRM), FIRM, 100, 5), Ok(()));
    assert_eq!(m.put_sell_order(Origin::Signed(FIRM), FIRM, 50, 6), Ok(()));
    assert_eq!(m.owned_shares((FIRM, FIRM)), 350);
    assert_eq!(m.locked_shares((FIRM, FIRM)), 150);
    let book = m.sell_order_list(FIRM);
    assert_eq!(book.len(), 2);
    assert_eq!(book.iter().map(|o| o.amount).sum::<u64>(), m.locked_shares((FIRM, FIRM)));
    assert_ne!(book[0].order_id, book[1].order_id);
}

#[test]
fn sell_errors() {
    let mut m = listed_firm();
    assert_eq!(m.put_sell_order(Origin::Root, FIRM, 10, 5), Err(MarketError::BadOrigin));
    assert_eq!(m.put_sell_order(Origin::Signed(FIRM), FIRM, 10, 0), Err(MarketError::ZeroSellPrice));
    // a price whose lower 64 bits are zero counts as zero
    assert_eq!(m.put_sell_order(Origin::Signed(FIRM), FIRM, 10, 1u128 << 64), Err(MarketError::ZeroSellPrice));
    assert_eq!(m.put_sell_order(Origin::Signed(FIRM), FIRM, 501, 5), Err(MarketError::NotEnoughShares));
    assert_eq!(m.put_sell_order(Origin::Signed(BUYER), FIRM, 1, 5), Err(MarketError::NotEnoughShares));
    assert_eq!(m.owned_shares((FIRM, FIRM)), 500);
}

#[test]
fn buy_errors() {
    let mut m = listed_firm();
    m.set_free_balance(BUYER, 100);
    assert_eq!(m.put_buy_order(Origin::Unsigned, FIRM, 10, 5), Err(MarketError::BadOrigin));
    assert_eq!(m.put_buy_order(Origin::Signed(BUYER), FIRM, 10, 0), Err(MarketError::ZeroBuyPrice));
    assert_eq!(m.put_buy_order(Origin::Signed(BUYER), FIRM, 2, u128::MAX), Err(MarketError::TotalPriceOverflow));
    assert_eq!(m.put_buy_order(Origin::Signed(BUYER), FIRM, 21, 5), Err(MarketError::NotEnoughFreeBalance));
    assert_eq!(m.put_buy_order(Origin::Signed(BUYER), 99, 10, 5), Err(MarketError::FirmNotFound));
    assert_eq!(m.free_balance(BUYER), 100);
    assert_eq!(m.nonce(), 0);
}

#[test]
fn buy_without_sellers_lists_and_reserves() {
    let mut m = listed_firm();
    m.set_free_balance(BUYER, 1000);
    assert_eq!(m.put_buy_order(Origin::Signed(BUYER), FIRM, 50, 4), Ok(()));
    let id = order_id(SEED, BUYER, 0);
    assert_eq!(
        m.buy_orders_list(FIRM),
        vec![BuyOrder { firm: FIRM, owner: BUYER, max_price: 4, amount: 50, order_id: id }]
    );
    assert_eq!(m.free_balance(BUYER), 800);
    assert_eq!(m.reserved_balance(BUYER), 200);
    assert_eq!(m.events().last(), Some(&Event::SubmittedBuyOrder(BUYER, FIRM, 50, 4, id)));
}

#[test]
fn sell_meets_a_standing_buy_order() {
    let mut m = listed_firm();
    m.set_free_balance(BUYER, 1000);
    assert_eq!(m.put_buy_order(Origin::Signed(BUYER), FIRM, 50, 4), Ok(()));
    assert_eq!(m.put_sell_order(Origin::Signed(FIRM), FIRM, 50, 3), Ok(()));
    assert!(m.buy_orders_list(FIRM).is_empty());
    assert!(m.sell_order_list(FIRM).is_empty());
    assert_eq!(m.owned_shares((BUYER, FIRM)), 50);
    assert_eq!(m.owned_shares((FIRM, FIRM)), 450);
    assert_eq!(m.free_balance(BUYER), 800);
    assert_eq!(m.reserved_balance(BUYER), 0);
    assert_eq!(m.free_balance(FIRM), 200);
    assert_eq!(m.last_bid_price(FIRM), 4);
    assert_eq!(m.nonce(), 1);
    assert_eq!(m.events().last(), Some(&Event::TransferredShares(FIRM, BUYER, FIRM, 50)));
}

#[test]
fn sell_meets_lowest_bid_first() {
    let mut m = listed_firm();
    m.set_free_balance(BUYER, 100);
    m.set_free_balance(BUYER2, 100);
    assert_eq!(m.put_buy_order(Origin::Signed(BUYER2), FIRM, 10, 8), Ok(()));
    assert_eq!(m.put_buy_order(Origin::Signed(BUYER), FIRM, 10, 3), Ok(()));
    assert_eq!(m.put_sell_order(Origin::Signed(FIRM), FIRM, 10, 2), Ok(()));
    assert_eq!(m.owned_shares((BUYER, FIRM)), 10);
    assert_eq!(m.owned_shares((BUYER2, FIRM)), 0);
    assert_eq!(m.free_balance(FIRM), 30);
    assert_eq!(m.free_balance(BUYER), 70);
    assert_eq!(m.reserved_balance(BUYER), 0);
    assert_eq!(m.reserved_balance(BUYER2), 80);
    let book = m.buy_orders_list(FIRM);
    assert_eq!(book.len(), 1);
    assert_eq!(book[0].owner, BUYER2);
}

#[test]
fn sell_leaves_bids_below_the_price() {
    let mut m = listed_firm();
    m.set_free_balance(BUYER, 100);
    assert_eq!(m.put_buy_order(Origin::Signed(BUYER), FIRM, 10, 3), Ok(()));
    assert_eq!(m.put_sell_order(Origin::Signed(FIRM), FIRM, 10, 4), Ok(()));
    assert_eq!(m.buy_orders_list(FIRM).len(), 1);
    assert_eq!(m.sell_order_list(FIRM).len(), 1);
    assert_eq!(m.locked_shares((FIRM, FIRM)), 10);
    assert_eq!(m.owned_shares((BUYER, FIRM)), 0);
}

#[test]
fn sell_cuts_down_a_larger_buy_order() {
    let mut m = listed_firm();
    m.set_free_balance(BUYER, 1000);
    assert_eq!(m.put_buy_order(Origin::Signed(BUYER), FIRM, 100, 5), Ok(()));
    assert_eq!(m.reserved_balance(BUYER), 500);
    assert_eq!(m.put_sell_order(Origin::Signed(FIRM), FIRM, 30, 5), Ok(()));
    // the buyer paid 150 for 30 shares; the rest of its order stands, re-reserved
    assert_eq!(m.owned_shares((BUYER, FIRM)), 30);
    assert_eq!(m.free_balance(FIRM), 150);
    assert_eq!(m.reserved_balance(BUYER), 350);
    assert_eq!(m.free_balance(BUYER), 500);
    let book = m.buy_orders_list(FIRM);
    assert_eq!(
        book,
        vec![BuyOrder { firm: FIRM, owner: BUYER, max_price: 5, amount: 70, order_id: order_id(SEED, FIRM, 1) }]
    );
    // everything was sold, so nothing is put on sale
    assert!(m.sell_order_list(FIRM).is_empty());
    assert_eq!(m.locked_shares((FIRM, FIRM)), 0);
    assert_eq!(m.owned_shares((FIRM, FIRM)), 470);
    assert_eq!(m.nonce(), 2);
}

#[test]
fn buy_meets_highest_ask_first() {
    let mut m = listed_firm();
    assert_eq!(m.put_sell_order(Origin::Signed(FIRM), FIRM, 10, 2), Ok(()));
    assert_eq!(m.put_sell_order(Origin::Signed(FIRM), FIRM, 10, 5), Ok(()));
    m.set_free_balance(BUYER, 100);
    assert_eq!(m.put_buy_order(Origin::Signed(BUYER), FIRM, 10, 6), Ok(()));
    assert_eq!(m.owned_shares((BUYER, FIRM)), 10);
    assert_eq!(m.free_balance(BUYER), 50);
    assert_eq!(m.free_balance(FIRM), 50);
    assert_eq!(m.last_bid_price(FIRM), 5);
    let book = m.sell_order_list(FIRM);
    assert_eq!(book.len(), 1);
    assert_eq!(book[0].min_price, 2);
    assert_eq!(m.locked_shares((FIRM, FIRM)), 10);
    assert!(m.buy_orders_list(FIRM).is_empty());
}

#[test]
fn buy_partially_fills_a_larger_sell_order() {
    let mut m = listed_firm();
    assert_eq!(m.put_sell_order(Origin::Signed(FIRM), FIRM, 100, 5), Ok(()));
    m.set_free_balance(BUYER, 1000);
    assert_eq!(m.put_buy_order(Origin::Signed(BUYER), FIRM, 60, 6), Ok(()));
    assert_eq!(m.owned_shares((BUYER, FIRM)), 60);
    assert_eq!(m.owned_shares((FIRM, FIRM)), 400);
    assert_eq!(m.locked_shares((FIRM, FIRM)), 40);
    assert_eq!(m.free_balance(FIRM), 300);
    // the cut-down rest is listed under a fresh id after the sell order,
    // which stays on the book as it was
    let id0 = order_id(SEED, FIRM, 0);
    let id1 = order_id(SEED, BUYER, 1);
    assert_eq!(
        m.sell_order_list(FIRM),
        vec![
            SellOrder { firm: FIRM, owner: FIRM, min_price: 5, amount: 100, order_id: id0 },
            SellOrder { firm: FIRM, owner: FIRM, min_price: 5, amount: 40, order_id: id1 },
        ]
    );
    // everything was bought, so no buy order is listed
    assert!(m.buy_orders_list(FIRM).is_empty());
    assert_eq!(m.free_balance(BUYER), 700);
    assert_eq!(m.reserved_balance(BUYER), 0);
    assert_eq!(m.nonce(), 2);
}

#[test]
fn lock_and_unlock_shares() {
    let mut m = listed_firm();
    assert_eq!(m.lock_shares(FIRM, FIRM, 501), Err(MarketError::LockNotEnough));
    assert_eq!(m.unlock_shares(FIRM, FIRM, 1), Err(MarketError::UnlockTooMuch));
    assert_eq!(m.lock_shares(FIRM, FIRM, 120), Ok(()));
    assert_eq!(m.owned_shares((FIRM, FIRM)), 380);
    assert_eq!(m.locked_shares((FIRM, FIRM)), 120);
    assert_eq!(m.unlock_shares(FIRM, FIRM, 120), Ok(()));
    assert_eq!(m.owned_shares((FIRM, FIRM)), 500);
    assert_eq!(m.locked_shares((FIRM, FIRM)), 0);
    assert_eq!(m.events().last(), Some(&Event::UnlockedShares(FIRM, FIRM, 120)));
}

#[test]
fn process_order_moves_shares_and_funds() {
    let mut m = listed_firm();
    m.set_free_balance(BUYER, 100);
    assert_eq!(m.process_order(FIRM, BUYER, FIRM, 10, 3), Ok(()));
    assert_eq!(m.owned_shares((FIRM, FIRM)), 490);
    assert_eq!(m.owned_shares((BUYER, FIRM)), 10);
    assert_eq!(m.free_balance(BUYER), 70);
    assert_eq!(m.free_balance(FIRM), 30);
    assert_eq!(m.last_bid_price(FIRM), 3);
}

#[test]
fn process_order_errors() {
    let mut m = listed_firm();
    m.set_free_balance(BUYER, 10);
    assert_eq!(m.process_order(FIRM, BUYER, FIRM, 2, u128::MAX), Err(MarketError::TotalPriceOverflow));
    assert_eq!(m.process_order(BUYER, FIRM, FIRM, 1, 1), Err(MarketError::TransferUnderflow));
    assert_eq!(
        m.process_order(FIRM, BUYER, FIRM, 10, 2),
        Err(MarketError::Currency(CurrencyError::BalanceTooLow))
    );
    assert_eq!(m.owned_shares((FIRM, FIRM)), 500);
    assert_eq!(m.free_balance(BUYER), 10);
}

#[test]
fn self_trade_keeps_holding() {
    let mut m = listed_firm();
    m.set_free_balance(FIRM, 100);
    assert_eq!(m.process_order(FIRM, FIRM, FIRM, 10, 3), Ok(()));
    assert_eq!(m.owned_shares((FIRM, FIRM)), 500);
    assert_eq!(m.free_balance(FIRM), 100);
}

#[test]
fn add_orders_directly() {
    let mut m = listed_firm();
    assert_eq!(m.add_sell_order_to_blockchain(FIRM, 99, FIRM, 5, 1), Err(MarketError::FirmNotFound));
    assert_eq!(m.add_buy_order_to_blockchain(BUYER, FIRM, BUYER, 5, 1), Err(MarketError::ReserveRefused));
    // the nonce moved on even though the reservation was refused
    assert_eq!(m.nonce(), 1);
    assert!(m.buy_orders_list(FIRM).is_empty());
    assert_eq!(m.add_sell_order_to_blockchain(BUYER, FIRM, BUYER, 5, 1), Err(MarketError::LockNotEnough));
    // a refused lock lists nothing, though the nonce moved on
    assert!(m.sell_order_list(FIRM).is_empty());
    assert_eq!(m.locked_shares((BUYER, FIRM)), 0);
    assert_eq!(m.nonce(), 2);
}

#[test]
fn generate_hash_moves_the_nonce() {
    let mut m = Module::new(SUDO);
    let mut seed = [0u8; 32];
    seed[0] = 9;
    m.set_random_seed(seed);
    let a = m.generate_hash(BUYER);
    let b = m.generate_hash(BUYER);
    assert_eq!(a, order_id(seed, BUYER, 0));
    assert_eq!(b, order_id(seed, BUYER, 1));
    assert_ne!(a, b);
    assert_eq!(m.nonce(), 2);
}

#[test]
fn dispatch_runs_calls() {
    let mut m = Module::new(SUDO);
    assert_eq!(m.dispatch(Origin::Signed(SUDO), Call::GiveIssueRights(FIRM, 100)), Ok(()));
    assert_eq!(m.dispatch(Origin::Signed(FIRM), Call::IssueShares(50)), Ok(()));
    assert_eq!(m.dispatch(Origin::Signed(FIRM), Call::PutSellOrder(FIRM, 10, 2)), Ok(()));
    m.set_free_balance(BUYER, 100);
    assert_eq!(m.dispatch(Origin::Signed(BUYER), Call::PutBuyOrder(FIRM, 10, 2)), Ok(()));
    assert_eq!(m.owned_shares((BUYER, FIRM)), 10);
    assert_eq!(m.dispatch(Origin::Signed(FIRM), Call::RetireShares(40)), Ok(()));
    assert_eq!(m.dispatch(Origin::Signed(SUDO), Call::ChangeAuthorizedShares(FIRM, 20)), Ok(()));
    assert_eq!(m.dispatch(Origin::Signed(SUDO), Call::RevokeIssueRights(FIRM)), Ok(()));
    assert_eq!(m.dispatch(Origin::Signed(SUDO), Call::CloseMarket), Ok(()));
    assert_eq!(m.dispatch(Origin::Signed(SUDO), Call::OpenMarket), Ok(()));
    assert_eq!(m.dispatch(Origin::Root, Call::CloseMarket), Err(MarketError::BadOrigin));
}

#[test]
fn balance_conversions() {
    assert_eq!(Module::u64_to_balance(7), 7u128);
    assert_eq!(Module::balance_to_u64(7), 7u64);
    assert_eq!(Module::balance_to_u64((1u128 << 64) + 3), 3u64);
}

#[test]
fn error_messages() {
    assert_eq!(MarketError::MarketFrozen.message(), "[Error]the market is frozen right now");
    assert_eq!(MarketError::BadOrigin.message(), "bad origin: expected to be a signed origin");
    assert_eq!(
        MarketError::Currency(CurrencyError::BalanceTooLow).message(),
        "balance too low to send value"
    );
}

#[test]
fn trading_conserves_shares_and_money() {
    let mut m = listed_firm();
    m.set_free_balance(BUYER, 1000);
    m.set_free_balance(BUYER2, 500);
    let accounts = [FIRM, BUYER, BUYER2];
    let shares = |m: &Module| -> u64 {
        accounts.iter().map(|a| m.owned_shares((*a, FIRM)) + m.locked_shares((*a, FIRM))).sum()
    };
    let money = |m: &Module| -> u128 {
        accounts.iter().map(|a| m.free_balance(*a) + m.reserved_balance(*a)).sum()
    };
    let calls = vec![
        (Origin::Signed(FIRM), Call::PutSellOrder(FIRM, 100, 5)),
        (Origin::Signed(BUYER), Call::PutBuyOrder(FIRM, 60, 6)),
        (Origin::Signed(BUYER2), Call::PutBuyOrder(FIRM, 30, 4)),
        (Origin::Signed(BUYER), Call::PutSellOrder(FIRM, 20, 3)),
        (Origin::Signed(FIRM), Call::PutSellOrder(FIRM, 50, 2)),
        (Origin::Signed(BUYER2), Call::PutBuyOrder(FIRM, 100, 5)),
        (Origin::Signed(FIRM), Call::IssueShares(100)),
        (Origin::Signed(FIRM), Call::RetireShares(10)),
    ];
    for (origin, call) in calls {
        let _ = m.dispatch(origin, call);
        assert_eq!(shares(&m), m.floating_shares(FIRM));
        assert_eq!(money(&m), 1500);
        assert!(m.floating_shares(FIRM) < m.authorized_shares(FIRM));
    }
}

#[test]
fn refused_lock_lists_no_sell_order() {
    let mut m = listed_firm();
    m.set_free_balance(BUYER, 100);
    assert_eq!(m.process_order(FIRM, BUYER, FIRM, 2, 1), Ok(()));
    assert_eq!(m.add_sell_order_to_blockchain(BUYER, FIRM, BUYER, 5, 3), Err(MarketError::LockNotEnough));
    assert!(m.sell_order_list(FIRM).is_empty());
    assert_eq!(m.owned_shares((BUYER, FIRM)), 2);
    assert_eq!(m.locked_shares((BUYER, FIRM)), 0);
    assert_eq!(m.add_sell_order_to_blockchain(BUYER, FIRM, BUYER, 5, 2), Ok(()));
    assert_eq!(m.sell_order_list(FIRM).len(), 1);
    assert_eq!(m.locked_shares((BUYER, FIRM)), 2);
}

#[test]
fn buy_orders_are_covered_by_reserved_funds() {
    let mut m = listed_firm();
    m.set_free_balance(BUYER, 1000);
    assert_eq!(m.put_buy_order(Origin::Signed(BUYER), FIRM, 10, 7), Ok(()));
    assert_eq!(m.put_buy_order(Origin::Signed(BUYER), FIRM, 20, 3), Ok(()));
    let book = m.buy_orders_list(FIRM);
    let owed: u128 = book.iter().map(|o| o.max_price * o.amount as u128).sum();
    assert_eq!(owed, 130);
    assert_eq!(m.reserved_balance(BUYER), owed);
    assert_ne!(book[0].order_id, book[1].order_id);
}
