use vstd::prelude::*;

use crate::books::{
    buys_matching, buys_under, buys_without, sells_matching, sells_over, sells_without, sorted_buys,
    sorted_sells,
};
use crate::hashing::order_id_for;
use crate::ledger::LedgerView;
use crate::types::{
    map_or, AccountId, Balance, BuyOrder, Call, Event, MarketError, OrderId, Origin, SellOrder,
};

verus! {

/// The key under which the holding of `holder` in `firm` is stored.
pub open spec fn holding_key(holder: AccountId, firm: AccountId) -> u128 {
    (holder as int * 0x1_0000_0000_0000_0000int + firm as int) as u128
}

/// The lower 64 bits of a balance, as the runtime converts a balance to a
/// `u64`.
pub open spec fn balance_low_u64(b: Balance) -> u64 {
    b as u64
}

/// The nonce after `n`: one more, wrapping at the top.
pub open spec fn next_nonce(n: u64) -> u64 {
    if n == u64::MAX {
        0
    } else {
        (n + 1) as u64
    }
}

/// The account that signed `origin`, if it was signed.
pub open spec fn signer(origin: Origin) -> Option<AccountId> {
    match origin {
        Origin::Signed(who) => Some(who),
        _ => None,
    }
}

/// How one pass of the matching loop ends: go on to the next order, stop
/// with the book and the shares still to trade, or abort with an error.
pub enum Flow<O> {
    Next(MarketView, Seq<O>, u64),
    Stop(MarketView, Seq<O>, u64),
    Abort(MarketView, MarketError),
}

/// The abstract state of the market module and of the parts of the runtime
/// it reads and writes: the currency, the sudo key, the block's random
/// seed and the events deposited so far.
#[verifier::ext_equal]
pub struct MarketView {
    /// Accounts that have issued shares.
    pub issuers: Seq<AccountId>,
    /// Shares each firm has issued.
    pub floating: Map<AccountId, u64>,
    /// Whether each firm may issue shares.
    pub allowed: Map<AccountId, bool>,
    /// Free shares, by `holding_key(holder, firm)`.
    pub owned: Map<u128, u64>,
    /// Shares locked in sell orders, by `holding_key(holder, firm)`.
    pub locked: Map<u128, u64>,
    /// The last traded price of each firm's shares.
    pub last_bid: Map<AccountId, Balance>,
    /// The most shares each firm may issue.
    pub authorized: Map<AccountId, u64>,
    /// Whether trading is frozen.
    pub closed: bool,
    /// Sell orders, by firm.
    pub sells: Map<AccountId, Seq<SellOrder>>,
    /// Buy orders, by firm.
    pub buys: Map<AccountId, Seq<BuyOrder>>,
    pub nonce: u64,
    pub sudo: AccountId,
    pub seed: [u8; 32],
    pub ledger: LedgerView,
    pub events: Seq<Event>,
}

impl MarketView {
    // ----- reading -----

    pub open spec fn floating_of(self, firm: AccountId) -> u64 {
        map_or(self.floating, firm, 0)
    }

    pub open spec fn allowed_of(self, firm: AccountId) -> bool {
        map_or(self.allowed, firm, false)
    }

    pub open spec fn owned_of(self, holder: AccountId, firm: AccountId) -> u64 {
        map_or(self.owned, holding_key(holder, firm), 0)
    }

    pub open spec fn locked_of(self, holder: AccountId, firm: AccountId) -> u64 {
        map_or(self.locked, holding_key(holder, firm), 0)
    }

    pub open spec fn last_bid_of(self, firm: AccountId) -> Balance {
        map_or(self.last_bid, firm, 0)
    }

    pub open spec fn authorized_of(self, firm: AccountId) -> u64 {
        map_or(self.authorized, firm, 0)
    }

    pub open spec fn sells_of(self, firm: AccountId) -> Seq<SellOrder> {
        map_or(self.sells, firm, Seq::empty())
    }

    pub open spec fn buys_of(self, firm: AccountId) -> Seq<BuyOrder> {
        map_or(self.buys, firm, Seq::empty())
    }

    pub open spec fn is_issuer(self, firm: AccountId) -> bool {
        self.issuers.contains(firm)
    }

    // ----- writing -----

    pub open spec fn with_floating(self, firm: AccountId, n: u64) -> MarketView {
        MarketView { floating: self.floating.insert(firm, n), ..self }
    }

    pub open spec fn with_allowed(self, firm: AccountId, b: bool) -> MarketView {
        MarketView { allowed: self.allowed.insert(firm, b), ..self }
    }

    pub open spec fn with_owned(self, holder: AccountId, firm: AccountId, n: u64) -> MarketView {
        MarketView { owned: self.owned.insert(holding_key(holder, firm), n), ..self }
    }

    pub open spec fn with_locked(self, holder: AccountId, firm: AccountId, n: u64) -> MarketView {
        MarketView { locked: self.locked.insert(holding_key(holder, firm), n), ..self }
    }

    pub open spec fn with_last_bid(self, firm: AccountId, price: Balance) -> MarketView {
        MarketView { last_bid: self.last_bid.insert(firm, price), ..self }
    }

    pub open spec fn with_authorized(self, firm: AccountId, n: u64) -> MarketView {
        MarketView { authorized: self.authorized.insert(firm, n), ..self }
    }

    pub open spec fn with_closed(self, closed: bool) -> MarketView {
        MarketView { closed, ..self }
    }

    pub open spec fn with_sells(self, firm: AccountId, book: Seq<SellOrder>) -> MarketView {
        MarketView { sells: self.sells.insert(firm, book), ..self }
    }

    pub open spec fn with_buys(self, firm: AccountId, book: Seq<BuyOrder>) -> MarketView {
        MarketView { buys: self.buys.insert(firm, book), ..self }
    }

    pub open spec fn with_issuers(self, issuers: Seq<AccountId>) -> MarketView {
        MarketView { issuers, ..self }
    }

    pub open spec fn with_nonce(self, nonce: u64) -> MarketView {
        MarketView { nonce, ..self }
    }

    pub open spec fn with_seed(self, seed: [u8; 32]) -> MarketView {
        MarketView { seed, ..self }
    }

    pub open spec fn with_ledger(self, ledger: LedgerView) -> MarketView {
        MarketView { ledger, ..self }
    }

    pub open spec fn emit(self, e: Event) -> MarketView {
        MarketView { events: self.events.push(e), ..self }
    }

    // ----- module helpers -----

    /// A fresh order id for `sender`, and the nonce moved on by one.
    pub open spec fn generate_hash(self, sender: AccountId) -> (MarketView, OrderId) {
        (self.with_nonce(next_nonce(self.nonce)), order_id_for(self.seed, sender, self.nonce))
    }

    /// Locking `amount` of `owner`'s shares in `firm`: they move from the
    /// owned to the locked holding.
    pub open spec fn lock_shares(self, owner: AccountId, firm: AccountId, amount: u64) -> (MarketView, Result<(), MarketError>) {
        let owned = self.owned_of(owner, firm);
        let locked = self.locked_of(owner, firm);
        if owned < amount {
            (self, Err(MarketError::LockNotEnough))
        } else if locked + amount > u64::MAX {
            (self, Err(MarketError::LockOverflow))
        } else {
            (
                self.with_locked(owner, firm, (locked + amount) as u64).with_owned(
                    owner,
                    firm,
                    (owned - amount) as u64,
                ).emit(Event::LockedShares(owner, firm, amount)),
                Ok(()),
            )
        }
    }

    /// Unlocking `amount` of `owner`'s locked shares in `firm`: they move
    /// back to the owned holding.
    pub open spec fn unlock_shares(self, owner: AccountId, firm: AccountId, amount: u64) -> (MarketView, Result<(), MarketError>) {
        let owned = self.owned_of(owner, firm);
        let locked = self.locked_of(owner, firm);
        if locked < amount {
            (self, Err(MarketError::UnlockTooMuch))
        } else if amount + owned > u64::MAX {
            (self, Err(MarketError::UnlockOverflow))
        } else {
            (
                self.with_owned(owner, firm, (amount + owned) as u64).with_locked(
                    owner,
                    firm,
                    (locked - amount) as u64,
                ).emit(Event::UnlockedShares(owner, firm, amount)),
                Ok(()),
            )
        }
    }

    /// `from` hands `amount` shares of `firm` to `to`, and `to` pays `from`
    /// `price_per_share` for each; the price becomes the firm's last bid.
    /// A trade with oneself leaves the holding as it was.
    pub open spec fn process_order(
        self,
        from: AccountId,
        to: AccountId,
        firm: AccountId,
        amount: u64,
        price_per_share: Balance,
    ) -> (MarketView, Result<(), MarketError>) {
        let before = self.owned_of(from, firm);
        let receiver = self.owned_of(to, firm);
        if price_per_share * amount > u128::MAX {
            (self, Err(MarketError::TotalPriceOverflow))
        } else if before < amount {
            (self, Err(MarketError::TransferUnderflow))
        } else if receiver + amount > u64::MAX {
            (self, Err(MarketError::TransferOverflow))
        } else {
            let added = if from == to {
                before
            } else {
                (receiver + amount) as u64
            };
            let (ledger, paid) = self.ledger.transfer(
                to,
                from,
                (price_per_share * amount) as u128,
            );
            match paid {
                Err(e) => (self, Err(MarketError::Currency(e))),
                Ok(_) => (
                    self.with_ledger(ledger).with_owned(from, firm, (before - amount) as u64).with_owned(
                        to,
                        firm,
                        added,
                    ).with_last_bid(firm, price_per_share).emit(
                        Event::TransferredShares(from, to, firm, amount),
                    ),
                    Ok(()),
                ),
            }
        }
    }

    /// Locking `owner`'s shares for the sell order `order_id` of `from`,
    /// then listing it. A refused lock leaves the book as it was.
    pub open spec fn place_sell_order(
        self,
        from: AccountId,
        firm: AccountId,
        owner: AccountId,
        min_price: Balance,
        amount: u64,
        order_id: OrderId,
    ) -> (MarketView, Result<(), MarketError>) {
        let order = SellOrder { firm, owner: from, min_price, amount, order_id };
        let (v1, locked) = self.lock_shares(owner, firm, amount);
        match locked {
            Err(e) => (v1, Err(e)),
            Ok(_) => (
                v1.with_sells(firm, v1.sells_of(firm).push(order)).emit(
                    Event::SubmittedSellOrder(owner, firm, amount, min_price, order_id),
                ),
                Ok(()),
            ),
        }
    }

    /// Locking `owner`'s shares for a sell order of `from` and listing it
    /// under a fresh id; the nonce moves on even when the lock is refused.
    pub open spec fn add_sell_order(
        self,
        from: AccountId,
        firm: AccountId,
        owner: AccountId,
        min_price: Balance,
        amount: u64,
    ) -> (MarketView, Result<(), MarketError>) {
        if !self.is_issuer(firm) {
            (self, Err(MarketError::FirmNotFound))
        } else {
            let (v1, id) = self.generate_hash(from);
            v1.place_sell_order(from, firm, owner, min_price, amount, id)
        }
    }

    /// Reserving the whole price of the buy order `order_id` of `from` from
    /// `owner`, then listing it.
    pub open spec fn place_buy_order(
        self,
        from: AccountId,
        firm: AccountId,
        owner: AccountId,
        max_price: Balance,
        amount: u64,
        order_id: OrderId,
    ) -> (MarketView, Result<(), MarketError>) {
        let order = BuyOrder { firm, owner: from, max_price, amount, order_id };
        if max_price * amount > u128::MAX {
            (self, Err(MarketError::TotalPriceOverflow))
        } else {
            let (ledger, reserved) = self.ledger.reserve(owner, (max_price * amount) as u128);
            match reserved {
                Err(_) => (self, Err(MarketError::ReserveRefused)),
                Ok(_) => (
                    self.with_ledger(ledger).with_buys(firm, self.buys_of(firm).push(order)).emit(
                        Event::SubmittedBuyOrder(owner, firm, amount, max_price, order_id),
                    ),
                    Ok(()),
                ),
            }
        }
    }

    /// Listing a buy order of `from` under a fresh id after reserving its
    /// whole price from `owner`. The nonce moves on even when the
    /// reservation is refused.
    pub open spec fn add_buy_order(
        self,
        from: AccountId,
        firm: AccountId,
        owner: AccountId,
        max_price: Balance,
        amount: u64,
    ) -> (MarketView, Result<(), MarketError>) {
        if !self.is_issuer(firm) {
            (self, Err(MarketError::FirmNotFound))
        } else {
            let (v1, id) = self.generate_hash(from);
            v1.place_buy_order(from, firm, owner, max_price, amount, id)
        }
    }

    // ----- matching a sell order against the buy book -----

    /// One buy order met by a seller who still has `rem` shares to sell.
    /// The buyer's reservation for the whole order is released, then the
    /// trade is made at the buyer's price; a refused trade moves on to the
    /// next order. A buy order larger than what is left takes all of it: it
    /// is replaced by its rest under a fresh id, with the rest reserved
    /// again, and matching stops with nothing left to sell.
    pub open spec fn sell_step(
        self,
        temp: Seq<BuyOrder>,
        rem: u64,
        order: BuyOrder,
        sender: AccountId,
        firm: AccountId,
    ) -> Flow<BuyOrder> {
        if rem == 0 {
            Flow::Stop(self, temp, rem)
        } else if order.max_price * order.amount > u128::MAX {
            Flow::Abort(self, MarketError::TotalPriceOverflow)
        } else {
            let v1 = self.with_ledger(
                self.ledger.unreserve(order.owner, (order.max_price * order.amount) as u128),
            );
            if order.amount <= rem {
                let (v2, traded) = v1.process_order(sender, order.owner, firm, order.amount, order.max_price);
                match traded {
                    Err(_) => Flow::Next(v2, temp, rem),
                    Ok(_) => Flow::Next(
                        v2,
                        buys_without(temp, order.order_id),
                        (rem - order.amount) as u64,
                    ),
                }
            } else {
                let (v2, traded) = v1.process_order(sender, order.owner, firm, rem, order.max_price);
                match traded {
                    Err(_) => Flow::Next(v2, temp, rem),
                    Ok(_) => {
                        let selling = (order.amount - rem) as u64;
                        let t1 = buys_without(temp, order.order_id);
                        let (v3, id) = v2.generate_hash(sender);
                        let fresh = BuyOrder {
                            firm: order.firm,
                            owner: order.owner,
                            max_price: order.max_price,
                            amount: selling,
                            order_id: id,
                        };
                        let (ledger, reserved) = v3.ledger.reserve(
                            order.owner,
                            (order.max_price * selling) as u128,
                        );
                        match reserved {
                            Err(_) => Flow::Abort(v3, MarketError::CannotAffordLock),
                            Ok(_) => Flow::Stop(v3.with_ledger(ledger), t1.push(fresh), 0),
                        }
                    },
                }
            }
        }
    }

    /// The matching loop of a sell order, from the `i`-th order of `snap` on.
    pub open spec fn sell_loop(
        self,
        temp: Seq<BuyOrder>,
        rem: u64,
        snap: Seq<BuyOrder>,
        i: int,
        sender: AccountId,
        firm: AccountId,
    ) -> Flow<BuyOrder>
        decreases snap.len() - i,
    {
        if i < 0 || i >= snap.len() {
            Flow::Stop(self, temp, rem)
        } else {
            match self.sell_step(temp, rem, snap[i], sender, firm) {
                Flow::Next(v, t, r) => v.sell_loop(t, r, snap, i + 1, sender, firm),
                other => other,
            }
        }
    }

    /// What is left of a sell order after matching goes on sale.
    pub open spec fn list_sell_rest(self, sender: AccountId, firm: AccountId, min_price: Balance, rem: u64) -> (MarketView, Result<(), MarketError>) {
        if rem > 0 {
            self.add_sell_order(sender, firm, sender, min_price, rem)
        } else {
            (self, Ok(()))
        }
    }

    /// `put_sell_order`: the buy orders of `firm` that bid at least
    /// `min_price` are met from the lowest bid up (equal bids in book
    /// order), and whatever is not sold is listed as a sell order.
    pub open spec fn put_sell_order(self, origin: Origin, firm: AccountId, amount: u64, min_price: Balance) -> (MarketView, Result<(), MarketError>) {
        match signer(origin) {
            None => (self, Err(MarketError::BadOrigin)),
            Some(sender) => if self.closed {
                (self, Err(MarketError::MarketFrozen))
            } else if balance_low_u64(min_price) == 0 {
                (self, Err(MarketError::ZeroSellPrice))
            } else if self.owned_of(sender, firm) < amount {
                (self, Err(MarketError::NotEnoughShares))
            } else {
                let book = self.buys_of(firm);
                let candidates = buys_matching(book, min_price);
                if candidates.len() > 0 {
                    let snap = sorted_buys(candidates);
                    match self.sell_loop(snap, amount, snap, 0, sender, firm) {
                        Flow::Abort(v, e) => (v, Err(e)),
                        Flow::Stop(v, t, rem) => v.with_buys(firm, buys_under(book, min_price) + t).list_sell_rest(
                            sender,
                            firm,
                            min_price,
                            rem,
                        ),
                        Flow::Next(v, t, rem) => (v, Ok(())),
                    }
                } else {
                    self.list_sell_rest(sender, firm, min_price, amount)
                }
            },
        }
    }

    // ----- matching a buy order against the sell book -----

    /// One sell order met by a buyer who still wants `rem` shares. The
    /// seller's shares are unlocked and then traded at the seller's price;
    /// a refused unlock or trade moves on to the next order. A sell order
    /// larger than what is left gives all of it: its rest is listed under a
    /// fresh id after it, the order itself staying on the book as it was,
    /// and matching stops with nothing left to buy.
    pub open spec fn buy_step(
        self,
        temp: Seq<SellOrder>,
        rem: u64,
        order: SellOrder,
        sender: AccountId,
        firm: AccountId,
    ) -> Flow<SellOrder> {
        if rem == 0 {
            Flow::Stop(self, temp, rem)
        } else if order.amount <= rem {
            let (v1, unlocked) = self.unlock_shares(order.owner, order.firm, order.amount);
            match unlocked {
                Err(_) => Flow::Next(v1, temp, rem),
                Ok(_) => {
                    let (v2, traded) = v1.process_order(order.owner, sender, firm, order.amount, order.min_price);
                    match traded {
                        Err(_) => Flow::Next(v2, temp, rem),
                        Ok(_) => Flow::Next(
                            v2,
                            sells_without(temp, order.order_id),
                            (rem - order.amount) as u64,
                        ),
                    }
                },
            }
        } else {
            let left = (order.amount - rem) as u64;
            let (v1, unlocked) = self.unlock_shares(order.owner, order.firm, rem);
            match unlocked {
                Err(_) => Flow::Next(v1, temp, rem),
                Ok(_) => {
                    let (v2, traded) = v1.process_order(order.owner, sender, firm, rem, order.min_price);
                    match traded {
                        Err(_) => Flow::Next(v2, temp, rem),
                        Ok(_) => {
                            let (v3, id) = v2.generate_hash(sender);
                            let rest = SellOrder {
                                firm: order.firm,
                                owner: order.owner,
                                min_price: order.min_price,
                                amount: left,
                                order_id: id,
                            };
                            Flow::Stop(v3, temp.push(rest), 0)
                        },
                    }
                },
            }
        }
    }

    /// The matching loop of a buy order, from the `i`-th order of `snap` on.
    pub open spec fn buy_loop(
        self,
        temp: Seq<SellOrder>,
        rem: u64,
        snap: Seq<SellOrder>,
        i: int,
        sender: AccountId,
        firm: AccountId,
    ) -> Flow<SellOrder>
        decreases snap.len() - i,
    {
        if i < 0 || i >= snap.len() {
            Flow::Stop(self, temp, rem)
        } else {
            match self.buy_step(temp, rem, snap[i], sender, firm) {
                Flow::Next(v, t, r) => v.buy_loop(t, r, snap, i + 1, sender, firm),
                other => other,
            }
        }
    }

    /// What is left of a buy order after matching is listed.
    pub open spec fn list_buy_rest(self, sender: AccountId, firm: AccountId, max_price: Balance, rem: u64) -> (MarketView, Result<(), MarketError>) {
        if rem > 0 {
            self.add_buy_order(sender, firm, sender, max_price, rem)
        } else {
            (self, Ok(()))
        }
    }

    /// `put_buy_order`: the sell orders of `firm` that ask at most
    /// `max_price` are met from the highest ask down (equal asks in book
    /// order), and whatever is not bought is listed as a buy order.
    pub open spec fn put_buy_order(self, origin: Origin, firm: AccountId, amount: u64, max_price: Balance) -> (MarketView, Result<(), MarketError>) {
        match signer(origin) {
            None => (self, Err(MarketError::BadOrigin)),
            Some(sender) => if self.closed {
                (self, Err(MarketError::MarketFrozen))
            } else if balance_low_u64(max_price) == 0 {
                (self, Err(MarketError::ZeroBuyPrice))
            } else if max_price * amount > u128::MAX {
                (self, Err(MarketError::TotalPriceOverflow))
            } else if self.ledger.free_of(sender) < max_price * amount {
                (self, Err(MarketError::NotEnoughFreeBalance))
            } else {
                let book = self.sells_of(firm);
                let candidates = sells_matching(book, max_price);
                if candidates.len() > 0 {
                    let snap = sorted_sells(candidates);
                    match self.buy_loop(snap, amount, snap, 0, sender, firm) {
                        Flow::Abort(v, e) => (v, Err(e)),
                        Flow::Stop(v, t, rem) => v.with_sells(firm, sells_over(book, max_price) + t).list_buy_rest(
                            sender,
                            firm,
                            max_price,
                            rem,
                        ),
                        Flow::Next(v, t, rem) => (v, Ok(())),
                    }
                } else {
                    self.list_buy_rest(sender, firm, max_price, amount)
                }
            },
        }
    }

    // ----- rights, limits, issuing, the market switch -----

    /// `give_issue_rights`: the sudo key lets `firm` issue shares; the
    /// limit is set only where none was set before.
    pub open spec fn give_issue_rights(self, origin: Origin, firm: AccountId, authorized_shares: u64) -> (MarketView, Result<(), MarketError>) {
        match signer(origin) {
            None => (self, Err(MarketError::BadOrigin)),
            Some(sender) => if sender != self.sudo {
                (self, Err(MarketError::NotSudo))
            } else if sender == firm {
                (self, Err(MarketError::SelfGrant))
            } else if self.allowed_of(firm) {
                (self, Err(MarketError::AlreadyAllowed))
            } else if self.authorized_of(firm) == 0 && authorized_shares == 0 {
                (self, Err(MarketError::ZeroLimit))
            } else {
                let v1 = if self.authorized_of(firm) == 0 {
                    self.with_authorized(firm, authorized_shares)
                } else {
                    self
                };
                (
                    v1.with_allowed(firm, true).emit(Event::GaveFirmIssueRight(firm, authorized_shares)),
                    Ok(()),
                )
            },
        }
    }

    /// `revoke_issue_rights`: the sudo key takes the right to issue away.
    pub open spec fn revoke_issue_rights(self, origin: Origin, firm: AccountId) -> (MarketView, Result<(), MarketError>) {
        match signer(origin) {
            None => (self, Err(MarketError::BadOrigin)),
            Some(sender) => if sender != self.sudo {
                (self, Err(MarketError::NotSudo))
            } else if sender == firm {
                (self, Err(MarketError::SelfRevoke))
            } else if !self.allowed_of(firm) {
                (self, Err(MarketError::AlreadyNotAllowed))
            } else {
                (self.with_allowed(firm, false).emit(Event::RevokedFirmIssueRight(firm)), Ok(()))
            },
        }
    }

    /// `change_authorized_shares`: the sudo key sets a new limit, which
    /// must exceed what the firm has issued.
    pub open spec fn change_authorized_shares(self, origin: Origin, firm: AccountId, new_limit: u64) -> (MarketView, Result<(), MarketError>) {
        match signer(origin) {
            None => (self, Err(MarketError::BadOrigin)),
            Some(sender) => if sender != self.sudo {
                (self, Err(MarketError::NotSudo))
            } else if !self.allowed_of(firm) {
                (self, Err(MarketError::FirmNotAllowed))
            } else if sender == firm {
                (self, Err(MarketError::OwnLimit))
            } else if new_limit <= self.floating_of(firm) {
                (self, Err(MarketError::LimitBelowIssued))
            } else {
                (
                    self.with_authorized(firm, new_limit).emit(Event::AdjustedAuthorizedStock(firm, new_limit)),
                    Ok(()),
                )
            },
        }
    }

    /// `issue_shares`: a firm with the right to issue adds `amount` shares
    /// to its floating shares, staying below its limit, and receives them.
    pub open spec fn issue_shares(self, origin: Origin, amount: u64) -> (MarketView, Result<(), MarketError>) {
        match signer(origin) {
            None => (self, Err(MarketError::BadOrigin)),
            Some(sender) => {
                let floating = self.floating_of(sender);
                let held = self.owned_of(sender, sender);
                if !self.allowed_of(sender) {
                    (self, Err(MarketError::IssueNotAllowed))
                } else if floating + amount > u64::MAX {
                    (self, Err(MarketError::IssueOverflow))
                } else if floating + amount >= self.authorized_of(sender) {
                    (self, Err(MarketError::AuthorizedReached))
                } else if held + amount > u64::MAX {
                    (self, Err(MarketError::HoldingOverflow))
                } else {
                    let v1 = if self.is_issuer(sender) {
                        self
                    } else {
                        self.with_issuers(self.issuers.push(sender))
                    };
                    (
                        v1.with_floating(sender, (floating + amount) as u64).with_owned(
                            sender,
                            sender,
                            (held + amount) as u64,
                        ).emit(Event::IssuedShares(sender, amount)),
                        Ok(()),
                    )
                }
            },
        }
    }

    /// `retire_shares`: a firm burns `amount` of its own shares; a firm
    /// left with no floating shares leaves the issuer list.
    pub open spec fn retire_shares(self, origin: Origin, amount: u64) -> (MarketView, Result<(), MarketError>) {
        match signer(origin) {
            None => (self, Err(MarketError::BadOrigin)),
            Some(sender) => {
                let held = self.owned_of(sender, sender);
                let floating = self.floating_of(sender);
                if held < amount {
                    (self, Err(MarketError::RetireNotEnough))
                } else if floating < amount {
                    (self, Err(MarketError::FloatingUnderflow))
                } else {
                    let v1 = if self.is_issuer(sender) && floating - amount == 0 {
                        self.with_issuers(self.issuers.filter(|x: AccountId| x != sender))
                    } else {
                        self
                    };
                    (
                        v1.with_owned(sender, sender, (held - amount) as u64).with_floating(
                            sender,
                            (floating - amount) as u64,
                        ).emit(Event::RetiredShares(sender, amount)),
                        Ok(()),
                    )
                }
            },
        }
    }

    /// `close_market`: the sudo key freezes trading.
    pub open spec fn close_market(self, origin: Origin) -> (MarketView, Result<(), MarketError>) {
        match signer(origin) {
            None => (self, Err(MarketError::BadOrigin)),
            Some(sender) => if sender != self.sudo {
                (self, Err(MarketError::NotSudo))
            } else if self.closed {
                (self, Err(MarketError::AlreadyFrozen))
            } else {
                (self.with_closed(true).emit(Event::MarketFrozen(sender, true)), Ok(()))
            },
        }
    }

    /// `open_market`: the sudo key lets trading resume.
    pub open spec fn open_market(self, origin: Origin) -> (MarketView, Result<(), MarketError>) {
        match signer(origin) {
            None => (self, Err(MarketError::BadOrigin)),
            Some(sender) => if sender != self.sudo {
                (self, Err(MarketError::NotSudo))
            } else if !self.closed {
                (self, Err(MarketError::AlreadyOpen))
            } else {
                (self.with_closed(false).emit(Event::MarketFrozen(sender, false)), Ok(()))
            },
        }
    }
    /// A dispatched call.
    pub open spec fn dispatch(self, origin: Origin, call: Call) -> (MarketView, Result<(), MarketError>) {
        match call {
            Call::PutSellOrder(firm, amount, min_price) => self.put_sell_order(origin, firm, amount, min_price),
            Call::PutBuyOrder(firm, amount, max_price) => self.put_buy_order(origin, firm, amount, max_price),
            Call::GiveIssueRights(firm, authorized) => self.give_issue_rights(origin, firm, authorized),
            Call::RevokeIssueRights(firm) => self.revoke_issue_rights(origin, firm),
            Call::ChangeAuthorizedShares(firm, new_limit) => self.change_authorized_shares(origin, firm, new_limit),
            Call::IssueShares(amount) => self.issue_shares(origin, amount),
            Call::RetireShares(amount) => self.retire_shares(origin, amount),
            Call::CloseMarket => self.close_market(origin),
            Call::OpenMarket => self.open_market(origin),
        }
    }
}

} // verus!
