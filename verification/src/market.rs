use vstd::prelude::*;
use std::collections::HashMap;

use crate::books::{
    buys_matching, copy_buys, copy_sells, buys_under, remove_buy, remove_sell, select_buys_matching, select_buys_under,
    select_sells_matching, select_sells_over, sells_matching, sells_over, sort_buys, sort_sells,
    sorted_buys, sorted_sells,
};
use crate::hashing::order_id;
use crate::ledger::Ledger;
use crate::model::{holding_key, Flow, MarketView};
use crate::types::{
    map_or, AccountId, Balance, BuyOrder, Call, Event, MarketError, OrderId, Origin, SellOrder,
};

verus! {

broadcast use vstd::std_specs::hash::group_hash_axioms;

/// The secondary market module: its storage, together with the currency,
/// sudo key, random seed and event log of the runtime it runs in.
pub struct Module {
    issuer_list: Vec<AccountId>,
    floating_shares: HashMap<AccountId, u64>,
    is_allowed_issue: HashMap<AccountId, bool>,
    owned_shares: HashMap<u128, u64>,
    locked_shares: HashMap<u128, u64>,
    last_bid_price: HashMap<AccountId, Balance>,
    authorized_shares: HashMap<AccountId, u64>,
    market_closed: bool,
    sell_orders: HashMap<AccountId, Vec<SellOrder>>,
    buy_orders: HashMap<AccountId, Vec<BuyOrder>>,
    nonce: u64,
    sudo_key: AccountId,
    random_seed: [u8; 32],
    currency: Ledger,
    events: Vec<Event>,
}

impl View for Module {
    type V = MarketView;

    closed spec fn view(&self) -> MarketView {
        MarketView {
            issuers: self.issuer_list@,
            floating: self.floating_shares@,
            allowed: self.is_allowed_issue@,
            owned: self.owned_shares@,
            locked: self.locked_shares@,
            last_bid: self.last_bid_price@,
            authorized: self.authorized_shares@,
            closed: self.market_closed,
            sells: Map::new(
                |k: AccountId| self.sell_orders@.contains_key(k),
                |k: AccountId| self.sell_orders@[k]@,
            ),
            buys: Map::new(
                |k: AccountId| self.buy_orders@.contains_key(k),
                |k: AccountId| self.buy_orders@[k]@,
            ),
            nonce: self.nonce,
            sudo: self.sudo_key,
            seed: self.random_seed,
            ledger: self.currency@,
            events: self.events@,
        }
    }
}

/// The storage key of the holding of `holder` in `firm`.
fn holding_key_of(holder: AccountId, firm: AccountId) -> (k: u128)
    ensures
        k == holding_key(holder, firm),
{
    assert(holder as int * 0x1_0000_0000_0000_0000int + firm as int <= u128::MAX) by (nonlinear_arith)
        requires
            holder <= u64::MAX,
            firm <= u64::MAX,
    ;
    (holder as u128) * 0x1_0000_0000_0000_0000u128 + (firm as u128)
}

fn read_u64<K: core::hash::Hash + Eq>(m: &HashMap<K, u64>, k: &K) -> (r: u64)
    requires
        vstd::std_specs::hash::obeys_key_model::<K>(),
    ensures
        r == map_or(m@, *k, 0),
{
    match m.get(k) {
        Some(v) => *v,
        None => 0,
    }
}

impl Module {
    /// The module's holdings, balances and order books are finite maps, so
    /// that shares, money and listed orders can be counted.
    pub proof fn lemma_counts_finite(&self)
        ensures
            crate::conservation::holdings_finite(self@),
            crate::conservation::ledger_finite(self@.ledger),
            self@.buys.dom().finite(),
            self@.sells.dom().finite(),
    {
        vstd::std_specs::hash::axiom_hashmap_view_finite_dom(self.buy_orders);
        vstd::std_specs::hash::axiom_hashmap_view_finite_dom(self.sell_orders);
        assert(self@.buys.dom() =~= self.buy_orders@.dom());
        assert(self@.sells.dom() =~= self.sell_orders@.dom());
        vstd::std_specs::hash::axiom_hashmap_view_finite_dom(self.owned_shares);
        vstd::std_specs::hash::axiom_hashmap_view_finite_dom(self.locked_shares);
        self.currency.lemma_finite();
    }

    /// A module with empty storage, an open market, `sudo_key` as the sudo
    /// key, an all-zero random seed and a currency in which nobody holds
    /// anything.
    pub fn new(sudo_key: AccountId) -> (m: Module)
        ensures
            m@.issuers == Seq::<AccountId>::empty(),
            m@.floating == Map::<AccountId, u64>::empty(),
            m@.allowed == Map::<AccountId, bool>::empty(),
            m@.owned == Map::<u128, u64>::empty(),
            m@.locked == Map::<u128, u64>::empty(),
            m@.last_bid == Map::<AccountId, Balance>::empty(),
            m@.authorized == Map::<AccountId, u64>::empty(),
            !m@.closed,
            m@.sells == Map::<AccountId, Seq<SellOrder>>::empty(),
            m@.buys == Map::<AccountId, Seq<BuyOrder>>::empty(),
            m@.nonce == 0,
            m@.sudo == sudo_key,
            forall|i: int| 0 <= i < 32 ==> m@.seed[i] == 0u8,
            m@.ledger.free == Map::<AccountId, Balance>::empty(),
            m@.ledger.reserved == Map::<AccountId, Balance>::empty(),
            m@.events == Seq::<Event>::empty(),
            crate::conservation::shares_balanced(m@),
    {
        let m = Module {
            issuer_list: Vec::new(),
            floating_shares: HashMap::new(),
            is_allowed_issue: HashMap::new(),
            owned_shares: HashMap::new(),
            locked_shares: HashMap::new(),
            last_bid_price: HashMap::new(),
            authorized_shares: HashMap::new(),
            market_closed: false,
            sell_orders: HashMap::new(),
            buy_orders: HashMap::new(),
            nonce: 0,
            sudo_key,
            random_seed: [0u8; 32],
            currency: Ledger::new(),
            events: Vec::new(),
        };
        assert(m@.sells =~= Map::<AccountId, Seq<SellOrder>>::empty());
        assert(m@.buys =~= Map::<AccountId, Seq<BuyOrder>>::empty());
        proof {
            crate::conservation::law_empty_market_balanced(m@);
        }
        m
    }

    /// Converts a `u64` to a balance.
    pub fn u64_to_balance(input: u64) -> (r: Balance)
        ensures
            r == input,
    {
        input as u128
    }

    /// Converts a balance to a `u64`, keeping its lower 64 bits.
    pub fn balance_to_u64(input: Balance) -> (r: u64)
        ensures
            r == input as u64,
    {
        input as u64
    }

    // ----- the runtime around the module -----

    /// Sets the random seed of the current block.
    pub fn set_random_seed(&mut self, seed: [u8; 32])
        ensures
            final(self)@ == old(self)@.with_seed(seed),
    {
        self.random_seed = seed;
        assert(self@.sells =~= old(self)@.sells);
        assert(self@.buys =~= old(self)@.buys);
    }

    /// Sets `who`'s free balance in the currency, as a genesis endowment.
    pub fn set_free_balance(&mut self, who: AccountId, amount: Balance)
        ensures
            final(self)@ == old(self)@.with_ledger(old(self)@.ledger.with_free(who, amount)),
    {
        self.currency.set_free_balance(who, amount);
        assert(self@.sells =~= old(self)@.sells);
        assert(self@.buys =~= old(self)@.buys);
    }

    pub fn free_balance(&self, who: AccountId) -> (r: Balance)
        ensures
            r == self@.ledger.free_of(who),
    {
        self.currency.free_balance(who)
    }

    pub fn reserved_balance(&self, who: AccountId) -> (r: Balance)
        ensures
            r == self@.ledger.reserved_of(who),
    {
        self.currency.reserved_balance(who)
    }

    /// The events deposited so far, oldest first.
    pub fn events(&self) -> (r: &Vec<Event>)
        ensures
            r@ == self@.events,
    {
        &self.events
    }

    // ----- storage getters -----

    pub fn issuer_list(&self) -> (r: Vec<AccountId>)
        ensures
            r@ == self@.issuers,
    {
        let mut out: Vec<AccountId> = Vec::new();
        let mut i: usize = 0;
        while i < self.issuer_list.len()
            invariant
                i <= self.issuer_list.len(),
                out@ == self.issuer_list@.take(i as int),
            decreases self.issuer_list.len() - i,
        {
            out.push(self.issuer_list[i]);
            i = i + 1;
            assert(out@ =~= self.issuer_list@.take(i as int));
        }
        assert(out@ =~= self.issuer_list@);
        out
    }

    pub fn floating_shares(&self, firm: AccountId) -> (r: u64)
        ensures
            r == self@.floating_of(firm),
    {
        read_u64(&self.floating_shares, &firm)
    }

    pub fn is_allowed_issue(&self, firm: AccountId) -> (r: bool)
        ensures
            r == self@.allowed_of(firm),
    {
        match self.is_allowed_issue.get(&firm) {
            Some(b) => *b,
            None => false,
        }
    }

    /// The shares of `key.1` that `key.0` owns.
    pub fn owned_shares(&self, key: (AccountId, AccountId)) -> (r: u64)
        ensures
            r == self@.owned_of(key.0, key.1),
    {
        read_u64(&self.owned_shares, &holding_key_of(key.0, key.1))
    }

    /// The shares of `key.1` that `key.0` has locked.
    pub fn locked_shares(&self, key: (AccountId, AccountId)) -> (r: u64)
        ensures
            r == self@.locked_of(key.0, key.1),
    {
        read_u64(&self.locked_shares, &holding_key_of(key.0, key.1))
    }

    pub fn last_bid_price(&self, firm: AccountId) -> (r: Balance)
        ensures
            r == self@.last_bid_of(firm),
    {
        match self.last_bid_price.get(&firm) {
            Some(p) => *p,
            None => 0,
        }
    }

    pub fn authorized_shares(&self, firm: AccountId) -> (r: u64)
        ensures
            r == self@.authorized_of(firm),
    {
        read_u64(&self.authorized_shares, &firm)
    }

    pub fn market_closed(&self) -> (r: bool)
        ensures
            r == self@.closed,
    {
        self.market_closed
    }

    pub fn nonce(&self) -> (r: u64)
        ensures
            r == self@.nonce,
    {
        self.nonce
    }

    pub fn sell_order_list(&self, firm: AccountId) -> (r: Vec<SellOrder>)
        ensures
            r@ == self@.sells_of(firm),
    {
        let mut out: Vec<SellOrder> = Vec::new();
        match self.sell_orders.get(&firm) {
            None => {},
            Some(book) => {
                let mut i: usize = 0;
                while i < book.len()
                    invariant
                        i <= book.len(),
                        out@ == book@.take(i as int),
                    decreases book.len() - i,
                {
                    out.push(book[i]);
                    i = i + 1;
                    assert(out@ =~= book@.take(i as int));
                }
                assert(out@ =~= book@);
            },
        }
        out
    }

    pub fn buy_orders_list(&self, firm: AccountId) -> (r: Vec<BuyOrder>)
        ensures
            r@ == self@.buys_of(firm),
    {
        let mut out: Vec<BuyOrder> = Vec::new();
        match self.buy_orders.get(&firm) {
            None => {},
            Some(book) => {
                let mut i: usize = 0;
                while i < book.len()
                    invariant
                        i <= book.len(),
                        out@ == book@.take(i as int),
                    decreases book.len() - i,
                {
                    out.push(book[i]);
                    i = i + 1;
                    assert(out@ =~= book@.take(i as int));
                }
                assert(out@ =~= book@);
            },
        }
        out
    }

    // ----- writing the order books and the event log -----

    fn put_sell_book(&mut self, firm: AccountId, book: Vec<SellOrder>)
        ensures
            final(self)@ == old(self)@.with_sells(firm, book@),
    {
        let ghost b = book@;
        self.sell_orders.insert(firm, book);
        assert(self@.sells =~= old(self)@.sells.insert(firm, b));
        assert(self@.buys =~= old(self)@.buys);
    }

    fn put_buy_book(&mut self, firm: AccountId, book: Vec<BuyOrder>)
        ensures
            final(self)@ == old(self)@.with_buys(firm, book@),
    {
        let ghost b = book@;
        self.buy_orders.insert(firm, book);
        assert(self@.buys =~= old(self)@.buys.insert(firm, b));
        assert(self@.sells =~= old(self)@.sells);
    }

    fn deposit_event(&mut self, e: Event)
        ensures
            final(self)@ == old(self)@.emit(e),
    {
        self.events.push(e);
        assert(self@.sells =~= old(self)@.sells);
        assert(self@.buys =~= old(self)@.buys);
    }

    fn set_owned(&mut self, holder: AccountId, firm: AccountId, n: u64)
        ensures
            final(self)@ == old(self)@.with_owned(holder, firm, n),
    {
        self.owned_shares.insert(holding_key_of(holder, firm), n);
        assert(self@.sells =~= old(self)@.sells);
        assert(self@.buys =~= old(self)@.buys);
    }

    fn set_locked(&mut self, holder: AccountId, firm: AccountId, n: u64)
        ensures
            final(self)@ == old(self)@.with_locked(holder, firm, n),
    {
        self.locked_shares.insert(holding_key_of(holder, firm), n);
        assert(self@.sells =~= old(self)@.sells);
        assert(self@.buys =~= old(self)@.buys);
    }

    // ----- module helpers -----

    /// Whether `firm` is on the issuer list.
    pub fn is_firm(&self, firm: AccountId) -> (r: bool)
        ensures
            r == self@.is_issuer(firm),
    {
        let mut i: usize = 0;
        while i < self.issuer_list.len()
            invariant
                i <= self.issuer_list.len(),
                forall|j: int| 0 <= j < i ==> self.issuer_list@[j] != firm,
            decreases self.issuer_list.len() - i,
        {
            if self.issuer_list[i] == firm {
                return true;
            }
            i = i + 1;
        }
        false
    }

    /// A fresh order id for `sender`: the hash of the block's random seed,
    /// `sender` and the nonce, which moves on by one.
    pub fn generate_hash(&mut self, sender: AccountId) -> (id: OrderId)
        ensures
            (final(self)@, id) == old(self)@.generate_hash(sender),
            id@ == crate::hashing::blake2b_256(
                crate::hashing::order_hash_input(old(self)@.seed, sender, old(self)@.nonce),
            ),
    {
        let nonce = self.nonce;
        self.nonce = if nonce == u64::MAX { 0 } else { nonce + 1 };
        assert(self@.sells =~= old(self)@.sells);
        assert(self@.buys =~= old(self)@.buys);
        order_id(self.random_seed, sender, nonce)
    }

    /// Locks `amount` of the shares that `owner` holds in `firm`, so that
    /// they cannot be spent until they are unlocked.
    pub fn lock_shares(&mut self, owner: AccountId, firm: AccountId, amount: u64) -> (r: Result<(), MarketError>)
        ensures
            (final(self)@, r) == old(self)@.lock_shares(owner, firm, amount),
    {
        let owned = self.owned_shares((owner, firm));
        if owned < amount {
            return Err(MarketError::LockNotEnough);
        }
        let locked = self.locked_shares((owner, firm));
        let new_locked = match locked.checked_add(amount) {
            None => return Err(MarketError::LockOverflow),
            Some(n) => n,
        };
        self.set_locked(owner, firm, new_locked);
        self.set_owned(owner, firm, owned - amount);
        self.deposit_event(Event::LockedShares(owner, firm, amount));
        Ok(())
    }

    /// Moves `amount` of `owner`'s locked shares in `firm` back to its
    /// owned shares.
    pub fn unlock_shares(&mut self, owner: AccountId, firm: AccountId, amount: u64) -> (r: Result<(), MarketError>)
        ensures
            (final(self)@, r) == old(self)@.unlock_shares(owner, firm, amount),
    {
        let locked = self.locked_shares((owner, firm));
        if locked < amount {
            return Err(MarketError::UnlockTooMuch);
        }
        let owned = self.owned_shares((owner, firm));
        let total = match amount.checked_add(owned) {
            None => return Err(MarketError::UnlockOverflow),
            Some(n) => n,
        };
        self.set_owned(owner, firm, total);
        self.set_locked(owner, firm, locked - amount);
        self.deposit_event(Event::UnlockedShares(owner, firm, amount));
        Ok(())
    }

    /// Transfers `amount_to_send` shares of `firm` from `from` to `to`, and
    /// `price_per_share` for each from `to` to `from`; records the price as
    /// the firm's last bid.
    pub fn process_order(
        &mut self,
        from: AccountId,
        to: AccountId,
        firm: AccountId,
        amount_to_send: u64,
        price_per_share: Balance,
    ) -> (r: Result<(), MarketError>)
        ensures
            (final(self)@, r) == old(self)@.process_order(from, to, firm, amount_to_send, price_per_share),
    {
        let before = self.owned_shares((from, firm));
        let total_price = match price_per_share.checked_mul(Self::u64_to_balance(amount_to_send)) {
            None => return Err(MarketError::TotalPriceOverflow),
            Some(p) => p,
        };
        if before < amount_to_send {
            return Err(MarketError::TransferUnderflow);
        }
        let receiver = self.owned_shares((to, firm));
        let mut added = match receiver.checked_add(amount_to_send) {
            None => return Err(MarketError::TransferOverflow),
            Some(n) => n,
        };
        if from == to {
            added = before;
        }
        match self.currency.transfer(to, from, total_price) {
            Err(e) => return Err(MarketError::Currency(e)),
            Ok(()) => {},
        }
        assert(self@ == old(self)@.with_ledger(self.currency@)) by {
            assert(self@.sells =~= old(self)@.sells);
            assert(self@.buys =~= old(self)@.buys);
        }
        self.set_owned(from, firm, before - amount_to_send);
        self.set_owned(to, firm, added);
        self.last_bid_price.insert(firm, price_per_share);
        assert(self@.sells =~= old(self)@.sells);
        assert(self@.buys =~= old(self)@.buys);
        self.deposit_event(Event::TransferredShares(from, to, firm, amount_to_send));
        Ok(())
    }
    /// Locks `owner`'s shares for the sell order `order_id` of `from` for
    /// `firm`, then lists the order; a refused lock lists nothing.
    pub fn place_sell_order(
        &mut self,
        from: AccountId,
        firm: AccountId,
        owner: AccountId,
        min_price: Balance,
        amount: u64,
        order_id: OrderId,
    ) -> (r: Result<(), MarketError>)
        ensures
            (final(self)@, r) == old(self)@.place_sell_order(from, firm, owner, min_price, amount, order_id),
    {
        match self.lock_shares(owner, firm, amount) {
            Err(e) => return Err(e),
            Ok(()) => {},
        }
        let order = SellOrder { firm, owner: from, min_price, amount, order_id };
        let mut book = self.sell_order_list(firm);
        book.push(order);
        self.put_sell_book(firm, book);
        self.deposit_event(Event::SubmittedSellOrder(owner, firm, amount, min_price, order_id));
        Ok(())
    }

    /// Locks `owner`'s shares for a sell order of `from` for `firm` and
    /// lists the order under a fresh id.
    pub fn add_sell_order_to_blockchain(
        &mut self,
        from: AccountId,
        firm: AccountId,
        owner: AccountId,
        min_price: Balance,
        amount: u64,
    ) -> (r: Result<(), MarketError>)
        ensures
            (final(self)@, r) == old(self)@.add_sell_order(from, firm, owner, min_price, amount),
    {
        if !self.is_firm(firm) {
            return Err(MarketError::FirmNotFound);
        }
        let new_hash = self.generate_hash(from);
        self.place_sell_order(from, firm, owner, min_price, amount, new_hash)
    }

    /// Reserves the whole price of the buy order `order_id` of `from` for
    /// `firm` from `owner`, and lists the order.
    pub fn place_buy_order(
        &mut self,
        from: AccountId,
        firm: AccountId,
        owner: AccountId,
        max_price: Balance,
        amount: u64,
        order_id: OrderId,
    ) -> (r: Result<(), MarketError>)
        ensures
            (final(self)@, r) == old(self)@.place_buy_order(from, firm, owner, max_price, amount, order_id),
    {
        let order = BuyOrder { firm, owner: from, max_price, amount, order_id };
        let total_price = match max_price.checked_mul(Self::u64_to_balance(amount)) {
            None => return Err(MarketError::TotalPriceOverflow),
            Some(p) => p,
        };
        let ghost before = self@;
        match self.currency.reserve(owner, total_price) {
            Err(_) => {
                assert(self@.sells =~= before.sells);
                assert(self@.buys =~= before.buys);
                return Err(MarketError::ReserveRefused);
            },
            Ok(()) => {},
        }
        assert(self@ == before.with_ledger(self.currency@)) by {
            assert(self@.sells =~= before.sells);
            assert(self@.buys =~= before.buys);
        }
        let mut book = self.buy_orders_list(firm);
        book.push(order);
        self.put_buy_book(firm, book);
        self.deposit_event(Event::SubmittedBuyOrder(owner, firm, amount, max_price, order_id));
        Ok(())
    }

    /// Reserves the whole price of a buy order of `from` for `firm` from
    /// `owner`, and lists the order under a fresh id.
    pub fn add_buy_order_to_blockchain(
        &mut self,
        from: AccountId,
        firm: AccountId,
        owner: AccountId,
        max_price: Balance,
        amount: u64,
    ) -> (r: Result<(), MarketError>)
        ensures
            (final(self)@, r) == old(self)@.add_buy_order(from, firm, owner, max_price, amount),
    {
        if !self.is_firm(firm) {
            return Err(MarketError::FirmNotFound);
        }
        let new_hash = self.generate_hash(from);
        self.place_buy_order(from, firm, owner, max_price, amount, new_hash)
    }

    // ----- dispatchable calls -----

    /// The account that signed `origin`, or the refusal of an unsigned one.
    fn ensure_signed(origin: Origin) -> (r: Result<AccountId, MarketError>)
        ensures
            match crate::model::signer(origin) {
                Some(who) => r == Ok::<AccountId, MarketError>(who),
                None => r == Err::<AccountId, MarketError>(MarketError::BadOrigin),
            },
    {
        match origin {
            Origin::Signed(who) => Ok(who),
            _ => Err(MarketError::BadOrigin),
        }
    }

    /// Gives `firm` the right to issue shares, with `authorized_shares` as
    /// its limit where it has none yet. Only the sudo key may call it.
    pub fn give_issue_rights(&mut self, origin: Origin, firm: AccountId, authorized_shares: u64) -> (r: Result<(), MarketError>)
        ensures
            (final(self)@, r) == old(self)@.give_issue_rights(origin, firm, authorized_shares),
    {
        let sender = match Self::ensure_signed(origin) {
            Err(e) => return Err(e),
            Ok(who) => who,
        };
        if sender != self.sudo_key {
            return Err(MarketError::NotSudo);
        }
        if sender == firm {
            return Err(MarketError::SelfGrant);
        }
        if self.is_allowed_issue(firm) {
            return Err(MarketError::AlreadyAllowed);
        }
        let current_share_lim = self.authorized_shares(firm);
        if current_share_lim == 0 {
            if authorized_shares == 0 {
                return Err(MarketError::ZeroLimit);
            }
            self.authorized_shares.insert(firm, authorized_shares);
        }
        self.is_allowed_issue.insert(firm, true);
        assert(self@.sells =~= old(self)@.sells);
        assert(self@.buys =~= old(self)@.buys);
        self.deposit_event(Event::GaveFirmIssueRight(firm, authorized_shares));
        Ok(())
    }

    /// Takes the right to issue shares away from `firm`. Only the sudo key
    /// may call it.
    pub fn revoke_issue_rights(&mut self, origin: Origin, firm: AccountId) -> (r: Result<(), MarketError>)
        ensures
            (final(self)@, r) == old(self)@.revoke_issue_rights(origin, firm),
    {
        let sender = match Self::ensure_signed(origin) {
            Err(e) => return Err(e),
            Ok(who) => who,
        };
        if sender != self.sudo_key {
            return Err(MarketError::NotSudo);
        }
        if sender == firm {
            return Err(MarketError::SelfRevoke);
        }
        if !self.is_allowed_issue(firm) {
            return Err(MarketError::AlreadyNotAllowed);
        }
        self.is_allowed_issue.insert(firm, false);
        assert(self@.sells =~= old(self)@.sells);
        assert(self@.buys =~= old(self)@.buys);
        self.deposit_event(Event::RevokedFirmIssueRight(firm));
        Ok(())
    }

    /// Sets the number of shares `firm` may issue; the new limit must be
    /// above what it has issued. Only the sudo key may call it.
    pub fn change_authorized_shares(&mut self, origin: Origin, firm: AccountId, new_limit: u64) -> (r: Result<(), MarketError>)
        ensures
            (final(self)@, r) == old(self)@.change_authorized_shares(origin, firm, new_limit),
    {
        let sender = match Self::ensure_signed(origin) {
            Err(e) => return Err(e),
            Ok(who) => who,
        };
        if sender != self.sudo_key {
            return Err(MarketError::NotSudo);
        }
        if !self.is_allowed_issue(firm) {
            return Err(MarketError::FirmNotAllowed);
        }
        if sender == firm {
            return Err(MarketError::OwnLimit);
        }
        if new_limit <= self.floating_shares(firm) {
            return Err(MarketError::LimitBelowIssued);
        }
        self.authorized_shares.insert(firm, new_limit);
        assert(self@.sells =~= old(self)@.sells);
        assert(self@.buys =~= old(self)@.buys);
        self.deposit_event(Event::AdjustedAuthorizedStock(firm, new_limit));
        Ok(())
    }

    /// Issues `amount` new shares of the calling firm, which receives them.
    /// The floating shares must stay below the authorized limit.
    pub fn issue_shares(&mut self, origin: Origin, amount: u64) -> (r: Result<(), MarketError>)
        ensures
            (final(self)@, r) == old(self)@.issue_shares(origin, amount),
    {
        let sender = match Self::ensure_signed(origin) {
            Err(e) => return Err(e),
            Ok(who) => who,
        };
        if !self.is_allowed_issue(sender) {
            return Err(MarketError::IssueNotAllowed);
        }
        let old_shares_outstanding = self.floating_shares(sender);
        let new_shares_outstanding = match old_shares_outstanding.checked_add(amount) {
            None => return Err(MarketError::IssueOverflow),
            Some(n) => n,
        };
        if new_shares_outstanding >= self.authorized_shares(sender) {
            return Err(MarketError::AuthorizedReached);
        }
        let held = self.owned_shares((sender, sender));
        let new_held = match held.checked_add(amount) {
            None => return Err(MarketError::HoldingOverflow),
            Some(n) => n,
        };
        if !self.is_firm(sender) {
            self.issuer_list.push(sender);
        }
        self.floating_shares.insert(sender, new_shares_outstanding);
        assert(self@.sells =~= old(self)@.sells);
        assert(self@.buys =~= old(self)@.buys);
        self.set_owned(sender, sender, new_held);
        self.deposit_event(Event::IssuedShares(sender, amount));
        Ok(())
    }

    /// Retires `amount` of the calling firm's own shares; a firm left with
    /// no floating shares leaves the issuer list.
    pub fn retire_shares(&mut self, origin: Origin, amount: u64) -> (r: Result<(), MarketError>)
        ensures
            (final(self)@, r) == old(self)@.retire_shares(origin, amount),
    {
        let sender = match Self::ensure_signed(origin) {
            Err(e) => return Err(e),
            Ok(who) => who,
        };
        let held_shares = self.owned_shares((sender, sender));
        if held_shares < amount {
            return Err(MarketError::RetireNotEnough);
        }
        let new_amount = held_shares - amount;
        let floating = self.floating_shares(sender);
        let new_float = match floating.checked_sub(amount) {
            None => return Err(MarketError::FloatingUnderflow),
            Some(n) => n,
        };
        if self.is_firm(sender) && new_float == 0 {
            let mut current_firms: Vec<AccountId> = Vec::new();
            let mut i: usize = 0;
            while i < self.issuer_list.len()
                invariant
                    i <= self.issuer_list.len(),
                    current_firms@ == self.issuer_list@.take(i as int).filter(
                        |x: AccountId| x != sender,
                    ),
                decreases self.issuer_list.len() - i,
            {
                let x = self.issuer_list[i];
                proof {
                    reveal_with_fuel(Seq::<_>::filter, 1);
                    assert(self.issuer_list@.take(i + 1).drop_last() =~= self.issuer_list@.take(
                        i as int,
                    ));
                }
                if x != sender {
                    current_firms.push(x);
                }
                i = i + 1;
            }
            assert(self.issuer_list@.take(self.issuer_list.len() as int) =~= self.issuer_list@);
            self.issuer_list = current_firms;
        }
        assert(self@.sells =~= old(self)@.sells);
        assert(self@.buys =~= old(self)@.buys);
        self.set_owned(sender, sender, new_amount);
        self.floating_shares.insert(sender, new_float);
        assert(self@.sells =~= old(self)@.sells);
        assert(self@.buys =~= old(self)@.buys);
        self.deposit_event(Event::RetiredShares(sender, amount));
        Ok(())
    }

    /// Freezes trading. Only the sudo key may call it.
    pub fn close_market(&mut self, origin: Origin) -> (r: Result<(), MarketError>)
        ensures
            (final(self)@, r) == old(self)@.close_market(origin),
    {
        let sender = match Self::ensure_signed(origin) {
            Err(e) => return Err(e),
            Ok(who) => who,
        };
        if sender != self.sudo_key {
            return Err(MarketError::NotSudo);
        }
        if self.market_closed {
            return Err(MarketError::AlreadyFrozen);
        }
        self.market_closed = true;
        assert(self@.sells =~= old(self)@.sells);
        assert(self@.buys =~= old(self)@.buys);
        self.deposit_event(Event::MarketFrozen(sender, true));
        Ok(())
    }

    /// Lets trading resume. Only the sudo key may call it.
    pub fn open_market(&mut self, origin: Origin) -> (r: Result<(), MarketError>)
        ensures
            (final(self)@, r) == old(self)@.open_market(origin),
    {
        let sender = match Self::ensure_signed(origin) {
            Err(e) => return Err(e),
            Ok(who) => who,
        };
        if sender != self.sudo_key {
            return Err(MarketError::NotSudo);
        }
        if !self.market_closed {
            return Err(MarketError::AlreadyOpen);
        }
        self.market_closed = false;
        assert(self@.sells =~= old(self)@.sells);
        assert(self@.buys =~= old(self)@.buys);
        self.deposit_event(Event::MarketFrozen(sender, false));
        Ok(())
    }
    /// Sells `amount` shares of `firm` for at least `min_price` each. The
    /// buy orders that bid at least `min_price` are met from the lowest bid
    /// up; what is not sold is listed as a sell order.
    pub fn put_sell_order(&mut self, origin: Origin, firm: AccountId, amount: u64, min_price: Balance) -> (r: Result<(), MarketError>)
        ensures
            (final(self)@, r) == old(self)@.put_sell_order(origin, firm, amount, min_price),
    {
        let sender = match Self::ensure_signed(origin) {
            Err(e) => return Err(e),
            Ok(who) => who,
        };
        if self.market_closed {
            return Err(MarketError::MarketFrozen);
        }
        if Self::balance_to_u64(min_price) == 0 {
            return Err(MarketError::ZeroSellPrice);
        }
        if self.owned_shares((sender, firm)) < amount {
            return Err(MarketError::NotEnoughShares);
        }
        let book = self.buy_orders_list(firm);
        let keep = select_buys_under(&book, min_price);
        let candidates = select_buys_matching(&book, min_price);
        let mut remaining = amount;
        if candidates.len() > 0 {
            let snap = sort_buys(&candidates);
            let mut temp = copy_buys(&snap);
            let ghost v0 = self@;
            let ghost target = v0.sell_loop(snap@, amount, snap@, 0, sender, firm);
            let n = snap.len();
            let mut i: usize = 0;
            while i < n
                invariant_except_break
                    self@.sell_loop(temp@, remaining, snap@, i as int, sender, firm) == target,
                invariant
                    n == snap@.len(),
                    i <= n,
                    v0 == old(self)@,
                    crate::model::signer(origin) == Some(sender),
                    !v0.closed,
                    crate::model::balance_low_u64(min_price) != 0,
                    v0.owned_of(sender, firm) >= amount,
                    book@ == v0.buys_of(firm),
                    keep@ == buys_under(book@, min_price),
                    candidates@ == buys_matching(book@, min_price),
                    candidates@.len() > 0,
                    snap@ == sorted_buys(candidates@),
                    target == v0.sell_loop(snap@, amount, snap@, 0, sender, firm),
                ensures
                    target == Flow::Stop(self@, temp@, remaining),
                decreases n - i,
            {
                let order = snap[i];
                let ghost prev = self@;
                let ghost prev_temp = temp@;
                let ghost prev_rem = remaining;
                if remaining == 0 {
                    break;
                }
                let total_price = match order.max_price.checked_mul(Self::u64_to_balance(order.amount)) {
                    None => return Err(MarketError::TotalPriceOverflow),
                    Some(p) => p,
                };
                self.currency.unreserve(order.owner, total_price);
                assert(self@ == prev.with_ledger(prev.ledger.unreserve(order.owner, total_price))) by {
                    assert(self@.sells =~= prev.sells);
                    assert(self@.buys =~= prev.buys);
                }
                if order.amount <= remaining {
                    match self.process_order(sender, order.owner, firm, order.amount, order.max_price) {
                        Err(_) => {},
                        Ok(()) => {
                            remaining = remaining - order.amount;
                            temp = remove_buy(&temp, &order.order_id);
                        },
                    }
                    assert(prev.sell_step(prev_temp, prev_rem, order, sender, firm) == Flow::Next(
                        self@,
                        temp@,
                        remaining,
                    ));
                } else {
                    match self.process_order(sender, order.owner, firm, remaining, order.max_price) {
                        Err(_) => {
                            assert(prev.sell_step(prev_temp, prev_rem, order, sender, firm)
                                == Flow::Next(self@, temp@, remaining));
                        },
                        Ok(()) => {
                            let shares_selling = order.amount - remaining;
                            temp = remove_buy(&temp, &order.order_id);
                            let new_hash = self.generate_hash(sender);
                            let new_buy_order = BuyOrder {
                                firm: order.firm,
                                owner: order.owner,
                                max_price: order.max_price,
                                amount: shares_selling,
                                order_id: new_hash,
                            };
                            assert(order.max_price * shares_selling <= order.max_price
                                * order.amount) by (nonlinear_arith)
                                requires
                                    shares_selling <= order.amount,
                            ;
                            let total_amount = match order.max_price.checked_mul(
                                Self::u64_to_balance(shares_selling),
                            ) {
                                None => return Err(MarketError::TotalPriceOverflow),
                                Some(p) => p,
                            };
                            let ghost before_reserve = self@;
                            match self.currency.reserve(order.owner, total_amount) {
                                Err(_) => {
                                    assert(self@.sells =~= before_reserve.sells);
                                    assert(self@.buys =~= before_reserve.buys);
                                    return Err(MarketError::CannotAffordLock);
                                },
                                Ok(()) => {},
                            }
                            assert(self@ == before_reserve.with_ledger(self.currency@)) by {
                                assert(self@.sells =~= before_reserve.sells);
                                assert(self@.buys =~= before_reserve.buys);
                            }
                            temp.push(new_buy_order);
                            remaining = 0;
                            assert(prev.sell_step(prev_temp, prev_rem, order, sender, firm)
                                == Flow::Stop(self@, temp@, remaining));
                            break;
                        },
                    }
                }
                i = i + 1;
            }
            let mut new_order_list = keep;
            new_order_list.append(&mut temp);
            self.put_buy_book(firm, new_order_list);
        }
        if remaining > 0 {
            match self.add_sell_order_to_blockchain(sender, firm, sender, min_price, remaining) {
                Err(e) => return Err(e),
                Ok(()) => {},
            }
        }
        Ok(())
    }
    /// Buys `amount` shares of `firm` for at most `max_price` each. The
    /// caller must hold the whole price free. The sell orders that ask at
    /// most `max_price` are met from the highest ask down; what is not
    /// bought is listed as a buy order.
    pub fn put_buy_order(&mut self, origin: Origin, firm: AccountId, amount: u64, max_price: Balance) -> (r: Result<(), MarketError>)
        ensures
            (final(self)@, r) == old(self)@.put_buy_order(origin, firm, amount, max_price),
    {
        let sender = match Self::ensure_signed(origin) {
            Err(e) => return Err(e),
            Ok(who) => who,
        };
        if self.market_closed {
            return Err(MarketError::MarketFrozen);
        }
        if Self::balance_to_u64(max_price) == 0 {
            return Err(MarketError::ZeroBuyPrice);
        }
        let total_price = match max_price.checked_mul(Self::u64_to_balance(amount)) {
            None => return Err(MarketError::TotalPriceOverflow),
            Some(p) => p,
        };
        if self.currency.free_balance(sender) < total_price {
            return Err(MarketError::NotEnoughFreeBalance);
        }
        let book = self.sell_order_list(firm);
        let keep = select_sells_over(&book, max_price);
        let candidates = select_sells_matching(&book, max_price);
        let mut remaining = amount;
        if candidates.len() > 0 {
            let snap = sort_sells(&candidates);
            let mut temp = copy_sells(&snap);
            let ghost v0 = self@;
            let ghost target = v0.buy_loop(snap@, amount, snap@, 0, sender, firm);
            let n = snap.len();
            let mut i: usize = 0;
            while i < n
                invariant_except_break
                    self@.buy_loop(temp@, remaining, snap@, i as int, sender, firm) == target,
                invariant
                    n == snap@.len(),
                    i <= n,
                    v0 == old(self)@,
                    crate::model::signer(origin) == Some(sender),
                    !v0.closed,
                    crate::model::balance_low_u64(max_price) != 0,
                    max_price * amount <= u128::MAX,
                    v0.ledger.free_of(sender) >= max_price * amount,
                    book@ == v0.sells_of(firm),
                    keep@ == sells_over(book@, max_price),
                    candidates@ == sells_matching(book@, max_price),
                    candidates@.len() > 0,
                    snap@ == sorted_sells(candidates@),
                    target == v0.buy_loop(snap@, amount, snap@, 0, sender, firm),
                ensures
                    target == Flow::Stop(self@, temp@, remaining),
                decreases n - i,
            {
                let order = snap[i];
                let ghost prev = self@;
                let ghost prev_temp = temp@;
                let ghost prev_rem = remaining;
                if remaining == 0 {
                    break;
                } else if order.amount <= remaining {
                    match self.unlock_shares(order.owner, order.firm, order.amount) {
                        Err(_) => {},
                        Ok(()) => {
                            match self.process_order(order.owner, sender, firm, order.amount, order.min_price) {
                                Err(_) => {},
                                Ok(()) => {
                                    remaining = remaining - order.amount;
                                    temp = remove_sell(&temp, &order.order_id);
                                },
                            }
                        },
                    }
                    assert(prev.buy_step(prev_temp, prev_rem, order, sender, firm) == Flow::Next(
                        self@,
                        temp@,
                        remaining,
                    ));
                } else {
                    let share_left = order.amount - remaining;
                    match self.unlock_shares(order.owner, order.firm, remaining) {
                        Err(_) => {
                            assert(prev.buy_step(prev_temp, prev_rem, order, sender, firm)
                                == Flow::Next(self@, temp@, remaining));
                        },
                        Ok(()) => {
                            match self.process_order(order.owner, sender, firm, remaining, order.min_price) {
                                Err(_) => {
                                    assert(prev.buy_step(prev_temp, prev_rem, order, sender, firm)
                                        == Flow::Next(self@, temp@, remaining));
                                },
                                Ok(()) => {
                                    let new_hash = self.generate_hash(sender);
                                    let adjusted_sell_order = SellOrder {
                                        firm: order.firm,
                                        owner: order.owner,
                                        min_price: order.min_price,
                                        amount: share_left,
                                        order_id: new_hash,
                                    };
                                    temp.push(adjusted_sell_order);
                                    remaining = 0;
                                    assert(prev.buy_step(prev_temp, prev_rem, order, sender, firm)
                                        == Flow::Stop(self@, temp@, remaining));
                                    break;
                                },
                            }
                        },
                    }
                }
                i = i + 1;
            }
            let mut new_sell_list = keep;
            new_sell_list.append(&mut temp);
            self.put_sell_book(firm, new_sell_list);
        }
        if remaining > 0 {
            match self.add_buy_order_to_blockchain(sender, firm, sender, max_price, remaining) {
                Err(e) => return Err(e),
                Ok(()) => {},
            }
        }
        Ok(())
    }
    /// Runs a dispatched call.
    pub fn dispatch(&mut self, origin: Origin, call: Call) -> (r: Result<(), MarketError>)
        ensures
            (final(self)@, r) == old(self)@.dispatch(origin, call),
            crate::conservation::total_money(final(self)@.ledger) == crate::conservation::total_money(
                old(self)@.ledger,
            ),
            crate::conservation::shares_balanced(old(self)@) ==> crate::conservation::shares_balanced(
                final(self)@,
            ),
            crate::laws::within_limits(old(self)@) ==> crate::laws::within_limits(final(self)@),
    {
        proof {
            self.lemma_counts_finite();
            crate::conservation::law_money_conserved(self@, origin, call);
            if crate::conservation::shares_balanced(self@) {
                crate::conservation::law_shares_conserved(self@, origin, call);
            }
            if crate::laws::within_limits(self@) {
                crate::laws::law_issued_within_authorized(self@, origin, call);
            }
        }
        match call {
            Call::PutSellOrder(firm, amount, min_price) => self.put_sell_order(origin, firm, amount, min_price),
            Call::PutBuyOrder(firm, amount, max_price) => self.put_buy_order(origin, firm, amount, max_price),
            Call::GiveIssueRights(firm, authorized) => self.give_issue_rights(origin, firm, authorized),
            Call::RevokeIssueRights(firm) => self.revoke_issue_rights(origin, firm),
            Call::ChangeAuthorizedShares(firm, new_limit) => self.change_authorized_shares(origin, firm, new_limit),
            Call::IssueShares(amount) => self.issue_shares(origin, amount),
            Call::RetireShares(amount) => self.retire_shares(origin, amount),
            Call::CloseMarket => self.close_market(origin),
            Call::OpenMarket => self.open_market(origin),
        }
    }
}

} // verus!
