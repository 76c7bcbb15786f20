use vstd::prelude::*;
use vstd::arithmetic::div_mod::lemma_fundamental_div_mod_converse;

use crate::ledger::LedgerView;
use crate::books::{buys_matching, buys_under, sells_matching, sells_over, sorted_buys, sorted_sells};
use crate::model::{holding_key, signer, Flow, MarketView};
use crate::types::{AccountId, Balance, BuyOrder, Call, Origin, SellOrder};

verus! {

broadcast use vstd::set::group_set_axioms;

// ---------------------------------------------------------------------------
// Sums over the entries of a map
// ---------------------------------------------------------------------------

/// The step that adds the weight of the entry at `k` of `m`.
pub open spec fn add_entry<K, V>(m: Map<K, V>, w: spec_fn(K, V) -> int) -> spec_fn(int, K) -> int {
    |acc: int, k: K| acc + w(k, m[k])
}

/// The sum of `w` over the entries of `m`.
pub open spec fn sum_where<K, V>(m: Map<K, V>, w: spec_fn(K, V) -> int) -> int {
    m.dom().fold(0int, add_entry(m, w))
}

proof fn lemma_add_entry_commutative<K, V>(m: Map<K, V>, w: spec_fn(K, V) -> int)
    ensures
        vstd::set::fold::is_fun_commutative(add_entry(m, w)),
{
    let f = add_entry(m, w);
    assert forall|a1: K, a2: K, b: int| #[trigger] f(f(b, a2), a1) == f(f(b, a1), a2) by {}
}

/// Two steps that agree on every key of `s` fold `s` to the same sum.
proof fn lemma_fold_agree<K>(s: Set<K>, f1: spec_fn(int, K) -> int, f2: spec_fn(int, K) -> int)
    requires
        s.finite(),
        vstd::set::fold::is_fun_commutative(f1),
        vstd::set::fold::is_fun_commutative(f2),
        forall|acc: int, k: K| s.contains(k) ==> #[trigger] f1(acc, k) == f2(acc, k),
    ensures
        s.fold(0int, f1) == s.fold(0int, f2),
    decreases s.len(),
{
    if s.len() == 0 {
        assert(s =~= Set::<K>::empty());
        vstd::set::fold::lemma_fold_empty(0int, f1);
        vstd::set::fold::lemma_fold_empty(0int, f2);
    } else {
        let a = s.choose();
        let r = s.remove(a);
        assert(r.insert(a) =~= s);
        lemma_fold_agree(r, f1, f2);
        vstd::set::fold::lemma_fold_insert(r, 0int, f1, a);
        vstd::set::fold::lemma_fold_insert(r, 0int, f2, a);
    }
}

/// How a sum changes when one entry is written: the old entry's weight
/// goes, the new one's comes.
pub proof fn lemma_sum_insert<K, V>(m: Map<K, V>, w: spec_fn(K, V) -> int, k: K, v: V)
    requires
        m.dom().finite(),
    ensures
        m.insert(k, v).dom().finite(),
        sum_where(m.insert(k, v), w) == sum_where(m, w) - (if m.dom().contains(k) {
            w(k, m[k])
        } else {
            0
        }) + w(k, v),
{
    let m2 = m.insert(k, v);
    let d = m.dom().remove(k);
    let f1 = add_entry(m, w);
    let f2 = add_entry(m2, w);
    lemma_add_entry_commutative(m, w);
    lemma_add_entry_commutative(m2, w);
    assert forall|acc: int, j: K| d.contains(j) implies #[trigger] f1(acc, j) == f2(acc, j) by {}
    lemma_fold_agree(d, f1, f2);
    assert(m2.dom() =~= d.insert(k));
    vstd::set::fold::lemma_fold_insert(d, 0int, f2, k);
    if m.dom().contains(k) {
        assert(m.dom() =~= d.insert(k));
        vstd::set::fold::lemma_fold_insert(d, 0int, f1, k);
    } else {
        assert(m.dom() =~= d);
    }
}

/// An empty map sums to zero.
pub proof fn lemma_sum_empty<K, V>(w: spec_fn(K, V) -> int)
    ensures
        sum_where(Map::<K, V>::empty(), w) == 0,
{
    assert(Map::<K, V>::empty().dom() =~= Set::<K>::empty());
    vstd::set::fold::lemma_fold_empty(0int, add_entry(Map::<K, V>::empty(), w));
}

// ---------------------------------------------------------------------------
// Shares of a firm
// ---------------------------------------------------------------------------

/// The firm whose holding a storage key holds.
pub open spec fn key_firm(k: u128) -> u64 {
    (k as int % 0x1_0000_0000_0000_0000int) as u64
}

pub proof fn lemma_key_firm(holder: AccountId, firm: AccountId)
    ensures
        key_firm(holding_key(holder, firm)) == firm,
{
    let x = holder as int * 0x1_0000_0000_0000_0000int + firm as int;
    assert(0 <= x <= u128::MAX) by (nonlinear_arith)
        requires
            holder <= u64::MAX,
            firm <= u64::MAX,
            x == holder as int * 0x1_0000_0000_0000_0000int + firm as int,
    ;
    lemma_fundamental_div_mod_converse(x, 0x1_0000_0000_0000_0000int, holder as int, firm as int);
}

/// The weight of a holding entry in the count of `firm`'s shares.
pub open spec fn firm_weight(firm: AccountId) -> spec_fn(u128, u64) -> int {
    |k: u128, n: u64| if key_firm(k) == firm { n as int } else { 0int }
}

/// All shares of `firm` in a holding map.
pub open spec fn shares_of_firm(m: Map<u128, u64>, firm: AccountId) -> int {
    sum_where(m, firm_weight(firm))
}

/// For every firm, the shares that all accounts own or have locked add up
/// to the firm's floating shares.
pub open spec fn shares_balanced(v: MarketView) -> bool {
    &&& v.owned.dom().finite()
    &&& v.locked.dom().finite()
    &&& forall|f: AccountId| #[trigger] v.floating_of(f) == shares_of_firm(v.owned, f) + shares_of_firm(v.locked, f)
}

/// Writing a holding changes the count of its firm by the difference and
/// leaves every other firm's count alone.
pub proof fn lemma_write_holding(m: Map<u128, u64>, holder: AccountId, firm: AccountId, n: u64, g: AccountId)
    requires
        m.dom().finite(),
    ensures
        m.insert(holding_key(holder, firm), n).dom().finite(),
        shares_of_firm(m.insert(holding_key(holder, firm), n), g) == shares_of_firm(m, g) + (if g == firm {
            n - crate::types::map_or(m, holding_key(holder, firm), 0u64)
        } else {
            0
        }),
{
    lemma_key_firm(holder, firm);
    lemma_sum_insert(m, firm_weight(g), holding_key(holder, firm), n);
}

// ---------------------------------------------------------------------------
// Money
// ---------------------------------------------------------------------------

/// The weight of a balance entry: the balance itself.
pub open spec fn balance_weight() -> spec_fn(AccountId, Balance) -> int {
    |k: AccountId, b: Balance| b as int
}

/// All the money in the ledger, free and reserved.
pub open spec fn total_money(l: LedgerView) -> int {
    sum_where(l.free, balance_weight()) + sum_where(l.reserved, balance_weight())
}

/// The ledger's maps are finite, so that its money can be counted.
pub open spec fn ledger_finite(l: LedgerView) -> bool {
    l.free.dom().finite() && l.reserved.dom().finite()
}

// ---------------------------------------------------------------------------
// Counting every holding of a firm
// ---------------------------------------------------------------------------

/// All shares of firm `g` that accounts own or have locked.
pub open spec fn holdings_count(v: MarketView, g: AccountId) -> int {
    shares_of_firm(v.owned, g) + shares_of_firm(v.locked, g)
}

/// `w` keeps the holding maps finite and every firm's count as in `v`.
pub open spec fn keeps_counts(v: MarketView, w: MarketView) -> bool {
    &&& w.owned.dom().finite()
    &&& w.locked.dom().finite()
    &&& forall|g: AccountId| #[trigger] holdings_count(w, g) == holdings_count(v, g)
}

pub open spec fn holdings_finite(v: MarketView) -> bool {
    v.owned.dom().finite() && v.locked.dom().finite()
}

proof fn lemma_keeps_counts_refl(v: MarketView, w: MarketView)
    requires
        holdings_finite(v),
        w.owned == v.owned,
        w.locked == v.locked,
    ensures
        keeps_counts(v, w),
{
}

proof fn lemma_keeps_counts_trans(a: MarketView, b: MarketView, c: MarketView)
    requires
        keeps_counts(a, b),
        keeps_counts(b, c),
    ensures
        keeps_counts(a, c),
{
    assert forall|g: AccountId| #[trigger] holdings_count(c, g) == holdings_count(a, g) by {
        assert(holdings_count(b, g) == holdings_count(a, g));
    }
}

proof fn lemma_owned_write(v: MarketView, h: AccountId, f: AccountId, n: u64)
    requires
        holdings_finite(v),
    ensures
        holdings_finite(v.with_owned(h, f, n)),
        forall|g: AccountId| #[trigger] holdings_count(v.with_owned(h, f, n), g) == holdings_count(v, g) + (if g == f {
            n - v.owned_of(h, f)
        } else {
            0
        }),
{
    assert forall|g: AccountId| #[trigger] holdings_count(v.with_owned(h, f, n), g) == holdings_count(v, g) + (if g == f {
        n - v.owned_of(h, f)
    } else {
        0
    }) by {
        lemma_write_holding(v.owned, h, f, n, g);
    }
    lemma_write_holding(v.owned, h, f, n, f);
}

proof fn lemma_locked_write(v: MarketView, h: AccountId, f: AccountId, n: u64)
    requires
        holdings_finite(v),
    ensures
        holdings_finite(v.with_locked(h, f, n)),
        forall|g: AccountId| #[trigger] holdings_count(v.with_locked(h, f, n), g) == holdings_count(v, g) + (if g == f {
            n - v.locked_of(h, f)
        } else {
            0
        }),
{
    assert forall|g: AccountId| #[trigger] holdings_count(v.with_locked(h, f, n), g) == holdings_count(v, g) + (if g == f {
        n - v.locked_of(h, f)
    } else {
        0
    }) by {
        lemma_write_holding(v.locked, h, f, n, g);
    }
    lemma_write_holding(v.locked, h, f, n, f);
}

proof fn lemma_lock_counts(v: MarketView, owner: AccountId, firm: AccountId, amount: u64)
    requires
        holdings_finite(v),
    ensures
        keeps_counts(v, v.lock_shares(owner, firm, amount).0),
{
    let w = v.lock_shares(owner, firm, amount).0;
    if v.lock_shares(owner, firm, amount).1 is Ok {
        let o = v.owned_of(owner, firm);
        let l = v.locked_of(owner, firm);
        let v1 = v.with_locked(owner, firm, (l + amount) as u64);
        let v2 = v1.with_owned(owner, firm, (o - amount) as u64);
        lemma_locked_write(v, owner, firm, (l + amount) as u64);
        lemma_owned_write(v1, owner, firm, (o - amount) as u64);
        assert(w.owned == v2.owned && w.locked == v2.locked);
        assert forall|g: AccountId| #[trigger] holdings_count(w, g) == holdings_count(v, g) by {
            assert(holdings_count(w, g) == holdings_count(v2, g));
            assert(holdings_count(v1, g) == holdings_count(v, g) + (if g == firm { amount as int } else { 0 }));
            assert(v1.owned_of(owner, firm) == o);
            assert(holdings_count(v2, g) == holdings_count(v1, g) + (if g == firm { -amount } else { 0 }));
        }
    }
}

proof fn lemma_unlock_counts(v: MarketView, owner: AccountId, firm: AccountId, amount: u64)
    requires
        holdings_finite(v),
    ensures
        keeps_counts(v, v.unlock_shares(owner, firm, amount).0),
{
    let w = v.unlock_shares(owner, firm, amount).0;
    if v.unlock_shares(owner, firm, amount).1 is Ok {
        let o = v.owned_of(owner, firm);
        let l = v.locked_of(owner, firm);
        let v1 = v.with_owned(owner, firm, (amount + o) as u64);
        let v2 = v1.with_locked(owner, firm, (l - amount) as u64);
        lemma_owned_write(v, owner, firm, (amount + o) as u64);
        lemma_locked_write(v1, owner, firm, (l - amount) as u64);
        assert(w.owned == v2.owned && w.locked == v2.locked);
        assert forall|g: AccountId| #[trigger] holdings_count(w, g) == holdings_count(v, g) by {
            assert(holdings_count(w, g) == holdings_count(v2, g));
            assert(holdings_count(v1, g) == holdings_count(v, g) + (if g == firm { amount as int } else { 0 }));
            assert(v1.locked_of(owner, firm) == l);
            assert(holdings_count(v2, g) == holdings_count(v1, g) + (if g == firm { -amount } else { 0 }));
        }
    }
}

proof fn lemma_process_counts(v: MarketView, from: AccountId, to: AccountId, firm: AccountId, amount: u64, price: Balance)
    requires
        holdings_finite(v),
    ensures
        keeps_counts(v, v.process_order(from, to, firm, amount, price).0),
{
    let w = v.process_order(from, to, firm, amount, price).0;
    if v.process_order(from, to, firm, amount, price).1 is Ok {
        let before = v.owned_of(from, firm);
        let receiver = v.owned_of(to, firm);
        let added = if from == to {
            before
        } else {
            (receiver + amount) as u64
        };
        let (ledger, _) = v.ledger.transfer(to, from, (price * amount) as u128);
        let v1 = v.with_ledger(ledger);
        let v2 = v1.with_owned(from, firm, (before - amount) as u64);
        let v3 = v2.with_owned(to, firm, added);
        lemma_owned_write(v1, from, firm, (before - amount) as u64);
        lemma_owned_write(v2, to, firm, added);
        crate::laws::lemma_holding_key_injective(from, firm, to, firm);
        assert(v2.owned_of(to, firm) == if from == to { (before - amount) as int } else { receiver as int });
        assert(w.owned == v3.owned && w.locked == v3.locked);
        assert forall|g: AccountId| #[trigger] holdings_count(w, g) == holdings_count(v, g) by {
            assert(holdings_count(w, g) == holdings_count(v3, g));
            assert(holdings_count(v1, g) == holdings_count(v, g));
            assert(v1.owned_of(from, firm) == before);
            assert(holdings_count(v2, g) == holdings_count(v1, g) + (if g == firm { -amount } else { 0 }));
            assert(holdings_count(v3, g) == holdings_count(v2, g) + (if g == firm { amount as int } else { 0 }));
        }
    }
}

proof fn lemma_add_sell_counts(v: MarketView, from: AccountId, firm: AccountId, owner: AccountId, price: Balance, amount: u64)
    requires
        holdings_finite(v),
    ensures
        keeps_counts(v, v.add_sell_order(from, firm, owner, price, amount).0),
{
    lemma_keeps_counts_refl(v, v);
    if v.is_issuer(firm) {
        let (v1, id) = v.generate_hash(from);
        let order = SellOrder { firm, owner: from, min_price: price, amount, order_id: id };
        let v2 = v1.with_sells(firm, v1.sells_of(firm).push(order));
        lemma_keeps_counts_refl(v, v2);
        lemma_lock_counts(v2, owner, firm, amount);
        let v3 = v2.lock_shares(owner, firm, amount).0;
        lemma_keeps_counts_trans(v, v2, v3);
        let v4 = v3.emit(crate::types::Event::SubmittedSellOrder(owner, firm, amount, price, id));
        lemma_keeps_counts_refl(v3, v4);
        lemma_keeps_counts_trans(v, v3, v4);
    }
}

proof fn lemma_sell_step_counts(v: MarketView, temp: Seq<BuyOrder>, rem: u64, order: BuyOrder, sender: AccountId, firm: AccountId)
    requires
        holdings_finite(v),
    ensures
        match v.sell_step(temp, rem, order, sender, firm) {
            Flow::Next(w, _, _) => keeps_counts(v, w),
            Flow::Stop(w, _, _) => keeps_counts(v, w),
            Flow::Abort(w, _) => keeps_counts(v, w),
        },
{
    lemma_keeps_counts_refl(v, v);
    if rem != 0 && order.max_price * order.amount <= u128::MAX {
        let v1 = v.with_ledger(v.ledger.unreserve(order.owner, (order.max_price * order.amount) as u128));
        lemma_keeps_counts_refl(v, v1);
        let n = if order.amount <= rem { order.amount } else { rem };
        lemma_process_counts(v1, sender, order.owner, firm, n, order.max_price);
        let v2 = v1.process_order(sender, order.owner, firm, n, order.max_price).0;
        lemma_keeps_counts_trans(v, v1, v2);
        let v3 = v2.generate_hash(sender).0;
        lemma_keeps_counts_refl(v2, v3);
        lemma_keeps_counts_trans(v, v2, v3);
        let l = v3.ledger.reserve(order.owner, (order.max_price * ((order.amount - rem) as u64)) as u128).0;
        lemma_keeps_counts_refl(v3, v3.with_ledger(l));
        lemma_keeps_counts_trans(v, v3, v3.with_ledger(l));
    }
}

proof fn lemma_sell_loop_counts(v: MarketView, temp: Seq<BuyOrder>, rem: u64, snap: Seq<BuyOrder>, i: int, sender: AccountId, firm: AccountId)
    requires
        holdings_finite(v),
    ensures
        match v.sell_loop(temp, rem, snap, i, sender, firm) {
            Flow::Next(w, _, _) => keeps_counts(v, w),
            Flow::Stop(w, _, _) => keeps_counts(v, w),
            Flow::Abort(w, _) => keeps_counts(v, w),
        },
    decreases snap.len() - i,
{
    lemma_keeps_counts_refl(v, v);
    if 0 <= i < snap.len() {
        lemma_sell_step_counts(v, temp, rem, snap[i], sender, firm);
        match v.sell_step(temp, rem, snap[i], sender, firm) {
            Flow::Next(w, t, r) => {
                lemma_sell_loop_counts(w, t, r, snap, i + 1, sender, firm);
                match w.sell_loop(t, r, snap, i + 1, sender, firm) {
                    Flow::Next(x, _, _) => lemma_keeps_counts_trans(v, w, x),
                    Flow::Stop(x, _, _) => lemma_keeps_counts_trans(v, w, x),
                    Flow::Abort(x, _) => lemma_keeps_counts_trans(v, w, x),
                }
            },
            _ => {},
        }
    }
}

proof fn lemma_buy_step_counts(v: MarketView, temp: Seq<SellOrder>, rem: u64, order: SellOrder, sender: AccountId, firm: AccountId)
    requires
        holdings_finite(v),
    ensures
        match v.buy_step(temp, rem, order, sender, firm) {
            Flow::Next(w, _, _) => keeps_counts(v, w),
            Flow::Stop(w, _, _) => keeps_counts(v, w),
            Flow::Abort(w, _) => keeps_counts(v, w),
        },
{
    lemma_keeps_counts_refl(v, v);
    if rem != 0 {
        let n = if order.amount <= rem { order.amount } else { rem };
        lemma_unlock_counts(v, order.owner, order.firm, n);
        let v1 = v.unlock_shares(order.owner, order.firm, n).0;
        lemma_process_counts(v1, order.owner, sender, firm, n, order.min_price);
        let v2 = v1.process_order(order.owner, sender, firm, n, order.min_price).0;
        lemma_keeps_counts_trans(v, v1, v2);
        let v3 = v2.generate_hash(sender).0;
        lemma_keeps_counts_refl(v2, v3);
        lemma_keeps_counts_trans(v, v2, v3);
    }
}

proof fn lemma_buy_loop_counts(v: MarketView, temp: Seq<SellOrder>, rem: u64, snap: Seq<SellOrder>, i: int, sender: AccountId, firm: AccountId)
    requires
        holdings_finite(v),
    ensures
        match v.buy_loop(temp, rem, snap, i, sender, firm) {
            Flow::Next(w, _, _) => keeps_counts(v, w),
            Flow::Stop(w, _, _) => keeps_counts(v, w),
            Flow::Abort(w, _) => keeps_counts(v, w),
        },
    decreases snap.len() - i,
{
    lemma_keeps_counts_refl(v, v);
    if 0 <= i < snap.len() {
        lemma_buy_step_counts(v, temp, rem, snap[i], sender, firm);
        match v.buy_step(temp, rem, snap[i], sender, firm) {
            Flow::Next(w, t, r) => {
                lemma_buy_loop_counts(w, t, r, snap, i + 1, sender, firm);
                match w.buy_loop(t, r, snap, i + 1, sender, firm) {
                    Flow::Next(x, _, _) => lemma_keeps_counts_trans(v, w, x),
                    Flow::Stop(x, _, _) => lemma_keeps_counts_trans(v, w, x),
                    Flow::Abort(x, _) => lemma_keeps_counts_trans(v, w, x),
                }
            },
            _ => {},
        }
    }
}

proof fn lemma_put_sell_counts(v: MarketView, origin: Origin, firm: AccountId, amount: u64, price: Balance)
    requires
        holdings_finite(v),
    ensures
        keeps_counts(v, v.put_sell_order(origin, firm, amount, price).0),
{
    lemma_keeps_counts_refl(v, v);
    if let Some(sender) = signer(origin) {
        let book = v.buys_of(firm);
        let snap = sorted_buys(buys_matching(book, price));
        lemma_add_sell_counts(v, sender, firm, sender, price, amount);
        lemma_sell_loop_counts(v, snap, amount, snap, 0, sender, firm);
        match v.sell_loop(snap, amount, snap, 0, sender, firm) {
            Flow::Stop(w, t, rem) => {
                let w1 = w.with_buys(firm, buys_under(book, price) + t);
                lemma_keeps_counts_refl(w, w1);
                lemma_keeps_counts_trans(v, w, w1);
                lemma_add_sell_counts(w1, sender, firm, sender, price, rem);
                lemma_keeps_counts_trans(v, w1, w1.list_sell_rest(sender, firm, price, rem).0);
            },
            _ => {},
        }
    }
}

proof fn lemma_put_buy_counts(v: MarketView, origin: Origin, firm: AccountId, amount: u64, price: Balance)
    requires
        holdings_finite(v),
    ensures
        keeps_counts(v, v.put_buy_order(origin, firm, amount, price).0),
{
    lemma_keeps_counts_refl(v, v);
    if let Some(sender) = signer(origin) {
        let book = v.sells_of(firm);
        let snap = sorted_sells(sells_matching(book, price));
        lemma_keeps_counts_refl(v, v.add_buy_order(sender, firm, sender, price, amount).0);
        lemma_buy_loop_counts(v, snap, amount, snap, 0, sender, firm);
        match v.buy_loop(snap, amount, snap, 0, sender, firm) {
            Flow::Stop(w, t, rem) => {
                let w1 = w.with_sells(firm, sells_over(book, price) + t);
                lemma_keeps_counts_refl(w, w1);
                lemma_keeps_counts_trans(v, w, w1);
                lemma_keeps_counts_refl(w1, w1.list_buy_rest(sender, firm, price, rem).0);
                lemma_keeps_counts_trans(v, w1, w1.list_buy_rest(sender, firm, price, rem).0);
            },
            _ => {},
        }
    }
}

/// An empty market is balanced: no firm has issued, nobody holds.
pub proof fn law_empty_market_balanced(v: MarketView)
    requires
        v.floating == Map::<AccountId, u64>::empty(),
        v.owned == Map::<u128, u64>::empty(),
        v.locked == Map::<u128, u64>::empty(),
    ensures
        shares_balanced(v),
{
    assert(v.owned.dom() =~= Set::<u128>::empty());
    assert(v.locked.dom() =~= Set::<u128>::empty());
    assert forall|f: AccountId| #[trigger] v.floating_of(f) == shares_of_firm(v.owned, f) + shares_of_firm(v.locked, f) by {
        lemma_sum_empty(firm_weight(f));
    }
}

/// No call creates or destroys shares: if, for every firm, the shares that
/// all accounts own or have locked add up to what the firm has issued, they
/// still do after any call, whether it succeeds or not. Trading only moves
/// shares between holdings; issuing and retiring change a firm's floating
/// shares and its own holding by the same amount.
pub proof fn law_shares_conserved(v: MarketView, origin: Origin, call: Call)
    requires
        shares_balanced(v),
    ensures
        shares_balanced(v.dispatch(origin, call).0),
{
    let w = v.dispatch(origin, call).0;
    match call {
        Call::PutSellOrder(firm, amount, price) => {
            lemma_put_sell_counts(v, origin, firm, amount, price);
            crate::laws::law_trading_keeps_rules(v, origin, firm, amount, price);
            assert forall|f: AccountId| #[trigger] w.floating_of(f) == shares_of_firm(w.owned, f) + shares_of_firm(w.locked, f) by {
                assert(holdings_count(w, f) == holdings_count(v, f));
                assert(v.floating_of(f) == shares_of_firm(v.owned, f) + shares_of_firm(v.locked, f));
            }
        },
        Call::PutBuyOrder(firm, amount, price) => {
            lemma_put_buy_counts(v, origin, firm, amount, price);
            crate::laws::law_trading_keeps_rules(v, origin, firm, amount, price);
            assert forall|f: AccountId| #[trigger] w.floating_of(f) == shares_of_firm(w.owned, f) + shares_of_firm(w.locked, f) by {
                assert(holdings_count(w, f) == holdings_count(v, f));
                assert(v.floating_of(f) == shares_of_firm(v.owned, f) + shares_of_firm(v.locked, f));
            }
        },
        Call::IssueShares(amount) => {
            if let Some(s) = signer(origin) {
                if v.issue_shares(origin, amount).1 is Ok {
                    let v1 = if v.is_issuer(s) { v } else { v.with_issuers(v.issuers.push(s)) };
                    let v2 = v1.with_floating(s, (v.floating_of(s) + amount) as u64);
                    lemma_owned_write(v2, s, s, (v.owned_of(s, s) + amount) as u64);
                    let v3 = v2.with_owned(s, s, (v.owned_of(s, s) + amount) as u64);
                    assert(w.owned == v3.owned && w.locked == v3.locked && w.floating == v3.floating);
                    assert forall|f: AccountId| #[trigger] w.floating_of(f) == shares_of_firm(w.owned, f) + shares_of_firm(w.locked, f) by {
                        assert(holdings_count(v2, f) == holdings_count(v, f));
                        assert(v2.owned_of(s, s) == v.owned_of(s, s));
                        assert(holdings_count(v3, f) == holdings_count(v2, f) + (if f == s { amount as int } else { 0 }));
                        assert(holdings_count(w, f) == holdings_count(v3, f));
                        assert(v.floating_of(f) == shares_of_firm(v.owned, f) + shares_of_firm(v.locked, f));
                        assert(w.floating_of(f) == v.floating_of(f) + (if f == s { amount as int } else { 0 }));
                    }
                }
            }
        },
        Call::RetireShares(amount) => {
            if let Some(s) = signer(origin) {
                if v.retire_shares(origin, amount).1 is Ok {
                    let v1 = if v.is_issuer(s) && v.floating_of(s) - amount == 0 {
                        v.with_issuers(v.issuers.filter(|x: AccountId| x != s))
                    } else {
                        v
                    };
                    lemma_owned_write(v1, s, s, (v.owned_of(s, s) - amount) as u64);
                    let v2 = v1.with_owned(s, s, (v.owned_of(s, s) - amount) as u64);
                    let v3 = v2.with_floating(s, (v.floating_of(s) - amount) as u64);
                    assert(w.owned == v3.owned && w.locked == v3.locked && w.floating == v3.floating);
                    assert forall|f: AccountId| #[trigger] w.floating_of(f) == shares_of_firm(w.owned, f) + shares_of_firm(w.locked, f) by {
                        assert(holdings_count(v1, f) == holdings_count(v, f));
                        assert(v1.owned_of(s, s) == v.owned_of(s, s));
                        assert(holdings_count(v2, f) == holdings_count(v1, f) + (if f == s { -amount } else { 0 }));
                        assert(holdings_count(w, f) == holdings_count(v2, f));
                        assert(v.floating_of(f) == shares_of_firm(v.owned, f) + shares_of_firm(v.locked, f));
                        assert(w.floating_of(f) == v.floating_of(f) + (if f == s { -amount } else { 0 }));
                    }
                }
            }
        },
        _ => {
            assert forall|f: AccountId| #[trigger] w.floating_of(f) == shares_of_firm(w.owned, f) + shares_of_firm(w.locked, f) by {
                assert(v.floating_of(f) == shares_of_firm(v.owned, f) + shares_of_firm(v.locked, f));
            }
        },
    }
}

// ---------------------------------------------------------------------------
// Money is neither created nor destroyed
// ---------------------------------------------------------------------------

proof fn lemma_write_balance(m: Map<AccountId, Balance>, who: AccountId, b: Balance)
    requires
        m.dom().finite(),
    ensures
        m.insert(who, b).dom().finite(),
        sum_where(m.insert(who, b), balance_weight()) == sum_where(m, balance_weight())
            - crate::types::map_or(m, who, 0u128) + b,
{
    lemma_sum_insert(m, balance_weight(), who, b);
}

/// The ledger `m` is finite and holds as much money as `l`.
pub open spec fn keeps_money(l: LedgerView, m: LedgerView) -> bool {
    ledger_finite(m) && total_money(m) == total_money(l)
}

/// Reserving, unreserving and transferring only move money around.
pub proof fn lemma_ledger_ops_keep_money(l: LedgerView, a: AccountId, b: AccountId, value: Balance)
    requires
        ledger_finite(l),
    ensures
        keeps_money(l, l.reserve(a, value).0),
        keeps_money(l, l.unreserve(a, value)),
        keeps_money(l, l.transfer(a, b, value).0),
{
    if l.reserve(a, value).1 is Ok {
        let l1 = l.with_reserved(a, (l.reserved_of(a) + value) as u128);
        lemma_write_balance(l.reserved, a, (l.reserved_of(a) + value) as u128);
        lemma_write_balance(l1.free, a, (l.free_of(a) - value) as u128);
    }
    let actual = l.unreserve_amount(a, value);
    let u1 = l.with_free(a, (l.free_of(a) + actual) as u128);
    lemma_write_balance(l.free, a, (l.free_of(a) + actual) as u128);
    lemma_write_balance(u1.reserved, a, (l.reserved_of(a) - actual) as u128);
    if l.transfer(a, b, value).1 is Ok && a != b {
        let t1 = l.with_free(a, (l.free_of(a) - value) as u128);
        lemma_write_balance(l.free, a, (l.free_of(a) - value) as u128);
        lemma_write_balance(t1.free, b, (l.free_of(b) + value) as u128);
    }
}

proof fn lemma_keeps_money_trans(a: LedgerView, b: LedgerView, c: LedgerView)
    requires
        keeps_money(a, b),
        keeps_money(b, c),
    ensures
        keeps_money(a, c),
{
}

proof fn lemma_helpers_keep_money(v: MarketView, a: AccountId, b: AccountId, f: AccountId, n: u64, p: Balance)
    requires
        ledger_finite(v.ledger),
    ensures
        keeps_money(v.ledger, v.lock_shares(a, f, n).0.ledger),
        keeps_money(v.ledger, v.unlock_shares(a, f, n).0.ledger),
        keeps_money(v.ledger, v.process_order(a, b, f, n, p).0.ledger),
        keeps_money(v.ledger, v.generate_hash(a).0.ledger),
        keeps_money(v.ledger, v.add_sell_order(a, f, b, p, n).0.ledger),
        keeps_money(v.ledger, v.add_buy_order(a, f, b, p, n).0.ledger),
{
    lemma_ledger_ops_keep_money(v.ledger, b, a, (p * n) as u128);
    lemma_ledger_ops_keep_money(v.generate_hash(a).0.ledger, b, a, (p * n) as u128);
    let v1 = v.generate_hash(a).0;
    let (v1s, id) = v.generate_hash(a);
    let order = SellOrder { firm: f, owner: a, min_price: p, amount: n, order_id: id };
    let v2 = v1s.with_sells(f, v1s.sells_of(f).push(order));
    assert(v2.ledger == v.ledger);
}

proof fn lemma_sell_step_money(v: MarketView, temp: Seq<BuyOrder>, rem: u64, order: BuyOrder, sender: AccountId, firm: AccountId)
    requires
        ledger_finite(v.ledger),
    ensures
        match v.sell_step(temp, rem, order, sender, firm) {
            Flow::Next(w, _, _) => keeps_money(v.ledger, w.ledger),
            Flow::Stop(w, _, _) => keeps_money(v.ledger, w.ledger),
            Flow::Abort(w, _) => keeps_money(v.ledger, w.ledger),
        },
{
    if rem != 0 && order.max_price * order.amount <= u128::MAX {
        let total = (order.max_price * order.amount) as u128;
        lemma_ledger_ops_keep_money(v.ledger, order.owner, order.owner, total);
        let v1 = v.with_ledger(v.ledger.unreserve(order.owner, total));
        let n = if order.amount <= rem { order.amount } else { rem };
        lemma_helpers_keep_money(v1, sender, order.owner, firm, n, order.max_price);
        let v2 = v1.process_order(sender, order.owner, firm, n, order.max_price).0;
        lemma_keeps_money_trans(v.ledger, v1.ledger, v2.ledger);
        let v3 = v2.generate_hash(sender).0;
        let rest = (order.max_price * ((order.amount - rem) as u64)) as u128;
        lemma_ledger_ops_keep_money(v3.ledger, order.owner, order.owner, rest);
        lemma_keeps_money_trans(v.ledger, v3.ledger, v3.ledger.reserve(order.owner, rest).0);
    }
}

proof fn lemma_sell_loop_money(v: MarketView, temp: Seq<BuyOrder>, rem: u64, snap: Seq<BuyOrder>, i: int, sender: AccountId, firm: AccountId)
    requires
        ledger_finite(v.ledger),
    ensures
        match v.sell_loop(temp, rem, snap, i, sender, firm) {
            Flow::Next(w, _, _) => keeps_money(v.ledger, w.ledger),
            Flow::Stop(w, _, _) => keeps_money(v.ledger, w.ledger),
            Flow::Abort(w, _) => keeps_money(v.ledger, w.ledger),
        },
    decreases snap.len() - i,
{
    if 0 <= i < snap.len() {
        lemma_sell_step_money(v, temp, rem, snap[i], sender, firm);
        match v.sell_step(temp, rem, snap[i], sender, firm) {
            Flow::Next(w, t, r) => {
                lemma_sell_loop_money(w, t, r, snap, i + 1, sender, firm);
                match w.sell_loop(t, r, snap, i + 1, sender, firm) {
                    Flow::Next(x, _, _) => lemma_keeps_money_trans(v.ledger, w.ledger, x.ledger),
                    Flow::Stop(x, _, _) => lemma_keeps_money_trans(v.ledger, w.ledger, x.ledger),
                    Flow::Abort(x, _) => lemma_keeps_money_trans(v.ledger, w.ledger, x.ledger),
                }
            },
            _ => {},
        }
    }
}

proof fn lemma_buy_step_money(v: MarketView, temp: Seq<SellOrder>, rem: u64, order: SellOrder, sender: AccountId, firm: AccountId)
    requires
        ledger_finite(v.ledger),
    ensures
        match v.buy_step(temp, rem, order, sender, firm) {
            Flow::Next(w, _, _) => keeps_money(v.ledger, w.ledger),
            Flow::Stop(w, _, _) => keeps_money(v.ledger, w.ledger),
            Flow::Abort(w, _) => keeps_money(v.ledger, w.ledger),
        },
{
    if rem != 0 {
        let n = if order.amount <= rem { order.amount } else { rem };
        lemma_helpers_keep_money(v, order.owner, sender, order.firm, n, order.min_price);
        let v1 = v.unlock_shares(order.owner, order.firm, n).0;
        lemma_helpers_keep_money(v1, order.owner, sender, firm, n, order.min_price);
        let v2 = v1.process_order(order.owner, sender, firm, n, order.min_price).0;
        lemma_keeps_money_trans(v.ledger, v1.ledger, v2.ledger);
    }
}

proof fn lemma_buy_loop_money(v: MarketView, temp: Seq<SellOrder>, rem: u64, snap: Seq<SellOrder>, i: int, sender: AccountId, firm: AccountId)
    requires
        ledger_finite(v.ledger),
    ensures
        match v.buy_loop(temp, rem, snap, i, sender, firm) {
            Flow::Next(w, _, _) => keeps_money(v.ledger, w.ledger),
            Flow::Stop(w, _, _) => keeps_money(v.ledger, w.ledger),
            Flow::Abort(w, _) => keeps_money(v.ledger, w.ledger),
        },
    decreases snap.len() - i,
{
    if 0 <= i < snap.len() {
        lemma_buy_step_money(v, temp, rem, snap[i], sender, firm);
        match v.buy_step(temp, rem, snap[i], sender, firm) {
            Flow::Next(w, t, r) => {
                lemma_buy_loop_money(w, t, r, snap, i + 1, sender, firm);
                match w.buy_loop(t, r, snap, i + 1, sender, firm) {
                    Flow::Next(x, _, _) => lemma_keeps_money_trans(v.ledger, w.ledger, x.ledger),
                    Flow::Stop(x, _, _) => lemma_keeps_money_trans(v.ledger, w.ledger, x.ledger),
                    Flow::Abort(x, _) => lemma_keeps_money_trans(v.ledger, w.ledger, x.ledger),
                }
            },
            _ => {},
        }
    }
}

proof fn lemma_put_sell_money(v: MarketView, origin: Origin, firm: AccountId, amount: u64, price: Balance)
    requires
        ledger_finite(v.ledger),
    ensures
        keeps_money(v.ledger, v.put_sell_order(origin, firm, amount, price).0.ledger),
{
    if let Some(sender) = signer(origin) {
        let book = v.buys_of(firm);
        let snap = sorted_buys(buys_matching(book, price));
        lemma_helpers_keep_money(v, sender, sender, firm, amount, price);
        lemma_sell_loop_money(v, snap, amount, snap, 0, sender, firm);
        match v.sell_loop(snap, amount, snap, 0, sender, firm) {
            Flow::Stop(w, t, rem) => {
                let w1 = w.with_buys(firm, buys_under(book, price) + t);
                lemma_helpers_keep_money(w1, sender, sender, firm, rem, price);
                lemma_keeps_money_trans(v.ledger, w1.ledger, w1.list_sell_rest(sender, firm, price, rem).0.ledger);
            },
            _ => {},
        }
    }
}

proof fn lemma_put_buy_money(v: MarketView, origin: Origin, firm: AccountId, amount: u64, price: Balance)
    requires
        ledger_finite(v.ledger),
    ensures
        keeps_money(v.ledger, v.put_buy_order(origin, firm, amount, price).0.ledger),
{
    if let Some(sender) = signer(origin) {
        let book = v.sells_of(firm);
        let snap = sorted_sells(sells_matching(book, price));
        lemma_helpers_keep_money(v, sender, sender, firm, amount, price);
        lemma_buy_loop_money(v, snap, amount, snap, 0, sender, firm);
        match v.buy_loop(snap, amount, snap, 0, sender, firm) {
            Flow::Stop(w, t, rem) => {
                let w1 = w.with_sells(firm, sells_over(book, price) + t);
                lemma_helpers_keep_money(w1, sender, sender, firm, rem, price);
                lemma_keeps_money_trans(v.ledger, w1.ledger, w1.list_buy_rest(sender, firm, price, rem).0.ledger);
            },
            _ => {},
        }
    }
}

/// No call creates or destroys money: the free and reserved balances of
/// all accounts add up to the same total after any call, whether it
/// succeeds or not. Orders reserve and release funds and trades pay the
/// seller what the buyer gives.
pub proof fn law_money_conserved(v: MarketView, origin: Origin, call: Call)
    requires
        ledger_finite(v.ledger),
    ensures
        keeps_money(v.ledger, v.dispatch(origin, call).0.ledger),
{
    match call {
        Call::PutSellOrder(firm, amount, price) => lemma_put_sell_money(v, origin, firm, amount, price),
        Call::PutBuyOrder(firm, amount, price) => lemma_put_buy_money(v, origin, firm, amount, price),
        _ => {},
    }
}

// ---------------------------------------------------------------------------
// Holdings are bounded by what was issued
// ---------------------------------------------------------------------------

proof fn lemma_sum_nonneg<K, V>(m: Map<K, V>, w: spec_fn(K, V) -> int)
    requires
        m.dom().finite(),
        forall|k: K, v: V| #[trigger] w(k, v) >= 0,
    ensures
        sum_where(m, w) >= 0,
    decreases m.dom().len(),
{
    if m.dom().len() == 0 {
        assert(m =~= Map::<K, V>::empty());
        lemma_sum_empty(w);
    } else {
        let k = m.dom().choose();
        let r = m.remove(k);
        assert(r.dom() =~= m.dom().remove(k));
        lemma_sum_nonneg(r, w);
        lemma_sum_insert(r, w, k, m[k]);
        assert(r.insert(k, m[k]) =~= m);
    }
}

proof fn lemma_entry_le_sum<K, V>(m: Map<K, V>, w: spec_fn(K, V) -> int, k: K)
    requires
        m.dom().finite(),
        m.dom().contains(k),
        forall|k: K, v: V| #[trigger] w(k, v) >= 0,
    ensures
        w(k, m[k]) <= sum_where(m, w),
{
    let r = m.remove(k);
    lemma_sum_nonneg(r, w);
    lemma_sum_insert(r, w, k, m[k]);
    assert(r.insert(k, m[k]) =~= m);
}

proof fn lemma_holding_le_count(m: Map<u128, u64>, holder: AccountId, firm: AccountId)
    requires
        m.dom().finite(),
    ensures
        crate::types::map_or(m, holding_key(holder, firm), 0u64) <= shares_of_firm(m, firm),
{
    let w = firm_weight(firm);
    assert forall|k: u128, v: u64| #[trigger] w(k, v) >= 0 by {}
    lemma_sum_nonneg(m, w);
    if m.dom().contains(holding_key(holder, firm)) {
        lemma_key_firm(holder, firm);
        lemma_entry_le_sum(m, w, holding_key(holder, firm));
    }
}

/// In a balanced market no holding, owned and locked together, exceeds
/// what its firm has issued.
pub proof fn law_holding_within_issued(v: MarketView, holder: AccountId, firm: AccountId)
    requires
        shares_balanced(v),
    ensures
        v.owned_of(holder, firm) + v.locked_of(holder, firm) <= v.floating_of(firm),
{
    lemma_holding_le_count(v.owned, holder, firm);
    lemma_holding_le_count(v.locked, holder, firm);
}

/// In a balanced market a holding cannot overflow: locking, unlocking and
/// issuing never fail for that reason.
pub proof fn law_no_holding_overflow(v: MarketView, holder: AccountId, firm: AccountId, amount: u64)
    requires
        shares_balanced(v),
    ensures
        v.lock_shares(holder, firm, amount).1 != Err::<(), crate::types::MarketError>(
            crate::types::MarketError::LockOverflow,
        ),
        v.unlock_shares(holder, firm, amount).1 != Err::<(), crate::types::MarketError>(
            crate::types::MarketError::UnlockOverflow,
        ),
        v.issue_shares(Origin::Signed(firm), amount).1 != Err::<(), crate::types::MarketError>(
            crate::types::MarketError::HoldingOverflow,
        ),
{
    law_holding_within_issued(v, holder, firm);
    law_holding_within_issued(v, firm, firm);
}

} // verus!
