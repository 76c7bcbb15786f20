use vstd::prelude::*;

use crate::books::{
    buy_insert, buys_matching, buys_under, buys_without, sell_insert, sells_matching, sells_over,
    sells_without, sorted_buys, sorted_sells,
};
use crate::ledger::LedgerView;
use crate::model::{holding_key, signer, Flow, MarketView};
use crate::types::{AccountId, Balance, BuyOrder, Call, Event, MarketError, Origin, SellOrder};

verus! {

// ---------------------------------------------------------------------------
// Keys of holdings
// ---------------------------------------------------------------------------

/// Two holdings share a storage key only when they are the same holding.
pub proof fn lemma_holding_key_injective(h1: AccountId, f1: AccountId, h2: AccountId, f2: AccountId)
    ensures
        holding_key(h1, f1) == holding_key(h2, f2) ==> h1 == h2 && f1 == f2,
{
    let a = h1 as int * 0x1_0000_0000_0000_0000int + f1 as int;
    let b = h2 as int * 0x1_0000_0000_0000_0000int + f2 as int;
    assert(0 <= a <= u128::MAX && 0 <= b <= u128::MAX) by (nonlinear_arith)
        requires
            h1 <= u64::MAX,
            f1 <= u64::MAX,
            h2 <= u64::MAX,
            f2 <= u64::MAX,
            a == h1 as int * 0x1_0000_0000_0000_0000int + f1 as int,
            b == h2 as int * 0x1_0000_0000_0000_0000int + f2 as int,
    ;
    if a == b {
        assert(h1 == h2 && f1 == f2) by (nonlinear_arith)
            requires
                h1 <= u64::MAX,
                f1 <= u64::MAX,
                h2 <= u64::MAX,
                f2 <= u64::MAX,
                h1 as int * 0x1_0000_0000_0000_0000int + f1 as int == h2 as int
                    * 0x1_0000_0000_0000_0000int + f2 as int,
        ;
    }
}

// ---------------------------------------------------------------------------
// What trading leaves alone
// ---------------------------------------------------------------------------

/// The parts of the state that only the sudo key and the issuing firms
/// change: the issuer list, issued and authorized shares, issue rights,
/// the market switch, the sudo key and the random seed.
pub open spec fn same_rules(a: MarketView, b: MarketView) -> bool {
    &&& a.issuers == b.issuers
    &&& a.floating == b.floating
    &&& a.allowed == b.allowed
    &&& a.authorized == b.authorized
    &&& a.closed == b.closed
    &&& a.sudo == b.sudo
    &&& a.seed == b.seed
}

proof fn lemma_helpers_keep_rules(v: MarketView, a: AccountId, b: AccountId, f: AccountId, n: u64, p: Balance)
    ensures
        same_rules(v, v.lock_shares(a, f, n).0),
        same_rules(v, v.unlock_shares(a, f, n).0),
        same_rules(v, v.process_order(a, b, f, n, p).0),
        same_rules(v, v.generate_hash(a).0),
        same_rules(v, v.add_sell_order(a, f, b, p, n).0),
        same_rules(v, v.add_buy_order(a, f, b, p, n).0),
{
}

proof fn lemma_sell_loop_keeps_rules(
    v: MarketView,
    temp: Seq<BuyOrder>,
    rem: u64,
    snap: Seq<BuyOrder>,
    i: int,
    sender: AccountId,
    firm: AccountId,
)
    ensures
        match v.sell_loop(temp, rem, snap, i, sender, firm) {
            Flow::Next(w, _, _) => same_rules(v, w),
            Flow::Stop(w, _, _) => same_rules(v, w),
            Flow::Abort(w, _) => same_rules(v, w),
        },
    decreases snap.len() - i,
{
    if 0 <= i < snap.len() {
        let order = snap[i];
        lemma_helpers_keep_rules(v, sender, order.owner, firm, order.amount, order.max_price);
        lemma_helpers_keep_rules(v, sender, order.owner, firm, rem, order.max_price);
        if order.max_price * order.amount <= u128::MAX {
            let v1 = v.with_ledger(
                v.ledger.unreserve(order.owner, (order.max_price * order.amount) as u128),
            );
            lemma_helpers_keep_rules(v1, sender, order.owner, firm, order.amount, order.max_price);
            lemma_helpers_keep_rules(v1, sender, order.owner, firm, rem, order.max_price);
            let v2 = v1.process_order(sender, order.owner, firm, rem, order.max_price).0;
            lemma_helpers_keep_rules(v2, sender, order.owner, firm, rem, order.max_price);
        }
        match v.sell_step(temp, rem, order, sender, firm) {
            Flow::Next(w, t, r) => {
                lemma_sell_loop_keeps_rules(w, t, r, snap, i + 1, sender, firm);
            },
            _ => {},
        }
    }
}

proof fn lemma_buy_loop_keeps_rules(
    v: MarketView,
    temp: Seq<SellOrder>,
    rem: u64,
    snap: Seq<SellOrder>,
    i: int,
    sender: AccountId,
    firm: AccountId,
)
    ensures
        match v.buy_loop(temp, rem, snap, i, sender, firm) {
            Flow::Next(w, _, _) => same_rules(v, w),
            Flow::Stop(w, _, _) => same_rules(v, w),
            Flow::Abort(w, _) => same_rules(v, w),
        },
    decreases snap.len() - i,
{
    if 0 <= i < snap.len() {
        let order = snap[i];
        lemma_helpers_keep_rules(v, order.owner, sender, order.firm, order.amount, order.min_price);
        lemma_helpers_keep_rules(v, order.owner, sender, order.firm, rem, order.min_price);
        let v1 = v.unlock_shares(order.owner, order.firm, order.amount).0;
        lemma_helpers_keep_rules(v1, order.owner, sender, firm, order.amount, order.min_price);
        let u1 = v.unlock_shares(order.owner, order.firm, rem).0;
        lemma_helpers_keep_rules(u1, order.owner, sender, firm, rem, order.min_price);
        let u2 = u1.process_order(order.owner, sender, firm, rem, order.min_price).0;
        lemma_helpers_keep_rules(u2, sender, sender, firm, rem, order.min_price);
        match v.buy_step(temp, rem, order, sender, firm) {
            Flow::Next(w, t, r) => {
                lemma_buy_loop_keeps_rules(w, t, r, snap, i + 1, sender, firm);
            },
            _ => {},
        }
    }
}

/// Trading never changes the issuer list, issued or authorized shares,
/// issue rights, the market switch, the sudo key or the random seed,
/// whether the order succeeds or not.
pub proof fn law_trading_keeps_rules(v: MarketView, origin: Origin, firm: AccountId, amount: u64, price: Balance)
    ensures
        same_rules(v, v.put_sell_order(origin, firm, amount, price).0),
        same_rules(v, v.put_buy_order(origin, firm, amount, price).0),
{
    if let Some(sender) = signer(origin) {
        let sb = crate::books::buys_matching(v.buys_of(firm), price);
        let snap = sorted_buys(sb);
        lemma_sell_loop_keeps_rules(v, snap, amount, snap, 0, sender, firm);
        lemma_helpers_keep_rules(v, sender, sender, firm, amount, price);
        match v.sell_loop(snap, amount, snap, 0, sender, firm) {
            Flow::Stop(w, t, rem) => {
                let w1 = w.with_buys(firm, crate::books::buys_under(v.buys_of(firm), price) + t);
                lemma_helpers_keep_rules(w1, sender, sender, firm, rem, price);
            },
            _ => {},
        }
        let ss = crate::books::sells_matching(v.sells_of(firm), price);
        let snap2 = sorted_sells(ss);
        lemma_buy_loop_keeps_rules(v, snap2, amount, snap2, 0, sender, firm);
        match v.buy_loop(snap2, amount, snap2, 0, sender, firm) {
            Flow::Stop(w, t, rem) => {
                let w1 = w.with_sells(firm, crate::books::sells_over(v.sells_of(firm), price) + t);
                lemma_helpers_keep_rules(w1, sender, sender, firm, rem, price);
            },
            _ => {},
        }
    }
}

// ---------------------------------------------------------------------------
// Laws over every dispatched call
// ---------------------------------------------------------------------------

/// Every firm has issued either nothing or fewer shares than it is
/// authorized to issue.
pub open spec fn within_limits(v: MarketView) -> bool {
    forall|f: AccountId| #[trigger] v.floating_of(f) == 0 || v.floating_of(f) < v.authorized_of(f)
}

/// A call that is not signed is refused and changes nothing.
pub proof fn law_unsigned_calls_refused(v: MarketView, origin: Origin, call: Call)
    requires
        signer(origin) is None,
    ensures
        v.dispatch(origin, call) == (v, Err::<(), MarketError>(MarketError::BadOrigin)),
{
}

/// No call lets a firm end up with more issued shares than its limit: a
/// firm issues only below its limit, and the limit is never set at or
/// below what the firm has issued.
pub proof fn law_issued_within_authorized(v: MarketView, origin: Origin, call: Call)
    requires
        within_limits(v),
    ensures
        within_limits(v.dispatch(origin, call).0),
{
    let w = v.dispatch(origin, call).0;
    match call {
        Call::PutSellOrder(firm, amount, price) => {
            law_trading_keeps_rules(v, origin, firm, amount, price);
            assert forall|f: AccountId| #[trigger] w.floating_of(f) == 0 || w.floating_of(f) < w.authorized_of(f) by {
                assert(v.floating_of(f) == 0 || v.floating_of(f) < v.authorized_of(f));
            }
        },
        Call::PutBuyOrder(firm, amount, price) => {
            law_trading_keeps_rules(v, origin, firm, amount, price);
            assert forall|f: AccountId| #[trigger] w.floating_of(f) == 0 || w.floating_of(f) < w.authorized_of(f) by {
                assert(v.floating_of(f) == 0 || v.floating_of(f) < v.authorized_of(f));
            }
        },
        Call::GiveIssueRights(firm, authorized) => {
            assert forall|f: AccountId| #[trigger] w.floating_of(f) == 0 || w.floating_of(f) < w.authorized_of(f) by {
                assert(v.floating_of(f) == 0 || v.floating_of(f) < v.authorized_of(f));
            }
        },
        Call::ChangeAuthorizedShares(firm, limit) => {
            assert forall|f: AccountId| #[trigger] w.floating_of(f) == 0 || w.floating_of(f) < w.authorized_of(f) by {
                assert(v.floating_of(f) == 0 || v.floating_of(f) < v.authorized_of(f));
            }
        },
        Call::IssueShares(amount) => {
            assert forall|f: AccountId| #[trigger] w.floating_of(f) == 0 || w.floating_of(f) < w.authorized_of(f) by {
                assert(v.floating_of(f) == 0 || v.floating_of(f) < v.authorized_of(f));
            }
        },
        Call::RetireShares(amount) => {
            assert forall|f: AccountId| #[trigger] w.floating_of(f) == 0 || w.floating_of(f) < w.authorized_of(f) by {
                assert(v.floating_of(f) == 0 || v.floating_of(f) < v.authorized_of(f));
            }
        },
        _ => {
            assert forall|f: AccountId| #[trigger] w.floating_of(f) == 0 || w.floating_of(f) < w.authorized_of(f) by {
                assert(v.floating_of(f) == 0 || v.floating_of(f) < v.authorized_of(f));
            }
        },
    }
}

/// Only the sudo key grants or takes away issue rights, changes limits or
/// switches the market: a call signed by any other account leaves the
/// rights, the limits and the market switch as they were.
pub proof fn law_only_sudo_sets_rules(v: MarketView, sender: AccountId, call: Call)
    requires
        sender != v.sudo,
    ensures
        v.dispatch(Origin::Signed(sender), call).0.allowed == v.allowed,
        v.dispatch(Origin::Signed(sender), call).0.authorized == v.authorized,
        v.dispatch(Origin::Signed(sender), call).0.closed == v.closed,
{
    match call {
        Call::PutSellOrder(firm, amount, price) => {
            law_trading_keeps_rules(v, Origin::Signed(sender), firm, amount, price);
        },
        Call::PutBuyOrder(firm, amount, price) => {
            law_trading_keeps_rules(v, Origin::Signed(sender), firm, amount, price);
        },
        _ => {},
    }
}

/// While the market is frozen, every order is refused and changes nothing.
pub proof fn law_frozen_market_refuses_orders(v: MarketView, sender: AccountId, firm: AccountId, amount: u64, price: Balance)
    requires
        v.closed,
    ensures
        v.put_sell_order(Origin::Signed(sender), firm, amount, price) == (v, Err::<(), MarketError>(MarketError::MarketFrozen)),
        v.put_buy_order(Origin::Signed(sender), firm, amount, price) == (v, Err::<(), MarketError>(MarketError::MarketFrozen)),
{
}

/// Freezing an open market and then opening it again, both by the sudo
/// key, succeeds and leaves the state as it was, with the two events
/// added to the log.
pub proof fn law_close_then_open(v: MarketView)
    requires
        !v.closed,
    ensures
        (v.close_market(Origin::Signed(v.sudo)).1 is Ok),
        (v.close_market(Origin::Signed(v.sudo)).0.open_market(Origin::Signed(v.sudo)).1 is Ok),
        v.close_market(Origin::Signed(v.sudo)).0.open_market(Origin::Signed(v.sudo)).0 == (MarketView {
            events: v.events.push(Event::MarketFrozen(v.sudo, true)).push(Event::MarketFrozen(v.sudo, false)),
            ..v
        }),
{
    let w = v.close_market(Origin::Signed(v.sudo)).0.open_market(Origin::Signed(v.sudo)).0;
    assert(w =~= MarketView {
        events: v.events.push(Event::MarketFrozen(v.sudo, true)).push(Event::MarketFrozen(v.sudo, false)),
        ..v
    });
}

// ---------------------------------------------------------------------------
// Round trips
// ---------------------------------------------------------------------------

/// Every holding, owned and locked, is the same in `a` and `b`.
pub open spec fn same_holdings(a: MarketView, b: MarketView) -> bool {
    &&& forall|h: AccountId, f: AccountId| #[trigger] a.owned_of(h, f) == b.owned_of(h, f)
    &&& forall|h: AccountId, f: AccountId| #[trigger] a.locked_of(h, f) == b.locked_of(h, f)
}

/// Locking shares and unlocking as many again succeeds and gives every
/// holding back as it was; nothing but the holdings and the two events
/// changes.
pub proof fn law_lock_then_unlock(v: MarketView, owner: AccountId, firm: AccountId, amount: u64)
    requires
        v.lock_shares(owner, firm, amount).1 is Ok,
    ensures
        (v.lock_shares(owner, firm, amount).0.unlock_shares(owner, firm, amount).1 is Ok),
        same_holdings(v, v.lock_shares(owner, firm, amount).0.unlock_shares(owner, firm, amount).0),
        v.lock_shares(owner, firm, amount).0.unlock_shares(owner, firm, amount).0 == (MarketView {
            owned: v.lock_shares(owner, firm, amount).0.unlock_shares(owner, firm, amount).0.owned,
            locked: v.lock_shares(owner, firm, amount).0.unlock_shares(owner, firm, amount).0.locked,
            events: v.events.push(Event::LockedShares(owner, firm, amount)).push(
                Event::UnlockedShares(owner, firm, amount),
            ),
            ..v
        }),
{
    let w = v.lock_shares(owner, firm, amount).0;
    let u = w.unlock_shares(owner, firm, amount).0;
    assert forall|h: AccountId, f: AccountId| #[trigger] u.owned_of(h, f) == v.owned_of(h, f) by {}
    assert forall|h: AccountId, f: AccountId| #[trigger] u.locked_of(h, f) == v.locked_of(h, f) by {}
    assert(u =~= MarketView {
        owned: u.owned,
        locked: u.locked,
        events: v.events.push(Event::LockedShares(owner, firm, amount)).push(
            Event::UnlockedShares(owner, firm, amount),
        ),
        ..v
    });
}

/// Issuing shares and retiring as many again succeeds and gives the firm's
/// floating shares and every holding back as they were; rights and limits
/// are untouched.
pub proof fn law_issue_then_retire(v: MarketView, firm: AccountId, amount: u64)
    requires
        v.issue_shares(Origin::Signed(firm), amount).1 is Ok,
    ensures
        (v.issue_shares(Origin::Signed(firm), amount).0.retire_shares(Origin::Signed(firm), amount).1 is Ok),
        v.issue_shares(Origin::Signed(firm), amount).0.retire_shares(Origin::Signed(firm), amount).0.floating_of(firm)
            == v.floating_of(firm),
        same_holdings(v, v.issue_shares(Origin::Signed(firm), amount).0.retire_shares(Origin::Signed(firm), amount).0),
        v.issue_shares(Origin::Signed(firm), amount).0.retire_shares(Origin::Signed(firm), amount).0.allowed
            == v.allowed,
        v.issue_shares(Origin::Signed(firm), amount).0.retire_shares(Origin::Signed(firm), amount).0.authorized
            == v.authorized,
{
    let w = v.issue_shares(Origin::Signed(firm), amount).0;
    let u = w.retire_shares(Origin::Signed(firm), amount).0;
    assert forall|h: AccountId, f: AccountId| #[trigger] u.owned_of(h, f) == v.owned_of(h, f) by {}
    assert forall|h: AccountId, f: AccountId| #[trigger] u.locked_of(h, f) == v.locked_of(h, f) by {}
}

/// Granting a firm the right to issue and taking it away again, both by
/// the sudo key, succeeds and leaves the firm without the right.
pub proof fn law_give_then_revoke(v: MarketView, firm: AccountId, authorized: u64)
    requires
        v.give_issue_rights(Origin::Signed(v.sudo), firm, authorized).1 is Ok,
    ensures
        (v.give_issue_rights(Origin::Signed(v.sudo), firm, authorized).0.revoke_issue_rights(
            Origin::Signed(v.sudo),
            firm,
        ).1 is Ok),
        !v.give_issue_rights(Origin::Signed(v.sudo), firm, authorized).0.revoke_issue_rights(
            Origin::Signed(v.sudo),
            firm,
        ).0.allowed_of(firm),
{
}

// ---------------------------------------------------------------------------
// Trades conserve shares and funds
// ---------------------------------------------------------------------------

/// A trade between two accounts moves `amount` shares from the seller to
/// the buyer and the whole price from the buyer's free balance to the
/// seller's; no other holding or balance changes.
pub proof fn law_trade_conserves(
    v: MarketView,
    from: AccountId,
    to: AccountId,
    firm: AccountId,
    amount: u64,
    price: Balance,
)
    requires
        v.process_order(from, to, firm, amount, price).1 is Ok,
        from != to,
    ensures
        v.process_order(from, to, firm, amount, price).0.owned_of(from, firm) == v.owned_of(from, firm) - amount,
        v.process_order(from, to, firm, amount, price).0.owned_of(to, firm) == v.owned_of(to, firm) + amount,
        forall|h: AccountId, f: AccountId|
            !(h == from && f == firm) && !(h == to && f == firm) ==> #[trigger] v.process_order(
                from,
                to,
                firm,
                amount,
                price,
            ).0.owned_of(h, f) == v.owned_of(h, f),
        forall|h: AccountId, f: AccountId| #[trigger] v.process_order(from, to, firm, amount, price).0.locked_of(h, f)
            == v.locked_of(h, f),
        v.process_order(from, to, firm, amount, price).0.ledger.free_of(from) == v.ledger.free_of(from)
            + price * amount,
        v.process_order(from, to, firm, amount, price).0.ledger.free_of(to) == v.ledger.free_of(to)
            - price * amount,
        forall|a: AccountId|
            a != from && a != to ==> #[trigger] v.process_order(from, to, firm, amount, price).0.ledger.free_of(a)
                == v.ledger.free_of(a),
        v.process_order(from, to, firm, amount, price).0.ledger.reserved == v.ledger.reserved,
{
    let w = v.process_order(from, to, firm, amount, price).0;
    lemma_holding_key_injective(from, firm, to, firm);
    assert forall|h: AccountId, f: AccountId|
        !(h == from && f == firm) && !(h == to && f == firm) implies #[trigger] w.owned_of(h, f) == v.owned_of(h, f) by {
        lemma_holding_key_injective(h, f, from, firm);
        lemma_holding_key_injective(h, f, to, firm);
    }
}

/// A trade with oneself changes no holding and no balance.
pub proof fn law_self_trade_changes_nothing(v: MarketView, who: AccountId, firm: AccountId, amount: u64, price: Balance)
    requires
        v.process_order(who, who, firm, amount, price).1 is Ok,
    ensures
        same_holdings(v, v.process_order(who, who, firm, amount, price).0),
        v.process_order(who, who, firm, amount, price).0.ledger == v.ledger,
{
    let w = v.process_order(who, who, firm, amount, price).0;
    assert forall|h: AccountId, f: AccountId| #[trigger] w.owned_of(h, f) == v.owned_of(h, f) by {}
    assert forall|h: AccountId, f: AccountId| #[trigger] w.locked_of(h, f) == v.locked_of(h, f) by {}
}

// ---------------------------------------------------------------------------
// The currency
// ---------------------------------------------------------------------------

/// Reserving funds and unreserving as much again gives every balance back.
pub proof fn law_reserve_then_unreserve(l: LedgerView, who: AccountId, value: Balance)
    requires
        l.reserve(who, value).1 is Ok,
    ensures
        forall|a: AccountId| #[trigger] l.reserve(who, value).0.unreserve(who, value).free_of(a) == l.free_of(a),
        forall|a: AccountId| #[trigger] l.reserve(who, value).0.unreserve(who, value).reserved_of(a) == l.reserved_of(a),
{
    let m = l.reserve(who, value).0;
    assert(m.unreserve_amount(who, value) == value);
}

/// A transfer between two accounts moves `value` from one free balance to
/// the other and changes nothing else.
pub proof fn law_transfer_conserves(l: LedgerView, source: AccountId, dest: AccountId, value: Balance)
    requires
        l.transfer(source, dest, value).1 is Ok,
        source != dest,
    ensures
        l.transfer(source, dest, value).0.free_of(source) == l.free_of(source) - value,
        l.transfer(source, dest, value).0.free_of(dest) == l.free_of(dest) + value,
        forall|a: AccountId| a != source && a != dest ==> #[trigger] l.transfer(source, dest, value).0.free_of(a) == l.free_of(a),
        l.transfer(source, dest, value).0.reserved == l.reserved,
{
}

// ---------------------------------------------------------------------------
// The order in which orders are met
// ---------------------------------------------------------------------------

/// `s` is in ascending order of bid.
pub open spec fn bids_ascending(s: Seq<BuyOrder>) -> bool {
    forall|i: int, j: int| 0 <= i < j < s.len() ==> #[trigger] s[i].max_price <= #[trigger] s[j].max_price
}

/// `s` is in descending order of ask.
pub open spec fn asks_descending(s: Seq<SellOrder>) -> bool {
    forall|i: int, j: int| 0 <= i < j < s.len() ==> #[trigger] s[i].min_price >= #[trigger] s[j].min_price
}

proof fn lemma_buy_insert(s: Seq<BuyOrder>, x: BuyOrder)
    requires
        bids_ascending(s),
    ensures
        bids_ascending(buy_insert(s, x)),
        buy_insert(s, x).to_multiset() == s.to_multiset().insert(x),
        forall|k: int| 0 <= k < buy_insert(s, x).len() ==> #[trigger] buy_insert(s, x)[k] == x || s.contains(buy_insert(s, x)[k]),
    decreases s.len(),
{
    broadcast use vstd::seq_lib::group_to_multiset_ensures;
    let r = buy_insert(s, x);
    if s.len() == 0 {
        assert(r.to_multiset() =~= s.to_multiset().insert(x)) by {
            assert(r == Seq::<BuyOrder>::empty().push(x));
        }
    } else if s.last().max_price <= x.max_price {
    } else {
        let d = s.drop_last();
        assert(bids_ascending(d));
        lemma_buy_insert(d, x);
        let r1 = buy_insert(d, x);
        assert(s == d.push(s.last()));
        assert forall|k: int| 0 <= k < r1.len() implies #[trigger] r1[k].max_price <= s.last().max_price by {
            if r1[k] != x {
                let m = choose|m: int| 0 <= m < d.len() && d[m] == r1[k];
                assert(d[m] == s[m]);
            }
        }
        assert forall|k: int| 0 <= k < r.len() implies #[trigger] r[k] == x || s.contains(r[k]) by {
            if k < r1.len() {
                if r1[k] != x {
                    let m = choose|m: int| 0 <= m < d.len() && d[m] == r1[k];
                    assert(s[m] == r1[k]);
                }
            } else {
                assert(r[k] == s[s.len() - 1]);
            }
        }
    }
}

/// Sorting the buy orders that meet a sell order puts them in ascending
/// order of bid and keeps every order, each as often as it was there.
pub proof fn law_sorted_buys(s: Seq<BuyOrder>)
    ensures
        bids_ascending(sorted_buys(s)),
        sorted_buys(s).to_multiset() == s.to_multiset(),
    decreases s.len(),
{
    broadcast use vstd::seq_lib::group_to_multiset_ensures;
    if s.len() > 0 {
        law_sorted_buys(s.drop_last());
        lemma_buy_insert(sorted_buys(s.drop_last()), s.last());
        assert(s == s.drop_last().push(s.last()));
    }
}

proof fn lemma_sell_insert(s: Seq<SellOrder>, x: SellOrder)
    requires
        asks_descending(s),
    ensures
        asks_descending(sell_insert(s, x)),
        sell_insert(s, x).to_multiset() == s.to_multiset().insert(x),
        forall|k: int| 0 <= k < sell_insert(s, x).len() ==> #[trigger] sell_insert(s, x)[k] == x || s.contains(sell_insert(s, x)[k]),
    decreases s.len(),
{
    broadcast use vstd::seq_lib::group_to_multiset_ensures;
    let r = sell_insert(s, x);
    if s.len() == 0 {
        assert(r.to_multiset() =~= s.to_multiset().insert(x)) by {
            assert(r == Seq::<SellOrder>::empty().push(x));
        }
    } else if s.last().min_price >= x.min_price {
    } else {
        let d = s.drop_last();
        assert(asks_descending(d));
        lemma_sell_insert(d, x);
        let r1 = sell_insert(d, x);
        assert(s == d.push(s.last()));
        assert forall|k: int| 0 <= k < r1.len() implies #[trigger] r1[k].min_price >= s.last().min_price by {
            if r1[k] != x {
                let m = choose|m: int| 0 <= m < d.len() && d[m] == r1[k];
                assert(d[m] == s[m]);
            }
        }
        assert forall|k: int| 0 <= k < r.len() implies #[trigger] r[k] == x || s.contains(r[k]) by {
            if k < r1.len() {
                if r1[k] != x {
                    let m = choose|m: int| 0 <= m < d.len() && d[m] == r1[k];
                    assert(s[m] == r1[k]);
                }
            } else {
                assert(r[k] == s[s.len() - 1]);
            }
        }
    }
}

/// Sorting the sell orders that meet a buy order puts them in descending
/// order of ask and keeps every order, each as often as it was there.
pub proof fn law_sorted_sells(s: Seq<SellOrder>)
    ensures
        asks_descending(sorted_sells(s)),
        sorted_sells(s).to_multiset() == s.to_multiset(),
    decreases s.len(),
{
    broadcast use vstd::seq_lib::group_to_multiset_ensures;
    if s.len() > 0 {
        law_sorted_sells(s.drop_last());
        lemma_sell_insert(sorted_sells(s.drop_last()), s.last());
        assert(s == s.drop_last().push(s.last()));
    }
}

// ---------------------------------------------------------------------------
// Rights, limits and the issuer list
// ---------------------------------------------------------------------------

/// Granting, revoking and changing issue rights never change what any firm
/// has issued or what anyone holds; revoking leaves every limit alone, and
/// granting sets a limit only for a firm that has none.
pub proof fn law_rights_calls_keep_issued(v: MarketView, origin: Origin, firm: AccountId, n: u64)
    ensures
        v.give_issue_rights(origin, firm, n).0.floating == v.floating,
        v.revoke_issue_rights(origin, firm).0.floating == v.floating,
        v.change_authorized_shares(origin, firm, n).0.floating == v.floating,
        v.give_issue_rights(origin, firm, n).0.owned == v.owned,
        v.revoke_issue_rights(origin, firm).0.owned == v.owned,
        v.change_authorized_shares(origin, firm, n).0.owned == v.owned,
        v.revoke_issue_rights(origin, firm).0.authorized == v.authorized,
        v.authorized_of(firm) != 0 ==> v.give_issue_rights(origin, firm, n).0.authorized == v.authorized,
{
}

/// A firm that issues shares is on the issuer list afterwards.
pub proof fn law_issuing_lists_firm(v: MarketView, firm: AccountId, amount: u64)
    requires
        v.issue_shares(Origin::Signed(firm), amount).1 is Ok,
    ensures
        v.issue_shares(Origin::Signed(firm), amount).0.is_issuer(firm),
{
    if !v.is_issuer(firm) {
        assert(v.issuers.push(firm)[v.issuers.len() as int] == firm);
    }
}

/// A firm whose floating shares fall to zero by retiring leaves the issuer
/// list.
pub proof fn law_retiring_all_delists(v: MarketView, firm: AccountId, amount: u64)
    requires
        v.retire_shares(Origin::Signed(firm), amount).1 is Ok,
        v.floating_of(firm) == amount,
    ensures
        !v.retire_shares(Origin::Signed(firm), amount).0.is_issuer(firm),
{
    let pred = |x: AccountId| x != firm;
    broadcast use vstd::seq_lib::group_filter_ensures;
    let w = v.retire_shares(Origin::Signed(firm), amount).0;
    if v.is_issuer(firm) {
        assert(w.issuers == v.issuers.filter(pred));
        if w.issuers.contains(firm) {
            let i = choose|i: int| 0 <= i < w.issuers.len() && w.issuers[i] == firm;
            assert(pred(v.issuers.filter(pred)[i]));
        }
    }
}

// ---------------------------------------------------------------------------
// Limit orders trade only within their limits
// ---------------------------------------------------------------------------

/// The last traded price of `firm` is still that of `v`, or at least `p`.
pub open spec fn bid_at_least(v: MarketView, w: MarketView, firm: AccountId, p: Balance) -> bool {
    w.last_bid_of(firm) == v.last_bid_of(firm) || w.last_bid_of(firm) >= p
}

/// The last traded price of `firm` is still that of `v`, or at most `p`.
pub open spec fn bid_at_most(v: MarketView, w: MarketView, firm: AccountId, p: Balance) -> bool {
    w.last_bid_of(firm) == v.last_bid_of(firm) || w.last_bid_of(firm) <= p
}

/// The last traded prices of all firms but `firm` are those of `v`.
pub open spec fn other_bids_kept(v: MarketView, w: MarketView, firm: AccountId) -> bool {
    forall|g: AccountId| g != firm ==> #[trigger] w.last_bid_of(g) == v.last_bid_of(g)
}

proof fn lemma_helpers_last_bid(v: MarketView, a: AccountId, b: AccountId, f: AccountId, n: u64, p: Balance)
    ensures
        v.lock_shares(a, f, n).0.last_bid == v.last_bid,
        v.unlock_shares(a, f, n).0.last_bid == v.last_bid,
        v.generate_hash(a).0.last_bid == v.last_bid,
        v.add_sell_order(a, f, b, p, n).0.last_bid == v.last_bid,
        v.add_buy_order(a, f, b, p, n).0.last_bid == v.last_bid,
        v.process_order(a, b, f, n, p).0.last_bid == v.last_bid || v.process_order(a, b, f, n, p).0.last_bid
            == v.last_bid.insert(f, p),
{
}

proof fn lemma_sell_step_last_bid(v: MarketView, temp: Seq<BuyOrder>, rem: u64, order: BuyOrder, sender: AccountId, firm: AccountId)
    ensures
        match v.sell_step(temp, rem, order, sender, firm) {
            Flow::Next(w, _, _) => w.last_bid == v.last_bid || w.last_bid == v.last_bid.insert(firm, order.max_price),
            Flow::Stop(w, _, _) => w.last_bid == v.last_bid || w.last_bid == v.last_bid.insert(firm, order.max_price),
            Flow::Abort(w, _) => w.last_bid == v.last_bid || w.last_bid == v.last_bid.insert(firm, order.max_price),
        },
{
    if rem != 0 && order.max_price * order.amount <= u128::MAX {
        let v1 = v.with_ledger(v.ledger.unreserve(order.owner, (order.max_price * order.amount) as u128));
        let n = if order.amount <= rem { order.amount } else { rem };
        lemma_helpers_last_bid(v1, sender, order.owner, firm, n, order.max_price);
        let v2 = v1.process_order(sender, order.owner, firm, n, order.max_price).0;
        lemma_helpers_last_bid(v2, sender, order.owner, firm, n, order.max_price);
    }
}

proof fn lemma_buy_step_last_bid(v: MarketView, temp: Seq<SellOrder>, rem: u64, order: SellOrder, sender: AccountId, firm: AccountId)
    ensures
        match v.buy_step(temp, rem, order, sender, firm) {
            Flow::Next(w, _, _) => w.last_bid == v.last_bid || w.last_bid == v.last_bid.insert(firm, order.min_price),
            Flow::Stop(w, _, _) => w.last_bid == v.last_bid || w.last_bid == v.last_bid.insert(firm, order.min_price),
            Flow::Abort(w, _) => w.last_bid == v.last_bid || w.last_bid == v.last_bid.insert(firm, order.min_price),
        },
{
    if rem != 0 {
        let n = if order.amount <= rem { order.amount } else { rem };
        lemma_helpers_last_bid(v, order.owner, sender, order.firm, n, order.min_price);
        let v1 = v.unlock_shares(order.owner, order.firm, n).0;
        lemma_helpers_last_bid(v1, order.owner, sender, firm, n, order.min_price);
        let v2 = v1.process_order(order.owner, sender, firm, n, order.min_price).0;
        lemma_helpers_last_bid(v2, sender, sender, firm, n, order.min_price);
    }
}

proof fn lemma_sell_loop_prices(
    v0: MarketView,
    v: MarketView,
    temp: Seq<BuyOrder>,
    rem: u64,
    snap: Seq<BuyOrder>,
    i: int,
    sender: AccountId,
    firm: AccountId,
    p: Balance,
)
    requires
        bid_at_least(v0, v, firm, p),
        other_bids_kept(v0, v, firm),
        forall|k: int| 0 <= k < snap.len() ==> #[trigger] snap[k].max_price >= p,
    ensures
        match v.sell_loop(temp, rem, snap, i, sender, firm) {
            Flow::Next(w, _, _) => bid_at_least(v0, w, firm, p) && other_bids_kept(v0, w, firm),
            Flow::Stop(w, _, _) => bid_at_least(v0, w, firm, p) && other_bids_kept(v0, w, firm),
            Flow::Abort(w, _) => bid_at_least(v0, w, firm, p) && other_bids_kept(v0, w, firm),
        },
    decreases snap.len() - i,
{
    if 0 <= i < snap.len() {
        let order = snap[i];
        assert(order.max_price >= p);
        lemma_sell_step_last_bid(v, temp, rem, order, sender, firm);
        match v.sell_step(temp, rem, order, sender, firm) {
            Flow::Next(w, t, r) => {
                assert(other_bids_kept(v0, w, firm)) by {
                    assert forall|g: AccountId| g != firm implies #[trigger] w.last_bid_of(g) == v0.last_bid_of(g) by {
                        assert(w.last_bid_of(g) == v.last_bid_of(g));
                    }
                }
                lemma_sell_loop_prices(v0, w, t, r, snap, i + 1, sender, firm, p);
            },
            Flow::Stop(w, t, r) => {
                assert forall|g: AccountId| g != firm implies #[trigger] w.last_bid_of(g) == v0.last_bid_of(g) by {
                    assert(w.last_bid_of(g) == v.last_bid_of(g));
                }
            },
            Flow::Abort(w, _) => {
                assert forall|g: AccountId| g != firm implies #[trigger] w.last_bid_of(g) == v0.last_bid_of(g) by {
                    assert(w.last_bid_of(g) == v.last_bid_of(g));
                }
            },
        }
    }
}

proof fn lemma_buy_loop_prices(
    v0: MarketView,
    v: MarketView,
    temp: Seq<SellOrder>,
    rem: u64,
    snap: Seq<SellOrder>,
    i: int,
    sender: AccountId,
    firm: AccountId,
    p: Balance,
)
    requires
        bid_at_most(v0, v, firm, p),
        other_bids_kept(v0, v, firm),
        forall|k: int| 0 <= k < snap.len() ==> #[trigger] snap[k].min_price <= p,
    ensures
        match v.buy_loop(temp, rem, snap, i, sender, firm) {
            Flow::Next(w, _, _) => bid_at_most(v0, w, firm, p) && other_bids_kept(v0, w, firm),
            Flow::Stop(w, _, _) => bid_at_most(v0, w, firm, p) && other_bids_kept(v0, w, firm),
            Flow::Abort(w, _) => bid_at_most(v0, w, firm, p) && other_bids_kept(v0, w, firm),
        },
    decreases snap.len() - i,
{
    if 0 <= i < snap.len() {
        let order = snap[i];
        assert(order.min_price <= p);
        lemma_buy_step_last_bid(v, temp, rem, order, sender, firm);
        match v.buy_step(temp, rem, order, sender, firm) {
            Flow::Next(w, t, r) => {
                assert(other_bids_kept(v0, w, firm)) by {
                    assert forall|g: AccountId| g != firm implies #[trigger] w.last_bid_of(g) == v0.last_bid_of(g) by {
                        assert(w.last_bid_of(g) == v.last_bid_of(g));
                    }
                }
                lemma_buy_loop_prices(v0, w, t, r, snap, i + 1, sender, firm, p);
            },
            Flow::Stop(w, t, r) => {
                assert forall|g: AccountId| g != firm implies #[trigger] w.last_bid_of(g) == v0.last_bid_of(g) by {
                    assert(w.last_bid_of(g) == v.last_bid_of(g));
                }
            },
            Flow::Abort(w, _) => {
                assert forall|g: AccountId| g != firm implies #[trigger] w.last_bid_of(g) == v0.last_bid_of(g) by {
                    assert(w.last_bid_of(g) == v.last_bid_of(g));
                }
            },
        }
    }
}

proof fn lemma_matching_buys_bid_enough(book: Seq<BuyOrder>, p: Balance)
    ensures
        forall|k: int| 0 <= k < sorted_buys(crate::books::buys_matching(book, p)).len()
            ==> #[trigger] sorted_buys(crate::books::buys_matching(book, p))[k].max_price >= p,
        forall|k: int| 0 <= k < sorted_buys(crate::books::buys_matching(book, p)).len()
            ==> book.contains(#[trigger] sorted_buys(crate::books::buys_matching(book, p))[k]),
{
    broadcast use vstd::seq_lib::group_to_multiset_ensures;
    let pred = |o: BuyOrder| o.max_price >= p && o.amount > 0;
    let c = crate::books::buys_matching(book, p);
    let s = sorted_buys(c);
    broadcast use vstd::seq_lib::group_filter_ensures;
    law_sorted_buys(c);
    assert forall|k: int| 0 <= k < s.len() implies #[trigger] s[k].max_price >= p by {
        assert(s.contains(s[k]));
        assert(s.to_multiset().count(s[k]) > 0);
        assert(c.contains(s[k]));
        let j = choose|j: int| 0 <= j < c.len() && c[j] == s[k];
        assert(pred(c[j]));
    }
    assert forall|k: int| 0 <= k < s.len() implies book.contains(#[trigger] s[k]) by {
        assert(s.contains(s[k]));
        assert(s.to_multiset().count(s[k]) > 0);
        assert(c.contains(s[k]));
        book.lemma_filter_contains_rev(pred, s[k]);
    }
}

proof fn lemma_matching_sells_ask_little(book: Seq<SellOrder>, p: Balance)
    ensures
        forall|k: int| 0 <= k < sorted_sells(crate::books::sells_matching(book, p)).len()
            ==> #[trigger] sorted_sells(crate::books::sells_matching(book, p))[k].min_price <= p,
        forall|k: int| 0 <= k < sorted_sells(crate::books::sells_matching(book, p)).len()
            ==> book.contains(#[trigger] sorted_sells(crate::books::sells_matching(book, p))[k]),
{
    broadcast use vstd::seq_lib::group_to_multiset_ensures;
    let pred = |o: SellOrder| o.min_price <= p && o.amount > 0;
    let c = crate::books::sells_matching(book, p);
    let s = sorted_sells(c);
    broadcast use vstd::seq_lib::group_filter_ensures;
    law_sorted_sells(c);
    assert forall|k: int| 0 <= k < s.len() implies #[trigger] s[k].min_price <= p by {
        assert(s.contains(s[k]));
        assert(s.to_multiset().count(s[k]) > 0);
        assert(c.contains(s[k]));
        let j = choose|j: int| 0 <= j < c.len() && c[j] == s[k];
        assert(pred(c[j]));
    }
    assert forall|k: int| 0 <= k < s.len() implies book.contains(#[trigger] s[k]) by {
        assert(s.contains(s[k]));
        assert(s.to_multiset().count(s[k]) > 0);
        assert(c.contains(s[k]));
        book.lemma_filter_contains_rev(pred, s[k]);
    }
}

/// A sell order never trades below its minimum price: every trade it makes
/// is at the bid of a buy order that offers at least that much, so the
/// firm's last traded price is either unchanged or at least the minimum;
/// no other firm's last price changes.
pub proof fn law_sell_respects_limit(v: MarketView, origin: Origin, firm: AccountId, amount: u64, min_price: Balance)
    ensures
        bid_at_least(v, v.put_sell_order(origin, firm, amount, min_price).0, firm, min_price),
        other_bids_kept(v, v.put_sell_order(origin, firm, amount, min_price).0, firm),
{
    if let Some(sender) = signer(origin) {
        let book = v.buys_of(firm);
        let snap = sorted_buys(crate::books::buys_matching(book, min_price));
        lemma_matching_buys_bid_enough(book, min_price);
        lemma_sell_loop_prices(v, v, snap, amount, snap, 0, sender, firm, min_price);
        lemma_helpers_last_bid(v, sender, sender, firm, amount, min_price);
        match v.sell_loop(snap, amount, snap, 0, sender, firm) {
            Flow::Stop(w, t, rem) => {
                let w1 = w.with_buys(firm, crate::books::buys_under(book, min_price) + t);
                lemma_helpers_last_bid(w1, sender, sender, firm, rem, min_price);
                let w2 = w1.list_sell_rest(sender, firm, min_price, rem).0;
                assert forall|g: AccountId| g != firm implies #[trigger] w2.last_bid_of(g) == v.last_bid_of(g) by {
                    assert(w2.last_bid_of(g) == w.last_bid_of(g));
                }
            },
            _ => {},
        }
    }
}

/// A buy order never trades above its maximum price: every trade it makes
/// is at the ask of a sell order that asks at most that much, so the
/// firm's last traded price is either unchanged or at most the maximum; no
/// other firm's last price changes.
pub proof fn law_buy_respects_limit(v: MarketView, origin: Origin, firm: AccountId, amount: u64, max_price: Balance)
    ensures
        bid_at_most(v, v.put_buy_order(origin, firm, amount, max_price).0, firm, max_price),
        other_bids_kept(v, v.put_buy_order(origin, firm, amount, max_price).0, firm),
{
    if let Some(sender) = signer(origin) {
        let book = v.sells_of(firm);
        let snap = sorted_sells(crate::books::sells_matching(book, max_price));
        lemma_matching_sells_ask_little(book, max_price);
        lemma_buy_loop_prices(v, v, snap, amount, snap, 0, sender, firm, max_price);
        lemma_helpers_last_bid(v, sender, sender, firm, amount, max_price);
        match v.buy_loop(snap, amount, snap, 0, sender, firm) {
            Flow::Stop(w, t, rem) => {
                let w1 = w.with_sells(firm, crate::books::sells_over(book, max_price) + t);
                lemma_helpers_last_bid(w1, sender, sender, firm, rem, max_price);
                let w2 = w1.list_buy_rest(sender, firm, max_price, rem).0;
                assert forall|g: AccountId| g != firm implies #[trigger] w2.last_bid_of(g) == v.last_bid_of(g) by {
                    assert(w2.last_bid_of(g) == w.last_bid_of(g));
                }
            },
            _ => {},
        }
    }
}

// ---------------------------------------------------------------------------
// Orders are backed, and their ids are drawn from distinct inputs
// ---------------------------------------------------------------------------

/// The shares that `owner` offers in the sell orders of `s`.
pub open spec fn offered(s: Seq<SellOrder>, owner: AccountId) -> int
    decreases s.len(),
{
    if s.len() == 0 {
        0
    } else {
        offered(s.drop_last(), owner) + (if s.last().owner == owner {
            s.last().amount as int
        } else {
            0
        })
    }
}

/// Every account's locked shares in a firm are exactly what it offers in
/// that firm's sell orders.
pub open spec fn sells_backed(v: MarketView) -> bool {
    forall|o: AccountId, f: AccountId| #[trigger] v.locked_of(o, f) == offered(v.sells_of(f), o)
}

/// Listing a sell order for one's own shares keeps every sell order backed
/// by exactly its locked shares: the listing and the lock come together,
/// and a refused lock lists nothing.
pub proof fn law_sell_orders_stay_locked(v: MarketView, from: AccountId, firm: AccountId, min_price: Balance, amount: u64)
    requires
        sells_backed(v),
    ensures
        sells_backed(v.add_sell_order(from, firm, from, min_price, amount).0),
{
    let w = v.add_sell_order(from, firm, from, min_price, amount).0;
    if v.is_issuer(firm) {
        let (v1, id) = v.generate_hash(from);
        if v1.lock_shares(from, firm, amount).1 is Ok {
            let order = SellOrder { firm, owner: from, min_price, amount, order_id: id };
            let s = v1.sells_of(firm);
            assert(s.push(order).drop_last() == s);
            assert forall|o: AccountId, f: AccountId| #[trigger] w.locked_of(o, f) == offered(w.sells_of(f), o) by {
                lemma_holding_key_injective(o, f, from, firm);
                assert(v.locked_of(o, f) == offered(v.sells_of(f), o));
                if f == firm {
                    assert(w.sells_of(f) == s.push(order));
                }
            }
        } else {
            assert forall|o: AccountId, f: AccountId| #[trigger] w.locked_of(o, f) == offered(w.sells_of(f), o) by {
                assert(v.locked_of(o, f) == offered(v.sells_of(f), o));
            }
        }
    }
}

/// What `owner`'s buy orders in `s` cost in all.
pub open spec fn owed(s: Seq<BuyOrder>, owner: AccountId) -> int
    decreases s.len(),
{
    if s.len() == 0 {
        0
    } else {
        owed(s.drop_last(), owner) + (if s.last().owner == owner {
            s.last().max_price * s.last().amount
        } else {
            0
        })
    }
}

/// The weight of a firm's buy book in what `owner` owes.
pub open spec fn owed_weight(owner: AccountId) -> spec_fn(AccountId, Seq<BuyOrder>) -> int {
    |f: AccountId, s: Seq<BuyOrder>| owed(s, owner)
}

/// Every account's reserved balance covers the whole price of its buy
/// orders in all firms.
pub open spec fn buys_backed(v: MarketView) -> bool {
    &&& v.buys.dom().finite()
    &&& forall|a: AccountId| #[trigger] v.ledger.reserved_of(a) >= crate::conservation::sum_where(v.buys, owed_weight(a))
}

/// Listing a buy order for one's own funds keeps every account's buy
/// orders covered by its reserved balance: the whole price is reserved
/// before the order is listed, and a refused reservation lists nothing.
pub proof fn law_buy_orders_stay_reserved(v: MarketView, from: AccountId, firm: AccountId, max_price: Balance, amount: u64)
    requires
        buys_backed(v),
    ensures
        buys_backed(v.add_buy_order(from, firm, from, max_price, amount).0),
{
    let w = v.add_buy_order(from, firm, from, max_price, amount).0;
    if v.is_issuer(firm) {
        let (v1, id) = v.generate_hash(from);
        if v1.place_buy_order(from, firm, from, max_price, amount, id).1 is Ok {
            let order = BuyOrder { firm, owner: from, max_price, amount, order_id: id };
            let s = v1.buys_of(firm);
            assert(s.push(order).drop_last() == s);
            assert(w.buys == v.buys.insert(firm, s.push(order)));
            assert forall|a: AccountId| #[trigger] w.ledger.reserved_of(a) >= crate::conservation::sum_where(w.buys, owed_weight(a)) by {
                crate::conservation::lemma_sum_insert(v.buys, owed_weight(a), firm, s.push(order));
                assert(v.ledger.reserved_of(a) >= crate::conservation::sum_where(v.buys, owed_weight(a)));
                assert(owed(s.push(order), a) == owed(s, a) + (if from == a { max_price * amount } else { 0 }));
            }
            crate::conservation::lemma_sum_insert(v.buys, owed_weight(from), firm, s.push(order));
        } else {
            assert forall|a: AccountId| #[trigger] w.ledger.reserved_of(a) >= crate::conservation::sum_where(w.buys, owed_weight(a)) by {
                assert(v.ledger.reserved_of(a) >= crate::conservation::sum_where(v.buys, owed_weight(a)));
            }
        }
    }
}

/// Two order ids drawn one after the other hash different inputs, since
/// the nonce moves on in between (also where it wraps). So they can be the
/// same only where BLAKE2b-256 gives one 32-byte digest for two different
/// inputs.
pub proof fn law_successive_ids_differ_in_input(v: MarketView, s1: AccountId, s2: AccountId)
    ensures
        crate::hashing::order_hash_input(v.seed, s1, v.nonce) != crate::hashing::order_hash_input(
            v.generate_hash(s1).0.seed,
            s2,
            v.generate_hash(s1).0.nonce,
        ),
        v.generate_hash(s1).1 == crate::hashing::order_id_for(v.seed, s1, v.nonce),
        v.generate_hash(s1).0.generate_hash(s2).1 == crate::hashing::order_id_for(
            v.seed,
            s2,
            v.generate_hash(s1).0.nonce,
        ),
{
    let n1 = v.nonce;
    let n2 = v.generate_hash(s1).0.nonce;
    let i1 = crate::hashing::order_hash_input(v.seed, s1, n1);
    let i2 = crate::hashing::order_hash_input(v.seed, s2, n2);
    vstd::arithmetic::power::lemma_pow0(2);
    assert(vstd::arithmetic::power2::pow2(0) == 1);
    assert(((8 * 0int) as nat) == 0nat);
    assert(crate::hashing::le_bytes_u64(n1)[0] == (n1 % 256) as u8);
    assert(crate::hashing::le_bytes_u64(n2)[0] == (n2 % 256) as u8);
    assert(i1[40] == crate::hashing::le_bytes_u64(n1)[0]);
    assert(i2[40] == crate::hashing::le_bytes_u64(n2)[0]);
    assert(i1[40] != i2[40]);
}

// ---------------------------------------------------------------------------
// What a single call promises
// ---------------------------------------------------------------------------

/// A trade that goes through records its price as the firm's last traded
/// price, whatever the price recorded before, and touches no other firm's
/// last price.
pub proof fn law_trade_records_its_price(
    v: MarketView,
    from: AccountId,
    to: AccountId,
    firm: AccountId,
    amount: u64,
    price_per_share: Balance,
)
    requires
        v.process_order(from, to, firm, amount, price_per_share).1 is Ok,
    ensures
        v.process_order(from, to, firm, amount, price_per_share).0.last_bid_of(firm) == price_per_share,
        forall|g: AccountId|
            g != firm ==> #[trigger] v.process_order(from, to, firm, amount, price_per_share).0.last_bid_of(g)
                == v.last_bid_of(g),
{
    let w = v.process_order(from, to, firm, amount, price_per_share).0;
    assert forall|g: AccountId| g != firm implies #[trigger] w.last_bid_of(g) == v.last_bid_of(g) by {}
}

/// A limit change that the sudo key makes takes effect: afterwards the
/// firm's limit is exactly the new one, above what the firm has issued,
/// and no other firm's limit moves. It is accepted exactly when the sudo
/// key signs it for another account that may issue shares, and the new
/// limit exceeds what that firm has issued.
pub proof fn law_new_limit_takes_effect(v: MarketView, origin: Origin, firm: AccountId, new_limit: u64)
    ensures
        v.change_authorized_shares(origin, firm, new_limit).1 is Ok <==> (origin == Origin::Signed(v.sudo)
            && v.sudo != firm && v.allowed_of(firm) && v.floating_of(firm) < new_limit),
        v.change_authorized_shares(origin, firm, new_limit).1 is Ok ==> v.change_authorized_shares(
            origin,
            firm,
            new_limit,
        ).0.authorized_of(firm) == new_limit,
        v.change_authorized_shares(origin, firm, new_limit).1 is Ok ==> v.floating_of(firm) < v.change_authorized_shares(
            origin,
            firm,
            new_limit,
        ).0.authorized_of(firm),
        forall|g: AccountId|
            g != firm ==> #[trigger] v.change_authorized_shares(origin, firm, new_limit).0.authorized_of(g)
                == v.authorized_of(g),
{
    let w = v.change_authorized_shares(origin, firm, new_limit).0;
    assert forall|g: AccountId| g != firm implies #[trigger] w.authorized_of(g) == v.authorized_of(g) by {}
}

/// Issuing shares adds them to the firm's floating shares and to its own
/// holding, and keeps the firm below its limit. It is accepted exactly
/// when the firm may issue, stays below its limit, and its holding does
/// not overflow.
pub proof fn law_issuing_adds_shares(v: MarketView, firm: AccountId, amount: u64)
    ensures
        v.issue_shares(Origin::Signed(firm), amount).1 is Ok <==> (v.allowed_of(firm) && v.floating_of(firm)
            + amount < v.authorized_of(firm) && v.owned_of(firm, firm) + amount <= u64::MAX),
        v.issue_shares(Origin::Signed(firm), amount).1 is Ok ==> {
            let w = v.issue_shares(Origin::Signed(firm), amount).0;
            &&& w.floating_of(firm) == v.floating_of(firm) + amount
            &&& w.owned_of(firm, firm) == v.owned_of(firm, firm) + amount
            &&& w.floating_of(firm) < w.authorized_of(firm)
        },
{
}

/// Retiring shares burns them from the firm's own holding and from its
/// floating shares. It is accepted exactly when the firm holds that many
/// and has issued that many.
pub proof fn law_retiring_burns_shares(v: MarketView, firm: AccountId, amount: u64)
    ensures
        v.retire_shares(Origin::Signed(firm), amount).1 is Ok <==> (v.owned_of(firm, firm) >= amount
            && v.floating_of(firm) >= amount),
        v.retire_shares(Origin::Signed(firm), amount).1 is Ok ==> {
            let w = v.retire_shares(Origin::Signed(firm), amount).0;
            &&& w.floating_of(firm) == v.floating_of(firm) - amount
            &&& w.owned_of(firm, firm) == v.owned_of(firm, firm) - amount
        },
{
}

/// Granting issue rights, by the sudo key to another account that lacks
/// them, lets the firm issue; a firm without a limit gets the one given,
/// and one with a limit keeps it. Revoking them, by the sudo key from
/// another account that has them, leaves the firm unable to issue.
pub proof fn law_rights_take_effect(v: MarketView, firm: AccountId, authorized: u64)
    ensures
        v.give_issue_rights(Origin::Signed(v.sudo), firm, authorized).1 is Ok <==> (v.sudo != firm
            && !v.allowed_of(firm) && (v.authorized_of(firm) != 0 || authorized != 0)),
        v.give_issue_rights(Origin::Signed(v.sudo), firm, authorized).1 is Ok ==> {
            let w = v.give_issue_rights(Origin::Signed(v.sudo), firm, authorized).0;
            &&& w.allowed_of(firm)
            &&& w.authorized_of(firm) == if v.authorized_of(firm) == 0 {
                authorized
            } else {
                v.authorized_of(firm)
            }
        },
        v.revoke_issue_rights(Origin::Signed(v.sudo), firm).1 is Ok <==> (v.sudo != firm && v.allowed_of(firm)),
        v.revoke_issue_rights(Origin::Signed(v.sudo), firm).1 is Ok ==> !v.revoke_issue_rights(
            Origin::Signed(v.sudo),
            firm,
        ).0.allowed_of(firm),
{
}

/// Locking shares moves them from the owner's free holding to its locked
/// holding, and unlocking moves them back; each is refused when the
/// holding it takes from is short, and a refusal changes nothing.
pub proof fn law_locking_moves_shares(v: MarketView, owner: AccountId, firm: AccountId, amount: u64)
    ensures
        v.lock_shares(owner, firm, amount).1 is Ok ==> {
            let w = v.lock_shares(owner, firm, amount).0;
            &&& w.owned_of(owner, firm) == v.owned_of(owner, firm) - amount
            &&& w.locked_of(owner, firm) == v.locked_of(owner, firm) + amount
        },
        v.owned_of(owner, firm) < amount ==> v.lock_shares(owner, firm, amount) == (v, Err::<(), MarketError>(
            MarketError::LockNotEnough,
        )),
        v.unlock_shares(owner, firm, amount).1 is Ok ==> {
            let w = v.unlock_shares(owner, firm, amount).0;
            &&& w.owned_of(owner, firm) == v.owned_of(owner, firm) + amount
            &&& w.locked_of(owner, firm) == v.locked_of(owner, firm) - amount
        },
        v.locked_of(owner, firm) < amount ==> v.unlock_shares(owner, firm, amount) == (v, Err::<(), MarketError>(
            MarketError::UnlockTooMuch,
        )),
{
}

/// Reserving funds moves them from the free balance to the reserved one,
/// and is refused, moving nothing, when the free balance is short.
pub proof fn law_reserving_moves_funds(l: LedgerView, who: AccountId, value: Balance)
    ensures
        l.reserve(who, value).1 is Ok ==> l.reserve(who, value).0.free_of(who) == l.free_of(who) - value
            && l.reserve(who, value).0.reserved_of(who) == l.reserved_of(who) + value,
        l.free_of(who) < value ==> l.reserve(who, value).0 == l && l.reserve(who, value).1 is Err,
{
}

/// A listed firm that still has shares floating after retiring some stays
/// on the issuer list, whatever it still holds itself; no other account
/// joins or leaves the list.
pub proof fn law_firm_with_floating_shares_stays_listed(v: MarketView, firm: AccountId, amount: u64)
    requires
        v.retire_shares(Origin::Signed(firm), amount).1 is Ok,
        v.is_issuer(firm),
        v.floating_of(firm) > amount,
    ensures
        v.retire_shares(Origin::Signed(firm), amount).0.is_issuer(firm),
        v.retire_shares(Origin::Signed(firm), amount).0.issuers == v.issuers,
        v.retire_shares(Origin::Signed(firm), amount).0.floating_of(firm) == v.floating_of(firm) - amount,
{
}

// ---------------------------------------------------------------------------
// Matching goes on until the order is filled or the book no longer crosses
// ---------------------------------------------------------------------------

/// Every trade that matching a seller of `rem` shares against the buy
/// orders of `snap`, from the `i`-th on, attempts is accepted: the
/// release of each buyer's reservation and the trade itself. A buy order
/// that takes all that is left ends the matching.
pub open spec fn sell_trades_go_through(
    v: MarketView,
    rem: u64,
    snap: Seq<BuyOrder>,
    i: int,
    sender: AccountId,
    firm: AccountId,
) -> bool
    decreases snap.len() - i,
{
    if i < 0 || i >= snap.len() || rem == 0 {
        true
    } else {
        let o = snap[i];
        if o.max_price * o.amount > u128::MAX {
            true
        } else {
            let v1 = v.with_ledger(v.ledger.unreserve(o.owner, (o.max_price * o.amount) as u128));
            let n = if o.amount <= rem {
                o.amount
            } else {
                rem
            };
            let (v2, traded) = v1.process_order(sender, o.owner, firm, n, o.max_price);
            &&& traded is Ok
            &&& o.amount <= rem ==> sell_trades_go_through(
                v2,
                (rem - o.amount) as u64,
                snap,
                i + 1,
                sender,
                firm,
            )
        }
    }
}

/// Every trade that matching a buyer of `rem` shares against the sell
/// orders of `snap`, from the `i`-th on, attempts is accepted: the unlock
/// of the seller's shares and the trade itself. A sell order that gives
/// all that is still wanted ends the matching.
pub open spec fn buy_trades_go_through(
    v: MarketView,
    rem: u64,
    snap: Seq<SellOrder>,
    i: int,
    sender: AccountId,
    firm: AccountId,
) -> bool
    decreases snap.len() - i,
{
    if i < 0 || i >= snap.len() || rem == 0 {
        true
    } else {
        let o = snap[i];
        let n = if o.amount <= rem {
            o.amount
        } else {
            rem
        };
        let (v1, unlocked) = v.unlock_shares(o.owner, o.firm, n);
        let (v2, traded) = v1.process_order(o.owner, sender, firm, n, o.min_price);
        &&& unlocked is Ok
        &&& traded is Ok
        &&& o.amount <= rem ==> buy_trades_go_through(
            v2,
            (rem - o.amount) as u64,
            snap,
            i + 1,
            sender,
            firm,
        )
    }
}

/// No buy order in `b` bids at least `min_price` for any shares.
pub open spec fn no_bid_reaches(b: Seq<BuyOrder>, min_price: Balance) -> bool {
    forall|k: int| 0 <= k < b.len() ==> #[trigger] b[k].max_price < min_price || b[k].amount == 0
}

/// No sell order in `s` asks at most `max_price` for any shares.
pub open spec fn no_ask_reaches(s: Seq<SellOrder>, max_price: Balance) -> bool {
    forall|k: int| 0 <= k < s.len() ==> #[trigger] s[k].min_price > max_price || s[k].amount == 0
}

proof fn lemma_sell_loop_sells_out_or_clears(
    v: MarketView,
    temp: Seq<BuyOrder>,
    rem: u64,
    snap: Seq<BuyOrder>,
    i: int,
    sender: AccountId,
    firm: AccountId,
)
    requires
        0 <= i <= snap.len(),
        forall|x: BuyOrder| #[trigger] temp.contains(x) ==> exists|j: int| i <= j < snap.len() && snap[j] == x,
        sell_trades_go_through(v, rem, snap, i, sender, firm),
    ensures
        v.sell_loop(temp, rem, snap, i, sender, firm) matches Flow::Stop(w, t, r) ==> (r == 0
            || t.len() == 0) && w.sells == v.sells,
        !(v.sell_loop(temp, rem, snap, i, sender, firm) is Next),
    decreases snap.len() - i,
{
    broadcast use vstd::seq_lib::group_filter_ensures;

    if i >= snap.len() {
        if temp.len() > 0 {
            assert(temp.contains(temp[0]));
        }
    } else {
        let o = snap[i];
        if rem != 0 && o.max_price * o.amount <= u128::MAX && o.amount <= rem {
            let v1 = v.with_ledger(v.ledger.unreserve(o.owner, (o.max_price * o.amount) as u128));
            let v2 = v1.process_order(sender, o.owner, firm, o.amount, o.max_price).0;
            let t2 = buys_without(temp, o.order_id);
            assert forall|x: BuyOrder| #[trigger] t2.contains(x) implies exists|j: int|
                i + 1 <= j < snap.len() && snap[j] == x by {
                temp.lemma_filter_contains_rev(|b: BuyOrder| b.order_id != o.order_id, x);
                let k = choose|k: int| 0 <= k < t2.len() && t2[k] == x;
                assert(x.order_id != o.order_id);
                let j = choose|j: int| i <= j < snap.len() && snap[j] == x;
                assert(j != i);
            }
            lemma_sell_loop_sells_out_or_clears(v2, t2, (rem - o.amount) as u64, snap, i + 1, sender, firm);
        }
    }
}

proof fn lemma_buy_loop_buys_all_or_clears(
    v: MarketView,
    temp: Seq<SellOrder>,
    rem: u64,
    snap: Seq<SellOrder>,
    i: int,
    sender: AccountId,
    firm: AccountId,
)
    requires
        0 <= i <= snap.len(),
        forall|x: SellOrder| #[trigger] temp.contains(x) ==> exists|j: int| i <= j < snap.len() && snap[j] == x,
        buy_trades_go_through(v, rem, snap, i, sender, firm),
    ensures
        v.buy_loop(temp, rem, snap, i, sender, firm) matches Flow::Stop(w, t, r) ==> (r == 0
            || t.len() == 0) && w.buys == v.buys,
        !(v.buy_loop(temp, rem, snap, i, sender, firm) is Next),
    decreases snap.len() - i,
{
    broadcast use vstd::seq_lib::group_filter_ensures;

    if i >= snap.len() {
        if temp.len() > 0 {
            assert(temp.contains(temp[0]));
        }
    } else {
        let o = snap[i];
        if rem != 0 && o.amount <= rem {
            let v1 = v.unlock_shares(o.owner, o.firm, o.amount).0;
            let v2 = v1.process_order(o.owner, sender, firm, o.amount, o.min_price).0;
            let t2 = sells_without(temp, o.order_id);
            assert forall|x: SellOrder| #[trigger] t2.contains(x) implies exists|j: int|
                i + 1 <= j < snap.len() && snap[j] == x by {
                temp.lemma_filter_contains_rev(|b: SellOrder| b.order_id != o.order_id, x);
                let k = choose|k: int| 0 <= k < t2.len() && t2[k] == x;
                assert(x.order_id != o.order_id);
                let j = choose|j: int| i <= j < snap.len() && snap[j] == x;
                assert(j != i);
            }
            lemma_buy_loop_buys_all_or_clears(v2, t2, (rem - o.amount) as u64, snap, i + 1, sender, firm);
        }
    }
}

/// A sell order goes on matching buy orders until the seller's shares are
/// all sold or the firm's book no longer crosses: after a successful
/// `put_sell_order` whose trades all go through, either nothing was left
/// to list, or no buy order left on the firm's book bids at least the
/// minimum price.
pub proof fn law_sell_matches_until_sold_or_uncrossed(
    v: MarketView,
    sender: AccountId,
    firm: AccountId,
    amount: u64,
    min_price: Balance,
)
    requires
        v.put_sell_order(Origin::Signed(sender), firm, amount, min_price).1 is Ok,
        sell_trades_go_through(
            v,
            amount,
            sorted_buys(buys_matching(v.buys_of(firm), min_price)),
            0,
            sender,
            firm,
        ),
    ensures
        v.put_sell_order(Origin::Signed(sender), firm, amount, min_price).0.sells_of(firm) == v.sells_of(firm)
            || no_bid_reaches(
            v.put_sell_order(Origin::Signed(sender), firm, amount, min_price).0.buys_of(firm),
            min_price,
        ),
{
    broadcast use vstd::seq_lib::group_filter_ensures;

    let w = v.put_sell_order(Origin::Signed(sender), firm, amount, min_price).0;
    let book = v.buys_of(firm);
    let candidates = buys_matching(book, min_price);
    if candidates.len() > 0 {
        let snap = sorted_buys(candidates);
        lemma_sell_loop_sells_out_or_clears(v, snap, amount, snap, 0, sender, firm);
        match v.sell_loop(snap, amount, snap, 0, sender, firm) {
            Flow::Stop(u, t, rem) => {
                if rem > 0 {
                    assert(t.len() == 0);
                    let under = buys_under(book, min_price);
                    assert(under + t =~= under);
                    assert(w.buys_of(firm) == under);
                    assert forall|k: int| 0 <= k < under.len() implies #[trigger] under[k].max_price
                        < min_price || under[k].amount == 0 by {}
                }
            },
            _ => {},
        }
    } else if amount > 0 {
        assert forall|k: int| 0 <= k < book.len() implies #[trigger] book[k].max_price < min_price
            || book[k].amount == 0 by {
            if book[k].max_price >= min_price && book[k].amount > 0 {
                assert(candidates.contains(book[k]));
            }
        }
    }
}

/// A buy order goes on matching sell orders until the whole amount is
/// bought or the firm's book no longer crosses: after a successful
/// `put_buy_order` whose trades all go through, either nothing was left to
/// list, or no sell order left on the firm's book asks at most the maximum
/// price.
pub proof fn law_buy_matches_until_bought_or_uncrossed(
    v: MarketView,
    sender: AccountId,
    firm: AccountId,
    amount: u64,
    max_price: Balance,
)
    requires
        v.put_buy_order(Origin::Signed(sender), firm, amount, max_price).1 is Ok,
        buy_trades_go_through(
            v,
            amount,
            sorted_sells(sells_matching(v.sells_of(firm), max_price)),
            0,
            sender,
            firm,
        ),
    ensures
        v.put_buy_order(Origin::Signed(sender), firm, amount, max_price).0.buys_of(firm) == v.buys_of(firm)
            || no_ask_reaches(
            v.put_buy_order(Origin::Signed(sender), firm, amount, max_price).0.sells_of(firm),
            max_price,
        ),
{
    broadcast use vstd::seq_lib::group_filter_ensures;

    let w = v.put_buy_order(Origin::Signed(sender), firm, amount, max_price).0;
    let book = v.sells_of(firm);
    let candidates = sells_matching(book, max_price);
    if candidates.len() > 0 {
        let snap = sorted_sells(candidates);
        lemma_buy_loop_buys_all_or_clears(v, snap, amount, snap, 0, sender, firm);
        match v.buy_loop(snap, amount, snap, 0, sender, firm) {
            Flow::Stop(u, t, rem) => {
                if rem > 0 {
                    assert(t.len() == 0);
                    let over = sells_over(book, max_price);
                    assert(over + t =~= over);
                    assert(w.sells_of(firm) == over);
                    assert forall|k: int| 0 <= k < over.len() implies #[trigger] over[k].min_price
                        > max_price || over[k].amount == 0 by {}
                }
            },
            _ => {},
        }
    } else if amount > 0 {
        assert forall|k: int| 0 <= k < book.len() implies #[trigger] book[k].min_price > max_price
            || book[k].amount == 0 by {
            if book[k].min_price <= max_price && book[k].amount > 0 {
                assert(candidates.contains(book[k]));
            }
        }
    }
}

proof fn lemma_sell_loop_moves_sellers_shares(
    v: MarketView,
    temp: Seq<BuyOrder>,
    rem: u64,
    snap: Seq<BuyOrder>,
    i: int,
    sender: AccountId,
    firm: AccountId,
)
    requires
        0 <= i <= snap.len(),
        forall|j: int| i <= j < snap.len() ==> #[trigger] snap[j].owner != sender,
        sell_trades_go_through(v, rem, snap, i, sender, firm),
    ensures
        v.sell_loop(temp, rem, snap, i, sender, firm) matches Flow::Stop(w, t, r) ==> r <= rem
            && w.owned_of(sender, firm) == v.owned_of(sender, firm) - (rem - r) && w.locked == v.locked
            && w.sells == v.sells && w.issuers == v.issuers,
    decreases snap.len() - i,
{
    if i < snap.len() {
        let o = snap[i];
        if rem != 0 && o.max_price * o.amount <= u128::MAX {
            let v1 = v.with_ledger(v.ledger.unreserve(o.owner, (o.max_price * o.amount) as u128));
            let n = if o.amount <= rem {
                o.amount
            } else {
                rem
            };
            let v2 = v1.process_order(sender, o.owner, firm, n, o.max_price).0;
            lemma_holding_key_injective(sender, firm, o.owner, firm);
            assert(v2.owned_of(sender, firm) == v.owned_of(sender, firm) - n);
            if o.amount <= rem {
                let t2 = buys_without(temp, o.order_id);
                lemma_sell_loop_moves_sellers_shares(v2, t2, (rem - o.amount) as u64, snap, i + 1, sender, firm);
            }
        }
    }
}

proof fn lemma_buy_loop_moves_buyers_shares(
    v: MarketView,
    temp: Seq<SellOrder>,
    rem: u64,
    snap: Seq<SellOrder>,
    i: int,
    sender: AccountId,
    firm: AccountId,
)
    requires
        0 <= i <= snap.len(),
        forall|j: int| i <= j < snap.len() ==> #[trigger] snap[j].owner != sender,
        buy_trades_go_through(v, rem, snap, i, sender, firm),
    ensures
        v.buy_loop(temp, rem, snap, i, sender, firm) matches Flow::Stop(w, t, r) ==> r <= rem
            && w.owned_of(sender, firm) == v.owned_of(sender, firm) + (rem - r) && w.buys == v.buys
            && w.issuers == v.issuers,
    decreases snap.len() - i,
{
    if i < snap.len() {
        let o = snap[i];
        if rem != 0 {
            let n = if o.amount <= rem {
                o.amount
            } else {
                rem
            };
            let v1 = v.unlock_shares(o.owner, o.firm, n).0;
            let v2 = v1.process_order(o.owner, sender, firm, n, o.min_price).0;
            lemma_holding_key_injective(sender, firm, o.owner, o.firm);
            lemma_holding_key_injective(sender, firm, o.owner, firm);
            assert(v1.owned_of(sender, firm) == v.owned_of(sender, firm));
            assert(v2.owned_of(sender, firm) == v.owned_of(sender, firm) + n);
            if o.amount <= rem {
                let t2 = sells_without(temp, o.order_id);
                lemma_buy_loop_moves_buyers_shares(v2, t2, (rem - o.amount) as u64, snap, i + 1, sender, firm);
            }
        }
    }
}

/// A successful sell order takes exactly `amount` shares out of the
/// seller's free holding in the firm: what is not sold is locked in the
/// one sell order it lists, for the seller and at the seller's minimum
/// price; where nothing is listed, every share was sold. This holds where
/// all its trades go through and the seller has no buy order of its own on
/// the firm's book (a trade with oneself leaves the holding where it was).
pub proof fn law_sell_order_takes_its_amount(
    v: MarketView,
    sender: AccountId,
    firm: AccountId,
    amount: u64,
    min_price: Balance,
)
    requires
        v.put_sell_order(Origin::Signed(sender), firm, amount, min_price).1 is Ok,
        sell_trades_go_through(
            v,
            amount,
            sorted_buys(buys_matching(v.buys_of(firm), min_price)),
            0,
            sender,
            firm,
        ),
        forall|k: int| 0 <= k < v.buys_of(firm).len() ==> #[trigger] v.buys_of(firm)[k].owner != sender,
    ensures
        ({
            let w = v.put_sell_order(Origin::Signed(sender), firm, amount, min_price).0;
            &&& w.owned_of(sender, firm) == v.owned_of(sender, firm) - amount
            &&& w.sells_of(firm) == v.sells_of(firm) ==> w.locked_of(sender, firm) == v.locked_of(sender, firm)
            &&& w.sells_of(firm) != v.sells_of(firm) ==> {
                &&& w.sells_of(firm).len() == v.sells_of(firm).len() + 1
                &&& w.sells_of(firm).drop_last() == v.sells_of(firm)
                &&& w.sells_of(firm).last().owner == sender
                &&& w.sells_of(firm).last().firm == firm
                &&& w.sells_of(firm).last().min_price == min_price
                &&& w.locked_of(sender, firm) == v.locked_of(sender, firm) + w.sells_of(firm).last().amount
            }
        }),
{
    let w = v.put_sell_order(Origin::Signed(sender), firm, amount, min_price).0;
    let book = v.buys_of(firm);
    let candidates = buys_matching(book, min_price);
    let s0 = v.sells_of(firm);
    if candidates.len() > 0 {
        let snap = sorted_buys(candidates);
        lemma_matching_buys_bid_enough(book, min_price);
        assert forall|j: int| 0 <= j < snap.len() implies #[trigger] snap[j].owner != sender by {
            assert(book.contains(snap[j]));
        }
        lemma_sell_loop_sells_out_or_clears(v, snap, amount, snap, 0, sender, firm);
        lemma_sell_loop_moves_sellers_shares(v, snap, amount, snap, 0, sender, firm);
        match v.sell_loop(snap, amount, snap, 0, sender, firm) {
            Flow::Stop(u, t, rem) => {
                let u1 = u.with_buys(firm, buys_under(book, min_price) + t);
                if rem > 0 {
                    let u2 = u1.generate_hash(sender).0;
                    let id = u1.generate_hash(sender).1;
                    let order = SellOrder { firm, owner: sender, min_price, amount: rem, order_id: id };
                    assert(w.sells_of(firm) == s0.push(order));
                    assert(s0.push(order).drop_last() == s0);
                    assert(w.sells_of(firm) != s0) by {
                        assert(w.sells_of(firm).len() != s0.len());
                    }
                }
            },
            _ => {},
        }
    } else if amount > 0 {
        let id = v.generate_hash(sender).1;
        let order = SellOrder { firm, owner: sender, min_price, amount, order_id: id };
        assert(w.sells_of(firm) == s0.push(order));
        assert(s0.push(order).drop_last() == s0);
        assert(w.sells_of(firm) != s0) by {
            assert(w.sells_of(firm).len() != s0.len());
        }
    }
}

/// A successful buy order gets exactly `amount` shares for the buyer: those
/// bought land in the buyer's free holding in the firm, and the rest is
/// asked for in the one buy order it lists, for the buyer and at the
/// buyer's maximum price; where nothing is listed, every share was bought.
/// This holds where all its trades go through and the buyer has no sell
/// order of its own on the firm's book (a trade with oneself leaves the
/// holding where it was).
pub proof fn law_buy_order_gets_its_amount(
    v: MarketView,
    sender: AccountId,
    firm: AccountId,
    amount: u64,
    max_price: Balance,
)
    requires
        v.put_buy_order(Origin::Signed(sender), firm, amount, max_price).1 is Ok,
        buy_trades_go_through(
            v,
            amount,
            sorted_sells(sells_matching(v.sells_of(firm), max_price)),
            0,
            sender,
            firm,
        ),
        forall|k: int| 0 <= k < v.sells_of(firm).len() ==> #[trigger] v.sells_of(firm)[k].owner != sender,
    ensures
        ({
            let w = v.put_buy_order(Origin::Signed(sender), firm, amount, max_price).0;
            &&& w.buys_of(firm) == v.buys_of(firm) ==> w.owned_of(sender, firm) == v.owned_of(sender, firm) + amount
            &&& w.buys_of(firm) != v.buys_of(firm) ==> {
                &&& w.buys_of(firm).len() == v.buys_of(firm).len() + 1
                &&& w.buys_of(firm).drop_last() == v.buys_of(firm)
                &&& w.buys_of(firm).last().owner == sender
                &&& w.buys_of(firm).last().firm == firm
                &&& w.buys_of(firm).last().max_price == max_price
                &&& w.owned_of(sender, firm) + w.buys_of(firm).last().amount == v.owned_of(sender, firm) + amount
            }
        }),
{
    let w = v.put_buy_order(Origin::Signed(sender), firm, amount, max_price).0;
    let book = v.sells_of(firm);
    let candidates = sells_matching(book, max_price);
    let b0 = v.buys_of(firm);
    if candidates.len() > 0 {
        let snap = sorted_sells(candidates);
        lemma_matching_sells_ask_little(book, max_price);
        assert forall|j: int| 0 <= j < snap.len() implies #[trigger] snap[j].owner != sender by {
            assert(book.contains(snap[j]));
        }
        lemma_buy_loop_buys_all_or_clears(v, snap, amount, snap, 0, sender, firm);
        lemma_buy_loop_moves_buyers_shares(v, snap, amount, snap, 0, sender, firm);
        match v.buy_loop(snap, amount, snap, 0, sender, firm) {
            Flow::Stop(u, t, rem) => {
                let u1 = u.with_sells(firm, sells_over(book, max_price) + t);
                if rem > 0 {
                    let id = u1.generate_hash(sender).1;
                    let order = BuyOrder { firm, owner: sender, max_price, amount: rem, order_id: id };
                    assert(w.buys_of(firm) == b0.push(order));
                    assert(b0.push(order).drop_last() == b0);
                    assert(w.buys_of(firm) != b0) by {
                        assert(w.buys_of(firm).len() != b0.len());
                    }
                }
            },
            _ => {},
        }
    } else if amount > 0 {
        let id = v.generate_hash(sender).1;
        let order = BuyOrder { firm, owner: sender, max_price, amount, order_id: id };
        assert(w.buys_of(firm) == b0.push(order));
        assert(b0.push(order).drop_last() == b0);
        assert(w.buys_of(firm) != b0) by {
            assert(w.buys_of(firm).len() != b0.len());
        }
    }
}

/// An order is accepted only when it is covered: a sell order only for
/// shares the seller holds free, a buy order only when the buyer's free
/// balance pays for all of it at the maximum price; an order that is not
/// covered is refused and changes nothing.
pub proof fn law_accepted_orders_are_covered(v: MarketView, sender: AccountId, firm: AccountId, amount: u64, price: Balance)
    ensures
        v.put_sell_order(Origin::Signed(sender), firm, amount, price).1 is Ok ==> !v.closed
            && crate::model::balance_low_u64(price) != 0 && v.owned_of(sender, firm) >= amount,
        !v.closed && crate::model::balance_low_u64(price) != 0 && v.owned_of(sender, firm) < amount
            ==> v.put_sell_order(Origin::Signed(sender), firm, amount, price) == (v, Err::<(), MarketError>(
            MarketError::NotEnoughShares,
        )),
        v.put_buy_order(Origin::Signed(sender), firm, amount, price).1 is Ok ==> !v.closed
            && crate::model::balance_low_u64(price) != 0 && price * amount <= u128::MAX
            && v.ledger.free_of(sender) >= price * amount,
        !v.closed && crate::model::balance_low_u64(price) != 0 && price * amount <= u128::MAX
            && v.ledger.free_of(sender) < price * amount ==> v.put_buy_order(
            Origin::Signed(sender),
            firm,
            amount,
            price,
        ) == (v, Err::<(), MarketError>(MarketError::NotEnoughFreeBalance)),
{
}

/// A sell order meets the lowest matching bid first: where every buy order
/// that matches it could take all its shares on its own, it trades once,
/// at the lowest bid among them (and so at no bid above any of them).
pub proof fn law_sell_meets_lowest_bid_first(
    v: MarketView,
    sender: AccountId,
    firm: AccountId,
    amount: u64,
    min_price: Balance,
)
    requires
        v.put_sell_order(Origin::Signed(sender), firm, amount, min_price).1 is Ok,
        sell_trades_go_through(
            v,
            amount,
            sorted_buys(buys_matching(v.buys_of(firm), min_price)),
            0,
            sender,
            firm,
        ),
        amount > 0,
        exists|k: int|
            0 <= k < v.buys_of(firm).len() && #[trigger] v.buys_of(firm)[k].max_price >= min_price
                && v.buys_of(firm)[k].amount > 0,
        forall|k: int|
            0 <= k < v.buys_of(firm).len() && #[trigger] v.buys_of(firm)[k].max_price >= min_price
                && v.buys_of(firm)[k].amount > 0 ==> v.buys_of(firm)[k].amount >= amount,
    ensures
        forall|k: int|
            0 <= k < v.buys_of(firm).len() && #[trigger] v.buys_of(firm)[k].max_price >= min_price
                && v.buys_of(firm)[k].amount > 0 ==> v.put_sell_order(
                Origin::Signed(sender),
                firm,
                amount,
                min_price,
            ).0.last_bid_of(firm) <= v.buys_of(firm)[k].max_price,
        exists|k: int|
            0 <= k < v.buys_of(firm).len() && #[trigger] v.buys_of(firm)[k].max_price >= min_price
                && v.buys_of(firm)[k].amount > 0 && v.put_sell_order(
                Origin::Signed(sender),
                firm,
                amount,
                min_price,
            ).0.last_bid_of(firm) == v.buys_of(firm)[k].max_price,
{
    broadcast use vstd::seq_lib::group_filter_ensures;
    broadcast use vstd::seq_lib::group_to_multiset_ensures;

    let w = v.put_sell_order(Origin::Signed(sender), firm, amount, min_price).0;
    let book = v.buys_of(firm);
    let pred = |o: BuyOrder| o.max_price >= min_price && o.amount > 0;
    let c = buys_matching(book, min_price);
    let snap = sorted_buys(c);
    law_sorted_buys(c);
    lemma_matching_buys_bid_enough(book, min_price);
    let k0 = choose|k: int|
        0 <= k < book.len() && #[trigger] book[k].max_price >= min_price && book[k].amount > 0;
    assert(c.contains(book[k0]));
    assert(c.len() > 0);
    assert(snap.len() > 0) by {
        assert(snap.to_multiset().len() == c.to_multiset().len());
    }
    let o = snap[0];
    assert(book.contains(o));
    let ko = choose|k: int| 0 <= k < book.len() && book[k] == o;
    assert(pred(o)) by {
        assert(snap.contains(o));
        assert(snap.to_multiset().count(o) > 0);
        assert(c.contains(o));
        let m = choose|m: int| 0 <= m < c.len() && c[m] == o;
        assert(pred(c[m]));
    }
    assert(o.amount >= amount) by {
        assert(book[ko].max_price >= min_price);
    }
    let step = v.sell_step(snap, amount, o, sender, firm);
    assert(v.sell_loop(snap, amount, snap, 0, sender, firm) == match step {
        Flow::Next(a, b, r) => a.sell_loop(b, r, snap, 1, sender, firm),
        other => other,
    });
    if o.max_price * o.amount > u128::MAX {
        assert(step is Abort);
        assert(false);
    }
    let v1 = v.with_ledger(v.ledger.unreserve(o.owner, (o.max_price * o.amount) as u128));
    let v2 = v1.process_order(sender, o.owner, firm, amount, o.max_price).0;
    assert(v2.last_bid_of(firm) == o.max_price);
    match step {
        Flow::Next(a, b, r) => {
            assert(a == v2 && r == 0);
            assert(a.sell_loop(b, r, snap, 1, sender, firm) == Flow::<BuyOrder>::Stop(a, b, 0));
            assert(w.last_bid_of(firm) == o.max_price);
        },
        Flow::Stop(a, b, r) => {
            assert(a.last_bid == v2.last_bid);
            assert(r == 0);
            assert(w.last_bid_of(firm) == o.max_price);
        },
        Flow::Abort(..) => {},
    }
    assert forall|k: int|
        0 <= k < book.len() && #[trigger] book[k].max_price >= min_price && book[k].amount > 0 implies w.last_bid_of(
        firm,
    ) <= book[k].max_price by {
        assert(c.contains(book[k]));
        assert(c.to_multiset().count(book[k]) > 0);
        assert(snap.contains(book[k]));
        let m = choose|m: int| 0 <= m < snap.len() && snap[m] == book[k];
        if m > 0 {
            assert(snap[0].max_price <= snap[m].max_price);
        }
    }
    assert(book[ko].max_price >= min_price && book[ko].amount > 0 && w.last_bid_of(firm) == book[ko].max_price);
}

/// A buy order meets the highest matching ask first: where every sell
/// order that matches it could give all the shares wanted on its own, it
/// trades once, at the highest ask among them (and so at no ask below any
/// of them).
pub proof fn law_buy_meets_highest_ask_first(
    v: MarketView,
    sender: AccountId,
    firm: AccountId,
    amount: u64,
    max_price: Balance,
)
    requires
        v.put_buy_order(Origin::Signed(sender), firm, amount, max_price).1 is Ok,
        buy_trades_go_through(
            v,
            amount,
            sorted_sells(sells_matching(v.sells_of(firm), max_price)),
            0,
            sender,
            firm,
        ),
        amount > 0,
        exists|k: int|
            0 <= k < v.sells_of(firm).len() && #[trigger] v.sells_of(firm)[k].min_price <= max_price
                && v.sells_of(firm)[k].amount > 0,
        forall|k: int|
            0 <= k < v.sells_of(firm).len() && #[trigger] v.sells_of(firm)[k].min_price <= max_price
                && v.sells_of(firm)[k].amount > 0 ==> v.sells_of(firm)[k].amount >= amount,
    ensures
        forall|k: int|
            0 <= k < v.sells_of(firm).len() && #[trigger] v.sells_of(firm)[k].min_price <= max_price
                && v.sells_of(firm)[k].amount > 0 ==> v.put_buy_order(
                Origin::Signed(sender),
                firm,
                amount,
                max_price,
            ).0.last_bid_of(firm) >= v.sells_of(firm)[k].min_price,
        exists|k: int|
            0 <= k < v.sells_of(firm).len() && #[trigger] v.sells_of(firm)[k].min_price <= max_price
                && v.sells_of(firm)[k].amount > 0 && v.put_buy_order(
                Origin::Signed(sender),
                firm,
                amount,
                max_price,
            ).0.last_bid_of(firm) == v.sells_of(firm)[k].min_price,
{
    broadcast use vstd::seq_lib::group_filter_ensures;
    broadcast use vstd::seq_lib::group_to_multiset_ensures;

    let w = v.put_buy_order(Origin::Signed(sender), firm, amount, max_price).0;
    let book = v.sells_of(firm);
    let pred = |o: SellOrder| o.min_price <= max_price && o.amount > 0;
    let c = sells_matching(book, max_price);
    let snap = sorted_sells(c);
    law_sorted_sells(c);
    lemma_matching_sells_ask_little(book, max_price);
    let k0 = choose|k: int|
        0 <= k < book.len() && #[trigger] book[k].min_price <= max_price && book[k].amount > 0;
    assert(c.contains(book[k0]));
    assert(snap.len() > 0) by {
        assert(snap.to_multiset().len() == c.to_multiset().len());
    }
    let o = snap[0];
    assert(book.contains(o));
    let ko = choose|k: int| 0 <= k < book.len() && book[k] == o;
    assert(pred(o)) by {
        assert(snap.contains(o));
        assert(snap.to_multiset().count(o) > 0);
        assert(c.contains(o));
        let m = choose|m: int| 0 <= m < c.len() && c[m] == o;
        assert(pred(c[m]));
    }
    assert(o.amount >= amount) by {
        assert(book[ko].min_price <= max_price);
    }
    let step = v.buy_step(snap, amount, o, sender, firm);
    assert(v.buy_loop(snap, amount, snap, 0, sender, firm) == match step {
        Flow::Next(a, b, r) => a.buy_loop(b, r, snap, 1, sender, firm),
        other => other,
    });
    let v1 = v.unlock_shares(o.owner, o.firm, amount).0;
    let v2 = v1.process_order(o.owner, sender, firm, amount, o.min_price).0;
    assert(v2.last_bid_of(firm) == o.min_price);
    match step {
        Flow::Next(a, b, r) => {
            assert(a == v2 && r == 0);
            assert(a.buy_loop(b, r, snap, 1, sender, firm) == Flow::<SellOrder>::Stop(a, b, 0));
            assert(w.last_bid_of(firm) == o.min_price);
        },
        Flow::Stop(a, b, r) => {
            assert(a.last_bid == v2.last_bid);
            assert(r == 0);
            assert(w.last_bid_of(firm) == o.min_price);
        },
        Flow::Abort(..) => {},
    }
    assert forall|k: int|
        0 <= k < book.len() && #[trigger] book[k].min_price <= max_price && book[k].amount > 0 implies w.last_bid_of(
        firm,
    ) >= book[k].min_price by {
        assert(c.contains(book[k]));
        assert(c.to_multiset().count(book[k]) > 0);
        assert(snap.contains(book[k]));
        let m = choose|m: int| 0 <= m < snap.len() && snap[m] == book[k];
        if m > 0 {
            assert(snap[0].min_price >= snap[m].min_price);
        }
    }
    assert(book[ko].min_price <= max_price && book[ko].amount > 0 && w.last_bid_of(firm) == book[ko].min_price);
}

} // verus!
