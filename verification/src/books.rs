use vstd::prelude::*;

use crate::hashing::same_order_id;
use crate::types::{Balance, BuyOrder, OrderId, SellOrder};

verus! {

// ---------------------------------------------------------------------------
// Buy orders
// ---------------------------------------------------------------------------

/// The buy orders that bid less than `min_price`.
pub open spec fn buys_under(s: Seq<BuyOrder>, min_price: Balance) -> Seq<BuyOrder> {
    s.filter(|o: BuyOrder| o.max_price < min_price)
}

/// The buy orders that bid at least `min_price` and still ask for shares.
pub open spec fn buys_matching(s: Seq<BuyOrder>, min_price: Balance) -> Seq<BuyOrder> {
    s.filter(|o: BuyOrder| o.max_price >= min_price && o.amount > 0)
}

/// The buy orders whose id is not `id`.
pub open spec fn buys_without(s: Seq<BuyOrder>, id: OrderId) -> Seq<BuyOrder> {
    s.filter(|o: BuyOrder| o.order_id != id)
}

/// `x` put into the bid-ascending `s` after every order that bids no more
/// than it does.
pub open spec fn buy_insert(s: Seq<BuyOrder>, x: BuyOrder) -> Seq<BuyOrder>
    decreases s.len(),
{
    if s.len() == 0 {
        seq![x]
    } else if s.last().max_price <= x.max_price {
        s.push(x)
    } else {
        buy_insert(s.drop_last(), x).push(s.last())
    }
}

/// `s` sorted by ascending bid, orders with equal bids kept in the order
/// they had (a stable sort).
pub open spec fn sorted_buys(s: Seq<BuyOrder>) -> Seq<BuyOrder>
    decreases s.len(),
{
    if s.len() == 0 {
        s
    } else {
        buy_insert(sorted_buys(s.drop_last()), s.last())
    }
}

proof fn lemma_buy_insert_at(s: Seq<BuyOrder>, x: BuyOrder, j: int)
    requires
        0 <= j <= s.len(),
        forall|k: int| j <= k < s.len() ==> s[k].max_price > x.max_price,
        j == 0 || s[j - 1].max_price <= x.max_price,
    ensures
        buy_insert(s, x) == s.insert(j, x),
    decreases s.len(),
{
    if s.len() == 0 {
        assert(buy_insert(s, x) =~= s.insert(j, x));
    } else if s.last().max_price <= x.max_price {
        assert(j == s.len());
        assert(buy_insert(s, x) =~= s.insert(j, x));
    } else {
        lemma_buy_insert_at(s.drop_last(), x, j);
        assert(buy_insert(s, x) =~= s.insert(j, x));
    }
}

/// The buy orders of `book` that bid less than `min_price`, in book order.
pub fn select_buys_under(book: &Vec<BuyOrder>, min_price: Balance) -> (r: Vec<BuyOrder>)
    ensures
        r@ == buys_under(book@, min_price),
{
    let mut out: Vec<BuyOrder> = Vec::new();
    let mut i: usize = 0;
    while i < book.len()
        invariant
            i <= book.len(),
            out@ == buys_under(book@.take(i as int), min_price),
        decreases book.len() - i,
    {
        let o = book[i];
        proof {
            reveal_with_fuel(Seq::<_>::filter, 1);
            assert(book@.take(i + 1).drop_last() =~= book@.take(i as int));
        }
        if o.max_price < min_price {
            out.push(o);
        }
        i = i + 1;
    }
    assert(book@.take(book.len() as int) =~= book@);
    out
}

/// The buy orders of `book` that bid at least `min_price` and still ask
/// for shares, in book order.
pub fn select_buys_matching(book: &Vec<BuyOrder>, min_price: Balance) -> (r: Vec<BuyOrder>)
    ensures
        r@ == buys_matching(book@, min_price),
{
    let mut out: Vec<BuyOrder> = Vec::new();
    let mut i: usize = 0;
    while i < book.len()
        invariant
            i <= book.len(),
            out@ == buys_matching(book@.take(i as int), min_price),
        decreases book.len() - i,
    {
        let o = book[i];
        proof {
            reveal_with_fuel(Seq::<_>::filter, 1);
            assert(book@.take(i + 1).drop_last() =~= book@.take(i as int));
        }
        if o.max_price >= min_price && o.amount > 0 {
            out.push(o);
        }
        i = i + 1;
    }
    assert(book@.take(book.len() as int) =~= book@);
    out
}

/// `book` without the orders whose id is `id`.
pub fn remove_buy(book: &Vec<BuyOrder>, id: &OrderId) -> (r: Vec<BuyOrder>)
    ensures
        r@ == buys_without(book@, *id),
{
    let mut out: Vec<BuyOrder> = Vec::new();
    let mut i: usize = 0;
    while i < book.len()
        invariant
            i <= book.len(),
            out@ == buys_without(book@.take(i as int), *id),
        decreases book.len() - i,
    {
        let o = book[i];
        proof {
            reveal_with_fuel(Seq::<_>::filter, 1);
            assert(book@.take(i + 1).drop_last() =~= book@.take(i as int));
        }
        if !same_order_id(&o.order_id, id) {
            out.push(o);
        }
        i = i + 1;
    }
    assert(book@.take(book.len() as int) =~= book@);
    out
}

/// `book` sorted by ascending bid; orders with equal bids keep their order.
pub fn sort_buys(book: &Vec<BuyOrder>) -> (r: Vec<BuyOrder>)
    ensures
        r@ == sorted_buys(book@),
{
    let mut out: Vec<BuyOrder> = Vec::new();
    let mut i: usize = 0;
    while i < book.len()
        invariant
            i <= book.len(),
            out@ == sorted_buys(book@.take(i as int)),
        decreases book.len() - i,
    {
        let x = book[i];
        let mut j: usize = out.len();
        while j > 0 && out[j - 1].max_price > x.max_price
            invariant
                j <= out.len(),
                forall|k: int| j <= k < out.len() ==> out@[k].max_price > x.max_price,
            decreases j,
        {
            j = j - 1;
        }
        proof {
            lemma_buy_insert_at(out@, x, j as int);
            assert(book@.take(i + 1).drop_last() =~= book@.take(i as int));
        }
        out.insert(j, x);
        i = i + 1;
    }
    assert(book@.take(book.len() as int) =~= book@);
    out
}

// ---------------------------------------------------------------------------
// Sell orders
// ---------------------------------------------------------------------------

/// The sell orders that ask more than `max_price`.
pub open spec fn sells_over(s: Seq<SellOrder>, max_price: Balance) -> Seq<SellOrder> {
    s.filter(|o: SellOrder| o.min_price > max_price)
}

/// The sell orders that ask at most `max_price` and still offer shares.
pub open spec fn sells_matching(s: Seq<SellOrder>, max_price: Balance) -> Seq<SellOrder> {
    s.filter(|o: SellOrder| o.min_price <= max_price && o.amount > 0)
}

/// The sell orders whose id is not `id`.
pub open spec fn sells_without(s: Seq<SellOrder>, id: OrderId) -> Seq<SellOrder> {
    s.filter(|o: SellOrder| o.order_id != id)
}

/// `x` put into the ask-descending `s` after every order that asks at
/// least as much as it does.
pub open spec fn sell_insert(s: Seq<SellOrder>, x: SellOrder) -> Seq<SellOrder>
    decreases s.len(),
{
    if s.len() == 0 {
        seq![x]
    } else if s.last().min_price >= x.min_price {
        s.push(x)
    } else {
        sell_insert(s.drop_last(), x).push(s.last())
    }
}

/// `s` sorted by descending ask, orders with equal asks kept in the order
/// they had (a stable sort).
pub open spec fn sorted_sells(s: Seq<SellOrder>) -> Seq<SellOrder>
    decreases s.len(),
{
    if s.len() == 0 {
        s
    } else {
        sell_insert(sorted_sells(s.drop_last()), s.last())
    }
}

proof fn lemma_sell_insert_at(s: Seq<SellOrder>, x: SellOrder, j: int)
    requires
        0 <= j <= s.len(),
        forall|k: int| j <= k < s.len() ==> s[k].min_price < x.min_price,
        j == 0 || s[j - 1].min_price >= x.min_price,
    ensures
        sell_insert(s, x) == s.insert(j, x),
    decreases s.len(),
{
    if s.len() == 0 {
        assert(sell_insert(s, x) =~= s.insert(j, x));
    } else if s.last().min_price >= x.min_price {
        assert(j == s.len());
        assert(sell_insert(s, x) =~= s.insert(j, x));
    } else {
        lemma_sell_insert_at(s.drop_last(), x, j);
        assert(sell_insert(s, x) =~= s.insert(j, x));
    }
}

/// The sell orders of `book` that ask more than `max_price`, in book order.
pub fn select_sells_over(book: &Vec<SellOrder>, max_price: Balance) -> (r: Vec<SellOrder>)
    ensures
        r@ == sells_over(book@, max_price),
{
    let mut out: Vec<SellOrder> = Vec::new();
    let mut i: usize = 0;
    while i < book.len()
        invariant
            i <= book.len(),
            out@ == sells_over(book@.take(i as int), max_price),
        decreases book.len() - i,
    {
        let o = book[i];
        proof {
            reveal_with_fuel(Seq::<_>::filter, 1);
            assert(book@.take(i + 1).drop_last() =~= book@.take(i as int));
        }
        if o.min_price > max_price {
            out.push(o);
        }
        i = i + 1;
    }
    assert(book@.take(book.len() as int) =~= book@);
    out
}

/// The sell orders of `book` that ask at most `max_price` and still offer
/// shares, in book order.
pub fn select_sells_matching(book: &Vec<SellOrder>, max_price: Balance) -> (r: Vec<SellOrder>)
    ensures
        r@ == sells_matching(book@, max_price),
{
    let mut out: Vec<SellOrder> = Vec::new();
    let mut i: usize = 0;
    while i < book.len()
        invariant
            i <= book.len(),
            out@ == sells_matching(book@.take(i as int), max_price),
        decreases book.len() - i,
    {
        let o = book[i];
        proof {
            reveal_with_fuel(Seq::<_>::filter, 1);
            assert(book@.take(i + 1).drop_last() =~= book@.take(i as int));
        }
        if o.min_price <= max_price && o.amount > 0 {
            out.push(o);
        }
        i = i + 1;
    }
    assert(book@.take(book.len() as int) =~= book@);
    out
}

/// `book` without the orders whose id is `id`.
pub fn remove_sell(book: &Vec<SellOrder>, id: &OrderId) -> (r: Vec<SellOrder>)
    ensures
        r@ == sells_without(book@, *id),
{
    let mut out: Vec<SellOrder> = Vec::new();
    let mut i: usize = 0;
    while i < book.len()
        invariant
            i <= book.len(),
            out@ == sells_without(book@.take(i as int), *id),
        decreases book.len() - i,
    {
        let o = book[i];
        proof {
            reveal_with_fuel(Seq::<_>::filter, 1);
            assert(book@.take(i + 1).drop_last() =~= book@.take(i as int));
        }
        if !same_order_id(&o.order_id, id) {
            out.push(o);
        }
        i = i + 1;
    }
    assert(book@.take(book.len() as int) =~= book@);
    out
}

/// `book` sorted by descending ask; orders with equal asks keep their order.
pub fn sort_sells(book: &Vec<SellOrder>) -> (r: Vec<SellOrder>)
    ensures
        r@ == sorted_sells(book@),
{
    let mut out: Vec<SellOrder> = Vec::new();
    let mut i: usize = 0;
    while i < book.len()
        invariant
            i <= book.len(),
            out@ == sorted_sells(book@.take(i as int)),
        decreases book.len() - i,
    {
        let x = book[i];
        let mut j: usize = out.len();
        while j > 0 && out[j - 1].min_price < x.min_price
            invariant
                j <= out.len(),
                forall|k: int| j <= k < out.len() ==> out@[k].min_price < x.min_price,
            decreases j,
        {
            j = j - 1;
        }
        proof {
            lemma_sell_insert_at(out@, x, j as int);
            assert(book@.take(i + 1).drop_last() =~= book@.take(i as int));
        }
        out.insert(j, x);
        i = i + 1;
    }
    assert(book@.take(book.len() as int) =~= book@);
    out
}

/// A copy of `book`.
pub fn copy_buys(book: &Vec<BuyOrder>) -> (r: Vec<BuyOrder>)
    ensures
        r@ == book@,
{
    let mut out: Vec<BuyOrder> = Vec::new();
    let mut i: usize = 0;
    while i < book.len()
        invariant
            i <= book.len(),
            out@ == book@.take(i as int),
        decreases book.len() - i,
    {
        out.push(book[i]);
        i = i + 1;
        assert(out@ =~= book@.take(i as int));
    }
    assert(out@ =~= book@);
    out
}

/// A copy of `book`.
pub fn copy_sells(book: &Vec<SellOrder>) -> (r: Vec<SellOrder>)
    ensures
        r@ == book@,
{
    let mut out: Vec<SellOrder> = Vec::new();
    let mut i: usize = 0;
    while i < book.len()
        invariant
            i <= book.len(),
            out@ == book@.take(i as int),
        decreases book.len() - i,
    {
        out.push(book[i]);
        i = i + 1;
        assert(out@ =~= book@.take(i as int));
    }
    assert(out@ =~= book@);
    out
}

} // verus!
