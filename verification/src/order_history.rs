//! A user's order history: the settled trades of one pair gathered into
//! one line per order of the user, newest first.

use vstd::prelude::*;
use crate::order_utils::{decimal_text_of, u64_to_decimal_string};
use crate::text::owned;
use crate::settlement::SettledTradeRow;

verus! {

broadcast use vstd::seq_lib::group_to_multiset_ensures;

/// A settled trade as the trade store returns it.
#[derive(Debug, Clone, Copy, PartialEq, Eq, Structural)]
pub struct SettledTrade {
    pub buy_order_id: u64,
    pub sell_order_id: u64,
    pub buyer_user_id: u64,
    pub seller_user_id: u64,
    pub price: u64,
    pub quantity: u64,
    pub base_asset_id: u32,
    pub quote_asset_id: u32,
    pub settled_at: i64,
}

/// What is known so far of one order of the user: its side, the price of
/// its first fill, the quantity filled and the time of its latest fill.
#[derive(Debug, Clone, Copy, PartialEq, Eq, Structural)]
pub struct OrderAgg {
    pub order_id: u64,
    pub is_buy: bool,
    pub price: u64,
    pub quantity: u64,
    pub time: i64,
}

/// One line of the history, as shown to the user.
#[derive(Debug, Clone)]
pub struct OrderHistoryRow {
    pub order_id: u64,
    pub side: String,
    pub price: String,
    pub quantity: String,
    pub status: String,
    pub time: i64,
}

/// The fills a trade gives the user in the pair: as buyer, then as seller
/// (a trade of another pair gives none).
pub open spec fn fills_of(t: SettledTrade, user_id: u64, base: u32, quote: u32) -> Seq<OrderAgg> {
    if t.base_asset_id != base || t.quote_asset_id != quote {
        Seq::empty()
    } else {
        (if t.buyer_user_id == user_id {
            seq![OrderAgg { order_id: t.buy_order_id, is_buy: true, price: t.price, quantity: t.quantity, time: t.settled_at }]
        } else {
            Seq::empty()
        }) + (if t.seller_user_id == user_id {
            seq![OrderAgg { order_id: t.sell_order_id, is_buy: false, price: t.price, quantity: t.quantity, time: t.settled_at }]
        } else {
            Seq::empty()
        })
    }
}

/// The fills of a sequence of trades, in order.
pub open spec fn fills_of_trades(ts: Seq<SettledTrade>, user_id: u64, base: u32, quote: u32) -> Seq<OrderAgg>
    decreases ts.len(),
{
    if ts.len() == 0 {
        Seq::empty()
    } else {
        fills_of_trades(ts.drop_last(), user_id, base, quote) + fills_of(ts.last(), user_id, base, quote)
    }
}

/// Where the line of an order stands, if it has one.
pub open spec fn find_agg(aggs: Seq<OrderAgg>, id: u64) -> Option<int> {
    if exists|i: int| 0 <= i < aggs.len() && aggs[i].order_id == id {
        Some(choose|i: int| 0 <= i < aggs.len() && aggs[i].order_id == id)
    } else {
        None
    }
}

/// A fill taken into the lines: added to its order's line (quantity summed,
/// latest time kept), or starting a new line at the end.
pub open spec fn agg_step(aggs: Seq<OrderAgg>, x: OrderAgg) -> Seq<OrderAgg> {
    match find_agg(aggs, x.order_id) {
        Some(i) => aggs.update(i, OrderAgg {
            quantity: (aggs[i].quantity + x.quantity) as u64,
            time: if x.time > aggs[i].time { x.time } else { aggs[i].time },
            ..aggs[i]
        }),
        None => aggs.push(x),
    }
}

/// Whether adding a fill to its order's line stays within 64 bits.
pub open spec fn step_fits(aggs: Seq<OrderAgg>, x: OrderAgg) -> bool {
    match find_agg(aggs, x.order_id) {
        Some(i) => aggs[i].quantity + x.quantity <= u64::MAX,
        None => true,
    }
}

/// The lines of a sequence of fills, one per order, in order of first fill.
pub open spec fn aggregate(fills: Seq<OrderAgg>) -> Seq<OrderAgg>
    decreases fills.len(),
{
    if fills.len() == 0 { Seq::empty() } else { agg_step(aggregate(fills.drop_last()), fills.last()) }
}

/// Whether every fill, taken in order, adds to its line within 64 bits.
pub open spec fn fills_fit(fills: Seq<OrderAgg>) -> bool
    decreases fills.len(),
{
    fills.len() == 0 || (fills_fit(fills.drop_last()) && step_fits(aggregate(fills.drop_last()), fills.last()))
}

/// Newest first.
pub open spec fn newest_first(aggs: Seq<OrderAgg>) -> bool {
    forall|i: int, j: int| 0 <= i < j < aggs.len() ==> (#[trigger] aggs[i]).time >= (#[trigger] aggs[j]).time
}

/// The line shown for an order.
pub open spec fn row_shows(r: OrderHistoryRow, a: OrderAgg, price_decimals: u32, qty_decimals: u32) -> bool {
    &&& r.order_id == a.order_id
    &&& r.side@ == (if a.is_buy { "BUY"@ } else { "SELL"@ })
    &&& r.price@ == decimal_text_of(a.price, price_decimals)
    &&& r.quantity@ == decimal_text_of(a.quantity, qty_decimals)
    &&& r.status@ == "FILLED"@
    &&& r.time == a.time
}

/// No two lines are of the same order.
pub open spec fn ids_distinct(aggs: Seq<OrderAgg>) -> bool {
    forall|i: int, j: int| 0 <= i < j < aggs.len() ==> (#[trigger] aggs[i]).order_id != (#[trigger] aggs[j]).order_id
}

proof fn lemma_fills_fit_prefix(fills: Seq<OrderAgg>, k: int)
    requires
        fills_fit(fills),
        0 <= k <= fills.len(),
    ensures
        fills_fit(fills.take(k)),
    decreases fills.len(),
{
    if k < fills.len() {
        assert(fills.drop_last().take(k) =~= fills.take(k));
        lemma_fills_fit_prefix(fills.drop_last(), k);
    } else {
        assert(fills.take(k) =~= fills);
    }
}

proof fn lemma_fills_prefix(ts: Seq<SettledTrade>, i: int, user_id: u64, base: u32, quote: u32)
    requires
        0 <= i <= ts.len(),
    ensures
        fills_of_trades(ts.take(i), user_id, base, quote).len() <= fills_of_trades(ts, user_id, base, quote).len(),
        fills_of_trades(ts, user_id, base, quote).take(fills_of_trades(ts.take(i), user_id, base, quote).len() as int)
            == fills_of_trades(ts.take(i), user_id, base, quote),
    decreases ts.len(),
{
    let all = fills_of_trades(ts, user_id, base, quote);
    if i < ts.len() {
        assert(ts.drop_last().take(i) =~= ts.take(i));
        lemma_fills_prefix(ts.drop_last(), i, user_id, base, quote);
        let pre = fills_of_trades(ts.drop_last(), user_id, base, quote);
        let n = fills_of_trades(ts.take(i), user_id, base, quote).len() as int;
        assert(all.take(n) =~= pre.take(n));
    } else {
        assert(ts.take(i) =~= ts);
        assert(all.take(all.len() as int) =~= all);
    }
}

/// Takes one fill into the lines.
fn add_fill(aggs: &mut Vec<OrderAgg>, x: OrderAgg)
    requires
        ids_distinct(old(aggs)@),
        step_fits(old(aggs)@, x),
    ensures
        final(aggs)@ == agg_step(old(aggs)@, x),
        ids_distinct(final(aggs)@),
{
    let mut p: usize = 0;
    while p < aggs.len() && aggs[p].order_id != x.order_id
        invariant
            p <= aggs@.len(),
            aggs@ == old(aggs)@,
            forall|j: int| 0 <= j < p ==> aggs@[j].order_id != x.order_id,
        decreases aggs@.len() - p,
    {
        p = p + 1;
    }
    if p < aggs.len() {
        let a = aggs[p];
        proof {
            assert(aggs@[p as int].order_id == x.order_id);
            assert forall|i: int| 0 <= i < aggs@.len() && aggs@[i].order_id == x.order_id implies i == p by {
                if i != p as int {
                    if i < p {
                    } else {
                        assert(aggs@[p as int].order_id != aggs@[i].order_id);
                    }
                }
            }
            assert(find_agg(aggs@, x.order_id) == Some(p as int));
        }
        let time = if x.time > a.time { x.time } else { a.time };
        aggs.set(p, OrderAgg { quantity: a.quantity + x.quantity, time, ..a });
        proof {
            assert forall|i: int, j: int| 0 <= i < j < aggs@.len() implies (#[trigger] aggs@[i]).order_id != (#[trigger] aggs@[j]).order_id by {
                assert(old(aggs)@[i].order_id != old(aggs)@[j].order_id);
            }
        }
    } else {
        proof {
            assert(!(exists|i: int| 0 <= i < aggs@.len() && aggs@[i].order_id == x.order_id));
        }
        aggs.push(x);
        proof {
            assert forall|i: int, j: int| 0 <= i < j < aggs@.len() implies (#[trigger] aggs@[i]).order_id != (#[trigger] aggs@[j]).order_id by {
                if j < old(aggs)@.len() {
                    assert(old(aggs)@[i].order_id != old(aggs)@[j].order_id);
                } else {
                    assert(aggs@[i] == old(aggs)@[i]);
                }
            }
        }
    }
}

/// The lines of the user's orders in the pair, one per order, in order of
/// first fill.
pub fn aggregate_trades(trades: &Vec<SettledTrade>, user_id: u64, base: u32, quote: u32) -> (res: Vec<OrderAgg>)
    requires
        fills_fit(fills_of_trades(trades@, user_id, base, quote)),
    ensures
        res@ == aggregate(fills_of_trades(trades@, user_id, base, quote)),
        ids_distinct(res@),
{
    let ghost all = fills_of_trades(trades@, user_id, base, quote);
    let mut aggs: Vec<OrderAgg> = Vec::new();
    let mut i: usize = 0;
    proof { assert(trades@.take(0) =~= Seq::<SettledTrade>::empty()); }
    while i < trades.len()
        invariant
            i <= trades@.len(),
            all == fills_of_trades(trades@, user_id, base, quote),
            fills_fit(all),
            aggs@ == aggregate(fills_of_trades(trades@.take(i as int), user_id, base, quote)),
            ids_distinct(aggs@),
        decreases trades@.len() - i,
    {
        let t = trades[i];
        let ghost pre = fills_of_trades(trades@.take(i as int), user_id, base, quote);
        let ghost next = fills_of_trades(trades@.take(i + 1), user_id, base, quote);
        proof {
            assert(trades@.take(i + 1).drop_last() =~= trades@.take(i as int));
            assert(trades@.take(i + 1).last() == t);
            assert(next == pre + fills_of(t, user_id, base, quote));
            lemma_fills_prefix(trades@, i + 1, user_id, base, quote);
            lemma_fills_fit_prefix(all, next.len() as int);
            assert(fills_fit(next));
        }
        if t.base_asset_id == base && t.quote_asset_id == quote {
            let ghost mid = pre;
            if t.buyer_user_id == user_id {
                let x = OrderAgg { order_id: t.buy_order_id, is_buy: true, price: t.price, quantity: t.quantity, time: t.settled_at };
                proof {
                    let k: int = pre.len() as int + 1;
                    assert(next.take(k) =~= pre.push(x));
                    lemma_fills_fit_prefix(next, k);
                    assert(pre.push(x).drop_last() =~= pre);
                }
                add_fill(&mut aggs, x);
                proof {
                    assert(pre.push(x).drop_last() =~= pre);
                    mid = pre.push(x);
                }
            }
            if t.seller_user_id == user_id {
                let y = OrderAgg { order_id: t.sell_order_id, is_buy: false, price: t.price, quantity: t.quantity, time: t.settled_at };
                proof {
                    let k: int = mid.len() as int + 1;
                    assert(next.take(k) =~= mid.push(y));
                    lemma_fills_fit_prefix(next, k);
                    assert(mid.push(y).drop_last() =~= mid);
                }
                add_fill(&mut aggs, y);
                proof {
                    assert(mid.push(y).drop_last() =~= mid);
                    mid = mid.push(y);
                }
            }
            proof { assert(mid =~= next); }
        } else {
            proof { assert(next =~= pre); }
        }
        i = i + 1;
    }
    proof { assert(trades@.take(trades@.len() as int) =~= trades@); }
    aggs
}

/// The lines ordered newest first (among lines of the same time, the
/// earlier one first).
pub fn sort_newest_first(aggs: &Vec<OrderAgg>) -> (res: Vec<OrderAgg>)
    ensures
        res@.to_multiset() == aggs@.to_multiset(),
        newest_first(res@),
{
    let mut out: Vec<OrderAgg> = Vec::new();
    let mut k: usize = 0;
    proof { assert(aggs@.take(0) =~= Seq::<OrderAgg>::empty()); }
    while k < aggs.len()
        invariant
            k <= aggs@.len(),
            out@.to_multiset() == aggs@.take(k as int).to_multiset(),
            newest_first(out@),
        decreases aggs@.len() - k,
    {
        let x = aggs[k];
        let mut pos: usize = 0;
        while pos < out.len() && out[pos].time >= x.time
            invariant
                pos <= out@.len(),
                forall|j: int| 0 <= j < pos ==> out@[j].time >= x.time,
            decreases out@.len() - pos,
        {
            pos = pos + 1;
        }
        let ghost before = out@;
        out.insert(pos, x);
        proof {
            vstd::seq_lib::to_multiset_insert(before, pos as int, x);
            assert(aggs@.take(k + 1) =~= aggs@.take(k as int).push(x));
            assert forall|i: int, j: int| 0 <= i < j < out@.len() implies (#[trigger] out@[i]).time >= (#[trigger] out@[j]).time by {
                if j < pos {
                    assert(out@[i] == before[i] && out@[j] == before[j]);
                } else if j == pos {
                    assert(out@[i] == before[i]);
                } else if i < pos {
                    assert(out@[i] == before[i] && out@[j] == before[j - 1]);
                } else if i == pos {
                    assert(out@[j] == before[j - 1]);
                    if pos < before.len() {
                        assert(before[pos as int].time < x.time);
                    }
                } else {
                    assert(out@[i] == before[i - 1] && out@[j] == before[j - 1]);
                }
            }
        }
        k = k + 1;
    }
    proof { assert(aggs@.take(aggs@.len() as int) =~= aggs@); }
    out
}

/// The history of `user_id`'s orders in the pair (`base`, `quote`): one
/// line per order, its side by the user's role, the price of its first
/// fill, the quantity summed over its fills, the time of its latest fill,
/// newest first.
pub fn order_history(trades: &Vec<SettledTrade>, user_id: u64, base: u32, quote: u32, price_decimals: u32,
    qty_decimals: u32) -> (res: Vec<OrderHistoryRow>)
    requires
        price_decimals <= 28,
        qty_decimals <= 28,
        fills_fit(fills_of_trades(trades@, user_id, base, quote)),
    ensures
        exists|sorted: Seq<OrderAgg>| {
            &&& sorted.to_multiset() == aggregate(fills_of_trades(trades@, user_id, base, quote)).to_multiset()
            &&& newest_first(sorted)
            &&& res@.len() == sorted.len()
            &&& forall|i: int| 0 <= i < sorted.len() ==> row_shows(#[trigger] res@[i], sorted[i], price_decimals, qty_decimals)
        },
{
    let aggs = aggregate_trades(trades, user_id, base, quote);
    let sorted = sort_newest_first(&aggs);
    let mut rows: Vec<OrderHistoryRow> = Vec::new();
    let mut i: usize = 0;
    while i < sorted.len()
        invariant
            i <= sorted@.len(),
            rows@.len() == i,
            price_decimals <= 28,
            qty_decimals <= 28,
            forall|j: int| 0 <= j < i ==> row_shows(#[trigger] rows@[j], sorted@[j], price_decimals, qty_decimals),
        decreases sorted@.len() - i,
    {
        let a = sorted[i];
        proof {
            reveal_strlit("BUY");
            reveal_strlit("SELL");
            reveal_strlit("FILLED");
        }
        let side = if a.is_buy { owned("BUY") } else { owned("SELL") };
        rows.push(OrderHistoryRow {
            order_id: a.order_id,
            side,
            price: u64_to_decimal_string(a.price, price_decimals),
            quantity: u64_to_decimal_string(a.quantity, qty_decimals),
            status: owned("FILLED"),
            time: a.time,
        });
        proof {
            assert forall|j: int| 0 <= j < i + 1 implies row_shows(#[trigger] rows@[j], sorted@[j], price_decimals, qty_decimals) by {
                if j < i {
                    assert(row_shows(rows@[j], sorted@[j], price_decimals, qty_decimals));
                }
            }
        }
        i = i + 1;
    }
    rows
}


/// A stored trade row read back with its unsigned ids and amounts (the
/// store keeps each column as the signed integer of the same bits).
pub fn settled_trade_of(row: &SettledTradeRow) -> (res: SettledTrade)
    ensures
        res.buy_order_id == row.buy_order_id as u64,
        res.sell_order_id == row.sell_order_id as u64,
        res.buyer_user_id == row.buyer_user_id as u64,
        res.seller_user_id == row.seller_user_id as u64,
        res.price == row.price as u64,
        res.quantity == row.quantity as u64,
        res.base_asset_id == row.base_asset_id as u32,
        res.quote_asset_id == row.quote_asset_id as u32,
        res.settled_at == row.settled_at,
{
    SettledTrade {
        buy_order_id: row.buy_order_id as u64,
        sell_order_id: row.sell_order_id as u64,
        buyer_user_id: row.buyer_user_id as u64,
        seller_user_id: row.seller_user_id as u64,
        price: row.price as u64,
        quantity: row.quantity as u64,
        base_asset_id: row.base_asset_id as u32,
        quote_asset_id: row.quote_asset_id as u32,
        settled_at: row.settled_at,
    }
}

} // verus!
