//! The limit order book of one symbol: price levels of resting orders on
//! both sides, price-time priority matching, and cancellation.

use std::collections::{BTreeMap, HashMap, HashSet, VecDeque};
use vstd::prelude::*;
use crate::order_utils::{Order, OrderError, Side, Trade};
use crate::fast_ulid::{FastUlidHalfGen, drawn_in_order, last_drawn, follows};
use crate::sorted_keys::{min_key, max_key, remove_key, insert_key};
use crate::text::{owned, u64_text, nat_text};

verus! {

broadcast use {vstd::std_specs::hash::group_hash_axioms, vstd::std_specs::btree::group_btree_axioms};

/// The book as mathematical values: each side maps a price to the orders
/// resting there in time order; `active` holds the ids that may not be
/// reused; `index` tells the side and price of each live order.
#[verifier::ext_equal]
pub struct BookState {
    pub bids: Map<u64, Seq<Order>>,
    pub asks: Map<u64, Seq<Order>>,
    pub active: Set<u64>,
    pub index: Map<u64, (Side, u64)>,
    pub match_seq: int,
}

/// The price levels of a side, each read as a sequence.
pub open spec fn levels_of(m: Map<u64, VecDeque<Order>>) -> Map<u64, Seq<Order>> {
    Map::new(|p: u64| m.contains_key(p), |p: u64| m[p]@)
}

/// Finitely many price levels, each holding at least one order; every
/// resting order still has quantity left and sits at its own price.
pub open spec fn levels_wf(m: Map<u64, Seq<Order>>) -> bool {
    &&& m.dom().finite()
    &&& forall|p: u64| #[trigger] m.contains_key(p) ==> {
        &&& m[p].len() > 0
        &&& forall|i: int| 0 <= i < m[p].len() ==> (#[trigger] m[p][i]).quantity > 0 && m[p][i].price == p
    }
}

/// A finite, non-empty set of prices has a best one for either side.
pub(crate) proof fn lemma_best_exists(side: Side, prices: Set<u64>)
    requires
        prices.finite(),
        prices.len() > 0,
    ensures
        exists|p: u64| is_best(side, prices, p),
    decreases prices.len(),
{
    let x = prices.choose();
    let rest = prices.remove(x);
    if rest.len() == 0 {
        assert forall|q: u64| prices.contains(q) implies q == x by {
            if q != x {
                assert(rest.contains(q));
            }
        }
        assert(is_best(side, prices, x));
    } else {
        lemma_best_exists(side, rest);
        let b = choose|p: u64| is_best(side, rest, p);
        match side {
            Side::Buy => {
                if x < b {
                    assert(is_best(side, prices, x));
                } else {
                    assert(is_best(side, prices, b));
                }
            },
            Side::Sell => {
                if x > b {
                    assert(is_best(side, prices, x));
                } else {
                    assert(is_best(side, prices, b));
                }
            },
        }
    }
}

/// The side a taker on `side` matches against.
pub open spec fn opposite_levels(st: BookState, side: Side) -> Map<u64, Seq<Order>> {
    match side {
        Side::Buy => st.asks,
        Side::Sell => st.bids,
    }
}

/// The side an order on `side` rests on.
pub open spec fn own_levels(st: BookState, side: Side) -> Map<u64, Seq<Order>> {
    match side {
        Side::Buy => st.bids,
        Side::Sell => st.asks,
    }
}

/// `st` with the levels of `side`'s opposite side replaced.
pub open spec fn with_opposite(st: BookState, side: Side, m: Map<u64, Seq<Order>>) -> BookState {
    match side {
        Side::Buy => BookState { asks: m, ..st },
        Side::Sell => BookState { bids: m, ..st },
    }
}

/// `st` with the levels of `side` itself replaced.
pub open spec fn with_own(st: BookState, side: Side, m: Map<u64, Seq<Order>>) -> BookState {
    match side {
        Side::Buy => BookState { bids: m, ..st },
        Side::Sell => BookState { asks: m, ..st },
    }
}

/// `p` is the best price a taker on `side` can meet among `prices`: the
/// lowest ask for a buyer, the highest bid for a seller.
pub open spec fn is_best(side: Side, prices: Set<u64>, p: u64) -> bool {
    &&& prices.contains(p)
    &&& match side {
        Side::Buy => forall|q: u64| prices.contains(q) ==> p <= q,
        Side::Sell => forall|q: u64| prices.contains(q) ==> q <= p,
    }
}

/// The best price for a taker on `side` among `prices`.
pub open spec fn best_price(side: Side, prices: Set<u64>) -> u64 {
    choose|p: u64| is_best(side, prices, p)
}

/// A taker with limit `limit` on `side` trades at a resting price `p`.
pub open spec fn crosses(side: Side, p: u64, limit: u64) -> bool {
    match side {
        Side::Buy => p <= limit,
        Side::Sell => p >= limit,
    }
}

/// The fill of `q` units between `taker` and the resting `maker`, at the
/// maker's price, numbered `seq + 1`. The trade id is left at zero: ids
/// come from the id generator.
pub open spec fn fill_of(taker: Order, maker: Order, q: nat, seq: int) -> Trade {
    match taker.side {
        Side::Buy => Trade {
            trade_id: 0,
            buy_order_id: taker.order_id,
            sell_order_id: maker.order_id,
            buy_user_id: taker.user_id,
            sell_user_id: maker.user_id,
            price: maker.price,
            quantity: q as u64,
            match_seq: (seq + 1) as u64,
        },
        Side::Sell => Trade {
            trade_id: 0,
            buy_order_id: maker.order_id,
            sell_order_id: taker.order_id,
            buy_user_id: maker.user_id,
            sell_user_id: taker.user_id,
            price: maker.price,
            quantity: q as u64,
            match_seq: (seq + 1) as u64,
        },
    }
}

/// Two trades agree on everything but their ids.
pub open spec fn same_fill(a: Trade, b: Trade) -> bool {
    &&& a.buy_order_id == b.buy_order_id
    &&& a.sell_order_id == b.sell_order_id
    &&& a.buy_user_id == b.buy_user_id
    &&& a.sell_user_id == b.sell_user_id
    &&& a.price == b.price
    &&& a.quantity == b.quantity
    &&& a.match_seq == b.match_seq
}

/// `o` with `q` units left.
pub open spec fn with_quantity(o: Order, q: u64) -> Order {
    Order { quantity: q, ..o }
}

/// The book after the first order at price `p` on the side a `side` taker
/// meets trades `q` units: it stays first with the rest, or, when nothing
/// is left, leaves the book (and the level goes when it is empty).
pub open spec fn after_fill(st: BookState, side: Side, p: u64, q: nat) -> BookState {
    let levels = opposite_levels(st, side);
    let level = levels[p];
    let maker = level[0];
    if maker.quantity > q {
        let level2 = seq![with_quantity(maker, (maker.quantity - q) as u64)] + level.drop_first();
        BookState { match_seq: st.match_seq + 1, ..with_opposite(st, side, levels.insert(p, level2)) }
    } else {
        let level2 = level.drop_first();
        let levels2 = if level2.len() == 0 { levels.remove(p) } else { levels.insert(p, level2) };
        BookState {
            active: st.active.remove(maker.order_id),
            index: st.index.remove(maker.order_id),
            match_seq: st.match_seq + 1,
            ..with_opposite(st, side, levels2)
        }
    }
}

/// Matching of a taker with `remaining` units against the book: as long as
/// units remain and the best opposite price crosses the taker's limit, the
/// first order at that price trades `min(remaining, its quantity)`.
/// Gives the book, the units left and the fills made.
pub open spec fn run_match(st: BookState, taker: Order, remaining: nat, fills: Seq<Trade>) -> (BookState, nat, Seq<Trade>)
    decreases remaining,
{
    let levels = opposite_levels(st, taker.side);
    if remaining == 0 || levels.dom().is_empty() {
        (st, remaining, fills)
    } else {
        let p = best_price(taker.side, levels.dom());
        if !crosses(taker.side, p, taker.price) || levels[p].len() == 0 || levels[p][0].quantity == 0 {
            (st, remaining, fills)
        } else {
            let maker = levels[p][0];
            let q: nat = if remaining < maker.quantity { remaining } else { maker.quantity as nat };
            run_match(
                after_fill(st, taker.side, p, q),
                taker,
                (remaining - q) as nat,
                fills.push(fill_of(taker, maker, q, st.match_seq)),
            )
        }
    }
}

/// The book after what is left of a taker rests at the back of its price
/// level (nothing rests when nothing is left).
pub open spec fn rest(st: BookState, taker: Order, remaining: nat) -> BookState {
    if remaining == 0 {
        st
    } else {
        let m = own_levels(st, taker.side);
        let level = if m.contains_key(taker.price) { m[taker.price] } else { Seq::empty() };
        with_own(st, taker.side, m.insert(taker.price, level.push(with_quantity(taker, remaining as u64))))
    }
}

/// The book once a new order's id is active and indexed.
pub open spec fn accept(st: BookState, order: Order) -> BookState {
    BookState {
        active: st.active.insert(order.order_id),
        index: st.index.insert(order.order_id, (order.side, order.price)),
        ..st
    }
}

/// Matching of a newly accepted order: the book, the units left and the fills.
pub open spec fn match_result(st: BookState, order: Order) -> (BookState, nat, Seq<Trade>) {
    run_match(accept(st, order), order, order.quantity as nat, Seq::empty())
}

/// How many fills a new order makes in a book.
pub open spec fn fill_count(st: BookState, order: Order) -> nat {
    match_result(st, order).2.len()
}

/// The book and fills after a new order is accepted: its id becomes
/// active and indexed, it matches, and what is left rests.
pub open spec fn add_order_result(st: BookState, order: Order) -> (BookState, Seq<Trade>) {
    let r = match_result(st, order);
    (rest(r.0, order, r.1), r.2)
}

/// The law of a placement in a well-formed, uncrossed book: the book stays
/// well formed and uncrossed; every fill is at a price that crosses the
/// order's limit (no worse for the taker) and carries the next match
/// sequence number in turn; the units filled and the units left make up
/// the order; and what is left rests at the back of its own price level.
/// Fills come in price priority, the first at the best opposite price;
/// within a price the oldest order fills first (`run_match` always trades
/// the first order of the best level).
pub proof fn lemma_add_order_law(st: BookState, order: Order)
    requires
        levels_wf(st.bids),
        levels_wf(st.asks),
        uncrossed(st),
        0 <= st.match_seq,
        st.match_seq + fill_count(st, order) <= u64::MAX,
    ensures
        ({
            let fin = add_order_result(st, order).0;
            let fills = add_order_result(st, order).1;
            let left = match_result(st, order).1;
            &&& levels_wf(fin.bids) && levels_wf(fin.asks) && uncrossed(fin)
            &&& forall|i: int| 0 <= i < fills.len() ==> {
                &&& crosses(order.side, (#[trigger] fills[i]).price, order.price)
                &&& fills[i].match_seq == st.match_seq + i + 1
            }
            &&& fills_total(fills) + left == order.quantity
            &&& left > 0 ==> own_levels(fin, order.side).contains_key(order.price)
                && own_levels(fin, order.side)[order.price].last() == with_quantity(order, left as u64)
            &&& in_price_priority(order.side, fills)
            &&& fills.len() > 0 ==> fills[0].price == best_price(order.side, opposite_levels(st, order.side).dom())
        }),
{
    lemma_add_order_keeps_book_uncrossed(st, order);
    lemma_add_order_fills(st, order);
    lemma_fills_best_price_first(st, order);
}

/// The trade ids of a sequence of trades.
pub open spec fn trade_ids(ts: Seq<Trade>) -> Seq<u64> {
    ts.map_values(|t: Trade| t.trade_id)
}

/// Position of the first order with id `id` in `level`, if any.
pub open spec fn first_with_id(level: Seq<Order>, id: u64, i: int) -> bool {
    &&& 0 <= i < level.len()
    &&& level[i].order_id == id
    &&& forall|j: int| 0 <= j < i ==> level[j].order_id != id
}

/// The book after cancelling `id`, and the cancelled order: the id leaves
/// the index and the active set when indexed; the first order with that id
/// at the indexed price leaves its level, and an emptied level goes.
pub open spec fn remove_order_result(st: BookState, id: u64) -> (BookState, Option<Order>) {
    if !st.index.contains_key(id) {
        (st, None)
    } else {
        let side = st.index[id].0;
        let price = st.index[id].1;
        let st1 = BookState { index: st.index.remove(id), active: st.active.remove(id), ..st };
        let m = own_levels(st1, side);
        if m.contains_key(price) && exists|i: int| first_with_id(m[price], id, i) {
            let i = choose|i: int| first_with_id(m[price], id, i);
            let level2 = m[price].remove(i);
            let m2 = if level2.len() == 0 { m.remove(price) } else { m.insert(price, level2) };
            (with_own(st1, side, m2), Some(m[price][i]))
        } else {
            (st1, None)
        }
    }
}

/// There is one first position of an id in a level.
proof fn lemma_first_with_id_unique(level: Seq<Order>, id: u64, i: int)
    requires
        first_with_id(level, id, i),
    ensures
        (choose|k: int| first_with_id(level, id, k)) == i,
{
    let k = choose|k: int| first_with_id(level, id, k);
    assert(first_with_id(level, id, k));
    if k < i {
        assert(level[k].order_id != id);
    } else if i < k {
        assert(level[i].order_id != id);
    }
}

/// There is one best price, so `best_price` names it.
proof fn lemma_best_is_unique(side: Side, prices: Set<u64>, p: u64)
    requires
        is_best(side, prices, p),
    ensures
        best_price(side, prices) == p,
{
    let b = best_price(side, prices);
    assert(is_best(side, prices, b));
}

/// The limit order book of one symbol.
pub struct OrderBook {
    pub symbol_id: u32,
    pub bids: BTreeMap<u64, VecDeque<Order>>,
    pub asks: BTreeMap<u64, VecDeque<Order>>,
    pub active_order_ids: HashSet<u64>,
    pub order_index: HashMap<u64, (Side, u64)>,
    pub match_seq: u64,
}

impl OrderBook {
    /// The book as mathematical values.
    pub open spec fn state(&self) -> BookState {
        BookState {
            bids: levels_of(self.bids@),
            asks: levels_of(self.asks@),
            active: self.active_order_ids@,
            index: self.order_index@,
            match_seq: self.match_seq as int,
        }
    }

    /// Both sides are well formed.
    pub open spec fn wf(&self) -> bool {
        levels_wf(self.state().bids) && levels_wf(self.state().asks)
    }

    /// An empty book.
    pub fn new(symbol_id: u32) -> (res: OrderBook)
        ensures
            res.symbol_id == symbol_id,
            res.state().bids.is_empty(),
            res.state().asks.is_empty(),
            res.state().active.is_empty(),
            res.state().index.is_empty(),
            res.match_seq == 0,
            res.wf(),
    {
        let res = OrderBook {
            symbol_id,
            bids: BTreeMap::new(),
            asks: BTreeMap::new(),
            active_order_ids: HashSet::new(),
            order_index: HashMap::new(),
            match_seq: 0,
        };
        assert(res.state().bids =~= Map::empty());
        assert(res.state().asks =~= Map::empty());
        res
    }

    /// The best opposite price for a taker on `side`, if that side has orders.
    fn best_opposite_price(&self, side: Side) -> (res: Option<u64>)
        ensures
            match res {
                None => opposite_levels(self.state(), side).dom().is_empty(),
                Some(p) => is_best(side, opposite_levels(self.state(), side).dom(), p),
            },
    {
        assert(levels_of(self.asks@).dom() =~= self.asks@.dom());
        assert(levels_of(self.bids@).dom() =~= self.bids@.dom());
        match side {
            Side::Buy => min_key(&self.asks),
            Side::Sell => max_key(&self.bids),
        }
    }

    /// Takes the level at `p` off the side a `side` taker meets.
    fn take_opposite_level(&mut self, side: Side, p: u64) -> (res: VecDeque<Order>)
        requires
            opposite_levels(old(self).state(), side).contains_key(p),
        ensures
            res@ == opposite_levels(old(self).state(), side)[p],
            final(self).state() == with_opposite(old(self).state(), side,
                opposite_levels(old(self).state(), side).remove(p)),
            final(self).symbol_id == old(self).symbol_id,
    {
        let taken = match side {
            Side::Buy => remove_key(&mut self.asks, p),
            Side::Sell => remove_key(&mut self.bids, p),
        };
        assert(self.state() =~= with_opposite(old(self).state(), side,
            opposite_levels(old(self).state(), side).remove(p)));
        match taken {
            Some(level) => level,
            None => {
                proof { assert(false); }
                VecDeque::new()
            },
        }
    }

    /// Puts `level` at `p` on the side a `side` taker meets.
    fn put_opposite_level(&mut self, side: Side, p: u64, level: VecDeque<Order>)
        ensures
            final(self).state() == with_opposite(old(self).state(), side,
                opposite_levels(old(self).state(), side).insert(p, level@)),
            final(self).symbol_id == old(self).symbol_id,
    {
        match side {
            Side::Buy => insert_key(&mut self.asks, p, level),
            Side::Sell => insert_key(&mut self.bids, p, level),
        }
        assert(self.state() =~= with_opposite(old(self).state(), side,
            opposite_levels(old(self).state(), side).insert(p, level@)));
    }

    /// Appends `o` at the back of its price level on its own side.
    fn rest_order(&mut self, o: Order)
        ensures
            final(self).state() == with_own(old(self).state(), o.side,
                own_levels(old(self).state(), o.side).insert(o.price,
                    (if own_levels(old(self).state(), o.side).contains_key(o.price) {
                        own_levels(old(self).state(), o.side)[o.price]
                    } else {
                        Seq::empty()
                    }).push(o))),
            final(self).symbol_id == old(self).symbol_id,
    {
        let taken = match o.side {
            Side::Buy => remove_key(&mut self.bids, o.price),
            Side::Sell => remove_key(&mut self.asks, o.price),
        };
        let mut level = match taken {
            Some(l) => l,
            None => VecDeque::new(),
        };
        level.push_back(o);
        match o.side {
            Side::Buy => insert_key(&mut self.bids, o.price, level),
            Side::Sell => insert_key(&mut self.asks, o.price, level),
        }
        assert(self.state() =~= with_own(old(self).state(), o.side,
            own_levels(old(self).state(), o.side).insert(o.price,
                (if own_levels(old(self).state(), o.side).contains_key(o.price) {
                    own_levels(old(self).state(), o.side)[o.price]
                } else {
                    Seq::empty()
                }).push(o))));
    }
}


impl OrderBook {
    /// Accepts a new order: refuses an id that is still active, otherwise
    /// matches it against the opposite side at the resting orders' prices
    /// (best price first, then time order) and rests what is left.
    /// Trade ids come from `trade_id_gen` for the clock reading `timestamp`.
    pub fn add_order(&mut self, order: Order, trade_id_gen: &mut FastUlidHalfGen, timestamp: u64)
        -> (res: Result<Vec<Trade>, String>)
        requires
            old(self).wf(),
            !old(self).state().active.contains(order.order_id)
                ==> old(self).match_seq + fill_count(old(self).state(), order) <= u64::MAX,
        ensures
            final(self).wf(),
            final(self).symbol_id == old(self).symbol_id,
            match res {
                Err(msg) => {
                    &&& old(self).state().active.contains(order.order_id)
                    &&& msg@ == "Duplicate order ID: "@ + nat_text(order.order_id as nat)
                    &&& final(self).state() == old(self).state()
                    &&& *final(trade_id_gen) == *old(trade_id_gen)
                },
                Ok(trades) => {
                    &&& !old(self).state().active.contains(order.order_id)
                    &&& drawn_in_order(trade_ids(trades@), old(trade_id_gen).last(), timestamp)
                    &&& final(trade_id_gen).last() == last_drawn(trade_ids(trades@), old(trade_id_gen).last())
                    &&& final(self).state() == add_order_result(old(self).state(), order).0
                    &&& trades.len() == add_order_result(old(self).state(), order).1.len()
                    &&& forall|i: int| 0 <= i < trades.len()
                        ==> same_fill(#[trigger] trades[i], add_order_result(old(self).state(), order).1[i])
                },
            },
    {
        let order_id = order.order_id;
        if self.active_order_ids.contains(&order_id) {
            proof { reveal_strlit("Duplicate order ID: "); }
            return Err(owned("Duplicate order ID: ").concat(u64_text(order_id).as_str()));
        }
        self.active_order_ids.insert(order_id);
        self.order_index.insert(order_id, (order.side, order.price));
        let ghost st1 = self.state();
        assert(st1 =~= accept(old(self).state(), order));
        assert(fill_count(old(self).state(), order) == run_match(st1, order, order.quantity as nat, Seq::empty()).2.len());

        let mut trades: Vec<Trade> = Vec::new();
        let mut taker = order;
        let ghost mut fills: Seq<Trade> = Seq::empty();
        while taker.quantity > 0
            invariant
                self.wf(),
                self.symbol_id == old(self).symbol_id,
                taker == with_quantity(order, taker.quantity),
                run_match(self.state(), order, taker.quantity as nat, fills)
                    == run_match(st1, order, order.quantity as nat, Seq::empty()),
                trades.len() == fills.len(),
                forall|i: int| 0 <= i < trades.len() ==> same_fill(#[trigger] trades[i], fills[i]),
                drawn_in_order(trade_ids(trades@), old(trade_id_gen).last(), timestamp),
                trade_id_gen.last() == last_drawn(trade_ids(trades@), old(trade_id_gen).last()),
                self.match_seq == old(self).match_seq + fills.len(),
                fills.len() <= fill_count(old(self).state(), order),
                fill_count(old(self).state(), order) == run_match(st1, order, order.quantity as nat, Seq::empty()).2.len(),
                old(self).match_seq + fill_count(old(self).state(), order) <= u64::MAX,
            ensures
                self.wf(),
                self.symbol_id == old(self).symbol_id,
                taker == with_quantity(order, taker.quantity),
                run_match(self.state(), order, taker.quantity as nat, fills)
                    == run_match(st1, order, order.quantity as nat, Seq::empty()),
                run_match(self.state(), order, taker.quantity as nat, fills)
                    == (self.state(), taker.quantity as nat, fills),
                trades.len() == fills.len(),
                forall|i: int| 0 <= i < trades.len() ==> same_fill(#[trigger] trades[i], fills[i]),
                drawn_in_order(trade_ids(trades@), old(trade_id_gen).last(), timestamp),
                trade_id_gen.last() == last_drawn(trade_ids(trades@), old(trade_id_gen).last()),
            decreases taker.quantity,
        {
            let ghost s0 = self.state();
            let best = self.best_opposite_price(taker.side);
            let p = match best {
                None => break,
                Some(p) => p,
            };
            proof { lemma_best_is_unique(order.side, opposite_levels(s0, order.side).dom(), p); }
            let crossing = match taker.side {
                Side::Buy => p <= taker.price,
                Side::Sell => p >= taker.price,
            };
            if !crossing {
                break;
            }
            let mut level = self.take_opposite_level(taker.side, p);
            assert(level@.len() > 0);
            let mut maker = level.pop_front().unwrap();
            let ghost maker0 = maker;
            assert(maker0 == opposite_levels(s0, order.side)[p][0]);
            assert(maker0.quantity > 0);
            let q: u64 = if taker.quantity < maker.quantity { taker.quantity } else { maker.quantity };
            proof {
                let st2 = after_fill(s0, order.side, p, q as nat);
                let f = fill_of(order, maker0, q as nat, s0.match_seq);
                lemma_after_fill(s0, order.side, p, q as nat);
                assert(run_match(s0, order, taker.quantity as nat, fills)
                    == run_match(st2, order, (taker.quantity - q) as nat, fills.push(f)));
                lemma_run_match(st2, order, (taker.quantity - q) as nat, fills.push(f));
            }
            self.match_seq = self.match_seq + 1;
            let trade_id = trade_id_gen.generate_from_ts(timestamp);
            let trade = match taker.side {
                Side::Buy => Trade {
                    trade_id,
                    buy_order_id: taker.order_id,
                    sell_order_id: maker.order_id,
                    buy_user_id: taker.user_id,
                    sell_user_id: maker.user_id,
                    price: maker.price,
                    quantity: q,
                    match_seq: self.match_seq,
                },
                Side::Sell => Trade {
                    trade_id,
                    buy_order_id: maker.order_id,
                    sell_order_id: taker.order_id,
                    buy_user_id: maker.user_id,
                    sell_user_id: taker.user_id,
                    price: maker.price,
                    quantity: q,
                    match_seq: self.match_seq,
                },
            };
            let ghost ids0 = trade_ids(trades@);
            trades.push(trade);
            proof {
                let ids1 = trade_ids(trades@);
                assert(ids1 =~= ids0.push(trade_id));
                assert forall|i: int| 0 <= i < ids1.len()
                    implies follows(if i == 0 { old(trade_id_gen).last() } else { ids1[i - 1] }, #[trigger] ids1[i], timestamp) by {
                    if i < ids0.len() {
                        assert(ids1[i] == ids0[i]);
                        if i > 0 { assert(ids1[i - 1] == ids0[i - 1]); }
                    } else {
                        assert(ids1[i] == trade_id);
                    }
                }
            }
            taker.quantity = taker.quantity - q;
            maker.quantity = maker.quantity - q;
            if maker.quantity > 0 {
                level.push_front(maker);
            } else {
                self.active_order_ids.remove(&maker.order_id);
                self.order_index.remove(&maker.order_id);
            }
            if level.len() > 0 {
                self.put_opposite_level(taker.side, p, level);
            }
            proof {
                let fill = fill_of(order, maker0, q as nat, s0.match_seq);
                assert(same_fill(trade, fill));
                fills = fills.push(fill);
                assert(self.state() =~= after_fill(s0, order.side, p, q as nat));
            }
        }
        if taker.quantity > 0 {
            self.rest_order(taker);
        }
        Ok(trades)
    }
}


/// Position of the first order with id `id` in `level`, if any.
fn position_of(level: &VecDeque<Order>, id: u64) -> (res: Option<usize>)
    ensures
        match res {
            Some(i) => first_with_id(level@, id, i as int),
            None => forall|j: int| 0 <= j < level@.len() ==> (#[trigger] level@[j]).order_id != id,
        },
{
    let n = level.len();
    let mut i: usize = 0;
    while i < n
        invariant
            n == level@.len(),
            i <= n,
            forall|j: int| 0 <= j < i ==> (#[trigger] level@[j]).order_id != id,
        decreases n - i,
    {
        if level[i].order_id == id {
            return Some(i);
        }
        i = i + 1;
    }
    None
}

impl OrderBook {
    /// Cancels a live order: its id leaves the index and the active set, and
    /// the order leaves its price level (the level goes when emptied).
    /// An id that is not indexed, or whose order is not at its indexed
    /// price, is reported as not found.
    pub fn remove_order(&mut self, order_id: u64) -> (res: Result<Order, OrderError>)
        requires
            old(self).wf(),
        ensures
            final(self).wf(),
            final(self).symbol_id == old(self).symbol_id,
            final(self).state() == remove_order_result(old(self).state(), order_id).0,
            match res {
                Ok(o) => remove_order_result(old(self).state(), order_id).1 == Some(o),
                Err(e) => remove_order_result(old(self).state(), order_id).1 is None
                    && e == OrderError::OrderNotFound { order_id },
            },
    {
        let entry = self.order_index.remove(&order_id);
        let (side, price) = match entry {
            None => {
                assert(self.state() =~= old(self).state());
                return Err(OrderError::OrderNotFound { order_id });
            },
            Some(e) => e,
        };
        self.active_order_ids.remove(&order_id);
        let ghost st1 = self.state();
        assert(st1 =~= BookState {
            index: old(self).state().index.remove(order_id),
            active: old(self).state().active.remove(order_id),
            ..old(self).state()
        });
        let taken = match side {
            Side::Buy => remove_key(&mut self.bids, price),
            Side::Sell => remove_key(&mut self.asks, price),
        };
        let mut level = match taken {
            None => {
                assert(self.state() =~= st1);
                return Err(OrderError::OrderNotFound { order_id });
            },
            Some(l) => l,
        };
        let ghost lv = level@;
        assert(lv == own_levels(st1, side)[price]);
        match position_of(&level, order_id) {
            None => {
                match side {
                    Side::Buy => insert_key(&mut self.bids, price, level),
                    Side::Sell => insert_key(&mut self.asks, price, level),
                }
                assert(self.state() =~= st1);
                Err(OrderError::OrderNotFound { order_id })
            },
            Some(i) => {
                proof { lemma_first_with_id_unique(lv, order_id, i as int); }
                let o = level.remove(i).unwrap();
                if level.len() > 0 {
                    match side {
                        Side::Buy => insert_key(&mut self.bids, price, level),
                        Side::Sell => insert_key(&mut self.asks, price, level),
                    }
                }
                let ghost m = own_levels(st1, side);
                let ghost level2 = lv.remove(i as int);
                let ghost m2 = if level2.len() == 0 { m.remove(price) } else { m.insert(price, level2) };
                assert(self.state() =~= with_own(st1, side, m2));
                Ok(o)
            },
        }
    }
}


/// Total quantity of a sequence of fills.
pub open spec fn fills_total(s: Seq<Trade>) -> nat
    decreases s.len(),
{
    if s.len() == 0 {
        0
    } else {
        fills_total(s.drop_last()) + s.last().quantity as nat
    }
}

/// No bid is at or above an ask.
pub open spec fn uncrossed(st: BookState) -> bool {
    forall|b: u64, a: u64| st.bids.contains_key(b) && st.asks.contains_key(a) ==> b < a
}

/// Filling the first order at the best price keeps the side well formed,
/// adds no price, and leaves the taker's own side alone.
pub(crate) proof fn lemma_after_fill(st: BookState, side: Side, p: u64, q: nat)
    requires
        levels_wf(opposite_levels(st, side)),
        opposite_levels(st, side).contains_key(p),
        0 < q <= opposite_levels(st, side)[p][0].quantity,
    ensures
        levels_wf(opposite_levels(after_fill(st, side, p, q), side)),
        opposite_levels(after_fill(st, side, p, q), side).dom().subset_of(opposite_levels(st, side).dom()),
        own_levels(after_fill(st, side, p, q), side) == own_levels(st, side),
        after_fill(st, side, p, q).match_seq == st.match_seq + 1,
{
    let levels = opposite_levels(st, side);
    let level = levels[p];
    let maker = level[0];
    let m2 = opposite_levels(after_fill(st, side, p, q), side);
    if maker.quantity > q {
        let level2 = seq![with_quantity(maker, (maker.quantity - q) as u64)] + level.drop_first();
        assert(m2 == levels.insert(p, level2));
        assert forall|k: u64| #[trigger] m2.contains_key(k) implies {
            &&& m2[k].len() > 0
            &&& forall|i: int| 0 <= i < m2[k].len() ==> (#[trigger] m2[k][i]).quantity > 0
        } by {
            if k == p {
                assert forall|i: int| 0 <= i < m2[k].len() implies (#[trigger] m2[k][i]).quantity > 0 by {
                    if i > 0 {
                        assert(m2[k][i] == level[i]);
                    }
                }
            }
        }
    } else {
        let level2 = level.drop_first();
        assert forall|k: u64| #[trigger] m2.contains_key(k) implies {
            &&& m2[k].len() > 0
            &&& forall|i: int| 0 <= i < m2[k].len() ==> (#[trigger] m2[k][i]).quantity > 0
        } by {
            if k == p {
                assert forall|i: int| 0 <= i < m2[k].len() implies (#[trigger] m2[k][i]).quantity > 0 by {
                    assert(m2[k][i] == level[i + 1]);
                }
            }
        }
    }
}

/// What matching does, for every book and taker: the taker's own side is
/// left alone; the opposite side stays well formed and gains no price;
/// every fill is at a price the taker's limit accepts and carries the next
/// match number; the units filled and the units left add up to the units
/// offered; and units are left only when nothing opposite crosses the limit.
pub proof fn lemma_run_match(st: BookState, taker: Order, remaining: nat, fills: Seq<Trade>)
    requires
        levels_wf(opposite_levels(st, taker.side)),
    ensures
        ({
            let r = run_match(st, taker, remaining, fills);
            &&& own_levels(r.0, taker.side) == own_levels(st, taker.side)
            &&& levels_wf(opposite_levels(r.0, taker.side))
            &&& opposite_levels(r.0, taker.side).dom().subset_of(opposite_levels(st, taker.side).dom())
            &&& r.1 <= remaining
            &&& fills_total(r.2) + r.1 == fills_total(fills) + remaining
            &&& fills.len() <= r.2.len()
            &&& r.2.len() - fills.len() <= remaining - r.1
            &&& r.2.subrange(0, fills.len() as int) == fills
            &&& r.0.match_seq == st.match_seq + (r.2.len() - fills.len())
            &&& forall|i: int| fills.len() <= i < r.2.len() ==> {
                &&& crosses(taker.side, (#[trigger] r.2[i]).price, taker.price)
                &&& r.2[i].match_seq == (st.match_seq + (i - fills.len()) + 1) as u64
            }
            &&& r.1 > 0 ==> {
                ||| opposite_levels(r.0, taker.side).dom().is_empty()
                ||| !crosses(taker.side, best_price(taker.side, opposite_levels(r.0, taker.side).dom()), taker.price)
            }
        }),
    decreases remaining,
{
    let levels = opposite_levels(st, taker.side);
    if remaining == 0 || levels.dom().is_empty() {
        assert(fills.subrange(0, fills.len() as int) =~= fills);
    } else {
        lemma_best_exists(taker.side, levels.dom());
        let p = best_price(taker.side, levels.dom());
        if !crosses(taker.side, p, taker.price) || levels[p].len() == 0 || levels[p][0].quantity == 0 {
            assert(fills.subrange(0, fills.len() as int) =~= fills);
        } else {
            let maker = levels[p][0];
            let q: nat = if remaining < maker.quantity { remaining } else { maker.quantity as nat };
            let st2 = after_fill(st, taker.side, p, q);
            let f = fill_of(taker, maker, q, st.match_seq);
            let fills2 = fills.push(f);
            assert(is_best(taker.side, levels.dom(), p));
            lemma_after_fill(st, taker.side, p, q);
            lemma_run_match(st2, taker, (remaining - q) as nat, fills2);
            let r = run_match(st2, taker, (remaining - q) as nat, fills2);
            assert(fills2.drop_last() =~= fills);
            assert(r.2.subrange(0, fills2.len() as int).subrange(0, fills.len() as int) =~= r.2.subrange(0, fills.len() as int));
            assert(r.2[fills.len() as int] == r.2.subrange(0, fills2.len() as int)[fills.len() as int]);
            assert(crosses(taker.side, maker.price, taker.price)) by {
                assert(levels.contains_key(p));
            }
        }
    }
}


/// The side that a taker on `side` meets.
pub open spec fn other_side(side: Side) -> Side {
    match side {
        Side::Buy => Side::Sell,
        Side::Sell => Side::Buy,
    }
}

/// Every order resting on these levels of `side` is indexed at that side
/// and at its price.
pub open spec fn side_indexed(levels: Map<u64, Seq<Order>>, index: Map<u64, (Side, u64)>, side: Side) -> bool {
    forall|p: u64, i: int| #![trigger levels[p][i]] levels.contains_key(p) && 0 <= i < levels[p].len()
        ==> index.contains_key(levels[p][i].order_id) && index[levels[p][i].order_id] == (side, p)
}

/// No id rests twice in a price level.
pub open spec fn levels_distinct(levels: Map<u64, Seq<Order>>) -> bool {
    forall|p: u64, i: int, j: int| #![trigger levels[p][i], levels[p][j]]
        levels.contains_key(p) && 0 <= i < j < levels[p].len() ==> levels[p][i].order_id != levels[p][j].order_id
}

/// The book's ids agree: the active ids are the indexed ones, every
/// resting order is indexed at its side and price, and no id rests twice.
pub open spec fn ids_consistent(st: BookState) -> bool {
    &&& st.active == st.index.dom()
    &&& side_indexed(st.bids, st.index, Side::Buy)
    &&& side_indexed(st.asks, st.index, Side::Sell)
    &&& levels_distinct(st.bids)
    &&& levels_distinct(st.asks)
}

/// No order on these levels has id `id`.
pub open spec fn not_resting(levels: Map<u64, Seq<Order>>, id: u64) -> bool {
    forall|p: u64, i: int| #![trigger levels[p][i]] levels.contains_key(p) && 0 <= i < levels[p].len()
        ==> levels[p][i].order_id != id
}

proof fn lemma_ids_by_side(st: BookState, side: Side)
    ensures
        ids_consistent(st) <==> {
            &&& st.active == st.index.dom()
            &&& side_indexed(own_levels(st, side), st.index, side)
            &&& side_indexed(opposite_levels(st, side), st.index, other_side(side))
            &&& levels_distinct(own_levels(st, side))
            &&& levels_distinct(opposite_levels(st, side))
        },
{
}

proof fn lemma_after_fill_ids(st: BookState, side: Side, p: u64, q: nat)
    requires
        ids_consistent(st),
        levels_wf(opposite_levels(st, side)),
        opposite_levels(st, side).contains_key(p),
        0 < q <= opposite_levels(st, side)[p][0].quantity,
    ensures
        ids_consistent(after_fill(st, side, p, q)),
        forall|id: u64| st.index.contains_key(id) && st.index[id].0 == side
            ==> #[trigger] after_fill(st, side, p, q).index.contains_key(id)
                && after_fill(st, side, p, q).index[id] == st.index[id],
        own_levels(after_fill(st, side, p, q), side) == own_levels(st, side),
{
    lemma_ids_by_side(st, side);
    let levels = opposite_levels(st, side);
    let level = levels[p];
    let maker = level[0];
    let st2 = after_fill(st, side, p, q);
    let m2 = opposite_levels(st2, side);
    lemma_ids_by_side(st2, side);
    assert(levels[p][0] == maker);
    if maker.quantity > q {
        let level2 = seq![with_quantity(maker, (maker.quantity - q) as u64)] + level.drop_first();
        assert(m2 == levels.insert(p, level2));
        assert forall|pp: u64, i: int| #![trigger m2[pp][i]] m2.contains_key(pp) && 0 <= i < m2[pp].len()
            implies m2[pp][i].order_id == levels[pp][i].order_id && levels.contains_key(pp) && 0 <= i < levels[pp].len() by {
            if pp == p && i > 0 {
                assert(m2[pp][i] == level[i]);
            }
        }
        assert(side_indexed(m2, st2.index, other_side(side)));
        assert forall|pp: u64, i: int, j: int| #![trigger m2[pp][i], m2[pp][j]]
            m2.contains_key(pp) && 0 <= i < j < m2[pp].len() implies m2[pp][i].order_id != m2[pp][j].order_id by {
            assert(levels[pp][i].order_id != levels[pp][j].order_id);
        }
    } else {
        let level2 = level.drop_first();
        let idx2 = st.index.remove(maker.order_id);
        assert(st2.index == idx2);
        assert(st2.active == st.active.remove(maker.order_id));
        assert(st2.active =~= st2.index.dom());
        assert(st.index[maker.order_id] == (other_side(side), p));
        // the maker's id rests nowhere else
        assert forall|pp: u64, i: int| #![trigger m2[pp][i]] m2.contains_key(pp) && 0 <= i < m2[pp].len()
            implies idx2.contains_key(m2[pp][i].order_id) && idx2[m2[pp][i].order_id] == (other_side(side), pp) by {
            let o = m2[pp][i];
            if pp == p {
                assert(o == level[i + 1]);
                assert(level[0].order_id != level[i + 1].order_id);
                assert(st.index[o.order_id] == (other_side(side), p));
            } else {
                assert(o == levels[pp][i]);
                assert(st.index[o.order_id] == (other_side(side), pp));
            }
        }
        let own = own_levels(st, side);
        assert forall|pp: u64, i: int| #![trigger own[pp][i]] own.contains_key(pp) && 0 <= i < own[pp].len()
            implies idx2.contains_key(own[pp][i].order_id) && idx2[own[pp][i].order_id] == (side, pp) by {
            assert(st.index[own[pp][i].order_id] == (side, pp));
            assert(side != other_side(side));
        }
        assert forall|pp: u64, i: int, j: int| #![trigger m2[pp][i], m2[pp][j]]
            m2.contains_key(pp) && 0 <= i < j < m2[pp].len() implies m2[pp][i].order_id != m2[pp][j].order_id by {
            if pp == p {
                assert(m2[pp][i] == level[i + 1] && m2[pp][j] == level[j + 1]);
            } else {
                assert(m2[pp][i] == levels[pp][i] && m2[pp][j] == levels[pp][j]);
            }
        }
        assert forall|id: u64| st.index.contains_key(id) && st.index[id].0 == side
            implies #[trigger] st2.index.contains_key(id) && st2.index[id] == st.index[id] by {
            assert(id != maker.order_id);
        }
    }
}

proof fn lemma_run_match_ids(st: BookState, taker: Order, remaining: nat, fills: Seq<Trade>)
    requires
        ids_consistent(st),
        levels_wf(opposite_levels(st, taker.side)),
    ensures
        ids_consistent(run_match(st, taker, remaining, fills).0),
        forall|id: u64| st.index.contains_key(id) && st.index[id].0 == taker.side
            ==> #[trigger] run_match(st, taker, remaining, fills).0.index.contains_key(id)
                && run_match(st, taker, remaining, fills).0.index[id] == st.index[id],
    decreases remaining,
{
    let levels = opposite_levels(st, taker.side);
    if remaining == 0 || levels.dom().is_empty() {
    } else {
        lemma_best_exists(taker.side, levels.dom());
        let p = best_price(taker.side, levels.dom());
        if !crosses(taker.side, p, taker.price) || levels[p].len() == 0 || levels[p][0].quantity == 0 {
        } else {
            let maker = levels[p][0];
            let q: nat = if remaining < maker.quantity { remaining } else { maker.quantity as nat };
            let st2 = after_fill(st, taker.side, p, q);
            let fills2 = fills.push(fill_of(taker, maker, q, st.match_seq));
            assert(is_best(taker.side, levels.dom(), p));
            lemma_after_fill(st, taker.side, p, q);
            lemma_after_fill_ids(st, taker.side, p, q);
            lemma_run_match_ids(st2, taker, (remaining - q) as nat, fills2);
            let r = run_match(st2, taker, (remaining - q) as nat, fills2);
            assert forall|id: u64| st.index.contains_key(id) && st.index[id].0 == taker.side
                implies #[trigger] r.0.index.contains_key(id) && r.0.index[id] == st.index[id] by {
                assert(st2.index.contains_key(id) && st2.index[id] == st.index[id]);
            }
        }
    }
}

/// Placing an order whose id is not active keeps the book's ids in
/// agreement: active ids are the indexed ones, each resting order is
/// indexed at its side and price, and no id rests twice in a level. (An
/// order filled at once stays active and indexed without resting.)
pub proof fn lemma_add_order_keeps_ids(st: BookState, order: Order)
    requires
        ids_consistent(st),
        levels_wf(st.bids),
        levels_wf(st.asks),
        !st.active.contains(order.order_id),
    ensures
        ids_consistent(add_order_result(st, order).0),
{
    let side = order.side;
    let a = accept(st, order);
    lemma_ids_by_side(st, side);
    lemma_ids_by_side(a, side);
    let own = own_levels(st, side);
    let opp = opposite_levels(st, side);
    assert(a.active =~= a.index.dom());
    assert forall|pp: u64, i: int| #![trigger own[pp][i]] own.contains_key(pp) && 0 <= i < own[pp].len()
        implies a.index.contains_key(own[pp][i].order_id) && a.index[own[pp][i].order_id] == (side, pp)
            && own[pp][i].order_id != order.order_id by {
        assert(st.index.contains_key(own[pp][i].order_id));
    }
    assert forall|pp: u64, i: int| #![trigger opp[pp][i]] opp.contains_key(pp) && 0 <= i < opp[pp].len()
        implies a.index.contains_key(opp[pp][i].order_id) && a.index[opp[pp][i].order_id] == (other_side(side), pp) by {
        assert(st.index.contains_key(opp[pp][i].order_id));
    }
    assert(ids_consistent(a));
    lemma_run_match(a, order, order.quantity as nat, Seq::empty());
    lemma_run_match_ids(a, order, order.quantity as nat, Seq::empty());
    let r = match_result(st, order);
    assert(a.index.contains_key(order.order_id) && a.index[order.order_id].0 == side);
    assert(run_match(a, order, order.quantity as nat, Seq::empty()).0.index.contains_key(order.order_id));
    assert(r == run_match(a, order, order.quantity as nat, Seq::empty()));
    assert(r.0.index.contains_key(order.order_id) && r.0.index[order.order_id] == (side, order.price));
    let fin = rest(r.0, order, r.1);
    lemma_ids_by_side(r.0, side);
    lemma_ids_by_side(fin, side);
    if r.1 > 0 {
        let m = own_levels(r.0, side);
        assert(m == own);
        let level = if m.contains_key(order.price) { m[order.price] } else { Seq::<Order>::empty() };
        let t = with_quantity(order, r.1 as u64);
        let m2 = m.insert(order.price, level.push(t));
        assert(own_levels(fin, side) == m2);
        assert(opposite_levels(fin, side) == opposite_levels(r.0, side));
        assert forall|pp: u64, i: int| #![trigger m2[pp][i]] m2.contains_key(pp) && 0 <= i < m2[pp].len()
            implies fin.index.contains_key(m2[pp][i].order_id) && fin.index[m2[pp][i].order_id] == (side, pp) by {
            if pp == order.price && i == level.len() {
                assert(m2[pp][i] == t);
            } else if pp == order.price {
                assert(m2[pp][i] == m[pp][i]);
            }
        }
        assert forall|pp: u64, i: int, j: int| #![trigger m2[pp][i], m2[pp][j]]
            m2.contains_key(pp) && 0 <= i < j < m2[pp].len() implies m2[pp][i].order_id != m2[pp][j].order_id by {
            if pp == order.price {
                assert(m2[pp][i] == m[pp][i]);
                if j == level.len() {
                    assert(m2[pp][j] == t);
                } else {
                    assert(m2[pp][j] == m[pp][j]);
                }
            }
        }
    }
}

/// Cancelling keeps the book's ids in agreement.
pub proof fn lemma_remove_order_keeps_ids(st: BookState, id: u64)
    requires
        ids_consistent(st),
    ensures
        ids_consistent(remove_order_result(st, id).0),
{
    if st.index.contains_key(id) {
        let side = st.index[id].0;
        let price = st.index[id].1;
        let st1 = BookState { index: st.index.remove(id), active: st.active.remove(id), ..st };
        lemma_ids_by_side(st, side);
        lemma_ids_by_side(st1, side);
        let m = own_levels(st1, side);
        let opp = opposite_levels(st, side);
        assert(st1.active =~= st1.index.dom());
        assert forall|pp: u64, i: int| #![trigger opp[pp][i]] opp.contains_key(pp) && 0 <= i < opp[pp].len()
            implies st1.index.contains_key(opp[pp][i].order_id) && st1.index[opp[pp][i].order_id] == (other_side(side), pp) by {
            assert(st.index[opp[pp][i].order_id] == (other_side(side), pp));
            assert(side != other_side(side));
        }
        if m.contains_key(price) && exists|i: int| first_with_id(m[price], id, i) {
            let i = choose|i: int| first_with_id(m[price], id, i);
            let level2 = m[price].remove(i);
            let m2 = if level2.len() == 0 { m.remove(price) } else { m.insert(price, level2) };
            let fin = with_own(st1, side, m2);
            lemma_ids_by_side(fin, side);
            assert forall|pp: u64, k: int| #![trigger m2[pp][k]] m2.contains_key(pp) && 0 <= k < m2[pp].len()
                implies st1.index.contains_key(m2[pp][k].order_id) && st1.index[m2[pp][k].order_id] == (side, pp) by {
                if pp == price {
                    let kk = if k < i { k } else { k + 1 };
                    assert(m2[pp][k] == m[price][kk]);
                    assert(m[price][kk].order_id != m[price][i].order_id);
                } else {
                    assert(m2[pp][k] == m[pp][k]);
                    assert(st.index[m[pp][k].order_id] == (side, pp));
                }
            }
            assert forall|pp: u64, k: int, j: int| #![trigger m2[pp][k], m2[pp][j]]
                m2.contains_key(pp) && 0 <= k < j < m2[pp].len() implies m2[pp][k].order_id != m2[pp][j].order_id by {
                if pp == price {
                    let kk = if k < i { k } else { k + 1 };
                    let jj = if j < i { j } else { j + 1 };
                    assert(m2[pp][k] == m[price][kk] && m2[pp][j] == m[price][jj]);
                } else {
                    assert(m2[pp][k] == m[pp][k] && m2[pp][j] == m[pp][j]);
                }
            }
        } else {
            assert forall|pp: u64, k: int| #![trigger m[pp][k]] m.contains_key(pp) && 0 <= k < m[pp].len()
                implies st1.index.contains_key(m[pp][k].order_id) && st1.index[m[pp][k].order_id] == (side, pp) by {
                assert(st.index[m[pp][k].order_id] == (side, pp));
                if m[pp][k].order_id == id {
                    assert(pp == price);
                    assert(exists|j: int| 0 <= j <= k && m[price][j].order_id == id && first_with_id(m[price], id, j)) by {
                        lemma_first_occurrence(m[price], id, k);
                    }
                }
            }
        }
    }
}

/// An id that occurs in a level has a first occurrence.
proof fn lemma_first_occurrence(level: Seq<Order>, id: u64, k: int)
    requires
        0 <= k < level.len(),
        level[k].order_id == id,
    ensures
        exists|j: int| 0 <= j <= k && level[j].order_id == id && first_with_id(level, id, j),
    decreases k,
{
    if exists|j: int| 0 <= j < k && level[j].order_id == id {
        let j = choose|j: int| 0 <= j < k && level[j].order_id == id;
        lemma_first_occurrence(level, id, j);
    } else {
        assert(first_with_id(level, id, k));
    }
}

/// Price `a` comes no later than price `b` for a taker on `side`: no
/// higher for a buyer, no lower for a seller.
pub open spec fn no_later(side: Side, a: u64, b: u64) -> bool {
    match side {
        Side::Buy => a <= b,
        Side::Sell => a >= b,
    }
}

/// Fills come in price priority: each price comes no later than the next.
pub open spec fn in_price_priority(side: Side, fills: Seq<Trade>) -> bool {
    forall|i: int, j: int| 0 <= i <= j < fills.len() ==> no_later(side, #[trigger] fills[i].price, #[trigger] fills[j].price)
}

proof fn lemma_run_match_priority(st: BookState, taker: Order, remaining: nat, fills: Seq<Trade>)
    requires
        levels_wf(opposite_levels(st, taker.side)),
        in_price_priority(taker.side, fills),
        forall|i: int, q: u64| 0 <= i < fills.len() && #[trigger] opposite_levels(st, taker.side).contains_key(q)
            ==> no_later(taker.side, #[trigger] fills[i].price, q),
    ensures
        in_price_priority(taker.side, run_match(st, taker, remaining, fills).2),
        run_match(st, taker, remaining, fills).2.len() > fills.len() ==>
            run_match(st, taker, remaining, fills).2[fills.len() as int].price
                == best_price(taker.side, opposite_levels(st, taker.side).dom()),
    decreases remaining,
{
    let levels = opposite_levels(st, taker.side);
    lemma_run_match(st, taker, remaining, fills);
    if remaining == 0 || levels.dom().is_empty() {
    } else {
        lemma_best_exists(taker.side, levels.dom());
        let p = best_price(taker.side, levels.dom());
        if !crosses(taker.side, p, taker.price) || levels[p].len() == 0 || levels[p][0].quantity == 0 {
        } else {
            let maker = levels[p][0];
            let q: nat = if remaining < maker.quantity { remaining } else { maker.quantity as nat };
            let st2 = after_fill(st, taker.side, p, q);
            let f = fill_of(taker, maker, q, st.match_seq);
            let fills2 = fills.push(f);
            assert(is_best(taker.side, levels.dom(), p));
            assert(maker.price == p);
            assert(f.price == p);
            lemma_after_fill(st, taker.side, p, q);
            assert forall|i: int, j: int| 0 <= i <= j < fills2.len() implies no_later(taker.side, #[trigger] fills2[i].price, #[trigger] fills2[j].price) by {
                if j == fills.len() {
                    if i < fills.len() {
                        assert(fills2[i] == fills[i]);
                        assert(levels.contains_key(p));
                    }
                } else {
                    assert(fills2[i] == fills[i]);
                    assert(fills2[j] == fills[j]);
                }
            }
            assert forall|i: int, x: u64| 0 <= i < fills2.len() && #[trigger] opposite_levels(st2, taker.side).contains_key(x) implies no_later(taker.side, #[trigger] fills2[i].price, x) by {
                assert(levels.contains_key(x));
                if i < fills.len() {
                    assert(fills2[i] == fills[i]);
                }
            }
            lemma_run_match_priority(st2, taker, (remaining - q) as nat, fills2);
            lemma_run_match(st2, taker, (remaining - q) as nat, fills2);
            let r = run_match(st2, taker, (remaining - q) as nat, fills2);
            assert(r.2[fills.len() as int] == r.2.subrange(0, fills2.len() as int)[fills.len() as int]);
        }
    }
}

/// Price priority of a placement: the first fill is at the best opposite
/// price of the book, and each later fill is at a price no better for the
/// taker than the one before. (Within a price, the oldest order is filled
/// first: `after_fill` always trades the first order of the level.)
pub proof fn lemma_fills_best_price_first(st: BookState, order: Order)
    requires
        levels_wf(st.bids),
        levels_wf(st.asks),
    ensures
        in_price_priority(order.side, add_order_result(st, order).1),
        add_order_result(st, order).1.len() > 0 ==>
            add_order_result(st, order).1[0].price == best_price(order.side, opposite_levels(st, order.side).dom()),
{
    let a = accept(st, order);
    assert(opposite_levels(a, order.side) == opposite_levels(st, order.side));
    lemma_run_match_priority(a, order, order.quantity as nat, Seq::empty());
}

/// Adding an order to an uncrossed book leaves it uncrossed: after matching,
/// no bid is at or above an ask, and both sides stay well formed.
pub proof fn lemma_add_order_keeps_book_uncrossed(st: BookState, order: Order)
    requires
        levels_wf(st.bids),
        levels_wf(st.asks),
        uncrossed(st),
    ensures
        uncrossed(add_order_result(st, order).0),
        levels_wf(add_order_result(st, order).0.bids),
        levels_wf(add_order_result(st, order).0.asks),
{
    let a = accept(st, order);
    let r = match_result(st, order);
    lemma_run_match(a, order, order.quantity as nat, Seq::empty());
    let fin = add_order_result(st, order).0;
    let opp = opposite_levels(r.0, order.side);
    if r.1 > 0 && !opp.dom().is_empty() {
        lemma_best_exists(order.side, opp.dom());
    }
    let m = own_levels(r.0, order.side);
    let level = if m.contains_key(order.price) { m[order.price] } else { Seq::<Order>::empty() };
    if r.1 > 0 {
        let m2 = m.insert(order.price, level.push(with_quantity(order, r.1 as u64)));
        assert forall|k: u64| #[trigger] m2.contains_key(k) implies {
            &&& m2[k].len() > 0
            &&& forall|i: int| 0 <= i < m2[k].len() ==> (#[trigger] m2[k][i]).quantity > 0 && m2[k][i].price == k
        } by {
            if k == order.price {
                assert forall|i: int| 0 <= i < m2[k].len() implies (#[trigger] m2[k][i]).quantity > 0
                    && m2[k][i].price == k by {
                    if i < level.len() {
                        assert(m2[k][i] == level[i]);
                    }
                }
            }
        }
        assert(levels_wf(m2));
    }
    assert forall|b: u64, x: u64| fin.bids.contains_key(b) && fin.asks.contains_key(x) implies b < x by {
        match order.side {
            Side::Buy => {
                assert(st.asks.contains_key(x));
                if !st.bids.contains_key(b) {
                    assert(b == order.price);
                    assert(opp.contains_key(x));
                }
            },
            Side::Sell => {
                assert(st.bids.contains_key(b));
                if !st.asks.contains_key(x) {
                    assert(x == order.price);
                    assert(opp.contains_key(b));
                }
            },
        }
    }
}

/// The units of a new order are either filled or left over, every fill is
/// at a price its limit accepts, fills are numbered on from the book's match
/// counter, and what is left rests at the back of its price level.
pub proof fn lemma_add_order_fills(st: BookState, order: Order)
    requires
        levels_wf(st.bids),
        levels_wf(st.asks),
        0 <= st.match_seq,
        st.match_seq + fill_count(st, order) <= u64::MAX,
    ensures
        ({
            let r = match_result(st, order);
            let fin = add_order_result(st, order).0;
            &&& add_order_result(st, order).1 == r.2
            &&& fills_total(r.2) + r.1 == order.quantity
            &&& r.2.len() <= order.quantity
            &&& forall|i: int| 0 <= i < r.2.len() ==> {
                &&& crosses(order.side, (#[trigger] r.2[i]).price, order.price)
                &&& r.2[i].match_seq == st.match_seq + i + 1
            }
            &&& r.1 > 0 ==> {
                &&& own_levels(fin, order.side).contains_key(order.price)
                &&& own_levels(fin, order.side)[order.price].last() == with_quantity(order, r.1 as u64)
            }
        }),
{
    let a = accept(st, order);
    lemma_run_match(a, order, order.quantity as nat, Seq::empty());
    let r = match_result(st, order);
    assert forall|i: int| 0 <= i < r.2.len() implies {
        &&& crosses(order.side, (#[trigger] r.2[i]).price, order.price)
        &&& r.2[i].match_seq == st.match_seq + i + 1
    } by {
        assert(r.2[i].match_seq == (st.match_seq + i + 1) as u64);
    }
}

} // verus!
