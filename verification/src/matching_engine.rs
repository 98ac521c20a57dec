//! The matching engine: one order book per symbol, the assets each symbol
//! trades, and the chained outputs that record every effect of an order.
//!
//! Balances are kept by another service: the engine runs against a ledger
//! that keeps none (every balance reads as unlimited, no version is known),
//! so locking always succeeds and balance events carry deltas only.

use std::collections::HashMap;
use vstd::prelude::*;
use crate::engine_output::{
    BalanceEvent, EngineOutput, EngineOutputBuilder, InputBundle, InputData, OrderUpdate,
    PlaceOrderInput, TradeOutput, crc32_of, hash_is_valid, primary_symbol,
};
use crate::fast_ulid::{FastUlidHalfGen, drawn_in_order, last_drawn};
use crate::order_book::{
    OrderBook, add_order_result, same_fill, levels_wf, BookState, match_result, lemma_add_order_fills,
    fills_total, run_match, after_fill, rest, accept, opposite_levels, own_levels, best_price, crosses,
    lemma_run_match, with_quantity, trade_ids, fill_count, remove_order_result,
};
use crate::order_utils::{Order, OrderError, OrderType, Side, Trade, side_code, order_type_code};
use crate::text::{owned, u64_text, nat_text};
use crate::internal_transfer_types::tb_account_id;
use crate::ledger::{LedgerCommand, MatchExecData};
use crate::order_utils::OrderStatus;

verus! {

broadcast use vstd::std_specs::hash::group_hash_axioms;

/// What `xxhash_rust::xxh3::xxh3_64_with_seed` gives for bytes and a seed.
pub uninterp spec fn xxh3_64_seeded_of(data: Seq<u8>, seed: u64) -> u64;

/// Wrapper of `xxhash_rust::xxh3::xxh3_64_with_seed`, a function of the
/// bytes and the seed alone.
#[verifier::external_body]
fn xxh3_seeded(data: &[u8], seed: u64) -> (res: u64)
    ensures
        res == xxh3_64_seeded_of(data@, seed),
{
    xxhash_rust::xxh3::xxh3_64_with_seed(data, seed)
}

/// Largest amount a signed balance delta can carry.
pub open spec fn max_delta() -> int {
    0x7FFF_FFFF_FFFF_FFFF
}

/// Every bid resting in the book is worth at most `max_delta` of quote, so
/// that a seller filling against it gets a credit a signed delta can carry.
pub open spec fn bids_bounded(st: BookState) -> bool {
    forall|p: u64, i: int| #![trigger st.bids[p][i]] st.bids.contains_key(p) && 0 <= i < st.bids[p].len()
        ==> st.bids[p][i].price * st.bids[p][i].quantity <= max_delta()
}

/// Key of a (user, asset) pair in the version counters.
pub open spec fn pair_key(user_id: u64, asset_id: u32) -> u128 {
    ((user_id as nat) * 0x1_0000_0000_0000_0000nat + asset_id as nat) as u128
}

/// A version counter: the number of updates seen in this batch (the
/// ledger in use knows no earlier version).
pub open spec fn version_of(m: Map<u128, u64>, user_id: u64, asset_id: u32) -> u64 {
    if m.contains_key(pair_key(user_id, asset_id)) { m[pair_key(user_id, asset_id)] } else { 0 }
}

/// The counters after `inc` more updates of a pair.
pub open spec fn bumped(m: Map<u128, u64>, user_id: u64, asset_id: u32, inc: u64) -> Map<u128, u64> {
    m.insert(pair_key(user_id, asset_id), (version_of(m, user_id, asset_id) + inc) as u64)
}

/// A balance event as a value, its kind as text.
pub struct EventSpec {
    pub user_id: u64,
    pub asset_id: u32,
    pub seq: u64,
    pub delta_avail: i64,
    pub delta_frozen: i64,
    pub avail: Option<u64>,
    pub frozen: Option<u64>,
    pub kind: Seq<char>,
    pub ref_id: u64,
}

/// `e` is the event `s`.
pub open spec fn event_is(e: BalanceEvent, s: EventSpec) -> bool {
    &&& e.user_id == s.user_id
    &&& e.asset_id == s.asset_id
    &&& e.seq == s.seq
    &&& e.delta_avail == s.delta_avail
    &&& e.delta_frozen == s.delta_frozen
    &&& e.avail == s.avail
    &&& e.frozen == s.frozen
    &&& e.event_type@ == s.kind
    &&& e.ref_id == s.ref_id
}

/// Every event is the one specified at its position.
pub open spec fn events_are(es: Seq<BalanceEvent>, ss: Seq<EventSpec>) -> bool {
    &&& es.len() == ss.len()
    &&& forall|i: int| 0 <= i < es.len() ==> event_is(#[trigger] es[i], ss[i])
}

/// What a taker that placed an order on `side` at `price` gets back of its
/// lock on a fill: the price improvement on a buy of its own.
pub open spec fn refund_of(t: Trade, side: Side, user_id: u64, price: u64) -> nat {
    if side == Side::Buy && t.buy_user_id == user_id && price > t.price {
        ((price - t.price) * t.quantity) as nat
    } else {
        0
    }
}

/// The record of a fill in the output.
pub open spec fn trade_output_of(t: Trade, symbol_id: u32, base: u32, quote: u32, refund: nat) -> TradeOutput {
    TradeOutput {
        trade_id: t.trade_id,
        match_seq: t.match_seq,
        symbol_id,
        buy_order_id: t.buy_order_id,
        sell_order_id: t.sell_order_id,
        buyer_user_id: t.buy_user_id,
        seller_user_id: t.sell_user_id,
        price: t.price,
        quantity: t.quantity,
        base_asset_id: base,
        quote_asset_id: quote,
        buyer_refund: refund as u64,
        seller_refund: 0,
        settled_at: 0,
    }
}

/// The four balance events of a fill, given the version counters before it.
pub open spec fn fill_events(t: Trade, base: u32, quote: u32, refund: nat, m: Map<u128, u64>) -> Seq<EventSpec> {
    let inc: u64 = if refund > 0 { 2 } else { 1 };
    let bq = version_of(m, t.buy_user_id, quote);
    let m1 = bumped(m, t.buy_user_id, quote, inc);
    let bb = version_of(m1, t.buy_user_id, base);
    let m2 = bumped(m1, t.buy_user_id, base, 1);
    let sb = version_of(m2, t.sell_user_id, base);
    let m3 = bumped(m2, t.sell_user_id, base, 1);
    let sq = version_of(m3, t.sell_user_id, quote);
    let cost: int = t.price * t.quantity;
    seq![
        if refund > 0 {
            EventSpec { user_id: t.buy_user_id, asset_id: quote, seq: (bq + 1) as u64,
                delta_avail: refund as i64, delta_frozen: (-(cost + refund)) as i64, avail: None, frozen: None,
                kind: "trade_refund"@, ref_id: t.trade_id }
        } else {
            EventSpec { user_id: t.buy_user_id, asset_id: quote, seq: (bq + 1) as u64,
                delta_avail: 0, delta_frozen: (-cost) as i64, avail: None, frozen: None,
                kind: "trade_debit"@, ref_id: t.trade_id }
        },
        EventSpec { user_id: t.buy_user_id, asset_id: base, seq: (bb + 1) as u64,
            delta_avail: t.quantity as i64, delta_frozen: 0, avail: None, frozen: None,
            kind: "trade_credit"@, ref_id: t.trade_id },
        EventSpec { user_id: t.sell_user_id, asset_id: base, seq: (sb + 1) as u64,
            delta_avail: 0, delta_frozen: (-(t.quantity as int)) as i64, avail: None, frozen: None,
            kind: "trade_debit"@, ref_id: t.trade_id },
        EventSpec { user_id: t.sell_user_id, asset_id: quote, seq: (sq + 1) as u64,
            delta_avail: cost as i64, delta_frozen: 0, avail: None, frozen: None,
            kind: "trade_credit"@, ref_id: t.trade_id },
    ]
}

/// Version counters after a fill.
pub open spec fn counters_after_fill(t: Trade, base: u32, quote: u32, refund: nat, m: Map<u128, u64>) -> Map<u128, u64> {
    let inc: u64 = if refund > 0 { 2 } else { 1 };
    let m1 = bumped(m, t.buy_user_id, quote, inc);
    let m2 = bumped(m1, t.buy_user_id, base, 1);
    let m3 = bumped(m2, t.sell_user_id, base, 1);
    bumped(m3, t.sell_user_id, quote, 1)
}

/// The records, balance events and version counters of a sequence of fills
/// of a taker, in order.
pub open spec fn fills_effects(ts: Seq<Trade>, side: Side, user_id: u64, price: u64, symbol_id: u32, base: u32, quote: u32)
    -> (Seq<TradeOutput>, Seq<EventSpec>, Map<u128, u64>)
    decreases ts.len(),
{
    if ts.len() == 0 {
        (Seq::empty(), Seq::empty(), Map::empty())
    } else {
        let r = fills_effects(ts.drop_last(), side, user_id, price, symbol_id, base, quote);
        let t = ts.last();
        let refund = refund_of(t, side, user_id, price);
        (
            r.0.push(trade_output_of(t, symbol_id, base, quote, refund)),
            r.1 + fill_events(t, base, quote, refund, r.2),
            counters_after_fill(t, base, quote, refund, r.2),
        )
    }
}

/// Total quote value of a sequence of fills.
pub open spec fn fills_cost(ts: Seq<Trade>) -> nat
    decreases ts.len(),
{
    if ts.len() == 0 { 0 } else { fills_cost(ts.drop_last()) + (ts.last().price * ts.last().quantity) as nat }
}

/// The fills with the trade ids an output recorded for them.
pub open spec fn with_ids(fills: Seq<Trade>, outs: Seq<TradeOutput>) -> Seq<Trade> {
    Seq::new(fills.len(), |i: int| Trade { trade_id: outs[i].trade_id, ..fills[i] })
}

/// The asset an order locks and how much: quote for a buy, base for a sell.
pub open spec fn lock_of(side: Side, price: u64, quantity: u64, base: u32, quote: u32) -> (u32, int) {
    match side {
        Side::Buy => (quote, price * quantity),
        Side::Sell => (base, quantity as int),
    }
}

/// The lock event of a new order against a ledger that keeps no balances.
pub open spec fn lock_event(user_id: u64, order_id: u64, asset: u32, amount: int) -> EventSpec {
    EventSpec {
        user_id,
        asset_id: asset,
        seq: 1,
        delta_avail: (-amount) as i64,
        delta_frozen: amount as i64,
        avail: Some((u64::MAX - amount) as u64),
        frozen: Some(amount as u64),
        kind: "lock"@,
        ref_id: order_id,
    }
}

/// The bytes folded into the state hash for a new order.
pub open spec fn order_hash_bytes(order_id: u64, symbol_id: u32, side: Side, price: u64, quantity: u64, user_id: u64) -> Seq<u8> {
    crate::engine_output::le64(order_id) + crate::engine_output::le32(symbol_id) + seq![side_code(side)]
        + crate::engine_output::le64(price) + crate::engine_output::le64(quantity) + crate::engine_output::le64(user_id)
}


proof fn lemma_mul_le(a: int, b: int, c: int)
    requires
        0 <= a,
        0 <= b <= c,
    ensures
        a * b <= a * c,
{
    assert(a * b <= a * c) by (nonlinear_arith)
        requires 0 <= a, 0 <= b <= c;
}

/// A fill is never larger than the fills it is part of.
proof fn lemma_fill_le_total(s: Seq<Trade>, i: int)
    requires
        0 <= i < s.len(),
    ensures
        s[i].quantity <= fills_total(s),
    decreases s.len(),
{
    if i < s.len() - 1 {
        lemma_fill_le_total(s.drop_last(), i);
        assert(s.drop_last()[i] == s[i]);
    }
}

/// A seller matching against bids that are each worth at most `max_delta`
/// makes fills worth at most that, and leaves such bids.
proof fn lemma_sell_fills_bounded(st: BookState, taker: Order, remaining: nat, fills: Seq<Trade>)
    requires
        taker.side == Side::Sell,
        levels_wf(st.bids),
        bids_bounded(st),
        forall|i: int| 0 <= i < fills.len() ==> (#[trigger] fills[i]).price * fills[i].quantity <= max_delta(),
    ensures
        ({
            let r = run_match(st, taker, remaining, fills);
            &&& bids_bounded(r.0)
            &&& forall|i: int| 0 <= i < r.2.len() ==> (#[trigger] r.2[i]).price * r.2[i].quantity <= max_delta()
        }),
    decreases remaining,
{
    let levels = opposite_levels(st, taker.side);
    if remaining == 0 || levels.dom().is_empty() {
    } else {
        crate::order_book::lemma_best_exists(taker.side, levels.dom());
        let p = best_price(taker.side, levels.dom());
        if !crosses(taker.side, p, taker.price) || levels[p].len() == 0 || levels[p][0].quantity == 0 {
        } else {
            let maker = levels[p][0];
            assert(levels.contains_key(p));
            assert(st.bids[p][0] == maker);
            let q: nat = if remaining < maker.quantity { remaining } else { maker.quantity as nat };
            let st2 = after_fill(st, taker.side, p, q);
            let f = crate::order_book::fill_of(taker, maker, q, st.match_seq);
            assert(maker.price * maker.quantity <= max_delta());
            lemma_mul_le(maker.price as int, q as int, maker.quantity as int);
            crate::order_book::lemma_after_fill(st, taker.side, p, q);
            let lv = st2.bids;
            assert forall|pp: u64, i: int| #![trigger lv[pp][i]] lv.contains_key(pp) && 0 <= i < lv[pp].len()
                implies lv[pp][i].price * lv[pp][i].quantity <= max_delta() by {
                if pp == p {
                    if maker.quantity > q {
                        if i == 0 {
                            lemma_mul_le(maker.price as int, (maker.quantity - q) as int, maker.quantity as int);
                        } else {
                            assert(lv[pp][i] == st.bids[p][i]);
                        }
                    } else {
                        assert(lv[pp][i] == st.bids[p][i + 1]);
                    }
                }
            }
            let fills2 = fills.push(f);
            assert forall|i: int| 0 <= i < fills2.len() implies (#[trigger] fills2[i]).price * fills2[i].quantity <= max_delta() by {
                if i < fills.len() {
                    assert(fills2[i] == fills[i]);
                }
            }
            lemma_sell_fills_bounded(st2, taker, (remaining - q) as nat, fills2);
        }
    }
}

/// The fills of a new order are each worth at most `max_delta`, none is
/// larger than the order, a buyer's fills are at or below its limit, and
/// the book keeps its bids bounded.
pub proof fn lemma_order_fills_bounded(st: BookState, order: Order)
    requires
        levels_wf(st.bids),
        levels_wf(st.asks),
        bids_bounded(st),
        0 <= st.match_seq,
        st.match_seq + fill_count(st, order) <= u64::MAX,
        order.quantity <= max_delta(),
        order.side == Side::Buy ==> order.price * order.quantity <= max_delta(),
    ensures
        ({
            let fills = add_order_result(st, order).1;
            &&& forall|i: int| 0 <= i < fills.len() ==> {
                &&& (#[trigger] fills[i]).price * fills[i].quantity <= max_delta()
                &&& fills[i].quantity <= order.quantity
                &&& order.side == Side::Buy ==> fills[i].price <= order.price
                    && order.price * fills[i].quantity <= max_delta()
            }
            &&& fills_total(fills) <= order.quantity
            &&& bids_bounded(add_order_result(st, order).0)
        }),
{
    lemma_add_order_fills(st, order);
    let a = accept(st, order);
    let r = match_result(st, order);
    lemma_run_match(a, order, order.quantity as nat, Seq::empty());
    let fills = r.2;
    assert forall|i: int| 0 <= i < fills.len() implies fills[i].quantity <= order.quantity by {
        lemma_fill_le_total(fills, i);
    }
    if order.side == Side::Sell {
        lemma_sell_fills_bounded(a, order, order.quantity as nat, Seq::empty());
    } else {
        assert forall|i: int| 0 <= i < fills.len() implies (#[trigger] fills[i]).price * fills[i].quantity <= max_delta()
            && order.price * fills[i].quantity <= max_delta() by {
            lemma_fill_le_total(fills, i);
            lemma_mul_le(order.price as int, fills[i].quantity as int, order.quantity as int);
            lemma_mul_le(fills[i].quantity as int, fills[i].price as int, order.price as int);
        }
    }
    let fin = add_order_result(st, order).0;
    if r.1 > 0 && order.side == Side::Buy {
        let m = own_levels(r.0, order.side);
        let level = if m.contains_key(order.price) { m[order.price] } else { Seq::<Order>::empty() };
        lemma_mul_le(order.price as int, r.1 as int, order.quantity as int);
        assert forall|pp: u64, i: int| #![trigger fin.bids[pp][i]] fin.bids.contains_key(pp) && 0 <= i < fin.bids[pp].len()
            implies fin.bids[pp][i].price * fin.bids[pp][i].quantity <= max_delta() by {
            if pp == order.price && i < level.len() {
                assert(fin.bids[pp][i] == level[i]);
            }
        }
    }
}


/// The engine's state apart from its order logs and snapshot files.
pub struct MatchingEngine {
    pub order_books: Vec<Option<OrderBook>>,
    pub asset_map: HashMap<u32, (u32, u32)>,
    pub trade_id_gen: FastUlidHalfGen,
    pub state_hash: u64,
    pub output_seq: u64,
    pub last_output_hash: u64,
}

/// The book registered under an id, if any.
pub open spec fn book_of(books: Seq<Option<OrderBook>>, symbol_id: u32) -> Option<OrderBook> {
    if (symbol_id as int) < books.len() { books[symbol_id as int] } else { None }
}

/// The text of a refused symbol registration.
pub open spec fn symbol_in_use_text(symbol_id: u32) -> Seq<char> {
    "Symbol ID "@ + nat_text(symbol_id as nat) + " is already in use"@
}

impl MatchingEngine {
    /// Every registered book is well formed.
    pub open spec fn wf(&self) -> bool {
        forall|i: int| 0 <= i < self.order_books@.len() && (#[trigger] self.order_books@[i]) is Some
            ==> self.order_books@[i]->0.wf()
    }

    /// An engine over recovered books and output chain, with no symbol
    /// registered in the asset map yet and a fresh state hash.
    pub fn with_state(order_books: Vec<Option<OrderBook>>, output_seq: u64, last_output_hash: u64) -> (res: MatchingEngine)
        ensures
            res.order_books@ == order_books@,
            res.asset_map@.is_empty(),
            res.state_hash == 0,
            res.output_seq == output_seq,
            res.last_output_hash == last_output_hash,
    {
        MatchingEngine {
            order_books,
            asset_map: HashMap::new(),
            trade_id_gen: FastUlidHalfGen::new(),
            state_hash: 0,
            output_seq,
            last_output_hash,
        }
    }

    /// Folds bytes into the state hash.
    pub fn update_hash(&mut self, data: &[u8])
        ensures
            final(self).state_hash == xxh3_64_seeded_of(data@, old(self).state_hash),
            final(self).order_books == old(self).order_books,
            final(self).asset_map == old(self).asset_map,
            final(self).trade_id_gen == old(self).trade_id_gen,
            final(self).output_seq == old(self).output_seq,
            final(self).last_output_hash == old(self).last_output_hash,
    {
        self.state_hash = xxh3_seeded(data, self.state_hash);
    }

    /// The number of the last output.
    pub fn get_output_seq(&self) -> (res: u64)
        ensures
            res == self.output_seq,
    {
        self.output_seq
    }

    /// Opens an empty book under `symbol_id`, trading `base_asset_id`
    /// against `quote_asset_id`; refused when the id already has a book.
    pub fn register_symbol(&mut self, symbol_id: u32, symbol: String, base_asset_id: u32, quote_asset_id: u32)
        -> (res: Result<(), String>)
        requires
            old(self).wf(),
        ensures
            final(self).wf(),
            book_of(old(self).order_books@, symbol_id) is Some ==> {
                &&& res matches Err(msg) && msg@ == symbol_in_use_text(symbol_id)
                &&& *final(self) == *old(self)
            },
            book_of(old(self).order_books@, symbol_id) is None ==> {
                &&& res is Ok
                &&& final(self).order_books@.len() == if (symbol_id as int) < old(self).order_books@.len() {
                    old(self).order_books@.len() as int
                } else {
                    symbol_id as int + 1
                }
                &&& book_of(final(self).order_books@, symbol_id) matches Some(b) && b.symbol_id == symbol_id
                    && b.state().bids.is_empty() && b.state().asks.is_empty() && b.state().active.is_empty()
                    && b.state().index.is_empty() && b.match_seq == 0
                &&& forall|j: int| 0 <= j < final(self).order_books@.len() && j != symbol_id as int
                    ==> (#[trigger] final(self).order_books@[j]) == if j < old(self).order_books@.len() {
                        old(self).order_books@[j]
                    } else {
                        None
                    }
                &&& final(self).asset_map@ == old(self).asset_map@.insert(symbol_id, (base_asset_id, quote_asset_id))
                &&& final(self).trade_id_gen == old(self).trade_id_gen
                &&& final(self).state_hash == old(self).state_hash
                &&& final(self).output_seq == old(self).output_seq
                &&& final(self).last_output_hash == old(self).last_output_hash
            },
    {
        let idx = symbol_id as usize;
        if idx >= self.order_books.len() {
            let ghost old_books = self.order_books@;
            while self.order_books.len() <= idx
                invariant
                    old_books == old(self).order_books@,
                    old_books.len() <= self.order_books@.len() <= idx + 1,
                    forall|j: int| 0 <= j < old_books.len() ==> self.order_books@[j] == old_books[j],
                    forall|j: int| old_books.len() <= j < self.order_books@.len() ==> self.order_books@[j] is None,
                    self.asset_map == old(self).asset_map,
                    self.trade_id_gen == old(self).trade_id_gen,
                    self.state_hash == old(self).state_hash,
                    self.output_seq == old(self).output_seq,
                    self.last_output_hash == old(self).last_output_hash,
                decreases idx + 1 - self.order_books@.len(),
            {
                self.order_books.push(None);
            }
        } else if self.order_books[idx].is_some() {
            return Err(owned("Symbol ID ").concat(u64_text(symbol_id as u64).as_str()).concat(" is already in use"));
        }
        let book = OrderBook::new(symbol_id);
        self.order_books.set(idx, Some(book));
        self.asset_map.insert(symbol_id, (base_asset_id, quote_asset_id));
        proof {
            assert(book.state().bids =~= Map::empty());
            assert forall|i: int| 0 <= i < self.order_books@.len() && (#[trigger] self.order_books@[i]) is Some
                implies self.order_books@[i]->0.wf() by {
                if i != idx as int {
                    assert(old(self).order_books@[i] is Some);
                }
            }
        }
        Ok(())
    }
}


/// The order a placement request describes.
pub open spec fn order_of(order_id: u64, user_id: u64, symbol_id: u32, side: Side, order_type: OrderType,
    price: u64, quantity: u64, timestamp: u64) -> Order
{
    Order { order_id, user_id, symbol_id, side, order_type, price, quantity, timestamp }
}

fn order_hash_data(order_id: u64, symbol_id: u32, side: Side, price: u64, quantity: u64, user_id: u64) -> (res: Vec<u8>)
    ensures
        res@ == order_hash_bytes(order_id, symbol_id, side, price, quantity, user_id),
{
    let mut data: Vec<u8> = Vec::new();
    crate::engine_output::put_u64(&mut data, order_id);
    crate::engine_output::put_u32(&mut data, symbol_id);
    crate::engine_output::put_u8(&mut data, side.as_u8());
    crate::engine_output::put_u64(&mut data, price);
    crate::engine_output::put_u64(&mut data, quantity);
    crate::engine_output::put_u64(&mut data, user_id);
    assert(data@ =~= order_hash_bytes(order_id, symbol_id, side, price, quantity, user_id));
    data
}

impl MatchingEngine {
    /// Whether a new order can be taken: its symbol has assets, and its id
    /// is not active in the symbol's book.
    pub fn check_new_order(&self, symbol_id: u32, order_id: u64) -> (res: Result<(), OrderError>)
        ensures
            !self.asset_map@.contains_key(symbol_id)
                ==> res == Err::<(), OrderError>(OrderError::InvalidSymbol { symbol_id }),
            self.asset_map@.contains_key(symbol_id) ==> match book_of(self.order_books@, symbol_id) {
                Some(b) => if b.state().active.contains(order_id) {
                    res == Err::<(), OrderError>(OrderError::DuplicateOrderId { order_id })
                } else {
                    res is Ok
                },
                None => res is Ok,
            },
    {
        if !self.asset_map.contains_key(&symbol_id) {
            return Err(OrderError::InvalidSymbol { symbol_id });
        }
        let idx = symbol_id as usize;
        if idx < self.order_books.len() {
            match &self.order_books[idx] {
                Some(book) => {
                    if book.active_order_ids.contains(&order_id) {
                        return Err(OrderError::DuplicateOrderId { order_id });
                    }
                },
                None => {},
            }
        }
        Ok(())
    }

    /// Matches a new order in its symbol's book and counts its fills in
    /// the output sequence; a symbol without a book takes nothing.
    fn process_order_logic(&mut self, order: Order) -> (res: Result<(u64, Vec<Trade>), OrderError>)
        requires
            old(self).wf(),
            old(self).asset_map@.contains_key(order.symbol_id),
            placement_fits(old(self).order_books@, order),
            old(self).output_seq + placement_fill_count(old(self).order_books@, order) <= u64::MAX,
        ensures
            final(self).wf(),
            final(self).asset_map == old(self).asset_map,
            final(self).state_hash == old(self).state_hash,
            final(self).last_output_hash == old(self).last_output_hash,
            final(self).order_books@.len() == old(self).order_books@.len(),
            forall|j: int| 0 <= j < old(self).order_books@.len() && j != order.symbol_id as int
                ==> #[trigger] final(self).order_books@[j] == old(self).order_books@[j],
            res matches Ok((oid, ts)) ==> {
                &&& oid == order.order_id
                &&& ts@.len() == placement_fills(old(self).order_books@, order).len()
                &&& forall|i: int| 0 <= i < ts@.len()
                    ==> same_fill(#[trigger] ts@[i], placement_fills(old(self).order_books@, order)[i])
            },
            match book_of(old(self).order_books@, order.symbol_id) {
                None => res is Ok && final(self).order_books@ == old(self).order_books@
                    && final(self).output_seq == old(self).output_seq,
                Some(b) => if b.state().active.contains(order.order_id) {
                    &&& res matches Err(OrderError::Other(msg)) && msg@ == "Duplicate order ID: "@ + nat_text(order.order_id as nat)
                    &&& book_of(final(self).order_books@, order.symbol_id) matches Some(nb)
                        && nb.state() == b.state() && nb.symbol_id == b.symbol_id
                    &&& final(self).output_seq == old(self).output_seq
                } else {
                    &&& res is Ok
                    &&& book_of(final(self).order_books@, order.symbol_id) matches Some(nb)
                        && nb.state() == add_order_result(b.state(), order).0 && nb.symbol_id == b.symbol_id
                    &&& final(self).output_seq == old(self).output_seq + add_order_result(b.state(), order).1.len()
                },
            },
    {
        let idx = order.symbol_id as usize;
        if idx >= self.order_books.len() {
            return Ok((order.order_id, Vec::new()));
        }
        let mut slot: Option<OrderBook> = None;
        self.order_books.set_and_swap(idx, &mut slot);
        let mut book = match slot {
            Some(b) => b,
            None => {
                let mut back: Option<OrderBook> = None;
                self.order_books.set_and_swap(idx, &mut back);
                assert(self.order_books@ =~= old(self).order_books@);
                return Ok((order.order_id, Vec::new()));
            },
        };
        let ghost b0 = book;
        proof {
            assert(old(self).order_books@[idx as int] is Some);
            if !b0.state().active.contains(order.order_id) {
                lemma_add_order_fills(b0.state(), order);
            }
        }
        let result = book.add_order(order, &mut self.trade_id_gen, order.timestamp);
        let mut back = Some(book);
        self.order_books.set_and_swap(idx, &mut back);
        proof {
            assert forall|i: int| 0 <= i < self.order_books@.len() && (#[trigger] self.order_books@[i]) is Some
                implies self.order_books@[i]->0.wf() by {
                if i != idx as int {
                    assert(old(self).order_books@[i] is Some);
                }
            }
        }
        match result {
            Err(msg) => {
                Err(OrderError::Other(msg))
            },
            Ok(trades) => {
                self.output_seq = self.output_seq + trades.len() as u64;
                Ok((order.order_id, trades))
            },
        }
    }

    /// Takes a new limit order: refuses an unknown symbol or an id still
    /// active in the symbol's book, otherwise matches it and folds it into
    /// the state hash. Returns the order id.
    pub fn add_order(
        &mut self,
        symbol_id: u32,
        order_id: u64,
        side: Side,
        order_type: OrderType,
        price: u64,
        quantity: u64,
        user_id: u64,
        timestamp: u64,
    ) -> (res: Result<u64, OrderError>)
        requires
            old(self).wf(),
            side == Side::Buy ==> price * quantity <= u64::MAX,
            placement_fits(old(self).order_books@, order_of(order_id, user_id, symbol_id, side, order_type, price,
                quantity, timestamp)),
            old(self).output_seq + placement_fill_count(old(self).order_books@, order_of(order_id, user_id, symbol_id,
                side, order_type, price, quantity, timestamp)) <= u64::MAX,
        ensures
            final(self).wf(),
            !old(self).asset_map@.contains_key(symbol_id) ==> {
                &&& res == Err::<u64, OrderError>(OrderError::InvalidSymbol { symbol_id })
                &&& *final(self) == *old(self)
            },
            old(self).asset_map@.contains_key(symbol_id) ==> match book_of(old(self).order_books@, symbol_id) {
                Some(b) => if b.state().active.contains(order_id) {
                    &&& res == Err::<u64, OrderError>(OrderError::DuplicateOrderId { order_id })
                    &&& *final(self) == *old(self)
                } else {
                    let order = order_of(order_id, user_id, symbol_id, side, order_type, price, quantity, timestamp);
                    &&& res == Ok::<u64, OrderError>(order_id)
                    &&& book_of(final(self).order_books@, symbol_id) matches Some(nb)
                        && nb.state() == add_order_result(b.state(), order).0 && nb.symbol_id == b.symbol_id
                    &&& final(self).order_books@.len() == old(self).order_books@.len()
                    &&& forall|j: int| 0 <= j < old(self).order_books@.len() && j != symbol_id as int
                        ==> #[trigger] final(self).order_books@[j] == old(self).order_books@[j]
                    &&& final(self).output_seq == old(self).output_seq + add_order_result(b.state(), order).1.len()
                    &&& final(self).state_hash == xxh3_64_seeded_of(
                        order_hash_bytes(order_id, symbol_id, side, price, quantity, user_id), old(self).state_hash)
                    &&& final(self).asset_map == old(self).asset_map
                    &&& final(self).last_output_hash == old(self).last_output_hash
                },
                None => {
                    &&& res == Ok::<u64, OrderError>(order_id)
                    &&& final(self).order_books@ == old(self).order_books@
                    &&& final(self).output_seq == old(self).output_seq
                    &&& final(self).state_hash == xxh3_64_seeded_of(
                        order_hash_bytes(order_id, symbol_id, side, price, quantity, user_id), old(self).state_hash)
                    &&& final(self).asset_map == old(self).asset_map
                    &&& final(self).last_output_hash == old(self).last_output_hash
                },
            },
    {
        match self.check_new_order(symbol_id, order_id) {
            Err(e) => return Err(e),
            Ok(()) => {},
        }
        let order = Order { order_id, user_id, symbol_id, side, order_type, price, quantity, timestamp };
        let oid = match self.process_order_logic(order) {
            Err(e) => return Err(e),
            Ok((o, _)) => o,
        };
        let data = order_hash_data(order_id, symbol_id, side, price, quantity, user_id);
        self.update_hash(data.as_slice());
        Ok(oid)
    }
}


/// The bytes folded into the state hash for a cancellation.
pub open spec fn cancel_hash_bytes(symbol_id: u32, order_id: u64) -> Seq<u8> {
    crate::engine_output::le32(symbol_id) + crate::engine_output::le64(order_id) + seq![0xFFu8]
}

fn cancel_hash_data(symbol_id: u32, order_id: u64) -> (res: Vec<u8>)
    ensures
        res@ == cancel_hash_bytes(symbol_id, order_id),
{
    let mut data: Vec<u8> = Vec::new();
    crate::engine_output::put_u32(&mut data, symbol_id);
    crate::engine_output::put_u64(&mut data, order_id);
    crate::engine_output::put_u8(&mut data, 0xFF);
    assert(data@ =~= cancel_hash_bytes(symbol_id, order_id));
    data
}

/// The order a cancellation takes out of its book, if any.
pub open spec fn cancelled_order(books: Seq<Option<OrderBook>>, symbol_id: u32, order_id: u64) -> Option<Order> {
    match book_of(books, symbol_id) {
        Some(b) => remove_order_result(b.state(), order_id).1,
        None => None,
    }
}

/// The update a cancellation reports: the order's id, user, side, type and
/// price, what was left of it, status cancelled, nothing filled.
pub open spec fn cancel_update(o: Order, symbol_id: u32) -> crate::ledger::OrderUpdate {
    crate::ledger::OrderUpdate {
        order_id: o.order_id,
        client_order_id: None,
        user_id: o.user_id,
        symbol_id,
        side: side_code(o.side),
        order_type: order_type_code(o.order_type),
        status: OrderStatus::Cancelled,
        price: o.price,
        qty: o.quantity,
        filled_qty: 0,
        avg_fill_price: None,
        rejection_reason: None,
        timestamp: o.timestamp,
        match_id: None,
    }
}

impl MatchingEngine {
    /// Cancels a resting order: refused for a symbol without a book and for
    /// an order that is not resting in it. The order leaves the book; the
    /// funds it held are released by an `Unlock` command (quote funds, price
    /// times what is left, for a buy; base funds for a sell), followed by
    /// the order's update with status cancelled. A symbol
    /// whose assets are unknown is refused after the order has left the
    /// book. An accepted cancellation is folded into the state hash.
    pub fn cancel_order(&mut self, symbol_id: u32, order_id: u64) -> (res: Result<Vec<LedgerCommand>, OrderError>)
        requires
            old(self).wf(),
            cancelled_order(old(self).order_books@, symbol_id, order_id) matches Some(o)
                ==> (o.side == Side::Buy ==> o.price * o.quantity <= u64::MAX),
        ensures
            final(self).wf(),
            final(self).asset_map == old(self).asset_map,
            final(self).trade_id_gen == old(self).trade_id_gen,
            final(self).output_seq == old(self).output_seq,
            final(self).last_output_hash == old(self).last_output_hash,
            book_of(old(self).order_books@, symbol_id) is None ==> {
                &&& res == Err::<Vec<LedgerCommand>, OrderError>(OrderError::InvalidSymbol { symbol_id })
                &&& final(self).order_books@ == old(self).order_books@
                &&& final(self).state_hash == old(self).state_hash
            },
            book_of(old(self).order_books@, symbol_id) matches Some(b) ==> {
                &&& book_of(final(self).order_books@, symbol_id) matches Some(nb)
                    && nb.state() == remove_order_result(b.state(), order_id).0 && nb.symbol_id == b.symbol_id
                &&& final(self).order_books@.len() == old(self).order_books@.len()
                &&& forall|j: int| 0 <= j < old(self).order_books@.len() && j != symbol_id as int
                    ==> #[trigger] final(self).order_books@[j] == old(self).order_books@[j]
                &&& match remove_order_result(b.state(), order_id).1 {
                    None => res == Err::<Vec<LedgerCommand>, OrderError>(OrderError::OrderNotFound { order_id })
                        && final(self).state_hash == old(self).state_hash,
                    Some(o) => if !old(self).asset_map@.contains_key(symbol_id) {
                        &&& res == Err::<Vec<LedgerCommand>, OrderError>(OrderError::AssetMapNotFound { symbol_id })
                        &&& final(self).state_hash == old(self).state_hash
                    } else {
                        let (base, quote) = old(self).asset_map@[symbol_id];
                        let (asset, amount) = lock_of(o.side, o.price, o.quantity, base, quote);
                        &&& res matches Ok(cmds) && cmds@.len() == 2
                            && cmds@[0] == (LedgerCommand::Unlock { user_id: o.user_id, asset, amount: amount as u64 })
                            && cmds@[1] == LedgerCommand::OrderUpdate(cancel_update(o, symbol_id))
                        &&& final(self).state_hash == xxh3_64_seeded_of(cancel_hash_bytes(symbol_id, order_id),
                            old(self).state_hash)
                    },
                }
            },
    {
        let idx = symbol_id as usize;
        if idx >= self.order_books.len() {
            return Err(OrderError::InvalidSymbol { symbol_id });
        }
        let mut slot: Option<OrderBook> = None;
        self.order_books.set_and_swap(idx, &mut slot);
        let mut book = match slot {
            Some(b) => b,
            None => {
                let mut back: Option<OrderBook> = None;
                self.order_books.set_and_swap(idx, &mut back);
                assert(self.order_books@ =~= old(self).order_books@);
                return Err(OrderError::InvalidSymbol { symbol_id });
            },
        };
        proof { assert(old(self).order_books@[idx as int] is Some); }
        let removed = book.remove_order(order_id);
        let mut back = Some(book);
        self.order_books.set_and_swap(idx, &mut back);
        proof {
            assert forall|i: int| 0 <= i < self.order_books@.len() && (#[trigger] self.order_books@[i]) is Some
                implies self.order_books@[i]->0.wf() by {
                if i != idx as int {
                    assert(old(self).order_books@[i] is Some);
                }
            }
        }
        let o = match removed {
            Err(e) => return Err(e),
            Ok(o) => o,
        };
        let (base, quote) = match self.asset_map.get(&symbol_id) {
            Some(pair) => *pair,
            None => return Err(OrderError::AssetMapNotFound { symbol_id }),
        };
        let (asset, amount) = match o.side {
            Side::Buy => (quote, o.price * o.quantity),
            Side::Sell => (base, o.quantity),
        };
        let mut cmds: Vec<LedgerCommand> = Vec::new();
        cmds.push(LedgerCommand::Unlock { user_id: o.user_id, asset, amount });
        cmds.push(LedgerCommand::OrderUpdate(crate::ledger::OrderUpdate {
            order_id: o.order_id,
            client_order_id: None,
            user_id: o.user_id,
            symbol_id,
            side: o.side.as_u8(),
            order_type: o.order_type.as_u8(),
            status: OrderStatus::Cancelled,
            price: o.price,
            qty: o.quantity,
            filled_qty: 0,
            avg_fill_price: None,
            rejection_reason: None,
            timestamp: o.timestamp,
            match_id: None,
        }));
        let data = cancel_hash_data(symbol_id, order_id);
        self.update_hash(data.as_slice());
        Ok(cmds)
    }
}

/// The fills placing an order makes: those of its symbol's book, none
/// without a book or for an id still active in it.
pub open spec fn placement_fills(books: Seq<Option<OrderBook>>, o: Order) -> Seq<Trade> {
    match book_of(books, o.symbol_id) {
        Some(b) => if b.state().active.contains(o.order_id) { Seq::empty() } else { add_order_result(b.state(), o).1 },
        None => Seq::empty(),
    }
}

/// Whether placing an order keeps its book's match counter within `u64`.
pub open spec fn placement_fits(books: Seq<Option<OrderBook>>, o: Order) -> bool {
    match book_of(books, o.symbol_id) {
        Some(b) => b.state().active.contains(o.order_id) || b.match_seq + fill_count(b.state(), o) <= u64::MAX,
        None => true,
    }
}

/// How many fills placing an order makes.
pub open spec fn placement_fill_count(books: Seq<Option<OrderBook>>, o: Order) -> nat {
    placement_fills(books, o).len()
}

/// The input recorded for a placement.
pub open spec fn placement_input_is(d: InputData, o: Order, cid: Seq<char>) -> bool {
    d matches InputData::PlaceOrder(p) && {
        &&& p.order_id == o.order_id
        &&& p.user_id == o.user_id
        &&& p.symbol_id == o.symbol_id
        &&& p.side == side_code(o.side)
        &&& p.order_type == order_type_code(o.order_type)
        &&& p.price == o.price
        &&& p.quantity == o.quantity
        &&& p.cid@ == cid
        &&& p.created_at == o.timestamp
    }
}

/// What every output of a placement carries: the chain header, the input
/// with the checksum of its serialized bytes, a valid hash, no lifecycle
/// events, and the symbol of its first trade.
pub open spec fn placement_output_header(out: EngineOutput, seq: u64, prev_hash: u64, input_seq: u64,
    serialized: Seq<u8>, o: Order, cid: Seq<char>) -> bool
{
    &&& out.output_seq == seq
    &&& out.prev_hash == prev_hash
    &&& out.input.input_seq == input_seq
    &&& out.input.crc == crc32_of(serialized)
    &&& placement_input_is(out.input.data, o, cid)
    &&& hash_is_valid(out)
    &&& out.order_placements@.len() == 0
    &&& out.order_completions@.len() == 0
    &&& out.symbol_id == primary_symbol(out.trades@)
}

/// Status code of a placed order: 1 resting untouched, 2 partly filled, 3 filled.
pub open spec fn placement_status(filled: nat, quantity: u64) -> u8 {
    if filled == 0 { 1 } else if filled == quantity { 3 } else { 2 }
}

/// The status update of a placed order after its fills.
pub open spec fn placement_update(o: Order, ts: Seq<Trade>) -> OrderUpdate {
    let filled = fills_total(ts);
    OrderUpdate {
        order_id: o.order_id,
        user_id: o.user_id,
        status: placement_status(filled, o.quantity),
        filled_qty: filled as u64,
        remaining_qty: (o.quantity - filled) as u64,
        avg_price: if filled > 0 { (fills_cost(ts) / filled) as u64 } else { 0 },
        updated_at: o.timestamp,
    }
}

/// The update of an order refused for want of a book.
pub open spec fn rejection_update(o: Order) -> OrderUpdate {
    OrderUpdate {
        order_id: o.order_id,
        user_id: o.user_id,
        status: 5,
        filled_qty: 0,
        remaining_qty: o.quantity,
        avg_price: 0,
        updated_at: o.timestamp,
    }
}

proof fn lemma_fills_total_same(a: Seq<Trade>, b: Seq<Trade>)
    requires
        a.len() == b.len(),
        forall|i: int| 0 <= i < a.len() ==> same_fill(#[trigger] a[i], b[i]),
    ensures
        fills_total(a) == fills_total(b),
    decreases a.len(),
{
    if a.len() > 0 {
        lemma_fills_total_same(a.drop_last(), b.drop_last());
    }
}

proof fn lemma_fills_total_prefix(s: Seq<Trade>, k: int)
    requires
        0 <= k <= s.len(),
    ensures
        fills_total(s.take(k)) <= fills_total(s),
    decreases s.len(),
{
    if k < s.len() {
        assert(s.drop_last().take(k) =~= s.take(k));
        lemma_fills_total_prefix(s.drop_last(), k);
    } else {
        assert(s.take(k) =~= s);
    }
}

proof fn lemma_fills_cost_bounded(s: Seq<Trade>)
    requires
        forall|i: int| 0 <= i < s.len() ==> (#[trigger] s[i]).price * s[i].quantity <= max_delta(),
    ensures
        fills_cost(s) <= s.len() * max_delta(),
    decreases s.len(),
{
    if s.len() > 0 {
        lemma_fills_cost_bounded(s.drop_last());
        assert(s.last() == s[s.len() - 1]);
    }
}

/// Version counter of a pair, and one or two more updates of it.
fn get_and_add_version(versions: &mut HashMap<u128, u64>, user_id: u64, asset_id: u32, inc: u64) -> (res: u64)
    requires
        version_of(old(versions)@, user_id, asset_id) + inc <= u64::MAX,
    ensures
        res == version_of(old(versions)@, user_id, asset_id),
        final(versions)@ == bumped(old(versions)@, user_id, asset_id, inc),
{
    let key = tb_account_id(user_id, asset_id);
    assert(key == pair_key(user_id, asset_id));
    let v: u64 = match versions.get(&key) {
        Some(v) => *v,
        None => 0,
    };
    versions.insert(key, v + inc);
    v
}

/// Records one fill: its trade, and the debit, refund and credit events of
/// buyer and seller, numbered by the version counters.
fn record_fill(
    builder: &mut EngineOutputBuilder,
    versions: &mut HashMap<u128, u64>,
    t: Trade,
    side: Side,
    user_id: u64,
    price: u64,
    symbol_id: u32,
    base: u32,
    quote: u32,
    Ghost(bound): Ghost<int>,
)
    requires
        t.price * t.quantity <= max_delta(),
        t.quantity <= max_delta(),
        side == Side::Buy ==> t.price <= price && price * t.quantity <= max_delta(),
        0 <= bound <= u64::MAX - 8,
        forall|k: u128| #[trigger] old(versions)@.contains_key(k) ==> old(versions)@[k] <= bound,
    ensures
        final(builder).pending_trades() == old(builder).pending_trades().push(
            trade_output_of(t, symbol_id, base, quote, refund_of(t, side, user_id, price))),
        final(builder).pending_events().len() == old(builder).pending_events().len() + 4,
        forall|i: int| 0 <= i < old(builder).pending_events().len()
            ==> #[trigger] final(builder).pending_events()[i] == old(builder).pending_events()[i],
        forall|j: int| 0 <= j < 4 ==> event_is(
            #[trigger] final(builder).pending_events()[old(builder).pending_events().len() + j],
            fill_events(t, base, quote, refund_of(t, side, user_id, price), old(versions)@)[j]),
        final(versions)@ == counters_after_fill(t, base, quote, refund_of(t, side, user_id, price), old(versions)@),
        forall|k: u128| #[trigger] final(versions)@.contains_key(k) ==> final(versions)@[k] <= bound + 5,
        final(builder).seq() == old(builder).seq(),
        final(builder).prev() == old(builder).prev(),
        final(builder).pending_input() == old(builder).pending_input(),
        final(builder).pending_update() == old(builder).pending_update(),
        final(builder).pending_placements() == old(builder).pending_placements(),
        final(builder).pending_completions() == old(builder).pending_completions(),
{
    let refund: u64 = if side == Side::Buy && t.buy_user_id == user_id && price > t.price {
        proof { lemma_mul_le(t.quantity as int, (price - t.price) as int, price as int); }
        (price - t.price) * t.quantity
    } else {
        0
    };
    assert(refund == refund_of(t, side, user_id, price));
    let inc: u64 = if refund > 0 { 2 } else { 1 };
    let ghost m0 = versions@;
    let bq = get_and_add_version(versions, t.buy_user_id, quote, inc);
    let ghost m1 = versions@;
    assert forall|k: u128| #[trigger] m1.contains_key(k) implies m1[k] <= bound + 2 by {
        if k != pair_key(t.buy_user_id, quote) { assert(m0.contains_key(k)); }
    }
    let bb = get_and_add_version(versions, t.buy_user_id, base, 1);
    let ghost m2 = versions@;
    assert forall|k: u128| #[trigger] m2.contains_key(k) implies m2[k] <= bound + 3 by {
        if k != pair_key(t.buy_user_id, base) { assert(m1.contains_key(k)); }
    }
    let sb = get_and_add_version(versions, t.sell_user_id, base, 1);
    let ghost m3 = versions@;
    assert forall|k: u128| #[trigger] m3.contains_key(k) implies m3[k] <= bound + 4 by {
        if k != pair_key(t.sell_user_id, base) { assert(m2.contains_key(k)); }
    }
    let sq = get_and_add_version(versions, t.sell_user_id, quote, 1);
    let ghost m4 = versions@;
    assert forall|k: u128| #[trigger] m4.contains_key(k) implies m4[k] <= bound + 5 by {
        if k != pair_key(t.sell_user_id, quote) { assert(m3.contains_key(k)); }
    }
    let cost: u64 = t.price * t.quantity;
    builder.add_trade(TradeOutput {
        trade_id: t.trade_id,
        match_seq: t.match_seq,
        symbol_id,
        buy_order_id: t.buy_order_id,
        sell_order_id: t.sell_order_id,
        buyer_user_id: t.buy_user_id,
        seller_user_id: t.sell_user_id,
        price: t.price,
        quantity: t.quantity,
        base_asset_id: base,
        quote_asset_id: quote,
        buyer_refund: refund,
        seller_refund: 0,
        settled_at: 0,
    });
    let ghost e0 = builder.pending_events();
    if refund > 0 {
        assert(cost + refund == price * t.quantity) by (nonlinear_arith)
            requires cost == t.price * t.quantity, refund == (price - t.price) * t.quantity, t.price <= price;
        builder.add_balance_event(BalanceEvent {
            user_id: t.buy_user_id,
            asset_id: quote,
            seq: bq + 1,
            delta_avail: refund as i64,
            delta_frozen: -((cost as i64) + (refund as i64)),
            avail: None,
            frozen: None,
            event_type: owned("trade_refund"),
            ref_id: t.trade_id,
        });
    } else {
        builder.add_balance_event(BalanceEvent {
            user_id: t.buy_user_id,
            asset_id: quote,
            seq: bq + 1,
            delta_avail: 0,
            delta_frozen: -(cost as i64),
            avail: None,
            frozen: None,
            event_type: owned("trade_debit"),
            ref_id: t.trade_id,
        });
    }
    builder.add_balance_event(BalanceEvent {
        user_id: t.buy_user_id,
        asset_id: base,
        seq: bb + 1,
        delta_avail: t.quantity as i64,
        delta_frozen: 0,
        avail: None,
        frozen: None,
        event_type: owned("trade_credit"),
        ref_id: t.trade_id,
    });
    builder.add_balance_event(BalanceEvent {
        user_id: t.sell_user_id,
        asset_id: base,
        seq: sb + 1,
        delta_avail: 0,
        delta_frozen: -(t.quantity as i64),
        avail: None,
        frozen: None,
        event_type: owned("trade_debit"),
        ref_id: t.trade_id,
    });
    builder.add_balance_event(BalanceEvent {
        user_id: t.sell_user_id,
        asset_id: quote,
        seq: sq + 1,
        delta_avail: cost as i64,
        delta_frozen: 0,
        avail: None,
        frozen: None,
        event_type: owned("trade_credit"),
        ref_id: t.trade_id,
    });
}


impl MatchingEngine {
    /// Takes a new limit order and builds the output that records it: the
    /// order locks its funds (always granted: balances are kept elsewhere),
    /// matches in its symbol's book, and every fill adds a trade and the
    /// buyer's and seller's balance events. The output continues the chain
    /// from the last one. An unknown symbol is refused; a symbol without a
    /// book, or an id still active in it, leaves the book alone. Both the
    /// output number and the chain move on for every order taken.
    #[verifier::rlimit(40)]
    #[verifier::spinoff_prover]
    pub fn add_order_and_build_output(
        &mut self,
        input_seq: u64,
        symbol_id: u32,
        order_id: u64,
        side: Side,
        order_type: OrderType,
        price: u64,
        quantity: u64,
        user_id: u64,
        timestamp: u64,
        client_order_id: String,
        serialized_input: &[u8],
    ) -> (res: Result<(u64, EngineOutput), OrderError>)
        requires
            old(self).wf(),
            old(self).output_seq < u64::MAX,
            5 * placement_fill_count(old(self).order_books@, order_of(order_id, user_id, symbol_id, side,
                order_type, price, quantity, timestamp)) + 8 <= u64::MAX,
            quantity <= max_delta(),
            side == Side::Buy ==> price * quantity <= max_delta(),
            placement_fits(old(self).order_books@, order_of(order_id, user_id, symbol_id, side, order_type, price,
                quantity, timestamp)),
            book_of(old(self).order_books@, symbol_id) matches Some(b) ==> bids_bounded(b.state()),
        ensures
            final(self).wf(),
            final(self).asset_map == old(self).asset_map,
            final(self).state_hash == old(self).state_hash,
            !old(self).asset_map@.contains_key(symbol_id) ==> {
                &&& res == Err::<(u64, EngineOutput), OrderError>(OrderError::InvalidSymbol { symbol_id })
                &&& *final(self) == *old(self)
            },
            old(self).asset_map@.contains_key(symbol_id) ==> ({
                let order = order_of(order_id, user_id, symbol_id, side, order_type, price, quantity, timestamp);
                let base = old(self).asset_map@[symbol_id].0;
                let quote = old(self).asset_map@[symbol_id].1;
                let lock = lock_of(side, price, quantity, base, quote);
                let lev = lock_event(user_id, order_id, lock.0, lock.1);
                let seq = (old(self).output_seq + 1) as u64;
                &&& final(self).output_seq == seq
                &&& final(self).order_books@.len() == old(self).order_books@.len()
                &&& forall|j: int| 0 <= j < old(self).order_books@.len() && j != symbol_id as int
                    ==> #[trigger] final(self).order_books@[j] == old(self).order_books@[j]
                &&& match book_of(old(self).order_books@, symbol_id) {
                    None => {
                        &&& res matches Ok((oid, out)) && oid == order_id
                            && placement_output_header(out, seq, old(self).last_output_hash, input_seq,
                                serialized_input@, order, client_order_id@)
                            && out.order_update == Some(rejection_update(order))
                            && out.trades@.len() == 0
                            && events_are(out.balance_events@, seq![lev])
                            && final(self).last_output_hash == out.hash
                        &&& final(self).order_books@ == old(self).order_books@
                        &&& final(self).trade_id_gen == old(self).trade_id_gen
                    },
                    Some(b) => if b.state().active.contains(order_id) {
                        &&& res matches Err(OrderError::Other(msg))
                            && msg@ == "Duplicate order ID: "@ + nat_text(order_id as nat)
                        &&& final(self).last_output_hash == old(self).last_output_hash
                        &&& book_of(final(self).order_books@, symbol_id) matches Some(nb)
                            && nb.state() == b.state() && nb.symbol_id == b.symbol_id
                        &&& final(self).trade_id_gen == old(self).trade_id_gen
                    } else {
                        let fills = add_order_result(b.state(), order).1;
                        &&& res matches Ok((oid, out)) && oid == order_id && ({
                            let ts = with_ids(fills, out.trades@);
                            let fx = fills_effects(ts, side, user_id, price, symbol_id, base, quote);
                            &&& placement_output_header(out, seq, old(self).last_output_hash, input_seq,
                                serialized_input@, order, client_order_id@)
                            &&& out.trades@ == fx.0
                            &&& events_are(out.balance_events@, seq![lev] + fx.1)
                            &&& out.order_update == Some(placement_update(order, ts))
                            &&& final(self).last_output_hash == out.hash
                            &&& drawn_in_order(trade_ids(ts), old(self).trade_id_gen.last(), timestamp)
                            &&& final(self).trade_id_gen.last()
                                == last_drawn(trade_ids(ts), old(self).trade_id_gen.last())
                        })
                        &&& book_of(final(self).order_books@, symbol_id) matches Some(nb)
                            && nb.state() == add_order_result(b.state(), order).0 && nb.symbol_id == b.symbol_id
                            && bids_bounded(nb.state())
                    },
                }
            }),
    {
        if !self.asset_map.contains_key(&symbol_id) {
            return Err(OrderError::InvalidSymbol { symbol_id });
        }
        let order = Order { order_id, user_id, symbol_id, side, order_type, price, quantity, timestamp };
        let (base, quote): (u32, u32) = match self.asset_map.get(&symbol_id) {
            Some(p) => *p,
            None => {
                proof { assert(false); }
                return Err(OrderError::InvalidSymbol { symbol_id });
            },
        };
        self.output_seq = self.output_seq + 1;
        let mut builder = EngineOutputBuilder::new(self.output_seq, self.last_output_hash);
        builder.set_input(InputBundle::new(
            input_seq,
            InputData::PlaceOrder(PlaceOrderInput {
                order_id,
                user_id,
                symbol_id,
                side: side.as_u8(),
                order_type: order_type.as_u8(),
                price,
                quantity,
                cid: client_order_id,
                created_at: timestamp,
            }),
            serialized_input,
        ));
        let (lock_asset, lock_amount): (u32, u64) = match side {
            Side::Buy => (quote, price * quantity),
            Side::Sell => (base, quantity),
        };
        builder.add_balance_event(BalanceEvent {
            user_id,
            asset_id: lock_asset,
            seq: 1,
            delta_avail: -(lock_amount as i64),
            delta_frozen: lock_amount as i64,
            avail: Some(u64::MAX - lock_amount),
            frozen: Some(lock_amount),
            event_type: owned("lock"),
            ref_id: order_id,
        });
        let ghost lev = lock_event(user_id, order_id, lock_of(side, price, quantity, base, quote).0,
            lock_of(side, price, quantity, base, quote).1);
        assert(events_are(builder.pending_events(), seq![lev]));

        let idx = symbol_id as usize;
        let has_book = idx < self.order_books.len() && self.order_books[idx].is_some();
        if !has_book {
            builder.set_order_update(OrderUpdate {
                order_id,
                user_id,
                status: 5,
                filled_qty: 0,
                remaining_qty: quantity,
                avg_price: 0,
                updated_at: timestamp,
            });
            let output = builder.build_unchecked();
            self.last_output_hash = output.hash;
            return Ok((order_id, output));
        }

        let mut slot: Option<OrderBook> = None;
        self.order_books.set_and_swap(idx, &mut slot);
        let mut book = slot.unwrap();
        let ghost b0 = book;
        proof {
            assert(old(self).order_books@[idx as int] is Some);
            if !b0.state().active.contains(order_id) {
                lemma_add_order_fills(b0.state(), order);
                lemma_order_fills_bounded(b0.state(), order);
            }
        }
        let result = book.add_order(order, &mut self.trade_id_gen, timestamp);
        let ghost b1 = book;
        let mut back = Some(book);
        self.order_books.set_and_swap(idx, &mut back);
        proof {
            assert forall|i: int| 0 <= i < self.order_books@.len() && (#[trigger] self.order_books@[i]) is Some
                implies self.order_books@[i]->0.wf() by {
                if i != idx as int {
                    assert(old(self).order_books@[i] is Some);
                }
            }
        }
        let trades = match result {
            Err(e) => return Err(OrderError::Other(e)),
            Ok(t) => t,
        };
        let ghost fills = add_order_result(b0.state(), order).1;
        let ghost tr = trades@;
        proof {
            lemma_fills_total_same(tr, fills);
        }

        proof {
            assert forall|j: int| 0 <= j < tr.len() implies {
                &&& (#[trigger] tr[j]).price * tr[j].quantity <= max_delta()
                &&& tr[j].quantity <= quantity
                &&& side == Side::Buy ==> tr[j].price <= price && price * tr[j].quantity <= max_delta()
            } by {
                assert(same_fill(tr[j], fills[j]));
            }
        }
        let (total_filled, total_cost) = record_fills(&mut builder, &trades, side, user_id, price, quantity,
            symbol_id, base, quote, Ghost(lev));
        let remaining: u64 = quantity - total_filled;
        let avg_price: u64 = if total_filled > 0 { (total_cost / (total_filled as u128)) as u64 } else { 0 };
        let status: u8 = if total_filled == 0 { 1 } else if remaining == 0 { 3 } else { 2 };
        builder.set_order_update(OrderUpdate {
            order_id,
            user_id,
            status,
            filled_qty: total_filled,
            remaining_qty: remaining,
            avg_price,
            updated_at: timestamp,
        });
        let output = builder.build_unchecked();
        self.last_output_hash = output.hash;
        proof {
            let ts = with_ids(fills, output.trades@);
            lemma_fills_effects_len(tr, side, user_id, price, symbol_id, base, quote);
            assert forall|j: int| 0 <= j < tr.len() implies #[trigger] ts[j] == tr[j] by {
                assert(same_fill(tr[j], fills[j]));
                lemma_fills_effects_ids(tr, side, user_id, price, symbol_id, base, quote, j);
            }
            assert(ts =~= tr);
        }
        Ok((order_id, output))
    }
}

/// One record per fill.
proof fn lemma_fills_effects_len(ts: Seq<Trade>, side: Side, user_id: u64, price: u64, symbol_id: u32,
    base: u32, quote: u32)
    ensures
        fills_effects(ts, side, user_id, price, symbol_id, base, quote).0.len() == ts.len(),
    decreases ts.len(),
{
    if ts.len() > 0 {
        lemma_fills_effects_len(ts.drop_last(), side, user_id, price, symbol_id, base, quote);
    }
}

/// The record of each fill carries that fill's trade id.
proof fn lemma_fills_effects_ids(ts: Seq<Trade>, side: Side, user_id: u64, price: u64, symbol_id: u32,
    base: u32, quote: u32, j: int)
    requires
        0 <= j < ts.len(),
    ensures
        fills_effects(ts, side, user_id, price, symbol_id, base, quote).0[j].trade_id == ts[j].trade_id,
    decreases ts.len(),
{
    lemma_fills_effects_len(ts.drop_last(), side, user_id, price, symbol_id, base, quote);
    if j < ts.len() - 1 {
        lemma_fills_effects_ids(ts.drop_last(), side, user_id, price, symbol_id, base, quote, j);
        assert(ts.drop_last()[j] == ts[j]);
    }
}

/// Records a taker's fills in order: a trade and four balance events each,
/// numbered by version counters that start empty. Gives the units filled
/// and their total quote value.
fn record_fills(
    builder: &mut EngineOutputBuilder,
    trades: &Vec<Trade>,
    side: Side,
    user_id: u64,
    price: u64,
    quantity: u64,
    symbol_id: u32,
    base: u32,
    quote: u32,
    Ghost(lev): Ghost<EventSpec>,
) -> (res: (u64, u128))
    requires
        events_are(old(builder).pending_events(), seq![lev]),
        old(builder).pending_trades().len() == 0,
        5 * trades@.len() + 8 <= u64::MAX,
        quantity <= max_delta(),
        fills_total(trades@) <= quantity,
        forall|j: int| 0 <= j < trades@.len() ==> {
            &&& (#[trigger] trades@[j]).price * trades@[j].quantity <= max_delta()
            &&& trades@[j].quantity <= quantity
            &&& side == Side::Buy ==> trades@[j].price <= price && price * trades@[j].quantity <= max_delta()
        },
    ensures
        res.0 == fills_total(trades@),
        res.1 == fills_cost(trades@),
        final(builder).pending_trades() == fills_effects(trades@, side, user_id, price, symbol_id, base, quote).0,
        events_are(final(builder).pending_events(),
            seq![lev] + fills_effects(trades@, side, user_id, price, symbol_id, base, quote).1),
        final(builder).seq() == old(builder).seq(),
        final(builder).prev() == old(builder).prev(),
        final(builder).pending_input() == old(builder).pending_input(),
        final(builder).pending_update() == old(builder).pending_update(),
        final(builder).pending_placements() == old(builder).pending_placements(),
        final(builder).pending_completions() == old(builder).pending_completions(),
{
    let ghost tr = trades@;
    proof {
        lemma_fills_cost_bounded(tr);
        assert(tr.take(0) =~= Seq::<Trade>::empty());
        assert(seq![lev] + Seq::<EventSpec>::empty() =~= seq![lev]);
    }
    let n = trades.len();
    let mut total_filled: u64 = 0;
    let mut total_cost: u128 = 0;
    let mut versions: HashMap<u128, u64> = HashMap::new();
    let mut i: usize = 0;
    while i < n
        invariant
            n == tr.len(),
            tr == trades@,
            i <= n,
            5 * n + 8 <= u64::MAX,
            quantity <= max_delta(),
            forall|j: int| 0 <= j < tr.len() ==> {
                &&& (#[trigger] tr[j]).price * tr[j].quantity <= max_delta()
                &&& tr[j].quantity <= quantity
                &&& side == Side::Buy ==> tr[j].price <= price && price * tr[j].quantity <= max_delta()
            },
            fills_total(tr) <= quantity,
            builder.seq() == old(builder).seq(),
            builder.prev() == old(builder).prev(),
            builder.pending_input() == old(builder).pending_input(),
            builder.pending_update() == old(builder).pending_update(),
            builder.pending_placements() == old(builder).pending_placements(),
            builder.pending_completions() == old(builder).pending_completions(),
            builder.pending_trades() == fills_effects(tr.take(i as int), side, user_id, price, symbol_id, base, quote).0,
            events_are(builder.pending_events(),
                seq![lev] + fills_effects(tr.take(i as int), side, user_id, price, symbol_id, base, quote).1),
            versions@ == fills_effects(tr.take(i as int), side, user_id, price, symbol_id, base, quote).2,
            forall|k: u128| #[trigger] versions@.contains_key(k) ==> versions@[k] <= 5 * i,
            total_filled == fills_total(tr.take(i as int)),
            total_cost == fills_cost(tr.take(i as int)),
        decreases n - i,
    {
        let t = trades[i];
        proof {
            assert(tr.take(i + 1).drop_last() =~= tr.take(i as int));
            assert(tr.take(i + 1).last() == t);
            lemma_fills_total_prefix(tr, i + 1);
            assert forall|j: int| 0 <= j < tr.take(i + 1).len() implies
                (#[trigger] tr.take(i + 1)[j]).price * tr.take(i + 1)[j].quantity <= max_delta() by {
                assert(tr.take(i + 1)[j] == tr[j]);
            }
            lemma_fills_cost_bounded(tr.take(i + 1));
        }
        total_filled = total_filled + t.quantity;
        total_cost = total_cost + (t.price as u128) * (t.quantity as u128);
        let ghost ev0 = builder.pending_events();
        record_fill(builder, &mut versions, t, side, user_id, price, symbol_id, base, quote, Ghost(5 * i as int));
        proof {
            let prev = fills_effects(tr.take(i as int), side, user_id, price, symbol_id, base, quote);
            let refund = refund_of(t, side, user_id, price);
            let specs = seq![lev] + prev.1;
            let new_specs = seq![lev] + (prev.1 + fill_events(t, base, quote, refund, prev.2));
            assert(new_specs =~= specs + fill_events(t, base, quote, refund, prev.2));
            assert forall|j: int| 0 <= j < builder.pending_events().len()
                implies event_is(#[trigger] builder.pending_events()[j], new_specs[j]) by {
                if j < ev0.len() {
                    assert(builder.pending_events()[j] == ev0[j]);
                } else {
                    assert(builder.pending_events()[ev0.len() + (j - ev0.len())] == builder.pending_events()[j]);
                }
            }
        }
        i = i + 1;
    }
    proof {
        assert(tr.take(n as int) =~= tr);
    }
    (total_filled, total_cost)
}


/// The net change a balance event makes to a user's funds.
pub open spec fn net_change(e: EventSpec) -> int {
    e.delta_avail + e.delta_frozen
}

/// A fill moves funds and creates none: in each asset, what the events of
/// one side gain the events of the other lose (the buyer's refund only
/// moves funds between its own frozen and available quote).
pub proof fn lemma_fill_events_conserve(t: Trade, base: u32, quote: u32, refund: nat, m: Map<u128, u64>)
    requires
        t.price * t.quantity + refund <= max_delta(),
        t.quantity <= max_delta(),
    ensures
        ({
            let es = fill_events(t, base, quote, refund, m);
            &&& es[0].asset_id == quote && es[3].asset_id == quote
            &&& es[1].asset_id == base && es[2].asset_id == base
            &&& net_change(es[0]) + net_change(es[3]) == 0
            &&& net_change(es[1]) + net_change(es[2]) == 0
        }),
{
    assert(0 <= t.price * t.quantity) by (nonlinear_arith);
}

/// The units traded in a sequence of trade records.
pub open spec fn outputs_total(s: Seq<TradeOutput>) -> nat
    decreases s.len(),
{
    if s.len() == 0 { 0 } else { outputs_total(s.drop_last()) + s.last().quantity as nat }
}

proof fn lemma_outputs_total_of_fills(ts: Seq<Trade>, side: Side, user_id: u64, price: u64, symbol_id: u32,
    base: u32, quote: u32)
    ensures
        outputs_total(fills_effects(ts, side, user_id, price, symbol_id, base, quote).0) == fills_total(ts),
    decreases ts.len(),
{
    if ts.len() > 0 {
        lemma_outputs_total_of_fills(ts.drop_last(), side, user_id, price, symbol_id, base, quote);
        let r = fills_effects(ts.drop_last(), side, user_id, price, symbol_id, base, quote).0;
        let t = ts.last();
        let out = r.push(trade_output_of(t, symbol_id, base, quote, refund_of(t, side, user_id, price)));
        assert(out.drop_last() =~= r);
    }
}

/// The order update of a placement accounts for its fills: the filled
/// quantity is the sum of the recorded trades, filled and remaining make
/// up the order's quantity, and the status is new (1) exactly when nothing
/// filled, filled (3) exactly when nothing remains, partly filled (2)
/// otherwise.
pub proof fn lemma_placement_accounts_fills(st: BookState, order: Order, outs: Seq<TradeOutput>,
    base: u32, quote: u32)
    requires
        levels_wf(st.bids),
        levels_wf(st.asks),
        0 <= st.match_seq,
        st.match_seq + fill_count(st, order) <= u64::MAX,
        outs.len() == add_order_result(st, order).1.len(),
    ensures
        ({
            let ts = with_ids(add_order_result(st, order).1, outs);
            let u = placement_update(order, ts);
            let recorded = fills_effects(ts, order.side, order.user_id, order.price, order.symbol_id, base, quote).0;
            &&& u.filled_qty == outputs_total(recorded)
            &&& u.filled_qty + u.remaining_qty == order.quantity
            &&& (u.status == 1 <==> u.filled_qty == 0)
            &&& (u.status == 3 <==> u.filled_qty > 0 && u.remaining_qty == 0)
            &&& (u.status == 2 <==> u.filled_qty > 0 && u.remaining_qty > 0)
        }),
{
    let fills = add_order_result(st, order).1;
    let ts = with_ids(fills, outs);
    lemma_add_order_fills(st, order);
    assert forall|i: int| 0 <= i < ts.len() implies same_fill(#[trigger] ts[i], fills[i]) by {}
    lemma_fills_total_same(ts, fills);
    lemma_outputs_total_of_fills(ts, order.side, order.user_id, order.price, order.symbol_id, base, quote);
}

proof fn lemma_fills_cost_between(ts: Seq<Trade>, lo: u64, hi: u64)
    requires
        forall|i: int| 0 <= i < ts.len() ==> lo <= (#[trigger] ts[i]).price <= hi,
    ensures
        lo * fills_total(ts) <= fills_cost(ts) <= hi * fills_total(ts),
    decreases ts.len(),
{
    if ts.len() > 0 {
        let p = ts.drop_last();
        assert forall|i: int| 0 <= i < p.len() implies lo <= (#[trigger] p[i]).price <= hi by {
            assert(p[i] == ts[i]);
        }
        lemma_fills_cost_between(p, lo, hi);
        let t = ts.last();
        assert(lo <= t.price <= hi) by { assert(t == ts[ts.len() - 1]); }
        assert(lo * t.quantity <= t.price * t.quantity <= hi * t.quantity) by (nonlinear_arith)
            requires lo <= t.price <= hi;
        assert(lo * fills_total(ts) == lo * fills_total(p) + lo * t.quantity) by (nonlinear_arith)
            requires fills_total(ts) == fills_total(p) + t.quantity;
        assert(hi * fills_total(ts) == hi * fills_total(p) + hi * t.quantity) by (nonlinear_arith)
            requires fills_total(ts) == fills_total(p) + t.quantity;
        assert(t.price * t.quantity >= 0) by (nonlinear_arith);
        assert(fills_cost(ts) == fills_cost(p) + t.price * t.quantity);
    } else {
        assert(lo * fills_total(ts) == 0 && hi * fills_total(ts) == 0) by (nonlinear_arith)
            requires fills_total(ts) == 0;
    }
}

/// The average price a placement reports is the quote cost of its fills
/// over the quantity filled, rounded down: with `c` the sum of price times
/// quantity over the fills and `f` the sum of their quantities,
/// `avg * f <= c < (avg + 1) * f`. So it lies between the lowest and the
/// highest fill price: any bounds `lo` and `hi` of every fill's price
/// bound it too. Without fills it is zero.
pub proof fn lemma_placement_avg_price(o: Order, ts: Seq<Trade>, lo: u64, hi: u64)
    requires
        fills_cost(ts) / fills_total(ts) <= u64::MAX || fills_total(ts) == 0,
    ensures
        ({
            let u = placement_update(o, ts);
            let f = fills_total(ts);
            let c = fills_cost(ts);
            &&& f == 0 ==> u.avg_price == 0
            &&& f > 0 ==> u.avg_price * f <= c < (u.avg_price + 1) * f
            &&& f > 0 && (forall|i: int| 0 <= i < ts.len() ==> lo <= (#[trigger] ts[i]).price <= hi)
                ==> lo <= u.avg_price <= hi
        }),
{
    let u = placement_update(o, ts);
    let f = fills_total(ts);
    let c = fills_cost(ts);
    if f > 0 {
        let a = c / f;
        assert(a * f <= c < (a + 1) * f) by (nonlinear_arith)
            requires f > 0, a == c / f;
        assert(u.avg_price == a);
        if forall|i: int| 0 <= i < ts.len() ==> lo <= (#[trigger] ts[i]).price <= hi {
            lemma_fills_cost_between(ts, lo, hi);
            assert(lo <= a) by (nonlinear_arith)
                requires lo * f <= c, a * f <= c < (a + 1) * f, f > 0;
            assert(a <= hi) by (nonlinear_arith)
                requires c <= hi * f, a * f <= c, f > 0;
        }
    }
}

// ------------------------------------------------------------------
// Batches
// ------------------------------------------------------------------

/// The state of each slot of the books, as the batch rules read them.
pub open spec fn books_model(books: Seq<Option<OrderBook>>) -> Seq<Option<BookState>> {
    books.map_values(|b: Option<OrderBook>| match b {
        Some(b) => Some(b.state()),
        None => None,
    })
}

/// The order a batch request describes: (symbol, order id, side, type,
/// price, quantity, user, time).
pub open spec fn request_order(r: (u32, u64, Side, OrderType, u64, u64, u64, u64)) -> Order {
    order_of(r.1, r.6, r.0, r.2, r.3, r.4, r.5, r.7)
}

/// The settlement record of a fill of order `o`, trading `base` against
/// `quote`: the buyer gets back the price improvement of a buy of its own.
pub open spec fn exec_of(t: Trade, o: Order, base: u32, quote: u32) -> MatchExecData {
    MatchExecData {
        trade_id: t.trade_id,
        buy_order_id: t.buy_order_id,
        sell_order_id: t.sell_order_id,
        buyer_user_id: t.buy_user_id,
        seller_user_id: t.sell_user_id,
        price: t.price,
        quantity: t.quantity,
        base_asset: base,
        quote_asset: quote,
        buyer_refund: refund_of(t, o.side, o.user_id, o.price) as u64,
        seller_refund: 0,
        match_seq: t.match_seq,
    }
}

/// Two settlement records agree on everything but the trade id (which the
/// id generator draws).
pub open spec fn same_exec(a: MatchExecData, b: MatchExecData) -> bool {
    a == MatchExecData { trade_id: a.trade_id, ..b }
}

/// The settlement records of an order's fills.
pub open spec fn fills_execs(fills: Seq<Trade>, o: Order, base: u32, quote: u32) -> Seq<MatchExecData> {
    Seq::new(fills.len(), |i: int| exec_of(fills[i], o, base, quote))
}

/// One request of a batch: the books and output count after it, the
/// refusal text when it is refused, and the settlement records of its
/// fills. A symbol without assets or without a book takes nothing and is
/// not refused; an id still active in the book is refused; otherwise the
/// order matches in the book.
pub open spec fn batch_step(
    assets: Map<u32, (u32, u32)>,
    books: Seq<Option<BookState>>,
    seq: int,
    r: (u32, u64, Side, OrderType, u64, u64, u64, u64),
) -> (Seq<Option<BookState>>, int, Option<Seq<char>>, Seq<MatchExecData>) {
    let sid = r.0 as int;
    if !assets.contains_key(r.0) || sid >= books.len() || books[sid] is None {
        (books, seq, None, Seq::empty())
    } else if books[sid]->0.active.contains(r.1) {
        (books, seq, Some("Duplicate order ID: "@ + nat_text(r.1 as nat)), Seq::empty())
    } else {
        let res = add_order_result(books[sid]->0, request_order(r));
        (books.update(sid, Some(res.0)), seq + res.1.len(), None,
            fills_execs(res.1, request_order(r), assets[r.0].0, assets[r.0].1))
    }
}

/// A batch taken in order: the books and output count after it, each
/// request's refusal text, if any, and the settlement records of all its
/// fills in order.
pub open spec fn batch_fold(
    assets: Map<u32, (u32, u32)>,
    books: Seq<Option<BookState>>,
    seq: int,
    reqs: Seq<(u32, u64, Side, OrderType, u64, u64, u64, u64)>,
) -> (Seq<Option<BookState>>, int, Seq<Option<Seq<char>>>, Seq<MatchExecData>)
    decreases reqs.len(),
{
    if reqs.len() == 0 {
        (books, seq, Seq::empty(), Seq::empty())
    } else {
        let st = batch_step(assets, books, seq, reqs[0]);
        let rest = batch_fold(assets, st.0, st.1, reqs.drop_first());
        (rest.0, rest.1, seq![st.2] + rest.2, st.3 + rest.3)
    }
}

/// Whether every request of a batch, in its turn, keeps the output count,
/// its book's match sequence and a buyer's lock within `u64`.
pub open spec fn batch_fits(
    assets: Map<u32, (u32, u32)>,
    books: Seq<Option<BookState>>,
    seq: int,
    reqs: Seq<(u32, u64, Side, OrderType, u64, u64, u64, u64)>,
) -> bool
    decreases reqs.len(),
{
    if reqs.len() == 0 {
        true
    } else {
        let r = reqs[0];
        let sid = r.0 as int;
        &&& batch_step(assets, books, seq, r).1 <= u64::MAX
        &&& assets.contains_key(r.0) && r.2 == Side::Buy ==> r.4 * r.5 <= u64::MAX
        &&& assets.contains_key(r.0) && sid < books.len() && books[sid] is Some
            && !books[sid]->0.active.contains(r.1)
            ==> books[sid]->0.match_seq + fill_count(books[sid]->0, request_order(r)) <= u64::MAX
        &&& batch_fits(assets, batch_step(assets, books, seq, r).0, batch_step(assets, books, seq, r).1,
            reqs.drop_first())
    }
}

/// Whether a request's result is the one its refusal text calls for.
pub open spec fn batch_result_is(res: Result<u64, OrderError>, order_id: u64, refusal: Option<Seq<char>>) -> bool {
    match refusal {
        None => res == Ok::<u64, OrderError>(order_id),
        Some(m) => res matches Err(OrderError::Other(msg)) && msg@ == m,
    }
}

/// Whether settlement records agree one by one, trade ids aside.
pub open spec fn execs_agree(a: Seq<MatchExecData>, b: Seq<MatchExecData>) -> bool {
    a.len() == b.len() && forall|i: int| 0 <= i < a.len() ==> same_exec(#[trigger] a[i], b[i])
}

/// The settlement record of one fill.
fn exec_record(t: &Trade, o: &Order, base: u32, quote: u32) -> (res: MatchExecData)
    requires
        o.side == Side::Buy ==> o.price * o.quantity <= u64::MAX,
        t.quantity <= o.quantity,
    ensures
        res == exec_of(*t, *o, base, quote),
{
    let refund: u64 = if o.side == Side::Buy && t.buy_user_id == o.user_id && o.price > t.price {
        proof {
            assert((o.price - t.price) * t.quantity <= o.price * o.quantity) by (nonlinear_arith)
                requires
                    t.price < o.price,
                    t.quantity <= o.quantity;
        }
        (o.price - t.price) * t.quantity
    } else {
        0
    };
    MatchExecData {
        trade_id: t.trade_id,
        buy_order_id: t.buy_order_id,
        sell_order_id: t.sell_order_id,
        buyer_user_id: t.buy_user_id,
        seller_user_id: t.sell_user_id,
        price: t.price,
        quantity: t.quantity,
        base_asset: base,
        quote_asset: quote,
        buyer_refund: refund,
        seller_refund: 0,
        match_seq: t.match_seq,
    }
}

impl MatchingEngine {
    /// One request of a batch: matched in its book without the input
    /// checks or the state hash of a single placement; the settlement
    /// records of its fills go to the end of `execs`.
    fn process_order_atomic(&mut self, r: (u32, u64, Side, OrderType, u64, u64, u64, u64),
        execs: &mut Vec<MatchExecData>) -> (res: Result<u64, OrderError>)
        requires
            old(self).wf(),
            old(self).asset_map@.contains_key(r.0)
                ==> old(self).output_seq + placement_fill_count(old(self).order_books@, request_order(r)) <= u64::MAX,
            old(self).asset_map@.contains_key(r.0) && r.2 == Side::Buy ==> r.4 * r.5 <= u64::MAX,
            old(self).asset_map@.contains_key(r.0) ==> placement_fits(old(self).order_books@, request_order(r)),
        ensures
            final(self).wf(),
            final(self).asset_map == old(self).asset_map,
            final(self).state_hash == old(self).state_hash,
            final(self).last_output_hash == old(self).last_output_hash,
            final(self).order_books@.len() == old(self).order_books@.len(),
            ({
                let st = batch_step(old(self).asset_map@, books_model(old(self).order_books@),
                    old(self).output_seq as int, r);
                &&& books_model(final(self).order_books@) == st.0
                &&& final(self).output_seq == st.1
                &&& batch_result_is(res, r.1, st.2)
                &&& final(execs)@.len() == old(execs)@.len() + st.3.len()
                &&& final(execs)@.take(old(execs)@.len() as int) == old(execs)@
                &&& execs_agree(final(execs)@.skip(old(execs)@.len() as int), st.3)
            }),
    {
        let (symbol_id, order_id, side, order_type, price, quantity, user_id, timestamp) = r;
        let (base, quote): (u32, u32) = match self.asset_map.get(&symbol_id) {
            Some(p) => *p,
            None => {
                proof {
                    assert(execs@.take(execs@.len() as int) =~= execs@);
                    assert(execs@.skip(execs@.len() as int) =~= Seq::<MatchExecData>::empty());
                }
                return Ok(order_id);
            },
        };
        let order = Order { order_id, user_id, symbol_id, side, order_type, price, quantity, timestamp };
        let ghost m0 = books_model(old(self).order_books@);
        let ghost e0 = execs@;
        let ghost fills = placement_fills(old(self).order_books@, order);
        proof {
            if (symbol_id as int) < old(self).order_books@.len() && old(self).order_books@[symbol_id as int] is Some {
                let b = old(self).order_books@[symbol_id as int]->0;
                if !b.state().active.contains(order_id) {
                    lemma_add_order_fills(b.state(), order);
                    assert forall|k: int| 0 <= k < fills.len() implies (#[trigger] fills[k]).quantity <= quantity by {
                        lemma_fill_le_total(fills, k);
                    }
                }
            }
        }
        let res = match self.process_order_logic(order) {
            Err(e) => Err(e),
            Ok((oid, trades)) => {
                let n = trades.len();
                let mut i: usize = 0;
                while i < n
                    invariant
                        n == trades@.len(),
                        i <= n,
                        trades@.len() == fills.len(),
                        forall|k: int| 0 <= k < trades@.len() ==> same_fill(#[trigger] trades@[k], fills[k]),
                        forall|k: int| 0 <= k < fills.len() ==> (#[trigger] fills[k]).quantity <= quantity,
                        side == Side::Buy ==> price * quantity <= u64::MAX,
                        order.side == side && order.price == price && order.quantity == quantity,
                        execs@.len() == e0.len() + i,
                        execs@.take(e0.len() as int) == e0,
                        forall|k: int| 0 <= k < i ==> same_exec(#[trigger] execs@[e0.len() + k],
                            exec_of(fills[k], order, base, quote)),
                    decreases n - i,
                {
                    let t = trades[i];
                    assert(same_fill(trades@[i as int], fills[i as int]));
                    let x = exec_record(&t, &order, base, quote);
                    let ghost before = execs@;
                    execs.push(x);
                    proof {
                        assert(execs@.take(e0.len() as int) =~= before.take(e0.len() as int));
                        assert forall|k: int| 0 <= k < i + 1 implies same_exec(#[trigger] execs@[e0.len() + k],
                            exec_of(fills[k], order, base, quote)) by {
                            if k < i {
                                assert(execs@[e0.len() + k] == before[e0.len() + k]);
                            }
                        }
                    }
                    i = i + 1;
                }
                Ok(oid)
            },
        };
        proof {
            let m1 = books_model(self.order_books@);
            let st = batch_step(old(self).asset_map@, m0, old(self).output_seq as int, r);
            if (symbol_id as int) < old(self).order_books@.len() && old(self).order_books@[symbol_id as int] is Some {
                assert(m0[symbol_id as int] == Some(old(self).order_books@[symbol_id as int]->0.state()));
                assert(m1 =~= st.0);
            } else {
                assert(m1 =~= m0);
            }
            let added = execs@.skip(e0.len() as int);
            if res is Ok {
                assert forall|k: int| 0 <= k < added.len() implies same_exec(#[trigger] added[k], st.3[k]) by {
                    assert(added[k] == execs@[e0.len() + k]);
                }
            } else {
                assert(added =~= Seq::<MatchExecData>::empty());
            }
        }
        match res {
            Err(e) => Err(e),
            Ok(oid) => Ok(oid),
        }
    }

    /// Takes a batch of orders one after another, each matched in its
    /// book. Returns each order's result, in order, and the ledger commands
    /// the batch emits: one `MatchExecBatch` holding the settlement records
    /// of all its fills in order, or none when nothing filled.
    pub fn add_order_batch(&mut self, requests: Vec<(u32, u64, Side, OrderType, u64, u64, u64, u64)>)
        -> (res: (Vec<Result<u64, OrderError>>, Vec<LedgerCommand>))
        requires
            old(self).wf(),
            batch_fits(old(self).asset_map@, books_model(old(self).order_books@), old(self).output_seq as int,
                requests@),
        ensures
            final(self).wf(),
            final(self).asset_map == old(self).asset_map,
            final(self).state_hash == old(self).state_hash,
            final(self).last_output_hash == old(self).last_output_hash,
            final(self).order_books@.len() == old(self).order_books@.len(),
            ({
                let f = batch_fold(old(self).asset_map@, books_model(old(self).order_books@),
                    old(self).output_seq as int, requests@);
                &&& books_model(final(self).order_books@) == f.0
                &&& final(self).output_seq == f.1
                &&& res.0@.len() == requests@.len()
                &&& forall|i: int| 0 <= i < requests@.len()
                    ==> batch_result_is(#[trigger] res.0@[i], requests@[i].1, f.2[i])
                &&& f.3.len() == 0 ==> res.1@.len() == 0
                &&& f.3.len() > 0 ==> res.1@.len() == 1
                    && (res.1@[0] matches LedgerCommand::MatchExecBatch(v) && execs_agree(v@, f.3))
            }),
    {
        let ghost assets = old(self).asset_map@;
        let ghost whole = batch_fold(assets, books_model(old(self).order_books@), old(self).output_seq as int,
            requests@);
        let mut results: Vec<Result<u64, OrderError>> = Vec::new();
        let mut execs: Vec<MatchExecData> = Vec::new();
        let ghost mut done: Seq<Option<Seq<char>>> = Seq::empty();
        let ghost mut done_x: Seq<MatchExecData> = Seq::empty();
        let mut i: usize = 0;
        proof {
            assert(requests@.skip(0) =~= requests@);
        }
        while i < requests.len()
            invariant
                i <= requests@.len(),
                self.wf(),
                self.asset_map@ == assets,
                self.asset_map == old(self).asset_map,
                self.state_hash == old(self).state_hash,
                self.last_output_hash == old(self).last_output_hash,
                self.order_books@.len() == old(self).order_books@.len(),
                assets == old(self).asset_map@,
                whole == batch_fold(assets, books_model(old(self).order_books@), old(self).output_seq as int,
                    requests@),
                batch_fits(assets, books_model(self.order_books@), self.output_seq as int, requests@.skip(i as int)),
                ({
                    let rest = batch_fold(assets, books_model(self.order_books@), self.output_seq as int,
                        requests@.skip(i as int));
                    &&& rest.0 == whole.0
                    &&& rest.1 == whole.1
                    &&& done + rest.2 == whole.2
                    &&& done_x + rest.3 == whole.3
                }),
                done.len() == i,
                results@.len() == i,
                forall|k: int| 0 <= k < i ==> batch_result_is(#[trigger] results@[k], requests@[k].1, done[k]),
                execs_agree(execs@, done_x),
            decreases requests@.len() - i,
        {
            let r = requests[i];
            let ghost m = books_model(self.order_books@);
            let ghost q = self.output_seq as int;
            let ghost x0 = execs@;
            proof {
                let tail = requests@.skip(i as int);
                assert(tail[0] == r);
                assert(tail.drop_first() =~= requests@.skip(i + 1));
                if (r.0 as int) < self.order_books@.len() && self.order_books@[r.0 as int] is Some {
                    assert(m[r.0 as int] == Some(self.order_books@[r.0 as int]->0.state()));
                }
            }
            let res = self.process_order_atomic(r, &mut execs);
            proof {
                let st = batch_step(assets, m, q, r);
                let tail = requests@.skip(i as int);
                let rest_before = batch_fold(assets, m, q, tail);
                let rest_after = batch_fold(assets, st.0, st.1, requests@.skip(i + 1));
                assert(rest_before.2 == seq![st.2] + rest_after.2);
                assert(rest_before.3 == st.3 + rest_after.3);
                assert(done.push(st.2) + rest_after.2 =~= done + rest_before.2);
                assert((done_x + st.3) + rest_after.3 =~= done_x + rest_before.3);
                let added = execs@.skip(x0.len() as int);
                assert forall|k: int| 0 <= k < execs@.len()
                    implies same_exec(#[trigger] execs@[k], (done_x + st.3)[k]) by {
                    if k < x0.len() {
                        assert(execs@[k] == execs@.take(x0.len() as int)[k]);
                        assert(same_exec(x0[k], done_x[k]));
                    } else {
                        assert(execs@[k] == added[k - x0.len()]);
                        assert(same_exec(added[k - x0.len()], st.3[k - x0.len()]));
                    }
                }
                done = done.push(st.2);
                done_x = done_x + st.3;
            }
            results.push(res);
            i = i + 1;
        }
        proof {
            assert(requests@.skip(i as int).len() == 0);
            assert(done =~= whole.2);
            assert(done_x =~= whole.3);
        }
        let mut commands: Vec<LedgerCommand> = Vec::new();
        if execs.len() > 0 {
            commands.push(LedgerCommand::MatchExecBatch(execs));
        }
        (results, commands)
    }
}

} // verus!
