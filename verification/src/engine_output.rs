//! The output bundle of the matching engine: one bundle per input, carrying
//! the input with its checksum, every effect of it, and a hash that chains
//! each bundle to the one before.

use vstd::prelude::*;

verus! {

/// What `xxhash_rust::xxh3::xxh3_64` gives for a byte string.
pub uninterp spec fn xxh3_64_of(data: Seq<u8>) -> u64;

/// One bit of the reflected CRC-32 (IEEE polynomial) register update.
pub open spec fn crc_shift(c: u32) -> u32 {
    if c & 1 == 1 { (c >> 1u32) ^ 0xEDB8_8320u32 } else { c >> 1u32 }
}

/// `k` bit steps of the register.
pub open spec fn crc_bits(c: u32, k: nat) -> u32
    decreases k,
{
    if k == 0 { c } else { crc_bits(crc_shift(c), (k - 1) as nat) }
}

/// The register after taking in `data`, byte after byte, low bit first.
pub open spec fn crc_update(c: u32, data: Seq<u8>) -> u32
    decreases data.len(),
{
    if data.len() == 0 { c } else { crc_update(crc_bits(c ^ (data[0] as u32), 8), data.drop_first()) }
}

/// The CRC-32 (IEEE) checksum of a byte string, as zlib and `crc32fast`
/// compute it: register preset to all ones, reflected, final complement.
pub open spec fn crc32_of(data: Seq<u8>) -> u32 {
    !crc_update(0xFFFF_FFFFu32, data)
}

/// Wrapper of `xxhash_rust::xxh3::xxh3_64`, a function of the bytes alone.
#[verifier::external_body]
fn xxh3(data: &[u8]) -> (res: u64)
    ensures
        res == xxh3_64_of(data@),
{
    xxhash_rust::xxh3::xxh3_64(data)
}

/// The CRC-32 checksum of `data`, bit by bit.
pub(crate) fn crc32(data: &[u8]) -> (res: u32)
    ensures
        res == crc32_of(data@),
{
    let mut c: u32 = 0xFFFF_FFFF;
    let mut i: usize = 0;
    proof { assert(data@.skip(0) =~= data@); }
    while i < data.len()
        invariant
            i <= data@.len(),
            crc_update(c, data@.skip(i as int)) == crc_update(0xFFFF_FFFFu32, data@),
        decreases data@.len() - i,
    {
        proof {
            assert(data@.skip(i as int)[0] == data@[i as int]);
            assert(data@.skip(i as int).drop_first() =~= data@.skip(i + 1));
        }
        let b: u8 = data[i];
        let ghost target = crc_bits(c ^ (b as u32), 8);
        let mut r: u32 = c ^ (b as u32);
        let mut k: u32 = 0;
        while k < 8
            invariant
                k <= 8,
                crc_bits(r, (8 - k) as nat) == target,
            decreases 8 - k,
        {
            r = if r & 1 == 1 { (r >> 1u32) ^ 0xEDB8_8320u32 } else { r >> 1u32 };
            k = k + 1;
        }
        c = r;
        i = i + 1;
    }
    proof { assert(data@.skip(data@.len() as int) =~= Seq::<u8>::empty()); }
    !c
}

/// Hash of the output before the first one.
pub const GENESIS_HASH: u64 = 0;

/// An input with its sequence number and the checksum of its serialized form.
#[derive(Debug, Clone)]
pub struct InputBundle {
    pub input_seq: u64,
    pub crc: u32,
    pub data: InputData,
}

/// The inputs the engine takes.
#[derive(Debug, Clone)]
pub enum InputData {
    PlaceOrder(PlaceOrderInput),
    CancelOrder(CancelOrderInput),
    Deposit(DepositInput),
    Withdraw(WithdrawInput),
}

/// A new order as submitted.
#[derive(Debug, Clone)]
pub struct PlaceOrderInput {
    pub order_id: u64,
    pub user_id: u64,
    pub symbol_id: u32,
    pub side: u8,
    pub order_type: u8,
    pub price: u64,
    pub quantity: u64,
    pub cid: String,
    pub created_at: u64,
}

/// A cancellation request.
#[derive(Debug, Clone)]
pub struct CancelOrderInput {
    pub order_id: u64,
    pub user_id: u64,
    pub created_at: u64,
}

/// A deposit request.
#[derive(Debug, Clone)]
pub struct DepositInput {
    pub user_id: u64,
    pub asset_id: u32,
    pub amount: u64,
    pub created_at: u64,
}

/// A withdrawal request.
#[derive(Debug, Clone)]
pub struct WithdrawInput {
    pub user_id: u64,
    pub asset_id: u32,
    pub amount: u64,
    pub created_at: u64,
}

/// A settled trade.
#[derive(Debug, Clone)]
pub struct TradeOutput {
    pub trade_id: u64,
    pub match_seq: u64,
    pub symbol_id: u32,
    pub buy_order_id: u64,
    pub sell_order_id: u64,
    pub buyer_user_id: u64,
    pub seller_user_id: u64,
    pub price: u64,
    pub quantity: u64,
    pub base_asset_id: u32,
    pub quote_asset_id: u32,
    pub buyer_refund: u64,
    pub seller_refund: u64,
    pub settled_at: u64,
}

/// A balance change: signed deltas, and the balances after it where known.
#[derive(Debug, Clone)]
pub struct BalanceEvent {
    pub user_id: u64,
    pub asset_id: u32,
    pub seq: u64,
    pub delta_avail: i64,
    pub delta_frozen: i64,
    pub avail: Option<u64>,
    pub frozen: Option<u64>,
    pub event_type: String,
    pub ref_id: u64,
}

impl BalanceEvent {
    /// Available balance after the event, where known.
    pub fn avail(&self) -> (res: Option<u64>)
        ensures
            res == self.avail,
    {
        self.avail
    }

    /// Frozen balance after the event, where known.
    pub fn frozen(&self) -> (res: Option<u64>)
        ensures
            res == self.frozen,
    {
        self.frozen
    }
}

/// A status change of an order.
#[derive(Debug, Clone)]
pub struct OrderUpdate {
    pub order_id: u64,
    pub user_id: u64,
    pub status: u8,
    pub filled_qty: u64,
    pub remaining_qty: u64,
    pub avg_price: u64,
    pub updated_at: u64,
}

/// An order that starts resting.
#[derive(Debug, Clone)]
pub struct OrderPlacement {
    pub order_id: u64,
    pub user_id: u64,
    pub symbol_id: u32,
    pub side: u8,
    pub order_type: u8,
    pub price: u64,
    pub quantity: u64,
    pub created_at: u64,
}

/// An order that stops resting.
#[derive(Debug, Clone)]
pub struct OrderCompletion {
    pub order_id: u64,
    pub reason: CompletionReason,
    pub completed_at: u64,
}

/// Why an order stopped resting.
#[derive(Debug, Clone, Copy, PartialEq, Eq, Structural)]
pub enum CompletionReason {
    Filled,
    Cancelled,
}

/// One output of the engine.
#[derive(Debug, Clone)]
pub struct EngineOutput {
    pub output_seq: u64,
    pub prev_hash: u64,
    pub symbol_id: u32,
    pub input: InputBundle,
    pub order_update: Option<OrderUpdate>,
    pub trades: Vec<TradeOutput>,
    pub balance_events: Vec<BalanceEvent>,
    pub order_placements: Vec<OrderPlacement>,
    pub order_completions: Vec<OrderCompletion>,
    pub hash: u64,
}

/// Little-endian bytes of a 64-bit value.
pub open spec fn le64(x: u64) -> Seq<u8> {
    seq![
        (x & 0xff) as u8,
        ((x >> 8u64) & 0xff) as u8,
        ((x >> 16u64) & 0xff) as u8,
        ((x >> 24u64) & 0xff) as u8,
        ((x >> 32u64) & 0xff) as u8,
        ((x >> 40u64) & 0xff) as u8,
        ((x >> 48u64) & 0xff) as u8,
        ((x >> 56u64) & 0xff) as u8,
    ]
}

/// Little-endian bytes of a 32-bit value.
pub open spec fn le32(x: u32) -> Seq<u8> {
    seq![
        (x & 0xff) as u8,
        ((x >> 8u32) & 0xff) as u8,
        ((x >> 16u32) & 0xff) as u8,
        ((x >> 24u32) & 0xff) as u8,
    ]
}

/// Bytes of a text: its UTF-8 encoding.
pub open spec fn text_bytes(s: String) -> Seq<u8> {
    vstd::utf8::encode_utf8(s@)
}

/// Bytes of an input: a kind marker, then its fields.
pub open spec fn input_bytes(d: InputData) -> Seq<u8> {
    match d {
        InputData::PlaceOrder(o) => seq![1u8] + le64(o.order_id) + le64(o.user_id) + le32(o.symbol_id)
            + seq![o.side] + seq![o.order_type] + le64(o.price) + le64(o.quantity)
            + text_bytes(o.cid) + le64(o.created_at),
        InputData::CancelOrder(c) => seq![2u8] + le64(c.order_id) + le64(c.user_id) + le64(c.created_at),
        InputData::Deposit(d) => seq![3u8] + le64(d.user_id) + le32(d.asset_id) + le64(d.amount)
            + le64(d.created_at),
        InputData::Withdraw(w) => seq![4u8] + le64(w.user_id) + le32(w.asset_id) + le64(w.amount)
            + le64(w.created_at),
    }
}

/// Bytes of the optional order update: a presence marker, then its fields.
pub open spec fn update_bytes(u: Option<OrderUpdate>) -> Seq<u8> {
    match u {
        Some(ou) => seq![1u8] + le64(ou.order_id) + le64(ou.user_id) + seq![ou.status]
            + le64(ou.filled_qty) + le64(ou.remaining_qty) + le64(ou.avg_price) + le64(ou.updated_at),
        None => seq![0u8],
    }
}

/// Bytes of a trade (its symbol is not hashed).
pub open spec fn trade_bytes(t: TradeOutput) -> Seq<u8> {
    le64(t.trade_id) + le64(t.match_seq) + le64(t.buy_order_id) + le64(t.sell_order_id)
        + le64(t.buyer_user_id) + le64(t.seller_user_id) + le64(t.price) + le64(t.quantity)
        + le32(t.base_asset_id) + le32(t.quote_asset_id) + le64(t.buyer_refund)
        + le64(t.seller_refund) + le64(t.settled_at)
}

/// Bytes of a sequence of trades, one after the other.
pub open spec fn trades_bytes(ts: Seq<TradeOutput>) -> Seq<u8>
    decreases ts.len(),
{
    if ts.len() == 0 {
        Seq::empty()
    } else {
        trades_bytes(ts.drop_last()) + trade_bytes(ts.last())
    }
}

/// Bytes of a balance event; unknown balances count as zero.
pub open spec fn event_bytes(e: BalanceEvent) -> Seq<u8> {
    le64(e.user_id) + le32(e.asset_id) + le64(e.seq) + le64(e.delta_avail as u64)
        + le64(e.delta_frozen as u64) + le64(e.avail.unwrap_or(0)) + le64(e.frozen.unwrap_or(0))
        + text_bytes(e.event_type) + le64(e.ref_id)
}

/// Bytes of a sequence of balance events, one after the other.
pub open spec fn events_bytes(es: Seq<BalanceEvent>) -> Seq<u8>
    decreases es.len(),
{
    if es.len() == 0 {
        Seq::empty()
    } else {
        events_bytes(es.drop_last()) + event_bytes(es.last())
    }
}

/// The bytes an output's hash covers: the chain header, the input, the
/// order update, and the counted trades and balance events. Placements,
/// completions and the hash itself are not covered.
pub open spec fn output_bytes(o: EngineOutput) -> Seq<u8> {
    le64(o.output_seq) + le64(o.prev_hash) + le32(o.symbol_id) + le64(o.input.input_seq)
        + le32(o.input.crc) + input_bytes(o.input.data) + update_bytes(o.order_update)
        + le32(o.trades@.len() as u32) + trades_bytes(o.trades@)
        + le32(o.balance_events@.len() as u32) + events_bytes(o.balance_events@)
}

/// The stored hash is the hash of the output's bytes.
pub open spec fn hash_is_valid(o: EngineOutput) -> bool {
    o.hash == xxh3_64_of(output_bytes(o))
}

/// The symbol an output is filed under: that of its first trade, else 0.
pub open spec fn primary_symbol(trades: Seq<TradeOutput>) -> u32 {
    if trades.len() > 0 { trades[0].symbol_id } else { 0 }
}

/// Appends a `u64` in little-endian order.
pub(crate) fn put_u64(data: &mut Vec<u8>, x: u64)
    ensures
        final(data)@ == old(data)@ + le64(x),
{
    data.push((x & 0xff) as u8);
    data.push(((x >> 8u64) & 0xff) as u8);
    data.push(((x >> 16u64) & 0xff) as u8);
    data.push(((x >> 24u64) & 0xff) as u8);
    data.push(((x >> 32u64) & 0xff) as u8);
    data.push(((x >> 40u64) & 0xff) as u8);
    data.push(((x >> 48u64) & 0xff) as u8);
    data.push(((x >> 56u64) & 0xff) as u8);
    assert(data@ =~= old(data)@ + le64(x));
}

/// Appends a `u32` in little-endian order.
pub(crate) fn put_u32(data: &mut Vec<u8>, x: u32)
    ensures
        final(data)@ == old(data)@ + le32(x),
{
    data.push((x & 0xff) as u8);
    data.push(((x >> 8u32) & 0xff) as u8);
    data.push(((x >> 16u32) & 0xff) as u8);
    data.push(((x >> 24u32) & 0xff) as u8);
    assert(data@ =~= old(data)@ + le32(x));
}

/// Appends a byte.
pub(crate) fn put_u8(data: &mut Vec<u8>, x: u8)
    ensures
        final(data)@ == old(data)@ + seq![x],
{
    data.push(x);
    assert(data@ =~= old(data)@ + seq![x]);
}

fn put_text(data: &mut Vec<u8>, s: &String)
    ensures
        final(data)@ == old(data)@ + text_bytes(*s),
{
    let bytes = s.as_str().as_bytes();
    let n = bytes.len();
    let mut i: usize = 0;
    while i < n
        invariant
            n == bytes@.len(),
            bytes@ == text_bytes(*s),
            i <= n,
            data@ == old(data)@ + bytes@.subrange(0, i as int),
        decreases n - i,
    {
        data.push(bytes[i]);
        i = i + 1;
        assert(data@ =~= old(data)@ + bytes@.subrange(0, i as int));
    }
    assert(bytes@.subrange(0, n as int) =~= bytes@);
}

fn put_input(data: &mut Vec<u8>, d: &InputData)
    ensures
        final(data)@ == old(data)@ + input_bytes(*d),
{
    match d {
        InputData::PlaceOrder(o) => {
            put_u8(data, 1u8);
            put_u64(data, o.order_id);
            put_u64(data, o.user_id);
            put_u32(data, o.symbol_id);
            put_u8(data, o.side);
            put_u8(data, o.order_type);
            put_u64(data, o.price);
            put_u64(data, o.quantity);
            put_text(data, &o.cid);
            put_u64(data, o.created_at);
        },
        InputData::CancelOrder(c) => {
            put_u8(data, 2u8);
            put_u64(data, c.order_id);
            put_u64(data, c.user_id);
            put_u64(data, c.created_at);
        },
        InputData::Deposit(x) => {
            put_u8(data, 3u8);
            put_u64(data, x.user_id);
            put_u32(data, x.asset_id);
            put_u64(data, x.amount);
            put_u64(data, x.created_at);
        },
        InputData::Withdraw(w) => {
            put_u8(data, 4u8);
            put_u64(data, w.user_id);
            put_u32(data, w.asset_id);
            put_u64(data, w.amount);
            put_u64(data, w.created_at);
        },
    }
    assert(data@ =~= old(data)@ + input_bytes(*d));
}

fn put_update(data: &mut Vec<u8>, u: &Option<OrderUpdate>)
    ensures
        final(data)@ == old(data)@ + update_bytes(*u),
{
    match u {
        Some(ou) => {
            put_u8(data, 1u8);
            put_u64(data, ou.order_id);
            put_u64(data, ou.user_id);
            put_u8(data, ou.status);
            put_u64(data, ou.filled_qty);
            put_u64(data, ou.remaining_qty);
            put_u64(data, ou.avg_price);
            put_u64(data, ou.updated_at);
        },
        None => {
            put_u8(data, 0u8);
        },
    }
    assert(data@ =~= old(data)@ + update_bytes(*u));
}

fn put_trade(data: &mut Vec<u8>, t: &TradeOutput)
    ensures
        final(data)@ == old(data)@ + trade_bytes(*t),
{
    put_u64(data, t.trade_id);
    put_u64(data, t.match_seq);
    put_u64(data, t.buy_order_id);
    put_u64(data, t.sell_order_id);
    put_u64(data, t.buyer_user_id);
    put_u64(data, t.seller_user_id);
    put_u64(data, t.price);
    put_u64(data, t.quantity);
    put_u32(data, t.base_asset_id);
    put_u32(data, t.quote_asset_id);
    put_u64(data, t.buyer_refund);
    put_u64(data, t.seller_refund);
    put_u64(data, t.settled_at);
    assert(data@ =~= old(data)@ + trade_bytes(*t));
}

fn put_event(data: &mut Vec<u8>, e: &BalanceEvent)
    ensures
        final(data)@ == old(data)@ + event_bytes(*e),
{
    put_u64(data, e.user_id);
    put_u32(data, e.asset_id);
    put_u64(data, e.seq);
    put_u64(data, e.delta_avail as u64);
    put_u64(data, e.delta_frozen as u64);
    put_u64(data, match e.avail() { Some(v) => v, None => 0 });
    put_u64(data, match e.frozen() { Some(v) => v, None => 0 });
    put_text(data, &e.event_type);
    put_u64(data, e.ref_id);
    assert(data@ =~= old(data)@ + event_bytes(*e));
}

#[verifier::spinoff_prover]
#[verifier::rlimit(30)]
fn put_trades(data: &mut Vec<u8>, ts: &Vec<TradeOutput>)
    ensures
        final(data)@ == old(data)@ + trades_bytes(ts@),
{
    let n = ts.len();
    let mut i: usize = 0;
    while i < n
        invariant
            n == ts@.len(),
            i <= n,
            data@ == old(data)@ + trades_bytes(ts@.subrange(0, i as int)),
        decreases n - i,
    {
        put_trade(data, &ts[i]);
        assert(ts@.subrange(0, i + 1 as int).drop_last() =~= ts@.subrange(0, i as int));
        i = i + 1;
        assert(data@ =~= old(data)@ + trades_bytes(ts@.subrange(0, i as int)));
    }
    assert(ts@.subrange(0, n as int) =~= ts@);
}

#[verifier::spinoff_prover]
#[verifier::rlimit(30)]
fn put_events(data: &mut Vec<u8>, es: &Vec<BalanceEvent>)
    ensures
        final(data)@ == old(data)@ + events_bytes(es@),
{
    let n = es.len();
    let mut i: usize = 0;
    while i < n
        invariant
            n == es@.len(),
            i <= n,
            data@ == old(data)@ + events_bytes(es@.subrange(0, i as int)),
        decreases n - i,
    {
        put_event(data, &es[i]);
        assert(es@.subrange(0, i + 1 as int).drop_last() =~= es@.subrange(0, i as int));
        i = i + 1;
        assert(data@ =~= old(data)@ + events_bytes(es@.subrange(0, i as int)));
    }
    assert(es@.subrange(0, n as int) =~= es@);
}

impl EngineOutput {
    /// An output with its symbol taken from the first trade (0 without
    /// trades), no placements or completions, and its hash computed.
    pub fn new(
        output_seq: u64,
        prev_hash: u64,
        input: InputBundle,
        order_update: Option<OrderUpdate>,
        trades: Vec<TradeOutput>,
        balance_events: Vec<BalanceEvent>,
    ) -> (res: EngineOutput)
        ensures
            res.output_seq == output_seq,
            res.prev_hash == prev_hash,
            res.symbol_id == primary_symbol(trades@),
            res.input == input,
            res.order_update == order_update,
            res.trades@ == trades@,
            res.balance_events@ == balance_events@,
            res.order_placements@.len() == 0,
            res.order_completions@.len() == 0,
            hash_is_valid(res),
    {
        let symbol_id: u32 = if trades.len() > 0 { trades[0].symbol_id } else { 0 };
        let mut output = EngineOutput {
            output_seq,
            prev_hash,
            symbol_id,
            input,
            order_update,
            trades,
            balance_events,
            order_placements: Vec::new(),
            order_completions: Vec::new(),
            hash: 0,
        };
        output.hash = output.compute_hash();
        output
    }

    /// The hash of the output's bytes.
    pub fn compute_hash(&self) -> (res: u64)
        ensures
            res == xxh3_64_of(output_bytes(*self)),
    {
        let mut data: Vec<u8> = Vec::new();
        put_u64(&mut data, self.output_seq);
        put_u64(&mut data, self.prev_hash);
        put_u32(&mut data, self.symbol_id);
        put_u64(&mut data, self.input.input_seq);
        put_u32(&mut data, self.input.crc);
        self.hash_input_data(&mut data);
        put_update(&mut data, &self.order_update);
        put_u32(&mut data, self.trades.len() as u32);
        put_trades(&mut data, &self.trades);
        put_u32(&mut data, self.balance_events.len() as u32);
        put_events(&mut data, &self.balance_events);
        assert(data@ =~= output_bytes(*self));
        xxh3(data.as_slice())
    }

    fn hash_input_data(&self, data: &mut Vec<u8>)
        ensures
            final(data)@ == old(data)@ + input_bytes(self.input.data),
    {
        put_input(data, &self.input.data);
    }

    /// Whether the stored hash matches the output's bytes.
    pub fn verify(&self) -> (res: bool)
        ensures
            res == hash_is_valid(*self),
    {
        self.hash == self.compute_hash()
    }

    /// Whether this output directly follows `prev`: next sequence number,
    /// and `prev`'s hash as its previous hash.
    pub fn verify_chain(&self, prev: &EngineOutput) -> (res: bool)
        requires
            prev.output_seq < u64::MAX,
        ensures
            res == (self.output_seq == prev.output_seq + 1 && self.prev_hash == prev.hash),
    {
        self.output_seq == prev.output_seq + 1 && self.prev_hash == prev.hash
    }

    /// Whether this output names `expected_prev_hash` as its previous hash.
    pub fn verify_prev_hash(&self, expected_prev_hash: u64) -> (res: bool)
        ensures
            res == (self.prev_hash == expected_prev_hash),
    {
        self.prev_hash == expected_prev_hash
    }
}

impl InputBundle {
    /// A bundle whose checksum is the CRC-32 of the input's serialized bytes.
    pub fn new(input_seq: u64, data: InputData, serialized: &[u8]) -> (res: InputBundle)
        ensures
            res.input_seq == input_seq,
            res.data == data,
            res.crc == crc32_of(serialized@),
    {
        let crc = crc32(serialized);
        InputBundle { input_seq, crc, data }
    }

    /// Whether the stored checksum is the CRC-32 of the given serialized bytes.
    pub fn verify_crc(&self, serialized: &[u8]) -> (res: bool)
        ensures
            res == (self.crc == crc32_of(serialized@)),
    {
        self.crc == crc32(serialized)
    }
}

/// Builds an output piece by piece while an input is processed.
#[derive(Debug)]
pub struct EngineOutputBuilder {
    output_seq: u64,
    prev_hash: u64,
    input: Option<InputBundle>,
    order_update: Option<OrderUpdate>,
    trades: Vec<TradeOutput>,
    balance_events: Vec<BalanceEvent>,
    order_placements: Vec<OrderPlacement>,
    order_completions: Vec<OrderCompletion>,
}

impl EngineOutputBuilder {
    // What the builder holds so far: the output's number, the previous
    // output's hash, and the parts collected for it.
    pub closed spec fn seq(&self) -> u64 { self.output_seq }
    pub closed spec fn prev(&self) -> u64 { self.prev_hash }
    pub closed spec fn pending_input(&self) -> Option<InputBundle> { self.input }
    pub closed spec fn pending_update(&self) -> Option<OrderUpdate> { self.order_update }
    pub closed spec fn pending_trades(&self) -> Seq<TradeOutput> { self.trades@ }
    pub closed spec fn pending_events(&self) -> Seq<BalanceEvent> { self.balance_events@ }
    pub closed spec fn pending_placements(&self) -> Seq<OrderPlacement> { self.order_placements@ }
    pub closed spec fn pending_completions(&self) -> Seq<OrderCompletion> { self.order_completions@ }

    /// A builder with the chain header and nothing else.
    pub fn new(output_seq: u64, prev_hash: u64) -> (res: EngineOutputBuilder)
        ensures
            res.seq() == output_seq,
            res.prev() == prev_hash,
            res.pending_input() is None,
            res.pending_update() is None,
            res.pending_trades().len() == 0,
            res.pending_events().len() == 0,
            res.pending_placements().len() == 0,
            res.pending_completions().len() == 0,
    {
        EngineOutputBuilder {
            output_seq,
            prev_hash,
            input: None,
            order_update: None,
            trades: Vec::new(),
            balance_events: Vec::new(),
            order_placements: Vec::new(),
            order_completions: Vec::new(),
        }
    }

    /// Sets the input, by value.
    pub fn with_input(self, input: InputBundle) -> (res: EngineOutputBuilder)
        ensures
            res.seq() == self.seq(),
            res.prev() == self.prev(),
            res.pending_input() == Some(input),
            res.pending_update() == self.pending_update(),
            res.pending_trades() == self.pending_trades(),
            res.pending_events() == self.pending_events(),
            res.pending_placements() == self.pending_placements(),
            res.pending_completions() == self.pending_completions(),
    {
        let mut b = self;
        b.input = Some(input);
        b
    }

    /// Sets the input.
    pub fn set_input(&mut self, input: InputBundle)
        ensures
            final(self).seq() == old(self).seq(),
            final(self).prev() == old(self).prev(),
            final(self).pending_input() == Some(input),
            final(self).pending_update() == old(self).pending_update(),
            final(self).pending_trades() == old(self).pending_trades(),
            final(self).pending_events() == old(self).pending_events(),
            final(self).pending_placements() == old(self).pending_placements(),
            final(self).pending_completions() == old(self).pending_completions(),
    {
        self.input = Some(input);
    }

    /// Sets the order update, by value.
    pub fn with_order_update(self, update: OrderUpdate) -> (res: EngineOutputBuilder)
        ensures
            res.seq() == self.seq(),
            res.prev() == self.prev(),
            res.pending_input() == self.pending_input(),
            res.pending_update() == Some(update),
            res.pending_trades() == self.pending_trades(),
            res.pending_events() == self.pending_events(),
            res.pending_placements() == self.pending_placements(),
            res.pending_completions() == self.pending_completions(),
    {
        let mut b = self;
        b.order_update = Some(update);
        b
    }

    /// Sets the order update.
    pub fn set_order_update(&mut self, update: OrderUpdate)
        ensures
            final(self).seq() == old(self).seq(),
            final(self).prev() == old(self).prev(),
            final(self).pending_input() == old(self).pending_input(),
            final(self).pending_update() == Some(update),
            final(self).pending_trades() == old(self).pending_trades(),
            final(self).pending_events() == old(self).pending_events(),
            final(self).pending_placements() == old(self).pending_placements(),
            final(self).pending_completions() == old(self).pending_completions(),
    {
        self.order_update = Some(update);
    }

    /// Appends a trade.
    pub fn add_trade(&mut self, trade: TradeOutput)
        ensures
            final(self).pending_trades() == old(self).pending_trades().push(trade),
            final(self).seq() == old(self).seq(),
            final(self).prev() == old(self).prev(),
            final(self).pending_input() == old(self).pending_input(),
            final(self).pending_update() == old(self).pending_update(),
            final(self).pending_events() == old(self).pending_events(),
            final(self).pending_placements() == old(self).pending_placements(),
            final(self).pending_completions() == old(self).pending_completions(),
    {
        self.trades.push(trade);
    }

    /// Appends a balance event.
    pub fn add_balance_event(&mut self, event: BalanceEvent)
        ensures
            final(self).pending_events() == old(self).pending_events().push(event),
            final(self).seq() == old(self).seq(),
            final(self).prev() == old(self).prev(),
            final(self).pending_input() == old(self).pending_input(),
            final(self).pending_update() == old(self).pending_update(),
            final(self).pending_trades() == old(self).pending_trades(),
            final(self).pending_placements() == old(self).pending_placements(),
            final(self).pending_completions() == old(self).pending_completions(),
    {
        self.balance_events.push(event);
    }

    /// Appends an order placement.
    pub fn add_order_placement(&mut self, placement: OrderPlacement)
        ensures
            final(self).pending_placements() == old(self).pending_placements().push(placement),
            final(self).seq() == old(self).seq(),
            final(self).prev() == old(self).prev(),
            final(self).pending_input() == old(self).pending_input(),
            final(self).pending_update() == old(self).pending_update(),
            final(self).pending_trades() == old(self).pending_trades(),
            final(self).pending_events() == old(self).pending_events(),
            final(self).pending_completions() == old(self).pending_completions(),
    {
        self.order_placements.push(placement);
    }

    /// Appends an order completion.
    pub fn add_order_completion(&mut self, completion: OrderCompletion)
        ensures
            final(self).pending_completions() == old(self).pending_completions().push(completion),
            final(self).seq() == old(self).seq(),
            final(self).prev() == old(self).prev(),
            final(self).pending_input() == old(self).pending_input(),
            final(self).pending_update() == old(self).pending_update(),
            final(self).pending_trades() == old(self).pending_trades(),
            final(self).pending_events() == old(self).pending_events(),
            final(self).pending_placements() == old(self).pending_placements(),
    {
        self.order_completions.push(completion);
    }

    /// The output, with its hash computed; none while no input is set.
    pub fn build(self) -> (res: Option<EngineOutput>)
        ensures
            res is None <==> self.pending_input() is None,
            res matches Some(o) ==> {
                &&& o.output_seq == self.seq()
                &&& o.prev_hash == self.prev()
                &&& Some(o.input) == self.pending_input()
                &&& o.symbol_id == primary_symbol(self.pending_trades())
                &&& o.order_update == self.pending_update()
                &&& o.trades@ == self.pending_trades()
                &&& o.balance_events@ == self.pending_events()
                &&& o.order_placements@ == self.pending_placements()
                &&& o.order_completions@ == self.pending_completions()
                &&& hash_is_valid(o)
            },
    {
        let input = match self.input {
            Some(i) => i,
            None => return None,
        };
        let symbol_id: u32 = if self.trades.len() > 0 { self.trades[0].symbol_id } else { 0 };
        let mut output = EngineOutput {
            output_seq: self.output_seq,
            prev_hash: self.prev_hash,
            symbol_id,
            input,
            order_update: self.order_update,
            trades: self.trades,
            balance_events: self.balance_events,
            order_placements: self.order_placements,
            order_completions: self.order_completions,
            hash: 0,
        };
        output.hash = output.compute_hash();
        Some(output)
    }

    /// The output; the input must have been set.
    pub fn build_unchecked(self) -> (res: EngineOutput)
        requires
            self.pending_input() is Some,
        ensures
            res.output_seq == self.seq(),
            res.prev_hash == self.prev(),
            Some(res.input) == self.pending_input(),
            res.symbol_id == primary_symbol(self.pending_trades()),
            res.order_update == self.pending_update(),
            res.trades@ == self.pending_trades(),
            res.balance_events@ == self.pending_events(),
            res.order_placements@ == self.pending_placements(),
            res.order_completions@ == self.pending_completions(),
            hash_is_valid(res),
    {
        match self.build() {
            Some(o) => o,
            None => {
                proof { assert(false); }
                EngineOutput::new(0, 0, InputBundle { input_seq: 0, crc: 0, data: InputData::CancelOrder(CancelOrderInput { order_id: 0, user_id: 0, created_at: 0 }) }, None, Vec::new(), Vec::new())
            },
        }
    }
}

/// The hash covers neither the order placements nor the completions: an
/// output with a valid hash keeps it whatever lifecycle events it carries.
pub proof fn lemma_hash_ignores_lifecycle_events(
    o: EngineOutput,
    placements: Vec<OrderPlacement>,
    completions: Vec<OrderCompletion>,
)
    requires
        hash_is_valid(o),
    ensures
        hash_is_valid(EngineOutput { order_placements: placements, order_completions: completions, ..o }),
{
}

} // verus!
