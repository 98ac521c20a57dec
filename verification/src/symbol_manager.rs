//! The symbols and assets the exchange lists: names and ids both ways,
//! price and quantity precision of each symbol, decimals of each asset.

use std::collections::HashMap;
use vstd::prelude::*;
use crate::text::{owned, str_equals};

verus! {

broadcast use vstd::std_specs::hash::group_hash_axioms;

/// A trading symbol and its precision.
#[derive(Debug, Clone)]
pub struct SymbolInfo {
    pub symbol: String,
    pub id: u32,
    pub price_decimal: u32,
    pub quantity_decimal: u32,
}

/// An asset and the number of decimals its amounts are kept with.
#[derive(Debug, Clone)]
pub struct AssetInfo {
    pub id: u32,
    pub symbol: String,
    pub decimals: u32,
}

/// The id a list of (name, id) entries gives a name: that of its first entry.
pub open spec fn id_of(entries: Seq<(String, u32)>, name: Seq<char>) -> Option<u32>
    decreases entries.len(),
{
    if entries.len() == 0 {
        None
    } else if entries[0].0@ == name {
        Some(entries[0].1)
    } else {
        id_of(entries.drop_first(), name)
    }
}

/// Symbols and assets by name and by id.
pub struct SymbolManager {
    pub symbol_to_id: Vec<(String, u32)>,
    pub id_to_symbol: HashMap<u32, String>,
    pub symbol_info: HashMap<u32, SymbolInfo>,
    pub assets: HashMap<u32, AssetInfo>,
}

fn position_of_name(entries: &Vec<(String, u32)>, name: &str) -> (res: Option<usize>)
    ensures
        match res {
            Some(i) => i < entries@.len() && entries@[i as int].0@ == name@
                && forall|j: int| 0 <= j < i ==> (#[trigger] entries@[j]).0@ != name@,
            None => forall|j: int| 0 <= j < entries@.len() ==> (#[trigger] entries@[j]).0@ != name@,
        },
{
    let n = entries.len();
    let mut i: usize = 0;
    while i < n
        invariant
            n == entries@.len(),
            i <= n,
            forall|j: int| 0 <= j < i ==> (#[trigger] entries@[j]).0@ != name@,
        decreases n - i,
    {
        if str_equals(entries[i].0.as_str(), name) {
            return Some(i);
        }
        i = i + 1;
    }
    None
}

proof fn lemma_id_of_first(entries: Seq<(String, u32)>, name: Seq<char>, i: int)
    requires
        0 <= i < entries.len(),
        entries[i].0@ == name,
        forall|j: int| 0 <= j < i ==> (#[trigger] entries[j]).0@ != name,
    ensures
        id_of(entries, name) == Some(entries[i].1),
    decreases i,
{
    if i > 0 {
        assert forall|j: int| 0 <= j < i - 1 implies (#[trigger] entries.drop_first()[j]).0@ != name by {
            assert(entries.drop_first()[j] == entries[j + 1]);
        }
        lemma_id_of_first(entries.drop_first(), name, i - 1);
    }
}

proof fn lemma_id_of_absent(entries: Seq<(String, u32)>, name: Seq<char>)
    requires
        forall|j: int| 0 <= j < entries.len() ==> (#[trigger] entries[j]).0@ != name,
    ensures
        id_of(entries, name) is None,
    decreases entries.len(),
{
    if entries.len() > 0 {
        assert forall|j: int| 0 <= j < entries.len() - 1 implies (#[trigger] entries.drop_first()[j]).0@ != name by {
            assert(entries.drop_first()[j] == entries[j + 1]);
        }
        lemma_id_of_absent(entries.drop_first(), name);
    }
}

/// Changing the id of a name's first entry, or adding an entry for a name
/// that has none, changes what that name gives and nothing else.
proof fn lemma_id_of_update(entries: Seq<(String, u32)>, name: Seq<char>, i: int, e: (String, u32), other: Seq<char>)
    requires
        0 <= i < entries.len(),
        entries[i].0@ == name,
        e.0@ == name,
        forall|j: int| 0 <= j < i ==> (#[trigger] entries[j]).0@ != name,
        other != name,
    ensures
        id_of(entries.update(i, e), other) == id_of(entries, other),
    decreases entries.len(),
{
    if i > 0 {
        assert(entries.update(i, e).drop_first() =~= entries.drop_first().update(i - 1, e));
        assert forall|j: int| 0 <= j < i - 1 implies (#[trigger] entries.drop_first()[j]).0@ != name by {
            assert(entries.drop_first()[j] == entries[j + 1]);
        }
        lemma_id_of_update(entries.drop_first(), name, i - 1, e, other);
    } else {
        assert(entries.update(i, e).drop_first() =~= entries.drop_first());
    }
}

proof fn lemma_id_of_push(entries: Seq<(String, u32)>, e: (String, u32), other: Seq<char>)
    requires
        e.0@ != other,
    ensures
        id_of(entries.push(e), other) == id_of(entries, other),
    decreases entries.len(),
{
    if entries.len() > 0 {
        assert(entries.push(e).drop_first() =~= entries.drop_first().push(e));
        lemma_id_of_push(entries.drop_first(), e, other);
    } else {
        assert(entries.push(e).drop_first() =~= entries);
    }
}

proof fn lemma_id_of_push_new(entries: Seq<(String, u32)>, e: (String, u32))
    requires
        id_of(entries, e.0@) is None,
    ensures
        id_of(entries.push(e), e.0@) == Some(e.1),
    decreases entries.len(),
{
    if entries.len() > 0 {
        assert(entries.push(e).drop_first() =~= entries.drop_first().push(e));
        lemma_id_of_push_new(entries.drop_first(), e);
    }
}

impl SymbolManager {
    /// Nothing listed.
    pub fn new() -> (res: SymbolManager)
        ensures
            res.symbol_to_id@.len() == 0,
            res.id_to_symbol@.is_empty(),
            res.symbol_info@.is_empty(),
            res.assets@.is_empty(),
    {
        SymbolManager {
            symbol_to_id: Vec::new(),
            id_to_symbol: HashMap::new(),
            symbol_info: HashMap::new(),
            assets: HashMap::new(),
        }
    }

    /// Lists a symbol with two price and eight quantity decimals.
    pub fn insert(&mut self, symbol: &str, id: u32)
        ensures
            forall|s: Seq<char>| #[trigger] id_of(final(self).symbol_to_id@, s)
                == if s == symbol@ { Some(id) } else { id_of(old(self).symbol_to_id@, s) },
            final(self).id_to_symbol@.dom() == old(self).id_to_symbol@.dom().insert(id),
            final(self).id_to_symbol@[id]@ == symbol@,
            forall|k: u32| k != id && #[trigger] old(self).id_to_symbol@.contains_key(k)
                ==> final(self).id_to_symbol@[k] == old(self).id_to_symbol@[k],
            final(self).symbol_info@.dom() == old(self).symbol_info@.dom().insert(id),
            final(self).symbol_info@[id].symbol@ == symbol@,
            final(self).symbol_info@[id].id == id,
            final(self).symbol_info@[id].price_decimal == 2,
            final(self).symbol_info@[id].quantity_decimal == 8,
            forall|k: u32| k != id && #[trigger] old(self).symbol_info@.contains_key(k)
                ==> final(self).symbol_info@[k] == old(self).symbol_info@[k],
            final(self).assets@ == old(self).assets@,
    {
        self.insert_with_decimals(symbol, id, 2, 8);
    }

    /// Lists a symbol with the given precision; listing a name again
    /// moves it to the new id.
    pub fn insert_with_decimals(&mut self, symbol: &str, id: u32, price_decimal: u32, quantity_decimal: u32)
        ensures
            forall|s: Seq<char>| #[trigger] id_of(final(self).symbol_to_id@, s)
                == if s == symbol@ { Some(id) } else { id_of(old(self).symbol_to_id@, s) },
            final(self).id_to_symbol@.dom() == old(self).id_to_symbol@.dom().insert(id),
            final(self).id_to_symbol@[id]@ == symbol@,
            forall|k: u32| k != id && #[trigger] old(self).id_to_symbol@.contains_key(k)
                ==> final(self).id_to_symbol@[k] == old(self).id_to_symbol@[k],
            final(self).symbol_info@.dom() == old(self).symbol_info@.dom().insert(id),
            final(self).symbol_info@[id].symbol@ == symbol@,
            final(self).symbol_info@[id].id == id,
            final(self).symbol_info@[id].price_decimal == price_decimal,
            final(self).symbol_info@[id].quantity_decimal == quantity_decimal,
            forall|k: u32| k != id && #[trigger] old(self).symbol_info@.contains_key(k)
                ==> final(self).symbol_info@[k] == old(self).symbol_info@[k],
            final(self).assets@ == old(self).assets@,
    {
        let ghost old_entries = self.symbol_to_id@;
        let entry = (owned(symbol), id);
        match position_of_name(&self.symbol_to_id, symbol) {
            Some(i) => {
                self.symbol_to_id.set(i, entry);
                proof {
                    assert forall|s: Seq<char>| #[trigger] id_of(self.symbol_to_id@, s)
                        == if s == symbol@ { Some(id) } else { id_of(old_entries, s) } by {
                        if s == symbol@ {
                            assert forall|j: int| 0 <= j < i implies (#[trigger] self.symbol_to_id@[j]).0@ != symbol@ by {
                                assert(self.symbol_to_id@[j] == old_entries[j]);
                            }
                            lemma_id_of_first(self.symbol_to_id@, symbol@, i as int);
                        } else {
                            lemma_id_of_update(old_entries, symbol@, i as int, entry, s);
                        }
                    }
                }
            },
            None => {
                self.symbol_to_id.push(entry);
                proof {
                    lemma_id_of_absent(old_entries, symbol@);
                    assert forall|s: Seq<char>| #[trigger] id_of(self.symbol_to_id@, s)
                        == if s == symbol@ { Some(id) } else { id_of(old_entries, s) } by {
                        if s == symbol@ {
                            lemma_id_of_push_new(old_entries, entry);
                        } else {
                            lemma_id_of_push(old_entries, entry, s);
                        }
                    }
                }
            },
        }
        self.id_to_symbol.insert(id, owned(symbol));
        self.symbol_info.insert(id, SymbolInfo { symbol: owned(symbol), id, price_decimal, quantity_decimal });
    }

    /// The id of a symbol name.
    pub fn get_id(&self, symbol: &str) -> (res: Option<u32>)
        ensures
            res == id_of(self.symbol_to_id@, symbol@),
    {
        match position_of_name(&self.symbol_to_id, symbol) {
            Some(i) => {
                proof { lemma_id_of_first(self.symbol_to_id@, symbol@, i as int); }
                Some(self.symbol_to_id[i].1)
            },
            None => {
                proof { lemma_id_of_absent(self.symbol_to_id@, symbol@); }
                None
            },
        }
    }

    /// The name of a symbol id.
    pub fn get_symbol(&self, id: u32) -> (res: Option<&String>)
        ensures
            match res {
                Some(s) => self.id_to_symbol@.contains_key(id) && *s == self.id_to_symbol@[id],
                None => !self.id_to_symbol@.contains_key(id),
            },
    {
        self.id_to_symbol.get(&id)
    }

    /// The precision of a symbol, by name.
    pub fn get_symbol_info(&self, symbol: &str) -> (res: Option<&SymbolInfo>)
        ensures
            match id_of(self.symbol_to_id@, symbol@) {
                Some(id) => match res {
                    Some(info) => self.symbol_info@.contains_key(id) && *info == self.symbol_info@[id],
                    None => !self.symbol_info@.contains_key(id),
                },
                None => res is None,
            },
    {
        let id = match self.get_id(symbol) {
            Some(id) => id,
            None => return None,
        };
        self.symbol_info.get(&id)
    }

    /// The precision of a symbol, by id.
    pub fn get_symbol_info_by_id(&self, id: u32) -> (res: Option<&SymbolInfo>)
        ensures
            match res {
                Some(info) => self.symbol_info@.contains_key(id) && *info == self.symbol_info@[id],
                None => !self.symbol_info@.contains_key(id),
            },
    {
        self.symbol_info.get(&id)
    }

    /// Lists an asset, replacing what its id held.
    pub fn add_asset(&mut self, id: u32, symbol: &str, decimals: u32)
        ensures
            final(self).assets@.dom() == old(self).assets@.dom().insert(id),
            final(self).assets@[id].id == id,
            final(self).assets@[id].symbol@ == symbol@,
            final(self).assets@[id].decimals == decimals,
            forall|k: u32| k != id && #[trigger] old(self).assets@.contains_key(k)
                ==> final(self).assets@[k] == old(self).assets@[k],
            final(self).symbol_to_id@ == old(self).symbol_to_id@,
            final(self).id_to_symbol@ == old(self).id_to_symbol@,
            final(self).symbol_info@ == old(self).symbol_info@,
    {
        self.assets.insert(id, AssetInfo { id, symbol: owned(symbol), decimals });
    }

    /// The decimals of an asset.
    pub fn get_asset_decimal(&self, asset_id: u32) -> (res: Option<u32>)
        ensures
            match res {
                Some(d) => self.assets@.contains_key(asset_id) && d == self.assets@[asset_id].decimals,
                None => !self.assets@.contains_key(asset_id),
            },
    {
        match self.assets.get(&asset_id) {
            Some(a) => Some(a.decimals),
            None => None,
        }
    }

    /// The listing the exchange starts with: BTC_USDT (id 0) and ETH_USDT
    /// (id 1), both with two price and eight quantity decimals, and the
    /// assets BTC, USDT and ETH (ids 1 to 3), eight decimals each.
    pub fn load_from_db() -> (res: SymbolManager)
        ensures
            id_of(res.symbol_to_id@, "BTC_USDT"@) == Some(0u32),
            id_of(res.symbol_to_id@, "ETH_USDT"@) == Some(1u32),
            res.symbol_info@.dom() == set![0u32, 1u32],
            res.symbol_info@[0].price_decimal == 2 && res.symbol_info@[0].quantity_decimal == 8,
            res.symbol_info@[1].price_decimal == 2 && res.symbol_info@[1].quantity_decimal == 8,
            res.assets@.dom() == set![1u32, 2u32, 3u32],
            res.assets@[1].symbol@ == "BTC"@ && res.assets@[1].decimals == 8,
            res.assets@[2].symbol@ == "USDT"@ && res.assets@[2].decimals == 8,
            res.assets@[3].symbol@ == "ETH"@ && res.assets@[3].decimals == 8,
    {
        proof {
            reveal_strlit("BTC_USDT");
            reveal_strlit("ETH_USDT");
        }
        let mut manager = SymbolManager::new();
        manager.insert_with_decimals("BTC_USDT", 0, 2, 8);
        let ghost m1 = manager.symbol_info@;
        assert(m1.contains_key(0));
        let ghost e1 = manager.symbol_to_id@;
        assert(id_of(e1, "BTC_USDT"@) == Some(0u32));
        assert("BTC_USDT"@ != "ETH_USDT"@) by {
            assert("BTC_USDT"@[0] != "ETH_USDT"@[0]);
        }
        manager.insert_with_decimals("ETH_USDT", 1, 2, 8);
        assert(id_of(manager.symbol_to_id@, "BTC_USDT"@) == Some(0u32));
        manager.add_asset(1, "BTC", 8);
        let ghost a1 = manager.assets@;
        assert(a1.contains_key(1));
        manager.add_asset(2, "USDT", 8);
        let ghost a2 = manager.assets@;
        assert(a2.contains_key(1) && a2.contains_key(2));
        manager.add_asset(3, "ETH", 8);
        proof {
            assert(manager.symbol_info@.dom() =~= set![0u32, 1u32]);
            assert(manager.assets@.dom() =~= set![1u32, 2u32, 3u32]);
        }
        manager
    }
}

impl Default for SymbolManager {
    fn default() -> (res: SymbolManager)
        ensures
            res.symbol_to_id@.len() == 0,
            res.id_to_symbol@.is_empty(),
            res.symbol_info@.is_empty(),
            res.assets@.is_empty(),
    {
        SymbolManager::new()
    }
}

} // verus!
