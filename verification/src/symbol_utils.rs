//! Names of the assets the exchange lists, and symbol names built from them.

use vstd::prelude::*;
use crate::text::{owned, u64_text, nat_text};

verus! {

/// Asset id of bitcoin.
pub const BTC: u32 = 1;
/// Asset id of tether.
pub const USDT: u32 = 2;
/// Asset id of ether.
pub const ETH: u32 = 3;

/// An asset id that is not listed, by the role it was asked for in.
#[derive(Debug, Clone, Copy, PartialEq, Eq, Structural)]
pub enum SymbolError {
    UnknownBaseAsset(u32),
    UnknownQuoteAsset(u32),
    UnknownAsset(u32),
}

/// The message of a symbol error.
pub open spec fn symbol_error_message(e: SymbolError) -> Seq<char> {
    match e {
        SymbolError::UnknownBaseAsset(a) => "Unknown base asset: "@ + nat_text(a as nat),
        SymbolError::UnknownQuoteAsset(a) => "Unknown quote asset: "@ + nat_text(a as nat),
        SymbolError::UnknownAsset(a) => "Unknown asset: "@ + nat_text(a as nat),
    }
}

impl SymbolError {
    /// The human-readable message of the error.
    pub fn message(&self) -> (res: String)
        ensures
            res@ == symbol_error_message(*self),
    {
        match self {
            SymbolError::UnknownBaseAsset(a) => owned("Unknown base asset: ").concat(u64_text(*a as u64).as_str()),
            SymbolError::UnknownQuoteAsset(a) => owned("Unknown quote asset: ").concat(u64_text(*a as u64).as_str()),
            SymbolError::UnknownAsset(a) => owned("Unknown asset: ").concat(u64_text(*a as u64).as_str()),
        }
    }
}

/// Lower-case name of a base asset, if it can be one (bitcoin or ether).
pub open spec fn base_name(a: u32) -> Option<Seq<char>> {
    if a == BTC { Some("btc"@) } else if a == ETH { Some("eth"@) } else { None }
}

/// Lower-case name of a quote asset, if it can be one (tether, bitcoin or ether).
pub open spec fn quote_name(a: u32) -> Option<Seq<char>> {
    if a == USDT { Some("usdt"@) } else if a == BTC { Some("btc"@) } else if a == ETH { Some("eth"@) } else { None }
}

/// Upper-case ticker of a listed asset.
pub open spec fn asset_ticker(a: u32) -> Option<Seq<char>> {
    if a == BTC { Some("BTC"@) } else if a == USDT { Some("USDT"@) } else if a == ETH { Some("ETH"@) } else { None }
}

/// The symbol name "base_quote" of a pair of assets, in lower case; the base
/// is checked first.
pub fn get_symbol_from_assets(base_asset: u32, quote_asset: u32) -> (res: Result<String, SymbolError>)
    ensures
        match (base_name(base_asset), quote_name(quote_asset)) {
            (Some(b), Some(q)) => res matches Ok(s) && s@ == b + "_"@ + q,
            (None, _) => res == Err::<String, SymbolError>(SymbolError::UnknownBaseAsset(base_asset)),
            (Some(_), None) => res == Err::<String, SymbolError>(SymbolError::UnknownQuoteAsset(quote_asset)),
        },
{
    let base: &str = if base_asset == BTC {
        "btc"
    } else if base_asset == ETH {
        "eth"
    } else {
        return Err(SymbolError::UnknownBaseAsset(base_asset));
    };
    let quote: &str = if quote_asset == USDT {
        "usdt"
    } else if quote_asset == BTC {
        "btc"
    } else if quote_asset == ETH {
        "eth"
    } else {
        return Err(SymbolError::UnknownQuoteAsset(quote_asset));
    };
    Ok(owned(base).concat("_").concat(quote))
}

/// The upper-case ticker of a listed asset.
pub fn get_asset_name(asset_id: u32) -> (res: Result<&'static str, SymbolError>)
    ensures
        match asset_ticker(asset_id) {
            Some(t) => res matches Ok(s) && s@ == t,
            None => res == Err::<&'static str, SymbolError>(SymbolError::UnknownAsset(asset_id)),
        },
{
    if asset_id == BTC {
        Ok("BTC")
    } else if asset_id == USDT {
        Ok("USDT")
    } else if asset_id == ETH {
        Ok("ETH")
    } else {
        Err(SymbolError::UnknownAsset(asset_id))
    }
}

} // verus!
