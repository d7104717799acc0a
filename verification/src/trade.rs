//! The trade as the rest of a program sees it, whatever exchange it came
//! from.

use vstd::prelude::*;
use crate::decimal::is_decimal;

verus! {

/// What a source of trades offers: the history of one pair from a cursor on.
pub trait TradeAPI {
    fn history(&self, pair: String, since: u64);
}

/// A market: the currency that is traded and the currency it is priced in.
#[derive(Debug, PartialEq, Eq)]
pub struct TradeSymbol {
    pub base_currency: String,
    pub quote_currency: String,
}

/// A [`TradeSymbol`] as a mathematical value.
pub struct TradeSymbolView {
    pub base_currency: Seq<char>,
    pub quote_currency: Seq<char>,
}

impl View for TradeSymbol {
    type V = TradeSymbolView;

    open spec fn view(&self) -> TradeSymbolView {
        TradeSymbolView {
            base_currency: self.base_currency@,
            quote_currency: self.quote_currency@,
        }
    }
}

impl TradeSymbolView {
    /// The name under which the pair is asked for: base, then quote.
    pub open spec fn pair(self) -> Seq<char> {
        self.base_currency + self.quote_currency
    }
}

impl Clone for TradeSymbol {
    fn clone(&self) -> (r: Self)
        ensures
            r@ == self@,
    {
        TradeSymbol {
            base_currency: self.base_currency.clone(),
            quote_currency: self.quote_currency.clone(),
        }
    }
}

impl TradeSymbol {
    /// The name under which the pair is asked for, as in `ETHEUR`.
    pub fn pair(&self) -> (r: String)
        ensures
            r@ == self@.pair(),
    {
        self.base_currency.clone().concat(self.quote_currency.as_str())
    }
}

/// One trade. Price and volume are decimal numbers, kept as the text in
/// which they were sent; the time is in ten-thousandths of a second since
/// the Unix epoch.
#[derive(Debug, PartialEq, Eq)]
pub struct Trade {
    pub symbol: TradeSymbol,
    pub price: String,
    pub volume: String,
    pub timestamp: u64,
}

/// A [`Trade`] as a mathematical value.
pub struct TradeView {
    pub symbol: TradeSymbolView,
    pub price: Seq<char>,
    pub volume: Seq<char>,
    pub timestamp: u64,
}

impl View for Trade {
    type V = TradeView;

    open spec fn view(&self) -> TradeView {
        TradeView {
            symbol: self.symbol@,
            price: self.price@,
            volume: self.volume@,
            timestamp: self.timestamp,
        }
    }
}

impl TradeView {
    /// Price and volume are decimal numbers.
    pub open spec fn wf(self) -> bool {
        is_decimal(self.price) && is_decimal(self.volume)
    }
}

impl Clone for Trade {
    fn clone(&self) -> (r: Self)
        ensures
            r@ == self@,
    {
        Trade {
            symbol: self.symbol.clone(),
            price: self.price.clone(),
            volume: self.volume.clone(),
            timestamp: self.timestamp,
        }
    }
}

/// The views of a sequence of trades.
pub open spec fn trade_views(v: Seq<Trade>) -> Seq<TradeView> {
    Seq::new(v.len(), |i: int| v[i]@)
}

} // verus!
