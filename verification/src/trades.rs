//! Trade prints from the wire and the trade-derived slice of an observation.
//! Prices and quantities are fixed-point atoms; times are milliseconds since
//! the epoch.
use vstd::prelude::*;
use crate::ATOM_MAX;

verus! {

/// One trade print.
#[derive(Clone, Debug)]
pub struct Trade {
    pub event_type: String,
    pub event_time: i64,
    pub trade_time: i64,
    pub symbol: String,
    pub trade_id: i64,
    pub price: u64,
    pub quantity: u64,
    pub x: Option<String>,
    pub buyer_is_the_market_maker: bool,
}

/// The trade-derived slice of an observation. `net_qty` is the quantity
/// signed by aggressor side; `notional` is price times quantity, in squared
/// atoms.
#[derive(Clone, Copy, Debug, PartialEq, Eq, Structural)]
pub struct TradeFeatures {
    pub timestamp: i64,
    pub price: u64,
    pub net_qty: i128,
    pub notional: i128,
}

impl Trade {
    /// Price and quantity are within the fixed-point range.
    pub open spec fn wf(self) -> bool {
        self.price <= ATOM_MAX && self.quantity <= ATOM_MAX
    }

    /// Derives the trade features: the trade time, the price, the quantity
    /// signed negative when the buyer was the maker (a sell aggressor), and
    /// the notional.
    pub fn to_features(&self) -> (r: TradeFeatures)
        requires
            self.wf(),
        ensures
            r.timestamp == self.trade_time,
            r.price == self.price,
            r.net_qty == if self.buyer_is_the_market_maker {
                -(self.quantity as int)
            } else {
                self.quantity as int
            },
            r.notional == self.price * self.quantity,
    {
        proof {
            assert(0 <= (self.price as int) * (self.quantity as int)
                <= 0x10_0000_0000_0000_0000_0000_0000int) by (nonlinear_arith)
                requires
                    0 <= self.price <= ATOM_MAX,
                    0 <= self.quantity <= ATOM_MAX,
            ;
        }
        TradeFeatures {
            timestamp: self.trade_time,
            price: self.price,
            net_qty: if self.buyer_is_the_market_maker {
                -(self.quantity as i128)
            } else {
                self.quantity as i128
            },
            notional: (self.price as i128) * (self.quantity as i128),
        }
    }
}

} // verus!
