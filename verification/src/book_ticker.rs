//! Best bid/ask snapshots from the book-ticker stream. Prices and sizes are
//! fixed-point atoms.
use vstd::prelude::*;

verus! {

/// One best-bid/best-ask snapshot.
#[derive(Clone, Debug)]
pub struct BookTicker {
    pub orderbook_update_id: i64,
    pub symbol: String,
    pub bid: u64,
    pub bid_size: u64,
    pub ask: u64,
    pub ask_size: u64,
}

} // verus!
