use vstd::prelude::*;

verus! {

/// A single OHLCV bar. `V` is the numeric type of prices and volumes; the
/// library stores and forwards such values and never computes with them.
#[derive(Debug, Clone)]
pub struct Candle<V> {
    /// Microseconds since the Unix epoch.
    pub timestamp: i64,
    /// Display form of the bar's opening time.
    pub datetime: String,
    pub open: V,
    pub high: V,
    pub low: V,
    pub close: V,
    pub volume: V,
}

/// One bid/ask quote in row form.
#[derive(Debug, Clone)]
pub struct TickData<V> {
    pub datetime: String,
    pub bid: V,
    pub ask: V,
    pub volume: V,
}

/// A batch of quotes in column form: entry `k` of each column belongs to
/// quote `k`.
pub struct TickColumns<V> {
    /// Microseconds since the Unix epoch.
    pub timestamps: Vec<i64>,
    pub bids: Vec<V>,
    pub asks: Vec<V>,
}

impl<V> TickColumns<V> {
    /// The three columns have one length.
    pub open spec fn wf(&self) -> bool {
        &&& self.bids@.len() == self.timestamps@.len()
        &&& self.asks@.len() == self.timestamps@.len()
    }

    /// Number of quotes, as counted by the timestamp column.
    pub fn len(&self) -> (n: usize)
        ensures
            n == self.timestamps@.len(),
    {
        self.timestamps.len()
    }
}

} // verus!
