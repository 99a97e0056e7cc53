use vstd::prelude::*;
use crate::models::strategy::TradeDirection;

verus! {

/// Why a trade was closed.
#[derive(Debug, Clone, Copy, PartialEq, Eq, Structural)]
pub enum CloseReason {
    Signal,
    StopLoss,
    TakeProfit,
    TrailingStop,
    EndOfData,
    TimeClose,
}

/// A completed trade.
#[derive(Debug, Clone)]
pub struct TradeResult<V> {
    pub id: String,
    pub direction: TradeDirection,
    /// Display form of the entry time.
    pub entry_time: String,
    /// Entry time in microseconds since the Unix epoch.
    pub entry_timestamp: i64,
    pub entry_price: V,
    /// Display form of the exit time.
    pub exit_time: String,
    /// Exit time in microseconds since the Unix epoch.
    pub exit_timestamp: i64,
    pub exit_price: V,
    pub lots: V,
    pub pnl: V,
    pub pnl_pips: V,
    pub commission: V,
    pub close_reason: CloseReason,
    pub duration_bars: usize,
    pub duration_time: String,
    pub mae: V,
    pub mfe: V,
}

} // verus!
