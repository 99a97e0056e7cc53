//! The engine of a trading-strategy backtester, verified with Verus.
//!
//! The engine replays a rule-based strategy over a series of bars: it
//! evaluates entry and exit rules, manages at most one open position with
//! stop-loss, take-profit and trailing stop, records every closed trade and
//! the equity curve, and computes metrics. A search layer enumerates
//! parameter grids, breeds populations, has the candidates run on worker
//! threads, ranks the results and re-runs the best out of sample.
//!
//! The engine is generic in the type `V` of its numbers. It decides which
//! values are compared or combined, in which order, and what follows from
//! each outcome; the arithmetic itself is handed in through the trait
//! `engine::numeric::Numbers`, and the draws on values of a genetic search
//! through `engine::optimizer::Chance`. Every decision is a function with
//! an exact contract; every loop is proved to stay within its data, to
//! terminate, and to keep the invariants of the run. What a contract says
//! of values that the arithmetic yields holds whatever it yields.

pub mod calendar;
pub mod columns;
pub mod engine;
pub mod errors;
pub mod models;
pub mod text;
pub mod timestamp;
