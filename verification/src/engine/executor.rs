use vstd::prelude::*;
use vstd::string::StringExecFns;
use std::sync::atomic::AtomicBool;
use crate::calendar::EARLIEST_DAY;
use crate::engine::channels::atr_made;
use crate::engine::indicators::{
    bars_needed, clip, closes_of, compute_indicator, highs_of, lines_made, lows_of, missing_param,
    primary_warmup, validation_of,
};
use crate::engine::metrics::{
    bar_minutes, calculate_metrics, drawdown_pct, drawdown_pct_of, duration_text, format_bars,
    metrics_of, minutes_of,
};
use crate::engine::numeric::{adds, ints, pick, relates, subs, Mark, Numbers, Relation};
use crate::engine::orders::{
    apply_entry_costs, apply_exit_costs, calculate_commission, calculate_pnl, calculate_pnl_pips,
    commission_of, entry_cost_of, exit_cost_of, pnl_of, pnl_pips_of,
};
use crate::engine::position::{
    calculate_lots, calculate_stop_loss, calculate_take_profit, calculate_trailing_stop_distance,
    check_sl_tp_hit, check_tick_sl_tp, excursions_recorded, levels_checked, long_side, lots_of,
    sl_tp_outcome, stop_loss_of, take_profit_of, tick_levels_checked, tick_outcome, trailed,
    trailing_distance_of, update_mae_mfe,
    update_mae_mfe_tick, update_trailing_stop, update_trailing_stop_tick, OpenPosition,
};
use crate::engine::series::{blank_before, entry_at, present_from, read_entry, relation};
use crate::engine::strategy::{
    all_valid, atr_period_needed, atr_period_of, cache_of, compute_candle_pattern_cache,
    compute_daily_ohlc, compute_time_cache, daily_levels_of, day_levels_run, detected,
    evaluate_rules, fails_with, flags_of, lookback_of, max_lookback, pre_compute_indicators,
    rules_read_daily, rules_value, strategy_reads_indicators, strategy_uses,
    strategy_uses_candle_patterns, strategy_uses_daily_prices, strategy_uses_time_fields,
    time_cached, CandlePatternCache, DailyOhlcCache, IndicatorCache, IndicatorUse, TimeCache,
};
use crate::errors::AppError;
use crate::models::candle::{Candle, TickColumns};
use crate::models::config::InstrumentConfig;
use crate::models::result::{BacktestResults, DrawdownPoint, EquityPoint};
use crate::models::strategy::{
    BacktestConfig, CloseTradesAt, IndicatorConfig, IndicatorParams, IndicatorType, OperandType,
    Rule, Strategy, TradeDirection, TradingHours,
};
use crate::models::trade::{CloseReason, TradeResult};
use crate::timestamp::{
    day_micros_of, day_number, day_number_of, extract_hour_minute, fallback_text,
    micros_to_datetime_string, renders, shown_instant,
};

verus! {

/// Data finer than the bars of the selected timeframe, used to resolve exits
/// within a bar.
pub enum SubBarData<V> {
    /// No finer data: exits are resolved against the bars themselves.
    Absent,
    /// Finer candles.
    Candles(Vec<Candle<V>>),
    /// Quotes in column form.
    Ticks(TickColumns<V>),
}

impl<V> SubBarData<V> {
    /// The timestamps of the stream, in order; empty where there is none.
    pub open spec fn timestamps(&self) -> Seq<i64> {
        match self {
            SubBarData::Absent => Seq::<i64>::empty(),
            SubBarData::Candles(subs) => Seq::new(subs@.len(), |k: int| subs@[k].timestamp),
            SubBarData::Ticks(ticks) => ticks.timestamps@,
        }
    }

    /// The columns of a quote stream have one length.
    pub open spec fn wf(&self) -> bool {
        match self {
            SubBarData::Ticks(ticks) => ticks.wf(),
            _ => true,
        }
    }

    /// Number of entries of the stream.
    pub fn len(&self) -> (n: usize)
        ensures
            n == self.timestamps().len(),
    {
        match self {
            SubBarData::Absent => 0,
            SubBarData::Candles(subs) => subs.len(),
            SubBarData::Ticks(ticks) => ticks.len(),
        }
    }

    /// The timestamp of entry `k`.
    pub fn timestamp_at(&self, k: usize) -> (t: i64)
        requires
            k < self.timestamps().len(),
        ensures
            t == self.timestamps()[k as int],
    {
        match self {
            SubBarData::Absent => 0,
            SubBarData::Candles(subs) => subs[k].timestamp,
            SubBarData::Ticks(ticks) => ticks.timestamps[k],
        }
    }
}

/// `r` is the first position at or after `from` whose timestamp is not
/// before `bound`, or the end of the stream if there is none.
pub open spec fn first_at_or_after(ts: Seq<i64>, from: int, bound: int, r: int) -> bool {
    &&& from <= r <= ts.len()
    &&& forall|k: int| from <= k < r ==> ts[k] < bound
    &&& (r < ts.len() ==> ts[r] >= bound)
}

/// Timestamps that never decrease.
pub open spec fn non_decreasing(ts: Seq<i64>) -> bool {
    forall|a: int, b: int| 0 <= a <= b < ts.len() ==> ts[a] <= ts[b]
}

/// Moves past every entry from `from` on whose timestamp is before `bound`.
fn skip_before<V>(sub_bars: &SubBarData<V>, from: usize, bound: i64) -> (r: usize)
    requires
        from <= sub_bars.timestamps().len(),
    ensures
        first_at_or_after(sub_bars.timestamps(), from as int, bound as int, r as int),
{
    let total: usize = sub_bars.len();
    let mut at: usize = from;
    while at < total && sub_bars.timestamp_at(at) < bound
        invariant
            from <= at <= total,
            total == sub_bars.timestamps().len(),
            forall|k: int| from <= k < at ==> sub_bars.timestamps()[k] < bound,
        decreases total - at,
    {
        at += 1;
    }
    at
}

/// What `find_subbar_range` returns and where it leaves the cursor: the
/// range starts at the first entry at or after the cursor that is not before
/// the bar, and ends at the first entry from there on that is not before the
/// next bar, or at the end of the stream when `next_ts` is the largest
/// timestamp, which stands for "no next bar". The cursor is left at the end
/// of the range. Without a stream the range is empty and the cursor stays.
pub open spec fn subbar_range<V>(sub_bars: &SubBarData<V>, cursor: int, candle_ts: int, next_ts: int, range: (usize, usize), after: int) -> bool {
    if sub_bars is Absent {
        range == (0usize, 0usize) && after == cursor
    } else {
        &&& first_at_or_after(sub_bars.timestamps(), cursor, candle_ts, range.0 as int)
        &&& if next_ts < i64::MAX {
            first_at_or_after(sub_bars.timestamps(), range.0 as int, next_ts, range.1 as int)
        } else {
            range.1 == sub_bars.timestamps().len()
        }
        &&& after == range.1
    }
}

/// Finds the range of sub-bars that belongs to a bar and advances the
/// cursor to its end. Over a whole run the cursor only ever moves forward,
/// so each sub-bar is passed once.
pub fn find_subbar_range<V>(sub_bars: &SubBarData<V>, cursor: &mut usize, candle_ts: i64, next_ts: i64) -> (range: (usize, usize))
    requires
        *old(cursor) <= sub_bars.timestamps().len(),
    ensures
        subbar_range(sub_bars, *old(cursor) as int, candle_ts as int, next_ts as int, range, *final(cursor) as int),
        *old(cursor) <= *final(cursor) <= sub_bars.timestamps().len(),
        range.0 <= range.1 <= sub_bars.timestamps().len(),
{
    match sub_bars {
        SubBarData::Absent => (0, 0),
        _ => {
            let start: usize = skip_before(sub_bars, *cursor, candle_ts);
            let end: usize = if next_ts < i64::MAX {
                skip_before(sub_bars, start, next_ts)
            } else {
                sub_bars.len()
            };
            *cursor = end;
            (start, end)
        },
    }
}

/// On sorted streams the range of a bar holds exactly the sub-bars from the
/// cursor on that lie within the bar's interval, provided everything before
/// the cursor lies before the bar.
pub proof fn lemma_range_is_interval<V>(sub_bars: &SubBarData<V>, cursor: int, candle_ts: int, next_ts: int, range: (usize, usize), after: int)
    requires
        !(sub_bars is Absent),
        subbar_range(sub_bars, cursor, candle_ts, next_ts, range, after),
        non_decreasing(sub_bars.timestamps()),
        candle_ts <= next_ts,
        0 <= cursor,
    ensures
        forall|k: int| cursor <= k < sub_bars.timestamps().len() ==> (range.0 <= k < range.1 <==> candle_ts <= #[trigger] sub_bars.timestamps()[k] && (next_ts < i64::MAX ==> sub_bars.timestamps()[k] < next_ts)),
{
    let ts = sub_bars.timestamps();
    assert forall|k: int| cursor <= k < ts.len() implies (range.0 <= k < range.1 <==> candle_ts <= #[trigger] ts[k] && (next_ts < i64::MAX ==> ts[k] < next_ts)) by {
        if k < range.0 {
            assert(ts[k] < candle_ts);
        } else if k < range.1 {
            assert(ts[range.0 as int] <= ts[k]);
        } else {
            if next_ts < i64::MAX {
                assert(ts[range.1 as int] <= ts[k]);
            }
        }
    }
}

/// An exit that fired within a bar: the fill price, the time of the bar,
/// sub-bar or quote on which it fired, and the reason.
pub struct ExitTrigger<V> {
    pub price: V,
    pub time: String,
    pub timestamp: i64,
    pub reason: CloseReason,
}

/// What an exit check may change of a position: the stop, the running
/// extremes and the excursions. Entry, size, target and trailing distance
/// stay.
pub open spec fn keeps_entry<V>(before: OpenPosition<V>, after: OpenPosition<V>) -> bool {
    &&& after.direction == before.direction
    &&& after.entry_price == before.entry_price
    &&& after.entry_bar == before.entry_bar
    &&& after.entry_time == before.entry_time
    &&& after.entry_timestamp == before.entry_timestamp
    &&& after.lots == before.lots
    &&& after.take_profit == before.take_profit
    &&& after.trailing_stop_distance == before.trailing_stop_distance
}

/// A stop-loss is there only if it was there before or the position trails
/// its stop; the target is untouched by `keeps_entry`.
pub open spec fn stop_came_from<V>(before: OpenPosition<V>, after: OpenPosition<V>) -> bool {
    after.stop_loss is Some ==> before.stop_loss is Some || before.trailing_stop_distance is Some
}

/// An exit trigger is a stop or a target.
pub open spec fn stop_or_target(reason: CloseReason) -> bool {
    reason == CloseReason::StopLoss || reason == CloseReason::TakeProfit
}

/// `after` is the position with the excursions of `candle` recorded, and
/// `hit` is what its stop and target come to on the candle.
pub open spec fn bar_checked<V, N: Numbers<V>>(numbers: &N, before: OpenPosition<V>, candle: &Candle<V>, instrument: &InstrumentConfig<V>, hit: Option<(V, CloseReason)>, after: OpenPosition<V>) -> bool {
    &&& excursions_recorded(
        numbers,
        before,
        pick(long_side(before.direction), candle.low, candle.high),
        pick(long_side(before.direction), candle.high, candle.low),
        instrument.pip_size,
        after,
    )
    &&& levels_checked(numbers, &after, candle, hit)
}

/// `after` is the position after one finer candle: its excursions are
/// recorded and its levels checked; where neither fired, its trailing stop
/// follows the candle's high (long) or low (short).
pub open spec fn candle_walked<V, N: Numbers<V>>(numbers: &N, before: OpenPosition<V>, candle: &Candle<V>, instrument: &InstrumentConfig<V>, hit: Option<(V, CloseReason)>, after: OpenPosition<V>) -> bool {
    exists|marked: OpenPosition<V>| #[trigger]
        bar_checked(numbers, before, candle, instrument, hit, marked) && (if hit is Some {
            after == marked
        } else {
            trailed(numbers, marked, pick(long_side(marked.direction), candle.high, candle.low), after)
        })
}

/// `states` holds the position before the candle `start` and after each of
/// the candles up to `upto`, none of which fired an exit.
pub open spec fn candles_walked<V, N: Numbers<V>>(numbers: &N, first: OpenPosition<V>, candles: Seq<Candle<V>>, start: int, upto: int, instrument: &InstrumentConfig<V>, states: Seq<OpenPosition<V>>) -> bool {
    &&& states.len() == upto - start + 1
    &&& states[0] == first
    &&& forall|k: int| 0 <= k < upto - start ==> candle_walked(numbers, #[trigger] states[k], &candles[start + k], instrument, None, states[k + 1])
}

/// What a walk over the candles `start..end` comes to. Without a trigger
/// every candle was walked and `last` is the position after the last. A
/// trigger comes from the first candle on which a level fired, carries its
/// time, and `last` is the position on that candle.
pub open spec fn candle_walk_result<V, N: Numbers<V>>(numbers: &N, first: OpenPosition<V>, candles: Seq<Candle<V>>, start: int, end: int, instrument: &InstrumentConfig<V>, last: OpenPosition<V>, r: Option<ExitTrigger<V>>) -> bool {
    match r {
        None => exists|states: Seq<OpenPosition<V>>| #[trigger] candles_walked(numbers, first, candles, start, end, instrument, states) && last == states[end - start],
        Some(t) => exists|k: int, states: Seq<OpenPosition<V>>|
            {
                &&& start <= k < end
                &&& #[trigger] candles_walked(numbers, first, candles, start, k, instrument, states)
                &&& candle_walked(numbers, states[k - start], &candles[k], instrument, Some((t.price, t.reason)), last)
                &&& t.timestamp == candles[k].timestamp
                &&& t.time == candles[k].datetime
            },
    }
}

/// Walks the finer candles `start..end` of a bar: on each, updates the
/// excursions, checks stop and target against the stop as it stands, and,
/// if neither fired, moves the trailing stop for the next one.
///
/// Whatever the arithmetic yields: a trigger carries the time of one of the
/// candles walked, and an empty range leaves the position alone.
pub fn process_subbars_candle<V: Copy, N: Numbers<V>>(
    numbers: &N,
    pos: &mut OpenPosition<V>,
    sub_candles: &Vec<Candle<V>>,
    start: usize,
    end: usize,
    instrument: &InstrumentConfig<V>,
) -> (r: Option<ExitTrigger<V>>)
    requires
        start <= end <= sub_candles@.len(),
    ensures
        candle_walk_result(numbers, *old(pos), sub_candles@, start as int, end as int, instrument, *final(pos), r),
        keeps_entry(*old(pos), *final(pos)),
        stop_came_from(*old(pos), *final(pos)),
        start == end ==> r is None && *final(pos) == *old(pos),
        r is Some ==> stop_or_target(r->Some_0.reason) && exists|k: int|
            {
                &&& start <= k < end
                &&& r->Some_0.timestamp == (#[trigger] sub_candles@[k]).timestamp
                &&& r->Some_0.time == sub_candles@[k].datetime
                &&& sl_tp_outcome(final(pos), &sub_candles@[k], Some((r->Some_0.price, r->Some_0.reason)))
            },
{
    let ghost first = *pos;
    let ghost mut states: Seq<OpenPosition<V>> = seq![first];
    let mut i: usize = start;
    while i < end
        invariant
            start <= i <= end <= sub_candles@.len(),
            keeps_entry(*old(pos), *pos),
            stop_came_from(*old(pos), *pos),
            start == end ==> *pos == *old(pos),
            first == *old(pos),
            candles_walked(numbers, first, sub_candles@, start as int, i as int, instrument, states),
            states[i - start] == *pos,
        decreases end - i,
    {
        let ghost earlier = states;
        let ghost before = *pos;
        let sc = &sub_candles[i];
        update_mae_mfe(numbers, pos, sc, instrument);
        let ghost marked = *pos;
        let hit = check_sl_tp_hit(numbers, pos, sc);
        assert(bar_checked(numbers, before, &sub_candles@[i as int], instrument, hit, marked));
        if let Some((exit_price, reason)) = hit {
            assert(sl_tp_outcome(pos, &sub_candles@[i as int], Some((exit_price, reason))));
            let trigger = ExitTrigger { price: exit_price, time: sc.datetime.clone(), timestamp: sc.timestamp, reason };
            proof {
                assert(candle_walked(numbers, states[i - start], &sub_candles@[i as int], instrument, Some((trigger.price, trigger.reason)), *pos));
                assert(candle_walk_result(numbers, first, sub_candles@, start as int, end as int, instrument, *pos, Some(trigger)));
            }
            return Some(trigger);
        }
        update_trailing_stop(numbers, pos, sc);
        proof {
            assert(candle_walked(numbers, before, &sub_candles@[i as int], instrument, None, *pos));
            states = earlier.push(*pos);
            assert forall|k: int| 0 <= k < i + 1 - start implies candle_walked(numbers, #[trigger] states[k], &sub_candles@[start + k], instrument, None, states[k + 1]) by {
                if k < i - start {
                    assert(candle_walked(numbers, earlier[k], &sub_candles@[start + k], instrument, None, earlier[k + 1]));
                }
            }
        }
        i += 1;
    }
    assert(candle_walk_result(numbers, first, sub_candles@, start as int, end as int, instrument, *pos, None));
    None
}

/// `after` is the position after one quote: its excursions are recorded at
/// the exit price of the quote, the bid (long) or the ask (short), and its
/// levels checked; where neither fired, its trailing stop follows that
/// price.
pub open spec fn tick_walked<V, N: Numbers<V>>(numbers: &N, before: OpenPosition<V>, bid: V, ask: V, instrument: &InstrumentConfig<V>, hit: Option<(V, CloseReason)>, after: OpenPosition<V>) -> bool {
    exists|marked: OpenPosition<V>| #[trigger]
        excursions_recorded(
            numbers,
            before,
            pick(long_side(before.direction), bid, ask),
            pick(long_side(before.direction), bid, ask),
            instrument.pip_size,
            marked,
        ) && tick_levels_checked(numbers, &marked, bid, ask, hit) && (if hit is Some {
            after == marked
        } else {
            trailed(numbers, marked, pick(long_side(marked.direction), bid, ask), after)
        })
}

/// `states` holds the position before the quote `start` and after each of
/// the quotes up to `upto`, none of which fired an exit.
pub open spec fn ticks_walked<V, N: Numbers<V>>(numbers: &N, first: OpenPosition<V>, ticks: &TickColumns<V>, start: int, upto: int, instrument: &InstrumentConfig<V>, states: Seq<OpenPosition<V>>) -> bool {
    &&& states.len() == upto - start + 1
    &&& states[0] == first
    &&& forall|k: int| 0 <= k < upto - start ==> tick_walked(numbers, #[trigger] states[k], ticks.bids@[start + k], ticks.asks@[start + k], instrument, None, states[k + 1])
}

/// What a walk over the quotes `start..end` comes to. Without a trigger
/// every quote was walked and `last` is the position after the last. A
/// trigger comes from the first quote on which a level fired, carries its
/// time as text, and `last` is the position on that quote.
pub open spec fn tick_walk_result<V, N: Numbers<V>>(numbers: &N, first: OpenPosition<V>, ticks: &TickColumns<V>, start: int, end: int, instrument: &InstrumentConfig<V>, last: OpenPosition<V>, r: Option<ExitTrigger<V>>) -> bool {
    match r {
        None => exists|states: Seq<OpenPosition<V>>| #[trigger] ticks_walked(numbers, first, ticks, start, end, instrument, states) && last == states[end - start],
        Some(t) => exists|k: int, states: Seq<OpenPosition<V>>|
            {
                &&& start <= k < end
                &&& #[trigger] ticks_walked(numbers, first, ticks, start, k, instrument, states)
                &&& tick_walked(numbers, states[k - start], ticks.bids@[k], ticks.asks@[k], instrument, Some((t.price, t.reason)), last)
                &&& t.timestamp == ticks.timestamps@[k]
                &&& exit_time_text(t.timestamp as int, t.time@)
            },
    }
}

/// Walks the quotes `start..end` of a bar. A long position is valued and
/// exits at the bid, a short one at the ask. On each quote: updates the
/// excursions, checks the stop, then the target, and, if neither fired,
/// moves the trailing stop. The exit time is the quote's timestamp, written
/// as calendar text.
///
/// Whatever the arithmetic yields: a trigger carries the time of one of the
/// quotes walked, and an empty range leaves the position alone.
pub fn process_subbars_tick_columnar<V: Copy, N: Numbers<V>>(
    numbers: &N,
    pos: &mut OpenPosition<V>,
    ticks: &TickColumns<V>,
    start: usize,
    end: usize,
    instrument: &InstrumentConfig<V>,
) -> (r: Option<ExitTrigger<V>>)
    requires
        ticks.wf(),
        start <= end <= ticks.timestamps@.len(),
    ensures
        tick_walk_result(numbers, *old(pos), ticks, start as int, end as int, instrument, *final(pos), r),
        keeps_entry(*old(pos), *final(pos)),
        stop_came_from(*old(pos), *final(pos)),
        start == end ==> r is None && *final(pos) == *old(pos),
        r is Some ==> stop_or_target(r->Some_0.reason) && exists|k: int|
            {
                &&& start <= k < end
                &&& r->Some_0.timestamp == #[trigger] ticks.timestamps@[k]
                &&& exit_time_text(r->Some_0.timestamp as int, r->Some_0.time@)
                &&& tick_outcome(final(pos), ticks.bids@[k], ticks.asks@[k], Some((r->Some_0.price, r->Some_0.reason)))
            },
{
    let ghost first = *pos;
    let ghost mut states: Seq<OpenPosition<V>> = seq![first];
    let mut j: usize = start;
    while j < end
        invariant
            ticks.wf(),
            start <= j <= end <= ticks.timestamps@.len(),
            keeps_entry(*old(pos), *pos),
            stop_came_from(*old(pos), *pos),
            start == end ==> *pos == *old(pos),
            first == *old(pos),
            ticks_walked(numbers, first, ticks, start as int, j as int, instrument, states),
            states[j - start] == *pos,
        decreases end - j,
    {
        let ghost earlier = states;
        let ghost before = *pos;
        let bid = ticks.bids[j];
        let ask = ticks.asks[j];
        update_mae_mfe_tick(numbers, pos, bid, ask, instrument);
        let ghost marked = *pos;
        let hit = check_tick_sl_tp(numbers, pos, bid, ask);
        if let Some((exit_price, reason)) = hit {
            let timestamp: i64 = ticks.timestamps[j];
            let time = micros_to_datetime_string(timestamp);
            proof {
                reveal(exit_time_text);
            }
            assert(tick_outcome(pos, ticks.bids@[j as int], ticks.asks@[j as int], Some((exit_price, reason))));
            let trigger = ExitTrigger { price: exit_price, time, timestamp, reason };
            proof {
                assert(tick_walked(numbers, states[j - start], ticks.bids@[j as int], ticks.asks@[j as int], instrument, Some((trigger.price, trigger.reason)), *pos));
                assert(tick_walk_result(numbers, first, ticks, start as int, end as int, instrument, *pos, Some(trigger)));
            }
            return Some(trigger);
        }
        update_trailing_stop_tick(numbers, pos, bid, ask);
        proof {
            assert(tick_walked(numbers, before, ticks.bids@[j as int], ticks.asks@[j as int], instrument, None, *pos));
            states = earlier.push(*pos);
            assert forall|k: int| 0 <= k < j + 1 - start implies tick_walked(numbers, #[trigger] states[k], ticks.bids@[start + k], ticks.asks@[start + k], instrument, None, states[k + 1]) by {
                if k < j - start {
                    assert(tick_walked(numbers, earlier[k], ticks.bids@[start + k], ticks.asks@[start + k], instrument, None, earlier[k + 1]));
                }
            }
        }
        j += 1;
    }
    assert(tick_walk_result(numbers, first, ticks, start as int, end as int, instrument, *pos, None));
    None
}

/// `text` is what the time `micros` of an exit is written as: the calendar
/// text of the instant shown for it, or the fallback where that lies
/// before the calendar.
#[verifier::opaque]
pub open spec fn exit_time_text(micros: int, text: Seq<char>) -> bool {
    if day_number_of(shown_instant(micros)) >= EARLIEST_DAY {
        renders(shown_instant(micros), text)
    } else {
        text == fallback_text(micros)
    }
}

/// Where the time of an exit trigger comes from: without sub-bars it is the
/// bar's own time, else the time of one of the bar's sub-bars.
pub open spec fn trigger_time<V>(sub_bars: &SubBarData<V>, candle: &Candle<V>, start: int, end: int, timestamp: i64) -> bool {
    if sub_bars is Absent {
        timestamp == candle.timestamp
    } else {
        exists|k: int| start <= k < end && timestamp == #[trigger] sub_bars.timestamps()[k]
    }
}

/// What the resolution of an exit within one bar comes to: without
/// sub-bars the bar itself is checked, and a trigger carries the bar's
/// time; else it is the result of the walk over the bar's range of finer
/// candles or of quotes.
pub open spec fn exit_resolved<V, N: Numbers<V>>(
    numbers: &N,
    before: OpenPosition<V>,
    candle: &Candle<V>,
    sub_bars: &SubBarData<V>,
    sub_start: int,
    sub_end: int,
    instrument: &InstrumentConfig<V>,
    after: OpenPosition<V>,
    r: Option<ExitTrigger<V>>,
) -> bool {
    match *sub_bars {
        SubBarData::Absent => match r {
            None => bar_checked(numbers, before, candle, instrument, None, after),
            Some(t) => bar_checked(numbers, before, candle, instrument, Some((t.price, t.reason)), after) && t.timestamp == candle.timestamp && t.time == candle.datetime,
        },
        SubBarData::Candles(subs) => candle_walk_result(numbers, before, subs@, sub_start, sub_end, instrument, after, r),
        SubBarData::Ticks(ticks) => tick_walk_result(numbers, before, &ticks, sub_start, sub_end, instrument, after, r),
    }
}

/// Resolves a stop or target exit of an open position within one bar:
/// against the bar itself where there are no sub-bars, else against the
/// bar's range of the sub-bar stream.
///
/// Whatever the arithmetic yields: a trigger is a stop or a target and
/// carries a time from the bar or its range.
pub fn resolve_exit<V: Copy, N: Numbers<V>>(
    numbers: &N,
    pos: &mut OpenPosition<V>,
    candle: &Candle<V>,
    sub_bars: &SubBarData<V>,
    sub_start: usize,
    sub_end: usize,
    instrument: &InstrumentConfig<V>,
) -> (r: Option<ExitTrigger<V>>)
    requires
        sub_bars.wf(),
        sub_bars is Absent || sub_start <= sub_end <= sub_bars.timestamps().len(),
    ensures
        exit_resolved(numbers, *old(pos), candle, sub_bars, sub_start as int, sub_end as int, instrument, *final(pos), r),
        keeps_entry(*old(pos), *final(pos)),
        stop_came_from(*old(pos), *final(pos)),
        r is Some ==> stop_or_target(r->Some_0.reason) && trigger_time(
            sub_bars,
            candle,
            sub_start as int,
            sub_end as int,
            r->Some_0.timestamp,
        ),
        r is Some && r->Some_0.reason == CloseReason::StopLoss ==> final(pos).stop_loss is Some,
        r is Some && r->Some_0.reason == CloseReason::TakeProfit ==> final(pos).take_profit is Some,
{
    match sub_bars {
        SubBarData::Absent => {
            update_mae_mfe(numbers, pos, candle, instrument);
            match check_sl_tp_hit(numbers, pos, candle) {
                Some((price, reason)) => Some(
                    ExitTrigger { price, time: candle.datetime.clone(), timestamp: candle.timestamp, reason },
                ),
                None => None,
            }
        },
        SubBarData::Candles(subs) => {
            let r = process_subbars_candle(numbers, pos, subs, sub_start, sub_end, instrument);
            proof {
                if r is Some {
                    let k = choose|k: int|
                        {
                            &&& sub_start <= k < sub_end
                            &&& r->Some_0.timestamp == (#[trigger] subs@[k]).timestamp
                            &&& r->Some_0.time == subs@[k].datetime
                            &&& sl_tp_outcome(pos, &subs@[k], Some((r->Some_0.price, r->Some_0.reason)))
                        };
                    assert(sub_bars.timestamps()[k] == subs@[k].timestamp);
                }
            }
            r
        },
        SubBarData::Ticks(ticks) => process_subbars_tick_columnar(numbers, pos, ticks, sub_start, sub_end, instrument),
    }
}

/// A fresh identifier for a trade.
///
/// Calls `uuid::Uuid::new_v4` and writes the identifier in its hyphenated
/// form, which has 36 characters. Which identifier comes is left open.
#[verifier::external_body]
fn new_trade_id() -> (id: String)
    ensures
        id@.len() == 36,
{
    uuid::Uuid::new_v4().to_string()
}

/// Formats a duration in bars as a short human text.
pub fn format_duration_bars(bars: usize, minutes_per_bar: u32) -> (s: String)
    ensures
        s@ == duration_text(minutes_of(bars as int, minutes_per_bar as int)),
{
    format_bars(bars, minutes_per_bar)
}

/// The prices of a trade are those of closing `pos` at `exit_price`: the
/// exit price after costs, the profit in money and in pips from the entry
/// to that price, and the commission.
pub open spec fn trade_priced<V, N: Numbers<V>>(numbers: &N, pos: &OpenPosition<V>, exit_price: V, instrument: &InstrumentConfig<V>, strategy: &Strategy<V>, trade: TradeResult<V>) -> bool {
    &&& exit_cost_of(numbers, exit_price, pos.direction, &strategy.trading_costs, instrument, trade.exit_price)
    &&& pnl_of(numbers, pos.direction, pos.entry_price, trade.exit_price, pos.lots, instrument, trade.pnl)
    &&& pnl_pips_of(numbers, pos.direction, pos.entry_price, trade.exit_price, instrument, trade.pnl_pips)
    &&& commission_of(numbers, &strategy.trading_costs, pos.lots, pos.entry_price, instrument, trade.commission)
}

/// `trade` is the record of closing `pos` at `exit_price` on bar `exit_bar`
/// for `reason`.
pub open spec fn position_closed<V, N: Numbers<V>>(
    numbers: &N,
    pos: &OpenPosition<V>,
    exit_price: V,
    exit_time: String,
    exit_timestamp: i64,
    exit_bar: int,
    reason: CloseReason,
    instrument: &InstrumentConfig<V>,
    strategy: &Strategy<V>,
    config: &BacktestConfig<V>,
    trade: TradeResult<V>,
) -> bool {
    &&& trade_priced(numbers, pos, exit_price, instrument, strategy, trade)
    &&& trade.direction == pos.direction
    &&& trade.entry_time == pos.entry_time
    &&& trade.entry_timestamp == pos.entry_timestamp
    &&& trade.entry_price == pos.entry_price
    &&& trade.exit_time == exit_time
    &&& trade.exit_timestamp == exit_timestamp
    &&& trade.lots == pos.lots
    &&& trade.close_reason == reason
    &&& trade.duration_bars == exit_bar - pos.entry_bar
    &&& trade.duration_time@ == duration_text(minutes_of(exit_bar - pos.entry_bar, bar_minutes(config.timeframe)))
    &&& trade.mae == pos.mae_pips
    &&& trade.mfe == pos.mfe_pips
    &&& trade.id@.len() == 36
}

/// Closes `pos` at `exit_price` on bar `exit_bar` and writes the trade down:
/// the exit price after costs, profit and loss in money and in pips, the
/// commission, the reason, and how long the trade lasted.
///
/// Whatever the arithmetic yields, the record is of this position, this
/// exit and this reason, and its duration is the number of bars from entry
/// to exit.
pub fn close_position<V: Copy, N: Numbers<V>>(
    numbers: &N,
    pos: &OpenPosition<V>,
    exit_price: V,
    exit_time: &String,
    exit_timestamp: i64,
    exit_bar: usize,
    reason: CloseReason,
    instrument: &InstrumentConfig<V>,
    strategy: &Strategy<V>,
    config: &BacktestConfig<V>,
) -> (trade: TradeResult<V>)
    requires
        exit_bar >= pos.entry_bar,
    ensures
        position_closed(numbers, pos, exit_price, *exit_time, exit_timestamp, exit_bar as int, reason, instrument, strategy, config, trade),
        trade.direction == pos.direction,
        trade.entry_time == pos.entry_time,
        trade.entry_timestamp == pos.entry_timestamp,
        trade.entry_price == pos.entry_price,
        trade.exit_time == *exit_time,
        trade.exit_timestamp == exit_timestamp,
        trade.lots == pos.lots,
        trade.close_reason == reason,
        trade.duration_bars == exit_bar - pos.entry_bar,
        trade.duration_time@ == duration_text(minutes_of(exit_bar - pos.entry_bar, bar_minutes(config.timeframe))),
        trade.mae == pos.mae_pips,
        trade.mfe == pos.mfe_pips,
        trade.id@.len() == 36,
{
    let adjusted_exit: V = apply_exit_costs(numbers, exit_price, pos.direction, &strategy.trading_costs, instrument);
    let pnl: V = calculate_pnl(numbers, pos.direction, pos.entry_price, adjusted_exit, pos.lots, instrument);
    let pnl_pips: V = calculate_pnl_pips(numbers, pos.direction, pos.entry_price, adjusted_exit, instrument);
    let commission: V = calculate_commission(numbers, &strategy.trading_costs, pos.lots, pos.entry_price, instrument);
    let duration_bars: usize = exit_bar - pos.entry_bar;
    let minutes: u32 = config.timeframe.minutes();
    let mpb: u32 = if minutes < 1 {
        1
    } else {
        minutes
    };
    TradeResult {
        id: new_trade_id(),
        direction: pos.direction,
        entry_time: pos.entry_time.clone(),
        entry_timestamp: pos.entry_timestamp,
        entry_price: pos.entry_price,
        exit_time: exit_time.clone(),
        exit_timestamp,
        exit_price: adjusted_exit,
        lots: pos.lots,
        pnl,
        pnl_pips,
        commission,
        close_reason: reason,
        duration_bars,
        duration_time: format_duration_bars(duration_bars, mpb),
        mae: pos.mae_pips,
        mfe: pos.mfe_pips,
    }
}

/// `series` is the average true range that the risk settings of a strategy
/// need: there is one exactly where a period is asked for and there are
/// more candles than the period, and then it is the average true range of
/// the candles over that period.
pub open spec fn atr_prepared<V, N: Numbers<V>>(numbers: &N, candles: Seq<Candle<V>>, strategy: &Strategy<V>, series: &Option<Vec<Option<V>>>) -> bool {
    match atr_period_of(strategy) {
        None => series is None,
        Some(period) => (series is Some <==> candles.len() > period) && (series is Some ==> atr_made(numbers, highs_of(candles), lows_of(candles), closes_of(candles), period, series->Some_0@)),
    }
}

/// Computes the ATR series that the risk settings of a strategy need, if
/// they need one: that of the period of the first ATR-based setting among
/// stop-loss, take-profit and trailing stop. Where the candles do not
/// suffice there is none.
///
/// Whatever the arithmetic yields: there is a series exactly where a period
/// is asked for and there are more candles than the period; it has one
/// entry per candle, none before the period is complete, and for a positive
/// period one on every bar from there on.
pub fn compute_atr_if_needed<V: Copy, N: Numbers<V>>(numbers: &N, strategy: &Strategy<V>, candles: &Vec<Candle<V>>) -> (r: Option<Vec<Option<V>>>)
    ensures
        atr_prepared(numbers, candles@, strategy, &r),
        atr_period_of(strategy) is None ==> r is None,
        atr_period_of(strategy) is Some ==> (r is Some <==> candles@.len() > atr_period_of(strategy)->Some_0),
        r is Some ==> r->Some_0@.len() == candles@.len(),
        r is Some ==> blank_before(r->Some_0@, atr_period_of(strategy)->Some_0 - 1),
        r is Some && atr_period_of(strategy)->Some_0 > 0 ==> present_from(r->Some_0@, atr_period_of(strategy)->Some_0 - 1),
{
    match atr_period_needed(strategy) {
        None => None,
        Some(period) => {
            let mut params: IndicatorParams<V> = IndicatorParams::empty();
            params.period = Some(period);
            let config = IndicatorConfig { indicator_type: IndicatorType::ATR, params, output_field: None };
            assert(missing_param(&config) is None);
            assert(bars_needed(&config) == period + 1);
            assert(primary_warmup(&config) == period - 1);
            let ghost available: usize = candles.len();
            assert(validation_of(&config, available, Ok::<(), AppError>(())) <==> available > period);
            match compute_indicator(numbers, &config, candles) {
                Ok(output) => {
                    assert(lines_made(numbers, &config, candles@, &output));
                    assert(atr_made(numbers, highs_of(candles@), lows_of(candles@), closes_of(candles@), period, output.primary@));
                    Some(output.primary)
                },
                Err(_) => None,
            }
        },
    }
}

/// The running account of one simulation.
pub struct Ledger<V> {
    /// Capital plus the result of every closed trade.
    pub equity: V,
    /// The highest equity recorded so far.
    pub peak_equity: V,
    /// The ATR series for ATR-based risk settings.
    pub atr_values: Option<Vec<Option<V>>>,
}

/// What opening a position fixes, whatever the prices: where and when it
/// was opened and on which side, the bar's high and low as its first
/// extremes, and a stop-loss, a take-profit and a trailing distance exactly
/// where the strategy configures one.
pub open spec fn opened<V>(pos: OpenPosition<V>, strategy: &Strategy<V>, candle: &Candle<V>, bar: usize, direction: TradeDirection) -> bool {
    &&& pos.direction == direction
    &&& pos.entry_bar == bar
    &&& pos.entry_time == candle.datetime
    &&& pos.entry_timestamp == candle.timestamp
    &&& pos.highest_since_entry == candle.high
    &&& pos.lowest_since_entry == candle.low
    &&& (pos.stop_loss is Some <==> strategy.stop_loss is Some)
    &&& (pos.take_profit is Some <==> strategy.take_profit is Some)
    &&& (pos.trailing_stop_distance is Some <==> strategy.trailing_stop is Some)
}

/// The ATR at a bar, where the account holds an ATR series with a value
/// there.
pub open spec fn atr_at<V>(atr_values: &Option<Vec<Option<V>>>, bar: int) -> Option<V> {
    match atr_values {
        Some(values) => entry_at(values@, bar),
        None => None,
    }
}

/// The prices of a position are those of opening it at the close of
/// `candle` with `equity`: the entry price is the close after costs; the
/// stop-loss, the size, the take-profit and the trailing distance follow
/// from it as the strategy configures them; the excursions start at zero.
pub open spec fn position_priced<V, N: Numbers<V>>(numbers: &N, equity: V, atr: Option<V>, strategy: &Strategy<V>, instrument: &InstrumentConfig<V>, candle: &Candle<V>, direction: TradeDirection, pos: OpenPosition<V>) -> bool {
    &&& entry_cost_of(numbers, candle.close, direction, &strategy.trading_costs, instrument, pos.entry_price)
    &&& match strategy.stop_loss {
        Some(sl) => pos.stop_loss is Some && stop_loss_of(numbers, &sl, pos.entry_price, direction, atr, instrument, pos.stop_loss->Some_0),
        None => pos.stop_loss is None,
    }
    &&& lots_of(numbers, &strategy.position_sizing, equity, pos.entry_price, pos.stop_loss, instrument, pos.lots)
    &&& match strategy.take_profit {
        Some(tp) => pos.take_profit is Some && take_profit_of(numbers, &tp, pos.entry_price, pos.stop_loss, direction, atr, instrument, pos.take_profit->Some_0),
        None => pos.take_profit is None,
    }
    &&& match strategy.trailing_stop {
        Some(ts) => pos.trailing_stop_distance is Some && trailing_distance_of(numbers, &ts, pos.entry_price, pos.stop_loss, atr, instrument, pos.trailing_stop_distance->Some_0),
        None => pos.trailing_stop_distance is None,
    }
    &&& ints(numbers, 0, pos.mae_pips)
    &&& pos.mfe_pips == pos.mae_pips
}

/// Opens a position at the close of `candle`: the entry price is the close
/// after costs; then come, in this order, the stop-loss, the size, which
/// may depend on the stop, the take-profit and the trailing distance.
pub fn open_position<V: Copy, N: Numbers<V>>(
    numbers: &N,
    ledger: &Ledger<V>,
    strategy: &Strategy<V>,
    instrument: &InstrumentConfig<V>,
    candle: &Candle<V>,
    bar: usize,
    direction: TradeDirection,
) -> (pos: OpenPosition<V>)
    ensures
        opened(pos, strategy, candle, bar, direction),
        position_priced(numbers, ledger.equity, atr_at(&ledger.atr_values, bar as int), strategy, instrument, candle, direction, pos),
{
    let atr_val: Option<V> = match &ledger.atr_values {
        Some(values) => read_entry(values, bar),
        None => None,
    };
    let entry_price: V = apply_entry_costs(numbers, candle.close, direction, &strategy.trading_costs, instrument);
    let stop_loss: Option<V> = match &strategy.stop_loss {
        Some(sl) => Some(calculate_stop_loss(numbers, sl, entry_price, direction, atr_val, instrument)),
        None => None,
    };
    let lots: V = calculate_lots(numbers, &strategy.position_sizing, ledger.equity, entry_price, stop_loss, instrument);
    let take_profit: Option<V> = match &strategy.take_profit {
        Some(tp) => Some(calculate_take_profit(numbers, tp, entry_price, stop_loss, direction, atr_val, instrument)),
        None => None,
    };
    let trailing_stop_distance: Option<V> = match &strategy.trailing_stop {
        Some(ts) => Some(calculate_trailing_stop_distance(numbers, ts, entry_price, stop_loss, atr_val, instrument)),
        None => None,
    };
    let zero: V = numbers.from_int(0);
    assert(ints(numbers, 0, zero));
    OpenPosition {
        direction,
        entry_price,
        entry_bar: bar,
        entry_time: candle.datetime.clone(),
        entry_timestamp: candle.timestamp,
        lots,
        stop_loss,
        take_profit,
        trailing_stop_distance,
        highest_since_entry: candle.high,
        lowest_since_entry: candle.low,
        mae_pips: zero,
        mfe_pips: zero,
    }
}

/// `after` is the equity `before` with a trade booked: the equity plus the
/// trade's profit less its commission.
pub open spec fn booked<V, N: Numbers<V>>(numbers: &N, before: V, trade: &TradeResult<V>, after: V) -> bool {
    exists|net: V| #[trigger] subs(numbers, trade.pnl, trade.commission, net) && adds(numbers, before, net, after)
}

/// Books a closed trade: the equity grows by the trade's profit less its
/// commission.
pub fn book_trade<V: Copy, N: Numbers<V>>(numbers: &N, ledger: &mut Ledger<V>, trade: &TradeResult<V>)
    ensures
        booked(numbers, old(ledger).equity, trade, final(ledger).equity),
        final(ledger).peak_equity == old(ledger).peak_equity,
        final(ledger).atr_values == old(ledger).atr_values,
{
    let net: V = numbers.sub(trade.pnl, trade.commission);
    assert(subs(numbers, trade.pnl, trade.commission, net));
    ledger.equity = numbers.add(ledger.equity, net);
}

/// `current` is the value of the account at the close of `candle`: the
/// equity, plus the profit of the open position at the close.
pub open spec fn valued<V, N: Numbers<V>>(numbers: &N, equity: V, position: Option<OpenPosition<V>>, candle: &Candle<V>, instrument: &InstrumentConfig<V>, current: V) -> bool {
    match position {
        None => current == equity,
        Some(pos) => exists|profit: V| #[trigger] pnl_of(numbers, pos.direction, pos.entry_price, candle.close, pos.lots, instrument, profit) && adds(numbers, equity, profit, current),
    }
}

/// `out` is a drawdown reading: the drawdown of the value from the peak in
/// percent. It is above a hundred where the value is below zero.
pub open spec fn drawdown_read<V, N: Numbers<V>>(numbers: &N, peak: V, current: V, out: V) -> bool {
    drawdown_pct_of(numbers, peak, current, out)
}

/// `mark` is the reading of the account at the close of `candle`, and
/// `new_peak` its peak from then on: the value of the account; the peak,
/// raised to the value where `numbers` finds the value above it; and the
/// drawdown of the value from that peak.
pub open spec fn marked<V, N: Numbers<V>>(numbers: &N, equity: V, peak: V, position: Option<OpenPosition<V>>, candle: &Candle<V>, instrument: &InstrumentConfig<V>, mark: Mark<V>, new_peak: V) -> bool {
    &&& valued(numbers, equity, position, candle, instrument, mark.equity)
    &&& exists|higher: Relation| #[trigger] relates(numbers, mark.equity, peak, higher) && new_peak == pick(higher.gt(), mark.equity, peak)
    &&& drawdown_read(numbers, new_peak, mark.equity, mark.drawdown_pct)
}

/// Values the account at the close of a bar: the equity plus the open
/// position's profit at the close; raises the peak where the equity exceeds
/// it; and measures the drawdown from the peak in percent, zero where the
/// peak is not positive.
pub fn record_equity<V: Copy, N: Numbers<V>>(numbers: &N, ledger: &mut Ledger<V>, position: &Option<OpenPosition<V>>, candle: &Candle<V>, instrument: &InstrumentConfig<V>) -> (mark: Mark<V>)
    ensures
        marked(numbers, old(ledger).equity, old(ledger).peak_equity, *position, candle, instrument, mark, final(ledger).peak_equity),
        final(ledger).equity == old(ledger).equity,
        final(ledger).atr_values == old(ledger).atr_values,
        final(ledger).peak_equity == old(ledger).peak_equity || final(ledger).peak_equity == mark.equity,
        position is None ==> mark.equity == old(ledger).equity,
{
    let ghost peak_before = ledger.peak_equity;
    let current: V = match position {
        Some(pos) => {
            let profit: V = calculate_pnl(numbers, pos.direction, pos.entry_price, candle.close, pos.lots, instrument);
            let value: V = numbers.add(ledger.equity, profit);
            assert(adds(numbers, ledger.equity, profit, value));
            assert(valued(numbers, ledger.equity, *position, candle, instrument, value));
            value
        },
        None => ledger.equity,
    };
    assert(valued(numbers, ledger.equity, *position, candle, instrument, current));
    let higher = relation(numbers, current, ledger.peak_equity);
    if higher.is_gt() {
        ledger.peak_equity = current;
    }
    let drawdown_pct: V = drawdown_pct(numbers, ledger.peak_equity, current);
    assert(drawdown_read(numbers, ledger.peak_equity, current, drawdown_pct));
    assert(ledger.peak_equity == pick(higher.gt(), current, peak_before));
    let mark = Mark { equity: current, drawdown_pct };
    assert(relates(numbers, mark.equity, peak_before, higher));
    assert(drawdown_read(numbers, ledger.peak_equity, mark.equity, mark.drawdown_pct));
    assert(valued(numbers, ledger.equity, *position, candle, instrument, mark.equity));
    mark
}

/// Minutes since midnight of a time of day.
pub open spec fn minute_of_day(hour: int, minute: int) -> int {
    hour * 60 + minute
}

/// Whether a time of day lies in a trading window. A window whose start is
/// not after its end holds the times from start to end, both included; one
/// whose start is after its end crosses midnight and holds the times from
/// the start on and those up to the end.
pub open spec fn within_hours(hours: &TradingHours, h: u8, m: u8) -> bool {
    let current = minute_of_day(h as int, m as int);
    let start = minute_of_day(hours.start_hour as int, hours.start_minute as int);
    let end = minute_of_day(hours.end_hour as int, hours.end_minute as int);
    if start <= end {
        start <= current <= end
    } else {
        current >= start || current <= end
    }
}

/// Checks whether the time `h:m` lies in the trading window.
pub fn is_within_trading_hours(hours: &TradingHours, h: u8, m: u8) -> (b: bool)
    ensures
        b == within_hours(hours, h, m),
{
    let current: u16 = h as u16 * 60 + m as u16;
    let start: u16 = hours.start_hour as u16 * 60 + hours.start_minute as u16;
    let end: u16 = hours.end_hour as u16 * 60 + hours.end_minute as u16;
    if start <= end {
        current >= start && current <= end
    } else {
        current >= start || current <= end
    }
}

/// Whether a position is force-closed at the instant `micros`: a closing
/// time is set, and the time of day has reached it.
pub open spec fn closes_at(close_at: &Option<CloseTradesAt>, micros: int) -> bool {
    match close_at {
        Some(ct) => minute_of_day(day_micros_of(micros) / 3_600_000_000, (day_micros_of(micros) / 60_000_000) % 60)
            >= minute_of_day(ct.hour as int, ct.minute as int),
        None => false,
    }
}

/// Checks whether a position is force-closed on the bar that opens at
/// `micros`.
pub fn should_close_at_time(close_at: &Option<CloseTradesAt>, micros: i64) -> (b: bool)
    ensures
        b == closes_at(close_at, micros as int),
{
    match close_at {
        Some(ct) => {
            let hm = extract_hour_minute(micros);
            let current: u16 = hm.0 as u16 * 60 + hm.1 as u16;
            let target: u16 = ct.hour as u16 * 60 + ct.minute as u16;
            current >= target
        },
        None => false,
    }
}

/// Whether long entries are allowed under a trade direction.
pub open spec fn allows_long(direction: TradeDirection) -> bool {
    direction == TradeDirection::Long || direction == TradeDirection::Both
}

/// Whether short entries are allowed under a trade direction.
pub open spec fn allows_short(direction: TradeDirection) -> bool {
    direction == TradeDirection::Short || direction == TradeDirection::Both
}

/// The entry policy: no entry outside the trading window or at the daily
/// cap; long is tried first, and where it fires short is not considered.
pub open spec fn entry_of(
    allowed: TradeDirection,
    in_hours: bool,
    under_limit: bool,
    long_signal: bool,
    short_signal: bool,
) -> Option<TradeDirection> {
    if !(in_hours && under_limit) {
        None
    } else if allows_long(allowed) && long_signal {
        Some(TradeDirection::Long)
    } else if allows_short(allowed) && short_signal {
        Some(TradeDirection::Short)
    } else {
        None
    }
}

/// Decides the direction of a new position, if one opens.
pub fn entry_direction(
    allowed: TradeDirection,
    in_hours: bool,
    under_limit: bool,
    long_signal: bool,
    short_signal: bool,
) -> (d: Option<TradeDirection>)
    ensures
        d == entry_of(allowed, in_hours, under_limit, long_signal, short_signal),
{
    let can_long: bool = match allowed {
        TradeDirection::Short => false,
        _ => true,
    };
    let can_short: bool = match allowed {
        TradeDirection::Long => false,
        _ => true,
    };
    if !(in_hours && under_limit) {
        None
    } else if can_long && long_signal {
        Some(TradeDirection::Long)
    } else if can_short && short_signal {
        Some(TradeDirection::Short)
    } else {
        None
    }
}

/// Reads the cancel flag.
pub(crate) fn is_cancelled(flag: &AtomicBool) -> bool {
    flag.load(std::sync::atomic::Ordering::Relaxed)
}

/// What the rules read besides the candles: the indicator cache and the
/// optional caches for daily levels, bar times and candle patterns.
pub struct RuleData<V> {
    pub cache: IndicatorCache<V>,
    pub daily_ohlc: Option<DailyOhlcCache<V>>,
    pub time_cache: Option<TimeCache<V>>,
    pub pattern_cache: Option<CandlePatternCache<V>>,
}

/// The timestamps of a candle series, in order.
pub open spec fn candle_times<V>(candles: Seq<Candle<V>>) -> Seq<i64> {
    Seq::new(candles.len(), |k: int| candles[k].timestamp)
}

/// The first bar of the loop: the strategy's lookback, or the number of bars
/// if there are fewer.
pub open spec fn start_bar_of<V>(strategy: &Strategy<V>, total_bars: int) -> int {
    if clip(lookback_of(strategy)) < total_bars {
        clip(lookback_of(strategy)) as int
    } else {
        total_bars
    }
}

/// Progress in percent after `done` of `all` bars.
pub open spec fn percent_of(done: int, all: int) -> int {
    if all <= 0 {
        0
    } else {
        (done * 100) / all
    }
}

/// Computes the progress in percent.
pub fn progress_percent(done: usize, all: usize) -> (pct: u8)
    requires
        done <= all,
    ensures
        pct == percent_of(done as int, all as int),
        pct <= 100,
{
    if all == 0 {
        return 0;
    }
    let scaled: u128 = done as u128 * 100;
    let pct: u128 = scaled / (all as u128);
    assert(pct <= 100) by (nonlinear_arith)
        requires
            pct == (done * 100) / (all as int),
            0 <= done <= all,
            all > 0,
    ;
    pct as u8
}

/// What one bar's exit step makes of an open position: it stays open, with
/// its entry untouched, or it is closed into one trade by a trigger from the
/// bar or its sub-bars, by the clock or by the exit rules.
pub open spec fn exit_step_outcome<V>(
    before: OpenPosition<V>,
    strategy: &Strategy<V>,
    sub_bars: &SubBarData<V>,
    candle: &Candle<V>,
    bar: int,
    sub_start: int,
    sub_end: int,
    still_open: Option<OpenPosition<V>>,
    closed: Option<TradeResult<V>>,
) -> bool {
    match (still_open, closed) {
        (Some(p), None) => keeps_entry(before, p) && stop_came_from(before, p),
        (None, Some(t)) => {
            &&& t.direction == before.direction
            &&& t.entry_timestamp == before.entry_timestamp
            &&& t.entry_time == before.entry_time
            &&& t.duration_bars == bar - before.entry_bar
            &&& t.id@.len() == 36
            &&& match t.close_reason {
                CloseReason::StopLoss => trigger_time(sub_bars, candle, sub_start, sub_end, t.exit_timestamp) && (before.stop_loss is Some || before.trailing_stop_distance is Some),
                CloseReason::TakeProfit => trigger_time(sub_bars, candle, sub_start, sub_end, t.exit_timestamp) && before.take_profit is Some,
                CloseReason::TimeClose => t.exit_timestamp == candle.timestamp && closes_at(
                    &strategy.close_trades_at,
                    candle.timestamp as int,
                ),
                CloseReason::Signal => t.exit_timestamp == candle.timestamp && exit_rules_of(
                    strategy,
                    before.direction,
                ).len() > 0,
                _ => false,
            }
        },
        _ => false,
    }
}

/// The exit rules that apply to a position: those of the short side for a
/// short position, else those of the long side.
pub open spec fn exit_rules_of<V>(strategy: &Strategy<V>, direction: TradeDirection) -> Seq<Rule<V>> {
    if direction == TradeDirection::Short {
        strategy.short_exit_rules@
    } else {
        strategy.long_exit_rules@
    }
}

/// A position of this direction may be opened under the strategy: the
/// direction is long or short, the strategy allows it, and has entry rules
/// for it.
pub open spec fn may_open<V>(strategy: &Strategy<V>, direction: TradeDirection) -> bool {
    match direction {
        TradeDirection::Long => allows_long(strategy.trade_direction) && strategy.long_entry_rules@.len() > 0,
        TradeDirection::Short => allows_short(strategy.trade_direction) && strategy.short_entry_rules@.len() > 0,
        TradeDirection::Both => false,
    }
}

/// The levels of a position are within what the strategy configures: a
/// stop-loss only with a configured stop-loss or trailing stop, a
/// take-profit only with a configured one, and a trailing distance exactly
/// with a configured trailing stop.
pub open spec fn within_risk<V>(strategy: &Strategy<V>, pos: OpenPosition<V>) -> bool {
    &&& (pos.stop_loss is Some ==> strategy.stop_loss is Some || strategy.trailing_stop is Some)
    &&& (pos.take_profit is Some ==> strategy.take_profit is Some)
    &&& (pos.trailing_stop_distance is Some <==> strategy.trailing_stop is Some)
}

/// A trade that a run of the strategy may record: its direction is one that
/// the strategy may open, and its reason one that the strategy provides
/// for: a stop-loss exit only with a stop-loss or a trailing stop, a
/// take-profit exit only with a take-profit, a time exit only with a
/// closing time, a signal exit only with exit rules. No trade is recorded
/// as closed by a trailing stop: a trailing stop moves the stop-loss, and
/// the exit is a stop-loss.
pub open spec fn trade_permitted<V>(strategy: &Strategy<V>, t: TradeResult<V>) -> bool {
    &&& may_open(strategy, t.direction)
    &&& match t.close_reason {
        CloseReason::StopLoss => strategy.stop_loss is Some || strategy.trailing_stop is Some,
        CloseReason::TakeProfit => strategy.take_profit is Some,
        CloseReason::EndOfData => true,
        CloseReason::TimeClose => strategy.close_trades_at is Some,
        CloseReason::Signal => exit_rules_of(strategy, t.direction).len() > 0,
        CloseReason::TrailingStop => false,
    }
}

/// `after` is a position that survived a bar: without sub-bars its
/// trailing stop follows the bar's high (long) or low (short); with
/// sub-bars it is as the walk over them left it.
pub open spec fn survived<V, N: Numbers<V>>(numbers: &N, checked: OpenPosition<V>, candle: &Candle<V>, sub_bars: &SubBarData<V>, after: OpenPosition<V>) -> bool {
    if sub_bars is Absent {
        trailed(numbers, checked, pick(long_side(checked.direction), candle.high, candle.low), after)
    } else {
        after == checked
    }
}

/// What becomes of a position on a bar whose stop and target did not fire:
/// it is closed at the close for `TimeClose` where the bar's time is at or
/// after the closing time; else for `Signal` where the exit rules of its
/// side hold; else it survives.
pub open spec fn held_decided<V, N: Numbers<V>>(
    numbers: &N,
    checked: OpenPosition<V>,
    candles: Seq<Candle<V>>,
    bar: int,
    sub_bars: &SubBarData<V>,
    strategy: &Strategy<V>,
    config: &BacktestConfig<V>,
    instrument: &InstrumentConfig<V>,
    data: &RuleData<V>,
    still_open: Option<OpenPosition<V>>,
    closed: Option<TradeResult<V>>,
) -> bool {
    let candle = candles[bar];
    if closes_at(&strategy.close_trades_at, candle.timestamp as int) {
        still_open is None && closed is Some && position_closed(numbers, &checked, candle.close, candle.datetime, candle.timestamp, bar, CloseReason::TimeClose, instrument, strategy, config, closed->Some_0)
    } else {
        exists|signal: bool| #[trigger]
            rules_value(numbers, exit_rules_of(strategy, checked.direction), bar, &data.cache, candles, as_shared(&data.daily_ohlc), as_shared(&data.time_cache), as_shared(&data.pattern_cache), 0, signal) && (if signal {
                still_open is None && closed is Some && position_closed(numbers, &checked, candle.close, candle.datetime, candle.timestamp, bar, CloseReason::Signal, instrument, strategy, config, closed->Some_0)
            } else {
                closed is None && still_open is Some && survived(numbers, checked, &candles[bar], sub_bars, still_open->Some_0)
            })
    }
}

/// What the exit step of a bar makes of the position `pos`: its stop and
/// target are resolved within the bar; a trigger closes it at the
/// trigger's price, time and reason; without one, `held_decided` says what
/// becomes of it.
pub open spec fn exit_stepped<V, N: Numbers<V>>(
    numbers: &N,
    pos: OpenPosition<V>,
    candles: Seq<Candle<V>>,
    bar: int,
    sub_bars: &SubBarData<V>,
    sub_start: int,
    sub_end: int,
    strategy: &Strategy<V>,
    config: &BacktestConfig<V>,
    instrument: &InstrumentConfig<V>,
    data: &RuleData<V>,
    still_open: Option<OpenPosition<V>>,
    closed: Option<TradeResult<V>>,
) -> bool {
    exists|checked: OpenPosition<V>, trigger: Option<ExitTrigger<V>>| #[trigger]
        exit_resolved(numbers, pos, &candles[bar], sub_bars, sub_start, sub_end, instrument, checked, trigger) && (match trigger {
            Some(t) => still_open is None && closed is Some && position_closed(numbers, &checked, t.price, t.time, t.timestamp, bar, t.reason, instrument, strategy, config, closed->Some_0),
            None => held_decided(numbers, checked, candles, bar, sub_bars, strategy, config, instrument, data, still_open, closed),
        })
}

/// The exit step of one bar for an open position, in the order that decides
/// which exit wins: first a stop or target within the bar, then the closing
/// time, then the exit rules of the position's side. A position that
/// survives has its trailing stop moved on the bar itself where there are no
/// sub-bars.
fn exit_step<V: Copy, N: Numbers<V>>(
    numbers: &N,
    pos: OpenPosition<V>,
    candles: &Vec<Candle<V>>,
    bar: usize,
    sub_bars: &SubBarData<V>,
    sub_start: usize,
    sub_end: usize,
    strategy: &Strategy<V>,
    config: &BacktestConfig<V>,
    instrument: &InstrumentConfig<V>,
    data: &RuleData<V>,
) -> (r: (Option<OpenPosition<V>>, Option<TradeResult<V>>))
    requires
        bar < candles@.len(),
        pos.entry_bar <= bar,
        sub_bars.wf(),
        sub_bars is Absent || sub_start <= sub_end <= sub_bars.timestamps().len(),
    ensures
        exit_stepped(numbers, pos, candles@, bar as int, sub_bars, sub_start as int, sub_end as int, strategy, config, instrument, data, r.0, r.1),
        exit_step_outcome(
            pos,
            strategy,
            sub_bars,
            &candles@[bar as int],
            bar as int,
            sub_start as int,
            sub_end as int,
            r.0,
            r.1,
        ),
{
    let mut pos = pos;
    let ghost before = pos;
    let candle = &candles[bar];
    let trigger = resolve_exit(numbers, &mut pos, candle, sub_bars, sub_start, sub_end, instrument);
    let ghost checked = pos;
    let ghost found = trigger;
    assert(exit_resolved(numbers, before, &candles@[bar as int], sub_bars, sub_start as int, sub_end as int, instrument, checked, found));
    if let Some(exit) = trigger {
        let trade = close_position(numbers, &pos, exit.price, &exit.time, exit.timestamp, bar, exit.reason, instrument, strategy, config);
        assert(exit_stepped(numbers, before, candles@, bar as int, sub_bars, sub_start as int, sub_end as int, strategy, config, instrument, data, None, Some(trade)));
        return (None, Some(trade));
    }
    if should_close_at_time(&strategy.close_trades_at, candle.timestamp) {
        let trade = close_position(numbers, &pos, candle.close, &candle.datetime, candle.timestamp, bar, CloseReason::TimeClose, instrument, strategy, config);
        assert(held_decided(numbers, checked, candles@, bar as int, sub_bars, strategy, config, instrument, data, None, Some(trade)));
        return (None, Some(trade));
    }
    let exit_rules: &Vec<Rule<V>> = match pos.direction {
        TradeDirection::Short => &strategy.short_exit_rules,
        _ => &strategy.long_exit_rules,
    };
    let signal: bool = evaluate_rules(numbers, exit_rules, bar, &data.cache, candles, data.daily_ohlc.as_ref(), data.time_cache.as_ref(), data.pattern_cache.as_ref(), 0);
    assert(exit_rules@ == exit_rules_of(strategy, checked.direction));
    assert(rules_value(numbers, exit_rules_of(strategy, checked.direction), bar as int, &data.cache, candles@, as_shared(&data.daily_ohlc), as_shared(&data.time_cache), as_shared(&data.pattern_cache), 0, signal));
    if signal {
        let trade = close_position(numbers, &pos, candle.close, &candle.datetime, candle.timestamp, bar, CloseReason::Signal, instrument, strategy, config);
        assert(held_decided(numbers, checked, candles@, bar as int, sub_bars, strategy, config, instrument, data, None, Some(trade)));
        return (None, Some(trade));
    }
    match sub_bars {
        SubBarData::Absent => {
            update_trailing_stop(numbers, &mut pos, candle);
        },
        _ => {},
    }
    assert(survived(numbers, checked, &candles@[bar as int], sub_bars, pos));
    assert(held_decided(numbers, checked, candles@, bar as int, sub_bars, strategy, config, instrument, data, Some(pos), None));
    (Some(pos), None)
}

/// Whether a daily cap leaves room for another trade.
pub open spec fn under_cap(max_daily_trades: Option<u32>, count: usize) -> bool {
    match max_daily_trades {
        Some(max) => count < max,
        None => true,
    }
}

/// Whether the time `micros` lies in the trading window of the strategy;
/// without a window every time does.
pub open spec fn in_window<V>(strategy: &Strategy<V>, micros: i64) -> bool {
    match strategy.trading_hours {
        Some(hours) => within_hours(&hours, (day_micros_of(micros as int) / 3_600_000_000) as u8, ((day_micros_of(micros as int) / 60_000_000) % 60) as u8),
        None => true,
    }
}

/// `long_signal` and `short_signal` are what the entry rules come to at
/// `bar`: the long rules are evaluated where long entries are allowed and
/// there are such rules; the short rules where the long signal did not fire,
/// short entries are allowed and there are such rules; a list that is not
/// evaluated gives no signal.
pub open spec fn entry_signals<V, N: Numbers<V>>(numbers: &N, strategy: &Strategy<V>, bar: int, data: &RuleData<V>, candles: Seq<Candle<V>>, long_signal: bool, short_signal: bool) -> bool {
    &&& (if allows_long(strategy.trade_direction) && strategy.long_entry_rules@.len() > 0 {
        rules_value(numbers, strategy.long_entry_rules@, bar, &data.cache, candles, as_shared(&data.daily_ohlc), as_shared(&data.time_cache), as_shared(&data.pattern_cache), 0, long_signal)
    } else {
        !long_signal
    })
    &&& (if !long_signal && allows_short(strategy.trade_direction) && strategy.short_entry_rules@.len() > 0 {
        rules_value(numbers, strategy.short_entry_rules@, bar, &data.cache, candles, as_shared(&data.daily_ohlc), as_shared(&data.time_cache), as_shared(&data.pattern_cache), 0, short_signal)
    } else {
        !short_signal
    })
}

/// An optional value as a shared reference to it.
pub open spec fn as_shared<T>(value: &Option<T>) -> Option<&T> {
    match value {
        Some(v) => Some(v),
        None => None,
    }
}

/// `r` is what the entry step of `bar` comes to: nothing outside the
/// trading window or at the daily cap; else what `entry_of` decides from
/// the entry signals, and where it decides for a side, a position opened on
/// that side at the bar.
pub open spec fn entered<V, N: Numbers<V>>(
    numbers: &N,
    equity: V,
    atr_values: &Option<Vec<Option<V>>>,
    candles: Seq<Candle<V>>,
    bar: int,
    strategy: &Strategy<V>,
    instrument: &InstrumentConfig<V>,
    data: &RuleData<V>,
    daily_trade_count: usize,
    r: Option<OpenPosition<V>>,
) -> bool {
    if !(in_window(strategy, candles[bar].timestamp) && under_cap(strategy.max_daily_trades, daily_trade_count)) {
        r is None
    } else {
        exists|long_signal: bool, short_signal: bool| #[trigger]
            entry_signals(numbers, strategy, bar, data, candles, long_signal, short_signal) && (match entry_of(strategy.trade_direction, true, true, long_signal, short_signal) {
                None => r is None,
                Some(direction) => r is Some && opened(r->Some_0, strategy, &candles[bar], bar as usize, direction) && position_priced(
                    numbers,
                    equity,
                    atr_at(atr_values, bar),
                    strategy,
                    instrument,
                    &candles[bar],
                    direction,
                    r->Some_0,
                ),
            })
    }
}

/// The entry step of one bar while no position is open. Decides by
/// `entry_of` whether a position opens and on which side; the account prices
/// it; the position starts at this bar with the bar's high and low as its
/// extremes and no excursion.
fn entry_step<V: Copy, N: Numbers<V>>(
    numbers: &N,
    ledger: &Ledger<V>,
    candles: &Vec<Candle<V>>,
    bar: usize,
    strategy: &Strategy<V>,
    instrument: &InstrumentConfig<V>,
    data: &RuleData<V>,
    daily_trade_count: usize,
) -> (r: Option<OpenPosition<V>>)
    requires
        bar < candles@.len(),
    ensures
        entered(numbers, ledger.equity, &ledger.atr_values, candles@, bar as int, strategy, instrument, data, daily_trade_count, r),
        strategy.long_entry_rules@.len() == 0 && strategy.short_entry_rules@.len() == 0 ==> r is None,
        !under_cap(strategy.max_daily_trades, daily_trade_count) ==> r is None,
        r is Some ==> {
            &&& r->Some_0.entry_bar == bar
            &&& r->Some_0.entry_timestamp == candles@[bar as int].timestamp
            &&& r->Some_0.entry_time == candles@[bar as int].datetime
            &&& may_open(strategy, r->Some_0.direction)
            &&& within_risk(strategy, r->Some_0)
            &&& r->Some_0.highest_since_entry == candles@[bar as int].high
            &&& r->Some_0.lowest_since_entry == candles@[bar as int].low
        },
{
    let candle = &candles[bar];
    let in_hours: bool = match &strategy.trading_hours {
        Some(th) => {
            let hm = extract_hour_minute(candle.timestamp);
            is_within_trading_hours(th, hm.0, hm.1)
        },
        None => true,
    };
    let under_limit: bool = match strategy.max_daily_trades {
        Some(max) => (daily_trade_count as u64) < max as u64,
        None => true,
    };
    if !(in_hours && under_limit) {
        return None;
    }
    let can_long: bool = match strategy.trade_direction {
        TradeDirection::Short => false,
        _ => true,
    };
    let can_short: bool = match strategy.trade_direction {
        TradeDirection::Long => false,
        _ => true,
    };
    let long_signal: bool = can_long && strategy.long_entry_rules.len() > 0 && evaluate_rules(
        numbers,
        &strategy.long_entry_rules,
        bar,
        &data.cache,
        candles,
        data.daily_ohlc.as_ref(),
        data.time_cache.as_ref(),
        data.pattern_cache.as_ref(),
        0,
    );
    let short_signal: bool = !long_signal && can_short && strategy.short_entry_rules.len() > 0 && evaluate_rules(
        numbers,
        &strategy.short_entry_rules,
        bar,
        &data.cache,
        candles,
        data.daily_ohlc.as_ref(),
        data.time_cache.as_ref(),
        data.pattern_cache.as_ref(),
        0,
    );
    assert(entry_signals(numbers, strategy, bar as int, data, candles@, long_signal, short_signal));
    match entry_direction(strategy.trade_direction, in_hours, under_limit, long_signal, short_signal) {
        None => None,
        Some(direction) => Some(open_position(numbers, ledger, strategy, instrument, candle, bar, direction)),
    }
}

/// A trade lasted fewer bars than the run has, and on time-ordered input it
/// did not end before it began.
pub open spec fn trade_in_run<V>(strategy: &Strategy<V>, t: TradeResult<V>, total_bars: int, ordered: bool) -> bool {
    &&& t.duration_bars < total_bars
    &&& (ordered ==> t.exit_timestamp >= t.entry_timestamp)
    &&& trade_permitted(strategy, t)
    &&& t.id@.len() == 36
}

/// Candles and sub-bars are in time order.
pub open spec fn time_ordered<V>(candles: Seq<Candle<V>>, sub_bars: &SubBarData<V>) -> bool {
    non_decreasing(candle_times(candles)) && non_decreasing(sub_bars.timestamps())
}

/// The cancel flag is polled at the bars whose index is a multiple of 1000.
pub open spec fn polls_between(start: int, end: int) -> bool {
    exists|i: int| start <= i < end && #[trigger] (i % 1000) == 0
}

/// What a finished run hands back, for a run over `candles` that started at
/// `start`.
pub open spec fn run_result<V>(
    out: BacktestResults<V>,
    candles: Seq<Candle<V>>,
    sub_bars: &SubBarData<V>,
    strategy: &Strategy<V>,
    start: int,
) -> bool {
    &&& out.equity_curve@.len() == candles.len() - start
    &&& out.drawdown_curve@.len() == candles.len() - start
    &&& forall|k: int| 0 <= k < out.equity_curve@.len() ==> (#[trigger] out.equity_curve@[k]).timestamp == candles[start + k].datetime
    &&& forall|k: int| 0 <= k < out.drawdown_curve@.len() ==> (#[trigger] out.drawdown_curve@[k]).timestamp == candles[start + k].datetime
    &&& out.trades@.len() <= candles.len() - start
    &&& out.returns@.len() == out.trades@.len()
    &&& forall|j: int| 0 <= j < out.trades@.len() ==> out.returns@[j] == (#[trigger] out.trades@[j]).pnl
    &&& out.metrics.total_trades == out.trades@.len()
    &&& forall|j: int| 0 <= j < out.trades@.len() ==> trade_in_run(strategy, #[trigger] out.trades@[j], candles.len() as int, time_ordered(candles, sub_bars))
    &&& (strategy.long_entry_rules@.len() == 0 && strategy.short_entry_rules@.len() == 0 ==> out.trades@.len() == 0)
    &&& (strategy.max_daily_trades == Some(0u32) ==> out.trades@.len() == 0)
    &&& (time_ordered(candles, sub_bars) ==> trades_follow(out.trades@, sub_bars))
}

/// Trade `j + 1` follows trade `j`: it begins no earlier than trade `j`
/// began, and, in a run without sub-bars, no earlier than trade `j` ended.
/// With sub-bars a trade may end within a bar on whose opening time the
/// next one is entered.
pub open spec fn follows_at<V>(trades: Seq<TradeResult<V>>, sub_bars: &SubBarData<V>, j: int) -> bool {
    trades[j + 1].entry_timestamp >= trades[j].entry_timestamp && (sub_bars is Absent ==> trades[j + 1].entry_timestamp >= trades[j].exit_timestamp)
}

/// Every trade follows the one before it.
pub open spec fn trades_follow<V>(trades: Seq<TradeResult<V>>, sub_bars: &SubBarData<V>) -> bool {
    forall|j: int| 0 <= j && j + 1 < trades.len() ==> #[trigger] follows_at(trades, sub_bars, j)
}

/// A run that never trades keeps its capital: every point of the equity
/// curve is the initial capital.
pub open spec fn flat_equity<V>(out: BacktestResults<V>, initial_capital: V) -> bool {
    forall|k: int| 0 <= k < out.equity_curve@.len() ==> (#[trigger] out.equity_curve@[k]).equity == initial_capital
}

/// A strategy that can never open a position: it has no entry rules, or
/// its daily cap is zero.
pub open spec fn never_trades<V>(strategy: &Strategy<V>) -> bool {
    (strategy.long_entry_rules@.len() == 0 && strategy.short_entry_rules@.len() == 0) || strategy.max_daily_trades == Some(0u32)
}

/// What a run carries from one bar to the next: the open position, the
/// equity and its peak, the cursor into the sub-bars, and the day with its
/// number of entries.
pub struct Walk<V> {
    pub position: Option<OpenPosition<V>>,
    pub equity: V,
    pub peak: V,
    pub cursor: int,
    pub day: Option<i64>,
    pub day_count: int,
}

/// The time at which the bar after `i` opens; the largest time stands for
/// "no next bar".
pub open spec fn next_time<V>(candles: Seq<Candle<V>>, i: int) -> int {
    if i + 1 < candles.len() {
        candles[i + 1].timestamp as int
    } else {
        i64::MAX as int
    }
}

/// What the bar makes of the position held: nothing where none is held,
/// else what the exit step makes of it.
pub open spec fn held_managed<V, N: Numbers<V>>(
    numbers: &N,
    held: Option<OpenPosition<V>>,
    candles: Seq<Candle<V>>,
    bar: int,
    sub_bars: &SubBarData<V>,
    range: (usize, usize),
    strategy: &Strategy<V>,
    config: &BacktestConfig<V>,
    instrument: &InstrumentConfig<V>,
    data: &RuleData<V>,
    mid: Option<OpenPosition<V>>,
    closed: Option<TradeResult<V>>,
) -> bool {
    match held {
        None => mid is None && closed is None,
        Some(pos) => exit_stepped(numbers, pos, candles, bar, sub_bars, range.0 as int, range.1 as int, strategy, config, instrument, data, mid, closed),
    }
}

/// The equity after a bar: with a trade closed, the trade is booked.
pub open spec fn equity_after<V, N: Numbers<V>>(numbers: &N, before: V, closed: Option<TradeResult<V>>, after: V) -> bool {
    match closed {
        None => after == before,
        Some(t) => booked(numbers, before, &t, after),
    }
}

/// The number of entries of the day as a bar of day `bar_day` finds it: a
/// bar of a new day starts the count afresh.
pub open spec fn day_count_for(day: Option<i64>, count: int, bar_day: i64) -> int {
    if day == Some(bar_day) {
        count
    } else {
        0
    }
}

/// What the bar does about an entry. With a position still open, nothing.
/// Else the day and its count are brought up to the bar, the entry step
/// decides, and an entry is counted.
pub open spec fn entry_considered<V, N: Numbers<V>>(
    numbers: &N,
    atr_values: &Option<Vec<Option<V>>>,
    candles: Seq<Candle<V>>,
    bar: int,
    strategy: &Strategy<V>,
    instrument: &InstrumentConfig<V>,
    data: &RuleData<V>,
    mid: Option<OpenPosition<V>>,
    before: Walk<V>,
    after: Walk<V>,
) -> bool {
    if mid is Some {
        after.position == mid && after.day == before.day && after.day_count == before.day_count
    } else {
        let bar_day = day_number_of(candles[bar].timestamp as int) as i64;
        let base = day_count_for(before.day, before.day_count, bar_day);
        &&& after.day == Some(bar_day)
        &&& 0 <= base <= usize::MAX
        &&& entered(numbers, after.equity, atr_values, candles, bar, strategy, instrument, data, base as usize, after.position)
        &&& after.day_count == base + (if after.position is Some {
            1int
        } else {
            0int
        })
    }
}

/// One bar of a run: the bar's range of sub-bars is found; the position
/// held is managed; a trade that closed is booked; an entry is considered;
/// and the account is read at the bar's close.
pub open spec fn bar_walked<V, N: Numbers<V>>(
    numbers: &N,
    atr_values: &Option<Vec<Option<V>>>,
    candles: Seq<Candle<V>>,
    sub_bars: &SubBarData<V>,
    strategy: &Strategy<V>,
    config: &BacktestConfig<V>,
    instrument: &InstrumentConfig<V>,
    data: &RuleData<V>,
    bar: int,
    before: Walk<V>,
    closed: Option<TradeResult<V>>,
    mark: Mark<V>,
    after: Walk<V>,
) -> bool {
    exists|range: (usize, usize), mid: Option<OpenPosition<V>>|
        {
            &&& #[trigger] held_managed(numbers, before.position, candles, bar, sub_bars, range, strategy, config, instrument, data, mid, closed)
            &&& subbar_range(sub_bars, before.cursor, candles[bar].timestamp as int, next_time(candles, bar), range, after.cursor)
            &&& equity_after(numbers, before.equity, closed, after.equity)
            &&& entry_considered(numbers, atr_values, candles, bar, strategy, instrument, data, mid, before, after)
            &&& marked(numbers, after.equity, before.peak, after.position, &candles[bar], instrument, mark, after.peak)
        }
}

/// Step `k` of a run that began at bar `start`.
pub open spec fn walked_at<V, N: Numbers<V>>(
    numbers: &N,
    atr_values: &Option<Vec<Option<V>>>,
    candles: Seq<Candle<V>>,
    sub_bars: &SubBarData<V>,
    strategy: &Strategy<V>,
    config: &BacktestConfig<V>,
    instrument: &InstrumentConfig<V>,
    data: &RuleData<V>,
    start: int,
    walks: Seq<Walk<V>>,
    closes: Seq<Option<TradeResult<V>>>,
    marks: Seq<Mark<V>>,
    k: int,
) -> bool {
    bar_walked(numbers, atr_values, candles, sub_bars, strategy, config, instrument, data, start + k, walks[k], closes[k], marks[k], walks[k + 1])
}

/// The bars from `start` up to `upto` were walked: `walks` holds the state
/// before the first and after each, `closes` the trade that each closed, if
/// any, and `marks` the reading of the account on each. The run starts
/// without a position, with the initial capital as equity and peak.
pub open spec fn run_walked<V, N: Numbers<V>>(
    numbers: &N,
    atr_values: &Option<Vec<Option<V>>>,
    candles: Seq<Candle<V>>,
    sub_bars: &SubBarData<V>,
    strategy: &Strategy<V>,
    config: &BacktestConfig<V>,
    instrument: &InstrumentConfig<V>,
    data: &RuleData<V>,
    start: int,
    upto: int,
    walks: Seq<Walk<V>>,
    closes: Seq<Option<TradeResult<V>>>,
    marks: Seq<Mark<V>>,
) -> bool {
    &&& walks.len() == upto - start + 1
    &&& closes.len() == upto - start
    &&& marks.len() == upto - start
    &&& walks[0] == (Walk { position: None, equity: config.initial_capital, peak: config.initial_capital, cursor: 0, day: None, day_count: 0 })
    &&& forall|k: int| 0 <= k < upto - start ==> #[trigger] walked_at(numbers, atr_values, candles, sub_bars, strategy, config, instrument, data, start, walks, closes, marks, k)
}

/// The trades among the first `n` entries of `closes`, in order.
pub open spec fn collected<T>(closes: Seq<Option<T>>, n: int) -> Seq<T>
    decreases n,
{
    if n <= 0 {
        Seq::empty()
    } else {
        match closes[n - 1] {
            Some(t) => collected(closes, n - 1).push(t),
            None => collected(closes, n - 1),
        }
    }
}

/// Point `k` of the two curves is the reading of bar `k` of the run.
pub open spec fn point_marked<V>(out: BacktestResults<V>, marks: Seq<Mark<V>>, k: int) -> bool {
    out.equity_curve@[k].equity == marks[k].equity && out.drawdown_curve@[k].drawdown_pct == marks[k].drawdown_pct
}

/// The trades of a run are those that its bars closed, in order, and, where
/// a position is left open after the last bar, the record of closing it at
/// the last close for `EndOfData`.
pub open spec fn trades_collected<V, N: Numbers<V>>(
    numbers: &N,
    candles: Seq<Candle<V>>,
    strategy: &Strategy<V>,
    config: &BacktestConfig<V>,
    instrument: &InstrumentConfig<V>,
    left: Option<OpenPosition<V>>,
    during: Seq<TradeResult<V>>,
    trades: Seq<TradeResult<V>>,
) -> bool {
    match left {
        None => trades == during,
        Some(pos) => {
            let last = candles[candles.len() - 1];
            &&& trades.len() == during.len() + 1
            &&& trades.subrange(0, during.len() as int) == during
            &&& position_closed(numbers, &pos, last.close, last.datetime, last.timestamp, candles.len() - 1, CloseReason::EndOfData, instrument, strategy, config, trades[during.len() as int])
        },
    }
}

/// `out` is the result of walking the bars from `start` on: its trades are
/// those that the walk closed, its curves the readings of the walk, bar by
/// bar, and its metrics those of its trades.
pub open spec fn run_traced<V, N: Numbers<V>>(
    numbers: &N,
    atr_values: &Option<Vec<Option<V>>>,
    candles: Seq<Candle<V>>,
    sub_bars: &SubBarData<V>,
    strategy: &Strategy<V>,
    config: &BacktestConfig<V>,
    instrument: &InstrumentConfig<V>,
    data: &RuleData<V>,
    start: int,
    out: BacktestResults<V>,
) -> bool {
    exists|walks: Seq<Walk<V>>, closes: Seq<Option<TradeResult<V>>>, marks: Seq<Mark<V>>|
        {
            &&& #[trigger] run_walked(numbers, atr_values, candles, sub_bars, strategy, config, instrument, data, start, candles.len() as int, walks, closes, marks)
            &&& out.equity_curve@.len() == marks.len()
            &&& out.drawdown_curve@.len() == marks.len()
            &&& forall|k: int| 0 <= k < marks.len() ==> #[trigger] point_marked(out, marks, k)
            &&& trades_collected(numbers, candles, strategy, config, instrument, walks[candles.len() - start].position, collected(closes, closes.len() as int), out.trades@)
            &&& metrics_of(numbers, out.trades@, out.equity_curve@, config.initial_capital, config.timeframe, out.metrics)
        }
}

/// `out` is the result of a run of the bar loop: `run_traced` with the
/// average true range that the risk settings need.
pub open spec fn loop_run<V, N: Numbers<V>>(
    numbers: &N,
    candles: Seq<Candle<V>>,
    sub_bars: &SubBarData<V>,
    strategy: &Strategy<V>,
    config: &BacktestConfig<V>,
    instrument: &InstrumentConfig<V>,
    data: &RuleData<V>,
    out: BacktestResults<V>,
) -> bool {
    exists|atr_values: Option<Vec<Option<V>>>| #[trigger] run_traced(numbers, &atr_values, candles, sub_bars, strategy, config, instrument, data, start_bar_of(strategy, candles.len() as int), out) && atr_prepared(numbers, candles, strategy, &atr_values)
}

/// Walks the bars from the strategy's lookback on. On each bar the loop
/// first manages the open position (stop or target within the bar, closing
/// time, exit rules, trailing stop), then considers an entry if no position
/// is open, then records equity and drawdown. A position left open at the
/// end is closed at the last close.
///
/// The loop polls the cancel flag at every bar whose index is a multiple of
/// 1000 and reports progress there.
///
/// Whatever the flag, the arithmetic and the comparisons yield: no candles
/// give `NoDataInRange`; the only other error is `BacktestCancelled`, and
/// only where a poll took place; a finished run satisfies `run_result`.
pub fn run_bar_loop<V: Copy, N: Numbers<V>, F: Fn(u8, usize, usize)>(
    candles: &Vec<Candle<V>>,
    sub_bars: &SubBarData<V>,
    strategy: &Strategy<V>,
    config: &BacktestConfig<V>,
    instrument: &InstrumentConfig<V>,
    data: &RuleData<V>,
    numbers: &N,
    cancel_flag: &AtomicBool,
    progress_callback: F,
) -> (r: Result<BacktestResults<V>, AppError>)
    requires
        sub_bars.wf(),
        forall|p: u8, c: usize, t: usize| progress_callback.requires((p, c, t)),
    ensures
        candles@.len() == 0 ==> r == Err::<BacktestResults<V>, AppError>(AppError::NoDataInRange),
        candles@.len() > 0 && r is Err ==> r->Err_0 == AppError::BacktestCancelled && polls_between(
            start_bar_of(strategy, candles@.len() as int),
            candles@.len() as int,
        ),
        candles@.len() > 0 && !polls_between(start_bar_of(strategy, candles@.len() as int), candles@.len() as int) ==> r is Ok,
        r is Ok ==> loop_run(numbers, candles@, sub_bars, strategy, config, instrument, data, r->Ok_0),
        r is Ok ==> run_result(r->Ok_0, candles@, sub_bars, strategy, start_bar_of(strategy, candles@.len() as int)),
        r is Ok && never_trades(strategy) ==> flat_equity(r->Ok_0, config.initial_capital),
{
    let total_bars: usize = candles.len();
    if total_bars == 0 {
        return Err(AppError::NoDataInRange);
    }
    let lookback: usize = max_lookback(strategy);
    let start_bar: usize = if lookback < total_bars {
        lookback
    } else {
        total_bars
    };
    let ghost ordered: bool = time_ordered(candles@, sub_bars);
    let ghost no_entries: bool = strategy.long_entry_rules@.len() == 0 && strategy.short_entry_rules@.len() == 0;
    let ghost capped: bool = strategy.max_daily_trades == Some(0u32);
    let mut ledger = Ledger {
        equity: config.initial_capital,
        peak_equity: config.initial_capital,
        atr_values: compute_atr_if_needed(numbers, strategy, candles),
    };
    let mut position: Option<OpenPosition<V>> = None;
    let mut trades: Vec<TradeResult<V>> = Vec::new();
    let mut equity_curve: Vec<EquityPoint<V>> = Vec::new();
    let mut drawdown_curve: Vec<DrawdownPoint<V>> = Vec::new();
    let mut sub_cursor: usize = 0;
    let mut daily_trade_count: usize = 0;
    let mut current_day: Option<i64> = None;
    let ghost atr_values = ledger.atr_values;
    let ghost mut floor_bar: int = 0;
    let ghost mut walks: Seq<Walk<V>> = seq![Walk { position: None, equity: config.initial_capital, peak: config.initial_capital, cursor: 0, day: None, day_count: 0 }];
    let ghost mut closes: Seq<Option<TradeResult<V>>> = Seq::empty();
    let ghost mut marks: Seq<Mark<V>> = Seq::empty();
    let mut i: usize = start_bar;
    while i < total_bars
        invariant
            ordered ==> trades_follow(trades@, sub_bars),
            0 <= floor_bar <= i,
            floor_bar < total_bars,
            ordered && trades@.len() > 0 ==> trades@[trades@.len() - 1].entry_timestamp <= candles@[floor_bar].timestamp && (sub_bars is Absent ==> trades@[trades@.len() - 1].exit_timestamp <= candles@[floor_bar].timestamp),
            position is Some ==> position->Some_0.entry_bar >= floor_bar,
            ledger.atr_values == atr_values,
            run_walked(numbers, &atr_values, candles@, sub_bars, strategy, config, instrument, data, start_bar as int, i as int, walks, closes, marks),
            walks[i - start_bar] == (Walk { position, equity: ledger.equity, peak: ledger.peak_equity, cursor: sub_cursor as int, day: current_day, day_count: daily_trade_count as int }),
            trades@ == collected(closes, i - start_bar),
            forall|k: int| 0 <= k < i - start_bar ==> #[trigger] equity_curve@[k].equity == marks[k].equity,
            forall|k: int| 0 <= k < i - start_bar ==> #[trigger] drawdown_curve@[k].drawdown_pct == marks[k].drawdown_pct,
            sub_bars.wf(),
            forall|p: u8, c: usize, t: usize| progress_callback.requires((p, c, t)),
            total_bars == candles@.len(),
            start_bar == start_bar_of(strategy, total_bars as int),
            ordered == time_ordered(candles@, sub_bars),
            no_entries == (strategy.long_entry_rules@.len() == 0 && strategy.short_entry_rules@.len() == 0),
            capped == (strategy.max_daily_trades == Some(0u32)),
            start_bar <= i <= total_bars,
            sub_cursor <= sub_bars.timestamps().len(),
            equity_curve@.len() == i - start_bar,
            drawdown_curve@.len() == i - start_bar,
            forall|k: int| 0 <= k < equity_curve@.len() ==> (#[trigger] equity_curve@[k]).timestamp == candles@[start_bar + k].datetime,
            forall|k: int| 0 <= k < drawdown_curve@.len() ==> (#[trigger] drawdown_curve@[k]).timestamp == candles@[start_bar + k].datetime,
            trades@.len() + (if position is Some { 1int } else { 0int }) <= i - start_bar,
            daily_trade_count <= i - start_bar,
            position is Some ==> position->Some_0.entry_bar < i && position->Some_0.entry_timestamp == candles@[position->Some_0.entry_bar as int].timestamp,
            position is Some ==> may_open(strategy, position->Some_0.direction) && within_risk(strategy, position->Some_0),
            no_entries || capped ==> ledger.equity == config.initial_capital,
            no_entries || capped ==> forall|k: int| 0 <= k < equity_curve@.len() ==> (#[trigger] equity_curve@[k]).equity == config.initial_capital,
            forall|j: int| 0 <= j < trades@.len() ==> trade_in_run(strategy, #[trigger] trades@[j], total_bars as int, ordered),
            no_entries || capped ==> position is None && trades@.len() == 0,
        decreases total_bars - i,
    {
        if i % 1000 == 0 {
            if is_cancelled(cancel_flag) {
                return Err(AppError::BacktestCancelled);
            }
            let pct: u8 = progress_percent(i - start_bar, total_bars - start_bar);
            progress_callback(pct, i, total_bars);
        }
        let candle = &candles[i];
        let candle_ts: i64 = candle.timestamp;
        let next_ts: i64 = if i + 1 < total_bars {
            candles[i + 1].timestamp
        } else {
            i64::MAX
        };
        let ghost cursor_before = sub_cursor;
        let ghost before = walks[i - start_bar];
        let ghost earlier_walks = walks;
        let ghost earlier_closes = closes;
        let ghost earlier_marks = marks;
        let ghost equity_points = equity_curve@;
        let ghost drawdown_points = drawdown_curve@;
        let ghost trades_before = trades@;
        let ghost mut closed: Option<TradeResult<V>> = None;
        let range = find_subbar_range(sub_bars, &mut sub_cursor, candle_ts, next_ts);
        assert(next_ts == next_time(candles@, i as int));
        let sub_start: usize = range.0;
        let sub_end: usize = range.1;

        let held = position;
        position = None;
        if let Some(pos) = held {
            let ghost entry_bar = pos.entry_bar;
            let outcome = exit_step(numbers, pos, candles, i, sub_bars, sub_start, sub_end, strategy, config, instrument, data);
            position = outcome.0;
            proof {
                closed = outcome.1;
            }
            if let Some(trade) = outcome.1 {
                book_trade(numbers, &mut ledger, &trade);
                proof {
                    if ordered {
                        assert(candle_times(candles@)[entry_bar as int] <= candle_times(candles@)[i as int]);
                        if !(sub_bars is Absent) && (trade.close_reason == CloseReason::StopLoss || trade.close_reason == CloseReason::TakeProfit) {
                            let k = choose|k: int| sub_start <= k < sub_end && trade.exit_timestamp == #[trigger] sub_bars.timestamps()[k];
                            assert(sub_bars.timestamps()[sub_start as int] <= sub_bars.timestamps()[k]);
                            assert(sub_bars.timestamps()[sub_start as int] >= candle_ts);
                        }
                        assert(trade.exit_timestamp >= trade.entry_timestamp);
                    }
                    assert(trade_in_run(strategy, trade, total_bars as int, ordered));
                }
                let ghost earlier_trades = trades@;
                trades.push(trade);
                proof {
                    if ordered {
                        assert(candle_times(candles@)[floor_bar] <= candle_times(candles@)[entry_bar as int]);
                        assert(trade.entry_timestamp == candles@[entry_bar as int].timestamp);
                        assert forall|j: int| 0 <= j && j + 1 < trades@.len() implies #[trigger] follows_at(trades@, sub_bars, j) by {
                            if j + 1 < earlier_trades.len() {
                                assert(follows_at(earlier_trades, sub_bars, j));
                            }
                        }
                        assert(trade.entry_timestamp <= candles@[i as int].timestamp);
                        if sub_bars is Absent {
                            assert(trade.exit_timestamp == candles@[i as int].timestamp);
                        }
                    }
                    floor_bar = i as int;
                }
            }
        }

        let ghost mid = position;
        assert(held_managed(numbers, before.position, candles@, i as int, sub_bars, range, strategy, config, instrument, data, mid, closed));
        assert(equity_after(numbers, before.equity, closed, ledger.equity));
        if position.is_none() {
            let bar_day: i64 = day_number(candle_ts);
            let same_day: bool = match current_day {
                Some(d) => d == bar_day,
                None => false,
            };
            if !same_day {
                current_day = Some(bar_day);
                daily_trade_count = 0;
            }
            let opened = entry_step(numbers, &ledger, candles, i, strategy, instrument, data, daily_trade_count);
            if opened.is_some() {
                daily_trade_count += 1;
            }
            position = opened;
        }

        let ghost curve_before = equity_curve@;
        let mark: Mark<V> = record_equity(numbers, &mut ledger, &position, candle, instrument);
        equity_curve.push(EquityPoint { timestamp: candle.datetime.clone(), equity: mark.equity });
        proof {
            if no_entries || capped {
                assert forall|k: int| 0 <= k < equity_curve@.len() implies (#[trigger] equity_curve@[k]).equity == config.initial_capital by {
                    if k < curve_before.len() {
                        assert(equity_curve@[k] == curve_before[k]);
                    }
                }
            }
        }
        drawdown_curve.push(DrawdownPoint { timestamp: candle.datetime.clone(), drawdown_pct: mark.drawdown_pct });
        proof {
            let after = Walk { position, equity: ledger.equity, peak: ledger.peak_equity, cursor: sub_cursor as int, day: current_day, day_count: daily_trade_count as int };
            assert(entry_considered(numbers, &atr_values, candles@, i as int, strategy, instrument, data, mid, before, after));
            assert(bar_walked(numbers, &atr_values, candles@, sub_bars, strategy, config, instrument, data, i as int, before, closed, mark, after));
            walks = earlier_walks.push(after);
            closes = earlier_closes.push(closed);
            marks = earlier_marks.push(mark);
            let n = i - start_bar;
            assert forall|k: int| 0 <= k < n + 1 implies #[trigger] walked_at(numbers, &atr_values, candles@, sub_bars, strategy, config, instrument, data, start_bar as int, walks, closes, marks, k) by {
                if k < n {
                    assert(walked_at(numbers, &atr_values, candles@, sub_bars, strategy, config, instrument, data, start_bar as int, earlier_walks, earlier_closes, earlier_marks, k));
                }
            }
            lemma_collected_grows(earlier_closes, closes, n);
            assert(closes[n] == closed);
            assert(trades@ == collected(closes, n + 1));
            assert forall|k: int| 0 <= k < n + 1 implies #[trigger] equity_curve@[k].equity == marks[k].equity by {
                if k < n {
                    assert(equity_curve@[k] == equity_points[k]);
                }
            }
            assert forall|k: int| 0 <= k < n + 1 implies #[trigger] drawdown_curve@[k].drawdown_pct == marks[k].drawdown_pct by {
                if k < n {
                    assert(drawdown_curve@[k] == drawdown_points[k]);
                }
            }
        }
        i += 1;
    }
    let ghost during = trades@;
    let ghost left = position;

    if let Some(pos) = position {
        let last = &candles[total_bars - 1];
        proof {
            if ordered {
                assert(candle_times(candles@)[pos.entry_bar as int] <= candle_times(candles@)[total_bars - 1]);
            }
        }
        let trade = close_position(numbers, &pos, last.close, &last.datetime, last.timestamp, total_bars - 1, CloseReason::EndOfData, instrument, strategy, config);
        assert(trade_in_run(strategy, trade, total_bars as int, ordered));
        trades.push(trade);
        proof {
            if ordered {
                assert(candle_times(candles@)[floor_bar] <= candle_times(candles@)[pos.entry_bar as int]);
                assert forall|j: int| 0 <= j && j + 1 < trades@.len() implies #[trigger] follows_at(trades@, sub_bars, j) by {
                    if j + 1 < during.len() {
                        assert(follows_at(during, sub_bars, j));
                    }
                }
            }
            assert(trades@.subrange(0, during.len() as int) =~= during);
            assert(trades@[during.len() as int] == trade);
            assert(trades_collected(numbers, candles@, strategy, config, instrument, left, during, trades@));
        }
    }
    assert(trades_collected(numbers, candles@, strategy, config, instrument, left, during, trades@));
    progress_callback(100, total_bars, total_bars);

    let metrics = calculate_metrics(numbers, &trades, &equity_curve, config.initial_capital, config.timeframe);
    let mut profits: Vec<V> = Vec::new();
    let mut j: usize = 0;
    while j < trades.len()
        invariant
            j <= trades@.len(),
            profits@.len() == j,
            forall|k: int| 0 <= k < j ==> profits@[k] == (#[trigger] trades@[k]).pnl,
        decreases trades@.len() - j,
    {
        profits.push(trades[j].pnl);
        j += 1;
    }
    let out = BacktestResults { trades, equity_curve, drawdown_curve, returns: profits, metrics };
    proof {
        assert forall|k: int| 0 <= k < marks.len() implies #[trigger] point_marked(out, marks, k) by {
            assert(out.equity_curve@[k].equity == marks[k].equity);
            assert(out.drawdown_curve@[k].drawdown_pct == marks[k].drawdown_pct);
        }
        assert(walks[candles@.len() - start_bar].position == left);
        assert(trades_collected(numbers, candles@, strategy, config, instrument, left, during, out.trades@));
        assert(run_traced(numbers, &atr_values, candles@, sub_bars, strategy, config, instrument, data, start_bar as int, out));
    }
    Ok(out)
}

/// What was collected from a list of closes is collected from any list
/// that begins with it.
pub proof fn lemma_collected_grows<T>(shorter: Seq<Option<T>>, longer: Seq<Option<T>>, n: int)
    requires
        0 <= n <= shorter.len() <= longer.len(),
        forall|k: int| 0 <= k < shorter.len() ==> shorter[k] == longer[k],
    ensures
        collected(shorter, n) == collected(longer, n),
    decreases n,
{
    if n > 0 {
        lemma_collected_grows(shorter, longer, n - 1);
    }
}

/// What a run on candles may fail with: cancellation, and only where a
/// poll of the cancel flag took place; or the error with which an indicator
/// that the strategy reads fails its validation.
pub open spec fn run_failed<V>(strategy: &Strategy<V>, len: usize, e: AppError) -> bool {
    ||| (e == AppError::BacktestCancelled && polls_between(start_bar_of(strategy, len as int), len as int))
    ||| fails_with(strategy, len, e)
}

/// The rules of a strategy read the daily levels.
pub open spec fn reads_daily<V>(strategy: &Strategy<V>) -> bool {
    rules_read_daily(strategy.long_entry_rules@) || rules_read_daily(strategy.short_entry_rules@) || rules_read_daily(strategy.long_exit_rules@) || rules_read_daily(strategy.short_exit_rules@)
}

/// The candle pattern flags are those of the candles, with the values that
/// `numbers` gives to zero and to one for a pattern that is absent and one
/// that is present.
pub open spec fn patterns_cached<V, N: Numbers<V>>(numbers: &N, candles: Seq<Candle<V>>, cache: &CandlePatternCache<V>) -> bool {
    exists|unset: V, set: V| #[trigger] detected(numbers, candles, unset, set, flags_of(cache)) && ints(numbers, 0, unset) && ints(numbers, 1, set)
}

/// The optional caches of the rule data are there exactly where a rule of
/// the strategy reads them, and hold the daily levels, the bar times and
/// the pattern flags of the candles.
pub open spec fn caches_made<V, N: Numbers<V>>(numbers: &N, candles: Seq<Candle<V>>, strategy: &Strategy<V>, data: &RuleData<V>) -> bool {
    &&& (data.daily_ohlc is Some <==> reads_daily(strategy))
    &&& (data.daily_ohlc is Some ==> daily_levels_of(candles, data.daily_ohlc->Some_0) && day_levels_run(
        numbers,
        candles,
        data.daily_ohlc->Some_0.daily_high@,
        data.daily_ohlc->Some_0.daily_low@,
    ))
    &&& (data.time_cache is Some <==> strategy_uses(strategy, OperandType::BarTime))
    &&& (data.time_cache is Some ==> time_cached(numbers, candles, &data.time_cache->Some_0))
    &&& (data.pattern_cache is Some <==> strategy_uses(strategy, OperandType::CandlePattern))
    &&& (data.pattern_cache is Some ==> patterns_cached(numbers, candles, &data.pattern_cache->Some_0))
}

/// `out` is the result of a backtest: of the bar loop, run with the
/// indicators that the strategy reads, each computed once, and with the
/// caches that its rules read.
pub open spec fn backtest_run<V, N: Numbers<V>>(numbers: &N, candles: Seq<Candle<V>>, sub_bars: &SubBarData<V>, strategy: &Strategy<V>, config: &BacktestConfig<V>, instrument: &InstrumentConfig<V>, out: BacktestResults<V>) -> bool {
    exists|data: RuleData<V>| #[trigger] loop_run(numbers, candles, sub_bars, strategy, config, instrument, &data, out) && caches_made(numbers, candles, strategy, &data) && exists|uses: Seq<IndicatorUse>, keep: Seq<usize>| #[trigger] cache_of(numbers, strategy, candles, uses, keep, &data.cache)
}

/// Runs a complete backtest of `strategy` on `candles`: computes the
/// indicators that the rules read, each once, and the caches for daily
/// levels, bar times and candle patterns where a rule reads them, and then
/// walks the bars as `run_bar_loop` does.
///
/// Whatever the flag, the arithmetic and the comparisons yield: no candles
/// give `NoDataInRange`; a finished run satisfies `run_result`; and a
/// strategy that reads no indicator fails only by cancellation, and only
/// where a poll took place.
pub fn run_backtest<V: Copy, N: Numbers<V>, F: Fn(u8, usize, usize)>(
    candles: &Vec<Candle<V>>,
    sub_bars: &SubBarData<V>,
    strategy: &Strategy<V>,
    config: &BacktestConfig<V>,
    instrument: &InstrumentConfig<V>,
    numbers: &N,
    cancel_flag: &AtomicBool,
    progress_callback: F,
) -> (r: Result<BacktestResults<V>, AppError>)
    requires
        sub_bars.wf(),
        forall|p: u8, c: usize, t: usize| progress_callback.requires((p, c, t)),
    ensures
        candles@.len() == 0 ==> r == Err::<BacktestResults<V>, AppError>(AppError::NoDataInRange),
        candles@.len() > 0 && r is Err ==> run_failed(strategy, candles@.len() as usize, r->Err_0),
        candles@.len() > 0 && all_valid(strategy, candles@.len() as usize) && !polls_between(start_bar_of(strategy, candles@.len() as int), candles@.len() as int) ==> r is Ok,
        candles@.len() > 0 && !all_valid(strategy, candles@.len() as usize) ==> r is Err && fails_with(strategy, candles@.len() as usize, r->Err_0),
        r is Ok ==> backtest_run(numbers, candles@, sub_bars, strategy, config, instrument, r->Ok_0),
        candles@.len() > 0 && r is Err && !strategy_reads_indicators(strategy) ==> r->Err_0 == AppError::BacktestCancelled && polls_between(
            start_bar_of(strategy, candles@.len() as int),
            candles@.len() as int,
        ),
        r is Ok ==> run_result(r->Ok_0, candles@, sub_bars, strategy, start_bar_of(strategy, candles@.len() as int)),
        r is Ok && never_trades(strategy) ==> flat_equity(r->Ok_0, config.initial_capital),
{
    if candles.len() == 0 {
        return Err(AppError::NoDataInRange);
    }
    let cache = match pre_compute_indicators(numbers, strategy, candles) {
        Ok(c) => c,
        Err(e) => {
            assert(fails_with(strategy, candles@.len() as usize, e));
            return Err(e);
        },
    };
    let ghost (uses, keep) = choose|uses: Seq<IndicatorUse>, keep: Seq<usize>| #[trigger] cache_of(numbers, strategy, candles@, uses, keep, &cache);
    let daily_ohlc = if strategy_uses_daily_prices(strategy) {
        Some(compute_daily_ohlc(numbers, candles))
    } else {
        None
    };
    let time_cache = if strategy_uses_time_fields(strategy) {
        Some(compute_time_cache(numbers, candles))
    } else {
        None
    };
    let pattern_cache = if strategy_uses_candle_patterns(strategy) {
        Some(compute_candle_pattern_cache(numbers, candles))
    } else {
        None
    };
    let data = RuleData { cache, daily_ohlc, time_cache, pattern_cache };
    assert(cache_of(numbers, strategy, candles@, uses, keep, &data.cache));
    assert(caches_made(numbers, candles@, strategy, &data));
    let r = run_bar_loop(candles, sub_bars, strategy, config, instrument, &data, numbers, cancel_flag, progress_callback);
    proof {
        if r is Ok {
            assert(loop_run(numbers, candles@, sub_bars, strategy, config, instrument, &data, r->Ok_0));
            assert(backtest_run(numbers, candles@, sub_bars, strategy, config, instrument, r->Ok_0));
        }
    }
    r
}

/// A finished run has as many equity points as drawdown points: one for
/// each bar from the strategy's lookback on.
pub proof fn lemma_curve_lengths<V>(out: BacktestResults<V>, candles: Seq<Candle<V>>, sub_bars: &SubBarData<V>, strategy: &Strategy<V>)
    requires
        run_result(out, candles, sub_bars, strategy, start_bar_of(strategy, candles.len() as int)),
    ensures
        out.equity_curve@.len() == out.drawdown_curve@.len(),
        out.equity_curve@.len() == candles.len() - start_bar_of(strategy, candles.len() as int),
{
}

/// On time-ordered input no trade of a finished run ends before it began,
/// and every trade lasted fewer bars than the run has.
pub proof fn lemma_trades_in_order<V>(out: BacktestResults<V>, candles: Seq<Candle<V>>, sub_bars: &SubBarData<V>, strategy: &Strategy<V>, start: int, j: int)
    requires
        run_result(out, candles, sub_bars, strategy, start),
        time_ordered(candles, sub_bars),
        0 <= j < out.trades@.len(),
    ensures
        out.trades@[j].exit_timestamp >= out.trades@[j].entry_timestamp,
        0 <= out.trades@[j].duration_bars < candles.len(),
{
    assert(trade_in_run(strategy, out.trades@[j], candles.len() as int, time_ordered(candles, sub_bars)));
}

/// The metrics of a finished run count exactly the trades of the run.
pub proof fn lemma_metrics_count_trades<V>(out: BacktestResults<V>, candles: Seq<Candle<V>>, sub_bars: &SubBarData<V>, strategy: &Strategy<V>, start: int)
    requires
        run_result(out, candles, sub_bars, strategy, start),
    ensures
        out.metrics.total_trades == out.trades@.len(),
{
}

/// A run over a single candle makes no trade. Its only bar lies before the
/// lookback of every strategy, so it records no equity point either.
pub proof fn lemma_single_candle<V>(out: BacktestResults<V>, candles: Seq<Candle<V>>, sub_bars: &SubBarData<V>, strategy: &Strategy<V>)
    requires
        candles.len() == 1,
        run_result(out, candles, sub_bars, strategy, start_bar_of(strategy, 1)),
    ensures
        out.trades@.len() == 0,
        out.equity_curve@.len() == 0,
        out.drawdown_curve@.len() == 0,
{
    crate::engine::strategy::lemma_lookback_positive(strategy);
}

/// A run over a single candle leaves the capital as it was: its metrics
/// are the empty metrics, whose final capital is the initial capital.
pub proof fn lemma_single_candle_capital<V, N: Numbers<V>>(numbers: &N, out: BacktestResults<V>, candles: Seq<Candle<V>>, sub_bars: &SubBarData<V>, strategy: &Strategy<V>, config: &BacktestConfig<V>, instrument: &InstrumentConfig<V>)
    requires
        candles.len() == 1,
        backtest_run(numbers, candles, sub_bars, strategy, config, instrument, out),
    ensures
        out.trades@.len() == 0,
        out.equity_curve@.len() == 0,
        out.metrics.final_capital == config.initial_capital,
{
    crate::engine::strategy::lemma_lookback_positive(strategy);
    let data = choose|data: RuleData<V>| #[trigger] loop_run(numbers, candles, sub_bars, strategy, config, instrument, &data, out);
    let atr_values = choose|atr_values: Option<Vec<Option<V>>>| #[trigger] run_traced(numbers, &atr_values, candles, sub_bars, strategy, config, instrument, &data, start_bar_of(strategy, 1), out);
    let (walks, closes, marks) = choose|walks: Seq<Walk<V>>, closes: Seq<Option<TradeResult<V>>>, marks: Seq<Mark<V>>|
        {
            &&& #[trigger] run_walked(numbers, &atr_values, candles, sub_bars, strategy, config, instrument, &data, start_bar_of(strategy, 1), 1, walks, closes, marks)
            &&& out.equity_curve@.len() == marks.len()
            &&& out.drawdown_curve@.len() == marks.len()
            &&& forall|k: int| 0 <= k < marks.len() ==> #[trigger] point_marked(out, marks, k)
            &&& trades_collected(numbers, candles, strategy, config, instrument, walks[1 - start_bar_of(strategy, 1)].position, collected(closes, closes.len() as int), out.trades@)
            &&& metrics_of(numbers, out.trades@, out.equity_curve@, config.initial_capital, config.timeframe, out.metrics)
        };
    assert(start_bar_of(strategy, 1) == 1);
    assert(walks[0].position is None);
    assert(collected(closes, 0) =~= Seq::<TradeResult<V>>::empty());
    assert(out.trades@.len() == 0);
}

/// A strategy without entry rules makes no trade.
pub proof fn lemma_no_entry_rules<V>(out: BacktestResults<V>, candles: Seq<Candle<V>>, sub_bars: &SubBarData<V>, strategy: &Strategy<V>, start: int)
    requires
        run_result(out, candles, sub_bars, strategy, start),
        strategy.long_entry_rules@.len() == 0,
        strategy.short_entry_rules@.len() == 0,
    ensures
        out.trades@.len() == 0,
        out.metrics.total_trades == 0,
{
}

/// Over consecutive bars the cursor never moves back: where the range of
/// one bar ends, the search for the next begins, and it ends no earlier.
pub proof fn lemma_cursor_monotonic<V>(
    sub_bars: &SubBarData<V>,
    cursor: int,
    first_ts: int,
    second_ts: int,
    third_ts: int,
    first: (usize, usize),
    after_first: int,
    second: (usize, usize),
    after_second: int,
)
    requires
        0 <= cursor <= sub_bars.timestamps().len(),
        subbar_range(sub_bars, cursor, first_ts, second_ts, first, after_first),
        subbar_range(sub_bars, after_first, second_ts, third_ts, second, after_second),
    ensures
        cursor <= after_first <= after_second <= sub_bars.timestamps().len(),
        !(sub_bars is Absent) ==> first.1 <= second.0,
{
}

/// Whether the bytes of `a` from `i` on come before or equal those of `b`
/// from `i` on in dictionary order, given that the two agree before `i`.
pub open spec fn lex_le_from(a: Seq<u8>, b: Seq<u8>, i: int) -> bool
    decreases a.len() - i,
{
    if i >= a.len() {
        true
    } else if i >= b.len() {
        false
    } else if a[i] < b[i] {
        true
    } else if a[i] > b[i] {
        false
    } else {
        lex_le_from(a, b, i + 1)
    }
}

/// Dictionary order on texts, byte by byte.
pub open spec fn lex_le(a: Seq<u8>, b: Seq<u8>) -> bool {
    lex_le_from(a, b, 0)
}

/// Compares two texts in dictionary order.
pub fn text_le(a: &str, b: &str) -> (le: bool)
    ensures
        le == lex_le(vstd::utf8::encode_utf8(a@), vstd::utf8::encode_utf8(b@)),
{
    let x = a.as_bytes();
    let y = b.as_bytes();
    let mut i: usize = 0;
    while i < x.len()
        invariant
            i <= x@.len(),
            x@ == vstd::utf8::encode_utf8(a@),
            y@ == vstd::utf8::encode_utf8(b@),
            lex_le(x@, y@) == lex_le_from(x@, y@, i as int),
        decreases x@.len() - i,
    {
        if i >= y.len() {
            return false;
        }
        if x[i] < y[i] {
            return true;
        }
        if x[i] > y[i] {
            return false;
        }
        i += 1;
    }
    true
}

/// Whether a candle lies in a date range. An empty bound is no bound. The
/// candle's display time is compared as text, so a bound may be a date or a
/// date and time.
pub open spec fn in_date_range<V>(candle: Candle<V>, start_date: Seq<u8>, end_date: Seq<u8>) -> bool {
    &&& (start_date.len() == 0 || lex_le(start_date, vstd::utf8::encode_utf8(candle.datetime@)))
    &&& (end_date.len() == 0 || lex_le(vstd::utf8::encode_utf8(candle.datetime@), end_date))
}

/// Keeps the candles that lie in a date range, in order.
pub fn filter_candles_by_date<V: Copy>(candles: &Vec<Candle<V>>, start_date: &str, end_date: &str) -> (kept: Vec<Candle<V>>)
    ensures
        kept@ == candles@.filter(|c: Candle<V>| in_date_range(c, vstd::utf8::encode_utf8(start_date@), vstd::utf8::encode_utf8(end_date@))),
{
    let ghost keep = |c: Candle<V>| in_date_range(c, vstd::utf8::encode_utf8(start_date@), vstd::utf8::encode_utf8(end_date@));
    let no_start: bool = start_date.as_bytes().len() == 0;
    let no_end: bool = end_date.as_bytes().len() == 0;
    let mut kept: Vec<Candle<V>> = Vec::new();
    let mut i: usize = 0;
    assert(candles@.subrange(0, 0) =~= Seq::<Candle<V>>::empty());
    proof {
        reveal(Seq::filter);
    }
    while i < candles.len()
        invariant
            i <= candles@.len(),
            no_start == (vstd::utf8::encode_utf8(start_date@).len() == 0),
            no_end == (vstd::utf8::encode_utf8(end_date@).len() == 0),
            keep == |c: Candle<V>| in_date_range(c, vstd::utf8::encode_utf8(start_date@), vstd::utf8::encode_utf8(end_date@)),
            kept@ == candles@.subrange(0, i as int).filter(keep),
        decreases candles@.len() - i,
    {
        let c = &candles[i];
        let inside: bool = (no_start || text_le(start_date, c.datetime.as_str())) && (no_end || text_le(c.datetime.as_str(), end_date));
        proof {
            let before = candles@.subrange(0, i as int);
            let after = candles@.subrange(0, i + 1);
            assert(after.drop_last() =~= before);
            assert(after.last() == *c);
            reveal(Seq::filter);
        }
        if inside {
            let copy = Candle {
                timestamp: c.timestamp,
                datetime: c.datetime.clone(),
                open: c.open,
                high: c.high,
                low: c.low,
                close: c.close,
                volume: c.volume,
            };
            assert(copy == *c);
            kept.push(copy);
        }
        i += 1;
    }
    assert(candles@.subrange(0, candles@.len() as int) =~= candles@);
    kept
}

} // verus!
