use vstd::prelude::*;
use crate::engine::numeric::{
    distances, divs, floors, ints, maxes, moved, muls, pick, pips_between, relates, subs, Numbers,
    Relation,
};
use crate::engine::series::{
    relation,
};
use crate::models::candle::Candle;
use crate::models::config::InstrumentConfig;
use crate::models::strategy::{
    PositionSizing, PositionSizingType, StopLoss, StopLossType, TakeProfit, TakeProfitType,
    TradeDirection, TrailingStop, TrailingStopType,
};
use crate::models::trade::CloseReason;

verus! {

/// An open position tracked during a simulation.
#[derive(Debug, Clone)]
pub struct OpenPosition<V> {
    pub direction: TradeDirection,
    pub entry_price: V,
    pub entry_bar: usize,
    pub entry_time: String,
    /// Entry time in microseconds since the Unix epoch.
    pub entry_timestamp: i64,
    pub lots: V,
    pub stop_loss: Option<V>,
    pub take_profit: Option<V>,
    pub trailing_stop_distance: Option<V>,
    /// Highest price since entry.
    pub highest_since_entry: V,
    /// Lowest price since entry.
    pub lowest_since_entry: V,
    /// Maximum adverse excursion in pips.
    pub mae_pips: V,
    /// Maximum favorable excursion in pips.
    pub mfe_pips: V,
}

/// Whether a position of this direction is handled on the long side. A
/// position is never opened as `Both`; where one is met it counts as long.
pub open spec fn long_side(direction: TradeDirection) -> bool {
    direction != TradeDirection::Short
}

/// Tells whether a position of this direction is handled on the long side.
pub fn is_long_side(direction: TradeDirection) -> (b: bool)
    ensures
        b == long_side(direction),
{
    match direction {
        TradeDirection::Short => false,
        _ => true,
    }
}

/// How a stop-loss fills within one candle.
#[derive(Debug, Clone, Copy, PartialEq, Eq, Structural)]
pub enum StopFill {
    /// The candle did not reach the level.
    Untouched,
    /// The candle opened beyond the level: the stop-market order fills at the
    /// open, a worse price than the level.
    AtOpen,
    /// The level was reached within the candle and fills as it stands.
    AtLevel,
}

/// The stop-loss rule. `extreme` relates the candle's low (long) or high
/// (short) to the level, `open` relates the candle's open to it.
pub open spec fn stop_fill_of(direction: TradeDirection, extreme: Relation, open: Relation) -> StopFill {
    if long_side(direction) {
        if extreme.le() {
            if open.le() {
                StopFill::AtOpen
            } else {
                StopFill::AtLevel
            }
        } else {
            StopFill::Untouched
        }
    } else {
        if extreme.ge() {
            if open.ge() {
                StopFill::AtOpen
            } else {
                StopFill::AtLevel
            }
        } else {
            StopFill::Untouched
        }
    }
}

/// Decides how a stop-loss fills, from the two comparisons that matter.
pub fn stop_fill(direction: TradeDirection, extreme: Relation, open: Relation) -> (fill: StopFill)
    ensures
        fill == stop_fill_of(direction, extreme, open),
{
    if is_long_side(direction) {
        if extreme.is_le() {
            if open.is_le() {
                StopFill::AtOpen
            } else {
                StopFill::AtLevel
            }
        } else {
            StopFill::Untouched
        }
    } else {
        if extreme.is_ge() {
            if open.is_ge() {
                StopFill::AtOpen
            } else {
                StopFill::AtLevel
            }
        } else {
            StopFill::Untouched
        }
    }
}

/// The take-profit rule. `extreme` relates the candle's high (long) or low
/// (short) to the level. A take-profit is a limit order: once touched it
/// fills at the level.
pub open spec fn target_touched_of(direction: TradeDirection, extreme: Relation) -> bool {
    if long_side(direction) {
        extreme.ge()
    } else {
        extreme.le()
    }
}

/// Decides whether a take-profit was touched.
pub fn target_touched(direction: TradeDirection, extreme: Relation) -> (hit: bool)
    ensures
        hit == target_touched_of(direction, extreme),
{
    if is_long_side(direction) {
        extreme.is_ge()
    } else {
        extreme.is_le()
    }
}

/// When stop and target both fire within one candle, the one whose fill lies
/// closer to the open is taken to have come first; at equal distance the stop.
/// `distances` relates the stop's distance from the open to the target's.
pub open spec fn stop_comes_first_of(distances: Relation) -> bool {
    distances.le()
}

/// Decides which of a stop and a target that both fired came first.
pub fn stop_comes_first(distances: Relation) -> (stop: bool)
    ensures
        stop == stop_comes_first_of(distances),
{
    distances.is_le()
}

/// A stop that the open has already passed fills at the open, the worse
/// price: for a long position where the low and the open are at or below the
/// level, for a short one where the high and the open are at or above it.
pub proof fn lemma_gap_fills_at_open(direction: TradeDirection, extreme: Relation, open: Relation)
    requires
        long_side(direction) ==> extreme.le() && open.le(),
        !long_side(direction) ==> extreme.ge() && open.ge(),
    ensures
        stop_fill_of(direction, extreme, open) == StopFill::AtOpen,
{
}

/// Of a stop and a target that fire within one candle, the one closer to
/// the open wins.
pub proof fn lemma_closer_level_wins(distances: Relation)
    ensures
        distances.lt() ==> stop_comes_first_of(distances),
        distances.gt() ==> !stop_comes_first_of(distances),
{
}

/// What a stop-loss at `level` comes to on a candle, given how it fills.
pub open spec fn stop_result<V>(candle: &Candle<V>, level: V, fill: StopFill) -> Option<(V, CloseReason)> {
    match fill {
        StopFill::Untouched => None,
        StopFill::AtOpen => Some((candle.open, CloseReason::StopLoss)),
        StopFill::AtLevel => Some((level, CloseReason::StopLoss)),
    }
}

/// `r` is what the stop-loss of `pos` comes to on `candle`: nothing without
/// a stop; else what `stop_fill_of` decides from the relations in which
/// `numbers` finds the low (long) or the high (short), and the open, to the
/// level.
pub open spec fn stop_checked<V, N: Numbers<V>>(numbers: &N, pos: &OpenPosition<V>, candle: &Candle<V>, r: Option<(V, CloseReason)>) -> bool {
    match pos.stop_loss {
        None => r is None,
        Some(level) => exists|extreme: Relation| #[trigger]
            relates(numbers, pick(long_side(pos.direction), candle.low, candle.high), level, extreme) && exists|open: Relation| #[trigger]
                relates(numbers, candle.open, level, open) && r == stop_result(candle, level, stop_fill_of(pos.direction, extreme, open)),
    }
}

/// Checks the stop-loss of `pos` against one candle.
///
/// Whatever the comparisons yield: a position without a stop is never
/// stopped, and a fill is at the candle's open or at the level.
pub fn check_stop_loss<V: Copy, N: Numbers<V>>(numbers: &N, pos: &OpenPosition<V>, candle: &Candle<V>) -> (r: Option<(V, CloseReason)>)
    ensures
        stop_checked(numbers, pos, candle, r),
        pos.stop_loss is None ==> r is None,
        r is Some ==> {
            &&& pos.stop_loss is Some
            &&& r->Some_0.1 == CloseReason::StopLoss
            &&& (r->Some_0.0 == candle.open || r->Some_0.0 == pos.stop_loss->Some_0)
        },
{
    match pos.stop_loss {
        None => None,
        Some(sl) => {
            let extreme_price = if is_long_side(pos.direction) {
                candle.low
            } else {
                candle.high
            };
            let extreme = relation(numbers, extreme_price, sl);
            let open = relation(numbers, candle.open, sl);
            assert(extreme_price == pick(long_side(pos.direction), candle.low, candle.high));
            match stop_fill(pos.direction, extreme, open) {
                StopFill::Untouched => None,
                StopFill::AtOpen => Some((candle.open, CloseReason::StopLoss)),
                StopFill::AtLevel => Some((sl, CloseReason::StopLoss)),
            }
        },
    }
}

/// What a take-profit at `level` comes to, given whether it was touched.
pub open spec fn target_result<V>(level: V, touched: bool) -> Option<(V, CloseReason)> {
    if touched {
        Some((level, CloseReason::TakeProfit))
    } else {
        None
    }
}

/// `r` is what the take-profit of `pos` comes to on `candle`: nothing
/// without a target; else what `target_touched_of` decides from the
/// relation in which `numbers` finds the high (long) or the low (short) to
/// the level.
pub open spec fn target_checked<V, N: Numbers<V>>(numbers: &N, pos: &OpenPosition<V>, candle: &Candle<V>, r: Option<(V, CloseReason)>) -> bool {
    match pos.take_profit {
        None => r is None,
        Some(level) => exists|extreme: Relation| #[trigger]
            relates(numbers, pick(long_side(pos.direction), candle.high, candle.low), level, extreme) && r == target_result(
                level,
                target_touched_of(pos.direction, extreme),
            ),
    }
}

/// Checks the take-profit of `pos` against one candle.
///
/// Whatever the comparison yields: a position without a target never takes
/// profit, and a fill is at the level.
pub fn check_take_profit<V: Copy, N: Numbers<V>>(numbers: &N, pos: &OpenPosition<V>, candle: &Candle<V>) -> (r: Option<(V, CloseReason)>)
    ensures
        target_checked(numbers, pos, candle, r),
        pos.take_profit is None ==> r is None,
        r is Some ==> {
            &&& pos.take_profit is Some
            &&& r->Some_0.1 == CloseReason::TakeProfit
            &&& r->Some_0.0 == pos.take_profit->Some_0
        },
{
    match pos.take_profit {
        None => None,
        Some(tp) => {
            let extreme_price = if is_long_side(pos.direction) {
                candle.high
            } else {
                candle.low
            };
            let extreme = relation(numbers, extreme_price, tp);
            assert(extreme_price == pick(long_side(pos.direction), candle.high, candle.low));
            if target_touched(pos.direction, extreme) {
                Some((tp, CloseReason::TakeProfit))
            } else {
                None
            }
        },
    }
}

/// What `check_sl_tp_hit` may return for a position and a candle: nothing, a
/// stop at the open or at the level, or the target at its level.
pub open spec fn sl_tp_outcome<V>(pos: &OpenPosition<V>, candle: &Candle<V>, r: Option<(V, CloseReason)>) -> bool {
    match r {
        None => true,
        Some((price, reason)) => {
            ||| {
                &&& reason == CloseReason::StopLoss
                &&& pos.stop_loss is Some
                &&& (price == candle.open || price == pos.stop_loss->Some_0)
            }
            ||| {
                &&& reason == CloseReason::TakeProfit
                &&& pos.take_profit == Some(price)
            }
        },
    }
}

/// `r` is the one of a stop and a target that fired which came first: the
/// one that fired alone; of two, the stop where `stop_comes_first_of` says
/// so of the relation in which `numbers` finds the distance of the stop's
/// fill from `open` to that of the target's.
pub open spec fn first_fired<V, N: Numbers<V>>(numbers: &N, open: V, stop: Option<(V, CloseReason)>, target: Option<(V, CloseReason)>, r: Option<(V, CloseReason)>) -> bool {
    match (stop, target) {
        (None, None) => r is None,
        (Some(_), None) => r == stop,
        (None, Some(_)) => r == target,
        (Some(s), Some(t)) => exists|to_stop: V| #[trigger]
            distances(numbers, open, s.0, to_stop) && exists|to_target: V| #[trigger]
                distances(numbers, open, t.0, to_target) && exists|nearer: Relation| #[trigger]
                    relates(numbers, to_stop, to_target, nearer) && r == (if stop_comes_first_of(nearer) {
                        Some((s.0, CloseReason::StopLoss))
                    } else {
                        Some((t.0, CloseReason::TakeProfit))
                    }),
    }
}

/// `r` is what stop-loss and take-profit of `pos` come to on `candle`: what
/// `first_fired` makes of the two checks.
pub open spec fn levels_checked<V, N: Numbers<V>>(numbers: &N, pos: &OpenPosition<V>, candle: &Candle<V>, r: Option<(V, CloseReason)>) -> bool {
    exists|stop: Option<(V, CloseReason)>| #[trigger]
        stop_checked(numbers, pos, candle, stop) && exists|target: Option<(V, CloseReason)>| #[trigger]
            target_checked(numbers, pos, candle, target) && first_fired(numbers, candle.open, stop, target, r)
}

/// Checks stop-loss and take-profit of `pos` against one candle and returns
/// the fill price and the reason, if either fired. When both fire, the one
/// whose fill lies closer to the candle's open wins.
///
/// Whatever the comparisons yield: the result is one that `sl_tp_outcome`
/// admits, and a position with neither level is never closed.
pub fn check_sl_tp_hit<V: Copy, N: Numbers<V>>(numbers: &N, position: &OpenPosition<V>, candle: &Candle<V>) -> (r: Option<(V, CloseReason)>)
    ensures
        levels_checked(numbers, position, candle, r),
        sl_tp_outcome(position, candle, r),
        position.stop_loss is None && position.take_profit is None ==> r is None,
        position.stop_loss is None && r is Some ==> r->Some_0.1 == CloseReason::TakeProfit,
        position.take_profit is None && r is Some ==> r->Some_0.1 == CloseReason::StopLoss,
{
    let sl_result = check_stop_loss(numbers, position, candle);
    let tp_result = check_take_profit(numbers, position, candle);
    match (sl_result, tp_result) {
        (None, None) => None,
        (Some(sl), None) => Some(sl),
        (None, Some(tp)) => Some(tp),
        (Some(sl), Some(tp)) => {
            let dist_sl = numbers.distance(candle.open, sl.0);
            let dist_tp = numbers.distance(candle.open, tp.0);
            assert(distances(numbers, candle.open, sl.0, dist_sl));
            assert(distances(numbers, candle.open, tp.0, dist_tp));
            if stop_comes_first(relation(numbers, dist_sl, dist_tp)) {
                Some((sl.0, CloseReason::StopLoss))
            } else {
                Some((tp.0, CloseReason::TakeProfit))
            }
        },
    }
}

/// Whether a quote has reached a stop: at or below the level for the long
/// side, at or above it for the short side. `against` relates the exit
/// price of the quote to the level.
pub open spec fn stop_reached_of(direction: TradeDirection, against: Relation) -> bool {
    if long_side(direction) {
        against.le()
    } else {
        against.ge()
    }
}

/// `r` is what the stop-loss of `pos` comes to on a quote: nothing without
/// a stop; else a fill at the exit price of the quote, the bid (long) or
/// the ask (short), where `stop_reached_of` says so of the relation in
/// which `numbers` finds that price to the level.
pub open spec fn tick_stop_checked<V, N: Numbers<V>>(numbers: &N, pos: &OpenPosition<V>, bid: V, ask: V, r: Option<(V, CloseReason)>) -> bool {
    match pos.stop_loss {
        None => r is None,
        Some(level) => exists|against: Relation| #[trigger]
            relates(numbers, pick(long_side(pos.direction), bid, ask), level, against) && r == (if stop_reached_of(pos.direction, against) {
                Some((pick(long_side(pos.direction), bid, ask), CloseReason::StopLoss))
            } else {
                None
            }),
    }
}

/// Checks the stop-loss of `pos` against one quote. A long position exits at
/// the bid, a short one at the ask, and a stop fills at that price.
///
/// Whatever the comparison yields: a position without a stop is never
/// stopped, and a fill is at the quote's exit price.
pub fn check_tick_stop_loss<V: Copy, N: Numbers<V>>(numbers: &N, pos: &OpenPosition<V>, bid: V, ask: V) -> (r: Option<(V, CloseReason)>)
    ensures
        tick_stop_checked(numbers, pos, bid, ask, r),
        pos.stop_loss is None ==> r is None,
        r is Some ==> {
            &&& pos.stop_loss is Some
            &&& r->Some_0.1 == CloseReason::StopLoss
            &&& r->Some_0.0 == (if long_side(pos.direction) { bid } else { ask })
        },
{
    match pos.stop_loss {
        None => None,
        Some(sl) => {
            let price = if is_long_side(pos.direction) {
                bid
            } else {
                ask
            };
            let against = relation(numbers, price, sl);
            assert(price == pick(long_side(pos.direction), bid, ask));
            let touched = if is_long_side(pos.direction) {
                against.is_le()
            } else {
                against.is_ge()
            };
            if touched {
                Some((price, CloseReason::StopLoss))
            } else {
                None
            }
        },
    }
}

/// `r` is what the take-profit of `pos` comes to on a quote: nothing
/// without a target; else what `target_touched_of` decides from the
/// relation in which `numbers` finds the exit price of the quote to the
/// level.
pub open spec fn tick_target_checked<V, N: Numbers<V>>(numbers: &N, pos: &OpenPosition<V>, bid: V, ask: V, r: Option<(V, CloseReason)>) -> bool {
    match pos.take_profit {
        None => r is None,
        Some(level) => exists|against: Relation| #[trigger]
            relates(numbers, pick(long_side(pos.direction), bid, ask), level, against) && r == target_result(
                level,
                target_touched_of(pos.direction, against),
            ),
    }
}

/// Checks the take-profit of `pos` against one quote. The target fills at its
/// level.
///
/// Whatever the comparison yields: a position without a target never takes
/// profit, and a fill is at the level.
pub fn check_tick_take_profit<V: Copy, N: Numbers<V>>(numbers: &N, pos: &OpenPosition<V>, bid: V, ask: V) -> (r: Option<(V, CloseReason)>)
    ensures
        tick_target_checked(numbers, pos, bid, ask, r),
        pos.take_profit is None ==> r is None,
        r is Some ==> {
            &&& r->Some_0.1 == CloseReason::TakeProfit
            &&& pos.take_profit == Some(r->Some_0.0)
        },
{
    match pos.take_profit {
        None => None,
        Some(tp) => {
            let price = if is_long_side(pos.direction) {
                bid
            } else {
                ask
            };
            let against = relation(numbers, price, tp);
            assert(price == pick(long_side(pos.direction), bid, ask));
            if target_touched(pos.direction, against) {
                Some((tp, CloseReason::TakeProfit))
            } else {
                None
            }
        },
    }
}

/// What `check_tick_sl_tp` may return for a position and a quote.
pub open spec fn tick_outcome<V>(pos: &OpenPosition<V>, bid: V, ask: V, r: Option<(V, CloseReason)>) -> bool {
    match r {
        None => true,
        Some((price, reason)) => {
            ||| {
                &&& reason == CloseReason::StopLoss
                &&& pos.stop_loss is Some
                &&& price == (if long_side(pos.direction) { bid } else { ask })
            }
            ||| {
                &&& reason == CloseReason::TakeProfit
                &&& pos.take_profit == Some(price)
            }
        },
    }
}

/// `r` is what stop-loss and take-profit of `pos` come to on a quote: the
/// stop where it fired, else the target.
pub open spec fn tick_levels_checked<V, N: Numbers<V>>(numbers: &N, pos: &OpenPosition<V>, bid: V, ask: V, r: Option<(V, CloseReason)>) -> bool {
    exists|stop: Option<(V, CloseReason)>| #[trigger]
        tick_stop_checked(numbers, pos, bid, ask, stop) && exists|target: Option<(V, CloseReason)>| #[trigger]
            tick_target_checked(numbers, pos, bid, ask, target) && r == (if stop is Some {
                stop
            } else {
                target
            })
}

/// Checks stop-loss and take-profit of `pos` against one quote. When both
/// fire on the same quote the stop has priority.
///
/// Whatever the comparisons yield: the result is one that `tick_outcome`
/// admits, and a position with neither level is never closed.
pub fn check_tick_sl_tp<V: Copy, N: Numbers<V>>(numbers: &N, pos: &OpenPosition<V>, bid: V, ask: V) -> (r: Option<(V, CloseReason)>)
    ensures
        tick_levels_checked(numbers, pos, bid, ask, r),
        tick_outcome(pos, bid, ask, r),
        pos.stop_loss is None && pos.take_profit is None ==> r is None,
{
    let sl_result = check_tick_stop_loss(numbers, pos, bid, ask);
    let tp_result = check_tick_take_profit(numbers, pos, bid, ask);
    match (sl_result, tp_result) {
        (None, None) => None,
        (Some(sl), None) => Some(sl),
        (None, Some(tp)) => Some(tp),
        (Some(sl), Some(_)) => Some(sl),
    }
}

/// Whether `price` is a new extreme for a trailing stop: a new high for the
/// long side, a new low for the short side. `against` relates the price to
/// the running extreme.
pub open spec fn new_extreme_of(direction: TradeDirection, against: Relation) -> bool {
    if long_side(direction) {
        against.gt()
    } else {
        against.lt()
    }
}

/// Decides whether a price sets a new extreme for the trailing stop.
pub fn new_extreme(direction: TradeDirection, against: Relation) -> (b: bool)
    ensures
        b == new_extreme_of(direction, against),
{
    if is_long_side(direction) {
        against.is_gt()
    } else {
        against.is_lt()
    }
}

/// Whether a candidate stop replaces the current one. A stop only ever moves
/// in the direction that tightens it: up for the long side, down for the
/// short side. `against` relates the candidate to the current stop.
pub open spec fn tightens_of(direction: TradeDirection, against: Relation) -> bool {
    if long_side(direction) {
        against.gt()
    } else {
        against.lt()
    }
}

/// Decides whether a candidate stop replaces the current one.
pub fn tightens(direction: TradeDirection, against: Relation) -> (b: bool)
    ensures
        b == tightens_of(direction, against),
{
    if is_long_side(direction) {
        against.is_gt()
    } else {
        against.is_lt()
    }
}

/// What a trailing-stop update may do to a position when the price that
/// drives it is `price`: nothing at all; or `price` becomes the running
/// extreme of the position's side, and the stop is kept or replaced.
pub open spec fn trailing_step<V>(before: OpenPosition<V>, after: OpenPosition<V>, price: V) -> bool {
    ||| after == before
    ||| {
        &&& before.trailing_stop_distance is Some
        &&& after.stop_loss is Some
        &&& after == (OpenPosition {
            highest_since_entry: if long_side(before.direction) { price } else { before.highest_since_entry },
            lowest_since_entry: if long_side(before.direction) { before.lowest_since_entry } else { price },
            stop_loss: after.stop_loss,
            ..before
        })
    }
}

/// Whether a position of this direction is handled on the short side.
pub open spec fn short_side(direction: TradeDirection) -> bool {
    !long_side(direction)
}

/// A position after `price` became the running extreme of its side, with
/// `stop` as its stop-loss.
pub open spec fn with_extreme<V>(before: OpenPosition<V>, price: V, stop: Option<V>) -> OpenPosition<V> {
    OpenPosition {
        highest_since_entry: pick(long_side(before.direction), price, before.highest_since_entry),
        lowest_since_entry: pick(long_side(before.direction), before.lowest_since_entry, price),
        stop_loss: stop,
        ..before
    }
}

/// `after` is the position with `price` as its new extreme and `candidate`
/// offered as its stop: without a stop the candidate is taken; else it
/// replaces the stop where `tightens_of` says so of the relation in which
/// `numbers` finds the candidate to the stop.
pub open spec fn stop_offered<V, N: Numbers<V>>(numbers: &N, before: OpenPosition<V>, price: V, candidate: V, after: OpenPosition<V>) -> bool {
    match before.stop_loss {
        None => after == with_extreme(before, price, Some(candidate)),
        Some(stop) => exists|tighter: Relation| #[trigger]
            relates(numbers, candidate, stop, tighter) && after == with_extreme(
                before,
                price,
                Some(pick(tightens_of(before.direction, tighter), candidate, stop)),
            ),
    }
}

/// `after` is the position after its trailing stop followed the market to
/// `price`. Without a trailing distance nothing changes. Else `numbers`
/// relates the price to the running extreme of the side, the highest price
/// (long) or the lowest (short); where `new_extreme_of` finds no new
/// extreme nothing changes; else the candidate stop is the price less the
/// distance (long) or plus it (short), and `stop_offered` says what becomes
/// of it.
pub open spec fn trailed<V, N: Numbers<V>>(numbers: &N, before: OpenPosition<V>, price: V, after: OpenPosition<V>) -> bool {
    match before.trailing_stop_distance {
        None => after == before,
        Some(distance) => exists|against: Relation| #[trigger]
            relates(numbers, price, pick(long_side(before.direction), before.highest_since_entry, before.lowest_since_entry), against) && (if new_extreme_of(
                before.direction,
                against,
            ) {
                exists|candidate: V| #[trigger] moved(numbers, short_side(before.direction), price, distance, candidate) && stop_offered(numbers, before, price, candidate, after)
            } else {
                after == before
            }),
    }
}

/// Moves the trailing stop of `position` after the market has reached
/// `price` (a candle's high or a bid for the long side, a low or an ask for
/// the short side).
///
/// Whatever the arithmetic yields, the step is one that `trailing_step`
/// admits; without a trailing distance the position is left as it is.
pub fn trail_to<V: Copy, N: Numbers<V>>(numbers: &N, position: &mut OpenPosition<V>, price: V)
    ensures
        trailed(numbers, *old(position), price, *final(position)),
        trailing_step(*old(position), *final(position), price),
        old(position).trailing_stop_distance is None ==> *final(position) == *old(position),
{
    if let Some(distance) = position.trailing_stop_distance {
        let long: bool = is_long_side(position.direction);
        let extreme = if long {
            position.highest_since_entry
        } else {
            position.lowest_since_entry
        };
        let against = relation(numbers, price, extreme);
        assert(extreme == pick(long_side(position.direction), position.highest_since_entry, position.lowest_since_entry));
        if new_extreme(position.direction, against) {
            let candidate = if long {
                numbers.sub(price, distance)
            } else {
                numbers.add(price, distance)
            };
            assert(moved(numbers, short_side(position.direction), price, distance, candidate));
            let replace: bool = match position.stop_loss {
                Some(sl) => tightens(position.direction, relation(numbers, candidate, sl)),
                None => true,
            };
            if long {
                position.highest_since_entry = price;
            } else {
                position.lowest_since_entry = price;
            }
            if replace {
                position.stop_loss = Some(candidate);
            }
        }
    }
}

/// Updates the trailing stop of `position` from a candle: the long side
/// trails the high, the short side the low.
pub fn update_trailing_stop<V: Copy, N: Numbers<V>>(numbers: &N, position: &mut OpenPosition<V>, candle: &Candle<V>)
    ensures
        trailed(numbers, *old(position), pick(long_side(old(position).direction), candle.high, candle.low), *final(position)),
        trailing_step(
            *old(position),
            *final(position),
            if long_side(old(position).direction) { candle.high } else { candle.low },
        ),
        old(position).trailing_stop_distance is None ==> *final(position) == *old(position),
{
    let price = if is_long_side(position.direction) {
        candle.high
    } else {
        candle.low
    };
    trail_to(numbers, position, price);
}

/// Updates the trailing stop of `pos` from a quote: the long side trails the
/// bid, the short side the ask.
pub fn update_trailing_stop_tick<V: Copy, N: Numbers<V>>(numbers: &N, pos: &mut OpenPosition<V>, bid: V, ask: V)
    ensures
        trailed(numbers, *old(pos), pick(long_side(old(pos).direction), bid, ask), *final(pos)),
        trailing_step(*old(pos), *final(pos), if long_side(old(pos).direction) { bid } else { ask }),
        old(pos).trailing_stop_distance is None ==> *final(pos) == *old(pos),
{
    let price = if is_long_side(pos.direction) {
        bid
    } else {
        ask
    };
    trail_to(numbers, pos, price);
}

/// What an excursion update may do to a position: only the two excursion
/// fields can change.
pub open spec fn excursion_step<V>(before: OpenPosition<V>, after: OpenPosition<V>) -> bool {
    after == (OpenPosition { mae_pips: after.mae_pips, mfe_pips: after.mfe_pips, ..before })
}

/// `after` is the position with an excursion of `adverse` and one of
/// `favorable` pips set against those it holds: each replaces the one held
/// where `numbers` finds it greater.
pub open spec fn excursions_raised<V, N: Numbers<V>>(numbers: &N, before: OpenPosition<V>, adverse: V, favorable: V, after: OpenPosition<V>) -> bool {
    exists|worse: Relation| #[trigger]
        relates(numbers, adverse, before.mae_pips, worse) && exists|better: Relation| #[trigger]
            relates(numbers, favorable, before.mfe_pips, better) && after == (OpenPosition {
                mae_pips: pick(worse.gt(), adverse, before.mae_pips),
                mfe_pips: pick(better.gt(), favorable, before.mfe_pips),
                ..before
            })
}

/// `after` is the position after the market reached `worst` on its losing
/// side and `best` on its winning side: the adverse excursion is the move
/// from `worst` to the entry (long) or from the entry to `worst` (short) in
/// pips, the favorable one the move from the entry to `best` (long) or from
/// `best` to the entry (short), and `excursions_raised` says what becomes of
/// them.
pub open spec fn excursions_recorded<V, N: Numbers<V>>(numbers: &N, before: OpenPosition<V>, worst: V, best: V, pip_size: V, after: OpenPosition<V>) -> bool {
    exists|adverse: V| #[trigger]
        pips_between(
            numbers,
            pick(long_side(before.direction), worst, before.entry_price),
            pick(long_side(before.direction), before.entry_price, worst),
            pip_size,
            adverse,
        ) && exists|favorable: V| #[trigger]
            pips_between(
                numbers,
                pick(long_side(before.direction), before.entry_price, best),
                pick(long_side(before.direction), best, before.entry_price),
                pip_size,
                favorable,
            ) && excursions_raised(numbers, before, adverse, favorable, after)
}

/// The move from `from` to `to` in pips.
fn pips_moved<V: Copy, N: Numbers<V>>(numbers: &N, from: V, to: V, pip_size: V) -> (out: V)
    ensures
        pips_between(numbers, from, to, pip_size, out),
{
    let gain: V = numbers.sub(to, from);
    assert(subs(numbers, to, from, gain));
    numbers.div(gain, pip_size)
}

/// Raises the adverse and favorable excursion of `position`, in pips, after
/// the market has reached `worst` on the losing side and `best` on the
/// winning side. An excursion only ever grows.
pub fn record_excursions<V: Copy, N: Numbers<V>>(numbers: &N, position: &mut OpenPosition<V>, worst: V, best: V, pip_size: V)
    ensures
        excursions_recorded(numbers, *old(position), worst, best, pip_size, *final(position)),
        excursion_step(*old(position), *final(position)),
{
    let long: bool = is_long_side(position.direction);
    let ghost before = *position;
    let adverse = if long {
        pips_moved(numbers, worst, position.entry_price, pip_size)
    } else {
        pips_moved(numbers, position.entry_price, worst, pip_size)
    };
    let favorable = if long {
        pips_moved(numbers, position.entry_price, best, pip_size)
    } else {
        pips_moved(numbers, best, position.entry_price, pip_size)
    };
    let worse = relation(numbers, adverse, position.mae_pips);
    let better = relation(numbers, favorable, position.mfe_pips);
    if worse.is_gt() {
        position.mae_pips = adverse;
    }
    if better.is_gt() {
        position.mfe_pips = favorable;
    }
    proof {
        assert(pips_between(
            numbers,
            pick(long_side(before.direction), worst, before.entry_price),
            pick(long_side(before.direction), before.entry_price, worst),
            pip_size,
            adverse,
        ));
        assert(pips_between(
            numbers,
            pick(long_side(before.direction), before.entry_price, best),
            pick(long_side(before.direction), best, before.entry_price),
            pip_size,
            favorable,
        ));
        assert(excursions_raised(numbers, before, adverse, favorable, *position));
    }
}

/// Updates the excursions of `position` from a candle: for the long side the
/// low is adverse and the high favorable, for the short side the reverse.
pub fn update_mae_mfe<V: Copy, N: Numbers<V>>(numbers: &N, position: &mut OpenPosition<V>, candle: &Candle<V>, instrument: &InstrumentConfig<V>)
    ensures
        excursions_recorded(
            numbers,
            *old(position),
            pick(long_side(old(position).direction), candle.low, candle.high),
            pick(long_side(old(position).direction), candle.high, candle.low),
            instrument.pip_size,
            *final(position),
        ),
        excursion_step(*old(position), *final(position)),
{
    if is_long_side(position.direction) {
        record_excursions(numbers, position, candle.low, candle.high, instrument.pip_size);
    } else {
        record_excursions(numbers, position, candle.high, candle.low, instrument.pip_size);
    }
}

/// Updates the excursions of `pos` from a quote: the long side is valued at
/// the bid, the short side at the ask.
pub fn update_mae_mfe_tick<V: Copy, N: Numbers<V>>(numbers: &N, pos: &mut OpenPosition<V>, bid: V, ask: V, instrument: &InstrumentConfig<V>)
    ensures
        excursions_recorded(
            numbers,
            *old(pos),
            pick(long_side(old(pos).direction), bid, ask),
            pick(long_side(old(pos).direction), bid, ask),
            instrument.pip_size,
            *final(pos),
        ),
        excursion_step(*old(pos), *final(pos)),
{
    if is_long_side(pos.direction) {
        record_excursions(numbers, pos, bid, bid, instrument.pip_size);
    } else {
        record_excursions(numbers, pos, ask, ask, instrument.pip_size);
    }
}

/// A sizing mode that sizes by the distance to the stop-loss.
pub open spec fn sizes_by_stop(sizing_type: PositionSizingType) -> bool {
    sizing_type != PositionSizingType::FixedLots
}

/// `out` is a size in whole multiples of the minimum lot and not below it:
/// `raw` over the minimum lot, rounded down, times the minimum lot, or the
/// minimum lot where that is larger.
pub open spec fn floored_lots<V, N: Numbers<V>>(numbers: &N, raw: V, min_lot: V, out: V) -> bool {
    exists|share: V| #[trigger] divs(numbers, raw, min_lot, share) && exists|whole: V| #[trigger] floors(numbers, share, whole) && exists|size: V| #[trigger] muls(numbers, whole, min_lot, size) && maxes(numbers, size, min_lot, out)
}

/// `out` is the amount that a sizing mode risks: the configured amount, or
/// the configured percentage of the equity.
pub open spec fn risk_of<V, N: Numbers<V>>(numbers: &N, sizing: &PositionSizing<V>, equity: V, out: V) -> bool {
    if sizing.sizing_type == PositionSizingType::FixedAmount {
        out == sizing.value
    } else {
        exists|scaled: V| #[trigger] muls(numbers, equity, sizing.value, scaled) && exists|hundred: V| #[trigger] ints(numbers, 100, hundred) && divs(numbers, scaled, hundred, out)
    }
}

/// `out` is the distance from the entry to the stop in pips.
pub open spec fn stop_pips<V, N: Numbers<V>>(numbers: &N, entry_price: V, stop: V, pip_size: V, out: V) -> bool {
    exists|gap: V| #[trigger] distances(numbers, entry_price, stop, gap) && divs(numbers, gap, pip_size, out)
}

/// `out` is the size of a position whose risk is `pips` pips to the stop:
/// the risked amount over the pips times the value of a pip, in whole
/// lots.
pub open spec fn size_for_risk<V, N: Numbers<V>>(numbers: &N, sizing: &PositionSizing<V>, equity: V, pips: V, instrument: &InstrumentConfig<V>, out: V) -> bool {
    exists|risk: V| #[trigger]
        risk_of(numbers, sizing, equity, risk) && exists|per_lot: V| #[trigger]
            muls(numbers, pips, instrument.pip_value, per_lot) && exists|raw: V| #[trigger] divs(numbers, risk, per_lot, raw) && floored_lots(numbers, raw, instrument.min_lot, out)
}

/// `out` is the size of a position that is sized by its stop: the minimum
/// lot where `numbers` finds the distance to the stop in pips, or the value
/// of a pip, equal to zero; else `size_for_risk`.
pub open spec fn sized_by_stop<V, N: Numbers<V>>(numbers: &N, sizing: &PositionSizing<V>, equity: V, entry_price: V, stop: V, instrument: &InstrumentConfig<V>, out: V) -> bool {
    exists|zero: V| #[trigger]
        ints(numbers, 0, zero) && exists|pips: V| #[trigger]
            stop_pips(numbers, entry_price, stop, instrument.pip_size, pips) && exists|flat: Relation| #[trigger]
                relates(numbers, pips, zero, flat) && (if flat == Relation::Equal {
                    out == instrument.min_lot
                } else {
                    exists|worthless: Relation| #[trigger]
                        relates(numbers, instrument.pip_value, zero, worthless) && (if worthless == Relation::Equal {
                            out == instrument.min_lot
                        } else {
                            size_for_risk(numbers, sizing, equity, pips, instrument, out)
                        })
                })
}

/// `out` is the size of a position in lots: the configured lots in whole
/// lots; else, without a stop-loss, the minimum lot, and with one,
/// `sized_by_stop`.
pub open spec fn lots_of<V, N: Numbers<V>>(numbers: &N, sizing: &PositionSizing<V>, equity: V, entry_price: V, sl_price: Option<V>, instrument: &InstrumentConfig<V>, out: V) -> bool {
    if sizing.sizing_type == PositionSizingType::FixedLots {
        floored_lots(numbers, sizing.value, instrument.min_lot, out)
    } else {
        match sl_price {
            None => out == instrument.min_lot,
            Some(stop) => sized_by_stop(numbers, sizing, equity, entry_price, stop, instrument, out),
        }
    }
}

/// Rounds a size down to whole multiples of the minimum lot and keeps it at
/// or above the minimum lot.
fn whole_lots<V: Copy, N: Numbers<V>>(numbers: &N, raw: V, min_lot: V) -> (out: V)
    ensures
        floored_lots(numbers, raw, min_lot, out),
{
    let share: V = numbers.div(raw, min_lot);
    let whole: V = numbers.floor(share);
    let size: V = numbers.mul(whole, min_lot);
    assert(divs(numbers, raw, min_lot, share));
    assert(floors(numbers, share, whole));
    assert(muls(numbers, whole, min_lot, size));
    numbers.max(size, min_lot)
}

/// Calculates the position size in lots. Fixed lots are the configured
/// value. The other modes risk an amount, a fixed one or a percentage of the
/// equity, and divide it by the distance to the stop-loss in pips times the
/// value of a pip. The size is rounded down to whole multiples of the
/// minimum lot and is never below the minimum lot.
///
/// A mode that sizes by the stop gives the minimum lot itself where there
/// is no stop-loss.
pub fn calculate_lots<V: Copy, N: Numbers<V>>(numbers: &N, sizing: &PositionSizing<V>, equity: V, entry_price: V, sl_price: Option<V>, instrument: &InstrumentConfig<V>) -> (lots: V)
    ensures
        lots_of(numbers, sizing, equity, entry_price, sl_price, instrument, lots),
        sizes_by_stop(sizing.sizing_type) && sl_price is None ==> lots == instrument.min_lot,
{
    match sizing.sizing_type {
        PositionSizingType::FixedLots => whole_lots(numbers, sizing.value, instrument.min_lot),
        _ => match sl_price {
            None => instrument.min_lot,
            Some(sl) => {
                let zero: V = numbers.from_int(0);
                assert(ints(numbers, 0, zero));
                let gap: V = numbers.distance(entry_price, sl);
                let distance_pips: V = numbers.div(gap, instrument.pip_size);
                assert(distances(numbers, entry_price, sl, gap));
                assert(stop_pips(numbers, entry_price, sl, instrument.pip_size, distance_pips));
                match relation(numbers, distance_pips, zero) {
                    Relation::Equal => {
                        return instrument.min_lot;
                    },
                    _ => {},
                }
                match relation(numbers, instrument.pip_value, zero) {
                    Relation::Equal => {
                        return instrument.min_lot;
                    },
                    _ => {},
                }
                let risk: V = match sizing.sizing_type {
                    PositionSizingType::FixedAmount => sizing.value,
                    _ => {
                        let scaled: V = numbers.mul(equity, sizing.value);
                        let hundred: V = numbers.from_int(100);
                        assert(muls(numbers, equity, sizing.value, scaled));
                        assert(ints(numbers, 100, hundred));
                        numbers.div(scaled, hundred)
                    },
                };
                assert(risk_of(numbers, sizing, equity, risk));
                let per_lot: V = numbers.mul(distance_pips, instrument.pip_value);
                let raw: V = numbers.div(risk, per_lot);
                assert(muls(numbers, distance_pips, instrument.pip_value, per_lot));
                assert(divs(numbers, risk, per_lot, raw));
                let out = whole_lots(numbers, raw, instrument.min_lot);
                assert(size_for_risk(numbers, sizing, equity, distance_pips, instrument, out));
                out
            },
        },
    }
}

/// `out` is a multiple of the ATR: the ATR, zero where there is none, times
/// `value`.
pub open spec fn multiple_of_atr<V, N: Numbers<V>>(numbers: &N, atr_value: Option<V>, value: V, out: V) -> bool {
    match atr_value {
        Some(atr) => muls(numbers, atr, value, out),
        None => exists|zero: V| #[trigger] ints(numbers, 0, zero) && muls(numbers, zero, value, out),
    }
}

/// A multiple of the ATR, which counts as zero where there is none.
fn atr_multiple<V: Copy, N: Numbers<V>>(numbers: &N, atr_value: Option<V>, value: V) -> (out: V)
    ensures
        multiple_of_atr(numbers, atr_value, value, out),
{
    match atr_value {
        Some(atr) => numbers.mul(atr, value),
        None => {
            let zero: V = numbers.from_int(0);
            assert(ints(numbers, 0, zero));
            numbers.mul(zero, value)
        },
    }
}

/// `out` is `value` percent of `price`: their product over a hundred.
pub open spec fn percent_of_price<V, N: Numbers<V>>(numbers: &N, price: V, value: V, out: V) -> bool {
    exists|scaled: V| #[trigger] muls(numbers, price, value, scaled) && exists|hundred: V| #[trigger] ints(numbers, 100, hundred) && divs(numbers, scaled, hundred, out)
}

/// `out` is the distance of a stop-loss from the entry: the pips times the
/// pip size, the percentage of the entry price, or the multiple of the ATR.
pub open spec fn stop_distance_of<V, N: Numbers<V>>(numbers: &N, config: &StopLoss<V>, entry_price: V, atr_value: Option<V>, instrument: &InstrumentConfig<V>, out: V) -> bool {
    match config.sl_type {
        StopLossType::Pips => muls(numbers, config.value, instrument.pip_size, out),
        StopLossType::Percentage => percent_of_price(numbers, entry_price, config.value, out),
        StopLossType::ATR => multiple_of_atr(numbers, atr_value, config.value, out),
    }
}

/// `out` is the stop-loss price: the entry price less the stop distance for
/// the long side, plus it for the short side.
pub open spec fn stop_loss_of<V, N: Numbers<V>>(numbers: &N, config: &StopLoss<V>, entry_price: V, direction: TradeDirection, atr_value: Option<V>, instrument: &InstrumentConfig<V>, out: V) -> bool {
    exists|distance: V| #[trigger] stop_distance_of(numbers, config, entry_price, atr_value, instrument, distance) && moved(numbers, !long_side(direction), entry_price, distance, out)
}

/// Calculates the stop-loss price: the entry price less the stop distance
/// for the long side, plus it for the short side. The distance is the
/// configured pips times the pip size, the configured percentage of the
/// entry price, or the configured multiple of the ATR, which counts as zero
/// where there is none.
pub fn calculate_stop_loss<V: Copy, N: Numbers<V>>(numbers: &N, config: &StopLoss<V>, entry_price: V, direction: TradeDirection, atr_value: Option<V>, instrument: &InstrumentConfig<V>) -> (out: V)
    ensures
        stop_loss_of(numbers, config, entry_price, direction, atr_value, instrument, out),
{
    let distance: V = match config.sl_type {
        StopLossType::Pips => numbers.mul(config.value, instrument.pip_size),
        StopLossType::Percentage => {
            let scaled: V = numbers.mul(entry_price, config.value);
            let hundred: V = numbers.from_int(100);
            assert(muls(numbers, entry_price, config.value, scaled));
            assert(ints(numbers, 100, hundred));
            numbers.div(scaled, hundred)
        },
        StopLossType::ATR => atr_multiple(numbers, atr_value, config.value),
    };
    assert(stop_distance_of(numbers, config, entry_price, atr_value, instrument, distance));
    if is_long_side(direction) {
        numbers.sub(entry_price, distance)
    } else {
        numbers.add(entry_price, distance)
    }
}

/// `out` is the distance that a risk-reward setting stands for: `value`
/// times the distance from the entry to the stop-loss, or, without a
/// stop-loss, `value` times the pip size times ten.
pub open spec fn reward_distance_of<V, N: Numbers<V>>(numbers: &N, value: V, entry_price: V, sl_price: Option<V>, instrument: &InstrumentConfig<V>, out: V) -> bool {
    match sl_price {
        Some(stop) => exists|risk: V| #[trigger] distances(numbers, entry_price, stop, risk) && muls(numbers, risk, value, out),
        None => exists|pips: V| #[trigger] muls(numbers, value, instrument.pip_size, pips) && exists|ten: V| #[trigger] ints(numbers, 10, ten) && muls(numbers, pips, ten, out),
    }
}

/// The distance that a risk-reward setting stands for: the configured
/// multiple of the distance to the stop-loss, or, without a stop-loss, of
/// ten pips.
fn reward_distance<V: Copy, N: Numbers<V>>(numbers: &N, value: V, entry_price: V, sl_price: Option<V>, instrument: &InstrumentConfig<V>) -> (out: V)
    ensures
        reward_distance_of(numbers, value, entry_price, sl_price, instrument, out),
{
    match sl_price {
        Some(sl) => {
            let risk: V = numbers.distance(entry_price, sl);
            assert(distances(numbers, entry_price, sl, risk));
            numbers.mul(risk, value)
        },
        None => {
            let pips: V = numbers.mul(value, instrument.pip_size);
            let ten: V = numbers.from_int(10);
            assert(muls(numbers, value, instrument.pip_size, pips));
            assert(ints(numbers, 10, ten));
            numbers.mul(pips, ten)
        },
    }
}

/// `out` is the distance of a take-profit from the entry: the pips times
/// the pip size, the risk-reward distance, or the multiple of the ATR.
pub open spec fn target_distance_of<V, N: Numbers<V>>(numbers: &N, config: &TakeProfit<V>, entry_price: V, sl_price: Option<V>, atr_value: Option<V>, instrument: &InstrumentConfig<V>, out: V) -> bool {
    match config.tp_type {
        TakeProfitType::Pips => muls(numbers, config.value, instrument.pip_size, out),
        TakeProfitType::RiskReward => reward_distance_of(numbers, config.value, entry_price, sl_price, instrument, out),
        TakeProfitType::ATR => multiple_of_atr(numbers, atr_value, config.value, out),
    }
}

/// `out` is the take-profit price: the entry price plus the target
/// distance for the long side, less it for the short side.
pub open spec fn take_profit_of<V, N: Numbers<V>>(numbers: &N, config: &TakeProfit<V>, entry_price: V, sl_price: Option<V>, direction: TradeDirection, atr_value: Option<V>, instrument: &InstrumentConfig<V>, out: V) -> bool {
    exists|distance: V| #[trigger] target_distance_of(numbers, config, entry_price, sl_price, atr_value, instrument, distance) && moved(numbers, long_side(direction), entry_price, distance, out)
}

/// Calculates the take-profit price: the entry price plus the target
/// distance for the long side, less it for the short side. The distance is
/// the configured pips times the pip size, the configured multiple of the
/// distance to the stop-loss, or the configured multiple of the ATR.
pub fn calculate_take_profit<V: Copy, N: Numbers<V>>(numbers: &N, config: &TakeProfit<V>, entry_price: V, sl_price: Option<V>, direction: TradeDirection, atr_value: Option<V>, instrument: &InstrumentConfig<V>) -> (out: V)
    ensures
        take_profit_of(numbers, config, entry_price, sl_price, direction, atr_value, instrument, out),
{
    let distance: V = match config.tp_type {
        TakeProfitType::Pips => numbers.mul(config.value, instrument.pip_size),
        TakeProfitType::RiskReward => reward_distance(numbers, config.value, entry_price, sl_price, instrument),
        TakeProfitType::ATR => atr_multiple(numbers, atr_value, config.value),
    };
    assert(target_distance_of(numbers, config, entry_price, sl_price, atr_value, instrument, distance));
    if is_long_side(direction) {
        numbers.add(entry_price, distance)
    } else {
        numbers.sub(entry_price, distance)
    }
}

/// `out` is the distance at which a trailing stop follows the price: the
/// multiple of the ATR, or the risk-reward distance.
pub open spec fn trailing_distance_of<V, N: Numbers<V>>(numbers: &N, config: &TrailingStop<V>, entry_price: V, sl_price: Option<V>, atr_value: Option<V>, instrument: &InstrumentConfig<V>, out: V) -> bool {
    match config.ts_type {
        TrailingStopType::ATR => multiple_of_atr(numbers, atr_value, config.value, out),
        TrailingStopType::RiskReward => reward_distance_of(numbers, config.value, entry_price, sl_price, instrument, out),
    }
}

/// Calculates the distance at which a trailing stop follows the price: the
/// configured multiple of the ATR, or of the distance to the stop-loss.
pub fn calculate_trailing_stop_distance<V: Copy, N: Numbers<V>>(numbers: &N, config: &TrailingStop<V>, entry_price: V, sl_price: Option<V>, atr_value: Option<V>, instrument: &InstrumentConfig<V>) -> (out: V)
    ensures
        trailing_distance_of(numbers, config, entry_price, sl_price, atr_value, instrument, out),
{
    match config.ts_type {
        TrailingStopType::ATR => atr_multiple(numbers, atr_value, config.value),
        TrailingStopType::RiskReward => reward_distance(numbers, config.value, entry_price, sl_price, instrument),
    }
}

} // verus!
