use vstd::prelude::*;
use vstd::string::StringExecFns;
use crate::calendar::{
    days_before_month, days_from_civil, is_leap, lemma_leap_step, valid_date,
};
use crate::engine::indicators::{clip, compute_indicator, IndicatorOutput, NamedSeries};
use crate::engine::numeric::{
    adds, compares, distances, divs, ints, maxes, mins, muls, pick, ratios, relates, subs,
    Comparison, Numbers, Relation,
};
use crate::engine::series::{entry_at, read_entry, relation, whole};
use crate::errors::AppError;
use crate::models::candle::Candle;
use crate::engine::indicators::{arrays_of, lines_made, validate_indicator, validation_of};
use crate::models::strategy::{
    keyed, CandlePatternType, Comparator, IndicatorConfig, IndicatorType, LogicalOperator,
    Operand, OperandType, PriceField, Rule, StopLossType, Strategy, TakeProfitType, TimeField,
    TrailingStopType,
};
use crate::text::{is_text, position_of};
use crate::timestamp::{
    civil_from_micros, day_micros_of, day_number, day_number_of, extract_hour_minute, DateTime,
};

verus! {

/// One computed indicator under its cache key.
#[derive(Debug, Clone)]
pub struct CachedIndicator<V> {
    pub key: String,
    pub output: IndicatorOutput<V>,
}

/// The indicators of a strategy, each computed once and found by its key.
#[derive(Debug, Clone)]
pub struct IndicatorCache<V> {
    pub entries: Vec<CachedIndicator<V>>,
}

/// Daily price levels aligned to each bar.
#[derive(Debug, Clone)]
pub struct DailyOhlcCache<V> {
    /// Open of the first bar of the bar's day.
    pub daily_open: Vec<V>,
    /// Highest high of the bar's day up to the bar.
    pub daily_high: Vec<V>,
    /// Lowest low of the bar's day up to the bar.
    pub daily_low: Vec<V>,
    /// Close of the last bar of the previous day; absent on the first day.
    pub daily_close: Vec<Option<V>>,
}

/// Time-derived values aligned to each bar.
#[derive(Debug, Clone)]
pub struct TimeCache<V> {
    pub current_bar: Vec<V>,
    pub bar_time: Vec<V>,
    pub bar_hour: Vec<V>,
    pub bar_minute: Vec<V>,
    pub bar_day_of_week: Vec<V>,
    pub bar_month: Vec<V>,
}

/// Candle pattern flags aligned to each bar: one where the pattern is
/// present, zero where it is not.
#[derive(Debug, Clone)]
pub struct CandlePatternCache<V> {
    pub doji: Vec<V>,
    pub hammer: Vec<V>,
    pub shooting_star: Vec<V>,
    pub bearish_engulfing: Vec<V>,
    pub bullish_engulfing: Vec<V>,
    pub dark_cloud: Vec<V>,
    pub piercing_line: Vec<V>,
}

/// The entry of `s` at `i`, if there is one.
pub open spec fn value_at<V>(s: Seq<V>, i: int) -> Option<V> {
    if 0 <= i < s.len() {
        Some(s[i])
    } else {
        None
    }
}

/// Reads `v[i]` where it exists.
pub fn read_at<V: Copy>(v: &Vec<V>, i: usize) -> (r: Option<V>)
    ensures
        r == value_at(v@, i as int),
{
    if i < v.len() {
        Some(v[i])
    } else {
        None
    }
}

/// The keys of a cache, in order.
pub open spec fn cache_keys<V>(cache: &IndicatorCache<V>) -> Seq<Seq<char>> {
    Seq::new(cache.entries@.len(), |i: int| cache.entries@[i].key@)
}

/// The names of a list of named series, in order.
pub open spec fn series_names<V>(extra: Seq<NamedSeries<V>>) -> Seq<Seq<char>> {
    Seq::new(extra.len(), |i: int| extra[i].name@)
}

impl<V> IndicatorCache<V> {
    /// A cache without entries.
    pub fn new() -> (cache: Self)
        ensures
            cache.entries@.len() == 0,
    {
        IndicatorCache { entries: Vec::new() }
    }

    /// The position of the first entry stored under `key`, or `None`.
    pub fn find(&self, key: &String) -> (r: Option<usize>)
        ensures
            match r {
                Some(i) => i < self.entries@.len() && i == position_of(cache_keys(self), key@, 0),
                None => position_of(cache_keys(self), key@, 0) == self.entries@.len(),
            },
    {
        let mut i: usize = 0;
        while i < self.entries.len()
            invariant
                i <= self.entries@.len(),
                position_of(cache_keys(self), key@, 0) == position_of(cache_keys(self), key@, i as int),
            decreases self.entries@.len() - i,
        {
            if self.entries[i].key == *key {
                return Some(i);
            }
            i += 1;
        }
        None
    }
}

/// The position of the first series named `name`, or `None`.
pub fn find_series<V>(extra: &Vec<NamedSeries<V>>, name: &String) -> (r: Option<usize>)
    ensures
        match r {
            Some(i) => i < extra@.len() && i == position_of(series_names(extra@), name@, 0),
            None => position_of(series_names(extra@), name@, 0) == extra@.len(),
        },
{
    let mut i: usize = 0;
    while i < extra.len()
        invariant
            i <= extra@.len(),
            position_of(series_names(extra@), name@, 0) == position_of(series_names(extra@), name@, i as int),
        decreases extra@.len() - i,
    {
        if extra[i].name == *name {
            return Some(i);
        }
        i += 1;
    }
    None
}

/// The three fixed output lines of an indicator.
#[derive(Debug, Clone, Copy, PartialEq, Eq, Structural)]
pub enum Line {
    Primary,
    Secondary,
    Tertiary,
}

/// Which line an output selector reads, where no extra output of that name
/// exists. A selector that names no line reads the primary one.
pub open spec fn line_of(field: Option<Seq<char>>) -> Line {
    match field {
        None => Line::Primary,
        Some(name) => if name == "signal"@ || name == "d"@ || name == "aroon_down"@ || name == "vi_minus"@
            || name == "fractal_down"@ || name == "ha_open"@ || name == "upper"@ {
            Line::Secondary
        } else if name == "histogram"@ || name == "lower"@ {
            Line::Tertiary
        } else {
            Line::Primary
        },
    }
}

/// Decides which line an output selector reads.
pub fn select_line(field: &Option<String>) -> (line: Line)
    ensures
        line == line_of(
            match field {
                Some(name) => Some(name@),
                None => None,
            },
        ),
{
    match field {
        None => Line::Primary,
        Some(name) => {
            if is_text(name, "signal") || is_text(name, "d") || is_text(name, "aroon_down") || is_text(
                name,
                "vi_minus",
            ) || is_text(name, "fractal_down") || is_text(name, "ha_open") || is_text(name, "upper") {
                Line::Secondary
            } else if is_text(name, "histogram") || is_text(name, "lower") {
                Line::Tertiary
            } else {
                Line::Primary
            }
        },
    }
}

/// The value that an output selector reads from an indicator's output at
/// `index`: an extra output of the selector's name comes first, then the line
/// that the selector stands for. Where the array is absent or too short there
/// is no value.
pub open spec fn indicator_value<V>(output: &IndicatorOutput<V>, field: Option<Seq<char>>, index: int) -> Option<V> {
    if field is Some && output.extra is Some && position_of(
        series_names(output.extra->Some_0@),
        field->Some_0,
        0,
    ) < output.extra->Some_0@.len() {
        entry_at(
            output.extra->Some_0@[position_of(series_names(output.extra->Some_0@), field->Some_0, 0)].values@,
            index,
        )
    } else {
        match line_of(field) {
            Line::Primary => entry_at(output.primary@, index),
            Line::Secondary => match output.secondary {
                Some(s) => entry_at(s@, index),
                None => None,
            },
            Line::Tertiary => match output.tertiary {
                Some(s) => entry_at(s@, index),
                None => None,
            },
        }
    }
}

/// The view of an optional selector.
pub open spec fn field_of(field: &Option<String>) -> Option<Seq<char>> {
    match field {
        Some(name) => Some(name@),
        None => None,
    }
}

/// Reads the value that `config`'s output selector picks from `output` at
/// `index`.
pub fn get_indicator_value<V: Copy>(output: &IndicatorOutput<V>, config: &IndicatorConfig<V>, index: usize) -> (r: Option<V>)
    ensures
        r == indicator_value(output, field_of(&config.output_field), index as int),
{
    if let Some(field) = &config.output_field {
        if let Some(extra) = &output.extra {
            if let Some(at) = find_series(extra, field) {
                return read_entry(&extra[at].values, index);
            }
        }
    }
    match select_line(&config.output_field) {
        Line::Primary => read_entry(&output.primary, index),
        Line::Secondary => match &output.secondary {
            Some(s) => read_entry(s, index),
            None => None,
        },
        Line::Tertiary => match &output.tertiary {
            Some(s) => read_entry(s, index),
            None => None,
        },
    }
}

/// The bar that an operand reads when a rule is evaluated at `bar_index`:
/// bar-time operands start from `bar_index + time_offset`, all others from
/// `bar_index`; the operand's own offset is then subtracted. A bar before the
/// first or after the last of `len` bars does not exist.
pub open spec fn effective_index(operand_type: OperandType, offset: Option<usize>, bar_index: int, time_offset: int, len: int) -> Option<int> {
    let base = if operand_type == OperandType::BarTime {
        bar_index + time_offset
    } else {
        bar_index
    };
    let index = base - (match offset {
        Some(o) => o as int,
        None => 0,
    });
    if 0 <= index < len {
        Some(index)
    } else {
        None
    }
}

/// Computes the bar that an operand reads.
pub fn resolve_index(operand_type: OperandType, offset: Option<usize>, bar_index: usize, time_offset: usize, len: usize) -> (r: Option<usize>)
    ensures
        match r {
            Some(i) => effective_index(operand_type, offset, bar_index as int, time_offset as int, len as int) == Some(i as int),
            None => effective_index(operand_type, offset, bar_index as int, time_offset as int, len as int) is None,
        },
{
    let shift: u128 = match operand_type {
        OperandType::BarTime => time_offset as u128,
        _ => 0,
    };
    let base: u128 = bar_index as u128 + shift;
    let back: u128 = match offset {
        Some(o) => o as u128,
        None => 0,
    };
    if base < back {
        return None;
    }
    let index: u128 = base - back;
    if index >= len as u128 {
        return None;
    }
    Some(index as usize)
}

/// The value of a price operand at bar `index`.
pub open spec fn price_value<V>(field: Option<PriceField>, candles: Seq<Candle<V>>, daily_ohlc: Option<&DailyOhlcCache<V>>, index: int) -> Option<V> {
    match field {
        Some(PriceField::Open) => Some(candles[index].open),
        Some(PriceField::High) => Some(candles[index].high),
        Some(PriceField::Low) => Some(candles[index].low),
        Some(PriceField::Close) | None => Some(candles[index].close),
        Some(PriceField::DailyOpen) => match daily_ohlc {
            Some(d) => value_at(d.daily_open@, index),
            None => None,
        },
        Some(PriceField::DailyHigh) => match daily_ohlc {
            Some(d) => value_at(d.daily_high@, index),
            None => None,
        },
        Some(PriceField::DailyLow) => match daily_ohlc {
            Some(d) => value_at(d.daily_low@, index),
            None => None,
        },
        Some(PriceField::DailyClose) => match daily_ohlc {
            Some(d) => entry_at(d.daily_close@, index),
            None => None,
        },
    }
}

/// The value of a bar-time operand at bar `index`.
pub open spec fn time_value<V>(field: Option<TimeField>, time_cache: Option<&TimeCache<V>>, index: int) -> Option<V> {
    match time_cache {
        None => None,
        Some(tc) => match field {
            Some(TimeField::CurrentBar) => value_at(tc.current_bar@, index),
            Some(TimeField::BarTimeValue) | Some(TimeField::CurrentTime) => value_at(tc.bar_time@, index),
            Some(TimeField::BarHour) | Some(TimeField::CurrentHour) => value_at(tc.bar_hour@, index),
            Some(TimeField::BarMinute) | Some(TimeField::CurrentMinute) => value_at(tc.bar_minute@, index),
            Some(TimeField::BarDayOfWeek) | Some(TimeField::CurrentDayOfWeek) => value_at(tc.bar_day_of_week@, index),
            Some(TimeField::CurrentMonth) => value_at(tc.bar_month@, index),
            None => None,
        },
    }
}

/// The value of a candle-pattern operand at bar `index`.
pub open spec fn pattern_value<V>(pattern: Option<CandlePatternType>, pattern_cache: Option<&CandlePatternCache<V>>, index: int) -> Option<V> {
    match pattern_cache {
        None => None,
        Some(pc) => match pattern {
            Some(CandlePatternType::Doji) => value_at(pc.doji@, index),
            Some(CandlePatternType::Hammer) => value_at(pc.hammer@, index),
            Some(CandlePatternType::ShootingStar) => value_at(pc.shooting_star@, index),
            Some(CandlePatternType::BearishEngulfing) => value_at(pc.bearish_engulfing@, index),
            Some(CandlePatternType::BullishEngulfing) => value_at(pc.bullish_engulfing@, index),
            Some(CandlePatternType::DarkCloud) => value_at(pc.dark_cloud@, index),
            Some(CandlePatternType::PiercingLine) => value_at(pc.piercing_line@, index),
            None => None,
        },
    }
}

/// The value of `operand` when a rule is evaluated at `bar_index`, or `None`
/// where it has none. `found` is the cached output of the operand's
/// indicator, if the cache holds it; `zero` is the value of a constant
/// operand that names no constant.
pub open spec fn operand_value<V>(
    operand: &Operand<V>,
    found: Option<&IndicatorOutput<V>>,
    bar_index: int,
    candles: Seq<Candle<V>>,
    daily_ohlc: Option<&DailyOhlcCache<V>>,
    time_cache: Option<&TimeCache<V>>,
    pattern_cache: Option<&CandlePatternCache<V>>,
    time_offset: int,
    zero: V,
) -> Option<V> {
    match effective_index(operand.operand_type, operand.offset, bar_index, time_offset, candles.len() as int) {
        None => None,
        Some(index) => match operand.operand_type {
            OperandType::Indicator => match (operand.indicator, found) {
                (Some(config), Some(output)) => indicator_value(output, field_of(&config.output_field), index),
                _ => None,
            },
            OperandType::Price => price_value(operand.price_field, candles, daily_ohlc, index),
            OperandType::Constant => match operand.constant_value {
                Some(c) => Some(c),
                None => Some(zero),
            },
            OperandType::BarTime => time_value(operand.time_field, time_cache, index),
            OperandType::CandlePattern => pattern_value(operand.candle_pattern, pattern_cache, index),
        },
    }
}

/// Reads the value of `operand` when a rule is evaluated at `bar_index`.
pub fn resolve_value<V: Copy>(
    operand: &Operand<V>,
    found: Option<&IndicatorOutput<V>>,
    bar_index: usize,
    candles: &Vec<Candle<V>>,
    daily_ohlc: Option<&DailyOhlcCache<V>>,
    time_cache: Option<&TimeCache<V>>,
    pattern_cache: Option<&CandlePatternCache<V>>,
    time_offset: usize,
    zero: V,
) -> (r: Option<V>)
    ensures
        r == operand_value(
            operand,
            found,
            bar_index as int,
            candles@,
            daily_ohlc,
            time_cache,
            pattern_cache,
            time_offset as int,
            zero,
        ),
{
    let index: usize = match resolve_index(operand.operand_type, operand.offset, bar_index, time_offset, candles.len()) {
        Some(i) => i,
        None => {
            return None;
        },
    };
    match operand.operand_type {
        OperandType::Indicator => match (&operand.indicator, found) {
            (Some(config), Some(output)) => get_indicator_value(output, config, index),
            _ => None,
        },
        OperandType::Price => {
            let candle = &candles[index];
            match operand.price_field {
                Some(PriceField::Open) => Some(candle.open),
                Some(PriceField::High) => Some(candle.high),
                Some(PriceField::Low) => Some(candle.low),
                Some(PriceField::Close) => Some(candle.close),
                None => Some(candle.close),
                Some(PriceField::DailyOpen) => match daily_ohlc {
                    Some(d) => read_at(&d.daily_open, index),
                    None => None,
                },
                Some(PriceField::DailyHigh) => match daily_ohlc {
                    Some(d) => read_at(&d.daily_high, index),
                    None => None,
                },
                Some(PriceField::DailyLow) => match daily_ohlc {
                    Some(d) => read_at(&d.daily_low, index),
                    None => None,
                },
                Some(PriceField::DailyClose) => match daily_ohlc {
                    Some(d) => read_entry(&d.daily_close, index),
                    None => None,
                },
            }
        },
        OperandType::Constant => match operand.constant_value {
            Some(c) => Some(c),
            None => Some(zero),
        },
        OperandType::BarTime => match time_cache {
            None => None,
            Some(tc) => match operand.time_field {
                Some(TimeField::CurrentBar) => read_at(&tc.current_bar, index),
                Some(TimeField::BarTimeValue) => read_at(&tc.bar_time, index),
                Some(TimeField::CurrentTime) => read_at(&tc.bar_time, index),
                Some(TimeField::BarHour) => read_at(&tc.bar_hour, index),
                Some(TimeField::CurrentHour) => read_at(&tc.bar_hour, index),
                Some(TimeField::BarMinute) => read_at(&tc.bar_minute, index),
                Some(TimeField::CurrentMinute) => read_at(&tc.bar_minute, index),
                Some(TimeField::BarDayOfWeek) => read_at(&tc.bar_day_of_week, index),
                Some(TimeField::CurrentDayOfWeek) => read_at(&tc.bar_day_of_week, index),
                Some(TimeField::CurrentMonth) => read_at(&tc.bar_month, index),
                None => None,
            },
        },
        OperandType::CandlePattern => match pattern_cache {
            None => None,
            Some(pc) => match operand.candle_pattern {
                Some(CandlePatternType::Doji) => read_at(&pc.doji, index),
                Some(CandlePatternType::Hammer) => read_at(&pc.hammer, index),
                Some(CandlePatternType::ShootingStar) => read_at(&pc.shooting_star, index),
                Some(CandlePatternType::BearishEngulfing) => read_at(&pc.bearish_engulfing, index),
                Some(CandlePatternType::BullishEngulfing) => read_at(&pc.bullish_engulfing, index),
                Some(CandlePatternType::DarkCloud) => read_at(&pc.dark_cloud, index),
                Some(CandlePatternType::PiercingLine) => read_at(&pc.piercing_line, index),
                None => None,
            },
        },
    }
}

/// Whether a rule holds, given how its two operands compare at the bar
/// (`current`) and at the bar before (`previous`). `None` stands for a
/// comparison that could not be made because an operand had no value. A rule
/// never holds on operands that are not numbers. The cross comparators hold
/// when the left operand was on or beyond the other side at the bar before
/// and is strictly across at the bar itself.
pub open spec fn rule_holds(comparator: Comparator, current: Option<Comparison>, previous: Option<Comparison>) -> bool {
    match current {
        None => false,
        Some(now) => match comparator {
            Comparator::GreaterThan => now.relation.gt(),
            Comparator::LessThan => now.relation.lt(),
            Comparator::GreaterOrEqual => now.relation.ge(),
            Comparator::LessOrEqual => now.relation.le(),
            Comparator::Equal => now.close && now.relation != Relation::Unordered,
            Comparator::CrossAbove => match previous {
                Some(before) => before.relation.le() && now.relation.gt(),
                None => false,
            },
            Comparator::CrossBelow => match previous {
                Some(before) => before.relation.ge() && now.relation.lt(),
                None => false,
            },
        },
    }
}

/// Decides whether a rule holds.
pub fn decide_rule(comparator: Comparator, current: Option<Comparison>, previous: Option<Comparison>) -> (holds: bool)
    ensures
        holds == rule_holds(comparator, current, previous),
{
    match current {
        None => false,
        Some(now) => match comparator {
            Comparator::GreaterThan => now.relation.is_gt(),
            Comparator::LessThan => now.relation.is_lt(),
            Comparator::GreaterOrEqual => now.relation.is_ge(),
            Comparator::LessOrEqual => now.relation.is_le(),
            Comparator::Equal => now.close && !(now.relation == Relation::Unordered),
            Comparator::CrossAbove => match previous {
                Some(before) => before.relation.is_le() && now.relation.is_gt(),
                None => false,
            },
            Comparator::CrossBelow => match previous {
                Some(before) => before.relation.is_ge() && now.relation.is_lt(),
                None => false,
            },
        },
    }
}

/// The connector that follows each rule.
pub open spec fn connectors<V>(rules: Seq<Rule<V>>) -> Seq<Option<LogicalOperator>> {
    Seq::new(rules.len(), |i: int| rules[i].logical_operator)
}

/// The truth value of the first `n` rules of a list, folded from the left:
/// the first rule's value, then each further value joined by the connector
/// of the rule before it, a missing connector counting as `And`. An empty
/// list is never true.
pub open spec fn chained(ops: Seq<Option<LogicalOperator>>, values: Seq<bool>, n: int) -> bool
    decreases n,
{
    if n <= 0 {
        false
    } else if n == 1 {
        values[0]
    } else {
        match ops[n - 2] {
            Some(LogicalOperator::Or) => chained(ops, values, n - 1) || values[n - 1],
            _ => chained(ops, values, n - 1) && values[n - 1],
        }
    }
}

/// Folds the truth values of a rule list.
pub fn chain_rules<V>(rules: &Vec<Rule<V>>, values: &Vec<bool>) -> (r: bool)
    requires
        values@.len() == rules@.len(),
    ensures
        r == chained(connectors(rules@), values@, rules@.len() as int),
{
    if rules.len() == 0 {
        return false;
    }
    let mut result: bool = values[0];
    let mut i: usize = 1;
    while i < rules.len()
        invariant
            1 <= i <= rules@.len(),
            values@.len() == rules@.len(),
            result == chained(connectors(rules@), values@, i as int),
        decreases rules@.len() - i,
    {
        let current: bool = values[i];
        match rules[i - 1].logical_operator {
            Some(LogicalOperator::Or) => {
                result = result || current;
            },
            _ => {
                result = result && current;
            },
        }
        i += 1;
    }
    result
}

/// The output that a cache holds under `key`: that of the first entry with
/// the key, or none.
pub open spec fn found_under<V>(cache: &IndicatorCache<V>, key: Seq<char>) -> Option<IndicatorOutput<V>> {
    let at = position_of(cache_keys(cache), key, 0);
    if at < cache.entries@.len() {
        Some(cache.entries@[at].output)
    } else {
        None
    }
}

/// `r` is the cached output of an operand's indicator: none for an operand
/// that reads no indicator, else what the cache holds under a key of the
/// operand's configuration.
pub open spec fn output_found<V, N: Numbers<V>>(numbers: &N, operand: &Operand<V>, cache: &IndicatorCache<V>, r: Option<IndicatorOutput<V>>) -> bool {
    if operand.operand_type == OperandType::Indicator && operand.indicator is Some {
        exists|key: Seq<char>| #[trigger] keyed(numbers, &operand.indicator->Some_0, key) && r == found_under(cache, key)
    } else {
        r is None
    }
}

/// Looks up the cached output of an operand's indicator. The key is that of
/// the operand's indicator configuration.
fn find_output<'a, V: Copy, N: Numbers<V>>(numbers: &N, operand: &Operand<V>, cache: &'a IndicatorCache<V>) -> (r: Option<&'a IndicatorOutput<V>>)
    ensures
        output_found(numbers, operand, cache, found_value(r)),
        output_from(operand, cache, r),
{
    match operand.operand_type {
        OperandType::Indicator => match &operand.indicator {
            Some(config) => {
                let key = config.cache_key(numbers);
                assert(keyed(numbers, &operand.indicator->Some_0, key@));
                match cache.find(&key) {
                    Some(i) => Some(&cache.entries[i].output),
                    None => None,
                }
            },
            None => None,
        },
        _ => None,
    }
}

/// Resolves the value of `operand` when a rule is evaluated at `bar_index`:
/// looks up the cached output of the operand's indicator, if it reads one,
/// and reads the value as `operand_value` has it.
///
/// However cache keys are written, the value is `operand_value` for an
/// output that the lookup may come to.
pub fn resolve_operand<V: Copy, N: Numbers<V>>(
    numbers: &N,
    operand: &Operand<V>,
    bar_index: usize,
    cache: &IndicatorCache<V>,
    candles: &Vec<Candle<V>>,
    daily_ohlc: Option<&DailyOhlcCache<V>>,
    time_cache: Option<&TimeCache<V>>,
    pattern_cache: Option<&CandlePatternCache<V>>,
    time_offset: usize,
    zero: V,
) -> (r: Option<V>)
    ensures
        exists|found: Option<&IndicatorOutput<V>>| #[trigger] output_found(numbers, operand, cache, found_value(found)) && r == operand_value(operand, found, bar_index as int, candles@, daily_ohlc, time_cache, pattern_cache, time_offset as int, zero),
        exists|found: Option<&IndicatorOutput<V>>| #[trigger] output_from(operand, cache, found) && r == operand_value(operand, found, bar_index as int, candles@, daily_ohlc, time_cache, pattern_cache, time_offset as int, zero),
        operand.operand_type != OperandType::Indicator ==> r == operand_value(operand, None, bar_index as int, candles@, daily_ohlc, time_cache, pattern_cache, time_offset as int, zero),
{
    let found = find_output(numbers, operand, cache);
    let r = resolve_value(operand, found, bar_index, candles, daily_ohlc, time_cache, pattern_cache, time_offset, zero);
    assert(output_from(operand, cache, found));
    assert(output_found(numbers, operand, cache, found_value(found)));
    r
}

/// An output that the lookup of an operand's indicator may come to: none,
/// or, for an operand that reads an indicator, one of the outputs held in
/// the cache.
pub open spec fn output_from<V>(operand: &Operand<V>, cache: &IndicatorCache<V>, output: Option<&IndicatorOutput<V>>) -> bool {
    match output {
        None => true,
        Some(o) => operand.operand_type == OperandType::Indicator && operand.indicator is Some && exists|i: int|
            0 <= i < cache.entries@.len() && *o == (#[trigger] cache.entries@[i]).output,
    }
}

/// What one evaluation of a rule found and compared.
pub struct RuleReading<V> {
    /// The cached output found for the left operand's indicator.
    pub left_output: Option<IndicatorOutput<V>>,
    /// The cached output found for the right operand's indicator.
    pub right_output: Option<IndicatorOutput<V>>,
    /// The value of a constant operand that names no constant.
    pub zero: V,
    /// How the operands compared at the bar.
    pub now: Option<Comparison>,
    /// How the operands compared at the bar before.
    pub before: Option<Comparison>,
}

/// An optional output as a lookup hands it on.
pub open spec fn as_found<V>(output: &Option<IndicatorOutput<V>>) -> Option<&IndicatorOutput<V>> {
    match output {
        Some(o) => Some(o),
        None => None,
    }
}

/// `reading` is what an evaluation of `rule` at `bar_index` may find and
/// compare: the outputs come from the cache; the operands are compared at
/// the bar exactly when both have a value there; and they are compared at
/// the bar before only if there is one and both have a value there. The
/// outputs are those that the cache holds under keys of the operands'
/// indicators, and each comparison is one that `numbers` makes of the two
/// values.
pub open spec fn rule_read<V, N: Numbers<V>>(
    numbers: &N,
    rule: &Rule<V>,
    bar_index: int,
    cache: &IndicatorCache<V>,
    candles: Seq<Candle<V>>,
    daily_ohlc: Option<&DailyOhlcCache<V>>,
    time_cache: Option<&TimeCache<V>>,
    pattern_cache: Option<&CandlePatternCache<V>>,
    time_offset: int,
    reading: RuleReading<V>,
) -> bool {
    let left_now = operand_value(&rule.left_operand, as_found(&reading.left_output), bar_index, candles, daily_ohlc, time_cache, pattern_cache, time_offset, reading.zero);
    let right_now = operand_value(&rule.right_operand, as_found(&reading.right_output), bar_index, candles, daily_ohlc, time_cache, pattern_cache, time_offset, reading.zero);
    let left_before = operand_value(&rule.left_operand, as_found(&reading.left_output), bar_index - 1, candles, daily_ohlc, time_cache, pattern_cache, time_offset, reading.zero);
    let right_before = operand_value(&rule.right_operand, as_found(&reading.right_output), bar_index - 1, candles, daily_ohlc, time_cache, pattern_cache, time_offset, reading.zero);
    &&& output_from(&rule.left_operand, cache, as_found(&reading.left_output))
    &&& output_from(&rule.right_operand, cache, as_found(&reading.right_output))
    &&& (reading.now is Some <==> left_now is Some && right_now is Some)
    &&& (reading.before is Some ==> bar_index > 0 && left_before is Some && right_before is Some)
    &&& ints(numbers, 0, reading.zero)
    &&& output_found(numbers, &rule.left_operand, cache, reading.left_output)
    &&& output_found(numbers, &rule.right_operand, cache, reading.right_output)
    &&& (reading.now is Some ==> compares(numbers, left_now->Some_0, right_now->Some_0, reading.now->Some_0))
    &&& (reading.before is Some ==> compares(numbers, left_before->Some_0, right_before->Some_0, reading.before->Some_0))
}

/// `holds` is a value that `rule` may take at `bar_index`: the value that
/// `rule_holds` gives for some reading of the rule.
pub open spec fn rule_value<V, N: Numbers<V>>(
    numbers: &N,
    rule: &Rule<V>,
    bar_index: int,
    cache: &IndicatorCache<V>,
    candles: Seq<Candle<V>>,
    daily_ohlc: Option<&DailyOhlcCache<V>>,
    time_cache: Option<&TimeCache<V>>,
    pattern_cache: Option<&CandlePatternCache<V>>,
    time_offset: int,
    holds: bool,
) -> bool {
    exists|reading: RuleReading<V>| #[trigger] rule_read(numbers, rule, bar_index, cache, candles, daily_ohlc, time_cache, pattern_cache, time_offset, reading) && holds == rule_holds(rule.comparator, reading.now, reading.before)
}

/// The output behind a lookup, as a value.
pub open spec fn found_value<V>(found: Option<&IndicatorOutput<V>>) -> Option<IndicatorOutput<V>> {
    match found {
        Some(o) => Some(*o),
        None => None,
    }
}

/// Evaluates one rule at `bar_index`: reads both operands, has them
/// compared, and for a cross comparator does the same at the bar before.
///
/// Whatever the comparisons yield and however cache keys are written, the
/// result is a value that `rule_value` admits: which values are read is
/// `operand_value`, and what follows from each outcome of the comparisons
/// is `rule_holds`.
pub fn evaluate_single_rule<V: Copy, N: Numbers<V>>(
    numbers: &N,
    rule: &Rule<V>,
    bar_index: usize,
    cache: &IndicatorCache<V>,
    candles: &Vec<Candle<V>>,
    daily_ohlc: Option<&DailyOhlcCache<V>>,
    time_cache: Option<&TimeCache<V>>,
    pattern_cache: Option<&CandlePatternCache<V>>,
    time_offset: usize,
) -> (holds: bool)
    ensures
        rule_value(numbers, rule, bar_index as int, cache, candles@, daily_ohlc, time_cache, pattern_cache, time_offset as int, holds),
{
    let zero = numbers.from_int(0);
    let left_found = find_output(numbers, &rule.left_operand, cache);
    let right_found = find_output(numbers, &rule.right_operand, cache);
    let left = resolve_value(&rule.left_operand, left_found, bar_index, candles, daily_ohlc, time_cache, pattern_cache, time_offset, zero);
    let right = resolve_value(&rule.right_operand, right_found, bar_index, candles, daily_ohlc, time_cache, pattern_cache, time_offset, zero);
    assert(ints(numbers, 0, zero));
    let current: Option<Comparison> = match (left, right) {
        (Some(l), Some(r)) => {
            let c = numbers.compare(l, r);
            assert(compares(numbers, l, r, c));
            Some(c)
        },
        _ => None,
    };
    let crossing: bool = match rule.comparator {
        Comparator::CrossAbove => true,
        Comparator::CrossBelow => true,
        _ => false,
    };
    let previous: Option<Comparison> = if crossing && bar_index > 0 && current.is_some() {
        let prev_left = resolve_value(&rule.left_operand, left_found, bar_index - 1, candles, daily_ohlc, time_cache, pattern_cache, time_offset, zero);
        let prev_right = resolve_value(&rule.right_operand, right_found, bar_index - 1, candles, daily_ohlc, time_cache, pattern_cache, time_offset, zero);
        match (prev_left, prev_right) {
            (Some(l), Some(r)) => {
                let c = numbers.compare(l, r);
                assert(compares(numbers, l, r, c));
                Some(c)
            },
            _ => None,
        }
    } else {
        None
    };
    let holds = decide_rule(rule.comparator, current, previous);
    proof {
        let reading = RuleReading {
            left_output: found_value(left_found),
            right_output: found_value(right_found),
            zero,
            now: current,
            before: previous,
        };
        assert(as_found(&reading.left_output) == left_found);
        assert(as_found(&reading.right_output) == right_found);
        assert(rule_read(numbers, rule, bar_index as int, cache, candles@, daily_ohlc, time_cache, pattern_cache, time_offset as int, reading));
    }
    holds
}

/// `holds` is a value that a rule list may take at `bar_index`: the fold
/// `chained` of one value per rule that `rule_value` admits.
pub open spec fn rules_value<V, N: Numbers<V>>(
    numbers: &N,
    rules: Seq<Rule<V>>,
    bar_index: int,
    cache: &IndicatorCache<V>,
    candles: Seq<Candle<V>>,
    daily_ohlc: Option<&DailyOhlcCache<V>>,
    time_cache: Option<&TimeCache<V>>,
    pattern_cache: Option<&CandlePatternCache<V>>,
    time_offset: int,
    holds: bool,
) -> bool {
    exists|values: Seq<bool>|
        {
            &&& values.len() == rules.len()
            &&& forall|i: int| 0 <= i < values.len() ==> rule_value(numbers, &rules[i], bar_index, cache, candles, daily_ohlc, time_cache, pattern_cache, time_offset, #[trigger] values[i])
            &&& holds == #[trigger] chained(connectors(rules), values, rules.len() as int)
        }
}

/// Evaluates a rule list at `bar_index`. The rules are joined from the left
/// by their connectors; every rule is evaluated.
///
/// Whatever the comparisons yield: an empty list is false, and the result is
/// the fold `chained` of one admitted value per rule.
pub fn evaluate_rules<V: Copy, N: Numbers<V>>(
    numbers: &N,
    rules: &Vec<Rule<V>>,
    bar_index: usize,
    cache: &IndicatorCache<V>,
    candles: &Vec<Candle<V>>,
    daily_ohlc: Option<&DailyOhlcCache<V>>,
    time_cache: Option<&TimeCache<V>>,
    pattern_cache: Option<&CandlePatternCache<V>>,
    time_offset: usize,
) -> (r: bool)
    ensures
        rules@.len() == 0 ==> !r,
        rules_value(numbers, rules@, bar_index as int, cache, candles@, daily_ohlc, time_cache, pattern_cache, time_offset as int, r),
{
    let mut values: Vec<bool> = Vec::new();
    let mut i: usize = 0;
    while i < rules.len()
        invariant
            i <= rules@.len(),
            values@.len() == i,
            forall|k: int| 0 <= k < i ==> rule_value(numbers, &rules@[k], bar_index as int, cache, candles@, daily_ohlc, time_cache, pattern_cache, time_offset as int, #[trigger] values@[k]),
        decreases rules@.len() - i,
    {
        let holds = evaluate_single_rule(numbers, &rules[i], bar_index, cache, candles, daily_ohlc, time_cache, pattern_cache, time_offset);
        values.push(holds);
        i += 1;
    }
    let r = chain_rules(rules, &values);
    assert(values@.len() == rules@.len() && r == chained(connectors(rules@), values@, rules@.len() as int));
    r
}

/// The number of bars that an indicator looks back, by kind; a period that
/// is not set counts with its default.
pub open spec fn indicator_lookback_of<V>(config: &IndicatorConfig<V>) -> int {
    let period: int = match config.params.period {
        Some(p) => p as int,
        None => 14,
    };
    match config.indicator_type {
        IndicatorType::SMA | IndicatorType::EMA | IndicatorType::CCI | IndicatorType::WilliamsR
        | IndicatorType::BiggestRange | IndicatorType::HighestInRange | IndicatorType::LowestInRange
        | IndicatorType::SmallestRange | IndicatorType::BearsPower | IndicatorType::BullsPower
        | IndicatorType::Fibonacci | IndicatorType::GannHiLo | IndicatorType::HullMA
        | IndicatorType::LinearRegression | IndicatorType::StdDev | IndicatorType::UlcerIndex => period,
        IndicatorType::BollingerBands => match config.params.period {
            Some(p) => p as int,
            None => 20,
        },
        IndicatorType::RSI | IndicatorType::ATR | IndicatorType::ROC | IndicatorType::Aroon
        | IndicatorType::Momentum | IndicatorType::Vortex | IndicatorType::DeMarker
        | IndicatorType::KeltnerChannel | IndicatorType::SuperTrend => period + 1,
        IndicatorType::Reflex => period + 2,
        IndicatorType::ADX => period * 2 + 1,
        IndicatorType::MACD => (match config.params.slow_period {
            Some(p) => p as int,
            None => 26,
        }) + (match config.params.signal_period {
            Some(p) => p as int,
            None => 9,
        }),
        IndicatorType::Stochastic => (match config.params.k_period {
            Some(p) => p as int,
            None => 14,
        }) + (match config.params.d_period {
            Some(p) => p as int,
            None => 3,
        }),
        IndicatorType::Ichimoku => (match config.params.signal_period {
            Some(p) => p as int,
            None => 52,
        }) + (match config.params.slow_period {
            Some(p) => p as int,
            None => 26,
        }),
        IndicatorType::ParabolicSAR => 2,
        IndicatorType::AwesomeOscillator => 34,
        IndicatorType::Fractal => 5,
        IndicatorType::VWAP | IndicatorType::BarRange | IndicatorType::TrueRange | IndicatorType::HeikenAshi
        | IndicatorType::LaguerreRSI | IndicatorType::Pivots => 1,
    }
}

/// `p` or, where it is not set, `default`.
fn or_default(p: Option<usize>, default: usize) -> (r: usize)
    ensures
        r == (match p {
            Some(v) => v,
            None => default,
        }),
{
    match p {
        Some(v) => v,
        None => default,
    }
}

/// The lookback of an indicator, clipped to the largest `usize`.
pub fn indicator_lookback<V>(config: &IndicatorConfig<V>) -> (r: usize)
    ensures
        r == clip(indicator_lookback_of(config)),
{
    let period: usize = or_default(config.params.period, 14);
    match config.indicator_type {
        IndicatorType::SMA | IndicatorType::EMA | IndicatorType::CCI | IndicatorType::WilliamsR
        | IndicatorType::BiggestRange | IndicatorType::HighestInRange | IndicatorType::LowestInRange
        | IndicatorType::SmallestRange | IndicatorType::BearsPower | IndicatorType::BullsPower
        | IndicatorType::Fibonacci | IndicatorType::GannHiLo | IndicatorType::HullMA
        | IndicatorType::LinearRegression | IndicatorType::StdDev | IndicatorType::UlcerIndex => period,
        IndicatorType::BollingerBands => or_default(config.params.period, 20),
        IndicatorType::RSI | IndicatorType::ATR | IndicatorType::ROC | IndicatorType::Aroon
        | IndicatorType::Momentum | IndicatorType::Vortex | IndicatorType::DeMarker
        | IndicatorType::KeltnerChannel | IndicatorType::SuperTrend => period.saturating_add(1),
        IndicatorType::Reflex => period.saturating_add(2),
        IndicatorType::ADX => period.saturating_add(period).saturating_add(1),
        IndicatorType::MACD => or_default(config.params.slow_period, 26).saturating_add(
            or_default(config.params.signal_period, 9),
        ),
        IndicatorType::Stochastic => or_default(config.params.k_period, 14).saturating_add(
            or_default(config.params.d_period, 3),
        ),
        IndicatorType::Ichimoku => or_default(config.params.signal_period, 52).saturating_add(
            or_default(config.params.slow_period, 26),
        ),
        IndicatorType::ParabolicSAR => 2,
        IndicatorType::AwesomeOscillator => 34,
        IndicatorType::Fractal => 5,
        IndicatorType::VWAP | IndicatorType::BarRange | IndicatorType::TrueRange | IndicatorType::HeikenAshi
        | IndicatorType::LaguerreRSI | IndicatorType::Pivots => 1,
    }
}

/// The number of bars that an operand looks back: its indicator's lookback,
/// if it reads one, plus its own offset.
pub open spec fn operand_lookback_of<V>(operand: &Operand<V>) -> int {
    (if operand.operand_type == OperandType::Indicator && operand.indicator is Some {
        indicator_lookback_of(&operand.indicator->Some_0)
    } else {
        0
    }) + (match operand.offset {
        Some(o) => o as int,
        None => 0,
    })
}

/// The lookback of an operand, clipped to the largest `usize`.
pub fn operand_lookback<V>(operand: &Operand<V>) -> (r: usize)
    ensures
        r == clip(operand_lookback_of(operand)),
{
    let base: usize = match operand.operand_type {
        OperandType::Indicator => match &operand.indicator {
            Some(config) => indicator_lookback(config),
            None => 0,
        },
        _ => 0,
    };
    base.saturating_add(or_default(operand.offset, 0))
}

/// The larger of two integers.
pub open spec fn larger(a: int, b: int) -> int {
    if a >= b {
        a
    } else {
        b
    }
}

/// The largest operand lookback among the first `n` rules of a list.
pub open spec fn rules_lookback<V>(rules: Seq<Rule<V>>, n: int) -> int
    decreases n,
{
    if n <= 0 {
        0
    } else {
        larger(
            rules_lookback(rules, n - 1),
            larger(operand_lookback_of(&rules[n - 1].left_operand), operand_lookback_of(&rules[n - 1].right_operand)),
        )
    }
}

/// The largest operand lookback of a rule list, clipped.
fn group_lookback<V>(rules: &Vec<Rule<V>>) -> (r: usize)
    ensures
        r == clip(rules_lookback(rules@, rules@.len() as int)),
{
    let mut max: usize = 0;
    let mut i: usize = 0;
    while i < rules.len()
        invariant
            i <= rules@.len(),
            max == clip(rules_lookback(rules@, i as int)),
        decreases rules@.len() - i,
    {
        let left: usize = operand_lookback(&rules[i].left_operand);
        let right: usize = operand_lookback(&rules[i].right_operand);
        if left > max {
            max = left;
        }
        if right > max {
            max = right;
        }
        i += 1;
    }
    max
}

/// The first bar at which every rule of the strategy can be evaluated: the
/// largest lookback of any operand, and one more for the bar before that the
/// cross comparators read.
pub open spec fn lookback_of<V>(strategy: &Strategy<V>) -> int {
    larger(
        larger(
            rules_lookback(strategy.long_entry_rules@, strategy.long_entry_rules@.len() as int),
            rules_lookback(strategy.short_entry_rules@, strategy.short_entry_rules@.len() as int),
        ),
        larger(
            rules_lookback(strategy.long_exit_rules@, strategy.long_exit_rules@.len() as int),
            rules_lookback(strategy.short_exit_rules@, strategy.short_exit_rules@.len() as int),
        ),
    ) + 1
}

/// Lookbacks are never negative.
pub proof fn lemma_lookback_positive<V>(strategy: &Strategy<V>)
    ensures
        lookback_of(strategy) >= 1,
{
    lemma_rules_lookback_nonneg(strategy.long_entry_rules@, strategy.long_entry_rules@.len() as int);
}

/// The lookback of a rule list is never negative.
proof fn lemma_rules_lookback_nonneg<V>(rules: Seq<Rule<V>>, n: int)
    ensures
        rules_lookback(rules, n) >= 0,
    decreases n,
{
    if n > 0 {
        lemma_rules_lookback_nonneg(rules, n - 1);
    }
}

/// Computes the first bar at which every rule of the strategy can be
/// evaluated, clipped to the largest `usize`.
pub fn max_lookback<V>(strategy: &Strategy<V>) -> (r: usize)
    ensures
        r == clip(lookback_of(strategy)),
        r >= 1,
{
    proof {
        lemma_lookback_positive(strategy);
    }
    let mut max: usize = group_lookback(&strategy.long_entry_rules);
    let b: usize = group_lookback(&strategy.short_entry_rules);
    let c: usize = group_lookback(&strategy.long_exit_rules);
    let d: usize = group_lookback(&strategy.short_exit_rules);
    if b > max {
        max = b;
    }
    if c > max {
        max = c;
    }
    if d > max {
        max = d;
    }
    max.saturating_add(1)
}

/// Some rule of the list has an operand of type `t`.
pub open spec fn rules_use<V>(rules: Seq<Rule<V>>, t: OperandType) -> bool {
    exists|i: int| 0 <= i < rules.len() && (#[trigger] rules[i].left_operand.operand_type == t || rules[i].right_operand.operand_type == t)
}

/// Some rule of the strategy has an operand of type `t`.
pub open spec fn strategy_uses<V>(strategy: &Strategy<V>, t: OperandType) -> bool {
    ||| rules_use(strategy.long_entry_rules@, t)
    ||| rules_use(strategy.short_entry_rules@, t)
    ||| rules_use(strategy.long_exit_rules@, t)
    ||| rules_use(strategy.short_exit_rules@, t)
}

/// Whether a rule of the list has an operand of type `t`.
fn group_uses<V>(rules: &Vec<Rule<V>>, t: OperandType) -> (b: bool)
    ensures
        b == rules_use(rules@, t),
{
    let mut i: usize = 0;
    while i < rules.len()
        invariant
            i <= rules@.len(),
            forall|j: int| 0 <= j < i ==> !(#[trigger] rules@[j].left_operand.operand_type == t || rules@[j].right_operand.operand_type == t),
        decreases rules@.len() - i,
    {
        if rules[i].left_operand.operand_type == t || rules[i].right_operand.operand_type == t {
            return true;
        }
        i += 1;
    }
    false
}

/// Whether any rule of the strategy reads a bar-time operand.
pub fn strategy_uses_time_fields<V>(strategy: &Strategy<V>) -> (b: bool)
    ensures
        b == strategy_uses(strategy, OperandType::BarTime),
{
    group_uses(&strategy.long_entry_rules, OperandType::BarTime) || group_uses(
        &strategy.short_entry_rules,
        OperandType::BarTime,
    ) || group_uses(&strategy.long_exit_rules, OperandType::BarTime) || group_uses(
        &strategy.short_exit_rules,
        OperandType::BarTime,
    )
}

/// Whether any rule of the strategy reads a candle-pattern operand.
pub fn strategy_uses_candle_patterns<V>(strategy: &Strategy<V>) -> (b: bool)
    ensures
        b == strategy_uses(strategy, OperandType::CandlePattern),
{
    group_uses(&strategy.long_entry_rules, OperandType::CandlePattern) || group_uses(
        &strategy.short_entry_rules,
        OperandType::CandlePattern,
    ) || group_uses(&strategy.long_exit_rules, OperandType::CandlePattern) || group_uses(
        &strategy.short_exit_rules,
        OperandType::CandlePattern,
    )
}

/// The four rule lists of a strategy.
#[derive(Debug, Clone, Copy, PartialEq, Eq, Structural)]
pub enum RuleGroup {
    LongEntry,
    ShortEntry,
    LongExit,
    ShortExit,
}

/// The two sides of a rule.
#[derive(Debug, Clone, Copy, PartialEq, Eq, Structural)]
pub enum Side {
    Left,
    Right,
}

/// One place of a strategy that reads an indicator, with the cache key of
/// the indicator read there.
#[derive(Debug)]
pub struct IndicatorUse {
    pub group: RuleGroup,
    pub rule: usize,
    pub side: Side,
    pub key: String,
}

/// The rules of one group.
pub open spec fn group_rules<V>(strategy: &Strategy<V>, group: RuleGroup) -> Seq<Rule<V>> {
    match group {
        RuleGroup::LongEntry => strategy.long_entry_rules@,
        RuleGroup::ShortEntry => strategy.short_entry_rules@,
        RuleGroup::LongExit => strategy.long_exit_rules@,
        RuleGroup::ShortExit => strategy.short_exit_rules@,
    }
}

/// The operand on one side of a rule.
pub open spec fn side_of<V>(rule: Rule<V>, side: Side) -> Operand<V> {
    match side {
        Side::Left => rule.left_operand,
        Side::Right => rule.right_operand,
    }
}

/// An operand that reads an indicator.
pub open spec fn reads_indicator<V>(operand: Operand<V>) -> bool {
    operand.operand_type == OperandType::Indicator && operand.indicator is Some
}

/// The place `(group, rule, side)` exists in the strategy and reads an
/// indicator.
pub open spec fn is_use<V>(strategy: &Strategy<V>, group: RuleGroup, rule: int, side: Side) -> bool {
    0 <= rule < group_rules(strategy, group).len() && reads_indicator(side_of(group_rules(strategy, group)[rule], side))
}

/// The uses among `uses` name every place of the first `n` rules of `group`
/// that reads an indicator.
pub open spec fn covers<V>(strategy: &Strategy<V>, uses: Seq<IndicatorUse>, group: RuleGroup, n: int) -> bool {
    forall|rule: int, side: Side| 0 <= rule < n && #[trigger] is_use(strategy, group, rule, side) ==> exists|u: int| 0 <= u < uses.len() && (#[trigger] uses[u]).group == group && uses[u].rule == rule && uses[u].side == side
}

/// Every entry of `uses` names a place that reads an indicator.
pub open spec fn all_uses<V>(strategy: &Strategy<V>, uses: Seq<IndicatorUse>) -> bool {
    forall|u: int| 0 <= u < uses.len() ==> is_use(strategy, (#[trigger] uses[u]).group, uses[u].rule as int, uses[u].side)
}

/// The rule list of a group.
fn rules_of<V>(strategy: &Strategy<V>, group: RuleGroup) -> (rules: &Vec<Rule<V>>)
    ensures
        rules@ == group_rules(strategy, group),
{
    match group {
        RuleGroup::LongEntry => &strategy.long_entry_rules,
        RuleGroup::ShortEntry => &strategy.short_entry_rules,
        RuleGroup::LongExit => &strategy.long_exit_rules,
        RuleGroup::ShortExit => &strategy.short_exit_rules,
    }
}

/// Adds the use of one operand, if it reads an indicator.
fn collect_operand<V: Copy, N: Numbers<V>>(numbers: &N, strategy: &Strategy<V>, operand: &Operand<V>, group: RuleGroup, rule: usize, side: Side, uses: &mut Vec<IndicatorUse>)
    requires
        rule < group_rules(strategy, group).len(),
        *operand == side_of(group_rules(strategy, group)[rule as int], side),
        all_uses(strategy, old(uses)@),
    ensures
        all_uses(strategy, final(uses)@),
        old(uses)@.len() <= final(uses)@.len() <= old(uses)@.len() + 1,
        forall|u: int| 0 <= u < old(uses)@.len() ==> final(uses)@[u] == old(uses)@[u],
        reads_indicator(*operand) ==> final(uses)@.len() == old(uses)@.len() + 1 && ({
            let added = final(uses)@[old(uses)@.len() as int];
            added.group == group && added.rule == rule && added.side == side
        }),
{
    match operand.operand_type {
        OperandType::Indicator => match &operand.indicator {
            Some(config) => {
                let key = config.cache_key(numbers);
                uses.push(IndicatorUse { group, rule, side, key });
            },
            None => {},
        },
        _ => {},
    }
}

/// Adds the uses of one rule group.
fn collect_group<V: Copy, N: Numbers<V>>(numbers: &N, strategy: &Strategy<V>, group: RuleGroup, uses: &mut Vec<IndicatorUse>)
    requires
        all_uses(strategy, old(uses)@),
    ensures
        all_uses(strategy, final(uses)@),
        old(uses)@.len() <= final(uses)@.len(),
        forall|u: int| 0 <= u < old(uses)@.len() ==> final(uses)@[u] == old(uses)@[u],
        covers(strategy, final(uses)@, group, group_rules(strategy, group).len() as int),
{
    let rules = rules_of(strategy, group);
    let mut i: usize = 0;
    while i < rules.len()
        invariant
            i <= rules@.len(),
            rules@ == group_rules(strategy, group),
            all_uses(strategy, uses@),
            old(uses)@.len() <= uses@.len(),
            forall|u: int| 0 <= u < old(uses)@.len() ==> uses@[u] == old(uses)@[u],
            covers(strategy, uses@, group, i as int),
        decreases rules@.len() - i,
    {
        let ghost before = uses@;
        collect_operand(numbers, strategy, &rules[i].left_operand, group, i, Side::Left, uses);
        let ghost middle = uses@;
        collect_operand(numbers, strategy, &rules[i].right_operand, group, i, Side::Right, uses);
        proof {
            assert forall|rule: int, side: Side| 0 <= rule < i + 1 && #[trigger] is_use(strategy, group, rule, side) implies exists|u: int| 0 <= u < uses@.len() && (#[trigger] uses@[u]).group == group && uses@[u].rule == rule && uses@[u].side == side by {
                if rule < i {
                    let u = choose|u: int| 0 <= u < before.len() && (#[trigger] before[u]).group == group && before[u].rule == rule && before[u].side == side;
                    assert(middle[u] == before[u]);
                    assert(uses@[u] == middle[u]);
                } else {
                    match side {
                        Side::Left => {
                            let u = before.len() as int;
                            assert(uses@[u] == middle[u]);
                        },
                        Side::Right => {
                            let u = middle.len() as int;
                            assert(uses@[u].group == group);
                        },
                    }
                }
            }
        }
        i += 1;
    }
}

/// Lists every place of the strategy that reads an indicator, in the order
/// long entry, short entry, long exit, short exit, and within a rule left
/// before right, each with the cache key of its indicator.
pub fn collect_indicator_uses<V: Copy, N: Numbers<V>>(numbers: &N, strategy: &Strategy<V>) -> (uses: Vec<IndicatorUse>)
    ensures
        all_uses(strategy, uses@),
        covers(strategy, uses@, RuleGroup::LongEntry, strategy.long_entry_rules@.len() as int),
        covers(strategy, uses@, RuleGroup::ShortEntry, strategy.short_entry_rules@.len() as int),
        covers(strategy, uses@, RuleGroup::LongExit, strategy.long_exit_rules@.len() as int),
        covers(strategy, uses@, RuleGroup::ShortExit, strategy.short_exit_rules@.len() as int),
{
    let mut uses: Vec<IndicatorUse> = Vec::new();
    collect_group(numbers, strategy, RuleGroup::LongEntry, &mut uses);
    let ghost first = uses@;
    collect_group(numbers, strategy, RuleGroup::ShortEntry, &mut uses);
    let ghost second = uses@;
    collect_group(numbers, strategy, RuleGroup::LongExit, &mut uses);
    let ghost third = uses@;
    collect_group(numbers, strategy, RuleGroup::ShortExit, &mut uses);
    proof {
        lemma_covers_extends(strategy, first, second, RuleGroup::LongEntry, strategy.long_entry_rules@.len() as int);
        lemma_covers_extends(strategy, second, third, RuleGroup::LongEntry, strategy.long_entry_rules@.len() as int);
        lemma_covers_extends(strategy, third, uses@, RuleGroup::LongEntry, strategy.long_entry_rules@.len() as int);
        lemma_covers_extends(strategy, second, third, RuleGroup::ShortEntry, strategy.short_entry_rules@.len() as int);
        lemma_covers_extends(strategy, third, uses@, RuleGroup::ShortEntry, strategy.short_entry_rules@.len() as int);
        lemma_covers_extends(strategy, third, uses@, RuleGroup::LongExit, strategy.long_exit_rules@.len() as int);
    }
    uses
}

/// What a list covers, a longer list with the same beginning covers too.
proof fn lemma_covers_extends<V>(strategy: &Strategy<V>, shorter: Seq<IndicatorUse>, longer: Seq<IndicatorUse>, group: RuleGroup, n: int)
    requires
        covers(strategy, shorter, group, n),
        shorter.len() <= longer.len(),
        forall|u: int| 0 <= u < shorter.len() ==> longer[u] == shorter[u],
    ensures
        covers(strategy, longer, group, n),
{
    assert forall|rule: int, side: Side| 0 <= rule < n && #[trigger] is_use(strategy, group, rule, side) implies exists|u: int| 0 <= u < longer.len() && (#[trigger] longer[u]).group == group && longer[u].rule == rule && longer[u].side == side by {
        let u = choose|u: int| 0 <= u < shorter.len() && (#[trigger] shorter[u]).group == group && shorter[u].rule == rule && shorter[u].side == side;
        assert(longer[u] == shorter[u]);
    }
}

/// The keys of a list of uses, in order.
pub open spec fn use_keys(uses: Seq<IndicatorUse>) -> Seq<Seq<char>> {
    Seq::new(uses.len(), |i: int| uses[i].key@)
}

/// No earlier name equals the name at `i`.
pub open spec fn is_first(names: Seq<Seq<char>>, i: int) -> bool {
    0 <= i < names.len() && forall|j: int| 0 <= j < i ==> names[j] != names[i]
}

/// `keep` holds, in ascending order, exactly the positions at which a key
/// occurs for the first time.
pub open spec fn first_occurrences(names: Seq<Seq<char>>, keep: Seq<usize>) -> bool {
    &&& forall|a: int, b: int| 0 <= a < b < keep.len() ==> #[trigger] keep[a] < #[trigger] keep[b]
    &&& forall|a: int| 0 <= a < keep.len() ==> is_first(names, (#[trigger] keep[a]) as int)
    &&& forall|i: int| is_first(names, i) ==> exists|a: int| 0 <= a < keep.len() && #[trigger] keep[a] == i
}

/// Finds the positions at which each key of `uses` occurs first: the
/// indicators to compute, each exactly once.
pub fn distinct_uses(uses: &Vec<IndicatorUse>) -> (keep: Vec<usize>)
    ensures
        first_occurrences(use_keys(uses@), keep@),
{
    let ghost names = use_keys(uses@);
    let mut keep: Vec<usize> = Vec::new();
    let mut i: usize = 0;
    while i < uses.len()
        invariant
            i <= uses@.len(),
            names == use_keys(uses@),
            forall|a: int, b: int| 0 <= a < b < keep@.len() ==> #[trigger] keep@[a] < #[trigger] keep@[b],
            forall|a: int| 0 <= a < keep@.len() ==> (#[trigger] keep@[a]) < i && is_first(names, keep@[a] as int),
            forall|k: int| 0 <= k < i && is_first(names, k) ==> exists|a: int| 0 <= a < keep@.len() && #[trigger] keep@[a] == k,
        decreases uses@.len() - i,
    {
        let mut seen: bool = false;
        let mut j: usize = 0;
        while j < i && !seen
            invariant
                j <= i < uses@.len(),
                names == use_keys(uses@),
                !seen ==> forall|k: int| 0 <= k < j ==> names[k] != names[i as int],
                seen ==> exists|k: int| 0 <= k < i && names[k] == names[i as int],
            decreases i - j + (if seen { 0int } else { 1int }),
        {
            if uses[j].key == uses[i].key {
                assert(names[j as int] == names[i as int]);
                seen = true;
            } else {
                assert(names[j as int] != names[i as int]);
                j += 1;
            }
        }
        let ghost before = keep@;
        if !seen {
            keep.push(i);
        }
        proof {
            assert forall|k: int| 0 <= k < i + 1 && is_first(names, k) implies exists|a: int| 0 <= a < keep@.len() && #[trigger] keep@[a] == k by {
                if k < i {
                    let a = choose|a: int| 0 <= a < before.len() && #[trigger] before[a] == k;
                    assert(keep@[a] == k);
                } else {
                    assert(!seen);
                    assert(keep@[before.len() as int] == i);
                }
            }
        }
        i += 1;
    }
    keep
}

/// The ATR period that the risk settings of a strategy ask for: that of the
/// stop-loss if it is ATR-based and names a period, else that of the
/// take-profit on the same terms, else that of the trailing stop.
pub open spec fn atr_period_of<V>(strategy: &Strategy<V>) -> Option<usize> {
    if strategy.stop_loss is Some && strategy.stop_loss->Some_0.sl_type == StopLossType::ATR && strategy.stop_loss->Some_0.atr_period is Some {
        strategy.stop_loss->Some_0.atr_period
    } else if strategy.take_profit is Some && strategy.take_profit->Some_0.tp_type == TakeProfitType::ATR && strategy.take_profit->Some_0.atr_period is Some {
        strategy.take_profit->Some_0.atr_period
    } else if strategy.trailing_stop is Some && strategy.trailing_stop->Some_0.ts_type == TrailingStopType::ATR {
        strategy.trailing_stop->Some_0.atr_period
    } else {
        None
    }
}

/// Decides which ATR period, if any, the risk settings of a strategy need.
pub fn atr_period_needed<V: Copy>(strategy: &Strategy<V>) -> (period: Option<usize>)
    ensures
        period == atr_period_of(strategy),
{
    if let Some(sl) = strategy.stop_loss {
        if sl.sl_type == StopLossType::ATR && sl.atr_period.is_some() {
            return sl.atr_period;
        }
    }
    if let Some(tp) = strategy.take_profit {
        if tp.tp_type == TakeProfitType::ATR && tp.atr_period.is_some() {
            return tp.atr_period;
        }
    }
    if let Some(ts) = strategy.trailing_stop {
        if ts.ts_type == TrailingStopType::ATR {
            return ts.atr_period;
        }
    }
    None
}

/// The weekday of a day number, counted from Sunday as zero. Day 0,
/// 1970-01-01, was a Thursday.
pub open spec fn weekday_of(day_number: int) -> int {
    (day_number + 4) % 7
}

/// What the clock and the calendar say of a bar.
#[derive(Debug, Clone, Copy, PartialEq, Eq, Structural)]
pub struct BarClock {
    pub hour: u8,
    pub minute: u8,
    /// Minutes since midnight.
    pub time: u16,
    /// Sunday is zero.
    pub day_of_week: u8,
    /// January is one.
    pub month: u8,
}

/// The clock of the bar that opens at `micros`.
pub open spec fn clock_of(micros: int, clock: BarClock) -> bool {
    &&& clock.hour == day_micros_of(micros) / 3_600_000_000
    &&& clock.minute == (day_micros_of(micros) / 60_000_000) % 60
    &&& clock.time == clock.hour * 60 + clock.minute
    &&& clock.day_of_week == weekday_of(day_number_of(micros))
    &&& exists|c: DateTime| c.valid() && c.to_micros() == micros && clock.month == c.month
}

/// The weekday of a day number, Sunday being zero.
pub fn weekday(day: i64) -> (w: u8)
    ensures
        w == weekday_of(day as int),
        w <= 6,
{
    let weeks: i128 = 2_000_000_000_000_000_000;
    let shifted: i128 = day as i128 + 4 + 7 * weeks;
    proof {
        vstd::arithmetic::div_mod::lemma_mod_multiples_vanish(weeks as int, day as int + 4, 7);
    }
    let r: i128 = shifted % 7;
    r as u8
}

/// The month in which an instant lies.
fn month_of(micros: i64) -> (month: u8)
    ensures
        exists|c: DateTime| c.valid() && c.to_micros() == micros && month == c.month,
{
    let c = civil_from_micros(micros);
    c.month as u8
}

/// Reads the clock of the bar that opens at `micros`.
pub fn bar_clock(micros: i64) -> (clock: BarClock)
    ensures
        clock_of(micros as int, clock),
{
    let hm = extract_hour_minute(micros);
    let day_of_week: u8 = weekday(day_number(micros));
    let month: u8 = month_of(micros);
    BarClock { hour: hm.0, minute: hm.1, time: hm.0 as u16 * 60 + hm.1 as u16, day_of_week, month }
}

/// Entry `i` of the time values: the number of the bar, and minute of the
/// day, hour, minute, weekday and month of the clock of the bar, each as
/// the value that `numbers` gives to the integer.
pub open spec fn clocked_at<V, N: Numbers<V>>(numbers: &N, candles: Seq<Candle<V>>, cache: &TimeCache<V>, i: int) -> bool {
    exists|clock: BarClock| #[trigger]
        clock_of(candles[i].timestamp as int, clock) && ints(numbers, whole(i as usize), cache.current_bar@[i]) && ints(numbers, clock.time as i64, cache.bar_time@[i]) && ints(numbers, clock.hour as i64, cache.bar_hour@[i]) && ints(
            numbers,
            clock.minute as i64,
            cache.bar_minute@[i],
        ) && ints(numbers, clock.day_of_week as i64, cache.bar_day_of_week@[i]) && ints(numbers, clock.month as i64, cache.bar_month@[i])
}

/// `cache` holds the time values of every bar.
pub open spec fn time_cached<V, N: Numbers<V>>(numbers: &N, candles: Seq<Candle<V>>, cache: &TimeCache<V>) -> bool {
    &&& cache.current_bar@.len() == candles.len()
    &&& cache.bar_time@.len() == candles.len()
    &&& cache.bar_hour@.len() == candles.len()
    &&& cache.bar_minute@.len() == candles.len()
    &&& cache.bar_day_of_week@.len() == candles.len()
    &&& cache.bar_month@.len() == candles.len()
    &&& forall|i: int| 0 <= i < candles.len() ==> #[trigger] clocked_at(numbers, candles, cache, i)
}

/// The time values of one bar: its number and the figures of its clock.
fn clock_values<V: Copy, N: Numbers<V>>(numbers: &N, micros: i64, i: usize) -> (r: (V, V, V, V, V, V, Ghost<BarClock>))
    ensures
        clock_of(micros as int, r.6@),
        ints(numbers, whole(i), r.0),
        ints(numbers, r.6@.time as i64, r.1),
        ints(numbers, r.6@.hour as i64, r.2),
        ints(numbers, r.6@.minute as i64, r.3),
        ints(numbers, r.6@.day_of_week as i64, r.4),
        ints(numbers, r.6@.month as i64, r.5),
{
    let clock = bar_clock(micros);
    let index: u64 = i as u64;
    let bar: i64 = if index > 9_223_372_036_854_775_807u64 {
        i64::MAX
    } else {
        index as i64
    };
    let number: V = numbers.from_int(bar);
    let time: V = numbers.from_int(clock.time as i64);
    let hour: V = numbers.from_int(clock.hour as i64);
    let minute: V = numbers.from_int(clock.minute as i64);
    let day: V = numbers.from_int(clock.day_of_week as i64);
    let month: V = numbers.from_int(clock.month as i64);
    proof {
        assert(ints(numbers, bar, number));
        assert(ints(numbers, clock.time as i64, time));
        assert(ints(numbers, clock.hour as i64, hour));
        assert(ints(numbers, clock.minute as i64, minute));
        assert(ints(numbers, clock.day_of_week as i64, day));
        assert(ints(numbers, clock.month as i64, month));
    }
    (number, time, hour, minute, day, month, Ghost(clock))
}

/// Computes the time-derived values of every bar, as values: the number of
/// the bar, the minute of the day, hour, minute, weekday and month.
pub fn compute_time_cache<V: Copy, N: Numbers<V>>(numbers: &N, candles: &Vec<Candle<V>>) -> (cache: TimeCache<V>)
    ensures
        time_cached(numbers, candles@, &cache),
        cache.current_bar@.len() == candles@.len(),
        cache.bar_time@.len() == candles@.len(),
        cache.bar_hour@.len() == candles@.len(),
        cache.bar_minute@.len() == candles@.len(),
        cache.bar_day_of_week@.len() == candles@.len(),
        cache.bar_month@.len() == candles@.len(),
{
    let mut cache = TimeCache { current_bar: Vec::new(), bar_time: Vec::new(), bar_hour: Vec::new(), bar_minute: Vec::new(), bar_day_of_week: Vec::new(), bar_month: Vec::new() };
    let mut i: usize = 0;
    while i < candles.len()
        invariant
            i <= candles@.len(),
            cache.current_bar@.len() == i,
            cache.bar_time@.len() == i,
            cache.bar_hour@.len() == i,
            cache.bar_minute@.len() == i,
            cache.bar_day_of_week@.len() == i,
            cache.bar_month@.len() == i,
            forall|k: int| 0 <= k < i ==> #[trigger] clocked_at(numbers, candles@, &cache, k),
        decreases candles@.len() - i,
    {
        let ghost before = cache;
        let v = clock_values(numbers, candles[i].timestamp, i);
        cache.current_bar.push(v.0);
        cache.bar_time.push(v.1);
        cache.bar_hour.push(v.2);
        cache.bar_minute.push(v.3);
        cache.bar_day_of_week.push(v.4);
        cache.bar_month.push(v.5);
        proof {
            assert(clock_of(candles@[i as int].timestamp as int, v.6@));
            assert((i as int) as usize == i);
            assert(clocked_at(numbers, candles@, &cache, i as int));
            assert forall|k: int| 0 <= k < i + 1 implies #[trigger] clocked_at(numbers, candles@, &cache, k) by {
                if k < i {
                    assert(clocked_at(numbers, candles@, &before, k));
                    assert(cache.current_bar@[k] == before.current_bar@[k] && cache.bar_time@[k] == before.bar_time@[k] && cache.bar_hour@[k] == before.bar_hour@[k]);
                    assert(cache.bar_minute@[k] == before.bar_minute@[k] && cache.bar_day_of_week@[k] == before.bar_day_of_week@[k] && cache.bar_month@[k] == before.bar_month@[k]);
                    let clock = choose|clock: BarClock| #[trigger]
                        clock_of(candles@[k].timestamp as int, clock) && ints(numbers, whole(k as usize), before.current_bar@[k]) && ints(numbers, clock.time as i64, before.bar_time@[k]) && ints(numbers, clock.hour as i64, before.bar_hour@[k]) && ints(
                            numbers,
                            clock.minute as i64,
                            before.bar_minute@[k],
                        ) && ints(numbers, clock.day_of_week as i64, before.bar_day_of_week@[k]) && ints(numbers, clock.month as i64, before.bar_month@[k]);
                    assert(clock_of(candles@[k].timestamp as int, clock));
                }
            }
        }
        i += 1;
    }
    cache
}

/// The month offsets of the weekday formula.
pub open spec fn month_offset(m: int) -> int {
    if m == 1 {
        0
    } else if m == 2 {
        3
    } else if m == 3 {
        2
    } else if m == 4 {
        5
    } else if m == 5 {
        0
    } else if m == 6 {
        3
    } else if m == 7 {
        5
    } else if m == 8 {
        1
    } else if m == 9 {
        4
    } else if m == 10 {
        6
    } else if m == 11 {
        2
    } else {
        4
    }
}

/// The days before each month of a year.
proof fn lemma_month_starts(y: int, m: int)
    requires
        1 <= m <= 12,
    ensures
        days_before_month(y, m) == month_base(m) + (if m >= 3 && is_leap(y) { 1int } else { 0int }),
{
    reveal_with_fuel(days_before_month, 13);
}

/// The days before each month of a common year.
pub open spec fn month_base(m: int) -> int {
    if m == 1 {
        0
    } else if m == 2 {
        31
    } else if m == 3 {
        59
    } else if m == 4 {
        90
    } else if m == 5 {
        120
    } else if m == 6 {
        151
    } else if m == 7 {
        181
    } else if m == 8 {
        212
    } else if m == 9 {
        243
    } else if m == 10 {
        273
    } else if m == 11 {
        304
    } else {
        334
    }
}

/// The multiple of seven by which the day count and the formula differ,
/// for month `m`, apart from 52 per year.
pub open spec fn month_weeks(m: int) -> int {
    (month_base(m) - month_offset(m) - 719524 + (if m < 3 { 1int } else { 0int })) / 7
}

/// The weekday formula agrees with counting days from the epoch.
pub proof fn lemma_weekday_formula(y: int, m: int, d: int)
    requires
        valid_date(y, m, d),
    ensures
        ({
            let year = if m < 3 {
                y - 1
            } else {
                y
            };
            (year + year / 4 - year / 100 + year / 400 + month_offset(m) + d) % 7 == weekday_of(days_from_civil(y, m, d))
        }),
{
    lemma_month_starts(y, m);
    lemma_leap_step(y);
    assert(y / 4 - y / 100 + y / 400 == (y - 1) / 4 - (y - 1) / 100 + (y - 1) / 400 + (if is_leap(y) { 1int } else { 0int }));
    let year = if m < 3 {
        y - 1
    } else {
        y
    };
    let formula = year + year / 4 - year / 100 + year / 400 + month_offset(m) + d;
    let counted = days_from_civil(y, m, d) + 4;
    let weeks = 52 * y + month_weeks(m);
    assert(7 * month_weeks(m) == month_base(m) - month_offset(m) - 719524 + (if m < 3 { 1int } else { 0int }));
    assert(counted == 7 * weeks + formula);
    vstd::arithmetic::div_mod::lemma_mod_multiples_vanish(weeks, formula, 7);
}

/// `a` over `b`, rounded toward zero.
pub open spec fn toward_zero(a: int, b: int) -> int {
    if a >= 0 {
        a / b
    } else {
        -((-a) / b)
    }
}

/// Divides by a positive number, rounding toward zero.
fn divide_toward_zero(a: i64, b: i64) -> (r: i64)
    requires
        b > 0,
        a > i64::MIN,
    ensures
        r == toward_zero(a as int, b as int),
{
    if a >= 0 {
        a / b
    } else {
        -((-a) / b)
    }
}

/// The formula for the day of the week: the year, counted from March, plus
/// its leap days, an offset for the month and the day, and of that the
/// remainder after division by seven, toward zero.
pub open spec fn weekday_formula(y: int, m: int, d: int) -> int {
    let year = if m < 3 {
        y - 1
    } else {
        y
    };
    let sum = year + toward_zero(year, 4) - toward_zero(year, 100) + toward_zero(year, 400) + month_offset(m) + d;
    sum - 7 * toward_zero(sum, 7)
}

/// The day of the week of a date, Sunday being zero, by the formula that
/// adds the year, its leap days, an offset for the month and the day. For a
/// date of the years 1970 to 9999 the result is the weekday of the date.
pub fn day_of_week(y: i32, m: i32, d: i32) -> (weekday: i32)
    requires
        1 <= m <= 12,
    ensures
        weekday == weekday_formula(y as int, m as int, d as int),
        1970 <= y <= 9999 && valid_date(y as int, m as int, d as int) ==> weekday == weekday_of(days_from_civil(y as int, m as int, d as int)) && 0 <= weekday <= 6,
{
    proof {
        if 1970 <= y <= 9999 && valid_date(y as int, m as int, d as int) {
            lemma_weekday_formula(y as int, m as int, d as int);
        }
    }
    let year: i64 = if m < 3 {
        y as i64 - 1
    } else {
        y as i64
    };
    let offset: i64 = if m == 1 {
        0
    } else if m == 2 {
        3
    } else if m == 3 {
        2
    } else if m == 4 {
        5
    } else if m == 5 {
        0
    } else if m == 6 {
        3
    } else if m == 7 {
        5
    } else if m == 8 {
        1
    } else if m == 9 {
        4
    } else if m == 10 {
        6
    } else if m == 11 {
        2
    } else {
        4
    };
    let fours: i64 = divide_toward_zero(year, 4);
    let hundreds: i64 = divide_toward_zero(year, 100);
    let four_hundreds: i64 = divide_toward_zero(year, 400);
    let sum: i64 = year + fours - hundreds + four_hundreds + offset + d as i64;
    let weeks: i64 = divide_toward_zero(sum, 7);
    let rest: i64 = sum - 7 * weeks;
    assert(-7 < rest < 7) by (nonlinear_arith)
        requires
            rest == sum - 7 * weeks,
            weeks == toward_zero(sum as int, 7),
    ;
    rest as i32
}

/// The operand that a use names.
fn operand_of<'a, V>(strategy: &'a Strategy<V>, group: RuleGroup, rule: usize, side: Side) -> (operand: &'a Operand<V>)
    requires
        rule < group_rules(strategy, group).len(),
    ensures
        *operand == side_of(group_rules(strategy, group)[rule as int], side),
{
    let rules = rules_of(strategy, group);
    match side {
        Side::Left => &rules[rule].left_operand,
        Side::Right => &rules[rule].right_operand,
    }
}

/// The keys of a cache are pairwise different.
pub open spec fn distinct_keys<V>(cache: &IndicatorCache<V>) -> bool {
    forall|a: int, b: int| 0 <= a < b < cache.entries@.len() ==> (#[trigger] cache.entries@[a]).key@ != (#[trigger] cache.entries@[b]).key@
}

/// The configuration of the indicator that is read at a place.
pub open spec fn config_at<V>(strategy: &Strategy<V>, group: RuleGroup, rule: int, side: Side) -> IndicatorConfig<V> {
    side_of(group_rules(strategy, group)[rule], side).indicator->Some_0
}

/// `uses` lists the places of the strategy that read an indicator, all of
/// them and no others.
pub open spec fn lists_uses<V>(strategy: &Strategy<V>, uses: Seq<IndicatorUse>) -> bool {
    &&& all_uses(strategy, uses)
    &&& covers(strategy, uses, RuleGroup::LongEntry, strategy.long_entry_rules@.len() as int)
    &&& covers(strategy, uses, RuleGroup::ShortEntry, strategy.short_entry_rules@.len() as int)
    &&& covers(strategy, uses, RuleGroup::LongExit, strategy.long_exit_rules@.len() as int)
    &&& covers(strategy, uses, RuleGroup::ShortExit, strategy.short_exit_rules@.len() as int)
}

/// Entry `a` of the cache belongs to the use at `keep[a]`: it has the key of
/// the use, and its output is that of the indicator read there, computed
/// on the candles.
pub open spec fn entry_of_use<V, N: Numbers<V>>(numbers: &N, strategy: &Strategy<V>, candles: Seq<Candle<V>>, used: IndicatorUse, entry: CachedIndicator<V>) -> bool {
    &&& entry.key@ == used.key@
    &&& arrays_of(&config_at(strategy, used.group, used.rule as int, used.side), candles.len() as int, &entry.output)
    &&& lines_made(numbers, &config_at(strategy, used.group, used.rule as int, used.side), candles, &entry.output)
}

/// The cache holds one entry for each key among `uses`, in the order in
/// which the keys first occur, each the entry of the first use with its key.
pub open spec fn cache_of<V, N: Numbers<V>>(numbers: &N, strategy: &Strategy<V>, candles: Seq<Candle<V>>, uses: Seq<IndicatorUse>, keep: Seq<usize>, cache: &IndicatorCache<V>) -> bool {
    &&& lists_uses(strategy, uses)
    &&& first_occurrences(use_keys(uses), keep)
    &&& cache.entries@.len() == keep.len()
    &&& forall|a: int| 0 <= a < keep.len() ==> entry_of_use(numbers, strategy, candles, uses[keep[a] as int], #[trigger] cache.entries@[a])
}

/// Every indicator that the strategy reads passes its validation on `len`
/// candles.
pub open spec fn all_valid<V>(strategy: &Strategy<V>, len: usize) -> bool {
    forall|group: RuleGroup, rule: int, side: Side| #[trigger] is_use(strategy, group, rule, side) ==> validation_of(&config_at(strategy, group, rule, side), len, Ok::<(), AppError>(()))
}

/// `e` is the error with which an indicator that the strategy reads fails
/// its validation on `len` candles.
pub open spec fn fails_with<V>(strategy: &Strategy<V>, len: usize, e: AppError) -> bool {
    exists|group: RuleGroup, rule: int, side: Side| #[trigger] is_use(strategy, group, rule, side) && validation_of(&config_at(strategy, group, rule, side), len, Err::<(), AppError>(e))
}

/// Computes every indicator that the rules of a strategy read, each once:
/// two places that read the same indicator, or two outputs of it, share one
/// entry of the cache.
///
/// However keys are written: where every indicator read passes its
/// validation there is a cache, with one entry for each key among the
/// places that read an indicator, pairwise different; an error is that of
/// an indicator that fails its validation.
pub fn pre_compute_indicators<V: Copy, N: Numbers<V>>(numbers: &N, strategy: &Strategy<V>, candles: &Vec<Candle<V>>) -> (r: Result<IndicatorCache<V>, AppError>)
    ensures
        all_valid(strategy, candles@.len() as usize) <==> r is Ok,
        r is Ok ==> exists|uses: Seq<IndicatorUse>, keep: Seq<usize>| #[trigger] cache_of(numbers, strategy, candles@, uses, keep, &r->Ok_0),
        r is Err ==> fails_with(strategy, candles@.len() as usize, r->Err_0),
        r is Ok ==> distinct_keys(&r->Ok_0),
        !strategy_reads_indicators(strategy) ==> r is Ok && r->Ok_0.entries@.len() == 0,
{
    let uses = collect_indicator_uses(numbers, strategy);
    let ghost len: usize = candles.len();
    let mut j: usize = 0;
    while j < uses.len()
        invariant
            j <= uses@.len(),
            len == candles@.len(),
            lists_uses(strategy, uses@),
            forall|u: int| 0 <= u < j ==> validation_of(&config_at(strategy, (#[trigger] uses@[u]).group, uses@[u].rule as int, uses@[u].side), len, Ok::<(), AppError>(())),
        decreases uses@.len() - j,
    {
        let used = &uses[j];
        assert(is_use(strategy, used.group, used.rule as int, used.side));
        let operand = operand_of(strategy, used.group, used.rule, used.side);
        match &operand.indicator {
            Some(config) => {
                assert(*config == config_at(strategy, used.group, used.rule as int, used.side));
                match validate_indicator(config, candles.len()) {
                    Ok(()) => {},
                    Err(e) => {
                        assert(validation_of(config, len, Err::<(), AppError>(e)));
                        assert(!validation_of(config, len, Ok::<(), AppError>(())));
                        assert(fails_with(strategy, len, e));
                        assert(!all_valid(strategy, len));
                        return Err(e);
                    },
                }
            },
            None => {
                vstd::pervasive::unreached::<()>();
            },
        }
        j += 1;
    }
    proof {
        assert forall|group: RuleGroup, rule: int, side: Side| #[trigger] is_use(strategy, group, rule, side) implies validation_of(&config_at(strategy, group, rule, side), len, Ok::<(), AppError>(())) by {
            let n = group_rules(strategy, group).len() as int;
            assert(covers(strategy, uses@, group, n));
            let u = choose|u: int| 0 <= u < uses@.len() && (#[trigger] uses@[u]).group == group && uses@[u].rule == rule && uses@[u].side == side;
            assert(validation_of(&config_at(strategy, uses@[u].group, uses@[u].rule as int, uses@[u].side), len, Ok::<(), AppError>(())));
        }
        assert(all_valid(strategy, len));
    }
    let keep = distinct_uses(&uses);
    let ghost names = use_keys(uses@);
    let mut cache: IndicatorCache<V> = IndicatorCache::new();
    let mut k: usize = 0;
    proof {
        if !strategy_reads_indicators(strategy) {
            if uses@.len() > 0 {
                assert(is_use(strategy, uses@[0].group, uses@[0].rule as int, uses@[0].side));
                assert(false);
            }
        }
        if uses@.len() == 0 && keep@.len() > 0 {
            assert(is_first(names, keep@[0] as int));
        }
    }
    while k < keep.len()
        invariant
            k <= keep@.len(),
            names == use_keys(uses@),
            all_uses(strategy, uses@),
            all_valid(strategy, candles@.len() as usize),
            first_occurrences(names, keep@),
            cache.entries@.len() == k,
            forall|a: int| 0 <= a < k ==> (#[trigger] cache.entries@[a]).key@ == names[keep@[a] as int],
            forall|a: int| 0 <= a < k ==> entry_of_use(numbers, strategy, candles@, uses@[keep@[a] as int], #[trigger] cache.entries@[a]),
            uses@.len() == 0 ==> keep@.len() == 0,
        decreases keep@.len() - k,
    {
        let at: usize = keep[k];
        assert(is_first(names, keep@[k as int] as int));
        let used = &uses[at];
        assert(is_use(strategy, used.group, used.rule as int, used.side));
        let operand = operand_of(strategy, used.group, used.rule, used.side);
        match &operand.indicator {
            Some(config) => {
                assert(*config == config_at(strategy, used.group, used.rule as int, used.side));
                let ghost len: usize = candles.len();
                let output = match compute_indicator(numbers, config, candles) {
                    Ok(o) => o,
                    Err(e) => {
                        assert(validation_of(config, len, Err::<(), AppError>(e)));
                        assert(!validation_of(config, len, Ok::<(), AppError>(())));
                        assert(fails_with(strategy, len, e));
                        return Err(e);
                    },
                };
                let ghost earlier = cache.entries@;
                let entry = CachedIndicator { key: used.key.clone(), output };
                assert(entry_of_use(numbers, strategy, candles@, uses@[keep@[k as int] as int], entry));
                cache.entries.push(entry);
                assert forall|a: int| 0 <= a < k + 1 implies entry_of_use(numbers, strategy, candles@, uses@[keep@[a] as int], #[trigger] cache.entries@[a]) by {
                    if a < k {
                        assert(cache.entries@[a] == earlier[a]);
                    }
                }
            },
            None => {
                vstd::pervasive::unreached::<()>();
            },
        }
        k += 1;
    }
    proof {
        assert forall|a: int, b: int| 0 <= a < b < cache.entries@.len() implies (#[trigger] cache.entries@[a]).key@ != (#[trigger] cache.entries@[b]).key@ by {
            assert(keep@[a] < keep@[b]);
            assert(is_first(names, keep@[b] as int));
        }
        assert(cache_of(numbers, strategy, candles@, uses@, keep@, &cache));
    }
    let r = Ok(cache);
    assert(cache_of(numbers, strategy, candles@, uses@, keep@, &r->Ok_0));
    r
}

/// Some rule of the strategy reads an indicator.
pub open spec fn strategy_reads_indicators<V>(strategy: &Strategy<V>) -> bool {
    exists|group: RuleGroup, rule: int, side: Side| is_use(strategy, group, rule, side)
}

/// Two bars open on the same calendar day.
pub open spec fn same_day<V>(candles: Seq<Candle<V>>, a: int, b: int) -> bool {
    day_number_of(candles[a].timestamp as int) == day_number_of(candles[b].timestamp as int)
}

/// The first bar of the run of bars that ends at `i` and lies on one day.
pub open spec fn day_start<V>(candles: Seq<Candle<V>>, i: int) -> int
    decreases i,
{
    if i <= 0 {
        0
    } else if !same_day(candles, i - 1, i) {
        i
    } else {
        day_start(candles, i - 1)
    }
}

/// The run of a bar starts at or before the bar.
pub proof fn lemma_day_start_bounds<V>(candles: Seq<Candle<V>>, i: int)
    requires
        0 <= i,
    ensures
        0 <= day_start(candles, i) <= i,
    decreases i,
{
    if i > 0 && same_day(candles, i - 1, i) {
        lemma_day_start_bounds(candles, i - 1);
    }
}

/// The daily levels of every bar: the open of the first bar of its day, the
/// close of the bar before that one, where there is one, and a high and a
/// low taken from the bars of its day up to it.
pub open spec fn daily_levels_of<V>(candles: Seq<Candle<V>>, cache: DailyOhlcCache<V>) -> bool {
    &&& cache.daily_open@.len() == candles.len()
    &&& cache.daily_high@.len() == candles.len()
    &&& cache.daily_low@.len() == candles.len()
    &&& cache.daily_close@.len() == candles.len()
    &&& forall|i: int| 0 <= i < candles.len() ==> #[trigger] cache.daily_open@[i] == candles[day_start(candles, i)].open
    &&& forall|i: int| 0 <= i < candles.len() ==> #[trigger] cache.daily_close@[i] == (if day_start(candles, i) == 0 {
        None
    } else {
        Some(candles[day_start(candles, i) - 1].close)
    })
    &&& forall|i: int| 0 <= i < candles.len() ==> is_day_high(candles, i, #[trigger] cache.daily_high@[i])
    &&& forall|i: int| 0 <= i < candles.len() ==> is_day_low(candles, i, #[trigger] cache.daily_low@[i])
}

/// `v` is the high of one of the bars of bar `i`'s day up to bar `i`.
pub open spec fn is_day_high<V>(candles: Seq<Candle<V>>, i: int, v: V) -> bool {
    exists|j: int| day_start(candles, i) <= j <= i && v == (#[trigger] candles[j]).high
}

/// `v` is the low of one of the bars of bar `i`'s day up to bar `i`.
pub open spec fn is_day_low<V>(candles: Seq<Candle<V>>, i: int, v: V) -> bool {
    exists|j: int| day_start(candles, i) <= j <= i && v == (#[trigger] candles[j]).low
}

/// Entry `i` of the running high and low of the days: those of the bar
/// where it begins a day; else the high of the bar where `numbers` finds
/// it greater than the high so far, and the low of the bar where it finds
/// it less than the low so far.
pub open spec fn day_level_at<V, N: Numbers<V>>(numbers: &N, candles: Seq<Candle<V>>, highs: Seq<V>, lows: Seq<V>, i: int) -> bool {
    if i == 0 || !same_day(candles, i - 1, i) {
        highs[i] == candles[i].high && lows[i] == candles[i].low
    } else {
        (exists|up: Relation| #[trigger] relates(numbers, candles[i].high, highs[i - 1], up) && highs[i] == pick(up.gt(), candles[i].high, highs[i - 1])) && (exists|down: Relation| #[trigger]
            relates(numbers, candles[i].low, lows[i - 1], down) && lows[i] == pick(down.lt(), candles[i].low, lows[i - 1]))
    }
}

/// `highs` and `lows` run along the days of the bars.
pub open spec fn day_levels_run<V, N: Numbers<V>>(numbers: &N, candles: Seq<Candle<V>>, highs: Seq<V>, lows: Seq<V>) -> bool {
    highs.len() == candles.len() && lows.len() == candles.len() && forall|i: int| 0 <= i < candles.len() ==> #[trigger] day_level_at(numbers, candles, highs, lows, i)
}

/// Computes the daily levels of every bar. The high and the low of a day
/// run along: a bar's level is the greatest high, or the least low, of its
/// day so far, as the comparisons have it.
pub fn compute_daily_ohlc<V: Copy, N: Numbers<V>>(numbers: &N, candles: &Vec<Candle<V>>) -> (cache: DailyOhlcCache<V>)
    ensures
        daily_levels_of(candles@, cache),
        day_levels_run(numbers, candles@, cache.daily_high@, cache.daily_low@),
{
    if candles.len() == 0 {
        let cache = DailyOhlcCache { daily_open: Vec::new(), daily_high: Vec::new(), daily_low: Vec::new(), daily_close: Vec::new() };
        assert(day_levels_run(numbers, candles@, cache.daily_high@, cache.daily_low@));
        return cache;
    }
    let mut daily_open: Vec<V> = Vec::new();
    let mut daily_high: Vec<V> = Vec::new();
    let mut daily_low: Vec<V> = Vec::new();
    let mut daily_close: Vec<Option<V>> = Vec::new();
    let mut day_open: V = candles[0].open;
    let mut day_high: V = candles[0].high;
    let mut day_low: V = candles[0].low;
    let mut prev_day_close: Option<V> = None;
    let mut prev_day: i64 = 0;
    let ghost mut high_at: int = 0;
    let ghost mut low_at: int = 0;
    let mut i: usize = 0;
    while i < candles.len()
        invariant
            i <= candles@.len(),
            daily_open@.len() == i,
            daily_high@.len() == i,
            daily_low@.len() == i,
            daily_close@.len() == i,
            i > 0 ==> prev_day == day_number_of(candles@[i - 1].timestamp as int),
            i == 0 ==> prev_day_close is None,
            i > 0 ==> 0 <= day_start(candles@, i - 1) <= i - 1,
            i > 0 ==> day_open == candles@[day_start(candles@, i - 1)].open,
            i > 0 ==> prev_day_close == (if day_start(candles@, i - 1) == 0 {
                None
            } else {
                Some(candles@[day_start(candles@, i - 1) - 1].close)
            }),
            i > 0 ==> day_start(candles@, i - 1) <= high_at <= i - 1 && day_high == candles@[high_at].high,
            i > 0 ==> day_start(candles@, i - 1) <= low_at <= i - 1 && day_low == candles@[low_at].low,
            forall|k: int| 0 <= k < i ==> #[trigger] daily_open@[k] == candles@[day_start(candles@, k)].open,
            forall|k: int| 0 <= k < i ==> #[trigger] daily_close@[k] == (if day_start(candles@, k) == 0 {
                None
            } else {
                Some(candles@[day_start(candles@, k) - 1].close)
            }),
            forall|k: int| 0 <= k < i ==> is_day_high(candles@, k, #[trigger] daily_high@[k]),
            forall|k: int| 0 <= k < i ==> is_day_low(candles@, k, #[trigger] daily_low@[k]),
            i > 0 ==> daily_high@[i - 1] == day_high && daily_low@[i - 1] == day_low,
            forall|k: int| 0 <= k < i ==> #[trigger] day_level_at(numbers, candles@, daily_high@, daily_low@, k),
        decreases candles@.len() - i,
    {
        let candle = &candles[i];
        let day: i64 = day_number(candle.timestamp);
        let new_day: bool = i == 0 || day != prev_day;
        let ghost high_so_far = day_high;
        let ghost low_so_far = day_low;
        let ghost mut up = Relation::Equal;
        let ghost mut down = Relation::Equal;
        proof {
            lemma_day_start_bounds(candles@, i as int);
        }
        if new_day {
            if i > 0 {
                prev_day_close = Some(candles[i - 1].close);
            }
            day_open = candle.open;
            day_high = candle.high;
            day_low = candle.low;
            prev_day = day;
            proof {
                high_at = i as int;
                low_at = i as int;
            }
        } else {
            let above = relation(numbers, candle.high, day_high);
            let below = relation(numbers, candle.low, day_low);
            proof {
                up = above;
                down = below;
            }
            if above.is_gt() {
                day_high = candle.high;
                proof {
                    high_at = i as int;
                }
            }
            if below.is_lt() {
                day_low = candle.low;
                proof {
                    low_at = i as int;
                }
            }
        }
        let ghost open_before = daily_open@;
        let ghost close_before = daily_close@;
        let ghost high_before = daily_high@;
        let ghost low_before = daily_low@;
        daily_open.push(day_open);
        daily_high.push(day_high);
        daily_low.push(day_low);
        daily_close.push(prev_day_close);
        proof {
            assert(day_start(candles@, i as int) <= high_at <= i && day_high == candles@[high_at].high);
            assert(day_start(candles@, i as int) <= low_at <= i && day_low == candles@[low_at].low);
            assert(is_day_high(candles@, i as int, day_high));
            assert(is_day_low(candles@, i as int, day_low));
            if !new_day {
                assert(same_day(candles@, i - 1, i as int));
                assert(daily_high@[i - 1] == high_so_far && daily_low@[i - 1] == low_so_far);
                assert(relates(numbers, candles@[i as int].high, daily_high@[i - 1], up));
                assert(relates(numbers, candles@[i as int].low, daily_low@[i - 1], down));
                assert(daily_high@[i as int] == pick(up.gt(), candles@[i as int].high, daily_high@[i - 1]));
                assert(daily_low@[i as int] == pick(down.lt(), candles@[i as int].low, daily_low@[i - 1]));
            }
            assert(day_level_at(numbers, candles@, daily_high@, daily_low@, i as int));
            assert forall|k: int| 0 <= k < i + 1 implies #[trigger] day_level_at(numbers, candles@, daily_high@, daily_low@, k) by {
                if k < i {
                    assert(day_level_at(numbers, candles@, high_before, low_before, k));
                    assert(daily_high@[k] == high_before[k] && daily_low@[k] == low_before[k]);
                    if k > 0 {
                        assert(daily_high@[k - 1] == high_before[k - 1] && daily_low@[k - 1] == low_before[k - 1]);
                    }
                }
            }
            assert forall|k: int| 0 <= k < i + 1 implies is_day_high(candles@, k, #[trigger] daily_high@[k]) by {
                if k < i {
                    assert(daily_high@[k] == high_before[k]);
                }
            }
            assert forall|k: int| 0 <= k < i + 1 implies is_day_low(candles@, k, #[trigger] daily_low@[k]) by {
                if k < i {
                    assert(daily_low@[k] == low_before[k]);
                }
            }
            assert forall|k: int| 0 <= k < i + 1 implies #[trigger] daily_open@[k] == candles@[day_start(candles@, k)].open by {
                if k < i {
                    assert(daily_open@[k] == open_before[k]);
                }
            }
            assert forall|k: int| 0 <= k < i + 1 implies #[trigger] daily_close@[k] == (if day_start(candles@, k) == 0 {
                None
            } else {
                Some(candles@[day_start(candles@, k) - 1].close)
            }) by {
                if k < i {
                    assert(daily_close@[k] == close_before[k]);
                }
            }
        }
        i += 1;
    }
    DailyOhlcCache { daily_open, daily_high, daily_low, daily_close }
}

/// A price operand that reads a daily level.
pub open spec fn reads_daily<V>(operand: Operand<V>) -> bool {
    operand.operand_type == OperandType::Price && (operand.price_field == Some(PriceField::DailyOpen) || operand.price_field == Some(PriceField::DailyHigh) || operand.price_field == Some(
        PriceField::DailyLow,
    ) || operand.price_field == Some(PriceField::DailyClose))
}

/// Some rule of the list reads a daily level.
pub open spec fn rules_read_daily<V>(rules: Seq<Rule<V>>) -> bool {
    exists|i: int| 0 <= i < rules.len() && (reads_daily((#[trigger] rules[i]).left_operand) || reads_daily(rules[i].right_operand))
}

/// Whether an operand reads a daily price.
fn is_daily<V>(operand: &Operand<V>) -> (b: bool)
    ensures
        b == reads_daily(*operand),
{
    match operand.operand_type {
        OperandType::Price => match operand.price_field {
            Some(PriceField::DailyOpen) => true,
            Some(PriceField::DailyHigh) => true,
            Some(PriceField::DailyLow) => true,
            Some(PriceField::DailyClose) => true,
            _ => false,
        },
        _ => false,
    }
}

/// Whether a rule of the list reads a daily price.
fn group_reads_daily<V>(rules: &Vec<Rule<V>>) -> (b: bool)
    ensures
        b == rules_read_daily(rules@),
{
    let mut i: usize = 0;
    while i < rules.len()
        invariant
            i <= rules@.len(),
            forall|j: int| 0 <= j < i ==> !(reads_daily((#[trigger] rules@[j]).left_operand) || reads_daily(rules@[j].right_operand)),
        decreases rules@.len() - i,
    {
        if is_daily(&rules[i].left_operand) || is_daily(&rules[i].right_operand) {
            return true;
        }
        i += 1;
    }
    false
}

/// Whether any rule of the strategy reads a daily price level.
pub fn strategy_uses_daily_prices<V>(strategy: &Strategy<V>) -> (b: bool)
    ensures
        b == (rules_read_daily(strategy.long_entry_rules@) || rules_read_daily(strategy.short_entry_rules@) || rules_read_daily(
            strategy.long_exit_rules@,
        ) || rules_read_daily(strategy.short_exit_rules@)),
{
    group_reads_daily(&strategy.long_entry_rules) || group_reads_daily(&strategy.short_entry_rules) || group_reads_daily(
        &strategy.long_exit_rules,
    ) || group_reads_daily(&strategy.short_exit_rules)
}

/// Every flag of a pattern array is `unset` or `set`.
pub open spec fn flags<V>(values: Seq<V>, len: int, unset: V, set: V) -> bool {
    values.len() == len && forall|i: int| 0 <= i < len ==> (#[trigger] values[i] == unset || values[i] == set)
}

/// Pattern flags of `candles`: seven arrays of one flag per bar, and no
/// two-bar pattern on the first bar.
pub open spec fn pattern_flags<V>(cache: &CandlePatternCache<V>, len: int, unset: V, set: V) -> bool {
    &&& flags(cache.doji@, len, unset, set)
    &&& flags(cache.hammer@, len, unset, set)
    &&& flags(cache.shooting_star@, len, unset, set)
    &&& flags(cache.bearish_engulfing@, len, unset, set)
    &&& flags(cache.bullish_engulfing@, len, unset, set)
    &&& flags(cache.dark_cloud@, len, unset, set)
    &&& flags(cache.piercing_line@, len, unset, set)
    &&& (len > 0 ==> cache.bearish_engulfing@[0] == unset && cache.bullish_engulfing@[0] == unset && cache.dark_cloud@[0] == unset && cache.piercing_line@[0] == unset)
}

/// The flag for a pattern that is present or not.
fn flag<V: Copy>(present: bool, unset: V, set: V) -> (v: V)
    ensures
        v == (if present { set } else { unset }),
{
    if present {
        set
    } else {
        unset
    }
}

/// A doji: a bar with a range whose body is at most a tenth of the range.
/// `range` relates the range to zero, `body` the body to a tenth of the
/// range.
pub open spec fn doji_of(range: Relation, body: Relation) -> bool {
    range.gt() && body.le()
}

/// Decides whether a bar is a doji.
pub fn is_doji(range: Relation, body: Relation) -> (b: bool)
    ensures
        b == doji_of(range, body),
{
    range.is_gt() && body.is_le()
}

/// A hammer: a bar with a body, a lower shadow of at least twice the body
/// and an upper shadow of at most the body. A shooting star is its mirror
/// image, with the shadows exchanged. `body` relates the body to zero,
/// `long_shadow` the long shadow to twice the body, `short_shadow` the
/// short shadow to the body.
pub open spec fn hammer_of(body: Relation, long_shadow: Relation, short_shadow: Relation) -> bool {
    body.gt() && long_shadow.ge() && short_shadow.le()
}

/// Decides whether a bar is a hammer or, with the shadows exchanged, a
/// shooting star.
pub fn is_hammer(body: Relation, long_shadow: Relation, short_shadow: Relation) -> (b: bool)
    ensures
        b == hammer_of(body, long_shadow, short_shadow),
{
    body.is_gt() && long_shadow.is_ge() && short_shadow.is_le()
}

/// An engulfing bar turns against the bar before, which has a body, and
/// covers that body. The bearish one falls after a rising bar, opens at or
/// above its close and closes at or below its open; the bullish one is its
/// mirror image. `previous` and `current` relate the close of a bar to its
/// open, `prev_body` the body of the bar before to zero, `open` the open to
/// the close before, `close` the close to the open before.
pub open spec fn engulfing_of(bearish: bool, previous: Relation, current: Relation, prev_body: Relation, open: Relation, close: Relation) -> bool {
    if bearish {
        previous.gt() && current.lt() && prev_body.gt() && open.ge() && close.le()
    } else {
        previous.lt() && current.gt() && prev_body.gt() && open.le() && close.ge()
    }
}

/// Decides whether a bar engulfs the bar before it.
pub fn is_engulfing(bearish: bool, previous: Relation, current: Relation, prev_body: Relation, open: Relation, close: Relation) -> (b: bool)
    ensures
        b == engulfing_of(bearish, previous, current, prev_body, open, close),
{
    if bearish {
        previous.is_gt() && current.is_lt() && prev_body.is_gt() && open.is_ge() && close.is_le()
    } else {
        previous.is_lt() && current.is_gt() && prev_body.is_gt() && open.is_le() && close.is_ge()
    }
}

/// A dark cloud falls after a rising bar with a body: it opens above the
/// high of that bar and closes below the middle of its body but above its
/// open. A piercing line is its mirror image: it rises after a falling bar,
/// opens below its low and closes above the middle of its body but below
/// its open. `previous` and `current` relate the close of a bar to its
/// open, `prev_body` the body of the bar before to zero, `open` the open to
/// the high (the low) before, `middle` the close to the middle of the body
/// before, `close` the close to the open before.
pub open spec fn reversal_of(bearish: bool, previous: Relation, current: Relation, prev_body: Relation, open: Relation, middle: Relation, close: Relation) -> bool {
    if bearish {
        previous.gt() && current.lt() && prev_body.gt() && open.gt() && middle.lt() && close.gt()
    } else {
        previous.lt() && current.gt() && prev_body.gt() && open.lt() && middle.gt() && close.lt()
    }
}

/// Decides whether a bar is a dark cloud or a piercing line.
pub fn is_reversal(bearish: bool, previous: Relation, current: Relation, prev_body: Relation, open: Relation, middle: Relation, close: Relation) -> (b: bool)
    ensures
        b == reversal_of(bearish, previous, current, prev_body, open, middle, close),
{
    if bearish {
        previous.is_gt() && current.is_lt() && prev_body.is_gt() && open.is_gt() && middle.is_lt() && close.is_gt()
    } else {
        previous.is_lt() && current.is_gt() && prev_body.is_gt() && open.is_lt() && middle.is_gt() && close.is_lt()
    }
}

/// The measures of a bar: its body, its range and its two shadows.
pub struct Measures<V> {
    pub body: V,
    pub range: V,
    pub upper: V,
    pub lower: V,
}

/// `m` holds the measures of a bar: the body is the distance of close and
/// open, the range the high less the low, the upper shadow the high less
/// the larger of open and close, the lower shadow the smaller of open and
/// close less the low.
pub open spec fn bar_measured<V, N: Numbers<V>>(numbers: &N, c: Candle<V>, m: Measures<V>) -> bool {
    &&& distances(numbers, c.close, c.open, m.body)
    &&& subs(numbers, c.high, c.low, m.range)
    &&& exists|top: V| #[trigger] maxes(numbers, c.open, c.close, top) && subs(numbers, c.high, top, m.upper)
    &&& exists|bottom: V| #[trigger] mins(numbers, c.open, c.close, bottom) && subs(numbers, bottom, c.low, m.lower)
}

/// How the measures of a bar stand to each other: body and range to zero,
/// the body to a tenth of the range, and each shadow to twice the body and
/// to the body.
pub struct Shape {
    pub has_body: Relation,
    pub has_range: Relation,
    pub small_body: Relation,
    pub lower_to_twice: Relation,
    pub upper_to_twice: Relation,
    pub lower_to_body: Relation,
    pub upper_to_body: Relation,
}

/// `shape` is how `numbers` finds the measures of a bar to stand to each
/// other.
pub open spec fn shaped<V, N: Numbers<V>>(numbers: &N, m: Measures<V>, zero: V, two: V, tenth: V, shape: Shape) -> bool {
    &&& relates(numbers, m.body, zero, shape.has_body)
    &&& relates(numbers, m.range, zero, shape.has_range)
    &&& exists|part: V| #[trigger] muls(numbers, tenth, m.range, part) && relates(numbers, m.body, part, shape.small_body)
    &&& exists|twice: V| #[trigger] muls(numbers, two, m.body, twice) && relates(numbers, m.lower, twice, shape.lower_to_twice) && relates(numbers, m.upper, twice, shape.upper_to_twice)
    &&& relates(numbers, m.lower, m.body, shape.lower_to_body)
    &&& relates(numbers, m.upper, m.body, shape.upper_to_body)
}

/// How a bar stands to the bar before it.
pub struct Turn {
    pub prev_body: Relation,
    pub previous: Relation,
    pub current: Relation,
    pub open_to_close: Relation,
    pub close_to_open: Relation,
    pub close_to_middle: Relation,
    pub open_to_high: Relation,
    pub open_to_low: Relation,
}

/// `turn` is how `numbers` finds the bar `c` to stand to the bar `p` before
/// it: the body of `p` to zero, the close of each bar to its open, and the
/// open and close of `c` to the close, the open, the high, the low and the
/// middle of the body of `p`.
pub open spec fn turned<V, N: Numbers<V>>(numbers: &N, p: Candle<V>, c: Candle<V>, zero: V, two: V, turn: Turn) -> bool {
    &&& exists|body: V| #[trigger] distances(numbers, p.close, p.open, body) && relates(numbers, body, zero, turn.prev_body)
    &&& relates(numbers, p.close, p.open, turn.previous)
    &&& relates(numbers, c.close, c.open, turn.current)
    &&& exists|sum: V| #[trigger] adds(numbers, p.open, p.close, sum) && exists|middle: V| #[trigger] divs(numbers, sum, two, middle) && relates(numbers, c.close, middle, turn.close_to_middle)
    &&& relates(numbers, c.open, p.close, turn.open_to_close)
    &&& relates(numbers, c.close, p.open, turn.close_to_open)
    &&& relates(numbers, c.open, p.high, turn.open_to_high)
    &&& relates(numbers, c.open, p.low, turn.open_to_low)
}

/// The flags of the seven patterns, bar by bar.
pub struct Flags<V> {
    pub doji: Seq<V>,
    pub hammer: Seq<V>,
    pub shooting_star: Seq<V>,
    pub bearish_engulfing: Seq<V>,
    pub bullish_engulfing: Seq<V>,
    pub dark_cloud: Seq<V>,
    pub piercing_line: Seq<V>,
}

/// The flags that a cache holds.
pub open spec fn flags_of<V>(cache: &CandlePatternCache<V>) -> Flags<V> {
    Flags {
        doji: cache.doji@,
        hammer: cache.hammer@,
        shooting_star: cache.shooting_star@,
        bearish_engulfing: cache.bearish_engulfing@,
        bullish_engulfing: cache.bullish_engulfing@,
        dark_cloud: cache.dark_cloud@,
        piercing_line: cache.piercing_line@,
    }
}

/// The flags of the one-bar patterns at bar `i` follow the shape of the
/// bar.
pub open spec fn shape_flagged<V>(flags: Flags<V>, i: int, shape: Shape, unset: V, set: V) -> bool {
    &&& flags.doji[i] == pick(doji_of(shape.has_range, shape.small_body), set, unset)
    &&& flags.hammer[i] == pick(hammer_of(shape.has_body, shape.lower_to_twice, shape.upper_to_body), set, unset)
    &&& flags.shooting_star[i] == pick(hammer_of(shape.has_body, shape.upper_to_twice, shape.lower_to_body), set, unset)
}

/// The flags of the two-bar patterns at bar `i` follow how the bar stands
/// to the bar before it.
pub open spec fn turn_flagged<V>(flags: Flags<V>, i: int, turn: Turn, unset: V, set: V) -> bool {
    &&& flags.bearish_engulfing[i] == pick(engulfing_of(true, turn.previous, turn.current, turn.prev_body, turn.open_to_close, turn.close_to_open), set, unset)
    &&& flags.bullish_engulfing[i] == pick(engulfing_of(false, turn.previous, turn.current, turn.prev_body, turn.open_to_close, turn.close_to_open), set, unset)
    &&& flags.dark_cloud[i] == pick(reversal_of(true, turn.previous, turn.current, turn.prev_body, turn.open_to_high, turn.close_to_middle, turn.close_to_open), set, unset)
    &&& flags.piercing_line[i] == pick(reversal_of(false, turn.previous, turn.current, turn.prev_body, turn.open_to_low, turn.close_to_middle, turn.close_to_open), set, unset)
}

/// The flags of bar `i` are those of its patterns: the one-bar patterns by
/// the shape of the bar, the two-bar patterns by how it stands to the bar
/// before, and none of the latter on the first bar.
pub open spec fn flagged_at<V, N: Numbers<V>>(numbers: &N, candles: Seq<Candle<V>>, zero: V, two: V, tenth: V, unset: V, set: V, flags: Flags<V>, i: int) -> bool {
    &&& exists|m: Measures<V>| #[trigger] bar_measured(numbers, candles[i], m) && exists|shape: Shape| #[trigger] shaped(numbers, m, zero, two, tenth, shape) && shape_flagged(flags, i, shape, unset, set)
    &&& (if i == 0 {
        flags.bearish_engulfing[i] == unset && flags.bullish_engulfing[i] == unset && flags.dark_cloud[i] == unset && flags.piercing_line[i] == unset
    } else {
        exists|turn: Turn| #[trigger] turned(numbers, candles[i - 1], candles[i], zero, two, turn) && turn_flagged(flags, i, turn, unset, set)
    })
}

/// The flags of every bar are those of its patterns, with zero, two and a
/// tenth as `numbers` gives them.
pub open spec fn detected<V, N: Numbers<V>>(numbers: &N, candles: Seq<Candle<V>>, unset: V, set: V, flags: Flags<V>) -> bool {
    exists|zero: V, two: V, tenth: V| #[trigger] all_flagged(numbers, candles, zero, two, tenth, unset, set, flags, candles.len() as int) && ints(numbers, 0, zero) && ints(numbers, 2, two) && ratios(numbers, 1, 10, tenth)
}

/// The flags of the first `n` bars are those of their patterns.
pub open spec fn all_flagged<V, N: Numbers<V>>(numbers: &N, candles: Seq<Candle<V>>, zero: V, two: V, tenth: V, unset: V, set: V, flags: Flags<V>, n: int) -> bool {
    forall|i: int| 0 <= i < n ==> #[trigger] flagged_at(numbers, candles, zero, two, tenth, unset, set, flags, i)
}

/// Measures a bar.
fn measure<V: Copy, N: Numbers<V>>(numbers: &N, c: &Candle<V>) -> (m: (V, V, V, V))
    ensures
        bar_measured(numbers, *c, (Measures { body: m.0, range: m.1, upper: m.2, lower: m.3 })),
{
    let body: V = numbers.distance(c.close, c.open);
    let range: V = numbers.sub(c.high, c.low);
    let top: V = numbers.max(c.open, c.close);
    let upper: V = numbers.sub(c.high, top);
    let bottom: V = numbers.min(c.open, c.close);
    let lower: V = numbers.sub(bottom, c.low);
    assert(distances(numbers, c.close, c.open, body));
    assert(subs(numbers, c.high, c.low, range));
    assert(maxes(numbers, c.open, c.close, top));
    assert(mins(numbers, c.open, c.close, bottom));
    (body, range, upper, lower)
}

/// Finds how the measures of a bar stand to each other.
fn shape_of<V: Copy, N: Numbers<V>>(numbers: &N, body: V, range: V, upper: V, lower: V, zero: V, two: V, tenth: V) -> (shape: Shape)
    ensures
        shaped(numbers, (Measures { body, range, upper, lower }), zero, two, tenth, shape),
{
    let has_body = relation(numbers, body, zero);
    let has_range = relation(numbers, range, zero);
    let part: V = numbers.mul(tenth, range);
    assert(muls(numbers, tenth, range, part));
    let small_body = relation(numbers, body, part);
    let twice: V = numbers.mul(two, body);
    assert(muls(numbers, two, body, twice));
    let lower_to_twice = relation(numbers, lower, twice);
    let upper_to_twice = relation(numbers, upper, twice);
    let lower_to_body = relation(numbers, lower, body);
    let upper_to_body = relation(numbers, upper, body);
    let shape = Shape { has_body, has_range, small_body, lower_to_twice, upper_to_twice, lower_to_body, upper_to_body };
    proof {
        let m = Measures { body, range, upper, lower };
        assert(relates(numbers, m.body, zero, shape.has_body));
        assert(relates(numbers, m.range, zero, shape.has_range));
        assert(muls(numbers, tenth, m.range, part) && relates(numbers, m.body, part, shape.small_body));
        assert(muls(numbers, two, m.body, twice) && relates(numbers, m.lower, twice, shape.lower_to_twice) && relates(numbers, m.upper, twice, shape.upper_to_twice));
        assert(relates(numbers, m.lower, m.body, shape.lower_to_body));
        assert(relates(numbers, m.upper, m.body, shape.upper_to_body));
        assert(shaped(numbers, m, zero, two, tenth, shape));
    }
    shape
}

/// Finds how a bar stands to the bar before it.
fn turn_of<V: Copy, N: Numbers<V>>(numbers: &N, p: &Candle<V>, c: &Candle<V>, zero: V, two: V) -> (turn: Turn)
    ensures
        turned(numbers, *p, *c, zero, two, turn),
{
    let body: V = numbers.distance(p.close, p.open);
    assert(distances(numbers, p.close, p.open, body));
    let prev_body = relation(numbers, body, zero);
    let previous = relation(numbers, p.close, p.open);
    let current = relation(numbers, c.close, c.open);
    let sum: V = numbers.add(p.open, p.close);
    let middle: V = numbers.div(sum, two);
    assert(adds(numbers, p.open, p.close, sum));
    assert(divs(numbers, sum, two, middle));
    let close_to_middle = relation(numbers, c.close, middle);
    let open_to_close = relation(numbers, c.open, p.close);
    let close_to_open = relation(numbers, c.close, p.open);
    let open_to_high = relation(numbers, c.open, p.high);
    let open_to_low = relation(numbers, c.open, p.low);
    Turn { prev_body, previous, current, open_to_close, close_to_open, close_to_middle, open_to_high, open_to_low }
}

/// Detects the seven candle patterns on every bar, flagging a bar with
/// `set` where a pattern is present and with `unset` where it is not. What
/// makes a pattern is decided by `is_doji`, `is_hammer`, `is_engulfing` and
/// `is_reversal` on the comparisons of the bar's measures.
pub fn detect_patterns<V: Copy, N: Numbers<V>>(numbers: &N, candles: &Vec<Candle<V>>, unset: V, set: V) -> (cache: CandlePatternCache<V>)
    ensures
        detected(numbers, candles@, unset, set, flags_of(&cache)),
        pattern_flags(&cache, candles@.len() as int, unset, set),
{
    let len: usize = candles.len();
    let zero: V = numbers.from_int(0);
    let two: V = numbers.from_int(2);
    let tenth: V = numbers.ratio(1, 10);
    assert(ints(numbers, 0, zero));
    assert(ints(numbers, 2, two));
    assert(ratios(numbers, 1, 10, tenth));
    let mut doji: Vec<V> = Vec::new();
    let mut hammer: Vec<V> = Vec::new();
    let mut shooting_star: Vec<V> = Vec::new();
    let mut bearish_engulfing: Vec<V> = Vec::new();
    let mut bullish_engulfing: Vec<V> = Vec::new();
    let mut dark_cloud: Vec<V> = Vec::new();
    let mut piercing_line: Vec<V> = Vec::new();
    let mut i: usize = 0;
    while i < len
        invariant
            i <= len,
            len == candles@.len(),
            flags(doji@, i as int, unset, set),
            flags(hammer@, i as int, unset, set),
            flags(shooting_star@, i as int, unset, set),
            flags(bearish_engulfing@, i as int, unset, set),
            flags(bullish_engulfing@, i as int, unset, set),
            flags(dark_cloud@, i as int, unset, set),
            flags(piercing_line@, i as int, unset, set),
            i > 0 ==> bearish_engulfing@[0] == unset && bullish_engulfing@[0] == unset && dark_cloud@[0] == unset && piercing_line@[0] == unset,
            all_flagged(
                numbers,
                candles@,
                zero,
                two,
                tenth,
                unset,
                set,
                (Flags {
                    doji: doji@,
                    hammer: hammer@,
                    shooting_star: shooting_star@,
                    bearish_engulfing: bearish_engulfing@,
                    bullish_engulfing: bullish_engulfing@,
                    dark_cloud: dark_cloud@,
                    piercing_line: piercing_line@,
                }),
                i as int,
            ),
        decreases len - i,
    {
        let ghost earlier = Flags {
            doji: doji@,
            hammer: hammer@,
            shooting_star: shooting_star@,
            bearish_engulfing: bearish_engulfing@,
            bullish_engulfing: bullish_engulfing@,
            dark_cloud: dark_cloud@,
            piercing_line: piercing_line@,
        };
        let c = &candles[i];
        let m = measure(numbers, c);
        let shape = shape_of(numbers, m.0, m.1, m.2, m.3, zero, two, tenth);
        let doji_here: bool = is_doji(shape.has_range, shape.small_body);
        let hammer_here: bool = is_hammer(shape.has_body, shape.lower_to_twice, shape.upper_to_body);
        let star_here: bool = is_hammer(shape.has_body, shape.upper_to_twice, shape.lower_to_body);
        let mut bearish: bool = false;
        let mut bullish: bool = false;
        let mut cloud: bool = false;
        let mut piercing: bool = false;
        let ghost mut turn: Turn = arbitrary();
        if i > 0 {
            let p = &candles[i - 1];
            let t = turn_of(numbers, p, c, zero, two);
            proof {
                turn = t;
            }
            bearish = is_engulfing(true, t.previous, t.current, t.prev_body, t.open_to_close, t.close_to_open);
            bullish = is_engulfing(false, t.previous, t.current, t.prev_body, t.open_to_close, t.close_to_open);
            cloud = is_reversal(true, t.previous, t.current, t.prev_body, t.open_to_high, t.close_to_middle, t.close_to_open);
            piercing = is_reversal(false, t.previous, t.current, t.prev_body, t.open_to_low, t.close_to_middle, t.close_to_open);
        }
        doji.push(flag(doji_here, unset, set));
        hammer.push(flag(hammer_here, unset, set));
        shooting_star.push(flag(star_here, unset, set));
        bearish_engulfing.push(flag(bearish, unset, set));
        bullish_engulfing.push(flag(bullish, unset, set));
        dark_cloud.push(flag(cloud, unset, set));
        piercing_line.push(flag(piercing, unset, set));
        proof {
            let now = Flags {
                doji: doji@,
                hammer: hammer@,
                shooting_star: shooting_star@,
                bearish_engulfing: bearish_engulfing@,
                bullish_engulfing: bullish_engulfing@,
                dark_cloud: dark_cloud@,
                piercing_line: piercing_line@,
            };
            let measures = Measures { body: m.0, range: m.1, upper: m.2, lower: m.3 };
            assert(bar_measured(numbers, candles@[i as int], measures));
            assert(shape_flagged(now, i as int, shape, unset, set));
            if i > 0 {
                assert(turned(numbers, candles@[i - 1], candles@[i as int], zero, two, turn));
                assert(turn_flagged(now, i as int, turn, unset, set));
            }
            assert(flagged_at(numbers, candles@, zero, two, tenth, unset, set, now, i as int));
            assert forall|k: int| 0 <= k < i + 1 implies #[trigger] flagged_at(numbers, candles@, zero, two, tenth, unset, set, now, k) by {
                if k < i {
                    assert(flagged_at(numbers, candles@, zero, two, tenth, unset, set, earlier, k));
                    lemma_flags_kept(numbers, candles@, zero, two, tenth, unset, set, earlier, now, k);
                }
            }
        }
        i += 1;
    }
    let cache = CandlePatternCache { doji, hammer, shooting_star, bearish_engulfing, bullish_engulfing, dark_cloud, piercing_line };
    assert(all_flagged(numbers, candles@, zero, two, tenth, unset, set, flags_of(&cache), candles@.len() as int));
    cache
}

/// Flags that are as they should be at bar `k` stay so when later flags are
/// added.
proof fn lemma_flags_kept<V, N: Numbers<V>>(numbers: &N, candles: Seq<Candle<V>>, zero: V, two: V, tenth: V, unset: V, set: V, earlier: Flags<V>, later: Flags<V>, k: int)
    requires
        flagged_at(numbers, candles, zero, two, tenth, unset, set, earlier, k),
        earlier.doji[k] == later.doji[k],
        earlier.hammer[k] == later.hammer[k],
        earlier.shooting_star[k] == later.shooting_star[k],
        earlier.bearish_engulfing[k] == later.bearish_engulfing[k],
        earlier.bullish_engulfing[k] == later.bullish_engulfing[k],
        earlier.dark_cloud[k] == later.dark_cloud[k],
        earlier.piercing_line[k] == later.piercing_line[k],
    ensures
        flagged_at(numbers, candles, zero, two, tenth, unset, set, later, k),
{
    let m = choose|m: Measures<V>| #[trigger] bar_measured(numbers, candles[k], m) && exists|shape: Shape| #[trigger] shaped(numbers, m, zero, two, tenth, shape) && shape_flagged(earlier, k, shape, unset, set);
    let shape = choose|shape: Shape| #[trigger] shaped(numbers, m, zero, two, tenth, shape) && shape_flagged(earlier, k, shape, unset, set);
    assert(shape_flagged(later, k, shape, unset, set));
    if k != 0 {
        let turn = choose|turn: Turn| #[trigger] turned(numbers, candles[k - 1], candles[k], zero, two, turn) && turn_flagged(earlier, k, turn, unset, set);
        assert(turn_flagged(later, k, turn, unset, set));
    }
}

/// Detects the seven candle patterns on every bar; a flag is one where a
/// pattern is present and zero where it is not, so that a rule can compare
/// it like any other value.
pub fn compute_candle_pattern_cache<V: Copy, N: Numbers<V>>(numbers: &N, candles: &Vec<Candle<V>>) -> (cache: CandlePatternCache<V>)
    ensures
        exists|unset: V, set: V| #[trigger] detected(numbers, candles@, unset, set, flags_of(&cache)) && ints(numbers, 0, unset) && ints(numbers, 1, set),
        exists|unset: V, set: V| pattern_flags(&cache, candles@.len() as int, unset, set),
{
    let unset: V = numbers.from_int(0);
    let set: V = numbers.from_int(1);
    assert(ints(numbers, 0, unset));
    assert(ints(numbers, 1, set));
    let cache = detect_patterns(numbers, candles, unset, set);
    assert(pattern_flags(&cache, candles@.len() as int, unset, set));
    cache
}

} // verus!
