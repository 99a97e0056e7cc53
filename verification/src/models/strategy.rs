use vstd::prelude::*;
use vstd::string::StringExecFns;
use crate::engine::numeric::{writes, Numbers};
use crate::models::config::Timeframe;
use crate::text::{decimal, push_decimal};

verus! {

/// All supported indicator kinds.
#[derive(Debug, Clone, Copy, PartialEq, Eq, Structural, Hash)]
pub enum IndicatorType {
    SMA,
    EMA,
    RSI,
    MACD,
    BollingerBands,
    ATR,
    Stochastic,
    ADX,
    CCI,
    ROC,
    WilliamsR,
    ParabolicSAR,
    VWAP,
    Aroon,
    AwesomeOscillator,
    BarRange,
    BiggestRange,
    HighestInRange,
    LowestInRange,
    SmallestRange,
    BearsPower,
    BullsPower,
    DeMarker,
    Fibonacci,
    Fractal,
    GannHiLo,
    HeikenAshi,
    HullMA,
    Ichimoku,
    KeltnerChannel,
    LaguerreRSI,
    LinearRegression,
    Momentum,
    SuperTrend,
    TrueRange,
    StdDev,
    Reflex,
    Pivots,
    UlcerIndex,
    Vortex,
}

/// Parameters of an indicator. Each kind reads the fields relevant to it.
#[derive(Debug, Clone)]
pub struct IndicatorParams<V> {
    pub period: Option<usize>,
    pub fast_period: Option<usize>,
    pub slow_period: Option<usize>,
    pub signal_period: Option<usize>,
    pub std_dev: Option<V>,
    pub k_period: Option<usize>,
    pub d_period: Option<usize>,
    pub acceleration_factor: Option<V>,
    pub maximum_factor: Option<V>,
    pub gamma: Option<V>,
    pub multiplier: Option<V>,
}

impl<V> IndicatorParams<V> {
    /// Parameters with every field unset.
    pub fn empty() -> (p: Self)
        ensures
            p.period.is_none(),
            p.fast_period.is_none(),
            p.slow_period.is_none(),
            p.signal_period.is_none(),
            p.std_dev.is_none(),
            p.k_period.is_none(),
            p.d_period.is_none(),
            p.acceleration_factor.is_none(),
            p.maximum_factor.is_none(),
            p.gamma.is_none(),
            p.multiplier.is_none(),
    {
        IndicatorParams {
            period: None,
            fast_period: None,
            slow_period: None,
            signal_period: None,
            std_dev: None,
            k_period: None,
            d_period: None,
            acceleration_factor: None,
            maximum_factor: None,
            gamma: None,
            multiplier: None,
        }
    }
}

impl<V> Default for IndicatorParams<V> {
    fn default() -> (p: Self)
        ensures
            p.period.is_none(),
            p.fast_period.is_none(),
            p.slow_period.is_none(),
            p.signal_period.is_none(),
            p.std_dev.is_none(),
            p.k_period.is_none(),
            p.d_period.is_none(),
            p.acceleration_factor.is_none(),
            p.maximum_factor.is_none(),
            p.gamma.is_none(),
            p.multiplier.is_none(),
    {
        IndicatorParams::empty()
    }
}

/// One indicator instance.
#[derive(Debug, Clone)]
pub struct IndicatorConfig<V> {
    pub indicator_type: IndicatorType,
    pub params: IndicatorParams<V>,
    /// Selects one output of a multi-output indicator.
    pub output_field: Option<String>,
}

impl IndicatorType {
    /// The name of the kind, as it is written in cache keys.
    pub open spec fn name_of(self) -> Seq<char> {
        match self {
            IndicatorType::SMA => "SMA"@,
            IndicatorType::EMA => "EMA"@,
            IndicatorType::RSI => "RSI"@,
            IndicatorType::MACD => "MACD"@,
            IndicatorType::BollingerBands => "BollingerBands"@,
            IndicatorType::ATR => "ATR"@,
            IndicatorType::Stochastic => "Stochastic"@,
            IndicatorType::ADX => "ADX"@,
            IndicatorType::CCI => "CCI"@,
            IndicatorType::ROC => "ROC"@,
            IndicatorType::WilliamsR => "WilliamsR"@,
            IndicatorType::ParabolicSAR => "ParabolicSAR"@,
            IndicatorType::VWAP => "VWAP"@,
            IndicatorType::Aroon => "Aroon"@,
            IndicatorType::AwesomeOscillator => "AwesomeOscillator"@,
            IndicatorType::BarRange => "BarRange"@,
            IndicatorType::BiggestRange => "BiggestRange"@,
            IndicatorType::HighestInRange => "HighestInRange"@,
            IndicatorType::LowestInRange => "LowestInRange"@,
            IndicatorType::SmallestRange => "SmallestRange"@,
            IndicatorType::BearsPower => "BearsPower"@,
            IndicatorType::BullsPower => "BullsPower"@,
            IndicatorType::DeMarker => "DeMarker"@,
            IndicatorType::Fibonacci => "Fibonacci"@,
            IndicatorType::Fractal => "Fractal"@,
            IndicatorType::GannHiLo => "GannHiLo"@,
            IndicatorType::HeikenAshi => "HeikenAshi"@,
            IndicatorType::HullMA => "HullMA"@,
            IndicatorType::Ichimoku => "Ichimoku"@,
            IndicatorType::KeltnerChannel => "KeltnerChannel"@,
            IndicatorType::LaguerreRSI => "LaguerreRSI"@,
            IndicatorType::LinearRegression => "LinearRegression"@,
            IndicatorType::Momentum => "Momentum"@,
            IndicatorType::SuperTrend => "SuperTrend"@,
            IndicatorType::TrueRange => "TrueRange"@,
            IndicatorType::StdDev => "StdDev"@,
            IndicatorType::Reflex => "Reflex"@,
            IndicatorType::Pivots => "Pivots"@,
            IndicatorType::UlcerIndex => "UlcerIndex"@,
            IndicatorType::Vortex => "Vortex"@,
        }
    }

    /// Returns the name of the kind.
    pub fn name(&self) -> (s: &'static str)
        ensures
            s@ == self.name_of(),
    {
        match self {
            IndicatorType::SMA => "SMA",
            IndicatorType::EMA => "EMA",
            IndicatorType::RSI => "RSI",
            IndicatorType::MACD => "MACD",
            IndicatorType::BollingerBands => "BollingerBands",
            IndicatorType::ATR => "ATR",
            IndicatorType::Stochastic => "Stochastic",
            IndicatorType::ADX => "ADX",
            IndicatorType::CCI => "CCI",
            IndicatorType::ROC => "ROC",
            IndicatorType::WilliamsR => "WilliamsR",
            IndicatorType::ParabolicSAR => "ParabolicSAR",
            IndicatorType::VWAP => "VWAP",
            IndicatorType::Aroon => "Aroon",
            IndicatorType::AwesomeOscillator => "AwesomeOscillator",
            IndicatorType::BarRange => "BarRange",
            IndicatorType::BiggestRange => "BiggestRange",
            IndicatorType::HighestInRange => "HighestInRange",
            IndicatorType::LowestInRange => "LowestInRange",
            IndicatorType::SmallestRange => "SmallestRange",
            IndicatorType::BearsPower => "BearsPower",
            IndicatorType::BullsPower => "BullsPower",
            IndicatorType::DeMarker => "DeMarker",
            IndicatorType::Fibonacci => "Fibonacci",
            IndicatorType::Fractal => "Fractal",
            IndicatorType::GannHiLo => "GannHiLo",
            IndicatorType::HeikenAshi => "HeikenAshi",
            IndicatorType::HullMA => "HullMA",
            IndicatorType::Ichimoku => "Ichimoku",
            IndicatorType::KeltnerChannel => "KeltnerChannel",
            IndicatorType::LaguerreRSI => "LaguerreRSI",
            IndicatorType::LinearRegression => "LinearRegression",
            IndicatorType::Momentum => "Momentum",
            IndicatorType::SuperTrend => "SuperTrend",
            IndicatorType::TrueRange => "TrueRange",
            IndicatorType::StdDev => "StdDev",
            IndicatorType::Reflex => "Reflex",
            IndicatorType::Pivots => "Pivots",
            IndicatorType::UlcerIndex => "UlcerIndex",
            IndicatorType::Vortex => "Vortex",
        }
    }
}

/// The texts of the numeric parameters of an indicator that are no integers,
/// each written with the number of decimals that its place in a cache key
/// has: two for `std_dev` and `multiplier`, four for the others.
pub struct ParamTexts {
    pub std_dev: Option<String>,
    pub acceleration_factor: Option<String>,
    pub maximum_factor: Option<String>,
    pub gamma: Option<String>,
    pub multiplier: Option<String>,
}

/// The part of a cache key that an integer parameter adds.
pub open spec fn count_part(tag: Seq<char>, value: Option<usize>) -> Seq<char> {
    match value {
        Some(v) => tag + decimal(v as nat),
        None => Seq::<char>::empty(),
    }
}

/// The part of a cache key that a written parameter adds.
pub open spec fn text_part(tag: Seq<char>, value: Option<String>) -> Seq<char> {
    match value {
        Some(v) => tag + v@,
        None => Seq::<char>::empty(),
    }
}

/// The cache key of an indicator: the kind's name, then one tagged part for
/// each parameter that is set, in a fixed order. The output selector is no
/// part of it.
pub open spec fn cache_key_of<V>(kind: IndicatorType, params: &IndicatorParams<V>, texts: &ParamTexts) -> Seq<char> {
    kind.name_of() + count_part("_p"@, params.period) + count_part("_fp"@, params.fast_period) + count_part(
        "_sp"@,
        params.slow_period,
    ) + count_part("_sig"@, params.signal_period) + text_part("_sd"@, texts.std_dev) + count_part(
        "_kp"@,
        params.k_period,
    ) + count_part("_dp"@, params.d_period) + text_part("_af"@, texts.acceleration_factor) + text_part(
        "_mf"@,
        texts.maximum_factor,
    ) + text_part("_g"@, texts.gamma) + text_part("_mul"@, texts.multiplier)
}

/// Appends the part of an integer parameter.
fn push_count(key: &mut String, tag: &str, value: Option<usize>)
    ensures
        final(key)@ == old(key)@ + count_part(tag@, value),
{
    match value {
        Some(v) => {
            key.append(tag);
            push_decimal(key, v as u64);
            assert(final(key)@ =~= old(key)@ + count_part(tag@, value));
        },
        None => {
            assert(final(key)@ =~= old(key)@ + count_part(tag@, value));
        },
    }
}

/// Appends the part of a written parameter.
fn push_text(key: &mut String, tag: &str, value: &Option<String>)
    ensures
        final(key)@ == old(key)@ + text_part(tag@, *value),
{
    match value {
        Some(v) => {
            key.append(tag);
            key.append(v.as_str());
            assert(final(key)@ =~= old(key)@ + text_part(tag@, *value));
        },
        None => {
            assert(final(key)@ =~= old(key)@ + text_part(tag@, *value));
        },
    }
}

/// Builds the cache key of an indicator from its kind, its integer
/// parameters and the texts of its other parameters.
pub fn cache_key_text<V>(kind: IndicatorType, params: &IndicatorParams<V>, texts: &ParamTexts) -> (key: String)
    ensures
        key@ == cache_key_of(kind, params, texts),
{
    let mut key = String::from_str(kind.name());
    push_count(&mut key, "_p", params.period);
    push_count(&mut key, "_fp", params.fast_period);
    push_count(&mut key, "_sp", params.slow_period);
    push_count(&mut key, "_sig", params.signal_period);
    push_text(&mut key, "_sd", &texts.std_dev);
    push_count(&mut key, "_kp", params.k_period);
    push_count(&mut key, "_dp", params.d_period);
    push_text(&mut key, "_af", &texts.acceleration_factor);
    push_text(&mut key, "_mf", &texts.maximum_factor);
    push_text(&mut key, "_g", &texts.gamma);
    push_text(&mut key, "_mul", &texts.multiplier);
    key
}

/// `text` is the text of an optional value: what `numbers` writes for it
/// with `decimals` decimals, and none for none.
pub open spec fn written_as<V, N: Numbers<V>>(numbers: &N, value: Option<V>, decimals: u8, text: Option<String>) -> bool {
    match value {
        Some(v) => text is Some && writes(numbers, v, decimals, text->Some_0),
        None => text is None,
    }
}

/// `texts` holds what `numbers` writes for the parameters that are no
/// integers: two decimals for `std_dev` and `multiplier`, four for the
/// others.
pub open spec fn texts_written<V, N: Numbers<V>>(numbers: &N, params: &IndicatorParams<V>, texts: &ParamTexts) -> bool {
    &&& written_as(numbers, params.std_dev, 2, texts.std_dev)
    &&& written_as(numbers, params.acceleration_factor, 4, texts.acceleration_factor)
    &&& written_as(numbers, params.maximum_factor, 4, texts.maximum_factor)
    &&& written_as(numbers, params.gamma, 4, texts.gamma)
    &&& written_as(numbers, params.multiplier, 2, texts.multiplier)
}

/// `key` is a cache key of `config`: `cache_key_of` its kind, its integer
/// parameters and the texts that `numbers` writes for the others.
pub open spec fn keyed<V, N: Numbers<V>>(numbers: &N, config: &IndicatorConfig<V>, key: Seq<char>) -> bool {
    exists|texts: ParamTexts| #[trigger] texts_written(numbers, &config.params, &texts) && key == cache_key_of(config.indicator_type, &config.params, &texts)
}

/// The text of an optional value, written with `decimals` decimals.
fn written<V: Copy, N: Numbers<V>>(numbers: &N, value: Option<V>, decimals: u8) -> (r: Option<String>)
    ensures
        written_as(numbers, value, decimals, r),
        r is Some <==> value is Some,
{
    match value {
        Some(v) => Some(numbers.fixed(v, decimals)),
        None => None,
    }
}

impl<V: Copy> IndicatorConfig<V> {
    /// The cache key of this configuration. Two configurations that differ
    /// only in their output selector have the same kind and parameters and
    /// are written alike.
    ///
    /// Whatever texts `numbers` writes for the parameters that are no
    /// integers, the key is `cache_key_of` applied to them.
    pub fn cache_key<N: Numbers<V>>(&self, numbers: &N) -> (key: String)
        ensures
            keyed(numbers, self, key@),
            exists|texts: ParamTexts|
                {
                    &&& key@ == cache_key_of(self.indicator_type, &self.params, &texts)
                    &&& (texts.std_dev is Some <==> self.params.std_dev is Some)
                    &&& (texts.acceleration_factor is Some <==> self.params.acceleration_factor is Some)
                    &&& (texts.maximum_factor is Some <==> self.params.maximum_factor is Some)
                    &&& (texts.gamma is Some <==> self.params.gamma is Some)
                    &&& (texts.multiplier is Some <==> self.params.multiplier is Some)
                },
    {
        let texts = ParamTexts {
            std_dev: written(numbers, self.params.std_dev, 2),
            acceleration_factor: written(numbers, self.params.acceleration_factor, 4),
            maximum_factor: written(numbers, self.params.maximum_factor, 4),
            gamma: written(numbers, self.params.gamma, 4),
            multiplier: written(numbers, self.params.multiplier, 2),
        };
        assert(texts_written(numbers, &self.params, &texts));
        cache_key_text(self.indicator_type, &self.params, &texts)
    }
}

/// Two configurations of one kind whose integer parameters are equal and
/// whose other parameters are written alike have one cache key, whatever
/// their output selectors are: a key of the one is a key of the other
/// wherever `numbers` writes the parameters of both as the same texts.
pub proof fn lemma_one_key<V, N: Numbers<V>>(numbers: &N, a: &IndicatorConfig<V>, b: &IndicatorConfig<V>, texts: &ParamTexts, key: Seq<char>)
    requires
        a.indicator_type == b.indicator_type,
        a.params.period == b.params.period,
        a.params.fast_period == b.params.fast_period,
        a.params.slow_period == b.params.slow_period,
        a.params.signal_period == b.params.signal_period,
        a.params.k_period == b.params.k_period,
        a.params.d_period == b.params.d_period,
        texts_written(numbers, &a.params, texts),
        texts_written(numbers, &b.params, texts),
        key == cache_key_of(a.indicator_type, &a.params, texts),
    ensures
        keyed(numbers, a, key),
        keyed(numbers, b, key),
{
    assert(key == cache_key_of(b.indicator_type, &b.params, texts));
}

/// Comparison operators of a rule.
#[derive(Debug, Clone, Copy, PartialEq, Eq, Structural)]
pub enum Comparator {
    GreaterThan,
    LessThan,
    GreaterOrEqual,
    LessOrEqual,
    Equal,
    CrossAbove,
    CrossBelow,
}

/// Logical connectors between consecutive rules.
#[derive(Debug, Clone, Copy, PartialEq, Eq, Structural)]
pub enum LogicalOperator {
    And,
    Or,
}

/// What an operand refers to.
#[derive(Debug, Clone, Copy, PartialEq, Eq, Structural)]
pub enum OperandType {
    Indicator,
    Price,
    Constant,
    BarTime,
    CandlePattern,
}

/// Time and bar fields of a `BarTime` operand.
#[derive(Debug, Clone, Copy, PartialEq, Eq, Structural)]
pub enum TimeField {
    CurrentBar,
    BarTimeValue,
    BarHour,
    BarMinute,
    BarDayOfWeek,
    CurrentTime,
    CurrentHour,
    CurrentMinute,
    CurrentDayOfWeek,
    CurrentMonth,
}

/// Price fields of a `Price` operand.
#[derive(Debug, Clone, Copy, PartialEq, Eq, Structural)]
pub enum PriceField {
    Open,
    High,
    Low,
    Close,
    DailyOpen,
    DailyHigh,
    DailyLow,
    DailyClose,
}

/// Candle patterns of a `CandlePattern` operand.
#[derive(Debug, Clone, Copy, PartialEq, Eq, Structural)]
pub enum CandlePatternType {
    Doji,
    Hammer,
    ShootingStar,
    BearishEngulfing,
    BullishEngulfing,
    DarkCloud,
    PiercingLine,
}

/// One side of a rule.
#[derive(Debug, Clone)]
pub struct Operand<V> {
    pub operand_type: OperandType,
    pub indicator: Option<IndicatorConfig<V>>,
    pub price_field: Option<PriceField>,
    pub constant_value: Option<V>,
    pub time_field: Option<TimeField>,
    pub candle_pattern: Option<CandlePatternType>,
    /// Look back this many bars for the operand's value.
    pub offset: Option<usize>,
}

/// A single rule: left, comparator, right.
#[derive(Debug, Clone)]
pub struct Rule<V> {
    pub id: String,
    pub left_operand: Operand<V>,
    pub comparator: Comparator,
    pub right_operand: Operand<V>,
    /// Connector to the next rule in the list.
    pub logical_operator: Option<LogicalOperator>,
}

/// How the size of a position is chosen.
#[derive(Debug, Clone, Copy, PartialEq, Eq, Structural)]
pub enum PositionSizingType {
    FixedLots,
    FixedAmount,
    PercentEquity,
    RiskBased,
}

/// The sizing mode and its value: lots, an amount, or a percentage of the
/// equity.
#[derive(Debug, Clone, Copy)]
pub struct PositionSizing<V> {
    pub sizing_type: PositionSizingType,
    pub value: V,
}

/// How the distance of a stop-loss is given.
#[derive(Debug, Clone, Copy, PartialEq, Eq, Structural)]
pub enum StopLossType {
    Pips,
    Percentage,
    ATR,
}

/// A stop-loss: how its distance from the entry is given, and the value.
#[derive(Debug, Clone, Copy)]
pub struct StopLoss<V> {
    pub sl_type: StopLossType,
    pub value: V,
    /// ATR period, read when `sl_type` is `ATR`.
    pub atr_period: Option<usize>,
}

/// How the distance of a take-profit is given.
#[derive(Debug, Clone, Copy, PartialEq, Eq, Structural)]
pub enum TakeProfitType {
    Pips,
    RiskReward,
    ATR,
}

/// A take-profit: how its distance from the entry is given, and the value.
#[derive(Debug, Clone, Copy)]
pub struct TakeProfit<V> {
    pub tp_type: TakeProfitType,
    pub value: V,
    /// ATR period, read when `tp_type` is `ATR`.
    pub atr_period: Option<usize>,
}

/// How the distance of a trailing stop is given.
#[derive(Debug, Clone, Copy, PartialEq, Eq, Structural)]
pub enum TrailingStopType {
    ATR,
    RiskReward,
}

/// A trailing stop: how its distance from the extreme is given, and the
/// value.
#[derive(Debug, Clone, Copy)]
pub struct TrailingStop<V> {
    pub ts_type: TrailingStopType,
    pub value: V,
    /// ATR period, read when `ts_type` is `ATR`.
    pub atr_period: Option<usize>,
}

/// How commission is charged.
#[derive(Debug, Clone, Copy, PartialEq, Eq, Structural)]
pub enum CommissionType {
    Percentage,
    FixedPerLot,
}

/// The costs of trading: spread and slippage in pips, and commission.
#[derive(Debug, Clone, Copy)]
pub struct TradingCosts<V> {
    pub spread_pips: V,
    pub commission_type: CommissionType,
    pub commission_value: V,
    pub slippage_pips: V,
    pub slippage_random: bool,
}

/// The side of a trade, or the sides that a strategy may take.
#[derive(Debug, Clone, Copy, PartialEq, Eq, Structural)]
pub enum TradeDirection {
    Long,
    Short,
    Both,
}

/// Daily window in which new trades may open. A window whose start lies after
/// its end crosses midnight.
#[derive(Debug, Clone, Copy, PartialEq, Eq, Structural)]
pub struct TradingHours {
    pub start_hour: u8,
    pub start_minute: u8,
    pub end_hour: u8,
    pub end_minute: u8,
}

/// Time of day at and after which an open position is force-closed.
#[derive(Debug, Clone, Copy, PartialEq, Eq, Structural)]
pub struct CloseTradesAt {
    pub hour: u8,
    pub minute: u8,
}

/// A complete strategy: four rule lists and the risk configuration.
#[derive(Debug, Clone)]
pub struct Strategy<V> {
    pub id: String,
    pub name: String,
    pub created_at: String,
    pub updated_at: String,
    pub long_entry_rules: Vec<Rule<V>>,
    pub short_entry_rules: Vec<Rule<V>>,
    pub long_exit_rules: Vec<Rule<V>>,
    pub short_exit_rules: Vec<Rule<V>>,
    pub position_sizing: PositionSizing<V>,
    pub stop_loss: Option<StopLoss<V>>,
    pub take_profit: Option<TakeProfit<V>>,
    pub trailing_stop: Option<TrailingStop<V>>,
    pub trading_costs: TradingCosts<V>,
    pub trade_direction: TradeDirection,
    pub trading_hours: Option<TradingHours>,
    pub max_daily_trades: Option<u32>,
    pub close_trades_at: Option<CloseTradesAt>,
}

/// How stop-loss and take-profit are resolved within a bar.
#[derive(Debug, Clone, Copy, PartialEq, Eq, Structural)]
pub enum BacktestPrecision {
    /// Against the selected timeframe's own bars.
    SelectedTfOnly,
    /// Against one-minute sub-bars.
    M1TickSimulation,
    /// Against quotes with a configured spread.
    RealTickCustomSpread,
    /// Against quotes with their recorded spread.
    RealTickRealSpread,
}

impl Default for BacktestPrecision {
    fn default() -> (p: Self)
        ensures
            p == BacktestPrecision::SelectedTfOnly,
    {
        BacktestPrecision::SelectedTfOnly
    }
}

/// Configuration of one backtest run.
#[derive(Debug, Clone)]
pub struct BacktestConfig<V> {
    pub symbol_id: String,
    pub timeframe: Timeframe,
    pub start_date: String,
    pub end_date: String,
    pub initial_capital: V,
    pub leverage: V,
    pub precision: BacktestPrecision,
}

/// Two strategies hold the same: every field is equal, the four rule lists
/// rule by rule.
pub open spec fn same_strategy<V>(a: Strategy<V>, b: Strategy<V>) -> bool {
    &&& a.id == b.id
    &&& a.name == b.name
    &&& a.created_at == b.created_at
    &&& a.updated_at == b.updated_at
    &&& a.long_entry_rules@ == b.long_entry_rules@
    &&& a.short_entry_rules@ == b.short_entry_rules@
    &&& a.long_exit_rules@ == b.long_exit_rules@
    &&& a.short_exit_rules@ == b.short_exit_rules@
    &&& a.position_sizing == b.position_sizing
    &&& a.stop_loss == b.stop_loss
    &&& a.take_profit == b.take_profit
    &&& a.trailing_stop == b.trailing_stop
    &&& a.trading_costs == b.trading_costs
    &&& a.trade_direction == b.trade_direction
    &&& a.trading_hours == b.trading_hours
    &&& a.max_daily_trades == b.max_daily_trades
    &&& a.close_trades_at == b.close_trades_at
}

/// A copy of an indicator configuration.
pub fn copy_config<V: Copy>(config: &IndicatorConfig<V>) -> (copy: IndicatorConfig<V>)
    ensures
        copy == *config,
{
    let p = &config.params;
    let output_field: Option<String> = match &config.output_field {
        Some(name) => Some(name.clone()),
        None => None,
    };
    IndicatorConfig {
        indicator_type: config.indicator_type,
        params: IndicatorParams {
            period: p.period,
            fast_period: p.fast_period,
            slow_period: p.slow_period,
            signal_period: p.signal_period,
            std_dev: p.std_dev,
            k_period: p.k_period,
            d_period: p.d_period,
            acceleration_factor: p.acceleration_factor,
            maximum_factor: p.maximum_factor,
            gamma: p.gamma,
            multiplier: p.multiplier,
        },
        output_field,
    }
}

/// A copy of an operand.
pub fn copy_operand<V: Copy>(operand: &Operand<V>) -> (copy: Operand<V>)
    ensures
        copy == *operand,
{
    let indicator: Option<IndicatorConfig<V>> = match &operand.indicator {
        Some(config) => Some(copy_config(config)),
        None => None,
    };
    Operand {
        operand_type: operand.operand_type,
        indicator,
        price_field: operand.price_field,
        constant_value: operand.constant_value,
        time_field: operand.time_field,
        candle_pattern: operand.candle_pattern,
        offset: operand.offset,
    }
}

/// A copy of a rule.
pub fn copy_rule<V: Copy>(rule: &Rule<V>) -> (copy: Rule<V>)
    ensures
        copy == *rule,
{
    Rule {
        id: rule.id.clone(),
        left_operand: copy_operand(&rule.left_operand),
        comparator: rule.comparator,
        right_operand: copy_operand(&rule.right_operand),
        logical_operator: rule.logical_operator,
    }
}

/// A copy of a list of rules, rule by rule.
pub fn copy_rules<V: Copy>(rules: &Vec<Rule<V>>) -> (copy: Vec<Rule<V>>)
    ensures
        copy@ == rules@,
{
    let mut copy: Vec<Rule<V>> = Vec::new();
    let mut i: usize = 0;
    while i < rules.len()
        invariant
            i <= rules@.len(),
            copy@ == rules@.subrange(0, i as int),
        decreases rules@.len() - i,
    {
        copy.push(copy_rule(&rules[i]));
        assert(copy@ =~= rules@.subrange(0, i + 1));
        i += 1;
    }
    assert(copy@ =~= rules@);
    copy
}

/// A copy of a strategy that holds the same.
pub fn copy_strategy<V: Copy>(strategy: &Strategy<V>) -> (copy: Strategy<V>)
    ensures
        same_strategy(copy, *strategy),
{
    Strategy {
        id: strategy.id.clone(),
        name: strategy.name.clone(),
        created_at: strategy.created_at.clone(),
        updated_at: strategy.updated_at.clone(),
        long_entry_rules: copy_rules(&strategy.long_entry_rules),
        short_entry_rules: copy_rules(&strategy.short_entry_rules),
        long_exit_rules: copy_rules(&strategy.long_exit_rules),
        short_exit_rules: copy_rules(&strategy.short_exit_rules),
        position_sizing: strategy.position_sizing,
        stop_loss: strategy.stop_loss,
        take_profit: strategy.take_profit,
        trailing_stop: strategy.trailing_stop,
        trading_costs: strategy.trading_costs,
        trade_direction: strategy.trade_direction,
        trading_hours: strategy.trading_hours,
        max_daily_trades: strategy.max_daily_trades,
        close_trades_at: strategy.close_trades_at,
    }
}

} // verus!
