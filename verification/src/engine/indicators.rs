use vstd::prelude::*;
use vstd::string::StringExecFns;
use crate::engine::averages::{ema, ema_made, gap_means_made, macd, macd_made, sma, sma_made};
use crate::engine::channels::{
    all_of_length, atr, atr_made, bands_made, bar_range, bar_ranges_made, biggest_range, bollinger_bands,
    deviations_made, extremes_made, fibonacci, fibonacci_made, fractal, fractals_made, gann_hilo,
    gann_made,
    heiken_made, hull_made,
    ichimoku_made, keltner_made, Extreme,
    heiken_ashi, highest_in_range, hull_ma, ichimoku, keltner_channel, linear_regression,
    lowest_in_range, parabolic_sar, pivots, pivots_made, regression_made, sar_made, smallest_range, std_dev, supertrend,
    supertrend_made, true_range,
    true_ranges_made, ulcer_index, ulcers_made, vwap, vwap_made,
};
use crate::engine::numeric::{ints, ratios, Numbers};
use crate::engine::oscillators::{
    adx, adx_made, aroon, aroon_made, awesome_made, awesome_oscillator, bears_power, bulls_power,
    cci, cci_made, demarker, demarker_made, laguerre_made, laguerre_rsi, momentum, momentum_made,
    percent_k_made, power_made, reflex, reflex_made, roc, roc_made, rsi, rsi_made, stochastic,
    vortex, vortex_made, williams_made, williams_r,
};
use crate::engine::series::{blank_before, present_from};
use crate::errors::AppError;
use crate::models::candle::Candle;
use crate::models::strategy::{IndicatorConfig, IndicatorParams, IndicatorType};

verus! {

/// One named output array of an indicator with more than three outputs.
#[derive(Debug, Clone)]
pub struct NamedSeries<V> {
    pub name: String,
    pub values: Vec<Option<V>>,
}

/// The arrays that an indicator produces, aligned with the candles. An
/// entry is absent while the indicator warms up and wherever it has no
/// value.
#[derive(Debug, Clone)]
pub struct IndicatorOutput<V> {
    /// The main line.
    pub primary: Vec<Option<V>>,
    /// The second line of a multi-output indicator.
    pub secondary: Option<Vec<Option<V>>>,
    /// The third line of a multi-output indicator.
    pub tertiary: Option<Vec<Option<V>>>,
    /// Further outputs, by name.
    pub extra: Option<Vec<NamedSeries<V>>>,
}

/// The period of `params`, which the indicator at hand requires.
pub fn require_period<V>(params: &IndicatorParams<V>) -> (r: Result<usize, AppError>)
    ensures
        match params.period {
            Some(p) => r == Ok::<usize, AppError>(p),
            None => r matches Err(AppError::InvalidIndicatorParams(m)) && m@ == "period parameter is required"@,
        },
{
    match params.period {
        Some(p) => Ok(p),
        None => Err(AppError::InvalidIndicatorParams(String::from_str("period parameter is required"))),
    }
}

/// Fails with `InsufficientData` exactly when fewer bars are available than
/// needed.
pub fn check_data_len(available: usize, needed: usize) -> (r: Result<(), AppError>)
    ensures
        available >= needed ==> r is Ok,
        available < needed ==> r == Err::<(), AppError>(AppError::InsufficientData { needed, available }),
{
    if available < needed {
        return Err(AppError::InsufficientData { needed, available });
    }
    Ok(())
}

/// What an indicator kind asks of its parameters before it can be computed.
pub enum Demand {
    /// Nothing beyond a minimum number of bars.
    Bars(int),
    /// A period `p`, and `scale * p + extra` bars.
    Period { scale: int, extra: int },
    /// The three MACD periods, and as many bars as the slow period.
    Macd,
    /// The two stochastic periods, and as many bars as the %K period.
    Stochastic,
    /// As many bars as the slow period (default 26) and the span-B period
    /// (default 52) together.
    Ichimoku,
}

/// The demand of each indicator kind.
pub open spec fn demand_of(kind: IndicatorType) -> Demand {
    match kind {
        IndicatorType::SMA | IndicatorType::EMA | IndicatorType::BollingerBands | IndicatorType::CCI
        | IndicatorType::WilliamsR | IndicatorType::BiggestRange | IndicatorType::HighestInRange
        | IndicatorType::LowestInRange | IndicatorType::SmallestRange | IndicatorType::BearsPower
        | IndicatorType::BullsPower | IndicatorType::Fibonacci | IndicatorType::GannHiLo
        | IndicatorType::HullMA | IndicatorType::LinearRegression | IndicatorType::StdDev
        | IndicatorType::UlcerIndex => Demand::Period { scale: 1, extra: 0 },
        IndicatorType::RSI | IndicatorType::ATR | IndicatorType::ROC | IndicatorType::Aroon
        | IndicatorType::DeMarker | IndicatorType::KeltnerChannel | IndicatorType::Momentum
        | IndicatorType::SuperTrend | IndicatorType::Vortex => Demand::Period { scale: 1, extra: 1 },
        IndicatorType::Reflex => Demand::Period { scale: 1, extra: 2 },
        IndicatorType::ADX => Demand::Period { scale: 2, extra: 1 },
        IndicatorType::MACD => Demand::Macd,
        IndicatorType::Stochastic => Demand::Stochastic,
        IndicatorType::Ichimoku => Demand::Ichimoku,
        IndicatorType::ParabolicSAR => Demand::Bars(2),
        IndicatorType::VWAP => Demand::Bars(1),
        IndicatorType::AwesomeOscillator => Demand::Bars(34),
        IndicatorType::Fractal => Demand::Bars(5),
        IndicatorType::BarRange | IndicatorType::HeikenAshi | IndicatorType::LaguerreRSI
        | IndicatorType::TrueRange | IndicatorType::Pivots => Demand::Bars(0),
    }
}

/// The message for the first required parameter that `config` leaves unset,
/// if there is one.
pub open spec fn missing_param<V>(config: &IndicatorConfig<V>) -> Option<Seq<char>> {
    match demand_of(config.indicator_type) {
        Demand::Period { .. } => if config.params.period is None {
            Some("period parameter is required"@)
        } else {
            None
        },
        Demand::Macd => if config.params.fast_period is None {
            Some("MACD requires fast_period"@)
        } else if config.params.slow_period is None {
            Some("MACD requires slow_period"@)
        } else if config.params.signal_period is None {
            Some("MACD requires signal_period"@)
        } else {
            None
        },
        Demand::Stochastic => if config.params.k_period is None {
            Some("Stochastic requires k_period"@)
        } else if config.params.d_period is None {
            Some("Stochastic requires d_period"@)
        } else {
            None
        },
        _ => None,
    }
}

/// The number of bars that `config` needs, given that no required parameter
/// is missing.
pub open spec fn bars_needed<V>(config: &IndicatorConfig<V>) -> int {
    match demand_of(config.indicator_type) {
        Demand::Bars(n) => n,
        Demand::Period { scale, extra } => scale * config.params.period->Some_0 + extra,
        Demand::Macd => config.params.slow_period->Some_0 as int,
        Demand::Stochastic => config.params.k_period->Some_0 as int,
        Demand::Ichimoku => (match config.params.signal_period {
            Some(p) => p as int,
            None => 52,
        }) + (match config.params.slow_period {
            Some(p) => p as int,
            None => 26,
        }),
    }
}

/// `n` if it fits a `usize`, else the largest `usize`.
pub open spec fn clip(n: int) -> usize {
    if n > usize::MAX {
        usize::MAX
    } else {
        n as usize
    }
}

/// The outcome of validating `config` against `available` bars: the first
/// check is for data at all, the second for the parameters, the third for
/// enough bars.
pub open spec fn validation_of<V>(config: &IndicatorConfig<V>, available: usize, r: Result<(), AppError>) -> bool {
    if available == 0 {
        r == Err::<(), AppError>(AppError::InsufficientData { needed: 1, available: 0 })
    } else if missing_param(config) is Some {
        r matches Err(AppError::InvalidIndicatorParams(m)) && m@ == missing_param(config)->Some_0
    } else if available < bars_needed(config) {
        r == Err::<(), AppError>(AppError::InsufficientData { needed: clip(bars_needed(config)), available })
    } else {
        r is Ok
    }
}

/// `scale * period + extra` bars against `available`.
fn check_period_bars(period: usize, scale: usize, extra: usize, available: usize) -> (r: Result<(), AppError>)
    requires
        1 <= scale <= 2,
        extra <= 2,
    ensures
        available >= scale * period + extra ==> r is Ok,
        available < scale * period + extra ==> r == Err::<(), AppError>(
            AppError::InsufficientData { needed: clip(scale * period + extra), available },
        ),
{
    let scaled: Option<usize> = if scale == 1 {
        Some(period)
    } else {
        period.checked_add(period)
    };
    let needed: Option<usize> = match scaled {
        Some(s) => s.checked_add(extra),
        None => None,
    };
    match needed {
        Some(n) => check_data_len(available, n),
        None => Err(AppError::InsufficientData { needed: usize::MAX, available }),
    }
}

/// `a + b` bars against `available`.
fn check_sum_bars(a: usize, b: usize, available: usize) -> (r: Result<(), AppError>)
    ensures
        available >= a + b ==> r is Ok,
        available < a + b ==> r == Err::<(), AppError>(AppError::InsufficientData { needed: clip(a + b), available }),
{
    match a.checked_add(b) {
        Some(n) => check_data_len(available, n),
        None => Err(AppError::InsufficientData { needed: usize::MAX, available }),
    }
}

/// An error for a parameter that is required and not set.
fn missing(message: &str) -> (r: Result<(), AppError>)
    ensures
        r matches Err(AppError::InvalidIndicatorParams(m)) && m@ == message@,
{
    Err(AppError::InvalidIndicatorParams(String::from_str(message)))
}

/// Checks that `config` can be computed on `available` bars: that there is
/// data, that the parameters its kind requires are set, and that the bars
/// cover its warm-up.
pub fn validate_indicator<V>(config: &IndicatorConfig<V>, available: usize) -> (r: Result<(), AppError>)
    ensures
        validation_of(config, available, r),
{
    if available == 0 {
        return Err(AppError::InsufficientData { needed: 1, available: 0 });
    }
    let params = &config.params;
    match config.indicator_type {
        IndicatorType::SMA | IndicatorType::EMA | IndicatorType::BollingerBands | IndicatorType::CCI
        | IndicatorType::WilliamsR | IndicatorType::BiggestRange | IndicatorType::HighestInRange
        | IndicatorType::LowestInRange | IndicatorType::SmallestRange | IndicatorType::BearsPower
        | IndicatorType::BullsPower | IndicatorType::Fibonacci | IndicatorType::GannHiLo
        | IndicatorType::HullMA | IndicatorType::LinearRegression | IndicatorType::StdDev
        | IndicatorType::UlcerIndex => match params.period {
            Some(p) => check_period_bars(p, 1, 0, available),
            None => missing("period parameter is required"),
        },
        IndicatorType::RSI | IndicatorType::ATR | IndicatorType::ROC | IndicatorType::Aroon
        | IndicatorType::DeMarker | IndicatorType::KeltnerChannel | IndicatorType::Momentum
        | IndicatorType::SuperTrend | IndicatorType::Vortex => match params.period {
            Some(p) => check_period_bars(p, 1, 1, available),
            None => missing("period parameter is required"),
        },
        IndicatorType::Reflex => match params.period {
            Some(p) => check_period_bars(p, 1, 2, available),
            None => missing("period parameter is required"),
        },
        IndicatorType::ADX => match params.period {
            Some(p) => check_period_bars(p, 2, 1, available),
            None => missing("period parameter is required"),
        },
        IndicatorType::MACD => {
            if params.fast_period.is_none() {
                return missing("MACD requires fast_period");
            }
            match params.slow_period {
                None => missing("MACD requires slow_period"),
                Some(slow) => {
                    if params.signal_period.is_none() {
                        return missing("MACD requires signal_period");
                    }
                    check_data_len(available, slow)
                },
            }
        },
        IndicatorType::Stochastic => match params.k_period {
            None => missing("Stochastic requires k_period"),
            Some(k) => {
                if params.d_period.is_none() {
                    return missing("Stochastic requires d_period");
                }
                check_data_len(available, k)
            },
        },
        IndicatorType::Ichimoku => {
            let slow: usize = match params.slow_period {
                Some(p) => p,
                None => 26,
            };
            let span_b: usize = match params.signal_period {
                Some(p) => p,
                None => 52,
            };
            check_sum_bars(span_b, slow, available)
        },
        IndicatorType::ParabolicSAR => check_data_len(available, 2),
        IndicatorType::VWAP => check_data_len(available, 1),
        IndicatorType::AwesomeOscillator => check_data_len(available, 34),
        IndicatorType::Fractal => check_data_len(available, 5),
        IndicatorType::BarRange | IndicatorType::HeikenAshi | IndicatorType::LaguerreRSI
        | IndicatorType::TrueRange | IndicatorType::Pivots => Ok(()),
    }
}

/// The price columns of a candle series.
pub struct PriceColumns<V> {
    pub open: Vec<V>,
    pub high: Vec<V>,
    pub low: Vec<V>,
    pub close: Vec<V>,
    pub volume: Vec<V>,
    pub timestamps: Vec<i64>,
}

impl<V> PriceColumns<V> {
    /// Every column has one entry per candle, in order.
    pub open spec fn of(&self, candles: Seq<Candle<V>>) -> bool {
        &&& self.open@ == Seq::new(candles.len(), |i: int| candles[i].open)
        &&& self.high@ == Seq::new(candles.len(), |i: int| candles[i].high)
        &&& self.low@ == Seq::new(candles.len(), |i: int| candles[i].low)
        &&& self.close@ == Seq::new(candles.len(), |i: int| candles[i].close)
        &&& self.volume@ == Seq::new(candles.len(), |i: int| candles[i].volume)
        &&& self.timestamps@ == Seq::new(candles.len(), |i: int| candles[i].timestamp)
    }
}

/// Splits candles into their price columns.
pub fn price_columns<V: Copy>(candles: &Vec<Candle<V>>) -> (columns: PriceColumns<V>)
    ensures
        columns.of(candles@),
{
    let mut open: Vec<V> = Vec::new();
    let mut high: Vec<V> = Vec::new();
    let mut low: Vec<V> = Vec::new();
    let mut close: Vec<V> = Vec::new();
    let mut volume: Vec<V> = Vec::new();
    let mut timestamps: Vec<i64> = Vec::new();
    let mut i: usize = 0;
    while i < candles.len()
        invariant
            i <= candles@.len(),
            open@ == Seq::new(i as nat, |k: int| candles@[k].open),
            high@ == Seq::new(i as nat, |k: int| candles@[k].high),
            low@ == Seq::new(i as nat, |k: int| candles@[k].low),
            close@ == Seq::new(i as nat, |k: int| candles@[k].close),
            volume@ == Seq::new(i as nat, |k: int| candles@[k].volume),
            timestamps@ == Seq::new(i as nat, |k: int| candles@[k].timestamp),
        decreases candles@.len() - i,
    {
        let c = &candles[i];
        open.push(c.open);
        high.push(c.high);
        low.push(c.low);
        close.push(c.close);
        volume.push(c.volume);
        timestamps.push(c.timestamp);
        assert(open@ =~= Seq::new((i + 1) as nat, |k: int| candles@[k].open));
        assert(high@ =~= Seq::new((i + 1) as nat, |k: int| candles@[k].high));
        assert(low@ =~= Seq::new((i + 1) as nat, |k: int| candles@[k].low));
        assert(close@ =~= Seq::new((i + 1) as nat, |k: int| candles@[k].close));
        assert(volume@ =~= Seq::new((i + 1) as nat, |k: int| candles@[k].volume));
        assert(timestamps@ =~= Seq::new((i + 1) as nat, |k: int| candles@[k].timestamp));
        i += 1;
    }
    PriceColumns { open, high, low, close, volume, timestamps }
}

/// How many output lines an indicator kind has besides its extra outputs.
pub open spec fn lines_of(kind: IndicatorType) -> int {
    match kind {
        IndicatorType::MACD | IndicatorType::BollingerBands | IndicatorType::KeltnerChannel => 3,
        IndicatorType::Stochastic | IndicatorType::Aroon | IndicatorType::Fractal | IndicatorType::HeikenAshi
        | IndicatorType::Vortex => 2,
        _ => 1,
    }
}

/// Whether an indicator kind has extra outputs under names.
pub open spec fn has_extra(kind: IndicatorType) -> bool {
    kind == IndicatorType::Fibonacci || kind == IndicatorType::Ichimoku || kind == IndicatorType::Pivots
}

/// The shape of an indicator's output on `len` candles: every array has one
/// entry per candle, and the lines and extra outputs that the kind has are
/// there and no others.
pub open spec fn output_shape<V>(kind: IndicatorType, len: int, out: &IndicatorOutput<V>) -> bool {
    &&& out.primary@.len() == len
    &&& (out.secondary is Some <==> lines_of(kind) >= 2)
    &&& (out.tertiary is Some <==> lines_of(kind) >= 3)
    &&& (out.secondary is Some ==> out.secondary->Some_0@.len() == len)
    &&& (out.tertiary is Some ==> out.tertiary->Some_0@.len() == len)
    &&& (out.extra is Some <==> has_extra(kind))
    &&& (out.extra is Some ==> all_of_length(out.extra->Some_0@, len))
}

/// `p` or, where it is not set, `default`.
pub open spec fn or_else(p: Option<usize>, default: int) -> int {
    match p {
        Some(v) => v as int,
        None => default,
    }
}

/// The number of leading entries of the primary line that are absent
/// because the indicator warms up.
pub open spec fn primary_warmup<V>(config: &IndicatorConfig<V>) -> int {
    let period = or_else(config.params.period, 14);
    match config.indicator_type {
        IndicatorType::SMA | IndicatorType::EMA | IndicatorType::BollingerBands | IndicatorType::CCI
        | IndicatorType::WilliamsR | IndicatorType::BiggestRange | IndicatorType::HighestInRange
        | IndicatorType::LowestInRange | IndicatorType::SmallestRange | IndicatorType::BearsPower
        | IndicatorType::BullsPower | IndicatorType::Fibonacci | IndicatorType::GannHiLo
        | IndicatorType::HullMA | IndicatorType::LinearRegression | IndicatorType::StdDev
        | IndicatorType::UlcerIndex | IndicatorType::ATR | IndicatorType::KeltnerChannel
        | IndicatorType::SuperTrend => period - 1,
        IndicatorType::RSI | IndicatorType::ROC | IndicatorType::Momentum | IndicatorType::Aroon
        | IndicatorType::DeMarker | IndicatorType::Vortex | IndicatorType::Reflex => period,
        IndicatorType::ADX => 2 * period - 1,
        IndicatorType::MACD => (if or_else(config.params.fast_period, 12) > or_else(config.params.slow_period, 26) {
            or_else(config.params.fast_period, 12)
        } else {
            or_else(config.params.slow_period, 26)
        }) - 1,
        IndicatorType::Stochastic => or_else(config.params.k_period, 14) - 1,
        IndicatorType::Ichimoku => or_else(config.params.fast_period, 9) - 1,
        IndicatorType::AwesomeOscillator => 33,
        IndicatorType::Fractal => 4,
        IndicatorType::ParabolicSAR | IndicatorType::VWAP | IndicatorType::BarRange | IndicatorType::HeikenAshi
        | IndicatorType::LaguerreRSI | IndicatorType::TrueRange | IndicatorType::Pivots => 0,
    }
}

/// Kinds whose primary line has a value on every bar once it has warmed
/// up. The others may leave gaps: where a divisor is zero, where a fit has
/// no solution, where no fractal stands, on the first day.
pub open spec fn settles(kind: IndicatorType) -> bool {
    match kind {
        IndicatorType::ROC | IndicatorType::Vortex | IndicatorType::Fractal | IndicatorType::HullMA
        | IndicatorType::LinearRegression | IndicatorType::Pivots => false,
        _ => true,
    }
}

/// The periods that a kind reads are positive.
pub open spec fn periods_positive<V>(config: &IndicatorConfig<V>) -> bool {
    match config.indicator_type {
        IndicatorType::MACD => or_else(config.params.fast_period, 12) > 0 && or_else(config.params.slow_period, 26) > 0 && or_else(
            config.params.signal_period,
            9,
        ) > 0 && or_else(config.params.fast_period, 12) <= or_else(config.params.slow_period, 26),
        IndicatorType::Stochastic => or_else(config.params.k_period, 14) > 0,
        IndicatorType::Ichimoku => or_else(config.params.fast_period, 9) > 0,
        _ => or_else(config.params.period, 14) > 0,
    }
}

/// An output with a primary line only.
fn single<V>(primary: Vec<Option<V>>) -> (out: IndicatorOutput<V>)
    ensures
        out.primary == primary,
        out.secondary is None,
        out.tertiary is None,
        out.extra is None,
{
    IndicatorOutput { primary, secondary: None, tertiary: None, extra: None }
}

/// An output with a primary and a secondary line.
fn pair<V>(primary: Vec<Option<V>>, secondary: Vec<Option<V>>) -> (out: IndicatorOutput<V>)
    ensures
        out.primary == primary,
        out.secondary == Some(secondary),
        out.tertiary is None,
        out.extra is None,
{
    IndicatorOutput { primary, secondary: Some(secondary), tertiary: None, extra: None }
}

/// An output with three lines.
fn triple<V>(primary: Vec<Option<V>>, secondary: Vec<Option<V>>, tertiary: Vec<Option<V>>) -> (out: IndicatorOutput<V>)
    ensures
        out.primary == primary,
        out.secondary == Some(secondary),
        out.tertiary == Some(tertiary),
        out.extra is None,
{
    IndicatorOutput { primary, secondary: Some(secondary), tertiary: Some(tertiary), extra: None }
}

/// A copy of a series.
fn copy_series<V: Copy>(series: &Vec<Option<V>>) -> (copy: Vec<Option<V>>)
    ensures
        copy@ == series@,
{
    let mut copy: Vec<Option<V>> = Vec::new();
    let mut i: usize = 0;
    while i < series.len()
        invariant
            i <= series@.len(),
            copy@ == series@.subrange(0, i as int),
        decreases series@.len() - i,
    {
        copy.push(series[i]);
        assert(copy@ =~= series@.subrange(0, i + 1));
        i += 1;
    }
    assert(copy@ =~= series@);
    copy
}

/// An output whose primary line is one of its extra outputs.
fn with_extra<V: Copy>(extra: Vec<NamedSeries<V>>, primary_at: usize) -> (out: IndicatorOutput<V>)
    requires
        primary_at < extra@.len(),
    ensures
        out.primary@ == extra@[primary_at as int].values@,
        out.secondary is None,
        out.tertiary is None,
        out.extra == Some(extra),
{
    let primary = copy_series(&extra[primary_at].values);
    IndicatorOutput { primary, secondary: None, tertiary: None, extra: Some(extra) }
}

/// A parameter, or `default` where it is not set.
fn param_or(p: Option<usize>, default: usize) -> (r: usize)
    ensures
        r == or_else(p, default as int),
{
    match p {
        Some(v) => v,
        None => default,
    }
}

/// The second and third line of an output are present once they have
/// warmed up: the signal and the histogram of MACD `signal_period - 1` bars
/// after the line; the upper and the lower Keltner band with the middle
/// one; %D of the stochastic oscillator `d_period - 1` bars after %K; Aroon
/// Down with Aroon Up; the Heiken Ashi open on every bar.
pub open spec fn further_lines_present<V>(config: &IndicatorConfig<V>, out: &IndicatorOutput<V>) -> bool {
    match config.indicator_type {
        IndicatorType::MACD => {
            let warm = primary_warmup(config) + or_else(config.params.signal_period, 9) - 1;
            out.secondary is Some && out.tertiary is Some && present_from(out.secondary->Some_0@, warm) && present_from(out.tertiary->Some_0@, warm)
        },
        IndicatorType::KeltnerChannel => out.secondary is Some && out.tertiary is Some && present_from(out.secondary->Some_0@, primary_warmup(config)) && present_from(
            out.tertiary->Some_0@,
            primary_warmup(config),
        ),
        IndicatorType::Stochastic => out.secondary is Some && (or_else(config.params.d_period, 3) > 0 ==> present_from(
            out.secondary->Some_0@,
            primary_warmup(config) + or_else(config.params.d_period, 3) - 1,
        )),
        IndicatorType::Aroon => out.secondary is Some && present_from(out.secondary->Some_0@, primary_warmup(config)),
        IndicatorType::HeikenAshi => out.secondary is Some && present_from(out.secondary->Some_0@, 0),
        _ => true,
    }
}

/// What `compute_arrays` promises of its output: it has the shape of its
/// kind on these candles; the primary line is absent while the indicator
/// warms up; and for the kinds that settle it is present from there on,
/// provided the periods are positive and the candles cover the warm-up, and
/// so are the further lines as `further_lines_present` has it.
pub open spec fn arrays_of<V>(config: &IndicatorConfig<V>, len: int, out: &IndicatorOutput<V>) -> bool {
    &&& output_shape(config.indicator_type, len, out)
    &&& blank_before(out.primary@, primary_warmup(config))
    &&& (settles(config.indicator_type) && periods_positive(config) && len >= bars_needed_or_default(config) ==> present_from(
        out.primary@,
        primary_warmup(config),
    ))
    &&& (periods_positive(config) && len >= bars_needed_or_default(config) ==> further_lines_present(config, out))
}

/// The closes of a candle series, in order.
pub open spec fn closes_of<V>(candles: Seq<Candle<V>>) -> Seq<V> {
    Seq::new(candles.len(), |i: int| candles[i].close)
}

/// The opens of a candle series, in order.
pub open spec fn opens_of<V>(candles: Seq<Candle<V>>) -> Seq<V> {
    Seq::new(candles.len(), |i: int| candles[i].open)
}

/// The volumes of a candle series, in order.
pub open spec fn volumes_of<V>(candles: Seq<Candle<V>>) -> Seq<V> {
    Seq::new(candles.len(), |i: int| candles[i].volume)
}

/// The instants of a candle series, in order.
pub open spec fn times_of<V>(candles: Seq<Candle<V>>) -> Seq<i64> {
    Seq::new(candles.len(), |i: int| candles[i].timestamp)
}

/// The highs of a candle series, in order.
pub open spec fn highs_of<V>(candles: Seq<Candle<V>>) -> Seq<V> {
    Seq::new(candles.len(), |i: int| candles[i].high)
}

/// The lows of a candle series, in order.
pub open spec fn lows_of<V>(candles: Seq<Candle<V>>) -> Seq<V> {
    Seq::new(candles.len(), |i: int| candles[i].low)
}

/// `mult` is the multiple of the deviation at which Bollinger bands lie:
/// the configured one, or two.
pub open spec fn band_multiple<V, N: Numbers<V>>(numbers: &N, config: &IndicatorConfig<V>, mult: V) -> bool {
    match config.params.std_dev {
        Some(w) => mult == w,
        None => ints(numbers, 2, mult),
    }
}

/// `mult` is the multiple of the average true range at which the bands of a
/// Keltner channel lie: the configured one, or one and a half.
pub open spec fn channel_multiple<V, N: Numbers<V>>(numbers: &N, config: &IndicatorConfig<V>, mult: V) -> bool {
    match config.params.multiplier {
        Some(w) => mult == w,
        None => ratios(numbers, 15, 10, mult),
    }
}

/// `start` and `max` are the acceleration of a parabolic stop and its
/// maximum: the configured ones, or two and twenty hundredths.
pub open spec fn stop_factors<V, N: Numbers<V>>(numbers: &N, config: &IndicatorConfig<V>, start: V, max: V) -> bool {
    &&& match config.params.acceleration_factor {
        Some(a) => start == a,
        None => ratios(numbers, 2, 100, start),
    }
    &&& match config.params.maximum_factor {
        Some(a) => max == a,
        None => ratios(numbers, 20, 100, max),
    }
}

/// `mult` is the multiple of the average true range at which the bands of
/// a SuperTrend lie: the configured one, or three.
pub open spec fn trend_multiple<V, N: Numbers<V>>(numbers: &N, config: &IndicatorConfig<V>, mult: V) -> bool {
    match config.params.multiplier {
        Some(w) => mult == w,
        None => ints(numbers, 3, mult),
    }
}

/// `gamma` is the damping of a Laguerre filter: the configured one, or
/// eight tenths.
pub open spec fn damping_of<V, N: Numbers<V>>(numbers: &N, config: &IndicatorConfig<V>, gamma: V) -> bool {
    match config.params.gamma {
        Some(g) => gamma == g,
        None => ratios(numbers, 8, 10, gamma),
    }
}

/// The lines of the output are those of the indicator of its kind, each as
/// the function of that kind has it, on the columns of the candles and with
/// a default in the place of every parameter that is not set. The primary
/// line of Bollinger bands and of a Keltner channel is the middle band, the
/// secondary the upper and the tertiary the lower band; the primary line of
/// Fibonacci is the 50% level, of Ichimoku the conversion line and of the
/// pivots the pivot itself.
pub open spec fn lines_made<V, N: Numbers<V>>(numbers: &N, config: &IndicatorConfig<V>, candles: Seq<Candle<V>>, out: &IndicatorOutput<V>) -> bool {
    match config.indicator_type {
        IndicatorType::SMA => sma_made(numbers, closes_of(candles), or_else(config.params.period, 14) as usize, out.primary@),
        IndicatorType::EMA => ema_made(numbers, closes_of(candles), or_else(config.params.period, 14) as usize, out.primary@),
        IndicatorType::Momentum => momentum_made(numbers, closes_of(candles), or_else(config.params.period, 14) as usize, out.primary@),
        IndicatorType::ROC => roc_made(numbers, closes_of(candles), or_else(config.params.period, 14) as usize, out.primary@),
        IndicatorType::TrueRange => true_ranges_made(numbers, highs_of(candles), lows_of(candles), closes_of(candles), out.primary@),
        IndicatorType::BarRange => bar_ranges_made(numbers, highs_of(candles), lows_of(candles), out.primary@),
        IndicatorType::WilliamsR => williams_made(numbers, highs_of(candles), lows_of(candles), closes_of(candles), or_else(config.params.period, 14) as usize, out.primary@),
        IndicatorType::ADX => adx_made(numbers, highs_of(candles), lows_of(candles), closes_of(candles), or_else(config.params.period, 14) as usize, out.primary@),
        IndicatorType::CCI => cci_made(numbers, highs_of(candles), lows_of(candles), closes_of(candles), or_else(config.params.period, 14) as usize, out.primary@),
        IndicatorType::Stochastic => out.secondary is Some && percent_k_made(numbers, highs_of(candles), lows_of(candles), closes_of(candles), or_else(config.params.k_period, 14) as usize, out.primary@) && gap_means_made(
            numbers,
            out.primary@,
            or_else(config.params.d_period, 3) as usize,
            out.secondary->Some_0@,
        ),
        IndicatorType::MACD => out.secondary is Some && out.tertiary is Some && macd_made(
            numbers,
            closes_of(candles),
            or_else(config.params.fast_period, 12) as usize,
            or_else(config.params.slow_period, 26) as usize,
            or_else(config.params.signal_period, 9) as usize,
            out.primary@,
            out.secondary->Some_0@,
            out.tertiary->Some_0@,
        ),
        IndicatorType::StdDev => deviations_made(numbers, closes_of(candles), or_else(config.params.period, 14) as usize, out.primary@),
        IndicatorType::KeltnerChannel => out.secondary is Some && out.tertiary is Some && exists|mult: V| #[trigger]
            channel_multiple(numbers, config, mult) && keltner_made(
                numbers,
                highs_of(candles),
                lows_of(candles),
                closes_of(candles),
                or_else(config.params.period, 14) as usize,
                mult,
                out.secondary->Some_0@,
                out.primary@,
                out.tertiary->Some_0@,
            ),
        IndicatorType::DeMarker => demarker_made(numbers, highs_of(candles), lows_of(candles), or_else(config.params.period, 14) as usize, out.primary@),
        IndicatorType::HeikenAshi => out.secondary is Some && heiken_made(numbers, opens_of(candles), highs_of(candles), lows_of(candles), closes_of(candles), out.primary@, out.secondary->Some_0@),
        IndicatorType::Fibonacci => out.extra is Some && out.primary@ == out.extra->Some_0@[2].values@ && fibonacci_made(
            numbers,
            highs_of(candles),
            lows_of(candles),
            or_else(config.params.period, 14) as usize,
            out.extra->Some_0@,
        ),
        IndicatorType::Ichimoku => out.extra is Some && out.primary@ == out.extra->Some_0@[0].values@ && ichimoku_made(
            numbers,
            highs_of(candles),
            lows_of(candles),
            closes_of(candles),
            or_else(config.params.fast_period, 9) as usize,
            or_else(config.params.slow_period, 26) as usize,
            or_else(config.params.signal_period, 52) as usize,
            out.extra->Some_0@,
        ),
        IndicatorType::VWAP => vwap_made(numbers, highs_of(candles), lows_of(candles), closes_of(candles), volumes_of(candles), times_of(candles), out.primary@),
        IndicatorType::Pivots => out.extra is Some && out.primary@ == out.extra->Some_0@[0].values@ && pivots_made(
            numbers,
            highs_of(candles),
            lows_of(candles),
            closes_of(candles),
            times_of(candles),
            out.extra->Some_0@,
        ),
        IndicatorType::GannHiLo => gann_made(numbers, highs_of(candles), lows_of(candles), closes_of(candles), or_else(config.params.period, 14) as usize, out.primary@),
        IndicatorType::Vortex => out.secondary is Some && vortex_made(
            numbers,
            highs_of(candles),
            lows_of(candles),
            closes_of(candles),
            or_else(config.params.period, 14) as usize,
            out.primary@,
            out.secondary->Some_0@,
        ),
        IndicatorType::UlcerIndex => ulcers_made(numbers, closes_of(candles), or_else(config.params.period, 14) as usize, out.primary@),
        IndicatorType::Fractal => out.secondary is Some && fractals_made(numbers, highs_of(candles), lows_of(candles), out.primary@, out.secondary->Some_0@),
        IndicatorType::Aroon => out.secondary is Some && aroon_made(numbers, highs_of(candles), lows_of(candles), or_else(config.params.period, 14) as usize, out.primary@, out.secondary->Some_0@),
        IndicatorType::HullMA => hull_made(numbers, closes_of(candles), or_else(config.params.period, 14) as usize, out.primary@),
        IndicatorType::ParabolicSAR => exists|start: V, max: V| #[trigger]
            stop_factors(numbers, config, start, max) && sar_made(numbers, highs_of(candles), lows_of(candles), start, max, out.primary@),
        IndicatorType::SuperTrend => exists|mult: V| #[trigger]
            trend_multiple(numbers, config, mult) && supertrend_made(
                numbers,
                highs_of(candles),
                lows_of(candles),
                closes_of(candles),
                or_else(config.params.period, 14) as usize,
                mult,
                out.primary@,
            ),
        IndicatorType::LinearRegression => regression_made(numbers, closes_of(candles), or_else(config.params.period, 14) as usize, out.primary@),
        IndicatorType::LaguerreRSI => exists|gamma: V| #[trigger] damping_of(numbers, config, gamma) && laguerre_made(numbers, closes_of(candles), gamma, out.primary@),
        IndicatorType::Reflex => reflex_made(numbers, closes_of(candles), or_else(config.params.period, 14) as usize, out.primary@),
        IndicatorType::AwesomeOscillator => awesome_made(numbers, highs_of(candles), lows_of(candles), out.primary@),
        IndicatorType::BearsPower => power_made(numbers, lows_of(candles), closes_of(candles), or_else(config.params.period, 14) as usize, out.primary@),
        IndicatorType::BullsPower => power_made(numbers, highs_of(candles), closes_of(candles), or_else(config.params.period, 14) as usize, out.primary@),
        IndicatorType::RSI => rsi_made(numbers, closes_of(candles), or_else(config.params.period, 14) as usize, out.primary@),
        IndicatorType::ATR => atr_made(numbers, highs_of(candles), lows_of(candles), closes_of(candles), or_else(config.params.period, 14) as usize, out.primary@),
        IndicatorType::BiggestRange => extremes_made(numbers, highs_of(candles), lows_of(candles), or_else(config.params.period, 14) as usize, Extreme::BiggestRange, out.primary@),
        IndicatorType::SmallestRange => extremes_made(numbers, highs_of(candles), lows_of(candles), or_else(config.params.period, 14) as usize, Extreme::SmallestRange, out.primary@),
        IndicatorType::HighestInRange => extremes_made(numbers, highs_of(candles), highs_of(candles), or_else(config.params.period, 14) as usize, Extreme::Highest, out.primary@),
        IndicatorType::LowestInRange => extremes_made(numbers, lows_of(candles), lows_of(candles), or_else(config.params.period, 14) as usize, Extreme::Lowest, out.primary@),
        IndicatorType::BollingerBands => out.secondary is Some && out.tertiary is Some && exists|mult: V| #[trigger]
            band_multiple(numbers, config, mult) && bands_made(
                numbers,
                closes_of(candles),
                or_else(config.params.period, 14) as usize,
                mult,
                out.secondary->Some_0@,
                out.primary@,
                out.tertiary->Some_0@,
            ),
    }
}

/// The averages and the indicators built on closes alone.
fn close_arrays<V: Copy, N: Numbers<V>>(numbers: &N, config: &IndicatorConfig<V>, columns: &PriceColumns<V>, Ghost(candles): Ghost<Seq<Candle<V>>>) -> (out: Option<IndicatorOutput<V>>)
    requires
        columns.of(candles),
    ensures
        out is Some ==> lines_made(numbers, config, candles, &out->Some_0),
        out is Some ==> arrays_of(config, candles.len() as int, &out->Some_0),
        out is None ==> !closes_only(config.indicator_type),
{
    let close = &columns.close;
    let p = &config.params;
    let period: usize = param_or(p.period, 14);
    match config.indicator_type {
        IndicatorType::SMA => Some(single(sma(numbers, close, period))),
        IndicatorType::EMA => Some(single(ema(numbers, close, period))),
        IndicatorType::RSI => Some(single(rsi(numbers, close, period))),
        IndicatorType::MACD => {
            let r = macd(numbers, close, param_or(p.fast_period, 12), param_or(p.slow_period, 26), param_or(p.signal_period, 9));
            Some(triple(r.0, r.1, r.2))
        },
        IndicatorType::BollingerBands => {
            let width: V = match p.std_dev {
                Some(w) => w,
                None => numbers.from_int(2),
            };
            assert(band_multiple(numbers, config, width));
            let r = bollinger_bands(numbers, close, period, width);
            Some(triple(r.1, r.0, r.2))
        },
        IndicatorType::ROC => Some(single(roc(numbers, close, period))),
        IndicatorType::HullMA => Some(single(hull_ma(numbers, close, period))),
        IndicatorType::LaguerreRSI => {
            let gamma: V = match p.gamma {
                Some(g) => g,
                None => numbers.ratio(8, 10),
            };
            assert(damping_of(numbers, config, gamma));
            Some(single(laguerre_rsi(numbers, close, gamma)))
        },
        IndicatorType::LinearRegression => Some(single(linear_regression(numbers, close, period))),
        IndicatorType::Momentum => Some(single(momentum(numbers, close, period))),
        IndicatorType::StdDev => Some(single(std_dev(numbers, close, period))),
        IndicatorType::Reflex => Some(single(reflex(numbers, close, period))),
        IndicatorType::UlcerIndex => Some(single(ulcer_index(numbers, close, period))),
        _ => None,
    }
}

/// The kinds that read closes alone.
pub open spec fn closes_only(kind: IndicatorType) -> bool {
    match kind {
        IndicatorType::SMA | IndicatorType::EMA | IndicatorType::RSI | IndicatorType::MACD
        | IndicatorType::BollingerBands | IndicatorType::ROC | IndicatorType::HullMA
        | IndicatorType::LaguerreRSI | IndicatorType::LinearRegression | IndicatorType::Momentum
        | IndicatorType::StdDev | IndicatorType::Reflex | IndicatorType::UlcerIndex => true,
        _ => false,
    }
}

/// The kinds with a single line that read highs, lows and closes.
pub open spec fn single_line(kind: IndicatorType) -> bool {
    match kind {
        IndicatorType::ATR | IndicatorType::ADX | IndicatorType::CCI | IndicatorType::WilliamsR
        | IndicatorType::ParabolicSAR | IndicatorType::VWAP | IndicatorType::AwesomeOscillator
        | IndicatorType::BarRange | IndicatorType::BiggestRange | IndicatorType::HighestInRange
        | IndicatorType::LowestInRange | IndicatorType::SmallestRange | IndicatorType::BearsPower
        | IndicatorType::BullsPower | IndicatorType::DeMarker | IndicatorType::GannHiLo
        | IndicatorType::SuperTrend | IndicatorType::TrueRange => true,
        _ => false,
    }
}

/// The single-line indicators on highs, lows and closes.
fn range_arrays<V: Copy, N: Numbers<V>>(numbers: &N, config: &IndicatorConfig<V>, columns: &PriceColumns<V>, Ghost(candles): Ghost<Seq<Candle<V>>>) -> (out: Option<IndicatorOutput<V>>)
    requires
        columns.of(candles),
    ensures
        out is Some ==> lines_made(numbers, config, candles, &out->Some_0),
        out is Some ==> arrays_of(config, candles.len() as int, &out->Some_0),
        out is None ==> !single_line(config.indicator_type),
{
    let high = &columns.high;
    let low = &columns.low;
    let close = &columns.close;
    let p = &config.params;
    let period: usize = param_or(p.period, 14);
    match config.indicator_type {
        IndicatorType::ATR => Some(single(atr(numbers, high, low, close, period))),
        IndicatorType::ADX => Some(single(adx(numbers, high, low, close, period))),
        IndicatorType::CCI => Some(single(cci(numbers, high, low, close, period))),
        IndicatorType::WilliamsR => Some(single(williams_r(numbers, high, low, close, period))),
        IndicatorType::ParabolicSAR => {
            let start: V = match p.acceleration_factor {
                Some(a) => a,
                None => numbers.ratio(2, 100),
            };
            let max: V = match p.maximum_factor {
                Some(a) => a,
                None => numbers.ratio(20, 100),
            };
            assert(stop_factors(numbers, config, start, max));
            Some(single(parabolic_sar(numbers, high, low, start, max)))
        },
        IndicatorType::VWAP => Some(single(vwap(numbers, high, low, close, &columns.volume, &columns.timestamps))),
        IndicatorType::AwesomeOscillator => Some(single(awesome_oscillator(numbers, high, low))),
        IndicatorType::BarRange => Some(single(bar_range(numbers, high, low))),
        IndicatorType::BiggestRange => Some(single(biggest_range(numbers, high, low, period))),
        IndicatorType::HighestInRange => Some(single(highest_in_range(numbers, high, period))),
        IndicatorType::LowestInRange => Some(single(lowest_in_range(numbers, low, period))),
        IndicatorType::SmallestRange => Some(single(smallest_range(numbers, high, low, period))),
        IndicatorType::BearsPower => Some(single(bears_power(numbers, low, close, period))),
        IndicatorType::BullsPower => Some(single(bulls_power(numbers, high, close, period))),
        IndicatorType::DeMarker => Some(single(demarker(numbers, high, low, period))),
        IndicatorType::GannHiLo => Some(single(gann_hilo(numbers, high, low, close, period))),
        IndicatorType::SuperTrend => {
            let width: V = match p.multiplier {
                Some(w) => w,
                None => numbers.from_int(3),
            };
            assert(trend_multiple(numbers, config, width));
            Some(single(supertrend(numbers, high, low, close, period, width)))
        },
        IndicatorType::TrueRange => Some(single(true_range(numbers, high, low, close))),
        _ => None,
    }
}

/// The indicators with several lines or with named outputs.
fn multi_arrays<V: Copy, N: Numbers<V>>(numbers: &N, config: &IndicatorConfig<V>, columns: &PriceColumns<V>, Ghost(candles): Ghost<Seq<Candle<V>>>) -> (out: IndicatorOutput<V>)
    requires
        columns.of(candles),
        !closes_only(config.indicator_type),
        !single_line(config.indicator_type),
    ensures
        lines_made(numbers, config, candles, &out),
        arrays_of(config, candles.len() as int, &out),
{
    let high = &columns.high;
    let low = &columns.low;
    let close = &columns.close;
    let p = &config.params;
    let period: usize = param_or(p.period, 14);
    match config.indicator_type {
        IndicatorType::Stochastic => {
            let r = stochastic(numbers, high, low, close, param_or(p.k_period, 14), param_or(p.d_period, 3));
            pair(r.0, r.1)
        },
        IndicatorType::Aroon => {
            let r = aroon(numbers, high, low, period);
            pair(r.0, r.1)
        },
        IndicatorType::Fibonacci => {
            let levels = fibonacci(numbers, high, low, period);
            assert(period > 0 ==> present_from(levels@[2].values@, period - 1));
            with_extra(levels, 2)
        },
        IndicatorType::Fractal => {
            let r = fractal(numbers, high, low);
            pair(r.0, r.1)
        },
        IndicatorType::HeikenAshi => {
            let r = heiken_ashi(numbers, &columns.open, high, low, close);
            pair(r.0, r.1)
        },
        IndicatorType::Ichimoku => with_extra(
            ichimoku(numbers, high, low, close, param_or(p.fast_period, 9), param_or(p.slow_period, 26), param_or(p.signal_period, 52)),
            0,
        ),
        IndicatorType::KeltnerChannel => {
            let width: V = match p.multiplier {
                Some(w) => w,
                None => numbers.ratio(15, 10),
            };
            assert(channel_multiple(numbers, config, width));
            let r = keltner_channel(numbers, high, low, close, period, width);
            triple(r.1, r.0, r.2)
        },
        IndicatorType::Pivots => with_extra(pivots(numbers, high, low, close, &columns.timestamps), 0),
        _ => {
            let r = vortex(numbers, high, low, close, period);
            pair(r.0, r.1)
        },
    }
}

/// Computes the arrays of an indicator. The line conventions are: MACD has
/// line, signal, histogram; Bollinger and Keltner have middle, upper,
/// lower; Stochastic has %K, %D; Aroon has up, down; Vortex has VI+, VI-;
/// Fractal has up, down; Heiken Ashi has close, open. The primary line of
/// Fibonacci is the 50% level, of Ichimoku the conversion line, of the
/// pivots the pivot itself. A parameter that is not set counts with its
/// default.
///
/// Whatever the arithmetic yields, the output is as `arrays_of` has it.
pub fn compute_arrays<V: Copy, N: Numbers<V>>(numbers: &N, config: &IndicatorConfig<V>, candles: &Vec<Candle<V>>) -> (out: IndicatorOutput<V>)
    ensures
        lines_made(numbers, config, candles@, &out),
        arrays_of(config, candles@.len() as int, &out),
{
    let columns = price_columns(candles);
    if let Some(out) = close_arrays(numbers, config, &columns, Ghost(candles@)) {
        return out;
    }
    if let Some(out) = range_arrays(numbers, config, &columns, Ghost(candles@)) {
        return out;
    }
    multi_arrays(numbers, config, &columns, Ghost(candles@))
}

/// The number of bars that `config` needs, with defaults in the place of
/// parameters that are not set.
pub open spec fn bars_needed_or_default<V>(config: &IndicatorConfig<V>) -> int {
    match demand_of(config.indicator_type) {
        Demand::Bars(n) => n,
        Demand::Period { scale, extra } => scale * or_else(config.params.period, 14) + extra,
        Demand::Macd => or_else(config.params.slow_period, 26),
        Demand::Stochastic => or_else(config.params.k_period, 14),
        Demand::Ichimoku => or_else(config.params.signal_period, 52) + or_else(config.params.slow_period, 26),
    }
}

/// Computes an indicator from candle data. The configuration is validated
/// first: without candles, with a required parameter missing or with too few
/// candles for the warm-up, nothing is computed and the error says which.
///
/// Whatever the arithmetic yields: the result is an error exactly when the
/// validation fails, and then it is the error of the validation; an output
/// is as `compute_arrays` has it.
pub fn compute_indicator<V: Copy, N: Numbers<V>>(numbers: &N, config: &IndicatorConfig<V>, candles: &Vec<Candle<V>>) -> (r: Result<IndicatorOutput<V>, AppError>)
    ensures
        r is Err <==> !validation_of(config, candles@.len() as usize, Ok::<(), AppError>(())),
        r is Err ==> validation_of(config, candles@.len() as usize, Err::<(), AppError>(r->Err_0)),
        r is Ok ==> lines_made(numbers, config, candles@, &r->Ok_0),
        r is Ok ==> arrays_of(config, candles@.len() as int, &r->Ok_0),
        r is Ok && settles(config.indicator_type) && periods_positive(config) ==> present_from(r->Ok_0.primary@, primary_warmup(config)),
{
    match validate_indicator(config, candles.len()) {
        Err(e) => Err(e),
        Ok(()) => Ok(compute_arrays(numbers, config, candles)),
    }
}

} // verus!
