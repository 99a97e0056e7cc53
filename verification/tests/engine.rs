use std::sync::atomic::AtomicBool;

use backtest_core::engine::executor::{
    book_trade, close_position, compute_atr_if_needed, entry_direction, find_subbar_range,
    format_duration_bars, is_within_trading_hours, open_position, process_subbars_candle,
    process_subbars_tick_columnar, progress_percent, record_equity, run_backtest,
    should_close_at_time, Ledger, SubBarData,
};
use backtest_core::engine::indicators::{
    check_data_len, compute_indicator, require_period, validate_indicator, IndicatorOutput,
    NamedSeries,
};
use backtest_core::engine::metrics::{
    calculate_consecutive, calculate_drawdown_stats, calculate_metrics, calculate_sharpe,
    calculate_stagnation_bars, count_consecutive, format_bars, longest_stagnation,
};
use backtest_core::columns::tick_columns_from_ohlcv_with_spread;
use backtest_core::engine::numeric::{Comparison, Numbers, Relation};
use backtest_core::engine::orders::{
    apply_entry_costs, apply_exit_costs, calculate_commission, calculate_pnl, calculate_pnl_pips,
};
use backtest_core::engine::position::{
    calculate_lots, calculate_stop_loss, calculate_take_profit, calculate_trailing_stop_distance,
    check_sl_tp_hit, check_tick_sl_tp, stop_fill, update_mae_mfe, update_trailing_stop,
    OpenPosition, StopFill,
};
use backtest_core::engine::strategy::{
    atr_period_needed, bar_clock, compute_candle_pattern_cache, compute_daily_ohlc,
    compute_time_cache, day_of_week, decide_rule, evaluate_rules, get_indicator_value,
    is_doji, is_engulfing, is_hammer, is_reversal,
    max_lookback, pre_compute_indicators, resolve_index, resolve_operand,
    strategy_uses_candle_patterns, strategy_uses_time_fields, IndicatorCache,
};
use backtest_core::errors::AppError;
use backtest_core::models::candle::{Candle, TickColumns};
use backtest_core::models::config::{InstrumentConfig, Timeframe};
use backtest_core::models::result::{BacktestMetrics, EquityPoint};
use backtest_core::models::strategy::{
    BacktestConfig, BacktestPrecision, CandlePatternType, CloseTradesAt, CommissionType,
    Comparator, IndicatorConfig, IndicatorParams, IndicatorType, LogicalOperator, Operand,
    OperandType, PositionSizing, PositionSizingType, PriceField, Rule, StopLoss, StopLossType,
    Strategy, TakeProfit, TakeProfitType, TimeField, TradeDirection, TradingCosts, TradingHours,
    TrailingStop, TrailingStopType,
};
use backtest_core::models::trade::{CloseReason, TradeResult};
use backtest_core::timestamp::parse_datetime_to_micros;

// ── Doubles: the arithmetic on f64 that the engine is handed ──

struct F64;

impl Numbers<f64> for F64 {
    fn compare(&self, left: f64, right: f64) -> Comparison {
        let relation = if left < right {
            Relation::Less
        } else if left > right {
            Relation::Greater
        } else if left == right {
            Relation::Equal
        } else {
            Relation::Unordered
        };
        Comparison { relation, close: (left - right).abs() < f64::EPSILON }
    }

    fn add(&self, left: f64, right: f64) -> f64 {
        left + right
    }

    fn sub(&self, left: f64, right: f64) -> f64 {
        left - right
    }

    fn mul(&self, left: f64, right: f64) -> f64 {
        left * right
    }

    fn div(&self, left: f64, right: f64) -> f64 {
        left / right
    }

    fn distance(&self, left: f64, right: f64) -> f64 {
        (left - right).abs()
    }

    fn neg(&self, value: f64) -> f64 {
        -value
    }

    fn max(&self, left: f64, right: f64) -> f64 {
        left.max(right)
    }

    fn min(&self, left: f64, right: f64) -> f64 {
        left.min(right)
    }

    fn sqrt(&self, value: f64) -> f64 {
        value.sqrt()
    }

    fn floor(&self, value: f64) -> f64 {
        value.floor()
    }

    fn powf(&self, base: f64, exponent: f64) -> f64 {
        base.powf(exponent)
    }

    fn exp(&self, value: f64) -> f64 {
        value.exp()
    }

    fn cos(&self, value: f64) -> f64 {
        value.cos()
    }

    fn pi(&self) -> f64 {
        std::f64::consts::PI
    }

    fn from_int(&self, value: i64) -> f64 {
        value as f64
    }

    fn ratio(&self, numerator: i64, denominator: i64) -> f64 {
        numerator as f64 / denominator as f64
    }

    fn fixed(&self, value: f64, decimals: u8) -> String {
        format!("{:.*}", decimals as usize, value)
    }

    fn rounded(&self, value: f64) -> u64 {
        value.round() as u64
    }

    fn order_key(&self, value: f64) -> i64 {
        if value.is_nan() {
            return i64::MIN;
        }
        let bits = (value + 0.0).to_bits() as i64;
        bits ^ ((((bits >> 63) as u64) >> 1) as i64)
    }

    fn highest(&self) -> f64 {
        f64::INFINITY
    }

    fn lowest(&self) -> f64 {
        f64::NEG_INFINITY
    }

    fn random_unit(&self) -> f64 {
        0.5
    }
}

// ── Builders ──

fn candle_at(datetime: &str, open: f64, high: f64, low: f64, close: f64) -> Candle<f64> {
    Candle {
        timestamp: parse_datetime_to_micros(datetime),
        datetime: datetime.to_string(),
        open,
        high,
        low,
        close,
        volume: 1000.0,
    }
}

fn make_candles(prices: &[f64]) -> Vec<Candle<f64>> {
    prices
        .iter()
        .enumerate()
        .map(|(i, &p)| candle_at(&format!("2024-01-{:02} 00:00", (i % 28) + 1), p - 0.5, p + 1.0, p - 1.0, p))
        .collect()
}

fn operand(operand_type: OperandType) -> Operand<f64> {
    Operand {
        operand_type,
        indicator: None,
        price_field: None,
        constant_value: None,
        time_field: None,
        candle_pattern: None,
        offset: None,
    }
}

fn indicator_operand(indicator_type: IndicatorType, period: usize) -> Operand<f64> {
    let mut params = IndicatorParams::empty();
    params.period = Some(period);
    let mut o = operand(OperandType::Indicator);
    o.indicator = Some(IndicatorConfig { indicator_type, params, output_field: None });
    o
}

fn constant_operand(value: f64) -> Operand<f64> {
    let mut o = operand(OperandType::Constant);
    o.constant_value = Some(value);
    o
}

fn price_operand(field: PriceField) -> Operand<f64> {
    let mut o = operand(OperandType::Price);
    o.price_field = Some(field);
    o
}

fn rule(left: Operand<f64>, comparator: Comparator, right: Operand<f64>, next: Option<LogicalOperator>) -> Rule<f64> {
    Rule { id: "r1".to_string(), left_operand: left, comparator, right_operand: right, logical_operator: next }
}

fn strategy_with(long_entry_rules: Vec<Rule<f64>>) -> Strategy<f64> {
    Strategy {
        id: "strategy-1".to_string(),
        name: "test".to_string(),
        created_at: String::new(),
        updated_at: String::new(),
        long_entry_rules,
        short_entry_rules: vec![],
        long_exit_rules: vec![],
        short_exit_rules: vec![],
        position_sizing: PositionSizing { sizing_type: PositionSizingType::FixedLots, value: 1.0 },
        stop_loss: None,
        take_profit: None,
        trailing_stop: None,
        trading_costs: TradingCosts {
            spread_pips: 0.0,
            commission_type: CommissionType::FixedPerLot,
            commission_value: 0.0,
            slippage_pips: 0.0,
            slippage_random: false,
        },
        trade_direction: TradeDirection::Both,
        trading_hours: None,
        max_daily_trades: None,
        close_trades_at: None,
    }
}

fn config() -> BacktestConfig<f64> {
    BacktestConfig {
        symbol_id: "sym".to_string(),
        timeframe: Timeframe::H1,
        start_date: String::new(),
        end_date: String::new(),
        initial_capital: 10_000.0,
        leverage: 1.0,
        precision: BacktestPrecision::SelectedTfOnly,
    }
}

fn forex() -> InstrumentConfig<f64> {
    InstrumentConfig { pip_size: 0.0001, pip_value: 10.0, lot_size: 100_000.0, min_lot: 0.01, tick_size: 0.00001, digits: 5 }
}

fn long_position(entry: f64, stop_loss: Option<f64>, take_profit: Option<f64>) -> OpenPosition<f64> {
    OpenPosition {
        direction: TradeDirection::Long,
        entry_price: entry,
        entry_bar: 0,
        entry_time: "2024-01-01 00:00".to_string(),
        entry_timestamp: parse_datetime_to_micros("2024-01-01 00:00"),
        lots: 1.0,
        stop_loss,
        take_profit,
        trailing_stop_distance: None,
        highest_since_entry: entry,
        lowest_since_entry: entry,
        mae_pips: 0.0,
        mfe_pips: 0.0,
    }
}

fn make_trade(pnl: f64, duration_bars: usize) -> TradeResult<f64> {
    TradeResult {
        id: "t1".to_string(),
        direction: TradeDirection::Long,
        entry_time: "2024-01-01 00:00".to_string(),
        entry_timestamp: 0,
        entry_price: 1.1000,
        exit_time: "2024-01-01 01:00".to_string(),
        exit_timestamp: 3_600_000_000,
        exit_price: if pnl > 0.0 { 1.1050 } else { 1.0950 },
        lots: 1.0,
        pnl,
        pnl_pips: pnl / 10.0,
        commission: 0.0,
        close_reason: CloseReason::Signal,
        duration_bars,
        duration_time: format_bars(duration_bars, 1),
        mae: 5.0,
        mfe: 10.0,
    }
}

fn run(
    candles: &Vec<Candle<f64>>,
    sub_bars: &SubBarData<f64>,
    strategy: &Strategy<f64>,
) -> Result<backtest_core::models::result::BacktestResults<f64>, AppError> {
    let flag = AtomicBool::new(false);
    run_backtest(candles, sub_bars, strategy, &config(), &forex(), &F64, &flag, |_, _, _| {})
}

/// Closes of 10, 12, 14, 16, 18 with the rule "close crosses above 13".
fn cross_above_13() -> (Vec<Candle<f64>>, Strategy<f64>) {
    let candles = make_candles(&[10.0, 12.0, 14.0, 16.0, 18.0]);
    let strategy = strategy_with(vec![rule(
        price_operand(PriceField::Close),
        Comparator::CrossAbove,
        constant_operand(13.0),
        None,
    )]);
    (candles, strategy)
}

// ── Rules ──

#[test]
fn test_evaluate_greater_than() {
    let candles = make_candles(&[10.0, 20.0, 30.0]);
    let rules = vec![rule(price_operand(PriceField::Close), Comparator::GreaterThan, constant_operand(15.0), None)];
    let cache = IndicatorCache::new();
    assert!(!evaluate_rules(&F64, &rules, 0, &cache, &candles, None, None, None, 0));
    assert!(evaluate_rules(&F64, &rules, 1, &cache, &candles, None, None, None, 0));
}

#[test]
fn test_evaluate_cross_above() {
    let candles = make_candles(&[10.0, 12.0, 14.0, 16.0, 18.0]);
    let strategy = strategy_with(vec![rule(
        indicator_operand(IndicatorType::SMA, 3),
        Comparator::CrossAbove,
        constant_operand(13.0),
        None,
    )]);
    let cache = pre_compute_indicators(&F64, &strategy, &candles).unwrap();
    assert!(evaluate_rules(&F64, &strategy.long_entry_rules, 3, &cache, &candles, None, None, None, 0));
    assert!(!evaluate_rules(&F64, &strategy.long_entry_rules, 4, &cache, &candles, None, None, None, 0));
}

#[test]
fn test_evaluate_and_logic() {
    let candles = make_candles(&[50.0]);
    let rules = vec![
        rule(price_operand(PriceField::Close), Comparator::GreaterThan, constant_operand(40.0), Some(LogicalOperator::And)),
        rule(price_operand(PriceField::Close), Comparator::LessThan, constant_operand(60.0), None),
    ];
    let cache = IndicatorCache::new();
    assert!(evaluate_rules(&F64, &rules, 0, &cache, &candles, None, None, None, 0));
}

#[test]
fn test_evaluate_or_logic() {
    let candles = make_candles(&[50.0]);
    let rules = vec![
        rule(price_operand(PriceField::Close), Comparator::GreaterThan, constant_operand(100.0), Some(LogicalOperator::Or)),
        rule(price_operand(PriceField::Close), Comparator::LessThan, constant_operand(60.0), None),
    ];
    let cache = IndicatorCache::new();
    assert!(evaluate_rules(&F64, &rules, 0, &cache, &candles, None, None, None, 0));
}

#[test]
fn test_operand_with_offset() {
    let candles = make_candles(&[10.0, 20.0, 30.0]);
    let mut earlier = price_operand(PriceField::Close);
    earlier.offset = Some(1);
    let rules = vec![rule(price_operand(PriceField::Close), Comparator::GreaterThan, earlier, None)];
    let cache = IndicatorCache::new();
    assert!(evaluate_rules(&F64, &rules, 2, &cache, &candles, None, None, None, 0));
    assert!(!evaluate_rules(&F64, &rules, 0, &cache, &candles, None, None, None, 0));
}

#[test]
fn test_candle_pattern_doji() {
    let candles = vec![
        candle_at("2024-01-01 00:00", 100.0, 102.0, 98.0, 101.0),
        candle_at("2024-01-01 01:00", 100.0, 105.0, 95.0, 100.05),
        candle_at("2024-01-01 02:00", 100.0, 102.0, 98.0, 101.0),
    ];
    let pc = compute_candle_pattern_cache(&F64, &candles);
    assert_eq!(pc.doji[1], 1.0);
    assert_eq!(pc.doji[0], 0.0);
    assert_eq!(pc.doji[2], 0.0);

    let mut left = operand(OperandType::CandlePattern);
    left.candle_pattern = Some(CandlePatternType::Doji);
    let rules = vec![rule(left, Comparator::Equal, constant_operand(1.0), None)];
    let cache = IndicatorCache::new();
    assert!(evaluate_rules(&F64, &rules, 1, &cache, &candles, None, None, Some(&pc), 0));
    assert!(!evaluate_rules(&F64, &rules, 0, &cache, &candles, None, None, Some(&pc), 0));
}

#[test]
fn test_candle_pattern_bullish_engulfing() {
    let candles = vec![
        candle_at("2024-01-01 00:00", 102.0, 103.0, 99.0, 100.0),
        candle_at("2024-01-01 01:00", 99.0, 104.0, 98.0, 103.0),
    ];
    let pc = compute_candle_pattern_cache(&F64, &candles);
    assert_eq!(pc.bullish_engulfing[1], 1.0);
    assert_eq!(pc.bullish_engulfing[0], 0.0);
    assert_eq!(pc.bearish_engulfing[1], 0.0);

    let mut left = operand(OperandType::CandlePattern);
    left.candle_pattern = Some(CandlePatternType::BullishEngulfing);
    let rules = vec![rule(left, Comparator::Equal, constant_operand(1.0), None)];
    let cache = IndicatorCache::new();
    assert!(evaluate_rules(&F64, &rules, 1, &cache, &candles, None, None, Some(&pc), 0));
    assert!(!evaluate_rules(&F64, &rules, 0, &cache, &candles, None, None, Some(&pc), 0));
}

#[test]
fn rule_on_missing_value_is_false() {
    let candles = make_candles(&[10.0, 20.0]);
    let mut no_number = constant_operand(f64::NAN);
    no_number.offset = None;
    for comparator in [
        Comparator::GreaterThan,
        Comparator::LessThan,
        Comparator::GreaterOrEqual,
        Comparator::LessOrEqual,
        Comparator::Equal,
        Comparator::CrossAbove,
        Comparator::CrossBelow,
    ] {
        let rules = vec![rule(price_operand(PriceField::Close), comparator, constant_operand(f64::NAN), None)];
        assert!(!evaluate_rules(&F64, &rules, 1, &IndicatorCache::new(), &candles, None, None, None, 0));
    }
    assert!(!evaluate_rules(&F64, &Vec::new(), 1, &IndicatorCache::new(), &candles, None, None, None, 0));
}

#[test]
fn rule_truth_table() {
    let gt = Comparison { relation: Relation::Greater, close: false };
    let le = Comparison { relation: Relation::Less, close: false };
    let eq = Comparison { relation: Relation::Equal, close: true };
    assert!(decide_rule(Comparator::CrossAbove, Some(gt), Some(le)));
    assert!(decide_rule(Comparator::CrossAbove, Some(gt), Some(eq)));
    assert!(!decide_rule(Comparator::CrossAbove, Some(gt), Some(gt)));
    assert!(!decide_rule(Comparator::CrossAbove, Some(gt), None));
    assert!(decide_rule(Comparator::CrossBelow, Some(le), Some(gt)));
    assert!(!decide_rule(Comparator::CrossBelow, Some(le), Some(le)));
    assert!(decide_rule(Comparator::GreaterOrEqual, Some(eq), None));
    assert!(decide_rule(Comparator::Equal, Some(eq), None));
    assert!(!decide_rule(Comparator::Equal, Some(gt), None));
    assert!(!decide_rule(Comparator::Equal, None, None));
}

#[test]
fn operand_index_resolution() {
    assert_eq!(resolve_index(OperandType::Price, Some(1), 2, 1, 5), Some(1));
    assert_eq!(resolve_index(OperandType::BarTime, Some(1), 2, 1, 5), Some(2));
    assert_eq!(resolve_index(OperandType::Price, Some(3), 2, 0, 5), None);
    assert_eq!(resolve_index(OperandType::BarTime, None, 4, 1, 5), None);
    assert_eq!(resolve_index(OperandType::Constant, None, 5, 0, 5), None);
}

#[test]
fn output_selector_picks_line() {
    let output = IndicatorOutput {
        primary: vec![Some(1.0)],
        secondary: Some(vec![Some(2.0)]),
        tertiary: Some(vec![None]),
        extra: Some(vec![NamedSeries { name: "kijun".to_string(), values: vec![Some(4.0)] }]),
    };
    let pick = |field: Option<&str>| {
        let config = IndicatorConfig {
            indicator_type: IndicatorType::MACD,
            params: IndicatorParams::empty(),
            output_field: field.map(|f| f.to_string()),
        };
        get_indicator_value(&output, &config, 0)
    };
    assert_eq!(pick(None), Some(1.0));
    assert_eq!(pick(Some("middle")), Some(1.0));
    assert_eq!(pick(Some("signal")), Some(2.0));
    assert_eq!(pick(Some("upper")), Some(2.0));
    assert_eq!(pick(Some("histogram")), None);
    assert_eq!(pick(Some("lower")), None);
    assert_eq!(pick(Some("kijun")), Some(4.0));
    let config = IndicatorConfig { indicator_type: IndicatorType::SMA, params: IndicatorParams::empty(), output_field: None };
    assert_eq!(get_indicator_value(&output, &config, 1), None);
}

// ── Indicators: validation, cache keys, lookback ──

#[test]
fn test_compute_indicator_dispatches() {
    let candles: Vec<Candle<f64>> = (0..30)
        .map(|i| {
            candle_at(
                &format!("2024-01-{:02} 00:00", (i % 28) + 1),
                100.0 + i as f64,
                101.0 + i as f64,
                99.0 + i as f64,
                100.5 + i as f64,
            )
        })
        .collect();
    let mut params = IndicatorParams::empty();
    params.period = Some(10);
    let config = IndicatorConfig { indicator_type: IndicatorType::SMA, params, output_field: None };
    let output = compute_indicator(&F64, &config, &candles).unwrap();
    assert_eq!(output.primary.len(), 30);
    assert!(output.primary[9].unwrap().is_finite());
    assert!(output.secondary.is_none());
}

#[test]
fn indicator_validation_errors() {
    let with_period = |kind: IndicatorType, period: Option<usize>| {
        let mut params: IndicatorParams<f64> = IndicatorParams::empty();
        params.period = period;
        IndicatorConfig { indicator_type: kind, params, output_field: None }
    };
    match validate_indicator(&with_period(IndicatorType::SMA, Some(3)), 0) {
        Err(AppError::InsufficientData { needed, available }) => assert_eq!((needed, available), (1, 0)),
        _ => panic!("no data must be insufficient"),
    }
    match validate_indicator(&with_period(IndicatorType::RSI, None), 10) {
        Err(AppError::InvalidIndicatorParams(m)) => assert_eq!(m, "period parameter is required"),
        _ => panic!("missing period must be refused"),
    }
    match validate_indicator(&with_period(IndicatorType::ADX, Some(14)), 28) {
        Err(AppError::InsufficientData { needed, available }) => assert_eq!((needed, available), (29, 28)),
        _ => panic!("ADX(14) needs 29 bars"),
    }
    assert!(validate_indicator(&with_period(IndicatorType::ADX, Some(14)), 29).is_ok());
    assert!(validate_indicator(&with_period(IndicatorType::TrueRange, None), 1).is_ok());
    match validate_indicator(&with_period(IndicatorType::MACD, None), 50) {
        Err(AppError::InvalidIndicatorParams(m)) => assert_eq!(m, "MACD requires fast_period"),
        _ => panic!("MACD without periods must be refused"),
    }
    match validate_indicator(&with_period(IndicatorType::Ichimoku, None), 77) {
        Err(AppError::InsufficientData { needed, .. }) => assert_eq!(needed, 78),
        _ => panic!("Ichimoku needs 78 bars by default"),
    }
    assert!(check_data_len(5, 5).is_ok());
    assert!(check_data_len(4, 5).is_err());
    assert_eq!(require_period(&with_period(IndicatorType::SMA, Some(7)).params).unwrap(), 7);
    match compute_indicator(&F64, &with_period(IndicatorType::SMA, Some(6)), &make_candles(&[1.0, 2.0])) {
        Err(AppError::InsufficientData { needed, available }) => assert_eq!((needed, available), (6, 2)),
        _ => panic!("too few candles must not be computed"),
    }
}

#[test]
fn cache_key_leaves_selector_out() {
    let mut params = IndicatorParams::empty();
    params.period = Some(20);
    params.std_dev = Some(2.0);
    let upper = IndicatorConfig { indicator_type: IndicatorType::BollingerBands, params: params.clone(), output_field: Some("upper".to_string()) };
    let lower = IndicatorConfig { indicator_type: IndicatorType::BollingerBands, params, output_field: Some("lower".to_string()) };
    assert_eq!(upper.cache_key(&F64), "BollingerBands_p20_sd2.00");
    assert_eq!(upper.cache_key(&F64), lower.cache_key(&F64));

    let mut sar = IndicatorParams::empty();
    sar.acceleration_factor = Some(0.02);
    sar.maximum_factor = Some(0.2);
    let config = IndicatorConfig { indicator_type: IndicatorType::ParabolicSAR, params: sar, output_field: None };
    assert_eq!(config.cache_key(&F64), "ParabolicSAR_af0.0200_mf0.2000");
}

#[test]
fn indicators_are_computed_once() {
    let mut upper = indicator_operand(IndicatorType::BollingerBands, 20);
    upper.indicator.as_mut().unwrap().output_field = Some("upper".to_string());
    let mut lower = indicator_operand(IndicatorType::BollingerBands, 20);
    lower.indicator.as_mut().unwrap().output_field = Some("lower".to_string());
    let mut strategy = strategy_with(vec![
        rule(price_operand(PriceField::Close), Comparator::GreaterThan, upper, None),
        rule(indicator_operand(IndicatorType::SMA, 5), Comparator::GreaterThan, constant_operand(1.0), None),
    ]);
    strategy.long_exit_rules = vec![rule(price_operand(PriceField::Close), Comparator::LessThan, lower, None)];
    let prices: Vec<f64> = (0..40).map(|i| i as f64).collect();
    let cache = pre_compute_indicators(&F64, &strategy, &make_candles(&prices)).unwrap();
    assert_eq!(cache.entries.len(), 2);
    assert_eq!(cache.entries[0].key, "BollingerBands_p20");
    assert_eq!(cache.entries[1].key, "SMA_p5");
}

#[test]
fn lookback_is_largest_operand_plus_one() {
    let (_, plain) = cross_above_13();
    assert_eq!(max_lookback(&plain), 1);
    let mut late = indicator_operand(IndicatorType::ADX, 14);
    late.offset = Some(2);
    let strategy = strategy_with(vec![
        rule(indicator_operand(IndicatorType::SMA, 3), Comparator::GreaterThan, constant_operand(1.0), None),
        rule(late, Comparator::GreaterThan, constant_operand(1.0), None),
    ]);
    assert_eq!(max_lookback(&strategy), 32);
}

#[test]
fn strategy_scans() {
    let (_, plain) = cross_above_13();
    assert!(!strategy_uses_time_fields(&plain));
    assert!(!strategy_uses_candle_patterns(&plain));
    let mut hour = operand(OperandType::BarTime);
    hour.time_field = Some(TimeField::BarHour);
    let mut timed = strategy_with(vec![]);
    timed.short_exit_rules = vec![rule(hour, Comparator::GreaterThan, constant_operand(8.0), None)];
    assert!(strategy_uses_time_fields(&timed));

    let mut risk = strategy_with(vec![]);
    assert_eq!(atr_period_needed(&risk), None);
    risk.stop_loss = Some(StopLoss { sl_type: StopLossType::Pips, value: 10.0, atr_period: Some(5) });
    risk.take_profit = Some(TakeProfit { tp_type: TakeProfitType::ATR, value: 2.0, atr_period: Some(21) });
    risk.trailing_stop = Some(TrailingStop { ts_type: TrailingStopType::ATR, value: 2.0, atr_period: Some(7) });
    assert_eq!(atr_period_needed(&risk), Some(21));
}

#[test]
fn bar_clock_and_weekday() {
    let clock = bar_clock(parse_datetime_to_micros("2024-03-15 13:45:10"));
    assert_eq!((clock.hour, clock.minute, clock.time), (13, 45, 825));
    assert_eq!(clock.month, 3);
    assert_eq!(clock.day_of_week, 5);
    assert_eq!(day_of_week(2024, 3, 15), 5);
    assert_eq!(day_of_week(1970, 1, 1), 4);
    assert_eq!(day_of_week(2000, 2, 29), 2);
    assert_eq!(bar_clock(-1).day_of_week, 3);
    assert_eq!(bar_clock(-1).hour, 23);

    let candles = vec![candle_at("2024-03-15 13:45", 1.0, 1.0, 1.0, 1.0)];
    let cache = compute_time_cache(&F64, &candles);
    assert_eq!(cache.bar_hour, vec![13.0]);
    assert_eq!(cache.bar_time, vec![825.0]);
    assert_eq!(cache.current_bar, vec![0.0]);
}

#[test]
fn daily_levels_restart_each_day() {
    let candles = vec![
        candle_at("2024-01-01 22:00", 10.0, 12.0, 9.0, 11.0),
        candle_at("2024-01-01 23:00", 11.0, 15.0, 10.0, 14.0),
        candle_at("2024-01-02 00:00", 14.0, 14.5, 13.0, 13.5),
        candle_at("2024-01-02 01:00", 13.5, 14.0, 12.0, 12.5),
    ];
    let cache = compute_daily_ohlc(&F64, &candles);
    assert_eq!(cache.daily_open, vec![10.0, 10.0, 14.0, 14.0]);
    assert_eq!(cache.daily_high, vec![12.0, 15.0, 14.5, 14.5]);
    assert_eq!(cache.daily_low, vec![9.0, 9.0, 13.0, 12.0]);
    assert_eq!(cache.daily_close, vec![None, None, Some(14.0), Some(14.0)]);
}

// ── Position ──

#[test]
fn stop_loss_gap_through_fills_at_open() {
    let pos = long_position(1.1000, Some(1.0950), None);
    let bar = candle_at("2024-01-01 01:00", 1.0900, 1.0950, 1.0850, 1.0920);
    assert_eq!(check_sl_tp_hit(&F64, &pos, &bar), Some((1.0900, CloseReason::StopLoss)));
    let pips = (1.0900_f64 - 1.1000) / 0.0001;
    assert!((pips - (-100.0)).abs() < 1e-6);
}

#[test]
fn stop_loss_within_bar_fills_at_level() {
    let pos = long_position(1.1000, Some(1.0950), None);
    let bar = candle_at("2024-01-01 01:00", 1.0990, 1.1000, 1.0940, 1.0960);
    assert_eq!(check_sl_tp_hit(&F64, &pos, &bar), Some((1.0950, CloseReason::StopLoss)));
    assert_eq!(stop_fill(TradeDirection::Short, Relation::Greater, Relation::Less), StopFill::AtLevel);
    assert_eq!(stop_fill(TradeDirection::Short, Relation::Greater, Relation::Greater), StopFill::AtOpen);
    assert_eq!(stop_fill(TradeDirection::Long, Relation::Greater, Relation::Greater), StopFill::Untouched);
}

#[test]
fn take_profit_fills_at_limit() {
    let pos = long_position(1.1000, None, Some(1.1050));
    let bar = candle_at("2024-01-01 01:00", 1.1040, 1.1080, 1.1030, 1.1060);
    assert_eq!(check_sl_tp_hit(&F64, &pos, &bar), Some((1.1050, CloseReason::TakeProfit)));
}

#[test]
fn level_closer_to_open_wins() {
    let pos = long_position(1.1000, Some(1.0950), Some(1.1050));
    let near_stop = candle_at("2024-01-01 01:00", 1.0960, 1.1060, 1.0940, 1.1000);
    assert_eq!(check_sl_tp_hit(&F64, &pos, &near_stop), Some((1.0950, CloseReason::StopLoss)));
    let near_target = candle_at("2024-01-01 01:00", 1.1040, 1.1060, 1.0940, 1.1000);
    assert_eq!(check_sl_tp_hit(&F64, &pos, &near_target), Some((1.1050, CloseReason::TakeProfit)));
    let untouched = candle_at("2024-01-01 01:00", 1.1000, 1.1010, 1.0990, 1.1000);
    assert_eq!(check_sl_tp_hit(&F64, &pos, &untouched), None);
}

#[test]
fn tick_exit_puts_stop_first() {
    let mut pos = long_position(1.1000, Some(1.0950), Some(1.0940));
    assert_eq!(check_tick_sl_tp(&F64, &pos, 1.0945, 1.0947), Some((1.0945, CloseReason::StopLoss)));
    pos.direction = TradeDirection::Short;
    pos.stop_loss = Some(1.1050);
    pos.take_profit = Some(1.0950);
    assert_eq!(check_tick_sl_tp(&F64, &pos, 1.0940, 1.0945), Some((1.0950, CloseReason::TakeProfit)));
    assert_eq!(check_tick_sl_tp(&F64, &pos, 1.1049, 1.1051), Some((1.1051, CloseReason::StopLoss)));
    assert_eq!(check_tick_sl_tp(&F64, &pos, 1.1000, 1.1001), None);
}

#[test]
fn trailing_stop_only_tightens() {
    let mut pos = long_position(100.0, Some(95.0), None);
    pos.trailing_stop_distance = Some(3.0);
    update_trailing_stop(&F64, &mut pos, &candle_at("2024-01-01 01:00", 100.0, 104.0, 99.0, 103.0));
    assert_eq!((pos.highest_since_entry, pos.stop_loss), (104.0, Some(101.0)));
    update_trailing_stop(&F64, &mut pos, &candle_at("2024-01-01 02:00", 103.0, 103.5, 90.0, 91.0));
    assert_eq!((pos.highest_since_entry, pos.stop_loss), (104.0, Some(101.0)));

    let mut short = long_position(100.0, Some(101.0), None);
    short.direction = TradeDirection::Short;
    short.trailing_stop_distance = Some(3.0);
    update_trailing_stop(&F64, &mut short, &candle_at("2024-01-01 01:00", 100.0, 100.5, 99.0, 99.5));
    assert_eq!((short.lowest_since_entry, short.stop_loss), (99.0, Some(101.0)));
    update_trailing_stop(&F64, &mut short, &candle_at("2024-01-01 02:00", 99.0, 99.5, 96.0, 97.0));
    assert_eq!((short.lowest_since_entry, short.stop_loss), (96.0, Some(99.0)));
}

#[test]
fn excursions_only_grow() {
    let mut pos = long_position(1.1000, None, None);
    update_mae_mfe(&F64, &mut pos, &candle_at("2024-01-01 01:00", 1.1, 1.1020, 1.0990, 1.1), &forex());
    assert!((pos.mae_pips - 10.0).abs() < 1e-6 && (pos.mfe_pips - 20.0).abs() < 1e-6);
    update_mae_mfe(&F64, &mut pos, &candle_at("2024-01-01 02:00", 1.1, 1.1010, 1.0995, 1.1), &forex());
    assert!((pos.mae_pips - 10.0).abs() < 1e-6 && (pos.mfe_pips - 20.0).abs() < 1e-6);
}

// ── Sub-bars ──

#[test]
fn subbar_cursor_only_advances() {
    let day = 86_400_000_000_i64;
    let ticks = TickColumns {
        timestamps: vec![0, 10, day, day + 5, day + 9, 2 * day, 2 * day + 1],
        bids: vec![1.0; 7],
        asks: vec![1.1; 7],
    };
    assert_eq!(ticks.len(), 7);
    let sub = SubBarData::Ticks(ticks);
    let mut cursor = 0usize;
    assert_eq!(find_subbar_range(&sub, &mut cursor, day, 2 * day), (2, 5));
    assert_eq!(cursor, 5);
    assert_eq!(find_subbar_range(&sub, &mut cursor, 2 * day, i64::MAX), (5, 7));
    assert_eq!(cursor, 7);
    assert_eq!(find_subbar_range(&sub, &mut cursor, 3 * day, i64::MAX), (7, 7));
    let mut idle = 3usize;
    assert_eq!(find_subbar_range(&SubBarData::<f64>::Absent, &mut idle, day, 2 * day), (0, 0));
    assert_eq!(idle, 3);
}

#[test]
fn tick_walk_reports_exit_time() {
    let start = parse_datetime_to_micros("2024-01-01 00:00:00");
    let ticks = TickColumns {
        timestamps: vec![start, start + 250_000, start + 500_000],
        bids: vec![1.0995, 1.0960, 1.0940],
        asks: vec![1.0997, 1.0962, 1.0942],
    };
    let mut pos = long_position(1.1000, Some(1.0950), None);
    let hit = process_subbars_tick_columnar(&F64, &mut pos, &ticks, 0, 3, &forex()).unwrap();
    assert_eq!(hit.price, 1.0940);
    assert_eq!(hit.reason, CloseReason::StopLoss);
    assert_eq!(hit.timestamp, start + 500_000);
    assert_eq!(hit.time, "2024-01-01 00:00:00.500000");
    assert!((pos.mae_pips - 60.0).abs() < 1e-6);
    let mut calm = long_position(1.1000, Some(1.0950), None);
    assert!(process_subbars_tick_columnar(&F64, &mut calm, &ticks, 0, 2, &forex()).is_none());
    assert!(process_subbars_tick_columnar(&F64, &mut calm, &ticks, 2, 2, &forex()).is_none());
}

#[test]
fn candle_walk_stops_at_first_hit() {
    let subs = vec![
        candle_at("2024-01-01 00:00", 1.1000, 1.1010, 1.0990, 1.1005),
        candle_at("2024-01-01 00:01", 1.1005, 1.1060, 1.1000, 1.1055),
        candle_at("2024-01-01 00:02", 1.1055, 1.1060, 1.0900, 1.0910),
    ];
    let mut pos = long_position(1.1000, Some(1.0950), Some(1.1050));
    let hit = process_subbars_candle(&F64, &mut pos, &subs, 0, 3, &forex()).unwrap();
    assert_eq!((hit.price, hit.reason), (1.1050, CloseReason::TakeProfit));
    assert_eq!(hit.time, "2024-01-01 00:01");
    assert_eq!(hit.timestamp, subs[1].timestamp);
}

// ── Clock rules ──

#[test]
fn trading_hours_window() {
    let day = TradingHours { start_hour: 9, start_minute: 30, end_hour: 16, end_minute: 0 };
    assert!(is_within_trading_hours(&day, 9, 30));
    assert!(is_within_trading_hours(&day, 16, 0));
    assert!(!is_within_trading_hours(&day, 9, 29));
    assert!(!is_within_trading_hours(&day, 16, 1));
    let night = TradingHours { start_hour: 22, start_minute: 0, end_hour: 6, end_minute: 0 };
    assert!(is_within_trading_hours(&night, 23, 15));
    assert!(is_within_trading_hours(&night, 5, 59));
    assert!(!is_within_trading_hours(&night, 12, 0));
}

#[test]
fn close_at_time_is_reached() {
    let at = Some(CloseTradesAt { hour: 16, minute: 30 });
    assert!(!should_close_at_time(&at, parse_datetime_to_micros("2024-01-05 16:29:59")));
    assert!(should_close_at_time(&at, parse_datetime_to_micros("2024-01-05 16:30:00")));
    assert!(should_close_at_time(&at, parse_datetime_to_micros("2024-01-05 23:00:00")));
    assert!(!should_close_at_time(&None, parse_datetime_to_micros("2024-01-05 23:00:00")));
}

#[test]
fn long_is_tried_before_short() {
    assert_eq!(entry_direction(TradeDirection::Both, true, true, true, true), Some(TradeDirection::Long));
    assert_eq!(entry_direction(TradeDirection::Both, true, true, false, true), Some(TradeDirection::Short));
    assert_eq!(entry_direction(TradeDirection::Short, true, true, true, true), Some(TradeDirection::Short));
    assert_eq!(entry_direction(TradeDirection::Long, true, true, false, true), None);
    assert_eq!(entry_direction(TradeDirection::Both, false, true, true, true), None);
    assert_eq!(entry_direction(TradeDirection::Both, true, false, true, true), None);
}

#[test]
fn durations_read_as_text() {
    assert_eq!(format_bars(17, 1), "17m");
    assert_eq!(format_bars(0, 5), "0m");
    assert_eq!(format_bars(5, 30), "2h 30m");
    assert_eq!(format_duration_bars(76, 60), "3d 4h");
    assert_eq!(format_duration_bars(1440, 1), "1d 0h");
    assert_eq!(progress_percent(1, 3), 33);
    assert_eq!(progress_percent(3, 3), 100);
    assert_eq!(progress_percent(0, 0), 0);
}

// ── Metrics ──

#[test]
fn test_empty_metrics() {
    let m = calculate_metrics(&F64, &Vec::new(), &Vec::new(), 10000.0, Timeframe::M1);
    assert_eq!(m.total_trades, 0);
    assert_eq!(m.final_capital, 10000.0);
    assert_eq!(m.net_profit, 0.0);
    assert_eq!(m.avg_trade_duration, "0m");
    assert_eq!(m.stagnation_time, "0m");
}

#[test]
fn test_basic_metrics() {
    let trades = vec![make_trade(500.0, 10), make_trade(-200.0, 5), make_trade(300.0, 8)];
    let equity_curve: Vec<EquityPoint<f64>> = [10000.0, 10500.0, 10300.0, 10600.0]
        .iter()
        .enumerate()
        .map(|(i, &equity)| EquityPoint { timestamp: format!("2024-01-0{}", i + 1), equity })
        .collect();
    let m = calculate_metrics(&F64, &trades, &equity_curve, 10000.0, Timeframe::M1);
    assert_eq!(m.total_trades, 3);
    assert_eq!(m.winning_trades, 2);
    assert_eq!(m.losing_trades, 1);
    assert!((m.gross_profit - 800.0).abs() < 0.01);
    assert!((m.gross_loss - 200.0).abs() < 0.01);
    assert!((m.net_profit - 600.0).abs() < 0.01);
    assert!((m.profit_factor - 4.0).abs() < 0.01);
    assert!((m.win_rate_pct - 66.666).abs() < 0.01);
    assert_eq!(m.breakeven_trades, 0);
    assert_eq!(m.max_consecutive_wins, 1);
    assert_eq!(m.stagnation_bars, 1);
    assert_eq!(m.avg_trade_duration, "7m");
    assert_eq!(m.avg_winner_duration, "9m");
    assert_eq!(m.avg_loser_duration, "5m");
    assert_eq!(m.final_capital, 10600.0);
    assert!((m.total_return_pct - 6.0).abs() < 1e-9);
    assert!((m.avg_trade - 200.0).abs() < 1e-9);
    assert_eq!((m.avg_win, m.avg_loss), (400.0, -200.0));
    assert_eq!((m.largest_win, m.largest_loss), (500.0, -200.0));
    assert!((m.expectancy - 200.0).abs() < 1e-9);
    assert!((m.max_drawdown_pct - 200.0 / 10500.0 * 100.0).abs() < 1e-9);
    assert_eq!(m.max_drawdown_duration_bars, 1);
    assert!((m.avg_bars_in_trade - 23.0 / 3.0).abs() < 1e-9);
    assert_eq!((m.mae_avg, m.mae_max, m.mfe_avg, m.mfe_max), (5.0, 5.0, 10.0, 10.0));
    assert!((m.recovery_factor - 600.0 / (10000.0 * (200.0 / 10500.0 * 100.0) / 100.0)).abs() < 1e-9);
    assert!(m.sharpe_ratio > 0.0 && m.sortino_ratio > 0.0 && m.ulcer_index_pct > 0.0);
    assert!((m.return_dd_ratio - 6.0 / (200.0 / 10500.0 * 100.0)).abs() < 1e-9);
}

#[test]
fn test_sharpe_ratio() {
    let returns = vec![0.01, 0.02, 0.01, 0.03, 0.01];
    let sharpe = calculate_sharpe(&F64, &returns, 252.0);
    assert!(sharpe > 0.0);
    let mean = 0.016;
    let sd = (returns.iter().map(|r| (r - mean) * (r - mean)).sum::<f64>() / 4.0).sqrt();
    assert!((sharpe - mean / sd * 252.0f64.sqrt()).abs() < 1e-9);
    assert_eq!(calculate_sharpe(&F64, &vec![0.01], 252.0), 0.0);
    assert_eq!(calculate_sharpe(&F64, &vec![0.01, 0.01], 252.0), 0.0);
}

#[test]
fn test_drawdown_stats() {
    let curve: Vec<EquityPoint<f64>> = [10000.0, 10500.0, 10000.0, 9500.0, 10200.0]
        .iter()
        .enumerate()
        .map(|(i, &equity)| EquityPoint { timestamp: format!("{}", i + 1), equity })
        .collect();
    let (max_dd, duration, avg) = calculate_drawdown_stats(&F64, &curve);
    assert!((max_dd - 9.52).abs() < 0.1);
    assert_eq!(duration, 2);
    let readings = [500.0 / 10500.0 * 100.0, 1000.0 / 10500.0 * 100.0, 300.0 / 10500.0 * 100.0];
    assert!((avg - readings.iter().sum::<f64>() / 3.0).abs() < 1e-9);
    assert_eq!(calculate_drawdown_stats(&F64, &Vec::new()).1, 0);
}

#[test]
fn profit_without_losses_has_no_bound() {
    let trades = vec![make_trade(100.0, 1), make_trade(50.0, 2)];
    let curve: Vec<EquityPoint<f64>> = [10000.0, 10100.0, 10150.0].iter().map(|&equity| EquityPoint { timestamp: String::new(), equity }).collect();
    let m = calculate_metrics(&F64, &trades, &curve, 10000.0, Timeframe::H1);
    assert_eq!(m.profit_factor, f64::INFINITY);
    assert_eq!(m.return_dd_ratio, f64::INFINITY);
    assert_eq!((m.calmar_ratio, m.recovery_factor, m.sortino_ratio), (0.0, 0.0, 0.0));
    assert_eq!(m.avg_trade_duration, "1h 0m");
}

#[test]
fn test_consecutive_wins_losses() {
    let trades = vec![
        make_trade(100.0, 1),
        make_trade(100.0, 1),
        make_trade(100.0, 1),
        make_trade(-50.0, 1),
        make_trade(-50.0, 1),
        make_trade(100.0, 1),
    ];
    let (max_w, max_l, avg_w, avg_l) = calculate_consecutive(&F64, &trades);
    assert_eq!(max_w, 3);
    assert_eq!(max_l, 2);
    assert!((avg_w - 2.0).abs() < 0.01);
    assert!((avg_l - 2.0).abs() < 0.01);
}

#[test]
fn flat_trade_ends_no_streak() {
    let streaks = count_consecutive(&vec![
        Relation::Greater,
        Relation::Equal,
        Relation::Greater,
        Relation::Less,
        Relation::Unordered,
        Relation::Less,
    ]);
    assert_eq!((streaks.max_wins, streaks.max_losses), (2, 2));
    assert_eq!((streaks.win_streaks, streaks.win_total), (1, 2));
    assert_eq!((streaks.loss_streaks, streaks.loss_total), (1, 2));
}

#[test]
fn stagnation_is_longest_run_without_high() {
    assert_eq!(longest_stagnation(&vec![true, true, false, false, true, false]), 2);
    assert_eq!(longest_stagnation(&vec![true]), 0);
    let curve: Vec<EquityPoint<f64>> = [10000.0, 10500.0, 10000.0, 9500.0, 10200.0]
        .iter()
        .map(|&equity| EquityPoint { timestamp: String::new(), equity })
        .collect();
    assert_eq!(calculate_stagnation_bars(&F64, &curve), 3);
}

// ── Whole runs ──

#[test]
fn zero_candles_is_no_data() {
    let (_, strategy) = cross_above_13();
    match run(&Vec::new(), &SubBarData::Absent, &strategy) {
        Err(AppError::NoDataInRange) => {}
        _ => panic!("no candles must give NoDataInRange"),
    }
}

#[test]
fn one_candle_makes_no_trade() {
    let (_, strategy) = cross_above_13();
    let out = run(&make_candles(&[10.0]), &SubBarData::Absent, &strategy).unwrap();
    assert_eq!(out.trades.len(), 0);
    assert_eq!(out.equity_curve.len(), 0);
    assert_eq!(out.metrics.total_trades, 0);
}

#[test]
fn no_entry_rules_make_no_trade() {
    let candles = make_candles(&[10.0, 12.0, 14.0, 16.0, 18.0]);
    let out = run(&candles, &SubBarData::Absent, &strategy_with(vec![])).unwrap();
    assert_eq!(out.trades.len(), 0);
    assert_eq!(out.equity_curve.len(), 4);
    assert!(out.equity_curve.iter().all(|p| p.equity == 10_000.0));
}

#[test]
fn cross_above_opens_one_long_until_end_of_data() {
    let (candles, strategy) = cross_above_13();
    let out = run(&candles, &SubBarData::Absent, &strategy).unwrap();
    assert_eq!(out.trades.len(), 1);
    let trade = &out.trades[0];
    assert_eq!(trade.direction, TradeDirection::Long);
    assert_eq!(trade.close_reason, CloseReason::EndOfData);
    assert_eq!(trade.entry_time, "2024-01-03 00:00");
    assert_eq!(trade.exit_time, "2024-01-05 00:00");
    assert_eq!(trade.duration_bars, 2);
    assert_eq!(trade.duration_time, "2h 0m");
    assert_eq!(trade.id.len(), 36);
    assert!(trade.exit_timestamp >= trade.entry_timestamp);
    assert_eq!(out.equity_curve.len(), candles.len() - max_lookback(&strategy));
    assert_eq!(out.drawdown_curve.len(), out.equity_curve.len());
    assert_eq!(out.metrics.total_trades, out.trades.len());
    assert_eq!(out.returns, vec![trade.pnl]);
    assert_eq!(out.equity_curve[0].timestamp, "2024-01-02 00:00");
}

#[test]
fn drawdown_stays_within_bounds_and_profit_adds_up() {
    let prices: Vec<f64> = (0..60).map(|i| 1.1 + 0.004 * ((i * 7 % 11) as f64 - 5.0)).collect();
    let candles: Vec<Candle<f64>> = prices
        .iter()
        .enumerate()
        .map(|(i, &p)| candle_at(&format!("2024-01-{:02} {:02}:00", i / 24 + 1, i % 24), p, p + 0.002, p - 0.002, p + 0.001))
        .collect();
    let mut strategy = strategy_with(vec![rule(price_operand(PriceField::Close), Comparator::LessThan, constant_operand(1.1), None)]);
    strategy.long_exit_rules = vec![rule(price_operand(PriceField::Close), Comparator::GreaterThan, constant_operand(1.11), None)];
    strategy.stop_loss = Some(StopLoss { sl_type: StopLossType::Pips, value: 100.0, atr_period: None });
    strategy.take_profit = Some(TakeProfit { tp_type: TakeProfitType::Pips, value: 150.0, atr_period: None });
    strategy.trading_costs.commission_value = 7.0;
    let out = run(&candles, &SubBarData::Absent, &strategy).unwrap();
    assert!(out.trades.len() >= 2);
    assert!(out.drawdown_curve.iter().all(|p| p.drawdown_pct >= 0.0 && p.drawdown_pct <= 100.0));
    let pnl: f64 = out.trades.iter().map(|t| t.pnl).sum();
    let commission: f64 = out.trades.iter().map(|t| t.commission).sum();
    assert!((out.metrics.net_profit - (pnl - commission)).abs() <= 1e-6 * 10_000.0);
    assert!(out.trades.iter().all(|t| t.exit_timestamp >= t.entry_timestamp && t.direction == TradeDirection::Long));
    assert_eq!(out.metrics.winning_trades + out.metrics.losing_trades + out.metrics.breakeven_trades, out.trades.len());
    assert_eq!(out.equity_curve.len(), 59);
}

#[test]
fn same_run_twice_decides_alike() {
    let (candles, strategy) = cross_above_13();
    let a = run(&candles, &SubBarData::Absent, &strategy).unwrap();
    let b = run(&candles, &SubBarData::Absent, &strategy).unwrap();
    assert_eq!(a.trades.len(), b.trades.len());
    assert_eq!(a.returns, b.returns);
    let curve = |r: &backtest_core::models::result::BacktestResults<f64>| -> Vec<f64> { r.equity_curve.iter().map(|p| p.equity).collect() };
    assert_eq!(curve(&a), curve(&b));
    assert_eq!(a.trades[0].exit_timestamp, b.trades[0].exit_timestamp);
}

#[test]
fn stop_closes_position_inside_run() {
    let candles = vec![
        candle_at("2024-01-01 00:00", 1.1000, 1.1010, 1.0990, 1.1000),
        candle_at("2024-01-01 01:00", 1.1000, 1.1010, 1.0990, 1.1000),
        candle_at("2024-01-01 02:00", 1.0900, 1.0950, 1.0850, 1.0920),
        candle_at("2024-01-01 03:00", 1.0920, 1.0930, 1.0910, 1.0920),
    ];
    let mut strategy = strategy_with(vec![rule(price_operand(PriceField::Close), Comparator::GreaterThan, constant_operand(1.0950), None)]);
    strategy.stop_loss = Some(StopLoss { sl_type: StopLossType::Pips, value: 50.0, atr_period: None });
    let out = run(&candles, &SubBarData::Absent, &strategy).unwrap();
    assert_eq!(out.trades[0].entry_price, 1.1000);
    assert_eq!(out.trades.len(), 1);
    assert_eq!(out.trades[0].close_reason, CloseReason::StopLoss);
    assert_eq!(out.trades[0].exit_price, 1.0900);
    assert!((out.trades[0].pnl_pips - (-100.0)).abs() < 1e-6);
    assert_eq!(out.trades[0].duration_bars, 1);
    assert!((out.metrics.net_profit - (-1000.0)).abs() < 1e-6);
}

#[test]
fn daily_cap_and_hours_gate_entries() {
    let candles: Vec<Candle<f64>> = (0..6).map(|h| candle_at(&format!("2024-01-01 {:02}:00", h), 10.0, 11.0, 9.0, 10.0)).collect();
    let mut strategy = strategy_with(vec![rule(price_operand(PriceField::Close), Comparator::GreaterThan, constant_operand(5.0), None)]);
    strategy.long_exit_rules = vec![rule(price_operand(PriceField::Close), Comparator::GreaterThan, constant_operand(5.0), None)];
    strategy.max_daily_trades = Some(2);
    let out = run(&candles, &SubBarData::Absent, &strategy).unwrap();
    assert_eq!(out.trades.len(), 2);
    assert!(out.trades.iter().all(|t| t.close_reason == CloseReason::Signal));

    strategy.max_daily_trades = None;
    strategy.trading_hours = Some(TradingHours { start_hour: 3, start_minute: 0, end_hour: 3, end_minute: 59 });
    let out = run(&candles, &SubBarData::Absent, &strategy).unwrap();
    assert_eq!(out.trades.len(), 1);
    assert_eq!(out.trades[0].entry_time, "2024-01-01 03:00");

    strategy.trading_hours = None;
    strategy.long_exit_rules = vec![];
    strategy.close_trades_at = Some(CloseTradesAt { hour: 4, minute: 0 });
    let out = run(&candles, &SubBarData::Absent, &strategy).unwrap();
    assert_eq!(out.trades[0].close_reason, CloseReason::TimeClose);
    assert_eq!(out.trades[0].exit_time, "2024-01-01 04:00");
}

#[test]
fn cancel_flag_stops_run_at_poll() {
    let prices: Vec<f64> = (0..1001).map(|i| 10.0 + (i % 7) as f64).collect();
    let candles: Vec<Candle<f64>> = prices
        .iter()
        .enumerate()
        .map(|(i, &p)| Candle { timestamp: i as i64 * 60_000_000, datetime: format!("bar {}", i), open: p, high: p, low: p, close: p, volume: 0.0 })
        .collect();
    let flag = AtomicBool::new(true);
    let result = run_backtest(&candles, &SubBarData::Absent, &strategy_with(vec![]), &config(), &forex(), &F64, &flag, |_, _, _| {});
    assert!(matches!(result, Err(AppError::BacktestCancelled)));
    let few = run_backtest(&candles[..999].to_vec(), &SubBarData::Absent, &strategy_with(vec![]), &config(), &forex(), &F64, &flag, |_, _, _| {});
    assert!(few.is_ok());
}

#[test]
fn closing_writes_the_trade_down() {
    let mut pos = long_position(1.1000, None, None);
    pos.entry_bar = 3;
    let mut tick_config = config();
    tick_config.timeframe = Timeframe::Tick;
    let trade = close_position(&F64, &pos, 1.1020, &"later".to_string(), 99, 7, CloseReason::Signal, &forex(), &strategy_with(vec![]), &tick_config);
    assert_eq!(trade.duration_bars, 4);
    assert_eq!(trade.duration_time, "4m");
    assert_eq!(trade.exit_time, "later");
    assert_eq!(trade.exit_timestamp, 99);
    assert!((trade.pnl - 200.0).abs() < 1e-6);
    assert_eq!(trade.id.len(), 36);
    let metrics: Option<BacktestMetrics<f64>> = None;
    assert!(metrics.is_none());
}

// ── Orders and sizing ──

#[test]
fn test_pnl_long() {
    let inst = forex();
    let pnl_pips = calculate_pnl_pips(&F64, TradeDirection::Long, 1.1000, 1.1050, &inst);
    assert!((pnl_pips - 50.0).abs() < 0.01);
    let pnl = calculate_pnl(&F64, TradeDirection::Long, 1.1000, 1.1050, 1.0, &inst);
    assert!((pnl - 500.0).abs() < 0.01);
}

#[test]
fn test_pnl_short() {
    let inst = forex();
    let pnl_pips = calculate_pnl_pips(&F64, TradeDirection::Short, 1.1050, 1.1000, &inst);
    assert!((pnl_pips - 50.0).abs() < 0.01);
    let mut no_pip = forex();
    no_pip.pip_size = 0.0;
    assert_eq!(calculate_pnl_pips(&F64, TradeDirection::Short, 1.1050, 1.1000, &no_pip), 0.0);
}

#[test]
fn test_apply_entry_costs_long() {
    let inst = forex();
    let costs = TradingCosts {
        spread_pips: 2.0,
        commission_type: CommissionType::FixedPerLot,
        commission_value: 7.0,
        slippage_pips: 0.0,
        slippage_random: false,
    };
    let adjusted = apply_entry_costs(&F64, 1.1000, TradeDirection::Long, &costs, &inst);
    assert!((adjusted - 1.1002).abs() < 1e-10);
    let sold = apply_entry_costs(&F64, 1.1000, TradeDirection::Short, &costs, &inst);
    assert!((sold - 1.0998).abs() < 1e-10);
    let slipping = TradingCosts { slippage_pips: 1.0, ..costs.clone() };
    assert!((apply_exit_costs(&F64, 1.1000, TradeDirection::Long, &slipping, &inst) - 1.0999).abs() < 1e-10);
    assert!((apply_exit_costs(&F64, 1.1000, TradeDirection::Short, &slipping, &inst) - 1.1001).abs() < 1e-10);
    let random = TradingCosts { slippage_pips: 1.0, slippage_random: true, ..costs };
    assert!((apply_exit_costs(&F64, 1.1000, TradeDirection::Long, &random, &inst) - 1.09995).abs() < 1e-10);
}

#[test]
fn test_commission_fixed_per_lot() {
    let inst = forex();
    let costs = TradingCosts {
        spread_pips: 0.0,
        commission_type: CommissionType::FixedPerLot,
        commission_value: 7.0,
        slippage_pips: 0.0,
        slippage_random: false,
    };
    let comm = calculate_commission(&F64, &costs, 2.0, 1.1000, &inst);
    assert!((comm - 14.0).abs() < 1e-10);
    let share = TradingCosts { commission_type: CommissionType::Percentage, commission_value: 0.1, ..costs };
    assert!((calculate_commission(&F64, &share, 2.0, 1.1000, &inst) - 220.0).abs() < 1e-9);
}

#[test]
fn sizing_follows_its_mode() {
    let inst = forex();
    let sizing = |sizing_type, value| PositionSizing { sizing_type, value };
    assert!((calculate_lots(&F64, &sizing(PositionSizingType::FixedLots, 0.237), 10_000.0, 1.1, None, &inst) - 0.23).abs() < 1e-12);
    assert_eq!(calculate_lots(&F64, &sizing(PositionSizingType::FixedLots, 0.001), 10_000.0, 1.1, None, &inst), 0.01);
    for mode in [PositionSizingType::FixedAmount, PositionSizingType::PercentEquity, PositionSizingType::RiskBased] {
        assert_eq!(calculate_lots(&F64, &sizing(mode, 2.0), 10_000.0, 1.1, None, &inst), 0.01);
        assert_eq!(calculate_lots(&F64, &sizing(mode, 2.0), 10_000.0, 1.1, Some(1.1), &inst), 0.01);
    }
    let fixed = calculate_lots(&F64, &sizing(PositionSizingType::FixedAmount, 100.0), 10_000.0, 1.1000, Some(1.0950), &inst);
    assert!((fixed - 0.2).abs() < 1e-9 || (fixed - 0.19).abs() < 1e-9);
    let share = calculate_lots(&F64, &sizing(PositionSizingType::PercentEquity, 1.0), 20_000.0, 1.1000, Some(1.0900), &inst);
    assert!((share - 0.2).abs() < 1e-9 || (share - 0.19).abs() < 1e-9);
}

#[test]
fn levels_lie_on_the_right_side() {
    let inst = forex();
    let stop = |sl_type, value| StopLoss { sl_type, value, atr_period: Some(14) };
    assert!((calculate_stop_loss(&F64, &stop(StopLossType::Pips, 50.0), 1.1, TradeDirection::Long, None, &inst) - 1.0950).abs() < 1e-12);
    assert!((calculate_stop_loss(&F64, &stop(StopLossType::Pips, 50.0), 1.1, TradeDirection::Short, None, &inst) - 1.1050).abs() < 1e-12);
    assert!((calculate_stop_loss(&F64, &stop(StopLossType::Percentage, 1.0), 1.1, TradeDirection::Long, None, &inst) - 1.089).abs() < 1e-12);
    assert!((calculate_stop_loss(&F64, &stop(StopLossType::ATR, 2.0), 1.1, TradeDirection::Long, Some(0.003), &inst) - 1.094).abs() < 1e-12);
    assert_eq!(calculate_stop_loss(&F64, &stop(StopLossType::ATR, 2.0), 1.1, TradeDirection::Long, None, &inst), 1.1);
    let target = |tp_type, value| TakeProfit { tp_type, value, atr_period: Some(14) };
    assert!((calculate_take_profit(&F64, &target(TakeProfitType::Pips, 50.0), 1.1, None, TradeDirection::Long, None, &inst) - 1.1050).abs() < 1e-12);
    assert!((calculate_take_profit(&F64, &target(TakeProfitType::RiskReward, 2.0), 1.1, Some(1.0950), TradeDirection::Long, None, &inst) - 1.11).abs() < 1e-12);
    assert!((calculate_take_profit(&F64, &target(TakeProfitType::RiskReward, 2.0), 1.1, Some(1.1050), TradeDirection::Short, None, &inst) - 1.09).abs() < 1e-12);
    assert!((calculate_take_profit(&F64, &target(TakeProfitType::RiskReward, 2.0), 1.1, None, TradeDirection::Long, None, &inst) - 1.102).abs() < 1e-12);
    assert!((calculate_take_profit(&F64, &target(TakeProfitType::ATR, 3.0), 1.1, None, TradeDirection::Short, Some(0.002), &inst) - 1.094).abs() < 1e-12);
    let trail = |ts_type, value| TrailingStop { ts_type, value, atr_period: Some(14) };
    assert!((calculate_trailing_stop_distance(&F64, &trail(TrailingStopType::ATR, 2.0), 1.1, None, Some(0.003), &inst) - 0.006).abs() < 1e-12);
    assert!((calculate_trailing_stop_distance(&F64, &trail(TrailingStopType::RiskReward, 1.5), 1.1, Some(1.09), None, &inst) - 0.015).abs() < 1e-12);
}

#[test]
fn ledger_opens_books_and_marks() {
    let candles = make_candles(&[10.0, 12.0, 14.0, 16.0, 18.0]);
    let mut strategy = strategy_with(vec![]);
    assert!(compute_atr_if_needed(&F64, &strategy, &candles).is_none());
    strategy.trailing_stop = Some(TrailingStop { ts_type: TrailingStopType::ATR, value: 2.0, atr_period: Some(3) });
    strategy.take_profit = Some(TakeProfit { tp_type: TakeProfitType::Pips, value: 10.0, atr_period: None });
    let atr = compute_atr_if_needed(&F64, &strategy, &candles).unwrap();
    assert_eq!(atr.len(), 5);
    assert!(atr[1].is_none() && atr[2].is_some());
    let mut ledger = Ledger { equity: 1000.0, peak_equity: 1000.0, atr_values: Some(atr.clone()) };
    let pos = open_position(&F64, &ledger, &strategy, &forex(), &candles[3], 3, TradeDirection::Long);
    assert_eq!((pos.entry_bar, pos.entry_price, pos.entry_time.as_str()), (3, 16.0, "2024-01-04 00:00"));
    assert_eq!((pos.highest_since_entry, pos.lowest_since_entry), (17.0, 15.0));
    assert!(pos.stop_loss.is_none() && pos.take_profit.is_some());
    assert!((pos.trailing_stop_distance.unwrap() - 2.0 * atr[3].unwrap()).abs() < 1e-12);
    assert_eq!((pos.mae_pips, pos.mfe_pips), (0.0, 0.0));

    let flat = record_equity(&F64, &mut ledger, &None, &candles[3], &forex());
    assert_eq!((flat.equity, flat.drawdown_pct), (1000.0, 0.0));
    let open = record_equity(&F64, &mut ledger, &Some(pos.clone()), &candles[4], &forex());
    assert!((open.equity - (1000.0 + 2.0 / 0.0001 * 10.0 * pos.lots)).abs() < 1e-6);
    assert_eq!(ledger.peak_equity, open.equity);
    assert_eq!(ledger.equity, 1000.0);
    let mut trade = make_trade(50.0, 1);
    trade.commission = 8.0;
    book_trade(&F64, &mut ledger, &trade);
    assert_eq!(ledger.equity, 1042.0);
    let after = record_equity(&F64, &mut ledger, &None, &candles[4], &forex());
    assert!(after.drawdown_pct > 0.0 && after.drawdown_pct < 100.0);
}

#[test]
fn quotes_lie_half_a_spread_around_the_close() {
    let ticks = tick_columns_from_ohlcv_with_spread(&F64, vec![10, 20], &vec![1.5, 2.5], 0.25).unwrap();
    assert_eq!(ticks.timestamps, vec![10, 20]);
    assert_eq!(ticks.bids, vec![1.25, 2.25]);
    assert_eq!(ticks.asks, vec![1.75, 2.75]);
    assert!(matches!(
        tick_columns_from_ohlcv_with_spread(&F64, vec![10], &vec![1.5, 2.5], 0.25),
        Err(AppError::CsvValidation(_))
    ));
}

#[test]
fn operands_resolve_to_the_value_at_their_bar() {
    let candles = make_candles(&[10.0, 20.0, 30.0]);
    let mut strategy = strategy_with(vec![rule(indicator_operand(IndicatorType::SMA, 2), Comparator::GreaterThan, constant_operand(0.0), None)]);
    strategy.long_exit_rules = Vec::new();
    let cache = pre_compute_indicators(&F64, &strategy, &candles).unwrap();
    let times = compute_time_cache(&F64, &candles);
    let resolve = |op: &Operand<f64>, bar: usize, shift: usize| resolve_operand(&F64, op, bar, &cache, &candles, None, Some(&times), None, shift, 0.0);

    let average = indicator_operand(IndicatorType::SMA, 2);
    assert_eq!(resolve(&average, 2, 0), Some(25.0));
    assert_eq!(resolve(&average, 1, 0), Some(15.0));
    assert_eq!(resolve(&average, 0, 0), None);
    assert_eq!(resolve(&indicator_operand(IndicatorType::SMA, 3), 2, 0), None);

    let mut earlier = price_operand(PriceField::High);
    earlier.offset = Some(2);
    assert_eq!(resolve(&earlier, 2, 0), Some(11.0));
    assert_eq!(resolve(&earlier, 1, 0), None);
    assert_eq!(resolve(&earlier, 2, 1), Some(11.0));
    assert_eq!(resolve(&price_operand(PriceField::DailyOpen), 2, 0), None);

    assert_eq!(resolve(&constant_operand(7.5), 0, 0), Some(7.5));
    assert_eq!(resolve(&operand(OperandType::Constant), 0, 0), Some(0.0));

    let mut bar = operand(OperandType::BarTime);
    bar.time_field = Some(TimeField::CurrentBar);
    assert_eq!(resolve(&bar, 1, 0), Some(1.0));
    assert_eq!(resolve(&bar, 1, 1), Some(2.0));
    assert_eq!(resolve(&bar, 2, 1), None);
    bar.offset = Some(1);
    assert_eq!(resolve(&bar, 2, 1), Some(2.0));
}

#[test]
fn patterns_follow_their_comparisons() {
    let (lt, eq, gt, na) = (Relation::Less, Relation::Equal, Relation::Greater, Relation::Unordered);
    assert!(is_doji(gt, lt) && is_doji(gt, eq));
    assert!(!is_doji(eq, lt) && !is_doji(gt, gt) && !is_doji(na, lt) && !is_doji(gt, na));
    assert!(is_hammer(gt, gt, lt) && is_hammer(gt, eq, eq));
    assert!(!is_hammer(eq, gt, lt) && !is_hammer(gt, lt, lt) && !is_hammer(gt, gt, gt) && !is_hammer(gt, na, lt));
    assert!(is_engulfing(true, gt, lt, gt, gt, lt) && is_engulfing(true, gt, lt, gt, eq, eq));
    assert!(!is_engulfing(true, lt, lt, gt, gt, lt) && !is_engulfing(true, gt, gt, gt, gt, lt));
    assert!(!is_engulfing(true, gt, lt, eq, gt, lt) && !is_engulfing(true, gt, lt, gt, lt, lt) && !is_engulfing(true, gt, lt, gt, gt, gt));
    assert!(is_engulfing(false, lt, gt, gt, lt, gt) && is_engulfing(false, lt, gt, gt, eq, eq));
    assert!(!is_engulfing(false, gt, lt, gt, gt, lt) && !is_engulfing(false, lt, gt, gt, gt, gt));
    assert!(is_reversal(true, gt, lt, gt, gt, lt, gt));
    assert!(!is_reversal(true, gt, lt, gt, eq, lt, gt) && !is_reversal(true, gt, lt, gt, gt, eq, gt) && !is_reversal(true, gt, lt, gt, gt, lt, eq));
    assert!(is_reversal(false, lt, gt, gt, lt, gt, lt));
    assert!(!is_reversal(false, lt, gt, gt, eq, gt, lt) && !is_reversal(false, lt, gt, eq, lt, gt, lt) && !is_reversal(false, gt, lt, gt, gt, lt, gt));
}

#[test]
fn reversal_patterns_are_flagged() {
    let cloud = vec![
        candle_at("2024-01-01 00:00", 100.0, 104.5, 99.5, 104.0),
        candle_at("2024-01-01 01:00", 105.0, 105.5, 100.5, 101.0),
    ];
    let pc = compute_candle_pattern_cache(&F64, &cloud);
    assert_eq!((pc.dark_cloud[0], pc.dark_cloud[1]), (0.0, 1.0));
    assert_eq!((pc.piercing_line[1], pc.bearish_engulfing[1]), (0.0, 0.0));
    let piercing = vec![
        candle_at("2024-01-01 00:00", 104.0, 104.5, 99.5, 100.0),
        candle_at("2024-01-01 01:00", 99.0, 103.5, 98.5, 103.0),
    ];
    let pc = compute_candle_pattern_cache(&F64, &piercing);
    assert_eq!((pc.piercing_line[0], pc.piercing_line[1]), (0.0, 1.0));
    assert_eq!((pc.dark_cloud[1], pc.bullish_engulfing[1]), (0.0, 0.0));
    let shapes = vec![
        candle_at("2024-01-01 00:00", 100.0, 100.5, 96.0, 100.4),
        candle_at("2024-01-01 01:00", 100.4, 104.0, 99.9, 100.0),
    ];
    let pc = compute_candle_pattern_cache(&F64, &shapes);
    assert_eq!((pc.hammer[0], pc.shooting_star[0]), (1.0, 0.0));
    assert_eq!((pc.hammer[1], pc.shooting_star[1]), (0.0, 1.0));
}

#[test]
fn drawdown_reading_follows_the_formula() {
    let candles = make_candles(&[10.0, 12.0]);
    let mut ledger = Ledger { equity: -500.0, peak_equity: 1000.0, atr_values: None };
    let lost = record_equity(&F64, &mut ledger, &None, &candles[0], &forex());
    assert_eq!((lost.equity, lost.drawdown_pct), (-500.0, 150.0));
    ledger.equity = 250.0;
    let half = record_equity(&F64, &mut ledger, &None, &candles[1], &forex());
    assert_eq!(half.drawdown_pct, 75.0);
    assert_eq!(ledger.peak_equity, 1000.0);
}

#[test]
fn weekday_formula_takes_any_year() {
    assert_eq!(day_of_week(1969, 12, 31), 3);
    assert_eq!(day_of_week(1900, 1, 1), 1);
    assert_eq!(day_of_week(12000, 6, 15), day_of_week(2000, 6, 15));
    assert_eq!(day_of_week(2024, 2, 30), (day_of_week(2024, 2, 29) + 1) % 7);
}

#[test]
fn an_indicator_that_cannot_be_computed_fails_the_run() {
    let candles = make_candles(&[10.0, 12.0, 14.0, 16.0, 18.0, 17.0, 15.0, 16.0, 18.0, 19.0]);
    let mut strategy = strategy_with(vec![]);
    strategy.long_exit_rules = vec![rule(price_operand(PriceField::Close), Comparator::LessThan, indicator_operand(IndicatorType::SMA, 50), None)];
    match run(&candles, &SubBarData::Absent, &strategy) {
        Err(AppError::InsufficientData { needed, available }) => assert_eq!((needed, available), (50, 10)),
        _ => panic!("an average over more bars than there are must fail the run"),
    }
    let mut twice = strategy_with(vec![rule(price_operand(PriceField::Close), Comparator::GreaterThan, indicator_operand(IndicatorType::SMA, 3), None)]);
    twice.short_exit_rules = vec![
        rule(price_operand(PriceField::Close), Comparator::LessThan, indicator_operand(IndicatorType::SMA, 3), None),
        rule(price_operand(PriceField::Close), Comparator::LessThan, indicator_operand(IndicatorType::EMA, 40), None),
    ];
    assert!(matches!(run(&candles, &SubBarData::Absent, &twice), Err(AppError::InsufficientData { needed: 40, available: 10 })));
}
