use std::cell::RefCell;
use std::sync::atomic::AtomicBool;

use rand::rngs::StdRng;
use rand::Rng;
use rand::SeedableRng;

use backtest_core::engine::numeric::{Comparison, Numbers, Relation};
use backtest_core::engine::executor::{run_backtest, SubBarData};
use backtest_core::engine::optimizer::{
    apply_param, apply_params, arrange, build_failed_result, build_result, cartesian_product,
    compute_composite_scores, count_combinations, crossover, crossover_at, elite_index,
    evaluate_candidate, evaluate_unless, extract_objective, generate_grid, grid_from_lists, grid_progress, mutate,
    next_generation, param_values_of, random_population, range_values, rank_order, rank_results,
    run_genetic_algorithm, run_grid_search, run_oos_evaluation, run_optimization, set_param,
    snap_to_step, top_ranked, tournament_pick, tournament_select, Chance, Evaluated, OosData,
    MAX_COMBINATIONS, MAX_RESULTS,
};
use backtest_core::errors::AppError;
use backtest_core::models::candle::Candle;
use backtest_core::models::config::{InstrumentConfig, Timeframe};
use backtest_core::models::result::{
    BacktestMetrics, GeneticAlgorithmConfig, ObjectiveFunction, OptimizationConfig,
    OptimizationMethod, OptimizationResult, ParamValue, ParameterRange,
};
use backtest_core::models::strategy::{
    copy_strategy, BacktestConfig, BacktestPrecision, CloseTradesAt, CommissionType, Comparator, IndicatorConfig,
    IndicatorParams, IndicatorType, Operand, OperandType, PositionSizing, PositionSizingType,
    PriceField, Rule, StopLoss, StopLossType, Strategy, TakeProfit, TakeProfitType,
    TradeDirection, TradingCosts, TradingHours,
};
use backtest_core::timestamp::micros_to_datetime_string;

struct F64;

impl Numbers<f64> for F64 {
    fn compare(&self, left: f64, right: f64) -> Comparison {
        let relation = if left < right {
            Relation::Less
        } else if left > right {
            Relation::Greater
        } else if left == right {
            Relation::Equal
        } else {
            Relation::Unordered
        };
        Comparison { relation, close: (left - right).abs() < f64::EPSILON }
    }

    fn add(&self, left: f64, right: f64) -> f64 {
        left + right
    }

    fn sub(&self, left: f64, right: f64) -> f64 {
        left - right
    }

    fn mul(&self, left: f64, right: f64) -> f64 {
        left * right
    }

    fn div(&self, left: f64, right: f64) -> f64 {
        left / right
    }

    fn distance(&self, left: f64, right: f64) -> f64 {
        (left - right).abs()
    }

    fn neg(&self, value: f64) -> f64 {
        -value
    }

    fn max(&self, left: f64, right: f64) -> f64 {
        left.max(right)
    }

    fn min(&self, left: f64, right: f64) -> f64 {
        left.min(right)
    }

    fn sqrt(&self, value: f64) -> f64 {
        value.sqrt()
    }

    fn floor(&self, value: f64) -> f64 {
        value.floor()
    }

    fn powf(&self, base: f64, exponent: f64) -> f64 {
        base.powf(exponent)
    }

    fn exp(&self, value: f64) -> f64 {
        value.exp()
    }

    fn cos(&self, value: f64) -> f64 {
        value.cos()
    }

    fn pi(&self) -> f64 {
        std::f64::consts::PI
    }

    fn from_int(&self, value: i64) -> f64 {
        value as f64
    }

    fn ratio(&self, numerator: i64, denominator: i64) -> f64 {
        numerator as f64 / denominator as f64
    }

    fn fixed(&self, value: f64, decimals: u8) -> String {
        format!("{:.*}", decimals as usize, value)
    }

    fn rounded(&self, value: f64) -> u64 {
        value.round() as u64
    }

    fn order_key(&self, value: f64) -> i64 {
        if value.is_nan() {
            return i64::MIN;
        }
        let bits = (value + 0.0).to_bits() as i64;
        bits ^ ((((bits >> 63) as u64) >> 1) as i64)
    }

    fn highest(&self) -> f64 {
        f64::INFINITY
    }

    fn lowest(&self) -> f64 {
        f64::NEG_INFINITY
    }

    fn random_unit(&self) -> f64 {
        0.5
    }
}

struct Dice;

impl Chance<f64> for Dice {
    fn unit(&self, rng: &mut StdRng) -> f64 {
        rng.gen::<f64>()
    }

    fn uniform(&self, rng: &mut StdRng, min: f64, max: f64) -> f64 {
        rng.gen_range(min..=max)
    }
}

fn range(name: &str, display: &str, min: f64, max: f64, step: f64) -> ParameterRange<f64> {
    ParameterRange {
        rule_index: 0,
        param_name: name.into(),
        display_name: display.into(),
        min,
        max,
        step,
        operand_side: "left".into(),
        param_source: "indicator".into(),
    }
}

fn metrics() -> BacktestMetrics<f64> {
    BacktestMetrics {
        final_capital: 0.0,
        total_return_pct: 0.0,
        annualized_return_pct: 0.0,
        monthly_return_avg_pct: 0.0,
        sharpe_ratio: 1.5,
        sortino_ratio: 0.0,
        calmar_ratio: 0.0,
        max_drawdown_pct: 0.0,
        max_drawdown_duration_bars: 0,
        max_drawdown_duration_time: String::new(),
        avg_drawdown_pct: 0.0,
        recovery_factor: 0.0,
        total_trades: 0,
        winning_trades: 0,
        losing_trades: 0,
        breakeven_trades: 0,
        win_rate_pct: 55.0,
        gross_profit: 0.0,
        gross_loss: 0.0,
        net_profit: 1000.0,
        profit_factor: 2.0,
        avg_trade: 0.0,
        avg_win: 0.0,
        avg_loss: 0.0,
        largest_win: 0.0,
        largest_loss: 0.0,
        expectancy: 0.0,
        max_consecutive_wins: 0,
        max_consecutive_losses: 0,
        avg_consecutive_wins: 0.0,
        avg_consecutive_losses: 0.0,
        avg_trade_duration: String::new(),
        avg_bars_in_trade: 0.0,
        avg_winner_duration: String::new(),
        avg_loser_duration: String::new(),
        mae_avg: 0.0,
        mae_max: 0.0,
        mfe_avg: 0.0,
        mfe_max: 0.0,
        stagnation_bars: 100,
        stagnation_time: String::new(),
        ulcer_index_pct: 3.5,
        return_dd_ratio: 2.5,
    }
}

fn sma_rule(period: usize) -> Rule<f64> {
    let mut params = IndicatorParams::empty();
    params.period = Some(period);
    let side = |indicator: Option<IndicatorConfig<f64>>, operand_type: OperandType| Operand {
        operand_type,
        indicator,
        price_field: None,
        constant_value: Some(1.0),
        time_field: None,
        candle_pattern: None,
        offset: None,
    };
    Rule {
        id: "r".to_string(),
        left_operand: side(None, OperandType::Constant),
        comparator: Comparator::GreaterThan,
        right_operand: side(
            Some(IndicatorConfig { indicator_type: IndicatorType::SMA, params, output_field: None }),
            OperandType::Indicator,
        ),
        logical_operator: None,
    }
}

fn strategy() -> Strategy<f64> {
    Strategy {
        id: "strategy-1".to_string(),
        name: "test".to_string(),
        created_at: String::new(),
        updated_at: String::new(),
        long_entry_rules: vec![sma_rule(10)],
        short_entry_rules: vec![],
        long_exit_rules: vec![sma_rule(20), sma_rule(30)],
        short_exit_rules: vec![],
        position_sizing: PositionSizing { sizing_type: PositionSizingType::FixedLots, value: 1.0 },
        stop_loss: Some(StopLoss { sl_type: StopLossType::Pips, value: 10.0, atr_period: None }),
        take_profit: None,
        trailing_stop: None,
        trading_costs: TradingCosts {
            spread_pips: 0.0,
            commission_type: CommissionType::FixedPerLot,
            commission_value: 0.0,
            slippage_pips: 0.0,
            slippage_random: false,
        },
        trade_direction: TradeDirection::Both,
        trading_hours: None,
        max_daily_trades: None,
        close_trades_at: None,
    }
}

fn period_of(rule: &Rule<f64>) -> Option<usize> {
    rule.right_operand.indicator.as_ref().and_then(|c| c.params.period)
}

fn result_with(objective: f64, composite: f64) -> OptimizationResult<f64> {
    let mut r = build_failed_result(&vec![range("period", "P", 1.0, 2.0, 1.0)], &vec![objective], 0.0, 0.0);
    r.objective_value = objective;
    r.composite_score = composite;
    r
}

// ── Grid ──

#[test]
fn test_generate_grid_simple() {
    let ranges = vec![range("period", "SMA Period", 10.0, 30.0, 10.0)];
    let grid = generate_grid(&F64, &ranges).unwrap();
    assert_eq!(grid.len(), 3);
    assert_eq!(grid[0], vec![10.0]);
    assert_eq!(grid[1], vec![20.0]);
    assert_eq!(grid[2], vec![30.0]);
}

#[test]
fn test_generate_grid_cartesian() {
    let ranges = vec![range("period", "Fast", 5.0, 10.0, 5.0), range("slow_period", "Slow", 20.0, 30.0, 5.0)];
    let grid = generate_grid(&F64, &ranges).unwrap();
    assert_eq!(grid.len(), 6);
    assert_eq!(
        grid,
        vec![vec![5.0, 20.0], vec![5.0, 25.0], vec![5.0, 30.0], vec![10.0, 20.0], vec![10.0, 25.0], vec![10.0, 30.0]]
    );
}

#[test]
fn test_generate_grid_too_many() {
    let ranges = vec![range("period", "First", 1.0, 800.0, 1.0), range("fast_period", "Second", 1.0, 800.0, 1.0)];
    let result = generate_grid(&F64, &ranges);
    assert!(result.is_err());
    match result.unwrap_err() {
        AppError::TooManyCombinations { count, limit } => {
            assert_eq!(count, 640000);
            assert_eq!(limit, MAX_COMBINATIONS);
        }
        _ => panic!("Expected TooManyCombinations error"),
    }
}

#[test]
fn grid_errors_name_the_cause() {
    match generate_grid(&F64, &Vec::new()) {
        Err(AppError::OptimizationError(m)) => assert_eq!(m, "No parameter ranges specified"),
        _ => panic!("no ranges must be refused"),
    }
    match generate_grid(&F64, &vec![range("period", "Good", 1.0, 2.0, 1.0), range("period", "Flat", 1.0, 2.0, 0.0)]) {
        Err(AppError::OptimizationError(m)) => assert_eq!(m, "Step must be positive for parameter 'Flat'"),
        _ => panic!("a zero step must be refused"),
    }
    assert_eq!(generate_grid(&F64, &vec![range("period", "Empty", 5.0, 1.0, 1.0)]).unwrap(), vec![vec![5.0]]);
}

#[test]
fn product_counts_and_enumerates() {
    let lists = vec![vec![1, 2], vec![10, 20, 30], vec![7]];
    assert_eq!(count_combinations(&lists), 6);
    let combos = cartesian_product(&lists);
    assert_eq!(combos.len(), 6);
    assert_eq!(combos[0], vec![1, 10, 7]);
    assert_eq!(combos[4], vec![2, 20, 7]);
    assert_eq!(count_combinations(&Vec::<Vec<u8>>::new()), 1);
    assert_eq!(cartesian_product(&Vec::<Vec<u8>>::new()), vec![Vec::<u8>::new()]);
    let limit = vec![vec![0u8; 1000], vec![0u8; 500]];
    assert_eq!(grid_from_lists(&limit).unwrap().len(), MAX_COMBINATIONS);
    let over = vec![vec![0u8; 1000], vec![0u8; 501]];
    assert!(matches!(grid_from_lists(&over), Err(AppError::TooManyCombinations { count: 501_000, limit: 500_000 })));
}

#[test]
fn test_snap_to_step() {
    let stepped = range("period", "P", 5.0, 25.0, 5.0);
    assert_eq!(snap_to_step(&F64, 7.0, &stepped), 5.0);
    assert_eq!(snap_to_step(&F64, 8.0, &stepped), 10.0);
    assert_eq!(snap_to_step(&F64, 12.5, &stepped), 15.0);
    assert_eq!(snap_to_step(&F64, 25.0, &stepped), 25.0);
    assert_eq!(snap_to_step(&F64, 99.0, &stepped), 25.0);
    let flat = range("period", "Flat", 5.0, 25.0, 0.0);
    assert_eq!(snap_to_step(&F64, 7.3, &flat), 7.3);
}

#[test]
fn progress_is_told_every_hundredth_completion() {
    assert_eq!(grid_progress(1, 10), Some(10));
    assert_eq!(grid_progress(10, 10), Some(100));
    assert_eq!(grid_progress(1, 1000), None);
    assert_eq!(grid_progress(9, 1000), None);
    assert_eq!(grid_progress(10, 1000), Some(1));
    assert_eq!(grid_progress(250, 1000), Some(25));
    assert_eq!(grid_progress(251, 1000), None);
    assert_eq!(grid_progress(999, 999), Some(100));
    assert_eq!(grid_progress(998, 999), None);
    assert_eq!(grid_progress(150, 250), Some(60));
    assert_eq!(grid_progress(0, 5), Some(0));
    assert_eq!(grid_progress(0, 0), Some(0));
}

// ── Objectives and results ──

#[test]
fn test_extract_objective() {
    let metrics = metrics();
    assert_eq!(extract_objective(&F64, &metrics, ObjectiveFunction::TotalProfit), 1000.0);
    assert_eq!(extract_objective(&F64, &metrics, ObjectiveFunction::SharpeRatio), 1.5);
    assert_eq!(extract_objective(&F64, &metrics, ObjectiveFunction::ProfitFactor), 2.0);
    assert_eq!(extract_objective(&F64, &metrics, ObjectiveFunction::WinRate), 55.0);
    assert_eq!(extract_objective(&F64, &metrics, ObjectiveFunction::ReturnDdRatio), 2.5);
    assert_eq!(extract_objective(&F64, &metrics, ObjectiveFunction::MinStagnation), -100.0);
    assert_eq!(extract_objective(&F64, &metrics, ObjectiveFunction::MinUlcerIndex), -3.5);
}

#[test]
fn result_carries_names_and_headlines() {
    let ranges = vec![range("period", "Fast", 1.0, 9.0, 1.0), range("slow_period", "Slow", 1.0, 9.0, 1.0)];
    let r = build_result(&F64, &ranges, &vec![3.0, 7.0], &metrics(), &vec![ObjectiveFunction::ProfitFactor, ObjectiveFunction::WinRate]);
    assert_eq!(r.objective_value, 2.0);
    assert_eq!(r.composite_score, 0.0);
    assert_eq!(r.stagnation_bars, 100);
    assert_eq!(r.params.len(), 2);
    assert_eq!((r.params[1].name.as_str(), r.params[1].value), ("Slow", 7.0));
    assert_eq!(build_result(&F64, &ranges, &vec![3.0, 7.0], &metrics(), &Vec::new()).objective_value, 1.5);
    assert_eq!(param_values_of(&ranges, &r, 0.0), vec![3.0, 7.0]);
    let other = vec![range("period", "Slow", 0.0, 1.0, 1.0), range("period", "Unknown", 0.0, 1.0, 1.0)];
    assert_eq!(param_values_of(&other, &r, 0.0), vec![7.0, 0.0]);
    let failed = build_failed_result(&ranges, &vec![1.0, 2.0], f64::NEG_INFINITY, 0.0);
    assert_eq!(failed.objective_value, f64::NEG_INFINITY);
    assert_eq!(failed.composite_score, f64::NEG_INFINITY);
    assert_eq!(failed.total_trades, 0);
}

#[test]
fn composite_is_mean_of_normalised_objectives() {
    let mut results = vec![result_with(1.0, 0.0), result_with(3.0, 0.0), result_with(2.0, 0.0)];
    results[0].sharpe_ratio = 1.0;
    results[1].sharpe_ratio = 3.0;
    results[2].sharpe_ratio = 2.0;
    results[0].profit_factor = 4.0;
    results[1].profit_factor = 4.0;
    results[2].profit_factor = 4.0;
    compute_composite_scores(&F64, &mut results, &vec![ObjectiveFunction::SharpeRatio, ObjectiveFunction::ProfitFactor]);
    let scores: Vec<f64> = results.iter().map(|r| r.composite_score).collect();
    assert_eq!(scores, vec![0.25, 0.75, 0.5]);
    compute_composite_scores(&F64, &mut results, &vec![ObjectiveFunction::SharpeRatio]);
    let scores: Vec<f64> = results.iter().map(|r| r.composite_score).collect();
    assert_eq!(scores, vec![1.0, 3.0, 2.0]);
    compute_composite_scores(&F64, &mut results, &Vec::new());
    assert_eq!(results[1].composite_score, 3.0);
}

// ── Ranking ──

#[test]
fn ranking_is_stable_and_descending() {
    assert_eq!(rank_order(&vec![5, 9, 5, 1, 9]), vec![1, 4, 0, 2, 3]);
    assert_eq!(rank_order(&Vec::new()), Vec::<usize>::new());
    assert_eq!(top_ranked(&vec![5, 9, 5, 1, 9], 2), vec![1, 4]);
    assert_eq!(top_ranked(&vec![5, 9], 7), vec![1, 0]);
    assert_eq!(arrange(vec!["a", "b", "c", "d"], &vec![2, 0, 3]), vec!["c", "a", "d"]);
    assert_eq!(arrange(vec![1, 2], &Vec::new()), Vec::<i32>::new());
}

#[test]
fn results_are_sorted_and_truncated() {
    let results: Vec<OptimizationResult<f64>> = (0..60).map(|i| result_with((i % 10) as f64, (59 - i) as f64)).collect();
    let single = rank_results(&F64, results.clone(), 1);
    assert_eq!(single.len(), MAX_RESULTS);
    assert_eq!(single[0].objective_value, 9.0);
    assert_eq!(single[0].composite_score, 50.0);
    assert_eq!(single[1].composite_score, 40.0);
    assert!(single.windows(2).all(|w| w[0].objective_value >= w[1].objective_value));
    let multi = rank_results(&F64, results, 2);
    assert_eq!(multi[0].composite_score, 59.0);
    assert_eq!(multi[49].composite_score, 10.0);
    let worst_last = rank_results(&F64, vec![result_with(f64::NEG_INFINITY, 0.0), result_with(-1.0, 0.0), result_with(f64::INFINITY, 0.0)], 1);
    let order: Vec<f64> = worst_last.iter().map(|r| r.objective_value).collect();
    assert_eq!(order, vec![f64::INFINITY, -1.0, f64::NEG_INFINITY]);
}

// ── Patching a strategy ──

#[test]
fn params_reach_their_targets() {
    let mut second_exit = range("period", "Exit", 0.0, 100.0, 1.0);
    second_exit.rule_index = 2;
    second_exit.operand_side = "right".into();
    let mut entry = range("period", "Entry", 0.0, 100.0, 1.0);
    entry.param_source = "long_entry".into();
    entry.operand_side = "any".into();
    let mut stop = range("value", "Stop", 0.0, 100.0, 1.0);
    stop.param_source = "stop_loss".into();
    let mut atr = range("atr_period", "Atr", 0.0, 100.0, 1.0);
    atr.param_source = "stop_loss".into();
    let mut hour = range("end_hour", "Hour", 0.0, 100.0, 1.0);
    hour.param_source = "trading_hours".into();
    let mut minute = range("minute", "Minute", 0.0, 100.0, 1.0);
    minute.param_source = "close_trades_at".into();
    let mut target = range("value", "Target", 0.0, 100.0, 1.0);
    target.param_source = "take_profit".into();
    let ranges = vec![second_exit, entry, stop, atr, hour, minute, target];
    let values = vec![44.4, 12.5, 25.5, 13.6, 77.0, 30.2, 9.0];
    let patched = apply_params(&F64, strategy(), &ranges, &values);
    assert_eq!(period_of(&patched.long_exit_rules[1]), Some(44));
    assert_eq!(period_of(&patched.long_exit_rules[0]), Some(20));
    assert_eq!(period_of(&patched.long_entry_rules[0]), Some(13));
    let stop_loss = patched.stop_loss.unwrap();
    assert_eq!((stop_loss.value, stop_loss.atr_period), (25.5, Some(14)));
    assert_eq!(patched.trading_hours, Some(TradingHours { start_hour: 0, start_minute: 0, end_hour: 23, end_minute: 59 }));
    assert_eq!(patched.close_trades_at, Some(CloseTradesAt { hour: 16, minute: 30 }));
    assert!(patched.take_profit.is_none());
    assert_eq!(patched.name, "test");
}

#[test]
fn params_that_name_nothing_change_nothing() {
    let mut far = range("period", "Far", 0.0, 1.0, 1.0);
    far.rule_index = 9;
    let mut negative = range("period", "Negative", 0.0, 1.0, 1.0);
    negative.rule_index = -1;
    let unknown = range("colour", "Unknown", 0.0, 1.0, 1.0);
    let mut left_only = range("period", "Left", 0.0, 1.0, 1.0);
    left_only.param_source = "long_exit".into();
    let mut s = strategy();
    for r in [far, negative, unknown, left_only] {
        apply_param(&mut s, &r, 5.0, 5);
    }
    assert_eq!(period_of(&s.long_entry_rules[0]), Some(10));
    assert_eq!(period_of(&s.long_exit_rules[0]), Some(20));
    assert_eq!(period_of(&s.long_exit_rules[1]), Some(30));

    let mut params: IndicatorParams<f64> = IndicatorParams::empty();
    assert!(set_param(&mut params, &"std_dev".to_string(), 2.5, 3));
    assert!(set_param(&mut params, &"k_period".to_string(), 2.5, 3));
    assert!(!set_param(&mut params, &"gamma".to_string(), 2.5, 3));
    assert_eq!((params.std_dev, params.k_period, params.gamma), (Some(2.5), Some(3), None));
}

// ── Genetic operators ──

#[test]
fn tournament_prefers_strictly_better() {
    let fitness = vec![5, 9, 9, 1];
    assert_eq!(tournament_pick(&fitness, 0, 1, 2), 1);
    assert_eq!(tournament_pick(&fitness, 2, 1, 3), 2);
    assert_eq!(tournament_pick(&fitness, 3, 3, 0), 0);
    assert_eq!(elite_index(&fitness), 2);
    assert_eq!(elite_index(&vec![7]), 0);
    let mut rng = StdRng::seed_from_u64(7);
    let mut seen = [false; 4];
    for _ in 0..200 {
        let winner = tournament_select(&fitness, &mut rng);
        assert!(winner < 4);
        seen[winner] = true;
    }
    assert!(seen[1] && seen[2]);
    assert!(seen.iter().filter(|&&s| s).count() > 1);
}

#[test]
fn crossover_swaps_tails() {
    let a = vec![1, 2, 3, 4];
    let b = vec![5, 6, 7, 8];
    assert_eq!(crossover_at(&a, &b, 1), (vec![1, 6, 7, 8], vec![5, 2, 3, 4]));
    assert_eq!(crossover_at(&a, &b, 4), (a.clone(), b.clone()));
    assert_eq!(crossover_at(&a, &b, 0), (b.clone(), a.clone()));
    let mut rng = StdRng::seed_from_u64(11);
    let mut points = std::collections::BTreeSet::new();
    for _ in 0..100 {
        let (c, d) = crossover(&a, &b, &mut rng);
        let point = c.iter().position(|g| *g > 4).unwrap();
        assert!((1..4).contains(&point));
        assert_eq!((c, d), crossover_at(&a, &b, point));
        points.insert(point);
    }
    assert_eq!(points.len(), 3);
}

#[test]
fn mutation_keeps_genes_in_range() {
    let ranges = vec![range("period", "A", 5.0, 25.0, 5.0), range("period", "B", 1.0, 3.0, 1.0)];
    let mut rng = StdRng::seed_from_u64(3);
    let mut genes = vec![5.0, 1.0, 99.0];
    mutate(&F64, &mut genes, &ranges, 1.0, &Dice, &mut rng);
    assert_eq!(genes.len(), 3);
    assert!([5.0, 10.0, 15.0, 20.0, 25.0].contains(&genes[0]));
    assert!([1.0, 2.0, 3.0].contains(&genes[1]));
    assert_eq!(genes[2], 99.0);
    let mut still = vec![5.0, 1.0];
    mutate(&F64, &mut still, &ranges, 0.0, &Dice, &mut rng);
    assert_eq!(still, vec![5.0, 1.0]);
}

#[test]
fn next_generation_keeps_the_elite_first() {
    let ranges = vec![range("period", "A", 0.0, 9.0, 1.0), range("period", "B", 0.0, 9.0, 1.0)];
    let mut rng = StdRng::seed_from_u64(5);
    let population = random_population(&F64, 6, &ranges, &Dice, &mut rng);
    assert_eq!(population.len(), 6);
    assert!(population.iter().all(|genes| genes.len() == 2));
    let fitness = vec![3, 8, 1, 8, 0, 2];
    for size in [0usize, 1, 5, 6] {
        let next = next_generation(&F64, &population, &fitness, size, &ranges, 0.9, 0.2, &Dice, &mut rng);
        assert_eq!(next.len(), size.max(1));
        assert_eq!(next[0], population[3]);
        assert!(next.iter().all(|genes| genes.len() == 2));
    }
}

// ── Searches ──

fn wave_candles(count: usize) -> Vec<Candle<f64>> {
    (0..count)
        .map(|i| {
            let phase = (i % 16) as f64;
            let swing = if phase < 8.0 { phase } else { 16.0 - phase };
            let close = 1.1000 + 0.0010 * swing + 0.0001 * i as f64;
            let timestamp = 1_704_067_200_000_000 + 3_600_000_000 * i as i64;
            Candle {
                timestamp,
                datetime: micros_to_datetime_string(timestamp),
                open: close - 0.0002,
                high: close + 0.0005,
                low: close - 0.0005,
                close,
                volume: 1000.0,
            }
        })
        .collect()
}

fn trend_strategy() -> Strategy<f64> {
    let price = Operand {
        operand_type: OperandType::Price,
        indicator: None,
        price_field: Some(PriceField::Close),
        constant_value: None,
        time_field: None,
        candle_pattern: None,
        offset: None,
    };
    let mut above = sma_rule(5);
    above.left_operand = price.clone();
    let mut below = sma_rule(5);
    below.left_operand = price;
    below.comparator = Comparator::LessThan;
    let mut s = strategy();
    s.long_entry_rules = vec![above];
    s.long_exit_rules = vec![below];
    s.stop_loss = None;
    s.take_profit = Some(TakeProfit { tp_type: TakeProfitType::Pips, value: 20.0, atr_period: None });
    s.trade_direction = TradeDirection::Long;
    s
}

fn search_config() -> BacktestConfig<f64> {
    BacktestConfig {
        symbol_id: "sym".to_string(),
        timeframe: Timeframe::H1,
        start_date: String::new(),
        end_date: String::new(),
        initial_capital: 10_000.0,
        leverage: 1.0,
        precision: BacktestPrecision::SelectedTfOnly,
    }
}

fn forex() -> InstrumentConfig<f64> {
    InstrumentConfig { pip_size: 0.0001, pip_value: 10.0, lot_size: 100_000.0, min_lot: 0.01, tick_size: 0.00001, digits: 5 }
}

fn entry_period(min: f64, max: f64, step: f64) -> ParameterRange<f64> {
    let mut r = range("period", "Entry", min, max, step);
    r.param_source = "long_entry".into();
    r.operand_side = "right".into();
    r
}

fn target_pips(min: f64, max: f64, step: f64) -> ParameterRange<f64> {
    let mut r = range("value", "Target", min, max, step);
    r.param_source = "take_profit".into();
    r
}

/// The profit of one parameter vector, by a run of its own; `None` where
/// the run fails.
fn profit_of(candles: &Vec<Candle<f64>>, ranges: &Vec<ParameterRange<f64>>, values: &Vec<f64>) -> Option<f64> {
    let patched = apply_params(&F64, trend_strategy(), ranges, values);
    let flag = AtomicBool::new(false);
    run_backtest(candles, &SubBarData::Absent, &patched, &search_config(), &forex(), &F64, &flag, |_, _, _| {})
        .ok()
        .map(|run| extract_objective(&F64, &run.metrics, ObjectiveFunction::TotalProfit))
}

/// Every vector of the grid that runs, with its profit, from the best down
/// and of equal ones the earlier first.
fn ranked_by_hand(candles: &Vec<Candle<f64>>, ranges: &Vec<ParameterRange<f64>>) -> Vec<(Vec<f64>, f64)> {
    let mut scored: Vec<(Vec<f64>, f64)> = generate_grid(&F64, ranges)
        .unwrap()
        .into_iter()
        .filter_map(|values| profit_of(candles, ranges, &values).map(|p| (values, p)))
        .collect();
    scored.sort_by(|a, b| b.1.partial_cmp(&a.1).unwrap());
    scored
}

fn picture(results: &Vec<OptimizationResult<f64>>) -> Vec<(Vec<f64>, f64)> {
    results.iter().map(|r| (r.params.iter().map(|p| p.value).collect(), r.objective_value)).collect()
}

fn grid(
    candles: &Vec<Candle<f64>>,
    ranges: &Vec<ParameterRange<f64>>,
    flag: &AtomicBool,
    reports: &RefCell<Vec<(u8, usize, usize, f64)>>,
) -> Result<Vec<OptimizationResult<f64>>, AppError> {
    run_grid_search(
        candles,
        &SubBarData::Absent,
        &trend_strategy(),
        &search_config(),
        &forex(),
        &F64,
        ranges,
        &vec![ObjectiveFunction::TotalProfit],
        flag,
        |pct, current, total, best| reports.borrow_mut().push((pct, current, total, best)),
    )
}

#[test]
fn grid_search_returns_best_first() {
    let candles = wave_candles(80);
    let ranges = vec![entry_period(3.0, 9.0, 3.0), target_pips(10.0, 30.0, 10.0)];
    let flag = AtomicBool::new(false);
    let reports = RefCell::new(Vec::new());
    let top = grid(&candles, &ranges, &flag, &reports).unwrap();
    let by_hand = ranked_by_hand(&candles, &ranges);
    assert_eq!(by_hand.len(), 9);
    assert!(by_hand[0].1 > by_hand[8].1);
    assert_eq!(picture(&top), by_hand);
    assert!(top.iter().all(|r| r.params[0].name == "Entry" && r.params[1].name == "Target"));
    assert!(top.iter().all(|r| r.composite_score == r.objective_value && r.oos_results.is_empty()));
    assert!(top.iter().any(|r| r.total_trades > 0));

    let told = reports.into_inner();
    assert_eq!(told.len(), 9);
    for (k, &(pct, current, total, _)) in told.iter().enumerate() {
        assert_eq!((pct as usize, current, total), ((k + 1) * 100 / 9, k + 1, 9));
    }
    assert!(told.windows(2).all(|w| w[0].3 <= w[1].3));
    assert_eq!(told[8].3, top[0].objective_value);
}

#[test]
fn grid_search_leaves_failed_runs_out() {
    let candles = wave_candles(80);
    let ranges = vec![entry_period(4.0, 204.0, 100.0), target_pips(10.0, 20.0, 10.0)];
    let flag = AtomicBool::new(false);
    let reports = RefCell::new(Vec::new());
    let top = grid(&candles, &ranges, &flag, &reports).unwrap();
    assert_eq!(top.len(), 2);
    assert!(top.iter().all(|r| r.params[0].value == 4.0));
    assert_eq!(picture(&top), ranked_by_hand(&candles, &ranges));
    assert_eq!(reports.into_inner().iter().map(|r| r.1).collect::<Vec<_>>(), vec![1, 2]);

    let short = wave_candles(3);
    assert!(grid(&short, &ranges, &flag, &RefCell::new(Vec::new())).unwrap().is_empty());
}

#[test]
fn grid_search_works_through_its_batches() {
    let candles = wave_candles(60);
    let ranges = vec![entry_period(2.0, 21.0, 1.0), target_pips(1.0, 20.0, 1.0)];
    let flag = AtomicBool::new(false);
    let reports = RefCell::new(Vec::new());
    let top = grid(&candles, &ranges, &flag, &reports).unwrap();
    let by_hand = ranked_by_hand(&candles, &ranges);
    assert_eq!(by_hand.len(), 400);
    assert_eq!(top.len(), MAX_RESULTS);
    assert_eq!(picture(&top), by_hand[..MAX_RESULTS].to_vec());
    let told = reports.into_inner();
    assert_eq!(told.len(), 100);
    assert_eq!((told[0].0, told[0].1, told[0].2), (1, 4, 400));
    assert_eq!((told[99].0, told[99].1, told[99].2), (100, 400, 400));
    assert!(told.windows(2).all(|w| w[0].1 + 4 == w[1].1 && w[0].3 <= w[1].3));
    assert_eq!(told[99].3, top[0].objective_value);
}

#[test]
fn grid_search_refuses_bad_input() {
    let candles = wave_candles(80);
    let ranges = vec![entry_period(3.0, 9.0, 3.0)];
    let reports = RefCell::new(Vec::new());
    let cancelled = AtomicBool::new(true);
    assert!(matches!(grid(&candles, &ranges, &cancelled, &reports), Err(AppError::OptimizationCancelled)));
    assert!(reports.borrow().is_empty());
    let flag = AtomicBool::new(false);
    match grid(&candles, &Vec::new(), &flag, &reports) {
        Err(AppError::OptimizationError(m)) => assert_eq!(m, "No parameter ranges specified"),
        _ => panic!("a search without ranges must be refused"),
    }
    let wide = vec![range("period", "A", 1.0, 800.0, 1.0), range("period", "B", 1.0, 800.0, 1.0)];
    assert!(matches!(
        grid(&candles, &wide, &flag, &reports),
        Err(AppError::TooManyCombinations { count: 640000, limit: 500000 })
    ));
}

#[test]
fn one_candidate_is_run_skipped_or_failed() {
    let candles = wave_candles(80);
    let ranges = vec![entry_period(3.0, 9.0, 3.0), target_pips(10.0, 30.0, 10.0)];
    let objectives = vec![ObjectiveFunction::TotalProfit];
    let flag = AtomicBool::new(false);
    let evaluate = |values: &Vec<f64>, flag: &AtomicBool| {
        evaluate_candidate(&F64, &candles, &SubBarData::Absent, &trend_strategy(), &search_config(), &forex(), &ranges, &objectives, flag, values)
    };
    match evaluate(&vec![6.0, 20.0], &flag) {
        Evaluated::Done(r) => {
            assert_eq!(Some(r.objective_value), profit_of(&candles, &ranges, &vec![6.0, 20.0]));
            assert_eq!(r.params.iter().map(|p| (p.name.as_str(), p.value)).collect::<Vec<_>>(), vec![("Entry", 6.0), ("Target", 20.0)]);
        }
        _ => panic!("the run must finish"),
    }
    match evaluate(&vec![600.0, 20.0], &flag) {
        Evaluated::Failed(r) => {
            assert_eq!((r.objective_value, r.composite_score, r.total_trades), (f64::NEG_INFINITY, f64::NEG_INFINITY, 0));
            assert_eq!(r.params.iter().map(|p| p.value).collect::<Vec<_>>(), vec![600.0, 20.0]);
        }
        _ => panic!("the run must fail"),
    }
    assert!(matches!(evaluate(&vec![6.0, 20.0], &AtomicBool::new(true)), Evaluated::Skipped));
}

fn genetic(seed: u64, ga: &GeneticAlgorithmConfig<f64>, flag: &AtomicBool) -> Result<Vec<OptimizationResult<f64>>, AppError> {
    let ranges = vec![entry_period(2.0, 12.0, 1.0), target_pips(5.0, 45.0, 5.0)];
    let mut rng = StdRng::seed_from_u64(seed);
    run_genetic_algorithm(
        &wave_candles(80),
        &SubBarData::Absent,
        &trend_strategy(),
        &search_config(),
        &forex(),
        &F64,
        &Dice,
        &mut rng,
        &ranges,
        &vec![ObjectiveFunction::TotalProfit],
        ga,
        flag,
        |_, _, _, _| {},
    )
}

#[test]
fn genetic_search_with_one_seed_repeats_itself() {
    let ga = GeneticAlgorithmConfig { population_size: 20, generations: 8, mutation_rate: 0.2, crossover_rate: 0.8 };
    let flag = AtomicBool::new(false);
    let first = genetic(42, &ga, &flag).unwrap();
    let second = genetic(42, &ga, &flag).unwrap();
    assert!(!first.is_empty() && first.len() <= MAX_RESULTS);
    assert_eq!(picture(&first), picture(&second));
    assert!(first.windows(2).all(|w| w[0].objective_value >= w[1].objective_value));
    assert!(first.windows(2).all(|w| picture(&vec![w[0].clone()]) != picture(&vec![w[1].clone()])));
    let candles = wave_candles(80);
    let ranges = vec![entry_period(2.0, 12.0, 1.0), target_pips(5.0, 45.0, 5.0)];
    for (values, profit) in picture(&first) {
        assert_eq!(Some(profit), profit_of(&candles, &ranges, &values));
        assert!((2.0..=12.0).contains(&values[0]) && values[0].fract() == 0.0);
        assert!((5.0..=45.0).contains(&values[1]) && values[1] % 5.0 == 0.0);
    }
}

#[test]
fn genetic_search_refuses_bad_input() {
    let flag = AtomicBool::new(false);
    let ga = GeneticAlgorithmConfig { population_size: 0, generations: 3, mutation_rate: 0.2, crossover_rate: 0.8 };
    match genetic(1, &ga, &flag) {
        Err(AppError::InvalidConfig(m)) => assert_eq!(m, "Population size must be positive"),
        _ => panic!("an empty population must be refused"),
    }
    let none = GeneticAlgorithmConfig { population_size: 4, generations: 0, mutation_rate: 0.2, crossover_rate: 0.8 };
    assert_eq!(genetic(1, &none, &flag).unwrap().len(), 0);
    let some = GeneticAlgorithmConfig { population_size: 4, generations: 2, mutation_rate: 0.2, crossover_rate: 0.8 };
    assert!(matches!(genetic(1, &some, &AtomicBool::new(true)), Err(AppError::OptimizationCancelled)));
    let mut rng = StdRng::seed_from_u64(1);
    let no_ranges = run_genetic_algorithm(
        &wave_candles(80),
        &SubBarData::Absent,
        &trend_strategy(),
        &search_config(),
        &forex(),
        &F64,
        &Dice,
        &mut rng,
        &Vec::new(),
        &Vec::new(),
        &some,
        &flag,
        |_, _, _, _| {},
    );
    match no_ranges {
        Err(AppError::OptimizationError(m)) => assert_eq!(m, "No parameter ranges specified"),
        _ => panic!("a search without ranges must be refused"),
    }
}

// ── Out of sample ──

fn periods() -> Vec<OosData<f64>> {
    let candles = wave_candles(80);
    vec![
        OosData { label: "early".to_string(), candles: candles[..40].to_vec(), sub_bars: SubBarData::Absent },
        OosData { label: "empty".to_string(), candles: Vec::new(), sub_bars: SubBarData::Absent },
        OosData { label: "late".to_string(), candles: candles[40..].to_vec(), sub_bars: SubBarData::Absent },
    ]
}

#[test]
fn each_result_gets_one_entry_per_period() {
    let ranges = vec![entry_period(3.0, 9.0, 3.0), target_pips(10.0, 30.0, 10.0)];
    let blank = BacktestMetrics { sharpe_ratio: 1.5, ..metrics() };
    let objectives = vec![ObjectiveFunction::SharpeRatio];
    let mut results = vec![
        build_result(&F64, &ranges, &vec![3.0, 10.0], &blank, &objectives),
        build_result(&F64, &ranges, &vec![6.0, 30.0], &blank, &objectives),
        build_result(&F64, &ranges, &vec![600.0, 30.0], &blank, &objectives),
    ];
    let data = periods();
    run_oos_evaluation(&F64, &trend_strategy(), &search_config(), &forex(), &ranges, &data, &mut results);
    assert_eq!(results.len(), 3);
    let flag = AtomicBool::new(false);
    for result in &results {
        let values: Vec<f64> = result.params.iter().map(|p| p.value).collect();
        let labels: Vec<&str> = result.oos_results.iter().map(|o| o.label.as_str()).collect();
        assert_eq!(labels, vec!["early", "empty", "late"]);
        assert_eq!(result.objective_value, 1.5);
        for (oos, period) in result.oos_results.iter().zip(&data) {
            let patched = apply_params(&F64, trend_strategy(), &ranges, &values);
            let run = run_backtest(&period.candles, &period.sub_bars, &patched, &search_config(), &forex(), &F64, &flag, |_, _, _| {});
            let seen = (oos.total_return_pct, oos.sharpe_ratio, oos.max_drawdown_pct, oos.profit_factor, oos.total_trades);
            match run {
                Ok(run) => {
                    let m = run.metrics;
                    assert_eq!(seen, (m.total_return_pct, m.sharpe_ratio, m.max_drawdown_pct, m.profit_factor, m.total_trades));
                }
                Err(_) => assert_eq!(seen, (0.0, 0.0, 0.0, 0.0, 0)),
            }
        }
    }
    assert!(results[0].oos_results[0].total_trades > 0);
    assert_eq!(results[0].oos_results[1].total_trades, 0);
    assert!(results[2].oos_results.iter().all(|o| o.total_trades == 0 && o.total_return_pct == 0.0));

    let mut untouched = vec![result_with(4.0, 0.0)];
    run_oos_evaluation(&F64, &trend_strategy(), &search_config(), &forex(), &ranges, &Vec::new(), &mut untouched);
    assert!(untouched[0].oos_results.is_empty());
    let named = ParamValue { name: "P".to_string(), value: 1.0 };
    assert_eq!(named.name, "P");
}

#[test]
fn whole_search_runs_and_looks_out_of_sample() {
    let candles = wave_candles(80);
    let ranges = vec![entry_period(3.0, 9.0, 3.0), target_pips(10.0, 30.0, 10.0)];
    let mut optimization = OptimizationConfig {
        method: OptimizationMethod::GridSearch,
        parameter_ranges: ranges.clone(),
        objectives: vec![ObjectiveFunction::TotalProfit],
        backtest_config: search_config(),
        ga_config: None,
        oos_periods: Vec::new(),
    };
    let flag = AtomicBool::new(false);
    let search = |optimization: &OptimizationConfig<f64>, candles: &Vec<Candle<f64>>| {
        let mut rng = StdRng::seed_from_u64(7);
        run_optimization(candles, &SubBarData::Absent, &periods(), &trend_strategy(), optimization, &forex(), &F64, &Dice, &mut rng, &flag, |_, _, _, _| {})
    };
    let found = search(&optimization, &candles).unwrap();
    assert_eq!(picture(&found), ranked_by_hand(&candles, &ranges));
    assert!(found.iter().all(|r| r.oos_results.len() == 3 && r.oos_results[1].label == "empty"));
    assert!(matches!(search(&optimization, &Vec::new()), Err(AppError::NoDataInRange)));

    optimization.method = OptimizationMethod::GeneticAlgorithm;
    match search(&optimization, &candles) {
        Err(AppError::OptimizationError(m)) => assert_eq!(m, "Genetic Algorithm config required"),
        _ => panic!("a genetic search needs its configuration"),
    }
    optimization.ga_config = Some(GeneticAlgorithmConfig { population_size: 6, generations: 2, mutation_rate: 0.1, crossover_rate: 0.9 });
    let bred = search(&optimization, &candles).unwrap();
    assert!(!bred.is_empty() && bred.iter().all(|r| r.oos_results.len() == 3 && r.params.len() == 2));
    assert_eq!(picture(&bred), picture(&search(&optimization, &candles).unwrap()));
}

#[test]
fn a_range_lists_its_steps() {
    assert_eq!(range_values(&F64, &range("period", "P", 1.0, 2.0, 0.5)), vec![1.0, 1.5, 2.0]);
    assert_eq!(range_values(&F64, &range("period", "P", 5.0, 25.0, 10.0)), vec![5.0, 15.0, 25.0]);
    assert_eq!(range_values(&F64, &range("period", "P", 5.0, 24.0, 10.0)), vec![5.0, 15.0]);
    assert_eq!(range_values(&F64, &range("period", "P", 3.0, 3.0, 1.0)), vec![3.0]);
    assert_eq!(range_values(&F64, &range("period", "P", 9.0, 3.0, 1.0)), vec![9.0]);
    let tenths = range_values(&F64, &range("period", "P", 0.0, 1.0, 0.1));
    assert_eq!(tenths.len(), 11);
    assert!((tenths[10] - 1.0).abs() < 1e-12);
    assert_eq!(range_values(&F64, &range("period", "P", 0.0, 1e12, 1.0)).len(), MAX_COMBINATIONS + 1);
}

#[test]
fn composite_reads_the_win_rate_of_each_result() {
    let mut results = vec![result_with(1.0, 0.0), result_with(3.0, 0.0), result_with(2.0, 0.0)];
    for (r, (sharpe, wins)) in results.iter_mut().zip([(1.0, 60.0), (3.0, 40.0), (2.0, 50.0)]) {
        r.sharpe_ratio = sharpe;
        r.win_rate_pct = wins;
    }
    compute_composite_scores(&F64, &mut results, &vec![ObjectiveFunction::SharpeRatio, ObjectiveFunction::WinRate]);
    let scores: Vec<f64> = results.iter().map(|r| r.composite_score).collect();
    assert_eq!(scores, vec![0.5, 0.5, 0.5]);
    results[1].win_rate_pct = 60.0;
    compute_composite_scores(&F64, &mut results, &vec![ObjectiveFunction::SharpeRatio, ObjectiveFunction::WinRate]);
    let scores: Vec<f64> = results.iter().map(|r| r.composite_score).collect();
    assert_eq!(scores, vec![0.5, 1.0, 0.25]);
    let built = build_result(&F64, &vec![range("period", "Fast", 1.0, 9.0, 1.0)], &vec![3.0], &metrics(), &vec![ObjectiveFunction::WinRate]);
    assert_eq!((built.win_rate_pct, built.objective_value), (55.0, 55.0));
    assert_eq!(build_failed_result(&Vec::new(), &Vec::new(), f64::NEG_INFINITY, 0.0).win_rate_pct, 0.0);
}

#[test]
fn a_repeated_name_holds_its_last_value() {
    let twice = vec![range("period", "Same", 1.0, 9.0, 1.0), range("slow_period", "Same", 1.0, 9.0, 1.0)];
    let r = build_result(&F64, &twice, &vec![3.0, 7.0], &metrics(), &Vec::new());
    assert_eq!(param_values_of(&twice, &r, 0.0), vec![7.0, 7.0]);
}

#[test]
fn a_reading_of_the_flag_decides_whether_a_candidate_runs() {
    let candles = wave_candles(80);
    let ranges = vec![entry_period(3.0, 9.0, 3.0), target_pips(10.0, 30.0, 10.0)];
    let objectives = vec![ObjectiveFunction::TotalProfit];
    let flag = AtomicBool::new(false);
    let shared = trend_strategy();
    let evaluate = |cancelled: bool| {
        evaluate_unless(cancelled, &F64, &candles, &SubBarData::Absent, &shared, &search_config(), &forex(), &ranges, &objectives, &flag, &vec![6.0, 20.0])
    };
    assert!(matches!(evaluate(true), Evaluated::Skipped));
    match evaluate(false) {
        Evaluated::Done(r) => assert_eq!(Some(r.objective_value), profit_of(&candles, &ranges, &vec![6.0, 20.0])),
        _ => panic!("the run must finish"),
    }
    assert_eq!(period_of(&shared.long_entry_rules[0]), period_of(&trend_strategy().long_entry_rules[0]));
}

#[test]
fn a_copy_of_a_strategy_holds_the_same() {
    let source = trend_strategy();
    let copy = copy_strategy(&source);
    assert_eq!(format!("{:?}", copy), format!("{:?}", source));
    assert_eq!(copy.long_entry_rules.len(), source.long_entry_rules.len());
}

#[test]
fn a_genetic_search_of_no_generations_finds_nothing() {
    let candles = wave_candles(80);
    let optimization = OptimizationConfig {
        method: OptimizationMethod::GeneticAlgorithm,
        parameter_ranges: vec![entry_period(3.0, 9.0, 3.0)],
        objectives: vec![ObjectiveFunction::TotalProfit],
        backtest_config: search_config(),
        ga_config: Some(GeneticAlgorithmConfig { population_size: 4, generations: 0, mutation_rate: 0.1, crossover_rate: 0.9 }),
        oos_periods: Vec::new(),
    };
    let set = AtomicBool::new(true);
    let mut rng = StdRng::seed_from_u64(7);
    let found = run_optimization(&candles, &SubBarData::Absent, &periods(), &trend_strategy(), &optimization, &forex(), &F64, &Dice, &mut rng, &set, |_, _, _, _| {});
    assert_eq!(found.unwrap().len(), 0);
    let mut empty = optimization.clone();
    empty.ga_config = Some(GeneticAlgorithmConfig { population_size: 0, generations: 2, mutation_rate: 0.1, crossover_rate: 0.9 });
    match run_optimization(&candles, &SubBarData::Absent, &periods(), &trend_strategy(), &empty, &forex(), &F64, &Dice, &mut rng, &set, |_, _, _, _| {}) {
        Err(AppError::InvalidConfig(m)) => assert_eq!(m, "Population size must be positive"),
        _ => panic!("an empty population must be refused"),
    }
    empty.parameter_ranges = Vec::new();
    match run_optimization(&candles, &SubBarData::Absent, &periods(), &trend_strategy(), &empty, &forex(), &F64, &Dice, &mut rng, &set, |_, _, _, _| {}) {
        Err(AppError::OptimizationError(m)) => assert_eq!(m, "No parameter ranges specified"),
        _ => panic!("a search without ranges must be refused"),
    }
}
