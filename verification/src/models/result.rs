use vstd::prelude::*;
use crate::models::strategy::BacktestConfig;
use crate::models::trade::TradeResult;

verus! {

/// A point on the equity curve.
#[derive(Debug, Clone)]
pub struct EquityPoint<V> {
    pub timestamp: String,
    pub equity: V,
}

/// A point on the drawdown curve.
#[derive(Debug, Clone)]
pub struct DrawdownPoint<V> {
    pub timestamp: String,
    pub drawdown_pct: V,
}

/// Optimization method.
#[derive(Debug, Clone, Copy, PartialEq, Eq, Structural)]
pub enum OptimizationMethod {
    GridSearch,
    GeneticAlgorithm,
}

/// Objective of a parameter search. The two `Min` objectives are negated
/// internally, so the search always maximises.
#[derive(Debug, Clone, Copy, PartialEq, Eq, Structural, Hash)]
pub enum ObjectiveFunction {
    TotalProfit,
    SharpeRatio,
    ProfitFactor,
    WinRate,
    ReturnDdRatio,
    MinStagnation,
    MinUlcerIndex,
}

/// A date range held back for out-of-sample evaluation.
#[derive(Debug, Clone)]
pub struct OosPeriod {
    pub label: String,
    pub start_date: String,
    pub end_date: String,
}

/// A parameter range to search over.
#[derive(Debug, Clone)]
pub struct ParameterRange<V> {
    pub rule_index: i32,
    pub param_name: String,
    pub display_name: String,
    pub min: V,
    pub max: V,
    pub step: V,
    /// Which operand of the rule holds the indicator: "left" or "right".
    pub operand_side: String,
    /// What the parameter belongs to: a rule group, a risk block or a time
    /// field.
    pub param_source: String,
}

/// Configuration of the genetic algorithm.
#[derive(Debug, Clone)]
pub struct GeneticAlgorithmConfig<V> {
    pub population_size: usize,
    pub generations: usize,
    pub mutation_rate: V,
    pub crossover_rate: V,
}

/// Headline metrics of one parameter set on one out-of-sample period.
#[derive(Debug, Clone)]
pub struct OosResult<V> {
    pub label: String,
    pub total_return_pct: V,
    pub sharpe_ratio: V,
    pub max_drawdown_pct: V,
    pub profit_factor: V,
    pub total_trades: usize,
}

/// Full configuration of a parameter search.
#[derive(Debug, Clone)]
pub struct OptimizationConfig<V> {
    pub method: OptimizationMethod,
    pub parameter_ranges: Vec<ParameterRange<V>>,
    /// One or more objectives; the first is the primary one.
    pub objectives: Vec<ObjectiveFunction>,
    pub backtest_config: BacktestConfig<V>,
    pub ga_config: Option<GeneticAlgorithmConfig<V>>,
    pub oos_periods: Vec<OosPeriod>,
}

/// The value that a search gave to one parameter, under the parameter's
/// display name.
#[derive(Debug, Clone)]
pub struct ParamValue<V> {
    pub name: String,
    pub value: V,
}

/// One evaluated parameter set of a search.
#[derive(Debug, Clone)]
pub struct OptimizationResult<V> {
    /// The parameter values, one per range, in the order of the ranges.
    pub params: Vec<ParamValue<V>>,
    /// Value of the primary objective.
    pub objective_value: V,
    /// Mean of the normalised objectives where there are several.
    pub composite_score: V,
    pub total_return_pct: V,
    pub sharpe_ratio: V,
    pub max_drawdown_pct: V,
    pub total_trades: usize,
    pub profit_factor: V,
    pub win_rate_pct: V,
    pub return_dd_ratio: V,
    pub stagnation_bars: usize,
    pub ulcer_index_pct: V,
    /// Results on each out-of-sample period.
    pub oos_results: Vec<OosResult<V>>,
}

/// All performance metrics of a backtest.
#[derive(Debug, Clone)]
pub struct BacktestMetrics<V> {
    pub final_capital: V,
    pub total_return_pct: V,
    pub annualized_return_pct: V,
    pub monthly_return_avg_pct: V,
    pub sharpe_ratio: V,
    pub sortino_ratio: V,
    pub calmar_ratio: V,
    pub max_drawdown_pct: V,
    pub max_drawdown_duration_bars: usize,
    pub max_drawdown_duration_time: String,
    pub avg_drawdown_pct: V,
    pub recovery_factor: V,
    pub total_trades: usize,
    pub winning_trades: usize,
    pub losing_trades: usize,
    pub breakeven_trades: usize,
    pub win_rate_pct: V,
    pub gross_profit: V,
    pub gross_loss: V,
    pub net_profit: V,
    pub profit_factor: V,
    pub avg_trade: V,
    pub avg_win: V,
    pub avg_loss: V,
    pub largest_win: V,
    pub largest_loss: V,
    pub expectancy: V,
    pub max_consecutive_wins: usize,
    pub max_consecutive_losses: usize,
    pub avg_consecutive_wins: V,
    pub avg_consecutive_losses: V,
    pub avg_trade_duration: String,
    pub avg_bars_in_trade: V,
    pub avg_winner_duration: String,
    pub avg_loser_duration: String,
    pub mae_avg: V,
    pub mae_max: V,
    pub mfe_avg: V,
    pub mfe_max: V,
    pub stagnation_bars: usize,
    pub stagnation_time: String,
    pub ulcer_index_pct: V,
    pub return_dd_ratio: V,
}

/// Complete results of a backtest run.
#[derive(Debug, Clone)]
pub struct BacktestResults<V> {
    pub trades: Vec<TradeResult<V>>,
    pub equity_curve: Vec<EquityPoint<V>>,
    pub drawdown_curve: Vec<DrawdownPoint<V>>,
    pub returns: Vec<V>,
    pub metrics: BacktestMetrics<V>,
}

} // verus!
