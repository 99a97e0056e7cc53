use vstd::prelude::*;
use vstd::string::StringExecFns;
use crate::engine::indicators::clip;
use crate::engine::numeric::{
    adds, distances, divs, highests, ints, maxes, mins, muls, negs, pick, powers, relates, roots,
    subs, Numbers, Relation,
};
use crate::engine::series::{
    count, relation, sum_of, sums_to, whole,
};
use crate::models::config::Timeframe;
use crate::models::result::{BacktestMetrics, EquityPoint};
use crate::models::trade::TradeResult;
use crate::text::{decimal, push_decimal};

verus! {

/// The minutes that `bars` bars of `minutes_per_bar` minutes take, capped at
/// the largest 64-bit number.
pub open spec fn minutes_of(bars: int, minutes_per_bar: int) -> nat {
    if bars * minutes_per_bar > u64::MAX {
        u64::MAX as nat
    } else if bars * minutes_per_bar < 0 {
        0
    } else {
        (bars * minutes_per_bar) as nat
    }
}

/// A duration of `total` minutes as a short text: minutes below an hour,
/// hours and minutes below a day, days and hours from there on.
pub open spec fn duration_text(total: nat) -> Seq<char> {
    if total < 60 {
        decimal(total) + seq!['m']
    } else if total < 1440 {
        decimal(total / 60) + seq!['h', ' '] + decimal(total % 60) + seq!['m']
    } else {
        decimal(total / 1440) + seq!['d', ' '] + decimal((total % 1440) / 60) + seq!['h']
    }
}

/// Formats a number of bars as a short human duration.
pub fn format_bars(bars: usize, minutes_per_bar: u32) -> (s: String)
    ensures
        s@ == duration_text(minutes_of(bars as int, minutes_per_bar as int)),
{
    assert(0 <= bars as int * minutes_per_bar as int <= u128::MAX) by (nonlinear_arith)
        requires
            0 <= bars <= u64::MAX,
            0 <= minutes_per_bar <= u32::MAX,
    ;
    let wide: u128 = bars as u128 * minutes_per_bar as u128;
    let total_minutes: u64 = if wide > u64::MAX as u128 {
        u64::MAX
    } else {
        wide as u64
    };
    let mut s = String::new();
    proof {
        reveal_strlit("m");
        reveal_strlit("h ");
        reveal_strlit("d ");
        reveal_strlit("h");
        assert("m"@ =~= seq!['m']);
        assert("h "@ =~= seq!['h', ' ']);
        assert("d "@ =~= seq!['d', ' ']);
        assert("h"@ =~= seq!['h']);
    }
    if total_minutes < 60 {
        push_decimal(&mut s, total_minutes);
        s.append("m");
    } else if total_minutes < 1440 {
        push_decimal(&mut s, total_minutes / 60);
        s.append("h ");
        push_decimal(&mut s, total_minutes % 60);
        s.append("m");
    } else {
        push_decimal(&mut s, total_minutes / 1440);
        s.append("d ");
        push_decimal(&mut s, (total_minutes % 1440) / 60);
        s.append("h");
    }
    assert(s@ =~= duration_text(total_minutes as nat));
    s
}

/// How often `which` occurs among the first `n` outcomes.
pub open spec fn count_of(outcomes: Seq<Relation>, which: Relation, n: int) -> nat
    decreases n,
{
    if n <= 0 {
        0
    } else {
        count_of(outcomes, which, n - 1) + (if outcomes[n - 1] == which { 1nat } else { 0nat })
    }
}

/// Counts never exceed the number of outcomes looked at, and the counts of
/// different outcomes never add up to more.
pub proof fn lemma_counts_bounded(outcomes: Seq<Relation>, n: int)
    requires
        0 <= n <= outcomes.len(),
    ensures
        count_of(outcomes, Relation::Greater, n) + count_of(outcomes, Relation::Less, n) + count_of(
            outcomes,
            Relation::Equal,
            n,
        ) + count_of(outcomes, Relation::Unordered, n) == n,
    decreases n,
{
    if n > 0 {
        lemma_counts_bounded(outcomes, n - 1);
    }
}

/// Counts the outcomes equal to `which`.
pub fn count_outcomes(outcomes: &Vec<Relation>, which: Relation) -> (n: usize)
    ensures
        n == count_of(outcomes@, which, outcomes@.len() as int),
{
    let mut n: usize = 0;
    let mut i: usize = 0;
    while i < outcomes.len()
        invariant
            i <= outcomes@.len(),
            n == count_of(outcomes@, which, i as int),
            n <= i,
        decreases outcomes@.len() - i,
    {
        if outcomes[i] == which {
            n += 1;
        }
        i += 1;
    }
    n
}

/// The running state of the streak count.
pub struct Streaks {
    pub current_wins: nat,
    pub current_losses: nat,
    pub max_wins: nat,
    pub max_losses: nat,
    /// Lengths of the finished winning streaks, in order.
    pub win_streaks: Seq<nat>,
    /// Lengths of the finished losing streaks, in order.
    pub loss_streaks: Seq<nat>,
}

/// The larger of two naturals.
pub open spec fn larger_nat(a: nat, b: nat) -> nat {
    if a >= b {
        a
    } else {
        b
    }
}

/// One trade's effect on the streak count: a win lengthens the winning
/// streak and ends a losing one, a loss the reverse; a trade that is neither
/// changes nothing.
pub open spec fn streak_step(s: Streaks, outcome: Relation) -> Streaks {
    match outcome {
        Relation::Greater => Streaks {
            current_wins: s.current_wins + 1,
            current_losses: 0,
            max_wins: larger_nat(s.max_wins, s.current_wins + 1),
            max_losses: s.max_losses,
            win_streaks: s.win_streaks,
            loss_streaks: if s.current_losses > 0 {
                s.loss_streaks.push(s.current_losses)
            } else {
                s.loss_streaks
            },
        },
        Relation::Less => Streaks {
            current_wins: 0,
            current_losses: s.current_losses + 1,
            max_wins: s.max_wins,
            max_losses: larger_nat(s.max_losses, s.current_losses + 1),
            win_streaks: if s.current_wins > 0 {
                s.win_streaks.push(s.current_wins)
            } else {
                s.win_streaks
            },
            loss_streaks: s.loss_streaks,
        },
        _ => s,
    }
}

/// The streak count after the first `n` trades.
pub open spec fn streaks_after(outcomes: Seq<Relation>, n: int) -> Streaks
    decreases n,
{
    if n <= 0 {
        Streaks {
            current_wins: 0,
            current_losses: 0,
            max_wins: 0,
            max_losses: 0,
            win_streaks: Seq::empty(),
            loss_streaks: Seq::empty(),
        }
    } else {
        streak_step(streaks_after(outcomes, n - 1), outcomes[n - 1])
    }
}

/// The streaks of a whole trade list: the finished ones, and the one that
/// was running at the end.
pub open spec fn all_streaks(finished: Seq<nat>, current: nat) -> Seq<nat> {
    if current > 0 {
        finished.push(current)
    } else {
        finished
    }
}

/// The sum of a sequence of naturals.
pub open spec fn total(s: Seq<nat>) -> nat
    decreases s.len(),
{
    if s.len() == 0 {
        0
    } else {
        total(s.drop_last()) + s.last()
    }
}

/// Consecutive wins and losses of a trade list.
pub struct Consecutive {
    pub max_wins: usize,
    pub max_losses: usize,
    /// Number of winning streaks.
    pub win_streaks: usize,
    /// Number of trades in winning streaks.
    pub win_total: usize,
    /// Number of losing streaks.
    pub loss_streaks: usize,
    /// Number of trades in losing streaks.
    pub loss_total: usize,
}

/// The running state keeps its sums within the number of trades seen.
proof fn lemma_streaks_bounded(outcomes: Seq<Relation>, n: int)
    requires
        0 <= n <= outcomes.len(),
    ensures
        ({
            let s = streaks_after(outcomes, n);
            &&& total(s.win_streaks) + s.current_wins + total(s.loss_streaks) + s.current_losses <= n
            &&& s.win_streaks.len() <= total(s.win_streaks)
            &&& s.loss_streaks.len() <= total(s.loss_streaks)
            &&& s.max_wins <= n
            &&& s.max_losses <= n
            &&& s.current_wins <= s.max_wins
            &&& s.current_losses <= s.max_losses
        }),
    decreases n,
{
    if n > 0 {
        lemma_streaks_bounded(outcomes, n - 1);
        let p = streaks_after(outcomes, n - 1);
        if p.current_wins > 0 {
            assert(p.win_streaks.push(p.current_wins).drop_last() =~= p.win_streaks);
        }
        if p.current_losses > 0 {
            assert(p.loss_streaks.push(p.current_losses).drop_last() =~= p.loss_streaks);
        }
    }
}

/// Counts consecutive wins and losses. Each outcome says how a trade's
/// profit compares with zero.
pub fn count_consecutive(outcomes: &Vec<Relation>) -> (c: Consecutive)
    ensures
        ({
            let s = streaks_after(outcomes@, outcomes@.len() as int);
            &&& c.max_wins == s.max_wins
            &&& c.max_losses == s.max_losses
            &&& c.win_streaks == all_streaks(s.win_streaks, s.current_wins).len()
            &&& c.win_total == total(all_streaks(s.win_streaks, s.current_wins))
            &&& c.loss_streaks == all_streaks(s.loss_streaks, s.current_losses).len()
            &&& c.loss_total == total(all_streaks(s.loss_streaks, s.current_losses))
        }),
{
    let mut max_wins: usize = 0;
    let mut max_losses: usize = 0;
    let mut current_wins: usize = 0;
    let mut current_losses: usize = 0;
    let mut win_streaks: usize = 0;
    let mut win_total: usize = 0;
    let mut loss_streaks: usize = 0;
    let mut loss_total: usize = 0;
    let mut i: usize = 0;
    while i < outcomes.len()
        invariant
            i <= outcomes@.len(),
            ({
                let s = streaks_after(outcomes@, i as int);
                &&& current_wins == s.current_wins
                &&& current_losses == s.current_losses
                &&& max_wins == s.max_wins
                &&& max_losses == s.max_losses
                &&& win_streaks == s.win_streaks.len()
                &&& win_total == total(s.win_streaks)
                &&& loss_streaks == s.loss_streaks.len()
                &&& loss_total == total(s.loss_streaks)
            }),
        decreases outcomes@.len() - i,
    {
        proof {
            lemma_streaks_bounded(outcomes@, i as int);
            lemma_streaks_bounded(outcomes@, i as int + 1);
            let p = streaks_after(outcomes@, i as int);
            if p.current_wins > 0 {
                assert(p.win_streaks.push(p.current_wins).drop_last() =~= p.win_streaks);
            }
            if p.current_losses > 0 {
                assert(p.loss_streaks.push(p.current_losses).drop_last() =~= p.loss_streaks);
            }
        }
        match outcomes[i] {
            Relation::Greater => {
                current_wins += 1;
                if current_losses > 0 {
                    loss_streaks += 1;
                    loss_total += current_losses;
                    current_losses = 0;
                }
                if current_wins > max_wins {
                    max_wins = current_wins;
                }
            },
            Relation::Less => {
                current_losses += 1;
                if current_wins > 0 {
                    win_streaks += 1;
                    win_total += current_wins;
                    current_wins = 0;
                }
                if current_losses > max_losses {
                    max_losses = current_losses;
                }
            },
            _ => {},
        }
        i += 1;
    }
    proof {
        lemma_streaks_bounded(outcomes@, outcomes@.len() as int);
        let s = streaks_after(outcomes@, outcomes@.len() as int);
        if s.current_wins > 0 {
            assert(s.win_streaks.push(s.current_wins).drop_last() =~= s.win_streaks);
        }
        if s.current_losses > 0 {
            assert(s.loss_streaks.push(s.current_losses).drop_last() =~= s.loss_streaks);
        }
    }
    if current_wins > 0 {
        win_streaks += 1;
        win_total += current_wins;
    }
    if current_losses > 0 {
        loss_streaks += 1;
        loss_total += current_losses;
    }
    Consecutive { max_wins, max_losses, win_streaks, win_total, loss_streaks, loss_total }
}

/// The longest run of points that set no new high, among the first `n`
/// points of a curve. `new_high[i]` says whether point `i` rose above every
/// point before it; the first point starts the count and is no part of a run.
pub open spec fn stagnation_run(new_high: Seq<bool>, n: int) -> nat
    decreases n,
{
    if n <= 1 || new_high[n - 1] {
        0
    } else {
        stagnation_run(new_high, n - 1) + 1
    }
}

/// The longest run of points without a new high among the first `n`
/// points, where `new_high` marks the points that set one.
pub open spec fn stagnation_of(new_high: Seq<bool>, n: int) -> nat
    decreases n,
{
    if n <= 1 {
        0
    } else {
        larger_nat(stagnation_of(new_high, n - 1), stagnation_run(new_high, n))
    }
}

/// A run is shorter than the number of points.
proof fn lemma_run_bounded(new_high: Seq<bool>, n: int)
    ensures
        stagnation_run(new_high, n) <= (if n >= 1 { n - 1 } else { 0 }),
    decreases n,
{
    if n > 1 && !new_high[n - 1] {
        lemma_run_bounded(new_high, n - 1);
    }
}

/// Measures the longest run without a new high, given for each point
/// whether it set one.
pub fn longest_stagnation(new_high: &Vec<bool>) -> (bars: usize)
    ensures
        bars == stagnation_of(new_high@, new_high@.len() as int),
{
    if new_high.len() < 2 {
        return 0;
    }
    let mut current: usize = 0;
    let mut max: usize = 0;
    let mut i: usize = 1;
    while i < new_high.len()
        invariant
            1 <= i <= new_high@.len(),
            current == stagnation_run(new_high@, i as int),
            max == stagnation_of(new_high@, i as int),
        decreases new_high@.len() - i,
    {
        proof {
            lemma_run_bounded(new_high@, i as int);
        }
        if new_high[i] {
            current = 0;
        } else {
            current += 1;
            if current > max {
                max = current;
            }
        }
        i += 1;
    }
    max
}

/// Point `i` of a curve is marked as a new high exactly where `numbers`
/// finds its equity greater than the peak before it, and the peak follows.
pub open spec fn climbed_at<V, N: Numbers<V>>(numbers: &N, curve: Seq<EquityPoint<V>>, peaks: Seq<V>, new_high: Seq<bool>, i: int) -> bool {
    exists|over: Relation| #[trigger]
        relates(numbers, curve[i].equity, peaks[i - 1], over) && new_high[i] == (over == Relation::Greater) && peaks[i] == (if over == Relation::Greater {
            curve[i].equity
        } else {
            peaks[i - 1]
        })
}

/// `peaks` are the running peaks of a curve, from its first point on, and
/// `new_high` marks the points that set one; the first point counts as one.
pub open spec fn peaks_run<V, N: Numbers<V>>(numbers: &N, curve: Seq<EquityPoint<V>>, peaks: Seq<V>, new_high: Seq<bool>) -> bool {
    &&& peaks.len() == curve.len()
    &&& new_high.len() == curve.len()
    &&& (curve.len() > 0 ==> new_high[0] && peaks[0] == curve[0].equity)
    &&& forall|i: int| 1 <= i < curve.len() ==> #[trigger] climbed_at(numbers, curve, peaks, new_high, i)
}

/// `bars` is the stagnation of a curve: the longest run of points that set
/// no new high.
pub open spec fn stagnated<V, N: Numbers<V>>(numbers: &N, curve: Seq<EquityPoint<V>>, bars: usize) -> bool {
    exists|peaks: Seq<V>, new_high: Seq<bool>| #[trigger] peaks_run(numbers, curve, peaks, new_high) && bars == stagnation_of(new_high, curve.len() as int)
}

/// Measures stagnation on an equity curve: the longest stretch, in bars,
/// without a new equity high.
pub fn calculate_stagnation_bars<V: Copy, N: Numbers<V>>(numbers: &N, equity_curve: &Vec<EquityPoint<V>>) -> (bars: usize)
    ensures
        stagnated(numbers, equity_curve@, bars),
        exists|new_high: Seq<bool>| new_high.len() == equity_curve@.len() && bars == stagnation_of(new_high, equity_curve@.len() as int),
        equity_curve@.len() < 2 ==> bars == 0,
{
    let mut new_high: Vec<bool> = Vec::new();
    if equity_curve.len() == 0 {
        let bars = longest_stagnation(&new_high);
        assert(new_high@.len() == equity_curve@.len());
        assert(peaks_run(numbers, equity_curve@, Seq::<V>::empty(), new_high@));
        return bars;
    }
    let mut peak: V = equity_curve[0].equity;
    let ghost mut peaks: Seq<V> = seq![peak];
    new_high.push(true);
    let mut i: usize = 1;
    while i < equity_curve.len()
        invariant
            1 <= i <= equity_curve@.len(),
            new_high@.len() == i,
            peaks.len() == i,
            peaks[i - 1] == peak,
            new_high@[0],
            peaks[0] == equity_curve@[0].equity,
            forall|k: int| 1 <= k < i ==> #[trigger] climbed_at(numbers, equity_curve@, peaks, new_high@, k),
        decreases equity_curve@.len() - i,
    {
        let ghost marks = new_high@;
        let ghost earlier = peaks;
        let ghost last = peak;
        let equity: V = equity_curve[i].equity;
        let over = relation(numbers, equity, peak);
        let higher: bool = over.is_gt();
        if higher {
            peak = equity;
        }
        new_high.push(higher);
        proof {
            peaks = earlier.push(peak);
            assert(relates(numbers, equity_curve@[i as int].equity, peaks[i - 1], over));
            assert(climbed_at(numbers, equity_curve@, peaks, new_high@, i as int));
            assert forall|k: int| 1 <= k < i + 1 implies #[trigger] climbed_at(numbers, equity_curve@, peaks, new_high@, k) by {
                if k < i {
                    assert(climbed_at(numbers, equity_curve@, earlier, marks, k));
                    assert(peaks[k] == earlier[k] && peaks[k - 1] == earlier[k - 1] && new_high@[k] == marks[k]);
                    let over = choose|over: Relation| #[trigger]
                        relates(numbers, equity_curve@[k].equity, earlier[k - 1], over) && marks[k] == (over == Relation::Greater) && earlier[k] == (if over == Relation::Greater {
                            equity_curve@[k].equity
                        } else {
                            earlier[k - 1]
                        });
                    assert(relates(numbers, equity_curve@[k].equity, peaks[k - 1], over));
                }
            }
        }
        i += 1;
    }
    let bars = longest_stagnation(&new_high);
    assert(new_high@.len() == equity_curve@.len());
    assert(peaks_run(numbers, equity_curve@, peaks, new_high@));
    bars
}

/// Outcome `i` is the relation in which `numbers` finds the profit of
/// trade `i` to `zero`.
pub open spec fn outcome_at<V, N: Numbers<V>>(numbers: &N, trades: Seq<TradeResult<V>>, zero: V, outcomes: Seq<Relation>, i: int) -> bool {
    relates(numbers, trades[i].pnl, zero, outcomes[i])
}

/// `outcomes` are the outcomes of the trades: for each trade, how `numbers`
/// finds its profit to stand to zero.
pub open spec fn classified<V, N: Numbers<V>>(numbers: &N, trades: Seq<TradeResult<V>>, outcomes: Seq<Relation>) -> bool {
    exists|zero: V| #[trigger] ints(numbers, 0, zero) && outcomes.len() == trades.len() && forall|i: int| 0 <= i < outcomes.len() ==> #[trigger] outcome_at(numbers, trades, zero, outcomes, i)
}

/// How each trade's profit compares with zero.
pub fn classify_trades<V: Copy, N: Numbers<V>>(numbers: &N, trades: &Vec<TradeResult<V>>) -> (outcomes: Vec<Relation>)
    ensures
        classified(numbers, trades@, outcomes@),
        outcomes@.len() == trades@.len(),
{
    let zero: V = numbers.from_int(0);
    assert(ints(numbers, 0, zero));
    let mut outcomes: Vec<Relation> = Vec::new();
    let mut i: usize = 0;
    while i < trades.len()
        invariant
            i <= trades@.len(),
            outcomes@.len() == i,
            forall|k: int| 0 <= k < i ==> #[trigger] outcome_at(numbers, trades@, zero, outcomes@, k),
        decreases trades@.len() - i,
    {
        let ghost earlier = outcomes@;
        let outcome = relation(numbers, trades[i].pnl, zero);
        outcomes.push(outcome);
        assert forall|k: int| 0 <= k < i + 1 implies #[trigger] outcome_at(numbers, trades@, zero, outcomes@, k) by {
            if k < i {
                assert(outcome_at(numbers, trades@, zero, earlier, k));
            }
        }
        i += 1;
    }
    outcomes
}

/// The sum of the durations of the first `n` trades whose outcome is
/// `which`, or of all of them where `which` is `None`.
pub open spec fn bars_of<V>(trades: Seq<TradeResult<V>>, outcomes: Seq<Relation>, which: Option<Relation>, n: int) -> nat
    decreases n,
{
    if n <= 0 {
        0
    } else {
        bars_of(trades, outcomes, which, n - 1) + (if which is None || which == Some(outcomes[n - 1]) {
            trades[n - 1].duration_bars as nat
        } else {
            0nat
        })
    }
}

/// Adds up the durations of the trades with outcome `which`, or of all
/// trades, capped at the largest `usize`.
pub fn sum_bars<V>(trades: &Vec<TradeResult<V>>, outcomes: &Vec<Relation>, which: Option<Relation>) -> (sum: usize)
    requires
        outcomes@.len() == trades@.len(),
    ensures
        sum == (if bars_of(trades@, outcomes@, which, trades@.len() as int) > usize::MAX {
            usize::MAX as nat
        } else {
            bars_of(trades@, outcomes@, which, trades@.len() as int)
        }),
{
    let mut sum: usize = 0;
    let mut i: usize = 0;
    while i < trades.len()
        invariant
            i <= trades@.len(),
            outcomes@.len() == trades@.len(),
            sum == (if bars_of(trades@, outcomes@, which, i as int) > usize::MAX {
                usize::MAX as nat
            } else {
                bars_of(trades@, outcomes@, which, i as int)
            }),
        decreases trades@.len() - i,
    {
        let counts: bool = match which {
            None => true,
            Some(w) => outcomes[i] == w,
        };
        if counts {
            sum = sum.saturating_add(trades[i].duration_bars);
        }
        i += 1;
    }
    sum
}

/// `sum / count`, or zero where there is nothing to average.
pub open spec fn mean_bars(sum: int, count: int) -> int {
    if count > 0 {
        sum / count
    } else {
        0
    }
}

/// The mean of `count` durations that sum to `sum`, rounded down; zero
/// where there is none.
fn average_bars(sum: usize, count: usize) -> (r: usize)
    ensures
        r == mean_bars(sum as int, count as int),
{
    if count > 0 {
        sum / count
    } else {
        0
    }
}

/// `out` is the quotient of two counts as values.
pub open spec fn count_ratio<V, N: Numbers<V>>(numbers: &N, total: usize, count: usize, out: V) -> bool {
    exists|above: V| #[trigger] ints(numbers, whole(total), above) && exists|below: V| #[trigger] ints(numbers, whole(count), below) && divs(numbers, above, below, out)
}

/// `out` is the mean of `total` over `count` as a value: their quotient, or
/// zero where `count` is 0.
pub open spec fn mean_value_of<V, N: Numbers<V>>(numbers: &N, total: usize, count: usize, out: V) -> bool {
    if count == 0 {
        ints(numbers, 0, out)
    } else {
        count_ratio(numbers, total, count, out)
    }
}

/// The mean of `total` over `count` as a value, or zero where `count` is 0.
fn mean_value<V: Copy, N: Numbers<V>>(numbers: &N, total: usize, count: usize) -> (out: V)
    ensures
        mean_value_of(numbers, total, count, out),
{
    if count == 0 {
        numbers.from_int(0)
    } else {
        let above: V = numbers.from_int(clamp_i64(total));
        let below: V = numbers.from_int(clamp_i64(count));
        assert(ints(numbers, whole(total), above));
        assert(ints(numbers, whole(count), below));
        numbers.div(above, below)
    }
}

/// `n` as a signed number, capped at the largest one.
fn clamp_i64(n: usize) -> (r: i64)
    ensures
        r == (if n > i64::MAX { i64::MAX as int } else { n as int }),
{
    let wide: u64 = n as u64;
    if wide > 9_223_372_036_854_775_807u64 {
        i64::MAX
    } else {
        wide as i64
    }
}

/// `r` holds the streaks of the trades: for the outcomes of the trades,
/// the longest winning and losing streak, and the mean length of the
/// winning and of the losing streaks.
pub open spec fn streaks_of<V, N: Numbers<V>>(numbers: &N, trades: Seq<TradeResult<V>>, r: (usize, usize, V, V)) -> bool {
    exists|outcomes: Seq<Relation>| #[trigger] classified(numbers, trades, outcomes) && streaks_read(numbers, streaks_after(outcomes, outcomes.len() as int), r)
}

/// `r` holds the maxima and the mean lengths of the streaks counted.
pub open spec fn streaks_read<V, N: Numbers<V>>(numbers: &N, s: Streaks, r: (usize, usize, V, V)) -> bool {
    &&& r.0 == s.max_wins
    &&& r.1 == s.max_losses
    &&& mean_value_of(numbers, total(all_streaks(s.win_streaks, s.current_wins)) as usize, all_streaks(s.win_streaks, s.current_wins).len() as usize, r.2)
    &&& mean_value_of(numbers, total(all_streaks(s.loss_streaks, s.current_losses)) as usize, all_streaks(s.loss_streaks, s.current_losses).len() as usize, r.3)
}

/// Consecutive wins and losses of a trade list: the longest winning and
/// losing streak, and the mean length of each kind of streak. A trade whose
/// profit is exactly zero ends neither streak.
pub fn calculate_consecutive<V: Copy, N: Numbers<V>>(numbers: &N, trades: &Vec<TradeResult<V>>) -> (r: (usize, usize, V, V))
    ensures
        streaks_of(numbers, trades@, r),
        r.0 <= trades@.len(),
        r.1 <= trades@.len(),
        exists|outcomes: Seq<Relation>| outcomes.len() == trades@.len() && r.0 == streaks_after(outcomes, outcomes.len() as int).max_wins && r.1 == streaks_after(outcomes, outcomes.len() as int).max_losses,
{
    let outcomes = classify_trades(numbers, trades);
    let c = count_consecutive(&outcomes);
    proof {
        lemma_streaks_bounded(outcomes@, outcomes@.len() as int);
    }
    let avg_wins: V = mean_value(numbers, c.win_total, c.win_streaks);
    let avg_losses: V = mean_value(numbers, c.loss_total, c.loss_streaks);
    let r = (c.max_wins, c.max_losses, avg_wins, avg_losses);
    proof {
        let s = streaks_after(outcomes@, outcomes@.len() as int);
        assert(total(all_streaks(s.win_streaks, s.current_wins)) as usize == c.win_total);
        assert(all_streaks(s.win_streaks, s.current_wins).len() as usize == c.win_streaks);
        assert(total(all_streaks(s.loss_streaks, s.current_losses)) as usize == c.loss_total);
        assert(all_streaks(s.loss_streaks, s.current_losses).len() as usize == c.loss_streaks);
        assert(streaks_read(numbers, s, r));
    }
    r
}

/// The metrics of a run without trades: every amount and count is zero, the
/// final capital is the initial one, and every duration reads `0m`.
pub open spec fn is_empty_metrics<V>(m: BacktestMetrics<V>, initial_capital: V, zero: V) -> bool {
    &&& m.final_capital == initial_capital
    &&& m.total_return_pct == zero
    &&& m.annualized_return_pct == zero
    &&& m.monthly_return_avg_pct == zero
    &&& m.sharpe_ratio == zero
    &&& m.sortino_ratio == zero
    &&& m.calmar_ratio == zero
    &&& m.max_drawdown_pct == zero
    &&& m.max_drawdown_duration_bars == 0
    &&& m.max_drawdown_duration_time@ == "0m"@
    &&& m.avg_drawdown_pct == zero
    &&& m.recovery_factor == zero
    &&& m.total_trades == 0
    &&& m.winning_trades == 0
    &&& m.losing_trades == 0
    &&& m.breakeven_trades == 0
    &&& m.win_rate_pct == zero
    &&& m.gross_profit == zero
    &&& m.gross_loss == zero
    &&& m.net_profit == zero
    &&& m.profit_factor == zero
    &&& m.avg_trade == zero
    &&& m.avg_win == zero
    &&& m.avg_loss == zero
    &&& m.largest_win == zero
    &&& m.largest_loss == zero
    &&& m.expectancy == zero
    &&& m.max_consecutive_wins == 0
    &&& m.max_consecutive_losses == 0
    &&& m.avg_consecutive_wins == zero
    &&& m.avg_consecutive_losses == zero
    &&& m.avg_trade_duration@ == "0m"@
    &&& m.avg_bars_in_trade == zero
    &&& m.avg_winner_duration@ == "0m"@
    &&& m.avg_loser_duration@ == "0m"@
    &&& m.mae_avg == zero
    &&& m.mae_max == zero
    &&& m.mfe_avg == zero
    &&& m.mfe_max == zero
    &&& m.stagnation_bars == 0
    &&& m.stagnation_time@ == "0m"@
    &&& m.ulcer_index_pct == zero
    &&& m.return_dd_ratio == zero
}

/// The metrics of a run without trades.
pub fn empty_metrics<V: Copy>(initial_capital: V, zero: V) -> (m: BacktestMetrics<V>)
    ensures
        is_empty_metrics(m, initial_capital, zero),
{
    BacktestMetrics {
        final_capital: initial_capital,
        total_return_pct: zero,
        annualized_return_pct: zero,
        monthly_return_avg_pct: zero,
        sharpe_ratio: zero,
        sortino_ratio: zero,
        calmar_ratio: zero,
        max_drawdown_pct: zero,
        max_drawdown_duration_bars: 0,
        max_drawdown_duration_time: String::from_str("0m"),
        avg_drawdown_pct: zero,
        recovery_factor: zero,
        total_trades: 0,
        winning_trades: 0,
        losing_trades: 0,
        breakeven_trades: 0,
        win_rate_pct: zero,
        gross_profit: zero,
        gross_loss: zero,
        net_profit: zero,
        profit_factor: zero,
        avg_trade: zero,
        avg_win: zero,
        avg_loss: zero,
        largest_win: zero,
        largest_loss: zero,
        expectancy: zero,
        max_consecutive_wins: 0,
        max_consecutive_losses: 0,
        avg_consecutive_wins: zero,
        avg_consecutive_losses: zero,
        avg_trade_duration: String::from_str("0m"),
        avg_bars_in_trade: zero,
        avg_winner_duration: String::from_str("0m"),
        avg_loser_duration: String::from_str("0m"),
        mae_avg: zero,
        mae_max: zero,
        mfe_avg: zero,
        mfe_max: zero,
        stagnation_bars: 0,
        stagnation_time: String::from_str("0m"),
        ulcer_index_pct: zero,
        return_dd_ratio: zero,
    }
}

/// Minutes per bar for durations: at least one, so that tick data counts a
/// minute per bar.
pub open spec fn bar_minutes(timeframe: Timeframe) -> int {
    if timeframe.spec_minutes() < 1 {
        1
    } else {
        timeframe.spec_minutes() as int
    }
}

/// The counts and durations among the metrics of a non-empty trade list,
/// given how each trade's profit compares with zero: winners, losers and
/// break-even trades are counted apart; the streaks are counted over the
/// trades in order; and a mean duration is the sum of the durations over
/// their number, in whole bars.
pub open spec fn counted<V>(trades: Seq<TradeResult<V>>, outcomes: Seq<Relation>, timeframe: Timeframe, m: BacktestMetrics<V>) -> bool {
    let n = trades.len() as int;
    &&& outcomes.len() == n
    &&& m.winning_trades == count_of(outcomes, Relation::Greater, n)
    &&& m.losing_trades == count_of(outcomes, Relation::Less, n)
    &&& m.breakeven_trades == count_of(outcomes, Relation::Equal, n)
    &&& m.max_consecutive_wins == streaks_after(outcomes, n).max_wins
    &&& m.max_consecutive_losses == streaks_after(outcomes, n).max_losses
    &&& m.avg_trade_duration@ == duration_text(
        minutes_of(mean_bars(clip(bars_of(trades, outcomes, None, n) as int) as int, n), bar_minutes(timeframe)),
    )
    &&& m.avg_winner_duration@ == duration_text(
        minutes_of(
            mean_bars(clip(bars_of(trades, outcomes, Some(Relation::Greater), n) as int) as int, m.winning_trades as int),
            bar_minutes(timeframe),
        ),
    )
    &&& m.avg_loser_duration@ == duration_text(
        minutes_of(
            mean_bars(clip(bars_of(trades, outcomes, Some(Relation::Less), n) as int) as int, m.losing_trades as int),
            bar_minutes(timeframe),
        ),
    )
}

/// The number of bars in a trading day of a timeframe; tick data counts
/// like one-minute bars.
pub open spec fn bars_in_day(timeframe: Timeframe) -> i64 {
    match timeframe {
        Timeframe::Tick => 1440,
        Timeframe::M1 => 1440,
        Timeframe::M5 => 288,
        Timeframe::M15 => 96,
        Timeframe::M30 => 48,
        Timeframe::H1 => 24,
        Timeframe::H4 => 6,
        Timeframe::D1 => 1,
    }
}

/// Bars per trading day of a timeframe, as a value; tick data counts like
/// one-minute bars.
fn bars_per_day<V, N: Numbers<V>>(numbers: &N, timeframe: Timeframe) -> (out: V)
    ensures
        ints(numbers, bars_in_day(timeframe), out),
{
    match timeframe {
        Timeframe::Tick => numbers.from_int(1440),
        Timeframe::M1 => numbers.from_int(1440),
        Timeframe::M5 => numbers.from_int(288),
        Timeframe::M15 => numbers.from_int(96),
        Timeframe::M30 => numbers.from_int(48),
        Timeframe::H1 => numbers.from_int(24),
        Timeframe::H4 => numbers.from_int(6),
        Timeframe::D1 => numbers.from_int(1),
    }
}

/// `out` is the number of years that `bars` bars span, with 252 trading
/// days of `bpd` bars to the year.
pub open spec fn years_of<V, N: Numbers<V>>(numbers: &N, bars: usize, bpd: V, out: V) -> bool {
    exists|n: V| #[trigger]
        ints(numbers, whole(bars), n) && exists|days: V| #[trigger] ints(numbers, 252, days) && exists|per_year: V| #[trigger] muls(numbers, days, bpd, per_year) && divs(numbers, n, per_year, out)
}

/// `out` is the factor by which a return of `pct` percent grows capital:
/// one plus the hundredth of it.
pub open spec fn growth_of<V, N: Numbers<V>>(numbers: &N, pct: V, one: V, hundred: V, out: V) -> bool {
    exists|share: V| #[trigger] divs(numbers, pct, hundred, share) && adds(numbers, one, share, out)
}

/// `out` is the yearly return in percent of a growth by `factor` over
/// `years` years: the factor raised to one over the years, less one, times
/// a hundred.
pub open spec fn compounded<V, N: Numbers<V>>(numbers: &N, factor: V, years: V, one: V, hundred: V, out: V) -> bool {
    exists|exponent: V| #[trigger]
        divs(numbers, one, years, exponent) && exists|yearly: V| #[trigger] powers(numbers, factor, exponent, yearly) && exists|gain: V| #[trigger] subs(numbers, yearly, one, gain) && muls(numbers, gain, hundred, out)
}

/// `out` is the yearly return of a run with years and growth as given: the
/// total return where `numbers` finds the years not above zero; minus a
/// hundred where it finds the growth factor not above zero; else the
/// compounded return.
pub open spec fn yearly_of<V, N: Numbers<V>>(numbers: &N, total_return_pct: V, years: V, zero: V, one: V, hundred: V, out: V) -> bool {
    exists|span: Relation| #[trigger]
        relates(numbers, years, zero, span) && (if span.le() {
            out == total_return_pct
        } else {
            exists|factor: V| #[trigger]
                growth_of(numbers, total_return_pct, one, hundred, factor) && exists|left: Relation| #[trigger]
                    relates(numbers, factor, zero, left) && (if left.le() {
                        ints(numbers, -100i64, out)
                    } else {
                        compounded(numbers, factor, years, one, hundred, out)
                    })
        })
}

/// `out` is the yearly return that compounds to `total_return_pct` over
/// `bars` bars: zero without bars, else `yearly_of` the years that the bars
/// span.
pub open spec fn annualized<V, N: Numbers<V>>(numbers: &N, total_return_pct: V, bars: usize, bpd: V, out: V) -> bool {
    exists|zero: V| #[trigger]
        ints(numbers, 0, zero) && exists|one: V| #[trigger]
            ints(numbers, 1, one) && exists|hundred: V| #[trigger]
                ints(numbers, 100, hundred) && (if bars == 0 {
                    out == zero
                } else {
                    exists|years: V| #[trigger] years_of(numbers, bars, bpd, years) && yearly_of(numbers, total_return_pct, years, zero, one, hundred, out)
                })
}

/// The yearly return that compounds to `total_return_pct` over `bars` bars,
/// with 252 trading days to the year; -100 where the capital is gone.
fn annualize_return<V: Copy, N: Numbers<V>>(numbers: &N, total_return_pct: V, bars: usize, bpd: V) -> (out: V)
    ensures
        annualized(numbers, total_return_pct, bars, bpd, out),
{
    let zero: V = numbers.from_int(0);
    let one: V = numbers.from_int(1);
    let hundred: V = numbers.from_int(100);
    assert(ints(numbers, 0, zero));
    assert(ints(numbers, 1, one));
    assert(ints(numbers, 100, hundred));
    if bars == 0 {
        return zero;
    }
    let n: V = count(numbers, bars);
    let days: V = numbers.from_int(252);
    let per_year: V = numbers.mul(days, bpd);
    let years: V = numbers.div(n, per_year);
    assert(ints(numbers, 252, days));
    assert(muls(numbers, days, bpd, per_year));
    assert(years_of(numbers, bars, bpd, years));
    let span = relation(numbers, years, zero);
    if span.is_le() {
        return total_return_pct;
    }
    let share: V = numbers.div(total_return_pct, hundred);
    let total_factor: V = numbers.add(one, share);
    assert(divs(numbers, total_return_pct, hundred, share));
    assert(growth_of(numbers, total_return_pct, one, hundred, total_factor));
    let left = relation(numbers, total_factor, zero);
    if left.is_le() {
        let gone: V = numbers.from_int(-100);
        assert(ints(numbers, -100i64, gone));
        assert(yearly_of(numbers, total_return_pct, years, zero, one, hundred, gone));
        return gone;
    }
    let exponent: V = numbers.div(one, years);
    let yearly: V = numbers.powf(total_factor, exponent);
    let gain: V = numbers.sub(yearly, one);
    let out: V = numbers.mul(gain, hundred);
    assert(divs(numbers, one, years, exponent));
    assert(powers(numbers, total_factor, exponent, yearly));
    assert(subs(numbers, yearly, one, gain));
    assert(compounded(numbers, total_factor, years, one, hundred, out));
    assert(yearly_of(numbers, total_return_pct, years, zero, one, hundred, out));
    out
}

/// `out` is the fall from `peak` to `equity` in percent of the peak.
pub open spec fn fall_in_percent<V, N: Numbers<V>>(numbers: &N, peak: V, equity: V, out: V) -> bool {
    exists|fall: V| #[trigger]
        subs(numbers, peak, equity, fall) && exists|share: V| #[trigger] divs(numbers, fall, peak, share) && exists|hundred: V| #[trigger] ints(numbers, 100, hundred) && muls(numbers, share, hundred, out)
}

/// `out` is the drawdown of `equity` from `peak` in percent: the fall in
/// percent where `numbers` finds the peak above `zero`, else `zero`.
pub open spec fn drawdown_of<V, N: Numbers<V>>(numbers: &N, peak: V, equity: V, zero: V, out: V) -> bool {
    exists|sign: Relation| #[trigger] relates(numbers, peak, zero, sign) && (if sign.gt() {
        fall_in_percent(numbers, peak, equity, out)
    } else {
        out == zero
    })
}

/// The drawdown of `equity` from `peak` in percent; zero where the peak is
/// not positive.
pub(crate) fn drawdown_pct<V: Copy, N: Numbers<V>>(numbers: &N, peak: V, equity: V) -> (out: V)
    ensures
        drawdown_pct_of(numbers, peak, equity, out),
{
    let zero: V = numbers.from_int(0);
    assert(ints(numbers, 0, zero));
    let out = drawdown_from(numbers, peak, equity, zero);
    out
}

/// The drawdown of `equity` from `peak` in percent, with `zero` for a peak
/// that is not positive.
fn drawdown_from<V: Copy, N: Numbers<V>>(numbers: &N, peak: V, equity: V, zero: V) -> (out: V)
    ensures
        drawdown_of(numbers, peak, equity, zero, out),
{
    let sign = relation(numbers, peak, zero);
    if sign.is_gt() {
        let fall: V = numbers.sub(peak, equity);
        let share: V = numbers.div(fall, peak);
        let hundred: V = numbers.from_int(100);
        assert(subs(numbers, peak, equity, fall));
        assert(divs(numbers, fall, peak, share));
        assert(ints(numbers, 100, hundred));
        numbers.mul(share, hundred)
    } else {
        zero
    }
}

/// `out` is the drawdown of `equity` from `peak` in percent, with the zero
/// of `numbers` for a peak that is not positive.
pub open spec fn drawdown_pct_of<V, N: Numbers<V>>(numbers: &N, peak: V, equity: V, out: V) -> bool {
    exists|zero: V| #[trigger] ints(numbers, 0, zero) && drawdown_of(numbers, peak, equity, zero, out)
}

/// The state of a scan of an equity curve: the running peak and the bar at
/// which it stood, the deepest drawdown so far and the bars it took from
/// its peak, and the sum and the number of the drawdowns above zero.
pub struct Scan<V> {
    pub peak: V,
    pub start: int,
    pub deepest: V,
    pub duration: int,
    pub sum: V,
    pub count: int,
}

/// The state of a scan after the point `i` with `equity`: a point that
/// `numbers` finds above the peak is the new peak; the drawdown `dd` of the
/// point from the peak becomes the deepest where `numbers` finds it deeper,
/// and is added to the sum where `numbers` finds it above `zero`.
pub open spec fn scanned<V>(before: Scan<V>, i: int, equity: V, high: Relation, dd: V, deeper: Relation, positive: Relation, sum: V) -> Scan<V> {
    let start = if high.gt() {
        i
    } else {
        before.start
    };
    Scan {
        peak: pick(high.gt(), equity, before.peak),
        start,
        deepest: pick(deeper.gt(), dd, before.deepest),
        duration: if deeper.gt() {
            i - start
        } else {
            before.duration
        },
        sum,
        count: if positive.gt() {
            before.count + 1
        } else {
            before.count
        },
    }
}

/// `after` is the state of a scan after the point `i` with `equity`, with
/// the relations and the drawdown as `numbers` gives them.
pub open spec fn scan_step<V, N: Numbers<V>>(numbers: &N, zero: V, before: Scan<V>, i: int, equity: V, after: Scan<V>) -> bool {
    exists|high: Relation| #[trigger]
        relates(numbers, equity, before.peak, high) && exists|dd: V| #[trigger]
            drawdown_pct_of(numbers, pick(high.gt(), equity, before.peak), equity, dd) && exists|deeper: Relation| #[trigger]
                relates(numbers, dd, before.deepest, deeper) && exists|positive: Relation| #[trigger]
                    relates(numbers, dd, zero, positive) && (if positive.gt() {
                        adds(numbers, before.sum, dd, after.sum)
                    } else {
                        after.sum == before.sum
                    }) && after == scanned(before, i, equity, high, dd, deeper, positive, after.sum)
}

/// `states` holds the state of a scan of `curve` before its first point and
/// after each of its points.
pub open spec fn running_scan<V, N: Numbers<V>>(numbers: &N, curve: Seq<EquityPoint<V>>, upto: int, zero: V, states: Seq<Scan<V>>) -> bool {
    &&& states.len() == upto + 1
    &&& states[0] == (Scan { peak: curve[0].equity, start: 0, deepest: zero, duration: 0, sum: zero, count: 0 })
    &&& forall|k: int| 0 <= k < upto ==> scan_step(numbers, zero, #[trigger] states[k], k, curve[k].equity, states[k + 1])
}

/// `r` is what the scan that ended in `last` comes to: the deepest
/// drawdown, the bars it took, and the mean of the drawdowns above zero,
/// `zero` where there was none.
pub open spec fn scan_result<V, N: Numbers<V>>(numbers: &N, zero: V, last: Scan<V>, r: (V, usize, V)) -> bool {
    &&& r.0 == last.deepest
    &&& r.1 == last.duration
    &&& (if last.count > 0 {
        exists|n: V| #[trigger] ints(numbers, whole(last.count as usize), n) && divs(numbers, last.sum, n, r.2)
    } else {
        r.2 == zero
    })
}

/// `r` is the drawdown of an equity curve: zeros for an empty curve, else
/// the result of the scan of all its points.
pub open spec fn drawdown_stats_of<V, N: Numbers<V>>(numbers: &N, curve: Seq<EquityPoint<V>>, r: (V, usize, V)) -> bool {
    exists|zero: V| #[trigger]
        ints(numbers, 0, zero) && (if curve.len() == 0 {
            r == (zero, 0usize, zero)
        } else {
            exists|states: Seq<Scan<V>>| #[trigger] running_scan(numbers, curve, curve.len() as int, zero, states) && scan_result(numbers, zero, states[curve.len() as int], r)
        })
}

/// Scans an equity curve with a running peak. Returns the largest
/// drawdown in percent, the number of bars from the peak to the point where
/// that drawdown was reached, and the mean of the drawdowns that are above
/// zero.
///
/// Whatever the arithmetic yields, the duration is less than the number of
/// points, and zero for fewer than two points.
pub fn calculate_drawdown_stats<V: Copy, N: Numbers<V>>(numbers: &N, equity_curve: &Vec<EquityPoint<V>>) -> (r: (V, usize, V))
    ensures
        drawdown_stats_of(numbers, equity_curve@, r),
        equity_curve@.len() < 2 ==> r.1 == 0,
        equity_curve@.len() >= 1 ==> r.1 < equity_curve@.len(),
{
    let zero: V = numbers.from_int(0);
    assert(ints(numbers, 0, zero));
    if equity_curve.len() == 0 {
        return (zero, 0, zero);
    }
    let mut peak: V = equity_curve[0].equity;
    let mut max_dd_pct: V = zero;
    let mut current_dd_start: usize = 0;
    let mut max_dd_duration: usize = 0;
    let mut dd_sum: V = zero;
    let mut dd_count: usize = 0;
    let ghost mut states: Seq<Scan<V>> = seq![Scan { peak, start: 0, deepest: zero, duration: 0, sum: zero, count: 0 }];
    let mut i: usize = 0;
    while i < equity_curve.len()
        invariant
            i <= equity_curve@.len(),
            equity_curve@.len() >= 1,
            current_dd_start <= i,
            current_dd_start < equity_curve@.len(),
            max_dd_duration < equity_curve@.len(),
            i <= 1 ==> max_dd_duration == 0,
            dd_count <= i,
            running_scan(numbers, equity_curve@, i as int, zero, states),
            states[i as int] == (Scan { peak, start: current_dd_start as int, deepest: max_dd_pct, duration: max_dd_duration as int, sum: dd_sum, count: dd_count as int }),
        decreases equity_curve@.len() - i,
    {
        let ghost before = states[i as int];
        let ghost earlier = states;
        let equity: V = equity_curve[i].equity;
        let high = relation(numbers, equity, peak);
        if high.is_gt() {
            peak = equity;
            current_dd_start = i;
        }
        let dd: V = drawdown_pct(numbers, peak, equity);
        assert(drawdown_pct_of(numbers, pick(high.gt(), equity, before.peak), equity, dd));
        let deeper = relation(numbers, dd, max_dd_pct);
        if deeper.is_gt() {
            max_dd_pct = dd;
            max_dd_duration = i - current_dd_start;
        }
        let positive = relation(numbers, dd, zero);
        if positive.is_gt() {
            let ghost sum_before = dd_sum;
            dd_sum = numbers.add(dd_sum, dd);
            assert(adds(numbers, sum_before, dd, dd_sum));
            dd_count += 1;
        }
        proof {
            let after = Scan { peak, start: current_dd_start as int, deepest: max_dd_pct, duration: max_dd_duration as int, sum: dd_sum, count: dd_count as int };
            assert(after == scanned(before, i as int, equity, high, dd, deeper, positive, after.sum));
            assert(scan_step(numbers, zero, before, i as int, equity, after));
            states = earlier.push(after);
            assert forall|k: int| 0 <= k < i + 1 implies scan_step(numbers, zero, #[trigger] states[k], k, equity_curve@[k].equity, states[k + 1]) by {
                if k < i {
                    assert(scan_step(numbers, zero, earlier[k], k, equity_curve@[k].equity, earlier[k + 1]));
                }
            }
        }
        i += 1;
    }
    let ghost last = states[equity_curve@.len() as int];
    let avg_dd: V = if dd_count > 0 {
        let n: V = count(numbers, dd_count);
        let mean: V = numbers.div(dd_sum, n);
        assert(last.count as usize == dd_count);
        assert(ints(numbers, whole(last.count as usize), n));
        assert(divs(numbers, last.sum, n, mean));
        mean
    } else {
        zero
    };
    assert(scan_result(numbers, zero, states[equity_curve@.len() as int], (max_dd_pct, max_dd_duration, avg_dd)));
    (max_dd_pct, max_dd_duration, avg_dd)
}

/// `out` is the mean of `data`: its sum over its count.
pub open spec fn mean_is<V, N: Numbers<V>>(numbers: &N, data: Seq<V>, out: V) -> bool {
    exists|total: V| #[trigger] sums_to(numbers, data, 0, data.len() as int, total) && exists|n: V| #[trigger] ints(numbers, whole(data.len() as usize), n) && divs(numbers, total, n, out)
}

/// The mean of the returns.
fn mean_of<V: Copy, N: Numbers<V>>(numbers: &N, profits: &Vec<V>) -> (out: V)
    ensures
        mean_is(numbers, profits@, out),
{
    let total: V = sum_of(numbers, profits, 0, profits.len());
    let n: V = count(numbers, profits.len());
    assert(sums_to(numbers, profits@, 0, profits@.len() as int, total));
    assert(profits@.len() as usize == profits.len());
    assert(ints(numbers, whole(profits@.len() as usize), n));
    numbers.div(total, n)
}

/// `next` is `acc` plus the square of the gap between `x` and `mean`.
pub open spec fn adds_squared_gap<V, N: Numbers<V>>(numbers: &N, acc: V, x: V, mean: V, next: V) -> bool {
    exists|gap: V| #[trigger] subs(numbers, x, mean, gap) && exists|square: V| #[trigger] muls(numbers, gap, gap, square) && adds(numbers, acc, square, next)
}

/// `steps` holds `zero` and then the sum so far of the squared gaps between
/// each of the first `upto` entries of `data` and `mean`.
pub open spec fn running_squares<V, N: Numbers<V>>(numbers: &N, data: Seq<V>, upto: int, mean: V, zero: V, steps: Seq<V>) -> bool {
    &&& steps.len() == upto + 1
    &&& steps[0] == zero
    &&& forall|k: int| 0 <= k < upto ==> adds_squared_gap(numbers, #[trigger] steps[k], data[k], mean, steps[k + 1])
}

/// `out` is the root of the mean of `total` over `n`.
pub open spec fn root_mean<V, N: Numbers<V>>(numbers: &N, total: V, n: usize, out: V) -> bool {
    exists|count: V| #[trigger] ints(numbers, whole(n), count) && exists|mean: V| #[trigger] divs(numbers, total, count, mean) && roots(numbers, mean, out)
}

/// `out` is the standard deviation of `data` about `mean`: the root of the
/// sum of the squared gaps over one less than the count.
pub open spec fn deviation_is<V, N: Numbers<V>>(numbers: &N, data: Seq<V>, mean: V, zero: V, out: V) -> bool {
    exists|steps: Seq<V>| #[trigger] running_squares(numbers, data, data.len() as int, mean, zero, steps) && root_mean(numbers, steps[data.len() as int], (data.len() - 1) as usize, out)
}

/// `out` is `mean` over `deviation`, times the root of `factor`; `zero`
/// where `numbers` finds the deviation equal to `zero`.
pub open spec fn risk_adjusted<V, N: Numbers<V>>(numbers: &N, mean: V, deviation: V, factor: V, zero: V, out: V) -> bool {
    exists|flat: Relation| #[trigger]
        relates(numbers, deviation, zero, flat) && (if flat == Relation::Equal {
            out == zero
        } else {
            exists|ratio: V| #[trigger] divs(numbers, mean, deviation, ratio) && exists|scale: V| #[trigger] roots(numbers, factor, scale) && muls(numbers, ratio, scale, out)
        })
}

/// `out` is the Sharpe ratio of `data`: zero for fewer than two entries,
/// else the mean over the standard deviation, risk-adjusted.
pub open spec fn sharpe_of<V, N: Numbers<V>>(numbers: &N, data: Seq<V>, factor: V, out: V) -> bool {
    exists|zero: V| #[trigger]
        ints(numbers, 0, zero) && (if data.len() < 2 {
            out == zero
        } else {
            exists|mean: V| #[trigger] mean_is(numbers, data, mean) && exists|deviation: V| #[trigger] deviation_is(numbers, data, mean, zero, deviation) && risk_adjusted(numbers, mean, deviation, factor, zero, out)
        })
}

/// The ratio of `mean` to `deviation`, scaled by the root of `factor`; zero
/// where the deviation is zero.
fn adjust_for_risk<V: Copy, N: Numbers<V>>(numbers: &N, mean: V, deviation: V, factor: V, zero: V) -> (out: V)
    ensures
        risk_adjusted(numbers, mean, deviation, factor, zero, out),
{
    let flat = relation(numbers, deviation, zero);
    match flat {
        Relation::Equal => zero,
        _ => {
            let ratio: V = numbers.div(mean, deviation);
            let scale: V = numbers.sqrt(factor);
            assert(divs(numbers, mean, deviation, ratio));
            assert(roots(numbers, factor, scale));
            numbers.mul(ratio, scale)
        },
    }
}

/// The root of the mean of `total` over `n`.
fn root_of_mean<V: Copy, N: Numbers<V>>(numbers: &N, total: V, n: usize) -> (out: V)
    ensures
        root_mean(numbers, total, n, out),
{
    let count: V = count(numbers, n);
    let mean: V = numbers.div(total, count);
    assert(divs(numbers, total, count, mean));
    numbers.sqrt(mean)
}

/// Sharpe ratio: the mean of the returns over their standard deviation,
/// times the square root of the annualisation factor. Zero for fewer than
/// two returns and where the deviation is zero.
pub fn calculate_sharpe<V: Copy, N: Numbers<V>>(numbers: &N, profits: &Vec<V>, annualization_factor: V) -> (out: V)
    ensures
        sharpe_of(numbers, profits@, annualization_factor, out),
{
    let zero: V = numbers.from_int(0);
    assert(ints(numbers, 0, zero));
    let n: usize = profits.len();
    if n < 2 {
        return zero;
    }
    let mean: V = mean_of(numbers, profits);
    let mut squares: V = zero;
    let ghost mut steps: Seq<V> = seq![zero];
    let mut i: usize = 0;
    while i < n
        invariant
            i <= n,
            n == profits@.len(),
            running_squares(numbers, profits@, i as int, mean, zero, steps),
            steps[i as int] == squares,
        decreases n - i,
    {
        let ghost earlier = steps;
        let ghost acc = squares;
        let d: V = numbers.sub(profits[i], mean);
        let square: V = numbers.mul(d, d);
        squares = numbers.add(squares, square);
        proof {
            assert(subs(numbers, profits@[i as int], mean, d));
            assert(muls(numbers, d, d, square));
            assert(adds_squared_gap(numbers, acc, profits@[i as int], mean, squares));
            steps = earlier.push(squares);
            assert forall|k: int| 0 <= k < i + 1 implies adds_squared_gap(numbers, #[trigger] steps[k], profits@[k], mean, steps[k + 1]) by {
                if k < i {
                    assert(adds_squared_gap(numbers, earlier[k], profits@[k], mean, earlier[k + 1]));
                }
            }
        }
        i += 1;
    }
    let std_dev: V = root_of_mean(numbers, squares, n - 1);
    assert(deviation_is(numbers, profits@, mean, zero, std_dev));
    adjust_for_risk(numbers, mean, std_dev, annualization_factor, zero)
}

/// `next` and `next_count` are `acc` and `count` after the entry `x`: where
/// `numbers` finds `x` below `zero`, its square is added and it is counted.
pub open spec fn adds_square_if_negative<V, N: Numbers<V>>(numbers: &N, zero: V, acc: V, count: int, x: V, next: V, next_count: int) -> bool {
    exists|sign: Relation| #[trigger]
        relates(numbers, x, zero, sign) && (if sign.lt() {
            next_count == count + 1 && exists|square: V| #[trigger] muls(numbers, x, x, square) && adds(numbers, acc, square, next)
        } else {
            next_count == count && next == acc
        })
}

/// `sums` and `counts` hold the sum of the squares and the number of the
/// entries below zero among the first entries of `data`, before the first
/// and after each of the first `upto`.
pub open spec fn running_downside<V, N: Numbers<V>>(numbers: &N, data: Seq<V>, upto: int, zero: V, sums: Seq<V>, counts: Seq<int>) -> bool {
    &&& sums.len() == upto + 1
    &&& counts.len() == upto + 1
    &&& sums[0] == zero
    &&& counts[0] == 0
    &&& forall|k: int| 0 <= k < upto ==> adds_square_if_negative(numbers, zero, #[trigger] sums[k], counts[k], data[k], sums[k + 1], counts[k + 1])
}

/// `out` is the ratio of `mean` to the downside `total` of `count` entries:
/// `zero` without such entries, else the mean over the root of the mean
/// square, risk-adjusted.
pub open spec fn downside_adjusted<V, N: Numbers<V>>(numbers: &N, mean: V, total: V, count: int, factor: V, zero: V, out: V) -> bool {
    if count == 0 {
        out == zero
    } else {
        exists|deviation: V| #[trigger] root_mean(numbers, total, count as usize, deviation) && risk_adjusted(numbers, mean, deviation, factor, zero, out)
    }
}

/// `out` is the Sortino ratio of `data`: zero for fewer than two entries,
/// else the mean over the root mean square of the entries below zero,
/// risk-adjusted.
pub open spec fn sortino_of<V, N: Numbers<V>>(numbers: &N, data: Seq<V>, factor: V, out: V) -> bool {
    exists|zero: V| #[trigger]
        ints(numbers, 0, zero) && (if data.len() < 2 {
            out == zero
        } else {
            exists|mean: V| #[trigger]
                mean_is(numbers, data, mean) && exists|sums: Seq<V>, counts: Seq<int>| #[trigger]
                    running_downside(numbers, data, data.len() as int, zero, sums, counts) && downside_adjusted(
                        numbers,
                        mean,
                        sums[data.len() as int],
                        counts[data.len() as int],
                        factor,
                        zero,
                        out,
                    )
        })
}

/// Sortino ratio: as the Sharpe ratio, with the root mean square of the
/// negative returns in the place of the deviation. Zero where no return is
/// negative.
fn calculate_sortino<V: Copy, N: Numbers<V>>(numbers: &N, profits: &Vec<V>, annualization_factor: V) -> (out: V)
    ensures
        sortino_of(numbers, profits@, annualization_factor, out),
{
    let zero: V = numbers.from_int(0);
    assert(ints(numbers, 0, zero));
    let n: usize = profits.len();
    if n < 2 {
        return zero;
    }
    let mean: V = mean_of(numbers, profits);
    let mut downside_sum: V = zero;
    let mut neg_count: usize = 0;
    let ghost mut sums: Seq<V> = seq![zero];
    let ghost mut counts: Seq<int> = seq![0int];
    let mut i: usize = 0;
    while i < n
        invariant
            i <= n,
            n == profits@.len(),
            neg_count <= i,
            running_downside(numbers, profits@, i as int, zero, sums, counts),
            sums[i as int] == downside_sum,
            counts[i as int] == neg_count,
        decreases n - i,
    {
        let ghost earlier_sums = sums;
        let ghost earlier_counts = counts;
        let ghost acc = downside_sum;
        let ghost had = neg_count as int;
        let sign = relation(numbers, profits[i], zero);
        if sign.is_lt() {
            let square: V = numbers.mul(profits[i], profits[i]);
            downside_sum = numbers.add(downside_sum, square);
            assert(muls(numbers, profits@[i as int], profits@[i as int], square));
            neg_count += 1;
        }
        proof {
            assert(adds_square_if_negative(numbers, zero, acc, had, profits@[i as int], downside_sum, neg_count as int));
            sums = earlier_sums.push(downside_sum);
            counts = earlier_counts.push(neg_count as int);
            assert forall|k: int| 0 <= k < i + 1 implies adds_square_if_negative(numbers, zero, #[trigger] sums[k], counts[k], profits@[k], sums[k + 1], counts[k + 1]) by {
                if k < i {
                    assert(adds_square_if_negative(numbers, zero, earlier_sums[k], earlier_counts[k], profits@[k], earlier_sums[k + 1], earlier_counts[k + 1]));
                }
            }
        }
        i += 1;
    }
    if neg_count == 0 {
        return zero;
    }
    let downside_dev: V = root_of_mean(numbers, downside_sum, neg_count);
    let out = adjust_for_risk(numbers, mean, downside_dev, annualization_factor, zero);
    assert(counts[n as int] as usize == neg_count);
    assert(root_mean(numbers, sums[n as int], counts[n as int] as usize, downside_dev));
    assert(downside_adjusted(numbers, mean, sums[n as int], counts[n as int], annualization_factor, zero, out));
    out
}

/// `next_peak` and `next` are the running peak and the sum of squared
/// drawdowns after a point with `equity`: a point that `numbers` finds above
/// the peak is the new peak, and the square of the point's drawdown from
/// the peak is added.
pub open spec fn ulcer_step<V, N: Numbers<V>>(numbers: &N, peak: V, acc: V, equity: V, next_peak: V, next: V) -> bool {
    exists|high: Relation| #[trigger]
        relates(numbers, equity, peak, high) && next_peak == pick(high.gt(), equity, peak) && exists|dd: V| #[trigger]
            drawdown_pct_of(numbers, next_peak, equity, dd) && exists|square: V| #[trigger] muls(numbers, dd, dd, square) && adds(numbers, acc, square, next)
}

/// `peaks` and `sums` hold the running peak and the sum of squared
/// drawdowns of `curve`, before its first point and after each of the first
/// `upto`.
pub open spec fn running_ulcer<V, N: Numbers<V>>(numbers: &N, curve: Seq<EquityPoint<V>>, upto: int, zero: V, peaks: Seq<V>, sums: Seq<V>) -> bool {
    &&& peaks.len() == upto + 1
    &&& sums.len() == upto + 1
    &&& peaks[0] == curve[0].equity
    &&& sums[0] == zero
    &&& forall|k: int| 0 <= k < upto ==> ulcer_step(numbers, #[trigger] peaks[k], sums[k], curve[k].equity, peaks[k + 1], sums[k + 1])
}

/// `out` is the ulcer index of `curve`: zero for fewer than two points,
/// else the root of the mean of the squared drawdowns.
pub open spec fn ulcer_of<V, N: Numbers<V>>(numbers: &N, curve: Seq<EquityPoint<V>>, out: V) -> bool {
    exists|zero: V| #[trigger]
        ints(numbers, 0, zero) && (if curve.len() < 2 {
            out == zero
        } else {
            exists|peaks: Seq<V>, sums: Seq<V>| #[trigger] running_ulcer(numbers, curve, curve.len() as int, zero, peaks, sums) && root_mean(numbers, sums[curve.len() as int], curve.len() as usize, out)
        })
}

/// Ulcer index of an equity curve: the root mean square of the drawdown in
/// percent from the running peak.
fn calculate_ulcer_index<V: Copy, N: Numbers<V>>(numbers: &N, equity_curve: &Vec<EquityPoint<V>>) -> (out: V)
    ensures
        ulcer_of(numbers, equity_curve@, out),
{
    let zero: V = numbers.from_int(0);
    assert(ints(numbers, 0, zero));
    let n: usize = equity_curve.len();
    if n < 2 {
        return zero;
    }
    let mut peak: V = equity_curve[0].equity;
    let mut sum_sq: V = zero;
    let ghost mut peaks: Seq<V> = seq![peak];
    let ghost mut sums: Seq<V> = seq![zero];
    let mut i: usize = 0;
    while i < n
        invariant
            i <= n,
            n == equity_curve@.len(),
            n >= 2,
            running_ulcer(numbers, equity_curve@, i as int, zero, peaks, sums),
            peaks[i as int] == peak,
            sums[i as int] == sum_sq,
        decreases n - i,
    {
        let ghost earlier_peaks = peaks;
        let ghost earlier_sums = sums;
        let ghost peak_before = peak;
        let ghost acc = sum_sq;
        let equity: V = equity_curve[i].equity;
        let high = relation(numbers, equity, peak);
        if high.is_gt() {
            peak = equity;
        }
        let dd: V = drawdown_pct(numbers, peak, equity);
        let square: V = numbers.mul(dd, dd);
        sum_sq = numbers.add(sum_sq, square);
        proof {
            assert(drawdown_pct_of(numbers, peak, equity, dd));
            assert(muls(numbers, dd, dd, square));
            assert(ulcer_step(numbers, peak_before, acc, equity, peak, sum_sq));
            peaks = earlier_peaks.push(peak);
            sums = earlier_sums.push(sum_sq);
            assert forall|k: int| 0 <= k < i + 1 implies ulcer_step(numbers, #[trigger] peaks[k], sums[k], equity_curve@[k].equity, peaks[k + 1], sums[k + 1]) by {
                if k < i {
                    assert(ulcer_step(numbers, earlier_peaks[k], earlier_sums[k], equity_curve@[k].equity, earlier_peaks[k + 1], earlier_sums[k + 1]));
                }
            }
        }
        i += 1;
    }
    root_of_mean(numbers, sum_sq, n)
}

/// Sums over the trades of one outcome, or over all trades.
/// The running sums of a list of trades: the profit of the winners, the
/// loss of the losers as a magnitude, profit and commission of all, the
/// largest win and the largest loss, and the sums and the maxima of the
/// adverse and the favourable excursions.
pub struct Tally<V> {
    pub gross_profit: V,
    pub gross_loss: V,
    pub pnl: V,
    pub commission: V,
    pub largest_win: V,
    pub largest_loss: V,
    pub mae: V,
    pub mae_max: V,
    pub mfe: V,
    pub mfe_max: V,
}

/// The tally before the first trade: `zero` throughout.
pub open spec fn no_tally<V>(zero: V) -> Tally<V> {
    Tally { gross_profit: zero, gross_loss: zero, pnl: zero, commission: zero, largest_win: zero, largest_loss: zero, mae: zero, mae_max: zero, mfe: zero, mfe_max: zero }
}

/// `after` is the tally with one trade added: its profit to the gross
/// profit where it won, the distance of its profit from zero to the gross
/// loss where it lost, and its profit and commission to the sums of all;
/// the largest win is the greater of the one before and the profit of a
/// winner, the largest loss the lesser of the one before and the profit of
/// a loser; and the excursions are added up and their maxima kept.
pub open spec fn tallied<V, N: Numbers<V>>(numbers: &N, zero: V, before: Tally<V>, trade: TradeResult<V>, outcome: Relation, after: Tally<V>) -> bool {
    &&& (if outcome == Relation::Greater {
        adds(numbers, before.gross_profit, trade.pnl, after.gross_profit) && maxes(numbers, before.largest_win, trade.pnl, after.largest_win)
    } else {
        after.gross_profit == before.gross_profit && after.largest_win == before.largest_win
    })
    &&& (if outcome == Relation::Less {
        mins(numbers, before.largest_loss, trade.pnl, after.largest_loss) && exists|magnitude: V| #[trigger] distances(numbers, trade.pnl, zero, magnitude) && adds(numbers, before.gross_loss, magnitude, after.gross_loss)
    } else {
        after.gross_loss == before.gross_loss && after.largest_loss == before.largest_loss
    })
    &&& adds(numbers, before.pnl, trade.pnl, after.pnl)
    &&& adds(numbers, before.commission, trade.commission, after.commission)
    &&& adds(numbers, before.mae, trade.mae, after.mae)
    &&& maxes(numbers, before.mae_max, trade.mae, after.mae_max)
    &&& adds(numbers, before.mfe, trade.mfe, after.mfe)
    &&& maxes(numbers, before.mfe_max, trade.mfe, after.mfe_max)
}

/// Step `k` of the tally of the trades.
pub open spec fn tallied_at<V, N: Numbers<V>>(numbers: &N, zero: V, trades: Seq<TradeResult<V>>, outcomes: Seq<Relation>, tallies: Seq<Tally<V>>, k: int) -> bool {
    tallied(numbers, zero, tallies[k], trades[k], outcomes[k], tallies[k + 1])
}

/// `total` is the tally of the trades: zeros, with one trade after the
/// other added.
pub open spec fn tally_of<V, N: Numbers<V>>(numbers: &N, trades: Seq<TradeResult<V>>, outcomes: Seq<Relation>, total: Tally<V>) -> bool {
    exists|zero: V, tallies: Seq<Tally<V>>| #[trigger] tally_steps(numbers, zero, trades, outcomes, tallies) && ints(numbers, 0, zero) && tallies[trades.len() as int] == total
}

/// `tallies` holds the tally before the first trade, which is `zero`
/// throughout, and after each trade.
pub open spec fn tally_steps<V, N: Numbers<V>>(numbers: &N, zero: V, trades: Seq<TradeResult<V>>, outcomes: Seq<Relation>, tallies: Seq<Tally<V>>) -> bool {
    &&& tallies.len() == trades.len() + 1
    &&& tallies[0] == no_tally(zero)
    &&& forall|k: int| 0 <= k < trades.len() ==> #[trigger] tallied_at(numbers, zero, trades, outcomes, tallies, k)
}

/// Adds up profit, loss, commission and excursions over the trades.
/// Returns the tally and the profits of the trades.
fn sum_trades<V: Copy, N: Numbers<V>>(numbers: &N, trades: &Vec<TradeResult<V>>, outcomes: &Vec<Relation>) -> (r: (Tally<V>, Vec<V>))
    requires
        outcomes@.len() == trades@.len(),
    ensures
        r.1@.len() == trades@.len(),
        forall|k: int| 0 <= k < trades@.len() ==> #[trigger] r.1@[k] == trades@[k].pnl,
        tally_of(numbers, trades@, outcomes@, r.0),
{
    let zero: V = numbers.from_int(0);
    assert(ints(numbers, 0, zero));
    let mut sums = Tally { gross_profit: zero, gross_loss: zero, pnl: zero, commission: zero, largest_win: zero, largest_loss: zero, mae: zero, mae_max: zero, mfe: zero, mfe_max: zero };
    let ghost mut tallies: Seq<Tally<V>> = seq![sums];
    let mut pnls: Vec<V> = Vec::new();
    let mut i: usize = 0;
    while i < trades.len()
        invariant
            i <= trades@.len(),
            outcomes@.len() == trades@.len(),
            pnls@.len() == i,
            forall|k: int| 0 <= k < i ==> #[trigger] pnls@[k] == trades@[k].pnl,
            tallies.len() == i + 1,
            tallies[0] == no_tally(zero),
            forall|k: int| 0 <= k < i ==> #[trigger] tallied_at(numbers, zero, trades@, outcomes@, tallies, k),
            tallies[i as int] == sums,
        decreases trades@.len() - i,
    {
        let t = &trades[i];
        let ghost before = sums;
        let ghost earlier = tallies;
        match outcomes[i] {
            Relation::Greater => {
                sums.gross_profit = numbers.add(sums.gross_profit, t.pnl);
                sums.largest_win = numbers.max(sums.largest_win, t.pnl);
                assert(adds(numbers, before.gross_profit, t.pnl, sums.gross_profit));
                assert(maxes(numbers, before.largest_win, t.pnl, sums.largest_win));
            },
            Relation::Less => {
                let magnitude: V = numbers.distance(t.pnl, zero);
                assert(distances(numbers, t.pnl, zero, magnitude));
                sums.gross_loss = numbers.add(sums.gross_loss, magnitude);
                sums.largest_loss = numbers.min(sums.largest_loss, t.pnl);
                assert(adds(numbers, before.gross_loss, magnitude, sums.gross_loss));
                assert(mins(numbers, before.largest_loss, t.pnl, sums.largest_loss));
            },
            _ => {},
        }
        sums.pnl = numbers.add(sums.pnl, t.pnl);
        sums.commission = numbers.add(sums.commission, t.commission);
        sums.mae = numbers.add(sums.mae, t.mae);
        sums.mae_max = numbers.max(sums.mae_max, t.mae);
        sums.mfe = numbers.add(sums.mfe, t.mfe);
        sums.mfe_max = numbers.max(sums.mfe_max, t.mfe);
        proof {
            assert(adds(numbers, before.pnl, t.pnl, sums.pnl));
            assert(adds(numbers, before.commission, t.commission, sums.commission));
            assert(adds(numbers, before.mae, t.mae, sums.mae));
            assert(maxes(numbers, before.mae_max, t.mae, sums.mae_max));
            assert(adds(numbers, before.mfe, t.mfe, sums.mfe));
            assert(maxes(numbers, before.mfe_max, t.mfe, sums.mfe_max));
            assert(tallied(numbers, zero, before, trades@[i as int], outcomes@[i as int], sums));
            tallies = earlier.push(sums);
            assert forall|k: int| 0 <= k < i + 1 implies #[trigger] tallied_at(numbers, zero, trades@, outcomes@, tallies, k) by {
                if k < i {
                    assert(tallied_at(numbers, zero, trades@, outcomes@, earlier, k));
                }
            }
        }
        pnls.push(t.pnl);
        i += 1;
    }
    assert(tally_steps(numbers, zero, trades@, outcomes@, tallies));
    assert(tally_of(numbers, trades@, outcomes@, sums));
    (sums, pnls)
}

/// `out` is `a` over `b` where `numbers` finds `b` above zero, else zero.
pub open spec fn ratio_or_zero_of<V, N: Numbers<V>>(numbers: &N, a: V, b: V, out: V) -> bool {
    exists|zero: V| #[trigger] ints(numbers, 0, zero) && exists|below: Relation| #[trigger] relates(numbers, b, zero, below) && (if below.gt() {
        divs(numbers, a, b, out)
    } else {
        out == zero
    })
}

/// `a / b`, or zero where `b` is not above zero.
fn ratio_or_zero<V: Copy, N: Numbers<V>>(numbers: &N, a: V, b: V) -> (out: V)
    ensures
        ratio_or_zero_of(numbers, a, b, out),
{
    let zero: V = numbers.from_int(0);
    assert(ints(numbers, 0, zero));
    if relation(numbers, b, zero).is_gt() {
        numbers.div(a, b)
    } else {
        zero
    }
}

/// `out` is what stands for a ratio without a divisor: the value above all
/// others where `numbers` finds `a` above `zero`, else `zero`.
pub open spec fn limit_of<V, N: Numbers<V>>(numbers: &N, a: V, zero: V, out: V) -> bool {
    exists|above: Relation| #[trigger] relates(numbers, a, zero, above) && (if above.gt() {
        highests(numbers, out)
    } else {
        out == zero
    })
}

/// `out` is `a` over `b` where `numbers` finds `b` above zero, else the
/// limit of the ratio.
pub open spec fn ratio_or_limit_of<V, N: Numbers<V>>(numbers: &N, a: V, b: V, out: V) -> bool {
    exists|zero: V| #[trigger] ints(numbers, 0, zero) && exists|below: Relation| #[trigger] relates(numbers, b, zero, below) && (if below.gt() {
        divs(numbers, a, b, out)
    } else {
        limit_of(numbers, a, zero, out)
    })
}

/// `a / b`, or, where `b` is not above zero, a value above every number if
/// `a` is above zero and zero if it is not.
fn ratio_or_limit<V: Copy, N: Numbers<V>>(numbers: &N, a: V, b: V) -> (out: V)
    ensures
        ratio_or_limit_of(numbers, a, b, out),
{
    let zero: V = numbers.from_int(0);
    assert(ints(numbers, 0, zero));
    if relation(numbers, b, zero).is_gt() {
        numbers.div(a, b)
    } else if relation(numbers, a, zero).is_gt() {
        numbers.highest()
    } else {
        zero
    }
}

/// `out` is `part` in percent of `whole`: their quotient times a hundred.
pub open spec fn in_percent_of<V, N: Numbers<V>>(numbers: &N, part: V, whole: V, out: V) -> bool {
    exists|share: V| #[trigger] divs(numbers, part, whole, share) && exists|hundred: V| #[trigger] ints(numbers, 100, hundred) && muls(numbers, share, hundred, out)
}

/// The money of the metrics is that of the tally: gross profit and gross
/// loss as tallied; the net profit is profit less commission; the final
/// capital is the initial capital plus the net profit; the total return is
/// the net profit in percent of the initial capital; and the profit factor
/// is gross profit over gross loss, or its limit.
pub open spec fn paid<V, N: Numbers<V>>(numbers: &N, total: Tally<V>, initial_capital: V, m: BacktestMetrics<V>) -> bool {
    &&& m.gross_profit == total.gross_profit
    &&& m.gross_loss == total.gross_loss
    &&& subs(numbers, total.pnl, total.commission, m.net_profit)
    &&& adds(numbers, initial_capital, m.net_profit, m.final_capital)
    &&& in_percent_of(numbers, m.net_profit, initial_capital, m.total_return_pct)
    &&& ratio_or_limit_of(numbers, m.gross_profit, m.gross_loss, m.profit_factor)
}

/// The win rate of the metrics is the number of winners in percent of the
/// number of trades.
pub open spec fn rated<V, N: Numbers<V>>(numbers: &N, trades: usize, m: BacktestMetrics<V>) -> bool {
    exists|wins: V| #[trigger] ints(numbers, whole(m.winning_trades), wins) && exists|all: V| #[trigger] ints(numbers, whole(trades), all) && in_percent_of(numbers, wins, all, m.win_rate_pct)
}

/// `out` is the mean of a sum over a number of trades, or zero where there
/// is no such trade.
pub open spec fn mean_or_zero<V, N: Numbers<V>>(numbers: &N, sum: V, trades: usize, out: V) -> bool {
    if trades > 0 {
        exists|n: V| #[trigger] ints(numbers, whole(trades), n) && divs(numbers, sum, n, out)
    } else {
        ints(numbers, 0, out)
    }
}

/// `out` is what a trade is expected to bring: the share of the winners
/// times the mean win, plus the share of the others times the mean loss.
pub open spec fn expected<V, N: Numbers<V>>(numbers: &N, win_rate_pct: V, avg_win: V, avg_loss: V, out: V) -> bool {
    exists|hundred: V| #[trigger]
        ints(numbers, 100, hundred) && exists|share: V| #[trigger]
            divs(numbers, win_rate_pct, hundred, share) && exists|won: V| #[trigger]
                muls(numbers, share, avg_win, won) && exists|one: V| #[trigger]
                    ints(numbers, 1, one) && exists|rest: V| #[trigger] subs(numbers, one, share, rest) && exists|lost: V| #[trigger] muls(numbers, rest, avg_loss, lost) && adds(numbers, won, lost, out)
}

/// The averages of the metrics: the mean trade is the summed profit over
/// the number of trades; the mean win is the gross profit over the number
/// of winners and the mean loss the gross loss, below zero, over the number
/// of losers, each zero without such trades; and the expectancy is
/// `expected` of them.
pub open spec fn averaged<V, N: Numbers<V>>(numbers: &N, total: Tally<V>, trades: usize, m: BacktestMetrics<V>) -> bool {
    &&& exists|all: V| #[trigger] ints(numbers, whole(trades), all) && divs(numbers, total.pnl, all, m.avg_trade)
    &&& mean_or_zero(numbers, m.gross_profit, m.winning_trades, m.avg_win)
    &&& exists|lost: V| #[trigger] negs(numbers, m.gross_loss, lost) && mean_or_zero(numbers, lost, m.losing_trades, m.avg_loss)
    &&& expected(numbers, m.win_rate_pct, m.avg_win, m.avg_loss, m.expectancy)
}

/// The extremes and the excursions of the metrics are those of the tally:
/// the largest win and the largest loss, the maxima of the excursions, and
/// their sums over the number of trades.
pub open spec fn excursions_read<V, N: Numbers<V>>(numbers: &N, total: Tally<V>, trades: usize, m: BacktestMetrics<V>) -> bool {
    &&& m.largest_win == total.largest_win
    &&& m.largest_loss == total.largest_loss
    &&& m.mae_max == total.mae_max
    &&& m.mfe_max == total.mfe_max
    &&& exists|all: V| #[trigger] ints(numbers, whole(trades), all) && divs(numbers, total.mae, all, m.mae_avg) && divs(numbers, total.mfe, all, m.mfe_avg)
}

/// The mean number of bars in a trade is the sum of the durations, capped
/// at the largest count, over the number of trades.
pub open spec fn bars_averaged<V, N: Numbers<V>>(numbers: &N, trades: Seq<TradeResult<V>>, outcomes: Seq<Relation>, m: BacktestMetrics<V>) -> bool {
    exists|bars: V| #[trigger]
        ints(numbers, whole(clip(bars_of(trades, outcomes, None, trades.len() as int) as int)), bars) && exists|all: V| #[trigger] ints(numbers, whole(trades.len() as usize), all) && divs(numbers, bars, all, m.avg_bars_in_trade)
}

/// The number of bars over which a return was made: the points of the
/// curve, or one where it has none.
pub open spec fn bars_traded(points: nat) -> usize {
    if points < 1 {
        1
    } else {
        points as usize
    }
}

/// `out` is a return per month of 21 trading days: the return over the
/// number of months that the bars make up, which counts as one at least.
pub open spec fn monthly<V, N: Numbers<V>>(numbers: &N, total_return_pct: V, bars: usize, bpd: V, out: V) -> bool {
    exists|days: V| #[trigger]
        ints(numbers, 21, days) && exists|per_month: V| #[trigger]
            muls(numbers, bpd, days, per_month) && exists|all: V| #[trigger]
                ints(numbers, whole(bars), all) && exists|span: V| #[trigger]
                    divs(numbers, all, per_month, span) && exists|one: V| #[trigger] ints(numbers, 1, one) && exists|months: V| #[trigger] maxes(numbers, span, one, months) && divs(numbers, total_return_pct, months, out)
}

/// The returns per year and per month of the metrics are those of the total
/// return over the bars of the curve.
pub open spec fn spread_over_time<V, N: Numbers<V>>(numbers: &N, points: nat, timeframe: Timeframe, m: BacktestMetrics<V>) -> bool {
    exists|bpd: V| #[trigger]
        ints(numbers, bars_in_day(timeframe), bpd) && annualized(numbers, m.total_return_pct, bars_traded(points), bpd, m.annualized_return_pct) && monthly(
            numbers,
            m.total_return_pct,
            bars_traded(points),
            bpd,
            m.monthly_return_avg_pct,
        )
}

/// `out` is the net profit over the largest drawdown in money, which is
/// that share of the initial capital; zero where `numbers` does not find
/// the drawdown above zero.
pub open spec fn recovered<V, N: Numbers<V>>(numbers: &N, net_profit: V, initial_capital: V, max_drawdown_pct: V, out: V) -> bool {
    exists|zero: V| #[trigger]
        ints(numbers, 0, zero) && exists|over: Relation| #[trigger]
            relates(numbers, max_drawdown_pct, zero, over) && (if over == Relation::Greater {
                exists|scaled: V| #[trigger]
                    muls(numbers, initial_capital, max_drawdown_pct, scaled) && exists|hundred: V| #[trigger]
                        ints(numbers, 100, hundred) && exists|amount: V| #[trigger] divs(numbers, scaled, hundred, amount) && divs(numbers, net_profit, amount, out)
            } else {
                out == zero
            })
}

/// The drawdown figures of the metrics are those of the equity curve:
/// largest drawdown, its duration and the mean drawdown are
/// `drawdown_stats_of` the curve, the ulcer index is `ulcer_of` it, and
/// the stagnation is `stagnated` of it, and recovery factor, Calmar ratio
/// and the ratio of return to drawdown set profit and returns against the
/// largest drawdown.
pub open spec fn drawn<V, N: Numbers<V>>(numbers: &N, equity: Seq<EquityPoint<V>>, initial_capital: V, m: BacktestMetrics<V>) -> bool {
    &&& exists|stats: (V, usize, V)| #[trigger] drawdown_stats_of(numbers, equity, stats) && stats.0 == m.max_drawdown_pct && stats.1 == m.max_drawdown_duration_bars && stats.2 == m.avg_drawdown_pct
    &&& ulcer_of(numbers, equity, m.ulcer_index_pct)
    &&& stagnated(numbers, equity, m.stagnation_bars)
    &&& recovered(numbers, m.net_profit, initial_capital, m.max_drawdown_pct, m.recovery_factor)
    &&& ratio_or_zero_of(numbers, m.annualized_return_pct, m.max_drawdown_pct, m.calmar_ratio)
    &&& ratio_or_limit_of(numbers, m.total_return_pct, m.max_drawdown_pct, m.return_dd_ratio)
}

/// Entry `k` of the returns is the profit of trade `k` over the initial
/// capital.
pub open spec fn return_at<V, N: Numbers<V>>(numbers: &N, trades: Seq<TradeResult<V>>, initial_capital: V, yields: Seq<V>, k: int) -> bool {
    divs(numbers, trades[k].pnl, initial_capital, yields[k])
}

/// The Sharpe and the Sortino ratio of the metrics are those of the returns
/// of the trades, with 252 periods to the year.
pub open spec fn risk_rated<V, N: Numbers<V>>(numbers: &N, trades: Seq<TradeResult<V>>, initial_capital: V, m: BacktestMetrics<V>) -> bool {
    exists|yields: Seq<V>, factor: V|
        {
            &&& #[trigger] sharpe_of(numbers, yields, factor, m.sharpe_ratio)
            &&& sortino_of(numbers, yields, factor, m.sortino_ratio)
            &&& ints(numbers, 252, factor)
            &&& yields.len() == trades.len()
            &&& forall|k: int| 0 <= k < trades.len() ==> #[trigger] return_at(numbers, trades, initial_capital, yields, k)
        }
}

/// The streak means of the metrics are the mean lengths of the streaks of
/// winners and of losers, zero without such a streak.
pub open spec fn streaks_averaged<V, N: Numbers<V>>(numbers: &N, outcomes: Seq<Relation>, m: BacktestMetrics<V>) -> bool {
    let s = streaks_after(outcomes, outcomes.len() as int);
    &&& exists|runs: usize, sum: usize| runs == all_streaks(s.win_streaks, s.current_wins).len() && sum == total(all_streaks(s.win_streaks, s.current_wins)) && #[trigger] mean_value_of(numbers, sum, runs, m.avg_consecutive_wins)
    &&& exists|runs: usize, sum: usize| runs == all_streaks(s.loss_streaks, s.current_losses).len() && sum == total(all_streaks(s.loss_streaks, s.current_losses)) && #[trigger] mean_value_of(numbers, sum, runs, m.avg_consecutive_losses)
}

/// The metrics of a non-empty list of trades: the outcomes are how
/// `numbers` finds each profit to stand to zero; counts, streaks and
/// durations are `counted` over them; and money and win rate are `paid` and
/// `rated` from the tally of the trades.
pub open spec fn profits_of<V, N: Numbers<V>>(numbers: &N, trades: Seq<TradeResult<V>>, initial_capital: V, timeframe: Timeframe, m: BacktestMetrics<V>) -> bool {
    exists|outcomes: Seq<Relation>, total: Tally<V>|
        {
            &&& #[trigger] tally_of(numbers, trades, outcomes, total)
            &&& classified(numbers, trades, outcomes)
            &&& counted(trades, outcomes, timeframe, m)
            &&& paid(numbers, total, initial_capital, m)
            &&& rated(numbers, trades.len() as usize, m)
            &&& averaged(numbers, total, trades.len() as usize, m)
            &&& excursions_read(numbers, total, trades.len() as usize, m)
            &&& bars_averaged(numbers, trades, outcomes, m)
            &&& streaks_averaged(numbers, outcomes, m)
        }
}

/// What the metrics of a non-empty list of trades take from the equity
/// curve and from the returns of the trades: `spread_over_time`, `drawn`
/// and `risk_rated`.
pub open spec fn curve_measured<V, N: Numbers<V>>(numbers: &N, trades: Seq<TradeResult<V>>, equity: Seq<EquityPoint<V>>, initial_capital: V, timeframe: Timeframe, m: BacktestMetrics<V>) -> bool {
    &&& spread_over_time(numbers, equity.len(), timeframe, m)
    &&& drawn(numbers, equity, initial_capital, m)
    &&& risk_rated(numbers, trades, initial_capital, m)
}

/// The metrics of a list of trades and their equity curve: the empty
/// metrics, with the zero of `numbers`, for no trades; else `profits_of`
/// and `curve_measured`.
pub open spec fn metrics_of<V, N: Numbers<V>>(numbers: &N, trades: Seq<TradeResult<V>>, equity: Seq<EquityPoint<V>>, initial_capital: V, timeframe: Timeframe, m: BacktestMetrics<V>) -> bool {
    if trades.len() == 0 {
        exists|zero: V| #[trigger] ints(numbers, 0, zero) && is_empty_metrics(m, initial_capital, zero)
    } else {
        profits_of(numbers, trades, initial_capital, timeframe, m) && curve_measured(numbers, trades, equity, initial_capital, timeframe, m)
    }
}

/// Computes the metrics of a run from its trades and its equity curve:
/// profit and loss, returns, risk-adjusted ratios, drawdown, consistency,
/// durations and excursions.
///
/// The metrics are `metrics_of` the trades and the curve. Whatever the
/// arithmetic yields: the number of trades is the length of the list; the
/// stagnation is `stagnation_of` for some marking of the points as new
/// highs, and the duration of the largest drawdown is less than the number
/// of points.
pub fn calculate_metrics<V: Copy, N: Numbers<V>>(numbers: &N, trades: &Vec<TradeResult<V>>, equity_curve: &Vec<EquityPoint<V>>, initial_capital: V, timeframe: Timeframe) -> (m: BacktestMetrics<V>)
    ensures
        metrics_of(numbers, trades@, equity_curve@, initial_capital, timeframe, m),
        m.total_trades == trades@.len(),
        m.winning_trades + m.losing_trades + m.breakeven_trades <= trades@.len(),
        m.max_consecutive_wins <= trades@.len(),
        m.max_consecutive_losses <= trades@.len(),
        equity_curve@.len() < 2 ==> m.stagnation_bars == 0 && m.max_drawdown_duration_bars == 0,
        equity_curve@.len() >= 1 ==> m.max_drawdown_duration_bars < equity_curve@.len(),
        trades@.len() == 0 ==> exists|zero: V| is_empty_metrics(m, initial_capital, zero),
        trades@.len() > 0 ==> exists|outcomes: Seq<Relation>| counted(trades@, outcomes, timeframe, m),
        trades@.len() > 0 ==> exists|new_high: Seq<bool>| new_high.len() == equity_curve@.len() && m.stagnation_bars == stagnation_of(new_high, equity_curve@.len() as int),
        trades@.len() > 0 ==> m.stagnation_time@ == duration_text(minutes_of(m.stagnation_bars as int, bar_minutes(timeframe))),
        trades@.len() > 0 ==> m.max_drawdown_duration_time@ == duration_text(
            minutes_of(m.max_drawdown_duration_bars as int, bar_minutes(timeframe)),
        ),
{
    let total_trades: usize = trades.len();
    let zero: V = numbers.from_int(0);
    assert(ints(numbers, 0, zero));
    if total_trades == 0 {
        return empty_metrics(initial_capital, zero);
    }
    let outcomes = classify_trades(numbers, trades);
    proof {
        lemma_counts_bounded(outcomes@, outcomes@.len() as int);
        lemma_streaks_bounded(outcomes@, outcomes@.len() as int);
    }
    let winning_trades: usize = count_outcomes(&outcomes, Relation::Greater);
    let losing_trades: usize = count_outcomes(&outcomes, Relation::Less);
    let breakeven_trades: usize = count_outcomes(&outcomes, Relation::Equal);
    let streaks = count_consecutive(&outcomes);
    let hundred: V = numbers.from_int(100);
    let one: V = numbers.from_int(1);
    let total: V = count(numbers, total_trades);

    let summed = sum_trades(numbers, trades, &outcomes);
    let sums = summed.0;
    let gross_profit: V = sums.gross_profit;
    let gross_loss: V = sums.gross_loss;
    let ghost tally = sums;
    let net_profit: V = numbers.sub(sums.pnl, sums.commission);
    let wins: V = count(numbers, winning_trades);
    let win_share_of_all: V = numbers.div(wins, total);
    let win_rate_pct: V = numbers.mul(win_share_of_all, hundred);
    assert(ints(numbers, 100, hundred));
    assert(divs(numbers, wins, total, win_share_of_all));
    assert(in_percent_of(numbers, wins, total, win_rate_pct));
    let avg_win: V = if winning_trades > 0 {
        numbers.div(gross_profit, count(numbers, winning_trades))
    } else {
        zero
    };
    assert(mean_or_zero(numbers, gross_profit, winning_trades, avg_win));
    let lost: V = numbers.neg(gross_loss);
    assert(negs(numbers, gross_loss, lost));
    let avg_loss: V = if losing_trades > 0 {
        numbers.div(lost, count(numbers, losing_trades))
    } else {
        zero
    };
    assert(mean_or_zero(numbers, lost, losing_trades, avg_loss));
    let win_share: V = numbers.div(win_rate_pct, hundred);
    let won: V = numbers.mul(win_share, avg_win);
    let rest: V = numbers.sub(one, win_share);
    let lose: V = numbers.mul(rest, avg_loss);
    let expectancy: V = numbers.add(won, lose);
    proof {
        assert(ints(numbers, 1, one));
        assert(divs(numbers, win_rate_pct, hundred, win_share));
        assert(muls(numbers, win_share, avg_win, won));
        assert(subs(numbers, one, win_share, rest));
        assert(muls(numbers, rest, avg_loss, lose));
        assert(expected(numbers, win_rate_pct, avg_win, avg_loss, expectancy));
    }

    let return_share: V = numbers.div(net_profit, initial_capital);
    let total_return_pct: V = numbers.mul(return_share, hundred);
    assert(divs(numbers, net_profit, initial_capital, return_share));
    assert(in_percent_of(numbers, net_profit, initial_capital, total_return_pct));
    let trading_bars: usize = if equity_curve.len() < 1 {
        1
    } else {
        equity_curve.len()
    };
    let bpd: V = bars_per_day(numbers, timeframe);
    let annualized_return_pct: V = annualize_return(numbers, total_return_pct, trading_bars, bpd);
    let days: V = numbers.from_int(21);
    let bars_per_month: V = numbers.mul(bpd, days);
    let all_bars_traded: V = count(numbers, trading_bars);
    let span: V = numbers.div(all_bars_traded, bars_per_month);
    let months: V = numbers.max(span, one);
    let monthly_return_avg_pct: V = numbers.div(total_return_pct, months);
    proof {
        assert(ints(numbers, 21, days));
        assert(muls(numbers, bpd, days, bars_per_month));
        assert(divs(numbers, all_bars_traded, bars_per_month, span));
        assert(maxes(numbers, span, one, months));
        assert(trading_bars == bars_traded(equity_curve@.len()));
        assert(monthly(numbers, total_return_pct, trading_bars, bpd, monthly_return_avg_pct));
    }

    let drawdown = calculate_drawdown_stats(numbers, equity_curve);
    let max_drawdown_pct: V = drawdown.0;
    let max_drawdown_duration_bars: usize = drawdown.1;
    let scaled: V = numbers.mul(initial_capital, max_drawdown_pct);
    let drawdown_amount: V = numbers.div(scaled, hundred);
    let recovery_factor: V = match relation(numbers, max_drawdown_pct, zero) {
        Relation::Greater => numbers.div(net_profit, drawdown_amount),
        _ => zero,
    };
    proof {
        assert(muls(numbers, initial_capital, max_drawdown_pct, scaled));
        assert(divs(numbers, scaled, hundred, drawdown_amount));
        assert(recovered(numbers, net_profit, initial_capital, max_drawdown_pct, recovery_factor));
    }

    let mut trade_returns: Vec<V> = Vec::new();
    let mut i: usize = 0;
    while i < total_trades
        invariant
            i <= total_trades,
            total_trades == summed.1@.len(),
            total_trades == trades@.len(),
            trade_returns@.len() == i,
            forall|k: int| 0 <= k < trades@.len() ==> #[trigger] summed.1@[k] == trades@[k].pnl,
            forall|k: int| 0 <= k < i ==> #[trigger] return_at(numbers, trades@, initial_capital, trade_returns@, k),
        decreases total_trades - i,
    {
        let ghost before = trade_returns@;
        let share: V = numbers.div(summed.1[i], initial_capital);
        trade_returns.push(share);
        proof {
            assert(summed.1@[i as int] == trades@[i as int].pnl);
            assert(return_at(numbers, trades@, initial_capital, trade_returns@, i as int));
            assert forall|k: int| 0 <= k < i + 1 implies #[trigger] return_at(numbers, trades@, initial_capital, trade_returns@, k) by {
                if k < i {
                    assert(return_at(numbers, trades@, initial_capital, before, k));
                }
            }
        }
        i += 1;
    }
    let factor: V = numbers.from_int(252);
    assert(ints(numbers, 252, factor));

    let minutes: u32 = timeframe.minutes();
    let mpb: u32 = if minutes < 1 {
        1
    } else {
        minutes
    };
    let all_bars: usize = sum_bars(trades, &outcomes, None);
    let winner_bars: usize = sum_bars(trades, &outcomes, Some(Relation::Greater));
    let loser_bars: usize = sum_bars(trades, &outcomes, Some(Relation::Less));
    let stagnation_bars: usize = calculate_stagnation_bars(numbers, equity_curve);
    let bars_in_all: V = count(numbers, all_bars);
    let m = BacktestMetrics {
        final_capital: numbers.add(initial_capital, net_profit),
        total_return_pct,
        annualized_return_pct,
        monthly_return_avg_pct,
        sharpe_ratio: calculate_sharpe(numbers, &trade_returns, factor),
        sortino_ratio: calculate_sortino(numbers, &trade_returns, factor),
        calmar_ratio: ratio_or_zero(numbers, annualized_return_pct, max_drawdown_pct),
        max_drawdown_pct,
        max_drawdown_duration_bars,
        max_drawdown_duration_time: format_bars(max_drawdown_duration_bars, mpb),
        avg_drawdown_pct: drawdown.2,
        recovery_factor,
        total_trades,
        winning_trades,
        losing_trades,
        breakeven_trades,
        win_rate_pct,
        gross_profit,
        gross_loss,
        net_profit,
        profit_factor: ratio_or_limit(numbers, gross_profit, gross_loss),
        avg_trade: numbers.div(sums.pnl, total),
        avg_win,
        avg_loss,
        largest_win: sums.largest_win,
        largest_loss: sums.largest_loss,
        expectancy,
        max_consecutive_wins: streaks.max_wins,
        max_consecutive_losses: streaks.max_losses,
        avg_consecutive_wins: mean_value(numbers, streaks.win_total, streaks.win_streaks),
        avg_consecutive_losses: mean_value(numbers, streaks.loss_total, streaks.loss_streaks),
        avg_trade_duration: format_bars(average_bars(all_bars, total_trades), mpb),
        avg_bars_in_trade: numbers.div(bars_in_all, total),
        avg_winner_duration: format_bars(average_bars(winner_bars, winning_trades), mpb),
        avg_loser_duration: format_bars(average_bars(loser_bars, losing_trades), mpb),
        mae_avg: numbers.div(sums.mae, total),
        mae_max: sums.mae_max,
        mfe_avg: numbers.div(sums.mfe, total),
        mfe_max: sums.mfe_max,
        stagnation_bars,
        stagnation_time: format_bars(stagnation_bars, mpb),
        ulcer_index_pct: calculate_ulcer_index(numbers, equity_curve),
        return_dd_ratio: ratio_or_limit(numbers, total_return_pct, max_drawdown_pct),
    };
    assert(counted(trades@, outcomes@, timeframe, m));
    proof {
        assert(tally_of(numbers, trades@, outcomes@, tally));
        assert(paid(numbers, tally, initial_capital, m));
        assert(trades@.len() as usize == total_trades);
        assert(rated(numbers, trades@.len() as usize, m));
        assert(divs(numbers, sums.pnl, total, m.avg_trade));
        assert(averaged(numbers, tally, trades@.len() as usize, m));
        assert(divs(numbers, sums.mae, total, m.mae_avg) && divs(numbers, sums.mfe, total, m.mfe_avg));
        assert(excursions_read(numbers, tally, trades@.len() as usize, m));
        assert(all_bars == clip(bars_of(trades@, outcomes@, None, trades@.len() as int) as int));
        assert(divs(numbers, bars_in_all, total, m.avg_bars_in_trade));
        assert(bars_averaged(numbers, trades@, outcomes@, m));
        assert(mean_value_of(numbers, streaks.win_total, streaks.win_streaks, m.avg_consecutive_wins));
        assert(mean_value_of(numbers, streaks.loss_total, streaks.loss_streaks, m.avg_consecutive_losses));
        assert(streaks_averaged(numbers, outcomes@, m));
        assert(profits_of(numbers, trades@, initial_capital, timeframe, m));
        assert(spread_over_time(numbers, equity_curve@.len(), timeframe, m));
        assert(drawdown_stats_of(numbers, equity_curve@, drawdown));
        assert(drawn(numbers, equity_curve@, initial_capital, m));
        assert(sharpe_of(numbers, trade_returns@, factor, m.sharpe_ratio));
        assert(risk_rated(numbers, trades@, initial_capital, m));
        assert(curve_measured(numbers, trades@, equity_curve@, initial_capital, timeframe, m));
    }
    m
}

/// Where no outcome is unordered, winners, losers and break-even trades
/// together are all the trades.
pub proof fn lemma_counts_total(outcomes: Seq<Relation>, n: int)
    requires
        0 <= n <= outcomes.len(),
        forall|i: int| 0 <= i < n ==> outcomes[i] != Relation::Unordered,
    ensures
        count_of(outcomes, Relation::Greater, n) + count_of(outcomes, Relation::Less, n) + count_of(outcomes, Relation::Equal, n) == n,
    decreases n,
{
    if n > 0 {
        lemma_counts_total(outcomes, n - 1);
    }
}

} // verus!
