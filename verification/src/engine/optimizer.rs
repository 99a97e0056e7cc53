use vstd::prelude::*;
use vstd::string::StringExecFns;
use vstd::slice::slice_subrange;
use rand::rngs::StdRng;
use rand::Rng;
use std::sync::atomic::AtomicBool;
use rayon::iter::{IntoParallelRefIterator, ParallelIterator};
use crate::engine::executor::{
    backtest_run, is_cancelled, percent_of, progress_percent, run_backtest, run_failed,
    SubBarData,
};
use crate::models::result::BacktestResults;
use crate::models::candle::Candle;
use crate::models::config::InstrumentConfig;
use crate::engine::numeric::{
    adds, compares, divs, ints, lowests, maxes, mins, muls, orders_as, pick, relates, roundings,
    subs, turned_sign, Comparison, Numbers, Relation,
};
use crate::engine::series::{greater, relation};
use crate::engine::executor::{collected, lemma_collected_grows};
use crate::errors::AppError;
use crate::models::result::{
    BacktestMetrics, GeneticAlgorithmConfig, ObjectiveFunction, OosResult, OptimizationConfig,
    OptimizationMethod, OptimizationResult, ParamValue, ParameterRange,
};
use crate::models::strategy::{
    copy_strategy, same_strategy, BacktestConfig, CloseTradesAt, IndicatorConfig, IndicatorParams,
    Operand, Rule, StopLoss, Strategy, TakeProfit, TradingHours, TrailingStop,
};
use crate::text::is_text;

verus! {

/// Largest number of combinations that a grid search accepts.
pub const MAX_COMBINATIONS: usize = 500_000;

/// Largest number of results that a search returns.
pub const MAX_RESULTS: usize = 50;

/// The number of combinations of the first `d` value lists.
pub open spec fn product_of<V>(lists: Seq<Vec<V>>, d: int) -> nat
    decreases d,
{
    if d <= 0 {
        1
    } else {
        product_of(lists, d - 1) * lists[d - 1]@.len()
    }
}

/// Combination number `k` of the first `d` value lists. The combinations
/// are counted with the last list running fastest: `k` is split into the
/// position in the last list and the number of the combination of the lists
/// before it.
pub open spec fn combo_at<V>(lists: Seq<Vec<V>>, d: int, k: int) -> Seq<V>
    decreases d,
{
    if d <= 0 {
        Seq::<V>::empty()
    } else {
        let n = lists[d - 1]@.len() as int;
        combo_at(lists, d - 1, k / n).push(lists[d - 1]@[k % n])
    }
}

/// `combos` holds the combinations of the first `d` lists, in order.
pub open spec fn is_product<V>(lists: Seq<Vec<V>>, d: int, combos: Seq<Vec<V>>) -> bool {
    &&& combos.len() == product_of(lists, d)
    &&& forall|k: int| 0 <= k < combos.len() ==> (#[trigger] combos[k])@ == combo_at(lists, d, k)
}

/// The number of combinations, capped at the largest `usize`.
pub fn count_combinations<V>(lists: &Vec<Vec<V>>) -> (total: usize)
    ensures
        total == (if product_of(lists@, lists@.len() as int) > usize::MAX {
            usize::MAX as nat
        } else {
            product_of(lists@, lists@.len() as int)
        }),
{
    let mut total: usize = 1;
    let mut d: usize = 0;
    while d < lists.len()
        invariant
            d <= lists@.len(),
            total == (if product_of(lists@, d as int) > usize::MAX {
                usize::MAX as nat
            } else {
                product_of(lists@, d as int)
            }),
        decreases lists@.len() - d,
    {
        let n: usize = lists[d].len();
        let ghost before = product_of(lists@, d as int);
        assert(product_of(lists@, d + 1) == before * n);
        proof {
            if n == 0 {
                assert(before * n == 0 && total * n == 0) by (nonlinear_arith)
                    requires
                        n == 0,
                ;
            } else if before > usize::MAX {
                assert(before * n >= before && total * n >= total) by (nonlinear_arith)
                    requires
                        n >= 1,
                        before >= 0,
                        total >= 0,
                ;
            }
        }
        total = match total.checked_mul(n) {
            Some(t) => t,
            None => usize::MAX,
        };
        d += 1;
    }
    total
}

/// Copies the first `len` values of a list.
fn copy_values<V: Copy>(values: &Vec<V>) -> (copy: Vec<V>)
    ensures
        copy@ == values@,
{
    let mut copy: Vec<V> = Vec::new();
    let mut i: usize = 0;
    while i < values.len()
        invariant
            i <= values@.len(),
            copy@ == values@.subrange(0, i as int),
        decreases values@.len() - i,
    {
        copy.push(values[i]);
        assert(copy@ =~= values@.subrange(0, i + 1));
        i += 1;
    }
    assert(copy@ =~= values@);
    copy
}

/// Extends each combination of the lists before `lists[d]` by each value of
/// `lists[d]`.
fn extend_product<V: Copy>(lists: &Vec<Vec<V>>, d: usize, combos: Vec<Vec<V>>) -> (next: Vec<Vec<V>>)
    requires
        d < lists@.len(),
        is_product(lists@, d as int, combos@),
        product_of(lists@, d + 1) <= usize::MAX,
    ensures
        is_product(lists@, d + 1, next@),
{
    let vals = &lists[d];
    let n: usize = vals.len();
    let mut next: Vec<Vec<V>> = Vec::new();
    let mut c: usize = 0;
    assert(product_of(lists@, d + 1) == product_of(lists@, d as int) * n);
    while c < combos.len()
        invariant
            d < lists@.len(),
            n == lists@[d as int]@.len(),
            *vals == lists@[d as int],
            c <= combos@.len(),
            is_product(lists@, d as int, combos@),
            product_of(lists@, d + 1) == product_of(lists@, d as int) * n,
            product_of(lists@, d + 1) <= usize::MAX,
            next@.len() == c * n,
            forall|k: int| 0 <= k < next@.len() ==> (#[trigger] next@[k])@ == combo_at(lists@, d + 1, k),
        decreases combos@.len() - c,
    {
        let mut v: usize = 0;
        while v < n
            invariant
                d < lists@.len(),
                n == lists@[d as int]@.len(),
                *vals == lists@[d as int],
                c < combos@.len(),
                v <= n,
                is_product(lists@, d as int, combos@),
                product_of(lists@, d + 1) == product_of(lists@, d as int) * n,
                product_of(lists@, d + 1) <= usize::MAX,
                next@.len() == c * n + v,
                forall|k: int| 0 <= k < next@.len() ==> (#[trigger] next@[k])@ == combo_at(lists@, d + 1, k),
            decreases n - v,
        {
            let mut combo: Vec<V> = copy_values(&combos[c]);
            combo.push(vals[v]);
            proof {
                let k = c * n + v;
                assert(k / (n as int) == c && k % (n as int) == v) by (nonlinear_arith)
                    requires
                        k == c * n + v,
                        0 <= v < n,
                        0 <= c,
                ;
                assert(combo@ == combo_at(lists@, d + 1, k as int));
                assert(c * n + v < combos@.len() * n) by (nonlinear_arith)
                    requires
                        c < combos@.len(),
                        0 <= v < n,
                ;
            }
            next.push(combo);
            v += 1;
        }
        assert((c + 1) * n == c * n + n) by (nonlinear_arith);
        c += 1;
    }
    next
}

/// Builds the cartesian product of value lists: every way of taking one
/// value from each list, with the last list running fastest.
pub fn cartesian_product<V: Copy>(lists: &Vec<Vec<V>>) -> (combos: Vec<Vec<V>>)
    requires
        product_of(lists@, lists@.len() as int) <= usize::MAX,
        forall|d: int| 0 <= d < lists@.len() ==> (#[trigger] lists@[d])@.len() > 0,
    ensures
        is_product(lists@, lists@.len() as int, combos@),
{
    let mut combos: Vec<Vec<V>> = Vec::new();
    combos.push(Vec::new());
    let mut d: usize = 0;
    assert(combos@[0]@ =~= combo_at(lists@, 0, 0));
    while d < lists.len()
        invariant
            d <= lists@.len(),
            is_product(lists@, d as int, combos@),
            product_of(lists@, lists@.len() as int) <= usize::MAX,
            forall|e: int| 0 <= e < lists@.len() ==> (#[trigger] lists@[e])@.len() > 0,
        decreases lists@.len() - d,
    {
        proof {
            lemma_product_grows(lists@, d + 1, lists@.len() as int);
        }
        combos = extend_product(lists, d, combos);
        d += 1;
    }
    combos
}

/// With no empty list, taking more lists never gives fewer combinations.
pub proof fn lemma_product_grows<V>(lists: Seq<Vec<V>>, a: int, b: int)
    requires
        0 <= a <= b <= lists.len(),
        forall|d: int| 0 <= d < lists.len() ==> (#[trigger] lists[d])@.len() > 0,
    ensures
        1 <= product_of(lists, a) <= product_of(lists, b),
    decreases b - a,
{
    if a < b {
        lemma_product_grows(lists, a, b - 1);
        let p = product_of(lists, b - 1);
        let n = lists[b - 1]@.len();
        assert(p * n >= p) by (nonlinear_arith)
            requires
                p >= 1,
                n >= 1,
        ;
    } else {
        lemma_product_positive(lists, a);
    }
}

/// The number of combinations of non-empty lists is positive.
proof fn lemma_product_positive<V>(lists: Seq<Vec<V>>, a: int)
    requires
        0 <= a <= lists.len(),
        forall|d: int| 0 <= d < lists.len() ==> (#[trigger] lists[d])@.len() > 0,
    ensures
        product_of(lists, a) >= 1,
    decreases a,
{
    if a > 0 {
        lemma_product_positive(lists, a - 1);
        let p = product_of(lists, a - 1);
        let n = lists[a - 1]@.len();
        assert(p * n >= 1) by (nonlinear_arith)
            requires
                p >= 1,
                n >= 1,
        ;
    }
}

/// What `grid_from_lists` returns for per-range value lists: too many
/// combinations are refused with their number and the limit; else the
/// result is the cartesian product.
pub open spec fn grid_of<V>(lists: Seq<Vec<V>>, r: Result<Vec<Vec<V>>, AppError>) -> bool {
    let count = product_of(lists, lists.len() as int);
    if count > MAX_COMBINATIONS {
        r == Err::<Vec<Vec<V>>, AppError>(
            AppError::TooManyCombinations {
                count: if count > usize::MAX {
                    usize::MAX
                } else {
                    count as usize
                },
                limit: MAX_COMBINATIONS,
            },
        )
    } else {
        r is Ok && is_product(lists, lists.len() as int, r->Ok_0@)
    }
}

/// Builds the grid of a search from the value list of each range.
pub fn grid_from_lists<V: Copy>(lists: &Vec<Vec<V>>) -> (r: Result<Vec<Vec<V>>, AppError>)
    requires
        forall|d: int| 0 <= d < lists@.len() ==> (#[trigger] lists@[d])@.len() > 0,
    ensures
        grid_of(lists@, r),
{
    let total: usize = count_combinations(lists);
    if total > MAX_COMBINATIONS {
        return Err(AppError::TooManyCombinations { count: total, limit: MAX_COMBINATIONS });
    }
    Ok(cartesian_product(lists))
}

/// The message for a range whose step is not positive.
pub open spec fn step_message(display_name: Seq<char>) -> Seq<char> {
    "Step must be positive for parameter '"@ + display_name + "'"@
}

/// `inside` is whether `numbers` finds `value` within `max`: at or below
/// it, or within one machine epsilon of it.
pub open spec fn within<V, N: Numbers<V>>(numbers: &N, value: V, max: V, inside: bool) -> bool {
    exists|c: Comparison| #[trigger] compares(numbers, value, max, c) && inside == (c.relation.le() || c.close)
}

/// `values` are the values of a range: the minimum, and then one step
/// after the other added to it for as long as `numbers` finds the sum within
/// the maximum, up to one value more than a grid may have combinations.
pub open spec fn range_stepped<V, N: Numbers<V>>(numbers: &N, range: &ParameterRange<V>, values: Seq<V>) -> bool {
    &&& 1 <= values.len() <= MAX_COMBINATIONS + 1
    &&& values[0] == range.min
    &&& forall|k: int| 0 < k < values.len() ==> adds(numbers, values[k - 1], range.step, #[trigger] values[k]) && within(numbers, values[k], range.max, true)
    &&& (values.len() <= MAX_COMBINATIONS ==> exists|beyond: V| #[trigger] adds(numbers, values[values.len() - 1], range.step, beyond) && within(numbers, beyond, range.max, false))
}

/// Lists the values of a range: from the minimum on in steps, as long as
/// they lie within the maximum. A range whose minimum lies beyond its
/// maximum has the minimum alone.
pub fn range_values<V: Copy, N: Numbers<V>>(numbers: &N, range: &ParameterRange<V>) -> (values: Vec<V>)
    ensures
        range_stepped(numbers, range, values@),
{
    let mut values: Vec<V> = Vec::new();
    values.push(range.min);
    let mut last: V = range.min;
    while values.len() <= MAX_COMBINATIONS
        invariant
            1 <= values@.len() <= MAX_COMBINATIONS + 1,
            values@[0] == range.min,
            last == values@[values@.len() - 1],
            forall|k: int| 0 < k < values@.len() ==> adds(numbers, values@[k - 1], range.step, #[trigger] values@[k]) && within(numbers, values@[k], range.max, true),
        decreases MAX_COMBINATIONS + 1 - values@.len(),
    {
        let next: V = numbers.add(last, range.step);
        let c = numbers.compare(next, range.max);
        assert(adds(numbers, last, range.step, next));
        assert(compares(numbers, next, range.max, c));
        if !(c.relation.is_le() || c.close) {
            assert(within(numbers, next, range.max, false));
            return values;
        }
        assert(within(numbers, next, range.max, true));
        let ghost earlier = values@;
        values.push(next);
        assert forall|k: int| 0 < k < values@.len() implies adds(numbers, values@[k - 1], range.step, #[trigger] values@[k]) && within(numbers, values@[k], range.max, true) by {
            if k < earlier.len() {
                assert(values@[k] == earlier[k]);
                assert(values@[k - 1] == earlier[k - 1]);
            }
        }
        last = next;
    }
    values
}

/// `positive` is whether `numbers` finds the step of a range above `zero`.
pub open spec fn step_found<V, N: Numbers<V>>(numbers: &N, range: &ParameterRange<V>, zero: V, positive: bool) -> bool {
    exists|sign: Relation| #[trigger] relates(numbers, range.step, zero, sign) && positive == !sign.le()
}

/// `lists` holds the values of the first ranges, each with a step found
/// above `zero`.
pub open spec fn ranges_listed<V, N: Numbers<V>>(numbers: &N, ranges: Seq<ParameterRange<V>>, zero: V, lists: Seq<Vec<V>>) -> bool {
    &&& lists.len() <= ranges.len()
    &&& forall|d: int| 0 <= d < lists.len() ==> #[trigger] listed_at(numbers, ranges, zero, lists, d)
}

/// List `d` holds the values of range `d`, whose step is found above
/// `zero`.
pub open spec fn listed_at<V, N: Numbers<V>>(numbers: &N, ranges: Seq<ParameterRange<V>>, zero: V, lists: Seq<Vec<V>>, d: int) -> bool {
    step_found(numbers, &ranges[d], zero, true) && range_stepped(numbers, &ranges[d], lists[d]@)
}

/// `r` is the grid of the ranges. The ranges are gone through in order: the
/// first whose step `numbers` finds not above zero is refused by name; where
/// there is none, the grid is `grid_of` the value lists of the ranges.
pub open spec fn grid_made<V, N: Numbers<V>>(numbers: &N, ranges: Seq<ParameterRange<V>>, r: Result<Vec<Vec<V>>, AppError>) -> bool {
    exists|zero: V, lists: Seq<Vec<V>>|
        {
            &&& ints(numbers, 0, zero)
            &&& #[trigger] ranges_listed(numbers, ranges, zero, lists)
            &&& (if lists.len() < ranges.len() {
                &&& step_found(numbers, &ranges[lists.len() as int], zero, false)
                &&& r matches Err(AppError::OptimizationError(m))
                &&& m@ == step_message(ranges[lists.len() as int].display_name@)
            } else {
                grid_of(lists, r)
            })
        }
}

/// Lists the values of the ranges in order, up to the first range whose
/// step is not found above `zero`.
fn value_lists<V: Copy, N: Numbers<V>>(numbers: &N, ranges: &Vec<ParameterRange<V>>, zero: V) -> (lists: Vec<Vec<V>>)
    ensures
        ranges_listed(numbers, ranges@, zero, lists@),
        lists@.len() < ranges@.len() ==> step_found(numbers, &ranges@[lists@.len() as int], zero, false),
        forall|d: int| 0 <= d < lists@.len() ==> (#[trigger] lists@[d])@.len() > 0,
{
    let mut lists: Vec<Vec<V>> = Vec::new();
    let mut i: usize = 0;
    while i < ranges.len()
        invariant
            i <= ranges@.len(),
            lists@.len() == i,
            forall|d: int| 0 <= d < lists@.len() ==> (#[trigger] lists@[d])@.len() > 0,
            forall|d: int| 0 <= d < lists@.len() ==> #[trigger] listed_at(numbers, ranges@, zero, lists@, d),
        decreases ranges@.len() - i,
    {
        let range = &ranges[i];
        let sign = relation(numbers, range.step, zero);
        if sign.is_le() {
            assert(step_found(numbers, &ranges@[i as int], zero, false));
            return lists;
        }
        assert(step_found(numbers, &ranges@[i as int], zero, true));
        let values: Vec<V> = range_values(numbers, range);
        let ghost listed = values@;
        let ghost earlier = lists@;
        lists.push(values);
        assert forall|d: int| 0 <= d < lists@.len() implies #[trigger] listed_at(numbers, ranges@, zero, lists@, d) by {
            if d < earlier.len() {
                assert(listed_at(numbers, ranges@, zero, earlier, d));
                assert(lists@[d] == earlier[d]);
            } else {
                assert(lists@[d]@ == listed);
            }
        }
        i += 1;
    }
    lists
}

/// Generates all value combinations of the parameter ranges.
///
/// Fails where there is no range, and for the first range whose step does
/// not compare as greater than zero; else the values of each range are
/// listed by `range_values`, and the grid is their cartesian product, which
/// is refused where it has more than `MAX_COMBINATIONS` combinations.
pub fn generate_grid<V: Copy, N: Numbers<V>>(numbers: &N, ranges: &Vec<ParameterRange<V>>) -> (r: Result<Vec<Vec<V>>, AppError>)
    ensures
        ranges@.len() == 0 ==> (r matches Err(AppError::OptimizationError(m)) && m@ == "No parameter ranges specified"@),
        ranges@.len() > 0 ==> grid_made(numbers, ranges@, r),
        r is Ok ==> {
            &&& ranges@.len() > 0
            &&& 1 <= r->Ok_0@.len() <= MAX_COMBINATIONS
            &&& forall|k: int| 0 <= k < r->Ok_0@.len() ==> (#[trigger] r->Ok_0@[k])@.len() == ranges@.len()
        },
        r is Err ==> {
            ||| (r->Err_0 matches AppError::OptimizationError(m) && (m@ == "No parameter ranges specified"@ || exists|i: int|
                0 <= i < ranges@.len() && m@ == step_message(#[trigger] ranges@[i].display_name@)))
            ||| (r->Err_0 matches AppError::TooManyCombinations { count, limit } && count > MAX_COMBINATIONS && limit == MAX_COMBINATIONS)
        },
{
    if ranges.len() == 0 {
        return Err(AppError::OptimizationError(String::from_str("No parameter ranges specified")));
    }
    let zero: V = numbers.from_int(0);
    assert(ints(numbers, 0, zero));
    let lists = value_lists(numbers, ranges, zero);
    if lists.len() < ranges.len() {
        let at: usize = lists.len();
        let mut message = String::from_str("Step must be positive for parameter '");
        message.append(ranges[at].display_name.as_str());
        message.append("'");
        assert(message@ =~= step_message(ranges@[at as int].display_name@));
        let r = Err(AppError::OptimizationError(message));
        assert(grid_made(numbers, ranges@, r));
        return r;
    }
    let r = grid_from_lists(&lists);
    proof {
        assert(grid_made(numbers, ranges@, r));
        if r is Ok {
            lemma_product_grows(lists@, 0, lists@.len() as int);
            assert forall|k: int| 0 <= k < r->Ok_0@.len() implies (#[trigger] r->Ok_0@[k])@.len() == ranges@.len() by {
                lemma_combo_length(lists@, lists@.len() as int, k);
            }
        }
    }
    r
}

/// A combination of `d` lists has `d` values.
pub proof fn lemma_combo_length<V>(lists: Seq<Vec<V>>, d: int, k: int)
    requires
        0 <= d,
    ensures
        combo_at(lists, d, k).len() == d,
    decreases d,
{
    if d > 0 {
        let n = lists[d - 1]@.len() as int;
        lemma_combo_length(lists, d - 1, k / n);
    }
}

/// `order` ranks the positions of `keys`: it names each position once,
/// higher keys come first, and of equal keys the earlier position comes
/// first.
pub open spec fn is_ranking(keys: Seq<i64>, order: Seq<usize>) -> bool {
    &&& order.len() == keys.len()
    &&& forall|a: int| 0 <= a < order.len() ==> (#[trigger] order[a]) < keys.len()
    &&& forall|a: int, b: int| 0 <= a < b < order.len() ==> #[trigger] order[a] != #[trigger] order[b]
    &&& forall|a: int, b: int| 0 <= a < b < order.len() ==> in_rank_order(keys, #[trigger] order[a], #[trigger] order[b])
}

/// Position `first` ranks before position `second`.
pub open spec fn in_rank_order(keys: Seq<i64>, first: usize, second: usize) -> bool {
    keys[first as int] > keys[second as int] || (keys[first as int] == keys[second as int] && first < second)
}

/// Ranks the positions of `keys` from the highest key down. The sort is
/// stable: positions with equal keys stay in their order.
pub fn rank_order(keys: &Vec<i64>) -> (order: Vec<usize>)
    ensures
        is_ranking(keys@, order@),
{
    let mut order: Vec<usize> = Vec::new();
    let mut i: usize = 0;
    while i < keys.len()
        invariant
            i <= keys@.len(),
            order@.len() == i,
            forall|a: int| 0 <= a < order@.len() ==> (#[trigger] order@[a]) < i,
            forall|a: int, b: int| 0 <= a < b < order@.len() ==> #[trigger] order@[a] != #[trigger] order@[b],
            forall|a: int, b: int| 0 <= a < b < order@.len() ==> in_rank_order(keys@, #[trigger] order@[a], #[trigger] order@[b]),
        decreases keys@.len() - i,
    {
        let key: i64 = keys[i];
        let mut p: usize = 0;
        while p < order.len() && keys[order[p]] >= key
            invariant
                p <= order@.len(),
                order@.len() == i,
                i < keys@.len(),
                key == keys@[i as int],
                forall|a: int| 0 <= a < order@.len() ==> (#[trigger] order@[a]) < i,
                forall|a: int| 0 <= a < p ==> keys@[(#[trigger] order@[a]) as int] >= key,
            decreases order@.len() - p,
        {
            p += 1;
        }
        let ghost before = order@;
        order.insert(p, i);
        proof {
            assert forall|a: int, b: int| 0 <= a < b < order@.len() implies #[trigger] order@[a] != #[trigger] order@[b] && in_rank_order(keys@, order@[a], order@[b]) by {
                if a < p && b == p {
                    assert(order@[a] == before[a]);
                } else if a < p && b > p {
                    assert(order@[a] == before[a] && order@[b] == before[b - 1]);
                } else if a == p {
                    assert(order@[b] == before[b - 1]);
                    if p < before.len() {
                        assert(keys@[before[p as int] as int] < key);
                        if b - 1 > p {
                            assert(in_rank_order(keys@, before[p as int], before[b - 1]));
                        }
                    }
                } else if a > p {
                    assert(order@[a] == before[a - 1] && order@[b] == before[b - 1]);
                } else {
                    assert(order@[a] == before[a] && order@[b] == before[b]);
                }
            }
        }
        i += 1;
    }
    order
}

/// The first `limit` positions of the ranking of `keys`.
pub fn top_ranked(keys: &Vec<i64>, limit: usize) -> (top: Vec<usize>)
    ensures
        exists|order: Seq<usize>| is_ranking(keys@, order) && top@ == order.subrange(0, (if limit < keys@.len() { limit as int } else { keys@.len() as int })),
{
    let mut order = rank_order(keys);
    let ghost full = order@;
    order.truncate(limit);
    assert(order@ =~= full.subrange(0, (if limit < keys@.len() { limit as int } else { keys@.len() as int })));
    order
}

/// `count` as a `usize`, capped at the largest one.
pub open spec fn as_count(count: u64) -> usize {
    if count > usize::MAX {
        usize::MAX
    } else {
        count as usize
    }
}

/// A rounded value as a count of bars.
fn to_count(count: u64) -> (r: usize)
    ensures
        r == as_count(count),
{
    if count > usize::MAX as u64 {
        usize::MAX
    } else {
        count as usize
    }
}

/// `count` as a number of hours or minutes: capped at `cap`.
pub open spec fn as_clock(count: u64, cap: u8) -> u8 {
    if count > cap {
        cap
    } else {
        count as u8
    }
}

/// A rounded value as an hour or a minute, at most `cap`.
fn to_clock(count: u64, cap: u8) -> (r: u8)
    ensures
        r == as_clock(count, cap),
{
    if count > cap as u64 {
        cap
    } else {
        count as u8
    }
}

/// The parameters after setting the one named `name`, or `None` where no
/// parameter of that name can be set. A period takes the rounded value, the
/// other parameters the value as it is.
pub open spec fn params_with<V>(params: IndicatorParams<V>, name: Seq<char>, value: V, count: u64) -> Option<IndicatorParams<V>> {
    if name == "period"@ {
        Some(IndicatorParams { period: Some(as_count(count)), ..params })
    } else if name == "fast_period"@ {
        Some(IndicatorParams { fast_period: Some(as_count(count)), ..params })
    } else if name == "slow_period"@ {
        Some(IndicatorParams { slow_period: Some(as_count(count)), ..params })
    } else if name == "signal_period"@ {
        Some(IndicatorParams { signal_period: Some(as_count(count)), ..params })
    } else if name == "std_dev"@ {
        Some(IndicatorParams { std_dev: Some(value), ..params })
    } else if name == "k_period"@ {
        Some(IndicatorParams { k_period: Some(as_count(count)), ..params })
    } else if name == "d_period"@ {
        Some(IndicatorParams { d_period: Some(as_count(count)), ..params })
    } else if name == "acceleration_factor"@ {
        Some(IndicatorParams { acceleration_factor: Some(value), ..params })
    } else if name == "maximum_factor"@ {
        Some(IndicatorParams { maximum_factor: Some(value), ..params })
    } else {
        None
    }
}

/// Sets the parameter named `name`; says whether there is such a parameter.
pub fn set_param<V: Copy>(params: &mut IndicatorParams<V>, name: &String, value: V, count: u64) -> (set: bool)
    ensures
        match params_with(*old(params), name@, value, count) {
            Some(p) => set && *final(params) == p,
            None => !set && *final(params) == *old(params),
        },
{
    if is_text(name, "period") {
        params.period = Some(to_count(count));
        true
    } else if is_text(name, "fast_period") {
        params.fast_period = Some(to_count(count));
        true
    } else if is_text(name, "slow_period") {
        params.slow_period = Some(to_count(count));
        true
    } else if is_text(name, "signal_period") {
        params.signal_period = Some(to_count(count));
        true
    } else if is_text(name, "std_dev") {
        params.std_dev = Some(value);
        true
    } else if is_text(name, "k_period") {
        params.k_period = Some(to_count(count));
        true
    } else if is_text(name, "d_period") {
        params.d_period = Some(to_count(count));
        true
    } else if is_text(name, "acceleration_factor") {
        params.acceleration_factor = Some(value);
        true
    } else if is_text(name, "maximum_factor") {
        params.maximum_factor = Some(value);
        true
    } else {
        false
    }
}

/// The operand after setting a parameter of its indicator, or `None` where
/// it has no indicator or the indicator no such parameter.
pub open spec fn operand_with<V>(operand: Operand<V>, name: Seq<char>, value: V, count: u64) -> Option<Operand<V>> {
    match operand.indicator {
        None => None,
        Some(config) => match params_with(config.params, name, value, count) {
            None => None,
            Some(p) => Some(Operand { indicator: Some(IndicatorConfig { params: p, ..config }), ..operand }),
        },
    }
}

/// Sets a parameter of an operand's indicator; says whether it was set.
pub fn set_indicator_param<V: Copy>(operand: &mut Operand<V>, name: &String, value: V, count: u64) -> (set: bool)
    ensures
        match operand_with(*old(operand), name@, value, count) {
            Some(o) => set && *final(operand) == o,
            None => !set && *final(operand) == *old(operand),
        },
{
    let taken = operand.indicator.take();
    match taken {
        None => false,
        Some(config) => {
            let mut config = config;
            let set = set_param(&mut config.params, name, value, count);
            operand.indicator = Some(config);
            set
        },
    }
}

/// The rule after setting an indicator parameter on the side that
/// `side` names: `left`, `right`, or, for any other text, the left operand
/// if it takes the parameter and else the right one.
pub open spec fn rule_with<V>(rule: Rule<V>, side: Seq<char>, name: Seq<char>, value: V, count: u64) -> Rule<V> {
    let left = operand_with(rule.left_operand, name, value, count);
    let right = operand_with(rule.right_operand, name, value, count);
    if side == "left"@ {
        match left {
            Some(o) => Rule { left_operand: o, ..rule },
            None => rule,
        }
    } else if side == "right"@ {
        match right {
            Some(o) => Rule { right_operand: o, ..rule },
            None => rule,
        }
    } else {
        match left {
            Some(o) => Rule { left_operand: o, ..rule },
            None => match right {
                Some(o) => Rule { right_operand: o, ..rule },
                None => rule,
            },
        }
    }
}

/// Sets an indicator parameter of a rule.
pub fn set_rule_param<V: Copy>(rule: &mut Rule<V>, side: &String, name: &String, value: V, count: u64)
    ensures
        *final(rule) == rule_with(*old(rule), side@, name@, value, count),
{
    if is_text(side, "left") {
        let _ = set_indicator_param(&mut rule.left_operand, name, value, count);
    } else if is_text(side, "right") {
        let _ = set_indicator_param(&mut rule.right_operand, name, value, count);
    } else {
        let set = set_indicator_param(&mut rule.left_operand, name, value, count);
        if !set {
            let _ = set_indicator_param(&mut rule.right_operand, name, value, count);
        }
    }
}

/// The rule list after setting an indicator parameter of the rule at
/// `index`; a list without such a rule stays as it is.
pub open spec fn rules_with<V>(rules: Seq<Rule<V>>, index: int, side: Seq<char>, name: Seq<char>, value: V, count: u64) -> Seq<Rule<V>> {
    if 0 <= index < rules.len() {
        rules.update(index, rule_with(rules[index], side, name, value, count))
    } else {
        rules
    }
}

/// Sets an indicator parameter of the rule at `index`, if there is one.
pub fn set_group_param<V: Copy>(rules: &mut Vec<Rule<V>>, index: usize, side: &String, name: &String, value: V, count: u64)
    ensures
        final(rules)@ == rules_with(old(rules)@, index as int, side@, name@, value, count),
{
    if index < rules.len() {
        let mut rule = rules.remove(index);
        set_rule_param(&mut rule, side, name, value, count);
        rules.insert(index, rule);
        assert(final(rules)@ =~= rules_with(old(rules)@, index as int, side@, name@, value, count));
    }
}

/// The stop-loss after setting `value` or `atr_period`; any other name, and
/// a strategy without a stop-loss, change nothing.
pub open spec fn stop_loss_with<V>(sl: Option<StopLoss<V>>, name: Seq<char>, value: V, count: u64) -> Option<StopLoss<V>> {
    match sl {
        None => None,
        Some(c) => if name == "value"@ {
            Some(StopLoss { value, ..c })
        } else if name == "atr_period"@ {
            Some(StopLoss { atr_period: Some(as_count(count)), ..c })
        } else {
            Some(c)
        },
    }
}

/// A take-profit with one of its parameters replaced; a name it does not
/// have changes nothing, and a strategy without a take-profit gets none.
pub open spec fn take_profit_with<V>(tp: Option<TakeProfit<V>>, name: Seq<char>, value: V, count: u64) -> Option<TakeProfit<V>> {
    match tp {
        None => None,
        Some(c) => if name == "value"@ {
            Some(TakeProfit { value, ..c })
        } else if name == "atr_period"@ {
            Some(TakeProfit { atr_period: Some(as_count(count)), ..c })
        } else {
            Some(c)
        },
    }
}

/// A trailing stop with one of its parameters replaced; a name it does
/// not have changes nothing, and a strategy without a trailing stop gets
/// none.
pub open spec fn trailing_stop_with<V>(ts: Option<TrailingStop<V>>, name: Seq<char>, value: V, count: u64) -> Option<TrailingStop<V>> {
    match ts {
        None => None,
        Some(c) => if name == "value"@ {
            Some(TrailingStop { value, ..c })
        } else if name == "atr_period"@ {
            Some(TrailingStop { atr_period: Some(as_count(count)), ..c })
        } else {
            Some(c)
        },
    }
}

/// The trading window after setting one of its four fields. A strategy
/// without a window gets the whole day first. Hours are capped at 23,
/// minutes at 59.
pub open spec fn trading_hours_with(th: Option<TradingHours>, name: Seq<char>, count: u64) -> Option<TradingHours> {
    let base = match th {
        Some(t) => t,
        None => TradingHours { start_hour: 0, start_minute: 0, end_hour: 23, end_minute: 59 },
    };
    if name == "start_hour"@ {
        Some(TradingHours { start_hour: as_clock(count, 23), ..base })
    } else if name == "start_minute"@ {
        Some(TradingHours { start_minute: as_clock(count, 59), ..base })
    } else if name == "end_hour"@ {
        Some(TradingHours { end_hour: as_clock(count, 23), ..base })
    } else if name == "end_minute"@ {
        Some(TradingHours { end_minute: as_clock(count, 59), ..base })
    } else {
        Some(base)
    }
}

/// The closing time after setting its hour or minute. A strategy without a
/// closing time gets 16:00 first.
pub open spec fn close_at_with(ct: Option<CloseTradesAt>, name: Seq<char>, count: u64) -> Option<CloseTradesAt> {
    let base = match ct {
        Some(t) => t,
        None => CloseTradesAt { hour: 16, minute: 0 },
    };
    if name == "hour"@ {
        Some(CloseTradesAt { hour: as_clock(count, 23), ..base })
    } else if name == "minute"@ {
        Some(CloseTradesAt { minute: as_clock(count, 59), ..base })
    } else {
        Some(base)
    }
}

/// The kinds of place that a parameter source names.
pub enum Target {
    StopLoss,
    TakeProfit,
    TrailingStop,
    TradingHours,
    CloseTradesAt,
    LongEntry,
    ShortEntry,
    LongExit,
    ShortExit,
    /// Any other source: the long entry rules followed by the long exit
    /// rules, counted through.
    LongRules,
}

/// The place that a parameter source names.
pub open spec fn target_of(source: Seq<char>) -> Target {
    if source == "stop_loss"@ {
        Target::StopLoss
    } else if source == "take_profit"@ {
        Target::TakeProfit
    } else if source == "trailing_stop"@ {
        Target::TrailingStop
    } else if source == "trading_hours"@ {
        Target::TradingHours
    } else if source == "close_trades_at"@ {
        Target::CloseTradesAt
    } else if source == "long_entry"@ {
        Target::LongEntry
    } else if source == "short_entry"@ {
        Target::ShortEntry
    } else if source == "long_exit"@ {
        Target::LongExit
    } else if source == "short_exit"@ {
        Target::ShortExit
    } else {
        Target::LongRules
    }
}

/// Decides the place that a parameter source names.
pub fn select_target(source: &String) -> (t: Target)
    ensures
        t == target_of(source@),
{
    if is_text(source, "stop_loss") {
        Target::StopLoss
    } else if is_text(source, "take_profit") {
        Target::TakeProfit
    } else if is_text(source, "trailing_stop") {
        Target::TrailingStop
    } else if is_text(source, "trading_hours") {
        Target::TradingHours
    } else if is_text(source, "close_trades_at") {
        Target::CloseTradesAt
    } else if is_text(source, "long_entry") {
        Target::LongEntry
    } else if is_text(source, "short_entry") {
        Target::ShortEntry
    } else if is_text(source, "long_exit") {
        Target::LongExit
    } else if is_text(source, "short_exit") {
        Target::ShortExit
    } else {
        Target::LongRules
    }
}

/// The rule index of a range as a position: a negative index names no rule.
pub open spec fn rule_position(rule_index: i32) -> int {
    if rule_index < 0 {
        -1
    } else {
        rule_index as int
    }
}

/// `after` is `before` with one parameter set: the one that `range` names,
/// to `value` or, where the parameter is a whole number, to `count`, the
/// rounded value. Everything that the range does not name stays.
pub open spec fn param_applied<V>(before: Strategy<V>, after: Strategy<V>, range: ParameterRange<V>, value: V, count: u64) -> bool {
    let name = range.param_name@;
    let side = range.operand_side@;
    let at = rule_position(range.rule_index);
    let target = target_of(range.param_source@);
    &&& after.id == before.id
    &&& after.name == before.name
    &&& after.created_at == before.created_at
    &&& after.updated_at == before.updated_at
    &&& after.position_sizing == before.position_sizing
    &&& after.trading_costs == before.trading_costs
    &&& after.trade_direction == before.trade_direction
    &&& after.max_daily_trades == before.max_daily_trades
    &&& after.stop_loss == (if target is StopLoss {
        stop_loss_with(before.stop_loss, name, value, count)
    } else {
        before.stop_loss
    })
    &&& after.take_profit == (if target is TakeProfit {
        take_profit_with(before.take_profit, name, value, count)
    } else {
        before.take_profit
    })
    &&& after.trailing_stop == (if target is TrailingStop {
        trailing_stop_with(before.trailing_stop, name, value, count)
    } else {
        before.trailing_stop
    })
    &&& after.trading_hours == (if target is TradingHours {
        trading_hours_with(before.trading_hours, name, count)
    } else {
        before.trading_hours
    })
    &&& after.close_trades_at == (if target is CloseTradesAt {
        close_at_with(before.close_trades_at, name, count)
    } else {
        before.close_trades_at
    })
    &&& after.long_entry_rules@ == (if target is LongEntry || target is LongRules {
        rules_with(before.long_entry_rules@, at, side, name, value, count)
    } else {
        before.long_entry_rules@
    })
    &&& after.short_entry_rules@ == (if target is ShortEntry {
        rules_with(before.short_entry_rules@, at, side, name, value, count)
    } else {
        before.short_entry_rules@
    })
    &&& after.long_exit_rules@ == (if target is LongExit {
        rules_with(before.long_exit_rules@, at, side, name, value, count)
    } else if target is LongRules && at >= before.long_entry_rules@.len() {
        rules_with(before.long_exit_rules@, at - before.long_entry_rules@.len(), side, name, value, count)
    } else {
        before.long_exit_rules@
    })
    &&& after.short_exit_rules@ == (if target is ShortExit {
        rules_with(before.short_exit_rules@, at, side, name, value, count)
    } else {
        before.short_exit_rules@
    })
}

/// Sets the parameter that `range` names on `strategy`.
pub fn apply_param<V: Copy>(strategy: &mut Strategy<V>, range: &ParameterRange<V>, value: V, count: u64)
    ensures
        param_applied(*old(strategy), *final(strategy), *range, value, count),
{
    let name = &range.param_name;
    match select_target(&range.param_source) {
        Target::StopLoss => {
            if let Some(sl) = strategy.stop_loss {
                let mut sl = sl;
                if is_text(name, "value") {
                    sl.value = value;
                } else if is_text(name, "atr_period") {
                    sl.atr_period = Some(to_count(count));
                }
                strategy.stop_loss = Some(sl);
            }
        },
        Target::TakeProfit => {
            if let Some(tp) = strategy.take_profit {
                let mut tp = tp;
                if is_text(name, "value") {
                    tp.value = value;
                } else if is_text(name, "atr_period") {
                    tp.atr_period = Some(to_count(count));
                }
                strategy.take_profit = Some(tp);
            }
        },
        Target::TrailingStop => {
            if let Some(ts) = strategy.trailing_stop {
                let mut ts = ts;
                if is_text(name, "value") {
                    ts.value = value;
                } else if is_text(name, "atr_period") {
                    ts.atr_period = Some(to_count(count));
                }
                strategy.trailing_stop = Some(ts);
            }
        },
        Target::TradingHours => {
            let mut th: TradingHours = match strategy.trading_hours {
                Some(t) => t,
                None => TradingHours { start_hour: 0, start_minute: 0, end_hour: 23, end_minute: 59 },
            };
            if is_text(name, "start_hour") {
                th.start_hour = to_clock(count, 23);
            } else if is_text(name, "start_minute") {
                th.start_minute = to_clock(count, 59);
            } else if is_text(name, "end_hour") {
                th.end_hour = to_clock(count, 23);
            } else if is_text(name, "end_minute") {
                th.end_minute = to_clock(count, 59);
            }
            strategy.trading_hours = Some(th);
        },
        Target::CloseTradesAt => {
            let mut ct: CloseTradesAt = match strategy.close_trades_at {
                Some(t) => t,
                None => CloseTradesAt { hour: 16, minute: 0 },
            };
            if is_text(name, "hour") {
                ct.hour = to_clock(count, 23);
            } else if is_text(name, "minute") {
                ct.minute = to_clock(count, 59);
            }
            strategy.close_trades_at = Some(ct);
        },
        Target::LongEntry => {
            if range.rule_index >= 0 {
                set_group_param(&mut strategy.long_entry_rules, range.rule_index as usize, &range.operand_side, name, value, count);
            }
        },
        Target::ShortEntry => {
            if range.rule_index >= 0 {
                set_group_param(&mut strategy.short_entry_rules, range.rule_index as usize, &range.operand_side, name, value, count);
            }
        },
        Target::LongExit => {
            if range.rule_index >= 0 {
                set_group_param(&mut strategy.long_exit_rules, range.rule_index as usize, &range.operand_side, name, value, count);
            }
        },
        Target::ShortExit => {
            if range.rule_index >= 0 {
                set_group_param(&mut strategy.short_exit_rules, range.rule_index as usize, &range.operand_side, name, value, count);
            }
        },
        Target::LongRules => {
            if range.rule_index >= 0 {
                let index: usize = range.rule_index as usize;
                let entries: usize = strategy.long_entry_rules.len();
                if index < entries {
                    set_group_param(&mut strategy.long_entry_rules, index, &range.operand_side, name, value, count);
                } else {
                    set_group_param(&mut strategy.long_exit_rules, index - entries, &range.operand_side, name, value, count);
                }
            }
        },
    }
}

/// `after` is `before` with the first `n` ranges applied in order, range
/// `i` with value `values[i]` and rounded value `counts[i]`.
pub open spec fn params_applied<V>(before: Strategy<V>, ranges: Seq<ParameterRange<V>>, values: Seq<V>, counts: Seq<u64>, n: int, after: Strategy<V>) -> bool
    decreases n,
{
    if n <= 0 {
        after == before
    } else {
        exists|mid: Strategy<V>| params_applied(before, ranges, values, counts, n - 1, mid) && #[trigger] param_applied(mid, after, ranges[n - 1], values[n - 1], counts[n - 1])
    }
}

/// The smaller of two lengths.
pub open spec fn shorter(a: int, b: int) -> int {
    if a < b {
        a
    } else {
        b
    }
}

/// Applies a parameter vector to a strategy: value `i` goes to the place
/// that range `i` names. Where a parameter is a whole number it takes the
/// rounded value. Values without a range and ranges without a value are
/// left out.
///
/// Whatever the rounding yields, the result is `params_applied` for some
/// rounded value per range.
pub fn apply_params<V: Copy, N: Numbers<V>>(numbers: &N, strategy: Strategy<V>, ranges: &Vec<ParameterRange<V>>, values: &Vec<V>) -> (patched: Strategy<V>)
    ensures
        patched_by(numbers, strategy, ranges@, values@, patched),
        exists|counts: Seq<u64>| #[trigger] params_applied(strategy, ranges@, values@, counts, shorter(ranges@.len() as int, values@.len() as int), patched),
{
    let mut s = strategy;
    let n: usize = if ranges.len() < values.len() {
        ranges.len()
    } else {
        values.len()
    };
    let ghost mut counts: Seq<u64> = Seq::empty();
    let mut i: usize = 0;
    while i < n
        invariant
            i <= n,
            n <= ranges@.len(),
            n <= values@.len(),
            counts.len() == i,
            params_applied(strategy, ranges@, values@, counts, i as int, s),
            forall|k: int| 0 <= k < i ==> #[trigger] rounded_at(numbers, values@, counts, k),
        decreases n - i,
    {
        let count: u64 = numbers.rounded(values[i]);
        assert(roundings(numbers, values@[i as int], count));
        let ghost shortlist = counts;
        let ghost mid = s;
        apply_param(&mut s, &ranges[i], values[i], count);
        proof {
            let longer = counts.push(count);
            lemma_counts_prefix(strategy, ranges@, values@, counts, longer, i as int, mid);
            assert(longer[i as int] == count);
            assert(params_applied(strategy, ranges@, values@, longer, i + 1 - 1, mid));
            assert(param_applied(mid, s, ranges@[i + 1 - 1], values@[i + 1 - 1], longer[i + 1 - 1]));
            assert(params_applied(strategy, ranges@, values@, longer, i + 1, s));
            counts = longer;
            assert forall|k: int| 0 <= k < i + 1 implies #[trigger] rounded_at(numbers, values@, counts, k) by {
                if k < i {
                    assert(rounded_at(numbers, values@, shortlist, k));
                }
            }
        }
        i += 1;
    }
    assert(n == shorter(ranges@.len() as int, values@.len() as int));
    assert(params_applied(strategy, ranges@, values@, counts, shorter(ranges@.len() as int, values@.len() as int), s));
    assert(counts_rounded(numbers, values@, counts, shorter(ranges@.len() as int, values@.len() as int)));
    s
}

/// Count `k` is what `numbers` rounds value `k` to.
pub open spec fn rounded_at<V, N: Numbers<V>>(numbers: &N, values: Seq<V>, counts: Seq<u64>, k: int) -> bool {
    roundings(numbers, values[k], counts[k])
}

/// `counts` are the first `n` values, each rounded by `numbers`.
pub open spec fn counts_rounded<V, N: Numbers<V>>(numbers: &N, values: Seq<V>, counts: Seq<u64>, n: int) -> bool {
    counts.len() == n && forall|k: int| 0 <= k < n ==> #[trigger] rounded_at(numbers, values, counts, k)
}

/// `patched` is the strategy with the values applied, one per range: each
/// to the parameter that its range names, whole-number parameters taking
/// what `numbers` rounds the value to.
pub open spec fn patched_by<V, N: Numbers<V>>(numbers: &N, strategy: Strategy<V>, ranges: Seq<ParameterRange<V>>, values: Seq<V>, patched: Strategy<V>) -> bool {
    exists|counts: Seq<u64>| #[trigger] params_applied(strategy, ranges, values, counts, shorter(ranges.len() as int, values.len() as int), patched) && counts_rounded(numbers, values, counts, shorter(ranges.len() as int, values.len() as int))
}

/// What was applied with some rounded values was applied with any longer
/// list of them.
proof fn lemma_counts_prefix<V>(before: Strategy<V>, ranges: Seq<ParameterRange<V>>, values: Seq<V>, counts: Seq<u64>, longer: Seq<u64>, n: int, after: Strategy<V>)
    requires
        0 <= n <= counts.len() <= longer.len(),
        forall|i: int| 0 <= i < counts.len() ==> counts[i] == longer[i],
        params_applied(before, ranges, values, counts, n, after),
    ensures
        params_applied(before, ranges, values, longer, n, after),
    decreases n,
{
    if n > 0 {
        let mid = choose|mid: Strategy<V>| params_applied(before, ranges, values, counts, n - 1, mid) && #[trigger] param_applied(mid, after, ranges[n - 1], values[n - 1], counts[n - 1]);
        lemma_counts_prefix(before, ranges, values, counts, longer, n - 1, mid);
    }
}

/// The value of an objective on the metrics of a run, where the objective
/// reads one of the metrics as it stands. The two objectives that minimise
/// read a metric with its sign turned, so that a higher value is better for
/// every objective.
pub open spec fn objective_reads<V>(metrics: &BacktestMetrics<V>, objective: ObjectiveFunction) -> Option<V> {
    match objective {
        ObjectiveFunction::TotalProfit => Some(metrics.net_profit),
        ObjectiveFunction::SharpeRatio => Some(metrics.sharpe_ratio),
        ObjectiveFunction::ProfitFactor => Some(metrics.profit_factor),
        ObjectiveFunction::WinRate => Some(metrics.win_rate_pct),
        ObjectiveFunction::ReturnDdRatio => Some(metrics.return_dd_ratio),
        ObjectiveFunction::MinStagnation | ObjectiveFunction::MinUlcerIndex => None,
    }
}

/// `n` with its sign turned, as a signed number; a count too large for one
/// gives the smallest.
fn negated(n: usize) -> (r: i64)
    ensures
        r == (if n > i64::MAX { i64::MIN as int } else { -(n as int) }),
{
    let wide: u64 = n as u64;
    if wide > 9_223_372_036_854_775_807u64 {
        i64::MIN
    } else {
        -(wide as i64)
    }
}

/// A count with its sign turned, as a signed number; a count too large
/// for one gives the smallest.
pub open spec fn negation(n: usize) -> i64 {
    if n > i64::MAX {
        i64::MIN
    } else {
        (-(n as int)) as i64
    }
}

/// `value` is the value of an objective that minimises: the stagnation in
/// bars or the ulcer index, with its sign turned.
pub open spec fn minimised<V, N: Numbers<V>>(numbers: &N, stagnation_bars: usize, ulcer_index_pct: V, objective: ObjectiveFunction, value: V) -> bool {
    match objective {
        ObjectiveFunction::MinStagnation => ints(numbers, negation(stagnation_bars), value),
        ObjectiveFunction::MinUlcerIndex => turned_sign(numbers, ulcer_index_pct, value),
        _ => true,
    }
}

/// Extracts the value of an objective from the metrics of a run.
pub fn extract_objective<V: Copy, N: Numbers<V>>(numbers: &N, metrics: &BacktestMetrics<V>, objective: ObjectiveFunction) -> (value: V)
    ensures
        objective_reads(metrics, objective) is Some ==> value == objective_reads(metrics, objective)->Some_0,
        minimised(numbers, metrics.stagnation_bars, metrics.ulcer_index_pct, objective, value),
{
    match objective {
        ObjectiveFunction::TotalProfit => metrics.net_profit,
        ObjectiveFunction::SharpeRatio => metrics.sharpe_ratio,
        ObjectiveFunction::ProfitFactor => metrics.profit_factor,
        ObjectiveFunction::WinRate => metrics.win_rate_pct,
        ObjectiveFunction::ReturnDdRatio => metrics.return_dd_ratio,
        ObjectiveFunction::MinStagnation => numbers.from_int(negated(metrics.stagnation_bars)),
        ObjectiveFunction::MinUlcerIndex => {
            let zero: V = numbers.from_int(0);
            assert(ints(numbers, 0, zero));
            numbers.sub(zero, metrics.ulcer_index_pct)
        },
    }
}

/// The names and values of a parameter vector: one entry per range that has
/// a value, under the range's display name.
pub open spec fn named_values<V>(ranges: Seq<ParameterRange<V>>, values: Seq<V>, params: Seq<ParamValue<V>>) -> bool {
    &&& params.len() == shorter(ranges.len() as int, values.len() as int)
    &&& forall|i: int| 0 <= i < params.len() ==> (#[trigger] params[i]).name == ranges[i].display_name && params[i].value == values[i]
}

/// Pairs each value with the display name of its range.
fn name_values<V: Copy>(ranges: &Vec<ParameterRange<V>>, values: &Vec<V>) -> (params: Vec<ParamValue<V>>)
    ensures
        named_values(ranges@, values@, params@),
{
    let n: usize = if ranges.len() < values.len() {
        ranges.len()
    } else {
        values.len()
    };
    let mut params: Vec<ParamValue<V>> = Vec::new();
    let mut i: usize = 0;
    while i < n
        invariant
            i <= n,
            n == shorter(ranges@.len() as int, values@.len() as int),
            params@.len() == i,
            forall|k: int| 0 <= k < i ==> (#[trigger] params@[k]).name == ranges@[k].display_name && params@[k].value == values@[k],
        decreases n - i,
    {
        params.push(ParamValue { name: ranges[i].display_name.clone(), value: values[i] });
        i += 1;
    }
    params
}

/// The objective by which results are scored first: the first of the
/// objectives, or the Sharpe ratio where there is none.
pub open spec fn primary_of(objectives: Seq<ObjectiveFunction>) -> ObjectiveFunction {
    if objectives.len() > 0 {
        objectives[0]
    } else {
        ObjectiveFunction::SharpeRatio
    }
}

/// `r` is the result of a parameter vector, built from the metrics of its
/// run: it names the values, carries the headline metrics, has the value of
/// the primary objective as its objective value, a composite score of zero
/// and no out-of-sample results.
pub open spec fn result_built<V, N: Numbers<V>>(numbers: &N, ranges: Seq<ParameterRange<V>>, values: Seq<V>, metrics: &BacktestMetrics<V>, objectives: Seq<ObjectiveFunction>, r: OptimizationResult<V>) -> bool {
    &&& named_values(ranges, values, r.params@)
    &&& r.total_return_pct == metrics.total_return_pct
    &&& r.sharpe_ratio == metrics.sharpe_ratio
    &&& r.max_drawdown_pct == metrics.max_drawdown_pct
    &&& r.total_trades == metrics.total_trades
    &&& r.profit_factor == metrics.profit_factor
    &&& r.win_rate_pct == metrics.win_rate_pct
    &&& r.return_dd_ratio == metrics.return_dd_ratio
    &&& r.stagnation_bars == metrics.stagnation_bars
    &&& r.ulcer_index_pct == metrics.ulcer_index_pct
    &&& r.oos_results@.len() == 0
    &&& ints(numbers, 0, r.composite_score)
    &&& (objective_reads(metrics, primary_of(objectives)) is Some ==> r.objective_value == objective_reads(metrics, primary_of(objectives))->Some_0)
    &&& minimised(numbers, metrics.stagnation_bars, metrics.ulcer_index_pct, primary_of(objectives), r.objective_value)
}

/// `r` is the placeholder for a parameter vector whose run failed: it
/// names the values, its two scores are the value below all others, and
/// its metrics are zero.
pub open spec fn placeholder_built<V, N: Numbers<V>>(numbers: &N, ranges: Seq<ParameterRange<V>>, values: Seq<V>, r: OptimizationResult<V>) -> bool {
    &&& named_values(ranges, values, r.params@)
    &&& lowests(numbers, r.objective_value)
    &&& r.composite_score == r.objective_value
    &&& ints(numbers, 0, r.total_return_pct)
    &&& r.sharpe_ratio == r.total_return_pct
    &&& r.max_drawdown_pct == r.total_return_pct
    &&& r.profit_factor == r.total_return_pct
    &&& r.win_rate_pct == r.total_return_pct
    &&& r.return_dd_ratio == r.total_return_pct
    &&& r.ulcer_index_pct == r.total_return_pct
    &&& r.total_trades == 0
    &&& r.stagnation_bars == 0
    &&& r.oos_results@.len() == 0
}

/// Builds the result of one evaluated parameter vector from the metrics of
/// its run. The first objective is the primary one; without objectives the
/// Sharpe ratio is. The composite score is set once all results are in and
/// starts at zero.
pub fn build_result<V: Copy, N: Numbers<V>>(
    numbers: &N,
    ranges: &Vec<ParameterRange<V>>,
    values: &Vec<V>,
    metrics: &BacktestMetrics<V>,
    objectives: &Vec<ObjectiveFunction>,
) -> (r: OptimizationResult<V>)
    ensures
        result_built(numbers, ranges@, values@, metrics, objectives@, r),
        named_values(ranges@, values@, r.params@),
        r.total_return_pct == metrics.total_return_pct,
        r.sharpe_ratio == metrics.sharpe_ratio,
        r.max_drawdown_pct == metrics.max_drawdown_pct,
        r.total_trades == metrics.total_trades,
        r.profit_factor == metrics.profit_factor,
        r.win_rate_pct == metrics.win_rate_pct,
        r.return_dd_ratio == metrics.return_dd_ratio,
        r.stagnation_bars == metrics.stagnation_bars,
        r.ulcer_index_pct == metrics.ulcer_index_pct,
        r.oos_results@.len() == 0,
        ({
            let primary = if objectives@.len() > 0 {
                objectives@[0]
            } else {
                ObjectiveFunction::SharpeRatio
            };
            objective_reads(metrics, primary) is Some ==> r.objective_value == objective_reads(metrics, primary)->Some_0
        }),
{
    let primary: ObjectiveFunction = if objectives.len() > 0 {
        objectives[0]
    } else {
        ObjectiveFunction::SharpeRatio
    };
    let zero: V = numbers.from_int(0);
    assert(ints(numbers, 0, zero));
    OptimizationResult {
        params: name_values(ranges, values),
        objective_value: extract_objective(numbers, metrics, primary),
        composite_score: zero,
        total_return_pct: metrics.total_return_pct,
        sharpe_ratio: metrics.sharpe_ratio,
        max_drawdown_pct: metrics.max_drawdown_pct,
        total_trades: metrics.total_trades,
        profit_factor: metrics.profit_factor,
        win_rate_pct: metrics.win_rate_pct,
        return_dd_ratio: metrics.return_dd_ratio,
        stagnation_bars: metrics.stagnation_bars,
        ulcer_index_pct: metrics.ulcer_index_pct,
        oos_results: Vec::new(),
    }
}

/// Builds the placeholder for a parameter vector whose run failed: its two
/// scores are `worst`, its metrics `zero`.
pub fn build_failed_result<V: Copy>(ranges: &Vec<ParameterRange<V>>, values: &Vec<V>, worst: V, zero: V) -> (r: OptimizationResult<V>)
    ensures
        named_values(ranges@, values@, r.params@),
        r.objective_value == worst,
        r.composite_score == worst,
        r.total_return_pct == zero,
        r.sharpe_ratio == zero,
        r.max_drawdown_pct == zero,
        r.total_trades == 0,
        r.profit_factor == zero,
        r.win_rate_pct == zero,
        r.return_dd_ratio == zero,
        r.stagnation_bars == 0,
        r.ulcer_index_pct == zero,
        r.oos_results@.len() == 0,
{
    OptimizationResult {
        params: name_values(ranges, values),
        objective_value: worst,
        composite_score: worst,
        total_return_pct: zero,
        sharpe_ratio: zero,
        max_drawdown_pct: zero,
        total_trades: 0,
        profit_factor: zero,
        win_rate_pct: zero,
        return_dd_ratio: zero,
        stagnation_bars: 0,
        ulcer_index_pct: zero,
        oos_results: Vec::new(),
    }
}

/// Positions that are all within `len` and pairwise different.
pub open spec fn distinct_positions(order: Seq<usize>, len: int) -> bool {
    &&& forall|a: int| 0 <= a < order.len() ==> (#[trigger] order[a]) < len
    &&& forall|a: int, b: int| 0 <= a < b < order.len() ==> #[trigger] order[a] != #[trigger] order[b]
}

/// Takes the entry at `i` out of its slot.
fn take_at<T>(slots: &mut Vec<Option<T>>, i: usize) -> (r: Option<T>)
    requires
        i < old(slots)@.len(),
    ensures
        r == old(slots)@[i as int],
        final(slots)@ == old(slots)@.update(i as int, None),
{
    let slot: &mut Option<T> = &mut slots[i];
    slot.take()
}

/// Picks the items at the positions `order`, in that order.
pub fn arrange<T>(items: Vec<T>, order: &Vec<usize>) -> (out: Vec<T>)
    requires
        distinct_positions(order@, items@.len() as int),
    ensures
        out@.len() == order@.len(),
        forall|k: int| 0 <= k < out@.len() ==> #[trigger] out@[k] == items@[order@[k] as int],
{
    let ghost initial = items@;
    let n: usize = items.len();
    let mut items = items;
    let mut slots: Vec<Option<T>> = Vec::new();
    while items.len() > 0
        invariant
            items@.len() + slots@.len() == n,
            n == initial.len(),
            items@ == initial.subrange(0, items@.len() as int),
            forall|p: int| 0 <= p < slots@.len() ==> #[trigger] slots@[p] == Some(initial[n - 1 - p]),
        decreases items@.len(),
    {
        let ghost before = items@;
        let item = items.pop();
        match item {
            Some(x) => {
                slots.push(Some(x));
            },
            None => {},
        }
        assert(items@ =~= initial.subrange(0, items@.len() as int));
    }
    let mut out: Vec<T> = Vec::new();
    let mut k: usize = 0;
    while k < order.len()
        invariant
            k <= order@.len(),
            slots@.len() == n,
            n == initial.len(),
            distinct_positions(order@, n as int),
            out@.len() == k,
            forall|j: int| 0 <= j < k ==> #[trigger] out@[j] == initial[order@[j] as int],
            forall|p: int| 0 <= p < n ==> #[trigger] slots@[p] == Some(initial[n - 1 - p]) || exists|j: int| 0 <= j < k && order@[j] == n - 1 - p,
        decreases order@.len() - k,
    {
        let at: usize = order[k];
        let p: usize = n - 1 - at;
        proof {
            if !(slots@[p as int] == Some(initial[n - 1 - p])) {
                let j = choose|j: int| 0 <= j < k && order@[j] == n - 1 - p;
                assert(order@[j] != order@[k as int]);
            }
        }
        let ghost slots_before = slots@;
        let taken = take_at(&mut slots, p);
        match taken {
            Some(x) => {
                out.push(x);
            },
            None => {},
        }
        proof {
            assert forall|q: int| 0 <= q < n implies #[trigger] slots@[q] == Some(initial[n - 1 - q]) || exists|j: int| 0 <= j < k + 1 && order@[j] == n - 1 - q by {
                if q == p {
                    assert(order@[k as int] == n - 1 - q);
                } else {
                    if !(slots_before[q] == Some(initial[n - 1 - q])) {
                        let j = choose|j: int| 0 <= j < k && order@[j] == n - 1 - q;
                        assert(0 <= j < k + 1 && order@[j] == n - 1 - q);
                    }
                }
            }
        }
        k += 1;
    }
    out
}

/// The score by which a result is ranked: the composite score where there
/// are several objectives, else the objective value.
pub open spec fn ranked_score<V>(r: OptimizationResult<V>, composite: bool) -> V {
    if composite {
        r.composite_score
    } else {
        r.objective_value
    }
}

/// Key `i` is the whole number by which `numbers` orders the score of
/// result `i`.
pub open spec fn key_at<V, N: Numbers<V>>(numbers: &N, results: Seq<OptimizationResult<V>>, composite: bool, keys: Seq<i64>, i: int) -> bool {
    orders_as(numbers, ranked_score(results[i], composite), keys[i])
}

/// `keys` are the keys of the results, one for each, by their scores.
pub open spec fn keys_of_scores<V, N: Numbers<V>>(numbers: &N, results: Seq<OptimizationResult<V>>, composite: bool, keys: Seq<i64>) -> bool {
    keys.len() == results.len() && forall|i: int| 0 <= i < keys.len() ==> #[trigger] key_at(numbers, results, composite, keys, i)
}

/// The key of each result in the ranking: that of its composite score or
/// of its objective value.
fn ranking_keys<V: Copy, N: Numbers<V>>(numbers: &N, results: &Vec<OptimizationResult<V>>, composite: bool) -> (keys: Vec<i64>)
    ensures
        keys_of_scores(numbers, results@, composite, keys@),
        keys@.len() == results@.len(),
{
    let mut keys: Vec<i64> = Vec::new();
    let mut i: usize = 0;
    while i < results.len()
        invariant
            i <= results@.len(),
            keys@.len() == i,
            forall|k: int| 0 <= k < i ==> #[trigger] key_at(numbers, results@, composite, keys@, k),
        decreases results@.len() - i,
    {
        let score: V = if composite {
            results[i].composite_score
        } else {
            results[i].objective_value
        };
        let ghost earlier = keys@;
        let key: i64 = numbers.order_key(score);
        assert(orders_as(numbers, ranked_score(results@[i as int], composite), key));
        keys.push(key);
        assert forall|k: int| 0 <= k < i + 1 implies #[trigger] key_at(numbers, results@, composite, keys@, k) by {
            if k < i {
                assert(key_at(numbers, results@, composite, earlier, k));
            }
        }
        i += 1;
    }
    keys
}

/// `out` holds the results that rank first by their scores, at most `limit`
/// of them, best first and ties in their first order: the keys by which they
/// are ranked are those by which `numbers` orders their scores.
pub open spec fn is_top_ranked<V, N: Numbers<V>>(numbers: &N, results: Seq<OptimizationResult<V>>, composite: bool, limit: int, out: Seq<OptimizationResult<V>>) -> bool {
    exists|keys: Seq<i64>, order: Seq<usize>|
        {
            &&& #[trigger] is_ranking(keys, order)
            &&& keys_of_scores(numbers, results, composite, keys)
            &&& out.len() == shorter(limit, results.len() as int)
            &&& forall|k: int| 0 <= k < out.len() ==> #[trigger] out[k] == results[order[k] as int]
        }
}

/// `out` holds the items that rank first among `items` by some keys, at
/// most `limit` of them, best first and ties in their first order.
pub open spec fn is_top_of<T>(items: Seq<T>, limit: int, out: Seq<T>) -> bool {
    exists|keys: Seq<i64>, order: Seq<usize>|
        {
            &&& #[trigger] is_ranking(keys, order)
            &&& keys.len() == items.len()
            &&& out.len() == shorter(limit, items.len() as int)
            &&& forall|k: int| 0 <= k < out.len() ==> #[trigger] out[k] == items[order[k] as int]
        }
}

/// Sorts results from the best down and keeps the first `MAX_RESULTS`. With
/// several objectives the composite score decides, else the objective
/// value. The sort is stable.
///
/// Whatever keys `numbers` gives to the scores, the outcome is the top of
/// the ranking by those keys.
pub fn rank_results<V: Copy, N: Numbers<V>>(numbers: &N, results: Vec<OptimizationResult<V>>, objectives: usize) -> (top: Vec<OptimizationResult<V>>)
    ensures
        is_top_ranked(numbers, results@, objectives > 1, MAX_RESULTS as int, top@),
        is_top_of(results@, MAX_RESULTS as int, top@),
        top@.len() <= MAX_RESULTS,
{
    let keys = ranking_keys(numbers, &results, objectives > 1);
    let mut order = rank_order(&keys);
    let ghost full = order@;
    order.truncate(MAX_RESULTS);
    assert(order@ =~= full.subrange(0, shorter(MAX_RESULTS as int, results@.len() as int)));
    let top = arrange(results, &order);
    proof {
        assert(is_ranking(keys@, full));
        assert forall|k: int| 0 <= k < top@.len() implies #[trigger] top@[k] == results@[full[k] as int] by {
            assert(order@[k] == full[k]);
        }
    }
    top
}

/// The winner of a tournament among the three positions `a`, `b`, `c`:
/// the first of them, unless a later one has a strictly higher fitness than
/// the best before it.
pub open spec fn tournament_of(fitness: Seq<i64>, a: int, b: int, c: int) -> int {
    let first = if fitness[b] > fitness[a] {
        b
    } else {
        a
    };
    if fitness[c] > fitness[first] {
        c
    } else {
        first
    }
}

/// Decides a tournament among three positions.
pub fn tournament_pick(fitness: &Vec<i64>, a: usize, b: usize, c: usize) -> (winner: usize)
    requires
        a < fitness@.len(),
        b < fitness@.len(),
        c < fitness@.len(),
    ensures
        winner == tournament_of(fitness@, a as int, b as int, c as int),
        winner < fitness@.len(),
{
    let mut best: usize = a;
    if fitness[b] > fitness[best] {
        best = b;
    }
    if fitness[c] > fitness[best] {
        best = c;
    }
    best
}

/// The seedable generator of the `rand` crate. A search that is given a
/// generator with a fixed seed makes the same draws again.
#[verifier::external_type_specification]
#[verifier::external_body]
pub struct ExStdRng(rand::rngs::StdRng);

/// A position drawn uniformly from `low..high`.
///
/// Calls `rand::Rng::gen_range` on the half-open range, which panics on an
/// empty range and else returns a value within it. Which value comes is
/// left open.
#[verifier::external_body]
fn random_between(rng: &mut StdRng, low: usize, high: usize) -> (r: usize)
    requires
        low < high,
    ensures
        low <= r < high,
{
    rng.gen_range(low..high)
}

/// Tournament selection: draws three positions and returns the winner.
pub fn tournament_select(fitness: &Vec<i64>, rng: &mut StdRng) -> (winner: usize)
    requires
        fitness@.len() > 0,
    ensures
        winner < fitness@.len(),
        exists|a: int, b: int, c: int|
            0 <= a < fitness@.len() && 0 <= b < fitness@.len() && 0 <= c < fitness@.len() && winner == #[trigger] tournament_of(fitness@, a, b, c),
{
    let n: usize = fitness.len();
    let a: usize = random_between(rng, 0, n);
    let b: usize = random_between(rng, 0, n);
    let c: usize = random_between(rng, 0, n);
    let winner = tournament_pick(fitness, a, b, c);
    assert(winner == tournament_of(fitness@, a as int, b as int, c as int));
    winner
}

/// The two children of a single-point crossover at `point`: each takes the
/// genes before the point from one parent and the rest from the other.
pub open spec fn crossover_of<V>(parent1: Seq<V>, parent2: Seq<V>, point: int) -> (Seq<V>, Seq<V>) {
    (
        parent1.subrange(0, point) + parent2.subrange(point, parent2.len() as int),
        parent2.subrange(0, point) + parent1.subrange(point, parent1.len() as int),
    )
}

/// The genes of `head` before `point` followed by those of `tail` from
/// `point` on.
fn splice<V: Copy>(head: &Vec<V>, tail: &Vec<V>, point: usize) -> (child: Vec<V>)
    requires
        point <= head@.len(),
        point <= tail@.len(),
    ensures
        child@ == head@.subrange(0, point as int) + tail@.subrange(point as int, tail@.len() as int),
{
    let mut child: Vec<V> = Vec::new();
    let mut i: usize = 0;
    while i < point
        invariant
            i <= point <= head@.len(),
            child@ == head@.subrange(0, i as int),
        decreases point - i,
    {
        child.push(head[i]);
        assert(child@ =~= head@.subrange(0, i + 1));
        i += 1;
    }
    let mut j: usize = point;
    while j < tail.len()
        invariant
            point <= j <= tail@.len(),
            child@ == head@.subrange(0, point as int) + tail@.subrange(point as int, j as int),
        decreases tail@.len() - j,
    {
        child.push(tail[j]);
        assert(child@ =~= head@.subrange(0, point as int) + tail@.subrange(point as int, j + 1));
        j += 1;
    }
    child
}

/// Crosses two parents over at `point`.
pub fn crossover_at<V: Copy>(parent1: &Vec<V>, parent2: &Vec<V>, point: usize) -> (children: (Vec<V>, Vec<V>))
    requires
        point <= parent1@.len(),
        point <= parent2@.len(),
    ensures
        (children.0@, children.1@) == crossover_of(parent1@, parent2@, point as int),
{
    (splice(parent1, parent2, point), splice(parent2, parent1, point))
}

/// Single-point crossover at a point drawn from the inner points of the
/// first parent.
pub fn crossover<V: Copy>(parent1: &Vec<V>, parent2: &Vec<V>, rng: &mut StdRng) -> (children: (Vec<V>, Vec<V>))
    requires
        parent1@.len() >= 2,
        parent2@.len() + 1 >= parent1@.len(),
    ensures
        exists|point: int| 1 <= point < parent1@.len() && (children.0@, children.1@) == #[trigger] crossover_of(parent1@, parent2@, point),
{
    let point: usize = random_between(rng, 1, parent1.len());
    let children = crossover_at(parent1, parent2, point);
    assert((children.0@, children.1@) == crossover_of(parent1@, parent2@, point as int));
    children
}

/// The draws of a search that are made on values: a number from zero to
/// one, against which a rate is held, and a fresh value for a gene.
pub trait Chance<V> {
    /// Draws a number uniformly from zero to one.
    fn unit(&self, rng: &mut StdRng) -> V;


    /// Draws a value uniformly from `min` to `max`, both included.
    fn uniform(&self, rng: &mut StdRng, min: V, max: V) -> V;
}

/// A count of steps as a whole number that fits the signed range.
pub open spec fn signed(steps: u64) -> i64 {
    if steps > i64::MAX {
        i64::MAX
    } else {
        steps as i64
    }
}

/// `out` is `raw` kept within `min` and `max`: the smaller of `max` and the
/// larger of `raw` and `min`.
pub open spec fn kept_within<V, N: Numbers<V>>(numbers: &N, raw: V, min: V, max: V, out: V) -> bool {
    exists|floor: V| #[trigger] maxes(numbers, raw, min, floor) && mins(numbers, floor, max, out)
}

/// `out` is the minimum of the range plus `steps` steps.
pub open spec fn steps_from_min<V, N: Numbers<V>>(numbers: &N, steps: u64, range: &ParameterRange<V>, out: V) -> bool {
    exists|n: V| #[trigger] ints(numbers, signed(steps), n) && exists|span: V| #[trigger] muls(numbers, n, range.step, span) && adds(numbers, range.min, span, out)
}

/// `out` is the number of steps of the range that `value` lies above its
/// minimum, rounded.
pub open spec fn steps_to<V, N: Numbers<V>>(numbers: &N, value: V, range: &ParameterRange<V>, out: u64) -> bool {
    exists|gap: V| #[trigger] subs(numbers, value, range.min, gap) && exists|share: V| #[trigger] divs(numbers, gap, range.step, share) && roundings(numbers, share, out)
}

/// `out` is `value` on the nearest step of the range and within the range.
pub open spec fn stepped<V, N: Numbers<V>>(numbers: &N, value: V, range: &ParameterRange<V>, out: V) -> bool {
    exists|steps: u64| #[trigger] steps_to(numbers, value, range, steps) && exists|raw: V| #[trigger] steps_from_min(numbers, steps, range, raw) && kept_within(numbers, raw, range.min, range.max, out)
}

/// `out` is `value` snapped to the step of the range: `value` itself where
/// `numbers` finds the step not above zero, else `stepped`.
pub open spec fn snapped_to<V, N: Numbers<V>>(numbers: &N, value: V, range: &ParameterRange<V>, out: V) -> bool {
    exists|zero: V| #[trigger]
        ints(numbers, 0, zero) && exists|sign: Relation| #[trigger] relates(numbers, range.step, zero, sign) && (if sign.le() {
            out == value
        } else {
            stepped(numbers, value, range, out)
        })
}

/// Snaps a value to the nearest step of a range, counted from the range's
/// minimum, and keeps it within the range. A range whose step is not above
/// zero leaves the value as it is.
pub fn snap_to_step<V: Copy, N: Numbers<V>>(numbers: &N, value: V, range: &ParameterRange<V>) -> (out: V)
    ensures
        snapped_to(numbers, value, range, out),
{
    let zero: V = numbers.from_int(0);
    assert(ints(numbers, 0, zero));
    if relation(numbers, range.step, zero).is_le() {
        return value;
    }
    let gap: V = numbers.sub(value, range.min);
    let share: V = numbers.div(gap, range.step);
    let steps: u64 = numbers.rounded(share);
    assert(subs(numbers, value, range.min, gap));
    assert(divs(numbers, gap, range.step, share));
    assert(steps_to(numbers, value, range, steps));
    let whole: i64 = if steps > 9_223_372_036_854_775_807u64 {
        i64::MAX
    } else {
        steps as i64
    };
    let n: V = numbers.from_int(whole);
    let span: V = numbers.mul(n, range.step);
    let snapped: V = numbers.add(range.min, span);
    assert(ints(numbers, signed(steps), n));
    assert(muls(numbers, n, range.step, span));
    assert(steps_from_min(numbers, steps, range, snapped));
    let floor: V = numbers.max(snapped, range.min);
    let out: V = numbers.min(floor, range.max);
    assert(maxes(numbers, snapped, range.min, floor));
    assert(kept_within(numbers, snapped, range.min, range.max, out));
    assert(stepped(numbers, value, range, out));
    out
}

/// `out` is a fresh value for a gene: some value, snapped to the step of
/// the range.
pub open spec fn sampled<V, N: Numbers<V>>(numbers: &N, range: &ParameterRange<V>, out: V) -> bool {
    exists|drawn: V| #[trigger] snapped_to(numbers, drawn, range, out)
}

/// Gene `g` is a fresh value of range `g`.
pub open spec fn sampled_at<V, N: Numbers<V>>(numbers: &N, ranges: Seq<ParameterRange<V>>, genes: Seq<V>, g: int) -> bool {
    sampled(numbers, &ranges[g], genes[g])
}

/// Every gene is a fresh value of its range.
pub open spec fn all_sampled<V, N: Numbers<V>>(numbers: &N, ranges: Seq<ParameterRange<V>>, genes: Seq<V>) -> bool {
    genes.len() == ranges.len() && forall|g: int| 0 <= g < genes.len() ==> #[trigger] sampled_at(numbers, ranges, genes, g)
}

/// A fresh value for a gene: drawn uniformly from its range and snapped to
/// the range's step.
fn sample_gene<V: Copy, N: Numbers<V>, C: Chance<V>>(numbers: &N, chance: &C, rng: &mut StdRng, range: &ParameterRange<V>) -> (out: V)
    ensures
        sampled(numbers, range, out),
{
    let drawn: V = chance.uniform(rng, range.min, range.max);
    snap_to_step(numbers, drawn, range)
}

/// `hit` is whether an event of the rate `rate` happens: whether
/// `numbers` finds a draw below the rate.
pub open spec fn happened<V, N: Numbers<V>>(numbers: &N, rate: V, hit: bool) -> bool {
    exists|draw: V, against: Relation| #[trigger] relates(numbers, draw, rate, against) && hit == against.lt()
}

/// Decides whether an event of the rate `rate` happens: draws a number from
/// zero to one and has it compared with the rate.
fn happens<V: Copy, N: Numbers<V>, C: Chance<V>>(numbers: &N, chance: &C, rng: &mut StdRng, rate: V) -> (hit: bool)
    ensures
        happened(numbers, rate, hit),
{
    let draw: V = chance.unit(rng);
    relation(numbers, draw, rate).is_lt()
}

/// Gene `i` was considered for mutation: where the event of the mutation
/// rate happened it is a fresh value of its range, else it is as before.
pub open spec fn mutated_at<V, N: Numbers<V>>(numbers: &N, ranges: Seq<ParameterRange<V>>, rate: V, before: Seq<V>, after: Seq<V>, i: int) -> bool {
    exists|hit: bool| #[trigger] happened(numbers, rate, hit) && (if hit {
        sampled(numbers, &ranges[i], after[i])
    } else {
        after[i] == before[i]
    })
}

/// Mutates genes: each gene that has a range is, with the mutation rate,
/// replaced by a fresh value from its range.
///
/// Whatever is drawn: the number of genes stays, genes without a range stay
/// as they are, and each gene with a range is `mutated_at`.
pub fn mutate<V: Copy, N: Numbers<V>, C: Chance<V>>(numbers: &N, genes: &mut Vec<V>, ranges: &Vec<ParameterRange<V>>, mutation_rate: V, chance: &C, rng: &mut StdRng)
    ensures
        final(genes)@.len() == old(genes)@.len(),
        forall|i: int| ranges@.len() <= i < old(genes)@.len() ==> #[trigger] final(genes)@[i] == old(genes)@[i],
        forall|i: int| 0 <= i < old(genes)@.len() && i < ranges@.len() ==> #[trigger] mutated_at(numbers, ranges@, mutation_rate, old(genes)@, final(genes)@, i),
{
    let n: usize = if genes.len() < ranges.len() {
        genes.len()
    } else {
        ranges.len()
    };
    let mut i: usize = 0;
    while i < n
        invariant
            i <= n,
            n <= ranges@.len(),
            n <= genes@.len(),
            genes@.len() == old(genes)@.len(),
            forall|k: int| ranges@.len() <= k < old(genes)@.len() ==> #[trigger] genes@[k] == old(genes)@[k],
            forall|k: int| i <= k < old(genes)@.len() ==> #[trigger] genes@[k] == old(genes)@[k],
            forall|k: int| 0 <= k < i ==> #[trigger] mutated_at(numbers, ranges@, mutation_rate, old(genes)@, genes@, k),
        decreases n - i,
    {
        let ghost so_far = genes@;
        let hit: bool = happens(numbers, chance, rng, mutation_rate);
        if hit {
            let fresh: V = sample_gene(numbers, chance, rng, &ranges[i]);
            genes[i] = fresh;
        }
        assert forall|k: int| 0 <= k < i + 1 implies #[trigger] mutated_at(numbers, ranges@, mutation_rate, old(genes)@, genes@, k) by {
            if k < i {
                assert(mutated_at(numbers, ranges@, mutation_rate, old(genes)@, so_far, k));
                assert(genes@[k] == so_far[k]);
            }
        }
        i += 1;
    }
}

/// `at` is the position of the elite: it holds the highest fitness, and of
/// several that do, it is the last.
pub open spec fn is_elite(fitness: Seq<i64>, at: int) -> bool {
    &&& 0 <= at < fitness.len()
    &&& forall|j: int| 0 <= j < fitness.len() ==> fitness[j] <= fitness[at]
    &&& forall|j: int| at < j < fitness.len() ==> fitness[j] < fitness[at]
}

/// Finds the elite of a population.
pub fn elite_index(fitness: &Vec<i64>) -> (at: usize)
    requires
        fitness@.len() > 0,
    ensures
        is_elite(fitness@, at as int),
{
    let mut at: usize = 0;
    let mut i: usize = 1;
    while i < fitness.len()
        invariant
            1 <= i <= fitness@.len(),
            at < i,
            forall|j: int| 0 <= j < i ==> fitness@[j] <= fitness@[at as int],
            forall|j: int| at < j < i ==> fitness@[j] < fitness@[at as int],
        decreases fitness@.len() - i,
    {
        if fitness[i] >= fitness[at] {
            at = i;
        }
        i += 1;
    }
    at
}

/// A population of `pop_size` individuals, each with one fresh gene per
/// range.
pub fn random_population<V: Copy, N: Numbers<V>, C: Chance<V>>(numbers: &N, pop_size: usize, ranges: &Vec<ParameterRange<V>>, chance: &C, rng: &mut StdRng) -> (population: Vec<Vec<V>>)
    ensures
        population@.len() == pop_size,
        forall|k: int| 0 <= k < population@.len() ==> (#[trigger] population@[k])@.len() == ranges@.len(),
        forall|k: int| 0 <= k < population@.len() ==> all_sampled(numbers, ranges@, (#[trigger] population@[k])@),
{
    let mut population: Vec<Vec<V>> = Vec::new();
    let mut k: usize = 0;
    while k < pop_size
        invariant
            k <= pop_size,
            population@.len() == k,
            forall|j: int| 0 <= j < population@.len() ==> (#[trigger] population@[j])@.len() == ranges@.len(),
            forall|j: int| 0 <= j < population@.len() ==> all_sampled(numbers, ranges@, (#[trigger] population@[j])@),
        decreases pop_size - k,
    {
        let mut genes: Vec<V> = Vec::new();
        let mut i: usize = 0;
        while i < ranges.len()
            invariant
                i <= ranges@.len(),
                genes@.len() == i,
                forall|g: int| 0 <= g < i ==> #[trigger] sampled_at(numbers, ranges@, genes@, g),
            decreases ranges@.len() - i,
        {
            let ghost earlier = genes@;
            let gene: V = sample_gene(numbers, chance, rng, &ranges[i]);
            genes.push(gene);
            assert forall|g: int| 0 <= g < i + 1 implies #[trigger] sampled_at(numbers, ranges@, genes@, g) by {
                if g < i {
                    assert(sampled_at(numbers, ranges@, earlier, g));
                }
            }
            i += 1;
        }
        let ghost made = genes@;
        let ghost before = population@;
        assert(all_sampled(numbers, ranges@, made));
        population.push(genes);
        assert forall|j: int| 0 <= j < population@.len() implies all_sampled(numbers, ranges@, (#[trigger] population@[j])@) by {
            if j < before.len() {
                assert(population@[j] == before[j]);
            } else {
                assert(population@[j]@ == made);
            }
        }
        k += 1;
    }
    population
}

/// `at` is the winner of a tournament among three positions.
pub open spec fn won_tournament(fitness: Seq<i64>, at: int) -> bool {
    exists|a: int, b: int, c: int| 0 <= a < fitness.len() && 0 <= b < fitness.len() && 0 <= c < fitness.len() && at == #[trigger] tournament_of(fitness, a, b, c)
}

/// `after` are the genes `before`, each that has a range considered for
/// mutation.
pub open spec fn all_mutated<V, N: Numbers<V>>(numbers: &N, ranges: Seq<ParameterRange<V>>, rate: V, before: Seq<V>, after: Seq<V>) -> bool {
    &&& after.len() == before.len()
    &&& forall|i: int| ranges.len() <= i < before.len() ==> #[trigger] after[i] == before[i]
    &&& forall|i: int| 0 <= i < before.len() && i < ranges.len() ==> #[trigger] mutated_at(numbers, ranges, rate, before, after, i)
}

/// `first` and `second` are what two parents give before mutation: where
/// the event of the crossover rate happened and there is more than one
/// gene, their two children of a crossover at an inner point; else the
/// parents as they are.
pub open spec fn paired<V, N: Numbers<V>>(numbers: &N, parent1: Seq<V>, parent2: Seq<V>, crossover_rate: V, first: Seq<V>, second: Seq<V>) -> bool {
    exists|hit: bool| #[trigger]
        happened(numbers, crossover_rate, hit) && (if hit && parent1.len() > 1 {
            exists|point: int| 1 <= point < parent1.len() && (first, second) == #[trigger] crossover_of(parent1, parent2, point)
        } else {
            first == parent1 && second == parent2
        })
}

/// `first` and `second` are a pair of children of the population: two
/// winners of tournaments, `paired`, and each child then mutated.
pub open spec fn bred_pair<V, N: Numbers<V>>(numbers: &N, population: Seq<Vec<V>>, fitness: Seq<i64>, ranges: Seq<ParameterRange<V>>, crossover_rate: V, mutation_rate: V, first: Seq<V>, second: Seq<V>) -> bool {
    exists|one: int, two: int, raw1: Seq<V>, raw2: Seq<V>|
        {
            &&& #[trigger] paired(numbers, population[one]@, population[two]@, crossover_rate, raw1, raw2)
            &&& won_tournament(fitness, one)
            &&& won_tournament(fitness, two)
            &&& all_mutated(numbers, ranges, mutation_rate, raw1, first)
            &&& all_mutated(numbers, ranges, mutation_rate, raw2, second)
        }
}

/// Individual `k` of a generation is a child of the population before it:
/// one of a pair of children.
pub open spec fn bred_at<V, N: Numbers<V>>(numbers: &N, population: Seq<Vec<V>>, fitness: Seq<i64>, ranges: Seq<ParameterRange<V>>, crossover_rate: V, mutation_rate: V, next: Seq<Vec<V>>, k: int) -> bool {
    exists|first: Seq<V>, second: Seq<V>| #[trigger] bred_pair(numbers, population, fitness, ranges, crossover_rate, mutation_rate, first, second) && (next[k]@ == first || next[k]@ == second)
}

/// `next` is the generation bred from a population and its fitness: it has
/// `pop_size` individuals, or one where that is zero, each with one gene
/// for each range; its first is the elite of the population, and every
/// other is `bred_at`.
pub open spec fn generation_bred<V, N: Numbers<V>>(numbers: &N, population: Seq<Vec<V>>, fitness: Seq<i64>, pop_size: usize, ranges: Seq<ParameterRange<V>>, crossover_rate: V, mutation_rate: V, next: Seq<Vec<V>>) -> bool {
    &&& next.len() == (if pop_size > 1 {
        pop_size as int
    } else {
        1
    })
    &&& forall|k: int| 0 <= k < next.len() ==> (#[trigger] next[k])@.len() == ranges.len()
    &&& exists|at: int| is_elite(fitness, at) && next[0]@ == #[trigger] population[at]@
    &&& forall|k: int| 1 <= k < next.len() ==> #[trigger] bred_at(numbers, population, fitness, ranges, crossover_rate, mutation_rate, next, k)
}

/// Breeds a pair of children: two parents are selected by tournament,
/// crossed over with the crossover rate if there is more than one gene, and
/// each child is mutated.
fn breed<V: Copy, N: Numbers<V>, C: Chance<V>>(
    numbers: &N,
    population: &Vec<Vec<V>>,
    fitness: &Vec<i64>,
    ranges: &Vec<ParameterRange<V>>,
    crossover_rate: V,
    mutation_rate: V,
    chance: &C,
    rng: &mut StdRng,
) -> (children: (Vec<V>, Vec<V>))
    requires
        population@.len() > 0,
        fitness@.len() == population@.len(),
        forall|k: int| 0 <= k < population@.len() ==> (#[trigger] population@[k])@.len() == ranges@.len(),
    ensures
        children.0@.len() == ranges@.len(),
        children.1@.len() == ranges@.len(),
        bred_pair(numbers, population@, fitness@, ranges@, crossover_rate, mutation_rate, children.0@, children.1@),
{
    let first: usize = tournament_select(fitness, rng);
    let second: usize = tournament_select(fitness, rng);
    let parent1 = &population[first];
    let parent2 = &population[second];
    let hit: bool = happens(numbers, chance, rng, crossover_rate);
    let children = if hit && ranges.len() > 1 {
        crossover(parent1, parent2, rng)
    } else {
        (copy_values(parent1), copy_values(parent2))
    };
    let mut child1 = children.0;
    let mut child2 = children.1;
    let ghost raw1 = child1@;
    let ghost raw2 = child2@;
    proof {
        assert(won_tournament(fitness@, first as int));
        assert(won_tournament(fitness@, second as int));
        if hit && ranges@.len() > 1 {
            let point = choose|point: int| 1 <= point < parent1@.len() && (raw1, raw2) == #[trigger] crossover_of(parent1@, parent2@, point);
            assert(raw1.len() == ranges@.len() && raw2.len() == ranges@.len());
        }
        assert(paired(numbers, population@[first as int]@, population@[second as int]@, crossover_rate, raw1, raw2));
    }
    mutate(numbers, &mut child1, ranges, mutation_rate, chance, rng);
    mutate(numbers, &mut child2, ranges, mutation_rate, chance, rng);
    proof {
        assert(all_mutated(numbers, ranges@, mutation_rate, raw1, child1@));
        assert(all_mutated(numbers, ranges@, mutation_rate, raw2, child2@));
    }
    (child1, child2)
}

/// Breeds the next generation. The elite is carried over unchanged and
/// comes first. The rest is filled by pairs of children: two parents are
/// selected by tournament, crossed over with the crossover rate if there is
/// more than one gene, and mutated.
///
/// Whatever is drawn: the new generation has `pop_size` individuals (one if
/// `pop_size` is zero), each with one gene per range; its first is the
/// elite of the old one, and every other is `bred_at`.
pub fn next_generation<V: Copy, N: Numbers<V>, C: Chance<V>>(
    numbers: &N,
    population: &Vec<Vec<V>>,
    fitness: &Vec<i64>,
    pop_size: usize,
    ranges: &Vec<ParameterRange<V>>,
    crossover_rate: V,
    mutation_rate: V,
    chance: &C,
    rng: &mut StdRng,
) -> (next: Vec<Vec<V>>)
    requires
        population@.len() > 0,
        fitness@.len() == population@.len(),
        forall|k: int| 0 <= k < population@.len() ==> (#[trigger] population@[k])@.len() == ranges@.len(),
    ensures
        next@.len() == (if pop_size > 1 { pop_size as int } else { 1 }),
        forall|k: int| 0 <= k < next@.len() ==> (#[trigger] next@[k])@.len() == ranges@.len(),
        exists|at: int| is_elite(fitness@, at) && next@[0]@ == #[trigger] population@[at]@,
        forall|k: int| 1 <= k < next@.len() ==> #[trigger] bred_at(numbers, population@, fitness@, ranges@, crossover_rate, mutation_rate, next@, k),
        generation_bred(numbers, population@, fitness@, pop_size, ranges@, crossover_rate, mutation_rate, next@),
{
    let num_params: usize = ranges.len();
    let best: usize = elite_index(fitness);
    let mut next: Vec<Vec<V>> = Vec::new();
    next.push(copy_values(&population[best]));
    assert(is_elite(fitness@, best as int) && next@[0]@ == population@[best as int]@);
    while next.len() < pop_size
        invariant
            1 <= next@.len(),
            next@.len() <= (if pop_size > 1 { pop_size as int } else { 1 }),
            num_params == ranges@.len(),
            population@.len() > 0,
            fitness@.len() == population@.len(),
            forall|k: int| 0 <= k < population@.len() ==> (#[trigger] population@[k])@.len() == ranges@.len(),
            forall|k: int| 0 <= k < next@.len() ==> (#[trigger] next@[k])@.len() == ranges@.len(),
            next@[0]@ == population@[best as int]@,
            forall|k: int| 1 <= k < next@.len() ==> #[trigger] bred_at(numbers, population@, fitness@, ranges@, crossover_rate, mutation_rate, next@, k),
        decreases pop_size - next@.len(),
    {
        let ghost before = next@;
        let children = breed(numbers, population, fitness, ranges, crossover_rate, mutation_rate, chance, rng);
        let child1 = children.0;
        let child2 = children.1;
        let ghost first = child1@;
        let ghost second = child2@;
        next.push(child1);
        if next.len() < pop_size {
            next.push(child2);
        }
        proof {
            assert forall|k: int| 1 <= k < next@.len() implies #[trigger] bred_at(numbers, population@, fitness@, ranges@, crossover_rate, mutation_rate, next@, k) by {
                if k < before.len() {
                    assert(bred_at(numbers, population@, fitness@, ranges@, crossover_rate, mutation_rate, before, k));
                    assert(next@[k] == before[k]);
                } else {
                    assert(bred_pair(numbers, population@, fitness@, ranges@, crossover_rate, mutation_rate, first, second));
                    assert(next@[k]@ == first || next@[k]@ == second);
                }
            }
        }
    }
    next
}

/// `value` is the value of an objective as the headline metrics of a
/// result give it: the return times a hundred for the total profit, the
/// metric itself for Sharpe ratio, profit factor, win rate and return over
/// drawdown, and the metric with its sign turned for the two objectives
/// that minimise.
pub open spec fn objective_read<V, N: Numbers<V>>(numbers: &N, r: &OptimizationResult<V>, objective: ObjectiveFunction, value: V) -> bool {
    match objective {
        ObjectiveFunction::TotalProfit => exists|hundred: V| #[trigger] ints(numbers, 100, hundred) && muls(numbers, r.total_return_pct, hundred, value),
        ObjectiveFunction::SharpeRatio => value == r.sharpe_ratio,
        ObjectiveFunction::ProfitFactor => value == r.profit_factor,
        ObjectiveFunction::WinRate => value == r.win_rate_pct,
        ObjectiveFunction::ReturnDdRatio => value == r.return_dd_ratio,
        _ => minimised(numbers, r.stagnation_bars, r.ulcer_index_pct, objective, value),
    }
}

/// The value of an objective as the headline metrics of a result give it.
/// The total profit is read off the return.
pub fn extract_objective_from_result<V: Copy, N: Numbers<V>>(numbers: &N, r: &OptimizationResult<V>, objective: ObjectiveFunction) -> (value: V)
    ensures
        objective_read(numbers, r, objective, value),
        objective == ObjectiveFunction::SharpeRatio ==> value == r.sharpe_ratio,
        objective == ObjectiveFunction::ProfitFactor ==> value == r.profit_factor,
        objective == ObjectiveFunction::WinRate ==> value == r.win_rate_pct,
        objective == ObjectiveFunction::ReturnDdRatio ==> value == r.return_dd_ratio,
{
    match objective {
        ObjectiveFunction::TotalProfit => {
            let hundred: V = numbers.from_int(100);
            assert(ints(numbers, 100, hundred));
            numbers.mul(r.total_return_pct, hundred)
        },
        ObjectiveFunction::SharpeRatio => r.sharpe_ratio,
        ObjectiveFunction::ProfitFactor => r.profit_factor,
        ObjectiveFunction::WinRate => r.win_rate_pct,
        ObjectiveFunction::ReturnDdRatio => r.return_dd_ratio,
        ObjectiveFunction::MinStagnation => numbers.from_int(negated(r.stagnation_bars)),
        ObjectiveFunction::MinUlcerIndex => {
            let zero: V = numbers.from_int(0);
            assert(ints(numbers, 0, zero));
            numbers.sub(zero, r.ulcer_index_pct)
        },
    }
}

/// A result with everything but its composite score as in `before`.
pub open spec fn rescored<V>(before: OptimizationResult<V>, after: OptimizationResult<V>) -> bool {
    after == (OptimizationResult { composite_score: after.composite_score, ..before })
}

/// Sets the composite score of one result.
fn set_score<V: Copy>(results: &mut Vec<OptimizationResult<V>>, i: usize, score: V)
    requires
        i < old(results)@.len(),
    ensures
        final(results)@.len() == old(results)@.len(),
        forall|k: int| 0 <= k < old(results)@.len() && k != i ==> #[trigger] final(results)@[k] == old(results)@[k],
        rescored(old(results)@[i as int], final(results)@[i as int]),
        final(results)@[i as int].composite_score == score,
{
    let slot: &mut OptimizationResult<V> = &mut results[i];
    slot.composite_score = score;
}

/// `next` is the smallest and the largest so far after the value `v`: `v`
/// takes the place of the smallest where `numbers` finds it below, and of
/// the largest where `numbers` finds it above.
pub open spec fn widened<V, N: Numbers<V>>(numbers: &N, low: V, high: V, v: V, next: (V, V)) -> bool {
    exists|lower: Relation| #[trigger]
        relates(numbers, v, low, lower) && exists|higher: Relation| #[trigger] relates(numbers, v, high, higher) && next == (pick(lower.lt(), v, low), pick(higher.gt(), v, high))
}

/// `steps` holds the smallest and the largest so far after each of the
/// first `upto` values, starting from the first value alone.
pub open spec fn running_extent<V, N: Numbers<V>>(numbers: &N, values: Seq<V>, upto: int, steps: Seq<(V, V)>) -> bool {
    &&& steps.len() == upto
    &&& steps[0] == (values[0], values[0])
    &&& forall|k: int| 1 <= k < upto ==> widened(numbers, steps[k - 1].0, steps[k - 1].1, values[k], #[trigger] steps[k])
}

/// The smallest and the largest of the values, as the comparisons have it.
fn extent<V: Copy, N: Numbers<V>>(numbers: &N, values: &Vec<V>) -> (r: (V, V))
    requires
        values@.len() > 0,
    ensures
        exists|steps: Seq<(V, V)>| #[trigger] running_extent(numbers, values@, values@.len() as int, steps) && r == steps[values@.len() - 1],
{
    let mut min: V = values[0];
    let mut max: V = values[0];
    let ghost mut steps: Seq<(V, V)> = seq![(min, max)];
    let mut i: usize = 1;
    while i < values.len()
        invariant
            1 <= i <= values@.len(),
            running_extent(numbers, values@, i as int, steps),
            steps[i - 1] == (min, max),
        decreases values@.len() - i,
    {
        let ghost earlier = steps;
        let ghost low = min;
        let ghost high = max;
        let v: V = values[i];
        let lower = relation(numbers, v, min);
        let higher = relation(numbers, v, max);
        if lower.is_lt() {
            min = v;
        }
        if higher.is_gt() {
            max = v;
        }
        proof {
            assert(widened(numbers, low, high, v, (min, max)));
            steps = earlier.push((min, max));
            assert forall|k: int| 1 <= k < i + 1 implies widened(numbers, steps[k - 1].0, steps[k - 1].1, values@[k], #[trigger] steps[k]) by {
                if k < i {
                    assert(widened(numbers, earlier[k - 1].0, earlier[k - 1].1, values@[k], earlier[k]));
                }
            }
        }
        i += 1;
    }
    (min, max)
}

/// `low` and `high` are the smallest and the largest of the values, as the
/// comparisons have it.
pub open spec fn spanned<V, N: Numbers<V>>(numbers: &N, values: Seq<V>, low: V, high: V) -> bool {
    exists|steps: Seq<(V, V)>| #[trigger] running_extent(numbers, values, values.len() as int, steps) && steps[values.len() - 1] == (low, high)
}

/// Entry `i` of a column is the value of the objective on result `i`.
pub open spec fn read_at<V, N: Numbers<V>>(numbers: &N, results: Seq<OptimizationResult<V>>, objective: ObjectiveFunction, column: Seq<V>, i: int) -> bool {
    objective_read(numbers, &results[i], objective, column[i])
}

/// `column` holds the value of the objective on each result.
pub open spec fn column_read<V, N: Numbers<V>>(numbers: &N, results: Seq<OptimizationResult<V>>, objective: ObjectiveFunction, column: Seq<V>) -> bool {
    column.len() == results.len() && forall|i: int| 0 <= i < column.len() ==> #[trigger] read_at(numbers, results, objective, column, i)
}

/// `out` is a value normalised to a span: where the span is spread, the
/// value less the low over the width; else one half.
pub open spec fn normalised<V, N: Numbers<V>>(numbers: &N, value: V, low: V, width: V, spread: bool, half: V, out: V) -> bool {
    if spread {
        exists|above: V| #[trigger] subs(numbers, value, low, above) && divs(numbers, above, width, out)
    } else {
        out == half
    }
}

/// Total `i` grows by the normalised entry `i` of the column.
pub open spec fn added_at<V, N: Numbers<V>>(numbers: &N, column: Seq<V>, low: V, width: V, spread: bool, half: V, before: Seq<V>, after: Seq<V>, i: int) -> bool {
    exists|part: V| #[trigger] normalised(numbers, column[i], low, width, spread, half, part) && adds(numbers, before[i], part, after[i])
}

/// Every total grows by the normalised entry of the column.
pub open spec fn all_added<V, N: Numbers<V>>(numbers: &N, column: Seq<V>, low: V, width: V, spread: bool, half: V, before: Seq<V>, after: Seq<V>) -> bool {
    after.len() == before.len() && forall|i: int| 0 <= i < before.len() ==> #[trigger] added_at(numbers, column, low, width, spread, half, before, after, i)
}

/// `after` are the totals `before` with one objective added: its values on
/// the results are normalised to the span from their smallest to their
/// largest, which counts as spread where `numbers` finds its width above
/// zero, and added.
pub open spec fn objective_added<V, N: Numbers<V>>(numbers: &N, results: Seq<OptimizationResult<V>>, objective: ObjectiveFunction, zero: V, half: V, before: Seq<V>, after: Seq<V>) -> bool {
    exists|column: Seq<V>| #[trigger]
        column_read(numbers, results, objective, column) && exists|low: V, high: V| #[trigger]
            spanned(numbers, column, low, high) && exists|width: V| #[trigger]
                subs(numbers, high, low, width) && exists|wide: Relation| #[trigger] relates(numbers, width, zero, wide) && all_added(numbers, column, low, width, wide.gt(), half, before, after)
}

/// Step `j` of the totals: objective `j` is added.
pub open spec fn totalled_at<V, N: Numbers<V>>(numbers: &N, results: Seq<OptimizationResult<V>>, objectives: Seq<ObjectiveFunction>, zero: V, half: V, totals: Seq<Seq<V>>, j: int) -> bool {
    objective_added(numbers, results, objectives[j], zero, half, totals[j], totals[j + 1])
}

/// `totals` holds, for each result, zero and then the sum so far of its
/// normalised objectives, before the first objective and after each.
pub open spec fn totals_run<V, N: Numbers<V>>(numbers: &N, results: Seq<OptimizationResult<V>>, objectives: Seq<ObjectiveFunction>, upto: int, zero: V, half: V, totals: Seq<Seq<V>>) -> bool {
    &&& totals.len() == upto + 1
    &&& totals[0] == Seq::new(results.len(), |i: int| zero)
    &&& forall|j: int| 0 <= j < upto ==> #[trigger] totalled_at(numbers, results, objectives, zero, half, totals, j)
}

/// The composite score of result `i` is its total over the number of
/// objectives.
pub open spec fn scored_at<V, N: Numbers<V>>(numbers: &N, total: Seq<V>, parts: V, after: Seq<OptimizationResult<V>>, i: int) -> bool {
    divs(numbers, total[i], parts, after[i].composite_score)
}

/// `half` is one over two.
pub open spec fn halved<V, N: Numbers<V>>(numbers: &N, half: V) -> bool {
    exists|one: V| #[trigger] ints(numbers, 1, one) && exists|two: V| #[trigger] ints(numbers, 2, two) && divs(numbers, one, two, half)
}

/// The composite scores of `after` are the means of the normalised
/// objectives of the results.
pub open spec fn composite_scored<V, N: Numbers<V>>(numbers: &N, results: Seq<OptimizationResult<V>>, objectives: Seq<ObjectiveFunction>, after: Seq<OptimizationResult<V>>) -> bool {
    exists|zero: V, half: V, totals: Seq<Seq<V>>, parts: V|
        {
            &&& #[trigger] totals_run(numbers, results, objectives, objectives.len() as int, zero, half, totals)
            &&& ints(numbers, 0, zero)
            &&& halved(numbers, half)
            &&& #[trigger] ints(numbers, objectives.len() as i64, parts)
            &&& forall|i: int| 0 <= i < after.len() ==> #[trigger] scored_at(numbers, totals[objectives.len() as int], parts, after, i)
        }
}

/// Sets the composite score of every result. With one objective it is the
/// objective value. With several, each objective is normalised to the span
/// from its smallest to its largest value over all results, one half where
/// the span is empty, and the composite is the mean of the normalised
/// values. Without results or objectives nothing changes.
pub fn compute_composite_scores<V: Copy, N: Numbers<V>>(numbers: &N, results: &mut Vec<OptimizationResult<V>>, objectives: &Vec<ObjectiveFunction>)
    ensures
        final(results)@.len() == old(results)@.len(),
        forall|k: int| 0 <= k < old(results)@.len() ==> rescored(old(results)@[k], #[trigger] final(results)@[k]),
        objectives@.len() == 0 ==> final(results)@ == old(results)@,
        objectives@.len() == 1 ==> forall|k: int| 0 <= k < old(results)@.len() ==> (#[trigger] final(results)@[k]).composite_score == old(results)@[k].objective_value,
        objectives@.len() > 1 && old(results)@.len() > 0 ==> composite_scored(numbers, old(results)@, objectives@, final(results)@),
        old(results)@.len() == 0 ==> final(results)@ == old(results)@,
{
    let count: usize = results.len();
    if count == 0 || objectives.len() == 0 {
        return;
    }
    if objectives.len() == 1 {
        let mut i: usize = 0;
        while i < count
            invariant
                i <= count,
                results@.len() == count,
                count == old(results)@.len(),
                forall|k: int| 0 <= k < count ==> rescored(old(results)@[k], #[trigger] results@[k]),
                forall|k: int| 0 <= k < i ==> (#[trigger] results@[k]).composite_score == old(results)@[k].objective_value,
            decreases count - i,
        {
            let value: V = results[i].objective_value;
            set_score(results, i, value);
            i += 1;
        }
        return;
    }
    let zero: V = numbers.from_int(0);
    let one: V = numbers.from_int(1);
    let two: V = numbers.from_int(2);
    let half: V = numbers.div(one, two);
    assert(ints(numbers, 0, zero));
    assert(ints(numbers, 1, one));
    assert(ints(numbers, 2, two));
    assert(halved(numbers, half));
    let mut sums: Vec<V> = Vec::new();
    let mut i: usize = 0;
    while i < count
        invariant
            i <= count,
            sums@.len() == i,
            forall|k: int| 0 <= k < i ==> sums@[k] == zero,
        decreases count - i,
    {
        sums.push(zero);
        i += 1;
    }
    assert(sums@ =~= Seq::new(results@.len(), |i: int| zero));
    let ghost mut totals: Seq<Seq<V>> = seq![sums@];
    let mut j: usize = 0;
    while j < objectives.len()
        invariant
            j <= objectives@.len(),
            sums@.len() == count,
            results@.len() == count,
            count > 0,
            results@ == old(results)@,
            totals_run(numbers, results@, objectives@, j as int, zero, half, totals),
            totals[j as int] == sums@,
        decreases objectives@.len() - j,
    {
        let ghost earlier = totals;
        let ghost before = sums@;
        let mut raw: Vec<V> = Vec::new();
        let mut i: usize = 0;
        while i < count
            invariant
                i <= count,
                raw@.len() == i,
                results@.len() == count,
                j < objectives@.len(),
                forall|k: int| 0 <= k < i ==> #[trigger] read_at(numbers, results@, objectives@[j as int], raw@, k),
            decreases count - i,
        {
            let ghost column = raw@;
            let value: V = extract_objective_from_result(numbers, &results[i], objectives[j]);
            raw.push(value);
            assert forall|k: int| 0 <= k < i + 1 implies #[trigger] read_at(numbers, results@, objectives@[j as int], raw@, k) by {
                if k < i {
                    assert(read_at(numbers, results@, objectives@[j as int], column, k));
                }
            }
            i += 1;
        }
        assert(column_read(numbers, results@, objectives@[j as int], raw@));
        let span = extent(numbers, &raw);
        let low: V = span.0;
        let high: V = span.1;
        assert(spanned(numbers, raw@, low, high));
        let width: V = numbers.sub(high, low);
        assert(subs(numbers, high, low, width));
        let wide = relation(numbers, width, zero);
        let spread: bool = wide.is_gt();
        let mut i: usize = 0;
        while i < count
            invariant
                i <= count,
                raw@.len() == count,
                sums@.len() == count,
                before.len() == count,
                forall|k: int| 0 <= k < i ==> #[trigger] added_at(numbers, raw@, low, width, spread, half, before, sums@, k),
                forall|k: int| i <= k < count ==> sums@[k] == before[k],
            decreases count - i,
        {
            let ghost so_far = sums@;
            let part: V = if spread {
                let above: V = numbers.sub(raw[i], low);
                assert(subs(numbers, raw@[i as int], low, above));
                numbers.div(above, width)
            } else {
                half
            };
            assert(normalised(numbers, raw@[i as int], low, width, spread, half, part));
            let sum: V = numbers.add(sums[i], part);
            sums[i] = sum;
            assert forall|k: int| 0 <= k < i + 1 implies #[trigger] added_at(numbers, raw@, low, width, spread, half, before, sums@, k) by {
                if k < i {
                    assert(added_at(numbers, raw@, low, width, spread, half, before, so_far, k));
                    assert(sums@[k] == so_far[k]);
                }
            }
            i += 1;
        }
        proof {
            assert(all_added(numbers, raw@, low, width, wide.gt(), half, before, sums@));
            assert(objective_added(numbers, results@, objectives@[j as int], zero, half, before, sums@));
            totals = earlier.push(sums@);
            assert forall|k: int| 0 <= k < j + 1 implies #[trigger] totalled_at(numbers, results@, objectives@, zero, half, totals, k) by {
                if k < j {
                    assert(totalled_at(numbers, results@, objectives@, zero, half, earlier, k));
                }
            }
        }
        j += 1;
    }
    let parts: V = numbers.from_int(objectives.len() as i64);
    assert(ints(numbers, objectives@.len() as i64, parts));
    let ghost total = sums@;
    let mut i: usize = 0;
    while i < count
        invariant
            i <= count,
            sums@.len() == count,
            sums@ == total,
            results@.len() == count,
            count == old(results)@.len(),
            forall|k: int| 0 <= k < count ==> rescored(old(results)@[k], #[trigger] results@[k]),
            forall|k: int| 0 <= k < i ==> #[trigger] scored_at(numbers, total, parts, results@, k),
        decreases count - i,
    {
        let ghost so_far = results@;
        let score: V = numbers.div(sums[i], parts);
        set_score(results, i, score);
        assert forall|k: int| 0 <= k < i + 1 implies #[trigger] scored_at(numbers, total, parts, results@, k) by {
            if k < i {
                assert(scored_at(numbers, total, parts, so_far, k));
                assert(results@[k] == so_far[k]);
            }
        }
        i += 1;
    }
    assert(composite_scored(numbers, old(results)@, objectives@, results@));
}

/// What the evaluation of one parameter vector came to.
pub enum Evaluated<V> {
    /// Not run, because cancellation was requested.
    Skipped,
    /// The run failed; the placeholder holds the parameter values and the
    /// worst score.
    Failed(OptimizationResult<V>),
    /// The run finished, with this result.
    Done(OptimizationResult<V>),
}

/// The result of an evaluation, of a run that finished or of one that
/// failed, carries the values it was made with, under the names of their
/// ranges, and has no out-of-sample results yet; that of a failed run has
/// no trades, and its two scores are one.
pub open spec fn evaluated_with<V>(ranges: Seq<ParameterRange<V>>, values: Seq<V>, out: Evaluated<V>) -> bool {
    match out {
        Evaluated::Skipped => true,
        Evaluated::Failed(r) => named_values(ranges, values, r.params@) && r.oos_results@.len() == 0 && r.total_trades == 0 && r.composite_score == r.objective_value,
        Evaluated::Done(r) => named_values(ranges, values, r.params@) && r.oos_results@.len() == 0,
    }
}

/// `run` is the outcome of a backtest of `patched`: a finished run is
/// `backtest_run`; a failed run on candles is `run_failed`.
pub open spec fn backtest_outcome<V, N: Numbers<V>>(numbers: &N, candles: Seq<Candle<V>>, sub_bars: &SubBarData<V>, patched: &Strategy<V>, config: &BacktestConfig<V>, instrument: &InstrumentConfig<V>, run: Result<BacktestResults<V>, AppError>) -> bool {
    match run {
        Ok(out) => backtest_run(numbers, candles, sub_bars, patched, config, instrument, out),
        Err(e) => candles.len() == 0 || run_failed(patched, candles.len() as usize, e),
    }
}

/// `out` is what evaluating a parameter vector comes to: a copy of the
/// strategy that holds the same is patched with the values and run; a
/// finished run gives the result built from its metrics, a failed one the
/// placeholder.
pub open spec fn candidate_evaluated<V, N: Numbers<V>>(
    numbers: &N,
    candles: Seq<Candle<V>>,
    sub_bars: &SubBarData<V>,
    strategy: &Strategy<V>,
    config: &BacktestConfig<V>,
    instrument: &InstrumentConfig<V>,
    ranges: Seq<ParameterRange<V>>,
    objectives: Seq<ObjectiveFunction>,
    values: Seq<V>,
    out: Evaluated<V>,
) -> bool {
    exists|copy: Strategy<V>, patched: Strategy<V>, run: Result<BacktestResults<V>, AppError>|
        {
            &&& #[trigger] patched_by(numbers, copy, ranges, values, patched)
            &&& same_strategy(copy, *strategy)
            &&& #[trigger] backtest_outcome(numbers, candles, sub_bars, &patched, config, instrument, run)
            &&& match run {
                Ok(finished) => out matches Evaluated::Done(r) && result_built(numbers, ranges, values, &finished.metrics, objectives, r),
                Err(_) => out matches Evaluated::Failed(r) && placeholder_built(numbers, ranges, values, r),
            }
        }
}

/// `out` is the answer for a parameter vector: it was skipped, or it is
/// `candidate_evaluated`.
pub open spec fn candidate_ran<V, N: Numbers<V>>(
    numbers: &N,
    candles: Seq<Candle<V>>,
    sub_bars: &SubBarData<V>,
    strategy: &Strategy<V>,
    config: &BacktestConfig<V>,
    instrument: &InstrumentConfig<V>,
    ranges: Seq<ParameterRange<V>>,
    objectives: Seq<ObjectiveFunction>,
    values: Seq<V>,
    out: Evaluated<V>,
) -> bool {
    out is Skipped || candidate_evaluated(numbers, candles, sub_bars, strategy, config, instrument, ranges, objectives, values, out)
}

/// Evaluates one parameter vector, unless cancellation was requested:
/// patches a copy of the strategy with the values, runs a backtest on it
/// and builds the result from its metrics. A run that fails gives a
/// placeholder with the lowest score. `cancelled` is the reading of the
/// cancel flag before the evaluation; the flag itself is handed on to the
/// run.
pub fn evaluate_unless<V: Copy, N: Numbers<V>>(
    cancelled: bool,
    numbers: &N,
    candles: &Vec<Candle<V>>,
    sub_bars: &SubBarData<V>,
    strategy: &Strategy<V>,
    config: &BacktestConfig<V>,
    instrument: &InstrumentConfig<V>,
    ranges: &Vec<ParameterRange<V>>,
    objectives: &Vec<ObjectiveFunction>,
    cancel_flag: &AtomicBool,
    values: &Vec<V>,
) -> (out: Evaluated<V>)
    requires
        sub_bars.wf(),
    ensures
        cancelled <==> out is Skipped,
        !cancelled ==> candidate_evaluated(numbers, candles@, sub_bars, strategy, config, instrument, ranges@, objectives@, values@, out),
        evaluated_with(ranges@, values@, out),
{
    if cancelled {
        return Evaluated::Skipped;
    }
    let copy = copy_strategy(strategy);
    let ghost copied = copy;
    let patched = apply_params(numbers, copy, ranges, values);
    let silent = |_percent: u8, _current: usize, _total: usize| {};
    let run = run_backtest(candles, sub_bars, &patched, config, instrument, numbers, cancel_flag, silent);
    let ghost outcome = run;
    assert(backtest_outcome(numbers, candles@, sub_bars, &patched, config, instrument, outcome));
    match run {
        Ok(finished) => {
            let r = build_result(numbers, ranges, values, &finished.metrics, objectives);
            let out = Evaluated::Done(r);
            assert(patched_by(numbers, copied, ranges@, values@, patched) && same_strategy(copied, *strategy));
            assert(candidate_evaluated(numbers, candles@, sub_bars, strategy, config, instrument, ranges@, objectives@, values@, out));
            out
        },
        Err(_) => {
            let worst: V = numbers.lowest();
            let zero: V = numbers.from_int(0);
            assert(lowests(numbers, worst));
            assert(ints(numbers, 0, zero));
            let r = build_failed_result(ranges, values, worst, zero);
            let out = Evaluated::Failed(r);
            assert(placeholder_built(numbers, ranges@, values@, r));
            assert(patched_by(numbers, copied, ranges@, values@, patched) && same_strategy(copied, *strategy));
            assert(candidate_evaluated(numbers, candles@, sub_bars, strategy, config, instrument, ranges@, objectives@, values@, out));
            out
        },
    }
}

/// Evaluates one parameter vector: reads the cancel flag and, unless
/// cancellation was requested, evaluates the vector as `evaluate_unless`
/// does.
pub fn evaluate_candidate<V: Copy, N: Numbers<V>>(
    numbers: &N,
    candles: &Vec<Candle<V>>,
    sub_bars: &SubBarData<V>,
    strategy: &Strategy<V>,
    config: &BacktestConfig<V>,
    instrument: &InstrumentConfig<V>,
    ranges: &Vec<ParameterRange<V>>,
    objectives: &Vec<ObjectiveFunction>,
    cancel_flag: &AtomicBool,
    values: &Vec<V>,
) -> (out: Evaluated<V>)
    requires
        sub_bars.wf(),
    ensures
        candidate_ran(numbers, candles@, sub_bars, strategy, config, instrument, ranges@, objectives@, values@, out),
        evaluated_with(ranges@, values@, out),
{
    let cancelled: bool = is_cancelled(cancel_flag);
    evaluate_unless(cancelled, numbers, candles, sub_bars, strategy, config, instrument, ranges, objectives, cancel_flag, values)
}

/// Evaluates the candidates on worker threads; entry `k` of the answer
/// belongs to candidate `k`.
///
/// Calls rayon's `par_iter`, `map` and `collect` on the candidates. The
/// closure is one call of `evaluate_candidate`. Rayon applies it to every
/// item, and `collect` into a vector keeps the items in their order; what
/// holds of one call of `evaluate_candidate` therefore holds of every entry.
#[verifier::external_body]
fn evaluate_all<V: Copy + Send + Sync, N: Numbers<V> + Sync>(
    numbers: &N,
    candles: &Vec<Candle<V>>,
    sub_bars: &SubBarData<V>,
    strategy: &Strategy<V>,
    config: &BacktestConfig<V>,
    instrument: &InstrumentConfig<V>,
    ranges: &Vec<ParameterRange<V>>,
    objectives: &Vec<ObjectiveFunction>,
    cancel_flag: &AtomicBool,
    candidates: &[Vec<V>],
) -> (out: Vec<Evaluated<V>>)
    requires
        sub_bars.wf(),
    ensures
        out@.len() == candidates@.len(),
        forall|k: int| 0 <= k < out@.len() ==> evaluated_with(ranges@, candidates@[k]@, #[trigger] out@[k]),
        forall|k: int| 0 <= k < out@.len() ==> candidate_ran(numbers, candles@, sub_bars, strategy, config, instrument, ranges@, objectives@, candidates@[k]@, #[trigger] out@[k]),
{
    candidates.par_iter().map(
        |values| evaluate_candidate(numbers, candles, sub_bars, strategy, config, instrument, ranges, objectives, cancel_flag, values),
    ).collect()
}

/// Turns a list of answers over, so that they come off its end in their
/// order.
fn turned<V>(answers: Vec<Evaluated<V>>) -> (stack: Vec<Evaluated<V>>)
    ensures
        stack@.len() == answers@.len(),
        forall|k: int| 0 <= k < stack@.len() ==> #[trigger] stack@[k] == answers@[answers@.len() - 1 - k],
{
    let ghost all = answers@;
    let mut answers = answers;
    let mut stack: Vec<Evaluated<V>> = Vec::new();
    while answers.len() > 0
        invariant
            answers@.len() + stack@.len() == all.len(),
            forall|k: int| 0 <= k < answers@.len() ==> #[trigger] answers@[k] == all[k],
            forall|k: int| 0 <= k < stack@.len() ==> #[trigger] stack@[k] == all[all.len() - 1 - k],
        decreases answers@.len(),
    {
        match answers.pop() {
            Some(e) => {
                stack.push(e);
            },
            None => {},
        }
    }
    stack
}

/// A result names one value per range, under the display names of the
/// ranges and in their order.
pub open spec fn names_ranges<V>(ranges: Seq<ParameterRange<V>>, r: OptimizationResult<V>) -> bool {
    &&& r.params@.len() == ranges.len()
    &&& forall|i: int| 0 <= i < ranges.len() ==> (#[trigger] r.params@[i]).name == ranges[i].display_name
}

/// The most candidates that are handed to the workers at once, unless the
/// span between two progress reports is longer.
pub const EVALUATION_BATCH: usize = 256;

/// The number of completions between two progress reports of a batch of
/// `total` evaluations: a hundredth of the batch, and at least one.
pub open spec fn report_interval(total: int) -> int {
    if total >= 100 {
        total / 100
    } else {
        1
    }
}

/// Whether the completion numbered `current` of a batch of `total` is
/// reported: every `report_interval`-th is, and the last.
pub open spec fn reports_progress(current: int, total: int) -> bool {
    current % report_interval(total) == 0 || current == total
}

/// Decides whether the completion numbered `current` of a batch of `total`
/// evaluations is reported, and with which percentage.
pub fn grid_progress(current: usize, total: usize) -> (report: Option<u8>)
    requires
        current <= total,
    ensures
        report is Some <==> reports_progress(current as int, total as int),
        report is Some ==> report->Some_0 == percent_of(current as int, total as int),
{
    let interval: usize = if total >= 100 {
        total / 100
    } else {
        1
    };
    if current % interval == 0 || current == total {
        Some(progress_percent(current, total))
    } else {
        None
    }
}

/// What a grid search may fail with: the errors of the grid itself, and
/// cancellation.
pub open spec fn grid_search_error<V>(ranges: Seq<ParameterRange<V>>, e: AppError) -> bool {
    ||| e == AppError::OptimizationCancelled
    ||| (e matches AppError::OptimizationError(m) && (m@ == "No parameter ranges specified"@ || exists|i: int|
        0 <= i < ranges.len() && m@ == step_message(#[trigger] ranges[i].display_name@)))
    ||| (e matches AppError::TooManyCombinations { count, limit } && count > MAX_COMBINATIONS && limit == MAX_COMBINATIONS)
}

/// Answer `k` of a grid is what evaluating combination `k` came to, and
/// entry `k` of `kept` is its result where the run finished, else absent.
pub open spec fn grid_answer_at<V, N: Numbers<V>>(numbers: &N, candles: Seq<Candle<V>>, sub_bars: &SubBarData<V>, strategy: &Strategy<V>, config: &BacktestConfig<V>, instrument: &InstrumentConfig<V>, ranges: Seq<ParameterRange<V>>, objectives: Seq<ObjectiveFunction>, combos: Seq<Vec<V>>, answers: Seq<Evaluated<V>>, kept: Seq<Option<OptimizationResult<V>>>, k: int) -> bool {
    &&& evaluated_with(ranges, combos[k]@, answers[k])
    &&& candidate_ran(numbers, candles, sub_bars, strategy, config, instrument, ranges, objectives, combos[k]@, answers[k])
    &&& kept[k] == (match answers[k] {
        Evaluated::Done(r) => Some(r),
        _ => None,
    })
}

/// Every combination of the grid was evaluated, and `kept` holds the
/// results of the runs that finished, each at the place of its
/// combination.
pub open spec fn grid_answered<V, N: Numbers<V>>(numbers: &N, candles: Seq<Candle<V>>, sub_bars: &SubBarData<V>, strategy: &Strategy<V>, config: &BacktestConfig<V>, instrument: &InstrumentConfig<V>, ranges: Seq<ParameterRange<V>>, objectives: Seq<ObjectiveFunction>, combos: Seq<Vec<V>>, answers: Seq<Evaluated<V>>, kept: Seq<Option<OptimizationResult<V>>>) -> bool {
    &&& answers.len() == combos.len()
    &&& kept.len() == combos.len()
    &&& forall|k: int| 0 <= k < combos.len() ==> #[trigger] grid_answer_at(numbers, candles, sub_bars, strategy, config, instrument, ranges, objectives, combos, answers, kept, k)
}

/// `scored` are the results `noted` with their composite scores set: the
/// objective value with one objective, the mean of the normalised
/// objectives with several, and nothing else changed.
pub open spec fn scores_set<V, N: Numbers<V>>(numbers: &N, noted: Seq<OptimizationResult<V>>, objectives: Seq<ObjectiveFunction>, scored: Seq<OptimizationResult<V>>) -> bool {
    &&& scored.len() == noted.len()
    &&& forall|k: int| 0 <= k < noted.len() ==> rescored(noted[k], #[trigger] scored[k])
    &&& (objectives.len() == 0 || noted.len() == 0 ==> scored == noted)
    &&& (objectives.len() == 1 ==> forall|k: int| 0 <= k < noted.len() ==> (#[trigger] scored[k]).composite_score == noted[k].objective_value)
    &&& (objectives.len() > 1 && noted.len() > 0 ==> composite_scored(numbers, noted, objectives, scored))
}

/// `r` is the outcome of a search over a grid of combinations: cancelled,
/// or the top of the ranking, by their scores, of the results of the runs of
/// the grid that finished, in the order of the grid.
pub open spec fn grid_ranked<V, N: Numbers<V>>(numbers: &N, candles: Seq<Candle<V>>, sub_bars: &SubBarData<V>, strategy: &Strategy<V>, config: &BacktestConfig<V>, instrument: &InstrumentConfig<V>, ranges: Seq<ParameterRange<V>>, objectives: Seq<ObjectiveFunction>, combos: Seq<Vec<V>>, r: Result<Vec<OptimizationResult<V>>, AppError>) -> bool {
    match r {
        Err(e) => e == AppError::OptimizationCancelled,
        Ok(top) => exists|answers: Seq<Evaluated<V>>, kept: Seq<Option<OptimizationResult<V>>>, scored: Seq<OptimizationResult<V>>|
            {
                &&& #[trigger] grid_answered(numbers, candles, sub_bars, strategy, config, instrument, ranges, objectives, combos, answers, kept)
                &&& #[trigger] scores_set(numbers, collected(kept, kept.len() as int), objectives, scored)
                &&& is_top_ranked(numbers, scored, objectives.len() > 1, MAX_RESULTS as int, top@)
            },
    }
}

/// `r` is the outcome of a grid search over ranges: the error of the grid
/// where the grid is refused, else `grid_ranked` of the grid.
pub open spec fn grid_searched<V, N: Numbers<V>>(numbers: &N, candles: Seq<Candle<V>>, sub_bars: &SubBarData<V>, strategy: &Strategy<V>, config: &BacktestConfig<V>, instrument: &InstrumentConfig<V>, ranges: Seq<ParameterRange<V>>, objectives: Seq<ObjectiveFunction>, r: Result<Vec<OptimizationResult<V>>, AppError>) -> bool {
    exists|grid: Result<Vec<Vec<V>>, AppError>| #[trigger] grid_made(numbers, ranges, grid) && (match grid {
        Err(e) => r is Err && r->Err_0 == e,
        Ok(combos) => grid_ranked(numbers, candles, sub_bars, strategy, config, instrument, ranges, objectives, combos@, r),
    })
}

/// Runs a grid search: enumerates the grid, has every combination
/// evaluated on worker threads, scores the finished runs and returns the
/// best of them, at most `MAX_RESULTS`, best first. Runs that fail are left
/// out. A search that was cancelled fails as a whole.
///
/// The combinations are handed to the workers in batches. After a batch,
/// `progress_callback` is told of every finished run whose number in the
/// grid `reports_progress` selects: the percentage, the number, the size of
/// the grid and the best objective value so far.
///
/// Whatever the runs yield: the outcome is the top of a ranking of the
/// finished runs, every result names one value per range, and the only
/// errors are those of the grid and cancellation.
pub fn run_grid_search<V: Copy + Send + Sync, N: Numbers<V> + Sync, F: Fn(u8, usize, usize, V)>(
    candles: &Vec<Candle<V>>,
    sub_bars: &SubBarData<V>,
    strategy: &Strategy<V>,
    config: &BacktestConfig<V>,
    instrument: &InstrumentConfig<V>,
    numbers: &N,
    ranges: &Vec<ParameterRange<V>>,
    objectives: &Vec<ObjectiveFunction>,
    cancel_flag: &AtomicBool,
    progress_callback: F,
) -> (r: Result<Vec<OptimizationResult<V>>, AppError>)
    requires
        sub_bars.wf(),
        forall|p: u8, c: usize, t: usize, best: V| progress_callback.requires((p, c, t, best)),
    ensures
        ranges@.len() == 0 ==> (r matches Err(AppError::OptimizationError(m)) && m@ == "No parameter ranges specified"@),
        ranges@.len() > 0 ==> grid_searched(numbers, candles@, sub_bars, strategy, config, instrument, ranges@, objectives@, r),
        r is Ok ==> r->Ok_0@.len() <= MAX_RESULTS && exists|finished: Seq<OptimizationResult<V>>| #[trigger] is_top_of(finished, MAX_RESULTS as int, r->Ok_0@),
        r is Ok ==> forall|k: int| 0 <= k < r->Ok_0@.len() ==> names_ranges(ranges@, #[trigger] r->Ok_0@[k]),
        r is Err ==> grid_search_error(ranges@, r->Err_0),
{
    let made = generate_grid(numbers, ranges);
    let ghost grid = made;
    let combinations = match made {
        Ok(c) => c,
        Err(e) => {
            let r = Err(e);
            assert(ranges@.len() > 0 ==> grid_searched(numbers, candles@, sub_bars, strategy, config, instrument, ranges@, objectives@, r));
            return r;
        },
    };
    let ghost mut answered: Seq<Evaluated<V>> = Seq::empty();
    let ghost mut kept: Seq<Option<OptimizationResult<V>>> = Seq::empty();
    let total: usize = combinations.len();
    let interval: usize = if total >= 100 {
        total / 100
    } else {
        1
    };
    let batch: usize = if interval > EVALUATION_BATCH {
        interval
    } else {
        EVALUATION_BATCH
    };
    let mut valid: Vec<OptimizationResult<V>> = Vec::new();
    let mut best: V = numbers.lowest();
    let mut done: usize = 0;
    while done < total
        invariant
            sub_bars.wf(),
            forall|p: u8, c: usize, t: usize, best: V| progress_callback.requires((p, c, t, best)),
            done <= total,
            total == combinations@.len(),
            batch > 0,
            forall|k: int| 0 <= k < combinations@.len() ==> (#[trigger] combinations@[k])@.len() == ranges@.len(),
            forall|k: int| 0 <= k < valid@.len() ==> names_ranges(ranges@, #[trigger] valid@[k]),
            grid == Ok::<Vec<Vec<V>>, AppError>(combinations),
            ranges@.len() > 0,
            grid_made(numbers, ranges@, grid),
            answered.len() == done,
            kept.len() == done,
            forall|k: int| 0 <= k < done ==> #[trigger] grid_answer_at(numbers, candles@, sub_bars, strategy, config, instrument, ranges@, objectives@, combinations@, answered, kept, k),
            valid@ == collected(kept, done as int),
        decreases total - done,
    {
        let end: usize = if total - done > batch {
            done + batch
        } else {
            total
        };
        let answers = evaluate_all(numbers, candles, sub_bars, strategy, config, instrument, ranges, objectives, cancel_flag, slice_subrange(combinations.as_slice(), done, end));
        if is_cancelled(cancel_flag) {
            let r = Err(AppError::OptimizationCancelled);
            assert(grid_ranked(numbers, candles@, sub_bars, strategy, config, instrument, ranges@, objectives@, combinations@, r));
            assert(grid_searched(numbers, candles@, sub_bars, strategy, config, instrument, ranges@, objectives@, r));
            return r;
        }
        let ghost came = answers@;
        proof {
            assert forall|j: int| 0 <= j < came.len() implies evaluated_with(ranges@, combinations@[done + j]@, #[trigger] came[j]) && candidate_ran(numbers, candles@, sub_bars, strategy, config, instrument, ranges@, objectives@, combinations@[done + j]@, came[j]) by {
                assert(combinations@.subrange(done as int, end as int)[j] == combinations@[done + j]);
            }
        }
        let mut stack = turned(answers);
        let mut k: usize = 0;
        while k < end - done
            invariant
                grid == Ok::<Vec<Vec<V>>, AppError>(combinations),
                ranges@.len() > 0,
                grid_made(numbers, ranges@, grid),
                forall|p: u8, c: usize, t: usize, best: V| progress_callback.requires((p, c, t, best)),
                done < end <= total,
                total == combinations@.len(),
                k <= end - done,
                came.len() == end - done,
                stack@.len() == end - done - k,
                forall|j: int| 0 <= j < stack@.len() ==> #[trigger] stack@[j] == came[end - done - 1 - j],
                forall|j: int| 0 <= j < came.len() ==> evaluated_with(ranges@, combinations@[done + j]@, #[trigger] came[j]) && candidate_ran(numbers, candles@, sub_bars, strategy, config, instrument, ranges@, objectives@, combinations@[done + j]@, came[j]),
                forall|j: int| 0 <= j < combinations@.len() ==> (#[trigger] combinations@[j])@.len() == ranges@.len(),
                forall|j: int| 0 <= j < valid@.len() ==> names_ranges(ranges@, #[trigger] valid@[j]),
                answered.len() == done + k,
                kept.len() == done + k,
                forall|j: int| 0 <= j < done + k ==> #[trigger] grid_answer_at(numbers, candles@, sub_bars, strategy, config, instrument, ranges@, objectives@, combinations@, answered, kept, j),
                valid@ == collected(kept, done + k),
            decreases end - done - k,
        {
            let current: usize = done + k + 1;
            let ghost answered_before = answered;
            let ghost kept_before = kept;
            let ghost valid_before = valid@;
            let ghost mut entry: Option<OptimizationResult<V>> = None;
            let answer = stack.pop();
            assert(answer == Some(came[k as int]));
            match answer {
                Some(Evaluated::Done(result)) => {
                    if greater(numbers, result.objective_value, best) {
                        best = result.objective_value;
                    }
                    if let Some(pct) = grid_progress(current, total) {
                        progress_callback(pct, current, total, best);
                    }
                    proof {
                        assert(evaluated_with(ranges@, combinations@[done + k]@, Evaluated::Done(result)));
                        assert(combinations@[done + k]@.len() == ranges@.len());
                        assert(names_ranges(ranges@, result));
                        entry = Some(result);
                    }
                    valid.push(result);
                },
                _ => {},
            }
            proof {
                answered = answered_before.push(came[k as int]);
                kept = kept_before.push(entry);
                assert(grid_answer_at(numbers, candles@, sub_bars, strategy, config, instrument, ranges@, objectives@, combinations@, answered, kept, done + k));
                assert forall|j: int| 0 <= j < done + k + 1 implies #[trigger] grid_answer_at(numbers, candles@, sub_bars, strategy, config, instrument, ranges@, objectives@, combinations@, answered, kept, j) by {
                    if j < done + k {
                        assert(grid_answer_at(numbers, candles@, sub_bars, strategy, config, instrument, ranges@, objectives@, combinations@, answered_before, kept_before, j));
                        assert(answered[j] == answered_before[j] && kept[j] == kept_before[j]);
                    }
                }
                lemma_collected_grows(kept_before, kept, done + k);
                assert(collected(kept, done + k + 1) == (match entry {
                    Some(t) => collected(kept, done + k).push(t),
                    None => collected(kept, done + k),
                }));
                assert(valid@ =~= collected(kept, done + k + 1));
            }
            k += 1;
        }
        done = end;
    }
    let ghost noted = valid@;
    assert(grid_answered(numbers, candles@, sub_bars, strategy, config, instrument, ranges@, objectives@, combinations@, answered, kept));
    assert(noted == collected(kept, kept.len() as int));
    compute_composite_scores(numbers, &mut valid, objectives);
    let ghost scored = valid@;
    assert(scores_set(numbers, noted, objectives@, scored));
    assert(forall|k: int| 0 <= k < scored.len() ==> names_ranges(ranges@, #[trigger] scored[k]));
    let top = rank_results(numbers, valid, objectives.len());
    proof {
        assert(is_top_of(scored, MAX_RESULTS as int, top@));
        let (keys, order) = choose|keys: Seq<i64>, order: Seq<usize>|
            {
                &&& #[trigger] is_ranking(keys, order)
                &&& keys.len() == scored.len()
                &&& top@.len() == shorter(MAX_RESULTS as int, scored.len() as int)
                &&& forall|k: int| 0 <= k < top@.len() ==> #[trigger] top@[k] == scored[order[k] as int]
            };
        assert forall|k: int| 0 <= k < top@.len() implies names_ranges(ranges@, #[trigger] top@[k]) by {
            assert(order[k] < keys.len());
            assert(top@[k] == scored[order[k] as int]);
        }
    }
    let r = Ok(top);
    proof {
        assert(is_top_ranked(numbers, scored, objectives@.len() > 1, MAX_RESULTS as int, r->Ok_0@));
        assert(grid_ranked(numbers, candles@, sub_bars, strategy, config, instrument, ranges@, objectives@, combinations@, r));
        assert(grid_searched(numbers, candles@, sub_bars, strategy, config, instrument, ranges@, objectives@, r));
    }
    r
}

/// Two parameter values agree: they have one name, and `numbers` finds the
/// values equal.
pub open spec fn agrees<V, N: Numbers<V>>(numbers: &N, a: ParamValue<V>, b: ParamValue<V>) -> bool {
    a.name@ == b.name@ && relates(numbers, a.value, b.value, Relation::Equal)
}

/// Two parameter values differ: in their names, or `numbers` finds the
/// values in another relation than equal.
pub open spec fn differs<V, N: Numbers<V>>(numbers: &N, a: ParamValue<V>, b: ParamValue<V>) -> bool {
    a.name@ != b.name@ || exists|r: Relation| #[trigger] relates(numbers, a.value, b.value, r) && r != Relation::Equal
}

/// Whether two results have the same parameter values under the same
/// names: as many, and each pair agrees; the answer is no where the numbers
/// differ or a pair differs.
fn same_params<V: Copy, N: Numbers<V>>(numbers: &N, a: &OptimizationResult<V>, b: &OptimizationResult<V>) -> (same: bool)
    ensures
        same ==> a.params@.len() == b.params@.len() && forall|i: int| 0 <= i < a.params@.len() ==> agrees(numbers, #[trigger] a.params@[i], b.params@[i]),
        !same ==> a.params@.len() != b.params@.len() || exists|i: int| 0 <= i < a.params@.len() && differs(numbers, #[trigger] a.params@[i], b.params@[i]),
{
    if a.params.len() != b.params.len() {
        return false;
    }
    let mut i: usize = 0;
    while i < a.params.len()
        invariant
            i <= a.params@.len(),
            a.params@.len() == b.params@.len(),
            forall|k: int| 0 <= k < i ==> agrees(numbers, #[trigger] a.params@[k], b.params@[k]),
        decreases a.params@.len() - i,
    {
        if !(a.params[i].name == b.params[i].name) {
            assert(differs(numbers, a.params@[i as int], b.params@[i as int]));
            return false;
        }
        let r = relation(numbers, a.params[i].value, b.params[i].value);
        match r {
            Relation::Equal => {},
            _ => {
                assert(differs(numbers, a.params@[i as int], b.params@[i as int]));
                return false;
            },
        }
        i += 1;
    }
    true
}

/// Positions in ascending order.
pub open spec fn ascending(positions: Seq<usize>) -> bool {
    forall|a: int, b: int| 0 <= a < b < positions.len() ==> #[trigger] positions[a] < #[trigger] positions[b]
}

/// `same` is a verdict on whether two results have the same parameter
/// values under the same names: yes only where they have as many and each
/// pair agrees, no only where the numbers differ or a pair differs.
pub open spec fn params_compared<V, N: Numbers<V>>(numbers: &N, a: OptimizationResult<V>, b: OptimizationResult<V>, same: bool) -> bool {
    &&& (same ==> a.params@.len() == b.params@.len() && forall|i: int| 0 <= i < a.params@.len() ==> agrees(numbers, #[trigger] a.params@[i], b.params@[i]))
    &&& (!same ==> a.params@.len() != b.params@.len() || exists|i: int| 0 <= i < a.params@.len() && differs(numbers, #[trigger] a.params@[i], b.params@[i]))
}

/// Position `i` is kept unless it repeats the parameters of the position
/// kept last: `kept[i]` says whether it is kept, and `lasts[i]` is the
/// position kept last after it.
pub open spec fn run_begun_at<V, N: Numbers<V>>(numbers: &N, results: Seq<OptimizationResult<V>>, kept: Seq<bool>, lasts: Seq<int>, i: int) -> bool {
    &&& (if i == 0 {
        kept[i]
    } else {
        exists|same: bool| #[trigger] params_compared(numbers, results[i], results[lasts[i - 1]], same) && kept[i] == !same
    })
    &&& lasts[i] == (if kept[i] {
        i
    } else {
        lasts[i - 1]
    })
    &&& 0 <= lasts[i] <= i
}

/// The positions among the first `n` that are kept, in order.
pub open spec fn kept_positions(kept: Seq<bool>, n: int) -> Seq<usize>
    decreases n,
{
    if n <= 0 {
        Seq::empty()
    } else if kept[n - 1] {
        kept_positions(kept, n - 1).push((n - 1) as usize)
    } else {
        kept_positions(kept, n - 1)
    }
}

/// `keep` are the positions to keep of a list of results: the list is gone
/// through from its start, every result that repeats the parameters of the
/// one kept last is dropped, and the walk ends with the list or when
/// `limit` positions are kept.
pub open spec fn runs_begun<V, N: Numbers<V>>(numbers: &N, results: Seq<OptimizationResult<V>>, limit: usize, keep: Seq<usize>) -> bool {
    exists|kept: Seq<bool>, lasts: Seq<int>|
        {
            &&& #[trigger] runs_walked(numbers, results, kept, lasts)
            &&& kept.len() <= results.len()
            &&& keep == kept_positions(kept, kept.len() as int)
            &&& keep.len() <= limit
            &&& (kept.len() == results.len() || keep.len() == limit)
        }
}

/// Every position that the walk came to is `run_begun_at`.
pub open spec fn runs_walked<V, N: Numbers<V>>(numbers: &N, results: Seq<OptimizationResult<V>>, kept: Seq<bool>, lasts: Seq<int>) -> bool {
    lasts.len() == kept.len() && forall|i: int| 0 <= i < kept.len() ==> #[trigger] run_begun_at(numbers, results, kept, lasts, i)
}

/// What was kept among the first positions is kept in any longer walk that
/// begins with them.
proof fn lemma_kept_grows(shorter: Seq<bool>, longer: Seq<bool>, n: int)
    requires
        0 <= n <= shorter.len() <= longer.len(),
        forall|k: int| 0 <= k < shorter.len() ==> shorter[k] == longer[k],
    ensures
        kept_positions(shorter, n) == kept_positions(longer, n),
    decreases n,
{
    if n > 0 {
        lemma_kept_grows(shorter, longer, n - 1);
    }
}

/// The positions to keep when every result that repeats the parameters of
/// the one kept last is dropped, up to `limit` of them.
fn first_of_runs<V: Copy, N: Numbers<V>>(numbers: &N, results: &Vec<OptimizationResult<V>>, limit: usize) -> (keep: Vec<usize>)
    ensures
        runs_begun(numbers, results@, limit, keep@),
        keep@.len() <= limit,
        ascending(keep@),
        forall|a: int| 0 <= a < keep@.len() ==> (#[trigger] keep@[a]) < results@.len(),
        results@.len() > 0 && limit > 0 ==> keep@.len() > 0 && keep@[0] == 0,
{
    let mut keep: Vec<usize> = Vec::new();
    let mut last: usize = 0;
    let ghost mut kept: Seq<bool> = Seq::empty();
    let ghost mut lasts: Seq<int> = Seq::empty();
    let mut i: usize = 0;
    while i < results.len() && keep.len() < limit
        invariant
            i <= results@.len(),
            keep@.len() <= limit,
            ascending(keep@),
            forall|a: int| 0 <= a < keep@.len() ==> (#[trigger] keep@[a]) < i,
            keep@.len() > 0 ==> last == keep@[keep@.len() - 1] && keep@[0] == 0,
            i > 0 ==> keep@.len() > 0,
            kept.len() == i,
            runs_walked(numbers, results@, kept, lasts),
            i > 0 ==> lasts[i - 1] == last,
            keep@ == kept_positions(kept, i as int),
        decreases results@.len() - i,
    {
        let ghost kept_before = kept;
        let ghost lasts_before = lasts;
        let ghost keep_before = keep@;
        let ghost mut verdict: bool = false;
        let repeated: bool = if keep.len() > 0 {
            let same = same_params(numbers, &results[i], &results[last]);
            proof {
                verdict = same;
            }
            same
        } else {
            false
        };
        if !repeated {
            keep.push(i);
            last = i;
        }
        proof {
            kept = kept_before.push(!repeated);
            lasts = lasts_before.push(last as int);
            if i > 0 {
                assert(params_compared(numbers, results@[i as int], results@[lasts[i - 1]], verdict));
            }
            assert(run_begun_at(numbers, results@, kept, lasts, i as int));
            assert forall|j: int| 0 <= j < i + 1 implies #[trigger] run_begun_at(numbers, results@, kept, lasts, j) by {
                if j < i {
                    assert(run_begun_at(numbers, results@, kept_before, lasts_before, j));
                    assert(kept[j] == kept_before[j] && lasts[j] == lasts_before[j]);
                    if j > 0 {
                        assert(lasts[j - 1] == lasts_before[j - 1]);
                    }
                }
            }
            lemma_kept_grows(kept_before, kept, i as int);
            assert(keep@ =~= kept_positions(kept, i + 1));
        }
        i += 1;
    }
    proof {
        assert(runs_begun(numbers, results@, limit, keep@));
    }
    keep
}

/// `out` holds items of `items` in rank order by some keys: it follows the
/// ranking from the best down and leaves some places out.
pub open spec fn is_ranked_selection<T>(items: Seq<T>, out: Seq<T>) -> bool {
    exists|keys: Seq<i64>, order: Seq<usize>, keep: Seq<usize>|
        {
            &&& #[trigger] is_ranking(keys, order)
            &&& keys.len() == items.len()
            &&& #[trigger] ascending(keep)
            &&& keep.len() == out.len()
            &&& forall|k: int| 0 <= k < keep.len() ==> (#[trigger] keep[k]) < order.len()
            &&& forall|k: int| 0 <= k < out.len() ==> #[trigger] out[k] == items[order[keep[k] as int] as int]
        }
}

/// `out` holds results of `items` in rank order by their scores: it
/// follows the ranking, by the keys by which `numbers` orders the scores,
/// from the best down, and keeps of it what `runs_begun` keeps, up to
/// `MAX_RESULTS`.
pub open spec fn is_selection_by<V, N: Numbers<V>>(numbers: &N, items: Seq<OptimizationResult<V>>, composite: bool, out: Seq<OptimizationResult<V>>) -> bool {
    exists|keys: Seq<i64>, order: Seq<usize>, keep: Seq<usize>|
        {
            &&& #[trigger] is_ranking(keys, order)
            &&& keys_of_scores(numbers, items, composite, keys)
            &&& #[trigger] ascending(keep)
            &&& keep.len() == out.len()
            &&& forall|k: int| 0 <= k < keep.len() ==> (#[trigger] keep[k]) < order.len()
            &&& forall|k: int| 0 <= k < out.len() ==> #[trigger] out[k] == items[order[keep[k] as int] as int]
            &&& runs_begun(numbers, Seq::new(order.len(), |k: int| items[order[k] as int]), MAX_RESULTS, keep)
        }
}

/// One generation of a genetic search, evaluated: its population, what
/// evaluating every individual came to, the results that were noted, and
/// the fitness of every individual.
pub struct Round<V> {
    pub population: Seq<Vec<V>>,
    pub answers: Seq<Evaluated<V>>,
    pub kept: Seq<Option<OptimizationResult<V>>>,
    pub fitness: Seq<i64>,
}

/// The value by which an answer counts: the objective value of a finished
/// run and of the placeholder of a failed one, and `lowest` for an
/// individual that was skipped.
pub open spec fn fitness_value<V>(answer: Evaluated<V>, lowest: V) -> V {
    match answer {
        Evaluated::Done(r) => r.objective_value,
        Evaluated::Failed(p) => p.objective_value,
        Evaluated::Skipped => lowest,
    }
}

/// Answer `k` is noted exactly where it is that of a finished run whose
/// objective value `numbers` finds greater than `lowest`; and fitness `k`
/// is the key by which `numbers` orders the value of the answer.
pub open spec fn judged_at<V, N: Numbers<V>>(numbers: &N, lowest: V, answers: Seq<Evaluated<V>>, kept: Seq<Option<OptimizationResult<V>>>, fitness: Seq<i64>, k: int) -> bool {
    &&& orders_as(numbers, fitness_value(answers[k], lowest), fitness[k])
    &&& match answers[k] {
        Evaluated::Done(r) => exists|over: Relation| #[trigger] relates(numbers, r.objective_value, lowest, over) && kept[k] == (if over.gt() {
            Some(r)
        } else {
            None
        }),
        _ => kept[k] is None,
    }
}

/// `kept` and `fitness` are how the answers of a generation were judged.
pub open spec fn round_judged<V, N: Numbers<V>>(numbers: &N, lowest: V, answers: Seq<Evaluated<V>>, kept: Seq<Option<OptimizationResult<V>>>, fitness: Seq<i64>) -> bool {
    &&& kept.len() == answers.len()
    &&& fitness.len() == answers.len()
    &&& forall|k: int| 0 <= k < answers.len() ==> #[trigger] judged_at(numbers, lowest, answers, kept, fitness, k)
}

/// Answer `k` of a round is what evaluating individual `k` came to.
pub open spec fn answered_at<V, N: Numbers<V>>(numbers: &N, candles: Seq<Candle<V>>, sub_bars: &SubBarData<V>, strategy: &Strategy<V>, config: &BacktestConfig<V>, instrument: &InstrumentConfig<V>, ranges: Seq<ParameterRange<V>>, objectives: Seq<ObjectiveFunction>, round: Round<V>, k: int) -> bool {
    evaluated_with(ranges, round.population[k]@, round.answers[k]) && candidate_ran(numbers, candles, sub_bars, strategy, config, instrument, ranges, objectives, round.population[k]@, round.answers[k])
}

/// A round was run: every individual was evaluated, and the answers were
/// judged.
pub open spec fn round_run<V, N: Numbers<V>>(numbers: &N, candles: Seq<Candle<V>>, sub_bars: &SubBarData<V>, strategy: &Strategy<V>, config: &BacktestConfig<V>, instrument: &InstrumentConfig<V>, ranges: Seq<ParameterRange<V>>, objectives: Seq<ObjectiveFunction>, lowest: V, round: Round<V>) -> bool {
    &&& round.answers.len() == round.population.len()
    &&& round_judged(numbers, lowest, round.answers, round.kept, round.fitness)
    &&& forall|k: int| 0 <= k < round.population.len() ==> #[trigger] answered_at(numbers, candles, sub_bars, strategy, config, instrument, ranges, objectives, round, k)
}

/// The population of round `g + 1` is bred from that of round `g` and its
/// fitness.
pub open spec fn bred_from_at<V, N: Numbers<V>>(numbers: &N, ranges: Seq<ParameterRange<V>>, ga: &GeneticAlgorithmConfig<V>, rounds: Seq<Round<V>>, g: int) -> bool {
    generation_bred(numbers, rounds[g].population, rounds[g].fitness, ga.population_size, ranges, ga.crossover_rate, ga.mutation_rate, rounds[g + 1].population)
}

/// Every individual of a population has one fresh gene for each range.
pub open spec fn population_sampled<V, N: Numbers<V>>(numbers: &N, ranges: Seq<ParameterRange<V>>, pop_size: usize, population: Seq<Vec<V>>) -> bool {
    population.len() == pop_size && forall|k: int| 0 <= k < population.len() ==> all_sampled(numbers, ranges, (#[trigger] population[k])@)
}

/// `rounds` are the generations of a genetic search, in order: the first
/// population is sampled, every later one is bred from the one before it,
/// and every round was run.
pub open spec fn lineage<V, N: Numbers<V>>(numbers: &N, candles: Seq<Candle<V>>, sub_bars: &SubBarData<V>, strategy: &Strategy<V>, config: &BacktestConfig<V>, instrument: &InstrumentConfig<V>, ranges: Seq<ParameterRange<V>>, objectives: Seq<ObjectiveFunction>, ga: &GeneticAlgorithmConfig<V>, lowest: V, rounds: Seq<Round<V>>) -> bool {
    &&& lowests(numbers, lowest)
    &&& (rounds.len() > 0 ==> population_sampled(numbers, ranges, ga.population_size, rounds[0].population))
    &&& forall|g: int| 0 <= g < rounds.len() ==> #[trigger] round_run(numbers, candles, sub_bars, strategy, config, instrument, ranges, objectives, lowest, rounds[g])
    &&& forall|g: int| 0 <= g < rounds.len() - 1 ==> #[trigger] bred_from_at(numbers, ranges, ga, rounds, g)
}

/// The results that the first `n` rounds noted, in order.
pub open spec fn noted_over<V>(rounds: Seq<Round<V>>, n: int) -> Seq<OptimizationResult<V>>
    decreases n,
{
    if n <= 0 {
        Seq::empty()
    } else {
        noted_over(rounds, n - 1) + collected(rounds[n - 1].kept, rounds[n - 1].kept.len() as int)
    }
}

/// `out` is the list that a genetic search of `generations` generations
/// returns: there is a lineage of that many rounds; the results that the
/// rounds noted get their composite scores; and the list is a selection of
/// them in rank order.
pub open spec fn bred_ranked<V, N: Numbers<V>>(numbers: &N, candles: Seq<Candle<V>>, sub_bars: &SubBarData<V>, strategy: &Strategy<V>, config: &BacktestConfig<V>, instrument: &InstrumentConfig<V>, ranges: Seq<ParameterRange<V>>, objectives: Seq<ObjectiveFunction>, ga: &GeneticAlgorithmConfig<V>, out: Seq<OptimizationResult<V>>) -> bool {
    exists|lowest: V, rounds: Seq<Round<V>>, scored: Seq<OptimizationResult<V>>|
        {
            &&& #[trigger] lineage(numbers, candles, sub_bars, strategy, config, instrument, ranges, objectives, ga, lowest, rounds)
            &&& rounds.len() == ga.generations
            &&& #[trigger] scores_set(numbers, noted_over(rounds, rounds.len() as int), objectives, scored)
            &&& is_selection_by(numbers, scored, objectives.len() > 1, out)
        }
}

/// What the rounds noted, a longer list of rounds that begins with them
/// noted too.
pub proof fn lemma_noted_grows<V>(shorter: Seq<Round<V>>, longer: Seq<Round<V>>, n: int)
    requires
        0 <= n <= shorter.len() <= longer.len(),
        forall|g: int| 0 <= g < shorter.len() ==> shorter[g] == longer[g],
    ensures
        noted_over(shorter, n) == noted_over(longer, n),
    decreases n,
{
    if n > 0 {
        lemma_noted_grows(shorter, longer, n - 1);
    }
}

/// Every entry that was collected is one of the entries that are present.
pub proof fn lemma_collected_kept<T>(kept: Seq<Option<T>>, n: int, j: int)
    requires
        0 <= n <= kept.len(),
        0 <= j < collected(kept, n).len(),
    ensures
        exists|at: int| 0 <= at < n && #[trigger] kept[at] == Some(collected(kept, n)[j]),
    decreases n,
{
    if n > 0 {
        if kept[n - 1] is Some && j == collected(kept, n - 1).len() {
            assert(kept[n - 1] == Some(collected(kept, n)[j]));
        } else {
            lemma_collected_kept(kept, n - 1, j);
            let at = choose|at: int| 0 <= at < n - 1 && #[trigger] kept[at] == Some(collected(kept, n - 1)[j]);
            assert(kept[at] == Some(collected(kept, n)[j]));
        }
    }
}

/// Judges the answers of a generation: notes the finished runs whose
/// objective value is above the lowest, in their order, raises the best
/// value so far, and gives every individual its fitness.
fn note_round<V: Copy, N: Numbers<V>>(numbers: &N, answers: Vec<Evaluated<V>>, lowest: V, best: V, noted: &mut Vec<OptimizationResult<V>>) -> (r: (Vec<i64>, V))
    ensures
        exists|kept: Seq<Option<OptimizationResult<V>>>| #[trigger] round_judged(numbers, lowest, answers@, kept, r.0@) && final(noted)@ == old(noted)@ + collected(kept, kept.len() as int),
{
    let ghost all = answers@;
    let ghost before = noted@;
    let count: usize = answers.len();
    let mut best: V = best;
    let mut fitness: Vec<i64> = Vec::new();
    let ghost mut kept: Seq<Option<OptimizationResult<V>>> = Seq::empty();
    let mut stack = turned(answers);
    let mut k: usize = 0;
    while k < count
        invariant
            k <= count,
            count == all.len(),
            fitness@.len() == k,
            kept.len() == k,
            stack@.len() == count - k,
            forall|j: int| 0 <= j < stack@.len() ==> #[trigger] stack@[j] == all[count - 1 - j],
            forall|j: int| 0 <= j < k ==> #[trigger] judged_at(numbers, lowest, all, kept, fitness@, j),
            noted@ == before + collected(kept, k as int),
        decreases count - k,
    {
        let ghost kept_before = kept;
        let ghost fitness_before = fitness@;
        let ghost noted_before = noted@;
        let ghost at = stack@.len() - 1;
        let ghost mut entry: Option<OptimizationResult<V>> = None;
        let answer = stack.pop();
        assert(answer == Some(all[k as int]));
        let value: V = match answer {
            Some(Evaluated::Done(result)) => {
                let value: V = result.objective_value;
                let over = relation(numbers, value, lowest);
                if over.is_gt() {
                    proof {
                        entry = Some(result);
                    }
                    noted.push(result);
                }
                if relation(numbers, value, best).is_gt() {
                    best = value;
                }
                value
            },
            Some(Evaluated::Failed(placeholder)) => placeholder.objective_value,
            _ => lowest,
        };
        let key: i64 = numbers.order_key(value);
        fitness.push(key);
        proof {
            kept = kept_before.push(entry);
            assert(value == fitness_value(all[k as int], lowest));
            assert(orders_as(numbers, fitness_value(all[k as int], lowest), fitness@[k as int]));
            assert(judged_at(numbers, lowest, all, kept, fitness@, k as int));
            assert forall|j: int| 0 <= j < k + 1 implies #[trigger] judged_at(numbers, lowest, all, kept, fitness@, j) by {
                if j < k {
                    assert(judged_at(numbers, lowest, all, kept_before, fitness_before, j));
                    assert(kept[j] == kept_before[j] && fitness@[j] == fitness_before[j]);
                }
            }
            lemma_collected_grows(kept_before, kept, k as int);
            assert(collected(kept, k + 1) == (match entry {
                Some(t) => collected(kept, k as int).push(t),
                None => collected(kept, k as int),
            }));
            assert(noted@ =~= before + collected(kept, k + 1));
        }
        k += 1;
    }
    let r = (fitness, best);
    proof {
        assert(round_judged(numbers, lowest, all, kept, r.0@));
        assert(kept.len() == count);
        assert(noted@ == before + collected(kept, kept.len() as int));
    }
    r
}

/// What a genetic search may fail with.
pub open spec fn genetic_search_error(e: AppError) -> bool {
    ||| e == AppError::OptimizationCancelled
    ||| (e matches AppError::OptimizationError(m) && m@ == "No parameter ranges specified"@)
    ||| (e matches AppError::InvalidConfig(m) && m@ == "Population size must be positive"@)
}

/// Runs a genetic search. Starts from a random population; in each
/// generation has the population evaluated, notes every finished run whose
/// objective value is above the lowest, and, unless it was the last
/// generation, breeds the next one. Cancellation is
/// checked before and after each evaluation and fails the search as a
/// whole. At the end the noted runs are scored and sorted from the best
/// down, runs that repeat the parameters of the run before them are
/// dropped, and at most `MAX_RESULTS` are returned.
///
/// After each generation `progress_callback` is told the percentage, the
/// generation, the number of generations and the best fitness so far.
pub fn run_genetic_algorithm<V: Copy + Send + Sync, N: Numbers<V> + Sync, C: Chance<V>, F: Fn(u8, usize, usize, V)>(
    candles: &Vec<Candle<V>>,
    sub_bars: &SubBarData<V>,
    strategy: &Strategy<V>,
    config: &BacktestConfig<V>,
    instrument: &InstrumentConfig<V>,
    numbers: &N,
    chance: &C,
    rng: &mut StdRng,
    ranges: &Vec<ParameterRange<V>>,
    objectives: &Vec<ObjectiveFunction>,
    ga_config: &GeneticAlgorithmConfig<V>,
    cancel_flag: &AtomicBool,
    progress_callback: F,
) -> (r: Result<Vec<OptimizationResult<V>>, AppError>)
    requires
        sub_bars.wf(),
        forall|p: u8, g: usize, n: usize, best: V| progress_callback.requires((p, g, n, best)),
    ensures
        ranges@.len() == 0 ==> (r matches Err(AppError::OptimizationError(m)) && m@ == "No parameter ranges specified"@),
        ranges@.len() > 0 && ga_config.population_size == 0 ==> (r matches Err(AppError::InvalidConfig(m)) && m@ == "Population size must be positive"@),
        ranges@.len() > 0 && ga_config.population_size > 0 && r is Err ==> r->Err_0 == AppError::OptimizationCancelled,
        ranges@.len() > 0 && ga_config.population_size > 0 && ga_config.generations == 0 ==> r is Ok && r->Ok_0@.len() == 0,
        r is Ok ==> bred_ranked(numbers, candles@, sub_bars, strategy, config, instrument, ranges@, objectives@, ga_config, r->Ok_0@),
        genetic_searched(numbers, candles@, sub_bars, strategy, config, instrument, ranges@, objectives@, ga_config, r),
        r is Ok ==> r->Ok_0@.len() <= MAX_RESULTS && exists|noted: Seq<OptimizationResult<V>>| #[trigger] is_ranked_selection(noted, r->Ok_0@),
        r is Ok ==> forall|k: int| 0 <= k < r->Ok_0@.len() ==> names_ranges(ranges@, #[trigger] r->Ok_0@[k]),
        r is Err ==> genetic_search_error(r->Err_0),
{
    let pop_size: usize = ga_config.population_size;
    let generations: usize = ga_config.generations;
    if ranges.len() == 0 {
        return Err(AppError::OptimizationError(String::from_str("No parameter ranges specified")));
    }
    if pop_size == 0 {
        return Err(AppError::InvalidConfig(String::from_str("Population size must be positive")));
    }
    let lowest: V = numbers.lowest();
    assert(lowests(numbers, lowest));
    let mut all_results: Vec<OptimizationResult<V>> = Vec::new();
    let mut population: Vec<Vec<V>> = random_population(numbers, pop_size, ranges, chance, rng);
    let mut global_best: V = lowest;
    let ghost mut rounds: Seq<Round<V>> = Seq::empty();
    let mut generation: usize = 0;
    while generation < generations
        invariant
            sub_bars.wf(),
            forall|p: u8, g: usize, n: usize, best: V| progress_callback.requires((p, g, n, best)),
            generation <= generations,
            pop_size > 0,
            pop_size == ga_config.population_size,
            generations == ga_config.generations,
            ranges@.len() > 0,
            population@.len() == pop_size,
            forall|k: int| 0 <= k < population@.len() ==> (#[trigger] population@[k])@.len() == ranges@.len(),
            forall|k: int| 0 <= k < all_results@.len() ==> names_ranges(ranges@, #[trigger] all_results@[k]),
            rounds.len() == generation,
            lineage(numbers, candles@, sub_bars, strategy, config, instrument, ranges@, objectives@, ga_config, lowest, rounds),
            generation == 0 ==> population_sampled(numbers, ranges@, pop_size, population@),
            0 < generation < generations ==> generation_bred(
                numbers,
                rounds[generation - 1].population,
                rounds[generation - 1].fitness,
                pop_size,
                ranges@,
                ga_config.crossover_rate,
                ga_config.mutation_rate,
                population@,
            ),
            all_results@ == noted_over(rounds, rounds.len() as int),
        decreases generations - generation,
    {
        if is_cancelled(cancel_flag) {
            return Err(AppError::OptimizationCancelled);
        }
        let answers = evaluate_all(numbers, candles, sub_bars, strategy, config, instrument, ranges, objectives, cancel_flag, population.as_slice());
        if is_cancelled(cancel_flag) {
            return Err(AppError::OptimizationCancelled);
        }
        let ghost answered = answers@;
        let ghost earlier = rounds;
        let ghost noted_before = all_results@;
        let judged = note_round(numbers, answers, lowest, global_best, &mut all_results);
        let fitness = judged.0;
        global_best = judged.1;
        proof {
            let kept = choose|kept: Seq<Option<OptimizationResult<V>>>| #[trigger] round_judged(numbers, lowest, answered, kept, fitness@) && all_results@ == noted_before + collected(kept, kept.len() as int);
            let round = Round { population: population@, answers: answered, kept, fitness: fitness@ };
            rounds = earlier.push(round);
            assert forall|k: int| 0 <= k < round.population.len() implies #[trigger] answered_at(numbers, candles@, sub_bars, strategy, config, instrument, ranges@, objectives@, round, k) by {
                assert(evaluated_with(ranges@, population@[k]@, answered[k]));
                assert(candidate_ran(numbers, candles@, sub_bars, strategy, config, instrument, ranges@, objectives@, population@[k]@, answered[k]));
            }
            assert(round_run(numbers, candles@, sub_bars, strategy, config, instrument, ranges@, objectives@, lowest, round));
            assert forall|g: int| 0 <= g < rounds.len() implies #[trigger] round_run(numbers, candles@, sub_bars, strategy, config, instrument, ranges@, objectives@, lowest, rounds[g]) by {
                if g < earlier.len() {
                    assert(rounds[g] == earlier[g]);
                    assert(round_run(numbers, candles@, sub_bars, strategy, config, instrument, ranges@, objectives@, lowest, earlier[g]));
                }
            }
            assert forall|g: int| 0 <= g < rounds.len() - 1 implies #[trigger] bred_from_at(numbers, ranges@, ga_config, rounds, g) by {
                if g < earlier.len() - 1 {
                    assert(bred_from_at(numbers, ranges@, ga_config, earlier, g));
                    assert(rounds[g] == earlier[g] && rounds[g + 1] == earlier[g + 1]);
                } else {
                    assert(rounds[g] == earlier[generation - 1]);
                    assert(rounds[g + 1].population == population@);
                }
            }
            assert(rounds[0].population == (if generation == 0 {
                population@
            } else {
                earlier[0].population
            }));
            assert(lineage(numbers, candles@, sub_bars, strategy, config, instrument, ranges@, objectives@, ga_config, lowest, rounds));
            lemma_noted_grows(earlier, rounds, earlier.len() as int);
            assert(all_results@ == noted_over(rounds, rounds.len() as int));
            assert forall|j: int| 0 <= j < all_results@.len() implies names_ranges(ranges@, #[trigger] all_results@[j]) by {
                if j >= noted_before.len() {
                    lemma_collected_kept(kept, kept.len() as int, j - noted_before.len());
                    let at = choose|at: int| 0 <= at < kept.len() && kept[at] == Some(all_results@[j]);
                    assert(judged_at(numbers, lowest, answered, kept, fitness@, at));
                    assert(answered[at] == Evaluated::Done(all_results@[j]));
                    assert(evaluated_with(ranges@, population@[at]@, answered[at]));
                    assert(population@[at]@.len() == ranges@.len());
                } else {
                    assert(all_results@[j] == noted_before[j]);
                }
            }
        }
        let pct: u8 = progress_percent(generation + 1, generations);
        progress_callback(pct, generation + 1, generations, global_best);
        generation += 1;
        if generation < generations {
            population = next_generation(numbers, &population, &fitness, pop_size, ranges, ga_config.crossover_rate, ga_config.mutation_rate, chance, rng);
        }
    }
    let ghost unscored = all_results@;
    compute_composite_scores(numbers, &mut all_results, objectives);
    let ghost noted = all_results@;
    assert(scores_set(numbers, unscored, objectives@, noted));
    assert(forall|k: int| 0 <= k < noted.len() ==> names_ranges(ranges@, #[trigger] noted[k]));
    let keys = ranking_keys(numbers, &all_results, objectives.len() > 1);
    let order = rank_order(&keys);
    let sorted = arrange(all_results, &order);
    let keep = first_of_runs(numbers, &sorted, MAX_RESULTS);
    proof {
        assert forall|a: int, b: int| 0 <= a < b < keep@.len() implies #[trigger] keep@[a] != #[trigger] keep@[b] by {
            assert(keep@[a] < keep@[b]);
        }
    }
    let top = arrange(sorted, &keep);
    proof {
        if ga_config.generations == 0 {
            assert(unscored.len() == 0);
            assert(noted.len() == 0);
            if keep@.len() > 0 {
                assert(keep@[0] < sorted@.len());
            }
            assert(top@.len() == 0);
        }
        assert forall|k: int| 0 <= k < top@.len() implies #[trigger] top@[k] == noted[order@[keep@[k] as int] as int] by {
            assert(top@[k] == sorted@[keep@[k] as int]);
        }
        assert(is_ranking(keys@, order@) && ascending(keep@));
        assert(is_ranked_selection(noted, top@));
        assert(keys_of_scores(numbers, noted, objectives@.len() > 1, keys@));
        assert(sorted@ =~= Seq::new(order@.len(), |k: int| noted[order@[k] as int]));
        assert(runs_begun(numbers, Seq::new(order@.len(), |k: int| noted[order@[k] as int]), MAX_RESULTS, keep@));
        assert(is_selection_by(numbers, noted, objectives@.len() > 1, top@));
        assert(unscored == noted_over(rounds, rounds.len() as int));
        assert(rounds.len() == ga_config.generations);
        assert(bred_ranked(numbers, candles@, sub_bars, strategy, config, instrument, ranges@, objectives@, ga_config, top@));
        assert forall|k: int| 0 <= k < top@.len() implies names_ranges(ranges@, #[trigger] top@[k]) by {
            assert(top@[k] == noted[order@[keep@[k] as int] as int]);
            assert(order@[keep@[k] as int] < keys@.len());
        }
    }
    Ok(top)
}

/// The value of the last among the first `n` parameter values that stands
/// under `name`, or `zero` where there is none.
pub open spec fn last_named<V>(params: Seq<ParamValue<V>>, name: Seq<char>, n: int, zero: V) -> V
    decreases n,
{
    if n <= 0 {
        zero
    } else if params[n - 1].name@ == name {
        params[n - 1].value
    } else {
        last_named(params, name, n - 1, zero)
    }
}

/// The value that a result holds under `name`: that of the last value of
/// this name, as later values of a name take the place of earlier ones; or
/// `zero` where it holds none.
pub open spec fn value_named<V>(params: Seq<ParamValue<V>>, name: Seq<char>, zero: V) -> V {
    last_named(params, name, params.len() as int, zero)
}

/// The value that a list of parameters holds under `name`, or `zero`.
fn value_of<V: Copy>(params: &Vec<ParamValue<V>>, name: &String, zero: V) -> (v: V)
    ensures
        v == value_named(params@, name@, zero),
{
    let mut i: usize = params.len();
    while i > 0
        invariant
            i <= params@.len(),
            value_named(params@, name@, zero) == last_named(params@, name@, i as int, zero),
        decreases i,
    {
        i -= 1;
        if params[i].name == *name {
            return params[i].value;
        }
    }
    zero
}

/// Reads the parameter vector of a result back: for each range the value
/// that the result holds under the range's display name, or `zero`.
pub fn param_values_of<V: Copy>(ranges: &Vec<ParameterRange<V>>, result: &OptimizationResult<V>, zero: V) -> (values: Vec<V>)
    ensures
        values@.len() == ranges@.len(),
        forall|i: int| 0 <= i < ranges@.len() ==> #[trigger] values@[i] == value_named(result.params@, ranges@[i].display_name@, zero),
{
    let mut values: Vec<V> = Vec::new();
    let mut i: usize = 0;
    while i < ranges.len()
        invariant
            i <= ranges@.len(),
            values@.len() == i,
            forall|k: int| 0 <= k < i ==> #[trigger] values@[k] == value_named(result.params@, ranges@[k].display_name@, zero),
        decreases ranges@.len() - i,
    {
        values.push(value_of(&result.params, &ranges[i].display_name, zero));
        i += 1;
    }
    values
}

/// The out-of-sample result of one period: the headline metrics of the run,
/// or zeros where there was no run to speak of.
pub open spec fn oos_of<V>(label: &String, metrics: Option<BacktestMetrics<V>>, zero: V, r: OosResult<V>) -> bool {
    &&& r.label == *label
    &&& match metrics {
        Some(m) => {
            &&& r.total_return_pct == m.total_return_pct
            &&& r.sharpe_ratio == m.sharpe_ratio
            &&& r.max_drawdown_pct == m.max_drawdown_pct
            &&& r.profit_factor == m.profit_factor
            &&& r.total_trades == m.total_trades
        },
        None => {
            &&& r.total_return_pct == zero
            &&& r.sharpe_ratio == zero
            &&& r.max_drawdown_pct == zero
            &&& r.profit_factor == zero
            &&& r.total_trades == 0
        },
    }
}

/// Builds the out-of-sample result of one period.
pub fn oos_result<V: Copy>(label: &String, metrics: &Option<BacktestMetrics<V>>, zero: V) -> (r: OosResult<V>)
    ensures
        oos_of(label, *metrics, zero, r),
{
    match metrics {
        Some(m) => OosResult {
            label: label.clone(),
            total_return_pct: m.total_return_pct,
            sharpe_ratio: m.sharpe_ratio,
            max_drawdown_pct: m.max_drawdown_pct,
            profit_factor: m.profit_factor,
            total_trades: m.total_trades,
        },
        None => OosResult {
            label: label.clone(),
            total_return_pct: zero,
            sharpe_ratio: zero,
            max_drawdown_pct: zero,
            profit_factor: zero,
            total_trades: 0,
        },
    }
}

/// The data of one out-of-sample period: its label, its candles and the
/// sub-bars that go with them.
pub struct OosData<V> {
    pub label: String,
    pub candles: Vec<Candle<V>>,
    pub sub_bars: SubBarData<V>,
}

/// A result with everything but its out-of-sample results as in `before`.
pub open spec fn with_oos<V>(before: OptimizationResult<V>, after: OptimizationResult<V>) -> bool {
    after == (OptimizationResult { oos_results: after.oos_results, ..before })
}

/// The out-of-sample results carry the labels of the periods, in order,
/// and the result of a period without candles is zero throughout.
pub open spec fn labelled<V>(oos: Seq<OosResult<V>>, periods: Seq<OosData<V>>, zero: V) -> bool {
    &&& oos.len() == periods.len()
    &&& forall|p: int| 0 <= p < oos.len() ==> (#[trigger] oos[p]).label == periods[p].label
    &&& forall|p: int| 0 <= p < oos.len() && periods[p].candles@.len() == 0 ==> oos_of(&periods[p].label, None, zero, #[trigger] oos[p])
}

/// Every result carries out-of-sample results that are `labelled`.
pub open spec fn all_labelled<V>(results: Seq<OptimizationResult<V>>, periods: Seq<OosData<V>>, zero: V) -> bool {
    forall|k: int| 0 <= k < results.len() ==> labelled((#[trigger] results[k]).oos_results@, periods, zero)
}

/// The values that a result holds for the ranges, in their order.
pub open spec fn values_read<V>(ranges: Seq<ParameterRange<V>>, params: Seq<ParamValue<V>>, zero: V) -> Seq<V> {
    Seq::new(ranges.len(), |i: int| value_named(params, ranges[i].display_name@, zero))
}

/// The metrics of the outcome of a run, if it finished.
pub open spec fn metrics_if_finished<V>(run: Result<BacktestResults<V>, AppError>) -> Option<BacktestMetrics<V>> {
    match run {
        Ok(out) => Some(out.metrics),
        Err(_) => None,
    }
}

/// Out-of-sample result `p` is that of a run of `patched` on the candles
/// of period `p`: its headline metrics, or zeros where the run failed.
pub open spec fn judged_on<V, N: Numbers<V>>(numbers: &N, config: &BacktestConfig<V>, instrument: &InstrumentConfig<V>, patched: &Strategy<V>, periods: Seq<OosData<V>>, zero: V, oos: Seq<OosResult<V>>, p: int) -> bool {
    exists|run: Result<BacktestResults<V>, AppError>| #[trigger] backtest_outcome(numbers, periods[p].candles@, &periods[p].sub_bars, patched, config, instrument, run) && oos_of(&periods[p].label, metrics_if_finished(run), zero, oos[p])
}

/// The out-of-sample results of a result are those of runs, one for each
/// period, of a copy of the strategy patched with the values that the
/// result holds for the ranges; the copy holds the same as the strategy.
pub open spec fn oos_run<V, N: Numbers<V>>(numbers: &N, strategy: &Strategy<V>, config: &BacktestConfig<V>, instrument: &InstrumentConfig<V>, ranges: Seq<ParameterRange<V>>, periods: Seq<OosData<V>>, zero: V, result: OptimizationResult<V>) -> bool {
    exists|copy: Strategy<V>, patched: Strategy<V>| #[trigger]
        patched_by(numbers, copy, ranges, values_read(ranges, result.params@, zero), patched) && same_strategy(copy, *strategy) && result.oos_results@.len() == periods.len() && forall|p: int| 0 <= p < periods.len() ==> #[trigger] judged_on(numbers, config, instrument, &patched, periods, zero, result.oos_results@, p)
}

/// Every result carries the out-of-sample results of its runs, with the
/// zero of `numbers` where there is nothing to report.
pub open spec fn all_judged<V, N: Numbers<V>>(numbers: &N, strategy: &Strategy<V>, config: &BacktestConfig<V>, instrument: &InstrumentConfig<V>, ranges: Seq<ParameterRange<V>>, periods: Seq<OosData<V>>, zero: V, results: Seq<OptimizationResult<V>>) -> bool {
    ints(numbers, 0, zero) && forall|k: int| 0 <= k < results.len() ==> #[trigger] oos_run(numbers, strategy, config, instrument, ranges, periods, zero, results[k])
}

/// Takes the out-of-sample results of the result at `i`.
fn set_oos<V>(results: &mut Vec<OptimizationResult<V>>, i: usize, oos: Vec<OosResult<V>>)
    requires
        i < old(results)@.len(),
    ensures
        final(results)@.len() == old(results)@.len(),
        forall|k: int| 0 <= k < old(results)@.len() && k != i ==> #[trigger] final(results)@[k] == old(results)@[k],
        with_oos(old(results)@[i as int], final(results)@[i as int]),
        final(results)@[i as int].oos_results == oos,
{
    let slot: &mut OptimizationResult<V> = &mut results[i];
    slot.oos_results = oos;
}

/// Evaluates each result on each out-of-sample period: reads the result's
/// parameter vector back, patches a copy of the strategy with it, runs a
/// backtest on the candles of the period and attaches the headline metrics
/// of the run. A period without candles, and a run that fails, give zeros.
/// The runs are not open to cancellation. Without periods nothing changes.
///
/// Whatever the runs yield: every result gets one out-of-sample result per
/// period, labelled as the periods are and zero where a period has no
/// candles, and nothing else of it changes.
pub fn run_oos_evaluation<V: Copy, N: Numbers<V>>(
    numbers: &N,
    strategy: &Strategy<V>,
    config: &BacktestConfig<V>,
    instrument: &InstrumentConfig<V>,
    ranges: &Vec<ParameterRange<V>>,
    periods: &Vec<OosData<V>>,
    results: &mut Vec<OptimizationResult<V>>,
)
    requires
        forall|p: int| 0 <= p < periods@.len() ==> (#[trigger] periods@[p]).sub_bars.wf(),
    ensures
        final(results)@.len() == old(results)@.len(),
        forall|k: int| 0 <= k < old(results)@.len() ==> with_oos(old(results)@[k], #[trigger] final(results)@[k]),
        periods@.len() == 0 ==> final(results)@ == old(results)@,
        periods@.len() > 0 ==> exists|zero: V| #[trigger] all_labelled(final(results)@, periods@, zero),
        periods@.len() > 0 ==> exists|zero: V| #[trigger] all_judged(numbers, strategy, config, instrument, ranges@, periods@, zero, final(results)@),
{
    if periods.len() == 0 {
        return;
    }
    let zero: V = numbers.from_int(0);
    assert(ints(numbers, 0, zero));
    let never = AtomicBool::new(false);
    let count: usize = results.len();
    let mut k: usize = 0;
    while k < count
        invariant
            forall|p: int| 0 <= p < periods@.len() ==> (#[trigger] periods@[p]).sub_bars.wf(),
            k <= count,
            results@.len() == count,
            count == old(results)@.len(),
            forall|j: int| 0 <= j < count ==> with_oos(old(results)@[j], #[trigger] results@[j]),
            forall|j: int| 0 <= j < k ==> labelled((#[trigger] results@[j]).oos_results@, periods@, zero),
            forall|j: int| 0 <= j < k ==> #[trigger] oos_run(numbers, strategy, config, instrument, ranges@, periods@, zero, results@[j]),
        decreases count - k,
    {
        let ghost held = results@;
        let values = param_values_of(ranges, &results[k], zero);
        let copy = copy_strategy(strategy);
        let ghost copied = copy;
        let patched = apply_params(numbers, copy, ranges, &values);
        assert(values@ =~= values_read(ranges@, results@[k as int].params@, zero));
        let mut oos: Vec<OosResult<V>> = Vec::new();
        let mut p: usize = 0;
        while p < periods.len()
            invariant
                forall|q: int| 0 <= q < periods@.len() ==> (#[trigger] periods@[q]).sub_bars.wf(),
                p <= periods@.len(),
                oos@.len() == p,
                forall|q: int| 0 <= q < p ==> (#[trigger] oos@[q]).label == periods@[q].label,
                forall|q: int| 0 <= q < p && periods@[q].candles@.len() == 0 ==> oos_of(&periods@[q].label, None, zero, #[trigger] oos@[q]),
                forall|q: int| 0 <= q < p ==> #[trigger] judged_on(numbers, config, instrument, &patched, periods@, zero, oos@, q),
            decreases periods@.len() - p,
        {
            let ghost oos_before = oos@;
            let period = &periods[p];
            let silent = |_percent: u8, _current: usize, _total: usize| {};
            let run = run_backtest(&period.candles, &period.sub_bars, &patched, config, instrument, numbers, &never, silent);
            let ghost outcome = run;
            assert(backtest_outcome(numbers, periods@[p as int].candles@, &periods@[p as int].sub_bars, &patched, config, instrument, outcome));
            let metrics: Option<BacktestMetrics<V>> = match run {
                Ok(finished) => Some(finished.metrics),
                Err(_) => None,
            };
            assert(metrics == metrics_if_finished(outcome));
            oos.push(oos_result(&period.label, &metrics, zero));
            proof {
                assert(judged_on(numbers, config, instrument, &patched, periods@, zero, oos@, p as int));
                assert forall|q: int| 0 <= q < p + 1 implies #[trigger] judged_on(numbers, config, instrument, &patched, periods@, zero, oos@, q) by {
                    if q < p {
                        assert(judged_on(numbers, config, instrument, &patched, periods@, zero, oos_before, q));
                        assert(oos@[q] == oos_before[q]);
                    }
                }
            }
            p += 1;
        }
        set_oos(results, k, oos);
        proof {
            assert(results@[k as int].params == held[k as int].params);
            assert(patched_by(numbers, copied, ranges@, values_read(ranges@, results@[k as int].params@, zero), patched));
            assert(oos_run(numbers, strategy, config, instrument, ranges@, periods@, zero, results@[k as int]));
            assert forall|j: int| 0 <= j < k + 1 implies #[trigger] oos_run(numbers, strategy, config, instrument, ranges@, periods@, zero, results@[j]) by {
                if j < k {
                    assert(results@[j] == held[j]);
                }
            }
        }
        k += 1;
    }
    assert(all_judged(numbers, strategy, config, instrument, ranges@, periods@, zero, results@));
    assert(all_labelled(results@, periods@, zero));
}

/// What a search as a whole may fail with: no candles, a genetic search
/// without its configuration, and the errors of the two searches.
pub open spec fn optimization_error<V>(ranges: Seq<ParameterRange<V>>, e: AppError) -> bool {
    ||| e == AppError::NoDataInRange
    ||| (e matches AppError::OptimizationError(m) && m@ == "Genetic Algorithm config required"@)
    ||| grid_search_error(ranges, e)
    ||| genetic_search_error(e)
}

/// `found` is the outcome of a genetic search: without ranges the error
/// that says so; else without a population the error that says so; else
/// the only error is cancellation, a search of no generations finishes
/// with an empty list, and a list is `bred_ranked`.
pub open spec fn genetic_searched<V, N: Numbers<V>>(numbers: &N, candles: Seq<Candle<V>>, sub_bars: &SubBarData<V>, strategy: &Strategy<V>, config: &BacktestConfig<V>, instrument: &InstrumentConfig<V>, ranges: Seq<ParameterRange<V>>, objectives: Seq<ObjectiveFunction>, ga: &GeneticAlgorithmConfig<V>, found: Result<Vec<OptimizationResult<V>>, AppError>) -> bool {
    if ranges.len() == 0 {
        found matches Err(AppError::OptimizationError(m)) && m@ == "No parameter ranges specified"@
    } else if ga.population_size == 0 {
        found matches Err(AppError::InvalidConfig(m)) && m@ == "Population size must be positive"@
    } else {
        &&& (ga.generations == 0 ==> found is Ok && found->Ok_0@.len() == 0)
        &&& match found {
            Ok(list) => bred_ranked(numbers, candles, sub_bars, strategy, config, instrument, ranges, objectives, ga, list@),
            Err(e) => e == AppError::OptimizationCancelled,
        }
    }
}

/// `found` is the outcome of the search that `optimization` configures: of
/// the grid search, or of the genetic search, which needs its
/// configuration.
pub open spec fn searched<V, N: Numbers<V>>(numbers: &N, candles: Seq<Candle<V>>, sub_bars: &SubBarData<V>, strategy: &Strategy<V>, instrument: &InstrumentConfig<V>, optimization: &OptimizationConfig<V>, found: Result<Vec<OptimizationResult<V>>, AppError>) -> bool {
    let ranges = optimization.parameter_ranges@;
    match optimization.method {
        OptimizationMethod::GridSearch => if ranges.len() == 0 {
            found matches Err(AppError::OptimizationError(m)) && m@ == "No parameter ranges specified"@
        } else {
            grid_searched(numbers, candles, sub_bars, strategy, &optimization.backtest_config, instrument, ranges, optimization.objectives@, found)
        },
        OptimizationMethod::GeneticAlgorithm => match optimization.ga_config {
            None => found matches Err(AppError::OptimizationError(m)) && m@ == "Genetic Algorithm config required"@,
            Some(ga) => genetic_searched(numbers, candles, sub_bars, strategy, &optimization.backtest_config, instrument, ranges, optimization.objectives@, &ga, found),
        },
    }
}

/// What a genetic search that has its configuration comes to, whatever the
/// runs yield: without ranges the error that says so; else without a
/// population the error that says so; else the only error is cancellation,
/// and a search of no generations finishes with an empty list.
pub open spec fn genetic_outcome<V>(ranges: Seq<ParameterRange<V>>, ga: &GeneticAlgorithmConfig<V>, r: Result<Vec<OptimizationResult<V>>, AppError>) -> bool {
    if ranges.len() == 0 {
        r matches Err(AppError::OptimizationError(m)) && m@ == "No parameter ranges specified"@
    } else if ga.population_size == 0 {
        r matches Err(AppError::InvalidConfig(m)) && m@ == "Population size must be positive"@
    } else {
        (r is Err ==> r->Err_0 == AppError::OptimizationCancelled) && (ga.generations == 0 ==> r is Ok && r->Ok_0@.len() == 0)
    }
}

/// `r` is the outcome of a search and its out-of-sample evaluation: the
/// error of the search; else the results of the search, each with its
/// out-of-sample results attached and nothing else changed.
pub open spec fn searched_and_judged<V, N: Numbers<V>>(numbers: &N, candles: Seq<Candle<V>>, sub_bars: &SubBarData<V>, strategy: &Strategy<V>, instrument: &InstrumentConfig<V>, optimization: &OptimizationConfig<V>, r: Result<Vec<OptimizationResult<V>>, AppError>) -> bool {
    exists|found: Result<Vec<OptimizationResult<V>>, AppError>| #[trigger]
        searched(numbers, candles, sub_bars, strategy, instrument, optimization, found) && (match found {
            Err(e) => r is Err && r->Err_0 == e,
            Ok(list) => r is Ok && r->Ok_0@.len() == list@.len() && forall|k: int| 0 <= k < list@.len() ==> with_oos(list@[k], #[trigger] r->Ok_0@[k]),
        })
}

/// Runs the search that `optimization` configures on `candles`, and then
/// evaluates its results on the out-of-sample periods.
///
/// Whatever the runs yield: without candles the search fails with
/// `NoDataInRange`, and a genetic search without its configuration fails
/// with an error that says so; there are at most `MAX_RESULTS` results, each
/// names one value per range and carries one out-of-sample result per
/// period, labelled as the periods are.
pub fn run_optimization<V: Copy + Send + Sync, N: Numbers<V> + Sync, C: Chance<V>, F: Fn(u8, usize, usize, V)>(
    candles: &Vec<Candle<V>>,
    sub_bars: &SubBarData<V>,
    oos_data: &Vec<OosData<V>>,
    strategy: &Strategy<V>,
    optimization: &OptimizationConfig<V>,
    instrument: &InstrumentConfig<V>,
    numbers: &N,
    chance: &C,
    rng: &mut StdRng,
    cancel_flag: &AtomicBool,
    progress_callback: F,
) -> (r: Result<Vec<OptimizationResult<V>>, AppError>)
    requires
        sub_bars.wf(),
        forall|p: int| 0 <= p < oos_data@.len() ==> (#[trigger] oos_data@[p]).sub_bars.wf(),
        forall|p: u8, c: usize, t: usize, best: V| progress_callback.requires((p, c, t, best)),
    ensures
        candles@.len() == 0 ==> r == Err::<Vec<OptimizationResult<V>>, AppError>(AppError::NoDataInRange),
        candles@.len() > 0 && optimization.method == OptimizationMethod::GeneticAlgorithm && optimization.ga_config is None ==> (r matches Err(
            AppError::OptimizationError(m),
        ) && m@ == "Genetic Algorithm config required"@),
        optimization.parameter_ranges@.len() == 0 ==> r is Err,
        candles@.len() > 0 && optimization.method == OptimizationMethod::GeneticAlgorithm && optimization.ga_config is Some ==> genetic_outcome(optimization.parameter_ranges@, &optimization.ga_config->Some_0, r),
        candles@.len() > 0 ==> searched_and_judged(numbers, candles@, sub_bars, strategy, instrument, optimization, r),
        r is Err ==> optimization_error(optimization.parameter_ranges@, r->Err_0),
        r is Ok ==> r->Ok_0@.len() <= MAX_RESULTS,
        r is Ok ==> forall|k: int| 0 <= k < r->Ok_0@.len() ==> names_ranges(optimization.parameter_ranges@, #[trigger] r->Ok_0@[k]),
        r is Ok && oos_data@.len() > 0 ==> exists|zero: V| #[trigger] all_labelled(r->Ok_0@, oos_data@, zero),
        r is Ok && oos_data@.len() > 0 ==> exists|zero: V| #[trigger] all_judged(numbers, strategy, &optimization.backtest_config, instrument, optimization.parameter_ranges@, oos_data@, zero, r->Ok_0@),
{
    if candles.len() == 0 {
        return Err(AppError::NoDataInRange);
    }
    let config = &optimization.backtest_config;
    let ranges = &optimization.parameter_ranges;
    let objectives = &optimization.objectives;
    let outcome = match optimization.method {
        OptimizationMethod::GridSearch => run_grid_search(candles, sub_bars, strategy, config, instrument, numbers, ranges, objectives, cancel_flag, progress_callback),
        OptimizationMethod::GeneticAlgorithm => match &optimization.ga_config {
            None => {
                let r = Err(AppError::OptimizationError(String::from_str("Genetic Algorithm config required")));
                assert(searched(numbers, candles@, sub_bars, strategy, instrument, optimization, r));
                assert(searched_and_judged(numbers, candles@, sub_bars, strategy, instrument, optimization, r));
                return r;
            },
            Some(ga_config) => run_genetic_algorithm(candles, sub_bars, strategy, config, instrument, numbers, chance, rng, ranges, objectives, ga_config, cancel_flag, progress_callback),
        },
    };
    let ghost sought = outcome;
    assert(searched(numbers, candles@, sub_bars, strategy, instrument, optimization, sought));
    let mut results = match outcome {
        Ok(found) => found,
        Err(e) => {
            let r = Err(e);
            assert(searched_and_judged(numbers, candles@, sub_bars, strategy, instrument, optimization, r));
            return r;
        },
    };
    let ghost found = results@;
    run_oos_evaluation(numbers, strategy, config, instrument, ranges, oos_data, &mut results);
    proof {
        assert forall|k: int| 0 <= k < results@.len() implies names_ranges(ranges@, #[trigger] results@[k]) by {
            assert(with_oos(found[k], results@[k]));
            assert(names_ranges(ranges@, found[k]));
        }
    }
    let ghost zero = choose|zero: V| #[trigger] all_labelled(results@, oos_data@, zero);
    let ghost nought = choose|nought: V| #[trigger] all_judged(numbers, strategy, config, instrument, ranges@, oos_data@, nought, results@);
    let r = Ok(results);
    assert(searched_and_judged(numbers, candles@, sub_bars, strategy, instrument, optimization, r));
    assert(oos_data@.len() > 0 ==> all_labelled(r->Ok_0@, oos_data@, zero));
    assert(oos_data@.len() > 0 ==> all_judged(numbers, strategy, &optimization.backtest_config, instrument, optimization.parameter_ranges@, oos_data@, nought, r->Ok_0@));
    r
}

} // verus!
