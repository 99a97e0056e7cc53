use vstd::prelude::*;
use crate::engine::averages::{
    ema, ema_made, gap_means_made, lemma_window_warmup, sma, sma_made, sma_on_slice,
};
use crate::engine::channels::{wilder, wilder_at};
use crate::engine::numeric::{
    adds, coss, distances, divs, exps, highests, ints, lowests, maxes, muls, negs, pick, pis, ratios,
    relates, roots, subs, Numbers, Relation,
};
use crate::engine::series::{
    all_blank, blank, blank_before, count, difference, filled, greatest_of, least_of, max_of,
    min_of, offset_from, offsets, parted, present_from, put, relation, store, sum_of, sums_to,
    whole,
};

verus! {

/// The three price arrays of one indicator have one length.
pub open spec fn aligned<V>(high: Seq<V>, low: Seq<V>, close: Seq<V>) -> bool {
    low.len() == high.len() && close.len() == high.len()
}

/// What the relative strength index is built from: its constants, the
/// gains and the losses of every bar, and their running averages.
pub struct Strength<V> {
    pub zero: V,
    pub one: V,
    pub hundred: V,
    pub n: V,
    pub scale: V,
    pub gains: Seq<V>,
    pub losses: Seq<V>,
    pub avg_gain: Seq<V>,
    pub avg_loss: Seq<V>,
}

/// Bar `i` has the change of its close from the close before as its gain
/// where `numbers` finds the change above zero, and else the change negated
/// as its loss; the other of the two is zero.
pub open spec fn moved_at<V, N: Numbers<V>>(numbers: &N, close: Seq<V>, zero: V, gains: Seq<V>, losses: Seq<V>, i: int) -> bool {
    exists|change: V| #[trigger]
        subs(numbers, close[i], close[i - 1], change) && exists|up: Relation| #[trigger]
            relates(numbers, change, zero, up) && (if up.gt() {
                gains[i] == change && losses[i] == zero
            } else {
                gains[i] == zero && negs(numbers, change, losses[i])
            })
}

/// `out` is the index of an average gain and an average loss: a hundred
/// where `numbers` finds the loss equal to zero; else a hundred less a
/// hundred over one plus the gain over the loss.
pub open spec fn strength_of<V, N: Numbers<V>>(numbers: &N, gain: V, loss: V, zero: V, one: V, hundred: V, out: V) -> bool {
    exists|flat: Relation| #[trigger]
        relates(numbers, loss, zero, flat) && (if flat == Relation::Equal {
            out == hundred
        } else {
            exists|ratio: V| #[trigger]
                divs(numbers, gain, loss, ratio) && exists|base: V| #[trigger] adds(numbers, one, ratio, base) && exists|part: V| #[trigger] divs(numbers, hundred, base, part) && subs(numbers, hundred, part, out)
        })
}

/// Entry `i` of the index is the index of the averages at `i`.
pub open spec fn indexed_at<V, N: Numbers<V>>(numbers: &N, avg_gain: Seq<V>, avg_loss: Seq<V>, zero: V, one: V, hundred: V, result: Seq<Option<V>>, i: int) -> bool {
    result[i] is Some && strength_of(numbers, avg_gain[i], avg_loss[i], zero, one, hundred, result[i]->Some_0)
}

/// The averages at `i` are those before, smoothed with the gain and the
/// loss of bar `i`.
pub open spec fn averaged_at<V, N: Numbers<V>>(numbers: &N, column: Seq<V>, scale: V, n: V, averages: Seq<V>, i: int) -> bool {
    wilder(numbers, averages[i - 1], column[i], scale, n, averages[i])
}

/// `out` is the mean of the `period` values of a column from the second
/// on.
pub open spec fn first_mean<V, N: Numbers<V>>(numbers: &N, column: Seq<V>, period: int, n: V, out: V) -> bool {
    exists|total: V| #[trigger] sums_to(numbers, column, 1, period + 1, total) && divs(numbers, total, n, out)
}

/// `parts` are what the index of the closes is built from, and `result`
/// is the index.
pub open spec fn strength_built<V, N: Numbers<V>>(numbers: &N, close: Seq<V>, period: usize, parts: Strength<V>, result: Seq<Option<V>>) -> bool {
    let len = close.len() as int;
    &&& ints(numbers, 0, parts.zero)
    &&& ints(numbers, 1, parts.one)
    &&& ints(numbers, 100, parts.hundred)
    &&& ints(numbers, whole(period), parts.n)
    &&& subs(numbers, parts.n, parts.one, parts.scale)
    &&& parts.gains.len() == len
    &&& parts.losses.len() == len
    &&& parts.avg_gain.len() == len
    &&& parts.avg_loss.len() == len
    &&& parts.gains[0] == parts.zero
    &&& parts.losses[0] == parts.zero
    &&& forall|i: int| 1 <= i < len ==> #[trigger] moved_at(numbers, close, parts.zero, parts.gains, parts.losses, i)
    &&& first_mean(numbers, parts.gains, period as int, parts.n, parts.avg_gain[period as int])
    &&& first_mean(numbers, parts.losses, period as int, parts.n, parts.avg_loss[period as int])
    &&& forall|i: int| period < i < len ==> #[trigger] averaged_at(numbers, parts.gains, parts.scale, parts.n, parts.avg_gain, i)
    &&& forall|i: int| period < i < len ==> #[trigger] averaged_at(numbers, parts.losses, parts.scale, parts.n, parts.avg_loss, i)
    &&& forall|i: int| period <= i < len ==> #[trigger] indexed_at(numbers, parts.avg_gain, parts.avg_loss, parts.zero, parts.one, parts.hundred, result, i)
}

/// `result` is the relative strength index of the closes: absent throughout
/// without a period or with no more closes than the period; else absent for
/// the first `period` bars, and from there on the index of the smoothed
/// gains and losses.
pub open spec fn rsi_made<V, N: Numbers<V>>(numbers: &N, close: Seq<V>, period: usize, result: Seq<Option<V>>) -> bool {
    &&& result.len() == close.len()
    &&& (if period == 0 || close.len() <= period {
        all_blank(result)
    } else {
        blank_before(result, period as int) && exists|parts: Strength<V>| #[trigger] strength_built(numbers, close, period, parts, result)
    })
}

/// The index of an average gain and an average loss.
fn strength<V: Copy, N: Numbers<V>>(numbers: &N, gain: V, loss: V, zero: V, one: V, hundred: V) -> (out: V)
    ensures
        strength_of(numbers, gain, loss, zero, one, hundred, out),
{
    match relation(numbers, loss, zero) {
        Relation::Equal => hundred,
        _ => {
            let ratio: V = numbers.div(gain, loss);
            let base: V = numbers.add(one, ratio);
            let part: V = numbers.div(hundred, base);
            assert(divs(numbers, gain, loss, ratio));
            assert(adds(numbers, one, ratio, base));
            assert(divs(numbers, hundred, base, part));
            numbers.sub(hundred, part)
        },
    }
}

/// Wilder's smoothing of `prev` with `value`.
fn smooth<V: Copy, N: Numbers<V>>(numbers: &N, prev: V, value: V, scale: V, n: V) -> (next: V)
    ensures
        wilder(numbers, prev, value, scale, n, next),
{
    let carried: V = numbers.mul(prev, scale);
    let total: V = numbers.add(carried, value);
    assert(muls(numbers, prev, scale, carried));
    assert(adds(numbers, carried, value, total));
    numbers.div(total, n)
}

/// Relative strength index with Wilder's smoothing: the first averages of
/// gains and losses are simple means of the first `period` changes, and the
/// index is 100 where there are no losses. The first `period` entries are
/// absent.
pub fn rsi<V: Copy, N: Numbers<V>>(numbers: &N, close: &Vec<V>, period: usize) -> (result: Vec<Option<V>>)
    ensures
        rsi_made(numbers, close@, period, result@),
        result@.len() == close@.len(),
        period == 0 || close@.len() <= period ==> all_blank(result@),
        period > 0 && close@.len() > period ==> present_from(result@, period as int),
{
    let len: usize = close.len();
    let mut result: Vec<Option<V>> = blank(len);
    if period == 0 || len <= period {
        return result;
    }
    let zero: V = numbers.from_int(0);
    let hundred: V = numbers.from_int(100);
    let one: V = numbers.from_int(1);
    let n: V = count(numbers, period);
    let scale: V = numbers.sub(n, one);
    let mut gains: Vec<V> = filled(zero, len);
    let mut losses: Vec<V> = filled(zero, len);
    let mut i: usize = 1;
    while i < len
        invariant
            1 <= i <= len,
            len == close@.len(),
            gains@.len() == len,
            losses@.len() == len,
            gains@[0] == zero,
            losses@[0] == zero,
            forall|k: int| i <= k < len ==> gains@[k] == zero && losses@[k] == zero,
            forall|k: int| 1 <= k < i ==> #[trigger] moved_at(numbers, close@, zero, gains@, losses@, k),
        decreases len - i,
    {
        let ghost gains_before = gains@;
        let ghost losses_before = losses@;
        let change: V = numbers.sub(close[i], close[i - 1]);
        assert(subs(numbers, close@[i as int], close@[i - 1], change));
        let up = relation(numbers, change, zero);
        if up.is_gt() {
            store(&mut gains, i, change);
        } else {
            let loss: V = numbers.neg(change);
            assert(negs(numbers, change, loss));
            store(&mut losses, i, loss);
        }
        proof {
            assert(moved_at(numbers, close@, zero, gains@, losses@, i as int));
            assert forall|k: int| 1 <= k < i + 1 implies #[trigger] moved_at(numbers, close@, zero, gains@, losses@, k) by {
                if k < i {
                    assert(moved_at(numbers, close@, zero, gains_before, losses_before, k));
                    assert(gains@[k] == gains_before[k]);
                    assert(losses@[k] == losses_before[k]);
                }
            }
        }
        i += 1;
    }
    let gain_total: V = sum_of(numbers, &gains, 1, period + 1);
    let loss_total: V = sum_of(numbers, &losses, 1, period + 1);
    let mut avg_gain: V = numbers.div(gain_total, n);
    let mut avg_loss: V = numbers.div(loss_total, n);
    let ghost mut gain_averages: Seq<V> = Seq::new(len as nat, |i: int| zero).update(period as int, avg_gain);
    let ghost mut loss_averages: Seq<V> = Seq::new(len as nat, |i: int| zero).update(period as int, avg_loss);
    assert(first_mean(numbers, gains@, period as int, n, gain_averages[period as int]));
    assert(first_mean(numbers, losses@, period as int, n, loss_averages[period as int]));
    let first: V = strength(numbers, avg_gain, avg_loss, zero, one, hundred);
    put(&mut result, period, first);
    assert(indexed_at(numbers, gain_averages, loss_averages, zero, one, hundred, result@, period as int));
    let mut i: usize = period + 1;
    while i < len
        invariant
            0 < period < i <= len,
            len == close@.len(),
            gains@.len() == len,
            losses@.len() == len,
            result@.len() == len,
            forall|k: int| 0 <= k < len ==> ((#[trigger] result@[k]) is Some <==> period <= k < i),
            gain_averages.len() == len && loss_averages.len() == len,
            gain_averages[i - 1] == avg_gain && loss_averages[i - 1] == avg_loss,
            first_mean(numbers, gains@, period as int, n, gain_averages[period as int]),
            first_mean(numbers, losses@, period as int, n, loss_averages[period as int]),
            forall|k: int| period < k < i ==> #[trigger] averaged_at(numbers, gains@, scale, n, gain_averages, k),
            forall|k: int| period < k < i ==> #[trigger] averaged_at(numbers, losses@, scale, n, loss_averages, k),
            forall|k: int| period <= k < i ==> #[trigger] indexed_at(numbers, gain_averages, loss_averages, zero, one, hundred, result@, k),
        decreases len - i,
    {
        let ghost gains_so_far = gain_averages;
        let ghost losses_so_far = loss_averages;
        let ghost before = result@;
        avg_gain = smooth(numbers, avg_gain, gains[i], scale, n);
        avg_loss = smooth(numbers, avg_loss, losses[i], scale, n);
        let value: V = strength(numbers, avg_gain, avg_loss, zero, one, hundred);
        put(&mut result, i, value);
        proof {
            gain_averages = gains_so_far.update(i as int, avg_gain);
            loss_averages = losses_so_far.update(i as int, avg_loss);
            assert(averaged_at(numbers, gains@, scale, n, gain_averages, i as int));
            assert(averaged_at(numbers, losses@, scale, n, loss_averages, i as int));
            assert(indexed_at(numbers, gain_averages, loss_averages, zero, one, hundred, result@, i as int));
            assert forall|k: int| period < k < i + 1 implies #[trigger] averaged_at(numbers, gains@, scale, n, gain_averages, k) by {
                if k < i {
                    assert(averaged_at(numbers, gains@, scale, n, gains_so_far, k));
                }
            }
            assert forall|k: int| period < k < i + 1 implies #[trigger] averaged_at(numbers, losses@, scale, n, loss_averages, k) by {
                if k < i {
                    assert(averaged_at(numbers, losses@, scale, n, losses_so_far, k));
                }
            }
            assert forall|k: int| period <= k < i + 1 implies #[trigger] indexed_at(numbers, gain_averages, loss_averages, zero, one, hundred, result@, k) by {
                if k < i {
                    assert(indexed_at(numbers, gains_so_far, losses_so_far, zero, one, hundred, before, k));
                    assert(result@[k] == before[k]);
                    assert(gain_averages[k] == gains_so_far[k]);
                    assert(loss_averages[k] == losses_so_far[k]);
                }
            }
        }
        i += 1;
    }
    proof {
        assert(ints(numbers, 0, zero) && ints(numbers, 1, one) && ints(numbers, 100, hundred));
        assert(subs(numbers, n, one, scale));
        let parts = Strength { zero, one, hundred, n, scale, gains: gains@, losses: losses@, avg_gain: gain_averages, avg_loss: loss_averages };
        assert(strength_built(numbers, close@, period, parts, result@));
    }
    result
}

/// `highest` and `lowest` are the highest high and the lowest low of the
/// bars from `from` up to `to`.
pub open spec fn window_range<V, N: Numbers<V>>(numbers: &N, high: Seq<V>, low: Seq<V>, from: int, to: int, highest: V, lowest: V) -> bool {
    &&& exists|floor: V| #[trigger] lowests(numbers, floor) && greatest_of(numbers, high, from, to, floor, highest)
    &&& exists|ceiling: V| #[trigger] highests(numbers, ceiling) && least_of(numbers, low, from, to, ceiling, lowest)
}

/// `out` is where `value` lies in the range from `lowest` to `highest`, in
/// percent: fifty where `numbers` finds the range equal to `zero`; else the
/// value less the lowest over the range, times a hundred.
pub open spec fn placed<V, N: Numbers<V>>(numbers: &N, value: V, highest: V, lowest: V, zero: V, out: V) -> bool {
    exists|range: V| #[trigger]
        subs(numbers, highest, lowest, range) && exists|flat: Relation| #[trigger]
            relates(numbers, range, zero, flat) && (if flat == Relation::Equal {
                ints(numbers, 50, out)
            } else {
                exists|above: V| #[trigger] subs(numbers, value, lowest, above) && exists|share: V| #[trigger] divs(numbers, above, range, share) && exists|hundred: V| #[trigger] ints(numbers, 100, hundred) && muls(numbers, share, hundred, out)
            })
}

/// Entry `i` of %K places close `i` in the range of the `k_period` bars
/// that end at `i`.
pub open spec fn placed_at<V, N: Numbers<V>>(numbers: &N, high: Seq<V>, low: Seq<V>, close: Seq<V>, k_period: int, zero: V, k: Seq<Option<V>>, i: int) -> bool {
    k[i] is Some && exists|highest: V, lowest: V| #[trigger] window_range(numbers, high, low, i + 1 - k_period, i + 1, highest, lowest) && placed(numbers, close[i], highest, lowest, zero, k[i]->Some_0)
}

/// `k` is the %K line: absent throughout without a period, else absent
/// before the first full window and from there on `placed_at`.
pub open spec fn percent_k_made<V, N: Numbers<V>>(numbers: &N, high: Seq<V>, low: Seq<V>, close: Seq<V>, k_period: usize, k: Seq<Option<V>>) -> bool {
    &&& k.len() == high.len()
    &&& (if k_period == 0 {
        all_blank(k)
    } else {
        blank_before(k, k_period - 1) && exists|zero: V| #[trigger] ints(numbers, 0, zero) && forall|i: int| k_period - 1 <= i < k.len() ==> #[trigger] placed_at(numbers, high, low, close, k_period as int, zero, k, i)
    })
}

/// Stochastic oscillator: %K places the close within the range of the last
/// `k_period` bars, 50 where the range is flat; %D is the mean of the last
/// `d_period` values of %K. Returns %K and %D.
pub fn stochastic<V: Copy, N: Numbers<V>>(numbers: &N, high: &Vec<V>, low: &Vec<V>, close: &Vec<V>, k_period: usize, d_period: usize) -> (r: (Vec<Option<V>>, Vec<Option<V>>))
    requires
        aligned(high@, low@, close@),
    ensures
        percent_k_made(numbers, high@, low@, close@, k_period, r.0@),
        gap_means_made(numbers, r.0@, d_period, r.1@),
        r.0@.len() == high@.len(),
        r.1@.len() == high@.len(),
        k_period == 0 ==> all_blank(r.0@),
        k_period > 0 ==> present_from(r.0@, k_period - 1),
        k_period > 0 && d_period > 0 ==> present_from(r.1@, k_period - 1 + d_period - 1),
{
    let len: usize = high.len();
    let mut k: Vec<Option<V>> = blank(len);
    if k_period > 0 {
        let zero: V = numbers.from_int(0);
        assert(ints(numbers, 0, zero));
        let mut i: usize = k_period - 1;
        while i < len
            invariant
                0 < k_period,
                k_period - 1 <= i,
                len == high@.len(),
                aligned(high@, low@, close@),
                k@.len() == len,
                ints(numbers, 0, zero),
                forall|j: int| 0 <= j < len ==> ((#[trigger] k@[j]) is Some <==> k_period - 1 <= j < i),
                forall|j: int| k_period - 1 <= j < i && j < len ==> #[trigger] placed_at(numbers, high@, low@, close@, k_period as int, zero, k@, j),
            decreases len - i,
        {
            let ghost before = k@;
            let floor: V = numbers.lowest();
            let ceiling: V = numbers.highest();
            assert(lowests(numbers, floor));
            assert(highests(numbers, ceiling));
            let highest: V = max_of(numbers, high, i + 1 - k_period, i + 1, floor);
            let lowest: V = min_of(numbers, low, i + 1 - k_period, i + 1, ceiling);
            assert(window_range(numbers, high@, low@, i + 1 - k_period, i + 1, highest, lowest));
            let range: V = numbers.sub(highest, lowest);
            assert(subs(numbers, highest, lowest, range));
            let value: V = match relation(numbers, range, zero) {
                Relation::Equal => numbers.from_int(50),
                _ => {
                    let above: V = numbers.sub(close[i], lowest);
                    let share: V = numbers.div(above, range);
                    let hundred: V = numbers.from_int(100);
                    assert(subs(numbers, close@[i as int], lowest, above));
                    assert(divs(numbers, above, range, share));
                    assert(ints(numbers, 100, hundred));
                    numbers.mul(share, hundred)
                },
            };
            assert(placed(numbers, close@[i as int], highest, lowest, zero, value));
            put(&mut k, i, value);
            proof {
                assert(placed_at(numbers, high@, low@, close@, k_period as int, zero, k@, i as int));
                assert forall|j: int| k_period - 1 <= j < i + 1 && j < len implies #[trigger] placed_at(numbers, high@, low@, close@, k_period as int, zero, k@, j) by {
                    if j < i {
                        assert(placed_at(numbers, high@, low@, close@, k_period as int, zero, before, j));
                        assert(k@[j] == before[j]);
                    }
                }
            }
            i += 1;
        }
        assert(percent_k_made(numbers, high@, low@, close@, k_period, k@));
    }
    assert(percent_k_made(numbers, high@, low@, close@, k_period, k@));
    let d = sma_on_slice(numbers, &k, d_period);
    proof {
        if k_period > 0 && d_period > 0 {
            lemma_window_warmup(k@, d@, d_period as int, k_period - 1);
        }
    }
    (k, d)
}

/// Entry `i` of a column is the typical price of bar `i`: high plus low
/// plus close, over three.
pub open spec fn typical_at<V, N: Numbers<V>>(numbers: &N, high: Seq<V>, low: Seq<V>, close: Seq<V>, three: V, tp: Seq<V>, i: int) -> bool {
    exists|range: V| #[trigger] adds(numbers, high[i], low[i], range) && exists|sum: V| #[trigger] adds(numbers, range, close[i], sum) && divs(numbers, sum, three, tp[i])
}

/// Step `k` of the sum of the distances of a window from its mean.
pub open spec fn strayed_at<V, N: Numbers<V>>(numbers: &N, tp: Seq<V>, from: int, mean: V, steps: Seq<V>, k: int) -> bool {
    exists|gap: V| #[trigger] distances(numbers, tp[from + k], mean, gap) && adds(numbers, steps[k], gap, steps[k + 1])
}

/// `steps` holds `zero` and then the sum so far of the distances of the
/// entries of the window from `mean`.
pub open spec fn window_strayed<V, N: Numbers<V>>(numbers: &N, tp: Seq<V>, from: int, to: int, mean: V, zero: V, steps: Seq<V>) -> bool {
    &&& steps.len() == to - from + 1
    &&& steps[0] == zero
    &&& forall|k: int| 0 <= k < to - from ==> #[trigger] strayed_at(numbers, tp, from, mean, steps, k)
}

/// `out` is the index of a value against the mean and the mean deviation
/// of its window: `zero` where `numbers` finds the mean deviation equal to
/// `zero`; else the value less the mean, over the factor times the mean
/// deviation.
pub open spec fn channelled<V, N: Numbers<V>>(numbers: &N, value: V, mean: V, mean_dev: V, factor: V, zero: V, out: V) -> bool {
    exists|flat: Relation| #[trigger]
        relates(numbers, mean_dev, zero, flat) && (if flat == Relation::Equal {
            out == zero
        } else {
            exists|above: V| #[trigger] subs(numbers, value, mean, above) && exists|scaled: V| #[trigger] muls(numbers, factor, mean_dev, scaled) && divs(numbers, above, scaled, out)
        })
}

/// Entry `i` is the index of typical price `i` against the `period`
/// typical prices that end at `i`.
pub open spec fn channelled_at<V, N: Numbers<V>>(numbers: &N, tp: Seq<V>, period: int, n: V, factor: V, zero: V, result: Seq<Option<V>>, i: int) -> bool {
    result[i] is Some && exists|mean: V, steps: Seq<V>|
        {
            &&& #[trigger] window_strayed(numbers, tp, i + 1 - period, i + 1, mean, zero, steps)
            &&& exists|total: V| #[trigger] sums_to(numbers, tp, i + 1 - period, i + 1, total) && divs(numbers, total, n, mean)
            &&& exists|mean_dev: V| #[trigger] divs(numbers, steps[period], n, mean_dev) && channelled(numbers, tp[i], mean, mean_dev, factor, zero, result[i]->Some_0)
        }
}

/// What the commodity channel index is built from: its constants and the
/// typical price of every bar.
pub struct Channel<V> {
    pub zero: V,
    pub three: V,
    pub n: V,
    pub factor: V,
    pub tp: Seq<V>,
}

/// `parts` are what the index of the bars is built from, and `result` is
/// the index.
pub open spec fn channel_built<V, N: Numbers<V>>(numbers: &N, high: Seq<V>, low: Seq<V>, close: Seq<V>, period: usize, parts: Channel<V>, result: Seq<Option<V>>) -> bool {
    &&& ints(numbers, 0, parts.zero)
    &&& ints(numbers, 3, parts.three)
    &&& ints(numbers, whole(period), parts.n)
    &&& ratios(numbers, 15, 1000, parts.factor)
    &&& parts.tp.len() == high.len()
    &&& forall|i: int| 0 <= i < high.len() ==> #[trigger] typical_at(numbers, high, low, close, parts.three, parts.tp, i)
    &&& forall|i: int| period - 1 <= i < result.len() ==> #[trigger] channelled_at(numbers, parts.tp, period as int, parts.n, parts.factor, parts.zero, result, i)
}

/// `result` is the commodity channel index of the bars: absent throughout
/// without a period; else absent before the first full window, and from
/// there on `channelled_at`.
pub open spec fn cci_made<V, N: Numbers<V>>(numbers: &N, high: Seq<V>, low: Seq<V>, close: Seq<V>, period: usize, result: Seq<Option<V>>) -> bool {
    &&& result.len() == high.len()
    &&& (if period == 0 {
        all_blank(result)
    } else {
        blank_before(result, period - 1) && exists|parts: Channel<V>| #[trigger] channel_built(numbers, high, low, close, period, parts, result)
    })
}

/// Commodity channel index on the typical price, zero where the mean
/// deviation is zero.
pub fn cci<V: Copy, N: Numbers<V>>(numbers: &N, high: &Vec<V>, low: &Vec<V>, close: &Vec<V>, period: usize) -> (result: Vec<Option<V>>)
    requires
        aligned(high@, low@, close@),
    ensures
        cci_made(numbers, high@, low@, close@, period, result@),
        result@.len() == high@.len(),
        period == 0 ==> all_blank(result@),
        period > 0 ==> present_from(result@, period - 1),
{
    let len: usize = high.len();
    let mut result: Vec<Option<V>> = blank(len);
    if period == 0 {
        return result;
    }
    let zero: V = numbers.from_int(0);
    let three: V = numbers.from_int(3);
    let n: V = count(numbers, period);
    let factor: V = numbers.ratio(15, 1000);
    proof {
        assert(ints(numbers, 0, zero));
        assert(ints(numbers, 3, three));
        assert(ratios(numbers, 15, 1000, factor));
    }
    let mut tp: Vec<V> = Vec::new();
    let mut i: usize = 0;
    while i < len
        invariant
            i <= len,
            len == high@.len(),
            aligned(high@, low@, close@),
            tp@.len() == i,
            forall|k: int| 0 <= k < i ==> #[trigger] typical_at(numbers, high@, low@, close@, three, tp@, k),
        decreases len - i,
    {
        let ghost column = tp@;
        let range: V = numbers.add(high[i], low[i]);
        let sum: V = numbers.add(range, close[i]);
        let typical: V = numbers.div(sum, three);
        assert(adds(numbers, high@[i as int], low@[i as int], range));
        assert(adds(numbers, range, close@[i as int], sum));
        tp.push(typical);
        assert forall|k: int| 0 <= k < i + 1 implies #[trigger] typical_at(numbers, high@, low@, close@, three, tp@, k) by {
            if k < i {
                assert(typical_at(numbers, high@, low@, close@, three, column, k));
            }
        }
        i += 1;
    }
    let mut i: usize = period - 1;
    while i < len
        invariant
            0 < period,
            period - 1 <= i,
            tp@.len() == len,
            result@.len() == len,
            forall|k: int| 0 <= k < len ==> ((#[trigger] result@[k]) is Some <==> period - 1 <= k < i),
            forall|k: int| period - 1 <= k < i && k < len ==> #[trigger] channelled_at(numbers, tp@, period as int, n, factor, zero, result@, k),
        decreases len - i,
    {
        let ghost before = result@;
        let from: usize = i + 1 - period;
        let total: V = sum_of(numbers, &tp, from, i + 1);
        let mean: V = numbers.div(total, n);
        let mut deviation: V = zero;
        let ghost mut steps: Seq<V> = seq![zero];
        let mut j: usize = from;
        while j <= i
            invariant
                from <= j <= i + 1,
                i < len,
                tp@.len() == len,
                window_strayed(numbers, tp@, from as int, j as int, mean, zero, steps),
                steps[j - from] == deviation,
            decreases i + 1 - j,
        {
            let ghost earlier = steps;
            let ghost so_far = deviation;
            let gap: V = numbers.distance(tp[j], mean);
            deviation = numbers.add(deviation, gap);
            proof {
                assert(distances(numbers, tp@[j as int], mean, gap));
                assert(adds(numbers, so_far, gap, deviation));
                steps = earlier.push(deviation);
                assert(earlier.len() == j - from + 1);
                assert(steps[j - from] == so_far);
                assert(steps[j - from + 1] == deviation);
                assert(tp@[from + (j - from)] == tp@[j as int]);
                assert(strayed_at(numbers, tp@, from as int, mean, steps, j - from));
                assert forall|k: int| 0 <= k < j + 1 - from implies #[trigger] strayed_at(numbers, tp@, from as int, mean, steps, k) by {
                    if k < j - from {
                        assert(strayed_at(numbers, tp@, from as int, mean, earlier, k));
                    }
                }
            }
            j += 1;
        }
        let mean_dev: V = numbers.div(deviation, n);
        let value: V = match relation(numbers, mean_dev, zero) {
            Relation::Equal => zero,
            _ => {
                let above: V = numbers.sub(tp[i], mean);
                let scaled: V = numbers.mul(factor, mean_dev);
                assert(subs(numbers, tp@[i as int], mean, above));
                assert(muls(numbers, factor, mean_dev, scaled));
                numbers.div(above, scaled)
            },
        };
        assert(channelled(numbers, tp@[i as int], mean, mean_dev, factor, zero, value));
        put(&mut result, i, value);
        proof {
            assert(window_strayed(numbers, tp@, i + 1 - period, i + 1, mean, zero, steps));
            assert(sums_to(numbers, tp@, i + 1 - period, i + 1, total) && divs(numbers, total, n, mean));
            assert(divs(numbers, steps[period as int], n, mean_dev));
            assert(channelled_at(numbers, tp@, period as int, n, factor, zero, result@, i as int));
            assert forall|k: int| period - 1 <= k < i + 1 && k < len implies #[trigger] channelled_at(numbers, tp@, period as int, n, factor, zero, result@, k) by {
                if k < i {
                    assert(channelled_at(numbers, tp@, period as int, n, factor, zero, before, k));
                    assert(result@[k] == before[k]);
                }
            }
        }
        i += 1;
    }
    proof {
        let parts = Channel { zero, three, n, factor, tp: tp@ };
        assert(channel_built(numbers, high@, low@, close@, period, parts, result@));
    }
    result
}

/// `out` is the change from `base` to `value` in percent of `base`.
pub open spec fn change_in_percent<V, N: Numbers<V>>(numbers: &N, value: V, base: V, hundred: V, out: V) -> bool {
    exists|change: V| #[trigger] subs(numbers, value, base, change) && exists|share: V| #[trigger] divs(numbers, change, base, share) && muls(numbers, share, hundred, out)
}

/// Entry `i` is the change of close `i` against the close `period` bars
/// back in percent, and absent where `numbers` finds that close equal to
/// `zero`.
pub open spec fn changed_at<V, N: Numbers<V>>(numbers: &N, close: Seq<V>, period: int, zero: V, hundred: V, result: Seq<Option<V>>, i: int) -> bool {
    exists|flat: Relation| #[trigger]
        relates(numbers, close[i - period], zero, flat) && (if flat == Relation::Equal {
            result[i] is None
        } else {
            result[i] is Some && change_in_percent(numbers, close[i], close[i - period], hundred, result[i]->Some_0)
        })
}

/// `result` is the rate of change of the closes: absent for the first
/// `period` bars, and from there on `changed_at`.
pub open spec fn roc_made<V, N: Numbers<V>>(numbers: &N, close: Seq<V>, period: usize, result: Seq<Option<V>>) -> bool {
    result.len() == close.len() && blank_before(result, period as int) && exists|zero: V, hundred: V| #[trigger] all_changed(numbers, close, period as int, zero, hundred, result) && ints(numbers, 0, zero) && ints(numbers, 100, hundred)
}

/// Every entry from `period` on is `changed_at`.
pub open spec fn all_changed<V, N: Numbers<V>>(numbers: &N, close: Seq<V>, period: int, zero: V, hundred: V, result: Seq<Option<V>>) -> bool {
    forall|i: int| period <= i < result.len() ==> #[trigger] changed_at(numbers, close, period, zero, hundred, result, i)
}

/// Rate of change in percent against the close `period` bars back. Absent
/// for the first `period` bars and wherever that close is zero.
pub fn roc<V: Copy, N: Numbers<V>>(numbers: &N, close: &Vec<V>, period: usize) -> (result: Vec<Option<V>>)
    ensures
        roc_made(numbers, close@, period, result@),
        result@.len() == close@.len(),
        blank_before(result@, period as int),
{
    let len: usize = close.len();
    let mut result: Vec<Option<V>> = blank(len);
    let zero: V = numbers.from_int(0);
    let hundred: V = numbers.from_int(100);
    assert(ints(numbers, 0, zero));
    assert(ints(numbers, 100, hundred));
    let mut i: usize = period;
    while i < len
        invariant
            period <= i,
            len == close@.len(),
            result@.len() == len,
            blank_before(result@, period as int),
            forall|k: int| i <= k < len ==> (#[trigger] result@[k]) is None,
            forall|k: int| period <= k < i && k < len ==> #[trigger] changed_at(numbers, close@, period as int, zero, hundred, result@, k),
        decreases len - i,
    {
        let ghost before = result@;
        let base: V = close[i - period];
        let flat = relation(numbers, base, zero);
        match flat {
            Relation::Equal => {},
            _ => {
                let change: V = numbers.sub(close[i], base);
                let share: V = numbers.div(change, base);
                let value: V = numbers.mul(share, hundred);
                assert(subs(numbers, close@[i as int], base, change));
                assert(divs(numbers, change, base, share));
                assert(change_in_percent(numbers, close@[i as int], base, hundred, value));
                put(&mut result, i, value);
            },
        }
        assert(changed_at(numbers, close@, period as int, zero, hundred, result@, i as int));
        assert forall|k: int| period <= k < i + 1 && k < len implies #[trigger] changed_at(numbers, close@, period as int, zero, hundred, result@, k) by {
            if k < i {
                assert(changed_at(numbers, close@, period as int, zero, hundred, before, k));
                assert(result@[k] == before[k]);
            }
        }
        i += 1;
    }
    assert(all_changed(numbers, close@, period as int, zero, hundred, result@));
    result
}

/// `out` is how far `value` lies below `highest` in the range down to
/// `lowest`, in percent below zero: minus fifty where `numbers` finds the
/// range equal to `zero`; else the highest less the value over the range,
/// times minus a hundred.
pub open spec fn placed_below<V, N: Numbers<V>>(numbers: &N, value: V, highest: V, lowest: V, zero: V, out: V) -> bool {
    exists|range: V| #[trigger]
        subs(numbers, highest, lowest, range) && exists|flat: Relation| #[trigger]
            relates(numbers, range, zero, flat) && (if flat == Relation::Equal {
                ints(numbers, -50i64, out)
            } else {
                exists|below: V| #[trigger] subs(numbers, highest, value, below) && exists|share: V| #[trigger] divs(numbers, below, range, share) && exists|scale: V| #[trigger] ints(numbers, -100i64, scale) && muls(numbers, share, scale, out)
            })
}

/// Entry `i` places close `i` below the highest high of the `period` bars
/// that end at `i`.
pub open spec fn placed_below_at<V, N: Numbers<V>>(numbers: &N, high: Seq<V>, low: Seq<V>, close: Seq<V>, period: int, zero: V, result: Seq<Option<V>>, i: int) -> bool {
    result[i] is Some && exists|highest: V, lowest: V| #[trigger] window_range(numbers, high, low, i + 1 - period, i + 1, highest, lowest) && placed_below(numbers, close[i], highest, lowest, zero, result[i]->Some_0)
}

/// `result` is Williams %R of the bars: absent throughout without a
/// period, else absent before the first full window and from there on
/// `placed_below_at`.
pub open spec fn williams_made<V, N: Numbers<V>>(numbers: &N, high: Seq<V>, low: Seq<V>, close: Seq<V>, period: usize, result: Seq<Option<V>>) -> bool {
    &&& result.len() == high.len()
    &&& (if period == 0 {
        all_blank(result)
    } else {
        blank_before(result, period - 1) && exists|zero: V| #[trigger] ints(numbers, 0, zero) && forall|i: int| period - 1 <= i < result.len() ==> #[trigger] placed_below_at(numbers, high, low, close, period as int, zero, result, i)
    })
}

/// Williams %R: where the close lies below the highest high of the last
/// `period` bars, from 0 down to -100; -50 where the range is flat.
pub fn williams_r<V: Copy, N: Numbers<V>>(numbers: &N, high: &Vec<V>, low: &Vec<V>, close: &Vec<V>, period: usize) -> (result: Vec<Option<V>>)
    requires
        aligned(high@, low@, close@),
    ensures
        williams_made(numbers, high@, low@, close@, period, result@),
        result@.len() == high@.len(),
        period == 0 ==> all_blank(result@),
        period > 0 ==> present_from(result@, period - 1),
{
    let len: usize = high.len();
    let mut result: Vec<Option<V>> = blank(len);
    if period == 0 {
        return result;
    }
    let zero: V = numbers.from_int(0);
    assert(ints(numbers, 0, zero));
    let mut i: usize = period - 1;
    while i < len
        invariant
            0 < period,
            period - 1 <= i,
            len == high@.len(),
            aligned(high@, low@, close@),
            result@.len() == len,
            ints(numbers, 0, zero),
            forall|k: int| 0 <= k < len ==> ((#[trigger] result@[k]) is Some <==> period - 1 <= k < i),
            forall|k: int| period - 1 <= k < i && k < len ==> #[trigger] placed_below_at(numbers, high@, low@, close@, period as int, zero, result@, k),
        decreases len - i,
    {
        let ghost before = result@;
        let floor: V = numbers.lowest();
        let ceiling: V = numbers.highest();
        assert(lowests(numbers, floor));
        assert(highests(numbers, ceiling));
        let highest: V = max_of(numbers, high, i + 1 - period, i + 1, floor);
        let lowest: V = min_of(numbers, low, i + 1 - period, i + 1, ceiling);
        assert(window_range(numbers, high@, low@, i + 1 - period, i + 1, highest, lowest));
        let range: V = numbers.sub(highest, lowest);
        assert(subs(numbers, highest, lowest, range));
        let value: V = match relation(numbers, range, zero) {
            Relation::Equal => numbers.from_int(-50),
            _ => {
                let below: V = numbers.sub(highest, close[i]);
                let share: V = numbers.div(below, range);
                let scale: V = numbers.from_int(-100);
                assert(subs(numbers, highest, close@[i as int], below));
                assert(divs(numbers, below, range, share));
                assert(ints(numbers, -100i64, scale));
                numbers.mul(share, scale)
            },
        };
        assert(placed_below(numbers, close@[i as int], highest, lowest, zero, value));
        put(&mut result, i, value);
        proof {
            assert(placed_below_at(numbers, high@, low@, close@, period as int, zero, result@, i as int));
            assert forall|k: int| period - 1 <= k < i + 1 && k < len implies #[trigger] placed_below_at(numbers, high@, low@, close@, period as int, zero, result@, k) by {
                if k < i {
                    assert(placed_below_at(numbers, high@, low@, close@, period as int, zero, before, k));
                    assert(result@[k] == before[k]);
                }
            }
        }
        i += 1;
    }
    result
}

/// Entry `i` is close `i` less the close `period` bars back.
pub open spec fn gained_at<V, N: Numbers<V>>(numbers: &N, close: Seq<V>, period: int, result: Seq<Option<V>>, i: int) -> bool {
    result[i] is Some && subs(numbers, close[i], close[i - period], result[i]->Some_0)
}

/// `result` is the momentum of the closes: absent for the first `period`
/// bars, and from there on the close less the close `period` bars back.
pub open spec fn momentum_made<V, N: Numbers<V>>(numbers: &N, close: Seq<V>, period: usize, result: Seq<Option<V>>) -> bool {
    result.len() == close.len() && blank_before(result, period as int) && forall|i: int| period <= i < result.len() ==> #[trigger] gained_at(numbers, close, period as int, result, i)
}

/// Momentum: the close less the close `period` bars back.
pub fn momentum<V: Copy, N: Numbers<V>>(numbers: &N, close: &Vec<V>, period: usize) -> (result: Vec<Option<V>>)
    ensures
        momentum_made(numbers, close@, period, result@),
        result@.len() == close@.len(),
        present_from(result@, period as int),
{
    let len: usize = close.len();
    let mut result: Vec<Option<V>> = blank(len);
    let mut i: usize = period;
    while i < len
        invariant
            period <= i,
            len == close@.len(),
            result@.len() == len,
            forall|k: int| 0 <= k < len ==> ((#[trigger] result@[k]) is Some <==> period <= k < i),
            forall|k: int| period <= k < i ==> #[trigger] gained_at(numbers, close@, period as int, result@, k),
        decreases len - i,
    {
        let ghost before = result@;
        let value: V = numbers.sub(close[i], close[i - period]);
        assert(subs(numbers, close@[i as int], close@[i - period], value));
        put(&mut result, i, value);
        assert forall|k: int| period <= k < i + 1 implies #[trigger] gained_at(numbers, close@, period as int, result@, k) by {
            if k < i {
                assert(gained_at(numbers, close@, period as int, before, k));
                assert(result@[k] == before[k]);
            }
        }
        i += 1;
    }
    result
}

/// `out` is the greatest of a bar's range and the distances `up` and
/// `down` of its high and low from the close before.
pub open spec fn widest<V, N: Numbers<V>>(numbers: &N, range: V, up: V, down: V, out: V) -> bool {
    exists|wider: V| #[trigger] maxes(numbers, range, up, wider) && maxes(numbers, wider, down, out)
}

/// `out` is the true range of bar `i`: the bar's range for the first bar,
/// else the greatest of the range and the two distances of its high and low
/// from the close before.
pub open spec fn true_range_of<V, N: Numbers<V>>(numbers: &N, high: Seq<V>, low: Seq<V>, close: Seq<V>, i: int, out: V) -> bool {
    exists|range: V| #[trigger]
        subs(numbers, high[i], low[i], range) && (if i == 0 {
            out == range
        } else {
            exists|up: V| #[trigger] distances(numbers, high[i], close[i - 1], up) && exists|down: V| #[trigger] distances(numbers, low[i], close[i - 1], down) && widest(numbers, range, up, down, out)
        })
}

/// The true range of bar `i`: the greatest of the bar's range and the two
/// distances of its high and low from the close before. The first bar has
/// its range.
pub(crate) fn true_range_at<V: Copy, N: Numbers<V>>(numbers: &N, high: &Vec<V>, low: &Vec<V>, close: &Vec<V>, i: usize) -> (out: V)
    requires
        aligned(high@, low@, close@),
        i < high@.len(),
    ensures
        true_range_of(numbers, high@, low@, close@, i as int, out),
{
    let hl: V = numbers.sub(high[i], low[i]);
    assert(subs(numbers, high@[i as int], low@[i as int], hl));
    if i == 0 {
        hl
    } else {
        let hc: V = numbers.distance(high[i], close[i - 1]);
        let lc: V = numbers.distance(low[i], close[i - 1]);
        let wider: V = numbers.max(hl, hc);
        let out: V = numbers.max(wider, lc);
        assert(distances(numbers, high@[i as int], close@[i - 1], hc));
        assert(distances(numbers, low@[i as int], close@[i - 1], lc));
        assert(maxes(numbers, hl, hc, wider));
        assert(widest(numbers, hl, hc, lc, out));
        out
    }
}

/// `out` is `part` in hundredths of `whole`: a hundred times the part over
/// the whole, or `zero` where `numbers` finds the whole equal to `zero`.
pub open spec fn share_or_zero<V, N: Numbers<V>>(numbers: &N, hundred: V, part: V, whole: V, zero: V, out: V) -> bool {
    exists|flat: Relation| #[trigger]
        relates(numbers, whole, zero, flat) && (if flat == Relation::Equal {
            out == zero
        } else {
            exists|scaled: V| #[trigger] muls(numbers, hundred, part, scaled) && divs(numbers, scaled, whole, out)
        })
}

/// `part` in hundredths of `whole`, or `zero` where the whole is zero.
fn share<V: Copy, N: Numbers<V>>(numbers: &N, hundred: V, part: V, whole: V, zero: V) -> (out: V)
    ensures
        share_or_zero(numbers, hundred, part, whole, zero, out),
{
    match relation(numbers, whole, zero) {
        Relation::Equal => zero,
        _ => {
            let scaled: V = numbers.mul(hundred, part);
            assert(muls(numbers, hundred, part, scaled));
            numbers.div(scaled, whole)
        },
    }
}

/// `out` is the index of two directional indicators: their distance in
/// hundredths of their sum, or `zero` where `numbers` finds the sum equal
/// to `zero`.
pub open spec fn index_of<V, N: Numbers<V>>(numbers: &N, hundred: V, plus: V, minus: V, zero: V, out: V) -> bool {
    exists|sum: V| #[trigger]
        adds(numbers, plus, minus, sum) && exists|flat: Relation| #[trigger]
            relates(numbers, sum, zero, flat) && (if flat == Relation::Equal {
                out == zero
            } else {
                exists|gap: V| #[trigger] distances(numbers, plus, minus, gap) && exists|scaled: V| #[trigger] muls(numbers, hundred, gap, scaled) && divs(numbers, scaled, sum, out)
            })
}

/// `out` is the directional index of one bar: the index of the two
/// smoothed directional movements, each in hundredths of the smoothed true
/// range.
pub open spec fn directional_of<V, N: Numbers<V>>(numbers: &N, smooth_tr: V, smooth_plus: V, smooth_minus: V, out: V) -> bool {
    exists|zero: V| #[trigger]
        ints(numbers, 0, zero) && exists|hundred: V| #[trigger]
            ints(numbers, 100, hundred) && exists|plus: V| #[trigger]
                share_or_zero(numbers, hundred, smooth_plus, smooth_tr, zero, plus) && exists|minus: V| #[trigger]
                    share_or_zero(numbers, hundred, smooth_minus, smooth_tr, zero, minus) && index_of(numbers, hundred, plus, minus, zero, out)
}

/// The directional index of one bar, from the smoothed true range and the
/// two smoothed directional movements; zero where a divisor is zero.
fn directional_index<V: Copy, N: Numbers<V>>(numbers: &N, smooth_tr: V, smooth_plus: V, smooth_minus: V) -> (out: V)
    ensures
        directional_of(numbers, smooth_tr, smooth_plus, smooth_minus, out),
{
    let zero: V = numbers.from_int(0);
    let hundred: V = numbers.from_int(100);
    assert(ints(numbers, 0, zero));
    assert(ints(numbers, 100, hundred));
    let plus_di: V = share(numbers, hundred, smooth_plus, smooth_tr, zero);
    let minus_di: V = share(numbers, hundred, smooth_minus, smooth_tr, zero);
    let di_sum: V = numbers.add(plus_di, minus_di);
    assert(adds(numbers, plus_di, minus_di, di_sum));
    let out: V = match relation(numbers, di_sum, zero) {
        Relation::Equal => zero,
        _ => {
            let gap: V = numbers.distance(plus_di, minus_di);
            let scaled: V = numbers.mul(hundred, gap);
            assert(distances(numbers, plus_di, minus_di, gap));
            assert(muls(numbers, hundred, gap, scaled));
            numbers.div(scaled, di_sum)
        },
    };
    assert(index_of(numbers, hundred, plus_di, minus_di, zero, out));
    out
}

/// `out` is a move in one direction: `this` where `numbers` finds it
/// greater than `other` and greater than `zero`, else `zero`.
pub open spec fn one_way<V, N: Numbers<V>>(numbers: &N, this: V, other: V, zero: V, out: V) -> bool {
    exists|over: Relation| #[trigger]
        relates(numbers, this, other, over) && (if over == Relation::Greater {
            exists|up: Relation| #[trigger] relates(numbers, this, zero, up) && out == (if up == Relation::Greater {
                this
            } else {
                zero
            })
        } else {
            out == zero
        })
}

/// A move in one direction, or zero.
fn directed<V: Copy, N: Numbers<V>>(numbers: &N, this: V, other: V, zero: V) -> (out: V)
    ensures
        one_way(numbers, this, other, zero, out),
{
    match relation(numbers, this, other) {
        Relation::Greater => match relation(numbers, this, zero) {
            Relation::Greater => this,
            _ => zero,
        },
        _ => zero,
    }
}

/// Entry `i` of the three columns of the directional system: the true
/// range of bar `i`, its move up (the rise of the high, where that is the
/// greater move and above zero) and its move down (the fall of the low,
/// likewise).
pub open spec fn bar_moved_at<V, N: Numbers<V>>(numbers: &N, high: Seq<V>, low: Seq<V>, close: Seq<V>, zero: V, tr: Seq<V>, plus: Seq<V>, minus: Seq<V>, i: int) -> bool {
    &&& true_range_of(numbers, high, low, close, i, tr[i])
    &&& exists|up: V| #[trigger]
        subs(numbers, high[i], high[i - 1], up) && exists|down: V| #[trigger]
            subs(numbers, low[i - 1], low[i], down) && one_way(numbers, up, down, zero, plus[i]) && one_way(numbers, down, up, zero, minus[i])
}

/// `next` carries the running sum `prev` on by `value`: the sum less its
/// `n`-th part, plus the value.
pub open spec fn carried<V, N: Numbers<V>>(numbers: &N, prev: V, value: V, n: V, next: V) -> bool {
    exists|part: V| #[trigger] divs(numbers, prev, n, part) && exists|rest: V| #[trigger] subs(numbers, prev, part, rest) && adds(numbers, rest, value, next)
}

/// Carries a running sum on by a value.
fn carry<V: Copy, N: Numbers<V>>(numbers: &N, prev: V, value: V, n: V) -> (next: V)
    ensures
        carried(numbers, prev, value, n, next),
{
    let part: V = numbers.div(prev, n);
    let rest: V = numbers.sub(prev, part);
    assert(divs(numbers, prev, n, part));
    assert(subs(numbers, prev, part, rest));
    numbers.add(rest, value)
}

/// Entry `k` of the running sums is the entry before it, carried on by the
/// value of the column at bar `period + k`.
pub open spec fn carried_at<V, N: Numbers<V>>(numbers: &N, column: Seq<V>, period: int, n: V, smooth: Seq<V>, k: int) -> bool {
    carried(numbers, smooth[k - 1], column[period + k], n, smooth[k])
}

/// `smooth` holds the running sums of a column from bar `period` on: the
/// sum of the `period` values after the first, and then each carried on by
/// the value of its bar.
pub open spec fn carried_run<V, N: Numbers<V>>(numbers: &N, column: Seq<V>, period: int, n: V, smooth: Seq<V>) -> bool {
    &&& smooth.len() == column.len() - period
    &&& sums_to(numbers, column, 1, period + 1, smooth[0])
    &&& forall|k: int| 1 <= k < smooth.len() ==> #[trigger] carried_at(numbers, column, period, n, smooth, k)
}

/// Entry `i` of the directional indices is that of the three running sums
/// at bar `i`.
pub open spec fn directed_at<V, N: Numbers<V>>(numbers: &N, smooth_tr: Seq<V>, smooth_plus: Seq<V>, smooth_minus: Seq<V>, period: int, dx: Seq<V>, i: int) -> bool {
    directional_of(numbers, smooth_tr[i - period], smooth_plus[i - period], smooth_minus[i - period], dx[i])
}

/// What the average directional index is built from: its constants, the
/// three columns, their running sums and the directional index of every
/// bar.
pub struct Directional<V> {
    pub zero: V,
    pub n: V,
    pub scale: V,
    pub tr: Seq<V>,
    pub plus: Seq<V>,
    pub minus: Seq<V>,
    pub smooth_tr: Seq<V>,
    pub smooth_plus: Seq<V>,
    pub smooth_minus: Seq<V>,
    pub dx: Seq<V>,
}

/// `parts` are what the average directional index of the bars is built
/// from, and `result` is that index: seeded at bar `2 * period - 1` with
/// the mean of the first `period` directional indices, and from there on
/// smoothed as Wilder has it.
pub open spec fn adx_built<V, N: Numbers<V>>(numbers: &N, high: Seq<V>, low: Seq<V>, close: Seq<V>, period: usize, parts: Directional<V>, result: Seq<Option<V>>) -> bool {
    &&& ints(numbers, 0, parts.zero)
    &&& ints(numbers, whole(period), parts.n)
    &&& exists|one: V| #[trigger] ints(numbers, 1, one) && subs(numbers, parts.n, one, parts.scale)
    &&& parts.tr.len() == high.len()
    &&& parts.plus.len() == high.len()
    &&& parts.minus.len() == high.len()
    &&& parts.dx.len() == high.len()
    &&& forall|i: int| 1 <= i < high.len() ==> #[trigger] bar_moved_at(numbers, high, low, close, parts.zero, parts.tr, parts.plus, parts.minus, i)
    &&& carried_run(numbers, parts.tr, period as int, parts.n, parts.smooth_tr)
    &&& carried_run(numbers, parts.plus, period as int, parts.n, parts.smooth_plus)
    &&& carried_run(numbers, parts.minus, period as int, parts.n, parts.smooth_minus)
    &&& forall|i: int| period <= i < high.len() ==> #[trigger] directed_at(numbers, parts.smooth_tr, parts.smooth_plus, parts.smooth_minus, period as int, parts.dx, i)
    &&& result[2 * period - 1] is Some
    &&& exists|total: V| #[trigger] sums_to(numbers, parts.dx, period as int, 2 * period, total) && divs(numbers, total, parts.n, result[2 * period - 1]->Some_0)
    &&& forall|i: int| 2 * period <= i < result.len() ==> #[trigger] wilder_at(numbers, parts.dx, parts.scale, parts.n, result, i)
}

/// `result` is the average directional index of the bars: absent
/// throughout without a period or with fewer than `2 * period + 1` bars;
/// else absent before bar `2 * period - 1`, and from there on `adx_built`.
pub open spec fn adx_made<V, N: Numbers<V>>(numbers: &N, high: Seq<V>, low: Seq<V>, close: Seq<V>, period: usize, result: Seq<Option<V>>) -> bool {
    &&& result.len() == high.len()
    &&& (if period == 0 || high.len() < 2 * period + 1 {
        all_blank(result)
    } else {
        blank_before(result, 2 * period - 1) && exists|parts: Directional<V>| #[trigger] adx_built(numbers, high, low, close, period, parts, result)
    })
}

/// The three columns of the directional system: true range, move up and
/// move down of every bar after the first, whose entries are `zero`.
fn directional_columns<V: Copy, N: Numbers<V>>(numbers: &N, high: &Vec<V>, low: &Vec<V>, close: &Vec<V>, zero: V) -> (columns: (Vec<V>, Vec<V>, Vec<V>))
    requires
        aligned(high@, low@, close@),
        high@.len() >= 1,
    ensures
        columns.0@.len() == high@.len(),
        columns.1@.len() == high@.len(),
        columns.2@.len() == high@.len(),
        forall|i: int| 1 <= i < high@.len() ==> #[trigger] bar_moved_at(numbers, high@, low@, close@, zero, columns.0@, columns.1@, columns.2@, i),
{
    let len: usize = high.len();
    let mut tr: Vec<V> = Vec::new();
    let mut plus_dm: Vec<V> = Vec::new();
    let mut minus_dm: Vec<V> = Vec::new();
    tr.push(zero);
    plus_dm.push(zero);
    minus_dm.push(zero);
    let mut i: usize = 1;
    while i < len
        invariant
            1 <= i <= len,
            len == high@.len(),
            aligned(high@, low@, close@),
            tr@.len() == i,
            plus_dm@.len() == i,
            minus_dm@.len() == i,
            forall|k: int| 1 <= k < i ==> #[trigger] bar_moved_at(numbers, high@, low@, close@, zero, tr@, plus_dm@, minus_dm@, k),
        decreases len - i,
    {
        let ghost ranges = tr@;
        let ghost ups = plus_dm@;
        let ghost downs = minus_dm@;
        let range: V = true_range_at(numbers, high, low, close, i);
        let up_move: V = numbers.sub(high[i], high[i - 1]);
        let down_move: V = numbers.sub(low[i - 1], low[i]);
        let plus: V = directed(numbers, up_move, down_move, zero);
        let minus: V = directed(numbers, down_move, up_move, zero);
        tr.push(range);
        plus_dm.push(plus);
        minus_dm.push(minus);
        proof {
            assert(subs(numbers, high@[i as int], high@[i - 1], up_move));
            assert(subs(numbers, low@[i - 1], low@[i as int], down_move));
            assert(bar_moved_at(numbers, high@, low@, close@, zero, tr@, plus_dm@, minus_dm@, i as int));
            assert forall|k: int| 1 <= k < i + 1 implies #[trigger] bar_moved_at(numbers, high@, low@, close@, zero, tr@, plus_dm@, minus_dm@, k) by {
                if k < i {
                    assert(bar_moved_at(numbers, high@, low@, close@, zero, ranges, ups, downs, k));
                }
            }
        }
        i += 1;
    }
    (tr, plus_dm, minus_dm)
}

/// The running sums of a column from bar `period` on.
fn running_carry<V: Copy, N: Numbers<V>>(numbers: &N, column: &Vec<V>, period: usize, n: V) -> (smooth: Vec<V>)
    requires
        0 < period < column@.len(),
    ensures
        carried_run(numbers, column@, period as int, n, smooth@),
{
    let len: usize = column.len();
    let mut prev: V = sum_of(numbers, column, 1, period + 1);
    let mut smooth: Vec<V> = Vec::new();
    smooth.push(prev);
    let mut i: usize = period + 1;
    while i < len
        invariant
            period < i <= len,
            len == column@.len(),
            smooth@.len() == i - period,
            smooth@[i - period - 1] == prev,
            sums_to(numbers, column@, 1, period + 1, smooth@[0]),
            forall|k: int| 1 <= k < i - period ==> #[trigger] carried_at(numbers, column@, period as int, n, smooth@, k),
        decreases len - i,
    {
        let ghost before = smooth@;
        let ghost last = prev;
        prev = carry(numbers, prev, column[i], n);
        smooth.push(prev);
        proof {
            assert(smooth@[i - period - 1] == last);
            assert(carried_at(numbers, column@, period as int, n, smooth@, i - period));
            assert forall|k: int| 1 <= k < i + 1 - period implies #[trigger] carried_at(numbers, column@, period as int, n, smooth@, k) by {
                if k < i - period {
                    assert(carried_at(numbers, column@, period as int, n, before, k));
                }
            }
        }
        i += 1;
    }
    smooth
}

/// The directional index of every bar from `period` on, from the running
/// sums of the three columns; the entries before are `zero`.
fn directional_indices<V: Copy, N: Numbers<V>>(numbers: &N, smooth_tr: &Vec<V>, smooth_plus: &Vec<V>, smooth_minus: &Vec<V>, period: usize, zero: V) -> (dx: Vec<V>)
    requires
        smooth_tr@.len() == smooth_plus@.len(),
        smooth_tr@.len() == smooth_minus@.len(),
        period + smooth_tr@.len() <= usize::MAX,
    ensures
        dx@.len() == period + smooth_tr@.len(),
        forall|i: int| period <= i < dx@.len() ==> #[trigger] directed_at(numbers, smooth_tr@, smooth_plus@, smooth_minus@, period as int, dx@, i),
{
    let len: usize = period + smooth_tr.len();
    let mut dx: Vec<V> = filled(zero, period);
    let mut i: usize = period;
    while i < len
        invariant
            period <= i <= len,
            len == period + smooth_tr@.len(),
            smooth_tr@.len() == smooth_plus@.len(),
            smooth_tr@.len() == smooth_minus@.len(),
            dx@.len() == i,
            forall|k: int| period <= k < i ==> #[trigger] directed_at(numbers, smooth_tr@, smooth_plus@, smooth_minus@, period as int, dx@, k),
        decreases len - i,
    {
        let ghost before = dx@;
        let index: V = directional_index(numbers, smooth_tr[i - period], smooth_plus[i - period], smooth_minus[i - period]);
        dx.push(index);
        proof {
            assert(directed_at(numbers, smooth_tr@, smooth_plus@, smooth_minus@, period as int, dx@, i as int));
            assert forall|k: int| period <= k < i + 1 implies #[trigger] directed_at(numbers, smooth_tr@, smooth_plus@, smooth_minus@, period as int, dx@, k) by {
                if k < i {
                    assert(directed_at(numbers, smooth_tr@, smooth_plus@, smooth_minus@, period as int, before, k));
                }
            }
        }
        i += 1;
    }
    dx
}

/// Average directional index with Wilder's smoothing. The first
/// `2 * period - 1` entries are absent; with fewer than `2 * period + 1`
/// bars all are.
pub fn adx<V: Copy, N: Numbers<V>>(numbers: &N, high: &Vec<V>, low: &Vec<V>, close: &Vec<V>, period: usize) -> (result: Vec<Option<V>>)
    requires
        aligned(high@, low@, close@),
    ensures
        adx_made(numbers, high@, low@, close@, period, result@),
        result@.len() == high@.len(),
        period == 0 || high@.len() < 2 * period + 1 ==> all_blank(result@),
        period > 0 && high@.len() >= 2 * period + 1 ==> present_from(result@, 2 * period - 1),
{
    let len: usize = high.len();
    let mut result: Vec<Option<V>> = blank(len);
    if period == 0 || len / 2 < period || len < 2 * period + 1 {
        return result;
    }
    let zero: V = numbers.from_int(0);
    let n: V = count(numbers, period);
    let one: V = numbers.from_int(1);
    let scale: V = numbers.sub(n, one);
    proof {
        assert(ints(numbers, 0, zero));
        assert(ints(numbers, 1, one));
        assert(subs(numbers, n, one, scale));
    }
    let columns = directional_columns(numbers, high, low, close, zero);
    let smooth_tr = running_carry(numbers, &columns.0, period, n);
    let smooth_plus = running_carry(numbers, &columns.1, period, n);
    let smooth_minus = running_carry(numbers, &columns.2, period, n);
    let dx = directional_indices(numbers, &smooth_tr, &smooth_plus, &smooth_minus, period, zero);
    let adx_start: usize = period * 2 - 1;
    let total: V = sum_of(numbers, &dx, period, adx_start + 1);
    let mut adx_val: V = numbers.div(total, n);
    assert(divs(numbers, total, n, adx_val));
    put(&mut result, adx_start, adx_val);
    let ghost seed = adx_val;
    let mut i: usize = adx_start + 1;
    while i < len
        invariant
            0 < period,
            adx_start == 2 * period - 1,
            adx_start < i <= len,
            dx@.len() == len,
            result@.len() == len,
            forall|k: int| 0 <= k < len ==> ((#[trigger] result@[k]) is Some <==> adx_start <= k < i),
            result@[i - 1] == Some(adx_val),
            result@[adx_start as int] == Some(seed),
            forall|k: int| adx_start < k < i ==> #[trigger] wilder_at(numbers, dx@, scale, n, result@, k),
        decreases len - i,
    {
        let ghost before = result@;
        let ghost prev = adx_val;
        let kept: V = numbers.mul(adx_val, scale);
        let sum: V = numbers.add(kept, dx[i]);
        adx_val = numbers.div(sum, n);
        put(&mut result, i, adx_val);
        proof {
            assert(muls(numbers, prev, scale, kept));
            assert(adds(numbers, kept, dx@[i as int], sum));
            assert(wilder(numbers, prev, dx@[i as int], scale, n, adx_val));
            assert forall|k: int| adx_start < k < i + 1 implies #[trigger] wilder_at(numbers, dx@, scale, n, result@, k) by {
                if k < i {
                    assert(wilder_at(numbers, dx@, scale, n, before, k));
                    assert(result@[k] == before[k]);
                    assert(result@[k - 1] == before[k - 1]);
                }
            }
        }
        i += 1;
    }
    proof {
        let parts = Directional {
            zero,
            n,
            scale,
            tr: columns.0@,
            plus: columns.1@,
            minus: columns.2@,
            smooth_tr: smooth_tr@,
            smooth_plus: smooth_plus@,
            smooth_minus: smooth_minus@,
            dx: dx@,
        };
        assert(sums_to(numbers, parts.dx, period as int, 2 * period, total));
        assert(adx_built(numbers, high@, low@, close@, period, parts, result@));
    }
    result
}

/// Entry `i` of the rises and of the falls: the rise of the high over the
/// high before, and the fall of the low under the low before, each zero at
/// least.
pub open spec fn stepped_at<V, N: Numbers<V>>(numbers: &N, high: Seq<V>, low: Seq<V>, zero: V, rises: Seq<Option<V>>, falls: Seq<Option<V>>, i: int) -> bool {
    &&& rises[i] is Some
    &&& falls[i] is Some
    &&& exists|rise: V| #[trigger] subs(numbers, high[i], high[i - 1], rise) && maxes(numbers, rise, zero, rises[i]->Some_0)
    &&& exists|fall: V| #[trigger] subs(numbers, low[i - 1], low[i], fall) && maxes(numbers, fall, zero, falls[i]->Some_0)
}

/// Entry `i` is the mean rise over the sum of the mean rise and the mean
/// fall, one half where `numbers` finds the sum equal to `zero`; it is
/// absent where one of the means is.
pub open spec fn demarked_at<V, N: Numbers<V>>(numbers: &N, zero: V, up: Seq<Option<V>>, down: Seq<Option<V>>, result: Seq<Option<V>>, i: int) -> bool {
    if up[i] is Some && down[i] is Some {
        result[i] is Some && exists|total: V| #[trigger]
            adds(numbers, up[i]->Some_0, down[i]->Some_0, total) && exists|flat: Relation| #[trigger]
                relates(numbers, total, zero, flat) && (if flat == Relation::Equal {
                    ratios(numbers, 1, 2, result[i]->Some_0)
                } else {
                    divs(numbers, up[i]->Some_0, total, result[i]->Some_0)
                })
    } else {
        result[i] is None
    }
}

/// What the DeMarker oscillator is built from: the rises of the highs and
/// the falls of the lows, and their means.
pub struct DeMark<V> {
    pub zero: V,
    pub rises: Seq<Option<V>>,
    pub falls: Seq<Option<V>>,
    pub up: Seq<Option<V>>,
    pub down: Seq<Option<V>>,
}

/// `parts` are what the DeMarker oscillator of the bars is built from, and
/// `result` is the oscillator.
pub open spec fn demark_built<V, N: Numbers<V>>(numbers: &N, high: Seq<V>, low: Seq<V>, period: usize, parts: DeMark<V>, result: Seq<Option<V>>) -> bool {
    &&& ints(numbers, 0, parts.zero)
    &&& parts.rises.len() == high.len()
    &&& parts.falls.len() == high.len()
    &&& (high.len() > 0 ==> parts.rises[0] is None && parts.falls[0] is None)
    &&& forall|i: int| 1 <= i < high.len() ==> #[trigger] stepped_at(numbers, high, low, parts.zero, parts.rises, parts.falls, i)
    &&& gap_means_made(numbers, parts.rises, period, parts.up)
    &&& gap_means_made(numbers, parts.falls, period, parts.down)
    &&& forall|i: int| 0 <= i < high.len() ==> #[trigger] demarked_at(numbers, parts.zero, parts.up, parts.down, result, i)
}

/// `result` is the DeMarker oscillator of the bars.
pub open spec fn demarker_made<V, N: Numbers<V>>(numbers: &N, high: Seq<V>, low: Seq<V>, period: usize, result: Seq<Option<V>>) -> bool {
    result.len() == high.len() && exists|parts: DeMark<V>| #[trigger] demark_built(numbers, high, low, period, parts, result)
}

/// DeMarker oscillator: the mean rise of the highs over the mean rise of
/// the highs plus the mean fall of the lows, one half where both are zero.
/// The first `period` entries are absent.
pub fn demarker<V: Copy, N: Numbers<V>>(numbers: &N, high: &Vec<V>, low: &Vec<V>, period: usize) -> (result: Vec<Option<V>>)
    requires
        low@.len() == high@.len(),
    ensures
        demarker_made(numbers, high@, low@, period, result@),
        result@.len() == high@.len(),
        period == 0 ==> all_blank(result@),
        period > 0 ==> present_from(result@, period as int),
{
    let len: usize = high.len();
    let zero: V = numbers.from_int(0);
    assert(ints(numbers, 0, zero));
    let mut de_max: Vec<Option<V>> = blank(len);
    let mut de_min: Vec<Option<V>> = blank(len);
    let mut i: usize = 1;
    while i < len
        invariant
            1 <= i,
            len == high@.len(),
            len == low@.len(),
            de_max@.len() == len,
            de_min@.len() == len,
            forall|k: int| 0 <= k < len ==> ((#[trigger] de_max@[k]) is Some <==> 1 <= k < i),
            forall|k: int| 0 <= k < len ==> ((#[trigger] de_min@[k]) is Some <==> 1 <= k < i),
            forall|k: int| 1 <= k < i && k < len ==> #[trigger] stepped_at(numbers, high@, low@, zero, de_max@, de_min@, k),
        decreases len - i,
    {
        let ghost rises = de_max@;
        let ghost falls = de_min@;
        let rise: V = numbers.sub(high[i], high[i - 1]);
        let fall: V = numbers.sub(low[i - 1], low[i]);
        let up: V = numbers.max(rise, zero);
        let down: V = numbers.max(fall, zero);
        put(&mut de_max, i, up);
        put(&mut de_min, i, down);
        proof {
            assert(subs(numbers, high@[i as int], high@[i - 1], rise));
            assert(subs(numbers, low@[i - 1], low@[i as int], fall));
            assert(maxes(numbers, rise, zero, up));
            assert(maxes(numbers, fall, zero, down));
            assert(stepped_at(numbers, high@, low@, zero, de_max@, de_min@, i as int));
            assert forall|k: int| 1 <= k < i + 1 && k < len implies #[trigger] stepped_at(numbers, high@, low@, zero, de_max@, de_min@, k) by {
                if k < i {
                    assert(stepped_at(numbers, high@, low@, zero, rises, falls, k));
                    assert(de_max@[k] == rises[k] && de_min@[k] == falls[k]);
                }
            }
        }
        i += 1;
    }
    let sma_max = sma_on_slice(numbers, &de_max, period);
    let sma_min = sma_on_slice(numbers, &de_min, period);
    let mut result: Vec<Option<V>> = blank(len);
    proof {
        if period > 0 {
            assert(present_from(de_max@, 1));
            assert(present_from(de_min@, 1));
            lemma_window_warmup(de_max@, sma_max@, period as int, 1);
            lemma_window_warmup(de_min@, sma_min@, period as int, 1);
        }
    }
    let mut i: usize = 0;
    while i < len
        invariant
            i <= len,
            sma_max@.len() == len,
            sma_min@.len() == len,
            result@.len() == len,
            forall|k: int| 0 <= k < len ==> ((#[trigger] result@[k]) is Some <==> k < i && sma_max@[k] is Some && sma_min@[k] is Some),
            forall|k: int| 0 <= k < i ==> #[trigger] demarked_at(numbers, zero, sma_max@, sma_min@, result@, k),
        decreases len - i,
    {
        let ghost before = result@;
        match (sma_max[i], sma_min[i]) {
            (Some(up), Some(down)) => {
                let total: V = numbers.add(up, down);
                assert(adds(numbers, up, down, total));
                let value: V = match relation(numbers, total, zero) {
                    Relation::Equal => {
                        let half: V = numbers.ratio(1, 2);
                        assert(ratios(numbers, 1, 2, half));
                        half
                    },
                    _ => numbers.div(up, total),
                };
                put(&mut result, i, value);
            },
            _ => {},
        }
        proof {
            assert(demarked_at(numbers, zero, sma_max@, sma_min@, result@, i as int));
            assert forall|k: int| 0 <= k < i + 1 implies #[trigger] demarked_at(numbers, zero, sma_max@, sma_min@, result@, k) by {
                if k < i {
                    assert(demarked_at(numbers, zero, sma_max@, sma_min@, before, k));
                    assert(result@[k] == before[k]);
                }
            }
        }
        i += 1;
    }
    proof {
        let parts = DeMark { zero, rises: de_max@, falls: de_min@, up: sma_max@, down: sma_min@ };
        assert(demark_built(numbers, high@, low@, period, parts, result@));
    }
    result
}

/// Step `j` of the search for the latest extreme of a window: position
/// `from + j` takes the place of the extreme so far where `numbers` finds
/// its value at least as great, on the upper side, or at most as great, on
/// the lower.
pub open spec fn sought_at<V, N: Numbers<V>>(numbers: &N, column: Seq<V>, from: int, upper: bool, places: Seq<int>, j: int) -> bool {
    exists|r: Relation| #[trigger] relates(numbers, column[from + j], column[places[j]], r) && places[j + 1] == (if (upper && r.ge()) || (!upper && r.le()) {
        from + j
    } else {
        places[j]
    })
}

/// `place` is the position of the latest extreme among the `count` entries
/// from `from` on.
pub open spec fn latest_extreme<V, N: Numbers<V>>(numbers: &N, column: Seq<V>, from: int, count: int, upper: bool, place: int) -> bool {
    exists|places: Seq<int>| #[trigger] extreme_sought(numbers, column, from, count, upper, places) && places[count] == place
}

/// The places of the search for the latest extreme, which begins at `from`.
pub open spec fn extreme_sought<V, N: Numbers<V>>(numbers: &N, column: Seq<V>, from: int, count: int, upper: bool, places: Seq<int>) -> bool {
    &&& places.len() == count + 1
    &&& places[0] == from
    &&& forall|j: int| 0 <= j < count ==> #[trigger] sought_at(numbers, column, from, upper, places, j)
}

/// `out` is how recent a position is, `since` bars back, in percent of the
/// period: the period less the bars since, over the period, times a
/// hundred.
pub open spec fn recency<V, N: Numbers<V>>(numbers: &N, since: usize, n: V, hundred: V, out: V) -> bool {
    exists|back: V| #[trigger] ints(numbers, whole(since), back) && exists|left: V| #[trigger] subs(numbers, n, back, left) && exists|share: V| #[trigger] divs(numbers, left, n, share) && muls(numbers, share, hundred, out)
}

/// Entry `i` of an Aroon line is the recency of the latest extreme among
/// the `period + 1` bars that end at `i`.
pub open spec fn aroon_at<V, N: Numbers<V>>(numbers: &N, column: Seq<V>, period: int, upper: bool, n: V, hundred: V, line: Seq<Option<V>>, i: int) -> bool {
    line[i] is Some && exists|place: int| #[trigger] latest_extreme(numbers, column, i - period, period + 1, upper, place) && i - period <= place <= i && recency(numbers, (i - place) as usize, n, hundred, line[i]->Some_0)
}

/// `up` and `down` are the Aroon lines of the bars: absent for the first
/// `period` bars, and from there on `aroon_at` of the highs and of the
/// lows.
pub open spec fn aroon_made<V, N: Numbers<V>>(numbers: &N, high: Seq<V>, low: Seq<V>, period: usize, up: Seq<Option<V>>, down: Seq<Option<V>>) -> bool {
    &&& up.len() == high.len()
    &&& down.len() == high.len()
    &&& blank_before(up, period as int)
    &&& blank_before(down, period as int)
    &&& exists|n: V, hundred: V| #[trigger] ints(numbers, whole(period), n) && #[trigger] ints(numbers, 100, hundred) && (forall|i: int| period <= i < high.len() ==> #[trigger] aroon_at(numbers, high, period as int, true, n, hundred, up, i)) && (forall|i: int|
        period <= i < high.len() ==> #[trigger] aroon_at(numbers, low, period as int, false, n, hundred, down, i))
}

/// The position of the latest extreme among the entries `from..=to`.
fn latest_extreme_of<V: Copy, N: Numbers<V>>(numbers: &N, column: &Vec<V>, from: usize, to: usize, upper: bool) -> (place: usize)
    requires
        from <= to < column@.len(),
    ensures
        from <= place <= to,
        latest_extreme(numbers, column@, from as int, to - from + 1, upper, place as int),
{
    let len: usize = column.len();
    let mut place: usize = from;
    let ghost mut places: Seq<int> = seq![from as int];
    let mut j: usize = from;
    while j <= to
        invariant
            from <= j <= to + 1,
            from <= place <= to,
            to < len,
            len == column@.len(),
            extreme_sought(numbers, column@, from as int, j - from, upper, places),
            places[j - from] == place,
        decreases to + 1 - j,
    {
        let ghost before = places;
        let ghost held = place;
        let r = relation(numbers, column[j], column[place]);
        if (upper && r.is_ge()) || (!upper && r.is_le()) {
            place = j;
        }
        proof {
            places = before.push(place as int);
            assert(before.len() == j - from + 1);
            assert(places[j - from] == held && places[j - from + 1] == place);
            assert(column@[from + (j - from)] == column@[j as int]);
            assert(sought_at(numbers, column@, from as int, upper, places, j - from));
            assert forall|k: int| 0 <= k < j + 1 - from implies #[trigger] sought_at(numbers, column@, from as int, upper, places, k) by {
                if k < j - from {
                    assert(sought_at(numbers, column@, from as int, upper, before, k));
                    assert(places[k] == before[k] && places[k + 1] == before[k + 1]);
                }
            }
        }
        j += 1;
    }
    place
}

/// How recent a position is, in percent of the period.
fn recency_of<V: Copy, N: Numbers<V>>(numbers: &N, since: usize, n: V, hundred: V) -> (out: V)
    ensures
        recency(numbers, since, n, hundred, out),
{
    let back: V = count(numbers, since);
    let left: V = numbers.sub(n, back);
    let share: V = numbers.div(left, n);
    assert(subs(numbers, n, back, left));
    assert(divs(numbers, left, n, share));
    numbers.mul(share, hundred)
}

/// Aroon: how recently, within the last `period + 1` bars, the highest high
/// and the lowest low occurred, from 100 for the latest bar down to 0.
/// Returns Aroon Up and Aroon Down.
pub fn aroon<V: Copy, N: Numbers<V>>(numbers: &N, high: &Vec<V>, low: &Vec<V>, period: usize) -> (r: (Vec<Option<V>>, Vec<Option<V>>))
    requires
        low@.len() == high@.len(),
    ensures
        aroon_made(numbers, high@, low@, period, r.0@, r.1@),
        r.0@.len() == high@.len(),
        r.1@.len() == high@.len(),
        present_from(r.0@, period as int),
        present_from(r.1@, period as int),
{
    let len: usize = high.len();
    let mut up: Vec<Option<V>> = blank(len);
    let mut down: Vec<Option<V>> = blank(len);
    let n: V = count(numbers, period);
    let hundred: V = numbers.from_int(100);
    assert(ints(numbers, 100, hundred));
    let mut i: usize = period;
    while i < len
        invariant
            period <= i,
            len == high@.len(),
            len == low@.len(),
            up@.len() == len,
            down@.len() == len,
            forall|k: int| 0 <= k < len ==> ((#[trigger] up@[k]) is Some <==> period <= k < i),
            forall|k: int| 0 <= k < len ==> ((#[trigger] down@[k]) is Some <==> period <= k < i),
            forall|k: int| period <= k < i && k < len ==> #[trigger] aroon_at(numbers, high@, period as int, true, n, hundred, up@, k),
            forall|k: int| period <= k < i && k < len ==> #[trigger] aroon_at(numbers, low@, period as int, false, n, hundred, down@, k),
        decreases len - i,
    {
        let ghost ups = up@;
        let ghost downs = down@;
        let start: usize = i - period;
        let max_idx: usize = latest_extreme_of(numbers, high, start, i, true);
        let min_idx: usize = latest_extreme_of(numbers, low, start, i, false);
        let rise: V = recency_of(numbers, i - max_idx, n, hundred);
        let fall: V = recency_of(numbers, i - min_idx, n, hundred);
        put(&mut up, i, rise);
        put(&mut down, i, fall);
        proof {
            assert(latest_extreme(numbers, high@, i - period, period + 1, true, max_idx as int));
            assert(latest_extreme(numbers, low@, i - period, period + 1, false, min_idx as int));
            assert(aroon_at(numbers, high@, period as int, true, n, hundred, up@, i as int));
            assert(aroon_at(numbers, low@, period as int, false, n, hundred, down@, i as int));
            assert forall|k: int| period <= k < i + 1 && k < len implies #[trigger] aroon_at(numbers, high@, period as int, true, n, hundred, up@, k) by {
                if k < i {
                    assert(aroon_at(numbers, high@, period as int, true, n, hundred, ups, k));
                    assert(up@[k] == ups[k]);
                }
            }
            assert forall|k: int| period <= k < i + 1 && k < len implies #[trigger] aroon_at(numbers, low@, period as int, false, n, hundred, down@, k) by {
                if k < i {
                    assert(aroon_at(numbers, low@, period as int, false, n, hundred, downs, k));
                    assert(down@[k] == downs[k]);
                }
            }
        }
        i += 1;
    }
    (up, down)
}

/// Entry `i` of a column is the midpoint of bar `i`: high plus low, over
/// `two`.
pub open spec fn midpoint_at<V, N: Numbers<V>>(numbers: &N, high: Seq<V>, low: Seq<V>, two: V, column: Seq<V>, i: int) -> bool {
    exists|sum: V| #[trigger] adds(numbers, high[i], low[i], sum) && divs(numbers, sum, two, column[i])
}

/// `column` holds the midpoint of every bar.
pub open spec fn midpoints<V, N: Numbers<V>>(numbers: &N, high: Seq<V>, low: Seq<V>, two: V, column: Seq<V>) -> bool {
    ints(numbers, 2, two) && column.len() == high.len() && forall|i: int| 0 <= i < high.len() ==> #[trigger] midpoint_at(numbers, high, low, two, column, i)
}

/// `result` is the awesome oscillator of the bars: the simple average of
/// the last 5 midpoints less that of the last 34.
pub open spec fn awesome_made<V, N: Numbers<V>>(numbers: &N, high: Seq<V>, low: Seq<V>, result: Seq<Option<V>>) -> bool {
    exists|two: V, column: Seq<V>| #[trigger]
        midpoints(numbers, high, low, two, column) && exists|short: Seq<Option<V>>, long: Seq<Option<V>>| #[trigger] sma_made(numbers, column, 5, short) && #[trigger] sma_made(numbers, column, 34, long) && parted(numbers, short, long, result)
}

/// Awesome oscillator: the 5-bar mean of the bar midpoints less their
/// 34-bar mean.
pub fn awesome_oscillator<V: Copy, N: Numbers<V>>(numbers: &N, high: &Vec<V>, low: &Vec<V>) -> (result: Vec<Option<V>>)
    requires
        low@.len() == high@.len(),
    ensures
        awesome_made(numbers, high@, low@, result@),
        result@.len() == high@.len(),
        high@.len() < 34 ==> all_blank(result@),
        high@.len() >= 34 ==> present_from(result@, 33),
{
    let len: usize = high.len();
    let two: V = numbers.from_int(2);
    let mut midpoint: Vec<V> = Vec::new();
    let mut i: usize = 0;
    while i < len
        invariant
            i <= len,
            len == high@.len(),
            len == low@.len(),
            midpoint@.len() == i,
            forall|k: int| 0 <= k < i ==> #[trigger] midpoint_at(numbers, high@, low@, two, midpoint@, k),
        decreases len - i,
    {
        let ghost before = midpoint@;
        let sum: V = numbers.add(high[i], low[i]);
        let middle: V = numbers.div(sum, two);
        midpoint.push(middle);
        proof {
            assert(adds(numbers, high@[i as int], low@[i as int], sum));
            assert(midpoint_at(numbers, high@, low@, two, midpoint@, i as int));
            assert forall|k: int| 0 <= k < i + 1 implies #[trigger] midpoint_at(numbers, high@, low@, two, midpoint@, k) by {
                if k < i {
                    assert(midpoint_at(numbers, high@, low@, two, before, k));
                }
            }
        }
        i += 1;
    }
    let sma5 = sma(numbers, &midpoint, 5);
    let sma34 = sma(numbers, &midpoint, 34);
    let result = difference(numbers, &sma5, &sma34);
    proof {
        assert(ints(numbers, 2, two));
        assert(midpoints(numbers, high@, low@, two, midpoint@));
        assert(sma_made(numbers, midpoint@, 5, sma5@) && sma_made(numbers, midpoint@, 34, sma34@) && parted(numbers, sma5@, sma34@, result@));
    }
    result
}

/// `result` is the power of one side of the bars: the side's price of each
/// bar less the exponential average of the closes.
pub open spec fn power_made<V, N: Numbers<V>>(numbers: &N, side: Seq<V>, close: Seq<V>, period: usize, result: Seq<Option<V>>) -> bool {
    exists|average: Seq<Option<V>>| #[trigger] ema_made(numbers, close, period, average) && offsets(numbers, side, average, result)
}

/// Bears power: the low less the average of the closes.
pub fn bears_power<V: Copy, N: Numbers<V>>(numbers: &N, low: &Vec<V>, close: &Vec<V>, period: usize) -> (result: Vec<Option<V>>)
    requires
        low@.len() == close@.len(),
    ensures
        power_made(numbers, low@, close@, period, result@),
        result@.len() == close@.len(),
        period == 0 || close@.len() < period ==> all_blank(result@),
        period > 0 && close@.len() >= period ==> present_from(result@, period - 1),
{
    let ema_vals = ema(numbers, close, period);
    offset_from(numbers, low, &ema_vals)
}

/// Bulls power: the high less the average of the closes.
pub fn bulls_power<V: Copy, N: Numbers<V>>(numbers: &N, high: &Vec<V>, close: &Vec<V>, period: usize) -> (result: Vec<Option<V>>)
    requires
        high@.len() == close@.len(),
    ensures
        power_made(numbers, high@, close@, period, result@),
        result@.len() == close@.len(),
        period == 0 || close@.len() < period ==> all_blank(result@),
        period > 0 && close@.len() >= period ==> present_from(result@, period - 1),
{
    let ema_vals = ema(numbers, close, period);
    offset_from(numbers, high, &ema_vals)
}

/// The four stages of the Laguerre filter after a bar.
#[derive(Debug, Clone, Copy)]
pub struct Stages<V> {
    pub l0: V,
    pub l1: V,
    pub l2: V,
    pub l3: V,
}

/// `out` is the first stage after a close: one less the damping times the
/// close, plus the damping times the stage before.
pub open spec fn first_stage<V, N: Numbers<V>>(numbers: &N, one: V, gamma: V, close: V, before: V, out: V) -> bool {
    exists|rest: V| #[trigger] subs(numbers, one, gamma, rest) && exists|fresh: V| #[trigger] muls(numbers, rest, close, fresh) && exists|kept: V| #[trigger] muls(numbers, gamma, before, kept) && adds(numbers, fresh, kept, out)
}

/// `out` is a later stage: the stage above it times the damping with its
/// sign turned, plus what the stage above was before, plus the damping
/// times what this stage was before.
pub open spec fn next_stage<V, N: Numbers<V>>(numbers: &N, damp: V, gamma: V, above: V, above_before: V, before: V, out: V) -> bool {
    exists|damped: V| #[trigger] muls(numbers, damp, above, damped) && exists|sum: V| #[trigger] adds(numbers, damped, above_before, sum) && exists|kept: V| #[trigger] muls(numbers, gamma, before, kept) && adds(numbers, sum, kept, out)
}

/// The stages after a close.
pub open spec fn staged<V, N: Numbers<V>>(numbers: &N, one: V, damp: V, gamma: V, close: V, before: Stages<V>, after: Stages<V>) -> bool {
    &&& first_stage(numbers, one, gamma, close, before.l0, after.l0)
    &&& next_stage(numbers, damp, gamma, after.l0, before.l0, before.l1, after.l1)
    &&& next_stage(numbers, damp, gamma, after.l1, before.l1, before.l2, after.l2)
    &&& next_stage(numbers, damp, gamma, after.l2, before.l2, before.l3, after.l3)
}

/// The gap between two stages is added to the rises where `numbers` finds
/// the first at least as great as the second, else to the falls.
pub open spec fn gap_sorted<V, N: Numbers<V>>(numbers: &N, first: V, second: V, rises: V, falls: V, rises_after: V, falls_after: V) -> bool {
    exists|r: Relation| #[trigger]
        relates(numbers, first, second, r) && (if r.ge() {
            falls_after == falls && exists|gap: V| #[trigger] subs(numbers, first, second, gap) && adds(numbers, rises, gap, rises_after)
        } else {
            rises_after == rises && exists|gap: V| #[trigger] subs(numbers, second, first, gap) && adds(numbers, falls, gap, falls_after)
        })
}

/// `out` is the share of the rises among the gaps between the stages, or
/// `zero` where `numbers` finds the sum of the gaps equal to `zero`.
pub open spec fn stage_strength<V, N: Numbers<V>>(numbers: &N, zero: V, stages: Stages<V>, out: V) -> bool {
    exists|r1: V, f1: V| #[trigger]
        gap_sorted(numbers, stages.l0, stages.l1, zero, zero, r1, f1) && exists|r2: V, f2: V| #[trigger]
            gap_sorted(numbers, stages.l1, stages.l2, r1, f1, r2, f2) && exists|r3: V, f3: V| #[trigger]
                gap_sorted(numbers, stages.l2, stages.l3, r2, f2, r3, f3) && exists|total: V| #[trigger]
                    adds(numbers, r3, f3, total) && exists|flat: Relation| #[trigger]
                        relates(numbers, total, zero, flat) && (if flat == Relation::Equal {
                            out == zero
                        } else {
                            divs(numbers, r3, total, out)
                        })
}

/// Entry `i` is the strength of the stages after close `i`, which follow
/// from the stages before, `zero` throughout before the first bar.
pub open spec fn laguerre_at<V, N: Numbers<V>>(numbers: &N, close: Seq<V>, zero: V, one: V, damp: V, gamma: V, stages: Seq<Stages<V>>, result: Seq<Option<V>>, i: int) -> bool {
    result[i] is Some && staged(numbers, one, damp, gamma, close[i], stages[i], stages[i + 1]) && stage_strength(numbers, zero, stages[i + 1], result[i]->Some_0)
}

/// The stages and the strengths of the Laguerre filter over the closes.
pub open spec fn laguerre_run<V, N: Numbers<V>>(numbers: &N, close: Seq<V>, gamma: V, zero: V, one: V, damp: V, stages: Seq<Stages<V>>, result: Seq<Option<V>>) -> bool {
    &&& ints(numbers, 0, zero)
    &&& ints(numbers, 1, one)
    &&& negs(numbers, gamma, damp)
    &&& stages.len() == close.len() + 1
    &&& stages[0] == (Stages { l0: zero, l1: zero, l2: zero, l3: zero })
    &&& forall|i: int| 0 <= i < close.len() ==> #[trigger] laguerre_at(numbers, close, zero, one, damp, gamma, stages, result, i)
}

/// `result` is the Laguerre RSI of the closes with the damping `gamma`.
pub open spec fn laguerre_made<V, N: Numbers<V>>(numbers: &N, close: Seq<V>, gamma: V, result: Seq<Option<V>>) -> bool {
    result.len() == close.len() && exists|zero: V, one: V, damp: V, stages: Seq<Stages<V>>| #[trigger] laguerre_run(numbers, close, gamma, zero, one, damp, stages, result)
}

/// A later stage of the filter.
fn stage_after<V: Copy, N: Numbers<V>>(numbers: &N, damp: V, gamma: V, above: V, above_before: V, before: V) -> (out: V)
    ensures
        next_stage(numbers, damp, gamma, above, above_before, before, out),
{
    let damped: V = numbers.mul(damp, above);
    let sum: V = numbers.add(damped, above_before);
    let kept: V = numbers.mul(gamma, before);
    assert(muls(numbers, damp, above, damped));
    assert(adds(numbers, damped, above_before, sum));
    assert(muls(numbers, gamma, before, kept));
    numbers.add(sum, kept)
}

/// Adds the gap between two stages to the rises or to the falls.
fn sort_gap<V: Copy, N: Numbers<V>>(numbers: &N, first: V, second: V, rises: V, falls: V) -> (r: (V, V))
    ensures
        gap_sorted(numbers, first, second, rises, falls, r.0, r.1),
{
    if relation(numbers, first, second).is_ge() {
        let gap: V = numbers.sub(first, second);
        assert(subs(numbers, first, second, gap));
        (numbers.add(rises, gap), falls)
    } else {
        let gap: V = numbers.sub(second, first);
        assert(subs(numbers, second, first, gap));
        (rises, numbers.add(falls, gap))
    }
}

/// The share of the rises among the gaps between the stages.
fn strength_of_stages<V: Copy, N: Numbers<V>>(numbers: &N, zero: V, stages: Stages<V>) -> (out: V)
    ensures
        stage_strength(numbers, zero, stages, out),
{
    let first = sort_gap(numbers, stages.l0, stages.l1, zero, zero);
    let second = sort_gap(numbers, stages.l1, stages.l2, first.0, first.1);
    let third = sort_gap(numbers, stages.l2, stages.l3, second.0, second.1);
    let total: V = numbers.add(third.0, third.1);
    proof {
        assert(gap_sorted(numbers, stages.l0, stages.l1, zero, zero, first.0, first.1));
        assert(gap_sorted(numbers, stages.l1, stages.l2, first.0, first.1, second.0, second.1));
        assert(gap_sorted(numbers, stages.l2, stages.l3, second.0, second.1, third.0, third.1));
        assert(adds(numbers, third.0, third.1, total));
    }
    match relation(numbers, total, zero) {
        Relation::Equal => zero,
        _ => numbers.div(third.0, total),
    }
}

/// Laguerre RSI: four smoothing stages with the damping `gamma`, and the
/// share of the rises among the differences between the stages; zero where
/// there is no difference. Every entry is present.
pub fn laguerre_rsi<V: Copy, N: Numbers<V>>(numbers: &N, close: &Vec<V>, gamma: V) -> (result: Vec<Option<V>>)
    ensures
        laguerre_made(numbers, close@, gamma, result@),
        result@.len() == close@.len(),
        present_from(result@, 0),
{
    let len: usize = close.len();
    let mut result: Vec<Option<V>> = blank(len);
    let zero: V = numbers.from_int(0);
    let one: V = numbers.from_int(1);
    let damp: V = numbers.neg(gamma);
    proof {
        assert(ints(numbers, 0, zero));
        assert(ints(numbers, 1, one));
        assert(negs(numbers, gamma, damp));
    }
    let mut state = Stages { l0: zero, l1: zero, l2: zero, l3: zero };
    let ghost mut stages: Seq<Stages<V>> = seq![state];
    let mut i: usize = 0;
    while i < len
        invariant
            i <= len,
            len == close@.len(),
            result@.len() == len,
            stages.len() == i + 1,
            stages[i as int] == state,
            stages[0] == (Stages { l0: zero, l1: zero, l2: zero, l3: zero }),
            forall|k: int| 0 <= k < len ==> ((#[trigger] result@[k]) is Some <==> k < i),
            forall|k: int| 0 <= k < i ==> #[trigger] laguerre_at(numbers, close@, zero, one, damp, gamma, stages, result@, k),
        decreases len - i,
    {
        let ghost before = result@;
        let ghost earlier = stages;
        let prev = state;
        let rest: V = numbers.sub(one, gamma);
        let fresh: V = numbers.mul(rest, close[i]);
        let kept: V = numbers.mul(gamma, prev.l0);
        let l0: V = numbers.add(fresh, kept);
        proof {
            assert(subs(numbers, one, gamma, rest));
            assert(muls(numbers, rest, close@[i as int], fresh));
            assert(muls(numbers, gamma, prev.l0, kept));
            assert(first_stage(numbers, one, gamma, close@[i as int], prev.l0, l0));
        }
        let l1: V = stage_after(numbers, damp, gamma, l0, prev.l0, prev.l1);
        let l2: V = stage_after(numbers, damp, gamma, l1, prev.l1, prev.l2);
        let l3: V = stage_after(numbers, damp, gamma, l2, prev.l2, prev.l3);
        state = Stages { l0, l1, l2, l3 };
        let value: V = strength_of_stages(numbers, zero, state);
        put(&mut result, i, value);
        proof {
            stages = earlier.push(state);
            assert(stages[i as int] == prev && stages[i + 1] == state);
            assert(staged(numbers, one, damp, gamma, close@[i as int], prev, state));
            assert(laguerre_at(numbers, close@, zero, one, damp, gamma, stages, result@, i as int));
            assert forall|k: int| 0 <= k < i + 1 implies #[trigger] laguerre_at(numbers, close@, zero, one, damp, gamma, stages, result@, k) by {
                if k < i {
                    assert(laguerre_at(numbers, close@, zero, one, damp, gamma, earlier, before, k));
                    assert(stages[k] == earlier[k] && stages[k + 1] == earlier[k + 1] && result@[k] == before[k]);
                }
            }
        }
        i += 1;
    }
    assert(laguerre_run(numbers, close@, gamma, zero, one, damp, stages, result@));
    result
}

/// Entry `i` of the three columns of the vortex system: the true range of
/// bar `i`, and the distances of its high from the low before and of its
/// low from the high before, which are `zero` for the first bar.
pub open spec fn swirled_at<V, N: Numbers<V>>(numbers: &N, high: Seq<V>, low: Seq<V>, close: Seq<V>, zero: V, tr: Seq<V>, plus: Seq<V>, minus: Seq<V>, i: int) -> bool {
    &&& true_range_of(numbers, high, low, close, i, tr[i])
    &&& (if i == 0 {
        plus[i] == zero && minus[i] == zero
    } else {
        distances(numbers, high[i], low[i - 1], plus[i]) && distances(numbers, low[i], high[i - 1], minus[i])
    })
}

/// Entry `i` of the two vortex lines: the sums of the two distances over
/// the `period` bars that end at `i`, each over the sum of the true ranges;
/// both absent where `numbers` finds that sum equal to `zero`.
pub open spec fn vortex_at<V, N: Numbers<V>>(numbers: &N, period: int, zero: V, tr: Seq<V>, plus: Seq<V>, minus: Seq<V>, vi_plus: Seq<Option<V>>, vi_minus: Seq<Option<V>>, i: int) -> bool {
    exists|total: V| #[trigger]
        sums_to(numbers, tr, i + 1 - period, i + 1, total) && exists|flat: Relation| #[trigger]
            relates(numbers, total, zero, flat) && (if flat == Relation::Equal {
                vi_plus[i] is None && vi_minus[i] is None
            } else {
                vi_plus[i] is Some && vi_minus[i] is Some && exists|up: V| #[trigger]
                    sums_to(numbers, plus, i + 1 - period, i + 1, up) && divs(numbers, up, total, vi_plus[i]->Some_0) && exists|down: V| #[trigger]
                        sums_to(numbers, minus, i + 1 - period, i + 1, down) && divs(numbers, down, total, vi_minus[i]->Some_0)
            })
}

/// The columns and the lines of the vortex indicator of the bars.
pub open spec fn vortex_run<V, N: Numbers<V>>(numbers: &N, high: Seq<V>, low: Seq<V>, close: Seq<V>, period: usize, zero: V, tr: Seq<V>, plus: Seq<V>, minus: Seq<V>, vi_plus: Seq<Option<V>>, vi_minus: Seq<Option<V>>) -> bool {
    &&& ints(numbers, 0, zero)
    &&& tr.len() == high.len()
    &&& plus.len() == high.len()
    &&& minus.len() == high.len()
    &&& forall|i: int| 0 <= i < high.len() ==> #[trigger] swirled_at(numbers, high, low, close, zero, tr, plus, minus, i)
    &&& forall|i: int| period <= i < high.len() ==> #[trigger] vortex_at(numbers, period as int, zero, tr, plus, minus, vi_plus, vi_minus, i)
}

/// `vi_plus` and `vi_minus` are the vortex lines of the bars: absent
/// throughout without a period, else absent for the first `period` bars and
/// from there on `vortex_at`.
pub open spec fn vortex_made<V, N: Numbers<V>>(numbers: &N, high: Seq<V>, low: Seq<V>, close: Seq<V>, period: usize, vi_plus: Seq<Option<V>>, vi_minus: Seq<Option<V>>) -> bool {
    &&& vi_plus.len() == high.len()
    &&& vi_minus.len() == high.len()
    &&& (if period == 0 {
        all_blank(vi_plus) && all_blank(vi_minus)
    } else {
        blank_before(vi_plus, period as int) && blank_before(vi_minus, period as int) && exists|zero: V, tr: Seq<V>, plus: Seq<V>, minus: Seq<V>| #[trigger] vortex_run(numbers, high, low, close, period, zero, tr, plus, minus, vi_plus, vi_minus)
    })
}

/// Vortex indicator: the sums of the upward and of the downward movement
/// over the last `period` bars, each over the sum of the true ranges.
/// Absent for the first `period` bars and wherever that sum is zero.
/// Returns VI+ and VI-.
pub fn vortex<V: Copy, N: Numbers<V>>(numbers: &N, high: &Vec<V>, low: &Vec<V>, close: &Vec<V>, period: usize) -> (r: (Vec<Option<V>>, Vec<Option<V>>))
    requires
        aligned(high@, low@, close@),
    ensures
        vortex_made(numbers, high@, low@, close@, period, r.0@, r.1@),
        r.0@.len() == high@.len(),
        r.1@.len() == high@.len(),
        blank_before(r.0@, period as int),
        blank_before(r.1@, period as int),
        forall|i: int| 0 <= i < high@.len() ==> ((#[trigger] r.0@[i]) is Some <==> r.1@[i] is Some),
{
    let len: usize = high.len();
    let mut vi_plus: Vec<Option<V>> = blank(len);
    let mut vi_minus: Vec<Option<V>> = blank(len);
    if period == 0 {
        return (vi_plus, vi_minus);
    }
    let zero: V = numbers.from_int(0);
    assert(ints(numbers, 0, zero));
    let mut vm_plus: Vec<V> = Vec::new();
    let mut vm_minus: Vec<V> = Vec::new();
    let mut tr: Vec<V> = Vec::new();
    let mut i: usize = 0;
    while i < len
        invariant
            i <= len,
            len == high@.len(),
            aligned(high@, low@, close@),
            vm_plus@.len() == i,
            vm_minus@.len() == i,
            tr@.len() == i,
            forall|k: int| 0 <= k < i ==> #[trigger] swirled_at(numbers, high@, low@, close@, zero, tr@, vm_plus@, vm_minus@, k),
        decreases len - i,
    {
        let ghost ranges = tr@;
        let ghost ups = vm_plus@;
        let ghost downs = vm_minus@;
        if i > 0 {
            let up: V = numbers.distance(high[i], low[i - 1]);
            let down: V = numbers.distance(low[i], high[i - 1]);
            assert(distances(numbers, high@[i as int], low@[i - 1], up));
            assert(distances(numbers, low@[i as int], high@[i - 1], down));
            vm_plus.push(up);
            vm_minus.push(down);
        } else {
            vm_plus.push(zero);
            vm_minus.push(zero);
        }
        let range: V = true_range_at(numbers, high, low, close, i);
        tr.push(range);
        proof {
            assert(swirled_at(numbers, high@, low@, close@, zero, tr@, vm_plus@, vm_minus@, i as int));
            assert forall|k: int| 0 <= k < i + 1 implies #[trigger] swirled_at(numbers, high@, low@, close@, zero, tr@, vm_plus@, vm_minus@, k) by {
                if k < i {
                    assert(swirled_at(numbers, high@, low@, close@, zero, ranges, ups, downs, k));
                }
            }
        }
        i += 1;
    }
    let mut i: usize = period;
    while i < len
        invariant
            0 < period <= i,
            vm_plus@.len() == len,
            vm_minus@.len() == len,
            tr@.len() == len,
            vi_plus@.len() == len,
            vi_minus@.len() == len,
            blank_before(vi_plus@, period as int),
            blank_before(vi_minus@, period as int),
            forall|k: int| 0 <= k < len ==> ((#[trigger] vi_plus@[k]) is Some <==> vi_minus@[k] is Some),
            forall|k: int| i <= k < len ==> (#[trigger] vi_plus@[k]) is None,
            forall|k: int| period <= k < i && k < len ==> #[trigger] vortex_at(numbers, period as int, zero, tr@, vm_plus@, vm_minus@, vi_plus@, vi_minus@, k),
        decreases len - i,
    {
        let ghost plus_before = vi_plus@;
        let ghost minus_before = vi_minus@;
        let from: usize = i + 1 - period;
        let sum_tr: V = sum_of(numbers, &tr, from, i + 1);
        let flat = relation(numbers, sum_tr, zero);
        match flat {
            Relation::Equal => {},
            _ => {
                let up: V = sum_of(numbers, &vm_plus, from, i + 1);
                let down: V = sum_of(numbers, &vm_minus, from, i + 1);
                let plus: V = numbers.div(up, sum_tr);
                let minus: V = numbers.div(down, sum_tr);
                put(&mut vi_plus, i, plus);
                put(&mut vi_minus, i, minus);
                assert(divs(numbers, up, sum_tr, plus));
                assert(divs(numbers, down, sum_tr, minus));
            },
        }
        proof {
            assert(sums_to(numbers, tr@, i + 1 - period, i + 1, sum_tr));
            assert(vortex_at(numbers, period as int, zero, tr@, vm_plus@, vm_minus@, vi_plus@, vi_minus@, i as int));
            assert forall|k: int| period <= k < i + 1 && k < len implies #[trigger] vortex_at(numbers, period as int, zero, tr@, vm_plus@, vm_minus@, vi_plus@, vi_minus@, k) by {
                if k < i {
                    assert(vortex_at(numbers, period as int, zero, tr@, vm_plus@, vm_minus@, plus_before, minus_before, k));
                    assert(vi_plus@[k] == plus_before[k] && vi_minus@[k] == minus_before[k]);
                }
            }
        }
        i += 1;
    }
    assert(vortex_run(numbers, high@, low@, close@, period, zero, tr@, vm_plus@, vm_minus@, vi_plus@, vi_minus@));
    (vi_plus, vi_minus)
}

/// The three weights of the two-pole filter.
#[derive(Debug, Clone, Copy)]
pub struct Poles<V> {
    pub c1: V,
    pub c2: V,
    pub c3: V,
}

/// `a1` is the decay of the filter of a period and `angle` its angle: the
/// angle is the root of two times the circle constant over the period, and
/// the decay the exponential of the angle with its sign turned.
pub open spec fn decay_of<V, N: Numbers<V>>(numbers: &N, two: V, n: V, angle: V, a1: V) -> bool {
    exists|root: V| #[trigger]
        roots(numbers, two, root) && exists|pi: V| #[trigger]
            pis(numbers, pi) && exists|circle: V| #[trigger] muls(numbers, root, pi, circle) && divs(numbers, circle, n, angle) && exists|back: V| #[trigger] negs(numbers, angle, back) && exps(numbers, back, a1)
}

/// `poles` are the weights of the filter of a period: the second is twice
/// the decay times the cosine of the angle, the third the square of the
/// decay with its sign turned, and the first one less the two others.
pub open spec fn poles_of<V, N: Numbers<V>>(numbers: &N, two: V, one: V, n: V, poles: Poles<V>) -> bool {
    exists|angle: V, a1: V| #[trigger]
        decay_of(numbers, two, n, angle, a1) && exists|twice: V| #[trigger]
            muls(numbers, two, a1, twice) && exists|cosine: V| #[trigger]
                coss(numbers, angle, cosine) && muls(numbers, twice, cosine, poles.c2) && exists|square: V| #[trigger]
                    muls(numbers, a1, a1, square) && negs(numbers, square, poles.c3) && exists|rest: V| #[trigger] subs(numbers, one, poles.c2, rest) && subs(numbers, rest, poles.c3, poles.c1)
}

/// Entry `i` of the smoothed closes: half the first weight times the sum of
/// close `i` and the close before, plus the second weight times the entry
/// before, plus the third weight times the entry before that.
pub open spec fn filtered_at<V, N: Numbers<V>>(numbers: &N, close: Seq<V>, two: V, poles: Poles<V>, filt: Seq<V>, i: int) -> bool {
    exists|pair: V| #[trigger]
        adds(numbers, close[i], close[i - 1], pair) && exists|weighed: V| #[trigger]
            muls(numbers, poles.c1, pair, weighed) && exists|half: V| #[trigger]
                divs(numbers, weighed, two, half) && exists|near: V| #[trigger]
                    muls(numbers, poles.c2, filt[i - 1], near) && exists|sum: V| #[trigger] adds(numbers, half, near, sum) && exists|far: V| #[trigger] muls(numbers, poles.c3, filt[i - 2], far) && adds(numbers, sum, far, filt[i])
}

/// `filt` holds the smoothed closes: the first two are the closes
/// themselves.
pub open spec fn filter_run<V, N: Numbers<V>>(numbers: &N, close: Seq<V>, two: V, poles: Poles<V>, filt: Seq<V>) -> bool {
    &&& filt.len() == close.len()
    &&& filt[0] == close[0]
    &&& filt[1] == close[1]
    &&& forall|i: int| 2 <= i < close.len() ==> #[trigger] filtered_at(numbers, close, two, poles, filt, i)
}

/// Step `j` of the sum of the gaps between the trend line through the
/// smoothed values at `i` and the smoothed values before: the value at `i`
/// plus `j + 1` times the slope, less the value `j + 1` bars back.
pub open spec fn strayed_from_line_at<V, N: Numbers<V>>(numbers: &N, filt: Seq<V>, i: int, slope: V, steps: Seq<V>, j: int) -> bool {
    exists|back: V| #[trigger]
        ints(numbers, whole((j + 1) as usize), back) && exists|rise: V| #[trigger] muls(numbers, back, slope, rise) && exists|line: V| #[trigger] adds(numbers, filt[i], rise, line) && exists|gap: V| #[trigger] subs(numbers, line, filt[i - (j + 1)], gap) && adds(numbers, steps[j], gap, steps[j + 1])
}

/// `steps` holds `zero` and then the sum so far of the gaps from the trend
/// line over the `period` bars before `i`.
pub open spec fn line_strayed<V, N: Numbers<V>>(numbers: &N, filt: Seq<V>, i: int, period: int, slope: V, zero: V, steps: Seq<V>) -> bool {
    &&& steps.len() == period + 1
    &&& steps[0] == zero
    &&& forall|j: int| 0 <= j < period ==> #[trigger] strayed_from_line_at(numbers, filt, i, slope, steps, j)
}

/// `mean` is the mean gap of the smoothed values from their trend line at
/// `i`; the slope of the line is the fall of the smoothed value over the
/// period, over the period.
pub open spec fn mean_gap<V, N: Numbers<V>>(numbers: &N, filt: Seq<V>, i: int, period: int, n: V, zero: V, mean: V) -> bool {
    exists|fall: V| #[trigger]
        subs(numbers, filt[i - period], filt[i], fall) && exists|slope: V| #[trigger] divs(numbers, fall, n, slope) && exists|steps: Seq<V>| #[trigger] line_strayed(numbers, filt, i, period, slope, zero, steps) && divs(numbers, steps[period], n, mean)
}

/// `after` is the running size of the gaps: four hundredths of the square
/// of the mean gap plus ninety-six hundredths of the size before.
pub open spec fn sized<V, N: Numbers<V>>(numbers: &N, small: V, large: V, mean: V, before: V, after: V) -> bool {
    exists|part: V| #[trigger] muls(numbers, small, mean, part) && exists|fresh: V| #[trigger] muls(numbers, part, mean, fresh) && exists|kept: V| #[trigger] muls(numbers, large, before, kept) && adds(numbers, fresh, kept, after)
}

/// `out` is the mean gap over the root of its running size, or `zero`
/// where `numbers` does not find the size greater than `zero`.
pub open spec fn reflexed<V, N: Numbers<V>>(numbers: &N, mean: V, size: V, zero: V, out: V) -> bool {
    exists|r: Relation| #[trigger]
        relates(numbers, size, zero, r) && (if r.gt() {
            exists|root: V| #[trigger] roots(numbers, size, root) && divs(numbers, mean, root, out)
        } else {
            out == zero
        })
}

/// Entry `i` of the line, with the running size of the gaps before and
/// after it; the size is `zero` before bar `period`.
pub open spec fn reflex_at<V, N: Numbers<V>>(numbers: &N, filt: Seq<V>, period: int, n: V, zero: V, small: V, large: V, sizes: Seq<V>, result: Seq<Option<V>>, i: int) -> bool {
    result[i] is Some && exists|mean: V| #[trigger] mean_gap(numbers, filt, i, period, n, zero, mean) && sized(numbers, small, large, mean, pick(i == period, zero, sizes[i - 1]), sizes[i]) && reflexed(numbers, mean, sizes[i], zero, result[i]->Some_0)
}

/// What the Reflex line is built from: its constants, the weights of the
/// filter, the smoothed closes and the running sizes of the gaps.
pub struct ReflexParts<V> {
    pub zero: V,
    pub one: V,
    pub two: V,
    pub n: V,
    pub small: V,
    pub large: V,
    pub poles: Poles<V>,
    pub filt: Seq<V>,
    pub sizes: Seq<V>,
}

/// `parts` are what the Reflex line of the closes is built from, and
/// `result` is the line.
pub open spec fn reflex_built<V, N: Numbers<V>>(numbers: &N, close: Seq<V>, period: usize, parts: ReflexParts<V>, result: Seq<Option<V>>) -> bool {
    &&& ints(numbers, 0, parts.zero)
    &&& ints(numbers, 1, parts.one)
    &&& ints(numbers, 2, parts.two)
    &&& ints(numbers, whole(period), parts.n)
    &&& ratios(numbers, 4, 100, parts.small)
    &&& ratios(numbers, 96, 100, parts.large)
    &&& poles_of(numbers, parts.two, parts.one, parts.n, parts.poles)
    &&& filter_run(numbers, close, parts.two, parts.poles, parts.filt)
    &&& parts.sizes.len() == close.len()
    &&& forall|i: int| period <= i < close.len() ==> #[trigger] reflex_at(numbers, parts.filt, period as int, parts.n, parts.zero, parts.small, parts.large, parts.sizes, result, i)
}

/// `result` is the Reflex line of the closes: absent throughout with fewer
/// than three closes; else absent for the first `period` bars and from
/// there on `reflex_at`.
pub open spec fn reflex_made<V, N: Numbers<V>>(numbers: &N, close: Seq<V>, period: usize, result: Seq<Option<V>>) -> bool {
    &&& result.len() == close.len()
    &&& (if close.len() < 3 {
        all_blank(result)
    } else {
        blank_before(result, period as int) && exists|parts: ReflexParts<V>| #[trigger] reflex_built(numbers, close, period, parts, result)
    })
}

/// The weights of the filter of a period.
fn filter_poles<V: Copy, N: Numbers<V>>(numbers: &N, two: V, one: V, n: V) -> (poles: Poles<V>)
    ensures
        poles_of(numbers, two, one, n, poles),
{
    let root: V = numbers.sqrt(two);
    let pi: V = numbers.pi();
    let circle: V = numbers.mul(root, pi);
    let angle: V = numbers.div(circle, n);
    let back: V = numbers.neg(angle);
    let a1: V = numbers.exp(back);
    proof {
        assert(roots(numbers, two, root));
        assert(pis(numbers, pi));
        assert(muls(numbers, root, pi, circle));
        assert(divs(numbers, circle, n, angle));
        assert(negs(numbers, angle, back));
        assert(exps(numbers, back, a1));
        assert(decay_of(numbers, two, n, angle, a1));
    }
    let twice: V = numbers.mul(two, a1);
    let cosine: V = numbers.cos(angle);
    let c2: V = numbers.mul(twice, cosine);
    let square: V = numbers.mul(a1, a1);
    let c3: V = numbers.neg(square);
    let rest: V = numbers.sub(one, c2);
    let c1: V = numbers.sub(rest, c3);
    proof {
        assert(muls(numbers, two, a1, twice));
        assert(coss(numbers, angle, cosine));
        assert(muls(numbers, twice, cosine, c2));
        assert(muls(numbers, a1, a1, square));
        assert(negs(numbers, square, c3));
        assert(subs(numbers, one, c2, rest));
    }
    Poles { c1, c2, c3 }
}

/// The smoothed closes.
fn filter_closes<V: Copy, N: Numbers<V>>(numbers: &N, close: &Vec<V>, two: V, poles: Poles<V>) -> (filt: Vec<V>)
    requires
        close@.len() >= 3,
    ensures
        filter_run(numbers, close@, two, poles, filt@),
{
    let len: usize = close.len();
    let mut filt: Vec<V> = Vec::new();
    filt.push(close[0]);
    filt.push(close[1]);
    let mut i: usize = 2;
    while i < len
        invariant
            2 <= i <= len,
            len == close@.len(),
            filt@.len() == i,
            filt@[0] == close@[0],
            filt@[1] == close@[1],
            forall|k: int| 2 <= k < i ==> #[trigger] filtered_at(numbers, close@, two, poles, filt@, k),
        decreases len - i,
    {
        let ghost before = filt@;
        let pair: V = numbers.add(close[i], close[i - 1]);
        let weighed: V = numbers.mul(poles.c1, pair);
        let half: V = numbers.div(weighed, two);
        let near: V = numbers.mul(poles.c2, filt[i - 1]);
        let sum: V = numbers.add(half, near);
        let far: V = numbers.mul(poles.c3, filt[i - 2]);
        let value: V = numbers.add(sum, far);
        filt.push(value);
        proof {
            assert(adds(numbers, close@[i as int], close@[i - 1], pair));
            assert(muls(numbers, poles.c1, pair, weighed));
            assert(divs(numbers, weighed, two, half));
            assert(muls(numbers, poles.c2, filt@[i - 1], near));
            assert(adds(numbers, half, near, sum));
            assert(muls(numbers, poles.c3, filt@[i - 2], far));
            assert(adds(numbers, sum, far, filt@[i as int]));
            assert(filtered_at(numbers, close@, two, poles, filt@, i as int));
            assert forall|k: int| 2 <= k < i + 1 implies #[trigger] filtered_at(numbers, close@, two, poles, filt@, k) by {
                if k < i {
                    assert(filtered_at(numbers, close@, two, poles, before, k));
                    assert(filt@[k] == before[k] && filt@[k - 1] == before[k - 1] && filt@[k - 2] == before[k - 2]);
                }
            }
        }
        i += 1;
    }
    filt
}

/// The mean gap of the smoothed values from their trend line at `i`.
fn mean_gap_at<V: Copy, N: Numbers<V>>(numbers: &N, filt: &Vec<V>, i: usize, period: usize, n: V, zero: V) -> (mean: V)
    requires
        period <= i < filt@.len(),
    ensures
        mean_gap(numbers, filt@, i as int, period as int, n, zero, mean),
{
    let len: usize = filt.len();
    let fall: V = numbers.sub(filt[i - period], filt[i]);
    let slope: V = numbers.div(fall, n);
    let mut sum: V = zero;
    let ghost mut steps: Seq<V> = seq![zero];
    let mut j: usize = 1;
    while j <= period
        invariant
            1 <= j <= period + 1,
            period <= i < len,
            len == filt@.len(),
            line_strayed(numbers, filt@, i as int, j - 1, slope, zero, steps),
            steps[j - 1] == sum,
        decreases period + 1 - j,
    {
        let ghost before = steps;
        let ghost held = sum;
        let back: V = count(numbers, j);
        let rise: V = numbers.mul(back, slope);
        let line: V = numbers.add(filt[i], rise);
        let gap: V = numbers.sub(line, filt[i - j]);
        sum = numbers.add(sum, gap);
        proof {
            steps = before.push(sum);
            assert(steps[j - 1] == held && steps[j as int] == sum);
            assert(ints(numbers, whole(((j - 1) + 1) as usize), back));
            assert(muls(numbers, back, slope, rise));
            assert(adds(numbers, filt@[i as int], rise, line));
            assert(subs(numbers, line, filt@[i - ((j - 1) + 1)], gap));
            assert(adds(numbers, steps[j - 1], gap, steps[(j - 1) + 1]));
            assert(strayed_from_line_at(numbers, filt@, i as int, slope, steps, j - 1));
            assert forall|k: int| 0 <= k < j implies #[trigger] strayed_from_line_at(numbers, filt@, i as int, slope, steps, k) by {
                if k < j - 1 {
                    assert(strayed_from_line_at(numbers, filt@, i as int, slope, before, k));
                    assert(steps[k] == before[k] && steps[k + 1] == before[k + 1]);
                }
            }
        }
        j += 1;
    }
    let mean: V = numbers.div(sum, n);
    proof {
        assert(subs(numbers, filt@[i - period], filt@[i as int], fall));
        assert(divs(numbers, fall, n, slope));
        assert(line_strayed(numbers, filt@, i as int, period as int, slope, zero, steps));
        assert(divs(numbers, steps[period as int], n, mean));
    }
    mean
}

/// Reflex: the closes are smoothed by a two-pole filter, and the mean
/// deviation of the smoothed values from their trend line over `period`
/// bars is set against its own running size. Zero where that size is not
/// positive. With fewer than three bars every entry is absent.
pub fn reflex<V: Copy, N: Numbers<V>>(numbers: &N, close: &Vec<V>, period: usize) -> (result: Vec<Option<V>>)
    ensures
        reflex_made(numbers, close@, period, result@),
        result@.len() == close@.len(),
        close@.len() < 3 ==> all_blank(result@),
        close@.len() >= 3 ==> present_from(result@, period as int),
{
    let len: usize = close.len();
    let mut result: Vec<Option<V>> = blank(len);
    if len < 3 {
        return result;
    }
    let zero: V = numbers.from_int(0);
    let one: V = numbers.from_int(1);
    let two: V = numbers.from_int(2);
    let n: V = count(numbers, period);
    let poles = filter_poles(numbers, two, one, n);
    let filt = filter_closes(numbers, close, two, poles);
    let small: V = numbers.ratio(4, 100);
    let large: V = numbers.ratio(96, 100);
    proof {
        assert(ints(numbers, 0, zero));
        assert(ints(numbers, 1, one));
        assert(ints(numbers, 2, two));
        assert(ratios(numbers, 4, 100, small));
        assert(ratios(numbers, 96, 100, large));
    }
    let mut ms: V = zero;
    let ghost mut sizes: Seq<V> = Seq::new((if period < len { period } else { len }) as nat, |k: int| zero);
    let mut i: usize = period;
    while i < len
        invariant
            period <= i,
            len == close@.len(),
            filt@.len() == len,
            result@.len() == len,
            sizes.len() == (if i < len { i } else { len }),
            i > period ==> sizes[i - 1] == ms,
            i == period ==> ms == zero,
            forall|k: int| 0 <= k < len ==> ((#[trigger] result@[k]) is Some <==> period <= k < i),
            forall|k: int| period <= k < i && k < len ==> #[trigger] reflex_at(numbers, filt@, period as int, n, zero, small, large, sizes, result@, k),
        decreases len - i,
    {
        let ghost before = result@;
        let ghost earlier = sizes;
        let ghost size_before = ms;
        let mean: V = mean_gap_at(numbers, &filt, i, period, n, zero);
        let part: V = numbers.mul(small, mean);
        let fresh: V = numbers.mul(part, mean);
        let kept: V = numbers.mul(large, ms);
        ms = numbers.add(fresh, kept);
        let value: V = match relation(numbers, ms, zero) {
            Relation::Greater => {
                let root: V = numbers.sqrt(ms);
                assert(roots(numbers, ms, root));
                numbers.div(mean, root)
            },
            _ => zero,
        };
        put(&mut result, i, value);
        proof {
            sizes = earlier.push(ms);
            assert(muls(numbers, small, mean, part));
            assert(muls(numbers, part, mean, fresh));
            assert(muls(numbers, large, size_before, kept));
            assert(size_before == pick(i == period, zero, sizes[i - 1]));
            assert(sized(numbers, small, large, mean, size_before, sizes[i as int]));
            assert(reflexed(numbers, mean, sizes[i as int], zero, value));
            assert(reflex_at(numbers, filt@, period as int, n, zero, small, large, sizes, result@, i as int));
            assert forall|k: int| period <= k < i + 1 && k < len implies #[trigger] reflex_at(numbers, filt@, period as int, n, zero, small, large, sizes, result@, k) by {
                if k < i {
                    assert(reflex_at(numbers, filt@, period as int, n, zero, small, large, earlier, before, k));
                    assert(result@[k] == before[k] && sizes[k] == earlier[k]);
                    if k > period {
                        assert(sizes[k - 1] == earlier[k - 1]);
                    }
                }
            }
        }
        i += 1;
    }
    proof {
        let parts = ReflexParts { zero, one, two, n, small, large, poles, filt: filt@, sizes: if period < len {
            sizes
        } else {
            Seq::new(len as nat, |k: int| zero)
        } };
        assert(reflex_built(numbers, close@, period, parts, result@));
    }
    result
}

} // verus!
