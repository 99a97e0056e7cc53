use vstd::prelude::*;
use vstd::string::StringExecFns;
use crate::engine::averages::{
    as_series, ema, ema_made, full_window, sma, sma_made, wma, wma_made,
};
use crate::engine::indicators::NamedSeries;
use crate::engine::metrics::adds_squared_gap;
use crate::engine::numeric::{
    adds, divs, highests, ints, lowests, maxes, mins, muls, pick, ratios, relates, roots, subs,
    Numbers, Relation,
};
use crate::engine::oscillators::{aligned, true_range_at, true_range_of, window_range};
use crate::engine::series::{
    all_blank, blank, blank_before, count, max_of, min_of, present_from, put, relation, sum_of,
    sums_to, whole,
};
use crate::timestamp::{day_number, day_number_of};

verus! {

/// Entry `i` is the true range of bar `i`.
pub open spec fn ranged_at<V, N: Numbers<V>>(numbers: &N, high: Seq<V>, low: Seq<V>, close: Seq<V>, result: Seq<Option<V>>, i: int) -> bool {
    result[i] is Some && true_range_of(numbers, high, low, close, i, result[i]->Some_0)
}

/// `result` holds the true range of every bar.
pub open spec fn true_ranges_made<V, N: Numbers<V>>(numbers: &N, high: Seq<V>, low: Seq<V>, close: Seq<V>, result: Seq<Option<V>>) -> bool {
    result.len() == high.len() && forall|i: int| 0 <= i < result.len() ==> #[trigger] ranged_at(numbers, high, low, close, result, i)
}

/// True range of every bar. Every entry is present.
pub fn true_range<V: Copy, N: Numbers<V>>(numbers: &N, high: &Vec<V>, low: &Vec<V>, close: &Vec<V>) -> (result: Vec<Option<V>>)
    requires
        aligned(high@, low@, close@),
    ensures
        true_ranges_made(numbers, high@, low@, close@, result@),
        result@.len() == high@.len(),
        present_from(result@, 0),
{
    let len: usize = high.len();
    let mut result: Vec<Option<V>> = Vec::new();
    let mut i: usize = 0;
    while i < len
        invariant
            i <= len,
            len == high@.len(),
            aligned(high@, low@, close@),
            result@.len() == i,
            forall|k: int| 0 <= k < i ==> (#[trigger] result@[k]) is Some,
            forall|k: int| 0 <= k < i ==> #[trigger] ranged_at(numbers, high@, low@, close@, result@, k),
        decreases len - i,
    {
        let ghost before = result@;
        let value: V = true_range_at(numbers, high, low, close, i);
        result.push(Some(value));
        assert forall|k: int| 0 <= k < i + 1 implies #[trigger] ranged_at(numbers, high@, low@, close@, result@, k) by {
            if k < i {
                assert(ranged_at(numbers, high@, low@, close@, before, k));
                assert(result@[k] == before[k]);
            }
        }
        i += 1;
    }
    result
}

/// Entry `i` of a column is the true range of bar `i`.
pub open spec fn true_range_in<V, N: Numbers<V>>(numbers: &N, high: Seq<V>, low: Seq<V>, close: Seq<V>, column: Seq<V>, i: int) -> bool {
    true_range_of(numbers, high, low, close, i, column[i])
}

/// `column` holds the true range of every bar.
pub open spec fn true_range_column<V, N: Numbers<V>>(numbers: &N, high: Seq<V>, low: Seq<V>, close: Seq<V>, column: Seq<V>) -> bool {
    column.len() == high.len() && forall|i: int| 0 <= i < column.len() ==> #[trigger] true_range_in(numbers, high, low, close, column, i)
}

/// `next` is Wilder's smoothing of `prev` with `value`: the average before
/// times `scale`, plus the value, over `n`.
pub open spec fn wilder<V, N: Numbers<V>>(numbers: &N, prev: V, value: V, scale: V, n: V, next: V) -> bool {
    exists|carried: V| #[trigger] muls(numbers, prev, scale, carried) && exists|total: V| #[trigger] adds(numbers, carried, value, total) && divs(numbers, total, n, next)
}

/// Entry `i` of the averages is the entry before it, smoothed with value
/// `i` of the column.
pub open spec fn wilder_at<V, N: Numbers<V>>(numbers: &N, column: Seq<V>, scale: V, n: V, result: Seq<Option<V>>, i: int) -> bool {
    result[i] is Some && result[i - 1] is Some && wilder(numbers, result[i - 1]->Some_0, column[i], scale, n, result[i]->Some_0)
}

/// The averages of a column are seeded at `period - 1` with the mean of its
/// first `period` values and smoothed from there on, with the period as `n`
/// and the period less one as the scale.
pub open spec fn wilder_made<V, N: Numbers<V>>(numbers: &N, column: Seq<V>, period: usize, result: Seq<Option<V>>) -> bool {
    exists|n: V, scale: V|
        {
            &&& #[trigger] wilder_run(numbers, column, period, n, scale, result)
            &&& ints(numbers, whole(period), n)
            &&& exists|one: V| #[trigger] ints(numbers, 1, one) && subs(numbers, n, one, scale)
        }
}

/// The seed and the steps of Wilder's smoothing of a column.
pub open spec fn wilder_run<V, N: Numbers<V>>(numbers: &N, column: Seq<V>, period: usize, n: V, scale: V, result: Seq<Option<V>>) -> bool {
    &&& result[period - 1] is Some
    &&& exists|total: V| #[trigger] sums_to(numbers, column, 0, period as int, total) && divs(numbers, total, n, result[period - 1]->Some_0)
    &&& forall|i: int| period <= i < result.len() ==> #[trigger] wilder_at(numbers, column, scale, n, result, i)
}

/// `result` is the average true range of the bars: absent throughout
/// without a period or with fewer bars than the period; else absent before
/// the first full window, and from there on Wilder's smoothing of the true
/// ranges.
pub open spec fn atr_made<V, N: Numbers<V>>(numbers: &N, high: Seq<V>, low: Seq<V>, close: Seq<V>, period: usize, result: Seq<Option<V>>) -> bool {
    &&& result.len() == high.len()
    &&& (if period == 0 || high.len() < period {
        all_blank(result)
    } else {
        blank_before(result, period - 1) && exists|column: Seq<V>| #[trigger] true_range_column(numbers, high, low, close, column) && wilder_made(numbers, column, period, result)
    })
}

/// Average true range with Wilder's smoothing: seeded at entry
/// `period - 1` with the simple mean of the first `period` true ranges. The
/// first `period - 1` entries are absent.
pub fn atr<V: Copy, N: Numbers<V>>(numbers: &N, high: &Vec<V>, low: &Vec<V>, close: &Vec<V>, period: usize) -> (result: Vec<Option<V>>)
    requires
        aligned(high@, low@, close@),
    ensures
        atr_made(numbers, high@, low@, close@, period, result@),
        result@.len() == high@.len(),
        period == 0 || high@.len() < period ==> all_blank(result@),
        period > 0 && high@.len() >= period ==> present_from(result@, period - 1),
{
    let len: usize = high.len();
    let mut result: Vec<Option<V>> = blank(len);
    if period == 0 || len < period {
        return result;
    }
    let mut tr: Vec<V> = Vec::new();
    let mut i: usize = 0;
    while i < len
        invariant
            i <= len,
            len == high@.len(),
            aligned(high@, low@, close@),
            tr@.len() == i,
            forall|k: int| 0 <= k < i ==> #[trigger] true_range_in(numbers, high@, low@, close@, tr@, k),
        decreases len - i,
    {
        let ghost column = tr@;
        let value: V = true_range_at(numbers, high, low, close, i);
        tr.push(value);
        assert forall|k: int| 0 <= k < i + 1 implies #[trigger] true_range_in(numbers, high@, low@, close@, tr@, k) by {
            if k < i {
                assert(true_range_in(numbers, high@, low@, close@, column, k));
            }
        }
        i += 1;
    }
    assert(true_range_column(numbers, high@, low@, close@, tr@));
    let n: V = count(numbers, period);
    let one: V = numbers.from_int(1);
    let scale: V = numbers.sub(n, one);
    assert(ints(numbers, 1, one));
    assert(subs(numbers, n, one, scale));
    let total: V = sum_of(numbers, &tr, 0, period);
    let mut atr_val: V = numbers.div(total, n);
    assert(divs(numbers, total, n, atr_val));
    put(&mut result, period - 1, atr_val);
    let ghost seed = atr_val;
    let mut i: usize = period;
    while i < len
        invariant
            0 < period <= i <= len,
            tr@.len() == len,
            result@.len() == len,
            forall|k: int| 0 <= k < len ==> ((#[trigger] result@[k]) is Some <==> period - 1 <= k < i),
            result@[i - 1] == Some(atr_val),
            result@[period - 1] == Some(seed),
            forall|k: int| period <= k < i ==> #[trigger] wilder_at(numbers, tr@, scale, n, result@, k),
        decreases len - i,
    {
        let ghost before = result@;
        let ghost prev = atr_val;
        let carried: V = numbers.mul(atr_val, scale);
        let sum: V = numbers.add(carried, tr[i]);
        atr_val = numbers.div(sum, n);
        put(&mut result, i, atr_val);
        proof {
            assert(muls(numbers, prev, scale, carried));
            assert(adds(numbers, carried, tr@[i as int], sum));
            assert(wilder(numbers, prev, tr@[i as int], scale, n, atr_val));
            assert forall|k: int| period <= k < i + 1 implies #[trigger] wilder_at(numbers, tr@, scale, n, result@, k) by {
                if k < i {
                    assert(wilder_at(numbers, tr@, scale, n, before, k));
                    assert(result@[k] == before[k]);
                    assert(result@[k - 1] == before[k - 1]);
                }
            }
        }
        i += 1;
    }
    proof {
        assert(sums_to(numbers, tr@, 0, period as int, total));
        assert(wilder_run(numbers, tr@, period, n, scale, result@));
        assert(wilder_made(numbers, tr@, period, result@));
    }
    result
}

/// `steps` holds zero and then the sum so far of the squared gaps between
/// each entry of `data[from..to]` and `mean`.
pub open spec fn window_squares<V, N: Numbers<V>>(numbers: &N, data: Seq<V>, from: int, to: int, mean: V, steps: Seq<V>) -> bool {
    &&& steps.len() == to - from + 1
    &&& ints(numbers, 0, steps[0])
    &&& forall|k: int| 0 <= k < to - from ==> adds_squared_gap(numbers, #[trigger] steps[k], data[from + k], mean, steps[k + 1])
}

/// `out` is the standard deviation of `data[from..to]` around `mean`, over
/// `n`: the root of the sum of the squared gaps over `n`.
pub open spec fn deviation_of<V, N: Numbers<V>>(numbers: &N, data: Seq<V>, from: int, to: int, mean: V, n: V, out: V) -> bool {
    exists|steps: Seq<V>| #[trigger] window_squares(numbers, data, from, to, mean, steps) && exists|variance: V| #[trigger] divs(numbers, steps[to - from], n, variance) && roots(numbers, variance, out)
}

/// The standard deviation of `data[from..to]` around `mean`, over `n`.
fn deviation<V: Copy, N: Numbers<V>>(numbers: &N, data: &Vec<V>, from: usize, to: usize, mean: V, n: V) -> (out: V)
    requires
        from <= to <= data@.len(),
    ensures
        deviation_of(numbers, data@, from as int, to as int, mean, n, out),
{
    let mut sum: V = numbers.from_int(0);
    let ghost mut steps: Seq<V> = seq![sum];
    let mut j: usize = from;
    while j < to
        invariant
            from <= j <= to <= data@.len(),
            window_squares(numbers, data@, from as int, j as int, mean, steps),
            steps[j - from] == sum,
        decreases to - j,
    {
        let ghost earlier = steps;
        let ghost acc = sum;
        let d: V = numbers.sub(data[j], mean);
        let square: V = numbers.mul(d, d);
        sum = numbers.add(sum, square);
        proof {
            assert(subs(numbers, data@[j as int], mean, d));
            assert(muls(numbers, d, d, square));
            assert(adds_squared_gap(numbers, acc, data@[j as int], mean, sum));
            steps = earlier.push(sum);
            assert forall|k: int| 0 <= k < j + 1 - from implies adds_squared_gap(numbers, #[trigger] steps[k], data@[from + k], mean, steps[k + 1]) by {
                if k < j - from {
                    assert(adds_squared_gap(numbers, earlier[k], data@[from + k], mean, earlier[k + 1]));
                }
            }
        }
        j += 1;
    }
    let variance: V = numbers.div(sum, n);
    assert(divs(numbers, steps[to - from], n, variance));
    numbers.sqrt(variance)
}

/// At `i` the upper and the lower band lie the width above and below the
/// middle band: the multiple of the standard deviation of the window about
/// the middle.
pub open spec fn banded_at<V, N: Numbers<V>>(numbers: &N, close: Seq<V>, period: int, n: V, mult: V, upper: Seq<Option<V>>, middle: Seq<Option<V>>, lower: Seq<Option<V>>, i: int) -> bool {
    &&& middle[i] is Some
    &&& upper[i] is Some
    &&& lower[i] is Some
    &&& exists|dev: V| #[trigger]
        deviation_of(numbers, close, i + 1 - period, i + 1, middle[i]->Some_0, n, dev) && exists|width: V| #[trigger]
            muls(numbers, mult, dev, width) && adds(numbers, middle[i]->Some_0, width, upper[i]->Some_0) && subs(numbers, middle[i]->Some_0, width, lower[i]->Some_0)
}

/// The bands from the first full window up to `upto` lie about the middle
/// band.
pub open spec fn all_banded<V, N: Numbers<V>>(numbers: &N, close: Seq<V>, period: int, upto: int, mult: V, upper: Seq<Option<V>>, middle: Seq<Option<V>>, lower: Seq<Option<V>>) -> bool {
    exists|n: V| #[trigger] ints(numbers, whole(period as usize), n) && forall|i: int| period - 1 <= i < upto ==> #[trigger] banded_at(numbers, close, period, n, mult, upper, middle, lower, i)
}

/// `upper`, `middle` and `lower` are the Bollinger bands of the closes: the
/// middle band is the simple moving average; the other two are absent where
/// it is, and else lie the multiple of the standard deviation of the window
/// above and below it.
pub open spec fn bands_made<V, N: Numbers<V>>(numbers: &N, close: Seq<V>, period: usize, mult: V, upper: Seq<Option<V>>, middle: Seq<Option<V>>, lower: Seq<Option<V>>) -> bool {
    &&& sma_made(numbers, close, period, middle)
    &&& upper.len() == close.len()
    &&& lower.len() == close.len()
    &&& (if period == 0 || close.len() < period {
        all_blank(upper) && all_blank(lower)
    } else {
        blank_before(upper, period - 1) && blank_before(lower, period - 1) && all_banded(numbers, close, period as int, close.len() as int, mult, upper, middle, lower)
    })
}

/// Bollinger bands: the simple moving average and, above and below it, a
/// multiple of the standard deviation of the same window. Returns upper,
/// middle and lower band.
pub fn bollinger_bands<V: Copy, N: Numbers<V>>(numbers: &N, close: &Vec<V>, period: usize, std_dev_mult: V) -> (r: (Vec<Option<V>>, Vec<Option<V>>, Vec<Option<V>>))
    ensures
        bands_made(numbers, close@, period, std_dev_mult, r.0@, r.1@, r.2@),
        r.0@.len() == close@.len(),
        r.1@.len() == close@.len(),
        r.2@.len() == close@.len(),
        period == 0 || close@.len() < period ==> all_blank(r.0@) && all_blank(r.1@) && all_blank(r.2@),
        period > 0 && close@.len() >= period ==> present_from(r.0@, period - 1) && present_from(r.1@, period - 1) && present_from(r.2@, period - 1),
{
    let len: usize = close.len();
    let middle = sma(numbers, close, period);
    let mut upper: Vec<Option<V>> = blank(len);
    let mut lower: Vec<Option<V>> = blank(len);
    if period == 0 || len < period {
        return (upper, middle, lower);
    }
    let n: V = count(numbers, period);
    let mut i: usize = period - 1;
    while i < len
        invariant
            0 < period <= len,
            period - 1 <= i <= len,
            len == close@.len(),
            middle@.len() == len,
            present_from(middle@, period - 1),
            upper@.len() == len,
            lower@.len() == len,
            forall|k: int| 0 <= k < len ==> ((#[trigger] upper@[k]) is Some <==> period - 1 <= k < i),
            forall|k: int| 0 <= k < len ==> ((#[trigger] lower@[k]) is Some <==> period - 1 <= k < i),
            ints(numbers, whole(period), n),
            forall|k: int| period - 1 <= k < i ==> #[trigger] banded_at(numbers, close@, period as int, n, std_dev_mult, upper@, middle@, lower@, k),
        decreases len - i,
    {
        assert(middle@[i as int] is Some);
        let ghost upper_before = upper@;
        let ghost lower_before = lower@;
        match middle[i] {
            Some(mean) => {
                let dev: V = deviation(numbers, close, i + 1 - period, i + 1, mean, n);
                let width: V = numbers.mul(std_dev_mult, dev);
                assert(muls(numbers, std_dev_mult, dev, width));
                let above: V = numbers.add(mean, width);
                let below: V = numbers.sub(mean, width);
                put(&mut upper, i, above);
                put(&mut lower, i, below);
                proof {
                    assert(adds(numbers, mean, width, above));
                    assert(subs(numbers, mean, width, below));
                    assert(banded_at(numbers, close@, period as int, n, std_dev_mult, upper@, middle@, lower@, i as int));
                }
            },
            None => {},
        }
        assert forall|k: int| period - 1 <= k < i + 1 implies #[trigger] banded_at(numbers, close@, period as int, n, std_dev_mult, upper@, middle@, lower@, k) by {
            if k < i {
                assert(banded_at(numbers, close@, period as int, n, std_dev_mult, upper_before, middle@, lower_before, k));
                assert(upper@[k] == upper_before[k]);
                assert(lower@[k] == lower_before[k]);
            }
        }
        i += 1;
    }
    assert(period as int as usize == period);
    assert(all_banded(numbers, close@, period as int, close@.len() as int, std_dev_mult, upper@, middle@, lower@));
    (upper, middle, lower)
}

/// Entry `i` is the standard deviation of the `period` closes that end at
/// `i`, about their mean.
pub open spec fn deviated_at<V, N: Numbers<V>>(numbers: &N, close: Seq<V>, period: int, n: V, result: Seq<Option<V>>, i: int) -> bool {
    result[i] is Some && exists|total: V| #[trigger]
        sums_to(numbers, close, i + 1 - period, i + 1, total) && exists|mean: V| #[trigger] divs(numbers, total, n, mean) && deviation_of(numbers, close, i + 1 - period, i + 1, mean, n, result[i]->Some_0)
}

/// `result` is the rolling standard deviation of the closes: absent
/// throughout without a period, else absent before the first full window
/// and from there on `deviated_at`.
pub open spec fn deviations_made<V, N: Numbers<V>>(numbers: &N, close: Seq<V>, period: usize, result: Seq<Option<V>>) -> bool {
    &&& result.len() == close.len()
    &&& (if period == 0 {
        all_blank(result)
    } else {
        blank_before(result, period - 1) && exists|n: V| #[trigger] ints(numbers, whole(period), n) && forall|i: int| period - 1 <= i < result.len() ==> #[trigger] deviated_at(numbers, close, period as int, n, result, i)
    })
}

/// Rolling standard deviation of the closes over `period` bars.
pub fn std_dev<V: Copy, N: Numbers<V>>(numbers: &N, close: &Vec<V>, period: usize) -> (result: Vec<Option<V>>)
    ensures
        deviations_made(numbers, close@, period, result@),
        result@.len() == close@.len(),
        period == 0 ==> all_blank(result@),
        period > 0 ==> present_from(result@, period - 1),
{
    let len: usize = close.len();
    let mut result: Vec<Option<V>> = blank(len);
    if period == 0 {
        return result;
    }
    let n: V = count(numbers, period);
    let mut i: usize = period - 1;
    while i < len
        invariant
            0 < period,
            period - 1 <= i,
            len == close@.len(),
            result@.len() == len,
            ints(numbers, whole(period), n),
            forall|k: int| 0 <= k < len ==> ((#[trigger] result@[k]) is Some <==> period - 1 <= k < i),
            forall|k: int| period - 1 <= k < i && k < len ==> #[trigger] deviated_at(numbers, close@, period as int, n, result@, k),
        decreases len - i,
    {
        let ghost before = result@;
        let from: usize = i + 1 - period;
        let total: V = sum_of(numbers, close, from, i + 1);
        let mean: V = numbers.div(total, n);
        let spread: V = deviation(numbers, close, from, i + 1, mean, n);
        put(&mut result, i, spread);
        proof {
            assert(sums_to(numbers, close@, i + 1 - period, i + 1, total));
            assert(divs(numbers, total, n, mean));
            assert(deviated_at(numbers, close@, period as int, n, result@, i as int));
            assert forall|k: int| period - 1 <= k < i + 1 && k < len implies #[trigger] deviated_at(numbers, close@, period as int, n, result@, k) by {
                if k < i {
                    assert(deviated_at(numbers, close@, period as int, n, before, k));
                    assert(result@[k] == before[k]);
                }
            }
        }
        i += 1;
    }
    result
}

/// At `i` the upper and the lower band lie the multiple of the average
/// true range above and below the middle band; they are absent where the
/// middle band or the average true range is.
pub open spec fn channel_at<V, N: Numbers<V>>(numbers: &N, ranges: Seq<Option<V>>, mult: V, upper: Seq<Option<V>>, middle: Seq<Option<V>>, lower: Seq<Option<V>>, i: int) -> bool {
    if middle[i] is Some && ranges[i] is Some {
        upper[i] is Some && lower[i] is Some && exists|width: V| #[trigger]
            muls(numbers, mult, ranges[i]->Some_0, width) && adds(numbers, middle[i]->Some_0, width, upper[i]->Some_0) && subs(numbers, middle[i]->Some_0, width, lower[i]->Some_0)
    } else {
        upper[i] is None && lower[i] is None
    }
}

/// `upper`, `middle` and `lower` are the Keltner channel of the bars: the
/// middle band is the exponential average of the closes, and the other two
/// lie the multiple of the average true range above and below it.
pub open spec fn keltner_made<V, N: Numbers<V>>(numbers: &N, high: Seq<V>, low: Seq<V>, close: Seq<V>, period: usize, mult: V, upper: Seq<Option<V>>, middle: Seq<Option<V>>, lower: Seq<Option<V>>) -> bool {
    &&& ema_made(numbers, close, period, middle)
    &&& upper.len() == close.len()
    &&& lower.len() == close.len()
    &&& exists|ranges: Seq<Option<V>>| #[trigger] atr_made(numbers, high, low, close, period, ranges) && forall|i: int| 0 <= i < close.len() ==> #[trigger] channel_at(numbers, ranges, mult, upper, middle, lower, i)
}

/// Keltner channel: the exponential average of the closes and, above and
/// below it, a multiple of the average true range. Returns upper, middle
/// and lower band.
pub fn keltner_channel<V: Copy, N: Numbers<V>>(numbers: &N, high: &Vec<V>, low: &Vec<V>, close: &Vec<V>, period: usize, multiplier: V) -> (r: (Vec<Option<V>>, Vec<Option<V>>, Vec<Option<V>>))
    requires
        aligned(high@, low@, close@),
    ensures
        keltner_made(numbers, high@, low@, close@, period, multiplier, r.0@, r.1@, r.2@),
        r.0@.len() == close@.len(),
        r.1@.len() == close@.len(),
        r.2@.len() == close@.len(),
        period == 0 || close@.len() < period ==> all_blank(r.0@) && all_blank(r.1@) && all_blank(r.2@),
        period > 0 && close@.len() >= period ==> present_from(r.0@, period - 1) && present_from(r.1@, period - 1) && present_from(r.2@, period - 1),
{
    let middle = ema(numbers, close, period);
    let atr_vals = atr(numbers, high, low, close, period);
    let len: usize = close.len();
    let mut upper: Vec<Option<V>> = blank(len);
    let mut lower: Vec<Option<V>> = blank(len);
    let mut i: usize = 0;
    while i < len
        invariant
            i <= len,
            middle@.len() == len,
            atr_vals@.len() == len,
            upper@.len() == len,
            lower@.len() == len,
            forall|k: int| 0 <= k < len ==> ((#[trigger] upper@[k]) is Some <==> k < i && middle@[k] is Some && atr_vals@[k] is Some),
            forall|k: int| 0 <= k < len ==> ((#[trigger] lower@[k]) is Some <==> k < i && middle@[k] is Some && atr_vals@[k] is Some),
            forall|k: int| 0 <= k < i ==> #[trigger] channel_at(numbers, atr_vals@, multiplier, upper@, middle@, lower@, k),
        decreases len - i,
    {
        let ghost upper_before = upper@;
        let ghost lower_before = lower@;
        match (middle[i], atr_vals[i]) {
            (Some(m), Some(a)) => {
                let width: V = numbers.mul(multiplier, a);
                let above: V = numbers.add(m, width);
                let below: V = numbers.sub(m, width);
                put(&mut upper, i, above);
                put(&mut lower, i, below);
                proof {
                    assert(muls(numbers, multiplier, a, width));
                    assert(adds(numbers, m, width, above));
                    assert(subs(numbers, m, width, below));
                }
            },
            _ => {},
        }
        proof {
            assert(channel_at(numbers, atr_vals@, multiplier, upper@, middle@, lower@, i as int));
            assert forall|k: int| 0 <= k < i + 1 implies #[trigger] channel_at(numbers, atr_vals@, multiplier, upper@, middle@, lower@, k) by {
                if k < i {
                    assert(channel_at(numbers, atr_vals@, multiplier, upper_before, middle@, lower_before, k));
                    assert(upper@[k] == upper_before[k] && lower@[k] == lower_before[k]);
                }
            }
        }
        i += 1;
    }
    (upper, middle, lower)
}

/// `out` is a band after a bar: the basic band of the bar where `numbers`
/// finds it inside the band before (less on the upper side, greater on the
/// lower), or else finds the close before beyond the band before; else the
/// band before.
pub open spec fn ratcheted<V, N: Numbers<V>>(numbers: &N, basic: V, band: V, close_before: V, upper: bool, out: V) -> bool {
    exists|inside: Relation| #[trigger]
        relates(numbers, basic, band, inside) && (if wanted(inside, !upper) {
            out == basic
        } else {
            exists|beyond: Relation| #[trigger] relates(numbers, close_before, band, beyond) && out == (if wanted(beyond, upper) {
                basic
            } else {
                band
            })
        })
}

/// `after` is the side of the line after a close: on the upper band it
/// stays until `numbers` finds the close greater than the band, on the
/// lower until it finds the close less than the band.
pub open spec fn turned_side<V, N: Numbers<V>>(numbers: &N, close: V, upper: V, lower: V, before: bool, after: bool) -> bool {
    if before {
        exists|r: Relation| #[trigger] relates(numbers, close, upper, r) && after == !r.gt()
    } else {
        exists|r: Relation| #[trigger] relates(numbers, close, lower, r) && after == r.lt()
    }
}

/// The bands and the side after bar `i`, given its two basic bands: at the
/// first bar of the line the bands are the basic ones and the line is on
/// the upper band where `numbers` finds the close at most as great; from
/// there on the bands are `ratcheted` and the side is `turned_side`.
pub open spec fn trended<V, N: Numbers<V>>(numbers: &N, close: Seq<V>, first: int, basic_upper: V, basic_lower: V, uppers: Seq<V>, lowers: Seq<V>, sides: Seq<bool>, i: int) -> bool {
    if i == first {
        uppers[i] == basic_upper && lowers[i] == basic_lower && exists|r: Relation| #[trigger] relates(numbers, close[i], basic_upper, r) && sides[i] == r.le()
    } else {
        ratcheted(numbers, basic_upper, uppers[i - 1], close[i - 1], true, uppers[i]) && ratcheted(numbers, basic_lower, lowers[i - 1], close[i - 1], false, lowers[i]) && turned_side(
            numbers,
            close[i],
            uppers[i],
            lowers[i],
            sides[i - 1],
            sides[i],
        )
    }
}

/// Entry `i` of the line: the basic bands lie the multiple of the average
/// true range above and below the middle of the bar; bands and side are
/// `trended`; and the entry is the upper band on the upper side, else the
/// lower.
pub open spec fn supertrend_at<V, N: Numbers<V>>(numbers: &N, high: Seq<V>, low: Seq<V>, close: Seq<V>, first: int, mult: V, two: V, ranges: Seq<Option<V>>, uppers: Seq<V>, lowers: Seq<V>, sides: Seq<bool>, result: Seq<Option<V>>, i: int) -> bool {
    ranges[i] is Some && exists|sum: V| #[trigger]
        adds(numbers, high[i], low[i], sum) && exists|middle: V| #[trigger]
            divs(numbers, sum, two, middle) && exists|width: V| #[trigger]
                muls(numbers, mult, ranges[i]->Some_0, width) && exists|basic_upper: V| #[trigger]
                    adds(numbers, middle, width, basic_upper) && exists|basic_lower: V| #[trigger]
                        subs(numbers, middle, width, basic_lower) && trended(numbers, close, first, basic_upper, basic_lower, uppers, lowers, sides, i) && result[i] == Some(pick(sides[i], uppers[i], lowers[i]))
}

/// The bands, the sides and the line of the SuperTrend over the bars.
pub open spec fn supertrend_run<V, N: Numbers<V>>(numbers: &N, high: Seq<V>, low: Seq<V>, close: Seq<V>, period: usize, mult: V, two: V, ranges: Seq<Option<V>>, uppers: Seq<V>, lowers: Seq<V>, sides: Seq<bool>, result: Seq<Option<V>>) -> bool {
    &&& ints(numbers, 2, two)
    &&& atr_made(numbers, high, low, close, period, ranges)
    &&& uppers.len() == high.len()
    &&& lowers.len() == high.len()
    &&& sides.len() == high.len()
    &&& forall|i: int| period - 1 <= i < high.len() ==> #[trigger] supertrend_at(numbers, high, low, close, period - 1, mult, two, ranges, uppers, lowers, sides, result, i)
}

/// `result` is the SuperTrend line of the bars: absent throughout without
/// a period or with fewer bars than the period; else absent before the
/// first full window and from there on `supertrend_at`.
pub open spec fn supertrend_made<V, N: Numbers<V>>(numbers: &N, high: Seq<V>, low: Seq<V>, close: Seq<V>, period: usize, mult: V, result: Seq<Option<V>>) -> bool {
    &&& result.len() == high.len()
    &&& (if period == 0 || high.len() < period {
        all_blank(result)
    } else {
        blank_before(result, period - 1) && exists|two: V, ranges: Seq<Option<V>>, uppers: Seq<V>, lowers: Seq<V>, sides: Seq<bool>| #[trigger] supertrend_run(numbers, high, low, close, period, mult, two, ranges, uppers, lowers, sides, result)
    })
}

/// A band after a bar.
fn ratchet<V: Copy, N: Numbers<V>>(numbers: &N, basic: V, band: V, close_before: V, upper: bool) -> (out: V)
    ensures
        ratcheted(numbers, basic, band, close_before, upper, out),
{
    if is_wanted(relation(numbers, basic, band), !upper) {
        return basic;
    }
    if is_wanted(relation(numbers, close_before, band), upper) {
        basic
    } else {
        band
    }
}

/// The side of the line after a close.
fn turn_side<V: Copy, N: Numbers<V>>(numbers: &N, close: V, upper: V, lower: V, before: bool) -> (after: bool)
    ensures
        turned_side(numbers, close, upper, lower, before, after),
{
    if before {
        !relation(numbers, close, upper).is_gt()
    } else {
        relation(numbers, close, lower).is_lt()
    }
}

/// SuperTrend: a band of a multiple of the average true range around the
/// bar midpoint, ratcheted so that the upper band only falls and the lower
/// band only rises while the close stays inside; the line is the upper band
/// while the trend is down and the lower band while it is up.
pub fn supertrend<V: Copy, N: Numbers<V>>(numbers: &N, high: &Vec<V>, low: &Vec<V>, close: &Vec<V>, period: usize, multiplier: V) -> (result: Vec<Option<V>>)
    requires
        aligned(high@, low@, close@),
    ensures
        supertrend_made(numbers, high@, low@, close@, period, multiplier, result@),
        result@.len() == high@.len(),
        period == 0 || high@.len() < period ==> all_blank(result@),
        period > 0 && high@.len() >= period ==> present_from(result@, period - 1),
{
    let len: usize = high.len();
    let atr_vals = atr(numbers, high, low, close, period);
    let mut result: Vec<Option<V>> = blank(len);
    if period == 0 || len < period {
        return result;
    }
    let two: V = numbers.from_int(2);
    let zero: V = numbers.from_int(0);
    assert(ints(numbers, 2, two));
    let mut upper: V = zero;
    let mut lower: V = zero;
    let mut is_upper: bool = false;
    let first_valid: usize = period - 1;
    let ghost mut uppers: Seq<V> = Seq::new(first_valid as nat, |k: int| zero);
    let ghost mut lowers: Seq<V> = Seq::new(first_valid as nat, |k: int| zero);
    let ghost mut sides: Seq<bool> = Seq::new(first_valid as nat, |k: int| false);
    let mut i: usize = first_valid;
    while i < len
        invariant
            0 < period <= len,
            first_valid == period - 1,
            first_valid <= i <= len,
            len == high@.len(),
            aligned(high@, low@, close@),
            atr_vals@.len() == len,
            present_from(atr_vals@, period - 1),
            result@.len() == len,
            uppers.len() == i,
            lowers.len() == i,
            sides.len() == i,
            i > first_valid ==> uppers[i - 1] == upper && lowers[i - 1] == lower && sides[i - 1] == is_upper,
            forall|k: int| 0 <= k < len ==> ((#[trigger] result@[k]) is Some <==> first_valid <= k < i),
            forall|k: int| first_valid <= k < i ==> #[trigger] supertrend_at(numbers, high@, low@, close@, first_valid as int, multiplier, two, atr_vals@, uppers, lowers, sides, result@, k),
        decreases len - i,
    {
        let ghost before = result@;
        let ghost uppers_before = uppers;
        let ghost lowers_before = lowers;
        let ghost sides_before = sides;
        assert(atr_vals@[i as int] is Some);
        match atr_vals[i] {
            Some(a) => {
                let sum: V = numbers.add(high[i], low[i]);
                let hl2: V = numbers.div(sum, two);
                let width: V = numbers.mul(multiplier, a);
                let basic_upper: V = numbers.add(hl2, width);
                let basic_lower: V = numbers.sub(hl2, width);
                if i == first_valid {
                    upper = basic_upper;
                    lower = basic_lower;
                    is_upper = relation(numbers, close[i], basic_upper).is_le();
                } else {
                    let close_before: V = close[i - 1];
                    upper = ratchet(numbers, basic_upper, upper, close_before, true);
                    lower = ratchet(numbers, basic_lower, lower, close_before, false);
                    is_upper = turn_side(numbers, close[i], upper, lower, is_upper);
                }
                let value: V = if is_upper {
                    upper
                } else {
                    lower
                };
                put(&mut result, i, value);
                proof {
                    uppers = uppers_before.push(upper);
                    lowers = lowers_before.push(lower);
                    sides = sides_before.push(is_upper);
                    assert(adds(numbers, high@[i as int], low@[i as int], sum));
                    assert(divs(numbers, sum, two, hl2));
                    assert(muls(numbers, multiplier, atr_vals@[i as int]->Some_0, width));
                    assert(adds(numbers, hl2, width, basic_upper));
                    assert(subs(numbers, hl2, width, basic_lower));
                    assert(trended(numbers, close@, first_valid as int, basic_upper, basic_lower, uppers, lowers, sides, i as int));
                    assert(result@[i as int] == Some(pick(sides[i as int], uppers[i as int], lowers[i as int])));
                    assert(supertrend_at(numbers, high@, low@, close@, first_valid as int, multiplier, two, atr_vals@, uppers, lowers, sides, result@, i as int));
                }
            },
            None => {
                proof {
                    uppers = uppers_before.push(upper);
                    lowers = lowers_before.push(lower);
                    sides = sides_before.push(is_upper);
                }
            },
        }
        proof {
            assert forall|k: int| first_valid <= k < i + 1 implies #[trigger] supertrend_at(numbers, high@, low@, close@, first_valid as int, multiplier, two, atr_vals@, uppers, lowers, sides, result@, k) by {
                if k < i {
                    assert(supertrend_at(numbers, high@, low@, close@, first_valid as int, multiplier, two, atr_vals@, uppers_before, lowers_before, sides_before, before, k));
                    assert(result@[k] == before[k] && uppers[k] == uppers_before[k] && lowers[k] == lowers_before[k] && sides[k] == sides_before[k]);
                    if k > first_valid {
                        assert(uppers[k - 1] == uppers_before[k - 1] && lowers[k - 1] == lowers_before[k - 1] && sides[k - 1] == sides_before[k - 1]);
                    }
                }
            }
        }
        i += 1;
    }
    assert(supertrend_run(numbers, high@, low@, close@, period, multiplier, two, atr_vals@, uppers, lowers, sides, result@));
    result
}

/// Step `j` of the scan of a window of closes: the peak so far takes in
/// close `from + j`, and the square of the fall of that close from the
/// peak, in percent of the peak, is added to the sum so far.
pub open spec fn fell_at<V, N: Numbers<V>>(numbers: &N, close: Seq<V>, from: int, hundred: V, peaks: Seq<V>, sums: Seq<V>, j: int) -> bool {
    maxes(numbers, peaks[j], close[from + j], peaks[j + 1]) && exists|gap: V| #[trigger]
        subs(numbers, close[from + j], peaks[j + 1], gap) && exists|share: V| #[trigger]
            divs(numbers, gap, peaks[j + 1], share) && exists|pct: V| #[trigger] muls(numbers, share, hundred, pct) && exists|square: V| #[trigger] muls(numbers, pct, pct, square) && adds(numbers, sums[j], square, sums[j + 1])
}

/// `peaks` and `sums` are the scan of the `count` closes from `from` on:
/// the peak begins at the lowest value and the sum at zero.
pub open spec fn window_fallen<V, N: Numbers<V>>(numbers: &N, close: Seq<V>, from: int, count: int, hundred: V, peaks: Seq<V>, sums: Seq<V>) -> bool {
    &&& peaks.len() == count + 1
    &&& sums.len() == count + 1
    &&& lowests(numbers, peaks[0])
    &&& ints(numbers, 0, sums[0])
    &&& forall|j: int| 0 <= j < count ==> #[trigger] fell_at(numbers, close, from, hundred, peaks, sums, j)
}

/// Entry `i` is the root of the mean of the squared falls of the `period`
/// closes that end at `i`.
pub open spec fn ulcered_at<V, N: Numbers<V>>(numbers: &N, close: Seq<V>, period: int, n: V, hundred: V, result: Seq<Option<V>>, i: int) -> bool {
    result[i] is Some && exists|peaks: Seq<V>, sums: Seq<V>| #[trigger] window_fallen(numbers, close, i + 1 - period, period, hundred, peaks, sums) && exists|mean: V| #[trigger] divs(numbers, sums[period], n, mean) && roots(numbers, mean, result[i]->Some_0)
}

/// `result` is the rolling ulcer index of the closes: absent throughout
/// without a period, else absent before the first full window and from
/// there on `ulcered_at`.
pub open spec fn ulcers_made<V, N: Numbers<V>>(numbers: &N, close: Seq<V>, period: usize, result: Seq<Option<V>>) -> bool {
    &&& result.len() == close.len()
    &&& (if period == 0 {
        all_blank(result)
    } else {
        blank_before(result, period - 1) && exists|n: V, hundred: V| #[trigger] ints(numbers, whole(period), n) && #[trigger] ints(numbers, 100, hundred) && forall|i: int| period - 1 <= i < result.len() ==> #[trigger] ulcered_at(numbers, close, period as int, n, hundred, result, i)
    })
}

/// The sum of the squared falls of the closes `from..to` from their
/// running peak, in percent.
fn squared_falls<V: Copy, N: Numbers<V>>(numbers: &N, close: &Vec<V>, from: usize, to: usize, hundred: V) -> (sum: V)
    requires
        from <= to <= close@.len(),
    ensures
        exists|peaks: Seq<V>, sums: Seq<V>| #[trigger] window_fallen(numbers, close@, from as int, to - from, hundred, peaks, sums) && sums[to - from] == sum,
{
    let mut max_close: V = numbers.lowest();
    let mut sum_sq: V = numbers.from_int(0);
    assert(lowests(numbers, max_close));
    assert(ints(numbers, 0, sum_sq));
    let ghost mut peaks: Seq<V> = seq![max_close];
    let ghost mut sums: Seq<V> = seq![sum_sq];
    let mut j: usize = from;
    while j < to
        invariant
            from <= j <= to <= close@.len(),
            window_fallen(numbers, close@, from as int, j - from, hundred, peaks, sums),
            peaks[j - from] == max_close,
            sums[j - from] == sum_sq,
        decreases to - j,
    {
        let ghost peaks_before = peaks;
        let ghost sums_before = sums;
        let ghost peak_before = max_close;
        let ghost sum_before = sum_sq;
        max_close = numbers.max(max_close, close[j]);
        let gap: V = numbers.sub(close[j], max_close);
        let share: V = numbers.div(gap, max_close);
        let pct_dd: V = numbers.mul(share, hundred);
        let square: V = numbers.mul(pct_dd, pct_dd);
        sum_sq = numbers.add(sum_sq, square);
        proof {
            peaks = peaks_before.push(max_close);
            sums = sums_before.push(sum_sq);
            assert(maxes(numbers, peak_before, close@[j as int], max_close));
            assert(subs(numbers, close@[j as int], max_close, gap));
            assert(divs(numbers, gap, max_close, share));
            assert(muls(numbers, share, hundred, pct_dd));
            assert(muls(numbers, pct_dd, pct_dd, square));
            assert(adds(numbers, sum_before, square, sum_sq));
            assert(close@[from + (j - from)] == close@[j as int]);
            assert(peaks_before.len() == j - from + 1 && sums_before.len() == j - from + 1);
            assert(peaks[j - from] == peak_before && peaks[j - from + 1] == max_close);
            assert(sums[j - from] == sum_before && sums[j - from + 1] == sum_sq);
            assert(fell_at(numbers, close@, from as int, hundred, peaks, sums, j - from));
            assert forall|k: int| 0 <= k < j + 1 - from implies #[trigger] fell_at(numbers, close@, from as int, hundred, peaks, sums, k) by {
                if k < j - from {
                    assert(fell_at(numbers, close@, from as int, hundred, peaks_before, sums_before, k));
                }
            }
        }
        j += 1;
    }
    sum_sq
}

/// Ulcer index: the root mean square of the percentage drawdown of each
/// close from the highest close so far within the window.
pub fn ulcer_index<V: Copy, N: Numbers<V>>(numbers: &N, close: &Vec<V>, period: usize) -> (result: Vec<Option<V>>)
    ensures
        ulcers_made(numbers, close@, period, result@),
        result@.len() == close@.len(),
        period == 0 ==> all_blank(result@),
        period > 0 ==> present_from(result@, period - 1),
{
    let len: usize = close.len();
    let mut result: Vec<Option<V>> = blank(len);
    if period == 0 {
        return result;
    }
    let n: V = count(numbers, period);
    let hundred: V = numbers.from_int(100);
    assert(ints(numbers, 100, hundred));
    let mut i: usize = period - 1;
    while i < len
        invariant
            0 < period,
            period - 1 <= i,
            len == close@.len(),
            result@.len() == len,
            forall|k: int| 0 <= k < len ==> ((#[trigger] result@[k]) is Some <==> period - 1 <= k < i),
            forall|k: int| period - 1 <= k < i && k < len ==> #[trigger] ulcered_at(numbers, close@, period as int, n, hundred, result@, k),
        decreases len - i,
    {
        let ghost before = result@;
        let sum_sq: V = squared_falls(numbers, close, i + 1 - period, i + 1, hundred);
        let mean: V = numbers.div(sum_sq, n);
        let value: V = numbers.sqrt(mean);
        put(&mut result, i, value);
        proof {
            assert(divs(numbers, sum_sq, n, mean));
            assert(roots(numbers, mean, value));
            assert(ulcered_at(numbers, close@, period as int, n, hundred, result@, i as int));
            assert forall|k: int| period - 1 <= k < i + 1 && k < len implies #[trigger] ulcered_at(numbers, close@, period as int, n, hundred, result@, k) by {
                if k < i {
                    assert(ulcered_at(numbers, close@, period as int, n, hundred, before, k));
                    assert(result@[k] == before[k]);
                }
            }
        }
        i += 1;
    }
    result
}

/// Entry `i` is the high of bar `i` less its low.
pub open spec fn spread_at<V, N: Numbers<V>>(numbers: &N, high: Seq<V>, low: Seq<V>, result: Seq<Option<V>>, i: int) -> bool {
    result[i] is Some && subs(numbers, high[i], low[i], result[i]->Some_0)
}

/// `result` holds the range of every bar.
pub open spec fn bar_ranges_made<V, N: Numbers<V>>(numbers: &N, high: Seq<V>, low: Seq<V>, result: Seq<Option<V>>) -> bool {
    result.len() == high.len() && forall|i: int| 0 <= i < result.len() ==> #[trigger] spread_at(numbers, high, low, result, i)
}

/// The range of every bar: high less low. Every entry is present.
pub fn bar_range<V: Copy, N: Numbers<V>>(numbers: &N, high: &Vec<V>, low: &Vec<V>) -> (result: Vec<Option<V>>)
    requires
        low@.len() == high@.len(),
    ensures
        bar_ranges_made(numbers, high@, low@, result@),
        result@.len() == high@.len(),
        present_from(result@, 0),
{
    let len: usize = high.len();
    let mut result: Vec<Option<V>> = Vec::new();
    let mut i: usize = 0;
    while i < len
        invariant
            i <= len,
            len == high@.len(),
            len == low@.len(),
            result@.len() == i,
            forall|k: int| 0 <= k < i ==> (#[trigger] result@[k]) is Some,
            forall|k: int| 0 <= k < i ==> #[trigger] spread_at(numbers, high@, low@, result@, k),
        decreases len - i,
    {
        let ghost before = result@;
        let value: V = numbers.sub(high[i], low[i]);
        assert(subs(numbers, high@[i as int], low@[i as int], value));
        result.push(Some(value));
        assert forall|k: int| 0 <= k < i + 1 implies #[trigger] spread_at(numbers, high@, low@, result@, k) by {
            if k < i {
                assert(spread_at(numbers, high@, low@, before, k));
                assert(result@[k] == before[k]);
            }
        }
        i += 1;
    }
    result
}

/// Which extreme of the last `period` bars a rolling indicator reads.
#[derive(Debug, Clone, Copy, PartialEq, Eq, Structural)]
pub enum Extreme {
    /// The greatest bar range.
    BiggestRange,
    /// The least bar range.
    SmallestRange,
    /// The highest value.
    Highest,
    /// The lowest value.
    Lowest,
}

/// `out` is where the search for an extreme starts: below all values for
/// a greatest, above all values for a least.
pub open spec fn extreme_start<V, N: Numbers<V>>(numbers: &N, which: Extreme, out: V) -> bool {
    match which {
        Extreme::BiggestRange | Extreme::Highest => lowests(numbers, out),
        _ => highests(numbers, out),
    }
}

/// `next` is the extreme so far after one bar: the larger, or the smaller,
/// of the extreme before and the bar's value, which for the two range
/// extremes is `first` less `second` and for the other two `first`.
pub open spec fn extreme_met<V, N: Numbers<V>>(numbers: &N, which: Extreme, best: V, first: V, second: V, next: V) -> bool {
    match which {
        Extreme::BiggestRange => exists|spread: V| #[trigger] subs(numbers, first, second, spread) && maxes(numbers, best, spread, next),
        Extreme::SmallestRange => exists|spread: V| #[trigger] subs(numbers, first, second, spread) && mins(numbers, best, spread, next),
        Extreme::Highest => maxes(numbers, best, first, next),
        Extreme::Lowest => mins(numbers, best, first, next),
    }
}

/// Step `k` of the search through a window that begins at `from`.
pub open spec fn met_at<V, N: Numbers<V>>(numbers: &N, first: Seq<V>, second: Seq<V>, which: Extreme, from: int, steps: Seq<V>, k: int) -> bool {
    extreme_met(numbers, which, steps[k], first[from + k], second[from + k], steps[k + 1])
}

/// `steps` holds the extreme so far before the first bar of the window and
/// after each of its bars.
pub open spec fn window_searched<V, N: Numbers<V>>(numbers: &N, first: Seq<V>, second: Seq<V>, which: Extreme, from: int, to: int, steps: Seq<V>) -> bool {
    &&& steps.len() == to - from + 1
    &&& extreme_start(numbers, which, steps[0])
    &&& forall|k: int| 0 <= k < to - from ==> #[trigger] met_at(numbers, first, second, which, from, steps, k)
}

/// Entry `i` is the extreme of the `period` bars that end at `i`.
pub open spec fn extreme_at<V, N: Numbers<V>>(numbers: &N, first: Seq<V>, second: Seq<V>, period: int, which: Extreme, result: Seq<Option<V>>, i: int) -> bool {
    result[i] is Some && exists|steps: Seq<V>| #[trigger] window_searched(numbers, first, second, which, i + 1 - period, i + 1, steps) && steps[period] == result[i]->Some_0
}

/// `result` holds the extreme of the last `period` bars, bar by bar: absent
/// throughout without a period, else absent before the first full window.
pub open spec fn extremes_made<V, N: Numbers<V>>(numbers: &N, first: Seq<V>, second: Seq<V>, period: usize, which: Extreme, result: Seq<Option<V>>) -> bool {
    &&& result.len() == first.len()
    &&& (if period == 0 {
        all_blank(result)
    } else {
        blank_before(result, period - 1) && forall|i: int| period - 1 <= i < result.len() ==> #[trigger] extreme_at(numbers, first, second, period as int, which, result, i)
    })
}

/// The extreme of the last `period` bars, bar by bar. For the two range
/// extremes `first` holds the highs and `second` the lows; for the other
/// two only `first` is read.
pub fn rolling_extreme<V: Copy, N: Numbers<V>>(numbers: &N, first: &Vec<V>, second: &Vec<V>, period: usize, which: Extreme) -> (result: Vec<Option<V>>)
    requires
        second@.len() == first@.len(),
    ensures
        extremes_made(numbers, first@, second@, period, which, result@),
        result@.len() == first@.len(),
        period == 0 ==> all_blank(result@),
        period > 0 ==> present_from(result@, period - 1),
{
    let len: usize = first.len();
    let mut result: Vec<Option<V>> = blank(len);
    if period == 0 {
        return result;
    }
    let mut i: usize = period - 1;
    while i < len
        invariant
            0 < period,
            period - 1 <= i,
            len == first@.len(),
            len == second@.len(),
            result@.len() == len,
            forall|k: int| 0 <= k < len ==> ((#[trigger] result@[k]) is Some <==> period - 1 <= k < i),
            forall|k: int| period - 1 <= k < i && k < len ==> #[trigger] extreme_at(numbers, first@, second@, period as int, which, result@, k),
        decreases len - i,
    {
        let ghost before = result@;
        let mut best: V = match which {
            Extreme::BiggestRange => numbers.lowest(),
            Extreme::Highest => numbers.lowest(),
            _ => numbers.highest(),
        };
        assert(extreme_start(numbers, which, best));
        let from: usize = i + 1 - period;
        let ghost mut steps: Seq<V> = seq![best];
        let mut j: usize = from;
        while j <= i
            invariant
                from <= j <= i + 1,
                from == i + 1 - period,
                i < len,
                len == first@.len(),
                len == second@.len(),
                window_searched(numbers, first@, second@, which, from as int, j as int, steps),
                steps[j - from] == best,
            decreases i + 1 - j,
        {
            let ghost earlier = steps;
            let ghost so_far = best;
            best = match which {
                Extreme::BiggestRange => {
                    let spread: V = numbers.sub(first[j], second[j]);
                    assert(subs(numbers, first@[j as int], second@[j as int], spread));
                    numbers.max(best, spread)
                },
                Extreme::SmallestRange => {
                    let spread: V = numbers.sub(first[j], second[j]);
                    assert(subs(numbers, first@[j as int], second@[j as int], spread));
                    numbers.min(best, spread)
                },
                Extreme::Highest => numbers.max(best, first[j]),
                Extreme::Lowest => numbers.min(best, first[j]),
            };
            proof {
                assert(extreme_met(numbers, which, so_far, first@[j as int], second@[j as int], best));
                steps = earlier.push(best);
                assert forall|k: int| 0 <= k < j + 1 - from implies #[trigger] met_at(numbers, first@, second@, which, from as int, steps, k) by {
                    if k < j - from {
                        assert(met_at(numbers, first@, second@, which, from as int, earlier, k));
                    }
                }
            }
            j += 1;
        }
        put(&mut result, i, best);
        proof {
            assert(window_searched(numbers, first@, second@, which, i + 1 - period, i + 1, steps));
            assert(extreme_at(numbers, first@, second@, period as int, which, result@, i as int));
            assert forall|k: int| period - 1 <= k < i + 1 && k < len implies #[trigger] extreme_at(numbers, first@, second@, period as int, which, result@, k) by {
                if k < i {
                    assert(extreme_at(numbers, first@, second@, period as int, which, before, k));
                    assert(result@[k] == before[k]);
                }
            }
        }
        i += 1;
    }
    result
}

/// The biggest bar range of the last `period` bars.
pub fn biggest_range<V: Copy, N: Numbers<V>>(numbers: &N, high: &Vec<V>, low: &Vec<V>, period: usize) -> (result: Vec<Option<V>>)
    requires
        low@.len() == high@.len(),
    ensures
        extremes_made(numbers, high@, low@, period, Extreme::BiggestRange, result@),
        result@.len() == high@.len(),
        period == 0 ==> all_blank(result@),
        period > 0 ==> present_from(result@, period - 1),
{
    rolling_extreme(numbers, high, low, period, Extreme::BiggestRange)
}

/// The smallest bar range of the last `period` bars.
pub fn smallest_range<V: Copy, N: Numbers<V>>(numbers: &N, high: &Vec<V>, low: &Vec<V>, period: usize) -> (result: Vec<Option<V>>)
    requires
        low@.len() == high@.len(),
    ensures
        extremes_made(numbers, high@, low@, period, Extreme::SmallestRange, result@),
        result@.len() == high@.len(),
        period == 0 ==> all_blank(result@),
        period > 0 ==> present_from(result@, period - 1),
{
    rolling_extreme(numbers, high, low, period, Extreme::SmallestRange)
}

/// The highest high of the last `period` bars.
pub fn highest_in_range<V: Copy, N: Numbers<V>>(numbers: &N, high: &Vec<V>, period: usize) -> (result: Vec<Option<V>>)
    ensures
        extremes_made(numbers, high@, high@, period, Extreme::Highest, result@),
        result@.len() == high@.len(),
        period == 0 ==> all_blank(result@),
        period > 0 ==> present_from(result@, period - 1),
{
    rolling_extreme(numbers, high, high, period, Extreme::Highest)
}

/// The lowest low of the last `period` bars.
pub fn lowest_in_range<V: Copy, N: Numbers<V>>(numbers: &N, low: &Vec<V>, period: usize) -> (result: Vec<Option<V>>)
    ensures
        extremes_made(numbers, low@, low@, period, Extreme::Lowest, result@),
        result@.len() == low@.len(),
        period == 0 ==> all_blank(result@),
        period > 0 ==> present_from(result@, period - 1),
{
    rolling_extreme(numbers, low, low, period, Extreme::Lowest)
}

/// Entry `i` is the middle of the range of the `period` bars that end at
/// `i`: the highest high plus the lowest low, over `two`.
pub open spec fn middle_at<V, N: Numbers<V>>(numbers: &N, high: Seq<V>, low: Seq<V>, period: int, two: V, result: Seq<Option<V>>, i: int) -> bool {
    result[i] is Some && exists|highest: V, lowest: V| #[trigger] window_range(numbers, high, low, i + 1 - period, i + 1, highest, lowest) && exists|sum: V| #[trigger] adds(numbers, highest, lowest, sum) && divs(numbers, sum, two, result[i]->Some_0)
}

/// `result` holds the middles of the ranges of the bars: absent throughout
/// without a period, else absent before the first full window and from
/// there on `middle_at`.
pub open spec fn middles_made<V, N: Numbers<V>>(numbers: &N, high: Seq<V>, low: Seq<V>, period: usize, result: Seq<Option<V>>) -> bool {
    &&& result.len() == high.len()
    &&& (if period == 0 {
        all_blank(result)
    } else {
        blank_before(result, period - 1) && exists|two: V| #[trigger] ints(numbers, 2, two) && forall|i: int| period - 1 <= i < result.len() ==> #[trigger] middle_at(numbers, high, low, period as int, two, result, i)
    })
}

/// The midpoint of the highest high and the lowest low of the last `period`
/// bars.
fn midpoint<V: Copy, N: Numbers<V>>(numbers: &N, high: &Vec<V>, low: &Vec<V>, period: usize) -> (result: Vec<Option<V>>)
    requires
        low@.len() == high@.len(),
    ensures
        middles_made(numbers, high@, low@, period, result@),
        result@.len() == high@.len(),
        period == 0 ==> all_blank(result@),
        period > 0 ==> present_from(result@, period - 1),
{
    let len: usize = high.len();
    let mut result: Vec<Option<V>> = blank(len);
    if period == 0 {
        return result;
    }
    let two: V = numbers.from_int(2);
    assert(ints(numbers, 2, two));
    let mut i: usize = period - 1;
    while i < len
        invariant
            0 < period,
            period - 1 <= i,
            len == high@.len(),
            len == low@.len(),
            result@.len() == len,
            forall|k: int| 0 <= k < len ==> ((#[trigger] result@[k]) is Some <==> period - 1 <= k < i),
            forall|k: int| period - 1 <= k < i && k < len ==> #[trigger] middle_at(numbers, high@, low@, period as int, two, result@, k),
        decreases len - i,
    {
        let ghost before = result@;
        let floor: V = numbers.lowest();
        let ceiling: V = numbers.highest();
        assert(lowests(numbers, floor));
        assert(highests(numbers, ceiling));
        let hh: V = max_of(numbers, high, i + 1 - period, i + 1, floor);
        let ll: V = min_of(numbers, low, i + 1 - period, i + 1, ceiling);
        assert(window_range(numbers, high@, low@, i + 1 - period, i + 1, hh, ll));
        let sum: V = numbers.add(hh, ll);
        let middle: V = numbers.div(sum, two);
        put(&mut result, i, middle);
        proof {
            assert(adds(numbers, hh, ll, sum));
            assert(divs(numbers, sum, two, middle));
            assert(middle_at(numbers, high@, low@, period as int, two, result@, i as int));
            assert forall|k: int| period - 1 <= k < i + 1 && k < len implies #[trigger] middle_at(numbers, high@, low@, period as int, two, result@, k) by {
                if k < i {
                    assert(middle_at(numbers, high@, low@, period as int, two, before, k));
                    assert(result@[k] == before[k]);
                }
            }
        }
        i += 1;
    }
    result
}

/// Entry `i` is the level that lies the share `share` of the range of the
/// `period` bars that end at `i` below their highest high.
pub open spec fn retraced_at<V, N: Numbers<V>>(numbers: &N, high: Seq<V>, low: Seq<V>, period: int, share: V, result: Seq<Option<V>>, i: int) -> bool {
    result[i] is Some && exists|highest: V, lowest: V| #[trigger]
        window_range(numbers, high, low, i + 1 - period, i + 1, highest, lowest) && exists|span: V| #[trigger]
            subs(numbers, highest, lowest, span) && exists|part: V| #[trigger] muls(numbers, span, share, part) && subs(numbers, highest, part, result[i]->Some_0)
}

/// `result` is the retracement level of `per_mille` thousandths: absent
/// throughout without a period, else absent before the first full window
/// and from there on `retraced_at`.
pub open spec fn retracement_made<V, N: Numbers<V>>(numbers: &N, high: Seq<V>, low: Seq<V>, period: usize, per_mille: i64, result: Seq<Option<V>>) -> bool {
    &&& result.len() == high.len()
    &&& (if period == 0 {
        all_blank(result)
    } else {
        blank_before(result, period - 1) && exists|share: V| #[trigger] ratios(numbers, per_mille, 1000, share) && forall|i: int| period - 1 <= i < result.len() ==> #[trigger] retraced_at(numbers, high, low, period as int, share, result, i)
    })
}

/// One retracement level of the last `period` bars: the highest high less
/// `per_mille` thousandths of the range down to the lowest low.
fn retracement<V: Copy, N: Numbers<V>>(numbers: &N, high: &Vec<V>, low: &Vec<V>, period: usize, per_mille: i64) -> (result: Vec<Option<V>>)
    requires
        low@.len() == high@.len(),
    ensures
        retracement_made(numbers, high@, low@, period, per_mille, result@),
        result@.len() == high@.len(),
        period == 0 ==> all_blank(result@),
        period > 0 ==> present_from(result@, period - 1),
{
    let len: usize = high.len();
    let mut result: Vec<Option<V>> = blank(len);
    if period == 0 {
        return result;
    }
    let share: V = numbers.ratio(per_mille, 1000);
    assert(ratios(numbers, per_mille, 1000, share));
    let mut i: usize = period - 1;
    while i < len
        invariant
            0 < period,
            period - 1 <= i,
            len == high@.len(),
            len == low@.len(),
            result@.len() == len,
            forall|k: int| 0 <= k < len ==> ((#[trigger] result@[k]) is Some <==> period - 1 <= k < i),
            forall|k: int| period - 1 <= k < i && k < len ==> #[trigger] retraced_at(numbers, high@, low@, period as int, share, result@, k),
        decreases len - i,
    {
        let ghost before = result@;
        let floor: V = numbers.lowest();
        let ceiling: V = numbers.highest();
        assert(lowests(numbers, floor));
        assert(highests(numbers, ceiling));
        let hh: V = max_of(numbers, high, i + 1 - period, i + 1, floor);
        let ll: V = min_of(numbers, low, i + 1 - period, i + 1, ceiling);
        assert(window_range(numbers, high@, low@, i + 1 - period, i + 1, hh, ll));
        let span: V = numbers.sub(hh, ll);
        let part: V = numbers.mul(span, share);
        let level: V = numbers.sub(hh, part);
        put(&mut result, i, level);
        proof {
            assert(subs(numbers, hh, ll, span));
            assert(muls(numbers, span, share, part));
            assert(subs(numbers, hh, part, level));
            assert(retraced_at(numbers, high@, low@, period as int, share, result@, i as int));
            assert forall|k: int| period - 1 <= k < i + 1 && k < len implies #[trigger] retraced_at(numbers, high@, low@, period as int, share, result@, k) by {
                if k < i {
                    assert(retraced_at(numbers, high@, low@, period as int, share, before, k));
                    assert(result@[k] == before[k]);
                }
            }
        }
        i += 1;
    }
    result
}

/// The names of the outputs of a list of named series, in order.
pub open spec fn names_of<V>(series: Seq<NamedSeries<V>>) -> Seq<Seq<char>> {
    Seq::new(series.len(), |i: int| series[i].name@)
}

/// Every series of the list has `len` entries.
pub open spec fn all_of_length<V>(series: Seq<NamedSeries<V>>, len: int) -> bool {
    forall|i: int| 0 <= i < series.len() ==> (#[trigger] series[i]).values@.len() == len
}

/// A series under a name.
fn named<V>(name: &str, values: Vec<Option<V>>) -> (s: NamedSeries<V>)
    ensures
        s.name@ == name@,
        s.values == values,
{
    NamedSeries { name: String::from_str(name), values }
}

/// The five levels are the retracements of 236, 382, 500, 618 and 786
/// thousandths, in this order.
pub open spec fn fibonacci_made<V, N: Numbers<V>>(numbers: &N, high: Seq<V>, low: Seq<V>, period: usize, levels: Seq<NamedSeries<V>>) -> bool {
    &&& levels.len() == 5
    &&& retracement_made(numbers, high, low, period, 236, levels[0].values@)
    &&& retracement_made(numbers, high, low, period, 382, levels[1].values@)
    &&& retracement_made(numbers, high, low, period, 500, levels[2].values@)
    &&& retracement_made(numbers, high, low, period, 618, levels[3].values@)
    &&& retracement_made(numbers, high, low, period, 786, levels[4].values@)
}

/// Rolling Fibonacci retracement levels between the highest high and the
/// lowest low of the last `period` bars, under the names `level_236`,
/// `level_382`, `level_500`, `level_618` and `level_786`.
pub fn fibonacci<V: Copy, N: Numbers<V>>(numbers: &N, high: &Vec<V>, low: &Vec<V>, period: usize) -> (levels: Vec<NamedSeries<V>>)
    requires
        low@.len() == high@.len(),
    ensures
        levels@.len() == 5,
        names_of(levels@) == seq!["level_236"@, "level_382"@, "level_500"@, "level_618"@, "level_786"@],
        all_of_length(levels@, high@.len() as int),
        period > 0 ==> forall|i: int| 0 <= i < 5 ==> present_from((#[trigger] levels@[i]).values@, period - 1),
        fibonacci_made(numbers, high@, low@, period, levels@),
{
    let mut levels: Vec<NamedSeries<V>> = Vec::new();
    levels.push(named("level_236", retracement(numbers, high, low, period, 236)));
    levels.push(named("level_382", retracement(numbers, high, low, period, 382)));
    levels.push(named("level_500", retracement(numbers, high, low, period, 500)));
    levels.push(named("level_618", retracement(numbers, high, low, period, 618)));
    levels.push(named("level_786", retracement(numbers, high, low, period, 786)));
    assert(names_of(levels@) =~= seq!["level_236"@, "level_382"@, "level_500"@, "level_618"@, "level_786"@]);
    levels
}

/// A relation is the one that is asked for: greater on the upper side,
/// less on the lower.
pub open spec fn wanted(r: Relation, upper: bool) -> bool {
    if upper {
        r.gt()
    } else {
        r.lt()
    }
}

/// `verdict` says whether entry `mid` of a column stands out from the two
/// entries on either side of it: whether `numbers` finds it in the wanted
/// relation to the entry two before, the entry before, the entry after and
/// the entry two after, asked in this order up to the first that fails.
pub open spec fn stands_out<V, N: Numbers<V>>(numbers: &N, column: Seq<V>, mid: int, upper: bool, verdict: bool) -> bool {
    exists|first: Relation| #[trigger]
        relates(numbers, column[mid], column[mid - 2], first) && (if !wanted(first, upper) {
            !verdict
        } else {
            exists|second: Relation| #[trigger]
                relates(numbers, column[mid], column[mid - 1], second) && (if !wanted(second, upper) {
                    !verdict
                } else {
                    exists|third: Relation| #[trigger]
                        relates(numbers, column[mid], column[mid + 1], third) && (if !wanted(third, upper) {
                            !verdict
                        } else {
                            exists|fourth: Relation| #[trigger] relates(numbers, column[mid], column[mid + 2], fourth) && verdict == wanted(fourth, upper)
                        })
                })
        })
}

/// Entry `i` of a fractal line is entry `i - 2` of the column where that
/// stands out, and absent where it does not.
pub open spec fn fractal_at<V, N: Numbers<V>>(numbers: &N, column: Seq<V>, upper: bool, line: Seq<Option<V>>, i: int) -> bool {
    exists|verdict: bool| #[trigger] stands_out(numbers, column, i - 2, upper, verdict) && line[i] == (if verdict {
        Some(column[i - 2])
    } else {
        None
    })
}

/// `up` and `down` are the fractal lines of the bars: absent for the first
/// four bars, and from there on `fractal_at` of the highs and of the lows.
pub open spec fn fractals_made<V, N: Numbers<V>>(numbers: &N, high: Seq<V>, low: Seq<V>, up: Seq<Option<V>>, down: Seq<Option<V>>) -> bool {
    &&& up.len() == high.len()
    &&& down.len() == high.len()
    &&& blank_before(up, 4)
    &&& blank_before(down, 4)
    &&& forall|i: int| 4 <= i < high.len() ==> #[trigger] fractal_at(numbers, high, true, up, i)
    &&& forall|i: int| 4 <= i < high.len() ==> #[trigger] fractal_at(numbers, low, false, down, i)
}

/// Whether a relation is the one that is asked for.
fn is_wanted(r: Relation, upper: bool) -> (b: bool)
    ensures
        b == wanted(r, upper),
{
    if upper {
        r.is_gt()
    } else {
        r.is_lt()
    }
}

/// Whether entry `mid` of a column stands out from its neighbours.
fn standout<V: Copy, N: Numbers<V>>(numbers: &N, column: &Vec<V>, mid: usize, upper: bool) -> (verdict: bool)
    requires
        2 <= mid,
        mid + 2 < column@.len(),
    ensures
        stands_out(numbers, column@, mid as int, upper, verdict),
{
    let len: usize = column.len();
    assert(mid + 2 < len);
    if !is_wanted(relation(numbers, column[mid], column[mid - 2]), upper) {
        return false;
    }
    if !is_wanted(relation(numbers, column[mid], column[mid - 1]), upper) {
        return false;
    }
    if !is_wanted(relation(numbers, column[mid], column[mid + 1]), upper) {
        return false;
    }
    is_wanted(relation(numbers, column[mid], column[mid + 2]), upper)
}

/// Five-bar fractals: an entry holds the high, or the low, of the bar two
/// bars back where that bar stands out against its two neighbours on either
/// side. Returns the up and the down fractals. The first four entries are
/// absent.
pub fn fractal<V: Copy, N: Numbers<V>>(numbers: &N, high: &Vec<V>, low: &Vec<V>) -> (r: (Vec<Option<V>>, Vec<Option<V>>))
    requires
        low@.len() == high@.len(),
    ensures
        fractals_made(numbers, high@, low@, r.0@, r.1@),
        r.0@.len() == high@.len(),
        r.1@.len() == high@.len(),
        blank_before(r.0@, 4),
        blank_before(r.1@, 4),
        forall|i: int| 4 <= i < high@.len() && (#[trigger] r.0@[i]) is Some ==> r.0@[i] == Some(high@[i - 2]),
        forall|i: int| 4 <= i < high@.len() && (#[trigger] r.1@[i]) is Some ==> r.1@[i] == Some(low@[i - 2]),
{
    let len: usize = high.len();
    let mut up: Vec<Option<V>> = blank(len);
    let mut down: Vec<Option<V>> = blank(len);
    let mut i: usize = 4;
    while i < len
        invariant
            4 <= i,
            len == high@.len(),
            len == low@.len(),
            up@.len() == len,
            down@.len() == len,
            blank_before(up@, 4),
            blank_before(down@, 4),
            forall|k: int| i <= k < len ==> (#[trigger] up@[k]) is None,
            forall|k: int| i <= k < len ==> (#[trigger] down@[k]) is None,
            forall|k: int| 4 <= k < len && (#[trigger] up@[k]) is Some ==> up@[k] == Some(high@[k - 2]),
            forall|k: int| 4 <= k < len && (#[trigger] down@[k]) is Some ==> down@[k] == Some(low@[k - 2]),
            forall|k: int| 4 <= k < i && k < len ==> #[trigger] fractal_at(numbers, high@, true, up@, k),
            forall|k: int| 4 <= k < i && k < len ==> #[trigger] fractal_at(numbers, low@, false, down@, k),
        decreases len - i,
    {
        let ghost ups = up@;
        let ghost downs = down@;
        let mid: usize = i - 2;
        if standout(numbers, high, mid, true) {
            put(&mut up, i, high[mid]);
        }
        if standout(numbers, low, mid, false) {
            put(&mut down, i, low[mid]);
        }
        proof {
            assert(fractal_at(numbers, high@, true, up@, i as int));
            assert(fractal_at(numbers, low@, false, down@, i as int));
            assert forall|k: int| 4 <= k < i + 1 && k < len implies #[trigger] fractal_at(numbers, high@, true, up@, k) by {
                if k < i {
                    assert(fractal_at(numbers, high@, true, ups, k));
                    assert(up@[k] == ups[k]);
                }
            }
            assert forall|k: int| 4 <= k < i + 1 && k < len implies #[trigger] fractal_at(numbers, low@, false, down@, k) by {
                if k < i {
                    assert(fractal_at(numbers, low@, false, downs, k));
                    assert(down@[k] == downs[k]);
                }
            }
        }
        i += 1;
    }
    (up, down)
}

/// `after` is the side of the market after a close: up where `numbers`
/// finds the close greater than the mean of the highs; else down where it
/// finds the close less than the mean of the lows; else as before.
pub open spec fn sided<V, N: Numbers<V>>(numbers: &N, close: V, mean_high: V, mean_low: V, before: bool, after: bool) -> bool {
    exists|above: Relation| #[trigger]
        relates(numbers, close, mean_high, above) && (if above == Relation::Greater {
            after
        } else {
            exists|below: Relation| #[trigger] relates(numbers, close, mean_low, below) && after == (below != Relation::Less && before)
        })
}

/// Entry `i` of the Gann HiLo line: where both means are present, the side
/// is `sided` from the side before, which is up before the first bar, and
/// the entry is the mean of the lows on the up side, that of the highs on
/// the down side; else the entry is absent and the side stays.
pub open spec fn gann_at<V, N: Numbers<V>>(numbers: &N, close: Seq<V>, mean_high: Seq<Option<V>>, mean_low: Seq<Option<V>>, up: Seq<bool>, result: Seq<Option<V>>, i: int) -> bool {
    let before = i == 0 || up[i - 1];
    if mean_high[i] is Some && mean_low[i] is Some {
        sided(numbers, close[i], mean_high[i]->Some_0, mean_low[i]->Some_0, before, up[i]) && result[i] == Some(if up[i] {
            mean_low[i]->Some_0
        } else {
            mean_high[i]->Some_0
        })
    } else {
        result[i] is None && up[i] == before
    }
}

/// The steps of the Gann HiLo line over the means of the highs and of the
/// lows, with the side after every bar.
pub open spec fn gann_run<V, N: Numbers<V>>(numbers: &N, high: Seq<V>, low: Seq<V>, close: Seq<V>, period: usize, mean_high: Seq<Option<V>>, mean_low: Seq<Option<V>>, up: Seq<bool>, result: Seq<Option<V>>) -> bool {
    &&& sma_made(numbers, high, period, mean_high)
    &&& sma_made(numbers, low, period, mean_low)
    &&& up.len() == high.len()
    &&& forall|i: int| 0 <= i < high.len() ==> #[trigger] gann_at(numbers, close, mean_high, mean_low, up, result, i)
}

/// `result` is the Gann HiLo line of the bars.
pub open spec fn gann_made<V, N: Numbers<V>>(numbers: &N, high: Seq<V>, low: Seq<V>, close: Seq<V>, period: usize, result: Seq<Option<V>>) -> bool {
    result.len() == high.len() && exists|mean_high: Seq<Option<V>>, mean_low: Seq<Option<V>>, up: Seq<bool>| #[trigger] gann_run(numbers, high, low, close, period, mean_high, mean_low, up, result)
}

/// The side of the market after a close.
fn side_after<V: Copy, N: Numbers<V>>(numbers: &N, close: V, mean_high: V, mean_low: V, before: bool) -> (after: bool)
    ensures
        sided(numbers, close, mean_high, mean_low, before, after),
{
    match relation(numbers, close, mean_high) {
        Relation::Greater => true,
        _ => match relation(numbers, close, mean_low) {
            Relation::Less => false,
            _ => before,
        },
    }
}

/// Gann HiLo activator: the mean of the lows while the trend is up and the
/// mean of the highs while it is down; the trend turns up when the close
/// rises above the mean of the highs and down when it falls below the mean
/// of the lows.
pub fn gann_hilo<V: Copy, N: Numbers<V>>(numbers: &N, high: &Vec<V>, low: &Vec<V>, close: &Vec<V>, period: usize) -> (result: Vec<Option<V>>)
    requires
        aligned(high@, low@, close@),
    ensures
        gann_made(numbers, high@, low@, close@, period, result@),
        result@.len() == high@.len(),
        period == 0 || high@.len() < period ==> all_blank(result@),
        period > 0 && high@.len() >= period ==> present_from(result@, period - 1),
{
    let sma_h = sma(numbers, high, period);
    let sma_l = sma(numbers, low, period);
    let len: usize = high.len();
    let mut result: Vec<Option<V>> = blank(len);
    let mut is_bullish: bool = true;
    let ghost mut up: Seq<bool> = Seq::empty();
    let mut i: usize = 0;
    while i < len
        invariant
            i <= len,
            len == high@.len(),
            aligned(high@, low@, close@),
            sma_h@.len() == len,
            sma_l@.len() == len,
            result@.len() == len,
            up.len() == i,
            is_bullish == (i == 0 || up[i - 1]),
            forall|k: int| 0 <= k < len ==> ((#[trigger] result@[k]) is Some <==> k < i && sma_h@[k] is Some && sma_l@[k] is Some),
            forall|k: int| 0 <= k < i ==> #[trigger] gann_at(numbers, close@, sma_h@, sma_l@, up, result@, k),
        decreases len - i,
    {
        let ghost before = result@;
        let ghost sides = up;
        match (sma_h[i], sma_l[i]) {
            (Some(h), Some(l)) => {
                is_bullish = side_after(numbers, close[i], h, l, is_bullish);
                put(&mut result, i, if is_bullish {
                    l
                } else {
                    h
                });
            },
            _ => {},
        }
        proof {
            up = sides.push(is_bullish);
            assert(gann_at(numbers, close@, sma_h@, sma_l@, up, result@, i as int));
            assert forall|k: int| 0 <= k < i + 1 implies #[trigger] gann_at(numbers, close@, sma_h@, sma_l@, up, result@, k) by {
                if k < i {
                    assert(gann_at(numbers, close@, sma_h@, sma_l@, sides, before, k));
                    assert(result@[k] == before[k] && up[k] == sides[k]);
                    if k > 0 {
                        assert(up[k - 1] == sides[k - 1]);
                    }
                }
            }
        }
        i += 1;
    }
    assert(gann_run(numbers, high@, low@, close@, period, sma_h@, sma_l@, up, result@));
    result
}

/// Entry `i` of the two Heiken Ashi lines: the close is the mean of the
/// four prices of the bar; the open is the mean of the open and the close
/// before it, and for the first bar of its own open and close.
pub open spec fn smoothed_bar_at<V, N: Numbers<V>>(numbers: &N, open: Seq<V>, high: Seq<V>, low: Seq<V>, close: Seq<V>, two: V, four: V, ha_close: Seq<Option<V>>, ha_open: Seq<Option<V>>, i: int) -> bool {
    &&& ha_close[i] is Some
    &&& ha_open[i] is Some
    &&& exists|first: V| #[trigger]
        adds(numbers, open[i], high[i], first) && exists|second: V| #[trigger] adds(numbers, first, low[i], second) && exists|all: V| #[trigger] adds(numbers, second, close[i], all) && divs(numbers, all, four, ha_close[i]->Some_0)
    &&& (if i == 0 {
        exists|sum: V| #[trigger] adds(numbers, open[i], close[i], sum) && divs(numbers, sum, two, ha_open[i]->Some_0)
    } else {
        ha_open[i - 1] is Some && ha_close[i - 1] is Some && exists|sum: V| #[trigger] adds(numbers, ha_open[i - 1]->Some_0, ha_close[i - 1]->Some_0, sum) && divs(numbers, sum, two, ha_open[i]->Some_0)
    })
}

/// `ha_close` and `ha_open` are the Heiken Ashi close and open of the bars.
pub open spec fn heiken_made<V, N: Numbers<V>>(numbers: &N, open: Seq<V>, high: Seq<V>, low: Seq<V>, close: Seq<V>, ha_close: Seq<Option<V>>, ha_open: Seq<Option<V>>) -> bool {
    &&& ha_close.len() == open.len()
    &&& ha_open.len() == open.len()
    &&& exists|two: V, four: V| #[trigger] ints(numbers, 2, two) && #[trigger] ints(numbers, 4, four) && forall|i: int| 0 <= i < open.len() ==> #[trigger] smoothed_bar_at(numbers, open, high, low, close, two, four, ha_close, ha_open, i)
}

/// Heiken Ashi: the close is the mean of the bar's four prices, the open
/// the mean of the Heiken Ashi open and close of the bar before. Returns
/// close and open. Every entry is present.
pub fn heiken_ashi<V: Copy, N: Numbers<V>>(numbers: &N, open: &Vec<V>, high: &Vec<V>, low: &Vec<V>, close: &Vec<V>) -> (r: (Vec<Option<V>>, Vec<Option<V>>))
    requires
        aligned(high@, low@, close@),
        open@.len() == high@.len(),
    ensures
        heiken_made(numbers, open@, high@, low@, close@, r.0@, r.1@),
        r.0@.len() == open@.len(),
        r.1@.len() == open@.len(),
        present_from(r.0@, 0),
        present_from(r.1@, 0),
{
    let len: usize = open.len();
    let mut ha_close: Vec<Option<V>> = Vec::new();
    let mut ha_open: Vec<Option<V>> = Vec::new();
    let two: V = numbers.from_int(2);
    let four: V = numbers.from_int(4);
    assert(ints(numbers, 2, two));
    assert(ints(numbers, 4, four));
    let mut prev_open: V = two;
    let mut prev_close: V = two;
    let mut i: usize = 0;
    while i < len
        invariant
            i <= len,
            len == open@.len(),
            len == high@.len(),
            aligned(high@, low@, close@),
            ha_close@.len() == i,
            ha_open@.len() == i,
            forall|k: int| 0 <= k < i ==> (#[trigger] ha_close@[k]) is Some,
            forall|k: int| 0 <= k < i ==> (#[trigger] ha_open@[k]) is Some,
            i > 0 ==> ha_open@[i - 1] == Some(prev_open) && ha_close@[i - 1] == Some(prev_close),
            forall|k: int| 0 <= k < i ==> #[trigger] smoothed_bar_at(numbers, open@, high@, low@, close@, two, four, ha_close@, ha_open@, k),
        decreases len - i,
    {
        let ghost closes = ha_close@;
        let ghost opens = ha_open@;
        let first: V = numbers.add(open[i], high[i]);
        let second: V = numbers.add(first, low[i]);
        let all: V = numbers.add(second, close[i]);
        let c: V = numbers.div(all, four);
        let sum: V = if i == 0 {
            numbers.add(open[i], close[i])
        } else {
            numbers.add(prev_open, prev_close)
        };
        let o: V = numbers.div(sum, two);
        ha_close.push(Some(c));
        ha_open.push(Some(o));
        proof {
            assert(adds(numbers, open@[i as int], high@[i as int], first));
            assert(adds(numbers, first, low@[i as int], second));
            assert(adds(numbers, second, close@[i as int], all));
            assert(divs(numbers, all, four, c));
            assert(divs(numbers, sum, two, o));
            assert(ha_close@[i as int] == Some(c) && ha_open@[i as int] == Some(o));
            if i == 0 {
                assert(adds(numbers, open@[i as int], close@[i as int], sum));
            } else {
                assert(adds(numbers, prev_open, prev_close, sum));
                assert(ha_open@[i - 1] == opens[i - 1] && ha_close@[i - 1] == closes[i - 1]);
                assert(ha_open@[i - 1] == Some(prev_open) && ha_close@[i - 1] == Some(prev_close));
                assert(adds(numbers, ha_open@[i - 1]->Some_0, ha_close@[i - 1]->Some_0, sum));
            }
            assert(smoothed_bar_at(numbers, open@, high@, low@, close@, two, four, ha_close@, ha_open@, i as int));
            assert forall|k: int| 0 <= k < i + 1 implies #[trigger] smoothed_bar_at(numbers, open@, high@, low@, close@, two, four, ha_close@, ha_open@, k) by {
                if k < i {
                    assert(smoothed_bar_at(numbers, open@, high@, low@, close@, two, four, closes, opens, k));
                    assert(ha_close@[k] == closes[k] && ha_open@[k] == opens[k]);
                    if k > 0 {
                        assert(ha_close@[k - 1] == closes[k - 1] && ha_open@[k - 1] == opens[k - 1]);
                    }
                }
            }
        }
        prev_open = o;
        prev_close = c;
        i += 1;
    }
    (ha_close, ha_open)
}

/// The largest whole number whose square is not above `n`.
pub open spec fn is_root(n: int, r: int) -> bool {
    r >= 0 && r * r <= n && (r + 1) * (r + 1) > n
}

/// Computes the whole part of a square root.
pub fn whole_root(n: usize) -> (r: usize)
    ensures
        is_root(n as int, r as int),
{
    let mut r: usize = 0;
    while r < 4_294_967_295 && (r + 1) <= n / (r + 1)
        invariant
            r <= 4_294_967_295,
            r * r <= n,
        decreases 4_294_967_295 - r,
    {
        proof {
            let next = (r + 1) as int;
            let q = (n / (r + 1) as usize) as int;
            assert(next * q <= n) by {
                vstd::arithmetic::div_mod::lemma_fundamental_div_mod(n as int, next);
                assert(next * q == n as int - n as int % next);
            }
            assert(next * next <= next * q) by (nonlinear_arith)
                requires
                    next <= q,
                    next >= 0,
            ;
        }
        r += 1;
    }
    proof {
        let next = (r + 1) as int;
        if r == 4_294_967_295 {
            assert(next * next > n) by (nonlinear_arith)
                requires
                    next == 4_294_967_296,
                    n <= u64::MAX,
            ;
        } else {
            let q = (n / (r + 1) as usize) as int;
            vstd::arithmetic::div_mod::lemma_fundamental_div_mod(n as int, next);
            assert(n < next * (q + 1)) by {
                assert(next * (q + 1) == next * q + next) by (nonlinear_arith);
                vstd::arithmetic::div_mod::lemma_mod_bound(n as int, next);
            }
            assert(next * (q + 1) <= next * next) by (nonlinear_arith)
                requires
                    q + 1 <= next,
                    next >= 0,
            ;
        }
        assert(r * r <= n);
    }
    r
}

/// Entry `i` leads the slow line by the gap between the two: twice the
/// fast line less the slow one, absent where one of them is.
pub open spec fn led_at<V, N: Numbers<V>>(numbers: &N, fast: Seq<Option<V>>, slow: Seq<Option<V>>, two: V, lead: Seq<Option<V>>, i: int) -> bool {
    if fast[i] is Some && slow[i] is Some {
        lead[i] is Some && exists|twice: V| #[trigger] muls(numbers, two, fast[i]->Some_0, twice) && subs(numbers, twice, slow[i]->Some_0, lead[i]->Some_0)
    } else {
        lead[i] is None
    }
}

/// The half of a period and its whole root, each one at least.
pub open spec fn hull_spans(period: usize, half: usize, root: usize) -> bool {
    &&& half == (if period / 2 < 1 {
        1
    } else {
        period / 2
    })
    &&& exists|r: usize| #[trigger] is_root(period as int, r as int) && root == (if r < 1 {
        1
    } else {
        r
    })
}

/// The lines of the Hull average of the closes: the weighted averages over
/// half the period and over the period, the line that leads the slow one,
/// and the weighted average of that over the root of the period.
pub open spec fn hull_run<V, N: Numbers<V>>(numbers: &N, close: Seq<V>, period: usize, fast: Seq<Option<V>>, slow: Seq<Option<V>>, lead: Seq<Option<V>>, result: Seq<Option<V>>) -> bool {
    let prices = Seq::new(close.len(), |i: int| Some(close[i]));
    exists|half: usize, root: usize, two: V|
        {
            &&& #[trigger] hull_spans(period, half, root)
            &&& #[trigger] ints(numbers, 2, two)
            &&& wma_made(numbers, prices, half, fast)
            &&& wma_made(numbers, prices, period, slow)
            &&& lead.len() == close.len()
            &&& forall|i: int| 0 <= i < close.len() ==> #[trigger] led_at(numbers, fast, slow, two, lead, i)
            &&& wma_made(numbers, lead, root, result)
        }
}

/// `result` is the Hull moving average of the closes.
pub open spec fn hull_made<V, N: Numbers<V>>(numbers: &N, close: Seq<V>, period: usize, result: Seq<Option<V>>) -> bool {
    result.len() == close.len() && exists|fast: Seq<Option<V>>, slow: Seq<Option<V>>, lead: Seq<Option<V>>| #[trigger] hull_run(numbers, close, period, fast, slow, lead, result)
}

/// Hull moving average: the weighted average, over the whole part of the
/// square root of the period, of twice the half-period weighted average
/// less the full-period one.
pub fn hull_ma<V: Copy, N: Numbers<V>>(numbers: &N, close: &Vec<V>, period: usize) -> (result: Vec<Option<V>>)
    ensures
        hull_made(numbers, close@, period, result@),
        result@.len() == close@.len(),
        period == 0 ==> all_blank(result@),
        period > 0 ==> blank_before(result@, period - 1),
{
    let half: usize = if period / 2 < 1 {
        1
    } else {
        period / 2
    };
    let root: usize = whole_root(period);
    let sqrt_p: usize = if root < 1 {
        1
    } else {
        root
    };
    let prices = as_series(close);
    let wma_half = wma(numbers, &prices, half);
    let wma_full = wma(numbers, &prices, period);
    let len: usize = close.len();
    let two: V = numbers.from_int(2);
    let mut diff: Vec<Option<V>> = blank(len);
    let mut i: usize = 0;
    while i < len
        invariant
            i <= len,
            wma_half@.len() == len,
            wma_full@.len() == len,
            diff@.len() == len,
            forall|k: int| 0 <= k < len ==> ((#[trigger] diff@[k]) is Some <==> k < i && wma_half@[k] is Some && wma_full@[k] is Some),
            forall|k: int| 0 <= k < i ==> #[trigger] led_at(numbers, wma_half@, wma_full@, two, diff@, k),
        decreases len - i,
    {
        let ghost before = diff@;
        match (wma_half[i], wma_full[i]) {
            (Some(h), Some(f)) => {
                let twice: V = numbers.mul(two, h);
                let lead: V = numbers.sub(twice, f);
                put(&mut diff, i, lead);
                assert(muls(numbers, two, h, twice));
                assert(subs(numbers, twice, f, lead));
            },
            _ => {},
        }
        proof {
            assert(led_at(numbers, wma_half@, wma_full@, two, diff@, i as int));
            assert forall|k: int| 0 <= k < i + 1 implies #[trigger] led_at(numbers, wma_half@, wma_full@, two, diff@, k) by {
                if k < i {
                    assert(led_at(numbers, wma_half@, wma_full@, two, before, k));
                    assert(diff@[k] == before[k]);
                }
            }
        }
        i += 1;
    }
    let result = wma(numbers, &diff, sqrt_p);
    proof {
        assert(ints(numbers, 2, two));
        assert(prices@ =~= Seq::new(close@.len(), |i: int| Some(close@[i])));
        assert(is_root(period as int, root as int));
        assert(hull_spans(period, half, sqrt_p));
        assert(wma_made(numbers, Seq::new(close@.len(), |i: int| Some(close@[i])), half, wma_half@));
        assert(wma_made(numbers, Seq::new(close@.len(), |i: int| Some(close@[i])), period, wma_full@));
        assert(wma_made(numbers, diff@, sqrt_p, result@));
        assert(hull_run(numbers, close@, period, wma_half@, wma_full@, diff@, result@));
    }
    proof {
        if period == 0 {
            assert(all_blank(wma_full@));
            assert(all_blank(diff@));
            assert forall|k: int| 0 <= k < result@.len() implies (#[trigger] result@[k]) is None by {
                if result@[k] is Some {
                    assert(full_window(diff@, k + 1 - sqrt_p, sqrt_p as int));
                    assert(diff@[k] is Some);
                }
            }
        } else {
            assert forall|k: int| 0 <= k < result@.len() && k < period - 1 implies (#[trigger] result@[k]) is None by {
                if result@[k] is Some {
                    assert(full_window(diff@, k + 1 - sqrt_p, sqrt_p as int));
                    assert(diff@[k] is Some);
                    assert(wma_full@[k] is Some);
                }
            }
        }
    }
    result
}

/// A series moved `shift` bars forward: entry `i` holds what the source
/// held at `i - shift`.
fn shifted<V: Copy>(source: &Vec<Option<V>>, shift: usize) -> (out: Vec<Option<V>>)
    ensures
        out@.len() == source@.len(),
        forall|i: int| 0 <= i < out@.len() ==> #[trigger] out@[i] == (if i >= shift { source@[i - shift] } else { None }),
{
    let len: usize = source.len();
    let mut out: Vec<Option<V>> = Vec::new();
    let mut i: usize = 0;
    while i < len
        invariant
            i <= len,
            len == source@.len(),
            out@.len() == i,
            forall|k: int| 0 <= k < i ==> #[trigger] out@[k] == (if k >= shift { source@[k - shift] } else { None }),
        decreases len - i,
    {
        out.push(if i >= shift {
            source[i - shift]
        } else {
            None
        });
        i += 1;
    }
    out
}

/// Entry `i` lies halfway between entry `i` of two lines: their sum over
/// `two`, absent where one of them is.
pub open spec fn halfway_at<V, N: Numbers<V>>(numbers: &N, one: Seq<Option<V>>, other: Seq<Option<V>>, two: V, mean: Seq<Option<V>>, i: int) -> bool {
    if one[i] is Some && other[i] is Some {
        mean[i] is Some && exists|sum: V| #[trigger] adds(numbers, one[i]->Some_0, other[i]->Some_0, sum) && divs(numbers, sum, two, mean[i]->Some_0)
    } else {
        mean[i] is None
    }
}

/// `mean` lies halfway between two lines.
pub open spec fn halfway<V, N: Numbers<V>>(numbers: &N, one: Seq<Option<V>>, other: Seq<Option<V>>, mean: Seq<Option<V>>) -> bool {
    mean.len() == one.len() && exists|two: V| #[trigger] ints(numbers, 2, two) && forall|i: int| 0 <= i < one.len() ==> #[trigger] halfway_at(numbers, one, other, two, mean, i)
}

/// `out` is `source` moved on by `shift` bars: entry `i` is entry
/// `i - shift` of the source, and the first `shift` entries are absent.
pub open spec fn moved_on<V>(source: Seq<Option<V>>, shift: int, out: Seq<Option<V>>) -> bool {
    out.len() == source.len() && forall|i: int| 0 <= i < out.len() ==> #[trigger] out[i] == (if i >= shift {
        source[i - shift]
    } else {
        None
    })
}

/// The five lines of the Ichimoku cloud: conversion and base line are the
/// middles of the ranges of their periods; the first leading span lies
/// halfway between them and the second is the middle of the range of its
/// period, both moved on by the base period; the lagging line is the close.
pub open spec fn ichimoku_made<V, N: Numbers<V>>(numbers: &N, high: Seq<V>, low: Seq<V>, close: Seq<V>, tenkan_period: usize, kijun_period: usize, senkou_b_period: usize, lines: Seq<NamedSeries<V>>) -> bool {
    &&& lines.len() == 5
    &&& middles_made(numbers, high, low, tenkan_period, lines[0].values@)
    &&& middles_made(numbers, high, low, kijun_period, lines[1].values@)
    &&& exists|mean: Seq<Option<V>>| #[trigger] halfway(numbers, lines[0].values@, lines[1].values@, mean) && moved_on(mean, kijun_period as int, lines[2].values@)
    &&& exists|raw: Seq<Option<V>>| #[trigger] middles_made(numbers, high, low, senkou_b_period, raw) && moved_on(raw, kijun_period as int, lines[3].values@)
    &&& lines[4].values@ == Seq::new(close.len(), |i: int| Some(close[i]))
}

/// Ichimoku: the conversion and base lines are midpoints of the range of
/// the last `tenkan_period` and `kijun_period` bars; the leading span A is
/// the mean of the two and span B the midpoint over `senkou_b_period` bars,
/// both moved `kijun_period` bars forward; the lagging span is the close
/// itself, so that no bar reads a later one. The five outputs go under the
/// names `tenkan`, `kijun`, `senkou_a`, `senkou_b` and `chikou`.
pub fn ichimoku<V: Copy, N: Numbers<V>>(numbers: &N, high: &Vec<V>, low: &Vec<V>, close: &Vec<V>, tenkan_period: usize, kijun_period: usize, senkou_b_period: usize) -> (lines: Vec<NamedSeries<V>>)
    requires
        aligned(high@, low@, close@),
    ensures
        lines@.len() == 5,
        names_of(lines@) == seq!["tenkan"@, "kijun"@, "senkou_a"@, "senkou_b"@, "chikou"@],
        all_of_length(lines@, high@.len() as int),
        tenkan_period > 0 ==> present_from(lines@[0].values@, tenkan_period - 1),
        kijun_period > 0 ==> present_from(lines@[1].values@, kijun_period - 1),
        senkou_b_period > 0 ==> present_from(lines@[3].values@, kijun_period + senkou_b_period - 1),
        present_from(lines@[4].values@, 0),
        ichimoku_made(numbers, high@, low@, close@, tenkan_period, kijun_period, senkou_b_period, lines@),
{
    let len: usize = high.len();
    let tenkan = midpoint(numbers, high, low, tenkan_period);
    let kijun = midpoint(numbers, high, low, kijun_period);
    let two: V = numbers.from_int(2);
    let mut mean: Vec<Option<V>> = blank(len);
    let mut i: usize = 0;
    while i < len
        invariant
            i <= len,
            tenkan@.len() == len,
            kijun@.len() == len,
            mean@.len() == len,
            forall|k: int| i <= k < len ==> (#[trigger] mean@[k]) is None,
            forall|k: int| 0 <= k < i ==> #[trigger] halfway_at(numbers, tenkan@, kijun@, two, mean@, k),
        decreases len - i,
    {
        let ghost before = mean@;
        match (tenkan[i], kijun[i]) {
            (Some(t), Some(k)) => {
                let sum: V = numbers.add(t, k);
                let half: V = numbers.div(sum, two);
                put(&mut mean, i, half);
                assert(adds(numbers, t, k, sum));
                assert(divs(numbers, sum, two, half));
            },
            _ => {},
        }
        proof {
            assert(halfway_at(numbers, tenkan@, kijun@, two, mean@, i as int));
            assert forall|k: int| 0 <= k < i + 1 implies #[trigger] halfway_at(numbers, tenkan@, kijun@, two, mean@, k) by {
                if k < i {
                    assert(halfway_at(numbers, tenkan@, kijun@, two, before, k));
                    assert(mean@[k] == before[k]);
                }
            }
        }
        i += 1;
    }
    assert(ints(numbers, 2, two));
    let senkou_a = shifted(&mean, kijun_period);
    let senkou_b_raw = midpoint(numbers, high, low, senkou_b_period);
    let senkou_b = shifted(&senkou_b_raw, kijun_period);
    let chikou = as_series(close);
    let mut lines: Vec<NamedSeries<V>> = Vec::new();
    lines.push(named("tenkan", tenkan));
    lines.push(named("kijun", kijun));
    lines.push(named("senkou_a", senkou_a));
    lines.push(named("senkou_b", senkou_b));
    lines.push(named("chikou", chikou));
    assert(names_of(lines@) =~= seq!["tenkan"@, "kijun"@, "senkou_a"@, "senkou_b"@, "chikou"@]);
    proof {
        assert(halfway(numbers, lines@[0].values@, lines@[1].values@, mean@));
        assert(moved_on(mean@, kijun_period as int, lines@[2].values@));
        assert(moved_on(senkou_b_raw@, kijun_period as int, lines@[3].values@));
        assert(lines@[4].values@ == Seq::new(close@.len(), |i: int| Some(close@[i])));
    }
    lines
}

/// The running sums of a fit of a line: of the positions, of the values,
/// of their products and of the squared positions.
#[derive(Debug, Clone, Copy)]
pub struct FitSums<V> {
    pub x: V,
    pub y: V,
    pub xy: V,
    pub xx: V,
}

/// Step `j` of the sums of a fit: position `j` and value `from + j` are
/// added in.
pub open spec fn fit_added_at<V, N: Numbers<V>>(numbers: &N, close: Seq<V>, from: int, steps: Seq<FitSums<V>>, j: int) -> bool {
    exists|x: V| #[trigger]
        ints(numbers, whole(j as usize), x) && adds(numbers, steps[j].x, x, steps[j + 1].x) && adds(numbers, steps[j].y, close[from + j], steps[j + 1].y) && exists|xy: V| #[trigger]
            muls(numbers, x, close[from + j], xy) && adds(numbers, steps[j].xy, xy, steps[j + 1].xy) && exists|xx: V| #[trigger] muls(numbers, x, x, xx) && adds(numbers, steps[j].xx, xx, steps[j + 1].xx)
}

/// `steps` holds the sums of the fit of the `count` values from `from`
/// on, from `zero` throughout.
pub open spec fn fit_summed<V, N: Numbers<V>>(numbers: &N, close: Seq<V>, from: int, count: int, zero: V, steps: Seq<FitSums<V>>) -> bool {
    &&& steps.len() == count + 1
    &&& steps[0] == (FitSums { x: zero, y: zero, xy: zero, xx: zero })
    &&& forall|j: int| 0 <= j < count ==> #[trigger] fit_added_at(numbers, close, from, steps, j)
}

/// `denom` is the divisor of the slope of a fit: the number of values times
/// the sum of the squared positions, less the square of the sum of the
/// positions.
pub open spec fn fit_divisor<V, N: Numbers<V>>(numbers: &N, n: V, sums: FitSums<V>, denom: V) -> bool {
    exists|spread: V| #[trigger] muls(numbers, n, sums.xx, spread) && exists|square: V| #[trigger] muls(numbers, sums.x, sums.x, square) && subs(numbers, spread, square, denom)
}

/// `slope` is the slope of a fit over its divisor.
pub open spec fn fit_slope<V, N: Numbers<V>>(numbers: &N, n: V, sums: FitSums<V>, denom: V, slope: V) -> bool {
    exists|joint: V| #[trigger] muls(numbers, n, sums.xy, joint) && exists|apart: V| #[trigger] muls(numbers, sums.x, sums.y, apart) && exists|above: V| #[trigger] subs(numbers, joint, apart, above) && divs(numbers, above, denom, slope)
}

/// `out` is the value of the fitted line at the last position: the
/// intercept plus the slope times the number of values less one.
pub open spec fn fit_end<V, N: Numbers<V>>(numbers: &N, n: V, sums: FitSums<V>, slope: V, out: V) -> bool {
    exists|drift: V| #[trigger]
        muls(numbers, slope, sums.x, drift) && exists|rest: V| #[trigger]
            subs(numbers, sums.y, drift, rest) && exists|base: V| #[trigger]
                divs(numbers, rest, n, base) && exists|one: V| #[trigger] ints(numbers, 1, one) && exists|last: V| #[trigger] subs(numbers, n, one, last) && exists|rise: V| #[trigger] muls(numbers, slope, last, rise) && adds(numbers, base, rise, out)
}

/// `out` is the end of the line fitted to sums: absent where `numbers`
/// finds the divisor equal to `zero`.
pub open spec fn fitted<V, N: Numbers<V>>(numbers: &N, n: V, zero: V, sums: FitSums<V>, out: Option<V>) -> bool {
    exists|denom: V| #[trigger]
        fit_divisor(numbers, n, sums, denom) && exists|flat: Relation| #[trigger]
            relates(numbers, denom, zero, flat) && (if flat == Relation::Equal {
                out is None
            } else {
                out is Some && exists|slope: V| #[trigger] fit_slope(numbers, n, sums, denom, slope) && fit_end(numbers, n, sums, slope, out->Some_0)
            })
}

/// Entry `i` is the end of the line fitted to the `period` closes that end
/// at `i`.
pub open spec fn regressed_at<V, N: Numbers<V>>(numbers: &N, close: Seq<V>, period: int, n: V, zero: V, result: Seq<Option<V>>, i: int) -> bool {
    exists|steps: Seq<FitSums<V>>| #[trigger] fit_summed(numbers, close, i + 1 - period, period, zero, steps) && fitted(numbers, n, zero, steps[period], result[i])
}

/// `result` is the linear regression of the closes: absent throughout
/// without a period, else absent before the first full window and from
/// there on `regressed_at`.
pub open spec fn regression_made<V, N: Numbers<V>>(numbers: &N, close: Seq<V>, period: usize, result: Seq<Option<V>>) -> bool {
    &&& result.len() == close.len()
    &&& (if period == 0 {
        all_blank(result)
    } else {
        blank_before(result, period - 1) && exists|n: V, zero: V| #[trigger] ints(numbers, whole(period), n) && #[trigger] ints(numbers, 0, zero) && forall|i: int| period - 1 <= i < result.len() ==> #[trigger] regressed_at(numbers, close, period as int, n, zero, result, i)
    })
}

/// The sums of the fit of the `period` closes from `from` on.
fn fit_sums<V: Copy, N: Numbers<V>>(numbers: &N, close: &Vec<V>, from: usize, period: usize, zero: V) -> (sums: FitSums<V>)
    requires
        from + period <= close@.len(),
    ensures
        exists|steps: Seq<FitSums<V>>| #[trigger] fit_summed(numbers, close@, from as int, period as int, zero, steps) && steps[period as int] == sums,
{
    let len: usize = close.len();
    let mut sums = FitSums { x: zero, y: zero, xy: zero, xx: zero };
    let ghost mut steps: Seq<FitSums<V>> = seq![sums];
    let mut j: usize = 0;
    while j < period
        invariant
            j <= period,
            from + period <= len,
            len == close@.len(),
            fit_summed(numbers, close@, from as int, j as int, zero, steps),
            steps[j as int] == sums,
        decreases period - j,
    {
        let ghost before = steps;
        let ghost held = sums;
        let x: V = count(numbers, j);
        let y: V = close[from + j];
        let xy: V = numbers.mul(x, y);
        let xx: V = numbers.mul(x, x);
        sums = FitSums { x: numbers.add(sums.x, x), y: numbers.add(sums.y, y), xy: numbers.add(sums.xy, xy), xx: numbers.add(sums.xx, xx) };
        proof {
            steps = before.push(sums);
            assert(steps[j as int] == held && steps[j + 1] == sums);
            assert(muls(numbers, x, close@[from + j], xy));
            assert(muls(numbers, x, x, xx));
            assert(adds(numbers, held.x, x, sums.x));
            assert(adds(numbers, held.y, close@[from + j], sums.y));
            assert(adds(numbers, held.xy, xy, sums.xy));
            assert(adds(numbers, held.xx, xx, sums.xx));
            assert(ints(numbers, whole((j as int) as usize), x));
            assert(adds(numbers, steps[j as int].x, x, steps[j + 1].x));
            assert(adds(numbers, steps[j as int].y, close@[from + j], steps[j + 1].y));
            assert(adds(numbers, steps[j as int].xy, xy, steps[j + 1].xy));
            assert(adds(numbers, steps[j as int].xx, xx, steps[j + 1].xx));
            assert(fit_added_at(numbers, close@, from as int, steps, j as int));
            assert forall|k: int| 0 <= k < j + 1 implies #[trigger] fit_added_at(numbers, close@, from as int, steps, k) by {
                if k < j {
                    assert(fit_added_at(numbers, close@, from as int, before, k));
                    assert(steps[k] == before[k] && steps[k + 1] == before[k + 1]);
                }
            }
        }
        j += 1;
    }
    sums
}

/// The end of the line fitted to sums, if the divisor is not zero.
fn fit<V: Copy, N: Numbers<V>>(numbers: &N, n: V, zero: V, sums: FitSums<V>) -> (out: Option<V>)
    ensures
        fitted(numbers, n, zero, sums, out),
{
    let spread: V = numbers.mul(n, sums.xx);
    let square: V = numbers.mul(sums.x, sums.x);
    let denom: V = numbers.sub(spread, square);
    proof {
        assert(muls(numbers, n, sums.xx, spread));
        assert(muls(numbers, sums.x, sums.x, square));
        assert(fit_divisor(numbers, n, sums, denom));
    }
    match relation(numbers, denom, zero) {
        Relation::Equal => None,
        _ => {
            let joint: V = numbers.mul(n, sums.xy);
            let apart: V = numbers.mul(sums.x, sums.y);
            let above: V = numbers.sub(joint, apart);
            let slope: V = numbers.div(above, denom);
            let drift: V = numbers.mul(slope, sums.x);
            let rest: V = numbers.sub(sums.y, drift);
            let base: V = numbers.div(rest, n);
            let one: V = numbers.from_int(1);
            let last: V = numbers.sub(n, one);
            let rise: V = numbers.mul(slope, last);
            let end: V = numbers.add(base, rise);
            proof {
                assert(muls(numbers, n, sums.xy, joint));
                assert(muls(numbers, sums.x, sums.y, apart));
                assert(subs(numbers, joint, apart, above));
                assert(fit_slope(numbers, n, sums, denom, slope));
                assert(muls(numbers, slope, sums.x, drift));
                assert(subs(numbers, sums.y, drift, rest));
                assert(divs(numbers, rest, n, base));
                assert(ints(numbers, 1, one));
                assert(subs(numbers, n, one, last));
                assert(muls(numbers, slope, last, rise));
                assert(fit_end(numbers, n, sums, slope, end));
            }
            Some(end)
        },
    }
}

/// Linear regression: the value at the last bar of the line fitted to the
/// last `period` closes. Absent where the fit has no solution.
pub fn linear_regression<V: Copy, N: Numbers<V>>(numbers: &N, close: &Vec<V>, period: usize) -> (result: Vec<Option<V>>)
    ensures
        regression_made(numbers, close@, period, result@),
        result@.len() == close@.len(),
        period == 0 ==> all_blank(result@),
        period > 0 ==> blank_before(result@, period - 1),
{
    let len: usize = close.len();
    let mut result: Vec<Option<V>> = blank(len);
    if period == 0 {
        return result;
    }
    let zero: V = numbers.from_int(0);
    let n: V = count(numbers, period);
    assert(ints(numbers, 0, zero));
    let mut i: usize = period - 1;
    while i < len
        invariant
            0 < period,
            period - 1 <= i,
            len == close@.len(),
            result@.len() == len,
            blank_before(result@, period - 1),
            forall|k: int| i <= k < len ==> (#[trigger] result@[k]) is None,
            forall|k: int| period - 1 <= k < i && k < len ==> #[trigger] regressed_at(numbers, close@, period as int, n, zero, result@, k),
        decreases len - i,
    {
        let ghost before = result@;
        let sums = fit_sums(numbers, close, i + 1 - period, period, zero);
        match fit(numbers, n, zero, sums) {
            Some(end) => {
                put(&mut result, i, end);
            },
            None => {},
        }
        proof {
            assert(regressed_at(numbers, close@, period as int, n, zero, result@, i as int));
            assert forall|k: int| period - 1 <= k < i + 1 && k < len implies #[trigger] regressed_at(numbers, close@, period as int, n, zero, result@, k) by {
                if k < i {
                    assert(regressed_at(numbers, close@, period as int, n, zero, before, k));
                    assert(result@[k] == before[k]);
                }
            }
        }
        i += 1;
    }
    result
}

/// The state of the parabolic stop after a bar: the side, the acceleration,
/// the extreme point of the trend and the stop.
#[derive(Debug, Clone, Copy)]
pub struct Sar<V> {
    pub long: bool,
    pub af: V,
    pub ep: V,
    pub sar: V,
}

/// `out` is the lesser of two values on the long side, the greater on the
/// short side.
pub open spec fn bounded<V, N: Numbers<V>>(numbers: &N, long: bool, a: V, b: V, out: V) -> bool {
    if long {
        mins(numbers, a, b, out)
    } else {
        maxes(numbers, a, b, out)
    }
}

/// `moved` is the stop moved toward the extreme point by the acceleration.
pub open spec fn sar_moved<V, N: Numbers<V>>(numbers: &N, before: Sar<V>, moved: V) -> bool {
    exists|gap: V| #[trigger] subs(numbers, before.ep, before.sar, gap) && exists|step: V| #[trigger] muls(numbers, before.af, gap, step) && adds(numbers, before.sar, step, moved)
}

/// `held` is the moved stop held outside the last two bars: bounded by the
/// entry of the column before bar `i`, and by the one before that where
/// there is one.
pub open spec fn sar_held<V, N: Numbers<V>>(numbers: &N, column: Seq<V>, i: int, long: bool, moved: V, held: V) -> bool {
    exists|first: V| #[trigger] bounded(numbers, long, moved, column[i - 1], first) && (if i >= 2 {
        bounded(numbers, long, first, column[i - 2], held)
    } else {
        held == first
    })
}

/// `out` is the acceleration raised by its start, up to its maximum.
pub open spec fn sar_raised<V, N: Numbers<V>>(numbers: &N, af: V, start: V, max: V, out: V) -> bool {
    exists|sum: V| #[trigger] adds(numbers, af, start, sum) && mins(numbers, sum, max, out)
}

/// `after` is the state of the stop after bar `i`. The stop moves and is
/// held. Where `numbers` finds the bar beyond the stop, the side turns: the
/// stop is the extreme point so far, the extreme point is that of the bar,
/// and the acceleration starts anew. Else where it finds the bar beyond the
/// extreme point, the extreme point follows and the acceleration is raised.
/// Else only the stop changes.
pub open spec fn sar_stepped<V, N: Numbers<V>>(numbers: &N, high: Seq<V>, low: Seq<V>, start: V, max: V, before: Sar<V>, i: int, after: Sar<V>) -> bool {
    let near = pick(before.long, low, high);
    let far = pick(before.long, high, low);
    exists|moved: V, held: V| #[trigger]
        sar_moved(numbers, before, moved) && #[trigger] sar_held(numbers, near, i, before.long, moved, held) && exists|broke: Relation| #[trigger]
            relates(numbers, near[i], held, broke) && (if wanted(broke, !before.long) {
                after == (Sar { long: !before.long, af: start, ep: near[i], sar: before.ep })
            } else {
                exists|beyond: Relation| #[trigger]
                    relates(numbers, far[i], before.ep, beyond) && (if wanted(beyond, before.long) {
                        after.long == before.long && after.sar == held && after.ep == far[i] && sar_raised(numbers, before.af, start, max, after.af)
                    } else {
                        after == (Sar { long: before.long, af: before.af, ep: before.ep, sar: held })
                    })
            })
}

/// `first` is the state of the stop at the first bar: long where `numbers`
/// finds the second high greater than the first; the stop is the low of
/// the first bar on the long side and its high on the short side, and the
/// extreme point the other of the two.
pub open spec fn sar_begun<V, N: Numbers<V>>(numbers: &N, high: Seq<V>, low: Seq<V>, start: V, first: Sar<V>) -> bool {
    exists|up: Relation| #[trigger] relates(numbers, high[1], high[0], up) && first == (Sar { long: up.gt(), af: start, ep: pick(up.gt(), high[0], low[0]), sar: pick(up.gt(), low[0], high[0]) })
}

/// Entry `i` of the stops is the stop of state `i`, which follows from the
/// state before it.
pub open spec fn stopped_at<V, N: Numbers<V>>(numbers: &N, high: Seq<V>, low: Seq<V>, start: V, max: V, states: Seq<Sar<V>>, result: Seq<Option<V>>, i: int) -> bool {
    sar_stepped(numbers, high, low, start, max, states[i - 1], i, states[i]) && result[i] == Some(states[i].sar)
}

/// The states of the parabolic stop over the bars, and the stops.
pub open spec fn sar_run<V, N: Numbers<V>>(numbers: &N, high: Seq<V>, low: Seq<V>, start: V, max: V, states: Seq<Sar<V>>, result: Seq<Option<V>>) -> bool {
    &&& states.len() == high.len()
    &&& sar_begun(numbers, high, low, start, states[0])
    &&& result[0] == Some(states[0].sar)
    &&& forall|i: int| 1 <= i < high.len() ==> #[trigger] stopped_at(numbers, high, low, start, max, states, result, i)
}

/// `result` is the parabolic stop of the bars: absent throughout with
/// fewer than two bars, else `sar_run`.
pub open spec fn sar_made<V, N: Numbers<V>>(numbers: &N, high: Seq<V>, low: Seq<V>, start: V, max: V, result: Seq<Option<V>>) -> bool {
    &&& result.len() == high.len()
    &&& (if high.len() < 2 {
        all_blank(result)
    } else {
        exists|states: Seq<Sar<V>>| #[trigger] sar_run(numbers, high, low, start, max, states, result)
    })
}

/// The lesser of two values on the long side, the greater on the short.
fn bound<V: Copy, N: Numbers<V>>(numbers: &N, long: bool, a: V, b: V) -> (out: V)
    ensures
        bounded(numbers, long, a, b, out),
{
    if long {
        numbers.min(a, b)
    } else {
        numbers.max(a, b)
    }
}

/// The state of the parabolic stop after bar `i`.
fn sar_step<V: Copy, N: Numbers<V>>(numbers: &N, high: &Vec<V>, low: &Vec<V>, start: V, max: V, before: Sar<V>, i: usize) -> (after: Sar<V>)
    requires
        low@.len() == high@.len(),
        1 <= i < high@.len(),
    ensures
        sar_stepped(numbers, high@, low@, start, max, before, i as int, after),
{
    let near: &Vec<V> = if before.long {
        low
    } else {
        high
    };
    let far: &Vec<V> = if before.long {
        high
    } else {
        low
    };
    let gap: V = numbers.sub(before.ep, before.sar);
    let step: V = numbers.mul(before.af, gap);
    let moved: V = numbers.add(before.sar, step);
    let first: V = bound(numbers, before.long, moved, near[i - 1]);
    let held: V = if i >= 2 {
        bound(numbers, before.long, first, near[i - 2])
    } else {
        first
    };
    let ghost near_side = pick(before.long, low@, high@);
    let ghost far_side = pick(before.long, high@, low@);
    proof {
        assert(near@ == near_side && far@ == far_side);
        assert(subs(numbers, before.ep, before.sar, gap));
        assert(muls(numbers, before.af, gap, step));
        assert(sar_moved(numbers, before, moved));
        assert(bounded(numbers, before.long, moved, near_side[i - 1], first));
        assert(sar_held(numbers, near_side, i as int, before.long, moved, held));
    }
    let broke = relation(numbers, near[i], held);
    assert(relates(numbers, near_side[i as int], held, broke));
    if is_wanted(broke, !before.long) {
        let after = Sar { long: !before.long, af: start, ep: near[i], sar: before.ep };
        assert(sar_stepped(numbers, high@, low@, start, max, before, i as int, after));
        return after;
    }
    let beyond = relation(numbers, far[i], before.ep);
    assert(relates(numbers, far_side[i as int], before.ep, beyond));
    if is_wanted(beyond, before.long) {
        let sum: V = numbers.add(before.af, start);
        let af: V = numbers.min(sum, max);
        assert(adds(numbers, before.af, start, sum));
        assert(sar_raised(numbers, before.af, start, max, af));
        let after = Sar { long: before.long, af, ep: far[i], sar: held };
        assert(sar_stepped(numbers, high@, low@, start, max, before, i as int, after));
        after
    } else {
        let after = Sar { long: before.long, af: before.af, ep: before.ep, sar: held };
        assert(sar_stepped(numbers, high@, low@, start, max, before, i as int, after));
        after
    }
}

/// Parabolic stop and reverse. The stop trails the extreme of the trend
/// with an acceleration that grows with each new extreme up to a maximum;
/// it never enters the range of the two bars before; and where the price
/// crosses it the trend reverses and the stop jumps to the extreme. With
/// fewer than two bars every entry is absent, else every entry is present.
pub fn parabolic_sar<V: Copy, N: Numbers<V>>(numbers: &N, high: &Vec<V>, low: &Vec<V>, acceleration_start: V, acceleration_max: V) -> (result: Vec<Option<V>>)
    requires
        low@.len() == high@.len(),
    ensures
        sar_made(numbers, high@, low@, acceleration_start, acceleration_max, result@),
        result@.len() == high@.len(),
        high@.len() < 2 ==> all_blank(result@),
        high@.len() >= 2 ==> present_from(result@, 0),
{
    let len: usize = high.len();
    let mut result: Vec<Option<V>> = blank(len);
    if len < 2 {
        return result;
    }
    let up = relation(numbers, high[1], high[0]);
    let is_long: bool = up.is_gt();
    let first_ep: V = if is_long {
        high[0]
    } else {
        low[0]
    };
    let first_stop: V = if is_long {
        low[0]
    } else {
        high[0]
    };
    let mut state = Sar { long: is_long, af: acceleration_start, ep: first_ep, sar: first_stop };
    assert(sar_begun(numbers, high@, low@, acceleration_start, state));
    put(&mut result, 0, state.sar);
    let ghost mut states: Seq<Sar<V>> = seq![state];
    let mut i: usize = 1;
    while i < len
        invariant
            1 <= i <= len,
            len == high@.len(),
            len == low@.len(),
            result@.len() == len,
            states.len() == i,
            states[i - 1] == state,
            sar_begun(numbers, high@, low@, acceleration_start, states[0]),
            result@[0] == Some(states[0].sar),
            forall|k: int| 0 <= k < len ==> ((#[trigger] result@[k]) is Some <==> k < i),
            forall|k: int| 1 <= k < i ==> #[trigger] stopped_at(numbers, high@, low@, acceleration_start, acceleration_max, states, result@, k),
        decreases len - i,
    {
        let ghost before = result@;
        let ghost earlier = states;
        let ghost last = state;
        state = sar_step(numbers, high, low, acceleration_start, acceleration_max, state, i);
        put(&mut result, i, state.sar);
        proof {
            states = earlier.push(state);
            assert(states[i - 1] == last && states[i as int] == state);
            assert(stopped_at(numbers, high@, low@, acceleration_start, acceleration_max, states, result@, i as int));
            assert forall|k: int| 1 <= k < i + 1 implies #[trigger] stopped_at(numbers, high@, low@, acceleration_start, acceleration_max, states, result@, k) by {
                if k < i {
                    assert(stopped_at(numbers, high@, low@, acceleration_start, acceleration_max, earlier, before, k));
                    assert(states[k] == earlier[k] && states[k - 1] == earlier[k - 1] && result@[k] == before[k]);
                }
            }
        }
        i += 1;
    }
    assert(sar_run(numbers, high@, low@, acceleration_start, acceleration_max, states, result@));
    result
}

/// Bar `i` begins a day: it is the first bar, or lies in another day than
/// the bar before it.
pub open spec fn begins_day(timestamps: Seq<i64>, i: int) -> bool {
    i == 0 || day_number_of(timestamps[i] as int) != day_number_of(timestamps[i - 1] as int)
}

/// Entry `i` of the volume-weighted average price: the typical price of the
/// bar times its volume is added to the flow of the day so far, and its
/// volume to the volume of the day so far, both `zero` where the bar begins
/// a day; the entry is the flow over the volume, or the typical price where
/// `numbers` finds the volume equal to `zero`.
pub open spec fn weighed_at<V, N: Numbers<V>>(numbers: &N, high: Seq<V>, low: Seq<V>, close: Seq<V>, volume: Seq<V>, timestamps: Seq<i64>, zero: V, three: V, flows: Seq<V>, volumes: Seq<V>, result: Seq<Option<V>>, i: int) -> bool {
    result[i] is Some && exists|range: V| #[trigger]
        adds(numbers, high[i], low[i], range) && exists|sum: V| #[trigger]
            adds(numbers, range, close[i], sum) && exists|typical: V| #[trigger]
                divs(numbers, sum, three, typical) && exists|flow: V| #[trigger]
                    muls(numbers, typical, volume[i], flow) && adds(numbers, pick(begins_day(timestamps, i), zero, flows[i - 1]), flow, flows[i]) && adds(
                        numbers,
                        pick(begins_day(timestamps, i), zero, volumes[i - 1]),
                        volume[i],
                        volumes[i],
                    ) && exists|flat: Relation| #[trigger]
                        relates(numbers, volumes[i], zero, flat) && (if flat == Relation::Equal {
                            result[i]->Some_0 == typical
                        } else {
                            divs(numbers, flows[i], volumes[i], result[i]->Some_0)
                        })
}

/// The steps of the volume-weighted average price of the bars, with the
/// flow and the volume of the day after every bar.
pub open spec fn vwap_run<V, N: Numbers<V>>(numbers: &N, high: Seq<V>, low: Seq<V>, close: Seq<V>, volume: Seq<V>, timestamps: Seq<i64>, zero: V, three: V, flows: Seq<V>, volumes: Seq<V>, result: Seq<Option<V>>) -> bool {
    &&& ints(numbers, 0, zero)
    &&& ints(numbers, 3, three)
    &&& flows.len() == high.len()
    &&& volumes.len() == high.len()
    &&& forall|i: int| 0 <= i < high.len() ==> #[trigger] weighed_at(numbers, high, low, close, volume, timestamps, zero, three, flows, volumes, result, i)
}

/// `result` is the volume-weighted average price of the bars, begun anew
/// with every day.
pub open spec fn vwap_made<V, N: Numbers<V>>(numbers: &N, high: Seq<V>, low: Seq<V>, close: Seq<V>, volume: Seq<V>, timestamps: Seq<i64>, result: Seq<Option<V>>) -> bool {
    result.len() == high.len() && exists|zero: V, three: V, flows: Seq<V>, volumes: Seq<V>| #[trigger] vwap_run(numbers, high, low, close, volume, timestamps, zero, three, flows, volumes, result)
}

/// Volume-weighted average price, started afresh on each calendar day: the
/// sum of typical price times volume over the sum of the volumes of the
/// day so far, or the typical price itself while no volume has traded.
/// Every entry is present.
pub fn vwap<V: Copy, N: Numbers<V>>(numbers: &N, high: &Vec<V>, low: &Vec<V>, close: &Vec<V>, volume: &Vec<V>, timestamps: &Vec<i64>) -> (result: Vec<Option<V>>)
    requires
        aligned(high@, low@, close@),
        volume@.len() == high@.len(),
        timestamps@.len() == high@.len(),
    ensures
        vwap_made(numbers, high@, low@, close@, volume@, timestamps@, result@),
        result@.len() == high@.len(),
        present_from(result@, 0),
{
    let len: usize = high.len();
    let mut result: Vec<Option<V>> = Vec::new();
    let zero: V = numbers.from_int(0);
    let three: V = numbers.from_int(3);
    assert(ints(numbers, 0, zero));
    assert(ints(numbers, 3, three));
    let mut cum_vol: V = zero;
    let mut cum_tp_vol: V = zero;
    let ghost mut flows: Seq<V> = Seq::empty();
    let ghost mut volumes: Seq<V> = Seq::empty();
    let mut prev_day: i64 = 0;
    let mut i: usize = 0;
    while i < len
        invariant
            i <= len,
            len == high@.len(),
            aligned(high@, low@, close@),
            volume@.len() == len,
            timestamps@.len() == len,
            result@.len() == i,
            flows.len() == i,
            volumes.len() == i,
            i > 0 ==> prev_day == day_number_of(timestamps@[i - 1] as int) && flows[i - 1] == cum_tp_vol && volumes[i - 1] == cum_vol,
            forall|k: int| 0 <= k < i ==> (#[trigger] result@[k]) is Some,
            forall|k: int| 0 <= k < i ==> #[trigger] weighed_at(numbers, high@, low@, close@, volume@, timestamps@, zero, three, flows, volumes, result@, k),
        decreases len - i,
    {
        let ghost before = result@;
        let ghost flows_before = flows;
        let ghost volumes_before = volumes;
        let day: i64 = day_number(timestamps[i]);
        if i == 0 || day != prev_day {
            cum_vol = zero;
            cum_tp_vol = zero;
            prev_day = day;
        }
        let ghost base_flow = cum_tp_vol;
        let ghost base_volume = cum_vol;
        let range: V = numbers.add(high[i], low[i]);
        let sum: V = numbers.add(range, close[i]);
        let tp: V = numbers.div(sum, three);
        let flow: V = numbers.mul(tp, volume[i]);
        cum_tp_vol = numbers.add(cum_tp_vol, flow);
        cum_vol = numbers.add(cum_vol, volume[i]);
        let flat = relation(numbers, cum_vol, zero);
        let value: V = match flat {
            Relation::Equal => tp,
            _ => numbers.div(cum_tp_vol, cum_vol),
        };
        result.push(Some(value));
        proof {
            flows = flows_before.push(cum_tp_vol);
            volumes = volumes_before.push(cum_vol);
            assert(adds(numbers, high@[i as int], low@[i as int], range));
            assert(adds(numbers, range, close@[i as int], sum));
            assert(divs(numbers, sum, three, tp));
            assert(muls(numbers, tp, volume@[i as int], flow));
            assert(base_flow == pick(begins_day(timestamps@, i as int), zero, flows[i - 1]));
            assert(base_volume == pick(begins_day(timestamps@, i as int), zero, volumes[i - 1]));
            assert(adds(numbers, base_flow, flow, flows[i as int]));
            assert(adds(numbers, base_volume, volume@[i as int], volumes[i as int]));
            assert(relates(numbers, volumes[i as int], zero, flat));
            assert(result@[i as int] == Some(value));
            assert(weighed_at(numbers, high@, low@, close@, volume@, timestamps@, zero, three, flows, volumes, result@, i as int));
            assert forall|k: int| 0 <= k < i + 1 implies #[trigger] weighed_at(numbers, high@, low@, close@, volume@, timestamps@, zero, three, flows, volumes, result@, k) by {
                if k < i {
                    assert(weighed_at(numbers, high@, low@, close@, volume@, timestamps@, zero, three, flows_before, volumes_before, before, k));
                    assert(result@[k] == before[k] && flows[k] == flows_before[k] && volumes[k] == volumes_before[k]);
                    if k > 0 {
                        assert(flows[k - 1] == flows_before[k - 1] && volumes[k - 1] == volumes_before[k - 1]);
                    }
                }
            }
        }
        i += 1;
    }
    assert(vwap_run(numbers, high@, low@, close@, volume@, timestamps@, zero, three, flows, volumes, result@));
    result
}

/// High, low and close of a finished day.
#[derive(Debug, Clone, Copy)]
pub struct DayLevels<V> {
    pub high: V,
    pub low: V,
    pub close: V,
}

/// After bar `i`, `days[i]` holds high, low and close of its day so far, and
/// `befores[i]` those of the day before, if there was one: a bar that
/// begins a day starts the levels anew and hands the levels before it on
/// as those of the day before; another bar raises the high, lowers the low
/// and sets the close.
pub open spec fn day_kept_at<V, N: Numbers<V>>(numbers: &N, high: Seq<V>, low: Seq<V>, close: Seq<V>, timestamps: Seq<i64>, days: Seq<DayLevels<V>>, befores: Seq<Option<DayLevels<V>>>, i: int) -> bool {
    if i == 0 {
        days[i] == (DayLevels { high: high[i], low: low[i], close: close[i] }) && befores[i] is None
    } else if begins_day(timestamps, i) {
        days[i] == (DayLevels { high: high[i], low: low[i], close: close[i] }) && befores[i] == Some(days[i - 1])
    } else {
        maxes(numbers, days[i - 1].high, high[i], days[i].high) && mins(numbers, days[i - 1].low, low[i], days[i].low) && days[i].close == close[i] && befores[i] == befores[i - 1]
    }
}

/// The seven pivot levels of a day from high, low and close of the day
/// before: the pivot is the mean of the three; the first resistance and
/// support lie twice the pivot less the low and the high; the second lie a
/// range above and below the pivot; the third lie twice the distance of
/// the pivot from the low above the high, and twice that from the high
/// below the low.
pub open spec fn pivoted<V, N: Numbers<V>>(numbers: &N, day: DayLevels<V>, two: V, three: V, pp: V, r1: V, r2: V, r3: V, s1: V, s2: V, s3: V) -> bool {
    &&& exists|sum: V| #[trigger] adds(numbers, day.high, day.low, sum) && exists|all: V| #[trigger] adds(numbers, sum, day.close, all) && divs(numbers, all, three, pp)
    &&& exists|twice: V| #[trigger] muls(numbers, two, pp, twice) && subs(numbers, twice, day.low, r1) && subs(numbers, twice, day.high, s1)
    &&& exists|range: V| #[trigger] subs(numbers, day.high, day.low, range) && adds(numbers, pp, range, r2) && subs(numbers, pp, range, s2)
    &&& exists|above: V| #[trigger] subs(numbers, pp, day.low, above) && exists|doubled: V| #[trigger] muls(numbers, two, above, doubled) && adds(numbers, day.high, doubled, r3)
    &&& exists|below: V| #[trigger] subs(numbers, day.high, pp, below) && exists|doubled: V| #[trigger] muls(numbers, two, below, doubled) && subs(numbers, day.low, doubled, s3)
}

/// Entry `i` of the seven levels: absent where there is no day before, else
/// `pivoted` from it.
pub open spec fn levels_at<V, N: Numbers<V>>(numbers: &N, befores: Seq<Option<DayLevels<V>>>, two: V, three: V, levels: Seq<NamedSeries<V>>, i: int) -> bool {
    match befores[i] {
        None => forall|l: int| 0 <= l < 7 ==> (#[trigger] levels[l]).values@[i] is None,
        Some(day) => (forall|l: int| 0 <= l < 7 ==> (#[trigger] levels[l]).values@[i] is Some) && pivoted(
            numbers,
            day,
            two,
            three,
            levels[0].values@[i]->Some_0,
            levels[1].values@[i]->Some_0,
            levels[2].values@[i]->Some_0,
            levels[3].values@[i]->Some_0,
            levels[4].values@[i]->Some_0,
            levels[5].values@[i]->Some_0,
            levels[6].values@[i]->Some_0,
        ),
    }
}

/// The steps of the pivot levels of the bars, with the levels of the day and
/// of the day before after every bar.
pub open spec fn pivots_run<V, N: Numbers<V>>(numbers: &N, high: Seq<V>, low: Seq<V>, close: Seq<V>, timestamps: Seq<i64>, two: V, three: V, days: Seq<DayLevels<V>>, befores: Seq<Option<DayLevels<V>>>, levels: Seq<NamedSeries<V>>) -> bool {
    &&& ints(numbers, 2, two)
    &&& ints(numbers, 3, three)
    &&& days.len() == high.len()
    &&& befores.len() == high.len()
    &&& forall|i: int| 0 <= i < high.len() ==> #[trigger] day_kept_at(numbers, high, low, close, timestamps, days, befores, i)
    &&& forall|i: int| 0 <= i < high.len() ==> #[trigger] levels_at(numbers, befores, two, three, levels, i)
}

/// `levels` are the pivot levels of the bars: pivot, three resistances and
/// three supports, from the day before each bar.
pub open spec fn pivots_made<V, N: Numbers<V>>(numbers: &N, high: Seq<V>, low: Seq<V>, close: Seq<V>, timestamps: Seq<i64>, levels: Seq<NamedSeries<V>>) -> bool {
    levels.len() == 7 && exists|two: V, three: V, days: Seq<DayLevels<V>>, befores: Seq<Option<DayLevels<V>>>| #[trigger] pivots_run(numbers, high, low, close, timestamps, two, three, days, befores, levels)
}

/// The seven pivot levels from high, low and close of the day before.
fn pivot_levels<V: Copy, N: Numbers<V>>(numbers: &N, day: DayLevels<V>, two: V, three: V) -> (r: (V, V, V, V, V, V, V))
    ensures
        pivoted(numbers, day, two, three, r.0, r.1, r.2, r.3, r.4, r.5, r.6),
{
    let sum: V = numbers.add(day.high, day.low);
    let all: V = numbers.add(sum, day.close);
    let pivot: V = numbers.div(all, three);
    let twice: V = numbers.mul(two, pivot);
    let range: V = numbers.sub(day.high, day.low);
    let r1: V = numbers.sub(twice, day.low);
    let s1: V = numbers.sub(twice, day.high);
    let r2: V = numbers.add(pivot, range);
    let s2: V = numbers.sub(pivot, range);
    let above: V = numbers.sub(pivot, day.low);
    let up: V = numbers.mul(two, above);
    let r3: V = numbers.add(day.high, up);
    let below: V = numbers.sub(day.high, pivot);
    let down: V = numbers.mul(two, below);
    let s3: V = numbers.sub(day.low, down);
    proof {
        assert(adds(numbers, day.high, day.low, sum));
        assert(adds(numbers, sum, day.close, all));
        assert(muls(numbers, two, pivot, twice));
        assert(subs(numbers, day.high, day.low, range));
        assert(subs(numbers, pivot, day.low, above));
        assert(muls(numbers, two, above, up));
        assert(subs(numbers, day.high, pivot, below));
        assert(muls(numbers, two, below, down));
    }
    (pivot, r1, r2, r3, s1, s2, s3)
}

/// The levels of the day after bar `i`, and those of the day before.
fn keep_day<V: Copy, N: Numbers<V>>(numbers: &N, high: &Vec<V>, low: &Vec<V>, close: &Vec<V>, timestamps: &Vec<i64>, current: Option<DayLevels<V>>, previous: Option<DayLevels<V>>, i: usize, Ghost(days): Ghost<Seq<DayLevels<V>>>, Ghost(befores): Ghost<Seq<Option<DayLevels<V>>>>) -> (r: (DayLevels<V>, Option<DayLevels<V>>))
    requires
        aligned(high@, low@, close@),
        timestamps@.len() == high@.len(),
        i < high@.len(),
        days.len() == i,
        befores.len() == i,
        i == 0 ==> current is None && previous is None,
        i > 0 ==> current == Some(days[i - 1]) && previous == befores[i - 1],
    ensures
        day_kept_at(numbers, high@, low@, close@, timestamps@, days.push(r.0), befores.push(r.1), i as int),
{
    let fresh = DayLevels { high: high[i], low: low[i], close: close[i] };
    match current {
        Some(d) => {
            if day_number(timestamps[i]) != day_number(timestamps[i - 1]) {
                (fresh, Some(d))
            } else {
                let higher: V = numbers.max(d.high, high[i]);
                let lower: V = numbers.min(d.low, low[i]);
                assert(maxes(numbers, d.high, high@[i as int], higher));
                assert(mins(numbers, d.low, low@[i as int], lower));
                (DayLevels { high: higher, low: lower, close: close[i] }, previous)
            }
        },
        None => (fresh, previous),
    }
}

/// Classic pivot points from the high, low and close of the day before,
/// under the names `pp`, `r1`, `r2`, `r3`, `s1`, `s2` and `s3`. The bars of
/// the first day have no entries.
pub fn pivots<V: Copy, N: Numbers<V>>(numbers: &N, high: &Vec<V>, low: &Vec<V>, close: &Vec<V>, timestamps: &Vec<i64>) -> (levels: Vec<NamedSeries<V>>)
    requires
        aligned(high@, low@, close@),
        timestamps@.len() == high@.len(),
    ensures
        levels@.len() == 7,
        names_of(levels@) == seq!["pp"@, "r1"@, "r2"@, "r3"@, "s1"@, "s2"@, "s3"@],
        all_of_length(levels@, high@.len() as int),
        pivots_made(numbers, high@, low@, close@, timestamps@, levels@),
{
    let len: usize = high.len();
    let mut pp: Vec<Option<V>> = Vec::new();
    let mut r1: Vec<Option<V>> = Vec::new();
    let mut r2: Vec<Option<V>> = Vec::new();
    let mut r3: Vec<Option<V>> = Vec::new();
    let mut s1: Vec<Option<V>> = Vec::new();
    let mut s2: Vec<Option<V>> = Vec::new();
    let mut s3: Vec<Option<V>> = Vec::new();
    let two: V = numbers.from_int(2);
    let three: V = numbers.from_int(3);
    assert(ints(numbers, 2, two));
    assert(ints(numbers, 3, three));
    let mut previous: Option<DayLevels<V>> = None;
    let mut current: Option<DayLevels<V>> = None;
    let ghost mut days: Seq<DayLevels<V>> = Seq::empty();
    let ghost mut befores: Seq<Option<DayLevels<V>>> = Seq::empty();
    let mut i: usize = 0;
    while i < len
        invariant
            i <= len,
            len == high@.len(),
            aligned(high@, low@, close@),
            timestamps@.len() == len,
            pp@.len() == i,
            r1@.len() == i,
            r2@.len() == i,
            r3@.len() == i,
            s1@.len() == i,
            s2@.len() == i,
            s3@.len() == i,
            days.len() == i,
            befores.len() == i,
            i == 0 ==> current is None && previous is None,
            i > 0 ==> current == Some(days[i - 1]) && previous == befores[i - 1],
            forall|k: int| 0 <= k < i ==> #[trigger] day_kept_at(numbers, high@, low@, close@, timestamps@, days, befores, k),
            forall|k: int| 0 <= k < i ==> #[trigger] pivot_row(numbers, befores, two, three, pp@, r1@, r2@, r3@, s1@, s2@, s3@, k),
        decreases len - i,
    {
        let ghost days_before = days;
        let ghost befores_before = befores;
        let ghost rows = (pp@, r1@, r2@, r3@, s1@, s2@, s3@);
        let kept = keep_day(numbers, high, low, close, timestamps, current, previous, i, Ghost(days), Ghost(befores));
        current = Some(kept.0);
        previous = kept.1;
        match previous {
            Some(p) => {
                let l = pivot_levels(numbers, p, two, three);
                pp.push(Some(l.0));
                r1.push(Some(l.1));
                r2.push(Some(l.2));
                r3.push(Some(l.3));
                s1.push(Some(l.4));
                s2.push(Some(l.5));
                s3.push(Some(l.6));
            },
            None => {
                pp.push(None);
                r1.push(None);
                r2.push(None);
                r3.push(None);
                s1.push(None);
                s2.push(None);
                s3.push(None);
            },
        }
        proof {
            days = days_before.push(kept.0);
            befores = befores_before.push(kept.1);
            assert(pivot_row(numbers, befores, two, three, pp@, r1@, r2@, r3@, s1@, s2@, s3@, i as int));
            assert forall|k: int| 0 <= k < i + 1 implies #[trigger] day_kept_at(numbers, high@, low@, close@, timestamps@, days, befores, k) by {
                if k < i {
                    assert(day_kept_at(numbers, high@, low@, close@, timestamps@, days_before, befores_before, k));
                    assert(days[k] == days_before[k] && befores[k] == befores_before[k]);
                    if k > 0 {
                        assert(days[k - 1] == days_before[k - 1] && befores[k - 1] == befores_before[k - 1]);
                    }
                }
            }
            assert forall|k: int| 0 <= k < i + 1 implies #[trigger] pivot_row(numbers, befores, two, three, pp@, r1@, r2@, r3@, s1@, s2@, s3@, k) by {
                if k < i {
                    assert(pivot_row(numbers, befores_before, two, three, rows.0, rows.1, rows.2, rows.3, rows.4, rows.5, rows.6, k));
                    assert(befores[k] == befores_before[k]);
                    assert(pp@[k] == rows.0[k] && r1@[k] == rows.1[k] && r2@[k] == rows.2[k] && r3@[k] == rows.3[k] && s1@[k] == rows.4[k] && s2@[k] == rows.5[k] && s3@[k] == rows.6[k]);
                }
            }
        }
        i += 1;
    }
    let ghost columns = (pp@, r1@, r2@, r3@, s1@, s2@, s3@);
    let mut levels: Vec<NamedSeries<V>> = Vec::new();
    levels.push(named("pp", pp));
    levels.push(named("r1", r1));
    levels.push(named("r2", r2));
    levels.push(named("r3", r3));
    levels.push(named("s1", s1));
    levels.push(named("s2", s2));
    levels.push(named("s3", s3));
    assert(names_of(levels@) =~= seq!["pp"@, "r1"@, "r2"@, "r3"@, "s1"@, "s2"@, "s3"@]);
    proof {
        assert(levels@[0].values@ == columns.0 && levels@[1].values@ == columns.1 && levels@[2].values@ == columns.2 && levels@[3].values@ == columns.3);
        assert(levels@[4].values@ == columns.4 && levels@[5].values@ == columns.5 && levels@[6].values@ == columns.6);
        assert forall|k: int| 0 <= k < high@.len() implies #[trigger] levels_at(numbers, befores, two, three, levels@, k) by {
            assert(pivot_row(numbers, befores, two, three, columns.0, columns.1, columns.2, columns.3, columns.4, columns.5, columns.6, k));
        }
        assert(pivots_run(numbers, high@, low@, close@, timestamps@, two, three, days, befores, levels@));
    }
    levels
}

/// Entry `i` of seven columns of levels: absent where there is no day
/// before, else `pivoted` from it.
pub open spec fn pivot_row<V, N: Numbers<V>>(numbers: &N, befores: Seq<Option<DayLevels<V>>>, two: V, three: V, pp: Seq<Option<V>>, r1: Seq<Option<V>>, r2: Seq<Option<V>>, r3: Seq<Option<V>>, s1: Seq<Option<V>>, s2: Seq<Option<V>>, s3: Seq<Option<V>>, i: int) -> bool {
    match befores[i] {
        None => pp[i] is None && r1[i] is None && r2[i] is None && r3[i] is None && s1[i] is None && s2[i] is None && s3[i] is None,
        Some(day) => pp[i] is Some && r1[i] is Some && r2[i] is Some && r3[i] is Some && s1[i] is Some && s2[i] is Some && s3[i] is Some && pivoted(
            numbers,
            day,
            two,
            three,
            pp[i]->Some_0,
            r1[i]->Some_0,
            r2[i]->Some_0,
            r3[i]->Some_0,
            s1[i]->Some_0,
            s2[i]->Some_0,
            s3[i]->Some_0,
        ),
    }
}

} // verus!
