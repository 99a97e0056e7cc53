use vstd::prelude::*;
use crate::engine::numeric::{adds, divs, ints, muls, subs, Numbers};
use crate::engine::series::{
    all_blank, blank, blank_before, count, difference, present_from, put, sum_if_present, sum_of,
    parted, sums_to, values_of, whole, window_present,
};

verus! {

/// Sum `k` of the windows is the sum before it, plus the value that enters
/// the window less the value that leaves it.
pub open spec fn slid_at<V, N: Numbers<V>>(numbers: &N, data: Seq<V>, period: int, sums: Seq<V>, k: int) -> bool {
    exists|change: V| #[trigger] subs(numbers, data[period - 1 + k], data[k - 1], change) && adds(numbers, sums[k - 1], change, sums[k])
}

/// `sums` holds the sums of the first windows of `period` values: the sum
/// of the first window, and then each window's sum slid on from the one
/// before.
pub open spec fn window_sums<V, N: Numbers<V>>(numbers: &N, data: Seq<V>, period: int, sums: Seq<V>) -> bool {
    &&& sums.len() >= 1
    &&& sums_to(numbers, data, 0, period, sums[0])
    &&& forall|k: int| 1 <= k < sums.len() ==> #[trigger] slid_at(numbers, data, period, sums, k)
}

/// Entry `i` of the averages is the sum of the window that ends at `i` over
/// `n`.
pub open spec fn mean_at<V, N: Numbers<V>>(numbers: &N, sums: Seq<V>, n: V, period: int, result: Seq<Option<V>>, i: int) -> bool {
    result[i] is Some && divs(numbers, sums[i - (period - 1)], n, result[i]->Some_0)
}

/// The averages from the first full window up to `upto` are the sums of
/// their windows over the period.
pub open spec fn means_made<V, N: Numbers<V>>(numbers: &N, data: Seq<V>, period: int, upto: int, result: Seq<Option<V>>) -> bool {
    exists|n: V, sums: Seq<V>|
        {
            &&& #[trigger] window_sums(numbers, data, period, sums)
            &&& sums.len() == upto - period + 1
            &&& #[trigger] ints(numbers, whole(period as usize), n)
            &&& forall|i: int| period - 1 <= i < upto ==> #[trigger] mean_at(numbers, sums, n, period, result, i)
        }
}

/// `result` is the simple moving average of `data`: absent throughout
/// without a period or with fewer values than the period; else absent
/// before the first full window, and from there on the sum of the window
/// over the period.
pub open spec fn sma_made<V, N: Numbers<V>>(numbers: &N, data: Seq<V>, period: usize, result: Seq<Option<V>>) -> bool {
    &&& result.len() == data.len()
    &&& (if period == 0 || data.len() < period {
        all_blank(result)
    } else {
        blank_before(result, period - 1) && means_made(numbers, data, period as int, data.len() as int, result)
    })
}

/// Simple moving average: the mean of the last `period` values. The first
/// `period - 1` entries are absent; without a period, or with fewer values
/// than the period, all are.
pub fn sma<V: Copy, N: Numbers<V>>(numbers: &N, data: &Vec<V>, period: usize) -> (result: Vec<Option<V>>)
    ensures
        sma_made(numbers, data@, period, result@),
        result@.len() == data@.len(),
        period == 0 || data@.len() < period ==> all_blank(result@),
        period > 0 && data@.len() >= period ==> present_from(result@, period - 1),
{
    let len: usize = data.len();
    let mut result: Vec<Option<V>> = blank(len);
    if period == 0 || len < period {
        return result;
    }
    let n: V = count(numbers, period);
    let mut sum: V = sum_of(numbers, data, 0, period);
    let first: V = numbers.div(sum, n);
    assert(divs(numbers, sum, n, first));
    put(&mut result, period - 1, first);
    let ghost mut sums: Seq<V> = seq![sum];
    assert(mean_at(numbers, sums, n, period as int, result@, period - 1));
    let mut i: usize = period;
    while i < len
        invariant
            0 < period <= i <= len,
            len == data@.len(),
            result@.len() == len,
            forall|k: int| 0 <= k < len ==> ((#[trigger] result@[k]) is Some <==> period - 1 <= k < i),
            window_sums(numbers, data@, period as int, sums),
            sums.len() == i - period + 1,
            sums[i - period] == sum,
            ints(numbers, whole(period), n),
            forall|k: int| period - 1 <= k < i ==> #[trigger] mean_at(numbers, sums, n, period as int, result@, k),
        decreases len - i,
    {
        let ghost earlier = sums;
        let ghost before = result@;
        let change: V = numbers.sub(data[i], data[i - period]);
        let ghost total = sum;
        sum = numbers.add(sum, change);
        let mean: V = numbers.div(sum, n);
        put(&mut result, i, mean);
        proof {
            let at = i - period + 1;
            sums = earlier.push(sum);
            assert(subs(numbers, data@[period - 1 + at], data@[at - 1], change));
            assert(adds(numbers, sums[at - 1], change, sums[at]));
            assert(slid_at(numbers, data@, period as int, sums, at));
            assert forall|k: int| 1 <= k < sums.len() implies #[trigger] slid_at(numbers, data@, period as int, sums, k) by {
                if k < at {
                    assert(slid_at(numbers, data@, period as int, earlier, k));
                }
            }
            assert(divs(numbers, sums[i - (period - 1)], n, mean));
            assert forall|k: int| period - 1 <= k < i + 1 implies #[trigger] mean_at(numbers, sums, n, period as int, result@, k) by {
                if k < i {
                    assert(mean_at(numbers, earlier, n, period as int, before, k));
                    assert(result@[k] == before[k]);
                }
            }
        }
        i += 1;
    }
    assert(period as int as usize == period);
    assert(means_made(numbers, data@, period as int, data@.len() as int, result@));
    result
}

/// `out` is the multiplier of an exponential average: two over the period
/// plus one.
pub open spec fn multiplier_of<V, N: Numbers<V>>(numbers: &N, period: usize, out: V) -> bool {
    exists|two: V| #[trigger]
        ints(numbers, 2, two) && exists|n: V| #[trigger] ints(numbers, whole(period), n) && exists|one: V| #[trigger] ints(numbers, 1, one) && exists|span: V| #[trigger] adds(numbers, n, one, span) && divs(numbers, two, span, out)
}

/// `out` is the mean of the first `period` values.
pub open spec fn seed_of<V, N: Numbers<V>>(numbers: &N, data: Seq<V>, period: usize, out: V) -> bool {
    exists|total: V| #[trigger] sums_to(numbers, data, 0, period as int, total) && exists|n: V| #[trigger] ints(numbers, whole(period), n) && divs(numbers, total, n, out)
}

/// `next` is the average `prev` moved toward `value` by the multiplier: the
/// gap between them times the multiplier, plus the average.
pub open spec fn smoothed<V, N: Numbers<V>>(numbers: &N, value: V, prev: V, multiplier: V, next: V) -> bool {
    exists|gap: V| #[trigger] subs(numbers, value, prev, gap) && exists|step: V| #[trigger] muls(numbers, gap, multiplier, step) && adds(numbers, step, prev, next)
}

/// Entry `i` of the averages is the entry before it, moved toward value
/// `i`.
pub open spec fn smoothed_at<V, N: Numbers<V>>(numbers: &N, data: Seq<V>, multiplier: V, result: Seq<Option<V>>, i: int) -> bool {
    result[i] is Some && result[i - 1] is Some && smoothed(numbers, data[i], result[i - 1]->Some_0, multiplier, result[i]->Some_0)
}

/// The averages up to `upto` are seeded with the mean of the first window
/// and smoothed from there on.
pub open spec fn smoothing_made<V, N: Numbers<V>>(numbers: &N, data: Seq<V>, period: usize, upto: int, result: Seq<Option<V>>) -> bool {
    exists|multiplier: V| #[trigger]
        multiplier_of(numbers, period, multiplier) && result[period - 1] is Some && seed_of(numbers, data, period, result[period - 1]->Some_0) && forall|i: int| period <= i < upto ==> #[trigger] smoothed_at(numbers, data, multiplier, result, i)
}

/// `result` is the exponential moving average of `data`: absent throughout
/// without a period or with fewer values than the period; else absent
/// before the first full window, seeded there with the mean of the window,
/// and smoothed from there on.
pub open spec fn ema_made<V, N: Numbers<V>>(numbers: &N, data: Seq<V>, period: usize, result: Seq<Option<V>>) -> bool {
    &&& result.len() == data.len()
    &&& (if period == 0 || data.len() < period {
        all_blank(result)
    } else {
        blank_before(result, period - 1) && smoothing_made(numbers, data, period, data.len() as int, result)
    })
}

/// Exponential moving average with the multiplier `2 / (period + 1)`,
/// seeded at entry `period - 1` with the simple mean of the first `period`
/// values. The first `period - 1` entries are absent.
pub fn ema<V: Copy, N: Numbers<V>>(numbers: &N, data: &Vec<V>, period: usize) -> (result: Vec<Option<V>>)
    ensures
        ema_made(numbers, data@, period, result@),
        result@.len() == data@.len(),
        period == 0 || data@.len() < period ==> all_blank(result@),
        period > 0 && data@.len() >= period ==> present_from(result@, period - 1),
{
    let len: usize = data.len();
    let mut result: Vec<Option<V>> = blank(len);
    if period == 0 || len < period {
        return result;
    }
    let two: V = numbers.from_int(2);
    let n: V = count(numbers, period);
    let one: V = numbers.from_int(1);
    let span: V = numbers.add(n, one);
    let multiplier: V = numbers.div(two, span);
    proof {
        assert(ints(numbers, 2, two));
        assert(ints(numbers, 1, one));
        assert(adds(numbers, n, one, span));
        assert(multiplier_of(numbers, period, multiplier));
    }
    let total: V = sum_of(numbers, data, 0, period);
    let m: V = count(numbers, period);
    let mut prev: V = numbers.div(total, m);
    assert(seed_of(numbers, data@, period, prev));
    put(&mut result, period - 1, prev);
    let mut i: usize = period;
    while i < len
        invariant
            0 < period <= i <= len,
            len == data@.len(),
            result@.len() == len,
            forall|k: int| 0 <= k < len ==> ((#[trigger] result@[k]) is Some <==> period - 1 <= k < i),
            result@[i - 1] == Some(prev),
            result@[period - 1] is Some,
            seed_of(numbers, data@, period, result@[period - 1]->Some_0),
            forall|k: int| period <= k < i ==> #[trigger] smoothed_at(numbers, data@, multiplier, result@, k),
        decreases len - i,
    {
        let ghost before = result@;
        let ghost last = prev;
        let gap: V = numbers.sub(data[i], prev);
        let step: V = numbers.mul(gap, multiplier);
        prev = numbers.add(step, prev);
        put(&mut result, i, prev);
        proof {
            assert(subs(numbers, data@[i as int], last, gap));
            assert(muls(numbers, gap, multiplier, step));
            assert(smoothed(numbers, data@[i as int], last, multiplier, prev));
            assert forall|k: int| period <= k < i + 1 implies #[trigger] smoothed_at(numbers, data@, multiplier, result@, k) by {
                if k < i {
                    assert(smoothed_at(numbers, data@, multiplier, before, k));
                    assert(result@[k] == before[k]);
                    assert(result@[k - 1] == before[k - 1]);
                }
            }
        }
        i += 1;
    }
    assert(smoothing_made(numbers, data@, period, data@.len() as int, result@));
    result
}

/// The `period` entries from `start` on are all present.
pub open spec fn full_window<V>(s: Seq<Option<V>>, start: int, period: int) -> bool {
    window_present(s, start, start + period)
}

/// The first position from which `period` entries in a row are present, if
/// there is one.
fn first_full_window<V: Copy>(data: &Vec<Option<V>>, period: usize) -> (r: Option<usize>)
    requires
        0 < period <= data@.len(),
    ensures
        match r {
            Some(start) => start + period <= data@.len() && full_window(data@, start as int, period as int) && forall|s: int|
                0 <= s < start ==> !#[trigger] full_window(data@, s, period as int),
            None => forall|s: int| 0 <= s <= data@.len() - period ==> !#[trigger] full_window(data@, s, period as int),
        },
{
    let len: usize = data.len();
    let mut start: usize = 0;
    while start <= len - period
        invariant
            0 < period <= len,
            start <= len - period + 1,
            len == data@.len(),
            forall|s: int| 0 <= s < start ==> !#[trigger] full_window(data@, s, period as int),
        decreases len + 1 - start,
    {
        let mut j: usize = start;
        let mut full: bool = true;
        while j < start + period && full
            invariant
                start <= j <= start + period <= len,
                len == data@.len(),
                full ==> window_present(data@, start as int, j as int),
                !full ==> !window_present(data@, start as int, start + period),
            decreases start + period - j + (if full { 1int } else { 0int }),
        {
            if data[j].is_none() {
                full = false;
                assert(!window_present(data@, start as int, start + period)) by {
                    assert(data@[j as int] is None);
                }
            } else {
                j += 1;
            }
        }
        if full {
            return Some(start);
        }
        start += 1;
    }
    None
}

/// Entry `i` of the averages of a series with gaps follows entry `i` of the
/// series: where that is present, the running average moves toward it and
/// is entry `i`; where it is absent, so is entry `i`, and the running
/// average stays.
pub open spec fn followed_at<V, N: Numbers<V>>(numbers: &N, data: Seq<Option<V>>, multiplier: V, carry: Seq<V>, result: Seq<Option<V>>, i: int) -> bool {
    match data[i] {
        Some(v) => result[i] == Some(carry[i]) && smoothed(numbers, v, carry[i - 1], multiplier, carry[i]),
        None => result[i] is None && carry[i] == carry[i - 1],
    }
}

/// The averages of a series with gaps whose first full window begins at
/// `start`: absent before the end of that window, seeded there with the
/// mean of the window, and from there on `followed_at`, with `carry` as the
/// running average at every entry.
pub open spec fn gap_smoothing_run<V, N: Numbers<V>>(numbers: &N, data: Seq<Option<V>>, period: usize, start: int, carry: Seq<V>, result: Seq<Option<V>>) -> bool {
    &&& carry.len() == data.len()
    &&& 0 <= start
    &&& start + period <= data.len()
    &&& full_window(data, start, period as int)
    &&& forall|s: int| 0 <= s < start ==> !#[trigger] full_window(data, s, period as int)
    &&& blank_before(result, start + period - 1)
    &&& result[start + period - 1] == Some(carry[start + period - 1])
    &&& exists|total: V| #[trigger]
        sums_to(numbers, values_of(data), start, start + period, total) && exists|n: V| #[trigger] ints(numbers, whole(period), n) && divs(numbers, total, n, carry[start + period - 1])
    &&& exists|multiplier: V| #[trigger]
        multiplier_of(numbers, period, multiplier) && forall|i: int| start + period <= i < data.len() ==> #[trigger] followed_at(numbers, data, multiplier, carry, result, i)
}

/// `result` is the exponential moving average of a series with gaps: absent
/// throughout without a period, with fewer entries than the period or
/// without a full window; else `gap_smoothing_run` from the first full
/// window.
pub open spec fn gap_smoothing_made<V, N: Numbers<V>>(numbers: &N, data: Seq<Option<V>>, period: usize, result: Seq<Option<V>>) -> bool {
    &&& result.len() == data.len()
    &&& (if period == 0 || data.len() < period {
        all_blank(result)
    } else {
        ||| (all_blank(result) && forall|s: int| 0 <= s <= data.len() - period ==> !#[trigger] full_window(data, s, period as int))
        ||| exists|start: int, carry: Seq<V>| #[trigger] gap_smoothing_run(numbers, data, period, start, carry, result)
    })
}

/// Exponential moving average of a series with gaps. It is seeded with the
/// mean of the first `period` entries in a row that are present, and from
/// there on follows the entries that are present.
///
/// On a series that is present from `warm` on, the result is present from
/// `warm + period - 1` on.
pub fn ema_on_slice<V: Copy, N: Numbers<V>>(numbers: &N, data: &Vec<Option<V>>, period: usize) -> (result: Vec<Option<V>>)
    ensures
        gap_smoothing_made(numbers, data@, period, result@),
        result@.len() == data@.len(),
        period == 0 || data@.len() < period ==> all_blank(result@),
        forall|warm: int| 0 <= warm && present_from(data@, warm) && period > 0 ==> #[trigger] present_from(result@, warm + period - 1),
{
    let len: usize = data.len();
    let mut result: Vec<Option<V>> = blank(len);
    if period == 0 || len < period {
        assert forall|warm: int| 0 <= warm && present_from(data@, warm) && period > 0 implies #[trigger] present_from(result@, warm + period - 1) by {
            assert forall|i: int| 0 <= i < result@.len() implies ((#[trigger] result@[i]) is Some <==> i >= warm + period - 1) by {
            }
        }
        return result;
    }
    let start: usize = match first_full_window(data, period) {
        Some(s) => s,
        None => {
            assert forall|warm: int| 0 <= warm && present_from(data@, warm) implies #[trigger] present_from(result@, warm + period - 1) by {
                if warm + period <= len {
                    assert(full_window(data@, warm, period as int));
                }
            }
            return result;
        },
    };
    let two: V = numbers.from_int(2);
    let n: V = count(numbers, period);
    let one: V = numbers.from_int(1);
    let span: V = numbers.add(n, one);
    let multiplier: V = numbers.div(two, span);
    proof {
        assert(ints(numbers, 2, two));
        assert(ints(numbers, 1, one));
        assert(adds(numbers, n, one, span));
        assert(multiplier_of(numbers, period, multiplier));
    }
    let m: V = count(numbers, period);
    let seed: V = match sum_if_present(numbers, data, start, start + period) {
        Some(sum) => {
            let seed: V = numbers.div(sum, m);
            assert(sums_to(numbers, values_of(data@), start as int, start + period, sum) && ints(numbers, whole(period), m) && divs(numbers, sum, m, seed));
            seed
        },
        None => numbers.from_int(0),
    };
    let mut prev: V = seed;
    put(&mut result, start + period - 1, prev);
    let ghost mut carry: Seq<V> = Seq::new(len as nat, |k: int| seed);
    let mut i: usize = start + period;
    while i < len
        invariant
            0 < period,
            start + period <= i <= len,
            len == data@.len(),
            result@.len() == len,
            carry.len() == len,
            carry[i - 1] == prev,
            carry[start + period - 1] == seed,
            result@[start + period - 1] == Some(seed),
            forall|k: int| 0 <= k < len ==> ((#[trigger] result@[k]) is Some <==> (k == start + period - 1 || (start + period <= k < i && data@[k] is Some))),
            forall|k: int| start + period <= k < i ==> #[trigger] followed_at(numbers, data@, multiplier, carry, result@, k),
        decreases len - i,
    {
        let ghost before = result@;
        let ghost carried = carry;
        let ghost last = prev;
        match data[i] {
            Some(v) => {
                let gap: V = numbers.sub(v, prev);
                let step: V = numbers.mul(gap, multiplier);
                prev = numbers.add(step, prev);
                put(&mut result, i, prev);
                proof {
                    assert(subs(numbers, v, last, gap));
                    assert(muls(numbers, gap, multiplier, step));
                    assert(smoothed(numbers, v, last, multiplier, prev));
                }
            },
            None => {},
        }
        proof {
            carry = carried.update(i as int, prev);
            assert(followed_at(numbers, data@, multiplier, carry, result@, i as int));
            assert forall|k: int| start + period <= k < i + 1 implies #[trigger] followed_at(numbers, data@, multiplier, carry, result@, k) by {
                if k < i {
                    assert(followed_at(numbers, data@, multiplier, carried, before, k));
                    assert(result@[k] == before[k]);
                }
            }
        }
        i += 1;
    }
    proof {
        assert forall|warm: int| 0 <= warm && present_from(data@, warm) implies #[trigger] present_from(result@, warm + period - 1) by {
            assert(data@[start as int] is Some);
            assert(start >= warm);
            if start > warm {
                assert(full_window(data@, warm, period as int));
                assert(false);
            }
        }
        assert(gap_smoothing_run(numbers, data@, period, start as int, carry, result@));
    }
    result
}

/// Entry `i` of the averages of a series with gaps, where it is present, is
/// the sum of the window of `period` entries that ends at `i`, over the
/// period.
pub open spec fn gap_mean_at<V, N: Numbers<V>>(numbers: &N, data: Seq<Option<V>>, period: usize, result: Seq<Option<V>>, i: int) -> bool {
    result[i] is Some ==> exists|total: V| #[trigger]
        sums_to(numbers, values_of(data), i + 1 - period, i + 1, total) && exists|n: V| #[trigger] ints(numbers, whole(period), n) && divs(numbers, total, n, result[i]->Some_0)
}

/// `result` is the simple moving average of a series with gaps: an entry is
/// present exactly where the window that ends at it is full, and then it is
/// the mean of the window.
pub open spec fn gap_means_made<V, N: Numbers<V>>(numbers: &N, data: Seq<Option<V>>, period: usize, result: Seq<Option<V>>) -> bool {
    &&& result.len() == data.len()
    &&& (period == 0 ==> all_blank(result))
    &&& (period > 0 ==> forall|i: int| 0 <= i < result.len() ==> ((#[trigger] result[i]) is Some <==> i + 1 >= period && full_window(data, i + 1 - period, period as int)))
    &&& forall|i: int| 0 <= i < result.len() ==> #[trigger] gap_mean_at(numbers, data, period, result, i)
}

/// Simple moving average of a series with gaps: the mean of the last
/// `period` entries where all of them are present.
///
/// On a series that is present from `warm` on, the result is present from
/// `warm + period - 1` on.
pub fn sma_on_slice<V: Copy, N: Numbers<V>>(numbers: &N, data: &Vec<Option<V>>, period: usize) -> (result: Vec<Option<V>>)
    ensures
        gap_means_made(numbers, data@, period, result@),
        result@.len() == data@.len(),
        period == 0 ==> all_blank(result@),
        period > 0 ==> forall|i: int| 0 <= i < result@.len() ==> ((#[trigger] result@[i]) is Some <==> i + 1 >= period && full_window(data@, i + 1 - period, period as int)),
{
    let len: usize = data.len();
    let mut result: Vec<Option<V>> = blank(len);
    if period == 0 {
        return result;
    }
    let mut i: usize = 0;
    while i < len
        invariant
            0 < period,
            i <= len,
            len == data@.len(),
            result@.len() == len,
            forall|k: int| 0 <= k < len ==> ((#[trigger] result@[k]) is Some <==> k < i && k + 1 >= period && full_window(data@, k + 1 - period, period as int)),
            forall|k: int| 0 <= k < len ==> #[trigger] gap_mean_at(numbers, data@, period, result@, k),
        decreases len - i,
    {
        let ghost before = result@;
        if i + 1 >= period {
            match sum_if_present(numbers, data, i + 1 - period, i + 1) {
                Some(sum) => {
                    let n: V = count(numbers, period);
                    let mean: V = numbers.div(sum, n);
                    put(&mut result, i, mean);
                    proof {
                        assert(sums_to(numbers, values_of(data@), i + 1 - period, i + 1, sum));
                        assert(ints(numbers, whole(period), n));
                        assert(divs(numbers, sum, n, mean));
                        assert(gap_mean_at(numbers, data@, period, result@, i as int));
                    }
                },
                None => {},
            }
        }
        proof {
            assert forall|k: int| 0 <= k < len implies #[trigger] gap_mean_at(numbers, data@, period, result@, k) by {
                if k != i {
                    assert(gap_mean_at(numbers, data@, period, before, k));
                    assert(result@[k] == before[k]);
                }
            }
        }
        i += 1;
    }
    result
}

/// What `sma_on_slice` says of each entry implies that on a series present
/// from `warm` on it is present from `warm + period - 1` on.
pub proof fn lemma_window_warmup<V>(data: Seq<Option<V>>, result: Seq<Option<V>>, period: int, warm: int)
    requires
        period > 0,
        warm >= 0,
        result.len() == data.len(),
        present_from(data, warm),
        forall|i: int| 0 <= i < result.len() ==> ((#[trigger] result[i]) is Some <==> i + 1 >= period && full_window(data, i + 1 - period, period)),
    ensures
        present_from(result, warm + period - 1),
{
    assert forall|i: int| 0 <= i < result.len() implies ((#[trigger] result[i]) is Some <==> i >= warm + period - 1) by {
        if i >= warm + period - 1 {
            assert(full_window(data, i + 1 - period, period));
        } else if i + 1 >= period {
            assert(data[i + 1 - period] is None);
        }
    }
}

/// `out` is the sum of the weights 1 to `period`: the period times the
/// period plus one, over two.
pub open spec fn weight_total<V, N: Numbers<V>>(numbers: &N, period: usize, out: V) -> bool {
    exists|n: V| #[trigger]
        ints(numbers, whole(period), n) && exists|one: V| #[trigger]
            ints(numbers, 1, one) && exists|next: V| #[trigger] adds(numbers, n, one, next) && exists|product: V| #[trigger] muls(numbers, n, next, product) && exists|two: V| #[trigger] ints(numbers, 2, two) && divs(numbers, product, two, out)
}

/// Step `j` of a weighted sum: value `from + j` times the weight `j + 1` is
/// added to the sum so far.
pub open spec fn weighted_at<V, N: Numbers<V>>(numbers: &N, values: Seq<V>, from: int, steps: Seq<V>, j: int) -> bool {
    exists|weight: V| #[trigger] ints(numbers, whole((j + 1) as usize), weight) && exists|term: V| #[trigger] muls(numbers, values[from + j], weight, term) && adds(numbers, steps[j], term, steps[j + 1])
}

/// `steps` holds zero and then the weighted sum so far of the `count`
/// values from `from` on, with the weights 1, 2 and so on.
pub open spec fn weighted_run<V, N: Numbers<V>>(numbers: &N, values: Seq<V>, from: int, count: int, steps: Seq<V>) -> bool {
    &&& steps.len() == count + 1
    &&& ints(numbers, 0, steps[0])
    &&& forall|j: int| 0 <= j < count ==> #[trigger] weighted_at(numbers, values, from, steps, j)
}

/// Entry `i` of the weighted averages, where it is present, is the weighted
/// sum of the window of `period` entries that ends at `i`, over the sum of
/// the weights.
pub open spec fn weighted_mean_at<V, N: Numbers<V>>(numbers: &N, data: Seq<Option<V>>, period: usize, denom: V, result: Seq<Option<V>>, i: int) -> bool {
    result[i] is Some ==> exists|steps: Seq<V>| #[trigger] weighted_run(numbers, values_of(data), i + 1 - period, period as int, steps) && divs(numbers, steps[period as int], denom, result[i]->Some_0)
}

/// `result` is the weighted moving average of a series with gaps: absent
/// throughout without a period or with fewer entries than the period; else
/// an entry is present exactly where the window that ends at it is full,
/// and then it is the weighted mean of the window.
pub open spec fn wma_made<V, N: Numbers<V>>(numbers: &N, data: Seq<Option<V>>, period: usize, result: Seq<Option<V>>) -> bool {
    &&& result.len() == data.len()
    &&& (if period == 0 || data.len() < period {
        all_blank(result)
    } else {
        (forall|i: int| 0 <= i < result.len() ==> ((#[trigger] result[i]) is Some <==> i + 1 >= period && full_window(data, i + 1 - period, period as int))) && exists|denom: V| #[trigger]
            weight_total(numbers, period, denom) && forall|i: int| 0 <= i < result.len() ==> #[trigger] weighted_mean_at(numbers, data, period, denom, result, i)
    })
}

/// The weighted sum of `period` entries from `from` on, with the weights 1
/// to `period`, if every entry of the window is present.
fn weighted_sum_if_present<V: Copy, N: Numbers<V>>(numbers: &N, data: &Vec<Option<V>>, from: usize, period: usize) -> (r: Option<V>)
    requires
        from + period <= data@.len(),
    ensures
        r is Some <==> window_present(data@, from as int, from + period),
        r is Some ==> exists|steps: Seq<V>| #[trigger] weighted_run(numbers, values_of(data@), from as int, period as int, steps) && steps[period as int] == r->Some_0,
{
    let len: usize = data.len();
    let mut sum: V = numbers.from_int(0);
    assert(ints(numbers, 0, sum));
    let ghost mut steps: Seq<V> = seq![sum];
    let mut j: usize = 0;
    while j < period
        invariant
            j <= period,
            from + period <= len,
            len == data@.len(),
            window_present(data@, from as int, from + j),
            weighted_run(numbers, values_of(data@), from as int, j as int, steps),
            steps[j as int] == sum,
        decreases period - j,
    {
        let ghost before = steps;
        let ghost so_far = sum;
        match data[from + j] {
            Some(v) => {
                let weight: V = count(numbers, j + 1);
                let term: V = numbers.mul(v, weight);
                sum = numbers.add(sum, term);
                proof {
                    steps = before.push(sum);
                    assert(values_of(data@)[from + j] == v);
                    assert(muls(numbers, v, weight, term));
                    assert(adds(numbers, so_far, term, sum));
                    assert(steps[j as int] == so_far && steps[j + 1] == sum);
                    assert(weighted_at(numbers, values_of(data@), from as int, steps, j as int));
                    assert forall|k: int| 0 <= k < j + 1 implies #[trigger] weighted_at(numbers, values_of(data@), from as int, steps, k) by {
                        if k < j {
                            assert(weighted_at(numbers, values_of(data@), from as int, before, k));
                            assert(steps[k] == before[k] && steps[k + 1] == before[k + 1]);
                        }
                    }
                }
                j += 1;
            },
            None => {
                assert(!window_present(data@, from as int, from + period)) by {
                    assert(data@[from + j] is None);
                }
                return None;
            },
        }
    }
    Some(sum)
}

/// Weighted moving average of a series with gaps: the last `period` entries
/// weighted 1 to `period`, over the sum of the weights, where all of them
/// are present.
pub fn wma<V: Copy, N: Numbers<V>>(numbers: &N, data: &Vec<Option<V>>, period: usize) -> (result: Vec<Option<V>>)
    ensures
        wma_made(numbers, data@, period, result@),
        result@.len() == data@.len(),
        period == 0 || data@.len() < period ==> all_blank(result@),
        period > 0 ==> forall|i: int| 0 <= i < result@.len() ==> ((#[trigger] result@[i]) is Some <==> i + 1 >= period && full_window(data@, i + 1 - period, period as int)),
{
    let len: usize = data.len();
    let mut result: Vec<Option<V>> = blank(len);
    if period == 0 || len < period {
        return result;
    }
    let n: V = count(numbers, period);
    let one: V = numbers.from_int(1);
    let next: V = numbers.add(n, one);
    let product: V = numbers.mul(n, next);
    let two: V = numbers.from_int(2);
    let denom: V = numbers.div(product, two);
    proof {
        assert(ints(numbers, 1, one));
        assert(adds(numbers, n, one, next));
        assert(muls(numbers, n, next, product));
        assert(ints(numbers, 2, two));
        assert(weight_total(numbers, period, denom));
    }
    let mut i: usize = period - 1;
    while i < len
        invariant
            0 < period <= len,
            period - 1 <= i <= len,
            len == data@.len(),
            result@.len() == len,
            forall|k: int| 0 <= k < len ==> ((#[trigger] result@[k]) is Some <==> k < i && k + 1 >= period && full_window(data@, k + 1 - period, period as int)),
            forall|k: int| 0 <= k < len ==> #[trigger] weighted_mean_at(numbers, data@, period, denom, result@, k),
        decreases len - i,
    {
        let ghost before = result@;
        let from: usize = i + 1 - period;
        match weighted_sum_if_present(numbers, data, from, period) {
            Some(sum) => {
                let mean: V = numbers.div(sum, denom);
                put(&mut result, i, mean);
                proof {
                    assert(divs(numbers, sum, denom, mean));
                    assert(weighted_mean_at(numbers, data@, period, denom, result@, i as int));
                }
            },
            None => {},
        }
        proof {
            assert forall|k: int| 0 <= k < len implies #[trigger] weighted_mean_at(numbers, data@, period, denom, result@, k) by {
                if k != i {
                    assert(weighted_mean_at(numbers, data@, period, denom, before, k));
                    assert(result@[k] == before[k]);
                }
            }
        }
        i += 1;
    }
    result
}

/// A series of the values themselves, all present.
pub fn as_series<V: Copy>(data: &Vec<V>) -> (series: Vec<Option<V>>)
    ensures
        series@.len() == data@.len(),
        present_from(series@, 0),
        forall|i: int| 0 <= i < data@.len() ==> #[trigger] series@[i] == Some(data@[i]),
{
    let mut series: Vec<Option<V>> = Vec::new();
    let mut i: usize = 0;
    while i < data.len()
        invariant
            i <= data@.len(),
            series@.len() == i,
            forall|k: int| 0 <= k < i ==> #[trigger] series@[k] == Some(data@[k]),
        decreases data@.len() - i,
    {
        series.push(Some(data[i]));
        i += 1;
    }
    series
}

/// The three lines of MACD: the line is the fast exponential average of
/// the closes less the slow one, the signal is the exponential average of
/// the line, and the histogram is the line less the signal.
pub open spec fn macd_made<V, N: Numbers<V>>(numbers: &N, close: Seq<V>, fast_period: usize, slow_period: usize, signal_period: usize, line: Seq<Option<V>>, signal: Seq<Option<V>>, histogram: Seq<Option<V>>) -> bool {
    &&& exists|fast: Seq<Option<V>>, slow: Seq<Option<V>>| #[trigger] ema_made(numbers, close, fast_period, fast) && #[trigger] ema_made(numbers, close, slow_period, slow) && parted(numbers, fast, slow, line)
    &&& gap_smoothing_made(numbers, line, signal_period, signal)
    &&& parted(numbers, line, signal, histogram)
}

/// MACD: the line is the fast average less the slow one, the signal is the
/// average of the line, the histogram the line less the signal. Returns
/// line, signal and histogram.
///
/// With all periods set and enough data, the line is present from the
/// longer of the two periods on, and signal and histogram from
/// `signal_period - 1` entries later.
pub fn macd<V: Copy, N: Numbers<V>>(numbers: &N, close: &Vec<V>, fast_period: usize, slow_period: usize, signal_period: usize) -> (r: (Vec<Option<V>>, Vec<Option<V>>, Vec<Option<V>>))
    ensures
        macd_made(numbers, close@, fast_period, slow_period, signal_period, r.0@, r.1@, r.2@),
        r.0@.len() == close@.len(),
        r.1@.len() == close@.len(),
        r.2@.len() == close@.len(),
        blank_before(r.0@, (if fast_period > slow_period { fast_period as int } else { slow_period as int }) - 1),
        fast_period > 0 && slow_period > 0 && signal_period > 0 && close@.len() >= fast_period && close@.len() >= slow_period ==> {
            let warm = (if fast_period > slow_period { fast_period as int } else { slow_period as int }) - 1;
            &&& present_from(r.0@, warm)
            &&& present_from(r.1@, warm + signal_period - 1)
            &&& present_from(r.2@, warm + signal_period - 1)
        },
{
    let fast_ema = ema(numbers, close, fast_period);
    let slow_ema = ema(numbers, close, slow_period);
    let macd_line = difference(numbers, &fast_ema, &slow_ema);
    let signal_line = ema_on_slice(numbers, &macd_line, signal_period);
    let histogram = difference(numbers, &macd_line, &signal_line);
    proof {
        if fast_period > 0 && slow_period > 0 && signal_period > 0 && close@.len() >= fast_period && close@.len() >= slow_period {
            let warm = (if fast_period > slow_period { fast_period as int } else { slow_period as int }) - 1;
            assert(present_from(macd_line@, warm));
            assert(present_from(signal_line@, warm + signal_period - 1));
            assert(present_from(histogram@, warm + signal_period - 1));
        }
    }
    (macd_line, signal_line, histogram)
}

} // verus!
