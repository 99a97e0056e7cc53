use vstd::prelude::*;
use crate::engine::numeric::{
    adds, compares, ints, maxes, mins, relates, subs, Numbers, Relation,
};

verus! {

/// An array of values aligned with the candles, with gaps: an entry is
/// absent while an indicator warms up and wherever it has no value.
pub type Series<V> = Vec<Option<V>>;

/// No entry of the series is present.
pub open spec fn all_blank<V>(s: Seq<Option<V>>) -> bool {
    forall|i: int| 0 <= i < s.len() ==> (#[trigger] s[i]) is None
}

/// The entries of the series are absent before `warm` and present from
/// there on.
pub open spec fn present_from<V>(s: Seq<Option<V>>, warm: int) -> bool {
    forall|i: int| 0 <= i < s.len() ==> ((#[trigger] s[i]) is Some <==> i >= warm)
}

/// The entries of the series before `warm` are absent.
pub open spec fn blank_before<V>(s: Seq<Option<V>>, warm: int) -> bool {
    forall|i: int| 0 <= i < s.len() && i < warm ==> (#[trigger] s[i]) is None
}

/// The entry of `s` at `i`, if there is a present one.
pub open spec fn entry_at<V>(s: Seq<Option<V>>, i: int) -> Option<V> {
    if 0 <= i < s.len() {
        s[i]
    } else {
        None
    }
}

/// Reads the entry of a series at `i`.
pub fn read_entry<V: Copy>(series: &Vec<Option<V>>, i: usize) -> (r: Option<V>)
    ensures
        r == entry_at(series@, i as int),
{
    if i < series.len() {
        series[i]
    } else {
        None
    }
}

/// A series of `len` absent entries.
pub fn blank<V>(len: usize) -> (s: Vec<Option<V>>)
    ensures
        s@.len() == len,
        all_blank(s@),
{
    let mut s: Vec<Option<V>> = Vec::new();
    let mut i: usize = 0;
    while i < len
        invariant
            i <= len,
            s@.len() == i,
            all_blank(s@),
        decreases len - i,
    {
        s.push(None);
        i += 1;
    }
    s
}

/// An array of `len` copies of `value`.
pub fn filled<V: Copy>(value: V, len: usize) -> (s: Vec<V>)
    ensures
        s@.len() == len,
        forall|i: int| 0 <= i < len ==> #[trigger] s@[i] == value,
{
    let mut s: Vec<V> = Vec::new();
    let mut i: usize = 0;
    while i < len
        invariant
            i <= len,
            s@.len() == i,
            forall|k: int| 0 <= k < i ==> #[trigger] s@[k] == value,
        decreases len - i,
    {
        s.push(value);
        i += 1;
    }
    s
}

/// Sets the entry of a series at `i`.
pub fn put<V>(series: &mut Vec<Option<V>>, i: usize, value: V)
    requires
        i < old(series)@.len(),
    ensures
        final(series)@ == old(series)@.update(i as int, Some(value)),
{
    series[i] = Some(value);
}

/// Sets the entry of an array at `i`.
pub fn store<V>(values: &mut Vec<V>, i: usize, value: V)
    requires
        i < old(values)@.len(),
    ensures
        final(values)@ == old(values)@.update(i as int, value),
{
    values[i] = value;
}

/// A count as a whole number that fits the signed range.
pub open spec fn whole(n: usize) -> i64 {
    if n > i64::MAX {
        i64::MAX
    } else {
        n as i64
    }
}

/// A count as a value: the whole number of the count as `numbers` gives it.
pub(crate) fn count<V, N: Numbers<V>>(numbers: &N, n: usize) -> (out: V)
    ensures
        ints(numbers, whole(n), out),
{
    let wide: u64 = n as u64;
    if wide > 9_223_372_036_854_775_807u64 {
        numbers.from_int(i64::MAX)
    } else {
        numbers.from_int(wide as i64)
    }
}

/// `steps` holds zero and then the sum so far after each entry of
/// `data[from..to]`, added from the left.
pub open spec fn running_sums<V, N: Numbers<V>>(numbers: &N, data: Seq<V>, from: int, to: int, steps: Seq<V>) -> bool {
    &&& steps.len() == to - from + 1
    &&& ints(numbers, 0, steps[0])
    &&& forall|k: int| 0 <= k < to - from ==> adds(numbers, #[trigger] steps[k], data[from + k], steps[k + 1])
}

/// `total` is a sum of `data[from..to]`: zero, with one entry after the
/// other added to it from the left.
pub open spec fn sums_to<V, N: Numbers<V>>(numbers: &N, data: Seq<V>, from: int, to: int, total: V) -> bool {
    exists|steps: Seq<V>| #[trigger] running_sums(numbers, data, from, to, steps) && steps[to - from] == total
}

/// The sum of `data[from..to]`, added up from the left.
pub(crate) fn sum_of<V: Copy, N: Numbers<V>>(numbers: &N, data: &Vec<V>, from: usize, to: usize) -> (sum: V)
    requires
        from <= to <= data@.len(),
    ensures
        sums_to(numbers, data@, from as int, to as int, sum),
{
    let mut sum: V = numbers.from_int(0);
    let ghost mut steps: Seq<V> = seq![sum];
    let mut i: usize = from;
    while i < to
        invariant
            from <= i <= to <= data@.len(),
            running_sums(numbers, data@, from as int, i as int, steps),
            steps[i - from] == sum,
        decreases to - i,
    {
        let ghost before = steps;
        sum = numbers.add(sum, data[i]);
        proof {
            steps = before.push(sum);
            assert forall|k: int| 0 <= k < i + 1 - from implies adds(numbers, #[trigger] steps[k], data@[from + k], steps[k + 1]) by {
                if k < i - from {
                    assert(adds(numbers, before[k], data@[from + k], before[k + 1]));
                }
            }
        }
        i += 1;
    }
    sum
}

/// `steps` holds `start` and then the greatest so far after each entry of
/// `data[from..to]`, set against it from the left.
pub open spec fn running_greatest<V, N: Numbers<V>>(numbers: &N, data: Seq<V>, from: int, to: int, start: V, steps: Seq<V>) -> bool {
    &&& steps.len() == to - from + 1
    &&& steps[0] == start
    &&& forall|k: int| 0 <= k < to - from ==> maxes(numbers, #[trigger] steps[k], data[from + k], steps[k + 1])
}

/// `best` is a greatest of `start` and `data[from..to]`.
pub open spec fn greatest_of<V, N: Numbers<V>>(numbers: &N, data: Seq<V>, from: int, to: int, start: V, best: V) -> bool {
    exists|steps: Seq<V>| #[trigger] running_greatest(numbers, data, from, to, start, steps) && steps[to - from] == best
}

/// The greatest of `start` and `data[from..to]`.
pub(crate) fn max_of<V: Copy, N: Numbers<V>>(numbers: &N, data: &Vec<V>, from: usize, to: usize, start: V) -> (best: V)
    requires
        from <= to <= data@.len(),
    ensures
        greatest_of(numbers, data@, from as int, to as int, start, best),
{
    let mut best: V = start;
    let ghost mut steps: Seq<V> = seq![best];
    let mut i: usize = from;
    while i < to
        invariant
            from <= i <= to <= data@.len(),
            running_greatest(numbers, data@, from as int, i as int, start, steps),
            steps[i - from] == best,
        decreases to - i,
    {
        let ghost before = steps;
        best = numbers.max(best, data[i]);
        proof {
            steps = before.push(best);
            assert forall|k: int| 0 <= k < i + 1 - from implies maxes(numbers, #[trigger] steps[k], data@[from + k], steps[k + 1]) by {
                if k < i - from {
                    assert(maxes(numbers, before[k], data@[from + k], before[k + 1]));
                }
            }
        }
        i += 1;
    }
    best
}

/// `steps` holds `start` and then the least so far after each entry of
/// `data[from..to]`, set against it from the left.
pub open spec fn running_least<V, N: Numbers<V>>(numbers: &N, data: Seq<V>, from: int, to: int, start: V, steps: Seq<V>) -> bool {
    &&& steps.len() == to - from + 1
    &&& steps[0] == start
    &&& forall|k: int| 0 <= k < to - from ==> mins(numbers, #[trigger] steps[k], data[from + k], steps[k + 1])
}

/// `best` is a least of `start` and `data[from..to]`.
pub open spec fn least_of<V, N: Numbers<V>>(numbers: &N, data: Seq<V>, from: int, to: int, start: V, best: V) -> bool {
    exists|steps: Seq<V>| #[trigger] running_least(numbers, data, from, to, start, steps) && steps[to - from] == best
}

/// The least of `start` and `data[from..to]`.
pub(crate) fn min_of<V: Copy, N: Numbers<V>>(numbers: &N, data: &Vec<V>, from: usize, to: usize, start: V) -> (best: V)
    requires
        from <= to <= data@.len(),
    ensures
        least_of(numbers, data@, from as int, to as int, start, best),
{
    let mut best: V = start;
    let ghost mut steps: Seq<V> = seq![best];
    let mut i: usize = from;
    while i < to
        invariant
            from <= i <= to <= data@.len(),
            running_least(numbers, data@, from as int, i as int, start, steps),
            steps[i - from] == best,
        decreases to - i,
    {
        let ghost before = steps;
        best = numbers.min(best, data[i]);
        proof {
            steps = before.push(best);
            assert forall|k: int| 0 <= k < i + 1 - from implies mins(numbers, #[trigger] steps[k], data@[from + k], steps[k + 1]) by {
                if k < i - from {
                    assert(mins(numbers, before[k], data@[from + k], before[k + 1]));
                }
            }
        }
        i += 1;
    }
    best
}

/// Every entry of `series[from..to]` is present.
pub open spec fn window_present<V>(s: Seq<Option<V>>, from: int, to: int) -> bool {
    forall|i: int| from <= i < to ==> (#[trigger] s[i]) is Some
}

/// The values of a series with gaps, entry by entry; where an entry is
/// absent, nothing is said of the value.
pub open spec fn values_of<V>(s: Seq<Option<V>>) -> Seq<V> {
    Seq::new(s.len(), |i: int| s[i]->Some_0)
}

/// The sum of `series[from..to]`, added up from the left, if every entry of
/// the window is present.
pub fn sum_if_present<V: Copy, N: Numbers<V>>(numbers: &N, series: &Vec<Option<V>>, from: usize, to: usize) -> (r: Option<V>)
    requires
        from <= to <= series@.len(),
    ensures
        r is Some <==> window_present(series@, from as int, to as int),
        r is Some ==> sums_to(numbers, values_of(series@), from as int, to as int, r->Some_0),
{
    let mut sum: V = numbers.from_int(0);
    let ghost mut steps: Seq<V> = seq![sum];
    let mut i: usize = from;
    while i < to
        invariant
            from <= i <= to <= series@.len(),
            window_present(series@, from as int, i as int),
            running_sums(numbers, values_of(series@), from as int, i as int, steps),
            steps[i - from] == sum,
        decreases to - i,
    {
        let ghost before = steps;
        match series[i] {
            Some(v) => {
                sum = numbers.add(sum, v);
                proof {
                    steps = before.push(sum);
                    assert(values_of(series@)[i as int] == v);
                    assert forall|k: int| 0 <= k < i + 1 - from implies adds(numbers, #[trigger] steps[k], values_of(series@)[from + k], steps[k + 1]) by {
                        if k < i - from {
                            assert(adds(numbers, before[k], values_of(series@)[from + k], before[k + 1]));
                        }
                    }
                }
            },
            None => {
                return None;
            },
        }
        i += 1;
    }
    Some(sum)
}

/// The relation in which `numbers` finds `left` to `right`.
pub(crate) fn relation<V: Copy, N: Numbers<V>>(numbers: &N, left: V, right: V) -> (r: Relation)
    ensures
        relates(numbers, left, right, r),
{
    let c = numbers.compare(left, right);
    assert(compares(numbers, left, right, c));
    c.relation
}

/// Whether two values compare as equal: the answer follows the relation
/// in which `numbers` finds them.
pub(crate) fn equal<V: Copy, N: Numbers<V>>(numbers: &N, left: V, right: V) -> (b: bool)
    ensures
        exists|r: Relation| #[trigger] relates(numbers, left, right, r) && b == (r == Relation::Equal),
{
    let c = numbers.compare(left, right);
    assert(compares(numbers, left, right, c));
    assert(relates(numbers, left, right, c.relation));
    match c.relation {
        Relation::Equal => true,
        _ => false,
    }
}

/// Whether `left` compares as greater than `right`.
pub(crate) fn greater<V: Copy, N: Numbers<V>>(numbers: &N, left: V, right: V) -> (b: bool)
    ensures
        exists|r: Relation| #[trigger] relates(numbers, left, right, r) && b == r.gt(),
{
    let c = numbers.compare(left, right);
    assert(compares(numbers, left, right, c));
    assert(relates(numbers, left, right, c.relation));
    c.relation.is_gt()
}

/// Entry `i` of `out` is entry `i` of `left` less that of `right`, present
/// where both are.
pub open spec fn parted_at<V, N: Numbers<V>>(numbers: &N, left: Seq<Option<V>>, right: Seq<Option<V>>, out: Seq<Option<V>>, i: int) -> bool {
    if left[i] is Some && right[i] is Some {
        out[i] is Some && subs(numbers, left[i]->Some_0, right[i]->Some_0, out[i]->Some_0)
    } else {
        out[i] is None
    }
}

/// `out` is the entrywise difference of two series.
pub open spec fn parted<V, N: Numbers<V>>(numbers: &N, left: Seq<Option<V>>, right: Seq<Option<V>>, out: Seq<Option<V>>) -> bool {
    out.len() == left.len() && forall|i: int| 0 <= i < out.len() ==> #[trigger] parted_at(numbers, left, right, out, i)
}

/// The entrywise difference of two series: present where both are.
pub fn difference<V: Copy, N: Numbers<V>>(numbers: &N, left: &Vec<Option<V>>, right: &Vec<Option<V>>) -> (out: Vec<Option<V>>)
    requires
        left@.len() == right@.len(),
    ensures
        parted(numbers, left@, right@, out@),
        out@.len() == left@.len(),
        forall|i: int| 0 <= i < out@.len() ==> ((#[trigger] out@[i]) is Some <==> left@[i] is Some && right@[i] is Some),
{
    let len: usize = left.len();
    let mut out: Vec<Option<V>> = Vec::new();
    let mut i: usize = 0;
    while i < len
        invariant
            i <= len,
            len == left@.len(),
            len == right@.len(),
            out@.len() == i,
            forall|k: int| 0 <= k < i ==> ((#[trigger] out@[k]) is Some <==> left@[k] is Some && right@[k] is Some),
            forall|k: int| 0 <= k < i ==> #[trigger] parted_at(numbers, left@, right@, out@, k),
        decreases len - i,
    {
        let ghost before = out@;
        let entry: Option<V> = match (left[i], right[i]) {
            (Some(a), Some(b)) => Some(numbers.sub(a, b)),
            _ => None,
        };
        out.push(entry);
        proof {
            assert(parted_at(numbers, left@, right@, out@, i as int));
            assert forall|k: int| 0 <= k < i + 1 implies #[trigger] parted_at(numbers, left@, right@, out@, k) by {
                if k < i {
                    assert(parted_at(numbers, left@, right@, before, k));
                }
            }
        }
        i += 1;
    }
    out
}

/// Entry `i` of `out` is value `i` less entry `i` of the series, present
/// where that is.
pub open spec fn offset_at<V, N: Numbers<V>>(numbers: &N, data: Seq<V>, series: Seq<Option<V>>, out: Seq<Option<V>>, i: int) -> bool {
    match series[i] {
        Some(e) => out[i] is Some && subs(numbers, data[i], e, out[i]->Some_0),
        None => out[i] is None,
    }
}

/// `out` holds the values less the entries of a series, over the length
/// that both have.
pub open spec fn offsets<V, N: Numbers<V>>(numbers: &N, data: Seq<V>, series: Seq<Option<V>>, out: Seq<Option<V>>) -> bool {
    out.len() == (if data.len() < series.len() {
        data.len()
    } else {
        series.len()
    }) && forall|i: int| 0 <= i < out.len() ==> #[trigger] offset_at(numbers, data, series, out, i)
}

/// The series of `data[i] - series[i]`: present where the series is.
pub fn offset_from<V: Copy, N: Numbers<V>>(numbers: &N, data: &Vec<V>, series: &Vec<Option<V>>) -> (out: Vec<Option<V>>)
    ensures
        offsets(numbers, data@, series@, out@),
        out@.len() == (if data@.len() < series@.len() { data@.len() } else { series@.len() }),
        forall|i: int| 0 <= i < out@.len() ==> ((#[trigger] out@[i]) is Some <==> series@[i] is Some),
{
    let len: usize = if data.len() < series.len() {
        data.len()
    } else {
        series.len()
    };
    let mut out: Vec<Option<V>> = Vec::new();
    let mut i: usize = 0;
    while i < len
        invariant
            i <= len,
            len <= data@.len(),
            len <= series@.len(),
            out@.len() == i,
            forall|k: int| 0 <= k < i ==> ((#[trigger] out@[k]) is Some <==> series@[k] is Some),
            forall|k: int| 0 <= k < i ==> #[trigger] offset_at(numbers, data@, series@, out@, k),
        decreases len - i,
    {
        let ghost before = out@;
        let entry: Option<V> = match series[i] {
            Some(e) => Some(numbers.sub(data[i], e)),
            None => None,
        };
        out.push(entry);
        proof {
            assert(offset_at(numbers, data@, series@, out@, i as int));
            assert forall|k: int| 0 <= k < i + 1 implies #[trigger] offset_at(numbers, data@, series@, out@, k) by {
                if k < i {
                    assert(offset_at(numbers, data@, series@, before, k));
                }
            }
        }
        i += 1;
    }
    out
}

} // verus!
