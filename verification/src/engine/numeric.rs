use vstd::prelude::*;

verus! {

/// How two numeric values stand to each other. `Unordered` is the outcome
/// whenever one of them is not a number.
#[derive(Debug, Clone, Copy, PartialEq, Eq, Structural)]
pub enum Relation {
    Less,
    Equal,
    Greater,
    Unordered,
}

impl Relation {
    /// Left is strictly greater than right.
    pub open spec fn gt(self) -> bool {
        self == Relation::Greater
    }

    /// Left is greater than or equal to right.
    pub open spec fn ge(self) -> bool {
        self == Relation::Greater || self == Relation::Equal
    }

    /// Left is strictly less than right.
    pub open spec fn lt(self) -> bool {
        self == Relation::Less
    }

    /// Left is less than or equal to right.
    pub open spec fn le(self) -> bool {
        self == Relation::Less || self == Relation::Equal
    }

    /// Tells whether left is greater than right.
    #[verifier::when_used_as_spec(gt)]
    pub fn is_gt(self) -> (b: bool)
        ensures
            b == self.gt(),
    {
        match self {
            Relation::Greater => true,
            _ => false,
        }
    }

    /// Tells whether left is greater than or equal to right.
    #[verifier::when_used_as_spec(ge)]
    pub fn is_ge(self) -> (b: bool)
        ensures
            b == self.ge(),
    {
        match self {
            Relation::Greater => true,
            Relation::Equal => true,
            _ => false,
        }
    }

    /// Tells whether left is less than right.
    #[verifier::when_used_as_spec(lt)]
    pub fn is_lt(self) -> (b: bool)
        ensures
            b == self.lt(),
    {
        match self {
            Relation::Less => true,
            _ => false,
        }
    }

    /// Tells whether left is less than or equal to right.
    #[verifier::when_used_as_spec(le)]
    pub fn is_le(self) -> (b: bool)
        ensures
            b == self.le(),
    {
        match self {
            Relation::Less => true,
            Relation::Equal => true,
            _ => false,
        }
    }
}

/// Outcome of comparing two numeric values: their order, and whether they lie
/// within one machine epsilon of each other.
#[derive(Debug, Clone, Copy, PartialEq, Eq, Structural)]
pub struct Comparison {
    pub relation: Relation,
    pub close: bool,
}

/// The arithmetic that the engine needs on values of type `V`. The engine
/// decides which values are compared or combined, in which order, and what
/// follows from each outcome; what a sum or a comparison yields is the
/// implementor's business, and no proof in the engine depends on it.
/// Contracts name what an operation yields through the predicates of this
/// module (`adds`, `compares` and the others): each says that a value is
/// one that the operation gives on the arguments named, and claims nothing
/// of the operation itself.
pub trait Numbers<V> {
    /// Compares `left` with `right`.
    fn compare(&self, left: V, right: V) -> Comparison;

    /// `left + right`.
    fn add(&self, left: V, right: V) -> V;

    /// `left - right`.
    fn sub(&self, left: V, right: V) -> V;

    /// `left * right`.
    fn mul(&self, left: V, right: V) -> V;

    /// `left / right`.
    fn div(&self, left: V, right: V) -> V;

    /// `|left - right|`.
    fn distance(&self, left: V, right: V) -> V;

    /// `-value`.
    fn neg(&self, value: V) -> V;

    /// The greater of two values; of a number and a value that is none, the
    /// number.
    fn max(&self, left: V, right: V) -> V;

    /// The lesser of two values; of a number and a value that is none, the
    /// number.
    fn min(&self, left: V, right: V) -> V;

    /// The square root.
    fn sqrt(&self, value: V) -> V;

    /// The largest whole number not above `value`.
    fn floor(&self, value: V) -> V;

    /// `base` raised to `exponent`.
    fn powf(&self, base: V, exponent: V) -> V;

    /// The exponential function.
    fn exp(&self, value: V) -> V;

    /// The cosine.
    fn cos(&self, value: V) -> V;

    /// The circle constant.
    fn pi(&self) -> V;

    /// The value of an integer.
    fn from_int(&self, value: i64) -> V;

    /// The quotient of two integers, as a value.
    fn ratio(&self, numerator: i64, denominator: i64) -> V;

    /// `value` written in decimal with `decimals` digits after the point.
    fn fixed(&self, value: V, decimals: u8) -> String;

    /// The integer nearest to `value`; zero for a negative value and for one
    /// that is not a number.
    fn rounded(&self, value: V) -> u64;

    /// An integer that orders as `value` does: of two values the greater has
    /// the greater key.
    fn order_key(&self, value: V) -> i64;

    /// A value above every number.
    fn highest(&self) -> V;

    /// A value below every number.
    fn lowest(&self) -> V;

    /// A number drawn uniformly between zero and one.
    fn random_unit(&self) -> V;
}

/// Equity and drawdown at the close of a bar.
#[derive(Debug, Clone, Copy)]
pub struct Mark<V> {
    pub equity: V,
    pub drawdown_pct: V,
}

/// `out` is an outcome of comparing `left` with `right`. Which value that is, is for `numbers` to say.
pub open spec fn compares<V, N: Numbers<V>>(numbers: &N, left: V, right: V, out: Comparison) -> bool {
    call_ensures(N::compare, (numbers, left, right), out)
}

/// `out` is a sum of `left` and `right`.
pub open spec fn adds<V, N: Numbers<V>>(numbers: &N, left: V, right: V, out: V) -> bool {
    call_ensures(N::add, (numbers, left, right), out)
}

/// `out` is a difference of `left` and `right`.
pub open spec fn subs<V, N: Numbers<V>>(numbers: &N, left: V, right: V, out: V) -> bool {
    call_ensures(N::sub, (numbers, left, right), out)
}

/// `out` is a product of `left` and `right`.
pub open spec fn muls<V, N: Numbers<V>>(numbers: &N, left: V, right: V, out: V) -> bool {
    call_ensures(N::mul, (numbers, left, right), out)
}

/// `out` is a quotient of `left` by `right`.
pub open spec fn divs<V, N: Numbers<V>>(numbers: &N, left: V, right: V, out: V) -> bool {
    call_ensures(N::div, (numbers, left, right), out)
}

/// `out` is a distance between `left` and `right`.
pub open spec fn distances<V, N: Numbers<V>>(numbers: &N, left: V, right: V, out: V) -> bool {
    call_ensures(N::distance, (numbers, left, right), out)
}

/// `out` is a larger of `left` and `right`.
pub open spec fn maxes<V, N: Numbers<V>>(numbers: &N, left: V, right: V, out: V) -> bool {
    call_ensures(N::max, (numbers, left, right), out)
}

/// `out` is a smaller of `left` and `right`.
pub open spec fn mins<V, N: Numbers<V>>(numbers: &N, left: V, right: V, out: V) -> bool {
    call_ensures(N::min, (numbers, left, right), out)
}

/// `out` is a square root of `value`.
pub open spec fn roots<V, N: Numbers<V>>(numbers: &N, value: V, out: V) -> bool {
    call_ensures(N::sqrt, (numbers, value), out)
}

/// `out` is the exponential of `value`.
pub open spec fn exps<V, N: Numbers<V>>(numbers: &N, value: V, out: V) -> bool {
    call_ensures(N::exp, (numbers, value), out)
}

/// `out` is the cosine of `value`.
pub open spec fn coss<V, N: Numbers<V>>(numbers: &N, value: V, out: V) -> bool {
    call_ensures(N::cos, (numbers, value), out)
}

/// `out` is the circle constant.
pub open spec fn pis<V, N: Numbers<V>>(numbers: &N, out: V) -> bool {
    call_ensures(N::pi, (numbers,), out)
}

/// `out` is `base` raised to `exponent`.
pub open spec fn powers<V, N: Numbers<V>>(numbers: &N, base: V, exponent: V, out: V) -> bool {
    call_ensures(N::powf, (numbers, base, exponent), out)
}

/// `out` is the whole number `value`.
pub open spec fn ints<V, N: Numbers<V>>(numbers: &N, value: i64, out: V) -> bool {
    call_ensures(N::from_int, (numbers, value), out)
}

/// `out` is `value` rounded to a count.
pub open spec fn roundings<V, N: Numbers<V>>(numbers: &N, value: V, out: u64) -> bool {
    call_ensures(N::rounded, (numbers, value), out)
}

/// `out` is the value above all others.
pub open spec fn highests<V, N: Numbers<V>>(numbers: &N, out: V) -> bool {
    call_ensures(N::highest, (numbers,), out)
}

/// `out` is a draw from zero to one.
pub open spec fn randoms<V, N: Numbers<V>>(numbers: &N, out: V) -> bool {
    call_ensures(N::random_unit, (numbers,), out)
}

/// `relation` is a relation in which `numbers` finds `left` to `right`.
pub open spec fn relates<V, N: Numbers<V>>(numbers: &N, left: V, right: V, relation: Relation) -> bool {
    exists|c: Comparison| #[trigger] compares(numbers, left, right, c) && c.relation == relation
}

/// `out` is `from` moved by `by`: up where `up` holds, else down.
pub open spec fn moved<V, N: Numbers<V>>(numbers: &N, up: bool, from: V, by: V, out: V) -> bool {
    if up {
        adds(numbers, from, by, out)
    } else {
        subs(numbers, from, by, out)
    }
}

/// `first` where `take_first` holds, else `second`.
pub open spec fn pick<V>(take_first: bool, first: V, second: V) -> V {
    if take_first {
        first
    } else {
        second
    }
}

/// `out` is the move from `from` to `to` in pips: their difference over the
/// pip size.
pub open spec fn pips_between<V, N: Numbers<V>>(numbers: &N, from: V, to: V, pip_size: V, out: V) -> bool {
    exists|gain: V| #[trigger] subs(numbers, to, from, gain) && divs(numbers, gain, pip_size, out)
}

/// `out` is `value` written with `decimals` decimals.
pub open spec fn writes<V, N: Numbers<V>>(numbers: &N, value: V, decimals: u8, out: String) -> bool {
    call_ensures(N::fixed, (numbers, value, decimals), out)
}

/// `out` is the whole number by which `value` is ordered.
pub open spec fn orders_as<V, N: Numbers<V>>(numbers: &N, value: V, out: i64) -> bool {
    call_ensures(N::order_key, (numbers, value), out)
}

/// `out` is the value below all others.
pub open spec fn lowests<V, N: Numbers<V>>(numbers: &N, out: V) -> bool {
    call_ensures(N::lowest, (numbers,), out)
}

/// `out` is `value` with its sign turned: zero less the value.
pub open spec fn turned_sign<V, N: Numbers<V>>(numbers: &N, value: V, out: V) -> bool {
    exists|zero: V| #[trigger] ints(numbers, 0, zero) && subs(numbers, zero, value, out)
}

/// `out` is `value` rounded down.
pub open spec fn floors<V, N: Numbers<V>>(numbers: &N, value: V, out: V) -> bool {
    call_ensures(N::floor, (numbers, value), out)
}

/// `out` is `numerator` over `denominator`.
pub open spec fn ratios<V, N: Numbers<V>>(numbers: &N, numerator: i64, denominator: i64, out: V) -> bool {
    call_ensures(N::ratio, (numbers, numerator, denominator), out)
}

/// `out` is `value` negated.
pub open spec fn negs<V, N: Numbers<V>>(numbers: &N, value: V, out: V) -> bool {
    call_ensures(N::neg, (numbers, value), out)
}

} // verus!
