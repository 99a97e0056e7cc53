use vstd::prelude::*;
use vstd::string::StringExecFns;
use crate::engine::executor::{filter_candles_by_date, in_date_range};
use crate::engine::numeric::{adds, subs, Numbers};
use crate::errors::AppError;
use crate::models::candle::{Candle, TickColumns};
use crate::models::strategy::BacktestPrecision;
use crate::timestamp::{parse_datetime, parse_datetime_to_micros};

verus! {

/// The unit in which a column of integer timestamps counts.
#[derive(Debug, Clone, Copy, PartialEq, Eq, Structural)]
pub enum TimeUnit {
    Milliseconds,
    Microseconds,
    Nanoseconds,
}

/// `v` rounded toward zero to a whole number of thousands, in thousands.
pub open spec fn thousandth(v: int) -> int {
    if v >= 0 {
        v / 1000
    } else {
        -((-v) / 1000)
    }
}

/// `v` within the range of a signed 64-bit number.
pub open spec fn clamped(v: int) -> int {
    if v > i64::MAX {
        i64::MAX as int
    } else if v < i64::MIN {
        i64::MIN as int
    } else {
        v
    }
}

/// A timestamp in microseconds: milliseconds are multiplied by a thousand,
/// and where that leaves the range the result stays at its end;
/// nanoseconds are divided by a thousand toward zero.
pub open spec fn micros_of(raw: int, unit: TimeUnit) -> int {
    match unit {
        TimeUnit::Milliseconds => clamped(raw * 1000),
        TimeUnit::Microseconds => raw,
        TimeUnit::Nanoseconds => thousandth(raw),
    }
}

/// Converts one timestamp to microseconds.
pub fn to_micros(raw: i64, unit: TimeUnit) -> (micros: i64)
    ensures
        micros == micros_of(raw as int, unit),
{
    match unit {
        TimeUnit::Milliseconds => match raw.checked_mul(1000) {
            Some(v) => v,
            None => if raw > 0 {
                i64::MAX
            } else {
                i64::MIN
            },
        },
        TimeUnit::Microseconds => raw,
        TimeUnit::Nanoseconds => {
            if raw >= 0 {
                ((raw as u64) / 1000) as i64
            } else {
                let magnitude: u64 = ((-(raw + 1)) as u64) + 1;
                -((magnitude / 1000) as i64)
            }
        },
    }
}

/// Replaces the missing entries of a column by `fill`.
pub fn fill_missing<T: Copy>(column: &Vec<Option<T>>, fill: T) -> (filled: Vec<T>)
    ensures
        filled@.len() == column@.len(),
        forall|i: int| 0 <= i < column@.len() ==> #[trigger] filled@[i] == (match column@[i] {
            Some(v) => v,
            None => fill,
        }),
{
    let mut filled: Vec<T> = Vec::new();
    let mut i: usize = 0;
    while i < column.len()
        invariant
            i <= column@.len(),
            filled@.len() == i,
            forall|k: int| 0 <= k < i ==> #[trigger] filled@[k] == (match column@[k] {
                Some(v) => v,
                None => fill,
            }),
        decreases column@.len() - i,
    {
        filled.push(match column[i] {
            Some(v) => v,
            None => fill,
        });
        i += 1;
    }
    filled
}

/// Converts a column of integer timestamps to microseconds; a missing entry
/// counts as zero.
pub fn timestamps_from_integers(column: &Vec<Option<i64>>, unit: TimeUnit) -> (micros: Vec<i64>)
    ensures
        micros@.len() == column@.len(),
        forall|i: int| 0 <= i < column@.len() ==> #[trigger] micros@[i] == (match column@[i] {
            Some(v) => micros_of(v as int, unit),
            None => micros_of(0, unit),
        }),
{
    let mut micros: Vec<i64> = Vec::new();
    let mut i: usize = 0;
    while i < column.len()
        invariant
            i <= column@.len(),
            micros@.len() == i,
            forall|k: int| 0 <= k < i ==> #[trigger] micros@[k] == (match column@[k] {
                Some(v) => micros_of(v as int, unit),
                None => micros_of(0, unit),
            }),
        decreases column@.len() - i,
    {
        let raw: i64 = match column[i] {
            Some(v) => v,
            None => 0,
        };
        micros.push(to_micros(raw, unit));
        i += 1;
    }
    micros
}

/// The instant that a date-time text denotes, or zero where it denotes
/// none.
pub open spec fn text_micros(text: Seq<char>) -> int {
    match parse_datetime(text) {
        Some(v) => v,
        None => 0,
    }
}

/// Converts a column of date-time texts to microseconds.
pub fn timestamps_from_text(column: &Vec<String>) -> (micros: Vec<i64>)
    ensures
        micros@.len() == column@.len(),
        forall|i: int| 0 <= i < column@.len() ==> #[trigger] micros@[i] == text_micros(column@[i]@),
{
    let mut micros: Vec<i64> = Vec::new();
    let mut i: usize = 0;
    while i < column.len()
        invariant
            i <= column@.len(),
            micros@.len() == i,
            forall|k: int| 0 <= k < i ==> #[trigger] micros@[k] == text_micros(column@[k]@),
        decreases column@.len() - i,
    {
        micros.push(parse_datetime_to_micros(column[i].as_str()));
        i += 1;
    }
    micros
}

/// The columns of a table of bars.
pub struct OhlcvColumns<V> {
    pub timestamps: Vec<i64>,
    pub datetimes: Vec<String>,
    pub open: Vec<V>,
    pub high: Vec<V>,
    pub low: Vec<V>,
    pub close: Vec<V>,
    pub volume: Vec<V>,
}

impl<V> OhlcvColumns<V> {
    /// The number of rows, as the timestamp column counts them.
    pub open spec fn rows(&self) -> int {
        self.timestamps@.len() as int
    }

    /// All columns have one length.
    pub open spec fn aligned(&self) -> bool {
        &&& self.datetimes@.len() == self.rows()
        &&& self.open@.len() == self.rows()
        &&& self.high@.len() == self.rows()
        &&& self.low@.len() == self.rows()
        &&& self.close@.len() == self.rows()
        &&& self.volume@.len() == self.rows()
    }

    /// The rows as candles, in order.
    pub open spec fn candles(&self) -> Seq<Candle<V>> {
        Seq::new(self.rows() as nat, |i: int| self.row(i))
    }

    /// Row `i` as a candle.
    pub open spec fn row(&self, i: int) -> Candle<V> {
        Candle {
            timestamp: self.timestamps@[i],
            datetime: self.datetimes@[i],
            open: self.open@[i],
            high: self.high@[i],
            low: self.low@[i],
            close: self.close@[i],
            volume: self.volume@[i],
        }
    }
}

/// Turns the columns of a table of bars into candles, row by row. Columns
/// of different lengths are no table and are refused.
pub fn candles_from_dataframe<V: Copy>(columns: &OhlcvColumns<V>) -> (r: Result<Vec<Candle<V>>, AppError>)
    ensures
        columns.aligned() ==> r is Ok && r->Ok_0@.len() == columns.rows() && forall|i: int|
            0 <= i < columns.rows() ==> #[trigger] r->Ok_0@[i] == columns.row(i),
        !columns.aligned() ==> (r matches Err(AppError::CsvValidation(m)) && m@ == "Columns differ in length"@),
{
    let len: usize = columns.timestamps.len();
    if columns.datetimes.len() != len || columns.open.len() != len || columns.high.len() != len || columns.low.len() != len || columns.close.len() != len || columns.volume.len() != len {
        return Err(AppError::CsvValidation(String::from_str("Columns differ in length")));
    }
    let mut candles: Vec<Candle<V>> = Vec::new();
    let mut i: usize = 0;
    while i < len
        invariant
            i <= len,
            len == columns.rows(),
            columns.aligned(),
            candles@.len() == i,
            forall|k: int| 0 <= k < i ==> #[trigger] candles@[k] == columns.row(k),
        decreases len - i,
    {
        candles.push(
            Candle {
                timestamp: columns.timestamps[i],
                datetime: columns.datetimes[i].clone(),
                open: columns.open[i],
                high: columns.high[i],
                low: columns.low[i],
                close: columns.close[i],
                volume: columns.volume[i],
            },
        );
        i += 1;
    }
    Ok(candles)
}

/// Turns three columns into a batch of quotes. Columns of different lengths
/// are refused.
pub fn tick_columns_from_dataframe<V>(timestamps: Vec<i64>, bids: Vec<V>, asks: Vec<V>) -> (r: Result<TickColumns<V>, AppError>)
    ensures
        bids@.len() == timestamps@.len() && asks@.len() == timestamps@.len() ==> r is Ok && r->Ok_0.wf() && r->Ok_0.timestamps == timestamps && r->Ok_0.bids == bids && r->Ok_0.asks == asks,
        !(bids@.len() == timestamps@.len() && asks@.len() == timestamps@.len()) ==> (r matches Err(AppError::CsvValidation(m)) && m@ == "Columns differ in length"@),
{
    if bids.len() != timestamps.len() || asks.len() != timestamps.len() {
        return Err(AppError::CsvValidation(String::from_str("Columns differ in length")));
    }
    Ok(TickColumns { timestamps, bids, asks })
}

/// Quote `i` lies about close `i`: the bid half a spread below it and the
/// ask half a spread above it.
pub open spec fn quoted_at<V, N: Numbers<V>>(numbers: &N, closes: Seq<V>, half_spread: V, bids: Seq<V>, asks: Seq<V>, i: int) -> bool {
    subs(numbers, closes[i], half_spread, bids[i]) && adds(numbers, closes[i], half_spread, asks[i])
}

/// Builds a batch of quotes from closing prices: the bid lies half a spread
/// below each close and the ask half a spread above it. Columns of
/// different lengths are refused.
pub fn tick_columns_from_ohlcv_with_spread<V: Copy, N: Numbers<V>>(numbers: &N, timestamps: Vec<i64>, closes: &Vec<V>, half_spread: V) -> (r: Result<TickColumns<V>, AppError>)
    ensures
        closes@.len() == timestamps@.len() ==> r is Ok && r->Ok_0.wf() && r->Ok_0.timestamps == timestamps,
        r is Ok ==> forall|i: int| 0 <= i < closes@.len() ==> #[trigger] quoted_at(numbers, closes@, half_spread, r->Ok_0.bids@, r->Ok_0.asks@, i),
        closes@.len() != timestamps@.len() ==> (r matches Err(AppError::CsvValidation(m)) && m@ == "Columns differ in length"@),
{
    if closes.len() != timestamps.len() {
        return Err(AppError::CsvValidation(String::from_str("Columns differ in length")));
    }
    let mut bids: Vec<V> = Vec::new();
    let mut asks: Vec<V> = Vec::new();
    let mut i: usize = 0;
    while i < closes.len()
        invariant
            i <= closes@.len(),
            bids@.len() == i,
            asks@.len() == i,
            forall|k: int| 0 <= k < i ==> #[trigger] quoted_at(numbers, closes@, half_spread, bids@, asks@, k),
        decreases closes@.len() - i,
    {
        let ghost bids_before = bids@;
        let ghost asks_before = asks@;
        let bid: V = numbers.sub(closes[i], half_spread);
        let ask: V = numbers.add(closes[i], half_spread);
        bids.push(bid);
        asks.push(ask);
        proof {
            assert(subs(numbers, closes@[i as int], half_spread, bid));
            assert(adds(numbers, closes@[i as int], half_spread, ask));
            assert(quoted_at(numbers, closes@, half_spread, bids@, asks@, i as int));
            assert forall|k: int| 0 <= k < i + 1 implies #[trigger] quoted_at(numbers, closes@, half_spread, bids@, asks@, k) by {
                if k < i {
                    assert(quoted_at(numbers, closes@, half_spread, bids_before, asks_before, k));
                }
            }
        }
        i += 1;
    }
    Ok(TickColumns { timestamps, bids, asks })
}

/// Keeps the rows of a table of bars that lie in a date range, in order. An
/// empty bound is no bound. Columns of different lengths are no table and
/// are refused.
pub fn filter_dataframe_by_date<V: Copy>(columns: &OhlcvColumns<V>, start_date: &str, end_date: &str) -> (r: Result<OhlcvColumns<V>, AppError>)
    ensures
        columns.aligned() ==> r is Ok && r->Ok_0.aligned() && r->Ok_0.candles() == columns.candles().filter(
            |c: Candle<V>| in_date_range(c, vstd::utf8::encode_utf8(start_date@), vstd::utf8::encode_utf8(end_date@)),
        ),
        !columns.aligned() ==> (r matches Err(AppError::CsvValidation(m)) && m@ == "Columns differ in length"@),
{
    let candles = match candles_from_dataframe(columns) {
        Ok(c) => c,
        Err(e) => {
            return Err(e);
        },
    };
    assert(candles@ =~= columns.candles());
    let kept = filter_candles_by_date(&candles, start_date, end_date);
    let mut out: OhlcvColumns<V> = OhlcvColumns {
        timestamps: Vec::new(),
        datetimes: Vec::new(),
        open: Vec::new(),
        high: Vec::new(),
        low: Vec::new(),
        close: Vec::new(),
        volume: Vec::new(),
    };
    let mut i: usize = 0;
    while i < kept.len()
        invariant
            i <= kept@.len(),
            out.aligned(),
            out.rows() == i,
            forall|k: int| 0 <= k < i ==> #[trigger] out.row(k) == kept@[k],
        decreases kept@.len() - i,
    {
        let c = &kept[i];
        let ghost before = out;
        out.timestamps.push(c.timestamp);
        out.datetimes.push(c.datetime.clone());
        out.open.push(c.open);
        out.high.push(c.high);
        out.low.push(c.low);
        out.close.push(c.close);
        out.volume.push(c.volume);
        proof {
            assert forall|k: int| 0 <= k < i + 1 implies #[trigger] out.row(k) == kept@[k] by {
                if k < i {
                    assert(before.row(k) == kept@[k]);
                }
            }
        }
        i += 1;
    }
    assert(out.candles() =~= kept@);
    Ok(out)
}

/// Where the sub-bars of a precision mode come from.
#[derive(Debug, Clone, Copy, PartialEq, Eq, Structural)]
pub enum SubBarSource {
    /// No sub-bars are loaded.
    Absent,
    /// One-minute candles.
    MinuteCandles,
    /// Closing prices of quotes, with a configured spread around them.
    QuotesWithSpread,
    /// Quotes with their recorded bid and ask.
    RawQuotes,
}

/// The source of each precision mode.
pub open spec fn source_of(precision: BacktestPrecision) -> SubBarSource {
    match precision {
        BacktestPrecision::SelectedTfOnly => SubBarSource::Absent,
        BacktestPrecision::M1TickSimulation => SubBarSource::MinuteCandles,
        BacktestPrecision::RealTickCustomSpread => SubBarSource::QuotesWithSpread,
        BacktestPrecision::RealTickRealSpread => SubBarSource::RawQuotes,
    }
}

/// Decides which sub-bar stream a precision mode asks for.
pub fn sub_bar_source(precision: BacktestPrecision) -> (source: SubBarSource)
    ensures
        source == source_of(precision),
{
    match precision {
        BacktestPrecision::SelectedTfOnly => SubBarSource::Absent,
        BacktestPrecision::M1TickSimulation => SubBarSource::MinuteCandles,
        BacktestPrecision::RealTickCustomSpread => SubBarSource::QuotesWithSpread,
        BacktestPrecision::RealTickRealSpread => SubBarSource::RawQuotes,
    }
}

impl SubBarSource {
    /// The key under which a symbol keeps the data of the source, if the
    /// source has data.
    pub open spec fn key_of(self) -> Option<Seq<char>> {
        match self {
            SubBarSource::Absent => None,
            SubBarSource::MinuteCandles => Some("m1"@),
            SubBarSource::QuotesWithSpread => Some("tick"@),
            SubBarSource::RawQuotes => Some("tick_raw"@),
        }
    }

    /// Returns the key under which a symbol keeps the data of the source.
    pub fn key(&self) -> (key: Option<&'static str>)
        ensures
            match key {
                Some(k) => self.key_of() == Some(k@),
                None => self.key_of() is None,
            },
    {
        match self {
            SubBarSource::Absent => None,
            SubBarSource::MinuteCandles => Some("m1"),
            SubBarSource::QuotesWithSpread => Some("tick"),
            SubBarSource::RawQuotes => Some("tick_raw"),
        }
    }
}

} // verus!
