use vstd::prelude::*;
use vstd::string::StringExecFns;
use crate::text::is_text;

verus! {

/// Instrument-specific constants, set per symbol.
#[derive(Debug, Clone)]
pub struct InstrumentConfig<V> {
    /// Size of one pip.
    pub pip_size: V,
    /// Monetary value of one pip per standard lot.
    pub pip_value: V,
    /// Size of one standard lot.
    pub lot_size: V,
    /// Smallest tradable lot.
    pub min_lot: V,
    /// Minimum price movement.
    pub tick_size: V,
    /// Number of decimal places in a price.
    pub digits: usize,
}

/// Supported bar widths.
#[derive(Debug, Clone, Copy, PartialEq, Eq, Structural, Hash)]
pub enum Timeframe {
    Tick,
    M1,
    M5,
    M15,
    M30,
    H1,
    H4,
    D1,
}

/// Detected layout of imported data.
#[derive(Debug, Clone, Copy, PartialEq, Eq, Structural)]
pub enum DataFormat {
    /// Quotes: time, bid, ask, volume.
    Tick,
    /// OHLCV bars of any width.
    Bar,
}

impl Timeframe {
    /// Minutes per bar as a mathematical function of the timeframe.
    pub open spec fn spec_minutes(self) -> nat {
        match self {
            Timeframe::Tick => 0,
            Timeframe::M1 => 1,
            Timeframe::M5 => 5,
            Timeframe::M15 => 15,
            Timeframe::M30 => 30,
            Timeframe::H1 => 60,
            Timeframe::H4 => 240,
            Timeframe::D1 => 1440,
        }
    }

    /// The seven bar timeframes in ascending width.
    pub open spec fn ladder() -> Seq<Timeframe> {
        seq![
            Timeframe::M1,
            Timeframe::M5,
            Timeframe::M15,
            Timeframe::M30,
            Timeframe::H1,
            Timeframe::H4,
            Timeframe::D1,
        ]
    }

    /// Returns the bar width in minutes (0 for ticks).
    pub fn minutes(&self) -> (m: u32)
        ensures
            m == self.spec_minutes(),
    {
        match self {
            Timeframe::Tick => 0,
            Timeframe::M1 => 1,
            Timeframe::M5 => 5,
            Timeframe::M15 => 15,
            Timeframe::M30 => 30,
            Timeframe::H1 => 60,
            Timeframe::H4 => 240,
            Timeframe::D1 => 1440,
        }
    }

    /// The short lower-case name of the timeframe.
    pub open spec fn spec_name(self) -> Seq<char> {
        match self {
            Timeframe::Tick => "tick"@,
            Timeframe::M1 => "m1"@,
            Timeframe::M5 => "m5"@,
            Timeframe::M15 => "m15"@,
            Timeframe::M30 => "m30"@,
            Timeframe::H1 => "h1"@,
            Timeframe::H4 => "h4"@,
            Timeframe::D1 => "d1"@,
        }
    }

    /// The duration literal used when grouping rows into bars.
    pub open spec fn spec_duration(self) -> Seq<char> {
        match self {
            Timeframe::Tick => "1s"@,
            Timeframe::M1 => "1m"@,
            Timeframe::M5 => "5m"@,
            Timeframe::M15 => "15m"@,
            Timeframe::M30 => "30m"@,
            Timeframe::H1 => "1h"@,
            Timeframe::H4 => "4h"@,
            Timeframe::D1 => "1d"@,
        }
    }

    /// Returns the duration literal used when grouping rows into bars.
    pub fn polars_duration(&self) -> (s: &'static str)
        ensures
            s@ == self.spec_duration(),
    {
        match self {
            Timeframe::Tick => "1s",
            Timeframe::M1 => "1m",
            Timeframe::M5 => "5m",
            Timeframe::M15 => "15m",
            Timeframe::M30 => "30m",
            Timeframe::H1 => "1h",
            Timeframe::H4 => "4h",
            Timeframe::D1 => "1d",
        }
    }

    /// Returns every bar timeframe strictly wider than this one, in
    /// ascending order.
    pub fn higher_timeframes(&self) -> (out: Vec<Timeframe>)
        ensures
            out@ == Self::ladder().filter(|tf: Timeframe| tf.spec_minutes() > self.spec_minutes()),
    {
        let all: [Timeframe; 7] = [
            Timeframe::M1,
            Timeframe::M5,
            Timeframe::M15,
            Timeframe::M30,
            Timeframe::H1,
            Timeframe::H4,
            Timeframe::D1,
        ];
        let own: u32 = self.minutes();
        let ghost keep = |tf: Timeframe| tf.spec_minutes() > self.spec_minutes();
        let mut out: Vec<Timeframe> = Vec::new();
        let mut i: usize = 0;
        assert(all@ =~= Self::ladder());
        assert(all@.subrange(0, 0) =~= Seq::<Timeframe>::empty());
        proof {
            reveal(Seq::filter);
        }
        while i < 7
            invariant
                i <= 7,
                all@ == Self::ladder(),
                own == self.spec_minutes(),
                keep == |tf: Timeframe| tf.spec_minutes() > self.spec_minutes(),
                out@ == all@.subrange(0, i as int).filter(keep),
            decreases 7 - i,
        {
            let tf: Timeframe = all[i];
            proof {
                let before = all@.subrange(0, i as int);
                let after = all@.subrange(0, i + 1);
                assert(after.drop_last() =~= before);
                assert(after.last() == tf);
                reveal(Seq::filter);
            }
            if tf.minutes() > own {
                out.push(tf);
            }
            i += 1;
        }
        assert(all@.subrange(0, 7) =~= all@);
        out
    }

    /// Returns the short lower-case name of the timeframe.
    pub fn as_str(&self) -> (s: &'static str)
        ensures
            s@ == self.spec_name(),
    {
        match self {
            Timeframe::Tick => "tick",
            Timeframe::M1 => "m1",
            Timeframe::M5 => "m5",
            Timeframe::M15 => "m15",
            Timeframe::M30 => "m30",
            Timeframe::H1 => "h1",
            Timeframe::H4 => "h4",
            Timeframe::D1 => "d1",
        }
    }
}

/// The lower-case form of a text, as the standard library computes it.
pub uninterp spec fn lowercase_of(text: Seq<char>) -> Seq<char>;

/// The lower-case form of `s`.
///
/// Calls `str::to_lowercase`. The result is a function of the text alone
/// and is given the name `lowercase_of`; nothing more is claimed of it.
#[verifier::external_body]
fn lowercase(s: &str) -> (lower: String)
    ensures
        lower@ == lowercase_of(s@),
{
    s.to_lowercase()
}

/// The timeframe that a lower-case name stands for.
pub open spec fn timeframe_of(name: Seq<char>) -> Option<Timeframe> {
    if name == "tick"@ {
        Some(Timeframe::Tick)
    } else if name == "m1"@ {
        Some(Timeframe::M1)
    } else if name == "m5"@ {
        Some(Timeframe::M5)
    } else if name == "m15"@ {
        Some(Timeframe::M15)
    } else if name == "m30"@ {
        Some(Timeframe::M30)
    } else if name == "h1"@ {
        Some(Timeframe::H1)
    } else if name == "h4"@ {
        Some(Timeframe::H4)
    } else if name == "d1"@ {
        Some(Timeframe::D1)
    } else {
        None
    }
}

/// Decides which timeframe a lower-case name stands for.
pub fn timeframe_named(name: &String) -> (tf: Option<Timeframe>)
    ensures
        tf == timeframe_of(name@),
{
    if is_text(name, "tick") {
        Some(Timeframe::Tick)
    } else if is_text(name, "m1") {
        Some(Timeframe::M1)
    } else if is_text(name, "m5") {
        Some(Timeframe::M5)
    } else if is_text(name, "m15") {
        Some(Timeframe::M15)
    } else if is_text(name, "m30") {
        Some(Timeframe::M30)
    } else if is_text(name, "h1") {
        Some(Timeframe::H1)
    } else if is_text(name, "h4") {
        Some(Timeframe::H4)
    } else if is_text(name, "d1") {
        Some(Timeframe::D1)
    } else {
        None
    }
}

/// Reads a timeframe from its name, in any mix of upper and lower case. A
/// text that names no timeframe is handed back in the error message.
pub fn parse_timeframe(s: &str) -> (r: Result<Timeframe, String>)
    ensures
        match timeframe_of(lowercase_of(s@)) {
            Some(tf) => r == Ok::<Timeframe, String>(tf),
            None => r is Err && r->Err_0@ == "Unknown timeframe: "@ + s@,
        },
{
    let lower = lowercase(s);
    match timeframe_named(&lower) {
        Some(tf) => Ok(tf),
        None => {
            let mut message = String::from_str("Unknown timeframe: ");
            message.append(s);
            Err(message)
        },
    }
}

impl std::str::FromStr for Timeframe {
    type Err = String;

    fn from_str(s: &str) -> (r: Result<Self, Self::Err>)
        ensures
            match timeframe_of(lowercase_of(s@)) {
                Some(tf) => r == Ok::<Timeframe, String>(tf),
                None => r is Err && r->Err_0@ == "Unknown timeframe: "@ + s@,
            },
    {
        parse_timeframe(s)
    }
}

} // verus!
