use vstd::prelude::*;
use vstd::string::StringExecFns;
use crate::calendar::{
    date_of_day, day_of_date, days_before_year, days_from_civil, lemma_days_in_range, lemma_shift,
    lemma_year_start_monotonic, month_length, valid_date, EARLIEST_DAY, EARLIEST_YEAR,
    MICROS_PER_DAY, MICROS_PER_HOUR, MICROS_PER_MINUTE, MICROS_PER_SECOND,
};
use crate::text::{decimal, digit_char, padded, push_decimal, push_padded};

verus! {

/// A calendar date and time of day, to the microsecond.
#[derive(Debug, Clone, Copy, PartialEq, Eq, Structural)]
pub struct DateTime {
    pub year: i64,
    pub month: u64,
    pub day: u64,
    pub hour: u64,
    pub minute: u64,
    pub second: u64,
    pub micros: u64,
}

impl DateTime {
    /// A real date with a real time of day.
    pub open spec fn valid(self) -> bool {
        &&& valid_date(self.year as int, self.month as int, self.day as int)
        &&& self.hour < 24
        &&& self.minute < 60
        &&& self.second < 60
        &&& self.micros < 1_000_000
    }

    /// Microseconds from the Unix epoch to this instant.
    pub open spec fn to_micros(self) -> int {
        (((days_from_civil(self.year as int, self.month as int, self.day as int) * 24 + self.hour)
            * 60 + self.minute) * 60 + self.second) * 1_000_000 + self.micros
    }

    /// What follows the year in the text of this instant: `-MM-DD
    /// HH:MM:SS.ffffff`, written two digits at a time.
    pub open spec fn tail(self) -> Seq<char> {
        seq![
            '-',
            tens(self.month as int),
            ones(self.month as int),
            '-',
            tens(self.day as int),
            ones(self.day as int),
            ' ',
            tens(self.hour as int),
            ones(self.hour as int),
            ':',
            tens(self.minute as int),
            ones(self.minute as int),
            ':',
            tens(self.second as int),
            ones(self.second as int),
            '.',
            tens((self.micros as int / 100) / 100),
            ones((self.micros as int / 100) / 100),
            tens((self.micros as int / 100) % 100),
            ones((self.micros as int / 100) % 100),
            tens(self.micros as int % 100),
            ones(self.micros as int % 100),
        ]
    }

    /// The text of this instant: the year, then `-MM-DD HH:MM:SS.ffffff`.
    pub open spec fn text(self) -> Seq<char> {
        year_text(self.year as int) + self.tail()
    }
}

/// The tens digit of `n`, as a character.
pub open spec fn tens(n: int) -> char {
    digit_char((n / 10) % 10)
}

/// The ones digit of `n`, as a character.
pub open spec fn ones(n: int) -> char {
    digit_char(n % 10)
}

/// The size of a year: the year itself, or for a year before 0 the number
/// of years it lies before 0.
pub open spec fn year_size(year: int) -> nat {
    if year < 0 {
        (-year) as nat
    } else {
        year as nat
    }
}

/// The number of digits with which a year is written: four, or as many as
/// its size needs.
pub open spec fn year_width(year: int) -> nat {
    if year_size(year) < 10_000 {
        4
    } else if year_size(year) < 100_000 {
        5
    } else {
        6
    }
}

/// The text of a year below a million either way: four digits for the
/// years 0 to 9999; for a later year `+` and its digits; for a year before
/// 0 `-` and the digits of its size, four at least.
pub open spec fn year_text(year: int) -> Seq<char> {
    if 0 <= year <= 9999 {
        padded(year as nat, 4)
    } else if year < 0 {
        seq!['-'] + padded(year_size(year), year_width(year))
    } else {
        seq!['+'] + padded(year_size(year), year_width(year))
    }
}

/// The instant whose text is written for `micros`. From the epoch on it is
/// the instant itself. Before the epoch the seconds are cut toward the
/// epoch and the microseconds that were cut count forward from there, so
/// the instant shown lies twice those microseconds later.
pub open spec fn shown_instant(micros: int) -> int {
    if micros >= 0 {
        micros
    } else {
        micros + 2 * ((-micros) % 1_000_000)
    }
}

/// `text` is the calendar text of the instant `micros`.
pub open spec fn renders(micros: int, text: Seq<char>) -> bool {
    exists|c: DateTime| c.valid() && c.to_micros() == micros && text == c.text()
}

/// The decimal form of an integer, with a minus sign if it is negative.
pub open spec fn signed_decimal(i: int) -> Seq<char> {
    if i < 0 {
        seq!['-'] + decimal((-i) as nat)
    } else {
        decimal(i as nat)
    }
}

/// The text given for an instant before the calendar.
pub open spec fn fallback_text(micros: int) -> Seq<char> {
    seq!['t', 's', ':'] + signed_decimal(micros)
}

/// Zero-based hour and minute of the day in which `micros` lies. Instants
/// before the epoch count backwards from midnight of 1970-01-01.
pub open spec fn day_micros_of(micros: int) -> int {
    micros % (MICROS_PER_DAY as int)
}

/// The number of the day in which `micros` lies; day 0 is 1970-01-01.
pub open spec fn day_number_of(micros: int) -> int {
    micros / (MICROS_PER_DAY as int)
}

/// Microseconds since the last midnight.
pub fn day_micros(micros: i64) -> (r: u64)
    ensures
        r == day_micros_of(micros as int),
        r < MICROS_PER_DAY,
{
    if micros >= 0 {
        (micros as u64) % MICROS_PER_DAY
    } else {
        let back: u64 = (-(micros + 1)) as u64;
        MICROS_PER_DAY - 1 - (back % MICROS_PER_DAY)
    }
}

/// The number of the day in which `micros` lies; day 0 is 1970-01-01.
pub fn day_number(micros: i64) -> (r: i64)
    ensures
        r == day_number_of(micros as int),
        -106_751_992 <= r <= 106_751_991,
{
    if micros >= 0 {
        ((micros as u64) / MICROS_PER_DAY) as i64
    } else {
        let back: u64 = (-(micros + 1)) as u64;
        -((back / MICROS_PER_DAY) as i64) - 1
    }
}

/// Hour and minute of the day in which `micros` lies.
pub fn extract_hour_minute(micros: i64) -> (hm: (u8, u8))
    ensures
        hm.0 == day_micros_of(micros as int) / 3_600_000_000,
        hm.1 == (day_micros_of(micros as int) / 60_000_000) % 60,
        hm.0 < 24,
        hm.1 < 60,
{
    let in_day: u64 = day_micros(micros);
    let hour: u64 = in_day / MICROS_PER_HOUR;
    let minute: u64 = (in_day / MICROS_PER_MINUTE) % 60;
    (hour as u8, minute as u8)
}

/// The calendar fields of an instant.
pub fn civil_from_micros(micros: i64) -> (c: DateTime)
    ensures
        c.valid(),
        c.to_micros() == micros,
        c.year as int * 1 >= -320_000,
        c.year <= 400_000,
{
    let day: i64 = day_number(micros);
    let in_day: u64 = day_micros(micros);
    let hour: u64 = in_day / MICROS_PER_HOUR;
    let in_hour: u64 = in_day % MICROS_PER_HOUR;
    let minute: u64 = in_hour / MICROS_PER_MINUTE;
    let in_minute: u64 = in_hour % MICROS_PER_MINUTE;
    let second: u64 = in_minute / MICROS_PER_SECOND;
    let sub: u64 = in_minute % MICROS_PER_SECOND;
    let date = date_of_day(day);
    proof {
        assert(micros as int == day_number_of(micros as int) * 86_400_000_000 + day_micros_of(micros as int));
    }
    DateTime { year: date.0, month: date.1, day: date.2, hour, minute, second, micros: sub }
}

/// Microseconds from the Unix epoch to a calendar instant, if the number
/// fits. The second may be 60, which counts as the second after 59.
pub fn micros_from_civil(c: &DateTime) -> (micros: Option<i64>)
    requires
        valid_date(c.year as int, c.month as int, c.day as int),
        -300_000 <= c.year <= 600_000,
        c.hour < 24,
        c.minute < 60,
        c.second <= 60,
        c.micros < 1_000_000,
    ensures
        micros == (if i64::MIN <= c.to_micros() <= i64::MAX {
            Some(c.to_micros() as i64)
        } else {
            None
        }),
{
    let day: i64 = day_of_date(c.year, c.month, c.day);
    let wide: i128 = (((day as i128 * 24 + c.hour as i128) * 60 + c.minute as i128) * 60 + c.second as i128) * 1_000_000 + c.micros as i128;
    if wide < -9_223_372_036_854_775_808i128 || wide > 9_223_372_036_854_775_807i128 {
        None
    } else {
        Some(wide as i64)
    }
}

/// Appends the last two decimal digits of `n`.
fn push_two(out: &mut String, n: u64)
    ensures
        final(out)@ == old(out)@ + seq![tens(n as int), ones(n as int)],
{
    push_padded(out, n, 2);
    proof {
        reveal_with_fuel(padded, 3);
        assert(padded(n as nat, 2) =~= seq![tens(n as int), ones(n as int)]);
    }
}

/// Appends one separator character.
fn push_separator(out: &mut String, which: u8)
    ensures
        final(out)@ == old(out)@.push(separator(which)),
{
    proof {
        reveal_strlit("-");
        reveal_strlit(" ");
        reveal_strlit(":");
        reveal_strlit(".");
        reveal_strlit("+");
    }
    let piece: &'static str = if which == 0 {
        "-"
    } else if which == 1 {
        " "
    } else if which == 2 {
        ":"
    } else if which == 3 {
        "."
    } else {
        "+"
    };
    assert(piece@ =~= seq![separator(which)]);
    out.append(piece);
    assert(final(out)@ =~= old(out)@.push(separator(which)));
}

/// The separators and signs of the calendar text, by number.
pub open spec fn separator(which: u8) -> char {
    if which == 0 {
        '-'
    } else if which == 1 {
        ' '
    } else if which == 2 {
        ':'
    } else if which == 3 {
        '.'
    } else {
        '+'
    }
}

/// Appends the text of a year.
fn push_year(out: &mut String, year: i64)
    requires
        -1_000_000 < year < 1_000_000,
    ensures
        final(out)@ == old(out)@ + year_text(year as int),
{
    if 0 <= year && year <= 9999 {
        push_padded(out, year as u64, 4);
    } else {
        let size: u64 = if year < 0 {
            (-year) as u64
        } else {
            year as u64
        };
        let width: u8 = if size < 10_000 {
            4
        } else if size < 100_000 {
            5
        } else {
            6
        };
        let ghost before = out@;
        if year < 0 {
            push_separator(out, 0);
        } else {
            push_separator(out, 4);
        }
        push_padded(out, size, width);
        assert(out@ =~= before + year_text(year as int));
    }
}

/// The calendar text of calendar fields.
pub fn datetime_text(c: &DateTime) -> (s: String)
    requires
        -1_000_000 < c.year < 1_000_000,
    ensures
        s@ == c.text(),
{
    let mut s = String::new();
    push_year(&mut s, c.year);
    push_separator(&mut s, 0);
    push_two(&mut s, c.month);
    push_separator(&mut s, 0);
    push_two(&mut s, c.day);
    push_separator(&mut s, 1);
    push_two(&mut s, c.hour);
    push_separator(&mut s, 2);
    push_two(&mut s, c.minute);
    push_separator(&mut s, 2);
    push_two(&mut s, c.second);
    push_separator(&mut s, 3);
    push_two(&mut s, (c.micros / 100) / 100);
    push_two(&mut s, (c.micros / 100) % 100);
    push_two(&mut s, c.micros % 100);
    assert(s@ =~= c.text());
    s
}

/// The instant whose text is written for `micros`.
pub fn instant_shown(micros: i64) -> (shown: i64)
    ensures
        shown == shown_instant(micros as int),
{
    if micros >= 0 {
        micros
    } else {
        let size: u64 = ((-(micros + 1)) as u64) + 1;
        let cut: u64 = size % MICROS_PER_SECOND;
        micros + 2 * (cut as i64)
    }
}

/// Turns an instant into its calendar text: the year, then
/// `-MM-DD HH:MM:SS.ffffff`. The years 0 to 9999 are written with four
/// digits, later years with `+` before their digits, and years before 0
/// with `-` before the digits of their size, four at least.
///
/// The text is that of `shown_instant`: from the epoch on that of the
/// instant itself. An instant shown before the first day of
/// `EARLIEST_YEAR` has no such text and is given as `ts:` followed by the
/// number itself.
pub fn micros_to_datetime_string(micros: i64) -> (s: String)
    ensures
        day_number_of(shown_instant(micros as int)) >= EARLIEST_DAY ==> renders(shown_instant(micros as int), s@),
        day_number_of(shown_instant(micros as int)) < EARLIEST_DAY ==> s@ == fallback_text(micros as int),
        micros >= 0 ==> renders(micros as int, s@),
{
    let shown: i64 = instant_shown(micros);
    if day_number(shown) >= EARLIEST_DAY {
        let c = civil_from_micros(shown);
        datetime_text(&c)
    } else {
        let mut s = String::new();
        s.append("ts:");
        proof {
            reveal_strlit("ts:");
            assert("ts:"@ =~= seq!['t', 's', ':']);
        }
        if micros < 0 {
            s.append("-");
            proof {
                reveal_strlit("-");
                assert("-"@ =~= seq!['-']);
            }
            let magnitude: u64 = ((-(micros + 1)) as u64) + 1;
            push_decimal(&mut s, magnitude);
        } else {
            push_decimal(&mut s, micros as u64);
        }
        assert(s@ =~= fallback_text(micros as int));
        s
    }
}

/// `c` is a decimal digit.
pub open spec fn is_digit(c: char) -> bool {
    '0' <= c && c <= '9'
}

/// The value of a decimal digit.
pub open spec fn digit_value(c: char) -> int {
    (c as u32) as int - 48
}

/// `c` is white space: a blank, a tab, a line break or another of the
/// characters that Unicode counts as white space.
pub open spec fn is_space(c: char) -> bool {
    let n = c as u32;
    ||| (9 <= n && n <= 13)
    ||| n == 32
    ||| n == 0x85
    ||| n == 0xA0
    ||| n == 0x1680
    ||| (0x2000 <= n && n <= 0x200A)
    ||| n == 0x2028
    ||| n == 0x2029
    ||| n == 0x202F
    ||| n == 0x205F
    ||| n == 0x3000
}

/// The characters of `cs` from `from` up to `to` are all decimal digits.
pub open spec fn all_digits(cs: Seq<char>, from: int, to: int) -> bool {
    forall|i: int| from <= i < to ==> is_digit(#[trigger] cs[i])
}

/// The number written by the `width` digits of `cs` that start at `from`.
pub open spec fn number(cs: Seq<char>, from: int, width: int) -> int
    decreases width,
{
    if width <= 0 {
        0
    } else {
        number(cs, from, width - 1) * 10 + digit_value(cs[from + width - 1])
    }
}

/// Ten to the power `e`.
pub open spec fn pow10(e: int) -> int
    decreases e,
{
    if e <= 0 {
        1
    } else {
        10 * pow10(e - 1)
    }
}

/// The first position at or after `i` that holds no white space.
pub open spec fn after_spaces(cs: Seq<char>, i: int) -> int
    decreases cs.len() - i,
{
    if 0 <= i < cs.len() && is_space(cs[i]) {
        after_spaces(cs, i + 1)
    } else {
        i
    }
}

/// The position after the digits that begin at `i`, of which at most `max`
/// are taken.
pub open spec fn after_digits(cs: Seq<char>, i: int, max: int) -> int
    decreases max,
{
    if max > 0 && 0 <= i < cs.len() && is_digit(cs[i]) {
        after_digits(cs, i + 1, max - 1)
    } else {
        i
    }
}

/// What the scan of a field gives: the value that was read and the
/// position after it.
pub struct Scanned {
    pub value: int,
    pub next: int,
}

/// Reads a number at `i`: white space is passed over, and then at least
/// one and at most `max` digits are taken.
pub open spec fn scan_number(cs: Seq<char>, i: int, max: int) -> Option<Scanned> {
    let from = after_spaces(cs, i);
    let to = after_digits(cs, from, max);
    if to > from {
        Some(Scanned { value: number(cs, from, to - from), next: to })
    } else {
        None
    }
}

/// Reads a year at `i`: white space is passed over; after a sign all the
/// digits that follow are taken, at least one; without a sign at least one
/// and at most four digits.
pub open spec fn scan_year(cs: Seq<char>, i: int) -> Option<Scanned> {
    let from = after_spaces(cs, i);
    if 0 <= from < cs.len() && (cs[from] == '-' || cs[from] == '+') {
        let to = after_digits(cs, from + 1, cs.len() as int);
        if to > from + 1 {
            Some(Scanned {
                value: if cs[from] == '-' {
                    -number(cs, from + 1, to - from - 1)
                } else {
                    number(cs, from + 1, to - from - 1)
                },
                next: to,
            })
        } else {
            None
        }
    } else {
        scan_number(cs, i, 4)
    }
}

/// The position after the character `c` at `i`, if it stands there.
pub open spec fn expect(cs: Seq<char>, i: int, c: char) -> Option<int> {
    if 0 <= i < cs.len() && cs[i] == c {
        Some(i + 1)
    } else {
        None
    }
}

/// The microseconds that `k` digits of a fraction from `from` on write:
/// the first six, read as if padded with zeros on the right. Digits beyond
/// the sixth are below a microsecond and are dropped.
pub open spec fn fraction_value(cs: Seq<char>, from: int, k: int) -> int {
    if k >= 6 {
        number(cs, from, 6)
    } else {
        number(cs, from, k) * pow10(6 - k)
    }
}

/// Reads the fraction of a second at `i`: where a point stands there, all
/// the digits that follow it, at least one; else nothing.
pub open spec fn scan_fraction(cs: Seq<char>, i: int) -> Option<Scanned> {
    if 0 <= i < cs.len() && cs[i] == '.' {
        let to = after_digits(cs, i + 1, cs.len() as int);
        if to > i + 1 {
            Some(Scanned { value: fraction_value(cs, i + 1, to - i - 1), next: to })
        } else {
            None
        }
    } else {
        Some(Scanned { value: 0, next: i })
    }
}

/// The fields that a text writes.
pub struct Fields {
    pub year: int,
    pub month: int,
    pub day: int,
    pub hour: int,
    pub minute: int,
    pub second: int,
    pub micros: int,
}

/// Reads the time of day of a text from `i` on, after a date: hour and
/// minute with `:` between them; then the text ends, or `:` and the
/// seconds follow, with or without a fraction, and then the text ends.
pub open spec fn read_time(cs: Seq<char>, i: int, year: int, month: int, day: int) -> Option<Fields> {
    match scan_number(cs, after_spaces(cs, i), 2) {
        None => None,
        Some(hour) => match expect(cs, hour.next, ':') {
            None => None,
            Some(a) => match scan_number(cs, a, 2) {
                None => None,
                Some(minute) => if minute.next == cs.len() {
                    Some(Fields { year, month, day, hour: hour.value, minute: minute.value, second: 0, micros: 0 })
                } else {
                    match expect(cs, minute.next, ':') {
                        None => None,
                        Some(b) => match scan_number(cs, b, 2) {
                            None => None,
                            Some(second) => match scan_fraction(cs, second.next) {
                                None => None,
                                Some(fraction) => if fraction.next == cs.len() {
                                    Some(Fields { year, month, day, hour: hour.value, minute: minute.value, second: second.value, micros: fraction.value })
                                } else {
                                    None
                                },
                            },
                        },
                    }
                },
            },
        },
    }
}

/// Reads the fields of a text: year, month and day with `-` between them,
/// and then the time of day as `read_time` reads it. Before every number,
/// and between the date and the time, any white space is passed over.
pub open spec fn read_fields(cs: Seq<char>) -> Option<Fields> {
    match scan_year(cs, 0) {
        None => None,
        Some(year) => match expect(cs, year.next, '-') {
            None => None,
            Some(a) => match scan_number(cs, a, 2) {
                None => None,
                Some(month) => match expect(cs, month.next, '-') {
                    None => None,
                    Some(b) => match scan_number(cs, b, 2) {
                        None => None,
                        Some(day) => read_time(cs, day.next, year.value, month.value, day.value),
                    },
                },
            },
        },
    }
}

/// The fields name a date of the calendar from `EARLIEST_YEAR` on and a
/// time of day. The second may be 60.
pub open spec fn is_real(f: Fields) -> bool {
    &&& EARLIEST_YEAR <= f.year
    &&& valid_date(f.year, f.month, f.day)
    &&& f.hour <= 23
    &&& f.minute <= 59
    &&& f.second <= 60
}

/// Microseconds from the Unix epoch to the instant that fields name. A
/// second of 60 counts as the second after 59.
pub open spec fn instant_of(f: Fields) -> int {
    (((days_from_civil(f.year, f.month, f.day) * 24 + f.hour) * 60 + f.minute) * 60 + f.second) * 1_000_000 + f.micros
}

/// The instant that a text denotes, if it reads as fields that are real
/// and the instant is no later than the last that a signed 64-bit number
/// of microseconds can hold.
pub open spec fn parse_datetime(cs: Seq<char>) -> Option<int> {
    match read_fields(cs) {
        None => None,
        Some(f) => if is_real(f) && instant_of(f) <= i64::MAX {
            Some(instant_of(f))
        } else {
            None
        },
    }
}

/// A run of `n` digits that ends at a character that is none, at the end
/// of the text or at `max` digits is what is taken.
proof fn lemma_digits_run(cs: Seq<char>, i: int, n: int, max: int)
    requires
        0 <= i,
        0 <= n <= max,
        i + n <= cs.len(),
        all_digits(cs, i, i + n),
        n == max || i + n == cs.len() || !is_digit(cs[i + n]),
    ensures
        after_digits(cs, i, max) == i + n,
    decreases n,
{
    if n > 0 {
        assert(is_digit(cs[i]));
        lemma_digits_run(cs, i + 1, n - 1, max - 1);
    }
}

/// A number of digits is not negative and grows with every digit.
proof fn lemma_number_grows(cs: Seq<char>, from: int, width: int)
    requires
        0 <= width,
        all_digits(cs, from, from + width),
    ensures
        0 <= number(cs, from, width) < pow10(width),
        width > 0 ==> number(cs, from, width - 1) <= number(cs, from, width),
    decreases width,
{
    if width > 0 {
        lemma_number_grows(cs, from, width - 1);
        assert(is_digit(cs[from + width - 1]));
    }
}

/// The characters of a text, one by one.
fn chars_of(s: &str) -> (cs: Vec<char>)
    ensures
        cs@ == s@,
{
    let mut cs: Vec<char> = Vec::new();
    if s.is_ascii() {
        let n: usize = s.unicode_len();
        let mut i: usize = 0;
        while i < n
            invariant
                i <= n,
                n == s@.len(),
                s.is_ascii(),
                cs@ == s@.subrange(0, i as int),
            decreases n - i,
        {
            let b: u8 = s.get_ascii(i);
            let c: char = b as char;
            proof {
                assert(s@[i as int] as u8 == b);
                assert('\0' <= s@[i as int] <= '\u{7f}');
                assert(c == s@[i as int]);
            }
            cs.push(c);
            assert(cs@ =~= s@.subrange(0, i + 1));
            i += 1;
        }
        assert(cs@ =~= s@);
    } else {
        let n: usize = s.unicode_len();
        let mut i: usize = 0;
        while i < n
            invariant
                i <= n,
                n == s@.len(),
                cs@ == s@.subrange(0, i as int),
            decreases n - i,
        {
            cs.push(s.get_char(i));
            assert(cs@ =~= s@.subrange(0, i + 1));
            i += 1;
        }
        assert(cs@ =~= s@);
    }
    cs
}

/// Whether a character is white space.
fn space(c: char) -> (b: bool)
    ensures
        b == is_space(c),
{
    let n: u32 = c as u32;
    (9 <= n && n <= 13) || n == 32 || n == 0x85 || n == 0xA0 || n == 0x1680 || (0x2000 <= n && n <= 0x200A) || n == 0x2028 || n == 0x2029 || n == 0x202F || n == 0x205F || n == 0x3000
}

/// Passes over white space.
fn skip_spaces(cs: &Vec<char>, i: usize) -> (j: usize)
    requires
        i <= cs@.len(),
    ensures
        j == after_spaces(cs@, i as int),
        i <= j <= cs@.len(),
{
    let mut j: usize = i;
    while j < cs.len() && space(cs[j])
        invariant
            i <= j <= cs@.len(),
            after_spaces(cs@, i as int) == after_spaces(cs@, j as int),
        decreases cs@.len() - j,
    {
        j += 1;
    }
    j
}

/// What reading digits gives: the position after them, and their number
/// unless it is a thousand million or more.
pub struct Digits {
    pub next: usize,
    pub value: u64,
    pub big: bool,
}

/// Reads at most `max` digits from `from` on.
fn read_digits(cs: &Vec<char>, from: usize, max: usize) -> (r: Digits)
    requires
        from <= cs@.len(),
    ensures
        r.next == after_digits(cs@, from as int, max as int),
        from <= r.next <= cs@.len(),
        r.next - from <= max,
        all_digits(cs@, from as int, r.next as int),
        !r.big ==> r.value == number(cs@, from as int, r.next - from) && r.value < 1_000_000_000,
        r.big ==> number(cs@, from as int, r.next - from) >= 1_000_000_000,
{
    let len: usize = cs.len();
    let mut k: usize = from;
    let mut value: u64 = 0;
    let mut big: bool = false;
    while k < len && k - from < max && '0' <= cs[k] && cs[k] <= '9'
        invariant
            from <= k <= len,
            len == cs@.len(),
            k - from <= max,
            after_digits(cs@, from as int, max as int) == after_digits(cs@, k as int, max - (k - from)),
            all_digits(cs@, from as int, k as int),
            !big ==> value == number(cs@, from as int, k - from) && value < 1_000_000_000,
            big ==> number(cs@, from as int, k - from) >= 1_000_000_000,
        decreases len - k,
    {
        let c: char = cs[k];
        let d: u64 = (c as u32 - 48) as u64;
        proof {
            assert(is_digit(c));
            assert(d == digit_value(c));
            assert(number(cs@, from as int, k + 1 - from) == number(cs@, from as int, k - from) * 10 + digit_value(cs@[k as int]));
        }
        if !big {
            value = value * 10 + d;
            if value >= 1_000_000_000 {
                big = true;
            }
        }
        k += 1;
    }
    Digits { next: k, value, big }
}

/// Reads a number of at most `max` digits at `i`, after white space.
fn read_number(cs: &Vec<char>, i: usize, max: usize) -> (r: Option<(u64, usize)>)
    requires
        i <= cs@.len(),
        max <= 9,
    ensures
        r is Some <==> scan_number(cs@, i as int, max as int) is Some,
        r is Some ==> r->Some_0.0 == scan_number(cs@, i as int, max as int)->Some_0.value,
        r is Some ==> r->Some_0.1 == scan_number(cs@, i as int, max as int)->Some_0.next,
        r is Some ==> r->Some_0.0 < 1_000_000_000 && i < r->Some_0.1 <= cs@.len(),
{
    let from: usize = skip_spaces(cs, i);
    let digits = read_digits(cs, from, max);
    proof {
        lemma_number_grows(cs@, from as int, digits.next - from);
        reveal_with_fuel(pow10, 11);
        if digits.next - from <= 9 {
            assert(pow10(digits.next - from) <= 1_000_000_000) by {
                reveal_with_fuel(pow10, 11);
            }
        }
    }
    if digits.next > from {
        Some((digits.value, digits.next))
    } else {
        None
    }
}

/// The fraction of a second at `i`, if a text is well written there.
fn read_fraction(cs: &Vec<char>, i: usize) -> (r: Option<(u64, usize)>)
    requires
        i <= cs@.len(),
    ensures
        r is Some <==> scan_fraction(cs@, i as int) is Some,
        r is Some ==> r->Some_0.0 == scan_fraction(cs@, i as int)->Some_0.value,
        r is Some ==> r->Some_0.1 == scan_fraction(cs@, i as int)->Some_0.next,
        r is Some ==> r->Some_0.0 < 1_000_000 && i <= r->Some_0.1 <= cs@.len(),
{
    let len: usize = cs.len();
    if !(i < len && cs[i] == '.') {
        return Some((0, i));
    }
    let from: usize = i + 1;
    let mut k: usize = from;
    let mut value: u64 = 0;
    proof {
        reveal_with_fuel(pow10, 8);
    }
    while k < len && '0' <= cs[k] && cs[k] <= '9'
        invariant
            from <= k <= len,
            len == cs@.len(),
            after_digits(cs@, from as int, len as int) == after_digits(cs@, k as int, len - (k - from)),
            all_digits(cs@, from as int, k as int),
            k - from <= 6 ==> value == number(cs@, from as int, k - from) && value < pow10(k - from),
            k - from >= 6 ==> value == number(cs@, from as int, 6) && value < 1_000_000,
        decreases len - k,
    {
        let c: char = cs[k];
        let d: u64 = (c as u32 - 48) as u64;
        proof {
            assert(is_digit(c));
            assert(d == digit_value(c));
            reveal_with_fuel(pow10, 8);
            assert(number(cs@, from as int, k + 1 - from) == number(cs@, from as int, k - from) * 10 + digit_value(cs@[k as int]));
            if k - from < 6 {
                assert(pow10(k + 1 - from) == 10 * pow10(k - from));
                assert(pow10(k + 1 - from) <= 1_000_000);
            }
        }
        if k - from < 6 {
            value = value * 10 + d;
        }
        k += 1;
    }
    if k == from {
        return None;
    }
    let count: usize = k - from;
    let scale: u64 = if count == 1 {
        100_000
    } else if count == 2 {
        10_000
    } else if count == 3 {
        1_000
    } else if count == 4 {
        100
    } else if count == 5 {
        10
    } else {
        1
    };
    proof {
        reveal_with_fuel(pow10, 8);
        if count < 6 {
            assert(scale == pow10(6 - count));
            assert(value * scale < 1_000_000) by (nonlinear_arith)
                requires
                    (value < 10 && scale == 100_000) || (value < 100 && scale == 10_000) || (value < 1_000 && scale == 1_000) || (value < 10_000 && scale == 100) || (value < 100_000 && scale == 10),
                    value >= 0,
            ;
        }
    }
    Some((value * scale, k))
}

/// Reads a year at `i`, after white space. A year of a thousand million or
/// more, either way, is given as `None` for the value.
fn read_year(cs: &Vec<char>, i: usize) -> (r: Option<(Option<i64>, usize)>)
    requires
        i <= cs@.len(),
    ensures
        r is Some <==> scan_year(cs@, i as int) is Some,
        r is Some ==> r->Some_0.1 == scan_year(cs@, i as int)->Some_0.next && i < r->Some_0.1 <= cs@.len(),
        r is Some && r->Some_0.0 is Some ==> r->Some_0.0->Some_0 == scan_year(cs@, i as int)->Some_0.value && -1_000_000_000 < r->Some_0.0->Some_0 < 1_000_000_000,
        r is Some && r->Some_0.0 is None ==> scan_year(cs@, i as int)->Some_0.value >= 1_000_000_000 || scan_year(cs@, i as int)->Some_0.value <= -1_000_000_000,
{
    let len: usize = cs.len();
    let from: usize = skip_spaces(cs, i);
    if from < len && (cs[from] == '-' || cs[from] == '+') {
        let digits = read_digits(cs, from + 1, len);
        if digits.next > from + 1 {
            if digits.big {
                Some((None, digits.next))
            } else if cs[from] == '-' {
                Some((Some(-(digits.value as i64)), digits.next))
            } else {
                Some((Some(digits.value as i64), digits.next))
            }
        } else {
            None
        }
    } else {
        match read_number(cs, i, 4) {
            Some((value, next)) => Some((Some(value as i64), next)),
            None => None,
        }
    }
}

/// The position after the character `c` at `i`, if it stands there.
fn read_mark(cs: &Vec<char>, i: usize, c: char) -> (r: Option<usize>)
    requires
        i <= cs@.len(),
    ensures
        r is Some <==> expect(cs@, i as int, c) is Some,
        r is Some ==> r->Some_0 == expect(cs@, i as int, c)->Some_0 && r->Some_0 <= cs@.len(),
{
    if i < cs.len() && cs[i] == c {
        Some(i + 1)
    } else {
        None
    }
}

/// What the exec reader gives for the time of day: hour, minute, second
/// and microseconds.
pub struct TimeRead {
    pub hour: u64,
    pub minute: u64,
    pub second: u64,
    pub micros: u64,
}

/// Reads the time of day from `i` on.
fn read_time_of_day(cs: &Vec<char>, i: usize, Ghost(year): Ghost<int>, Ghost(month): Ghost<int>, Ghost(day): Ghost<int>) -> (r: Option<TimeRead>)
    requires
        i <= cs@.len(),
    ensures
        r is Some <==> read_time(cs@, i as int, year, month, day) is Some,
        r is Some ==> read_time(cs@, i as int, year, month, day) == Some(
            Fields { year, month, day, hour: r->Some_0.hour as int, minute: r->Some_0.minute as int, second: r->Some_0.second as int, micros: r->Some_0.micros as int },
        ),
        r is Some ==> r->Some_0.micros < 1_000_000,
{
    let start: usize = skip_spaces(cs, i);
    let hour_read = read_number(cs, start, 2);
    let ghost h = scan_number(cs@, start as int, 2);
    let (hour, after_hour) = match hour_read {
        Some(v) => v,
        None => {
            assert(h is None);
            return None;
        },
    };
    assert(h is Some && h->Some_0.value == hour && h->Some_0.next == after_hour);
    let mark = read_mark(cs, after_hour, ':');
    let ghost m1 = expect(cs@, after_hour as int, ':');
    let a: usize = match mark {
        Some(v) => v,
        None => {
            assert(m1 is None);
            return None;
        },
    };
    assert(m1 == Some(a as int));
    let minute_read = read_number(cs, a, 2);
    let ghost mi = scan_number(cs@, a as int, 2);
    let (minute, after_minute) = match minute_read {
        Some(v) => v,
        None => {
            assert(mi is None);
            return None;
        },
    };
    assert(mi is Some && mi->Some_0.value == minute && mi->Some_0.next == after_minute);
    if after_minute == cs.len() {
        let r = Some(TimeRead { hour, minute, second: 0, micros: 0 });
        assert(read_time(cs@, i as int, year, month, day) == Some(Fields { year, month, day, hour: hour as int, minute: minute as int, second: 0, micros: 0 }));
        return r;
    }
    let mark = read_mark(cs, after_minute, ':');
    let ghost m2 = expect(cs@, after_minute as int, ':');
    let b: usize = match mark {
        Some(v) => v,
        None => {
            assert(m2 is None);
            assert(read_time(cs@, i as int, year, month, day) is None);
            return None;
        },
    };
    assert(m2 == Some(b as int));
    let second_read = read_number(cs, b, 2);
    let ghost se = scan_number(cs@, b as int, 2);
    let (second, after_second) = match second_read {
        Some(v) => v,
        None => {
            assert(se is None);
            assert(read_time(cs@, i as int, year, month, day) is None);
            return None;
        },
    };
    assert(se is Some && se->Some_0.value == second && se->Some_0.next == after_second);
    let fraction_read = read_fraction(cs, after_second);
    let ghost fr = scan_fraction(cs@, after_second as int);
    let (micros, end) = match fraction_read {
        Some(v) => v,
        None => {
            assert(fr is None);
            assert(read_time(cs@, i as int, year, month, day) is None);
            return None;
        },
    };
    assert(fr is Some && fr->Some_0.value == micros && fr->Some_0.next == end);
    if end == cs.len() {
        let r = Some(TimeRead { hour, minute, second, micros });
        assert(read_time(cs@, i as int, year, month, day) == Some(Fields { year, month, day, hour: hour as int, minute: minute as int, second: second as int, micros: micros as int }));
        r
    } else {
        assert(read_time(cs@, i as int, year, month, day) is None);
        None
    }
}

/// An instant of a year from 300000 on is later than any that a signed
/// 64-bit number of microseconds can hold.
proof fn lemma_too_late(f: Fields)
    requires
        f.year >= 300_000,
        valid_date(f.year, f.month, f.day),
        0 <= f.hour,
        0 <= f.minute,
        0 <= f.second,
        0 <= f.micros,
    ensures
        instant_of(f) > i64::MAX,
{
    lemma_days_in_range(f.year, f.month, f.day);
    lemma_year_start_monotonic(300_000, f.year);
    assert(days_before_year(300_000) == 108_853_222);
    let days = days_from_civil(f.year, f.month, f.day);
    assert(days >= 108_853_222);
    assert(((days * 24 + f.hour) * 60 + f.minute) * 60 + f.second >= 108_853_222 * 86_400) by (nonlinear_arith)
        requires
            days >= 108_853_222,
            0 <= f.hour,
            0 <= f.minute,
            0 <= f.second,
    ;
}

/// Parses a date-time text to microseconds since the Unix epoch. A text
/// that does not read as `read_fields` has it, names no real instant from
/// `EARLIEST_YEAR` on, or names an instant too late for the number, gives
/// 0.
///
/// A text holds year, month and day with `-` between them, then hour and
/// minute with `:` between them, then, if it goes on, `:` and the seconds,
/// and after those, if it goes on, a point and the digits of a fraction.
/// Month, day, hour, minute and second are written with one or two digits,
/// the year with one to four, or with a sign and any number of digits.
/// White space may stand before every number, and any amount of it, or
/// none, between the date and the time. A second of 60 is read as the
/// second after 59.
pub fn parse_datetime_to_micros(s: &str) -> (micros: i64)
    ensures
        micros == (match parse_datetime(s@) {
            Some(v) => v,
            None => 0,
        }),
{
    let chars = chars_of(s);
    let cs = &chars;
    let ghost text = s@;
    let (year_read, after_year) = match read_year(cs, 0) {
        Some(v) => v,
        None => {
            return 0;
        },
    };
    let a: usize = match read_mark(cs, after_year, '-') {
        Some(v) => v,
        None => {
            return 0;
        },
    };
    let (month, after_month) = match read_number(cs, a, 2) {
        Some(v) => v,
        None => {
            return 0;
        },
    };
    let b: usize = match read_mark(cs, after_month, '-') {
        Some(v) => v,
        None => {
            return 0;
        },
    };
    let (day, after_day) = match read_number(cs, b, 2) {
        Some(v) => v,
        None => {
            return 0;
        },
    };
    let ghost year_value = scan_year(text, 0)->Some_0.value;
    let time = match read_time_of_day(cs, after_day, Ghost(year_value), Ghost(month as int), Ghost(day as int)) {
        Some(v) => v,
        None => {
            return 0;
        },
    };
    let ghost f = read_fields(text)->Some_0;
    assert(read_fields(text) is Some);
    assert(f.year == year_value && f.month == month && f.day == day && f.hour == time.hour && f.minute == time.minute && f.second == time.second && f.micros == time.micros);
    if month < 1 || month > 12 || day < 1 || time.hour > 23 || time.minute > 59 || time.second > 60 {
        return 0;
    }
    let year: i64 = match year_read {
        Some(y) => y,
        None => {
            proof {
                if year_value > 0 {
                    if valid_date(f.year, f.month, f.day) {
                        lemma_too_late(f);
                    }
                }
            }
            return 0;
        },
    };
    if year < -262_143 {
        return 0;
    }
    if year >= 300_000 {
        proof {
            if valid_date(f.year, f.month, f.day) {
                lemma_too_late(f);
            }
        }
        return 0;
    }
    let moved: u64 = (year + 320_000) as u64;
    proof {
        lemma_shift(year as int, month as int, day as int);
    }
    if day > month_length(moved, month) {
        return 0;
    }
    let c = DateTime { year, month, day, hour: time.hour, minute: time.minute, second: time.second, micros: time.micros };
    assert(c.to_micros() == instant_of(f));
    proof {
        lemma_days_in_range(f.year, f.month, f.day);
        lemma_year_start_monotonic(-262_143, f.year);
        assert(days_before_year(-262_143) == -96_465_292);
    }
    match micros_from_civil(&c) {
        Some(v) => v,
        None => 0,
    }
}

/// A digit's character is a digit, no white space, and has the digit's
/// value.
pub proof fn lemma_digit_char(d: int)
    requires
        0 <= d <= 9,
    ensures
        is_digit(digit_char(d)),
        !is_space(digit_char(d)),
        digit_value(digit_char(d)) == d,
{
}

/// Two digit characters read as the number they write.
proof fn lemma_read_two(cs: Seq<char>, from: int, n: int)
    requires
        0 <= from,
        from + 2 <= cs.len(),
        0 <= n < 100,
        cs[from] == tens(n),
        cs[from + 1] == ones(n),
    ensures
        all_digits(cs, from, from + 2),
        !is_space(cs[from]),
        number(cs, from, 2) == n,
{
    lemma_digit_char((n / 10) % 10);
    lemma_digit_char(n % 10);
    reveal_with_fuel(number, 3);
}

/// A run of digits reads as its leading part, shifted, plus its last two.
proof fn lemma_number_split(cs: Seq<char>, from: int, width: int)
    requires
        width >= 2,
    ensures
        number(cs, from, width) == number(cs, from, width - 2) * 100 + number(cs, from + width - 2, 2),
{
    reveal_with_fuel(number, 3);
}

/// A number that is written with `width` digits, zero-padded, reads back.
proof fn lemma_padded_reads(cs: Seq<char>, from: int, n: nat, width: nat)
    requires
        0 <= from,
        from + width <= cs.len(),
        n < pow10(width as int),
        forall|k: int| 0 <= k < width ==> cs[from + k] == #[trigger] padded(n, width)[k],
        padded(n, width).len() == width,
    ensures
        all_digits(cs, from, from + width),
        number(cs, from, width as int) == n,
    decreases width,
{
    if width > 0 {
        let head = padded(n / 10, (width - 1) as nat);
        assert(padded(n, width) == head.push(digit_char((n % 10) as int)));
        assert(head.len() == width - 1);
        assert forall|k: int| 0 <= k < width - 1 implies cs[from + k] == #[trigger] head[k] by {
            assert(padded(n, width)[k] == head[k]);
        }
        assert(n / 10 < pow10(width - 1));
        lemma_padded_reads(cs, from, n / 10, (width - 1) as nat);
        assert(cs[from + width - 1] == padded(n, width)[width - 1]);
        lemma_digit_char((n % 10) as int);
        assert forall|i: int| from <= i < from + width implies is_digit(#[trigger] cs[i]) by {
            if i < from + width - 1 {
            }
        }
    }
}

/// A number written with `width` digits takes `width` characters.
proof fn lemma_padded_len(n: nat, width: nat)
    ensures
        padded(n, width).len() == width,
    decreases width,
{
    if width > 0 {
        lemma_padded_len(n / 10, (width - 1) as nat);
    }
}

/// The text of a year reads back as the year, up to the `-` that follows
/// it.
proof fn lemma_year_reads(cs: Seq<char>, year: int)
    requires
        -1_000_000 < year < 1_000_000,
        cs.len() > year_text(year).len(),
        forall|k: int| 0 <= k < year_text(year).len() ==> cs[k] == #[trigger] year_text(year)[k],
        cs[year_text(year).len() as int] == '-',
    ensures
        scan_year(cs, 0) == Some(Scanned { value: year, next: year_text(year).len() as int }),
{
    let size = year_size(year);
    let width = year_width(year);
    lemma_padded_len(size, width);
    reveal_with_fuel(pow10, 8);
    assert(size < pow10(width as int));
    if 0 <= year <= 9999 {
        assert(year_text(year) == padded(size, 4));
        assert forall|k: int| 0 <= k < 4 implies cs[0 + k] == #[trigger] padded(size, 4)[k] by {
            assert(cs[k] == year_text(year)[k]);
        }
        lemma_padded_reads(cs, 0, size, 4);
        assert(is_digit(cs[0]));
        assert(!is_space(cs[0]));
        assert(after_spaces(cs, 0) == 0);
        lemma_digits_run(cs, 0, 4, 4);
    } else {
        let sign = if year < 0 {
            '-'
        } else {
            '+'
        };
        assert(year_text(year) == seq![sign] + padded(size, width));
        assert(year_text(year).len() == width + 1);
        assert(cs[0] == year_text(year)[0]);
        assert(cs[0] == sign);
        assert forall|k: int| 0 <= k < width implies cs[1 + k] == #[trigger] padded(size, width)[k] by {
            assert(cs[1 + k] == year_text(year)[1 + k]);
        }
        lemma_padded_reads(cs, 1, size, width);
        assert(!is_space(cs[0]));
        assert(after_spaces(cs, 0) == 0);
        assert(cs[1 + width as int] == '-');
        assert(!is_digit(cs[1 + width as int]));
        lemma_digits_run(cs, 1, width as int, cs.len() as int);
    }
}

/// A field of two digits reads back where it stands after a character
/// that ends the field before it.
proof fn lemma_two_read(cs: Seq<char>, from: int, n: int)
    requires
        0 <= from,
        from + 2 <= cs.len(),
        0 <= n < 100,
        cs[from] == tens(n),
        cs[from + 1] == ones(n),
    ensures
        scan_number(cs, from, 2) == Some(Scanned { value: n, next: from + 2 }),
{
    lemma_read_two(cs, from, n);
    assert(after_spaces(cs, from) == from);
    lemma_digits_run(cs, from, 2, 2);
}

/// The microseconds of a text read back.
proof fn lemma_micros_read(cs: Seq<char>, from: int, m: int)
    requires
        0 <= from,
        from + 6 == cs.len(),
        0 <= m < 1_000_000,
        cs[from] == tens((m / 100) / 100),
        cs[from + 1] == ones((m / 100) / 100),
        cs[from + 2] == tens((m / 100) % 100),
        cs[from + 3] == ones((m / 100) % 100),
        cs[from + 4] == tens(m % 100),
        cs[from + 5] == ones(m % 100),
    ensures
        all_digits(cs, from, from + 6),
        number(cs, from, 6) == m,
        after_digits(cs, from, cs.len() as int) == cs.len(),
{
    let q = m / 100;
    assert(m == q * 100 + m % 100);
    assert(q == (q / 100) * 100 + q % 100);
    assert(0 <= q / 100 < 100);
    lemma_read_two(cs, from, q / 100);
    lemma_read_two(cs, from + 2, q % 100);
    lemma_read_two(cs, from + 4, m % 100);
    lemma_number_split(cs, from, 4);
    lemma_number_split(cs, from, 6);
    assert forall|i: int| from <= i < from + 6 implies is_digit(#[trigger] cs[i]) by {
        if i < from + 2 {
        } else if i < from + 4 {
        } else {
        }
    }
    lemma_digits_run(cs, from, 6, cs.len() as int);
}

/// Reading the calendar text of an instant gives the fields back.
proof fn lemma_text_reads_back(c: DateTime)
    requires
        c.valid(),
        -1_000_000 < c.year < 1_000_000,
    ensures
        read_fields(c.text()) == Some(
            Fields { year: c.year as int, month: c.month as int, day: c.day as int, hour: c.hour as int, minute: c.minute as int, second: c.second as int, micros: c.micros as int },
        ),
{
    let cs = c.text();
    let head = year_text(c.year as int);
    let tail = c.tail();
    let l = head.len() as int;
    lemma_padded_len(year_size(c.year as int), year_width(c.year as int));
    assert(tail.len() == 22);
    assert(cs.len() == l + 22);
    assert forall|k: int| 0 <= k < l implies cs[k] == #[trigger] head[k] by {}
    assert forall|k: int| 0 <= k < 22 implies cs[l + k] == #[trigger] tail[k] by {}
    assert(cs[l] == tail[0]);
    lemma_year_reads(cs, c.year as int);
    assert(expect(cs, l, '-') == Some(l + 1));
    assert(cs[l + 1] == tail[1] && cs[l + 2] == tail[2]);
    lemma_two_read(cs, l + 1, c.month as int);
    assert(cs[l + 3] == tail[3]);
    assert(expect(cs, l + 3, '-') == Some(l + 4));
    assert(cs[l + 4] == tail[4] && cs[l + 5] == tail[5]);
    lemma_two_read(cs, l + 4, c.day as int);
    assert(cs[l + 6] == tail[6]);
    assert(is_space(' '));
    assert(cs[l + 7] == tail[7] && cs[l + 8] == tail[8]);
    lemma_read_two(cs, l + 7, c.hour as int);
    assert(after_spaces(cs, l + 7) == l + 7);
    assert(after_spaces(cs, l + 6) == l + 7);
    lemma_two_read(cs, l + 7, c.hour as int);
    assert(cs[l + 9] == tail[9]);
    assert(expect(cs, l + 9, ':') == Some(l + 10));
    assert(cs[l + 10] == tail[10] && cs[l + 11] == tail[11]);
    lemma_two_read(cs, l + 10, c.minute as int);
    assert(cs[l + 12] == tail[12]);
    assert(expect(cs, l + 12, ':') == Some(l + 13));
    assert(cs[l + 13] == tail[13] && cs[l + 14] == tail[14]);
    lemma_two_read(cs, l + 13, c.second as int);
    assert(cs[l + 15] == tail[15]);
    assert(cs[l + 16] == tail[16] && cs[l + 17] == tail[17] && cs[l + 18] == tail[18] && cs[l + 19] == tail[19] && cs[l + 20] == tail[20] && cs[l + 21] == tail[21]);
    lemma_micros_read(cs, l + 16, c.micros as int);
    assert(scan_fraction(cs, l + 15) == Some(Scanned { value: c.micros as int, next: l + 22 }));
    assert(read_time(cs, l + 6, c.year as int, c.month as int, c.day as int) == Some(
        Fields { year: c.year as int, month: c.month as int, day: c.day as int, hour: c.hour as int, minute: c.minute as int, second: c.second as int, micros: c.micros as int },
    ));
}

/// Reading the calendar text of an instant from `EARLIEST_YEAR` on that a
/// signed 64-bit number of microseconds can hold gives the instant back.
pub proof fn lemma_parse_text(c: DateTime)
    requires
        c.valid(),
        EARLIEST_YEAR <= c.year < 1_000_000,
        c.to_micros() <= i64::MAX,
    ensures
        parse_datetime(c.text()) == Some(c.to_micros()),
{
    lemma_text_reads_back(c);
}

/// An instant of a year before `EARLIEST_YEAR` lies before the first day
/// of that year, and one of a year from a million on is too late for a
/// signed 64-bit number of microseconds.
pub proof fn lemma_year_of_instant(c: DateTime)
    requires
        c.valid(),
    ensures
        day_number_of(c.to_micros()) == days_from_civil(c.year as int, c.month as int, c.day as int),
        day_number_of(c.to_micros()) >= EARLIEST_DAY ==> c.year >= EARLIEST_YEAR,
        c.to_micros() <= i64::MAX ==> c.year < 300_000,
{
    let days = days_from_civil(c.year as int, c.month as int, c.day as int);
    let in_day = ((c.hour * 60 + c.minute) * 60 + c.second) * 1_000_000 + c.micros;
    assert(0 <= in_day < 86_400_000_000);
    assert(c.to_micros() == days * 86_400_000_000 + in_day) by (nonlinear_arith)
        requires
            c.to_micros() == (((days * 24 + c.hour) * 60 + c.minute) * 60 + c.second) * 1_000_000 + c.micros,
            in_day == ((c.hour * 60 + c.minute) * 60 + c.second) * 1_000_000 + c.micros,
    ;
    vstd::arithmetic::div_mod::lemma_fundamental_div_mod_converse(c.to_micros(), 86_400_000_000, days, in_day);
    lemma_days_in_range(c.year as int, c.month as int, c.day as int);
    if c.year < EARLIEST_YEAR {
        lemma_year_start_monotonic(c.year as int + 1, -262_143);
        assert(days_before_year(-262_143) == -96_465_292);
    }
    if c.year >= 300_000 {
        lemma_too_late(Fields { year: c.year as int, month: c.month as int, day: c.day as int, hour: c.hour as int, minute: c.minute as int, second: c.second as int, micros: c.micros as int });
    }
}

/// Formatting an instant and parsing the text again gives the instant
/// back: whatever text renders `micros`, an instant no earlier than the
/// first day of `EARLIEST_YEAR`, it parses to `micros`.
pub proof fn lemma_round_trip(micros: int, text: Seq<char>)
    requires
        renders(micros, text),
        day_number_of(micros) >= EARLIEST_DAY,
        micros <= i64::MAX,
    ensures
        parse_datetime(text) == Some(micros),
{
    let c = choose|c: DateTime| c.valid() && c.to_micros() == micros && text == c.text();
    lemma_year_of_instant(c);
    lemma_parse_text(c);
}

/// From the epoch on, formatting an instant and parsing the text again
/// gives the instant back.
pub proof fn lemma_round_trip_from_epoch(micros: int, text: Seq<char>)
    requires
        0 <= micros <= i64::MAX,
        renders(micros, text),
    ensures
        parse_datetime(text) == Some(micros),
{
    assert(day_number_of(micros) >= 0);
    lemma_round_trip(micros, text);
}

/// The text given for an instant before the calendar is no date-time
/// text: it begins with a letter.
pub proof fn lemma_fallback_unparsed(micros: int)
    ensures
        parse_datetime(fallback_text(micros)) is None,
{
    let text = fallback_text(micros);
    assert(text[0] == 't');
    assert(!is_digit(text[0]) && !is_space(text[0]));
    assert(after_spaces(text, 0) == 0);
    assert(after_digits(text, 0, 4) == 0);
    assert(scan_year(text, 0) is None);
}

/// Formats `micros` and parses the text again. From the epoch on the
/// result is `micros` itself. Before the epoch it is the instant that is
/// shown for `micros`, and 0 where that lies before the calendar.
pub fn reparse(micros: i64) -> (back: i64)
    ensures
        micros >= 0 ==> back == micros,
        back == (if day_number_of(shown_instant(micros as int)) >= EARLIEST_DAY {
            shown_instant(micros as int)
        } else {
            0
        }),
{
    let text = micros_to_datetime_string(micros);
    proof {
        let shown = shown_instant(micros as int);
        if day_number_of(shown) >= EARLIEST_DAY {
            lemma_round_trip(shown, text@);
        } else {
            lemma_fallback_unparsed(micros as int);
        }
    }
    parse_datetime_to_micros(text.as_str())
}

} // verus!
