//! Timestamps: how they are read and written.
//!
//! Everything is UTC and in whole seconds. A time without a zone is read as UTC, and one with
//! an offset is refused rather than converted. A fraction of a second is accepted and dropped.
use vstd::prelude::*;
use vstd::string::StringExecFns;

use crate::text;
use crate::text::{
    all_digits, digit_char, first_of, is_digit, number, pieces, signed_digits, trim, views,
};
use crate::time;
use crate::touch::calendar;
use crate::touch::calendar::{day_number, representable, valid_date};

verus! {

pub const TIMESTAMP_EXAMPLES: &'static str = "2024-05-01, 2024-05-01T12:00:00Z or @1714564800";

/// A point in time, in whole seconds since 1970.
#[derive(Clone, Copy, Debug, PartialEq, Eq, Structural)]
pub struct Timestamp {
    pub seconds: i64,
}

/// What a text says as a timestamp.
pub enum Reading {
    /// A number of seconds since 1970.
    Seconds(int),
    /// It starts like a number of seconds and is none.
    NotSeconds,
    /// It has not the form of a timestamp.
    Malformed,
    /// It carries a zone offset.
    Offset,
    /// Its hours, minutes or seconds are out of range.
    FieldRange,
    /// Its date does not exist, or lies in a year of more than four digits.
    NoSuchDate,
}

/// The digits of a number that may carry a sign.
pub open spec fn magnitude_part(s: Seq<char>) -> Seq<char> {
    if s.len() > 0 && (s[0] == '+' || s[0] == '-') {
        s.drop_first()
    } else {
        s
    }
}

/// The signed number that `s` spells, if it fits in 64 bits.
pub open spec fn parsed_signed(s: Seq<char>) -> Option<int> {
    let d = magnitude_part(s);
    let n: int = if s.len() > 0 && s[0] == '-' {
        -(number(d) as int)
    } else {
        number(d) as int
    };
    if all_digits(d) && i64::MIN <= n <= i64::MAX {
        Some(n)
    } else {
        None
    }
}

/// The number that a run of digits spells, if it is no more than `max`.
pub open spec fn field(s: Seq<char>, max: nat) -> Option<nat> {
    if all_digits(s) && number(s) <= max {
        Some(number(s))
    } else {
        None
    }
}

/// A text without the zone markers at its end.
pub open spec fn without_zone(s: Seq<char>) -> Seq<char>
    decreases s.len(),
{
    if s.len() > 0 && (s.last() == 'Z' || s.last() == 'z') {
        without_zone(s.drop_last())
    } else {
        s
    }
}

/// Whether a character separates a date from a time.
pub open spec fn splits_time(c: char) -> bool {
    c == 'T' || c == 't' || c == ' '
}

/// The position of the first separator of date and time; the length where there is none.
pub open spec fn date_end(s: Seq<char>) -> int
    decreases s.len(),
{
    if s.len() == 0 || splits_time(s[0]) {
        0
    } else {
        1 + date_end(s.drop_first())
    }
}

/// The three numbers of `YYYY-MM-DD`.
pub open spec fn date_fields(s: Seq<char>) -> Option<(int, int, int)> {
    let p = pieces(s, '-');
    if p.len() != 3 {
        None
    } else {
        match (
            field(p[0], i64::MAX as nat),
            field(p[1], u32::MAX as nat),
            field(p[2], u32::MAX as nat),
        ) {
            (Some(y), Some(m), Some(d)) => Some((y as int, m as int, d as int)),
            _ => None,
        }
    }
}

/// What a time of day says.
pub enum TimeReading {
    Time(int, int, int),
    Malformed,
    Offset,
    FieldRange,
}

/// The whole seconds of a field that may carry a fraction. The fraction has to be digits, any
/// number of them, and counts for nothing.
pub open spec fn seconds_field(s: Seq<char>) -> Option<nat> {
    let i = first_of(s, '.');
    let fraction = if i < s.len() {
        s.skip(i + 1)
    } else {
        Seq::empty()
    };
    if fraction.len() > 0 && !all_digits(fraction) {
        None
    } else {
        field(s.take(i), u32::MAX as nat)
    }
}

/// What `HH:MM` or `HH:MM:SS` says; nothing at all is midnight.
pub open spec fn time_reading(s: Seq<char>) -> TimeReading {
    let p = pieces(s, ':');
    if s.len() == 0 {
        TimeReading::Time(0, 0, 0)
    } else if s.contains('+') || s.contains('-') {
        TimeReading::Offset
    } else if p.len() < 2 || p.len() > 3 {
        TimeReading::Malformed
    } else {
        let second = if p.len() == 3 {
            seconds_field(p[2])
        } else {
            Some(0)
        };
        match (field(p[0], u32::MAX as nat), field(p[1], u32::MAX as nat), second) {
            (Some(h), Some(m), Some(sec)) => if h > 23 || m > 59 || sec > 59 {
                TimeReading::FieldRange
            } else {
                TimeReading::Time(h as int, m as int, sec as int)
            },
            _ => TimeReading::Malformed,
        }
    }
}

/// What a text says as a timestamp.
pub open spec fn reading(input: Seq<char>) -> Reading {
    let t = trim(input);
    if t.len() == 0 {
        Reading::Malformed
    } else if t[0] == '@' {
        match parsed_signed(trim(t.drop_first())) {
            Some(n) => Reading::Seconds(n),
            None => Reading::NotSeconds,
        }
    } else {
        let body = without_zone(t);
        let i = date_end(body);
        let time = if i < body.len() {
            trim(body.skip(i + 1))
        } else {
            Seq::empty()
        };
        match date_fields(body.take(i)) {
            None => Reading::Malformed,
            Some((y, m, d)) => match time_reading(time) {
                TimeReading::Malformed => Reading::Malformed,
                TimeReading::Offset => Reading::Offset,
                TimeReading::FieldRange => Reading::FieldRange,
                TimeReading::Time(h, min, s) => if valid_date(y, m, d) {
                    Reading::Seconds(86400 * day_number(y, m, d) + 3600 * h + 60 * min + s)
                } else {
                    Reading::NoSuchDate
                },
            },
        }
    }
}

/// The message for a text that is not a timestamp.
pub open spec fn failure_text(input: Seq<char>, r: Reading) -> Seq<char> {
    match r {
        Reading::Seconds(_) => Seq::empty(),
        Reading::NotSeconds => "'"@ + input
            + "' is not a whole number of seconds since the Unix epoch (try "@
            + TIMESTAMP_EXAMPLES@ + ")"@,
        Reading::Malformed => "'"@ + input + "' is not a timestamp DCTL understands (try "@
            + TIMESTAMP_EXAMPLES@ + ")"@,
        Reading::Offset => "'"@ + input
            + "' carries a zone offset. DCTL timestamps are UTC: convert the time first, or append Z if it already is."@,
        Reading::FieldRange => "'"@ + input
            + "' has a time field out of range (hours 0-23, minutes 0-59, seconds 0-59)"@,
        Reading::NoSuchDate => "'"@ + input
            + "' is not a date DCTL can represent (years 1 to 9999, and the day must exist in its month)"@,
    }
}

/// Two digits.
pub open spec fn two(n: int) -> Seq<char> {
    seq![digit_char(n / 10 % 10), digit_char(n % 10)]
}

/// Four digits.
pub open spec fn four(n: int) -> Seq<char> {
    two(n / 100) + two(n)
}

/// `YYYY-MM-DD`.
pub open spec fn date_text(y: int, m: int, d: int) -> Seq<char> {
    (four(y).push('-') + two(m)).push('-') + two(d)
}

/// `HH:MM:SS`.
pub open spec fn clock_text(h: int, m: int, s: int) -> Seq<char> {
    (two(h).push(':') + two(m)).push(':') + two(s)
}

/// A date and a time of day in the one form that is written.
pub open spec fn stamp_text(y: int, m: int, d: int, h: int, min: int, s: int) -> Seq<char> {
    (date_text(y, m, d).push('T') + clock_text(h, min, s)).push('Z')
}

/// The time of day of a number of seconds, on its date.
pub open spec fn is_stamp(text: Seq<char>, seconds: int, y: int, m: int, d: int) -> bool {
    let rest = seconds % 86400;
    &&& valid_date(y, m, d)
    &&& day_number(y, m, d) == seconds / 86400
    &&& text == stamp_text(y, m, d, rest / 3600, rest % 3600 / 60, rest % 60)
}

/// Whether `text` is what is written for a number of seconds: its date and time of day, or
/// the seconds themselves where there is no such date.
pub open spec fn is_written(text: Seq<char>, seconds: int) -> bool {
    if representable(seconds / 86400) {
        exists|y: int, m: int, d: int| #[trigger] is_stamp(text, seconds, y, m, d)
    } else {
        text == seq!['@'] + signed_digits(seconds)
    }
}

impl Timestamp {
    /// The current time; a clock that is set before 1970 gives a negative one. What the clock
    /// says is not foreseeable. It is held within what 64 bits can tell on both sides of 1970.
    pub fn now() -> (t: Timestamp)
        ensures
            t.seconds >= -(i64::MAX as int),
    {
        Timestamp { seconds: time::clock_seconds() }
    }

    pub fn unix_seconds(self) -> (n: i64)
        ensures
            n == self.seconds,
    {
        self.seconds
    }

    pub fn from_unix(seconds: i64) -> (t: Timestamp)
        ensures
            t.seconds == seconds,
    {
        Timestamp { seconds }
    }

    /// Reads one of the accepted spellings.
    pub fn parse(input: &str) -> (r: core::result::Result<Timestamp, String>)
        ensures
            match r {
                Ok(t) => reading(input@) == Reading::Seconds(t.seconds as int),
                Err(message) => !(reading(input@) is Seconds) && message@ == failure_text(
                    input@,
                    reading(input@),
                ),
            },
    {
        let t = text::trimmed(input);
        if t.len() == 0 {
            return Err(malformed(input));
        }
        if t[0] == '@' {
            let rest = text::string_of(t.as_slice(), 1, t.len());
            proof {
                assert(t@.subrange(1, t@.len() as int) =~= t@.drop_first());
            }
            let spelled = text::trimmed(rest.as_str());
            return match parse_signed(spelled.as_slice()) {
                Some(seconds) => Ok(Timestamp { seconds }),
                None => Err(
                    text::cat5(
                        "'",
                        input,
                        "' is not a whole number of seconds since the Unix epoch (try ",
                        TIMESTAMP_EXAMPLES,
                        ")",
                    ),
                ),
            };
        }
        let mut end: usize = t.len();
        proof {
            assert(t@.take(end as int) =~= t@);
        }
        while end > 0 && (t[end - 1] == 'Z' || t[end - 1] == 'z')
            invariant
                end <= t@.len(),
                without_zone(t@) == without_zone(t@.take(end as int)),
            decreases end,
        {
            proof {
                assert(t@.take(end as int).drop_last() =~= t@.take(end - 1));
            }
            end = end - 1;
        }
        let ghost body = t@.take(end as int);
        let mut split: usize = 0;
        proof {
            assert(without_zone(t@) == body);
            assert(body.skip(0) =~= body);
        }
        while split < end && !(t[split] == 'T' || t[split] == 't' || t[split] == ' ')
            invariant
                split <= end <= t@.len(),
                body == t@.take(end as int),
                date_end(body) == split + date_end(body.skip(split as int)),
            decreases end - split,
        {
            proof {
                assert(body.skip(split as int).drop_first() =~= body.skip(split + 1));
            }
            split = split + 1;
        }
        proof {
            assert(date_end(body) == split);
            assert(t@.subrange(0, split as int) =~= body.take(split as int));
        }
        let date = text::string_of(t.as_slice(), 0, split);
        let mut time: Vec<char> = Vec::new();
        if split < end {
            let behind = text::string_of(t.as_slice(), split + 1, end);
            proof {
                assert(t@.subrange(split + 1, end as int) =~= body.skip(split + 1));
            }
            time = text::trimmed(behind.as_str());
        }
        let (year, month, day) = match parse_date(date.as_str()) {
            None => {
                return Err(malformed(input));
            },
            Some(f) => f,
        };
        proof {
            assert(time@ =~= (if date_end(body) < body.len() {
                trim(body.skip(date_end(body) + 1))
            } else {
                Seq::empty()
            }));
        }
        let (hour, minute, second) = match parse_time(time.as_slice()) {
            Clock::Malformed => {
                return Err(malformed(input));
            },
            Clock::Offset => {
                return Err(
                    text::cat3(
                        "'",
                        input,
                        "' carries a zone offset. DCTL timestamps are UTC: convert the time first, or append Z if it already is.",
                    ),
                );
            },
            Clock::FieldRange => {
                return Err(
                    text::cat3(
                        "'",
                        input,
                        "' has a time field out of range (hours 0-23, minutes 0-59, seconds 0-59)",
                    ),
                );
            },
            Clock::Time(h, m, s) => (h, m, s),
        };
        match calendar::days_from_civil(year, month, day) {
            None => Err(
                text::cat3(
                    "'",
                    input,
                    "' is not a date DCTL can represent (years 1 to 9999, and the day must exist in its month)",
                ),
            ),
            Some(days) => {
                proof {
                    calendar::lemma_valid_is_representable(
                        year as int,
                        month as int,
                        day as int,
                    );
                }
                let seconds: i64 = days * 86400 + hour as i64 * 3600 + minute as i64 * 60
                    + second as i64;
                Ok(Timestamp { seconds })
            },
        }
    }

    /// The one form that is written: `2024-05-01T12:00:00Z`. A time for which there is no
    /// four-digit year is written as a number of seconds.
    pub fn to_rfc3339(self) -> (r: String)
        ensures
            is_written(r@, self.seconds as int),
    {
        let (days, rest) = split_days(self.seconds);
        match calendar::civil_from_days(days) {
            None => {
                let mut r = String::new();
                r.push('@');
                let n = text::signed_decimal(self.seconds);
                r.append(n.as_str());
                proof {
                    assert(r@ =~= seq!['@'] + signed_digits(self.seconds as int));
                }
                r
            },
            Some((year, month, day)) => {
                proof {
                    calendar::lemma_valid_is_representable(
                        year as int,
                        month as int,
                        day as int,
                    );
                }
                let mut r = write_date(year, month, day);
                r.push('T');
                let clock = write_clock(rest);
                r.append(clock.as_str());
                r.push('Z');
                proof {
                    assert(is_stamp(
                        r@,
                        self.seconds as int,
                        year as int,
                        month as int,
                        day as int,
                    ));
                }
                r
            },
        }
    }
}

fn malformed(input: &str) -> (s: String)
    ensures
        s@ == failure_text(input@, Reading::Malformed),
{
    text::cat5(
        "'",
        input,
        "' is not a timestamp DCTL understands (try ",
        TIMESTAMP_EXAMPLES,
        ")",
    )
}

/// A number of seconds as whole days and the seconds left over.
fn split_days(seconds: i64) -> (r: (i64, i64))
    ensures
        r.0 == seconds as int / 86400,
        r.1 == seconds as int % 86400,
        0 <= r.1 < 86400,
{
    if seconds >= 0 {
        (seconds / 86400, seconds % 86400)
    } else {
        // One below the number with the sign turned round: it is at least zero and it fits.
        let m: i64 = -(seconds + 1);
        let q: i64 = m / 86400;
        let r: i64 = m % 86400;
        proof {
            vstd::arithmetic::div_mod::lemma_fundamental_div_mod_converse(
                seconds as int,
                86400,
                -(q as int) - 1,
                86399 - r as int,
            );
        }
        (-q - 1, 86399 - r)
    }
}

fn push_two(s: &mut String, n: u32)
    requires
        n < 100,
    ensures
        final(s)@ == old(s)@ + two(n as int),
{
    let ghost before = s@;
    let tens: u8 = 48 + (n / 10) as u8;
    let ones: u8 = 48 + (n % 10) as u8;
    s.push(tens as char);
    s.push(ones as char);
    proof {
        assert(s@ =~= before + two(n as int));
    }
}

proof fn lemma_last_two(n: int)
    requires
        n >= 0,
    ensures
        two(n % 100) == two(n),
{
    assert(n % 100 % 10 == n % 10);
    assert(n % 100 / 10 % 10 == n / 10 % 10);
}

/// Writes `YYYY-MM-DD`.
fn write_date(year: i64, month: u32, day: u32) -> (r: String)
    requires
        0 <= year <= 9999,
        month < 100,
        day < 100,
    ensures
        r@ == date_text(year as int, month as int, day as int),
{
    let mut r = String::new();
    push_two(&mut r, (year / 100) as u32);
    push_two(&mut r, (year % 100) as u32);
    proof {
        lemma_last_two(year as int);
        assert(r@ =~= four(year as int));
    }
    r.push('-');
    push_two(&mut r, month);
    r.push('-');
    push_two(&mut r, day);
    r
}

/// Writes the time of day that a number of seconds comes to.
fn write_clock(rest: i64) -> (r: String)
    requires
        0 <= rest < 86400,
    ensures
        r@ == clock_text(rest as int / 3600, rest as int % 3600 / 60, rest as int % 60),
{
    let mut r = String::new();
    push_two(&mut r, (rest / 3600) as u32);
    proof {
        assert(r@ =~= two(rest as int / 3600));
    }
    r.push(':');
    push_two(&mut r, (rest % 3600 / 60) as u32);
    r.push(':');
    push_two(&mut r, (rest % 60) as u32);
    r
}

/// Reads a signed number.
fn parse_signed(v: &[char]) -> (r: Option<i64>)
    ensures
        match r {
            Some(n) => parsed_signed(v@) == Some(n as int),
            None => parsed_signed(v@) is None,
        },
{
    let signed = v.len() > 0 && (v[0] == '+' || v[0] == '-');
    let negative = signed && v[0] == '-';
    let from: usize = if signed {
        1
    } else {
        0
    };
    let digits = text::string_of(v, from, v.len());
    proof {
        assert(v@.subrange(from as int, v@.len() as int) =~= magnitude_part(v@));
    }
    match parse_field(digits.as_str(), 9223372036854775808) {
        None => None,
        Some(n) => if negative {
            if n == 9223372036854775808 {
                Some(-9223372036854775807 - 1)
            } else {
                Some(-(n as i64))
            }
        } else if n == 9223372036854775808 {
            None
        } else {
            Some(n as i64)
        },
    }
}

/// Reads a run of digits. A sign or a space is no digit.
fn parse_field(s: &str, max: u64) -> (r: Option<u64>)
    ensures
        match r {
            Some(n) => field(s@, max as nat) == Some(n as nat),
            None => field(s@, max as nat) is None,
        },
{
    let v = text::chars_of(s);
    if v.len() > 0 && v[0] == '+' {
        return None;
    }
    match text::parse_number(v.as_slice()) {
        None => None,
        Some(n) => if n <= max {
            Some(n)
        } else {
            None
        },
    }
}

/// Reads `YYYY-MM-DD`.
fn parse_date(s: &str) -> (r: Option<(i64, u32, u32)>)
    ensures
        match r {
            Some((y, m, d)) => date_fields(s@) == Some((y as int, m as int, d as int)),
            None => date_fields(s@) is None,
        },
{
    let v = text::chars_of(s);
    let p = text::split_on(v.as_slice(), '-');
    if p.len() != 3 {
        return None;
    }
    proof {
        assert(views(p@)[0] == p@[0]@);
        assert(views(p@)[1] == p@[1]@);
        assert(views(p@)[2] == p@[2]@);
    }
    let year = parse_field(p[0].as_str(), i64::MAX as u64);
    let month = parse_field(p[1].as_str(), u32::MAX as u64);
    let day = parse_field(p[2].as_str(), u32::MAX as u64);
    match (year, month, day) {
        (Some(y), Some(m), Some(d)) => Some((y as i64, m as u32, d as u32)),
        _ => None,
    }
}

/// What a time of day comes to.
enum Clock {
    Time(u32, u32, u32),
    Malformed,
    Offset,
    FieldRange,
}

fn contains(v: &[char], c: char) -> (r: bool)
    ensures
        r == v@.contains(c),
{
    let i = text::find(v, c);
    proof {
        text::lemma_first_of(v@, c);
    }
    i < v.len()
}

/// Whether what stands from a place on is digits, and at least one.
fn digits_from(v: &[char], from: usize) -> (r: bool)
    requires
        from <= v@.len(),
    ensures
        r == all_digits(v@.skip(from as int)),
{
    let ghost rest = v@.skip(from as int);
    let mut i: usize = from;
    while i < v.len()
        invariant
            from <= i <= v@.len(),
            rest == v@.skip(from as int),
            forall|j: int| 0 <= j < i - from ==> is_digit(#[trigger] rest[j]),
        decreases v@.len() - i,
    {
        assert(rest[i - from] == v@[i as int]);
        if v[i] < '0' || v[i] > '9' {
            return false;
        }
        i = i + 1;
    }
    from < v.len()
}

/// Reads the whole seconds of a field that may carry a fraction.
fn parse_seconds(s: &str) -> (r: Option<u32>)
    ensures
        match r {
            Some(n) => seconds_field(s@) == Some(n as nat),
            None => seconds_field(s@) is None,
        },
{
    let v = text::chars_of(s);
    let i = text::find(v.as_slice(), '.');
    proof {
        assert(v@.subrange(0, i as int) =~= v@.take(i as int));
    }
    let whole = text::string_of(v.as_slice(), 0, i);
    if i < v.len() && v.len() - i > 1 && !digits_from(v.as_slice(), i + 1) {
        return None;
    }
    match parse_field(whole.as_str(), u32::MAX as u64) {
        Some(n) => Some(n as u32),
        None => None,
    }
}

/// Reads `HH:MM` or `HH:MM:SS`.
fn parse_time(v: &[char]) -> (r: Clock)
    ensures
        match r {
            Clock::Time(h, m, s) => time_reading(v@) == TimeReading::Time(
                h as int,
                m as int,
                s as int,
            ) && h < 24 && m < 60 && s < 60,
            Clock::Malformed => time_reading(v@) == TimeReading::Malformed,
            Clock::Offset => time_reading(v@) == TimeReading::Offset,
            Clock::FieldRange => time_reading(v@) == TimeReading::FieldRange,
        },
{
    if v.len() == 0 {
        return Clock::Time(0, 0, 0);
    }
    if contains(v, '+') || contains(v, '-') {
        return Clock::Offset;
    }
    let p = text::split_on(v, ':');
    if p.len() < 2 || p.len() > 3 {
        return Clock::Malformed;
    }
    proof {
        assert(views(p@)[0] == p@[0]@);
        assert(views(p@)[1] == p@[1]@);
        if p@.len() == 3 {
            assert(views(p@)[2] == p@[2]@);
        }
    }
    let hour = parse_field(p[0].as_str(), u32::MAX as u64);
    let minute = parse_field(p[1].as_str(), u32::MAX as u64);
    let second: Option<u32> = if p.len() == 3 {
        parse_seconds(p[2].as_str())
    } else {
        Some(0)
    };
    match (hour, minute, second) {
        (Some(h), Some(m), Some(s)) => if h > 23 || m > 59 || s > 59 {
            Clock::FieldRange
        } else {
            Clock::Time(h as u32, m as u32, s)
        },
        _ => Clock::Malformed,
    }
}


proof fn lemma_two(n: int)
    requires
        0 <= n < 100,
    ensures
        two(n).len() == 2,
        all_digits(two(n)),
        number(two(n)) == n,
{
    let s = two(n);
    reveal_with_fuel(number, 3);
    assert(s.drop_last().drop_last().len() == 0);
    assert(is_digit(s[0]) && is_digit(s[1]));
}

proof fn lemma_four(n: int)
    requires
        0 <= n <= 9999,
    ensures
        four(n).len() == 4,
        all_digits(four(n)),
        number(four(n)) == n,
{
    let s = four(n);
    reveal_with_fuel(number, 5);
    lemma_two(n / 100);
    let a = s.drop_last();
    let b = a.drop_last();
    assert(b =~= two(n / 100));
    assert(s.last() == digit_char(n % 10));
    assert(a.last() == digit_char(n / 10 % 10));
    assert forall|i: int| 0 <= i < s.len() implies is_digit(#[trigger] s[i]) by {
        if i < 2 {
            assert(s[i] == two(n / 100)[i]);
        } else {
            assert(s[i] == two(n)[i - 2]);
        }
    }
}

proof fn lemma_digits_hold_no_mark(s: Seq<char>, c: char)
    requires
        all_digits(s),
        !is_digit(c),
    ensures
        !s.contains(c),
{
    if s.contains(c) {
        let i = choose|i: int| 0 <= i < s.len() && s[i] == c;
        assert(is_digit(s[i]));
    }
}

proof fn lemma_date_text(y: int, m: int, d: int)
    requires
        0 <= y <= 9999,
        0 <= m < 100,
        0 <= d < 100,
    ensures
        date_fields(date_text(y, m, d)) == Some((y, m, d)),
        date_text(y, m, d).len() == 10,
        is_digit(date_text(y, m, d)[0]),
        forall|i: int| 0 <= i < 10 ==> !splits_time(#[trigger] date_text(y, m, d)[i]),
{
    lemma_four(y);
    lemma_two(m);
    lemma_two(d);
    lemma_digits_hold_no_mark(four(y), '-');
    lemma_digits_hold_no_mark(two(m), '-');
    lemma_digits_hold_no_mark(two(d), '-');
    text::lemma_one_piece(four(y), '-');
    let ym = four(y).push('-') + two(m);
    text::lemma_pieces_concat(four(y), two(m), '-');
    text::lemma_pieces_concat(ym, two(d), '-');
    let t = date_text(y, m, d);
    assert(t[0] == four(y)[0]);
    assert(is_digit(four(y)[0]));
    assert forall|i: int| 0 <= i < 10 implies !splits_time(#[trigger] t[i]) by {
        if i < 4 {
            assert(t[i] == four(y)[i]);
            assert(is_digit(four(y)[i]));
        } else if i == 5 || i == 6 {
            assert(t[i] == two(m)[i - 5]);
            assert(is_digit(two(m)[i - 5]));
        } else if i > 7 {
            assert(t[i] == two(d)[i - 8]);
            assert(is_digit(two(d)[i - 8]));
        }
    }
}

proof fn lemma_clock_text(h: int, m: int, s: int)
    requires
        0 <= h < 100,
        0 <= m < 100,
        0 <= s < 100,
    ensures
        time_reading(clock_text(h, m, s)) == (if h > 23 || m > 59 || s > 59 {
            TimeReading::FieldRange
        } else {
            TimeReading::Time(h, m, s)
        }),
        clock_text(h, m, s).len() == 8,
        is_digit(clock_text(h, m, s)[0]),
        is_digit(clock_text(h, m, s)[7]),
{
    lemma_two(h);
    lemma_two(m);
    lemma_two(s);
    lemma_digits_hold_no_mark(two(h), ':');
    lemma_digits_hold_no_mark(two(m), ':');
    lemma_digits_hold_no_mark(two(s), ':');
    lemma_digits_hold_no_mark(two(s), '.');
    text::lemma_one_piece(two(h), ':');
    let hm = two(h).push(':') + two(m);
    text::lemma_pieces_concat(two(h), two(m), ':');
    text::lemma_pieces_concat(hm, two(s), ':');
    let t = clock_text(h, m, s);
    assert(t[0] == two(h)[0] && t[7] == two(s)[1]);
    assert(is_digit(two(h)[0]) && is_digit(two(s)[1]));
    assert forall|i: int| 0 <= i < 8 implies #[trigger] t[i] != '+' && t[i] != '-' by {
        if i < 2 {
            assert(t[i] == two(h)[i]);
            assert(is_digit(two(h)[i]));
        } else if i == 3 || i == 4 {
            assert(t[i] == two(m)[i - 3]);
            assert(is_digit(two(m)[i - 3]));
        } else if i > 5 {
            assert(t[i] == two(s)[i - 6]);
            assert(is_digit(two(s)[i - 6]));
        }
    }
    assert(!t.contains('+') && !t.contains('-'));
    text::lemma_first_of(two(s), '.');
    if first_of(two(s), '.') < 2 {
        assert(two(s).contains(two(s)[first_of(two(s), '.')]));
    }
    assert(two(s).take(2) =~= two(s));
    assert(seconds_field(two(s)) == Some(s as nat));
}

proof fn lemma_date_end(s: Seq<char>, k: int)
    requires
        0 <= k < s.len(),
        splits_time(s[k]),
        forall|i: int| 0 <= i < k ==> !splits_time(#[trigger] s[i]),
    ensures
        date_end(s) == k,
    decreases k,
{
    if k > 0 {
        assert(!splits_time(s[0]));
        let t = s.drop_first();
        assert forall|i: int| 0 <= i < k - 1 implies !splits_time(#[trigger] t[i]) by {
            assert(t[i] == s[i + 1]);
        }
        lemma_date_end(t, k - 1);
    }
}

/// A date and time of day, as they are written, split into the two again.
proof fn lemma_stamp_splits(y: int, m: int, d: int, h: int, min: int, s: int)
    requires
        0 <= y <= 9999,
        0 <= m < 100,
        0 <= d < 100,
        0 <= h < 24,
        0 <= min < 60,
        0 <= s < 60,
    ensures
        ({
            let text = stamp_text(y, m, d, h, min, s);
            let body = without_zone(text);
            &&& trim(text) == text
            &&& text.len() == 20
            &&& text[0] != '@'
            &&& body.len() == 19
            &&& date_end(body) == 10
            &&& body.take(10) == date_text(y, m, d)
            &&& trim(body.skip(11)) == clock_text(h, min, s)
        }),
{
    let text = stamp_text(y, m, d, h, min, s);
    let date = date_text(y, m, d);
    let clock = clock_text(h, min, s);
    let body = date.push('T') + clock;
    lemma_date_text(y, m, d);
    lemma_clock_text(h, min, s);
    assert(text == body.push('Z'));
    assert(text[0] == date[0]);
    text::lemma_trim_of_trimmed(text);
    assert(text.drop_last() =~= body);
    assert(body.last() == clock[7]);
    assert(without_zone(body) == body);
    assert(without_zone(text) == body);
    assert(body[10] == 'T');
    assert forall|i: int| 0 <= i < 10 implies !splits_time(#[trigger] body[i]) by {
        assert(body[i] == date[i]);
    }
    lemma_date_end(body, 10);
    assert(body.take(10) =~= date);
    assert(body.skip(11) =~= clock);
    text::lemma_trim_of_trimmed(clock);
}

proof fn lemma_stamp_reads(y: int, m: int, d: int, h: int, min: int, s: int)
    requires
        valid_date(y, m, d),
        0 <= h < 24,
        0 <= min < 60,
        0 <= s < 60,
    ensures
        reading(stamp_text(y, m, d, h, min, s)) == Reading::Seconds(
            86400 * day_number(y, m, d) + 3600 * h + 60 * min + s,
        ),
{
    lemma_stamp_splits(y, m, d, h, min, s);
    lemma_date_text(y, m, d);
    lemma_clock_text(h, min, s);
}

proof fn lemma_seconds_read(seconds: i64)
    ensures
        reading(seq!['@'] + signed_digits(seconds as int)) == Reading::Seconds(seconds as int),
{
    let spelled = signed_digits(seconds as int);
    let text = seq!['@'] + spelled;
    let n: nat = if seconds < 0 {
        (-(seconds as int)) as nat
    } else {
        seconds as nat
    };
    let d = crate::text::digits(n);
    assert(text.drop_first() =~= spelled);
    text::lemma_number_of_digits(n);
    assert(is_digit(d[0]) && is_digit(d[d.len() - 1]));
    assert(spelled.last() == d.last());
    assert(text.last() == d.last());
    assert(text[0] == '@');
    text::lemma_trim_of_trimmed(text);
    text::lemma_trim_of_trimmed(spelled);
    assert(magnitude_part(spelled) =~= d);
}

proof fn lemma_clock_parts(seconds: int)
    ensures
        ({
            let rest = seconds % 86400;
            &&& 0 <= rest / 3600 < 24
            &&& 0 <= rest % 3600 / 60 < 60
            &&& 0 <= rest % 60 < 60
            &&& 86400 * (seconds / 86400) + 3600 * (rest / 3600) + 60 * (rest % 3600 / 60) + rest
                % 60 == seconds
        }),
{
    let rest = seconds % 86400;
    let part = rest % 3600;
    assert(rest == 3600 * (rest / 3600) + part);
    assert(part == 60 * (part / 60) + part % 60);
    assert(part % 60 == rest % 60);
}

/// What is written for a time reads back as that time, for every time there is.
pub proof fn written_timestamps_read_back(text: Seq<char>, seconds: i64)
    requires
        is_written(text, seconds as int),
    ensures
        reading(text) == Reading::Seconds(seconds as int),
{
    if representable(seconds as int / 86400) {
        let (y, m, d) = choose|y: int, m: int, d: int| #[trigger]
            is_stamp(text, seconds as int, y, m, d);
        let rest = seconds as int % 86400;
        lemma_clock_parts(seconds as int);
        lemma_stamp_reads(y, m, d, rest / 3600, rest % 3600 / 60, rest % 60);
        assert(text == stamp_text(y, m, d, rest / 3600, rest % 3600 / 60, rest % 60));
    } else {
        lemma_seconds_read(seconds);
        assert(text == seq!['@'] + signed_digits(seconds as int));
    }
}

/// One time is written in one way only.
pub proof fn one_time_is_written_one_way(a: Seq<char>, b: Seq<char>, seconds: i64)
    requires
        is_written(a, seconds as int),
        is_written(b, seconds as int),
    ensures
        a == b,
{
    if representable(seconds as int / 86400) {
        let (y, m, d) = choose|y: int, m: int, d: int| #[trigger]
            is_stamp(a, seconds as int, y, m, d);
        let (y2, m2, d2) = choose|y: int, m: int, d: int| #[trigger]
            is_stamp(b, seconds as int, y, m, d);
        calendar::dates_are_counted_apart(y, m, d, y2, m2, d2);
    }
}

/// Whether a text is zone markers and nothing else.
pub open spec fn only_zone(s: Seq<char>) -> bool {
    forall|i: int| 0 <= i < s.len() ==> #[trigger] s[i] == 'Z' || s[i] == 'z'
}

proof fn lemma_zone_goes(body: Seq<char>, zone: Seq<char>)
    requires
        only_zone(zone),
        body.len() > 0,
        body.last() != 'Z',
        body.last() != 'z',
    ensures
        without_zone(body + zone) == body,
    decreases zone.len(),
{
    if zone.len() > 0 {
        let rest = zone.drop_last();
        assert forall|i: int| 0 <= i < rest.len() implies #[trigger] rest[i] == 'Z' || rest[i]
            == 'z' by {
            assert(rest[i] == zone[i]);
        }
        assert((body + zone).last() == zone[zone.len() - 1]);
        assert((body + zone).drop_last() =~= body + rest);
        lemma_zone_goes(body, rest);
    } else {
        assert(body + zone =~= body);
    }
}

proof fn lemma_no_split(s: Seq<char>)
    requires
        forall|i: int| 0 <= i < s.len() ==> !splits_time(#[trigger] s[i]),
    ensures
        date_end(s) == s.len(),
    decreases s.len(),
{
    if s.len() > 0 {
        let t = s.drop_first();
        assert(!splits_time(s[0]));
        assert forall|i: int| 0 <= i < t.len() implies !splits_time(#[trigger] t[i]) by {
            assert(t[i] == s[i + 1]);
        }
        lemma_no_split(t);
    }
}

/// A date alone is its midnight, with a zone marker or without; a date that does not exist is
/// refused.
pub proof fn a_date_alone_is_its_midnight(y: int, m: int, d: int, zone: Seq<char>)
    requires
        0 <= y <= 9999,
        0 <= m < 100,
        0 <= d < 100,
        only_zone(zone),
    ensures
        valid_date(y, m, d) ==> reading(date_text(y, m, d) + zone) == Reading::Seconds(
            86400 * day_number(y, m, d),
        ),
        !valid_date(y, m, d) ==> reading(date_text(y, m, d) + zone) is NoSuchDate,
{
    let date = date_text(y, m, d);
    let text = date + zone;
    lemma_date_text(y, m, d);
    lemma_two(d);
    assert(date.last() == two(d)[1]);
    assert(is_digit(two(d)[1]));
    assert(text[0] == date[0]);
    if zone.len() > 0 {
        assert(text.last() == zone[zone.len() - 1]);
    } else {
        assert(text =~= date);
    }
    text::lemma_trim_of_trimmed(text);
    lemma_zone_goes(date, zone);
    lemma_no_split(date);
    assert(date.take(10) =~= date);
}

/// What a text of the form date, separator, time says is decided by the time and the date: any of
/// the three separators does, and a zone marker changes nothing.
pub proof fn a_time_follows_its_date(
    y: int,
    m: int,
    d: int,
    separator: char,
    time: Seq<char>,
    zone: Seq<char>,
)
    requires
        0 <= y <= 9999,
        0 <= m < 100,
        0 <= d < 100,
        separator == 'T' || separator == 't' || separator == ' ',
        time.len() > 0,
        trim(time) == time,
        !text::is_space(time.last()),
        time.last() != 'Z' && time.last() != 'z',
        only_zone(zone),
    ensures
        ({
            let r = reading(date_text(y, m, d).push(separator) + time + zone);
            match time_reading(time) {
                TimeReading::Time(h, min, s) => if valid_date(y, m, d) {
                    r == Reading::Seconds(86400 * day_number(y, m, d) + 3600 * h + 60 * min + s)
                } else {
                    r is NoSuchDate
                },
                TimeReading::Malformed => r is Malformed,
                TimeReading::Offset => r is Offset,
                TimeReading::FieldRange => r is FieldRange,
            }
        }),
{
    let date = date_text(y, m, d);
    let body = date.push(separator) + time;
    let text = body + zone;
    lemma_date_text(y, m, d);
    assert(text[0] == date[0]);
    assert(body.last() == time.last());
    if zone.len() > 0 {
        assert(text.last() == zone[zone.len() - 1]);
    } else {
        assert(text =~= body);
    }
    text::lemma_trim_of_trimmed(text);
    lemma_zone_goes(body, zone);
    assert(body[10] == separator);
    assert forall|i: int| 0 <= i < 10 implies !splits_time(#[trigger] body[i]) by {
        assert(body[i] == date[i]);
    }
    lemma_date_end(body, 10);
    assert(body.take(10) =~= date);
    assert(body.skip(11) =~= time);
}

/// A time of day is hours, minutes and seconds; the seconds may be left out, and a fraction of a
/// second, of any length, is dropped. Hours beyond 23, and minutes and seconds beyond 59, are out
/// of range.
pub proof fn a_clock_reads_as_it_is_written(h: int, m: int, s: int, fraction: Seq<char>)
    requires
        0 <= h < 100,
        0 <= m < 100,
        0 <= s < 100,
        fraction.len() == 0 || all_digits(fraction),
    ensures
        h < 24 && m < 60 && s < 60 ==> time_reading(clock_text(h, m, s)) == TimeReading::Time(
            h,
            m,
            s,
        ) && time_reading(clock_text(h, m, s).push('.') + fraction) == TimeReading::Time(h, m, s),
        h > 23 || m > 59 || s > 59 ==> time_reading(clock_text(h, m, s)) is FieldRange,
        h < 24 && m < 60 ==> time_reading(two(h).push(':') + two(m)) == TimeReading::Time(h, m, 0),
        h > 23 || m > 59 ==> time_reading(two(h).push(':') + two(m)) is FieldRange,
        time_reading(Seq::empty()) == TimeReading::Time(0, 0, 0),
        time_reading(two(h)) is Malformed,
{
    lemma_clock_text(h, m, s);
    lemma_two(h);
    lemma_two(m);
    lemma_two(s);
    lemma_digits_hold_no_mark(two(h), ':');
    lemma_digits_hold_no_mark(two(m), ':');
    lemma_digits_hold_no_mark(two(s), ':');
    lemma_digits_hold_no_mark(two(s), '.');
    lemma_digits_hold_no_mark(two(h), '+');
    lemma_digits_hold_no_mark(two(h), '-');
    text::lemma_one_piece(two(h), ':');
    let hm = two(h).push(':') + two(m);
    text::lemma_pieces_concat(two(h), two(m), ':');
    assert forall|i: int| 0 <= i < hm.len() implies #[trigger] hm[i] != '+' && hm[i] != '-' by {
        if i < 2 {
            assert(hm[i] == two(h)[i]);
            assert(is_digit(two(h)[i]));
        } else if i > 2 {
            assert(hm[i] == two(m)[i - 3]);
            assert(is_digit(two(m)[i - 3]));
        }
    }
    assert(!hm.contains('+') && !hm.contains('-'));
    let last = two(s).push('.') + fraction;
    let t = clock_text(h, m, s).push('.') + fraction;
    assert(t =~= hm.push(':') + last);
    assert forall|i: int| 0 <= i < fraction.len() implies is_digit(#[trigger] fraction[i]) by {}
    assert forall|i: int| 0 <= i < last.len() implies #[trigger] last[i] != ':' && last[i] != '+'
        && last[i] != '-' by {
        if i < 2 {
            assert(last[i] == two(s)[i]);
            assert(is_digit(two(s)[i]));
        } else if i > 2 {
            assert(last[i] == fraction[i - 3]);
        }
    }
    assert(!last.contains(':'));
    text::lemma_pieces_concat(hm, last, ':');
    assert forall|i: int| 0 <= i < t.len() implies #[trigger] t[i] != '+' && t[i] != '-' by {
        if i < 5 {
            assert(t[i] == hm[i]);
        } else if i > 5 {
            assert(t[i] == last[i - 6]);
        }
    }
    assert(!t.contains('+') && !t.contains('-'));
    text::lemma_first_of_concat(two(s), fraction, '.');
    assert(last.take(2) =~= two(s));
    assert(last.skip(3) =~= fraction);
    assert(seconds_field(last) == Some(s as nat));
}

/// A time with an offset is refused as such, wherever the sign stands and whatever else is wrong
/// with the time.
pub proof fn an_offset_is_never_converted(time: Seq<char>)
    requires
        time.contains('+') || time.contains('-'),
    ensures
        time_reading(time) is Offset,
{
}

/// A number of seconds behind an at sign is that number, with any sign.
pub proof fn seconds_read_as_themselves(seconds: i64)
    ensures
        reading(seq!['@'] + signed_digits(seconds as int)) == Reading::Seconds(seconds as int),
        seconds >= 0 ==> reading(seq!['@', '+'] + signed_digits(seconds as int))
            == Reading::Seconds(seconds as int),
{
    lemma_seconds_read(seconds);
    if seconds >= 0 {
        let d = signed_digits(seconds as int);
        let spelled = seq!['+'] + d;
        let text = seq!['@', '+'] + d;
        text::lemma_number_of_digits(seconds as nat);
        assert(is_digit(d[d.len() - 1]));
        assert(text.drop_first() =~= spelled);
        assert(text.last() == d.last());
        assert(spelled.last() == d.last());
        assert(text[0] == '@');
        text::lemma_trim_of_trimmed(text);
        text::lemma_trim_of_trimmed(spelled);
        assert(magnitude_part(spelled) =~= d);
    }
}

/// A time that has a date is written in twenty characters with its marks in their places, and any
/// other as a number of seconds.
pub proof fn a_time_is_written_in_one_form(text: Seq<char>, seconds: i64)
    requires
        is_written(text, seconds as int),
    ensures
        representable(seconds as int / 86400) ==> text.len() == 20 && text[4] == '-' && text[7]
            == '-' && text[10] == 'T' && text[13] == ':' && text[16] == ':' && text[19] == 'Z',
        !representable(seconds as int / 86400) ==> text.len() > 1 && text[0] == '@',
{
    if representable(seconds as int / 86400) {
        let (y, m, d) = choose|y: int, m: int, d: int| #[trigger]
            is_stamp(text, seconds as int, y, m, d);
        lemma_clock_parts(seconds as int);
        let rest = seconds as int % 86400;
        lemma_stamp_splits(y, m, d, rest / 3600, rest % 3600 / 60, rest % 60);
        let date = date_text(y, m, d);
        let clock = clock_text(rest / 3600, rest % 3600 / 60, rest % 60);
        lemma_date_text(y, m, d);
        lemma_clock_text(rest / 3600, rest % 3600 / 60, rest % 60);
        assert(date[4] == '-' && date[7] == '-');
        assert(clock[2] == ':' && clock[5] == ':');
        assert(text[4] == date[4] && text[7] == date[7]);
        assert(text[13] == clock[2] && text[16] == clock[5]);
    } else {
        lemma_seconds_read(seconds);
        let n: nat = if seconds < 0 {
            (-(seconds as int)) as nat
        } else {
            seconds as nat
        };
        text::lemma_number_of_digits(n);
    }
}

/// A field of a time is digits and nothing else, up to its limit.
pub proof fn a_field_has_a_limit(s: Seq<char>, max: nat)
    ensures
        all_digits(s) && number(s) <= max ==> field(s, max) == Some(number(s)),
        !all_digits(s) || number(s) > max ==> field(s, max) is None,
{
}

} // verus!
