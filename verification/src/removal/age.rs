//! The ages a sweep reasons about: `24h`, `7d`, `90m`, `30s`, or a bare number of seconds.
//!
//! What the program prints for a span of time is always something this module reads back.
use vstd::prelude::*;

use crate::constants::CLEANUP_AGE_HINT;
use crate::error::{CliError, ExitCode, Result};
use crate::output::duration_text;
use crate::text;
use crate::text::{digits, parsed_number, trim};
use crate::time::Duration;

verus! {

/// Whether a character is an ASCII letter.
pub open spec fn is_letter(c: char) -> bool {
    ('a' as int <= c as int <= 'z' as int) || ('A' as int <= c as int <= 'Z' as int)
}

/// How many seconds a suffix stands for, in either case.
pub open spec fn unit_seconds(c: char) -> Option<nat> {
    if c == 's' || c == 'S' {
        Some(1)
    } else if c == 'm' || c == 'M' {
        Some(60)
    } else if c == 'h' || c == 'H' {
        Some(3600)
    } else if c == 'd' || c == 'D' {
        Some(86400)
    } else {
        None
    }
}

/// The number of seconds that `s` spells as an age, if it spells one.
pub open spec fn age_seconds(s: Seq<char>) -> Option<u64> {
    let t = trim(s);
    let suffixed = t.len() > 0 && is_letter(t.last());
    let number = parsed_number(
        trim(
            if suffixed {
                t.drop_last()
            } else {
                t
            },
        ),
    );
    let unit = if suffixed {
        unit_seconds(t.last())
    } else {
        Some(1)
    };
    match (number, unit) {
        (Some(n), Some(u)) => if n * u <= u64::MAX {
            Some((n * u) as u64)
        } else {
            None
        },
        _ => None,
    }
}

/// The refusal of a text that is not an age.
pub open spec fn is_invalid_age(e: CliError, input: Seq<char>) -> bool {
    e.is(ExitCode::Usage, "'"@ + input + "' is not a valid age"@, Some(CLEANUP_AGE_HINT@))
}

fn invalid(input: &str) -> (e: CliError)
    ensures
        is_invalid_age(e, input@),
{
    CliError::usage(text::cat3("'", input, "' is not a valid age")).with_hint(
        CLEANUP_AGE_HINT.to_owned(),
    )
}

fn unit_of(c: char) -> (r: Option<u64>)
    ensures
        match r {
            Some(n) => unit_seconds(c) == Some(n as nat),
            None => unit_seconds(c) is None,
        },
{
    if c == 's' || c == 'S' {
        Some(1)
    } else if c == 'm' || c == 'M' {
        Some(60)
    } else if c == 'h' || c == 'H' {
        Some(3600)
    } else if c == 'd' || c == 'D' {
        Some(86400)
    } else {
        None
    }
}

fn letter(c: char) -> (r: bool)
    ensures
        r == is_letter(c),
{
    let n: u32 = c as u32;
    (97 <= n && n <= 122) || (65 <= n && n <= 90)
}

/// Reads an age. It is refused when the number or the suffix is not one, and when the span
/// does not fit in seconds.
pub fn parse_age(input: &str) -> (r: Result<Duration>)
    ensures
        match r {
            Ok(d) => age_seconds(input@) == Some(d.seconds),
            Err(e) => age_seconds(input@) is None && is_invalid_age(e, input@),
        },
{
    let mut t = text::trimmed(input);
    let mut unit: u64 = 1;
    if t.len() > 0 && letter(t[t.len() - 1]) {
        let last = t[t.len() - 1];
        match unit_of(last) {
            Some(u) => {
                unit = u;
            },
            None => {
                return Err(invalid(input));
            },
        }
        let _ = t.pop();
        proof {
            assert(t@ =~= trim(input@).drop_last());
        }
    }
    let spelled = text::string_of(t.as_slice(), 0, t.len());
    proof {
        assert(t@.subrange(0, t@.len() as int) =~= t@);
    }
    let number = text::trimmed(spelled.as_str());
    match text::parse_number(number.as_slice()) {
        None => Err(invalid(input)),
        Some(n) => match n.checked_mul(unit) {
            None => Err(invalid(input)),
            Some(seconds) => Ok(Duration::from_secs(seconds)),
        },
    }
}

/// Every span of time that the program prints is an age that reads back as the same span.
pub proof fn printed_spans_are_ages(seconds: u64)
    ensures
        age_seconds(duration_text(seconds as nat)) == Some(seconds),
{
    let s = seconds as nat;
    let (n, c, u): (nat, char, nat) = if s > 0 && s % 86400 == 0 {
        (s / 86400, 'd', 86400)
    } else if s > 0 && s % 3600 == 0 {
        (s / 3600, 'h', 3600)
    } else if s > 0 && s % 60 == 0 {
        (s / 60, 'm', 60)
    } else {
        (s, 's', 1)
    };
    let d = digits(n);
    let printed = d.push(c);
    assert(duration_text(s) == printed);
    text::lemma_number_of_digits(n);
    assert(text::is_digit(d[0]));
    assert(text::is_digit(d[d.len() - 1]));
    assert(printed[0] == d[0]);
    text::lemma_trim_of_trimmed(printed);
    assert(printed.drop_last() =~= d);
    text::lemma_trim_of_trimmed(d);
    text::lemma_parsed_number_of_digits(n as u64);
    assert(n * u == s);
}

/// A number with a unit behind it is that many of the unit, in either case of the letter: seconds,
/// minutes, hours or days. A number alone is seconds. A span that does not fit is refused.
pub proof fn an_age_is_a_number_of_its_unit(n: u64, c: char)
    ensures
        age_seconds(digits(n as nat)) == Some(n),
        ({
            let unit: nat = if c == 's' || c == 'S' {
                1
            } else if c == 'm' || c == 'M' {
                60
            } else if c == 'h' || c == 'H' {
                60 * 60
            } else if c == 'd' || c == 'D' {
                24 * 60 * 60
            } else {
                0
            };
            let spelled = digits(n as nat).push(c);
            &&& unit > 0 && n * unit <= u64::MAX ==> age_seconds(spelled) == Some((n * unit) as u64)
            &&& unit > 0 && n * unit > u64::MAX ==> age_seconds(spelled) is None
            &&& unit == 0 && is_letter(c) ==> age_seconds(spelled) is None
        }),
{
    let d = digits(n as nat);
    let spelled = d.push(c);
    text::lemma_number_of_digits(n as nat);
    assert(text::is_digit(d[0]));
    assert(text::is_digit(d[d.len() - 1]));
    text::lemma_trim_of_trimmed(d);
    text::lemma_parsed_number_of_digits(n);
    assert(spelled[0] == d[0]);
    assert(spelled.drop_last() =~= d);
    assert(!is_letter(d.last()));
    assert(n * 1nat == n);
    if is_letter(c) {
        text::lemma_trim_of_trimmed(spelled);
    }
}

/// A text without a number in it is no age, and neither is one with a sign.
pub proof fn an_age_needs_a_number(c: char, n: nat)
    ensures
        age_seconds(Seq::empty()) is None,
        is_letter(c) ==> age_seconds(seq![c]) is None,
        age_seconds(seq!['-'] + digits(n)) is None,
{
    let none = Seq::<char>::empty();
    assert(trim(none) =~= none);
    if is_letter(c) {
        text::lemma_trim_of_trimmed(seq![c]);
        assert(seq![c].drop_last() =~= none);
    }
    let d = digits(n);
    let s = seq!['-'] + d;
    text::lemma_number_of_digits(n);
    assert(text::is_digit(d[d.len() - 1]));
    assert(s.last() == d.last());
    text::lemma_trim_of_trimmed(s);
    assert(s[0] == '-');
    assert(!text::is_digit(s[0]));
}

/// An age that cannot be read is a mistake in the request, told with the text as it was given.
pub proof fn an_unread_age_is_a_mistake(e: CliError, input: Seq<char>)
    requires
        is_invalid_age(e, input),
    ensures
        e.code == ExitCode::Usage,
        e.message@ == "'"@ + input + "' is not a valid age"@,
        e.hint is Some,
{
}

} // verus!
