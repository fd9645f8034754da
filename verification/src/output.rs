//! How numbers are shown to a person, and how the sizes a person types are read.
use vstd::prelude::*;
use vstd::string::StringExecFns;

use crate::text;
use crate::text::{decimal, digit_char, digits, parsed_number, trim};

verus! {

/// Which powers the size suffixes stand for.
#[derive(Clone, Copy, Debug, PartialEq, Eq, Structural)]
pub enum Units {
    /// Powers of 1024: `KiB`, `MiB`, ...
    Binary,
    /// Powers of 1000: `kB`, `MB`, ...
    Decimal,
}

/// The shape of a command's output.
#[derive(Clone, Copy, Debug, PartialEq, Eq, Structural)]
pub enum Format {
    Text,
    Json,
    JsonLines,
}

/// How loud a line on the error stream is.
#[derive(Clone, Copy, Debug, PartialEq, Eq, Structural)]
pub enum Level {
    Info,
    Success,
    Warn,
    Error,
}

/// One line of commentary for the error stream.
#[derive(Debug)]
pub struct Notice {
    pub level: Level,
    pub message: String,
}

impl Notice {
    pub open spec fn is(self, level: Level, message: Seq<char>) -> bool {
        self.level == level && self.message@ == message
    }

    pub fn new(level: Level, message: String) -> (n: Notice)
        ensures
            n.is(level, message@),
    {
        Notice { level, message }
    }
}

/// The views of notices.
pub open spec fn notice_views(s: Seq<Notice>) -> Seq<(Level, Seq<char>)> {
    s.map_values(|n: Notice| (n.level, n.message@))
}

impl Units {
    /// The factor from one suffix to the next.
    pub open spec fn factor(self) -> nat {
        match self {
            Units::Binary => 1024,
            Units::Decimal => 1000,
        }
    }

    /// The suffix for the `k`-th power of the factor.
    pub open spec fn suffix(self, k: nat) -> Seq<char> {
        match self {
            Units::Binary => if k == 0 {
                " B"@
            } else if k == 1 {
                " KiB"@
            } else if k == 2 {
                " MiB"@
            } else if k == 3 {
                " GiB"@
            } else if k == 4 {
                " TiB"@
            } else if k == 5 {
                " PiB"@
            } else {
                " EiB"@
            },
            Units::Decimal => if k == 0 {
                " B"@
            } else if k == 1 {
                " kB"@
            } else if k == 2 {
                " MB"@
            } else if k == 3 {
                " GB"@
            } else if k == 4 {
                " TB"@
            } else if k == 5 {
                " PB"@
            } else {
                " EB"@
            },
        }
    }

    fn suffix_text(self, k: u64) -> (s: &'static str)
        ensures
            s@ == self.suffix(k as nat),
    {
        match self {
            Units::Binary => if k == 0 {
                " B"
            } else if k == 1 {
                " KiB"
            } else if k == 2 {
                " MiB"
            } else if k == 3 {
                " GiB"
            } else if k == 4 {
                " TiB"
            } else if k == 5 {
                " PiB"
            } else {
                " EiB"
            },
            Units::Decimal => if k == 0 {
                " B"
            } else if k == 1 {
                " kB"
            } else if k == 2 {
                " MB"
            } else if k == 3 {
                " GB"
            } else if k == 4 {
                " TB"
            } else if k == 5 {
                " PB"
            } else {
                " EB"
            },
        }
    }
}

/// The largest `k` for which the `k`-th power of `factor` is at most `n`; 0 where there is none.
pub open spec fn magnitude(n: nat, factor: nat) -> nat
    decreases n,
{
    if factor <= 1 || n < factor {
        0
    } else {
        proof {
            vstd::arithmetic::div_mod::lemma_div_decreases(n as int, factor as int);
        }
        1 + magnitude(n / factor, factor)
    }
}

/// The `k`-th power of `factor`.
pub open spec fn power(factor: nat, k: nat) -> nat
    decreases k,
{
    if k == 0 {
        1
    } else {
        factor * power(factor, (k - 1) as nat)
    }
}

/// `n / d` to the nearest integer, halves up.
pub open spec fn rounded(n: nat, d: nat) -> nat {
    (n + d / 2) / d
}

/// A number of hundredths with two decimals.
pub open spec fn two_decimals(hundredths: nat) -> Seq<char> {
    digits(hundredths / 100) + "."@ + seq![
        digit_char((hundredths / 10 % 10) as int),
        digit_char((hundredths % 10) as int),
    ]
}

/// A number of tenths with one decimal.
pub open spec fn one_decimal(tenths: nat) -> Seq<char> {
    digits(tenths / 10) + "."@ + seq![digit_char((tenths % 10) as int)]
}

/// How a number of bytes is shown: whole below the first suffix, otherwise with two decimals
/// below ten and one from ten up.
pub open spec fn size_text(n: nat, units: Units) -> Seq<char> {
    let k = magnitude(n, units.factor());
    if k == 0 {
        digits(n) + units.suffix(0)
    } else {
        let unit = power(units.factor(), k);
        if rounded(100 * n, unit) < 1000 {
            two_decimals(rounded(100 * n, unit)) + units.suffix(k)
        } else {
            one_decimal(rounded(10 * n, unit)) + units.suffix(k)
        }
    }
}

fn push_digit(s: &mut String, d: u64)
    requires
        d < 10,
    ensures
        final(s)@ == old(s)@.push(digit_char(d as int)),
{
    let n: u8 = 48 + d as u8;
    s.push(n as char);
}

proof fn lemma_magnitude_step(n: nat, factor: nat, k: nat, unit: nat)
    requires
        factor > 1,
        unit == power(factor, k),
        n / unit >= factor,
    ensures
        power(factor, k + 1) == unit * factor,
        n / (unit * factor) == (n / unit) / factor,
        unit > 0,
{
    lemma_power_positive(factor, k);
    assert(power(factor, k + 1) == factor * power(factor, k));
    assert(factor * unit == unit * factor) by (nonlinear_arith);
    vstd::arithmetic::div_mod::lemma_div_denominator(n as int, unit as int, factor as int);
}

proof fn lemma_power_positive(factor: nat, k: nat)
    requires
        factor > 0,
    ensures
        power(factor, k) > 0,
    decreases k,
{
    if k > 0 {
        lemma_power_positive(factor, (k - 1) as nat);
        let p = power(factor, (k - 1) as nat);
        assert(factor * p > 0) by (nonlinear_arith)
            requires
                factor > 0,
                p > 0,
        ;
    }
}

/// A number of bytes in the given units.
pub fn bytes(n: u64, units: Units) -> (s: String)
    ensures
        s@ == size_text(n as nat, units),
{
    let factor: u64 = match units {
        Units::Binary => 1024,
        Units::Decimal => 1000,
    };
    let mut k: u64 = 0;
    let mut unit: u128 = 1;
    let mut rest: u64 = n;
    while rest >= factor
        invariant
            factor == units.factor(),
            factor == 1024 || factor == 1000,
            unit == power(factor as nat, k as nat),
            unit <= n || unit == 1,
            unit >= 1,
            rest as nat == n as nat / unit as nat,
            magnitude(n as nat, factor as nat) == k + magnitude(rest as nat, factor as nat),
            k + rest <= n,
        decreases rest,
    {
        proof {
            lemma_magnitude_step(n as nat, factor as nat, k as nat, unit as nat);
            assert(n as nat / unit as nat >= factor);
            assert(unit * factor <= n) by (nonlinear_arith)
                requires
                    n as nat / unit as nat >= factor,
                    unit > 0,
            ;
        }
        unit = unit * factor as u128;
        rest = rest / factor;
        k = k + 1;
    }
    if k == 0 {
        let mut s = decimal(n);
        s.append(units.suffix_text(0));
        return s;
    }
    let hundredths: u128 = (100 * n as u128 + unit / 2) / unit;
    let mut s: String;
    proof {
        let a = 100 * n as int + unit as int / 2;
        assert(a / unit as int <= a) by (nonlinear_arith)
            requires
                a >= 0,
                unit >= 1,
        ;
        lemma_ratio_bound(n as int, unit as int, factor as int);
    }
    if hundredths < 1000 {
        let h = hundredths as u64;
        s = decimal(h / 100);
        s.append(".");
        push_digit(&mut s, h / 10 % 10);
        push_digit(&mut s, h % 10);
        proof {
            assert(s@ =~= two_decimals(h as nat));
        }
    } else {
        let tenths: u128 = (10 * n as u128 + unit / 2) / unit;
        let t = tenths as u64;
        s = decimal(t / 10);
        s.append(".");
        push_digit(&mut s, t % 10);
        proof {
            assert(s@ =~= one_decimal(t as nat));
        }
    }
    s.append(units.suffix_text(k));
    s
}

proof fn lemma_ratio_bound(n: int, unit: int, factor: int)
    requires
        n >= 0,
        unit >= 1,
        n / unit < factor,
        factor <= 1024,
    ensures
        (10 * n + unit / 2) / unit <= 20000,
{
    assert(n < factor * unit) by (nonlinear_arith)
        requires
            n / unit < factor,
            unit >= 1,
            n >= 0,
    ;
    assert(n <= 1024 * unit) by (nonlinear_arith)
        requires
            n < factor * unit,
            factor <= 1024,
            unit >= 1,
    ;
    assert((10 * n + unit / 2) / unit <= 20000) by (nonlinear_arith)
        requires
            n <= 1024 * unit,
            unit >= 1,
            n >= 0,
    ;
}

/// How an unknown number of bytes is shown.
pub open spec fn size_or_unknown(n: Option<u64>, units: Units) -> Seq<char> {
    match n {
        Some(b) => size_text(b as nat, units),
        None => "unknown"@,
    }
}

/// A number of bytes, or a word where it is not known.
pub fn bytes_or_unknown(n: Option<u64>, units: Units) -> (s: String)
    ensures
        s@ == size_or_unknown(n, units),
{
    match n {
        Some(b) => bytes(b, units),
        None => "unknown".to_owned(),
    }
}

/// A number with a comma between its groups of three digits.
pub open spec fn grouped(n: nat) -> Seq<char>
    decreases n,
{
    if n < 1000 {
        digits(n)
    } else {
        grouped(n / 1000) + ","@ + seq![
            digit_char((n / 100 % 10) as int),
            digit_char((n / 10 % 10) as int),
            digit_char((n % 10) as int),
        ]
    }
}

/// A count, in groups of three digits.
pub fn count(n: u64) -> (s: String)
    ensures
        s@ == grouped(n as nat),
    decreases n,
{
    if n < 1000 {
        decimal(n)
    } else {
        let mut s = count(n / 1000);
        s.append(",");
        push_digit(&mut s, n / 100 % 10);
        push_digit(&mut s, n / 10 % 10);
        push_digit(&mut s, n % 10);
        proof {
            assert(s@ =~= grouped(n as nat));
        }
        s
    }
}

/// How a span of seconds is shown: in the largest of days, hours, minutes and seconds that
/// it is a whole number of.
pub open spec fn duration_text(seconds: nat) -> Seq<char> {
    if seconds > 0 && seconds % 86400 == 0 {
        digits(seconds / 86400).push('d')
    } else if seconds > 0 && seconds % 3600 == 0 {
        digits(seconds / 3600).push('h')
    } else if seconds > 0 && seconds % 60 == 0 {
        digits(seconds / 60).push('m')
    } else {
        digits(seconds).push('s')
    }
}

/// A span of seconds.
pub fn duration(seconds: u64) -> (s: String)
    ensures
        s@ == duration_text(seconds as nat),
{
    let mut s: String;
    if seconds > 0 && seconds % 86400 == 0 {
        s = decimal(seconds / 86400);
        s.push('d');
    } else if seconds > 0 && seconds % 3600 == 0 {
        s = decimal(seconds / 3600);
        s.push('h');
    } else if seconds > 0 && seconds % 60 == 0 {
        s = decimal(seconds / 60);
        s.push('m');
    } else {
        s = decimal(seconds);
        s.push('s');
    }
    s
}

/// How many bytes a size suffix stands for.
pub open spec fn suffix_bytes(c: char) -> Option<nat> {
    if c == 'b' || c == 'B' {
        Some(1)
    } else if c == 'k' || c == 'K' {
        Some(1024)
    } else if c == 'm' || c == 'M' {
        Some(1048576)
    } else if c == 'g' || c == 'G' {
        Some(1073741824)
    } else if c == 't' || c == 'T' {
        Some(1099511627776)
    } else if c == 'p' || c == 'P' {
        Some(1125899906842624)
    } else {
        None
    }
}

/// The number of bytes that a size spells: digits, and behind them an optional suffix.
pub open spec fn size_of_text(s: Seq<char>) -> Option<u64> {
    let t = trim(s);
    if t.len() == 0 {
        None
    } else {
        match suffix_bytes(t.last()) {
            None => parsed_number(t),
            Some(unit) => match parsed_number(t.drop_last()) {
                Some(n) => if n * unit <= u64::MAX {
                    Some((n * unit) as u64)
                } else {
                    None
                },
                None => None,
            },
        }
    }
}

fn suffix_value(c: char) -> (r: Option<u64>)
    ensures
        match r {
            Some(n) => suffix_bytes(c) == Some(n as nat),
            None => suffix_bytes(c) is None,
        },
{
    if c == 'b' || c == 'B' {
        Some(1)
    } else if c == 'k' || c == 'K' {
        Some(1024)
    } else if c == 'm' || c == 'M' {
        Some(1048576)
    } else if c == 'g' || c == 'G' {
        Some(1073741824)
    } else if c == 't' || c == 'T' {
        Some(1099511627776)
    } else if c == 'p' || c == 'P' {
        Some(1125899906842624)
    } else {
        None
    }
}

/// Reads a size such as `1k` or `10M`. Suffixes are powers of 1024.
pub fn parse_size(raw: &str) -> (r: core::result::Result<u64, String>)
    ensures
        match r {
            Ok(n) => size_of_text(raw@) == Some(n),
            Err(message) => size_of_text(raw@) is None && message@ == "'"@ + raw@
                + "' is not a valid size"@,
        },
{
    let t = text::trimmed(raw);
    let mut value: Option<u64> = None;
    if t.len() > 0 {
        let last = t[t.len() - 1];
        match suffix_value(last) {
            None => {
                value = text::parse_number(t.as_slice());
            },
            Some(unit) => {
                let mut number = t;
                let _ = number.pop();
                proof {
                    assert(number@ =~= trim(raw@).drop_last());
                }
                match text::parse_number(number.as_slice()) {
                    None => {},
                    Some(n) => {
                        value = n.checked_mul(unit);
                    },
                }
            },
        }
    }
    match value {
        Some(n) => Ok(n),
        None => Err(text::cat3("'", raw, "' is not a valid size")),
    }
}

/// A size is a number of bytes, or of the unit behind it, which is a power of 1024 in either case
/// of the letter. A size that does not fit is refused, and so is any other letter.
pub proof fn a_size_is_a_number_of_its_unit(n: u64, c: char)
    ensures
        size_of_text(digits(n as nat)) == Some(n),
        ({
            let unit: nat = if c == 'b' || c == 'B' {
                1
            } else if c == 'k' || c == 'K' {
                1024
            } else if c == 'm' || c == 'M' {
                1024 * 1024
            } else if c == 'g' || c == 'G' {
                1024 * 1024 * 1024
            } else if c == 't' || c == 'T' {
                1024 * 1024 * 1024 * 1024
            } else if c == 'p' || c == 'P' {
                1024 * 1024 * 1024 * 1024 * 1024
            } else {
                0
            };
            let spelled = digits(n as nat).push(c);
            &&& unit > 0 && n * unit <= u64::MAX ==> size_of_text(spelled) == Some(
                (n * unit) as u64,
            )
            &&& unit > 0 && n * unit > u64::MAX ==> size_of_text(spelled) is None
            &&& unit == 0 && !text::is_digit(c) && !text::is_space(c) ==> size_of_text(spelled)
                is None
        }),
        size_of_text(Seq::empty()) is None,
{
    let d = digits(n as nat);
    let spelled = d.push(c);
    text::lemma_number_of_digits(n as nat);
    assert(text::is_digit(d[0]));
    assert(text::is_digit(d[d.len() - 1]));
    text::lemma_trim_of_trimmed(d);
    text::lemma_parsed_number_of_digits(n);
    assert(spelled[0] == d[0]);
    assert(spelled.drop_last() =~= d);
    assert(trim(Seq::<char>::empty()) =~= Seq::<char>::empty());
    if !text::is_space(c) {
        text::lemma_trim_of_trimmed(spelled);
        if !text::is_digit(c) {
            assert(spelled.last() == c);
            assert(!text::is_digit(spelled[spelled.len() - 1]));
        }
    }
}

/// The unit that a size is shown in is the largest one that is not larger than the size.
pub proof fn a_size_is_shown_in_the_largest_unit(n: nat, factor: nat)
    requires
        factor > 1,
    ensures
        n > 0 ==> power(factor, magnitude(n, factor)) <= n,
        n < power(factor, magnitude(n, factor) + 1),
    decreases n,
{
    if n >= factor {
        let m = n / factor;
        vstd::arithmetic::div_mod::lemma_div_decreases(n as int, factor as int);
        a_size_is_shown_in_the_largest_unit(m, factor);
        let k = magnitude(m, factor);
        assert(magnitude(n, factor) == k + 1);
        let p = power(factor, k);
        let q = power(factor, k + 1);
        assert(q == factor * p);
        assert(power(factor, k + 2) == factor * q);
        assert(m > 0) by (nonlinear_arith)
            requires
                m == n / factor,
                n >= factor,
                factor > 1,
        ;
        assert(factor * p <= n) by (nonlinear_arith)
            requires
                p <= m,
                m == n / factor,
                factor > 1,
        ;
        assert(n < factor * q) by (nonlinear_arith)
            requires
                m < q,
                m == n / factor,
                factor > 1,
        ;
    } else {
        assert(power(factor, 1) == factor * power(factor, 0));
        assert(factor * 1 == factor) by (nonlinear_arith);
    }
}

/// A rounded quotient is off by no more than half.
pub proof fn rounding_is_off_by_half_at_most(n: nat, d: nat)
    requires
        d > 0,
    ensures
        2 * d * rounded(n, d) <= 2 * n + d,
        2 * n < 2 * d * rounded(n, d) + d + 1,
{
    let r = rounded(n, d);
    let h = d / 2;
    assert(d * r <= n + h && n + h < d * r + d) by (nonlinear_arith)
        requires
            r == (n + h) / d,
            d > 0,
    ;
    assert(2 * d * r == 2 * (d * r)) by (nonlinear_arith);
}

/// A grouped number has the digits of the number, with commas between them and nothing else.
pub proof fn grouping_adds_only_commas(n: nat)
    ensures
        grouped(n).filter(|c: char| c != ',') == digits(n),
        n < 1000 ==> grouped(n) == digits(n),
        n >= 1000 ==> grouped(n)[grouped(n).len() - 4] == ',',
    decreases n,
{
    let keep = |c: char| c != ',';
    reveal_strlit(",");
    text::lemma_number_of_digits(n);
    if n < 1000 {
        lemma_filter_all(digits(n), keep);
    } else {
        grouping_adds_only_commas(n / 1000);
        let front = grouped(n / 1000);
        let a = digit_char((n / 100 % 10) as int);
        let b = digit_char((n / 10 % 10) as int);
        let c = digit_char((n % 10) as int);
        let tail = seq![a, b, c];
        assert(grouped(n) =~= front.push(',').push(a).push(b).push(c));
        lemma_filter_push(front, ',', keep);
        lemma_filter_push(front.push(','), a, keep);
        lemma_filter_push(front.push(',').push(a), b, keep);
        lemma_filter_push(front.push(',').push(a).push(b), c, keep);
        assert(n / 10 / 10 == n / 100 && n / 100 / 10 == n / 1000);
        assert(digits(n) == digits(n / 10).push(c));
        assert(digits(n / 10) == digits(n / 100).push(b));
        assert(digits(n / 100) == digits(n / 1000).push(a));
    }
}

proof fn lemma_filter_push(s: Seq<char>, c: char, keep: spec_fn(char) -> bool)
    ensures
        s.push(c).filter(keep) == (if keep(c) {
            s.filter(keep).push(c)
        } else {
            s.filter(keep)
        }),
{
    reveal(Seq::filter);
    assert(s.push(c).drop_last() =~= s);
}

proof fn lemma_filter_all(s: Seq<char>, keep: spec_fn(char) -> bool)
    requires
        forall|i: int| 0 <= i < s.len() ==> keep(#[trigger] s[i]),
    ensures
        s.filter(keep) == s,
    decreases s.len(),
{
    reveal(Seq::filter);
    if s.len() > 0 {
        let front = s.drop_last();
        assert forall|i: int| 0 <= i < front.len() implies keep(#[trigger] front[i]) by {
            assert(front[i] == s[i]);
        }
        lemma_filter_all(front, keep);
        assert(keep(s[s.len() - 1]));
        assert(front.push(s.last()) =~= s);
    }
}

/// A line has its level and its message.
pub proof fn a_notice_has_its_two_parts(n: Notice, level: Level, message: Seq<char>)
    ensures
        n.is(level, message) <==> n.level == level && n.message@ == message,
{
}

/// The views of lines are the lines, one for one and in order.
pub proof fn notices_are_viewed_one_by_one(s: Seq<Notice>, i: int)
    ensures
        notice_views(s).len() == s.len(),
        0 <= i < s.len() ==> notice_views(s)[i].0 == s[i].level && notice_views(s)[i].1
            == s[i].message@,
{
}

/// Binary sizes go by 1024 and are marked so; decimal ones go by 1000.
pub proof fn units_have_their_factors_and_suffixes()
    ensures
        Units::Binary.factor() == 1024,
        Units::Decimal.factor() == 1000,
        Units::Binary.suffix(0) == " B"@ && Units::Decimal.suffix(0) == " B"@,
        Units::Binary.suffix(1) == " KiB"@ && Units::Decimal.suffix(1) == " kB"@,
        Units::Binary.suffix(2) == " MiB"@ && Units::Decimal.suffix(2) == " MB"@,
        Units::Binary.suffix(3) == " GiB"@ && Units::Decimal.suffix(3) == " GB"@,
        Units::Binary.suffix(4) == " TiB"@ && Units::Decimal.suffix(4) == " TB"@,
        Units::Binary.suffix(5) == " PiB"@ && Units::Decimal.suffix(5) == " PB"@,
        Units::Binary.suffix(6) == " EiB"@ && Units::Decimal.suffix(6) == " EB"@,
{
}

/// A size below the first unit is shown whole; from there on it is shown in its unit, rounded,
/// with two decimals below ten and with one from ten up. What is not known is said to be unknown.
pub proof fn a_size_is_shown_with_its_unit(n: nat, units: Units)
    ensures
        n < units.factor() ==> size_text(n, units) == digits(n) + " B"@,
        ({
            let k = magnitude(n, units.factor());
            let unit = power(units.factor(), k);
            let hundredths = (100 * n + unit / 2) / unit;
            let tenths = (10 * n + unit / 2) / unit;
            &&& n >= units.factor() && hundredths < 1000 ==> size_text(n, units) == digits(
                hundredths / 100,
            ) + "."@ + seq![
                digit_char((hundredths / 10 % 10) as int),
                digit_char((hundredths % 10) as int),
            ] + units.suffix(k)
            &&& n >= units.factor() && hundredths >= 1000 ==> size_text(n, units) == digits(
                tenths / 10,
            ) + "."@ + seq![digit_char((tenths % 10) as int)] + units.suffix(k)
        }),
        size_or_unknown(None, units) == "unknown"@,
        n <= u64::MAX ==> size_or_unknown(Some(n as u64), units) == size_text(n, units),
{
}

} // verus!
