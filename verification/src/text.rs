//! Text as sequences of characters: comparison, concatenation, trimming and numbers.
//!
//! Every contract in the crate speaks of a string by its view, a `Seq<char>`. Order is by
//! character, which for valid text is also the order of the encoded bytes.
use vstd::prelude::*;
use vstd::string::StrSliceExecFns;
use vstd::string::StringExecFns;

verus! {

/// `String::push` appends one character at the end of the string.
pub assume_specification[ String::push ](s: &mut String, c: char)
    ensures
        final(s)@ == old(s)@.push(c),
;

/// The views of a sequence of strings.
pub open spec fn views(s: Seq<String>) -> Seq<Seq<char>> {
    s.map_values(|t: String| t@)
}

/// The view of an optional string.
pub open spec fn view_option(s: Option<String>) -> Option<Seq<char>> {
    match s {
        Some(t) => Some(t@),
        None => None,
    }
}

/// Whether `a` comes strictly before `b`, comparing character by character.
pub open spec fn precedes(a: Seq<char>, b: Seq<char>) -> bool
    decreases a.len(),
{
    if b.len() == 0 {
        false
    } else if a.len() == 0 {
        true
    } else if a[0] != b[0] {
        (a[0] as int) < (b[0] as int)
    } else {
        precedes(a.drop_first(), b.drop_first())
    }
}

pub proof fn lemma_precedes_irreflexive(a: Seq<char>)
    ensures
        !precedes(a, a),
    decreases a.len(),
{
    if a.len() > 0 {
        lemma_precedes_irreflexive(a.drop_first());
    }
}

pub proof fn lemma_precedes_transitive(a: Seq<char>, b: Seq<char>, c: Seq<char>)
    requires
        precedes(a, b),
        precedes(b, c),
    ensures
        precedes(a, c),
    decreases a.len(),
{
    if a.len() > 0 && a[0] == b[0] && b[0] == c[0] {
        lemma_precedes_transitive(a.drop_first(), b.drop_first(), c.drop_first());
    }
}

pub proof fn lemma_precedes_total(a: Seq<char>, b: Seq<char>)
    ensures
        precedes(a, b) || precedes(b, a) || a == b,
    decreases a.len(),
{
    if a.len() > 0 && b.len() > 0 && a[0] == b[0] {
        lemma_precedes_total(a.drop_first(), b.drop_first());
        if a.drop_first() == b.drop_first() {
            assert(a =~= seq![a[0]] + a.drop_first());
            assert(b =~= seq![b[0]] + b.drop_first());
        }
    } else if a.len() == 0 && b.len() == 0 {
        assert(a =~= b);
    }
}

/// The characters of a string.
pub fn chars_of(s: &str) -> (v: Vec<char>)
    ensures
        v@ == s@,
{
    let mut v: Vec<char> = Vec::new();
    for c in it: s.chars()
        invariant
            v@ == s@.take(it.index()),
            it.seq() == s@,
    {
        v.push(c);
    }
    v
}

/// The string made of `v[from..to]`.
pub fn string_of(v: &[char], from: usize, to: usize) -> (s: String)
    requires
        from <= to <= v@.len(),
    ensures
        s@ == v@.subrange(from as int, to as int),
{
    let mut s = String::new();
    let mut i: usize = from;
    while i < to
        invariant
            from <= i <= to <= v@.len(),
            s@ == v@.subrange(from as int, i as int),
        decreases to - i,
    {
        s.push(v[i]);
        i = i + 1;
        assert(v@.subrange(from as int, i as int) =~= v@.subrange(from as int, i - 1).push(
            v@[i - 1],
        ));
    }
    s
}

/// The code point of a character.
pub fn code(c: char) -> (n: u32)
    ensures
        n as int == c as int,
{
    c as u32
}

/// Whether two strings are equal.
pub fn same(a: &str, b: &str) -> (r: bool)
    ensures
        r == (a@ == b@),
{
    a.to_owned() == b.to_owned()
}

/// Whether `a` comes strictly before `b`.
pub fn before(a: &str, b: &str) -> (r: bool)
    ensures
        r == precedes(a@, b@),
{
    let x = chars_of(a);
    let y = chars_of(b);
    let mut i: usize = 0;
    proof {
        assert(x@.skip(0) =~= x@);
        assert(y@.skip(0) =~= y@);
    }
    while i < x.len() && i < y.len() && x[i] == y[i]
        invariant
            x@ == a@,
            y@ == b@,
            i <= x.len(),
            i <= y.len(),
            precedes(a@, b@) == precedes(x@.skip(i as int), y@.skip(i as int)),
        decreases x.len() - i,
    {
        proof {
            assert(x@.skip(i as int).drop_first() =~= x@.skip(i + 1));
            assert(y@.skip(i as int).drop_first() =~= y@.skip(i + 1));
        }
        i = i + 1;
    }
    if i == y.len() {
        false
    } else if i == x.len() {
        true
    } else {
        code(x[i]) < code(y[i])
    }
}

pub fn cat2(a: &str, b: &str) -> (r: String)
    ensures
        r@ == a@ + b@,
{
    let mut r = a.to_owned();
    r.append(b);
    r
}

pub fn cat3(a: &str, b: &str, c: &str) -> (r: String)
    ensures
        r@ == a@ + b@ + c@,
{
    let mut r = cat2(a, b);
    r.append(c);
    r
}

pub fn cat4(a: &str, b: &str, c: &str, d: &str) -> (r: String)
    ensures
        r@ == a@ + b@ + c@ + d@,
{
    let mut r = cat3(a, b, c);
    r.append(d);
    r
}

pub fn cat5(a: &str, b: &str, c: &str, d: &str, e: &str) -> (r: String)
    ensures
        r@ == a@ + b@ + c@ + d@ + e@,
{
    let mut r = cat4(a, b, c, d);
    r.append(e);
    r
}

/// A copy of a list of strings.
pub fn copied(v: &Vec<String>) -> (r: Vec<String>)
    ensures
        views(r@) == views(v@),
{
    let r = v.clone();
    proof {
        assert(views(r@) =~= views(v@));
    }
    r
}

/// Whether a character is white space in the sense of the Unicode property.
pub open spec fn is_space(c: char) -> bool {
    let n = c as int;
    ||| 0x9 <= n <= 0xd
    ||| n == 0x20
    ||| n == 0x85
    ||| n == 0xa0
    ||| n == 0x1680
    ||| 0x2000 <= n <= 0x200a
    ||| n == 0x2028
    ||| n == 0x2029
    ||| n == 0x202f
    ||| n == 0x205f
    ||| n == 0x3000
}

fn space(c: char) -> (r: bool)
    ensures
        r == is_space(c),
{
    let n: u32 = c as u32;
    (0x9 <= n && n <= 0xd) || n == 0x20 || n == 0x85 || n == 0xa0 || n == 0x1680 || (0x2000 <= n
        && n <= 0x200a) || n == 0x2028 || n == 0x2029 || n == 0x202f || n == 0x205f || n == 0x3000
}

/// How many characters at the front of `s` are white space.
pub open spec fn leading_spaces(s: Seq<char>) -> nat
    decreases s.len(),
{
    if s.len() > 0 && is_space(s[0]) {
        1 + leading_spaces(s.drop_first())
    } else {
        0
    }
}

/// How many characters of `s` are left when white space is dropped from the end.
pub open spec fn trimmed_end(s: Seq<char>) -> nat
    decreases s.len(),
{
    if s.len() > 0 && is_space(s.last()) {
        trimmed_end(s.drop_last())
    } else {
        s.len()
    }
}

/// `s` without the white space at its two ends.
pub open spec fn trim(s: Seq<char>) -> Seq<char> {
    let front = s.skip(leading_spaces(s) as int);
    front.take(trimmed_end(front) as int)
}

pub proof fn lemma_leading_spaces_bound(s: Seq<char>)
    ensures
        leading_spaces(s) <= s.len(),
    decreases s.len(),
{
    if s.len() > 0 && is_space(s[0]) {
        lemma_leading_spaces_bound(s.drop_first());
    }
}

pub proof fn lemma_trimmed_end_bound(s: Seq<char>)
    ensures
        trimmed_end(s) <= s.len(),
    decreases s.len(),
{
    if s.len() > 0 && is_space(s.last()) {
        lemma_trimmed_end_bound(s.drop_last());
    }
}

/// Text with no white space at either end is what trimming leaves of it.
pub proof fn lemma_trim_of_trimmed(s: Seq<char>)
    requires
        s.len() > 0 ==> !is_space(s[0]) && !is_space(s.last()),
    ensures
        trim(s) == s,
{
    assert(s.skip(0) =~= s);
    assert(s.take(s.len() as int) =~= s);
}

/// What trimming leaves has no white space at either end.
pub proof fn lemma_trim_ends(s: Seq<char>)
    ensures
        trim(s).len() > 0 ==> !is_space(trim(s)[0]) && !is_space(trim(s).last()),
{
    lemma_leading_spaces_bound(s);
    let front = s.skip(leading_spaces(s) as int);
    lemma_trimmed_end_bound(front);
    lemma_leading_spaces_stop(s);
    lemma_trimmed_end_stop(front);
}

proof fn lemma_leading_spaces_stop(s: Seq<char>)
    ensures
        leading_spaces(s) < s.len() ==> !is_space(s[leading_spaces(s) as int]),
    decreases s.len(),
{
    if s.len() > 0 && is_space(s[0]) {
        lemma_leading_spaces_stop(s.drop_first());
    }
}

proof fn lemma_trimmed_end_stop(s: Seq<char>)
    ensures
        trimmed_end(s) > 0 ==> trimmed_end(s) <= s.len() && !is_space(s[trimmed_end(s) - 1]),
    decreases s.len(),
{
    if s.len() > 0 && is_space(s.last()) {
        lemma_trimmed_end_stop(s.drop_last());
    }
}

/// The text without the white space at its two ends.
pub fn trimmed(s: &str) -> (r: Vec<char>)
    ensures
        r@ == trim(s@),
{
    let v = chars_of(s);
    let mut from: usize = 0;
    proof {
        assert(v@.skip(0) =~= v@);
    }
    while from < v.len() && space(v[from])
        invariant
            v@ == s@,
            from <= v.len(),
            leading_spaces(v@) == from + leading_spaces(v@.skip(from as int)),
        decreases v.len() - from,
    {
        proof {
            assert(v@.skip(from as int).drop_first() =~= v@.skip(from + 1));
        }
        from = from + 1;
    }
    let ghost front = v@.skip(from as int);
    let mut to: usize = v.len();
    proof {
        assert(leading_spaces(v@) == from);
        assert(front.take(front.len() as int) =~= front);
    }
    while to > from && space(v[to - 1])
        invariant
            v@ == s@,
            from <= to <= v.len(),
            front == v@.skip(from as int),
            trimmed_end(front) == trimmed_end(front.take(to - from)),
        decreases to - from,
    {
        proof {
            assert(front.take(to - from).drop_last() =~= front.take(to - from - 1));
        }
        to = to - 1;
    }
    let mut r: Vec<char> = Vec::new();
    let mut i: usize = from;
    while i < to
        invariant
            from <= i <= to <= v.len(),
            r@ == v@.subrange(from as int, i as int),
        decreases to - i,
    {
        r.push(v[i]);
        i = i + 1;
    }
    proof {
        assert(trimmed_end(front) == to - from);
        assert(v@.subrange(from as int, to as int) =~= front.take(to - from));
    }
    r
}

/// The position of the last `c` in `s`, or -1 where there is none.
pub open spec fn last_of(s: Seq<char>, c: char) -> int
    decreases s.len(),
{
    if s.len() == 0 {
        -1
    } else if s.last() == c {
        s.len() - 1
    } else {
        last_of(s.drop_last(), c)
    }
}

/// The position of the first `c` in `s`; the length of `s` where there is none.
pub open spec fn first_of(s: Seq<char>, c: char) -> int
    decreases s.len(),
{
    if s.len() == 0 || s[0] == c {
        0
    } else {
        1 + first_of(s.drop_first(), c)
    }
}

/// What stands between the separators `c` of `s`.
pub open spec fn pieces(s: Seq<char>, c: char) -> Seq<Seq<char>>
    decreases s.len(),
{
    let i = last_of(s, c);
    if i < 0 || i >= s.len() {
        seq![s]
    } else {
        pieces(s.take(i), c).push(s.skip(i + 1))
    }
}

pub proof fn lemma_last_of(s: Seq<char>, c: char)
    ensures
        -1 <= last_of(s, c) < s.len(),
        last_of(s, c) >= 0 ==> s[last_of(s, c)] == c,
        forall|i: int| last_of(s, c) < i < s.len() ==> #[trigger] s[i] != c,
    decreases s.len(),
{
    if s.len() > 0 && s.last() != c {
        lemma_last_of(s.drop_last(), c);
        assert forall|i: int| last_of(s, c) < i < s.len() implies #[trigger] s[i] != c by {
            if i < s.len() - 1 {
                assert(s[i] == s.drop_last()[i]);
            }
        }
        if last_of(s, c) >= 0 {
            assert(s[last_of(s, c)] == s.drop_last()[last_of(s, c)]);
        }
    }
}

pub proof fn lemma_first_of(s: Seq<char>, c: char)
    ensures
        0 <= first_of(s, c) <= s.len(),
        first_of(s, c) < s.len() ==> s[first_of(s, c)] == c,
        forall|i: int| 0 <= i < first_of(s, c) ==> #[trigger] s[i] != c,
    decreases s.len(),
{
    if s.len() > 0 && s[0] != c {
        let t = s.drop_first();
        lemma_first_of(t, c);
        assert forall|i: int| 0 <= i < first_of(s, c) implies #[trigger] s[i] != c by {
            if i > 0 {
                assert(s[i] == t[i - 1]);
            }
        }
    }
}

/// The first `c` of `a c b` stands behind `a`, where `a` has none of its own.
pub proof fn lemma_first_of_concat(a: Seq<char>, b: Seq<char>, c: char)
    requires
        !a.contains(c),
    ensures
        first_of(a.push(c) + b, c) == a.len(),
    decreases a.len(),
{
    let s = a.push(c) + b;
    if a.len() == 0 {
        assert(s[0] == c);
    } else {
        assert(a.contains(a[0]));
        assert(s[0] == a[0]);
        assert(s.drop_first() =~= a.drop_first().push(c) + b);
        assert forall|x: char| a.drop_first().contains(x) implies a.contains(x) by {
            let i = choose|i: int| 0 <= i < a.drop_first().len() && a.drop_first()[i] == x;
            assert(a[i + 1] == x);
        }
        lemma_first_of_concat(a.drop_first(), b, c);
    }
}

/// The last `c` of `a c b` is found in `b`, or else stands before it.
pub proof fn lemma_last_of_concat(a: Seq<char>, b: Seq<char>, c: char)
    ensures
        last_of(a.push(c) + b, c) == a.len() + 1 + last_of(b, c),
    decreases b.len(),
{
    let s = a.push(c) + b;
    if b.len() == 0 {
        assert(s =~= a.push(c));
    } else {
        assert(s.last() == b.last());
        assert(s.drop_last() =~= a.push(c) + b.drop_last());
        lemma_last_of_concat(a, b.drop_last(), c);
    }
}

/// Adding a character at the end moves the last `c` only if it is one.
pub proof fn lemma_last_of_push(s: Seq<char>, c: char, x: char)
    ensures
        last_of(s.push(x), c) == (if x == c {
            s.len() as int
        } else {
            last_of(s, c)
        }),
{
    assert(s.push(x).drop_last() =~= s);
}

/// Text without a `c` has no last one, and is one piece.
pub proof fn lemma_one_piece(s: Seq<char>, c: char)
    requires
        !s.contains(c),
    ensures
        last_of(s, c) == -1,
        pieces(s, c) == seq![s],
{
    lemma_last_of(s, c);
    if last_of(s, c) >= 0 {
        assert(s.contains(s[last_of(s, c)]));
    }
}

/// The pieces of `a c b` are those of `a` and then `b`, where `b` has no `c`.
pub proof fn lemma_pieces_concat(a: Seq<char>, b: Seq<char>, c: char)
    requires
        !b.contains(c),
    ensures
        pieces(a.push(c) + b, c) == pieces(a, c).push(b),
{
    let s = a.push(c) + b;
    lemma_last_of_concat(a, b, c);
    lemma_one_piece(b, c);
    assert(s.take(a.len() as int) =~= a);
    assert(s.skip(a.len() as int + 1) =~= b);
}

pub proof fn lemma_pieces_push(s: Seq<char>, c: char, x: char)
    ensures
        pieces(s, c).len() > 0,
        x == c ==> pieces(s.push(x), c) == pieces(s, c).push(Seq::empty()),
        x != c ==> pieces(s.push(x), c) == pieces(s, c).drop_last().push(pieces(s, c).last().push(x)),
{
    lemma_last_of(s, c);
    lemma_last_of(s.push(x), c);
    lemma_last_of_push(s, c, x);
    let q = s.push(x);
    if x == c {
        assert(q.take(s.len() as int) =~= s);
        assert(q.skip(s.len() as int + 1) =~= Seq::<char>::empty());
    } else {
        let i = last_of(s, c);
        if i >= 0 {
            assert(q.take(i) =~= s.take(i));
            assert(q.skip(i + 1) =~= s.skip(i + 1).push(x));
            assert(pieces(s, c).drop_last() =~= pieces(s.take(i), c));
        } else {
            assert(pieces(s, c).drop_last().push(q) =~= seq![q]);
        }
    }
}

/// The position of the first `c`; the length where there is none.
pub fn find(s: &[char], c: char) -> (r: usize)
    ensures
        r == first_of(s@, c),
        r <= s@.len(),
{
    let mut i: usize = 0;
    proof {
        assert(s@.skip(0) =~= s@);
    }
    while i < s.len() && s[i] != c
        invariant
            i <= s.len(),
            first_of(s@, c) == i + first_of(s@.skip(i as int), c),
        decreases s.len() - i,
    {
        proof {
            assert(s@.skip(i as int).drop_first() =~= s@.skip(i + 1));
        }
        i = i + 1;
    }
    i
}

/// What stands between the separators `c`.
pub fn split_on(s: &[char], c: char) -> (r: Vec<String>)
    ensures
        views(r@) == pieces(s@, c),
{
    let mut done: Vec<String> = Vec::new();
    let mut open = String::new();
    let mut i: usize = 0;
    proof {
        assert(s@.take(0) =~= Seq::empty());
        assert(pieces(s@.take(0), c) =~= seq![Seq::<char>::empty()]);
        assert(views(done@).push(open@) =~= pieces(s@.take(0), c));
    }
    while i < s.len()
        invariant
            i <= s.len(),
            views(done@).push(open@) == pieces(s@.take(i as int), c),
        decreases s.len() - i,
    {
        let x = s[i];
        let ghost before = s@.take(i as int);
        proof {
            assert(s@.take(i + 1) =~= before.push(x));
            lemma_pieces_push(before, c, x);
            assert(pieces(before, c).drop_last() =~= views(done@));
            assert(pieces(before, c).last() == open@);
        }
        if x == c {
            done.push(open);
            open = String::new();
            proof {
                assert(views(done@) =~= pieces(before, c));
            }
        } else {
            open.push(x);
        }
        i = i + 1;
    }
    proof {
        assert(s@.take(s@.len() as int) =~= s@);
    }
    let ghost last = open@;
    let ghost held = views(done@);
    done.push(open);
    proof {
        assert(views(done@) =~= held.push(last));
    }
    done
}

/// Whether a character is one of `0` to `9`.
pub open spec fn is_digit(c: char) -> bool {
    '0' as int <= c as int <= '9' as int
}

/// The character that stands for the digit `d`.
pub open spec fn digit_char(d: int) -> char {
    (d + '0' as int) as char
}

/// The value of a digit.
pub open spec fn digit_value(c: char) -> int {
    c as int - '0' as int
}

/// Whether `s` is one or more digits.
pub open spec fn all_digits(s: Seq<char>) -> bool {
    s.len() > 0 && forall|i: int| 0 <= i < s.len() ==> is_digit(#[trigger] s[i])
}

/// The number that a run of digits writes.
pub open spec fn number(s: Seq<char>) -> nat
    decreases s.len(),
{
    if s.len() == 0 {
        0
    } else {
        (10 * number(s.drop_last()) + digit_value(s.last())) as nat
    }
}

/// The digits that write `n`, without leading zeros.
pub open spec fn digits(n: nat) -> Seq<char>
    decreases n,
{
    if n < 10 {
        seq![digit_char(n as int)]
    } else {
        digits(n / 10).push(digit_char((n % 10) as int))
    }
}

/// What is written for a number reads back as that number.
pub proof fn lemma_number_of_digits(n: nat)
    ensures
        number(digits(n)) == n,
        all_digits(digits(n)),
    decreases n,
{
    reveal_with_fuel(number, 2);
    if n >= 10 {
        lemma_number_of_digits(n / 10);
        let s = digits(n);
        assert(s.drop_last() =~= digits(n / 10));
        assert forall|i: int| 0 <= i < s.len() implies is_digit(#[trigger] s[i]) by {
            if i < s.len() - 1 {
                assert(s[i] == digits(n / 10)[i]);
            }
        }
    } else {
        assert(digits(n).drop_last().len() == 0);
    }
}

/// A longer run of digits writes a number that is no smaller.
pub proof fn lemma_number_grows(s: Seq<char>, k: int)
    requires
        0 <= k <= s.len(),
        forall|i: int| 0 <= i < s.len() ==> is_digit(#[trigger] s[i]),
    ensures
        number(s.take(k)) <= number(s),
    decreases s.len() - k,
{
    if k < s.len() {
        lemma_number_grows(s, k + 1);
        assert(s.take(k + 1).drop_last() =~= s.take(k));
        assert(is_digit(s[k]));
    } else {
        assert(s.take(k) =~= s);
    }
}

fn digit(d: u8) -> (c: char)
    requires
        d < 10,
    ensures
        c == digit_char(d as int),
        is_digit(c),
{
    let n: u8 = 48 + d;
    n as char
}

/// The decimal spelling of `n`.
pub fn decimal(n: u64) -> (s: String)
    ensures
        s@ == digits(n as nat),
    decreases n,
{
    if n < 10 {
        let mut s = String::new();
        s.push(digit(n as u8));
        proof {
            assert(s@ =~= digits(n as nat));
        }
        s
    } else {
        let mut s = decimal(n / 10);
        s.push(digit((n % 10) as u8));
        s
    }
}

/// The spelling of a signed number.
pub open spec fn signed_digits(n: int) -> Seq<char> {
    if n < 0 {
        seq!['-'] + digits((-n) as nat)
    } else {
        digits(n as nat)
    }
}

/// The decimal spelling of a signed number.
pub fn signed_decimal(n: i64) -> (s: String)
    ensures
        s@ == signed_digits(n as int),
{
    if n < 0 {
        let magnitude: u64 = ((-(n + 1)) as u64) + 1;
        let d = decimal(magnitude);
        let mut s = String::new();
        s.push('-');
        s.append(d.as_str());
        proof {
            assert(seq!['-'] =~= Seq::<char>::empty().push('-'));
        }
        s
    } else {
        decimal(n as u64)
    }
}

/// The digits of a number's spelling, which may carry one leading plus sign.
pub open spec fn unsigned_part(s: Seq<char>) -> Seq<char> {
    if s.len() > 0 && s[0] == '+' {
        s.drop_first()
    } else {
        s
    }
}

/// The number that `s` spells, if it is digits and the number fits in 64 bits.
pub open spec fn parsed_number(s: Seq<char>) -> Option<u64> {
    let d = unsigned_part(s);
    if all_digits(d) && number(d) <= u64::MAX {
        Some(number(d) as u64)
    } else {
        None
    }
}

/// What is printed for a number parses to that number.
pub proof fn lemma_parsed_number_of_digits(n: u64)
    ensures
        parsed_number(digits(n as nat)) == Some(n),
{
    lemma_number_of_digits(n as nat);
    let s = digits(n as nat);
    assert(is_digit(s[0]));
}

/// Reads `v[from..]` as an unsigned number.
pub fn parse_number(v: &[char]) -> (r: Option<u64>)
    ensures
        r == parsed_number(v@),
{
    let mut i: usize = 0;
    if v.len() > 0 && v[0] == '+' {
        i = 1;
    }
    let ghost d = unsigned_part(v@);
    let from: usize = i;
    proof {
        assert(d =~= v@.skip(from as int));
    }
    if i == v.len() {
        return None;
    }
    let mut value: u64 = 0;
    proof {
        assert(d.take(0).len() == 0);
    }
    while i < v.len()
        invariant
            from <= i <= v.len(),
            d == v@.skip(from as int),
            d == unsigned_part(v@),
            d.len() > 0,
            forall|j: int| 0 <= j < i - from ==> is_digit(#[trigger] d[j]),
            value == number(d.take(i - from)),
        decreases v.len() - i,
    {
        let c = v[i];
        proof {
            assert(d[i - from] == c);
            assert(d.take(i - from + 1).drop_last() =~= d.take(i - from));
            assert(d.take(i - from + 1).last() == c);
        }
        let n: u32 = code(c);
        if n < 48 || n > 57 {
            return None;
        }
        let step: u64 = (n - 48) as u64;
        proof {
            if all_digits(d) {
                lemma_number_grows(d, i - from + 1);
            }
        }
        match value.checked_mul(10) {
            None => {
                return None;
            },
            Some(tens) => match tens.checked_add(step) {
                None => {
                    return None;
                },
                Some(sum) => {
                    value = sum;
                },
            },
        }
        i = i + 1;
    }
    proof {
        assert(d.take(d.len() as int) =~= d);
    }
    Some(value)
}

/// The hexadecimal digit for a number below sixteen.
pub open spec fn hex_char(n: nat) -> char {
    if n < 10 {
        (n + '0' as nat) as char
    } else {
        (n - 10 + 'a' as nat) as char
    }
}

/// The last `width` digits of a number in base sixteen.
pub open spec fn hex_text(n: nat, width: nat) -> Seq<char>
    decreases width,
{
    if width == 0 {
        Seq::empty()
    } else {
        hex_text(n / 16, (width - 1) as nat).push(hex_char(n % 16))
    }
}

/// The last `width` hexadecimal digits of a number.
pub fn hex(n: u64, width: usize) -> (s: String)
    ensures
        s@ == hex_text(n as nat, width as nat),
    decreases width,
{
    if width == 0 {
        return String::new();
    }
    let mut s = hex(n / 16, width - 1);
    let d: u8 = (n % 16) as u8;
    let c: u8 = if d < 10 {
        48 + d
    } else {
        87 + d
    };
    s.push(c as char);
    s
}

/// Bytes in hexadecimal, two digits for each.
pub open spec fn hex_of(bytes: Seq<u8>) -> Seq<char>
    decreases bytes.len(),
{
    if bytes.len() == 0 {
        Seq::empty()
    } else {
        hex_of(bytes.drop_last()) + hex_text(bytes.last() as nat, 2)
    }
}

/// Bytes in hexadecimal, two digits for each.
pub fn hex_bytes(bytes: &[u8]) -> (s: String)
    ensures
        s@ == hex_of(bytes@),
{
    let mut s = String::new();
    let mut i: usize = 0;
    proof {
        assert(bytes@.take(0) =~= Seq::empty());
    }
    while i < bytes.len()
        invariant
            i <= bytes@.len(),
            s@ == hex_of(bytes@.take(i as int)),
        decreases bytes@.len() - i,
    {
        let digits = hex(bytes[i] as u64, 2);
        s.append(digits.as_str());
        proof {
            assert(bytes@.take(i + 1).drop_last() =~= bytes@.take(i as int));
            assert(bytes@.take(i + 1).last() == bytes@[i as int]);
        }
        i = i + 1;
    }
    proof {
        assert(bytes@.take(i as int) =~= bytes@);
    }
    s
}

/// Two texts are ordered by the first character in which they differ, and where one begins with
/// the other the shorter one comes first.
pub proof fn the_first_difference_orders(a: Seq<char>, b: Seq<char>, i: int)
    requires
        0 <= i <= a.len(),
        i <= b.len(),
        a.take(i) == b.take(i),
    ensures
        i == a.len() && i < b.len() ==> precedes(a, b),
        i == b.len() ==> !precedes(a, b),
        i < a.len() && i < b.len() && a[i] != b[i] ==> (precedes(a, b) <==> (a[i] as int) < (
        b[i] as int)),
    decreases i,
{
    if i > 0 {
        assert(a.take(i)[0] == a[0]);
        assert(b.take(i)[0] == b[0]);
        let x = a.drop_first();
        let y = b.drop_first();
        assert(x.take(i - 1) =~= a.take(i).drop_first());
        assert(y.take(i - 1) =~= b.take(i).drop_first());
        the_first_difference_orders(x, y, i - 1);
    }
}

/// Whether a text is white space and nothing else.
pub open spec fn blank(s: Seq<char>) -> bool {
    forall|i: int| 0 <= i < s.len() ==> is_space(#[trigger] s[i])
}

proof fn lemma_leading_blank(w: Seq<char>, t: Seq<char>)
    requires
        blank(w),
        t.len() == 0 || !is_space(t[0]),
    ensures
        leading_spaces(w + t) == w.len(),
    decreases w.len(),
{
    if w.len() > 0 {
        let rest = w.drop_first();
        assert forall|i: int| 0 <= i < rest.len() implies is_space(#[trigger] rest[i]) by {
            assert(rest[i] == w[i + 1]);
        }
        lemma_leading_blank(rest, t);
        assert((w + t).drop_first() =~= rest + t);
        assert((w + t)[0] == w[0]);
    } else {
        assert(w + t =~= t);
    }
}

proof fn lemma_trailing_blank(t: Seq<char>, w: Seq<char>)
    requires
        blank(w),
        t.len() == 0 || !is_space(t.last()),
    ensures
        trimmed_end(t + w) == t.len(),
    decreases w.len(),
{
    if w.len() > 0 {
        let rest = w.drop_last();
        assert forall|i: int| 0 <= i < rest.len() implies is_space(#[trigger] rest[i]) by {
            assert(rest[i] == w[i]);
        }
        lemma_trailing_blank(t, rest);
        assert((t + w).drop_last() =~= t + rest);
        assert((t + w).last() == w[w.len() - 1]);
    } else {
        assert(t + w =~= t);
    }
}

/// Trimming takes the white space off both ends, all of it, and nothing else.
pub proof fn trimming_takes_only_the_ends(before: Seq<char>, s: Seq<char>, after: Seq<char>)
    requires
        blank(before),
        blank(after),
        s.len() > 0,
        !is_space(s[0]),
        !is_space(s.last()),
    ensures
        trim(before + s + after) == s,
        trim(before) == Seq::<char>::empty(),
{
    let whole = before + s + after;
    assert(whole =~= before + (s + after));
    lemma_leading_blank(before, s + after);
    assert(whole.skip(before.len() as int) =~= s + after);
    lemma_trailing_blank(s, after);
    assert((s + after).take(s.len() as int) =~= s);
    lemma_leading_blank(before, Seq::empty());
    assert(before + Seq::<char>::empty() =~= before);
    let front = before.skip(before.len() as int);
    assert(front =~= Seq::empty());
    assert(front.take(trimmed_end(front) as int) =~= Seq::empty());
}

/// A number is written in tens, without a zero in front of it.
pub proof fn a_number_is_written_in_tens(n: nat, c: char)
    requires
        is_digit(c),
    ensures
        n > 0 ==> digits(n).push(c) == digits((10 * n + (c as int - '0' as int)) as nat),
        n > 0 ==> digits(n)[0] != '0',
        number(digits(n).push(c)) == 10 * n + (c as int - '0' as int),
    decreases n,
{
    lemma_number_of_digits(n);
    assert(digits(n).push(c).drop_last() =~= digits(n));
    let d = c as int - '0' as int;
    let m = (10 * n + d) as nat;
    if n > 0 {
        assert(m / 10 == n && m % 10 == d as nat);
        if n >= 10 {
            a_number_is_written_in_tens(n / 10, c);
        }
    }
}

/// A plus sign in front of a number changes nothing, and nothing but digits behind it is a number.
pub proof fn a_number_is_digits_with_an_optional_plus(s: Seq<char>)
    ensures
        all_digits(s) && number(s) <= u64::MAX ==> parsed_number(s) == Some(number(s) as u64)
            && parsed_number(seq!['+'] + s) == Some(number(s) as u64),
        parsed_number(s) is Some ==> all_digits(s) || (s.len() > 1 && s[0] == '+' && all_digits(
            s.drop_first(),
        )),
        all_digits(s) && number(s) > u64::MAX ==> parsed_number(s) is None,
{
    if all_digits(s) {
        assert(is_digit(s[0]));
        assert((seq!['+'] + s).drop_first() =~= s);
    }
}

/// Every byte is two hexadecimal digits, the higher one first, in the order of the bytes.
pub proof fn a_byte_is_two_digits(bytes: Seq<u8>, i: int)
    requires
        0 <= i < bytes.len(),
    ensures
        hex_of(bytes).len() == 2 * bytes.len(),
        hex_of(bytes)[2 * i] == "0123456789abcdef"@[bytes[i] as int / 16],
        hex_of(bytes)[2 * i + 1] == "0123456789abcdef"@[bytes[i] as int % 16],
    decreases bytes.len(),
{
    let front = bytes.drop_last();
    let b = bytes.last() as nat;
    lemma_hex_length(front);
    reveal_with_fuel(hex_text, 3);
    assert(hex_text(b, 2) =~= seq![hex_char(b / 16 % 16), hex_char(b % 16)]);
    assert(b / 16 % 16 == b / 16);
    lemma_hex_char(b / 16);
    lemma_hex_char(b % 16);
    if i < front.len() {
        a_byte_is_two_digits(front, i);
        assert(front[i] == bytes[i]);
    }
}

proof fn lemma_hex_length(bytes: Seq<u8>)
    ensures
        hex_of(bytes).len() == 2 * bytes.len(),
    decreases bytes.len(),
{
    if bytes.len() > 0 {
        lemma_hex_length(bytes.drop_last());
        reveal_with_fuel(hex_text, 3);
    }
}

proof fn lemma_hex_char(n: nat)
    requires
        n < 16,
    ensures
        hex_char(n) == "0123456789abcdef"@[n as int],
{
    reveal_strlit("0123456789abcdef");
}

/// The views of texts are the texts, one for one and in order; and nothing has no view.
pub proof fn texts_are_viewed_one_by_one(s: Seq<String>, i: int, t: String)
    ensures
        views(s).len() == s.len(),
        0 <= i < s.len() ==> views(s)[i] == s[i]@,
        view_option(Some(t)) == Some(t@),
        view_option(None) is None,
{
}

/// The blanks that a person types are white space; letters, digits and separators are not.
pub proof fn ordinary_blanks_are_white_space(c: char)
    ensures
        is_space(' ') && is_space('\t') && is_space('\n') && is_space('\r'),
        is_digit(c) ==> !is_space(c),
        '!' as int <= c as int <= '~' as int ==> !is_space(c),
{
}

/// A separator begins a new piece, and any other character is added to the last one. A text
/// without a separator is its own and only piece.
pub proof fn a_separator_begins_a_piece(s: Seq<char>, c: char, x: char)
    ensures
        pieces(Seq::empty(), c) == seq![Seq::<char>::empty()],
        pieces(s.push(c), c) == pieces(s, c).push(Seq::empty()),
        x != c ==> pieces(s.push(x), c) == pieces(s, c).update(
            pieces(s, c).len() - 1,
            pieces(s, c).last().push(x),
        ),
        !s.contains(c) ==> pieces(s, c) == seq![s],
        pieces(s, c).len() >= 1,
{
    lemma_pieces_push(s, c, x);
    lemma_pieces_push(s, c, c);
    lemma_last_of(s, c);
    assert(Seq::<char>::empty().len() == 0);
}

/// The first place of a character is before every other one, and the last place is behind every
/// other one. A text that does not hold it has its length as the first place and minus one as
/// the last.
pub proof fn a_character_is_found_at_both_ends(s: Seq<char>, c: char, i: int)
    ensures
        s.contains(c) ==> 0 <= first_of(s, c) < s.len() && s[first_of(s, c)] == c,
        s.contains(c) ==> 0 <= last_of(s, c) < s.len() && s[last_of(s, c)] == c,
        0 <= i < s.len() && s[i] == c ==> first_of(s, c) <= i <= last_of(s, c),
        !s.contains(c) ==> first_of(s, c) == s.len() && last_of(s, c) == -1,
{
    lemma_first_of(s, c);
    lemma_last_of(s, c);
}

} // verus!
