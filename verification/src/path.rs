//! Logical paths: `/`-separated names inside one remote, always relative to its root.
//!
//! A logical path is a plain sequence of characters. The root is the empty path. Everything
//! here compares whole components: `photos` is never the parent of `photos-backup`.
use unicode_normalization::UnicodeNormalization;
use vstd::prelude::*;
use vstd::string::StringExecFns;

use crate::text;
use crate::text::{chars_of, last_of, pieces, views};

verus! {

/// The position of the last separator, or -1 where there is none.
pub open spec fn last_separator(p: Seq<char>) -> int {
    last_of(p, '/')
}

/// Everything before the last separator; the root where there is none.
pub open spec fn parent(p: Seq<char>) -> Seq<char> {
    if last_separator(p) < 0 {
        Seq::empty()
    } else {
        p.take(last_separator(p))
    }
}

/// Everything behind the last separator.
pub open spec fn file_name(p: Seq<char>) -> Seq<char> {
    p.skip(last_separator(p) + 1)
}

/// `directory/name`, or `name` alone at the root.
pub open spec fn child(directory: Seq<char>, name: Seq<char>) -> Seq<char> {
    if directory.len() == 0 {
        name
    } else {
        directory.push('/') + name
    }
}

/// Whether `p` is `directory` or lies somewhere below it.
pub open spec fn under(directory: Seq<char>, p: Seq<char>) -> bool {
    directory.len() == 0 || p == directory || directory.push('/').is_prefix_of(p)
}

/// The number of components of `p` that are not empty.
pub open spec fn depth(p: Seq<char>) -> nat
    decreases p.len(),
{
    let own: nat = if file_name(p).len() > 0 {
        1
    } else {
        0
    };
    if last_separator(p) < 0 || last_separator(p) >= p.len() {
        own
    } else {
        depth(p.take(last_separator(p))) + own
    }
}

/// The pieces of `p` between its separators.
pub open spec fn parts(p: Seq<char>) -> Seq<Seq<char>> {
    pieces(p, '/')
}

/// The pieces put together again, with a separator between them.
pub open spec fn joined(s: Seq<Seq<char>>) -> Seq<char>
    decreases s.len(),
{
    if s.len() == 0 {
        Seq::empty()
    } else if s.len() == 1 {
        s[0]
    } else {
        joined(s.drop_last()).push('/') + s.last()
    }
}

/// A child's parent and name are the directory and the name it was made of.
pub proof fn lemma_child_splits(directory: Seq<char>, name: Seq<char>)
    requires
        !name.contains('/'),
    ensures
        parent(child(directory, name)) == directory,
        file_name(child(directory, name)) == name,
{
    if directory.len() == 0 {
        text::lemma_one_piece(name, '/');
        assert(name.skip(0) =~= name);
        assert(directory =~= Seq::empty());
    } else {
        text::lemma_last_of_concat(directory, name, '/');
        text::lemma_one_piece(name, '/');
        let p = directory.push('/') + name;
        assert(p.take(directory.len() as int) =~= directory);
        assert(p.skip(directory.len() as int + 1) =~= name);
    }
}

/// Whether `path` is `directory` or lies below it.
pub fn is_under(directory: &str, path: &str) -> (r: bool)
    ensures
        r == under(directory@, path@),
{
    let d = chars_of(directory);
    let p = chars_of(path);
    if d.len() == 0 {
        return true;
    }
    if p.len() < d.len() {
        proof {
            if directory@.push('/').is_prefix_of(path@) {
                assert(path@.len() >= directory@.len() + 1);
            }
        }
        return false;
    }
    let mut i: usize = 0;
    while i < d.len()
        invariant
            d@ == directory@,
            p@ == path@,
            d.len() > 0,
            i <= d.len() <= p.len(),
            forall|j: int| 0 <= j < i ==> d@[j] == p@[j],
        decreases d.len() - i,
    {
        if d[i] != p[i] {
            proof {
                if directory@.push('/').is_prefix_of(path@) {
                    assert(directory@.push('/')[i as int] == path@[i as int]);
                }
            }
            return false;
        }
        i = i + 1;
    }
    if p.len() == d.len() {
        proof {
            assert(p@ =~= d@);
        }
        return true;
    }
    let r = p[d.len()] == '/';
    proof {
        let q = directory@.push('/');
        if r {
            assert(q =~= path@.subrange(0, q.len() as int));
        } else if q.is_prefix_of(path@) {
            assert(q[d.len() as int] == path@.subrange(0, q.len() as int)[d.len() as int]);
        }
    }
    r
}

/// The position behind the last separator.
fn name_start(p: &[char]) -> (i: usize)
    ensures
        i == last_separator(p@) + 1,
{
    let mut i: usize = p.len();
    proof {
        assert(p@.take(i as int) =~= p@);
    }
    while i > 0
        invariant
            i <= p.len(),
            last_separator(p@) == last_separator(p@.take(i as int)),
        decreases i,
    {
        if p[i - 1] == '/' {
            return i;
        }
        proof {
            assert(p@.take(i as int).drop_last() =~= p@.take(i - 1));
        }
        i = i - 1;
    }
    0
}

/// The part of a path behind its last separator.
pub fn name_of(path: &str) -> (r: String)
    ensures
        r@ == file_name(path@),
{
    let p = chars_of(path);
    let i = name_start(p.as_slice());
    proof {
        text::lemma_last_of(path@, '/');
        assert(p@.subrange(i as int, p@.len() as int) =~= p@.skip(i as int));
    }
    text::string_of(p.as_slice(), i, p.len())
}

/// The part of a path before its last separator.
pub fn parent_of(path: &str) -> (r: String)
    ensures
        r@ == parent(path@),
{
    let p = chars_of(path);
    let i = name_start(p.as_slice());
    if i == 0 {
        return String::new();
    }
    proof {
        text::lemma_last_of(path@, '/');
        assert(p@.subrange(0, i - 1) =~= p@.take(i - 1));
    }
    text::string_of(p.as_slice(), 0, i - 1)
}

/// `directory/name`, or `name` alone at the root.
pub fn join(directory: &str, name: &str) -> (r: String)
    ensures
        r@ == child(directory@, name@),
{
    if directory.is_empty() {
        name.to_owned()
    } else {
        let mut r = directory.to_owned();
        r.push('/');
        r.append(name);
        r
    }
}

proof fn lemma_depth_push(p: Seq<char>, c: char)
    ensures
        depth(p.push(c)) == depth(p) + (if c != '/' && file_name(p).len() == 0 {
            1nat
        } else {
            0
        }),
{
    text::lemma_last_of(p, '/');
    text::lemma_last_of(p.push(c), '/');
    text::lemma_last_of_push(p, '/', c);
    let q = p.push(c);
    if c == '/' {
        assert(q.take(p.len() as int) =~= p);
        assert(file_name(q).len() == 0);
    } else {
        if last_separator(p) >= 0 {
            assert(q.take(last_separator(p)) =~= p.take(last_separator(p)));
        }
        assert(file_name(q) =~= file_name(p).push(c));
    }
}

/// The number of components of a path that are not empty.
pub fn depth_of(path: &str) -> (n: usize)
    ensures
        n == depth(path@),
{
    let p = chars_of(path);
    let mut i: usize = 0;
    let mut n: usize = 0;
    let mut open: bool = false;
    proof {
        text::lemma_last_of(p@.take(0), '/');
    }
    while i < p.len()
        invariant
            p@ == path@,
            i <= p.len(),
            n <= i,
            n == depth(p@.take(i as int)),
            open == (file_name(p@.take(i as int)).len() > 0),
        decreases p.len() - i,
    {
        let c = p[i];
        proof {
            let before = p@.take(i as int);
            assert(p@.take(i + 1) =~= before.push(c));
            lemma_depth_push(before, c);
            text::lemma_last_of(before, '/');
            text::lemma_last_of_push(before, '/', c);
        }
        if c == '/' {
            open = false;
        } else if !open {
            open = true;
            n = n + 1;
        }
        i = i + 1;
    }
    proof {
        assert(p@.take(p.len() as int) =~= p@);
    }
    n
}

/// The components of `a/b` are those of `a` and those of `b`.
pub proof fn lemma_depth_concat(a: Seq<char>, b: Seq<char>)
    ensures
        depth(a.push('/') + b) == depth(a) + depth(b),
        b.len() > 0 && b.last() != '/' ==> depth(b) > 0,
    decreases b.len(),
{
    let p = a.push('/') + b;
    if b.len() == 0 {
        assert(p =~= a.push('/'));
        lemma_depth_push(a, '/');
        text::lemma_last_of(b, '/');
    } else {
        let front = b.drop_last();
        let c = b.last();
        let q = a.push('/') + front;
        assert(p =~= q.push(c));
        assert(b =~= front.push(c));
        lemma_depth_concat(a, front);
        lemma_depth_push(q, c);
        lemma_depth_push(front, c);
        lemma_file_name_concat(a, front);
        text::lemma_last_of(b, '/');
        text::lemma_last_of_push(front, '/', c);
        text::lemma_last_of(front, '/');
    }
}

proof fn lemma_file_name_concat(a: Seq<char>, b: Seq<char>)
    ensures
        file_name(a.push('/') + b) == file_name(b),
{
    text::lemma_last_of_concat(a, b, '/');
    text::lemma_last_of(b, '/');
    assert(file_name(a.push('/') + b) =~= file_name(b));
}

/// What lies under a directory that lies under another lies under that other.
pub proof fn lemma_under_transitive(a: Seq<char>, b: Seq<char>, c: Seq<char>)
    requires
        under(a, b),
        under(b, c),
    ensures
        under(a, c),
{
    if a.len() > 0 && b != a && c != b {
        let x = a.push('/');
        let y = b.push('/');
        assert(x =~= b.subrange(0, x.len() as int));
        assert(y =~= c.subrange(0, y.len() as int));
        assert forall|i: int| 0 <= i < x.len() implies x[i] == c[i] by {
            assert(x[i] == b.subrange(0, x.len() as int)[i]);
            assert(y[i] == c.subrange(0, y.len() as int)[i]);
        }
        assert(x =~= c.subrange(0, x.len() as int));
    }
}

/// A canonical path below another has more components.
pub proof fn lemma_below_is_deeper(directory: Seq<char>, p: Seq<char>)
    requires
        under(directory, p),
        p != directory,
        canonical(p),
    ensures
        depth(p) > depth(directory),
{
    text::lemma_last_of(p, '/');
    assert(parts(p).last() == file_name(p)) by {
        assert(p.skip(0) =~= p);
    }
    assert(p.len() > 0) by {
        if p.len() == 0 {
            if directory.len() == 0 {
                assert(p =~= directory);
            }
        }
    }
    assert(plain_component(parts(p)[parts(p).len() - 1]));
    assert(p.last() == file_name(p).last());
    assert(file_name(p).contains(file_name(p).last()));
    if directory.len() == 0 {
        text::lemma_last_of(directory, '/');
        lemma_depth_concat(Seq::empty(), p);
    } else {
        let x = directory.push('/');
        let b = p.skip(x.len() as int);
        assert(x =~= p.subrange(0, x.len() as int));
        assert(p =~= x + b);
        if b.len() == 0 {
            assert(p.last() == '/');
        }
        lemma_depth_concat(directory, b);
    }
}

/// Whether a text is made of ASCII characters only.
pub open spec fn ascii(s: Seq<char>) -> bool {
    forall|i: int| 0 <= i < s.len() ==> (#[trigger] s[i] as int) < 128
}

/// The Unicode normalisation form C of a text, as `unicode_normalization` computes it.
pub uninterp spec fn nfc(s: Seq<char>) -> Seq<char>;

/// Calls `unicode_normalization::UnicodeNormalization::nfc` and collects what it yields.
///
/// What the contract claims: the result depends on the text alone, and has the name `nfc`;
/// normalising a second time changes nothing; and text made of ASCII characters only is
/// already normalised.
#[verifier::external_body]
fn normalised(s: &str) -> (r: String)
    ensures
        r@ == nfc(s@),
        nfc(r@) == r@,
        ascii(s@) ==> r@ == s@,
{
    s.nfc().collect()
}

/// Whether `c` can be one component of a canonical path.
pub open spec fn plain_component(c: Seq<char>) -> bool {
    &&& c.len() > 0
    &&& c != seq!['.']
    &&& c != seq!['.', '.']
    &&& !c.contains('/')
    &&& !c.contains('\\')
}

/// Whether `p` is written in the one form that addresses an object: the root, or plain
/// components in normalisation form C with one separator between them.
pub open spec fn canonical(p: Seq<char>) -> bool {
    p.len() == 0 || forall|i: int|
        0 <= i < parts(p).len() ==> plain_component(#[trigger] parts(p)[i]) && nfc(parts(p)[i])
            == parts(p)[i]
}

/// `p` with every backslash written as a separator.
pub open spec fn forward(p: Seq<char>) -> Seq<char> {
    p.map_values(
        |c: char|
            if c == '\\' {
                '/'
            } else {
                c
            },
    )
}

/// Whether a piece of a path says nothing: it is empty, or it is a single dot.
pub open spec fn idle(c: Seq<char>) -> bool {
    c.len() == 0 || c == seq!['.']
}

/// Whether a piece of a path may stand in it: it does not climb, and its normalised form is
/// a plain component.
pub open spec fn admitted(c: Seq<char>) -> bool {
    c != seq!['.', '.'] && plain_component(nfc(c))
}

/// The pieces that say something, normalised; nothing if one of them is not admitted.
pub open spec fn kept(s: Seq<Seq<char>>) -> Option<Seq<Seq<char>>>
    decreases s.len(),
{
    if s.len() == 0 {
        Some(Seq::empty())
    } else {
        match kept(s.drop_last()) {
            None => None,
            Some(before) => if idle(s.last()) {
                Some(before)
            } else if admitted(s.last()) {
                Some(before.push(nfc(s.last())))
            } else {
                None
            },
        }
    }
}

/// The names of the pieces that say something, where each piece has the name that stands at
/// its place; nothing if a piece climbs or its name is no plain component.
pub open spec fn assembled(s: Seq<Seq<char>>, names: Seq<Seq<char>>) -> Option<Seq<Seq<char>>>
    decreases s.len(),
{
    if s.len() == 0 {
        Some(Seq::empty())
    } else {
        match assembled(s.drop_last(), names.drop_last()) {
            None => None,
            Some(before) => if idle(s.last()) {
                Some(before)
            } else if s.last() != seq!['.', '.'] && plain_component(names.last()) {
                Some(before.push(names.last()))
            } else {
                None
            },
        }
    }
}

/// The canonical spelling of `p`, if it stays inside the root.
pub open spec fn clean(p: Seq<char>) -> Option<Seq<char>> {
    match kept(parts(forward(p))) {
        Some(s) => Some(joined(s)),
        None => None,
    }
}

/// The canonical spelling of a path whose components need no normalising.
pub open spec fn clean_as_written(p: Seq<char>) -> Option<Seq<char>> {
    match assembled(parts(forward(p)), parts(forward(p))) {
        Some(s) => Some(joined(s)),
        None => None,
    }
}

/// Putting the pieces of a path together gives the path.
pub proof fn lemma_joined_parts(p: Seq<char>)
    ensures
        joined(parts(p)) == p,
        parts(p).len() > 0,
    decreases p.len(),
{
    text::lemma_last_of(p, '/');
    let i = last_separator(p);
    if i >= 0 {
        lemma_joined_parts(p.take(i));
        let s = parts(p);
        assert(s.drop_last() =~= parts(p.take(i)));
        assert(joined(s) =~= p);
    }
}

/// Taking a joined path apart gives the pieces, where none of them holds a separator.
pub proof fn lemma_parts_joined(s: Seq<Seq<char>>)
    requires
        s.len() > 0,
        forall|i: int| 0 <= i < s.len() ==> !(#[trigger] s[i]).contains('/'),
    ensures
        parts(joined(s)) == s,
    decreases s.len(),
{
    if s.len() == 1 {
        text::lemma_one_piece(s[0], '/');
        assert(seq![s[0]] =~= s);
    } else {
        let front = s.drop_last();
        assert forall|i: int| 0 <= i < front.len() implies !(#[trigger] front[i]).contains('/') by {
            assert(front[i] == s[i]);
        }
        lemma_parts_joined(front);
        text::lemma_pieces_concat(joined(front), s.last(), '/');
        assert(front.push(s.last()) =~= s);
    }
}

proof fn lemma_kept_of_canonical(s: Seq<Seq<char>>)
    requires
        forall|i: int|
            0 <= i < s.len() ==> plain_component(#[trigger] s[i]) && nfc(s[i]) == s[i],
    ensures
        kept(s) == Some(s),
    decreases s.len(),
{
    if s.len() > 0 {
        let front = s.drop_last();
        assert forall|i: int| 0 <= i < front.len() implies plain_component(#[trigger] front[i])
            && nfc(front[i]) == front[i] by {
            assert(front[i] == s[i]);
        }
        lemma_kept_of_canonical(front);
        assert(front.push(s.last()) =~= s);
    } else {
        assert(s =~= Seq::empty());
    }
}

proof fn lemma_parts_hold(p: Seq<char>, k: int)
    requires
        0 <= k < p.len(),
        p[k] != '/',
    ensures
        exists|i: int| 0 <= i < parts(p).len() && (#[trigger] parts(p)[i]).contains(p[k]),
    decreases p.len(),
{
    text::lemma_last_of(p, '/');
    let i = last_separator(p);
    if i < 0 {
        assert(p.contains(p[k]));
        assert(parts(p)[0] == p);
    } else if k > i {
        let n = parts(p).len() - 1;
        assert(parts(p)[n] == p.skip(i + 1));
        assert(p.skip(i + 1)[k - i - 1] == p[k]);
        assert(parts(p)[n].contains(p[k]));
    } else {
        lemma_parts_hold(p.take(i), k);
        let q = p.take(i);
        let j = choose|j: int| 0 <= j < parts(q).len() && (#[trigger] parts(q)[j]).contains(q[k]);
        assert(parts(p)[j] == parts(q)[j]);
    }
}

/// A canonical path holds no backslash.
pub proof fn lemma_canonical_has_no_backslash(p: Seq<char>, k: int)
    requires
        canonical(p),
        0 <= k < p.len(),
    ensures
        p[k] != '\\',
{
    if p[k] == '\\' {
        lemma_parts_hold(p, k);
    }
}

/// A canonical path is its own canonical spelling.
pub proof fn canonical_paths_are_fixed(p: Seq<char>)
    requires
        canonical(p),
    ensures
        clean(p) == Some(p),
{
    assert forall|k: int| 0 <= k < p.len() implies p[k] != '\\' by {
        lemma_canonical_has_no_backslash(p, k);
    }
    assert(forward(p) =~= p);
    if p.len() == 0 {
        text::lemma_last_of(p, '/');
        assert(parts(p) =~= seq![p]);
        assert(parts(p).drop_last() =~= Seq::empty());
        reveal_with_fuel(kept, 2);
        assert(kept(parts(p)) == Some(Seq::<Seq<char>>::empty()));
        assert(joined(Seq::<Seq<char>>::empty()) =~= p);
    } else {
        lemma_kept_of_canonical(parts(p));
        lemma_joined_parts(p);
    }
}

fn holds(s: &[char], c: char) -> (r: bool)
    ensures
        r == s@.contains(c),
{
    let mut i: usize = 0;
    while i < s.len()
        invariant
            i <= s.len(),
            forall|j: int| 0 <= j < i ==> s@[j] != c,
        decreases s.len() - i,
    {
        if s[i] == c {
            return true;
        }
        i = i + 1;
    }
    false
}

fn is_plain(s: &str) -> (r: bool)
    ensures
        r == plain_component(s@),
{
    let v = chars_of(s);
    if v.len() == 0 || holds(v.as_slice(), '/') || holds(v.as_slice(), '\\') {
        return false;
    }
    let dot = v.len() == 1 && v[0] == '.';
    let dots = v.len() == 2 && v[0] == '.' && v[1] == '.';
    proof {
        if dot {
            assert(v@ =~= seq!['.']);
        }
        if dots {
            assert(v@ =~= seq!['.', '.']);
        }
    }
    !dot && !dots
}

/// The characters of a path, with every backslash written as a separator.
fn forwarded(raw: &str) -> (v: Vec<char>)
    ensures
        v@ == forward(raw@),
{
    let mut v = chars_of(raw);
    let mut i: usize = 0;
    while i < v.len()
        invariant
            v.len() == raw@.len(),
            i <= v.len(),
            forall|j: int| 0 <= j < i ==> v@[j] == forward(raw@)[j],
            forall|j: int| i <= j < v.len() ==> v@[j] == raw@[j],
        decreases v.len() - i,
    {
        if v[i] == '\\' {
            v.set(i, '/');
        }
        i = i + 1;
    }
    proof {
        assert(v@ =~= forward(raw@));
    }
    v
}

/// Whether a piece of a path says nothing.
fn is_idle(piece: &str) -> (r: bool)
    ensures
        r == idle(piece@),
{
    let c = chars_of(piece);
    let dot = c.len() == 1 && c[0] == '.';
    proof {
        if dot {
            assert(piece@ =~= seq!['.']);
        }
    }
    c.len() == 0 || dot
}

/// Whether a piece of a path climbs.
fn climbs(piece: &str) -> (r: bool)
    ensures
        r == (piece@ == seq!['.', '.']),
{
    let c = chars_of(piece);
    let dots = c.len() == 2 && c[0] == '.' && c[1] == '.';
    proof {
        if dots {
            assert(piece@ =~= seq!['.', '.']);
        }
    }
    dots
}

/// The normalised forms of the pieces, one for one.
fn normal_forms(pieces: &Vec<String>) -> (r: Vec<String>)
    ensures
        r@.len() == pieces@.len(),
        forall|i: int|
            0 <= i < r@.len() ==> (#[trigger] views(r@)[i]) == nfc(views(pieces@)[i]) && nfc(
                views(r@)[i],
            ) == views(r@)[i] && (ascii(views(pieces@)[i]) ==> views(r@)[i] == views(pieces@)[i]),
{
    let mut r: Vec<String> = Vec::new();
    let mut i: usize = 0;
    while i < pieces.len()
        invariant
            i <= pieces@.len(),
            r@.len() == i,
            forall|j: int|
                0 <= j < i ==> (#[trigger] views(r@)[j]) == nfc(views(pieces@)[j]) && nfc(
                    views(r@)[j],
                ) == views(r@)[j] && (ascii(views(pieces@)[j]) ==> views(r@)[j] == views(
                    pieces@,
                )[j]),
        decreases pieces@.len() - i,
    {
        let ghost before = views(r@);
        let name = normalised(pieces[i].as_str());
        let ghost added = name@;
        r.push(name);
        proof {
            assert(views(r@) =~= before.push(added));
            assert(views(pieces@)[i as int] == pieces@[i as int]@);
        }
        i = i + 1;
    }
    r
}

/// Puts a path together from its pieces and the names that stand for them.
pub fn assemble(pieces: &Vec<String>, names: &Vec<String>) -> (r: Option<String>)
    requires
        names@.len() == pieces@.len(),
    ensures
        match r {
            Some(p) => assembled(views(pieces@), views(names@)) matches Some(kept) && p@ == joined(
                kept,
            ),
            None => assembled(views(pieces@), views(names@)) is None,
        },
{
    let ghost all = views(pieces@);
    let ghost forms = views(names@);
    let mut chosen: Vec<String> = Vec::new();
    let mut k: usize = 0;
    proof {
        assert(views(chosen@) =~= Seq::empty());
    }
    while k < pieces.len()
        invariant
            k <= pieces@.len(),
            names@.len() == pieces@.len(),
            all == views(pieces@),
            forms == views(names@),
            assembled(all.take(k as int), forms.take(k as int)) == Some(views(chosen@)),
        decreases pieces@.len() - k,
    {
        proof {
            assert(all.take(k + 1).drop_last() =~= all.take(k as int));
            assert(forms.take(k + 1).drop_last() =~= forms.take(k as int));
            assert(all.take(k + 1).last() == pieces@[k as int]@);
            assert(forms.take(k + 1).last() == names@[k as int]@);
        }
        if !is_idle(pieces[k].as_str()) {
            if climbs(pieces[k].as_str()) || !is_plain(names[k].as_str()) {
                proof {
                    lemma_assembled_fails(all, forms, k + 1);
                }
                return None;
            }
            let ghost before = views(chosen@);
            chosen.push(names[k].clone());
            proof {
                assert(views(chosen@) =~= before.push(names@[k as int]@));
            }
        }
        k = k + 1;
    }
    proof {
        assert(all.take(all.len() as int) =~= all);
        assert(forms.take(forms.len() as int) =~= forms);
    }
    Some(join_all(&chosen))
}

/// The names with a separator between them.
pub fn join_all(names: &Vec<String>) -> (r: String)
    ensures
        r@ == joined(views(names@)),
{
    let mut r = String::new();
    let mut i: usize = 0;
    let ghost all = views(names@);
    proof {
        assert(all.take(0) =~= Seq::empty());
    }
    while i < names.len()
        invariant
            i <= names.len(),
            all == views(names@),
            r@ == joined(all.take(i as int)),
        decreases names.len() - i,
    {
        proof {
            assert(all.take(i + 1).drop_last() =~= all.take(i as int));
            assert(all.take(i + 1).last() == names@[i as int]@);
        }
        if i == 0 {
            r = names[i].clone();
        } else {
            r.push('/');
            r.append(names[i].as_str());
        }
        i = i + 1;
    }
    proof {
        assert(all.take(all.len() as int) =~= all);
    }
    r
}

/// The canonical spelling of a path: separators are `/`, empty and `.` components are
/// dropped, names are in normalisation form C. There is none for a path with a `..` in it.
/// What is written in ASCII needs no normalising.
pub fn clean_logical(raw: &str) -> (r: Option<String>)
    ensures
        match r {
            Some(p) => clean(raw@) == Some(p@) && canonical(p@),
            None => clean(raw@) is None,
        },
        ascii(raw@) ==> clean(raw@) == clean_as_written(raw@),
{
    let v = forwarded(raw);
    let pieces = text::split_on(v.as_slice(), '/');
    let names = normal_forms(&pieces);
    let r = assemble(&pieces, &names);
    proof {
        let s = views(pieces@);
        let forms = views(names@);
        lemma_kept_assembled(s, forms);
        lemma_assembled_names(s, forms);
        if let Some(done) = kept(s) {
            if done.len() > 0 {
                lemma_parts_joined(done);
            }
        }
        if ascii(raw@) {
            assert(ascii(forward(raw@)));
            lemma_parts_are_ascii(forward(raw@));
            assert(forms =~= s);
        }
    }
    r
}

proof fn lemma_assembled_fails(s: Seq<Seq<char>>, names: Seq<Seq<char>>, k: int)
    requires
        0 <= k <= s.len(),
        names.len() == s.len(),
        assembled(s.take(k), names.take(k)) is None,
    ensures
        assembled(s, names) is None,
    decreases s.len() - k,
{
    if k < s.len() {
        assert(s.take(k + 1).drop_last() =~= s.take(k));
        assert(names.take(k + 1).drop_last() =~= names.take(k));
        lemma_assembled_fails(s, names, k + 1);
    } else {
        assert(s.take(k) =~= s);
        assert(names.take(k) =~= names);
    }
}

/// With their normalised forms for names, the pieces that are kept are those that a path
/// keeps.
proof fn lemma_kept_assembled(s: Seq<Seq<char>>, names: Seq<Seq<char>>)
    requires
        names.len() == s.len(),
        forall|i: int| 0 <= i < s.len() ==> #[trigger] names[i] == nfc(s[i]),
    ensures
        kept(s) == assembled(s, names),
    decreases s.len(),
{
    if s.len() > 0 {
        let fewer = names.drop_last();
        assert forall|i: int| 0 <= i < s.len() - 1 implies #[trigger] fewer[i] == nfc(
            s.drop_last()[i],
        ) by {
            assert(fewer[i] == names[i]);
        }
        lemma_kept_assembled(s.drop_last(), fewer);
    }
}

/// What is kept is plain, and is among the names.
proof fn lemma_assembled_names(s: Seq<Seq<char>>, names: Seq<Seq<char>>)
    requires
        names.len() == s.len(),
    ensures
        assembled(s, names) matches Some(kept) ==> forall|j: int|
            0 <= j < kept.len() ==> plain_component(#[trigger] kept[j]) && names.contains(kept[j]),
    decreases s.len(),
{
    if s.len() > 0 {
        lemma_assembled_names(s.drop_last(), names.drop_last());
        if let Some(before) = assembled(s.drop_last(), names.drop_last()) {
            assert(names.contains(names[names.len() - 1]));
            assert forall|j: int| 0 <= j < before.len() implies names.contains(
                #[trigger] before[j],
            ) by {
                let i = choose|i: int|
                    0 <= i < names.drop_last().len() && names.drop_last()[i] == before[j];
                assert(names[i] == before[j]);
            }
        }
    }
}

proof fn lemma_parts_are_ascii(p: Seq<char>)
    requires
        ascii(p),
    ensures
        forall|i: int| 0 <= i < parts(p).len() ==> ascii(#[trigger] parts(p)[i]),
    decreases p.len(),
{
    text::lemma_last_of(p, '/');
    let i = last_separator(p);
    if i >= 0 {
        lemma_parts_are_ascii(p.take(i));
        assert(ascii(p.skip(i + 1)));
        assert forall|j: int| 0 <= j < parts(p).len() implies ascii(#[trigger] parts(p)[j]) by {
            if j < parts(p.take(i)).len() {
                assert(parts(p)[j] == parts(p.take(i))[j]);
            } else {
                assert(parts(p)[j] == p.skip(i + 1));
            }
        }
    } else {
        assert(parts(p) =~= seq![p]);
    }
}

/// What lies under a directory is the directory itself and what its path and a separator begin.
/// A neighbour whose name only begins like the directory does not lie under it, and everything
/// lies under the root.
pub proof fn whole_components_lie_under(directory: Seq<char>, p: Seq<char>)
    ensures
        under(Seq::empty(), p),
        under(directory, directory),
        under(directory, directory.push('/') + p),
        directory.len() > 0 && p.len() > 0 && p[0] != '/' ==> !under(directory, directory + p),
        under(directory, p) && directory.len() > 0 && p != directory ==> p == directory.push('/')
            + p.skip(directory.len() as int + 1),
{
    let q = directory.push('/');
    assert(q =~= (q + p).subrange(0, q.len() as int));
    if directory.len() > 0 && p.len() > 0 && p[0] != '/' {
        let s = directory + p;
        if q.is_prefix_of(s) {
            assert(q[directory.len() as int] == s.subrange(0, q.len() as int)[directory.len() as int]);
        }
    }
    if under(directory, p) && directory.len() > 0 && p != directory {
        assert(q =~= p.subrange(0, q.len() as int));
        assert(p =~= q + p.skip(directory.len() as int + 1));
    }
}

/// The root has no component, a name has one, and a separator adds none.
pub proof fn components_are_counted(name: Seq<char>)
    requires
        name.len() > 0,
        !name.contains('/'),
    ensures
        depth(Seq::empty()) == 0,
        depth(name) == 1,
        depth(name.push('/')) == 1,
        depth(seq!['/'] + name) == 1,
{
    text::lemma_one_piece(name, '/');
    text::lemma_last_of(Seq::empty(), '/');
    lemma_depth_push(name, '/');
    lemma_depth_concat(Seq::empty(), name);
    assert(Seq::<char>::empty().push('/') + name =~= seq!['/'] + name);
}

/// A backslash is a separator.
pub proof fn a_backslash_is_a_separator(p: Seq<char>)
    ensures
        clean(p) == clean(forward(p)),
        forall|i: int| 0 <= i < p.len() ==> #[trigger] forward(p)[i] == (if p[i] == '\\' {
            '/'
        } else {
            p[i]
        }),
{
    assert(forward(forward(p)) =~= forward(p));
}

/// One more component of a path: an empty one and a dot change nothing, two dots leave no path
/// at all wherever they stand, and a plain name in its normal form is added.
pub proof fn a_path_never_climbs(s: Seq<Seq<char>>, c: Seq<char>)
    ensures
        c.len() == 0 || c == seq!['.'] ==> kept(s.push(c)) == kept(s),
        c == seq!['.', '.'] ==> kept(s.push(c)) is None,
        kept(s) is None ==> kept(s.push(c)) is None,
        plain_component(c) && nfc(c) == c && kept(s) is Some ==> kept(s.push(c)) == Some(
            kept(s)->0.push(c),
        ),
        kept(Seq::empty()) == Some(Seq::<Seq<char>>::empty()),
{
    assert(s.push(c).drop_last() =~= s);
    if c == seq!['.', '.'] {
        assert(c.len() == 2);
    }
}

/// A path is put together from its components with one separator between each two.
pub proof fn components_are_joined_by_a_separator(s: Seq<Seq<char>>, c: Seq<char>)
    ensures
        joined(Seq::empty()) == Seq::<char>::empty(),
        joined(seq![c]) == c,
        s.len() > 0 ==> joined(s.push(c)) == joined(s).push('/') + c,
{
    assert(s.push(c).drop_last() =~= s);
}

/// The parent and the name of a path are what stands before and behind its last separator.
pub proof fn a_path_is_its_parent_and_its_name(p: Seq<char>, name: Seq<char>)
    requires
        !name.contains('/'),
    ensures
        parent(p.push('/') + name) == p,
        file_name(p.push('/') + name) == name,
        parent(name) == Seq::<char>::empty(),
        file_name(name) == name,
        p.len() > 0 ==> child(p, name) == p.push('/') + name,
        p.len() == 0 ==> child(p, name) == name,
{
    let whole = p.push('/') + name;
    text::lemma_last_of(whole, '/');
    text::lemma_last_of(name, '/');
    let n = p.len() as int;
    assert(whole[n] == '/');
    assert forall|i: int| n < i < whole.len() implies whole[i] != '/' by {
        assert(whole[i] == name[i - n - 1]);
    }
    assert(last_separator(whole) == n);
    assert(whole.take(n) =~= p);
    assert(whole.skip(n + 1) =~= name);
    assert(name.skip(0) =~= name);
}

/// One more component of a path as it is written: an empty one and a dot change nothing, two
/// dots leave no path at all wherever they stand, and a plain name is added as it is.
pub proof fn a_written_path_keeps_its_names(
    s: Seq<Seq<char>>,
    names: Seq<Seq<char>>,
    c: Seq<char>,
    name: Seq<char>,
)
    ensures
        assembled(Seq::empty(), names) == Some(Seq::<Seq<char>>::empty()),
        c.len() == 0 || c == seq!['.'] ==> assembled(s.push(c), names.push(name)) == assembled(
            s,
            names,
        ),
        c == seq!['.', '.'] ==> assembled(s.push(c), names.push(name)) is None,
        assembled(s, names) is None ==> assembled(s.push(c), names.push(name)) is None,
        c.len() > 0 && c != seq!['.'] && c != seq!['.', '.'] && plain_component(name)
            && assembled(s, names) is Some ==> assembled(s.push(c), names.push(name)) == Some(
            assembled(s, names)->0.push(name),
        ),
{
    assert(s.push(c).drop_last() =~= s);
    assert(names.push(name).drop_last() =~= names);
    if c == seq!['.', '.'] {
        assert(c.len() == 2);
        assert(c[1] == '.');
        assert(seq!['.'].len() == 1);
    }
}

/// What is cleaned as it is written is the same with either separator, and gives back a text
/// that is one plain component.
pub proof fn a_written_name_is_clean(p: Seq<char>)
    ensures
        clean_as_written(forward(p)) == clean_as_written(p),
        plain_component(p) ==> clean_as_written(p) == Some(p),
        p.len() == 0 || p == seq!['.'] ==> clean_as_written(p) == Some(Seq::<char>::empty()),
        p == seq!['.', '.'] ==> clean_as_written(p) is None,
{
    assert(forward(forward(p)) =~= forward(p));
    if p.len() == 0 || p == seq!['.'] || p == seq!['.', '.'] || plain_component(p) {
        assert forall|i: int| 0 <= i < p.len() implies p[i] != '\\' && p[i] != '/' by {
            if plain_component(p) {
                assert(p.contains(p[i]));
            }
        }
        assert(forward(p) =~= p);
        text::lemma_one_piece(p, '/');
        let one = seq![p];
        assert(parts(p) =~= one);
        assert(one =~= Seq::<Seq<char>>::empty().push(p));
        a_written_path_keeps_its_names(Seq::empty(), Seq::empty(), p, p);
        if plain_component(p) {
            assert(Seq::<Seq<char>>::empty().push(p) =~= one);
            assert(joined(one) == p);
        }
    }
}

/// ASCII is what is below 128.
pub proof fn ascii_is_seven_bits(s: Seq<char>, c: char)
    ensures
        ascii(Seq::empty()),
        ascii(s.push(c)) <==> ascii(s) && (c as int) < 128,
{
    let t = s.push(c);
    if ascii(t) {
        assert forall|i: int| 0 <= i < s.len() implies (#[trigger] s[i] as int) < 128 by {
            assert(t[i] == s[i]);
        }
        assert(t[s.len() as int] == c);
    }
}

} // verus!
