//! Listed objects, and the filter that selects among them.
//!
//! One filter serves every command that narrows: what a listing shows under a set of flags is
//! what a removal under the same flags takes.
use vstd::prelude::*;

use crate::error::{CliError, ExitCode, Result};
use crate::globals::Globals;
use crate::path;
use crate::path::{depth, file_name};
use crate::removal::filters::{bound_value, fault, is_fault, Fault, Filters};
use crate::text;
use crate::text::{chars_of, views};

verus! {

/// One stored object, as a listing reports it.
#[derive(Debug)]
pub struct Entry {
    /// Its path inside the remote.
    pub path: String,
    /// Its size in bytes, where one was measured.
    pub size: Option<u64>,
    /// When it was last written, in seconds since 1970, where that is known.
    pub modified_unix: Option<i64>,
}

impl Entry {
    /// An object of a known size.
    pub fn new(path: &str, size: u64) -> (e: Entry)
        ensures
            e.path@ == path@,
            e.size == Some(size),
            e.modified_unix is None,
    {
        Entry { path: path.to_owned(), size: Some(size), modified_unix: None }
    }

    /// An object whose size was never measured.
    pub fn unmeasured(path: &str) -> (e: Entry)
        ensures
            e.path@ == path@,
            e.size is None,
            e.modified_unix is None,
    {
        Entry { path: path.to_owned(), size: None, modified_unix: None }
    }

    /// The same object, with the time it was last written.
    pub fn with_modified(self, modified_unix: Option<i64>) -> (e: Entry)
        ensures
            e.path@ == self.path@,
            e.size == self.size,
            e.modified_unix == modified_unix,
    {
        Entry { path: self.path, size: self.size, modified_unix }
    }
}

/// The paths of entries.
pub open spec fn entry_paths(entries: Seq<Entry>) -> Seq<Seq<char>> {
    entries.map_values(|e: Entry| e.path@)
}

/// The paths of a listing.
pub fn paths_of(entries: &Vec<Entry>) -> (r: Vec<String>)
    ensures
        views(r@) == entry_paths(entries@),
{
    let mut r: Vec<String> = Vec::new();
    let mut i: usize = 0;
    while i < entries.len()
        invariant
            i <= entries.len(),
            views(r@) == entry_paths(entries@).take(i as int),
        decreases entries.len() - i,
    {
        let ghost before = views(r@);
        r.push(entries[i].path.clone());
        proof {
            assert(views(r@) =~= before.push(entries@[i as int].path@));
            assert(entry_paths(entries@).take(i + 1) =~= before.push(entries@[i as int].path@));
        }
        i = i + 1;
    }
    proof {
        assert(entry_paths(entries@).take(i as int) =~= entry_paths(entries@));
    }
    r
}

/// `p` as seen from `root`: what stands behind `root/`, or the name where `p` is `root`.
pub open spec fn relative(root: Seq<char>, p: Seq<char>) -> Seq<char> {
    if root.len() == 0 {
        p
    } else if root.push('/').is_prefix_of(p) {
        p.skip(root.len() as int + 1)
    } else {
        file_name(p)
    }
}

fn relative_to(root: &str, p: &str) -> (r: String)
    ensures
        r@ == relative(root@, p@),
{
    let base = chars_of(root);
    if base.len() == 0 {
        return p.to_owned();
    }
    let v = chars_of(p);
    if path::is_under(root, p) && v.len() > base.len() {
        proof {
            let q = root@.push('/');
            assert(q.is_prefix_of(p@));
            assert(v@.subrange(base@.len() as int + 1, v@.len() as int) =~= p@.skip(
                root@.len() as int + 1,
            ));
        }
        return text::string_of(v.as_slice(), base.len() + 1, v.len());
    }
    proof {
        if root@.push('/').is_prefix_of(p@) {
            assert(root@.push('/').len() <= p@.len());
        }
    }
    path::name_of(p)
}

/// Whether `c` is one of the characters or in one of the ranges of a class.
pub open spec fn in_class(class: Seq<char>, c: char) -> bool
    decreases class.len(),
{
    if class.len() == 0 {
        false
    } else if class.len() >= 3 && class[1] == '-' {
        (class[0] as int <= c as int <= class[2] as int) || in_class(class.skip(3), c)
    } else {
        class[0] == c || in_class(class.drop_first(), c)
    }
}

/// The position of the first `]` in `p`; the length of `p` where there is none.
pub open spec fn class_end(p: Seq<char>) -> int
    decreases p.len(),
{
    if p.len() == 0 || p[0] == ']' {
        0
    } else {
        1 + class_end(p.drop_first())
    }
}

/// Whether the whole of `s` matches the pattern `p`: `**` stands for any run of characters,
/// `*` for any run inside one component, `?` for one character inside a component, and
/// `[...]` for one of a class.
pub open spec fn glob(p: Seq<char>, s: Seq<char>) -> bool
    decreases p.len() + s.len(),
{
    if p.len() == 0 {
        s.len() == 0
    } else if p[0] == '*' {
        if p.len() >= 2 && p[1] == '*' {
            glob(p.skip(2), s) || (s.len() > 0 && glob(p, s.drop_first()))
        } else {
            glob(p.drop_first(), s) || (s.len() > 0 && s[0] != '/' && glob(p, s.drop_first()))
        }
    } else if s.len() == 0 {
        false
    } else if p[0] == '?' {
        s[0] != '/' && glob(p.drop_first(), s.drop_first())
    } else if p[0] == '[' && 0 <= class_end(p.drop_first()) < p.len() - 1 {
        let e = class_end(p.drop_first());
        in_class(p.subrange(1, e + 1), s[0]) && glob(p.skip(e + 2), s.drop_first())
    } else {
        p[0] == s[0] && glob(p.drop_first(), s.drop_first())
    }
}

/// Whether a pattern matches a path: from its root where the pattern starts with a
/// separator, otherwise from the start of any component.
pub open spec fn pattern_matches(p: Seq<char>, s: Seq<char>) -> bool {
    if p.len() > 0 && p[0] == '/' {
        glob(p.drop_first(), s)
    } else {
        glob(p, s) || exists|i: int|
            0 <= i < s.len() && s[i] == '/' && #[trigger] glob(p, s.skip(i + 1))
    }
}

/// Whether every class of a pattern is closed.
pub open spec fn classes_close(p: Seq<char>) -> bool
    decreases p.len(),
{
    if p.len() == 0 {
        true
    } else if p[0] == '[' {
        let e = class_end(p.drop_first());
        0 <= e < p.len() - 1 && classes_close(p.skip(e + 2))
    } else {
        classes_close(p.drop_first())
    }
}

proof fn lemma_class_end(p: Seq<char>)
    ensures
        0 <= class_end(p) <= p.len(),
    decreases p.len(),
{
    if p.len() > 0 && p[0] != ']' {
        lemma_class_end(p.drop_first());
    }
}

fn find_class_end(p: &[char], from: usize) -> (r: usize)
    requires
        from <= p@.len(),
    ensures
        r == from + class_end(p@.skip(from as int)),
        from <= r <= p@.len(),
{
    let mut i: usize = from;
    while i < p.len() && p[i] != ']'
        invariant
            from <= i <= p@.len(),
            class_end(p@.skip(from as int)) == i - from + class_end(p@.skip(i as int)),
        decreases p@.len() - i,
    {
        proof {
            assert(p@.skip(i as int).drop_first() =~= p@.skip(i + 1));
        }
        i = i + 1;
    }
    i
}

fn class_holds(p: &[char], from: usize, to: usize, c: char) -> (r: bool)
    requires
        from <= to <= p@.len(),
    ensures
        r == in_class(p@.subrange(from as int, to as int), c),
    decreases to - from,
{
    let ghost class = p@.subrange(from as int, to as int);
    if from == to {
        false
    } else if to - from >= 3 && p[from + 1] == '-' {
        assert(class.skip(3) =~= p@.subrange(from + 3, to as int));
        let n = text::code(c);
        (text::code(p[from]) <= n && n <= text::code(p[from + 2])) || class_holds(
            p,
            from + 3,
            to,
            c,
        )
    } else {
        assert(class.drop_first() =~= p@.subrange(from + 1, to as int));
        p[from] == c || class_holds(p, from + 1, to, c)
    }
}

fn glob_from(p: &[char], i: usize, s: &[char], j: usize) -> (r: bool)
    requires
        i <= p@.len(),
        j <= s@.len(),
    ensures
        r == glob(p@.skip(i as int), s@.skip(j as int)),
    decreases p@.len() - i + s@.len() - j,
{
    let ghost a = p@.skip(i as int);
    let ghost b = s@.skip(j as int);
    if i == p.len() {
        return j == s.len();
    }
    proof {
        assert(a.drop_first() =~= p@.skip(i + 1));
        if j < s@.len() {
            assert(b.drop_first() =~= s@.skip(j + 1));
        }
    }
    if p[i] == '*' {
        if i + 1 < p.len() && p[i + 1] == '*' {
            assert(a.skip(2) =~= p@.skip(i + 2));
            return glob_from(p, i + 2, s, j) || (j < s.len() && glob_from(p, i, s, j + 1));
        }
        return glob_from(p, i + 1, s, j) || (j < s.len() && s[j] != '/' && glob_from(
            p,
            i,
            s,
            j + 1,
        ));
    }
    if j == s.len() {
        return false;
    }
    if p[i] == '?' {
        return s[j] != '/' && glob_from(p, i + 1, s, j + 1);
    }
    if p[i] == '[' {
        let e = find_class_end(p, i + 1);
        proof {
            lemma_class_end(a.drop_first());
        }
        if e < p.len() {
            proof {
                let k = class_end(a.drop_first());
                assert(a.subrange(1, k + 1) =~= p@.subrange(i + 1, e as int));
                assert(a.skip(k + 2) =~= p@.skip(e + 1));
            }
            return class_holds(p, i + 1, e, s[j]) && glob_from(p, e + 1, s, j + 1);
        }
    }
    p[i] == s[j] && glob_from(p, i + 1, s, j + 1)
}

fn matches_pattern(pattern: &str, subject: &str) -> (r: bool)
    ensures
        r == pattern_matches(pattern@, subject@),
{
    let p = chars_of(pattern);
    let s = chars_of(subject);
    proof {
        assert(p@.skip(0) =~= p@);
        assert(s@.skip(0) =~= s@);
    }
    if p.len() > 0 && p[0] == '/' {
        assert(p@.skip(1) =~= p@.drop_first());
        return glob_from(p.as_slice(), 1, s.as_slice(), 0);
    }
    if glob_from(p.as_slice(), 0, s.as_slice(), 0) {
        return true;
    }
    let mut i: usize = 0;
    while i < s.len()
        invariant
            i <= s@.len(),
            p@ == pattern@,
            s@ == subject@,
            p@.skip(0) == p@,
            !(p@.len() > 0 && p@[0] == '/'),
            forall|k: int| 0 <= k < i && s@[k] == '/' ==> !#[trigger] glob(p@, s@.skip(k + 1)),
        decreases s@.len() - i,
    {
        if s[i] == '/' && glob_from(p.as_slice(), 0, s.as_slice(), i + 1) {
            return true;
        }
        i = i + 1;
    }
    false
}

fn closes(p: &[char], from: usize) -> (r: bool)
    requires
        from <= p@.len(),
    ensures
        r == classes_close(p@.skip(from as int)),
    decreases p@.len() - from,
{
    let ghost a = p@.skip(from as int);
    if from == p.len() {
        return true;
    }
    assert(a.drop_first() =~= p@.skip(from + 1));
    if p[from] == '[' {
        let e = find_class_end(p, from + 1);
        proof {
            lemma_class_end(a.drop_first());
        }
        if e == p.len() {
            return false;
        }
        assert(a.skip(class_end(a.drop_first()) + 2) =~= p@.skip(e + 1));
        return closes(p, e + 1);
    }
    closes(p, from + 1)
}

/// The objects that a set of flags selects.
#[derive(Debug)]
pub struct Filter {
    included: Vec<String>,
    excluded: Vec<String>,
    min_size: Option<u64>,
    max_size: Option<u64>,
    max_depth: Option<i32>,
}

impl Default for Filter {
    fn default() -> (f: Filter)
        ensures
            forall|p: Seq<char>, size: Option<u64>| #[trigger] f.admits(p, size),
    {
        Filter {
            included: Vec::new(),
            excluded: Vec::new(),
            min_size: None,
            max_size: None,
            max_depth: None,
        }
    }
}

/// Whether some pattern matches.
pub open spec fn any_matches(patterns: Seq<Seq<char>>, p: Seq<char>) -> bool {
    exists|i: int| 0 <= i < patterns.len() && pattern_matches(#[trigger] patterns[i], p)
}

/// Whether every pattern is well formed.
pub open spec fn all_close(patterns: Seq<Seq<char>>) -> bool {
    forall|i: int| 0 <= i < patterns.len() ==> classes_close(#[trigger] patterns[i])
}

/// Whether flags with these values select an object: it lies no deeper than the limit, its
/// size, where it has one, is within the bounds, some pattern takes it in where there are
/// any, and none takes it out.
pub open spec fn selects(
    included: Seq<Seq<char>>,
    excluded: Seq<Seq<char>>,
    min_size: Option<u64>,
    max_size: Option<u64>,
    max_depth: Option<i32>,
    p: Seq<char>,
    size: Option<u64>,
) -> bool {
    &&& max_depth matches Some(d) ==> depth(p) <= d
    &&& min_size is Some && size is Some ==> size->0 >= min_size->0
    &&& max_size is Some && size is Some ==> size->0 <= max_size->0
    &&& included.len() == 0 || any_matches(included, p)
    &&& !any_matches(excluded, p)
}

/// Why flags make no filter.
pub enum Unusable {
    /// A file of rules was named, and rule files are not read.
    RuleFile,
    /// The sizes or the depth are wrong.
    Bounds(Fault),
    /// A pattern to take in does not parse.
    Included,
    /// A pattern to take out does not parse.
    Excluded,
}

/// What keeps flags from making a filter.
pub open spec fn unusable(globals: Globals) -> Option<Unusable> {
    if globals.filter_from@.len() > 0 || globals.files_from@.len() > 0 {
        Some(Unusable::RuleFile)
    } else if fault(globals) is Some {
        Some(Unusable::Bounds(fault(globals)->0))
    } else if !all_close(views(globals.included@)) {
        Some(Unusable::Included)
    } else if !all_close(views(globals.excluded@)) {
        Some(Unusable::Excluded)
    } else {
        None
    }
}

/// Whether `e` says that the flags are unusable for that reason.
pub open spec fn is_unusable(e: CliError, globals: Globals, why: Unusable) -> bool {
    match why {
        Unusable::RuleFile => e.is(
            ExitCode::Usage,
            "--filter-from and --files-from are not supported"@,
            Some("Write the rules as --include and --exclude flags."@),
        ),
        Unusable::Bounds(f) => is_fault(e, globals, f),
        Unusable::Included => e.is(
            ExitCode::Usage,
            "--include: a character class is not closed"@,
            Some("Close every '[' with a ']'."@),
        ),
        Unusable::Excluded => e.is(
            ExitCode::Usage,
            "--exclude: a character class is not closed"@,
            Some("Close every '[' with a ']'."@),
        ),
    }
}

fn all_closed(patterns: &Vec<String>) -> (r: bool)
    ensures
        r == all_close(views(patterns@)),
{
    let mut i: usize = 0;
    while i < patterns.len()
        invariant
            i <= patterns@.len(),
            forall|k: int| 0 <= k < i ==> classes_close(#[trigger] views(patterns@)[k]),
        decreases patterns@.len() - i,
    {
        let p = chars_of(patterns[i].as_str());
        proof {
            assert(views(patterns@)[i as int] == p@);
            assert(p@.skip(0) =~= p@);
        }
        if !closes(p.as_slice(), 0) {
            return false;
        }
        i = i + 1;
    }
    true
}

fn any(patterns: &Vec<String>, p: &str) -> (r: bool)
    ensures
        r == any_matches(views(patterns@), p@),
{
    let mut i: usize = 0;
    while i < patterns.len()
        invariant
            i <= patterns@.len(),
            forall|k: int| 0 <= k < i ==> !pattern_matches(#[trigger] views(patterns@)[k], p@),
        decreases patterns@.len() - i,
    {
        assert(views(patterns@)[i as int] == patterns@[i as int]@);
        if matches_pattern(patterns[i].as_str(), p) {
            return true;
        }
        i = i + 1;
    }
    false
}

impl Filter {
    /// Whether an object at this path, relative to where the filter is rooted, is selected.
    pub closed spec fn admits(self, p: Seq<char>, size: Option<u64>) -> bool {
        selects(
            views(self.included@),
            views(self.excluded@),
            self.min_size,
            self.max_size,
            self.max_depth,
            p,
            size,
        )
    }

    /// Builds the filter that the flags ask for.
    pub fn from_globals(globals: &Globals) -> (r: Result<Filter>)
        ensures
            match r {
                Ok(f) => {
                    &&& unusable(*globals) is None
                    &&& forall|p: Seq<char>, size: Option<u64>| #[trigger]
                        f.admits(p, size) == selects(
                            views(globals.included@),
                            views(globals.excluded@),
                            bound_value(globals.min_size),
                            bound_value(globals.max_size),
                            if globals.max_depth == -1 {
                                None
                            } else {
                                Some(globals.max_depth)
                            },
                            p,
                            size,
                        )
                },
                Err(e) => unusable(*globals) matches Some(why) && is_unusable(e, *globals, why),
            },
    {
        if globals.filter_from.len() > 0 || globals.files_from.len() > 0 {
            return Err(
                CliError::advice(
                    "--filter-from and --files-from are not supported",
                    "Write the rules as --include and --exclude flags.",
                ),
            );
        }
        let filters = match Filters::resolve(globals) {
            Ok(f) => f,
            Err(e) => {
                return Err(e);
            },
        };
        if !all_closed(&globals.included) {
            return Err(
                CliError::advice(
                    "--include: a character class is not closed",
                    "Close every '[' with a ']'.",
                ),
            );
        }
        if !all_closed(&globals.excluded) {
            return Err(
                CliError::advice(
                    "--exclude: a character class is not closed",
                    "Close every '[' with a ']'.",
                ),
            );
        }
        Ok(
            Filter {
                included: filters.included,
                excluded: filters.excluded,
                min_size: filters.min_size,
                max_size: filters.max_size,
                max_depth: filters.max_depth,
            },
        )
    }

    /// Whether an object is selected, seen from `root`.
    pub fn matches(&self, root: &str, entry: &Entry) -> (r: bool)
        ensures
            r == self.admits(relative(root@, entry.path@), entry.size),
    {
        let p = relative_to(root, entry.path.as_str());
        if let Some(limit) = self.max_depth {
            let d = path::depth_of(p.as_str());
            if limit < 0 || d as u64 > limit as u64 {
                return false;
            }
        }
        if let (Some(low), Some(n)) = (self.min_size, entry.size) {
            if n < low {
                return false;
            }
        }
        if let (Some(high), Some(n)) = (self.max_size, entry.size) {
            if n > high {
                return false;
            }
        }
        (self.included.len() == 0 || any(&self.included, p.as_str())) && !any(
            &self.excluded,
            p.as_str(),
        )
    }
}

/// Flags that do not narrow take everything in.
pub proof fn idle_flags_take_everything(globals: Globals, p: Seq<char>, size: Option<u64>)
    requires
        !globals.narrows(),
    ensures
        selects(
            views(globals.included@),
            views(globals.excluded@),
            bound_value(globals.min_size),
            bound_value(globals.max_size),
            if globals.max_depth == -1 {
                None
            } else {
                Some(globals.max_depth)
            },
            p,
            size,
        ),
{
}

/// A path is seen from a root as what stands behind the root; from nowhere, as it is; and the
/// root itself by its own name.
pub proof fn a_path_is_seen_from_its_root(root: Seq<char>, p: Seq<char>, above: Seq<char>)
    ensures
        relative(Seq::empty(), p) == p,
        root.len() > 0 ==> relative(root, root.push('/') + p) == p,
        root.len() > 0 && root == above.push('/') + p && !p.contains('/') ==> relative(root, root)
            == p,
        root.len() > 0 && !root.contains('/') ==> relative(root, root) == root,
{
    let q = root.push('/');
    assert(q =~= (q + p).subrange(0, q.len() as int));
    assert((q + p).skip(q.len() as int) =~= p);
    if q.is_prefix_of(root) {
        assert(q.len() <= root.len());
    }
    if root == above.push('/') + p && !p.contains('/') {
        text::lemma_last_of_concat(above, p, '/');
        text::lemma_one_piece(p, '/');
        assert(root.skip(above.len() as int + 1) =~= p);
    }
    if !root.contains('/') {
        text::lemma_one_piece(root, '/');
        assert(root.skip(0) =~= root);
    }
}

/// Whether a character stands for itself in a pattern.
pub open spec fn plain(c: char) -> bool {
    c != '*' && c != '?' && c != '['
}

/// A character that stands for itself takes just that character, and a question mark takes any
/// one that is no separator. An empty pattern takes nothing.
pub proof fn a_plain_character_takes_itself(c: char, p: Seq<char>, s: Seq<char>)
    ensures
        plain(c) ==> (glob(seq![c] + p, s) <==> s.len() > 0 && s[0] == c && glob(
            p,
            s.drop_first(),
        )),
        glob(seq!['?'] + p, s) <==> s.len() > 0 && s[0] != '/' && glob(p, s.drop_first()),
        glob(Seq::empty(), s) <==> s.len() == 0,
{
    assert((seq![c] + p).drop_first() =~= p);
    assert((seq!['?'] + p).drop_first() =~= p);
}

/// A pattern without anything special in it takes just the text that it spells.
pub proof fn a_plain_pattern_takes_its_text(p: Seq<char>, s: Seq<char>)
    requires
        forall|i: int| 0 <= i < p.len() ==> plain(#[trigger] p[i]),
    ensures
        glob(p, s) <==> p == s,
    decreases p.len(),
{
    if p.len() == 0 {
        assert(s.len() == 0 ==> p =~= s);
    } else {
        let rest = p.drop_first();
        assert forall|i: int| 0 <= i < rest.len() implies plain(#[trigger] rest[i]) by {
            assert(rest[i] == p[i + 1]);
        }
        assert(plain(p[0]));
        if s.len() > 0 {
            a_plain_pattern_takes_its_text(rest, s.drop_first());
            if p[0] == s[0] && rest == s.drop_first() {
                assert(p =~= seq![p[0]] + rest);
                assert(s =~= seq![s[0]] + s.drop_first());
            }
        }
    }
}

/// A star takes any run of characters up to the next separator, and no further.
pub proof fn a_star_stays_in_its_component(p: Seq<char>, s: Seq<char>)
    requires
        p.len() == 0 || p[0] != '*',
    ensures
        glob(seq!['*'] + p, s) <==> exists|k: int|
            #![trigger s.skip(k)]
            0 <= k <= s.len() && !s.take(k).contains('/') && glob(p, s.skip(k)),
    decreases s.len(),
{
    let q = seq!['*'] + p;
    assert(q.drop_first() =~= p);
    assert(q.len() >= 2 ==> q[1] == p[0]);
    assert(s.skip(0) =~= s);
    assert(s.take(0) =~= Seq::empty());
    if s.len() > 0 && s[0] != '/' {
        let t = s.drop_first();
        a_star_stays_in_its_component(p, t);
        if glob(q, t) {
            let k = choose|k: int|
                #![trigger t.skip(k)]
                0 <= k <= t.len() && !t.take(k).contains('/') && glob(p, t.skip(k));
            assert(s.skip(k + 1) =~= t.skip(k));
            assert(!s.take(k + 1).contains('/')) by {
                let front = s.take(k + 1);
                if front.contains('/') {
                    let i = choose|i: int| 0 <= i < front.len() && front[i] == '/';
                    assert(front[0] == s[0]);
                    assert(t.take(k)[i - 1] == '/');
                }
            }
        }
    }
    if exists|k: int|
        #![trigger s.skip(k)]
        0 <= k <= s.len() && !s.take(k).contains('/') && glob(p, s.skip(k)) {
        let k = choose|k: int|
            #![trigger s.skip(k)]
            0 <= k <= s.len() && !s.take(k).contains('/') && glob(p, s.skip(k));
        if k > 0 {
            let t = s.drop_first();
            assert(s.take(k)[0] == s[0]);
            assert(s[0] != '/') by {
                if s[0] == '/' {
                    assert(s.take(k).contains('/'));
                }
            }
            a_star_stays_in_its_component(p, t);
            assert(t.skip(k - 1) =~= s.skip(k));
            assert(!t.take(k - 1).contains('/')) by {
                let front = t.take(k - 1);
                if front.contains('/') {
                    let i = choose|i: int| 0 <= i < front.len() && front[i] == '/';
                    assert(s.take(k)[i + 1] == '/');
                }
            }
            assert(glob(q, t));
        }
    }
}

/// Two stars take any run of characters, across separators too.
pub proof fn two_stars_cross_components(p: Seq<char>, s: Seq<char>)
    ensures
        glob(seq!['*', '*'] + p, s) <==> exists|k: int|
            #![trigger s.skip(k)]
            0 <= k <= s.len() && glob(p, s.skip(k)),
    decreases s.len(),
{
    let q = seq!['*', '*'] + p;
    assert(q.skip(2) =~= p);
    assert(s.skip(0) =~= s);
    if s.len() > 0 {
        let t = s.drop_first();
        two_stars_cross_components(p, t);
        if glob(q, t) {
            let k = choose|k: int|
                #![trigger t.skip(k)]
                0 <= k <= t.len() && glob(p, t.skip(k));
            assert(s.skip(k + 1) =~= t.skip(k));
        }
    }
    if exists|k: int| #![trigger s.skip(k)] 0 <= k <= s.len() && glob(p, s.skip(k)) {
        let k = choose|k: int| #![trigger s.skip(k)] 0 <= k <= s.len() && glob(p, s.skip(k));
        if k > 0 {
            assert(s.drop_first().skip(k - 1) =~= s.skip(k));
        }
    }
}

/// A class takes one character: one that it names, or one within a range that it names. It takes
/// a separator only where it names it.
pub proof fn a_class_takes_one_of_its_characters(
    class: Seq<char>,
    p: Seq<char>,
    s: Seq<char>,
    low: char,
    high: char,
    c: char,
)
    requires
        !class.contains(']'),
    ensures
        glob(seq!['['] + class + seq![']'] + p, s) <==> s.len() > 0 && in_class(class, s[0]) && glob(
            p,
            s.drop_first(),
        ),
        !in_class(Seq::empty(), c),
        in_class(seq![low, '-', high] + class, c) <==> (low as int <= c as int <= high as int)
            || in_class(class, c),
        class.len() == 0 || class[0] != '-' ==> (in_class(seq![low] + class, c) <==> low == c
            || in_class(class, c)),
{
    let whole = seq!['['] + class + seq![']'] + p;
    let rest = whole.drop_first();
    assert(rest =~= class + seq![']'] + p);
    lemma_class_ends(class, p);
    assert(whole.subrange(1, class.len() as int + 1) =~= class);
    assert(whole.skip(class.len() as int + 2) =~= p);
    assert((seq![low, '-', high] + class).skip(3) =~= class);
    assert((seq![low] + class).drop_first() =~= class);
}

proof fn lemma_class_ends(class: Seq<char>, p: Seq<char>)
    requires
        !class.contains(']'),
    ensures
        class_end(class + seq![']'] + p) == class.len(),
    decreases class.len(),
{
    let whole = class + seq![']'] + p;
    if class.len() > 0 {
        assert(class.contains(class[0]));
        let rest = class.drop_first();
        assert(!rest.contains(']')) by {
            if rest.contains(']') {
                let i = choose|i: int| 0 <= i < rest.len() && rest[i] == ']';
                assert(class[i + 1] == ']');
            }
        }
        lemma_class_ends(rest, p);
        assert(whole.drop_first() =~= rest + seq![']'] + p);
    } else {
        assert(whole[0] == ']');
    }
}

/// A pattern that starts with a separator matches from the root alone. Any other one matches
/// from the start of any component, so what it matches it also matches inside any directory.
pub proof fn a_pattern_matches_from_any_component(p: Seq<char>, s: Seq<char>, above: Seq<char>)
    ensures
        pattern_matches(seq!['/'] + p, s) <==> glob(p, s),
        p.len() > 0 && p[0] == '/' ==> (pattern_matches(p, s) <==> glob(p.drop_first(), s)),
        p.len() == 0 || p[0] != '/' ==> (glob(p, s) ==> pattern_matches(p, s) && pattern_matches(
            p,
            above.push('/') + s,
        )),
        (p.len() == 0 || p[0] != '/') && pattern_matches(p, s) ==> glob(p, s) || exists|i: int|
            0 <= i < s.len() && s[i] == '/' && #[trigger] glob(p, s.skip(i + 1)),
        !s.contains('/') && (p.len() == 0 || p[0] != '/') ==> (pattern_matches(p, s) <==> glob(
            p,
            s,
        )),
{
    assert((seq!['/'] + p).drop_first() =~= p);
    let t = above.push('/') + s;
    let n = above.len() as int;
    assert(t[n] == '/');
    assert(t.skip(n + 1) =~= s);
    assert(glob(p, t.skip(n + 1)) == glob(p, s));
}

/// What a set of flags selects: nothing deeper than the limit, nothing outside the bounds where
/// its size is known, nothing that no inclusion takes in where there are inclusions, and nothing
/// that an exclusion takes out; and everything else.
pub proof fn an_object_is_selected_by_every_flag(
    included: Seq<Seq<char>>,
    excluded: Seq<Seq<char>>,
    min_size: Option<u64>,
    max_size: Option<u64>,
    max_depth: Option<i32>,
    p: Seq<char>,
    size: Option<u64>,
    k: int,
)
    ensures
        ({
            let selected = selects(included, excluded, min_size, max_size, max_depth, p, size);
            &&& max_depth is Some && depth(p) > max_depth->0 ==> !selected
            &&& min_size is Some && size is Some && size->0 < min_size->0 ==> !selected
            &&& max_size is Some && size is Some && size->0 > max_size->0 ==> !selected
            &&& 0 <= k < excluded.len() && pattern_matches(excluded[k], p) ==> !selected
            &&& included.len() > 0 && (forall|i: int|
                0 <= i < included.len() ==> !pattern_matches(#[trigger] included[i], p))
                ==> !selected
            &&& (max_depth is None || depth(p) <= max_depth->0) && (size is None || ((min_size
                is None || size->0 >= min_size->0) && (max_size is None || size->0 <= max_size->0)))
                && (included.len() == 0 || (0 <= k < included.len() && pattern_matches(
                included[k],
                p,
            ))) && (forall|i: int|
                0 <= i < excluded.len() ==> !pattern_matches(#[trigger] excluded[i], p)) ==> selected
        }),
{
}

/// Flags make a filter exactly where they name no rule file, where their bounds make sense, and
/// where every class in a pattern is closed.
pub proof fn flags_make_a_filter(globals: Globals)
    ensures
        unusable(globals) is None <==> globals.filter_from@.len() == 0 && globals.files_from@.len()
            == 0 && fault(globals) is None && (forall|i: int|
            0 <= i < views(globals.included@).len() ==> classes_close(
                #[trigger] views(globals.included@)[i],
            )) && (forall|i: int|
            0 <= i < views(globals.excluded@).len() ==> classes_close(
                #[trigger] views(globals.excluded@)[i],
            )),
{
}

/// A class is closed by the first bracket behind it. Where there is none the pattern is not well
/// formed, and a pattern without classes always is.
pub proof fn a_class_has_to_be_closed(class: Seq<char>, p: Seq<char>, c: char)
    ensures
        classes_close(Seq::empty()),
        c != '[' ==> (classes_close(seq![c] + p) <==> classes_close(p)),
        !class.contains(']') ==> (classes_close(seq!['['] + class + seq![']'] + p) <==> classes_close(
            p,
        )),
        !class.contains(']') ==> !classes_close(seq!['['] + class),
{
    assert((seq![c] + p).drop_first() =~= p);
    if !class.contains(']') {
        let whole = seq!['['] + class + seq![']'] + p;
        lemma_class_ends(class, p);
        assert(whole.drop_first() =~= class + seq![']'] + p);
        assert(whole.skip(class.len() as int + 2) =~= p);
        let open = seq!['['] + class;
        assert(open.drop_first() =~= class);
        lemma_class_never_ends(class);
    }
}

proof fn lemma_class_never_ends(class: Seq<char>)
    requires
        !class.contains(']'),
    ensures
        class_end(class) == class.len(),
    decreases class.len(),
{
    if class.len() > 0 {
        assert(class.contains(class[0]));
        let rest = class.drop_first();
        assert(!rest.contains(']')) by {
            if rest.contains(']') {
                let i = choose|i: int| 0 <= i < rest.len() && rest[i] == ']';
                assert(class[i + 1] == ']');
            }
        }
        lemma_class_never_ends(rest);
    }
}

/// The paths of a listing are those of its entries, one for one and in order.
pub proof fn paths_are_those_of_the_entries(entries: Seq<Entry>, i: int)
    ensures
        entry_paths(entries).len() == entries.len(),
        0 <= i < entries.len() ==> entry_paths(entries)[i] == entries[i].path@,
{
}

/// Flags that make no filter are always a mistake in the request.
pub proof fn unusable_flags_are_a_mistake(e: CliError, globals: Globals, why: Unusable)
    requires
        is_unusable(e, globals, why),
    ensures
        e.code == ExitCode::Usage,
        e.hint is Some,
        why is RuleFile ==> e.message@ == "--filter-from and --files-from are not supported"@,
        why is Included ==> e.message@ == "--include: a character class is not closed"@,
        why is Excluded ==> e.message@ == "--exclude: a character class is not closed"@,
{
}

} // verus!
