//! What an empty directory is where there are no directories.
//!
//! A store holds one flat set of paths. A directory exists because something lies under it,
//! and an empty one exists only because a marker object declares it. Everything this module
//! answers follows from one set of paths.
use vstd::prelude::*;
use vstd::string::StringExecFns;

use crate::constants::DIRECTORY_MARKER_NAME;
use crate::ordered;
use crate::ordered::ascending;
use crate::path;
use crate::path::{canonical, child, depth, file_name, parent, under};
use crate::text;
use crate::text::{precedes, views};

verus! {

/// The views of a sequence of string slices.
pub open spec fn names(s: Seq<&str>) -> Seq<Seq<char>> {
    s.map_values(|t: &str| t@)
}

/// Whether `p` is the path of a directory marker.
pub open spec fn marks(p: Seq<char>) -> bool {
    file_name(p) == DIRECTORY_MARKER_NAME@
}

/// Whether `p` lies below `directory`; everything lies below the root.
pub open spec fn inside(directory: Seq<char>, p: Seq<char>) -> bool {
    directory.len() == 0 || directory.push('/').is_prefix_of(p)
}

/// The paths that are not markers.
pub open spec fn objects_of(paths: Seq<Seq<char>>) -> Set<Seq<char>> {
    Set::new(|p: Seq<char>| paths.contains(p) && !marks(p))
}

/// The directories that a marker declares.
pub open spec fn declared_by(paths: Seq<Seq<char>>) -> Set<Seq<char>> {
    Set::new(
        |d: Seq<char>|
            exists|i: int|
                0 <= i < paths.len() && marks(#[trigger] paths[i]) && parent(paths[i]) == d,
    )
}

/// Whether `a` comes before `b` in a sweep: deeper first, and by path within one depth.
pub open spec fn deeper(a: Seq<char>, b: Seq<char>) -> bool {
    depth(a) > depth(b) || (depth(a) == depth(b) && precedes(a, b))
}

/// Whether `s` is in the order of a sweep, with nothing twice.
pub open spec fn deepest_first(s: Seq<Seq<char>>) -> bool {
    forall|i: int, j: int| 0 <= i < j < s.len() ==> deeper(#[trigger] s[i], #[trigger] s[j])
}

/// The directory structure that one set of paths implies.
#[derive(Debug)]
pub struct Directories {
    objects: Vec<String>,
    markers: Vec<String>,
}

impl Default for Directories {
    fn default() -> (r: Directories)
        ensures
            r.objects() == Set::<Seq<char>>::empty(),
            r.declared() == Set::<Seq<char>>::empty(),
    {
        let r = Directories { objects: Vec::new(), markers: Vec::new() };
        proof {
            assert(r.objects() =~= Set::<Seq<char>>::empty());
            assert(r.declared() =~= Set::<Seq<char>>::empty());
        }
        r
    }
}

impl Directories {
    #[verifier::type_invariant]
    closed spec fn in_order(self) -> bool {
        ascending(views(self.objects@)) && ascending(views(self.markers@))
    }

    /// The paths of everything that is not a marker.
    pub closed spec fn objects(self) -> Set<Seq<char>> {
        views(self.objects@).to_set()
    }

    /// The directories that have a marker.
    pub closed spec fn declared(self) -> Set<Seq<char>> {
        views(self.markers@).to_set()
    }

    /// Whether an object lies below `directory`.
    pub open spec fn occupied(self, directory: Seq<char>) -> bool {
        exists|p: Seq<char>| #[trigger] self.objects().contains(p) && inside(directory, p)
    }

    /// Whether anything at all is stored at or below `directory`.
    pub open spec fn present(self, directory: Seq<char>) -> bool {
        self.occupied(directory) || exists|d: Seq<char>| #[trigger]
            self.declared().contains(d) && under(directory, d)
    }

    /// Derives the structure from the paths of a listing.
    pub fn from_paths(paths: &Vec<String>) -> (r: Directories)
        ensures
            r.objects() == objects_of(views(paths@)),
            r.declared() == declared_by(views(paths@)),
    {
        let mut objects: Vec<String> = Vec::new();
        let mut markers: Vec<String> = Vec::new();
        let ghost all = views(paths@);
        let mut i: usize = 0;
        while i < paths.len()
            invariant
                i <= paths@.len(),
                all == views(paths@),
                ascending(views(objects@)),
                ascending(views(markers@)),
                forall|p: Seq<char>|
                    views(objects@).contains(p) <==> (exists|j: int|
                        0 <= j < i && #[trigger] all[j] == p && !marks(p)),
                forall|d: Seq<char>|
                    views(markers@).contains(d) <==> (exists|j: int|
                        0 <= j < i && marks(#[trigger] all[j]) && parent(all[j]) == d),
            decreases paths@.len() - i,
        {
            let p = paths[i].as_str();
            let ghost before = views(objects@);
            let ghost before_markers = views(markers@);
            assert(all[i as int] == p@);
            match directory_of_marker(p) {
                Some(d) => {
                    let ghost added = d@;
                    ordered::insert(&mut markers, d);
                    proof {
                        assert forall|d: Seq<char>| views(markers@).contains(d) <==> (exists|j: int|
                            0 <= j < i + 1 && marks(#[trigger] all[j]) && parent(all[j]) == d) by {
                            if before_markers.contains(d) {
                                let j = choose|j: int|
                                    0 <= j < i && marks(#[trigger] all[j]) && parent(all[j]) == d;
                                assert(marks(all[j]));
                            }
                        }
                    }
                },
                None => {
                    ordered::insert(&mut objects, p.to_owned());
                    proof {
                        assert forall|q: Seq<char>| views(objects@).contains(q) <==> (exists|j: int|
                            0 <= j < i + 1 && #[trigger] all[j] == q && !marks(q)) by {
                            if before.contains(q) {
                                let j = choose|j: int|
                                    0 <= j < i && #[trigger] all[j] == q && !marks(q);
                                assert(all[j] == q);
                            }
                        }
                    }
                },
            }
            i = i + 1;
        }
        let r = Directories { objects, markers };
        proof {
            assert(r.objects() =~= objects_of(all)) by {
                assert forall|p: Seq<char>| r.objects().contains(p) <==> objects_of(all).contains(
                    p,
                ) by {
                    if objects_of(all).contains(p) {
                        let j = choose|j: int| 0 <= j < all.len() && all[j] == p;
                        assert(all[j] == p && !marks(p));
                    }
                }
            }
            assert(r.declared() =~= declared_by(all));
        }
        r
    }

    /// Whether anything, object or marker, lies at or under `directory`.
    pub fn is_present(&self, directory: &str) -> (r: bool)
        ensures
            r == self.present(directory@),
    {
        proof {
            use_type_invariant(self);
        }
        let mut i: usize = 0;
        while i < self.markers.len()
            invariant
                i <= self.markers@.len(),
                forall|j: int| 0 <= j < i ==> !under(directory@, #[trigger] views(self.markers@)[j]),
            decreases self.markers@.len() - i,
        {
            assert(views(self.markers@)[i as int] == self.markers@[i as int]@);
            if path::is_under(directory, self.markers[i].as_str()) {
                assert(self.declared().contains(views(self.markers@)[i as int]));
                return true;
            }
            i = i + 1;
        }
        self.holds_object(directory)
    }

    /// Whether `directory` holds any object that is not a marker, at any depth.
    pub fn holds_object(&self, directory: &str) -> (r: bool)
        ensures
            r == self.occupied(directory@),
    {
        self.first_object_under(directory).is_some()
    }

    /// Whether nothing lies under `directory` but markers.
    pub fn is_empty(&self, directory: &str) -> (r: bool)
        ensures
            r == !self.occupied(directory@),
    {
        !self.holds_object(directory)
    }

    /// The first object under `directory`, in order of path.
    pub fn first_object_under(&self, directory: &str) -> (r: Option<&str>)
        ensures
            match r {
                Some(p) => {
                    &&& self.objects().contains(p@)
                    &&& inside(directory@, p@)
                    &&& forall|q: Seq<char>| #[trigger]
                        self.objects().contains(q) && inside(directory@, q) ==> q == p@ || precedes(
                            p@,
                            q,
                        )
                },
                None => !self.occupied(directory@),
            },
    {
        proof {
            use_type_invariant(self);
        }
        let ghost s = views(self.objects@);
        if directory.is_empty() {
            if self.objects.len() == 0 {
                return None;
            }
            proof {
                assert(s[0] == self.objects@[0]@);
                assert(s.contains(s[0]));
                assert forall|q: Seq<char>| #[trigger] self.objects().contains(q) implies q == s[0]
                    || precedes(s[0], q) by {
                    let j = choose|j: int| 0 <= j < s.len() && s[j] == q;
                    assert(j == 0 || precedes(s[0], s[j]));
                }
            }
            return Some(self.objects[0].as_str());
        }
        let mut prefix = directory.to_owned();
        prefix.push('/');
        let ghost w = directory@.push('/');
        let i = ordered::lower_bound(&self.objects, prefix.as_str());
        proof {
            assert forall|q: Seq<char>| #[trigger]
                self.objects().contains(q) && inside(directory@, q) implies (exists|j: int|
                i <= j < s.len() && #[trigger] s[j] == q) by {
                let j = choose|j: int| 0 <= j < s.len() && s[j] == q;
                ordered::lemma_prefix_not_after(w, q);
                assert(s[j] == q && j >= i);
            }
        }
        if i == self.objects.len() {
            return None;
        }
        assert(s[i as int] == self.objects@[i as int]@);
        if starts_with(self.objects[i].as_str(), prefix.as_str()) {
            proof {
                assert(s.contains(s[i as int]));
                assert forall|q: Seq<char>| #[trigger]
                    self.objects().contains(q) && inside(directory@, q) implies q == s[i as int]
                    || precedes(s[i as int], q) by {
                    let j = choose|j: int| i <= j < s.len() && #[trigger] s[j] == q;
                    assert(j == i || precedes(s[i as int], s[j]));
                }
            }
            Some(self.objects[i].as_str())
        } else {
            proof {
                assert forall|q: Seq<char>| #[trigger] self.objects().contains(q) implies !inside(
                    directory@,
                    q,
                ) by {
                    if inside(directory@, q) {
                        let j = choose|j: int| i <= j < s.len() && #[trigger] s[j] == q;
                        assert(j != i);
                        assert(precedes(s[i as int], s[j]));
                        ordered::lemma_prefix_interval(w, s[i as int], q);
                    }
                }
            }
            None
        }
    }

    /// The declared directories strictly below `directory`, in the order of a sweep.
    pub fn subdirectories(&self, directory: &str) -> (r: Vec<&str>)
        ensures
            deepest_first(names(r@)),
            forall|d: Seq<char>|
                names(r@).contains(d) <==> self.declared().contains(d) && under(directory@, d) && d
                    != directory@,
    {
        self.below(directory, false)
    }

    /// The declared directories at or below `directory`, in the order of a sweep.
    pub fn declared_at_or_below(&self, directory: &str) -> (r: Vec<&str>)
        ensures
            deepest_first(names(r@)),
            forall|d: Seq<char>|
                names(r@).contains(d) <==> self.declared().contains(d) && under(directory@, d),
    {
        self.below(directory, true)
    }

    fn below(&self, directory: &str, itself: bool) -> (r: Vec<&str>)
        ensures
            deepest_first(names(r@)),
            forall|d: Seq<char>|
                names(r@).contains(d) <==> self.declared().contains(d) && under(directory@, d) && (
                itself || d != directory@),
    {
        let mut found: Vec<&str> = Vec::new();
        let mut i: usize = 0;
        let ghost s = views(self.markers@);
        while i < self.markers.len()
            invariant
                i <= self.markers@.len(),
                s == views(self.markers@),
                deepest_first(names(found@)),
                forall|d: Seq<char>|
                    names(found@).contains(d) <==> (exists|j: int|
                        0 <= j < i && #[trigger] s[j] == d && under(directory@, d) && (itself || d
                            != directory@)),
            decreases self.markers@.len() - i,
        {
            let d = self.markers[i].as_str();
            assert(s[i as int] == d@);
            let ghost before = names(found@);
            if path::is_under(directory, d) && (itself || !text::same(d, directory)) {
                insert_deepest(&mut found, d);
            }
            proof {
                assert forall|e: Seq<char>| names(found@).contains(e) <==> (exists|j: int|
                    0 <= j < i + 1 && #[trigger] s[j] == e && under(directory@, e) && (itself || e
                        != directory@)) by {
                    if before.contains(e) {
                        let j = choose|j: int|
                            0 <= j < i && #[trigger] s[j] == e && under(directory@, e) && (itself
                                || e != directory@);
                        assert(s[j] == e);
                    }
                }
            }
            i = i + 1;
        }
        proof {
            assert forall|e: Seq<char>| names(found@).contains(e) <==> self.declared().contains(e)
                && under(directory@, e) && (itself || e != directory@) by {
                if self.declared().contains(e) {
                    let j = choose|j: int| 0 <= j < s.len() && s[j] == e;
                    assert(s[j] == e);
                }
            }
        }
        found
    }

    /// Whether `directory` has a marker of its own.
    pub fn is_declared(&self, directory: &str) -> (r: bool)
        ensures
            r == self.declared().contains(directory@),
    {
        proof {
            use_type_invariant(self);
        }
        ordered::contains(&self.markers, directory)
    }
}

/// Whether `s` begins with `prefix`.
fn starts_with(s: &str, prefix: &str) -> (r: bool)
    ensures
        r == prefix@.is_prefix_of(s@),
{
    let a = text::chars_of(s);
    let p = text::chars_of(prefix);
    if a.len() < p.len() {
        return false;
    }
    let mut i: usize = 0;
    while i < p.len()
        invariant
            a@ == s@,
            p@ == prefix@,
            i <= p.len() <= a.len(),
            forall|j: int| 0 <= j < i ==> a@[j] == p@[j],
        decreases p.len() - i,
    {
        if a[i] != p[i] {
            proof {
                if prefix@.is_prefix_of(s@) {
                    assert(p@[i as int] == s@.subrange(0, p@.len() as int)[i as int]);
                }
            }
            return false;
        }
        i = i + 1;
    }
    assert(p@ =~= a@.subrange(0, p@.len() as int));
    true
}

proof fn lemma_deeper_transitive(a: Seq<char>, b: Seq<char>, c: Seq<char>)
    requires
        deeper(a, b),
        deeper(b, c),
    ensures
        deeper(a, c),
{
    if depth(a) == depth(b) && depth(b) == depth(c) {
        text::lemma_precedes_transitive(a, b, c);
    }
}

fn comes_before(a: &str, b: &str) -> (r: bool)
    ensures
        r == deeper(a@, b@),
{
    let x = path::depth_of(a);
    let y = path::depth_of(b);
    x > y || (x == y && text::before(a, b))
}

/// Puts `d` where it belongs in the order of a sweep.
fn insert_deepest<'a>(v: &mut Vec<&'a str>, d: &'a str)
    requires
        deepest_first(names(old(v)@)),
    ensures
        deepest_first(names(final(v)@)),
        forall|t: Seq<char>|
            names(final(v)@).contains(t) <==> names(old(v)@).contains(t) || t == d@,
{
    let ghost before = names(v@);
    let mut from: usize = 0;
    let mut to: usize = v.len();
    while from < to
        invariant
            v@ == old(v)@,
            before == names(v@),
            from <= to <= v@.len(),
            deepest_first(before),
            forall|i: int| 0 <= i < from ==> deeper(#[trigger] before[i], d@),
            forall|i: int| to <= i < v@.len() ==> !deeper(#[trigger] before[i], d@),
        decreases to - from,
    {
        let middle: usize = from + (to - from) / 2;
        assert(before[middle as int] == v@[middle as int]@);
        if comes_before(v[middle], d) {
            proof {
                assert forall|i: int| 0 <= i < middle + 1 implies deeper(#[trigger] before[i], d@) by {
                    if i < middle {
                        lemma_deeper_transitive(before[i], before[middle as int], d@);
                    }
                }
            }
            from = middle + 1;
        } else {
            proof {
                assert forall|i: int| middle <= i < v@.len() implies !deeper(
                    #[trigger] before[i],
                    d@,
                ) by {
                    if i > middle && deeper(before[i], d@) {
                        lemma_deeper_transitive(before[middle as int], before[i], d@);
                    }
                }
            }
            to = middle;
        }
    }
    if from < v.len() && text::same(v[from], d) {
        assert(before[from as int] == d@);
        return;
    }
    let ghost i = from as int;
    v.insert(from, d);
    proof {
        let after = names(v@);
        assert(after =~= before.insert(i, d@));
        assert forall|a: int, b: int| 0 <= a < b < after.len() implies deeper(
            #[trigger] after[a],
            #[trigger] after[b],
        ) by {
            if i < before.len() {
                text::lemma_precedes_total(before[i], d@);
                assert(deeper(d@, before[i]));
            }
            if b == i {
                assert(after[a] == before[a]);
            } else if a == i {
                assert(after[b] == before[b - 1]);
                if b - 1 > i {
                    lemma_deeper_transitive(d@, before[i], before[b - 1]);
                }
            } else {
                let x = if a < i {
                    a
                } else {
                    a - 1
                };
                let y = if b < i {
                    b
                } else {
                    b - 1
                };
                assert(after[a] == before[x] && after[b] == before[y]);
            }
        }
        assert forall|t: Seq<char>| after.contains(t) <==> before.contains(t) || t == d@ by {
            if after.contains(t) {
                let j = choose|j: int| 0 <= j < after.len() && after[j] == t;
                if j < i {
                    assert(before[j] == t);
                } else if j > i {
                    assert(before[j - 1] == t);
                }
            }
            if before.contains(t) {
                let j = choose|j: int| 0 <= j < before.len() && before[j] == t;
                if j < i {
                    assert(after[j] == t);
                } else {
                    assert(after[j + 1] == t);
                }
            }
            assert(after[i] == d@);
        }
    }
}

/// The path of the marker that declares `directory`.
pub fn marker_path(directory: &str) -> (r: String)
    ensures
        r@ == child(directory@, DIRECTORY_MARKER_NAME@),
{
    path::join(directory, DIRECTORY_MARKER_NAME)
}

/// Whether a path is that of a directory marker.
pub fn is_marker(p: &str) -> (r: bool)
    ensures
        r == marks(p@),
{
    let name = path::name_of(p);
    text::same(name.as_str(), DIRECTORY_MARKER_NAME)
}

/// The directory that a marker declares; nothing for an ordinary object.
pub fn directory_of_marker(p: &str) -> (r: Option<String>)
    ensures
        match r {
            Some(d) => marks(p@) && d@ == parent(p@),
            None => !marks(p@),
        },
{
    if is_marker(p) {
        Some(path::parent_of(p))
    } else {
        None
    }
}

/// A directory's marker path is a marker, and the directory it declares is that directory.
pub proof fn marker_paths_round_trip(directory: Seq<char>)
    ensures
        marks(child(directory, DIRECTORY_MARKER_NAME@)),
        parent(child(directory, DIRECTORY_MARKER_NAME@)) == directory,
{
    reveal_strlit(".dctl-dir");
    assert(!DIRECTORY_MARKER_NAME@.contains('/'));
    path::lemma_child_splits(directory, DIRECTORY_MARKER_NAME@);
}

/// A sweep never reaches a directory before something declared below it: of two canonical
/// directories in the order of a sweep, the later one never lies under the earlier one.
pub proof fn a_sweep_reaches_children_first(s: Seq<Seq<char>>, i: int, j: int)
    requires
        deepest_first(s),
        0 <= i < j < s.len(),
        canonical(s[j]),
    ensures
        !under(s[i], s[j]),
{
    assert(deeper(s[i], s[j]));
    text::lemma_precedes_irreflexive(s[i]);
    if under(s[i], s[j]) {
        path::lemma_below_is_deeper(s[i], s[j]);
    }
}

/// A declared directory exists, and so does every directory above one that exists.
pub proof fn existence_reaches_upwards(dirs: Directories, above: Seq<char>, directory: Seq<char>)
    requires
        under(above, directory),
    ensures
        dirs.declared().contains(directory) ==> dirs.present(directory),
        dirs.present(directory) ==> dirs.present(above),
{
    if dirs.present(directory) {
        if dirs.occupied(directory) {
            let p = choose|p: Seq<char>| #[trigger]
                dirs.objects().contains(p) && inside(directory, p);
            if directory.len() > 0 {
                assert(under(directory, p));
                path::lemma_under_transitive(above, directory, p);
                if above.len() > 0 && p == above {
                    assert(directory.push('/').len() <= p.len());
                    if directory != above {
                        assert(above.push('/').len() <= directory.len());
                    }
                }
            }
            assert(inside(above, p));
        } else {
            let d = choose|d: Seq<char>| #[trigger]
                dirs.declared().contains(d) && under(directory, d);
            path::lemma_under_transitive(above, directory, d);
        }
    }
}

/// A marker is an object with the marker's name, at the root or in a directory; nothing else is
/// one.
pub proof fn a_marker_is_known_by_its_name(p: Seq<char>)
    ensures
        marks(p) <==> p == DIRECTORY_MARKER_NAME@ || (p.len() > DIRECTORY_MARKER_NAME@.len()
            && p.skip(p.len() - DIRECTORY_MARKER_NAME@.len()) == DIRECTORY_MARKER_NAME@ && p[p.len()
            - DIRECTORY_MARKER_NAME@.len() - 1] == '/'),
        marks(p) && p.len() > DIRECTORY_MARKER_NAME@.len() ==> parent(p) == p.take(
            p.len() - DIRECTORY_MARKER_NAME@.len() - 1,
        ),
{
    reveal_strlit(".dctl-dir");
    let m = DIRECTORY_MARKER_NAME@;
    assert(!m.contains('/'));
    text::lemma_last_of(p, '/');
    let n = p.len() - m.len();
    if p == m {
        text::lemma_one_piece(m, '/');
        assert(p.skip(0) =~= p);
    } else if n > 0 && p.skip(n) == m && p[n - 1] == '/' {
        let d = p.take(n - 1);
        assert(p =~= d.push('/') + m);
        text::lemma_last_of_concat(d, m, '/');
        text::lemma_one_piece(m, '/');
    }
    if marks(p) {
        let i = path::last_separator(p);
        if i >= 0 {
            assert(p.skip(i + 1).len() == m.len());
            assert(i == n - 1);
        } else {
            assert(p.skip(0) =~= p);
        }
    }
}

/// Of two directories the one with more components is swept first, and of two with as many the
/// one whose path comes first.
pub proof fn the_deepest_is_swept_first(a: Seq<char>, b: Seq<char>)
    ensures
        depth(a) > depth(b) ==> deeper(a, b) && !deeper(b, a),
        depth(a) == depth(b) && precedes(a, b) ==> deeper(a, b),
        depth(a) == depth(b) && !precedes(a, b) ==> !deeper(a, b),
{
}

/// A path is an object of a listing exactly where it is listed and is no marker; a directory is
/// declared exactly where its marker is listed; and it is occupied exactly where an object's path
/// goes on behind it.
pub proof fn a_listing_tells_its_directories(dirs: Directories, paths: Seq<Seq<char>>, d: Seq<char>)
    requires
        dirs.objects() == objects_of(paths),
        dirs.declared() == declared_by(paths),
        d.len() > 0,
    ensures
        dirs.declared().contains(d) <==> paths.contains(d.push('/') + DIRECTORY_MARKER_NAME@),
        dirs.occupied(d) <==> exists|i: int|
            0 <= i < paths.len() && d.push('/').is_prefix_of(#[trigger] paths[i]) && !marks(
                paths[i],
            ),
        dirs.present(d) <==> dirs.occupied(d) || exists|e: Seq<char>|
            (e == d || d.push('/').is_prefix_of(e)) && #[trigger] dirs.declared().contains(e),
{
    let m = d.push('/') + DIRECTORY_MARKER_NAME@;
    marker_paths_round_trip(d);
    if dirs.declared().contains(d) {
        let i = choose|i: int|
            0 <= i < paths.len() && marks(#[trigger] paths[i]) && parent(paths[i]) == d;
        let p = paths[i];
        text::lemma_last_of(p, '/');
        let n = path::last_separator(p);
        assert(p =~= p.take(n).push(p[n]) + p.skip(n + 1));
        assert(paths[i] == m);
    }
    if paths.contains(m) {
        let i = choose|i: int| 0 <= i < paths.len() && paths[i] == m;
        assert(marks(paths[i]));
    }
    if dirs.occupied(d) {
        let p = choose|p: Seq<char>| #[trigger] dirs.objects().contains(p) && inside(d, p);
        let i = choose|i: int| 0 <= i < paths.len() && paths[i] == p;
        assert(d.push('/').is_prefix_of(paths[i]));
    }
    if exists|i: int|
        0 <= i < paths.len() && d.push('/').is_prefix_of(#[trigger] paths[i]) && !marks(paths[i]) {
        let i = choose|i: int|
            0 <= i < paths.len() && d.push('/').is_prefix_of(#[trigger] paths[i]) && !marks(
                paths[i],
            );
        assert(dirs.objects().contains(paths[i]));
    }
}

} // verus!
