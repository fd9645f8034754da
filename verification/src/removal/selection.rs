//! What one removal takes: the exact items, in the order in which they go.
//!
//! Objects come in the order of the listing. Directory markers come after every object and
//! deepest first, so an interrupted run never undeclares a directory that still holds
//! something.
use vstd::prelude::*;

use crate::constants::{
    DIRECTORY_MARKER_NAME, REMOVAL_KIND_DIRECTORY, REMOVAL_KIND_OBJECT, REMOVAL_NOT_EMPTY_HINT,
};
use crate::error::{CliError, ExitCode, Result};
use crate::listing;
use crate::listing::{entry_paths, relative, Entry, Filter};
use crate::path::{canonical, child, last_separator, lemma_under_transitive, parent, under};
use crate::removal::dirs;
use crate::removal::dirs::{
    declared_by, deepest_first, inside, marks, names, objects_of, Directories,
};
use crate::removal::operation::Operation;
use crate::removal::target::Target;
use crate::text;
use crate::text::{precedes, views};

verus! {

/// One thing that a removal takes.
#[derive(Debug)]
pub struct Item {
    pub path: String,
    /// The size that the listing reported, if it reported one.
    pub size: Option<u64>,
    /// `object`, `directory`, or the class of a piece of debris.
    pub kind: &'static str,
}

/// What an item says.
pub struct ItemView {
    pub path: Seq<char>,
    pub size: Option<u64>,
    pub kind: Seq<char>,
}

impl View for Item {
    type V = ItemView;

    open spec fn view(&self) -> ItemView {
        ItemView { path: self.path@, size: self.size, kind: self.kind@ }
    }
}

pub open spec fn item_views(items: Seq<Item>) -> Seq<ItemView> {
    items.map_values(|i: Item| i@)
}

/// Everything one removal resolved to.
#[derive(Debug)]
pub struct Selection {
    /// What will be removed, in that order.
    pub items: Vec<Item>,
    /// How many objects were looked at.
    pub considered: usize,
}

/// The item for an object.
pub open spec fn object_item(e: Entry) -> ItemView {
    ItemView { path: e.path@, size: e.size, kind: REMOVAL_KIND_OBJECT@ }
}

/// The item that stands for a directory.
pub open spec fn directory_item(directory: Seq<char>) -> ItemView {
    ItemView {
        path: child(directory, DIRECTORY_MARKER_NAME@),
        size: Some(0),
        kind: REMOVAL_KIND_DIRECTORY@,
    }
}

/// The items that stand for directories.
pub open spec fn directory_items(directories: Seq<Seq<char>>) -> Seq<ItemView> {
    directories.map_values(|d: Seq<char>| directory_item(d))
}

/// Whether a filter rooted at `root` takes an entry: markers are never taken.
pub open spec fn taken(filter: Filter, root: Seq<char>, e: Entry) -> bool {
    !marks(e.path@) && filter.admits(relative(root, e.path@), e.size)
}

/// The items of the entries that a filter takes.
pub open spec fn chosen(filter: Filter, root: Seq<char>, entries: Seq<Entry>) -> Seq<ItemView>
    decreases entries.len(),
{
    if entries.len() == 0 {
        Seq::empty()
    } else {
        let before = chosen(filter, root, entries.drop_last());
        if taken(filter, root, entries.last()) {
            before.push(object_item(entries.last()))
        } else {
            before
        }
    }
}

/// The paths of the entries that a filter leaves.
pub open spec fn surviving(filter: Filter, root: Seq<char>, entries: Seq<Entry>) -> Seq<Seq<char>>
    decreases entries.len(),
{
    if entries.len() == 0 {
        Seq::empty()
    } else {
        let before = surviving(filter, root, entries.drop_last());
        if taken(filter, root, entries.last()) {
            before
        } else {
            before.push(entries.last().path@)
        }
    }
}

/// The items of all entries that are not markers.
pub open spec fn all_objects(entries: Seq<Entry>) -> Seq<ItemView>
    decreases entries.len(),
{
    if entries.len() == 0 {
        Seq::empty()
    } else {
        let before = all_objects(entries.drop_last());
        if marks(entries.last().path@) {
            before
        } else {
            before.push(object_item(entries.last()))
        }
    }
}

/// Whether an object among `paths` lies below `directory`.
pub open spec fn holds_object(paths: Seq<Seq<char>>, directory: Seq<char>) -> bool {
    exists|p: Seq<char>| #[trigger] objects_of(paths).contains(p) && inside(directory, p)
}

/// Whether a deletion sweeps `directory` away: it is declared below `root`, it held an
/// object before, and it holds none after.
pub open spec fn emptied(
    filter: Filter,
    root: Seq<char>,
    entries: Seq<Entry>,
    directory: Seq<char>,
) -> bool {
    let left = surviving(filter, root, entries);
    &&& declared_by(left).contains(directory)
    &&& under(root, directory)
    &&& directory != root
    &&& !holds_object(left, directory)
    &&& holds_object(entry_paths(entries), directory)
}

/// Whether `items` is what a deletion takes, with `swept` as the directories it empties.
pub open spec fn is_delete_with(
    items: Seq<ItemView>,
    filter: Filter,
    root: Seq<char>,
    entries: Seq<Entry>,
    rmdirs: bool,
    swept: Seq<Seq<char>>,
) -> bool {
    &&& deepest_first(swept)
    &&& items == chosen(filter, root, entries) + directory_items(swept)
    &&& forall|d: Seq<char>| #[trigger]
        swept.contains(d) <==> rmdirs && emptied(filter, root, entries, d)
}

/// Whether `items` is what a deletion takes: the objects that the filter takes, and on
/// request, deepest first, the directories that taking them empties.
pub open spec fn is_delete(
    items: Seq<ItemView>,
    filter: Filter,
    root: Seq<char>,
    entries: Seq<Entry>,
    rmdirs: bool,
) -> bool {
    exists|swept: Seq<Seq<char>>| #[trigger]
        is_delete_with(items, filter, root, entries, rmdirs, swept)
}

/// Whether `items` is what a purge takes, with `swept` as the declared directories.
pub open spec fn is_purge_with(
    items: Seq<ItemView>,
    root: Seq<char>,
    entries: Seq<Entry>,
    swept: Seq<Seq<char>>,
) -> bool {
    &&& deepest_first(swept)
    &&& items == all_objects(entries) + directory_items(swept)
    &&& forall|d: Seq<char>| #[trigger]
        swept.contains(d) <==> declared_by(entry_paths(entries)).contains(d) && under(root, d)
}

/// Whether `items` is what a purge takes: every object, then, deepest first, every declared
/// directory at or below `root`.
pub open spec fn is_purge(items: Seq<ItemView>, root: Seq<char>, entries: Seq<Entry>) -> bool {
    exists|swept: Seq<Seq<char>>| #[trigger] is_purge_with(items, root, entries, swept)
}

/// Whether `items` is what a sweep of empty directories takes, with `swept` as those
/// directories.
pub open spec fn is_rmdirs_with(
    items: Seq<ItemView>,
    root: Seq<char>,
    structure: Directories,
    leave_root: bool,
    swept: Seq<Seq<char>>,
) -> bool {
    &&& deepest_first(swept)
    &&& items == directory_items(swept)
    &&& forall|d: Seq<char>| #[trigger]
        swept.contains(d) <==> structure.declared().contains(d) && under(root, d) && !(leave_root
            && d == root) && !structure.occupied(d)
}

/// Whether `items` is what a sweep of empty directories takes: deepest first, every declared
/// directory at or below `root` that holds no object.
pub open spec fn is_rmdirs(
    items: Seq<ItemView>,
    root: Seq<char>,
    structure: Directories,
    leave_root: bool,
) -> bool {
    exists|swept: Seq<Seq<char>>| #[trigger]
        is_rmdirs_with(items, root, structure, leave_root, swept)
}

/// The directories that a sweep visits are fixed by which ones they are.
pub proof fn lemma_one_sweep(a: Seq<Seq<char>>, b: Seq<Seq<char>>)
    requires
        deepest_first(a),
        deepest_first(b),
        forall|d: Seq<char>| a.contains(d) <==> b.contains(d),
    ensures
        a == b,
    decreases a.len(),
{
    if a.len() == 0 {
        if b.len() > 0 {
            assert(b.contains(b[0]));
        }
        assert(a =~= b);
    } else {
        assert(a.contains(a[0]));
        assert(b.len() > 0);
        assert(b.contains(b[0]));
        let i = choose|i: int| 0 <= i < b.len() && b[i] == a[0];
        let j = choose|j: int| 0 <= j < a.len() && a[j] == b[0];
        if i > 0 {
            assert(dirs::deeper(b[0], b[i]));
            assert(dirs::deeper(a[0], a[j]));
            text::lemma_precedes_irreflexive(a[0]);
            if precedes(a[0], b[0]) && precedes(b[0], a[0]) {
                text::lemma_precedes_transitive(a[0], b[0], a[0]);
            }
        }
        assert(a[0] == b[0]);
        let x = a.drop_first();
        let y = b.drop_first();
        assert forall|k: int, l: int| 0 <= k < l < x.len() implies dirs::deeper(
            #[trigger] x[k],
            #[trigger] x[l],
        ) by {
            assert(dirs::deeper(a[k + 1], a[l + 1]));
        }
        assert forall|k: int, l: int| 0 <= k < l < y.len() implies dirs::deeper(
            #[trigger] y[k],
            #[trigger] y[l],
        ) by {
            assert(dirs::deeper(b[k + 1], b[l + 1]));
        }
        assert forall|d: Seq<char>| x.contains(d) <==> y.contains(d) by {
            if x.contains(d) {
                let k = choose|k: int| 0 <= k < x.len() && x[k] == d;
                assert(a[k + 1] == d);
                assert(dirs::deeper(a[0], a[k + 1]));
                text::lemma_precedes_irreflexive(d);
                assert(a.contains(d));
                let l = choose|l: int| 0 <= l < b.len() && b[l] == d;
                assert(l > 0);
                assert(y[l - 1] == d);
            }
            if y.contains(d) {
                let k = choose|k: int| 0 <= k < y.len() && y[k] == d;
                assert(b[k + 1] == d);
                assert(dirs::deeper(b[0], b[k + 1]));
                text::lemma_precedes_irreflexive(d);
                assert(b.contains(d));
                let l = choose|l: int| 0 <= l < a.len() && a[l] == d;
                assert(l > 0);
                assert(x[l - 1] == d);
            }
        }
        lemma_one_sweep(x, y);
        assert(a =~= seq![a[0]] + x);
        assert(b =~= seq![b[0]] + y);
    }
}

/// The item that stands for a directory.
fn marker_item(directory: &str) -> (i: Item)
    ensures
        i@ == directory_item(directory@),
{
    Item {
        path: dirs::marker_path(directory),
        size: Some(0),
        kind: REMOVAL_KIND_DIRECTORY,
    }
}

/// The kind of a path, read from the path itself.
pub open spec fn kind_text(p: Seq<char>) -> Seq<char> {
    if marks(p) {
        REMOVAL_KIND_DIRECTORY@
    } else {
        REMOVAL_KIND_OBJECT@
    }
}

fn kind_of(p: &str) -> (r: &'static str)
    ensures
        r@ == kind_text(p@),
{
    if dirs::is_marker(p) {
        REMOVAL_KIND_DIRECTORY
    } else {
        REMOVAL_KIND_OBJECT
    }
}

/// `delete`: the objects that the filter takes, and on request the directories that taking
/// them empties.
pub fn delete(
    filter: &Filter,
    target: &Target,
    entries: &Vec<Entry>,
    before: &Directories,
    rmdirs: bool,
) -> (r: Vec<Item>)
    requires
        rmdirs ==> before.objects() == objects_of(entry_paths(entries@)),
    ensures
        is_delete(item_views(r@), *filter, target.path@, entries@, rmdirs),
{
    let root = target.path.as_str();
    let mut removed: Vec<Item> = Vec::new();
    let mut left: Vec<String> = Vec::new();
    let mut i: usize = 0;
    proof {
        assert(entries@.take(0) =~= Seq::empty());
        assert(item_views(removed@) =~= Seq::empty());
        assert(views(left@) =~= Seq::empty());
    }
    while i < entries.len()
        invariant
            i <= entries@.len(),
            root@ == target.path@,
            item_views(removed@) == chosen(*filter, root@, entries@.take(i as int)),
            views(left@) == surviving(*filter, root@, entries@.take(i as int)),
        decreases entries@.len() - i,
    {
        let entry = &entries[i];
        let ghost a = item_views(removed@);
        let ghost b = views(left@);
        proof {
            assert(entries@.take(i + 1).drop_last() =~= entries@.take(i as int));
            assert(entries@.take(i + 1).last() == *entry);
        }
        if !dirs::is_marker(entry.path.as_str()) && filter.matches(root, entry) {
            removed.push(
                Item { path: entry.path.clone(), size: entry.size, kind: REMOVAL_KIND_OBJECT },
            );
            proof {
                assert(item_views(removed@) =~= a.push(object_item(*entry)));
            }
        } else {
            left.push(entry.path.clone());
            proof {
                assert(views(left@) =~= b.push(entry.path@));
            }
        }
        i = i + 1;
    }
    proof {
        assert(entries@.take(entries@.len() as int) =~= entries@);
    }
    let ghost objects = item_views(removed@);
    if !rmdirs {
        proof {
            let none = Seq::<Seq<char>>::empty();
            assert(deepest_first(none));
            assert(objects + directory_items(none) =~= objects);
            assert(is_delete_with(objects, *filter, root@, entries@, rmdirs, none));
        }
        return removed;
    }
    let after = Directories::from_paths(&left);
    let candidates = after.declared_at_or_below(root);
    let ghost all = names(candidates@);
    let ghost mut swept: Seq<Seq<char>> = Seq::empty();
    let mut k: usize = 0;
    proof {
        assert(objects + directory_items(swept) =~= objects);
    }
    while k < candidates.len()
        invariant
            k <= candidates@.len(),
            all == names(candidates@),
            deepest_first(all),
            root@ == target.path@,
            after.objects() == objects_of(views(left@)),
            after.declared() == declared_by(views(left@)),
            views(left@) == surviving(*filter, root@, entries@),
            before.objects() == objects_of(entry_paths(entries@)),
            forall|d: Seq<char>|
                all.contains(d) <==> after.declared().contains(d) && under(root@, d),
            item_views(removed@) == objects + directory_items(swept),
            deepest_first(swept),
            forall|x: int|
                0 <= x < swept.len() ==> picked_from(all, k as int, #[trigger] swept[x]),
            forall|d: Seq<char>|
                swept.contains(d) <==> (exists|y: int| 0 <= y < k && #[trigger] all[y] == d)
                    && emptied(*filter, root@, entries@, d),
        decreases candidates@.len() - k,
    {
        let directory = candidates[k];
        let ghost was = swept;
        let ghost shown = item_views(removed@);
        proof {
            assert(all[k as int] == directory@);
            assert(all.contains(directory@));
            assert(after.occupied(directory@) == holds_object(views(left@), directory@));
            assert(before.occupied(directory@) == holds_object(
                entry_paths(entries@),
                directory@,
            ));
        }
        if !text::same(directory, root) && after.is_empty(directory) && before.holds_object(
            directory,
        ) {
            removed.push(marker_item(directory));
            proof {
                swept = was.push(directory@);
                assert(emptied(*filter, root@, entries@, directory@));
                assert(item_views(removed@) =~= shown.push(directory_item(directory@)));
                assert(directory_items(swept) =~= directory_items(was).push(
                    directory_item(directory@),
                ));
                lemma_sweep_push(all, was, k as int);
            }
        }
        proof {
            assert forall|d: Seq<char>| swept.contains(d) <==> (exists|y: int|
                0 <= y < k + 1 && #[trigger] all[y] == d) && emptied(
                *filter,
                root@,
                entries@,
                d,
            ) by {
                if swept.contains(d) {
                    let x = choose|x: int| 0 <= x < swept.len() && swept[x] == d;
                    if x < was.len() {
                        assert(was[x] == d);
                        assert(was.contains(d));
                    }
                }
                if was.contains(d) {
                    let x = choose|x: int| 0 <= x < was.len() && was[x] == d;
                    assert(swept[x] == d);
                }
                if swept.len() > was.len() {
                    assert(swept[was.len() as int] == directory@);
                }
            }
            assert forall|x: int| 0 <= x < swept.len() implies picked_from(
                all,
                k + 1,
                #[trigger] swept[x],
            ) by {
                if x < was.len() {
                    assert(was[x] == swept[x]);
                    let y = choose|y: int| 0 <= y < k && all[y] == was[x];
                    assert(all[y] == swept[x]);
                } else {
                    assert(all[k as int] == swept[x]);
                }
            }
        }
        k = k + 1;
    }
    proof {
        assert forall|d: Seq<char>| #[trigger] swept.contains(d) <==> rmdirs && emptied(
            *filter,
            root@,
            entries@,
            d,
        ) by {
            if emptied(*filter, root@, entries@, d) {
                assert(all.contains(d));
                let y = choose|y: int| 0 <= y < all.len() && all[y] == d;
                assert(all[y] == d);
            }
        }
        assert(is_delete_with(item_views(removed@), *filter, root@, entries@, rmdirs, swept));
    }
    removed
}

/// Whether `d` is one of the first `k` of a sequence.
spec fn picked_from(all: Seq<Seq<char>>, k: int, d: Seq<char>) -> bool {
    exists|y: int| 0 <= y < k && #[trigger] all[y] == d
}

/// Adding the next of an ordered sequence to what was picked before keeps the order.
proof fn lemma_sweep_push(all: Seq<Seq<char>>, picked: Seq<Seq<char>>, k: int)
    requires
        deepest_first(all),
        deepest_first(picked),
        0 <= k < all.len(),
        forall|x: int|
            0 <= x < picked.len() ==> picked_from(all, k, #[trigger] picked[x]),
    ensures
        deepest_first(picked.push(all[k])),
{
    let s = picked.push(all[k]);
    assert forall|a: int, b: int| 0 <= a < b < s.len() implies dirs::deeper(
        #[trigger] s[a],
        #[trigger] s[b],
    ) by {
        assert(s[a] == picked[a]);
        if b < picked.len() {
            assert(s[b] == picked[b]);
        } else {
            let y = choose|y: int| 0 <= y < k && all[y] == picked[a];
            assert(dirs::deeper(all[y], all[k]));
        }
    }
}

/// Whether entry `i` is the first one at exactly this path.
pub open spec fn first_at(entries: Seq<Entry>, p: Seq<char>, i: int) -> bool {
    &&& 0 <= i < entries.len()
    &&& entries[i].path@ == p
    &&& forall|j: int| 0 <= j < i ==> (#[trigger] entries[j]).path@ != p
}

/// Whether no entry stands at exactly this path.
pub open spec fn none_at(entries: Seq<Entry>, p: Seq<char>) -> bool {
    forall|j: int| 0 <= j < entries.len() ==> (#[trigger] entries[j]).path@ != p
}

/// Whether `e` is the refusal of a target that does not exist.
pub open spec fn is_missing(
    e: CliError,
    code: ExitCode,
    target: Target,
    hint: Seq<char>,
) -> bool {
    e.is(code, "'"@ + target.text() + "' does not exist"@, Some(hint))
}

/// What `deletefile` answers: the one object that is named, or why there is none.
pub open spec fn is_delete_file(r: Result<Vec<Item>>, target: Target, entries: Seq<Entry>) -> bool {
    match r {
        Ok(items) => exists|i: int| #[trigger]
            first_at(entries, target.path@, i) && item_views(items@) == seq![
                ItemView {
                    path: target.path@,
                    size: entries[i].size,
                    kind: kind_text(target.path@),
                },
            ],
        Err(e) => none_at(entries, target.path@) && (if entries.len() == 0 {
            is_missing(
                e,
                ExitCode::FileNotFound,
                target,
                "Check the path with `dctl ls`, then name the object exactly."@,
            )
        } else {
            e.is(
                ExitCode::Usage,
                "'"@ + target.text() + "' is a directory, not an object"@,
                Some(
                    "Use `dctl rmdir` for an empty directory, or `dctl purge` to remove a directory and everything in it."@,
                ),
            )
        }),
    }
}

/// What `purge` answers.
pub open spec fn is_purge_answer(r: Result<Vec<Item>>, target: Target, entries: Seq<Entry>) -> bool {
    match r {
        Ok(items) => (entries.len() > 0 || target.path@.len() == 0) && is_purge(
            item_views(items@),
            target.path@,
            entries,
        ),
        Err(e) => entries.len() == 0 && target.path@.len() > 0 && is_missing(
            e,
            ExitCode::DirNotFound,
            target,
            "There is nothing stored under this path, so there is nothing to purge."@,
        ),
    }
}

/// Whether `p` is the first object below `directory`, in order of path.
pub open spec fn first_occupant(structure: Directories, directory: Seq<char>, p: Seq<char>) -> bool {
    &&& structure.objects().contains(p)
    &&& inside(directory, p)
    &&& forall|q: Seq<char>| #[trigger]
        structure.objects().contains(q) && inside(directory, q) ==> q == p || precedes(p, q)
}

/// Whether `d` is declared strictly below `directory`.
pub open spec fn declared_below(structure: Directories, directory: Seq<char>, d: Seq<char>) -> bool {
    structure.declared().contains(d) && under(directory, d) && d != directory
}

/// Whether `d` is the first directory that a sweep below `directory` would visit.
pub open spec fn first_child(structure: Directories, directory: Seq<char>, d: Seq<char>) -> bool {
    &&& declared_below(structure, directory, d)
    &&& forall|q: Seq<char>| #[trigger]
        declared_below(structure, directory, q) ==> q == d || dirs::deeper(d, q)
}

/// The refusal of a directory that holds something.
pub open spec fn is_not_empty(
    e: CliError,
    target: Target,
    occupant: Seq<char>,
    hint: Seq<char>,
) -> bool {
    e.is(
        ExitCode::Usage,
        "'"@ + target.text() + "' is not empty: it holds '"@ + occupant + "'"@,
        Some(hint),
    )
}

/// What `rmdir` answers: the directory's marker where it exists and is empty and childless,
/// and otherwise which of the three it is not.
pub open spec fn is_rmdir(r: Result<Vec<Item>>, target: Target, structure: Directories) -> bool {
    let d = target.path@;
    match r {
        Ok(items) => {
            &&& structure.declared().contains(d)
            &&& !structure.occupied(d)
            &&& forall|q: Seq<char>| !#[trigger] declared_below(structure, d, q)
            &&& item_views(items@) == seq![directory_item(d)]
        },
        Err(e) => if !structure.present(d) {
            is_missing(
                e,
                ExitCode::DirNotFound,
                target,
                "A directory holding no objects is not stored anywhere, so a vault cannot tell it from one that was never created. `dctl mkdir` is what makes an empty directory exist."@,
            )
        } else if structure.occupied(d) {
            exists|p: Seq<char>| #[trigger]
                first_occupant(structure, d, p) && is_not_empty(
                    e,
                    target,
                    p,
                    REMOVAL_NOT_EMPTY_HINT@,
                )
        } else {
            exists|c: Seq<char>| #[trigger]
                first_child(structure, d, c) && is_not_empty(
                    e,
                    target,
                    c,
                    "Remove the directories inside it first, or use `dctl rmdirs` to sweep every empty directory under a path."@,
                )
        },
    }
}

fn not_empty(target: &Target, occupant: &str, hint: &str) -> (e: CliError)
    ensures
        is_not_empty(e, *target, occupant@, hint@),
{
    let shown = target.to_text();
    CliError::usage(
        text::cat5("'", shown.as_str(), "' is not empty: it holds '", occupant, "'"),
    ).with_hint(hint.to_owned())
}

fn missing(code: ExitCode, target: &Target, hint: &str) -> (e: CliError)
    ensures
        is_missing(e, code, *target, hint@),
{
    let shown = target.to_text();
    CliError::new(code, text::cat3("'", shown.as_str(), "' does not exist")).with_hint(
        hint.to_owned(),
    )
}

/// `deletefile`: exactly the one object that is named.
pub fn delete_file(target: &Target, entries: &Vec<Entry>) -> (r: Result<Vec<Item>>)
    ensures
        is_delete_file(r, *target, entries@),
{
    let mut i: usize = 0;
    while i < entries.len()
        invariant
            i <= entries@.len(),
            forall|j: int| 0 <= j < i ==> (#[trigger] entries@[j]).path@ != target.path@,
        decreases entries@.len() - i,
    {
        if text::same(entries[i].path.as_str(), target.path.as_str()) {
            let mut items: Vec<Item> = Vec::new();
            items.push(
                Item {
                    path: entries[i].path.clone(),
                    size: entries[i].size,
                    kind: kind_of(entries[i].path.as_str()),
                },
            );
            proof {
                assert(first_at(entries@, target.path@, i as int));
                assert(item_views(items@) =~= seq![
                    ItemView {
                        path: target.path@,
                        size: entries@[i as int].size,
                        kind: kind_text(target.path@),
                    },
                ]);
            }
            return Ok(items);
        }
        i = i + 1;
    }
    if entries.len() == 0 {
        return Err(
            missing(
                ExitCode::FileNotFound,
                target,
                "Check the path with `dctl ls`, then name the object exactly.",
            ),
        );
    }
    let shown = target.to_text();
    Err(
        CliError::usage(
            text::cat3("'", shown.as_str(), "' is a directory, not an object"),
        ).with_hint(
            "Use `dctl rmdir` for an empty directory, or `dctl purge` to remove a directory and everything in it.".to_owned(),
        ),
    )
}

/// The items that stand for directories, in the order given.
fn marker_items(directories: &Vec<&str>) -> (r: Vec<Item>)
    ensures
        item_views(r@) == directory_items(names(directories@)),
{
    let mut r: Vec<Item> = Vec::new();
    let mut i: usize = 0;
    let ghost all = directory_items(names(directories@));
    while i < directories.len()
        invariant
            i <= directories@.len(),
            all == directory_items(names(directories@)),
            item_views(r@) == all.take(i as int),
        decreases directories@.len() - i,
    {
        let ghost before = item_views(r@);
        r.push(marker_item(directories[i]));
        proof {
            assert(item_views(r@) =~= before.push(directory_item(directories@[i as int]@)));
            assert(all.take(i + 1) =~= before.push(directory_item(directories@[i as int]@)));
        }
        i = i + 1;
    }
    proof {
        assert(all.take(i as int) =~= all);
    }
    r
}

/// `purge`: the target and everything below it.
pub fn purge(target: &Target, entries: &Vec<Entry>, structure: &Directories) -> (r: Result<
    Vec<Item>,
>)
    requires
        structure.declared() == declared_by(entry_paths(entries@)),
    ensures
        is_purge_answer(r, *target, entries@),
{
    if entries.len() == 0 && !target.is_root() {
        return Err(
            missing(
                ExitCode::DirNotFound,
                target,
                "There is nothing stored under this path, so there is nothing to purge.",
            ),
        );
    }
    let mut items: Vec<Item> = Vec::new();
    let mut i: usize = 0;
    proof {
        assert(entries@.take(0) =~= Seq::empty());
        assert(item_views(items@) =~= Seq::empty());
    }
    while i < entries.len()
        invariant
            i <= entries@.len(),
            item_views(items@) == all_objects(entries@.take(i as int)),
        decreases entries@.len() - i,
    {
        let entry = &entries[i];
        let ghost before = item_views(items@);
        proof {
            assert(entries@.take(i + 1).drop_last() =~= entries@.take(i as int));
            assert(entries@.take(i + 1).last() == *entry);
        }
        if !dirs::is_marker(entry.path.as_str()) {
            items.push(
                Item { path: entry.path.clone(), size: entry.size, kind: REMOVAL_KIND_OBJECT },
            );
            proof {
                assert(item_views(items@) =~= before.push(object_item(*entry)));
            }
        }
        i = i + 1;
    }
    let swept = structure.declared_at_or_below(target.path.as_str());
    let mut markers = marker_items(&swept);
    proof {
        assert(entries@.take(entries@.len() as int) =~= entries@);
    }
    let ghost objects = item_views(items@);
    let ghost directories = item_views(markers@);
    items.append(&mut markers);
    proof {
        assert(item_views(items@) =~= objects + directories);
        assert(is_purge_with(item_views(items@), target.path@, entries@, names(swept@)));
    }
    Ok(items)
}

/// `rmdir`: one directory, and only where it is empty already.
pub fn rmdir(target: &Target, structure: &Directories) -> (r: Result<Vec<Item>>)
    ensures
        is_rmdir(r, *target, *structure),
{
    let d = target.path.as_str();
    if !structure.is_present(d) {
        return Err(
            missing(
                ExitCode::DirNotFound,
                target,
                "A directory holding no objects is not stored anywhere, so a vault cannot tell it from one that was never created. `dctl mkdir` is what makes an empty directory exist.",
            ),
        );
    }
    if let Some(occupant) = structure.first_object_under(d) {
        let e = not_empty(target, occupant, REMOVAL_NOT_EMPTY_HINT);
        proof {
            assert(first_occupant(*structure, d@, occupant@));
        }
        return Err(e);
    }
    let children = structure.subdirectories(d);
    let ghost all = names(children@);
    if children.len() > 0 {
        let e = not_empty(
            target,
            children[0],
            "Remove the directories inside it first, or use `dctl rmdirs` to sweep every empty directory under a path.",
        );
        proof {
            assert(all[0] == children@[0]@);
            assert(all.contains(all[0]));
            assert forall|q: Seq<char>| #[trigger] declared_below(*structure, d@, q) implies q
                == all[0] || dirs::deeper(all[0], q) by {
                assert(all.contains(q));
                let j = choose|j: int| 0 <= j < all.len() && all[j] == q;
                if j > 0 {
                    assert(dirs::deeper(all[0], all[j]));
                }
            }
            assert(first_child(*structure, d@, all[0]));
        }
        return Err(e);
    }
    let mut items: Vec<Item> = Vec::new();
    items.push(marker_item(d));
    proof {
        assert(item_views(items@) =~= seq![directory_item(d@)]);
        assert forall|q: Seq<char>| !#[trigger] declared_below(*structure, d@, q) by {
            if declared_below(*structure, d@, q) {
                assert(all.contains(q));
            }
        }
        let q = choose|q: Seq<char>| #[trigger] structure.declared().contains(q) && under(d@, q);
        assert(!declared_below(*structure, d@, q));
    }
    Ok(items)
}

/// `rmdirs`: every declared, empty directory at or below the target, deepest first.
pub fn rmdirs(target: &Target, structure: &Directories, leave_root: bool) -> (r: Vec<Item>)
    ensures
        is_rmdirs(item_views(r@), target.path@, *structure, leave_root),
{
    let root = target.path.as_str();
    let candidates = structure.declared_at_or_below(root);
    let ghost all = names(candidates@);
    let ghost mut swept: Seq<Seq<char>> = Seq::empty();
    let mut r: Vec<Item> = Vec::new();
    let mut k: usize = 0;
    proof {
        assert(item_views(r@) =~= directory_items(swept));
    }
    while k < candidates.len()
        invariant
            k <= candidates@.len(),
            all == names(candidates@),
            deepest_first(all),
            root@ == target.path@,
            item_views(r@) == directory_items(swept),
            deepest_first(swept),
            forall|x: int| 0 <= x < swept.len() ==> picked_from(all, k as int, #[trigger] swept[x]),
            forall|d: Seq<char>|
                swept.contains(d) <==> picked_from(all, k as int, d) && !(leave_root && d == root@)
                    && !structure.occupied(d),
        decreases candidates@.len() - k,
    {
        let directory = candidates[k];
        let ghost was = swept;
        let ghost shown = item_views(r@);
        proof {
            assert(all[k as int] == directory@);
        }
        if !(leave_root && text::same(directory, root)) && structure.is_empty(directory) {
            r.push(marker_item(directory));
            proof {
                swept = was.push(directory@);
                assert(item_views(r@) =~= shown.push(directory_item(directory@)));
                assert(directory_items(swept) =~= directory_items(was).push(
                    directory_item(directory@),
                ));
                lemma_sweep_push(all, was, k as int);
            }
        }
        proof {
            assert forall|d: Seq<char>| #[trigger] picked_from(all, k + 1, d) <==> (picked_from(
                all,
                k as int,
                d,
            ) || d == directory@) by {
                if picked_from(all, k + 1, d) && d != directory@ {
                    let y = choose|y: int| 0 <= y < k + 1 && #[trigger] all[y] == d;
                    assert(all[y] == d && y < k);
                }
                if picked_from(all, k as int, d) {
                    let y = choose|y: int| 0 <= y < k && #[trigger] all[y] == d;
                    assert(all[y] == d);
                }
            }
            assert forall|d: Seq<char>| swept.contains(d) <==> picked_from(all, k + 1, d) && !(
            leave_root && d == root@) && !structure.occupied(d) by {
                if swept.len() > was.len() {
                    assert(swept[was.len() as int] == directory@);
                }
                if swept.contains(d) {
                    let x = choose|x: int| 0 <= x < swept.len() && swept[x] == d;
                    if x < was.len() {
                        assert(was[x] == d);
                    }
                }
                if was.contains(d) {
                    let x = choose|x: int| 0 <= x < was.len() && was[x] == d;
                    assert(swept[x] == d);
                }
            }
            assert forall|x: int| 0 <= x < swept.len() implies picked_from(
                all,
                k + 1,
                #[trigger] swept[x],
            ) by {
                assert(swept.contains(swept[x]));
            }
        }
        k = k + 1;
    }
    proof {
        assert forall|d: Seq<char>| #[trigger]
            swept.contains(d) <==> structure.declared().contains(d) && under(root@, d) && !(
            leave_root && d == root@) && !structure.occupied(d) by {
            if structure.declared().contains(d) && under(root@, d) {
                assert(all.contains(d));
                let y = choose|y: int| 0 <= y < all.len() && all[y] == d;
                assert(all[y] == d);
                assert(picked_from(all, k as int, d));
            }
            if picked_from(all, k as int, d) {
                let y = choose|y: int| 0 <= y < k && #[trigger] all[y] == d;
                assert(all.contains(all[y]));
            }
        }
        assert(is_rmdirs_with(item_views(r@), root@, *structure, leave_root, swept));
    }
    r
}

/// What `operation` takes of a listing.
pub open spec fn is_selection(
    r: Result<Selection>,
    target: Target,
    operation: Operation,
    filter: Filter,
    entries: Seq<Entry>,
    structure: Directories,
) -> bool {
    match operation {
        Operation::Delete { rmdirs } => r matches Ok(s) && s.considered == entries.len()
            && is_delete(item_views(s.items@), filter, target.path@, entries, rmdirs),
        Operation::DeleteFile => answers(r, entries.len(), |x: Result<Vec<Item>>|
            is_delete_file(x, target, entries)),
        Operation::Purge => answers(r, entries.len(), |x: Result<Vec<Item>>|
            is_purge_answer(x, target, entries)),
        Operation::Rmdir => answers(r, entries.len(), |x: Result<Vec<Item>>|
            is_rmdir(x, target, structure)),
        Operation::Rmdirs { leave_root } => r matches Ok(s) && s.considered == entries.len()
            && is_rmdirs(item_views(s.items@), target.path@, structure, leave_root),
        Operation::Cleanup { .. } => r matches Ok(s) && s.considered == 0 && s.items@.len() == 0,
    }
}

/// Whether a selection carries an answer: its items, or its error.
pub open spec fn answers(
    r: Result<Selection>,
    considered: nat,
    answer: spec_fn(Result<Vec<Item>>) -> bool,
) -> bool {
    match r {
        Ok(s) => s.considered == considered && answer(Ok(s.items)),
        Err(e) => answer(Err(e)),
    }
}

fn selected(items: Result<Vec<Item>>, considered: usize) -> (r: Result<Selection>)
    ensures
        match r {
            Ok(s) => s.considered == considered && items == core::result::Result::<
                Vec<Item>,
                CliError,
            >::Ok(s.items),
            Err(e) => items == core::result::Result::<Vec<Item>, CliError>::Err(e),
        },
{
    match items {
        Ok(items) => Ok(Selection { items, considered }),
        Err(e) => Err(e),
    }
}

/// Resolves an operation against the listing of its target into exactly what it takes.
///
/// A sweep of debris addresses a store's own keys, so it takes nothing of a listing of paths.
pub fn select(entries: &Vec<Entry>, target: &Target, operation: &Operation, filter: &Filter) -> (r:
    Result<Selection>)
    ensures
        exists|structure: Directories|
            structure.objects() == objects_of(entry_paths(entries@)) && structure.declared()
                == declared_by(entry_paths(entries@)) && #[trigger] is_selection(
                r,
                *target,
                *operation,
                *filter,
                entries@,
                structure,
            ),
{
    let paths = listing::paths_of(entries);
    let structure = Directories::from_paths(&paths);
    let considered = entries.len();
    let r = match operation {
        Operation::Delete { rmdirs } => Ok(
            Selection {
                items: delete(filter, target, entries, &structure, *rmdirs),
                considered,
            },
        ),
        Operation::DeleteFile => selected(delete_file(target, entries), considered),
        Operation::Purge => selected(purge(target, entries, &structure), considered),
        Operation::Rmdir => selected(rmdir(target, &structure), considered),
        Operation::Rmdirs { leave_root } => Ok(
            Selection { items: rmdirs(target, &structure, *leave_root), considered },
        ),
        Operation::Cleanup { .. } => Ok(Selection { items: Vec::new(), considered: 0 }),
    };
    proof {
        assert(is_selection(r, *target, *operation, *filter, entries@, structure));
    }
    r
}

/// What a purge takes of one listing is fixed, item by item and in that order.
pub proof fn a_purge_is_deterministic(
    a: Seq<ItemView>,
    b: Seq<ItemView>,
    root: Seq<char>,
    entries: Seq<Entry>,
)
    requires
        is_purge(a, root, entries),
        is_purge(b, root, entries),
    ensures
        a == b,
{
    let x = choose|swept: Seq<Seq<char>>| #[trigger] is_purge_with(a, root, entries, swept);
    let y = choose|swept: Seq<Seq<char>>| #[trigger] is_purge_with(b, root, entries, swept);
    assert forall|d: Seq<char>| x.contains(d) <==> y.contains(d) by {}
    lemma_one_sweep(x, y);
}

/// What a deletion takes of one listing is fixed, item by item and in that order.
pub proof fn a_deletion_is_deterministic(
    a: Seq<ItemView>,
    b: Seq<ItemView>,
    filter: Filter,
    root: Seq<char>,
    entries: Seq<Entry>,
    rmdirs: bool,
)
    requires
        is_delete(a, filter, root, entries, rmdirs),
        is_delete(b, filter, root, entries, rmdirs),
    ensures
        a == b,
{
    let x = choose|swept: Seq<Seq<char>>| #[trigger]
        is_delete_with(a, filter, root, entries, rmdirs, swept);
    let y = choose|swept: Seq<Seq<char>>| #[trigger]
        is_delete_with(b, filter, root, entries, rmdirs, swept);
    assert forall|d: Seq<char>| x.contains(d) <==> y.contains(d) by {}
    lemma_one_sweep(x, y);
}

/// Every object that a deletion takes is one that a purge of the same listing takes.
pub proof fn a_purge_takes_what_a_deletion_takes(
    filter: Filter,
    root: Seq<char>,
    entries: Seq<Entry>,
    item: ItemView,
)
    requires
        chosen(filter, root, entries).contains(item),
    ensures
        all_objects(entries).contains(item),
    decreases entries.len(),
{
    let front = entries.drop_last();
    let picked = chosen(filter, root, entries);
    let k = choose|k: int| 0 <= k < picked.len() && picked[k] == item;
    if entries.len() > 0 {
        let before = chosen(filter, root, front);
        if k < before.len() {
            assert(before[k] == item);
            a_purge_takes_what_a_deletion_takes(filter, root, front, item);
            let j = choose|j: int|
                0 <= j < all_objects(front).len() && all_objects(front)[j] == item;
            assert(all_objects(entries)[j] == item);
        } else {
            let n = all_objects(front).len() as int;
            assert(all_objects(entries)[n] == item);
        }
    }
}

/// A deletion never takes a directory marker among its objects, and takes each object that
/// it takes at the path and with the size that the listing gave.
pub proof fn a_deletion_takes_listed_objects(
    filter: Filter,
    root: Seq<char>,
    entries: Seq<Entry>,
    k: int,
)
    requires
        0 <= k < chosen(filter, root, entries).len(),
    ensures
        exists|i: int|
            0 <= i < entries.len() && taken(filter, root, #[trigger] entries[i]) && chosen(
                filter,
                root,
                entries,
            )[k] == object_item(entries[i]),
    decreases entries.len(),
{
    let front = entries.drop_last();
    let before = chosen(filter, root, front);
    if k < before.len() {
        a_deletion_takes_listed_objects(filter, root, front, k);
        let i = choose|i: int|
            0 <= i < front.len() && taken(filter, root, #[trigger] front[i]) && before[k]
                == object_item(front[i]);
        assert(entries[i] == front[i]);
    } else {
        let i = entries.len() - 1;
        assert(taken(filter, root, entries[i]));
    }
}

/// Whether every item is an object's.
spec fn only_objects(items: Seq<ItemView>) -> bool {
    forall|k: int| 0 <= k < items.len() ==> (#[trigger] items[k]).kind == REMOVAL_KIND_OBJECT@
}

proof fn lemma_only_objects(filter: Filter, root: Seq<char>, entries: Seq<Entry>)
    ensures
        only_objects(chosen(filter, root, entries)),
        only_objects(all_objects(entries)),
    decreases entries.len(),
{
    if entries.len() > 0 {
        lemma_only_objects(filter, root, entries.drop_last());
    }
}

proof fn lemma_purge_only_objects(entries: Seq<Entry>)
    ensures
        only_objects(all_objects(entries)),
    decreases entries.len(),
{
    if entries.len() > 0 {
        lemma_purge_only_objects(entries.drop_last());
    }
}

proof fn lemma_leaves_first(
    items: Seq<ItemView>,
    objects: Seq<ItemView>,
    swept: Seq<Seq<char>>,
    i: int,
    j: int,
    a: Seq<char>,
    b: Seq<char>,
)
    requires
        only_objects(objects),
        deepest_first(swept),
        items == objects + directory_items(swept),
        0 <= i < j < items.len(),
        items[i] == directory_item(a),
    ensures
        items[j].kind == REMOVAL_KIND_DIRECTORY@,
        items[j] == directory_item(b) && canonical(b) ==> !under(a, b),
{
    reveal_strlit("object");
    reveal_strlit("directory");
    assert(REMOVAL_KIND_OBJECT@.len() != REMOVAL_KIND_DIRECTORY@.len());
    let n = objects.len() as int;
    if i < n {
        assert(items[i] == objects[i]);
    }
    assert(items[j] == directory_item(swept[j - n]));
    assert(items[i] == directory_item(swept[i - n]));
    if items[j] == directory_item(b) && canonical(b) {
        dirs::marker_paths_round_trip(a);
        dirs::marker_paths_round_trip(b);
        dirs::marker_paths_round_trip(swept[i - n]);
        dirs::marker_paths_round_trip(swept[j - n]);
        dirs::a_sweep_reaches_children_first(swept, i - n, j - n);
    }
}

/// Wherever a removal is interrupted, the structure that is left stands: once a directory has
/// gone, no object is removed any more, so it cannot have been undeclared while it still held
/// one that was to go, and no directory below it is removed after it.
pub proof fn an_interrupted_removal_leaves_the_structure_standing(
    items: Seq<ItemView>,
    filter: Filter,
    root: Seq<char>,
    entries: Seq<Entry>,
    rmdirs: bool,
    structure: Directories,
    leave_root: bool,
    i: int,
    j: int,
    a: Seq<char>,
    b: Seq<char>,
)
    requires
        is_delete(items, filter, root, entries, rmdirs) || is_purge(items, root, entries)
            || is_rmdirs(items, root, structure, leave_root),
        0 <= i < j < items.len(),
        items[i] == directory_item(a),
    ensures
        items[j].kind == REMOVAL_KIND_DIRECTORY@,
        items[j] == directory_item(b) && canonical(b) ==> !under(a, b),
{
    lemma_only_objects(filter, root, entries);
    if is_delete(items, filter, root, entries, rmdirs) {
        let swept = choose|swept: Seq<Seq<char>>| #[trigger]
            is_delete_with(items, filter, root, entries, rmdirs, swept);
        lemma_leaves_first(items, chosen(filter, root, entries), swept, i, j, a, b);
    } else if is_purge(items, root, entries) {
        let swept = choose|swept: Seq<Seq<char>>| #[trigger]
            is_purge_with(items, root, entries, swept);
        lemma_leaves_first(items, all_objects(entries), swept, i, j, a, b);
    } else {
        let swept = choose|swept: Seq<Seq<char>>| #[trigger]
            is_rmdirs_with(items, root, structure, leave_root, swept);
        let none = Seq::<ItemView>::empty();
        assert(items =~= none + directory_items(swept));
        lemma_leaves_first(items, none, swept, i, j, a, b);
    }
}

/// The path at `p` below `root`.
pub open spec fn at_path(root: Seq<char>, p: Seq<char>) -> Seq<char> {
    if root.len() == 0 {
        p
    } else {
        root.push('/') + p
    }
}

/// Whether an entry is an object below a directory that is not the root.
pub open spec fn object_below(directory: Seq<char>, e: Entry) -> bool {
    directory.push('/').is_prefix_of(e.path@) && !marks(e.path@)
}

proof fn lemma_seen_from(root: Seq<char>, p: Seq<char>)
    ensures
        relative(root, at_path(root, p)) == p,
        p.len() > 0 && root.len() > 0 ==> under(root, at_path(root, p)) && at_path(root, p) != root,
{
    if root.len() > 0 {
        let q = root.push('/');
        assert(q =~= (q + p).subrange(0, q.len() as int));
        assert((q + p).skip(q.len() as int) =~= p);
        assert((q + p).len() > root.len());
    }
}

proof fn lemma_chosen(filter: Filter, root: Seq<char>, entries: Seq<Entry>, i: int)
    requires
        0 <= i < entries.len(),
        taken(filter, root, entries[i]),
    ensures
        chosen(filter, root, entries).contains(object_item(entries[i])),
    decreases entries.len(),
{
    let before = chosen(filter, root, entries.drop_last());
    if i == entries.len() - 1 {
        assert(chosen(filter, root, entries)[before.len() as int] == object_item(entries[i]));
    } else {
        lemma_chosen(filter, root, entries.drop_last(), i);
        let k = choose|k: int| 0 <= k < before.len() && before[k] == object_item(entries[i]);
        assert(chosen(filter, root, entries)[k] == before[k]);
    }
}

proof fn lemma_listed(entries: Seq<Entry>, i: int)
    requires
        0 <= i < entries.len(),
        !marks(entries[i].path@),
    ensures
        all_objects(entries).contains(object_item(entries[i])),
    decreases entries.len(),
{
    let before = all_objects(entries.drop_last());
    if i == entries.len() - 1 {
        assert(all_objects(entries)[before.len() as int] == object_item(entries[i]));
    } else {
        lemma_listed(entries.drop_last(), i);
        let k = choose|k: int| 0 <= k < before.len() && before[k] == object_item(entries[i]);
        assert(all_objects(entries)[k] == before[k]);
    }
}

proof fn lemma_all_objects_are_listed(entries: Seq<Entry>, k: int)
    requires
        0 <= k < all_objects(entries).len(),
    ensures
        exists|i: int|
            0 <= i < entries.len() && !marks((#[trigger] entries[i]).path@) && all_objects(
                entries,
            )[k] == object_item(entries[i]),
    decreases entries.len(),
{
    let front = entries.drop_last();
    let before = all_objects(front);
    if k < before.len() {
        lemma_all_objects_are_listed(front, k);
        let i = choose|i: int|
            0 <= i < front.len() && !marks((#[trigger] front[i]).path@) && before[k]
                == object_item(front[i]);
        assert(entries[i] == front[i]);
    } else {
        assert(entries[entries.len() - 1] == entries.last());
    }
}

/// The paths that survive are those of the entries that are not taken.
proof fn lemma_surviving(filter: Filter, root: Seq<char>, entries: Seq<Entry>, p: Seq<char>)
    ensures
        surviving(filter, root, entries).contains(p) <==> exists|i: int|
            0 <= i < entries.len() && (#[trigger] entries[i]).path@ == p && !taken(
                filter,
                root,
                entries[i],
            ),
    decreases entries.len(),
{
    let all = surviving(filter, root, entries);
    if entries.len() > 0 {
        let front = entries.drop_last();
        let before = surviving(filter, root, front);
        lemma_surviving(filter, root, front, p);
        if before.contains(p) {
            let k = choose|k: int| 0 <= k < before.len() && before[k] == p;
            assert(all[k] == p);
            let i = choose|i: int|
                0 <= i < front.len() && (#[trigger] front[i]).path@ == p && !taken(
                    filter,
                    root,
                    front[i],
                );
            assert(entries[i] == front[i]);
        }
        let last = entries.last();
        assert(entries[entries.len() - 1] == last);
        if !taken(filter, root, last) {
            assert(all[before.len() as int] == last.path@);
        }
        if all.contains(p) && !before.contains(p) {
            let k = choose|k: int| 0 <= k < all.len() && all[k] == p;
            if k < before.len() {
                assert(before[k] == p);
            }
            assert(last.path@ == p);
        }
        if exists|i: int|
            0 <= i < entries.len() && (#[trigger] entries[i]).path@ == p && !taken(
                filter,
                root,
                entries[i],
            ) {
            let i = choose|i: int|
                0 <= i < entries.len() && (#[trigger] entries[i]).path@ == p && !taken(
                    filter,
                    root,
                    entries[i],
                );
            if i < front.len() {
                assert(front[i] == entries[i]);
            }
        }
    }
}

/// A path with a marker's name in a directory that is not the root is that directory's marker.
proof fn lemma_marker_of(directory: Seq<char>, p: Seq<char>)
    requires
        directory.len() > 0,
    ensures
        marks(p) && parent(p) == directory <==> p == directory.push('/')
            + DIRECTORY_MARKER_NAME@,
{
    dirs::marker_paths_round_trip(directory);
    if marks(p) && parent(p) == directory {
        text::lemma_last_of(p, '/');
        let n = last_separator(p);
        assert(p =~= p.take(n).push(p[n]) + p.skip(n + 1));
    }
}

/// What a listing declares is what it holds a marker of.
proof fn lemma_declared(paths: Seq<Seq<char>>, directory: Seq<char>)
    requires
        directory.len() > 0,
    ensures
        declared_by(paths).contains(directory) <==> paths.contains(
            directory.push('/') + DIRECTORY_MARKER_NAME@,
        ),
{
    let m = directory.push('/') + DIRECTORY_MARKER_NAME@;
    lemma_marker_of(directory, m);
    if declared_by(paths).contains(directory) {
        let i = choose|i: int|
            0 <= i < paths.len() && marks(#[trigger] paths[i]) && parent(paths[i])
                == directory;
        lemma_marker_of(directory, paths[i]);
        assert(paths[i] == m);
    }
    if paths.contains(m) {
        let i = choose|i: int| 0 <= i < paths.len() && paths[i] == m;
        assert(marks(paths[i]));
    }
}

proof fn lemma_entry_paths(entries: Seq<Entry>, p: Seq<char>)
    ensures
        entry_paths(entries).contains(p) <==> exists|i: int|
            0 <= i < entries.len() && (#[trigger] entries[i]).path@ == p,
{
    let all = entry_paths(entries);
    if all.contains(p) {
        let i = choose|i: int| 0 <= i < all.len() && all[i] == p;
        assert(entries[i].path@ == p);
    }
    if exists|i: int| 0 <= i < entries.len() && (#[trigger] entries[i]).path@ == p {
        let i = choose|i: int| 0 <= i < entries.len() && (#[trigger] entries[i]).path@ == p;
        assert(all[i] == p);
    }
}

proof fn lemma_directory_items(swept: Seq<Seq<char>>, d: Seq<char>)
    ensures
        directory_items(swept).contains(directory_item(d)) <==> swept.contains(d),
{
    let all = directory_items(swept);
    if all.contains(directory_item(d)) {
        let k = choose|k: int| 0 <= k < all.len() && all[k] == directory_item(d);
        assert(all[k] == directory_item(swept[k]));
        dirs::marker_paths_round_trip(d);
        dirs::marker_paths_round_trip(swept[k]);
        assert(swept[k] == d);
    }
    if swept.contains(d) {
        let k = choose|k: int| 0 <= k < swept.len() && swept[k] == d;
        assert(all[k] == directory_item(d));
    }
}

/// An item of a removal is among its objects where it is an object's, and among its directories
/// where it is a directory's.
proof fn lemma_parted(objects: Seq<ItemView>, swept: Seq<Seq<char>>, item: ItemView)
    requires
        only_objects(objects),
    ensures
        item.kind == REMOVAL_KIND_OBJECT@ ==> ((objects + directory_items(swept)).contains(item)
            <==> objects.contains(item)),
        item.kind == REMOVAL_KIND_DIRECTORY@ ==> ((objects + directory_items(swept)).contains(item)
            <==> directory_items(swept).contains(item)),
        REMOVAL_KIND_OBJECT@ != REMOVAL_KIND_DIRECTORY@,
{
    reveal_strlit("object");
    reveal_strlit("directory");
    assert(REMOVAL_KIND_OBJECT@.len() != REMOVAL_KIND_DIRECTORY@.len());
    let marked = directory_items(swept);
    let all = objects + marked;
    if all.contains(item) {
        let k = choose|k: int| 0 <= k < all.len() && all[k] == item;
        if k < objects.len() {
            assert(objects[k] == item);
        } else {
            assert(marked[k - objects.len()] == item);
            assert(item == directory_item(swept[k - objects.len()]));
        }
    }
    if objects.contains(item) {
        let k = choose|k: int| 0 <= k < objects.len() && objects[k] == item;
        assert(all[k] == item);
    }
    if marked.contains(item) {
        let k = choose|k: int| 0 <= k < marked.len() && marked[k] == item;
        assert(all[objects.len() + k] == item);
        assert(item == directory_item(swept[k]));
    }
}

/// A deletion sees every path from the tree that was named: the object at `p` below that tree
/// goes exactly where the filter admits `p`.
pub proof fn a_deletion_sees_paths_from_the_named_tree(
    items: Seq<ItemView>,
    filter: Filter,
    root: Seq<char>,
    entries: Seq<Entry>,
    rmdirs: bool,
    i: int,
    p: Seq<char>,
)
    requires
        is_delete(items, filter, root, entries, rmdirs),
        0 <= i < entries.len(),
        entries[i].path@ == at_path(root, p),
        !marks(entries[i].path@),
    ensures
        items.contains(
            ItemView {
                path: entries[i].path@,
                size: entries[i].size,
                kind: REMOVAL_KIND_OBJECT@,
            },
        ) <==> filter.admits(p, entries[i].size),
{
    let swept = choose|swept: Seq<Seq<char>>| #[trigger]
        is_delete_with(items, filter, root, entries, rmdirs, swept);
    let picked = chosen(filter, root, entries);
    let item = object_item(entries[i]);
    lemma_only_objects(filter, root, entries);
    lemma_parted(picked, swept, item);
    lemma_seen_from(root, p);
    if picked.contains(item) {
        let k = choose|k: int| 0 <= k < picked.len() && picked[k] == item;
        a_deletion_takes_listed_objects(filter, root, entries, k);
    }
    if taken(filter, root, entries[i]) {
        lemma_chosen(filter, root, entries, i);
    }
}

/// Whatever a deletion takes was listed: an object that is not a marker, with the size that the
/// listing gave, or the marker of a directory, and that only where directories were asked for.
pub proof fn a_deletion_takes_nothing_that_was_not_listed(
    items: Seq<ItemView>,
    filter: Filter,
    root: Seq<char>,
    entries: Seq<Entry>,
    rmdirs: bool,
    k: int,
)
    requires
        is_delete(items, filter, root, entries, rmdirs),
        0 <= k < items.len(),
    ensures
        items[k].kind == REMOVAL_KIND_OBJECT@ || (rmdirs && items[k].kind
            == REMOVAL_KIND_DIRECTORY@),
        items[k].kind == REMOVAL_KIND_OBJECT@ ==> exists|i: int|
            0 <= i < entries.len() && (#[trigger] entries[i]).path@ == items[k].path
                && entries[i].size == items[k].size && !marks(entries[i].path@),
        items[k].kind == REMOVAL_KIND_DIRECTORY@ ==> items[k].size == Some(0u64) && exists|i: int|
            0 <= i < entries.len() && (#[trigger] entries[i]).path@ == items[k].path && marks(
                entries[i].path@,
            ),
{
    let swept = choose|swept: Seq<Seq<char>>| #[trigger]
        is_delete_with(items, filter, root, entries, rmdirs, swept);
    let picked = chosen(filter, root, entries);
    lemma_only_objects(filter, root, entries);
    lemma_parted(picked, swept, items[k]);
    if k < picked.len() {
        assert(items[k] == picked[k]);
        a_deletion_takes_listed_objects(filter, root, entries, k);
        let i = choose|i: int|
            0 <= i < entries.len() && taken(filter, root, #[trigger] entries[i]) && picked[k]
                == object_item(entries[i]);
        assert(entries[i].path@ == items[k].path);
    } else {
        let d = swept[k - picked.len()];
        assert(items[k] == directory_item(d));
        assert(swept.contains(d));
        lemma_below_root(root, d);
        lemma_declared(surviving(filter, root, entries), d);
        let m = d.push('/') + DIRECTORY_MARKER_NAME@;
        lemma_surviving(filter, root, entries, m);
        dirs::marker_paths_round_trip(d);
        let i = choose|i: int|
            0 <= i < entries.len() && (#[trigger] entries[i]).path@ == m && !taken(
                filter,
                root,
                entries[i],
            );
        assert(entries[i].path@ == items[k].path);
    }
}

/// Lying below a root and not being it is having a name behind it.
proof fn lemma_below_root(root: Seq<char>, d: Seq<char>)
    ensures
        under(root, d) && d != root <==> (if root.len() == 0 {
            d.len() > 0
        } else {
            root.push('/').is_prefix_of(d)
        }),
        under(root, d) && d != root ==> d.len() > 0,
{
    if root.len() == 0 && d.len() == 0 {
        assert(d =~= root);
    }
    if root.push('/').is_prefix_of(d) {
        assert(d.len() >= root.push('/').len());
    }
}

/// Where directories were asked for, a deletion takes a directory below the named tree, at
/// whatever depth, exactly where the directory has a marker, held an object, and every object
/// that it held goes. Where they were not asked for, it takes none.
pub proof fn a_deletion_takes_every_directory_it_empties(
    items: Seq<ItemView>,
    filter: Filter,
    root: Seq<char>,
    entries: Seq<Entry>,
    rmdirs: bool,
    d: Seq<char>,
)
    requires
        is_delete(items, filter, root, entries, rmdirs),
        d.len() > 0,
    ensures
        items.contains(
            ItemView {
                path: d.push('/') + DIRECTORY_MARKER_NAME@,
                size: Some(0),
                kind: REMOVAL_KIND_DIRECTORY@,
            },
        ) <==> {
            &&& rmdirs
            &&& root.len() == 0 || root.push('/').is_prefix_of(d)
            &&& exists|i: int|
                0 <= i < entries.len() && (#[trigger] entries[i]).path@ == d.push('/')
                    + DIRECTORY_MARKER_NAME@
            &&& exists|i: int| 0 <= i < entries.len() && object_below(d, #[trigger] entries[i])
            &&& forall|i: int|
                0 <= i < entries.len() && object_below(d, #[trigger] entries[i]) ==> filter.admits(
                    if root.len() == 0 {
                        entries[i].path@
                    } else {
                        entries[i].path@.skip(root.len() as int + 1)
                    },
                    entries[i].size,
                )
        },
{
    let swept = choose|swept: Seq<Seq<char>>| #[trigger]
        is_delete_with(items, filter, root, entries, rmdirs, swept);
    let m = d.push('/') + DIRECTORY_MARKER_NAME@;
    let left = surviving(filter, root, entries);
    let all = entry_paths(entries);
    lemma_only_objects(filter, root, entries);
    lemma_parted(chosen(filter, root, entries), swept, directory_item(d));
    lemma_directory_items(swept, d);
    lemma_below_root(root, d);
    lemma_marker_of(d, m);
    lemma_declared(left, d);
    lemma_surviving(filter, root, entries, m);
    assert(swept.contains(d) <==> rmdirs && emptied(filter, root, entries, d));
    assert(holds_object(all, d) <==> exists|i: int|
        0 <= i < entries.len() && object_below(d, #[trigger] entries[i])) by {
        if holds_object(all, d) {
            let p = choose|p: Seq<char>| #[trigger] objects_of(all).contains(p) && inside(d, p);
            lemma_entry_paths(entries, p);
            let i = choose|i: int| 0 <= i < entries.len() && (#[trigger] entries[i]).path@ == p;
            assert(object_below(d, entries[i]));
        }
        if exists|i: int| 0 <= i < entries.len() && object_below(d, #[trigger] entries[i]) {
            let i = choose|i: int| 0 <= i < entries.len() && object_below(d, #[trigger] entries[i]);
            lemma_entry_paths(entries, entries[i].path@);
            assert(objects_of(all).contains(entries[i].path@));
        }
    }
    if under(root, d) && d != root {
        assert(holds_object(left, d) <==> exists|i: int|
            0 <= i < entries.len() && object_below(d, #[trigger] entries[i]) && !taken(
                filter,
                root,
                entries[i],
            )) by {
            if holds_object(left, d) {
                let p = choose|p: Seq<char>| #[trigger]
                    objects_of(left).contains(p) && inside(d, p);
                lemma_surviving(filter, root, entries, p);
                let i = choose|i: int|
                    0 <= i < entries.len() && (#[trigger] entries[i]).path@ == p && !taken(
                        filter,
                        root,
                        entries[i],
                    );
                assert(object_below(d, entries[i]));
            }
            if exists|i: int|
                0 <= i < entries.len() && object_below(d, #[trigger] entries[i]) && !taken(
                    filter,
                    root,
                    entries[i],
                ) {
                let i = choose|i: int|
                    0 <= i < entries.len() && object_below(d, #[trigger] entries[i]) && !taken(
                        filter,
                        root,
                        entries[i],
                    );
                lemma_surviving(filter, root, entries, entries[i].path@);
                assert(objects_of(left).contains(entries[i].path@));
            }
        }
        assert forall|i: int| 0 <= i < entries.len() && object_below(d, #[trigger] entries[i]) implies relative(
            root,
            entries[i].path@,
        ) == (if root.len() == 0 {
            entries[i].path@
        } else {
            entries[i].path@.skip(root.len() as int + 1)
        }) by {
            if root.len() > 0 {
                assert(under(d, entries[i].path@));
                lemma_under_transitive(root, d, entries[i].path@);
                assert(entries[i].path@.len() > d.len() && d.len() > root.len());
            }
        }
    }
}

/// Where a deletion takes a directory, none that has a marker below it and held an object stays
/// behind: it goes too, and before.
pub proof fn a_deletion_leaves_no_emptied_directory_below_a_removed_one(
    items: Seq<ItemView>,
    filter: Filter,
    root: Seq<char>,
    entries: Seq<Entry>,
    rmdirs: bool,
    above: Seq<char>,
    below: Seq<char>,
    k: int,
    marker: int,
    object: int,
)
    requires
        is_delete(items, filter, root, entries, rmdirs),
        above.len() > 0,
        0 <= k < items.len(),
        items[k].kind == REMOVAL_KIND_DIRECTORY@,
        items[k].path == above.push('/') + DIRECTORY_MARKER_NAME@,
        above.push('/').is_prefix_of(below),
        canonical(below),
        0 <= marker < entries.len(),
        entries[marker].path@ == below.push('/') + DIRECTORY_MARKER_NAME@,
        0 <= object < entries.len(),
        object_below(below, entries[object]),
    ensures
        exists|j: int|
            0 <= j < k && (#[trigger] items[j]).kind == REMOVAL_KIND_DIRECTORY@ && items[j].path
                == below.push('/') + DIRECTORY_MARKER_NAME@,
{
    a_deletion_takes_nothing_that_was_not_listed(items, filter, root, entries, rmdirs, k);
    let up = directory_item(above);
    let down = directory_item(below);
    assert(items[k] == up);
    assert(items.contains(up));
    a_deletion_takes_every_directory_it_empties(items, filter, root, entries, rmdirs, above);
    a_deletion_takes_every_directory_it_empties(items, filter, root, entries, rmdirs, below);
    assert(under(above, below));
    assert(below.len() > above.len()) by {
        assert(below.len() >= above.push('/').len());
    }
    assert forall|i: int| 0 <= i < entries.len() && object_below(below, #[trigger] entries[i]) implies object_below(
        above,
        entries[i],
    ) by {
        assert(under(below, entries[i].path@));
        lemma_under_transitive(above, below, entries[i].path@);
        assert(entries[i].path@.len() >= below.push('/').len());
    }
    if root.len() > 0 {
        assert(under(root, above));
        lemma_under_transitive(root, above, below);
        assert(above.len() >= root.push('/').len());
    }
    assert(items.contains(down));
    let j = choose|j: int| 0 <= j < items.len() && items[j] == down;
    lemma_only_objects(filter, root, entries);
    let swept = choose|swept: Seq<Seq<char>>| #[trigger]
        is_delete_with(items, filter, root, entries, rmdirs, swept);
    if k < j {
        lemma_leaves_first(items, chosen(filter, root, entries), swept, k, j, above, below);
    }
    if k == j {
        dirs::marker_paths_round_trip(above);
        dirs::marker_paths_round_trip(below);
    }
    assert(items[j].path == below.push('/') + DIRECTORY_MARKER_NAME@);
}

/// A purge takes everything that was listed: every object, and the marker of every directory at
/// or below the target.
pub proof fn a_purge_leaves_nothing(
    items: Seq<ItemView>,
    root: Seq<char>,
    entries: Seq<Entry>,
    i: int,
    d: Seq<char>,
)
    requires
        is_purge(items, root, entries),
        0 <= i < entries.len(),
    ensures
        !marks(entries[i].path@) ==> items.contains(
            ItemView {
                path: entries[i].path@,
                size: entries[i].size,
                kind: REMOVAL_KIND_OBJECT@,
            },
        ),
        entries[i].path@ == at_path(d, DIRECTORY_MARKER_NAME@) && (root.len() == 0 || d == root
            || root.push('/').is_prefix_of(d)) ==> items.contains(
            ItemView {
                path: entries[i].path@,
                size: Some(0),
                kind: REMOVAL_KIND_DIRECTORY@,
            },
        ),
{
    let swept = choose|swept: Seq<Seq<char>>| #[trigger] is_purge_with(items, root, entries, swept);
    let all = entry_paths(entries);
    let objects = all_objects(entries);
    lemma_purge_only_objects(entries);
    if !marks(entries[i].path@) {
        lemma_listed(entries, i);
        lemma_parted(objects, swept, object_item(entries[i]));
    }
    if entries[i].path@ == at_path(d, DIRECTORY_MARKER_NAME@) && under(root, d) {
        dirs::marker_paths_round_trip(d);
        assert(all[i] == entries[i].path@);
        assert(declared_by(all).contains(d));
        assert(swept.contains(d));
        lemma_directory_items(swept, d);
        lemma_parted(objects, swept, directory_item(d));
    }
}

/// Whatever a purge takes was listed: an object, as the listing gave it, or the directory that a
/// listed marker declares at or below the target.
pub proof fn a_purge_takes_nothing_that_was_not_listed(
    items: Seq<ItemView>,
    root: Seq<char>,
    entries: Seq<Entry>,
    k: int,
)
    requires
        is_purge(items, root, entries),
        0 <= k < items.len(),
    ensures
        items[k].kind == REMOVAL_KIND_OBJECT@ || items[k].kind == REMOVAL_KIND_DIRECTORY@,
        items[k].kind == REMOVAL_KIND_OBJECT@ ==> exists|i: int|
            0 <= i < entries.len() && (#[trigger] entries[i]).path@ == items[k].path
                && entries[i].size == items[k].size && !marks(entries[i].path@),
        items[k].kind == REMOVAL_KIND_DIRECTORY@ ==> items[k].size == Some(0u64) && exists|i: int|
            0 <= i < entries.len() && marks((#[trigger] entries[i]).path@) && items[k].path
                == at_path(parent(entries[i].path@), DIRECTORY_MARKER_NAME@) && (root.len() == 0
                || parent(entries[i].path@) == root || root.push('/').is_prefix_of(
                parent(entries[i].path@),
            )),
{
    let swept = choose|swept: Seq<Seq<char>>| #[trigger] is_purge_with(items, root, entries, swept);
    let all = entry_paths(entries);
    let objects = all_objects(entries);
    lemma_purge_only_objects(entries);
    lemma_parted(objects, swept, items[k]);
    if k < objects.len() {
        assert(items[k] == objects[k]);
        lemma_all_objects_are_listed(entries, k);
        let i = choose|i: int|
            0 <= i < entries.len() && !marks((#[trigger] entries[i]).path@) && objects[k]
                == object_item(entries[i]);
        assert(entries[i].path@ == items[k].path);
    } else {
        let d = swept[k - objects.len()];
        assert(items[k] == directory_item(d));
        assert(swept.contains(d));
        let i = choose|i: int|
            0 <= i < all.len() && marks(#[trigger] all[i]) && parent(all[i]) == d;
        assert(entries[i].path@ == all[i]);
    }
}

/// A sweep takes a directory at or below its target exactly where the directory has a marker and
/// no listed object lies below it, at whatever depth; the target itself is left where that was
/// asked for. It takes nothing but such directories.
pub proof fn a_sweep_takes_every_empty_directory(
    items: Seq<ItemView>,
    root: Seq<char>,
    entries: Seq<Entry>,
    structure: Directories,
    leave_root: bool,
    d: Seq<char>,
)
    requires
        is_rmdirs(items, root, structure, leave_root),
        structure.objects() == objects_of(entry_paths(entries)),
        structure.declared() == declared_by(entry_paths(entries)),
        d.len() > 0,
    ensures
        items.contains(
            ItemView {
                path: d.push('/') + DIRECTORY_MARKER_NAME@,
                size: Some(0),
                kind: REMOVAL_KIND_DIRECTORY@,
            },
        ) <==> {
            &&& exists|i: int|
                0 <= i < entries.len() && (#[trigger] entries[i]).path@ == d.push('/')
                    + DIRECTORY_MARKER_NAME@
            &&& root.len() == 0 || d == root || root.push('/').is_prefix_of(d)
            &&& !(leave_root && d == root)
            &&& forall|i: int|
                0 <= i < entries.len() ==> !object_below(d, #[trigger] entries[i])
        },
        forall|k: int|
            0 <= k < items.len() ==> (#[trigger] items[k]).kind == REMOVAL_KIND_DIRECTORY@,
{
    let swept = choose|swept: Seq<Seq<char>>| #[trigger]
        is_rmdirs_with(items, root, structure, leave_root, swept);
    let all = entry_paths(entries);
    lemma_directory_items(swept, d);
    lemma_declared(all, d);
    lemma_entry_paths(entries, d.push('/') + DIRECTORY_MARKER_NAME@);
    lemma_occupied(structure, entries, d);
}

/// A directory is occupied exactly where a listed object lies below it.
proof fn lemma_occupied(structure: Directories, entries: Seq<Entry>, d: Seq<char>)
    requires
        structure.objects() == objects_of(entry_paths(entries)),
        d.len() > 0,
    ensures
        structure.occupied(d) <==> exists|i: int|
            0 <= i < entries.len() && object_below(d, #[trigger] entries[i]),
{
    let all = entry_paths(entries);
    if structure.occupied(d) {
        let p = choose|p: Seq<char>| #[trigger] structure.objects().contains(p) && inside(d, p);
        lemma_entry_paths(entries, p);
        let i = choose|i: int| 0 <= i < entries.len() && (#[trigger] entries[i]).path@ == p;
        assert(object_below(d, entries[i]));
    }
    if exists|i: int| 0 <= i < entries.len() && object_below(d, #[trigger] entries[i]) {
        let i = choose|i: int| 0 <= i < entries.len() && object_below(d, #[trigger] entries[i]);
        lemma_entry_paths(entries, entries[i].path@);
        assert(structure.objects().contains(entries[i].path@));
    }
}

/// One directory goes exactly where it has a marker, no listed object lies below it, and no
/// directory below it has a marker; then its marker goes and nothing else.
pub proof fn a_directory_goes_only_where_nothing_is_in_it(
    r: Result<Vec<Item>>,
    target: Target,
    entries: Seq<Entry>,
    structure: Directories,
)
    requires
        is_rmdir(r, target, structure),
        structure.objects() == objects_of(entry_paths(entries)),
        structure.declared() == declared_by(entry_paths(entries)),
        target.path@.len() > 0,
    ensures
        r is Ok <==> {
            &&& exists|i: int|
                0 <= i < entries.len() && (#[trigger] entries[i]).path@ == target.path@.push('/')
                    + DIRECTORY_MARKER_NAME@
            &&& forall|i: int|
                0 <= i < entries.len() ==> !object_below(target.path@, #[trigger] entries[i])
            &&& forall|i: int|
                0 <= i < entries.len() && marks((#[trigger] entries[i]).path@) ==> !target.path@.push(
                    '/',
                ).is_prefix_of(parent(entries[i].path@))
        },
        r matches Ok(items) ==> item_views(items@) == seq![
            ItemView {
                path: target.path@.push('/') + DIRECTORY_MARKER_NAME@,
                size: Some(0),
                kind: REMOVAL_KIND_DIRECTORY@,
            },
        ],
        r matches Err(e) ==> (e.code == ExitCode::DirNotFound <==> forall|i: int|
            0 <= i < entries.len() ==> !object_below(target.path@, #[trigger] entries[i]) && !(marks(
                entries[i].path@,
            ) && under(target.path@, parent(entries[i].path@)))),
{
    let d = target.path@;
    let all = entry_paths(entries);
    lemma_declared(all, d);
    lemma_entry_paths(entries, d.push('/') + DIRECTORY_MARKER_NAME@);
    lemma_occupied(structure, entries, d);
    assert forall|i: int| 0 <= i < entries.len() && marks((#[trigger] entries[i]).path@) implies structure.declared().contains(
        parent(entries[i].path@),
    ) by {
        assert(all[i] == entries[i].path@);
    }
    assert forall|i: int|
        0 <= i < entries.len() && marks((#[trigger] entries[i]).path@) && d.push('/').is_prefix_of(
            parent(entries[i].path@),
        ) implies declared_below(structure, d, parent(entries[i].path@)) by {
        lemma_below_root(d, parent(entries[i].path@));
    }
    assert forall|q: Seq<char>| #[trigger] structure.declared().contains(q) implies exists|i: int|
        0 <= i < entries.len() && marks((#[trigger] entries[i]).path@) && parent(entries[i].path@)
            == q by {
        let i = choose|i: int|
            0 <= i < all.len() && marks(#[trigger] all[i]) && parent(all[i]) == q;
        assert(entries[i].path@ == all[i]);
    }
    if r is Err && structure.present(d) && !structure.occupied(d) {
        let c = choose|c: Seq<char>| #[trigger] first_child(structure, d, c);
        lemma_below_root(d, c);
        assert(structure.declared().contains(c));
    }
    if structure.declared().contains(d) {
        assert(under(d, d));
        assert(structure.present(d));
    }
}

/// Exactly the object that is named goes, with the size that the listing first gave it; where
/// nothing stands at that path, nothing goes.
pub proof fn only_the_named_object_goes(r: Result<Vec<Item>>, target: Target, entries: Seq<Entry>)
    requires
        is_delete_file(r, target, entries),
    ensures
        r is Ok <==> exists|i: int|
            0 <= i < entries.len() && (#[trigger] entries[i]).path@ == target.path@,
        r matches Ok(items) ==> items@.len() == 1 && items@[0].path@ == target.path@ && exists|i:
            int|
            0 <= i < entries.len() && (#[trigger] entries[i]).path@ == target.path@
                && entries[i].size == items@[0].size && forall|j: int|
                0 <= j < i ==> (#[trigger] entries[j]).path@ != target.path@,
        r matches Err(e) ==> e.code == (if entries.len() == 0 {
            ExitCode::FileNotFound
        } else {
            ExitCode::Usage
        }),
{
    if r is Ok {
        let items = r->Ok_0;
        let i = choose|i: int| #[trigger]
            first_at(entries, target.path@, i) && item_views(items@) == seq![
                ItemView {
                    path: target.path@,
                    size: entries[i].size,
                    kind: kind_text(target.path@),
                },
            ];
        assert(item_views(items@).len() == 1);
        assert(items@.len() == 1);
        assert(item_views(items@)[0] == items@[0]@);
        assert(entries[i].path@ == target.path@);
    }
}

/// Every operation answers with its own selection, made with its own flags, over the whole
/// listing; a sweep of debris takes nothing of it.
pub proof fn a_selection_is_that_of_its_operation(
    r: Result<Selection>,
    target: Target,
    operation: Operation,
    filter: Filter,
    entries: Seq<Entry>,
    structure: Directories,
)
    requires
        is_selection(r, target, operation, filter, entries, structure),
    ensures
        r matches Ok(s) ==> s.considered == (if operation is Cleanup {
            0
        } else {
            entries.len()
        }),
        operation matches Operation::Delete { rmdirs } ==> (r matches Ok(s) && is_delete(
            item_views(s.items@),
            filter,
            target.path@,
            entries,
            rmdirs,
        )),
        operation matches Operation::Rmdirs { leave_root } ==> (r matches Ok(s) && is_rmdirs(
            item_views(s.items@),
            target.path@,
            structure,
            leave_root,
        )),
        operation is Purge ==> is_purge_answer(items_of(r), target, entries),
        operation is DeleteFile ==> is_delete_file(items_of(r), target, entries),
        operation is Rmdir ==> is_rmdir(items_of(r), target, structure),
        operation is Cleanup ==> (r matches Ok(s) && s.items@.len() == 0),
{
}

/// The items of a selection, or its error.
pub open spec fn items_of(r: Result<Selection>) -> Result<Vec<Item>> {
    match r {
        Ok(s) => Ok(s.items),
        Err(e) => Err(e),
    }
}

/// An item is viewed with its path, its size and its kind; and items one for one and in order.
pub proof fn an_item_is_viewed_as_it_is(items: Seq<Item>, i: int)
    requires
        0 <= i < items.len(),
    ensures
        item_views(items).len() == items.len(),
        item_views(items)[i].path == items[i].path@,
        item_views(items)[i].size == items[i].size,
        item_views(items)[i].kind == items[i].kind@,
{
}

/// The kind of a named object is told by its name: a marker is a directory's, and anything else
/// is an object.
pub proof fn a_kind_is_told_by_the_name(p: Seq<char>)
    ensures
        marks(p) ==> kind_text(p) == REMOVAL_KIND_DIRECTORY@,
        !marks(p) ==> kind_text(p) == REMOVAL_KIND_OBJECT@,
{
}

/// A directory that is not empty is refused with the name of what is in it: the first object
/// below it, and only where there is no object the first directory that a sweep would reach.
pub proof fn a_refusal_names_what_is_in_the_way(
    e: CliError,
    target: Target,
    structure: Directories,
)
    requires
        is_rmdir(Err(e), target, structure),
        structure.present(target.path@),
    ensures
        e.code == ExitCode::Usage,
        structure.occupied(target.path@) ==> exists|p: Seq<char>|
            #![trigger structure.objects().contains(p)]
            structure.objects().contains(p) && inside(target.path@, p) && e.message@ == "'"@
                + target.text() + "' is not empty: it holds '"@ + p + "'"@ && forall|q: Seq<char>|
                #[trigger] structure.objects().contains(q) && inside(target.path@, q) ==> q == p
                    || precedes(p, q),
        !structure.occupied(target.path@) ==> exists|d: Seq<char>|
            #![trigger structure.declared().contains(d)]
            structure.declared().contains(d) && under(target.path@, d) && d != target.path@
                && e.message@ == "'"@ + target.text() + "' is not empty: it holds '"@ + d + "'"@,
{
    if structure.occupied(target.path@) {
        let p = choose|p: Seq<char>| #[trigger]
            first_occupant(structure, target.path@, p) && is_not_empty(
                e,
                target,
                p,
                REMOVAL_NOT_EMPTY_HINT@,
            );
        assert(structure.objects().contains(p));
    } else {
        let c = choose|c: Seq<char>| #[trigger]
            first_child(structure, target.path@, c) && is_not_empty(
                e,
                target,
                c,
                "Remove the directories inside it first, or use `dctl rmdirs` to sweep every empty directory under a path."@,
            );
        assert(structure.declared().contains(c));
    }
}

/// A purge of a path under which nothing is stored is refused; of a whole remote it is not.
pub proof fn only_an_empty_path_is_not_purged(
    r: Result<Vec<Item>>,
    target: Target,
    entries: Seq<Entry>,
)
    requires
        is_purge_answer(r, target, entries),
    ensures
        r is Err <==> entries.len() == 0 && target.path@.len() > 0,
        r matches Err(e) ==> e.code == ExitCode::DirNotFound && e.message@ == "'"@ + target.text()
            + "' does not exist"@,
        r matches Ok(items) ==> is_purge(item_views(items@), target.path@, entries),
{
}

/// Nothing is at a path exactly where no entry has it.
pub proof fn nothing_is_there_where_no_entry_is(entries: Seq<Entry>, p: Seq<char>)
    ensures
        none_at(entries, p) <==> !entry_paths(entries).contains(p),
{
    let paths = entry_paths(entries);
    if paths.contains(p) {
        let i = choose|i: int| 0 <= i < paths.len() && paths[i] == p;
        assert(entries[i].path@ == p);
    }
    assert forall|j: int| 0 <= j < entries.len() && (#[trigger] entries[j]).path@
        == p implies paths.contains(p) by {
        assert(paths[j] == p);
    }
}

} // verus!
