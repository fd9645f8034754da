//! What a restore would write, and where.
use vstd::prelude::*;
use vstd::seq_lib::to_multiset_build;

use crate::constants::{
    PLAN_ACTION_OVERWRITE, PLAN_ACTION_RESTORE, PLAN_ACTION_SKIP, PLAN_REASON_EXISTS,
};
use crate::listing::{Entry, Filter};
use crate::ordered::{arrange, arranged, arranging_orders_and_keeps_everything, slot};
use crate::path;
use crate::removal::target::Target;
use crate::restore::archive::Object;
use crate::stats::capped_sum;
use crate::text;
use crate::text::{precedes, views};

verus! {

pub const PREFLIGHT_SEVERITY_BLOCKING: &'static str = "blocking";

/// A file of the vault, and where it lands.
#[derive(Debug)]
pub struct Candidate {
    pub object: Object,
    /// Its path under the tree that was named, and so under the destination.
    pub relative: String,
    /// Where it lands on this machine.
    pub native: String,
}

/// `p` as seen from `root`; empty where it is `root` itself.
pub open spec fn beneath(root: Seq<char>, p: Seq<char>) -> Seq<char> {
    if root.len() == 0 {
        p
    } else if root.push('/').is_prefix_of(p) {
        p.skip(root.len() as int + 1)
    } else {
        Seq::empty()
    }
}

/// Where a relative path lands under a destination.
pub open spec fn landing(destination: Seq<char>, relative: Seq<char>) -> Seq<char> {
    if destination.len() == 0 || destination.last() == '/' {
        destination + relative
    } else {
        destination.push('/') + relative
    }
}

impl Candidate {
    /// Whether this is where that file lands.
    pub open spec fn places(self, object: Object, root: Seq<char>, destination: Seq<char>) -> bool {
        &&& self.object == object
        &&& self.relative@ == beneath(root, object.logical@)
        &&& self.native@ == landing(destination, self.relative@)
    }
}

fn below(root: &str, p: &str) -> (r: String)
    ensures
        r@ == beneath(root@, p@),
{
    let base = text::chars_of(root);
    if base.len() == 0 {
        return p.to_owned();
    }
    let v = text::chars_of(p);
    if path::is_under(root, p) && v.len() > base.len() {
        proof {
            assert(root@.push('/').is_prefix_of(p@));
            assert(v@.subrange(base@.len() as int + 1, v@.len() as int) =~= p@.skip(
                root@.len() as int + 1,
            ));
        }
        return text::string_of(v.as_slice(), base.len() + 1, v.len());
    }
    proof {
        if root@.push('/').is_prefix_of(p@) {
            assert(root@.push('/').len() <= p@.len());
        }
    }
    String::new()
}

/// Where a relative path lands under a destination.
pub fn from_logical(destination: &str, relative: &str) -> (r: String)
    ensures
        r@ == landing(destination@, relative@),
{
    let d = text::chars_of(destination);
    if d.len() == 0 || d[d.len() - 1] == '/' {
        return text::cat2(destination, relative);
    }
    proof {
        reveal_strlit("/");
    }
    let r = text::cat3(destination, "/", relative);
    proof {
        assert(r@ =~= landing(destination@, relative@));
    }
    r
}

/// Whether a file has a place under the destination and passes the filters. The filters see
/// the path from the tree that was named.
pub open spec fn wanted(object: Object, root: Seq<char>, filter: Filter) -> bool {
    let relative = beneath(root, object.logical@);
    relative.len() > 0 && filter.admits(relative, Some(object.size))
}

/// The files that are wanted, in their own order.
pub open spec fn kept(objects: Seq<Object>, root: Seq<char>, filter: Filter) -> Seq<Object>
    decreases objects.len(),
{
    if objects.len() == 0 {
        Seq::empty()
    } else if wanted(objects.last(), root, filter) {
        kept(objects.drop_last(), root, filter).push(objects.last())
    } else {
        kept(objects.drop_last(), root, filter)
    }
}

/// The key that candidates are ordered by: their relative path.
pub open spec fn by_relative(root: Seq<char>) -> spec_fn(Object) -> Seq<char> {
    |o: Object| beneath(root, o.logical@)
}

/// The files that are wanted, in the order of their relative paths.
pub open spec fn selected(objects: Seq<Object>, root: Seq<char>, filter: Filter) -> Seq<Object> {
    arrange(kept(objects, root, filter), by_relative(root))
}

/// Whether these are the candidates for files, one for one.
pub open spec fn stand_for(
    candidates: Seq<Candidate>,
    objects: Seq<Object>,
    root: Seq<char>,
    destination: Seq<char>,
) -> bool {
    candidates.len() == objects.len() && forall|i: int|
        0 <= i < objects.len() ==> (#[trigger] candidates[i]).places(objects[i], root, destination)
}

/// The files under the tree that was named that pass the filters, each with where it lands,
/// in the order of their relative paths.
pub fn select(objects: &Vec<Object>, target: &Target, filter: &Filter, destination: &str) -> (r: Vec<
    Candidate,
>)
    ensures
        stand_for(r@, selected(objects@, target.path@, *filter), target.path@, destination@),
{
    let root = target.path.as_str();
    let mut r: Vec<Candidate> = Vec::new();
    let mut i: usize = 0;
    proof {
        assert(objects@.take(0) =~= Seq::empty());
    }
    while i < objects.len()
        invariant
            i <= objects@.len(),
            root@ == target.path@,
            stand_for(
                r@,
                selected(objects@.take(i as int), root@, *filter),
                root@,
                destination@,
            ),
        decreases objects@.len() - i,
    {
        let ghost before = selected(objects@.take(i as int), root@, *filter);
        proof {
            assert(objects@.take(i + 1).drop_last() =~= objects@.take(i as int));
            assert(objects@.take(i + 1).last() == objects@[i as int]);
            let some = kept(objects@.take(i as int), root@, *filter);
            assert(some.push(objects@[i as int]).drop_last() =~= some);
        }
        let relative = below(root, objects[i].logical.as_str());
        let shown = Entry::new(relative.as_str(), objects[i].size);
        proof {
            reveal_strlit("");
        }
        if !relative.as_str().is_empty() && filter.matches("", &shown) {
            let ghost key = relative@;
            let mut n: usize = r.len();
            proof {
                assert(before.take(n as int) =~= before);
            }
            while n > 0 && text::before(relative.as_str(), r[n - 1].relative.as_str())
                invariant
                    n <= r@.len(),
                    relative@ == key,
                    stand_for(r@, before, root@, destination@),
                    slot(before, by_relative(root@), key) == slot(
                        before.take(n as int),
                        by_relative(root@),
                        key,
                    ),
                decreases n,
            {
                proof {
                    assert(r@[n - 1].places(before[n - 1], root@, destination@));
                    assert(before.take(n as int).drop_last() =~= before.take(n - 1));
                    assert(before.take(n as int).last() == before[n - 1]);
                }
                n = n - 1;
            }
            proof {
                if n > 0 {
                    assert(r@[n - 1].places(before[n - 1], root@, destination@));
                    assert(before.take(n as int).last() == before[n - 1]);
                }
            }
            let native = from_logical(destination, relative.as_str());
            let ghost old_r = r@;
            r.insert(n, Candidate { object: objects[i].clone(), relative, native });
            proof {
                let after = selected(objects@.take(i + 1), root@, *filter);
                assert(after == before.insert(n as int, objects@[i as int]));
                assert forall|k: int| 0 <= k < after.len() implies (#[trigger] r@[k]).places(
                    after[k],
                    root@,
                    destination@,
                ) by {
                    if k < n {
                        assert(old_r[k].places(before[k], root@, destination@));
                    } else if k > n {
                        assert(old_r[k - 1].places(before[k - 1], root@, destination@));
                    }
                }
            }
        }
        i = i + 1;
    }
    proof {
        assert(objects@.take(i as int) =~= objects@);
    }
    r
}

/// A selection takes exactly the files that are wanted, each as often as it is listed, and
/// puts them in the order of their relative paths. Two runs over the same vault therefore
/// plan the same.
pub proof fn a_selection_is_ordered_and_complete(
    objects: Seq<Object>,
    root: Seq<char>,
    filter: Filter,
)
    ensures
        arranged(selected(objects, root, filter), by_relative(root)),
        selected(objects, root, filter).to_multiset() == kept(objects, root, filter).to_multiset(),
{
    arranging_orders_and_keeps_everything(kept(objects, root, filter), by_relative(root));
}

/// The files that candidates stand for.
pub open spec fn files_of(candidates: Seq<Candidate>) -> Seq<Object> {
    candidates.map_values(|c: Candidate| c.object)
}

/// A file is kept as often as it is listed where it is wanted, and not at all where it is not.
proof fn lemma_kept_count(objects: Seq<Object>, root: Seq<char>, filter: Filter, o: Object)
    ensures
        kept(objects, root, filter).to_multiset().count(o) == (if wanted(o, root, filter) {
            objects.to_multiset().count(o)
        } else {
            0
        }),
    decreases objects.len(),
{
    if objects.len() > 0 {
        let front = objects.drop_last();
        lemma_kept_count(front, root, filter, o);
        to_multiset_build(front, objects.last());
        assert(front.push(objects.last()) =~= objects);
        to_multiset_build(kept(front, root, filter), objects.last());
    } else {
        assert(kept(objects, root, filter) =~= objects);
        objects.to_multiset_ensures();
    }
}

/// A restore sees every path from the tree that was named: the file at `p` below that tree is
/// taken exactly where the filters admit `p`, as often as it is listed, and it lands at `p`
/// below the destination.
pub proof fn a_restore_sees_paths_from_the_named_tree(
    candidates: Seq<Candidate>,
    objects: Seq<Object>,
    root: Seq<char>,
    filter: Filter,
    destination: Seq<char>,
    i: int,
    p: Seq<char>,
)
    requires
        stand_for(candidates, selected(objects, root, filter), root, destination),
        0 <= i < objects.len(),
        p.len() > 0,
        objects[i].logical@ == (if root.len() == 0 {
            p
        } else {
            root.push('/') + p
        }),
    ensures
        files_of(candidates).to_multiset().count(objects[i]) == (if filter.admits(
            p,
            Some(objects[i].size),
        ) {
            objects.to_multiset().count(objects[i])
        } else {
            0
        }),
        files_of(candidates).contains(objects[i]) <==> filter.admits(p, Some(objects[i].size)),
        forall|k: int|
            0 <= k < candidates.len() && (#[trigger] candidates[k]).object == objects[i]
                ==> candidates[k].relative@ == p && candidates[k].native@ == (if destination.len()
                == 0 || destination.last() == '/' {
                destination + p
            } else {
                destination.push('/') + p
            }),
{
    let o = objects[i];
    let order = selected(objects, root, filter);
    a_selection_is_ordered_and_complete(objects, root, filter);
    lemma_kept_count(objects, root, filter, o);
    assert(files_of(candidates) =~= order) by {
        assert forall|k: int| 0 <= k < order.len() implies (#[trigger] files_of(candidates)[k])
            == order[k] by {
            assert(candidates[k].places(order[k], root, destination));
        }
    }
    if root.len() > 0 {
        let q = root.push('/');
        assert(q =~= (q + p).subrange(0, q.len() as int));
        assert((q + p).skip(q.len() as int) =~= p);
    }
    assert(beneath(root, o.logical@) == p);
    order.to_multiset_ensures();
    objects.to_multiset_ensures();
    assert(objects.contains(o));
    assert forall|k: int| 0 <= k < candidates.len() && (#[trigger] candidates[k]).object == o implies candidates[k].relative@
        == p && candidates[k].native@ == (if destination.len() == 0 || destination.last() == '/' {
        destination + p
    } else {
        destination.push('/') + p
    }) by {
        assert(candidates[k].places(order[k], root, destination));
    }
}

/// Whatever a restore takes is a listed file below the tree that was named, which the filters
/// admit by its path from there; and what it takes stands in the order of those paths.
pub proof fn a_restore_takes_only_what_lies_below_the_named_tree(
    candidates: Seq<Candidate>,
    objects: Seq<Object>,
    root: Seq<char>,
    filter: Filter,
    destination: Seq<char>,
    k: int,
)
    requires
        stand_for(candidates, selected(objects, root, filter), root, destination),
        0 <= k < candidates.len(),
    ensures
        objects.contains(candidates[k].object),
        candidates[k].relative@.len() > 0,
        candidates[k].object.logical@ == (if root.len() == 0 {
            candidates[k].relative@
        } else {
            root.push('/') + candidates[k].relative@
        }),
        filter.admits(candidates[k].relative@, Some(candidates[k].object.size)),
        forall|j: int|
            k <= j < candidates.len() ==> !precedes(
                (#[trigger] candidates[j]).relative@,
                candidates[k].relative@,
            ),
{
    let order = selected(objects, root, filter);
    let o = order[k];
    a_selection_is_ordered_and_complete(objects, root, filter);
    lemma_kept_count(objects, root, filter, o);
    assert(candidates[k].places(o, root, destination));
    order.to_multiset_ensures();
    objects.to_multiset_ensures();
    assert(order.contains(o));
    assert(wanted(o, root, filter));
    let rest = beneath(root, o.logical@);
    if root.len() > 0 {
        let q = root.push('/');
        assert(q =~= o.logical@.subrange(0, q.len() as int));
        assert(o.logical@ =~= q + rest);
    }
    assert forall|j: int| k <= j < candidates.len() implies !precedes(
        (#[trigger] candidates[j]).relative@,
        candidates[k].relative@,
    ) by {
        assert(candidates[j].places(order[j], root, destination));
        text::lemma_precedes_irreflexive(candidates[k].relative@);
        if k < j {
            assert(!precedes(by_relative(root)(order[j]), by_relative(root)(order[k])));
        }
    }
}

/// Whether `b` are the files of `a`, with a tree's path taken off the front of each.
pub open spec fn rerooted(a: Seq<Object>, root: Seq<char>, b: Seq<Object>) -> bool {
    &&& root.len() > 0
    &&& a.len() == b.len()
    &&& forall|i: int|
        0 <= i < a.len() ==> (#[trigger] a[i]).logical@ == root.push('/') + b[i].logical@
            && a[i].size == b[i].size
}

proof fn lemma_kept_alike(a: Seq<Object>, root: Seq<char>, b: Seq<Object>, filter: Filter)
    requires
        rerooted(a, root, b),
    ensures
        rerooted(kept(a, root, filter), root, kept(b, Seq::empty(), filter)),
    decreases a.len(),
{
    if a.len() > 0 {
        let x = a.drop_last();
        let y = b.drop_last();
        assert forall|i: int| 0 <= i < x.len() implies (#[trigger] x[i]).logical@ == root.push('/')
            + y[i].logical@ && x[i].size == y[i].size by {
            assert(a[i] == x[i] && b[i] == y[i]);
        }
        lemma_kept_alike(x, root, y, filter);
        assert(a[a.len() - 1] == a.last());
        lemma_seen_alike(root, a.last().logical@, b.last().logical@);
    }
}

proof fn lemma_seen_alike(root: Seq<char>, whole: Seq<char>, p: Seq<char>)
    requires
        root.len() > 0,
        whole == root.push('/') + p,
    ensures
        beneath(root, whole) == p,
        beneath(Seq::empty(), p) == p,
{
    let q = root.push('/');
    assert(q =~= whole.subrange(0, q.len() as int));
    assert(whole.skip(q.len() as int) =~= p);
}

proof fn lemma_slot_alike(a: Seq<Object>, root: Seq<char>, b: Seq<Object>, key: Seq<char>)
    requires
        rerooted(a, root, b),
    ensures
        slot(a, by_relative(root), key) == slot(b, by_relative(Seq::empty()), key),
        slot(a, by_relative(root), key) <= a.len(),
    decreases a.len(),
{
    if a.len() > 0 {
        let x = a.drop_last();
        let y = b.drop_last();
        assert forall|i: int| 0 <= i < x.len() implies (#[trigger] x[i]).logical@ == root.push('/')
            + y[i].logical@ && x[i].size == y[i].size by {
            assert(a[i] == x[i] && b[i] == y[i]);
        }
        lemma_slot_alike(x, root, y, key);
        assert(a[a.len() - 1] == a.last());
        lemma_seen_alike(root, a.last().logical@, b.last().logical@);
    }
}

proof fn lemma_arranged_alike(a: Seq<Object>, root: Seq<char>, b: Seq<Object>)
    requires
        rerooted(a, root, b),
    ensures
        rerooted(arrange(a, by_relative(root)), root, arrange(b, by_relative(Seq::empty()))),
    decreases a.len(),
{
    if a.len() > 0 {
        let x = a.drop_last();
        let y = b.drop_last();
        assert forall|i: int| 0 <= i < x.len() implies (#[trigger] x[i]).logical@ == root.push('/')
            + y[i].logical@ && x[i].size == y[i].size by {
            assert(a[i] == x[i] && b[i] == y[i]);
        }
        lemma_arranged_alike(x, root, y);
        assert(a[a.len() - 1] == a.last());
        lemma_seen_alike(root, a.last().logical@, b.last().logical@);
        lemma_slot_alike(
            arrange(x, by_relative(root)),
            root,
            arrange(y, by_relative(Seq::empty())),
            b.last().logical@,
        );
    }
}

/// Restoring one tree of a vault is restoring a vault that holds that tree at its top: with the
/// same filters the same relative paths are taken, in the same order, with the same sizes, and
/// they land in the same places.
pub proof fn restoring_a_tree_is_restoring_it_as_a_vault(
    from_tree: Seq<Candidate>,
    from_top: Seq<Candidate>,
    objects: Seq<Object>,
    top: Seq<Object>,
    root: Seq<char>,
    filter: Filter,
    destination: Seq<char>,
)
    requires
        rerooted(objects, root, top),
        stand_for(from_tree, selected(objects, root, filter), root, destination),
        stand_for(from_top, selected(top, Seq::empty(), filter), Seq::empty(), destination),
    ensures
        from_tree.len() == from_top.len(),
        forall|k: int|
            0 <= k < from_tree.len() ==> (#[trigger] from_tree[k]).relative@
                == from_top[k].relative@ && from_tree[k].native@ == from_top[k].native@
                && from_tree[k].object.size == from_top[k].object.size,
{
    lemma_kept_alike(objects, root, top, filter);
    lemma_arranged_alike(kept(objects, root, filter), root, kept(top, Seq::empty(), filter));
    let a = selected(objects, root, filter);
    let b = selected(top, Seq::empty(), filter);
    assert forall|k: int| 0 <= k < from_tree.len() implies (#[trigger] from_tree[k]).relative@
        == from_top[k].relative@ && from_tree[k].native@ == from_top[k].native@
        && from_tree[k].object.size == from_top[k].object.size by {
        assert(from_tree[k].places(a[k], root, destination));
        assert(from_top[k].places(b[k], Seq::empty(), destination));
        assert(a[k].size == b[k].size);
        lemma_seen_alike(root, a[k].logical@, b[k].logical@);
    }
}

/// The paths that cannot be written here.
#[derive(Debug)]
pub struct Findings {
    pub blocked: Vec<String>,
}

impl Default for Findings {
    fn default() -> (f: Findings)
        ensures
            f.blocked@.len() == 0,
    {
        Findings { blocked: Vec::new() }
    }
}

impl Findings {
    /// Whether a relative path cannot be written.
    pub open spec fn stops(self, relative: Seq<char>) -> bool {
        views(self.blocked@).contains(relative)
    }

    pub fn blocks(&self, relative: &str) -> (r: bool)
        ensures
            r == self.stops(relative@),
    {
        let ghost all = views(self.blocked@);
        let mut i: usize = 0;
        while i < self.blocked.len()
            invariant
                i <= self.blocked@.len(),
                all == views(self.blocked@),
                forall|j: int| 0 <= j < i ==> (#[trigger] all[j]) != relative@,
            decreases self.blocked@.len() - i,
        {
            assert(all[i as int] == self.blocked@[i as int]@);
            if text::same(self.blocked[i].as_str(), relative) {
                assert(views(self.blocked@).contains(relative@));
                return true;
            }
            i = i + 1;
        }
        false
    }
}

/// One row of a plan.
#[derive(Debug)]
pub struct PlanRow {
    pub action: &'static str,
    /// The object, as REMOTE:PATH.
    pub source: String,
    pub destination: String,
    pub size: u64,
    /// The word for why.
    pub reason: Option<&'static str>,
}

/// What a restore would do with every candidate.
#[derive(Debug)]
pub struct Plan {
    pub entries: Vec<PlanRow>,
}

/// What is done with a candidate: a path that cannot be written is skipped in plain sight, and
/// a file that is already there would be overwritten.
pub open spec fn action_for(blocked: bool, present: bool) -> Seq<char> {
    if blocked {
        PLAN_ACTION_SKIP@
    } else if present {
        PLAN_ACTION_OVERWRITE@
    } else {
        PLAN_ACTION_RESTORE@
    }
}

/// The word for why.
pub open spec fn reason_for(blocked: bool, present: bool) -> Option<Seq<char>> {
    if blocked {
        Some(PREFLIGHT_SEVERITY_BLOCKING@)
    } else if present {
        Some(PLAN_REASON_EXISTS@)
    } else {
        None
    }
}

/// What a row says.
pub struct RowView {
    pub action: Seq<char>,
    pub source: Seq<char>,
    pub destination: Seq<char>,
    pub size: u64,
    pub reason: Option<Seq<char>>,
}

impl View for PlanRow {
    type V = RowView;

    open spec fn view(&self) -> RowView {
        RowView {
            action: self.action@,
            source: self.source@,
            destination: self.destination@,
            size: self.size,
            reason: match self.reason {
                Some(r) => Some(r@),
                None => None,
            },
        }
    }
}

pub open spec fn plan_views(rows: Seq<PlanRow>) -> Seq<RowView> {
    rows.map_values(|r: PlanRow| r@)
}

/// A candidate's row. `present` is whether something is where it lands.
pub open spec fn row_of(
    remote: Seq<char>,
    c: Candidate,
    findings: Findings,
    present: bool,
) -> RowView {
    let blocked = findings.stops(c.relative@);
    RowView {
        action: action_for(blocked, present),
        source: remote + ":"@ + c.object.logical@,
        destination: c.native@,
        size: c.object.size,
        reason: reason_for(blocked, present),
    }
}

/// The rows of candidates, one for one.
pub open spec fn rows_of(
    remote: Seq<char>,
    candidates: Seq<Candidate>,
    present: Seq<bool>,
    findings: Findings,
) -> Seq<RowView> {
    Seq::new(candidates.len(), |i: int| row_of(remote, candidates[i], findings, present[i]))
}

/// The key that rows are ordered by: what they name in the vault.
pub open spec fn by_source() -> spec_fn(RowView) -> Seq<char> {
    |r: RowView| r.source
}

/// The rows that a restore of these candidates has, in the order of what they name.
pub fn build_plan(
    target: &Target,
    candidates: &Vec<Candidate>,
    present: &Vec<bool>,
    findings: &Findings,
) -> (p: Plan)
    requires
        present@.len() == candidates@.len(),
    ensures
        plan_views(p.entries@) == arrange(
            rows_of(target.remote@, candidates@, present@, *findings),
            by_source(),
        ),
{
    let mut entries: Vec<PlanRow> = Vec::new();
    let mut i: usize = 0;
    let ghost all = rows_of(target.remote@, candidates@, present@, *findings);
    proof {
        assert(all.take(0) =~= Seq::empty());
        assert(plan_views(entries@) =~= Seq::empty());
    }
    while i < candidates.len()
        invariant
            i <= candidates@.len(),
            present@.len() == candidates@.len(),
            all == rows_of(target.remote@, candidates@, present@, *findings),
            plan_views(entries@) == arrange(all.take(i as int), by_source()),
        decreases candidates@.len() - i,
    {
        let c = &candidates[i];
        let (action, reason): (&'static str, Option<&'static str>) = if findings.blocks(
            c.relative.as_str(),
        ) {
            (PLAN_ACTION_SKIP, Some(PREFLIGHT_SEVERITY_BLOCKING))
        } else if present[i] {
            (PLAN_ACTION_OVERWRITE, Some(PLAN_REASON_EXISTS))
        } else {
            (PLAN_ACTION_RESTORE, None)
        };
        let row = PlanRow {
            action,
            source: text::cat3(target.remote.as_str(), ":", c.object.logical.as_str()),
            destination: c.native.clone(),
            size: c.object.size,
            reason,
        };
        proof {
            assert(row@ == all[i as int]);
            assert(all.take(i + 1).drop_last() =~= all.take(i as int));
            assert(all.take(i + 1).last() == all[i as int]);
        }
        insert_row(&mut entries, row);
        i = i + 1;
    }
    proof {
        assert(all.take(i as int) =~= all);
    }
    Plan { entries }
}

/// Puts a row into its place.
fn insert_row(entries: &mut Vec<PlanRow>, row: PlanRow)
    ensures
        plan_views(final(entries)@) == plan_views(old(entries)@).insert(
            slot(plan_views(old(entries)@), by_source(), row.source@) as int,
            row@,
        ),
{
    let ghost before = plan_views(entries@);
    let ghost key = row.source@;
    let mut n: usize = entries.len();
    proof {
        assert(before.take(n as int) =~= before);
    }
    while n > 0 && text::before(row.source.as_str(), entries[n - 1].source.as_str())
        invariant
            n <= entries@.len(),
            row.source@ == key,
            before == plan_views(entries@),
            slot(before, by_source(), key) == slot(before.take(n as int), by_source(), key),
        decreases n,
    {
        proof {
            assert(before.take(n as int).drop_last() =~= before.take(n - 1));
            assert(before.take(n as int).last() == entries@[n - 1]@);
        }
        n = n - 1;
    }
    proof {
        if n > 0 {
            assert(before.take(n as int).last() == entries@[n - 1]@);
        }
    }
    let ghost said = row@;
    entries.insert(n, row);
    proof {
        assert(plan_views(entries@) =~= before.insert(n as int, said));
    }
}

/// A plan has one row for each candidate, skipped ones included, and its rows are in the order
/// of what they name.
pub proof fn a_plan_is_ordered_and_leaves_nothing_out(
    remote: Seq<char>,
    candidates: Seq<Candidate>,
    present: Seq<bool>,
    findings: Findings,
)
    requires
        present.len() == candidates.len(),
    ensures
        ({
            let rows = rows_of(remote, candidates, present, findings);
            let plan = arrange(rows, by_source());
            &&& arranged(plan, by_source())
            &&& plan.to_multiset() == rows.to_multiset()
            &&& plan.len() == candidates.len()
        }),
{
    arranging_orders_and_keeps_everything(
        rows_of(remote, candidates, present, findings),
        by_source(),
    );
}

/// How many rows have that action.
pub open spec fn rows_with(rows: Seq<PlanRow>, action: Seq<char>) -> nat
    decreases rows.len(),
{
    if rows.len() == 0 {
        0
    } else {
        rows_with(rows.drop_last(), action) + (if rows.last().action@ == action {
            1nat
        } else {
            0
        })
    }
}

/// The sum of the rows' sizes, as far as it can be counted.
pub open spec fn row_bytes(rows: Seq<PlanRow>) -> u64
    decreases rows.len(),
{
    if rows.len() == 0 {
        0
    } else {
        capped_sum(row_bytes(rows.drop_last()), rows.last().size)
    }
}

impl Plan {
    pub fn len(&self) -> (n: usize)
        ensures
            n == self.entries@.len(),
    {
        self.entries.len()
    }

    pub fn is_empty(&self) -> (r: bool)
        ensures
            r == (self.entries@.len() == 0),
    {
        self.entries.len() == 0
    }

    /// How many rows have that action.
    pub fn count(&self, action: &str) -> (n: usize)
        ensures
            n == rows_with(self.entries@, action@),
    {
        let ghost all = self.entries@;
        let mut n: usize = 0;
        let mut i: usize = 0;
        while i < self.entries.len()
            invariant
                i <= all.len(),
                all == self.entries@,
                n == rows_with(all.take(i as int), action@),
                n <= i,
            decreases all.len() - i,
        {
            proof {
                assert(all.take(i + 1).drop_last() =~= all.take(i as int));
                assert(all.take(i + 1).last() == all[i as int]);
            }
            if text::same(self.entries[i].action, action) {
                n = n + 1;
            }
            i = i + 1;
        }
        proof {
            assert(all.take(i as int) =~= all);
        }
        n
    }

    /// The sum of the sizes.
    pub fn total_bytes(&self) -> (n: u64)
        ensures
            n == row_bytes(self.entries@),
    {
        let ghost all = self.entries@;
        let mut n: u64 = 0;
        let mut i: usize = 0;
        while i < self.entries.len()
            invariant
                i <= all.len(),
                all == self.entries@,
                n == row_bytes(all.take(i as int)),
            decreases all.len() - i,
        {
            proof {
                assert(all.take(i + 1).drop_last() =~= all.take(i as int));
                assert(all.take(i + 1).last() == all[i as int]);
            }
            n = n.saturating_add(self.entries[i].size);
            i = i + 1;
        }
        proof {
            assert(all.take(i as int) =~= all);
        }
        n
    }
}

/// Every candidate has its row: it is skipped exactly where its path cannot be written, and
/// otherwise overwrites where something is there and restores where nothing is. The row names the
/// file in the vault and the place where it lands.
pub proof fn a_blocked_path_is_never_written(
    plan: Seq<RowView>,
    remote: Seq<char>,
    candidates: Seq<Candidate>,
    present: Seq<bool>,
    findings: Findings,
    i: int,
)
    requires
        plan == arrange(rows_of(remote, candidates, present, findings), by_source()),
        present.len() == candidates.len(),
        0 <= i < candidates.len(),
    ensures
        ({
            let c = candidates[i];
            let blocked = exists|k: int|
                0 <= k < findings.blocked@.len() && (#[trigger] findings.blocked@[k])@
                    == c.relative@;
            plan.contains(
                RowView {
                    action: if blocked {
                        PLAN_ACTION_SKIP@
                    } else if present[i] {
                        PLAN_ACTION_OVERWRITE@
                    } else {
                        PLAN_ACTION_RESTORE@
                    },
                    source: remote + ":"@ + c.object.logical@,
                    destination: c.native@,
                    size: c.object.size,
                    reason: if blocked {
                        Some(PREFLIGHT_SEVERITY_BLOCKING@)
                    } else if present[i] {
                        Some(PLAN_REASON_EXISTS@)
                    } else {
                        None
                    },
                },
            )
        }),
        plan.len() == candidates.len(),
{
    let rows = rows_of(remote, candidates, present, findings);
    a_plan_is_ordered_and_leaves_nothing_out(remote, candidates, present, findings);
    lemma_stops(findings, candidates[i].relative@);
    assert(rows[i] == row_of(remote, candidates[i], findings, present[i]));
    assert(rows.contains(rows[i]));
    rows.to_multiset_ensures();
    plan.to_multiset_ensures();
    assert(rows.to_multiset().count(rows[i]) > 0);
    assert(plan.to_multiset().count(rows[i]) > 0);
    assert(plan.contains(rows[i]));
}

proof fn lemma_stops(findings: Findings, relative: Seq<char>)
    ensures
        findings.stops(relative) <==> exists|k: int|
            0 <= k < findings.blocked@.len() && (#[trigger] findings.blocked@[k])@ == relative,
{
    let all = views(findings.blocked@);
    if findings.stops(relative) {
        let k = choose|k: int| 0 <= k < all.len() && all[k] == relative;
        assert(findings.blocked@[k]@ == relative);
    }
    if exists|k: int|
        0 <= k < findings.blocked@.len() && (#[trigger] findings.blocked@[k])@ == relative {
        let k = choose|k: int|
            0 <= k < findings.blocked@.len() && (#[trigger] findings.blocked@[k])@ == relative;
        assert(all[k] == relative);
    }
}

/// Rows are counted by what they do, and their sizes are summed as far as they can be counted.
pub proof fn rows_are_counted_by_what_they_do(rows: Seq<PlanRow>, action: Seq<char>, r: PlanRow)
    ensures
        rows_with(rows, action) == rows.filter(|row: PlanRow| row.action@ == action).len(),
        row_bytes(Seq::empty()) == 0,
        row_bytes(rows) + r.size <= u64::MAX ==> row_bytes(rows.push(r)) == row_bytes(rows) + r.size,
        row_bytes(rows) + r.size > u64::MAX ==> row_bytes(rows.push(r)) == u64::MAX,
    decreases rows.len(),
{
    reveal(Seq::filter);
    assert(rows.push(r).drop_last() =~= rows);
    if rows.len() > 0 {
        rows_are_counted_by_what_they_do(rows.drop_last(), action, r);
    }
}

/// A relative path lands right below the destination, with one separator between them.
pub proof fn a_file_lands_below_the_destination(destination: Seq<char>, relative: Seq<char>)
    requires
        destination.len() > 0,
        destination.last() != '/',
    ensures
        landing(destination, relative) == destination.push('/') + relative,
        landing(destination.push('/'), relative) == destination.push('/') + relative,
        landing(Seq::empty(), relative) == relative,
{
    assert(Seq::<char>::empty() + relative =~= relative);
}

/// The views of rows are the rows, one for one and in order.
pub proof fn planned_rows_are_viewed_one_by_one(rows: Seq<PlanRow>, i: int)
    ensures
        plan_views(rows).len() == rows.len(),
        0 <= i < rows.len() ==> plan_views(rows)[i] == rows[i]@,
{
}

} // verus!
