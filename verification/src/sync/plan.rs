//! What a sync would do, and the refusals that stand between a slip and an emptied
//! destination.
use vstd::prelude::*;

use crate::error::{CliError, ExitCode, Result};
use crate::globals::Globals;
use crate::sync::SyncArgs;
use crate::text;
use crate::text::digits;
use crate::transfer::{lemma_occurs, occurrences, ops, CompareFlags, Op, Plan};

verus! {

/// What a plan is computed from.
#[derive(Debug)]
pub struct Request {
    pub source: String,
    pub dest: String,
    pub compare: CompareFlags,
    /// Whether the destination's listing may be left out. The removals come from it.
    pub no_traverse: bool,
    pub create_empty_src_dirs: bool,
    /// Whether what only the destination has is removed.
    pub delete_extras: bool,
}

impl Request {
    /// Whether this is what a sync asks for: the destination is always listed, and what only
    /// it has is removed.
    pub open spec fn of(self, args: SyncArgs) -> bool {
        &&& self.source@ == args.source@
        &&& self.dest@ == args.dest@
        &&& self.compare == args.compare
        &&& !self.no_traverse
        &&& self.create_empty_src_dirs == args.create_empty_src_dirs
        &&& self.delete_extras
    }
}

/// The request that a sync makes.
pub fn request(args: &SyncArgs) -> (r: Request)
    ensures
        r.of(*args),
{
    Request {
        source: args.source.clone(),
        dest: args.dest.clone(),
        compare: args.compare,
        no_traverse: false,
        create_empty_src_dirs: args.create_empty_src_dirs,
        delete_extras: true,
    }
}

/// Whether nothing was listed at the source: no entry comes from it.
pub open spec fn source_is_empty(actions: Seq<Op>) -> bool {
    forall|i: int| 0 <= i < actions.len() ==> (#[trigger] actions[i]) == Op::Delete
}

/// Whether a plan would empty its destination because nothing was found at its source.
pub open spec fn empties(actions: Seq<Op>) -> bool {
    source_is_empty(actions) && actions.contains(Op::Delete)
}

/// Whether `r` is the answer on a sync whose plan may come from an empty source.
pub open spec fn is_guarded(
    r: Result<()>,
    source: Seq<char>,
    dest: Seq<char>,
    actions: Seq<Op>,
    force: bool,
) -> bool {
    match r {
        Ok(_) => force || !empties(actions),
        Err(e) => !force && empties(actions) && e.is(
            ExitCode::Usage,
            "'"@ + source + "' contains no files, so '"@ + dest + "' would delete all "@ + digits(
                occurrences(actions, Op::Delete),
            ) + " of them"@,
            Some(
                "An unmounted volume and an empty directory look identical from here. Check the source, or pass --force if the destination really should be emptied. To remove a tree deliberately, use `dctl purge`."@,
            ),
        ),
    }
}

/// Refuses a sync whose source listed nothing and whose destination holds files: an unmounted
/// volume looks just like that.
pub fn guard_empty_source(source: &str, dest: &str, plan: &Plan, force: bool) -> (r: Result<()>)
    ensures
        is_guarded(r, source@, dest@, plan.actions(), force),
        force ==> r is Ok,
        forall|i: int|
            0 <= i < plan.entries@.len() && (#[trigger] plan.entries@[i]).action != Op::Delete
                ==> r is Ok,
        plan.entries@.len() == 0 ==> r is Ok,
{
    let deletions = plan.count(Op::Delete);
    let skips = plan.count(Op::Skip);
    let empty = !plan.transfers_anything() && skips == 0;
    let ghost all = plan.actions();
    proof {
        lemma_occurs(all, Op::Delete);
        lemma_occurs(all, Op::Skip);
        if empty {
            assert forall|i: int| 0 <= i < all.len() implies (#[trigger] all[i]) == Op::Delete by {
                assert(!all[i].adds());
                if all[i] == Op::Skip {
                    assert(all.contains(Op::Skip));
                }
            }
        } else if skips > 0 {
            let i = choose|i: int| 0 <= i < all.len() && all[i] == Op::Skip;
            assert(all[i] != Op::Delete);
        } else {
            let i = choose|i: int| 0 <= i < all.len() && (#[trigger] all[i]).adds();
            assert(all[i] != Op::Delete);
        }
    }
    proof {
        assert forall|i: int|
            0 <= i < plan.entries@.len() && (
            #[trigger] plan.entries@[i]).action != Op::Delete implies !empty by {
            assert(all[i] == plan.entries@[i].action);
        }
    }
    if !empty || deletions == 0 || force {
        return Ok(());
    }
    let front = text::cat5("'", source, "' contains no files, so '", dest, "' would delete all ");
    let n = text::decimal(deletions as u64);
    Err(
        CliError::usage(text::cat3(front.as_str(), n.as_str(), " of them")).with_hint(
            "An unmounted volume and an empty directory look identical from here. Check the source, or pass --force if the destination really should be emptied. To remove a tree deliberately, use `dctl purge`.".to_owned(),
        ),
    )
}

/// A sync is refused only where nothing comes from its source: one entry that copies, updates,
/// makes a directory or leaves a file alone lets it through, forced or not. Where every entry
/// removes something and there is one, it is refused unless it is forced, and the refusal gives
/// the number of the entries.
pub proof fn only_a_sync_from_nothing_is_refused(
    r: Result<()>,
    source: Seq<char>,
    dest: Seq<char>,
    plan: Plan,
    force: bool,
)
    requires
        is_guarded(r, source, dest, plan.actions(), force),
    ensures
        (exists|i: int|
            0 <= i < plan.entries@.len() && ((#[trigger] plan.entries@[i]).action == Op::Copy
                || plan.entries@[i].action == Op::Update || plan.entries@[i].action
                == Op::CreateDir || plan.entries@[i].action == Op::Skip)) ==> r is Ok,
        plan.entries@.len() == 0 || force ==> r is Ok,
        !force && plan.entries@.len() > 0 && (forall|i: int|
            0 <= i < plan.entries@.len() ==> (#[trigger] plan.entries@[i]).action == Op::Delete)
            ==> (r matches Err(e) && e.code == ExitCode::Usage && e.message@ == "'"@ + source
            + "' contains no files, so '"@ + dest + "' would delete all "@ + digits(
            plan.entries@.len(),
        ) + " of them"@),
{
    let all = plan.actions();
    assert forall|i: int| 0 <= i < all.len() implies #[trigger] all[i]
        == plan.entries@[i].action by {}
    if exists|i: int|
        0 <= i < plan.entries@.len() && (#[trigger] plan.entries@[i]).action != Op::Delete {
        let i = choose|i: int|
            0 <= i < plan.entries@.len() && (#[trigger] plan.entries@[i]).action != Op::Delete;
        assert(all[i] != Op::Delete);
    } else if all.len() > 0 {
        assert(all[0] == Op::Delete);
        assert(all.contains(Op::Delete));
        lemma_all_occur(all, Op::Delete);
    }
}

proof fn lemma_all_occur(s: Seq<Op>, op: Op)
    requires
        forall|i: int| 0 <= i < s.len() ==> (#[trigger] s[i]) == op,
    ensures
        occurrences(s, op) == s.len(),
    decreases s.len(),
{
    if s.len() > 0 {
        lemma_all_occur(s.drop_last(), op);
    }
}

/// Whether an operation changes or removes what is already there.
pub open spec fn alters(op: Op) -> bool {
    op == Op::Update || op == Op::Delete
}

/// The place of the first entry that changes or removes something; the length where there is
/// none.
pub open spec fn first_altering(actions: Seq<Op>) -> int
    decreases actions.len(),
{
    if actions.len() == 0 || alters(actions[0]) {
        0
    } else {
        1 + first_altering(actions.drop_first())
    }
}

/// Whether `r` is the answer on a plan where nothing that is there may change.
pub open spec fn is_immutability_answer(r: Result<()>, plan: Plan, immutable: bool) -> bool {
    match r {
        Ok(_) => !immutable || first_altering(plan.actions()) == plan.actions().len(),
        Err(e) => {
            let i = first_altering(plan.actions());
            &&& immutable
            &&& 0 <= i < plan.actions().len()
            &&& e.is(
                ExitCode::FatalError,
                "--immutable, but the sync would change or delete '"@ + plan.entries@[i].dest@
                    + "'"@,
                Some("Drop --immutable, or sync into an empty destination."@),
            )
        },
    }
}

/// Refuses, where nothing that is there may change, a plan that changes or removes something.
/// Additions are allowed.
pub fn guard_immutable(plan: &Plan, immutable: bool) -> (r: Result<()>)
    ensures
        is_immutability_answer(r, *plan, immutable),
{
    if !immutable {
        return Ok(());
    }
    let ghost all = plan.actions();
    let mut i: usize = 0;
    proof {
        assert(all.skip(0) =~= all);
    }
    while i < plan.entries.len()
        invariant
            immutable,
            i <= plan.entries@.len(),
            all == ops(plan.entries@),
            first_altering(all) == i + first_altering(all.skip(i as int)),
        decreases plan.entries@.len() - i,
    {
        assert(all.skip(i as int)[0] == plan.entries@[i as int].action);
        let altering = match plan.entries[i].action {
            Op::Update | Op::Delete => true,
            _ => false,
        };
        if altering {
            return Err(
                CliError::new(
                    ExitCode::FatalError,
                    text::cat3(
                        "--immutable, but the sync would change or delete '",
                        plan.entries[i].dest.as_str(),
                        "'",
                    ),
                ).with_hint("Drop --immutable, or sync into an empty destination.".to_owned()),
            );
        }
        assert(all.skip(i as int).drop_first() =~= all.skip(i + 1));
        i = i + 1;
    }
    Ok(())
}

pub const SYNC_FILTER_FEATURE: &'static str = "filtering a sync by pattern";

pub const SYNC_FILTER_HINT: &'static str = "Drop the filter: one that is ignored would delete exactly the files that it protects.";

/// Whether a pattern filter was given.
pub open spec fn filtered(globals: Globals) -> bool {
    ||| globals.included@.len() > 0
    ||| globals.excluded@.len() > 0
    ||| globals.filter_from@.len() > 0
    ||| globals.files_from@.len() > 0
}

/// Whether `e` refuses a pattern filter.
pub open spec fn is_filter_refusal(e: CliError) -> bool {
    e.is(
        ExitCode::FatalError,
        SYNC_FILTER_FEATURE@ + " is not implemented"@,
        Some(SYNC_FILTER_HINT@),
    )
}

/// Refuses pattern filters.
pub fn refuse_filters(globals: &Globals) -> (r: Result<()>)
    ensures
        match r {
            Ok(_) => !filtered(*globals),
            Err(e) => filtered(*globals) && is_filter_refusal(e),
        },
{
    if globals.included.len() > 0 || globals.excluded.len() > 0 || globals.filter_from.len() > 0
        || globals.files_from.len() > 0 {
        return Err(
            CliError::unimplemented(SYNC_FILTER_FEATURE).with_hint(SYNC_FILTER_HINT.to_owned()),
        );
    }
    Ok(())
}

proof fn lemma_first_altering(actions: Seq<Op>)
    ensures
        0 <= first_altering(actions) <= actions.len(),
        first_altering(actions) < actions.len() ==> alters(actions[first_altering(actions)]),
        forall|i: int| 0 <= i < first_altering(actions) ==> !alters(#[trigger] actions[i]),
    decreases actions.len(),
{
    if actions.len() > 0 && !alters(actions[0]) {
        let rest = actions.drop_first();
        lemma_first_altering(rest);
        let n = first_altering(rest);
        assert forall|i: int| 0 <= i < 1 + n implies !alters(#[trigger] actions[i]) by {
            if i > 0 {
                assert(rest[i - 1] == actions[i]);
            }
        }
    }
}

/// Where nothing that is there may change, a sync goes through exactly where every entry only
/// copies, makes a directory or leaves a file alone, and the refusal names the first entry that
/// updates or removes something. Without that restriction it goes through whatever it does.
pub proof fn only_additions_are_allowed_where_nothing_may_change(
    r: Result<()>,
    plan: Plan,
    immutable: bool,
)
    requires
        is_immutability_answer(r, plan, immutable),
    ensures
        !immutable ==> r is Ok,
        immutable ==> (r is Ok <==> forall|i: int|
            0 <= i < plan.entries@.len() ==> (#[trigger] plan.entries@[i]).action != Op::Update
                && plan.entries@[i].action != Op::Delete),
        r matches Err(e) ==> e.code == ExitCode::FatalError && exists|i: int|
            0 <= i < plan.entries@.len() && ((#[trigger] plan.entries@[i]).action == Op::Update
                || plan.entries@[i].action == Op::Delete) && e.message@
                == "--immutable, but the sync would change or delete '"@ + plan.entries@[i].dest@
                + "'"@ && forall|j: int|
                0 <= j < i ==> (#[trigger] plan.entries@[j]).action != Op::Update
                    && plan.entries@[j].action != Op::Delete,
{
    let all = plan.actions();
    lemma_first_altering(all);
    assert forall|i: int| 0 <= i < plan.entries@.len() implies (#[trigger] plan.entries@[i]).action
        == all[i] by {}
    let n = first_altering(all);
    if n < all.len() {
        assert(plan.entries@[n].action == all[n]);
    } else {
        assert forall|i: int| 0 <= i < plan.entries@.len() implies (
        #[trigger] plan.entries@[i]).action != Op::Update && plan.entries@[i].action
            != Op::Delete by {
            assert(!alters(all[i]));
        }
    }
}

/// A sync takes a pattern from none of the four flags that give one.
pub proof fn any_pattern_is_a_filter(globals: Globals)
    ensures
        filtered(globals) <==> !(globals.included@.len() == 0 && globals.excluded@.len() == 0
            && globals.filter_from@.len() == 0 && globals.files_from@.len() == 0),
{
}

/// A sync lists its destination, removes what only the destination has, and asks for what its
/// arguments say.
pub proof fn a_sync_asks_for_removals(r: Request, args: SyncArgs)
    requires
        r.of(args),
    ensures
        r.delete_extras,
        !r.no_traverse,
        r.source@ == args.source@,
        r.dest@ == args.dest@,
        r.create_empty_src_dirs == args.create_empty_src_dirs,
        r.compare == args.compare,
{
}

/// A filter on a sync ends the run before anything is touched.
pub proof fn a_filtered_sync_does_not_run(e: CliError)
    requires
        is_filter_refusal(e),
    ensures
        e.code == ExitCode::FatalError,
        e.message@ == SYNC_FILTER_FEATURE@ + " is not implemented"@,
        e.hint is Some,
{
}

} // verus!
