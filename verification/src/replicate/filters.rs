//! The refusal of every filter: a part of a vault's objects is not a vault.
use vstd::prelude::*;

use crate::constants::{MAX_DEPTH_UNLIMITED, REMOVAL_LIST_SEPARATOR};
use crate::error::{CliError, ExitCode, Result};
use crate::globals::Globals;
use crate::removal::filters::listed;
use crate::text;

verus! {

pub const REPLICATE_FILTER_HINT: &'static str = "A vault's objects are one consistent set, so a partial replica is not a vault. Use `dctl copy` to move a part of its files.";

/// The views of fixed texts.
pub open spec fn word_views(s: Seq<&'static str>) -> Seq<Seq<char>> {
    s.map_values(|w: &'static str| w@)
}

/// A flag, where it was given.
pub open spec fn given(set: bool, flag: Seq<char>) -> Seq<Seq<char>> {
    if set {
        seq![flag]
    } else {
        Seq::empty()
    }
}

/// The filter flags that were given. A depth of zero narrows a run more than any other, so
/// only the value that stands for no limit counts as absent.
pub open spec fn filter_flags(globals: Globals) -> Seq<Seq<char>> {
    given(globals.included@.len() > 0, "--include"@) + given(
        globals.excluded@.len() > 0,
        "--exclude"@,
    ) + given(globals.filter_from@.len() > 0, "--filter-from"@) + given(
        globals.files_from@.len() > 0,
        "--files-from"@,
    ) + given(globals.min_size is Some, "--min-size"@) + given(
        globals.max_size is Some,
        "--max-size"@,
    ) + given(globals.max_depth != MAX_DEPTH_UNLIMITED, "--max-depth"@)
}

/// Notes a flag where it was given.
fn note(r: &mut Vec<&'static str>, set: bool, flag: &'static str)
    ensures
        word_views(final(r)@) == word_views(old(r)@) + given(set, flag@),
{
    let ghost before = word_views(r@);
    if set {
        r.push(flag);
    }
    proof {
        assert(word_views(r@) =~= before + given(set, flag@));
    }
}

/// The filter flags that were given, as the user typed them.
pub fn requested(globals: &Globals) -> (r: Vec<&'static str>)
    ensures
        word_views(r@) == filter_flags(*globals),
{
    let mut r: Vec<&'static str> = Vec::new();
    note(&mut r, globals.included.len() > 0, "--include");
    note(&mut r, globals.excluded.len() > 0, "--exclude");
    note(&mut r, globals.filter_from.len() > 0, "--filter-from");
    note(&mut r, globals.files_from.len() > 0, "--files-from");
    note(&mut r, globals.min_size.is_some(), "--min-size");
    note(&mut r, globals.max_size.is_some(), "--max-size");
    note(&mut r, globals.max_depth != MAX_DEPTH_UNLIMITED, "--max-depth");
    proof {
        assert(word_views(r@) =~= filter_flags(*globals));
    }
    r
}

fn enumerated(words: &Vec<&'static str>) -> (s: String)
    ensures
        s@ == listed(word_views(words@)),
{
    let ghost all = word_views(words@);
    let mut s = String::new();
    let mut i: usize = 0;
    while i < words.len()
        invariant
            i <= words@.len(),
            all == word_views(words@),
            s@ == listed(all.take(i as int)),
        decreases words@.len() - i,
    {
        proof {
            assert(all.take(i + 1).drop_last() =~= all.take(i as int));
            assert(all.take(i + 1).last() == words@[i as int]@);
        }
        if i > 0 {
            s.append(REMOVAL_LIST_SEPARATOR);
        }
        s.append(words[i]);
        proof {
            assert(s@ =~= listed(all.take(i + 1)));
        }
        i = i + 1;
    }
    proof {
        assert(all.take(i as int) =~= all);
    }
    s
}

/// Whether `e` is the refusal of the filters that were given.
pub open spec fn is_filter_refusal(e: CliError, globals: Globals) -> bool {
    e.is(
        ExitCode::Usage,
        "dctl replicate does not accept filters, and "@ + listed(filter_flags(globals))
            + " was given"@,
        Some(REPLICATE_FILTER_HINT@),
    )
}

/// Refuses a run that asks for any filter at all, and names all of them at once.
pub fn refuse(globals: &Globals) -> (r: Result<()>)
    ensures
        match r {
            Ok(_) => filter_flags(*globals).len() == 0,
            Err(e) => filter_flags(*globals).len() > 0 && is_filter_refusal(e, *globals),
        },
{
    let flags = requested(globals);
    if flags.len() == 0 {
        proof {
            assert(word_views(flags@).len() == 0);
        }
        return Ok(());
    }
    let names = enumerated(&flags);
    proof {
        assert(word_views(flags@).len() > 0);
    }
    Err(
        CliError::new(
            ExitCode::Usage,
            text::cat3(
                "dctl replicate does not accept filters, and ",
                names.as_str(),
                " was given",
            ),
        ).with_hint(REPLICATE_FILTER_HINT.to_owned()),
    )
}

/// A run is refused as soon as any flag narrows it: a pattern, a rule file, a size or a depth, a
/// depth of zero too. Only a run without any of them goes on.
pub proof fn any_narrowing_is_refused(globals: Globals)
    ensures
        filter_flags(globals).len() == 0 <==> globals.included@.len() == 0
            && globals.excluded@.len() == 0 && globals.filter_from@.len() == 0
            && globals.files_from@.len() == 0 && globals.min_size is None && globals.max_size
            is None && globals.max_depth == -1,
        globals.included@.len() > 0 ==> filter_flags(globals).contains("--include"@),
        globals.max_depth != -1 ==> filter_flags(globals).contains("--max-depth"@),
{
    let f = filter_flags(globals);
    if globals.included@.len() > 0 {
        assert(f[0] == "--include"@);
    }
    if globals.max_depth != -1 {
        assert(f[f.len() - 1] == "--max-depth"@);
    }
}

/// A filter is refused as a mistake that names every flag that was given.
pub proof fn a_refused_filter_is_named(e: CliError, globals: Globals)
    requires
        is_filter_refusal(e, globals),
    ensures
        e.code == ExitCode::Usage,
        e.message@ == "dctl replicate does not accept filters, and "@ + listed(
            filter_flags(globals),
        ) + " was given"@,
        e.hint is Some,
{
}

/// The views of words are the words, one for one and in order.
pub proof fn words_are_viewed_one_by_one(s: Seq<&'static str>, i: int)
    ensures
        word_views(s).len() == s.len(),
        0 <= i < s.len() ==> word_views(s)[i] == s[i]@,
{
}

} // verus!
