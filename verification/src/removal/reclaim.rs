//! Debris: what interrupted writes leave behind, and when it may be reclaimed.
//!
//! Three things stand between a piece of debris and its deletion. It has to be debris: a
//! staging key is recognised by its name, and an orphan only by an index that is known to be
//! complete. It has to be old enough that no live run can still be writing it, and an unknown
//! age is not old. And the run has to be a real one.
use vstd::prelude::*;

use crate::audit::AuditEntry;
use crate::constants::{
    CLEANUP_STALE_INDEX_HINT, REMOVAL_ENGINE_HINT, REMOVAL_ENGINE_MISSING, REMOVAL_KIND_ORPHAN,
    REMOVAL_KIND_STAGING, REMOVAL_STATUS_FAILED, REMOVAL_STATUS_HELD, REMOVAL_STATUS_REMOVED,
    REMOVAL_STATUS_UNSUPPORTED, REMOVAL_STATUS_WOULD_REMOVE,
};
use crate::error::{ExitCode, Result};
use crate::listing::Entry;
use crate::ordered;
use crate::ordered::ascending;
use crate::output;
use crate::output::{duration_text, notice_views, Level, Notice};
use crate::path;
use crate::path::{file_name, under};
use crate::removal::report::{Report, Totals, Written};
use crate::removal::selection::{Item, ItemView};
use crate::removal::target::Target;
use crate::stats::{bumped, Stats};
use crate::text;
use crate::text::{digits, is_digit, views};
use crate::time::Duration;

verus! {

/// A class of debris.
#[derive(Clone, Copy, Debug, PartialEq, Eq, Structural)]
pub enum Class {
    /// Uploads in parts that were never finished.
    Multipart,
    /// Objects left under a temporary name by an interrupted write.
    Staging,
    /// Content that no index row refers to.
    Orphans,
    /// Superseded versions of an object.
    Versions,
}

impl Class {
    /// The name that a class is written as.
    pub open spec fn name(self) -> Seq<char> {
        match self {
            Class::Multipart => "multipart"@,
            Class::Staging => "staging"@,
            Class::Orphans => "orphans"@,
            Class::Versions => "versions"@,
        }
    }

    /// Every class, in the order in which they are swept by default.
    pub fn all() -> (r: [Class; 4])
        ensures
            r@ == seq![Class::Multipart, Class::Staging, Class::Orphans, Class::Versions],
    {
        let r = [Class::Multipart, Class::Staging, Class::Orphans, Class::Versions];
        proof {
            assert(r@ =~= seq![
                Class::Multipart,
                Class::Staging,
                Class::Orphans,
                Class::Versions,
            ]);
        }
        r
    }

    /// The name of a class, on the command line and in a report.
    pub fn slug(self) -> (s: String)
        ensures
            s@ == self.name(),
    {
        class_name(self).to_owned()
    }

    /// What a sweep of this class would need and cannot have.
    pub open spec fn lacks(self) -> Option<Seq<char>> {
        match self {
            Class::Multipart => Some("listing a provider's in-progress multipart uploads"@),
            Class::Versions => Some("listing an object's superseded versions"@),
            Class::Staging | Class::Orphans => None,
        }
    }

    pub fn missing_capability(self) -> (r: Option<&'static str>)
        ensures
            match r {
                Some(t) => self.lacks() == Some(t@),
                None => self.lacks() is None,
            },
    {
        match self {
            Class::Multipart => Some("listing a provider's in-progress multipart uploads"),
            Class::Versions => Some("listing an object's superseded versions"),
            Class::Staging | Class::Orphans => None,
        }
    }
}

/// The name of a class.
pub fn class_name(class: Class) -> (s: &'static str)
    ensures
        s@ == class.name(),
{
    match class {
        Class::Multipart => "multipart",
        Class::Staging => "staging",
        Class::Orphans => "orphans",
        Class::Versions => "versions",
    }
}

/// Two classes never share a name.
pub proof fn class_names_are_distinct(a: Class, b: Class)
    requires
        a.name() == b.name(),
    ensures
        a == b,
{
    reveal_strlit("multipart");
    reveal_strlit("staging");
    reveal_strlit("orphans");
    reveal_strlit("versions");
    assert("multipart"@.len() == 9);
    assert("staging"@[0] == 's');
    assert("orphans"@[0] == 'o');
    assert("versions"@.len() == 8);
}

/// What a sweep was asked to reclaim.
#[derive(Debug)]
pub struct Request<'a> {
    pub classes: &'a [Class],
    /// How old debris has to be before it counts as abandoned.
    pub min_age: Duration,
    /// Whether the user named the classes. A class that cannot be swept is an error only then.
    pub named: bool,
}

/// The age test of one sweep: one reading of the clock, and the least age.
#[derive(Clone, Copy, Debug, PartialEq, Eq, Structural)]
pub struct Aging {
    /// Seconds since 1970 when the sweep started.
    pub now: i64,
    pub min_age: Duration,
}

/// How long ago something was written. A time in the future counts as now.
pub open spec fn age_seconds(modified: i64, now: i64) -> u64 {
    if modified >= now {
        0
    } else if now - modified > i64::MAX {
        i64::MAX as u64
    } else {
        (now - modified) as u64
    }
}

/// How long ago an entry was last written, where that is known.
pub fn age_of(entry: &Entry, now: i64) -> (r: Option<Duration>)
    ensures
        match (r, entry.modified_unix) {
            (Some(d), Some(modified)) => d.seconds == age_seconds(modified, now),
            (None, None) => true,
            _ => false,
        },
{
    match entry.modified_unix {
        None => None,
        Some(modified) => {
            let seconds: u64 = if modified >= now {
                0
            } else {
                let span: i128 = now as i128 - modified as i128;
                if span > i64::MAX as i128 {
                    i64::MAX as u64
                } else {
                    span as u64
                }
            };
            Some(Duration::from_secs(seconds))
        },
    }
}

/// Whether a name is one that staged, uncommitted objects are stored under:
/// `.dctl-staging.`, digits, a dot, digits.
pub open spec fn staging_name(name: Seq<char>) -> bool {
    let head = ".dctl-staging."@;
    head.is_prefix_of(name) && exists|dot: int|
        #![trigger name[dot]]
        head.len() < dot < name.len() - 1 && name[dot] == '.' && all_digits_between(
            name,
            head.len() as int,
            dot,
        ) && all_digits_between(name, dot + 1, name.len() as int)
}

pub open spec fn all_digits_between(s: Seq<char>, from: int, to: int) -> bool {
    forall|i: int| from <= i < to ==> is_digit(#[trigger] s[i])
}

/// Whether a key is that of a staged object: the rule is on its last component.
pub open spec fn staged(key: Seq<char>) -> bool {
    staging_name(file_name(key))
}

fn digit(c: char) -> (r: bool)
    ensures
        r == is_digit(c),
{
    let n: u32 = c as u32;
    48 <= n && n <= 57
}

/// Whether a key marks a staged, uncommitted object.
pub fn is_staged(key: &str) -> (r: bool)
    ensures
        r == staged(key@),
{
    let name = path::name_of(key);
    let v = text::chars_of(name.as_str());
    let head = text::chars_of(".dctl-staging.");
    let ghost h = ".dctl-staging."@;
    if v.len() < head.len() {
        return false;
    }
    let mut i: usize = 0;
    while i < head.len()
        invariant
            i <= head.len() <= v.len(),
            head@ == h,
            h == ".dctl-staging."@,
            v@ == file_name(key@),
            forall|j: int| 0 <= j < i ==> v@[j] == h[j],
        decreases head.len() - i,
    {
        if v[i] != head[i] {
            proof {
                if h.is_prefix_of(v@) {
                    assert(h[i as int] == v@.subrange(0, h.len() as int)[i as int]);
                }
            }
            return false;
        }
        i = i + 1;
    }
    assert(h =~= v@.subrange(0, h.len() as int));
    let mut dot: usize = head.len();
    while dot < v.len() && digit(v[dot])
        invariant
            head@ == h,
            head.len() <= dot <= v.len(),
            all_digits_between(v@, h.len() as int, dot as int),
        decreases v.len() - dot,
    {
        dot = dot + 1;
    }
    let mut end: usize = dot;
    if dot < v.len() {
        end = dot + 1;
    }
    while end < v.len() && digit(v[end])
        invariant
            dot <= end <= v.len(),
            dot < v.len() ==> dot < end,
            all_digits_between(v@, dot + 1, end as int),
        decreases v.len() - end,
    {
        end = end + 1;
    }
    let r = dot > head.len() && dot < v.len() && v.len() - dot > 1 && v[dot] == '.' && end == v.len();
    proof {
        if r {
            assert(v@[dot as int] == '.');
        }
        if staging_name(v@) {
            let d = choose|d: int|
                #![trigger v@[d]]
                h.len() < d < v@.len() - 1 && v@[d] == '.' && all_digits_between(
                    v@,
                    h.len() as int,
                    d,
                ) && all_digits_between(v@, d + 1, v@.len() as int);
            assert(dot <= d) by {
                if d < dot {
                    assert(is_digit(v@[d]));
                }
            }
            if dot < d {
                assert(is_digit(v@[dot as int]));
            }
            assert(dot == d);
            if end < v@.len() {
                assert(is_digit(v@[end as int]));
            }
        }
    }
    r
}

/// What is to be done with one listed piece of debris.
#[derive(Debug)]
pub enum Found {
    /// It is not debris at all; it is left alone, and the store is reported for offering it.
    Foreign(String),
    /// It is left alone for now.
    Held { item: Item, reason: String },
    /// A real run would delete it.
    WouldRemove(Item),
    /// It is to be deleted.
    Delete(Item),
}

/// What a finding says.
pub enum FoundView {
    Foreign(Seq<char>),
    Held { item: ItemView, reason: Seq<char> },
    WouldRemove(ItemView),
    Delete(ItemView),
}

impl View for Found {
    type V = FoundView;

    open spec fn view(&self) -> FoundView {
        match self {
            Found::Foreign(key) => FoundView::Foreign(key@),
            Found::Held { item, reason } => FoundView::Held { item: item@, reason: reason@ },
            Found::WouldRemove(item) => FoundView::WouldRemove(item@),
            Found::Delete(item) => FoundView::Delete(item@),
        }
    }
}

pub open spec fn found_views(s: Seq<Found>) -> Seq<FoundView> {
    s.map_values(|f: Found| f@)
}

/// The item for a piece of debris.
pub open spec fn debris_item(e: Entry, kind: Seq<char>) -> ItemView {
    ItemView { path: e.path@, size: e.size, kind }
}

/// What is to be done with a piece of debris: nothing while its age is unknown or less than
/// asked for, and nothing in a dry run.
pub open spec fn judged(e: Entry, kind: Seq<char>, aging: Aging, dry_run: bool) -> FoundView {
    let item = debris_item(e, kind);
    match e.modified_unix {
        None => FoundView::Held {
            item,
            reason: "its age cannot be established, and unknown is not old"@,
        },
        Some(modified) => if age_seconds(modified, aging.now) < aging.min_age.seconds {
            FoundView::Held {
                item,
                reason: "younger than "@ + duration_text(aging.min_age.seconds as nat),
            }
        } else if dry_run {
            FoundView::WouldRemove(item)
        } else {
            FoundView::Delete(item)
        },
    }
}

/// Judges one piece of debris.
pub fn judge(entry: &Entry, kind: &'static str, aging: Aging, dry_run: bool) -> (f: Found)
    ensures
        f@ == judged(*entry, kind@, aging, dry_run),
{
    let item = Item { path: entry.path.clone(), size: entry.size, kind };
    match age_of(entry, aging.now) {
        None => Found::Held {
            item,
            reason: "its age cannot be established, and unknown is not old".to_owned(),
        },
        Some(age) => if age.seconds < aging.min_age.seconds {
            let span = output::duration(aging.min_age.seconds);
            Found::Held { item, reason: text::cat2("younger than ", span.as_str()) }
        } else if dry_run {
            Found::WouldRemove(item)
        } else {
            Found::Delete(item)
        },
    }
}

/// What a store answers when it is asked for the debris of interrupted writes.
#[derive(Debug)]
pub enum StagingListing {
    /// Some of it, and where to go on.
    Page { items: Vec<Entry>, next_cursor: Option<String> },
    /// There is none of this kind on this store, and why.
    NotStaged(String),
}

/// What a staging sweep does with one answer of the store.
#[derive(Debug)]
pub enum StagingStep {
    /// Deal with these, then ask again from this cursor.
    More { found: Vec<Found>, cursor: String },
    /// Deal with these; the sweep is then done.
    Last { found: Vec<Found> },
    /// Report that there is nothing of this kind, and why; the sweep is done.
    NotStaged(String),
}

/// What a page of staging debris comes to. Neighbours that only share the first letters of
/// the prefix are passed over, and what is not a staging key is never deleted.
pub open spec fn sorted_page(
    prefix: Seq<char>,
    items: Seq<Entry>,
    aging: Aging,
    dry_run: bool,
) -> Seq<FoundView>
    decreases items.len(),
{
    if items.len() == 0 {
        Seq::empty()
    } else {
        let before = sorted_page(prefix, items.drop_last(), aging, dry_run);
        let e = items.last();
        if !under(prefix, e.path@) {
            before
        } else if !staged(e.path@) {
            before.push(FoundView::Foreign(e.path@))
        } else {
            before.push(judged(e, REMOVAL_KIND_STAGING@, aging, dry_run))
        }
    }
}

/// Whether the pager stands still: nothing came, and the cursor is the one it was given.
pub open spec fn stalled(cursor: Option<String>, items: Seq<Entry>, next: Option<String>) -> bool {
    items.len() == 0 && text::view_option(next) == text::view_option(cursor)
}

fn sort_page(prefix: &str, items: &Vec<Entry>, aging: Aging, dry_run: bool) -> (r: Vec<Found>)
    ensures
        found_views(r@) == sorted_page(prefix@, items@, aging, dry_run),
{
    let mut r: Vec<Found> = Vec::new();
    let mut i: usize = 0;
    proof {
        assert(items@.take(0) =~= Seq::empty());
        assert(found_views(r@) =~= Seq::empty());
    }
    while i < items.len()
        invariant
            i <= items@.len(),
            found_views(r@) == sorted_page(prefix@, items@.take(i as int), aging, dry_run),
        decreases items@.len() - i,
    {
        let e = &items[i];
        let ghost before = found_views(r@);
        proof {
            assert(items@.take(i + 1).drop_last() =~= items@.take(i as int));
            assert(items@.take(i + 1).last() == *e);
        }
        if path::is_under(prefix, e.path.as_str()) {
            let f = if !is_staged(e.path.as_str()) {
                Found::Foreign(e.path.clone())
            } else {
                judge(e, REMOVAL_KIND_STAGING, aging, dry_run)
            };
            let ghost v = f@;
            r.push(f);
            proof {
                assert(found_views(r@) =~= before.push(v));
            }
        }
        i = i + 1;
    }
    proof {
        assert(items@.take(items@.len() as int) =~= items@);
    }
    r
}

fn same_cursor(a: &Option<String>, b: &Option<String>) -> (r: bool)
    ensures
        r == (text::view_option(*a) == text::view_option(*b)),
{
    match (a, b) {
        (None, None) => true,
        (Some(x), Some(y)) => text::same(x.as_str(), y.as_str()),
        _ => false,
    }
}

/// One step of the sweep of staging debris: what to do with the store's answer, and whether
/// to ask again. A store that hands back nothing and the cursor it was given has nothing more
/// to say.
pub fn staging(
    prefix: &str,
    cursor: &Option<String>,
    answer: StagingListing,
    aging: Aging,
    dry_run: bool,
) -> (r: StagingStep)
    ensures
        match answer {
            StagingListing::NotStaged(reason) => r == StagingStep::NotStaged(reason),
            StagingListing::Page { items, next_cursor } => match r {
                StagingStep::More { found, cursor: next } => {
                    &&& !stalled(*cursor, items@, next_cursor)
                    &&& next_cursor == Some(next)
                    &&& found_views(found@) == sorted_page(prefix@, items@, aging, dry_run)
                },
                StagingStep::Last { found } => {
                    &&& stalled(*cursor, items@, next_cursor) || next_cursor is None
                    &&& found_views(found@) == sorted_page(prefix@, items@, aging, dry_run)
                },
                StagingStep::NotStaged(_) => false,
            },
        },
{
    match answer {
        StagingListing::NotStaged(reason) => StagingStep::NotStaged(reason),
        StagingListing::Page { items, next_cursor } => {
            let still = items.len() == 0 && same_cursor(&next_cursor, cursor);
            let found = sort_page(prefix, &items, aging, dry_run);
            if still {
                return StagingStep::Last { found };
            }
            match next_cursor {
                None => StagingStep::Last { found },
                Some(next) => StagingStep::More { found, cursor: next },
            }
        },
    }
}

/// The object keys that a complete index refers to.
#[derive(Debug)]
pub struct Referenced {
    keys: Vec<String>,
}

impl Referenced {
    #[verifier::type_invariant]
    closed spec fn in_order(self) -> bool {
        ascending(views(self.keys@))
    }

    /// The keys, as a set.
    pub closed spec fn keys(self) -> Set<Seq<char>> {
        views(self.keys@).to_set()
    }

    fn of(keys: &Vec<String>) -> (r: Referenced)
        ensures
            r.keys() == views(keys@).to_set(),
    {
        let mut sorted: Vec<String> = Vec::new();
        let mut i: usize = 0;
        while i < keys.len()
            invariant
                i <= keys@.len(),
                ascending(views(sorted@)),
                forall|k: Seq<char>|
                    views(sorted@).contains(k) <==> views(keys@).take(i as int).contains(k),
            decreases keys@.len() - i,
        {
            let ghost before = views(keys@).take(i as int);
            let ghost after = views(keys@).take(i + 1);
            ordered::insert(&mut sorted, keys[i].clone());
            proof {
                assert(after =~= before.push(keys@[i as int]@));
                assert forall|k: Seq<char>| after.contains(k) <==> before.contains(k) || k
                    == keys@[i as int]@ by {
                    if before.contains(k) {
                        let j = choose|j: int| 0 <= j < before.len() && before[j] == k;
                        assert(after[j] == k);
                    }
                    if k == keys@[i as int]@ {
                        assert(after[i as int] == k);
                    }
                }
            }
            i = i + 1;
        }
        proof {
            assert(views(keys@).take(keys@.len() as int) =~= views(keys@));
        }
        let r = Referenced { keys: sorted };
        proof {
            assert(r.keys() =~= views(keys@).to_set());
        }
        r
    }

    /// What is to be done with one content object: nothing at all where the index refers to it.
    pub fn judge(&self, entry: &Entry, aging: Aging, dry_run: bool) -> (r: Option<Found>)
        ensures
            match r {
                None => self.keys().contains(entry.path@),
                Some(f) => !self.keys().contains(entry.path@) && f@ == judged(
                    *entry,
                    REMOVAL_KIND_ORPHAN@,
                    aging,
                    dry_run,
                ),
            },
    {
        proof {
            use_type_invariant(self);
        }
        if ordered::contains(&self.keys, entry.path.as_str()) {
            None
        } else {
            Some(judge(entry, REMOVAL_KIND_ORPHAN, aging, dry_run))
        }
    }
}

/// Whether a sweep for orphans may go ahead.
#[derive(Debug)]
pub enum OrphanGate {
    /// The index is complete, so what it does not refer to is an orphan.
    Proven(Referenced),
    /// Nothing can be shown to be an orphan, and why.
    Refused(String),
}

/// Why an index that does not describe the vault is no evidence.
pub open spec fn stale_reason(name_records: nat, rows: nat) -> Seq<char> {
    "the vault holds "@ + digits(name_records) + " name record(s) but the index has "@ + digits(rows)
        + " row(s). "@ + CLEANUP_STALE_INDEX_HINT@
}

/// Decides whether orphans can be told at all.
///
/// An orphan is known only by its absence from the index, and an absence proves nothing
/// unless the index is complete. Every stored file has one name record on the store and one
/// row in the index, so the two counts have to be equal.
pub fn orphans(indexed: &Option<Vec<String>>, name_records: usize) -> (r: OrphanGate)
    ensures
        match r {
            OrphanGate::Proven(known) => indexed matches Some(keys) && keys@.len() == name_records
                && known.keys() == views(keys@).to_set(),
            OrphanGate::Refused(reason) => match *indexed {
                None => reason@
                    == "a plain object store has no index, so no object can be shown to be unreferenced"@,
                Some(keys) => keys@.len() != name_records && reason@ == stale_reason(
                    name_records as nat,
                    keys@.len(),
                ),
            },
        },
{
    match indexed {
        None => OrphanGate::Refused(
            "a plain object store has no index, so no object can be shown to be unreferenced".to_owned(),
        ),
        Some(keys) => {
            if keys.len() != name_records {
                let records = text::decimal(name_records as u64);
                let rows = text::decimal(keys.len() as u64);
                let counts = text::cat4(
                    "the vault holds ",
                    records.as_str(),
                    " name record(s) but the index has ",
                    rows.as_str(),
                );
                return OrphanGate::Refused(
                    text::cat3(counts.as_str(), " row(s). ", CLEANUP_STALE_INDEX_HINT),
                );
            }
            OrphanGate::Proven(Referenced::of(keys))
        },
    }
}

/// One class of a sweep.
#[derive(Clone, Copy, Debug, PartialEq, Eq, Structural)]
pub enum SweepStep {
    /// The class cannot be looked for.
    Unsupported(Class),
    Staging,
    Orphans,
}

pub open spec fn step_of(class: Class) -> SweepStep {
    match class {
        Class::Staging => SweepStep::Staging,
        Class::Orphans => SweepStep::Orphans,
        Class::Multipart | Class::Versions => SweepStep::Unsupported(class),
    }
}

/// A sweep, worked out.
#[derive(Debug)]
pub struct SweepPlan {
    /// The key prefix that the sweep is limited to.
    pub prefix: String,
    /// What to say before it starts.
    pub notices: Vec<Notice>,
    /// The age test; there is none where the clock cannot be read, and then no step.
    pub aging: Option<Aging>,
    /// One step for each class, in the order in which they were asked for.
    pub steps: Vec<SweepStep>,
}

/// What is said before a sweep: that a path does not limit it, where it does not, and that
/// nothing can be swept, where there is no clock.
pub open spec fn sweep_remarks(is_vault: bool, target: Target, now: Option<i64>) -> Seq<
    (Level, Seq<char>),
> {
    (if is_vault && target.path@.len() > 0 {
        seq![
            (
                Level::Warn,
                "'"@ + target.text()
                    + "' names a path, but a vault's debris has no plaintext path — the whole store is swept"@,
            ),
        ]
    } else {
        Seq::empty()
    }) + (if now is None {
        seq![
            (
                Level::Error,
                "the system clock is unreadable, so no debris can be shown to be abandoned"@,
            ),
        ]
    } else {
        Seq::empty()
    })
}

/// Works out a sweep of every requested class.
///
/// The keys of a vault bear no relation to the paths in it, so a path cannot limit the sweep
/// of a vault; on a plain store the path is a key prefix. Without a clock nothing can be shown
/// to be abandoned: that is one error, and nothing is swept.
pub fn sweep(
    request: &Request<'_>,
    is_vault: bool,
    target: &Target,
    now: Option<i64>,
    stats: &mut Stats,
) -> (r: SweepPlan)
    ensures
        r.prefix@ == (if is_vault {
            Seq::empty()
        } else {
            target.path@
        }),
        notice_views(r.notices@) == sweep_remarks(is_vault, *target, now),
        match now {
            None => {
                &&& r.aging is None
                &&& r.steps@.len() == 0
                &&& *final(stats) == old(stats).with_error()
            },
            Some(t) => {
                &&& r.aging == Some(Aging { now: t, min_age: request.min_age })
                &&& r.steps@ == request.classes@.map_values(|c: Class| step_of(c))
                &&& *final(stats) == *old(stats)
            },
        },
{
    let prefix = if is_vault {
        String::new()
    } else {
        target.path.clone()
    };
    let mut notices: Vec<Notice> = Vec::new();
    if is_vault && !target.is_root() {
        let shown = target.to_text();
        notices.push(
            Notice::new(
                Level::Warn,
                text::cat3(
                    "'",
                    shown.as_str(),
                    "' names a path, but a vault's debris has no plaintext path — the whole store is swept",
                ),
            ),
        );
    }
    let t = match now {
        None => {
            stats.error();
            notices.push(
                Notice::new(
                    Level::Error,
                    "the system clock is unreadable, so no debris can be shown to be abandoned".to_owned(),
                ),
            );
            proof {
                assert(notice_views(notices@) =~= sweep_remarks(is_vault, *target, now));
            }
            return SweepPlan { prefix, notices, aging: None, steps: Vec::new() };
        },
        Some(t) => t,
    };
    proof {
        assert(notice_views(notices@) =~= sweep_remarks(is_vault, *target, now));
    }
    let mut steps: Vec<SweepStep> = Vec::new();
    let mut i: usize = 0;
    let ghost wanted = request.classes@.map_values(|c: Class| step_of(c));
    while i < request.classes.len()
        invariant
            i <= request.classes@.len(),
            wanted == request.classes@.map_values(|c: Class| step_of(c)),
            steps@ == wanted.take(i as int),
        decreases request.classes@.len() - i,
    {
        let class = request.classes[i];
        let step = match class {
            Class::Staging => SweepStep::Staging,
            Class::Orphans => SweepStep::Orphans,
            Class::Multipart | Class::Versions => SweepStep::Unsupported(class),
        };
        steps.push(step);
        proof {
            assert(wanted.take(i + 1) =~= wanted.take(i as int).push(step_of(class)));
        }
        i = i + 1;
    }
    proof {
        assert(wanted.take(i as int) =~= wanted);
    }
    SweepPlan {
        prefix,
        notices,
        aging: Some(Aging { now: t, min_age: request.min_age }),
        steps,
    }
}

/// Why a class cannot be swept.
pub open spec fn unsupported_reason(class: Class) -> Seq<char> {
    REMOVAL_ENGINE_MISSING@ + " "@ + class.lacks()->0 + ". "@ + REMOVAL_ENGINE_HINT@
}

/// Reports a class that cannot be swept, for a reason. It is an error only where the class
/// was named.
pub fn refuse_class(class: Class, reason: &str, named: bool, report: &mut Report) -> (w: Written)
    ensures
        w.record.of_class(REMOVAL_STATUS_UNSUPPORTED@, class.name(), reason@),
        w.notice is Some,
        w.notice->0.is(Level::Warn, class.name() + ": "@ + reason@),
        final(report).totals == (Totals {
            unsupported: bumped(old(report).totals.unsupported),
            ..old(report).totals
        }),
        final(report).stats == (if named {
            old(report).stats.with_error()
        } else {
            old(report).stats
        }),
        final(report).same_sink(*old(report)),
{
    let w = report.unsupported(class_name(class), reason);
    if named {
        report.stats.error();
    }
    w
}

/// The reason for a class that lacks its capability.
pub fn lacking(class: Class) -> (r: Option<String>)
    ensures
        match r {
            Some(s) => class.lacks() is Some && s@ == unsupported_reason(class),
            None => class.lacks() is None,
        },
{
    match class.missing_capability() {
        None => None,
        Some(capability) => Some(
            text::cat5(
                REMOVAL_ENGINE_MISSING,
                " ",
                capability,
                ". ",
                REMOVAL_ENGINE_HINT,
            ),
        ),
    }
}

/// What is to be done about one finding.
#[derive(Debug)]
pub enum Handling {
    /// Write this; nothing else is to be done.
    Write(Written),
    /// Say this; nothing else is to be done.
    Say(Notice),
    /// Delete this from the store, and hand the outcome to `reclaimed`.
    Delete(Item),
}

/// Reports a finding, or hands over the item that is to be deleted.
pub fn handle(found: Found, report: &mut Report) -> (h: Handling)
    ensures
        match h {
            Handling::Delete(item) => found@ == FoundView::Delete(item@) && *final(report)
                == *old(report),
            Handling::Say(n) => {
                &&& found@ matches FoundView::Foreign(key)
                &&& n.is(
                    Level::Error,
                    "'"@ + key
                        + "' was offered as abandoned debris but is not a staging key; it has been left alone"@,
                )
                &&& final(report).stats == old(report).stats.with_error()
                &&& final(report).totals == old(report).totals
                &&& final(report).same_sink(*old(report))
            },
            Handling::Write(w) => match found@ {
                FoundView::Held { item, reason } => {
                    &&& w.record.of_item(REMOVAL_STATUS_HELD@, item, Some(reason))
                    &&& w.notice is None
                    &&& final(report).totals == (Totals {
                        held: bumped(old(report).totals.held),
                        ..old(report).totals
                    })
                    &&& final(report).stats == old(report).stats
                    &&& final(report).same_sink(*old(report))
                },
                FoundView::WouldRemove(item) => {
                    &&& w.record.of_item(REMOVAL_STATUS_WOULD_REMOVE@, item, None)
                    &&& w.notice is None
                    &&& final(report).totals == (Totals {
                        would_remove: bumped(old(report).totals.would_remove),
                        ..old(report).totals
                    }).accounted(item.size)
                    &&& final(report).stats == old(report).stats
                    &&& final(report).same_sink(*old(report))
                },
                _ => false,
            },
        },
{
    match found {
        Found::Foreign(key) => {
            report.stats.error();
            Handling::Say(
                Notice::new(
                    Level::Error,
                    text::cat3(
                        "'",
                        key.as_str(),
                        "' was offered as abandoned debris but is not a staging key; it has been left alone",
                    ),
                ),
            )
        },
        Found::Held { item, reason } => Handling::Write(report.held(&item, reason.as_str())),
        Found::WouldRemove(item) => Handling::Write(report.would_remove(&item)),
        Found::Delete(item) => Handling::Delete(item),
    }
}

/// The exit code that an outcome is logged under.
pub open spec fn code_of(outcome: Result<()>) -> ExitCode {
    match outcome {
        Ok(_) => ExitCode::Success,
        Err(e) => e.code,
    }
}

/// Records the outcome of deleting a piece of debris: in the report, and for the log.
pub fn reclaimed(
    op: &'static str,
    remote: &str,
    item: &Item,
    outcome: &Result<()>,
    report: &mut Report,
) -> (r: (Written, AuditEntry))
    ensures
        r.1.of_removal(op@, code_of(*outcome), item.path@, item.size, remote@),
        final(report).same_sink(*old(report)),
        match outcome {
            Ok(_) => {
                &&& r.0.record.of_item(REMOVAL_STATUS_REMOVED@, item@, None)
                &&& r.0.notice is None
                &&& final(report).totals == (Totals {
                    removed: bumped(old(report).totals.removed),
                    ..old(report).totals
                }).accounted(item.size)
                &&& final(report).stats == old(report).stats.with_deleted()
            },
            Err(e) => {
                &&& r.0.record.of_item(REMOVAL_STATUS_FAILED@, item@, Some(e.message@))
                &&& r.0.notice is Some
                &&& r.0.notice->0.is(
                    Level::Error,
                    "could not remove '"@ + item.path@ + "': "@ + e.message@,
                )
                &&& final(report).totals == (Totals {
                    failed: bumped(old(report).totals.failed),
                    ..old(report).totals
                })
                &&& final(report).stats == old(report).stats.with_error()
            },
        },
{
    match outcome {
        Ok(_) => {
            let w = report.removed(item);
            (
                w,
                AuditEntry::removal(
                    op,
                    ExitCode::Success,
                    item.path.as_str(),
                    item.size,
                    remote,
                ),
            )
        },
        Err(e) => {
            let w = report.failed(item, e.message());
            (w, AuditEntry::removal(op, e.code(), item.path.as_str(), item.size, remote))
        },
    }
}

/// Nothing is deleted unless it is known to be at least as old as asked for, and nothing is
/// deleted in a dry run.
pub proof fn only_old_debris_is_deleted(e: Entry, kind: Seq<char>, aging: Aging, dry_run: bool)
    requires
        judged(e, kind, aging, dry_run) is Delete,
    ensures
        !dry_run,
        e.modified_unix is Some,
        age_seconds(e.modified_unix->0, aging.now) >= aging.min_age.seconds,
        judged(e, kind, aging, dry_run) == FoundView::Delete(debris_item(e, kind)),
{
}

/// Whatever a store offers as staging debris, what is deleted of it lies under the prefix and
/// has the name of a staging key.
pub proof fn only_staged_keys_are_deleted(
    prefix: Seq<char>,
    items: Seq<Entry>,
    aging: Aging,
    dry_run: bool,
    k: int,
)
    requires
        0 <= k < sorted_page(prefix, items, aging, dry_run).len(),
        sorted_page(prefix, items, aging, dry_run)[k] is Delete,
    ensures
        exists|i: int|
            0 <= i < items.len() && staged((#[trigger] items[i]).path@) && under(
                prefix,
                items[i].path@,
            ) && sorted_page(prefix, items, aging, dry_run)[k] == FoundView::Delete(
                debris_item(items[i], REMOVAL_KIND_STAGING@),
            ),
    decreases items.len(),
{
    let front = items.drop_last();
    let before = sorted_page(prefix, front, aging, dry_run);
    if k < before.len() {
        only_staged_keys_are_deleted(prefix, front, aging, dry_run, k);
        let i = choose|i: int|
            0 <= i < front.len() && staged((#[trigger] front[i]).path@) && under(
                prefix,
                front[i].path@,
            ) && before[k] == FoundView::Delete(debris_item(front[i], REMOVAL_KIND_STAGING@));
        assert(items[i] == front[i]);
    } else {
        let e = items.last();
        assert(items[items.len() - 1] == e);
        only_old_debris_is_deleted(e, REMOVAL_KIND_STAGING@, aging, dry_run);
    }
}

/// Debris is deleted exactly where its time is known, it is at least as old as asked for, and the
/// run is a real one; in a dry run the same debris is announced; and everything else is held. A
/// time in the future is no age at all.
pub proof fn debris_goes_exactly_where_it_is_old(
    e: Entry,
    kind: Seq<char>,
    aging: Aging,
    dry_run: bool,
)
    requires
        aging.min_age.seconds <= i64::MAX,
    ensures
        ({
            let old = e.modified_unix is Some && (aging.min_age.seconds == 0 || aging.now
                - e.modified_unix->0 >= aging.min_age.seconds);
            let item = ItemView { path: e.path@, size: e.size, kind };
            &&& old && !dry_run <==> judged(e, kind, aging, dry_run) == FoundView::Delete(item)
            &&& old && dry_run <==> judged(e, kind, aging, dry_run) == FoundView::WouldRemove(item)
            &&& !old <==> judged(e, kind, aging, dry_run) is Held
            &&& judged(e, kind, aging, dry_run) matches FoundView::Held { item: held, reason: _ }
                ==> held == item
            &&& !(judged(e, kind, aging, dry_run) is Foreign)
        }),
{
}

/// How long ago something was written is the difference of the two times, as far as it can be
/// told, and never less than nothing.
pub proof fn an_age_is_a_difference(modified: i64, now: i64)
    ensures
        modified <= now && now - modified <= i64::MAX ==> age_seconds(modified, now) == now
            - modified,
        modified > now ==> age_seconds(modified, now) == 0,
        now - modified > i64::MAX ==> age_seconds(modified, now) == i64::MAX,
{
}

/// A page is gone through in its order: an entry that does not lie under the prefix is passed
/// over, one that is no staging key is reported and left alone, and one that is comes to what its
/// age says.
pub proof fn a_page_is_judged_entry_by_entry(
    prefix: Seq<char>,
    items: Seq<Entry>,
    aging: Aging,
    dry_run: bool,
    e: Entry,
)
    ensures
        ({
            let before = sorted_page(prefix, items, aging, dry_run);
            let after = sorted_page(prefix, items.push(e), aging, dry_run);
            let below = prefix.len() == 0 || e.path@ == prefix || prefix.push('/').is_prefix_of(
                e.path@,
            );
            &&& !below ==> after == before
            &&& below && !staged(e.path@) ==> after == before.push(FoundView::Foreign(e.path@))
            &&& below && staged(e.path@) ==> after == before.push(
                judged(e, REMOVAL_KIND_STAGING@, aging, dry_run),
            )
        }),
        sorted_page(prefix, Seq::empty(), aging, dry_run).len() == 0,
{
    assert(items.push(e).drop_last() =~= items);
}

/// A key is staged exactly where its last component is the fixed head, digits, a dot, and digits.
pub proof fn a_staged_key_is_known_by_its_name(above: Seq<char>, a: Seq<char>, b: Seq<char>)
    requires
        text::all_digits(a),
        text::all_digits(b),
    ensures
        ({
            let name = ".dctl-staging."@ + a + seq!['.'] + b;
            &&& staged(name)
            &&& staged(above.push('/') + name)
            &&& !staged(name.push('/'))
        }),
        !staged(".dctl-staging."@ + a),
        !staged(".dctl-staging."@ + a + seq!['.']),
{
    reveal_strlit(".dctl-staging.");
    let head = ".dctl-staging."@;
    let name = head + a + seq!['.'] + b;
    let dot = head.len() + a.len();
    assert(name[dot as int] == '.');
    assert(head =~= name.subrange(0, head.len() as int));
    assert forall|i: int| head.len() <= i < dot implies is_digit(#[trigger] name[i]) by {
        assert(name[i] == a[i - head.len()]);
    }
    assert forall|i: int| dot + 1 <= i < name.len() implies is_digit(#[trigger] name[i]) by {
        assert(name[i] == b[i - dot - 1]);
    }
    assert(staging_name(name));
    assert(!name.contains('/')) by {
        if name.contains('/') {
            let i = choose|i: int| 0 <= i < name.len() && name[i] == '/';
            if i < head.len() {
                assert(name[i] == head[i]);
            }
        }
    }
    text::lemma_one_piece(name, '/');
    assert(name.skip(0) =~= name);
    text::lemma_last_of_concat(above, name, '/');
    assert((above.push('/') + name).skip(above.len() as int + 1) =~= name);
    text::lemma_last_of_push(name, '/', '/');
    assert(file_name(name.push('/')).len() == 0);
    let short = head + a;
    lemma_no_second_dot(head, a);
    assert(short.push('.') =~= head + a + seq!['.']);
}

proof fn lemma_no_second_dot(head: Seq<char>, a: Seq<char>)
    requires
        head == ".dctl-staging."@,
        text::all_digits(a),
    ensures
        !staged(head + a),
        !staged((head + a).push('.')),
{
    reveal_strlit(".dctl-staging.");
    let short = head + a;
    let long = short.push('.');
    assert(!short.contains('/') && !long.contains('/')) by {
        if long.contains('/') {
            let i = choose|i: int| 0 <= i < long.len() && long[i] == '/';
            if i < head.len() {
                assert(long[i] == head[i]);
            } else if i < short.len() {
                assert(long[i] == a[i - head.len()]);
            }
        }
        if short.contains('/') {
            let i = choose|i: int| 0 <= i < short.len() && short[i] == '/';
            assert(long[i] == '/');
            assert(long.contains('/'));
        }
    }
    text::lemma_one_piece(short, '/');
    text::lemma_one_piece(long, '/');
    assert(short.skip(0) =~= short);
    assert(long.skip(0) =~= long);
    assert forall|i: int| head.len() <= i < short.len() implies is_digit(#[trigger] short[i]) by {
        assert(short[i] == a[i - head.len()]);
    }
    assert forall|i: int| head.len() <= i < short.len() implies is_digit(#[trigger] long[i]) by {
        assert(long[i] == a[i - head.len()]);
    }
}

/// Whatever is staged has the fixed head in its last component, a digit right behind it, and a
/// digit at its very end.
pub proof fn nothing_else_is_staged(key: Seq<char>)
    requires
        staged(key),
    ensures
        ({
            let name = file_name(key);
            let n = ".dctl-staging."@.len();
            &&& ".dctl-staging."@.is_prefix_of(name)
            &&& name.len() >= n + 3
            &&& is_digit(name[n as int])
            &&& is_digit(name.last())
            &&& forall|i: int|
                n <= i < name.len() ==> is_digit(#[trigger] name[i]) || name[i] == '.'
        }),
{
    let name = file_name(key);
    let h = ".dctl-staging."@;
    let dot = choose|dot: int|
        #![trigger name[dot]]
        h.len() < dot < name.len() - 1 && name[dot] == '.' && all_digits_between(
            name,
            h.len() as int,
            dot,
        ) && all_digits_between(name, dot + 1, name.len() as int);
    assert(is_digit(name[h.len() as int]));
    assert(is_digit(name[name.len() - 1]));
    assert forall|i: int| h.len() <= i < name.len() implies is_digit(#[trigger] name[i]) || name[i]
        == '.' by {}
}

/// A store that hands back nothing and the cursor that it was given would be asked for ever; any
/// other answer brings the sweep on.
pub proof fn only_a_repeated_empty_page_stands_still(
    cursor: Option<String>,
    items: Seq<Entry>,
    next: Option<String>,
)
    ensures
        items.len() > 0 ==> !stalled(cursor, items, next),
        items.len() == 0 && next is Some && cursor is Some && next->0@ == cursor->0@ ==> stalled(
            cursor,
            items,
            next,
        ),
        next is Some && cursor is Some && next->0@ != cursor->0@ ==> !stalled(cursor, items, next),
        next is Some && cursor is None ==> !stalled(cursor, items, next),
{
}

/// Two classes of debris can be swept, each by its own step, and the two others cannot.
pub proof fn two_classes_can_be_swept(class: Class)
    ensures
        step_of(class) == SweepStep::Staging <==> class == Class::Staging,
        step_of(class) == SweepStep::Orphans <==> class == Class::Orphans,
        class == Class::Multipart || class == Class::Versions ==> step_of(class)
            == SweepStep::Unsupported(class),
        class.lacks() is None <==> class == Class::Staging || class == Class::Orphans,
{
}

/// A sweep says that a path does not limit it exactly where a path inside a vault was named, and
/// that nothing can be swept exactly where there is no clock.
pub proof fn a_sweep_says_what_it_cannot_do(is_vault: bool, target: Target, now: Option<i64>)
    ensures
        ({
            let said = sweep_remarks(is_vault, target, now);
            let whole = is_vault && target.path@.len() > 0;
            &&& said.len() == (if whole {
                1int
            } else {
                0
            }) + (if now is None {
                1int
            } else {
                0
            })
            &&& whole ==> said[0].0 == Level::Warn
            &&& now is None ==> said.last().0 == Level::Error
        }),
{
}

/// A deletion is logged as a success exactly where it succeeded, and otherwise under its error.
pub proof fn a_failed_deletion_is_logged_as_one(outcome: Result<()>)
    ensures
        outcome is Ok ==> code_of(outcome) == ExitCode::Success,
        outcome matches Err(e) ==> code_of(outcome) == e.code,
{
}

/// A finding is viewed as what it is.
pub proof fn a_finding_is_viewed_as_it_is(f: Found)
    ensures
        f matches Found::Delete(item) ==> f@ == FoundView::Delete(item@),
        f matches Found::WouldRemove(item) ==> f@ == FoundView::WouldRemove(item@),
        f matches Found::Foreign(key) ==> f@ == FoundView::Foreign(key@),
        f matches Found::Held { item, reason } ==> f@ == (FoundView::Held {
            item: item@,
            reason: reason@,
        }),
{
}

/// The views of findings are the findings, one for one and in order.
pub proof fn findings_are_viewed_one_by_one(s: Seq<Found>, i: int)
    ensures
        found_views(s).len() == s.len(),
        0 <= i < s.len() ==> found_views(s)[i] == s[i]@,
{
}

/// A class that is held back because of a stale index is told with both counts, and one that
/// cannot be swept with what is missing.
pub proof fn a_held_class_is_told_why(name_records: nat, rows: nat, class: Class)
    ensures
        stale_reason(name_records, rows) == "the vault holds "@ + digits(name_records)
            + " name record(s) but the index has "@ + digits(rows) + " row(s). "@
            + CLEANUP_STALE_INDEX_HINT@,
        class.lacks() matches Some(missing) ==> unsupported_reason(class) == REMOVAL_ENGINE_MISSING@
            + " "@ + missing + ". "@ + REMOVAL_ENGINE_HINT@,
{
}

} // verus!
