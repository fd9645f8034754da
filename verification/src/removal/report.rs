//! What a removal did, object by object and in total.
//!
//! A record and the counters it moves are made in one call, so they cannot disagree about an
//! object. Writing a record out is the caller's part.
use vstd::prelude::*;
use vstd::string::StringExecFns;

use crate::constants::{
    REMOVAL_KIND_OBJECT, REMOVAL_SIZE_ABSENT, REMOVAL_SIZE_WIDTH, REMOVAL_STATUS_ABSENT,
    REMOVAL_STATUS_FAILED, REMOVAL_STATUS_HELD, REMOVAL_STATUS_NOT_STAGED, REMOVAL_STATUS_REMOVED,
    REMOVAL_STATUS_SUMMARY, REMOVAL_STATUS_UNSUPPORTED, REMOVAL_STATUS_WIDTH,
    REMOVAL_STATUS_WOULD_REMOVE,
};
use crate::output;
use crate::output::{grouped, size_or_unknown, size_text, Format, Level, Notice, Units};
use crate::removal::plan;
use crate::removal::plan::{row_views, Emission, Plan, PlanOptions};
use crate::removal::selection::{Item, ItemView};
use crate::stats::{bump, bumped, capped_sum, Stats};
use crate::text;
use crate::text::view_option;

verus! {

/// One line of the report. What does not apply is absent.
#[derive(Debug)]
pub struct Record {
    pub status: &'static str,
    pub path: Option<String>,
    pub size: Option<u64>,
    pub kind: Option<&'static str>,
    /// Why a removal failed, or why something was passed over.
    pub reason: Option<String>,
}

impl Record {
    /// Whether this is the record of an item.
    pub open spec fn of_item(
        self,
        status: Seq<char>,
        item: ItemView,
        reason: Option<Seq<char>>,
    ) -> bool {
        &&& self.status@ == status
        &&& view_option(self.path) == Some(item.path)
        &&& self.size == item.size
        &&& self.kind is Some
        &&& self.kind->0@ == item.kind
        &&& view_option(self.reason) == reason
    }

    /// Whether this is the record of a whole class of debris.
    pub open spec fn of_class(self, status: Seq<char>, class: Seq<char>, reason: Seq<char>) -> bool {
        &&& self.status@ == status
        &&& self.path is None
        &&& self.size is None
        &&& self.kind is Some
        &&& self.kind->0@ == class
        &&& view_option(self.reason) == Some(reason)
    }
}

/// What one call of the report has to say: a record, and perhaps a line of commentary.
#[derive(Debug)]
pub struct Written {
    pub record: Record,
    pub notice: Option<Notice>,
}

/// What the run did.
#[derive(Clone, Copy, Debug, PartialEq, Eq, Structural)]
pub struct Totals {
    /// Whether the run was forbidden from changing anything.
    pub dry_run: bool,
    /// Objects that a real run removed.
    pub removed: u64,
    /// Objects that a dry run would have removed.
    pub would_remove: u64,
    /// Objects that were gone when the removal reached them.
    pub absent: u64,
    /// Objects that could not be removed.
    pub failed: u64,
    /// Debris that was left because it is not known to be old enough.
    pub held: u64,
    /// Classes of debris that could not be looked for.
    pub unsupported: u64,
    /// Classes of debris that do not exist on this store.
    pub not_staged: u64,
    /// Bytes of what was removed, or would be; absent where some of it was never measured.
    pub bytes: Option<u64>,
    /// Bytes of the part that was measured.
    pub measured_bytes: u64,
    /// How many of those objects were never measured.
    pub unmeasured: u64,
}

impl Default for Totals {
    fn default() -> (t: Totals)
        ensures
            t == Totals::none(false),
    {
        Totals {
            dry_run: false,
            removed: 0,
            would_remove: 0,
            absent: 0,
            failed: 0,
            held: 0,
            unsupported: 0,
            not_staged: 0,
            bytes: Some(0),
            measured_bytes: 0,
            unmeasured: 0,
        }
    }
}

impl Totals {
    /// A run that has done nothing: it freed a known zero bytes.
    pub open spec fn none(dry_run: bool) -> Totals {
        Totals {
            dry_run,
            removed: 0,
            would_remove: 0,
            absent: 0,
            failed: 0,
            held: 0,
            unsupported: 0,
            not_staged: 0,
            bytes: Some(0),
            measured_bytes: 0,
            unmeasured: 0,
        }
    }

    /// The totals with one more object's size folded in.
    pub open spec fn accounted(self, size: Option<u64>) -> Totals {
        match size {
            Some(n) => Totals {
                measured_bytes: capped_sum(self.measured_bytes, n),
                bytes: match self.bytes {
                    Some(total) => Some(capped_sum(total, n)),
                    None => None,
                },
                ..self
            },
            None => Totals { unmeasured: bumped(self.unmeasured), bytes: None, ..self },
        }
    }

    /// Whether the three byte figures agree: the total is what was measured, and it is
    /// absent exactly where something was not.
    pub open spec fn consistent(self) -> bool {
        &&& self.bytes is None <==> self.unmeasured > 0
        &&& self.bytes is Some ==> self.bytes == Some(self.measured_bytes)
    }

    fn account(&mut self, size: Option<u64>)
        ensures
            *final(self) == old(self).accounted(size),
    {
        match size {
            Some(n) => {
                self.measured_bytes = self.measured_bytes.saturating_add(n);
                self.bytes = match self.bytes {
                    Some(total) => Some(total.saturating_add(n)),
                    None => None,
                };
            },
            None => {
                self.unmeasured = bump(self.unmeasured);
                self.bytes = None;
            },
        }
    }
}

/// The byte figures agree at the start, and accounting for an object keeps them in agreement:
/// a short total is never published as a total.
pub proof fn accounting_keeps_the_figures_consistent(totals: Totals, size: Option<u64>)
    requires
        totals.consistent(),
    ensures
        totals.accounted(size).consistent(),
        Totals::none(totals.dry_run).consistent(),
{
}

/// A removal report in progress.
#[derive(Debug)]
pub struct Report {
    pub format: Format,
    pub units: Units,
    pub totals: Totals,
    pub stats: Stats,
}

/// How a report is closed.
#[derive(Debug)]
pub enum Closing {
    /// The last record of a document: its status, and the totals.
    Summary { status: &'static str, totals: Totals },
    /// A line for a person.
    Spoken(Notice),
}

/// The words for what the totals come to.
pub open spec fn closing_line(totals: Totals, units: Units) -> Seq<char> {
    let verb = if totals.dry_run {
        REMOVAL_STATUS_WOULD_REMOVE@
    } else {
        REMOVAL_STATUS_REMOVED@
    };
    let acted = if totals.dry_run {
        totals.would_remove
    } else {
        totals.removed
    };
    verb + ": "@ + grouped(acted as nat) + " object(s), "@ + size_or_unknown(totals.bytes, units)
}

/// The commentary that closes a report: an error where anything survived, else a success.
pub open spec fn is_closing_notice(n: Notice, totals: Totals, units: Units) -> bool {
    if totals.failed > 0 {
        n.is(
            Level::Error,
            closing_line(totals, units) + "; "@ + grouped(totals.failed as nat)
                + " object(s) could not be removed"@,
        )
    } else {
        n.is(Level::Success, closing_line(totals, units))
    }
}

impl Report {
    /// Whether a call changed nothing but the totals and the counters.
    pub open spec fn same_sink(self, before: Report) -> bool {
        self.format == before.format && self.units == before.units
    }

    /// Opens a report.
    pub fn new(format: Format, units: Units, dry_run: bool) -> (r: Report)
        ensures
            r.format == format,
            r.units == units,
            r.totals == Totals::none(dry_run),
            r.stats == Stats::zero(),
    {
        let mut totals = Totals::default();
        totals.dry_run = dry_run;
        Report { format, units, totals, stats: Stats::default() }
    }

    /// What opens the report: the request that the run resolved to.
    pub fn plan<O: PlanOptions>(&self, plan: &Plan<'_, O>) -> (e: Emission)
        ensures
            match e {
                Emission::Table(rows) => self.format == Format::Text && row_views(rows@)
                    == plan.described(self.units),
                Emission::Document => self.format != Format::Text,
            },
    {
        plan::emit(self.format, self.units, plan)
    }

    /// Records an object that a dry run would have removed.
    pub fn would_remove(&mut self, item: &Item) -> (w: Written)
        ensures
            w.record.of_item(REMOVAL_STATUS_WOULD_REMOVE@, item@, None),
            w.notice is None,
            final(self).totals == (Totals {
                would_remove: bumped(old(self).totals.would_remove),
                ..old(self).totals
            }).accounted(item.size),
            final(self).stats == old(self).stats,
            final(self).same_sink(*old(self)),
    {
        self.totals.would_remove = bump(self.totals.would_remove);
        self.totals.account(item.size);
        Written { record: record_of(REMOVAL_STATUS_WOULD_REMOVE, item, None), notice: None }
    }

    /// Records an object that is now gone.
    pub fn removed(&mut self, item: &Item) -> (w: Written)
        ensures
            w.record.of_item(REMOVAL_STATUS_REMOVED@, item@, None),
            w.notice is None,
            final(self).totals == (Totals {
                removed: bumped(old(self).totals.removed),
                ..old(self).totals
            }).accounted(item.size),
            final(self).stats == old(self).stats.with_deleted(),
            final(self).same_sink(*old(self)),
    {
        self.totals.removed = bump(self.totals.removed);
        self.totals.account(item.size);
        self.stats.file_deleted();
        Written { record: record_of(REMOVAL_STATUS_REMOVED, item, None), notice: None }
    }

    /// Records an object that was already gone: neither a removal nor a failure.
    pub fn absent(&mut self, item: &Item) -> (w: Written)
        ensures
            w.record.of_item(REMOVAL_STATUS_ABSENT@, item@, None),
            w.notice is None,
            final(self).totals == (Totals {
                absent: bumped(old(self).totals.absent),
                ..old(self).totals
            }),
            final(self).stats == old(self).stats,
            final(self).same_sink(*old(self)),
    {
        self.totals.absent = bump(self.totals.absent);
        Written { record: record_of(REMOVAL_STATUS_ABSENT, item, None), notice: None }
    }

    /// Records an object that could not be removed, and why. It counts as an error.
    pub fn failed(&mut self, item: &Item, reason: &str) -> (w: Written)
        ensures
            w.record.of_item(REMOVAL_STATUS_FAILED@, item@, Some(reason@)),
            w.notice is Some,
            w.notice->0.is(
                Level::Error,
                "could not remove '"@ + item.path@ + "': "@ + reason@,
            ),
            final(self).totals == (Totals {
                failed: bumped(old(self).totals.failed),
                ..old(self).totals
            }),
            final(self).stats == old(self).stats.with_error(),
            final(self).same_sink(*old(self)),
    {
        self.totals.failed = bump(self.totals.failed);
        self.stats.error();
        let notice = Notice::new(
            Level::Error,
            text::cat4("could not remove '", item.path.as_str(), "': ", reason),
        );
        Written {
            record: record_of(REMOVAL_STATUS_FAILED, item, Some(reason.to_owned())),
            notice: Some(notice),
        }
    }

    /// Records debris that was left alone, and why.
    pub fn held(&mut self, item: &Item, reason: &str) -> (w: Written)
        ensures
            w.record.of_item(REMOVAL_STATUS_HELD@, item@, Some(reason@)),
            w.notice is None,
            final(self).totals == (Totals {
                held: bumped(old(self).totals.held),
                ..old(self).totals
            }),
            final(self).stats == old(self).stats,
            final(self).same_sink(*old(self)),
    {
        self.totals.held = bump(self.totals.held);
        Written {
            record: record_of(REMOVAL_STATUS_HELD, item, Some(reason.to_owned())),
            notice: None,
        }
    }

    /// Records a class of debris that could not be looked for.
    pub fn unsupported(&mut self, class: &'static str, reason: &str) -> (w: Written)
        ensures
            w.record.of_class(REMOVAL_STATUS_UNSUPPORTED@, class@, reason@),
            w.notice is Some,
            w.notice->0.is(Level::Warn, class@ + ": "@ + reason@),
            final(self).totals == (Totals {
                unsupported: bumped(old(self).totals.unsupported),
                ..old(self).totals
            }),
            final(self).stats == old(self).stats,
            final(self).same_sink(*old(self)),
    {
        self.totals.unsupported = bump(self.totals.unsupported);
        class_record(REMOVAL_STATUS_UNSUPPORTED, class, reason)
    }

    /// Records a class of debris that this store does not have. Nothing failed.
    pub fn not_staged(&mut self, class: &'static str, reason: &str) -> (w: Written)
        ensures
            w.record.of_class(REMOVAL_STATUS_NOT_STAGED@, class@, reason@),
            w.notice is Some,
            w.notice->0.is(Level::Warn, class@ + ": "@ + reason@),
            final(self).totals == (Totals {
                not_staged: bumped(old(self).totals.not_staged),
                ..old(self).totals
            }),
            final(self).stats == old(self).stats,
            final(self).same_sink(*old(self)),
    {
        self.totals.not_staged = bump(self.totals.not_staged);
        class_record(REMOVAL_STATUS_NOT_STAGED, class, reason)
    }

    /// The totals so far.
    pub fn totals(&self) -> (t: Totals)
        ensures
            t == self.totals,
    {
        self.totals
    }

    /// Closes the report: with its summary in a document, with a line for a person in text.
    pub fn finish(self) -> (c: Closing)
        ensures
            match c {
                Closing::Summary { status, totals } => self.format != Format::Text && status@
                    == REMOVAL_STATUS_SUMMARY@ && totals == self.totals,
                Closing::Spoken(n) => self.format == Format::Text && is_closing_notice(
                    n,
                    self.totals,
                    self.units,
                ),
            },
    {
        match self.format {
            Format::Text => Closing::Spoken(human_totals(&self.totals, self.units)),
            Format::Json | Format::JsonLines => Closing::Summary {
                status: REMOVAL_STATUS_SUMMARY,
                totals: self.totals,
            },
        }
    }
}

fn record_of(status: &'static str, item: &Item, reason: Option<String>) -> (r: Record)
    ensures
        r.of_item(status@, item@, view_option(reason)),
{
    Record {
        status,
        path: Some(item.path.clone()),
        size: item.size,
        kind: Some(item.kind),
        reason,
    }
}

fn class_record(status: &'static str, class: &'static str, reason: &str) -> (w: Written)
    ensures
        w.record.of_class(status@, class@, reason@),
        w.notice is Some,
        w.notice->0.is(Level::Warn, class@ + ": "@ + reason@),
{
    Written {
        record: Record {
            status,
            path: None,
            size: None,
            kind: Some(class),
            reason: Some(reason.to_owned()),
        },
        notice: Some(Notice::new(Level::Warn, text::cat3(class, ": ", reason))),
    }
}

fn human_totals(totals: &Totals, units: Units) -> (n: Notice)
    ensures
        is_closing_notice(n, *totals, units),
{
    let verb = if totals.dry_run {
        REMOVAL_STATUS_WOULD_REMOVE
    } else {
        REMOVAL_STATUS_REMOVED
    };
    let acted = output::count(
        if totals.dry_run {
            totals.would_remove
        } else {
            totals.removed
        },
    );
    let freed = output::bytes_or_unknown(totals.bytes, units);
    let line = text::cat5(verb, ": ", acted.as_str(), " object(s), ", freed.as_str());
    if totals.failed > 0 {
        let failed = output::count(totals.failed);
        Notice::new(
            Level::Error,
            text::cat4(line.as_str(), "; ", failed.as_str(), " object(s) could not be removed"),
        )
    } else {
        Notice::new(Level::Success, line)
    }
}

/// `n` spaces.
pub open spec fn spaces(n: int) -> Seq<char> {
    if n <= 0 {
        Seq::empty()
    } else {
        Seq::new(n as nat, |i: int| ' ')
    }
}

/// The line for a record: its status at the left of a column, its size at the right of
/// another, and last the path, or the class where there is no path.
pub open spec fn line_of(record: Record, units: Units) -> Seq<char> {
    let size = match record.size {
        Some(n) => size_text(n as nat, units),
        None => REMOVAL_SIZE_ABSENT@,
    };
    let subject = match record.path {
        Some(p) => p@,
        None => match record.kind {
            Some(k) => k@,
            None => REMOVAL_KIND_OBJECT@,
        },
    };
    record.status@ + spaces(REMOVAL_STATUS_WIDTH - record.status@.len()) + spaces(
        REMOVAL_SIZE_WIDTH - size.len(),
    ) + size + "  "@ + subject
}

fn push_spaces(s: &mut String, width: usize, used: usize)
    ensures
        final(s)@ == old(s)@ + spaces(width - used),
{
    let ghost start = s@;
    let mut i: usize = used;
    proof {
        assert(start + spaces(0) =~= start);
        assert(spaces(i - used) =~= spaces(0));
    }
    while i < width
        invariant
            used <= i,
            i <= width || i == used,
            s@ == start + spaces(i - used),
        decreases width - i,
    {
        s.push(' ');
        i = i + 1;
        proof {
            assert(start + spaces(i - used) =~= (start + spaces(i - 1 - used)).push(' '));
        }
    }
    proof {
        if i > width {
            assert(spaces(width - used) =~= spaces(0));
        }
    }
}

/// The line of the text report for a record.
pub fn text_line(record: &Record, units: Units) -> (s: String)
    ensures
        s@ == line_of(*record, units),
{
    let size = match record.size {
        Some(n) => output::bytes(n, units),
        None => REMOVAL_SIZE_ABSENT.to_owned(),
    };
    let subject: &str = match &record.path {
        Some(p) => p.as_str(),
        None => match record.kind {
            Some(k) => k,
            None => REMOVAL_KIND_OBJECT,
        },
    };
    let mut s = record.status.to_owned();
    let status_width = text::chars_of(record.status).len();
    push_spaces(&mut s, REMOVAL_STATUS_WIDTH, status_width);
    let size_width = text::chars_of(size.as_str()).len();
    push_spaces(&mut s, REMOVAL_SIZE_WIDTH, size_width);
    s.append(size.as_str());
    s.append("  ");
    s.append(subject);
    s
}

/// A measured object adds its size to both byte figures; one that was never measured adds to
/// neither, is counted as such, and leaves the total unknown for good. Nothing else is touched.
pub proof fn an_unmeasured_object_leaves_the_total_unknown(t: Totals, n: u64)
    ensures
        t.measured_bytes + n <= u64::MAX ==> t.accounted(Some(n)).measured_bytes
            == t.measured_bytes + n,
        t.bytes is Some && t.bytes->0 + n <= u64::MAX ==> t.accounted(Some(n)).bytes == Some(
            (t.bytes->0 + n) as u64,
        ),
        t.bytes is None ==> t.accounted(Some(n)).bytes is None,
        t.accounted(Some(n)).unmeasured == t.unmeasured,
        t.accounted(None).bytes is None,
        t.accounted(None).measured_bytes == t.measured_bytes,
        t.unmeasured < u64::MAX ==> t.accounted(None).unmeasured == t.unmeasured + 1,
        t.accounted(Some(n)).removed == t.removed && t.accounted(None).removed == t.removed,
        t.accounted(Some(n)).would_remove == t.would_remove && t.accounted(None).would_remove
            == t.would_remove,
        t.accounted(Some(n)).failed == t.failed && t.accounted(None).failed == t.failed,
        t.accounted(Some(n)).dry_run == t.dry_run && t.accounted(None).dry_run == t.dry_run,
{
}

/// A report closes with an error exactly where something could not be removed, and it speaks of
/// what would be removed in a dry run, and of what was removed in a real one.
pub proof fn a_survivor_makes_the_report_close_with_an_error(
    n: Notice,
    totals: Totals,
    units: Units,
)
    requires
        is_closing_notice(n, totals, units),
    ensures
        n.level == Level::Error <==> totals.failed > 0,
        n.level == Level::Success <==> totals.failed == 0,
        totals.failed == 0 ==> n.message@ == (if totals.dry_run {
            REMOVAL_STATUS_WOULD_REMOVE@ + ": "@ + grouped(totals.would_remove as nat)
        } else {
            REMOVAL_STATUS_REMOVED@ + ": "@ + grouped(totals.removed as nat)
        }) + " object(s), "@ + size_or_unknown(totals.bytes, units),
{
}

/// A line ends with the path, or with the class where there is no path; and its size stands
/// right before that, behind two columns that are never narrower than what is in them.
pub proof fn a_line_ends_with_its_subject(record: Record, units: Units)
    ensures
        ({
            let size = match record.size {
                Some(n) => size_text(n as nat, units),
                None => REMOVAL_SIZE_ABSENT@,
            };
            let line = line_of(record, units);
            &&& record.path matches Some(p) ==> line.skip(line.len() - p@.len()) == p@
            &&& record.path is None && record.kind is Some ==> line.skip(
                line.len() - record.kind->0@.len(),
            ) == record.kind->0@
            &&& record.status@.is_prefix_of(line)
            &&& line.len() >= REMOVAL_STATUS_WIDTH + REMOVAL_SIZE_WIDTH
            &&& line.len() >= record.status@.len() + size.len()
        }),
{
    let size = match record.size {
        Some(n) => size_text(n as nat, units),
        None => REMOVAL_SIZE_ABSENT@,
    };
    let line = line_of(record, units);
    assert(record.status@ =~= line.subrange(0, record.status@.len() as int));
    if let Some(p) = record.path {
        assert(line.skip(line.len() - p@.len()) =~= p@);
    } else if let Some(k) = record.kind {
        assert(line.skip(line.len() - k@.len()) =~= k@);
    }
}

/// A record of an item carries the item as it is, with its status and the reason that was given;
/// one of a class carries no path and no size.
pub proof fn a_record_carries_its_item(
    r: Record,
    status: Seq<char>,
    item: ItemView,
    reason: Option<Seq<char>>,
    why: Seq<char>,
)
    ensures
        r.of_item(status, item, reason) ==> r.status@ == status && (r.path matches Some(p) && p@
            == item.path) && r.size == item.size && (r.kind matches Some(k) && k@ == item.kind) && (
        match r.reason {
            Some(t) => reason == Some(t@),
            None => reason is None,
        }),
        r.of_class(status, item.kind, why) ==> r.status@ == status && r.path is None && r.size
            is None && (r.kind matches Some(k) && k@ == item.kind) && (r.reason matches Some(t)
            && t@ == why),
{
}

/// A report that writes to the same place has the same format and the same units.
pub proof fn a_report_stays_where_it_is(after: Report, before: Report)
    ensures
        after.same_sink(before) <==> after.format == before.format && after.units == before.units,
{
}

/// A total is known exactly where everything in it was measured, and is then the sum of what
/// was measured.
pub proof fn a_known_total_is_the_measured_one(t: Totals)
    requires
        t.consistent(),
    ensures
        t.bytes is None <==> t.unmeasured > 0,
        t.unmeasured == 0 ==> t.bytes == Some(t.measured_bytes),
{
}

} // verus!
