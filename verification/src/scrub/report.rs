//! What a scrub found: the grade, what the grade covers, and the damaged objects.
use vstd::prelude::*;
use vstd::string::StringExecFns;

use crate::error::{CliError, ExitCode};
use crate::integrity;
use crate::integrity::{code_for, failure_text, Assurance, Verdict};
use crate::output;
use crate::output::{grouped, size_or_unknown, Format, Level, Notice, Units};
use crate::stats::{bump, bumped, capped_sum};
use crate::text;
use crate::text::{digits, hex_text};

verus! {

pub const HEALTH_HEALTHY: &'static str = "healthy";

pub const HEALTH_DEGRADED: &'static str = "degraded";

pub const HEALTH_DAMAGED: &'static str = "damaged";

pub const HEALTH_UNVERIFIED: &'static str = "unverified";

pub const SCRUB_NOTHING_VERIFIED: &'static str = "nothing was verified";

pub const SCRUB_NOTHING_VERIFIED_HINT: &'static str = "Check the target with `dctl ls`, and the sample and the filters of this run.";

/// One object that was read.
#[derive(Debug)]
pub struct Record {
    pub path: String,
    pub status: Verdict,
    /// Its size, where one was recorded.
    pub size: Option<u64>,
    /// Whether it was rebuilt.
    pub repaired: bool,
}

impl Record {
    pub fn new(path: &str, status: Verdict, size: Option<u64>) -> (r: Record)
        ensures
            r.path@ == path@,
            r.status == status,
            r.size == size,
            !r.repaired,
    {
        Record { path: path.to_owned(), status, size, repaired: false }
    }

    /// The same object, rebuilt.
    pub fn repaired(self) -> (r: Record)
        ensures
            r.path@ == self.path@,
            r.status == self.status,
            r.size == self.size,
            r.repaired,
    {
        Record { path: self.path, status: self.status, size: self.size, repaired: true }
    }
}

/// What the run covered.
#[derive(Clone, Copy, Debug, PartialEq, Eq, Structural)]
pub struct Coverage {
    /// Objects that were read.
    pub scanned: u64,
    /// Objects that the sample passed over.
    pub skipped: u64,
    /// Bytes read; absent where some object was never measured.
    pub bytes: Option<u64>,
    /// Bytes of the objects that were measured.
    pub measured_bytes: u64,
    /// Objects that were never measured.
    pub unmeasured: u64,
    pub healthy: u64,
    pub damaged: u64,
    pub repaired: u64,
}

impl Default for Coverage {
    fn default() -> (c: Coverage)
        ensures
            c == Coverage::none(),
    {
        Coverage {
            scanned: 0,
            skipped: 0,
            bytes: Some(0),
            measured_bytes: 0,
            unmeasured: 0,
            healthy: 0,
            damaged: 0,
            repaired: 0,
        }
    }
}

impl Coverage {
    /// A run that has read nothing has read a known zero bytes.
    pub open spec fn none() -> Coverage {
        Coverage {
            scanned: 0,
            skipped: 0,
            bytes: Some(0),
            measured_bytes: 0,
            unmeasured: 0,
            healthy: 0,
            damaged: 0,
            repaired: 0,
        }
    }

    /// The damage that was not repaired.
    pub open spec fn left(self) -> u64 {
        if self.damaged >= self.repaired {
            (self.damaged - self.repaired) as u64
        } else {
            0
        }
    }

    pub fn unrepaired(&self) -> (n: u64)
        ensures
            n == self.left(),
    {
        self.damaged.saturating_sub(self.repaired)
    }

    /// The coverage with one more object that was read.
    pub open spec fn with(self, status: Verdict, size: Option<u64>, repaired: bool) -> Coverage {
        let failed = status != Verdict::Intact;
        Coverage {
            scanned: bumped(self.scanned),
            skipped: self.skipped,
            bytes: match (self.bytes, size) {
                (Some(total), Some(n)) => Some(capped_sum(total, n)),
                _ => None,
            },
            measured_bytes: match size {
                Some(n) => capped_sum(self.measured_bytes, n),
                None => self.measured_bytes,
            },
            unmeasured: if size is None {
                bumped(self.unmeasured)
            } else {
                self.unmeasured
            },
            healthy: if failed {
                self.healthy
            } else {
                bumped(self.healthy)
            },
            damaged: if failed {
                bumped(self.damaged)
            } else {
                self.damaged
            },
            repaired: if failed && repaired {
                bumped(self.repaired)
            } else {
                self.repaired
            },
        }
    }

    /// Whether the counts agree with each other.
    pub open spec fn consistent(self) -> bool {
        &&& self.scanned == self.healthy + self.damaged
        &&& self.repaired <= self.damaged
        &&& self.bytes is None <==> self.unmeasured > 0
        &&& self.bytes is Some ==> self.bytes == Some(self.measured_bytes)
    }
}

/// The grade for what was covered. Where nothing was read there is nothing to grade.
pub open spec fn grade_text(c: Coverage) -> Seq<char> {
    if c.scanned == 0 {
        HEALTH_UNVERIFIED@
    } else if c.damaged == 0 {
        HEALTH_HEALTHY@
    } else if c.left() == 0 {
        HEALTH_DEGRADED@
    } else {
        HEALTH_DAMAGED@
    }
}

/// A number as sixteen hexadecimal digits.
pub fn hex_seed(n: u64) -> (s: String)
    ensures
        s@ == hex_text(n as nat, 16),
{
    text::hex(n, 16)
}

/// The result of one run.
#[derive(Debug)]
pub struct Report {
    pub target: String,
    /// `unverified`, `healthy`, `degraded` or `damaged`.
    pub health: &'static str,
    /// How hard the objects were checked.
    pub verify_mode: String,
    /// What a clean reading proves.
    pub assurance: &'static str,
    pub sample_percent: u8,
    /// The seed of the sample, in hexadecimal.
    pub seed: String,
    pub repair_enabled: bool,
    /// Whether the run ended because too much was damaged.
    pub stopped_early: bool,
    pub coverage: Coverage,
    /// The damaged objects.
    pub findings: Vec<Record>,
    /// The worst verdict.
    pub worst: Verdict,
}

/// One line of the table of findings.
#[derive(Debug)]
pub struct FindingRow {
    pub status: &'static str,
    pub size: String,
    pub path: String,
}

/// How a report is shown on standard output.
#[derive(Debug)]
pub enum Rendering {
    /// A table of the findings; nothing at all where there are none.
    Table(Vec<FindingRow>),
    /// The whole report, as one document.
    Document,
    /// This many findings, each as a document of its own.
    Lines(usize),
}

/// Whether rows show findings, one for one.
pub open spec fn rows_show(rows: Seq<FindingRow>, findings: Seq<Record>, units: Units) -> bool {
    rows.len() == findings.len() && forall|i: int|
        0 <= i < findings.len() ==> {
            &&& (#[trigger] rows[i]).status@ == findings[i].status.word()
            &&& rows[i].size@ == size_or_unknown(findings[i].size, units)
            &&& rows[i].path@ == findings[i].path@
        }
}

/// `object` or `objects`.
pub open spec fn objects_word(n: nat) -> Seq<char> {
    if n == 1 {
        "object"@
    } else {
        "objects"@
    }
}

/// `was` or `were`.
pub open spec fn were_word(n: nat) -> Seq<char> {
    if n == 1 {
        "was"@
    } else {
        "were"@
    }
}

fn objects(n: u64) -> (s: &'static str)
    ensures
        s@ == objects_word(n as nat),
{
    if n == 1 {
        "object"
    } else {
        "objects"
    }
}

fn were(n: u64) -> (s: &'static str)
    ensures
        s@ == were_word(n as nat),
{
    if n == 1 {
        "was"
    } else {
        "were"
    }
}

/// Whether `after` is the report with one more object that the sample passed over.
pub open spec fn passed_over(before: Report, after: Report) -> bool {
    &&& after.coverage == (Coverage { skipped: bumped(before.coverage.skipped), ..before.coverage })
    &&& after.same_run(before)
    &&& after.health@ == before.health@
    &&& after.stopped_early == before.stopped_early
    &&& after.findings@ == before.findings@
    &&& after.worst == before.worst
}

/// Whether `after` is the report with one more object that was read.
pub open spec fn recorded(before: Report, record: Record, after: Report) -> bool {
    &&& after.coverage == before.coverage.with(record.status, record.size, record.repaired)
    &&& after.health@ == grade_text(after.coverage)
    &&& after.same_run(before)
    &&& after.stopped_early == before.stopped_early
    &&& after.findings@ == (if record.status != Verdict::Intact {
        before.findings@.push(record)
    } else {
        before.findings@
    })
    &&& after.worst == (if record.status.rank() > before.worst.rank() {
        record.status
    } else {
        before.worst
    })
}

/// Whether `after` is the report of a run that ended because too much was damaged.
pub open spec fn cut_short(before: Report, after: Report) -> bool {
    &&& after.stopped_early
    &&& after.same_run(before)
    &&& after.coverage == before.coverage
    &&& after.health@ == before.health@
    &&& after.findings@ == before.findings@
    &&& after.worst == before.worst
}

impl Report {
    /// Whether only the coverage, the findings and what follows from them differ.
    pub open spec fn same_run(self, other: Report) -> bool {
        &&& self.target == other.target
        &&& self.verify_mode == other.verify_mode
        &&& self.assurance@ == other.assurance@
        &&& self.sample_percent == other.sample_percent
        &&& self.seed == other.seed
        &&& self.repair_enabled == other.repair_enabled
    }

    /// Whether nothing has been recorded yet.
    pub open spec fn fresh(self) -> bool {
        &&& self.health@ == HEALTH_UNVERIFIED@
        &&& !self.stopped_early
        &&& self.coverage == Coverage::none()
        &&& self.findings@.len() == 0
        &&& self.worst == Verdict::Intact
    }

    /// Whether the parts of the report agree: the counts with each other, the findings and the
    /// worst verdict with the damage, and the grade with what was covered.
    pub open spec fn sound(self) -> bool {
        &&& self.coverage.consistent()
        &&& self.findings@.len() == self.coverage.damaged
        &&& self.coverage.damaged > 0 <==> self.worst != Verdict::Intact
        &&& self.health@ == grade_text(self.coverage)
    }

    /// Whether something was read and nothing is left damaged.
    pub open spec fn succeeds(self) -> bool {
        self.coverage.scanned > 0 && self.coverage.left() == 0
    }

    /// Whether the run ends with an error.
    pub open spec fn fails(self) -> bool {
        self.coverage.scanned == 0 || (self.coverage.left() > 0 && self.worst != Verdict::Intact)
    }

    /// Why nothing was read.
    pub open spec fn cause(self) -> Seq<char> {
        if self.coverage.skipped > 0 {
            "the "@ + digits(self.sample_percent as nat) + "% sample selected none of the "@
                + grouped(self.coverage.skipped as nat) + " "@ + objects_word(
                self.coverage.skipped as nat,
            ) + " under '"@ + self.target@ + "'"@
        } else {
            "no object was listed under '"@ + self.target@ + "'"@
        }
    }

    /// The line that says what the run covered.
    pub open spec fn summary_text(self, units: Units) -> Seq<char> {
        let c = self.coverage;
        if c.scanned == 0 {
            self.health@ + ": "@ + SCRUB_NOTHING_VERIFIED@ + " — "@ + self.cause()
        } else {
            self.health@ + ": "@ + grouped(c.scanned as nat) + " "@ + objects_word(c.scanned as nat)
                + " read and checked, "@ + size_or_unknown(c.bytes, units) + " ("@ + self.assurance@
                + ") under '"@ + self.target@ + "'"@ + (if c.unmeasured > 0 {
                "; "@ + grouped(c.unmeasured as nat)
                    + " of them carried no recorded size, so the byte figure is a lower bound"@
            } else {
                Seq::empty()
            }) + (if c.skipped > 0 {
                "; "@ + grouped(c.skipped as nat) + " "@ + were_word(c.skipped as nat)
                    + " skipped by the "@ + digits(self.sample_percent as nat)
                    + "% sample and not covered by this grade"@
            } else {
                Seq::empty()
            }) + (if c.damaged > 0 {
                "; "@ + grouped(c.damaged as nat) + " damaged, "@ + grouped(c.repaired as nat)
                    + " of those repaired"@
            } else {
                Seq::empty()
            })
        }
    }

    /// An empty report.
    pub fn new(
        target: &str,
        verify_mode: &str,
        assurance: Assurance,
        sample_percent: u8,
        seed: u64,
        repair_enabled: bool,
    ) -> (r: Report)
        ensures
            r.target@ == target@,
            r.verify_mode@ == verify_mode@,
            r.assurance@ == assurance.word(),
            r.sample_percent == sample_percent,
            r.seed@ == hex_text(seed as nat, 16),
            r.repair_enabled == repair_enabled,
            r.fresh(),
    {
        Report {
            target: target.to_owned(),
            health: HEALTH_UNVERIFIED,
            verify_mode: verify_mode.to_owned(),
            assurance: assurance.slug(),
            sample_percent,
            seed: hex_seed(seed),
            repair_enabled,
            stopped_early: false,
            coverage: Coverage::default(),
            findings: Vec::new(),
            worst: Verdict::Intact,
        }
    }

    /// Counts an object that the sample passed over.
    pub fn skip(&mut self)
        ensures
            passed_over(*old(self), *final(self)),
    {
        self.coverage.skipped = bump(self.coverage.skipped);
    }

    /// Records an object that was read. What is intact is counted, what is damaged is listed.
    pub fn push(&mut self, record: Record)
        ensures
            recorded(*old(self), record, *final(self)),
    {
        self.coverage.scanned = bump(self.coverage.scanned);
        match record.size {
            Some(n) => {
                self.coverage.measured_bytes = self.coverage.measured_bytes.saturating_add(n);
                self.coverage.bytes = match self.coverage.bytes {
                    Some(total) => Some(total.saturating_add(n)),
                    None => None,
                };
            },
            None => {
                self.coverage.unmeasured = bump(self.coverage.unmeasured);
                self.coverage.bytes = None;
            },
        }
        if record.status.is_failure() {
            self.coverage.damaged = bump(self.coverage.damaged);
            if record.repaired {
                self.coverage.repaired = bump(self.coverage.repaired);
            }
            self.worst = self.worst.worse(record.status);
            self.findings.push(record);
        } else {
            self.coverage.healthy = bump(self.coverage.healthy);
        }
        self.health = self.grade();
    }

    /// Notes that the run ended because too much was damaged.
    pub fn stopped_early(&mut self)
        ensures
            cut_short(*old(self), *final(self)),
    {
        self.stopped_early = true;
    }

    fn grade(&self) -> (s: &'static str)
        ensures
            s@ == grade_text(self.coverage),
    {
        if self.coverage.scanned == 0 {
            HEALTH_UNVERIFIED
        } else if self.coverage.damaged == 0 {
            HEALTH_HEALTHY
        } else if self.coverage.unrepaired() == 0 {
            HEALTH_DEGRADED
        } else {
            HEALTH_DAMAGED
        }
    }

    /// The worst verdict.
    pub fn worst(&self) -> (v: Verdict)
        ensures
            v == self.worst,
    {
        self.worst
    }

    /// The error that the run ends with. Damage that is not repaired is one, and so is having
    /// read nothing at all. A report whose parts agree ends in none exactly where something was
    /// read and nothing is left damaged.
    pub fn outcome(&self) -> (r: Option<CliError>)
        ensures
            match r {
                Some(e) => if self.coverage.left() > 0 && self.worst != Verdict::Intact {
                    e.is(
                        code_for(self.worst),
                        failure_text(
                            self.worst,
                            self.coverage.left() as nat,
                            self.coverage.scanned as nat,
                        ),
                        Some("Run `dctl verify` on the objects that are named."@),
                    )
                } else {
                    self.coverage.scanned == 0 && e.is(
                        ExitCode::NoFilesTransferred,
                        SCRUB_NOTHING_VERIFIED@ + ": "@ + self.cause(),
                        Some(SCRUB_NOTHING_VERIFIED_HINT@),
                    )
                },
                None => self.coverage.scanned > 0 && (self.coverage.left() == 0 || self.worst
                    == Verdict::Intact),
            },
            r is Some <==> self.fails(),
            self.sound() ==> (r is None <==> self.succeeds()),
    {
        let unrepaired = self.coverage.unrepaired();
        if let Some(e) = integrity::failure(self.worst, unrepaired, self.coverage.scanned) {
            return Some(e);
        }
        if self.coverage.scanned == 0 {
            let cause = self.nothing_verified_cause();
            return Some(
                CliError::new(
                    ExitCode::NoFilesTransferred,
                    text::cat3(SCRUB_NOTHING_VERIFIED, ": ", cause.as_str()),
                ).with_hint(SCRUB_NOTHING_VERIFIED_HINT.to_owned()),
            );
        }
        None
    }

    fn nothing_verified_cause(&self) -> (s: String)
        ensures
            s@ == self.cause(),
    {
        if self.coverage.skipped > 0 {
            let percent = text::decimal(self.sample_percent as u64);
            let skipped = output::count(self.coverage.skipped);
            let mut s = text::cat5(
                "the ",
                percent.as_str(),
                "% sample selected none of the ",
                skipped.as_str(),
                " ",
            );
            s.append(objects(self.coverage.skipped));
            s.append(" under '");
            s.append(self.target.as_str());
            s.append("'");
            return s;
        }
        text::cat3("no object was listed under '", self.target.as_str(), "'")
    }

    /// The line that says what the run covered, whatever it found.
    pub fn summary(&self, units: Units) -> (s: String)
        ensures
            s@ == self.summary_text(units),
    {
        if self.coverage.scanned == 0 {
            let cause = self.nothing_verified_cause();
            return text::cat5(
                self.health,
                ": ",
                SCRUB_NOTHING_VERIFIED,
                " — ",
                cause.as_str(),
            );
        }
        let scanned = output::count(self.coverage.scanned);
        let read = output::bytes_or_unknown(self.coverage.bytes, units);
        let mut line = text::cat5(
            self.health,
            ": ",
            scanned.as_str(),
            " ",
            objects(self.coverage.scanned),
        );
        line.append(" read and checked, ");
        line.append(read.as_str());
        line.append(" (");
        line.append(self.assurance);
        line.append(") under '");
        line.append(self.target.as_str());
        line.append("'");
        let unmeasured = self.unmeasured_clause();
        let skipped = self.skipped_clause();
        let damaged = self.damaged_clause();
        line.append(unmeasured.as_str());
        line.append(skipped.as_str());
        line.append(damaged.as_str());
        line
    }

    fn unmeasured_clause(&self) -> (s: String)
        ensures
            s@ == (if self.coverage.unmeasured > 0 {
                "; "@ + grouped(self.coverage.unmeasured as nat)
                    + " of them carried no recorded size, so the byte figure is a lower bound"@
            } else {
                Seq::empty()
            }),
    {
        if self.coverage.unmeasured == 0 {
            return String::new();
        }
        let n = output::count(self.coverage.unmeasured);
        text::cat3(
            "; ",
            n.as_str(),
            " of them carried no recorded size, so the byte figure is a lower bound",
        )
    }

    fn skipped_clause(&self) -> (s: String)
        ensures
            s@ == (if self.coverage.skipped > 0 {
                "; "@ + grouped(self.coverage.skipped as nat) + " "@ + were_word(
                    self.coverage.skipped as nat,
                ) + " skipped by the "@ + digits(self.sample_percent as nat)
                    + "% sample and not covered by this grade"@
            } else {
                Seq::empty()
            }),
    {
        if self.coverage.skipped == 0 {
            return String::new();
        }
        let n = output::count(self.coverage.skipped);
        let percent = text::decimal(self.sample_percent as u64);
        let mut s = text::cat4("; ", n.as_str(), " ", were(self.coverage.skipped));
        s.append(" skipped by the ");
        s.append(percent.as_str());
        s.append("% sample and not covered by this grade");
        s
    }

    fn damaged_clause(&self) -> (s: String)
        ensures
            s@ == (if self.coverage.damaged > 0 {
                "; "@ + grouped(self.coverage.damaged as nat) + " damaged, "@ + grouped(
                    self.coverage.repaired as nat,
                ) + " of those repaired"@
            } else {
                Seq::empty()
            }),
    {
        if self.coverage.damaged == 0 {
            return String::new();
        }
        let damaged = output::count(self.coverage.damaged);
        let repaired = output::count(self.coverage.repaired);
        text::cat5("; ", damaged.as_str(), " damaged, ", repaired.as_str(), " of those repaired")
    }

    /// What to say on the error stream. A run that read nothing leaves that to its error.
    pub fn announce(&self, units: Units) -> (n: Option<Notice>)
        ensures
            match n {
                Some(notice) => self.coverage.scanned > 0 && notice.is(
                    Level::Success,
                    self.summary_text(units),
                ),
                None => self.coverage.scanned == 0,
            },
    {
        if self.coverage.scanned > 0 {
            Some(Notice::new(Level::Success, self.summary(units)))
        } else {
            None
        }
    }

    /// Whether `r` is what goes to standard output.
    pub open spec fn rendered(self, format: Format, units: Units, r: Rendering) -> bool {
        match r {
            Rendering::Table(rows) => format == Format::Text && rows_show(
                rows@,
                self.findings@,
                units,
            ),
            Rendering::Document => format == Format::Json,
            Rendering::Lines(n) => format == Format::JsonLines && n == self.findings@.len(),
        }
    }

    /// What goes to standard output: only what is damaged is listed.
    pub fn render(&self, format: Format, units: Units) -> (r: Rendering)
        ensures
            self.rendered(format, units, r),
    {
        match format {
            Format::Text => Rendering::Table(self.render_text(units)),
            Format::Json => Rendering::Document,
            Format::JsonLines => Rendering::Lines(self.findings.len()),
        }
    }

    fn render_text(&self, units: Units) -> (rows: Vec<FindingRow>)
        ensures
            rows_show(rows@, self.findings@, units),
    {
        let mut rows: Vec<FindingRow> = Vec::new();
        let mut i: usize = 0;
        while i < self.findings.len()
            invariant
                i <= self.findings@.len(),
                rows_show(rows@, self.findings@.take(i as int), units),
            decreases self.findings@.len() - i,
        {
            let f = &self.findings[i];
            rows.push(
                FindingRow {
                    status: f.status.slug(),
                    size: output::bytes_or_unknown(f.size, units),
                    path: f.path.clone(),
                },
            );
            i = i + 1;
        }
        proof {
            assert(self.findings@.take(i as int) =~= self.findings@);
        }
        rows
    }
}

/// Recording an object keeps the counts in agreement: every object that was read is either
/// healthy or damaged, and a byte total is published only where everything was measured.
pub proof fn recording_keeps_the_counts_consistent(
    c: Coverage,
    status: Verdict,
    size: Option<u64>,
    repaired: bool,
)
    requires
        c.consistent(),
        c.scanned < u64::MAX,
    ensures
        c.with(status, size, repaired).consistent(),
        Coverage::none().consistent(),
{
}

/// A run is graded healthy only where something was read and all of it was intact, and a run
/// that read nothing is never graded at all.
pub proof fn healthy_means_read_and_intact(c: Coverage)
    ensures
        grade_text(c) == HEALTH_HEALTHY@ ==> c.scanned > 0 && c.damaged == 0,
        c.scanned == 0 ==> grade_text(c) == HEALTH_UNVERIFIED@,
{
    reveal_strlit("healthy");
    reveal_strlit("degraded");
    reveal_strlit("damaged");
    reveal_strlit("unverified");
    assert("healthy"@[0] == 'h');
    assert("degraded"@[0] == 'd');
    assert("damaged"@[0] == 'd');
    assert("unverified"@[0] == 'u');
}

/// What a run does to its report.
pub enum Change {
    /// An object was read.
    Read(Record),
    /// An object was passed over.
    Skipped,
    /// The run ended because too much was damaged.
    Stopped,
}

/// Whether a change leads from one report to the next.
pub open spec fn changes(before: Report, change: Change, after: Report) -> bool {
    match change {
        Change::Read(record) => recorded(before, record, after),
        Change::Skipped => passed_over(before, after),
        Change::Stopped => cut_short(before, after),
    }
}

/// Whether these are the reports of a run that starts from nothing, between its changes.
pub open spec fn grown(reports: Seq<Report>, run: Seq<Change>) -> bool {
    &&& reports.len() == run.len() + 1
    &&& reports[0].fresh()
    &&& forall|i: int|
        0 <= i < run.len() ==> changes(#[trigger] reports[i], run[i], reports[i + 1])
}

/// The objects that a run read and found damaged, in the order in which it read them.
pub open spec fn damage(run: Seq<Change>) -> Seq<Record>
    decreases run.len(),
{
    if run.len() == 0 {
        Seq::empty()
    } else {
        let before = damage(run.drop_last());
        match run.last() {
            Change::Read(record) => if record.status != Verdict::Intact {
                before.push(record)
            } else {
                before
            },
            _ => before,
        }
    }
}

/// One change keeps the parts of a report in agreement.
proof fn lemma_stays_sound(before: Report, change: Change, after: Report)
    requires
        before.sound(),
        before.coverage.scanned < u64::MAX,
        changes(before, change, after),
    ensures
        after.sound(),
        after.coverage.scanned <= before.coverage.scanned + 1,
{
}

/// Whatever a run reads, passes over and repairs, its report agrees with itself: each damaged
/// object is listed once, in the order in which it was read, the worst verdict is a failure
/// exactly where something was damaged, and the run ends in success exactly where something
/// was read and nothing is left damaged.
pub proof fn success_means_read_and_nothing_left_damaged(reports: Seq<Report>, run: Seq<Change>)
    requires
        grown(reports, run),
        run.len() <= u64::MAX,
    ensures
        reports.last().sound(),
        reports.last().coverage.scanned <= run.len(),
        reports.last().findings@ == damage(run),
        reports.last().coverage.damaged == damage(run).len(),
        reports.last().coverage.damaged > 0 <==> reports.last().worst != Verdict::Intact,
        reports.last().fails() <==> !reports.last().succeeds(),
    decreases run.len(),
{
    if run.len() > 0 {
        let n = run.len() - 1;
        let fewer = reports.drop_last();
        let part = run.drop_last();
        assert forall|i: int| 0 <= i < part.len() implies changes(
            #[trigger] fewer[i],
            part[i],
            fewer[i + 1],
        ) by {
            assert(changes(reports[i], run[i], reports[i + 1]));
        }
        success_means_read_and_nothing_left_damaged(fewer, part);
        assert(changes(reports[n], run[n], reports[n + 1]));
        lemma_stays_sound(reports[n], run[n], reports[n + 1]);
    } else {
        assert(reports.last().findings@ =~= damage(run));
    }
}

/// Only what is damaged is shown, in the order in which it was read: a table has a row, and a
/// listing a line, for each damaged object, so both are empty exactly where there is none. The
/// document is there in any case.
pub proof fn only_damage_is_shown(
    reports: Seq<Report>,
    run: Seq<Change>,
    format: Format,
    units: Units,
    r: Rendering,
)
    requires
        grown(reports, run),
        run.len() <= u64::MAX,
        reports.last().rendered(format, units, r),
    ensures
        format == Format::Text ==> (r matches Rendering::Table(rows) && rows_show(
            rows@,
            damage(run),
            units,
        ) && (rows@.len() == 0 <==> damage(run).len() == 0)),
        format == Format::JsonLines ==> (r matches Rendering::Lines(n) && n == damage(run).len()),
        format == Format::Json ==> r is Document,
{
    success_means_read_and_nothing_left_damaged(reports, run);
}

/// The grade says what was found: nothing was verified where nothing was read, healthy where
/// nothing was damaged, degraded where all damage was repaired, and damaged otherwise. No two
/// grades share a word.
pub proof fn a_grade_says_what_was_found(c: Coverage)
    requires
        c.repaired <= c.damaged,
    ensures
        grade_text(c) == HEALTH_UNVERIFIED@ <==> c.scanned == 0,
        grade_text(c) == HEALTH_HEALTHY@ <==> c.scanned > 0 && c.damaged == 0,
        grade_text(c) == HEALTH_DEGRADED@ <==> c.scanned > 0 && c.damaged > 0 && c.repaired
            == c.damaged,
        grade_text(c) == HEALTH_DAMAGED@ <==> c.scanned > 0 && c.repaired < c.damaged,
{
    reveal_strlit("healthy");
    reveal_strlit("degraded");
    reveal_strlit("damaged");
    reveal_strlit("unverified");
    assert(HEALTH_UNVERIFIED@.len() == 10);
    assert(HEALTH_DEGRADED@.len() == 8);
    assert(HEALTH_HEALTHY@.len() == 7 && HEALTH_HEALTHY@[0] == 'h');
    assert(HEALTH_DAMAGED@.len() == 7 && HEALTH_DAMAGED@[0] == 'd');
}

/// What is left damaged is what was damaged and not repaired.
pub proof fn repairs_are_taken_off_the_damage(c: Coverage)
    requires
        c.repaired <= c.damaged,
    ensures
        c.left() + c.repaired == c.damaged,
{
}

/// A part of the reports of a run, without its last change.
proof fn lemma_grown_part(reports: Seq<Report>, run: Seq<Change>)
    requires
        grown(reports, run),
        run.len() > 0,
    ensures
        grown(reports.drop_last(), run.drop_last()),
        changes(reports.drop_last().last(), run.last(), reports.last()),
{
    let fewer = reports.drop_last();
    let part = run.drop_last();
    assert forall|i: int| 0 <= i < part.len() implies changes(
        #[trigger] fewer[i],
        part[i],
        fewer[i + 1],
    ) by {
        assert(changes(reports[i], run[i], reports[i + 1]));
    }
    let n = run.len() - 1;
    assert(changes(reports[n], run[n], reports[n + 1]));
}

/// How many changes of a run are readings.
pub open spec fn readings(run: Seq<Change>) -> nat {
    run.filter(|c: Change| c is Read).len()
}

/// How many objects a run passed over.
pub open spec fn omissions(run: Seq<Change>) -> nat {
    run.filter(|c: Change| c is Skipped).len()
}

proof fn lemma_counts_step(run: Seq<Change>)
    requires
        run.len() > 0,
    ensures
        readings(run) == readings(run.drop_last()) + (if run.last() is Read {
            1nat
        } else {
            0
        }),
        omissions(run) == omissions(run.drop_last()) + (if run.last() is Skipped {
            1nat
        } else {
            0
        }),
{
    reveal(Seq::filter);
}

/// The figures of a run are its own: what was read is counted as read, and what was passed over
/// as skipped.
pub proof fn a_run_is_counted_as_it_went(reports: Seq<Report>, run: Seq<Change>)
    requires
        grown(reports, run),
        run.len() <= u64::MAX,
    ensures
        reports.last().coverage.scanned == readings(run),
        reports.last().coverage.skipped == omissions(run),
        readings(run) + omissions(run) <= run.len(),
    decreases run.len(),
{
    if run.len() > 0 {
        lemma_grown_part(reports, run);
        lemma_counts_step(run);
        a_run_is_counted_as_it_went(reports.drop_last(), run.drop_last());
    } else {
        reveal(Seq::filter);
    }
}

/// The worst verdict of a run is the worst of those that were found, and intact where there were
/// none.
pub proof fn the_worst_verdict_was_found(reports: Seq<Report>, run: Seq<Change>)
    requires
        grown(reports, run),
    ensures
        forall|i: int|
            0 <= i < damage(run).len() ==> (#[trigger] damage(run)[i]).status.rank()
                <= reports.last().worst.rank(),
        reports.last().worst == Verdict::Intact || exists|i: int|
            0 <= i < damage(run).len() && (#[trigger] damage(run)[i]).status
                == reports.last().worst,
    decreases run.len(),
{
    if run.len() > 0 {
        lemma_grown_part(reports, run);
        let fewer = reports.drop_last();
        let part = run.drop_last();
        the_worst_verdict_was_found(fewer, part);
        let before = damage(part);
        let after = damage(run);
        assert forall|i: int| 0 <= i < after.len() implies (#[trigger] after[i]).status.rank()
            <= reports.last().worst.rank() by {
            if i < before.len() {
                assert(before[i] == after[i]);
            }
        }
        if reports.last().worst != Verdict::Intact {
            if reports.last().worst == fewer.last().worst {
                let i = choose|i: int|
                    0 <= i < before.len() && (#[trigger] before[i]).status == fewer.last().worst;
                assert(after[i] == before[i]);
            } else {
                assert(after[before.len() as int].status == reports.last().worst);
            }
        }
    }
}

/// A repair is counted only where there was damage, and a run is said to have stopped early only
/// where it did.
pub proof fn only_damage_is_repaired(before: Report, record: Record, after: Report)
    requires
        recorded(before, record, after),
        before.coverage.repaired < u64::MAX,
    ensures
        after.coverage.repaired == before.coverage.repaired + (if record.repaired && record.status
            != Verdict::Intact {
            1int
        } else {
            0
        }),
        after.stopped_early == before.stopped_early,
{
}

/// A run that read nothing says whether the sample took nothing or nothing was there.
pub proof fn an_empty_run_says_what_was_missing(report: Report)
    ensures
        report.coverage.skipped == 0 ==> report.cause() == "no object was listed under '"@
            + report.target@ + "'"@,
        report.coverage.skipped > 0 ==> report.cause() == "the "@ + digits(
            report.sample_percent as nat,
        ) + "% sample selected none of the "@ + grouped(report.coverage.skipped as nat) + (if report.coverage.skipped
            == 1 {
            " "@ + "object"@
        } else {
            " "@ + "objects"@
        }) + " under '"@ + report.target@ + "'"@,
{
    let s = report.coverage.skipped as nat;
    assert("the "@ + digits(report.sample_percent as nat) + "% sample selected none of the "@
        + grouped(s) + " "@ + objects_word(s) + " under '"@ + report.target@ + "'"@ =~= "the "@
        + digits(report.sample_percent as nat) + "% sample selected none of the "@ + grouped(s) + (
    " "@ + objects_word(s)) + " under '"@ + report.target@ + "'"@);
}

/// One object takes the singular, and any other number the plural.
pub proof fn one_takes_the_singular(n: nat)
    ensures
        n == 1 ==> were_word(n) == "was"@ && objects_word(n) == "object"@,
        n != 1 ==> were_word(n) == "were"@ && objects_word(n) == "objects"@,
{
}

/// A summary begins with the grade. Where nothing was read it says so and why; otherwise it says
/// how much was read, and names what was not measured, what was left out and what was damaged
/// exactly where there is such a thing.
pub proof fn a_summary_begins_with_the_grade(r: Report, units: Units)
    ensures
        (r.health@ + ": "@).is_prefix_of(r.summary_text(units)),
        r.coverage.scanned == 0 ==> r.summary_text(units) == r.health@ + ": "@
            + SCRUB_NOTHING_VERIFIED@ + " — "@ + r.cause(),
        ({
            let c = r.coverage;
            let read = r.health@ + ": "@ + grouped(c.scanned as nat) + " "@ + objects_word(
                c.scanned as nat,
            ) + " read and checked, "@ + size_or_unknown(c.bytes, units) + " ("@ + r.assurance@
                + ") under '"@ + r.target@ + "'"@;
            let unmeasured = "; "@ + grouped(c.unmeasured as nat)
                + " of them carried no recorded size, so the byte figure is a lower bound"@;
            let left_out = "; "@ + grouped(c.skipped as nat) + " "@ + were_word(c.skipped as nat)
                + " skipped by the "@ + digits(r.sample_percent as nat)
                + "% sample and not covered by this grade"@;
            let damage = "; "@ + grouped(c.damaged as nat) + " damaged, "@ + grouped(
                c.repaired as nat,
            ) + " of those repaired"@;
            let nothing = Seq::<char>::empty();
            &&& c.scanned > 0 ==> r.summary_text(units) == read + (if c.unmeasured > 0 {
                unmeasured
            } else {
                nothing
            }) + (if c.skipped > 0 {
                left_out
            } else {
                nothing
            }) + (if c.damaged > 0 {
                damage
            } else {
                nothing
            })
        }),
{
    let head = r.health@ + ": "@;
    let s = r.summary_text(units);
    assert(s.take(head.len() as int) =~= head);
    assert forall|i: int| 0 <= i < head.len() implies head[i] == s[i] by {
        assert(s.take(head.len() as int)[i] == s[i]);
    }
}

/// An object that the sample leaves out is counted and changes nothing else: no grade, no
/// finding and no verdict.
pub proof fn an_omission_changes_only_its_count(before: Report, after: Report)
    requires
        passed_over(before, after),
    ensures
        before.coverage.skipped < u64::MAX ==> after.coverage.skipped == before.coverage.skipped + 1,
        after.coverage.scanned == before.coverage.scanned,
        after.coverage.damaged == before.coverage.damaged,
        after.coverage.repaired == before.coverage.repaired,
        after.coverage.bytes == before.coverage.bytes,
        after.coverage.unmeasured == before.coverage.unmeasured,
        after.health@ == before.health@,
        after.stopped_early == before.stopped_early,
        after.findings@ == before.findings@,
        after.worst == before.worst,
        after.same_run(before),
{
}

/// A run that stops early is marked so, and what it found until then stays.
pub proof fn stopping_changes_only_the_mark(before: Report, after: Report)
    requires
        cut_short(before, after),
    ensures
        after.stopped_early,
        after.coverage == before.coverage,
        after.health@ == before.health@,
        after.findings@ == before.findings@,
        after.worst == before.worst,
        after.same_run(before),
{
}

/// One run keeps its target, its mode, its assurance, its sample, its seed and whether it repairs.
pub proof fn a_run_keeps_what_it_was_asked(a: Report, b: Report)
    ensures
        a.same_run(b) <==> a.target == b.target && a.verify_mode == b.verify_mode && a.assurance@
            == b.assurance@ && a.sample_percent == b.sample_percent && a.seed == b.seed
            && a.repair_enabled == b.repair_enabled,
        a.fresh() ==> a.coverage.scanned == 0 && a.coverage.skipped == 0 && a.coverage.damaged == 0
            && a.findings@.len() == 0 && !a.stopped_early && a.worst == Verdict::Intact && a.health@
            == HEALTH_UNVERIFIED@,
{
}

/// Each row shows its own finding: its verdict, its size where that is known, and its path.
pub proof fn a_row_shows_its_finding(
    rows: Seq<FindingRow>,
    findings: Seq<Record>,
    units: Units,
    i: int,
)
    requires
        rows_show(rows, findings, units),
    ensures
        rows.len() == findings.len(),
        0 <= i < findings.len() ==> {
            &&& rows[i].status@ == findings[i].status.word()
            &&& rows[i].size@ == size_or_unknown(findings[i].size, units)
            &&& rows[i].path@ == findings[i].path@
        },
{
    if 0 <= i < findings.len() {
        assert(rows[i].status@ == findings[i].status.word());
    }
}

/// Every object that was read was healthy or damaged, no more were repaired than were damaged,
/// and a total is known exactly where everything in it was measured.
pub proof fn what_was_read_adds_up(c: Coverage)
    requires
        c.consistent(),
    ensures
        c.scanned == c.healthy + c.damaged,
        c.repaired <= c.damaged,
        c.bytes is None <==> c.unmeasured > 0,
        c.unmeasured == 0 ==> c.bytes == Some(c.measured_bytes),
{
}

} // verus!
