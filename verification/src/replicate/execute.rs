//! Moving the sealed bytes, and proving that they arrived.
//!
//! One object goes through at most four stages: it is read from the source, compared with the
//! copy that is already there, written, and read back. The caller does what a stage asks for
//! and hands the answer to `step`, which says what comes next. What goes wrong with an object
//! is that object's end and no other's.
use vstd::prelude::*;

use crate::audit::AuditEntry;
use crate::constants::{PLAN_REASON_CHECKSUM, PLAN_REASON_IDENTICAL};
use crate::digest;
use crate::digest::blake3_digest;
use crate::error::{CliError, ExitCode, Result};
use crate::integrity::VerifyMode;
use crate::output;
use crate::output::{size_text, Level, Notice, Units};
use crate::replicate::plan::{
    egress, every_object_is_counted_once, lemma_egress_grows, written, Action, Item, Plan, Summary,
};
use crate::stats::Stats;
use crate::text;
use crate::text::{digits, hex_of};

verus! {

pub const VERB: &'static str = "replicate";

pub const REPLICATE_REASON_MISMATCH: &'static str = "checksum-mismatch";

pub const REPLICATE_REASON_TOO_LARGE: &'static str = "too-large";

pub const REPLICATE_REASON_UNREADABLE: &'static str = "source-unreadable";

pub const REPLICATE_REASON_UNWRITABLE: &'static str = "destination-unwritable";

/// How much of an object is read back as a sample.
pub const REPLICATE_SAMPLE_WINDOW_BYTES: u64 = 65536;

/// The largest object that is moved in one piece.
pub const REPLICATE_WHOLE_OBJECT_LIMIT: u64 = 5368709120;

pub const REPLICATE_VERIFY_CHECKSUM: &'static str = "each object is stored against the BLAKE3 of its sealed bytes";

pub const REPLICATE_VERIFY_SAMPLE: &'static str = "each object is stored against the BLAKE3 of its sealed bytes, and its beginning is read back";

pub const REPLICATE_VERIFY_STRICT: &'static str = "every object is read back in full and its BLAKE3 compared";

/// What a strength of verification checks, in words. No key is held here, so none of them
/// speaks of plaintext.
pub open spec fn description(verify: VerifyMode) -> Seq<char> {
    match verify {
        VerifyMode::Checksum => REPLICATE_VERIFY_CHECKSUM@,
        VerifyMode::Sample => REPLICATE_VERIFY_SAMPLE@,
        VerifyMode::Strict => REPLICATE_VERIFY_STRICT@,
    }
}

pub fn describe(verify: VerifyMode) -> (s: &'static str)
    ensures
        s@ == description(verify),
{
    match verify {
        VerifyMode::Checksum => REPLICATE_VERIFY_CHECKSUM,
        VerifyMode::Sample => REPLICATE_VERIFY_SAMPLE,
        VerifyMode::Strict => REPLICATE_VERIFY_STRICT,
    }
}

/// What one object came to, with the digest that identifies its sealed bytes.
#[derive(Debug)]
pub struct Replicated {
    pub item: Item,
    /// The BLAKE3 digest in hexadecimal; empty where the object was never read.
    pub hash: String,
    /// What to say of it.
    pub notice: Option<Notice>,
}

impl Replicated {
    /// Whether this is an object that ended well.
    pub open spec fn is(self, item: Item, action: Action, reason: Seq<char>, hash: Seq<char>) -> bool {
        &&& self.item.is(action, item.key@, item.size, reason)
        &&& self.hash@ == hash
        &&& self.notice is None
    }

    /// Whether this is an object that failed.
    pub open spec fn failed_with(
        self,
        item: Item,
        reason: Seq<char>,
        message: Seq<char>,
        hash: Seq<char>,
    ) -> bool {
        &&& self.item.is(Action::Failed, item.key@, item.size, reason)
        &&& self.hash@ == hash
        &&& self.notice is Some
        &&& self.notice->0.is(Level::Error, message)
    }
}

/// The counters after a failure. Bytes that arrived wrong are worse than bytes that did not
/// arrive.
pub open spec fn stats_failed(stats: Stats, reason: Seq<char>) -> Stats {
    if reason == REPLICATE_REASON_MISMATCH@ {
        stats.with_mismatch()
    } else {
        stats.with_error()
    }
}

/// Records the failure of one object: for the person, in the counters, and in the report.
fn failed(item: &Item, reason: &'static str, message: String, hash: String, stats: &mut Stats) -> (r:
    Replicated)
    ensures
        r.failed_with(*item, reason@, message@, hash@),
        *final(stats) == stats_failed(*old(stats), reason@),
{
    if text::same(reason, REPLICATE_REASON_MISMATCH) {
        stats.checksum_mismatch();
    } else {
        stats.error();
    }
    Replicated {
        item: item.ending(Action::Failed, reason),
        hash,
        notice: Some(Notice::new(Level::Error, message)),
    }
}

/// What has to be done for an object next.
#[derive(Clone, Copy, Debug, PartialEq, Eq, Structural)]
pub enum Stage {
    /// Read it from the source.
    Read,
    /// Read the copy at the destination.
    Compare,
    /// Store it at the destination against its digest.
    Write,
    /// Read it back from the destination, as far as `Job::window` says.
    Check,
}

/// An object on its way.
#[derive(Debug)]
pub struct Job {
    pub item: Item,
    pub verify: VerifyMode,
    pub stage: Stage,
    /// The sealed bytes, once they have been read.
    pub bytes: Vec<u8>,
    /// Their digest.
    pub expected: [u8; 32],
}

/// What comes next.
#[derive(Debug)]
pub enum Next {
    /// Do what the stage asks for.
    Go(Job),
    /// The object has come to its end.
    End(Replicated),
}

/// The two stores, as the user wrote them.
#[derive(Debug)]
pub struct Ends {
    pub source: String,
    pub destination: String,
}

impl Job {
    /// Whether this is the same work at another stage.
    pub open spec fn moved_on(self, before: Job, stage: Stage) -> bool {
        &&& self.item == before.item
        &&& self.verify == before.verify
        &&& self.stage == stage
        &&& self.bytes@ == before.bytes@
        &&& self.expected@ == before.expected@
    }

    /// Whether this is the work after the source's bytes came, with their digest.
    pub open spec fn carries(self, before: Job, bytes: Seq<u8>, digest: Seq<u8>) -> bool {
        &&& self.item == before.item
        &&& self.verify == before.verify
        &&& self.stage == (if before.item.action == Action::Reverify {
            Stage::Compare
        } else {
            Stage::Write
        })
        &&& self.bytes@ == bytes
        &&& self.expected@ == digest
    }

    /// How many bytes are read back: a window of a sample, and everything in a strict run.
    pub open spec fn window_size(self) -> nat {
        if self.verify == VerifyMode::Sample && self.bytes@.len() > REPLICATE_SAMPLE_WINDOW_BYTES {
            REPLICATE_SAMPLE_WINDOW_BYTES as nat
        } else {
            self.bytes@.len()
        }
    }

    pub fn window(&self) -> (n: u64)
        ensures
            n == self.window_size(),
    {
        let all: u64 = self.bytes.len() as u64;
        match self.verify {
            VerifyMode::Sample => {
                if all > REPLICATE_SAMPLE_WINDOW_BYTES {
                    REPLICATE_SAMPLE_WINDOW_BYTES
                } else {
                    all
                }
            },
            _ => all,
        }
    }
}

/// What is said of an object that is too large to move in one piece.
pub open spec fn too_large_text(item: Item, units: Units) -> Seq<char> {
    "'"@ + item.key@ + "' is "@ + size_text(item.size as nat, units)
        + " and this build moves an object in one piece, up to "@ + size_text(
        REPLICATE_WHOLE_OBJECT_LIMIT as nat,
        units,
    )
}

/// What comes of starting on an object.
pub open spec fn started(
    item: Item,
    verify: VerifyMode,
    units: Units,
    r: Next,
    before: Stats,
    after: Stats,
) -> bool {
    if item.size > REPLICATE_WHOLE_OBJECT_LIMIT {
        &&& r matches Next::End(done) && done.failed_with(
            item,
            REPLICATE_REASON_TOO_LARGE@,
            too_large_text(item, units),
            Seq::empty(),
        )
        &&& after == before.with_error()
    } else {
        &&& r matches Next::Go(job) && job.item == item && job.verify == verify && job.stage
            == Stage::Read
        &&& after == before
    }
}

/// Starts on an object. One that is too large is refused, not attempted.
pub fn start(item: &Item, verify: VerifyMode, units: Units, stats: &mut Stats) -> (r: Next)
    ensures
        started(*item, verify, units, r, *old(stats), *final(stats)),
{
    if item.size > REPLICATE_WHOLE_OBJECT_LIMIT {
        let shown = output::bytes(item.size, units);
        let limit = output::bytes(REPLICATE_WHOLE_OBJECT_LIMIT, units);
        let front = text::cat4("'", item.key.as_str(), "' is ", shown.as_str());
        let message = text::cat3(
            front.as_str(),
            " and this build moves an object in one piece, up to ",
            limit.as_str(),
        );
        proof {
            assert(message@ =~= too_large_text(*item, units));
            reveal_strlit("too-large");
            reveal_strlit("checksum-mismatch");
            assert(REPLICATE_REASON_TOO_LARGE@.len() != REPLICATE_REASON_MISMATCH@.len());
        }
        return Next::End(
            failed(item, REPLICATE_REASON_TOO_LARGE, message, String::new(), stats),
        );
    }
    Next::Go(
        Job { item: item.clone(), verify, stage: Stage::Read, bytes: Vec::new(), expected: [0; 32] },
    )
}

/// Whether two runs of bytes are the same.
fn same_bytes(a: &[u8], b: &[u8]) -> (r: bool)
    ensures
        r == (a@ == b@),
{
    if a.len() != b.len() {
        return false;
    }
    proof {
        assert(a@.subrange(0, a@.len() as int) =~= a@);
    }
    starts_with(a, b)
}

/// Whether the first run of bytes begins with the second.
fn starts_with(a: &[u8], b: &[u8]) -> (r: bool)
    ensures
        r == b@.is_prefix_of(a@),
{
    if a.len() < b.len() {
        return false;
    }
    let mut i: usize = 0;
    while i < b.len()
        invariant
            i <= b@.len() <= a@.len(),
            forall|j: int| 0 <= j < i ==> a@[j] == b@[j],
        decreases b@.len() - i,
    {
        if a[i] != b[i] {
            assert(a@.subrange(0, b@.len() as int)[i as int] != b@[i as int]);
            return false;
        }
        i = i + 1;
    }
    proof {
        assert(b@ =~= a@.subrange(0, b@.len() as int));
    }
    true
}

/// Why what the destination serves back is not what it was sent, if it is not.
///
/// A checksum run relies on the store having refused anything but the digest. A sample has to
/// be the window that was asked for, whole, with the source's bytes in it; a strict run
/// compares digests.
pub open spec fn problem(job: Job, answer: Result<Vec<u8>>, destination: Seq<char>) -> Option<
    Seq<char>,
> {
    let unread = |e: CliError|
        "'"@ + job.item.key@ + "' could not be read back: "@ + e.message@;
    match job.verify {
        VerifyMode::Checksum => None,
        VerifyMode::Sample => match answer {
            Err(e) => Some(unread(e)),
            Ok(served) => if served@ == job.bytes@.take(job.window_size() as int) {
                None
            } else {
                Some(
                    "'"@ + job.item.key@ + "' was stored at '"@ + destination
                        + "', but the first "@ + digits(served@.len())
                        + " it serves back differ from the source"@,
                )
            },
        },
        VerifyMode::Strict => match answer {
            Err(e) => Some(unread(e)),
            Ok(served) => digest_problem(job, blake3_digest(served@), destination),
        },
    }
}

/// Why bytes with this digest are not what the destination was sent, if they are not.
pub open spec fn digest_problem(job: Job, digest: Seq<u8>, destination: Seq<char>) -> Option<
    Seq<char>,
> {
    if digest == job.expected@ {
        None
    } else {
        Some(
            "'"@ + job.item.key@ + "' was stored at '"@ + destination
                + "', but what it serves back has a different BLAKE3 from the source object"@,
        )
    }
}

/// Judges the digest of what the destination served back.
pub fn judge_digest(job: &Job, digest: &[u8; 32], destination: &str) -> (r: core::result::Result<
    (),
    String,
>)
    ensures
        match r {
            Ok(_) => digest_problem(*job, digest@, destination@) is None,
            Err(m) => digest_problem(*job, digest@, destination@) == Some(m@),
        },
{
    if same_bytes(digest, &job.expected) {
        return Ok(());
    }
    Err(
        text::cat5(
            "'",
            job.item.key.as_str(),
            "' was stored at '",
            destination,
            "', but what it serves back has a different BLAKE3 from the source object",
        ),
    )
}

/// Judges what the destination served back.
pub fn read_back(job: &Job, answer: &Result<Vec<u8>>, destination: &str) -> (r:
    core::result::Result<(), String>)
    ensures
        match r {
            Ok(_) => problem(*job, *answer, destination@) is None,
            Err(m) => problem(*job, *answer, destination@) == Some(m@),
        },
{
    let key = job.item.key.as_str();
    match job.verify {
        VerifyMode::Checksum => Ok(()),
        VerifyMode::Sample => match answer {
            Err(e) => Err(text::cat4("'", key, "' could not be read back: ", e.message())),
            Ok(served) => {
                if served.len() as u64 == job.window() && starts_with(
                    job.bytes.as_slice(),
                    served.as_slice(),
                ) {
                    return Ok(());
                }
                let front = text::cat5(
                    "'",
                    key,
                    "' was stored at '",
                    destination,
                    "', but the first ",
                );
                let n = text::decimal(served.len() as u64);
                let message = text::cat3(
                    front.as_str(),
                    n.as_str(),
                    " it serves back differ from the source",
                );
                proof {
                    assert(Some(message@) == problem(*job, *answer, destination@));
                }
                Err(message)
            },
        },
        VerifyMode::Strict => match answer {
            Err(e) => Err(text::cat4("'", key, "' could not be read back: ", e.message())),
            Ok(served) => {
                let digest = digest::hash(served.as_slice());
                judge_digest(job, &digest, destination)
            },
        },
    }
}

/// Why an object was copied. One that was compared first has turned out to differ.
pub open spec fn copied_because(item: Item) -> Seq<char> {
    if item.action == Action::Reverify {
        PLAN_REASON_CHECKSUM@
    } else {
        item.reason@
    }
}

/// The end of an object that was copied.
fn copied(job: Job, stats: &mut Stats) -> (r: Replicated)
    ensures
        r.is(job.item, Action::Replicate, copied_because(job.item), hex_of(job.expected@)),
        *final(stats) == old(stats).with_verified(job.item.size).with_done(),
{
    stats.add_verified_bytes(job.item.size);
    stats.file_done();
    let reason = match job.item.action {
        Action::Reverify => PLAN_REASON_CHECKSUM,
        _ => job.item.reason,
    };
    Replicated {
        item: job.item.ending(Action::Replicate, reason),
        hash: text::hex_bytes(&job.expected),
        notice: None,
    }
}

/// What comes of reading the source.
pub open spec fn after_read(
    job: Job,
    answer: Result<Vec<u8>>,
    ends: Ends,
    r: Next,
    before: Stats,
    after: Stats,
) -> bool {
    match answer {
        Err(e) => {
            &&& r matches Next::End(done) && done.failed_with(
                job.item,
                REPLICATE_REASON_UNREADABLE@,
                "'"@ + job.item.key@ + "' could not be read from '"@ + ends.source@ + "': "@
                    + e.message@,
                Seq::empty(),
            )
            &&& after == before.with_error()
        },
        Ok(bytes) => {
            &&& r matches Next::Go(next) && next.carries(job, bytes@, blake3_digest(bytes@))
            &&& after == before
        },
    }
}

/// Takes the bytes of the source and their digest: they are compared first where the plan says
/// so, and otherwise written.
pub fn fetched(job: Job, bytes: Vec<u8>, digest: [u8; 32]) -> (r: Job)
    ensures
        r.carries(job, bytes@, digest@),
{
    let stage = match job.item.action {
        Action::Reverify => Stage::Compare,
        _ => Stage::Write,
    };
    Job { item: job.item, verify: job.verify, stage, bytes, expected: digest }
}

fn source_read(job: Job, answer: Result<Vec<u8>>, ends: &Ends, stats: &mut Stats) -> (r: Next)
    ensures
        after_read(job, answer, *ends, r, *old(stats), *final(stats)),
{
    match answer {
        Err(e) => {
            let front = text::cat5(
                "'",
                job.item.key.as_str(),
                "' could not be read from '",
                ends.source.as_str(),
                "': ",
            );
            let message = text::cat2(front.as_str(), e.message());
            proof {
                reveal_strlit("source-unreadable");
                reveal_strlit("checksum-mismatch");
                assert(REPLICATE_REASON_UNREADABLE@[0] != REPLICATE_REASON_MISMATCH@[0]);
            }
            Next::End(
                failed(&job.item, REPLICATE_REASON_UNREADABLE, message, String::new(), stats),
            )
        },
        Ok(bytes) => {
            let digest = digest::hash(bytes.as_slice());
            Next::Go(fetched(job, bytes, digest))
        },
    }
}

/// What comes of the copy that is already there, whose digest is known where it could be read:
/// the same digest ends it, and anything else, an unreadable copy too, is written over.
pub open spec fn after_digest(
    job: Job,
    stored: Option<Seq<u8>>,
    r: Next,
    before: Stats,
    after: Stats,
) -> bool {
    if stored == Some(job.expected@) {
        &&& r matches Next::End(done) && done.is(
            job.item,
            Action::Reverify,
            PLAN_REASON_IDENTICAL@,
            hex_of(job.expected@),
        )
        &&& after == before.with_bytes(job.item.size).with_skipped().with_verified(job.item.size)
    } else {
        &&& r matches Next::Go(next) && next.moved_on(job, Stage::Write)
        &&& after == before
    }
}

/// What comes of reading the copy that is already there.
pub open spec fn after_compare(
    job: Job,
    answer: Result<Vec<u8>>,
    r: Next,
    before: Stats,
    after: Stats,
) -> bool {
    after_digest(
        job,
        match answer {
            Ok(stored) => Some(blake3_digest(stored@)),
            Err(_) => None,
        },
        r,
        before,
        after,
    )
}

/// Takes the digest of the copy that is already there.
pub fn matched(job: Job, stored: Option<[u8; 32]>, stats: &mut Stats) -> (r: Next)
    ensures
        after_digest(
            job,
            match stored {
                Some(digest) => Some(digest@),
                None => None,
            },
            r,
            *old(stats),
            *final(stats),
        ),
{
    if let Some(digest) = &stored {
        if same_bytes(digest, &job.expected) {
            stats.add_bytes(job.item.size);
            stats.file_skipped();
            stats.add_verified_bytes(job.item.size);
            return Next::End(
                Replicated {
                    item: job.item.ending(Action::Reverify, PLAN_REASON_IDENTICAL),
                    hash: text::hex_bytes(&job.expected),
                    notice: None,
                },
            );
        }
    }
    Next::Go(
        Job {
            item: job.item,
            verify: job.verify,
            stage: Stage::Write,
            bytes: job.bytes,
            expected: job.expected,
        },
    )
}

fn compared(job: Job, answer: Result<Vec<u8>>, stats: &mut Stats) -> (r: Next)
    ensures
        after_compare(job, answer, r, *old(stats), *final(stats)),
{
    let stored = match &answer {
        Ok(bytes) => Some(digest::hash(bytes.as_slice())),
        Err(_) => None,
    };
    matched(job, stored, stats)
}

/// What comes of writing. A store that found other bytes than it was sent is told apart from
/// one that stored nothing.
pub open spec fn after_write(
    job: Job,
    answer: Result<Vec<u8>>,
    ends: Ends,
    r: Next,
    before: Stats,
    after: Stats,
) -> bool {
    match answer {
        Err(e) => {
            let reason = if e.code == ExitCode::ChecksumMismatch {
                REPLICATE_REASON_MISMATCH@
            } else {
                REPLICATE_REASON_UNWRITABLE@
            };
            &&& r matches Next::End(done) && done.failed_with(
                job.item,
                reason,
                "'"@ + job.item.key@ + "' could not be stored at '"@ + ends.destination@ + "': "@
                    + e.message@,
                hex_of(job.expected@),
            )
            &&& after == (if e.code == ExitCode::ChecksumMismatch {
                before.with_mismatch()
            } else {
                before.with_error()
            })
        },
        Ok(_) => if job.verify == VerifyMode::Checksum {
            &&& r matches Next::End(done) && done.is(
                job.item,
                Action::Replicate,
                copied_because(job.item),
                hex_of(job.expected@),
            )
            &&& after == before.with_bytes(job.item.size).with_verified(job.item.size).with_done()
        } else {
            &&& r matches Next::Go(next) && next.moved_on(job, Stage::Check)
            &&& after == before.with_bytes(job.item.size)
        },
    }
}

fn wrote(job: Job, answer: Result<Vec<u8>>, ends: &Ends, stats: &mut Stats) -> (r: Next)
    ensures
        after_write(job, answer, *ends, r, *old(stats), *final(stats)),
{
    match answer {
        Err(e) => {
            let front = text::cat5(
                "'",
                job.item.key.as_str(),
                "' could not be stored at '",
                ends.destination.as_str(),
                "': ",
            );
            let message = text::cat2(front.as_str(), e.message());
            let reason = match e.code() {
                ExitCode::ChecksumMismatch => REPLICATE_REASON_MISMATCH,
                _ => REPLICATE_REASON_UNWRITABLE,
            };
            proof {
                reveal_strlit("destination-unwritable");
                reveal_strlit("checksum-mismatch");
                assert(REPLICATE_REASON_UNWRITABLE@[0] != REPLICATE_REASON_MISMATCH@[0]);
            }
            let hash = text::hex_bytes(&job.expected);
            Next::End(failed(&job.item, reason, message, hash, stats))
        },
        Ok(_) => {
            stats.add_bytes(job.item.size);
            match job.verify {
                VerifyMode::Checksum => Next::End(copied(job, stats)),
                _ => Next::Go(
                    Job {
                        item: job.item,
                        verify: job.verify,
                        stage: Stage::Check,
                        bytes: job.bytes,
                        expected: job.expected,
                    },
                ),
            }
        },
    }
}

/// What comes of reading back.
pub open spec fn after_check(
    job: Job,
    answer: Result<Vec<u8>>,
    ends: Ends,
    r: Next,
    before: Stats,
    after: Stats,
) -> bool {
    match problem(job, answer, ends.destination@) {
        Some(message) => {
            &&& r matches Next::End(done) && done.failed_with(
                job.item,
                REPLICATE_REASON_MISMATCH@,
                message,
                hex_of(job.expected@),
            )
            &&& after == before.with_mismatch()
        },
        None => {
            &&& r matches Next::End(done) && done.is(
                job.item,
                Action::Replicate,
                copied_because(job.item),
                hex_of(job.expected@),
            )
            &&& after == before.with_verified(job.item.size).with_done()
        },
    }
}

fn checked(job: Job, answer: Result<Vec<u8>>, ends: &Ends, stats: &mut Stats) -> (r: Next)
    ensures
        after_check(job, answer, *ends, r, *old(stats), *final(stats)),
{
    match read_back(&job, &answer, ends.destination.as_str()) {
        Ok(_) => Next::End(copied(job, stats)),
        Err(message) => {
            let hash = text::hex_bytes(&job.expected);
            Next::End(failed(&job.item, REPLICATE_REASON_MISMATCH, message, hash, stats))
        },
    }
}

/// What comes of an answer, at every stage.
pub open spec fn stepped(
    job: Job,
    answer: Result<Vec<u8>>,
    ends: Ends,
    r: Next,
    before: Stats,
    after: Stats,
) -> bool {
    match job.stage {
        Stage::Read => after_read(job, answer, ends, r, before, after),
        Stage::Compare => after_compare(job, answer, r, before, after),
        Stage::Write => after_write(job, answer, ends, r, before, after),
        Stage::Check => after_check(job, answer, ends, r, before, after),
    }
}

/// Takes the answer to what the job's stage asked for. What a write answers with, where it
/// succeeds, is not looked at.
pub fn step(job: Job, answer: Result<Vec<u8>>, ends: &Ends, stats: &mut Stats) -> (r: Next)
    ensures
        stepped(job, answer, *ends, r, *old(stats), *final(stats)),
{
    match job.stage {
        Stage::Read => source_read(job, answer, ends, stats),
        Stage::Compare => compared(job, answer, stats),
        Stage::Write => wrote(job, answer, ends, stats),
        Stage::Check => checked(job, answer, ends, stats),
    }
}

/// Whether a counter says that something went wrong.
pub open spec fn troubled(stats: Stats) -> bool {
    stats.errors > 0 || stats.checksum_mismatches > 0
}

/// What a step can end in. A copy was stored, and read back unless the checksum was enough: a
/// sampled one served the whole window, and a strict one the source's digest. A reverification
/// had the same digest at both ends, and a failure shows in the counters. Nothing ends as a
/// skip, and the object keeps its key and size.
pub proof fn an_end_is_earned(
    job: Job,
    answer: Result<Vec<u8>>,
    ends: Ends,
    done: Replicated,
    before: Stats,
    after: Stats,
)
    requires
        stepped(job, answer, ends, Next::End(done), before, after),
    ensures
        done.item.key@ == job.item.key@,
        done.item.size == job.item.size,
        done.item.action != Action::Skip,
        done.item.action == Action::Replicate ==> {
            ||| job.stage == Stage::Write && answer is Ok && job.verify == VerifyMode::Checksum
            ||| job.stage == Stage::Check && problem(job, answer, ends.destination@) is None
        },
        done.item.action == Action::Replicate && job.stage == Stage::Check && job.verify
            == VerifyMode::Sample ==> (answer matches Ok(served) && served@ == job.bytes@.take(
            job.window_size() as int,
        )),
        done.item.action == Action::Replicate && job.stage == Stage::Check && job.verify
            == VerifyMode::Strict ==> (answer matches Ok(served) && blake3_digest(served@)
            == job.expected@),
        done.item.action == Action::Reverify ==> job.stage == Stage::Compare && (answer matches Ok(
            stored,
        ) && blake3_digest(stored@) == job.expected@),
        done.item.action == Action::Failed ==> troubled(after),
        done.item.action != Action::Failed ==> (troubled(after) <==> troubled(before)),
{
}

/// A job's bytes are the ones that the source served, and its digest is theirs: from the
/// reading on, every stage carries both along.
pub proof fn the_bytes_are_the_sources(
    job: Job,
    answer: Result<Vec<u8>>,
    ends: Ends,
    next: Job,
    before: Stats,
    after: Stats,
)
    requires
        stepped(job, answer, ends, Next::Go(next), before, after),
        job.stage != Stage::Read ==> job.expected@ == blake3_digest(job.bytes@),
    ensures
        next.stage != Stage::Read,
        next.expected@ == blake3_digest(next.bytes@),
        job.stage == Stage::Read ==> (answer matches Ok(served) && next.bytes@ == served@),
        job.stage != Stage::Read ==> next.bytes@ == job.bytes@,
        !troubled(before) ==> !troubled(after),
{
}

/// How far a stage is from the start.
pub open spec fn progress(stage: Stage) -> nat {
    match stage {
        Stage::Read => 0,
        Stage::Compare => 1,
        Stage::Write => 2,
        Stage::Check => 3,
    }
}

/// No stage comes twice, so an object ends after at most four answers.
pub proof fn stages_only_advance(
    job: Job,
    answer: Result<Vec<u8>>,
    ends: Ends,
    next: Job,
    before: Stats,
    after: Stats,
)
    requires
        stepped(job, answer, ends, Next::Go(next), before, after),
    ensures
        progress(next.stage) > progress(job.stage),
{
}

/// The exit code that an object is logged under.
pub open spec fn logged_code(item: Item) -> ExitCode {
    if item.action != Action::Failed {
        ExitCode::Success
    } else if item.reason@ == REPLICATE_REASON_MISMATCH@ {
        ExitCode::ChecksumMismatch
    } else {
        ExitCode::TemporaryError
    }
}

/// The log's entry for one object: the digest in it is the one that the destination was told
/// to store against.
pub fn record(done: &Replicated, remote: &str) -> (e: AuditEntry)
    ensures
        e.of_replica(
            VERB@,
            logged_code(done.item),
            done.item.key@,
            done.item.size,
            done.hash@,
            remote@,
        ),
{
    let code = match done.item.action {
        Action::Failed => {
            if text::same(done.item.reason, REPLICATE_REASON_MISMATCH) {
                ExitCode::ChecksumMismatch
            } else {
                ExitCode::TemporaryError
            }
        },
        _ => ExitCode::Success,
    };
    AuditEntry::replica(
        VERB,
        code,
        done.item.key.as_str(),
        done.item.size,
        done.hash.as_str(),
        remote,
    )
}

/// What a replication did. It is counted from what happened to each object, never taken from
/// the plan.
#[derive(Debug)]
pub struct Outcome {
    pub items: Vec<Item>,
    pub summary: Summary,
}

/// Starts a run over a plan: the totals are what will be read, not what will be written.
pub fn begin(plan: &Plan, stats: &mut Stats) -> (o: Outcome)
    ensures
        o.items@.len() == 0,
        o.summary == Summary::nothing(plan.counts().objects, plan.counts().extra),
        *final(stats) == (Stats {
            files_total: plan.counts().objects,
            bytes_total: egress(plan.objects()) as u64,
            ..*old(stats)
        }),
{
    let planned = plan.summary();
    let bytes = plan.egress_bytes();
    stats.set_totals(planned.objects, bytes);
    Outcome {
        items: Vec::new(),
        summary: Summary { objects: planned.objects, extra: planned.extra, ..Summary::default() },
    }
}

impl Outcome {
    /// Adds one finished object to the counts.
    pub fn tally(&mut self, item: Item)
        requires
            old(self).summary.has_room(item.action, item.size),
        ensures
            final(self).items@ == old(self).items@.push(item),
            final(self).summary == old(self).summary.with(item.action, item.size),
    {
        self.summary.count(item.action, item.size);
        self.items.push(item);
    }

    /// Adds an object that the plan leaves alone.
    pub fn skip(&mut self, item: &Item, stats: &mut Stats)
        requires
            old(self).summary.has_room(Action::Skip, item.size),
            item.action == Action::Skip,
        ensures
            final(self).items@ == old(self).items@.push(*item),
            final(self).summary == old(self).summary.with(Action::Skip, item.size),
            *final(stats) == old(stats).with_skipped(),
    {
        stats.file_skipped();
        self.tally(item.clone());
    }
}

/// Whether `done` can have become of `item`: it is the same object, and it was not copied where
/// the plan leaves it alone.
pub open spec fn came_of(done: Item, item: Item) -> bool {
    &&& done.key@ == item.key@
    &&& done.size == item.size
    &&& done.action == Action::Replicate ==> item.action != Action::Skip
}

/// Whether `done` is what became of the first objects of a plan, in order.
pub open spec fn done_of(done: Seq<Item>, plan: Seq<Item>) -> bool {
    done.len() <= plan.len() && forall|i: int|
        0 <= i < done.len() ==> came_of(#[trigger] done[i], plan[i])
}

proof fn lemma_done_is_read(done: Seq<Item>, plan: Seq<Item>)
    requires
        done_of(done, plan),
        forall|i: int| 0 <= i < plan.len() ==> (#[trigger] plan[i]).action != Action::Failed,
    ensures
        written(done) <= egress(plan.take(done.len() as int)),
    decreases done.len(),
{
    if done.len() > 0 {
        let n = done.len() - 1;
        let fewer = done.drop_last();
        assert forall|i: int| 0 <= i < fewer.len() implies came_of(#[trigger] fewer[i], plan[i]) by {
            assert(fewer[i] == done[i]);
        }
        lemma_done_is_read(fewer, plan);
        assert(plan.take(n + 1).drop_last() =~= plan.take(n));
        assert(came_of(done[n], plan[n]));
        assert(plan[n].action != Action::Failed);
    }
}

/// A run over a plan never runs out of room, whatever becomes of its objects: as long as what
/// is to be read can be summed, the next object can always be counted.
pub proof fn a_run_always_has_room(
    objects: u64,
    extra: u64,
    done: Seq<Item>,
    plan: Seq<Item>,
    next: Item,
)
    requires
        plan.len() <= u64::MAX,
        egress(plan) <= u64::MAX,
        forall|i: int| 0 <= i < plan.len() ==> (#[trigger] plan[i]).action != Action::Failed,
        done_of(done, plan),
        done.len() < plan.len(),
        came_of(next, plan[done.len() as int]),
    ensures
        Summary::nothing(objects, extra).over(done).has_room(next.action, next.size),
{
    let n = done.len() as int;
    lemma_done_is_read(done, plan);
    lemma_egress_grows(plan, n);
    lemma_egress_grows(plan, n + 1);
    assert(plan.take(n + 1).drop_last() =~= plan.take(n));
    assert(plan.take(n + 1).last() == plan[n]);
    assert(plan[n].action != Action::Failed);
    every_object_is_counted_once(objects, extra, done);
}

/// The way of one object: what was answered, what came next each time, and the counters before
/// and after each of it.
pub struct Way {
    pub answers: Seq<Result<Vec<u8>>>,
    pub states: Seq<Next>,
    pub counters: Seq<Stats>,
}

/// The object's answer number `i` leads from one state to the next.
pub open spec fn leads_on(way: Way, ends: Ends, i: int) -> bool {
    way.states[i] matches Next::Go(job) && stepped(
        job,
        way.answers[i],
        ends,
        way.states[i + 1],
        way.counters[i + 1],
        way.counters[i + 2],
    )
}

/// Whether this is the way of `item` to its end.
pub open spec fn went(
    item: Item,
    verify: VerifyMode,
    units: Units,
    ends: Ends,
    way: Way,
    done: Replicated,
) -> bool {
    &&& way.states.len() == way.answers.len() + 1
    &&& way.counters.len() == way.answers.len() + 2
    &&& started(item, verify, units, way.states[0], way.counters[0], way.counters[1])
    &&& forall|i: int| 0 <= i < way.answers.len() ==> #[trigger] leads_on(way, ends, i)
    &&& way.states.last() == Next::End(done)
}

/// Whether a state is one that `item` can be in, after `n` answers: a job carries it and has
/// not touched the marks, and its bytes and digest are those of the first answer.
spec fn on_its_way(item: Item, verify: VerifyMode, way: Way, n: int) -> bool {
    way.states[n] matches Next::Go(job) ==> {
        &&& job.item == item
        &&& job.verify == verify
        &&& troubled(way.counters[n + 1]) <==> troubled(way.counters[0])
        &&& job.stage == Stage::Read <==> n == 0
        &&& n > 0 ==> (way.answers[0] matches Ok(served) && job.bytes@ == served@ && job.expected@
            == blake3_digest(served@))
    }
}

proof fn lemma_on_its_way(
    item: Item,
    verify: VerifyMode,
    units: Units,
    ends: Ends,
    way: Way,
    done: Replicated,
    n: int,
)
    requires
        went(item, verify, units, ends, way, done),
        0 <= n <= way.answers.len(),
    ensures
        on_its_way(item, verify, way, n),
    decreases n,
{
    if n > 0 {
        lemma_on_its_way(item, verify, units, ends, way, done, n - 1);
        assert(leads_on(way, ends, n - 1));
    }
}

/// What an object can come to, whatever the stores answer. It keeps its key and size, and is
/// never passed over in silence. A failure leaves its mark in the counters, and nothing else
/// does. What did not fail was read from the source, and is reported under the digest of the
/// bytes that the source served.
pub proof fn an_object_comes_to_an_honest_end(
    item: Item,
    verify: VerifyMode,
    units: Units,
    ends: Ends,
    way: Way,
    done: Replicated,
)
    requires
        went(item, verify, units, ends, way, done),
    ensures
        done.item.key@ == item.key@,
        done.item.size == item.size,
        done.item.action != Action::Skip,
        done.item.action == Action::Failed ==> troubled(way.counters.last()),
        done.item.action != Action::Failed ==> {
            &&& troubled(way.counters.last()) <==> troubled(way.counters[0])
            &&& way.answers.len() > 0 && (way.answers[0] matches Ok(served) && done.hash@
                == hex_of(blake3_digest(served@)))
        },
{
    let n = way.answers.len() as int;
    if n > 0 {
        lemma_on_its_way(item, verify, units, ends, way, done, n - 1);
        assert(leads_on(way, ends, n - 1));
    }
}

/// What a run does to one object of its plan: it is left alone and counted, or it goes its way.
pub open spec fn carried_out(
    item: Item,
    verify: VerifyMode,
    units: Units,
    ends: Ends,
    way: Way,
    done: Item,
    before: Stats,
    after: Stats,
) -> bool {
    if item.action == Action::Skip {
        done == item && after == before.with_skipped()
    } else {
        &&& way.counters.len() > 0
        &&& way.counters[0] == before
        &&& way.counters.last() == after
        &&& exists|end: Replicated| #[trigger]
            went(item, verify, units, ends, way, end) && end.item == done
    }
}

/// A run over a plan: what became of each object, and the counters between them.
pub open spec fn ran(
    plan: Seq<Item>,
    verify: VerifyMode,
    units: Units,
    ends: Ends,
    ways: Seq<Way>,
    done: Seq<Item>,
    counters: Seq<Stats>,
) -> bool {
    &&& ways.len() == plan.len()
    &&& done.len() == plan.len()
    &&& counters.len() == plan.len() + 1
    &&& forall|i: int|
        0 <= i < plan.len() ==> #[trigger] carried_out(
            plan[i],
            verify,
            units,
            ends,
            ways[i],
            done[i],
            counters[i],
            counters[i + 1],
        )
}

/// Whether a run's counters went on as its objects ended: one that fails leaves its mark, and
/// nothing takes a mark away.
spec fn counters_follow(counters: Seq<Stats>, items: Seq<Item>) -> bool {
    &&& counters.len() == items.len() + 1
    &&& forall|i: int|
        0 <= i < items.len() ==> if (#[trigger] items[i]).action == Action::Failed {
            troubled(counters[i + 1])
        } else {
            troubled(counters[i + 1]) <==> troubled(counters[i])
        }
}

proof fn lemma_marks_stay(counters: Seq<Stats>, items: Seq<Item>)
    requires
        counters_follow(counters, items),
        !troubled(counters[0]),
    ensures
        counters.last().ending() == ExitCode::Success <==> (forall|i: int|
            0 <= i < items.len() ==> (#[trigger] items[i]).action != Action::Failed),
    decreases items.len(),
{
    if items.len() > 0 {
        let n = items.len() - 1;
        let fewer = items.drop_last();
        assert forall|i: int| 0 <= i < fewer.len() implies fewer[i] == items[i] by {}
        assert(counters.drop_last()[0] == counters[0]);
        assert(counters_follow(counters.drop_last(), fewer)) by {
            assert forall|i: int| 0 <= i < fewer.len() implies if (#[trigger] fewer[i]).action
                == Action::Failed {
                troubled(counters.drop_last()[i + 1])
            } else {
                troubled(counters.drop_last()[i + 1]) <==> troubled(counters.drop_last()[i])
            } by {
                assert(items[i] == fewer[i]);
            }
        }
        lemma_marks_stay(counters.drop_last(), fewer);
        assert(counters.drop_last().last() == counters[n]);
        assert(items[n].action == Action::Failed || (troubled(counters[n + 1]) <==> troubled(
            counters[n],
        )));
        if forall|i: int| 0 <= i < items.len() ==> (#[trigger] items[i]).action != Action::Failed {
            assert forall|i: int| 0 <= i < fewer.len() implies (#[trigger] fewer[i]).action
                != Action::Failed by {
                assert(items[i] == fewer[i]);
            }
        } else if items[n].action != Action::Failed {
            let i = choose|i: int|
                0 <= i < items.len() && (#[trigger] items[i]).action == Action::Failed;
            assert(fewer[i].action == Action::Failed);
        }
    }
}

/// A run ends in success exactly where no object of it failed, whatever the stores answer; and
/// what it reports are the objects of the plan, in their order.
pub proof fn a_partial_replica_is_never_a_success(
    plan: Seq<Item>,
    verify: VerifyMode,
    units: Units,
    ends: Ends,
    ways: Seq<Way>,
    done: Seq<Item>,
    counters: Seq<Stats>,
)
    requires
        ran(plan, verify, units, ends, ways, done, counters),
        !troubled(counters[0]),
    ensures
        counters.last().ending() == ExitCode::Success <==> (forall|i: int|
            0 <= i < done.len() ==> (#[trigger] done[i]).action != Action::Failed),
        done_of(done, plan),
{
    assert forall|i: int| 0 <= i < done.len() implies {
        &&& came_of(#[trigger] done[i], plan[i])
        &&& if done[i].action == Action::Failed {
            troubled(counters[i + 1])
        } else {
            troubled(counters[i + 1]) <==> troubled(counters[i])
        }
    } by {
        assert(carried_out(
            plan[i],
            verify,
            units,
            ends,
            ways[i],
            done[i],
            counters[i],
            counters[i + 1],
        ));
        if plan[i].action != Action::Skip {
            let end = choose|end: Replicated| #[trigger]
                went(plan[i], verify, units, ends, ways[i], end) && end.item == done[i];
            an_object_comes_to_an_honest_end(plan[i], verify, units, ends, ways[i], end);
        }
    }
    lemma_marks_stay(counters, done);
}

/// What the source cannot serve is a failure of its own, and what it serves is compared with the
/// destination's copy exactly where the plan says so, and written otherwise. Reading counts
/// nothing.
pub proof fn what_the_source_serves_is_carried_on(
    job: Job,
    answer: Result<Vec<u8>>,
    ends: Ends,
    r: Next,
    before: Stats,
    after: Stats,
)
    requires
        stepped(job, answer, ends, r, before, after),
        job.stage == Stage::Read,
    ensures
        answer is Err ==> (r matches Next::End(done) && done.item.action == Action::Failed
            && done.item.reason@ == REPLICATE_REASON_UNREADABLE@ && done.hash@.len() == 0),
        answer is Err && before.errors < u64::MAX ==> after.errors == before.errors + 1,
        answer is Err ==> after.checksum_mismatches == before.checksum_mismatches
            && after.bytes_done == before.bytes_done,
        answer matches Ok(served) ==> (r matches Next::Go(next) && next.bytes@ == served@
            && next.item == job.item && next.verify == job.verify && next.expected@
            == blake3_digest(served@) && after == before),
        answer is Ok && job.item.action == Action::Reverify ==> (r matches Next::Go(next)
            && next.stage == Stage::Compare),
        answer is Ok && job.item.action != Action::Reverify ==> (r matches Next::Go(next)
            && next.stage == Stage::Write),
{
}

/// The copy at the destination ends a job exactly where it could be read and has the digest of
/// the source's bytes. Any other copy, and one that cannot be read, is written over.
pub proof fn only_the_same_bytes_are_left_alone(
    job: Job,
    answer: Result<Vec<u8>>,
    ends: Ends,
    r: Next,
    before: Stats,
    after: Stats,
)
    requires
        stepped(job, answer, ends, r, before, after),
        job.stage == Stage::Compare,
    ensures
        r is End <==> (answer matches Ok(stored) && blake3_digest(stored@) == job.expected@),
        r matches Next::End(done) ==> done.item.action == Action::Reverify && done.item.reason@
            == PLAN_REASON_IDENTICAL@ && done.hash@ == hex_of(job.expected@) && done.notice is None,
        r matches Next::Go(next) ==> next.stage == Stage::Write && next.bytes@ == job.bytes@
            && next.expected@ == job.expected@ && next.item == job.item && next.verify == job.verify
            && after == before,
        r is End && before.files_skipped < u64::MAX ==> after.files_skipped == before.files_skipped
            + 1,
        after.errors == before.errors && after.checksum_mismatches == before.checksum_mismatches
            && after.files_done == before.files_done,
{
}

/// A write that the store refused is a failure, told apart by whether the store found other bytes
/// than it was sent. One that it took ends the job where the checksum is enough, and is read back
/// otherwise; its bytes are counted once.
pub proof fn a_write_is_checked_unless_the_checksum_is_enough(
    job: Job,
    answer: Result<Vec<u8>>,
    ends: Ends,
    r: Next,
    before: Stats,
    after: Stats,
)
    requires
        stepped(job, answer, ends, r, before, after),
        job.stage == Stage::Write,
    ensures
        answer matches Err(e) ==> (r matches Next::End(done) && done.item.action == Action::Failed
            && done.item.reason@ == (if e.code == ExitCode::ChecksumMismatch {
            REPLICATE_REASON_MISMATCH@
        } else {
            REPLICATE_REASON_UNWRITABLE@
        })),
        answer matches Err(e) ==> (e.code == ExitCode::ChecksumMismatch ==> after.errors
            == before.errors && (before.checksum_mismatches < u64::MAX ==> after.checksum_mismatches
            == before.checksum_mismatches + 1)),
        answer matches Err(e) ==> (e.code != ExitCode::ChecksumMismatch
            ==> after.checksum_mismatches == before.checksum_mismatches && (before.errors < u64::MAX
            ==> after.errors == before.errors + 1)),
        answer is Err ==> after.bytes_done == before.bytes_done && after.files_done
            == before.files_done,
        answer is Ok && job.verify == VerifyMode::Checksum ==> (r matches Next::End(done)
            && done.item.action == Action::Replicate),
        answer is Ok && job.verify != VerifyMode::Checksum ==> (r matches Next::Go(next)
            && next.stage == Stage::Check && next.bytes@ == job.bytes@ && next.expected@
            == job.expected@ && next.item == job.item && next.verify == job.verify
            && after.files_done == before.files_done && after.bytes_verified
            == before.bytes_verified),
        answer is Ok && before.bytes_done + job.item.size <= u64::MAX ==> after.bytes_done
            == before.bytes_done + job.item.size,
        answer is Ok ==> after.errors == before.errors && after.checksum_mismatches
            == before.checksum_mismatches,
{
}

/// What is read back decides: a sample has to be the beginning of the source's bytes, as much of
/// it as was asked for and no less, and a strict reading has to have the source's digest. What
/// does not hold up, or cannot be read, is a mismatch, whatever the reason.
pub proof fn what_is_read_back_decides(
    job: Job,
    answer: Result<Vec<u8>>,
    ends: Ends,
    r: Next,
    before: Stats,
    after: Stats,
)
    requires
        stepped(job, answer, ends, r, before, after),
        job.stage == Stage::Check,
        job.verify != VerifyMode::Checksum,
    ensures
        r matches Next::End(done) && (done.item.action == Action::Replicate || (done.item.action
            == Action::Failed && done.item.reason@ == REPLICATE_REASON_MISMATCH@)),
        job.verify == VerifyMode::Sample ==> ((r matches Next::End(done) && done.item.action
            == Action::Replicate) <==> (answer matches Ok(served) && served@ == job.bytes@.take(
            if job.bytes@.len() > 65536 {
                65536
            } else {
                job.bytes@.len() as int
            },
        ))),
        job.verify == VerifyMode::Strict ==> ((r matches Next::End(done) && done.item.action
            == Action::Replicate) <==> (answer matches Ok(served) && blake3_digest(served@)
            == job.expected@)),
        (r matches Next::End(done) && done.item.action == Action::Failed)
            && before.checksum_mismatches < u64::MAX ==> after.checksum_mismatches
            == before.checksum_mismatches + 1,
        (r matches Next::End(done) && done.item.action == Action::Failed) ==> after.files_done
            == before.files_done && after.bytes_verified == before.bytes_verified,
        (r matches Next::End(done) && done.item.action == Action::Replicate) ==> (before.files_done
            < u64::MAX ==> after.files_done == before.files_done + 1) && after.errors
            == before.errors && after.checksum_mismatches == before.checksum_mismatches,
{
}

/// How much is read back: in a sample the first 64 KiB, or all of a shorter object; in a strict
/// run everything.
pub proof fn a_sample_is_a_bounded_beginning(job: Job)
    ensures
        job.verify == VerifyMode::Sample && job.bytes@.len() >= 65536 ==> job.window_size()
            == 65536,
        job.verify == VerifyMode::Sample && job.bytes@.len() < 65536 ==> job.window_size()
            == job.bytes@.len(),
        job.verify != VerifyMode::Sample ==> job.window_size() == job.bytes@.len(),
{
}

/// A copy is reported for the reason that the plan gave, except where the plan only meant to
/// compare: then it was made because the bytes differed.
pub proof fn a_copy_is_reported_for_its_reason(
    job: Job,
    answer: Result<Vec<u8>>,
    ends: Ends,
    done: Replicated,
    before: Stats,
    after: Stats,
)
    requires
        stepped(job, answer, ends, Next::End(done), before, after),
        done.item.action == Action::Replicate,
    ensures
        job.item.action == Action::Reverify ==> done.item.reason@ == PLAN_REASON_CHECKSUM@,
        job.item.action != Action::Reverify ==> done.item.reason@ == job.item.reason@,
        done.hash@ == hex_of(job.expected@),
        done.notice is None,
        before.bytes_verified + job.item.size <= u64::MAX ==> after.bytes_verified
            == before.bytes_verified + job.item.size,
{
}

/// An object is attempted exactly where it is no larger than five gibibytes; a larger one is
/// refused without a byte being read, and counts as an error.
pub proof fn only_what_fits_in_one_piece_is_attempted(
    item: Item,
    verify: VerifyMode,
    units: Units,
    r: Next,
    before: Stats,
    after: Stats,
)
    requires
        started(item, verify, units, r, before, after),
    ensures
        r is Go <==> item.size <= 5 * 1024 * 1024 * 1024,
        r matches Next::Go(job) ==> job.stage == Stage::Read && job.item == item && job.verify
            == verify && after == before,
        r matches Next::End(done) ==> done.item.action == Action::Failed && done.item.reason@
            == REPLICATE_REASON_TOO_LARGE@ && done.item.key@ == item.key@ && (before.errors
            < u64::MAX ==> after.errors == before.errors + 1),
{
}

/// An object is logged as a success exactly where it did not fail, and as a mismatch exactly
/// where its bytes did not hold up.
pub proof fn a_failure_is_never_logged_as_a_success(item: Item)
    ensures
        logged_code(item) == ExitCode::Success <==> item.action != Action::Failed,
        logged_code(item) == ExitCode::ChecksumMismatch <==> item.action == Action::Failed
            && item.reason@ == REPLICATE_REASON_MISMATCH@,
        logged_code(item) == ExitCode::TemporaryError <==> item.action == Action::Failed
            && item.reason@ != REPLICATE_REASON_MISMATCH@,
{
}

/// An end that is said to be good, or a failure, has the item's key and size and everything else
/// that was said of it; a failure is always announced as an error.
pub proof fn an_end_has_all_its_parts(
    done: Replicated,
    item: Item,
    action: Action,
    reason: Seq<char>,
    message: Seq<char>,
    hash: Seq<char>,
)
    ensures
        done.is(item, action, reason, hash) ==> done.item.action == action && done.item.key@
            == item.key@ && done.item.size == item.size && done.item.reason@ == reason && done.hash@
            == hash && done.notice is None,
        done.failed_with(item, reason, message, hash) ==> done.item.action == Action::Failed
            && done.item.key@ == item.key@ && done.item.size == item.size && done.item.reason@
            == reason && done.hash@ == hash && (done.notice matches Some(n) && n.level
            == Level::Error && n.message@ == message),
{
}

/// A mismatch is counted as one, and every other failure as an error.
pub proof fn bytes_that_arrived_wrong_are_counted_apart(stats: Stats, reason: Seq<char>)
    ensures
        reason == REPLICATE_REASON_MISMATCH@ ==> stats_failed(stats, reason).errors == stats.errors
            && (stats.checksum_mismatches < u64::MAX ==> stats_failed(
            stats,
            reason,
        ).checksum_mismatches == stats.checksum_mismatches + 1),
        reason != REPLICATE_REASON_MISMATCH@ ==> stats_failed(stats, reason).checksum_mismatches
            == stats.checksum_mismatches && (stats.errors < u64::MAX ==> stats_failed(
            stats,
            reason,
        ).errors == stats.errors + 1),
{
}

} // verus!
