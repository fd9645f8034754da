//! The counters of one run, which decide how it ends.
use vstd::prelude::*;

use crate::error::ExitCode;

verus! {

/// `n` and one more, or `n` where there is no more.
pub open spec fn bumped(n: u64) -> u64 {
    if n == u64::MAX {
        n
    } else {
        (n + 1) as u64
    }
}

/// `a + b`, or the largest number where that does not fit.
pub open spec fn capped_sum(a: u64, b: u64) -> u64 {
    if a + b > u64::MAX {
        u64::MAX
    } else {
        (a + b) as u64
    }
}

/// `n` and one more.
pub fn bump(n: u64) -> (r: u64)
    ensures
        r == bumped(n),
{
    n.saturating_add(1)
}

/// What a run has counted so far.
#[derive(Clone, Copy, Debug, PartialEq, Eq, Structural)]
pub struct Stats {
    pub files_total: u64,
    pub bytes_total: u64,
    pub files_done: u64,
    pub files_skipped: u64,
    pub files_deleted: u64,
    pub bytes_done: u64,
    pub bytes_verified: u64,
    pub errors: u64,
    pub checksum_mismatches: u64,
}

impl Default for Stats {
    fn default() -> (s: Stats)
        ensures
            s == Stats::zero(),
    {
        Stats {
            files_total: 0,
            bytes_total: 0,
            files_done: 0,
            files_skipped: 0,
            files_deleted: 0,
            bytes_done: 0,
            bytes_verified: 0,
            errors: 0,
            checksum_mismatches: 0,
        }
    }
}

impl Stats {
    /// Nothing counted.
    pub open spec fn zero() -> Stats {
        Stats {
            files_total: 0,
            bytes_total: 0,
            files_done: 0,
            files_skipped: 0,
            files_deleted: 0,
            bytes_done: 0,
            bytes_verified: 0,
            errors: 0,
            checksum_mismatches: 0,
        }
    }

    pub open spec fn with_error(self) -> Stats {
        Stats { errors: bumped(self.errors), ..self }
    }

    pub open spec fn with_mismatch(self) -> Stats {
        Stats { checksum_mismatches: bumped(self.checksum_mismatches), ..self }
    }

    pub open spec fn with_done(self) -> Stats {
        Stats { files_done: bumped(self.files_done), ..self }
    }

    pub open spec fn with_skipped(self) -> Stats {
        Stats { files_skipped: bumped(self.files_skipped), ..self }
    }

    pub open spec fn with_deleted(self) -> Stats {
        Stats { files_deleted: bumped(self.files_deleted), ..self }
    }

    pub open spec fn with_bytes(self, n: u64) -> Stats {
        Stats { bytes_done: capped_sum(self.bytes_done, n), ..self }
    }

    pub open spec fn with_verified(self, n: u64) -> Stats {
        Stats { bytes_verified: capped_sum(self.bytes_verified, n), ..self }
    }

    pub open spec fn with_total_files(self, n: u64) -> Stats {
        Stats { files_total: capped_sum(self.files_total, n), ..self }
    }

    /// How a run with these counters ends: a mismatch outranks any other error, and a run
    /// with an error is never a success.
    pub open spec fn ending(self) -> ExitCode {
        if self.checksum_mismatches > 0 {
            ExitCode::ChecksumMismatch
        } else if self.errors > 0 {
            ExitCode::PartialFailure
        } else {
            ExitCode::Success
        }
    }

    pub fn error(&mut self)
        ensures
            *final(self) == old(self).with_error(),
    {
        self.errors = bump(self.errors);
    }

    pub fn checksum_mismatch(&mut self)
        ensures
            *final(self) == old(self).with_mismatch(),
    {
        self.checksum_mismatches = bump(self.checksum_mismatches);
    }

    pub fn file_done(&mut self)
        ensures
            *final(self) == old(self).with_done(),
    {
        self.files_done = bump(self.files_done);
    }

    pub fn file_skipped(&mut self)
        ensures
            *final(self) == old(self).with_skipped(),
    {
        self.files_skipped = bump(self.files_skipped);
    }

    pub fn file_deleted(&mut self)
        ensures
            *final(self) == old(self).with_deleted(),
    {
        self.files_deleted = bump(self.files_deleted);
    }

    pub fn add_bytes(&mut self, n: u64)
        ensures
            *final(self) == old(self).with_bytes(n),
    {
        self.bytes_done = self.bytes_done.saturating_add(n);
    }

    pub fn add_verified_bytes(&mut self, n: u64)
        ensures
            *final(self) == old(self).with_verified(n),
    {
        self.bytes_verified = self.bytes_verified.saturating_add(n);
    }

    pub fn add_total_files(&mut self, n: u64)
        ensures
            *final(self) == old(self).with_total_files(n),
    {
        self.files_total = self.files_total.saturating_add(n);
    }

    pub fn set_totals(&mut self, files: u64, bytes: u64)
        ensures
            *final(self) == (Stats { files_total: files, bytes_total: bytes, ..*old(self) }),
    {
        self.files_total = files;
        self.bytes_total = bytes;
    }

    /// How the run ends.
    pub fn outcome(&self) -> (c: ExitCode)
        ensures
            c == self.ending(),
    {
        if self.checksum_mismatches > 0 {
            ExitCode::ChecksumMismatch
        } else if self.errors > 0 {
            ExitCode::PartialFailure
        } else {
            ExitCode::Success
        }
    }
}

/// A run that counted an error never ends in success, whatever else it counted.
pub proof fn an_error_is_never_a_success(stats: Stats)
    ensures
        stats.with_error().ending() != ExitCode::Success,
        stats.with_mismatch().ending() != ExitCode::Success,
{
}

/// How a run ends is decided by two counters: in success exactly where both are zero, in a
/// mismatch wherever one was counted, and otherwise in a partial failure.
pub proof fn two_counters_decide_the_end(stats: Stats)
    ensures
        stats.ending() == ExitCode::Success <==> stats.errors == 0 && stats.checksum_mismatches
            == 0,
        stats.ending() == ExitCode::ChecksumMismatch <==> stats.checksum_mismatches > 0,
        stats.ending() == ExitCode::PartialFailure <==> stats.errors > 0
            && stats.checksum_mismatches == 0,
{
}

/// Every count moves its own counter by one, or stays at the largest number, and moves nothing
/// else.
pub proof fn a_count_moves_one_counter(s: Stats)
    ensures
        s.with_error() == (Stats { errors: s.with_error().errors, ..s }),
        s.errors < u64::MAX ==> s.with_error().errors == s.errors + 1,
        s.errors == u64::MAX ==> s.with_error().errors == u64::MAX,
        s.with_mismatch() == (Stats {
            checksum_mismatches: s.with_mismatch().checksum_mismatches,
            ..s
        }),
        s.checksum_mismatches < u64::MAX ==> s.with_mismatch().checksum_mismatches
            == s.checksum_mismatches + 1,
        s.checksum_mismatches == u64::MAX ==> s.with_mismatch().checksum_mismatches == u64::MAX,
        s.with_done() == (Stats { files_done: s.with_done().files_done, ..s }),
        s.files_done < u64::MAX ==> s.with_done().files_done == s.files_done + 1,
        s.with_skipped() == (Stats { files_skipped: s.with_skipped().files_skipped, ..s }),
        s.files_skipped < u64::MAX ==> s.with_skipped().files_skipped == s.files_skipped + 1,
        s.with_deleted() == (Stats { files_deleted: s.with_deleted().files_deleted, ..s }),
        s.files_deleted < u64::MAX ==> s.with_deleted().files_deleted == s.files_deleted + 1,
{
}

/// Every sum adds to its own figure as far as it can be counted, and to nothing else.
pub proof fn a_sum_adds_to_one_figure(s: Stats, n: u64)
    ensures
        s.with_bytes(n) == (Stats { bytes_done: s.with_bytes(n).bytes_done, ..s }),
        s.bytes_done + n <= u64::MAX ==> s.with_bytes(n).bytes_done == s.bytes_done + n,
        s.bytes_done + n > u64::MAX ==> s.with_bytes(n).bytes_done == u64::MAX,
        s.with_verified(n) == (Stats { bytes_verified: s.with_verified(n).bytes_verified, ..s }),
        s.bytes_verified + n <= u64::MAX ==> s.with_verified(n).bytes_verified == s.bytes_verified
            + n,
        s.bytes_verified + n > u64::MAX ==> s.with_verified(n).bytes_verified == u64::MAX,
        s.with_total_files(n) == (Stats { files_total: s.with_total_files(n).files_total, ..s }),
        s.files_total + n <= u64::MAX ==> s.with_total_files(n).files_total == s.files_total + n,
        s.files_total + n > u64::MAX ==> s.with_total_files(n).files_total == u64::MAX,
{
}

} // verus!
