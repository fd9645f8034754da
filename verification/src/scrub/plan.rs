//! What a scrub reads, and when it gives up.
//!
//! The sample is drawn by a keyed hash of each path under a seed. One seed always draws the
//! same sample, and another seed another one, so repeated runs come to cover everything.
use vstd::prelude::*;
use vstd::utf8::encode_utf8;

use crate::digest;
use crate::digest::{blake3_digest, blake3_keyed_digest};
use crate::error::{CliError, ExitCode, Result};
use crate::text;
use crate::text::digits;
use crate::time;

verus! {

pub const SCRUB_FULL_SAMPLE_PERCENT: u8 = 100;

pub const SCRUB_MIN_SAMPLE_PERCENT: u8 = 1;

pub const SCRUB_MAX_ERRORS_UNLIMITED: u64 = 0;

pub const SCRUB_SAMPLE_BASIS: u64 = 100;

pub const SCRUB_SAMPLE_KEY_CONTEXT: &'static str = "dctl scrub sample selection";

/// Byte `i` of a number, counted from its low end.
pub open spec fn low_byte(n: nat, i: nat) -> u8
    decreases i,
{
    if i == 0 {
        (n % 256) as u8
    } else {
        low_byte(n / 256, (i - 1) as nat)
    }
}

/// A key with the eight bytes of a seed mixed into its front.
pub open spec fn mixed(context: Seq<u8>, seed: u64) -> Seq<u8> {
    Seq::new(
        context.len(),
        |i: int|
            if i < 8 {
                context[i] ^ low_byte(seed as nat, i as nat)
            } else {
                context[i]
            },
    )
}

/// The number that the first `k` bytes write, high end first.
pub open spec fn high_first(s: Seq<u8>, k: nat) -> nat
    decreases k,
{
    if k == 0 {
        0
    } else {
        256 * high_first(s, (k - 1) as nat) + s[k - 1] as nat
    }
}

/// The bucket that a digest falls into.
pub open spec fn bucket_number(digest: Seq<u8>) -> nat {
    high_first(digest, 8) % 100
}

/// The bucket of a path under a seed.
pub open spec fn path_bucket(seed: u64, path: Seq<char>) -> nat {
    bucket_number(
        blake3_keyed_digest(
            mixed(blake3_digest(encode_utf8(SCRUB_SAMPLE_KEY_CONTEXT@)), seed),
            encode_utf8(path),
        ),
    )
}

/// A key with a seed mixed in.
pub fn mix_seed(context: [u8; 32], seed: u64) -> (key: [u8; 32])
    ensures
        key@ == mixed(context@, seed),
{
    let mut key = context;
    let mut rest: u64 = seed;
    let mut i: usize = 0;
    while i < 8
        invariant
            i <= 8,
            context@.len() == 32,
            forall|j: nat| i + j < 8 ==> #[trigger] low_byte(rest as nat, j) == low_byte(
                seed as nat,
                (i + j) as nat,
            ),
            forall|j: int| 0 <= j < i ==> key@[j] == context@[j] ^ low_byte(seed as nat, j as nat),
            forall|j: int| i <= j < 32 ==> key@[j] == context@[j],
        decreases 8 - i,
    {
        let byte = (rest % 256) as u8;
        proof {
            assert(low_byte(rest as nat, 0) == low_byte(seed as nat, i as nat));
            assert forall|j: nat| i + 1 + j < 8 implies #[trigger] low_byte(
                rest as nat / 256,
                j,
            ) == low_byte(seed as nat, (i + 1 + j) as nat) by {
                assert(low_byte(rest as nat, j + 1) == low_byte(seed as nat, (i + (j + 1)) as nat));
            }
        }
        key[i] = key[i] ^ byte;
        rest = rest / 256;
        i = i + 1;
    }
    proof {
        assert(key@ =~= mixed(context@, seed));
    }
    key
}

proof fn lemma_high_first_bound(s: Seq<u8>, k: nat)
    requires
        k <= 8,
    ensures
        high_first(s, k) <= 0xffff_ffff_ffff_ffff,
        k < 8 ==> high_first(s, k) <= 0xff_ffff_ffff_ffff,
{
    reveal_with_fuel(high_first, 9);
}

/// The bucket that a digest falls into.
pub fn bucket_of(digest: [u8; 32]) -> (n: u64)
    ensures
        n == bucket_number(digest@),
        n < SCRUB_SAMPLE_BASIS,
{
    let mut value: u64 = 0;
    let mut i: usize = 0;
    while i < 8
        invariant
            i <= 8,
            digest@.len() == 32,
            value == high_first(digest@, i as nat),
        decreases 8 - i,
    {
        proof {
            lemma_high_first_bound(digest@, i as nat);
            lemma_high_first_bound(digest@, (i + 1) as nat);
            assert(high_first(digest@, (i + 1) as nat) == 256 * high_first(digest@, i as nat)
                + digest@[i as int] as nat);
        }
        value = value * 256 + digest[i] as u64;
        i = i + 1;
    }
    value % SCRUB_SAMPLE_BASIS
}

/// The scrub that a run performs.
#[derive(Clone, Copy, Debug, PartialEq, Eq, Structural)]
pub struct Plan {
    sample_percent: u8,
    max_errors: u64,
    repair: bool,
    seed: u64,
}

/// Whether a share of the dataset is one that a scrub can read.
pub open spec fn valid_percent(n: u8) -> bool {
    SCRUB_MIN_SAMPLE_PERCENT <= n <= SCRUB_FULL_SAMPLE_PERCENT
}

/// Whether `e` is the refusal of a share.
pub open spec fn is_percent_refusal(e: CliError, n: u8) -> bool {
    e.is(
        ExitCode::Usage,
        "--sample-percent must be between 1 and 100, got "@ + digits(n as nat),
        Some(
            "A zero-percent scrub reads nothing, so it could only ever report health it never measured."@,
        ),
    )
}

impl Plan {
    /// The share of the dataset that is read, in percent.
    pub closed spec fn percent(self) -> u8 {
        self.sample_percent
    }

    /// After how many damaged objects the run stops; zero for never.
    pub closed spec fn budget(self) -> u64 {
        self.max_errors
    }

    /// Whether damage is repaired.
    pub closed spec fn mends(self) -> bool {
        self.repair
    }

    /// The seed of the sample.
    pub closed spec fn seeded_by(self) -> u64 {
        self.seed
    }

    /// Whether the paths of a bucket are in the sample.
    pub open spec fn takes_bucket(self, bucket: nat) -> bool {
        self.percent() == SCRUB_FULL_SAMPLE_PERCENT || bucket < self.percent()
    }

    /// Whether a path is in the sample.
    pub open spec fn takes(self, path: Seq<char>) -> bool {
        self.takes_bucket(path_bucket(self.seeded_by(), path))
    }

    /// Whether that many damaged objects end the run.
    pub open spec fn ends_at(self, errors: u64) -> bool {
        self.budget() != SCRUB_MAX_ERRORS_UNLIMITED && errors >= self.budget()
    }

    /// Builds a plan. A share outside 1 to 100 is refused.
    pub fn new(sample_percent: u8, max_errors: u64, repair: bool, seed: u64) -> (r: Result<Plan>)
        ensures
            match r {
                Ok(p) => valid_percent(sample_percent) && p.percent() == sample_percent
                    && p.budget() == max_errors && p.mends() == repair && p.seeded_by() == seed,
                Err(e) => !valid_percent(sample_percent) && is_percent_refusal(e, sample_percent),
            },
    {
        if sample_percent < SCRUB_MIN_SAMPLE_PERCENT || sample_percent > SCRUB_FULL_SAMPLE_PERCENT {
            let got = text::decimal(sample_percent as u64);
            return Err(
                CliError::usage(
                    text::cat2("--sample-percent must be between 1 and 100, got ", got.as_str()),
                ).with_hint(
                    "A zero-percent scrub reads nothing, so it could only ever report health it never measured.".to_owned(),
                ),
            );
        }
        Ok(Plan { sample_percent, max_errors, repair, seed })
    }

    /// A plan with a seed from the clock. Which seed that is cannot be foreseen; it only has
    /// to differ between runs.
    pub fn seeded(sample_percent: u8, max_errors: u64, repair: bool) -> (r: Result<Plan>)
        ensures
            match r {
                Ok(p) => valid_percent(sample_percent) && p.percent() == sample_percent
                    && p.budget() == max_errors && p.mends() == repair,
                Err(e) => !valid_percent(sample_percent) && is_percent_refusal(e, sample_percent),
            },
    {
        Plan::new(sample_percent, max_errors, repair, time::clock_nanos())
    }

    pub fn sample_percent(&self) -> (n: u8)
        ensures
            n == self.percent(),
    {
        self.sample_percent
    }

    pub fn max_errors(&self) -> (n: u64)
        ensures
            n == self.budget(),
    {
        self.max_errors
    }

    pub fn repairs(&self) -> (r: bool)
        ensures
            r == self.mends(),
    {
        self.repair
    }

    pub fn seed(&self) -> (n: u64)
        ensures
            n == self.seeded_by(),
    {
        self.seed
    }

    /// Whether every object is read.
    pub fn is_full(&self) -> (r: bool)
        ensures
            r == (self.percent() == SCRUB_FULL_SAMPLE_PERCENT),
    {
        self.sample_percent == SCRUB_FULL_SAMPLE_PERCENT
    }

    /// Whether the error budget can be used up.
    pub fn is_bounded(&self) -> (r: bool)
        ensures
            r == (self.budget() != SCRUB_MAX_ERRORS_UNLIMITED),
    {
        self.max_errors != SCRUB_MAX_ERRORS_UNLIMITED
    }

    /// Whether a path is in the sample. A full scrub takes every path without hashing it.
    pub fn selects(&self, path: &str) -> (r: bool)
        ensures
            r == self.takes(path@),
    {
        self.is_full() || self.selects_bucket(self.bucket(path))
    }

    /// Whether the paths of a bucket are in the sample.
    pub fn selects_bucket(&self, bucket: u64) -> (r: bool)
        ensures
            r == self.takes_bucket(bucket as nat),
    {
        self.is_full() || bucket < self.sample_percent as u64
    }

    /// The bucket of a path under the plan's seed.
    pub fn bucket(&self, path: &str) -> (n: u64)
        ensures
            n == path_bucket(self.seeded_by(), path@),
            n < SCRUB_SAMPLE_BASIS,
    {
        let context = digest::hash(SCRUB_SAMPLE_KEY_CONTEXT.as_bytes());
        let key = mix_seed(context, self.seed);
        let drawn = digest::keyed_hash(&key, path.as_bytes());
        bucket_of(drawn)
    }

    /// Whether the run stops after this many damaged objects.
    pub fn budget_exhausted(&self, errors: u64) -> (r: bool)
        ensures
            r == self.ends_at(errors),
    {
        self.is_bounded() && errors >= self.max_errors
    }

    /// About how many of `total` objects the run reads.
    pub fn expected_objects(&self, total: u64) -> (n: u64)
        ensures
            n == (if self.percent() == SCRUB_FULL_SAMPLE_PERCENT {
                total as int
            } else if total * self.percent() > u64::MAX {
                u64::MAX as int / 100
            } else {
                (total * self.percent()) as int / 100
            }),
    {
        if self.is_full() {
            return total;
        }
        let product: u64 = match total.checked_mul(self.sample_percent as u64) {
            Some(n) => n,
            None => u64::MAX,
        };
        product / SCRUB_SAMPLE_BASIS
    }
}

/// A full plan takes every path, whatever its seed.
pub proof fn a_full_plan_takes_everything(plan: Plan, path: Seq<char>)
    requires
        plan.percent() == SCRUB_FULL_SAMPLE_PERCENT,
    ensures
        plan.takes(path),
{
}

/// Of two plans with one seed, the one that reads more takes all that the other takes.
pub proof fn a_larger_sample_holds_the_smaller(small: Plan, large: Plan, path: Seq<char>)
    requires
        small.seeded_by() == large.seeded_by(),
        small.percent() <= large.percent() <= SCRUB_FULL_SAMPLE_PERCENT,
        small.takes(path),
    ensures
        large.takes(path),
{
}

/// Selection depends on the share, the seed and the path alone, so a run can be repeated.
pub proof fn a_sample_can_be_drawn_again(a: Plan, b: Plan, path: Seq<char>)
    requires
        a.percent() == b.percent(),
        a.seeded_by() == b.seeded_by(),
    ensures
        a.takes(path) == b.takes(path),
{
}

/// An unlimited budget never ends a run, and a limited one ends it from its limit on.
pub proof fn a_budget_ends_a_run_from_its_limit_on(plan: Plan, errors: u64, more: u64)
    requires
        errors <= more,
    ensures
        plan.budget() == SCRUB_MAX_ERRORS_UNLIMITED ==> !plan.ends_at(errors),
        plan.ends_at(errors) ==> plan.ends_at(more),
{
}

/// A share of the buckets is taken: with a share of `n` percent the first `n` of the hundred, and
/// with the full share every path.
pub proof fn a_share_takes_that_many_buckets(plan: Plan, bucket: nat)
    requires
        bucket < 100,
        plan.percent() <= 100,
    ensures
        plan.takes_bucket(bucket) <==> bucket < plan.percent(),
{
}

/// Every share from one to a hundred is a share, and nothing else is.
pub proof fn a_share_is_one_to_a_hundred(n: u8)
    ensures
        valid_percent(n) <==> 1 <= n <= 100,
{
}

/// A run ends exactly where there is a limit and it has been reached.
pub proof fn a_run_ends_at_its_limit(plan: Plan, errors: u64)
    ensures
        plan.ends_at(errors) <==> plan.budget() > 0 && errors >= plan.budget(),
{
}

/// The seed is mixed into the first eight bytes of a key, its low byte first, and leaves the
/// others as they are.
pub proof fn a_seed_is_mixed_into_the_front(context: Seq<u8>, seed: u64, i: int)
    requires
        0 <= i < context.len(),
    ensures
        mixed(context, seed).len() == context.len(),
        i >= 8 ==> mixed(context, seed)[i] == context[i],
        i == 0 ==> mixed(context, seed)[i] == context[i] ^ (seed % 256) as u8,
        i == 1 ==> mixed(context, seed)[i] == context[i] ^ (seed / 256 % 256) as u8,
        i == 2 ==> mixed(context, seed)[i] == context[i] ^ (seed / 65536 % 256) as u8,
        i == 3 ==> mixed(context, seed)[i] == context[i] ^ (seed / 16777216 % 256) as u8,
        i == 4 ==> mixed(context, seed)[i] == context[i] ^ (seed / 4294967296 % 256) as u8,
        i == 5 ==> mixed(context, seed)[i] == context[i] ^ (seed / 1099511627776 % 256) as u8,
        i == 6 ==> mixed(context, seed)[i] == context[i] ^ (seed / 281474976710656 % 256) as u8,
        i == 7 ==> mixed(context, seed)[i] == context[i] ^ (seed / 72057594037927936 % 256) as u8,
{
    reveal_with_fuel(low_byte, 9);
    let n = seed as nat;
    assert(n / 256 / 256 == n / 65536);
    assert(n / 65536 / 256 == n / 16777216);
    assert(n / 16777216 / 256 == n / 4294967296);
    assert(n / 4294967296 / 256 == n / 1099511627776);
    assert(n / 1099511627776 / 256 == n / 281474976710656);
    assert(n / 281474976710656 / 256 == n / 72057594037927936);
}

/// A bucket is the number that the first eight bytes of a digest write, their high end first, in
/// hundredths: whatever stands behind them does not matter.
pub proof fn a_bucket_comes_from_eight_bytes(digest: Seq<u8>)
    ensures
        bucket_number(digest) == (digest[0] as nat * 72057594037927936 + digest[1] as nat
            * 281474976710656 + digest[2] as nat * 1099511627776 + digest[3] as nat * 4294967296
            + digest[4] as nat * 16777216 + digest[5] as nat * 65536 + digest[6] as nat * 256
            + digest[7] as nat) % 100,
{
    reveal_with_fuel(high_first, 9);
}

/// The bucket of a path is that of its keyed digest, under the key that the seed makes.
pub proof fn a_path_falls_into_the_bucket_of_its_digest(plan: Plan, path: Seq<char>)
    ensures
        plan.percent() < 100 ==> (plan.takes(path) <==> bucket_number(
            blake3_keyed_digest(
                mixed(blake3_digest(encode_utf8(SCRUB_SAMPLE_KEY_CONTEXT@)), plan.seeded_by()),
                encode_utf8(path),
            ),
        ) < plan.percent()),
{
}

/// A share that no sample can have is a mistake in the request, told with the number.
pub proof fn an_impossible_share_is_a_mistake(e: CliError, n: u8)
    requires
        is_percent_refusal(e, n),
    ensures
        e.code == ExitCode::Usage,
        e.message@ == "--sample-percent must be between 1 and 100, got "@ + digits(n as nat),
        e.hint is Some,
{
}

} // verus!
