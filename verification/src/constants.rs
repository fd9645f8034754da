//! The fixed words and numbers of the command line.
use vstd::prelude::*;

verus! {

pub const REMOTE_SEPARATOR: char = ':';

pub const DIRECTORY_MARKER_NAME: &'static str = ".dctl-dir";

pub const MAX_DEPTH_UNLIMITED: i32 = -1;

pub const DESTRUCTIVE_CONFIRMATION: &'static str = "yes";

pub const SECONDS_PER_MINUTE: u64 = 60;

pub const SECONDS_PER_HOUR: u64 = 3600;

pub const SECONDS_PER_DAY: u64 = 86400;

pub const CLEANUP_DEFAULT_MIN_AGE: &'static str = "24h";

pub const CLEANUP_AGE_HINT: &'static str = "Ages are written as 24h, 7d, 90m, 30s or a bare number of seconds.";

pub const SIZE_HINT: &'static str = "Sizes are written as a number with an optional suffix: 512, 1k, 10M or 2G.";

pub const REMOVAL_LABEL_COMMAND: &'static str = "command";

pub const REMOVAL_LABEL_TARGET: &'static str = "target";

pub const REMOVAL_LABEL_MODE: &'static str = "mode";

pub const REMOVAL_LABEL_INCLUDE: &'static str = "include";

pub const REMOVAL_LABEL_EXCLUDE: &'static str = "exclude";

pub const REMOVAL_LABEL_FILTER_FROM: &'static str = "filter-from";

pub const REMOVAL_LABEL_FILES_FROM: &'static str = "files-from";

pub const REMOVAL_LABEL_MIN_SIZE: &'static str = "min-size";

pub const REMOVAL_LABEL_MAX_SIZE: &'static str = "max-size";

pub const REMOVAL_LABEL_MAX_DEPTH: &'static str = "max-depth";

pub const REMOVAL_LABEL_LEAVE_ROOT: &'static str = "leave-root";

pub const REMOVAL_LIST_SEPARATOR: &'static str = ", ";

pub const REMOVAL_MODE_DRY_RUN: &'static str = "dry run";

pub const REMOVAL_MODE_EXECUTE: &'static str = "execute";

pub const REMOVAL_BOOL_YES: &'static str = "yes";

pub const REMOVAL_BOOL_NO: &'static str = "no";

pub const REMOVAL_STATUS_PLANNED: &'static str = "planned";

pub const REMOVAL_STATUS_WOULD_REMOVE: &'static str = "would-remove";

pub const REMOVAL_STATUS_REMOVED: &'static str = "removed";

pub const REMOVAL_STATUS_ABSENT: &'static str = "absent";

pub const REMOVAL_STATUS_FAILED: &'static str = "failed";

pub const REMOVAL_STATUS_HELD: &'static str = "held";

pub const REMOVAL_STATUS_UNSUPPORTED: &'static str = "unsupported";

pub const REMOVAL_STATUS_NOT_STAGED: &'static str = "not-staged";

pub const REMOVAL_STATUS_SUMMARY: &'static str = "summary";

pub const REMOVAL_KIND_OBJECT: &'static str = "object";

pub const REMOVAL_KIND_DIRECTORY: &'static str = "directory";

pub const REMOVAL_KIND_STAGING: &'static str = "staging";

pub const REMOVAL_KIND_ORPHAN: &'static str = "orphan";

pub const REMOVAL_SIZE_ABSENT: &'static str = "-";

pub const REMOVAL_STATUS_WIDTH: usize = 14;

pub const REMOVAL_SIZE_WIDTH: usize = 12;

pub const REMOVAL_NOT_EMPTY_HINT: &'static str = "Use `dctl purge` to remove a directory together with everything in it.";

pub const REMOVAL_ENGINE_MISSING: &'static str = "the storage interface does not offer";

pub const REMOVAL_ENGINE_HINT: &'static str = "Use the provider's own tools for this class.";

pub const CLEANUP_STALE_INDEX_HINT: &'static str = "Run `dctl index rebuild`, then sweep again.";

pub const VAULT_OBJECT_KEY_PREFIX: &'static str = "o";

pub const VAULT_NAME_KEY_PREFIX: &'static str = "n";

pub const UNKNOWN_VALUE: &'static str = "unknown";

pub const DIRECTORY_LABEL_OBJECT: &'static str = "object";

pub const DIRECTORY_LABEL_PLACE: &'static str = "backend";

pub const DIRECTORY_LABEL_TIMESTAMP: &'static str = "timestamp";

pub const DIRECTORY_LABEL_TIMESTAMP_SOURCE: &'static str = "timestamp source";

pub const DIRECTORY_LABEL_CREATE: &'static str = "create if missing";

pub const DIRECTORY_TIMESTAMP_SOURCE_EXPLICIT: &'static str = "explicit";

pub const DIRECTORY_TIMESTAMP_SOURCE_NOW: &'static str = "now";

pub const TOUCH_EXPLICIT_TIME_FEATURE: &'static str = "storing a chosen modification time in a vault";

pub const TOUCH_EXPLICIT_TIME_HINT: &'static str = "Drop --timestamp: a vault records the time at which an object is written.";

pub const TOUCH_RESTAMP_FEATURE: &'static str = "moving the modification time of an object in a vault";

pub const TOUCH_RESTAMP_HINT: &'static str = "Write the object again to give it a new time.";

pub const TOUCH_OBJECT_STORE_FEATURE: &'static str = "setting the modification time of an object in an object store";

pub const TOUCH_OBJECT_STORE_HINT: &'static str = "The provider stamps an object when it accepts it and offers no way to move that time, so no phase of development will add this. Copy an empty file to create an empty object.";

pub const PLAN_ACTION_SKIP: &'static str = "skip";

pub const PLAN_ACTION_RESTORE: &'static str = "restore";

pub const PLAN_ACTION_OVERWRITE: &'static str = "overwrite";

pub const PLAN_REASON_EXISTS: &'static str = "exists";

pub const PLAN_REASON_MISSING: &'static str = "missing-at-destination";

pub const PLAN_REASON_SIZE: &'static str = "size-differs";

pub const PLAN_REASON_CHECKSUM: &'static str = "checksum-differs";

pub const PLAN_REASON_IDENTICAL: &'static str = "identical";

} // verus!
