# dctl

The decisions behind the `dctl` commands that remove, replicate, restore, scrub, measure,
synchronise and touch what a vault or an object store holds.

The library is verified with [Verus](https://github.com/verus-lang/verus). It never talks to a
store, a disk or a terminal. It is told what a listing holds or how a request ended, and it
answers with what to do next, what to say, and what to write into the log. Each public function
states in its contract what it answers for every input.

## Layout

- `src/text.rs`, `path.rs`, `ordered.rs`, `output.rs`, `time.rs`, `digest.rs`: text, paths,
  ordered lists, figures, the clock and BLAKE3 digests.
- `src/error.rs`, `globals.rs`, `remote.rs`, `listing.rs`, `index.rs`, `source.rs`, `audit.rs`,
  `stats.rs`, `integrity.rs`, `transfer.rs`: what the commands share.
- `src/removal/`: targets, filters, selections, the removal loop, the sweep for debris, and the
  report. `src/rmdir.rs` and `src/rmdirs.rs` are built on it.
- `src/replicate/`: which stores are let in, the plan, the stages that an object goes through,
  and the report.
- `src/restore/`: what is restored, where it lands, and what stops it.
- `src/scrub/`: the sample, the walk, and the grade.
- `src/size.rs`, `src/sync/`, `src/touch/`: measuring, synchronising, and moving a modification
  time.
- `tests/`: the library, run.
- `app/`: the commands themselves. They await the stores behind the traits of `app/store.rs`,
  read the arguments, write files, and show the records as text or JSON.

## What is proved across functions

Beside the contracts, the library states laws as public proof functions. Among them: a run with
a failure never ends in success (`removal::remove`, `replicate::execute`), only old staging
debris is ever deleted (`removal::reclaim`), a purge takes children before their directories and
an interrupted one leaves the structure standing (`removal::selection`), a larger sample holds
the smaller one (`scrub::plan`), every mode of a synchronisation performs the same actions
(`sync::execute`), and a written timestamp reads back as itself (`touch::timestamp`).

## What is trusted

Calls into `blake3`, `unicode_normalization` and the system clock stand behind small wrappers in
`src/digest.rs`, `src/path.rs`, `src/time.rs` and `src/touch/engine.rs`, and `String::push` has a
stated contract in `src/text.rs`. Their doc comments say what is claimed of each.
