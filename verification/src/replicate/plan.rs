//! What a replication would do, decided from the two listings alone.
//!
//! | at the destination | checksum, sample | strict |
//! |--------------------|------------------|--------|
//! | absent | replicate | replicate |
//! | present, another size | replicate | replicate |
//! | present, the same size | skip | reverify |
//!
//! A key is carried as it is: nothing here takes one apart or respells it. What only the
//! destination holds is counted and left alone.
use vstd::prelude::*;

use crate::constants::{
    PLAN_ACTION_SKIP, PLAN_REASON_EXISTS, PLAN_REASON_MISSING, PLAN_REASON_SIZE,
};
use crate::error::{CliError, ExitCode, Result};
use crate::integrity::VerifyMode;
use crate::ordered::ascending;
use crate::replicate::objects::{keys, Objects, Stored};
use crate::text;
use crate::text::view_option;

verus! {

pub const REPLICATE_ACTION_REPLICATE: &'static str = "replicate";

pub const REPLICATE_ACTION_REVERIFY: &'static str = "reverify";

pub const REPLICATE_ACTION_FAILED: &'static str = "failed";

/// What becomes of one object.
#[derive(Clone, Copy, Debug, PartialEq, Eq, Structural)]
pub enum Action {
    /// Its bytes are copied to the destination under the same key.
    Replicate,
    /// Both copies are read and compared before anything is decided.
    Reverify,
    /// It is left alone.
    Skip,
    /// It could not be moved. No plan holds this, only the outcome of a run.
    Failed,
}

impl Action {
    pub open spec fn word(self) -> Seq<char> {
        match self {
            Action::Replicate => REPLICATE_ACTION_REPLICATE@,
            Action::Reverify => REPLICATE_ACTION_REVERIFY@,
            Action::Skip => PLAN_ACTION_SKIP@,
            Action::Failed => REPLICATE_ACTION_FAILED@,
        }
    }

    /// The word that stands for the action in every format.
    pub fn slug(self) -> (s: &'static str)
        ensures
            s@ == self.word(),
    {
        match self {
            Action::Replicate => REPLICATE_ACTION_REPLICATE,
            Action::Reverify => REPLICATE_ACTION_REVERIFY,
            Action::Skip => PLAN_ACTION_SKIP,
            Action::Failed => REPLICATE_ACTION_FAILED,
        }
    }

    /// Whether the action reads the object's bytes.
    pub open spec fn reads(self) -> bool {
        self == Action::Replicate || self == Action::Reverify
    }

    pub fn reads_bytes(self) -> (r: bool)
        ensures
            r == self.reads(),
    {
        match self {
            Action::Replicate | Action::Reverify => true,
            _ => false,
        }
    }

    /// Whether the action is worth a row: everything but a skip.
    pub fn is_action(self) -> (r: bool)
        ensures
            r == (self != Action::Skip),
    {
        match self {
            Action::Skip => false,
            _ => true,
        }
    }
}

/// No two actions share a word.
pub proof fn action_words_are_distinct(a: Action, b: Action)
    requires
        a.word() == b.word(),
    ensures
        a == b,
{
    reveal_strlit("replicate");
    reveal_strlit("reverify");
    reveal_strlit("skip");
    reveal_strlit("failed");
    assert(REPLICATE_ACTION_REPLICATE@.len() == 9);
    assert(REPLICATE_ACTION_REVERIFY@.len() == 8);
    assert(PLAN_ACTION_SKIP@.len() == 4);
    assert(REPLICATE_ACTION_FAILED@.len() == 6);
}

/// One object, and what becomes of it.
#[derive(Debug)]
pub struct Item {
    pub action: Action,
    /// The key, exactly as the source spells it.
    pub key: String,
    /// The size at the source.
    pub size: u64,
    /// The word for why.
    pub reason: &'static str,
}

impl Item {
    /// Whether this is the item with these four parts.
    pub open spec fn is(self, action: Action, key: Seq<char>, size: u64, reason: Seq<char>) -> bool {
        &&& self.action == action
        &&& self.key@ == key
        &&& self.size == size
        &&& self.reason@ == reason
    }

    /// The same object with another end.
    pub fn ending(&self, action: Action, reason: &'static str) -> (r: Item)
        ensures
            r.is(action, self.key@, self.size, reason@),
    {
        Item { action, key: self.key.clone(), size: self.size, reason }
    }
}

impl Clone for Item {
    fn clone(&self) -> (r: Item)
        ensures
            r == *self,
    {
        Item { action: self.action, key: self.key.clone(), size: self.size, reason: self.reason }
    }
}

/// The counts of a replication.
#[derive(Clone, Copy, Debug, PartialEq, Eq, Structural)]
pub struct Summary {
    /// The objects that the source holds.
    pub objects: u64,
    /// The objects that are copied.
    pub replicated: u64,
    /// The objects that are read from both stores and found the same.
    pub reverified: u64,
    /// The objects that are taken to be there because something of that key and size is.
    pub skipped: u64,
    /// The objects that could not be moved.
    pub failed: u64,
    /// The bytes that are written. In a plan this is the least that it can be.
    pub bytes: u64,
    /// The objects that only the destination holds.
    pub extra: u64,
}

impl Default for Summary {
    fn default() -> (s: Summary)
        ensures
            s == Summary::nothing(0, 0),
    {
        Summary {
            objects: 0,
            replicated: 0,
            reverified: 0,
            skipped: 0,
            failed: 0,
            bytes: 0,
            extra: 0,
        }
    }
}

impl Summary {
    /// The counts before anything has been decided.
    pub open spec fn nothing(objects: u64, extra: u64) -> Summary {
        Summary {
            objects,
            replicated: 0,
            reverified: 0,
            skipped: 0,
            failed: 0,
            bytes: 0,
            extra,
        }
    }

    /// Whether one more object with that end can be counted.
    pub open spec fn has_room(self, action: Action, size: u64) -> bool {
        match action {
            Action::Replicate => self.replicated < u64::MAX && self.bytes + size <= u64::MAX,
            Action::Reverify => self.reverified < u64::MAX,
            Action::Skip => self.skipped < u64::MAX,
            Action::Failed => self.failed < u64::MAX,
        }
    }

    /// The counts with one more object. Only a copy counts as bytes written.
    pub open spec fn with(self, action: Action, size: u64) -> Summary {
        match action {
            Action::Replicate => Summary {
                replicated: (self.replicated + 1) as u64,
                bytes: (self.bytes + size) as u64,
                ..self
            },
            Action::Reverify => Summary { reverified: (self.reverified + 1) as u64, ..self },
            Action::Skip => Summary { skipped: (self.skipped + 1) as u64, ..self },
            Action::Failed => Summary { failed: (self.failed + 1) as u64, ..self },
        }
    }

    /// The counts over a sequence of objects.
    pub open spec fn over(self, items: Seq<Item>) -> Summary
        decreases items.len(),
    {
        if items.len() == 0 {
            self
        } else {
            self.over(items.drop_last()).with(items.last().action, items.last().size)
        }
    }

    /// Counts one more object.
    pub fn count(&mut self, action: Action, size: u64)
        requires
            old(self).has_room(action, size),
        ensures
            *final(self) == old(self).with(action, size),
    {
        match action {
            Action::Replicate => {
                self.replicated = self.replicated + 1;
                self.bytes = self.bytes + size;
            },
            Action::Reverify => {
                self.reverified = self.reverified + 1;
            },
            Action::Skip => {
                self.skipped = self.skipped + 1;
            },
            Action::Failed => {
                self.failed = self.failed + 1;
            },
        }
    }

    /// How many objects have been counted.
    pub open spec fn counted(self) -> nat {
        (self.replicated + self.reverified + self.skipped + self.failed) as nat
    }
}

/// The keys of items.
pub open spec fn item_keys(items: Seq<Item>) -> Seq<Seq<char>> {
    items.map_values(|i: Item| i.key@)
}

/// The sizes of the items that were copied.
pub open spec fn written(items: Seq<Item>) -> nat
    decreases items.len(),
{
    if items.len() == 0 {
        0
    } else {
        written(items.drop_last()) + (if items.last().action == Action::Replicate {
            items.last().size as nat
        } else {
            0
        })
    }
}

/// The sizes of the items whose bytes are read.
pub open spec fn egress(items: Seq<Item>) -> nat
    decreases items.len(),
{
    if items.len() == 0 {
        0
    } else {
        egress(items.drop_last()) + (if items.last().action.reads() {
            items.last().size as nat
        } else {
            0
        })
    }
}

/// Every object is counted once, under what became of it, and the bytes are those of the
/// copies. As long as the bytes of the copies can be summed, no count runs over.
pub proof fn every_object_is_counted_once(objects: u64, extra: u64, items: Seq<Item>)
    requires
        items.len() <= u64::MAX,
        written(items) <= u64::MAX,
    ensures
        ({
            let s = Summary::nothing(objects, extra).over(items);
            &&& s.counted() == items.len()
            &&& s.bytes == written(items)
            &&& s.objects == objects
            &&& s.extra == extra
        }),
    decreases items.len(),
{
    if items.len() > 0 {
        every_object_is_counted_once(objects, extra, items.drop_last());
    }
}

/// No more is written than is read.
pub proof fn lemma_written_is_read(items: Seq<Item>)
    ensures
        written(items) <= egress(items),
    decreases items.len(),
{
    if items.len() > 0 {
        lemma_written_is_read(items.drop_last());
    }
}

/// What is read never shrinks as a plan goes on.
pub proof fn lemma_egress_grows(items: Seq<Item>, n: int)
    requires
        0 <= n <= items.len(),
    ensures
        egress(items.take(n)) <= egress(items),
    decreases items.len() - n,
{
    if n < items.len() {
        lemma_egress_grows(items, n + 1);
        assert(items.take(n + 1).drop_last() =~= items.take(n));
    } else {
        assert(items.take(n) =~= items);
    }
}

/// What becomes of an object of that size, given what the destination holds under its key.
pub open spec fn decided(size: u64, at_destination: Option<u64>, verify: VerifyMode) -> Action {
    match at_destination {
        None => Action::Replicate,
        Some(stored) => if stored != size {
            Action::Replicate
        } else if verify == VerifyMode::Strict {
            Action::Reverify
        } else {
            Action::Skip
        },
    }
}

/// The word for why.
pub open spec fn because(size: u64, at_destination: Option<u64>) -> Seq<char> {
    match at_destination {
        None => PLAN_REASON_MISSING@,
        Some(stored) => if stored != size {
            PLAN_REASON_SIZE@
        } else {
            PLAN_REASON_EXISTS@
        },
    }
}

/// Decides what becomes of one object, and says why.
pub fn classify(size: u64, at_destination: Option<u64>, verify: VerifyMode) -> (r: (
    Action,
    &'static str,
))
    ensures
        r.0 == decided(size, at_destination, verify),
        r.1@ == because(size, at_destination),
{
    match at_destination {
        None => (Action::Replicate, PLAN_REASON_MISSING),
        Some(stored) => {
            if stored != size {
                return (Action::Replicate, PLAN_REASON_SIZE);
            }
            match verify {
                VerifyMode::Strict => (Action::Reverify, PLAN_REASON_EXISTS),
                VerifyMode::Checksum | VerifyMode::Sample => (Action::Skip, PLAN_REASON_EXISTS),
            }
        },
    }
}

/// Whether `item` is what becomes of an object.
pub open spec fn plans(item: Item, o: Stored, at_destination: Objects, verify: VerifyMode) -> bool {
    let there = at_destination.holds(o.key@);
    item.is(decided(o.size, there, verify), o.key@, o.size, because(o.size, there))
}

/// The sizes of the objects that a plan would read from the source.
pub open spec fn to_read(s: Seq<Stored>, at_destination: Objects, verify: VerifyMode) -> nat
    decreases s.len(),
{
    if s.len() == 0 {
        0
    } else {
        let o = s.last();
        to_read(s.drop_last(), at_destination, verify) + (if decided(
            o.size,
            at_destination.holds(o.key@),
            verify,
        ).reads() {
            o.size as nat
        } else {
            0
        })
    }
}

proof fn lemma_to_read_grows(
    s: Seq<Stored>,
    at_destination: Objects,
    verify: VerifyMode,
    n: int,
)
    requires
        0 <= n <= s.len(),
    ensures
        to_read(s.take(n), at_destination, verify) <= to_read(s, at_destination, verify),
    decreases s.len() - n,
{
    if n < s.len() {
        lemma_to_read_grows(s, at_destination, verify, n + 1);
        assert(s.take(n + 1).drop_last() =~= s.take(n));
    } else {
        assert(s.take(n) =~= s);
    }
}

/// The bytes that a plan would read from the source, where they can be counted.
pub fn reading_size(at_source: &Objects, at_destination: &Objects, verify: VerifyMode) -> (r: Option<
    u64,
>)
    ensures
        match r {
            Some(n) => n == to_read(at_source.contents(), *at_destination, verify),
            None => to_read(at_source.contents(), *at_destination, verify) > u64::MAX,
        },
{
    let ghost all = at_source.contents();
    let mut sum: u64 = 0;
    let mut i: usize = 0;
    while i < at_source.len()
        invariant
            i <= all.len(),
            all == at_source.contents(),
            sum == to_read(all.take(i as int), *at_destination, verify),
        decreases all.len() - i,
    {
        let o = at_source.at(i);
        proof {
            assert(all.take(i + 1).drop_last() =~= all.take(i as int));
            assert(all.take(i + 1).last() == all[i as int]);
            lemma_to_read_grows(all, *at_destination, verify, i + 1);
        }
        let (action, _) = classify(o.size, at_destination.get(o.key.as_str()), verify);
        if action.reads_bytes() {
            match sum.checked_add(o.size) {
                Some(n) => {
                    sum = n;
                },
                None => {
                    return None;
                },
            }
        }
        i = i + 1;
    }
    proof {
        assert(all.take(i as int) =~= all);
    }
    Some(sum)
}

/// How many of the objects at the destination the source does not hold.
pub open spec fn only_there(at_source: Objects, there: Seq<Stored>) -> nat
    decreases there.len(),
{
    if there.len() == 0 {
        0
    } else {
        only_there(at_source, there.drop_last()) + (if at_source.holds(there.last().key@) is None {
            1nat
        } else {
            0
        })
    }
}

/// A whole replication, decided.
#[derive(Debug)]
pub struct Plan {
    items: Vec<Item>,
    summary: Summary,
}

impl Default for Plan {
    fn default() -> (p: Plan)
        ensures
            p.objects().len() == 0,
            p.counts() == Summary::nothing(0, 0),
    {
        Plan { items: Vec::new(), summary: Summary::default() }
    }
}

/// The objects at the destination that the source does not hold.
fn extras(at_source: &Objects, at_destination: &Objects) -> (n: u64)
    ensures
        n == only_there(*at_source, at_destination.contents()),
{
    let ghost there = at_destination.contents();
    let mut n: u64 = 0;
    let mut i: usize = 0;
    while i < at_destination.len()
        invariant
            i <= there.len(),
            there == at_destination.contents(),
            n == only_there(*at_source, there.take(i as int)),
            n <= i,
        decreases there.len() - i,
    {
        let o = at_destination.at(i);
        proof {
            assert(there.take(i + 1).drop_last() =~= there.take(i as int));
            assert(there.take(i + 1).last() == there[i as int]);
        }
        if at_source.get(o.key.as_str()).is_none() {
            n = n + 1;
        }
        i = i + 1;
    }
    proof {
        assert(there.take(i as int) =~= there);
    }
    n
}

impl Plan {
    /// Decides a plan from two listings, if both came through. A listing that did not is
    /// never taken for an empty one.
    pub fn build(at_source: Result<Objects>, at_destination: Result<Objects>, verify: VerifyMode) -> (r:
        Result<Plan>)
        requires
            (at_source is Ok && at_destination is Ok) ==> to_read(
                at_source->Ok_0.contents(),
                at_destination->Ok_0,
                verify,
            ) <= u64::MAX,
        ensures
            match r {
                Ok(p) => {
                    &&& at_source matches Ok(s)
                    &&& at_destination matches Ok(d)
                    &&& is_plan(p.objects(), s, d, verify)
                    &&& ascending(item_keys(p.objects()))
                    &&& p.counts() == Summary::nothing(
                        s.contents().len() as u64,
                        only_there(s, d.contents()) as u64,
                    ).over(p.objects())
                },
                Err(e) => match at_source {
                    Err(first) => e == first,
                    Ok(_) => at_destination matches Err(second) && e == second,
                },
            },
    {
        let at_source = match at_source {
            Ok(s) => s,
            Err(e) => {
                return Err(e);
            },
        };
        let at_destination = match at_destination {
            Ok(d) => d,
            Err(e) => {
                return Err(e);
            },
        };
        Ok(Plan::decide(&at_source, &at_destination, verify))
    }

    /// The objects and what becomes of them, in the order of the source's keys.
    pub closed spec fn objects(self) -> Seq<Item> {
        self.items@
    }

    pub closed spec fn counts(self) -> Summary {
        self.summary
    }

    #[verifier::type_invariant]
    spec fn countable(self) -> bool {
        &&& egress(self.items@) <= u64::MAX
        &&& self.summary.replicated + self.summary.reverified <= u64::MAX
    }

    /// How many objects the plan reads.
    pub fn reading(&self) -> (n: u64)
        ensures
            n == self.counts().replicated + self.counts().reverified,
    {
        proof {
            use_type_invariant(self);
        }
        self.summary.replicated + self.summary.reverified
    }

    /// Decides a plan from what the two stores hold. Its items stand in ascending order of
    /// their keys.
    pub fn decide(at_source: &Objects, at_destination: &Objects, verify: VerifyMode) -> (p: Plan)
        requires
            to_read(at_source.contents(), *at_destination, verify) <= u64::MAX,
        ensures
            is_plan(p.objects(), *at_source, *at_destination, verify),
            ascending(keys(at_source.contents())),
            ascending(item_keys(p.objects())),
            p.counts() == Summary::nothing(
                at_source.contents().len() as u64,
                only_there(*at_source, at_destination.contents()) as u64,
            ).over(p.objects()),
            egress(p.objects()) == to_read(at_source.contents(), *at_destination, verify),
    {
        let ghost all = at_source.contents();
        let extra = extras(at_source, at_destination);
        let ghost first = Summary::nothing(all.len() as u64, extra);
        let mut items: Vec<Item> = Vec::new();
        let mut summary = Summary { objects: at_source.len() as u64, extra, ..Summary::default() };
        let mut i: usize = 0;
        while i < at_source.len()
            invariant
                i <= all.len(),
                all.len() <= usize::MAX,
                all == at_source.contents(),
                to_read(all, *at_destination, verify) <= u64::MAX,
                items@.len() == i,
                forall|j: int|
                    0 <= j < i ==> plans(#[trigger] items@[j], all[j], *at_destination, verify),
                egress(items@) == to_read(all.take(i as int), *at_destination, verify),
                first == Summary::nothing(all.len() as u64, extra),
                summary == first.over(items@),
            decreases all.len() - i,
        {
            let o = at_source.at(i);
            let (action, reason) = classify(o.size, at_destination.get(o.key.as_str()), verify);
            let ghost before = items@;
            proof {
                lemma_to_read_grows(all, *at_destination, verify, i as int);
                lemma_to_read_grows(all, *at_destination, verify, i + 1);
                assert(all.take(i + 1).drop_last() =~= all.take(i as int));
                assert(all.take(i + 1).last() == all[i as int]);
                lemma_written_is_read(before);
                every_object_is_counted_once(all.len() as u64, extra, before);
            }
            summary.count(action, o.size);
            items.push(Item { action, key: o.key.clone(), size: o.size, reason });
            proof {
                assert(items@.drop_last() =~= before);
            }
            i = i + 1;
        }
        proof {
            assert(all.take(i as int) =~= all);
            lemma_written_is_read(items@);
            every_object_is_counted_once(all.len() as u64, extra, items@);
            assert(item_keys(items@) =~= keys(all));
        }
        Plan { items, summary }
    }

    /// Every object, in the order of the source's keys.
    pub fn items(&self) -> (r: &Vec<Item>)
        ensures
            r@ == self.objects(),
    {
        &self.items
    }

    pub fn summary(&self) -> (s: Summary)
        ensures
            s == self.counts(),
    {
        self.summary
    }

    /// Whether the plan would read no byte at all.
    pub fn is_empty(&self) -> (r: bool)
        ensures
            r == idle(self.objects()),
    {
        let mut i: usize = 0;
        while i < self.items.len()
            invariant
                i <= self.items@.len(),
                forall|j: int| 0 <= j < i ==> !(#[trigger] self.items@[j]).action.reads(),
            decreases self.items@.len() - i,
        {
            if self.items[i].action.reads_bytes() {
                assert(self.objects()[i as int].action.reads());
                return false;
            }
            i = i + 1;
        }
        true
    }

    /// The bytes that the run will read from the source.
    pub fn egress_bytes(&self) -> (n: u64)
        ensures
            n == egress(self.objects()),
    {
        proof {
            use_type_invariant(self);
        }
        let ghost all = self.items@;
        let mut n: u64 = 0;
        let mut i: usize = 0;
        while i < self.items.len()
            invariant
                i <= all.len(),
                all == self.items@,
                egress(all) <= u64::MAX,
                n == egress(all.take(i as int)),
            decreases all.len() - i,
        {
            proof {
                assert(all.take(i + 1).drop_last() =~= all.take(i as int));
                assert(all.take(i + 1).last() == all[i as int]);
                lemma_egress_grows(all, i + 1);
            }
            if self.items[i].action.reads_bytes() {
                n = n + self.items[i].size;
            }
            i = i + 1;
        }
        proof {
            assert(all.take(i as int) =~= all);
        }
        n
    }
}

/// Whether a plan reads nothing.
pub open spec fn idle(items: Seq<Item>) -> bool {
    forall|i: int| 0 <= i < items.len() ==> !(#[trigger] items[i]).action.reads()
}

/// Whether `items` is a plan for these listings.
pub open spec fn is_plan(
    items: Seq<Item>,
    at_source: Objects,
    at_destination: Objects,
    verify: VerifyMode,
) -> bool {
    &&& items.len() == at_source.contents().len()
    &&& forall|i: int|
        0 <= i < items.len() ==> plans(
            #[trigger] items[i],
            at_source.contents()[i],
            at_destination,
            verify,
        )
}

/// Whether the destination holds, under every key of the source, something of the same size.
pub open spec fn complete(at_source: Objects, at_destination: Objects) -> bool {
    forall|i: int|
        0 <= i < at_source.contents().len() ==> at_destination.holds(
            (#[trigger] at_source.contents()[i]).key@,
        ) == Some(at_source.contents()[i].size)
}

/// Over a complete replica a plan moves nothing, and unless it is strict it reads nothing
/// either.
pub proof fn a_complete_replica_moves_nothing(
    items: Seq<Item>,
    at_source: Objects,
    at_destination: Objects,
    verify: VerifyMode,
)
    requires
        is_plan(items, at_source, at_destination, verify),
        complete(at_source, at_destination),
    ensures
        forall|i: int| 0 <= i < items.len() ==> (#[trigger] items[i]).action != Action::Replicate,
        verify != VerifyMode::Strict ==> forall|i: int|
            0 <= i < items.len() ==> !(#[trigger] items[i]).action.reads(),
{
    assert forall|i: int| 0 <= i < items.len() implies (#[trigger] items[i]).action
        != Action::Replicate && (verify != VerifyMode::Strict ==> !items[i].action.reads()) by {
        assert(plans(items[i], at_source.contents()[i], at_destination, verify));
    }
}

/// A plan reads nothing exactly where the source is empty, or where the destination is complete
/// and the run is not strict. What only the destination holds does not matter.
pub proof fn a_plan_is_idle_only_over_a_complete_replica(
    items: Seq<Item>,
    at_source: Objects,
    at_destination: Objects,
    verify: VerifyMode,
)
    requires
        is_plan(items, at_source, at_destination, verify),
    ensures
        idle(items) <==> at_source.contents().len() == 0 || (verify != VerifyMode::Strict
            && complete(at_source, at_destination)),
{
    let s = at_source.contents();
    assert forall|i: int| 0 <= i < s.len() implies plans(
        #[trigger] items[i],
        s[i],
        at_destination,
        verify,
    ) by {}
    if idle(items) && s.len() > 0 {
        assert(!items[0].action.reads());
        assert forall|i: int| 0 <= i < s.len() implies at_destination.holds(
            (#[trigger] s[i]).key@,
        ) == Some(s[i].size) by {
            assert(!items[i].action.reads());
        }
    }
    if verify != VerifyMode::Strict && complete(at_source, at_destination) {
        a_complete_replica_moves_nothing(items, at_source, at_destination, verify);
    }
}

/// A strict plan assumes nothing: whatever it does not copy, it reads from both stores.
pub proof fn strict_assumes_nothing(
    items: Seq<Item>,
    at_source: Objects,
    at_destination: Objects,
    i: int,
)
    requires
        is_plan(items, at_source, at_destination, VerifyMode::Strict),
        0 <= i < items.len(),
    ensures
        items[i].action.reads(),
{
    assert(plans(items[i], at_source.contents()[i], at_destination, VerifyMode::Strict));
}

/// A plan leaves nothing out: every object of the source is read, or is already there with
/// its size. No plan holds a failure.
pub proof fn a_plan_covers_the_source(
    items: Seq<Item>,
    at_source: Objects,
    at_destination: Objects,
    verify: VerifyMode,
    i: int,
)
    requires
        is_plan(items, at_source, at_destination, verify),
        0 <= i < at_source.contents().len(),
    ensures
        items[i].key@ == at_source.contents()[i].key@,
        items[i].action != Action::Failed,
        items[i].action.reads() || at_destination.holds(items[i].key@) == Some(items[i].size),
{
    assert(plans(items[i], at_source.contents()[i], at_destination, verify));
}

/// An object is copied exactly where the destination does not hold it with its size, whatever
/// the mode; it is read back from both stores exactly where the destination holds it with its
/// size and the run is strict, and is skipped exactly where it is there and the run is not
/// strict. The word for why says which of the three the destination has: nothing, another size,
/// or the same.
pub proof fn an_object_that_is_not_there_is_copied(
    items: Seq<Item>,
    at_source: Objects,
    at_destination: Objects,
    verify: VerifyMode,
    i: int,
)
    requires
        is_plan(items, at_source, at_destination, verify),
        0 <= i < at_source.contents().len(),
    ensures
        ({
            let o = at_source.contents()[i];
            let there = at_destination.holds(o.key@);
            &&& items.len() == at_source.contents().len()
            &&& items[i].key@ == o.key@
            &&& items[i].size == o.size
            &&& items[i].action == Action::Replicate <==> there != Some(o.size)
            &&& items[i].action == Action::Reverify <==> there == Some(o.size) && verify
                == VerifyMode::Strict
            &&& items[i].action == Action::Skip <==> there == Some(o.size) && (verify
                == VerifyMode::Checksum || verify == VerifyMode::Sample)
            &&& there is None ==> items[i].reason@ == PLAN_REASON_MISSING@
            &&& there is Some && there != Some(o.size) ==> items[i].reason@ == PLAN_REASON_SIZE@
            &&& there == Some(o.size) ==> items[i].reason@ == PLAN_REASON_EXISTS@
        }),
{
    assert(plans(items[i], at_source.contents()[i], at_destination, verify));
}

/// What a listing says of a key after one more page.
pub open spec fn overlaid(page: Seq<Stored>, key: Seq<char>, before: Option<u64>) -> Option<u64>
    decreases page.len(),
{
    if page.len() == 0 {
        before
    } else if page.last().key@ == key {
        Some(page.last().size)
    } else {
        overlaid(page.drop_last(), key, before)
    }
}

/// A listing that arrives page by page.
#[derive(Debug)]
pub struct Pages {
    pub objects: Objects,
    /// Where the next page begins.
    pub cursor: Option<String>,
}

impl Default for Pages {
    fn default() -> (p: Pages)
        ensures
            p.objects.contents().len() == 0,
            p.cursor is None,
    {
        Pages { objects: Objects::default(), cursor: None }
    }
}

impl Pages {
    /// Takes one page, and says whether it was the last. A store that hands its cursor back
    /// unchanged would be listed for ever, so that is an error.
    pub fn take(&mut self, page: Vec<Stored>, next: Option<String>) -> (r: Result<bool>)
        ensures
            ascending(keys(final(self).objects.contents())),
            forall|k: Seq<char>| #[trigger]
                final(self).objects.holds(k) == overlaid(page@, k, old(self).objects.holds(k)),
            match r {
                Ok(last) => {
                    &&& last == (next is None)
                    &&& next is Some ==> view_option(final(self).cursor) == view_option(next)
                    &&& next is Some ==> view_option(next) != view_option(old(self).cursor)
                    &&& next is None ==> final(self).cursor == old(self).cursor
                },
                Err(e) => {
                    &&& next is Some
                    &&& view_option(next) == view_option(old(self).cursor)
                    &&& final(self).cursor == old(self).cursor
                    &&& e.is(
                        ExitCode::TemporaryError,
                        "the store returned the same listing cursor twice ("@ + next->0@
                            + "), so its objects cannot be enumerated"@,
                        None,
                    )
                },
            },
    {
        let mut i: usize = 0;
        proof {
            assert(page@.take(0) =~= Seq::empty());
        }
        while i < page.len()
            invariant
                i <= page@.len(),
                self.cursor == old(self).cursor,
                forall|k: Seq<char>| #[trigger]
                    self.objects.holds(k) == overlaid(
                        page@.take(i as int),
                        k,
                        old(self).objects.holds(k),
                    ),
            decreases page@.len() - i,
        {
            let ghost before = self.objects;
            self.objects.insert(page[i].key.clone(), page[i].size);
            proof {
                let part = page@.take(i + 1);
                assert(part.drop_last() =~= page@.take(i as int));
                assert(part.last() == page@[i as int]);
                assert forall|k: Seq<char>| #[trigger]
                    self.objects.holds(k) == overlaid(part, k, old(self).objects.holds(k)) by {
                    assert(before.holds(k) == overlaid(
                        page@.take(i as int),
                        k,
                        old(self).objects.holds(k),
                    ));
                }
            }
            i = i + 1;
        }
        proof {
            assert(page@.take(i as int) =~= page@);
            use_type_invariant(&self.objects);
        }
        let next = match next {
            None => {
                return Ok(true);
            },
            Some(n) => n,
        };
        let repeated = match &self.cursor {
            Some(c) => text::same(c.as_str(), next.as_str()),
            None => false,
        };
        if repeated {
            return Err(
                CliError::new(
                    ExitCode::TemporaryError,
                    text::cat3(
                        "the store returned the same listing cursor twice (",
                        next.as_str(),
                        "), so its objects cannot be enumerated",
                    ),
                ),
            );
        }
        self.cursor = Some(next);
        Ok(false)
    }
}

/// How many items have that action.
pub open spec fn items_with(items: Seq<Item>, action: Action) -> nat {
    items.filter(|i: Item| i.action == action).len()
}

proof fn lemma_items_with(items: Seq<Item>, action: Action)
    requires
        items.len() > 0,
    ensures
        items_with(items, action) == items_with(items.drop_last(), action) + (if items.last().action
            == action {
            1nat
        } else {
            0
        }),
{
    reveal(Seq::filter);
}

/// Each count of a summary is the number of the objects that came to that end: the copies are
/// counted as copies, what was read back as read back, and so on.
pub proof fn objects_are_counted_under_what_became_of_them(
    objects: u64,
    extra: u64,
    items: Seq<Item>,
)
    requires
        items.len() <= u64::MAX,
        written(items) <= u64::MAX,
    ensures
        ({
            let s = Summary::nothing(objects, extra).over(items);
            &&& s.replicated == items_with(items, Action::Replicate)
            &&& s.reverified == items_with(items, Action::Reverify)
            &&& s.skipped == items_with(items, Action::Skip)
            &&& s.failed == items_with(items, Action::Failed)
        }),
    decreases items.len(),
{
    every_object_is_counted_once(objects, extra, items);
    if items.len() > 0 {
        let fewer = items.drop_last();
        objects_are_counted_under_what_became_of_them(objects, extra, fewer);
        every_object_is_counted_once(objects, extra, fewer);
        lemma_items_with(items, Action::Replicate);
        lemma_items_with(items, Action::Reverify);
        lemma_items_with(items, Action::Skip);
        lemma_items_with(items, Action::Failed);
    } else {
        reveal(Seq::filter);
    }
}

/// The bytes of a summary are those of the copies alone: one more copy adds its size, and any
/// other end adds nothing.
pub proof fn only_copies_count_as_bytes(s: Summary, action: Action, size: u64)
    requires
        s.has_room(action, size),
    ensures
        action == Action::Replicate ==> s.with(action, size).bytes == s.bytes + size,
        action != Action::Replicate ==> s.with(action, size).bytes == s.bytes,
        s.with(action, size).objects == s.objects,
        s.with(action, size).extra == s.extra,
{
}

/// The objects that only the destination holds are those of its keys that the source lacks.
pub proof fn extras_are_what_the_source_lacks(at_source: Objects, there: Seq<Stored>)
    ensures
        only_there(at_source, there) == there.filter(
            |o: Stored| at_source.holds(o.key@) is None,
        ).len(),
    decreases there.len(),
{
    reveal(Seq::filter);
    if there.len() > 0 {
        extras_are_what_the_source_lacks(at_source, there.drop_last());
    }
}

/// What a plan reads is every object that it copies or reads back: what the destination lacks,
/// what it holds with another size, and in a strict run all the rest.
pub proof fn a_plan_reads_what_is_not_known_to_be_there(
    s: Seq<Stored>,
    at_destination: Objects,
    verify: VerifyMode,
    o: Stored,
)
    ensures
        to_read(s.push(o), at_destination, verify) == to_read(s, at_destination, verify) + (if verify
            == VerifyMode::Strict || at_destination.holds(o.key@) != Some(o.size) {
            o.size as nat
        } else {
            0
        }),
        to_read(Seq::empty(), at_destination, verify) == 0,
{
    assert(s.push(o).drop_last() =~= s);
}

/// A page supersedes what came before it, key by key; within a page the last word counts; and a
/// key that is not in the page keeps what it had.
pub proof fn a_later_page_has_the_last_word(
    page: Seq<Stored>,
    key: Seq<char>,
    before: Option<u64>,
    i: int,
)
    ensures
        0 <= i < page.len() && page[i].key@ == key && (forall|j: int|
            i < j < page.len() ==> (#[trigger] page[j]).key@ != key) ==> overlaid(page, key, before)
            == Some(page[i].size),
        (forall|j: int| 0 <= j < page.len() ==> (#[trigger] page[j]).key@ != key) ==> overlaid(
            page,
            key,
            before,
        ) == before,
    decreases page.len(),
{
    if page.len() > 0 {
        let front = page.drop_last();
        a_later_page_has_the_last_word(front, key, before, i);
        assert(page[page.len() - 1] == page.last());
        assert forall|j: int| 0 <= j < front.len() implies #[trigger] front[j] == page[j] by {}
        if i == page.len() - 1 && page[i].key@ == key {
        } else if 0 <= i < page.len() - 1 && page[i].key@ == key && (forall|j: int|
            i < j < page.len() ==> (#[trigger] page[j]).key@ != key) {
            assert(page[page.len() - 1].key@ != key);
            assert forall|j: int| i < j < front.len() implies (#[trigger] front[j]).key@ != key by {
                assert(page[j].key@ != key);
            }
        }
        if forall|j: int| 0 <= j < page.len() ==> (#[trigger] page[j]).key@ != key {
            assert forall|j: int| 0 <= j < front.len() implies (#[trigger] front[j]).key@ != key by {
                assert(page[j].key@ != key);
            }
        }
    }
}

/// A copy and a comparison read an object's bytes, and nothing else does. What is read and what
/// is written are summed object by object.
pub proof fn only_copies_and_comparisons_read(items: Seq<Item>, item: Item)
    ensures
        item.action.reads() <==> item.action == Action::Replicate || item.action
            == Action::Reverify,
        egress(items.push(item)) == egress(items) + (if item.action == Action::Replicate
            || item.action == Action::Reverify {
            item.size as nat
        } else {
            0
        }),
        written(items.push(item)) == written(items) + (if item.action == Action::Replicate {
            item.size as nat
        } else {
            0
        }),
        egress(Seq::empty()) == 0,
        written(Seq::empty()) == 0,
{
    assert(items.push(item).drop_last() =~= items);
}

/// An item that is said to have an action, a key, a size and a reason has all four.
pub proof fn an_item_has_its_four_parts(
    item: Item,
    action: Action,
    key: Seq<char>,
    size: u64,
    reason: Seq<char>,
)
    ensures
        item.is(action, key, size, reason) <==> item.action == action && item.key@ == key && item.size
            == size && item.reason@ == reason,
{
}

/// The keys of items are theirs, one for one and in order.
pub proof fn keys_are_those_of_the_items(items: Seq<Item>, i: int)
    ensures
        item_keys(items).len() == items.len(),
        0 <= i < items.len() ==> item_keys(items)[i] == items[i].key@,
{
}

} // verus!
