//! What a replication tells its caller.
use vstd::prelude::*;

use crate::output;
use crate::output::{size_text, Format, Units};
use crate::replicate::plan::{Action, Item, Summary};
use crate::replicate::target::Store;

verus! {

/// The result of one run.
#[derive(Debug)]
pub struct Report {
    pub command: &'static str,
    /// The source, as the user wrote it.
    pub source: String,
    pub source_standing: &'static str,
    /// The destination, as the user wrote it.
    pub destination: String,
    pub destination_standing: &'static str,
    /// How hard the bytes were checked.
    pub verify_mode: String,
    /// Whether nothing was to be changed. A count of copies is then of what would be copied.
    pub dry_run: bool,
    pub summary: Summary,
    /// The objects that something became of.
    pub objects: Vec<Item>,
}

/// The items worth a row, in their order.
pub open spec fn shown(items: Seq<Item>) -> Seq<Item>
    decreases items.len(),
{
    if items.len() == 0 {
        Seq::empty()
    } else if items.last().action != Action::Skip {
        shown(items.drop_last()).push(items.last())
    } else {
        shown(items.drop_last())
    }
}

/// One row of the table: what became of the object, its size, and its key.
#[derive(Debug)]
pub struct ReportRow {
    pub action: &'static str,
    pub size: String,
    pub key: String,
}

/// Whether the rows show these items, one for one.
pub open spec fn rows_show(rows: Seq<ReportRow>, items: Seq<Item>, units: Units) -> bool {
    rows.len() == items.len() && forall|i: int|
        0 <= i < items.len() ==> {
            &&& (#[trigger] rows[i]).action@ == items[i].action.word()
            &&& rows[i].size@ == size_text(items[i].size as nat, units)
            &&& rows[i].key@ == items[i].key@
        }
}

/// What goes to standard output.
#[derive(Debug)]
pub enum Rendering {
    /// Nothing at all, not even a heading.
    Nothing,
    Table(Vec<ReportRow>),
    /// The report as one document.
    Document,
    /// Each object as a document on a line of its own.
    Lines(usize),
}

impl Report {
    /// Puts a report together. What was skipped is counted and not listed.
    pub fn new(
        command: &'static str,
        source: &Store,
        destination: &Store,
        verify_mode: String,
        dry_run: bool,
        summary: Summary,
        items: &Vec<Item>,
    ) -> (r: Report)
        ensures
            r.command@ == command@,
            r.source@ == source.spec@,
            r.source_standing@ == source.standing.word(),
            r.destination@ == destination.spec@,
            r.destination_standing@ == destination.standing.word(),
            r.verify_mode@ == verify_mode@,
            r.dry_run == dry_run,
            r.summary == summary,
            r.objects@ == shown(items@),
    {
        let mut objects: Vec<Item> = Vec::new();
        let mut i: usize = 0;
        proof {
            assert(items@.take(0) =~= Seq::empty());
        }
        while i < items.len()
            invariant
                i <= items@.len(),
                objects@ == shown(items@.take(i as int)),
            decreases items@.len() - i,
        {
            proof {
                assert(items@.take(i + 1).drop_last() =~= items@.take(i as int));
                assert(items@.take(i + 1).last() == items@[i as int]);
            }
            if items[i].action.is_action() {
                objects.push(items[i].clone());
            }
            i = i + 1;
        }
        proof {
            assert(items@.take(i as int) =~= items@);
        }
        Report {
            command,
            source: source.spec.clone(),
            source_standing: source.standing.slug(),
            destination: destination.spec.clone(),
            destination_standing: destination.standing.slug(),
            verify_mode,
            dry_run,
            summary,
            objects,
        }
    }

    /// What goes to standard output. Text shows nothing where there is nothing to show; the
    /// document is there always, because a program needs the zero.
    pub fn render(&self, format: Format, units: Units) -> (r: Rendering)
        ensures
            match r {
                Rendering::Nothing => format == Format::Text && self.objects@.len() == 0,
                Rendering::Table(rows) => format == Format::Text && self.objects@.len() > 0
                    && rows_show(rows@, self.objects@, units),
                Rendering::Document => format == Format::Json,
                Rendering::Lines(n) => format == Format::JsonLines && n == self.objects@.len(),
            },
    {
        match format {
            Format::Text => {
                if self.objects.len() == 0 {
                    Rendering::Nothing
                } else {
                    Rendering::Table(self.render_text(units))
                }
            },
            Format::Json => Rendering::Document,
            Format::JsonLines => Rendering::Lines(self.objects.len()),
        }
    }

    fn render_text(&self, units: Units) -> (rows: Vec<ReportRow>)
        ensures
            rows_show(rows@, self.objects@, units),
    {
        let mut rows: Vec<ReportRow> = Vec::new();
        let mut i: usize = 0;
        while i < self.objects.len()
            invariant
                i <= self.objects@.len(),
                rows_show(rows@, self.objects@.take(i as int), units),
            decreases self.objects@.len() - i,
        {
            let o = &self.objects[i];
            rows.push(
                ReportRow {
                    action: o.action.slug(),
                    size: output::bytes(o.size, units),
                    key: o.key.clone(),
                },
            );
            i = i + 1;
        }
        proof {
            assert(self.objects@.take(i as int) =~= self.objects@);
        }
        rows
    }
}

/// Every failure and every copy is listed, and nothing that was left alone is.
pub proof fn only_skips_go_unlisted(items: Seq<Item>, item: Item)
    ensures
        shown(items).contains(item) <==> items.contains(item) && item.action != Action::Skip,
    decreases items.len(),
{
    if items.len() > 0 {
        let before = items.drop_last();
        only_skips_go_unlisted(before, item);
        assert(items =~= before.push(items.last()));
        if items.contains(item) {
            let i = choose|i: int| 0 <= i < items.len() && items[i] == item;
            if i < before.len() {
                assert(before[i] == item);
            }
        }
        if before.contains(item) {
            let i = choose|i: int| 0 <= i < before.len() && before[i] == item;
            assert(items[i] == item);
        }
        assert(items[items.len() - 1] == items.last());
        let s = shown(before);
        if shown(items).contains(item) && items.last().action != Action::Skip {
            let i = choose|i: int| 0 <= i < shown(items).len() && shown(items)[i] == item;
            if i < s.len() {
                assert(s[i] == item);
            }
        }
        if s.contains(item) && items.last().action != Action::Skip {
            let i = choose|i: int| 0 <= i < s.len() && s[i] == item;
            assert(shown(items)[i] == item);
        }
        if items.last().action != Action::Skip {
            assert(shown(items)[s.len() as int] == items.last());
        }
    }
}

/// What is listed are the items that were not skipped, in their order, each as often as it is
/// there.
pub proof fn the_listing_keeps_the_order(items: Seq<Item>)
    ensures
        shown(items) == items.filter(|i: Item| i.action != Action::Skip),
    decreases items.len(),
{
    reveal(Seq::filter);
    if items.len() > 0 {
        the_listing_keeps_the_order(items.drop_last());
    }
}

/// Each row shows its own object: what became of it, its size in the units that were asked for,
/// and its key.
pub proof fn a_row_shows_its_object(rows: Seq<ReportRow>, items: Seq<Item>, units: Units, i: int)
    requires
        rows_show(rows, items, units),
    ensures
        rows.len() == items.len(),
        0 <= i < items.len() ==> {
            &&& rows[i].action@ == items[i].action.word()
            &&& rows[i].size@ == size_text(items[i].size as nat, units)
            &&& rows[i].key@ == items[i].key@
        },
{
    if 0 <= i < items.len() {
        assert(rows[i].action@ == items[i].action.word());
    }
}

} // verus!
