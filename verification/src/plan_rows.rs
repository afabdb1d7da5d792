//! From the record store to the rows that planning works on: one row per
//! active file whose item is on record, in table order.

use vstd::prelude::*;
use crate::planner::{
    disk_views, plan_organize, planned, DiskEntry, LayoutMode, OrganizePlan, PlanInput,
    PlanInputView,
};
use crate::records::{
    identifier_views, opt_view, texts, FileRecordView, FileStatus, IdentifierKind,
    IdentifierView, Item, ItemView, Library, LibraryView,
};
use crate::scanner::{item_with_id, lemma_item_with_id};
use crate::text::{append, chars_of};

verus! {

/// `names` joined by commas.
pub open spec fn comma_join(names: Seq<Seq<char>>) -> Seq<char>
    decreases names.len(),
{
    if names.len() == 0 {
        Seq::empty()
    } else if names.len() == 1 {
        names[0]
    } else {
        comma_join(names.drop_last()) + seq![','] + names.last()
    }
}

/// The authors of an item as one text, or nothing where it has none.
pub open spec fn joined_authors(names: Seq<Seq<char>>) -> Option<Seq<char>> {
    if names.len() == 0 {
        None
    } else {
        Some(comma_join(names))
    }
}

/// Whether `a` comes before `b`, or is `b`, in the order of a dictionary
/// whose alphabet is the code points.
pub open spec fn comes_first(a: Seq<char>, b: Seq<char>) -> bool
    decreases a.len(),
{
    if a.len() == 0 {
        true
    } else if b.len() == 0 {
        false
    } else if a[0] < b[0] {
        true
    } else if b[0] < a[0] {
        false
    } else {
        comes_first(a.drop_first(), b.drop_first())
    }
}

/// The greatest thirteen-digit book number among `ids`, the earliest such
/// where several are alike.
pub open spec fn greatest_isbn13(ids: Seq<IdentifierView>) -> Option<Seq<char>>
    decreases ids.len(),
{
    if ids.len() == 0 {
        None
    } else {
        let front = greatest_isbn13(ids.drop_last());
        let last = ids.last();
        if last.kind != IdentifierKind::Isbn13 {
            front
        } else {
            match front {
                None => Some(last.value),
                Some(best) => if comes_first(last.value, best) {
                    Some(best)
                } else {
                    Some(last.value)
                },
            }
        }
    }
}

/// The row for a file and its item.
pub open spec fn row_of(file: FileRecordView, item: ItemView) -> PlanInputView {
    PlanInputView {
        file_id: file.id,
        source_path: file.path,
        extension: file.extension,
        title: item.title,
        published_year: item.published_year,
        authors: joined_authors(item.authors),
        isbn13: greatest_isbn13(item.identifiers),
    }
}

/// The rows for the first `n` records: one for each that is active and
/// whose item is on record.
pub open spec fn rows_of(lib: LibraryView, n: int) -> Seq<PlanInputView>
    decreases n,
{
    if n <= 0 {
        Seq::empty()
    } else {
        let front = rows_of(lib, n - 1);
        let file = lib.files[n - 1];
        match item_with_id(lib.items, file.item_id) {
            Some(i) => if file.status == FileStatus::Active {
                front.push(row_of(file, lib.items[i]))
            } else {
                front
            },
            None => front,
        }
    }
}

/// Views of a list of rows.
pub open spec fn row_views(v: Seq<PlanInput>) -> Seq<PlanInputView> {
    Seq::new(v.len(), |i: int| v[i]@)
}

/// Whether `a` comes before `b`, or is `b`.
fn is_first(a: &Vec<char>, b: &Vec<char>) -> (r: bool)
    ensures
        r == comes_first(a@, b@),
{
    let mut i: usize = 0;
    assert(a@.subrange(0, a.len() as int) == a@);
    assert(b@.subrange(0, b.len() as int) == b@);
    while i < a.len() && i < b.len()
        invariant
            i <= a.len(),
            i <= b.len(),
            comes_first(a@, b@) == comes_first(
                a@.subrange(i as int, a.len() as int),
                b@.subrange(i as int, b.len() as int),
            ),
        decreases a.len() - i,
    {
        let ghost x = a@.subrange(i as int, a.len() as int);
        let ghost y = b@.subrange(i as int, b.len() as int);
        assert(x[0] == a@[i as int] && y[0] == b@[i as int]);
        if a[i] < b[i] {
            return true;
        }
        if b[i] < a[i] {
            return false;
        }
        assert(x.drop_first() == a@.subrange(i + 1, a.len() as int));
        assert(y.drop_first() == b@.subrange(i + 1, b.len() as int));
        i += 1;
    }
    i == a.len()
}

/// The authors of an item as one text.
fn authors_text(item: &Item) -> (r: Option<String>)
    ensures
        opt_view(r) == joined_authors(item@.authors),
{
    if item.authors.len() == 0 {
        return None;
    }
    let ghost names = texts(item.authors@);
    let mut out = item.authors[0].clone();
    let mut i: usize = 1;
    assert(names.subrange(0, 1).len() == 1);
    assert(names.subrange(0, 1)[0] == item.authors@[0]@);
    while i < item.authors.len()
        invariant
            1 <= i <= item.authors.len(),
            names == texts(item.authors@),
            out@ == comma_join(names.subrange(0, i as int)),
        decreases item.authors.len() - i,
    {
        let ghost next = names.subrange(0, i + 1);
        assert(next.drop_last() == names.subrange(0, i as int));
        assert(next.last() == item.authors@[i as int]@);
        out.push(',');
        append(&mut out, item.authors[i].as_str());
        assert(comma_join(names.subrange(0, i as int)).push(',') + item.authors@[i as int]@
            =~= comma_join(names.subrange(0, i as int)) + seq![','] + item.authors@[i as int]@);
        i += 1;
    }
    assert(names.subrange(0, i as int) == names);
    Some(out)
}

/// The greatest thirteen-digit book number of an item.
fn best_isbn13(item: &Item) -> (r: Option<String>)
    ensures
        opt_view(r) == greatest_isbn13(item@.identifiers),
{
    let ghost ids = identifier_views(item.identifiers@);
    let mut best: Option<String> = None;
    let mut i: usize = 0;
    assert(ids.subrange(0, 0) =~= Seq::<IdentifierView>::empty());
    while i < item.identifiers.len()
        invariant
            i <= item.identifiers.len(),
            ids == identifier_views(item.identifiers@),
            opt_view(best) == greatest_isbn13(ids.subrange(0, i as int)),
        decreases item.identifiers.len() - i,
    {
        let ghost next = ids.subrange(0, i + 1);
        assert(next.drop_last() == ids.subrange(0, i as int));
        assert(next.last() == item.identifiers@[i as int]@);
        let id = &item.identifiers[i];
        let thirteen = match id.kind {
            IdentifierKind::Isbn13 => true,
            _ => false,
        };
        if thirteen {
            let replace = match &best {
                None => true,
                Some(b) => !is_first(&chars_of(id.value.as_str()), &chars_of(b.as_str())),
            };
            if replace {
                best = Some(id.value.clone());
            }
        }
        i += 1;
    }
    assert(ids.subrange(0, i as int) == ids);
    best
}

impl Library {
    /// The rows that planning works on: one per active file whose item is
    /// on record, in table order, each with the title and year of the item,
    /// its authors joined by commas, and its greatest thirteen-digit book
    /// number.
    pub fn plan_rows(&self) -> (rows: Vec<PlanInput>)
        ensures
            row_views(rows@) == rows_of(self@, self@.files.len() as int),
    {
        let mut rows: Vec<PlanInput> = Vec::new();
        let mut n: usize = 0;
        assert(row_views(rows@) =~= Seq::<PlanInputView>::empty());
        while n < self.files.len()
            invariant
                n <= self.files.len(),
                row_views(rows@) == rows_of(self@, n as int),
            decreases self.files.len() - n,
        {
            let file = &self.files[n];
            assert(self@.files[n as int] == file@);
            proof {
                lemma_item_with_id(self@.items, file@.item_id);
            }
            match self.find_item(file.item_id.as_str()) {
                Some(i) => {
                    if file.is_active() {
                        let item = &self.items[i];
                        assert(self@.items[i as int] == item@);
                        let ghost before = row_views(rows@);
                        rows.push(
                            PlanInput {
                                file_id: file.id.clone(),
                                source_path: file.path.clone(),
                                extension: file.extension.clone(),
                                title: crate::records::copy_opt(&item.title),
                                published_year: item.published_year,
                                authors: authors_text(item),
                                isbn13: best_isbn13(item),
                            },
                        );
                        assert(row_views(rows@) =~= before.push(row_of(file@, item@)));
                    }
                },
                None => {},
            }
            n += 1;
        }
        rows
    }

    /// Plans an organize operation for the library: one entry for each
    /// active file whose item is on record, in table order. The record
    /// store is only read.
    pub fn plan_organize(
        &self,
        mode: LayoutMode,
        library_root: &str,
        template: &str,
        disk: &Vec<DiskEntry>,
    ) -> (plan: OrganizePlan)
        ensures
            plan.mode == mode,
            plan.library_root@ == library_root@,
            plan.template@ == template@,
            plan.entries@.len() == rows_of(self@, self@.files.len() as int).len(),
            forall|i: int|
                0 <= i < plan.entries@.len() ==> (#[trigger] plan.entries@[i])@ == planned(
                    rows_of(self@, self@.files.len() as int)[i],
                    mode,
                    library_root@,
                    template@,
                    disk_views(disk@),
                ),
    {
        let rows = self.plan_rows();
        let plan = plan_organize(&rows, mode, library_root, template, disk);
        assert forall|i: int| 0 <= i < plan.entries@.len() implies (#[trigger] plan.entries@[i])@
            == planned(
            rows_of(self@, self@.files.len() as int)[i],
            mode,
            library_root@,
            template@,
            disk_views(disk@),
        ) by {
            assert(row_views(rows@)[i] == rows@[i]@);
        }
        plan
    }
}

} // verus!
