use vstd::prelude::*;

use crate::paths::selected;
use crate::pipeline::FileContent;
use crate::pipeline::WalkItem;
use crate::pipeline::document_of;
use crate::pipeline::is_selected_text;
use crate::pipeline::item_aborts;
use crate::pipeline::item_path;
use crate::pipeline::item_record;
use crate::pipeline::item_text;
use crate::pipeline::run_aborts;
use crate::record::record_of;

verus! {

/// True of a regular file item, readable or not, text or not.
pub open spec fn is_file(item: WalkItem) -> bool {
    match item {
        WalkItem::File { .. } => true,
        WalkItem::Unreadable => false,
    }
}

/// The document of two walks laid end to end is the two documents laid end
/// to end.
pub proof fn lemma_document_of_concat(a: Seq<WalkItem>, b: Seq<WalkItem>)
    ensures
        document_of(a + b) == document_of(a) + document_of(b),
    decreases a.len(),
{
    if a.len() == 0 {
        assert(a + b =~= b);
        assert(Seq::<char>::empty() + document_of(b) =~= document_of(b));
    } else {
        lemma_document_of_concat(a.drop_first(), b);
        assert((a + b).len() == a.len() + b.len());
        assert((a + b)[0] == a[0]);
        assert((a + b).drop_first() =~= a.drop_first() + b);
        assert(document_of(a + b) == item_record(a[0]) + document_of(a.drop_first() + b));
        assert(document_of(a) == item_record(a[0]) + document_of(a.drop_first()));
        assert(item_record(a[0]) + (document_of(a.drop_first()) + document_of(b)) =~= (item_record(
            a[0],
        ) + document_of(a.drop_first())) + document_of(b));
    }
}

/// The document of a single item is that item's contribution.
proof fn lemma_document_of_singleton(x: WalkItem)
    ensures
        document_of(seq![x]) == item_record(x),
{
    assert(seq![x].len() == 1);
    assert(seq![x][0] == x);
    assert(seq![x].drop_first() =~= Seq::<WalkItem>::empty());
    assert(document_of(seq![x]) == item_record(x) + document_of(Seq::<WalkItem>::empty()));
    assert(item_record(x) + Seq::<char>::empty() =~= item_record(x));
}

/// Every selected text file's record stands verbatim in the document, framed
/// between the documents of the items walked before it and after it.
pub proof fn lemma_record_in_document(items: Seq<WalkItem>, i: int)
    requires
        0 <= i < items.len(),
        is_selected_text(items[i]),
    ensures
        document_of(items) == document_of(items.take(i)) + record_of(
            item_path(items[i]),
            item_text(items[i]),
        ) + document_of(items.skip(i + 1)),
{
    let a = items.take(i);
    let m = seq![items[i]];
    let b = items.skip(i + 1);
    assert(items =~= (a + m) + b);
    lemma_document_of_concat(a + m, b);
    lemma_document_of_concat(a, m);
    lemma_document_of_singleton(items[i]);
    assert(item_record(items[i]) == record_of(item_path(items[i]), item_text(items[i])));
}

/// An item that neither contributes a record nor aborts the run can be
/// dropped from the walk without changing the document or the run's fate.
proof fn lemma_inert_item_removed(items: Seq<WalkItem>, i: int)
    requires
        0 <= i < items.len(),
        !is_selected_text(items[i]),
        !item_aborts(items[i]),
    ensures
        document_of(items.remove(i)) == document_of(items),
        run_aborts(items.remove(i)) == run_aborts(items),
{
    let a = items.take(i);
    let m = seq![items[i]];
    let b = items.skip(i + 1);
    assert(items =~= (a + m) + b);
    assert(items.remove(i) =~= a + b);
    lemma_document_of_concat(a + m, b);
    lemma_document_of_concat(a, m);
    lemma_document_of_concat(a, b);
    lemma_document_of_singleton(items[i]);
    assert(item_record(items[i]) == Seq::<char>::empty());
    assert(document_of(a) + Seq::<char>::empty() =~= document_of(a));
    items.remove_ensures(i);
    if run_aborts(items) {
        let w = choose|w: int| 0 <= w < items.len() && item_aborts(items[w]);
        if w < i {
            assert(item_aborts(items.remove(i)[w]));
        } else {
            assert(w > i);
            assert(item_aborts(items.remove(i)[w - 1]));
        }
        assert(run_aborts(items.remove(i)));
    }
    if run_aborts(items.remove(i)) {
        let w = choose|w: int| 0 <= w < items.remove(i).len() && item_aborts(items.remove(i)[w]);
        if w < i {
            assert(item_aborts(items[w]));
        } else {
            assert(item_aborts(items[w + 1]));
        }
        assert(run_aborts(items));
    }
}

/// A file whose extension is not in the recognized set leaves no trace:
/// the document, and whether the run aborts, are the same as for the walk
/// without it.
pub proof fn lemma_unrecognized_file_ignored(items: Seq<WalkItem>, i: int)
    requires
        0 <= i < items.len(),
        is_file(items[i]),
        !selected(item_path(items[i])),
    ensures
        document_of(items.remove(i)) == document_of(items),
        run_aborts(items.remove(i)) == run_aborts(items),
{
    lemma_inert_item_removed(items, i);
}

/// An entry that could not be read never aborts the run and leaves no trace:
/// the document, and whether the run aborts, are the same as for the walk
/// without it.
pub proof fn lemma_unreadable_entry_skipped(items: Seq<WalkItem>, i: int)
    requires
        0 <= i < items.len(),
        items[i] is Unreadable,
    ensures
        !item_aborts(items[i]),
        document_of(items.remove(i)) == document_of(items),
        run_aborts(items.remove(i)) == run_aborts(items),
{
    lemma_inert_item_removed(items, i);
}

/// The (path, content) pairs of the selected text files, in traversal order.
pub open spec fn selected_records(items: Seq<WalkItem>) -> Seq<(Seq<char>, Seq<char>)>
    decreases items.len(),
{
    if items.len() == 0 {
        Seq::empty()
    } else {
        let rest = selected_records(items.drop_first());
        if is_selected_text(items[0]) {
            seq![(item_path(items[0]), item_text(items[0]))] + rest
        } else {
            rest
        }
    }
}

/// A sequence of records rendered end to end.
pub open spec fn render_all(recs: Seq<(Seq<char>, Seq<char>)>) -> Seq<char>
    decreases recs.len(),
{
    if recs.len() == 0 {
        Seq::empty()
    } else {
        record_of(recs[0].0, recs[0].1) + render_all(recs.drop_first())
    }
}

/// The document is nothing more and nothing less than the records of the
/// selected text files, rendered in traversal order.
pub proof fn lemma_document_renders_selected(items: Seq<WalkItem>)
    ensures
        document_of(items) == render_all(selected_records(items)),
    decreases items.len(),
{
    if items.len() > 0 {
        lemma_document_renders_selected(items.drop_first());
        let rest = selected_records(items.drop_first());
        if is_selected_text(items[0]) {
            let rec = (item_path(items[0]), item_text(items[0]));
            assert((seq![rec] + rest).len() == 1 + rest.len());
            assert((seq![rec] + rest)[0] == rec);
            assert((seq![rec] + rest).drop_first() =~= rest);
            assert(render_all(seq![rec] + rest) == record_of(rec.0, rec.1) + render_all(rest));
        } else {
            assert(item_record(items[0]) == Seq::<char>::empty());
            assert(Seq::<char>::empty() + document_of(items.drop_first()) =~= document_of(
                items.drop_first(),
            ));
        }
    }
}

/// How many of the records bear the given path.
pub open spec fn count_records_with_path(recs: Seq<(Seq<char>, Seq<char>)>, path: Seq<char>) -> nat
    decreases recs.len(),
{
    if recs.len() == 0 {
        0
    } else {
        (if recs[0].0 == path {
            1nat
        } else {
            0nat
        }) + count_records_with_path(recs.drop_first(), path)
    }
}

/// No two file items of the walk share a relative path.
pub open spec fn distinct_file_paths(items: Seq<WalkItem>) -> bool {
    forall|j: int, k: int|
        0 <= j < k < items.len() && is_file(#[trigger] items[j]) && is_file(#[trigger] items[k])
            ==> item_path(items[j]) != item_path(items[k])
}

proof fn lemma_distinct_drop_first(items: Seq<WalkItem>)
    requires
        items.len() > 0,
        distinct_file_paths(items),
    ensures
        distinct_file_paths(items.drop_first()),
{
    let rest = items.drop_first();
    assert forall|j: int, k: int|
        0 <= j < k < rest.len() && is_file(#[trigger] rest[j]) && is_file(
            #[trigger] rest[k],
        ) implies item_path(rest[j]) != item_path(rest[k]) by {
        assert(rest[j] == items[j + 1]);
        assert(rest[k] == items[k + 1]);
    }
}

proof fn lemma_count_zero_without_path(items: Seq<WalkItem>, path: Seq<char>)
    requires
        forall|j: int|
            0 <= j < items.len() && is_file(#[trigger] items[j]) ==> item_path(items[j]) != path,
    ensures
        count_records_with_path(selected_records(items), path) == 0,
    decreases items.len(),
{
    if items.len() > 0 {
        let rest = items.drop_first();
        assert(forall|j: int|
            0 <= j < rest.len() && is_file(#[trigger] rest[j]) ==> rest[j] == items[j + 1]
                && item_path(rest[j]) != path);
        lemma_count_zero_without_path(rest, path);
        if is_selected_text(items[0]) {
            let rec = (item_path(items[0]), item_text(items[0]));
            let recs = seq![rec] + selected_records(rest);
            assert(recs[0] == rec);
            assert(recs.drop_first() =~= selected_records(rest));
            assert(rec.0 != path);
        }
    }
}

/// With no two files of the walk sharing a path, the document holds exactly
/// one record for each selected text file: one with its path, and no other.
pub proof fn lemma_exactly_one_record(items: Seq<WalkItem>, i: int)
    requires
        0 <= i < items.len(),
        is_selected_text(items[i]),
        distinct_file_paths(items),
    ensures
        count_records_with_path(selected_records(items), item_path(items[i])) == 1,
    decreases items.len(),
{
    let path = item_path(items[i]);
    let rest = items.drop_first();
    if i == 0 {
        let rec = (item_path(items[0]), item_text(items[0]));
        let recs = seq![rec] + selected_records(rest);
        assert(recs[0] == rec);
        assert(recs.drop_first() =~= selected_records(rest));
        assert(forall|j: int|
            0 <= j < rest.len() && is_file(#[trigger] rest[j]) ==> rest[j] == items[j + 1]
                && item_path(rest[j]) != path);
        lemma_count_zero_without_path(rest, path);
    } else {
        lemma_distinct_drop_first(items);
        assert(rest[i - 1] == items[i]);
        lemma_exactly_one_record(rest, i - 1);
        if is_selected_text(items[0]) {
            let rec = (item_path(items[0]), item_text(items[0]));
            let recs = seq![rec] + selected_records(rest);
            assert(recs[0] == rec);
            assert(recs.drop_first() =~= selected_records(rest));
            assert(rec.0 != path);
        }
    }
}

/// Extraction is a function of the walked tree alone: two runs over the same
/// items render byte-identical documents and agree on whether they abort.
pub proof fn lemma_extraction_deterministic(items1: Seq<WalkItem>, items2: Seq<WalkItem>)
    requires
        items1 == items2,
    ensures
        document_of(items1) == document_of(items2),
        run_aborts(items1) == run_aborts(items2),
{
}

} // verus!
