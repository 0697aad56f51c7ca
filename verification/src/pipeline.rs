use vstd::prelude::*;

use crate::paths::is_selected_path;
use crate::paths::selected;
use crate::record::record_of;
use crate::record::render_record;

verus! {

/// What one file's bytes decoded to: text, or nothing a text document can hold.
pub enum FileContent {
    Text(String),
    Undecodable,
}

/// One entry of the tree walk, in traversal order: a regular file with its
/// decoded content, or an entry whose metadata could not be read at all.
pub enum WalkItem {
    File { path: String, content: FileContent },
    Unreadable,
}

/// The failure that aborts a run: a selected file whose content is not text.
#[derive(Debug)]
pub struct ExtractError {
    pub path: String,
}

/// True of a regular file with a recognized extension and text content.
pub open spec fn is_selected_text(item: WalkItem) -> bool {
    match item {
        WalkItem::File { path, content } => match content {
            FileContent::Text(_) => selected(path@),
            FileContent::Undecodable => false,
        },
        WalkItem::Unreadable => false,
    }
}

/// True of an item on which the run must abort: a selected file whose
/// content cannot be decoded as text.
pub open spec fn item_aborts(item: WalkItem) -> bool {
    match item {
        WalkItem::File { path, content } => match content {
            FileContent::Text(_) => false,
            FileContent::Undecodable => selected(path@),
        },
        WalkItem::Unreadable => false,
    }
}

/// The relative path of a file item; an unreadable entry has none.
pub open spec fn item_path(item: WalkItem) -> Seq<char> {
    match item {
        WalkItem::File { path, content: _ } => path@,
        WalkItem::Unreadable => Seq::empty(),
    }
}

/// The decoded content of a text file item, and empty otherwise.
pub open spec fn item_text(item: WalkItem) -> Seq<char> {
    match item {
        WalkItem::File { path: _, content } => match content {
            FileContent::Text(text) => text@,
            FileContent::Undecodable => Seq::empty(),
        },
        WalkItem::Unreadable => Seq::empty(),
    }
}

/// What one item contributes to the document: its framed record if it is a
/// selected text file, and nothing otherwise.
pub open spec fn item_record(item: WalkItem) -> Seq<char> {
    if is_selected_text(item) {
        record_of(item_path(item), item_text(item))
    } else {
        Seq::empty()
    }
}

/// The whole output document: each item's contribution, in traversal order.
pub open spec fn document_of(items: Seq<WalkItem>) -> Seq<char>
    decreases items.len(),
{
    if items.len() == 0 {
        Seq::empty()
    } else {
        item_record(items[0]) + document_of(items.drop_first())
    }
}

/// True when some item of the walk aborts the run.
pub open spec fn run_aborts(items: Seq<WalkItem>) -> bool {
    exists|i: int| 0 <= i < items.len() && item_aborts(items[i])
}

/// Appending one item to a walk appends that item's contribution.
pub proof fn lemma_document_of_push(items: Seq<WalkItem>, x: WalkItem)
    ensures
        document_of(items.push(x)) == document_of(items) + item_record(x),
    decreases items.len(),
{
    assert(items.push(x).len() == items.len() + 1);
    assert(document_of(items.push(x)) == item_record(items.push(x)[0]) + document_of(
        items.push(x).drop_first(),
    ));
    if items.len() == 0 {
        assert(items.push(x)[0] == x);
        assert(items.push(x).drop_first() =~= Seq::<WalkItem>::empty());
        assert(document_of(Seq::<WalkItem>::empty()) == Seq::<char>::empty());
        assert(item_record(x) + Seq::<char>::empty() =~= item_record(x));
        assert(Seq::<char>::empty() + item_record(x) =~= item_record(x));
    } else {
        lemma_document_of_push(items.drop_first(), x);
        assert(items.push(x)[0] == items[0]);
        assert(items.push(x).drop_first() =~= items.drop_first().push(x));
        assert(document_of(items) == item_record(items[0]) + document_of(items.drop_first()));
        assert(item_record(items[0]) + (document_of(items.drop_first()) + item_record(x)) =~= (
        item_record(items[0]) + document_of(items.drop_first())) + item_record(x));
    }
}

/// Walks the items of one run in order and aggregates the records of the
/// selected text files into the output document. The run succeeds exactly
/// when no selected file is undecodable; otherwise it aborts at the first
/// such file, naming its path.
pub fn extract_document(items: &Vec<WalkItem>) -> (r: Result<String, ExtractError>)
    ensures
        r is Ok <==> !run_aborts(items@),
        r matches Ok(doc) ==> doc@ == document_of(items@),
        r matches Err(e) ==> exists|i: int|
            {
                &&& 0 <= i < items@.len()
                &&& #[trigger] item_aborts(items@[i])
                &&& forall|j: int| 0 <= j < i ==> !item_aborts(items@[j])
                &&& e.path@ == item_path(items@[i])
            },
{
    let mut out = String::new();
    let n = items.len();
    proof {
        assert(items@.take(0) =~= Seq::<WalkItem>::empty());
    }
    let mut idx: usize = 0;
    while idx < n
        invariant
            idx <= n,
            n == items@.len(),
            forall|j: int| 0 <= j < idx ==> !item_aborts(items@[j]),
            out@ == document_of(items@.take(idx as int)),
        decreases n - idx,
    {
        match &items[idx] {
            WalkItem::Unreadable => {},
            WalkItem::File { path, content } => {
                if is_selected_path(path.as_str()) {
                    match content {
                        FileContent::Text(text) => {
                            let rec = render_record(path.as_str(), text.as_str());
                            out.append(rec.as_str());
                        },
                        FileContent::Undecodable => {
                            proof {
                                assert(item_aborts(items@[idx as int]));
                            }
                            return Err(ExtractError { path: path.clone() });
                        },
                    }
                }
            },
        }
        proof {
            assert(items@.take(idx as int + 1) =~= items@.take(idx as int).push(
                items@[idx as int],
            ));
            lemma_document_of_push(items@.take(idx as int), items@[idx as int]);
        }
        idx += 1;
    }
    proof {
        assert(items@.take(n as int) =~= items@);
    }
    Ok(out)
}

} // verus!
