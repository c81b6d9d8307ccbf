//! The document reconciler: one pass that extracts the referenced file
//! identifiers, computes both deltas against the on-disk listing, prunes
//! stale top-level notes, and appends the single synthesized notebook when
//! new files were found. Reading the directory, copying the new files and
//! persisting the document stay with the caller.

use crate::clock::current_date_string;
use crate::delta::get_deltas;
use crate::delta::lemma_diff_membership;
use crate::delta::seq_diff;
use crate::document::get_identifiers_of;
use crate::document::item_ids;
use crate::document::items_ids;
use crate::document::lemma_contained_note_id;
use crate::document::lemma_items_ids_push;
use crate::document::CodexItem;
use crate::document::RootItem;
use crate::prune::delete_stale;
use crate::prune::is_stale_note;
use crate::prune::lemma_pruned_membership;
use crate::prune::lemma_pruned_no_stale_top;
use crate::prune::lemma_pruned_nothing;
use crate::prune::pruned;
use crate::synth::create_notebook;
use crate::synth::create_notebook_children;
use crate::synth::lemma_notebook_of_notes;
use crate::synth::notebook_matches;
use vstd::prelude::*;

verus! {

/// How one pass rewrites the document's items for the on-disk listing
/// `disk` and the date stamp `date`: the stale top-level notes are pruned,
/// and exactly when new files were found, one synthesized notebook holding
/// them stands appended at the end.
pub open spec fn reconciled_items(
    before: Seq<CodexItem>,
    after: Seq<CodexItem>,
    disk: Seq<Seq<char>>,
    date: Seq<char>,
) -> bool {
    let stale = seq_diff(items_ids(before), disk);
    let newf = seq_diff(disk, items_ids(before));
    let kept = pruned(before, stale);
    if newf.len() == 0 {
        after == kept
    } else {
        &&& after.len() == kept.len() + 1
        &&& after.take(kept.len() as int) == kept
        &&& (after.last() matches CodexItem::Notebook(nb) && notebook_matches(nb, newf, date))
    }
}

/// One reconciliation pass over the in-memory document against the on-disk
/// listing `tree_filenames`, stamped with `date`. Returns the new
/// filenames, the ones the caller must still copy into managed storage;
/// an empty result means nothing was imported.
pub fn reconcile(json: &mut RootItem, tree_filenames: &Vec<String>, date: &String) -> (new_files:
    Vec<String>)
    ensures
        new_files.deep_view() == seq_diff(tree_filenames.deep_view(), items_ids(old(json).items@)),
        final(json).schema_version == old(json).schema_version,
        reconciled_items(old(json).items@, final(json).items@, tree_filenames.deep_view(), date@),
{
    let ghost ids = items_ids(old(json).items@);
    let ghost disk = tree_filenames.deep_view();
    let node_filenames = get_identifiers_of(&json.items);
    let (delta_tree, delta_node) = get_deltas(&node_filenames, tree_filenames);
    let new_files = delta_tree.clone();
    proof {
        assert forall|i: int|
            0 <= i < delta_tree@.len() implies new_files.deep_view()[i]
            == delta_tree.deep_view()[i] by {
            assert(vstd::pervasive::cloned::<String>(delta_tree@[i], new_files@[i]));
        }
        assert(new_files.deep_view() =~= delta_tree.deep_view());
    }
    delete_stale(delta_node, json);
    let ghost kept = json.items@;
    let notes = create_notebook_children(delta_tree, date);
    let ghost notes_view = notes@;
    let notebook = create_notebook(notes, date);
    match notebook {
        Some(nb) => {
            proof {
                lemma_notebook_of_notes(nb, notes_view, seq_diff(disk, ids), date@);
            }
            json.items.push(CodexItem::Notebook(nb));
            proof {
                assert(json.items@.take(kept.len() as int) =~= kept);
            }
        },
        None => {},
    }
    new_files
}

/// The pass as the program runs it: stamped with today's date from the
/// system clock. The shape of the result holds whatever the clock returned.
pub fn reconcile_today(json: &mut RootItem, tree_filenames: &Vec<String>) -> (new_files: Vec<
    String,
>)
    ensures
        new_files.deep_view() == seq_diff(tree_filenames.deep_view(), items_ids(old(json).items@)),
        final(json).schema_version == old(json).schema_version,
        exists|date: Seq<char>|
            reconciled_items(
                old(json).items@,
                final(json).items@,
                tree_filenames.deep_view(),
                date,
            ),
{
    let date = current_date_string();
    let new_files = reconcile(json, tree_filenames, &date);
    proof {
        assert(reconciled_items(
            old(json).items@,
            json.items@,
            tree_filenames.deep_view(),
            date@,
        ));
    }
    new_files
}

/// A file identifier that is referenced and not stale survives the prune.
proof fn lemma_pruned_keeps(items: Seq<CodexItem>, stale: Seq<Seq<char>>, x: Seq<char>)
    requires
        items_ids(items).contains(x),
        !stale.contains(x),
    ensures
        items_ids(pruned(items, stale)).contains(x),
    decreases items.len(),
{
    if items.len() == 0 {
        assert(false);
    } else {
        let front = items.drop_last();
        let last = items.last();
        assert(front.push(last) =~= items);
        lemma_items_ids_push(front, last);
        let a = items_ids(front);
        let b = item_ids(last);
        let i = choose|i: int| 0 <= i < (a + b).len() && (a + b)[i] == x;
        if is_stale_note(last, stale) {
            assert(i < a.len()) by {
                if i >= a.len() {
                    assert(b[i - a.len()] == x);
                }
            }
            assert(a[i] == x);
            lemma_pruned_keeps(front, stale, x);
        } else {
            lemma_items_ids_push(pruned(front, stale), last);
            let l = items_ids(pruned(front, stale));
            if i < a.len() {
                assert(a[i] == x);
                lemma_pruned_keeps(front, stale, x);
                let j = choose|j: int| 0 <= j < l.len() && l[j] == x;
                assert((l + b)[j] == x);
            } else {
                assert(b[i - a.len()] == x);
                assert((l + b)[l.len() + i - a.len()] == x);
            }
        }
    }
}

/// A notebook of freshly synthesized notes contributes exactly their file
/// identifiers.
proof fn lemma_items_ids_all_notes(children: Seq<CodexItem>, files: Seq<Seq<char>>)
    requires
        children.len() == files.len(),
        forall|i: int|
            0 <= i < children.len() ==> (#[trigger] children[i] matches CodexItem::Note(n)
                && n.file_name@ == files[i]),
    ensures
        items_ids(children) == files,
    decreases children.len(),
{
    if children.len() == 0 {
        assert(items_ids(children) =~= files);
    } else {
        let front = children.drop_last();
        lemma_items_ids_all_notes(front, files.drop_last());
        lemma_items_ids_push(front, children.last());
        assert(front.push(children.last()) =~= children);
        assert(children[children.len() - 1] matches CodexItem::Note(n) && n.file_name@
            == files[children.len() - 1]);
        assert(files.drop_last() + item_ids(children.last()) =~= files);
    }
}

/// When every wanted filename is already referenced, the difference is
/// empty.
proof fn lemma_all_found_no_new(xs: Seq<Seq<char>>, ys: Seq<Seq<char>>)
    requires
        forall|x: Seq<char>| #[trigger] xs.contains(x) ==> ys.contains(x),
    ensures
        seq_diff(xs, ys) == Seq::<Seq<char>>::empty(),
    decreases xs.len(),
{
    if xs.len() > 0 {
        assert(xs.contains(xs.last())) by {
            assert(xs[xs.len() - 1] == xs.last());
        }
        assert forall|x: Seq<char>| #[trigger] xs.drop_last().contains(x) implies xs.contains(
            x,
        ) by {
            let i = choose|i: int| 0 <= i < xs.drop_last().len() && xs.drop_last()[i] == x;
            assert(xs[i] == x);
        }
        lemma_all_found_no_new(xs.drop_last(), ys);
    }
}

/// Running a second pass over an unchanged directory imports nothing: after
/// one pass the document references every on-disk filename, so the new
/// partition of the next pass is empty and no duplicate notebooks or notes
/// are created.
pub proof fn lemma_second_pass_imports_nothing(
    before: Seq<CodexItem>,
    after: Seq<CodexItem>,
    disk: Seq<Seq<char>>,
    date: Seq<char>,
)
    requires
        reconciled_items(before, after, disk, date),
    ensures
        seq_diff(disk, items_ids(after)) == Seq::<Seq<char>>::empty(),
{
    let ids = items_ids(before);
    let stale = seq_diff(ids, disk);
    let newf = seq_diff(disk, ids);
    let kept = pruned(before, stale);
    assert forall|x: Seq<char>| #[trigger] disk.contains(x) implies items_ids(after).contains(
        x,
    ) by {
        lemma_diff_membership(ids, disk, x);
        if ids.contains(x) {
            lemma_pruned_keeps(before, stale, x);
            if newf.len() == 0 {
                assert(items_ids(after).contains(x));
            } else {
                assert(after =~= kept.push(after.last()));
                lemma_items_ids_push(kept, after.last());
                let l = items_ids(kept);
                let j = choose|j: int| 0 <= j < l.len() && l[j] == x;
                assert((l + item_ids(after.last()))[j] == x);
            }
        } else {
            lemma_diff_membership(disk, ids, x);
            assert(newf.contains(x));
            assert(newf.len() > 0);
            assert(after =~= kept.push(after.last()));
            lemma_items_ids_push(kept, after.last());
            let nb = after.last()->Notebook_0;
            assert forall|i: int|
                0 <= i < newf.len() implies (#[trigger] nb.children@[i] matches CodexItem::Note(n)
                && n.file_name@ == newf[i]) by {
                assert(nb.children@[i] matches CodexItem::Note(n));
            }
            lemma_items_ids_all_notes(nb.children@, newf);
            let l = items_ids(kept);
            let k = choose|k: int| 0 <= k < newf.len() && newf[k] == x;
            assert((l + item_ids(after.last()))[l.len() + k] == x);
        }
    }
    lemma_all_found_no_new(disk, items_ids(after));
}

/// Reconciliation is idempotent: a second pass over an unchanged directory
/// leaves the document exactly as the first pass left it, whatever date
/// either pass was stamped with. Nothing new is imported, and the top-level
/// notes that survived the first prune all reference on-disk files, so the
/// second prune removes nothing either.
pub proof fn lemma_reconcile_idempotent(
    before: Seq<CodexItem>,
    after: Seq<CodexItem>,
    again: Seq<CodexItem>,
    disk: Seq<Seq<char>>,
    date: Seq<char>,
    date2: Seq<char>,
)
    requires
        reconciled_items(before, after, disk, date),
        reconciled_items(after, again, disk, date2),
    ensures
        again == after,
{
    let ids = items_ids(before);
    let stale = seq_diff(ids, disk);
    let kept = pruned(before, stale);
    let stale2 = seq_diff(items_ids(after), disk);
    lemma_second_pass_imports_nothing(before, after, disk, date);
    assert(again == pruned(after, stale2));
    assert forall|i: int| 0 <= i < after.len() implies !is_stale_note(
        #[trigger] after[i],
        stale2,
    ) by {
        if after[i] is Note {
            let n = after[i]->Note_0;
            assert(kept.contains(after[i])) by {
                if seq_diff(disk, ids).len() == 0 {
                    assert(kept[i] == after[i]);
                } else {
                    assert(i < kept.len());
                    assert(after.take(kept.len() as int)[i] == after[i]);
                    assert(kept[i] == after[i]);
                }
            }
            lemma_pruned_membership(before, stale);
            assert(before.contains(after[i]) && !is_stale_note(after[i], stale));
            lemma_contained_note_id(before, n);
            lemma_diff_membership(ids, disk, n.file_name@);
            assert(disk.contains(n.file_name@));
            lemma_diff_membership(items_ids(after), disk, n.file_name@);
        }
    }
    lemma_pruned_no_stale_top(after, stale2);
}

/// An empty source directory against a document that references no files
/// makes an empty pass: nothing is new, nothing is stale, and the pruned
/// items are the items unchanged, so the pass rewrites the document with
/// identical logical content.
pub proof fn lemma_empty_pass_changes_nothing(items: Seq<CodexItem>, disk: Seq<Seq<char>>)
    requires
        items_ids(items).len() == 0,
        disk.len() == 0,
    ensures
        seq_diff(disk, items_ids(items)) == Seq::<Seq<char>>::empty(),
        seq_diff(items_ids(items), disk) == Seq::<Seq<char>>::empty(),
        pruned(items, seq_diff(items_ids(items), disk)) == items,
{
    lemma_pruned_nothing(items, seq_diff(items_ids(items), disk));
}

} // verus!
