//! The entry pruner: removes top-level notes whose file is gone. Nested
//! notebooks are never removed, whatever their contents; identifier
//! extraction recurses, pruning deliberately does not, and the tests pin
//! that asymmetry of the design.

use crate::delta::contains_string;
use crate::document::CodexItem;
use crate::document::Notebook;
use crate::document::RootItem;
use vstd::prelude::*;

verus! {

/// Whether `item` is a top-level note that references a stale file.
pub open spec fn is_stale_note(item: CodexItem, stale: Seq<Seq<char>>) -> bool {
    item matches CodexItem::Note(note) && stale.contains(note.file_name@)
}

/// The items that survive a prune against `stale`: every notebook, and every
/// note whose file identifier is not stale, in their original order.
pub open spec fn pruned(items: Seq<CodexItem>, stale: Seq<Seq<char>>) -> Seq<CodexItem>
    decreases items.len(),
{
    if items.len() == 0 {
        Seq::empty()
    } else if is_stale_note(items.last(), stale) {
        pruned(items.drop_last(), stale)
    } else {
        pruned(items.drop_last(), stale).push(items.last())
    }
}

/// Pruning keeps every item when none of them is a stale note.
pub proof fn lemma_pruned_no_stale_top(items: Seq<CodexItem>, stale: Seq<Seq<char>>)
    requires
        forall|i: int| 0 <= i < items.len() ==> !is_stale_note(#[trigger] items[i], stale),
    ensures
        pruned(items, stale) == items,
    decreases items.len(),
{
    if items.len() > 0 {
        assert(forall|i: int|
            0 <= i < items.drop_last().len() ==> items.drop_last()[i] == items[i]);
        lemma_pruned_no_stale_top(items.drop_last(), stale);
        assert(!is_stale_note(items[items.len() - 1], stale));
        assert(pruned(items.drop_last(), stale).push(items.last()) =~= items);
    }
}

/// Pruning against an empty stale set keeps every item.
pub proof fn lemma_pruned_nothing(items: Seq<CodexItem>, stale: Seq<Seq<char>>)
    requires
        stale.len() == 0,
    ensures
        pruned(items, stale) == items,
{
    lemma_pruned_no_stale_top(items, stale);
}

/// Whatever survives a prune stood among the items and was no stale note.
pub proof fn lemma_pruned_membership(items: Seq<CodexItem>, stale: Seq<Seq<char>>)
    ensures
        forall|item: CodexItem| #[trigger] pruned(items, stale).contains(item) ==> items.contains(
            item,
        ) && !is_stale_note(item, stale),
    decreases items.len(),
{
    if items.len() > 0 {
        let front = items.drop_last();
        lemma_pruned_membership(front, stale);
        assert forall|item: CodexItem| #[trigger] pruned(items, stale).contains(
            item,
        ) implies items.contains(item) && !is_stale_note(item, stale) by {
            let p = pruned(front, stale);
            if is_stale_note(items.last(), stale) {
                assert(p.contains(item));
            } else {
                let i = choose|i: int|
                    0 <= i < p.push(items.last()).len() && p.push(items.last())[i] == item;
                if i < p.len() {
                    assert(p[i] == item);
                } else {
                    assert(item == items.last());
                    assert(items[items.len() - 1] == item);
                }
            }
            if front.contains(item) {
                let j = choose|j: int| 0 <= j < front.len() && front[j] == item;
                assert(items[j] == item);
            }
        }
    }
}

/// Pruning and appending the synthesized notebook commute: a notebook is
/// never a stale note, so pruning removes the same items on either side of
/// the append.
pub proof fn lemma_prune_append_commute(
    items: Seq<CodexItem>,
    stale: Seq<Seq<char>>,
    nb: Notebook,
)
    ensures
        pruned(items.push(CodexItem::Notebook(nb)), stale) == pruned(items, stale).push(
            CodexItem::Notebook(nb),
        ),
{
    assert(items.push(CodexItem::Notebook(nb)).drop_last() =~= items);
}

/// Removes every top-level item that is a note whose file identifier occurs
/// in `notes_fnames`; notebooks and the remaining notes keep their order.
pub fn delete_stale(notes_fnames: Vec<String>, json: &mut RootItem)
    ensures
        final(json).schema_version == old(json).schema_version,
        final(json).items@ == pruned(old(json).items@, notes_fnames.deep_view()),
{
    let ghost all = json.items@;
    let ghost stale = notes_fnames.deep_view();
    let total = json.items.len();
    proof {
        assert(total == all.len());
    }
    let mut rest: Vec<CodexItem> = Vec::new();
    core::mem::swap(&mut json.items, &mut rest);
    let mut i: usize = 0;
    while rest.len() > 0
        invariant
            i <= total,
            total == all.len(),
            i + rest@.len() == all.len(),
            rest@ == all.subrange(i as int, all.len() as int),
            json.items@ == pruned(all.take(i as int), stale),
            json.schema_version == old(json).schema_version,
            stale == notes_fnames.deep_view(),
        decreases rest@.len(),
    {
        let item = rest.remove(0);
        proof {
            assert(item == all[i as int]);
            assert(rest@ =~= all.subrange(i + 1 as int, all.len() as int));
        }
        let keep = match &item {
            CodexItem::Note(note) => !contains_string(&notes_fnames, &note.file_name),
            CodexItem::Notebook(_) => true,
        };
        proof {
            assert(keep == !is_stale_note(item, stale));
            let prefix = all.take(i as int);
            assert(all.take(i + 1 as int) =~= prefix.push(all[i as int]));
            assert(prefix.push(all[i as int]).drop_last() =~= prefix);
        }
        if keep {
            json.items.push(item);
        }
        i += 1;
    }
    proof {
        assert(all.take(all.len() as int) =~= all);
    }
}

} // verus!
