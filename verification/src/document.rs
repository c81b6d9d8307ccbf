//! The persisted document: a tree of notebooks and notes, and the
//! extraction of every note's file identifier from it.

use vstd::prelude::*;

verus! {

/// One entry of the document: either a nested notebook or a leaf note.
pub enum CodexItem {
    Notebook(Notebook),
    Note(Note),
}

/// The root of the persisted document.
pub struct RootItem {
    pub schema_version: u32,
    pub items: Vec<CodexItem>,
}

/// A notebook groups further items; its children may nest arbitrarily deep.
pub struct Notebook {
    pub color: String,
    pub icon: String,
    pub id: String,
    pub name: String,
    pub children: Vec<CodexItem>,
    pub opened: bool,
}

/// A note references one on-disk file through `file_name`, the join key
/// between the document and the filesystem.
pub struct Note {
    pub color: String,
    pub icon: String,
    pub id: String,
    pub name: String,
    pub favorited: bool,
    pub file_name: String,
    pub text_content: String,
}

/// The file identifiers contributed by a single item: a note yields its own
/// file identifier, a notebook yields those of its whole subtree.
pub open spec fn item_ids(item: CodexItem) -> Seq<Seq<char>>
    decreases item, 0nat,
    via item_ids_decreases
{
    match item {
        CodexItem::Note(note) => seq![note.file_name@],
        CodexItem::Notebook(nb) => items_ids(nb.children@),
    }
}

/// The file identifiers of every note reachable from `items`, in
/// depth-first order, duplicates kept.
pub open spec fn items_ids(items: Seq<CodexItem>) -> Seq<Seq<char>>
    decreases items, 1nat,
    via items_ids_decreases
{
    if items.len() == 0 {
        Seq::empty()
    } else {
        item_ids(items[0]) + items_ids(items.drop_first())
    }
}

#[via_fn]
proof fn item_ids_decreases(item: CodexItem) {
    broadcast use vstd::std_specs::vec::group_vec_axioms;

    match item {
        CodexItem::Notebook(nb) => {
            assert(decreases_to!(item => nb));
            assert(decreases_to!(nb => nb.children));
            assert(decreases_to!(nb.children => nb.children@));
        },
        CodexItem::Note(_) => {},
    }
}

#[via_fn]
proof fn items_ids_decreases(items: Seq<CodexItem>) {
    broadcast use vstd::seq::group_seq_axioms;

    if items.len() > 0 {
        assert(decreases_to!(items => items[0]));
        assert(decreases_to!(items => items.subrange(1, items.len() as int)));
    }
}

/// Appending item sequences appends their identifier sequences.
pub proof fn lemma_items_ids_append(s1: Seq<CodexItem>, s2: Seq<CodexItem>)
    ensures
        items_ids(s1 + s2) == items_ids(s1) + items_ids(s2),
    decreases s1.len(),
{
    if s1.len() == 0 {
        assert(s1 + s2 =~= s2);
        assert(items_ids(s1) + items_ids(s2) =~= items_ids(s2));
    } else {
        lemma_items_ids_append(s1.drop_first(), s2);
        assert((s1 + s2).drop_first() =~= s1.drop_first() + s2);
        assert((s1 + s2)[0] == s1[0]);
        assert(item_ids(s1[0]) + (items_ids(s1.drop_first()) + items_ids(s2)) =~= (item_ids(
            s1[0],
        ) + items_ids(s1.drop_first())) + items_ids(s2));
    }
}

/// One more item at the end contributes exactly its own identifiers.
pub proof fn lemma_items_ids_push(s: Seq<CodexItem>, item: CodexItem)
    ensures
        items_ids(s.push(item)) == items_ids(s) + item_ids(item),
{
    assert(s.push(item) =~= s + seq![item]);
    lemma_items_ids_append(s, seq![item]);
    assert(seq![item][0] == item);
    assert(seq![item].drop_first() =~= Seq::<CodexItem>::empty());
    assert(items_ids(seq![item]) == item_ids(item) + items_ids(Seq::<CodexItem>::empty()));
    assert(item_ids(item) + Seq::<Seq<char>>::empty() =~= item_ids(item));
}

/// A note present among the items contributes its file identifier.
pub proof fn lemma_contained_note_id(items: Seq<CodexItem>, n: Note)
    requires
        items.contains(CodexItem::Note(n)),
    ensures
        items_ids(items).contains(n.file_name@),
    decreases items.len(),
{
    let i = choose|i: int| 0 <= i < items.len() && items[i] == CodexItem::Note(n);
    let front = items.drop_last();
    assert(front.push(items.last()) =~= items);
    lemma_items_ids_push(front, items.last());
    let a = items_ids(front);
    let b = item_ids(items.last());
    if i < items.len() - 1 {
        assert(front[i] == CodexItem::Note(n));
        lemma_contained_note_id(front, n);
        let j = choose|j: int| 0 <= j < a.len() && a[j] == n.file_name@;
        assert((a + b)[j] == n.file_name@);
    } else {
        assert((a + b)[a.len() as int] == n.file_name@);
    }
}

/// Collects the file identifier of every note reachable from `items`,
/// recursing into nested notebooks, in depth-first order.
pub fn get_identifiers_of(items: &Vec<CodexItem>) -> (r: Vec<String>)
    ensures
        r.deep_view() == items_ids(items@),
    decreases items@,
{
    let mut out: Vec<String> = Vec::new();
    let mut i: usize = 0;
    while i < items.len()
        invariant
            i <= items@.len(),
            out.deep_view() == items_ids(items@.take(i as int)),
        decreases items@.len() - i,
    {
        match &items[i] {
            CodexItem::Note(note) => {
                out.push(note.file_name.clone());
            },
            CodexItem::Notebook(nb) => {
                proof {
                    broadcast use vstd::seq::group_seq_axioms;
                    broadcast use vstd::std_specs::vec::group_vec_axioms;

                    assert(decreases_to!(items@ => items@[i as int]));
                    assert(items@[i as int] matches CodexItem::Notebook(n) && n == *nb);
                    assert(decreases_to!(items@[i as int] => *nb));
                    assert(decreases_to!(*nb => nb.children));
                    assert(decreases_to!(nb.children => nb.children@));
                }
                let mut sub = get_identifiers_of(&nb.children);
                out.append(&mut sub);
            },
        }
        proof {
            assert(items@.take(i + 1 as int) =~= items@.take(i as int).push(items@[i as int]));
            lemma_items_ids_push(items@.take(i as int), items@[i as int]);
        }
        i += 1;
    }
    proof {
        assert(items@.take(items@.len() as int) =~= items@);
    }
    out
}

} // verus!
