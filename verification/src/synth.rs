//! The entry synthesizer: one note per newly discovered file, all wrapped
//! into a single fresh notebook stamped with the pass's date.

use crate::document::CodexItem;
use crate::document::Note;
use crate::document::Notebook;
use crate::numerals::dec_str;
use crate::numerals::lemma_dec_str_injective;
use crate::numerals::u64_to_decimal;
use vstd::prelude::*;

verus! {

/// The identifier of the synthesized note at 1-based position `index`.
pub open spec fn note_id(index: nat, date: Seq<char>) -> Seq<char> {
    "automated_note_"@ + dec_str(index) + "_"@ + date
}

/// The display name of the synthesized note at 1-based position `index`.
pub open spec fn note_name(index: nat) -> Seq<char> {
    "unnamed "@ + dec_str(index)
}

/// What every synthesized note looks like: fixed neutral color and file
/// icon, deterministic identifier and display name, not favorited, empty
/// text, and the discovered filename as its file identifier.
pub open spec fn note_matches(note: Note, file_name: Seq<char>, index: nat, date: Seq<char>) -> bool {
    &&& note.color@ == "#999999"@
    &&& note.icon@ == "file-text"@
    &&& note.id@ == note_id(index, date)
    &&& note.name@ == note_name(index)
    &&& note.favorited == false
    &&& note.file_name@ == file_name
    &&& note.text_content@ == Seq::<char>::empty()
}

/// One synthesized note per filename, numbered from one in order.
pub open spec fn notes_match(notes: Seq<Note>, files: Seq<Seq<char>>, date: Seq<char>) -> bool {
    &&& notes.len() == files.len()
    &&& forall|i: int|
        0 <= i < notes.len() ==> note_matches(#[trigger] notes[i], files[i], (i + 1) as nat, date)
}

/// What the single wrapping notebook looks like: fixed accent color and book
/// icon, date-stamped identifier and display name, opened, with exactly the
/// synthesized notes as children.
pub open spec fn notebook_matches(nb: Notebook, files: Seq<Seq<char>>, date: Seq<char>) -> bool {
    &&& nb.color@ == "#00CD00"@
    &&& nb.icon@ == "book-2"@
    &&& nb.id@ == "automated_"@ + date
    &&& nb.name@ == "AUTO NOTEBOOK ("@ + date + ")"@
    &&& nb.opened == true
    &&& nb.children@.len() == files.len()
    &&& forall|i: int|
        0 <= i < files.len() ==> (#[trigger] nb.children@[i] matches CodexItem::Note(n)
            && note_matches(n, files[i], (i + 1) as nat, date))
}

/// Two synthesized notes of one pass never share an identifier: the date
/// part repeats, but the index part differs.
pub proof fn lemma_synthesized_ids_unique(i: nat, j: nat, date: Seq<char>)
    requires
        i != j,
    ensures
        note_id(i, date) != note_id(j, date),
{
    if note_id(i, date) == note_id(j, date) {
        let p = "automated_note_"@;
        let di = dec_str(i);
        let dj = dec_str(j);
        assert(note_id(i, date).len() == p.len() + di.len() + "_"@.len() + date.len());
        assert(note_id(j, date).len() == p.len() + dj.len() + "_"@.len() + date.len());
        assert(di.len() == dj.len());
        assert(di =~= note_id(i, date).subrange(p.len() as int, (p.len() + di.len()) as int));
        assert(dj =~= note_id(j, date).subrange(p.len() as int, (p.len() + dj.len()) as int));
        lemma_dec_str_injective(i, j);
        assert(false);
    }
}

/// Builds one note for each filename of `notenames`, numbered from one in
/// the order given; the numbering fixes both the display name and the
/// date-stamped identifier.
pub fn create_notebook_children(notenames: Vec<String>, date: &String) -> (notes: Vec<Note>)
    ensures
        notes_match(notes@, notenames.deep_view(), date@),
{
    let mut notes: Vec<Note> = Vec::new();
    let mut i: usize = 0;
    while i < notenames.len()
        invariant
            i <= notenames@.len(),
            notes@.len() == i,
            forall|k: int|
                0 <= k < i ==> note_matches(
                    #[trigger] notes@[k],
                    notenames.deep_view()[k],
                    (k + 1) as nat,
                    date@,
                ),
        decreases notenames@.len() - i,
    {
        let num = u64_to_decimal((i + 1) as u64);
        let mut id = String::from_str("automated_note_");
        id.append(num.as_str());
        id.append("_");
        id.append(date.as_str());
        let mut name = String::from_str("unnamed ");
        name.append(num.as_str());
        let note = Note {
            color: String::from_str("#999999"),
            icon: String::from_str("file-text"),
            id,
            name,
            favorited: false,
            file_name: notenames[i].clone(),
            text_content: String::from_str(""),
        };
        proof {
            reveal_strlit("");
            assert(""@ =~= Seq::<char>::empty());
            assert(note_matches(note, notenames.deep_view()[i as int], (i + 1) as nat, date@));
        }
        notes.push(note);
        i += 1;
    }
    notes
}

/// Wraps the synthesized notes into the pass's single fresh notebook; an
/// empty pass yields none, the signal that nothing was imported.
pub fn create_notebook(children: Vec<Note>, date: &String) -> (r: Option<Notebook>)
    ensures
        r is None <==> children@.len() == 0,
        r matches Some(nb) ==> {
            &&& nb.color@ == "#00CD00"@
            &&& nb.icon@ == "book-2"@
            &&& nb.id@ == "automated_"@ + date@
            &&& nb.name@ == "AUTO NOTEBOOK ("@ + date@ + ")"@
            &&& nb.opened == true
            &&& nb.children@.len() == children@.len()
            &&& forall|i: int|
                0 <= i < children@.len() ==> (#[trigger] nb.children@[i] matches CodexItem::Note(n)
                    && n == children@[i])
        },
{
    if children.is_empty() {
        return None;
    }
    let mut id = String::from_str("automated_");
    id.append(date.as_str());
    let mut name = String::from_str("AUTO NOTEBOOK (");
    name.append(date.as_str());
    name.append(")");
    let ghost all = children@;
    let mut rest = children;
    let mut codex_children: Vec<CodexItem> = Vec::new();
    while rest.len() > 0
        invariant
            codex_children@.len() + rest@.len() == all.len(),
            rest@ == all.subrange(codex_children@.len() as int, all.len() as int),
            forall|i: int|
                0 <= i < codex_children@.len() ==> (#[trigger] codex_children@[i] matches CodexItem::Note(n)
                    && n == all[i]),
        decreases rest@.len(),
    {
        let note = rest.remove(0);
        proof {
            assert(rest@ =~= all.subrange(codex_children@.len() + 1 as int, all.len() as int));
        }
        codex_children.push(CodexItem::Note(note));
    }
    Some(
        Notebook {
            color: String::from_str("#00CD00"),
            icon: String::from_str("book-2"),
            id,
            name,
            opened: true,
            children: codex_children,
        },
    )
}

/// The single notebook of a pass carries exactly the new filenames: its
/// children's file identifiers are `files`, in order.
pub proof fn lemma_notebook_of_notes(nb: Notebook, notes: Seq<Note>, files: Seq<Seq<char>>, date: Seq<char>)
    requires
        notes_match(notes, files, date),
        nb.color@ == "#00CD00"@,
        nb.icon@ == "book-2"@,
        nb.id@ == "automated_"@ + date,
        nb.name@ == "AUTO NOTEBOOK ("@ + date + ")"@,
        nb.opened == true,
        nb.children@.len() == notes.len(),
        forall|i: int|
            0 <= i < notes.len() ==> (#[trigger] nb.children@[i] matches CodexItem::Note(n) && n
                == notes[i]),
    ensures
        notebook_matches(nb, files, date),
{
}

} // verus!
