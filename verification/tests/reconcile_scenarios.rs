use codex_import::document::CodexItem;
use codex_import::document::Note;
use codex_import::document::Notebook;
use codex_import::document::RootItem;
use codex_import::reconcile::reconcile;
use codex_import::reconcile::reconcile_today;

fn plain_note(file_name: &str) -> Note {
    Note {
        color: String::from("#123456"),
        icon: String::from("file-text"),
        id: String::from("manual_id"),
        name: String::from("manual name"),
        favorited: true,
        file_name: String::from(file_name),
        text_content: String::from("some text"),
    }
}

fn names(v: &[&str]) -> Vec<String> {
    v.iter().map(|s| String::from(*s)).collect()
}

#[test]
fn scenario_new_and_stale() {
    // Document references {"a.md", "b.md"}; the directory holds {"a.md", "c.md"}.
    let mut doc = RootItem {
        schema_version: 2,
        items: vec![
            CodexItem::Note(plain_note("a.md")),
            CodexItem::Note(plain_note("b.md")),
        ],
    };
    let disk = names(&["a.md", "c.md"]);
    let date = String::from("20240102");
    let new_files = reconcile(&mut doc, &disk, &date);

    assert_eq!(new_files, names(&["c.md"]));
    assert_eq!(doc.schema_version, 2);
    // The note for "b.md" is pruned; one notebook with one note for "c.md" is appended.
    assert_eq!(doc.items.len(), 2);
    match &doc.items[0] {
        CodexItem::Note(n) => assert_eq!(n.file_name, "a.md"),
        CodexItem::Notebook(_) => panic!("expected the surviving note first"),
    }
    match &doc.items[1] {
        CodexItem::Notebook(nb) => {
            assert_eq!(nb.children.len(), 1);
            match &nb.children[0] {
                CodexItem::Note(n) => {
                    assert_eq!(n.file_name, "c.md");
                    assert_eq!(n.name, "unnamed 1");
                }
                CodexItem::Notebook(_) => panic!("expected a note child"),
            }
        }
        CodexItem::Note(_) => panic!("expected the synthesized notebook last"),
    }
}

#[test]
fn scenario_empty_document() {
    // Document empty, directory holds {"x.md", "y.md"}: both imported, no pruning.
    let mut doc = RootItem { schema_version: 1, items: Vec::new() };
    let disk = names(&["x.md", "y.md"]);
    let date = String::from("20240102");
    let new_files = reconcile(&mut doc, &disk, &date);

    assert_eq!(new_files, names(&["x.md", "y.md"]));
    assert_eq!(doc.items.len(), 1);
    match &doc.items[0] {
        CodexItem::Notebook(nb) => {
            assert_eq!(nb.color, "#00CD00");
            assert_eq!(nb.icon, "book-2");
            assert_eq!(nb.id, "automated_20240102");
            assert_eq!(nb.name, "AUTO NOTEBOOK (20240102)");
            assert!(nb.opened);
            assert_eq!(nb.children.len(), 2);
            match (&nb.children[0], &nb.children[1]) {
                (CodexItem::Note(first), CodexItem::Note(second)) => {
                    assert_eq!(first.name, "unnamed 1");
                    assert_eq!(first.file_name, "x.md");
                    assert_eq!(second.name, "unnamed 2");
                    assert_eq!(second.file_name, "y.md");
                }
                _ => panic!("expected two note children"),
            }
        }
        CodexItem::Note(_) => panic!("expected one synthesized notebook"),
    }
}

#[test]
fn scenario_all_up_to_date() {
    // Document references {"z.md"}, directory holds {"z.md"}: nothing to import.
    let mut doc = RootItem {
        schema_version: 1,
        items: vec![CodexItem::Note(plain_note("z.md"))],
    };
    let disk = names(&["z.md"]);
    let date = String::from("20240102");
    let new_files = reconcile(&mut doc, &disk, &date);

    assert!(new_files.is_empty());
    assert_eq!(doc.items.len(), 1);
    match &doc.items[0] {
        CodexItem::Note(n) => {
            assert_eq!(n.file_name, "z.md");
            assert_eq!(n.text_content, "some text");
        }
        CodexItem::Notebook(_) => panic!("no notebook may be appended"),
    }
}

#[test]
fn scenario_empty_everything() {
    // Empty directory, document referencing zero files: the pass changes nothing.
    let mut doc = RootItem {
        schema_version: 3,
        items: vec![CodexItem::Notebook(Notebook {
            color: String::from("#ABCDEF"),
            icon: String::from("book-2"),
            id: String::from("kept"),
            name: String::from("empty but kept"),
            children: Vec::new(),
            opened: false,
        })],
    };
    let disk: Vec<String> = Vec::new();
    let date = String::from("20240102");
    let new_files = reconcile(&mut doc, &disk, &date);

    assert!(new_files.is_empty());
    assert_eq!(doc.schema_version, 3);
    assert_eq!(doc.items.len(), 1);
    match &doc.items[0] {
        CodexItem::Notebook(nb) => {
            assert_eq!(nb.id, "kept");
            assert!(nb.children.is_empty());
        }
        CodexItem::Note(_) => panic!("the empty notebook must survive"),
    }
}

#[test]
fn second_pass_imports_nothing() {
    let mut doc = RootItem { schema_version: 1, items: Vec::new() };
    let disk = names(&["x.md", "y.md"]);
    let date = String::from("20240102");
    let first = reconcile(&mut doc, &disk, &date);
    assert_eq!(first.len(), 2);
    let items_after_first = doc.items.len();

    // No filesystem change: the second pass finds nothing new and prunes nothing.
    let second = reconcile(&mut doc, &disk, &date);
    assert!(second.is_empty());
    assert_eq!(doc.items.len(), items_after_first);
}

#[test]
fn nested_identifiers_protect_against_reimport() {
    // A file referenced only deep inside a nested notebook is still seen.
    let inner = Notebook {
        color: String::from("#111111"),
        icon: String::from("book-2"),
        id: String::from("inner"),
        name: String::from("inner"),
        children: vec![CodexItem::Note(plain_note("deep.md"))],
        opened: false,
    };
    let outer = Notebook {
        color: String::from("#222222"),
        icon: String::from("book-2"),
        id: String::from("outer"),
        name: String::from("outer"),
        children: vec![CodexItem::Notebook(inner)],
        opened: true,
    };
    let mut doc = RootItem { schema_version: 1, items: vec![CodexItem::Notebook(outer)] };
    let disk = names(&["deep.md"]);
    let date = String::from("20240102");
    let new_files = reconcile(&mut doc, &disk, &date);
    assert!(new_files.is_empty());
    assert_eq!(doc.items.len(), 1);
}

#[test]
fn reconcile_today_stamps_a_date() {
    let mut doc = RootItem { schema_version: 1, items: Vec::new() };
    let disk = names(&["fresh.md"]);
    let new_files = reconcile_today(&mut doc, &disk);
    assert_eq!(new_files, names(&["fresh.md"]));
    assert_eq!(doc.items.len(), 1);
    match &doc.items[0] {
        CodexItem::Notebook(nb) => {
            assert!(nb.id.starts_with("automated_"));
            assert!(nb.name.starts_with("AUTO NOTEBOOK ("));
            match &nb.children[0] {
                CodexItem::Note(n) => {
                    assert!(n.id.starts_with("automated_note_1_"));
                    assert_eq!(n.file_name, "fresh.md");
                }
                CodexItem::Notebook(_) => panic!("expected a note child"),
            }
        }
        CodexItem::Note(_) => panic!("expected one synthesized notebook"),
    }
}
