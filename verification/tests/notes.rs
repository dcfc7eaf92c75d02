//! Note titles, previews, file names and the notes provider.

use omarchycastd::providers::notes::{
    new_note_title, note_file_name, note_template, preview_for, slugify, title_for, Note, NotesProvider,
};
use omarchycastd::search::{Action, Activation, Query};

#[test]
fn slugs_are_safe_and_readable() {
    assert_eq!(slugify("Meeting notes: Q3 / roadmap"), "meeting-notes-q3-roadmap");
    assert_eq!(slugify("  ...  "), "note");
    assert_eq!(slugify("../../etc/passwd"), "etc-passwd");
}

#[test]
fn title_prefers_the_first_heading() {
    assert_eq!(title_for("/x/a-note.md", "\n# Real Title\nbody"), "Real Title");
    assert_eq!(title_for("/x/a-note.md", "no heading here"), "a note");
}

#[test]
fn preview_skips_headings_and_blanks() {
    assert_eq!(preview_for("# Title\n\n\nThe   body line\nmore"), "The body line");
    assert_eq!(preview_for("# Title\n"), "");
}

#[test]
fn long_previews_are_cut() {
    let long = "w ".repeat(100);
    let p = preview_for(&long);
    assert_eq!(p.chars().count(), 90);
    assert!(p.ends_with('\u{2026}'));
}

#[test]
fn slugs_are_capped_and_titles_fall_back() {
    assert_eq!(slugify(&"a".repeat(100)).len(), 60);
    assert_eq!(title_for("/x/my_note-file.md", "#NoSpace"), "my note file");
    assert_eq!(title_for("/", ""), "Untitled");
}

#[test]
fn creating_a_note_names_its_file() {
    assert_eq!(new_note_title("  Groceries ").unwrap(), "Groceries");
    assert_eq!(new_note_title("   ").unwrap_err(), "a note needs a title");
    assert_eq!(note_file_name("Groceries list", None), "groceries-list.md");
    assert_eq!(note_file_name("Groceries list", Some(2)), "groceries-list-2.md");
    assert_eq!(note_template("Groceries"), "# Groceries\n\n");
}

#[test]
fn provider_offers_creation_and_finds_body_text() {
    let mut p = NotesProvider::new("/home/u/Notes".to_string());
    p.set_notes(vec![
        Note::read("/home/u/Notes/shop.md".to_string(), "# Shopping\n\nmilk and eggs\n"),
        Note::read("/home/u/Notes/todo.md".to_string(), "# Todo\nfix the bike\n"),
    ]);
    let items = p.query(&Query::new("note Bike repair"));
    assert_eq!(items[0].id, "note:new:Bike repair");
    assert_eq!(items[0].title, "New note: Bike repair");
    assert_eq!(items[0].subtitle.as_deref(), Some("Create in /home/u/Notes"));
    let found = p.query(&Query::new("eggs"));
    assert!(found.iter().any(|i| i.id == "note:/home/u/Notes/shop.md" && i.subtitle.as_deref() == Some("milk and eggs")));
    assert!(p.query(&Query::new("e")).is_empty());
    match p.activate("new:Bike", Action::Primary) {
        Ok(Activation::CreateNote { title }) => assert_eq!(title, "Bike"),
        _ => panic!("a new: row creates a note"),
    }
    match p.activate("/home/u/Notes/shop.md", Action::Primary) {
        Ok(Activation::Launch { program, args }) => {
            assert_eq!(program, "omacastnotes");
            assert_eq!(args, vec!["/home/u/Notes/shop.md".to_string()]);
        }
        _ => panic!("a note row opens the note"),
    }
    assert!(!p.set_directory("/home/u/Notes".to_string()));
    assert!(p.set_directory("/tmp/n".to_string()));
    assert_eq!(p.directory(), "/tmp/n");
}
