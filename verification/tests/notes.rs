use git_integrity::local_drive::EntryType;
use git_integrity::notes::{
    app_data_root, clean_notes, delete_drill_down_note, ensure_existing_folder, first_remote_url,
    load_drill_down_notes, normalized_folder_path, notes_file_name, notes_path_for_repository, read_notes_file,
    repository_identity, set_drill_down_note, stable_hash, DrillDownNotes, NotesBase, NotesWrite, Platform,
    SavedNote, Variables, WriteStep,
};
use git_integrity::text_map::TextMap;
use std::collections::BTreeMap;

// The files of the notes folder, by name.
struct Store {
    files: BTreeMap<String, Vec<(String, String)>>,
}

const REMOTE: &str = "https://example.test/org/repo.git";

fn file_of(repository: &str, remote: &str) -> String {
    let url = first_remote_url(Some(Some(remote.to_string())), None);
    let identity = repository_identity(url, Ok(repository.to_string()));
    notes_path_for_repository("/notes", identity).unwrap()
}

impl Store {
    fn read(&self, file: &str) -> Result<TextMap<String>, String> {
        let found = self.files.get(file).map(|entries| {
            entries
                .iter()
                .map(|(path, note)| SavedNote { path: path.clone(), note: note.clone() })
                .collect()
        });
        read_notes_file(Ok(found))
    }

    fn write(&mut self, file: &str, notes: &TextMap<String>) {
        let mut write = NotesWrite::new(notes);
        loop {
            match write.step {
                WriteStep::CreateFolder => write.folder_created(Ok(())),
                WriteStep::RemoveEmpty => {
                    self.files.remove(file);
                    write.empty_removed(Ok(()));
                }
                WriteStep::WriteTemporary => write.temporary_written(Ok(())),
                WriteStep::Rename => {
                    let entries = (0..notes.len())
                        .map(|i| (notes.key_at(i).clone(), notes.value_at(i).clone()))
                        .collect();
                    self.files.insert(file.to_string(), entries);
                    write.renamed(Ok(()), true);
                }
                WriteStep::RemoveOld { .. } | WriteStep::RenameAgain => unreachable!(),
                WriteStep::Done { result } => {
                    result.unwrap();
                    return;
                }
            }
        }
    }

    fn set(&mut self, file: &str, relative: &str, note: &str) -> DrillDownNotes {
        let key = normalized_folder_path(relative).unwrap();
        ensure_existing_folder(&key, Ok(EntryType::Directory)).unwrap();
        let changed = set_drill_down_note(self.read(file), key, note);
        self.write(file, &changed.notes);
        changed
    }

    fn delete(&mut self, file: &str, relative: &str) -> DrillDownNotes {
        let key = normalized_folder_path(relative).unwrap();
        let changed = delete_drill_down_note(self.read(file), &key);
        self.write(file, &changed.notes);
        changed
    }

    fn load(&self, file: &str) -> DrillDownNotes {
        load_drill_down_notes(self.read(file))
    }
}

fn store() -> Store {
    Store { files: BTreeMap::new() }
}

#[test]
fn repository_without_notes_loads_empty_without_creating_a_file() {
    let store = store();
    let loaded = store.load(&file_of("/repo", REMOTE));
    assert!(loaded.notes.is_empty());
    assert!(loaded.error.is_none());
    assert!(store.files.is_empty());
}

#[test]
fn add_edit_delete_and_multiple_folder_notes_round_trip() {
    let mut store = store();
    let file = file_of("/repo", REMOTE);
    let added = store.set(&file, "work/a", "First");
    assert_eq!(added.notes.get("work/a").map(String::as_str), Some("First"));
    let edited = store.set(&file, "work\\a\\", "Second");
    assert_eq!(edited.notes.get("work/a").map(String::as_str), Some("Second"));
    let multiple = store.set(&file, "work/b", "Other");
    assert_eq!(multiple.notes.len(), 2);
    assert!(!multiple.notes.contains_key("work/missing"));
    let deleted = store.delete(&file, "work/a");
    assert!(!deleted.notes.contains_key("work/a"));
    assert_eq!(deleted.notes.get("work/b").map(String::as_str), Some("Other"));
    assert_eq!(store.load(&file).notes.get("work/b").map(String::as_str), Some("Other"));
    store.delete(&file, "work/b");
    assert!(store.files.is_empty());
}

#[test]
fn malformed_json_is_reported_without_breaking_load() {
    let loaded = load_drill_down_notes(read_notes_file(Err("key must be a string".to_string())));
    assert!(loaded.notes.is_empty());
    assert!(loaded.error.as_ref().unwrap().contains("could not be loaded"));
    assert_eq!(loaded.error.unwrap(), "Personal notes could not be loaded: key must be a string");
}

#[test]
fn notes_file_name_hash_is_pinned_so_saved_notes_survive_toolchain_updates() {
    // Published FNV-1a 64 test vectors. If these ever change, every user's
    // existing notes file would be orphaned.
    assert_eq!(stable_hash(""), "cbf29ce484222325");
    assert_eq!(stable_hash("a"), "af63dc4c8601ec8c");
    assert_eq!(stable_hash("foobar"), "85944171f73967e8");
}

#[test]
fn paths_are_normalized_across_platform_separators() {
    assert_eq!(normalized_folder_path("work\\a\\").unwrap(), "work/a");
    assert_eq!(normalized_folder_path("./work//a").unwrap(), "work/a");
    assert!(normalized_folder_path("../outside").is_err());
    assert!(normalized_folder_path("C:/outside").is_err());
}

#[test]
fn repository_identity_can_follow_a_moved_clone_when_remote_matches() {
    let mut store = store();
    store.set(&file_of("/moved/first", REMOTE), "work/a", "Shared by remote");
    let loaded = store.load(&file_of("/moved/second", REMOTE));
    assert_eq!(loaded.notes.get("work/a").map(String::as_str), Some("Shared by remote"));
}

#[test]
fn large_tree_lookup_is_plain_hashmap_work_after_load() {
    let mut store = store();
    let file = file_of("/repo", REMOTE);
    for index in 0..100 {
        store.set(&file, &format!("work/a/f{index:03}"), &format!("Note {index}"));
    }
    let loaded = store.load(&file);
    assert_eq!(loaded.notes.len(), 100);
    assert_eq!(loaded.notes.get("work/a/f042").map(String::as_str), Some("Note 42"));
}

#[test]
fn each_refused_path_has_its_message() {
    let refusal = |path: &str| normalized_folder_path(path).unwrap_err();
    assert_eq!(refusal("  / "), "Select a folder before adding a personal note");
    assert_eq!(refusal("./."), "Select a folder before adding a personal note");
    assert_eq!(refusal("a:b"), "Personal note paths must be repository-relative");
    assert_eq!(refusal("a/../b"), "Personal note paths cannot leave the repository");
    assert_eq!(normalized_folder_path("/a/./b/").unwrap(), "a/b");
    assert_eq!(normalized_folder_path("a /").unwrap(), "a ");
    assert_eq!(normalized_folder_path("a ").unwrap(), "a");
    assert_eq!(normalized_folder_path(&normalized_folder_path("x\\\\y").unwrap()).unwrap(), "x/y");
}

#[test]
fn notes_are_kept_for_folders_only() {
    assert_eq!(
        ensure_existing_folder("a", Ok(EntryType::File { bytes: 1 })).unwrap_err(),
        "Personal notes are available for folders only"
    );
    assert_eq!(
        ensure_existing_folder("a", Ok(EntryType::Symlink)).unwrap_err(),
        "Personal notes are available for folders only"
    );
    assert_eq!(ensure_existing_folder("a", Err("gone".to_string())).unwrap_err(), "gone");
    assert_eq!(
        ensure_existing_folder("a/../b", Ok(EntryType::Directory)).unwrap_err(),
        "Personal note paths must be repository-relative"
    );
    assert!(ensure_existing_folder("a/b", Ok(EntryType::Directory)).is_ok());
}

#[test]
fn saved_entries_are_cleaned_when_they_are_read() {
    let saved = |path: &str, note: &str| SavedNote { path: path.to_string(), note: note.to_string() };
    let notes = clean_notes(&vec![
        saved("a\\b", " one "),
        saved("../c", "outside"),
        saved("d", "  "),
        saved("a/b", "two"),
    ]);
    assert_eq!(notes.len(), 1);
    assert_eq!(notes.get("a/b").map(String::as_str), Some("two"));
}

#[test]
fn a_blank_note_takes_the_note_away() {
    let mut notes = TextMap::new();
    notes.insert("a".to_string(), "one".to_string());
    notes.insert("b".to_string(), "two".to_string());
    let changed = set_drill_down_note(Ok(notes), "a".to_string(), "  \n");
    assert_eq!(changed.notes.len(), 1);
    assert_eq!(changed.notes.get("b").map(String::as_str), Some("two"));
    let unread = set_drill_down_note(Err("broken".to_string()), "c".to_string(), " x ");
    assert_eq!(unread.notes.len(), 1);
    assert_eq!(unread.notes.get("c").map(String::as_str), Some("x"));
}

#[test]
fn a_repository_without_a_remote_is_known_by_its_place() {
    assert_eq!(repository_identity(None, Ok("/here".to_string())).unwrap(), "path:/here");
    assert_eq!(repository_identity(Some("  ".to_string()), Ok("/here".to_string())).unwrap(), "path:/here");
    assert_eq!(repository_identity(Some(" u ".to_string()), Err("x".to_string())).unwrap(), "remote:u");
    assert_eq!(repository_identity(None, Err("gone".to_string())).unwrap_err(), "gone");
    assert_eq!(first_remote_url(Some(None), Some(Some("u".to_string()))), None);
    assert_eq!(first_remote_url(None, Some(Some("u".to_string()))), Some("u".to_string()));
    assert_eq!(first_remote_url(None, None), None);
    assert_eq!(notes_file_name("foobar"), "85944171f73967e8.drill-down-notes.json");
    assert_eq!(
        notes_path_for_repository("/n", Ok("foobar".to_string())).unwrap(),
        "/n/85944171f73967e8.drill-down-notes.json"
    );
    assert_eq!(notes_path_for_repository("/n", Err("gone".to_string())).unwrap_err(), "gone");
}

fn place(platform: Platform, set: Variables) -> (NotesBase, String) {
    let (base, folders) = app_data_root(platform, set);
    (base, folders.join("/"))
}

#[test]
fn the_folder_for_notes_follows_the_platform() {
    let all = Variables { override_folder: false, app_data: true, home: true, xdg_data_home: true };
    let none = Variables { override_folder: false, app_data: false, home: false, xdg_data_home: false };
    let overridden = Variables { override_folder: true, ..all };
    let only_home = Variables { home: true, ..none };
    assert!(place(Platform::Windows, overridden) == (NotesBase::Override, String::new()));
    assert!(place(Platform::Windows, all) == (NotesBase::AppData, "Git DrillDown/notes".to_string()));
    assert!(place(Platform::Windows, only_home) == (NotesBase::TemporaryFolder, "Git DrillDown/notes".to_string()));
    assert!(
        place(Platform::MacOs, all)
            == (NotesBase::Home, "Library/Application Support/Git DrillDown/notes".to_string())
    );
    assert!(place(Platform::Other, all) == (NotesBase::XdgDataHome, "Git DrillDown/notes".to_string()));
    assert!(place(Platform::Other, only_home) == (NotesBase::Home, ".local/share/Git DrillDown/notes".to_string()));
    assert!(place(Platform::Other, none) == (NotesBase::TemporaryFolder, "Git DrillDown/notes".to_string()));
}

fn failure(write: &NotesWrite) -> String {
    match &write.step {
        WriteStep::Done { result: Err(message) } => message.clone(),
        _ => panic!("writing has not failed"),
    }
}

#[test]
fn writing_falls_back_to_removing_the_old_file() {
    let mut notes = TextMap::new();
    notes.insert("a".to_string(), "one".to_string());

    let mut write = NotesWrite::new(&notes);
    write.folder_created(Ok(()));
    write.temporary_written(Ok(()));
    write.renamed(Err("busy".to_string()), true);
    assert!(matches!(write.step, WriteStep::RemoveOld { .. }));
    write.old_removed(Ok(()));
    assert!(matches!(write.step, WriteStep::RenameAgain));
    write.renamed_again(Ok(()));
    assert!(matches!(write.step, WriteStep::Done { result: Ok(()) }));

    let mut write = NotesWrite::new(&notes);
    write.folder_created(Ok(()));
    write.temporary_written(Ok(()));
    write.renamed(Err("busy".to_string()), true);
    write.old_removed(Err("locked".to_string()));
    assert_eq!(failure(&write), "busy; cleanup failed: locked");

    let mut write = NotesWrite::new(&notes);
    write.folder_created(Ok(()));
    write.temporary_written(Ok(()));
    write.renamed(Err("gone".to_string()), false);
    assert_eq!(failure(&write), "gone");

    let mut write = NotesWrite::new(&notes);
    write.folder_created(Err("denied".to_string()));
    assert_eq!(failure(&write), "denied");

    let mut write = NotesWrite::new(&TextMap::new());
    write.folder_created(Ok(()));
    assert!(matches!(write.step, WriteStep::RemoveEmpty));
    write.empty_removed(Err("locked".to_string()));
    assert_eq!(failure(&write), "locked");
}
