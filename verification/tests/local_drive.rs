use git_integrity::local_drive::browsing::{answer_created, list_local_directory_inner, ListedItem};
use git_integrity::local_drive::comparison::{
    cannot_inspect_message, check_comparison_roots, check_item_limit, collect_item, compare_local_directories_inner, plan_comparison,
    probably_reviewable_text, read_in_step, Collected, FilePairReader, FileReader, FoundItem, ItemKind,
    LocalDirectoryComparison, LocalDirectoryDifference, PlannedRow, Probe, RowKind,
};
use git_integrity::local_drive::copying::{
    check_copy_source, check_copy_target, finish_file_copy, move_local_item_with, plan_copy,
    trash_checked_item, trash_failed_message, trash_local_item_with, validate_trash_target, CopyPlan, FileCopy, FileStep, TreeCopy, TreeStep,
};
use git_integrity::local_drive::editing::{
    existing_editable_file, finish_save, plan_save, read_local_text_file_inner, SaveOutcome,
};
use git_integrity::local_drive::guided::{
    check_merge_roots, copy_local_merge_file_inner, create_local_merge_directory_inner, folders_on_the_way,
    replace_local_merge_file_inner, GuidedMerge, GuidedStep,
};
use git_integrity::local_drive::merge::{configured_submodule_keys, safe_relative_path};
use git_integrity::local_drive::{existing_directory, EntryType, LocalCopyResult, LocalTextFile};
use git_integrity::paths::{ask_parts, contains_git_metadata, lies_inside, path_string, require_absolute, safe_new_folder_name, PathPart};
use git_integrity::text_map::TextMap;
use std::cell::RefCell;
use std::collections::BTreeMap;

// A file system in memory.

enum Node {
    Folder,
    File(Vec<u8>),
    Link,
    Socket,
}

struct Disk {
    nodes: BTreeMap<String, Node>,
}

fn parent_of(path: &str) -> String {
    match path.rfind('/') {
        Some(0) | None => "/".to_string(),
        Some(i) => path[..i].to_string(),
    }
}

impl Disk {
    fn new() -> Disk {
        let mut nodes = BTreeMap::new();
        nodes.insert("/".to_string(), Node::Folder);
        Disk { nodes }
    }

    fn folder(&mut self, path: &str) {
        let parent = parent_of(path);
        if !self.has(&parent) {
            self.folder(&parent);
        }
        self.nodes.insert(path.to_string(), Node::Folder);
    }

    fn write(&mut self, path: &str, content: &[u8]) {
        let parent = parent_of(path);
        if !self.has(&parent) {
            self.folder(&parent);
        }
        self.nodes.insert(path.to_string(), Node::File(content.to_vec()));
    }

    fn has(&self, path: &str) -> bool {
        self.nodes.contains_key(path)
    }

    fn read(&self, path: &str) -> Option<Vec<u8>> {
        match self.nodes.get(path) {
            Some(Node::File(content)) => Some(content.clone()),
            _ => None,
        }
    }

    fn inspect(&self, path: &str) -> Result<EntryType, String> {
        match self.nodes.get(path) {
            Some(Node::Folder) => Ok(EntryType::Directory),
            Some(Node::File(content)) => Ok(EntryType::File { bytes: content.len() as u64 }),
            Some(Node::Link) => Ok(EntryType::Symlink),
            Some(Node::Socket) => Ok(EntryType::Other),
            None => Err("not found".to_string()),
        }
    }

    fn children(&self, path: &str) -> Vec<String> {
        let prefix = if path == "/" { "/".to_string() } else { format!("{path}/") };
        self.nodes
            .keys()
            .filter(|key| key.starts_with(&prefix) && key.len() > prefix.len())
            .map(|key| key[prefix.len()..].to_string())
            .filter(|name| !name.contains('/'))
            .collect()
    }

    fn create_folder(&mut self, path: &str) -> Result<(), String> {
        if self.has(path) {
            return Err("file exists".to_string());
        }
        self.nodes.insert(path.to_string(), Node::Folder);
        Ok(())
    }

    fn remove_all(&mut self, path: &str) {
        let prefix = format!("{path}/");
        self.nodes.retain(|key, _| key != path && !key.starts_with(&prefix));
    }

    fn fingerprint(&self, path: &str) -> Result<String, String> {
        let content = self.read(path).ok_or("not a file".to_string())?;
        let mut reader = FileReader::new();
        reader.read(&content);
        Ok(reader.finish(content.len() as u64))
    }
}

// Comparing two folders.

fn scan(
    disk: &Disk,
    root: &str,
    current: &str,
    output: &mut TextMap<FoundItem>,
    ignore_submodules: bool,
    configured: &TextMap<()>,
) -> Result<(), String> {
    for name in disk.children(current) {
        let path = format!("{current}/{name}");
        let entry = disk.inspect(&path)?;
        let folder = current[root.len()..].trim_start_matches('/');
        let boundary = disk.has(&format!("{path}/.git"));
        match collect_item(output, folder, &name, entry, boundary, ignore_submodules, configured, false)? {
            Collected::Skipped => continue,
            Collected::Noted => {}
            Collected::Descend => scan(disk, root, &path, output, ignore_submodules, configured)?,
        }
        check_item_limit(output)?;
    }
    Ok(())
}

fn probe(disk: &Disk, left_root: &str, right_root: &str, row: &PlannedRow) -> Probe {
    let left = row.left.as_ref().map(|path| path_string(left_root, path));
    let right = row.right.as_ref().map(|path| path_string(right_root, path));
    let mut probe = Probe {
        identical: false,
        left_fingerprint: String::new(),
        right_fingerprint: String::new(),
        left_reviewable: false,
        right_reviewable: false,
    };
    match row.kind {
        RowKind::FilePair { left_bytes, right_bytes } => {
            let (left, right) = (left.unwrap(), right.unwrap());
            if read_in_step(left_bytes, right_bytes) {
                let mut reader = FilePairReader::new();
                reader.read(&disk.read(&left).unwrap(), &disk.read(&right).unwrap());
                assert!(reader.read(&[], &[]));
                let (identical, left_fingerprint, right_fingerprint) = reader.finish(left_bytes, right_bytes);
                probe.identical = identical;
                probe.left_fingerprint = left_fingerprint;
                probe.right_fingerprint = right_fingerprint;
            } else {
                probe.left_fingerprint = disk.fingerprint(&left).unwrap();
                probe.right_fingerprint = disk.fingerprint(&right).unwrap();
            }
            probe.left_reviewable = probably_reviewable_text(left_bytes, disk.read(&left));
            probe.right_reviewable = probably_reviewable_text(right_bytes, disk.read(&right));
        }
        RowKind::LeftFile { bytes } => {
            probe.left_reviewable = probably_reviewable_text(bytes, disk.read(&left.unwrap()));
        }
        RowKind::RightFile { bytes } => {
            probe.right_reviewable = probably_reviewable_text(bytes, disk.read(&right.unwrap()));
        }
        _ => {}
    }
    probe
}

fn compare(disk: &Disk, left: &str, right: &str, ignore_submodules: bool) -> Result<LocalDirectoryComparison, String> {
    check_comparison_roots(left == right, left, right)?;
    let mut configured = TextMap::new();
    for root in [left, right] {
        if let Some(content) = disk.read(&format!("{root}/.gitmodules")) {
            configured_submodule_keys(&String::from_utf8(content).unwrap(), false, &mut configured);
        }
    }
    let mut left_items = TextMap::new();
    let mut right_items = TextMap::new();
    scan(disk, left, left, &mut left_items, ignore_submodules, &configured)?;
    scan(disk, right, right, &mut right_items, ignore_submodules, &configured)?;
    let rows = plan_comparison(&left_items, &right_items, ignore_submodules);
    let probes: Vec<Probe> = rows.iter().map(|row| probe(disk, left, right, row)).collect();
    Ok(compare_local_directories_inner(left, right, &rows, &probes))
}

fn entry<'a>(result: &'a LocalDirectoryComparison, path: &str) -> &'a LocalDirectoryDifference {
    result.entries.iter().find(|item| item.relative_path == path).unwrap()
}

#[test]
fn a_scan_joins_names_and_passes_over_git() {
    let configured = TextMap::new();
    let mut items = TextMap::new();
    let file = EntryType::File { bytes: 3 };
    let mut take = |folder: &str, name: &str, entry: EntryType, windows: bool| {
        collect_item(&mut items, folder, name, entry, false, true, &configured, windows)
    };
    assert!(matches!(take("", "a", EntryType::Directory, false), Ok(Collected::Descend)));
    assert!(matches!(take("a", "b", file, false), Ok(Collected::Noted)));
    assert!(matches!(take("a", ".GIT", EntryType::Directory, false), Ok(Collected::Skipped)));
    assert!(matches!(take("a", "pipe", EntryType::Other, false), Ok(Collected::Noted)));
    assert_eq!(take("a", "b/.git", file, false).err().unwrap(), "A folder item escaped its selected root");
    assert_eq!(take("a", "b\\.git", file, true).err().unwrap(), "A folder item escaped its selected root");
    assert_eq!(take("a", "", file, false).err().unwrap(), "A folder item escaped its selected root");
    assert_eq!(items.len(), 2);
    assert_eq!(items.get("a/b").unwrap().relative, "a/b");
    let mut items = TextMap::new();
    assert!(collect_item(&mut items, "A", "B", file, false, true, &configured, true).is_ok());
    assert_eq!(items.get("a/b").unwrap().relative, "A\\B");
}

#[test]
fn a_comparison_the_other_way_round_exchanges_the_sides() {
    let mut disk = Disk::new();
    disk.write("/left/changed.txt", b"from left");
    disk.write("/right/changed.txt", b"on right");
    disk.write("/left/new.txt", b"new");
    disk.write("/right/keep.txt", b"keep");
    let there = compare(&disk, "/left", "/right", true).unwrap();
    let back = compare(&disk, "/right", "/left", true).unwrap();
    assert_eq!((back.left_root.as_str(), back.right_root.as_str()), ("/right", "/left"));
    assert_eq!((back.counts.left_only, back.counts.right_only), (there.counts.right_only, there.counts.left_only));
    assert_eq!((back.counts.modified, back.counts.same), (1, 0));
    for (a, b) in there.entries.iter().zip(&back.entries) {
        assert_eq!(a.relative_path, b.relative_path);
        assert_eq!((&a.left_path, &a.right_path), (&b.right_path, &b.left_path));
        assert_eq!((a.left_bytes, a.right_bytes), (b.right_bytes, b.left_bytes));
        assert_eq!((&a.left_fingerprint, &a.right_fingerprint), (&b.right_fingerprint, &b.left_fingerprint));
        assert_eq!((a.reviewable, &a.item_kind), (b.reviewable, &b.item_kind));
    }
    assert_eq!(entry(&back, "new.txt").status, "right-only");
    assert_eq!(entry(&back, "keep.txt").status, "left-only");
    assert_eq!(entry(&back, "changed.txt").status, "modified");
}

#[test]
fn folder_comparison_classifies_same_modified_and_one_sided_files() {
    let mut disk = Disk::new();
    disk.write("/left/same.txt", b"same");
    disk.write("/right/same.txt", b"same");
    disk.write("/left/changed.txt", b"from left");
    disk.write("/right/changed.txt", b"on right");
    disk.write("/left/new.txt", b"new");
    disk.write("/right/keep.txt", b"keep");
    let result = compare(&disk, "/left", "/right", true).unwrap();
    assert_eq!(result.counts.same, 1);
    assert_eq!(result.counts.modified, 1);
    assert_eq!(result.counts.left_only, 1);
    assert_eq!(result.counts.right_only, 1);
    let changed = entry(&result, "changed.txt");
    assert!(changed.reviewable);
    let expected_left = disk.fingerprint("/left/changed.txt").unwrap();
    let expected_right = disk.fingerprint("/right/changed.txt").unwrap();
    assert_eq!(changed.left_fingerprint.as_deref(), Some(expected_left.as_str()));
    assert_eq!(changed.right_fingerprint.as_deref(), Some(expected_right.as_str()));
    assert_eq!(changed.left_path.as_deref(), Some("/left/changed.txt"));
    assert_eq!(changed.right_path.as_deref(), Some("/right/changed.txt"));
    assert_eq!(changed.left_bytes, 9);
    assert_eq!(changed.right_bytes, 8);
    assert_eq!(result.entries.len(), 3);
    assert_eq!(entry(&result, "new.txt").status, "left-only");
    assert_eq!(entry(&result, "keep.txt").status, "right-only");
    assert_eq!(entry(&result, "keep.txt").left_path, None);
}

#[test]
fn folder_comparison_never_enters_git_metadata() {
    let mut disk = Disk::new();
    disk.folder("/left/.git/objects");
    disk.folder("/right/.git/objects");
    disk.write("/left/.git/objects/left-secret", b"left");
    disk.write("/right/.git/objects/right-secret", b"right");
    disk.write("/left/visible.txt", b"same");
    disk.write("/right/visible.txt", b"same");
    let result = compare(&disk, "/left", "/right", true).unwrap();
    assert!(result.entries.is_empty(), "identical entries and .git metadata stay out of the result payload");
}

#[test]
fn folder_comparison_reports_directories_and_can_reconcile_them_in_both_directions() {
    let mut disk = Disk::new();
    disk.folder("/left/left-empty");
    disk.folder("/right/right-empty");
    let result = compare(&disk, "/left", "/right", true).unwrap();
    let left_folder = entry(&result, "left-empty");
    assert_eq!(left_folder.item_kind, "folder");
    assert_eq!(left_folder.status, "left-only");
    let right_folder = entry(&result, "right-empty");
    assert_eq!(right_folder.item_kind, "folder");
    assert_eq!(right_folder.status, "right-only");

    let made = create_folder(&mut disk, "/left", "/right", "left-empty").unwrap();
    assert_eq!((made.destination.as_str(), made.files, made.directories, made.bytes), ("/right/left-empty", 0, 1, 0));
    create_folder(&mut disk, "/right", "/left", "right-empty").unwrap();
    assert!(matches!(disk.inspect("/right/left-empty"), Ok(EntryType::Directory)));
    assert!(matches!(disk.inspect("/left/right-empty"), Ok(EntryType::Directory)));
}

#[test]
fn ignored_submodules_are_one_explicit_row_and_their_contents_are_not_scanned() {
    let mut disk = Disk::new();
    disk.folder("/left/modules/dep/.git");
    disk.folder("/right/modules/dep");
    disk.folder("/right/modules/uninitialised/nested");
    disk.write("/left/modules/dep/left.txt", b"left");
    disk.write("/right/modules/dep/right.txt", b"right");
    disk.write("/right/modules/uninitialised/nested/right.txt", b"right");
    disk.write("/left/.gitmodules", b"[submodule \"dep\"]\n  path = modules/dep\n  url = somewhere\n[submodule \"uninitialised\"]\n  path = modules/uninitialised\n  url = somewhere-else\n");

    let ignored = compare(&disk, "/left", "/right", true).unwrap();
    assert_eq!(ignored.counts.ignored_submodules, 2);
    assert_eq!(ignored.entries.iter().filter(|item| item.status == "ignored-submodule").count(), 2);
    assert!(!ignored.entries.iter().any(|item| item.relative_path.ends_with("left.txt") || item.relative_path.ends_with("right.txt")));

    let included = compare(&disk, "/left", "/right", false).unwrap();
    assert!(included.entries.iter().any(|item| item.relative_path.ends_with("left.txt")));
    assert!(included.entries.iter().any(|item| item.relative_path.ends_with("right.txt")));
}

#[test]
fn a_file_folder_type_conflict_hides_unsafe_descendant_actions() {
    let mut disk = Disk::new();
    disk.write("/left/shared", b"left file");
    disk.folder("/right/shared/nested");
    disk.write("/right/shared/nested/right.txt", b"right child");

    let result = compare(&disk, "/left", "/right", true).unwrap();

    assert_eq!(result.counts.conflicts, 1);
    assert_eq!(result.entries.len(), 1);
    assert_eq!(result.entries[0].relative_path, "shared");
    assert_eq!(result.entries[0].status, "type-conflict");
}

#[test]
fn comparison_refuses_one_folder_and_git_metadata() {
    let disk = Disk::new();
    assert_eq!(
        compare(&disk, "/left", "/left", true).err().unwrap(),
        "Choose two different folders to compare"
    );
    assert_eq!(
        compare(&disk, "/left/.GIT", "/right", true).err().unwrap(),
        "Git metadata (.git) is protected in Local Drive"
    );
}

#[test]
fn links_are_reported_and_never_followed() {
    let mut disk = Disk::new();
    disk.folder("/left");
    disk.folder("/right");
    disk.nodes.insert("/left/both".to_string(), Node::Link);
    disk.nodes.insert("/right/both".to_string(), Node::Link);
    disk.nodes.insert("/left/one".to_string(), Node::Link);
    disk.nodes.insert("/left/pipe".to_string(), Node::Socket);
    let result = compare(&disk, "/left", "/right", true).unwrap();
    assert_eq!(result.counts.conflicts, 2);
    assert_eq!(entry(&result, "both").status, "unsupported");
    assert_eq!(entry(&result, "both").item_kind, "symlink");
    assert_eq!(entry(&result, "one").status, "type-conflict");
    assert_eq!(entry(&result, "one").item_kind, "conflict");
    assert_eq!(result.entries.len(), 2);
}

#[test]
fn exchanging_the_folders_exchanges_left_and_right() {
    let mut disk = Disk::new();
    disk.write("/left/a", b"1");
    disk.write("/left/b/c", b"2");
    disk.write("/right/b/c", b"23");
    disk.write("/right/d", b"3");
    let there = compare(&disk, "/left", "/right", true).unwrap();
    let back = compare(&disk, "/right", "/left", true).unwrap();
    assert_eq!((there.counts.left_only, there.counts.right_only), (1, 1));
    assert_eq!((back.counts.left_only, back.counts.right_only), (1, 1));
    assert_eq!(there.counts.modified, back.counts.modified);
    let paths: Vec<&str> = there.entries.iter().map(|item| item.relative_path.as_str()).collect();
    let turned: Vec<&str> = back.entries.iter().map(|item| item.relative_path.as_str()).collect();
    assert_eq!(paths, vec!["a", "b/c", "d"]);
    assert_eq!(paths, turned);
    assert_eq!(entry(&there, "a").status, "left-only");
    assert_eq!(entry(&back, "a").status, "right-only");
    assert_eq!(entry(&there, "b/c").left_bytes, entry(&back, "b/c").right_bytes);
    let total = there.counts.same + there.counts.modified + there.counts.left_only + there.counts.right_only;
    assert_eq!(total, 4);
}

#[test]
fn a_copy_of_a_folder_shows_no_difference() {
    let mut disk = Disk::new();
    for root in ["/left", "/right"] {
        disk.write(&format!("{root}/x/y"), b"same");
        disk.write(&format!("{root}/z"), b"too");
    }
    let result = compare(&disk, "/left", "/right", true).unwrap();
    assert!(result.entries.is_empty());
    assert_eq!(result.counts.same, 3);
    assert_eq!(result.left_root, "/left");
    assert_eq!(result.right_root, "/right");
}

#[test]
fn a_scan_stops_at_too_many_items() {
    let mut items: TextMap<FoundItem> = TextMap::new();
    for n in 0..50_001u32 {
        let name = format!("{n:05}");
        items.insert(name.clone(), FoundItem { relative: name, kind: ItemKind::Directory });
        if n < 3 {
            assert!(check_item_limit(&items).is_ok());
        }
    }
    assert_eq!(cannot_inspect_message("/x", "denied"), "Cannot inspect '/x': denied");
    assert_eq!(
        check_item_limit(&items).unwrap_err(),
        "Folder comparison stopped safely after 50000 items. Narrow the two folders and compare again."
    );
}

#[test]
fn fingerprints_name_the_digest_and_the_size() {
    let mut one = FileReader::new();
    one.read(b"abc");
    one.read(b"def");
    let mut other = FileReader::new();
    other.read(b"abcdef");
    let fingerprint = one.finish(6);
    assert_eq!(fingerprint, other.finish(6));
    assert!(fingerprint.ends_with(":6"));
    assert_eq!(fingerprint.len(), 18);
    let mut pair = FilePairReader::new();
    assert!(!pair.read(b"abc", b"abd"));
    assert!(pair.read(b"", b""));
    let (identical, left, right) = pair.finish(3, 3);
    assert!(!identical);
    assert_ne!(left, right);
}

#[test]
fn only_small_text_is_reviewable() {
    assert!(probably_reviewable_text(3, Some(b"abc".to_vec())));
    assert!(!probably_reviewable_text(3, Some(vec![0, 1, 2])));
    assert!(!probably_reviewable_text(3, None));
    assert!(probably_reviewable_text(2_097_152, Some(b"abc".to_vec())));
    assert!(!probably_reviewable_text(2_097_153, Some(b"abc".to_vec())));
}

// Copying.

fn run_file_copy(disk: &mut Disk, mut copy: FileCopy) -> Result<u64, String> {
    loop {
        match &copy.step {
            FileStep::OpenSource => {
                let opened = disk.read(&copy.source).map(|_| ()).ok_or("not found".to_string());
                copy.source_opened(opened);
            }
            FileStep::CreateDestination => {
                let occupied = disk.has(&copy.destination);
                let created = if occupied {
                    Err("file exists".to_string())
                } else {
                    let destination = copy.destination.clone();
                    disk.write(&destination, b"");
                    Ok(())
                };
                copy.destination_created(created, occupied);
            }
            FileStep::Transfer => {
                let content = disk.read(&copy.source).unwrap();
                let destination = copy.destination.clone();
                disk.write(&destination, &content);
                copy.transferred(Ok(content.len() as u64));
            }
            FileStep::Flush { .. } => copy.flushed(Ok(())),
            FileStep::CopyPermissions { .. } => copy.permissions_copied(),
            FileStep::RemoveDestination { .. } => {
                let destination = copy.destination.clone();
                disk.remove_all(&destination);
                copy.destination_removed();
            }
            FileStep::Done { .. } => break,
        }
    }
    match copy.step {
        FileStep::Done { result } => result,
        _ => unreachable!(),
    }
}

fn run_tree_copy(disk: &mut Disk, mut copy: TreeCopy) -> Result<LocalCopyResult, String> {
    let mut pending: Vec<Vec<String>> = Vec::new();
    loop {
        match &copy.step {
            TreeStep::CreateFolder { source, destination } => {
                let (source, destination) = (source.clone(), destination.clone());
                let occupied = disk.has(&destination);
                let created = disk.create_folder(&destination);
                if created.is_ok() {
                    let mut names = disk.children(&source);
                    names.reverse();
                    pending.push(names);
                }
                copy.folder_created(created, occupied);
            }
            TreeStep::NextItem => match pending.last_mut().unwrap().pop() {
                None => copy.items_exhausted(),
                Some(name) => {
                    let folder = copy.open.last().unwrap();
                    let source = format!("{}/{name}", folder.source);
                    let destination = format!("{}/{name}", folder.destination);
                    match disk.inspect(&source) {
                        Ok(entry) => copy.item_found(source, destination, entry),
                        Err(error) => copy.item_unreadable(error),
                    }
                }
            },
            TreeStep::CopyFile { source, destination } => {
                let file = FileCopy::new(source.clone(), destination.clone());
                let copied = run_file_copy(disk, file);
                copy.file_copied(copied);
            }
            TreeStep::CopyPermissions => {
                pending.pop();
                copy.permissions_copied();
            }
            TreeStep::RemoveFolder { .. } => {
                let destination = copy.open.last().unwrap().destination.clone();
                disk.remove_all(&destination);
                copy.folder_removed();
            }
            TreeStep::Done { .. } => return copy.finish(),
        }
    }
}

fn copy_item(disk: &mut Disk, source_path: &str, destination_folder: &str) -> Result<LocalCopyResult, String> {
    let source = require_absolute(source_path)?;
    let entry = check_copy_source(&source, disk.inspect(&source))?;
    let folder = require_absolute(destination_folder)?;
    existing_directory(&folder, disk.inspect(&folder).map(|entry| entry == EntryType::Directory))?;
    check_copy_target(entry, &ask_parts(&source), &ask_parts(&folder))?;
    let name = &source[source.rfind('/').unwrap() + 1..];
    let destination = format!("{folder}/{name}");
    let occupied = disk.has(&destination);
    match plan_copy(source, destination.clone(), occupied, entry)? {
        CopyPlan::Tree { tree } => run_tree_copy(disk, tree),
        CopyPlan::File { file } => {
            let copied = run_file_copy(disk, file);
            finish_file_copy(destination, copied)
        }
    }
}

#[test]
fn copies_a_tree_without_overwriting_an_existing_destination() {
    let mut disk = Disk::new();
    disk.folder("/source/folder/nested");
    disk.folder("/destination");
    disk.write("/source/folder/a.txt", b"alpha");
    disk.write("/source/folder/nested/b.txt", b"beta");
    let result = copy_item(&mut disk, "/source/folder", "/destination").unwrap();
    assert_eq!(result.files, 2);
    assert_eq!(result.directories, 2);
    assert_eq!(result.bytes, 9);
    assert_eq!(result.destination, "/destination/folder");
    assert_eq!(disk.read("/destination/folder/nested/b.txt").unwrap(), b"beta");
    disk.write("/destination/folder/a.txt", b"keep me");
    assert_eq!(
        copy_item(&mut disk, "/source/folder", "/destination").unwrap_err(),
        "'/destination/folder' already exists — nothing was overwritten"
    );
    assert_eq!(disk.read("/destination/folder/a.txt").unwrap(), b"keep me");
}

#[test]
fn refuses_copying_a_folder_into_itself() {
    let mut disk = Disk::new();
    disk.folder("/root/child");
    let result = copy_item(&mut disk, "/root", "/root/child");
    assert!(result.unwrap_err().contains("cannot be copied into itself"));
}

#[test]
fn a_tree_copy_that_stops_removes_what_it_made() {
    let mut disk = Disk::new();
    disk.folder("/target");
    disk.write("/source/a/one.txt", b"1");
    disk.folder("/source/a/b");
    disk.nodes.insert("/source/a/b/link".to_string(), Node::Link);
    let error = copy_item(&mut disk, "/source", "/target").unwrap_err();
    assert_eq!(
        error,
        "Copy stopped safely at symbolic link '/source/a/b/link'. Symbolic-link copying is not enabled."
    );
    assert!(disk.children("/target").is_empty());
    disk.remove_all("/source/a/b/link");
    disk.nodes.insert("/source/a/b/pipe".to_string(), Node::Socket);
    let error = copy_item(&mut disk, "/source", "/target").unwrap_err();
    assert_eq!(error, "Copy stopped safely at unsupported item '/source/a/b/pipe'.");
    assert!(disk.children("/target").is_empty());
}

#[test]
fn items_that_cannot_be_copied_are_refused() {
    let mut disk = Disk::new();
    disk.folder("/target");
    disk.folder("/repo/.git");
    disk.nodes.insert("/link".to_string(), Node::Link);
    disk.nodes.insert("/pipe".to_string(), Node::Socket);
    assert_eq!(
        copy_item(&mut disk, "/missing", "/target").unwrap_err(),
        "Cannot open '/missing': not found"
    );
    assert_eq!(
        copy_item(&mut disk, "/link", "/target").unwrap_err(),
        "Symbolic-link copying is not enabled because following it could copy an unexpected location"
    );
    assert_eq!(
        copy_item(&mut disk, "/repo/.git", "/target").unwrap_err(),
        "Git metadata (.git) is protected in Local Drive"
    );
    assert_eq!(copy_item(&mut disk, "/pipe", "/target").unwrap_err(), "This item type cannot be copied safely");
    assert_eq!(
        copy_item(&mut disk, "/", "/target").unwrap_err(),
        "A folder cannot be copied into itself or one of its descendants"
    );
    assert_eq!(
        check_copy_target(EntryType::Other, &ask_parts("/"), &ask_parts("/target")).unwrap_err(),
        "A filesystem root cannot be copied as one item"
    );
    assert_eq!(copy_item(&mut disk, "target", "/target").unwrap_err(), "Local Drive accepts only absolute paths");
    assert_eq!(copy_item(&mut disk, "  ", "/target").unwrap_err(), "Choose a local folder first");
    assert_eq!(copy_item(&mut disk, "/repo", "/pipe").unwrap_err(), "'/pipe' is not a folder");
    assert_eq!(copy_item(&mut disk, "/repo", "/gone").unwrap_err(), "Cannot open '/gone': not found");
}

#[test]
fn a_file_copy_reports_each_failure_and_cleans_up() {
    let mut copy = FileCopy::new("/s".to_string(), "/d".to_string());
    copy.source_opened(Err("denied".to_string()));
    assert!(matches!(&copy.step, FileStep::Done { result: Err(e) } if e == "Cannot read '/s': denied"));

    let mut copy = FileCopy::new("/s".to_string(), "/d".to_string());
    copy.source_opened(Ok(()));
    copy.destination_created(Err("denied".to_string()), false);
    assert!(matches!(&copy.step, FileStep::Done { result: Err(e) } if e == "Cannot create '/d': denied"));

    let mut copy = FileCopy::new("/s".to_string(), "/d".to_string());
    copy.source_opened(Ok(()));
    copy.destination_created(Err("exists".to_string()), true);
    assert!(matches!(&copy.step, FileStep::Done { result: Err(e) } if e == "'/d' already exists — nothing was overwritten"));
    assert!(!copy.present);

    let mut copy = FileCopy::new("/s".to_string(), "/d".to_string());
    copy.source_opened(Ok(()));
    copy.destination_created(Ok(()), false);
    copy.transferred(Err("full".to_string()));
    assert!(matches!(&copy.step, FileStep::RemoveDestination { .. }));
    assert!(copy.present);
    copy.destination_removed();
    assert!(matches!(&copy.step, FileStep::Done { result: Err(e) } if e == "Copy failed for '/s': full"));
    assert!(!copy.present);

    let mut copy = FileCopy::new("/s".to_string(), "/d".to_string());
    copy.source_opened(Ok(()));
    copy.destination_created(Ok(()), false);
    copy.transferred(Ok(7));
    copy.flushed(Err("full".to_string()));
    copy.destination_removed();
    assert!(matches!(&copy.step, FileStep::Done { result: Err(e) } if e == "Copy failed while finishing '/s': full"));

    let mut tree = TreeCopy::new("/s".to_string(), "/d".to_string());
    tree.folder_created(Err("denied".to_string()), false);
    assert_eq!(tree.finish().unwrap_err(), "Cannot create '/d': denied");
    let mut tree = TreeCopy::new("/s".to_string(), "/d".to_string());
    tree.folder_created(Ok(()), false);
    tree.folder_unreadable("denied");
    tree.folder_removed();
    assert_eq!(tree.finish().unwrap_err(), "Cannot read '/s': denied");
}

#[test]
fn move_copies_without_overwrite_before_removing_the_original() {
    let disk = RefCell::new(Disk::new());
    disk.borrow_mut().folder("/destination");
    disk.borrow_mut().write("/source/move-me.txt", b"content");
    let result = move_local_item_with(
        "/source/move-me.txt",
        |path: &str| disk.borrow().inspect(path),
        |path: &str| copy_item(&mut disk.borrow_mut(), path, "/destination"),
        |path: &str| {
            assert!(disk.borrow().has("/destination/move-me.txt"));
            disk.borrow_mut().remove_all(path);
            Ok(())
        },
    )
    .unwrap();
    assert!(!disk.borrow().has("/source/move-me.txt"));
    assert_eq!(disk.borrow().read(&result.destination).unwrap(), b"content");
}

#[test]
fn a_move_is_refused_or_keeps_both_copies() {
    let made = || LocalCopyResult { destination: "/t/x".to_string(), files: 1, directories: 0, bytes: 1 };
    let file = |_: &str| Ok(EntryType::File { bytes: 1 });
    let moved = |path: &str, entry: Result<EntryType, String>, copied: Result<LocalCopyResult, String>, deleted: Result<(), String>| {
        move_local_item_with(path, |_: &str| entry, |_: &str| copied, |_: &str| deleted)
    };
    assert_eq!(
        moved("/s/x", file(""), Ok(made()), Err("no trash".to_string())).unwrap_err(),
        "The copy completed, but the original could not be moved to Trash. Both copies were kept safely. no trash"
    );
    assert_eq!(moved("/s/x", file(""), Err("full".to_string()), Ok(())).unwrap_err(), "full");
    assert_eq!(
        moved("/s/x", Ok(EntryType::Symlink), Ok(made()), Ok(())).unwrap_err(),
        "Symbolic-link moving is not enabled because its target may be unexpected"
    );
    assert_eq!(moved("/s/x", Err("gone".to_string()), Ok(made()), Ok(())).unwrap_err(), "Cannot open '/s/x': gone");
    assert_eq!(moved("/", file(""), Ok(made()), Ok(())).unwrap_err(), "A filesystem root cannot be moved");
    assert_eq!(
        moved("/s/.git/config", file(""), Ok(made()), Ok(())).unwrap_err(),
        "Git metadata (.git) is protected in Local Drive"
    );
    assert_eq!(moved("s/x", file(""), Ok(made()), Ok(())).unwrap_err(), "Local Drive accepts only absolute paths");
    assert_eq!(moved("/s/x", file(""), Ok(made()), Ok(())).unwrap().destination, "/t/x");
}

#[test]
fn trash_validation_protects_roots_and_git_metadata_and_passes_the_exact_item_to_the_deleter() {
    let mut disk = Disk::new();
    disk.write("/root/ordinary.txt", b"keep until mock accepts it");
    let observed = RefCell::new(None);
    trash_local_item_with("/root/ordinary.txt", |path: &str| disk.inspect(path), |target: &str| {
        *observed.borrow_mut() = Some(target.to_string());
        Ok(())
    })
    .unwrap();
    assert_eq!(observed.borrow().as_deref(), Some("/root/ordinary.txt"));
    assert!(disk.has("/root/ordinary.txt"), "the mock test must never put a real file in the user's Trash");
    disk.folder("/root/.git");
    assert!(validate_trash_target("/root/.git", |path: &str| disk.inspect(path)).is_err());
    assert_eq!(trash_failed_message("/x", "busy"), "Could not move '/x' to Trash/Recycle Bin: busy");
    assert_eq!(
        validate_trash_target("/", |path: &str| disk.inspect(path)).unwrap_err(),
        "A filesystem root cannot be deleted"
    );
    assert_eq!(
        validate_trash_target("/root/gone", |path: &str| disk.inspect(path)).unwrap_err(),
        "Cannot open '/root/gone': not found"
    );
    assert_eq!(
        trash_local_item_with("/root/ordinary.txt", |path: &str| disk.inspect(path), |_: &str| Err("busy".to_string()))
            .unwrap_err(),
        "busy"
    );
}

#[test]
fn an_item_is_checked_as_the_platform_reads_it() {
    let normal = |name: &str| PathPart::Normal(name.to_string());
    let check = |parts: Vec<PathPart>, has_parent: bool, found: Result<EntryType, String>| {
        trash_checked_item("C:\\x", &parts, has_parent, |_: &str| found)
    };
    let root = "A filesystem root cannot be deleted";
    assert_eq!(check(vec![PathPart::RootDir, normal("x")], true, Ok(EntryType::Other)).unwrap(), "C:\\x");
    assert_eq!(check(vec![PathPart::RootDir], true, Ok(EntryType::Directory)).unwrap_err(), root);
    assert_eq!(check(vec![normal("x")], false, Ok(EntryType::Directory)).unwrap_err(), root);
    assert_eq!(
        check(vec![normal(".Git"), normal("x")], true, Ok(EntryType::Directory)).unwrap_err(),
        "Git metadata (.git) is protected in Local Drive"
    );
    assert_eq!(check(vec![normal("x")], true, Err("gone".to_string())).unwrap_err(), "Cannot open 'C:\\x': gone");
}

#[test]
fn a_path_without_the_name_of_git_is_not_protected() {
    assert!(!contains_git_metadata("C:\\work\\git\\x"));
    assert!(!contains_git_metadata("//server/share/x"));
    assert!(!contains_git_metadata("/work/my.gitignore"));
    assert!(contains_git_metadata("/work/.GIT/config"));
}

#[test]
fn a_path_lies_inside_by_whole_components() {
    let inside = |inner: &str, outer: &str| lies_inside(&ask_parts(inner), &ask_parts(outer));
    assert!(inside("/a/b/c", "/a/b") && inside("/a/b", "/a/b/") && inside("/a", "/"));
    assert!(!inside("/a/bc", "/a/b") && !inside("/a", "/a/b") && !inside("a/b", "/a"));
}

#[test]
fn the_original_is_deleted_only_after_the_copy() {
    let log = RefCell::new(Vec::new());
    let moved = |path: &str, entry: EntryType, copied: Result<LocalCopyResult, String>| {
        log.borrow_mut().clear();
        let r = move_local_item_with(
            path,
            |_: &str| {
                log.borrow_mut().push("inspect");
                Ok(entry)
            },
            |_: &str| {
                log.borrow_mut().push("copy");
                copied
            },
            |_: &str| {
                log.borrow_mut().push("delete");
                Ok(())
            },
        );
        (r.is_ok(), log.borrow().clone())
    };
    let made = || LocalCopyResult { destination: "/d/x".to_string(), files: 1, directories: 0, bytes: 1 };
    let file = EntryType::File { bytes: 1 };
    assert_eq!(moved("/s/x", file, Ok(made())), (true, vec!["inspect", "copy", "delete"]));
    assert_eq!(moved("/s/x", file, Err("full".to_string())), (false, vec!["inspect", "copy"]));
    assert_eq!(moved("/s/x", EntryType::Symlink, Ok(made())), (false, vec!["inspect"]));
    assert_eq!(moved("/s/.git/x", file, Ok(made())), (false, Vec::new()));
    assert_eq!(moved("/", file, Ok(made())), (false, Vec::new()));

    let deleted = RefCell::new(false);
    let refused = trash_local_item_with("/s/.git", |_: &str| Ok(file), |_: &str| {
        *deleted.borrow_mut() = true;
        Ok(())
    });
    assert!(refused.is_err() && !*deleted.borrow());
}

// Listing and creating folders.

fn item(name: &str, entry: EntryType, modified: Option<u64>) -> ListedItem {
    ListedItem { name: name.to_string(), path: format!("/list/{name}"), entry, modified }
}

#[test]
fn lists_folders_before_files_and_keeps_absolute_paths() {
    let items = vec![item("z.txt", EntryType::File { bytes: 1 }, Some(7)), item("a-folder", EntryType::Directory, None)];
    let result = list_local_directory_inner("/list", &items);
    assert_eq!(result.entries.iter().map(|entry| entry.name.as_str()).collect::<Vec<_>>(), vec!["a-folder", "z.txt"]);
    assert!(result.entries.iter().all(|entry| entry.path.starts_with('/')));
    assert_eq!(result.path, "/list");
    assert_eq!(result.parent.as_deref(), Some("/"));
    assert_eq!(result.entries[1].size, 1);
    assert_eq!(result.entries[1].modified, 7);
    assert_eq!(result.entries[0].modified, 0);
}

#[test]
fn a_listing_ignores_case_and_keeps_the_order_of_equal_names() {
    let items = vec![
        item("b", EntryType::File { bytes: 1 }, None),
        item("A", EntryType::Symlink, None),
        item("a", EntryType::Other, None),
        item("C", EntryType::Directory, None),
    ];
    let result = list_local_directory_inner("/", &items);
    let names: Vec<&str> = result.entries.iter().map(|entry| entry.name.as_str()).collect();
    assert_eq!(names, vec!["C", "A", "a", "b"]);
    let kinds: Vec<&str> = result.entries.iter().map(|entry| entry.kind.as_str()).collect();
    assert_eq!(kinds, vec!["folder", "symlink", "file", "file"]);
    assert_eq!(result.entries[1].size, 0);
    assert_eq!(result.parent, None);
}

fn create_new_folder(disk: &mut Disk, parent: &str, name: &str) -> Result<String, String> {
    let parent = require_absolute(parent)?;
    existing_directory(&parent, disk.inspect(&parent).map(|entry| entry == EntryType::Directory))?;
    let name = safe_new_folder_name(name)?;
    let destination = path_string(&parent, &name);
    let occupied = disk.has(&destination);
    let made = disk.create_folder(&destination);
    answer_created(&destination, made, occupied)
}

#[test]
fn creates_only_one_new_folder_and_never_accepts_a_path_as_its_name() {
    let mut disk = Disk::new();
    disk.folder("/mkdir");
    let created = create_new_folder(&mut disk, "/mkdir", "new folder").unwrap();
    assert!(matches!(disk.inspect(&created), Ok(EntryType::Directory)));
    assert!(create_new_folder(&mut disk, "/mkdir", "nested/folder").is_err());
    assert!(create_new_folder(&mut disk, "/mkdir", ".git").is_err());
    assert_eq!(
        create_new_folder(&mut disk, "/mkdir", "new folder").unwrap_err(),
        "'/mkdir/new folder' already exists"
    );
    assert_eq!(
        answer_created("/mkdir/x", Err("denied".to_string()), false).unwrap_err(),
        "Cannot create '/mkdir/x': denied"
    );
}

// Guided merge.

fn run_guided(disk: &mut Disk, mut action: GuidedMerge) -> Result<LocalCopyResult, String> {
    let staged = format!("{}.staged", action.destination);
    loop {
        match &action.step {
            GuidedStep::InspectSource => {
                let inspected = disk.inspect(&action.source);
                action.source_inspected(inspected);
            }
            GuidedStep::ResolveSource => {
                let resolved = ask_parts(&action.source);
                action.source_resolved(Ok(resolved));
            }
            GuidedStep::ProbeFolder => {
                let folder = action.folders[action.ready].clone();
                let found = if disk.has(&folder) { Some(disk.inspect(&folder)) } else { None };
                action.folder_probed(found);
            }
            GuidedStep::CreateFolder => {
                let folder = action.folders[action.ready].clone();
                let created = disk.create_folder(&folder);
                action.folder_created(created);
            }
            GuidedStep::CheckDestination => {
                let occupied = disk.has(&action.destination);
                action.destination_checked(occupied);
            }
            GuidedStep::CopyFile => {
                let copy = FileCopy::new(action.source.clone(), action.destination.clone());
                let copied = run_file_copy(disk, copy);
                action.file_copied(copied);
            }
            GuidedStep::InspectDestination => {
                let inspected = disk.inspect(&action.destination);
                action.destination_inspected(inspected);
            }
            GuidedStep::FirstFingerprint => {
                let taken = disk.fingerprint(&action.destination);
                action.first_fingerprint_taken(taken);
            }
            GuidedStep::NameStaged => action.staged_named(Ok(())),
            GuidedStep::CopyStaged => {
                let copy = FileCopy::new(action.source.clone(), staged.clone());
                let copied = run_file_copy(disk, copy);
                action.staged_copied(copied);
            }
            GuidedStep::SecondFingerprint { .. } => {
                let taken = disk.fingerprint(&action.destination);
                action.second_fingerprint_taken(taken);
            }
            GuidedStep::Install { .. } => {
                let content = disk.read(&staged).unwrap();
                disk.remove_all(&staged);
                let destination = action.destination.clone();
                disk.write(&destination, &content);
                action.installed(Ok(()));
            }
            GuidedStep::RemoveStaged { .. } => {
                disk.remove_all(&staged);
                action.staged_removed();
            }
            GuidedStep::Done { .. } => break,
        }
    }
    match action.step {
        GuidedStep::Done { result } => result,
        _ => unreachable!(),
    }
}

fn way(right: &str, names: &[String], count: usize) -> Vec<String> {
    let mut folders = Vec::new();
    let mut path = right.to_string();
    for name in &names[..count] {
        path = format!("{path}/{name}");
        folders.push(path.clone());
    }
    folders
}

fn guided_copy(disk: &mut Disk, left: &str, right: &str, relative: &str) -> Result<LocalCopyResult, String> {
    check_merge_roots(left == right)?;
    let relative = safe_relative_path(relative)?;
    let folders = way(right, &relative.names, folders_on_the_way(&relative, false));
    let action = copy_local_merge_file_inner(
        format!("{left}/{}", relative.text),
        ask_parts(left),
        folders,
        format!("{right}/{}", relative.text),
    );
    run_guided(disk, action)
}

fn guided_replace(disk: &mut Disk, left: &str, right: &str, relative: &str, expected: String) -> Result<LocalCopyResult, String> {
    check_merge_roots(left == right)?;
    let relative = safe_relative_path(relative)?;
    let folders = way(right, &relative.names, folders_on_the_way(&relative, false));
    let action = replace_local_merge_file_inner(
        format!("{left}/{}", relative.text),
        ask_parts(left),
        folders,
        format!("{right}/{}", relative.text),
        expected,
    );
    run_guided(disk, action)
}

fn create_folder(disk: &mut Disk, left: &str, right: &str, relative: &str) -> Result<LocalCopyResult, String> {
    check_merge_roots(left == right)?;
    let relative = safe_relative_path(relative)?;
    let folders = way(right, &relative.names, folders_on_the_way(&relative, true));
    let source = format!("{left}/{}", relative.text);
    let action = create_local_merge_directory_inner(source, ask_parts(left), right.to_string(), folders);
    run_guided(disk, action)
}

#[test]
fn creating_a_folder_again_changes_nothing() {
    let mut disk = Disk::new();
    disk.folder("/right");
    disk.folder("/left/a/b");
    let first = create_folder(&mut disk, "/left", "/right", "a/b").unwrap();
    assert_eq!((first.files, first.directories, first.bytes), (0, 1, 0));
    assert_eq!(first.destination, "/right/a/b");
    let before: Vec<String> = disk.nodes.keys().cloned().collect();
    let second = create_folder(&mut disk, "/left", "/right", "a/b").unwrap();
    assert_eq!((second.files, second.directories, second.bytes), (0, 1, 0));
    assert_eq!(second.destination, "/right/a/b");
    assert_eq!(disk.nodes.keys().cloned().collect::<Vec<String>>(), before);
}

#[test]
fn guided_copy_creates_a_new_nested_file_but_never_overwrites_it() {
    let mut disk = Disk::new();
    disk.folder("/right");
    disk.write("/left/nested/new.txt", b"source");
    let result = guided_copy(&mut disk, "/left", "/right", "nested/new.txt").unwrap();
    assert_eq!(result.files, 1);
    assert_eq!(result.bytes, 6);
    assert_eq!(disk.read("/right/nested/new.txt").unwrap(), b"source");
    disk.write("/left/nested/new.txt", b"newer source");
    assert_eq!(
        guided_copy(&mut disk, "/left", "/right", "nested/new.txt").unwrap_err(),
        "'/right/nested/new.txt' now exists. Nothing was overwritten — compare the folders again."
    );
    assert_eq!(disk.read("/right/nested/new.txt").unwrap(), b"source");
}

#[test]
fn guided_replace_has_a_stale_destination_guard() {
    let mut disk = Disk::new();
    disk.write("/left/file.bin", b"left");
    disk.write("/right/file.bin", b"right");
    let expected = disk.fingerprint("/right/file.bin").unwrap();
    disk.write("/right/file.bin", b"external");
    let result = guided_replace(&mut disk, "/left", "/right", "file.bin", expected);
    assert!(result.unwrap_err().contains("changed after the folder scan"));
    assert_eq!(disk.read("/right/file.bin").unwrap(), b"external");
}

#[test]
fn guided_replace_installs_the_exact_left_file_after_a_fresh_scan() {
    let mut disk = Disk::new();
    disk.write("/left/file.bin", b"left replacement");
    disk.write("/right/file.bin", b"old right");
    let expected = disk.fingerprint("/right/file.bin").unwrap();
    let result = guided_replace(&mut disk, "/left", "/right", "file.bin", expected).unwrap();
    assert_eq!(result.files, 1);
    assert_eq!(disk.read("/right/file.bin").unwrap(), b"left replacement");
    assert!(!disk.has("/right/file.bin.staged"));
}

fn replacing(expected: &str) -> GuidedMerge {
    let mut action = replace_local_merge_file_inner(
        "/l/f".to_string(),
        ask_parts("/l"),
        Vec::new(),
        "/r/f".to_string(),
        expected.to_string(),
    );
    action.source_inspected(Ok(EntryType::File { bytes: 1 }));
    action.source_resolved(Ok(ask_parts("/l/f")));
    action
}

fn ending(action: &GuidedMerge) -> String {
    match &action.step {
        GuidedStep::Done { result: Err(message) } => message.clone(),
        _ => panic!("the action has not failed"),
    }
}

#[test]
fn a_replacement_is_given_up_at_every_doubt() {
    let mut action = replacing("good");
    action.destination_inspected(Err("gone".to_string()));
    assert_eq!(ending(&action), "Cannot open destination '/r/f': gone");

    let mut action = replacing("good");
    action.destination_inspected(Ok(EntryType::Directory));
    assert_eq!(ending(&action), "The destination is no longer a regular file. Nothing was overwritten.");

    let mut action = replacing("good");
    action.destination_inspected(Ok(EntryType::File { bytes: 1 }));
    action.first_fingerprint_taken(Ok("good".to_string()));
    action.staged_named(Err("no name".to_string()));
    assert_eq!(ending(&action), "no name");

    let mut action = replacing("good");
    action.destination_inspected(Ok(EntryType::File { bytes: 1 }));
    action.first_fingerprint_taken(Ok("good".to_string()));
    action.staged_named(Ok(()));
    action.staged_copied(Err("full".to_string()));
    assert!(matches!(action.step, GuidedStep::RemoveStaged { .. }));
    action.staged_removed();
    assert_eq!(ending(&action), "full");

    let mut action = replacing("good");
    action.destination_inspected(Ok(EntryType::File { bytes: 1 }));
    action.first_fingerprint_taken(Ok("good".to_string()));
    action.staged_named(Ok(()));
    action.staged_copied(Ok(3));
    action.second_fingerprint_taken(Ok("other".to_string()));
    assert!(matches!(action.step, GuidedStep::RemoveStaged { .. }));
    action.staged_removed();
    assert_eq!(ending(&action), "'/r/f' changed while the replacement was prepared. Nothing was overwritten.");

    let mut action = replacing("good");
    action.destination_inspected(Ok(EntryType::File { bytes: 1 }));
    action.first_fingerprint_taken(Ok("good".to_string()));
    action.staged_named(Ok(()));
    action.staged_copied(Ok(3));
    action.second_fingerprint_taken(Err("unreadable".to_string()));
    assert_eq!(ending(&action), "unreadable");

    let mut action = replacing("good");
    action.destination_inspected(Ok(EntryType::File { bytes: 1 }));
    action.first_fingerprint_taken(Ok("good".to_string()));
    action.staged_named(Ok(()));
    action.staged_copied(Ok(3));
    action.second_fingerprint_taken(Ok("good".to_string()));
    assert!(matches!(action.step, GuidedStep::Install { bytes: 3 }));
    assert_eq!(action.seen, vec!["good".to_string(), "good".to_string()]);
    action.installed(Err("busy".to_string()));
    action.staged_removed();
    assert_eq!(ending(&action), "busy");
}

#[test]
fn guided_actions_name_what_stops_them() {
    let mut disk = Disk::new();
    disk.write("/left/a/f", b"1");
    disk.folder("/right");
    assert_eq!(
        guided_copy(&mut disk, "/left", "/left", "a/f").unwrap_err(),
        "Source and destination folders must be different"
    );
    assert_eq!(
        guided_copy(&mut disk, "/left", "/right", "a/../f").unwrap_err(),
        "The merge item must stay inside the selected folders and cannot include .git metadata"
    );
    assert_eq!(
        guided_copy(&mut disk, "/left", "/right", " ").unwrap_err(),
        "Choose one item inside the compared folder"
    );
    assert_eq!(
        guided_copy(&mut disk, "/left", "/right", "a/g").unwrap_err(),
        "Cannot open source '/left/a/g': not found"
    );
    assert_eq!(guided_copy(&mut disk, "/left", "/right", "a").unwrap_err(), "Guided merge accepts regular files only");
    assert_eq!(
        create_folder(&mut disk, "/left", "/right", "b").unwrap_err(),
        "Cannot open source folder '/left/b': not found"
    );
    assert_eq!(
        create_folder(&mut disk, "/left", "/right", "a/f").unwrap_err(),
        "Guided merge can create only a real source folder"
    );
    disk.write("/right/a", b"in the way");
    assert_eq!(
        guided_copy(&mut disk, "/left", "/right", "a/f").unwrap_err(),
        "Destination parent '/right/a' is not a safe folder"
    );
    assert_eq!(
        create_folder(&mut disk, "/left", "/right", "a").unwrap_err(),
        "Destination '/right/a' is not a safe folder"
    );
    let mut action = copy_local_merge_file_inner("/l/f".to_string(), ask_parts("/l"), vec!["/r/d".to_string()], "/r/d/f".to_string());
    action.source_inspected(Ok(EntryType::File { bytes: 1 }));
    action.source_resolved(Ok(ask_parts("/lx/f")));
    assert_eq!(ending(&action), "The source escaped the selected left folder");
    let mut action = create_local_merge_directory_inner("/l/f".to_string(), ask_parts("/l"), "/r".to_string(), vec!["/r/f".to_string()]);
    assert_eq!(action.destination, "/r/f");
    action.source_inspected(Ok(EntryType::Directory));
    action.source_resolved(Ok(ask_parts("/lx/f")));
    assert_eq!(ending(&action), "The source folder escaped the selected root");
    let mut action = copy_local_merge_file_inner("/l/f".to_string(), ask_parts("/l"), vec!["/r/d".to_string()], "/r/d/f".to_string());
    action.source_inspected(Ok(EntryType::File { bytes: 1 }));
    action.source_resolved(Ok(ask_parts("/l/f")));
    action.folder_probed(None);
    action.folder_created(Err("denied".to_string()));
    assert_eq!(ending(&action), "Cannot create destination folder '/r/d': denied");
}

// Editing.

fn open_text(disk: &Disk, path: &str) -> Result<LocalTextFile, String> {
    let path = require_absolute(path)?;
    let size = existing_editable_file(&path, disk.inspect(&path))?;
    read_local_text_file_inner(&path, size, disk.read(&path).ok_or("unreadable".to_string()))
}

fn save_text(disk: &mut Disk, path: &str, content: &str, encoding: Option<String>) -> Result<(), String> {
    let path = require_absolute(path)?;
    existing_editable_file(&path, disk.inspect(&path))?;
    let bytes = plan_save(content, &encoding)?;
    disk.write(&path, &bytes);
    finish_save(&path, SaveOutcome::Saved)
}

#[test]
fn local_text_view_and_edit_support_common_windows_encodings_without_converting_them() {
    let mut disk = Disk::new();
    disk.write("/notes.txt", b"before");
    let opened = open_text(&disk, "/notes.txt").unwrap();
    assert_eq!(opened.content, "before");
    assert_eq!(opened.encoding, "utf-8");
    save_text(&mut disk, "/notes.txt", "after", Some(opened.encoding)).unwrap();
    assert_eq!(open_text(&disk, "/notes.txt").unwrap().content, "after");

    disk.write("/windows-utf16.txt", &[0xff, 0xfe, b'A', 0, b'B', 0]);
    let opened = open_text(&disk, "/windows-utf16.txt").unwrap();
    assert_eq!(opened.content, "AB");
    assert_eq!(opened.encoding, "utf-16le");
    save_text(&mut disk, "/windows-utf16.txt", "CD", Some(opened.encoding)).unwrap();
    assert_eq!(disk.read("/windows-utf16.txt").unwrap(), [0xff, 0xfe, b'C', 0, b'D', 0]);

    disk.write("/windows-ansi.txt", &[b'c', b'a', b'f', 0xe9]);
    let opened = open_text(&disk, "/windows-ansi.txt").unwrap();
    assert_eq!(opened.content, "café");
    assert_eq!(opened.encoding, "windows-1252");
    save_text(&mut disk, "/windows-ansi.txt", "déjà", Some(opened.encoding)).unwrap();
    assert_eq!(disk.read("/windows-ansi.txt").unwrap(), [b'd', 0xe9, b'j', 0xe0]);

    disk.write("/binary.dat", &[0x89, b'P', b'N', b'G', 0x0d, 0x0a, 0x1a, 0x0a]);
    assert!(open_text(&disk, "/binary.dat").is_err());
}

#[test]
fn files_that_cannot_be_edited_are_refused() {
    let mut disk = Disk::new();
    disk.write("/repo/.git/config", b"x");
    disk.nodes.insert("/link".to_string(), Node::Link);
    disk.folder("/folder");
    disk.write("/large", &vec![b'x'; 2_097_153]);
    disk.write("/small", b"x");
    let refusal = |path: &str| open_text(&disk, path).err().unwrap();
    assert_eq!(refusal("/repo/.git/config"), "Git metadata (.git) is protected in Local Drive");
    assert_eq!(refusal("/link"), "Symbolic links cannot be viewed or edited here");
    assert_eq!(refusal("/folder"), "Select a regular file first");
    assert_eq!(refusal("/large"), "The built-in viewer/editor supports text files up to 2 MB");
    assert_eq!(refusal("/gone"), "Cannot open '/gone': not found");
    assert_eq!(
        read_local_text_file_inner("/small", 1, Err("denied".to_string())).err().unwrap(),
        "Cannot read '/small': denied"
    );
    let long = "x".repeat(2_097_153);
    assert_eq!(
        plan_save(&long, &None).unwrap_err(),
        "The built-in viewer/editor supports text files up to 2 MB"
    );
    assert_eq!(
        plan_save("x", &Some("latin-9".to_string())).unwrap_err(),
        "Unsupported text encoding 'latin-9'"
    );
    assert_eq!(plan_save("é", &None).unwrap(), "é".as_bytes());
    assert_eq!(
        finish_save("/small", SaveOutcome::NotOpened { error: "denied".to_string() }).unwrap_err(),
        "Cannot edit '/small': denied"
    );
    assert_eq!(
        finish_save("/small", SaveOutcome::NotWritten { error: "full".to_string() }).unwrap_err(),
        "Could not finish saving '/small': full"
    );
    assert_eq!(open_text(&disk, "/small").unwrap().bytes, 1);
}
