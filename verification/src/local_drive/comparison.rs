//! Comparing two folders item by item.
use crate::local_drive::encoding;
use crate::local_drive::merge;
use crate::local_drive::EntryType;
use crate::local_drive::MAX_LOCAL_TEXT_BYTES;
use crate::numerals;
use crate::paths;
use crate::pieces;
use crate::text;
use crate::text_map;
use crate::text_map::TextMap;
use std::hash::DefaultHasher;
use std::hash::Hasher;
use vstd::prelude::*;
use vstd::std_specs::hash::*;
use vstd::string::*;

verus! {

/// The number of items of one folder after which a comparison stops.
pub const MAX_FOLDER_ITEMS: usize = 50_000;

// Scanning one folder.

/// What an item of a scanned folder is taken for.
#[derive(Clone, Copy, PartialEq, Eq, Structural)]
pub enum ItemKind {
    File { bytes: u64 },
    Directory,
    Submodule,
    Symlink,
}

/// An item of a scanned folder.
pub struct FoundItem {
    /// The path of the item below the folder.
    pub relative: String,
    pub kind: ItemKind,
}

/// What a scan does with an item.
#[derive(Clone, Copy, PartialEq, Eq, Structural)]
pub enum Collected {
    /// Git's own folder is passed over.
    Skipped,
    /// The item is dealt with.
    Noted,
    /// The scan goes on inside the folder.
    Descend,
}

/// What an item is taken for: the folder of a submodule is one item when submodules are ignored.
pub open spec fn kind_of_entry(
    entry: EntryType,
    git_boundary: bool,
    ignore_submodules: bool,
    configured: bool,
) -> Option<ItemKind> {
    match entry {
        EntryType::Symlink => Some(ItemKind::Symlink),
        EntryType::Directory => if ignore_submodules && (configured || git_boundary) {
            Some(ItemKind::Submodule)
        } else {
            Some(ItemKind::Directory)
        },
        EntryType::File { bytes } => Some(ItemKind::File { bytes }),
        EntryType::Other => None,
    }
}

/// The separator between the names of a scanned path.
pub open spec fn separator(windows: bool) -> char {
    if windows {
        '\\'
    } else {
        '/'
    }
}

/// The path of the item with this name in a scanned folder, whose own path is empty for the outermost one.
pub open spec fn child_path(folder: Seq<char>, name: Seq<char>, windows: bool) -> Seq<char> {
    if folder.len() == 0 {
        name
    } else {
        folder.push(separator(windows)) + name
    }
}

/// Whether a text is a name: not empty, and without a separator.
pub open spec fn is_item_name(name: Seq<char>, windows: bool) -> bool {
    name.len() > 0 && !name.contains('/') && !(windows && name.contains('\\'))
}

/// The names between the separators of a path.
pub open spec fn names_between(path: Seq<char>, windows: bool) -> Seq<Seq<char>> {
    if windows {
        pieces::split(text::replaced(path, '\\', '/'), '/')
    } else {
        pieces::split(path, '/')
    }
}

/// Whether a path neither leads to nor through Git's own folder.
pub open spec fn avoids_git(path: Seq<char>, windows: bool) -> bool {
    forall|i: int|
        0 <= i < names_between(path, windows).len() ==> !paths::is_git_name(
            #[trigger] names_between(path, windows)[i],
        )
}

/// Whether items are those of a scan: each stands under the key of its path, none belongs to Git, and
/// submodules are told from other folders only where they are ignored.
pub open spec fn is_scan(
    items: Map<Seq<char>, (Seq<char>, ItemKind)>,
    ignore_submodules: bool,
    windows: bool,
) -> bool {
    forall|key: Seq<char>| #[trigger]
        items.dom().contains(key) ==> {
            &&& key == merge::key_of(items[key].0, windows)
            &&& avoids_git(items[key].0, windows)
            &&& items[key].1 == ItemKind::Submodule ==> ignore_submodules
        }
}

/// Whether the folders around each item were found too, as folders.
pub open spec fn is_tree(items: Map<Seq<char>, (Seq<char>, ItemKind)>) -> bool {
    forall|key: Seq<char>, n: int|
        items.dom().contains(key) && 0 <= n < key.len() && key[n] == '/' ==> {
            &&& items.dom().contains(#[trigger] key.take(n))
            &&& items[key.take(n)].1 == ItemKind::Directory
        }
}

/// Whether a scanned folder is the outermost one or was found as a folder.
pub open spec fn is_found_folder(
    items: Map<Seq<char>, (Seq<char>, ItemKind)>,
    folder: Seq<char>,
    windows: bool,
) -> bool {
    folder.len() == 0 || (items.dom().contains(merge::key_of(folder, windows)) && items[merge::key_of(
        folder,
        windows,
    )].1 == ItemKind::Directory)
}

/// Whether taking the item with this name of a folder into a scan keeps it a tree for certain: the folder was found,
/// the key of the item is new, and no separator comes from its name. On Windows keys are in lower case, of which
/// only the name is known.
pub open spec fn grows_tree(
    items: Map<Seq<char>, (Seq<char>, ItemKind)>,
    folder: Seq<char>,
    name: Seq<char>,
    windows: bool,
) -> bool {
    &&& !windows
    &&& is_tree(items)
    &&& is_found_folder(items, folder, windows)
    &&& !name.contains('\\')
    &&& !items.dom().contains(merge::key_of(child_path(folder, name, windows), windows))
}

/// A fallible step of a scan by the characters of its error.
pub open spec fn collected_view(r: Result<Collected, String>) -> Result<Collected, Seq<char>> {
    match r {
        Ok(step) => Ok(step),
        Err(e) => Err(e@),
    }
}

/// What a scan does with an item.
pub open spec fn collected(name: Seq<char>, kind: Option<ItemKind>, windows: bool) -> Result<Collected, Seq<char>> {
    if paths::is_git_name(name) {
        Ok(Collected::Skipped)
    } else if !is_item_name(name, windows) {
        Err("A folder item escaped its selected root"@)
    } else if kind == Some(ItemKind::Directory) {
        Ok(Collected::Descend)
    } else {
        Ok(Collected::Noted)
    }
}

fn join_child(folder: &str, name: &str, windows: bool) -> (r: String)
    ensures
        r@ == child_path(folder@, name@, windows),
{
    if folder.is_empty() {
        name.to_owned()
    } else {
        let r: String = text::framed(folder, if windows { "\\" } else { "/" }, name);
        proof {
            reveal_strlit("\\");
            reveal_strlit("/");
            assert(r@ =~= child_path(folder@, name@, windows));
        }
        r
    }
}

proof fn lemma_child_avoids_git(folder: Seq<char>, name: Seq<char>, windows: bool)
    requires
        avoids_git(folder, windows),
        is_item_name(name, windows),
        !paths::is_git_name(name),
    ensures
        avoids_git(child_path(folder, name, windows), windows),
{
    let path = child_path(folder, name, windows);
    let head = if windows {
        text::replaced(folder, '\\', '/')
    } else {
        folder
    };
    let whole = if windows {
        text::replaced(path, '\\', '/')
    } else {
        path
    };
    if windows {
        assert forall|i: int| 0 <= i < name.len() implies name[i] != '\\' by {
            if name[i] == '\\' {
                assert(name.contains('\\'));
            }
        }
    }
    if folder.len() == 0 {
        assert(whole =~= Seq::<char>::empty() + name);
        pieces::lemma_split_append(Seq::empty(), name, '/');
        assert(Seq::<char>::empty() + name =~= name);
        assert(pieces::split(Seq::<char>::empty(), '/') =~= seq![Seq::<char>::empty()]);
        assert(pieces::split(whole, '/') =~= seq![name]);
    } else {
        let stem = head.push('/');
        assert(whole =~= stem + name);
        assert(stem.drop_last() =~= head);
        pieces::lemma_split_append(stem, name, '/');
        let list = pieces::split(head, '/');
        assert(pieces::split(stem, '/') == list.push(Seq::<char>::empty()));
        assert(list.push(Seq::<char>::empty()).drop_last() =~= list);
        assert(Seq::<char>::empty() + name =~= name);
        assert(pieces::split(whole, '/') == list.push(name));
        assert forall|i: int| 0 <= i < list.push(name).len() implies !paths::is_git_name(
            #[trigger] list.push(name)[i],
        ) by {
            if i < list.len() {
                assert(names_between(folder, windows)[i] == list[i]);
            }
        }
    }
}

proof fn lemma_tree_grows(
    items: Map<Seq<char>, (Seq<char>, ItemKind)>,
    folder: Seq<char>,
    name: Seq<char>,
    item: (Seq<char>, ItemKind),
)
    requires
        grows_tree(items, folder, name, false),
        is_item_name(name, false),
    ensures
        is_tree(items.insert(merge::key_of(child_path(folder, name, false), false), item)),
{
    let stem = merge::key_of(folder, false);
    let added = merge::key_of(child_path(folder, name, false), false);
    let more = items.insert(added, item);
    assert forall|i: int| 0 <= i < name.len() implies name[i] != '/' && name[i] != '\\' by {
        if name[i] == '/' {
            assert(name.contains('/'));
        }
        if name[i] == '\\' {
            assert(name.contains('\\'));
        }
    }
    assert forall|key: Seq<char>, n: int|
        more.dom().contains(key) && 0 <= n < key.len() && key[n] == '/' implies more.dom().contains(
        #[trigger] key.take(n),
    ) && more[key.take(n)].1 == ItemKind::Directory by {
        if key == added {
            if folder.len() == 0 {
                assert(added =~= name);
            } else {
                assert(added =~= stem.push('/') + name);
                if n < stem.len() {
                    assert(stem[n] == '/');
                    assert(key.take(n) =~= stem.take(n));
                    assert(items.dom().contains(stem.take(n)));
                } else if n == stem.len() {
                    assert(key.take(n) =~= stem);
                } else {
                    assert(key[n] == name[n - stem.len() - 1]);
                }
            }
        } else {
            assert(items.dom().contains(key.take(n)));
        }
    }
}

/// Takes an item of a folder into the scan; `folder` is the path of that folder below the one that is scanned,
/// and `git_boundary` says whether the item holds an entry named `.git`. Git's own folder is passed over, and
/// the folder of a submodule that is ignored is not entered.
pub fn collect_item(
    output: &mut TextMap<FoundItem>,
    folder: &str,
    name: &str,
    entry: EntryType,
    git_boundary: bool,
    ignore_submodules: bool,
    configured_submodules: &TextMap<()>,
    windows: bool,
) -> (r: Result<Collected, String>)
    requires
        old(output).wf(),
        configured_submodules.wf(),
        is_scan(items_view(old(output)@), ignore_submodules, windows),
        avoids_git(folder@, windows),
    ensures
        final(output).wf(),
        is_scan(items_view(final(output)@), ignore_submodules, windows),
        r matches Ok(Collected::Descend) ==> avoids_git(child_path(folder@, name@, windows), windows),
        grows_tree(items_view(old(output)@), folder@, name@, windows) ==> is_tree(items_view(final(output)@)),
        ({
            let relative = child_path(folder@, name@, windows);
            let key = merge::key_of(relative, windows);
            let kind = kind_of_entry(
                entry,
                git_boundary,
                ignore_submodules,
                configured_submodules@.dom().contains(key),
            );
            let had = items_view(old(output)@);
            &&& collected_view(r) == collected(name@, kind, windows)
            &&& items_view(final(output)@) == match (collected(name@, kind, windows), kind) {
                (Ok(Collected::Noted), Some(k)) => had.insert(key, (relative, k)),
                (Ok(Collected::Descend), Some(k)) => had.insert(key, (relative, k)),
                _ => had,
            }
        }),
{
    if text::eq_ignore_ascii_case(name, ".git") {
        return Ok(Collected::Skipped);
    }
    if name.is_empty() || text::contains_char(name, '/') || (windows && text::contains_char(name, '\\')) {
        return Err("A folder item escaped its selected root".to_owned());
    }
    proof {
        lemma_child_avoids_git(folder@, name@, windows);
    }
    let relative: String = join_child(folder, name, windows);
    let key: String = merge::comparison_key(relative.as_str(), windows);
    let kind: ItemKind = match entry {
        EntryType::Symlink => ItemKind::Symlink,
        EntryType::Directory => {
            let configured: bool = configured_submodules.contains_key(key.as_str());
            if ignore_submodules && (configured || git_boundary) {
                ItemKind::Submodule
            } else {
                ItemKind::Directory
            }
        },
        EntryType::File { bytes } => ItemKind::File { bytes },
        EntryType::Other => {
            return Ok(Collected::Noted);
        },
    };
    let ghost had = output@;
    let ghost k0 = key@;
    let ghost item = FoundItem { relative, kind };
    output.insert(key, FoundItem { relative, kind });
    assert(items_view(output@) =~= items_view(had).insert(k0, item_view(item)));
    proof {
        if grows_tree(items_view(had), folder@, name@, windows) {
            lemma_tree_grows(items_view(had), folder@, name@, item_view(item));
        }
    }
    if kind == ItemKind::Directory {
        Ok(Collected::Descend)
    } else {
        Ok(Collected::Noted)
    }
}

/// A scan can begin: nothing found yet is a scan and a tree, and the outermost folder lies outside Git's own.
pub proof fn law_a_scan_starts_from_nothing(items: Map<Seq<char>, FoundItem>, ignore_submodules: bool, windows: bool)
    requires
        items.dom() == Set::<Seq<char>>::empty(),
    ensures
        is_scan(items_view(items), ignore_submodules, windows),
        is_tree(items_view(items)),
        is_found_folder(items_view(items), ""@, windows),
        avoids_git(""@, windows),
{
    reveal_strlit("");
    reveal_strlit(".git");
    let path = ""@;
    assert(path =~= Seq::empty());
    assert(text::replaced(path, '\\', '/') =~= Seq::empty());
    assert(names_between(path, windows) =~= seq![Seq::<char>::empty()]);
    assert(text::ascii_lowered(Seq::<char>::empty()).len() == 0);
    assert(text::ascii_lowered(".git"@).len() == 4);
}

/// The folder of a submodule that either side declares is one item on both sides, whether or not it holds
/// an entry named `.git`: while submodules are ignored it is never entered.
pub proof fn law_declared_submodules_are_never_entered(git_boundary: bool)
    ensures
        kind_of_entry(EntryType::Directory, git_boundary, true, true) == Some(ItemKind::Submodule),
{
}

/// The message for an item that cannot be inspected.
pub fn cannot_inspect_message(path: &str, error: &str) -> (r: String)
    ensures
        r@ == "Cannot inspect '"@ + path@ + "': "@ + error@,
{
    let mut r: String = text::framed("Cannot inspect '", path, "': ");
    r.append(error);
    r
}

/// Stops a scan that has found too many items.
pub fn check_item_limit(output: &TextMap<FoundItem>) -> (r: Result<(), String>)
    requires
        output.wf(),
    ensures
        text::unit_view(r) == if output@.dom().len() > MAX_FOLDER_ITEMS {
            Err::<(), Seq<char>>(
                "Folder comparison stopped safely after 50000 items. Narrow the two folders and compare again."@,
            )
        } else {
            Ok(())
        },
{
    if output.len() > MAX_FOLDER_ITEMS {
        return Err(
            "Folder comparison stopped safely after 50000 items. Narrow the two folders and compare again.".to_owned(),
        );
    }
    Ok(())
}

// Fingerprints of files.

/// The text by which a file is recognised: a digest of what was read of it and its size.
pub open spec fn fingerprint(digest: u64, bytes: u64) -> Seq<char> {
    numerals::hex(digest as nat, 16) + ":"@ + numerals::decimal(bytes as nat)
}

/// The text by which a file is recognised.
pub fn fingerprint_text(digest: u64, bytes: u64) -> (r: String)
    ensures
        r@ == fingerprint(digest, bytes),
{
    let mut r: String = numerals::hex_text(digest, 16);
    r.append(":");
    r.append(numerals::decimal_text(bytes).as_str());
    r
}

/// Two files that are read in step.
pub struct FilePairReader {
    left: DefaultHasher,
    right: DefaultHasher,
    identical: bool,
}

impl FilePairReader {
    /// What has been read of the left file.
    pub closed spec fn left(&self) -> Seq<Seq<u8>> {
        self.left@
    }

    /// What has been read of the right file.
    pub closed spec fn right(&self) -> Seq<Seq<u8>> {
        self.right@
    }

    /// The two files have been read in the same number of steps, and it is known whether they agree.
    pub closed spec fn wf(&self) -> bool {
        &&& self.left@.len() == self.right@.len()
        &&& self.identical == (self.left@ == self.right@)
    }

    /// Nothing has been read yet.
    pub fn new() -> (r: Self)
        ensures
            r.wf(),
            r.left() == Seq::<Seq<u8>>::empty(),
            r.right() == Seq::<Seq<u8>>::empty(),
    {
        FilePairReader { left: DefaultHasher::new(), right: DefaultHasher::new(), identical: true }
    }

    /// Takes what one step has read of both files, and says whether both have ended.
    pub fn read(&mut self, left_chunk: &[u8], right_chunk: &[u8]) -> (ended: bool)
        requires
            old(self).wf(),
        ensures
            final(self).wf(),
            final(self).left() == old(self).left().push(left_chunk@),
            final(self).right() == old(self).right().push(right_chunk@),
            ended == (left_chunk@.len() == 0 && right_chunk@.len() == 0),
    {
        let ghost l = self.left@;
        let ghost r = self.right@;
        self.left.write(left_chunk);
        self.right.write(right_chunk);
        let same: bool = same_bytes(left_chunk, right_chunk);
        if !same {
            self.identical = false;
        }
        proof {
            if self.left@ == self.right@ {
                assert(l.push(left_chunk@).last() == r.push(right_chunk@).last());
                assert(l.push(left_chunk@).drop_last() =~= l);
                assert(r.push(right_chunk@).drop_last() =~= r);
            }
        }
        left_chunk.len() == 0 && right_chunk.len() == 0
    }

    /// Whether the files agreed in every step, and the fingerprint of each.
    pub fn finish(&self, left_bytes: u64, right_bytes: u64) -> (r: (bool, String, String))
        requires
            self.wf(),
        ensures
            r.0 == (self.left() == self.right()),
            r.1@ == fingerprint(DefaultHasher::spec_finish(self.left()), left_bytes),
            r.2@ == fingerprint(DefaultHasher::spec_finish(self.right()), right_bytes),
    {
        (
            self.identical,
            fingerprint_text(self.left.finish(), left_bytes),
            fingerprint_text(self.right.finish(), right_bytes),
        )
    }
}

fn same_bytes(a: &[u8], b: &[u8]) -> (r: bool)
    ensures
        r == (a@ == b@),
{
    if a.len() != b.len() {
        return false;
    }
    for i in 0..a.len()
        invariant
            a@.len() == b@.len(),
            forall|j: int| 0 <= j < i ==> a@[j] == b@[j],
    {
        if a[i] != b[i] {
            return false;
        }
    }
    assert(a@ =~= b@);
    true
}

/// Whether two files are read in step: files of different sizes differ and are read one after the other.
pub fn read_in_step(left_bytes: u64, right_bytes: u64) -> (r: bool)
    ensures
        r == (left_bytes == right_bytes),
{
    left_bytes == right_bytes
}

/// One file that is read step by step.
pub struct FileReader {
    hasher: DefaultHasher,
}

impl FileReader {
    /// What has been read.
    pub closed spec fn read_so_far(&self) -> Seq<Seq<u8>> {
        self.hasher@
    }

    /// Nothing has been read yet.
    pub fn new() -> (r: Self)
        ensures
            r.read_so_far() == Seq::<Seq<u8>>::empty(),
    {
        FileReader { hasher: DefaultHasher::new() }
    }

    /// Takes what one step has read.
    pub fn read(&mut self, chunk: &[u8])
        ensures
            final(self).read_so_far() == old(self).read_so_far().push(chunk@),
    {
        self.hasher.write(chunk);
    }

    /// The fingerprint of a file of this size.
    pub fn finish(&self, bytes: u64) -> (r: String)
        ensures
            r@ == fingerprint(DefaultHasher::spec_finish(self.read_so_far()), bytes),
    {
        fingerprint_text(self.hasher.finish(), bytes)
    }
}

/// Whether a file is offered for review: small enough, and text.
pub fn probably_reviewable_text(bytes: u64, content: Option<Vec<u8>>) -> (r: bool)
    ensures
        r == (bytes <= MAX_LOCAL_TEXT_BYTES && content is Some && encoding::read_text(content->0@) is Ok),
{
    if bytes > MAX_LOCAL_TEXT_BYTES {
        return false;
    }
    match content {
        Some(c) => encoding::decode_local_text(c).is_ok(),
        None => false,
    }
}

// Matching the two sides.

/// What stands at one key on both sides.
#[derive(Clone, Copy, PartialEq, Eq, Structural)]
pub enum RowKind {
    /// A submodule on either side.
    Submodule,
    /// A folder on both sides.
    FolderPair,
    /// A file on both sides.
    FilePair { left_bytes: u64, right_bytes: u64 },
    LeftFile { bytes: u64 },
    RightFile { bytes: u64 },
    LeftFolder,
    RightFolder,
    /// A symbolic link on both sides.
    SymlinkPair,
    /// Things that cannot be matched.
    Conflict,
}

/// What stands at one key on both sides. A link on one side alone is a conflict too.
pub open spec fn row_kind(left: Option<ItemKind>, right: Option<ItemKind>) -> RowKind {
    match (left, right) {
        (Some(ItemKind::Submodule), _) => RowKind::Submodule,
        (_, Some(ItemKind::Submodule)) => RowKind::Submodule,
        (Some(ItemKind::Directory), Some(ItemKind::Directory)) => RowKind::FolderPair,
        (Some(ItemKind::File { bytes: left_bytes }), Some(ItemKind::File { bytes: right_bytes })) =>
            RowKind::FilePair { left_bytes, right_bytes },
        (Some(ItemKind::File { bytes }), None) => RowKind::LeftFile { bytes },
        (None, Some(ItemKind::File { bytes })) => RowKind::RightFile { bytes },
        (Some(ItemKind::Directory), None) => RowKind::LeftFolder,
        (None, Some(ItemKind::Directory)) => RowKind::RightFolder,
        (Some(ItemKind::Symlink), Some(ItemKind::Symlink)) => RowKind::SymlinkPair,
        _ => RowKind::Conflict,
    }
}

fn kind_of_row(left: Option<ItemKind>, right: Option<ItemKind>) -> (r: RowKind)
    ensures
        r == row_kind(left, right),
{
    match (left, right) {
        (Some(ItemKind::Submodule), _) => RowKind::Submodule,
        (_, Some(ItemKind::Submodule)) => RowKind::Submodule,
        (Some(ItemKind::Directory), Some(ItemKind::Directory)) => RowKind::FolderPair,
        (Some(ItemKind::File { bytes: left_bytes }), Some(ItemKind::File { bytes: right_bytes })) =>
            RowKind::FilePair { left_bytes, right_bytes },
        (Some(ItemKind::File { bytes }), None) => RowKind::LeftFile { bytes },
        (None, Some(ItemKind::File { bytes })) => RowKind::RightFile { bytes },
        (Some(ItemKind::Directory), None) => RowKind::LeftFolder,
        (None, Some(ItemKind::Directory)) => RowKind::RightFolder,
        (Some(ItemKind::Symlink), Some(ItemKind::Symlink)) => RowKind::SymlinkPair,
        _ => RowKind::Conflict,
    }
}

/// An item by its path and its kind.
pub open spec fn item_view(item: FoundItem) -> (Seq<char>, ItemKind) {
    (item.relative@, item.kind)
}

/// The items of a folder by their keys.
pub open spec fn items_view(items: Map<Seq<char>, FoundItem>) -> Map<Seq<char>, (Seq<char>, ItemKind)> {
    items.map_values(|item: FoundItem| item_view(item))
}

/// The kind of the item at `key`.
pub open spec fn kind_at(items: Map<Seq<char>, (Seq<char>, ItemKind)>, key: Seq<char>) -> Option<ItemKind> {
    if items.dom().contains(key) {
        Some(items[key].1)
    } else {
        None
    }
}

/// The path of the item at `key`.
pub open spec fn path_at(items: Map<Seq<char>, (Seq<char>, ItemKind)>, key: Seq<char>) -> Option<Seq<char>> {
    if items.dom().contains(key) {
        Some(items[key].0)
    } else {
        None
    }
}

/// Two folders that are compared.
pub struct Sides {
    pub left: Map<Seq<char>, (Seq<char>, ItemKind)>,
    pub right: Map<Seq<char>, (Seq<char>, ItemKind)>,
}

impl Sides {
    /// Whether an item stands at `key` on either side.
    pub open spec fn has(self, key: Seq<char>) -> bool {
        self.left.dom().contains(key) || self.right.dom().contains(key)
    }

    /// What stands at `key`.
    pub open spec fn kind(self, key: Seq<char>) -> RowKind {
        row_kind(kind_at(self.left, key), kind_at(self.right, key))
    }

    /// Whether nothing below `key` is compared: an ignored submodule, or things on the two sides that
    /// cannot be matched.
    pub open spec fn is_boundary(self, ignore_submodules: bool, key: Seq<char>) -> bool {
        ||| ignore_submodules && self.has(key) && self.kind(key) == RowKind::Submodule
        ||| self.left.dom().contains(key) && self.right.dom().contains(key) && self.kind(key)
            == RowKind::Conflict
    }

    /// Whether `key` lies below a boundary.
    pub open spec fn is_hidden(self, ignore_submodules: bool, key: Seq<char>) -> bool {
        exists|edge: Seq<char>| #[trigger] self.is_boundary(ignore_submodules, edge) && lies_below(key, edge)
    }

    /// Whether `key` is compared.
    pub open spec fn is_visible(self, ignore_submodules: bool, key: Seq<char>) -> bool {
        self.has(key) && !self.is_hidden(ignore_submodules, key)
    }

    /// The row of `key`.
    pub open spec fn row(self, key: Seq<char>) -> Row {
        Row {
            key,
            left: path_at(self.left, key),
            right: path_at(self.right, key),
            kind: self.kind(key),
        }
    }

    /// The two folders the other way round.
    pub open spec fn swapped(self) -> Sides {
        Sides { left: self.right, right: self.left }
    }
}

/// Whether `key` is the path of something inside `folder`.
pub open spec fn lies_below(key: Seq<char>, folder: Seq<char>) -> bool {
    folder.len() < key.len() && key.take(folder.len() as int) == folder && key[folder.len() as int] == '/'
}

/// One row of a comparison by its characters.
pub struct Row {
    pub key: Seq<char>,
    pub left: Option<Seq<char>>,
    pub right: Option<Seq<char>>,
    pub kind: RowKind,
}

impl Row {
    /// The path under which the row is shown.
    pub open spec fn relative(self) -> Seq<char> {
        match (self.left, self.right) {
            (Some(path), _) => path,
            (None, Some(path)) => path,
            (None, None) => Seq::empty(),
        }
    }
}

/// One row of a comparison.
pub struct PlannedRow {
    pub key: String,
    /// The path of the item below the left folder.
    pub left: Option<String>,
    /// The path of the item below the right folder.
    pub right: Option<String>,
    pub kind: RowKind,
}

impl View for PlannedRow {
    type V = Row;

    open spec fn view(&self) -> Row {
        Row {
            key: self.key@,
            left: text::opt_view(self.left),
            right: text::opt_view(self.right),
            kind: self.kind,
        }
    }
}

/// Rows by their characters.
pub open spec fn rows_view(rows: Seq<PlannedRow>) -> Seq<Row> {
    rows.map_values(|row: PlannedRow| row@)
}

/// The keys of rows.
pub open spec fn keys_of(rows: Seq<Row>) -> Seq<Seq<char>> {
    rows.map_values(|row: Row| row.key)
}

/// Whether rows are those of the two folders: one for each visible key, in increasing order.
pub open spec fn is_plan(sides: Sides, ignore_submodules: bool, rows: Seq<Row>) -> bool {
    &&& text_map::increasing(keys_of(rows))
    &&& forall|key: Seq<char>| #[trigger]
        keys_of(rows).contains(key) <==> sides.is_visible(ignore_submodules, key)
    &&& forall|i: int| 0 <= i < rows.len() ==> #[trigger] rows[i] == sides.row(rows[i].key)
}

/// The two folders that scans have found.
pub open spec fn sides_of(left: TextMap<FoundItem>, right: TextMap<FoundItem>) -> Sides {
    Sides { left: items_view(left@), right: items_view(right@) }
}

fn find_item(items: &TextMap<FoundItem>, key: &str) -> (r: (Option<String>, Option<ItemKind>))
    requires
        items.wf(),
    ensures
        text::opt_view(r.0) == path_at(items_view(items@), key@),
        r.1 == kind_at(items_view(items@), key@),
{
    match items.get(key) {
        Some(item) => (Some(item.relative.clone()), Some(item.kind)),
        None => (None, None),
    }
}

fn is_below(key: &Vec<char>, folder: &Vec<char>) -> (r: bool)
    ensures
        r == lies_below(key@, folder@),
{
    if folder.len() >= key.len() || key[folder.len()] != '/' {
        return false;
    }
    for i in 0..folder.len()
        invariant
            folder@.len() < key@.len(),
            forall|j: int| 0 <= j < i ==> key@[j] == folder@[j],
    {
        if key[i] != folder[i] {
            assert(key@.take(folder@.len() as int)[i as int] != folder@[i as int]);
            return false;
        }
    }
    assert(key@.take(folder@.len() as int) =~= folder@);
    true
}

fn is_below_any(key: &str, folders: &Vec<Vec<char>>) -> (r: bool)
    ensures
        r == exists|i: int| 0 <= i < folders@.len() && lies_below(key@, #[trigger] folders@[i]@),
{
    let chars: Vec<char> = text::chars_of(key);
    for i in 0..folders.len()
        invariant
            chars@ == key@,
            forall|j: int| 0 <= j < i ==> !lies_below(key@, #[trigger] folders@[j]@),
    {
        if is_below(&chars, &folders[i]) {
            assert(lies_below(key@, folders@[i as int]@));
            return true;
        }
    }
    false
}

fn keys_of_both(left: &TextMap<FoundItem>, right: &TextMap<FoundItem>) -> (r: TextMap<()>)
    requires
        left.wf(),
        right.wf(),
    ensures
        r.wf(),
        forall|key: Seq<char>| #[trigger] r@.dom().contains(key) <==> sides_of(*left, *right).has(key),
{
    let mut all: TextMap<()> = TextMap::new();
    proof {
        left.lemma_contents();
        right.lemma_contents();
    }
    let left_count: usize = left.len();
    for i in 0..left_count
        invariant
            left_count == left.keys().len(),
            all.wf(),
            left.wf(),
            forall|key: Seq<char>| #[trigger]
                all@.dom().contains(key) <==> left.keys().take(i as int).contains(key),
    {
        all.insert(left.key_at(i).clone(), ());
        assert(left.keys().take(i + 1) =~= left.keys().take(i as int).push(left.keys()[i as int]));
        proof {
            lemma_push_contains(left.keys().take(i as int), left.keys()[i as int]);
        }
    }
    assert(left.keys().take(left.keys().len() as int) =~= left.keys());
    let right_count: usize = right.len();
    for i in 0..right_count
        invariant
            right_count == right.keys().len(),
            all.wf(),
            right.wf(),
            forall|key: Seq<char>| #[trigger]
                all@.dom().contains(key) <==> left.keys().contains(key) || right.keys().take(i as int).contains(key),
    {
        all.insert(right.key_at(i).clone(), ());
        assert(right.keys().take(i + 1) =~= right.keys().take(i as int).push(right.keys()[i as int]));
        proof {
            lemma_push_contains(right.keys().take(i as int), right.keys()[i as int]);
        }
    }
    assert(right.keys().take(right.keys().len() as int) =~= right.keys());
    assert forall|key: Seq<char>| #[trigger] all@.dom().contains(key) <==> sides_of(*left, *right).has(key) by {
        assert(left@.dom().contains(key) <==> left.keys().contains(key));
        assert(right@.dom().contains(key) <==> right.keys().contains(key));
    }
    all
}

proof fn lemma_push_contains<A>(s: Seq<A>, a: A)
    ensures
        forall|x: A| #[trigger] s.push(a).contains(x) <==> s.contains(x) || x == a,
{
    assert forall|x: A| #[trigger] s.push(a).contains(x) <==> s.contains(x) || x == a by {
        if s.contains(x) {
            let i = s.index_of(x);
            assert(s.push(a)[i] == x);
        }
        assert(s.push(a)[s.len() as int] == a);
        if s.push(a).contains(x) && x != a {
            let i = choose|i: int| 0 <= i < s.push(a).len() && s.push(a)[i] == x;
            assert(s[i] == x);
        }
    }
}

fn boundaries(
    left: &TextMap<FoundItem>,
    right: &TextMap<FoundItem>,
    ignore_submodules: bool,
    all: &TextMap<()>,
) -> (r: Vec<Vec<char>>)
    requires
        left.wf(),
        right.wf(),
        all.wf(),
        forall|key: Seq<char>| #[trigger] all@.dom().contains(key) <==> sides_of(*left, *right).has(key),
    ensures
        forall|i: int|
            0 <= i < r@.len() ==> sides_of(*left, *right).is_boundary(ignore_submodules, #[trigger] r@[i]@),
        forall|key: Seq<char>| #[trigger]
            sides_of(*left, *right).is_boundary(ignore_submodules, key) ==> exists|i: int|
                0 <= i < r@.len() && #[trigger] r@[i]@ == key,
{
    let ghost sides = sides_of(*left, *right);
    let mut r: Vec<Vec<char>> = Vec::new();
    proof {
        all.lemma_contents();
    }
    let all_count: usize = all.len();
    for n in 0..all_count
        invariant
            all_count == all.keys().len(),
            left.wf(),
            right.wf(),
            all.wf(),
            sides == sides_of(*left, *right),
            forall|i: int|
                0 <= i < r@.len() ==> sides.is_boundary(ignore_submodules, #[trigger] r@[i]@),
            forall|j: int|
                0 <= j < n && sides.is_boundary(ignore_submodules, #[trigger] all.keys()[j]) ==> exists|i: int|
                    0 <= i < r@.len() && #[trigger] r@[i]@ == all.keys()[j],
    {
        let key: &String = all.key_at(n);
        let (left_path, left_kind) = find_item(left, key.as_str());
        let (right_path, right_kind) = find_item(right, key.as_str());
        let kind: RowKind = kind_of_row(left_kind, right_kind);
        let conflict: bool = left_kind.is_some() && right_kind.is_some() && kind == RowKind::Conflict;
        let ghost had = r@;
        if (ignore_submodules && kind == RowKind::Submodule) || conflict {
            r.push(text::chars_of(key.as_str()));
        }
        proof {
            assert forall|j: int|
                0 <= j < n + 1 && sides.is_boundary(ignore_submodules, #[trigger] all.keys()[j]) implies exists|
                i: int,
            | 0 <= i < r@.len() && #[trigger] r@[i]@ == all.keys()[j] by {
                if j < n {
                    let i = choose|i: int| 0 <= i < had.len() && #[trigger] had[i]@ == all.keys()[j];
                    assert(r@[i]@ == all.keys()[j]);
                } else {
                    assert(r@[r@.len() - 1]@ == all.keys()[j]);
                }
            }
        }
    }
    assert forall|key: Seq<char>| #[trigger] sides.is_boundary(ignore_submodules, key) implies exists|i: int|
        0 <= i < r@.len() && #[trigger] r@[i]@ == key by {
        assert(all@.dom().contains(key));
        let j = all.keys().index_of(key);
        assert(all.keys().contains(key));
        assert(sides.is_boundary(ignore_submodules, all.keys()[j]));
    }
    r
}

/// The rows that a comparison shows: one for each key of either side, in increasing order. Nothing
/// below an ignored submodule or below things that cannot be matched has a row.
pub fn plan_comparison(
    left: &TextMap<FoundItem>,
    right: &TextMap<FoundItem>,
    ignore_submodules: bool,
) -> (r: Vec<PlannedRow>)
    requires
        left.wf(),
        right.wf(),
    ensures
        is_plan(sides_of(*left, *right), ignore_submodules, rows_view(r@)),
{
    let ghost sides = sides_of(*left, *right);
    let all: TextMap<()> = keys_of_both(left, right);
    let edges: Vec<Vec<char>> = boundaries(left, right, ignore_submodules, &all);
    let mut r: Vec<PlannedRow> = Vec::new();
    proof {
        all.lemma_contents();
        assert(keys_of(rows_view(r@)) =~= Seq::empty());
    }
    let all_count: usize = all.len();
    for n in 0..all_count
        invariant
            all_count == all.keys().len(),
            left.wf(),
            right.wf(),
            all.wf(),
            sides == sides_of(*left, *right),
            forall|key: Seq<char>| #[trigger] all@.dom().contains(key) <==> sides.has(key),
            forall|i: int|
                0 <= i < edges@.len() ==> sides.is_boundary(ignore_submodules, #[trigger] edges@[i]@),
            forall|key: Seq<char>| #[trigger]
                sides.is_boundary(ignore_submodules, key) ==> exists|i: int|
                    0 <= i < edges@.len() && #[trigger] edges@[i]@ == key,
            text_map::increasing(keys_of(rows_view(r@))),
            forall|key: Seq<char>| #[trigger]
                keys_of(rows_view(r@)).contains(key) <==> all.keys().take(n as int).contains(key)
                    && sides.is_visible(ignore_submodules, key),
            forall|i: int|
                0 <= i < r@.len() ==> #[trigger] rows_view(r@)[i] == sides.row(rows_view(r@)[i].key),
    {
        let key: &String = all.key_at(n);
        proof {
            all.lemma_contents();
            lemma_push_contains(all.keys().take(n as int), key@);
            assert(all.keys().take(n + 1) =~= all.keys().take(n as int).push(key@));
        }
        let hidden: bool = is_below_any(key.as_str(), &edges);
        proof {
            assert(hidden <==> sides.is_hidden(ignore_submodules, key@)) by {
                if hidden {
                    let i = choose|i: int| 0 <= i < edges@.len() && lies_below(key@, #[trigger] edges@[i]@);
                    assert(sides.is_boundary(ignore_submodules, edges@[i]@) && lies_below(key@, edges@[i]@));
                }
                if sides.is_hidden(ignore_submodules, key@) {
                    let edge = choose|edge: Seq<char>| #[trigger]
                        sides.is_boundary(ignore_submodules, edge) && lies_below(key@, edge);
                    let i = choose|i: int| 0 <= i < edges@.len() && #[trigger] edges@[i]@ == edge;
                    assert(lies_below(key@, edges@[i]@));
                }
            }
            assert(sides.has(key@));
        }
        if !hidden {
            let (left_path, left_kind) = find_item(left, key.as_str());
            let (right_path, right_kind) = find_item(right, key.as_str());
            let kind: RowKind = kind_of_row(left_kind, right_kind);
            let ghost had = rows_view(r@);
            r.push(PlannedRow { key: key.clone(), left: left_path, right: right_path, kind });
            proof {
                let rows = rows_view(r@);
                assert(rows =~= had.push(sides.row(key@)));
                assert(keys_of(rows) =~= keys_of(had).push(key@));
                lemma_push_contains(keys_of(had), key@);
                assert forall|i: int, j: int| 0 <= i < j < keys_of(rows).len() implies text::before(
                    #[trigger] keys_of(rows)[i],
                    #[trigger] keys_of(rows)[j],
                ) by {
                    if j == had.len() {
                        let k = keys_of(had)[i];
                        assert(keys_of(had).contains(k));
                        let m = all.keys().take(n as int).index_of(k);
                        assert(all.keys().take(n as int)[m] == k);
                        assert(all.keys()[m] == k && m < n);
                    } else {
                        assert(keys_of(rows)[i] == keys_of(had)[i] && keys_of(rows)[j] == keys_of(had)[j]);
                    }
                }
            }
        }
    }
    proof {
        assert(all.keys().take(all.keys().len() as int) =~= all.keys());
        assert forall|key: Seq<char>| #[trigger]
            keys_of(rows_view(r@)).contains(key) <==> sides.is_visible(ignore_submodules, key) by {
            if sides.has(key) {
                assert(all@.dom().contains(key));
                assert(all.keys().contains(key));
            }
        }
    }
    r
}

// The result of a comparison.

/// One row that differs.
pub struct LocalDirectoryDifference {
    pub relative_path: String,
    pub left_path: Option<String>,
    pub right_path: Option<String>,
    pub item_kind: String,
    pub status: String,
    pub left_bytes: u64,
    pub right_bytes: u64,
    pub reviewable: bool,
    pub left_fingerprint: Option<String>,
    pub right_fingerprint: Option<String>,
}

/// How many rows there are of each kind.
pub struct LocalDirectoryCounts {
    pub same: u64,
    pub modified: u64,
    pub left_only: u64,
    pub right_only: u64,
    pub conflicts: u64,
    pub ignored_submodules: u64,
}

/// What a comparison of two folders has found.
pub struct LocalDirectoryComparison {
    pub left_root: String,
    pub right_root: String,
    pub entries: Vec<LocalDirectoryDifference>,
    pub counts: LocalDirectoryCounts,
}

/// What reading the files of a row has found. Of a row without files nothing is read.
pub struct Probe {
    /// Whether the two files hold the same.
    pub identical: bool,
    pub left_fingerprint: String,
    pub right_fingerprint: String,
    /// Whether the left file can be reviewed as text.
    pub left_reviewable: bool,
    /// Whether the right file can be reviewed as text.
    pub right_reviewable: bool,
}

/// What a row counts as.
#[derive(Clone, Copy, PartialEq, Eq, Structural)]
pub enum Outcome {
    Same,
    Modified,
    LeftOnly,
    RightOnly,
    Conflict,
    IgnoredSubmodule,
}

/// What a row counts as, once its files have been compared.
pub open spec fn outcome(kind: RowKind, identical: bool) -> Outcome {
    match kind {
        RowKind::Submodule => Outcome::IgnoredSubmodule,
        RowKind::FolderPair => Outcome::Same,
        RowKind::FilePair { .. } => if identical {
            Outcome::Same
        } else {
            Outcome::Modified
        },
        RowKind::LeftFile { .. } => Outcome::LeftOnly,
        RowKind::RightFile { .. } => Outcome::RightOnly,
        RowKind::LeftFolder => Outcome::LeftOnly,
        RowKind::RightFolder => Outcome::RightOnly,
        RowKind::SymlinkPair => Outcome::Conflict,
        RowKind::Conflict => Outcome::Conflict,
    }
}

fn outcome_of(kind: RowKind, identical: bool) -> (r: Outcome)
    ensures
        r == outcome(kind, identical),
{
    match kind {
        RowKind::Submodule => Outcome::IgnoredSubmodule,
        RowKind::FolderPair => Outcome::Same,
        RowKind::FilePair { .. } => if identical {
            Outcome::Same
        } else {
            Outcome::Modified
        },
        RowKind::LeftFile { .. } => Outcome::LeftOnly,
        RowKind::RightFile { .. } => Outcome::RightOnly,
        RowKind::LeftFolder => Outcome::LeftOnly,
        RowKind::RightFolder => Outcome::RightOnly,
        RowKind::SymlinkPair => Outcome::Conflict,
        RowKind::Conflict => Outcome::Conflict,
    }
}

/// The word for what stands at a row.
pub open spec fn kind_word(kind: RowKind) -> Seq<char> {
    match kind {
        RowKind::Submodule => "submodule"@,
        RowKind::FolderPair | RowKind::LeftFolder | RowKind::RightFolder => "folder"@,
        RowKind::FilePair { .. } | RowKind::LeftFile { .. } | RowKind::RightFile { .. } => "file"@,
        RowKind::SymlinkPair => "symlink"@,
        RowKind::Conflict => "conflict"@,
    }
}

/// The word for how the two sides of a row relate.
pub open spec fn status_word(kind: RowKind, identical: bool) -> Seq<char> {
    match outcome(kind, identical) {
        Outcome::Same => "same"@,
        Outcome::Modified => "modified"@,
        Outcome::LeftOnly => "left-only"@,
        Outcome::RightOnly => "right-only"@,
        Outcome::Conflict => if kind == RowKind::SymlinkPair {
            "unsupported"@
        } else {
            "type-conflict"@
        },
        Outcome::IgnoredSubmodule => "ignored-submodule"@,
    }
}

/// One row that differs, by its characters.
pub struct Difference {
    pub relative_path: Seq<char>,
    pub left_path: Option<Seq<char>>,
    pub right_path: Option<Seq<char>>,
    pub item_kind: Seq<char>,
    pub status: Seq<char>,
    pub left_bytes: u64,
    pub right_bytes: u64,
    pub reviewable: bool,
    pub left_fingerprint: Option<Seq<char>>,
    pub right_fingerprint: Option<Seq<char>>,
}

impl View for LocalDirectoryDifference {
    type V = Difference;

    open spec fn view(&self) -> Difference {
        Difference {
            relative_path: self.relative_path@,
            left_path: text::opt_view(self.left_path),
            right_path: text::opt_view(self.right_path),
            item_kind: self.item_kind@,
            status: self.status@,
            left_bytes: self.left_bytes,
            right_bytes: self.right_bytes,
            reviewable: self.reviewable,
            left_fingerprint: text::opt_view(self.left_fingerprint),
            right_fingerprint: text::opt_view(self.right_fingerprint),
        }
    }
}

/// How a row is reported. Fingerprints are given where both sides are files that differ; a row can be
/// reviewed where each file that it has is text.
pub open spec fn difference(
    row: Row,
    probe: Probe,
    left_path: Option<Seq<char>>,
    right_path: Option<Seq<char>>,
) -> Difference {
    let modified = outcome(row.kind, probe.identical) == Outcome::Modified;
    Difference {
        relative_path: row.relative(),
        left_path,
        right_path,
        item_kind: kind_word(row.kind),
        status: status_word(row.kind, probe.identical),
        left_bytes: match row.kind {
            RowKind::FilePair { left_bytes, right_bytes } => left_bytes,
            RowKind::LeftFile { bytes } => bytes,
            _ => 0,
        },
        right_bytes: match row.kind {
            RowKind::FilePair { left_bytes, right_bytes } => right_bytes,
            RowKind::RightFile { bytes } => bytes,
            _ => 0,
        },
        reviewable: match row.kind {
            RowKind::FilePair { .. } => !probe.identical && probe.left_reviewable && probe.right_reviewable,
            RowKind::LeftFile { .. } => probe.left_reviewable,
            RowKind::RightFile { .. } => probe.right_reviewable,
            _ => false,
        },
        left_fingerprint: if modified {
            Some(probe.left_fingerprint@)
        } else {
            None
        },
        right_fingerprint: if modified {
            Some(probe.right_fingerprint@)
        } else {
            None
        },
    }
}

/// Reports a row whose items lie at the given paths.
pub fn report_row(
    row: &PlannedRow,
    probe: &Probe,
    left_path: Option<String>,
    right_path: Option<String>,
) -> (r: LocalDirectoryDifference)
    ensures
        r@ == difference(row@, *probe, text::opt_view(left_path), text::opt_view(right_path)),
{
    let relative_path: String = match (&row.left, &row.right) {
        (Some(path), _) => path.clone(),
        (None, Some(path)) => path.clone(),
        (None, None) => String::new(),
    };
    let item_kind: &str = match row.kind {
        RowKind::Submodule => "submodule",
        RowKind::FolderPair | RowKind::LeftFolder | RowKind::RightFolder => "folder",
        RowKind::FilePair { .. } | RowKind::LeftFile { .. } | RowKind::RightFile { .. } => "file",
        RowKind::SymlinkPair => "symlink",
        RowKind::Conflict => "conflict",
    };
    let result: Outcome = outcome_of(row.kind, probe.identical);
    let status: &str = match result {
        Outcome::Same => "same",
        Outcome::Modified => "modified",
        Outcome::LeftOnly => "left-only",
        Outcome::RightOnly => "right-only",
        Outcome::Conflict => if row.kind == RowKind::SymlinkPair {
            "unsupported"
        } else {
            "type-conflict"
        },
        Outcome::IgnoredSubmodule => "ignored-submodule",
    };
    let (left_bytes, right_bytes): (u64, u64) = match row.kind {
        RowKind::FilePair { left_bytes, right_bytes } => (left_bytes, right_bytes),
        RowKind::LeftFile { bytes } => (bytes, 0),
        RowKind::RightFile { bytes } => (0, bytes),
        _ => (0, 0),
    };
    let reviewable: bool = match row.kind {
        RowKind::FilePair { .. } => !probe.identical && probe.left_reviewable && probe.right_reviewable,
        RowKind::LeftFile { .. } => probe.left_reviewable,
        RowKind::RightFile { .. } => probe.right_reviewable,
        _ => false,
    };
    let (left_fingerprint, right_fingerprint): (Option<String>, Option<String>) = if result
        == Outcome::Modified {
        (Some(probe.left_fingerprint.clone()), Some(probe.right_fingerprint.clone()))
    } else {
        (None, None)
    };
    LocalDirectoryDifference {
        relative_path,
        left_path,
        right_path,
        item_kind: item_kind.to_owned(),
        status: status.to_owned(),
        left_bytes,
        right_bytes,
        reviewable,
        left_fingerprint,
        right_fingerprint,
    }
}

/// What each row counts as.
pub open spec fn outcomes(rows: Seq<Row>, probes: Seq<Probe>) -> Seq<Outcome> {
    Seq::new(rows.len(), |i: int| outcome(rows[i].kind, probes[i].identical))
}

/// How many of `list` are `kind`.
pub open spec fn count_of(list: Seq<Outcome>, kind: Outcome) -> nat
    decreases list.len(),
{
    if list.len() == 0 {
        0
    } else {
        count_of(list.drop_last(), kind) + if list.last() == kind {
            1nat
        } else {
            0nat
        }
    }
}

/// How many rows there are of each kind, as numbers.
pub struct Tally {
    pub same: nat,
    pub modified: nat,
    pub left_only: nat,
    pub right_only: nat,
    pub conflicts: nat,
    pub ignored_submodules: nat,
}

impl View for LocalDirectoryCounts {
    type V = Tally;

    open spec fn view(&self) -> Tally {
        Tally {
            same: self.same as nat,
            modified: self.modified as nat,
            left_only: self.left_only as nat,
            right_only: self.right_only as nat,
            conflicts: self.conflicts as nat,
            ignored_submodules: self.ignored_submodules as nat,
        }
    }
}

/// How many there are of each outcome.
pub open spec fn tally(list: Seq<Outcome>) -> Tally {
    Tally {
        same: count_of(list, Outcome::Same),
        modified: count_of(list, Outcome::Modified),
        left_only: count_of(list, Outcome::LeftOnly),
        right_only: count_of(list, Outcome::RightOnly),
        conflicts: count_of(list, Outcome::Conflict),
        ignored_submodules: count_of(list, Outcome::IgnoredSubmodule),
    }
}

/// The places of the rows that differ, in order.
pub open spec fn differing(list: Seq<Outcome>) -> Seq<int>
    decreases list.len(),
{
    if list.len() == 0 {
        Seq::empty()
    } else if list.last() == Outcome::Same {
        differing(list.drop_last())
    } else {
        differing(list.drop_last()).push(list.len() - 1)
    }
}

/// Whether `path` is where the platform put the item with this path below `root`.
pub open spec fn is_path_of(root: Seq<char>, relative: Option<Seq<char>>, path: Option<Seq<char>>) -> bool {
    match (relative, path) {
        (Some(rel), Some(p)) => paths::told_joined(root, rel, p),
        (None, None) => true,
        _ => false,
    }
}

/// Where the items of a row lie.
pub struct RowPlaces {
    pub left: Option<String>,
    pub right: Option<String>,
}

/// Where the items of a row lie, by characters.
pub struct Places {
    pub left: Option<Seq<char>>,
    pub right: Option<Seq<char>>,
}

impl View for RowPlaces {
    type V = Places;

    open spec fn view(&self) -> Places {
        Places { left: text::opt_view(self.left), right: text::opt_view(self.right) }
    }
}

/// Places by their characters.
pub open spec fn places_view(places: Seq<RowPlaces>) -> Seq<Places> {
    places.map_values(|place: RowPlaces| place@)
}

/// Whether places are those of the items of rows below the two folders.
pub open spec fn are_places(rows: Seq<Row>, left_root: Seq<char>, right_root: Seq<char>, places: Seq<Places>) -> bool {
    &&& places.len() == rows.len()
    &&& forall|i: int|
        0 <= i < rows.len() ==> is_path_of(left_root, rows[i].left, (#[trigger] places[i]).left) && is_path_of(
            right_root,
            rows[i].right,
            places[i].right,
        )
}

/// What a comparison of two folders has found, by its characters and numbers.
pub struct Report {
    pub left_root: Seq<char>,
    pub right_root: Seq<char>,
    pub entries: Seq<Difference>,
    pub counts: Tally,
}

impl View for LocalDirectoryComparison {
    type V = Report;

    open spec fn view(&self) -> Report {
        Report {
            left_root: self.left_root@,
            right_root: self.right_root@,
            entries: entries_view(self.entries@),
            counts: self.counts@,
        }
    }
}

/// Reported rows by their characters.
pub open spec fn entries_view(entries: Seq<LocalDirectoryDifference>) -> Seq<Difference> {
    entries.map_values(|entry: LocalDirectoryDifference| entry@)
}

/// The reports of the rows at `at`, in order.
pub open spec fn differences(rows: Seq<Row>, probes: Seq<Probe>, places: Seq<Places>, at: Seq<int>) -> Seq<
    Difference,
> {
    Seq::new(at.len(), |j: int| difference(rows[at[j]], probes[at[j]], places[at[j]].left, places[at[j]].right))
}

/// What a comparison finds: every row is counted, and the rows that differ are reported in order.
pub open spec fn report(
    left_root: Seq<char>,
    right_root: Seq<char>,
    rows: Seq<Row>,
    probes: Seq<Probe>,
    places: Seq<Places>,
) -> Report {
    let list = outcomes(rows, probes);
    Report { left_root, right_root, entries: differences(rows, probes, places, differing(list)), counts: tally(list) }
}

fn path_below(root: &str, relative: &Option<String>) -> (r: Option<String>)
    ensures
        is_path_of(root@, text::opt_view(*relative), text::opt_view(r)),
{
    match relative {
        Some(rel) => Some(paths::path_string(root, rel.as_str())),
        None => None,
    }
}

proof fn lemma_count_bound(list: Seq<Outcome>, kind: Outcome)
    ensures
        count_of(list, kind) <= list.len(),
    decreases list.len(),
{
    if list.len() > 0 {
        lemma_count_bound(list.drop_last(), kind);
    }
}

/// Puts the result of a comparison together, once it is known where the items of each row lie.
pub fn report_comparison(
    left_root: &str,
    right_root: &str,
    rows: &Vec<PlannedRow>,
    probes: &Vec<Probe>,
    places: &Vec<RowPlaces>,
) -> (r: LocalDirectoryComparison)
    requires
        probes@.len() == rows@.len(),
        places@.len() == rows@.len(),
    ensures
        r@ == report(left_root@, right_root@, rows_view(rows@), probes@, places_view(places@)),
{
    let mut counts = LocalDirectoryCounts {
        same: 0,
        modified: 0,
        left_only: 0,
        right_only: 0,
        conflicts: 0,
        ignored_submodules: 0,
    };
    let mut entries: Vec<LocalDirectoryDifference> = Vec::new();
    let ghost view = rows_view(rows@);
    let ghost list = outcomes(view, probes@);
    let ghost at = places_view(places@);
    assert(differing(list.take(0)) =~= Seq::empty());
    assert(entries_view(entries@) =~= differences(view, probes@, at, differing(list.take(0))));
    for n in 0..rows.len()
        invariant
            probes@.len() == rows@.len(),
            places@.len() == rows@.len(),
            view == rows_view(rows@),
            at == places_view(places@),
            list == outcomes(view, probes@),
            counts@ == tally(list.take(n as int)),
            entries_view(entries@) == differences(view, probes@, at, differing(list.take(n as int))),
    {
        let row: &PlannedRow = &rows[n];
        let probe: &Probe = &probes[n];
        let result: Outcome = outcome_of(row.kind, probe.identical);
        let ghost so_far = list.take(n as int);
        let ghost next = list.take(n + 1);
        proof {
            assert(next.drop_last() =~= so_far);
            assert(view[n as int] == row@);
            assert(next.last() == result);
            lemma_count_bound(so_far, result);
        }
        match result {
            Outcome::Same => {
                counts.same = counts.same + 1;
            },
            Outcome::Modified => {
                counts.modified = counts.modified + 1;
            },
            Outcome::LeftOnly => {
                counts.left_only = counts.left_only + 1;
            },
            Outcome::RightOnly => {
                counts.right_only = counts.right_only + 1;
            },
            Outcome::Conflict => {
                counts.conflicts = counts.conflicts + 1;
            },
            Outcome::IgnoredSubmodule => {
                counts.ignored_submodules = counts.ignored_submodules + 1;
            },
        }
        if result != Outcome::Same {
            let place: &RowPlaces = &places[n];
            let ghost had = entries@;
            let entry = report_row(row, probe, place.left.clone(), place.right.clone());
            let ghost added = entry@;
            entries.push(entry);
            proof {
                assert(at[n as int] == place@);
                assert(entries_view(entries@) =~= entries_view(had).push(added));
                assert(differing(next) == differing(so_far).push(n as int));
                assert(differences(view, probes@, at, differing(next)) =~= differences(
                    view,
                    probes@,
                    at,
                    differing(so_far),
                ).push(added));
            }
        }
    }
    assert(list.take(list.len() as int) =~= list);
    LocalDirectoryComparison {
        left_root: left_root.to_owned(),
        right_root: right_root.to_owned(),
        entries,
        counts,
    }
}

/// Puts the result of a comparison together: every row is counted, and the rows that differ are
/// reported in order, with the paths of their items.
pub fn compare_local_directories_inner(
    left_root: &str,
    right_root: &str,
    rows: &Vec<PlannedRow>,
    probes: &Vec<Probe>,
) -> (r: LocalDirectoryComparison)
    requires
        probes@.len() == rows@.len(),
    ensures
        exists|places: Seq<Places>| #[trigger]
            are_places(rows_view(rows@), left_root@, right_root@, places) && r@ == report(
                left_root@,
                right_root@,
                rows_view(rows@),
                probes@,
                places,
            ),
{
    let mut places: Vec<RowPlaces> = Vec::new();
    let ghost view = rows_view(rows@);
    for n in 0..rows.len()
        invariant
            view == rows_view(rows@),
            places@.len() == n,
            forall|i: int|
                0 <= i < n ==> is_path_of(left_root@, view[i].left, (#[trigger] places@[i])@.left) && is_path_of(
                    right_root@,
                    view[i].right,
                    places@[i]@.right,
                ),
    {
        let row: &PlannedRow = &rows[n];
        assert(view[n as int] == row@);
        places.push(
            RowPlaces { left: path_below(left_root, &row.left), right: path_below(right_root, &row.right) },
        );
    }
    let r = report_comparison(left_root, right_root, rows, probes, &places);
    assert(are_places(view, left_root@, right_root@, places_view(places@)));
    r
}

/// What is answered for two folders that are to be compared; `protected` says whether one of them belongs
/// to Git.
pub open spec fn roots_answer(same_folder: bool, protected: bool) -> Result<(), Seq<char>> {
    if same_folder {
        Err("Choose two different folders to compare"@)
    } else if protected {
        Err("Git metadata (.git) is protected in Local Drive"@)
    } else {
        Ok(())
    }
}

/// Decides whether two folders may be compared. `same_folder` says whether they are one folder.
pub fn check_comparison_roots(same_folder: bool, left_root: &str, right_root: &str) -> (r: Result<(), String>)
    ensures
        same_folder ==> text::unit_view(r) == roots_answer(true, false),
        !same_folder ==> exists|left: Seq<paths::Part>, right: Seq<paths::Part>|
            #![trigger paths::told_parts(left_root@, left), paths::told_parts(right_root@, right)]
            {
                &&& paths::told_parts(left_root@, left)
                &&& paths::told_parts(right_root@, right)
                &&& text::unit_view(r) == roots_answer(
                    same_folder,
                    paths::mentions_git(left) || paths::mentions_git(right),
                )
            },
        paths::is_portable(left_root@) && paths::is_portable(right_root@) ==> text::unit_view(r) == roots_answer(
            same_folder,
            paths::mentions_git(paths::portable_parts(left_root@)) || paths::mentions_git(
                paths::portable_parts(right_root@),
            ),
        ),
        !paths::holds_git(left_root@) && !paths::holds_git(right_root@) ==> text::unit_view(r) == roots_answer(
            same_folder,
            false,
        ),
{
    if same_folder {
        return Err("Choose two different folders to compare".to_owned());
    }
    let left_protected: bool = paths::contains_git_metadata(left_root);
    let right_protected: bool = paths::contains_git_metadata(right_root);
    if left_protected || right_protected {
        return Err("Git metadata (.git) is protected in Local Drive".to_owned());
    }
    Ok(())
}

// Laws.

proof fn lemma_increasing_split(keys: Seq<Seq<char>>, i: int)
    requires
        text_map::increasing(keys),
        0 <= i < keys.len(),
    ensures
        forall|j: int| 0 <= j < keys.len() && keys[j] == keys[i] ==> j == i,
{
    assert forall|j: int| 0 <= j < keys.len() && keys[j] == keys[i] implies j == i by {
        text::lemma_before_irreflexive(keys[i]);
        if j < i {
            assert(text::before(keys[j], keys[i]));
        } else if i < j {
            assert(text::before(keys[i], keys[j]));
        }
    }
}

proof fn lemma_increasing_is_unique(a: Seq<Seq<char>>, b: Seq<Seq<char>>)
    requires
        text_map::increasing(a),
        text_map::increasing(b),
        forall|key: Seq<char>| #[trigger] a.contains(key) <==> b.contains(key),
    ensures
        a == b,
    decreases a.len(),
{
    if a.len() == 0 {
        if b.len() > 0 {
            assert(b.contains(b[0]));
            assert(a.contains(b[0]));
        }
        assert(a =~= b);
    } else {
        let x = a.last();
        assert(a[a.len() - 1] == x);
        assert(a.contains(x));
        assert(b.contains(x));
        let y = b.last();
        assert(b[b.len() - 1] == y);
        assert(b.contains(y));
        assert(a.contains(y));
        if x != y {
            let i = a.index_of(y);
            assert(a[i] == y);
            assert(text::before(a[i], a[a.len() - 1]));
            let j = b.index_of(x);
            assert(b[j] == x);
            assert(text::before(b[j], b[b.len() - 1]));
            text::lemma_before_transitive(x, y, x);
            text::lemma_before_irreflexive(x);
        }
        let a1 = a.drop_last();
        let b1 = b.drop_last();
        assert(text_map::increasing(a1)) by {
            assert forall|i: int, j: int| 0 <= i < j < a1.len() implies text::before(
                #[trigger] a1[i],
                #[trigger] a1[j],
            ) by {
                assert(a1[i] == a[i] && a1[j] == a[j]);
            }
        }
        assert(text_map::increasing(b1)) by {
            assert forall|i: int, j: int| 0 <= i < j < b1.len() implies text::before(
                #[trigger] b1[i],
                #[trigger] b1[j],
            ) by {
                assert(b1[i] == b[i] && b1[j] == b[j]);
            }
        }
        assert forall|key: Seq<char>| #[trigger] a1.contains(key) <==> b1.contains(key) by {
            lemma_push_contains(a1, x);
            lemma_push_contains(b1, x);
            assert(a =~= a1.push(x));
            assert(b =~= b1.push(x));
            assert(a.contains(key) <==> b.contains(key));
            lemma_increasing_split(a, a.len() - 1);
            lemma_increasing_split(b, b.len() - 1);
            if a1.contains(x) {
                let i = a1.index_of(x);
                assert(a[i] == x);
            }
            if b1.contains(x) {
                let i = b1.index_of(x);
                assert(b[i] == x);
            }
        }
        lemma_increasing_is_unique(a1, b1);
        assert(a =~= a1.push(x));
        assert(b =~= b1.push(y));
    }
}

/// What the two folders hold fixes the rows of their comparison.
pub proof fn law_rows_are_determined(sides: Sides, ignore_submodules: bool, a: Seq<Row>, b: Seq<Row>)
    requires
        is_plan(sides, ignore_submodules, a),
        is_plan(sides, ignore_submodules, b),
    ensures
        a == b,
{
    assert forall|key: Seq<char>| #[trigger] keys_of(a).contains(key) <==> keys_of(b).contains(key) by {
        assert(keys_of(a).contains(key) <==> sides.is_visible(ignore_submodules, key));
    }
    lemma_increasing_is_unique(keys_of(a), keys_of(b));
    assert(a.len() == keys_of(a).len() && b.len() == keys_of(b).len());
    assert forall|i: int| 0 <= i < a.len() implies a[i] == b[i] by {
        assert(keys_of(a)[i] == keys_of(b)[i]);
        assert(a[i] == sides.row(a[i].key));
        assert(b[i] == sides.row(b[i].key));
    }
    assert(a =~= b);
}

/// No row lies below an ignored submodule or below things of the two sides that cannot be matched, so
/// no action inside them is offered.
pub proof fn law_no_row_below_a_boundary(
    sides: Sides,
    ignore_submodules: bool,
    rows: Seq<Row>,
    i: int,
    edge: Seq<char>,
)
    requires
        is_plan(sides, ignore_submodules, rows),
        0 <= i < rows.len(),
        sides.is_boundary(ignore_submodules, edge),
    ensures
        !lies_below(rows[i].key, edge),
{
    assert(keys_of(rows)[i] == rows[i].key);
    assert(keys_of(rows).contains(rows[i].key));
}

proof fn lemma_row_of_scan(sides: Sides, ignore_submodules: bool, windows: bool, rows: Seq<Row>, i: int)
    requires
        is_scan(sides.left, ignore_submodules, windows),
        is_scan(sides.right, ignore_submodules, windows),
        is_plan(sides, ignore_submodules, rows),
        0 <= i < rows.len(),
    ensures
        sides.has(rows[i].key),
        rows[i] == sides.row(rows[i].key),
        rows[i].key == merge::key_of(rows[i].relative(), windows),
        avoids_git(rows[i].relative(), windows),
{
    let key = rows[i].key;
    assert(keys_of(rows)[i] == key);
    assert(keys_of(rows).contains(key));
    assert(sides.is_visible(ignore_submodules, key));
    assert(rows[i] == sides.row(key));
}

/// No reported path leads to or through Git's own folder, and each row stands under the key of its path.
pub proof fn law_no_reported_path_enters_git(
    sides: Sides,
    ignore_submodules: bool,
    windows: bool,
    rows: Seq<Row>,
    left_root: Seq<char>,
    right_root: Seq<char>,
    probes: Seq<Probe>,
    places: Seq<Places>,
    j: int,
)
    requires
        is_scan(sides.left, ignore_submodules, windows),
        is_scan(sides.right, ignore_submodules, windows),
        is_plan(sides, ignore_submodules, rows),
        0 <= j < report(left_root, right_root, rows, probes, places).entries.len(),
    ensures
        ({
            let entry = report(left_root, right_root, rows, probes, places).entries[j];
            let row = rows[differing(outcomes(rows, probes))[j]];
            &&& avoids_git(entry.relative_path, windows)
            &&& row.key == merge::key_of(entry.relative_path, windows)
        }),
{
    let at = differing(outcomes(rows, probes));
    lemma_differing_bound(outcomes(rows, probes));
    assert(at.contains(at[j]));
    lemma_row_of_scan(sides, ignore_submodules, windows, rows, at[j]);
}

/// No reported path lies below one that is reported as an ignored submodule or as a conflict of types, so no
/// action inside them is offered. A link that stands on one side alone is a conflict too: nothing lies below it
/// where the folders around each item were found.
pub proof fn law_no_reported_path_below_a_boundary(
    sides: Sides,
    ignore_submodules: bool,
    windows: bool,
    rows: Seq<Row>,
    left_root: Seq<char>,
    right_root: Seq<char>,
    probes: Seq<Probe>,
    places: Seq<Places>,
    j: int,
    k: int,
)
    requires
        is_scan(sides.left, ignore_submodules, windows),
        is_scan(sides.right, ignore_submodules, windows),
        is_plan(sides, ignore_submodules, rows),
        ({
            let entries = report(left_root, right_root, rows, probes, places).entries;
            let row = rows[differing(outcomes(rows, probes))[j]];
            &&& 0 <= j < entries.len()
            &&& 0 <= k < entries.len()
            &&& entries[j].status == "ignored-submodule"@ || (entries[j].status == "type-conflict"@ && ((
            row.left is Some && row.right is Some) || (is_tree(sides.left) && is_tree(sides.right))))
        }),
    ensures
        ({
            let entries = report(left_root, right_root, rows, probes, places).entries;
            !lies_below(
                merge::key_of(entries[k].relative_path, windows),
                merge::key_of(entries[j].relative_path, windows),
            )
        }),
{
    let list = outcomes(rows, probes);
    let at = differing(list);
    lemma_differing_bound(list);
    assert(at.contains(at[j]));
    assert(at.contains(at[k]));
    lemma_row_of_scan(sides, ignore_submodules, windows, rows, at[j]);
    lemma_row_of_scan(sides, ignore_submodules, windows, rows, at[k]);
    let edge = rows[at[j]].key;
    let key = rows[at[k]].key;
    lemma_boundary_status(rows[at[j]].kind, probes[at[j]].identical);
    assert(sides.kind(edge) == RowKind::Submodule || sides.kind(edge) == RowKind::Conflict);
    if sides.is_boundary(ignore_submodules, edge) {
        law_no_row_below_a_boundary(sides, ignore_submodules, rows, at[k], edge);
    } else if lies_below(key, edge) {
        assert(key.take(edge.len() as int) == edge);
        assert(sides.has(key));
        if sides.left.dom().contains(key) {
            assert(sides.left.dom().contains(key.take(edge.len() as int)));
            assert(kind_at(sides.left, edge) == Some(ItemKind::Directory));
        } else {
            assert(sides.right.dom().contains(key.take(edge.len() as int)));
            assert(kind_at(sides.right, edge) == Some(ItemKind::Directory));
        }
    }
}

proof fn lemma_boundary_status(kind: RowKind, identical: bool)
    ensures
        status_word(kind, identical) == "ignored-submodule"@ ==> kind == RowKind::Submodule,
        status_word(kind, identical) == "type-conflict"@ ==> kind == RowKind::Conflict,
{
    reveal_strlit("left-only");
    reveal_strlit("right-only");
    reveal_strlit("same");
    reveal_strlit("modified");
    reveal_strlit("unsupported");
    reveal_strlit("type-conflict");
    reveal_strlit("ignored-submodule");
    assert("left-only"@.len() == 9 && "right-only"@.len() == 10 && "same"@.len() == 4);
    assert("modified"@.len() == 8 && "unsupported"@.len() == 11 && "type-conflict"@.len() == 13);
    assert("ignored-submodule"@.len() == 17);
}

/// Every item of either folder has exactly one row, unless it lies below a boundary.
pub proof fn law_every_visible_item_has_one_row(
    sides: Sides,
    ignore_submodules: bool,
    rows: Seq<Row>,
    key: Seq<char>,
) -> (i: int)
    requires
        is_plan(sides, ignore_submodules, rows),
        sides.is_visible(ignore_submodules, key),
    ensures
        0 <= i < rows.len(),
        rows[i] == sides.row(key),
        forall|j: int| 0 <= j < rows.len() && (#[trigger] rows[j]).key == key ==> j == i,
{
    assert(keys_of(rows).contains(key));
    let i = keys_of(rows).index_of(key);
    assert(keys_of(rows)[i] == key);
    assert(rows[i].key == key);
    lemma_increasing_split(keys_of(rows), i);
    assert forall|j: int| 0 <= j < rows.len() && (#[trigger] rows[j]).key == key implies j == i by {
        assert(keys_of(rows)[j] == key);
    }
    i
}

/// Every row is counted once, and the rows that are not the same on both sides are the ones reported.
pub proof fn law_counts_add_up(list: Seq<Outcome>)
    ensures
        count_of(list, Outcome::Same) + count_of(list, Outcome::Modified) + count_of(list, Outcome::LeftOnly)
            + count_of(list, Outcome::RightOnly) + count_of(list, Outcome::Conflict) + count_of(
            list,
            Outcome::IgnoredSubmodule,
        ) == list.len(),
        differing(list).len() + count_of(list, Outcome::Same) == list.len(),
    decreases list.len(),
{
    if list.len() > 0 {
        law_counts_add_up(list.drop_last());
    }
}

/// A reported row is never the same on both sides, and every row that differs is reported.
pub proof fn law_exactly_the_differences_are_reported(list: Seq<Outcome>, i: int)
    requires
        0 <= i < list.len(),
    ensures
        differing(list).contains(i) <==> list[i] != Outcome::Same,
    decreases list.len(),
{
    let front = list.drop_last();
    lemma_differing_bound(front);
    if i < list.len() - 1 {
        law_exactly_the_differences_are_reported(front, i);
        lemma_push_contains(differing(front), list.len() - 1);
    } else {
        lemma_push_contains(differing(front), list.len() - 1);
    }
}

proof fn lemma_differing_bound(list: Seq<Outcome>)
    ensures
        forall|i: int| #[trigger] differing(list).contains(i) ==> 0 <= i < list.len(),
    decreases list.len(),
{
    if list.len() > 0 {
        lemma_differing_bound(list.drop_last());
        lemma_push_contains(differing(list.drop_last()), list.len() - 1);
    }
}

/// What stands at a key, seen from the other side.
pub open spec fn mirrored_kind(kind: RowKind) -> RowKind {
    match kind {
        RowKind::FilePair { left_bytes, right_bytes } => RowKind::FilePair {
            left_bytes: right_bytes,
            right_bytes: left_bytes,
        },
        RowKind::LeftFile { bytes } => RowKind::RightFile { bytes },
        RowKind::RightFile { bytes } => RowKind::LeftFile { bytes },
        RowKind::LeftFolder => RowKind::RightFolder,
        RowKind::RightFolder => RowKind::LeftFolder,
        _ => kind,
    }
}

/// A row, seen from the other side.
pub open spec fn mirrored(row: Row) -> Row {
    Row { key: row.key, left: row.right, right: row.left, kind: mirrored_kind(row.kind) }
}

/// What a row counts as, seen from the other side.
pub open spec fn mirrored_outcome(result: Outcome) -> Outcome {
    match result {
        Outcome::LeftOnly => Outcome::RightOnly,
        Outcome::RightOnly => Outcome::LeftOnly,
        _ => result,
    }
}

proof fn lemma_plan_of_swapped(sides: Sides, ignore_submodules: bool, rows: Seq<Row>)
    requires
        is_plan(sides, ignore_submodules, rows),
    ensures
        is_plan(sides.swapped(), ignore_submodules, rows.map_values(|row: Row| mirrored(row))),
{
    let other = sides.swapped();
    let turned = rows.map_values(|row: Row| mirrored(row));
    assert forall|key: Seq<char>| #[trigger] other.is_boundary(ignore_submodules, key) == sides.is_boundary(
        ignore_submodules,
        key,
    ) by {}
    assert forall|key: Seq<char>| #[trigger] other.is_visible(ignore_submodules, key) == sides.is_visible(
        ignore_submodules,
        key,
    ) by {
        if sides.is_hidden(ignore_submodules, key) {
            let edge = choose|edge: Seq<char>| #[trigger]
                sides.is_boundary(ignore_submodules, edge) && lies_below(key, edge);
            assert(other.is_boundary(ignore_submodules, edge));
        }
        if other.is_hidden(ignore_submodules, key) {
            let edge = choose|edge: Seq<char>| #[trigger]
                other.is_boundary(ignore_submodules, edge) && lies_below(key, edge);
            assert(sides.is_boundary(ignore_submodules, edge));
        }
    }
    assert(keys_of(turned) =~= keys_of(rows));
    assert forall|key: Seq<char>| #[trigger] keys_of(turned).contains(key) <==> other.is_visible(
        ignore_submodules,
        key,
    ) by {
        assert(keys_of(rows).contains(key) <==> sides.is_visible(ignore_submodules, key));
    }
    assert forall|i: int| 0 <= i < turned.len() implies #[trigger] turned[i] == other.row(turned[i].key) by {
        assert(rows[i] == sides.row(rows[i].key));
    }
}

/// Whether the files of a row were read alike from both sides: it is the same whether they agree, their
/// fingerprints are exchanged, and what can be reviewed can be reviewed.
pub open spec fn read_alike(kind: RowKind, probe: Probe, other: Probe) -> bool {
    match kind {
        RowKind::FilePair { .. } => {
            &&& other.identical == probe.identical
            &&& other.left_fingerprint@ == probe.right_fingerprint@
            &&& other.right_fingerprint@ == probe.left_fingerprint@
            &&& (other.left_reviewable && other.right_reviewable) == (probe.left_reviewable
                && probe.right_reviewable)
        },
        RowKind::LeftFile { .. } => other.right_reviewable == probe.left_reviewable,
        RowKind::RightFile { .. } => other.left_reviewable == probe.right_reviewable,
        _ => true,
    }
}

/// The status of a row, seen from the other side.
pub open spec fn mirrored_status(status: Seq<char>) -> Seq<char> {
    if status == "left-only"@ {
        "right-only"@
    } else if status == "right-only"@ {
        "left-only"@
    } else {
        status
    }
}

/// A reported row, seen from the other side, where it is shown under `relative_path`.
pub open spec fn mirrored_difference(entry: Difference, relative_path: Seq<char>) -> Difference {
    Difference {
        relative_path,
        left_path: entry.right_path,
        right_path: entry.left_path,
        item_kind: entry.item_kind,
        status: mirrored_status(entry.status),
        left_bytes: entry.right_bytes,
        right_bytes: entry.left_bytes,
        reviewable: entry.reviewable,
        left_fingerprint: entry.right_fingerprint,
        right_fingerprint: entry.left_fingerprint,
    }
}

/// How many rows there are of each kind, seen from the other side.
pub open spec fn mirrored_tally(counts: Tally) -> Tally {
    Tally { left_only: counts.right_only, right_only: counts.left_only, ..counts }
}

proof fn lemma_mirrored_outcomes(list: Seq<Outcome>, other: Seq<Outcome>)
    requires
        other.len() == list.len(),
        forall|i: int| 0 <= i < list.len() ==> #[trigger] other[i] == mirrored_outcome(list[i]),
    ensures
        differing(other) == differing(list),
        tally(other) == mirrored_tally(tally(list)),
    decreases list.len(),
{
    if list.len() > 0 {
        let front = list.drop_last();
        let turned = other.drop_last();
        assert forall|i: int| 0 <= i < front.len() implies #[trigger] turned[i] == mirrored_outcome(front[i]) by {
            assert(other[i] == mirrored_outcome(list[i]));
        }
        lemma_mirrored_outcomes(front, turned);
        assert(other[list.len() - 1] == mirrored_outcome(list[list.len() - 1]));
    }
}

/// Comparing the folders the other way round, while nothing changes, gives the same report with left and right
/// exchanged: the roots, the counts, and of each reported row the status, the paths, the sizes and the
/// fingerprints. The rows come in the same order, their kinds and what can be reviewed are the same, and each is
/// shown under the same path wherever the two sides spell it alike.
pub proof fn law_comparison_is_symmetric(
    sides: Sides,
    ignore_submodules: bool,
    rows: Seq<Row>,
    other_rows: Seq<Row>,
    left_root: Seq<char>,
    right_root: Seq<char>,
    probes: Seq<Probe>,
    other_probes: Seq<Probe>,
    places: Seq<Places>,
    other_places: Seq<Places>,
)
    requires
        is_plan(sides, ignore_submodules, rows),
        is_plan(sides.swapped(), ignore_submodules, other_rows),
        probes.len() == rows.len(),
        other_probes.len() == rows.len(),
        forall|i: int| 0 <= i < rows.len() ==> read_alike(rows[i].kind, #[trigger] probes[i], other_probes[i]),
        places.len() == rows.len(),
        other_places.len() == rows.len(),
        forall|i: int|
            0 <= i < rows.len() ==> (#[trigger] other_places[i]).left == places[i].right && other_places[i].right
                == places[i].left,
    ensures
        other_rows == rows.map_values(|row: Row| mirrored(row)),
        ({
            let there = report(left_root, right_root, rows, probes, places);
            let back = report(right_root, left_root, other_rows, other_probes, other_places);
            let at = differing(outcomes(rows, probes));
            &&& back.left_root == there.right_root
            &&& back.right_root == there.left_root
            &&& back.counts == mirrored_tally(there.counts)
            &&& back.entries.len() == there.entries.len()
            &&& forall|j: int|
                0 <= j < there.entries.len() ==> #[trigger] back.entries[j] == mirrored_difference(
                    there.entries[j],
                    other_rows[at[j]].relative(),
                )
            &&& forall|j: int|
                0 <= j < there.entries.len() && (rows[at[j]].left is None || rows[at[j]].right is None
                    || rows[at[j]].left == rows[at[j]].right) ==> (#[trigger] back.entries[j]).relative_path
                    == there.entries[j].relative_path
        }),
{
    let turned = rows.map_values(|row: Row| mirrored(row));
    lemma_plan_of_swapped(sides, ignore_submodules, rows);
    law_rows_are_determined(sides.swapped(), ignore_submodules, other_rows, turned);
    let list = outcomes(rows, probes);
    let other_list = outcomes(other_rows, other_probes);
    assert forall|i: int| 0 <= i < list.len() implies #[trigger] other_list[i] == mirrored_outcome(list[i]) by {
        assert(other_rows[i] == mirrored(rows[i]));
        assert(read_alike(rows[i].kind, probes[i], other_probes[i]));
    }
    lemma_mirrored_outcomes(list, other_list);
    lemma_differing_bound(list);
    let at = differing(list);
    let there = report(left_root, right_root, rows, probes, places);
    let back = report(right_root, left_root, other_rows, other_probes, other_places);
    assert forall|j: int| 0 <= j < there.entries.len() implies #[trigger] back.entries[j] == mirrored_difference(
        there.entries[j],
        other_rows[at[j]].relative(),
    ) by {
        let i = at[j];
        assert(at.contains(at[j]));
        assert(other_rows[i] == mirrored(rows[i]));
        assert(read_alike(rows[i].kind, probes[i], other_probes[i]));
        assert(other_places[i].left == places[i].right);
        lemma_mirrored_status(rows[i].kind, probes[i].identical, other_probes[i].identical);
    }
    assert forall|j: int|
        0 <= j < there.entries.len() && (rows[at[j]].left is None || rows[at[j]].right is None || rows[at[j]].left
            == rows[at[j]].right) implies (#[trigger] back.entries[j]).relative_path
        == there.entries[j].relative_path by {
        assert(at.contains(at[j]));
        assert(other_rows[at[j]] == mirrored(rows[at[j]]));
    }
}

proof fn lemma_mirrored_status(kind: RowKind, identical: bool, other_identical: bool)
    requires
        kind is FilePair ==> other_identical == identical,
    ensures
        status_word(mirrored_kind(kind), other_identical) == mirrored_status(status_word(kind, identical)),
{
    reveal_strlit("left-only");
    reveal_strlit("right-only");
    reveal_strlit("same");
    reveal_strlit("modified");
    reveal_strlit("unsupported");
    reveal_strlit("type-conflict");
    reveal_strlit("ignored-submodule");
    assert("left-only"@.len() == 9 && "right-only"@.len() == 10 && "same"@.len() == 4);
    assert("modified"@.len() == 8 && "unsupported"@.len() == 11 && "type-conflict"@.len() == 13);
    assert("ignored-submodule"@.len() == 17);
}

/// A folder compared with a copy of itself has nothing on one side only and nothing in conflict but
/// links, so only submodules, links and files that read differently are reported.
pub proof fn law_copies_match(sides: Sides, key: Seq<char>, identical: bool)
    requires
        sides.left == sides.right,
        sides.has(key),
    ensures
        !(outcome(sides.kind(key), identical) is LeftOnly),
        !(outcome(sides.kind(key), identical) is RightOnly),
        outcome(sides.kind(key), identical) is Conflict <==> sides.left[key].1 == ItemKind::Symlink,
        outcome(sides.kind(key), identical) is IgnoredSubmodule <==> sides.left[key].1 == ItemKind::Submodule,
        outcome(sides.kind(key), identical) is Modified <==> sides.left[key].1 is File && !identical,
{
}

/// The kind of the item that a scan has found at `key`.
pub open spec fn found_kind(items: Map<Seq<char>, FoundItem>, key: Seq<char>) -> Option<ItemKind> {
    if items.dom().contains(key) {
        Some(items[key].kind)
    } else {
        None
    }
}

/// Whether an entry says of what stands on the two sides what is so.
pub open spec fn tells_truly(entry: Difference, left: Option<ItemKind>, right: Option<ItemKind>, probe: Probe) -> bool {
    let submodule = left == Some(ItemKind::Submodule) || right == Some(ItemKind::Submodule);
    let files = (left is None || left->0 is File) && (right is None || right->0 is File);
    let folders = (left is None || left->0 is Directory) && (right is None || right->0 is Directory);
    let links = left == Some(ItemKind::Symlink) && right == Some(ItemKind::Symlink);
    let both = left is Some && right is Some;
    &&& entry.item_kind == "file"@ <==> files
    &&& entry.item_kind == "folder"@ <==> folders
    &&& entry.item_kind == "submodule"@ <==> submodule
    &&& entry.item_kind == "symlink"@ <==> links
    &&& entry.item_kind == "conflict"@ <==> !files && !folders && !submodule && !links
    &&& entry.status == "left-only"@ <==> right is None && (files || folders)
    &&& entry.status == "right-only"@ <==> left is None && (files || folders)
    &&& entry.status == "modified"@ <==> both && files && !probe.identical
    &&& entry.status == "same"@ <==> both && (folders || files && probe.identical)
    &&& entry.status == "ignored-submodule"@ <==> submodule
    &&& entry.status == "unsupported"@ <==> links
    &&& entry.status == "type-conflict"@ <==> !files && !folders && !submodule && !links
    &&& entry.left_bytes == if files && left is Some {
        left->0->bytes
    } else {
        0
    }
    &&& entry.right_bytes == if files && right is Some {
        right->0->bytes
    } else {
        0
    }
    &&& entry.reviewable <==> files && (left is Some ==> probe.left_reviewable) && (right is Some
        ==> probe.right_reviewable) && !(both && probe.identical)
    &&& entry.left_fingerprint == if both && files && !probe.identical {
        Some(probe.left_fingerprint@)
    } else {
        None
    }
    &&& entry.right_fingerprint == if both && files && !probe.identical {
        Some(probe.right_fingerprint@)
    } else {
        None
    }
}

proof fn lemma_report_words_differ()
    ensures
        "file"@.len() == 4,
        "folder"@.len() == 6,
        "symlink"@.len() == 7,
        "conflict"@.len() == 8,
        "submodule"@.len() == 9,
        "same"@.len() == 4,
        "modified"@.len() == 8,
        "left-only"@.len() == 9,
        "right-only"@.len() == 10,
        "unsupported"@.len() == 11,
        "type-conflict"@.len() == 13,
        "ignored-submodule"@.len() == 17,
{
    reveal_strlit("file");
    reveal_strlit("folder");
    reveal_strlit("symlink");
    reveal_strlit("conflict");
    reveal_strlit("submodule");
    reveal_strlit("same");
    reveal_strlit("modified");
    reveal_strlit("left-only");
    reveal_strlit("right-only");
    reveal_strlit("unsupported");
    reveal_strlit("type-conflict");
    reveal_strlit("ignored-submodule");
}

proof fn lemma_difference_tells_truly(
    row: Row,
    left: Option<ItemKind>,
    right: Option<ItemKind>,
    probe: Probe,
    left_path: Option<Seq<char>>,
    right_path: Option<Seq<char>>,
)
    requires
        row.kind == row_kind(left, right),
        left is Some || right is Some,
    ensures
        tells_truly(difference(row, probe, left_path, right_path), left, right, probe),
{
    lemma_report_words_differ();
}

/// A reported row is a file exactly when each side that has an item has a regular file there, and a folder exactly when
/// each such side has a directory; every other word, count and fingerprint follows from the scanned items as well.
pub proof fn law_a_row_is_called_what_it_is(
    row: &PlannedRow,
    probe: &Probe,
    left: Option<ItemKind>,
    right: Option<ItemKind>,
    left_path: Option<String>,
    right_path: Option<String>,
    r: LocalDirectoryDifference,
)
    requires
        left is Some || right is Some,
        row.kind == row_kind(left, right),
        call_ensures(report_row, (row, probe, left_path, right_path), r),
    ensures
        r.item_kind@ == "file"@ <==> (left is Some ==> left->0 is File) && (right is Some ==> right->0 is File),
        r.item_kind@ == "folder"@ <==> (left is Some ==> left->0 is Directory) && (right is Some
            ==> right->0 is Directory),
        tells_truly(r@, left, right, *probe),
        r.relative_path@ == match (row.left, row.right) {
            (Some(path), _) => path@,
            (None, Some(path)) => path@,
            (None, None) => Seq::empty(),
        },
        text::opt_view(r.left_path) == text::opt_view(left_path),
        text::opt_view(r.right_path) == text::opt_view(right_path),
{
    lemma_difference_tells_truly(row@, left, right, *probe, text::opt_view(left_path), text::opt_view(right_path));
}

/// Every entry of a comparison says truly what the two scans found at one key, and shows the path that the scan found
/// on the left, or else the one on the right.
pub proof fn law_a_comparison_tells_truly(
    left: &TextMap<FoundItem>,
    right: &TextMap<FoundItem>,
    ignore_submodules: bool,
    rows: &Vec<PlannedRow>,
    left_root: &str,
    right_root: &str,
    probes: &Vec<Probe>,
    r: LocalDirectoryComparison,
    j: int,
) -> (i: int)
    requires
        call_ensures(plan_comparison, (left, right, ignore_submodules), *rows),
        probes@.len() == rows@.len(),
        call_ensures(compare_local_directories_inner, (left_root, right_root, rows, probes), r),
        0 <= j < r.entries@.len(),
    ensures
        0 <= i < rows@.len(),
        tells_truly(
            r.entries@[j]@,
            found_kind(left@, rows@[i].key@),
            found_kind(right@, rows@[i].key@),
            probes@[i],
        ),
        left@.dom().contains(rows@[i].key@) ==> r.entries@[j].relative_path@ == left@[rows@[i].key@].relative@,
        !left@.dom().contains(rows@[i].key@) ==> right@.dom().contains(rows@[i].key@) && r.entries@[j].relative_path@
            == right@[rows@[i].key@].relative@,
        r.entries@[j].status@ != "same"@,
        r.left_root@ == left_root@,
        r.right_root@ == right_root@,
        r.entries@[j].left_path is Some <==> left@.dom().contains(rows@[i].key@),
        r.entries@[j].left_path matches Some(path) ==> paths::told_joined(
            left_root@,
            left@[rows@[i].key@].relative@,
            path@,
        ),
        r.entries@[j].right_path is Some <==> right@.dom().contains(rows@[i].key@),
        r.entries@[j].right_path matches Some(path) ==> paths::told_joined(
            right_root@,
            right@[rows@[i].key@].relative@,
            path@,
        ),
{
    let view = rows_view(rows@);
    let places = choose|places: Seq<Places>| #[trigger]
        are_places(view, left_root@, right_root@, places) && r@ == report(left_root@, right_root@, view, probes@, places);
    let list = outcomes(view, probes@);
    let at = differing(list);
    let i = at[j];
    assert(entries_view(r.entries@) == differences(view, probes@, places, at));
    assert(r.entries@.len() == entries_view(r.entries@).len());
    assert(at.contains(i));
    lemma_differing_bound(list);
    assert(r.entries@[j]@ == entries_view(r.entries@)[j]);
    let sides = sides_of(*left, *right);
    assert(view[i] == sides.row(view[i].key));
    assert(rows@[i]@ == view[i]);
    let key = rows@[i].key@;
    assert(keys_of(view)[i] == key);
    assert(keys_of(view).contains(key));
    assert(sides.has(key));
    assert(kind_at(sides.left, key) == found_kind(left@, key));
    assert(kind_at(sides.right, key) == found_kind(right@, key));
    lemma_difference_tells_truly(
        view[i],
        found_kind(left@, key),
        found_kind(right@, key),
        probes@[i],
        places[i].left,
        places[i].right,
    );
    law_exactly_the_differences_are_reported(list, i);
    lemma_differing_differs(list, j);
    lemma_report_words_differ();
    assert(is_path_of(left_root@, view[i].left, places[i].left));
    assert(is_path_of(right_root@, view[i].right, places[i].right));
    assert(text::opt_view(r.entries@[j].left_path) == places[i].left);
    assert(text::opt_view(r.entries@[j].right_path) == places[i].right);
    i
}

proof fn lemma_differing_differs(list: Seq<Outcome>, j: int)
    requires
        0 <= j < differing(list).len(),
    ensures
        0 <= differing(list)[j] < list.len(),
        list[differing(list)[j]] != Outcome::Same,
    decreases list.len(),
{
    if list.len() > 0 {
        if j < differing(list.drop_last()).len() {
            lemma_differing_differs(list.drop_last(), j);
        }
    }
}

/// One more row adds one to exactly one count, the one that its two sides call for, and one entry unless the two sides
/// are the same. Without rows every count is zero.
pub proof fn law_each_row_is_counted_once(
    left_root: &str,
    right_root: &str,
    rows: &Vec<PlannedRow>,
    probes: &Vec<Probe>,
    places: &Vec<RowPlaces>,
    more_rows: &Vec<PlannedRow>,
    more_probes: &Vec<Probe>,
    more_places: &Vec<RowPlaces>,
    left: Option<ItemKind>,
    right: Option<ItemKind>,
    r: LocalDirectoryComparison,
    s: LocalDirectoryComparison,
)
    requires
        probes@.len() == rows@.len(),
        places@.len() == rows@.len(),
        more_rows@.len() == rows@.len() + 1,
        more_probes@.len() == rows@.len() + 1,
        more_places@.len() == rows@.len() + 1,
        more_rows@.drop_last() == rows@,
        more_probes@.drop_last() == probes@,
        more_places@.drop_last() == places@,
        left is Some || right is Some,
        more_rows@.last().kind == row_kind(left, right),
        call_ensures(report_comparison, (left_root, right_root, rows, probes, places), r),
        call_ensures(report_comparison, (left_root, right_root, more_rows, more_probes, more_places), s),
    ensures
        ({
            let submodule = left == Some(ItemKind::Submodule) || right == Some(ItemKind::Submodule);
            let files = (left is None || left->0 is File) && (right is None || right->0 is File);
            let folders = (left is None || left->0 is Directory) && (right is None || right->0 is Directory);
            let both = left is Some && right is Some;
            let same = both && (folders || files && more_probes@.last().identical);
            &&& s.counts.same == r.counts.same + if same {
                1int
            } else {
                0
            }
            &&& s.counts.modified == r.counts.modified + if both && files && !more_probes@.last().identical {
                1int
            } else {
                0
            }
            &&& s.counts.left_only == r.counts.left_only + if right is None && (files || folders) {
                1int
            } else {
                0
            }
            &&& s.counts.right_only == r.counts.right_only + if left is None && (files || folders) {
                1int
            } else {
                0
            }
            &&& s.counts.ignored_submodules == r.counts.ignored_submodules + if submodule {
                1int
            } else {
                0
            }
            &&& s.counts.conflicts == r.counts.conflicts + if !submodule && !files && !folders {
                1int
            } else {
                0
            }
            &&& s.entries@.len() == r.entries@.len() + if same {
                0int
            } else {
                1
            }
        }),
        s.left_root@ == left_root@,
        s.right_root@ == right_root@,
        forall|j: int| 0 <= j < r.entries@.len() ==> (#[trigger] s.entries@[j])@ == r.entries@[j]@,
        rows@.len() == 0 ==> r.entries@.len() == 0 && r.counts.same == 0 && r.counts.modified == 0 && r.counts.left_only
            == 0 && r.counts.right_only == 0 && r.counts.conflicts == 0 && r.counts.ignored_submodules == 0,
{
    let view = rows_view(rows@);
    let more = rows_view(more_rows@);
    let list = outcomes(view, probes@);
    let longer = outcomes(more, more_probes@);
    assert(longer.drop_last() =~= list);
    assert(longer.last() == outcome(more_rows@.last().kind, more_probes@.last().identical));
    assert(entries_view(s.entries@) == differences(more, more_probes@, places_view(more_places@), differing(longer)));
    assert(entries_view(r.entries@) == differences(view, probes@, places_view(places@), differing(list)));
    assert(s.entries@.len() == entries_view(s.entries@).len());
    assert(r.entries@.len() == entries_view(r.entries@).len());
    assert(r@.counts == tally(list));
    assert(s@.counts == tally(longer));
    lemma_differing_bound(list);
    assert forall|j: int| 0 <= j < r.entries@.len() implies (#[trigger] s.entries@[j])@ == r.entries@[j]@ by {
        assert(s.entries@[j]@ == entries_view(s.entries@)[j]);
        assert(r.entries@[j]@ == entries_view(r.entries@)[j]);
        let i = differing(list)[j];
        assert(differing(list).contains(i));
        assert(differing(longer)[j] == i);
        assert(more_rows@.drop_last()[i] == rows@[i]);
        assert(more_probes@.drop_last()[i] == probes@[i]);
        assert(more_places@.drop_last()[i] == places@[i]);
    }
}

// What a scan makes of an item.

/// A scan takes an item in under the key of its path, as what the file system says it is: a folder of a submodule is one
/// item while submodules are ignored, and any other folder is entered. Git's own folder and what is neither link, folder
/// nor file are passed over, and nothing that was found before changes.
pub proof fn law_a_scan_takes_items_as_what_they_are(
    output: &mut TextMap<FoundItem>,
    folder: &str,
    name: &str,
    relative: &str,
    entry: EntryType,
    git_boundary: bool,
    ignore_submodules: bool,
    configured: &TextMap<()>,
    windows: bool,
    key: String,
    r: Result<Collected, String>,
    other: Seq<char>,
)
    requires
        relative@ == if folder@.len() == 0 {
            name@
        } else if windows {
            folder@ + seq!['\\'] + name@
        } else {
            folder@ + seq!['/'] + name@
        },
        call_ensures(merge::comparison_key, (relative, windows), key),
        call_ensures(
            collect_item,
            (output, folder, name, entry, git_boundary, ignore_submodules, configured, windows),
            r,
        ),
    ensures
        ({
            let git = name@.len() == 4 && name@[0] == '.' && (name@[1] == 'g' || name@[1] == 'G') && (name@[2] == 'i'
                || name@[2] == 'I') && (name@[3] == 't' || name@[3] == 'T');
            let bad = name@.len() == 0 || name@.contains('/') || windows && name@.contains('\\');
            let submodule = ignore_submodules && (git_boundary || configured@.dom().contains(key@));
            let had = old(output)@;
            let has = final(output)@;
            &&& git ==> r == Ok::<Collected, String>(Collected::Skipped)
            &&& !git && bad ==> (r matches Err(e) && e@ == "A folder item escaped its selected root"@)
            &&& !git && !bad ==> r is Ok
            &&& !git && !bad ==> (r->Ok_0 == Collected::Descend <==> entry == EntryType::Directory && !submodule)
            &&& !git && !bad ==> (r->Ok_0 == Collected::Noted <==> !(entry == EntryType::Directory && !submodule))
            &&& git || bad || entry == EntryType::Other ==> (has.dom().contains(other) <==> had.dom().contains(other))
            &&& git || bad || entry == EntryType::Other ==> (had.dom().contains(other) ==> item_view(has[other])
                == item_view(had[other]))
            &&& !git && !bad && entry != EntryType::Other ==> {
                &&& has.dom().contains(key@)
                &&& has[key@].relative@ == relative@
                &&& entry matches EntryType::File { bytes } ==> has[key@].kind == (ItemKind::File { bytes })
                &&& entry == EntryType::Symlink ==> has[key@].kind == ItemKind::Symlink
                &&& entry == EntryType::Directory && submodule ==> has[key@].kind == ItemKind::Submodule
                &&& entry == EntryType::Directory && !submodule ==> has[key@].kind == ItemKind::Directory
                &&& other != key@ ==> (has.dom().contains(other) <==> had.dom().contains(other))
                &&& other != key@ && had.dom().contains(other) ==> item_view(has[other]) == item_view(had[other])
            }
        }),
{
    paths::law_the_git_folder_is_known_in_any_case(name@);
    let had = items_view(old(output)@);
    let has = items_view(final(output)@);
    assert(relative@ =~= child_path(folder@, name@, windows));
    assert(old(output)@.dom().contains(other) == had.dom().contains(other));
    assert(final(output)@.dom().contains(other) == has.dom().contains(other));
    assert(final(output)@.dom().contains(key@) == has.dom().contains(key@));
    if had.dom().contains(other) {
        assert(had[other] == item_view(old(output)@[other]));
    }
    if has.dom().contains(other) {
        assert(has[other] == item_view(final(output)@[other]));
    }
    if has.dom().contains(key@) {
        assert(has[key@] == item_view(final(output)@[key@]));
    }
}

/// A scan stops exactly when it has found more than fifty thousand items.
pub proof fn law_a_scan_stops_after_fifty_thousand_items(output: &TextMap<FoundItem>, r: Result<(), String>)
    requires
        call_ensures(check_item_limit, (output,), r),
    ensures
        r is Err <==> output@.dom().len() > 50 * 1000,
        r matches Err(e) ==> e@
            == "Folder comparison stopped safely after 50000 items. Narrow the two folders and compare again."@,
{
}

/// Two fingerprints are the same exactly when the digests and the sizes are: the digest stands before the colon, in
/// hexadecimal, and the size behind it, in decimal.
pub proof fn law_fingerprints_tell_digest_and_size(
    digest: u64,
    bytes: u64,
    other_digest: u64,
    other_bytes: u64,
    r: String,
    s: String,
)
    requires
        call_ensures(fingerprint_text, (digest, bytes), r),
        call_ensures(fingerprint_text, (other_digest, other_bytes), s),
    ensures
        r@.len() > 17,
        numerals::value_of(r@.take(16), 16) == digest,
        r@[16] == ':',
        numerals::value_of(r@.skip(17), 10) == bytes,
        r@ == s@ <==> digest == other_digest && bytes == other_bytes,
{
    reveal_strlit(":");
    lemma_fingerprint_parts(digest, bytes);
    lemma_fingerprint_parts(other_digest, other_bytes);
}

proof fn lemma_fingerprint_parts(digest: u64, bytes: u64)
    ensures
        fingerprint(digest, bytes).len() > 17,
        numerals::value_of(fingerprint(digest, bytes).take(16), 16) == digest,
        fingerprint(digest, bytes)[16] == ':',
        numerals::value_of(fingerprint(digest, bytes).skip(17), 10) == bytes,
{
    reveal_strlit(":");
    numerals::lemma_hex_value(digest as nat, 16);
    numerals::lemma_decimal_value(bytes as nat);
    assert(vstd::arithmetic::power::pow(16, 16) == 0x1_0000_0000_0000_0000) by {
        reveal_with_fuel(vstd::arithmetic::power::pow, 17);
    }
    let f = fingerprint(digest, bytes);
    assert(f.take(16) =~= numerals::hex(digest as nat, 16));
    assert(f.skip(17) =~= numerals::decimal(bytes as nat));
}

/// Two files that are read in step are the same exactly when they were so far and what was read of both in the next step
/// is the same; reading ends once both have ended.
pub proof fn law_files_are_compared_step_by_step(
    before: FilePairReader,
    reader: &mut FilePairReader,
    left_chunk: &[u8],
    right_chunk: &[u8],
    ended: bool,
    left_bytes: u64,
    right_bytes: u64,
    so_far: (bool, String, String),
    now: (bool, String, String),
)
    requires
        before == *old(reader),
        before.wf(),
        call_ensures(FilePairReader::finish, (&before, left_bytes, right_bytes), so_far),
        call_ensures(FilePairReader::read, (reader, left_chunk, right_chunk), ended),
        call_ensures(FilePairReader::finish, (&*final(reader), left_bytes, right_bytes), now),
    ensures
        now.0 <==> so_far.0 && left_chunk@ == right_chunk@,
        ended <==> left_chunk@.len() == 0 && right_chunk@.len() == 0,
{
    let l = before.left();
    let r = before.right();
    if l.push(left_chunk@) == r.push(right_chunk@) {
        assert(l.push(left_chunk@).last() == r.push(right_chunk@).last());
        assert(l.push(left_chunk@).drop_last() =~= l);
        assert(r.push(right_chunk@).drop_last() =~= r);
    }
}

/// A file is offered for review exactly when it has at most two mebibytes and can be opened as text.
pub proof fn law_small_texts_are_offered_for_review(
    bytes: u64,
    content: Vec<u8>,
    decoded: Result<(String, &'static str), String>,
    r: bool,
    unread: bool,
)
    requires
        call_ensures(encoding::decode_local_text, (content,), decoded),
        call_ensures(probably_reviewable_text, (bytes, Some(content)), r),
        call_ensures(probably_reviewable_text, (bytes, None::<Vec<u8>>), unread),
    ensures
        r <==> bytes <= 2 * 1024 * 1024 && decoded is Ok,
        !unread,
{
}

/// Two folders are compared exactly when they are two and neither lies in Git's own folder.
pub proof fn law_two_folders_outside_git_are_compared(
    same_folder: bool,
    left_root: &str,
    right_root: &str,
    left_git: bool,
    right_git: bool,
    r: Result<(), String>,
)
    requires
        paths::is_portable(left_root@),
        paths::is_portable(right_root@),
        call_ensures(paths::contains_git_metadata, (left_root,), left_git),
        call_ensures(paths::contains_git_metadata, (right_root,), right_git),
        call_ensures(check_comparison_roots, (same_folder, left_root, right_root), r),
    ensures
        r is Ok <==> !same_folder && !left_git && !right_git,
        same_folder ==> (r matches Err(e) && e@ == "Choose two different folders to compare"@),
        !same_folder && (left_git || right_git) ==> (r matches Err(e) && e@
            == "Git metadata (.git) is protected in Local Drive"@),
{
}

/// Whether nothing below a key is compared, by what the two scans found there: a submodule on either side while submodules
/// are ignored, or on both sides things of different kinds.
pub open spec fn ends_at(left: Option<ItemKind>, right: Option<ItemKind>, ignore_submodules: bool) -> bool {
    let submodule = left == Some(ItemKind::Submodule) || right == Some(ItemKind::Submodule);
    ||| submodule && ignore_submodules
    ||| !submodule && left is Some && right is Some && !(left->0 is File && right->0 is File) && !(left->0 is Directory
        && right->0 is Directory) && !(left->0 is Symlink && right->0 is Symlink)
}

/// A comparison has a row for a key exactly when one of the two scans found an item there and nothing on the way to it ends
/// the comparison.
pub proof fn law_rows_stop_at_what_cannot_be_compared(
    left: &TextMap<FoundItem>,
    right: &TextMap<FoundItem>,
    ignore_submodules: bool,
    rows: Vec<PlannedRow>,
    key: Seq<char>,
)
    requires
        call_ensures(plan_comparison, (left, right, ignore_submodules), rows),
    ensures
        (exists|i: int| 0 <= i < rows@.len() && (#[trigger] rows@[i]).key@ == key) <==> (left@.dom().contains(key)
            || right@.dom().contains(key)) && !(exists|edge: Seq<char>, rest: Seq<char>|
            key == #[trigger] (edge + seq!['/'] + rest) && ends_at(
                found_kind(left@, edge),
                found_kind(right@, edge),
                ignore_submodules,
            )),
        forall|i: int, j: int|
            0 <= i < j < rows@.len() ==> text::before((#[trigger] rows@[i]).key@, (#[trigger] rows@[j]).key@),
{
    let view = rows_view(rows@);
    let sides = sides_of(*left, *right);
    let keys = keys_of(view);
    assert(keys.len() == rows@.len());
    assert forall|i: int| 0 <= i < rows@.len() implies #[trigger] keys[i] == rows@[i].key@ by {
        assert(view[i] == rows@[i]@);
    }
    assert forall|i: int, j: int| 0 <= i < j < rows@.len() implies text::before(
        (#[trigger] rows@[i]).key@,
        (#[trigger] rows@[j]).key@,
    ) by {
        assert(text::before(keys[i], keys[j]));
    }
    if keys.contains(key) {
        let i = keys.index_of(key);
        assert(rows@[i].key@ == key);
    }
    if exists|i: int| 0 <= i < rows@.len() && (#[trigger] rows@[i]).key@ == key {
        let i = choose|i: int| 0 <= i < rows@.len() && (#[trigger] rows@[i]).key@ == key;
        assert(keys[i] == key);
    }
    assert forall|edge: Seq<char>| #[trigger] sides.is_boundary(ignore_submodules, edge) == ends_at(
        found_kind(left@, edge),
        found_kind(right@, edge),
        ignore_submodules,
    ) by {
        assert(kind_at(sides.left, edge) == found_kind(left@, edge));
        assert(kind_at(sides.right, edge) == found_kind(right@, edge));
    }
    if sides.is_hidden(ignore_submodules, key) {
        let edge = choose|edge: Seq<char>| #[trigger] sides.is_boundary(ignore_submodules, edge) && lies_below(key, edge);
        let rest = key.skip(edge.len() as int + 1);
        assert(key =~= edge + seq!['/'] + rest);
    }
    if exists|edge: Seq<char>, rest: Seq<char>|
        key == #[trigger] (edge + seq!['/'] + rest) && ends_at(
            found_kind(left@, edge),
            found_kind(right@, edge),
            ignore_submodules,
        ) {
        let (edge, rest) = choose|edge: Seq<char>, rest: Seq<char>|
            key == #[trigger] (edge + seq!['/'] + rest) && ends_at(
                found_kind(left@, edge),
                found_kind(right@, edge),
                ignore_submodules,
            );
        assert(sides.is_boundary(ignore_submodules, edge));
        assert(key.take(edge.len() as int) =~= edge);
        assert(lies_below(key, edge));
    }
}

/// The names of a path stand between its separators: `/`, and on Windows a backslash as well.
pub proof fn law_names_stand_between_separators(list: Seq<Seq<char>>, path: Seq<char>)
    requires
        list.len() > 0,
        forall|i: int| 0 <= i < list.len() ==> !(#[trigger] list[i]).contains('/'),
        path == pieces::joined(list, seq!['/']),
    ensures
        names_between(path, false) == list,
        !path.contains('\\') ==> names_between(path, true) == list,
        forall|other: Seq<char>|
            #![trigger names_between(other, true)]
            text::replaced(other, '\\', '/') == path ==> names_between(other, true) == list,
        avoids_git(path, false) <==> forall|i: int| 0 <= i < list.len() ==> !paths::is_git_name(#[trigger] list[i]),
{
    pieces::lemma_split_of_joined(list, '/');
    if !path.contains('\\') {
        assert forall|i: int| 0 <= i < path.len() implies path[i] != '\\' by {
            assert(path.contains(path[i]));
        }
        assert(text::replaced(path, '\\', '/') =~= path);
    }
    assert(names_between(path, false) == list);
}

} // verus!
