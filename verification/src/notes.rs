//! Personal notes on the folders of a repository.
use crate::local_drive;
use crate::local_drive::EntryType;
use crate::numerals;
use crate::paths;
use crate::paths::PathPart;
use crate::pieces;
use crate::text;
use crate::text_map::TextMap;
use vstd::prelude::*;
use vstd::string::*;
use vstd::utf8::*;

verus! {

// Paths of folders.

/// A folder path with `/` between its pieces and none at its ends.
pub open spec fn cleaned(path: Seq<char>) -> Seq<char> {
    text::stripped(text::replaced(text::trimmed(path), '\\', '/'), '/')
}

/// The pieces that name something: neither empty nor `.`.
pub open spec fn naming(list: Seq<Seq<char>>) -> Seq<Seq<char>>
    decreases list.len(),
{
    if list.len() == 0 {
        Seq::empty()
    } else if list.last().len() == 0 || list.last() == "."@ {
        naming(list.drop_last())
    } else {
        naming(list.drop_last()).push(list.last())
    }
}

/// The path under which the note of a folder is kept.
pub open spec fn normal_form(path: Seq<char>) -> Result<Seq<char>, Seq<char>> {
    let value = cleaned(path);
    let list = pieces::split(value, '/');
    if value.len() == 0 {
        Err("Select a folder before adding a personal note"@)
    } else if value.contains(':') {
        Err("Personal note paths must be repository-relative"@)
    } else if list.contains(".."@) {
        Err("Personal note paths cannot leave the repository"@)
    } else if naming(list).len() == 0 {
        Err("Select a folder before adding a personal note"@)
    } else {
        Ok(pieces::joined(naming(list), "/"@))
    }
}

/// The path under which the note of a folder is kept: relative to the repository, with `/` between its
/// pieces.
pub fn normalized_folder_path(path: &str) -> (r: Result<String, String>)
    ensures
        text::result_view(r) == normal_form(path@),
{
    let trimmed: String = text::trim(path);
    let slashed: String = text::replace_char(trimmed.as_str(), '\\', '/');
    let value: String = text::strip(slashed.as_str(), '/');
    if value.as_str().is_empty() {
        return Err("Select a folder before adding a personal note".to_owned());
    }
    if text::contains_char(value.as_str(), ':') {
        return Err("Personal note paths must be repository-relative".to_owned());
    }
    let list: Vec<String> = pieces::split_at_char(value.as_str(), '/');
    let ghost view = text::texts_view(list@);
    let mut parts: Vec<String> = Vec::new();
    assert(text::texts_view(parts@) =~= Seq::empty());
    for i in 0..list.len()
        invariant
            value@ == cleaned(path@),
            value@.len() > 0,
            !value@.contains(':'),
            view == text::texts_view(list@),
            view == pieces::split(value@, '/'),
            forall|j: int| 0 <= j < i ==> view[j] != ".."@,
            text::texts_view(parts@) == naming(view.take(i as int)),
    {
        let part: &str = list[i].as_str();
        proof {
            assert(view[i as int] == list@[i as int]@);
            assert(view.take(i + 1).drop_last() =~= view.take(i as int));
            assert(view.take(i + 1).last() == view[i as int]);
        }
        if part.is_empty() || text::same_text(part, ".") {
            proof {
                reveal_strlit("..");
                reveal_strlit(".");
                assert("."@.len() == 1 && ".."@.len() == 2);
            }
        } else if text::same_text(part, "..") {
            assert(view.contains(".."@));
            return Err("Personal note paths cannot leave the repository".to_owned());
        } else {
            let ghost had = parts@;
            parts.push(part.to_owned());
            assert(text::texts_view(parts@) =~= text::texts_view(had).push(part@));
        }
    }
    assert(view.take(view.len() as int) =~= view);
    if parts.len() == 0 {
        return Err("Select a folder before adding a personal note".to_owned());
    }
    Ok(pieces::join(&parts, "/"))
}

// The file of a repository's notes.

/// The address by which a repository is recognised: that of the remote `origin` if there is such a
/// remote, or else that of the remote that is listed first.
pub fn first_remote_url(origin: Option<Option<String>>, first_listed: Option<Option<String>>) -> (r: Option<String>)
    ensures
        r == match origin {
            Some(url) => url,
            None => match first_listed {
                Some(url) => url,
                None => None,
            },
        },
{
    match origin {
        Some(url) => url,
        None => match first_listed {
            Some(url) => url,
            None => None,
        },
    }
}

/// What a repository is recognised by: its remote address, or else where it lies.
pub open spec fn identity(remote_url: Option<Seq<char>>, canonical: Result<Seq<char>, Seq<char>>) -> Result<
    Seq<char>,
    Seq<char>,
> {
    if remote_url is Some && text::trimmed(remote_url->0).len() > 0 {
        Ok("remote:"@ + text::trimmed(remote_url->0))
    } else {
        match canonical {
            Ok(path) => Ok("path:"@ + path),
            Err(error) => Err(error),
        }
    }
}

/// What a repository is recognised by: its remote address, or else where it lies.
pub fn repository_identity(remote_url: Option<String>, canonical: Result<String, String>) -> (r: Result<
    String,
    String,
>)
    ensures
        text::result_view(r) == identity(text::opt_view(remote_url), text::result_view(canonical)),
{
    if let Some(url) = remote_url {
        let address: String = text::trim(url.as_str());
        if !address.as_str().is_empty() {
            let mut r: String = "remote:".to_owned();
            r.append(address.as_str());
            return Ok(r);
        }
    }
    match canonical {
        Ok(path) => {
            let mut r: String = "path:".to_owned();
            r.append(path.as_str());
            Ok(r)
        },
        Err(error) => Err(error),
    }
}

/// The 64-bit FNV-1a hash of bytes.
pub open spec fn fnv(bytes: Seq<u8>) -> u64
    decreases bytes.len(),
{
    if bytes.len() == 0 {
        0xcbf29ce484222325
    } else {
        (fnv(bytes.drop_last()) ^ (bytes.last() as u64)).wrapping_mul(0x100000001b3)
    }
}

/// The 64-bit FNV-1a hash of a text in sixteen hexadecimal digits. File names are made of it, so it is the
/// same in every build and on every platform.
pub fn stable_hash(value: &str) -> (r: String)
    ensures
        r@ == numerals::hex(fnv(encode_utf8(value@)) as nat, 16),
{
    let bytes = value.as_bytes();
    let mut hash: u64 = 0xcbf29ce484222325;
    for i in 0..bytes.len()
        invariant
            bytes@ == encode_utf8(value@),
            hash == fnv(bytes@.take(i as int)),
    {
        assert(bytes@.take(i + 1).drop_last() =~= bytes@.take(i as int));
        hash = (hash ^ (bytes[i] as u64)).wrapping_mul(0x100000001b3);
    }
    assert(bytes@.take(bytes@.len() as int) =~= bytes@);
    numerals::hex_text(hash, 16)
}

/// The name of the file that holds the notes of a repository.
pub open spec fn notes_name(identity: Seq<char>) -> Seq<char> {
    numerals::hex(fnv(encode_utf8(identity)) as nat, 16) + ".drill-down-notes.json"@
}

/// The name of the file that holds the notes of a repository.
pub fn notes_file_name(identity: &str) -> (r: String)
    ensures
        r@ == notes_name(identity@),
{
    let mut r: String = stable_hash(identity);
    r.append(".drill-down-notes.json");
    r
}

/// Where the file with the notes of a repository lies below the folder for notes.
pub fn notes_path_for_repository(root: &str, identity: Result<String, String>) -> (r: Result<String, String>)
    ensures
        match identity {
            Err(error) => r matches Err(e) && e@ == error@,
            Ok(id) => r matches Ok(path) && paths::told_joined(root@, notes_name(id@), path@) && (paths::is_portable(
                root@,
            ) ==> (path@ == paths::joined_path(
                root@,
                notes_name(id@),
                '/',
            ) || path@ == paths::joined_path(root@, notes_name(id@), '\\'))),
        },
{
    match identity {
        Err(error) => Err(error),
        Ok(id) => {
            let name: String = notes_file_name(id.as_str());
            proof {
                lemma_notes_name_is_portable(id@);
            }
            Ok(paths::path_string(root, name.as_str()))
        },
    }
}

proof fn lemma_hex_digits(n: nat, width: nat)
    ensures
        numerals::hex(n, width).len() == width,
        forall|i: int|
            0 <= i < width ==> ('0' <= #[trigger] numerals::hex(n, width)[i] <= '9' || 'a' <= numerals::hex(
                n,
                width,
            )[i] <= 'f'),
    decreases width,
{
    if width > 0 {
        lemma_hex_digits(n / 16, (width - 1) as nat);
    }
}

proof fn lemma_notes_name_is_portable(identity: Seq<char>)
    ensures
        paths::is_portable(notes_name(identity)),
        notes_name(identity).len() > 0,
        notes_name(identity)[0] != '/',
{
    let digits = numerals::hex(fnv(encode_utf8(identity)) as nat, 16);
    lemma_hex_digits(fnv(encode_utf8(identity)) as nat, 16);
    reveal_strlit(".drill-down-notes.json");
    let name = notes_name(identity);
    assert forall|i: int| 0 <= i < name.len() implies name[i] != '\\' && name[i] != ':' && name[i] != '/' by {
        if i < 16 {
            assert(name[i] == digits[i]);
        } else {
            assert(name[i] == ".drill-down-notes.json"@[i - 16]);
        }
    }
}

/// The platforms that keep application data in places of their own.
#[derive(Clone, Copy, PartialEq, Eq, Structural)]
pub enum Platform {
    Windows,
    MacOs,
    Other,
}

/// Where the folder for notes starts from.
#[derive(Clone, Copy, PartialEq, Eq, Structural)]
pub enum NotesBase {
    /// The variable `GIT_DRILLDOWN_NOTES_DIR`.
    Override,
    /// The variable `APPDATA`.
    AppData,
    /// The variable `HOME`.
    Home,
    /// The variable `XDG_DATA_HOME`.
    XdgDataHome,
    /// The folder for temporary files.
    TemporaryFolder,
}

/// Which of the variables are set.
#[derive(Clone, Copy)]
pub struct Variables {
    pub override_folder: bool,
    pub app_data: bool,
    pub home: bool,
    pub xdg_data_home: bool,
}

/// Where the folder for notes starts from.
pub open spec fn notes_base(platform: Platform, set: Variables) -> NotesBase {
    if set.override_folder {
        NotesBase::Override
    } else {
        match platform {
            Platform::Windows => if set.app_data {
                NotesBase::AppData
            } else {
                NotesBase::TemporaryFolder
            },
            Platform::MacOs => if set.home {
                NotesBase::Home
            } else {
                NotesBase::TemporaryFolder
            },
            Platform::Other => if set.xdg_data_home {
                NotesBase::XdgDataHome
            } else if set.home {
                NotesBase::Home
            } else {
                NotesBase::TemporaryFolder
            },
        }
    }
}

/// The folders from where the folder for notes starts to itself.
pub open spec fn notes_folders(platform: Platform, base: NotesBase) -> Seq<Seq<char>> {
    let last = seq!["Git DrillDown"@, "notes"@];
    match base {
        NotesBase::Override => Seq::empty(),
        NotesBase::Home => if platform == Platform::MacOs {
            seq!["Library"@, "Application Support"@] + last
        } else {
            seq![".local"@, "share"@] + last
        },
        _ => last,
    }
}

/// Where the folder for notes lies: what it starts from, and the folders from there.
pub fn app_data_root(platform: Platform, set: Variables) -> (r: (NotesBase, Vec<String>))
    ensures
        r.0 == notes_base(platform, set),
        text::texts_view(r.1@) == notes_folders(platform, r.0),
{
    if set.override_folder {
        return (NotesBase::Override, Vec::new());
    }
    match platform {
        Platform::Windows => {
            if set.app_data {
                return (NotesBase::AppData, text::texts_of(&["Git DrillDown", "notes"]));
            }
        },
        Platform::MacOs => {
            if set.home {
                return (
                    NotesBase::Home,
                    text::texts_of(&["Library", "Application Support", "Git DrillDown", "notes"]),
                );
            }
        },
        Platform::Other => {
            if set.xdg_data_home {
                return (NotesBase::XdgDataHome, text::texts_of(&["Git DrillDown", "notes"]));
            }
            if set.home {
                return (NotesBase::Home, text::texts_of(&[".local", "share", "Git DrillDown", "notes"]));
            }
        },
    }
    (NotesBase::TemporaryFolder, text::texts_of(&["Git DrillDown", "notes"]))
}

// Notes.

/// A note as it stands in the file of a repository.
pub struct SavedNote {
    pub path: String,
    pub note: String,
}

/// The notes of a repository as they are handed out.
pub struct DrillDownNotes {
    pub notes: TextMap<String>,
    pub error: Option<String>,
}

/// A saved note by its characters.
pub open spec fn saved_view(saved: SavedNote) -> (Seq<char>, Seq<char>) {
    (saved.path@, saved.note@)
}

/// Saved notes by their characters.
pub open spec fn entries_view(entries: Seq<SavedNote>) -> Seq<(Seq<char>, Seq<char>)> {
    entries.map_values(|saved: SavedNote| saved_view(saved))
}

/// Notes by their characters.
pub open spec fn notes_view(notes: Map<Seq<char>, String>) -> Map<Seq<char>, Seq<char>> {
    notes.map_values(|note: String| note@)
}

/// The notes that saved entries stand for. An entry without a folder or without a text counts for nothing,
/// and a later entry of a folder takes the place of an earlier one.
pub open spec fn read_entries(entries: Seq<(Seq<char>, Seq<char>)>) -> Map<Seq<char>, Seq<char>>
    decreases entries.len(),
{
    if entries.len() == 0 {
        Map::empty()
    } else {
        let rest = read_entries(entries.drop_last());
        let (path, note) = entries.last();
        if normal_form(path) is Ok && text::trimmed(note).len() > 0 {
            rest.insert(normal_form(path)->Ok_0, text::trimmed(note))
        } else {
            rest
        }
    }
}

/// The notes that saved entries stand for.
pub fn clean_notes(entries: &Vec<SavedNote>) -> (r: TextMap<String>)
    ensures
        r.wf(),
        notes_view(r@) == read_entries(entries_view(entries@)),
{
    let ghost view = entries_view(entries@);
    let mut r: TextMap<String> = TextMap::new();
    assert(notes_view(r@) =~= Map::empty());
    for i in 0..entries.len()
        invariant
            r.wf(),
            view == entries_view(entries@),
            notes_view(r@) == read_entries(view.take(i as int)),
    {
        proof {
            assert(view.take(i + 1).drop_last() =~= view.take(i as int));
            assert(view.take(i + 1).last() == saved_view(entries@[i as int]));
        }
        if let Ok(path) = normalized_folder_path(entries[i].path.as_str()) {
            let note: String = text::trim(entries[i].note.as_str());
            if !note.as_str().is_empty() {
                let ghost had = r@;
                r.insert(path, note);
                assert(notes_view(r@) =~= notes_view(had).insert(path@, note@));
            }
        }
    }
    assert(view.take(view.len() as int) =~= view);
    r
}

/// The notes of a repository, given what its file holds: nothing where there is no file.
pub fn read_notes_file(found: Result<Option<Vec<SavedNote>>, String>) -> (r: Result<TextMap<String>, String>)
    ensures
        match found {
            Err(error) => r matches Err(e) && e@ == error@,
            Ok(None) => r matches Ok(notes) && notes.wf() && notes_view(notes@) == Map::<
                Seq<char>,
                Seq<char>,
            >::empty(),
            Ok(Some(entries)) => r matches Ok(notes) && notes.wf() && notes_view(notes@) == read_entries(
                entries_view(entries@),
            ),
        },
{
    match found {
        Err(error) => Err(error),
        Ok(None) => {
            let notes: TextMap<String> = TextMap::new();
            assert(notes_view(notes@) =~= Map::empty());
            Ok(notes)
        },
        Ok(Some(entries)) => Ok(clean_notes(&entries)),
    }
}

/// Hands out the notes of a repository. Notes that cannot be read are reported and stand for none.
pub fn load_drill_down_notes(read: Result<TextMap<String>, String>) -> (r: DrillDownNotes)
    requires
        read matches Ok(notes) ==> notes.wf(),
    ensures
        r.notes.wf(),
        match read {
            Ok(notes) => r.notes == notes && r.error is None,
            Err(error) => r.notes@ == Map::<Seq<char>, String>::empty() && text::opt_view(r.error) == Some(
                "Personal notes could not be loaded: "@ + error@,
            ),
        },
{
    match read {
        Ok(notes) => DrillDownNotes { notes, error: None },
        Err(error) => {
            let mut message: String = "Personal notes could not be loaded: ".to_owned();
            message.append(error.as_str());
            DrillDownNotes { notes: TextMap::new(), error: Some(message) }
        },
    }
}

/// The notes after the folder `key` was given a note. A blank one takes the note of the folder away.
pub open spec fn with_note(notes: Map<Seq<char>, Seq<char>>, key: Seq<char>, note: Seq<char>) -> Map<
    Seq<char>,
    Seq<char>,
> {
    if text::trimmed(note).len() == 0 {
        notes.remove(key)
    } else {
        notes.insert(key, text::trimmed(note))
    }
}

/// The notes that a change starts from: none where they cannot be read.
pub open spec fn notes_or_none(read: Result<TextMap<String>, String>) -> Map<Seq<char>, Seq<char>> {
    match read {
        Ok(notes) => notes_view(notes@),
        Err(_) => Map::empty(),
    }
}

fn or_none(read: Result<TextMap<String>, String>) -> (r: TextMap<String>)
    requires
        read matches Ok(notes) ==> notes.wf(),
    ensures
        r.wf(),
        notes_view(r@) == notes_or_none(read),
{
    match read {
        Ok(notes) => notes,
        Err(_) => {
            let notes: TextMap<String> = TextMap::new();
            assert(notes_view(notes@) =~= Map::empty());
            notes
        },
    }
}

/// Gives the folder `key` a note. A blank one takes the note of the folder away.
pub fn set_drill_down_note(read: Result<TextMap<String>, String>, key: String, note: &str) -> (r: DrillDownNotes)
    requires
        read matches Ok(notes) ==> notes.wf(),
    ensures
        r.notes.wf(),
        notes_view(r.notes@) == with_note(notes_or_none(read), key@, note@),
        r.error is None,
{
    let mut notes: TextMap<String> = or_none(read);
    let ghost had = notes@;
    let trimmed: String = text::trim(note);
    if trimmed.as_str().is_empty() {
        notes.remove(key.as_str());
        assert(notes_view(notes@) =~= notes_view(had).remove(key@));
    } else {
        notes.insert(key, trimmed);
        assert(notes_view(notes@) =~= notes_view(had).insert(key@, trimmed@));
    }
    DrillDownNotes { notes, error: None }
}

/// Takes the note of the folder `key` away.
pub fn delete_drill_down_note(read: Result<TextMap<String>, String>, key: &str) -> (r: DrillDownNotes)
    requires
        read matches Ok(notes) ==> notes.wf(),
    ensures
        r.notes.wf(),
        notes_view(r.notes@) == notes_or_none(read).remove(key@),
        r.error is None,
{
    let mut notes: TextMap<String> = or_none(read);
    let ghost had = notes@;
    notes.remove(key);
    assert(notes_view(notes@) =~= notes_view(had).remove(key@));
    DrillDownNotes { notes, error: None }
}

/// What is answered for a folder that is given a note and that the platform reads as `parts`.
pub open spec fn note_folder_answer(
    inspected: Result<EntryType, Seq<char>>,
    parts: Seq<paths::Part>,
) -> Result<(), Seq<char>> {
    match inspected {
        Err(error) => Err(error),
        Ok(entry) => if entry != EntryType::Directory {
            Err("Personal notes are available for folders only"@)
        } else if exists|i: int|
            0 <= i < parts.len() && (#[trigger] parts[i] is ParentDir || parts[i] is RootDir
                || parts[i] is Prefix) {
            Err("Personal note paths must be repository-relative"@)
        } else {
            Ok(())
        },
    }
}

/// Answers for a folder that is given a note and that the platform reads as `parts`.
pub fn answer_note_folder(inspected: Result<EntryType, String>, parts: &Vec<PathPart>) -> (r: Result<(), String>)
    ensures
        text::unit_view(r) == note_folder_answer(
            local_drive::inspected_view(inspected),
            paths::parts_view(parts@),
        ),
{
    match inspected {
        Err(error) => {
            return Err(error);
        },
        Ok(EntryType::Directory) => {},
        Ok(_) => {
            return Err("Personal notes are available for folders only".to_owned());
        },
    }
    let ghost view = paths::parts_view(parts@);
    for i in 0..parts.len()
        invariant
            view == paths::parts_view(parts@),
            inspected == Ok::<EntryType, String>(EntryType::Directory),
            forall|j: int|
                0 <= j < i ==> !(#[trigger] view[j] is ParentDir || view[j] is RootDir || view[j] is Prefix),
    {
        assert(view[i as int] == paths::part_view(parts@[i as int]));
        match &parts[i] {
            PathPart::ParentDir | PathPart::RootDir | PathPart::Prefix(_) => {
                assert(view[i as int] is ParentDir || view[i as int] is RootDir || view[i as int] is Prefix);
                return Err("Personal note paths must be repository-relative".to_owned());
            },
            _ => {},
        }
    }
    Ok(())
}

/// Checks the folder that is given a note, by the path under which the note is kept.
pub fn ensure_existing_folder(normalized: &str, inspected: Result<EntryType, String>) -> (r: Result<(), String>)
    ensures
        paths::is_portable(normalized@) ==> text::unit_view(r) == note_folder_answer(
            local_drive::inspected_view(inspected),
            paths::portable_parts(normalized@),
        ),
        exists|parts: Seq<paths::Part>| #[trigger]
            paths::told_parts(normalized@, parts) && text::unit_view(r) == note_folder_answer(
                local_drive::inspected_view(inspected),
                parts,
            ),
{
    let parts: Vec<PathPart> = paths::ask_parts(normalized);
    proof {
        paths::law_told_parts(normalized@, paths::parts_view(parts@));
    }
    answer_note_folder(inspected, &parts)
}

// Writing the file.

/// What writing the file of a repository's notes does next.
pub enum WriteStep {
    /// Create the folder of the file with the folders around it.
    CreateFolder,
    /// Remove the file if it is there.
    RemoveEmpty,
    /// Write the notes to a file with another name.
    WriteTemporary,
    /// Give that file the name of the file.
    Rename,
    /// Remove the file, which stands in the way.
    RemoveOld { error: String },
    /// Give the other file the name of the file once more.
    RenameAgain,
    /// Nothing more.
    Done { result: Result<(), String> },
}

/// Writing the file of a repository's notes.
pub struct NotesWrite {
    /// Whether there are no notes.
    pub empty: bool,
    pub step: WriteStep,
}

impl NotesWrite {
    /// Without notes nothing is written; with notes the file is not removed but to be replaced.
    pub open spec fn wf(&self) -> bool {
        match self.step {
            WriteStep::RemoveEmpty => self.empty,
            WriteStep::WriteTemporary | WriteStep::Rename => !self.empty,
            WriteStep::RemoveOld { .. } | WriteStep::RenameAgain => !self.empty,
            _ => true,
        }
    }

    /// Whether writing has ended with this message.
    pub open spec fn failed(&self, message: Seq<char>) -> bool {
        self.step matches WriteStep::Done { result } && text::unit_view(result) == Err::<(), Seq<char>>(message)
    }

    /// Whether writing has ended well.
    pub open spec fn succeeded(&self) -> bool {
        self.step matches WriteStep::Done { result } && result is Ok
    }

    /// Whether writing has ended with what the last step answered.
    pub open spec fn ended(&self, outcome: Result<(), String>) -> bool {
        self.step matches WriteStep::Done { result } && text::unit_view(result) == text::unit_view(outcome)
    }

    /// Begins to write the notes.
    pub fn new(notes: &TextMap<String>) -> (r: Self)
        requires
            notes.wf(),
        ensures
            r.wf(),
            r.empty == (notes@.dom().len() == 0),
            r.step is CreateFolder,
    {
        NotesWrite { empty: notes.is_empty(), step: WriteStep::CreateFolder }
    }

    /// Goes on after the folder was to be created.
    pub fn folder_created(&mut self, created: Result<(), String>)
        requires
            old(self).wf(),
            old(self).step is CreateFolder,
        ensures
            final(self).wf(),
            final(self).empty == old(self).empty,
            match created {
                Err(error) => final(self).failed(error@),
                Ok(_) => if old(self).empty {
                    final(self).step is RemoveEmpty
                } else {
                    final(self).step is WriteTemporary
                },
            },
    {
        match created {
            Err(error) => {
                self.step = WriteStep::Done { result: Err(error) };
            },
            Ok(_) => {
                if self.empty {
                    self.step = WriteStep::RemoveEmpty;
                } else {
                    self.step = WriteStep::WriteTemporary;
                }
            },
        }
    }

    /// Goes on after the file was to be removed, for want of notes.
    pub fn empty_removed(&mut self, removed: Result<(), String>)
        requires
            old(self).wf(),
            old(self).step is RemoveEmpty,
        ensures
            final(self).wf(),
            final(self).empty == old(self).empty,
            final(self).ended(removed),
    {
        self.step = WriteStep::Done { result: removed };
    }

    /// Goes on after the notes were to be written to the other file.
    pub fn temporary_written(&mut self, written: Result<(), String>)
        requires
            old(self).wf(),
            old(self).step is WriteTemporary,
        ensures
            final(self).wf(),
            final(self).empty == old(self).empty,
            match written {
                Err(error) => final(self).failed(error@),
                Ok(_) => final(self).step is Rename,
            },
    {
        match written {
            Err(error) => {
                self.step = WriteStep::Done { result: Err(error) };
            },
            Ok(_) => {
                self.step = WriteStep::Rename;
            },
        }
    }

    /// Goes on after the other file was to get the name of the file; `occupied` says whether the file is
    /// there.
    pub fn renamed(&mut self, outcome: Result<(), String>, occupied: bool)
        requires
            old(self).wf(),
            old(self).step is Rename,
        ensures
            final(self).wf(),
            final(self).empty == old(self).empty,
            match outcome {
                Ok(_) => final(self).succeeded(),
                Err(error) => if occupied {
                    final(self).step matches WriteStep::RemoveOld { error: e } && e@ == error@
                } else {
                    final(self).failed(error@)
                },
            },
    {
        match outcome {
            Ok(_) => {
                self.step = WriteStep::Done { result: Ok(()) };
            },
            Err(error) => {
                if occupied {
                    self.step = WriteStep::RemoveOld { error };
                } else {
                    self.step = WriteStep::Done { result: Err(error) };
                }
            },
        }
    }

    /// Goes on after the file was to be removed, which stood in the way.
    pub fn old_removed(&mut self, removed: Result<(), String>)
        requires
            old(self).wf(),
            old(self).step is RemoveOld,
        ensures
            final(self).wf(),
            final(self).empty == old(self).empty,
            match removed {
                Ok(_) => final(self).step is RenameAgain,
                Err(error) => final(self).failed(old(self).step->error@ + "; cleanup failed: "@ + error@),
            },
    {
        if let WriteStep::RemoveOld { error } = &self.step {
            match removed {
                Ok(_) => {
                    self.step = WriteStep::RenameAgain;
                },
                Err(second) => {
                    let message: String = text::framed(error.as_str(), "; cleanup failed: ", second.as_str());
                    self.step = WriteStep::Done { result: Err(message) };
                },
            }
        }
    }

    /// Goes on after the other file was to get the name of the file once more.
    pub fn renamed_again(&mut self, outcome: Result<(), String>)
        requires
            old(self).wf(),
            old(self).step is RenameAgain,
        ensures
            final(self).wf(),
            final(self).empty == old(self).empty,
            final(self).ended(outcome),
    {
        self.step = WriteStep::Done { result: outcome };
    }
}

// Laws.

/// Whether a piece names something inside a folder.
pub open spec fn is_inner_name(piece: Seq<char>) -> bool {
    piece.len() > 0 && piece != "."@ && piece != ".."@ && !piece.contains('/') && !piece.contains('\\')
        && !piece.contains(':')
}

proof fn lemma_naming(list: Seq<Seq<char>>)
    ensures
        forall|i: int|
            0 <= i < naming(list).len() ==> (#[trigger] naming(list)[i]).len() > 0 && naming(list)[i] != "."@
                && list.contains(naming(list)[i]),
    decreases list.len(),
{
    if list.len() > 0 {
        let front = list.drop_last();
        lemma_naming(front);
        assert forall|i: int| 0 <= i < naming(list).len() implies (#[trigger] naming(list)[i]).len() > 0
            && naming(list)[i] != "."@ && list.contains(naming(list)[i]) by {
            if i < naming(front).len() {
                let piece = naming(front)[i];
                assert(naming(list)[i] == piece);
                let k = front.index_of(piece);
                assert(list[k] == piece);
            } else {
                assert(list[list.len() - 1] == naming(list)[i]);
            }
        }
    }
}

proof fn lemma_naming_of_names(list: Seq<Seq<char>>)
    requires
        forall|i: int| 0 <= i < list.len() ==> (#[trigger] list[i]).len() > 0 && list[i] != "."@,
    ensures
        naming(list) == list,
    decreases list.len(),
{
    if list.len() > 0 {
        assert(list[list.len() - 1] == list.last());
        let front = list.drop_last();
        assert forall|i: int| 0 <= i < front.len() implies (#[trigger] front[i]).len() > 0 && front[i] != "."@ by {
            assert(front[i] == list[i]);
        }
        lemma_naming_of_names(front);
        assert(list =~= front.push(list.last()));
    }
}

proof fn lemma_strip_keeps(text: Seq<char>, c: char, d: char)
    requires
        !text.contains(d),
    ensures
        !text::stripped(text, c).contains(d),
{
    lemma_strip_start_keeps(text, c, d);
    lemma_strip_end_keeps(text::strip_start(text, c), c, d);
}

proof fn lemma_strip_start_keeps(text: Seq<char>, c: char, d: char)
    requires
        !text.contains(d),
    ensures
        !text::strip_start(text, c).contains(d),
    decreases text.len(),
{
    if text.len() > 0 && text[0] == c {
        assert forall|i: int| 0 <= i < text.drop_first().len() implies text.drop_first()[i] != d by {
            assert(text[i + 1] != d);
        }
        lemma_strip_start_keeps(text.drop_first(), c, d);
    }
}

proof fn lemma_strip_end_keeps(text: Seq<char>, c: char, d: char)
    requires
        !text.contains(d),
    ensures
        !text::strip_end(text, c).contains(d),
    decreases text.len(),
{
    if text.len() > 0 && text.last() == c {
        assert forall|i: int| 0 <= i < text.drop_last().len() implies text.drop_last()[i] != d by {
            assert(text[i] != d);
        }
        lemma_strip_end_keeps(text.drop_last(), c, d);
    }
}

/// The path under which a note is kept stays inside the repository: it is made of names between `/`, none
/// of them empty, `.` or `..`, without backslash and colon.
pub proof fn law_normal_form_stays_inside(path: Seq<char>)
    requires
        normal_form(path) is Ok,
    ensures
        ({
            let value = normal_form(path)->Ok_0;
            let list = pieces::split(value, '/');
            &&& list.len() > 0
            &&& forall|i: int| 0 <= i < list.len() ==> is_inner_name(#[trigger] list[i])
            &&& value == pieces::joined(list, "/"@)
        }),
{
    let value = cleaned(path);
    let list = pieces::split(value, '/');
    let names = naming(list);
    let slashed = text::replaced(text::trimmed(path), '\\', '/');
    assert(!slashed.contains('\\'));
    lemma_strip_keeps(slashed, '/', '\\');
    lemma_naming(list);
    pieces::lemma_split_pieces(value, '/');
    assert forall|i: int| 0 <= i < names.len() implies is_inner_name(#[trigger] names[i]) by {
        let piece = names[i];
        let k = list.index_of(piece);
        assert(list[k] == piece);
        if piece.contains('/') {
            assert(list[k].contains('/'));
        }
        if piece.contains('\\') {
            assert(list[k].contains('\\'));
        }
        if piece.contains(':') {
            assert(list[k].contains(':'));
        }
    }
    reveal_strlit("/");
    assert("/"@ =~= seq!['/']);
    pieces::lemma_split_of_joined(names, '/');
}

proof fn lemma_joined_ends(list: Seq<Seq<char>>, sep: Seq<char>)
    requires
        list.len() > 0,
        forall|i: int| 0 <= i < list.len() ==> (#[trigger] list[i]).len() > 0,
    ensures
        pieces::joined(list, sep).len() > 0,
        pieces::joined(list, sep)[0] == list[0][0],
        pieces::joined(list, sep).last() == list.last().last(),
    decreases list.len(),
{
    assert(list[list.len() - 1] == list.last());
    if list.len() > 1 {
        let front = list.drop_last();
        assert forall|i: int| 0 <= i < front.len() implies (#[trigger] front[i]).len() > 0 by {
            assert(front[i] == list[i]);
        }
        lemma_joined_ends(front, sep);
        assert(front[0] == list[0]);
    }
}

proof fn lemma_joined_lacks(list: Seq<Seq<char>>, sep: Seq<char>, c: char)
    requires
        !sep.contains(c),
        forall|i: int| 0 <= i < list.len() ==> !(#[trigger] list[i]).contains(c),
    ensures
        !pieces::joined(list, sep).contains(c),
    decreases list.len(),
{
    if list.len() > 1 {
        let front = list.drop_last();
        assert forall|i: int| 0 <= i < front.len() implies !(#[trigger] front[i]).contains(c) by {
            assert(front[i] == list[i]);
        }
        lemma_joined_lacks(front, sep, c);
        assert(list[list.len() - 1] == list.last());
        let a = pieces::joined(front, sep);
        let all = a + sep + list.last();
        assert forall|i: int| 0 <= i < all.len() implies all[i] != c by {
            if i < a.len() {
                assert(a.contains(a[i]));
            } else if i < a.len() + sep.len() {
                assert(sep.contains(sep[i - a.len()]));
            } else {
                let k = i - a.len() - sep.len();
                assert(list.last().contains(list.last()[k]));
            }
        }
    }
}

/// The path under which a note is kept is kept under itself, unless it starts or ends with white space.
pub proof fn law_normal_form_is_stable(path: Seq<char>)
    requires
        normal_form(path) is Ok,
        text::trimmed(normal_form(path)->Ok_0) == normal_form(path)->Ok_0,
    ensures
        normal_form(normal_form(path)->Ok_0) == normal_form(path),
{
    let value = normal_form(path)->Ok_0;
    let list = pieces::split(value, '/');
    law_normal_form_stays_inside(path);
    reveal_strlit("/");
    assert("/"@ =~= seq!['/']);
    assert forall|i: int| 0 <= i < list.len() implies (#[trigger] list[i]).len() > 0 && list[i] != "."@ by {
        assert(is_inner_name(list[i]));
    }
    lemma_joined_ends(list, "/"@);
    assert(list[0].contains(list[0][0]));
    assert(is_inner_name(list[0]));
    assert(list[list.len() - 1] == list.last());
    assert(is_inner_name(list[list.len() - 1]));
    assert(list.last().contains(list.last()[list.last().len() - 1]));
    assert forall|i: int| 0 <= i < list.len() implies !(#[trigger] list[i]).contains('\\') && !list[i].contains(
        ':',
    ) by {
        assert(is_inner_name(list[i]));
    }
    lemma_joined_lacks(list, "/"@, '\\');
    lemma_joined_lacks(list, "/"@, ':');
    assert(text::replaced(value, '\\', '/') =~= value) by {
        assert forall|i: int| 0 <= i < value.len() implies value[i] != '\\' by {
            assert(value.contains(value[i]));
        }
    }
    assert(text::stripped(value, '/') == value);
    assert(cleaned(value) == value);
    assert(!list.contains(".."@)) by {
        if list.contains(".."@) {
            let k = list.index_of(".."@);
            assert(is_inner_name(list[k]));
        }
    }
    lemma_naming_of_names(list);
}

proof fn lemma_trim_commutes(text: Seq<char>)
    ensures
        text::trimmed(text::replaced(text, '\\', '/')) == text::replaced(text::trimmed(text), '\\', '/'),
{
    lemma_trim_start_commutes(text);
    lemma_trim_end_commutes(text::trim_start(text));
}

proof fn lemma_trim_start_commutes(text: Seq<char>)
    ensures
        text::trim_start(text::replaced(text, '\\', '/')) == text::replaced(
            text::trim_start(text),
            '\\',
            '/',
        ),
    decreases text.len(),
{
    let other = text::replaced(text, '\\', '/');
    if text.len() > 0 {
        assert(text::is_white_space(other[0]) == text::is_white_space(text[0]));
        assert(other.drop_first() =~= text::replaced(text.drop_first(), '\\', '/'));
        lemma_trim_start_commutes(text.drop_first());
    }
}

proof fn lemma_trim_end_commutes(text: Seq<char>)
    ensures
        text::trim_end(text::replaced(text, '\\', '/')) == text::replaced(text::trim_end(text), '\\', '/'),
    decreases text.len(),
{
    let other = text::replaced(text, '\\', '/');
    if text.len() > 0 {
        assert(text::is_white_space(other.last()) == text::is_white_space(text.last()));
        assert(other.drop_last() =~= text::replaced(text.drop_last(), '\\', '/'));
        lemma_trim_end_commutes(text.drop_last());
    }
}

/// Whether a path is written with backslashes or with slashes makes no difference.
pub proof fn law_separators_do_not_matter(path: Seq<char>)
    ensures
        normal_form(text::replaced(path, '\\', '/')) == normal_form(path),
{
    lemma_trim_commutes(path);
    let once = text::replaced(text::trimmed(path), '\\', '/');
    assert(text::replaced(once, '\\', '/') =~= once);
}

/// A note that was set is there, without the white space around it, and every other note stays.
pub proof fn law_set_note_is_there(
    notes: Map<Seq<char>, Seq<char>>,
    key: Seq<char>,
    note: Seq<char>,
    other: Seq<char>,
)
    requires
        text::trimmed(note).len() > 0,
        other != key,
    ensures
        with_note(notes, key, note).dom().contains(key),
        with_note(notes, key, note)[key] == text::trimmed(note),
        with_note(notes, key, note).dom().contains(other) == notes.dom().contains(other),
        notes.dom().contains(other) ==> with_note(notes, key, note)[other] == notes[other],
{
}

/// A note that was set and then taken away leaves the other notes as they were.
pub proof fn law_deleting_undoes_setting(notes: Map<Seq<char>, Seq<char>>, key: Seq<char>, note: Seq<char>)
    ensures
        with_note(notes, key, note).remove(key) == notes.remove(key),
        !notes.dom().contains(key) ==> with_note(notes, key, note).remove(key) == notes,
{
    assert(with_note(notes, key, note).remove(key) =~= notes.remove(key));
    if !notes.dom().contains(key) {
        assert(notes.remove(key) =~= notes);
    }
}

/// Notes in the form in which they are read back: each under the path that it is kept under, without white
/// space around it, and none blank.
pub open spec fn is_clean(notes: Map<Seq<char>, Seq<char>>) -> bool {
    forall|key: Seq<char>| #[trigger]
        notes.dom().contains(key) ==> {
            &&& normal_form(key) == Ok::<Seq<char>, Seq<char>>(key)
            &&& text::trimmed(notes[key]) == notes[key]
            &&& notes[key].len() > 0
        }
}

/// Setting and deleting notes keeps them clean.
pub proof fn law_changes_keep_notes_clean(notes: Map<Seq<char>, Seq<char>>, key: Seq<char>, note: Seq<char>)
    requires
        is_clean(notes),
        normal_form(key) == Ok::<Seq<char>, Seq<char>>(key),
    ensures
        is_clean(with_note(notes, key, note)),
        is_clean(notes.remove(key)),
{
    text::lemma_trimmed_twice(note);
}

/// Whether entries list notes: each note once, in any order.
pub open spec fn lists_notes(entries: Seq<(Seq<char>, Seq<char>)>, notes: Map<Seq<char>, Seq<char>>) -> bool {
    &&& forall|i: int|
        0 <= i < entries.len() ==> notes.dom().contains((#[trigger] entries[i]).0) && notes[entries[i].0]
            == entries[i].1
    &&& forall|key: Seq<char>| #[trigger]
        notes.dom().contains(key) ==> exists|i: int| 0 <= i < entries.len() && (#[trigger] entries[i]).0 == key
}

proof fn lemma_read_clean_entries(entries: Seq<(Seq<char>, Seq<char>)>, notes: Map<Seq<char>, Seq<char>>)
    requires
        is_clean(notes),
        forall|i: int|
            0 <= i < entries.len() ==> notes.dom().contains((#[trigger] entries[i]).0) && notes[entries[i].0]
                == entries[i].1,
    ensures
        forall|key: Seq<char>| #[trigger]
            read_entries(entries).dom().contains(key) <==> exists|i: int|
                0 <= i < entries.len() && (#[trigger] entries[i]).0 == key,
        forall|key: Seq<char>| #[trigger]
            read_entries(entries).dom().contains(key) ==> notes.dom().contains(key) && read_entries(entries)[key]
                == notes[key],
    decreases entries.len(),
{
    if entries.len() > 0 {
        let front = entries.drop_last();
        assert forall|i: int| 0 <= i < front.len() implies notes.dom().contains((#[trigger] front[i]).0)
            && notes[front[i].0] == front[i].1 by {
            assert(front[i] == entries[i]);
        }
        lemma_read_clean_entries(front, notes);
        let last = entries.last();
        assert(entries[entries.len() - 1] == last);
        assert(notes.dom().contains(last.0));
        let all = read_entries(entries);
        assert(all == read_entries(front).insert(last.0, last.1));
        assert forall|key: Seq<char>| #[trigger] all.dom().contains(key) <==> exists|i: int|
            0 <= i < entries.len() && (#[trigger] entries[i]).0 == key by {
            if read_entries(front).dom().contains(key) {
                let i = choose|i: int| 0 <= i < front.len() && (#[trigger] front[i]).0 == key;
                assert(entries[i].0 == key);
            }
            if exists|i: int| 0 <= i < entries.len() && (#[trigger] entries[i]).0 == key {
                let i = choose|i: int| 0 <= i < entries.len() && (#[trigger] entries[i]).0 == key;
                if i < front.len() {
                    assert(front[i].0 == key);
                }
            }
        }
    }
}

/// Notes that were saved are read back as they were, in whatever order the file lists them.
pub proof fn law_saved_notes_are_read_back(
    entries: Seq<(Seq<char>, Seq<char>)>,
    notes: Map<Seq<char>, Seq<char>>,
)
    requires
        is_clean(notes),
        lists_notes(entries, notes),
    ensures
        read_entries(entries) == notes,
{
    lemma_read_clean_entries(entries, notes);
    assert(read_entries(entries) =~= notes);
}

/// Clones of one remote repository share their notes, wherever they lie.
pub proof fn law_notes_follow_the_remote(
    url: Seq<char>,
    here: Result<Seq<char>, Seq<char>>,
    there: Result<Seq<char>, Seq<char>>,
)
    requires
        text::trimmed(url).len() > 0,
    ensures
        identity(Some(url), here) is Ok,
        identity(Some(url), here) == identity(Some(url), there),
{
}

proof fn lemma_parts_of_names(list: Seq<Seq<char>>)
    requires
        forall|i: int| 0 <= i < list.len() ==> is_inner_name(#[trigger] list[i]),
    ensures
        forall|i: int| 0 <= i < paths::parts_of_pieces(list).len() ==> #[trigger] paths::parts_of_pieces(list)[i] is Normal,
    decreases list.len(),
{
    if list.len() > 0 {
        let front = list.drop_last();
        assert forall|i: int| 0 <= i < front.len() implies is_inner_name(#[trigger] front[i]) by {
            assert(front[i] == list[i]);
        }
        lemma_parts_of_names(front);
        assert(is_inner_name(list[list.len() - 1]));
    }
}

/// Every folder of the repository may be given a note: the path under which the note is kept is read alike
/// on every platform, as names alone.
pub proof fn law_folders_of_the_repository_take_notes(path: Seq<char>)
    requires
        normal_form(path) is Ok,
    ensures
        paths::is_portable(normal_form(path)->Ok_0),
        note_folder_answer(Ok(EntryType::Directory), paths::portable_parts(normal_form(path)->Ok_0)) is Ok,
{
    let value = normal_form(path)->Ok_0;
    let list = pieces::split(value, '/');
    law_normal_form_stays_inside(path);
    reveal_strlit("/");
    assert("/"@ =~= seq!['/']);
    assert forall|i: int| 0 <= i < list.len() implies !(#[trigger] list[i]).contains('\\') && !list[i].contains(
        ':',
    ) && list[i].len() > 0 by {
        assert(is_inner_name(list[i]));
    }
    lemma_joined_lacks(list, "/"@, '\\');
    lemma_joined_lacks(list, "/"@, ':');
    lemma_joined_ends(list, "/"@);
    assert(is_inner_name(list[0]));
    assert(list[0].contains(list[0][0]));
    lemma_parts_of_names(list);
    assert(paths::portable_parts(value) =~= paths::parts_of_pieces(list));
}

/// Two remotes are one repository exactly when their addresses are the same but for the white space around them, and
/// what a remote is recognised by ends with its whole address.
pub proof fn law_remotes_are_told_apart_by_their_whole_address(
    a: String,
    b: String,
    path_a: Result<String, String>,
    path_b: Result<String, String>,
    x: Result<String, String>,
    y: Result<String, String>,
)
    requires
        !text::is_blank(a@),
        !text::is_blank(b@),
        call_ensures(repository_identity, (Some(a), path_a), x),
        call_ensures(repository_identity, (Some(b), path_b), y),
    ensures
        x is Ok,
        y is Ok,
        x->Ok_0@ == y->Ok_0@ <==> text::trimmed(a@) == text::trimmed(b@),
        x->Ok_0@.len() >= text::trimmed(a@).len(),
        x->Ok_0@.skip(x->Ok_0@.len() - text::trimmed(a@).len()) == text::trimmed(a@),
        forall|lead: Seq<char>, core: Seq<char>, tail: Seq<char>|
            #![trigger text::is_blank(lead), text::is_tight(core), text::is_blank(tail)]
            a@ == lead + core + tail && text::is_blank(lead) && text::is_tight(core) && text::is_blank(tail)
                ==> x->Ok_0@ == "remote:"@ + core,
{
    let core_a = text::trimmed(a@);
    let core_b = text::trimmed(b@);
    let (l, c, t) = text::lemma_padding_of(a@);
    text::lemma_trimmed_of_padded(l, c, t);
    let (m, d, u) = text::lemma_padding_of(b@);
    text::lemma_trimmed_of_padded(m, d, u);
    assert(x->Ok_0@.skip(x->Ok_0@.len() - core_a.len()) =~= core_a);
    assert(y->Ok_0@.skip(y->Ok_0@.len() - core_b.len()) =~= core_b);
    assert forall|lead: Seq<char>, core: Seq<char>, tail: Seq<char>|
        #![trigger text::is_blank(lead), text::is_tight(core), text::is_blank(tail)]
        a@ == lead + core + tail && text::is_blank(lead) && text::is_tight(core) && text::is_blank(
            tail,
        ) implies x->Ok_0@ == "remote:"@ + core by {
        text::lemma_trimmed_of_padded(lead, core, tail);
    }
}

/// Repositories without a remote are one exactly when they lie in one place, and none of them is taken for one with
/// a remote. A blank address is no remote.
pub proof fn law_repositories_without_remote_are_told_apart_by_place(
    no_remote: Option<String>,
    nor_this: Option<String>,
    remote: String,
    p: String,
    q: String,
    path: Result<String, String>,
    x: Result<String, String>,
    y: Result<String, String>,
    z: Result<String, String>,
    w: Result<String, String>,
    error: String,
)
    requires
        no_remote matches Some(u) ==> text::is_blank(u@),
        nor_this matches Some(u) ==> text::is_blank(u@),
        !text::is_blank(remote@),
        call_ensures(repository_identity, (no_remote, Ok(p)), x),
        call_ensures(repository_identity, (nor_this, Ok(q)), y),
        call_ensures(repository_identity, (Some(remote), path), z),
        call_ensures(repository_identity, (no_remote, Err(error)), w),
    ensures
        x matches Ok(i) && i@ == "path:"@ + p@,
        y is Ok,
        x->Ok_0@ == y->Ok_0@ <==> p@ == q@,
        z is Ok,
        x->Ok_0@ != z->Ok_0@,
        w matches Err(e) && e@ == error@,
{
    if let Some(u) = no_remote {
        text::lemma_trimmed_of_blank(u@);
    }
    if let Some(u) = nor_this {
        text::lemma_trimmed_of_blank(u@);
    }
    let (l, c, t) = text::lemma_padding_of(remote@);
    text::lemma_trimmed_of_padded(l, c, t);
    reveal_strlit("path:");
    reveal_strlit("remote:");
    assert(("path:"@ + p@)[0] == 'p');
    assert(("remote:"@ + c)[0] == 'r');
    assert(("path:"@ + p@).skip(5) =~= p@);
    assert(("path:"@ + q@).skip(5) =~= q@);
}

// What becomes of a typed path and of a note.

proof fn lemma_naming_is_filter(list: Seq<Seq<char>>)
    ensures
        naming(list) == list.filter(|piece: Seq<char>| piece.len() > 0 && piece != "."@),
    decreases list.len(),
{
    reveal(Seq::filter);
    if list.len() > 0 {
        lemma_naming_is_filter(list.drop_last());
    } else {
        assert(list =~= Seq::empty());
    }
}

/// What `/` at both ends, white space around it, and pieces between `/` come to.
proof fn lemma_cleaned_of_pieces(
    path: Seq<char>,
    lead: Seq<char>,
    start: Seq<char>,
    list: Seq<Seq<char>>,
    end: Seq<char>,
    tail: Seq<char>,
)
    requires
        path == lead + (start + pieces::joined(list, seq!['/']) + end) + tail,
        text::is_blank(lead),
        text::is_tight(start + pieces::joined(list, seq!['/']) + end),
        text::is_blank(tail),
        forall|i: int| 0 <= i < start.len() ==> #[trigger] start[i] == '/',
        forall|i: int| 0 <= i < end.len() ==> #[trigger] end[i] == '/',
        list.len() > 0,
        list[0].len() > 0,
        list.last().len() > 0,
        forall|i: int| 0 <= i < list.len() ==> !(#[trigger] list[i]).contains('/') && !list[i].contains('\\'),
    ensures
        cleaned(path) == pieces::joined(list, seq!['/']),
        cleaned(path).len() > 0,
        pieces::split(cleaned(path), '/') == list,
{
    let core = pieces::joined(list, seq!['/']);
    let inner = start + core + end;
    text::lemma_trimmed_of_padded(lead, inner, tail);
    assert(!seq!['/'].contains('\\'));
    lemma_joined_lacks(list, seq!['/'], '\\');
    assert forall|i: int| 0 <= i < inner.len() implies inner[i] != '\\' by {
        if i < start.len() {
            assert(inner[i] == start[i]);
        } else if i < start.len() + core.len() {
            assert(core.contains(core[i - start.len()]));
        } else {
            assert(inner[i] == end[i - start.len() - core.len()]);
        }
    }
    assert(text::replaced(inner, '\\', '/') =~= inner);
    lemma_joined_outer(list, seq!['/']);
    assert(list[0].contains(list[0][0]));
    assert(list[list.len() - 1] == list.last());
    assert(list.last().contains(list.last()[list.last().len() - 1]));
    text::lemma_strip_of_padded(start, core, end, '/');
    pieces::lemma_split_of_joined(list, '/');
}

proof fn lemma_joined_outer(list: Seq<Seq<char>>, sep: Seq<char>)
    requires
        list.len() > 0,
        list[0].len() > 0,
        list.last().len() > 0,
    ensures
        pieces::joined(list, sep).len() > 0,
        pieces::joined(list, sep)[0] == list[0][0],
        pieces::joined(list, sep).last() == list.last().last(),
{
    if list.len() > 1 {
        pieces::lemma_joined_first(list, sep);
    }
}

/// The note of a folder is kept under its path below the repository: the pieces between `/`, less those that name
/// nothing, whatever white space and however many `/` stand around the path.
pub proof fn law_a_folder_keeps_its_path(
    path: &str,
    lead: Seq<char>,
    start: Seq<char>,
    list: Seq<Seq<char>>,
    end: Seq<char>,
    tail: Seq<char>,
    r: Result<String, String>,
)
    requires
        call_ensures(normalized_folder_path, (path,), r),
        path@ == lead + (start + pieces::joined(list, seq!['/']) + end) + tail,
        text::is_blank(lead),
        text::is_tight(start + pieces::joined(list, seq!['/']) + end),
        text::is_blank(tail),
        forall|i: int| 0 <= i < start.len() ==> #[trigger] start[i] == '/',
        forall|i: int| 0 <= i < end.len() ==> #[trigger] end[i] == '/',
        list.len() > 0,
        list[0].len() > 0,
        list.last().len() > 0,
        forall|i: int| 0 <= i < list.len() ==> !(#[trigger] list[i]).contains('/') && !list[i].contains('\\'),
    ensures
        ({
            let names = list.filter(|piece: Seq<char>| piece.len() > 0 && piece != "."@);
            let colon = exists|i: int| 0 <= i < list.len() && (#[trigger] list[i]).contains(':');
            &&& colon ==> (r matches Err(e) && e@ == "Personal note paths must be repository-relative"@)
            &&& !colon && list.contains(".."@) ==> (r matches Err(e) && e@
                == "Personal note paths cannot leave the repository"@)
            &&& !colon && !list.contains(".."@) && names.len() > 0 ==> (r matches Ok(kept) && kept@ == pieces::joined(
                names,
                seq!['/'],
            ))
            &&& !colon && !list.contains(".."@) && names.len() == 0 ==> (r matches Err(e) && e@
                == "Select a folder before adding a personal note"@)
        }),
{
    lemma_cleaned_of_pieces(path@, lead, start, list, end, tail);
    lemma_naming_is_filter(list);
    reveal_strlit("/");
    assert("/"@ =~= seq!['/']);
    let core = pieces::joined(list, seq!['/']);
    if exists|i: int| 0 <= i < list.len() && (#[trigger] list[i]).contains(':') {
        let i = choose|i: int| 0 <= i < list.len() && (#[trigger] list[i]).contains(':');
        pieces::lemma_split_pieces(core, '/');
        assert(pieces::split(core, '/')[i] == list[i]);
        if !core.contains(':') {
            assert(!list[i].contains(':'));
        }
    } else {
        assert(!seq!['/'].contains(':'));
        lemma_joined_lacks(list, seq!['/'], ':');
    }
}

/// A path of names is kept as it is.
pub proof fn law_plain_folder_paths_are_kept_as_they_are(path: &str, list: Seq<Seq<char>>, r: Result<String, String>)
    requires
        call_ensures(normalized_folder_path, (path,), r),
        path@ == pieces::joined(list, seq!['/']),
        text::is_tight(path@),
        list.len() > 0,
        forall|i: int| 0 <= i < list.len() ==> is_inner_name(#[trigger] list[i]),
    ensures
        r matches Ok(kept) && kept@ == path@,
{
    let nothing = Seq::<char>::empty();
    assert(is_inner_name(list[0]));
    assert(is_inner_name(list[list.len() - 1]));
    assert forall|i: int| 0 <= i < list.len() implies !(#[trigger] list[i]).contains('/') && !list[i].contains('\\')
        && !list[i].contains(':') && list[i].len() > 0 && list[i] != "."@ by {
        assert(is_inner_name(list[i]));
    }
    assert(nothing + path@ + nothing =~= path@);
    assert(nothing + (nothing + path@ + nothing) + nothing =~= path@);
    if list.contains(".."@) {
        let k = list.index_of(".."@);
        assert(is_inner_name(list[k]));
    }
    law_a_folder_keeps_its_path(path, nothing, nothing, list, nothing, nothing, r);
    lemma_naming_of_names(list);
    lemma_naming_is_filter(list);
}

/// No folder is meant by a blank path, nor by one of `/` alone.
pub proof fn law_blank_folder_paths_are_refused(
    path: &str,
    lead: Seq<char>,
    slashes: Seq<char>,
    tail: Seq<char>,
    r: Result<String, String>,
)
    requires
        call_ensures(normalized_folder_path, (path,), r),
        text::is_blank(lead),
        text::is_blank(tail),
        forall|i: int| 0 <= i < slashes.len() ==> #[trigger] slashes[i] == '/',
        path@ == lead + slashes + tail,
    ensures
        r matches Err(e) && e@ == "Select a folder before adding a personal note"@,
{
    if slashes.len() == 0 {
        assert forall|i: int| 0 <= i < path@.len() implies text::is_white_space(#[trigger] path@[i]) by {
            if i < lead.len() {
                assert(path@[i] == lead[i]);
            } else {
                assert(path@[i] == tail[i - lead.len()]);
            }
        }
        text::lemma_trimmed_of_blank(path@);
        assert(text::replaced(Seq::<char>::empty(), '\\', '/') =~= Seq::<char>::empty());
        text::lemma_strip_of_padded(Seq::empty(), Seq::empty(), Seq::empty(), '/');
        assert(Seq::<char>::empty() + Seq::<char>::empty() + Seq::<char>::empty() =~= Seq::<char>::empty());
    } else {
        assert(slashes[0] == '/' && slashes[slashes.len() - 1] == '/');
        text::lemma_trimmed_of_padded(lead, slashes, tail);
        assert(text::replaced(slashes, '\\', '/') =~= slashes);
        text::lemma_strip_of_padded(slashes, Seq::empty(), Seq::empty(), '/');
        assert(slashes + Seq::<char>::empty() + Seq::<char>::empty() =~= slashes);
    }
}

/// Setting a note changes the note of its folder alone: it is there without the white space around it, or gone where
/// it is blank. Deleting takes the note of its folder away and no other.
pub proof fn law_a_note_concerns_its_folder_alone(
    notes: TextMap<String>,
    key: String,
    name: &str,
    note: &str,
    lead: Seq<char>,
    core: Seq<char>,
    tail: Seq<char>,
    set: DrillDownNotes,
    deleted: DrillDownNotes,
    other: Seq<char>,
)
    requires
        notes.wf(),
        name@ == key@,
        call_ensures(set_drill_down_note, (Ok(notes), key, note), set),
        call_ensures(delete_drill_down_note, (Ok(notes), name), deleted),
        other != key@,
    ensures
        note@ == lead + core + tail && text::is_blank(lead) && text::is_tight(core) && text::is_blank(tail)
            ==> set.notes@.dom().contains(key@) && set.notes@[key@]@ == core,
        text::is_blank(note@) ==> !set.notes@.dom().contains(key@),
        set.notes@.dom().contains(other) <==> notes@.dom().contains(other),
        notes@.dom().contains(other) ==> set.notes@[other]@ == notes@[other]@,
        set.error is None,
        !deleted.notes@.dom().contains(key@),
        deleted.notes@.dom().contains(other) <==> notes@.dom().contains(other),
        notes@.dom().contains(other) ==> deleted.notes@[other]@ == notes@[other]@,
        deleted.error is None,
{
    let had = notes_view(notes@);
    let got = notes_view(set.notes@);
    let left = notes_view(deleted.notes@);
    assert(set.notes@.dom().contains(key@) == got.dom().contains(key@));
    assert(set.notes@.dom().contains(other) == got.dom().contains(other));
    assert(deleted.notes@.dom().contains(key@) == left.dom().contains(key@));
    assert(deleted.notes@.dom().contains(other) == left.dom().contains(other));
    assert(notes@.dom().contains(other) == had.dom().contains(other));
    if notes@.dom().contains(other) {
        assert(had[other] == notes@[other]@);
        assert(got[other] == set.notes@[other]@);
        assert(left[other] == deleted.notes@[other]@);
    }
    if note@ == lead + core + tail && text::is_blank(lead) && text::is_tight(core) && text::is_blank(tail) {
        text::lemma_trimmed_of_padded(lead, core, tail);
        assert(got[key@] == set.notes@[key@]@);
    }
    if text::is_blank(note@) {
        text::lemma_trimmed_of_blank(note@);
    }
}

/// A saved entry with a folder and a text puts that text, without the white space around it, in the place of what
/// entries before it said of the folder. One without either changes nothing.
pub proof fn law_the_last_entry_of_a_folder_counts(
    entries: &Vec<SavedNote>,
    more: &Vec<SavedNote>,
    last: SavedNote,
    path: &str,
    kept: Result<String, String>,
    lead: Seq<char>,
    core: Seq<char>,
    tail: Seq<char>,
    r: TextMap<String>,
    s: TextMap<String>,
    other: Seq<char>,
)
    requires
        more@ == entries@.push(last),
        path@ == last.path@,
        call_ensures(normalized_folder_path, (path,), kept),
        call_ensures(clean_notes, (entries,), r),
        call_ensures(clean_notes, (more,), s),
    ensures
        entries@.len() == 0 ==> !r@.dom().contains(other),
        kept is Ok && last.note@ == lead + core + tail && text::is_blank(lead) && text::is_tight(core) && text::is_blank(
            tail,
        ) ==> s@.dom().contains((kept->Ok_0)@) && s@[(kept->Ok_0)@]@ == core,
        kept is Err || text::is_blank(last.note@) || other != (kept->Ok_0)@ ==> {
            &&& s@.dom().contains(other) <==> r@.dom().contains(other)
            &&& r@.dom().contains(other) ==> s@[other]@ == r@[other]@
        },
{
    let view = entries_view(entries@);
    let longer = entries_view(more@);
    assert(longer.drop_last() =~= view);
    assert(longer.last() == saved_view(last));
    let a = notes_view(r@);
    let b = notes_view(s@);
    assert(r@.dom().contains(other) == a.dom().contains(other));
    assert(s@.dom().contains(other) == b.dom().contains(other));
    if r@.dom().contains(other) {
        assert(a[other] == r@[other]@);
    }
    if s@.dom().contains(other) {
        assert(b[other] == s@[other]@);
    }
    if text::is_blank(last.note@) {
        text::lemma_trimmed_of_blank(last.note@);
    }
    if kept is Ok && last.note@ == lead + core + tail && text::is_blank(lead) && text::is_tight(core) && text::is_blank(
        tail,
    ) {
        text::lemma_trimmed_of_padded(lead, core, tail);
        let key = (kept->Ok_0)@;
        assert(b.dom().contains(key));
        assert(s@.dom().contains(key));
        assert(b[key] == s@[key]@);
    }
}

/// The name of the file with the notes of a repository: sixteen hexadecimal digits and a fixed ending. The digits are
/// the 64-bit FNV-1a hash of what the repository is recognised by, which starts from the offset basis and takes each
/// byte in turn by exclusive or and multiplication with the FNV prime.
pub proof fn law_notes_files_are_named_by_the_fnv_hash(
    a: &str,
    b: &str,
    byte: u8,
    hash_a: String,
    hash_b: String,
    name: String,
)
    requires
        call_ensures(stable_hash, (a,), hash_a),
        call_ensures(stable_hash, (b,), hash_b),
        call_ensures(notes_file_name, (a,), name),
    ensures
        hash_a@.len() == 16,
        forall|i: int| 0 <= i < 16 ==> ('0' <= #[trigger] hash_a@[i] <= '9' || 'a' <= hash_a@[i] <= 'f'),
        a@.len() == 0 ==> numerals::value_of(hash_a@, 16) == 0xcbf29ce484222325,
        encode_utf8(b@) == encode_utf8(a@).push(byte) ==> numerals::value_of(hash_b@, 16) == (((numerals::value_of(
            hash_a@,
            16,
        ) as u64) ^ (byte as u64)) * 0x100000001b3) % 0x1_0000_0000_0000_0000,
        name@ == hash_a@ + ".drill-down-notes.json"@,
{
    let x = fnv(encode_utf8(a@));
    let y = fnv(encode_utf8(b@));
    numerals::lemma_hex_value(x as nat, 16);
    numerals::lemma_hex_value(y as nat, 16);
    assert(vstd::arithmetic::power::pow(16, 16) == 0x1_0000_0000_0000_0000) by {
        reveal_with_fuel(vstd::arithmetic::power::pow, 17);
    }
    if encode_utf8(b@) == encode_utf8(a@).push(byte) {
        assert(encode_utf8(b@).drop_last() =~= encode_utf8(a@));
        assert(encode_utf8(b@).last() == byte);
        assert(y == (x ^ (byte as u64)).wrapping_mul(0x100000001b3));
    }
}

/// Where notes are kept: in the folder that the override names, or else below the platform's folder for application
/// data, or else below the folder for temporary files.
pub proof fn law_notes_are_kept_where_the_platform_says(platform: Platform, set: Variables, r: (NotesBase, Vec<String>))
    requires
        call_ensures(app_data_root, (platform, set), r),
    ensures
        set.override_folder <==> r.0 == NotesBase::Override,
        set.override_folder ==> r.1@.len() == 0,
        !set.override_folder ==> r.1@.len() >= 2 && r.1@[r.1@.len() - 2]@ == "Git DrillDown"@ && r.1@.last()@ == "notes"@,
        r.0 == NotesBase::AppData <==> !set.override_folder && platform == Platform::Windows && set.app_data,
        r.0 == NotesBase::XdgDataHome <==> !set.override_folder && platform == Platform::Other && set.xdg_data_home,
        r.0 == NotesBase::Home <==> !set.override_folder && set.home && (platform == Platform::MacOs || platform
            == Platform::Other && !set.xdg_data_home),
        r.0 == NotesBase::Home && platform == Platform::MacOs ==> r.1@.len() == 4 && r.1@[0]@ == "Library"@ && r.1@[1]@
            == "Application Support"@,
        r.0 == NotesBase::Home && platform == Platform::Other ==> r.1@.len() == 4 && r.1@[0]@ == ".local"@ && r.1@[1]@
            == "share"@,
        r.0 != NotesBase::Home && r.0 != NotesBase::Override ==> r.1@.len() == 2,
{
    let view = text::texts_view(r.1@);
    assert(view.len() == r.1@.len());
    if r.1@.len() >= 2 {
        assert(view[0] == r.1@[0]@);
        assert(view[1] == r.1@[1]@);
        assert(view[view.len() - 2] == r.1@[r.1@.len() - 2]@);
        assert(view[view.len() - 1] == r.1@[r.1@.len() - 1]@);
    }
}

/// The address of the remote `origin` comes first; another remote counts only where there is no `origin`.
pub proof fn law_origin_comes_first(origin: Option<Option<String>>, first: Option<Option<String>>, r: Option<String>)
    requires
        call_ensures(first_remote_url, (origin, first), r),
    ensures
        origin is Some ==> r == origin->0,
        origin is None && first is Some ==> r == first->0,
        origin is None && first is None ==> r is None,
{
}

/// The file of a repository's notes is removed exactly where there are none, and otherwise written next to its place and
/// then given its name; only what stands in the way of that name is removed, and the last attempt decides.
pub proof fn law_notes_are_written_next_to_their_place(
    a: &mut NotesWrite,
    b: &mut NotesWrite,
    c: &mut NotesWrite,
    d: &mut NotesWrite,
    e: &mut NotesWrite,
    written: Result<(), String>,
    renamed: Result<(), String>,
    occupied: bool,
    removed: Result<(), String>,
    again: Result<(), String>,
)
    requires
        old(a).wf(),
        old(a).step is CreateFolder,
        call_ensures(NotesWrite::folder_created, (a, Ok(())), ()),
        !old(a).empty ==> *old(b) == *final(a) && call_ensures(NotesWrite::temporary_written, (b, written), ()),
        !old(a).empty && written is Ok ==> *old(c) == *final(b) && call_ensures(
            NotesWrite::renamed,
            (c, renamed, occupied),
            (),
        ),
        !old(a).empty && written is Ok && renamed is Err && occupied ==> *old(d) == *final(c) && call_ensures(
            NotesWrite::old_removed,
            (d, removed),
            (),
        ),
        !old(a).empty && written is Ok && renamed is Err && occupied && removed is Ok ==> *old(e) == *final(d)
            && call_ensures(NotesWrite::renamed_again, (e, again), ()),
    ensures
        old(a).empty ==> final(a).step is RemoveEmpty,
        !old(a).empty ==> final(a).step is WriteTemporary,
        !old(a).empty && written is Err ==> final(b).failed((written->Err_0)@),
        !old(a).empty && written is Ok && renamed is Ok ==> final(c).succeeded(),
        !old(a).empty && written is Ok && renamed is Err && !occupied ==> final(c).failed((renamed->Err_0)@),
        !old(a).empty && written is Ok && renamed is Err && occupied && removed is Err ==> final(d).failed(
            (renamed->Err_0)@ + "; cleanup failed: "@ + (removed->Err_0)@,
        ),
        !old(a).empty && written is Ok && renamed is Err && occupied && removed is Ok && again is Ok ==>
            final(e).succeeded(),
        !old(a).empty && written is Ok && renamed is Err && occupied && removed is Ok && again is Err ==> final(e).failed(
            (again->Err_0)@,
        ),
{
}

/// Notes that were read are handed out as they are; where they could not be read none are, and the reason is told.
pub proof fn law_unreadable_notes_are_reported(
    notes: TextMap<String>,
    error: String,
    r: DrillDownNotes,
    s: DrillDownNotes,
    key: Seq<char>,
)
    requires
        notes.wf(),
        call_ensures(load_drill_down_notes, (Ok(notes),), r),
        call_ensures(load_drill_down_notes, (Err(error),), s),
    ensures
        r.error is None,
        r.notes@ == notes@,
        s.error matches Some(e) && e@ == "Personal notes could not be loaded: "@ + error@,
        !s.notes@.dom().contains(key),
{
}

/// Only a folder is given a note; what could not be inspected is told as it was, and a path that starts at the root is
/// refused.
pub proof fn law_only_folders_take_notes(normalized: &str, inspected: Result<EntryType, String>, r: Result<(), String>)
    requires
        call_ensures(ensure_existing_folder, (normalized, inspected), r),
        paths::is_portable(normalized@),
    ensures
        inspected matches Err(error) ==> (r matches Err(e) && e@ == error@),
        inspected is Ok && inspected->Ok_0 != EntryType::Directory ==> (r matches Err(e) && e@
            == "Personal notes are available for folders only"@),
        inspected is Ok && inspected->Ok_0 == EntryType::Directory && normalized@.len() > 0 && normalized@[0] == '/' ==> (
        r matches Err(e) && e@ == "Personal note paths must be repository-relative"@),
{
    if normalized@.len() > 0 && normalized@[0] == '/' {
        assert(paths::portable_parts(normalized@)[0] is RootDir);
    }
}

/// Notes that cannot be read stand in the way of no new note: it is then the only one.
pub proof fn law_a_note_can_be_set_where_none_can_be_read(
    error: String,
    key: String,
    note: &str,
    lead: Seq<char>,
    core: Seq<char>,
    tail: Seq<char>,
    r: DrillDownNotes,
    other: Seq<char>,
)
    requires
        call_ensures(set_drill_down_note, (Err(error), key, note), r),
        note@ == lead + core + tail,
        text::is_blank(lead),
        text::is_tight(core),
        text::is_blank(tail),
    ensures
        r.notes@.dom().contains(other) <==> other == key@,
        r.notes@[key@]@ == core,
        r.error is None,
{
    text::lemma_trimmed_of_padded(lead, core, tail);
    let got = notes_view(r.notes@);
    assert(r.notes@.dom().contains(other) == got.dom().contains(other));
    assert(r.notes@.dom().contains(key@) == got.dom().contains(key@));
    assert(got[key@] == r.notes@[key@]@);
}

/// The notes of a file are those of its entries; without a file there are none, and what kept it from being read is told.
pub proof fn law_notes_are_those_of_the_file(
    entries: Vec<SavedNote>,
    error: String,
    cleaned: TextMap<String>,
    r: Result<TextMap<String>, String>,
    s: Result<TextMap<String>, String>,
    t: Result<TextMap<String>, String>,
    key: Seq<char>,
)
    requires
        call_ensures(clean_notes, (&entries,), cleaned),
        call_ensures(read_notes_file, (Ok(Some(entries)),), r),
        call_ensures(read_notes_file, (Ok(None::<Vec<SavedNote>>),), s),
        call_ensures(read_notes_file, (Err(error),), t),
    ensures
        r is Ok,
        (r->Ok_0)@.dom().contains(key) <==> cleaned@.dom().contains(key),
        cleaned@.dom().contains(key) ==> (r->Ok_0)@[key]@ == cleaned@[key]@,
        s is Ok && !(s->Ok_0)@.dom().contains(key),
        t matches Err(e) && e@ == error@,
{
    let a = notes_view((r->Ok_0)@);
    let b = notes_view(cleaned@);
    assert((r->Ok_0)@.dom().contains(key) == a.dom().contains(key));
    assert(cleaned@.dom().contains(key) == b.dom().contains(key));
    if b.dom().contains(key) {
        assert(a[key] == (r->Ok_0)@[key]@);
        assert(b[key] == cleaned@[key]@);
    }
    let none = notes_view((s->Ok_0)@);
    assert((s->Ok_0)@.dom().contains(key) == none.dom().contains(key));
}

} // verus!
