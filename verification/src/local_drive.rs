//! Rules of the local file browser.
pub mod browsing;
pub mod comparison;
pub mod copying;
pub mod editing;
pub mod encoding;
pub mod guided;
pub mod merge;
pub mod utf16;

use crate::text;
use vstd::prelude::*;
use vstd::string::*;

verus! {

/// The size in bytes up to which a file is opened as text.
pub const MAX_LOCAL_TEXT_BYTES: u64 = 2_097_152;

/// What the file system says of an item, without following links.
#[derive(Clone, Copy, PartialEq, Eq, Structural)]
pub enum EntryType {
    Symlink,
    Directory,
    File { bytes: u64 },
    /// Neither a link nor a folder nor a regular file.
    Other,
}

/// An item of a listed folder.
pub struct LocalDriveEntry {
    pub name: String,
    pub path: String,
    pub kind: String,
    pub size: u64,
    pub modified: u64,
}

/// A listed folder.
pub struct LocalDriveDirectory {
    pub path: String,
    pub parent: Option<String>,
    pub entries: Vec<LocalDriveEntry>,
}

/// What a copy has made.
#[derive(Debug)]
pub struct LocalCopyResult {
    pub destination: String,
    pub files: u64,
    pub directories: u64,
    pub bytes: u64,
}

/// A file that was opened as text.
pub struct LocalTextFile {
    pub path: String,
    pub content: String,
    pub bytes: u64,
    pub encoding: String,
}

/// What a copy has made, by its characters and numbers.
pub struct CopyTotals {
    pub destination: Seq<char>,
    pub files: u64,
    pub directories: u64,
    pub bytes: u64,
}

impl View for LocalCopyResult {
    type V = CopyTotals;

    open spec fn view(&self) -> CopyTotals {
        CopyTotals {
            destination: self.destination@,
            files: self.files,
            directories: self.directories,
            bytes: self.bytes,
        }
    }
}

/// A fallible copy by its characters and numbers.
pub open spec fn copy_view(r: Result<LocalCopyResult, String>) -> Result<CopyTotals, Seq<char>> {
    match r {
        Ok(made) => Ok(made@),
        Err(e) => Err(e@),
    }
}

/// What is answered for a folder that has to exist. `opened` says whether the path leads to a folder.
pub open spec fn folder_answer(requested: Seq<char>, opened: Result<bool, Seq<char>>) -> Result<(), Seq<char>> {
    match opened {
        Err(error) => Err(cannot_open(requested, error)),
        Ok(false) => Err("'"@ + requested + "' is not a folder"@),
        Ok(true) => Ok(()),
    }
}

/// The message for a path that cannot be opened.
pub open spec fn cannot_open(path: Seq<char>, error: Seq<char>) -> Seq<char> {
    "Cannot open '"@ + path + "': "@ + error
}

/// The message for a path that cannot be opened.
pub fn cannot_open_message(path: &str, error: &str) -> (r: String)
    ensures
        r@ == cannot_open(path@, error@),
{
    let mut r: String = text::framed("Cannot open '", path, "': ");
    r.append(error);
    r
}

/// The message for a path that cannot be read.
pub open spec fn cannot_read(path: Seq<char>, error: Seq<char>) -> Seq<char> {
    "Cannot read '"@ + path + "': "@ + error
}

/// The message for a path that cannot be read.
pub fn cannot_read_message(path: &str, error: &str) -> (r: String)
    ensures
        r@ == cannot_read(path@, error@),
{
    let mut r: String = text::framed("Cannot read '", path, "': ");
    r.append(error);
    r
}

/// A fallible answer of yes or no by the characters of its error.
pub open spec fn opened_view(opened: Result<bool, String>) -> Result<bool, Seq<char>> {
    match opened {
        Ok(yes) => Ok(yes),
        Err(e) => Err(e@),
    }
}

/// Answers for a folder that has to exist. `opened` says whether the path leads to a folder.
pub fn existing_directory(requested: &str, opened: Result<bool, String>) -> (r: Result<(), String>)
    ensures
        text::unit_view(r) == folder_answer(requested@, opened_view(opened)),
{
    match opened {
        Err(error) => Err(cannot_open_message(requested, error.as_str())),
        Ok(false) => Err(text::framed("'", requested, "' is not a folder")),
        Ok(true) => Ok(()),
    }
}

/// What the file system answered about an item, by the characters of its error.
pub open spec fn inspected_view(inspected: Result<EntryType, String>) -> Result<EntryType, Seq<char>> {
    match inspected {
        Ok(entry) => Ok(entry),
        Err(e) => Err(e@),
    }
}

/// A folder that has to exist passes exactly when its path leads to a folder; otherwise the answer names the path as it
/// was asked for.
pub proof fn law_folders_have_to_exist(
    requested: &str,
    error: String,
    leads: bool,
    r: Result<(), String>,
    s: Result<(), String>,
)
    requires
        call_ensures(existing_directory, (requested, Ok(leads)), r),
        call_ensures(existing_directory, (requested, Err(error)), s),
    ensures
        r is Ok <==> leads,
        r matches Err(e) ==> e@ == "'"@ + requested@ + "' is not a folder"@,
        s matches Err(e) && e@ == "Cannot open '"@ + requested@ + "': "@ + error@,
{
}

} // verus!
