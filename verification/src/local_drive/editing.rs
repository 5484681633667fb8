//! Opening and saving files as text.
use crate::local_drive;
use crate::local_drive::encoding;
use crate::local_drive::EntryType;
use crate::local_drive::LocalTextFile;
use crate::local_drive::MAX_LOCAL_TEXT_BYTES;
use crate::paths;
use crate::paths::PathPart;
use crate::text;
use vstd::prelude::*;
use vstd::string::*;
use vstd::utf8::*;

verus! {

/// The message for a file that is too large to be opened as text.
pub open spec fn too_large() -> Seq<char> {
    "The built-in viewer/editor supports text files up to 2 MB"@
}

/// What is answered for a file that is to be opened as text: its size, unless it is refused.
pub open spec fn editable_answer(
    path: Seq<char>,
    protected: bool,
    inspected: Result<EntryType, Seq<char>>,
) -> Result<u64, Seq<char>> {
    if protected {
        Err("Git metadata (.git) is protected in Local Drive"@)
    } else {
        match inspected {
            Err(error) => Err(local_drive::cannot_open(path, error)),
            Ok(EntryType::Symlink) => Err("Symbolic links cannot be viewed or edited here"@),
            Ok(EntryType::File { bytes }) => if bytes > MAX_LOCAL_TEXT_BYTES {
                Err(too_large())
            } else {
                Ok(bytes)
            },
            Ok(_) => Err("Select a regular file first"@),
        }
    }
}

/// A size by the characters of its error.
pub open spec fn size_view(r: Result<u64, String>) -> Result<u64, Seq<char>> {
    match r {
        Ok(bytes) => Ok(bytes),
        Err(e) => Err(e@),
    }
}

/// Answers for a file that is to be opened as text, once the platform has split its path into `parts`.
pub fn answer_editable(path: &str, parts: &Vec<PathPart>, inspected: Result<EntryType, String>) -> (r: Result<
    u64,
    String,
>)
    ensures
        size_view(r) == editable_answer(
            path@,
            paths::mentions_git(paths::parts_view(parts@)),
            local_drive::inspected_view(inspected),
        ),
{
    if paths::any_git_part(parts) {
        return Err("Git metadata (.git) is protected in Local Drive".to_owned());
    }
    match inspected {
        Err(error) => Err(local_drive::cannot_open_message(path, error.as_str())),
        Ok(EntryType::Symlink) => Err("Symbolic links cannot be viewed or edited here".to_owned()),
        Ok(EntryType::File { bytes }) => if bytes > MAX_LOCAL_TEXT_BYTES {
            Err("The built-in viewer/editor supports text files up to 2 MB".to_owned())
        } else {
            Ok(bytes)
        },
        Ok(_) => Err("Select a regular file first".to_owned()),
    }
}

/// Checks a file that is to be opened as text, whose path is absolute: it is a regular file of at most
/// two mebibytes and does not belong to Git.
pub fn existing_editable_file(path: &str, inspected: Result<EntryType, String>) -> (r: Result<u64, String>)
    ensures
        paths::is_portable(path@) ==> size_view(r) == editable_answer(
            path@,
            paths::mentions_git(paths::portable_parts(path@)),
            local_drive::inspected_view(inspected),
        ),
        !paths::holds_git(path@) ==> size_view(r) == editable_answer(
            path@,
            false,
            local_drive::inspected_view(inspected),
        ),
        exists|parts: Seq<paths::Part>| #[trigger]
            paths::told_parts(path@, parts) && size_view(r) == editable_answer(
                path@,
                paths::mentions_git(parts),
                local_drive::inspected_view(inspected),
            ),
{
    let parts: Vec<PathPart> = paths::ask_parts(path);
    proof {
        paths::law_told_parts(path@, paths::parts_view(parts@));
        if !paths::holds_git(path@) {
            paths::law_paths_without_git_are_not_protected(path@, paths::parts_view(parts@));
        }
    }
    answer_editable(path, &parts, inspected)
}

/// Opens the file at `path`, whose size was `size` and whose contents were to be read, as text.
pub fn read_local_text_file_inner(path: &str, size: u64, contents: Result<Vec<u8>, String>) -> (r: Result<
    LocalTextFile,
    String,
>)
    ensures
        match contents {
            Err(error) => r matches Err(e) && e@ == local_drive::cannot_read(path@, error@),
            Ok(bytes) => match encoding::read_text(bytes@) {
                Err(message) => r matches Err(e) && e@ == message,
                Ok((content, name)) => r matches Ok(file) && file.path@ == path@ && file.bytes == size
                    && file.content@ == content && file.encoding@ == name,
            },
        },
{
    match contents {
        Err(error) => Err(local_drive::cannot_read_message(path, error.as_str())),
        Ok(bytes) => match encoding::decode_local_text(bytes) {
            Err(message) => Err(message),
            Ok((content, name)) => Ok(
                LocalTextFile { path: path.to_owned(), bytes: size, content, encoding: name.to_owned() },
            ),
        },
    }
}

/// The bytes that are saved for a text, in the encoding of the file or else in UTF-8.
pub open spec fn saved_bytes(content: Seq<char>, encoding: Option<Seq<char>>) -> Result<Seq<u8>, Seq<char>> {
    let name = match encoding {
        Some(e) => e,
        None => "utf-8"@,
    };
    match encoding::write_text(content, name) {
        Err(message) => Err(message),
        Ok(bytes) => if bytes.len() > MAX_LOCAL_TEXT_BYTES {
            Err(too_large())
        } else {
            Ok(bytes)
        },
    }
}

/// The bytes that are saved for a text, in the encoding of the file or else in UTF-8.
pub fn plan_save(content: &str, encoding: &Option<String>) -> (r: Result<Vec<u8>, String>)
    ensures
        encoding::bytes_view(r) == saved_bytes(content@, text::opt_view(*encoding)),
{
    let encoded: Result<Vec<u8>, String> = match encoding {
        Some(name) => encoding::encode_local_text(content, name.as_str()),
        None => encoding::encode_local_text(content, "utf-8"),
    };
    match encoded {
        Err(message) => Err(message),
        Ok(bytes) => if bytes.len() as u64 > MAX_LOCAL_TEXT_BYTES {
            Err("The built-in viewer/editor supports text files up to 2 MB".to_owned())
        } else {
            Ok(bytes)
        },
    }
}

/// How far saving a file came.
pub enum SaveOutcome {
    /// The file could not be opened for writing.
    NotOpened { error: String },
    /// The bytes could not all be written.
    NotWritten { error: String },
    Saved,
}

/// Answers for a file that was to be saved.
pub fn finish_save(path: &str, outcome: SaveOutcome) -> (r: Result<(), String>)
    ensures
        text::unit_view(r) == match outcome {
            SaveOutcome::NotOpened { error } => Err::<(), Seq<char>>(
                "Cannot edit '"@ + path@ + "': "@ + error@,
            ),
            SaveOutcome::NotWritten { error } => Err(
                "Could not finish saving '"@ + path@ + "': "@ + error@,
            ),
            SaveOutcome::Saved => Ok(()),
        },
{
    match outcome {
        SaveOutcome::NotOpened { error } => {
            let mut message: String = text::framed("Cannot edit '", path, "': ");
            message.append(error.as_str());
            Err(message)
        },
        SaveOutcome::NotWritten { error } => {
            let mut message: String = text::framed("Could not finish saving '", path, "': ");
            message.append(error.as_str());
            Err(message)
        },
        SaveOutcome::Saved => Ok(()),
    }
}

/// Saving what was opened, in the encoding in which it was found, keeps the bytes of the file.
pub proof fn law_saving_what_was_opened_keeps_the_file(bytes: Seq<u8>)
    requires
        encoding::read_text(bytes) is Ok,
        bytes.len() <= MAX_LOCAL_TEXT_BYTES,
    ensures
        ({
            let (content, name) = encoding::read_text(bytes)->Ok_0;
            saved_bytes(content, Some(name)) == Ok::<Seq<u8>, Seq<char>>(bytes)
        }),
{
    encoding::law_saving_unchanged_text_keeps_the_bytes(bytes);
}

/// A file is opened as text exactly when it does not belong to Git and is a regular file of at most two mebibytes; each
/// other kind of item is refused by its own message.
pub proof fn law_regular_files_up_to_two_mebibytes_are_opened(
    path: &str,
    parts: &Vec<PathPart>,
    inspected: Result<EntryType, String>,
    protected: bool,
    r: Result<u64, String>,
)
    requires
        call_ensures(paths::any_git_part, (parts,), protected),
        call_ensures(answer_editable, (path, parts, inspected), r),
    ensures
        r is Ok <==> !protected && (inspected matches Ok(EntryType::File { bytes }) && bytes <= 2 * 1024 * 1024),
        r matches Ok(size) ==> (inspected matches Ok(EntryType::File { bytes }) && bytes == size),
        protected ==> (r matches Err(e) && e@ == "Git metadata (.git) is protected in Local Drive"@),
        !protected && inspected is Err ==> (r matches Err(e) && e@ == "Cannot open '"@ + path@ + "': "@ + (
        inspected->Err_0)@),
        !protected && (inspected matches Ok(EntryType::Symlink)) ==> (r matches Err(e) && e@
            == "Symbolic links cannot be viewed or edited here"@),
        !protected && (inspected matches Ok(EntryType::File { bytes }) && bytes > 2 * 1024 * 1024) ==> (r matches Err(e)
            && e@ == "The built-in viewer/editor supports text files up to 2 MB"@),
        !protected && (inspected matches Ok(EntryType::Directory) || inspected matches Ok(EntryType::Other)) ==> (
        r matches Err(e) && e@ == "Select a regular file first"@),
{
}

/// An opened file holds the text and the encoding that its bytes were decoded to, under its own path and size.
pub proof fn law_an_opened_file_holds_what_was_decoded(
    path: &str,
    size: u64,
    bytes: Vec<u8>,
    error: String,
    decoded: Result<(String, &'static str), String>,
    r: Result<LocalTextFile, String>,
    s: Result<LocalTextFile, String>,
)
    requires
        call_ensures(encoding::decode_local_text, (bytes,), decoded),
        call_ensures(read_local_text_file_inner, (path, size, Ok(bytes)), r),
        call_ensures(read_local_text_file_inner, (path, size, Err(error)), s),
    ensures
        r is Ok <==> decoded is Ok,
        r matches Ok(file) ==> file.path@ == path@ && file.bytes == size && file.content@ == (decoded->Ok_0).0@
            && file.encoding@ == (decoded->Ok_0).1@,
        r matches Err(e) ==> e@ == (decoded->Err_0)@,
        s matches Err(e) && e@ == "Cannot read '"@ + path@ + "': "@ + error@,
{
}

/// A text is saved in the encoding of its file, or in UTF-8 where none is known, byte for byte as it was encoded, unless
/// that is more than two mebibytes.
pub proof fn law_a_text_is_saved_as_it_was_encoded(
    content: &str,
    name: String,
    called: &str,
    encoded: Result<Vec<u8>, String>,
    r: Result<Vec<u8>, String>,
    s: Result<Vec<u8>, String>,
)
    requires
        called@ == name@,
        call_ensures(encoding::encode_local_text, (content, called), encoded),
        call_ensures(plan_save, (content, &Some(name)), r),
        call_ensures(plan_save, (content, &None::<String>), s),
    ensures
        encoded is Ok && (encoded->Ok_0)@.len() <= 2 * 1024 * 1024 ==> (r matches Ok(bytes) && bytes@ == (
        encoded->Ok_0)@),
        encoded is Ok && (encoded->Ok_0)@.len() > 2 * 1024 * 1024 ==> (r matches Err(e) && e@
            == "The built-in viewer/editor supports text files up to 2 MB"@),
        encoded is Err ==> (r matches Err(e) && e@ == (encoded->Err_0)@),
        encode_utf8(content@).len() <= 2 * 1024 * 1024 ==> (s matches Ok(bytes) && bytes@ == encode_utf8(content@)),
        encode_utf8(content@).len() > 2 * 1024 * 1024 ==> s is Err,
{
}

/// Saving ends well exactly when everything was written, and otherwise tells how far it came.
pub proof fn law_saving_tells_how_far_it_came(
    path: &str,
    error: String,
    saved: Result<(), String>,
    not_opened: Result<(), String>,
    not_written: Result<(), String>,
)
    requires
        call_ensures(finish_save, (path, SaveOutcome::Saved), saved),
        call_ensures(finish_save, (path, (SaveOutcome::NotOpened { error })), not_opened),
        call_ensures(finish_save, (path, (SaveOutcome::NotWritten { error })), not_written),
    ensures
        saved is Ok,
        not_opened matches Err(e) && e@ == "Cannot edit '"@ + path@ + "': "@ + error@,
        not_written matches Err(e) && e@ == "Could not finish saving '"@ + path@ + "': "@ + error@,
{
}

} // verus!
