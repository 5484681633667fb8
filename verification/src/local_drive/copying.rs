//! Copying, moving and deleting items.
use crate::local_drive;
use crate::local_drive::EntryType;
use crate::local_drive::LocalCopyResult;
use crate::paths;
use crate::paths::PathPart;
use crate::text;
use vstd::prelude::*;
use vstd::string::*;

verus! {

/// The message for an item that is already there.
pub open spec fn already_exists(destination: Seq<char>) -> Seq<char> {
    "'"@ + destination + "' already exists — nothing was overwritten"@
}

/// The message for an item that could not be created; `occupied` says whether one is there.
pub open spec fn cannot_create(destination: Seq<char>, error: Seq<char>, occupied: bool) -> Seq<char> {
    if occupied {
        already_exists(destination)
    } else {
        "Cannot create '"@ + destination + "': "@ + error
    }
}

fn already_exists_message(destination: &str) -> (r: String)
    ensures
        r@ == already_exists(destination@),
{
    text::framed("'", destination, "' already exists — nothing was overwritten")
}

fn cannot_create_message(destination: &str, error: &str, occupied: bool) -> (r: String)
    ensures
        r@ == cannot_create(destination@, error@, occupied),
{
    if occupied {
        already_exists_message(destination)
    } else {
        let mut r: String = text::framed("Cannot create '", destination, "': ");
        r.append(error);
        r
    }
}

fn described(before: &str, path: &str, error: &str) -> (r: String)
    ensures
        r@ == before@ + path@ + "': "@ + error@,
{
    let mut r: String = text::framed(before, path, "': ");
    r.append(error);
    r
}

// Copying one file.

/// What a file copy does next.
pub enum FileStep {
    /// Open the source for reading.
    OpenSource,
    /// Create the destination, which must not exist.
    CreateDestination,
    /// Copy the contents.
    Transfer,
    /// Write out what is still buffered.
    Flush { bytes: u64 },
    /// Give the destination the permissions of the source, if that is possible.
    CopyPermissions { bytes: u64 },
    /// Remove the destination, if that is possible.
    RemoveDestination { error: String },
    /// Nothing more.
    Done { result: Result<u64, String> },
}

/// The number of bytes that a file copy has made, by the characters of its error.
pub open spec fn bytes_view(r: Result<u64, String>) -> Result<u64, Seq<char>> {
    match r {
        Ok(bytes) => Ok(bytes),
        Err(e) => Err(e@),
    }
}

/// The copy of one file.
pub struct FileCopy {
    pub source: String,
    pub destination: String,
    pub step: FileStep,
    /// Whether this copy has created the destination and not removed it again.
    pub present: bool,
}

impl FileCopy {
    /// The destination of this copy is there while the copy works on it and once it has succeeded, and
    /// at no other time.
    pub open spec fn wf(&self) -> bool {
        self.present == match self.step {
            FileStep::OpenSource | FileStep::CreateDestination => false,
            FileStep::Transfer | FileStep::Flush { .. } | FileStep::CopyPermissions { .. } => true,
            FileStep::RemoveDestination { .. } => true,
            FileStep::Done { result } => result is Ok,
        }
    }

    /// Whether both copies are of the same file to the same destination.
    pub open spec fn same_job(&self, other: &FileCopy) -> bool {
        self.source@ == other.source@ && self.destination@ == other.destination@
    }

    /// A copy that has not begun.
    pub fn new(source: String, destination: String) -> (r: Self)
        ensures
            r.wf(),
            r.source == source,
            r.destination == destination,
            r.step is OpenSource,
    {
        FileCopy { source, destination, step: FileStep::OpenSource, present: false }
    }

    /// Goes on after the source was to be opened.
    pub fn source_opened(&mut self, opened: Result<(), String>)
        requires
            old(self).wf(),
            old(self).step is OpenSource,
        ensures
            final(self).wf(),
            final(self).same_job(old(self)),
            match opened {
                Ok(_) => final(self).step is CreateDestination,
                Err(error) => final(self).step matches FileStep::Done { result } && bytes_view(result)
                    == Err::<u64, Seq<char>>(local_drive::cannot_read(old(self).source@, error@)),
            },
    {
        match opened {
            Ok(_) => {
                self.step = FileStep::CreateDestination;
            },
            Err(error) => {
                let message: String = local_drive::cannot_read_message(self.source.as_str(), error.as_str());
                self.step = FileStep::Done { result: Err(message) };
            },
        }
    }

    /// Goes on after the destination was to be created; `occupied` says whether something is there.
    pub fn destination_created(&mut self, created: Result<(), String>, occupied: bool)
        requires
            old(self).wf(),
            old(self).step is CreateDestination,
        ensures
            final(self).wf(),
            final(self).same_job(old(self)),
            match created {
                Ok(_) => final(self).step is Transfer,
                Err(error) => final(self).step matches FileStep::Done { result } && bytes_view(result)
                    == Err::<u64, Seq<char>>(cannot_create(old(self).destination@, error@, occupied)),
            },
    {
        match created {
            Ok(_) => {
                self.present = true;
                self.step = FileStep::Transfer;
            },
            Err(error) => {
                let message: String = cannot_create_message(
                    self.destination.as_str(),
                    error.as_str(),
                    occupied,
                );
                self.step = FileStep::Done { result: Err(message) };
            },
        }
    }

    /// Goes on after the contents were to be copied.
    pub fn transferred(&mut self, copied: Result<u64, String>)
        requires
            old(self).wf(),
            old(self).step is Transfer,
        ensures
            final(self).wf(),
            final(self).same_job(old(self)),
            match copied {
                Ok(n) => final(self).step matches FileStep::Flush { bytes } && bytes == n,
                Err(error) => final(self).step matches FileStep::RemoveDestination { error: message }
                    && message@ == "Copy failed for '"@ + old(self).source@ + "': "@ + error@,
            },
    {
        match copied {
            Ok(bytes) => {
                self.step = FileStep::Flush { bytes };
            },
            Err(error) => {
                let message: String = described("Copy failed for '", self.source.as_str(), error.as_str());
                self.step = FileStep::RemoveDestination { error: message };
            },
        }
    }

    /// Goes on after the rest was to be written out.
    pub fn flushed(&mut self, written: Result<(), String>)
        requires
            old(self).wf(),
            old(self).step is Flush,
        ensures
            final(self).wf(),
            final(self).same_job(old(self)),
            match written {
                Ok(_) => final(self).step matches FileStep::CopyPermissions { bytes } && bytes
                    == old(self).step->Flush_bytes,
                Err(error) => final(self).step matches FileStep::RemoveDestination { error: message }
                    && message@ == "Copy failed while finishing '"@ + old(self).source@ + "': "@ + error@,
            },
    {
        if let FileStep::Flush { bytes } = &self.step {
            let bytes: u64 = *bytes;
            match written {
                Ok(_) => {
                    self.step = FileStep::CopyPermissions { bytes };
                },
                Err(error) => {
                    let message: String = described(
                        "Copy failed while finishing '",
                        self.source.as_str(),
                        error.as_str(),
                    );
                    self.step = FileStep::RemoveDestination { error: message };
                },
            }
        }
    }

    /// Goes on after the permissions were to be copied.
    pub fn permissions_copied(&mut self)
        requires
            old(self).wf(),
            old(self).step is CopyPermissions,
        ensures
            final(self).wf(),
            final(self).same_job(old(self)),
            final(self).step matches FileStep::Done { result } && bytes_view(result) == Ok::<u64, Seq<char>>(
                old(self).step->CopyPermissions_bytes,
            ),
    {
        if let FileStep::CopyPermissions { bytes } = &self.step {
            let bytes: u64 = *bytes;
            self.step = FileStep::Done { result: Ok(bytes) };
        }
    }

    /// Goes on after the destination was to be removed.
    pub fn destination_removed(&mut self)
        requires
            old(self).wf(),
            old(self).step is RemoveDestination,
        ensures
            final(self).wf(),
            final(self).same_job(old(self)),
            final(self).step matches FileStep::Done { result } && bytes_view(result) == Err::<u64, Seq<char>>(
                old(self).step->error@,
            ),
    {
        if let FileStep::RemoveDestination { error } = &self.step {
            let error: String = error.clone();
            self.present = false;
            self.step = FileStep::Done { result: Err(error) };
        }
    }
}

/// A file copy that fails leaves no destination of its own behind, and one that succeeds leaves one.
pub proof fn law_failed_file_copy_leaves_nothing(copy: FileCopy)
    requires
        copy.wf(),
        copy.step is Done,
    ensures
        copy.present <==> copy.step->result is Ok,
{
}

// Copying a folder.

/// A folder that is being copied.
pub struct Folder {
    pub source: String,
    pub destination: String,
}

/// What a folder copy does next. The folder that is worked on is the innermost open one.
pub enum TreeStep {
    /// Create a folder, which must not exist.
    CreateFolder { source: String, destination: String },
    /// Go on to the next item of the folder.
    NextItem,
    /// Copy a file into the folder.
    CopyFile { source: String, destination: String },
    /// Give the folder the permissions of its source, if that is possible.
    CopyPermissions,
    /// Remove the folder with what it holds, if that is possible.
    RemoveFolder { error: String },
    /// Nothing more.
    Done { result: Result<(), String> },
}

/// The copy of a folder with everything in it.
pub struct TreeCopy {
    /// The folders that were created and are not finished, the innermost last.
    pub open: Vec<Folder>,
    pub step: TreeStep,
    pub totals: LocalCopyResult,
}

/// The message for a link inside a folder that is copied.
pub open spec fn stopped_at_link(source: Seq<char>) -> Seq<char> {
    "Copy stopped safely at symbolic link '"@ + source + "'. Symbolic-link copying is not enabled."@
}

/// The message for an item inside a folder that is neither a file nor a folder.
pub open spec fn stopped_at_unsupported(source: Seq<char>) -> Seq<char> {
    "Copy stopped safely at unsupported item '"@ + source + "'."@
}

/// What a folder copy does next, by characters.
pub enum Phase {
    CreateFolder { source: Seq<char>, destination: Seq<char> },
    NextItem,
    CopyFile { source: Seq<char>, destination: Seq<char> },
    CopyPermissions,
    RemoveFolder { error: Seq<char> },
    Done { result: Result<(), Seq<char>> },
}

impl View for TreeStep {
    type V = Phase;

    open spec fn view(&self) -> Phase {
        match *self {
            TreeStep::CreateFolder { source, destination } => Phase::CreateFolder {
                source: source@,
                destination: destination@,
            },
            TreeStep::NextItem => Phase::NextItem,
            TreeStep::CopyFile { source, destination } => Phase::CopyFile {
                source: source@,
                destination: destination@,
            },
            TreeStep::CopyPermissions => Phase::CopyPermissions,
            TreeStep::RemoveFolder { error } => Phase::RemoveFolder { error: error@ },
            TreeStep::Done { result } => Phase::Done { result: text::unit_view(result) },
        }
    }
}

/// Where a folder copy stands, by characters and numbers: the source and the destination of each open folder,
/// what comes next, and what was made.
#[verifier::ext_equal]
pub struct TreeState {
    pub open: Seq<(Seq<char>, Seq<char>)>,
    pub phase: Phase,
    pub totals: local_drive::CopyTotals,
}

/// Open folders by their characters.
pub open spec fn folders_view(open: Seq<Folder>) -> Seq<(Seq<char>, Seq<char>)> {
    open.map_values(|folder: Folder| (folder.source@, folder.destination@))
}

impl View for TreeCopy {
    type V = TreeState;

    open spec fn view(&self) -> TreeState {
        TreeState { open: folders_view(self.open@), phase: self.step@, totals: self.totals@ }
    }
}

impl TreeState {
    /// A copy that has not begun.
    pub open spec fn fresh(source: Seq<char>, destination: Seq<char>) -> TreeState {
        TreeState {
            open: Seq::empty(),
            phase: Phase::CreateFolder { source, destination },
            totals: local_drive::CopyTotals { destination, files: 0, directories: 0, bytes: 0 },
        }
    }

    /// There is a folder to work on whenever one is needed, and none is left open at the end.
    pub open spec fn wf(self) -> bool {
        match self.phase {
            Phase::CreateFolder { .. } => true,
            Phase::NextItem | Phase::CopyFile { .. } | Phase::CopyPermissions => self.open.len() > 0,
            Phase::RemoveFolder { .. } => self.open.len() > 0,
            Phase::Done { .. } => self.open.len() == 0,
        }
    }

    /// The copy goes on to fail: each open folder is removed, the innermost first.
    pub open spec fn failing(self, error: Seq<char>) -> TreeState {
        TreeState {
            phase: if self.open.len() > 0 {
                Phase::RemoveFolder { error }
            } else {
                Phase::Done { result: Err(error) }
            },
            ..self
        }
    }

    /// After a folder was to be created; `occupied` says whether something is there.
    pub open spec fn after_creation(self, created: Result<(), Seq<char>>, occupied: bool) -> TreeState {
        match self.phase {
            Phase::CreateFolder { source, destination } => match created {
                Ok(_) => TreeState {
                    open: self.open.push((source, destination)),
                    phase: Phase::NextItem,
                    totals: local_drive::CopyTotals {
                        directories: (self.totals.directories + 1) as u64,
                        ..self.totals
                    },
                },
                Err(error) => self.failing(cannot_create(destination, error, occupied)),
            },
            _ => self,
        }
    }

    /// After an item of the folder was found. A link is never followed.
    pub open spec fn after_finding(self, source: Seq<char>, destination: Seq<char>, entry: EntryType) -> TreeState {
        match entry {
            EntryType::Symlink => self.failing(stopped_at_link(source)),
            EntryType::Directory => TreeState { phase: Phase::CreateFolder { source, destination }, ..self },
            EntryType::File { .. } => TreeState { phase: Phase::CopyFile { source, destination }, ..self },
            EntryType::Other => self.failing(stopped_at_unsupported(source)),
        }
    }

    /// After a file was to be copied into the folder.
    pub open spec fn after_file(self, copied: Result<u64, Seq<char>>) -> TreeState {
        match copied {
            Ok(n) => TreeState {
                phase: Phase::NextItem,
                totals: local_drive::CopyTotals {
                    files: (self.totals.files + 1) as u64,
                    bytes: (self.totals.bytes + n) as u64,
                    ..self.totals
                },
                ..self
            },
            Err(error) => self.failing(error),
        }
    }

    /// After the folder was finished: at the next item of the folder around it, if there is one.
    pub open spec fn after_folder(self) -> TreeState {
        TreeState {
            open: self.open.drop_last(),
            phase: if self.open.len() > 1 {
                Phase::NextItem
            } else {
                Phase::Done { result: Ok(()) }
            },
            ..self
        }
    }

    /// After the folder was to be removed.
    pub open spec fn after_removal(self) -> TreeState {
        match self.phase {
            Phase::RemoveFolder { error } => (TreeState { open: self.open.drop_last(), ..self }).failing(error),
            _ => self,
        }
    }
}

impl TreeCopy {
    /// There is a folder to work on whenever one is needed, and none is left open at the end.
    pub open spec fn wf(&self) -> bool {
        self@.wf()
    }

    /// A copy that has not begun.
    pub fn new(source: String, destination: String) -> (r: Self)
        ensures
            r.wf(),
            r@ == TreeState::fresh(source@, destination@),
    {
        let totals = LocalCopyResult { destination: destination.clone(), files: 0, directories: 0, bytes: 0 };
        let r = TreeCopy { open: Vec::new(), step: TreeStep::CreateFolder { source, destination }, totals };
        assert(r@.open =~= Seq::empty());
        r
    }

    fn fail(&mut self, error: String)
        ensures
            final(self).wf(),
            final(self)@ == old(self)@.failing(error@),
    {
        if self.open.len() > 0 {
            self.step = TreeStep::RemoveFolder { error };
        } else {
            self.step = TreeStep::Done { result: Err(error) };
        }
    }

    /// Goes on after a folder was to be created; `occupied` says whether something is there.
    pub fn folder_created(&mut self, created: Result<(), String>, occupied: bool)
        requires
            old(self).wf(),
            old(self).step is CreateFolder,
            old(self).totals.directories < u64::MAX,
        ensures
            final(self).wf(),
            final(self)@ == old(self)@.after_creation(text::unit_view(created), occupied),
    {
        if let TreeStep::CreateFolder { source, destination } = &self.step {
            match created {
                Ok(_) => {
                    let folder = Folder { source: source.clone(), destination: destination.clone() };
                    let ghost had = self.open@;
                    let ghost added = (folder.source@, folder.destination@);
                    self.open.push(folder);
                    assert(folders_view(self.open@) =~= folders_view(had).push(added));
                    self.totals.directories = self.totals.directories + 1;
                    self.step = TreeStep::NextItem;
                },
                Err(error) => {
                    let message: String = cannot_create_message(
                        destination.as_str(),
                        error.as_str(),
                        occupied,
                    );
                    self.fail(message);
                },
            }
        }
    }

    /// Goes on after the folder could not be read.
    pub fn folder_unreadable(&mut self, error: &str)
        requires
            old(self).wf(),
            old(self).step is NextItem,
        ensures
            final(self).wf(),
            final(self)@ == old(self)@.failing(local_drive::cannot_read(old(self)@.open.last().0, error@)),
    {
        let n: usize = self.open.len();
        let message: String = local_drive::cannot_read_message(self.open[n - 1].source.as_str(), error);
        self.fail(message);
    }

    /// Goes on after an item of the folder could not be read or inspected.
    pub fn item_unreadable(&mut self, error: String)
        requires
            old(self).wf(),
            old(self).step is NextItem,
        ensures
            final(self).wf(),
            final(self)@ == old(self)@.failing(error@),
    {
        self.fail(error);
    }

    /// Decides what becomes of an item of the folder. A link is never followed.
    pub fn item_found(&mut self, source: String, destination: String, entry: EntryType)
        requires
            old(self).wf(),
            old(self).step is NextItem,
        ensures
            final(self).wf(),
            final(self)@ == old(self)@.after_finding(source@, destination@, entry),
    {
        match entry {
            EntryType::Symlink => {
                let message: String = text::framed(
                    "Copy stopped safely at symbolic link '",
                    source.as_str(),
                    "'. Symbolic-link copying is not enabled.",
                );
                self.fail(message);
            },
            EntryType::Directory => {
                self.step = TreeStep::CreateFolder { source, destination };
            },
            EntryType::File { .. } => {
                self.step = TreeStep::CopyFile { source, destination };
            },
            EntryType::Other => {
                let message: String = text::framed(
                    "Copy stopped safely at unsupported item '",
                    source.as_str(),
                    "'.",
                );
                self.fail(message);
            },
        }
    }

    /// Goes on after a file was to be copied into the folder.
    pub fn file_copied(&mut self, copied: Result<u64, String>)
        requires
            old(self).wf(),
            old(self).step is CopyFile,
            old(self).totals.files < u64::MAX,
            copied matches Ok(n) ==> old(self).totals.bytes + n <= u64::MAX,
        ensures
            final(self).wf(),
            final(self)@ == old(self)@.after_file(bytes_view(copied)),
    {
        match copied {
            Ok(bytes) => {
                self.totals.bytes = self.totals.bytes + bytes;
                self.totals.files = self.totals.files + 1;
                self.step = TreeStep::NextItem;
            },
            Err(error) => {
                self.fail(error);
            },
        }
    }

    /// Goes on after the last item of the folder.
    pub fn items_exhausted(&mut self)
        requires
            old(self).wf(),
            old(self).step is NextItem,
        ensures
            final(self).wf(),
            final(self)@ == (TreeState { phase: Phase::CopyPermissions, ..old(self)@ }),
    {
        self.step = TreeStep::CopyPermissions;
    }

    /// Goes on after the folder was finished: to the next item of the folder around it, if there is one.
    pub fn permissions_copied(&mut self)
        requires
            old(self).wf(),
            old(self).step is CopyPermissions,
        ensures
            final(self).wf(),
            final(self)@ == old(self)@.after_folder(),
    {
        let ghost had = self.open@;
        let _ = self.open.pop();
        assert(folders_view(self.open@) =~= folders_view(had).drop_last());
        if self.open.len() > 0 {
            self.step = TreeStep::NextItem;
        } else {
            self.step = TreeStep::Done { result: Ok(()) };
        }
    }

    /// Goes on after the folder was to be removed.
    pub fn folder_removed(&mut self)
        requires
            old(self).wf(),
            old(self).step is RemoveFolder,
        ensures
            final(self).wf(),
            final(self)@ == old(self)@.after_removal(),
    {
        if let TreeStep::RemoveFolder { error } = &self.step {
            let error: String = error.clone();
            let ghost had = self.open@;
            let _ = self.open.pop();
            assert(folders_view(self.open@) =~= folders_view(had).drop_last());
            self.fail(error);
        }
    }

    /// What the copy has come to.
    pub fn finish(self) -> (r: Result<LocalCopyResult, String>)
        requires
            self.wf(),
            self.step is Done,
        ensures
            local_drive::copy_view(r) == match self.step->result {
                Ok(_) => Ok::<local_drive::CopyTotals, Seq<char>>(self.totals@),
                Err(e) => Err(e@),
            },
    {
        match self.step {
            TreeStep::Done { result: Err(error) } => Err(error),
            _ => Ok(self.totals),
        }
    }
}

/// A folder copy that has ended has no folder left open: each one that it created was either finished
/// or removed.
pub proof fn law_no_folder_stays_open(copy: TreeCopy)
    requires
        copy.wf(),
        copy.step is Done,
    ensures
        copy.open@.len() == 0,
{
    assert(copy@.open.len() == copy.open@.len());
}

// What a copied folder holds.

/// A file or a folder with what it holds.
pub enum Node {
    File { bytes: u64 },
    Folder { items: Seq<(Seq<char>, Node)> },
}

/// How many files, folders and bytes there are.
pub struct Amount {
    pub files: nat,
    pub folders: nat,
    pub bytes: nat,
}

/// Both together.
pub open spec fn sum(a: Amount, b: Amount) -> Amount {
    Amount { files: a.files + b.files, folders: a.folders + b.folders, bytes: a.bytes + b.bytes }
}

/// How much there is at a file or a folder.
pub open spec fn amount(node: Node) -> Amount
    decreases node,
{
    match node {
        Node::File { bytes } => Amount { files: 1, folders: 0, bytes: bytes as nat },
        Node::Folder { items } => sum(Amount { files: 0, folders: 1, bytes: 0 }, amount_in(items)),
    }
}

/// How much there is in a folder that holds `items`.
pub open spec fn amount_in(items: Seq<(Seq<char>, Node)>) -> Amount
    decreases items,
{
    if items.len() == 0 {
        Amount { files: 0, folders: 0, bytes: 0 }
    } else {
        sum(amount_in(items.drop_last()), amount(items[items.len() - 1].1))
    }
}

/// From where to where each file is copied, in order. `child` gives the path of a named item of a folder.
pub open spec fn copies(
    node: Node,
    source: Seq<char>,
    destination: Seq<char>,
    child: spec_fn(Seq<char>, Seq<char>) -> Seq<char>,
) -> Seq<(Seq<char>, Seq<char>)>
    decreases node,
{
    match node {
        Node::File { .. } => seq![(source, destination)],
        Node::Folder { items } => copies_in(items, source, destination, child),
    }
}

/// From where to where each file of a folder that holds `items` is copied, in order.
pub open spec fn copies_in(
    items: Seq<(Seq<char>, Node)>,
    source: Seq<char>,
    destination: Seq<char>,
    child: spec_fn(Seq<char>, Seq<char>) -> Seq<char>,
) -> Seq<(Seq<char>, Seq<char>)>
    decreases items,
{
    if items.len() == 0 {
        Seq::empty()
    } else {
        let (name, node) = items[items.len() - 1];
        copies_in(items.drop_last(), source, destination, child) + copies(
            node,
            child(source, name),
            child(destination, name),
            child,
        )
    }
}

/// Where a folder copy stands, and from where to where it has copied files.
#[verifier::ext_equal]
pub struct Progress {
    pub state: TreeState,
    pub copied: Seq<(Seq<char>, Seq<char>)>,
}

impl Progress {
    /// The copy after a file was copied without a fault.
    pub open spec fn with_file(self, bytes: u64) -> Progress {
        Progress {
            state: self.state.after_file(Ok(bytes)),
            copied: match self.state.phase {
                Phase::CopyFile { source, destination } => self.copied.push((source, destination)),
                _ => self.copied,
            },
        }
    }

    /// The copy after a folder was created without a fault and everything in it was copied.
    pub open spec fn with_folder(
        self,
        items: Seq<(Seq<char>, Node)>,
        source: Seq<char>,
        destination: Seq<char>,
        child: spec_fn(Seq<char>, Seq<char>) -> Seq<char>,
    ) -> Progress
        decreases items, 1int,
    {
        let created = Progress { state: self.state.after_creation(Ok(()), false), ..self };
        let filled = created.with_items(items, source, destination, child);
        let exhausted = TreeState { phase: Phase::CopyPermissions, ..filled.state };
        Progress { state: exhausted.after_folder(), ..filled }
    }

    /// The copy after the items of the folder were found one by one and copied without a fault.
    pub open spec fn with_items(
        self,
        items: Seq<(Seq<char>, Node)>,
        source: Seq<char>,
        destination: Seq<char>,
        child: spec_fn(Seq<char>, Seq<char>) -> Seq<char>,
    ) -> Progress
        decreases items, 0int,
    {
        if items.len() == 0 {
            self
        } else {
            let (name, node) = items[items.len() - 1];
            let before = self.with_items(items.drop_last(), source, destination, child);
            let from = child(source, name);
            let to = child(destination, name);
            match node {
                Node::File { bytes } => (Progress {
                    state: before.state.after_finding(from, to, EntryType::File { bytes }),
                    ..before
                }).with_file(bytes),
                Node::Folder { items: inner } => (Progress {
                    state: before.state.after_finding(from, to, EntryType::Directory),
                    ..before
                }).with_folder(inner, from, to, child),
            }
        }
    }
}

/// Totals with more on top.
pub open spec fn totals_with(totals: local_drive::CopyTotals, more: Amount) -> local_drive::CopyTotals {
    local_drive::CopyTotals {
        files: (totals.files + more.files) as u64,
        directories: (totals.directories + more.folders) as u64,
        bytes: (totals.bytes + more.bytes) as u64,
        ..totals
    }
}

/// Whether totals with more on top can still be counted.
pub open spec fn can_be_counted(totals: local_drive::CopyTotals, more: Amount) -> bool {
    &&& totals.files + more.files <= u64::MAX
    &&& totals.directories + more.folders <= u64::MAX
    &&& totals.bytes + more.bytes <= u64::MAX
}

proof fn lemma_items_copied(
    start: Progress,
    items: Seq<(Seq<char>, Node)>,
    source: Seq<char>,
    destination: Seq<char>,
    child: spec_fn(Seq<char>, Seq<char>) -> Seq<char>,
)
    requires
        start.state.wf(),
        start.state.phase is NextItem,
        can_be_counted(start.state.totals, amount_in(items)),
    ensures
        start.with_items(items, source, destination, child) == (Progress {
            state: TreeState { totals: totals_with(start.state.totals, amount_in(items)), ..start.state },
            copied: start.copied + copies_in(items, source, destination, child),
        }),
    decreases items, 0int,
{
    let end = start.with_items(items, source, destination, child);
    if items.len() == 0 {
        assert(end.copied =~= start.copied + copies_in(items, source, destination, child));
    } else {
        let (name, node) = items[items.len() - 1];
        let front = items.drop_last();
        lemma_items_copied(start, front, source, destination, child);
        let before = start.with_items(front, source, destination, child);
        let from = child(source, name);
        let to = child(destination, name);
        let copied = copies(node, from, to, child);
        assert(amount_in(items) == sum(amount_in(front), amount(node)));
        assert(copies_in(items, source, destination, child) == copies_in(front, source, destination, child) + copied);
        match node {
            Node::File { bytes } => {
                assert(copied == seq![(from, to)]);
                assert(end.state.open =~= start.state.open);
                assert(end.state.totals == totals_with(start.state.totals, amount_in(items)));
                assert(end.copied == before.copied.push((from, to)));
                assert(end.copied =~= start.copied + copies_in(items, source, destination, child));
            },
            Node::Folder { items: inner } => {
                let found = Progress {
                    state: before.state.after_finding(from, to, EntryType::Directory),
                    ..before
                };
                lemma_folder_copied(found, inner, from, to, child);
                assert(end.state.open =~= start.state.open);
                assert(end.copied =~= start.copied + copies_in(items, source, destination, child));
            },
        }
    }
}

proof fn lemma_folder_copied(
    start: Progress,
    items: Seq<(Seq<char>, Node)>,
    source: Seq<char>,
    destination: Seq<char>,
    child: spec_fn(Seq<char>, Seq<char>) -> Seq<char>,
)
    requires
        start.state.phase == (Phase::CreateFolder { source, destination }),
        can_be_counted(start.state.totals, amount(Node::Folder { items })),
    ensures
        start.with_folder(items, source, destination, child) == (Progress {
            state: TreeState {
                open: start.state.open,
                phase: if start.state.open.len() > 0 {
                    Phase::NextItem
                } else {
                    Phase::Done { result: Ok(()) }
                },
                totals: totals_with(start.state.totals, amount(Node::Folder { items })),
            },
            copied: start.copied + copies_in(items, source, destination, child),
        }),
    decreases items, 1int,
{
    let created = Progress { state: start.state.after_creation(Ok(()), false), ..start };
    lemma_items_copied(created, items, source, destination, child);
    assert(created.state.open.drop_last() =~= start.state.open);
}

/// A folder that is copied without a fault is copied whole: the copy ends well with no folder left open, each file
/// was copied once from its place to the same place below the destination, and the totals are the files, the
/// folders and the bytes that the folder holds.
pub proof fn law_a_copied_folder_is_copied_whole(
    items: Seq<(Seq<char>, Node)>,
    source: Seq<char>,
    destination: Seq<char>,
    child: spec_fn(Seq<char>, Seq<char>) -> Seq<char>,
)
    requires
        amount(Node::Folder { items }).files <= u64::MAX,
        amount(Node::Folder { items }).folders <= u64::MAX,
        amount(Node::Folder { items }).bytes <= u64::MAX,
    ensures
        ({
            let start = Progress { state: TreeState::fresh(source, destination), copied: Seq::empty() };
            let end = start.with_folder(items, source, destination, child);
            let held = amount(Node::Folder { items });
            &&& end.state.phase == (Phase::Done { result: Ok(()) })
            &&& end.state.open.len() == 0
            &&& end.copied == copies_in(items, source, destination, child)
            &&& end.state.totals == (local_drive::CopyTotals {
                destination,
                files: held.files as u64,
                directories: held.folders as u64,
                bytes: held.bytes as u64,
            })
        }),
{
    let start = Progress { state: TreeState::fresh(source, destination), copied: Seq::empty() };
    lemma_folder_copied(start, items, source, destination, child);
    assert(start.copied + copies_in(items, source, destination, child) =~= copies_in(
        items,
        source,
        destination,
        child,
    ));
}

// Copying an item.

/// The message for what belongs to Git.
pub open spec fn git_protected() -> Seq<char> {
    "Git metadata (.git) is protected in Local Drive"@
}

/// What is answered for an item that is to be copied; `protected` says whether it belongs to Git.
pub open spec fn copy_source_answer(
    requested: Seq<char>,
    inspected: Result<EntryType, Seq<char>>,
    protected: bool,
) -> Result<EntryType, Seq<char>> {
    match inspected {
        Err(error) => Err(local_drive::cannot_open(requested, error)),
        Ok(EntryType::Symlink) => Err(
            "Symbolic-link copying is not enabled because following it could copy an unexpected location"@,
        ),
        Ok(entry) => if protected {
            Err(git_protected())
        } else {
            Ok(entry)
        },
    }
}

/// Answers for an item that is to be copied, once the platform has split its path into `parts`.
pub fn answer_copy_source(
    requested: &str,
    inspected: Result<EntryType, String>,
    parts: &Vec<PathPart>,
) -> (r: Result<EntryType, String>)
    ensures
        local_drive::inspected_view(r) == copy_source_answer(
            requested@,
            local_drive::inspected_view(inspected),
            paths::mentions_git(paths::parts_view(parts@)),
        ),
{
    match inspected {
        Err(error) => Err(local_drive::cannot_open_message(requested, error.as_str())),
        Ok(EntryType::Symlink) => Err(
            "Symbolic-link copying is not enabled because following it could copy an unexpected location".to_owned(),
        ),
        Ok(entry) => if paths::any_git_part(parts) {
            Err("Git metadata (.git) is protected in Local Drive".to_owned())
        } else {
            Ok(entry)
        },
    }
}

/// Checks an item that is to be copied: it can be inspected, is no link and does not belong to Git.
pub fn check_copy_source(requested: &str, inspected: Result<EntryType, String>) -> (r: Result<EntryType, String>)
    ensures
        exists|parts: Seq<paths::Part>| #[trigger]
            paths::told_parts(requested@, parts) && local_drive::inspected_view(r) == copy_source_answer(
                requested@,
                local_drive::inspected_view(inspected),
                paths::mentions_git(parts),
            ),
        paths::is_portable(requested@) ==> local_drive::inspected_view(r) == copy_source_answer(
            requested@,
            local_drive::inspected_view(inspected),
            paths::mentions_git(paths::portable_parts(requested@)),
        ),
        !paths::holds_git(requested@) ==> local_drive::inspected_view(r) == copy_source_answer(
            requested@,
            local_drive::inspected_view(inspected),
            false,
        ),
{
    let parts: Vec<PathPart> = paths::ask_parts(requested);
    proof {
        paths::law_told_parts(requested@, paths::parts_view(parts@));
        if !paths::holds_git(requested@) {
            paths::law_paths_without_git_are_not_protected(requested@, paths::parts_view(parts@));
        }
    }
    answer_copy_source(requested, inspected, &parts)
}

/// What is answered for an item that is to be copied into a folder, both read by the platform as components: a
/// folder is not copied into itself, and nothing is copied that has no name.
pub open spec fn copy_target_answer(
    entry: EntryType,
    source: Seq<paths::Part>,
    target: Seq<paths::Part>,
) -> Result<(), Seq<char>> {
    if entry == EntryType::Directory && source.is_prefix_of(target) {
        Err("A folder cannot be copied into itself or one of its descendants"@)
    } else if !paths::ends_in_name(source) {
        Err("A filesystem root cannot be copied as one item"@)
    } else {
        Ok(())
    }
}

/// Checks where an item is to be copied: a folder not into itself, and nothing without a name.
pub fn check_copy_target(entry: EntryType, source: &Vec<PathPart>, target: &Vec<PathPart>) -> (r: Result<
    (),
    String,
>)
    ensures
        text::unit_view(r) == copy_target_answer(
            entry,
            paths::parts_view(source@),
            paths::parts_view(target@),
        ),
{
    if entry == EntryType::Directory && paths::lies_inside(target, source) {
        return Err("A folder cannot be copied into itself or one of its descendants".to_owned());
    }
    if !paths::last_is_name(source) {
        return Err("A filesystem root cannot be copied as one item".to_owned());
    }
    Ok(())
}

/// How an item is copied.
pub enum CopyPlan {
    Tree { tree: TreeCopy },
    File { file: FileCopy },
}

/// Plans the copy of an item. What is already there is never written over.
pub fn plan_copy(source: String, destination: String, occupied: bool, entry: EntryType) -> (r: Result<CopyPlan, String>)
    ensures
        match r {
            Err(e) => if occupied {
                e@ == already_exists(destination@)
            } else {
                &&& entry == EntryType::Symlink || entry == EntryType::Other
                &&& e@ == "This item type cannot be copied safely"@
            },
            Ok(CopyPlan::Tree { tree: copy }) => {
                &&& !occupied
                &&& entry == EntryType::Directory
                &&& copy.wf()
                &&& copy.open@.len() == 0
                &&& copy@ == TreeState::fresh(source@, destination@)
            },
            Ok(CopyPlan::File { file: copy }) => {
                &&& !occupied
                &&& entry is File
                &&& copy.wf()
                &&& copy.step is OpenSource
                &&& copy.source@ == source@
                &&& copy.destination@ == destination@
            },
        },
{
    if occupied {
        return Err(already_exists_message(destination.as_str()));
    }
    match entry {
        EntryType::Directory => {
            let tree = TreeCopy::new(source, destination);
            assert(tree.open@.len() == tree@.open.len());
            Ok(CopyPlan::Tree { tree })
        },
        EntryType::File { .. } => Ok(CopyPlan::File { file: FileCopy::new(source, destination) }),
        _ => Err("This item type cannot be copied safely".to_owned()),
    }
}

/// What the copy of one file comes to.
pub open spec fn file_totals(destination: Seq<char>, copied: Result<u64, Seq<char>>) -> Result<
    local_drive::CopyTotals,
    Seq<char>,
> {
    match copied {
        Ok(bytes) => Ok(local_drive::CopyTotals { destination, files: 1, directories: 0, bytes }),
        Err(e) => Err(e),
    }
}

/// What the copy of one file comes to.
pub fn finish_file_copy(destination: String, copied: Result<u64, String>) -> (r: Result<LocalCopyResult, String>)
    ensures
        local_drive::copy_view(r) == file_totals(destination@, bytes_view(copied)),
{
    match copied {
        Ok(bytes) => Ok(LocalCopyResult { destination, files: 1, directories: 0, bytes }),
        Err(e) => Err(e),
    }
}

// Moving an item.

/// Why an item may not be moved, before it is inspected.
pub open spec fn move_refusal(parts: Seq<paths::Part>) -> Option<Seq<char>> {
    if !paths::ends_in_name(parts) {
        Some("A filesystem root cannot be moved"@)
    } else if paths::mentions_git(parts) {
        Some(git_protected())
    } else {
        None
    }
}

/// The message for a link that was to be moved.
pub open spec fn link_not_moved() -> Seq<char> {
    "Symbolic-link moving is not enabled because its target may be unexpected"@
}

/// The message for an original that stays after its copy was made.
pub open spec fn both_copies_kept(error: Seq<char>) -> Seq<char> {
    "The copy completed, but the original could not be moved to Trash. Both copies were kept safely. "@ + error
}

/// Whether `r` is what moving an absolute path comes to: an item that is not refused is inspected, copied and
/// deleted, and the first of these that fails is reported.
pub open spec fn moves<
    Inspect: FnOnce(&str) -> Result<EntryType, String>,
    Copying: FnOnce(&str) -> Result<LocalCopyResult, String>,
    Deleting: FnOnce(&str) -> Result<(), String>,
>(
    source: &str,
    parts: Seq<paths::Part>,
    inspect: Inspect,
    copy: Copying,
    deleter: Deleting,
    r: Result<LocalCopyResult, String>,
) -> bool {
    match move_refusal(parts) {
        Some(refusal) => r matches Err(e) && e@ == refusal,
        None => exists|inspected: Result<EntryType, String>| #[trigger]
            inspect.ensures((source,), inspected) && match inspected {
                Err(error) => r matches Err(e) && e@ == local_drive::cannot_open(source@, error@),
                Ok(EntryType::Symlink) => r matches Err(e) && e@ == link_not_moved(),
                Ok(_) => exists|copied: Result<LocalCopyResult, String>| #[trigger]
                    copy.ensures((source,), copied) && match copied {
                        Err(error) => r == copied,
                        Ok(made) => exists|deleted: Result<(), String>| #[trigger]
                            deleter.ensures((source,), deleted) && match deleted {
                                Ok(_) => r == copied,
                                Err(error) => r matches Err(e) && e@ == both_copies_kept(error@),
                            },
                    },
            },
    }
}

/// Moves an item whose path is absolute. The item is inspected only where it is not refused, copied only after it
/// was found to be no link, and the original is deleted only after the copy was made: no call before the other
/// meets what is required.
pub fn move_checked_item<
    Inspect: FnOnce(&str) -> Result<EntryType, String>,
    Copying: FnOnce(&str) -> Result<LocalCopyResult, String>,
    Deleting: FnOnce(&str) -> Result<(), String>,
>(source: &str, parts: &Vec<PathPart>, inspect: Inspect, copy: Copying, deleter: Deleting) -> (r: Result<
    LocalCopyResult,
    String,
>)
    requires
        move_refusal(paths::parts_view(parts@)) is None ==> inspect.requires((source,)),
        forall|entry: EntryType| #[trigger]
            inspect.ensures((source,), Ok::<EntryType, String>(entry)) && move_refusal(paths::parts_view(parts@)) is None
                && entry != EntryType::Symlink ==> copy.requires((source,)),
        forall|made: LocalCopyResult| #[trigger]
            copy.ensures((source,), Ok::<LocalCopyResult, String>(made)) ==> deleter.requires((source,)),
    ensures
        moves(source, paths::parts_view(parts@), inspect, copy, deleter, r),
{
    if !paths::last_is_name(parts) {
        return Err("A filesystem root cannot be moved".to_owned());
    }
    if paths::any_git_part(parts) {
        return Err("Git metadata (.git) is protected in Local Drive".to_owned());
    }
    let inspected: Result<EntryType, String> = inspect(source);
    assert(inspect.ensures((source,), inspected));
    match inspected {
        Err(error) => {
            return Err(local_drive::cannot_open_message(source, error.as_str()));
        },
        Ok(EntryType::Symlink) => {
            return Err(
                "Symbolic-link moving is not enabled because its target may be unexpected".to_owned(),
            );
        },
        Ok(_) => {},
    }
    let copied: Result<LocalCopyResult, String> = copy(source);
    assert(copy.ensures((source,), copied));
    match copied {
        Err(error) => Err(error),
        Ok(made) => {
            let deleted: Result<(), String> = deleter(source);
            match deleted {
                Ok(_) => Ok(made),
                Err(error) => {
                    let mut message: String =
                        "The copy completed, but the original could not be moved to Trash. Both copies were kept safely. ".to_owned();
                    message.append(error.as_str());
                    Err(message)
                },
            }
        },
    }
}

/// Whether the platform said that a path is absolute and split it so that its item may be moved.
pub open spec fn movable(path: Seq<char>) -> bool {
    let value = text::trimmed(path);
    &&& value.len() > 0
    &&& paths::told_absolute(value, true)
    &&& exists|parts: Seq<paths::Part>| #[trigger] paths::told_parts(value, parts) && move_refusal(parts) is None
}

/// Moves the item at a path that has to be absolute. The item is inspected only where it may be moved, copied only
/// after it was found to be no link, and the original is deleted only after the copy was made: no call before
/// the other meets what is required.
pub fn move_local_item_with<
    Inspect: FnOnce(&str) -> Result<EntryType, String>,
    Copying: FnOnce(&str) -> Result<LocalCopyResult, String>,
    Deleting: FnOnce(&str) -> Result<(), String>,
>(source_path: &str, inspect: Inspect, copy: Copying, deleter: Deleting) -> (r: Result<LocalCopyResult, String>)
    requires
        forall|s: &str|
            movable(source_path@) && s@ == text::trimmed(source_path@) ==> #[trigger] inspect.requires((s,)),
        forall|s: &str, entry: EntryType| #[trigger]
            inspect.ensures((s,), Ok::<EntryType, String>(entry)) && movable(source_path@) && s@ == text::trimmed(
                source_path@,
            ) && entry != EntryType::Symlink ==> copy.requires((s,)),
        forall|s: &str, made: LocalCopyResult| #[trigger]
            copy.ensures((s,), Ok::<LocalCopyResult, String>(made)) && s@ == text::trimmed(source_path@)
                ==> deleter.requires((s,)),
    ensures
        exists|is_absolute: bool, parts: Seq<paths::Part>|
            #![trigger paths::told_absolute(text::trimmed(source_path@), is_absolute), paths::told_parts(text::trimmed(source_path@), parts)]
            {
                &&& paths::told_absolute(text::trimmed(source_path@), is_absolute)
                &&& paths::told_parts(text::trimmed(source_path@), parts)
                &&& match paths::absolute_answer(source_path@, is_absolute) {
                    Err(refusal) => r matches Err(e) && e@ == refusal,
                    Ok(path) => exists|source: &str|
                        source@ == path && #[trigger] moves(source, parts, inspect, copy, deleter, r),
                }
            },
{
    let trimmed: String = text::trim(source_path);
    let is_absolute: bool = paths::ask_absolute(trimmed.as_str());
    let parts: Vec<PathPart> = paths::ask_parts(trimmed.as_str());
    match paths::answer_absolute(source_path, is_absolute) {
        Err(refusal) => Err(refusal),
        Ok(source) => {
            let at: &str = source.as_str();
            assert(move_refusal(paths::parts_view(parts@)) is None ==> movable(source_path@));
            let r = move_checked_item(at, &parts, inspect, copy, deleter);
            assert(moves(at, paths::parts_view(parts@), inspect, copy, deleter, r));
            r
        },
    }
}

// Deleting an item.

/// Why an item may not be deleted, before it is inspected. `has_parent` says whether it lies in a folder.
pub open spec fn trash_refusal(has_parent: bool, parts: Seq<paths::Part>) -> Option<Seq<char>> {
    if !has_parent || !paths::ends_in_name(parts) {
        Some("A filesystem root cannot be deleted"@)
    } else if paths::mentions_git(parts) {
        Some(git_protected())
    } else {
        None
    }
}

/// Whether the platform said that a path is absolute and read it so that its item may be deleted.
pub open spec fn deletable(path: Seq<char>) -> bool {
    let value = text::trimmed(path);
    &&& value.len() > 0
    &&& paths::told_absolute(value, true)
    &&& exists|parts: Seq<paths::Part>, parent: Option<Seq<char>>|
        #![trigger paths::told_parts(value, parts), paths::told_parent(value, parent)]
        paths::told_parts(value, parts) && paths::told_parent(value, parent) && trash_refusal(
            parent is Some,
            parts,
        ) is None
}

/// Whether `r` is what checking an item that is to be deleted comes to: the path of the item, unless it
/// is refused or cannot be inspected.
pub open spec fn validates<Inspect: FnOnce(&str) -> Result<EntryType, String>>(
    path: Seq<char>,
    inspect: Inspect,
    r: Result<String, String>,
) -> bool {
    let value = text::trimmed(path);
    exists|is_absolute: bool, parts: Seq<paths::Part>, parent: Option<Seq<char>>|
        #![trigger paths::told_absolute(value, is_absolute), paths::told_parts(value, parts), paths::told_parent(value, parent)]
        {
            &&& paths::told_absolute(value, is_absolute)
            &&& paths::told_parts(value, parts)
            &&& paths::told_parent(value, parent)
            &&& match paths::absolute_answer(path, is_absolute) {
                Err(refusal) => r matches Err(e) && e@ == refusal,
                Ok(_) => match trash_refusal(parent is Some, parts) {
                    Some(refusal) => r matches Err(e) && e@ == refusal,
                    None => exists|target: &str, inspected: Result<EntryType, String>| #[trigger]
                        inspect.ensures((target,), inspected) && target@ == value && match inspected {
                            Err(error) => r matches Err(e) && e@ == local_drive::cannot_open(value, error@),
                            Ok(_) => r matches Ok(t) && t@ == value,
                        },
                },
            }
        }
}

/// Checks an item that is to be deleted, whose path is absolute and is read by the platform as `parts`:
/// it lies in a folder, does not belong to Git and can be inspected. It is inspected only where it is not refused.
pub fn trash_checked_item<Inspect: FnOnce(&str) -> Result<EntryType, String>>(
    value: &str,
    parts: &Vec<PathPart>,
    has_parent: bool,
    inspect: Inspect,
) -> (r: Result<String, String>)
    requires
        trash_refusal(has_parent, paths::parts_view(parts@)) is None ==> inspect.requires((value,)),
    ensures
        match trash_refusal(has_parent, paths::parts_view(parts@)) {
            Some(refusal) => r matches Err(e) && e@ == refusal,
            None => exists|inspected: Result<EntryType, String>| #[trigger]
                inspect.ensures((value,), inspected) && match inspected {
                    Err(error) => r matches Err(e) && e@ == local_drive::cannot_open(value@, error@),
                    Ok(_) => r matches Ok(t) && t@ == value@,
                },
        },
{
    if !has_parent || !paths::last_is_name(parts) {
        return Err("A filesystem root cannot be deleted".to_owned());
    }
    if paths::any_git_part(parts) {
        return Err("Git metadata (.git) is protected in Local Drive".to_owned());
    }
    let inspected: Result<EntryType, String> = inspect(value);
    assert(inspect.ensures((value,), inspected));
    match inspected {
        Err(error) => Err(local_drive::cannot_open_message(value, error.as_str())),
        Ok(_) => Ok(value.to_owned()),
    }
}

/// Checks an item that is to be deleted: its path is absolute, it lies in a folder, does not belong to
/// Git and can be inspected.
pub fn validate_trash_target<Inspect: FnOnce(&str) -> Result<EntryType, String>>(
    path: &str,
    inspect: Inspect,
) -> (r: Result<String, String>)
    requires
        forall|s: &str| deletable(path@) && s@ == text::trimmed(path@) ==> #[trigger] inspect.requires((s,)),
    ensures
        validates(path@, inspect, r),
{
    let trimmed: String = text::trim(path);
    let is_absolute: bool = paths::ask_absolute(trimmed.as_str());
    let parts: Vec<PathPart> = paths::ask_parts(trimmed.as_str());
    let parent: Option<String> = paths::ask_parent(trimmed.as_str());
    match paths::answer_absolute(path, is_absolute) {
        Err(refusal) => Err(refusal),
        Ok(value) => {
            let target: &str = value.as_str();
            assert(target@ == text::trimmed(path@));
            assert(paths::told_parts(target@, paths::parts_view(parts@)) && paths::told_parent(
                target@,
                text::opt_view(parent),
            ));
            trash_checked_item(target, &parts, parent.is_some(), inspect)
        },
    }
}

/// Deletes an item that passes the check. The deleter gets exactly the path of the item, and only after the check
/// was passed: no call before it meets what is required.
pub fn trash_local_item_with<
    Inspect: FnOnce(&str) -> Result<EntryType, String>,
    Deleting: FnOnce(&str) -> Result<(), String>,
>(path: &str, inspect: Inspect, deleter: Deleting) -> (r: Result<(), String>)
    requires
        forall|s: &str| deletable(path@) && s@ == text::trimmed(path@) ==> #[trigger] inspect.requires((s,)),
        forall|s: &str, value: String|
            #![trigger deleter.requires((s,)), validates(path@, inspect, Ok::<String, String>(value))]
            validates(path@, inspect, Ok::<String, String>(value)) && s@ == value@ ==> deleter.requires((s,)),
    ensures
        exists|checked: Result<String, String>| #[trigger]
            validates(path@, inspect, checked) && match checked {
                Err(refusal) => r matches Err(e) && e@ == refusal@,
                Ok(value) => exists|target: &str| target@ == value@ && #[trigger] deleter.ensures((target,), r),
            },
{
    let checked: Result<String, String> = validate_trash_target(path, inspect);
    assert(validates(path@, inspect, checked));
    match checked {
        Err(refusal) => Err(refusal),
        Ok(value) => {
            let target: &str = value.as_str();
            assert(validates(path@, inspect, Ok::<String, String>(value)));
            let r: Result<(), String> = deleter(target);
            assert(target@ == value@ && deleter.ensures((target,), r));
            r
        },
    }
}

/// The message for an item that could not be moved to the trash.
pub fn trash_failed_message(target: &str, error: &str) -> (r: String)
    ensures
        r@ == "Could not move '"@ + target@ + "' to Trash/Recycle Bin: "@ + error@,
{
    let mut r: String = text::framed("Could not move '", target, "' to Trash/Recycle Bin: ");
    r.append(error);
    r
}

/// Whether the platform cannot have split a path other than into something of Git's own or a root.
pub open spec fn always_protected(path: Seq<char>) -> bool {
    forall|parts: Seq<paths::Part>| #[trigger]
        paths::told_parts(text::trimmed(path), parts) ==> paths::mentions_git(parts) || !paths::ends_in_name(parts)
}

/// Nothing of Git's own and no root passes the check before a deletion, whatever inspecting it would say, so
/// that neither inspecting nor deleting it is allowed.
pub proof fn law_protected_items_are_never_deleted<Inspect: FnOnce(&str) -> Result<EntryType, String>>(
    path: Seq<char>,
    inspect: Inspect,
    r: Result<String, String>,
)
    requires
        always_protected(path),
    ensures
        !deletable(path),
        validates(path, inspect, r) ==> r is Err,
{
}

/// Nothing of Git's own and no root is moved, whatever the steps would say: where the parts of its path are of that
/// kind the answer is a refusal, and where they can be nothing else none of the steps is allowed.
pub proof fn law_protected_items_are_never_moved<
    Inspect: FnOnce(&str) -> Result<EntryType, String>,
    Copying: FnOnce(&str) -> Result<LocalCopyResult, String>,
    Deleting: FnOnce(&str) -> Result<(), String>,
>(
    path: Seq<char>,
    source: &str,
    parts: Seq<paths::Part>,
    inspect: Inspect,
    copy: Copying,
    deleter: Deleting,
    r: Result<LocalCopyResult, String>,
)
    ensures
        always_protected(path) ==> !movable(path),
        moves(source, parts, inspect, copy, deleter, r) && (paths::mentions_git(parts) || !paths::ends_in_name(parts))
            ==> r is Err,
{
}

/// A path that every platform reads alike, and that leads to or through Git's own folder or to a root, is always
/// protected.
pub proof fn law_portable_git_paths_are_always_protected(path: Seq<char>)
    requires
        paths::is_portable(text::trimmed(path)),
        paths::mentions_git(paths::portable_parts(text::trimmed(path))) || !paths::ends_in_name(
            paths::portable_parts(text::trimmed(path)),
        ),
    ensures
        always_protected(path),
{
    let value = text::trimmed(path);
    assert forall|parts: Seq<paths::Part>| #[trigger] paths::told_parts(value, parts) implies paths::mentions_git(
        parts,
    ) || !paths::ends_in_name(parts) by {
        paths::law_told_parts(value, parts);
    }
}

/// A move succeeds only where the copy was made and the original was deleted; what was made is what is answered.
/// That the original is deleted only after the copy was made is required of the call itself.
pub proof fn law_move_succeeds_only_with_copy_and_deletion<
    Inspect: FnOnce(&str) -> Result<EntryType, String>,
    Copying: FnOnce(&str) -> Result<LocalCopyResult, String>,
    Deleting: FnOnce(&str) -> Result<(), String>,
>(
    source: &str,
    parts: Seq<paths::Part>,
    inspect: Inspect,
    copy: Copying,
    deleter: Deleting,
    r: Result<LocalCopyResult, String>,
)
    requires
        moves(source, parts, inspect, copy, deleter, r),
        r is Ok,
    ensures
        copy.ensures((source,), r),
        exists|deleted: Result<(), String>| deleted is Ok && #[trigger] deleter.ensures((source,), deleted),
{
    let inspected = choose|inspected: Result<EntryType, String>| #[trigger]
        inspect.ensures((source,), inspected) && match inspected {
            Err(error) => r matches Err(e) && e@ == local_drive::cannot_open(source@, error@),
            Ok(EntryType::Symlink) => r matches Err(e) && e@ == link_not_moved(),
            Ok(_) => exists|copied: Result<LocalCopyResult, String>| #[trigger]
                copy.ensures((source,), copied) && match copied {
                    Err(error) => r == copied,
                    Ok(made) => exists|deleted: Result<(), String>| #[trigger]
                        deleter.ensures((source,), deleted) && match deleted {
                            Ok(_) => r == copied,
                            Err(error) => r matches Err(e) && e@ == both_copies_kept(error@),
                        },
                },
        };
    let copied = choose|copied: Result<LocalCopyResult, String>| #[trigger]
        copy.ensures((source,), copied) && match copied {
            Err(error) => r == copied,
            Ok(made) => exists|deleted: Result<(), String>| #[trigger]
                deleter.ensures((source,), deleted) && match deleted {
                    Ok(_) => r == copied,
                    Err(error) => r matches Err(e) && e@ == both_copies_kept(error@),
                },
        };
    assert(copied == r);
    let deleted = choose|deleted: Result<(), String>| #[trigger]
        deleter.ensures((source,), deleted) && match deleted {
            Ok(_) => r == copied,
            Err(error) => r matches Err(e) && e@ == both_copies_kept(error@),
        };
    assert(deleted is Ok);
}

// What each step of a copy leads to.

/// A file copy opens its source, creates its destination, transfers, flushes and ends with the number of bytes that were
/// transferred; each failure is told with the path that it concerns, and one after the destination was created removes it.
pub proof fn law_a_file_copy_ends_with_its_bytes(
    a: &mut FileCopy,
    b: &mut FileCopy,
    c: &mut FileCopy,
    d: &mut FileCopy,
    e: &mut FileCopy,
    opened: Result<(), String>,
    created: Result<(), String>,
    occupied: bool,
    transferred: Result<u64, String>,
    flushed: Result<(), String>,
)
    requires
        old(a).wf(),
        old(a).step is OpenSource,
        call_ensures(FileCopy::source_opened, (a, opened), ()),
        opened is Ok ==> *old(b) == *final(a) && call_ensures(FileCopy::destination_created, (b, created, occupied), ()),
        opened is Ok && created is Ok ==> *old(c) == *final(b) && call_ensures(FileCopy::transferred, (c, transferred), ()),
        opened is Ok && created is Ok && transferred is Ok ==> *old(d) == *final(c) && call_ensures(
            FileCopy::flushed,
            (d, flushed),
            (),
        ),
        opened is Ok && created is Ok && transferred is Ok && flushed is Ok ==> *old(e) == *final(d) && call_ensures(
            FileCopy::permissions_copied,
            (e,),
            (),
        ),
    ensures
        opened matches Err(x) ==> (final(a).step matches FileStep::Done { result } && result matches Err(m) && m@
            == "Cannot read '"@ + old(a).source@ + "': "@ + x@),
        opened is Ok && created is Err ==> (final(b).step matches FileStep::Done { result } && result matches Err(m) && m@
            == if occupied {
            "'"@ + old(a).destination@ + "' already exists — nothing was overwritten"@
        } else {
            "Cannot create '"@ + old(a).destination@ + "': "@ + (created->Err_0)@
        }),
        opened is Ok && created is Ok && transferred is Err ==> (final(c).step matches FileStep::RemoveDestination {
            error,
        } && error@ == "Copy failed for '"@ + old(a).source@ + "': "@ + (transferred->Err_0)@),
        opened is Ok && created is Ok && transferred is Ok && flushed is Err ==> (final(d).step matches
            FileStep::RemoveDestination { error } && error@ == "Copy failed while finishing '"@ + old(a).source@ + "': "@
            + (flushed->Err_0)@),
        opened is Ok && created is Ok && transferred is Ok && flushed is Ok ==> (final(e).step matches FileStep::Done {
            result,
        } && result matches Ok(n) && n == transferred->Ok_0),
{
}

/// Of the items of a folder that is copied a file is copied as a file and a folder as a folder, from where it was found to
/// where it goes; a link and anything else stop the copy with the path of the item.
pub proof fn law_items_are_copied_as_what_they_are(
    a: &mut TreeCopy,
    source: String,
    destination: String,
    entry: EntryType,
)
    requires
        old(a).wf(),
        old(a).step is NextItem,
        call_ensures(TreeCopy::item_found, (a, source, destination, entry), ()),
    ensures
        entry is File ==> (final(a)@.phase matches Phase::CopyFile { source: s, destination: d } && s == source@ && d
            == destination@),
        entry == EntryType::Directory ==> (final(a)@.phase matches Phase::CreateFolder { source: s, destination: d } && s
            == source@ && d == destination@),
        entry == EntryType::Symlink ==> (final(a)@.phase matches Phase::RemoveFolder { error } && error
            == "Copy stopped safely at symbolic link '"@ + source@ + "'. Symbolic-link copying is not enabled."@),
        entry == EntryType::Other ==> (final(a)@.phase matches Phase::RemoveFolder { error } && error
            == "Copy stopped safely at unsupported item '"@ + source@ + "'."@),
        final(a)@.open == old(a)@.open,
        final(a)@.totals == old(a)@.totals,
{
}

/// A copied file adds one file and its bytes to what was made, and a created folder adds one folder and is the one that is
/// worked on; nothing else that was made changes.
pub proof fn law_what_was_made_is_counted_once(
    a: &mut TreeCopy,
    b: &mut TreeCopy,
    bytes: u64,
    source: Seq<char>,
    destination: Seq<char>,
    occupied: bool,
)
    requires
        old(a).wf(),
        old(a).step is CopyFile,
        old(a).totals.files < u64::MAX,
        old(a).totals.bytes + bytes <= u64::MAX,
        call_ensures(TreeCopy::file_copied, (a, Ok(bytes)), ()),
        old(b).wf(),
        old(b)@.phase == (Phase::CreateFolder { source, destination }),
        old(b).totals.directories < u64::MAX,
        call_ensures(TreeCopy::folder_created, (b, Ok(()), occupied), ()),
    ensures
        final(a)@.totals.files == old(a)@.totals.files + 1,
        final(a)@.totals.bytes == old(a)@.totals.bytes + bytes,
        final(a)@.totals.directories == old(a)@.totals.directories,
        final(a)@.totals.destination == old(a)@.totals.destination,
        final(a)@.open == old(a)@.open,
        final(a)@.phase is NextItem,
        final(b)@.totals.directories == old(b)@.totals.directories + 1,
        final(b)@.totals.files == old(b)@.totals.files,
        final(b)@.totals.bytes == old(b)@.totals.bytes,
        final(b)@.totals.destination == old(b)@.totals.destination,
        final(b)@.open == old(b)@.open.push((source, destination)),
        final(b)@.phase is NextItem,
{
}

/// A copy that fails removes every folder that it has opened, the innermost first, and then ends with the message of the
/// failure; one that goes on returns from a finished folder to the one around it.
pub proof fn law_a_failed_copy_is_taken_back(a: &mut TreeCopy, b: &mut TreeCopy)
    requires
        old(a).wf(),
        old(a).step is RemoveFolder,
        call_ensures(TreeCopy::folder_removed, (a,), ()),
        old(b).wf(),
        old(b).step is CopyPermissions,
        call_ensures(TreeCopy::permissions_copied, (b,), ()),
    ensures
        final(a)@.open == old(a)@.open.drop_last(),
        old(a)@.open.len() > 1 ==> final(a)@.phase == old(a)@.phase,
        old(a)@.open.len() == 1 ==> final(a)@.phase == (Phase::Done { result: Err(old(a)@.phase->error) }),
        final(b)@.open == old(b)@.open.drop_last(),
        old(b)@.open.len() > 1 ==> final(b)@.phase is NextItem,
        old(b)@.open.len() == 1 ==> final(b)@.phase == (Phase::Done { result: Ok(()) }),
        final(b)@.totals == old(b)@.totals,
{
}

/// An item is copied exactly when it can be inspected, is no link and does not belong to Git.
pub proof fn law_links_and_git_are_not_copied(
    requested: &str,
    inspected: Result<EntryType, String>,
    parts: &Vec<PathPart>,
    protected: bool,
    r: Result<EntryType, String>,
)
    requires
        call_ensures(paths::any_git_part, (parts,), protected),
        call_ensures(answer_copy_source, (requested, inspected, parts), r),
    ensures
        r is Ok <==> inspected is Ok && inspected->Ok_0 != EntryType::Symlink && !protected,
        r is Ok ==> r->Ok_0 == inspected->Ok_0,
        inspected is Err ==> (r matches Err(e) && e@ == "Cannot open '"@ + requested@ + "': "@ + (inspected->Err_0)@),
        inspected is Ok && inspected->Ok_0 == EntryType::Symlink ==> (r matches Err(e) && e@
            == "Symbolic-link copying is not enabled because following it could copy an unexpected location"@),
        inspected is Ok && inspected->Ok_0 != EntryType::Symlink && protected ==> (r matches Err(e) && e@
            == "Git metadata (.git) is protected in Local Drive"@),
{
}

/// A folder is not copied into itself or below itself, and a root is not copied; everything else may go anywhere.
pub proof fn law_no_folder_is_copied_into_itself(
    entry: EntryType,
    source: &Vec<PathPart>,
    target: &Vec<PathPart>,
    r: Result<(), String>,
)
    requires
        call_ensures(check_copy_target, (entry, source, target), r),
    ensures
        ({
            let from = paths::parts_view(source@);
            let to = paths::parts_view(target@);
            let inside = from.len() <= to.len() && to.take(from.len() as int) == from;
            let named = from.len() > 0 && from[from.len() - 1] is Normal;
            &&& r is Ok <==> !(entry == EntryType::Directory && inside) && named
            &&& entry == EntryType::Directory && inside ==> (r matches Err(e) && e@
                == "A folder cannot be copied into itself or one of its descendants"@)
            &&& !(entry == EntryType::Directory && inside) && !named ==> (r matches Err(e) && e@
                == "A filesystem root cannot be copied as one item"@)
        }),
{
    let from = paths::parts_view(source@);
    let to = paths::parts_view(target@);
    if from.len() <= to.len() {
        assert(to.take(from.len() as int) =~= to.subrange(0, from.len() as int));
    }
}

/// A copy is planned exactly where nothing is in its way: of a folder as a folder and of a file as a file, from the source
/// to the destination.
pub proof fn law_a_copy_is_planned_as_what_it_is(
    source: String,
    destination: String,
    occupied: bool,
    entry: EntryType,
    r: Result<CopyPlan, String>,
    copied: Result<u64, String>,
    done: Result<LocalCopyResult, String>,
)
    requires
        call_ensures(plan_copy, (source, destination, occupied, entry), r),
        call_ensures(finish_file_copy, (destination, copied), done),
    ensures
        occupied ==> (r matches Err(e) && e@ == "'"@ + destination@ + "' already exists — nothing was overwritten"@),
        !occupied && entry == EntryType::Directory ==> (r matches Ok(CopyPlan::Tree { tree }) && (tree@.phase matches
            Phase::CreateFolder { source: s, destination: d } && s == source@ && d == destination@) && tree@.totals.files
            == 0 && tree@.totals.directories == 0 && tree@.totals.bytes == 0 && tree@.totals.destination == destination@),
        !occupied && entry is File ==> (r matches Ok(CopyPlan::File { file }) && file.source@ == source@
            && file.destination@ == destination@ && file.step is OpenSource),
        !occupied && (entry == EntryType::Symlink || entry == EntryType::Other) ==> (r matches Err(e) && e@
            == "This item type cannot be copied safely"@),
        copied matches Ok(bytes) ==> (done matches Ok(made) && made.destination@ == destination@ && made.files == 1
            && made.directories == 0 && made.bytes == bytes),
        copied matches Err(e) ==> (done matches Err(m) && m@ == e@),
{
}

/// An item may be moved exactly when its path ends in a name and does not lead to or through Git's own folder, and be
/// deleted exactly when it also lies in a folder.
pub proof fn law_roots_and_git_are_never_touched(parts: Seq<paths::Part>, has_parent: bool)
    ensures
        ({
            let named = parts.len() > 0 && parts[parts.len() - 1] is Normal;
            let git = exists|i: int|
                0 <= i < parts.len() && (#[trigger] parts[i] matches paths::Part::Normal(name) && paths::is_git_name(name));
            &&& move_refusal(parts) is None <==> named && !git
            &&& !named ==> move_refusal(parts) == Some("A filesystem root cannot be moved"@)
            &&& named && git ==> move_refusal(parts) == Some("Git metadata (.git) is protected in Local Drive"@)
            &&& trash_refusal(has_parent, parts) is None <==> has_parent && named && !git
            &&& !has_parent || !named ==> trash_refusal(has_parent, parts) == Some("A filesystem root cannot be deleted"@)
            &&& has_parent && named && git ==> trash_refusal(has_parent, parts) == Some(
                "Git metadata (.git) is protected in Local Drive"@,
            )
        }),
{
}

/// What is told of a move and of a deletion that failed.
pub proof fn law_failed_moves_are_explained(target: &str, error: &str, r: String)
    requires
        call_ensures(trash_failed_message, (target, error), r),
    ensures
        r@ == "Could not move '"@ + target@ + "' to Trash/Recycle Bin: "@ + error@,
        link_not_moved() == "Symbolic-link moving is not enabled because its target may be unexpected"@,
        both_copies_kept(error@)
            == "The copy completed, but the original could not be moved to Trash. Both copies were kept safely. "@ + error@,
{
}

/// A folder that cannot be read stops the copy with its own path, and an item that cannot be read with what was told of it;
/// either way what was opened is taken back.
pub proof fn law_what_cannot_be_read_stops_a_copy(a: &mut TreeCopy, b: &mut TreeCopy, error: &str, told: String)
    requires
        old(a).wf(),
        old(a).step is NextItem,
        call_ensures(TreeCopy::folder_unreadable, (a, error), ()),
        old(b).wf(),
        old(b).step is NextItem,
        call_ensures(TreeCopy::item_unreadable, (b, told), ()),
    ensures
        final(a)@.phase == (Phase::RemoveFolder {
            error: "Cannot read '"@ + old(a)@.open[old(a)@.open.len() - 1].0 + "': "@ + error@,
        }),
        final(a)@.open == old(a)@.open,
        final(b)@.phase == (Phase::RemoveFolder { error: told@ }),
        final(b)@.open == old(b)@.open,
{
}

/// A file that cannot be copied and a folder that cannot be created stop the copy with their reason: at once where no folder
/// is open, and after what was opened is taken back otherwise.
pub proof fn law_what_cannot_be_made_stops_a_copy(
    a: &mut TreeCopy,
    b: &mut TreeCopy,
    told: String,
    source: Seq<char>,
    destination: Seq<char>,
    error: String,
    occupied: bool,
)
    requires
        old(a).wf(),
        old(a).step is CopyFile,
        call_ensures(TreeCopy::file_copied, (a, Err(told)), ()),
        old(b).wf(),
        old(b)@.phase == (Phase::CreateFolder { source, destination }),
        call_ensures(TreeCopy::folder_created, (b, Err(error), occupied), ()),
    ensures
        final(a)@.phase == (Phase::RemoveFolder { error: told@ }),
        final(a)@.open == old(a)@.open,
        final(a)@.totals == old(a)@.totals,
        final(b)@.open == old(b)@.open,
        final(b)@.totals == old(b)@.totals,
        ({
            let message = if occupied {
                "'"@ + destination + "' already exists — nothing was overwritten"@
            } else {
                "Cannot create '"@ + destination + "': "@ + error@
            };
            &&& old(b)@.open.len() > 0 ==> final(b)@.phase == (Phase::RemoveFolder { error: message })
            &&& old(b)@.open.len() == 0 ==> final(b)@.phase == (Phase::Done { result: Err(message) })
        }),
{
}

/// What a move that is not refused comes to where each of its steps has one outcome: an item that cannot be inspected and a
/// link are told as such, a copy that fails fails the move, and an original that cannot be deleted is told to have been
/// kept; only where all three succeed is the copy the answer.
pub proof fn law_a_move_comes_to_what_its_steps_come_to<
    Inspect: FnOnce(&str) -> Result<EntryType, String>,
    Copying: FnOnce(&str) -> Result<LocalCopyResult, String>,
    Deleting: FnOnce(&str) -> Result<(), String>,
>(
    source: &str,
    parts: Seq<paths::Part>,
    inspect: Inspect,
    copy: Copying,
    deleter: Deleting,
    inspected: Result<EntryType, String>,
    copied: Result<LocalCopyResult, String>,
    deleted: Result<(), String>,
    r: Result<LocalCopyResult, String>,
)
    requires
        moves(source, parts, inspect, copy, deleter, r),
        paths::ends_in_name(parts) && !paths::mentions_git(parts),
        forall|x: Result<EntryType, String>| #[trigger] inspect.ensures((source,), x) ==> x == inspected,
        forall|x: Result<LocalCopyResult, String>| #[trigger] copy.ensures((source,), x) ==> x == copied,
        forall|x: Result<(), String>| #[trigger] deleter.ensures((source,), x) ==> x == deleted,
    ensures
        inspected matches Err(error) ==> (r matches Err(e) && e@ == "Cannot open '"@ + source@ + "': "@ + error@),
        inspected == Ok::<EntryType, String>(EntryType::Symlink) ==> (r matches Err(e) && e@
            == "Symbolic-link moving is not enabled because its target may be unexpected"@),
        inspected is Ok && inspected->Ok_0 != EntryType::Symlink && copied is Err ==> r == copied,
        inspected is Ok && inspected->Ok_0 != EntryType::Symlink && copied is Ok && deleted is Ok ==> r == copied,
        inspected is Ok && inspected->Ok_0 != EntryType::Symlink && copied is Ok && deleted is Err ==> (r matches Err(e)
            && e@ == "The copy completed, but the original could not be moved to Trash. Both copies were kept safely. "@ + (
        deleted->Err_0)@),
{
    assert(move_refusal(parts) is None);
}

/// What is deleted is the item at the path exactly as it was typed between the white space around it, and only one that
/// could be inspected.
pub proof fn law_deleting_takes_the_path_as_typed<Inspect: FnOnce(&str) -> Result<EntryType, String>>(
    path: Seq<char>,
    lead: Seq<char>,
    core: Seq<char>,
    tail: Seq<char>,
    inspect: Inspect,
    r: Result<String, String>,
)
    requires
        path == lead + core + tail,
        text::is_blank(lead),
        text::is_tight(core),
        text::is_blank(tail),
        validates(path, inspect, r),
    ensures
        r matches Ok(target) ==> target@ == core,
        r is Ok ==> exists|target: &str, inspected: Result<EntryType, String>| #[trigger]
            inspect.ensures((target,), inspected) && target@ == core && inspected is Ok,
{
    text::lemma_trimmed_of_padded(lead, core, tail);
}

} // verus!
