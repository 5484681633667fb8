//! Guided merge actions: copying a file, replacing a file and creating a folder on the other side.
use crate::local_drive;
use crate::local_drive::merge::RelativePath;
use crate::local_drive::EntryType;
use crate::local_drive::LocalCopyResult;
use crate::paths;
use crate::paths::PathPart;
use crate::text;
use vstd::prelude::*;
use vstd::string::*;

verus! {

/// What a guided action is for.
pub enum Goal {
    /// Copy a file that the destination lacks.
    CopyFile,
    /// Replace a file whose fingerprint was `expected` when the folders were compared.
    ReplaceFile { expected: String },
    /// Create a folder that the destination lacks.
    CreateFolder,
}

/// What a guided action does next.
pub enum GuidedStep {
    /// Inspect the source without following links.
    InspectSource,
    /// Find out where the source really lies.
    ResolveSource,
    /// Look at the next folder on the way to the destination.
    ProbeFolder,
    /// Create that folder.
    CreateFolder,
    /// See whether the destination is there.
    CheckDestination,
    /// Copy the source to the destination, which must not exist.
    CopyFile,
    /// Inspect the destination without following links.
    InspectDestination,
    /// Take the fingerprint of the destination.
    FirstFingerprint,
    /// Choose a name next to the destination.
    NameStaged,
    /// Copy the source to that name.
    CopyStaged,
    /// Take the fingerprint of the destination once more.
    SecondFingerprint { bytes: u64 },
    /// Put the staged copy in the place of the destination.
    Install { bytes: u64 },
    /// Remove the staged copy, if that is possible.
    RemoveStaged { error: String },
    /// Nothing more.
    Done { result: Result<LocalCopyResult, String> },
}

/// How many folders lead to the destination of an item: for a folder that is created it counts itself.
pub fn folders_on_the_way(relative: &RelativePath, creates_folder: bool) -> (r: usize)
    ensures
        r == if creates_folder || relative.names@.len() == 0 {
            relative.names@.len() as int
        } else {
            relative.names@.len() - 1
        },
{
    let n: usize = relative.names.len();
    if creates_folder || n == 0 {
        n
    } else {
        n - 1
    }
}

/// Checks the two folders of a guided action. `same_folder` says whether they are one folder.
pub fn check_merge_roots(same_folder: bool) -> (r: Result<(), String>)
    ensures
        text::unit_view(r) == if same_folder {
            Err::<(), Seq<char>>("Source and destination folders must be different"@)
        } else {
            Ok(())
        },
{
    if same_folder {
        Err("Source and destination folders must be different".to_owned())
    } else {
        Ok(())
    }
}

/// A guided action.
pub struct GuidedMerge {
    pub goal: Goal,
    pub source: String,
    /// The folder that the source must lie in, by its components.
    pub left_root: Vec<PathPart>,
    /// The folders on the way to the destination, the outermost first.
    pub folders: Vec<String>,
    pub destination: String,
    /// How many of the folders are known to be there.
    pub ready: usize,
    /// The fingerprints of the destination that were taken.
    pub seen: Vec<String>,
    pub step: GuidedStep,
}

/// The message for a source that cannot be opened.
pub open spec fn source_unreadable(goal: Goal, source: Seq<char>, error: Seq<char>) -> Seq<char> {
    match goal {
        Goal::CreateFolder => "Cannot open source folder '"@ + source + "': "@ + error,
        _ => "Cannot open source '"@ + source + "': "@ + error,
    }
}

/// The message for a source of the wrong kind.
pub open spec fn wrong_source(goal: Goal) -> Seq<char> {
    match goal {
        Goal::CreateFolder => "Guided merge can create only a real source folder"@,
        _ => "Guided merge accepts regular files only"@,
    }
}

/// The message for a source that lies outside its folder.
pub open spec fn escaped_source(goal: Goal) -> Seq<char> {
    match goal {
        Goal::CreateFolder => "The source folder escaped the selected root"@,
        _ => "The source escaped the selected left folder"@,
    }
}

/// The message for something on the way to the destination that is not a folder.
pub open spec fn unsafe_folder(goal: Goal, folder: Seq<char>) -> Seq<char> {
    match goal {
        Goal::CreateFolder => "Destination '"@ + folder + "' is not a safe folder"@,
        _ => "Destination parent '"@ + folder + "' is not a safe folder"@,
    }
}

/// Whether an item of this type is what the action starts from.
pub open spec fn fits(goal: Goal, entry: EntryType) -> bool {
    match goal {
        Goal::CreateFolder => entry == EntryType::Directory,
        _ => entry is File,
    }
}

/// A guided action that has ended, by characters and numbers.
pub open spec fn done_with(step: GuidedStep, outcome: Result<local_drive::CopyTotals, Seq<char>>) -> bool {
    step matches GuidedStep::Done { result } && local_drive::copy_view(result) == outcome
}

impl GuidedMerge {
    /// The fingerprint that the destination must have.
    pub open spec fn expected(&self) -> Seq<char> {
        match self.goal {
            Goal::ReplaceFile { expected } => expected@,
            _ => Seq::empty(),
        }
    }

    /// Whether `n` fingerprints were taken, and each was the expected one.
    pub open spec fn confirmed(&self, n: int) -> bool {
        &&& self.goal is ReplaceFile
        &&& self.seen@.len() == n
        &&& forall|i: int| 0 <= i < n ==> (#[trigger] self.seen@[i])@ == self.expected()
    }

    /// The steps of an action come in order: the folders on the way are there before the destination is
    /// touched, and a file is replaced only after both its fingerprints were the expected one.
    pub open spec fn wf(&self) -> bool {
        &&& self.ready <= self.folders@.len()
        &&& match self.step {
            GuidedStep::InspectSource | GuidedStep::ResolveSource => self.ready == 0 && self.seen@.len() == 0,
            GuidedStep::ProbeFolder | GuidedStep::CreateFolder => self.ready < self.folders@.len()
                && self.seen@.len() == 0,
            GuidedStep::CheckDestination | GuidedStep::CopyFile => self.ready == self.folders@.len()
                && self.goal is CopyFile,
            GuidedStep::InspectDestination | GuidedStep::FirstFingerprint => self.ready == self.folders@.len()
                && self.confirmed(0),
            GuidedStep::NameStaged | GuidedStep::CopyStaged => self.ready == self.folders@.len()
                && self.confirmed(1),
            GuidedStep::SecondFingerprint { .. } => self.ready == self.folders@.len() && self.confirmed(1),
            GuidedStep::Install { .. } => self.ready == self.folders@.len() && self.confirmed(2),
            GuidedStep::RemoveStaged { .. } => self.goal is ReplaceFile,
            GuidedStep::Done { result } => result is Ok ==> {
                &&& self.ready == self.folders@.len()
                &&& self.goal is ReplaceFile ==> self.confirmed(2)
            },
        }
    }

    /// Whether the action is the same and only its progress differs.
    pub open spec fn same_job(&self, other: &GuidedMerge) -> bool {
        &&& self.goal == other.goal
        &&& self.source == other.source
        &&& self.left_root == other.left_root
        &&& self.folders == other.folders
        &&& self.destination == other.destination
    }

    /// Whether the action has seen this fingerprint after those that `before` has seen.
    pub open spec fn adds(&self, before: &GuidedMerge, fingerprint: Seq<char>) -> bool {
        &&& self.seen@.len() == before.seen@.len() + 1
        &&& self.seen@.drop_last() == before.seen@
        &&& self.seen@.last()@ == fingerprint
    }

    /// Whether the action has ended with this message.
    pub open spec fn failed(&self, message: Seq<char>) -> bool {
        done_with(self.step, Err(message))
    }

    /// Whether the action stands at the next folder on the way, or behind the last one at what it is for.
    pub open spec fn goes_on(&self) -> bool {
        if self.ready < self.folders@.len() {
            self.step is ProbeFolder
        } else {
            match self.goal {
                Goal::CopyFile => self.step is CheckDestination,
                Goal::ReplaceFile { .. } => self.step is InspectDestination,
                Goal::CreateFolder => done_with(
                    self.step,
                    Ok(
                        local_drive::CopyTotals {
                            destination: self.destination@,
                            files: 0,
                            directories: 1,
                            bytes: 0,
                        },
                    ),
                ),
            }
        }
    }

    /// Whether the action is the same and has seen the same fingerprints.
    pub open spec fn keeps(&self, before: &GuidedMerge) -> bool {
        self.wf() && self.same_job(before) && self.seen@ == before.seen@
    }

    /// Whether the action is where it stands after its source was to be inspected.
    pub open spec fn follows_inspection(&self, before: &GuidedMerge, inspected: Result<EntryType, Seq<char>>) -> bool {
        &&& self.keeps(before)
        &&& self.ready == before.ready
        &&& match inspected {
            Err(error) => self.failed(source_unreadable(before.goal, before.source@, error)),
            Ok(entry) => if fits(before.goal, entry) {
                self.step is ResolveSource
            } else {
                self.failed(wrong_source(before.goal))
            },
        }
    }

    /// Whether the action is where it stands after its source was to be resolved to where it really lies.
    pub open spec fn follows_resolution(
        &self,
        before: &GuidedMerge,
        resolved: Result<Seq<paths::Part>, Seq<char>>,
    ) -> bool {
        &&& self.keeps(before)
        &&& self.ready == before.ready
        &&& match resolved {
            Err(error) => self.failed(error),
            Ok(parts) => if paths::parts_view(before.left_root@).is_prefix_of(parts) {
                self.goes_on()
            } else {
                self.failed(escaped_source(before.goal))
            },
        }
    }

    /// Whether the action is where it stands after a folder on the way was looked at; `found` is nothing where
    /// nothing is there.
    pub open spec fn follows_probe(
        &self,
        before: &GuidedMerge,
        found: Option<Result<EntryType, Seq<char>>>,
    ) -> bool {
        &&& self.keeps(before)
        &&& self.ready == if found == Some(Ok::<EntryType, Seq<char>>(EntryType::Directory)) {
            before.ready + 1
        } else {
            before.ready as int
        }
        &&& match found {
            None => self.step is CreateFolder,
            Some(Err(error)) => self.failed(error),
            Some(Ok(EntryType::Directory)) => self.goes_on(),
            Some(Ok(_)) => self.failed(unsafe_folder(before.goal, before.folders@[before.ready as int]@)),
        }
    }

    /// Whether the action is where it stands after a folder on the way was to be created.
    pub open spec fn follows_creation(&self, before: &GuidedMerge, created: Result<(), Seq<char>>) -> bool {
        &&& self.keeps(before)
        &&& self.ready == if created is Ok {
            before.ready + 1
        } else {
            before.ready as int
        }
        &&& match created {
            Err(error) => self.failed(
                "Cannot create destination folder '"@ + before.folders@[before.ready as int]@ + "': "@ + error,
            ),
            Ok(_) => self.goes_on(),
        }
    }

    fn start(
        goal: Goal,
        source: String,
        left_root: Vec<PathPart>,
        folders: Vec<String>,
        destination: String,
    ) -> (r: Self)
        ensures
            r.wf(),
            r.goal == goal,
            r.source == source,
            r.left_root == left_root,
            r.folders == folders,
            r.destination == destination,
            r.step is InspectSource,
    {
        GuidedMerge {
            goal,
            source,
            left_root,
            folders,
            destination,
            ready: 0,
            seen: Vec::new(),
            step: GuidedStep::InspectSource,
        }
    }

    fn fail(&mut self, message: String)
        requires
            old(self).wf(),
        ensures
            final(self).wf(),
            final(self).same_job(old(self)),
            final(self).seen@ == old(self).seen@,
            final(self).ready == old(self).ready,
            final(self).failed(message@),
    {
        self.step = GuidedStep::Done { result: Err(message) };
    }

    /// Goes on after the source was to be inspected.
    pub fn source_inspected(&mut self, inspected: Result<EntryType, String>)
        requires
            old(self).wf(),
            old(self).step is InspectSource,
        ensures
            final(self).follows_inspection(old(self), local_drive::inspected_view(inspected)),
    {
        let creates: bool = match &self.goal {
            Goal::CreateFolder => true,
            _ => false,
        };
        match inspected {
            Err(error) => {
                let mut message: String = if creates {
                    text::framed("Cannot open source folder '", self.source.as_str(), "': ")
                } else {
                    text::framed("Cannot open source '", self.source.as_str(), "': ")
                };
                message.append(error.as_str());
                self.fail(message);
            },
            Ok(entry) => {
                let right_kind: bool = match entry {
                    EntryType::Directory => creates,
                    EntryType::File { .. } => !creates,
                    _ => false,
                };
                if right_kind {
                    self.step = GuidedStep::ResolveSource;
                } else if creates {
                    self.fail("Guided merge can create only a real source folder".to_owned());
                } else {
                    self.fail("Guided merge accepts regular files only".to_owned());
                }
            },
        }
    }

    /// Goes on after the source was to be resolved: `resolved` is where it really lies, by its components.
    pub fn source_resolved(&mut self, resolved: Result<Vec<PathPart>, String>)
        requires
            old(self).wf(),
            old(self).step is ResolveSource,
        ensures
            final(self).follows_resolution(
                old(self),
                match resolved {
                    Ok(parts) => Ok(paths::parts_view(parts@)),
                    Err(e) => Err(e@),
                },
            ),
    {
        match resolved {
            Err(error) => {
                self.fail(error);
            },
            Ok(parts) => {
                if paths::lies_inside(&parts, &self.left_root) {
                    self.advance();
                } else {
                    let creates: bool = match &self.goal {
                        Goal::CreateFolder => true,
                        _ => false,
                    };
                    if creates {
                        self.fail("The source folder escaped the selected root".to_owned());
                    } else {
                        self.fail("The source escaped the selected left folder".to_owned());
                    }
                }
            },
        }
    }

    fn advance(&mut self)
        requires
            old(self).ready <= old(self).folders@.len(),
            old(self).seen@.len() == 0,
        ensures
            final(self).wf(),
            final(self).same_job(old(self)),
            final(self).seen@ == old(self).seen@,
            final(self).ready == old(self).ready,
            final(self).goes_on(),
    {
        if self.ready < self.folders.len() {
            self.step = GuidedStep::ProbeFolder;
        } else {
            match &self.goal {
                Goal::CopyFile => {
                    self.step = GuidedStep::CheckDestination;
                },
                Goal::ReplaceFile { .. } => {
                    self.step = GuidedStep::InspectDestination;
                },
                Goal::CreateFolder => {
                    let result = LocalCopyResult {
                        destination: self.destination.clone(),
                        files: 0,
                        directories: 1,
                        bytes: 0,
                    };
                    self.step = GuidedStep::Done { result: Ok(result) };
                },
            }
        }
    }

    fn pass_folder(&mut self)
        requires
            old(self).ready < old(self).folders@.len(),
            old(self).seen@.len() == 0,
        ensures
            final(self).wf(),
            final(self).same_job(old(self)),
            final(self).seen@ == old(self).seen@,
            final(self).ready == old(self).ready + 1,
            final(self).goes_on(),
    {
        let count: usize = self.folders.len();
        assert(self.ready < count);
        self.ready = self.ready + 1;
        self.advance();
    }

    /// Goes on after a folder on the way was looked at; `found` is nothing where nothing is there.
    pub fn folder_probed(&mut self, found: Option<Result<EntryType, String>>)
        requires
            old(self).wf(),
            old(self).step is ProbeFolder,
        ensures
            final(self).follows_probe(
                old(self),
                match found {
                    Some(inspected) => Some(local_drive::inspected_view(inspected)),
                    None => None,
                },
            ),
    {
        match found {
            None => {
                self.step = GuidedStep::CreateFolder;
            },
            Some(Err(error)) => {
                self.fail(error);
            },
            Some(Ok(EntryType::Directory)) => {
                self.pass_folder();
            },
            Some(Ok(_)) => {
                let creates: bool = match &self.goal {
                    Goal::CreateFolder => true,
                    _ => false,
                };
                let before: &str = if creates {
                    "Destination '"
                } else {
                    "Destination parent '"
                };
                let message: String = text::framed(
                    before,
                    self.folders[self.ready].as_str(),
                    "' is not a safe folder",
                );
                self.fail(message);
            },
        }
    }

    /// Goes on after a folder on the way was to be created.
    pub fn folder_created(&mut self, created: Result<(), String>)
        requires
            old(self).wf(),
            old(self).step is CreateFolder,
        ensures
            final(self).follows_creation(old(self), text::unit_view(created)),
    {
        match created {
            Err(error) => {
                let mut message: String = text::framed(
                    "Cannot create destination folder '",
                    self.folders[self.ready].as_str(),
                    "': ",
                );
                message.append(error.as_str());
                self.fail(message);
            },
            Ok(_) => {
                self.pass_folder();
            },
        }
    }

    /// Goes on after the destination was looked for. What is there is never written over.
    pub fn destination_checked(&mut self, occupied: bool)
        requires
            old(self).wf(),
            old(self).step is CheckDestination,
        ensures
            final(self).wf(),
            final(self).same_job(old(self)),
            final(self).seen@ == old(self).seen@,
            if occupied {
                final(self).failed(
                    "'"@ + old(self).destination@
                        + "' now exists. Nothing was overwritten — compare the folders again."@,
                )
            } else {
                final(self).step is CopyFile
            },
    {
        if occupied {
            let message: String = text::framed(
                "'",
                self.destination.as_str(),
                "' now exists. Nothing was overwritten — compare the folders again.",
            );
            self.fail(message);
        } else {
            self.step = GuidedStep::CopyFile;
        }
    }

    /// What is reported of one file that was put at the destination.
    pub open spec fn one_file(&self, bytes: u64) -> local_drive::CopyTotals {
        local_drive::CopyTotals { destination: self.destination@, files: 1, directories: 0, bytes }
    }

    fn succeed(&mut self, bytes: u64)
        requires
            old(self).ready == old(self).folders@.len(),
            old(self).goal is ReplaceFile ==> old(self).confirmed(2),
        ensures
            final(self).wf(),
            final(self).same_job(old(self)),
            final(self).seen@ == old(self).seen@,
            done_with(final(self).step, Ok(old(self).one_file(bytes))),
    {
        let result = LocalCopyResult { destination: self.destination.clone(), files: 1, directories: 0, bytes };
        self.step = GuidedStep::Done { result: Ok(result) };
    }

    /// Goes on after the source was to be copied to the destination.
    pub fn file_copied(&mut self, copied: Result<u64, String>)
        requires
            old(self).wf(),
            old(self).step is CopyFile,
        ensures
            final(self).wf(),
            final(self).same_job(old(self)),
            final(self).seen@ == old(self).seen@,
            match copied {
                Err(error) => final(self).failed(error@),
                Ok(bytes) => done_with(final(self).step, Ok(old(self).one_file(bytes))),
            },
    {
        match copied {
            Err(error) => {
                self.fail(error);
            },
            Ok(bytes) => {
                self.succeed(bytes);
            },
        }
    }

    /// Goes on after the destination was to be inspected.
    pub fn destination_inspected(&mut self, inspected: Result<EntryType, String>)
        requires
            old(self).wf(),
            old(self).step is InspectDestination,
        ensures
            final(self).wf(),
            final(self).same_job(old(self)),
            final(self).seen@ == old(self).seen@,
            match inspected {
                Err(error) => final(self).failed(
                    "Cannot open destination '"@ + old(self).destination@ + "': "@ + error@,
                ),
                Ok(EntryType::File { .. }) => final(self).step is FirstFingerprint,
                Ok(_) => final(self).failed(
                    "The destination is no longer a regular file. Nothing was overwritten."@,
                ),
            },
    {
        match inspected {
            Err(error) => {
                let mut message: String = text::framed(
                    "Cannot open destination '",
                    self.destination.as_str(),
                    "': ",
                );
                message.append(error.as_str());
                self.fail(message);
            },
            Ok(EntryType::File { .. }) => {
                self.step = GuidedStep::FirstFingerprint;
            },
            Ok(_) => {
                self.fail("The destination is no longer a regular file. Nothing was overwritten.".to_owned());
            },
        }
    }

    fn is_expected(&self, fingerprint: &str) -> (r: bool)
        requires
            self.goal is ReplaceFile,
        ensures
            r == (fingerprint@ == self.expected()),
    {
        match &self.goal {
            Goal::ReplaceFile { expected } => text::same_text(fingerprint, expected.as_str()),
            _ => false,
        }
    }

    /// Goes on after the fingerprint of the destination was to be taken.
    pub fn first_fingerprint_taken(&mut self, taken: Result<String, String>)
        requires
            old(self).wf(),
            old(self).step is FirstFingerprint,
        ensures
            final(self).wf(),
            final(self).same_job(old(self)),
            match taken {
                Ok(fingerprint) if fingerprint@ == old(self).expected() => final(self).adds(old(self), fingerprint@),
                _ => final(self).seen@ == old(self).seen@,
            },
            match taken {
                Err(error) => final(self).failed(error@),
                Ok(fingerprint) => if fingerprint@ == old(self).expected() {
                    final(self).step is NameStaged
                } else {
                    final(self).failed(
                        "'"@ + old(self).destination@
                            + "' changed after the folder scan. Nothing was overwritten — compare the folders again."@,
                    )
                },
            },
    {
        match taken {
            Err(error) => {
                self.fail(error);
            },
            Ok(fingerprint) => {
                if self.is_expected(fingerprint.as_str()) {
                    self.seen.push(fingerprint);
                    assert(self.seen@.drop_last() =~= old(self).seen@);
                    self.step = GuidedStep::NameStaged;
                } else {
                    let message: String = text::framed(
                        "'",
                        self.destination.as_str(),
                        "' changed after the folder scan. Nothing was overwritten — compare the folders again.",
                    );
                    self.fail(message);
                }
            },
        }
    }

    /// Goes on after a name for the staged copy was to be chosen.
    pub fn staged_named(&mut self, named: Result<(), String>)
        requires
            old(self).wf(),
            old(self).step is NameStaged,
        ensures
            final(self).wf(),
            final(self).same_job(old(self)),
            final(self).seen@ == old(self).seen@,
            match named {
                Err(error) => final(self).failed(error@),
                Ok(_) => final(self).step is CopyStaged,
            },
    {
        match named {
            Err(error) => {
                self.fail(error);
            },
            Ok(_) => {
                self.step = GuidedStep::CopyStaged;
            },
        }
    }

    /// Goes on after the source was to be copied to the staged name.
    pub fn staged_copied(&mut self, copied: Result<u64, String>)
        requires
            old(self).wf(),
            old(self).step is CopyStaged,
        ensures
            final(self).wf(),
            final(self).same_job(old(self)),
            final(self).seen@ == old(self).seen@,
            match copied {
                Err(error) => final(self).step matches GuidedStep::RemoveStaged { error: e } && e@ == error@,
                Ok(n) => final(self).step matches GuidedStep::SecondFingerprint { bytes } && bytes == n,
            },
    {
        match copied {
            Err(error) => {
                self.step = GuidedStep::RemoveStaged { error };
            },
            Ok(bytes) => {
                self.step = GuidedStep::SecondFingerprint { bytes };
            },
        }
    }

    /// Goes on after the fingerprint of the destination was to be taken once more. Where it could not be
    /// taken the staged copy stays.
    pub fn second_fingerprint_taken(&mut self, taken: Result<String, String>)
        requires
            old(self).wf(),
            old(self).step is SecondFingerprint,
        ensures
            final(self).wf(),
            final(self).same_job(old(self)),
            match taken {
                Ok(fingerprint) if fingerprint@ == old(self).expected() => final(self).adds(old(self), fingerprint@),
                _ => final(self).seen@ == old(self).seen@,
            },
            match taken {
                Err(error) => final(self).failed(error@),
                Ok(fingerprint) => if fingerprint@ == old(self).expected() {
                    final(self).step matches GuidedStep::Install { bytes } && bytes
                        == old(self).step->SecondFingerprint_bytes
                } else {
                    final(self).step matches GuidedStep::RemoveStaged { error } && error@ == "'"@
                        + old(self).destination@
                        + "' changed while the replacement was prepared. Nothing was overwritten."@
                },
            },
    {
        if let GuidedStep::SecondFingerprint { bytes } = &self.step {
            let bytes: u64 = *bytes;
            match taken {
                Err(error) => {
                    self.fail(error);
                },
                Ok(fingerprint) => {
                    if self.is_expected(fingerprint.as_str()) {
                        self.seen.push(fingerprint);
                        assert(self.seen@.drop_last() =~= old(self).seen@);
                        self.step = GuidedStep::Install { bytes };
                    } else {
                        let error: String = text::framed(
                            "'",
                            self.destination.as_str(),
                            "' changed while the replacement was prepared. Nothing was overwritten.",
                        );
                        self.step = GuidedStep::RemoveStaged { error };
                    }
                },
            }
        }
    }

    /// Goes on after the staged copy was to be put in place.
    pub fn installed(&mut self, outcome: Result<(), String>)
        requires
            old(self).wf(),
            old(self).step is Install,
        ensures
            final(self).wf(),
            final(self).same_job(old(self)),
            final(self).seen@ == old(self).seen@,
            match outcome {
                Err(error) => final(self).step matches GuidedStep::RemoveStaged { error: e } && e@ == error@,
                Ok(_) => done_with(final(self).step, Ok(old(self).one_file(old(self).step->Install_bytes))),
            },
    {
        if let GuidedStep::Install { bytes } = &self.step {
            let bytes: u64 = *bytes;
            match outcome {
                Err(error) => {
                    self.step = GuidedStep::RemoveStaged { error };
                },
                Ok(_) => {
                    self.succeed(bytes);
                },
            }
        }
    }

    /// Goes on after the staged copy was to be removed.
    pub fn staged_removed(&mut self)
        requires
            old(self).wf(),
            old(self).step is RemoveStaged,
        ensures
            final(self).wf(),
            final(self).same_job(old(self)),
            final(self).seen@ == old(self).seen@,
            final(self).failed(old(self).step->error@),
    {
        if let GuidedStep::RemoveStaged { error } = &self.step {
            let error: String = error.clone();
            self.step = GuidedStep::Done { result: Err(error) };
        }
    }
}

/// Begins to copy a file that the destination lacks, out of the folder with the components `left_root`. `folders`
/// are the folders on the way to the destination.
pub fn copy_local_merge_file_inner(
    source: String,
    left_root: Vec<PathPart>,
    folders: Vec<String>,
    destination: String,
) -> (r: GuidedMerge)
    ensures
        r.wf(),
        r.goal is CopyFile,
        r.source == source,
        r.left_root == left_root,
        r.folders == folders,
        r.destination == destination,
        r.step is InspectSource,
{
    GuidedMerge::start(Goal::CopyFile, source, left_root, folders, destination)
}

/// The last of the folders on the way, or the folder that they lead out of where there is none.
pub open spec fn last_folder(root: Seq<char>, folders: Seq<Seq<char>>) -> Seq<char> {
    if folders.len() == 0 {
        root
    } else {
        folders.last()
    }
}

/// Begins to create a folder that the destination lacks. `folders` are the folders on the way to it below
/// `root`, itself the last.
pub fn create_local_merge_directory_inner(
    source: String,
    left_root: Vec<PathPart>,
    root: String,
    folders: Vec<String>,
) -> (r: GuidedMerge)
    ensures
        r.wf(),
        r.goal is CreateFolder,
        r.source == source,
        r.left_root == left_root,
        r.folders == folders,
        r.destination@ == last_folder(root@, text::texts_view(folders@)),
        r.step is InspectSource,
{
    let count: usize = folders.len();
    let destination: String = if count == 0 {
        root
    } else {
        folders[count - 1].clone()
    };
    GuidedMerge::start(Goal::CreateFolder, source, left_root, folders, destination)
}

/// Begins to replace a file whose fingerprint was `expected` when the folders were compared.
pub fn replace_local_merge_file_inner(
    source: String,
    left_root: Vec<PathPart>,
    folders: Vec<String>,
    destination: String,
    expected: String,
) -> (r: GuidedMerge)
    ensures
        r.wf(),
        r.goal is ReplaceFile,
        r.expected() == expected@,
        r.source == source,
        r.left_root == left_root,
        r.folders == folders,
        r.destination == destination,
        r.step is InspectSource,
{
    GuidedMerge::start(Goal::ReplaceFile { expected }, source, left_root, folders, destination)
}

/// A file is replaced only after its fingerprint was found to be the expected one twice: before the
/// replacement was prepared and again when it was ready.
pub proof fn law_replaces_only_what_was_compared(action: GuidedMerge)
    requires
        action.wf(),
        action.step is Install || (action.goal is ReplaceFile && action.step is Done
            && action.step->result is Ok),
    ensures
        action.seen@.len() == 2,
        action.seen@[0]@ == action.expected(),
        action.seen@[1]@ == action.expected(),
{
}

/// No action touches its destination before every folder on the way to it was found or created.
pub proof fn law_folders_come_before_the_destination(action: GuidedMerge)
    requires
        action.wf(),
        action.step is CopyFile || action.step is CopyStaged || action.step is Install,
    ensures
        action.ready == action.folders@.len(),
{
}

// Creating a folder again.

/// What the file system holds while a folder is created.
#[verifier::ext_equal]
pub struct World {
    /// What inspecting the source says.
    pub source: Result<EntryType, Seq<char>>,
    /// Where the source really lies, by its components.
    pub resolved: Result<Seq<paths::Part>, Seq<char>>,
    /// What lies at a path.
    pub items: Map<Seq<char>, EntryType>,
}

/// An action and the file system at one time.
pub struct Moment {
    pub action: GuidedMerge,
    pub world: World,
}

impl World {
    /// What is found at a path.
    pub open spec fn found(self, path: Seq<char>) -> Option<Result<EntryType, Seq<char>>> {
        if self.items.dom().contains(path) {
            Some(Ok(self.items[path]))
        } else {
            None
        }
    }

    /// The file system with a folder at a path.
    pub open spec fn with_folder(self, path: Seq<char>) -> World {
        World { items: self.items.insert(path, EntryType::Directory), ..self }
    }
}

/// Whether one moment follows another while a folder is created. Only a folder that is created changes the file
/// system.
pub open spec fn moves_on(before: Moment, after: Moment) -> bool {
    let folder = before.action.folders@[before.action.ready as int]@;
    match before.action.step {
        GuidedStep::InspectSource => after.world == before.world && after.action.follows_inspection(
            &before.action,
            before.world.source,
        ),
        GuidedStep::ResolveSource => after.world == before.world && after.action.follows_resolution(
            &before.action,
            before.world.resolved,
        ),
        GuidedStep::ProbeFolder => after.world == before.world && after.action.follows_probe(
            &before.action,
            before.world.found(folder),
        ),
        GuidedStep::CreateFolder => {
            ||| after.world == before.world.with_folder(folder) && after.action.follows_creation(
                &before.action,
                Ok(()),
            )
            ||| after.world == before.world && exists|error: Seq<char>| #[trigger]
                after.action.follows_creation(&before.action, Err(error))
        },
        _ => false,
    }
}

/// Whether moments follow each other while a folder is created, from the beginning to the end.
pub open spec fn creates_folder(moments: Seq<Moment>) -> bool {
    &&& moments.len() > 0
    &&& moments[0].action.wf()
    &&& moments[0].action.goal is CreateFolder
    &&& moments[0].action.step is InspectSource
    &&& forall|i: int| 0 <= i < moments.len() - 1 ==> moves_on(#[trigger] moments[i], moments[i + 1])
    &&& moments.last().action.step is Done
}

/// What is reported of a folder that was created.
pub open spec fn one_folder(destination: Seq<char>) -> local_drive::CopyTotals {
    local_drive::CopyTotals { destination, files: 0, directories: 1, bytes: 0 }
}

spec fn resolves_inside(action: GuidedMerge, world: World) -> bool {
    world.resolved is Ok && paths::parts_view(action.left_root@).is_prefix_of(world.resolved->Ok_0)
}

spec fn so_far(start: Moment, now: Moment) -> bool {
    let action = now.action;
    let past_source = action.step is ProbeFolder || action.step is CreateFolder || (action.step is Done
        && action.step->result is Ok);
    &&& action.wf()
    &&& action.same_job(&start.action)
    &&& now.world.source == start.world.source
    &&& now.world.resolved == start.world.resolved
    &&& action.step is InspectSource || action.step is ResolveSource || action.step is ProbeFolder || action.step is CreateFolder
        || action.step is Done
    &&& forall|k: int|
        0 <= k < action.ready ==> now.world.items.dom().contains((#[trigger] action.folders@[k])@)
            && now.world.items[action.folders@[k]@] == EntryType::Directory
    &&& past_source || action.step is ResolveSource ==> now.world.source is Ok && fits(
        start.action.goal,
        now.world.source->Ok_0,
    )
    &&& past_source ==> resolves_inside(start.action, now.world)
    &&& action.step is Done && action.step->result is Ok ==> done_with(
        action.step,
        Ok(one_folder(start.action.destination@)),
    )
}

proof fn lemma_so_far(moments: Seq<Moment>, i: int)
    requires
        creates_folder(moments),
        0 <= i < moments.len(),
    ensures
        so_far(moments[0], moments[i]),
    decreases i,
{
    if i > 0 {
        lemma_so_far(moments, i - 1);
        let before = moments[i - 1];
        let now = moments[i];
        assert(moves_on(moments[i - 1], moments[i - 1 + 1]));
        assert(now.action.folders == before.action.folders);
    }
}

spec fn stays(start: Moment, now: Moment) -> bool {
    let action = now.action;
    &&& action.wf()
    &&& action.same_job(&start.action)
    &&& now.world == start.world
    &&& action.step is InspectSource || action.step is ResolveSource || action.goes_on()
}

proof fn lemma_stays(moments: Seq<Moment>, i: int)
    requires
        creates_folder(moments),
        0 <= i < moments.len(),
        moments[0].world.source is Ok,
        fits(moments[0].action.goal, moments[0].world.source->Ok_0),
        resolves_inside(moments[0].action, moments[0].world),
        forall|k: int|
            0 <= k < moments[0].action.folders@.len() ==> moments[0].world.items.dom().contains(
                (#[trigger] moments[0].action.folders@[k])@,
            ) && moments[0].world.items[moments[0].action.folders@[k]@] == EntryType::Directory,
    ensures
        stays(moments[0], moments[i]),
    decreases i,
{
    if i > 0 {
        lemma_stays(moments, i - 1);
        let before = moments[i - 1];
        let now = moments[i];
        assert(moves_on(moments[i - 1], moments[i - 1 + 1]));
        if before.action.step is ProbeFolder {
            let folder = moments[0].action.folders@[before.action.ready as int];
            assert(before.world.found(folder@) == Some(Ok::<EntryType, Seq<char>>(EntryType::Directory)));
        }
    }
}

/// A folder that was created once is there, with the folders on the way to it, and no file was copied. Creating
/// it again while nothing else changes gives the same answer, creates nothing and leaves the file system as it
/// is.
pub proof fn law_creating_a_folder_again_changes_nothing(first: Seq<Moment>, second: Seq<Moment>)
    requires
        creates_folder(first),
        first.last().action.step->result is Ok,
        creates_folder(second),
        text::texts_view(second[0].action.folders@) == text::texts_view(first[0].action.folders@),
        second[0].action.destination@ == first[0].action.destination@,
        paths::parts_view(second[0].action.left_root@) == paths::parts_view(first[0].action.left_root@),
        second[0].world == first.last().world,
    ensures
        done_with(first.last().action.step, Ok(one_folder(first[0].action.destination@))),
        forall|k: int|
            0 <= k < first[0].action.folders@.len() ==> first.last().world.found(
                (#[trigger] first[0].action.folders@[k])@,
            ) == Some(Ok::<EntryType, Seq<char>>(EntryType::Directory)),
        forall|i: int|
            0 <= i < first.len() ==> !((#[trigger] first[i]).action.step is CopyFile) && !(
            first[i].action.step is CopyStaged) && !(first[i].action.step is Install),
        done_with(second.last().action.step, Ok(one_folder(first[0].action.destination@))),
        forall|i: int|
            0 <= i < second.len() ==> (#[trigger] second[i]).world == first.last().world && !(
            second[i].action.step is CreateFolder),
{
    let end = first.len() - 1;
    lemma_so_far(first, end);
    let folders = first[0].action.folders@;
    assert(first[end].action.ready == folders.len());
    assert forall|k: int| 0 <= k < folders.len() implies first.last().world.found((#[trigger] folders[k])@) == Some(
        Ok::<EntryType, Seq<char>>(EntryType::Directory),
    ) by {
        assert(first[end].action.folders@[k] == folders[k]);
    }
    assert forall|i: int| 0 <= i < first.len() implies !((#[trigger] first[i]).action.step is CopyFile) && !(
    first[i].action.step is CopyStaged) && !(first[i].action.step is Install) by {
        lemma_so_far(first, i);
    }
    let again = second[0].action.folders@;
    assert(text::texts_view(again).len() == text::texts_view(folders).len());
    assert forall|k: int| 0 <= k < again.len() implies second[0].world.items.dom().contains((#[trigger] again[k])@)
        && second[0].world.items[again[k]@] == EntryType::Directory by {
        assert(text::texts_view(again)[k] == again[k]@);
        assert(text::texts_view(folders)[k] == folders[k]@);
        assert(first.last().world.found(folders[k]@) == Some(Ok::<EntryType, Seq<char>>(EntryType::Directory)));
    }
    assert forall|i: int| 0 <= i < second.len() implies (#[trigger] second[i]).world == first.last().world && !(
    second[i].action.step is CreateFolder) by {
        lemma_stays(second, i);
    }
    lemma_stays(second, second.len() - 1);
}

// What each step of a guided action leads to.

/// A guided action starts only from what it is for: a file is copied and replaced from a regular file, and a folder created
/// from a folder, and only where that really lies in its root.
pub proof fn law_a_guided_action_starts_from_what_it_is_for(
    a: &mut GuidedMerge,
    b: &mut GuidedMerge,
    inspected: Result<EntryType, String>,
    resolved: Vec<PathPart>,
)
    requires
        old(a).wf(),
        old(a).step is InspectSource,
        call_ensures(GuidedMerge::source_inspected, (a, inspected), ()),
        old(b).wf(),
        old(b).step is ResolveSource,
        call_ensures(GuidedMerge::source_resolved, (b, Ok(resolved)), ()),
    ensures
        final(a).step is ResolveSource <==> inspected is Ok && (old(a).goal is CreateFolder && inspected->Ok_0
            == EntryType::Directory || !(old(a).goal is CreateFolder) && inspected->Ok_0 is File),
        inspected is Ok && old(a).goal is CreateFolder && inspected->Ok_0 != EntryType::Directory ==> done_with(
            final(a).step,
            Err("Guided merge can create only a real source folder"@),
        ),
        inspected is Ok && !(old(a).goal is CreateFolder) && !(inspected->Ok_0 is File) ==> done_with(
            final(a).step,
            Err("Guided merge accepts regular files only"@),
        ),
        inspected is Err && old(a).goal is CreateFolder ==> done_with(
            final(a).step,
            Err("Cannot open source folder '"@ + old(a).source@ + "': "@ + (inspected->Err_0)@),
        ),
        inspected is Err && !(old(a).goal is CreateFolder) ==> done_with(
            final(a).step,
            Err("Cannot open source '"@ + old(a).source@ + "': "@ + (inspected->Err_0)@),
        ),
        ({
            let root = paths::parts_view(old(b).left_root@);
            let lies = paths::parts_view(resolved@);
            let inside = root.len() <= lies.len() && lies.take(root.len() as int) == root;
            &&& !inside && old(b).goal is CreateFolder ==> done_with(
                final(b).step,
                Err("The source folder escaped the selected root"@),
            )
            &&& !inside && !(old(b).goal is CreateFolder) ==> done_with(
                final(b).step,
                Err("The source escaped the selected left folder"@),
            )
            &&& inside && old(b).folders@.len() > 0 ==> final(b).step is ProbeFolder
            &&& inside && old(b).folders@.len() == 0 && old(b).goal is CopyFile ==> final(b).step is CheckDestination
            &&& inside && old(b).folders@.len() == 0 && old(b).goal is ReplaceFile ==> final(b).step is InspectDestination
        }),
{
    let root = paths::parts_view(old(b).left_root@);
    let lies = paths::parts_view(resolved@);
    if root.len() <= lies.len() {
        assert(lies.take(root.len() as int) =~= lies.subrange(0, root.len() as int));
    }
}

/// A folder on the way is created exactly where nothing is, passed where it is a folder, and stops the action where it is
/// anything else.
pub proof fn law_folders_on_the_way_are_found_or_created(
    a: &mut GuidedMerge,
    b: &mut GuidedMerge,
    entry: EntryType,
    missing: bool,
    found: Option<Result<EntryType, String>>,
    created: Result<(), String>,
)
    requires
        old(a).wf(),
        old(a).step is ProbeFolder,
        found == if missing {
            None::<Result<EntryType, String>>
        } else {
            Some(Ok(entry))
        },
        call_ensures(GuidedMerge::folder_probed, (a, found), ()),
        old(b).wf(),
        old(b).step is CreateFolder,
        call_ensures(GuidedMerge::folder_created, (b, created), ()),
    ensures
        final(a).step is CreateFolder <==> missing,
        !missing && entry == EntryType::Directory ==> final(a).ready == old(a).ready + 1,
        !missing && entry != EntryType::Directory && old(a).goal is CreateFolder ==> done_with(
            final(a).step,
            Err("Destination '"@ + old(a).folders@[old(a).ready as int]@ + "' is not a safe folder"@),
        ),
        !missing && entry != EntryType::Directory && !(old(a).goal is CreateFolder) ==> done_with(
            final(a).step,
            Err("Destination parent '"@ + old(a).folders@[old(a).ready as int]@ + "' is not a safe folder"@),
        ),
        created is Ok ==> final(b).ready == old(b).ready + 1,
        created matches Err(e) ==> done_with(
            final(b).step,
            Err("Cannot create destination folder '"@ + old(b).folders@[old(b).ready as int]@ + "': "@ + e@),
        ),
        created is Ok && final(b).ready < old(b).folders@.len() ==> final(b).step is ProbeFolder,
        created is Ok && final(b).ready == old(b).folders@.len() && old(b).goal is CreateFolder ==> done_with(
            final(b).step,
            Ok(
                (local_drive::CopyTotals { destination: old(b).destination@, files: 0, directories: 1, bytes: 0 }),
            ),
        ),
{
}

/// A file that is copied is never written over what is there, and counts as one file with its bytes.
pub proof fn law_a_guided_copy_never_overwrites(a: &mut GuidedMerge, b: &mut GuidedMerge, occupied: bool, bytes: u64)
    requires
        old(a).wf(),
        old(a).step is CheckDestination,
        call_ensures(GuidedMerge::destination_checked, (a, occupied), ()),
        old(b).wf(),
        old(b).step is CopyFile,
        call_ensures(GuidedMerge::file_copied, (b, Ok(bytes)), ()),
    ensures
        final(a).step is CopyFile <==> !occupied,
        occupied ==> done_with(
            final(a).step,
            Err(
                "'"@ + old(a).destination@ + "' now exists. Nothing was overwritten — compare the folders again."@,
            ),
        ),
        done_with(
            final(b).step,
            Ok((local_drive::CopyTotals { destination: old(b).destination@, files: 1, directories: 0, bytes })),
        ),
{
}

/// A file is replaced only while it still is what was compared: its fingerprint is taken before the replacement is staged
/// and again before it is put in place, and any other fingerprint stops the action without a trace.
pub proof fn law_a_changed_file_is_not_replaced(
    a: &mut GuidedMerge,
    b: &mut GuidedMerge,
    c: &mut GuidedMerge,
    d: &mut GuidedMerge,
    inspected: EntryType,
    first: String,
    second: String,
    bytes: u64,
)
    requires
        old(a).wf(),
        old(a).step is InspectDestination,
        call_ensures(GuidedMerge::destination_inspected, (a, Ok(inspected)), ()),
        old(b).wf(),
        old(b).step is FirstFingerprint,
        call_ensures(GuidedMerge::first_fingerprint_taken, (b, Ok(first)), ()),
        old(c).wf(),
        old(c).step == (GuidedStep::SecondFingerprint { bytes }),
        call_ensures(GuidedMerge::second_fingerprint_taken, (c, Ok(second)), ()),
        old(d).wf(),
        old(d).step == (GuidedStep::Install { bytes }),
        call_ensures(GuidedMerge::installed, (d, Ok(())), ()),
    ensures
        final(a).step is FirstFingerprint <==> inspected is File,
        !(inspected is File) ==> done_with(
            final(a).step,
            Err("The destination is no longer a regular file. Nothing was overwritten."@),
        ),
        final(b).step is NameStaged <==> (old(b).goal matches Goal::ReplaceFile { expected } && first@ == expected@),
        !(old(b).goal matches Goal::ReplaceFile { expected } && first@ == expected@) ==> done_with(
            final(b).step,
            Err(
                "'"@ + old(b).destination@
                    + "' changed after the folder scan. Nothing was overwritten — compare the folders again."@,
            ),
        ),
        (old(c).goal matches Goal::ReplaceFile { expected } && second@ == expected@) ==> final(c).step == (
        GuidedStep::Install { bytes }),
        !(old(c).goal matches Goal::ReplaceFile { expected } && second@ == expected@) ==> (final(c).step matches
            GuidedStep::RemoveStaged { error } && error@ == "'"@ + old(c).destination@
            + "' changed while the replacement was prepared. Nothing was overwritten."@),
        done_with(
            final(d).step,
            Ok((local_drive::CopyTotals { destination: old(d).destination@, files: 1, directories: 0, bytes })),
        ),
{
}

/// A guided action works on exactly what it was begun with, and the two sides must be two folders.
pub proof fn law_guided_actions_begin_as_asked(
    source: String,
    left_root: Vec<PathPart>,
    root: String,
    folders: Vec<String>,
    destination: String,
    expected: String,
    same_folder: bool,
    copying: GuidedMerge,
    creating: GuidedMerge,
    replacing: GuidedMerge,
    checked: Result<(), String>,
)
    requires
        call_ensures(copy_local_merge_file_inner, (source, left_root, folders, destination), copying),
        call_ensures(create_local_merge_directory_inner, (source, left_root, root, folders), creating),
        call_ensures(replace_local_merge_file_inner, (source, left_root, folders, destination, expected), replacing),
        call_ensures(check_merge_roots, (same_folder,), checked),
    ensures
        copying.goal is CopyFile && copying.source@ == source@ && copying.destination@ == destination@
            && copying.folders == folders && copying.left_root == left_root && copying.step is InspectSource,
        creating.goal is CreateFolder && creating.source@ == source@ && creating.folders == folders
            && creating.left_root == left_root && creating.step is InspectSource,
        folders@.len() == 0 ==> creating.destination@ == root@,
        folders@.len() > 0 ==> creating.destination@ == folders@[folders@.len() - 1]@,
        (replacing.goal matches Goal::ReplaceFile { expected: e } && e@ == expected@) && replacing.source@ == source@
            && replacing.destination@ == destination@ && replacing.folders == folders && replacing.left_root == left_root
            && replacing.step is InspectSource,
        checked is Ok <==> !same_folder,
        checked matches Err(e) ==> e@ == "Source and destination folders must be different"@,
{
    if folders@.len() > 0 {
        assert(text::texts_view(folders@).last() == folders@[folders@.len() - 1]@);
    }
}

/// The folders on the way to an item are all of its names but the last, which for a folder counts as well.
pub proof fn law_the_way_leads_to_the_last_name(relative: &RelativePath, file: usize, folder: usize)
    requires
        call_ensures(folders_on_the_way, (relative, false), file),
        call_ensures(folders_on_the_way, (relative, true), folder),
    ensures
        folder == relative.names@.len(),
        relative.names@.len() > 0 ==> file + 1 == folder,
{
}

} // verus!
