//! Merging a branch and resolving its conflicts.
use crate::numerals;
use crate::repository::branches;
use crate::text;
use vstd::prelude::*;
use vstd::string::*;

verus! {

/// A file with conflicting versions.
pub struct ConflictedFile {
    pub path: String,
    pub has_ours: bool,
    pub has_theirs: bool,
}

/// What a merge has come to.
pub struct MergeOutcome {
    pub status: String,
    pub message: String,
    pub conflicts: Vec<ConflictedFile>,
}

/// The versions of a file with conflicts.
pub struct ConflictSides {
    pub ancestor: Option<String>,
    pub ours: Option<String>,
    pub theirs: Option<String>,
}

/// What a repository is in the middle of.
#[derive(Clone, Copy, PartialEq, Eq, Structural)]
pub enum RepositoryState {
    /// Nothing.
    Clean,
    /// A merge.
    Merge,
    /// Some other operation.
    Other,
}

// Conflicts.

/// One version of a file with conflicts.
pub struct ConflictEntry {
    /// The path as the index holds it.
    pub path: Vec<u8>,
    /// The name of the object with the contents.
    pub id: String,
}

/// The versions of a file with conflicts, as the index holds them.
pub struct Conflict {
    pub ancestor: Option<ConflictEntry>,
    pub our: Option<ConflictEntry>,
    pub their: Option<ConflictEntry>,
}

/// The path of a version.
pub open spec fn entry_path(entry: ConflictEntry) -> Seq<char> {
    text::lossy(entry.path@)
}

/// The path of a conflict: that of our version, or else of theirs, or else of the ancestor.
pub open spec fn conflict_path(conflict: Conflict) -> Option<Seq<char>> {
    match (conflict.our, conflict.their, conflict.ancestor) {
        (Some(entry), _, _) => Some(entry_path(entry)),
        (None, Some(entry), _) => Some(entry_path(entry)),
        (None, None, Some(entry)) => Some(entry_path(entry)),
        (None, None, None) => None,
    }
}

fn path_of_conflict(conflict: &Conflict) -> (r: Option<String>)
    ensures
        text::opt_view(r) == conflict_path(*conflict),
{
    match (&conflict.our, &conflict.their, &conflict.ancestor) {
        (Some(entry), _, _) => Some(text::utf8_lossy(entry.path.as_slice())),
        (None, Some(entry), _) => Some(text::utf8_lossy(entry.path.as_slice())),
        (None, None, Some(entry)) => Some(text::utf8_lossy(entry.path.as_slice())),
        (None, None, None) => None,
    }
}

/// Whether a conflicted file is that of the conflict.
pub open spec fn shows_conflict(file: ConflictedFile, conflict: Conflict) -> bool {
    &&& conflict_path(conflict) == Some(file.path@)
    &&& file.has_ours == conflict.our is Some
    &&& file.has_theirs == conflict.their is Some
}

/// The places of the conflicts that have a version, in order.
pub open spec fn real_conflicts(conflicts: Seq<Conflict>) -> Seq<int>
    decreases conflicts.len(),
{
    if conflicts.len() == 0 {
        Seq::empty()
    } else if conflict_path(conflicts.last()) is Some {
        real_conflicts(conflicts.drop_last()).push(conflicts.len() - 1)
    } else {
        real_conflicts(conflicts.drop_last())
    }
}

/// The files with conflicts, in order.
pub fn gather_conflicts(conflicts: &Vec<Conflict>) -> (r: Vec<ConflictedFile>)
    ensures
        ({
            let places = real_conflicts(conflicts@);
            &&& r@.len() == places.len()
            &&& forall|i: int| 0 <= i < r@.len() ==> shows_conflict(#[trigger] r@[i], conflicts@[places[i]])
        }),
{
    let mut r: Vec<ConflictedFile> = Vec::new();
    for n in 0..conflicts.len()
        invariant
            r@.len() == real_conflicts(conflicts@.take(n as int)).len(),
            forall|i: int|
                0 <= i < r@.len() ==> shows_conflict(
                    #[trigger] r@[i],
                    conflicts@[real_conflicts(conflicts@.take(n as int))[i]],
                ),
    {
        assert(conflicts@.take(n + 1).drop_last() =~= conflicts@.take(n as int));
        let conflict: &Conflict = &conflicts[n];
        if let Some(path) = path_of_conflict(conflict) {
            r.push(
                ConflictedFile {
                    path,
                    has_ours: conflict.our.is_some(),
                    has_theirs: conflict.their.is_some(),
                },
            );
        }
    }
    assert(conflicts@.take(conflicts@.len() as int) =~= conflicts@);
    r
}

/// The place of the first conflict of a file.
pub fn locate_conflict(conflicts: &Vec<Conflict>, relative: &str, relative_path: &str) -> (r: Result<usize, String>)
    ensures
        match r {
            Ok(i) => {
                &&& i < conflicts@.len()
                &&& conflict_path(conflicts@[i as int]) == Some(relative@)
                &&& forall|j: int| 0 <= j < i ==> conflict_path(#[trigger] conflicts@[j]) != Some(relative@)
            },
            Err(e) => {
                &&& e@ == relative_path@ + " is not a conflicted file"@
                &&& forall|j: int|
                    0 <= j < conflicts@.len() ==> conflict_path(#[trigger] conflicts@[j]) != Some(relative@)
            },
        },
{
    for n in 0..conflicts.len()
        invariant
            forall|j: int| 0 <= j < n ==> conflict_path(#[trigger] conflicts@[j]) != Some(relative@),
    {
        if let Some(path) = path_of_conflict(&conflicts[n]) {
            if text::same_text(path.as_str(), relative) {
                return Ok(n);
            }
        }
    }
    let mut message: String = relative_path.to_owned();
    message.append(" is not a conflicted file");
    Err(message)
}

/// The text of an object's contents, if there are any.
pub open spec fn content_text(content: Option<Vec<u8>>) -> Option<Seq<char>> {
    match content {
        Some(bytes) => Some(text::lossy(bytes@)),
        None => None,
    }
}

/// The text of an object's contents, if there are any.
pub fn blob_text(content: &Option<Vec<u8>>) -> (r: Option<String>)
    ensures
        text::opt_view(r) == content_text(*content),
{
    match content {
        Some(bytes) => Some(text::utf8_lossy(bytes.as_slice())),
        None => None,
    }
}

/// The versions of a file with conflicts as texts.
pub fn conflict_sides(
    ancestor: &Option<Vec<u8>>,
    ours: &Option<Vec<u8>>,
    theirs: &Option<Vec<u8>>,
) -> (r: ConflictSides)
    ensures
        text::opt_view(r.ancestor) == content_text(*ancestor),
        text::opt_view(r.ours) == content_text(*ours),
        text::opt_view(r.theirs) == content_text(*theirs),
{
    ConflictSides { ancestor: blob_text(ancestor), ours: blob_text(ours), theirs: blob_text(theirs) }
}

// Resolving a conflict.

/// How a conflict is resolved.
#[derive(Clone, Copy, PartialEq, Eq, Structural)]
pub enum Resolution {
    /// With our version.
    Ours,
    /// With their version.
    Theirs,
    /// With what stands in the work tree.
    Manual,
}

/// The word for a resolution.
pub open spec fn resolution_word(resolution: Resolution) -> Seq<char> {
    match resolution {
        Resolution::Ours => "ours"@,
        Resolution::Theirs => "theirs"@,
        Resolution::Manual => "manual"@,
    }
}

/// Reads the word for a resolution.
pub fn read_resolution(resolution: &str) -> (r: Result<Resolution, String>)
    ensures
        match r {
            Ok(kind) => resolution@ == resolution_word(kind),
            Err(e) => {
                &&& e@ == "Unknown resolution kind \""@ + resolution@ + "\""@
                &&& forall|kind: Resolution| #[trigger] resolution_word(kind) != resolution@
            },
        },
{
    if text::same_text(resolution, "ours") {
        Ok(Resolution::Ours)
    } else if text::same_text(resolution, "theirs") {
        Ok(Resolution::Theirs)
    } else if text::same_text(resolution, "manual") {
        Ok(Resolution::Manual)
    } else {
        Err(text::framed("Unknown resolution kind \"", resolution, "\""))
    }
}

/// The version of a conflict on one side.
pub open spec fn side_of(conflict: Conflict, ours: bool) -> Option<ConflictEntry> {
    if ours {
        conflict.our
    } else {
        conflict.their
    }
}

/// Whether a conflict has a version of the file on this side.
pub open spec fn has_side(conflict: Conflict, ours: bool, target: Seq<char>) -> bool {
    side_of(conflict, ours) is Some && entry_path(side_of(conflict, ours)->0) == target
}

/// The place of the first conflict that has a version of the file on this side.
pub fn locate_side(conflicts: &Vec<Conflict>, ours: bool, target: &str) -> (r: Option<usize>)
    ensures
        match r {
            Some(i) => {
                &&& i < conflicts@.len()
                &&& has_side(conflicts@[i as int], ours, target@)
                &&& forall|j: int| 0 <= j < i ==> !has_side(#[trigger] conflicts@[j], ours, target@)
            },
            None => forall|j: int|
                0 <= j < conflicts@.len() ==> !has_side(#[trigger] conflicts@[j], ours, target@),
        },
{
    for n in 0..conflicts.len()
        invariant
            forall|j: int| 0 <= j < n ==> !has_side(#[trigger] conflicts@[j], ours, target@),
    {
        let entry: &Option<ConflictEntry> = if ours {
            &conflicts[n].our
        } else {
            &conflicts[n].their
        };
        if let Some(version) = entry {
            let path: String = text::utf8_lossy(version.path.as_slice());
            if text::same_text(path.as_str(), target) {
                return Some(n);
            }
        }
    }
    None
}

/// The message for a side without a version of the file.
pub open spec fn no_version(resolution: Seq<char>, relative_path: Seq<char>) -> Seq<char> {
    "No "@ + resolution + " version exists for "@ + relative_path
        + " (it may have been added only on one side — deleting or keeping the existing file may be more appropriate)."@
}

/// The text that resolves a conflict with the version of one side.
pub fn resolved_content(resolution: &str, relative_path: &str, content: &Option<Vec<u8>>) -> (r: Result<
    String,
    String,
>)
    ensures
        text::result_view(r) == match content_text(*content) {
            Some(t) => Ok::<Seq<char>, Seq<char>>(t),
            None => Err(no_version(resolution@, relative_path@)),
        },
{
    match blob_text(content) {
        Some(t) => Ok(t),
        None => {
            let mut message: String = text::framed("No ", resolution, " version exists for ");
            message.append(relative_path);
            message.append(
                " (it may have been added only on one side — deleting or keeping the existing file may be more appropriate).",
            );
            Err(message)
        },
    }
}

/// Answers after the resolving text was to be written.
pub fn resolution_written(absolute: &str, written: Result<(), String>) -> (r: Result<(), String>)
    ensures
        text::unit_view(r) == match written {
            Ok(_) => Ok::<(), Seq<char>>(()),
            Err(error) => Err("Cannot write "@ + absolute@ + ": "@ + error@),
        },
{
    match written {
        Ok(_) => Ok(()),
        Err(error) => {
            let mut message: String = text::framed("Cannot write ", absolute, ": ");
            message.append(error.as_str());
            Err(message)
        },
    }
}

/// Checks a file that is taken as resolved by hand: it must be there.
pub fn check_manual_resolution(relative_path: &str, present: bool) -> (r: Result<(), String>)
    ensures
        text::unit_view(r) == if present {
            Ok::<(), Seq<char>>(())
        } else {
            Err(relative_path@ + " does not exist on disk — nothing to mark resolved."@)
        },
{
    if present {
        Ok(())
    } else {
        let mut message: String = relative_path.to_owned();
        message.append(" does not exist on disk — nothing to mark resolved.");
        Err(message)
    }
}

/// What resolving a conflict does next.
pub enum ResolveStep {
    /// Find the version of one side and read it.
    ReadSide { ours: bool },
    /// Write this text to the file.
    WriteFile { content: String },
    /// See whether the file is there.
    CheckFile,
    /// Take the file into the index.
    AddToIndex,
    /// Nothing more.
    Done { result: Result<(), String> },
}

/// Resolving a conflict.
pub struct ResolveConflict {
    pub resolution: String,
    pub relative_path: String,
    pub absolute: String,
    pub step: ResolveStep,
}

impl ResolveConflict {
    /// Whether it is the same conflict and only the progress differs.
    pub open spec fn same_job(&self, other: &ResolveConflict) -> bool {
        &&& self.resolution == other.resolution
        &&& self.relative_path == other.relative_path
        &&& self.absolute == other.absolute
    }

    /// Whether it has ended with this message.
    pub open spec fn failed(&self, message: Seq<char>) -> bool {
        self.step matches ResolveStep::Done { result } && text::unit_view(result) == Err::<(), Seq<char>>(message)
    }

    /// Goes on after the version of one side was to be read.
    pub fn side_read(&mut self, content: &Option<Vec<u8>>)
        requires
            old(self).step is ReadSide,
        ensures
            final(self).same_job(old(self)),
            match content_text(*content) {
                Some(t) => final(self).step matches ResolveStep::WriteFile { content } && content@ == t,
                None => final(self).failed(no_version(old(self).resolution@, old(self).relative_path@)),
            },
    {
        match resolved_content(self.resolution.as_str(), self.relative_path.as_str(), content) {
            Ok(content) => {
                self.step = ResolveStep::WriteFile { content };
            },
            Err(message) => {
                self.step = ResolveStep::Done { result: Err(message) };
            },
        }
    }

    /// Goes on after the file was to be written.
    pub fn file_written(&mut self, written: Result<(), String>)
        requires
            old(self).step is WriteFile,
        ensures
            final(self).same_job(old(self)),
            match written {
                Ok(_) => final(self).step is AddToIndex,
                Err(error) => final(self).failed("Cannot write "@ + old(self).absolute@ + ": "@ + error@),
            },
    {
        match resolution_written(self.absolute.as_str(), written) {
            Ok(_) => {
                self.step = ResolveStep::AddToIndex;
            },
            Err(message) => {
                self.step = ResolveStep::Done { result: Err(message) };
            },
        }
    }

    /// Goes on after the file was looked for.
    pub fn file_checked(&mut self, present: bool)
        requires
            old(self).step is CheckFile,
        ensures
            final(self).same_job(old(self)),
            if present {
                final(self).step is AddToIndex
            } else {
                final(self).failed(
                    old(self).relative_path@ + " does not exist on disk — nothing to mark resolved."@,
                )
            },
    {
        match check_manual_resolution(self.relative_path.as_str(), present) {
            Ok(_) => {
                self.step = ResolveStep::AddToIndex;
            },
            Err(message) => {
                self.step = ResolveStep::Done { result: Err(message) };
            },
        }
    }

    /// Goes on after the file was to be taken into the index.
    pub fn index_updated(&mut self, outcome: Result<(), String>)
        requires
            old(self).step is AddToIndex,
        ensures
            final(self).same_job(old(self)),
            final(self).step matches ResolveStep::Done { result } && text::unit_view(result) == text::unit_view(
                outcome,
            ),
    {
        self.step = ResolveStep::Done { result: outcome };
    }
}

/// Begins to resolve a conflict.
pub fn resolve_conflict(resolution: String, relative_path: String, absolute: String) -> (r: ResolveConflict)
    ensures
        r.resolution == resolution,
        r.relative_path == relative_path,
        r.absolute == absolute,
        if resolution@ == "ours"@ {
            r.step matches ResolveStep::ReadSide { ours } && ours
        } else if resolution@ == "theirs"@ {
            r.step matches ResolveStep::ReadSide { ours } && !ours
        } else if resolution@ == "manual"@ {
            r.step is CheckFile
        } else {
            r.failed("Unknown resolution kind \""@ + resolution@ + "\""@)
        },
{
    proof {
        reveal_strlit("ours");
        reveal_strlit("theirs");
        reveal_strlit("manual");
        assert("ours"@.len() == 4 && "theirs"@.len() == 6 && "manual"@.len() == 6);
        assert("theirs"@[0] == 't' && "manual"@[0] == 'm');
    }
    let step: ResolveStep = match read_resolution(resolution.as_str()) {
        Ok(Resolution::Ours) => ResolveStep::ReadSide { ours: true },
        Ok(Resolution::Theirs) => ResolveStep::ReadSide { ours: false },
        Ok(Resolution::Manual) => ResolveStep::CheckFile,
        Err(message) => {
            assert(resolution_word(Resolution::Ours) != resolution@);
            assert(resolution_word(Resolution::Theirs) != resolution@);
            assert(resolution_word(Resolution::Manual) != resolution@);
            ResolveStep::Done { result: Err(message) }
        },
    };
    ResolveConflict { resolution, relative_path, absolute, step }
}

// Merging.

/// What is answered before a merge: the branch that is merged into, unless the merge is refused. `dirty`
/// says whether there are changes that are not committed; whether the head is detached counts as yes where
/// it is not known.
pub open spec fn merge_start_answer(
    state: RepositoryState,
    dirty: Result<bool, Seq<char>>,
    detached: Option<bool>,
    current: Option<Seq<char>>,
) -> Result<Seq<char>, Seq<char>> {
    if state != RepositoryState::Clean {
        Err("A merge (or other operation) is already in progress here. Resolve or abort it first."@)
    } else {
        match dirty {
            Err(error) => Err(error),
            Ok(true) => Err(
                "There are uncommitted changes here. Commit or stash them first, so a merge can't mix them up with incoming changes."@,
            ),
            Ok(false) => if detached != Some(false) {
                Err("This is a detached HEAD (not on a branch), so there is nothing to merge into."@)
            } else {
                match current {
                    None => Err("Could not determine the current branch"@),
                    Some(branch) => Ok(branch),
                }
            },
        }
    }
}

/// A fallible answer of yes or no by the characters of its error.
pub open spec fn flag_view(flag: Result<bool, String>) -> Result<bool, Seq<char>> {
    match flag {
        Ok(yes) => Ok(yes),
        Err(e) => Err(e@),
    }
}

/// Decides whether a merge may start, and into which branch.
pub fn check_merge_start(
    state: RepositoryState,
    dirty: Result<bool, String>,
    detached: Option<bool>,
    current: Option<String>,
) -> (r: Result<String, String>)
    ensures
        text::result_view(r) == merge_start_answer(state, flag_view(dirty), detached, text::opt_view(current)),
{
    if state != RepositoryState::Clean {
        return Err(
            "A merge (or other operation) is already in progress here. Resolve or abort it first.".to_owned(),
        );
    }
    match dirty {
        Err(error) => {
            return Err(error);
        },
        Ok(true) => {
            return Err(
                "There are uncommitted changes here. Commit or stash them first, so a merge can't mix them up with incoming changes.".to_owned(),
            );
        },
        Ok(false) => {},
    }
    let on_branch: bool = match detached {
        Some(yes) => !yes,
        None => false,
    };
    if !on_branch {
        return Err(
            "This is a detached HEAD (not on a branch), so there is nothing to merge into.".to_owned(),
        );
    }
    match current {
        None => Err("Could not determine the current branch".to_owned()),
        Some(branch) => Ok(branch),
    }
}

/// The message for a branch that is not there.
pub open spec fn unknown_source(source_ref: Seq<char>) -> Seq<char> {
    "Could not find branch \""@ + source_ref + "\" — fetch first if it's a remote branch."@
}

/// The message for a branch that is not there.
pub fn unknown_source_message(source_ref: &str) -> (r: String)
    ensures
        r@ == unknown_source(source_ref@),
{
    text::framed("Could not find branch \"", source_ref, "\" — fetch first if it's a remote branch.")
}

/// What a merge does next.
pub enum MergeStep {
    /// Find the branch with this short name.
    FindSource { name: String },
    /// Find out how the commit of that branch relates to the current branch.
    Analyse,
    /// Let the branch of this full name point at the commit that is merged.
    MoveBranch { reference: String },
    /// Let the head name the branch of this full name.
    MoveHead { reference: String },
    /// Put the files of the head into the work tree.
    CheckoutHead,
    /// Merge the two trees into the index and the work tree.
    MergeTrees,
    /// See whether the index has conflicts.
    CheckConflicts,
    /// List the conflicts.
    GatherConflicts,
    /// Commit the merge with this message.
    Complete { message: String },
    /// Nothing more.
    Done { result: Result<MergeOutcome, String> },
}

/// A merge that is under way.
pub struct MergeRun {
    pub current_branch: String,
    pub source_ref: String,
    pub step: MergeStep,
    /// Whether the merged branch was found to hold all of the current one and more.
    pub fast_forward: bool,
}

/// Whether an outcome has this status and message, and no conflicts.
pub open spec fn plain_outcome(outcome: MergeOutcome, status: Seq<char>, message: Seq<char>) -> bool {
    outcome.status@ == status && outcome.message@ == message && outcome.conflicts@.len() == 0
}

/// The message for a merge with conflicts.
pub open spec fn conflicts_message(source_ref: Seq<char>, count: nat) -> Seq<char> {
    "Merging "@ + source_ref + " produced "@ + numerals::decimal(count) + " conflict"@ + (if count == 1 {
        ""@
    } else {
        "s"@
    }) + ". Resolve them, then complete the merge."@
}

impl MergeRun {
    /// The branch that moves is the current one, and it is moved only where the merged branch holds all
    /// of it; trees are merged only where it does not.
    pub open spec fn wf(&self) -> bool {
        match self.step {
            MergeStep::FindSource { name } => !self.fast_forward && name@ == text::trimmed(self.source_ref@),
            MergeStep::Analyse => !self.fast_forward,
            MergeStep::MoveBranch { reference } => self.fast_forward && reference@ == branches::local_reference(
                self.current_branch@,
            ),
            MergeStep::MoveHead { reference } => self.fast_forward && reference@ == branches::local_reference(
                self.current_branch@,
            ),
            MergeStep::CheckoutHead => self.fast_forward,
            MergeStep::MergeTrees | MergeStep::CheckConflicts | MergeStep::GatherConflicts => !self.fast_forward,
            MergeStep::Complete { .. } => !self.fast_forward,
            MergeStep::Done { .. } => true,
        }
    }

    /// Whether it is the same merge and only the progress differs.
    pub open spec fn same_job(&self, other: &MergeRun) -> bool {
        self.current_branch == other.current_branch && self.source_ref == other.source_ref
    }

    /// Whether the merge has ended with this message.
    pub open spec fn failed(&self, message: Seq<char>) -> bool {
        self.step matches MergeStep::Done { result } && result matches Err(e) && e@ == message
    }

    /// Whether the merge has ended with this status and message, and no conflicts.
    pub open spec fn ended(&self, status: Seq<char>, message: Seq<char>) -> bool {
        self.step matches MergeStep::Done { result } && result matches Ok(outcome) && plain_outcome(
            outcome,
            status,
            message,
        )
    }

    fn fail(&mut self, message: String)
        ensures
            final(self).wf(),
            final(self).same_job(old(self)),
            final(self).fast_forward == old(self).fast_forward,
            final(self).failed(message@),
    {
        self.step = MergeStep::Done { result: Err(message) };
    }

    /// Goes on after the branch that is merged was to be found.
    pub fn source_found(&mut self, found: bool)
        requires
            old(self).wf(),
            old(self).step is FindSource,
        ensures
            final(self).wf(),
            final(self).same_job(old(self)),
            final(self).fast_forward == old(self).fast_forward,
            if found {
                final(self).step is Analyse
            } else {
                final(self).failed(unknown_source(old(self).source_ref@))
            },
    {
        if found {
            self.step = MergeStep::Analyse;
        } else {
            let message: String = unknown_source_message(self.source_ref.as_str());
            self.fail(message);
        }
    }

    /// Goes on once it is known how the branch relates to the current one: whether the current one holds
    /// all of it, and whether it holds all of the current one and more. What is up to date needs nothing;
    /// where the current branch has nothing of its own it is moved.
    pub fn analysed(&mut self, analysis: Result<(bool, bool), String>)
        requires
            old(self).wf(),
            old(self).step is Analyse,
        ensures
            final(self).wf(),
            final(self).same_job(old(self)),
            final(self).fast_forward == (analysis is Ok && !(analysis->Ok_0).0 && (analysis->Ok_0).1),
            match analysis {
                Err(error) => final(self).failed(error@),
                Ok((up_to_date, fast_forward)) => if up_to_date {
                    final(self).ended(
                        "up_to_date"@,
                        old(self).current_branch@ + " is already up to date with "@ + old(self).source_ref@ + "."@,
                    )
                } else if fast_forward {
                    final(self).step is MoveBranch
                } else {
                    final(self).step is MergeTrees
                },
            },
    {
        match analysis {
            Err(error) => {
                self.fail(error);
            },
            Ok((up_to_date, fast_forward)) => {
                if up_to_date {
                    let mut message: String = text::framed(
                        self.current_branch.as_str(),
                        " is already up to date with ",
                        self.source_ref.as_str(),
                    );
                    message.append(".");
                    self.step = MergeStep::Done {
                        result: Ok(
                            MergeOutcome { status: "up_to_date".to_owned(), message, conflicts: Vec::new() },
                        ),
                    };
                } else if fast_forward {
                    self.fast_forward = true;
                    let reference: String = branches::branch_reference(self.current_branch.as_str());
                    self.step = MergeStep::MoveBranch { reference };
                } else {
                    self.step = MergeStep::MergeTrees;
                }
            },
        }
    }

    /// Goes on after the branch was to be moved.
    pub fn branch_moved(&mut self, outcome: Result<(), String>)
        requires
            old(self).wf(),
            old(self).step is MoveBranch,
        ensures
            final(self).wf(),
            final(self).same_job(old(self)),
            final(self).fast_forward == old(self).fast_forward,
            match outcome {
                Err(error) => final(self).failed(error@),
                Ok(_) => final(self).step is MoveHead,
            },
    {
        match outcome {
            Err(error) => {
                self.fail(error);
            },
            Ok(_) => {
                let reference: String = branches::branch_reference(self.current_branch.as_str());
                self.step = MergeStep::MoveHead { reference };
            },
        }
    }

    /// Goes on after the head was to be moved.
    pub fn head_moved(&mut self, outcome: Result<(), String>)
        requires
            old(self).wf(),
            old(self).step is MoveHead,
        ensures
            final(self).wf(),
            final(self).same_job(old(self)),
            final(self).fast_forward == old(self).fast_forward,
            match outcome {
                Err(error) => final(self).failed(error@),
                Ok(_) => final(self).step is CheckoutHead,
            },
    {
        match outcome {
            Err(error) => {
                self.fail(error);
            },
            Ok(_) => {
                self.step = MergeStep::CheckoutHead;
            },
        }
    }

    /// Goes on after the files of the head were to be put into the work tree.
    pub fn head_checked_out(&mut self, outcome: Result<(), String>)
        requires
            old(self).wf(),
            old(self).step is CheckoutHead,
        ensures
            final(self).wf(),
            final(self).same_job(old(self)),
            final(self).fast_forward == old(self).fast_forward,
            match outcome {
                Err(error) => final(self).failed(error@),
                Ok(_) => final(self).ended(
                    "fast_forwarded"@,
                    "Fast-forwarded "@ + old(self).current_branch@ + " to "@ + old(self).source_ref@ + "."@,
                ),
            },
    {
        match outcome {
            Err(error) => {
                self.fail(error);
            },
            Ok(_) => {
                let mut message: String = text::framed("Fast-forwarded ", self.current_branch.as_str(), " to ");
                message.append(self.source_ref.as_str());
                message.append(".");
                self.step = MergeStep::Done {
                    result: Ok(
                        MergeOutcome { status: "fast_forwarded".to_owned(), message, conflicts: Vec::new() },
                    ),
                };
            },
        }
    }

    /// Goes on after the trees were to be merged.
    pub fn trees_merged(&mut self, outcome: Result<(), String>)
        requires
            old(self).wf(),
            old(self).step is MergeTrees,
        ensures
            final(self).wf(),
            final(self).same_job(old(self)),
            final(self).fast_forward == old(self).fast_forward,
            match outcome {
                Err(error) => final(self).failed(error@),
                Ok(_) => final(self).step is CheckConflicts,
            },
    {
        match outcome {
            Err(error) => {
                self.fail(error);
            },
            Ok(_) => {
                self.step = MergeStep::CheckConflicts;
            },
        }
    }

    /// Goes on after the index was to be looked at. A merge without conflicts is committed.
    pub fn conflicts_checked(&mut self, has_conflicts: Result<bool, String>)
        requires
            old(self).wf(),
            old(self).step is CheckConflicts,
        ensures
            final(self).wf(),
            final(self).same_job(old(self)),
            final(self).fast_forward == old(self).fast_forward,
            match has_conflicts {
                Err(error) => final(self).failed(error@),
                Ok(true) => final(self).step is GatherConflicts,
                Ok(false) => final(self).step matches MergeStep::Complete { message } && message@ == "Merge "@
                    + old(self).source_ref@ + " into "@ + old(self).current_branch@,
            },
    {
        match has_conflicts {
            Err(error) => {
                self.fail(error);
            },
            Ok(true) => {
                self.step = MergeStep::GatherConflicts;
            },
            Ok(false) => {
                let mut message: String = text::framed("Merge ", self.source_ref.as_str(), " into ");
                message.append(self.current_branch.as_str());
                self.step = MergeStep::Complete { message };
            },
        }
    }

    /// Goes on after the conflicts were to be listed.
    pub fn conflicts_gathered(&mut self, listed: Result<Vec<Conflict>, String>)
        requires
            old(self).wf(),
            old(self).step is GatherConflicts,
        ensures
            final(self).wf(),
            final(self).same_job(old(self)),
            final(self).fast_forward == old(self).fast_forward,
            match listed {
                Err(error) => final(self).failed(error@),
                Ok(conflicts) => final(self).step matches MergeStep::Done { result } && result matches Ok(
                    outcome,
                ) && {
                    let places = real_conflicts(conflicts@);
                    &&& outcome.status@ == "conflicts"@
                    &&& outcome.message@ == conflicts_message(old(self).source_ref@, places.len())
                    &&& outcome.conflicts@.len() == places.len()
                    &&& forall|i: int|
                        0 <= i < places.len() ==> shows_conflict(
                            #[trigger] outcome.conflicts@[i],
                            conflicts@[places[i]],
                        )
                },
            },
    {
        match listed {
            Err(error) => {
                self.fail(error);
            },
            Ok(conflicts) => {
                let files: Vec<ConflictedFile> = gather_conflicts(&conflicts);
                let count: usize = files.len();
                let mut message: String = text::framed("Merging ", self.source_ref.as_str(), " produced ");
                message.append(numerals::decimal_text(count as u64).as_str());
                message.append(" conflict");
                message.append(if count == 1 { "" } else { "s" });
                message.append(". Resolve them, then complete the merge.");
                self.step = MergeStep::Done {
                    result: Ok(MergeOutcome { status: "conflicts".to_owned(), message, conflicts: files }),
                };
            },
        }
    }

    /// Goes on after the merge was to be committed; `committed` names the commit.
    pub fn completed(&mut self, committed: Result<String, String>)
        requires
            old(self).wf(),
            old(self).step is Complete,
        ensures
            final(self).wf(),
            final(self).same_job(old(self)),
            final(self).fast_forward == old(self).fast_forward,
            match committed {
                Err(error) => final(self).failed(error@),
                Ok(oid) => final(self).ended(
                    "merged"@,
                    "Merged "@ + old(self).source_ref@ + " into "@ + old(self).current_branch@ + " ("@
                        + branches::abbreviated(oid@) + ")."@,
                ),
            },
    {
        match committed {
            Err(error) => {
                self.fail(error);
            },
            Ok(oid) => {
                let mut message: String = text::framed("Merged ", self.source_ref.as_str(), " into ");
                message.append(self.current_branch.as_str());
                message.append(" (");
                message.append(branches::abbreviate(oid.as_str()).as_str());
                message.append(").");
                self.step = MergeStep::Done {
                    result: Ok(MergeOutcome { status: "merged".to_owned(), message, conflicts: Vec::new() }),
                };
            },
        }
    }
}

/// Begins to merge a branch into the current one, unless the merge may not start. Nothing is done before the
/// repository was found to be at rest, without changes that are not committed, and on a branch.
pub fn merge_branch(
    state: RepositoryState,
    dirty: Result<bool, String>,
    detached: Option<bool>,
    current: Option<String>,
    source_ref: String,
) -> (r: Result<MergeRun, String>)
    ensures
        match merge_start_answer(state, flag_view(dirty), detached, text::opt_view(current)) {
            Err(message) => r matches Err(e) && e@ == message,
            Ok(branch) => r matches Ok(run) && {
                &&& run.wf()
                &&& run.current_branch@ == branch
                &&& run.source_ref@ == source_ref@
                &&& run.step is FindSource
            },
        },
{
    match check_merge_start(state, dirty, detached, current) {
        Err(message) => Err(message),
        Ok(current_branch) => {
            let name: String = text::trim(source_ref.as_str());
            Ok(MergeRun { current_branch, source_ref, step: MergeStep::FindSource { name }, fast_forward: false })
        },
    }
}

// Ending a merge.

/// Whether a merge is under way.
pub fn merge_in_progress(state: RepositoryState) -> (r: bool)
    ensures
        r == (state == RepositoryState::Merge),
{
    state == RepositoryState::Merge
}

/// Checks that a merge is under way.
pub fn check_merge_in_progress(state: RepositoryState) -> (r: Result<(), String>)
    ensures
        text::unit_view(r) == if state == RepositoryState::Merge {
            Ok::<(), Seq<char>>(())
        } else {
            Err("There is no merge in progress here."@)
        },
{
    if merge_in_progress(state) {
        Ok(())
    } else {
        Err("There is no merge in progress here.".to_owned())
    }
}

/// The message of a merge commit without the white space around it; a blank one is refused.
pub fn check_merge_message(message: &str) -> (r: Result<String, String>)
    ensures
        text::result_view(r) == if text::trimmed(message@).len() == 0 {
            Err::<Seq<char>, Seq<char>>("Merge commit message cannot be empty"@)
        } else {
            Ok(text::trimmed(message@))
        },
{
    let trimmed: String = text::trim(message);
    if trimmed.as_str().is_empty() {
        Err("Merge commit message cannot be empty".to_owned())
    } else {
        Ok(trimmed)
    }
}

/// Checks that no conflict is left before a merge is committed.
pub fn check_no_conflicts(has_conflicts: bool) -> (r: Result<(), String>)
    ensures
        text::unit_view(r) == if has_conflicts {
            Err::<(), Seq<char>>("There are still unresolved conflicts."@)
        } else {
            Ok(())
        },
{
    if has_conflicts {
        Err("There are still unresolved conflicts.".to_owned())
    } else {
        Ok(())
    }
}

/// The commits among those that were looked up, in order.
pub open spec fn found_commits(list: Seq<Option<String>>) -> Seq<Seq<char>>
    decreases list.len(),
{
    if list.len() == 0 {
        Seq::empty()
    } else {
        match list.last() {
            Some(id) => found_commits(list.drop_last()).push(id@),
            None => found_commits(list.drop_last()),
        }
    }
}

/// The head, if there is one.
pub open spec fn head_alone(head: Option<String>) -> Seq<Seq<char>> {
    match head {
        Some(id) => seq![id@],
        None => Seq::empty(),
    }
}

/// The parents of a merge commit: the head first, if there is one, and then the commits that are merged, as
/// far as they were found.
pub fn merge_parents(head: Option<String>, merge_heads: &Vec<Option<String>>) -> (r: Vec<String>)
    ensures
        text::texts_view(r@) == head_alone(head) + found_commits(merge_heads@),
{
    let ghost first = head_alone(head);
    let mut r: Vec<String> = Vec::new();
    if let Some(id) = head {
        r.push(id);
    }
    assert(text::texts_view(r@) =~= first + found_commits(merge_heads@.take(0)));
    for n in 0..merge_heads.len()
        invariant
            text::texts_view(r@) == first + found_commits(merge_heads@.take(n as int)),
    {
        assert(merge_heads@.take(n + 1).drop_last() =~= merge_heads@.take(n as int));
        if let Some(id) = &merge_heads[n] {
            let ghost had = r@;
            r.push(id.clone());
            assert(text::texts_view(r@) =~= text::texts_view(had).push(id@));
            assert(text::texts_view(r@) =~= first + found_commits(merge_heads@.take(n + 1)));
        }
    }
    assert(merge_heads@.take(merge_heads@.len() as int) =~= merge_heads@);
    r
}

/// A merge never starts over work that is not committed, in the middle of another operation or without a
/// branch to merge into.
pub proof fn law_merge_starts_only_from_a_clean_branch(
    state: RepositoryState,
    dirty: Result<bool, Seq<char>>,
    detached: Option<bool>,
    current: Option<Seq<char>>,
)
    ensures
        merge_start_answer(state, dirty, detached, current) is Ok <==> state == RepositoryState::Clean && dirty
            == Ok::<bool, Seq<char>>(false) && detached == Some(false) && current is Some,
{
}

/// A merge moves a branch only where the merged one was found to hold all of it, and the branch that moves is
/// the current one.
pub proof fn law_merge_moves_only_the_current_branch_forward(run: MergeRun)
    requires
        run.wf(),
    ensures
        run.step is MoveBranch || run.step is MoveHead || run.step is CheckoutHead ==> run.fast_forward,
        run.step matches MergeStep::MoveBranch { reference } ==> reference@ == branches::local_reference(
            run.current_branch@,
        ),
        run.step matches MergeStep::MoveHead { reference } ==> reference@ == branches::local_reference(
            run.current_branch@,
        ),
        run.step is MergeTrees || run.step is Complete ==> !run.fast_forward,
{
}

/// One more conflict is one more file, under the path of our version, or else of theirs, or else of the ancestor, with
/// the word on which sides have a version; one without any version is none. The files before it stay as they were.
pub proof fn law_each_conflict_is_listed_for_itself(
    conflicts: &Vec<Conflict>,
    more: &Vec<Conflict>,
    last: Conflict,
    r: Vec<ConflictedFile>,
    s: Vec<ConflictedFile>,
    i: int,
)
    requires
        more@ == conflicts@.push(last),
        call_ensures(gather_conflicts, (conflicts,), r),
        call_ensures(gather_conflicts, (more,), s),
    ensures
        conflicts@.len() == 0 ==> r@.len() == 0,
        last.our is Some || last.their is Some || last.ancestor is Some ==> {
            &&& s@.len() == r@.len() + 1
            &&& last.our is Some ==> s@.last().path@ == text::lossy(last.our->0.path@)
            &&& last.our is None && last.their is Some ==> s@.last().path@ == text::lossy(last.their->0.path@)
            &&& last.our is None && last.their is None ==> s@.last().path@ == text::lossy(last.ancestor->0.path@)
            &&& s@.last().has_ours == last.our is Some
            &&& s@.last().has_theirs == last.their is Some
        },
        last.our is None && last.their is None && last.ancestor is None ==> s@.len() == r@.len(),
        0 <= i < r@.len() ==> s@[i].path@ == r@[i].path@ && s@[i].has_ours == r@[i].has_ours && s@[i].has_theirs
            == r@[i].has_theirs,
{
    let places = real_conflicts(conflicts@);
    let all = real_conflicts(more@);
    assert(more@.drop_last() =~= conflicts@);
    lemma_real_bound(conflicts@);
    if conflict_path(last) is Some {
        assert(all == places.push(conflicts@.len() as int));
        assert(shows_conflict(s@[s@.len() - 1], more@[all[s@.len() - 1]]));
    }
    if 0 <= i < r@.len() {
        assert(shows_conflict(r@[i], conflicts@[places[i]]));
        assert(shows_conflict(s@[i], more@[all[i]]));
        assert(all[i] == places[i]);
    }
}

proof fn lemma_real_bound(conflicts: Seq<Conflict>)
    ensures
        forall|i: int| 0 <= i < real_conflicts(conflicts).len() ==> 0 <= #[trigger] real_conflicts(conflicts)[i]
            < conflicts.len(),
    decreases conflicts.len(),
{
    if conflicts.len() > 0 {
        let front = real_conflicts(conflicts.drop_last());
        lemma_real_bound(conflicts.drop_last());
        assert forall|i: int| 0 <= i < real_conflicts(conflicts).len() implies 0 <= #[trigger] real_conflicts(
            conflicts,
        )[i] < conflicts.len() by {
            if i < front.len() {
                assert(real_conflicts(conflicts)[i] == front[i]);
            }
        }
    }
}

/// Each version of a conflict is shown on its own side.
pub proof fn law_conflict_sides_are_not_mixed_up(
    ancestor: &Option<Vec<u8>>,
    ours: &Option<Vec<u8>>,
    theirs: &Option<Vec<u8>>,
    r: ConflictSides,
)
    requires
        call_ensures(conflict_sides, (ancestor, ours, theirs), r),
    ensures
        r.ancestor is Some <==> ancestor is Some,
        ancestor is Some ==> r.ancestor->0@ == text::lossy(ancestor->0@),
        r.ours is Some <==> ours is Some,
        ours is Some ==> r.ours->0@ == text::lossy(ours->0@),
        r.theirs is Some <==> theirs is Some,
        theirs is Some ==> r.theirs->0@ == text::lossy(theirs->0@),
{
}

proof fn lemma_resolution_words_differ()
    ensures
        "ours"@.len() == 4,
        "theirs"@.len() == 6,
        "manual"@.len() == 6,
        "theirs"@[0] == 't',
        "manual"@[0] == 'm',
{
    reveal_strlit("ours");
    reveal_strlit("theirs");
    reveal_strlit("manual");
}

/// A conflict is resolved as the word says: with our version, with theirs or by hand; any other word is refused.
pub proof fn law_resolutions_mean_what_they_say(
    resolution: String,
    relative_path: String,
    absolute: String,
    r: ResolveConflict,
)
    requires
        call_ensures(resolve_conflict, (resolution, relative_path, absolute), r),
    ensures
        resolution_word(Resolution::Ours) == "ours"@,
        resolution_word(Resolution::Theirs) == "theirs"@,
        resolution_word(Resolution::Manual) == "manual"@,
        resolution@ != "ours"@ && resolution@ != "theirs"@ && resolution@ != "manual"@ ==> (r.step matches
            ResolveStep::Done { result } && result matches Err(e) && e@ == "Unknown resolution kind \""@ + resolution@
            + "\""@),
        r.step matches ResolveStep::ReadSide { ours } && ours <==> resolution@ == "ours"@,
        r.step matches ResolveStep::ReadSide { ours } && !ours <==> resolution@ == "theirs"@,
        r.step is CheckFile <==> resolution@ == "manual"@,
        r.relative_path@ == relative_path@ && r.absolute@ == absolute@ && r.resolution@ == resolution@,
{
    lemma_resolution_words_differ();
}

/// The version that is found on our side is one of ours and on their side one of theirs, of the very file.
pub proof fn law_a_version_is_found_on_its_side(
    conflicts: &Vec<Conflict>,
    ours: bool,
    target: &str,
    r: Option<usize>,
    conflict: Conflict,
)
    requires
        call_ensures(locate_side, (conflicts, ours, target), r),
    ensures
        has_side(conflict, true, target@) <==> conflict.our is Some && text::lossy(conflict.our->0.path@) == target@,
        has_side(conflict, false, target@) <==> conflict.their is Some && text::lossy(conflict.their->0.path@) == target@,
        r matches Some(k) ==> k < conflicts@.len(),
        r matches Some(k) ==> (ours ==> conflicts@[k as int].our is Some && text::lossy(
            conflicts@[k as int].our->0.path@,
        ) == target@),
        r matches Some(k) ==> (!ours ==> conflicts@[k as int].their is Some && text::lossy(
            conflicts@[k as int].their->0.path@,
        ) == target@),
{
}

/// A conflict is resolved with exactly the text of the chosen version, and the file enters the index only once it was
/// written, or was found where it is resolved by hand.
pub proof fn law_a_conflict_is_resolved_with_the_chosen_text(
    a: &mut ResolveConflict,
    b: &mut ResolveConflict,
    c: &mut ResolveConflict,
    d: &mut ResolveConflict,
    content: &Option<Vec<u8>>,
    written: Result<(), String>,
    present: bool,
    added: Result<(), String>,
)
    requires
        old(a).step is ReadSide,
        call_ensures(ResolveConflict::side_read, (a, content), ()),
        old(b).step is WriteFile,
        call_ensures(ResolveConflict::file_written, (b, written), ()),
        old(c).step is CheckFile,
        call_ensures(ResolveConflict::file_checked, (c, present), ()),
        old(d).step is AddToIndex,
        call_ensures(ResolveConflict::index_updated, (d, added), ()),
    ensures
        content matches Some(bytes) ==> (final(a).step matches ResolveStep::WriteFile { content: t } && t@ == text::lossy(
            bytes@,
        )),
        content is None ==> (final(a).step matches ResolveStep::Done { result } && result is Err),
        final(b).step is AddToIndex <==> written is Ok,
        written matches Err(e) ==> (final(b).step matches ResolveStep::Done { result } && result matches Err(m) && m@
            == "Cannot write "@ + old(b).absolute@ + ": "@ + e@),
        final(c).step is AddToIndex <==> present,
        !present ==> final(c).step is Done && final(c).step->result is Err,
        final(d).step matches ResolveStep::Done { result } && (result is Ok <==> added is Ok) && (added is Err
            ==> result->Err_0@ == (added->Err_0)@),
        final(a).absolute@ == old(a).absolute@ && final(a).relative_path@ == old(a).relative_path@,
{
}

/// A merge that may start names the branch that it merges into and looks for the branch exactly as it was typed between
/// the white space around it; each reason against it is told in turn.
pub proof fn law_a_merge_looks_for_the_branch_as_typed(
    state: RepositoryState,
    dirty: Result<bool, String>,
    detached: Option<bool>,
    current: Option<String>,
    source_ref: String,
    lead: Seq<char>,
    name: Seq<char>,
    tail: Seq<char>,
    r: Result<MergeRun, String>,
)
    requires
        source_ref@ == lead + name + tail,
        text::is_blank(lead),
        text::is_tight(name),
        text::is_blank(tail),
        call_ensures(merge_branch, (state, dirty, detached, current, source_ref), r),
    ensures
        r is Ok <==> state == RepositoryState::Clean && dirty == Ok::<bool, String>(false) && detached == Some(false)
            && current is Some,
        r matches Ok(run) ==> run.current_branch@ == current->0@ && run.source_ref@ == source_ref@ && (run.step matches
            MergeStep::FindSource { name: sought } && sought@ == name),
        state != RepositoryState::Clean ==> (r matches Err(e) && e@
            == "A merge (or other operation) is already in progress here. Resolve or abort it first."@),
        state == RepositoryState::Clean && dirty is Err ==> (r matches Err(e) && e@ == (dirty->Err_0)@),
        state == RepositoryState::Clean && dirty == Ok::<bool, String>(true) ==> (r matches Err(e) && e@
            == "There are uncommitted changes here. Commit or stash them first, so a merge can't mix them up with incoming changes."@),
        state == RepositoryState::Clean && dirty == Ok::<bool, String>(false) && detached != Some(false) ==> (
        r matches Err(e) && e@ == "This is a detached HEAD (not on a branch), so there is nothing to merge into."@),
        state == RepositoryState::Clean && dirty == Ok::<bool, String>(false) && detached == Some(false)
            && current is None ==> (r matches Err(e) && e@ == "Could not determine the current branch"@),
{
    text::lemma_trimmed_of_padded(lead, name, tail);
}

/// A merge goes on by how the branches relate: nothing where the current branch holds all of the other, a move of the
/// current branch where the other holds all of it and more, and a merge of the trees otherwise.
pub proof fn law_a_merge_goes_on_by_the_analysis(
    a: &mut MergeRun,
    b: &mut MergeRun,
    up_to_date: bool,
    ahead: bool,
    found: bool,
)
    requires
        old(a).wf(),
        old(a).step is FindSource,
        call_ensures(MergeRun::source_found, (a, found), ()),
        old(b).wf(),
        old(b).step is Analyse,
        call_ensures(MergeRun::analysed, (b, Ok((up_to_date, ahead))), ()),
    ensures
        final(a).step is Analyse <==> found,
        !found ==> (final(a).step matches MergeStep::Done { result } && result matches Err(e) && e@
            == "Could not find branch \""@ + old(a).source_ref@ + "\" — fetch first if it's a remote branch."@),
        up_to_date ==> (final(b).step matches MergeStep::Done { result } && result matches Ok(outcome) && outcome.status@
            == "up_to_date"@ && outcome.conflicts@.len() == 0 && outcome.message@ == old(b).current_branch@
            + " is already up to date with "@ + old(b).source_ref@ + "."@),
        !up_to_date && ahead ==> (final(b).step matches MergeStep::MoveBranch { reference } && reference@ == "refs/heads/"@
            + old(b).current_branch@),
        !up_to_date && !ahead ==> final(b).step is MergeTrees,
{
}

/// A merge without conflicts is committed under a message that names both branches, and one with conflicts is answered
/// with each of them; a fast-forward is answered as one.
pub proof fn law_a_merge_ends_with_what_it_came_to(
    a: &mut MergeRun,
    b: &mut MergeRun,
    c: &mut MergeRun,
    d: &mut MergeRun,
    has_conflicts: bool,
    oid: String,
    conflicts: Vec<Conflict>,
    files: Vec<ConflictedFile>,
)
    requires
        old(a).wf(),
        old(a).step is CheckConflicts,
        call_ensures(MergeRun::conflicts_checked, (a, Ok(has_conflicts)), ()),
        old(b).wf(),
        old(b).step is Complete,
        call_ensures(MergeRun::completed, (b, Ok(oid)), ()),
        old(c).wf(),
        old(c).step is CheckoutHead,
        call_ensures(MergeRun::head_checked_out, (c, Ok(())), ()),
        old(d).wf(),
        old(d).step is GatherConflicts,
        call_ensures(MergeRun::conflicts_gathered, (d, Ok(conflicts)), ()),
        call_ensures(gather_conflicts, (&conflicts,), files),
        oid@.len() >= 8,
    ensures
        has_conflicts ==> final(a).step is GatherConflicts,
        !has_conflicts ==> (final(a).step matches MergeStep::Complete { message } && message@ == "Merge "@ + old(
            a,
        ).source_ref@ + " into "@ + old(a).current_branch@),
        final(b).step matches MergeStep::Done { result } && result matches Ok(outcome) && outcome.status@ == "merged"@
            && outcome.conflicts@.len() == 0 && outcome.message@ == "Merged "@ + old(b).source_ref@ + " into "@ + old(
            b,
        ).current_branch@ + " ("@ + oid@.take(8) + ")."@,
        final(c).step matches MergeStep::Done { result } && result matches Ok(outcome) && outcome.status@
            == "fast_forwarded"@ && outcome.conflicts@.len() == 0 && outcome.message@ == "Fast-forwarded "@ + old(
            c,
        ).current_branch@ + " to "@ + old(c).source_ref@ + "."@,
        final(d).step matches MergeStep::Done { result } && result matches Ok(outcome) && outcome.status@ == "conflicts"@
            && outcome.conflicts@.len() == files@.len() && (forall|i: int|
            0 <= i < files@.len() ==> (#[trigger] outcome.conflicts@[i]).path@ == files@[i].path@
                && outcome.conflicts@[i].has_ours == files@[i].has_ours && outcome.conflicts@[i].has_theirs
                == files@[i].has_theirs) && (files@.len() == 1 ==> outcome.message@ == "Merging "@ + old(d).source_ref@
            + " produced "@ + numerals::decimal(1) + " conflict. Resolve them, then complete the merge."@) && (
        files@.len() != 1 ==> outcome.message@ == "Merging "@ + old(d).source_ref@ + " produced "@ + numerals::decimal(
            files@.len(),
        ) + " conflicts. Resolve them, then complete the merge."@),
{
    if let MergeStep::Done { result } = final(d).step {
        if let Ok(outcome) = result {
            let places = real_conflicts(conflicts@);
            assert forall|i: int| 0 <= i < files@.len() implies (#[trigger] outcome.conflicts@[i]).path@ == files@[i].path@
                && outcome.conflicts@[i].has_ours == files@[i].has_ours && outcome.conflicts@[i].has_theirs
                == files@[i].has_theirs by {
                assert(shows_conflict(outcome.conflicts@[i], conflicts@[places[i]]));
                assert(shows_conflict(files@[i], conflicts@[places[i]]));
            }
            lemma_conflicts_message(old(d).source_ref@, places.len());
        }
    }
}

proof fn lemma_conflicts_message(source_ref: Seq<char>, count: nat)
    ensures
        count == 1 ==> conflicts_message(source_ref, count) == "Merging "@ + source_ref + " produced "@ + numerals::decimal(
            count,
        ) + " conflict. Resolve them, then complete the merge."@,
        count != 1 ==> conflicts_message(source_ref, count) == "Merging "@ + source_ref + " produced "@ + numerals::decimal(
            count,
        ) + " conflicts. Resolve them, then complete the merge."@,
{
    reveal_strlit("");
    reveal_strlit("s");
    reveal_strlit(" conflict");
    reveal_strlit(". Resolve them, then complete the merge.");
    reveal_strlit(" conflict. Resolve them, then complete the merge.");
    reveal_strlit(" conflicts. Resolve them, then complete the merge.");
    assert(" conflict"@ + ""@ + ". Resolve them, then complete the merge."@
        =~= " conflict. Resolve them, then complete the merge."@);
    assert(" conflict"@ + "s"@ + ". Resolve them, then complete the merge."@
        =~= " conflicts. Resolve them, then complete the merge."@);
    let head = "Merging "@ + source_ref + " produced "@ + numerals::decimal(count);
    if count == 1 {
        assert(conflicts_message(source_ref, count) =~= head + (" conflict"@ + ""@
            + ". Resolve them, then complete the merge."@));
    } else {
        assert(conflicts_message(source_ref, count) =~= head + (" conflict"@ + "s"@
            + ". Resolve them, then complete the merge."@));
    }
}

/// A merge ends under the message that was typed between the white space around it, only while one is under way, and only
/// once no conflict is left.
pub proof fn law_a_merge_is_completed_as_typed(
    message: &str,
    lead: Seq<char>,
    core: Seq<char>,
    tail: Seq<char>,
    state: RepositoryState,
    has_conflicts: bool,
    checked: Result<String, String>,
    under_way: Result<(), String>,
    resolved: Result<(), String>,
)
    requires
        call_ensures(check_merge_message, (message,), checked),
        call_ensures(check_merge_in_progress, (state,), under_way),
        call_ensures(check_no_conflicts, (has_conflicts,), resolved),
    ensures
        message@ == lead + core + tail && text::is_blank(lead) && text::is_tight(core) && text::is_blank(tail) ==> (
        checked matches Ok(m) && m@ == core),
        text::is_blank(message@) ==> (checked matches Err(e) && e@ == "Merge commit message cannot be empty"@),
        under_way is Ok <==> state == RepositoryState::Merge,
        under_way matches Err(e) ==> e@ == "There is no merge in progress here."@,
        resolved is Ok <==> !has_conflicts,
        resolved matches Err(e) ==> e@ == "There are still unresolved conflicts."@,
{
    if text::is_blank(message@) {
        text::lemma_trimmed_of_blank(message@);
    }
    if message@ == lead + core + tail && text::is_blank(lead) && text::is_tight(core) && text::is_blank(tail) {
        text::lemma_trimmed_of_padded(lead, core, tail);
    }
}

/// The parents of a merge commit are the head and then, in order, each merged commit that was found.
pub proof fn law_the_head_is_the_first_parent(
    head: Option<String>,
    merged: &Vec<Option<String>>,
    more: &Vec<Option<String>>,
    last: Option<String>,
    r: Vec<String>,
    s: Vec<String>,
)
    requires
        more@ == merged@.push(last),
        call_ensures(merge_parents, (head, merged), r),
        call_ensures(merge_parents, (head, more), s),
    ensures
        head is Some ==> r@.len() > 0 && r@[0]@ == head->0@,
        merged@.len() == 0 ==> r@.len() == if head is Some {
            1int
        } else {
            0
        },
        last is None ==> text::texts_view(s@) == text::texts_view(r@),
        last is Some ==> text::texts_view(s@) == text::texts_view(r@).push(last->0@),
{
    assert(more@.drop_last() =~= merged@);
    let view = text::texts_view(r@);
    assert(view.len() == r@.len());
    if head is Some {
        assert(view[0] == r@[0]@);
    }
    if last is Some {
        assert(text::texts_view(s@) =~= view.push(last->0@));
    }
}

/// A side without a version of the file says so, with the word for the side and the path.
pub proof fn law_a_missing_version_is_told(
    resolution: &str,
    relative_path: &str,
    content: Vec<u8>,
    r: Result<String, String>,
    s: Result<String, String>,
)
    requires
        call_ensures(resolved_content, (resolution, relative_path, &None::<Vec<u8>>), r),
        call_ensures(resolved_content, (resolution, relative_path, &Some(content)), s),
    ensures
        r matches Err(e) && e@ == "No "@ + resolution@ + " version exists for "@ + relative_path@
            + " (it may have been added only on one side — deleting or keeping the existing file may be more appropriate)."@,
        s matches Ok(t) && t@ == text::lossy(content@),
{
}

} // verus!
