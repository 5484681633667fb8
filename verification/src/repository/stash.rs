//! Stashes: listing, restoring whole stashes and restoring single files.
use crate::numerals;
use crate::paths;
use crate::paths::PathPart;
use crate::pieces;
use crate::repository::branches::merge::RepositoryState;
use crate::text;
use crate::text_map;
use crate::text_map::TextMap;
use vstd::prelude::*;
use vstd::string::*;

verus! {

/// A stash.
pub struct StashEntry {
    pub index: usize,
    pub message: String,
    pub base_commit: String,
}

/// The stashes of a repository.
pub struct StashScope {
    pub repository_path: String,
    pub repository_name: String,
    pub current_branch: String,
    pub is_submodule: bool,
    pub relative_path: Option<String>,
    pub stashes: Vec<StashEntry>,
}

/// A stash as it was found.
pub struct FoundStash {
    pub index: usize,
    pub message: String,
    /// The commit that the stash was made on, if it was found.
    pub base_commit: Option<String>,
}

/// Whether a listed stash is the one that was found.
pub open spec fn lists_stash(entry: StashEntry, found: FoundStash) -> bool {
    &&& entry.index == found.index
    &&& entry.message@ == found.message@
    &&& entry.base_commit@ == match found.base_commit {
        Some(id) => id@,
        None => ""@,
    }
}

/// The last name of a path, or the word `repository` where there is none.
pub open spec fn scope_name(parts: Seq<paths::Part>) -> Seq<char> {
    if paths::ends_in_name(parts) {
        parts.last()->Normal_0
    } else {
        "repository"@
    }
}

/// The last name of a path that the platform reads as `parts`, or the word `repository`.
pub fn name_of_scope(parts: &Vec<PathPart>) -> (r: String)
    ensures
        r@ == scope_name(paths::parts_view(parts@)),
{
    let n: usize = parts.len();
    if n > 0 {
        assert(paths::parts_view(parts@).last() == paths::part_view(parts@[n - 1]));
        if let PathPart::Normal(name) = &parts[n - 1] {
            return name.clone();
        }
    }
    "repository".to_owned()
}

/// Lists the stashes of a repository. The current branch is blank while the head is detached.
pub fn stash_scope_inner(
    repository_path: String,
    is_submodule: bool,
    relative_path: Option<String>,
    detached: Option<bool>,
    head_name: Option<String>,
    found: &Vec<FoundStash>,
) -> (r: StashScope)
    ensures
        r.repository_path == repository_path,
        r.is_submodule == is_submodule,
        r.relative_path == relative_path,
        paths::is_portable(repository_path@) ==> r.repository_name@ == scope_name(
            paths::portable_parts(repository_path@),
        ),
        exists|parts: Seq<paths::Part>| #[trigger]
            paths::told_parts(repository_path@, parts) && r.repository_name@ == scope_name(parts),
        r.current_branch@ == if detached == Some(true) || head_name is None {
            ""@
        } else {
            head_name->0@
        },
        r.stashes@.len() == found@.len(),
        forall|i: int| 0 <= i < found@.len() ==> lists_stash(#[trigger] r.stashes@[i], found@[i]),
{
    let parts: Vec<PathPart> = paths::ask_parts(repository_path.as_str());
    proof {
        paths::law_told_parts(repository_path@, paths::parts_view(parts@));
    }
    let repository_name: String = name_of_scope(&parts);
    let is_detached: bool = match detached {
        Some(yes) => yes,
        None => false,
    };
    let current_branch: String = if is_detached {
        "".to_owned()
    } else {
        match head_name {
            Some(name) => name,
            None => "".to_owned(),
        }
    };
    let mut stashes: Vec<StashEntry> = Vec::new();
    for n in 0..found.len()
        invariant
            stashes@.len() == n,
            forall|i: int| 0 <= i < n ==> lists_stash(#[trigger] stashes@[i], found@[i]),
    {
        let stash: &FoundStash = &found[n];
        let base_commit: String = match &stash.base_commit {
            Some(id) => id.clone(),
            None => "".to_owned(),
        };
        stashes.push(StashEntry { index: stash.index, message: stash.message.clone(), base_commit });
    }
    StashScope { repository_path, repository_name, current_branch, is_submodule, relative_path, stashes }
}

// Stashing one path.

/// The command that stashes one path.
pub open spec fn stash_path_command(relative: Seq<char>) -> Seq<Seq<char>> {
    seq!["stash"@, "push"@, "--include-untracked"@, "--"@, relative]
}

/// The command that stashes one path; the whole work tree is refused.
pub fn stash_file(relative: &str) -> (r: Result<Vec<String>, String>)
    ensures
        match r {
            Ok(args) => relative@.len() > 0 && text::texts_view(args@) == stash_path_command(relative@),
            Err(e) => relative@.len() == 0 && e@ == "Select a specific file or folder to stash"@,
        },
{
    if relative.is_empty() {
        return Err("Select a specific file or folder to stash".to_owned());
    }
    let args: Vec<String> = text::texts_of(&["stash", "push", "--include-untracked", "--", relative]);
    assert(text::texts_view(args@) =~= stash_path_command(relative@));
    Ok(args)
}

/// Where a path is stashed: in the submodule that it lies in, unless it is the submodule itself. `boundary`
/// is the submodule and the path below it.
pub fn stash_repository(boundary: Option<(String, String)>) -> (r: Option<(String, String)>)
    ensures
        match boundary {
            Some((submodule, inner)) => if inner@.len() > 0 {
                r == boundary
            } else {
                r is None
            },
            None => r is None,
        },
{
    match boundary {
        Some((submodule, inner)) => if inner.as_str().is_empty() {
            None
        } else {
            Some((submodule, inner))
        },
        None => None,
    }
}

// Restoring a whole stash.

/// A file with changes that are not committed.
pub struct DirtyFile {
    pub path: String,
    pub status: String,
}

/// How a changed file is shown.
pub open spec fn dirty_line(file: DirtyFile) -> Seq<char> {
    file.status@ + " "@ + file.path@
}

/// How changed files are shown: five of them, and how many more there are.
pub open spec fn dirty_summary(dirty: Seq<DirtyFile>) -> Seq<char> {
    let shown = if dirty.len() > 5 {
        dirty.take(5)
    } else {
        dirty
    };
    pieces::joined(shown.map_values(|file: DirtyFile| dirty_line(file)), "\n"@) + (if dirty.len() > 5 {
        " (+"@ + numerals::decimal((dirty.len() - 5) as nat) + " more)"@
    } else {
        Seq::empty()
    })
}

fn summarize_dirty(dirty: &Vec<DirtyFile>) -> (r: String)
    ensures
        r@ == dirty_summary(dirty@),
{
    let count: usize = dirty.len();
    let limit: usize = if count > 5 {
        5
    } else {
        count
    };
    let ghost lines = dirty@.take(limit as int).map_values(|file: DirtyFile| dirty_line(file));
    let mut files: Vec<String> = Vec::new();
    for n in 0..limit
        invariant
            limit <= dirty@.len(),
            lines == dirty@.take(limit as int).map_values(|file: DirtyFile| dirty_line(file)),
            text::texts_view(files@) == lines.take(n as int),
    {
        let line: String = text::framed(dirty[n].status.as_str(), " ", dirty[n].path.as_str());
        let ghost had = files@;
        files.push(line);
        assert(text::texts_view(files@) =~= text::texts_view(had).push(line@));
        assert(lines.take(n + 1) =~= lines.take(n as int).push(lines[n as int]));
    }
    assert(lines.take(limit as int) =~= lines);
    assert(dirty@.take(dirty@.len() as int) =~= dirty@);
    let mut r: String = pieces::join(&files, "\n");
    let ghost list = r@;
    if count > 5 {
        r.append(" (+");
        r.append(numerals::decimal_text((count - 5) as u64).as_str());
        r.append(" more)");
        assert(r@ =~= dirty_summary(dirty@));
    } else {
        assert(list + Seq::<char>::empty() =~= list);
    }
    r
}

/// What is answered before a whole stash is restored. Conflicts count as there where that is not known.
pub open spec fn pop_answer(
    state: RepositoryState,
    conflicts: Option<bool>,
    dirty: Result<Seq<DirtyFile>, Seq<char>>,
) -> Result<(), Seq<char>> {
    if state != RepositoryState::Clean || conflicts != Some(false) {
        Err(
            "Cannot restore a stash while another Git operation or conflict resolution is in progress. Finish or abort it first."@,
        )
    } else {
        match dirty {
            Err(error) => Err(error),
            Ok(files) => if files.len() > 0 {
                Err(
                    "Cannot restore the complete stash because this repository already has uncommitted work:\n"@
                        + dirty_summary(files)
                        + "\n\nCommit or stash the current work first, or restore only selected clean files. Nothing was changed."@,
                )
            } else {
                Ok(())
            },
        }
    }
}

/// Changed files by the characters of their error.
pub open spec fn dirty_view(dirty: Result<Vec<DirtyFile>, String>) -> Result<Seq<DirtyFile>, Seq<char>> {
    match dirty {
        Ok(files) => Ok(files@),
        Err(e) => Err(e@),
    }
}

fn has_no_conflicts(conflicts: Option<bool>) -> (r: bool)
    ensures
        r == (conflicts == Some(false)),
{
    match conflicts {
        Some(yes) => !yes,
        None => false,
    }
}

/// What restoring a whole stash does next.
pub enum PopStep {
    /// Apply the stash to the work tree.
    Apply,
    /// See whether the index has conflicts.
    CheckConflicts,
    /// Drop the stash.
    Drop,
    /// Nothing more.
    Done { result: Result<(), String> },
}

/// Restoring a whole stash.
pub struct PopRun {
    pub step: PopStep,
    /// Whether the stash was applied without conflicts.
    pub applied_cleanly: bool,
}

impl PopRun {
    /// The stash is dropped only once it was applied without conflicts.
    pub open spec fn wf(&self) -> bool {
        self.step is Drop ==> self.applied_cleanly
    }

    /// Whether it has ended with this message.
    pub open spec fn failed(&self, message: Seq<char>) -> bool {
        self.step matches PopStep::Done { result } && text::unit_view(result) == Err::<(), Seq<char>>(message)
    }

    fn new() -> (r: Self)
        ensures
            r.wf(),
            r.step is Apply,
            !r.applied_cleanly,
    {
        PopRun { step: PopStep::Apply, applied_cleanly: false }
    }

    /// Goes on after the stash was to be applied.
    pub fn applied(&mut self, outcome: Result<(), String>)
        requires
            old(self).wf(),
            old(self).step is Apply,
        ensures
            final(self).wf(),
            final(self).applied_cleanly == old(self).applied_cleanly,
            match outcome {
                Err(error) => final(self).failed("Cannot restore stashed work: "@ + error@),
                Ok(_) => final(self).step is CheckConflicts,
            },
    {
        match outcome {
            Err(error) => {
                let mut message: String = "Cannot restore stashed work: ".to_owned();
                message.append(error.as_str());
                self.step = PopStep::Done { result: Err(message) };
            },
            Ok(_) => {
                self.step = PopStep::CheckConflicts;
            },
        }
    }

    /// Goes on after the index was looked at. With conflicts the stash is kept; where they cannot be told
    /// there are none.
    pub fn conflicts_checked(&mut self, conflicts: Option<bool>)
        requires
            old(self).wf(),
            old(self).step is CheckConflicts,
        ensures
            final(self).wf(),
            final(self).applied_cleanly == (conflicts != Some(true)),
            if conflicts == Some(true) {
                final(self).step matches PopStep::Done { result } && result is Ok
            } else {
                final(self).step is Drop
            },
    {
        let has_conflicts: bool = match conflicts {
            Some(yes) => yes,
            None => false,
        };
        self.applied_cleanly = !has_conflicts;
        if has_conflicts {
            self.step = PopStep::Done { result: Ok(()) };
        } else {
            self.step = PopStep::Drop;
        }
    }

    /// Goes on after the stash was to be dropped.
    pub fn dropped(&mut self, outcome: Result<(), String>)
        requires
            old(self).wf(),
            old(self).step is Drop,
        ensures
            final(self).wf(),
            final(self).applied_cleanly == old(self).applied_cleanly,
            match outcome {
                Err(error) => final(self).failed("Restored, but could not drop the stash entry: "@ + error@),
                Ok(_) => final(self).step matches PopStep::Done { result } && result is Ok,
            },
    {
        match outcome {
            Err(error) => {
                let mut message: String = "Restored, but could not drop the stash entry: ".to_owned();
                message.append(error.as_str());
                self.step = PopStep::Done { result: Err(message) };
            },
            Ok(_) => {
                self.step = PopStep::Done { result: Ok(()) };
            },
        }
    }
}

/// Begins to restore a whole stash, unless it may not be restored. Nothing is applied before the repository was
/// found to be at rest and without changes that are not committed.
pub fn pop_stash(state: RepositoryState, conflicts: Option<bool>, dirty: Result<Vec<DirtyFile>, String>) -> (r: Result<
    PopRun,
    String,
>)
    ensures
        match pop_answer(state, conflicts, dirty_view(dirty)) {
            Err(message) => r matches Err(e) && e@ == message,
            Ok(_) => r matches Ok(run) && run.wf() && run.step is Apply && !run.applied_cleanly,
        },
{
    if state != RepositoryState::Clean || !has_no_conflicts(conflicts) {
        return Err(
            "Cannot restore a stash while another Git operation or conflict resolution is in progress. Finish or abort it first.".to_owned(),
        );
    }
    match dirty {
        Err(error) => Err(error),
        Ok(files) => if files.len() > 0 {
            let summary: String = summarize_dirty(&files);
            Err(
                text::framed(
                    "Cannot restore the complete stash because this repository already has uncommitted work:\n",
                    summary.as_str(),
                    "\n\nCommit or stash the current work first, or restore only selected clean files. Nothing was changed.",
                ),
            )
        } else {
            Ok(PopRun::new())
        },
    }
}

/// A stash whose restore left conflicts is never dropped.
pub proof fn law_conflicting_stash_is_kept(run: PopRun)
    requires
        run.wf(),
        !run.applied_cleanly,
    ensures
        !(run.step is Drop),
{
}

/// Answers after a stash was to be dropped.
pub fn drop_stash(outcome: Result<(), String>) -> (r: Result<(), String>)
    ensures
        text::unit_view(r) == match outcome {
            Ok(_) => Ok::<(), Seq<char>>(()),
            Err(error) => Err("Cannot drop this stash: "@ + error@),
        },
{
    match outcome {
        Ok(_) => Ok(()),
        Err(error) => {
            let mut message: String = "Cannot drop this stash: ".to_owned();
            message.append(error.as_str());
            Err(message)
        },
    }
}

/// Answers after changes were to be stashed.
pub fn stash_changes(outcome: Result<(), String>) -> (r: Result<(), String>)
    ensures
        text::unit_view(r) == match outcome {
            Ok(_) => Ok::<(), Seq<char>>(()),
            Err(error) => Err("Cannot stash changes: "@ + error@),
        },
{
    match outcome {
        Ok(_) => Ok(()),
        Err(error) => {
            let mut message: String = "Cannot stash changes: ".to_owned();
            message.append(error.as_str());
            Err(message)
        },
    }
}

// The files of a stash.

/// A file that a stash changes.
pub struct ChangedFile {
    /// The path after the change, if the file is there then.
    pub new_path: Option<String>,
    /// The path before the change, if the file was there then.
    pub old_path: Option<String>,
}

/// The path of a changed file: the new one, or else the old one.
pub open spec fn changed_path(file: ChangedFile) -> Option<Seq<char>> {
    match file.new_path {
        Some(path) => Some(path@),
        None => text::opt_view(file.old_path),
    }
}

/// The paths that a stash changes, each once and in increasing order.
pub fn stash_entry_files(files: &Vec<ChangedFile>) -> (r: Vec<String>)
    ensures
        text_map::increasing(text::texts_view(r@)),
        forall|path: Seq<char>| #[trigger]
            text::texts_view(r@).contains(path) <==> exists|i: int|
                0 <= i < files@.len() && changed_path(#[trigger] files@[i]) == Some(path),
{
    let mut paths: TextMap<()> = TextMap::new();
    for n in 0..files.len()
        invariant
            paths.wf(),
            forall|path: Seq<char>| #[trigger]
                paths@.dom().contains(path) <==> exists|i: int|
                    0 <= i < n && changed_path(#[trigger] files@[i]) == Some(path),
    {
        let ghost had = paths@.dom();
        let chosen: Option<String> = match &files[n].new_path {
            Some(path) => Some(path.clone()),
            None => match &files[n].old_path {
                Some(path) => Some(path.clone()),
                None => None,
            },
        };
        let ghost added = text::opt_view(chosen);
        if let Some(path) = chosen {
            paths.insert(path, ());
        }
        proof {
            assert forall|path: Seq<char>| #[trigger] paths@.dom().contains(path) <==> exists|i: int|
                0 <= i < n + 1 && changed_path(#[trigger] files@[i]) == Some(path) by {
                if had.contains(path) {
                    let i = choose|i: int| 0 <= i < n && changed_path(#[trigger] files@[i]) == Some(path);
                    assert(changed_path(files@[i]) == Some(path));
                }
                if added == Some(path) {
                    assert(changed_path(files@[n as int]) == Some(path));
                }
                if exists|i: int| 0 <= i < n + 1 && changed_path(#[trigger] files@[i]) == Some(path) {
                    let i = choose|i: int| 0 <= i < n + 1 && changed_path(#[trigger] files@[i]) == Some(path);
                    if i < n {
                        assert(had.contains(path));
                    }
                }
            }
        }
    }
    let r: Vec<String> = keys_of(&paths);
    proof {
        paths.lemma_contents();
        assert forall|path: Seq<char>| #[trigger] text::texts_view(r@).contains(path) <==> exists|i: int|
            0 <= i < files@.len() && changed_path(#[trigger] files@[i]) == Some(path) by {
            assert(paths@.dom().contains(path) <==> paths.keys().contains(path));
        }
    }
    r
}

fn keys_of(map: &TextMap<()>) -> (r: Vec<String>)
    requires
        map.wf(),
    ensures
        text::texts_view(r@) == map.keys(),
{
    let count: usize = map.len();
    let mut r: Vec<String> = Vec::new();
    assert(text::texts_view(r@) =~= map.keys().take(0));
    for n in 0..count
        invariant
            count == map.keys().len(),
            text::texts_view(r@) == map.keys().take(n as int),
    {
        let ghost had = r@;
        r.push(map.key_at(n).clone());
        assert(text::texts_view(r@) =~= text::texts_view(had).push(map.keys()[n as int]));
        assert(map.keys().take(n + 1) =~= map.keys().take(n as int).push(map.keys()[n as int]));
    }
    assert(map.keys().take(count as int) =~= map.keys());
    r
}

fn set_of(list: &Vec<String>) -> (r: TextMap<()>)
    ensures
        r.wf(),
        forall|t: Seq<char>| #[trigger] r@.dom().contains(t) <==> text::texts_view(list@).contains(t),
{
    let ghost view = text::texts_view(list@);
    let mut r: TextMap<()> = TextMap::new();
    for n in 0..list.len()
        invariant
            r.wf(),
            view == text::texts_view(list@),
            forall|t: Seq<char>| #[trigger]
                r@.dom().contains(t) <==> exists|i: int| 0 <= i < n && #[trigger] view[i] == t,
    {
        assert(view[n as int] == list@[n as int]@);
        let ghost had = r@.dom();
        r.insert(list[n].clone(), ());
        proof {
            assert forall|t: Seq<char>| #[trigger] r@.dom().contains(t) <==> exists|i: int|
                0 <= i < n + 1 && #[trigger] view[i] == t by {
                if had.contains(t) {
                    let i = choose|i: int| 0 <= i < n && #[trigger] view[i] == t;
                    assert(view[i] == t);
                }
                if exists|i: int| 0 <= i < n + 1 && #[trigger] view[i] == t {
                    let i = choose|i: int| 0 <= i < n + 1 && #[trigger] view[i] == t;
                    if i < n {
                        assert(had.contains(t));
                    }
                }
            }
        }
    }
    assert forall|t: Seq<char>| #[trigger] r@.dom().contains(t) <==> view.contains(t) by {
        if view.contains(t) {
            let i = view.index_of(t);
            assert(view[i] == t);
        }
    }
    r
}

/// A stash by its place and its object.
pub struct StashObject {
    pub index: usize,
    pub oid: String,
}

/// The object of the stash at a place: of the last one listed there.
pub open spec fn stash_at(stashes: Seq<StashObject>, index: usize) -> Option<Seq<char>>
    decreases stashes.len(),
{
    if stashes.len() == 0 {
        None
    } else if stashes.last().index == index {
        Some(stashes.last().oid@)
    } else {
        stash_at(stashes.drop_last(), index)
    }
}

/// The object of the stash at a place, which must be there.
pub fn find_stash(stashes: &Vec<StashObject>, index: usize) -> (r: Result<String, String>)
    ensures
        text::result_view(r) == match stash_at(stashes@, index) {
            Some(oid) => Ok::<Seq<char>, Seq<char>>(oid),
            None => Err("That stash entry no longer exists"@),
        },
{
    let mut n: usize = stashes.len();
    assert(stashes@.take(n as int) =~= stashes@);
    while n > 0
        invariant
            n <= stashes@.len(),
            stash_at(stashes@.take(n as int), index) == stash_at(stashes@, index),
        decreases n,
    {
        assert(stashes@.take(n as int).drop_last() =~= stashes@.take(n - 1));
        n = n - 1;
        if stashes[n].index == index {
            return Ok(stashes[n].oid.clone());
        }
    }
    Err("That stash entry no longer exists".to_owned())
}

// Restoring single files.

/// Checked paths by their characters.
pub open spec fn checked_view(given: Seq<Result<String, String>>) -> Seq<Result<Seq<char>, Seq<char>>> {
    given.map_values(|path: Result<String, String>| text::result_view(path))
}

/// Whether `r` is what is answered for a selection of checked paths: each path once and in increasing order,
/// unless there is none or one is refused.
pub open spec fn is_selection(
    given: Seq<Result<Seq<char>, Seq<char>>>,
    r: Result<Seq<Seq<char>>, Seq<char>>,
) -> bool {
    if given.len() == 0 {
        r == Err::<Seq<Seq<char>>, Seq<char>>("Select at least one file to restore"@)
    } else {
        match r {
            Err(message) => exists|i: int|
                0 <= i < given.len() && #[trigger] given[i] == Err::<Seq<char>, Seq<char>>(message)
                    && forall|j: int| 0 <= j < i ==> #[trigger] given[j] is Ok,
            Ok(selected) => {
                &&& forall|i: int| 0 <= i < given.len() ==> #[trigger] given[i] is Ok
                &&& text_map::increasing(selected)
                &&& forall|path: Seq<char>| #[trigger]
                    selected.contains(path) <==> given.contains(Ok::<Seq<char>, Seq<char>>(path))
            },
        }
    }
}

/// Fallible paths by their characters.
pub open spec fn paths_view(r: Result<Vec<String>, String>) -> Result<Seq<Seq<char>>, Seq<char>> {
    match r {
        Ok(paths) => Ok(text::texts_view(paths@)),
        Err(e) => Err(e@),
    }
}

/// The paths that are restored: each checked path once, in increasing order.
pub fn select_paths(given: Vec<Result<String, String>>) -> (r: Result<Vec<String>, String>)
    ensures
        is_selection(checked_view(given@), paths_view(r)),
{
    if given.len() == 0 {
        return Err("Select at least one file to restore".to_owned());
    }
    let ghost view = checked_view(given@);
    let mut good: Vec<String> = Vec::new();
    for n in 0..given.len()
        invariant
            view == checked_view(given@),
            view.len() > 0,
            good@.len() == n,
            forall|i: int| 0 <= i < n ==> view[i] == Ok::<Seq<char>, Seq<char>>((#[trigger] good@[i])@),
            forall|i: int| 0 <= i < n ==> #[trigger] view[i] is Ok,
    {
        assert(view[n as int] == text::result_view(given@[n as int]));
        match &given[n] {
            Ok(path) => {
                good.push(path.clone());
            },
            Err(message) => {
                assert(view[n as int] == Err::<Seq<char>, Seq<char>>(message@));
                return Err(message.clone());
            },
        }
    }
    let set: TextMap<()> = set_of(&good);
    let r: Vec<String> = keys_of(&set);
    proof {
        set.lemma_contents();
        let selected = text::texts_view(r@);
        assert forall|path: Seq<char>| #[trigger] selected.contains(path) <==> view.contains(
            Ok::<Seq<char>, Seq<char>>(path),
        ) by {
            assert(set@.dom().contains(path) <==> selected.contains(path));
            if text::texts_view(good@).contains(path) {
                let i = text::texts_view(good@).index_of(path);
                assert(good@[i]@ == path);
                assert(view[i] == Ok::<Seq<char>, Seq<char>>(path));
            }
            if view.contains(Ok::<Seq<char>, Seq<char>>(path)) {
                let i = view.index_of(Ok::<Seq<char>, Seq<char>>(path));
                assert(view[i] == Ok::<Seq<char>, Seq<char>>(good@[i]@));
                assert(text::texts_view(good@)[i] == path);
            }
        }
    }
    Ok(r)
}

/// The texts of `list` that are, or are not, among `others`, in order.
pub open spec fn those_among(list: Seq<Seq<char>>, others: Seq<Seq<char>>, wanted: bool) -> Seq<Seq<char>>
    decreases list.len(),
{
    if list.len() == 0 {
        Seq::empty()
    } else if others.contains(list.last()) == wanted {
        those_among(list.drop_last(), others, wanted).push(list.last())
    } else {
        those_among(list.drop_last(), others, wanted)
    }
}

fn pick_among(list: &Vec<String>, others: &Vec<String>, wanted: bool) -> (r: Vec<String>)
    ensures
        text::texts_view(r@) == those_among(text::texts_view(list@), text::texts_view(others@), wanted),
{
    let ghost view = text::texts_view(list@);
    let set: TextMap<()> = set_of(others);
    let mut r: Vec<String> = Vec::new();
    assert(text::texts_view(r@) =~= Seq::empty());
    for n in 0..list.len()
        invariant
            view == text::texts_view(list@),
            set.wf(),
            forall|t: Seq<char>| #[trigger] set@.dom().contains(t) <==> text::texts_view(others@).contains(t),
            text::texts_view(r@) == those_among(view.take(n as int), text::texts_view(others@), wanted),
    {
        assert(view[n as int] == list@[n as int]@);
        assert(view.take(n + 1).drop_last() =~= view.take(n as int));
        if set.contains_key(list[n].as_str()) == wanted {
            let ghost had = r@;
            r.push(list[n].clone());
            assert(text::texts_view(r@) =~= text::texts_view(had).push(list@[n as int]@));
        }
    }
    assert(view.take(view.len() as int) =~= view);
    r
}

/// What is answered for selected paths that are not all in the stash.
pub open spec fn in_stash_answer(selected: Seq<Seq<char>>, files: Seq<Seq<char>>) -> Result<(), Seq<char>> {
    let missing = those_among(selected, files, false);
    if missing.len() > 0 {
        Err("The selected path is not present in this stash: "@ + pieces::joined(missing, ", "@))
    } else {
        Ok(())
    }
}

/// Checks that every selected path is in the stash.
pub fn check_in_stash(selected: &Vec<String>, files: &Vec<String>) -> (r: Result<(), String>)
    ensures
        text::unit_view(r) == in_stash_answer(text::texts_view(selected@), text::texts_view(files@)),
{
    let missing: Vec<String> = pick_among(selected, files, false);
    if missing.len() > 0 {
        let mut message: String = "The selected path is not present in this stash: ".to_owned();
        message.append(pieces::join(&missing, ", ").as_str());
        return Err(message);
    }
    Ok(())
}

/// What is answered before a file is restored. Conflicts count as there where that is not known.
pub open spec fn restore_state_answer(state: RepositoryState, conflicts: Option<bool>) -> Result<(), Seq<char>> {
    if state != RepositoryState::Clean || conflicts != Some(false) {
        Err("Cannot restore a stash file while another Git operation or conflict resolution is in progress."@)
    } else {
        Ok(())
    }
}

/// Checks that nothing is under way in the repository before a file is restored. Conflicts count as there
/// where that is not known.
pub fn check_restore_state(state: RepositoryState, conflicts: Option<bool>) -> (r: Result<(), String>)
    ensures
        text::unit_view(r) == restore_state_answer(state, conflicts),
{
    if state != RepositoryState::Clean || !has_no_conflicts(conflicts) {
        return Err(
            "Cannot restore a stash file while another Git operation or conflict resolution is in progress.".to_owned(),
        );
    }
    Ok(())
}

/// What is answered for selected paths of which some have changes that are not committed.
pub open spec fn clean_answer(selected: Seq<Seq<char>>, changed: Seq<Seq<char>>) -> Result<(), Seq<char>> {
    let touched = those_among(selected, changed, true);
    if touched.len() > 0 {
        Err(
            "Cannot restore because the selected path already has uncommitted work: "@ + pieces::joined(
                touched,
                ", "@,
            ) + ". Commit, stash, or discard that current work first; it will not be overwritten."@,
        )
    } else {
        Ok(())
    }
}

/// Checks that no selected path has changes that are not committed.
pub fn check_selected_clean(selected: &Vec<String>, dirty: &Vec<String>) -> (r: Result<(), String>)
    ensures
        text::unit_view(r) == clean_answer(text::texts_view(selected@), text::texts_view(dirty@)),
{
    let changed: Vec<String> = pick_among(selected, dirty, true);
    if changed.len() > 0 {
        let list: String = pieces::join(&changed, ", ");
        return Err(
            text::framed(
                "Cannot restore because the selected path already has uncommitted work: ",
                list.as_str(),
                ". Commit, stash, or discard that current work first; it will not be overwritten.",
            ),
        );
    }
    Ok(())
}

/// A selected path, and where it was found.
pub struct SelectedPath {
    pub path: String,
    /// Whether the stash saved it as a file that was not tracked.
    pub saved_untracked: bool,
    /// Whether something lies at the path now.
    pub on_disk: bool,
}

/// The paths of the selection that were saved as tracked, or as not tracked, in order.
pub open spec fn saved_as(list: Seq<SelectedPath>, untracked: bool) -> Seq<Seq<char>>
    decreases list.len(),
{
    if list.len() == 0 {
        Seq::empty()
    } else if list.last().saved_untracked == untracked {
        saved_as(list.drop_last(), untracked).push(list.last().path@)
    } else {
        saved_as(list.drop_last(), untracked)
    }
}

/// Whether a path would be written over: a file that was not tracked is restored only where nothing lies.
pub open spec fn is_blocked(selected: SelectedPath) -> bool {
    selected.saved_untracked && selected.on_disk
}

/// What restoring single files does next.
pub enum RestoreStep {
    /// List the files of the stash.
    ListFiles,
    /// See whether something is under way in the repository.
    CheckState,
    /// List the paths with changes that are not committed.
    ListChanged,
    /// List the stashes.
    ListStashes,
    /// Find out of each selected path how the stash saved it and whether something lies there.
    LocatePaths,
    /// Restore tracked files with these arguments.
    RestoreTracked { args: Vec<String> },
    /// Find the commit with the files that were not tracked.
    FindUntracked,
    /// Restore files that were not tracked with these arguments.
    RestoreUntracked { args: Vec<String> },
    /// Nothing more.
    Done { result: Result<(), String> },
}

/// Restoring single files of a stash.
pub struct RestoreRun {
    /// The place of the stash.
    pub index: usize,
    /// The paths that are restored.
    pub selected: Vec<String>,
    /// The files of the stash.
    pub files: Vec<String>,
    /// The paths with changes that are not committed.
    pub changed: Vec<String>,
    /// Where the selected paths were found.
    pub located: Vec<SelectedPath>,
    /// The object of the stash.
    pub oid: String,
    /// The selected paths that the stash saved as tracked.
    pub versioned: Vec<String>,
    /// The selected paths that the stash saved as not tracked.
    pub untracked: Vec<String>,
    pub step: RestoreStep,
}

/// Selected paths by their characters.
pub open spec fn located_paths(list: Seq<SelectedPath>) -> Seq<Seq<char>> {
    list.map_values(|selected: SelectedPath| selected.path@)
}

/// The command that restores files from a commit.
pub open spec fn restore_command(oid: Seq<char>, paths: Seq<Seq<char>>) -> Seq<Seq<char>> {
    seq!["restore"@, "--source="@ + oid, "--worktree"@, "--"@] + paths
}

fn restore_args(oid: &str, paths: &Vec<String>) -> (r: Vec<String>)
    ensures
        text::texts_view(r@) == restore_command(oid@, text::texts_view(paths@)),
{
    let mut source: String = "--source=".to_owned();
    source.append(oid);
    let mut r: Vec<String> = text::texts_of(&["restore", source.as_str(), "--worktree", "--"]);
    let ghost head = text::texts_view(r@);
    assert(head =~= seq!["restore"@, "--source="@ + oid@, "--worktree"@, "--"@]);
    let ghost view = text::texts_view(paths@);
    assert(head + view.take(0) =~= head);
    for n in 0..paths.len()
        invariant
            view == text::texts_view(paths@),
            text::texts_view(r@) == head + view.take(n as int),
    {
        let ghost had = r@;
        r.push(paths[n].clone());
        assert(view[n as int] == paths@[n as int]@);
        assert(text::texts_view(r@) =~= text::texts_view(had).push(view[n as int]));
        assert(head + view.take(n + 1) =~= (head + view.take(n as int)).push(view[n as int]));
    }
    assert(view.take(view.len() as int) =~= view);
    r
}

/// The message for a file that would be written over.
pub open spec fn in_the_way(path: Seq<char>) -> Seq<char> {
    "Cannot restore '"@ + path + "' because a file already exists there. The stash was kept unchanged."@
}

fn part_selection(selected: &Vec<SelectedPath>) -> (r: Result<(Vec<String>, Vec<String>), String>)
    ensures
        match r {
            Err(e) => exists|i: int|
                0 <= i < selected@.len() && is_blocked(#[trigger] selected@[i]) && e@ == in_the_way(
                    selected@[i].path@,
                ) && forall|j: int| 0 <= j < i ==> !is_blocked(#[trigger] selected@[j]),
            Ok((versioned, untracked)) => {
                &&& forall|j: int| 0 <= j < selected@.len() ==> !is_blocked(#[trigger] selected@[j])
                &&& text::texts_view(versioned@) == saved_as(selected@, false)
                &&& text::texts_view(untracked@) == saved_as(selected@, true)
            },
        },
{
    let mut versioned: Vec<String> = Vec::new();
    let mut untracked: Vec<String> = Vec::new();
    assert(text::texts_view(versioned@) =~= Seq::empty());
    assert(text::texts_view(untracked@) =~= Seq::empty());
    for n in 0..selected.len()
        invariant
            forall|j: int| 0 <= j < n ==> !is_blocked(#[trigger] selected@[j]),
            text::texts_view(versioned@) == saved_as(selected@.take(n as int), false),
            text::texts_view(untracked@) == saved_as(selected@.take(n as int), true),
    {
        assert(selected@.take(n + 1).drop_last() =~= selected@.take(n as int));
        let item: &SelectedPath = &selected[n];
        if item.saved_untracked {
            if item.on_disk {
                assert(is_blocked(selected@[n as int]));
                return Err(
                    text::framed(
                        "Cannot restore '",
                        item.path.as_str(),
                        "' because a file already exists there. The stash was kept unchanged.",
                    ),
                );
            }
            let ghost had = untracked@;
            untracked.push(item.path.clone());
            assert(text::texts_view(untracked@) =~= text::texts_view(had).push(item.path@));
        } else {
            let ghost had = versioned@;
            versioned.push(item.path.clone());
            assert(text::texts_view(versioned@) =~= text::texts_view(had).push(item.path@));
        }
    }
    assert(selected@.take(selected@.len() as int) =~= selected@);
    Ok((versioned, untracked))
}

impl RestoreRun {
    /// Whether every selected path was found in the stash.
    pub open spec fn is_in_stash(&self) -> bool {
        in_stash_answer(text::texts_view(self.selected@), text::texts_view(self.files@)) is Ok
    }

    /// Whether no selected path was found to have changes that are not committed.
    pub open spec fn is_clean(&self) -> bool {
        clean_answer(text::texts_view(self.selected@), text::texts_view(self.changed@)) is Ok
    }

    /// Whether every check was passed and the paths are parted by how the stash saved them.
    pub open spec fn is_ready(&self) -> bool {
        &&& self.is_in_stash()
        &&& self.is_clean()
        &&& located_paths(self.located@) == text::texts_view(self.selected@)
        &&& forall|j: int| 0 <= j < self.located@.len() ==> !is_blocked(#[trigger] self.located@[j])
        &&& text::texts_view(self.versioned@) == saved_as(self.located@, false)
        &&& text::texts_view(self.untracked@) == saved_as(self.located@, true)
    }

    /// Each step comes only after the checks before it: no file is written before all of them were passed.
    pub open spec fn wf(&self) -> bool {
        match self.step {
            RestoreStep::ListFiles => true,
            RestoreStep::CheckState | RestoreStep::ListChanged => self.is_in_stash(),
            RestoreStep::ListStashes | RestoreStep::LocatePaths => self.is_in_stash() && self.is_clean(),
            RestoreStep::RestoreTracked { args } => {
                &&& self.is_ready()
                &&& self.versioned@.len() > 0
                &&& text::texts_view(args@) == restore_command(self.oid@, text::texts_view(self.versioned@))
            },
            RestoreStep::FindUntracked | RestoreStep::RestoreUntracked { .. } => self.is_ready()
                && self.untracked@.len() > 0,
            RestoreStep::Done { result } => result is Ok ==> self.is_ready(),
        }
    }

    /// The step that comes once the tracked files are dealt with.
    pub open spec fn is_at_untracked(&self) -> bool {
        if self.untracked@.len() > 0 {
            self.step is FindUntracked
        } else {
            self.step matches RestoreStep::Done { result } && result is Ok
        }
    }

    /// Whether the same paths of the same stash are restored.
    pub open spec fn same_request(&self, other: &RestoreRun) -> bool {
        self.index == other.index && self.selected == other.selected
    }

    /// Whether it is the same restore and only the progress differs.
    pub open spec fn same_job(&self, other: &RestoreRun) -> bool {
        &&& self.same_request(other)
        &&& self.files == other.files
        &&& self.changed == other.changed
        &&& self.located == other.located
        &&& self.oid == other.oid
        &&& self.versioned == other.versioned
        &&& self.untracked == other.untracked
    }

    /// Whether it has ended with this message.
    pub open spec fn failed(&self, message: Seq<char>) -> bool {
        self.step matches RestoreStep::Done { result } && text::unit_view(result) == Err::<(), Seq<char>>(message)
    }

    /// Goes on after the files of the stash were to be listed.
    pub fn files_listed(&mut self, listed: Result<Vec<String>, String>)
        requires
            old(self).wf(),
            old(self).step is ListFiles,
        ensures
            final(self).wf(),
            final(self).same_request(old(self)),
            match listed {
                Err(error) => final(self).failed(error@),
                Ok(files) => match in_stash_answer(text::texts_view(old(self).selected@), text::texts_view(files@)) {
                    Err(message) => final(self).failed(message),
                    Ok(_) => final(self).step is CheckState && final(self).files == files,
                },
            },
    {
        match listed {
            Err(error) => {
                self.step = RestoreStep::Done { result: Err(error) };
            },
            Ok(files) => match check_in_stash(&self.selected, &files) {
                Err(message) => {
                    self.step = RestoreStep::Done { result: Err(message) };
                },
                Ok(_) => {
                    self.files = files;
                    self.step = RestoreStep::CheckState;
                },
            },
        }
    }

    /// Goes on after the repository was looked at.
    pub fn state_checked(&mut self, state: RepositoryState, conflicts: Option<bool>)
        requires
            old(self).wf(),
            old(self).step is CheckState,
        ensures
            final(self).wf(),
            final(self).same_job(old(self)),
            match restore_state_answer(state, conflicts) {
                Err(message) => final(self).failed(message),
                Ok(_) => final(self).step is ListChanged,
            },
    {
        match check_restore_state(state, conflicts) {
            Err(message) => {
                self.step = RestoreStep::Done { result: Err(message) };
            },
            Ok(_) => {
                self.step = RestoreStep::ListChanged;
            },
        }
    }

    /// Goes on after the paths with changes that are not committed were to be listed.
    pub fn changed_listed(&mut self, listed: Result<Vec<String>, String>)
        requires
            old(self).wf(),
            old(self).step is ListChanged,
        ensures
            final(self).wf(),
            final(self).same_request(old(self)),
            match listed {
                Err(error) => final(self).failed(error@),
                Ok(changed) => match clean_answer(
                    text::texts_view(old(self).selected@),
                    text::texts_view(changed@),
                ) {
                    Err(message) => final(self).failed(message),
                    Ok(_) => {
                        &&& final(self).step is ListStashes
                        &&& final(self).files == old(self).files
                        &&& final(self).changed == changed
                    },
                },
            },
    {
        match listed {
            Err(error) => {
                self.step = RestoreStep::Done { result: Err(error) };
            },
            Ok(changed) => match check_selected_clean(&self.selected, &changed) {
                Err(message) => {
                    self.step = RestoreStep::Done { result: Err(message) };
                },
                Ok(_) => {
                    self.changed = changed;
                    self.step = RestoreStep::ListStashes;
                },
            },
        }
    }

    /// Goes on after the stashes were to be listed.
    pub fn stashes_listed(&mut self, listed: Result<Vec<StashObject>, String>)
        requires
            old(self).wf(),
            old(self).step is ListStashes,
        ensures
            final(self).wf(),
            final(self).same_request(old(self)),
            match listed {
                Err(error) => final(self).failed(error@),
                Ok(stashes) => match stash_at(stashes@, old(self).index) {
                    None => final(self).failed("That stash entry no longer exists"@),
                    Some(oid) => {
                        &&& final(self).step is LocatePaths
                        &&& final(self).files == old(self).files
                        &&& final(self).changed == old(self).changed
                        &&& final(self).oid@ == oid
                    },
                },
            },
    {
        match listed {
            Err(error) => {
                self.step = RestoreStep::Done { result: Err(error) };
            },
            Ok(stashes) => match find_stash(&stashes, self.index) {
                Err(message) => {
                    self.step = RestoreStep::Done { result: Err(message) };
                },
                Ok(oid) => {
                    self.oid = oid;
                    self.step = RestoreStep::LocatePaths;
                },
            },
        }
    }

    /// Goes on after the selected paths were to be located, each in its turn. Nothing is restored where a
    /// file that was not tracked would be written over.
    pub fn paths_located(&mut self, located: Result<Vec<SelectedPath>, String>)
        requires
            old(self).wf(),
            old(self).step is LocatePaths,
            located matches Ok(list) ==> located_paths(list@) == text::texts_view(old(self).selected@),
        ensures
            final(self).wf(),
            final(self).same_request(old(self)),
            match located {
                Err(error) => final(self).failed(error@),
                Ok(list) => if exists|i: int| 0 <= i < list@.len() && is_blocked(#[trigger] list@[i]) {
                    exists|i: int|
                        0 <= i < list@.len() && is_blocked(#[trigger] list@[i]) && final(self).failed(
                            in_the_way(list@[i].path@),
                        ) && forall|j: int| 0 <= j < i ==> !is_blocked(#[trigger] list@[j])
                } else {
                    &&& final(self).located == list
                    &&& final(self).files == old(self).files
                    &&& final(self).changed == old(self).changed
                    &&& final(self).oid == old(self).oid
                    &&& text::texts_view(final(self).versioned@) == saved_as(list@, false)
                    &&& text::texts_view(final(self).untracked@) == saved_as(list@, true)
                    &&& if final(self).versioned@.len() > 0 {
                        final(self).step is RestoreTracked
                    } else {
                        final(self).is_at_untracked()
                    }
                },
            },
    {
        match located {
            Err(error) => {
                self.step = RestoreStep::Done { result: Err(error) };
            },
            Ok(list) => match part_selection(&list) {
                Err(message) => {
                    self.step = RestoreStep::Done { result: Err(message) };
                },
                Ok((versioned, untracked)) => {
                    self.located = list;
                    self.versioned = versioned;
                    self.untracked = untracked;
                    if self.versioned.len() > 0 {
                        let args: Vec<String> = restore_args(self.oid.as_str(), &self.versioned);
                        self.step = RestoreStep::RestoreTracked { args };
                    } else {
                        self.go_to_untracked();
                    }
                },
            },
        }
    }

    fn go_to_untracked(&mut self)
        requires
            old(self).is_ready(),
        ensures
            final(self).wf(),
            final(self).same_job(old(self)),
            final(self).is_at_untracked(),
    {
        if self.untracked.len() > 0 {
            self.step = RestoreStep::FindUntracked;
        } else {
            self.step = RestoreStep::Done { result: Ok(()) };
        }
    }

    /// Goes on after the tracked files were to be restored.
    pub fn tracked_restored(&mut self, outcome: Result<(), String>)
        requires
            old(self).wf(),
            old(self).step is RestoreTracked,
        ensures
            final(self).wf(),
            final(self).same_job(old(self)),
            match outcome {
                Err(error) => final(self).failed("Cannot restore the selected tracked file(s): "@ + error@),
                Ok(_) => final(self).is_at_untracked(),
            },
    {
        match outcome {
            Err(error) => {
                let mut message: String = "Cannot restore the selected tracked file(s): ".to_owned();
                message.append(error.as_str());
                self.step = RestoreStep::Done { result: Err(message) };
            },
            Ok(_) => {
                self.go_to_untracked();
            },
        }
    }

    /// Goes on after the commit with the files that were not tracked was to be found; it is nothing where
    /// the stash has none.
    pub fn untracked_found(&mut self, found: Result<Option<String>, String>)
        requires
            old(self).wf(),
            old(self).step is FindUntracked,
        ensures
            final(self).wf(),
            final(self).same_job(old(self)),
            match found {
                Err(error) => final(self).failed(error@),
                Ok(None) => final(self).failed("This stash has no saved untracked-file snapshot"@),
                Ok(Some(oid)) => final(self).step matches RestoreStep::RestoreUntracked { args }
                    && text::texts_view(args@) == restore_command(oid@, text::texts_view(old(self).untracked@)),
            },
    {
        match found {
            Err(error) => {
                self.step = RestoreStep::Done { result: Err(error) };
            },
            Ok(None) => {
                self.step = RestoreStep::Done {
                    result: Err("This stash has no saved untracked-file snapshot".to_owned()),
                };
            },
            Ok(Some(oid)) => {
                let args: Vec<String> = restore_args(oid.as_str(), &self.untracked);
                self.step = RestoreStep::RestoreUntracked { args };
            },
        }
    }

    /// Goes on after the files that were not tracked were to be restored.
    pub fn untracked_restored(&mut self, outcome: Result<(), String>)
        requires
            old(self).wf(),
            old(self).step is RestoreUntracked,
        ensures
            final(self).wf(),
            final(self).same_job(old(self)),
            match outcome {
                Err(error) => final(self).failed("Cannot restore the selected untracked file(s): "@ + error@),
                Ok(_) => final(self).step matches RestoreStep::Done { result } && result is Ok,
            },
    {
        match outcome {
            Err(error) => {
                let mut message: String = "Cannot restore the selected untracked file(s): ".to_owned();
                message.append(error.as_str());
                self.step = RestoreStep::Done { result: Err(message) };
            },
            Ok(_) => {
                self.step = RestoreStep::Done { result: Ok(()) };
            },
        }
    }
}

/// Begins to restore single files of the stash at a place: each checked path once, in increasing order, unless
/// there is none or one is refused.
pub fn restore_stash_paths(given: Vec<Result<String, String>>, index: usize) -> (r: Result<RestoreRun, String>)
    ensures
        is_selection(
            checked_view(given@),
            match r {
                Ok(run) => Ok(text::texts_view(run.selected@)),
                Err(e) => Err(e@),
            },
        ),
        r matches Ok(run) ==> run.wf() && run.index == index && run.step is ListFiles,
{
    match select_paths(given) {
        Err(message) => Err(message),
        Ok(selected) => Ok(
            RestoreRun {
                index,
                selected,
                files: Vec::new(),
                changed: Vec::new(),
                located: Vec::new(),
                oid: String::new(),
                versioned: Vec::new(),
                untracked: Vec::new(),
                step: RestoreStep::ListFiles,
            },
        ),
    }
}

/// Every selected path is restored exactly once: as a tracked file or as one that was not tracked.
pub proof fn law_every_selected_path_is_restored_once(selected: Seq<SelectedPath>)
    ensures
        saved_as(selected, false).len() + saved_as(selected, true).len() == selected.len(),
        forall|i: int|
            0 <= i < selected.len() ==> saved_as(selected, selected[i].saved_untracked).contains(
                (#[trigger] selected[i]).path@,
            ),
    decreases selected.len(),
{
    if selected.len() > 0 {
        let front = selected.drop_last();
        law_every_selected_path_is_restored_once(front);
        let last = selected.last();
        assert forall|i: int| 0 <= i < selected.len() implies saved_as(
            selected,
            selected[i].saved_untracked,
        ).contains((#[trigger] selected[i]).path@) by {
            let kind = selected[i].saved_untracked;
            let had = saved_as(front, kind);
            let now = saved_as(selected, kind);
            if i < front.len() {
                assert(front[i] == selected[i]);
                let k = had.index_of(selected[i].path@);
                assert(now[k] == selected[i].path@);
            } else {
                assert(now[now.len() - 1] == selected[i].path@);
            }
        }
    }
}

/// No path with changes that are not committed passes the check before a restore.
pub proof fn law_changed_paths_are_never_overwritten(
    selected: Seq<Seq<char>>,
    dirty: Seq<Seq<char>>,
    path: Seq<char>,
)
    requires
        selected.contains(path),
        dirty.contains(path),
    ensures
        those_among(selected, dirty, true).contains(path),
    decreases selected.len(),
{
    let k = selected.index_of(path);
    assert(selected[k] == path);
    let front = selected.drop_last();
    let all = those_among(selected, dirty, true);
    if k == selected.len() - 1 {
        assert(all[all.len() - 1] == path);
    } else {
        assert(front[k] == path);
        law_changed_paths_are_never_overwritten(front, dirty, path);
        let i = those_among(front, dirty, true).index_of(path);
        assert(all[i] == path);
    }
}

/// Nothing is restored before every check was passed: what is written was selected, is in the stash, has no
/// changes that are not committed, and lies nowhere in the way of a file that was not tracked.
pub proof fn law_files_are_written_only_after_every_check(run: RestoreRun, path: Seq<char>)
    requires
        run.wf(),
        run.step is RestoreTracked || run.step is FindUntracked || run.step is RestoreUntracked,
        text::texts_view(run.selected@).contains(path),
    ensures
        text::texts_view(run.files@).contains(path),
        !text::texts_view(run.changed@).contains(path),
        forall|i: int| 0 <= i < run.located@.len() ==> !is_blocked(#[trigger] run.located@[i]),
{
    let selected = text::texts_view(run.selected@);
    if text::texts_view(run.changed@).contains(path) {
        law_changed_paths_are_never_overwritten(selected, text::texts_view(run.changed@), path);
    }
    if !text::texts_view(run.files@).contains(path) {
        lemma_missing_is_listed(selected, text::texts_view(run.files@), path);
    }
}

proof fn lemma_missing_is_listed(selected: Seq<Seq<char>>, files: Seq<Seq<char>>, path: Seq<char>)
    requires
        selected.contains(path),
        !files.contains(path),
    ensures
        those_among(selected, files, false).len() > 0,
    decreases selected.len(),
{
    let k = selected.index_of(path);
    assert(selected[k] == path);
    if k < selected.len() - 1 {
        let front = selected.drop_last();
        assert(front[k] == path);
        lemma_missing_is_listed(front, files, path);
    }
}

// What is answered, listed and run.

/// A listed stash has the place, the message and the base that were found; a missing base is blank. The branch is blank
/// exactly while the head is detached or has no name.
pub proof fn law_stashes_are_listed_as_they_are(
    repository_path: String,
    is_submodule: bool,
    relative_path: Option<String>,
    detached: Option<bool>,
    head_name: Option<String>,
    found: &Vec<FoundStash>,
    r: StashScope,
    i: int,
)
    requires
        call_ensures(
            stash_scope_inner,
            (repository_path, is_submodule, relative_path, detached, head_name, found),
            r,
        ),
        0 <= i < found@.len(),
    ensures
        r.stashes@.len() == found@.len(),
        r.stashes@[i].index == found@[i].index,
        r.stashes@[i].message@ == found@[i].message@,
        found@[i].base_commit is Some ==> r.stashes@[i].base_commit@ == found@[i].base_commit->0@,
        found@[i].base_commit is None ==> r.stashes@[i].base_commit@.len() == 0,
        detached == Some(true) || head_name is None ==> r.current_branch@.len() == 0,
        detached != Some(true) && head_name is Some ==> r.current_branch@ == head_name->0@,
        r.repository_path@ == repository_path@,
        r.is_submodule == is_submodule,
        text::opt_view(r.relative_path) == text::opt_view(relative_path),
{
    reveal_strlit("");
    assert(lists_stash(r.stashes@[i], found@[i]));
}

/// One path is stashed with its whole name, with files that are not tracked, and behind `--`.
pub proof fn law_one_path_is_stashed_by_its_name(relative: &str, r: Result<Vec<String>, String>)
    requires
        call_ensures(stash_file, (relative,), r),
    ensures
        relative@.len() == 0 ==> (r matches Err(e) && e@ == "Select a specific file or folder to stash"@),
        relative@.len() > 0 ==> (r matches Ok(args) && args@.len() == 5 && args@[0]@ == "stash"@ && args@[1]@ == "push"@
            && args@[2]@ == "--include-untracked"@ && args@[3]@ == "--"@ && args@[4]@ == relative@),
{
    if let Ok(args) = r {
        let view = text::texts_view(args@);
        assert(view.len() == args@.len());
        assert(view[0] == args@[0]@);
        assert(view[1] == args@[1]@);
        assert(view[2] == args@[2]@);
        assert(view[3] == args@[3]@);
        assert(view[4] == args@[4]@);
    }
}

/// A path is stashed inside the submodule that it lies in, and a submodule itself in its parent.
pub proof fn law_paths_are_stashed_in_their_repository(boundary: Option<(String, String)>, r: Option<(String, String)>)
    requires
        call_ensures(stash_repository, (boundary,), r),
    ensures
        r is Some <==> boundary is Some && (boundary->0).1@.len() > 0,
        r is Some ==> (r->0).0@ == (boundary->0).0@ && (r->0).1@ == (boundary->0).1@,
{
}

/// The first changed files are shown one below the other, each as its status, a space and its path; of more than five the
/// others are counted.
pub proof fn law_changed_files_are_summed_up(dirty: Seq<DirtyFile>, file: DirtyFile)
    ensures
        dirty_summary(Seq::empty()) == Seq::<char>::empty(),
        dirty_summary(seq![file]) == file.status@ + seq![' '] + file.path@,
        0 < dirty.len() < 5 ==> dirty_summary(dirty.push(file)) == dirty_summary(dirty) + seq!['\n'] + file.status@
            + seq![' '] + file.path@,
        dirty.len() > 5 ==> dirty_summary(dirty) == dirty_summary(dirty.take(5)) + " (+"@ + numerals::decimal(
            (dirty.len() - 5) as nat,
        ) + " more)"@,
{
    reveal_strlit(" ");
    reveal_strlit("\n");
    assert(" "@ =~= seq![' ']);
    assert("\n"@ =~= seq!['\n']);
    let line = |f: DirtyFile| dirty_line(f);
    let nothing = Seq::<char>::empty();
    assert(Seq::<DirtyFile>::empty().map_values(line) =~= Seq::<Seq<char>>::empty());
    assert(nothing + nothing =~= nothing);
    assert(seq![file].map_values(line) =~= seq![dirty_line(file)]);
    assert(dirty_summary(seq![file]) =~= dirty_line(file));
    if 0 < dirty.len() < 5 {
        let lines = dirty.map_values(line);
        let more = dirty.push(file).map_values(line);
        assert(more.drop_last() =~= lines);
        assert(more.last() == dirty_line(file));
        assert(dirty_summary(dirty.push(file)) =~= pieces::joined(lines, "\n"@) + "\n"@ + dirty_line(file));
        assert(dirty_summary(dirty) =~= pieces::joined(lines, "\n"@));
        assert(dirty_summary(dirty.push(file)) =~= dirty_summary(dirty) + seq!['\n'] + file.status@ + seq![' ']
            + file.path@);
    }
    if dirty.len() > 5 {
        let first = dirty.take(5);
        assert(dirty_summary(first) =~= pieces::joined(first.map_values(line), "\n"@));
        assert(dirty_summary(dirty) =~= dirty_summary(first) + " (+"@ + numerals::decimal((dirty.len() - 5) as nat)
            + " more)"@);
    }
}

/// A whole stash is restored only into a repository that is at rest, known to be without conflicts and without changes
/// that are not committed. The refusal lists the changes.
pub proof fn law_a_whole_stash_needs_a_clean_repository(
    state: RepositoryState,
    conflicts: Option<bool>,
    files: Vec<DirtyFile>,
    error: String,
    r: Result<PopRun, String>,
    s: Result<PopRun, String>,
)
    requires
        call_ensures(pop_stash, (state, conflicts, Ok(files)), r),
        call_ensures(pop_stash, (state, conflicts, Err(error)), s),
    ensures
        r is Ok <==> state == RepositoryState::Clean && conflicts == Some(false) && files@.len() == 0,
        s is Err,
        state != RepositoryState::Clean || conflicts != Some(false) ==> (r->Err_0)@
            == "Cannot restore a stash while another Git operation or conflict resolution is in progress. Finish or abort it first."@
            && (s->Err_0)@ == (r->Err_0)@,
        state == RepositoryState::Clean && conflicts == Some(false) ==> (s->Err_0)@ == error@,
        state == RepositoryState::Clean && conflicts == Some(false) && files@.len() > 0 ==> (r->Err_0)@
            == "Cannot restore the complete stash because this repository already has uncommitted work:\n"@
            + dirty_summary(files@)
            + "\n\nCommit or stash the current work first, or restore only selected clean files. Nothing was changed."@,
        r matches Ok(run) ==> run.step is Apply,
{
}

/// A stash that was applied is dropped unless there are conflicts, and the restore succeeds either way; it fails where the
/// stash cannot be applied or cannot be dropped, with what was reported.
pub proof fn law_a_stash_is_dropped_once_it_was_applied(
    a: &mut PopRun,
    b: &mut PopRun,
    c: &mut PopRun,
    applied: Result<(), String>,
    conflicts: Option<bool>,
    dropped: Result<(), String>,
)
    requires
        old(a).wf(),
        old(a).step is Apply,
        call_ensures(PopRun::applied, (a, applied), ()),
        applied is Ok ==> *old(b) == *final(a) && call_ensures(PopRun::conflicts_checked, (b, conflicts), ()),
        applied is Ok && conflicts != Some(true) ==> *old(c) == *final(b) && call_ensures(PopRun::dropped, (c, dropped), ()),
    ensures
        applied is Err ==> (final(a).step matches PopStep::Done { result } && result matches Err(e) && e@
            == "Cannot restore stashed work: "@ + (applied->Err_0)@),
        applied is Ok ==> final(a).step is CheckConflicts,
        applied is Ok && conflicts == Some(true) ==> (final(b).step matches PopStep::Done { result } && result is Ok),
        applied is Ok && conflicts != Some(true) ==> final(b).step is Drop,
        applied is Ok && conflicts != Some(true) && dropped is Ok ==> (final(c).step matches PopStep::Done { result }
            && result is Ok),
        applied is Ok && conflicts != Some(true) && dropped is Err ==> (final(c).step matches PopStep::Done { result }
            && result matches Err(e) && e@ == "Restored, but could not drop the stash entry: "@ + (dropped->Err_0)@),
{
}

/// Stashing and dropping succeed as Git does and fail with what was reported.
pub proof fn law_stashing_ends_as_git_does(
    error: String,
    dropped: Result<(), String>,
    not_dropped: Result<(), String>,
    stashed: Result<(), String>,
    not_stashed: Result<(), String>,
)
    requires
        call_ensures(drop_stash, (Ok(()),), dropped),
        call_ensures(drop_stash, (Err(error),), not_dropped),
        call_ensures(stash_changes, (Ok(()),), stashed),
        call_ensures(stash_changes, (Err(error),), not_stashed),
    ensures
        dropped is Ok,
        not_dropped matches Err(e) && e@ == "Cannot drop this stash: "@ + error@,
        stashed is Ok,
        not_stashed matches Err(e) && e@ == "Cannot stash changes: "@ + error@,
{
}

/// A file of a stash is listed under the path that it has after the change, and under the one before only where it has
/// none after; nothing else is listed.
pub proof fn law_files_of_a_stash_are_listed_by_their_new_path(
    files: &Vec<ChangedFile>,
    r: Vec<String>,
    i: int,
    path: Seq<char>,
)
    requires
        call_ensures(stash_entry_files, (files,), r),
        0 <= i < files@.len(),
    ensures
        files@[i].new_path is Some ==> text::texts_view(r@).contains(files@[i].new_path->0@),
        files@[i].new_path is None && files@[i].old_path is Some ==> text::texts_view(r@).contains(
            files@[i].old_path->0@,
        ),
        text::texts_view(r@).contains(path) ==> exists|k: int|
            0 <= k < files@.len() && ((#[trigger] files@[k]).new_path is Some && files@[k].new_path->0@ == path
                || files@[k].new_path is None && files@[k].old_path is Some && files@[k].old_path->0@ == path),
        forall|a: int, b: int| 0 <= a < b < r@.len() ==> text::before((#[trigger] r@[a])@, (#[trigger] r@[b])@),
{
    let view = text::texts_view(r@);
    if changed_path(files@[i]) is Some {
        assert(changed_path(files@[i]) == Some(changed_path(files@[i])->0));
        assert(view.contains(changed_path(files@[i])->0));
    }
    if view.contains(path) {
        let k = choose|k: int| 0 <= k < files@.len() && changed_path(#[trigger] files@[k]) == Some(path);
        assert(changed_path(files@[k]) == Some(path));
    }
    assert forall|a: int, b: int| 0 <= a < b < r@.len() implies text::before(
        (#[trigger] r@[a])@,
        (#[trigger] r@[b])@,
    ) by {
        assert(view[a] == r@[a]@);
        assert(view[b] == r@[b]@);
    }
}

/// The stash at a place is the one that is listed for it; where none is, it is said to be gone.
pub proof fn law_a_stash_is_found_by_its_place(stashes: &Vec<StashObject>, index: usize, r: Result<String, String>, i: int)
    requires
        call_ensures(find_stash, (stashes, index), r),
    ensures
        0 <= i < stashes@.len() && stashes@[i].index == index && (forall|k: int|
            i < k < stashes@.len() ==> (#[trigger] stashes@[k]).index != index) ==> (r matches Ok(oid) && oid@
            == stashes@[i].oid@),
        (forall|k: int| 0 <= k < stashes@.len() ==> (#[trigger] stashes@[k]).index != index) ==> (r matches Err(e) && e@
            == "That stash entry no longer exists"@),
{
    lemma_stash_at(stashes@, index, i);
}

proof fn lemma_stash_at(stashes: Seq<StashObject>, index: usize, i: int)
    ensures
        0 <= i < stashes.len() && stashes[i].index == index && (forall|k: int|
            i < k < stashes.len() ==> (#[trigger] stashes[k]).index != index) ==> stash_at(stashes, index) == Some(
            stashes[i].oid@,
        ),
        (forall|k: int| 0 <= k < stashes.len() ==> (#[trigger] stashes[k]).index != index) ==> stash_at(stashes, index)
            is None,
    decreases stashes.len(),
{
    if stashes.len() > 0 {
        let front = stashes.drop_last();
        lemma_stash_at(front, index, i);
        assert(stashes[stashes.len() - 1] == stashes.last());
        assert forall|k: int| 0 <= k < front.len() implies #[trigger] front[k] == stashes[k] by {}
    }
}

/// A selection holds every given path once, in order, and nothing else; the first path that was refused refuses it, and
/// an empty one is refused.
pub proof fn law_a_selection_holds_what_was_given(
    given: Vec<Result<String, String>>,
    index: usize,
    r: Result<RestoreRun, String>,
    i: int,
)
    requires
        call_ensures(restore_stash_paths, (given, index), r),
    ensures
        given@.len() == 0 ==> (r matches Err(e) && e@ == "Select at least one file to restore"@),
        0 <= i < given@.len() && given@[i] is Err && (forall|j: int| 0 <= j < i ==> (#[trigger] given@[j]) is Ok) ==> (
        r matches Err(e) && e@ == (given@[i]->Err_0)@),
        given@.len() > 0 && (forall|j: int| 0 <= j < given@.len() ==> (#[trigger] given@[j]) is Ok) ==> r is Ok,
        r matches Ok(run) ==> {
            &&& run.index == index
            &&& run.step is ListFiles
            &&& 0 <= i < given@.len() ==> text::texts_view(run.selected@).contains((given@[i]->Ok_0)@)
            &&& 0 <= i < run.selected@.len() ==> exists|k: int|
                0 <= k < given@.len() && (#[trigger] given@[k]) is Ok && (given@[k]->Ok_0)@ == run.selected@[i]@
            &&& forall|a: int, b: int|
                0 <= a < b < run.selected@.len() ==> text::before(
                    (#[trigger] run.selected@[a])@,
                    (#[trigger] run.selected@[b])@,
                )
        },
{
    let view = checked_view(given@);
    assert(view.len() == given@.len());
    assert forall|j: int| 0 <= j < given@.len() implies #[trigger] view[j] == text::result_view(given@[j]) by {}
    match r {
        Ok(run) => {
            let selected = text::texts_view(run.selected@);
            if 0 <= i < given@.len() {
                assert(view[i] is Ok);
                assert(view[i] == Ok::<Seq<char>, Seq<char>>((given@[i]->Ok_0)@));
                assert(view.contains(Ok::<Seq<char>, Seq<char>>((given@[i]->Ok_0)@)));
                assert(selected.contains((given@[i]->Ok_0)@));
            }
            if 0 <= i < run.selected@.len() {
                let path = run.selected@[i]@;
                assert(selected[i] == path);
                assert(selected.contains(path));
                assert(view.contains(Ok::<Seq<char>, Seq<char>>(path)));
                let k = view.index_of(Ok::<Seq<char>, Seq<char>>(path));
                assert(view[k] == text::result_view(given@[k]));
                assert(given@[k] is Ok);
            }
            assert forall|a: int, b: int| 0 <= a < b < run.selected@.len() implies text::before(
                (#[trigger] run.selected@[a])@,
                (#[trigger] run.selected@[b])@,
            ) by {
                assert(selected[a] == run.selected@[a]@);
                assert(selected[b] == run.selected@[b]@);
            }
            if 0 <= i < given@.len() && given@[i] is Err {
                assert(view[i] is Ok);
            }
        },
        Err(e) => {
            if given@.len() > 0 {
                let k = choose|k: int|
                    0 <= k < view.len() && #[trigger] view[k] == Err::<Seq<char>, Seq<char>>(e@) && forall|j: int|
                        0 <= j < k ==> #[trigger] view[j] is Ok;
                assert(given@[k] is Err);
                if 0 <= i < given@.len() && given@[i] is Err && (forall|j: int| 0 <= j < i ==> (#[trigger] given@[j]) is Ok) {
                    assert(view[i] is Err);
                    if k < i {
                        assert(given@[k] is Ok);
                    }
                    if i < k {
                        assert(view[i] is Ok);
                    }
                }
            }
        },
    }
}

proof fn lemma_those_among_is_filter(list: Seq<Seq<char>>, others: Seq<Seq<char>>, wanted: bool)
    ensures
        those_among(list, others, wanted) == list.filter(|t: Seq<char>| others.contains(t) == wanted),
    decreases list.len(),
{
    reveal(Seq::filter);
    if list.len() > 0 {
        lemma_those_among_is_filter(list.drop_last(), others, wanted);
    } else {
        assert(list =~= Seq::empty());
    }
}

proof fn lemma_filter_of_all(list: Seq<Seq<char>>, others: Seq<Seq<char>>, wanted: bool)
    ensures
        those_among(list, others, wanted).len() == 0 <==> forall|i: int|
            0 <= i < list.len() ==> others.contains(#[trigger] list[i]) != wanted,
    decreases list.len(),
{
    if list.len() > 0 {
        let front = list.drop_last();
        lemma_filter_of_all(front, others, wanted);
        assert(list[list.len() - 1] == list.last());
        if forall|i: int| 0 <= i < list.len() ==> others.contains(#[trigger] list[i]) != wanted {
            assert forall|i: int| 0 <= i < front.len() implies others.contains(#[trigger] front[i]) != wanted by {
                assert(front[i] == list[i]);
            }
        }
        if those_among(list, others, wanted).len() == 0 {
            assert forall|i: int| 0 <= i < list.len() implies others.contains(#[trigger] list[i]) != wanted by {
                if i < front.len() {
                    assert(front[i] == list[i]);
                }
            }
        }
    }
}

/// Selected paths pass exactly when each of them is in the stash, and exactly when none of them has changes that are not
/// committed; a refusal names the paths at fault, in order, with a comma and a space between two.
pub proof fn law_selected_paths_are_checked_one_by_one(
    selected: &Vec<String>,
    others: &Vec<String>,
    present: Result<(), String>,
    clean: Result<(), String>,
)
    requires
        call_ensures(check_in_stash, (selected, others), present),
        call_ensures(check_selected_clean, (selected, others), clean),
    ensures
        ({
            let list = text::texts_view(selected@);
            let among = text::texts_view(others@);
            &&& present is Ok <==> forall|i: int| 0 <= i < list.len() ==> among.contains(#[trigger] list[i])
            &&& present is Err ==> (present->Err_0)@ == "The selected path is not present in this stash: "@
                + pieces::joined(list.filter(|t: Seq<char>| among.contains(t) == false), seq![',', ' '])
            &&& clean is Ok <==> forall|i: int| 0 <= i < list.len() ==> !among.contains(#[trigger] list[i])
            &&& clean is Err ==> (clean->Err_0)@
                == "Cannot restore because the selected path already has uncommitted work: "@ + pieces::joined(
                list.filter(|t: Seq<char>| among.contains(t) == true),
                seq![',', ' '],
            ) + ". Commit, stash, or discard that current work first; it will not be overwritten."@
        }),
{
    let list = text::texts_view(selected@);
    let among = text::texts_view(others@);
    reveal_strlit(", ");
    assert(", "@ =~= seq![',', ' ']);
    lemma_those_among_is_filter(list, among, false);
    lemma_those_among_is_filter(list, among, true);
    lemma_filter_of_all(list, among, false);
    lemma_filter_of_all(list, among, true);
}

/// A file is restored only in a repository that is at rest and known to be without conflicts.
pub proof fn law_files_are_restored_only_at_rest(state: RepositoryState, conflicts: Option<bool>, r: Result<(), String>)
    requires
        call_ensures(check_restore_state, (state, conflicts), r),
    ensures
        r is Ok <==> state == RepositoryState::Clean && conflicts == Some(false),
        r is Err ==> (r->Err_0)@
            == "Cannot restore a stash file while another Git operation or conflict resolution is in progress."@,
{
}

proof fn lemma_saved_as_is_filter(list: Seq<SelectedPath>, untracked: bool)
    ensures
        saved_as(list, untracked) == list.filter(|s: SelectedPath| s.saved_untracked == untracked).map_values(
            |s: SelectedPath| s.path@,
        ),
    decreases list.len(),
{
    reveal(Seq::filter);
    let kept = list.filter(|s: SelectedPath| s.saved_untracked == untracked);
    if list.len() > 0 {
        let front = list.drop_last();
        lemma_saved_as_is_filter(front, untracked);
        let had = front.filter(|s: SelectedPath| s.saved_untracked == untracked);
        if list.last().saved_untracked == untracked {
            assert(kept == had.push(list.last()));
            assert(kept.map_values(|s: SelectedPath| s.path@) =~= had.map_values(|s: SelectedPath| s.path@).push(
                list.last().path@,
            ));
        }
    } else {
        assert(kept.map_values(|s: SelectedPath| s.path@) =~= Seq::<Seq<char>>::empty());
    }
}

/// Tracked files are restored from the stash itself and the others from its snapshot of files that were not tracked, each
/// with one command that names exactly those paths, in order, behind `--`, and touches the work tree alone.
pub proof fn law_files_are_restored_by_name(
    a: &mut RestoreRun,
    b: &mut RestoreRun,
    list: Vec<SelectedPath>,
    snapshot: String,
)
    requires
        old(a).wf(),
        old(a).step is LocatePaths,
        call_ensures(RestoreRun::paths_located, (a, Ok(list)), ()),
        old(b).wf(),
        old(b).step is FindUntracked,
        call_ensures(RestoreRun::untracked_found, (b, Ok(Some(snapshot))), ()),
    ensures
        final(a).step matches RestoreStep::RestoreTracked { args } ==> text::texts_view(args@) == seq![
            "restore"@,
            "--source="@ + old(a).oid@,
            "--worktree"@,
            "--"@,
        ] + list@.filter(|s: SelectedPath| s.saved_untracked == false).map_values(|s: SelectedPath| s.path@),
        (exists|i: int| 0 <= i < list@.len() && (#[trigger] list@[i]).saved_untracked && list@[i].on_disk) ==>
            final(a).step is Done && final(a).step->result is Err,
        (forall|i: int| 0 <= i < list@.len() ==> !((#[trigger] list@[i]).saved_untracked && list@[i].on_disk)) ==> {
            &&& text::texts_view(final(a).untracked@) == list@.filter(
                |s: SelectedPath| s.saved_untracked == true,
            ).map_values(|s: SelectedPath| s.path@)
            &&& (exists|i: int| 0 <= i < list@.len() && !(#[trigger] list@[i]).saved_untracked)
                ==> final(a).step is RestoreTracked
        },
        final(b).step matches RestoreStep::RestoreUntracked { args } && text::texts_view(args@) == seq![
            "restore"@,
            "--source="@ + snapshot@,
            "--worktree"@,
            "--"@,
        ] + text::texts_view(old(b).untracked@),
{
    lemma_saved_as_is_filter(list@, false);
    lemma_saved_as_is_filter(list@, true);
    if exists|i: int| 0 <= i < list@.len() && (#[trigger] list@[i]).saved_untracked && list@[i].on_disk {
        let i = choose|i: int| 0 <= i < list@.len() && (#[trigger] list@[i]).saved_untracked && list@[i].on_disk;
        assert(is_blocked(list@[i]));
    } else {
        assert forall|i: int| 0 <= i < list@.len() implies !is_blocked(#[trigger] list@[i]) by {}
        if exists|i: int| 0 <= i < list@.len() && !(#[trigger] list@[i]).saved_untracked {
            let i = choose|i: int| 0 <= i < list@.len() && !(#[trigger] list@[i]).saved_untracked;
            law_every_selected_path_is_restored_once(list@);
            let list_path = list@[i].path@;
            assert(saved_as(list@, list@[i].saved_untracked).contains(list_path));
            assert(final(a).versioned@.len() == text::texts_view(final(a).versioned@).len());
        }
    }
}

/// Each check of a restore that fails ends it with its reason, and each that passes leads to the next.
pub proof fn law_a_restore_checks_before_it_writes(
    a: &mut RestoreRun,
    b: &mut RestoreRun,
    c: &mut RestoreRun,
    d: &mut RestoreRun,
    files: Vec<String>,
    state: RepositoryState,
    conflicts: Option<bool>,
    changed: Vec<String>,
    stashes: Vec<StashObject>,
    present: Result<(), String>,
    at_rest: Result<(), String>,
    clean: Result<(), String>,
    found: Result<String, String>,
    selected: &Vec<String>,
)
    requires
        old(a).wf(),
        old(a).step is ListFiles,
        *selected == old(a).selected,
        call_ensures(RestoreRun::files_listed, (a, Ok(files)), ()),
        call_ensures(check_in_stash, (selected, &files), present),
        call_ensures(check_restore_state, (state, conflicts), at_rest),
        call_ensures(check_selected_clean, (selected, &changed), clean),
        call_ensures(find_stash, (&stashes, old(a).index), found),
        present is Ok ==> *old(b) == *final(a) && call_ensures(RestoreRun::state_checked, (b, state, conflicts), ()),
        present is Ok && at_rest is Ok ==> *old(c) == *final(b) && call_ensures(
            RestoreRun::changed_listed,
            (c, Ok(changed)),
            (),
        ),
        present is Ok && at_rest is Ok && clean is Ok ==> *old(d) == *final(c) && call_ensures(
            RestoreRun::stashes_listed,
            (d, Ok(stashes)),
            (),
        ),
    ensures
        present matches Err(e) ==> (final(a).step matches RestoreStep::Done { result } && result matches Err(m) && m@
            == e@),
        present is Ok && at_rest is Err ==> (final(b).step matches RestoreStep::Done { result } && result matches Err(m)
            && m@ == (at_rest->Err_0)@),
        present is Ok && at_rest is Ok && clean is Err ==> (final(c).step matches RestoreStep::Done { result }
            && result matches Err(m) && m@ == (clean->Err_0)@),
        present is Ok && at_rest is Ok && clean is Ok && found is Err ==> (final(d).step matches RestoreStep::Done {
            result,
        } && result matches Err(m) && m@ == (found->Err_0)@),
        present is Ok && at_rest is Ok && clean is Ok && found is Ok ==> final(d).step is LocatePaths && final(d).oid@
            == (found->Ok_0)@ && final(d).selected == old(a).selected,
{
}

/// A repository is called by the last name of its path, and only a path that does not end in a name by the word for it.
pub proof fn law_a_repository_is_called_by_its_last_name(parts: &Vec<PathPart>, r: String)
    requires
        call_ensures(name_of_scope, (parts,), r),
    ensures
        parts@.len() > 0 && (parts@[parts@.len() - 1] matches PathPart::Normal(name)) ==> r@
            == parts@[parts@.len() - 1]->Normal_0@,
        parts@.len() == 0 || !(parts@[parts@.len() - 1] is Normal) ==> r@ == "repository"@,
{
    if parts@.len() > 0 {
        assert(paths::parts_view(parts@).last() == paths::part_view(parts@[parts@.len() - 1]));
    }
}

/// The first selected file that was not tracked and has something in its way stops the restore, and is named.
pub proof fn law_a_file_in_the_way_is_named(run: &mut RestoreRun, list: Vec<SelectedPath>, i: int)
    requires
        old(run).wf(),
        old(run).step is LocatePaths,
        call_ensures(RestoreRun::paths_located, (run, Ok(list)), ()),
        0 <= i < list@.len(),
        list@[i].saved_untracked && list@[i].on_disk,
        forall|j: int| 0 <= j < i ==> !((#[trigger] list@[j]).saved_untracked && list@[j].on_disk),
    ensures
        final(run).step matches RestoreStep::Done { result } && result matches Err(e) && e@ == "Cannot restore '"@
            + list@[i].path@ + "' because a file already exists there. The stash was kept unchanged."@,
{
    assert(is_blocked(list@[i]));
    let k = choose|k: int|
        0 <= k < list@.len() && is_blocked(#[trigger] list@[k]) && final(run).failed(in_the_way(list@[k].path@)) && forall|
            j: int,
        |
            0 <= j < k ==> !is_blocked(#[trigger] list@[j]);
    if k < i {
        assert(!is_blocked(list@[k]));
    }
    if i < k {
        assert(!is_blocked(list@[i]));
    }
}

/// Once the tracked files are restored, those that were not tracked follow where there are any, and otherwise the restore
/// has succeeded; what Git said of a failure is told with which files it concerns.
pub proof fn law_a_restore_ends_as_git_does(
    a: &mut RestoreRun,
    b: &mut RestoreRun,
    versioned: Result<(), String>,
    untracked: Result<(), String>,
)
    requires
        old(a).wf(),
        old(a).step is RestoreTracked,
        call_ensures(RestoreRun::tracked_restored, (a, versioned), ()),
        old(b).wf(),
        old(b).step is RestoreUntracked,
        call_ensures(RestoreRun::untracked_restored, (b, untracked), ()),
    ensures
        versioned is Ok && old(a).untracked@.len() > 0 ==> final(a).step is FindUntracked,
        versioned is Ok && old(a).untracked@.len() == 0 ==> (final(a).step matches RestoreStep::Done { result }
            && result is Ok),
        versioned matches Err(error) ==> (final(a).step matches RestoreStep::Done { result } && result matches Err(e) && e@
            == "Cannot restore the selected tracked file(s): "@ + error@),
        untracked is Ok ==> (final(b).step matches RestoreStep::Done { result } && result is Ok),
        untracked matches Err(error) ==> (final(b).step matches RestoreStep::Done { result } && result matches Err(e) && e@
            == "Cannot restore the selected untracked file(s): "@ + error@),
{
}

} // verus!
