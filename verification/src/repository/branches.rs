//! Branches and checkpoints.
pub mod merge;

use crate::text;
use vstd::prelude::*;
use vstd::string::*;
use vstd::utf8::*;

verus! {

/// Where a new branch would start, and how that place relates to the main remote branch.
pub struct BranchCreationContext {
    pub current_branch: String,
    pub current_commit: String,
    pub main_remote_branch: Option<String>,
    pub ahead: usize,
    pub behind: usize,
}

/// How a branch relates to the primary branch.
pub struct BranchDivergence {
    pub name: String,
    pub tip: String,
    /// Commits of the branch that the primary branch lacks.
    pub ahead: usize,
    /// Commits of the primary branch that the branch lacks.
    pub behind: usize,
    /// The common ancestor; histories that are not connected have none.
    pub merge_base: Option<String>,
}

/// Where the current commit left the main remote branch.
pub struct GraphBranchStart {
    pub base_ref: String,
    pub oid: String,
}

// How branches relate.

/// A branch as it was found.
pub struct FoundBranch {
    /// The name, if it is text.
    pub name: Option<String>,
    /// The commit that the branch points at, if it points at one.
    pub tip: Option<String>,
    /// How many commits the branch is ahead and behind, if that could be counted.
    pub ahead_behind: Option<(usize, usize)>,
    pub merge_base: Option<String>,
}

/// Whether a reported branch is the one that was found. What could not be counted is zero.
pub open spec fn reports_branch(reported: BranchDivergence, found: FoundBranch) -> bool {
    &&& text::opt_view(found.name) == Some(reported.name@)
    &&& text::opt_view(found.tip) == Some(reported.tip@)
    &&& match found.ahead_behind {
        Some((ahead, behind)) => reported.ahead == ahead && reported.behind == behind,
        None => reported.ahead == 0 && reported.behind == 0,
    }
    &&& text::opt_view(reported.merge_base) == text::opt_view(found.merge_base)
}

/// The places of the branches that have a name and a tip, in order.
pub open spec fn complete_branches(found: Seq<FoundBranch>) -> Seq<int>
    decreases found.len(),
{
    if found.len() == 0 {
        Seq::empty()
    } else if found.last().name is Some && found.last().tip is Some {
        complete_branches(found.drop_last()).push(found.len() - 1)
    } else {
        complete_branches(found.drop_last())
    }
}

/// Reports how each branch relates to the primary branch. Without a primary branch there is nothing to
/// report, and a branch without a name or without a tip is left out.
pub fn graph_branch_divergence(primary_found: bool, found: &Vec<FoundBranch>) -> (r: Vec<BranchDivergence>)
    ensures
        !primary_found ==> r@.len() == 0,
        primary_found ==> {
            let places = complete_branches(found@);
            &&& r@.len() == places.len()
            &&& forall|i: int| 0 <= i < r@.len() ==> reports_branch(#[trigger] r@[i], found@[places[i]])
        },
{
    let mut r: Vec<BranchDivergence> = Vec::new();
    if !primary_found {
        return r;
    }
    for n in 0..found.len()
        invariant
            r@.len() == complete_branches(found@.take(n as int)).len(),
            forall|i: int|
                0 <= i < r@.len() ==> reports_branch(
                    #[trigger] r@[i],
                    found@[complete_branches(found@.take(n as int))[i]],
                ),
    {
        assert(found@.take(n + 1).drop_last() =~= found@.take(n as int));
        let branch: &FoundBranch = &found[n];
        if let (Some(name), Some(tip)) = (&branch.name, &branch.tip) {
            let (ahead, behind): (usize, usize) = match branch.ahead_behind {
                Some(counts) => counts,
                None => (0, 0),
            };
            let merge_base: Option<String> = match &branch.merge_base {
                Some(oid) => Some(oid.clone()),
                None => None,
            };
            r.push(BranchDivergence { name: name.clone(), tip: tip.clone(), ahead, behind, merge_base });
        }
    }
    assert(found@.take(found@.len() as int) =~= found@);
    r
}

/// The main remote branch: `origin/main`, or else `origin/master`, or else the default of the repository.
pub open spec fn main_remote(has_main: bool, has_master: bool, default: Option<Seq<char>>) -> Option<Seq<char>> {
    if has_main {
        Some("origin/main"@)
    } else if has_master {
        Some("origin/master"@)
    } else {
        default
    }
}

/// The main remote branch: `origin/main`, or else `origin/master`, or else the default of the repository.
pub fn main_remote_branch(has_main: bool, has_master: bool, default: Option<String>) -> (r: Option<String>)
    ensures
        text::opt_view(r) == main_remote(has_main, has_master, text::opt_view(default)),
{
    if has_main {
        Some("origin/main".to_owned())
    } else if has_master {
        Some("origin/master".to_owned())
    } else {
        default
    }
}

/// Where the current commit left the main remote branch: nowhere without such a branch, without a commit
/// that it points at, and without a common ancestor.
pub fn graph_head_main_merge_base(
    base_ref: Option<String>,
    base_has_tip: bool,
    merge_base: Option<String>,
) -> (r: Option<GraphBranchStart>)
    ensures
        match r {
            Some(start) => base_has_tip && text::opt_view(base_ref) == Some(start.base_ref@)
                && text::opt_view(merge_base) == Some(start.oid@),
            None => base_ref is None || !base_has_tip || merge_base is None,
        },
{
    match (base_ref, merge_base) {
        (Some(base_ref), Some(oid)) => if base_has_tip {
            Some(GraphBranchStart { base_ref, oid })
        } else {
            None
        },
        _ => None,
    }
}

/// The first eight characters of an object's name.
pub open spec fn abbreviated(id: Seq<char>) -> Seq<char> {
    if id.len() < 8 {
        id
    } else {
        id.take(8)
    }
}

/// The first eight characters of an object's name.
pub fn abbreviate(id: &str) -> (r: String)
    ensures
        r@ == abbreviated(id@),
{
    let chars: Vec<char> = text::chars_of(id);
    let n: usize = if chars.len() < 8 {
        chars.len()
    } else {
        8
    };
    text::string_of(chars.as_slice(), 0, n)
}

/// Describes where a new branch would start. A head without a short name is called `HEAD`, and what could
/// not be counted is zero.
pub fn branch_creation_context(
    current_branch: Option<String>,
    current_commit: &str,
    main_remote_branch: Option<String>,
    ahead_behind: Option<(usize, usize)>,
) -> (r: BranchCreationContext)
    ensures
        r.current_branch@ == match current_branch {
            Some(name) => name@,
            None => "HEAD"@,
        },
        r.current_commit@ == abbreviated(current_commit@),
        r.main_remote_branch == main_remote_branch,
        (r.ahead, r.behind) == match ahead_behind {
            Some(counts) => counts,
            None => (0usize, 0usize),
        },
{
    let current_branch: String = match current_branch {
        Some(name) => name,
        None => "HEAD".to_owned(),
    };
    let (ahead, behind): (usize, usize) = match ahead_behind {
        Some(counts) => counts,
        None => (0, 0),
    };
    BranchCreationContext {
        current_branch,
        current_commit: abbreviate(current_commit),
        main_remote_branch,
        ahead,
        behind,
    }
}

// Names of branches.

/// The name of a branch without the white space around it; a blank one is refused.
pub open spec fn branch_name_answer(branch: Seq<char>) -> Result<Seq<char>, Seq<char>> {
    if text::trimmed(branch).len() == 0 {
        Err("Branch name cannot be empty"@)
    } else {
        Ok(text::trimmed(branch))
    }
}

/// The name of a branch without the white space around it; a blank one is refused.
pub fn check_branch_name(branch: &str) -> (r: Result<String, String>)
    ensures
        text::result_view(r) == branch_name_answer(branch@),
{
    let name: String = text::trim(branch);
    if name.as_str().is_empty() {
        Err("Branch name cannot be empty".to_owned())
    } else {
        Ok(name)
    }
}

/// The full name of a local branch.
pub open spec fn local_reference(branch: Seq<char>) -> Seq<char> {
    "refs/heads/"@ + branch
}

/// The full name of a local branch.
pub fn branch_reference(branch: &str) -> (r: String)
    ensures
        r@ == local_reference(branch@),
{
    let mut r: String = "refs/heads/".to_owned();
    r.append(branch);
    r
}

/// The branch that is deleted: not the one that is checked out.
pub fn delete_branch(branch_name: &str, current: Option<String>) -> (r: Result<String, String>)
    ensures
        text::result_view(r) == if text::opt_view(current) == Some(text::trimmed(branch_name@)) {
            Err::<Seq<char>, Seq<char>>(
                "Cannot delete the currently checked out branch. Switch to another branch first"@,
            )
        } else {
            Ok(text::trimmed(branch_name@))
        },
{
    let name: String = text::trim(branch_name);
    if let Some(checked_out) = current {
        if text::same_text(checked_out.as_str(), name.as_str()) {
            return Err(
                "Cannot delete the currently checked out branch. Switch to another branch first".to_owned(),
            );
        }
    }
    Ok(name)
}

/// The old and the new name of a branch that is renamed; a blank new name is refused.
pub fn rename_branch(old_name: &str, new_name: &str) -> (r: Result<(String, String), String>)
    ensures
        match branch_name_answer(new_name@) {
            Err(message) => r matches Err(e) && e@ == message,
            Ok(name) => r matches Ok(names) && names.0@ == text::trimmed(old_name@) && names.1@ == name,
        },
{
    match check_branch_name(new_name) {
        Err(message) => Err(message),
        Ok(name) => Ok((text::trim(old_name), name)),
    }
}

// Names of commits.

/// Whether a byte is a hexadecimal digit.
pub open spec fn is_hex_byte(b: u8) -> bool {
    0x30 <= b <= 0x39 || 0x61 <= b <= 0x66 || 0x41 <= b <= 0x46
}

/// A hexadecimal digit in lower case.
pub open spec fn lower_hex(b: u8) -> char {
    if 0x41 <= b <= 0x46 {
        (b + 32) as char
    } else {
        b as char
    }
}

/// What an object's name in hexadecimal digits stands for: forty lower-case digits, filled up with zeros.
pub open spec fn oid_answer(id: Seq<char>) -> Result<Seq<char>, Seq<char>> {
    let bytes = encode_utf8(id);
    if bytes.len() == 0 {
        Err("unable to parse OID - too short"@)
    } else if bytes.len() > 40 {
        Err("unable to parse OID - too long"@)
    } else if exists|i: int| 0 <= i < bytes.len() && !is_hex_byte(#[trigger] bytes[i]) {
        Err("unable to parse OID - contains invalid characters"@)
    } else {
        Ok(
            Seq::new(
                40,
                |i: int|
                    if i < bytes.len() {
                        lower_hex(bytes[i])
                    } else {
                        '0'
                    },
            ),
        )
    }
}

/// Calls `git2::Oid::from_str` and writes the result out with its `Display`. Claimed of it: an empty text,
/// one of more than forty bytes and one with anything but hexadecimal digits are refused with libgit2's
/// messages, in this order; any other is filled up with zeros to forty digits and written in lower case.
#[verifier::external_body]
fn parse_oid(id: &str) -> (r: Result<String, String>)
    ensures
        text::result_view(r) == oid_answer(id@),
{
    git2::Oid::from_str(id).map(|oid| oid.to_string()).map_err(|error| error.message().to_string())
}

/// How a commit is looked up.
pub enum CommitLookup {
    /// The text names an object.
    Resolved,
    /// The object with this name is looked up.
    FindObject { oid: String },
    Failed { message: String },
}

/// The message for a commit that cannot be resolved.
pub open spec fn cannot_resolve(commit_id: Seq<char>, error: Seq<char>) -> Seq<char> {
    "Cannot resolve commit \""@ + commit_id + "\": "@ + error
}

/// The message for a commit that cannot be resolved.
pub fn cannot_resolve_message(commit_id: &str, error: &str) -> (r: String)
    ensures
        r@ == cannot_resolve(commit_id@, error@),
{
    let mut r: String = text::framed("Cannot resolve commit \"", commit_id, "\": ");
    r.append(error);
    r
}

/// Goes on after a text was to be resolved as a revision: where that failed it is taken for the name of
/// an object.
pub fn revision_resolved(commit_id: &str, found: bool) -> (r: CommitLookup)
    ensures
        match r {
            CommitLookup::Resolved => found,
            CommitLookup::FindObject { oid } => !found && oid_answer(text::trimmed(commit_id@)) == Ok::<
                Seq<char>,
                Seq<char>,
            >(oid@),
            CommitLookup::Failed { message } => !found && oid_answer(text::trimmed(commit_id@)) is Err
                && message@ == cannot_resolve(commit_id@, oid_answer(text::trimmed(commit_id@))->Err_0),
        },
{
    if found {
        return CommitLookup::Resolved;
    }
    let id: String = text::trim(commit_id);
    match parse_oid(id.as_str()) {
        Ok(oid) => CommitLookup::FindObject { oid },
        Err(error) => CommitLookup::Failed { message: cannot_resolve_message(commit_id, error.as_str()) },
    }
}

/// The message for an object that is not a commit.
pub fn not_a_commit_message(commit_id: &str) -> (r: String)
    ensures
        r@ == "\""@ + commit_id@ + "\" is not a commit"@,
{
    text::framed("\"", commit_id, "\" is not a commit")
}

/// Forty lower-case hexadecimal digits are an object's name as they stand.
pub proof fn law_full_names_stand_for_themselves(id: Seq<char>)
    requires
        id.len() == 40,
        forall|i: int| 0 <= i < id.len() ==> ('0' <= #[trigger] id[i] <= '9' || 'a' <= id[i] <= 'f'),
    ensures
        oid_answer(id) == Ok::<Seq<char>, Seq<char>>(id),
{
    let bytes = encode_utf8(id);
    assert(is_ascii_chars(id));
    is_ascii_chars_encode_utf8(id);
    assert forall|i: int| 0 <= i < bytes.len() implies is_hex_byte(#[trigger] bytes[i]) by {
        assert('0' <= id[i] <= '9' || 'a' <= id[i] <= 'f');
    }
    assert(oid_answer(id)->Ok_0 =~= id);
}

// Moving the head.

/// Where the head is moved to.
pub enum HeadGoal {
    /// A branch that is created at a commit.
    NewBranch { branch: String },
    /// A commit, without a branch.
    Detached,
    /// A branch that is there.
    Branch { branch: String },
}

/// What moving the head does next.
pub enum HeadStep {
    /// Create the branch.
    CreateBranch,
    /// Put the files of the commit into the work tree, unless that would lose work.
    Checkout,
    /// Let the head name the branch, or the commit where there is none.
    MoveHead,
    /// Nothing more.
    Done { result: Result<(), String> },
}

/// Moving the head.
pub struct HeadMove {
    pub goal: HeadGoal,
    pub step: HeadStep,
    /// Whether the files of the commit are in the work tree.
    pub checked_out: bool,
    /// Whether the head was moved.
    pub moved: bool,
}

/// The message for a checkout that was refused.
pub open spec fn checkout_refused(goal: HeadGoal, error: Seq<char>) -> Seq<char> {
    match goal {
        HeadGoal::NewBranch { .. } => "Branch created, but checkout refused: "@ + error,
        HeadGoal::Detached => "Cannot checkout commit: "@ + error,
        HeadGoal::Branch { branch } => "Cannot switch to '"@ + branch@ + "': "@ + error,
    }
}

impl HeadMove {
    /// The head is moved only after the checkout succeeded, and stays where it was if anything fails.
    pub open spec fn wf(&self) -> bool {
        match self.step {
            HeadStep::CreateBranch => self.goal is NewBranch && !self.checked_out && !self.moved,
            HeadStep::Checkout => !self.checked_out && !self.moved,
            HeadStep::MoveHead => self.checked_out && !self.moved,
            HeadStep::Done { result } => {
                &&& self.moved <==> result is Ok
                &&& self.moved ==> self.checked_out
            },
        }
    }

    /// Whether it has ended with this message.
    pub open spec fn failed(&self, message: Seq<char>) -> bool {
        self.step matches HeadStep::Done { result } && text::unit_view(result) == Err::<(), Seq<char>>(message)
    }

    /// Goes on after the branch was to be created.
    pub fn branch_created(&mut self, created: Result<(), String>)
        requires
            old(self).wf(),
            old(self).step is CreateBranch,
        ensures
            final(self).wf(),
            final(self).goal == old(self).goal,
            match created {
                Err(error) => final(self).failed(error@),
                Ok(_) => final(self).step is Checkout,
            },
    {
        match created {
            Err(error) => {
                self.step = HeadStep::Done { result: Err(error) };
            },
            Ok(_) => {
                self.step = HeadStep::Checkout;
            },
        }
    }

    /// Goes on after the files were to be put into the work tree.
    pub fn checkout_done(&mut self, outcome: Result<(), String>)
        requires
            old(self).wf(),
            old(self).step is Checkout,
        ensures
            final(self).wf(),
            final(self).goal == old(self).goal,
            match outcome {
                Err(error) => final(self).failed(checkout_refused(old(self).goal, error@)),
                Ok(_) => final(self).step is MoveHead,
            },
    {
        match outcome {
            Err(error) => {
                let mut message: String = match &self.goal {
                    HeadGoal::NewBranch { .. } => "Branch created, but checkout refused: ".to_owned(),
                    HeadGoal::Detached => "Cannot checkout commit: ".to_owned(),
                    HeadGoal::Branch { branch } => text::framed("Cannot switch to '", branch.as_str(), "': "),
                };
                message.append(error.as_str());
                self.step = HeadStep::Done { result: Err(message) };
            },
            Ok(_) => {
                self.checked_out = true;
                self.step = HeadStep::MoveHead;
            },
        }
    }

    /// What the head is to name: the full name of the branch, or nothing where it is to name the commit.
    pub fn head_reference(&self) -> (r: Option<String>)
        ensures
            text::opt_view(r) == match self.goal {
                HeadGoal::NewBranch { branch } => Some(local_reference(branch@)),
                HeadGoal::Branch { branch } => Some(local_reference(branch@)),
                HeadGoal::Detached => None,
            },
    {
        match &self.goal {
            HeadGoal::NewBranch { branch } => Some(branch_reference(branch.as_str())),
            HeadGoal::Branch { branch } => Some(branch_reference(branch.as_str())),
            HeadGoal::Detached => None,
        }
    }

    /// Goes on after the head was to be moved.
    pub fn head_moved(&mut self, outcome: Result<(), String>)
        requires
            old(self).wf(),
            old(self).step is MoveHead,
        ensures
            final(self).wf(),
            final(self).goal == old(self).goal,
            match outcome {
                Err(error) => final(self).failed(error@),
                Ok(_) => final(self).step matches HeadStep::Done { result } && result is Ok,
            },
    {
        match outcome {
            Err(error) => {
                self.step = HeadStep::Done { result: Err(error) };
            },
            Ok(_) => {
                self.moved = true;
                self.step = HeadStep::Done { result: Ok(()) };
            },
        }
    }
}

/// Begins to create a branch at a commit.
pub fn create_branch_at_commit(branch: &str) -> (r: Result<HeadMove, String>)
    ensures
        match branch_name_answer(branch@) {
            Err(message) => r matches Err(e) && e@ == message,
            Ok(name) => r matches Ok(head) && head.wf() && head.step is CreateBranch && (head.goal matches
                HeadGoal::NewBranch { branch: b } && b@ == name),
        },
{
    match check_branch_name(branch) {
        Err(message) => Err(message),
        Ok(branch) => Ok(
            HeadMove {
                goal: HeadGoal::NewBranch { branch },
                step: HeadStep::CreateBranch,
                checked_out: false,
                moved: false,
            },
        ),
    }
}

/// Begins to check a commit out.
pub fn checkout_commit() -> (r: HeadMove)
    ensures
        r.wf(),
        r.goal is Detached,
        r.step is Checkout,
{
    HeadMove { goal: HeadGoal::Detached, step: HeadStep::Checkout, checked_out: false, moved: false }
}

/// Begins to switch to a branch.
pub fn switch_branch(branch: &str) -> (r: Result<HeadMove, String>)
    ensures
        match branch_name_answer(branch@) {
            Err(message) => r matches Err(e) && e@ == message,
            Ok(name) => r matches Ok(head) && head.wf() && head.step is Checkout && (head.goal matches
                HeadGoal::Branch { branch: b } && b@ == name),
        },
{
    match check_branch_name(branch) {
        Err(message) => Err(message),
        Ok(branch) => Ok(
            HeadMove {
                goal: HeadGoal::Branch { branch },
                step: HeadStep::Checkout,
                checked_out: false,
                moved: false,
            },
        ),
    }
}

/// A refused checkout leaves the head where it was.
pub proof fn law_head_moves_only_after_checkout(head: HeadMove)
    requires
        head.wf(),
    ensures
        head.moved ==> head.checked_out,
        head.moved ==> head.step is Done && head.step->result is Ok,
        head.step is MoveHead ==> head.checked_out,
{
}

/// The message for a submodule branch that was created while its parent could not be brought up to date.
pub fn parent_not_updated_message(error: &str) -> (r: String)
    ensures
        r@ == "Branch created, but the parent index could not be updated: "@ + error@,
{
    let mut r: String = "Branch created, but the parent index could not be updated: ".to_owned();
    r.append(error);
    r
}

// Restoring a checkpoint.

/// One Git command of a restore.
pub struct RestoreStep {
    pub label: String,
    pub args: Vec<String>,
    /// What a failure is reported with; a failure of a step without it is passed over.
    pub failure: Option<String>,
}

/// One Git command of a restore by its characters.
pub struct RestoreCommand {
    pub label: Seq<char>,
    pub args: Seq<Seq<char>>,
    pub failure: Option<Seq<char>>,
}

impl View for RestoreStep {
    type V = RestoreCommand;

    open spec fn view(&self) -> RestoreCommand {
        RestoreCommand {
            label: self.label@,
            args: text::texts_view(self.args@),
            failure: text::opt_view(self.failure),
        }
    }
}

/// Commands by their characters.
pub open spec fn steps_view(steps: Seq<RestoreStep>) -> Seq<RestoreCommand> {
    steps.map_values(|step: RestoreStep| step@)
}

/// The commands that make a work tree exactly that of a commit. What is not tracked is removed, but ignored
/// files stay. Submodules that are registered are taken out first: a checkout alone would leave behind those
/// that the commit does not know.
pub open spec fn restore_plan(oid: Seq<char>) -> Seq<RestoreCommand> {
    seq![
        RestoreCommand {
            label: "deinit current submodules"@,
            args: seq!["submodule"@, "deinit"@, "--all"@, "--force"@],
            failure: None,
        },
        RestoreCommand {
            label: "pre-clean parent leftovers"@,
            args: seq!["clean"@, "-fd"@],
            failure: Some("Could not prepare workspace for checkpoint "@ + oid + ": "@),
        },
        RestoreCommand {
            label: "checkout detached checkpoint"@,
            args: seq!["checkout"@, "--detach"@, "--force"@, oid],
            failure: Some("Could not restore checkpoint "@ + oid + ": "@),
        },
        RestoreCommand {
            label: "sync submodule urls"@,
            args: seq!["submodule"@, "sync"@, "--recursive"@],
            failure: None,
        },
        RestoreCommand {
            label: "post-checkout clean parent leftovers"@,
            args: seq!["clean"@, "-fd"@],
            failure: Some("Checkpoint restored, but parent clean failed: "@),
        },
        RestoreCommand {
            label: "init/update submodules"@,
            args: seq!["submodule"@, "update"@, "--init"@, "--recursive"@, "--force"@],
            failure: Some("Checkpoint restored, but submodule update failed: "@),
        },
        RestoreCommand {
            label: "reset submodules hard"@,
            args: seq!["submodule"@, "foreach"@, "--recursive"@, "git reset --hard"@],
            failure: None,
        },
        RestoreCommand {
            label: "clean submodule leftovers"@,
            args: seq!["submodule"@, "foreach"@, "--recursive"@, "git clean -fd"@],
            failure: Some("Checkpoint restored, but submodule clean failed: "@),
        },
    ]
}

fn step_of(label: &str, args: &[&str], failure: Option<String>) -> (r: RestoreStep)
    ensures
        r@ == (RestoreCommand {
            label: label@,
            args: args@.map_values(|s: &str| s@),
            failure: text::opt_view(failure),
        }),
{
    RestoreStep { label: label.to_owned(), args: text::texts_of(args), failure }
}

/// The commit that a restore is asked for; a blank one is refused.
pub fn check_checkpoint(commit_id: &str) -> (r: Result<String, String>)
    ensures
        text::result_view(r) == if text::trimmed(commit_id@).len() == 0 {
            Err::<Seq<char>, Seq<char>>("Select a commit/checkpoint to restore"@)
        } else {
            Ok(text::trimmed(commit_id@))
        },
{
    let trimmed: String = text::trim(commit_id);
    if trimmed.as_str().is_empty() {
        Err("Select a commit/checkpoint to restore".to_owned())
    } else {
        Ok(trimmed)
    }
}

/// Goes on after a command whose failure counts.
pub fn restore_checkpoint_step(failure: &str, outcome: Result<(), String>) -> (r: Result<(), String>)
    ensures
        text::unit_view(r) == match outcome {
            Ok(_) => Ok::<(), Seq<char>>(()),
            Err(detail) => Err(failure@ + detail@),
        },
{
    match outcome {
        Ok(_) => Ok(()),
        Err(detail) => {
            let mut message: String = failure.to_owned();
            message.append(detail.as_str());
            Err(message)
        },
    }
}

/// Goes on after a command whose failure does not count. What Git answered is handed on as it is, without
/// a message put before it; the restore passes over it.
pub fn restore_checkpoint_optional_step(outcome: Result<(), String>) -> (r: Result<(), String>)
    ensures
        text::unit_view(r) == match outcome {
            Ok(_) => Ok::<(), Seq<char>>(()),
            Err(detail) => Err(detail@),
        },
{
    outcome
}

/// A restore that is under way.
pub struct CheckpointRestore {
    pub steps: Vec<RestoreStep>,
    /// How many of the commands have run.
    pub done: usize,
    /// What stopped the restore.
    pub failure: Option<String>,
}

/// Begins to make the work tree exactly that of the commit with this name.
pub fn restore_exact_checkpoint_inner(oid: &str) -> (r: CheckpointRestore)
    ensures
        r.wf(),
        steps_view(r.steps@) == restore_plan(oid@),
        r.done == 0,
        r.failure is None,
{
    let mut steps: Vec<RestoreStep> = Vec::new();
    steps.push(step_of("deinit current submodules", &["submodule", "deinit", "--all", "--force"], None));
    steps.push(
        step_of(
            "pre-clean parent leftovers",
            &["clean", "-fd"],
            Some(text::framed("Could not prepare workspace for checkpoint ", oid, ": ")),
        ),
    );
    steps.push(
        step_of(
            "checkout detached checkpoint",
            &["checkout", "--detach", "--force", oid],
            Some(text::framed("Could not restore checkpoint ", oid, ": ")),
        ),
    );
    steps.push(step_of("sync submodule urls", &["submodule", "sync", "--recursive"], None));
    steps.push(
        step_of(
            "post-checkout clean parent leftovers",
            &["clean", "-fd"],
            Some("Checkpoint restored, but parent clean failed: ".to_owned()),
        ),
    );
    steps.push(
        step_of(
            "init/update submodules",
            &["submodule", "update", "--init", "--recursive", "--force"],
            Some("Checkpoint restored, but submodule update failed: ".to_owned()),
        ),
    );
    steps.push(
        step_of("reset submodules hard", &["submodule", "foreach", "--recursive", "git reset --hard"], None),
    );
    steps.push(
        step_of(
            "clean submodule leftovers",
            &["submodule", "foreach", "--recursive", "git clean -fd"],
            Some("Checkpoint restored, but submodule clean failed: ".to_owned()),
        ),
    );
    proof {
        let plan = restore_plan(oid@);
        let view = steps_view(steps@);
        assert(view.len() == plan.len());
        assert(view[0].args =~= plan[0].args);
        assert(view[1].args =~= plan[1].args);
        assert(view[2].args =~= plan[2].args);
        assert(view[3].args =~= plan[3].args);
        assert(view[4].args =~= plan[4].args);
        assert(view[5].args =~= plan[5].args);
        assert(view[6].args =~= plan[6].args);
        assert(view[7].args =~= plan[7].args);
        assert(view =~= plan);
    }
    CheckpointRestore { steps, done: 0, failure: None }
}

impl CheckpointRestore {
    /// No more commands have run than there are.
    pub open spec fn wf(&self) -> bool {
        self.done <= self.steps@.len()
    }

    /// Whether there is nothing more to run: every command has run, or one has stopped the restore.
    pub open spec fn is_over(&self) -> bool {
        self.failure is Some || self.done == self.steps@.len()
    }

    /// The command that runs next.
    pub fn next_step(&self) -> (r: Option<&RestoreStep>)
        requires
            self.wf(),
        ensures
            match r {
                Some(step) => !self.is_over() && *step == self.steps@[self.done as int],
                None => self.is_over(),
            },
    {
        if self.failure.is_some() || self.done >= self.steps.len() {
            None
        } else {
            Some(&self.steps[self.done])
        }
    }

    /// Goes on after a command has run. A failure stops the restore, unless it is passed over.
    pub fn step_done(&mut self, outcome: Result<(), String>)
        requires
            old(self).wf(),
            !old(self).is_over(),
        ensures
            final(self).wf(),
            final(self).steps == old(self).steps,
            final(self).done == old(self).done + 1,
            text::opt_view(final(self).failure) == match (old(self).steps@[old(self).done as int].failure, outcome) {
                (Some(prefix), Err(detail)) => Some(prefix@ + detail@),
                _ => None,
            },
    {
        let count: usize = self.steps.len();
        let failure: Option<String> = match &self.steps[self.done].failure {
            Some(failure) => match restore_checkpoint_step(failure.as_str(), outcome) {
                Ok(_) => None,
                Err(message) => Some(message),
            },
            None => {
                let _ = restore_checkpoint_optional_step(outcome);
                None
            },
        };
        assert(self.done < count);
        self.done = self.done + 1;
        self.failure = failure;
    }

    /// What the restore has come to.
    pub fn finish(self) -> (r: Result<(), String>)
        requires
            self.wf(),
            self.is_over(),
        ensures
            text::unit_view(r) == match self.failure {
                Some(message) => Err::<(), Seq<char>>(message@),
                None => Ok(()),
            },
            r is Ok ==> self.done == self.steps@.len(),
    {
        match self.failure {
            Some(message) => Err(message),
            None => Ok(()),
        }
    }
}

/// A restore never removes ignored files: what it cleans with is `-fd`, without `-x`.
pub proof fn law_restore_keeps_ignored_files(oid: Seq<char>, i: int)
    requires
        0 <= i < restore_plan(oid).len(),
    ensures
        restore_plan(oid)[i].args[0] == "clean"@ ==> restore_plan(oid)[i].args == seq!["clean"@, "-fd"@],
{
    reveal_strlit("clean");
    reveal_strlit("submodule");
    reveal_strlit("checkout");
    assert("clean"@.len() == 5 && "submodule"@.len() == 9 && "checkout"@.len() == 8);
}

// What becomes of a typed name.

/// A branch is called exactly what was typed between the white space around it, wherever a name is taken: it is
/// checked, created, switched to, renamed to and deleted under that name, and the head then names it in full.
pub proof fn law_typed_names_are_taken_as_they_are(
    typed: &str,
    lead: Seq<char>,
    name: Seq<char>,
    tail: Seq<char>,
    other: &str,
    current: Option<String>,
    checked: Result<String, String>,
    created: Result<HeadMove, String>,
    switched: Result<HeadMove, String>,
    renamed: Result<(String, String), String>,
    renamed_from: Result<(String, String), String>,
    deleted: Result<String, String>,
    reference: Option<String>,
)
    requires
        typed@ == lead + name + tail,
        text::is_blank(lead),
        text::is_tight(name),
        text::is_blank(tail),
    ensures
        call_ensures(check_branch_name, (typed,), checked) ==> (checked matches Ok(b) && b@ == name),
        call_ensures(create_branch_at_commit, (typed,), created) ==> (created matches Ok(head) && head.step is CreateBranch
            && (head.goal matches HeadGoal::NewBranch { branch } && branch@ == name) && (call_ensures(
            HeadMove::head_reference,
            (&head,),
            reference,
        ) ==> (reference matches Some(full) && full@ == "refs/heads/"@ + name))),
        call_ensures(switch_branch, (typed,), switched) ==> (switched matches Ok(head) && head.step is Checkout && (
        head.goal matches HeadGoal::Branch { branch } && branch@ == name) && (call_ensures(
            HeadMove::head_reference,
            (&head,),
            reference,
        ) ==> (reference matches Some(full) && full@ == "refs/heads/"@ + name))),
        call_ensures(rename_branch, (other, typed), renamed) ==> (renamed matches Ok(names) && names.1@ == name),
        call_ensures(rename_branch, (typed, other), renamed_from) && renamed_from is Ok ==> (renamed_from->Ok_0).0@ == name,
        call_ensures(delete_branch, (typed, current), deleted) ==> (deleted is Ok <==> !(current matches Some(c) && c@
            == name)),
        call_ensures(delete_branch, (typed, current), deleted) && deleted is Ok ==> deleted->Ok_0@ == name,
{
    text::lemma_trimmed_of_padded(lead, name, tail);
}

/// A blank name is refused wherever a branch is to be found or made under it.
pub proof fn law_blank_names_are_refused(
    typed: &str,
    other: &str,
    checked: Result<String, String>,
    created: Result<HeadMove, String>,
    switched: Result<HeadMove, String>,
    renamed: Result<(String, String), String>,
)
    requires
        text::is_blank(typed@),
    ensures
        call_ensures(check_branch_name, (typed,), checked) ==> (checked matches Err(e) && e@
            == "Branch name cannot be empty"@),
        call_ensures(create_branch_at_commit, (typed,), created) ==> (created matches Err(e) && e@
            == "Branch name cannot be empty"@),
        call_ensures(switch_branch, (typed,), switched) ==> (switched matches Err(e) && e@
            == "Branch name cannot be empty"@),
        call_ensures(rename_branch, (other, typed), renamed) ==> (renamed matches Err(e) && e@
            == "Branch name cannot be empty"@),
{
    text::lemma_trimmed_of_blank(typed@);
}

/// Two names of branches that differ by more than the white space around them stay two names.
pub proof fn law_different_names_stay_different(a: &str, b: &str, x: Result<String, String>, y: Result<String, String>)
    requires
        call_ensures(check_branch_name, (a,), x),
        call_ensures(check_branch_name, (b,), y),
        x is Ok,
        y is Ok,
    ensures
        x->Ok_0@ == y->Ok_0@ <==> text::trimmed(a@) == text::trimmed(b@),
{
}

/// An abbreviated name is the start of the whole one: eight characters of it, or all of it where it is shorter.
pub proof fn law_abbreviation_is_a_start(id: &str, r: String)
    requires
        call_ensures(abbreviate, (id,), r),
    ensures
        r@.len() <= id@.len(),
        r@ == id@.take(r@.len() as int),
        r@.len() == 8 || r@.len() < 8 && r@ == id@,
{
}

/// One more branch is one more report, of its own name, tip and counts, if it has a name and a tip; the reports of
/// the branches before it stay as they were.
pub proof fn law_each_branch_is_reported_for_itself(
    found: &Vec<FoundBranch>,
    more: &Vec<FoundBranch>,
    branch: FoundBranch,
    r: Vec<BranchDivergence>,
    s: Vec<BranchDivergence>,
    i: int,
)
    requires
        more@ == found@.push(branch),
        call_ensures(graph_branch_divergence, (true, found), r),
        call_ensures(graph_branch_divergence, (true, more), s),
    ensures
        found@.len() == 0 ==> r@.len() == 0,
        branch.name is Some && branch.tip is Some ==> {
            &&& s@.len() == r@.len() + 1
            &&& s@.last().name@ == branch.name->0@
            &&& s@.last().tip@ == branch.tip->0@
            &&& branch.ahead_behind is Some ==> s@.last().ahead == (branch.ahead_behind->0).0 && s@.last().behind
                == (branch.ahead_behind->0).1
            &&& branch.ahead_behind is None ==> s@.last().ahead == 0 && s@.last().behind == 0
            &&& text::opt_view(s@.last().merge_base) == text::opt_view(branch.merge_base)
        },
        branch.name is None || branch.tip is None ==> s@.len() == r@.len(),
        0 <= i < r@.len() ==> s@[i].name@ == r@[i].name@ && s@[i].tip@ == r@[i].tip@ && s@[i].ahead == r@[i].ahead
            && s@[i].behind == r@[i].behind,
{
    let places = complete_branches(found@);
    let all = complete_branches(more@);
    assert(more@.drop_last() =~= found@);
    lemma_complete_bound(found@);
    if branch.name is Some && branch.tip is Some {
        assert(all == places.push(found@.len() as int));
        assert(reports_branch(s@[s@.len() - 1], more@[all[s@.len() - 1]]));
    }
    if 0 <= i < r@.len() {
        assert(reports_branch(r@[i], found@[places[i]]));
        assert(reports_branch(s@[i], more@[all[i]]));
        assert(all[i] == places[i]);
    }
}

proof fn lemma_complete_bound(found: Seq<FoundBranch>)
    ensures
        forall|i: int| 0 <= i < complete_branches(found).len() ==> 0 <= #[trigger] complete_branches(found)[i] < found.len(),
    decreases found.len(),
{
    if found.len() > 0 {
        let front = complete_branches(found.drop_last());
        lemma_complete_bound(found.drop_last());
        assert forall|i: int| 0 <= i < complete_branches(found).len() implies 0 <= #[trigger] complete_branches(found)[i]
            < found.len() by {
            if i < front.len() {
                assert(complete_branches(found)[i] == front[i]);
            }
        }
    }
}

/// The main remote branch is `origin/main` wherever it is there, and `origin/master` only where `origin/main` is not.
pub proof fn law_main_remote_branch_by_rank(has_main: bool, has_master: bool, default: Option<String>, r: Option<String>)
    requires
        call_ensures(main_remote_branch, (has_main, has_master, default), r),
    ensures
        has_main ==> (r matches Some(b) && b@ == "origin/main"@),
        !has_main && has_master ==> (r matches Some(b) && b@ == "origin/master"@),
        !has_main && !has_master ==> text::opt_view(r) == text::opt_view(default),
{
}

// What moving the head and restoring a checkpoint come to.

/// The head is moved only once the files were checked out; a checkout that is refused is told with what kept it, by what
/// the head was to be moved to.
pub proof fn law_a_refused_checkout_is_explained(
    a: &mut HeadMove,
    b: &mut HeadMove,
    c: &mut HeadMove,
    created: Result<(), String>,
    checked_out: Result<(), String>,
    moved: Result<(), String>,
)
    requires
        old(a).wf(),
        old(a).step is CreateBranch,
        call_ensures(HeadMove::branch_created, (a, created), ()),
        old(b).wf(),
        old(b).step is Checkout,
        call_ensures(HeadMove::checkout_done, (b, checked_out), ()),
        old(c).wf(),
        old(c).step is MoveHead,
        call_ensures(HeadMove::head_moved, (c, moved), ()),
    ensures
        created is Ok ==> final(a).step is Checkout && final(a).goal == old(a).goal,
        created matches Err(e) ==> (final(a).step matches HeadStep::Done { result } && result matches Err(m) && m@ == e@),
        checked_out is Ok ==> final(b).step is MoveHead && final(b).goal == old(b).goal,
        checked_out matches Err(e) ==> (final(b).step matches HeadStep::Done { result } && result matches Err(m) && {
            &&& old(b).goal is NewBranch ==> m@ == "Branch created, but checkout refused: "@ + e@
            &&& old(b).goal is Detached ==> m@ == "Cannot checkout commit: "@ + e@
            &&& old(b).goal matches HeadGoal::Branch { branch } ==> m@ == "Cannot switch to '"@ + branch@ + "': "@ + e@
        }),
        moved is Ok ==> final(c).moved && (final(c).step matches HeadStep::Done { result } && result is Ok),
        moved matches Err(e) ==> !final(c).moved && (final(c).step matches HeadStep::Done { result } && result matches Err(
            m,
        ) && m@ == e@),
{
}

/// A restore runs these eight commands in this order: submodules are taken out, what is not tracked is removed, the
/// commit itself is checked out, and then everything is done again for what the commit brings.
pub proof fn law_a_restore_runs_these_commands(oid: &str, r: CheckpointRestore)
    requires
        call_ensures(restore_exact_checkpoint_inner, (oid,), r),
    ensures
        r.steps@.len() == 8,
        r.done == 0,
        r.failure is None,
        text::texts_view(r.steps@[0].args@) == seq!["submodule"@, "deinit"@, "--all"@, "--force"@],
        text::texts_view(r.steps@[1].args@) == seq!["clean"@, "-fd"@],
        text::texts_view(r.steps@[2].args@) == seq!["checkout"@, "--detach"@, "--force"@, oid@],
        text::texts_view(r.steps@[3].args@) == seq!["submodule"@, "sync"@, "--recursive"@],
        text::texts_view(r.steps@[4].args@) == seq!["clean"@, "-fd"@],
        text::texts_view(r.steps@[5].args@) == seq!["submodule"@, "update"@, "--init"@, "--recursive"@, "--force"@],
        text::texts_view(r.steps@[6].args@) == seq!["submodule"@, "foreach"@, "--recursive"@, "git reset --hard"@],
        text::texts_view(r.steps@[7].args@) == seq!["submodule"@, "foreach"@, "--recursive"@, "git clean -fd"@],
        r.steps@[0].label@ == "deinit current submodules"@,
        r.steps@[1].label@ == "pre-clean parent leftovers"@,
        r.steps@[2].label@ == "checkout detached checkpoint"@,
        r.steps@[3].label@ == "sync submodule urls"@,
        r.steps@[4].label@ == "post-checkout clean parent leftovers"@,
        r.steps@[5].label@ == "init/update submodules"@,
        r.steps@[6].label@ == "reset submodules hard"@,
        r.steps@[7].label@ == "clean submodule leftovers"@,
        r.steps@[0].failure is None && r.steps@[3].failure is None && r.steps@[6].failure is None,
        r.steps@[1].failure matches Some(m) && m@ == "Could not prepare workspace for checkpoint "@ + oid@ + ": "@,
        r.steps@[2].failure matches Some(m) && m@ == "Could not restore checkpoint "@ + oid@ + ": "@,
        r.steps@[4].failure matches Some(m) && m@ == "Checkpoint restored, but parent clean failed: "@,
        r.steps@[5].failure matches Some(m) && m@ == "Checkpoint restored, but submodule update failed: "@,
        r.steps@[7].failure matches Some(m) && m@ == "Checkpoint restored, but submodule clean failed: "@,
{
    let view = steps_view(r.steps@);
    assert(view.len() == r.steps@.len());
    assert(view[0] == r.steps@[0]@);
    assert(view[1] == r.steps@[1]@);
    assert(view[2] == r.steps@[2]@);
    assert(view[3] == r.steps@[3]@);
    assert(view[4] == r.steps@[4]@);
    assert(view[5] == r.steps@[5]@);
    assert(view[6] == r.steps@[6]@);
    assert(view[7] == r.steps@[7]@);
}

/// A command that fails stops the restore, with its own message before what Git said, unless its failure is passed over;
/// otherwise the next command follows.
pub proof fn law_a_restore_stops_at_a_failure_that_counts(run: &mut CheckpointRestore, outcome: Result<(), String>)
    requires
        old(run).wf(),
        !old(run).is_over(),
        call_ensures(CheckpointRestore::step_done, (run, outcome), ()),
    ensures
        final(run).done == old(run).done + 1,
        final(run).steps == old(run).steps,
        final(run).failure is Some <==> outcome is Err && old(run).steps@[old(run).done as int].failure is Some,
        final(run).failure matches Some(m) ==> m@ == (old(run).steps@[old(run).done as int].failure->0)@ + (
        outcome->Err_0)@,
{
}

/// A checkpoint is restored by the name that was typed between the white space around it; a blank one is refused.
pub proof fn law_checkpoints_are_named_as_typed(
    typed: &str,
    lead: Seq<char>,
    name: Seq<char>,
    tail: Seq<char>,
    r: Result<String, String>,
)
    requires
        call_ensures(check_checkpoint, (typed,), r),
    ensures
        typed@ == lead + name + tail && text::is_blank(lead) && text::is_tight(name) && text::is_blank(tail) ==> (
        r matches Ok(n) && n@ == name),
        text::is_blank(typed@) ==> (r matches Err(e) && e@ == "Select a commit/checkpoint to restore"@),
{
    if text::is_blank(typed@) {
        text::lemma_trimmed_of_blank(typed@);
    }
    if typed@ == lead + name + tail && text::is_blank(lead) && text::is_tight(name) && text::is_blank(tail) {
        text::lemma_trimmed_of_padded(lead, name, tail);
    }
}

/// A text that is no revision is looked up as the name of an object: forty hexadecimal digits stand for themselves, with
/// white space around them or not. One that can be neither is refused, and the refusal repeats it as it was typed.
pub proof fn law_full_names_are_looked_up_as_they_are(
    typed: &str,
    lead: Seq<char>,
    id: Seq<char>,
    tail: Seq<char>,
    r: CommitLookup,
    s: CommitLookup,
)
    requires
        call_ensures(revision_resolved, (typed, false), r),
        call_ensures(revision_resolved, (typed, true), s),
    ensures
        s is Resolved,
        !(r is Resolved),
        typed@ == lead + id + tail && text::is_blank(lead) && text::is_blank(tail) && text::is_tight(id) && id.len() == 40
            && (forall|i: int| 0 <= i < id.len() ==> ('0' <= #[trigger] id[i] <= '9' || 'a' <= id[i] <= 'f')) ==> (
        r matches CommitLookup::FindObject { oid } && oid@ == id),
        text::is_blank(typed@) ==> (r matches CommitLookup::Failed { message } && message@
            == "Cannot resolve commit \""@ + typed@ + "\": "@ + "unable to parse OID - too short"@),
{
    if text::is_blank(typed@) {
        text::lemma_trimmed_of_blank(typed@);
        is_ascii_chars_encode_utf8(Seq::<char>::empty());
    }
    if typed@ == lead + id + tail && text::is_blank(lead) && text::is_blank(tail) && text::is_tight(id) && id.len() == 40
        && (forall|i: int| 0 <= i < id.len() ==> ('0' <= #[trigger] id[i] <= '9' || 'a' <= id[i] <= 'f')) {
        text::lemma_trimmed_of_padded(lead, id, tail);
        law_full_names_stand_for_themselves(id);
    }
}

/// Where the head left the main remote branch is told exactly where there is such a branch, it has a commit and the two
/// have an ancestor in common; where a new branch would start is told with the branch, the first characters of the
/// commit and the counts as they were found.
pub proof fn law_starting_points_are_told_as_they_were_found(
    base_ref: Option<String>,
    base_has_tip: bool,
    merge_base: Option<String>,
    left: Option<GraphBranchStart>,
    current_branch: Option<String>,
    commit: &str,
    main: Option<String>,
    counts: Option<(usize, usize)>,
    r: BranchCreationContext,
)
    requires
        call_ensures(graph_head_main_merge_base, (base_ref, base_has_tip, merge_base), left),
        call_ensures(branch_creation_context, (current_branch, commit, main, counts), r),
    ensures
        left is Some <==> base_ref is Some && base_has_tip && merge_base is Some,
        left matches Some(start) ==> start.base_ref@ == base_ref->0@ && start.oid@ == merge_base->0@,
        current_branch is Some ==> r.current_branch@ == current_branch->0@,
        current_branch is None ==> r.current_branch@ == "HEAD"@,
        commit@.len() >= 8 ==> r.current_commit@ == commit@.take(8),
        commit@.len() < 8 ==> r.current_commit@ == commit@,
        text::opt_view(r.main_remote_branch) == text::opt_view(main),
        counts is Some ==> r.ahead == (counts->0).0 && r.behind == (counts->0).1,
        counts is None ==> r.ahead == 0 && r.behind == 0,
{
}

/// Without a primary branch nothing is reported.
pub proof fn law_divergence_needs_a_primary_branch(found: &Vec<FoundBranch>, r: Vec<BranchDivergence>)
    requires
        call_ensures(graph_branch_divergence, (false, found), r),
    ensures
        r@.len() == 0,
{
}

/// Hexadecimal digits name an object in either case and with zeros behind them up to forty; more than forty digits, other
/// characters and nothing at all name none.
pub proof fn law_names_of_objects_are_filled_up(id: Seq<char>)
    requires
        is_ascii_chars(id),
    ensures
        ({
            let digits = forall|i: int|
                0 <= i < id.len() ==> ('0' <= #[trigger] id[i] <= '9' || 'a' <= id[i] <= 'f' || 'A' <= id[i] <= 'F');
            &&& oid_answer(id) is Ok <==> 0 < id.len() <= 40 && digits
            &&& oid_answer(id) matches Ok(oid) ==> {
                &&& oid.len() == 40
                &&& forall|i: int|
                    0 <= i < id.len() && !('A' <= id[i] <= 'F') ==> #[trigger] oid[i] == id[i]
                &&& forall|i: int|
                    0 <= i < id.len() && 'A' <= id[i] <= 'F' ==> #[trigger] oid[i] as int == id[i] as int + 32
                &&& forall|i: int| id.len() <= i < 40 ==> #[trigger] oid[i] == '0'
            }
            &&& id.len() == 0 ==> oid_answer(id) == Err::<Seq<char>, Seq<char>>("unable to parse OID - too short"@)
            &&& id.len() > 40 ==> oid_answer(id) == Err::<Seq<char>, Seq<char>>("unable to parse OID - too long"@)
            &&& 0 < id.len() <= 40 && !digits ==> oid_answer(id) == Err::<Seq<char>, Seq<char>>(
                "unable to parse OID - contains invalid characters"@,
            )
        }),
{
    let bytes = encode_utf8(id);
    is_ascii_chars_encode_utf8(id);
    assert(bytes.len() == id.len());
    assert forall|i: int| 0 <= i < id.len() implies (is_hex_byte(#[trigger] bytes[i]) <==> ('0' <= id[i] <= '9' || 'a'
        <= id[i] <= 'f' || 'A' <= id[i] <= 'F')) by {
        assert(bytes[i] as int == id[i] as int);
    }
    if forall|i: int| 0 <= i < id.len() ==> ('0' <= #[trigger] id[i] <= '9' || 'a' <= id[i] <= 'f' || 'A' <= id[i] <= 'F') {
        assert forall|i: int| 0 <= i < bytes.len() implies is_hex_byte(#[trigger] bytes[i]) by {
            assert('0' <= id[i] <= '9' || 'a' <= id[i] <= 'f' || 'A' <= id[i] <= 'F');
        }
    } else {
        let i = choose|i: int|
            0 <= i < id.len() && !('0' <= #[trigger] id[i] <= '9' || 'a' <= id[i] <= 'f' || 'A' <= id[i] <= 'F');
        assert(!is_hex_byte(bytes[i]));
    }
    if let Ok(oid) = oid_answer(id) {
        assert forall|i: int| 0 <= i < id.len() implies (!('A' <= id[i] <= 'F') ==> #[trigger] oid[i] == id[i]) && ('A'
            <= id[i] <= 'F' ==> oid[i] as int == id[i] as int + 32) by {
            assert(oid[i] == lower_hex(bytes[i]));
            lemma_lower_hex(id[i], bytes[i]);
        }
    }
}

proof fn lemma_lower_hex(c: char, b: u8)
    requires
        b as int == c as int,
    ensures
        !('A' <= c <= 'F') ==> lower_hex(b) == c,
        'A' <= c <= 'F' ==> lower_hex(b) as int == c as int + 32,
{
}

} // verus!
