use git_integrity::repository::branches::merge::{
    check_merge_in_progress, check_merge_message, check_merge_start, check_no_conflicts, conflict_sides,
    gather_conflicts, locate_conflict, locate_side, merge_branch, merge_in_progress, merge_parents,
    resolve_conflict, unknown_source_message, Conflict, ConflictEntry, MergeOutcome, MergeRun, MergeStep,
    RepositoryState, ResolveConflict, ResolveStep,
};
use git_integrity::repository::branches::{
    abbreviate, branch_creation_context, branch_reference, cannot_resolve_message, check_branch_name,
    check_checkpoint, checkout_commit, create_branch_at_commit, delete_branch, graph_branch_divergence,
    graph_head_main_merge_base, main_remote_branch, not_a_commit_message, parent_not_updated_message,
    rename_branch, restore_checkpoint_optional_step, restore_checkpoint_step, restore_exact_checkpoint_inner,
    revision_resolved, switch_branch, CommitLookup, FoundBranch, HeadMove, HeadStep,
};
use git_integrity::repository::remotes::{
    fetch_all_remotes_inner, fetch_remote, list_remotes, sync_repository_inner, FoundRemote, SyncRun, SyncStep,
};
use git_integrity::repository::stash::{
    check_in_stash, check_restore_state, check_selected_clean, drop_stash, find_stash, pop_stash,
    restore_stash_paths, select_paths, stash_changes, stash_entry_files, stash_file, stash_repository,
    stash_scope_inner, ChangedFile, DirtyFile, FoundStash, PopRun, PopStep, RestoreRun, RestoreStep, SelectedPath,
    StashObject,
};
use git_integrity::repository::missing_signature_message;
use std::cell::RefCell;

fn s(text: &str) -> String {
    text.to_string()
}

// Branches.

#[test]
fn divergence_leaves_incomplete_branches_out() {
    let found = vec![
        FoundBranch { name: Some(s("main")), tip: Some(s("1")), ahead_behind: Some((2, 3)), merge_base: Some(s("0")) },
        FoundBranch { name: None, tip: Some(s("1")), ahead_behind: None, merge_base: None },
        FoundBranch { name: Some(s("symbolic")), tip: None, ahead_behind: None, merge_base: None },
        FoundBranch { name: Some(s("lone")), tip: Some(s("4")), ahead_behind: None, merge_base: None },
    ];
    let reported = graph_branch_divergence(true, &found);
    assert_eq!(reported.len(), 2);
    assert_eq!((reported[0].name.as_str(), reported[0].ahead, reported[0].behind), ("main", 2, 3));
    assert_eq!(reported[0].merge_base.as_deref(), Some("0"));
    assert_eq!((reported[1].name.as_str(), reported[1].ahead, reported[1].behind), ("lone", 0, 0));
    assert!(graph_branch_divergence(false, &found).is_empty());
}

#[test]
fn the_main_remote_branch_is_chosen_in_order() {
    assert_eq!(main_remote_branch(true, true, Some(s("x/y"))).unwrap(), "origin/main");
    assert_eq!(main_remote_branch(false, true, Some(s("x/y"))).unwrap(), "origin/master");
    assert_eq!(main_remote_branch(false, false, Some(s("x/y"))).unwrap(), "x/y");
    assert!(main_remote_branch(false, false, None).is_none());
    let start = graph_head_main_merge_base(Some(s("origin/main")), true, Some(s("abc"))).unwrap();
    assert_eq!((start.base_ref.as_str(), start.oid.as_str()), ("origin/main", "abc"));
    assert!(graph_head_main_merge_base(None, true, Some(s("abc"))).is_none());
    assert!(graph_head_main_merge_base(Some(s("origin/main")), false, Some(s("abc"))).is_none());
    assert!(graph_head_main_merge_base(Some(s("origin/main")), true, None).is_none());
}

#[test]
fn a_new_branch_is_described() {
    let context = branch_creation_context(None, "0123456789", Some(s("origin/main")), None);
    assert_eq!(context.current_branch, "HEAD");
    assert_eq!(context.current_commit, "01234567");
    assert_eq!((context.ahead, context.behind), (0, 0));
    let context = branch_creation_context(Some(s("dev")), "012", None, Some((1, 2)));
    assert_eq!(context.current_branch, "dev");
    assert_eq!(context.current_commit, "012");
    assert_eq!((context.ahead, context.behind), (1, 2));
    assert_eq!(abbreviate("01234567"), "01234567");
}

#[test]
fn names_of_branches_are_checked() {
    assert_eq!(check_branch_name(" dev ").unwrap(), "dev");
    assert_eq!(check_branch_name(" ").unwrap_err(), "Branch name cannot be empty");
    assert_eq!(rename_branch(" a ", " b ").unwrap(), (s("a"), s("b")));
    assert_eq!(rename_branch("a", "").unwrap_err(), "Branch name cannot be empty");
    assert_eq!(delete_branch(" old ", Some(s("main"))).unwrap(), "old");
    assert_eq!(delete_branch("old", None).unwrap(), "old");
    assert_eq!(
        delete_branch(" main ", Some(s("main"))).unwrap_err(),
        "Cannot delete the currently checked out branch. Switch to another branch first"
    );
    assert_eq!(branch_reference("dev"), "refs/heads/dev");
    assert_eq!(
        parent_not_updated_message("locked"),
        "Branch created, but the parent index could not be updated: locked"
    );
}

fn object_of(id: &str) -> Result<String, String> {
    match revision_resolved(id, false) {
        CommitLookup::FindObject { oid } => Ok(oid),
        CommitLookup::Failed { message } => Err(message),
        CommitLookup::Resolved => panic!("nothing was resolved"),
    }
}

#[test]
fn what_is_no_revision_is_taken_for_an_object() {
    assert!(matches!(revision_resolved("main", true), CommitLookup::Resolved));
    assert_eq!(object_of(" ABCdef12 ").unwrap(), "abcdef1200000000000000000000000000000000");
    let full = "0123456789abcdef0123456789abcdef01234567";
    assert_eq!(object_of(full).unwrap(), full);
    assert_eq!(object_of("").unwrap_err(), "Cannot resolve commit \"\": unable to parse OID - too short");
    assert_eq!(
        object_of("main").unwrap_err(),
        "Cannot resolve commit \"main\": unable to parse OID - contains invalid characters"
    );
    let long = format!("{full}0");
    assert_eq!(
        object_of(&long).unwrap_err(),
        format!("Cannot resolve commit \"{long}\": unable to parse OID - too long")
    );
    assert_eq!(
        object_of("é").unwrap_err(),
        "Cannot resolve commit \"é\": unable to parse OID - contains invalid characters"
    );
    assert_eq!(cannot_resolve_message("x", "odd"), "Cannot resolve commit \"x\": odd");
    assert_eq!(not_a_commit_message("v1"), "\"v1\" is not a commit");
}

fn head_failure(head: &HeadMove) -> String {
    match &head.step {
        HeadStep::Done { result: Err(message) } => message.clone(),
        _ => panic!("moving the head has not failed"),
    }
}

#[test]
fn the_head_moves_only_after_the_checkout() {
    let mut head = create_branch_at_commit(" dev ").ok().unwrap();
    assert!(matches!(head.step, HeadStep::CreateBranch));
    head.branch_created(Ok(()));
    head.checkout_done(Ok(()));
    assert!(head.checked_out && !head.moved);
    assert_eq!(head.head_reference().unwrap(), "refs/heads/dev");
    head.head_moved(Ok(()));
    assert!(head.moved);

    let mut head = create_branch_at_commit("dev").ok().unwrap();
    head.branch_created(Err(s("taken")));
    assert_eq!(head_failure(&head), "taken");
    let mut head = create_branch_at_commit("dev").ok().unwrap();
    head.branch_created(Ok(()));
    head.checkout_done(Err(s("dirty")));
    assert_eq!(head_failure(&head), "Branch created, but checkout refused: dirty");
    assert!(!head.moved);
    assert_eq!(create_branch_at_commit(" ").err().unwrap(), "Branch name cannot be empty");

    let mut head = switch_branch("dev").ok().unwrap();
    head.checkout_done(Err(s("dirty")));
    assert_eq!(head_failure(&head), "Cannot switch to 'dev': dirty");
    let mut head = switch_branch("dev").ok().unwrap();
    head.checkout_done(Ok(()));
    head.head_moved(Err(s("locked")));
    assert_eq!(head_failure(&head), "locked");
    assert!(!head.moved);
    assert_eq!(switch_branch("").err().unwrap(), "Branch name cannot be empty");

    let mut head = checkout_commit();
    assert!(head.head_reference().is_none());
    head.checkout_done(Err(s("dirty")));
    assert_eq!(head_failure(&head), "Cannot checkout commit: dirty");
}

#[test]
fn a_checkpoint_is_restored_in_eight_commands() {
    assert_eq!(check_checkpoint(" abc ").unwrap(), "abc");
    assert_eq!(check_checkpoint(" ").unwrap_err(), "Select a commit/checkpoint to restore");
    let mut restore = restore_exact_checkpoint_inner("abc");
    let mut commands: Vec<String> = Vec::new();
    while let Some(step) = restore.next_step() {
        commands.push(step.args.join(" "));
        let optional = step.failure.is_none();
        restore.step_done(if optional { Err(s("ignored")) } else { Ok(()) });
    }
    assert_eq!(
        commands,
        vec![
            "submodule deinit --all --force",
            "clean -fd",
            "checkout --detach --force abc",
            "submodule sync --recursive",
            "clean -fd",
            "submodule update --init --recursive --force",
            "submodule foreach --recursive git reset --hard",
            "submodule foreach --recursive git clean -fd",
        ]
    );
    assert!(restore.finish().is_ok());
}

#[test]
fn what_git_answered_is_handed_on() {
    assert_eq!(restore_checkpoint_optional_step(Ok(())), Ok(()));
    assert_eq!(restore_checkpoint_optional_step(Err(s("no"))), Err(s("no")));
    assert_eq!(restore_checkpoint_step("Failed: ", Ok(())), Ok(()));
    assert_eq!(restore_checkpoint_step("Failed: ", Err(s("no"))), Err(s("Failed: no")));
}

#[test]
fn a_command_that_counts_stops_the_restore() {
    let expected = [
        (1, "Could not prepare workspace for checkpoint abc: no"),
        (2, "Could not restore checkpoint abc: no"),
        (4, "Checkpoint restored, but parent clean failed: no"),
        (5, "Checkpoint restored, but submodule update failed: no"),
        (7, "Checkpoint restored, but submodule clean failed: no"),
    ];
    for (failing, message) in expected {
        let mut restore = restore_exact_checkpoint_inner("abc");
        for _ in 0..failing {
            restore.step_done(Ok(()));
        }
        restore.step_done(Err(s("no")));
        assert!(restore.next_step().is_none());
        assert_eq!(restore.finish().unwrap_err(), message);
    }
}

// Merging.

fn version(path: &str, id: &str) -> Option<ConflictEntry> {
    Some(ConflictEntry { path: path.as_bytes().to_vec(), id: s(id) })
}

fn conflicts() -> Vec<Conflict> {
    vec![
        Conflict { ancestor: version("a", "1"), our: version("a", "2"), their: version("a", "3") },
        Conflict { ancestor: None, our: None, their: None },
        Conflict { ancestor: version("b", "4"), our: None, their: version("b", "5") },
        Conflict { ancestor: version("c", "6"), our: None, their: None },
    ]
}

#[test]
fn conflicts_are_listed_and_found() {
    let files = gather_conflicts(&conflicts());
    let shown: Vec<(&str, bool, bool)> =
        files.iter().map(|file| (file.path.as_str(), file.has_ours, file.has_theirs)).collect();
    assert_eq!(shown, vec![("a", true, true), ("b", false, true), ("c", false, false)]);
    assert_eq!(locate_conflict(&conflicts(), "c", "./c").unwrap(), 3);
    assert_eq!(locate_conflict(&conflicts(), "d", "./d").unwrap_err(), "./d is not a conflicted file");
    assert_eq!(locate_side(&conflicts(), true, "b"), None);
    assert_eq!(locate_side(&conflicts(), false, "b"), Some(2));
    let odd = vec![Conflict {
        ancestor: None,
        our: Some(ConflictEntry { path: vec![b'x', 0xff], id: s("1") }),
        their: None,
    }];
    assert_eq!(gather_conflicts(&odd)[0].path, "x\u{fffd}");
    let sides = conflict_sides(&None, &Some(b"ours".to_vec()), &Some(vec![0xff]));
    assert_eq!(sides.ancestor, None);
    assert_eq!(sides.ours.as_deref(), Some("ours"));
    assert_eq!(sides.theirs.as_deref(), Some("\u{fffd}"));
}

fn resolve_failure(run: &ResolveConflict) -> String {
    match &run.step {
        ResolveStep::Done { result: Err(message) } => message.clone(),
        _ => panic!("resolving has not failed"),
    }
}

#[test]
fn conflicts_are_resolved_by_a_side_or_by_hand() {
    let begin = |kind: &str| resolve_conflict(s(kind), s("a.txt"), s("/repo/a.txt"));
    let mut run = begin("ours");
    assert!(matches!(run.step, ResolveStep::ReadSide { ours: true }));
    run.side_read(&Some(b"text".to_vec()));
    assert!(matches!(&run.step, ResolveStep::WriteFile { content } if content == "text"));
    run.file_written(Ok(()));
    assert!(matches!(run.step, ResolveStep::AddToIndex));
    run.index_updated(Ok(()));
    assert!(matches!(run.step, ResolveStep::Done { result: Ok(()) }));

    let mut run = begin("theirs");
    assert!(matches!(run.step, ResolveStep::ReadSide { ours: false }));
    run.side_read(&None);
    assert_eq!(
        resolve_failure(&run),
        "No theirs version exists for a.txt (it may have been added only on one side — deleting or keeping the existing file may be more appropriate)."
    );
    let mut run = begin("ours");
    run.side_read(&Some(b"text".to_vec()));
    run.file_written(Err(s("full")));
    assert_eq!(resolve_failure(&run), "Cannot write /repo/a.txt: full");

    let mut run = begin("manual");
    run.file_checked(false);
    assert_eq!(resolve_failure(&run), "a.txt does not exist on disk — nothing to mark resolved.");
    let mut run = begin("manual");
    run.file_checked(true);
    run.index_updated(Err(s("locked")));
    assert_eq!(resolve_failure(&run), "locked");
    assert_eq!(resolve_failure(&begin("both")), "Unknown resolution kind \"both\"");
}

#[test]
fn a_merge_starts_from_a_clean_branch() {
    let start = |state, dirty, detached, current: Option<&str>| {
        check_merge_start(state, dirty, detached, current.map(String::from))
    };
    assert_eq!(start(RepositoryState::Clean, Ok(false), Some(false), Some("main")).unwrap(), "main");
    assert_eq!(
        start(RepositoryState::Other, Ok(false), Some(false), Some("main")).unwrap_err(),
        "A merge (or other operation) is already in progress here. Resolve or abort it first."
    );
    assert_eq!(
        start(RepositoryState::Clean, Ok(true), Some(false), Some("main")).unwrap_err(),
        "There are uncommitted changes here. Commit or stash them first, so a merge can't mix them up with incoming changes."
    );
    assert_eq!(start(RepositoryState::Clean, Err(s("odd")), Some(false), Some("main")).unwrap_err(), "odd");
    let detached = "This is a detached HEAD (not on a branch), so there is nothing to merge into.";
    assert_eq!(start(RepositoryState::Clean, Ok(false), Some(true), Some("main")).unwrap_err(), detached);
    assert_eq!(start(RepositoryState::Clean, Ok(false), None, Some("main")).unwrap_err(), detached);
    assert_eq!(
        start(RepositoryState::Clean, Ok(false), Some(false), None).unwrap_err(),
        "Could not determine the current branch"
    );
    assert_eq!(
        unknown_source_message("x"),
        "Could not find branch \"x\" — fetch first if it's a remote branch."
    );
}

fn merge_result(run: MergeRun) -> Result<MergeOutcome, String> {
    match run.step {
        MergeStep::Done { result } => result,
        _ => panic!("the merge has not ended"),
    }
}

fn merging(source: &str) -> MergeRun {
    merge_branch(RepositoryState::Clean, Ok(false), Some(false), Some(s("main")), s(source)).ok().unwrap()
}

#[test]
fn a_merge_runs_only_after_its_checks() {
    assert_eq!(
        merge_branch(RepositoryState::Clean, Ok(true), Some(false), Some(s("main")), s("dev")).err().unwrap(),
        "There are uncommitted changes here. Commit or stash them first, so a merge can't mix them up with incoming changes."
    );
    let mut run = merging(" dev ");
    assert!(matches!(&run.step, MergeStep::FindSource { name } if name == "dev"));
    run.source_found(false);
    assert_eq!(
        merge_result(run).err().unwrap(),
        "Could not find branch \" dev \" — fetch first if it's a remote branch."
    );
    let mut run = merging("dev");
    run.source_found(true);
    run.analysed(Err(s("odd")));
    assert_eq!(merge_result(run).err().unwrap(), "odd");
}

#[test]
fn a_merge_reports_how_it_ended() {
    let begin = |up_to_date, fast_forward| {
        let mut run = merging("dev");
        run.source_found(true);
        run.analysed(Ok((up_to_date, fast_forward)));
        run
    };
    let outcome = merge_result(begin(true, true)).ok().unwrap();
    assert_eq!((outcome.status.as_str(), outcome.message.as_str()), ("up_to_date", "main is already up to date with dev."));

    let mut run = begin(false, true);
    assert!(matches!(&run.step, MergeStep::MoveBranch { reference } if reference == "refs/heads/main"));
    run.branch_moved(Ok(()));
    assert!(matches!(&run.step, MergeStep::MoveHead { reference } if reference == "refs/heads/main"));
    run.head_moved(Ok(()));
    run.head_checked_out(Ok(()));
    let outcome = merge_result(run).ok().unwrap();
    assert_eq!((outcome.status.as_str(), outcome.message.as_str()), ("fast_forwarded", "Fast-forwarded main to dev."));
    let mut run = begin(false, true);
    run.branch_moved(Err(s("locked")));
    assert_eq!(merge_result(run).err().unwrap(), "locked");

    let mut run = begin(false, false);
    run.trees_merged(Ok(()));
    run.conflicts_checked(Ok(true));
    run.conflicts_gathered(Ok(conflicts()));
    let outcome = merge_result(run).ok().unwrap();
    assert_eq!(outcome.status, "conflicts");
    assert_eq!(outcome.message, "Merging dev produced 3 conflicts. Resolve them, then complete the merge.");
    assert_eq!(outcome.conflicts.len(), 3);
    let mut run = begin(false, false);
    run.trees_merged(Ok(()));
    run.conflicts_checked(Ok(true));
    run.conflicts_gathered(Ok(conflicts().into_iter().take(1).collect()));
    assert_eq!(
        merge_result(run).ok().unwrap().message,
        "Merging dev produced 1 conflict. Resolve them, then complete the merge."
    );

    let mut run = begin(false, false);
    run.trees_merged(Ok(()));
    run.conflicts_checked(Ok(false));
    assert!(matches!(&run.step, MergeStep::Complete { message } if message == "Merge dev into main"));
    run.completed(Ok(s("0123456789")));
    let outcome = merge_result(run).ok().unwrap();
    assert_eq!((outcome.status.as_str(), outcome.message.as_str()), ("merged", "Merged dev into main (01234567)."));
    assert!(outcome.conflicts.is_empty());
}

#[test]
fn a_merge_is_completed_with_its_parents() {
    assert_eq!(
        merge_parents(Some(s("h")), &vec![Some(s("x")), None, Some(s("y"))]),
        vec!["h", "x", "y"]
    );
    assert_eq!(merge_parents(None, &vec![Some(s("x"))]), vec!["x"]);
    assert!(merge_in_progress(RepositoryState::Merge));
    assert!(!merge_in_progress(RepositoryState::Clean));
    assert!(check_merge_in_progress(RepositoryState::Merge).is_ok());
    assert_eq!(
        check_merge_in_progress(RepositoryState::Clean).unwrap_err(),
        "There is no merge in progress here."
    );
    assert_eq!(check_merge_message(" m ").unwrap(), "m");
    assert_eq!(check_merge_message(" ").unwrap_err(), "Merge commit message cannot be empty");
    assert_eq!(missing_signature_message(), "Configure user.name and user.email for this repository");
    assert!(check_no_conflicts(false).is_ok());
    assert_eq!(check_no_conflicts(true).unwrap_err(), "There are still unresolved conflicts.");
}

// Remotes.

#[test]
fn remotes_push_where_they_fetch_unless_told_otherwise() {
    let found = |name: &str, url: Option<&str>, push: Option<&str>| FoundRemote {
        name: s(name),
        url: url.map(String::from),
        push_url: push.map(String::from),
    };
    let listed = list_remotes(&vec![
        found("a", Some("u"), None),
        found("b", Some("u"), Some("p")),
        found("c", None, None),
    ]);
    let shown: Vec<(&str, &str, &str)> = listed
        .iter()
        .map(|remote| (remote.name.as_str(), remote.fetch_url.as_str(), remote.push_url.as_str()))
        .collect();
    assert_eq!(shown, vec![("a", "u", "u"), ("b", "u", "p"), ("c", "", "")]);
}

#[test]
fn fetching_runs_git_and_reports_failures() {
    let ran = RefCell::new(Vec::new());
    let run = |args: &Vec<String>| {
        ran.borrow_mut().push(args.join(" "));
        Ok(())
    };
    fetch_all_remotes_inner(run).unwrap();
    fetch_remote(" origin ", |name: &str| if name == "origin" { Ok(()) } else { Err(s("unknown")) }, run).unwrap();
    assert_eq!(*ran.borrow(), vec!["fetch --all", "fetch origin"]);
    assert_eq!(
        fetch_all_remotes_inner(|_: &Vec<String>| Err(s("offline"))).unwrap_err(),
        "Fetch failed: offline"
    );
    assert_eq!(fetch_remote("x", |_: &str| Err(s("unknown")), run).unwrap_err(), "unknown");
    assert_eq!(ran.borrow().len(), 2);
    assert_eq!(
        fetch_remote("x", |_: &str| Ok(()), |_: &Vec<String>| Err(s("offline"))).unwrap_err(),
        "Fetch failed: offline"
    );
}

fn sync_end(run: &SyncRun) -> Result<(), String> {
    match &run.step {
        SyncStep::Done { result } => result.clone(),
        _ => panic!("the synchronization has not ended"),
    }
}

fn pulling() -> SyncRun {
    let mut run = sync_repository_inner(Some(s("dev")), Some(Some(s("origin/team/dev"))), "pull").ok().unwrap();
    assert!(matches!(run.step, SyncStep::Fetch));
    run.fetched(Ok(()));
    assert!(matches!(&run.step, SyncStep::FindTarget { reference } if reference == "refs/remotes/origin/team/dev"));
    run.target_found(Ok(true));
    run
}

#[test]
fn a_pull_only_moves_forward() {
    let mut run = pulling();
    run.analysed(Ok((true, false)));
    assert!(matches!(&run.step, SyncStep::MoveBranch { reference } if reference == "refs/heads/dev"));
    run.branch_moved(Ok(()));
    assert!(matches!(&run.step, SyncStep::MoveHead { reference } if reference == "refs/heads/dev"));
    run.head_moved(Ok(()));
    run.head_checked_out(Ok(()));
    assert!(sync_end(&run).is_ok());
    let mut run = pulling();
    run.analysed(Ok((false, true)));
    assert!(sync_end(&run).is_ok());
    let mut run = pulling();
    run.analysed(Ok((false, false)));
    assert_eq!(sync_end(&run).unwrap_err(), "Pull requires a merge; only fast-forward pull is allowed");
    let mut run = sync_repository_inner(Some(s("dev")), Some(Some(s("origin/dev"))), "pull").ok().unwrap();
    run.fetched(Ok(()));
    run.target_found(Ok(false));
    assert_eq!(sync_end(&run).unwrap_err(), "Remote branch has no target");
    let mut run = sync_repository_inner(Some(s("dev")), Some(Some(s("origin/dev"))), "pull").ok().unwrap();
    run.fetched(Err(s("Fetch failed: offline")));
    assert_eq!(sync_end(&run).unwrap_err(), "Fetch failed: offline");
}

#[test]
fn a_push_names_both_branches() {
    let mut run = sync_repository_inner(Some(s("dev")), Some(Some(s("origin/team/dev"))), "push").ok().unwrap();
    assert!(matches!(run.step, SyncStep::FindRemote));
    run.remote_found(Ok(()));
    assert!(matches!(&run.step, SyncStep::Push { args } if args.join(" ") == "push origin dev:refs/heads/team/dev"));
    run.pushed(Err(s("rejected")));
    assert_eq!(sync_end(&run).unwrap_err(), "Push failed: rejected");
    let refused = |branch: Option<&str>, upstream: Option<Option<&str>>, action: &str| {
        sync_repository_inner(branch.map(String::from), upstream.map(|name| name.map(String::from)), action)
            .err()
            .unwrap()
    };
    assert_eq!(refused(None, None, "pull"), "Detached HEAD cannot be synchronized");
    assert_eq!(refused(Some("dev"), None, "pull"), "The current branch has no upstream");
    assert_eq!(refused(Some("dev"), Some(None), "pull"), "Invalid upstream");
    assert_eq!(refused(Some("dev"), Some(Some("dev")), "pull"), "Invalid upstream branch");
    assert_eq!(refused(Some("dev"), Some(Some("origin/dev")), "rebase"), "Unsupported synchronization action");
}

// Stashes.

#[test]
fn stashes_are_listed_with_their_repository() {
    let found = vec![
        FoundStash { index: 0, message: s("WIP"), base_commit: Some(s("abc")) },
        FoundStash { index: 1, message: s("old"), base_commit: None },
    ];
    let scope = stash_scope_inner(s("/home/me/project"), true, Some(s("sub")), Some(false), Some(s("main")), &found);
    assert_eq!(scope.repository_name, "project");
    assert_eq!(scope.current_branch, "main");
    assert!(scope.is_submodule);
    assert_eq!(scope.relative_path.as_deref(), Some("sub"));
    assert_eq!(scope.stashes[0].base_commit, "abc");
    assert_eq!(scope.stashes[1].base_commit, "");
    assert_eq!(scope.stashes[1].message, "old");
    let none = Vec::new();
    let scope = stash_scope_inner(s("/"), false, None, Some(true), Some(s("HEAD")), &none);
    assert_eq!((scope.repository_name.as_str(), scope.current_branch.as_str()), ("repository", ""));
    let scope = stash_scope_inner(s("/x"), false, None, None, Some(s("dev")), &none);
    assert_eq!(scope.current_branch, "dev");
    assert!(stash_scope_inner(s("/x"), false, None, Some(false), None, &none).current_branch.is_empty());
}

#[test]
fn one_path_is_stashed() {
    assert_eq!(stash_file("a/b").unwrap(), vec!["stash", "push", "--include-untracked", "--", "a/b"]);
    assert_eq!(stash_file("").unwrap_err(), "Select a specific file or folder to stash");
    assert_eq!(stash_repository(Some((s("/sub"), s("x")))), Some((s("/sub"), s("x"))));
    assert_eq!(stash_repository(Some((s("/sub"), s("")))), None);
    assert_eq!(stash_repository(None), None);
    assert_eq!(stash_changes(Err(s("empty"))).unwrap_err(), "Cannot stash changes: empty");
    assert_eq!(drop_stash(Err(s("gone"))).unwrap_err(), "Cannot drop this stash: gone");
    assert!(drop_stash(Ok(())).is_ok() && stash_changes(Ok(())).is_ok());
}

#[test]
fn a_stash_is_restored_only_over_committed_work() {
    let busy = "Cannot restore a stash while another Git operation or conflict resolution is in progress. Finish or abort it first.";
    assert_eq!(pop_stash(RepositoryState::Merge, Some(false), Ok(Vec::new())).err().unwrap(), busy);
    assert_eq!(pop_stash(RepositoryState::Clean, Some(true), Ok(Vec::new())).err().unwrap(), busy);
    assert_eq!(pop_stash(RepositoryState::Clean, None, Ok(Vec::new())).err().unwrap(), busy);
    assert_eq!(pop_stash(RepositoryState::Clean, Some(false), Err(s("odd"))).err().unwrap(), "odd");
    assert!(pop_stash(RepositoryState::Clean, Some(false), Ok(Vec::new())).is_ok());
    let dirty = |count: usize| -> Vec<DirtyFile> {
        (0..count).map(|n| DirtyFile { path: format!("f{n}"), status: s("M") }).collect()
    };
    assert_eq!(
        pop_stash(RepositoryState::Clean, Some(false), Ok(dirty(1))).err().unwrap(),
        "Cannot restore the complete stash because this repository already has uncommitted work:\nM f0\n\nCommit or stash the current work first, or restore only selected clean files. Nothing was changed."
    );
    assert_eq!(
        pop_stash(RepositoryState::Clean, Some(false), Ok(dirty(7))).err().unwrap(),
        "Cannot restore the complete stash because this repository already has uncommitted work:\nM f0\nM f1\nM f2\nM f3\nM f4 (+2 more)\n\nCommit or stash the current work first, or restore only selected clean files. Nothing was changed."
    );
}

fn popping() -> PopRun {
    pop_stash(RepositoryState::Clean, Some(false), Ok(Vec::new())).ok().unwrap()
}

#[test]
fn a_stash_with_conflicts_is_kept() {
    let mut run = popping();
    run.applied(Ok(()));
    run.conflicts_checked(Some(true));
    assert!(matches!(run.step, PopStep::Done { result: Ok(()) }));
    assert!(!run.applied_cleanly);
    let mut run = popping();
    run.applied(Ok(()));
    run.conflicts_checked(None);
    assert!(matches!(run.step, PopStep::Drop));
    run.dropped(Err(s("gone")));
    assert!(matches!(&run.step, PopStep::Done { result: Err(e) } if e == "Restored, but could not drop the stash entry: gone"));
    let mut run = popping();
    run.applied(Err(s("no")));
    assert!(matches!(&run.step, PopStep::Done { result: Err(e) } if e == "Cannot restore stashed work: no"));
}

#[test]
fn the_files_of_a_stash_are_sorted() {
    let changed = |new: Option<&str>, old: Option<&str>| ChangedFile {
        new_path: new.map(String::from),
        old_path: old.map(String::from),
    };
    let files = vec![
        changed(Some("z"), Some("y")),
        changed(None, Some("a")),
        changed(None, None),
        changed(Some("a"), None),
    ];
    assert_eq!(stash_entry_files(&files), vec!["a", "z"]);
    let stashes = vec![
        StashObject { index: 0, oid: s("abc") },
        StashObject { index: 1, oid: s("def") },
    ];
    assert_eq!(find_stash(&stashes, 1).unwrap(), "def");
    assert_eq!(find_stash(&stashes, 2).unwrap_err(), "That stash entry no longer exists");
}

#[test]
fn single_files_are_restored_without_overwriting() {
    let selected = select_paths(vec![Ok(s("b")), Ok(s("a")), Ok(s("b"))]).unwrap();
    assert_eq!(selected, vec!["a", "b"]);
    assert_eq!(select_paths(Vec::new()).unwrap_err(), "Select at least one file to restore");
    assert_eq!(select_paths(vec![Ok(s("a")), Err(s("outside")), Err(s("later"))]).unwrap_err(), "outside");

    let files = vec![s("b"), s("x")];
    assert_eq!(
        check_in_stash(&selected, &files).unwrap_err(),
        "The selected path is not present in this stash: a"
    );
    assert_eq!(
        check_in_stash(&selected, &vec![s("x")]).unwrap_err(),
        "The selected path is not present in this stash: a, b"
    );
    assert!(check_in_stash(&selected, &selected).is_ok());
    assert!(check_restore_state(RepositoryState::Clean, Some(false)).is_ok());
    assert_eq!(
        check_restore_state(RepositoryState::Clean, None).unwrap_err(),
        "Cannot restore a stash file while another Git operation or conflict resolution is in progress."
    );
    assert!(check_selected_clean(&selected, &vec![s("x")]).is_ok());
    assert_eq!(
        check_selected_clean(&selected, &files).unwrap_err(),
        "Cannot restore because the selected path already has uncommitted work: b. Commit, stash, or discard that current work first; it will not be overwritten."
    );
}

fn picked(path: &str, saved_untracked: bool, on_disk: bool) -> SelectedPath {
    SelectedPath { path: s(path), saved_untracked, on_disk }
}

/// A restore of the paths that were picked, up to where they are written.
fn restoring(list: Vec<SelectedPath>) -> RestoreRun {
    let paths: Vec<String> = list.iter().map(|picked| picked.path.clone()).collect();
    let mut run = restore_stash_paths(paths.iter().map(|path| Ok(path.clone())).collect(), 1).ok().unwrap();
    run.files_listed(Ok(paths));
    run.state_checked(RepositoryState::Clean, Some(false));
    run.changed_listed(Ok(vec![s("elsewhere")]));
    run.stashes_listed(Ok(vec![
        StashObject { index: 0, oid: s("000") },
        StashObject { index: 1, oid: s("abc") },
    ]));
    run.paths_located(Ok(list));
    run
}

fn restore_failure(run: &RestoreRun) -> String {
    match &run.step {
        RestoreStep::Done { result: Err(error) } => error.clone(),
        _ => panic!("the restore has not failed"),
    }
}

#[test]
fn files_are_written_only_after_every_check() {
    assert_eq!(restore_stash_paths(Vec::new(), 0).err().unwrap(), "Select at least one file to restore");
    let begin = || restore_stash_paths(vec![Ok(s("b")), Ok(s("a"))], 1).ok().unwrap();
    let mut run = begin();
    assert_eq!(run.selected, vec!["a", "b"]);
    run.files_listed(Err(s("odd")));
    assert_eq!(restore_failure(&run), "odd");
    let mut run = begin();
    run.files_listed(Ok(vec![s("a")]));
    assert_eq!(restore_failure(&run), "The selected path is not present in this stash: b");
    let listed = || {
        let mut run = begin();
        run.files_listed(Ok(vec![s("a"), s("b")]));
        run
    };
    let mut run = listed();
    run.state_checked(RepositoryState::Merge, Some(false));
    assert_eq!(
        restore_failure(&run),
        "Cannot restore a stash file while another Git operation or conflict resolution is in progress."
    );
    let mut run = listed();
    run.state_checked(RepositoryState::Clean, Some(false));
    run.changed_listed(Ok(vec![s("a")]));
    assert_eq!(
        restore_failure(&run),
        "Cannot restore because the selected path already has uncommitted work: a. Commit, stash, or discard that current work first; it will not be overwritten."
    );
    let mut run = listed();
    run.state_checked(RepositoryState::Clean, Some(false));
    run.changed_listed(Ok(Vec::new()));
    run.stashes_listed(Ok(vec![StashObject { index: 0, oid: s("000") }]));
    assert_eq!(restore_failure(&run), "That stash entry no longer exists");
}

#[test]
fn tracked_and_untracked_files_are_restored_apart() {
    let mut run = restoring(vec![picked("a", false, true), picked("b", true, false), picked("c", false, false)]);
    assert!(matches!(&run.step, RestoreStep::RestoreTracked { args } if args.join(" ") == "restore --source=abc --worktree -- a c"));
    run.tracked_restored(Ok(()));
    assert!(matches!(run.step, RestoreStep::FindUntracked));
    run.untracked_found(Ok(Some(s("def"))));
    assert!(matches!(&run.step, RestoreStep::RestoreUntracked { args } if args.join(" ") == "restore --source=def --worktree -- b"));
    run.untracked_restored(Ok(()));
    assert!(matches!(run.step, RestoreStep::Done { result: Ok(()) }));

    assert_eq!(
        restore_failure(&restoring(vec![picked("a", false, true), picked("b", true, true)])),
        "Cannot restore 'b' because a file already exists there. The stash was kept unchanged."
    );
    let mut run = restoring(vec![picked("b", true, false)]);
    assert!(matches!(run.step, RestoreStep::FindUntracked));
    run.untracked_found(Ok(None));
    assert_eq!(restore_failure(&run), "This stash has no saved untracked-file snapshot");
    let mut run = restoring(vec![picked("a", false, false)]);
    run.tracked_restored(Err(s("no")));
    assert_eq!(restore_failure(&run), "Cannot restore the selected tracked file(s): no");
    let mut run = restoring(vec![picked("b", true, false)]);
    run.untracked_found(Ok(Some(s("def"))));
    run.untracked_restored(Err(s("no")));
    assert_eq!(restore_failure(&run), "Cannot restore the selected untracked file(s): no");
    let mut run = restoring(vec![picked("a", false, false)]);
    run.tracked_restored(Ok(()));
    assert!(matches!(run.step, RestoreStep::Done { result: Ok(()) }));
}
