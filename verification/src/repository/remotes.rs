//! Remote repositories: listing, fetching, pulling and pushing.
use crate::pieces;
use crate::repository::branches;
use crate::text;
use vstd::prelude::*;
use vstd::string::*;

verus! {

/// A remote repository.
pub struct RemoteInfo {
    pub name: String,
    pub fetch_url: String,
    pub push_url: String,
}

/// A remote repository as it was found.
pub struct FoundRemote {
    pub name: String,
    pub url: Option<String>,
    pub push_url: Option<String>,
}

/// An optional text, or nothing at all.
pub open spec fn or_blank(text: Option<String>) -> Seq<char> {
    match text {
        Some(t) => t@,
        None => ""@,
    }
}

fn text_or_blank(text: &Option<String>) -> (r: String)
    ensures
        r@ == or_blank(*text),
{
    match text {
        Some(t) => t.clone(),
        None => "".to_owned(),
    }
}

/// Whether a listed remote is the one that was found. Where no address for pushing is set, it is the one
/// that is fetched from.
pub open spec fn lists_remote(info: RemoteInfo, found: FoundRemote) -> bool {
    &&& info.name@ == found.name@
    &&& info.fetch_url@ == or_blank(found.url)
    &&& info.push_url@ == match found.push_url {
        Some(url) => url@,
        None => or_blank(found.url),
    }
}

/// Lists the remotes that were found, in order.
pub fn list_remotes(found: &Vec<FoundRemote>) -> (r: Vec<RemoteInfo>)
    ensures
        r@.len() == found@.len(),
        forall|i: int| 0 <= i < r@.len() ==> lists_remote(#[trigger] r@[i], found@[i]),
{
    let mut r: Vec<RemoteInfo> = Vec::new();
    for n in 0..found.len()
        invariant
            r@.len() == n,
            forall|i: int| 0 <= i < n ==> lists_remote(#[trigger] r@[i], found@[i]),
    {
        let remote: &FoundRemote = &found[n];
        let push_url: String = match &remote.push_url {
            Some(url) => url.clone(),
            None => text_or_blank(&remote.url),
        };
        r.push(RemoteInfo { name: remote.name.clone(), fetch_url: text_or_blank(&remote.url), push_url });
    }
    r
}

// Fetching.

/// The command that fetches from one remote.
pub open spec fn fetch_command(remote: Seq<char>) -> Seq<Seq<char>> {
    seq!["fetch"@, text::trimmed(remote)]
}

/// The command that fetches from every remote.
pub open spec fn fetch_all_command() -> Seq<Seq<char>> {
    seq!["fetch"@, "--all"@]
}

/// What is answered after a fetch.
pub open spec fn fetch_answer(outcome: Result<(), Seq<char>>) -> Result<(), Seq<char>> {
    match outcome {
        Ok(_) => Ok(()),
        Err(detail) => Err("Fetch failed: "@ + detail),
    }
}

fn answer_fetch(outcome: Result<(), String>) -> (r: Result<(), String>)
    ensures
        text::unit_view(r) == fetch_answer(text::unit_view(outcome)),
{
    match outcome {
        Ok(_) => Ok(()),
        Err(detail) => {
            let mut message: String = "Fetch failed: ".to_owned();
            message.append(detail.as_str());
            Err(message)
        },
    }
}

/// Fetches from one remote, which must be known. `known` looks the remote up and `run` runs Git, which is allowed
/// only for the one command and only after the remote was found.
pub fn fetch_remote<Known: FnOnce(&str) -> Result<(), String>, Run: FnOnce(&Vec<String>) -> Result<(), String>>(
    remote: &str,
    known: Known,
    run: Run,
) -> (r: Result<(), String>)
    requires
        forall|name: &str| name@ == text::trimmed(remote@) ==> #[trigger] known.requires((name,)),
        forall|name: &str, found: Result<(), String>, args: &Vec<String>|
            #![trigger known.ensures((name,), found), run.requires((args,))]
            known.ensures((name,), found) && found is Ok && name@ == text::trimmed(remote@) && text::texts_view(args@)
                == fetch_command(remote@) ==> run.requires((args,)),
    ensures
        exists|name: &str, found: Result<(), String>| #[trigger]
            known.ensures((name,), found) && name@ == text::trimmed(remote@) && match found {
                Err(error) => r matches Err(e) && e@ == error@,
                Ok(_) => exists|args: &Vec<String>, outcome: Result<(), String>| #[trigger]
                    run.ensures((args,), outcome) && text::texts_view(args@) == fetch_command(remote@)
                        && text::unit_view(r) == fetch_answer(text::unit_view(outcome)),
            },
{
    let trimmed: String = text::trim(remote);
    let name: &str = trimmed.as_str();
    let found: Result<(), String> = known(name);
    assert(known.ensures((name,), found));
    match found {
        Err(error) => Err(error),
        Ok(_) => {
            let list: Vec<String> = text::texts_of(&["fetch", name]);
            let args: &Vec<String> = &list;
            assert(text::texts_view(args@) =~= fetch_command(remote@));
            let outcome: Result<(), String> = run(args);
            assert(run.ensures((args,), outcome));
            answer_fetch(outcome)
        },
    }
}

/// Fetches from every remote. `run` runs Git.
pub fn fetch_all_remotes_inner<Run: FnOnce(&Vec<String>) -> Result<(), String>>(run: Run) -> (r: Result<(), String>)
    requires
        forall|args: &Vec<String>|
            text::texts_view(args@) == fetch_all_command() ==> #[trigger] run.requires((args,)),
    ensures
        exists|args: &Vec<String>, outcome: Result<(), String>| #[trigger]
            run.ensures((args,), outcome) && text::texts_view(args@) == fetch_all_command() && text::unit_view(r)
                == fetch_answer(text::unit_view(outcome)),
{
    let list: Vec<String> = text::texts_of(&["fetch", "--all"]);
    let args: &Vec<String> = &list;
    assert(text::texts_view(args@) =~= fetch_all_command());
    let outcome: Result<(), String> = run(args);
    assert(run.ensures((args,), outcome));
    answer_fetch(outcome)
}

// Pulling and pushing.

/// What a synchronization works on.
pub struct SyncTarget {
    pub branch: Seq<char>,
    pub remote: Seq<char>,
    pub remote_branch: Seq<char>,
}

/// What is answered before a synchronization. `upstream` is nothing where the branch has none, and its name
/// is nothing where it is not text.
pub open spec fn sync_target(branch: Option<Seq<char>>, upstream: Option<Option<Seq<char>>>) -> Result<
    SyncTarget,
    Seq<char>,
> {
    match branch {
        None => Err("Detached HEAD cannot be synchronized"@),
        Some(branch) => match upstream {
            None => Err("The current branch has no upstream"@),
            Some(None) => Err("Invalid upstream"@),
            Some(Some(name)) => match pieces::split_once_at(name, '/') {
                None => Err("Invalid upstream branch"@),
                Some((remote, remote_branch)) => Ok(SyncTarget { branch, remote, remote_branch }),
            },
        },
    }
}

/// What a synchronization does next.
pub enum SyncStep {
    /// Fetch from the remote.
    Fetch,
    /// Find the commit that the remote branch of this full name points at.
    FindTarget { reference: String },
    /// Find out how that commit relates to the branch.
    Analyse,
    /// Let the branch of this full name point at that commit.
    MoveBranch { reference: String },
    /// Let the head name the branch of this full name.
    MoveHead { reference: String },
    /// Put the files of the head into the work tree, unless that would lose work.
    CheckoutHead,
    /// Look the remote up.
    FindRemote,
    /// Run Git with these arguments.
    Push { args: Vec<String> },
    /// Nothing more.
    Done { result: Result<(), String> },
}

/// A synchronization of the current branch with its upstream.
pub struct SyncRun {
    pub branch: String,
    pub remote: String,
    pub remote_branch: String,
    pub step: SyncStep,
    /// Whether the remote branch was found to hold all of the branch and more.
    pub fast_forward: bool,
}

/// The command that pushes a branch.
pub open spec fn push_command(target: SyncTarget) -> Seq<Seq<char>> {
    seq!["push"@, target.remote, target.branch + ":refs/heads/"@ + target.remote_branch]
}

impl SyncRun {
    /// What the synchronization works on.
    pub open spec fn target(&self) -> SyncTarget {
        SyncTarget { branch: self.branch@, remote: self.remote@, remote_branch: self.remote_branch@ }
    }

    /// The branch is moved only forward: where the remote branch holds all of it.
    pub open spec fn wf(&self) -> bool {
        match self.step {
            SyncStep::MoveBranch { reference } => self.fast_forward && reference@ == branches::local_reference(
                self.branch@,
            ),
            SyncStep::MoveHead { reference } => self.fast_forward && reference@ == branches::local_reference(
                self.branch@,
            ),
            SyncStep::CheckoutHead => self.fast_forward,
            SyncStep::Fetch | SyncStep::FindTarget { .. } | SyncStep::Analyse => !self.fast_forward,
            SyncStep::FindRemote | SyncStep::Push { .. } => !self.fast_forward,
            SyncStep::Done { .. } => true,
        }
    }

    /// Whether it has ended with this message.
    pub open spec fn failed(&self, message: Seq<char>) -> bool {
        self.step matches SyncStep::Done { result } && text::unit_view(result) == Err::<(), Seq<char>>(message)
    }

    /// Whether it has ended well.
    pub open spec fn succeeded(&self) -> bool {
        self.step matches SyncStep::Done { result } && result is Ok
    }

    fn fail(&mut self, message: String)
        ensures
            final(self).wf(),
            final(self).target() == old(self).target(),
            final(self).fast_forward == old(self).fast_forward,
            final(self).failed(message@),
    {
        self.step = SyncStep::Done { result: Err(message) };
    }

    /// Goes on after the remote was fetched from.
    pub fn fetched(&mut self, outcome: Result<(), String>)
        requires
            old(self).wf(),
            old(self).step is Fetch,
        ensures
            final(self).wf(),
            final(self).target() == old(self).target(),
            final(self).fast_forward == old(self).fast_forward,
            match outcome {
                Err(error) => final(self).failed(error@),
                Ok(_) => final(self).step matches SyncStep::FindTarget { reference } && reference@
                    == "refs/remotes/"@ + old(self).remote@ + "/"@ + old(self).remote_branch@,
            },
    {
        match outcome {
            Err(error) => {
                self.fail(error);
            },
            Ok(_) => {
                let mut reference: String = text::framed("refs/remotes/", self.remote.as_str(), "/");
                reference.append(self.remote_branch.as_str());
                self.step = SyncStep::FindTarget { reference };
            },
        }
    }

    /// Goes on after the commit of the remote branch was to be found; `found` says whether it points at one.
    pub fn target_found(&mut self, found: Result<bool, String>)
        requires
            old(self).wf(),
            old(self).step is FindTarget,
        ensures
            final(self).wf(),
            final(self).target() == old(self).target(),
            final(self).fast_forward == old(self).fast_forward,
            match found {
                Err(error) => final(self).failed(error@),
                Ok(false) => final(self).failed("Remote branch has no target"@),
                Ok(true) => final(self).step is Analyse,
            },
    {
        match found {
            Err(error) => {
                self.fail(error);
            },
            Ok(false) => {
                self.fail("Remote branch has no target".to_owned());
            },
            Ok(true) => {
                self.step = SyncStep::Analyse;
            },
        }
    }

    /// Goes on once it is known how the commit relates to the branch: whether it holds all of the branch and
    /// more, and whether the branch holds all of it.
    pub fn analysed(&mut self, analysis: Result<(bool, bool), String>)
        requires
            old(self).wf(),
            old(self).step is Analyse,
        ensures
            final(self).wf(),
            final(self).target() == old(self).target(),
            final(self).fast_forward == (analysis is Ok && (analysis->Ok_0).0),
            match analysis {
                Err(error) => final(self).failed(error@),
                Ok((fast_forward, up_to_date)) => if fast_forward {
                    final(self).step is MoveBranch
                } else if up_to_date {
                    final(self).succeeded()
                } else {
                    final(self).failed("Pull requires a merge; only fast-forward pull is allowed"@)
                },
            },
    {
        match analysis {
            Err(error) => {
                self.fail(error);
            },
            Ok((fast_forward, up_to_date)) => {
                if !fast_forward && !up_to_date {
                    self.fail("Pull requires a merge; only fast-forward pull is allowed".to_owned());
                } else if fast_forward {
                    self.fast_forward = true;
                    let reference: String = branches::branch_reference(self.branch.as_str());
                    self.step = SyncStep::MoveBranch { reference };
                } else {
                    self.step = SyncStep::Done { result: Ok(()) };
                }
            },
        }
    }

    /// Goes on after the branch was to be moved.
    pub fn branch_moved(&mut self, outcome: Result<(), String>)
        requires
            old(self).wf(),
            old(self).step is MoveBranch,
        ensures
            final(self).wf(),
            final(self).target() == old(self).target(),
            final(self).fast_forward == old(self).fast_forward,
            match outcome {
                Err(error) => final(self).failed(error@),
                Ok(_) => final(self).step is MoveHead,
            },
    {
        match outcome {
            Err(error) => {
                self.fail(error);
            },
            Ok(_) => {
                let reference: String = branches::branch_reference(self.branch.as_str());
                self.step = SyncStep::MoveHead { reference };
            },
        }
    }

    /// Goes on after the head was to be moved.
    pub fn head_moved(&mut self, outcome: Result<(), String>)
        requires
            old(self).wf(),
            old(self).step is MoveHead,
        ensures
            final(self).wf(),
            final(self).target() == old(self).target(),
            final(self).fast_forward == old(self).fast_forward,
            match outcome {
                Err(error) => final(self).failed(error@),
                Ok(_) => final(self).step is CheckoutHead,
            },
    {
        match outcome {
            Err(error) => {
                self.fail(error);
            },
            Ok(_) => {
                self.step = SyncStep::CheckoutHead;
            },
        }
    }

    /// Goes on after the files of the head were to be put into the work tree.
    pub fn head_checked_out(&mut self, outcome: Result<(), String>)
        requires
            old(self).wf(),
            old(self).step is CheckoutHead,
        ensures
            final(self).wf(),
            final(self).target() == old(self).target(),
            final(self).fast_forward == old(self).fast_forward,
            match outcome {
                Err(error) => final(self).failed(error@),
                Ok(_) => final(self).succeeded(),
            },
    {
        self.step = SyncStep::Done { result: outcome };
    }

    /// Goes on after the remote was to be looked up.
    pub fn remote_found(&mut self, found: Result<(), String>)
        requires
            old(self).wf(),
            old(self).step is FindRemote,
        ensures
            final(self).wf(),
            final(self).target() == old(self).target(),
            final(self).fast_forward == old(self).fast_forward,
            match found {
                Err(error) => final(self).failed(error@),
                Ok(_) => final(self).step matches SyncStep::Push { args } && text::texts_view(args@)
                    == push_command(old(self).target()),
            },
    {
        match found {
            Err(error) => {
                self.fail(error);
            },
            Ok(_) => {
                let refspec: String = text::framed(
                    self.branch.as_str(),
                    ":refs/heads/",
                    self.remote_branch.as_str(),
                );
                let args: Vec<String> = text::texts_of(&["push", self.remote.as_str(), refspec.as_str()]);
                assert(text::texts_view(args@) =~= push_command(self.target()));
                self.step = SyncStep::Push { args };
            },
        }
    }

    /// Goes on after the push has run.
    pub fn pushed(&mut self, outcome: Result<(), String>)
        requires
            old(self).wf(),
            old(self).step is Push,
        ensures
            final(self).wf(),
            final(self).target() == old(self).target(),
            final(self).fast_forward == old(self).fast_forward,
            match outcome {
                Err(detail) => final(self).failed("Push failed: "@ + detail@),
                Ok(_) => final(self).succeeded(),
            },
    {
        match outcome {
            Err(detail) => {
                let mut message: String = "Push failed: ".to_owned();
                message.append(detail.as_str());
                self.fail(message);
            },
            Ok(_) => {
                self.step = SyncStep::Done { result: Ok(()) };
            },
        }
    }
}

/// The characters of an upstream's name.
pub open spec fn upstream_view(upstream: Option<Option<String>>) -> Option<Option<Seq<char>>> {
    match upstream {
        Some(name) => Some(text::opt_view(name)),
        None => None,
    }
}

/// Begins to synchronize the current branch with its upstream.
pub fn sync_repository_inner(branch: Option<String>, upstream: Option<Option<String>>, action: &str) -> (r: Result<
    SyncRun,
    String,
>)
    ensures
        match sync_target(text::opt_view(branch), upstream_view(upstream)) {
            Err(message) => r matches Err(e) && e@ == message,
            Ok(target) => if action@ == "pull"@ {
                r matches Ok(run) && run.wf() && run.target() == target && run.step is Fetch
            } else if action@ == "push"@ {
                r matches Ok(run) && run.wf() && run.target() == target && run.step is FindRemote
            } else {
                r matches Err(e) && e@ == "Unsupported synchronization action"@
            },
        },
{
    let branch: String = match branch {
        Some(branch) => branch,
        None => {
            return Err("Detached HEAD cannot be synchronized".to_owned());
        },
    };
    let name: String = match upstream {
        Some(Some(name)) => name,
        Some(None) => {
            return Err("Invalid upstream".to_owned());
        },
        None => {
            return Err("The current branch has no upstream".to_owned());
        },
    };
    let (remote, remote_branch): (String, String) = match pieces::split_once(name.as_str(), '/') {
        Some(parts) => parts,
        None => {
            return Err("Invalid upstream branch".to_owned());
        },
    };
    proof {
        reveal_strlit("pull");
        reveal_strlit("push");
        assert("pull"@[2] == 'l' && "push"@[2] == 's');
    }
    if text::same_text(action, "pull") {
        Ok(SyncRun { branch, remote, remote_branch, step: SyncStep::Fetch, fast_forward: false })
    } else if text::same_text(action, "push") {
        Ok(SyncRun { branch, remote, remote_branch, step: SyncStep::FindRemote, fast_forward: false })
    } else {
        Err("Unsupported synchronization action".to_owned())
    }
}

/// A pull moves the branch only where the remote branch was found to hold all of it.
pub proof fn law_pull_only_moves_forward(run: SyncRun)
    requires
        run.wf(),
        run.step is MoveBranch || run.step is MoveHead || run.step is CheckoutHead,
    ensures
        run.fast_forward,
{
}

/// A remote is listed under its own name, with the address that it is fetched from and the one that it is pushed to:
/// where none is set for pushing, both are the same; where none is set at all, both are blank.
pub proof fn law_remotes_are_listed_as_they_are(found: &Vec<FoundRemote>, r: Vec<RemoteInfo>, i: int)
    requires
        call_ensures(list_remotes, (found,), r),
        0 <= i < found@.len(),
    ensures
        r@.len() == found@.len(),
        r@[i].name@ == found@[i].name@,
        found@[i].url is Some ==> r@[i].fetch_url@ == found@[i].url->0@,
        found@[i].url is None ==> r@[i].fetch_url@.len() == 0,
        found@[i].push_url is Some ==> r@[i].push_url@ == found@[i].push_url->0@,
        found@[i].push_url is None ==> r@[i].push_url@ == r@[i].fetch_url@,
{
    reveal_strlit("");
    assert(lists_remote(r@[i], found@[i]));
}

/// A fetch names the remote exactly as it was typed between the white space around it; every remote is fetched from with
/// one command; a failure is reported with what Git said.
pub proof fn law_fetches_name_the_remote_as_typed(
    typed: Seq<char>,
    lead: Seq<char>,
    name: Seq<char>,
    tail: Seq<char>,
    detail: Seq<char>,
)
    requires
        typed == lead + name + tail,
        text::is_blank(lead),
        text::is_tight(name),
        text::is_blank(tail),
    ensures
        fetch_command(typed).len() == 2,
        fetch_command(typed)[0] == "fetch"@,
        fetch_command(typed)[1] == name,
        fetch_all_command().len() == 2,
        fetch_all_command()[0] == "fetch"@,
        fetch_all_command()[1] == "--all"@,
        fetch_answer(Ok(())) is Ok,
        fetch_answer(Err(detail)) == Err::<(), Seq<char>>("Fetch failed: "@ + detail),
{
    text::lemma_trimmed_of_padded(lead, name, tail);
}

/// A pull looks for the remote branch under the whole name of the upstream, and a push sends the branch to the upstream's
/// branch: what stands before the first `/` is the remote, and everything behind it is the branch there, whatever it holds.
pub proof fn law_synchronization_follows_the_upstream(
    branch: String,
    upstream: String,
    action: &str,
    remote: Seq<char>,
    rest: Seq<char>,
    r: Result<SyncRun, String>,
    run: &mut SyncRun,
)
    requires
        upstream@ == remote + seq!['/'] + rest,
        !remote.contains('/'),
        call_ensures(sync_repository_inner, (Some(branch), Some(Some(upstream)), action), r),
        r is Ok ==> *old(run) == r->Ok_0,
    ensures
        r is Ok <==> action@ == "pull"@ || action@ == "push"@,
        r is Err ==> (r->Err_0)@ == "Unsupported synchronization action"@,
        r matches Ok(begun) ==> begun.branch@ == branch@ && begun.remote@ == remote && begun.remote_branch@ == rest,
        action@ == "pull"@ ==> (r matches Ok(begun) && begun.step is Fetch),
        action@ == "push"@ ==> (r matches Ok(begun) && begun.step is FindRemote),
        action@ == "pull"@ && call_ensures(SyncRun::fetched, (run, Ok(())), ()) ==> (final(run).step matches
            SyncStep::FindTarget { reference } && reference@ == "refs/remotes/"@ + upstream@),
        action@ == "push"@ && call_ensures(SyncRun::remote_found, (run, Ok(())), ()) ==> (final(run).step matches
            SyncStep::Push { args } && args@.len() == 3 && args@[0]@ == "push"@ && args@[1]@ == remote && args@[2]@
            == branch@ + ":refs/heads/"@ + rest),
{
    pieces::lemma_position_of_first(remote, '/', rest);
    assert(upstream@.take(remote.len() as int) =~= remote);
    assert(upstream@.skip(remote.len() as int + 1) =~= rest);
    reveal_strlit("pull");
    reveal_strlit("push");
    assert("pull"@[2] == 'l' && "push"@[2] == 's');
    reveal_strlit("/");
    assert("/"@ =~= seq!['/']);
    if action@ == "pull"@ && call_ensures(SyncRun::fetched, (run, Ok(())), ()) {
        assert("refs/remotes/"@ + remote + "/"@ + rest =~= "refs/remotes/"@ + upstream@);
    }
    if action@ == "push"@ && call_ensures(SyncRun::remote_found, (run, Ok(())), ()) {
        if let SyncStep::Push { args } = final(run).step {
            let view = text::texts_view(args@);
            assert(view.len() == args@.len());
            assert(view[0] == args@[0]@);
            assert(view[1] == args@[1]@);
            assert(view[2] == args@[2]@);
        }
    }
}

/// Without a branch, without an upstream, with one whose name is no text and with one without `/` nothing is synchronized.
pub proof fn law_synchronization_needs_an_upstream(
    branch: Option<String>,
    upstream: Option<Option<String>>,
    action: &str,
    r: Result<SyncRun, String>,
)
    requires
        call_ensures(sync_repository_inner, (branch, upstream, action), r),
    ensures
        branch is None ==> (r matches Err(e) && e@ == "Detached HEAD cannot be synchronized"@),
        branch is Some && upstream is None ==> (r matches Err(e) && e@ == "The current branch has no upstream"@),
        branch is Some && upstream == Some(None::<String>) ==> (r matches Err(e) && e@ == "Invalid upstream"@),
        branch is Some && (upstream matches Some(Some(name)) && !name@.contains('/')) ==> (r matches Err(e) && e@
            == "Invalid upstream branch"@),
{
    if let Some(Some(name)) = upstream {
        if !name@.contains('/') {
            pieces::lemma_position(name@, '/');
        }
    }
}

/// A pull goes on by how the remote branch relates to the current one: it moves the current branch where the remote one
/// holds all of it and more, does nothing where the current one holds all of the remote one, and is refused otherwise.
pub proof fn law_a_pull_is_a_fast_forward_or_nothing(run: &mut SyncRun, ahead: bool, up_to_date: bool)
    requires
        old(run).wf(),
        old(run).step is Analyse,
        call_ensures(SyncRun::analysed, (run, Ok((ahead, up_to_date))), ()),
    ensures
        final(run).branch@ == old(run).branch@,
        ahead ==> (final(run).step matches SyncStep::MoveBranch { reference } && reference@ == "refs/heads/"@
            + old(run).branch@),
        !ahead && up_to_date ==> (final(run).step matches SyncStep::Done { result } && result is Ok),
        !ahead && !up_to_date ==> (final(run).step matches SyncStep::Done { result } && result matches Err(e) && e@
            == "Pull requires a merge; only fast-forward pull is allowed"@),
{
    assert(final(run).target().branch == old(run).target().branch);
}

/// Once the branch was moved the head names it, its files are checked out, and then the pull has succeeded; a failure
/// on the way ends it with what was reported.
pub proof fn law_a_pull_ends_with_its_files(
    a: &mut SyncRun,
    b: &mut SyncRun,
    c: &mut SyncRun,
    moved: Result<(), String>,
    named: Result<(), String>,
    checked_out: Result<(), String>,
)
    requires
        old(a).wf(),
        old(a).step is MoveBranch,
        call_ensures(SyncRun::branch_moved, (a, moved), ()),
        moved is Ok ==> *old(b) == *final(a) && call_ensures(SyncRun::head_moved, (b, named), ()),
        moved is Ok && named is Ok ==> *old(c) == *final(b) && call_ensures(SyncRun::head_checked_out, (c, checked_out), ()),
    ensures
        moved matches Err(e) ==> (final(a).step matches SyncStep::Done { result } && result matches Err(m) && m@ == e@),
        moved is Ok ==> (final(a).step matches SyncStep::MoveHead { reference } && reference@ == "refs/heads/"@
            + old(a).branch@),
        moved is Ok && named is Err ==> (final(b).step matches SyncStep::Done { result } && result matches Err(m) && m@
            == (named->Err_0)@),
        moved is Ok && named is Ok && checked_out is Err ==> (final(c).step matches SyncStep::Done { result }
            && result matches Err(m) && m@ == (checked_out->Err_0)@),
        moved is Ok && named is Ok && checked_out is Ok ==> (final(c).step matches SyncStep::Done { result }
            && result is Ok),
{
    assert(final(a).target().branch == old(a).target().branch);
}

/// A push succeeds with Git's and fails with what Git said.
pub proof fn law_a_push_ends_as_git_does(run: &mut SyncRun, outcome: Result<(), String>)
    requires
        old(run).wf(),
        old(run).step is Push,
        call_ensures(SyncRun::pushed, (run, outcome), ()),
    ensures
        outcome is Ok ==> (final(run).step matches SyncStep::Done { result } && result is Ok),
        outcome matches Err(detail) ==> (final(run).step matches SyncStep::Done { result } && result matches Err(e) && e@
            == "Push failed: "@ + detail@),
{
}

} // verus!
