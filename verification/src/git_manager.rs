//! The acquisition of a repository.
//!
//! [`GitManager`] knows what the acquisition needs: the address with the
//! credentials in it, and where the working copy lies. [`GitSession`] is the
//! acquisition itself, as a state machine: it asks its caller to create a
//! directory, to write a file or to run `git`, and decides from the outcome
//! what is done next. A working copy that exists is brought up to date; one
//! that does not is made, with a sparse checkout of the pipeline files.
//!
//! Paths are texts whose components are separated by `/`.

use crate::config::Credentials;
use crate::error::{Error, ErrorModel};
use crate::text::{
    chars_of, first_index_of, index_of_char, push_all, push_replaced, push_str, replace_all, split,
    split_spans, string_from, string_of, strip_prefix_all, strip_prefix_bounds, strip_suffix_all,
    strip_suffix_bounds, trim, trim_bounds, Span,
};
use vstd::prelude::*;
use vstd::string::StringExecFns;

verus! {

/// The acquisition of one repository.
pub struct GitManager {
    repo_url: String,
    repo_dir: String,
    verbose: bool,
}

/// Where the acquisition of a working copy stands. A new working copy is
/// made from `CreateWorkingCopy` on; an existing one is brought up to date
/// from `CurrentBranch` on.
#[derive(Clone, Copy, Debug, PartialEq, Eq, Structural)]
pub enum GitStage {
    /// The directory of the working copy is to be created.
    CreateWorkingCopy,
    /// An empty repository is to be initialized.
    Init,
    /// Sparse checkout is to be switched on, in a new working copy.
    ConfigureNew,
    /// The directory of the sparse patterns is to be created.
    CreateInfoDir,
    /// The sparse patterns are to be written, in a new working copy.
    WritePatternsNew,
    /// The remote is to be added.
    AddRemote,
    /// A default branch is to be fetched, for a new working copy.
    FetchNew,
    /// The fetched branch is to be checked out as a new branch.
    CheckoutNew,
    /// The name of the current branch is to be asked.
    CurrentBranch,
    /// A default branch is to be fetched, for a detached working copy.
    FetchDetached,
    /// The fetched branch is to be checked out.
    Checkout,
    /// Sparse checkout is to be switched on, in an existing working copy.
    ConfigureExisting,
    /// The sparse patterns are to be written, in an existing working copy.
    WritePatternsExisting,
    /// Local changes are to be reset.
    Reset,
    /// The latest changes are to be pulled.
    Pull,
    /// The working copy is ready.
    Succeeded,
    /// The acquisition has failed.
    Failed,
}

/// What the acquisition asks of its caller. Commands run in the directory of
/// the working copy.
#[derive(Debug)]
pub enum GitAction {
    /// Create this directory and those above it.
    CreateDir(String),
    /// Run `git` with these arguments.
    Run(Vec<String>),
    /// Write this text to the file at this path.
    WriteFile(String, String),
    /// Nothing is left to do.
    Finish,
}

/// What the caller reports of the action that it performed.
#[derive(Debug)]
pub enum GitOutcome {
    /// The action could not be performed at all; the words of the system.
    Unavailable(String),
    /// The action was performed: whether it succeeded, and what it printed.
    Exited { success: bool, output: String },
}

/// The mathematical value of a [`GitAction`].
pub enum GitActionModel {
    CreateDir(Seq<char>),
    Run(Seq<Seq<char>>),
    WriteFile(Seq<char>, Seq<char>),
    Finish,
}

/// The mathematical value of a [`GitOutcome`].
pub enum GitOutcomeModel {
    Unavailable(Seq<char>),
    Exited { success: bool, output: Seq<char> },
}

impl View for GitAction {
    type V = GitActionModel;

    open spec fn view(&self) -> GitActionModel {
        match self {
            GitAction::CreateDir(path) => GitActionModel::CreateDir(path@),
            GitAction::Run(args) => GitActionModel::Run(args.deep_view()),
            GitAction::WriteFile(path, content) => GitActionModel::WriteFile(path@, content@),
            GitAction::Finish => GitActionModel::Finish,
        }
    }
}

impl View for GitOutcome {
    type V = GitOutcomeModel;

    open spec fn view(&self) -> GitOutcomeModel {
        match self {
            GitOutcome::Unavailable(words) => GitOutcomeModel::Unavailable(words@),
            GitOutcome::Exited { success, output } => GitOutcomeModel::Exited {
                success: *success,
                output: output@,
            },
        }
    }
}

/// The acquisition of a working copy, step by step.
pub struct GitSession {
    repo_url: String,
    repo_dir: String,
    repo_name: String,
    stage: GitStage,
    branch: usize,
    failure: Option<Error>,
}

/// The mathematical value of a [`GitSession`].
pub struct GitSessionModel {
    /// The address of the repository, with the credentials in it.
    pub repo_url: Seq<char>,
    /// Where the working copy lies.
    pub repo_dir: Seq<char>,
    /// The name of the working copy, for messages.
    pub repo_name: Seq<char>,
    /// Where the acquisition stands.
    pub stage: GitStage,
    /// The index of the default branch that is fetched or was fetched.
    pub branch: int,
    /// Why the acquisition failed, once it has.
    pub failure: Option<ErrorModel>,
}

/// The branches that are tried, in this order, where none is checked out.
pub open spec fn default_branches() -> Seq<Seq<char>> {
    seq!["develop"@, "main"@, "master"@]
}

/// The patterns of the files that are checked out, one per line.
pub open spec fn sparse_patterns() -> Seq<char> {
    "*.yml\n*.yaml"@
}

/// The last segment of a path, or `unknown` where it is empty.
pub open spec fn display_name(repo_dir: Seq<char>) -> Seq<char> {
    if last_segment(repo_dir).len() == 0 {
        "unknown"@
    } else {
        last_segment(repo_dir)
    }
}

impl GitSessionModel {
    /// The directory that holds the sparse patterns.
    pub open spec fn info_dir(self) -> Seq<char> {
        join_path(join_path(self.repo_dir, ".git"@), "info"@)
    }

    /// The file that holds the sparse patterns.
    pub open spec fn patterns_file(self) -> Seq<char> {
        join_path(self.info_dir(), "sparse-checkout"@)
    }

    /// The default branch that is fetched or was fetched.
    pub open spec fn branch_name(self) -> Seq<char> {
        default_branches()[self.branch]
    }

    /// The index of the branch is one of a default branch.
    pub open spec fn wf(self) -> bool {
        &&& 0 <= self.branch < default_branches().len()
        &&& (self.stage == GitStage::Failed) == (self.failure is Some)
    }

    /// The action whose outcome the acquisition awaits.
    pub open spec fn pending(self) -> GitActionModel {
        match self.stage {
            GitStage::CreateWorkingCopy => GitActionModel::CreateDir(self.repo_dir),
            GitStage::Init => GitActionModel::Run(seq!["init"@]),
            GitStage::ConfigureNew | GitStage::ConfigureExisting => GitActionModel::Run(
                seq!["config"@, "core.sparseCheckout"@, "true"@],
            ),
            GitStage::CreateInfoDir => GitActionModel::CreateDir(self.info_dir()),
            GitStage::WritePatternsNew | GitStage::WritePatternsExisting => GitActionModel::WriteFile(
                self.patterns_file(),
                sparse_patterns(),
            ),
            GitStage::AddRemote => GitActionModel::Run(
                seq!["remote"@, "add"@, "origin"@, self.repo_url],
            ),
            GitStage::FetchNew | GitStage::FetchDetached => GitActionModel::Run(
                seq!["fetch"@, "--depth=1"@, "origin"@, self.branch_name()],
            ),
            GitStage::CheckoutNew => GitActionModel::Run(
                seq!["checkout"@, "-b"@, self.branch_name(), "origin/"@ + self.branch_name()],
            ),
            GitStage::CurrentBranch => GitActionModel::Run(
                seq!["rev-parse"@, "--abbrev-ref"@, "HEAD"@],
            ),
            GitStage::Checkout => GitActionModel::Run(seq!["checkout"@, self.branch_name()]),
            GitStage::Reset => GitActionModel::Run(seq!["reset"@, "--hard"@, "HEAD"@]),
            GitStage::Pull => GitActionModel::Run(seq!["pull"@, "--force"@]),
            GitStage::Succeeded | GitStage::Failed => GitActionModel::Finish,
        }
    }

    /// The acquisition at another stage.
    pub open spec fn at(self, stage: GitStage) -> GitSessionModel {
        GitSessionModel { stage, ..self }
    }

    /// The acquisition, failed for this reason.
    pub open spec fn failed(self, failure: ErrorModel) -> GitSessionModel {
        GitSessionModel { stage: GitStage::Failed, failure: Some(failure), ..self }
    }

    /// The acquisition after an action that must succeed: it moves to `next`,
    /// fails with the words of the system where the action could not be
    /// performed, and with `message` where it did not succeed.
    pub open spec fn after_required(
        self,
        outcome: GitOutcomeModel,
        next: GitStage,
        message: Seq<char>,
    ) -> GitSessionModel {
        match outcome {
            GitOutcomeModel::Unavailable(words) => self.failed(ErrorModel::Io(words)),
            GitOutcomeModel::Exited { success, output } => if success {
                self.at(next)
            } else {
                self.failed(ErrorModel::Git(message))
            },
        }
    }

    /// The acquisition after an attempt to fetch a default branch: it moves
    /// to `next` where the branch was fetched, tries the following branch
    /// where it was not, and fails after the last one.
    pub open spec fn after_fetch(self, outcome: GitOutcomeModel, next: GitStage) -> GitSessionModel {
        if outcome matches GitOutcomeModel::Exited { success: true, .. } {
            self.at(next)
        } else if self.branch + 1 < default_branches().len() {
            GitSessionModel { branch: self.branch + 1, ..self }
        } else {
            self.failed(ErrorModel::Git("No default branch found"@))
        }
    }

    /// The acquisition after the outcome of its pending action.
    pub open spec fn step(self, outcome: GitOutcomeModel) -> GitSessionModel {
        match self.stage {
            GitStage::CreateWorkingCopy => match outcome {
                GitOutcomeModel::Unavailable(words) => self.failed(ErrorModel::Io(words)),
                _ => self.at(GitStage::Init),
            },
            GitStage::Init => self.after_required(
                outcome,
                GitStage::ConfigureNew,
                "Failed to initialize repository"@,
            ),
            GitStage::ConfigureNew => self.after_required(
                outcome,
                GitStage::CreateInfoDir,
                "Failed to configure sparse checkout"@,
            ),
            GitStage::CreateInfoDir => match outcome {
                GitOutcomeModel::Unavailable(words) => self.failed(ErrorModel::Io(words)),
                _ => self.at(GitStage::WritePatternsNew),
            },
            GitStage::WritePatternsNew => match outcome {
                GitOutcomeModel::Unavailable(words) => self.failed(ErrorModel::Io(words)),
                _ => self.at(GitStage::AddRemote),
            },
            GitStage::AddRemote => self.after_required(
                outcome,
                GitStage::FetchNew,
                "Failed to add remote"@,
            ),
            GitStage::FetchNew => self.after_fetch(outcome, GitStage::CheckoutNew),
            GitStage::CheckoutNew => match outcome {
                GitOutcomeModel::Unavailable(words) => self.failed(ErrorModel::Io(words)),
                _ => self.at(GitStage::Succeeded),
            },
            GitStage::CurrentBranch => match outcome {
                GitOutcomeModel::Unavailable(words) => self.failed(ErrorModel::Io(words)),
                GitOutcomeModel::Exited { success, output } => if trim(output) == "HEAD"@ {
                    self.at(GitStage::FetchDetached)
                } else {
                    self.at(GitStage::ConfigureExisting)
                },
            },
            GitStage::FetchDetached => self.after_fetch(outcome, GitStage::Checkout),
            GitStage::Checkout => self.after_required(
                outcome,
                GitStage::ConfigureExisting,
                "Branch "@ + self.branch_name() + " not found"@,
            ),
            GitStage::ConfigureExisting => self.after_required(
                outcome,
                GitStage::WritePatternsExisting,
                "Failed to configure sparse checkout"@,
            ),
            GitStage::WritePatternsExisting => match outcome {
                GitOutcomeModel::Unavailable(words) => self.failed(ErrorModel::Io(words)),
                _ => self.at(GitStage::Reset),
            },
            GitStage::Reset => self.after_required(
                outcome,
                GitStage::Pull,
                "Failed to reset repository "@ + self.repo_name,
            ),
            GitStage::Pull => self.after_required(
                outcome,
                GitStage::Succeeded,
                "Failed to update repository "@ + self.repo_name,
            ),
            GitStage::Succeeded | GitStage::Failed => self,
        }
    }
}

impl View for GitSession {
    type V = GitSessionModel;

    closed spec fn view(&self) -> GitSessionModel {
        GitSessionModel {
            repo_url: self.repo_url@,
            repo_dir: self.repo_dir@,
            repo_name: self.repo_name@,
            stage: self.stage,
            branch: self.branch as int,
            failure: self.failure.deep_view(),
        }
    }
}

/// What follows the last `/` of an address; the whole address where it holds
/// none.
pub open spec fn last_segment(repo: Seq<char>) -> Seq<char> {
    split(repo, '/').last()
}

/// The short name of a repository: the last segment of its address, without
/// `/_git/` and without `.git` at its end.
pub open spec fn short_name(repo: Seq<char>) -> Seq<char> {
    strip_suffix_all(strip_suffix_all(last_segment(repo), "/_git/"@), ".git"@)
}

/// The name of the working copy of a repository: its short name, with `%20`
/// read as a space.
pub open spec fn working_copy_name(repo: Seq<char>) -> Seq<char> {
    replace_all(short_name(repo), "%20"@, " "@)
}

/// The host and path to which credentials are joined: what follows the first
/// `@` of the address, or else the address without `https://`, with spaces
/// written as `%20`.
pub open spec fn address_without_credentials(repo: Seq<char>) -> Seq<char> {
    let at = first_index_of(repo, '@');
    if 0 <= at < repo.len() {
        repo.skip(at + 1)
    } else {
        replace_all(strip_prefix_all(repo, "https://"@), " "@, "%20"@)
    }
}

/// The address of a repository with the credentials in it.
pub open spec fn authenticated_url(username: Seq<char>, token: Seq<char>, repo: Seq<char>) -> Seq<
    char,
> {
    "https://"@ + username + ":"@ + token + "@"@ + address_without_credentials(repo)
}

/// A path below `base`, joined with `/`.
pub open spec fn join_path(base: Seq<char>, part: Seq<char>) -> Seq<char> {
    if base.len() == 0 {
        part
    } else if base.last() == '/' {
        base + part
    } else {
        base + "/"@ + part
    }
}

/// Where the working copy of a repository lies: in `temp_repos` below the
/// current directory, under its name.
pub open spec fn working_copy_dir(current_dir: Seq<char>, repo: Seq<char>) -> Seq<char> {
    join_path(join_path(current_dir, "temp_repos"@), working_copy_name(repo))
}

/// The bounds of the short name of the repository at `v`.
fn short_name_span(v: &Vec<char>) -> (span: Span)
    ensures
        span.within(0, v.len() as int),
        span.of(v@) == short_name(v@),
{
    proof {
        assert(v@.subrange(0, v.len() as int) =~= v@);
    }
    let pieces = split_spans(v, 0, v.len(), '/');
    let last: Span = pieces[pieces.len() - 1];
    assert(last.within(0, v.len() as int));
    assert(split(v@, '/').last() == last.of(v@));
    let git_dir = chars_of("/_git/");
    let git_ending = chars_of(".git");
    let b1 = strip_suffix_bounds(v, last.start, last.end, &git_dir);
    let b2 = strip_suffix_bounds(v, last.start, b1, &git_ending);
    Span { start: last.start, end: b2 }
}

/// The short name of a repository: the last segment of its address, without
/// `/_git/` and without `.git` at its end.
pub fn short_repo_name(repo: &str) -> (name: String)
    ensures
        name@ == short_name(repo@),
{
    let v = chars_of(repo);
    let span = short_name_span(&v);
    string_from(&v, span.start, span.end)
}

/// Appends to `out` the path `part` below what `out` holds.
fn push_path(out: &mut Vec<char>, part: &Vec<char>)
    ensures
        final(out)@ == join_path(old(out)@, part@),
{
    if out.len() > 0 && out[out.len() - 1] != '/' {
        proof {
            reveal_strlit("/");
            assert("/"@ =~= seq!['/']);
        }
        out.push('/');
        assert(out@ =~= old(out)@ + "/"@);
    }
    proof {
        assert(part@.subrange(0, part.len() as int) =~= part@);
    }
    push_all(out, part, 0, part.len());
    proof {
        if old(out)@.len() == 0 {
            assert(out@ =~= part@);
        }
        assert(out@ =~= join_path(old(out)@, part@));
    }
}

impl GitManager {
    /// The address of the repository, with the credentials in it.
    pub closed spec fn spec_repo_url(&self) -> Seq<char> {
        self.repo_url@
    }

    /// Where the working copy lies.
    pub closed spec fn spec_repo_dir(&self) -> Seq<char> {
        self.repo_dir@
    }

    /// Whether the acquisition reports what it does.
    pub closed spec fn spec_verbose(&self) -> bool {
        self.verbose
    }

    /// Prepares the acquisition of the repository at `repo_url`, with its
    /// working copy below `current_dir`.
    pub fn new(credentials: Credentials, repo_url: &str, verbose: bool, current_dir: &str) -> (r:
        Self)
        ensures
            r.spec_repo_url() == authenticated_url(
                credentials.username@,
                credentials.token@,
                repo_url@,
            ),
            r.spec_repo_dir() == working_copy_dir(current_dir@, repo_url@),
            r.spec_verbose() == verbose,
    {
        let v = chars_of(repo_url);
        proof {
            assert(v@.subrange(0, v.len() as int) =~= v@);
        }
        let name_span = short_name_span(&v);
        let mut repo_name: Vec<char> = Vec::new();
        let escaped_space = chars_of("%20");
        let space = chars_of(" ");
        push_replaced(&mut repo_name, &v, name_span.start, name_span.end, &escaped_space, &space);
        assert(repo_name@ =~= working_copy_name(repo_url@));

        let mut url: Vec<char> = Vec::new();
        push_str(&mut url, "https://");
        push_str(&mut url, credentials.username.as_str());
        push_str(&mut url, ":");
        push_str(&mut url, credentials.token.as_str());
        push_str(&mut url, "@");
        let ghost head = url@;
        assert(head =~= "https://"@ + credentials.username@ + ":"@ + credentials.token@ + "@"@);
        let at = index_of_char(&v, 0, v.len(), '@');
        if at < v.len() {
            push_all(&mut url, &v, at + 1, v.len());
            assert(v@.subrange(at + 1, v.len() as int) =~= v@.skip(at + 1));
        } else {
            let scheme = chars_of("https://");
            let start = strip_prefix_bounds(&v, 0, v.len(), &scheme);
            push_replaced(&mut url, &v, start, v.len(), &space, &escaped_space);
        }
        assert(url@ =~= authenticated_url(credentials.username@, credentials.token@, repo_url@));

        let mut dir = chars_of(current_dir);
        push_path(&mut dir, &chars_of("temp_repos"));
        push_path(&mut dir, &repo_name);
        GitManager { repo_url: string_of(&url), repo_dir: string_of(&dir), verbose }
    }

    /// Begins the acquisition of the working copy: it is brought up to date
    /// where it exists, and made where it does not.
    pub fn clone_or_update(&self, working_copy_exists: bool) -> (session: GitSession)
        ensures
            session@.wf(),
            session@ == (GitSessionModel {
                repo_url: self.spec_repo_url(),
                repo_dir: self.spec_repo_dir(),
                repo_name: display_name(self.spec_repo_dir()),
                stage: if working_copy_exists {
                    GitStage::CurrentBranch
                } else {
                    GitStage::CreateWorkingCopy
                },
                branch: 0,
                failure: None,
            }),
    {
        let v = chars_of(self.repo_dir.as_str());
        proof {
            assert(v@.subrange(0, v.len() as int) =~= v@);
        }
        let pieces = split_spans(&v, 0, v.len(), '/');
        let last: Span = pieces[pieces.len() - 1];
        assert(last.within(0, v.len() as int));
        assert(split(v@, '/').last() == last.of(v@));
        let repo_name = if last.start == last.end {
            String::from_str("unknown")
        } else {
            string_from(&v, last.start, last.end)
        };
        GitSession {
            repo_url: self.repo_url.clone(),
            repo_dir: self.repo_dir.clone(),
            repo_name,
            stage: if working_copy_exists {
                GitStage::CurrentBranch
            } else {
                GitStage::CreateWorkingCopy
            },
            branch: 0,
            failure: None,
        }
    }

    /// Where the working copy lies.
    pub fn get_repo_path(&self) -> (path: &String)
        ensures
            path@ == self.spec_repo_dir(),
    {
        &self.repo_dir
    }

    /// The address of the repository, with the credentials in it.
    pub fn get_repo_url(&self) -> (url: &String)
        ensures
            url@ == self.spec_repo_url(),
    {
        &self.repo_url
    }

    /// Whether the acquisition reports what it does.
    pub fn is_verbose(&self) -> (verbose: bool)
        ensures
            verbose == self.spec_verbose(),
    {
        self.verbose
    }
}

/// The name of the default branch at `index`.
fn default_branch(index: usize) -> (name: &'static str)
    requires
        index < default_branches().len(),
    ensures
        name@ == default_branches()[index as int],
{
    if index == 0 {
        "develop"
    } else if index == 1 {
        "main"
    } else {
        "master"
    }
}

/// The texts of `words`, each as a string of its own.
fn strings_of(words: &[&str]) -> (out: Vec<String>)
    ensures
        out.deep_view() == Seq::new(words@.len(), |i: int| words@[i]@),
{
    let mut out: Vec<String> = Vec::new();
    let mut i: usize = 0;
    while i < words.len()
        invariant
            i <= words.len(),
            out.len() == i,
            forall|k: int| 0 <= k < i ==> (#[trigger] out[k])@ == words@[k]@,
        decreases words.len() - i,
    {
        out.push(String::from_str(words[i]));
        i += 1;
    }
    assert(out.deep_view() =~= Seq::new(words@.len(), |i: int| words@[i]@));
    out
}

/// The path `part` below `base`, joined with `/`.
pub fn joined(base: &str, part: &str) -> (path: String)
    ensures
        path@ == join_path(base@, part@),
{
    let mut out = chars_of(base);
    push_path(&mut out, &chars_of(part));
    string_of(&out)
}

impl GitSession {
    /// The acquisition awaits an outcome, has succeeded, or has failed for a
    /// reason.
    pub open spec fn wf(&self) -> bool {
        self@.wf()
    }

    /// Where the acquisition stands.
    pub fn stage(&self) -> (stage: GitStage)
        ensures
            stage == self@.stage,
    {
        self.stage
    }

    /// Whether the acquisition has ended.
    pub fn is_finished(&self) -> (r: bool)
        ensures
            r == (self@.stage == GitStage::Succeeded || self@.stage == GitStage::Failed),
    {
        match self.stage {
            GitStage::Succeeded => true,
            GitStage::Failed => true,
            _ => false,
        }
    }

    /// How the acquisition has ended: `None` while it has not.
    pub fn result(self) -> (r: Option<Result<(), Error>>)
        requires
            self.wf(),
        ensures
            match r {
                None => self@.stage != GitStage::Succeeded && self@.stage != GitStage::Failed,
                Some(Ok(_)) => self@.stage == GitStage::Succeeded,
                Some(Err(e)) => self@.stage == GitStage::Failed && self@.failure == Some(e@),
            },
    {
        match self.stage {
            GitStage::Succeeded => Some(Ok(())),
            GitStage::Failed => match self.failure {
                Some(e) => Some(Err(e)),
                None => None,
            },
            _ => None,
        }
    }

    /// The action whose outcome the acquisition awaits.
    pub fn pending_action(&self) -> (action: GitAction)
        requires
            self.wf(),
        ensures
            action@ == self@.pending(),
    {
        let dir = self.repo_dir.as_str();
        match self.stage {
            GitStage::CreateWorkingCopy => GitAction::CreateDir(self.repo_dir.clone()),
            GitStage::Init => {
                let args = strings_of(&["init"]);
                assert(args.deep_view() =~= seq!["init"@]);
                GitAction::Run(args)
            },
            GitStage::ConfigureNew | GitStage::ConfigureExisting => {
                let args = strings_of(&["config", "core.sparseCheckout", "true"]);
                assert(args.deep_view() =~= seq!["config"@, "core.sparseCheckout"@, "true"@]);
                GitAction::Run(args)
            },
            GitStage::CreateInfoDir => {
                let git_dir = joined(dir, ".git");
                GitAction::CreateDir(joined(git_dir.as_str(), "info"))
            },
            GitStage::WritePatternsNew | GitStage::WritePatternsExisting => {
                let git_dir = joined(dir, ".git");
                let info_dir = joined(git_dir.as_str(), "info");
                GitAction::WriteFile(
                    joined(info_dir.as_str(), "sparse-checkout"),
                    String::from_str("*.yml\n*.yaml"),
                )
            },
            GitStage::AddRemote => {
                let args = strings_of(&["remote", "add", "origin", self.repo_url.as_str()]);
                assert(args.deep_view() =~= seq!["remote"@, "add"@, "origin"@, self@.repo_url]);
                GitAction::Run(args)
            },
            GitStage::FetchNew | GitStage::FetchDetached => {
                let branch = default_branch(self.branch);
                let args = strings_of(&["fetch", "--depth=1", "origin", branch]);
                assert(args.deep_view() =~= seq![
                    "fetch"@,
                    "--depth=1"@,
                    "origin"@,
                    self@.branch_name(),
                ]);
                GitAction::Run(args)
            },
            GitStage::CheckoutNew => {
                let branch = default_branch(self.branch);
                let remote_branch = String::from_str("origin/").concat(branch);
                let args = strings_of(&["checkout", "-b", branch, remote_branch.as_str()]);
                assert(args.deep_view() =~= seq![
                    "checkout"@,
                    "-b"@,
                    self@.branch_name(),
                    "origin/"@ + self@.branch_name(),
                ]);
                GitAction::Run(args)
            },
            GitStage::CurrentBranch => {
                let args = strings_of(&["rev-parse", "--abbrev-ref", "HEAD"]);
                assert(args.deep_view() =~= seq!["rev-parse"@, "--abbrev-ref"@, "HEAD"@]);
                GitAction::Run(args)
            },
            GitStage::Checkout => {
                let branch = default_branch(self.branch);
                let args = strings_of(&["checkout", branch]);
                assert(args.deep_view() =~= seq!["checkout"@, self@.branch_name()]);
                GitAction::Run(args)
            },
            GitStage::Reset => {
                let args = strings_of(&["reset", "--hard", "HEAD"]);
                assert(args.deep_view() =~= seq!["reset"@, "--hard"@, "HEAD"@]);
                GitAction::Run(args)
            },
            GitStage::Pull => {
                let args = strings_of(&["pull", "--force"]);
                assert(args.deep_view() =~= seq!["pull"@, "--force"@]);
                GitAction::Run(args)
            },
            GitStage::Succeeded | GitStage::Failed => GitAction::Finish,
        }
    }

    /// Moves on after an action that must succeed.
    fn require(&mut self, outcome: GitOutcome, next: GitStage, message: String)
        requires
            old(self).wf(),
            old(self)@.stage != GitStage::Failed,
            next != GitStage::Failed,
        ensures
            final(self).wf(),
            final(self)@ == old(self)@.after_required(outcome@, next, message@),
    {
        match outcome {
            GitOutcome::Unavailable(words) => {
                self.failure = Some(Error::Io(words));
                self.stage = GitStage::Failed;
            },
            GitOutcome::Exited { success, output } => {
                if success {
                    self.stage = next;
                } else {
                    self.failure = Some(Error::Git(message));
                    self.stage = GitStage::Failed;
                }
            },
        }
    }

    /// Moves on after an action that need only have been performed.
    fn expect(&mut self, outcome: GitOutcome, next: GitStage)
        requires
            old(self).wf(),
            old(self)@.stage != GitStage::Failed,
            next != GitStage::Failed,
        ensures
            final(self).wf(),
            final(self)@ == match outcome@ {
                GitOutcomeModel::Unavailable(words) => old(self)@.failed(ErrorModel::Io(words)),
                _ => old(self)@.at(next),
            },
    {
        match outcome {
            GitOutcome::Unavailable(words) => {
                self.failure = Some(Error::Io(words));
                self.stage = GitStage::Failed;
            },
            GitOutcome::Exited { success, output } => {
                self.stage = next;
            },
        }
    }

    /// Moves on after an attempt to fetch a default branch.
    fn fetched(&mut self, outcome: GitOutcome, next: GitStage)
        requires
            old(self).wf(),
            old(self)@.stage != GitStage::Failed,
            next != GitStage::Failed,
        ensures
            final(self).wf(),
            final(self)@ == old(self)@.after_fetch(outcome@, next),
    {
        let fetched = match outcome {
            GitOutcome::Exited { success, output } => success,
            GitOutcome::Unavailable(words) => false,
        };
        if fetched {
            self.stage = next;
        } else if self.branch + 1 < 3 {
            self.branch = self.branch + 1;
        } else {
            self.failure = Some(Error::Git(String::from_str("No default branch found")));
            self.stage = GitStage::Failed;
        }
    }

    /// Takes the outcome of the pending action and moves on. Returns the
    /// action that is pending then.
    pub fn step(&mut self, outcome: GitOutcome) -> (action: GitAction)
        requires
            old(self).wf(),
        ensures
            final(self).wf(),
            final(self)@ == old(self)@.step(outcome@),
            action@ == final(self)@.pending(),
    {
        match self.stage {
            GitStage::CreateWorkingCopy => self.expect(outcome, GitStage::Init),
            GitStage::Init => self.require(
                outcome,
                GitStage::ConfigureNew,
                String::from_str("Failed to initialize repository"),
            ),
            GitStage::ConfigureNew => self.require(
                outcome,
                GitStage::CreateInfoDir,
                String::from_str("Failed to configure sparse checkout"),
            ),
            GitStage::CreateInfoDir => self.expect(outcome, GitStage::WritePatternsNew),
            GitStage::WritePatternsNew => self.expect(outcome, GitStage::AddRemote),
            GitStage::AddRemote => self.require(
                outcome,
                GitStage::FetchNew,
                String::from_str("Failed to add remote"),
            ),
            GitStage::FetchNew => self.fetched(outcome, GitStage::CheckoutNew),
            GitStage::CheckoutNew => self.expect(outcome, GitStage::Succeeded),
            GitStage::CurrentBranch => {
                match outcome {
                    GitOutcome::Unavailable(words) => {
                        self.failure = Some(Error::Io(words));
                        self.stage = GitStage::Failed;
                    },
                    GitOutcome::Exited { success, output } => {
                        let v = chars_of(output.as_str());
                        proof {
                            assert(v@.subrange(0, v.len() as int) =~= output@);
                        }
                        let (a, b) = trim_bounds(&v, 0, v.len());
                        let branch = string_from(&v, a, b);
                        if *branch.as_str() == *"HEAD" {
                            self.stage = GitStage::FetchDetached;
                        } else {
                            self.stage = GitStage::ConfigureExisting;
                        }
                    },
                }
            },
            GitStage::FetchDetached => self.fetched(outcome, GitStage::Checkout),
            GitStage::Checkout => {
                let message = String::from_str("Branch ").concat(default_branch(self.branch)).concat(
                    " not found",
                );
                self.require(outcome, GitStage::ConfigureExisting, message)
            },
            GitStage::ConfigureExisting => self.require(
                outcome,
                GitStage::WritePatternsExisting,
                String::from_str("Failed to configure sparse checkout"),
            ),
            GitStage::WritePatternsExisting => self.expect(outcome, GitStage::Reset),
            GitStage::Reset => {
                let message = String::from_str("Failed to reset repository ").concat(
                    self.repo_name.as_str(),
                );
                self.require(outcome, GitStage::Pull, message)
            },
            GitStage::Pull => {
                let message = String::from_str("Failed to update repository ").concat(
                    self.repo_name.as_str(),
                );
                self.require(outcome, GitStage::Succeeded, message)
            },
            GitStage::Succeeded | GitStage::Failed => {},
        }
        self.pending_action()
    }
}

} // verus!
