//! The analysis of repositories, as state machines.
//!
//! The machines decide; their caller acts. The caller asks which action is
//! pending, performs it (acquiring a repository, discovering its pipeline
//! files, reading one of them), and hands the outcome back as an event. The
//! machine records what the outcome means in the accumulator of the run.
//!
//! [`RepoAnalysis`] is the analysis of one repository:
//!
//! ```text
//! Acquire --AcquireFailed--> AcquireFailed
//! Acquire --Acquired--> Discover --Discovered(none)--> NoFilesSkipped
//!                       Discover --Discovered(files)--> ScanEachFile
//! ScanEachFile --FileRead (not the last)--> ScanEachFile
//! ScanEachFile --FileRead (the last), reconcile--> Done
//! Discover --DiscoveryFailed--> ScanFailed <--FileUnreadable-- ScanEachFile
//! ```
//!
//! [`PipelineRun`] is the analysis of a list of repositories, one after the
//! other: when the analysis of one has ended, however it has ended, that of
//! the next begins.
//!
//! Tasks are joined by their lowercase names. A task of the registry is
//! missing from a repository where no task that was found there has its
//! name in lowercase, in whatever case it was written.

use crate::config::Config;
use crate::scanner::{analyze_pipeline_file, scan};
use crate::string_map::{list_of, map_of, StringSet};
use crate::task_issues::{IssuesModel, TaskIssues};
use crate::task_types::Sighting;
use crate::text::{
    chars_of, first_index_of, index_of_char, lowercase, lowercase_of, string_from,
};
use vstd::prelude::*;

verus! {

/// Where the analysis of a repository stands.
#[derive(Clone, Copy, Debug, PartialEq, Eq, Structural)]
pub enum RepoState {
    /// The repository is to be acquired.
    Acquire,
    /// The repository was acquired; its pipeline files are to be discovered.
    Discover,
    /// The pipeline files are known; the next one is to be read.
    ScanEachFile,
    /// The repository could not be acquired. Nothing was recorded.
    AcquireFailed,
    /// The repository holds no pipeline file.
    NoFilesSkipped,
    /// The files could not be discovered, or one could not be read. What was
    /// recorded before stays; missing tasks are not reported.
    ScanFailed,
    /// Every file was scanned and the missing tasks were reported.
    Done,
}

/// What the caller reports to the machine.
#[derive(Debug)]
pub enum RepoEvent {
    /// The repository was acquired.
    Acquired,
    /// The repository could not be acquired.
    AcquireFailed,
    /// The pipeline files of the repository, by their paths.
    Discovered(Vec<String>),
    /// The pipeline files could not be discovered.
    DiscoveryFailed,
    /// The text of the file that was to be read.
    FileRead(String),
    /// The file that was to be read could not be read.
    FileUnreadable,
}

/// What the machine asks of its caller.
#[derive(Debug)]
pub enum RepoAction {
    /// Acquire the repository.
    Acquire,
    /// Discover the pipeline files of the repository.
    Discover,
    /// Read the file at this path.
    ReadFile(String),
    /// Nothing is left to do.
    Finish,
}

/// The mathematical value of a [`RepoEvent`].
pub enum EventModel {
    Acquired,
    AcquireFailed,
    Discovered(Seq<Seq<char>>),
    DiscoveryFailed,
    FileRead(Seq<char>),
    FileUnreadable,
}

/// The mathematical value of a [`RepoAction`].
pub enum ActionModel {
    Acquire,
    Discover,
    ReadFile(Seq<char>),
    Finish,
}

impl View for RepoEvent {
    type V = EventModel;

    open spec fn view(&self) -> EventModel {
        match self {
            RepoEvent::Acquired => EventModel::Acquired,
            RepoEvent::AcquireFailed => EventModel::AcquireFailed,
            RepoEvent::Discovered(files) => EventModel::Discovered(files.deep_view()),
            RepoEvent::DiscoveryFailed => EventModel::DiscoveryFailed,
            RepoEvent::FileRead(content) => EventModel::FileRead(content@),
            RepoEvent::FileUnreadable => EventModel::FileUnreadable,
        }
    }
}

impl View for RepoAction {
    type V = ActionModel;

    open spec fn view(&self) -> ActionModel {
        match self {
            RepoAction::Acquire => ActionModel::Acquire,
            RepoAction::Discover => ActionModel::Discover,
            RepoAction::ReadFile(path) => ActionModel::ReadFile(path@),
            RepoAction::Finish => ActionModel::Finish,
        }
    }
}

/// The analysis of one repository.
pub struct RepoAnalysis {
    repo_url: String,
    state: RepoState,
    files: Vec<String>,
    next_file: usize,
    found_tasks: StringSet,
}

/// The mathematical value of a [`RepoAnalysis`].
pub struct AnalysisModel {
    /// The repository under analysis.
    pub repo: Seq<char>,
    /// Where the analysis stands.
    pub state: RepoState,
    /// The pipeline files of the repository; empty until they are discovered.
    pub files: Seq<Seq<char>>,
    /// How many of the files were scanned.
    pub next_file: int,
    /// The names of the tasks found so far, in lowercase.
    pub found_tasks: Set<Seq<char>>,
}

/// The two parts of a key `name@version`, around its first `@`.
pub open spec fn split_key(key: Seq<char>) -> Option<(Seq<char>, Seq<char>)> {
    let at = first_index_of(key, '@');
    if 0 <= at < key.len() {
        Some((key.take(at), key.skip(at + 1)))
    } else {
        None
    }
}

/// The accumulator and the names found, after the keys of one file of `repo`
/// were recorded in their order: each key is a sighting of the task that it
/// names, and the lowercase form of that name joins the names found. A key
/// without `@` is passed over.
pub open spec fn record_keys(
    issues: IssuesModel,
    found: Set<Seq<char>>,
    keys: Seq<Seq<char>>,
    repo: Seq<char>,
    file: Seq<char>,
    registry: Map<Seq<char>, Seq<Seq<char>>>,
) -> (IssuesModel, Set<Seq<char>>)
    decreases keys.len(),
{
    if keys.len() == 0 {
        (issues, found)
    } else {
        let before = record_keys(issues, found, keys.drop_last(), repo, file, registry);
        match split_key(keys.last()) {
            Some((name, version)) => (
                before.0.with_sighting(
                    name,
                    Sighting { repo_name: repo, version, file_path: file },
                    registry,
                ),
                before.1.insert(lowercase_of(name)),
            ),
            None => before,
        }
    }
}

/// The accumulator after every task of `task_names` that is not among
/// `found` was noted as missing from `repo`, in the order of `task_names`.
/// Both hold names in lowercase, so that a task counts as found in whatever
/// case it was written.
pub open spec fn reconcile(
    issues: IssuesModel,
    repo: Seq<char>,
    task_names: Seq<Seq<char>>,
    found: Set<Seq<char>>,
) -> IssuesModel
    decreases task_names.len(),
{
    if task_names.len() == 0 {
        issues
    } else {
        let before = reconcile(issues, repo, task_names.drop_last(), found);
        if found.contains(task_names.last()) {
            before
        } else {
            before.with_missing_task(repo, task_names.last())
        }
    }
}

impl AnalysisModel {
    /// The analysis of `repo` before anything happened.
    pub open spec fn start(repo: Seq<char>) -> AnalysisModel {
        AnalysisModel {
            repo,
            state: RepoState::Acquire,
            files: Seq::empty(),
            next_file: 0,
            found_tasks: Set::empty(),
        }
    }

    /// While files are scanned, one of them is the next.
    pub open spec fn wf(self) -> bool {
        self.state == RepoState::ScanEachFile ==> 0 <= self.next_file < self.files.len()
    }

    /// Whether the analysis has ended.
    pub open spec fn is_terminal(self) -> bool {
        ||| self.state == RepoState::AcquireFailed
        ||| self.state == RepoState::NoFilesSkipped
        ||| self.state == RepoState::ScanFailed
        ||| self.state == RepoState::Done
    }

    /// The action that the analysis awaits the outcome of.
    pub open spec fn pending(self) -> ActionModel {
        match self.state {
            RepoState::Acquire => ActionModel::Acquire,
            RepoState::Discover => ActionModel::Discover,
            RepoState::ScanEachFile => ActionModel::ReadFile(self.files[self.next_file]),
            _ => ActionModel::Finish,
        }
    }

    /// The analysis in another state.
    pub open spec fn moved_to(self, state: RepoState) -> AnalysisModel {
        AnalysisModel { state, ..self }
    }
}

/// An analysis and the accumulator after one event.
pub struct Step {
    pub analysis: AnalysisModel,
    pub issues: IssuesModel,
}

/// What an event does to an analysis and to the accumulator. An event that
/// the state does not await changes nothing.
pub open spec fn step_spec(
    analysis: AnalysisModel,
    event: EventModel,
    issues: IssuesModel,
    registry: Map<Seq<char>, Seq<Seq<char>>>,
    task_names: Seq<Seq<char>>,
) -> Step {
    match (analysis.state, event) {
        (RepoState::Acquire, EventModel::AcquireFailed) => Step {
            analysis: analysis.moved_to(RepoState::AcquireFailed),
            issues,
        },
        (RepoState::Acquire, EventModel::Acquired) => Step {
            analysis: analysis.moved_to(RepoState::Discover),
            issues: issues.with_analyzed(analysis.repo),
        },
        (RepoState::Discover, EventModel::DiscoveryFailed) => Step {
            analysis: analysis.moved_to(RepoState::ScanFailed),
            issues,
        },
        (RepoState::Discover, EventModel::Discovered(files)) => if files.len() == 0 {
            Step {
                analysis: analysis.moved_to(RepoState::NoFilesSkipped),
                issues: issues.with_skipped(analysis.repo),
            }
        } else {
            Step {
                analysis: AnalysisModel {
                    state: RepoState::ScanEachFile,
                    files,
                    next_file: 0,
                    ..analysis
                },
                issues,
            }
        },
        (RepoState::ScanEachFile, EventModel::FileUnreadable) => Step {
            analysis: analysis.moved_to(RepoState::ScanFailed),
            issues,
        },
        (RepoState::ScanEachFile, EventModel::FileRead(content)) => {
            let recorded = record_keys(
                issues,
                analysis.found_tasks,
                scan(content),
                analysis.repo,
                analysis.files[analysis.next_file],
                registry,
            );
            if analysis.next_file + 1 < analysis.files.len() {
                Step {
                    analysis: AnalysisModel {
                        next_file: analysis.next_file + 1,
                        found_tasks: recorded.1,
                        ..analysis
                    },
                    issues: recorded.0,
                }
            } else {
                Step {
                    analysis: AnalysisModel {
                        state: RepoState::Done,
                        next_file: analysis.next_file + 1,
                        found_tasks: recorded.1,
                        ..analysis
                    },
                    issues: reconcile(recorded.0, analysis.repo, task_names, recorded.1),
                }
            }
        },
        _ => Step { analysis, issues },
    }
}

/// Records the keys `name@version` that were found in `file` of `repo`: each
/// is split at its first `@` and recorded as a sighting, and its name joins
/// `found` in lowercase.
pub fn record_file_sightings(
    issues: &mut TaskIssues,
    found: &mut StringSet,
    keys: &StringSet,
    repo: &str,
    file: &str,
    config: &Config,
)
    requires
        old(issues).wf(),
        old(found).wf(),
        config.wf(),
    ensures
        final(issues).wf(),
        final(found).wf(),
        (final(issues)@, final(found)@) == record_keys(
            old(issues)@,
            old(found)@,
            keys.item_seq(),
            repo@,
            file@,
            config@,
        ),
{
    let ghost all = keys.item_seq();
    let n = keys.len();
    let mut i: usize = 0;
    proof {
        assert(all.take(0) =~= Seq::<Seq<char>>::empty());
    }
    while i < n
        invariant
            i <= n,
            n == all.len(),
            all == keys.item_seq(),
            issues.wf(),
            found.wf(),
            config.wf(),
            (issues@, found@) == record_keys(
                old(issues)@,
                old(found)@,
                all.take(i as int),
                repo@,
                file@,
                config@,
            ),
        decreases n - i,
    {
        let key = keys.item_at(i);
        proof {
            assert(all.take(i + 1).drop_last() =~= all.take(i as int));
            assert(all.take(i + 1).last() == key@);
        }
        let v = chars_of(key.as_str());
        proof {
            assert(v@.subrange(0, v.len() as int) =~= key@);
        }
        let at = index_of_char(&v, 0, v.len(), '@');
        if at < v.len() {
            let name = string_from(&v, 0, at);
            let version = string_from(&v, at + 1, v.len());
            proof {
                assert(name@ =~= key@.take(at as int));
                assert(version@ =~= key@.skip(at + 1));
            }
            issues.add_implementation(name.as_str(), repo, version, file.to_owned(), config);
            found.insert(lowercase(name.as_str()));
        }
        i += 1;
    }
    proof {
        assert(all.take(n as int) =~= all);
    }
}

/// Notes every registered task that is not among `found` as missing from
/// `repo`.
pub fn reconcile_repository(issues: &mut TaskIssues, repo: &str, found: &StringSet, config: &Config)
    requires
        old(issues).wf(),
        config.wf(),
    ensures
        final(issues).wf(),
        final(issues)@ == reconcile(old(issues)@, repo@, config.task_names(), found@),
{
    let ghost names = config.task_names();
    let n = config.task_versions.len();
    let mut i: usize = 0;
    proof {
        assert(names.take(0) =~= Seq::<Seq<char>>::empty());
    }
    while i < n
        invariant
            i <= n,
            n == names.len(),
            names == config.task_names(),
            config.wf(),
            issues.wf(),
            issues@ == reconcile(old(issues)@, repo@, names.take(i as int), found@),
        decreases n - i,
    {
        let task = config.task_versions.key_at(i);
        proof {
            assert(names.take(i + 1).drop_last() =~= names.take(i as int));
            assert(names.take(i + 1).last() == task@);
        }
        if !found.contains(task.as_str()) {
            issues.add_missing_task(repo, task.as_str());
        }
        i += 1;
    }
    proof {
        assert(names.take(n as int) =~= names);
    }
}

impl View for RepoAnalysis {
    type V = AnalysisModel;

    open spec fn view(&self) -> AnalysisModel {
        AnalysisModel {
            repo: self.spec_repo(),
            state: self.spec_state(),
            files: self.spec_files(),
            next_file: self.spec_next_file(),
            found_tasks: self.spec_found_tasks(),
        }
    }
}

impl RepoAnalysis {
    /// The repository under analysis.
    pub closed spec fn spec_repo(&self) -> Seq<char> {
        self.repo_url@
    }

    /// Where the analysis stands.
    pub closed spec fn spec_state(&self) -> RepoState {
        self.state
    }

    /// The pipeline files of the repository.
    pub closed spec fn spec_files(&self) -> Seq<Seq<char>> {
        self.files.deep_view()
    }

    /// How many of the files were scanned.
    pub closed spec fn spec_next_file(&self) -> int {
        self.next_file as int
    }

    /// The names of the tasks found so far, in lowercase.
    pub closed spec fn spec_found_tasks(&self) -> Set<Seq<char>> {
        self.found_tasks@
    }

    /// The analysis is in a state that it can have reached.
    pub closed spec fn wf(&self) -> bool {
        &&& self.found_tasks.wf()
        &&& self@.wf()
    }

    /// The analysis of `repo_url`, about to acquire the repository.
    pub fn start(repo_url: &str) -> (analysis: Self)
        ensures
            analysis.wf(),
            analysis@ == AnalysisModel::start(repo_url@),
    {
        let analysis = RepoAnalysis {
            repo_url: repo_url.to_owned(),
            state: RepoState::Acquire,
            files: Vec::new(),
            next_file: 0,
            found_tasks: StringSet::new(),
        };
        proof {
            assert(analysis.spec_files() =~= Seq::<Seq<char>>::empty());
        }
        analysis
    }

    /// Where the analysis stands.
    pub fn state(&self) -> (state: RepoState)
        ensures
            state == self@.state,
    {
        self.state
    }

    /// The repository under analysis.
    pub fn repo_url(&self) -> (repo: &str)
        ensures
            repo@ == self@.repo,
    {
        self.repo_url.as_str()
    }

    /// Whether the analysis has ended.
    pub fn is_finished(&self) -> (r: bool)
        ensures
            r == self@.is_terminal(),
    {
        match self.state {
            RepoState::AcquireFailed => true,
            RepoState::NoFilesSkipped => true,
            RepoState::ScanFailed => true,
            RepoState::Done => true,
            _ => false,
        }
    }

    /// The action whose outcome the analysis awaits.
    pub fn pending_action(&self) -> (action: RepoAction)
        requires
            self.wf(),
        ensures
            action@ == self@.pending(),
    {
        match self.state {
            RepoState::Acquire => RepoAction::Acquire,
            RepoState::Discover => RepoAction::Discover,
            RepoState::ScanEachFile => RepoAction::ReadFile(self.files[self.next_file].clone()),
            _ => RepoAction::Finish,
        }
    }

    /// Takes the outcome of the pending action, records in `issues` what it
    /// means, and moves on. Returns the action that is pending then.
    pub fn step(&mut self, event: RepoEvent, issues: &mut TaskIssues, config: &Config) -> (action:
        RepoAction)
        requires
            old(self).wf(),
            old(issues).wf(),
            config.wf(),
        ensures
            final(self).wf(),
            final(issues).wf(),
            final(self)@ == step_spec(
                old(self)@,
                event@,
                old(issues)@,
                config@,
                config.task_names(),
            ).analysis,
            final(issues)@ == step_spec(
                old(self)@,
                event@,
                old(issues)@,
                config@,
                config.task_names(),
            ).issues,
            action@ == final(self)@.pending(),
    {
        match (self.state, event) {
            (RepoState::Acquire, RepoEvent::AcquireFailed) => {
                self.state = RepoState::AcquireFailed;
            },
            (RepoState::Acquire, RepoEvent::Acquired) => {
                issues.mark_analyzed(self.repo_url.as_str());
                self.state = RepoState::Discover;
            },
            (RepoState::Discover, RepoEvent::DiscoveryFailed) => {
                self.state = RepoState::ScanFailed;
            },
            (RepoState::Discover, RepoEvent::Discovered(files)) => {
                if files.len() == 0 {
                    issues.mark_skipped(self.repo_url.as_str());
                    self.state = RepoState::NoFilesSkipped;
                } else {
                    self.files = files;
                    self.next_file = 0;
                    self.state = RepoState::ScanEachFile;
                }
            },
            (RepoState::ScanEachFile, RepoEvent::FileUnreadable) => {
                self.state = RepoState::ScanFailed;
            },
            (RepoState::ScanEachFile, RepoEvent::FileRead(content)) => {
                let keys = analyze_pipeline_file(content.as_str());
                assert(self.next_file < self.files.len()) by {
                    assert(self.spec_files().len() == self.files.len());
                }
                let next: usize = self.next_file + 1;
                record_file_sightings(
                    issues,
                    &mut self.found_tasks,
                    &keys,
                    self.repo_url.as_str(),
                    self.files[self.next_file].as_str(),
                    config,
                );
                self.next_file = next;
                if next >= self.files.len() {
                    reconcile_repository(
                        issues,
                        self.repo_url.as_str(),
                        &self.found_tasks,
                        config,
                    );
                    self.state = RepoState::Done;
                }
            },
            _ => {},
        }
        self.pending_action()
    }
}

/// What a run asks of its caller.
#[derive(Debug)]
pub enum RunAction {
    /// Perform this action for this repository.
    Perform { repo_url: String, action: RepoAction },
    /// Every repository was dealt with.
    Finish,
}

/// The mathematical value of a [`RunAction`].
pub enum RunActionModel {
    Perform { repo_url: Seq<char>, action: ActionModel },
    Finish,
}

impl View for RunAction {
    type V = RunActionModel;

    open spec fn view(&self) -> RunActionModel {
        match self {
            RunAction::Perform { repo_url, action } => RunActionModel::Perform {
                repo_url: repo_url@,
                action: action@,
            },
            RunAction::Finish => RunActionModel::Finish,
        }
    }
}

/// The analysis of repositories, one after the other, in the order in which
/// they were given.
pub struct PipelineRun {
    repos: Vec<String>,
    index: usize,
    current: Option<RepoAnalysis>,
    issues: TaskIssues,
}

/// The mathematical value of a [`PipelineRun`].
pub struct RunModel {
    /// The repositories, in the order in which they are analyzed.
    pub repos: Seq<Seq<char>>,
    /// How many repositories were dealt with.
    pub index: int,
    /// The analysis of the repository that is dealt with now.
    pub current: Option<AnalysisModel>,
    /// What the run has found so far.
    pub issues: IssuesModel,
}

impl RunModel {
    /// The analysis of the repository at `index`, about to begin; none after
    /// the last repository.
    pub open spec fn analysis_at(repos: Seq<Seq<char>>, index: int) -> Option<AnalysisModel> {
        if 0 <= index < repos.len() {
            Some(AnalysisModel::start(repos[index]))
        } else {
            None
        }
    }

    /// The run of `repos` before anything happened.
    pub open spec fn start(repos: Seq<Seq<char>>) -> RunModel {
        RunModel {
            repos,
            index: 0,
            current: RunModel::analysis_at(repos, 0),
            issues: IssuesModel::empty(),
        }
    }

    /// The repository that is dealt with is the one at `index`, its analysis
    /// has not ended, and every skipped repository counts as analyzed.
    pub open spec fn wf(self) -> bool {
        &&& 0 <= self.index <= self.repos.len()
        &&& self.issues.consistent()
        &&& match self.current {
            Some(analysis) => {
                &&& self.index < self.repos.len()
                &&& analysis.repo == self.repos[self.index]
                &&& analysis.wf()
                &&& !analysis.is_terminal()
            },
            None => self.index == self.repos.len(),
        }
    }

    /// The action whose outcome the run awaits.
    pub open spec fn pending(self) -> RunActionModel {
        match self.current {
            Some(analysis) => RunActionModel::Perform {
                repo_url: analysis.repo,
                action: analysis.pending(),
            },
            None => RunActionModel::Finish,
        }
    }

    /// The run after the outcome of its pending action: the event goes to
    /// the analysis of the current repository; once that has ended, however
    /// it has ended, the next repository is dealt with.
    pub open spec fn step(
        self,
        event: EventModel,
        registry: Map<Seq<char>, Seq<Seq<char>>>,
        task_names: Seq<Seq<char>>,
    ) -> RunModel {
        match self.current {
            None => self,
            Some(analysis) => {
                let after = step_spec(analysis, event, self.issues, registry, task_names);
                if after.analysis.is_terminal() {
                    RunModel {
                        index: self.index + 1,
                        current: RunModel::analysis_at(self.repos, self.index + 1),
                        issues: after.issues,
                        ..self
                    }
                } else {
                    RunModel { current: Some(after.analysis), issues: after.issues, ..self }
                }
            },
        }
    }
}

impl View for PipelineRun {
    type V = RunModel;

    closed spec fn view(&self) -> RunModel {
        RunModel {
            repos: self.repos.deep_view(),
            index: self.index as int,
            current: match self.current {
                Some(analysis) => Some(analysis@),
                None => None,
            },
            issues: self.issues@,
        }
    }
}

/// Begins the analysis of `repos`, in their order.
pub fn analyze_pipelines(repos: Vec<String>) -> (run: PipelineRun)
    ensures
        run.wf(),
        run@ == RunModel::start(repos.deep_view()),
{
    let current = if repos.len() > 0 {
        assert(repos.deep_view()[0] == repos[0]@);
        Some(RepoAnalysis::start(repos[0].as_str()))
    } else {
        None
    };
    PipelineRun { repos, index: 0, current, issues: TaskIssues::default() }
}

impl PipelineRun {
    /// The run is in a state that it can have reached.
    pub closed spec fn wf(&self) -> bool {
        &&& self.issues.wf()
        &&& self.current matches Some(analysis) ==> analysis.wf()
        &&& self@.wf()
    }

    /// Whether every repository was dealt with.
    pub fn is_finished(&self) -> (r: bool)
        ensures
            r == (self@.current is None),
    {
        self.current.is_none()
    }

    /// What the run has found so far.
    pub fn issues(&self) -> (issues: &TaskIssues)
        requires
            self.wf(),
        ensures
            issues.wf(),
            issues@ == self@.issues,
    {
        &self.issues
    }

    /// What the run has found.
    pub fn into_issues(self) -> (issues: TaskIssues)
        requires
            self.wf(),
        ensures
            issues.wf(),
            issues@ == self@.issues,
    {
        self.issues
    }

    /// The action whose outcome the run awaits.
    pub fn pending_action(&self) -> (action: RunAction)
        requires
            self.wf(),
        ensures
            action@ == self@.pending(),
    {
        match &self.current {
            Some(analysis) => RunAction::Perform {
                repo_url: analysis.repo_url().to_owned(),
                action: analysis.pending_action(),
            },
            None => RunAction::Finish,
        }
    }

    /// Takes the outcome of the pending action, records in the accumulator
    /// what it means, and moves on, to the next repository where the
    /// analysis of the current one has ended. Returns the action that is
    /// pending then.
    pub fn step(&mut self, event: RepoEvent, config: &Config) -> (action: RunAction)
        requires
            old(self).wf(),
            config.wf(),
        ensures
            final(self).wf(),
            final(self)@ == old(self)@.step(event@, config@, config.task_names()),
            action@ == final(self)@.pending(),
    {
        match self.current.take() {
            None => {},
            Some(mut analysis) => {
                assert(self.index < self.repos.len()) by {
                    assert(old(self)@.index < old(self)@.repos.len());
                    assert(self.repos.deep_view().len() == self.repos.len());
                }
                proof {
                    lemma_step_keeps_invariants(
                        analysis@,
                        event@,
                        self.issues@,
                        config@,
                        config.task_names(),
                    );
                }
                analysis.step(event, &mut self.issues, config);
                if analysis.is_finished() {
                    self.index = self.index + 1;
                    if self.index < self.repos.len() {
                        assert(self.repos.deep_view()[self.index as int]
                            == self.repos[self.index as int]@);
                        self.current = Some(RepoAnalysis::start(self.repos[self.index].as_str()));
                    }
                } else {
                    self.current = Some(analysis);
                }
            },
        }
        self.pending_action()
    }
}

/// A run stays in a state that it can have reached, and deals with the
/// repositories in their order: after an event it is at the same repository
/// or at the next one.
pub proof fn lemma_run_keeps_order(
    run: RunModel,
    event: EventModel,
    registry: Map<Seq<char>, Seq<Seq<char>>>,
    task_names: Seq<Seq<char>>,
)
    requires
        run.wf(),
    ensures
        run.step(event, registry, task_names).wf(),
        run.step(event, registry, task_names).repos == run.repos,
        run.index <= run.step(event, registry, task_names).index <= run.index + 1,
{
    if let Some(analysis) = run.current {
        lemma_step_keeps_invariants(analysis, event, run.issues, registry, task_names);
    }
}

/// A repository that cannot be acquired does not stop the run: nothing is
/// recorded for it, and the next repository is dealt with.
pub proof fn lemma_failed_repository_does_not_stop_the_run(
    run: RunModel,
    registry: Map<Seq<char>, Seq<Seq<char>>>,
    task_names: Seq<Seq<char>>,
)
    requires
        run.wf(),
        run.current matches Some(analysis) && analysis.state == RepoState::Acquire,
    ensures
        ({
            let after = run.step(EventModel::AcquireFailed, registry, task_names);
            &&& after.issues == run.issues
            &&& after.index == run.index + 1
            &&& after.index < run.repos.len() ==> after.pending() == (RunActionModel::Perform {
                repo_url: run.repos[after.index],
                action: ActionModel::Acquire,
            })
            &&& after.index == run.repos.len() ==> after.pending() == RunActionModel::Finish
        }),
{
}

/// An event keeps the analysis in a state that it can have reached, and does
/// not break the rule that every skipped repository counts as analyzed.
pub proof fn lemma_step_keeps_invariants(
    analysis: AnalysisModel,
    event: EventModel,
    issues: IssuesModel,
    registry: Map<Seq<char>, Seq<Seq<char>>>,
    task_names: Seq<Seq<char>>,
)
    requires
        analysis.wf(),
        issues.consistent(),
    ensures
        step_spec(analysis, event, issues, registry, task_names).analysis.wf(),
        step_spec(analysis, event, issues, registry, task_names).issues.consistent(),
        step_spec(analysis, event, issues, registry, task_names).analysis.repo == analysis.repo,
{
    if analysis.state == RepoState::ScanEachFile {
        if let EventModel::FileRead(content) = event {
            let file = analysis.files[analysis.next_file];
            lemma_record_keys_keeps_repositories(
                issues,
                analysis.found_tasks,
                scan(content),
                analysis.repo,
                file,
                registry,
            );
            let recorded = record_keys(
                issues,
                analysis.found_tasks,
                scan(content),
                analysis.repo,
                file,
                registry,
            );
            lemma_reconcile_keeps_repositories(recorded.0, analysis.repo, task_names, recorded.1);
        }
    }
}

/// Every repository that is named in what a run has found counts as
/// analyzed: the skipped ones, those with missing tasks, and those of every
/// sighting, valid or invalid.
pub open spec fn names_analyzed_repos_only(issues: IssuesModel) -> bool {
    &&& issues.repos_skipped.subset_of(issues.repos_analyzed)
    &&& forall|repo: Seq<char>| #[trigger]
        issues.missing_required_tasks.dom().contains(repo) ==> issues.repos_analyzed.contains(repo)
    &&& forall|task: Seq<char>, j: int|
        issues.all_implementations.dom().contains(task) && 0 <= j
            < issues.all_implementations[task].len() ==> issues.repos_analyzed.contains(
            (#[trigger] issues.all_implementations[task][j]).repo_name,
        )
    &&& forall|task: Seq<char>, repo: Seq<char>|
        issues.invalid_states.dom().contains(task) && #[trigger] issues.invalid_states[task].dom().contains(
            repo,
        ) ==> issues.repos_analyzed.contains(repo)
    &&& forall|task: Seq<char>, repo: Seq<char>, j: int|
        issues.invalid_states.dom().contains(task) && issues.invalid_states[task].dom().contains(
            repo,
        ) && 0 <= j < issues.invalid_states[task][repo].len() ==> (
        #[trigger] issues.invalid_states[task][repo][j]).repo_name == repo
}

/// A sighting in an analyzed repository names no repository that is not
/// analyzed.
pub proof fn lemma_sighting_names_analyzed_repo(
    issues: IssuesModel,
    task_name: Seq<char>,
    sighting: Sighting,
    registry: Map<Seq<char>, Seq<Seq<char>>>,
)
    requires
        names_analyzed_repos_only(issues),
        issues.repos_analyzed.contains(sighting.repo_name),
    ensures
        names_analyzed_repos_only(issues.with_sighting(task_name, sighting, registry)),
{
    let after = issues.with_sighting(task_name, sighting, registry);
    let name = lowercase_of(task_name);
    assert forall|task: Seq<char>, j: int|
        after.all_implementations.dom().contains(task) && 0 <= j
            < after.all_implementations[task].len() implies after.repos_analyzed.contains(
        (#[trigger] after.all_implementations[task][j]).repo_name,
    ) by {
        if task == name {
            if j < list_of(issues.all_implementations, name).len() {
                assert(after.all_implementations[task][j] == issues.all_implementations[task][j]);
            }
        } else {
            assert(after.all_implementations[task][j] == issues.all_implementations[task][j]);
        }
    }
    assert forall|task: Seq<char>, repo: Seq<char>|
        after.invalid_states.dom().contains(task) && #[trigger] after.invalid_states[task].dom().contains(
            repo,
        ) implies after.repos_analyzed.contains(repo) by {
        if after.invalid_states != issues.invalid_states {
            if task == name {
                if repo != sighting.repo_name {
                    assert(issues.invalid_states[task].dom().contains(repo));
                }
            } else {
                assert(issues.invalid_states[task].dom().contains(repo));
            }
        }
    }
    assert forall|task: Seq<char>, repo: Seq<char>, j: int|
        after.invalid_states.dom().contains(task) && after.invalid_states[task].dom().contains(repo)
            && 0 <= j < after.invalid_states[task][repo].len() implies (
    #[trigger] after.invalid_states[task][repo][j]).repo_name == repo by {
        if after.invalid_states != issues.invalid_states {
            if task == name && repo == sighting.repo_name {
                let before = list_of(map_of(issues.invalid_states, name), repo);
                if j < before.len() {
                    assert(after.invalid_states[task][repo][j] == issues.invalid_states[task][repo][j]);
                }
            } else {
                assert(after.invalid_states[task][repo][j] == issues.invalid_states[task][repo][j]);
            }
        }
    }
}

/// The keys of a file of an analyzed repository name no repository that is
/// not analyzed.
pub proof fn lemma_record_keys_names_analyzed_repo(
    issues: IssuesModel,
    found: Set<Seq<char>>,
    keys: Seq<Seq<char>>,
    repo: Seq<char>,
    file: Seq<char>,
    registry: Map<Seq<char>, Seq<Seq<char>>>,
)
    requires
        names_analyzed_repos_only(issues),
        issues.repos_analyzed.contains(repo),
    ensures
        names_analyzed_repos_only(record_keys(issues, found, keys, repo, file, registry).0),
    decreases keys.len(),
{
    if keys.len() > 0 {
        lemma_record_keys_names_analyzed_repo(issues, found, keys.drop_last(), repo, file, registry);
        lemma_record_keys_keeps_repositories(issues, found, keys.drop_last(), repo, file, registry);
        let before = record_keys(issues, found, keys.drop_last(), repo, file, registry);
        if let Some((name, version)) = split_key(keys.last()) {
            lemma_sighting_names_analyzed_repo(
                before.0,
                name,
                Sighting { repo_name: repo, version, file_path: file },
                registry,
            );
        }
    }
}

/// The missing tasks of an analyzed repository name no repository that is
/// not analyzed.
pub proof fn lemma_reconcile_names_analyzed_repo(
    issues: IssuesModel,
    repo: Seq<char>,
    task_names: Seq<Seq<char>>,
    found: Set<Seq<char>>,
)
    requires
        names_analyzed_repos_only(issues),
        issues.repos_analyzed.contains(repo),
    ensures
        names_analyzed_repos_only(reconcile(issues, repo, task_names, found)),
    decreases task_names.len(),
{
    if task_names.len() > 0 {
        lemma_reconcile_names_analyzed_repo(issues, repo, task_names.drop_last(), found);
        lemma_reconcile_keeps_repositories(issues, repo, task_names.drop_last(), found);
    }
}

impl RunModel {
    /// What the run has found is accounted for: every repository that counts
    /// as analyzed or as skipped is one of the repositories of the run, every
    /// repository that is named in a finding counts as analyzed, and so does
    /// the repository that is dealt with, once it was acquired.
    pub open spec fn accounted(self) -> bool {
        &&& self.issues.repos_analyzed.subset_of(self.repos.to_set())
        &&& self.issues.repos_skipped.subset_of(self.repos.to_set())
        &&& names_analyzed_repos_only(self.issues)
        &&& self.current matches Some(analysis) ==> analysis.state == RepoState::Acquire
            || self.issues.repos_analyzed.contains(analysis.repo)
    }

    /// The run after `events` were taken, one after the other.
    pub open spec fn after(
        self,
        events: Seq<EventModel>,
        registry: Map<Seq<char>, Seq<Seq<char>>>,
        task_names: Seq<Seq<char>>,
    ) -> RunModel
        decreases events.len(),
    {
        if events.len() == 0 {
            self
        } else {
            self.after(events.drop_last(), registry, task_names).step(
                events.last(),
                registry,
                task_names,
            )
        }
    }
}

/// An event leaves what the run has found accounted for.
pub proof fn lemma_run_step_keeps_account(
    run: RunModel,
    event: EventModel,
    registry: Map<Seq<char>, Seq<Seq<char>>>,
    task_names: Seq<Seq<char>>,
)
    requires
        run.wf(),
        run.accounted(),
    ensures
        run.step(event, registry, task_names).accounted(),
{
    if let Some(analysis) = run.current {
        assert(run.repos.to_set().contains(run.repos[run.index]));
        if analysis.state == RepoState::ScanEachFile {
            if let EventModel::FileRead(content) = event {
                let file = analysis.files[analysis.next_file];
                lemma_record_keys_names_analyzed_repo(
                    run.issues,
                    analysis.found_tasks,
                    scan(content),
                    analysis.repo,
                    file,
                    registry,
                );
                lemma_record_keys_keeps_repositories(
                    run.issues,
                    analysis.found_tasks,
                    scan(content),
                    analysis.repo,
                    file,
                    registry,
                );
                let recorded = record_keys(
                    run.issues,
                    analysis.found_tasks,
                    scan(content),
                    analysis.repo,
                    file,
                    registry,
                );
                lemma_reconcile_names_analyzed_repo(
                    recorded.0,
                    analysis.repo,
                    task_names,
                    recorded.1,
                );
                lemma_reconcile_keeps_repositories(
                    recorded.0,
                    analysis.repo,
                    task_names,
                    recorded.1,
                );
            }
        }
    }
}

/// Whatever events a run takes from its start, it stays in a state that it
/// can have reached, and what it has found stays accounted for: the
/// repositories that count as analyzed or as skipped are repositories of the
/// run, and every repository that is named in a sighting or with a missing
/// task counts as analyzed.
pub proof fn lemma_run_is_accounted(
    repos: Seq<Seq<char>>,
    events: Seq<EventModel>,
    registry: Map<Seq<char>, Seq<Seq<char>>>,
    task_names: Seq<Seq<char>>,
)
    ensures
        RunModel::start(repos).after(events, registry, task_names).wf(),
        RunModel::start(repos).after(events, registry, task_names).accounted(),
        RunModel::start(repos).after(events, registry, task_names).repos == repos,
    decreases events.len(),
{
    if events.len() > 0 {
        lemma_run_is_accounted(repos, events.drop_last(), registry, task_names);
        let before = RunModel::start(repos).after(events.drop_last(), registry, task_names);
        lemma_run_keeps_order(before, events.last(), registry, task_names);
        lemma_run_step_keeps_account(before, events.last(), registry, task_names);
    }
}

/// The name in a key `name@version`: what stands before its first `@`.
pub open spec fn key_name(key: Seq<char>) -> Seq<char> {
    match split_key(key) {
        Some((name, _)) => name,
        None => Seq::empty(),
    }
}

/// Whether some key among `keys` names a task whose lowercase name is
/// `task`.
pub open spec fn names_task(keys: Seq<Seq<char>>, task: Seq<char>) -> bool {
    exists|i: int|
        0 <= i < keys.len() && split_key(#[trigger] keys[i]) is Some && lowercase_of(
            key_name(keys[i]),
        ) == task
}

/// After the keys of a file were recorded, a task counts as found exactly
/// where it did before or where some key names it, in whatever case.
pub proof fn lemma_found_after_record_keys(
    issues: IssuesModel,
    found: Set<Seq<char>>,
    keys: Seq<Seq<char>>,
    repo: Seq<char>,
    file: Seq<char>,
    registry: Map<Seq<char>, Seq<Seq<char>>>,
    task: Seq<char>,
)
    ensures
        record_keys(issues, found, keys, repo, file, registry).1.contains(task) <==> found.contains(
            task,
        ) || names_task(keys, task),
    decreases keys.len(),
{
    if keys.len() > 0 {
        let shorter = keys.drop_last();
        lemma_found_after_record_keys(issues, found, shorter, repo, file, registry, task);
        if names_task(shorter, task) {
            let i = choose|i: int|
                0 <= i < shorter.len() && split_key(#[trigger] shorter[i]) is Some && lowercase_of(
                    key_name(shorter[i]),
                ) == task;
            assert(keys[i] == shorter[i]);
        }
        if names_task(keys, task) {
            let i = choose|i: int|
                0 <= i < keys.len() && split_key(#[trigger] keys[i]) is Some && lowercase_of(
                    key_name(keys[i]),
                ) == task;
            if i < shorter.len() {
                assert(shorter[i] == keys[i]);
            }
        }
        if split_key(keys.last()) is Some && lowercase_of(key_name(keys.last())) == task {
            assert(keys[keys.len() - 1] == keys.last());
        }
    }
}

/// The tasks of `task_names` that are not among `found`, in their order.
pub open spec fn missing_among(task_names: Seq<Seq<char>>, found: Set<Seq<char>>) -> Seq<
    Seq<char>,
>
    decreases task_names.len(),
{
    if task_names.len() == 0 {
        Seq::empty()
    } else if found.contains(task_names.last()) {
        missing_among(task_names.drop_last(), found)
    } else {
        missing_among(task_names.drop_last(), found).push(task_names.last())
    }
}

/// Reporting the missing tasks of a repository adds to its missing tasks
/// exactly the registered tasks that were not found, each once and in the
/// order of the registry, and leaves the missing tasks of every other
/// repository as they were.
pub proof fn lemma_reconcile_reports_missing(
    issues: IssuesModel,
    repo: Seq<char>,
    task_names: Seq<Seq<char>>,
    found: Set<Seq<char>>,
    other: Seq<char>,
)
    ensures
        list_of(reconcile(issues, repo, task_names, found).missing_required_tasks, repo) == list_of(
            issues.missing_required_tasks,
            repo,
        ) + missing_among(task_names, found),
        other != repo ==> list_of(
            reconcile(issues, repo, task_names, found).missing_required_tasks,
            other,
        ) == list_of(issues.missing_required_tasks, other),
        forall|task: Seq<char>| #[trigger]
            missing_among(task_names, found).contains(task) <==> task_names.contains(task)
                && !found.contains(task),
    decreases task_names.len(),
{
    if task_names.len() == 0 {
        assert(list_of(issues.missing_required_tasks, repo) + Seq::<Seq<char>>::empty() =~= list_of(
            issues.missing_required_tasks,
            repo,
        ));
    } else {
        let shorter = task_names.drop_last();
        let last = task_names.last();
        lemma_reconcile_reports_missing(issues, repo, shorter, found, other);
        let before = missing_among(shorter, found);
        let now = missing_among(task_names, found);
        assert(list_of(issues.missing_required_tasks, repo) + before.push(last) =~= (list_of(
            issues.missing_required_tasks,
            repo,
        ) + before).push(last));
        assert forall|task: Seq<char>| #[trigger]
            now.contains(task) <==> task_names.contains(task) && !found.contains(task) by {
            if now.contains(task) {
                let j = choose|j: int| 0 <= j < now.len() && now[j] == task;
                if j < before.len() {
                    assert(before[j] == task);
                    assert(before.contains(task));
                    let k = choose|k: int| 0 <= k < shorter.len() && shorter[k] == task;
                    assert(task_names[k] == task);
                } else {
                    assert(task == last);
                    assert(task_names[task_names.len() - 1] == task);
                }
            }
            if task_names.contains(task) && !found.contains(task) {
                let k = choose|k: int| 0 <= k < task_names.len() && task_names[k] == task;
                if k < shorter.len() {
                    assert(shorter[k] == task);
                    assert(shorter.contains(task));
                    assert(before.contains(task));
                    let j = choose|j: int| 0 <= j < before.len() && before[j] == task;
                    assert(now[j] == task);
                } else {
                    assert(now[now.len() - 1] == task);
                }
            }
        }
    }
}

/// Recording the keys of a file changes neither the repositories that count
/// as analyzed nor those that were skipped, nor the tasks that are noted as
/// missing.
pub proof fn lemma_record_keys_keeps_repositories(
    issues: IssuesModel,
    found: Set<Seq<char>>,
    keys: Seq<Seq<char>>,
    repo: Seq<char>,
    file: Seq<char>,
    registry: Map<Seq<char>, Seq<Seq<char>>>,
)
    ensures
        record_keys(issues, found, keys, repo, file, registry).0.repos_analyzed
            == issues.repos_analyzed,
        record_keys(issues, found, keys, repo, file, registry).0.repos_skipped
            == issues.repos_skipped,
        record_keys(issues, found, keys, repo, file, registry).0.missing_required_tasks
            == issues.missing_required_tasks,
    decreases keys.len(),
{
    if keys.len() > 0 {
        lemma_record_keys_keeps_repositories(issues, found, keys.drop_last(), repo, file, registry);
    }
}

/// Reporting missing tasks changes nothing but the tasks that are noted as
/// missing.
pub proof fn lemma_reconcile_keeps_repositories(
    issues: IssuesModel,
    repo: Seq<char>,
    task_names: Seq<Seq<char>>,
    found: Set<Seq<char>>,
)
    ensures
        reconcile(issues, repo, task_names, found).repos_analyzed == issues.repos_analyzed,
        reconcile(issues, repo, task_names, found).repos_skipped == issues.repos_skipped,
        reconcile(issues, repo, task_names, found).all_implementations
            == issues.all_implementations,
        reconcile(issues, repo, task_names, found).invalid_states == issues.invalid_states,
        reconcile(issues, repo, task_names, found).missing_states == issues.missing_states,
    decreases task_names.len(),
{
    if task_names.len() > 0 {
        lemma_reconcile_keeps_repositories(issues, repo, task_names.drop_last(), found);
    }
}

/// A repository that could not be acquired leaves no trace: it counts
/// neither as analyzed nor as skipped, and nothing is recorded for it.
pub proof fn lemma_failed_acquisition_records_nothing(
    repo: Seq<char>,
    issues: IssuesModel,
    registry: Map<Seq<char>, Seq<Seq<char>>>,
    task_names: Seq<Seq<char>>,
)
    ensures
        step_spec(
            AnalysisModel::start(repo),
            EventModel::AcquireFailed,
            issues,
            registry,
            task_names,
        ).issues == issues,
        step_spec(
            AnalysisModel::start(repo),
            EventModel::AcquireFailed,
            issues,
            registry,
            task_names,
        ).analysis.is_terminal(),
{
}

/// A repository that was acquired counts as analyzed, whatever follows.
pub proof fn lemma_acquired_repository_is_analyzed(
    repo: Seq<char>,
    issues: IssuesModel,
    registry: Map<Seq<char>, Seq<Seq<char>>>,
    task_names: Seq<Seq<char>>,
)
    ensures
        step_spec(
            AnalysisModel::start(repo),
            EventModel::Acquired,
            issues,
            registry,
            task_names,
        ).issues.repos_analyzed.contains(repo),
{
}

/// A repository without pipeline files counts as analyzed and as skipped,
/// and contributes no sighting and no missing task.
pub proof fn lemma_repository_without_files_is_skipped(
    analysis: AnalysisModel,
    issues: IssuesModel,
    registry: Map<Seq<char>, Seq<Seq<char>>>,
    task_names: Seq<Seq<char>>,
)
    requires
        analysis.state == RepoState::Discover,
    ensures
        ({
            let after = step_spec(
                analysis,
                EventModel::Discovered(Seq::empty()),
                issues,
                registry,
                task_names,
            );
            &&& after.analysis.state == RepoState::NoFilesSkipped
            &&& after.issues.repos_analyzed.contains(analysis.repo)
            &&& after.issues.repos_skipped.contains(analysis.repo)
            &&& after.issues.all_implementations == issues.all_implementations
            &&& after.issues.invalid_states == issues.invalid_states
            &&& after.issues.missing_states == issues.missing_states
            &&& after.issues.missing_required_tasks == issues.missing_required_tasks
        }),
{
}

/// An analysis that has ended stays as it is, and so does the accumulator.
pub proof fn lemma_ended_analysis_stays(
    analysis: AnalysisModel,
    event: EventModel,
    issues: IssuesModel,
    registry: Map<Seq<char>, Seq<Seq<char>>>,
    task_names: Seq<Seq<char>>,
)
    requires
        analysis.is_terminal(),
    ensures
        step_spec(analysis, event, issues, registry, task_names).analysis == analysis,
        step_spec(analysis, event, issues, registry, task_names).issues == issues,
{
}

} // verus!
